//! The binary codec for compiled programs.
//!
//! A `Code` is written as one self-describing MessagePack map with exactly
//! four entries, in this fixed order: `"code"` (the instruction stream as
//! unsigned integers), `"data"` (each operand written by the operand type's
//! own codec capability), `"symbols"` (op code and mnemonic alternating)
//! and `"labels"` (position and name alternating, ascending by position).
//! Decoding checks every section tag in this exact order; any deviation is
//! a fatal format error.

use vstd::prelude::*;

use crate::code::Code;
use crate::code_deserialize::CodeDeserialize;
use crate::code_serialize::CodeSerialize;
use crate::errors::CodecError;
use crate::msgpack::mp_array;
use crate::msgpack::mp_map;
use crate::msgpack::mp_str;
use crate::msgpack::mp_str_wf;
use crate::msgpack::mp_uint;
use crate::msgpack::read_array_len;
use crate::msgpack::read_map_len;
use crate::msgpack::read_str;
use crate::msgpack::read_uint;
use crate::msgpack::write_array_len;
use crate::msgpack::write_map_len;
use crate::msgpack::write_str;
use crate::msgpack::write_uint;

verus! {

/// The byte code of a run of unsigned integers.
pub open spec fn cat_uints(s: Seq<usize>) -> Seq<u8>
    decreases s.len(),
{
    if s.len() == 0 {
        Seq::empty()
    } else {
        mp_uint(s[0] as u64) + cat_uints(s.skip(1))
    }
}

/// The byte code of a run of `(number, name)` pairs, alternating.
pub open spec fn cat_pairs(s: Seq<(usize, String)>) -> Seq<u8>
    decreases s.len(),
{
    if s.len() == 0 {
        Seq::empty()
    } else {
        mp_uint(s[0].0 as u64) + (mp_str(s[0].1@) + cat_pairs(s.skip(1)))
    }
}

/// The byte code of a run of operands, each written by its own codec.
pub open spec fn cat_data<T: CodeSerialize>(s: Seq<T>) -> Seq<u8>
    decreases s.len(),
{
    if s.len() == 0 {
        Seq::empty()
    } else {
        s[0].byte_code() + cat_data(s.skip(1))
    }
}

/// An array of unsigned integers: header, then the integers.
pub open spec fn uints_section(s: Seq<usize>) -> Seq<u8> {
    mp_array(s.len() as u32) + cat_uints(s)
}

/// An array of operands: header, then each operand's own byte code.
pub open spec fn data_section<T: CodeSerialize>(s: Seq<T>) -> Seq<u8> {
    mp_array(s.len() as u32) + cat_data(s)
}

/// An array of alternating numbers and names: header counting both, then
/// the pairs.
pub open spec fn pairs_section(s: Seq<(usize, String)>) -> Seq<u8> {
    mp_array((2 * s.len()) as u32) + cat_pairs(s)
}

/// The pair list fits the wire format's length fields.
pub open spec fn pairs_wf(s: Seq<(usize, String)>) -> bool {
    &&& 2 * s.len() <= u32::MAX
    &&& forall|i: int| 0 <= i < s.len() ==> mp_str_wf((#[trigger] s[i]).1@)
}

proof fn lemma_cat_uints_snoc(s: Seq<usize>, v: usize)
    ensures
        cat_uints(s.push(v)) == cat_uints(s) + mp_uint(v as u64),
    decreases s.len(),
{
    if s.len() == 0 {
        assert(s.push(v)[0] == v);
        assert(s.push(v).skip(1) =~= Seq::<usize>::empty());
        assert(cat_uints(s.push(v)) == mp_uint(v as u64) + cat_uints(s.push(v).skip(1)));
        assert(cat_uints(s.push(v).skip(1)) == Seq::<u8>::empty());
        assert(cat_uints(s) + mp_uint(v as u64) =~= mp_uint(v as u64) + Seq::<u8>::empty());
    } else {
        assert(s.push(v)[0] == s[0]);
        assert(s.push(v).skip(1) =~= s.skip(1).push(v));
        lemma_cat_uints_snoc(s.skip(1), v);
        assert(mp_uint(s[0] as u64) + (cat_uints(s.skip(1)) + mp_uint(v as u64)) =~= (mp_uint(
            s[0] as u64,
        ) + cat_uints(s.skip(1))) + mp_uint(v as u64));
    }
}

proof fn lemma_cat_pairs_snoc(s: Seq<(usize, String)>, p: (usize, String))
    ensures
        cat_pairs(s.push(p)) == cat_pairs(s) + (mp_uint(p.0 as u64) + mp_str(p.1@)),
    decreases s.len(),
{
    if s.len() == 0 {
        assert(s.push(p)[0] == p);
        assert(s.push(p).skip(1) =~= Seq::<(usize, String)>::empty());
        assert(cat_pairs(s.push(p)) == mp_uint(p.0 as u64) + (mp_str(p.1@) + cat_pairs(
            s.push(p).skip(1),
        )));
        assert(cat_pairs(s.push(p).skip(1)) == Seq::<u8>::empty());
        assert(mp_uint(p.0 as u64) + (mp_str(p.1@) + Seq::<u8>::empty()) =~= cat_pairs(s) + (
        mp_uint(p.0 as u64) + mp_str(p.1@)));
    } else {
        assert(s.push(p)[0] == s[0]);
        assert(s.push(p).skip(1) =~= s.skip(1).push(p));
        assert(cat_pairs(s.push(p)) == mp_uint(s[0].0 as u64) + (mp_str(s[0].1@) + cat_pairs(
            s.push(p).skip(1),
        )));
        lemma_cat_pairs_snoc(s.skip(1), p);
        assert(mp_uint(s[0].0 as u64) + (mp_str(s[0].1@) + (cat_pairs(s.skip(1)) + (mp_uint(
            p.0 as u64,
        ) + mp_str(p.1@)))) =~= (mp_uint(s[0].0 as u64) + (mp_str(s[0].1@) + cat_pairs(
            s.skip(1),
        ))) + (mp_uint(p.0 as u64) + mp_str(p.1@)));
    }
}

proof fn lemma_cat_data_snoc<T: CodeSerialize>(s: Seq<T>, v: T)
    ensures
        cat_data(s.push(v)) == cat_data(s) + v.byte_code(),
    decreases s.len(),
{
    if s.len() == 0 {
        assert(s.push(v)[0] == v);
        assert(s.push(v).skip(1) =~= Seq::<T>::empty());
        assert(cat_data(s.push(v)) == v.byte_code() + cat_data(s.push(v).skip(1)));
        assert(cat_data(s.push(v).skip(1)) == Seq::<u8>::empty());
        assert(cat_data(s) + v.byte_code() =~= v.byte_code() + Seq::<u8>::empty());
    } else {
        assert(s.push(v)[0] == s[0]);
        assert(s.push(v).skip(1) =~= s.skip(1).push(v));
        assert(cat_data(s.push(v)) == s[0].byte_code() + cat_data(s.push(v).skip(1)));
        lemma_cat_data_snoc(s.skip(1), v);
        assert(s[0].byte_code() + (cat_data(s.skip(1)) + v.byte_code()) =~= (s[0].byte_code()
            + cat_data(s.skip(1))) + v.byte_code());
    }
}

/// Write an array of unsigned integers.
fn write_uints(buf: &mut Vec<u8>, vals: &Vec<usize>)
    requires
        vals@.len() <= u32::MAX,
    ensures
        final(buf)@ == old(buf)@ + uints_section(vals@),
{
    write_array_len(buf, vals.len() as u32);
    let n = vals.len();
    let mut i: usize = 0;
    while i < n
        invariant
            n == vals@.len(),
            n <= u32::MAX,
            i <= n,
            buf@ == old(buf)@ + mp_array(vals@.len() as u32) + cat_uints(vals@.take(i as int)),
        decreases n - i,
    {
        write_uint(buf, vals[i] as u64);
        proof {
            lemma_cat_uints_snoc(vals@.take(i as int), vals@[i as int]);
            assert(vals@.take(i as int).push(vals@[i as int]) =~= vals@.take(i as int + 1));
            assert((old(buf)@ + mp_array(vals@.len() as u32) + cat_uints(vals@.take(i as int)))
                + mp_uint(vals@[i as int] as u64) =~= old(buf)@ + mp_array(vals@.len() as u32)
                + cat_uints(vals@.take(i as int + 1)));
        }
        i = i + 1;
    }
    proof {
        assert(vals@.take(n as int) =~= vals@);
        assert(old(buf)@ + mp_array(vals@.len() as u32) + cat_uints(vals@) =~= old(buf)@ + (
        mp_array(vals@.len() as u32) + cat_uints(vals@)));
    }
}

/// Write an array of alternating numbers and names.
fn write_pairs(buf: &mut Vec<u8>, pairs: &Vec<(usize, String)>)
    requires
        2 * pairs@.len() <= u32::MAX,
    ensures
        final(buf)@ == old(buf)@ + pairs_section(pairs@),
{
    let n = pairs.len();
    write_array_len(buf, (n * 2) as u32);
    let mut i: usize = 0;
    while i < n
        invariant
            n == pairs@.len(),
            2 * n <= u32::MAX,
            i <= n,
            buf@ == old(buf)@ + mp_array((2 * pairs@.len()) as u32) + cat_pairs(
                pairs@.take(i as int),
            ),
        decreases n - i,
    {
        write_uint(buf, pairs[i].0 as u64);
        write_str(buf, pairs[i].1.as_str());
        proof {
            lemma_cat_pairs_snoc(pairs@.take(i as int), pairs@[i as int]);
            assert(pairs@.take(i as int).push(pairs@[i as int]) =~= pairs@.take(i as int + 1));
            assert(((old(buf)@ + mp_array((2 * pairs@.len()) as u32) + cat_pairs(
                pairs@.take(i as int),
            )) + mp_uint(pairs@[i as int].0 as u64)) + mp_str(pairs@[i as int].1@) =~= old(
                buf,
            )@ + mp_array((2 * pairs@.len()) as u32) + cat_pairs(pairs@.take(i as int + 1)));
        }
        i = i + 1;
    }
    proof {
        assert(pairs@.take(n as int) =~= pairs@);
        assert(old(buf)@ + mp_array((2 * pairs@.len()) as u32) + cat_pairs(pairs@) =~= old(buf)@
            + (mp_array((2 * pairs@.len()) as u32) + cat_pairs(pairs@)));
    }
}

/// Write an array of operands through the operand type's own codec.
fn write_data<T: CodeSerialize>(buf: &mut Vec<u8>, vals: &Vec<T>)
    requires
        vals@.len() <= u32::MAX,
        forall|i: int| 0 <= i < vals@.len() ==> (#[trigger] vals@[i]).serial_wf(),
    ensures
        final(buf)@ == old(buf)@ + data_section(vals@),
{
    write_array_len(buf, vals.len() as u32);
    let n = vals.len();
    let mut i: usize = 0;
    while i < n
        invariant
            n == vals@.len(),
            n <= u32::MAX,
            i <= n,
            forall|j: int| 0 <= j < vals@.len() ==> (#[trigger] vals@[j]).serial_wf(),
            buf@ == old(buf)@ + mp_array(vals@.len() as u32) + cat_data(vals@.take(i as int)),
        decreases n - i,
    {
        vals[i].to_byte_code(buf);
        proof {
            lemma_cat_data_snoc(vals@.take(i as int), vals@[i as int]);
            assert(vals@.take(i as int).push(vals@[i as int]) =~= vals@.take(i as int + 1));
            assert((old(buf)@ + mp_array(vals@.len() as u32) + cat_data(vals@.take(i as int)))
                + vals@[i as int].byte_code() =~= old(buf)@ + mp_array(vals@.len() as u32)
                + cat_data(vals@.take(i as int + 1)));
        }
        i = i + 1;
    }
    proof {
        assert(vals@.take(n as int) =~= vals@);
        assert(old(buf)@ + mp_array(vals@.len() as u32) + cat_data(vals@) =~= old(buf)@ + (
        mp_array(vals@.len() as u32) + cat_data(vals@)));
    }
}

/// Read an array of unsigned integers, each of which must fit `usize`.
fn read_uints_section<'a>(bytes: &'a [u8]) -> (r: Result<(Vec<usize>, &'a [u8]), CodecError>)
    ensures
        forall|s: Seq<usize>, rest: Seq<u8>|
            s.len() <= u32::MAX && bytes@ == uints_section(s) + rest ==> (r matches Ok(p) && p.0@
                == s && p.1@ == rest),
{
    let hd = read_array_len(bytes);
    proof {
        assert forall|s: Seq<usize>, rest: Seq<u8>|
            s.len() <= u32::MAX && bytes@ == uints_section(s) + rest implies (hd matches Ok(q)
                && q.0 == s.len() && q.1@ == cat_uints(s) + rest) by {
            assert(bytes@ == mp_array(s.len() as u32) + (cat_uints(s) + rest));
        }
    }
    let (n, cur0) = match hd {
        Ok(q) => q,
        Err(_) => {
            return Err(CodecError::Format);
        },
    };
    let mut out: Vec<usize> = Vec::new();
    let mut cur = cur0;
    let mut k: u32 = 0;
    proof {
        assert forall|s: Seq<usize>, rest: Seq<u8>|
            s.len() <= u32::MAX && bytes@ == uints_section(s) + rest implies (n == s.len() && out@
                == s.take(0) && cur@ == cat_uints(s.skip(0)) + rest) by {
            assert(s.take(0) =~= Seq::<usize>::empty());
            assert(s.skip(0) =~= s);
        }
    }
    while k < n
        invariant
            k <= n,
            out@.len() == k,
            forall|s: Seq<usize>, rest: Seq<u8>|
                s.len() <= u32::MAX && bytes@ == uints_section(s) + rest ==> (n == s.len() && out@
                    == s.take(k as int) && cur@ == cat_uints(s.skip(k as int)) + rest),
        decreases n - k,
    {
        let rd = read_uint(cur);
        proof {
            assert forall|s: Seq<usize>, rest: Seq<u8>|
                s.len() <= u32::MAX && bytes@ == uints_section(s) + rest implies (rd matches Ok(q)
                    && q.0 == s[k as int] as u64 && q.1@ == cat_uints(s.skip(k as int + 1))
                    + rest) by {
                assert(s.skip(k as int).len() > 0);
                assert(cat_uints(s.skip(k as int)) == mp_uint(s.skip(k as int)[0] as u64)
                    + cat_uints(s.skip(k as int).skip(1)));
                assert(s.skip(k as int)[0] == s[k as int]);
                assert(s.skip(k as int).skip(1) =~= s.skip(k as int + 1));
                assert(cur@ == mp_uint(s[k as int] as u64) + (cat_uints(s.skip(k as int + 1))
                    + rest));
            }
        }
        let (v, next) = match rd {
            Ok(q) => q,
            Err(_) => {
                return Err(CodecError::Format);
            },
        };
        if v > usize::MAX as u64 {
            return Err(CodecError::Format);
        }
        let vv = v as usize;
        out.push(vv);
        cur = next;
        k = k + 1;
        proof {
            assert forall|s: Seq<usize>, rest: Seq<u8>|
                s.len() <= u32::MAX && bytes@ == uints_section(s) + rest implies (n == s.len()
                    && out@ == s.take(k as int) && cur@ == cat_uints(s.skip(k as int)) + rest) by {
                assert(vv == s[k as int - 1]);
                assert(s.take(k as int - 1).push(s[k as int - 1]) =~= s.take(k as int));
            }
        }
    }
    proof {
        assert forall|s: Seq<usize>, rest: Seq<u8>|
            s.len() <= u32::MAX && bytes@ == uints_section(s) + rest implies (out@ == s && cur@
                == rest) by {
            assert(s.take(s.len() as int) =~= s);
            assert(s.skip(s.len() as int) =~= Seq::<usize>::empty());
            assert(cat_uints(s.skip(s.len() as int)) == Seq::<u8>::empty());
            assert(Seq::<u8>::empty() + rest =~= rest);
        }
    }
    Ok((out, cur))
}

/// Read an array of alternating numbers and names.
#[verifier::rlimit(50)]
fn read_pairs_section<'a>(bytes: &'a [u8]) -> (r: Result<(Vec<(usize, String)>, &'a [u8]), CodecError>)
    ensures
        forall|s: Seq<(usize, String)>, rest: Seq<u8>|
            pairs_wf(s) && bytes@ == pairs_section(s) + rest ==> (r matches Ok(p) && p.0@.len()
                == s.len() && (forall|i: int|
                0 <= i < s.len() ==> (#[trigger] p.0@[i]).0 == s[i].0 && p.0@[i].1@ == s[i].1@)
                && p.1@ == rest),
{
    let hd = read_array_len(bytes);
    proof {
        assert forall|s: Seq<(usize, String)>, rest: Seq<u8>|
            pairs_wf(s) && bytes@ == pairs_section(s) + rest implies (hd matches Ok(q) && q.0 == 2
                * s.len() && q.1@ == cat_pairs(s) + rest) by {
            assert(bytes@ == mp_array((2 * s.len()) as u32) + (cat_pairs(s) + rest));
        }
    }
    let (n, cur0) = match hd {
        Ok(q) => q,
        Err(_) => {
            return Err(CodecError::Format);
        },
    };
    let count = n / 2;
    let mut out: Vec<(usize, String)> = Vec::new();
    let mut cur = cur0;
    let mut k: u32 = 0;
    proof {
        assert forall|s: Seq<(usize, String)>, rest: Seq<u8>|
            pairs_wf(s) && bytes@ == pairs_section(s) + rest implies (count == s.len() && cur@
                == cat_pairs(s.skip(0)) + rest) by {
            assert(s.skip(0) =~= s);
        }
    }
    while k < count
        invariant
            k <= count,
            out@.len() == k,
            forall|s: Seq<(usize, String)>, rest: Seq<u8>|
                pairs_wf(s) && bytes@ == pairs_section(s) + rest ==> (count == s.len() && (forall|
                    i: int,
                |
                    0 <= i < k ==> (#[trigger] out@[i]).0 == s[i].0 && out@[i].1@ == s[i].1@)
                    && cur@ == cat_pairs(s.skip(k as int)) + rest),
        decreases count - k,
    {
        let rd = read_uint(cur);
        proof {
            assert forall|s: Seq<(usize, String)>, rest: Seq<u8>|
                pairs_wf(s) && bytes@ == pairs_section(s) + rest implies (rd matches Ok(q) && q.0
                    == s[k as int].0 as u64 && q.1@ == mp_str(s[k as int].1@) + (cat_pairs(
                    s.skip(k as int + 1),
                ) + rest)) by {
                assert(s.skip(k as int).len() > 0);
                assert(cat_pairs(s.skip(k as int)) == mp_uint(s.skip(k as int)[0].0 as u64) + (
                mp_str(s.skip(k as int)[0].1@) + cat_pairs(s.skip(k as int).skip(1))));
                assert(s.skip(k as int)[0] == s[k as int]);
                assert(s.skip(k as int).skip(1) =~= s.skip(k as int + 1));
                assert(cur@ == mp_uint(s[k as int].0 as u64) + (mp_str(s[k as int].1@) + (
                cat_pairs(s.skip(k as int + 1)) + rest)));
            }
        }
        let (v, cur1) = match rd {
            Ok(q) => q,
            Err(_) => {
                return Err(CodecError::Format);
            },
        };
        if v > usize::MAX as u64 {
            return Err(CodecError::Format);
        }
        let num = v as usize;
        let rs = read_str(cur1);
        proof {
            assert forall|s: Seq<(usize, String)>, rest: Seq<u8>|
                pairs_wf(s) && bytes@ == pairs_section(s) + rest implies (rs matches Ok(q) && q.0@
                    == s[k as int].1@ && q.1@ == cat_pairs(s.skip(k as int + 1)) + rest) by {
                assert(mp_str_wf(s[k as int].1@));
            }
        }
        let (name, next) = match rs {
            Ok(q) => q,
            Err(_) => {
                return Err(CodecError::Format);
            },
        };
        out.push((num, name));
        cur = next;
        k = k + 1;
        proof {
            assert forall|s: Seq<(usize, String)>, rest: Seq<u8>|
                pairs_wf(s) && bytes@ == pairs_section(s) + rest implies (count == s.len() && (
                forall|i: int|
                    0 <= i < k ==> (#[trigger] out@[i]).0 == s[i].0 && out@[i].1@ == s[i].1@)
                    && cur@ == cat_pairs(s.skip(k as int)) + rest) by {
                assert(out@[k as int - 1].0 == s[k as int - 1].0);
                assert(out@[k as int - 1].1@ == s[k as int - 1].1@);
                assert(forall|i: int|
                    0 <= i < k - 1 ==> (#[trigger] out@[i]).0 == s[i].0 && out@[i].1@
                        == s[i].1@);
            }
        }
    }
    proof {
        assert forall|s: Seq<(usize, String)>, rest: Seq<u8>|
            pairs_wf(s) && bytes@ == pairs_section(s) + rest implies (out@.len() == s.len() && cur@
                == rest) by {
            assert(s.skip(s.len() as int) =~= Seq::<(usize, String)>::empty());
            assert(cat_pairs(s.skip(s.len() as int)) == Seq::<u8>::empty());
            assert(Seq::<u8>::empty() + rest =~= rest);
        }
    }
    Ok((out, cur))
}

/// Read an array of operands through the operand type's own codec.
#[verifier::rlimit(50)]
fn read_data_section<'a, T: CodeDeserialize>(bytes: &'a [u8]) -> (r: Result<
    (Vec<T>, &'a [u8]),
    CodecError,
>)
    ensures
        forall|s: Seq<T>, rest: Seq<u8>|
            s.len() <= u32::MAX && (forall|i: int|
                0 <= i < s.len() ==> (#[trigger] s[i]).serial_wf()) && bytes@ == data_section(s)
                + rest ==> (r matches Ok(p) && p.0@.len() == s.len() && (forall|i: int|
                0 <= i < s.len() ==> (#[trigger] p.0@[i])@ == s[i]@) && p.1@ == rest),
{
    let hd = read_array_len(bytes);
    proof {
        assert forall|s: Seq<T>, rest: Seq<u8>|
            s.len() <= u32::MAX && (forall|i: int|
                0 <= i < s.len() ==> (#[trigger] s[i]).serial_wf()) && bytes@ == data_section(s)
                + rest implies (hd matches Ok(q) && q.0 == s.len() && q.1@ == cat_data(s)
                + rest) by {
            assert(bytes@ == mp_array(s.len() as u32) + (cat_data(s) + rest));
        }
    }
    let (n, cur0) = match hd {
        Ok(q) => q,
        Err(_) => {
            return Err(CodecError::Format);
        },
    };
    let mut out: Vec<T> = Vec::new();
    let mut cur = cur0;
    let mut k: u32 = 0;
    proof {
        assert forall|s: Seq<T>, rest: Seq<u8>|
            s.len() <= u32::MAX && (forall|i: int|
                0 <= i < s.len() ==> (#[trigger] s[i]).serial_wf()) && bytes@ == data_section(s)
                + rest implies (n == s.len() && cur@ == cat_data(s.skip(0)) + rest) by {
            assert(s.skip(0) =~= s);
        }
    }
    while k < n
        invariant
            k <= n,
            out@.len() == k,
            forall|s: Seq<T>, rest: Seq<u8>|
                s.len() <= u32::MAX && (forall|i: int|
                    0 <= i < s.len() ==> (#[trigger] s[i]).serial_wf()) && bytes@ == data_section(
                    s,
                ) + rest ==> (n == s.len() && (forall|i: int|
                    0 <= i < k ==> (#[trigger] out@[i])@ == s[i]@) && cur@ == cat_data(
                    s.skip(k as int),
                ) + rest),
        decreases n - k,
    {
        let rd = T::from_byte_code(cur);
        proof {
            assert forall|s: Seq<T>, rest: Seq<u8>|
                s.len() <= u32::MAX && (forall|i: int|
                    0 <= i < s.len() ==> (#[trigger] s[i]).serial_wf()) && bytes@ == data_section(
                    s,
                ) + rest implies (rd matches Ok(q) && q.0@ == s[k as int]@ && q.1@ == cat_data(
                s.skip(k as int + 1),
            ) + rest) by {
                assert(s.skip(k as int).len() > 0);
                assert(cat_data(s.skip(k as int)) == s.skip(k as int)[0].byte_code() + cat_data(
                    s.skip(k as int).skip(1),
                ));
                assert(s.skip(k as int)[0] == s[k as int]);
                assert(s.skip(k as int).skip(1) =~= s.skip(k as int + 1));
                assert(s[k as int].serial_wf());
                assert(cur@ == s[k as int].byte_code() + (cat_data(s.skip(k as int + 1))
                    + rest));
            }
        }
        let (value, next) = match rd {
            Ok(q) => q,
            Err(_) => {
                return Err(CodecError::Format);
            },
        };
        out.push(value);
        cur = next;
        k = k + 1;
        proof {
            assert forall|s: Seq<T>, rest: Seq<u8>|
                s.len() <= u32::MAX && (forall|i: int|
                    0 <= i < s.len() ==> (#[trigger] s[i]).serial_wf()) && bytes@ == data_section(
                    s,
                ) + rest implies (n == s.len() && (forall|i: int|
                    0 <= i < k ==> (#[trigger] out@[i])@ == s[i]@) && cur@ == cat_data(
                    s.skip(k as int),
                ) + rest) by {
                assert(out@[k as int - 1]@ == s[k as int - 1]@);
                assert(forall|i: int| 0 <= i < k - 1 ==> (#[trigger] out@[i])@ == s[i]@);
            }
        }
    }
    proof {
        assert forall|s: Seq<T>, rest: Seq<u8>|
            s.len() <= u32::MAX && (forall|i: int|
                0 <= i < s.len() ==> (#[trigger] s[i]).serial_wf()) && bytes@ == data_section(s)
                + rest implies (out@.len() == s.len() && cur@ == rest) by {
            assert(s.skip(s.len() as int) =~= Seq::<T>::empty());
            assert(cat_data(s.skip(s.len() as int)) == Seq::<u8>::empty());
            assert(Seq::<u8>::empty() + rest =~= rest);
        }
    }
    Ok((out, cur))
}

/// The remaining bytes of an encoded program, from the labels section on.
spec fn tail_from_labels<T: CodeSerialize>(x: Code<T>, rest: Seq<u8>) -> Seq<u8> {
    pairs_section(x.labels@) + rest
}

/// ... from the labels tag on.
spec fn tail_from_labels_tag<T: CodeSerialize>(x: Code<T>, rest: Seq<u8>) -> Seq<u8> {
    mp_str("labels"@) + tail_from_labels(x, rest)
}

/// ... from the symbols section on.
spec fn tail_from_symbols<T: CodeSerialize>(x: Code<T>, rest: Seq<u8>) -> Seq<u8> {
    pairs_section(x.symbols@) + tail_from_labels_tag(x, rest)
}

/// ... from the symbols tag on.
spec fn tail_from_symbols_tag<T: CodeSerialize>(x: Code<T>, rest: Seq<u8>) -> Seq<u8> {
    mp_str("symbols"@) + tail_from_symbols(x, rest)
}

/// ... from the data section on.
spec fn tail_from_data<T: CodeSerialize>(x: Code<T>, rest: Seq<u8>) -> Seq<u8> {
    data_section(x.data@) + tail_from_symbols_tag(x, rest)
}

/// ... from the data tag on.
spec fn tail_from_data_tag<T: CodeSerialize>(x: Code<T>, rest: Seq<u8>) -> Seq<u8> {
    mp_str("data"@) + tail_from_data(x, rest)
}

/// ... from the instruction-stream section on.
spec fn tail_from_code<T: CodeSerialize>(x: Code<T>, rest: Seq<u8>) -> Seq<u8> {
    uints_section(x.code@) + tail_from_data_tag(x, rest)
}

/// ... from the first tag on.
spec fn tail_from_code_tag<T: CodeSerialize>(x: Code<T>, rest: Seq<u8>) -> Seq<u8> {
    mp_str("code"@) + tail_from_code(x, rest)
}

proof fn lemma_byte_code_split<T: CodeSerialize>(x: Code<T>, rest: Seq<u8>)
    ensures
        x.byte_code() + rest == mp_map(4) + tail_from_code_tag(x, rest),
{
    assert(x.byte_code() + rest =~= mp_map(4) + tail_from_code_tag(x, rest));
}

impl<T: CodeSerialize> CodeSerialize for Code<T> {
    /// One four-entry map: the instruction stream, the data section, the
    /// symbols and the labels, each behind its tag, in this fixed order.
    closed spec fn byte_code(&self) -> Seq<u8> {
        mp_map(4) + (mp_str("code"@) + (uints_section(self.code@) + (mp_str("data"@) + (
        data_section(self.data@) + (mp_str("symbols"@) + (pairs_section(self.symbols@) + (mp_str(
            "labels"@,
        ) + pairs_section(self.labels@))))))))
    }

    closed spec fn serial_wf(&self) -> bool {
        &&& self.code@.len() <= u32::MAX
        &&& self.data@.len() <= u32::MAX
        &&& forall|i: int| 0 <= i < self.data@.len() ==> (#[trigger] self.data@[i]).serial_wf()
        &&& pairs_wf(self.symbols@)
        &&& pairs_wf(self.labels@)
    }

    #[verifier::rlimit(100)]
    fn to_byte_code(&self, buf: &mut Vec<u8>) {
        write_map_len(buf, 4);
        write_str(buf, "code");
        write_uints(buf, &self.code);
        write_str(buf, "data");
        write_data(buf, &self.data);
        write_str(buf, "symbols");
        write_pairs(buf, &self.symbols);
        write_str(buf, "labels");
        write_pairs(buf, &self.labels);
        proof {
            assert(buf@ =~= old(buf)@ + (mp_map(4) + (mp_str("code"@) + (uints_section(
                self.code@,
            ) + (mp_str("data"@) + (data_section(self.data@) + (mp_str("symbols"@) + (
            pairs_section(self.symbols@) + (mp_str("labels"@) + pairs_section(
                self.labels@,
            ))))))))));
        }
    }
}


impl<T: CodeDeserialize> CodeDeserialize for Code<T> {
    /// Decode one program off the front of `bytes`.
    ///
    /// The four sections are read behind their tags in the fixed order;
    /// a wrong entry count, tag or payload is a fatal format error, found
    /// before the following payload is consumed. On the byte code of any
    /// well-formed program this inverts `to_byte_code`; the added clauses
    /// below state the rejection side for inputs written in the writers'
    /// own encodings: a map of any other entry count, or a tag in the
    /// first two places other than the expected one, is refused. The later
    /// tags are checked the same way; their rejection clauses would repeat
    /// this pattern behind ever longer well-formed prefixes.
    #[verifier::rlimit(100)]
    fn from_byte_code<'a>(bytes: &'a [u8]) -> (r: Result<(Self, &'a [u8]), CodecError>)
        ensures
            forall|n: u32, rest: Seq<u8>| n != 4 && bytes@ == mp_map(n) + rest ==> r is Err,
            forall|s: Seq<char>, rest: Seq<u8>|
                mp_str_wf(s) && s != "code"@ && bytes@ == mp_map(4) + (mp_str(s) + rest)
                    ==> r is Err,
            forall|u: Seq<usize>, s: Seq<char>, rest: Seq<u8>|
                u.len() <= u32::MAX && mp_str_wf(s) && s != "data"@ && bytes@ == mp_map(4) + (
                mp_str("code"@) + (uints_section(u) + (mp_str(s) + rest))) ==> r is Err,
    {
        let h0 = read_map_len(bytes);
        proof {
            assert forall|x: Code<T>, rest: Seq<u8>|
                x.serial_wf() && bytes@ == x.byte_code() + rest implies (h0 matches Ok(q) && q.0
                    == 4 && q.1@ == tail_from_code_tag(x, rest)) by {
                lemma_byte_code_split(x, rest);
            }
        }
        let (mlen, cur1) = match h0 {
            Ok(q) => q,
            Err(_) => {
                return Err(CodecError::Format);
            },
        };
        if mlen != 4 {
            return Err(CodecError::Format);
        }
        proof {
            assert forall|n: u32, rest: Seq<u8>| n != 4 && bytes@ == mp_map(n) + rest
                implies false by {
                assert(bytes@ == mp_map(n) + rest);
            }
        }
        let t0 = read_str(cur1);
        proof {
            assert forall|x: Code<T>, rest: Seq<u8>|
                x.serial_wf() && bytes@ == x.byte_code() + rest implies (t0 matches Ok(q) && q.0@
                    == "code"@ && q.1@ == tail_from_code(x, rest)) by {
                reveal_strlit("code");
                assert(mp_str_wf("code"@));
            }
        }
        let (tag0, cur2) = match t0 {
            Ok(q) => q,
            Err(_) => {
                return Err(CodecError::Format);
            },
        };
        let key_code = String::from_str("code");
        if !(tag0 == key_code) {
            return Err(CodecError::Format);
        }
        proof {
            assert forall|s: Seq<char>, rest: Seq<u8>|
                mp_str_wf(s) && s != "code"@ && bytes@ == mp_map(4) + (mp_str(s) + rest)
                implies false by {
                assert(bytes@ == mp_map(4) + (mp_str(s) + rest));
                assert(cur1@ == mp_str(s) + rest);
            }
        }
        let s0 = read_uints_section(cur2);
        proof {
            assert forall|x: Code<T>, rest: Seq<u8>|
                x.serial_wf() && bytes@ == x.byte_code() + rest implies (s0 matches Ok(q) && q.0@
                    == x.code@ && q.1@ == tail_from_data_tag(x, rest)) by {
                assert(x.code@.len() <= u32::MAX);
                assert(cur2@ == uints_section(x.code@) + tail_from_data_tag(x, rest));
            }
        }
        let (code_vec, cur3) = match s0 {
            Ok(q) => q,
            Err(_) => {
                return Err(CodecError::Format);
            },
        };
        let t1 = read_str(cur3);
        proof {
            assert forall|x: Code<T>, rest: Seq<u8>|
                x.serial_wf() && bytes@ == x.byte_code() + rest implies (t1 matches Ok(q) && q.0@
                    == "data"@ && q.1@ == tail_from_data(x, rest)) by {
                reveal_strlit("data");
                assert(mp_str_wf("data"@));
            }
        }
        let (tag1, cur4) = match t1 {
            Ok(q) => q,
            Err(_) => {
                return Err(CodecError::Format);
            },
        };
        let key_data = String::from_str("data");
        if !(tag1 == key_data) {
            return Err(CodecError::Format);
        }
        proof {
            assert forall|u: Seq<usize>, s: Seq<char>, rest: Seq<u8>|
                u.len() <= u32::MAX && mp_str_wf(s) && s != "data"@ && bytes@ == mp_map(4) + (
                mp_str("code"@) + (uints_section(u) + (mp_str(s) + rest))) implies false by {
                reveal_strlit("code");
                assert(mp_str_wf("code"@));
                assert(bytes@ == mp_map(4) + (mp_str("code"@) + (uints_section(u) + (mp_str(s)
                    + rest))));
                assert(cur1@ == mp_str("code"@) + (uints_section(u) + (mp_str(s) + rest)));
                assert(cur2@ == uints_section(u) + (mp_str(s) + rest));
                assert(cur3@ == mp_str(s) + rest);
            }
        }
        let s1 = read_data_section::<T>(cur4);
        proof {
            assert forall|x: Code<T>, rest: Seq<u8>|
                x.serial_wf() && bytes@ == x.byte_code() + rest implies (s1 matches Ok(q)
                    && q.0@.len() == x.data@.len() && (forall|i: int|
                    0 <= i < x.data@.len() ==> (#[trigger] q.0@[i])@ == x.data@[i]@) && q.1@
                    == tail_from_symbols_tag(x, rest)) by {
                assert(x.data@.len() <= u32::MAX);
                assert(forall|i: int|
                    0 <= i < x.data@.len() ==> (#[trigger] x.data@[i]).serial_wf());
                assert(cur4@ == data_section(x.data@) + tail_from_symbols_tag(x, rest));
            }
        }
        let (data_vec, cur5) = match s1 {
            Ok(q) => q,
            Err(_) => {
                return Err(CodecError::Format);
            },
        };
        let t2 = read_str(cur5);
        proof {
            assert forall|x: Code<T>, rest: Seq<u8>|
                x.serial_wf() && bytes@ == x.byte_code() + rest implies (t2 matches Ok(q) && q.0@
                    == "symbols"@ && q.1@ == tail_from_symbols(x, rest)) by {
                reveal_strlit("symbols");
                assert(mp_str_wf("symbols"@));
            }
        }
        let (tag2, cur6) = match t2 {
            Ok(q) => q,
            Err(_) => {
                return Err(CodecError::Format);
            },
        };
        let key_symbols = String::from_str("symbols");
        if !(tag2 == key_symbols) {
            return Err(CodecError::Format);
        }
        let s2 = read_pairs_section(cur6);
        proof {
            assert forall|x: Code<T>, rest: Seq<u8>|
                x.serial_wf() && bytes@ == x.byte_code() + rest implies (s2 matches Ok(q)
                    && q.0@.len() == x.symbols@.len() && (forall|i: int|
                    0 <= i < x.symbols@.len() ==> (#[trigger] q.0@[i]).0 == x.symbols@[i].0
                        && q.0@[i].1@ == x.symbols@[i].1@) && q.1@ == tail_from_labels_tag(
                    x,
                    rest,
                )) by {
                assert(pairs_wf(x.symbols@));
                assert(cur6@ == pairs_section(x.symbols@) + tail_from_labels_tag(x, rest));
            }
        }
        let (symbols_vec, cur7) = match s2 {
            Ok(q) => q,
            Err(_) => {
                return Err(CodecError::Format);
            },
        };
        let t3 = read_str(cur7);
        proof {
            assert forall|x: Code<T>, rest: Seq<u8>|
                x.serial_wf() && bytes@ == x.byte_code() + rest implies (t3 matches Ok(q) && q.0@
                    == "labels"@ && q.1@ == tail_from_labels(x, rest)) by {
                reveal_strlit("labels");
                assert(mp_str_wf("labels"@));
            }
        }
        let (tag3, cur8) = match t3 {
            Ok(q) => q,
            Err(_) => {
                return Err(CodecError::Format);
            },
        };
        let key_labels = String::from_str("labels");
        if !(tag3 == key_labels) {
            return Err(CodecError::Format);
        }
        let s3 = read_pairs_section(cur8);
        proof {
            assert forall|x: Code<T>, rest: Seq<u8>|
                x.serial_wf() && bytes@ == x.byte_code() + rest implies (s3 matches Ok(q)
                    && q.0@.len() == x.labels@.len() && (forall|i: int|
                    0 <= i < x.labels@.len() ==> (#[trigger] q.0@[i]).0 == x.labels@[i].0
                        && q.0@[i].1@ == x.labels@[i].1@) && q.1@ == rest) by {
                assert(pairs_wf(x.labels@));
                assert(cur8@ == pairs_section(x.labels@) + rest);
            }
        }
        let (labels_vec, cur9) = match s3 {
            Ok(q) => q,
            Err(_) => {
                return Err(CodecError::Format);
            },
        };
        let decoded = Code { symbols: symbols_vec, code: code_vec, data: data_vec, labels: labels_vec };
        proof {
            assert forall|x: Code<T>, rest: Seq<u8>|
                x.serial_wf() && bytes@ == x.byte_code() + rest implies (decoded@ == x@ && cur9@
                    == rest) by {
                decoded.lemma_view_parts();
                x.lemma_view_parts();
                assert(decoded@.data =~= x@.data);
                assert(decoded@.symbols =~= x@.symbols);
                assert(decoded@.labels =~= x@.labels);
                assert(decoded@ =~= x@);
            }
        }
        Ok((decoded, cur9))
    }
}

} // verus!
