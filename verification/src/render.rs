//! Deterministic textual rendering of values, and of decimal numbers.

use vstd::prelude::*;

verus! {

/// The decimal digits of `n`, most significant first.
pub open spec fn spec_dec(n: nat) -> Seq<char>
    decreases n,
{
    if n < 10 {
        seq![spec_digit(n)]
    } else {
        spec_dec(n / 10).push(spec_digit(n % 10))
    }
}

/// The character for one decimal digit.
pub open spec fn spec_digit(d: nat) -> char {
    if d == 0 {
        '0'
    } else if d == 1 {
        '1'
    } else if d == 2 {
        '2'
    } else if d == 3 {
        '3'
    } else if d == 4 {
        '4'
    } else if d == 5 {
        '5'
    } else if d == 6 {
        '6'
    } else if d == 7 {
        '7'
    } else if d == 8 {
        '8'
    } else {
        '9'
    }
}

/// The capability of rendering a value as text, as the operand type of a
/// program must supply it for the assembler's and the compiled program's
/// diagnostic listings.
pub trait Render {
    /// The characters `render` produces for this value. An implementation
    /// that verified code renders states its own text; the default stands
    /// for implementations outside of verification, which need not name
    /// one.
    open spec fn text(&self) -> Seq<char> {
        Seq::empty()
    }

    /// Render this value as text.
    fn render(&self) -> (r: String)
        ensures
            r@ == self.text(),
    ;
}

/// The diagnostic listing of a data section from slot `i` on: one
/// `@N = <value>` line per slot.
pub open spec fn spec_data_lines<T: Render>(data: Seq<T>, i: int) -> Seq<char>
    decreases data.len() - i,
{
    if i < 0 || i >= data.len() {
        Seq::empty()
    } else {
        "@"@ + (spec_dec(i as nat) + (" = "@ + (data[i].text() + ("\n"@ + spec_data_lines(
            data,
            i + 1,
        )))))
    }
}

/// The ` @N` operand references of one instruction.
pub open spec fn spec_args(idxs: Seq<usize>) -> Seq<char>
    decreases idxs.len(),
{
    if idxs.len() == 0 {
        Seq::empty()
    } else {
        " @"@ + (spec_dec(idxs[0] as nat) + spec_args(idxs.skip(1)))
    }
}

fn digit_str(d: usize) -> (r: &'static str)
    requires
        d < 10,
    ensures
        r@ == seq![spec_digit(d as nat)],
{
    proof {
        reveal_strlit("0");
        reveal_strlit("1");
        reveal_strlit("2");
        reveal_strlit("3");
        reveal_strlit("4");
        reveal_strlit("5");
        reveal_strlit("6");
        reveal_strlit("7");
        reveal_strlit("8");
        reveal_strlit("9");
    }
    if d == 0 {
        "0"
    } else if d == 1 {
        "1"
    } else if d == 2 {
        "2"
    } else if d == 3 {
        "3"
    } else if d == 4 {
        "4"
    } else if d == 5 {
        "5"
    } else if d == 6 {
        "6"
    } else if d == 7 {
        "7"
    } else if d == 8 {
        "8"
    } else {
        "9"
    }
}

/// Render a number in decimal.
pub fn to_dec(n: usize) -> (r: String)
    ensures
        r@ == spec_dec(n as nat),
    decreases n,
{
    if n < 10 {
        String::from_str(digit_str(n))
    } else {
        let high = to_dec(n / 10);
        let low = digit_str(n % 10);
        let r = high.concat(low);
        proof {
            assert(r@ =~= spec_dec((n / 10) as nat).push(spec_digit((n % 10) as nat)));
        }
        r
    }
}

} // verus!
