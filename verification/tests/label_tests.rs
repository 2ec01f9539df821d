use stack_vm::Label;
use stack_vm::LabelRef;

#[test]
fn label_new() {
    let label = Label::new("Marty");
    assert_eq!(label.name(), "Marty");
    assert!(label.ip().is_none());
}

#[test]
fn name() {
    let label = Label::new("Marty");
    assert_eq!(label.name(), "Marty");
}

#[test]
fn set_ip() {
    let mut label = Label::new("Marty");
    assert!(label.ip().is_none());
    label.set_ip(123);
    assert_eq!(label.ip().unwrap(), 123);
}

#[test]
fn has_ip() {
    let mut label = Label::new("Marty");
    assert!(!label.has_ip());
    label.set_ip(123);
    assert!(label.has_ip());
}

#[test]
fn ip() {
    let mut label = Label::new("Marty");
    assert!(label.ip().is_none());
    label.set_ip(123);
    assert!(label.ip().is_some());
}

#[test]
fn label_ref_idx() {
    let r = LabelRef::new(7);
    assert_eq!(r.idx(), 7);
}
