use stack_vm::Frame;
use stack_vm::Table;

#[test]
fn new_has_locals() {
    let frame: Frame<usize> = Frame::new(0);
    assert!(frame.locals().is_empty())
}

#[test]
fn locals_shadow_and_return_address_holds() {
    let mut frame: Frame<usize> = Frame::new(42);
    assert_eq!(frame.return_address(), 42);
    assert!(frame.get_local("x").is_none());
    frame.set_local("x", 1);
    frame.set_local("x", 2);
    assert_eq!(*frame.get_local("x").unwrap(), 2);
    assert_eq!(frame.return_address(), 42);
}
