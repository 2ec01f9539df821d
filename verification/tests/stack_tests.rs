use stack_vm::Stack;

#[test]
fn stack_new() {
    let stack: Stack<usize> = Stack::new();
    assert!(stack.is_empty());
}

#[test]
fn stack_push() {
    let mut stack: Stack<usize> = Stack::new();
    stack.push(13);
    assert!(!stack.is_empty());
}

#[test]
fn pop() {
    let mut stack: Stack<usize> = Stack::new();
    stack.push(13);
    let value = stack.pop();
    assert_eq!(value, 13);
}

#[test]
fn peek() {
    let mut stack: Stack<usize> = Stack::new();
    stack.push(13);
    assert_eq!(*stack.peek(), 13)
}

#[test]
fn peek_mut_replaces_top() {
    let mut stack: Stack<usize> = Stack::new();
    stack.push(13);
    stack.push(14);
    *stack.peek_mut() = 15;
    assert_eq!(stack.pop(), 15);
    assert_eq!(stack.pop(), 13);
}

#[test]
fn len_counts_values() {
    let mut stack: Stack<usize> = Stack::new();
    assert_eq!(stack.len(), 0);
    stack.push(1);
    stack.push(2);
    assert_eq!(stack.len(), 2);
}
