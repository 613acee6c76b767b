use ownership::checker::Checker;
use ownership::diag::Violation;

fn hello() -> Vec<u8> {
    b"hello".to_vec()
}

#[test]
fn move_invalidates_source() {
    // Binding `a` owns a heap buffer "hello"; `let b = a;` moves it:
    // a later use of `a` is rejected, while `b` reads back "hello".
    let mut c = Checker::new();
    let a = c.declare(hello(), false, 1, 100);
    let b = c.assign(a, 1, 100).expect("source is valid, so the move is admitted");
    assert_eq!(c.check_move(a), Err(Violation::UseAfterMove));
    let read_b = c.read(b).expect("the new owner is valid");
    assert_eq!(read_b, &b"hello".to_vec());
}

#[test]
fn moved_source_cannot_move_again() {
    let mut c = Checker::new();
    let a = c.declare(hello(), false, 1, 100);
    let _b = c.assign(a, 1, 100).unwrap();
    assert_eq!(c.assign(a, 1, 100), Err(Violation::UseAfterMove));
    assert_eq!(c.duplicate(a, 1, 100), Err(Violation::UseAfterMove));
}

#[test]
fn copy_keeps_both_usable() {
    // A copy-eligible value (a fixed-size scalar) is duplicated by
    // assignment: both bindings stay usable and hold equal content.
    let mut c = Checker::new();
    let x = c.declare(vec![5], true, 1, 100);
    let y = c.assign(x, 1, 100).unwrap();
    assert_eq!(c.check_move(x), Ok(()));
    assert_eq!(c.check_move(y), Ok(()));
    assert_eq!(c.read(x).unwrap(), &vec![5u8]);
    assert_eq!(c.read(y).unwrap(), &vec![5u8]);
}

#[test]
fn copy_is_independent_storage() {
    // Mutating one copy after duplication does not affect the other.
    let mut c = Checker::new();
    let x = c.declare(vec![5], true, 1, 100);
    let y = c.assign(x, 1, 100).unwrap();
    c.write(y, vec![9], 50).unwrap();
    assert_eq!(c.read(x).unwrap(), &vec![5u8]);
    assert_eq!(c.read(y).unwrap(), &vec![9u8]);
}

#[test]
fn duplicate_keeps_both_usable() {
    // `let b = duplicate(a);` leaves both bindings usable, both reading
    // "hello", with independent storage.
    let mut c = Checker::new();
    let a = c.declare(hello(), false, 1, 100);
    let b = c.duplicate(a, 1, 100).unwrap();
    assert_eq!(c.check_move(a), Ok(()));
    assert_eq!(c.check_move(b), Ok(()));
    assert_eq!(c.read(a).unwrap(), &b"hello".to_vec());
    assert_eq!(c.read(b).unwrap(), &b"hello".to_vec());
}

#[test]
fn duplicate_then_mutate_leaves_original() {
    // Duplicating and then reading both yields equal content; mutating
    // the duplicate does not change the original.
    let mut c = Checker::new();
    let a = c.declare(hello(), false, 1, 100);
    let b = c.duplicate(a, 1, 100).unwrap();
    assert_eq!(c.read(a).unwrap(), c.read(b).unwrap());
    c.write(b, b"world".to_vec(), 50).unwrap();
    assert_eq!(c.read(a).unwrap(), &b"hello".to_vec());
    assert_eq!(c.read(b).unwrap(), &b"world".to_vec());
}

#[test]
fn dropped_binding_rejected() {
    let mut c = Checker::new();
    let a = c.declare(hello(), false, 7, 100);
    let released = c.exit_scope(7);
    assert_eq!(released, vec![a]);
    assert_eq!(c.check_move(a), Err(Violation::UseAfterMove));
}

#[test]
fn scope_exit_releases_in_reverse_order_and_once() {
    // Release happens in reverse declaration order, skips moved-out
    // values, and a second exit releases nothing.
    let mut c = Checker::new();
    let a = c.declare(vec![1], false, 3, 100);
    let b = c.declare(vec![2], false, 3, 100);
    let m = c.declare(vec![3], false, 3, 100);
    let _elsewhere = c.assign(m, 4, 200).unwrap();
    let other = c.declare(vec![4], false, 9, 100);
    assert_eq!(c.exit_scope(3), vec![b, a]);
    assert_eq!(c.exit_scope(3), Vec::<usize>::new());
    assert_eq!(c.check_move(other), Ok(()));
}
