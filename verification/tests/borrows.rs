use ownership::checker::Checker;
use ownership::diag::Violation;
use ownership::span::Span;

fn with_binding() -> (Checker, usize) {
    let mut c = Checker::new();
    let a = c.declare(b"hello".to_vec(), false, 1, 100);
    (c, a)
}

#[test]
fn shared_borrows_coexist() {
    // Any number of shared references with overlapping spans is fine.
    let (mut c, a) = with_binding();
    assert_eq!(c.check_borrow(a, false, Span::new(10, 20)), Ok(()));
    assert_eq!(c.check_borrow(a, false, Span::new(12, 30)), Ok(()));
    assert_eq!(c.check_borrow(a, false, Span::new(5, 40)), Ok(()));
}

#[test]
fn shared_and_exclusive_conflict() {
    // A shared borrow overlapping an exclusive borrow of the same
    // binding is rejected, whichever is requested second.
    let (mut c, a) = with_binding();
    assert_eq!(c.check_borrow(a, true, Span::new(10, 20)), Ok(()));
    assert_eq!(c.check_borrow(a, false, Span::new(15, 25)), Err(Violation::AliasConflict));

    let (mut c2, b) = with_binding();
    assert_eq!(c2.check_borrow(b, false, Span::new(10, 20)), Ok(()));
    assert_eq!(c2.check_borrow(b, true, Span::new(15, 25)), Err(Violation::AliasConflict));
}

#[test]
fn two_exclusive_borrows_conflict() {
    // Two exclusive references with overlapping spans are a double
    // mutable borrow.
    let (mut c, a) = with_binding();
    assert_eq!(c.check_borrow(a, true, Span::new(10, 20)), Ok(()));
    assert_eq!(c.check_borrow(a, true, Span::new(15, 25)), Err(Violation::DoubleMutableBorrow));
}

#[test]
fn disjoint_spans_do_not_conflict() {
    // When one reference's span ends before the other begins, both are
    // admitted, exclusive or not.
    let (mut c, a) = with_binding();
    assert_eq!(c.check_borrow(a, true, Span::new(10, 20)), Ok(()));
    assert_eq!(c.check_borrow(a, true, Span::new(20, 30)), Ok(()));
    assert_eq!(c.check_borrow(a, false, Span::new(30, 40)), Ok(()));
}

#[test]
fn borrows_of_different_bindings_do_not_conflict() {
    let mut c = Checker::new();
    let a = c.declare(vec![1], false, 1, 100);
    let b = c.declare(vec![2], false, 1, 100);
    assert_eq!(c.check_borrow(a, true, Span::new(10, 20)), Ok(()));
    assert_eq!(c.check_borrow(b, true, Span::new(10, 20)), Ok(()));
}

#[test]
fn borrow_of_moved_binding_rejected() {
    let (mut c, a) = with_binding();
    c.assign(a, 1, 100).unwrap();
    assert_eq!(c.check_borrow(a, false, Span::new(10, 20)), Err(Violation::UseAfterMove));
}

#[test]
fn write_under_live_borrow_conflicts() {
    // Mutating a binding while any reference over it is live at that
    // point is an alias conflict; after the borrow's span ends, the
    // write is admitted.
    let (mut c, a) = with_binding();
    assert_eq!(c.check_borrow(a, false, Span::new(10, 20)), Ok(()));
    assert_eq!(c.write(a, b"x".to_vec(), 15), Err(Violation::AliasConflict));
    assert_eq!(c.read(a).unwrap(), &b"hello".to_vec());
    assert_eq!(c.write(a, b"x".to_vec(), 20), Ok(()));
    assert_eq!(c.read(a).unwrap(), &b"x".to_vec());
}

#[test]
fn dangling_reference_rejected() {
    // Returning a reference to a value owned by a binding local to the
    // returning scope: the reference's span outlives the binding's
    // validity and is rejected as dangling.
    let mut c = Checker::new();
    let local = c.declare(b"hello".to_vec(), false, 2, 50);
    assert_eq!(c.check_lifetime(local, Span::new(40, 60)), Err(Violation::DanglingReference));
    assert_eq!(c.check_lifetime(local, Span::new(40, 50)), Ok(()));
}
