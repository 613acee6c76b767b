use vstd::prelude::*;

use crate::diag::BindingState;
use crate::diag::Violation;
use crate::span::Span;
use crate::types::Ty;

verus! {

/// One named storage location: its validity state, whether its value is
/// copy-eligible, the value's content, the scope that declared it, and
/// the program point at which that scope ends.
pub struct Binding {
    pub state: BindingState,
    pub copy_eligible: bool,
    pub content: Vec<u8>,
    pub scope: u64,
    pub valid_until: u64,
}

/// A recorded borrow: which binding it views, whether it is exclusive,
/// and its lexical span.
#[derive(Clone, Copy, Debug, PartialEq, Eq, Structural)]
pub struct Borrow {
    pub target: usize,
    pub exclusive: bool,
    pub span: Span,
}

/// Ghost image of a [`Binding`].
pub ghost struct BindingModel {
    pub state: BindingState,
    pub copy_eligible: bool,
    pub content: Seq<u8>,
    pub scope: u64,
    pub valid_until: u64,
}

/// Ghost image of a [`Borrow`].
pub ghost struct BorrowModel {
    pub target: int,
    pub exclusive: bool,
    pub span: Span,
}

/// Ghost image of a whole [`Checker`]: the declared bindings in
/// declaration order, and the recorded borrows in recording order.
pub ghost struct CheckerModel {
    pub bindings: Seq<BindingModel>,
    pub borrows: Seq<BorrowModel>,
}

impl View for Binding {
    type V = BindingModel;

    open spec fn view(&self) -> BindingModel {
        BindingModel {
            state: self.state,
            copy_eligible: self.copy_eligible,
            content: self.content@,
            scope: self.scope,
            valid_until: self.valid_until,
        }
    }
}

impl View for Borrow {
    type V = BorrowModel;

    open spec fn view(&self) -> BorrowModel {
        BorrowModel { target: self.target as int, exclusive: self.exclusive, span: self.span }
    }
}

/// The ownership/borrow verifier: it records bindings and borrows, and
/// decides for each access whether the discipline admits it.
pub struct Checker {
    pub bindings: Vec<Binding>,
    pub borrows: Vec<Borrow>,
}

impl View for Checker {
    type V = CheckerModel;

    open spec fn view(&self) -> CheckerModel {
        CheckerModel {
            bindings: Seq::new(self.bindings@.len(), |i: int| self.bindings@[i]@),
            borrows: Seq::new(self.borrows@.len(), |i: int| self.borrows@[i]@),
        }
    }
}

/// A recorded borrow conflicts with a requested access of `target` over
/// `span` when it views the same binding, the spans overlap, and at least
/// one of the two sides is exclusive.
pub open spec fn conflicts(b: BorrowModel, target: int, exclusive: bool, span: Span) -> bool {
    b.target == target && b.span.overlaps(span) && (b.exclusive || exclusive)
}

impl CheckerModel {
    /// The id names a binding that has been declared.
    pub open spec fn valid_id(self, id: int) -> bool {
        0 <= id < self.bindings.len()
    }

    /// The checker after a fresh binding is declared as the owner of a
    /// value.
    pub open spec fn after_declare(
        self,
        content: Seq<u8>,
        copy_eligible: bool,
        scope: u64,
        valid_until: u64,
    ) -> CheckerModel {
        CheckerModel {
            bindings: self.bindings.push(
                BindingModel {
                    state: BindingState::Valid,
                    copy_eligible,
                    content,
                    scope,
                    valid_until,
                },
            ),
            borrows: self.borrows,
        }
    }

    /// The outcome of reading a binding: admitted exactly when the binding
    /// still holds its value, rejected as a use after move otherwise.
    pub open spec fn check_move_spec(self, id: int) -> Result<(), Violation> {
        if self.bindings[id].state is Valid {
            Ok(())
        } else {
            Err(Violation::UseAfterMove)
        }
    }

    /// The source binding after its value is assigned away: a
    /// copy-eligible value leaves it valid, any other value moves out.
    pub open spec fn source_after_assign(b: BindingModel) -> BindingModel {
        if b.copy_eligible {
            b
        } else {
            BindingModel { state: BindingState::MovedOut, ..b }
        }
    }

    /// The checker after `let dst = src;`: a fresh binding with the same
    /// content is appended, and the source is moved out unless its value
    /// is copy-eligible.
    pub open spec fn after_assign(self, src: int, scope: u64, valid_until: u64) -> CheckerModel {
        CheckerModel {
            bindings: self.bindings.update(
                src,
                CheckerModel::source_after_assign(self.bindings[src]),
            ).push(
                BindingModel {
                    state: BindingState::Valid,
                    copy_eligible: self.bindings[src].copy_eligible,
                    content: self.bindings[src].content,
                    scope,
                    valid_until,
                },
            ),
            borrows: self.borrows,
        }
    }

    /// The checker after deep duplication: a fresh binding with equal
    /// content is appended, and the source stays valid whatever its kind.
    pub open spec fn after_duplicate(self, src: int, scope: u64, valid_until: u64) -> CheckerModel {
        CheckerModel {
            bindings: self.bindings.push(
                BindingModel {
                    state: BindingState::Valid,
                    copy_eligible: self.bindings[src].copy_eligible,
                    content: self.bindings[src].content,
                    scope,
                    valid_until,
                },
            ),
            borrows: self.borrows,
        }
    }
}

impl CheckerModel {
    /// No recorded borrow conflicts with the requested access.
    pub open spec fn borrow_admissible(self, target: int, exclusive: bool, span: Span) -> bool {
        forall|i: int|
            0 <= i < self.borrows.len() ==> !conflicts(
                #[trigger] self.borrows[i],
                target,
                exclusive,
                span,
            )
    }

    /// Some recorded exclusive borrow of `target` overlaps `span`.
    pub open spec fn has_exclusive_overlap(self, target: int, span: Span) -> bool {
        exists|i: int|
            0 <= i < self.borrows.len() && (#[trigger] self.borrows[i]).target == target
                && self.borrows[i].exclusive && self.borrows[i].span.overlaps(span)
    }

    /// The outcome of requesting a borrow of `target` over `span`:
    /// rejected when the binding no longer holds its value; admitted when
    /// no recorded borrow conflicts; otherwise a second overlapping
    /// exclusive borrow is a double mutable borrow, and any other overlap
    /// is an alias conflict.
    pub open spec fn check_borrow_spec(self, target: int, exclusive: bool, span: Span) -> Result<
        (),
        Violation,
    > {
        if !(self.bindings[target].state is Valid) {
            Err(Violation::UseAfterMove)
        } else if self.borrow_admissible(target, exclusive, span) {
            Ok(())
        } else if exclusive && self.has_exclusive_overlap(target, span) {
            Err(Violation::DoubleMutableBorrow)
        } else {
            Err(Violation::AliasConflict)
        }
    }

    /// The checker after an admitted borrow is recorded.
    pub open spec fn after_borrow(self, target: int, exclusive: bool, span: Span) -> CheckerModel {
        CheckerModel {
            bindings: self.bindings,
            borrows: self.borrows.push(BorrowModel { target, exclusive, span }),
        }
    }

    /// No recorded borrow of `id` is live at the program point `at`.
    pub open spec fn no_live_borrow_at(self, id: int, at: u64) -> bool {
        forall|i: int|
            0 <= i < self.borrows.len() ==> !((#[trigger] self.borrows[i]).target == id
                && self.borrows[i].span.contains(at))
    }

    /// The outcome of writing through a binding at one program point:
    /// writing is exclusive access, so it is rejected when the value is
    /// gone, or as an alias conflict when any recorded borrow is live
    /// there.
    pub open spec fn write_spec(self, id: int, at: u64) -> Result<(), Violation> {
        if !(self.bindings[id].state is Valid) {
            Err(Violation::UseAfterMove)
        } else if !self.no_live_borrow_at(id, at) {
            Err(Violation::AliasConflict)
        } else {
            Ok(())
        }
    }

    /// The checker after an admitted write replaces a binding's content.
    pub open spec fn after_write(self, id: int, content: Seq<u8>) -> CheckerModel {
        CheckerModel {
            bindings: self.bindings.update(
                id,
                BindingModel { content, ..self.bindings[id] },
            ),
            borrows: self.borrows,
        }
    }

    /// The outcome of using a reference to `target` over `span`: rejected
    /// as dangling when the span extends past the end of the target's
    /// validity.
    pub open spec fn check_lifetime_spec(self, target: int, span: Span) -> Result<(), Violation> {
        if span.end > self.bindings[target].valid_until {
            Err(Violation::DanglingReference)
        } else {
            Ok(())
        }
    }

    /// The checks for constructing a slice `[start, end)` over a binding,
    /// in order: the binding must still hold its value, the range must lie
    /// within its content, and no exclusive borrow may overlap the
    /// slice's span (a slice is a shared borrow).
    pub open spec fn slice_spec(self, target: int, start: int, end: int, span: Span) -> Result<
        (),
        Violation,
    > {
        if !(self.bindings[target].state is Valid) {
            Err(Violation::UseAfterMove)
        } else if !(0 <= start <= end <= self.bindings[target].content.len()) {
            Err(Violation::OutOfRange)
        } else if !self.borrow_admissible(target, false, span) {
            Err(Violation::AliasConflict)
        } else {
            Ok(())
        }
    }
}

/// A binding is released by a scope's exit when it was declared in that
/// scope and still owns its value; a binding whose value was moved out
/// is not released, which structurally prevents a double release.
pub open spec fn released_by(b: BindingModel, scope: u64) -> bool {
    b.scope == scope && b.state is Valid
}

/// The ids a scope's exit releases, in reverse declaration order.
pub open spec fn drop_order(bs: Seq<BindingModel>, scope: u64) -> Seq<usize>
    decreases bs.len(),
{
    if bs.len() == 0 {
        Seq::empty()
    } else if released_by(bs.last(), scope) {
        seq![(bs.len() - 1) as usize] + drop_order(bs.drop_last(), scope)
    } else {
        drop_order(bs.drop_last(), scope)
    }
}

impl CheckerModel {
    /// The checker after a scope's exit: every binding the scope releases
    /// becomes dropped, and every other binding is untouched.
    pub open spec fn after_scope_exit(self, scope: u64) -> CheckerModel {
        CheckerModel {
            bindings: Seq::new(
                self.bindings.len(),
                |i: int|
                    if released_by(self.bindings[i], scope) {
                        BindingModel { state: BindingState::Dropped, ..self.bindings[i] }
                    } else {
                        self.bindings[i]
                    },
            ),
            borrows: self.borrows,
        }
    }
}

/// A view of a contiguous sub-range of a sequence-valued binding: the
/// target binding's id, the start offset, and the length of the range.
#[derive(Clone, Copy, Debug, PartialEq, Eq, Structural)]
pub struct SliceRef {
    pub target: usize,
    pub start: usize,
    pub len: usize,
}

/// Copies a byte buffer element by element: the model's picture of
/// allocating fresh heap storage and duplicating contents into it.
fn copy_bytes(src: &Vec<u8>) -> (r: Vec<u8>)
    ensures
        r@ == src@,
{
    let mut out: Vec<u8> = Vec::new();
    let mut i: usize = 0;
    while i < src.len()
        invariant
            0 <= i <= src@.len(),
            out@ == src@.take(i as int),
        decreases src@.len() - i,
    {
        out.push(src[i]);
        proof {
            assert(out@ =~= src@.take((i + 1) as int));
        }
        i = i + 1;
    }
    proof {
        assert(src@.take(src@.len() as int) =~= src@);
    }
    out
}

impl Checker {
    /// A checker with no bindings and no borrows.
    pub fn new() -> (r: Checker)
        ensures
            r@ == (CheckerModel { bindings: Seq::<BindingModel>::empty(), borrows: Seq::<
                BorrowModel,
            >::empty() }),
    {
        let r = Checker { bindings: Vec::new(), borrows: Vec::new() };
        proof {
            assert(r@.bindings =~= Seq::<BindingModel>::empty());
            assert(r@.borrows =~= Seq::<BorrowModel>::empty());
        }
        r
    }

    /// Declares a fresh binding owning `content`, in `scope`, valid until
    /// the program point `valid_until`. Returns the binding's id.
    pub fn declare(
        &mut self,
        content: Vec<u8>,
        copy_eligible: bool,
        scope: u64,
        valid_until: u64,
    ) -> (id: usize)
        ensures
            id == old(self)@.bindings.len(),
            final(self)@ == old(self)@.after_declare(content@, copy_eligible, scope, valid_until),
    {
        let id = self.bindings.len();
        let b = Binding { state: BindingState::Valid, copy_eligible, content, scope, valid_until };
        let ghost bm = b@;
        self.bindings.push(b);
        proof {
            assert(self@.bindings =~= old(self)@.bindings.push(bm));
            assert(self@.borrows =~= old(self)@.borrows);
        }
        id
    }

    /// Declares a fresh binding whose copy-eligibility is decided by the
    /// shape of its type: a scalar (or a product of scalars) will be
    /// copied on assignment, anything heap-resident will be moved.
    pub fn declare_typed(
        &mut self,
        content: Vec<u8>,
        ty: &Ty,
        scope: u64,
        valid_until: u64,
    ) -> (id: usize)
        ensures
            id == old(self)@.bindings.len(),
            final(self)@ == old(self)@.after_declare(content@, ty.is_copy(), scope, valid_until),
    {
        let copy_eligible = crate::types::classify_copy(ty);
        self.declare(content, copy_eligible, scope, valid_until)
    }

    /// Checks a read of a binding: admitted exactly when the binding still
    /// holds its value; a binding whose value was moved out or dropped is
    /// rejected with `UseAfterMove`.
    pub fn check_move(&self, id: usize) -> (r: Result<(), Violation>)
        requires
            self@.valid_id(id as int),
        ensures
            r == self@.check_move_spec(id as int),
    {
        if self.bindings[id].state == BindingState::Valid {
            Ok(())
        } else {
            Err(Violation::UseAfterMove)
        }
    }

    /// Reads a binding's content, if the binding still holds its value.
    pub fn read(&self, id: usize) -> (r: Result<&Vec<u8>, Violation>)
        requires
            self@.valid_id(id as int),
        ensures
            r is Ok <==> self@.bindings[id as int].state is Valid,
            r is Ok ==> r->Ok_0@ == self@.bindings[id as int].content,
            r is Err ==> r->Err_0 == Violation::UseAfterMove,
    {
        if self.bindings[id].state == BindingState::Valid {
            Ok(&self.bindings[id].content)
        } else {
            Err(Violation::UseAfterMove)
        }
    }

    /// Performs the assignment `let dst = src;`: the new binding gets the
    /// value's content, and the source is invalidated unless the value is
    /// copy-eligible. Rejected with `UseAfterMove` when the source no
    /// longer holds its value.
    pub fn assign(&mut self, src: usize, scope: u64, valid_until: u64) -> (r: Result<
        usize,
        Violation,
    >)
        requires
            old(self)@.valid_id(src as int),
        ensures
            r is Ok <==> old(self)@.bindings[src as int].state is Valid,
            r is Ok ==> r->Ok_0 == old(self)@.bindings.len(),
            r is Ok ==> final(self)@ == old(self)@.after_assign(src as int, scope, valid_until),
            r is Err ==> r->Err_0 == Violation::UseAfterMove && final(self)@ == old(self)@,
    {
        if self.bindings[src].state != BindingState::Valid {
            return Err(Violation::UseAfterMove);
        }
        let id = self.bindings.len();
        let content = copy_bytes(&self.bindings[src].content);
        let copy_eligible = self.bindings[src].copy_eligible;
        if !copy_eligible {
            self.bindings[src].state = BindingState::MovedOut;
        }
        let b = Binding { state: BindingState::Valid, copy_eligible, content, scope, valid_until };
        let ghost bm = b@;
        self.bindings.push(b);
        proof {
            let m2 = old(self)@.after_assign(src as int, scope, valid_until);
            assert(self@.bindings =~= m2.bindings);
            assert(self@.borrows =~= m2.borrows);
        }
        Ok(id)
    }

    /// Deep-duplicates the value owned by `src` into a fresh binding: an
    /// explicit allocation and copy, after which both bindings are
    /// independently valid. Rejected with `UseAfterMove` when the source
    /// no longer holds its value.
    pub fn duplicate(&mut self, src: usize, scope: u64, valid_until: u64) -> (r: Result<
        usize,
        Violation,
    >)
        requires
            old(self)@.valid_id(src as int),
        ensures
            r is Ok <==> old(self)@.bindings[src as int].state is Valid,
            r is Ok ==> r->Ok_0 == old(self)@.bindings.len(),
            r is Ok ==> final(self)@ == old(self)@.after_duplicate(src as int, scope, valid_until),
            r is Err ==> r->Err_0 == Violation::UseAfterMove && final(self)@ == old(self)@,
    {
        if self.bindings[src].state != BindingState::Valid {
            return Err(Violation::UseAfterMove);
        }
        let id = self.bindings.len();
        let content = copy_bytes(&self.bindings[src].content);
        let copy_eligible = self.bindings[src].copy_eligible;
        let b = Binding { state: BindingState::Valid, copy_eligible, content, scope, valid_until };
        let ghost bm = b@;
        self.bindings.push(b);
        proof {
            let m2 = old(self)@.after_duplicate(src as int, scope, valid_until);
            assert(self@.bindings =~= m2.bindings);
            assert(self@.borrows =~= m2.borrows);
        }
        Ok(id)
    }

    /// Requests a borrow of `target` over the lexical span `span`,
    /// recording it if admitted. At most one exclusive borrow, or any
    /// number of shared borrows, may overlap on one binding: a second
    /// overlapping exclusive borrow is rejected as a double mutable
    /// borrow, any other overlap as an alias conflict, and a borrow of a
    /// binding that no longer holds its value as a use after move.
    pub fn check_borrow(&mut self, target: usize, exclusive: bool, span: Span) -> (r: Result<
        (),
        Violation,
    >)
        requires
            old(self)@.valid_id(target as int),
            span.wf(),
        ensures
            r == old(self)@.check_borrow_spec(target as int, exclusive, span),
            r is Ok ==> final(self)@ == old(self)@.after_borrow(target as int, exclusive, span),
            r is Err ==> final(self)@ == old(self)@,
    {
        if self.bindings[target].state != BindingState::Valid {
            return Err(Violation::UseAfterMove);
        }
        let mut found_conflict = false;
        let mut found_exclusive = false;
        let mut i: usize = 0;
        while i < self.borrows.len()
            invariant
                self@ == old(self)@,
                0 <= i <= self@.borrows.len(),
                self@.borrows.len() == self.borrows@.len(),
                forall|j: int| 0 <= j < self@.borrows.len() ==> self@.borrows[j] == self.borrows@[j]@,
                !found_conflict ==> forall|j: int|
                    0 <= j < i ==> !conflicts(#[trigger] self@.borrows[j], target as int, exclusive, span),
                found_conflict ==> exists|j: int|
                    0 <= j < i && conflicts(#[trigger] self@.borrows[j], target as int, exclusive, span),
                !found_exclusive ==> forall|j: int|
                    0 <= j < i ==> !((#[trigger] self@.borrows[j]).target == target as int
                        && self@.borrows[j].exclusive && self@.borrows[j].span.overlaps(span)),
                found_exclusive ==> exists|j: int|
                    0 <= j < i && (#[trigger] self@.borrows[j]).target == target as int
                        && self@.borrows[j].exclusive && self@.borrows[j].span.overlaps(span),
            decreases self.borrows@.len() - i,
        {
            let b = self.borrows[i];
            proof {
                assert(b@ == self@.borrows[i as int]);
            }
            if b.target == target && b.span.overlaps_with(&span) {
                if b.exclusive || exclusive {
                    found_conflict = true;
                    proof {
                        assert(conflicts(self@.borrows[i as int], target as int, exclusive, span));
                    }
                }
                if b.exclusive {
                    found_exclusive = true;
                    proof {
                        assert(self@.borrows[i as int].target == target as int
                            && self@.borrows[i as int].exclusive
                            && self@.borrows[i as int].span.overlaps(span));
                    }
                }
            }
            i = i + 1;
        }
        if !found_conflict {
            self.borrows.push(Borrow { target, exclusive, span });
            proof {
                let m2 = old(self)@.after_borrow(target as int, exclusive, span);
                assert(self@.bindings =~= m2.bindings);
                assert(self@.borrows =~= m2.borrows);
            }
            Ok(())
        } else if exclusive && found_exclusive {
            Err(Violation::DoubleMutableBorrow)
        } else {
            proof {
                assert(!old(self)@.borrow_admissible(target as int, exclusive, span));
                if exclusive {
                    assert(!old(self)@.has_exclusive_overlap(target as int, span));
                }
            }
            Err(Violation::AliasConflict)
        }
    }

    /// Writes `content` through the binding `id` at the program point
    /// `at`. Writing is exclusive access: it is rejected as an alias
    /// conflict while any recorded borrow of the binding is live at that
    /// point, and as a use after move when the binding no longer holds
    /// its value.
    pub fn write(&mut self, id: usize, content: Vec<u8>, at: u64) -> (r: Result<(), Violation>)
        requires
            old(self)@.valid_id(id as int),
        ensures
            r == old(self)@.write_spec(id as int, at),
            r is Ok ==> final(self)@ == old(self)@.after_write(id as int, content@),
            r is Err ==> final(self)@ == old(self)@,
    {
        if self.bindings[id].state != BindingState::Valid {
            return Err(Violation::UseAfterMove);
        }
        let mut i: usize = 0;
        while i < self.borrows.len()
            invariant
                self@ == old(self)@,
                old(self)@.valid_id(id as int),
                old(self)@.bindings[id as int].state is Valid,
                0 <= i <= self@.borrows.len(),
                self@.borrows.len() == self.borrows@.len(),
                forall|j: int| 0 <= j < self@.borrows.len() ==> self@.borrows[j] == self.borrows@[j]@,
                forall|j: int|
                    0 <= j < i ==> !((#[trigger] self@.borrows[j]).target == id as int
                        && self@.borrows[j].span.contains(at)),
            decreases self.borrows@.len() - i,
        {
            let b = self.borrows[i];
            proof {
                assert(b@ == self@.borrows[i as int]);
            }
            if b.target == id && b.span.contains_point(at) {
                proof {
                    assert(self@.borrows[i as int].target == id as int
                        && self@.borrows[i as int].span.contains(at));
                    assert(!self@.no_live_borrow_at(id as int, at));
                }
                return Err(Violation::AliasConflict);
            }
            i = i + 1;
        }
        self.bindings[id].content = content;
        proof {
            let m2 = old(self)@.after_write(id as int, content@);
            assert(self@.bindings =~= m2.bindings);
            assert(self@.borrows =~= m2.borrows);
        }
        Ok(())
    }

    /// Checks that a reference to `target` used over `span` does not
    /// outlive its target: a span extending past the end of the binding's
    /// declaring scope is rejected as a dangling reference. Returning a
    /// reference to a value owned by a local binding is exactly this
    /// rejection.
    pub fn check_lifetime(&self, target: usize, span: Span) -> (r: Result<(), Violation>)
        requires
            self@.valid_id(target as int),
        ensures
            r == self@.check_lifetime_spec(target as int, span),
    {
        if span.end > self.bindings[target].valid_until {
            Err(Violation::DanglingReference)
        } else {
            Ok(())
        }
    }

    /// Constructs a slice `[start, end)` over the sequence-valued binding
    /// `target`, live over `span`. A slice is a shared borrow of its
    /// target, so an admitted slice is recorded as one; a range outside
    /// the content is rejected with `OutOfRange`, and an overlap with an
    /// exclusive borrow with `AliasConflict`.
    pub fn slice(&mut self, target: usize, start: usize, end: usize, span: Span) -> (r: Result<
        SliceRef,
        Violation,
    >)
        requires
            old(self)@.valid_id(target as int),
            span.wf(),
        ensures
            r is Ok <==> old(self)@.slice_spec(target as int, start as int, end as int, span)
                is Ok,
            r is Err ==> Err::<(), Violation>(r->Err_0) == old(self)@.slice_spec(
                target as int,
                start as int,
                end as int,
                span,
            ),
            r is Ok ==> r->Ok_0 == (SliceRef { target, start, len: (end - start) as usize }),
            r is Ok ==> final(self)@ == old(self)@.after_borrow(target as int, false, span),
            r is Err ==> final(self)@ == old(self)@,
    {
        if self.bindings[target].state != BindingState::Valid {
            return Err(Violation::UseAfterMove);
        }
        if start > end || end > self.bindings[target].content.len() {
            return Err(Violation::OutOfRange);
        }
        let r = self.check_borrow(target, false, span);
        match r {
            Ok(_) => Ok(SliceRef { target, start, len: end - start }),
            Err(v) => {
                proof {
                    assert(!old(self)@.borrow_admissible(target as int, false, span));
                }
                Err(v)
            },
        }
    }

    /// Reads the content a slice views, bounds-checked against the live
    /// length of its target at call time: the target must still hold its
    /// value, and the recorded range must still lie within it.
    pub fn read_slice(&self, sl: &SliceRef) -> (r: Result<Vec<u8>, Violation>)
        requires
            self@.valid_id(sl.target as int),
        ensures
            r is Ok <==> self@.bindings[sl.target as int].state is Valid && sl.start + sl.len
                <= self@.bindings[sl.target as int].content.len(),
            r is Ok ==> r->Ok_0@ == self@.bindings[sl.target as int].content.subrange(
                sl.start as int,
                sl.start + sl.len,
            ),
            !(self@.bindings[sl.target as int].state is Valid) ==> r == Err::<Vec<u8>, Violation>(
                Violation::UseAfterMove,
            ),
            self@.bindings[sl.target as int].state is Valid
                && sl.start + sl.len > self@.bindings[sl.target as int].content.len()
                ==> r == Err::<Vec<u8>, Violation>(Violation::OutOfRange),
    {
        if self.bindings[sl.target].state != BindingState::Valid {
            return Err(Violation::UseAfterMove);
        }
        let content = &self.bindings[sl.target].content;
        let clen = content.len();
        if sl.start > clen || clen - sl.start < sl.len {
            return Err(Violation::OutOfRange);
        }
        let mut out: Vec<u8> = Vec::new();
        let mut i: usize = 0;
        while i < sl.len
            invariant
                self@.valid_id(sl.target as int),
                0 <= i <= sl.len,
                clen == content@.len(),
                sl.start + sl.len <= clen,
                content@ == self@.bindings[sl.target as int].content,
                out@ == content@.subrange(sl.start as int, sl.start + i),
            decreases sl.len - i,
        {
            out.push(content[sl.start + i]);
            proof {
                assert(out@ =~= content@.subrange(sl.start as int, sl.start + i + 1));
            }
            i = i + 1;
        }
        Ok(out)
    }

    /// Exits a scope: every binding the scope declared that still owns
    /// its value is dropped and its storage released, in reverse
    /// declaration order. Values that were moved out are not released
    /// again; everything else is untouched. Returns the released ids in
    /// release order.
    pub fn exit_scope(&mut self, scope: u64) -> (dropped: Vec<usize>)
        ensures
            final(self)@ == old(self)@.after_scope_exit(scope),
            dropped@ == drop_order(old(self)@.bindings, scope),
    {
        let ghost bs = old(self)@.bindings;
        let mut dropped: Vec<usize> = Vec::new();
        let mut i: usize = self.bindings.len();
        proof {
            assert(bs.take(bs.len() as int) =~= bs);
            assert(Seq::<usize>::empty() + drop_order(bs, scope) =~= drop_order(bs, scope));
        }
        while i > 0
            invariant
                self.bindings@.len() == bs.len(),
                bs == old(self)@.bindings,
                self.borrows@ == old(self).borrows@,
                0 <= i <= bs.len(),
                forall|j: int| 0 <= j < i ==> (#[trigger] self.bindings@[j])@ == bs[j],
                forall|j: int|
                    i <= j < bs.len() ==> (#[trigger] self.bindings@[j])@ == old(
                        self,
                    )@.after_scope_exit(scope).bindings[j],
                drop_order(bs, scope) == dropped@ + drop_order(bs.take(i as int), scope),
            decreases i,
        {
            i = i - 1;
            proof {
                lemma_drop_order_step(bs, scope, i as int);
            }
            let ghost pre = dropped@;
            if self.bindings[i].scope == scope && self.bindings[i].state == BindingState::Valid {
                self.bindings[i].state = BindingState::Dropped;
                dropped.push(i);
                proof {
                    assert(released_by(bs[i as int], scope));
                    assert(self.bindings@[i as int]@ == old(self)@.after_scope_exit(
                        scope,
                    ).bindings[i as int]);
                    assert(dropped@ =~= pre + seq![i as usize]);
                    assert((pre + seq![i as usize]) + drop_order(bs.take(i as int), scope) =~= pre
                        + (seq![i as usize] + drop_order(bs.take(i as int), scope)));
                }
            } else {
                proof {
                    assert(!released_by(bs[i as int], scope));
                    assert(self.bindings@[i as int]@ == old(self)@.after_scope_exit(
                        scope,
                    ).bindings[i as int]);
                }
            }
        }
        proof {
            assert(bs.take(0) =~= Seq::<BindingModel>::empty());
            assert(dropped@ + Seq::<usize>::empty() =~= dropped@);
            assert(self@.bindings =~= old(self)@.after_scope_exit(scope).bindings);
            assert(self@.borrows =~= old(self)@.borrows);
        }
        dropped
    }
}

/// Moving a non-copy-eligible value out of a binding — by assignment,
/// argument passing, or returning, all of which the model performs with
/// [`CheckerModel::after_assign`] — makes any subsequent read of the
/// source binding fail with `UseAfterMove`.
pub proof fn lemma_use_after_move(m: CheckerModel, src: int, scope: u64, valid_until: u64)
    requires
        m.valid_id(src),
        m.bindings[src].state is Valid,
        !m.bindings[src].copy_eligible,
    ensures
        m.after_assign(src, scope, valid_until).check_move_spec(src) == Err::<(), Violation>(
            Violation::UseAfterMove,
        ),
{
}

/// Assigning a copy-eligible value duplicates it: both the source and
/// the new binding stay independently readable with equal content, and a
/// later write to either one leaves the other's content untouched.
pub proof fn lemma_copy_keeps_both(
    m: CheckerModel,
    src: int,
    scope: u64,
    valid_until: u64,
    content: Seq<u8>,
)
    requires
        m.valid_id(src),
        m.bindings[src].state is Valid,
        m.bindings[src].copy_eligible,
    ensures
        m.after_assign(src, scope, valid_until).check_move_spec(src) is Ok,
        m.after_assign(src, scope, valid_until).check_move_spec(m.bindings.len() as int) is Ok,
        m.after_assign(src, scope, valid_until).bindings[src].content == m.bindings[src].content,
        m.after_assign(src, scope, valid_until).bindings[m.bindings.len() as int].content
            == m.bindings[src].content,
        m.after_assign(src, scope, valid_until).after_write(
            m.bindings.len() as int,
            content,
        ).bindings[src].content == m.bindings[src].content,
        m.after_assign(src, scope, valid_until).after_write(src, content).bindings[m.bindings.len()
            as int].content == m.bindings[src].content,
{
}

/// Deep duplication is an independent copy: the original and the
/// duplicate both read back the same content, and a later write to
/// either one leaves the other's content untouched.
pub proof fn lemma_duplicate_independent(
    m: CheckerModel,
    src: int,
    scope: u64,
    valid_until: u64,
    content: Seq<u8>,
)
    requires
        m.valid_id(src),
        m.bindings[src].state is Valid,
    ensures
        m.after_duplicate(src, scope, valid_until).check_move_spec(src) is Ok,
        m.after_duplicate(src, scope, valid_until).check_move_spec(m.bindings.len() as int) is Ok,
        m.after_duplicate(src, scope, valid_until).bindings[src].content == m.bindings[src].content,
        m.after_duplicate(src, scope, valid_until).bindings[m.bindings.len() as int].content
            == m.bindings[src].content,
        m.after_duplicate(src, scope, valid_until).after_write(
            m.bindings.len() as int,
            content,
        ).bindings[src].content == m.bindings[src].content,
        m.after_duplicate(src, scope, valid_until).after_write(src, content).bindings[
            m.bindings.len() as int].content == m.bindings[src].content,
{
}

/// Borrow exclusivity: once a borrow is recorded, any overlapping borrow
/// of the same binding where either side is exclusive is rejected. With
/// [`lemma_shared_borrows_coexist`], two overlapping borrows are both
/// admitted exactly when both are shared.
pub proof fn lemma_borrow_exclusivity(
    m: CheckerModel,
    target: int,
    e1: bool,
    s1: Span,
    e2: bool,
    s2: Span,
)
    requires
        m.valid_id(target),
        m.check_borrow_spec(target, e1, s1) is Ok,
        s1.overlaps(s2),
        e1 || e2,
    ensures
        m.after_borrow(target, e1, s1).check_borrow_spec(target, e2, s2) is Err,
{
    let m2 = m.after_borrow(target, e1, s1);
    let n = m.borrows.len() as int;
    assert(m2.borrows[n] == (BorrowModel { target, exclusive: e1, span: s1 }));
    assert(conflicts(m2.borrows[n], target, e2, s2));
    assert(!m2.borrow_admissible(target, e2, s2));
}

/// Any number of shared borrows may coexist: recording one admitted
/// shared borrow never revokes the admissibility of another shared
/// borrow of the same binding, however their spans overlap.
pub proof fn lemma_shared_borrows_coexist(m: CheckerModel, target: int, s1: Span, s2: Span)
    requires
        m.valid_id(target),
        m.check_borrow_spec(target, false, s1) is Ok,
        m.check_borrow_spec(target, false, s2) is Ok,
    ensures
        m.after_borrow(target, false, s1).check_borrow_spec(target, false, s2) is Ok,
{
    let m2 = m.after_borrow(target, false, s1);
    let n = m.borrows.len() as int;
    assert forall|i: int| 0 <= i < m2.borrows.len() implies !conflicts(
        #[trigger] m2.borrows[i],
        target,
        false,
        s2,
    ) by {
        if i < n {
            assert(m2.borrows[i] == m.borrows[i]);
        } else {
            assert(m2.borrows[i] == (BorrowModel { target, exclusive: false, span: s1 }));
        }
    }
}

/// No binding is ever released twice: exiting a scope drops every
/// binding it releases, so a second exit of the same scope releases
/// nothing at all.
pub proof fn lemma_release_once(m: CheckerModel, scope: u64)
    ensures
        drop_order(m.after_scope_exit(scope).bindings, scope) == Seq::<usize>::empty(),
{
    let bs = m.after_scope_exit(scope).bindings;
    assert forall|i: int| 0 <= i < bs.len() implies !released_by(#[trigger] bs[i], scope) by {
        if released_by(m.bindings[i], scope) {
            assert(bs[i].state is Dropped);
        }
    }
    lemma_drop_order_none(bs, scope);
}

/// A sequence of bindings none of which a scope's exit releases yields
/// an empty release list.
proof fn lemma_drop_order_none(bs: Seq<BindingModel>, scope: u64)
    requires
        forall|i: int| 0 <= i < bs.len() ==> !released_by(#[trigger] bs[i], scope),
    ensures
        drop_order(bs, scope) == Seq::<usize>::empty(),
    decreases bs.len(),
{
    if bs.len() > 0 {
        assert(!released_by(bs[bs.len() - 1], scope));
        lemma_drop_order_none(bs.drop_last(), scope);
    }
}

/// Release order is reverse declaration order: the ids a scope's exit
/// releases are strictly decreasing, so no id appears twice — each value
/// is released at most once.
pub proof fn lemma_release_reverse_order(bs: Seq<BindingModel>, scope: u64)
    requires
        bs.len() <= usize::MAX,
    ensures
        forall|k: int|
            0 <= k < drop_order(bs, scope).len() ==> (#[trigger] drop_order(bs, scope)[k] as int)
                < bs.len(),
        forall|j: int, k: int|
            0 <= j < k < drop_order(bs, scope).len() ==> drop_order(bs, scope)[j] > drop_order(
                bs,
                scope,
            )[k],
    decreases bs.len(),
{
    if bs.len() > 0 {
        lemma_release_reverse_order(bs.drop_last(), scope);
        let rest = drop_order(bs.drop_last(), scope);
        let d = drop_order(bs, scope);
        if released_by(bs.last(), scope) {
            assert(d == seq![(bs.len() - 1) as usize] + rest);
            assert forall|k: int| 0 <= k < d.len() implies (#[trigger] d[k] as int) < bs.len() by {
                if k == 0 {
                    assert(d[0] == (bs.len() - 1) as usize);
                } else {
                    assert(d[k] == rest[k - 1]);
                }
            }
            assert forall|j: int, k: int| 0 <= j < k < d.len() implies d[j] > d[k] by {
                if j == 0 {
                    assert(d[0] == (bs.len() - 1) as usize);
                    assert(d[k] == rest[k - 1]);
                    assert((rest[k - 1] as int) < bs.drop_last().len());
                } else {
                    assert(d[j] == rest[j - 1]);
                    assert(d[k] == rest[k - 1]);
                }
            }
        } else {
            assert(d == rest);
        }
    }
}

/// Unrolls [`drop_order`] one declaration at a time: the ids released
/// among the first `i + 1` bindings are the id `i` itself, when the
/// scope's exit releases it, followed by the ids released among the
/// first `i`.
proof fn lemma_drop_order_step(bs: Seq<BindingModel>, scope: u64, i: int)
    requires
        0 <= i < bs.len(),
    ensures
        released_by(bs[i], scope) ==> drop_order(bs.take(i + 1), scope) == seq![i as usize]
            + drop_order(bs.take(i), scope),
        !released_by(bs[i], scope) ==> drop_order(bs.take(i + 1), scope) == drop_order(
            bs.take(i),
            scope,
        ),
{
    let t = bs.take(i + 1);
    assert(t.len() == i + 1);
    assert(t.last() == bs[i]);
    assert(t.drop_last() =~= bs.take(i));
}

} // verus!
