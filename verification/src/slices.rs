use vstd::prelude::*;

use crate::diag::Violation;

verus! {

/// Constructs a slice of `seq` over the half-open range `[start, end)`,
/// returned as its own copy of the range's content.
///
/// Construction succeeds exactly when `start <= end <= seq.len()`; any
/// other range is rejected with `OutOfRange`.
pub fn slice(seq: &Vec<u8>, start: usize, end: usize) -> (r: Result<Vec<u8>, Violation>)
    ensures
        r is Ok <==> start <= end && end <= seq@.len(),
        r is Ok ==> r->Ok_0@ == seq@.subrange(start as int, end as int),
        r is Ok ==> r->Ok_0@.len() == end - start,
        r is Err ==> r->Err_0 == Violation::OutOfRange,
{
    if start > end || end > seq.len() {
        return Err(Violation::OutOfRange);
    }
    let mut out: Vec<u8> = Vec::new();
    let mut i: usize = start;
    while i < end
        invariant
            start <= i <= end,
            end <= seq@.len(),
            out@ == seq@.subrange(start as int, i as int),
        decreases end - i,
    {
        out.push(seq[i]);
        proof {
            assert(out@ =~= seq@.subrange(start as int, (i + 1) as int));
        }
        i = i + 1;
    }
    Ok(out)
}

/// A slice over the full range of a sequence has exactly the sequence's
/// content.
pub proof fn lemma_full_slice(s: Seq<u8>)
    ensures
        s.subrange(0, s.len() as int) == s,
{
    assert(s.subrange(0, s.len() as int) =~= s);
}

/// Looks for `target` in the sequence through an exclusive reference,
/// returning the index of the first element equal to it. The sequence is
/// handed back to the caller unchanged: borrowing it did not take
/// ownership.
pub fn find_first(seq: &mut Vec<u64>, target: u64) -> (r: Option<usize>)
    ensures
        final(seq)@ == old(seq)@,
        r is Some ==> 0 <= r->0 < old(seq)@.len() && old(seq)@[r->0 as int] == target,
        r is Some ==> forall|j: int| 0 <= j < r->0 ==> old(seq)@[j] != target,
        r is None <==> forall|j: int| 0 <= j < old(seq)@.len() ==> old(seq)@[j] != target,
{
    let mut i: usize = 0;
    while i < seq.len()
        invariant
            seq@ == old(seq)@,
            0 <= i <= seq@.len(),
            forall|j: int| 0 <= j < i ==> seq@[j] != target,
        decreases seq@.len() - i,
    {
        if seq[i] == target {
            return Some(i);
        }
        i = i + 1;
    }
    None
}

} // verus!
