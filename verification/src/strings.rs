use vstd::prelude::*;

verus! {

/// Holds exactly when `i` is the index of the first space in `s`.
pub open spec fn is_first_space(s: Seq<char>, i: int) -> bool {
    &&& 0 <= i < s.len()
    &&& s[i] == ' '
    &&& forall|j: int| 0 <= j < i ==> s[j] != ' '
}

/// The prefix of `s` up to (excluding) its first space, or all of `s`
/// when it contains no space.
pub open spec fn first_word_of(s: Seq<char>) -> Seq<char> {
    if exists|i: int| is_first_space(s, i) {
        s.take(choose|i: int| is_first_space(s, i))
    } else {
        s
    }
}

/// At most one index can be the first space of a sequence.
proof fn lemma_first_space_unique(s: Seq<char>, i: int, j: int)
    requires
        is_first_space(s, i),
        is_first_space(s, j),
    ensures
        i == j,
{
    if i < j {
        assert(s[i] != ' ');
    }
    if j < i {
        assert(s[j] != ' ');
    }
}

/// Pins [`first_word_of`] down for a caller that knows where the first
/// space of a sequence is: the first word is everything before it.
pub proof fn lemma_first_word_at(s: Seq<char>, i: int)
    requires
        is_first_space(s, i),
    ensures
        first_word_of(s) == s.take(i),
{
    let k = choose|k: int| is_first_space(s, k);
    lemma_first_space_unique(s, i, k);
}

/// A sequence without a space is its own first word.
pub proof fn lemma_first_word_whole(s: Seq<char>)
    requires
        forall|j: int| 0 <= j < s.len() ==> s[j] != ' ',
    ensures
        first_word_of(s) == s,
{
    assert(forall|k: int| !is_first_space(s, k));
}

/// Takes ownership of a string and hands the very same value back to the
/// caller: moving a value out of a function returns ownership unchanged.
pub fn take_and_give_back(a_string: String) -> (r: String)
    ensures
        r == a_string,
{
    a_string
}

/// Takes ownership of a string and returns a pair: a deep duplicate of
/// the value, and the original value itself. The caller ends up owning
/// two independent strings of equal content.
pub fn return_multiple_values(a_string: String) -> (r: (String, String))
    ensures
        r.0@ == a_string@,
        r.1 == a_string,
{
    let another_string = a_string.clone();
    (another_string, a_string)
}

/// Computes the length of a string through a shared reference, without
/// taking ownership: the caller's binding stays valid after the call.
pub fn using_a_reference(s: &String) -> (r: usize)
    ensures
        r == s@.len(),
{
    s.as_str().unicode_len()
}

/// Returns the first word of `s`: the prefix up to the first space, or
/// the whole string when it has none. The result is a view into `s`, not
/// a copy.
pub fn first_word(s: &str) -> (r: &str)
    ensures
        r@ == first_word_of(s@),
{
    let len = s.unicode_len();
    let mut i: usize = 0;
    while i < len
        invariant
            len == s@.len(),
            0 <= i <= len,
            forall|j: int| 0 <= j < i ==> s@[j] != ' ',
        decreases len - i,
    {
        if s.get_char(i) == ' ' {
            let r = s.substring_char(0, i);
            proof {
                assert(is_first_space(s@, i as int));
                let k = choose|k: int| is_first_space(s@, k);
                lemma_first_space_unique(s@, i as int, k);
                assert(r@ =~= first_word_of(s@));
            }
            return r;
        }
        i = i + 1;
    }
    proof {
        assert(forall|k: int| !is_first_space(s@, k));
    }
    s
}

} // verus!
