//! The first place in a sequence at which a test holds: the one search that the library
//! makes in names, in lists of children, of attributes and of namespace bindings.

use vstd::prelude::*;

verus! {

/// The first index at or after `from` at which `test` holds of an item of `s`, or
/// `s.len()` if it holds of none.
pub open spec fn first_from<T>(s: Seq<T>, test: spec_fn(T) -> bool, from: int) -> int
    decreases s.len() - from,
{
    if from < 0 || from >= s.len() {
        s.len() as int
    } else if test(s[from]) {
        from
    } else {
        first_from(s, test, from + 1)
    }
}

/// `first_from` stays within the sequence, lands on an item of which the test holds when
/// it lands inside, and passes no such item.
pub proof fn lemma_first_from<T>(s: Seq<T>, test: spec_fn(T) -> bool, from: int)
    requires
        0 <= from <= s.len(),
    ensures
        from <= first_from(s, test, from) <= s.len(),
        first_from(s, test, from) < s.len() ==> test(s[first_from(s, test, from)]),
        forall|j: int| from <= j < first_from(s, test, from) ==> !test(#[trigger] s[j]),
    decreases s.len() - from,
{
    if from < s.len() && !test(s[from]) {
        lemma_first_from(s, test, from + 1);
    }
}

/// Where the test holds of an item and of none between `from` and it, `first_from` lands
/// on that item.
pub proof fn lemma_first_found<T>(s: Seq<T>, test: spec_fn(T) -> bool, from: int, at: int)
    requires
        0 <= from <= at < s.len(),
        test(s[at]),
        forall|j: int| from <= j < at ==> !test(#[trigger] s[j]),
    ensures
        first_from(s, test, from) == at,
    decreases at - from,
{
    if from < at {
        assert(!test(s[from]));
        lemma_first_found(s, test, from + 1, at);
    }
}

/// Two tests that agree on the items of a sequence are first met at the same place.
pub proof fn lemma_first_agrees<T>(
    s: Seq<T>,
    test: spec_fn(T) -> bool,
    other: spec_fn(T) -> bool,
    from: int,
)
    requires
        0 <= from,
        forall|j: int| 0 <= j < s.len() ==> test(#[trigger] s[j]) == other(s[j]),
    ensures
        first_from(s, test, from) == first_from(s, other, from),
    decreases s.len() - from,
{
    if from < s.len() {
        assert(test(s[from]) == other(s[from]));
        lemma_first_agrees(s, test, other, from + 1);
    }
}

} // verus!
