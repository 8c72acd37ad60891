use vstd::prelude::*;

verus! {

/// Why a lookup produced no record.
#[derive(Clone, Copy, Debug, PartialEq, Eq, Structural)]
pub enum LookupError {
    /// No eligible record has the requested key, name or identifier.
    NotFound,
}

/// The first position of `s` whose element satisfies `p`.
pub open spec fn is_first<T>(s: Seq<T>, p: spec_fn(T) -> bool, i: int) -> bool {
    &&& 0 <= i < s.len()
    &&& p(s[i])
    &&& forall|j: int| 0 <= j < i ==> !p(#[trigger] s[j])
}

/// No element of `s` satisfies `p`.
pub open spec fn none_satisfy<T>(s: Seq<T>, p: spec_fn(T) -> bool) -> bool {
    forall|j: int| 0 <= j < s.len() ==> !p(#[trigger] s[j])
}

/// What a lookup of the first element satisfying `p` returns: that element,
/// or `NotFound` when there is none.
pub open spec fn first_or_not_found<T>(s: Seq<T>, p: spec_fn(T) -> bool, r: Result<T, LookupError>) -> bool {
    match r {
        Ok(x) => exists|i: int| is_first(s, p, i) && x == s[i],
        Err(e) => e == LookupError::NotFound && none_satisfy(s, p),
    }
}

/// Filtering the first `i + 1` elements adds the `i`-th to the filtered first
/// `i` exactly when it satisfies `p`.
pub proof fn lemma_filter_step<T>(s: Seq<T>, p: spec_fn(T) -> bool, i: int)
    requires
        0 <= i < s.len(),
    ensures
        s.take(i + 1).filter(p) == (if p(s[i]) {
            s.take(i).filter(p).push(s[i])
        } else {
            s.take(i).filter(p)
        }),
{
    reveal(Seq::filter);
    assert(s.take(i + 1).drop_last() =~= s.take(i));
}

/// A sequence is all of its first `s.len()` elements.
pub proof fn lemma_take_all<T>(s: Seq<T>)
    ensures
        s.take(s.len() as int) == s,
{
    assert(s.take(s.len() as int) =~= s);
}

} // verus!
