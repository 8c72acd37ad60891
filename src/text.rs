use vstd::prelude::*;

verus! {

/// The name of the lowercase form of a string: the result of
/// `str::to_lowercase`, which maps each character by the Unicode lowercase
/// tables and so depends on the characters alone.
pub uninterp spec fn lower_of(s: Seq<char>) -> Seq<char>;

/// Relies on `str::to_lowercase`: the lowercase form of `s`.
#[verifier::external_body]
fn lowercase(s: &str) -> (r: String)
    ensures
        r@ == lower_of(s@),
{
    s.to_lowercase()
}

/// Two names are the same name when their lowercase forms are equal.
pub open spec fn same_name(a: Seq<char>, b: Seq<char>) -> bool {
    lower_of(a) == lower_of(b)
}

/// An optional name that is present and the same name as `b`.
pub open spec fn has_name(a: Option<String>, b: Seq<char>) -> bool {
    match a {
        Some(n) => same_name(n@, b),
        None => false,
    }
}

/// The lowercase form of `s`.
pub fn fold_case(s: &str) -> (r: String)
    ensures
        r@ == lower_of(s@),
{
    lowercase(s)
}

/// The lowercase form of an optional name.
pub fn fold_optional(s: &Option<String>) -> (r: Option<String>)
    ensures
        r is Some <==> s is Some,
        s is Some ==> r->0@ == lower_of(s->0@),
{
    match s {
        Some(t) => Some(lowercase(t.as_str())),
        None => None,
    }
}

/// Whether `a` and `b` are the same name, letter case aside.
pub fn names_match(a: &str, b: &str) -> (r: bool)
    ensures
        r == same_name(a@, b@),
{
    let la = lowercase(a);
    let lb = lowercase(b);
    la == lb
}

/// Whether an optional name is present and equal to an already lowercased
/// query.
pub fn folded_matches(folded: &Option<String>, query: &String) -> (r: bool)
    ensures
        r == (folded is Some && folded->0@ == query@),
{
    match folded {
        Some(f) => *f == *query,
        None => false,
    }
}

/// Whether two strings hold the same characters.
pub fn same_text(a: &str, b: &str) -> (r: bool)
    ensures
        r == (a@ == b@),
{
    let x = a.to_owned();
    let y = b.to_owned();
    x == y
}

/// A copy of an optional string.
pub fn copy_text(s: &Option<String>) -> (r: Option<String>)
    ensures
        r == *s,
{
    match s {
        Some(t) => Some(t.clone()),
        None => None,
    }
}

} // verus!
