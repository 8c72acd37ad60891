use vstd::prelude::*;
use vstd::std_specs::iter::IteratorSpec;

verus! {

/// The characters that Unicode marks `White_Space`, which `str::trim` strips.
pub open spec fn is_blank(c: char) -> bool {
    let n = c as u32;
    ||| 0x9 <= n <= 0xd
    ||| n == 0x20
    ||| n == 0x85
    ||| n == 0xa0
    ||| n == 0x1680
    ||| 0x2000 <= n <= 0x200a
    ||| n == 0x2028
    ||| n == 0x2029
    ||| n == 0x202f
    ||| n == 0x205f
    ||| n == 0x3000
}

/// `s` without its leading blanks.
pub open spec fn trim_start(s: Seq<char>) -> Seq<char>
    decreases s.len(),
{
    if s.len() > 0 && is_blank(s[0]) {
        trim_start(s.drop_first())
    } else {
        s
    }
}

/// `s` without its trailing blanks.
pub open spec fn trim_end(s: Seq<char>) -> Seq<char>
    decreases s.len(),
{
    if s.len() > 0 && is_blank(s.last()) {
        trim_end(s.drop_last())
    } else {
        s
    }
}

/// `s` without blanks at either end.
pub open spec fn trim(s: Seq<char>) -> Seq<char> {
    trim_end(trim_start(s))
}

/// The pieces of `s` between commas, as `str::split(',')` gives them: a string
/// with `k` commas has `k + 1` pieces, some of them possibly empty.
pub open spec fn split_commas(s: Seq<char>) -> Seq<Seq<char>>
    decreases s.len(),
{
    if s.len() == 0 {
        seq![Seq::empty()]
    } else {
        let init = split_commas(s.drop_last());
        if s.last() == ',' {
            init.push(Seq::empty())
        } else {
            init.update(init.len() - 1, init.last().push(s.last()))
        }
    }
}

/// The identifiers that a comma-joined roster names: each piece, trimmed.
pub open spec fn roster_tokens(s: Seq<char>) -> Seq<Seq<char>> {
    split_commas(s).map_values(|t: Seq<char>| trim(t))
}

/// Whether `id` is one of the identifiers of roster `s`.
pub open spec fn in_roster(s: Seq<char>, id: Seq<char>) -> bool {
    roster_tokens(s).contains(id)
}

/// Whether `id`, when present, is a member of a roster that may be absent:
/// an absent roster has no members, and a missing identifier is in none.
pub open spec fn is_member(roster: Option<String>, id: Option<String>) -> bool {
    match (roster, id) {
        (Some(r), Some(i)) => in_roster(r@, i@),
        _ => false,
    }
}

pub proof fn lemma_split_nonempty(s: Seq<char>)
    ensures
        split_commas(s).len() >= 1,
    decreases s.len(),
{
    if s.len() > 0 {
        lemma_split_nonempty(s.drop_last());
    }
}

/// The characters of `s`, in order.
pub fn chars_of(s: &str) -> (r: Vec<char>)
    ensures
        r@ == s@,
{
    let mut r: Vec<char> = Vec::new();
    for c in it: s.chars()
        invariant
            r@ == it.seq().take(it.index() as int),
            it.seq() == s@,
    {
        r.push(c);
    }
    r
}

/// Whether `c` is a Unicode `White_Space` character.
pub fn blank(c: char) -> (r: bool)
    ensures
        r == is_blank(c),
{
    let n = c as u32;
    (0x9 <= n && n <= 0xd) || n == 0x20 || n == 0x85 || n == 0xa0 || n == 0x1680 || (0x2000 <= n
        && n <= 0x200a) || n == 0x2028 || n == 0x2029 || n == 0x202f || n == 0x205f || n == 0x3000
}

/// The bounds of each comma-separated piece of `cs`.
fn piece_bounds(cs: &Vec<char>) -> (r: Vec<(usize, usize)>)
    ensures
        r.len() == split_commas(cs@).len(),
        forall|k: int|
            #![trigger r[k]]
            0 <= k < r.len() ==> {
                &&& r[k].0 <= r[k].1 <= cs.len()
                &&& cs@.subrange(r[k].0 as int, r[k].1 as int) == split_commas(cs@)[k]
            },
{
    let mut r: Vec<(usize, usize)> = Vec::new();
    let mut start: usize = 0;
    let mut i: usize = 0;
    while i < cs.len()
        invariant
            start <= i <= cs.len(),
            split_commas(cs@.take(i as int)).len() == r.len() + 1,
            split_commas(cs@.take(i as int)).last() == cs@.subrange(start as int, i as int),
            forall|k: int|
                #![trigger r[k]]
                0 <= k < r.len() ==> {
                    &&& r[k].0 <= r[k].1 <= start
                    &&& cs@.subrange(r[k].0 as int, r[k].1 as int) == split_commas(
                        cs@.take(i as int),
                    )[k]
                },
        decreases cs.len() - i,
    {
        let ghost prev = cs@.take(i as int);
        let ghost next = cs@.take(i + 1);
        assert(next.drop_last() =~= prev);
        assert(next.last() == cs@[i as int]);
        proof {
            lemma_split_nonempty(prev);
        }
        if cs[i] == ',' {
            r.push((start, i));
            start = i + 1;
            assert(cs@.subrange(start as int, i + 1) =~= Seq::<char>::empty());
        } else {
            assert(cs@.subrange(start as int, i + 1) =~= cs@.subrange(start as int, i as int).push(
                cs@[i as int],
            ));
        }
        i = i + 1;
    }
    assert(cs@.take(cs.len() as int) =~= cs@);
    r.push((start, i));
    r
}

/// The bounds, within `cs`, of the piece `cs[a..b]` with its blanks trimmed.
fn trimmed_bounds(cs: &Vec<char>, a: usize, b: usize) -> (r: (usize, usize))
    requires
        a <= b <= cs.len(),
    ensures
        a <= r.0 <= r.1 <= b,
        cs@.subrange(r.0 as int, r.1 as int) == trim(cs@.subrange(a as int, b as int)),
{
    let mut lo: usize = a;
    while lo < b && blank(cs[lo])
        invariant
            a <= lo <= b <= cs.len(),
            trim_start(cs@.subrange(a as int, b as int)) == trim_start(
                cs@.subrange(lo as int, b as int),
            ),
        decreases b - lo,
    {
        assert(cs@.subrange(lo as int, b as int).drop_first() =~= cs@.subrange(
            lo + 1,
            b as int,
        ));
        lo = lo + 1;
    }
    let mut hi: usize = b;
    while hi > lo && blank(cs[hi - 1])
        invariant
            a <= lo <= hi <= b <= cs.len(),
            trim_end(cs@.subrange(lo as int, b as int)) == trim_end(
                cs@.subrange(lo as int, hi as int),
            ),
        decreases hi - lo,
    {
        assert(cs@.subrange(lo as int, hi as int).drop_last() =~= cs@.subrange(
            lo as int,
            hi - 1,
        ));
        hi = hi - 1;
    }
    (lo, hi)
}

/// The bounds, within `cs`, of each identifier of the roster `cs`.
pub fn token_bounds(cs: &Vec<char>) -> (r: Vec<(usize, usize)>)
    ensures
        r.len() == roster_tokens(cs@).len(),
        forall|k: int|
            #![trigger r[k]]
            0 <= k < r.len() ==> {
                &&& r[k].0 <= r[k].1 <= cs.len()
                &&& cs@.subrange(r[k].0 as int, r[k].1 as int) == roster_tokens(cs@)[k]
            },
{
    let pieces = piece_bounds(cs);
    let mut r: Vec<(usize, usize)> = Vec::new();
    let mut k: usize = 0;
    while k < pieces.len()
        invariant
            k <= pieces.len(),
            pieces.len() == split_commas(cs@).len(),
            forall|j: int|
                #![trigger pieces[j]]
                0 <= j < pieces.len() ==> {
                    &&& pieces[j].0 <= pieces[j].1 <= cs.len()
                    &&& cs@.subrange(pieces[j].0 as int, pieces[j].1 as int)
                        == split_commas(cs@)[j]
                },
            r.len() == k,
            forall|j: int|
                #![trigger r[j]]
                0 <= j < k ==> {
                    &&& r[j].0 <= r[j].1 <= cs.len()
                    &&& cs@.subrange(r[j].0 as int, r[j].1 as int) == roster_tokens(
                        cs@,
                    )[j]
                },
        decreases pieces.len() - k,
    {
        let (a, b) = pieces[k];
        assert(cs@.subrange(a as int, b as int) == split_commas(cs@)[k as int]);
        let t = trimmed_bounds(cs, a, b);
        r.push(t);
        k = k + 1;
    }
    r
}

/// Whether `cs[a..b]` is exactly `id`.
pub fn range_equals(cs: &Vec<char>, a: usize, b: usize, id: &Vec<char>) -> (r: bool)
    requires
        a <= b <= cs.len(),
    ensures
        r == (cs@.subrange(a as int, b as int) == id@),
{
    if b - a != id.len() {
        return false;
    }
    let mut i: usize = 0;
    while i < id.len()
        invariant
            b - a == id.len(),
            a <= b <= cs.len(),
            i <= id.len(),
            forall|j: int| 0 <= j < i ==> cs@[a + j] == id@[j],
        decreases id.len() - i,
    {
        if cs[a + i] != id[i] {
            assert(cs@.subrange(a as int, b as int)[i as int] != id@[i as int]);
            return false;
        }
        i = i + 1;
    }
    assert(cs@.subrange(a as int, b as int) =~= id@);
    true
}

/// Whether `id` is one of the identifiers of the roster `roster`: a roster
/// lists identifiers separated by commas, and a member is an exact match of
/// one of them once its surrounding blanks are trimmed. A part of an
/// identifier is no member ("42" is not in "142").
pub fn roster_contains(roster: &str, id: &str) -> (r: bool)
    ensures
        r == in_roster(roster@, id@),
{
    let cs = chars_of(roster);
    let target = chars_of(id);
    roster_chars_contain(&cs, &target)
}

/// `roster_contains` on characters already taken out of their strings.
pub fn roster_chars_contain(cs: &Vec<char>, id: &Vec<char>) -> (r: bool)
    ensures
        r == in_roster(cs@, id@),
{
    let bounds = token_bounds(cs);
    let mut k: usize = 0;
    while k < bounds.len()
        invariant
            k <= bounds.len(),
            bounds.len() == roster_tokens(cs@).len(),
            forall|j: int|
                #![trigger bounds[j]]
                0 <= j < bounds.len() ==> {
                    &&& bounds[j].0 <= bounds[j].1 <= cs.len()
                    &&& cs@.subrange(bounds[j].0 as int, bounds[j].1 as int)
                        == roster_tokens(cs@)[j]
                },
            forall|j: int| 0 <= j < k ==> roster_tokens(cs@)[j] != id@,
        decreases bounds.len() - k,
    {
        let (a, b) = bounds[k];
        assert(cs@.subrange(a as int, b as int) == roster_tokens(cs@)[k as int]);
        if range_equals(cs, a, b, id) {
            return true;
        }
        k = k + 1;
    }
    false
}

/// `is_member` with the identifier already taken out of its string.
pub fn member_of(roster: &Option<String>, id: &Option<Vec<char>>) -> (r: bool)
    ensures
        r == (roster is Some && id is Some && in_roster(roster->0@, id->0@)),
{
    match (roster, id) {
        (Some(text), Some(target)) => {
            let cs = chars_of(text.as_str());
            roster_chars_contain(&cs, target)
        },
        _ => false,
    }
}

/// The characters of an identifier that may be absent.
pub fn optional_chars(id: &Option<String>) -> (r: Option<Vec<char>>)
    ensures
        r is Some <==> id is Some,
        id is Some ==> r->0@ == id->0@,
{
    match id {
        Some(t) => Some(chars_of(t.as_str())),
        None => None,
    }
}

} // verus!
