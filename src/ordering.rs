use vstd::prelude::*;

verus! {

/// Position `a` comes before position `b` under `keys`: keys compare on
/// their first component, then their second, and equal keys keep the order
/// of their positions.
pub open spec fn before(keys: Seq<(i128, i128)>, a: int, b: int) -> bool {
    let ka = keys[a];
    let kb = keys[b];
    ||| ka.0 < kb.0
    ||| ka.0 == kb.0 && ka.1 < kb.1
    ||| ka.0 == kb.0 && ka.1 == kb.1 && a < b
}

/// `order` lists exactly the positions `k` with `chosen[k]`, each once,
/// sorted by `before`.
pub open spec fn is_order_of(order: Seq<usize>, keys: Seq<(i128, i128)>, chosen: Seq<bool>) -> bool {
    &&& keys.len() <= usize::MAX
    &&& forall|i: int|
        #![trigger order[i]]
        0 <= i < order.len() ==> order[i] < keys.len() && order[i] < chosen.len() && chosen[order[i] as int]
    &&& forall|k: int| 0 <= k < keys.len() && k < chosen.len() && #[trigger] chosen[k] ==> order.contains(k as usize)
    &&& forall|i: int, j: int|
        0 <= i < j < order.len() ==> before(keys, #[trigger] order[i] as int, #[trigger] order[j] as int)
}

/// `out` lists the rows `rows[k]` with `chosen[k]`, each once, sorted by
/// `keys`, equal keys in the order of their positions.
pub open spec fn arranged<T>(out: Seq<T>, rows: Seq<T>, keys: Seq<(i128, i128)>, chosen: Seq<bool>) -> bool {
    exists|order: Seq<usize>|
        #![trigger is_order_of(order, keys, chosen)]
        is_order_of(order, keys, chosen) && out == order.map_values(|i: usize| rows[i as int])
}

/// A sorted listing is determined by what it lists: two orders of the same
/// chosen positions under the same keys are equal. So every listing that
/// this library sorts is a function of its input records, and asking for it
/// again, with no record changed, gives the same listing.
pub proof fn lemma_order_unique(o1: Seq<usize>, o2: Seq<usize>, keys: Seq<(i128, i128)>, chosen: Seq<bool>)
    requires
        is_order_of(o1, keys, chosen),
        is_order_of(o2, keys, chosen),
    ensures
        o1 == o2,
    decreases o1.len(),
{
    if o1.len() == 0 {
        if o2.len() > 0 {
            assert(chosen[o2[0] as int]);
            assert(o1.contains(o2[0]));
        }
        assert(o1 =~= o2);
    } else {
        let x = o1[0];
        assert(chosen[x as int]);
        assert(o2.contains(x));
        let y = o2[0];
        assert(chosen[y as int]);
        assert(o1.contains(y));
        if x != y {
            let q = choose|q: int| 0 <= q < o2.len() && o2[q] == x;
            let p = choose|p: int| 0 <= p < o1.len() && o1[p] == y;
            assert(before(keys, o2[0] as int, o2[q] as int));
            assert(before(keys, o1[0] as int, o1[p] as int));
        }
        assert(x == y);
        let c = chosen.update(x as int, false);
        let t1 = o1.drop_first();
        let t2 = o2.drop_first();
        assert forall|i: int| #![trigger t1[i]] 0 <= i < t1.len() implies t1[i] < keys.len() && t1[i]
            < c.len() && c[t1[i] as int] by {
            assert(before(keys, o1[0] as int, o1[i + 1] as int));
        }
        assert forall|i: int| #![trigger t2[i]] 0 <= i < t2.len() implies t2[i] < keys.len() && t2[i]
            < c.len() && c[t2[i] as int] by {
            assert(before(keys, o2[0] as int, o2[i + 1] as int));
        }
        assert forall|k: int| 0 <= k < keys.len() && k < c.len() && #[trigger] c[k] implies t1.contains(
            k as usize,
        ) && t2.contains(k as usize) by {
            assert(chosen[k]);
            assert(k != x as int);
            let p = choose|p: int| 0 <= p < o1.len() && o1[p] == k as usize;
            let q = choose|q: int| 0 <= q < o2.len() && o2[q] == k as usize;
            assert(t1[p - 1] == k as usize);
            assert(t2[q - 1] == k as usize);
        }
        assert forall|i: int, j: int| 0 <= i < j < t1.len() implies before(
            keys,
            #[trigger] t1[i] as int,
            #[trigger] t1[j] as int,
        ) by {
            assert(before(keys, o1[i + 1] as int, o1[j + 1] as int));
        }
        assert forall|i: int, j: int| 0 <= i < j < t2.len() implies before(
            keys,
            #[trigger] t2[i] as int,
            #[trigger] t2[j] as int,
        ) by {
            assert(before(keys, o2[i + 1] as int, o2[j + 1] as int));
        }
        lemma_order_unique(t1, t2, keys, c);
        assert forall|i: int| 0 <= i < o1.len() implies o1[i] == o2[i] by {
            if i > 0 {
                assert(o1[i] == t1[i - 1]);
                assert(o2[i] == t2[i - 1]);
            }
        }
        assert(o1 =~= o2);
    }
}

/// A sorted selection of rows is a function of the rows, the keys and the
/// selection: asked for twice, it is the same both times.
pub proof fn lemma_arranged_unique<T>(
    out1: Seq<T>,
    out2: Seq<T>,
    rows: Seq<T>,
    keys: Seq<(i128, i128)>,
    chosen: Seq<bool>,
)
    requires
        arranged(out1, rows, keys, chosen),
        arranged(out2, rows, keys, chosen),
    ensures
        out1 == out2,
{
    let o1 = choose|order: Seq<usize>|
        #![trigger is_order_of(order, keys, chosen)]
        is_order_of(order, keys, chosen) && out1 == order.map_values(|i: usize| rows[i as int]);
    let o2 = choose|order: Seq<usize>|
        #![trigger is_order_of(order, keys, chosen)]
        is_order_of(order, keys, chosen) && out2 == order.map_values(|i: usize| rows[i as int]);
    lemma_order_unique(o1, o2, keys, chosen);
}

/// Whether position `a` comes before position `b` under `keys`.
fn precedes(keys: &Vec<(i128, i128)>, a: usize, b: usize) -> (r: bool)
    requires
        a < keys.len(),
        b < keys.len(),
    ensures
        r == before(keys@, a as int, b as int),
{
    let ka = keys[a];
    let kb = keys[b];
    ka.0 < kb.0 || (ka.0 == kb.0 && ka.1 < kb.1) || (ka.0 == kb.0 && ka.1 == kb.1 && a < b)
}

/// The positions `k` with `chosen[k]`, sorted by `keys` (smallest first),
/// equal keys in the order of their positions.
pub fn sorted_positions(keys: &Vec<(i128, i128)>, chosen: &Vec<bool>) -> (order: Vec<usize>)
    requires
        chosen.len() == keys.len(),
    ensures
        is_order_of(order@, keys@, chosen@),
{
    let mut order: Vec<usize> = Vec::new();
    let n = keys.len();
    let mut k: usize = 0;
    while k < n
        invariant
            n == keys.len() == chosen.len(),
            k <= n,
            forall|i: int| #![trigger order[i]] 0 <= i < order.len() ==> order[i] < k && chosen[order[i] as int],
            forall|c: int| 0 <= c < k && #[trigger] chosen[c] ==> order@.contains(c as usize),
            forall|i: int, j: int|
                0 <= i < j < order.len() ==> before(keys@, #[trigger] order[i] as int, #[trigger] order[j] as int),
        decreases n - k,
    {
        if chosen[k] {
            let mut p: usize = 0;
            while p < order.len() && !precedes(keys, k, order[p])
                invariant
                    n == keys.len() == chosen.len(),
                    k < n,
                    p <= order.len(),
                    forall|i: int| #![trigger order[i]] 0 <= i < order.len() ==> order[i] < k,
                    forall|q: int| 0 <= q < p ==> !before(keys@, k as int, #[trigger] order[q] as int),
                decreases order.len() - p,
            {
                p = p + 1;
            }
            let ghost old_order = order@;
            assert forall|q: int| p <= q < old_order.len() implies before(keys@, k as int, #[trigger] old_order[q] as int) by {
                if q > p {
                    assert(before(keys@, old_order[p as int] as int, old_order[q] as int));
                }
            }
            order.insert(p, k);
            assert(order@ == old_order.insert(p as int, k));
            assert forall|c: int| 0 <= c < k + 1 && #[trigger] chosen[c] implies order@.contains(c as usize) by {
                if c == k {
                    assert(order@[p as int] == k);
                } else {
                    let w = choose|w: int| 0 <= w < old_order.len() && old_order[w] == c as usize;
                    if w < p {
                        assert(order@[w] == c as usize);
                    } else {
                        assert(order@[w + 1] == c as usize);
                    }
                }
            }
        }
        k = k + 1;
    }
    order
}

} // verus!
