use vstd::prelude::*;

verus! {

/// Entry `a` ranks before entry `b`: it has the larger key, or the same key and comes
/// first. This is the order of a stable sort from the largest key down.
pub open spec fn precedes(keys: Seq<u64>, a: int, b: int) -> bool {
    keys[a] > keys[b] || (keys[a] == keys[b] && a < b)
}

pub open spec fn min_nat(a: nat, b: nat) -> nat {
    if a <= b { a } else { b }
}

/// `order` lists the indices of the `limit` best-ranked entries of `keys` (all of them
/// where there are fewer), best first: what a stable sort by descending key followed by
/// a truncation to `limit` leaves, each entry given by its index.
pub open spec fn ranked(keys: Seq<u64>, order: Seq<usize>, limit: nat) -> bool {
    &&& order.len() == min_nat(limit, keys.len())
    &&& forall|i: int| 0 <= i < order.len() ==> #[trigger] order[i] < keys.len()
    &&& forall|i: int, j: int|
        0 <= i < j < order.len() ==> precedes(keys, #[trigger] order[i] as int, #[trigger] order[j] as int)
    &&& forall|x: usize, i: int|
        x < keys.len() && !#[trigger] order.contains(x) && 0 <= i < order.len()
            ==> precedes(keys, #[trigger] order[i] as int, x as int)
}

/// The ranking of `keys` to `limit`: the one order that `ranked` admits
/// (see `lemma_ranked_unique`).
pub open spec fn ranking(keys: Seq<u64>, limit: nat) -> Seq<usize> {
    choose|order: Seq<usize>| ranked(keys, order, limit)
}

/// Returns, best first, the indices of the `limit` entries with the largest keys
/// (all entries where there are fewer); entries with equal keys keep their order.
pub fn rank_descending(keys: &Vec<u64>, limit: usize) -> (order: Vec<usize>)
    ensures
        ranked(keys@, order@, limit as nat),
        order@ == ranking(keys@, limit as nat),
        limit >= keys.len() ==> forall|x: usize| x < keys.len() ==> #[trigger] order@.contains(x),
        order.len() == if limit <= keys.len() { limit } else { keys.len() },
        forall|i: int| 0 <= i < order.len() ==> #[trigger] order@[i] < keys.len(),
        forall|i: int, j: int|
            0 <= i < j < order.len() ==> keys@[#[trigger] order@[i] as int] > keys@[#[trigger] order@[j] as int]
                || (keys@[order@[i] as int] == keys@[order@[j] as int] && order@[i] < order@[j]),
        forall|x: usize, i: int|
            x < keys.len() && !#[trigger] order@.contains(x) && 0 <= i < order.len()
                ==> keys@[#[trigger] order@[i] as int] > keys@[x as int]
                || (keys@[order@[i] as int] == keys@[x as int] && order@[i] < x),
{
    let n: usize = keys.len();
    let mut sorted: Vec<usize> = Vec::new();
    let mut i: usize = 0;
    while i < n
        invariant
            i <= n,
            n == keys.len(),
            sorted.len() == i,
            forall|k: int| 0 <= k < sorted.len() ==> #[trigger] sorted[k] < i,
            forall|x: usize| x < i ==> #[trigger] sorted@.contains(x),
            forall|a: int, b: int|
                0 <= a < b < sorted.len() ==> precedes(keys@, #[trigger] sorted[a] as int, #[trigger] sorted[b] as int),
        decreases n - i,
    {
        let mut p: usize = 0;
        loop
            invariant
                p <= sorted.len(),
                i < n,
                n == keys.len(),
                forall|k: int| 0 <= k < sorted.len() ==> #[trigger] sorted[k] < i,
                forall|k: int| 0 <= k < p ==> precedes(keys@, #[trigger] sorted[k] as int, i as int),
            ensures
                p <= sorted.len(),
                forall|k: int| 0 <= k < p ==> precedes(keys@, #[trigger] sorted[k] as int, i as int),
                p < sorted.len() ==> keys@[i as int] > keys@[sorted[p as int] as int],
            decreases sorted.len() - p,
        {
            if p == sorted.len() {
                break;
            }
            let q: usize = sorted[p];
            if keys[i] > keys[q] {
                break;
            }
            p = p + 1;
        }
        let ghost old_sorted = sorted@;
        sorted.insert(p, i);
        proof {
            assert forall|x: usize| x < i + 1 implies #[trigger] sorted@.contains(x) by {
                if x == i {
                    assert(sorted@[p as int] == i);
                } else {
                    assert(old_sorted.contains(x));
                    let k = choose|k: int| 0 <= k < old_sorted.len() && old_sorted[k] == x;
                    if k < p {
                        assert(sorted@[k] == x);
                    } else {
                        assert(sorted@[k + 1] == x);
                    }
                }
            }
            assert forall|a: int, b: int| 0 <= a < b < sorted.len() implies precedes(
                keys@,
                #[trigger] sorted[a] as int,
                #[trigger] sorted[b] as int,
            ) by {
                if b < p {
                    assert(sorted[a] == old_sorted[a] && sorted[b] == old_sorted[b]);
                } else if b == p {
                    assert(sorted[a] == old_sorted[a]);
                } else if a < p {
                    assert(sorted[a] == old_sorted[a] && sorted[b] == old_sorted[b - 1]);
                } else if a == p {
                    assert(sorted[b] == old_sorted[b - 1]);
                    if b - 1 > p {
                        assert(precedes(keys@, old_sorted[p as int] as int, old_sorted[b - 1] as int));
                    }
                } else {
                    assert(sorted[a] == old_sorted[a - 1] && sorted[b] == old_sorted[b - 1]);
                }
            }
        }
        i = i + 1;
    }
    let ghost full = sorted@;
    sorted.truncate(limit);
    proof {
        assert forall|x: usize, j: int|
            x < keys.len() && !#[trigger] sorted@.contains(x) && 0 <= j < sorted.len()
                implies precedes(keys@, #[trigger] sorted@[j] as int, x as int) by {
            assert(full.contains(x));
            let k = choose|k: int| 0 <= k < full.len() && full[k] == x;
            if k < sorted.len() {
                assert(sorted@[k] == x);
            }
            assert(sorted@[j] == full[j]);
        }
        if limit >= n {
            assert(sorted@ =~= full);
        }
        assert(ranked(keys@, sorted@, limit as nat));
        lemma_ranked_unique(keys@, sorted@, ranking(keys@, limit as nat), limit as nat);
    }
    sorted
}

proof fn lemma_insert_position(keys: Seq<u64>, s: Seq<usize>, x: usize, p: int) -> (q: int)
    requires
        0 <= p <= s.len(),
        x < keys.len(),
        forall|k: int| 0 <= k < s.len() ==> #[trigger] s[k] < x,
        forall|k: int| 0 <= k < p ==> precedes(keys, #[trigger] s[k] as int, x as int),
    ensures
        p <= q <= s.len(),
        forall|k: int| 0 <= k < q ==> precedes(keys, #[trigger] s[k] as int, x as int),
        q < s.len() ==> keys[x as int] > keys[s[q] as int],
    decreases s.len() - p,
{
    if p == s.len() || keys[x as int] > keys[s[p] as int] {
        p
    } else {
        assert(s[p] < x);
        lemma_insert_position(keys, s, x, p + 1)
    }
}

/// All indices below `n`, best-ranked first.
proof fn lemma_sorted_indices(keys: Seq<u64>, n: nat) -> (s: Seq<usize>)
    requires
        n <= keys.len(),
        keys.len() <= usize::MAX,
    ensures
        s.len() == n,
        forall|k: int| 0 <= k < s.len() ==> #[trigger] s[k] < n,
        forall|x: usize| x < n ==> #[trigger] s.contains(x),
        forall|a: int, b: int|
            0 <= a < b < s.len() ==> precedes(keys, #[trigger] s[a] as int, #[trigger] s[b] as int),
    decreases n,
{
    if n == 0 {
        Seq::empty()
    } else {
        let prev = lemma_sorted_indices(keys, (n - 1) as nat);
        let x = (n - 1) as usize;
        let p = lemma_insert_position(keys, prev, x, 0);
        let s = prev.insert(p, x);
        assert forall|k: int| 0 <= k < s.len() implies #[trigger] s[k] < n by {
            if k < p {
                assert(s[k] == prev[k]);
            } else if k > p {
                assert(s[k] == prev[k - 1]);
            }
        }
        assert forall|y: usize| y < n implies #[trigger] s.contains(y) by {
            if y == x {
                assert(s[p] == x);
            } else {
                assert(prev.contains(y));
                let k = choose|k: int| 0 <= k < prev.len() && prev[k] == y;
                if k < p {
                    assert(s[k] == y);
                } else {
                    assert(s[k + 1] == y);
                }
            }
        }
        assert forall|a: int, b: int| 0 <= a < b < s.len() implies precedes(
            keys,
            #[trigger] s[a] as int,
            #[trigger] s[b] as int,
        ) by {
            if b < p {
                assert(s[a] == prev[a] && s[b] == prev[b]);
            } else if b == p {
                assert(s[a] == prev[a]);
            } else if a < p {
                assert(s[a] == prev[a] && s[b] == prev[b - 1]);
            } else if a == p {
                assert(s[b] == prev[b - 1]);
                if b - 1 > p {
                    assert(precedes(keys, prev[p] as int, prev[b - 1] as int));
                }
            } else {
                assert(s[a] == prev[a - 1] && s[b] == prev[b - 1]);
            }
        }
        s
    }
}

/// Every sequence of keys that a `Vec` can hold has a ranking to any limit, and
/// ranking to a limit that covers all entries lists every entry.
pub proof fn lemma_ranking_exists(keys: Seq<u64>, limit: nat)
    requires
        keys.len() <= usize::MAX,
    ensures
        ranked(keys, ranking(keys, limit), limit),
        limit >= keys.len() ==> forall|x: usize| x < keys.len() ==> #[trigger] ranking(keys, limit).contains(x),
{
    let full = lemma_sorted_indices(keys, keys.len());
    let r = full.take(min_nat(limit, keys.len()) as int);
    assert forall|x: usize, j: int|
        x < keys.len() && !#[trigger] r.contains(x) && 0 <= j < r.len()
            implies precedes(keys, #[trigger] r[j] as int, x as int) by {
        assert(full.contains(x));
        let k = choose|k: int| 0 <= k < full.len() && full[k] == x;
        if k < r.len() {
            assert(r[k] == x);
        }
        assert(r[j] == full[j]);
    }
    assert forall|i: int, j: int| 0 <= i < j < r.len() implies precedes(
        keys,
        #[trigger] r[i] as int,
        #[trigger] r[j] as int,
    ) by {
        assert(r[i] == full[i] && r[j] == full[j]);
    }
    assert(ranked(keys, r, limit));
    lemma_ranked_unique(keys, r, ranking(keys, limit), limit);
    if limit >= keys.len() {
        assert(r =~= full);
    }
}

/// A ranking runs from the largest key down, and entries with equal keys keep the
/// order in which they were given.
pub proof fn lemma_ranked_descending(keys: Seq<u64>, order: Seq<usize>, limit: nat)
    requires
        ranked(keys, order, limit),
    ensures
        forall|i: int, j: int|
            0 <= i < j < order.len() ==> keys[#[trigger] order[i] as int] >= keys[#[trigger] order[j] as int],
        forall|i: int, j: int|
            0 <= i < j < order.len() && keys[order[i] as int] == keys[order[j] as int]
                ==> #[trigger] order[i] < #[trigger] order[j],
{
    assert forall|i: int, j: int| 0 <= i < j < order.len() implies keys[#[trigger] order[i] as int]
        >= keys[#[trigger] order[j] as int] by {
        assert(precedes(keys, order[i] as int, order[j] as int));
    }
    assert forall|i: int, j: int|
        0 <= i < j < order.len() && keys[order[i] as int] == keys[order[j] as int]
            implies #[trigger] order[i] < #[trigger] order[j] by {
        assert(precedes(keys, order[i] as int, order[j] as int));
    }
}

proof fn lemma_ranked_prefix(keys: Seq<u64>, r1: Seq<usize>, r2: Seq<usize>, limit: nat, m: int)
    requires
        ranked(keys, r1, limit),
        ranked(keys, r2, limit),
        0 <= m <= r1.len(),
    ensures
        forall|k: int| 0 <= k < m ==> r1[k] == r2[k],
    decreases m,
{
    if m > 0 {
        lemma_ranked_prefix(keys, r1, r2, limit, m - 1);
        let k: int = m - 1;
        let a: usize = r1[k];
        let b: usize = r2[k];
        if a != b {
            // `b` cannot stand in `r1` before position k, where `r1` and `r2` agree.
            if r1.contains(b) {
                let j = choose|j: int| 0 <= j < r1.len() && r1[j] == b;
                if j < k {
                    assert(r2[j] == b);
                    assert(precedes(keys, r2[j] as int, r2[k] as int));
                }
                assert(precedes(keys, r1[k] as int, r1[j] as int));
            } else {
                assert(precedes(keys, r1[k] as int, b as int));
            }
            if r2.contains(a) {
                let j = choose|j: int| 0 <= j < r2.len() && r2[j] == a;
                if j < k {
                    assert(r1[j] == a);
                    assert(precedes(keys, r1[j] as int, r1[k] as int));
                }
                assert(precedes(keys, r2[k] as int, r2[j] as int));
            } else {
                assert(precedes(keys, r2[k] as int, a as int));
            }
        }
    }
}

/// The ranking is determined by the keys and the limit: two rankings of the same keys
/// to the same limit are equal.
pub proof fn lemma_ranked_unique(keys: Seq<u64>, r1: Seq<usize>, r2: Seq<usize>, limit: nat)
    requires
        ranked(keys, r1, limit),
        ranked(keys, r2, limit),
    ensures
        r1 == r2,
{
    lemma_ranked_prefix(keys, r1, r2, limit, r1.len() as int);
    assert(r1 =~= r2);
}

} // verus!
