use vstd::prelude::*;

verus! {

/// Item `i` comes before item `j` when ordering the items by `keys`,
/// ascending (or descending when `desc`), ties broken by position: the order
/// that a stable sort produces.
pub open spec fn comes_before(keys: Seq<u64>, desc: bool, i: usize, j: usize) -> bool {
    if desc {
        keys[i as int] > keys[j as int] || (keys[i as int] == keys[j as int] && i < j)
    } else {
        keys[i as int] < keys[j as int] || (keys[i as int] == keys[j as int] && i < j)
    }
}

/// `order` lists each position `0..n` exactly once.
pub open spec fn is_permutation(order: Seq<usize>, n: nat) -> bool {
    &&& order.len() == n
    &&& forall|a: int| 0 <= a < order.len() ==> #[trigger] order[a] < n
    &&& forall|a: int, b: int| 0 <= a < b < order.len() ==> order[a] != order[b]
}

/// `order` is the permutation of `0..keys.len()` that a stable sort by `keys` yields.
pub open spec fn is_stable_order(keys: Seq<u64>, desc: bool, order: Seq<usize>) -> bool {
    &&& is_permutation(order, keys.len())
    &&& forall|a: int, b: int|
        0 <= a < b < order.len() ==> comes_before(keys, desc, #[trigger] order[a], #[trigger] order[b])
}

/// Whether an item with key `ka`, placed earlier, stays ahead of a later
/// item with key `ki`.
fn stays_ahead(desc: bool, ka: u64, ki: u64) -> (r: bool)
    ensures
        r == (if desc { ka >= ki } else { ka <= ki }),
{
    if desc {
        ka >= ki
    } else {
        ka <= ki
    }
}

/// The positions of `keys` in the order a stable sort by key (ascending, or
/// descending when `desc`) puts them.
pub fn stable_order(keys: &Vec<u64>, desc: bool) -> (order: Vec<usize>)
    ensures
        is_stable_order(keys@, desc, order@),
{
    let n = keys.len();
    let mut order: Vec<usize> = Vec::new();
    let mut i: usize = 0;
    while i < n
        invariant
            n == keys.len(),
            i <= n,
            order.len() == i,
            forall|a: int| 0 <= a < order.len() ==> #[trigger] order@[a] < i,
            forall|a: int, b: int| 0 <= a < b < order.len() ==> order@[a] != order@[b],
            forall|a: int, b: int|
                0 <= a < b < order.len() ==> comes_before(keys@, desc, #[trigger] order@[a], #[trigger] order@[b]),
        decreases n - i,
    {
        let ki = keys[i];
        // Find the first position whose item must come after item i.
        let mut p: usize = 0;
        while p < order.len() && stays_ahead(desc, keys[order[p]], ki)
            invariant
                n == keys.len(),
                i < n,
                ki == keys@[i as int],
                order.len() == i,
                p <= order.len(),
                forall|a: int| 0 <= a < order.len() ==> #[trigger] order@[a] < i,
                forall|a: int| 0 <= a < p ==> comes_before(keys@, desc, #[trigger] order@[a], i),
            decreases order.len() - p,
        {
            p = p + 1;
        }
        proof {
            if p < order.len() {
                assert(comes_before(keys@, desc, i, order@[p as int]));
                assert forall|a: int| p <= a < order.len() implies comes_before(keys@, desc, i, #[trigger] order@[a]) by {
                    if a > p {
                        assert(comes_before(keys@, desc, order@[p as int], order@[a]));
                    }
                }
            }
        }
        let ghost old_order = order@;
        order.insert(p, i);
        proof {
            assert forall|a: int, b: int| 0 <= a < b < order.len() implies
                comes_before(keys@, desc, #[trigger] order@[a], #[trigger] order@[b]) by {
                if a < p && b == p {
                } else if a < p && b > p {
                    assert(order@[b] == old_order[b - 1]);
                } else if a == p {
                    assert(order@[b] == old_order[b - 1]);
                } else if a > p {
                    assert(order@[a] == old_order[a - 1]);
                    assert(order@[b] == old_order[b - 1]);
                }
            }
            assert forall|a: int, b: int| 0 <= a < b < order.len() implies order@[a] != order@[b] by {
                if a < p && b > p {
                    assert(order@[b] == old_order[b - 1]);
                } else if a > p {
                    assert(order@[a] == old_order[a - 1]);
                    assert(order@[b] == old_order[b - 1]);
                } else if a == p {
                    assert(order@[b] == old_order[b - 1]);
                }
            }
            assert forall|a: int| 0 <= a < order.len() implies #[trigger] order@[a] < i + 1 by {
                if a > p {
                    assert(order@[a] == old_order[a - 1]);
                }
            }
        }
        i = i + 1;
    }
    order
}

/// `overlaps` is an `n` by `n` table.
pub open spec fn is_square(overlaps: Seq<Vec<bool>>, n: nat) -> bool {
    &&& overlaps.len() == n
    &&& forall|i: int| 0 <= i < n ==> #[trigger] overlaps[i]@.len() == n
}

/// Greedy suppression over the items listed in `order`: the item at position
/// `p` survives exactly when no earlier survivor overlaps it.
pub open spec fn survivors(order: Seq<usize>, overlaps: Seq<Vec<bool>>) -> Seq<bool>
    decreases order.len(),
{
    if order.len() == 0 {
        Seq::empty()
    } else {
        let prev = survivors(order.drop_last(), overlaps);
        let j = order.last();
        prev.push(
            forall|k: int| 0 <= k < prev.len() && #[trigger] prev[k] ==> !overlaps[order[k] as int]@[j as int],
        )
    }
}

/// The items of `order` whose survival flag is set, in order.
pub open spec fn kept_items(order: Seq<usize>, flags: Seq<bool>) -> Seq<usize>
    decreases order.len(),
{
    if order.len() == 0 || flags.len() != order.len() {
        Seq::empty()
    } else {
        let rest = kept_items(order.drop_last(), flags.drop_last());
        if flags.last() {
            rest.push(order.last())
        } else {
            rest
        }
    }
}

/// What non-maximum suppression keeps: detections ranked by descending
/// confidence key (ties by position), then greedily suppressed.
pub open spec fn nms_result(confidence_keys: Seq<u64>, overlaps: Seq<Vec<bool>>, kept: Seq<usize>) -> bool {
    exists|order: Seq<usize>|
        is_stable_order(confidence_keys, true, order)
        && kept == #[trigger] kept_items(order, survivors(order, overlaps))
}

proof fn lemma_survivors_len(order: Seq<usize>, overlaps: Seq<Vec<bool>>)
    ensures
        survivors(order, overlaps).len() == order.len(),
    decreases order.len(),
{
    if order.len() > 0 {
        lemma_survivors_len(order.drop_last(), overlaps);
    }
}

proof fn lemma_survivors_prefix(order: Seq<usize>, overlaps: Seq<Vec<bool>>, m: int)
    requires
        0 <= m <= order.len(),
    ensures
        survivors(order.take(m), overlaps) == survivors(order, overlaps).take(m),
    decreases order.len(),
{
    lemma_survivors_len(order, overlaps);
    lemma_survivors_len(order.take(m), overlaps);
    if m < order.len() {
        lemma_survivors_prefix(order.drop_last(), overlaps, m);
        assert(order.drop_last().take(m) =~= order.take(m));
        assert(survivors(order, overlaps).drop_last() == survivors(order.drop_last(), overlaps));
        assert(survivors(order, overlaps).take(m) =~= survivors(order, overlaps).drop_last().take(m));
    } else {
        assert(order.take(m) =~= order);
        assert(survivors(order, overlaps).take(m) =~= survivors(order, overlaps));
    }
}

/// Non-maximum suppression: rank the detections by descending confidence key
/// (`confidence_keys`, stable for equal keys), then walk them in that order,
/// dropping each one that overlaps (per `overlaps[i][j]`) a detection already
/// kept. Returns the kept detections' indices, highest confidence first.
pub fn nms(confidence_keys: &Vec<u64>, overlaps: &Vec<Vec<bool>>) -> (kept: Vec<usize>)
    requires
        is_square(overlaps@, confidence_keys@.len()),
    ensures
        nms_result(confidence_keys@, overlaps@, kept@),
{
    let order = stable_order(confidence_keys, true);
    let n = order.len();
    let mut keep: Vec<bool> = Vec::new();
    let mut j: usize = 0;
    // keep[p] is the survival flag of order[p]; decide them front to back.
    while j < n
        invariant
            n == order.len(),
            n == confidence_keys.len(),
            is_stable_order(confidence_keys@, true, order@),
            is_square(overlaps@, confidence_keys@.len()),
            j <= n,
            keep@ == survivors(order@.take(j as int), overlaps@),
        decreases n - j,
    {
        proof {
            lemma_survivors_len(order@.take(j as int), overlaps@);
        }
        let mut survives = true;
        let mut k: usize = 0;
        while k < j
            invariant
                n == order.len(),
                is_stable_order(confidence_keys@, true, order@),
                is_square(overlaps@, confidence_keys@.len()),
                j < n,
                k <= j,
                keep.len() == j,
                survives == (forall|q: int| 0 <= q < k && #[trigger] keep@[q] ==> !overlaps@[order@[q] as int]@[order@[j as int] as int]),
            decreases j - k,
        {
            if keep[k] && overlaps[order[k]][order[j]] {
                survives = false;
            }
            k = k + 1;
        }
        let ghost prev = keep@;
        keep.push(survives);
        proof {
            let t = order@.take(j + 1);
            assert(t.drop_last() =~= order@.take(j as int));
            assert(t.last() == order@[j as int]);
            assert forall|q: int| 0 <= q < j implies t[q] == order@[q] by {}
            assert(keep@ == survivors(t, overlaps@));
        }
        j = j + 1;
    }
    proof {
        assert(order@.take(n as int) =~= order@);
        lemma_survivors_len(order@, overlaps@);
    }
    // Collect the survivors, in rank order.
    let mut kept: Vec<usize> = Vec::new();
    let mut p: usize = 0;
    while p < n
        invariant
            n == order.len(),
            keep.len() == n,
            p <= n,
            kept@ == kept_items(order@.take(p as int), keep@.take(p as int)),
        decreases n - p,
    {
        let ghost before = kept@;
        if keep[p] {
            kept.push(order[p]);
        }
        proof {
            let t = order@.take(p + 1);
            let f = keep@.take(p + 1);
            assert(t.drop_last() =~= order@.take(p as int));
            assert(f.drop_last() =~= keep@.take(p as int));
        }
        p = p + 1;
    }
    proof {
        assert(order@.take(n as int) =~= order@);
        assert(keep@.take(n as int) =~= keep@);
        assert(kept@ == kept_items(order@, survivors(order@, overlaps@)));
    }
    kept
}

proof fn lemma_usize_range(n: nat)
    ensures
        Set::new(|v: usize| v < n).finite(),
        Set::new(|v: usize| v < n).len() == if n <= usize::MAX + 1 { n } else { (usize::MAX + 1) as nat },
    decreases n,
{
    if n == 0 {
        assert(Set::new(|v: usize| v < n) =~= Set::empty());
    } else {
        lemma_usize_range((n - 1) as nat);
        if n <= usize::MAX + 1 {
            assert(Set::new(|v: usize| v < (n - 1) as nat).insert((n - 1) as usize) =~= Set::new(|v: usize| v < n));
        } else {
            assert(Set::new(|v: usize| v < (n - 1) as nat) =~= Set::new(|v: usize| v < n));
        }
    }
}

/// Every position `0..n` occurs in a permutation of `0..n`.
proof fn lemma_permutation_covers(order: Seq<usize>, n: nat, v: usize)
    requires
        is_permutation(order, n),
        v < n,
    ensures
        exists|a: int| 0 <= a < order.len() && order[a] == v,
{
    assert(order.no_duplicates());
    order.unique_seq_to_set();
    let s = order.to_set();
    let r = Set::new(|x: usize| x < n);
    lemma_usize_range(n);
    assert(n <= usize::MAX + 1) by {
        vstd::set_lib::lemma_len_subset(s, Set::new(|x: usize| true).intersect(r));
        if n > usize::MAX + 1 {
            assert(r =~= Set::new(|x: usize| true).intersect(r));
        }
    }
    assert(s.subset_of(r));
    vstd::set_lib::lemma_subset_equality(s, r);
    assert(r.contains(v));
}

/// `x` is a flagged item of `order`, at some position.
pub open spec fn flagged_at(order: Seq<usize>, flags: Seq<bool>, x: usize) -> bool {
    exists|k: int| 0 <= k < order.len() && flags[k] && order[k] == x
}

/// `x` and `y` are flagged items of `order`, `x` strictly earlier.
pub open spec fn flagged_in_order(order: Seq<usize>, flags: Seq<bool>, x: usize, y: usize) -> bool {
    exists|k1: int, k2: int| 0 <= k1 < k2 < order.len() && flags[k1] && flags[k2] && order[k1] == x && order[k2] == y
}

/// Each item of `kept_items(order, flags)` is some flagged item of `order`,
/// taken in order, and every flagged item is kept.
proof fn lemma_kept_items_origin(order: Seq<usize>, flags: Seq<bool>)
    requires
        flags.len() == order.len(),
    ensures
        forall|a: int| 0 <= a < kept_items(order, flags).len() ==>
            flagged_at(order, flags, #[trigger] kept_items(order, flags)[a]),
        forall|a: int, b: int| 0 <= a < b < kept_items(order, flags).len() ==>
            flagged_in_order(order, flags, #[trigger] kept_items(order, flags)[a], #[trigger] kept_items(order, flags)[b]),
        forall|k: int| 0 <= k < order.len() && #[trigger] flags[k] ==> kept_items(order, flags).contains(order[k]),
    decreases order.len(),
{
    if order.len() > 0 {
        let o2 = order.drop_last();
        let f2 = flags.drop_last();
        lemma_kept_items_origin(o2, f2);
        let rest = kept_items(o2, f2);
        let kept = kept_items(order, flags);
        assert forall|a: int| 0 <= a < kept.len() implies flagged_at(order, flags, #[trigger] kept[a]) by {
            if a < rest.len() {
                assert(kept[a] == rest[a]);
                assert(flagged_at(o2, f2, rest[a]));
                let k = choose|k: int| 0 <= k < o2.len() && f2[k] && o2[k] == rest[a];
                assert(flags[k] && order[k] == kept[a]);
            } else {
                assert(flags[order.len() - 1] && order[order.len() - 1] == kept[a]);
            }
        }
        assert forall|a: int, b: int| 0 <= a < b < kept.len() implies
            flagged_in_order(order, flags, #[trigger] kept[a], #[trigger] kept[b]) by {
            if b < rest.len() {
                assert(kept[a] == rest[a] && kept[b] == rest[b]);
                assert(flagged_in_order(o2, f2, rest[a], rest[b]));
                let (k1, k2) = choose|k1: int, k2: int| 0 <= k1 < k2 < o2.len() && f2[k1] && f2[k2]
                    && o2[k1] == rest[a] && o2[k2] == rest[b];
                assert(flags[k1] && flags[k2] && order[k1] == kept[a] && order[k2] == kept[b]);
            } else {
                assert(kept[a] == rest[a]);
                assert(flagged_at(o2, f2, rest[a]));
                let k1 = choose|k: int| 0 <= k < o2.len() && f2[k] && o2[k] == rest[a];
                let k2 = order.len() - 1;
                assert(flags[k1] && flags[k2] && order[k1] == kept[a] && order[k2] == kept[b]);
            }
        }
        assert forall|k: int| 0 <= k < order.len() && #[trigger] flags[k] implies kept.contains(order[k]) by {
            if k < order.len() - 1 {
                assert(f2[k]);
                assert(rest.contains(o2[k]));
                let a = choose|a: int| 0 <= a < rest.len() && rest[a] == o2[k];
                assert(kept[a] == rest[a]);
            } else {
                assert(kept[kept.len() - 1] == order[k]);
            }
        }
    }
}

/// Survival at position `p` depends only on the earlier survivors.
proof fn lemma_survivor_at(order: Seq<usize>, overlaps: Seq<Vec<bool>>, p: int)
    requires
        0 <= p < order.len(),
    ensures
        survivors(order, overlaps).len() == order.len(),
        survivors(order, overlaps)[p] == (forall|k: int| 0 <= k < p && #[trigger] survivors(order, overlaps)[k]
            ==> !overlaps[order[k] as int]@[order[p] as int]),
{
    lemma_survivors_len(order, overlaps);
    lemma_survivors_prefix(order, overlaps, p + 1);
    lemma_survivors_prefix(order, overlaps, p);
    let t = order.take(p + 1);
    assert(t.drop_last() =~= order.take(p));
    lemma_survivors_len(t, overlaps);
    let full = survivors(order, overlaps);
    let prev = survivors(order.take(p), overlaps);
    assert(survivors(t, overlaps) == full.take(p + 1));
    assert(prev == full.take(p));
    assert forall|k: int| 0 <= k < p implies prev[k] == full[k] && t[k] == order[k] by {}
    assert(full[p] == survivors(t, overlaps).last());
}

/// Non-maximum suppression keeps no two overlapping detections: of any two
/// kept detections, the lower-ranked one does not overlap the higher-ranked one.
pub proof fn law_nms_kept_do_not_overlap(confidence_keys: Seq<u64>, overlaps: Seq<Vec<bool>>, kept: Seq<usize>)
    requires
        is_square(overlaps, confidence_keys.len()),
        nms_result(confidence_keys, overlaps, kept),
    ensures
        forall|a: int, b: int| 0 <= a < b < kept.len() ==>
            !overlaps[kept[a] as int]@[#[trigger] kept[b] as int] && #[trigger] kept[a] != kept[b],
{
    let order = choose|order: Seq<usize>|
        is_stable_order(confidence_keys, true, order) && kept == #[trigger] kept_items(order, survivors(order, overlaps));
    let flags = survivors(order, overlaps);
    lemma_survivors_len(order, overlaps);
    lemma_kept_items_origin(order, flags);
    assert forall|a: int, b: int| 0 <= a < b < kept.len() implies
        !overlaps[kept[a] as int]@[#[trigger] kept[b] as int] && #[trigger] kept[a] != kept[b] by {
        assert(flagged_in_order(order, flags, kept[a], kept[b]));
        let (k1, k2) = choose|k1: int, k2: int| 0 <= k1 < k2 < order.len() && flags[k1] && flags[k2]
            && order[k1] == kept[a] && order[k2] == kept[b];
        lemma_survivor_at(order, overlaps, k2);
    }
}

/// Non-maximum suppression lists what it keeps from highest to lowest
/// confidence (ties in input order).
pub proof fn law_nms_kept_by_confidence(confidence_keys: Seq<u64>, overlaps: Seq<Vec<bool>>, kept: Seq<usize>)
    requires
        is_square(overlaps, confidence_keys.len()),
        nms_result(confidence_keys, overlaps, kept),
    ensures
        forall|a: int, b: int| 0 <= a < b < kept.len() ==>
            comes_before(confidence_keys, true, #[trigger] kept[a], #[trigger] kept[b]),
{
    let order = choose|order: Seq<usize>|
        is_stable_order(confidence_keys, true, order) && kept == #[trigger] kept_items(order, survivors(order, overlaps));
    let flags = survivors(order, overlaps);
    lemma_survivors_len(order, overlaps);
    lemma_kept_items_origin(order, flags);
    assert forall|a: int, b: int| 0 <= a < b < kept.len() implies
        comes_before(confidence_keys, true, #[trigger] kept[a], #[trigger] kept[b]) by {
        assert(flagged_in_order(order, flags, kept[a], kept[b]));
        let (k1, k2) = choose|k1: int, k2: int| 0 <= k1 < k2 < order.len() && flags[k1] && flags[k2]
            && order[k1] == kept[a] && order[k2] == kept[b];
        assert(comes_before(confidence_keys, true, order[k1], order[k2]));
    }
}

/// Every detection that non-maximum suppression drops overlaps a kept
/// detection of higher rank; and when there is any detection, the one with
/// the highest confidence is kept, first.
pub proof fn law_nms_dropped_overlap_a_kept_one(confidence_keys: Seq<u64>, overlaps: Seq<Vec<bool>>, kept: Seq<usize>)
    requires
        is_square(overlaps, confidence_keys.len()),
        nms_result(confidence_keys, overlaps, kept),
    ensures
        forall|i: usize| i < confidence_keys.len() && !(#[trigger] kept.contains(i)) ==>
            exists|a: int| 0 <= a < kept.len() && comes_before(confidence_keys, true, kept[a], i)
                && overlaps[kept[a] as int]@[i as int],
        confidence_keys.len() > 0 ==> kept.len() > 0 && forall|i: usize| i < confidence_keys.len() && i != kept[0]
            ==> comes_before(confidence_keys, true, kept[0], i),
{
    let order = choose|order: Seq<usize>|
        is_stable_order(confidence_keys, true, order) && kept == #[trigger] kept_items(order, survivors(order, overlaps));
    let flags = survivors(order, overlaps);
    let n = confidence_keys.len();
    lemma_survivors_len(order, overlaps);
    lemma_kept_items_origin(order, flags);
    assert forall|i: usize| i < n && !(#[trigger] kept.contains(i)) implies
        exists|a: int| 0 <= a < kept.len() && comes_before(confidence_keys, true, kept[a], i)
            && overlaps[kept[a] as int]@[i as int] by {
        lemma_permutation_covers(order, n, i);
        let p = choose|p: int| 0 <= p < order.len() && order[p] == i;
        lemma_survivor_at(order, overlaps, p);
        if flags[p] {
            assert(kept.contains(order[p]));
        }
        let k = choose|k: int| 0 <= k < p && #[trigger] flags[k] && overlaps[order[k] as int]@[order[p] as int];
        assert(kept.contains(order[k]));
        let a = choose|a: int| 0 <= a < kept.len() && kept[a] == order[k];
        assert(comes_before(confidence_keys, true, order[k], order[p]));
    }
    if n > 0 {
        lemma_survivor_at(order, overlaps, 0);
        assert(flags[0]);
        assert(kept.contains(order[0]));
        let a0 = choose|a: int| 0 <= a < kept.len() && kept[a] == order[0];
        if a0 > 0 {
            assert(flagged_in_order(order, flags, kept[0], kept[a0]));
            let (k1, k2) = choose|k1: int, k2: int| 0 <= k1 < k2 < order.len() && flags[k1] && flags[k2]
                && order[k1] == kept[0] && order[k2] == kept[a0];
            assert(order[k2] == order[0]);
        }
        assert forall|i: usize| i < n && i != kept[0] implies comes_before(confidence_keys, true, kept[0], i) by {
            lemma_permutation_covers(order, n, i);
            let p = choose|p: int| 0 <= p < order.len() && order[p] == i;
            assert(p != 0);
        }
    }
}

/// Two stable orders of the same keys are the same order: a stable sort's
/// result is determined by the keys alone.
pub proof fn law_stable_order_unique(keys: Seq<u64>, desc: bool, o1: Seq<usize>, o2: Seq<usize>)
    requires
        is_stable_order(keys, desc, o1),
        is_stable_order(keys, desc, o2),
    ensures
        o1 == o2,
{
    lemma_stable_order_agree_upto(keys, desc, o1, o2, keys.len() as int);
    assert(o1 =~= o2);
}

proof fn lemma_stable_order_agree_upto(keys: Seq<u64>, desc: bool, o1: Seq<usize>, o2: Seq<usize>, m: int)
    requires
        is_stable_order(keys, desc, o1),
        is_stable_order(keys, desc, o2),
        0 <= m <= keys.len(),
    ensures
        forall|a: int| 0 <= a < m ==> o1[a] == o2[a],
    decreases m,
{
    if m > 0 {
        lemma_stable_order_agree_upto(keys, desc, o1, o2, m - 1);
        let a = m - 1;
        let x = o1[a];
        let y = o2[a];
        if x != y {
            lemma_permutation_covers(o1, keys.len(), y);
            lemma_permutation_covers(o2, keys.len(), x);
            let c = choose|c: int| 0 <= c < o1.len() && o1[c] == y;
            let d = choose|d: int| 0 <= d < o2.len() && o2[d] == x;
            if c < a {
                assert(o2[c] == o1[c]);
            }
            if d < a {
                assert(o1[d] == o2[d]);
            }
            assert(comes_before(keys, desc, o1[a], o1[c]));
            assert(comes_before(keys, desc, o2[a], o2[d]));
        }
    }
}

/// Order detections by their Z-order codes, ascending; equal codes keep their
/// current order. Returns positions into `codes`.
pub fn sort_by_spatial_locality(codes: &Vec<u64>) -> (order: Vec<usize>)
    ensures
        is_stable_order(codes@, false, order@),
{
    stable_order(codes, false)
}

/// A detection numbered as a block: block `id` is the detection at position
/// `detection` of the detector's output.
#[derive(Clone, Copy, Debug, PartialEq, Eq)]
pub struct NumberedBlock {
    pub id: u32,
    pub detection: usize,
}

/// How many detections a limit of `m` keeps out of `n`.
pub open spec fn limit_of(m: u32, n: nat) -> int {
    if m < n { m as int } else { n as int }
}

/// The detections that are numbered: all of them in their given order, or,
/// with a limit `m`, the `m` most confident ones (ties by position), most
/// confident first.
pub open spec fn is_candidates(confidence_keys: Seq<u64>, max_blocks: Option<u32>, cands: Seq<usize>) -> bool {
    match max_blocks {
        None => cands == Seq::new(confidence_keys.len(), |i: int| i as usize),
        Some(m) => exists|o: Seq<usize>| #![trigger is_stable_order(confidence_keys, true, o)]
            is_stable_order(confidence_keys, true, o)
            && cands == o.take(limit_of(m, confidence_keys.len())),
    }
}

/// The codes of the listed detections, in list order.
pub open spec fn codes_of(codes: Seq<u64>, cands: Seq<usize>) -> Seq<u64> {
    Seq::new(cands.len(), |k: int| codes[cands[k] as int])
}

/// `blocks` numbers the candidates `1, 2, ...` in Z-order of their codes
/// (ties in candidate order).
pub open spec fn is_block_numbering(
    confidence_keys: Seq<u64>,
    codes: Seq<u64>,
    max_blocks: Option<u32>,
    blocks: Seq<NumberedBlock>,
) -> bool {
    exists|cands: Seq<usize>, spatial: Seq<usize>|
        #![trigger is_candidates(confidence_keys, max_blocks, cands), is_stable_order(codes_of(codes, cands), false, spatial)]
        is_candidates(confidence_keys, max_blocks, cands)
        && is_stable_order(codes_of(codes, cands), false, spatial)
        && blocks.len() == cands.len()
        && forall|k: int| 0 <= k < blocks.len() ==> (#[trigger] blocks[k]).id == k + 1
            && blocks[k].detection == cands[spatial[k] as int]
}

/// Number detections as blocks: optionally keep only the `max_blocks` most
/// confident, then give ids `1, 2, ...` in Z-order of the detections' Morton
/// codes, so that spatially close detections get adjacent ids.
pub fn number_blocks(confidence_keys: &Vec<u64>, codes: &Vec<u64>, max_blocks: Option<u32>) -> (blocks: Vec<NumberedBlock>)
    requires
        codes.len() == confidence_keys.len(),
        codes.len() < u32::MAX,
    ensures
        is_block_numbering(confidence_keys@, codes@, max_blocks, blocks@),
{
    let n = codes.len();
    let mut cands: Vec<usize> = Vec::new();
    match max_blocks {
        None => {
            let mut i: usize = 0;
            while i < n
                invariant
                    i <= n,
                    cands@ == Seq::new(i as nat, |k: int| k as usize),
                decreases n - i,
            {
                cands.push(i);
                i = i + 1;
            }
            assert(cands@ =~= Seq::new(confidence_keys@.len(), |k: int| k as usize));
            assert(is_candidates(confidence_keys@, max_blocks, cands@));
        }
        Some(m) => {
            let o = stable_order(confidence_keys, true);
            let limit: usize = if (m as usize) < n { m as usize } else { n };
            let mut i: usize = 0;
            while i < limit
                invariant
                    limit <= n,
                    o.len() == n,
                    i <= limit,
                    cands@ == o@.take(i as int),
                decreases limit - i,
            {
                cands.push(o[i]);
                assert(o@.take(i + 1) =~= o@.take(i as int).push(o@[i as int]));
                i = i + 1;
            }
            assert(is_candidates(confidence_keys@, max_blocks, cands@)) by {
                assert(cands@ == o@.take(limit_of(m, confidence_keys@.len())));
            }
        }
    }
    assert(forall|k: int| 0 <= k < cands.len() ==> cands@[k] < n) by {
        match max_blocks {
            None => {}
            Some(m) => {
                let o = choose|o: Seq<usize>| #![trigger is_stable_order(confidence_keys@, true, o)]
                    is_stable_order(confidence_keys@, true, o)
                    && cands@ == o.take(limit_of(m, confidence_keys@.len()));
                assert forall|k: int| 0 <= k < cands.len() implies cands@[k] < n by {
                    assert(cands@[k] == o[k]);
                }
            }
        }
    }
    let mut cand_codes: Vec<u64> = Vec::new();
    let mut j: usize = 0;
    while j < cands.len()
        invariant
            n == codes.len(),
            j <= cands.len(),
            forall|k: int| 0 <= k < cands.len() ==> cands@[k] < n,
            cand_codes@ == codes_of(codes@, cands@).take(j as int),
        decreases cands.len() - j,
    {
        cand_codes.push(codes[cands[j]]);
        assert(codes_of(codes@, cands@).take(j + 1) =~= codes_of(codes@, cands@).take(j as int).push(codes@[cands@[j as int] as int]));
        j = j + 1;
    }
    assert(cand_codes@ =~= codes_of(codes@, cands@));
    let spatial = stable_order(&cand_codes, false);
    let mut blocks: Vec<NumberedBlock> = Vec::new();
    let mut k: usize = 0;
    while k < spatial.len()
        invariant
            spatial.len() == cands.len(),
            cands.len() <= n,
            n < u32::MAX,
            is_stable_order(codes_of(codes@, cands@), false, spatial@),
            k <= spatial.len(),
            blocks.len() == k,
            forall|q: int| 0 <= q < k ==> (#[trigger] blocks@[q]).id == q + 1
                && blocks@[q].detection == cands@[spatial@[q] as int],
        decreases spatial.len() - k,
    {
        let d = cands[spatial[k]];
        blocks.push(NumberedBlock { id: (k + 1) as u32, detection: d });
        k = k + 1;
    }
    assert(is_candidates(confidence_keys@, max_blocks, cands@));
    assert(is_stable_order(codes_of(codes@, cands@), false, spatial@));
    blocks
}

} // verus!
