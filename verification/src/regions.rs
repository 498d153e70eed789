use vstd::prelude::*;

verus! {

/// A grid cell, `(x, y)`.
pub type Cell = (usize, usize);

/// Whether a cell lies inside a `w` by `h` grid.
pub open spec fn in_grid(w: nat, h: nat, c: Cell) -> bool {
    c.0 < w && c.1 < h
}

/// Row-major index of a cell.
pub open spec fn cell_index(w: nat, c: Cell) -> int {
    c.1 as int * w as int + c.0 as int
}

/// The cell is set in the row-major bitmap `binary`.
pub open spec fn is_on(binary: Seq<bool>, w: nat, c: Cell) -> bool {
    binary[cell_index(w, c)]
}

/// 4-neighbourhood adjacency.
pub open spec fn adjacent(a: Cell, b: Cell) -> bool {
    (a.0 == b.0 && (a.1 + 1 == b.1 || b.1 + 1 == a.1)) || (a.1 == b.1 && (a.0 + 1 == b.0 || b.0 + 1 == a.0))
}

/// `a` comes before `b` in a row-major scan.
pub open spec fn scan_before(a: Cell, b: Cell) -> bool {
    a.1 < b.1 || (a.1 == b.1 && a.0 < b.0)
}

/// Some cell among the first `upto` of `cells` is adjacent to `c`.
pub open spec fn touches(cells: Seq<Cell>, upto: int, c: Cell) -> bool {
    exists|s: int| 0 <= s < upto && adjacent(cells[s], c)
}

/// `cells` lists one 4-connected component of the set cells of `binary`:
/// set cells in the grid, no repeats, each after the first adjacent to an
/// earlier one, every set neighbour of a listed cell listed too, and the
/// first cell is the component's first cell in row-major order.
pub open spec fn is_component(binary: Seq<bool>, w: nat, h: nat, cells: Seq<Cell>) -> bool {
    &&& cells.len() > 0
    &&& forall|t: int| 0 <= t < cells.len() ==> in_grid(w, h, #[trigger] cells[t]) && is_on(binary, w, cells[t])
    &&& forall|t1: int, t2: int| 0 <= t1 < t2 < cells.len() ==> #[trigger] cells[t1] != #[trigger] cells[t2]
    &&& forall|t: int| 0 < t < cells.len() ==> touches(cells, t, #[trigger] cells[t])
    &&& forall|t: int, c: Cell|
        0 <= t < cells.len() && in_grid(w, h, c) && is_on(binary, w, c) && adjacent(#[trigger] cells[t], c)
            ==> #[trigger] cells.contains(c)
    &&& forall|t: int| 0 < t < cells.len() ==> scan_before(cells[0], #[trigger] cells[t])
}

/// A connected region of set cells with its bounding box.
#[derive(Debug)]
pub struct TextRegion {
    /// The region's cells, in the order the search reached them.
    pub cells: Vec<Cell>,
    pub min_x: usize,
    pub min_y: usize,
    pub max_x: usize,
    pub max_y: usize,
}

/// `min_x..=max_x` by `min_y..=max_y` is the tightest box around `cells`.
pub open spec fn is_bounding_box(cells: Seq<Cell>, min_x: usize, min_y: usize, max_x: usize, max_y: usize) -> bool {
    &&& forall|t: int| 0 <= t < cells.len() ==>
        min_x <= (#[trigger] cells[t]).0 <= max_x && min_y <= cells[t].1 <= max_y
    &&& exists|t: int| 0 <= t < cells.len() && (#[trigger] cells[t]).0 == min_x
    &&& exists|t: int| 0 <= t < cells.len() && (#[trigger] cells[t]).1 == min_y
    &&& exists|t: int| 0 <= t < cells.len() && (#[trigger] cells[t]).0 == max_x
    &&& exists|t: int| 0 <= t < cells.len() && (#[trigger] cells[t]).1 == max_y
}

/// Whether `r` is one connected region of set cells of the map, with its bounding box.
pub open spec fn is_region_of(binary: Seq<bool>, w: nat, h: nat, r: TextRegion) -> bool {
    &&& is_component(binary, w, h, r.cells@)
    &&& is_bounding_box(r.cells@, r.min_x, r.min_y, r.max_x, r.max_y)
}

/// `regions` are the 4-connected components of the set cells of the `w` by
/// `h` bitmap, each once, in row-major order of their first cells.
pub open spec fn is_region_list(binary: Seq<bool>, w: nat, h: nat, regions: Seq<TextRegion>) -> bool {
    &&& forall|r: int| 0 <= r < regions.len() ==> is_region_of(binary, w, h, #[trigger] regions[r])
    &&& forall|r1: int, r2: int| 0 <= r1 < r2 < regions.len() ==>
        scan_before((#[trigger] regions[r1]).cells@[0], (#[trigger] regions[r2]).cells@[0])
    &&& forall|r1: int, r2: int, c: Cell| 0 <= r1 < regions.len() && 0 <= r2 < regions.len()
        && #[trigger] regions[r1].cells@.contains(c) && #[trigger] regions[r2].cells@.contains(c) ==> r1 == r2
    &&& forall|c: Cell| in_grid(w, h, c) && is_on(binary, w, c) ==>
        exists|r: int| 0 <= r < regions.len() && (#[trigger] regions[r]).cells@.contains(c)
}

proof fn lemma_index_bound(w: nat, h: nat, c: Cell)
    requires
        in_grid(w, h, c),
    ensures
        0 <= cell_index(w, c) < w * h,
{
    assert((c.1 as int) * (w as int) + (c.0 as int) < w * h) by (nonlinear_arith)
        requires c.0 < w, c.1 < h;
}

proof fn lemma_index_injective(w: nat, a: Cell, b: Cell)
    requires
        a.0 < w,
        b.0 < w,
        cell_index(w, a) == cell_index(w, b),
    ensures
        a == b,
{
    if a.1 < b.1 {
        assert((a.1 as int) * (w as int) + (a.0 as int) < (b.1 as int) * (w as int) + (b.0 as int)) by (nonlinear_arith)
            requires a.0 < w, a.1 < b.1;
    } else if b.1 < a.1 {
        assert((b.1 as int) * (w as int) + (b.0 as int) < (a.1 as int) * (w as int) + (a.0 as int)) by (nonlinear_arith)
            requires b.0 < w, b.1 < a.1;
    }
}

/// Number of unset entries.
pub open spec fn count_false(s: Seq<bool>) -> nat
    decreases s.len(),
{
    if s.len() == 0 {
        0
    } else {
        count_false(s.drop_last()) + if s.last() { 0nat } else { 1nat }
    }
}

proof fn lemma_count_false_set(s: Seq<bool>, i: int)
    requires
        0 <= i < s.len(),
        !s[i],
    ensures
        count_false(s.update(i, true)) + 1 == count_false(s),
    decreases s.len(),
{
    if i < s.len() - 1 {
        lemma_count_false_set(s.drop_last(), i);
        assert(s.update(i, true).drop_last() =~= s.drop_last().update(i, true));
    } else {
        assert(s.update(i, true).drop_last() =~= s.drop_last());
    }
}

/// The search's bookkeeping, with `regions` finished and a region grown
/// from `seed` under way (`cells` taken, `stack` still to take): `owner`
/// labels each visited cell with its region, and the finished regions are
/// closed under adjacency. Cells of the current region before `closed` have
/// all their set neighbours labelled.
#[verifier::opaque]
spec fn search_inv(
    binary: Seq<bool>,
    w: nat,
    h: nat,
    visited: Seq<bool>,
    owner: Seq<int>,
    regions: Seq<TextRegion>,
    cells: Seq<Cell>,
    stack: Seq<Cell>,
    seed: Cell,
    closed: int,
) -> bool {
    let cur = regions.len() as int;
    &&& binary.len() == w * h
    &&& visited.len() == w * h
    &&& owner.len() == w * h
    &&& in_grid(w, h, seed)
    &&& forall|i: int| 0 <= i < w * h ==> -1 <= #[trigger] owner[i] <= cur && (visited[i] <==> owner[i] >= 0)
    &&& forall|c: Cell| in_grid(w, h, c) && owner[cell_index(w, c)] >= 0 ==> #[trigger] is_on(binary, w, c)
    // finished regions
    &&& forall|r: int| 0 <= r < cur ==> is_region_of(binary, w, h, #[trigger] regions[r])
    &&& forall|r: int, t: int| 0 <= r < cur && 0 <= t < regions[r].cells@.len() ==>
        owner[cell_index(w, #[trigger] regions[r].cells@[t])] == r
    &&& forall|c: Cell| in_grid(w, h, c) && 0 <= owner[cell_index(w, c)] < cur ==>
        #[trigger] regions[owner[cell_index(w, c)]].cells@.contains(c)
    &&& forall|c1: Cell, c2: Cell|
        in_grid(w, h, c1) && in_grid(w, h, c2) && 0 <= #[trigger] owner[cell_index(w, c1)] < cur
            && is_on(binary, w, c2) && #[trigger] adjacent(c1, c2) ==> owner[cell_index(w, c2)] == owner[cell_index(w, c1)]
    &&& forall|r1: int, r2: int| 0 <= r1 < r2 < cur ==>
        scan_before((#[trigger] regions[r1]).cells@[0], (#[trigger] regions[r2]).cells@[0])
    &&& forall|r: int| 0 <= r < cur ==> scan_before((#[trigger] regions[r]).cells@[0], seed)
    &&& forall|c: Cell| in_grid(w, h, c) && is_on(binary, w, c) && scan_before(c, seed) ==>
        0 <= #[trigger] owner[cell_index(w, c)] < cur
    // the current region
    &&& forall|t: int| 0 <= t < cells.len() ==>
        in_grid(w, h, #[trigger] cells[t]) && owner[cell_index(w, cells[t])] == cur
    &&& forall|q: int| 0 <= q < stack.len() ==>
        in_grid(w, h, #[trigger] stack[q]) && owner[cell_index(w, stack[q])] == cur
    &&& forall|c: Cell| in_grid(w, h, c) && #[trigger] owner[cell_index(w, c)] == cur ==>
        cells.contains(c) || stack.contains(c)
    &&& forall|t1: int, t2: int| 0 <= t1 < t2 < cells.len() ==> #[trigger] cells[t1] != #[trigger] cells[t2]
    &&& forall|q1: int, q2: int| 0 <= q1 < q2 < stack.len() ==> #[trigger] stack[q1] != #[trigger] stack[q2]
    &&& forall|t: int, q: int| 0 <= t < cells.len() && 0 <= q < stack.len() ==> #[trigger] cells[t] != #[trigger] stack[q]
    &&& cells.len() == 0 ==> stack == seq![seed]
    &&& cells.len() > 0 ==> cells[0] == seed
    &&& forall|t: int| 0 < t < cells.len() ==> touches(cells, t, #[trigger] cells[t])
    &&& forall|q: int| 0 <= q < stack.len() && cells.len() > 0 ==> touches(cells, cells.len() as int, #[trigger] stack[q])
    &&& 0 <= closed <= cells.len()
    &&& forall|t: int, c: Cell|
        0 <= t < closed && in_grid(w, h, c) && is_on(binary, w, c) && #[trigger] adjacent(cells[t], c)
            ==> owner[cell_index(w, c)] == cur
}

/// Mark cell `n` and push it when it is set and not yet visited.
fn try_visit(binary: &Vec<bool>, w: usize, h: usize, visited: &mut Vec<bool>, stack: &mut Vec<Cell>, n: Cell) -> (pushed: bool)
    requires
        in_grid(w as nat, h as nat, n),
        binary.len() == w * h,
        old(visited).len() == w * h,
    ensures
        pushed == (is_on(binary@, w as nat, n) && !old(visited)@[cell_index(w as nat, n)]),
        pushed ==> final(visited)@ == old(visited)@.update(cell_index(w as nat, n), true)
            && final(stack)@ == old(stack)@.push(n),
        !pushed ==> final(visited)@ == old(visited)@ && final(stack)@ == old(stack)@,
{
    proof {
        lemma_index_bound(w as nat, h as nat, n);
    }
    let i = n.1 * w + n.0;
    if binary[i] && !visited[i] {
        visited.set(i, true);
        stack.push(n);
        true
    } else {
        false
    }
}

/// Visiting a neighbour of the newest cell keeps the bookkeeping.
proof fn lemma_visit(
    binary: Seq<bool>,
    w: nat,
    h: nat,
    visited: Seq<bool>,
    owner: Seq<int>,
    regions: Seq<TextRegion>,
    cells: Seq<Cell>,
    stack: Seq<Cell>,
    seed: Cell,
    n: Cell,
) -> (new_owner: Seq<int>)
    requires
        search_inv(binary, w, h, visited, owner, regions, cells, stack, seed, cells.len() - 1),
        cells.len() > 0,
        in_grid(w, h, n),
        adjacent(cells.last(), n),
        is_on(binary, w, n),
        !visited[cell_index(w, n)],
    ensures
        new_owner == owner.update(cell_index(w, n), regions.len() as int),
        search_inv(binary, w, h, visited.update(cell_index(w, n), true), new_owner, regions, cells, stack.push(n), seed, cells.len() - 1),
{
    reveal(search_inv);
    reveal(scan_inv);
    let cur = regions.len() as int;
    let i = cell_index(w, n);
    lemma_index_bound(w, h, n);
    let owner2 = owner.update(i, cur);
    let visited2 = visited.update(i, true);
    let stack2 = stack.push(n);
    assert(owner[i] == -1);
    assert forall|c: Cell| in_grid(w, h, c) && c != n implies owner2[cell_index(w, c)] == owner[cell_index(w, c)] by {
        lemma_index_bound(w, h, c);
        if cell_index(w, c) == i {
            lemma_index_injective(w, c, n);
        }
    }
    assert(!cells.contains(n));
    assert(!stack.contains(n));
    assert forall|q: int| 0 <= q < stack2.len() && cells.len() > 0 implies touches(cells, cells.len() as int, #[trigger] stack2[q]) by {
        if q == stack.len() {
            assert(adjacent(cells[cells.len() - 1], n));
        } else {
            assert(stack2[q] == stack[q]);
        }
    }
    assert forall|c: Cell| in_grid(w, h, c) && #[trigger] owner2[cell_index(w, c)] == cur implies
        cells.contains(c) || stack2.contains(c) by {
        if c == n {
            assert(stack2[stack.len() as int] == n);
        } else {
            if stack.contains(c) {
                let q = choose|q: int| 0 <= q < stack.len() && stack[q] == c;
                assert(stack2[q] == c);
            }
        }
    }
    assert forall|r: int, t: int| 0 <= r < cur && 0 <= t < regions[r].cells@.len() implies
        owner2[cell_index(w, #[trigger] regions[r].cells@[t])] == r by {
        let c = regions[r].cells@[t];
        assert(is_region_of(binary, w, h, regions[r]));
        assert(in_grid(w, h, c));
        if c == n {
            assert(owner[cell_index(w, c)] == r);
        }
    }
    assert forall|c1: Cell, c2: Cell|
        in_grid(w, h, c1) && in_grid(w, h, c2) && 0 <= #[trigger] owner2[cell_index(w, c1)] < cur
            && is_on(binary, w, c2) && #[trigger] adjacent(c1, c2) implies owner2[cell_index(w, c2)] == owner2[cell_index(w, c1)] by {
        if c1 == n {
        } else if c2 == n {
            assert(owner[cell_index(w, c2)] == owner[cell_index(w, c1)]);
        }
    }
    assert forall|t: int, c: Cell|
        0 <= t < cells.len() - 1 && in_grid(w, h, c) && is_on(binary, w, c) && #[trigger] adjacent(cells[t], c)
            implies owner2[cell_index(w, c)] == cur by {
        if c != n {
            assert(owner[cell_index(w, c)] == cur);
        }
    }
    assert forall|c: Cell| in_grid(w, h, c) && is_on(binary, w, c) && scan_before(c, seed) implies
        0 <= #[trigger] owner2[cell_index(w, c)] < cur by {
        if c == n {
            assert(0 <= owner[cell_index(w, c)] < cur);
        }
    }
    owner2
}

/// Every set neighbour of the newest cell is labelled with the current
/// region, once each has been looked at.
proof fn lemma_close_last(
    binary: Seq<bool>,
    w: nat,
    h: nat,
    visited: Seq<bool>,
    owner: Seq<int>,
    regions: Seq<TextRegion>,
    cells: Seq<Cell>,
    stack: Seq<Cell>,
    seed: Cell,
)
    requires
        search_inv(binary, w, h, visited, owner, regions, cells, stack, seed, cells.len() - 1),
        cells.len() > 0,
        forall|n: Cell| in_grid(w, h, n) && #[trigger] adjacent(cells.last(), n) && is_on(binary, w, n)
            ==> owner[cell_index(w, n)] >= 0,
    ensures
        search_inv(binary, w, h, visited, owner, regions, cells, stack, seed, cells.len() as int),
{
    reveal(search_inv);
    reveal(scan_inv);
    let cur = regions.len() as int;
    let p = cells.last();
    assert(owner[cell_index(w, p)] == cur);
    assert(is_on(binary, w, p));
    assert forall|t: int, c: Cell|
        0 <= t < cells.len() && in_grid(w, h, c) && is_on(binary, w, c) && #[trigger] adjacent(cells[t], c)
            implies owner[cell_index(w, c)] == cur by {
        if t == cells.len() - 1 {
            assert(adjacent(cells.last(), c));
            assert(in_grid(w, h, p));
            lemma_index_bound(w, h, c);
            let o = owner[cell_index(w, c)];
            assert(o >= 0);
            if o < cur {
                // c's finished region is closed, so it would own p too
                assert(adjacent(c, p));
                assert(owner[cell_index(w, p)] == o);
            }
        }
    }
}

/// Moving the top of the stack to the end of `cells` keeps the bookkeeping,
/// with the new cell not yet closed.
proof fn lemma_pop(
    binary: Seq<bool>,
    w: nat,
    h: nat,
    visited: Seq<bool>,
    owner: Seq<int>,
    regions: Seq<TextRegion>,
    cells: Seq<Cell>,
    stack: Seq<Cell>,
    seed: Cell,
)
    requires
        search_inv(binary, w, h, visited, owner, regions, cells, stack, seed, cells.len() as int),
        stack.len() > 0,
    ensures
        search_inv(binary, w, h, visited, owner, regions, cells.push(stack.last()), stack.drop_last(), seed, cells.len() as int),
        in_grid(w, h, stack.last()),
        binary.len() == w * h,
        visited.len() == w * h,
        cells.len() == 0 ==> stack.last() == seed,
{
    reveal(search_inv);
    reveal(scan_inv);
    let p = stack.last();
    let cells2 = cells.push(p);
    let stack2 = stack.drop_last();
    let cur = regions.len() as int;
    assert forall|t: int| 0 < t < cells2.len() implies touches(cells2, t, #[trigger] cells2[t]) by {
        if t < cells.len() {
            let s0 = choose|s0: int| 0 <= s0 < t && adjacent(cells[s0], cells[t]);
            assert(cells2[s0] == cells[s0]);
        } else {
            assert(touches(cells, cells.len() as int, stack[stack.len() - 1]));
            let s0 = choose|s0: int| 0 <= s0 < cells.len() && adjacent(cells[s0], p);
            assert(cells2[s0] == cells[s0]);
        }
    }
    assert forall|q: int| 0 <= q < stack2.len() && cells2.len() > 0 implies
        touches(cells2, cells2.len() as int, #[trigger] stack2[q]) by {
        assert(stack2[q] == stack[q]);
        if cells.len() == 0 {
            assert(stack.len() == 1);
        } else {
            let s0 = choose|s0: int| 0 <= s0 < cells.len() && adjacent(cells[s0], stack[q]);
            assert(cells2[s0] == cells[s0]);
        }
    }
    assert forall|c: Cell| in_grid(w, h, c) && #[trigger] owner[cell_index(w, c)] == cur implies
        cells2.contains(c) || stack2.contains(c) by {
        if cells.contains(c) {
            let t = choose|t: int| 0 <= t < cells.len() && cells[t] == c;
            assert(cells2[t] == c);
        } else {
            let q = choose|q: int| 0 <= q < stack.len() && stack[q] == c;
            if q == stack.len() - 1 {
                assert(cells2[cells.len() as int] == c);
            } else {
                assert(stack2[q] == c);
            }
        }
    }
    assert forall|t1: int, t2: int| 0 <= t1 < t2 < cells2.len() implies #[trigger] cells2[t1] != #[trigger] cells2[t2] by {
        if t2 == cells.len() {
            assert(cells[t1] != stack[stack.len() - 1]);
        }
    }
    assert forall|t: int, q: int| 0 <= t < cells2.len() && 0 <= q < stack2.len() implies
        #[trigger] cells2[t] != #[trigger] stack2[q] by {
        if t == cells.len() {
            assert(stack[q] != stack[stack.len() - 1]);
        } else {
            assert(cells[t] != stack[q]);
        }
    }
    assert forall|t: int, c: Cell|
        0 <= t < cells.len() && in_grid(w, h, c) && is_on(binary, w, c) && #[trigger] adjacent(cells2[t], c)
            implies owner[cell_index(w, c)] == cur by {
        assert(cells2[t] == cells[t]);
    }
}

/// The scan's bookkeeping before looking at cell `pos`: finished regions
/// only, closed under adjacency, covering every set cell before `pos`.
#[verifier::opaque]
spec fn scan_inv(
    binary: Seq<bool>,
    w: nat,
    h: nat,
    visited: Seq<bool>,
    owner: Seq<int>,
    regions: Seq<TextRegion>,
    pos: Cell,
) -> bool {
    let cur = regions.len() as int;
    &&& binary.len() == w * h
    &&& visited.len() == w * h
    &&& owner.len() == w * h
    &&& forall|i: int| 0 <= i < w * h ==> -1 <= #[trigger] owner[i] < cur && (visited[i] <==> owner[i] >= 0)
    &&& forall|c: Cell| in_grid(w, h, c) && owner[cell_index(w, c)] >= 0 ==> #[trigger] is_on(binary, w, c)
    &&& forall|r: int| 0 <= r < cur ==> is_region_of(binary, w, h, #[trigger] regions[r])
    &&& forall|r: int, t: int| 0 <= r < cur && 0 <= t < regions[r].cells@.len() ==>
        owner[cell_index(w, #[trigger] regions[r].cells@[t])] == r
    &&& forall|c: Cell| in_grid(w, h, c) && 0 <= owner[cell_index(w, c)] < cur ==>
        #[trigger] regions[owner[cell_index(w, c)]].cells@.contains(c)
    &&& forall|c1: Cell, c2: Cell|
        in_grid(w, h, c1) && in_grid(w, h, c2) && 0 <= #[trigger] owner[cell_index(w, c1)] < cur
            && is_on(binary, w, c2) && #[trigger] adjacent(c1, c2) ==> owner[cell_index(w, c2)] == owner[cell_index(w, c1)]
    &&& forall|r1: int, r2: int| 0 <= r1 < r2 < cur ==>
        scan_before((#[trigger] regions[r1]).cells@[0], (#[trigger] regions[r2]).cells@[0])
    &&& forall|r: int| 0 <= r < cur ==> scan_before((#[trigger] regions[r]).cells@[0], pos)
    &&& forall|c: Cell| in_grid(w, h, c) && is_on(binary, w, c) && scan_before(c, pos) ==>
        0 <= #[trigger] owner[cell_index(w, c)]
}

/// Starting a region at an unvisited set cell.
proof fn lemma_start(
    binary: Seq<bool>,
    w: nat,
    h: nat,
    visited: Seq<bool>,
    owner: Seq<int>,
    regions: Seq<TextRegion>,
    seed: Cell,
) -> (new_owner: Seq<int>)
    requires
        scan_inv(binary, w, h, visited, owner, regions, seed),
        in_grid(w, h, seed),
        is_on(binary, w, seed),
        !visited[cell_index(w, seed)],
    ensures
        new_owner == owner.update(cell_index(w, seed), regions.len() as int),
        search_inv(binary, w, h, visited.update(cell_index(w, seed), true), new_owner, regions, seq![], seq![seed], seed, 0),
{
    reveal(search_inv);
    reveal(scan_inv);
    let cur = regions.len() as int;
    let i = cell_index(w, seed);
    lemma_index_bound(w, h, seed);
    let owner2 = owner.update(i, cur);
    let stack = seq![seed];
    assert forall|c: Cell| in_grid(w, h, c) && c != seed implies owner2[cell_index(w, c)] == owner[cell_index(w, c)] by {
        lemma_index_bound(w, h, c);
        if cell_index(w, c) == i {
            lemma_index_injective(w, c, seed);
        }
    }
    assert forall|c: Cell| in_grid(w, h, c) && #[trigger] owner2[cell_index(w, c)] == cur implies
        seq![].contains(c) || stack.contains(c) by {
        lemma_index_bound(w, h, c);
        assert(c == seed);
        assert(stack[0] == seed);
    }
    assert forall|r: int, t: int| 0 <= r < cur && 0 <= t < regions[r].cells@.len() implies
        owner2[cell_index(w, #[trigger] regions[r].cells@[t])] == r by {
        assert(is_region_of(binary, w, h, regions[r]));
        let c = regions[r].cells@[t];
        assert(in_grid(w, h, c));
    }
    assert forall|c1: Cell, c2: Cell|
        in_grid(w, h, c1) && in_grid(w, h, c2) && 0 <= #[trigger] owner2[cell_index(w, c1)] < cur
            && is_on(binary, w, c2) && #[trigger] adjacent(c1, c2) implies owner2[cell_index(w, c2)] == owner2[cell_index(w, c1)] by {
        if c2 == seed {
            assert(owner[cell_index(w, c2)] == owner[cell_index(w, c1)]);
        }
    }
    assert forall|c: Cell| in_grid(w, h, c) && is_on(binary, w, c) && scan_before(c, seed) implies
        0 <= #[trigger] owner2[cell_index(w, c)] < cur by {
        lemma_index_bound(w, h, c);
        assert(c != seed);
        assert(owner2[cell_index(w, c)] == owner[cell_index(w, c)]);
    }
    owner2
}

/// Passing over a cell that starts no region.
proof fn lemma_skip(
    binary: Seq<bool>,
    w: nat,
    h: nat,
    visited: Seq<bool>,
    owner: Seq<int>,
    regions: Seq<TextRegion>,
    pos: Cell,
)
    requires
        scan_inv(binary, w, h, visited, owner, regions, pos),
        in_grid(w, h, pos),
        w <= usize::MAX,
        !(is_on(binary, w, pos) && !visited[cell_index(w, pos)]),
    ensures
        scan_inv(binary, w, h, visited, owner, regions, ((pos.0 + 1) as usize, pos.1)),
{
    reveal(search_inv);
    reveal(scan_inv);
    lemma_index_bound(w, h, pos);
    let next: Cell = ((pos.0 + 1) as usize, pos.1);
    assert forall|c: Cell| in_grid(w, h, c) && is_on(binary, w, c) && scan_before(c, next) implies
        0 <= #[trigger] owner[cell_index(w, c)] by {
        if c == pos {
            assert(visited[cell_index(w, c)]);
        } else {
            assert(scan_before(c, pos));
        }
    }
    let cur = regions.len() as int;
    assert forall|r: int| 0 <= r < cur implies scan_before((#[trigger] regions[r]).cells@[0], next) by {
        assert(scan_before(regions[r].cells@[0], pos));
    }
}

/// The end of a row is the start of the next.
proof fn lemma_next_row(
    binary: Seq<bool>,
    w: nat,
    h: nat,
    visited: Seq<bool>,
    owner: Seq<int>,
    regions: Seq<TextRegion>,
    y: usize,
)
    requires
        scan_inv(binary, w, h, visited, owner, regions, (w as usize, y)),
        w <= usize::MAX,
        y < usize::MAX,
    ensures
        scan_inv(binary, w, h, visited, owner, regions, (0, (y + 1) as usize)),
{
    reveal(search_inv);
    reveal(scan_inv);
    let cur = regions.len() as int;
    assert forall|r: int| 0 <= r < cur implies scan_before((#[trigger] regions[r]).cells@[0], (0usize, (y + 1) as usize)) by {
        assert(is_region_of(binary, w, h, regions[r]));
        assert(in_grid(w, h, regions[r].cells@[0]));
    }
}

/// The cells of a region whose stack has run out form a component.
proof fn lemma_finished_component(
    binary: Seq<bool>,
    w: nat,
    h: nat,
    visited: Seq<bool>,
    owner: Seq<int>,
    regions: Seq<TextRegion>,
    cells: Seq<Cell>,
    seed: Cell,
)
    requires
        search_inv(binary, w, h, visited, owner, regions, cells, seq![], seed, cells.len() as int),
    ensures
        is_component(binary, w, h, cells),
        cells[0] == seed,
{
    reveal(search_inv);
    reveal(scan_inv);
    let cur = regions.len() as int;
    let empty: Seq<Cell> = seq![];
    assert(seq![seed].len() == 1);
    assert(cells.len() > 0);
    assert forall|t: int, c: Cell|
        0 <= t < cells.len() && in_grid(w, h, c) && is_on(binary, w, c) && adjacent(#[trigger] cells[t], c)
            implies #[trigger] cells.contains(c) by {
        assert(owner[cell_index(w, c)] == cur);
        assert(cells.contains(c) || seq![].contains(c));
    }
    assert forall|t: int| 0 < t < cells.len() implies scan_before(cells[0], #[trigger] cells[t]) by {
        let c = cells[t];
        assert(in_grid(w, h, c));
        lemma_index_bound(w, h, c);
        assert(owner[cell_index(w, c)] == cur);
        assert(is_on(binary, w, c));
        assert(cells[0] != c);
    }
}

/// A region whose stack has run out is a finished component.
proof fn lemma_finish(
    binary: Seq<bool>,
    w: nat,
    h: nat,
    visited: Seq<bool>,
    owner: Seq<int>,
    regions: Seq<TextRegion>,
    region: TextRegion,
    seed: Cell,
)
    requires
        search_inv(binary, w, h, visited, owner, regions, region.cells@, seq![], seed, region.cells@.len() as int),
        is_bounding_box(region.cells@, region.min_x, region.min_y, region.max_x, region.max_y),
        w <= usize::MAX,
    ensures
        scan_inv(binary, w, h, visited, owner, regions.push(region), ((seed.0 + 1) as usize, seed.1)),
{
    let cur = regions.len() as int;
    let cells = region.cells@;
    let regions2 = regions.push(region);
    let next: Cell = ((seed.0 + 1) as usize, seed.1);
    lemma_finished_component(binary, w, h, visited, owner, regions, cells, seed);
    assert(regions2[cur] == region);
    assert(forall|r: int| 0 <= r < cur ==> #[trigger] regions2[r] == regions[r]);
    assert(binary.len() == w * h && visited.len() == w * h && owner.len() == w * h) by {
        reveal(search_inv);
    }
    assert(forall|i: int| 0 <= i < w * h ==> -1 <= #[trigger] owner[i] < cur + 1 && (visited[i] <==> owner[i] >= 0)) by {
        reveal(search_inv);
    }
    assert(forall|c: Cell| in_grid(w, h, c) && owner[cell_index(w, c)] >= 0 ==> #[trigger] is_on(binary, w, c)) by {
        reveal(search_inv);
    }
    assert forall|r: int| 0 <= r < cur + 1 implies is_region_of(binary, w, h, #[trigger] regions2[r]) by {
        reveal(search_inv);
    }
    assert forall|r: int, t: int| 0 <= r < cur + 1 && 0 <= t < regions2[r].cells@.len() implies
        owner[cell_index(w, #[trigger] regions2[r].cells@[t])] == r by {
        reveal(search_inv);
    }
    assert forall|c: Cell| in_grid(w, h, c) && 0 <= owner[cell_index(w, c)] < cur + 1 implies
        #[trigger] regions2[owner[cell_index(w, c)]].cells@.contains(c) by {
        reveal(search_inv);
        let o = owner[cell_index(w, c)];
        if o == cur {
            assert(cells.contains(c) || seq![].contains(c));
        }
    }
    assert forall|c1: Cell, c2: Cell|
        in_grid(w, h, c1) && in_grid(w, h, c2) && 0 <= #[trigger] owner[cell_index(w, c1)] < cur + 1
            && is_on(binary, w, c2) && #[trigger] adjacent(c1, c2) implies owner[cell_index(w, c2)] == owner[cell_index(w, c1)] by {
        reveal(search_inv);
        if owner[cell_index(w, c1)] == cur {
            assert(cells.contains(c1) || seq![].contains(c1));
            let t = choose|t: int| 0 <= t < cells.len() && cells[t] == c1;
            assert(adjacent(cells[t], c2));
        }
    }
    assert forall|r1: int, r2: int| 0 <= r1 < r2 < cur + 1 implies
        scan_before((#[trigger] regions2[r1]).cells@[0], (#[trigger] regions2[r2]).cells@[0]) by {
        reveal(search_inv);
    }
    assert forall|r: int| 0 <= r < cur + 1 implies scan_before((#[trigger] regions2[r]).cells@[0], next) by {
        reveal(search_inv);
        if r < cur {
            assert(scan_before(regions[r].cells@[0], seed));
        }
    }
    assert forall|c: Cell| in_grid(w, h, c) && is_on(binary, w, c) && scan_before(c, next) implies
        0 <= #[trigger] owner[cell_index(w, c)] by {
        reveal(search_inv);
        if !scan_before(c, seed) {
            assert(c == seed);
            assert(cells[0] == seed);
        }
    }
    reveal(scan_inv);
}

/// The 4-connected regions of set cells in a `w` by `h` row-major bitmap, in
/// row-major order of their first cells, each with its bounding box. Each
/// region's cells come in depth-first order from its first cell, exploring
/// down, up, right, left.
#[verifier::rlimit(60)]
pub fn find_regions(binary: &Vec<bool>, w: usize, h: usize) -> (regions: Vec<TextRegion>)
    requires
        binary.len() == w * h,
    ensures
        is_region_list(binary@, w as nat, h as nat, regions@),
{
    let total = w * h;
    let mut visited: Vec<bool> = Vec::new();
    let mut k: usize = 0;
    while k < total
        invariant
            k <= total,
            visited@ == Seq::new(k as nat, |i: int| false),
        decreases total - k,
    {
        visited.push(false);
        k = k + 1;
    }
    let ghost mut owner: Seq<int> = Seq::new(total as nat, |i: int| -1);
    let mut regions: Vec<TextRegion> = Vec::new();
    proof {
        reveal(scan_inv);
        assert forall|i: int| 0 <= i < w * h implies -1 <= #[trigger] owner[i] < 0 && (visited@[i] <==> owner[i] >= 0) by {}
        assert forall|c: Cell| in_grid(w as nat, h as nat, c) implies #[trigger] owner[cell_index(w as nat, c)] == -1 by {
            lemma_index_bound(w as nat, h as nat, c);
        }
    }
    let mut y: usize = 0;
    while y < h
        invariant
            total == w * h,
            binary.len() == total,
            visited.len() == total,
            y <= h,
            scan_inv(binary@, w as nat, h as nat, visited@, owner, regions@, (0, y)),
        decreases h - y,
    {
        let mut x: usize = 0;
        while x < w
            invariant
                total == w * h,
                binary.len() == total,
                visited.len() == total,
                y < h,
                x <= w,
                scan_inv(binary@, w as nat, h as nat, visited@, owner, regions@, (x, y)),
            decreases w - x,
        {
            proof {
                lemma_index_bound(w as nat, h as nat, (x, y));
            }
            let i = y * w + x;
            if binary[i] && !visited[i] {
                let seed: Cell = (x, y);
                proof {
                    owner = lemma_start(binary@, w as nat, h as nat, visited@, owner, regions@, seed);
                }
                visited.set(i, true);
                let mut cells: Vec<Cell> = Vec::new();
                let mut stack: Vec<Cell> = Vec::new();
                stack.push(seed);
                let mut min_x = x;
                let mut min_y = y;
                let mut max_x = x;
                let mut max_y = y;
                while stack.len() > 0
                    invariant
                        total == w * h,
                        binary.len() == total,
                        visited.len() == total,
                        search_inv(binary@, w as nat, h as nat, visited@, owner, regions@, cells@, stack@, seed, cells@.len() as int),
                        cells@.len() == 0 ==> min_x == x && max_x == x && min_y == y && max_y == y,
                        cells@.len() > 0 ==> is_bounding_box(cells@, min_x, min_y, max_x, max_y),
                        cells@.len() > 0 || stack@.len() > 0,
                        seed == (x, y),
                        x < w,
                        y < h,
                    decreases 2 * count_false(visited@) + stack@.len(),
                {
                    proof {
                        lemma_pop(binary@, w as nat, h as nat, visited@, owner, regions@, cells@, stack@, seed);
                    }
                    let ghost old_cells = cells@;
                    let ghost pre = 2 * count_false(visited@) + stack@.len();
                    assert(old_cells.len() == 0 ==> min_x == x && max_x == x && min_y == y && max_y == y);
                    let p = stack.pop().unwrap();
                    cells.push(p);
                    let (cx, cy) = p;
                    let ghost (bx0, by0, bx1, by1) = (min_x, min_y, max_x, max_y);
                    if cx < min_x { min_x = cx; }
                    if cy < min_y { min_y = cy; }
                    if cx > max_x { max_x = cx; }
                    if cy > max_y { max_y = cy; }
                    proof {
                        assert(cells@ == old_cells.push(p));
                        if old_cells.len() == 0 {
                            assert(p == seed);
                            assert(bx0 == x);
                            assert(bx0 == p.0 && bx1 == p.0 && by0 == p.1 && by1 == p.1);
                        }
                        lemma_bbox_push(old_cells, p, bx0, by0, bx1, by1, min_x, min_y, max_x, max_y);
                        assert(cells@.last() == p);
                    }
                    let ghost m0 = 2 * count_false(visited@) + stack@.len();
                    assert(m0 < pre);
                    // down, up, right, left
                    let ghost o_start = owner;
                    if cy + 1 < h {
                        let n: Cell = (cx, cy + 1);
                        let ghost (v0, s0, o0) = (visited@, stack@, owner);
                        let pushed = try_visit(binary, w, h, &mut visited, &mut stack, n);
                        proof {
                            owner = lemma_neighbor(binary@, w as nat, h as nat, v0, o0, regions@, cells@, s0, seed, n, pushed, visited@, stack@);
                        }
                    }
                    let ghost o_down = owner;
                    if cy > 0 {
                        let n: Cell = (cx, (cy - 1) as usize);
                        let ghost (v0, s0, o0) = (visited@, stack@, owner);
                        let pushed = try_visit(binary, w, h, &mut visited, &mut stack, n);
                        proof {
                            owner = lemma_neighbor(binary@, w as nat, h as nat, v0, o0, regions@, cells@, s0, seed, n, pushed, visited@, stack@);
                        }
                    }
                    let ghost o_up = owner;
                    if cx + 1 < w {
                        let n: Cell = (cx + 1, cy);
                        let ghost (v0, s0, o0) = (visited@, stack@, owner);
                        let pushed = try_visit(binary, w, h, &mut visited, &mut stack, n);
                        proof {
                            owner = lemma_neighbor(binary@, w as nat, h as nat, v0, o0, regions@, cells@, s0, seed, n, pushed, visited@, stack@);
                        }
                    }
                    let ghost o_right = owner;
                    if cx > 0 {
                        let n: Cell = ((cx - 1) as usize, cy);
                        let ghost (v0, s0, o0) = (visited@, stack@, owner);
                        let pushed = try_visit(binary, w, h, &mut visited, &mut stack, n);
                        proof {
                            owner = lemma_neighbor(binary@, w as nat, h as nat, v0, o0, regions@, cells@, s0, seed, n, pushed, visited@, stack@);
                        }
                    }
                    proof {
                        assert forall|n: Cell| in_grid(w as nat, h as nat, n) && #[trigger] adjacent(cells@.last(), n)
                            && is_on(binary@, w as nat, n) implies owner[cell_index(w as nat, n)] >= 0 by {
                            lemma_index_bound(w as nat, h as nat, n);
                            if n == (cx, (cy + 1) as usize) {
                                assert(o_down[cell_index(w as nat, n)] >= 0);
                                assert(o_up[cell_index(w as nat, n)] >= 0);
                                assert(o_right[cell_index(w as nat, n)] >= 0);
                            } else if n == (cx, (cy - 1) as usize) {
                                assert(o_up[cell_index(w as nat, n)] >= 0);
                                assert(o_right[cell_index(w as nat, n)] >= 0);
                            } else if n == ((cx + 1) as usize, cy) {
                                assert(o_right[cell_index(w as nat, n)] >= 0);
                            }
                        }
                        lemma_close_last(binary@, w as nat, h as nat, visited@, owner, regions@, cells@, stack@, seed);
                    }
                }
                proof {
                    assert(stack@ =~= seq![]);
                }
                let region = TextRegion { cells, min_x, min_y, max_x, max_y };
                proof {
                    lemma_finish(binary@, w as nat, h as nat, visited@, owner, regions@, region, seed);
                }
                regions.push(region);
            } else {
                proof {
                    lemma_skip(binary@, w as nat, h as nat, visited@, owner, regions@, (x, y));
                }
            }
            x = x + 1;
        }
        proof {
            lemma_next_row(binary@, w as nat, h as nat, visited@, owner, regions@, y);
        }
        y = y + 1;
    }
    proof {
        lemma_scan_done(binary@, w as nat, h as nat, visited@, owner, regions@);
    }
    regions
}

/// Once every row has been scanned, the regions are the answer.
proof fn lemma_scan_done(
    binary: Seq<bool>,
    w: nat,
    h: nat,
    visited: Seq<bool>,
    owner: Seq<int>,
    regions: Seq<TextRegion>,
)
    requires
        scan_inv(binary, w, h, visited, owner, regions, (0, h as usize)),
        h <= usize::MAX,
    ensures
        is_region_list(binary, w, h, regions),
{
    reveal(scan_inv);
    assert forall|c: Cell| in_grid(w, h, c) && is_on(binary, w, c) implies
        exists|r: int| 0 <= r < regions.len() && (#[trigger] regions[r]).cells@.contains(c) by {
        lemma_index_bound(w, h, c);
        assert(scan_before(c, (0usize, h as usize)));
        let o = owner[cell_index(w, c)];
        assert(regions[o].cells@.contains(c));
    }
    assert forall|r1: int, r2: int, c: Cell| 0 <= r1 < regions.len() && 0 <= r2 < regions.len()
        && #[trigger] regions[r1].cells@.contains(c) && #[trigger] regions[r2].cells@.contains(c) implies r1 == r2 by {
        let t1 = choose|t: int| 0 <= t < regions[r1].cells@.len() && regions[r1].cells@[t] == c;
        let t2 = choose|t: int| 0 <= t < regions[r2].cells@.len() && regions[r2].cells@[t] == c;
        assert(owner[cell_index(w, regions[r1].cells@[t1])] == r1);
        assert(owner[cell_index(w, regions[r2].cells@[t2])] == r2);
    }
}

/// Adding a cell to a box-bounded list widens the box as needed.
proof fn lemma_bbox_push(
    cells: Seq<Cell>,
    p: Cell,
    x0: usize,
    y0: usize,
    x1: usize,
    y1: usize,
    nx0: usize,
    ny0: usize,
    nx1: usize,
    ny1: usize,
)
    requires
        cells.len() == 0 ==> x0 == p.0 && x1 == p.0 && y0 == p.1 && y1 == p.1,
        cells.len() > 0 ==> is_bounding_box(cells, x0, y0, x1, y1),
        nx0 == if p.0 < x0 { p.0 } else { x0 },
        ny0 == if p.1 < y0 { p.1 } else { y0 },
        nx1 == if p.0 > x1 { p.0 } else { x1 },
        ny1 == if p.1 > y1 { p.1 } else { y1 },
    ensures
        is_bounding_box(cells.push(p), nx0, ny0, nx1, ny1),
{
    let c2 = cells.push(p);
    let last = cells.len() as int;
    assert(c2[last] == p);
    assert forall|t: int| 0 <= t < cells.len() implies c2[t] == cells[t] by {}
    if cells.len() > 0 {
        if p.0 >= x0 {
            let t = choose|t: int| 0 <= t < cells.len() && (#[trigger] cells[t]).0 == x0;
            assert(c2[t].0 == nx0);
        }
        if p.1 >= y0 {
            let t = choose|t: int| 0 <= t < cells.len() && (#[trigger] cells[t]).1 == y0;
            assert(c2[t].1 == ny0);
        }
        if p.0 <= x1 {
            let t = choose|t: int| 0 <= t < cells.len() && (#[trigger] cells[t]).0 == x1;
            assert(c2[t].0 == nx1);
        }
        if p.1 <= y1 {
            let t = choose|t: int| 0 <= t < cells.len() && (#[trigger] cells[t]).1 == y1;
            assert(c2[t].1 == ny1);
        }
    }
}

/// One neighbour looked at: the bookkeeping holds with the updated labels,
/// labels only grow, the neighbour ends up labelled when set, and the
/// search measure does not grow.
proof fn lemma_neighbor(
    binary: Seq<bool>,
    w: nat,
    h: nat,
    visited: Seq<bool>,
    owner: Seq<int>,
    regions: Seq<TextRegion>,
    cells: Seq<Cell>,
    stack: Seq<Cell>,
    seed: Cell,
    n: Cell,
    pushed: bool,
    visited2: Seq<bool>,
    stack2: Seq<Cell>,
) -> (owner2: Seq<int>)
    requires
        search_inv(binary, w, h, visited, owner, regions, cells, stack, seed, cells.len() - 1),
        cells.len() > 0,
        in_grid(w, h, n),
        adjacent(cells.last(), n),
        pushed == (is_on(binary, w, n) && !visited[cell_index(w, n)]),
        pushed ==> visited2 == visited.update(cell_index(w, n), true) && stack2 == stack.push(n),
        !pushed ==> visited2 == visited && stack2 == stack,
    ensures
        search_inv(binary, w, h, visited2, owner2, regions, cells, stack2, seed, cells.len() - 1),
        forall|i: int| 0 <= i < w * h && owner[i] >= 0 ==> #[trigger] owner2[i] == owner[i],
        is_on(binary, w, n) ==> owner2[cell_index(w, n)] >= 0,
        2 * count_false(visited2) + stack2.len() <= 2 * count_false(visited) + stack.len(),
        visited2.len() == visited.len(),
{
    reveal(search_inv);
    lemma_index_bound(w, h, n);
    assert(visited.len() == w * h);
    if !pushed && is_on(binary, w, n) {
        assert(visited[cell_index(w, n)]);
    }
    if pushed {
        lemma_count_false_set(visited, cell_index(w, n));
        lemma_visit(binary, w, h, visited, owner, regions, cells, stack, seed, n)
    } else {
        owner
    }
}


/// A text box grown by a quarter of its extent on each side, clamped to the
/// grid: `(min_x, min_y, max_x, max_y)`.
pub open spec fn expanded_box(min_x: usize, min_y: usize, max_x: usize, max_y: usize, w: usize, h: usize) -> (int, int, int, int) {
    let ew = (max_x - min_x) / 4;
    let eh = (max_y - min_y) / 4;
    (
        if min_x >= ew { min_x - ew } else { 0 },
        if min_y >= eh { min_y - eh } else { 0 },
        if max_x + ew < w - 1 { max_x + ew } else { w - 1 },
        if max_y + eh < h - 1 { max_y + eh } else { h - 1 },
    )
}

/// Grow a region's box by a quarter of its width and height on every side,
/// staying inside the `w` by `h` grid.
pub fn expand_box(min_x: usize, min_y: usize, max_x: usize, max_y: usize, w: usize, h: usize) -> (r: (usize, usize, usize, usize))
    requires
        min_x <= max_x < w,
        min_y <= max_y < h,
        max_x + (max_x - min_x) / 4 <= usize::MAX,
        max_y + (max_y - min_y) / 4 <= usize::MAX,
    ensures
        (r.0 as int, r.1 as int, r.2 as int, r.3 as int) == expanded_box(min_x, min_y, max_x, max_y, w, h),
{
    let ew = (max_x - min_x) / 4;
    let eh = (max_y - min_y) / 4;
    let x0 = min_x.saturating_sub(ew);
    let y0 = min_y.saturating_sub(eh);
    let x1 = if max_x + ew < w - 1 { max_x + ew } else { w - 1 };
    let y1 = if max_y + eh < h - 1 { max_y + eh } else { h - 1 };
    (x0, y0, x1, y1)
}

} // verus!
