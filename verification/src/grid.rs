//! The board as a set of cells.
//!
//! A cell is named by its linear index `y * 11 + x`; a region of the board is
//! a `Set<int>` of such indices. Everything a [`crate::mask::Mask`] computes is
//! stated against the functions of this module.
use vstd::prelude::*;
use vstd::set_lib::*;

verus! {

/// Whether `i` names a cell of the board.
pub open spec fn in_grid(i: int) -> bool {
    0 <= i < 121
}

/// The column (`x`) of cell `i`.
pub open spec fn col_of(i: int) -> int {
    i % 11
}

/// The row (`y`) of cell `i`.
pub open spec fn row_of(i: int) -> int {
    i / 11
}

/// The linear index of the cell in column `x` and row `y`.
pub open spec fn index_of(x: int, y: int) -> int {
    y * 11 + x
}

/// All 121 cells.
pub open spec fn board() -> Set<int> {
    Set::new(|i: int| 0 <= i < 121)
}

/// The cells of the board that are not in `s`.
pub open spec fn complement(s: Set<int>) -> Set<int> {
    Set::new(|i: int| 0 <= i < 121 && !s.contains(i))
}

/// The cells of row `r`.
pub open spec fn row(r: int) -> Set<int> {
    Set::new(|i: int| 0 <= i < 121 && i / 11 == r)
}

/// The cells of column `c`.
pub open spec fn column(c: int) -> Set<int> {
    Set::new(|i: int| 0 <= i < 121 && i % 11 == c)
}

/// The outermost rows and columns.
pub open spec fn border() -> Set<int> {
    Set::new(|i: int| 0 <= i < 121 && (i / 11 == 0 || i / 11 == 10 || i % 11 == 0 || i % 11 == 10))
}

/// Every cell of `s` moved one column to the right; column 10 falls off.
pub open spec fn shifted_right(s: Set<int>) -> Set<int> {
    Set::new(|j: int| 0 <= j < 121 && j % 11 != 0 && s.contains(j - 1))
}

/// Every cell of `s` moved one column to the left; column 0 falls off.
pub open spec fn shifted_left(s: Set<int>) -> Set<int> {
    Set::new(|j: int| 0 <= j < 121 && j % 11 != 10 && s.contains(j + 1))
}

/// Every cell of `s` moved one row down (towards row 10); row 10 falls off.
pub open spec fn shifted_down(s: Set<int>) -> Set<int> {
    Set::new(|j: int| 11 <= j < 121 && s.contains(j - 11))
}

/// Every cell of `s` moved one row up (towards row 0); row 0 falls off.
pub open spec fn shifted_up(s: Set<int>) -> Set<int> {
    Set::new(|j: int| 0 <= j < 110 && s.contains(j + 11))
}

/// Two cells of the board that share an edge.
pub open spec fn adjacent(i: int, j: int) -> bool {
    &&& in_grid(i)
    &&& in_grid(j)
    &&& {
        ||| (row_of(i) == row_of(j) && (col_of(i) == col_of(j) + 1 || col_of(j) == col_of(i) + 1))
        ||| (col_of(i) == col_of(j) && (row_of(i) == row_of(j) + 1 || row_of(j) == row_of(i) + 1))
    }
}

/// The cells that share an edge with some cell of `s`.
pub open spec fn neighbors(s: Set<int>) -> Set<int> {
    shifted_left(s) + shifted_right(s) + shifted_up(s) + shifted_down(s)
}

/// Whether `s` comes before `t` when regions are ordered by their bit
/// patterns: the greatest cell that only one of the two holds is a cell of
/// `t`.
pub open spec fn precedes(s: Set<int>, t: Set<int>) -> bool {
    exists|i: int|
        0 <= i < 121 && #[trigger] t.contains(i) && !s.contains(i) && forall|j: int|
            i < j < 121 ==> s.contains(j) == t.contains(j)
}

/// A picture of a region: a line break, then one line for each row, with `o`
/// for a cell of the region and `.` for any other cell.
pub open spec fn picture(s: Set<int>) -> Seq<char> {
    Seq::new(
        133,
        |k: int|
            if k % 12 == 0 {
                '\n'
            } else if s.contains((k - 1) / 12 * 11 + (k - 1) % 12) {
                'o'
            } else {
                '.'
            },
    )
}

/// The board has 121 cells.
pub proof fn lemma_board_len()
    ensures
        board().finite(),
        board().len() == 121,
{
    lemma_int_range(0, 121);
    assert(board() =~= set_int_range(0, 121));
}

/// A region of the board is finite and has at most 121 cells.
pub proof fn lemma_region_len(s: Set<int>)
    requires
        s.subset_of(board()),
    ensures
        s.finite(),
        s.len() <= 121,
{
    lemma_board_len();
    lemma_len_subset(s, board());
}

/// A region and its complement share no cell, cover the board together, and
/// have 121 cells between them.
pub proof fn law_complement(a: Set<int>)
    requires
        a.subset_of(board()),
    ensures
        a.intersect(complement(a)) == Set::<int>::empty(),
        a.union(complement(a)) == board(),
        a.len() + complement(a).len() == 121,
{
    lemma_board_len();
    lemma_region_len(a);
    lemma_region_len(complement(a));
    lemma_set_disjoint_lens(a, complement(a));
}

/// A shift right followed by a shift left gives back all but column 10;
/// likewise for the other three pairs of opposite shifts.
pub proof fn law_shift_round_trip(a: Set<int>)
    requires
        a.subset_of(board()),
    ensures
        shifted_left(shifted_right(a)) == a.difference(column(10)),
        shifted_left(shifted_right(a)).subset_of(a),
        shifted_right(shifted_left(a)) == a.difference(column(0)),
        shifted_up(shifted_down(a)) == a.difference(row(10)),
        shifted_down(shifted_up(a)) == a.difference(row(0)),
{
}

/// A cell is a neighbor of `a` exactly when it shares an edge with a cell of
/// `a`. So every cell next to `a` is a neighbor, in `a` or not, and a cell of
/// `a` with no cell of `a` beside it is none.
pub proof fn law_neighbors(a: Set<int>)
    requires
        a.subset_of(board()),
    ensures
        forall|j: int| #[trigger]
            neighbors(a).contains(j) <==> exists|i: int| a.contains(i) && adjacent(i, j),
        forall|j: int|
            a.contains(j) && (forall|i: int| a.contains(i) ==> !adjacent(i, j)) ==> !neighbors(
                a,
            ).contains(j),
        forall|i: int, j: int| a.contains(i) && adjacent(i, j) ==> neighbors(a).contains(j),
{
    assert forall|i: int, j: int| a.contains(i) && adjacent(i, j) implies neighbors(a).contains(
        j,
    ) by {
        lemma_adjacent_offsets(i, j);
    }
}

/// Two cells that share an edge are 1 or 11 apart.
pub proof fn lemma_adjacent_offsets(i: int, j: int)
    requires
        adjacent(i, j),
    ensures
        adjacent(j, i),
        (i == j + 1 && j % 11 != 10) || (i == j - 1 && j % 11 != 0) || i == j + 11 || i == j - 11,
{
}

/// A walk through `s`: each cell of `p` lies in `s` and shares an edge with the
/// next.
pub open spec fn is_path(s: Set<int>, p: Seq<int>) -> bool {
    &&& p.len() > 0
    &&& forall|k: int| 0 <= k < p.len() ==> s.contains(#[trigger] p[k])
    &&& forall|k: int| 0 <= k < p.len() - 1 ==> adjacent(#[trigger] p[k], p[k + 1])
}

/// Whether a walk through `s` leads from `a` to `b`.
pub open spec fn connected(s: Set<int>, a: int, b: int) -> bool {
    exists|p: Seq<int>| is_path(s, p) && p.first() == a && p.last() == b
}

/// The cells that a walk through `s` reaches from `a`.
pub open spec fn component(s: Set<int>, a: int) -> Set<int> {
    Set::new(|b: int| connected(s, a, b))
}

/// No cell of `s` outside `c` shares an edge with a cell of `c`.
pub open spec fn closed_in(c: Set<int>, s: Set<int>) -> bool {
    forall|i: int, j: int| c.contains(i) && s.contains(j) && adjacent(i, j) ==> c.contains(j)
}

/// Any two cells of `c` are joined by a walk that stays in `c`.
pub open spec fn is_connected(c: Set<int>) -> bool {
    forall|x: int, y: int| c.contains(x) && c.contains(y) ==> connected(c, x, y)
}

/// The least cell of `s` from `k` on; 121 where there is none.
pub open spec fn least_from(s: Set<int>, k: int) -> int
    decreases 121 - k,
{
    if k >= 121 || s.contains(k) {
        k
    } else {
        least_from(s, k + 1)
    }
}

/// The least cell of `s`; 121 where `s` holds no cell of the board.
pub open spec fn least(s: Set<int>) -> int {
    least_from(s, 0)
}

/// What `least_from` picks: a cell of `s` from `k` on, with no cell of `s` between `k` and it.
pub proof fn lemma_least_from(s: Set<int>, k: int)
    requires
        0 <= k <= 121,
    ensures
        k <= least_from(s, k) <= 121,
        least_from(s, k) < 121 ==> s.contains(least_from(s, k)),
        forall|j: int| k <= j < least_from(s, k) ==> !s.contains(j),
    decreases 121 - k,
{
    if !(k >= 121 || s.contains(k)) {
        lemma_least_from(s, k + 1);
    }
}

/// What `least` picks: a cell of `s` with no cell of `s` below it.
pub proof fn lemma_least(s: Set<int>)
    requires
        s.subset_of(board()),
    ensures
        s.len() != 0 ==> s.contains(least(s)),
        s.len() == 0 ==> least(s) == 121,
        forall|j: int| s.contains(j) ==> least(s) <= j,
{
    lemma_least_from(s, 0);
    lemma_region_len(s);
    if s.len() != 0 {
        let x = s.choose();
        assert(s.contains(x));
    }
}

/// The only cell of `s` with no cell of `s` below it is `least(s)`.
pub proof fn lemma_least_is(s: Set<int>, low: int)
    requires
        s.subset_of(board()),
        s.contains(low),
        forall|j: int| 0 <= j < low ==> !s.contains(j),
    ensures
        least(s) == low,
{
    lemma_least_from(s, 0);
}

/// The cells of `s` in ascending order.
pub open spec fn ascending(s: Set<int>) -> Seq<int>
    decreases s.len(),
    when s.subset_of(board())
{
    if s.len() == 0 {
        Seq::empty()
    } else {
        proof {
            lemma_least_shrinks(s);
        }
        seq![least(s)] + ascending(s.remove(least(s)))
    }
}

/// Taking the least cell away leaves a region with one cell less.
pub proof fn lemma_least_shrinks(s: Set<int>)
    requires
        s.subset_of(board()),
        s.len() != 0,
    ensures
        s.contains(least(s)),
        s.remove(least(s)).subset_of(board()),
        s.remove(least(s)).len() == s.len() - 1,
{
    lemma_region_len(s);
    lemma_least(s);
}

/// `ascending` lists each cell of `s` once, the smaller before the larger.
pub proof fn lemma_ascending(s: Set<int>)
    requires
        s.subset_of(board()),
    ensures
        ascending(s).len() == s.len(),
        forall|k: int| 0 <= k < ascending(s).len() ==> s.contains(#[trigger] ascending(s)[k]),
        forall|i: int| s.contains(i) ==> ascending(s).contains(i),
        forall|k: int, n: int|
            0 <= k < n < ascending(s).len() ==> #[trigger] ascending(s)[k] < #[trigger] ascending(
                s,
            )[n],
    decreases s.len(),
{
    lemma_region_len(s);
    if s.len() != 0 {
        lemma_least_shrinks(s);
        lemma_least(s);
        let rest = s.remove(least(s));
        let tail = ascending(rest);
        let all = ascending(s);
        lemma_ascending(rest);
        assert forall|i: int| s.contains(i) implies all.contains(i) by {
            if i == least(s) {
                assert(all[0] == i);
            } else {
                let k = choose|k: int| 0 <= k < tail.len() && tail[k] == i;
                assert(all[k + 1] == i);
            }
        }
    }
}

/// A cell of `s` is connected to itself.
pub proof fn lemma_connected_refl(s: Set<int>, a: int)
    requires
        s.contains(a),
    ensures
        connected(s, a, a),
{
    let p = seq![a];
    assert(is_path(s, p) && p.first() == a && p.last() == a);
}

/// A walk can go on to a cell of `s` beside its end.
pub proof fn lemma_connected_step(s: Set<int>, a: int, b: int, c: int)
    requires
        connected(s, a, b),
        s.contains(c),
        adjacent(b, c),
    ensures
        connected(s, a, c),
{
    let p = choose|p: Seq<int>| is_path(s, p) && p.first() == a && p.last() == b;
    let q = p.push(c);
    assert(is_path(s, q) && q.first() == a && q.last() == c);
}

proof fn lemma_path_stays(s: Set<int>, c: Set<int>, p: Seq<int>, k: int)
    requires
        is_path(s, p),
        c.contains(p[0]),
        closed_in(c, s),
        0 <= k < p.len(),
    ensures
        c.contains(p[k]),
    decreases k,
{
    if k > 0 {
        lemma_path_stays(s, c, p, k - 1);
    }
}

/// A set that holds `a` and is closed in `s` holds the whole component of `a`.
pub proof fn lemma_closed_holds_component(s: Set<int>, c: Set<int>, a: int)
    requires
        c.contains(a),
        closed_in(c, s),
    ensures
        component(s, a).subset_of(c),
{
    assert forall|b: int| component(s, a).contains(b) implies c.contains(b) by {
        let p = choose|p: Seq<int>| is_path(s, p) && p.first() == a && p.last() == b;
        lemma_path_stays(s, c, p, p.len() - 1);
    }
}

proof fn lemma_path_prefix(s: Set<int>, p: Seq<int>, k: int)
    requires
        is_path(s, p),
        0 <= k < p.len(),
    ensures
        connected(s, p[0], p[k]),
{
    let q = p.take(k + 1);
    assert(is_path(s, q) && q.first() == p[0] && q.last() == p[k]);
}

proof fn lemma_connected_sym(s: Set<int>, a: int, b: int)
    requires
        connected(s, a, b),
    ensures
        connected(s, b, a),
{
    let p = choose|p: Seq<int>| is_path(s, p) && p.first() == a && p.last() == b;
    let q = p.reverse();
    assert(is_path(s, q) && q.first() == b && q.last() == a);
}

proof fn lemma_connected_trans(s: Set<int>, a: int, b: int, c: int)
    requires
        connected(s, a, b),
        connected(s, b, c),
    ensures
        connected(s, a, c),
{
    let p = choose|p: Seq<int>| is_path(s, p) && p.first() == a && p.last() == b;
    let r = choose|r: Seq<int>| is_path(s, r) && r.first() == b && r.last() == c;
    let q = p + r.skip(1);
    assert forall|m: int| 0 <= m < q.len() - 1 implies adjacent(#[trigger] q[m], q[m + 1]) by {}
    assert(q.first() == a);
}

/// The component of a cell of `s` lies in `s`, holds the cell, is closed in `s`
/// and is connected.
pub proof fn lemma_component(s: Set<int>, a: int)
    requires
        s.contains(a),
    ensures
        component(s, a).contains(a),
        component(s, a).subset_of(s),
        closed_in(component(s, a), s),
        is_connected(component(s, a)),
{
    let c = component(s, a);
    lemma_connected_refl(s, a);
    assert forall|i: int, j: int| c.contains(i) && s.contains(j) && adjacent(i, j) implies c.contains(
        j,
    ) by {
        lemma_connected_step(s, a, i, j);
    }
    assert forall|x: int| c.contains(x) implies connected(c, a, x) by {
        let p = choose|p: Seq<int>| is_path(s, p) && p.first() == a && p.last() == x;
        assert forall|k: int| 0 <= k < p.len() implies c.contains(#[trigger] p[k]) by {
            lemma_path_prefix(s, p, k);
        }
    }
    assert forall|x: int, y: int| c.contains(x) && c.contains(y) implies connected(c, x, y) by {
        lemma_connected_sym(c, a, x);
        lemma_connected_trans(c, x, a, y);
    }
}

/// One round of flooding from `seed`: `cluster`, grown by its neighbors in `s`,
/// still holds only cells that a walk reaches, and where it did not grow it is
/// the whole component.
pub proof fn lemma_flood_step(s: Set<int>, seed: int, cluster: Set<int>, next: Set<int>)
    requires
        s.subset_of(board()),
        cluster.subset_of(s),
        cluster.contains(seed),
        forall|b: int| cluster.contains(b) ==> connected(s, seed, b),
        next == cluster.union(neighbors(cluster).intersect(s)),
    ensures
        next.subset_of(s),
        cluster.subset_of(next),
        forall|b: int| next.contains(b) ==> connected(s, seed, b),
        next == cluster ==> cluster == component(s, seed),
        next != cluster ==> cluster.len() < next.len() <= 121,
{
    law_neighbors(cluster);
    lemma_region_len(next);
    assert forall|b: int| next.contains(b) implies connected(s, seed, b) by {
        if !cluster.contains(b) {
            let i = choose|i: int| cluster.contains(i) && adjacent(i, b);
            lemma_connected_step(s, seed, i, b);
        }
    }
    if next == cluster {
        lemma_closed_holds_component(s, cluster, seed);
    } else {
        if next.subset_of(cluster) {
            assert(next =~= cluster);
        }
        let fresh = choose|x: int| next.contains(x) && !cluster.contains(x);
        cluster.lemma_subset_not_in_lt(next, fresh);
    }
}

/// The connected components of `s`, each one the component of the least cell
/// that the earlier ones left over.
pub open spec fn components(s: Set<int>) -> Seq<Set<int>>
    decreases s.len(),
    when s.subset_of(board())
{
    if s.len() == 0 {
        Seq::empty()
    } else {
        let c = component(s, least(s));
        proof {
            lemma_component_shrinks(s);
        }
        seq![c] + components(s.difference(c))
    }
}

/// Taking the first component away leaves fewer cells.
pub proof fn lemma_component_shrinks(s: Set<int>)
    requires
        s.subset_of(board()),
        s.len() != 0,
    ensures
        s.difference(component(s, least(s))).subset_of(board()),
        s.difference(component(s, least(s))).len() < s.len(),
{
    lemma_region_len(s);
    lemma_least(s);
    lemma_component(s, least(s));
    let rest = s.difference(component(s, least(s)));
    rest.lemma_subset_not_in_lt(s, least(s));
}

/// The list of components starts with the component of the least cell and
/// goes on with the components of what that one leaves.
pub proof fn lemma_components_unfold(s: Set<int>)
    requires
        s.subset_of(board()),
    ensures
        s == Set::<int>::empty() ==> components(s) == Seq::<Set<int>>::empty(),
        s != Set::<int>::empty() ==> components(s).len() > 0 && components(s)[0] == component(
            s,
            least(s),
        ) && components(s).skip(1) == components(s.difference(component(s, least(s)))),
{
    lemma_region_len(s);
    if s.len() == 0 {
        assert(s =~= Set::<int>::empty());
    }
}

/// Two sets share no cell exactly when their intersection is empty.
pub proof fn lemma_disjoint(a: Set<int>, b: Set<int>)
    ensures
        a.disjoint(b) <==> a.intersect(b) == Set::<int>::empty(),
        a.subset_of(b) <==> a.difference(b) == Set::<int>::empty(),
{
    if a.disjoint(b) {
        assert(a.intersect(b) =~= Set::<int>::empty());
    }
    if a.subset_of(b) {
        assert(a.difference(b) =~= Set::<int>::empty());
    }
    if a.intersect(b) == Set::<int>::empty() {
        assert forall|i: int| a.contains(i) implies !b.contains(i) by {
            assert(!a.intersect(b).contains(i));
        }
    }
    if a.difference(b) == Set::<int>::empty() {
        assert forall|i: int| a.contains(i) implies b.contains(i) by {
            assert(!a.difference(b).contains(i));
        }
    }
}

/// The components of `s` are regions of `s`, none empty, no two sharing a cell,
/// together covering `s`; each is connected, and no cell of `s` outside one
/// shares an edge with a cell of it.
pub proof fn law_components_partition(s: Set<int>)
    requires
        s.subset_of(board()),
    ensures
        forall|k: int|
            0 <= k < components(s).len() ==> (#[trigger] components(s)[k]).subset_of(s)
                && components(s)[k].len() > 0 && is_connected(components(s)[k]) && closed_in(
                components(s)[k],
                s,
            ),
        forall|k: int, m: int|
            0 <= k < m < components(s).len() ==> (#[trigger] components(s)[k]).disjoint(
                #[trigger] components(s)[m],
            ),
        forall|x: int|
            s.contains(x) ==> exists|k: int|
                0 <= k < components(s).len() && (#[trigger] components(s)[k]).contains(x),
{
    lemma_components(s, s);
}

proof fn lemma_components(s: Set<int>, t: Set<int>)
    requires
        s.subset_of(t),
        t.subset_of(board()),
        forall|x: int, y: int| s.contains(x) && t.contains(y) && !s.contains(y) ==> !adjacent(x, y),
    ensures
        forall|k: int|
            0 <= k < components(s).len() ==> (#[trigger] components(s)[k]).subset_of(s)
                && components(s)[k].len() > 0 && is_connected(components(s)[k]) && closed_in(
                components(s)[k],
                t,
            ),
        forall|k: int, m: int|
            0 <= k < m < components(s).len() ==> (#[trigger] components(s)[k]).disjoint(
                #[trigger] components(s)[m],
            ),
        forall|x: int|
            s.contains(x) ==> exists|k: int|
                0 <= k < components(s).len() && (#[trigger] components(s)[k]).contains(x),
    decreases s.len(),
{
    lemma_region_len(s);
    if s.len() != 0 {
        let c = component(s, least(s));
        let rest = s.difference(c);
        let tail = components(rest);
        lemma_least(s);
        lemma_component(s, least(s));
        lemma_component_shrinks(s);
        lemma_region_len(c);
        assert forall|x: int, y: int|
            rest.contains(x) && t.contains(y) && !rest.contains(y) implies !adjacent(x, y) by {
            if adjacent(x, y) {
                lemma_adjacent_offsets(x, y);
            }
        }
        lemma_components(rest, t);
        let all = components(s);
        assert forall|k: int| 0 <= k < all.len() implies (#[trigger] all[k]).subset_of(s)
            && all[k].len() > 0 && is_connected(all[k]) && closed_in(all[k], t) by {}
        assert forall|k: int, m: int| 0 <= k < m < all.len() implies (#[trigger] all[k]).disjoint(
            #[trigger] all[m],
        ) by {}
        assert forall|x: int| s.contains(x) implies exists|k: int|
            0 <= k < all.len() && (#[trigger] all[k]).contains(x) by {
            if c.contains(x) {
                assert(all[0].contains(x));
            } else {
                assert(rest.contains(x));
                let k = choose|k: int| 0 <= k < tail.len() && (#[trigger] tail[k]).contains(x);
                assert(all[k + 1] == tail[k]);
            }
        }
    }
}

/// `p` moved `dx` columns to the right and `dy` rows down; what leaves the
/// board is dropped.
pub open spec fn translated(p: Set<int>, dx: int, dy: int) -> Set<int> {
    Set::new(|j: int| 0 <= j < 121 && dx <= j % 11 && dy <= j / 11 && p.contains(j - dx - 11 * dy))
}

/// Whether `p`, moved by `dx` and `dy`, stays on the board.
pub open spec fn fits(p: Set<int>, dx: int, dy: int) -> bool {
    forall|i: int| p.contains(i) ==> i % 11 + dx <= 10 && i / 11 + dy <= 10
}

/// The placements of `p` inside `m` from the offset `(dx, dy)` on: column by
/// column to the right while `p` fits, then from the next row.
pub open spec fn sub_masks_from(m: Set<int>, p: Set<int>, dx: int, dy: int) -> Seq<Set<int>>
    decreases 11 - dy, 11 - dx,
{
    if dx < 0 || dx > 10 || dy < 0 || dy > 10 || p == Set::<int>::empty() || !fits(p, dx, dy) {
        Seq::empty()
    } else {
        let t = translated(p, dx, dy);
        let head = if t.subset_of(m) {
            seq![t]
        } else {
            Seq::empty()
        };
        if fits(p, dx + 1, dy) {
            head + sub_masks_from(m, p, dx + 1, dy)
        } else {
            head + sub_masks_from(m, p, 0, dy + 1)
        }
    }
}

/// Every translation of `p` to the right and down that lies inside `m`, row by
/// row and within a row from left to right.
pub open spec fn sub_masks(m: Set<int>, p: Set<int>) -> Seq<Set<int>> {
    sub_masks_from(m, p, 0, 0)
}

/// A shift moves a translation on by one column or one row.
pub proof fn lemma_translated_shift(p: Set<int>, dx: int, dy: int)
    requires
        0 <= dx,
        0 <= dy,
    ensures
        shifted_right(translated(p, dx, dy)) == translated(p, dx + 1, dy),
        shifted_down(translated(p, dx, dy)) == translated(p, dx, dy + 1),
        translated(p, dx, dy).subset_of(board()),
        p.subset_of(board()) ==> translated(p, 0, 0) == p,
{
}

/// Where a cell of `p` lands.
pub proof fn lemma_translated_cell(p: Set<int>, dx: int, dy: int, i: int)
    requires
        p.subset_of(board()),
        0 <= dx,
        0 <= dy,
        fits(p, dx, dy),
        p.contains(i),
    ensures
        translated(p, dx, dy).contains(i + dx + 11 * dy),
        (i + dx + 11 * dy) % 11 == i % 11 + dx,
        (i + dx + 11 * dy) / 11 == i / 11 + dy,
{
}

/// A translation that fits reaches the last column exactly when it cannot move
/// right, and the last row exactly when it cannot move down.
pub proof fn lemma_translated_edge(p: Set<int>, dx: int, dy: int)
    requires
        p.subset_of(board()),
        0 <= dx,
        0 <= dy,
        fits(p, dx, dy),
    ensures
        translated(p, dx, dy).disjoint(column(10)) <==> fits(p, dx + 1, dy),
        translated(p, dx, dy).disjoint(row(10)) <==> fits(p, dx, dy + 1),
        p != Set::<int>::empty() ==> translated(p, dx, dy) != Set::<int>::empty() && dx <= 10
            && dy <= 10,
{
    if !fits(p, dx + 1, dy) {
        let i = choose|i: int| p.contains(i) && !(i % 11 + dx + 1 <= 10 && i / 11 + dy <= 10);
        lemma_translated_cell(p, dx, dy, i);
    }
    if !fits(p, dx, dy + 1) {
        let i = choose|i: int| p.contains(i) && !(i % 11 + dx <= 10 && i / 11 + dy + 1 <= 10);
        lemma_translated_cell(p, dx, dy, i);
    }
    if p != Set::<int>::empty() {
        if forall|i: int| !p.contains(i) {
            assert(p =~= Set::<int>::empty());
        }
        let i = choose|i: int| p.contains(i);
        lemma_translated_cell(p, dx, dy, i);
    }
}

/// The least cell of a translation that fits is the least cell of `p`, moved.
pub proof fn lemma_translated_least(p: Set<int>, dx: int, dy: int)
    requires
        p.subset_of(board()),
        p != Set::<int>::empty(),
        0 <= dx,
        0 <= dy,
        fits(p, dx, dy),
    ensures
        least(translated(p, dx, dy)) == least(p) + dx + 11 * dy,
{
    let t = translated(p, dx, dy);
    lemma_region_len(p);
    if p.len() == 0 {
        assert(p =~= Set::<int>::empty());
    }
    lemma_least(p);
    lemma_translated_cell(p, dx, dy, least(p));
    lemma_least_is(t, least(p) + dx + 11 * dy);
}

/// Whether the offset `(ex, ey)` comes at or after `(dx, dy)` in the order in
/// which placements are tried.
pub open spec fn at_or_after(ex: int, ey: int, dx: int, dy: int) -> bool {
    ey > dy || (ey == dy && ex >= dx)
}

/// Whether `t` is `p` moved by some offset at or after `(dx, dy)`, on the board
/// and inside `m`.
pub open spec fn placed_after(m: Set<int>, p: Set<int>, t: Set<int>, dx: int, dy: int) -> bool {
    exists|ex: int, ey: int|
        0 <= ex && 0 <= ey && at_or_after(ex, ey, dx, dy) && fits(p, ex, ey) && t
            == #[trigger] translated(p, ex, ey) && t.subset_of(m)
}

/// The offset tried after `(dx, dy)`.
pub open spec fn next_offset(p: Set<int>, dx: int, dy: int) -> (int, int) {
    if fits(p, dx + 1, dy) {
        (dx + 1, dy)
    } else {
        (0, dy + 1)
    }
}

/// How the list of placements unfolds at an offset where `p` fits.
pub proof fn lemma_sub_masks_unfold(m: Set<int>, p: Set<int>, dx: int, dy: int)
    requires
        p.subset_of(board()),
        p != Set::<int>::empty(),
        0 <= dx,
        0 <= dy,
        fits(p, dx, dy),
    ensures
        dx <= 10,
        dy <= 10,
        0 <= next_offset(p, dx, dy).0 <= 10,
        0 <= next_offset(p, dx, dy).1,
        sub_masks_from(m, p, dx, dy) == (if translated(p, dx, dy).subset_of(m) {
            seq![translated(p, dx, dy)]
        } else {
            Seq::empty()
        }) + sub_masks_from(m, p, next_offset(p, dx, dy).0, next_offset(p, dx, dy).1),
{
    lemma_translated_edge(p, dx, dy);
    if fits(p, dx + 1, dy) {
        lemma_translated_edge(p, dx + 1, dy);
    }
}

proof fn lemma_sub_masks_sound(m: Set<int>, p: Set<int>, dx: int, dy: int, k: int)
    requires
        p.subset_of(board()),
        0 <= dx <= 10,
        0 <= dy,
        0 <= k < sub_masks_from(m, p, dx, dy).len(),
    ensures
        placed_after(m, p, sub_masks_from(m, p, dx, dy)[k], dx, dy),
    decreases 11 - dy, 11 - dx,
{
    if !(dy > 10 || p == Set::<int>::empty() || !fits(p, dx, dy)) {
        lemma_sub_masks_unfold(m, p, dx, dy);
        let t = translated(p, dx, dy);
        let (nx, ny) = next_offset(p, dx, dy);
        let skipped: int = if t.subset_of(m) {
            1
        } else {
            0
        };
        if !(k < skipped) {
            lemma_sub_masks_sound(m, p, nx, ny, k - skipped);
        }
    }
}

proof fn lemma_sub_masks_complete(
    m: Set<int>,
    p: Set<int>,
    dx: int,
    dy: int,
    ex: int,
    ey: int,
) -> (k: int)
    requires
        p.subset_of(board()),
        p != Set::<int>::empty(),
        0 <= dx,
        0 <= dy,
        fits(p, dx, dy),
        0 <= ex,
        0 <= ey,
        at_or_after(ex, ey, dx, dy),
        fits(p, ex, ey),
        translated(p, ex, ey).subset_of(m),
    ensures
        0 <= k < sub_masks_from(m, p, dx, dy).len(),
        sub_masks_from(m, p, dx, dy)[k] == translated(p, ex, ey),
    decreases 11 - dy, 11 - dx,
{
    lemma_sub_masks_unfold(m, p, dx, dy);
    let t = translated(p, dx, dy);
    let (nx, ny) = next_offset(p, dx, dy);
    if ex == dx && ey == dy {
        0
    } else {
        let skipped: int = if t.subset_of(m) {
            1
        } else {
            0
        };
        let j = lemma_sub_masks_complete(m, p, nx, ny, ex, ey);
        j + skipped
    }
}

proof fn lemma_sub_masks_least(m: Set<int>, p: Set<int>, dx: int, dy: int)
    requires
        p.subset_of(board()),
        0 <= dx <= 10,
        0 <= dy,
    ensures
        forall|k: int|
            0 <= k < sub_masks_from(m, p, dx, dy).len() ==> least(
                #[trigger] sub_masks_from(m, p, dx, dy)[k],
            ) >= least(p) + dx + 11 * dy,
        forall|k: int, n: int|
            0 <= k < n < sub_masks_from(m, p, dx, dy).len() ==> least(
                #[trigger] sub_masks_from(m, p, dx, dy)[k],
            ) < least(#[trigger] sub_masks_from(m, p, dx, dy)[n]),
    decreases 11 - dy, 11 - dx,
{
    if !(dy > 10 || p == Set::<int>::empty() || !fits(p, dx, dy)) {
        lemma_sub_masks_unfold(m, p, dx, dy);
        let (nx, ny) = next_offset(p, dx, dy);
        lemma_sub_masks_least(m, p, nx, ny);
        lemma_translated_least(p, dx, dy);}
}

/// What `sub_masks` lists is translations of `p` that fit on the board and lie
/// in `m`; each such translation is listed; and none is listed twice.
pub proof fn law_sub_masks(m: Set<int>, p: Set<int>)
    requires
        m.subset_of(board()),
        p.subset_of(board()),
    ensures
        forall|k: int|
            0 <= k < sub_masks(m, p).len() ==> placed_after(m, p, #[trigger] sub_masks(m, p)[k], 0, 0),
        forall|dx: int, dy: int|
            0 <= dx && 0 <= dy && p != Set::<int>::empty() && fits(p, dx, dy) && (
            #[trigger] translated(p, dx, dy)).subset_of(m) ==> sub_masks(m, p).contains(
                translated(p, dx, dy),
            ),
        forall|k: int, n: int|
            0 <= k < n < sub_masks(m, p).len() ==> #[trigger] sub_masks(m, p)[k]
                != #[trigger] sub_masks(m, p)[n],
{
    let all = sub_masks(m, p);
    assert forall|k: int| 0 <= k < all.len() implies placed_after(m, p, #[trigger] all[k], 0, 0) by {
        lemma_sub_masks_sound(m, p, 0, 0, k);
    }
    assert forall|dx: int, dy: int|
        0 <= dx && 0 <= dy && p != Set::<int>::empty() && fits(p, dx, dy) && (
        #[trigger] translated(p, dx, dy)).subset_of(m) implies all.contains(
        translated(p, dx, dy),
    ) by {
        lemma_sub_masks_complete(m, p, 0, 0, dx, dy);
    }
    lemma_sub_masks_least(m, p, 0, 0);
}

} // verus!
