//! Procedural floor generation. A floor is a 61 x 61 grid of tile codes,
//! kept row by row in a flat vector (`h * 61 + w`):
//! 0 nothing, 1 floor, 2 wall or pillar, 3 upstairs, 4 downstairs,
//! 5 mossy pillar; while a floor is being built, rooms and maze corridors
//! carry their own region numbers.
use crate::gamedata::{DEVELOP, MAP_SIZE_H, MAP_SIZE_W};
use crate::random::random_in;
use vstd::prelude::*;

verus! {

/// Number of cells of a floor grid (`MAP_SIZE_W * MAP_SIZE_H`).
pub const MAP_CELLS: usize = 3721;

/// Flat index of the cell in row `h`, column `w`.
pub open spec fn cell(h: int, w: int) -> int {
    h * 61 + w
}

/// The tile code of row `h`, column `w`.
pub open spec fn at(g: Seq<i32>, h: int, w: int) -> i32 {
    g[h * 61 + w]
}

pub open spec fn in_map(h: int, w: int) -> bool {
    0 <= h < 61 && 0 <= w < 61
}

pub open spec fn on_border(h: int, w: int) -> bool {
    h == 0 || h == 60 || w == 0 || w == 60
}

pub open spec fn grid_wf(g: Seq<i32>) -> bool {
    g.len() == MAP_CELLS
}

/// How many cells of `s` hold `v`.
pub open spec fn count_val(s: Seq<i32>, v: i32) -> nat
    decreases s.len(),
{
    if s.len() == 0 {
        0
    } else {
        count_val(s.drop_last(), v) + if s.last() == v { 1nat } else { 0nat }
    }
}

pub proof fn lemma_count_val_update(s: Seq<i32>, i: int, x: i32, v: i32)
    requires
        0 <= i < s.len(),
    ensures
        count_val(s.update(i, x), v) + (if s[i] == v { 1int } else { 0int })
            == count_val(s, v) + (if x == v { 1int } else { 0int }),
    decreases s.len(),
{
    let t = s.update(i, x);
    if i == s.len() - 1 {
        assert(t.drop_last() =~= s.drop_last());
    } else {
        assert(t.drop_last() =~= s.drop_last().update(i, x));
        lemma_count_val_update(s.drop_last(), i, x, v);
    }
}

pub proof fn lemma_cell_inj(r: int, c: int, h: int, w: int)
    requires
        in_map(r, c),
        in_map(h, w),
        cell(r, c) == cell(h, w),
    ensures
        r == h && c == w,
{
}

/// Writing one cell changes that cell only.
pub proof fn lemma_set_cell(g: Seq<i32>, h: int, w: int, v: i32)
    requires
        grid_wf(g),
        in_map(h, w),
    ensures
        grid_wf(g.update(cell(h, w), v)),
        forall|r: int, c: int| in_map(r, c) ==> #[trigger] at(g.update(cell(h, w), v), r, c)
            == if r == h && c == w { v } else { at(g, r, c) },
{
    assert forall|r: int, c: int| in_map(r, c) implies #[trigger] at(g.update(cell(h, w), v), r, c)
        == if r == h && c == w { v } else { at(g, r, c) } by {
        if cell(r, c) == cell(h, w) {
            lemma_cell_inj(r, c, h, w);
        }
    }
}

pub proof fn lemma_cell_bounds(h: int, w: int)
    requires
        in_map(h, w),
    ensures
        0 <= cell(h, w) < MAP_CELLS,
{
}

/// A grid of `MAP_CELLS` zeros.
pub fn zero_grid() -> (g: Vec<i32>)
    ensures
        grid_wf(g@),
        forall|i: int| 0 <= i < g.len() ==> g[i] == 0,
{
    let mut g: Vec<i32> = Vec::new();
    let mut i: usize = 0;
    while i < MAP_CELLS
        invariant
            i <= MAP_CELLS,
            g.len() == i,
            forall|j: int| 0 <= j < g.len() ==> g[j] == 0,
        decreases MAP_CELLS - i,
    {
        g.push(0);
        i += 1;
    }
    g
}

/// The value a cell gets when regions `r1` and `r2` are joined: both become
/// the smaller of the two, every other value stays.
pub open spec fn joined(v: i32, r1: i32, r2: i32) -> i32 {
    if v == r1 || v == r2 {
        if r1 <= r2 { r1 } else { r2 }
    } else {
        v
    }
}

/// A floor cell that is not walled in yet touches floor: some cell of the
/// 3 x 3 block around it (rows and columns up to 59) holds 1.
pub open spec fn near_floor_at(g: Seq<i32>, h: int, w: int, k: int, l: int) -> bool {
    &&& 0 <= h + k - 1
    &&& 0 <= w + l - 1
    &&& h + k < 61
    &&& w + l < 61
    &&& at(g, h + k - 1, w + l - 1) == 1
}

pub open spec fn near_floor(g: Seq<i32>, h: int, w: int) -> bool {
    exists|k: int, l: int| 0 <= k < 3 && 0 <= l < 3 && #[trigger] near_floor_at(g, h, w, k, l)
}

/// The tile a cell holds once walls are raised around the floor.
pub open spec fn walled(g: Seq<i32>, h: int, w: int) -> i32 {
    if at(g, h, w) == 0 && near_floor(g, h, w) { 2 } else { at(g, h, w) }
}

/// How many of the four neighbours of a cell are empty.
pub open spec fn empty_neighbours(g: Seq<i32>, h: int, w: int) -> int {
    (if at(g, h + 1, w) == 0 { 1int } else { 0int })
        + (if at(g, h - 1, w) == 0 { 1int } else { 0int })
        + (if at(g, h, w + 1) == 0 { 1int } else { 0int })
        + (if at(g, h, w - 1) == 0 { 1int } else { 0int })
}

/// A corridor cell with at most one open side.
pub open spec fn dead_end(g: Seq<i32>, h: int, w: int) -> bool {
    at(g, h, w) == 1 && empty_neighbours(g, h, w) >= 3
}

/// `g` with a door (floor, 1) opened at each connector of `ds`.
pub open spec fn open_doors(g: Seq<i32>, ds: Seq<Connector>) -> Seq<i32>
    decreases ds.len(),
{
    if ds.len() == 0 {
        g
    } else {
        open_doors(g, ds.drop_last()).update(cell(ds.last().0 as int, ds.last().1 as int), 1)
    }
}

/// The region numbers of a grid: every number it holds but 0, with 1 (the
/// number doors get) always counted.
pub open spec fn region_labels(g: Seq<i32>) -> Set<i32> {
    g.to_set().insert(1).remove(0)
}

pub proof fn lemma_region_labels_finite(g: Seq<i32>)
    ensures
        region_labels(g).finite(),
        region_labels(g).contains(1),
        region_labels(g).len() >= 1,
{
    vstd::seq_lib::seq_to_set_is_finite(g);
    vstd::set::axiom_set_insert_finite(g.to_set(), 1);
    vstd::set::axiom_set_remove_finite(g.to_set().insert(1), 0);
    vstd::set::axiom_set_remove_len(region_labels(g), 1);
}

/// A round of joining takes away exactly one region number: the larger of
/// the two it joins. Doors only turn empty cells into 1, and 1 is counted
/// already.
pub proof fn lemma_round_drops_label(gd: Seq<i32>, gdoors: Seq<i32>, g2: Seq<i32>, r1: i32, r2: i32, j: int, s: int)
    requires
        gd.len() == MAP_CELLS,
        gdoors.len() == MAP_CELLS,
        g2.len() == MAP_CELLS,
        forall|i: int| 0 <= i < MAP_CELLS ==> #[trigger] gd[i] >= 0,
        forall|i: int| 0 <= i < MAP_CELLS ==> #[trigger] gdoors[i] == gd[i] || (gd[i] == 0 && gdoors[i] == 1),
        forall|i: int| 0 <= i < MAP_CELLS ==> #[trigger] g2[i] == joined(gdoors[i], r1, r2),
        r1 >= 1,
        r2 >= 1,
        r1 != r2,
        0 <= j < MAP_CELLS,
        0 <= s < MAP_CELLS,
        gd[j] == if r1 <= r2 { r2 } else { r1 },
        gd[s] == if r1 <= r2 { r1 } else { r2 },
    ensures
        region_labels(g2) == region_labels(gd).remove(if r1 <= r2 { r2 } else { r1 }),
        region_labels(g2).len() + 1 == region_labels(gd).len(),
{
    let big = if r1 <= r2 { r2 } else { r1 };
    let small = if r1 <= r2 { r1 } else { r2 };
    assert forall|v: i32| region_labels(g2).contains(v) implies region_labels(gd).remove(big).contains(v) by {
        if v != 1 {
            let i = choose|i: int| 0 <= i < g2.len() && g2[i] == v;
            if gdoors[i] == r1 || gdoors[i] == r2 {
                assert(gd[s] == v);
            } else {
                assert(gd[i] == v);
            }
        }
    }
    assert forall|v: i32| region_labels(gd).remove(big).contains(v) implies region_labels(g2).contains(v) by {
        if v != 1 {
            let i = choose|i: int| 0 <= i < gd.len() && gd[i] == v;
            assert(gdoors[i] == v);
            assert(g2[i] == v);
        }
    }
    assert(region_labels(g2) =~= region_labels(gd).remove(big));
    assert(gd[j] == big);
    assert(region_labels(gd).contains(big));
    lemma_region_labels_finite(gd);
    vstd::set::axiom_set_remove_len(region_labels(gd), big);
}

/// One round of joining on `g`: doors at the connectors `ds`, the first
/// being the one chosen, then the two regions that one joins take the
/// smaller of their numbers.
pub open spec fn joined_round(g: Seq<i32>, ds: Seq<Connector>) -> Seq<i32> {
    let d = open_doors(g, ds);
    Seq::new(d.len(), |i: int| joined(d[i], ds[0].2, ds[0].3))
}

/// `g0` after the rounds of joining `rounds`, in order.
pub open spec fn joined_after(g0: Seq<i32>, rounds: Seq<Seq<Connector>>) -> Seq<i32>
    decreases rounds.len(),
{
    if rounds.len() == 0 {
        g0
    } else {
        joined_round(joined_after(g0, rounds.drop_last()), rounds.last())
    }
}

/// Each round opens one to three doors, each at a connector of the grid
/// as that round found it (see `all_connectors`).
pub open spec fn rounds_ok(g0: Seq<i32>, rounds: Seq<Seq<Connector>>) -> bool {
    forall|k: int| 0 <= k < rounds.len() ==> 1 <= (#[trigger] rounds[k]).len() <= 3
        && forall|i: int| 0 <= i < rounds[k].len() ==> all_connectors(joined_after(g0, rounds.take(k))).contains(#[trigger] rounds[k][i])
}

pub proof fn lemma_open_doors_push(g: Seq<i32>, ds: Seq<Connector>, d: Connector)
    ensures
        open_doors(g, ds.push(d)) == open_doors(g, ds).update(cell(d.0 as int, d.1 as int), 1),
{
    assert(ds.push(d).drop_last() =~= ds);
}

pub proof fn lemma_rounds_push(g0: Seq<i32>, rounds: Seq<Seq<Connector>>, ds: Seq<Connector>)
    requires
        rounds_ok(g0, rounds),
        1 <= ds.len() <= 3,
        forall|i: int| 0 <= i < ds.len() ==> all_connectors(joined_after(g0, rounds)).contains(#[trigger] ds[i]),
    ensures
        rounds_ok(g0, rounds.push(ds)),
        joined_after(g0, rounds.push(ds)) == joined_round(joined_after(g0, rounds), ds),
{
    let r2 = rounds.push(ds);
    assert(r2.drop_last() =~= rounds);
    assert forall|k: int| 0 <= k < r2.len() implies 1 <= (#[trigger] r2[k]).len() <= 3
        && forall|i: int| 0 <= i < r2[k].len() ==> all_connectors(joined_after(g0, r2.take(k))).contains(#[trigger] r2[k][i]) by {
        if k < rounds.len() {
            assert(r2.take(k) =~= rounds.take(k));
            assert(r2[k] == rounds[k]);
        } else {
            assert(r2.take(k) =~= rounds);
            assert(r2[k] == ds);
        }
    }
}

/// `g` with the cells of `rm` emptied in order.
pub open spec fn unfill(g: Seq<i32>, rm: Seq<(int, int)>) -> Seq<i32>
    decreases rm.len(),
{
    if rm.len() == 0 {
        g
    } else {
        unfill(g, rm.drop_last()).update(cell(rm.last().0, rm.last().1), 0)
    }
}

/// Each cell of `rm` was a dead end when it was emptied, the cells before
/// it emptied already.
pub open spec fn dead_ends_removed(g: Seq<i32>, rm: Seq<(int, int)>) -> bool {
    forall|k: int| 0 <= k < rm.len() ==> in_map((#[trigger] rm[k]).0, rm[k].1) && dead_end(unfill(g, rm.take(k)), rm[k].0, rm[k].1)
}

pub proof fn lemma_dead_ends_removed_push(g: Seq<i32>, rm: Seq<(int, int)>, h: int, w: int)
    requires
        dead_ends_removed(g, rm),
        in_map(h, w),
        dead_end(unfill(g, rm), h, w),
    ensures
        dead_ends_removed(g, rm.push((h, w))),
        unfill(g, rm.push((h, w))) == unfill(g, rm).update(cell(h, w), 0),
{
    let r2 = rm.push((h, w));
    assert(r2.drop_last() =~= rm);
    assert forall|k: int| 0 <= k < r2.len() implies in_map((#[trigger] r2[k]).0, r2[k].1)
        && dead_end(unfill(g, r2.take(k)), r2[k].0, r2[k].1) by {
        if k < rm.len() {
            assert(r2.take(k) =~= rm.take(k));
            assert(r2[k] == rm[k]);
        } else {
            assert(r2.take(k) =~= rm);
        }
    }
}

/// A door candidate: the empty cell `(row, column)` between two regions,
/// and the numbers of the two regions it would join.
pub type Connector = (usize, usize, i32, i32);

/// What the scan of cell `(h, w)` finds when it looks two cells away in
/// direction `(k - 1, l - 1)`: first along the column, then along the row.
pub open spec fn connector_at(g: Seq<i32>, h: int, w: int, k: int, l: int) -> Option<Connector> {
    if at(g, h, w) == 0 || h + 2 * k - 2 < 0 || w + 2 * l - 2 < 0 || h + 2 * k - 2 >= 61 || w + 2 * l - 2 >= 61 {
        None
    } else if at(g, h + k - 1, w) == 0 && at(g, h + 2 * k - 2, w) != 0 {
        if at(g, h + 2 * k - 2, w) != at(g, h, w) {
            Some(((h + k - 1) as usize, w as usize, at(g, h + 2 * k - 2, w), at(g, h, w)))
        } else {
            None
        }
    } else if at(g, h, w + l - 1) == 0 && at(g, h, w + 2 * l - 2) != 0 {
        if at(g, h, w + 2 * l - 2) != at(g, h, w) {
            Some((h as usize, (w + l - 1) as usize, at(g, h, w + 2 * l - 2), at(g, h, w)))
        } else {
            None
        }
    } else {
        None
    }
}

pub open spec fn opt_seq(o: Option<Connector>) -> Seq<Connector> {
    match o {
        Some(x) => seq![x],
        None => Seq::empty(),
    }
}

pub open spec fn conns_l(g: Seq<i32>, h: int, w: int, k: int, l: int) -> Seq<Connector>
    decreases l,
{
    if l <= 0 {
        Seq::empty()
    } else {
        conns_l(g, h, w, k, l - 1) + opt_seq(connector_at(g, h, w, k, l - 1))
    }
}

pub open spec fn conns_k(g: Seq<i32>, h: int, w: int, k: int) -> Seq<Connector>
    decreases k,
{
    if k <= 0 {
        Seq::empty()
    } else {
        conns_k(g, h, w, k - 1) + conns_l(g, h, w, k - 1, 3)
    }
}

pub open spec fn conns_w(g: Seq<i32>, h: int, w: int) -> Seq<Connector>
    decreases w,
{
    if w <= 0 {
        Seq::empty()
    } else {
        conns_w(g, h, w - 1) + conns_k(g, h, w - 1, 3)
    }
}

pub open spec fn conns_h(g: Seq<i32>, h: int) -> Seq<Connector>
    decreases h,
{
    if h <= 0 {
        Seq::empty()
    } else {
        conns_h(g, h - 1) + conns_w(g, h - 1, 61)
    }
}

/// Every door candidate of a grid, in scan order (cells row by row, and
/// for each cell the nine directions); a candidate is listed once for each
/// direction that finds it.
pub open spec fn all_connectors(g: Seq<i32>) -> Seq<Connector> {
    conns_h(g, 61)
}

/// A door candidate sits on an empty cell whose two opposite neighbours, in
/// a column or in a row, belong to two different regions.
pub open spec fn conn_ok(g: Seq<i32>, e: Connector) -> bool {
    let cy = e.0 as int;
    let cx = e.1 as int;
    &&& in_map(cy, cx)
    &&& at(g, cy, cx) == 0
    &&& e.2 != 0
    &&& e.3 != 0
    &&& e.2 != e.3
    &&& {
        ||| (1 <= cy <= 59 && ((at(g, cy - 1, cx) == e.2 && at(g, cy + 1, cx) == e.3)
            || (at(g, cy - 1, cx) == e.3 && at(g, cy + 1, cx) == e.2)))
        ||| (1 <= cx <= 59 && ((at(g, cy, cx - 1) == e.2 && at(g, cy, cx + 1) == e.3)
            || (at(g, cy, cx - 1) == e.3 && at(g, cy, cx + 1) == e.2)))
    }
}

/// How far a region number is above the first region.
pub open spec fn excess(v: i32) -> nat {
    if v > 1 { (v - 1) as nat } else { 0 }
}

/// The sum of `excess` over a grid; joining two regions lowers it.
pub open spec fn excess_sum(s: Seq<i32>) -> nat
    decreases s.len(),
{
    if s.len() == 0 {
        0
    } else {
        excess_sum(s.drop_last()) + excess(s.last())
    }
}

pub proof fn lemma_excess_sum_le(s: Seq<i32>, t: Seq<i32>)
    requires
        s.len() == t.len(),
        forall|i: int| 0 <= i < s.len() ==> excess(#[trigger] t[i]) <= excess(s[i]),
    ensures
        excess_sum(t) <= excess_sum(s),
    decreases s.len(),
{
    if s.len() > 0 {
        lemma_excess_sum_le(s.drop_last(), t.drop_last());
    }
}

pub proof fn lemma_excess_sum_lt(s: Seq<i32>, t: Seq<i32>, j: int)
    requires
        s.len() == t.len(),
        forall|i: int| 0 <= i < s.len() ==> excess(#[trigger] t[i]) <= excess(s[i]),
        0 <= j < s.len(),
        excess(t[j]) < excess(s[j]),
    ensures
        excess_sum(t) < excess_sum(s),
    decreases s.len(),
{
    if j == s.len() - 1 {
        lemma_excess_sum_le(s.drop_last(), t.drop_last());
    } else {
        lemma_excess_sum_lt(s.drop_last(), t.drop_last(), j);
    }
}

/// A point of the maze walk: row, column, the directions already tried
/// (north, east, south, west) and how many are left to try.
pub type MazeStep = (usize, usize, (bool, bool, bool, bool), i32);

pub open spec fn untried(f: (bool, bool, bool, bool)) -> int {
    (if f.0 { 0int } else { 1int }) + (if f.1 { 0int } else { 1int })
        + (if f.2 { 0int } else { 1int }) + (if f.3 { 0int } else { 1int })
}

/// Maze points lie on odd rows and columns inside the border, and count
/// the directions they have left exactly.
pub open spec fn step_ok(e: MazeStep) -> bool {
    &&& e.0 % 2 == 1
    &&& e.1 % 2 == 1
    &&& 1 <= e.0 <= 59
    &&& 1 <= e.1 <= 59
    &&& e.3 == untried(e.2)
}

/// The cell `n` steps from (`y`, `x`) towards `d`: 0 north, 1 east,
/// 2 south, 3 west.
pub open spec fn step_to(y: int, x: int, d: int, n: int) -> (int, int) {
    if d == 0 {
        (y - n, x)
    } else if d == 1 {
        (y, x + n)
    } else if d == 2 {
        (y + n, x)
    } else {
        (y, x - n)
    }
}

/// A maze can no longer grow from (`y`, `x`) towards `d`: the cell two
/// steps that way is taken, or lies outside rows and columns 1 to 59.
pub open spec fn side_closed(g: Seq<i32>, y: int, x: int, d: int) -> bool {
    let t = step_to(y, x, d, 2);
    !(1 <= t.0 <= 59 && 1 <= t.1 <= 59) || at(g, t.0, t.1) != 0
}

/// A maze can no longer grow from (`y`, `x`) in any direction.
pub open spec fn maze_done(g: Seq<i32>, y: int, x: int) -> bool {
    &&& side_closed(g, y, x, 0)
    &&& side_closed(g, y, x, 1)
    &&& side_closed(g, y, x, 2)
    &&& side_closed(g, y, x, 3)
}

/// Every direction that the maze point `s` marks as tried is closed.
pub open spec fn tried_closed(g: Seq<i32>, s: MazeStep) -> bool {
    &&& s.2.0 ==> side_closed(g, s.0 as int, s.1 as int, 0)
    &&& s.2.1 ==> side_closed(g, s.0 as int, s.1 as int, 1)
    &&& s.2.2 ==> side_closed(g, s.0 as int, s.1 as int, 2)
    &&& s.2.3 ==> side_closed(g, s.0 as int, s.1 as int, 3)
}

/// Cells taken in `g` are still taken in `g2`.
pub open spec fn still_taken(g: Seq<i32>, g2: Seq<i32>) -> bool {
    forall|h: int, w: int| in_map(h, w) && at(g, h, w) != 0 ==> #[trigger] at(g2, h, w) != 0
}

/// The maze points that a carve from `start` reached: the start and every
/// odd cell that was empty in `m0` and holds the maze's number `v` in `g`.
pub open spec fn maze_visited(m0: Seq<i32>, g: Seq<i32>, start: MazeStep, v: i32, h: int, w: int) -> bool {
    &&& 1 <= h <= 59
    &&& 1 <= w <= 59
    &&& h % 2 == 1
    &&& w % 2 == 1
    &&& ((h == start.0 as int && w == start.1 as int) || (at(m0, h, w) == 0 && at(g, h, w) == v))
}

/// Some maze point among `r[1..=rl]` sits at (`h`, `w`).
pub open spec fn on_stack(r: Seq<MazeStep>, rl: int, h: int, w: int) -> bool {
    exists|k: int| 1 <= k <= rl && (#[trigger] r[k]).0 as int == h && r[k].1 as int == w
}

/// Regions sit on odd rows and columns, as rooms and mazes do: inside
/// the border, a taken cell on an even row has taken cells above and below
/// it, and one on an even column has taken cells left and right of it.
pub open spec fn odd_closed(g: Seq<i32>) -> bool {
    forall|h: int, w: int| 1 <= h <= 59 && 1 <= w <= 59 && #[trigger] at(g, h, w) != 0 ==>
        (h % 2 == 0 ==> at(g, h - 1, w) != 0 && at(g, h + 1, w) != 0)
        && (w % 2 == 0 ==> at(g, h, w - 1) != 0 && at(g, h, w + 1) != 0)
}

/// Two maze points sit on the same cell.
pub open spec fn same_point(a: MazeStep, b: MazeStep) -> bool {
    a.0 == b.0 && a.1 == b.1
}

/// As `odd_closed`, except for cells holding `v`: every other taken cell
/// on an even row (column) inside the border has taken cells above and
/// below (left and right of) it.
pub open spec fn weak_closed(g: Seq<i32>, v: i32) -> bool {
    forall|h: int, w: int| 1 <= h <= 59 && 1 <= w <= 59 && #[trigger] at(g, h, w) != 0 && at(g, h, w) != v ==>
        (h % 2 == 0 ==> at(g, h - 1, w) != 0 && at(g, h + 1, w) != 0)
        && (w % 2 == 0 ==> at(g, h, w - 1) != 0 && at(g, h, w + 1) != 0)
}

/// The flags of a maze point just reached by a step towards `d`: the way
/// back is tried.
pub open spec fn back_flags(d: int) -> (bool, bool, bool, bool) {
    if d == 0 {
        (false, false, true, false)
    } else if d == 1 {
        (false, false, false, true)
    } else if d == 2 {
        (true, false, false, false)
    } else {
        (false, true, false, false)
    }
}

pub open spec fn flag(f: (bool, bool, bool, bool), d: int) -> bool {
    if d == 0 { f.0 } else if d == 1 { f.1 } else if d == 2 { f.2 } else { f.3 }
}

pub proof fn lemma_still_taken_closed(g: Seq<i32>, g2: Seq<i32>, y: int, x: int)
    requires
        still_taken(g, g2),
    ensures
        forall|d: int| side_closed(g, y, x, d) ==> #[trigger] side_closed(g2, y, x, d),
        maze_done(g, y, x) ==> maze_done(g2, y, x),
        forall|s: MazeStep| s.0 as int == y && s.1 as int == x && tried_closed(g, s) ==> #[trigger] tried_closed(g2, s),
{
    assert forall|d: int| side_closed(g, y, x, d) implies #[trigger] side_closed(g2, y, x, d) by {
        let t = step_to(y, x, d, 2);
        if 1 <= t.0 <= 59 && 1 <= t.1 <= 59 {
            assert(in_map(t.0, t.1));
        }
    }
    assert(side_closed(g, y, x, 0) ==> side_closed(g2, y, x, 0));
    assert(side_closed(g, y, x, 1) ==> side_closed(g2, y, x, 1));
    assert(side_closed(g, y, x, 2) ==> side_closed(g2, y, x, 2));
    assert(side_closed(g, y, x, 3) ==> side_closed(g2, y, x, 3));
}

/// Writing a non-zero value keeps every taken cell taken.
pub proof fn lemma_set_taken(g: Seq<i32>, h: int, w: int, v: i32)
    requires
        grid_wf(g),
        in_map(h, w),
        v != 0,
    ensures
        still_taken(g, g.update(cell(h, w), v)),
{
    lemma_set_cell(g, h, w, v);
}

pub proof fn lemma_still_taken_trans(a: Seq<i32>, b: Seq<i32>, c: Seq<i32>)
    requires
        still_taken(a, b),
        still_taken(b, c),
    ensures
        still_taken(a, c),
{
    assert forall|h: int, w: int| in_map(h, w) && at(a, h, w) != 0 implies #[trigger] at(c, h, w) != 0 by {
        assert(at(b, h, w) != 0);
    }
}

/// Taking one odd cell keeps regions on odd rows and columns and changes
/// only that cell.
pub proof fn lemma_start_cell(m0: Seq<i32>, g: Seq<i32>, sy: int, sx: int, v: i32)
    requires
        grid_wf(m0),
        1 <= sy <= 59,
        1 <= sx <= 59,
        sy % 2 == 1,
        sx % 2 == 1,
        v >= 1,
        g == m0.update(cell(sy, sx), v),
    ensures
        still_taken(m0, g),
        odd_closed(m0) && at(m0, sy, sx) == 0 ==> {
            &&& odd_closed(g)
            &&& forall|i: int| 0 <= i < MAP_CELLS && #[trigger] g[i] != m0[i] ==> m0[i] == 0
        },
{
    lemma_set_taken(m0, sy, sx, v);
    lemma_set_cell(m0, sy, sx, v);
    if odd_closed(m0) && at(m0, sy, sx) == 0 {
        assert forall|h: int, w: int| 1 <= h <= 59 && 1 <= w <= 59 && #[trigger] at(g, h, w) != 0 implies
            (h % 2 == 0 ==> at(g, h - 1, w) != 0 && at(g, h + 1, w) != 0)
            && (w % 2 == 0 ==> at(g, h, w - 1) != 0 && at(g, h, w + 1) != 0) by {
            if !(h == sy && w == sx) {
                assert(at(m0, h, w) != 0);
                if h % 2 == 0 {
                    assert(in_map(h - 1, w) && in_map(h + 1, w));
                    assert(at(m0, h - 1, w) != 0 && at(m0, h + 1, w) != 0);
                }
                if w % 2 == 0 {
                    assert(in_map(h, w - 1) && in_map(h, w + 1));
                    assert(at(m0, h, w - 1) != 0 && at(m0, h, w + 1) != 0);
                }
            }
        }
        assert forall|i: int| 0 <= i < MAP_CELLS && #[trigger] g[i] != m0[i] implies m0[i] == 0 by {
            lemma_cell_bounds(sy, sx);
        }
    }
}

/// What `build_maze` maintains while it carves from `start` with number
/// `v`, the points `r[1..=rl]` still to finish: taken cells stay taken;
/// when the points to finish were taken or the start (`nz`), they still
/// are; when the stack started from the start alone (`single`), they hold
/// `v`; when no tried direction was open either (`honest`), every tried
/// direction of a point to finish is closed and every point reached is
/// still to finish or has no direction left. When regions sat on odd rows
/// and columns and the start was empty, only empty cells have changed and
/// every other taken cell still sits as `weak_closed` asks, and with the
/// start alone regions still sit on odd rows and columns.
#[verifier::opaque]
pub open spec fn carve_inv(
    m0: Seq<i32>,
    g: Seq<i32>,
    r: Seq<MazeStep>,
    rl: int,
    start: MazeStep,
    v: i32,
    honest: bool,
    single: bool,
    nz: bool,
) -> bool {
    &&& still_taken(m0, g)
    &&& nz ==> forall|k: int| 1 <= k <= rl ==> at(g, (#[trigger] r[k]).0 as int, r[k].1 as int) != 0
    &&& honest ==> forall|k: int| 1 <= k <= rl ==> #[trigger] tried_closed(g, r[k])
    &&& single ==> forall|k: int| 1 <= k <= rl ==> at(g, (#[trigger] r[k]).0 as int, r[k].1 as int) == v
    &&& honest ==> forall|h: int, w: int| #[trigger] maze_visited(m0, g, start, v, h, w)
        ==> on_stack(r, rl, h, w) || maze_done(g, h, w)
    &&& odd_closed(m0) && at(m0, start.0 as int, start.1 as int) == 0 ==> {
        &&& weak_closed(g, v)
        &&& forall|i: int| 0 <= i < MAP_CELLS && #[trigger] g[i] != m0[i] ==> m0[i] == 0
    }
    &&& single && odd_closed(m0) && at(m0, start.0 as int, start.1 as int) == 0 ==> odd_closed(g)
}

/// `p` lies two cells from `t` along a row or a column.
pub open spec fn two_apart(t: (int, int), p: (int, int)) -> bool {
    (p.0 == t.0 && (p.1 == t.1 + 2 || p.1 == t.1 - 2)) || (p.1 == t.1 && (p.0 == t.0 + 2 || p.0 == t.0 - 2))
}

/// The cell halfway between `t` and `p`.
pub open spec fn halfway(t: (int, int), p: (int, int)) -> (int, int) {
    ((t.0 + p.0) / 2, (t.1 + p.1) / 2)
}

/// `c` is the cell of one of the points the carve started from: the start
/// or another point of the stack it was given (the first entry excepted).
pub open spec fn carve_root(r0: Seq<MazeStep>, c: (int, int)) -> bool {
    exists|k: int| (1 <= k < r0.len() || k == r0.len() - 1) && (#[trigger] r0[k]).0 as int == c.0 && r0[k].1 as int == c.1
}

/// The cells a carve changed form a forest hanging from the points it
/// started from: every changed odd cell other than the start has a parent
/// two cells away, still taken, joined to it through a cell holding `v`;
/// a parent that was carved too was carved earlier (lower `rank`), and
/// one that was not is a starting point; every other changed cell is the
/// cell halfway between a changed odd cell and its parent.
pub open spec fn maze_forest(
    m0: Seq<i32>,
    g: Seq<i32>,
    r0: Seq<MazeStep>,
    v: i32,
    parent: Map<(int, int), (int, int)>,
    rank: Map<(int, int), int>,
) -> bool {
    &&& forall|h: int, w: int| in_map(h, w) && h % 2 == 1 && w % 2 == 1 && #[trigger] at(g, h, w) != at(m0, h, w)
        && !(h == r0.last().0 as int && w == r0.last().1 as int) ==> {
        let p = parent[(h, w)];
        &&& parent.dom().contains((h, w))
        &&& rank.dom().contains((h, w))
        &&& two_apart((h, w), p)
        &&& in_map(p.0, p.1)
        &&& at(g, p.0, p.1) != 0
        &&& at(g, halfway((h, w), p).0, halfway((h, w), p).1) == v
        &&& rank.dom().contains(p) ==> rank[p] < rank[(h, w)]
        &&& !rank.dom().contains(p) ==> carve_root(r0, p)
    }
    &&& forall|h: int, w: int| in_map(h, w) && !(h % 2 == 1 && w % 2 == 1) && #[trigger] at(g, h, w) != at(m0, h, w)
        ==> exists|t: (int, int)| #[trigger] parent.dom().contains(t) && at(g, t.0, t.1) != at(m0, t.0, t.1)
            && t.0 % 2 == 1 && t.1 % 2 == 1 && halfway(t, parent[t]) == (h, w)
}

/// `maze_forest` while carving, with the ranks given so far below `cnt`,
/// only changed odd cells ranked, and every point still to finish either a
/// starting point or ranked.
#[verifier::opaque]
pub open spec fn carve_tree(
    m0: Seq<i32>,
    g: Seq<i32>,
    r: Seq<MazeStep>,
    rl: int,
    r0: Seq<MazeStep>,
    v: i32,
    parent: Map<(int, int), (int, int)>,
    rank: Map<(int, int), int>,
    cnt: int,
) -> bool {
    &&& maze_forest(m0, g, r0, v, parent, rank)
    &&& parent.dom() == rank.dom()
    &&& forall|c: (int, int)| #[trigger] rank.dom().contains(c) ==> rank[c] < cnt && in_map(c.0, c.1)
        && at(g, c.0, c.1) != at(m0, c.0, c.1)
    &&& forall|k: int| 1 <= k <= rl ==> carve_root(r0, ((#[trigger] r[k]).0 as int, r[k].1 as int))
        || rank.dom().contains((r[k].0 as int, r[k].1 as int))
}

/// One round of the carve keeps the changed cells a forest (see
/// `carve_tree`): a new point gets the point it was carved from as its
/// parent and the next rank.
#[verifier::spinoff_prover]
#[verifier::rlimit(40)]
pub proof fn lemma_maze_step_tree(
    m0: Seq<i32>,
    g_before: Seq<i32>,
    g_mid: Seq<i32>,
    g_after: Seq<i32>,
    r_before: Seq<MazeStep>,
    r_mid: Seq<MazeStep>,
    r_after: Seq<MazeStep>,
    rl0: int,
    rl1: int,
    top2: MazeStep,
    dir_g: int,
    update: bool,
    ty: int,
    tx: int,
    v: i32,
    r0: Seq<MazeStep>,
    parent: Map<(int, int), (int, int)>,
    rank: Map<(int, int), int>,
    cnt: int,
    honest: bool,
    single: bool,
)
    requires
        grid_wf(m0),
        grid_wf(g_before),
        v >= 1,
        1 <= rl0,
        r_before.len() == rl0 + 1,
        r0.len() >= 1,
        step_ok(r0.last()),
        at(g_before, r0.last().0 as int, r0.last().1 as int) == v,
        forall|i: int| 0 <= i < r_before.len() ==> step_ok(#[trigger] r_before[i]),
        forall|i: int| 0 <= i < MAP_CELLS ==> #[trigger] g_before[i] == m0[i] || g_before[i] == v,
        carve_inv(m0, g_before, r_before, rl0, r0.last(), v, honest, single, true),
        carve_tree(m0, g_before, r_before, rl0, r0, v, parent, rank, cnt),
        top2 == r_mid[rl0],
        top2.0 == r_before[rl0].0,
        top2.1 == r_before[rl0].1,
        !update ==> g_mid == g_before && r_mid == r_before.update(rl0, top2),
        update ==> {
            &&& 0 <= dir_g < 4
            &&& (ty, tx) == step_to(r_before[rl0].0 as int, r_before[rl0].1 as int, dir_g, 2)
            &&& 1 <= ty <= 59 && 1 <= tx <= 59
            &&& at(g_before, ty, tx) == 0
            &&& g_mid == g_before.update(cell(step_to(r_before[rl0].0 as int, r_before[rl0].1 as int, dir_g, 1).0,
                step_to(r_before[rl0].0 as int, r_before[rl0].1 as int, dir_g, 1).1), v)
            &&& r_mid == r_before.update(rl0, top2).push((ty as usize, tx as usize, back_flags(dir_g), 3))
            &&& g_after == g_mid.update(cell(ty, tx), v)
            &&& r_after == r_mid
            &&& rl1 == rl0 + 1
        },
        !update && top2.3 == 0 ==> r_after == r_mid.drop_last() && rl1 == rl0 - 1 && g_after == g_mid,
        !update && top2.3 != 0 ==> r_after == r_mid && rl1 == rl0 && g_after == g_mid,
    ensures
        update ==> carve_tree(m0, g_after, r_after, rl1, r0, v,
            parent.insert((ty, tx), (r_before[rl0].0 as int, r_before[rl0].1 as int)), rank.insert((ty, tx), cnt), cnt + 1),
        !update ==> carve_tree(m0, g_after, r_after, rl1, r0, v, parent, rank, cnt),
{
    reveal(carve_tree);
    reveal(carve_inv);
    let oy = r_before[rl0].0 as int;
    let ox = r_before[rl0].1 as int;
    let c = (oy, ox);
    assert(step_ok(r_before[rl0]));
    let sy = r0.last().0 as int;
    let sx = r0.last().1 as int;
    if update {
        let b = step_to(oy, ox, dir_g, 1);
        let t = (ty, tx);
        assert(in_map(b.0, b.1));
        assert(in_map(ty, tx));
        lemma_set_cell(g_before, b.0, b.1, v);
        lemma_set_cell(g_mid, ty, tx, v);
        lemma_cell_bounds(ty, tx);
        lemma_cell_bounds(b.0, b.1);
        assert(at(m0, ty, tx) == 0) by {
            assert(g_before[cell(ty, tx)] == m0[cell(ty, tx)] || g_before[cell(ty, tx)] == v);
        }
        assert(at(g_after, ty, tx) == v);
        assert(at(g_after, b.0, b.1) == v);
        assert(at(g_before, oy, ox) != 0);
        assert(halfway(t, c) == b);
        assert(two_apart(t, c));
        assert(!(b.0 % 2 == 1 && b.1 % 2 == 1));
        let par2 = parent.insert(t, c);
        let rank2 = rank.insert(t, cnt);
        // the new point is nobody's parent and was not ranked: it was empty
        assert(!rank.dom().contains(t));
        assert forall|h: int, w: int| in_map(h, w) && !(h == b.0 && w == b.1) && !(h == ty && w == tx)
            implies #[trigger] at(g_after, h, w) == at(g_before, h, w) by {}
        assert forall|h: int, w: int| in_map(h, w) && h % 2 == 1 && w % 2 == 1 && #[trigger] at(g_after, h, w) != at(m0, h, w)
            && !(h == sy && w == sx) implies {
            let p = par2[(h, w)];
            &&& par2.dom().contains((h, w))
            &&& rank2.dom().contains((h, w))
            &&& two_apart((h, w), p)
            &&& in_map(p.0, p.1)
            &&& at(g_after, p.0, p.1) != 0
            &&& at(g_after, halfway((h, w), p).0, halfway((h, w), p).1) == v
            &&& rank2.dom().contains(p) ==> rank2[p] < rank2[(h, w)]
            &&& !rank2.dom().contains(p) ==> carve_root(r0, p)
        } by {
            if h == ty && w == tx {
                assert(par2[(h, w)] == c);
                assert(at(g_after, oy, ox) != 0);
                if rank.dom().contains(c) {
                    assert(rank[c] < cnt);
                } else {
                    assert(carve_root(r0, (r_before[rl0].0 as int, r_before[rl0].1 as int)));
                }
            } else {
                assert(!(h == b.0 && w == b.1));
                assert(at(g_before, h, w) != at(m0, h, w));
                let p = parent[(h, w)];
                assert(parent.dom().contains((h, w)));
                assert(at(g_before, p.0, p.1) != 0);
                assert(p != t);
                assert(par2[(h, w)] == p);
                assert(at(g_after, p.0, p.1) != 0) by {
                    if !(p.0 == b.0 && p.1 == b.1) {
                        assert(at(g_after, p.0, p.1) == at(g_before, p.0, p.1));
                    }
                }
                let hw = halfway((h, w), p);
                assert(at(g_before, hw.0, hw.1) == v);
                assert(two_apart((h, w), p));
                assert(in_map(hw.0, hw.1));
                assert(at(g_after, hw.0, hw.1) == v) by {
                    if !(hw.0 == b.0 && hw.1 == b.1) && !(hw.0 == ty && hw.1 == tx) {
                        assert(at(g_after, hw.0, hw.1) == at(g_before, hw.0, hw.1));
                    }
                }
            }
        }
        assert forall|h: int, w: int| in_map(h, w) && !(h % 2 == 1 && w % 2 == 1) && #[trigger] at(g_after, h, w) != at(m0, h, w)
            implies exists|t2: (int, int)| #[trigger] par2.dom().contains(t2) && at(g_after, t2.0, t2.1) != at(m0, t2.0, t2.1)
                && t2.0 % 2 == 1 && t2.1 % 2 == 1 && halfway(t2, par2[t2]) == (h, w) by {
            if h == b.0 && w == b.1 {
                assert(par2.dom().contains(t) && at(g_after, t.0, t.1) != at(m0, t.0, t.1)
                    && t.0 % 2 == 1 && t.1 % 2 == 1 && halfway(t, par2[t]) == (h, w));
            } else {
                assert(at(g_before, h, w) != at(m0, h, w));
                let t2 = choose|t2: (int, int)| #[trigger] parent.dom().contains(t2) && at(g_before, t2.0, t2.1) != at(m0, t2.0, t2.1)
                    && t2.0 % 2 == 1 && t2.1 % 2 == 1 && halfway(t2, parent[t2]) == (h, w);
                assert(rank.dom().contains(t2));
                assert(in_map(t2.0, t2.1));
                assert(t2 != t);
                assert(!(t2.0 == b.0 && t2.1 == b.1));
                assert(at(g_after, t2.0, t2.1) == at(g_before, t2.0, t2.1));
                assert(par2[t2] == parent[t2]);
                assert(par2.dom().contains(t2) && at(g_after, t2.0, t2.1) != at(m0, t2.0, t2.1)
                    && t2.0 % 2 == 1 && t2.1 % 2 == 1 && halfway(t2, par2[t2]) == (h, w));
            }
        }
        assert(maze_forest(m0, g_after, r0, v, par2, rank2));
        assert(par2.dom() =~= rank2.dom());
        assert forall|c2: (int, int)| #[trigger] rank2.dom().contains(c2) implies rank2[c2] < cnt + 1 && in_map(c2.0, c2.1)
            && at(g_after, c2.0, c2.1) != at(m0, c2.0, c2.1) by {
            if c2 != t {
                assert(rank.dom().contains(c2));
                assert(in_map(c2.0, c2.1));
                assert(at(g_before, c2.0, c2.1) != at(m0, c2.0, c2.1));
                if c2.0 == b.0 && c2.1 == b.1 {
                    // a changed cell holds v, as b does now
                    assert(g_before[cell(b.0, b.1)] == m0[cell(b.0, b.1)] || g_before[cell(b.0, b.1)] == v);
                } else {
                    assert(at(g_after, c2.0, c2.1) == at(g_before, c2.0, c2.1));
                }
            }
        }
        assert forall|k: int| 1 <= k <= rl1 implies carve_root(r0, ((#[trigger] r_after[k]).0 as int, r_after[k].1 as int))
            || rank2.dom().contains((r_after[k].0 as int, r_after[k].1 as int)) by {
            if k < rl0 {
                assert(r_after[k] == r_before[k]);
            } else if k == rl0 {
                assert(r_after[k] == top2);
            } else {
                assert(r_after[k] == (ty as usize, tx as usize, back_flags(dir_g), 3i32));
            }
        }
    } else {
        assert(g_after == g_before);
        assert forall|k: int| 1 <= k <= rl1 implies carve_root(r0, ((#[trigger] r_after[k]).0 as int, r_after[k].1 as int))
            || rank.dom().contains((r_after[k].0 as int, r_after[k].1 as int)) by {
            if k < rl0 {
                assert(r_after[k] == r_before[k]);
            } else {
                assert(r_after[k] == top2);
            }
        }
    }
}

/// Cells `a` and `b` share a side.
pub open spec fn side_by_side(a: (int, int), b: (int, int)) -> bool {
    (a.0 == b.0 && (a.1 - b.1 == 1 || b.1 - a.1 == 1)) || (a.1 == b.1 && (a.0 - b.0 == 1 || b.0 - a.0 == 1))
}

/// `path` walks from `from` to `to` through cells holding `v`, one side at
/// a time.
pub open spec fn walk(g: Seq<i32>, v: i32, path: Seq<(int, int)>, from: (int, int), to: (int, int)) -> bool {
    &&& path.len() >= 1
    &&& path[0] == from
    &&& path.last() == to
    &&& forall|k: int| 0 <= k < path.len() ==> in_map((#[trigger] path[k]).0, path[k].1) && at(g, path[k].0, path[k].1) == v
    &&& forall|k: int| 0 <= k < path.len() - 1 ==> side_by_side(#[trigger] path[k], path[k + 1])
}

/// `to` can be reached from `from` through cells holding `v`.
pub open spec fn joined_to(g: Seq<i32>, v: i32, from: (int, int), to: (int, int)) -> bool {
    exists|path: Seq<(int, int)>| #[trigger] walk(g, v, path, from, to)
}

/// Cells holding `v` in `g` still hold it in `g2`.
pub open spec fn keeps(g: Seq<i32>, g2: Seq<i32>, v: i32) -> bool {
    forall|h: int, w: int| in_map(h, w) && at(g, h, w) == v ==> #[trigger] at(g2, h, w) == v
}

pub proof fn lemma_joined_kept(g: Seq<i32>, g2: Seq<i32>, v: i32, from: (int, int), to: (int, int))
    requires
        joined_to(g, v, from, to),
        keeps(g, g2, v),
    ensures
        joined_to(g2, v, from, to),
{
    let path = choose|path: Seq<(int, int)>| #[trigger] walk(g, v, path, from, to);
    assert forall|k: int| 0 <= k < path.len() implies in_map((#[trigger] path[k]).0, path[k].1) && at(g2, path[k].0, path[k].1) == v by {
        assert(at(g, path[k].0, path[k].1) == v);
    }
    assert(walk(g2, v, path, from, to));
}

pub proof fn lemma_joined_step(g: Seq<i32>, v: i32, from: (int, int), a: (int, int), b: (int, int))
    requires
        joined_to(g, v, from, a),
        side_by_side(a, b),
        in_map(b.0, b.1),
        at(g, b.0, b.1) == v,
    ensures
        joined_to(g, v, from, b),
{
    let path = choose|path: Seq<(int, int)>| #[trigger] walk(g, v, path, from, a);
    let p2 = path.push(b);
    assert forall|k: int| 0 <= k < p2.len() - 1 implies side_by_side(#[trigger] p2[k], p2[k + 1]) by {
        if k < path.len() - 1 {
            assert(p2[k] == path[k] && p2[k + 1] == path[k + 1]);
        } else {
            assert(p2[k] == a);
        }
    }
    assert forall|k: int| 0 <= k < p2.len() implies in_map((#[trigger] p2[k]).0, p2[k].1) && at(g, p2[k].0, p2[k].1) == v by {
        if k < path.len() {
            assert(p2[k] == path[k]);
        }
    }
    assert(walk(g, v, p2, from, b));
}

/// While `build_maze` carves from the start alone, the points to finish
/// and every cell it changed can be reached from the start through the
/// maze.
#[verifier::opaque]
pub open spec fn carve_joined(m0: Seq<i32>, g: Seq<i32>, r: Seq<MazeStep>, rl: int, start: MazeStep, v: i32) -> bool {
    &&& forall|k: int| 1 <= k <= rl ==> joined_to(g, v, (start.0 as int, start.1 as int),
        ((#[trigger] r[k]).0 as int, r[k].1 as int))
    &&& forall|h: int, w: int| in_map(h, w) && #[trigger] at(g, h, w) != at(m0, h, w)
        ==> joined_to(g, v, (start.0 as int, start.1 as int), (h, w))
}

/// One round of the carve keeps every changed cell and every point to
/// finish reachable from the start through the maze.
#[verifier::spinoff_prover]
pub proof fn lemma_maze_step_joined(
    m0: Seq<i32>,
    g_before: Seq<i32>,
    g_mid: Seq<i32>,
    g_after: Seq<i32>,
    r_before: Seq<MazeStep>,
    r_mid: Seq<MazeStep>,
    r_after: Seq<MazeStep>,
    rl0: int,
    rl1: int,
    top2: MazeStep,
    dir_g: int,
    update: bool,
    ty: int,
    tx: int,
    v: i32,
    start: MazeStep,
    honest: bool,
    nz: bool,
)
    requires
        grid_wf(m0),
        grid_wf(g_before),
        v >= 1,
        1 <= rl0,
        r_before.len() == rl0 + 1,
        forall|i: int| 0 <= i < r_before.len() ==> step_ok(#[trigger] r_before[i]),
        carve_inv(m0, g_before, r_before, rl0, start, v, honest, true, nz),
        carve_joined(m0, g_before, r_before, rl0, start, v),
        top2 == r_mid[rl0],
        top2.0 == r_before[rl0].0,
        top2.1 == r_before[rl0].1,
        !update ==> g_mid == g_before && r_mid == r_before.update(rl0, top2),
        update ==> {
            &&& 0 <= dir_g < 4
            &&& (ty, tx) == step_to(r_before[rl0].0 as int, r_before[rl0].1 as int, dir_g, 2)
            &&& 1 <= ty <= 59 && 1 <= tx <= 59
            &&& g_mid == g_before.update(cell(step_to(r_before[rl0].0 as int, r_before[rl0].1 as int, dir_g, 1).0,
                step_to(r_before[rl0].0 as int, r_before[rl0].1 as int, dir_g, 1).1), v)
            &&& r_mid == r_before.update(rl0, top2).push((ty as usize, tx as usize, back_flags(dir_g), 3))
            &&& g_after == g_mid.update(cell(ty, tx), v)
            &&& r_after == r_mid
            &&& rl1 == rl0 + 1
        },
        !update && top2.3 == 0 ==> r_after == r_mid.drop_last() && rl1 == rl0 - 1 && g_after == g_mid,
        !update && top2.3 != 0 ==> r_after == r_mid && rl1 == rl0 && g_after == g_mid,
    ensures
        carve_joined(m0, g_after, r_after, rl1, start, v),
{
    reveal(carve_joined);
    reveal(carve_inv);
    let s = (start.0 as int, start.1 as int);
    let oy = r_before[rl0].0 as int;
    let ox = r_before[rl0].1 as int;
    assert(step_ok(r_before[rl0]));
    if update {
        let b = step_to(oy, ox, dir_g, 1);
        assert(in_map(b.0, b.1));
        assert(in_map(ty, tx));
        lemma_set_cell(g_before, b.0, b.1, v);
        lemma_set_cell(g_mid, ty, tx, v);
        assert(keeps(g_before, g_after, v)) by {
            assert forall|h: int, w: int| in_map(h, w) && at(g_before, h, w) == v implies #[trigger] at(g_after, h, w) == v by {
                assert(at(g_mid, h, w) == v);
            }
        }
        // the point being left is reachable, then the cell between, then the new point
        assert(joined_to(g_before, v, s, (oy, ox))) by {
            assert(r_before[rl0].0 as int == oy);
        }
        lemma_joined_kept(g_before, g_after, v, s, (oy, ox));
        assert(at(g_after, b.0, b.1) == v);
        lemma_joined_step(g_after, v, s, (oy, ox), b);
        assert(at(g_after, ty, tx) == v);
        lemma_joined_step(g_after, v, s, b, (ty, tx));
        assert forall|k: int| 1 <= k <= rl1 implies joined_to(g_after, v, s, ((#[trigger] r_after[k]).0 as int, r_after[k].1 as int)) by {
            if k < rl0 {
                assert(r_after[k] == r_before[k]);
                lemma_joined_kept(g_before, g_after, v, s, (r_before[k].0 as int, r_before[k].1 as int));
            } else if k == rl0 {
                assert(r_after[k] == top2);
            } else {
                assert(r_after[k] == (ty as usize, tx as usize, back_flags(dir_g), 3i32));
            }
        }
        assert forall|h: int, w: int| in_map(h, w) && #[trigger] at(g_after, h, w) != at(m0, h, w)
            implies joined_to(g_after, v, s, (h, w)) by {
            if h == b.0 && w == b.1 {
            } else if h == ty && w == tx {
            } else {
                assert(at(g_after, h, w) == at(g_before, h, w));
                lemma_joined_kept(g_before, g_after, v, s, (h, w));
            }
        }
    } else {
        assert(g_after == g_before);
        assert forall|k: int| 1 <= k <= rl1 implies joined_to(g_after, v, s, ((#[trigger] r_after[k]).0 as int, r_after[k].1 as int)) by {
            if k < rl0 {
                assert(r_after[k] == r_before[k]);
            } else {
                assert(r_after[k] == top2);
                assert(r_before[rl0].0 as int == top2.0 as int);
            }
        }
    }
}

/// One round of the maze carve keeps what `build_maze` maintains: every
/// tried direction of a point still to finish is closed, every point
/// reached is still to finish or has no direction left, the points still
/// to finish hold the maze's number, and, when regions sit on odd rows and
/// columns, they still do and only empty cells have changed.
#[verifier::spinoff_prover]
#[verifier::rlimit(60)]
pub proof fn lemma_maze_step(
    m0: Seq<i32>,
    g_before: Seq<i32>,
    g_mid: Seq<i32>,
    g_after: Seq<i32>,
    r_before: Seq<MazeStep>,
    r_mid: Seq<MazeStep>,
    r_after: Seq<MazeStep>,
    rl0: int,
    rl1: int,
    top2: MazeStep,
    dir_g: int,
    update: bool,
    ty: int,
    tx: int,
    v: i32,
    start: MazeStep,
    honest: bool,
    single: bool,
    nz: bool,
)
    requires
        honest ==> nz,
        single ==> nz,
        grid_wf(m0),
        grid_wf(g_before),
        v >= 1,
        1 <= rl0,
        r_before.len() == rl0 + 1,
        forall|i: int| 0 <= i < r_before.len() ==> step_ok(#[trigger] r_before[i]),
        step_ok(start),
        forall|i: int| 0 <= i < MAP_CELLS ==> #[trigger] g_before[i] == m0[i] || g_before[i] == v,
        carve_inv(m0, g_before, r_before, rl0, start, v, honest, single, nz),
        step_ok(top2),
        top2 == r_mid[rl0],
        top2.0 == r_before[rl0].0,
        top2.1 == r_before[rl0].1,
        forall|d: int| 0 <= d < 4 && #[trigger] flag(top2.2, d) ==> flag(r_before[rl0].2, d) || d == dir_g,
        !update ==> g_mid == g_before && r_mid == r_before.update(rl0, top2),
        !update && 0 <= dir_g < 4 ==> side_closed(g_before, r_before[rl0].0 as int, r_before[rl0].1 as int, dir_g),
        update ==> {
            &&& 0 <= dir_g < 4
            &&& (ty, tx) == step_to(r_before[rl0].0 as int, r_before[rl0].1 as int, dir_g, 2)
            &&& 1 <= ty <= 59 && 1 <= tx <= 59
            &&& at(g_before, ty, tx) == 0
            &&& g_mid == g_before.update(cell(step_to(r_before[rl0].0 as int, r_before[rl0].1 as int, dir_g, 1).0,
                step_to(r_before[rl0].0 as int, r_before[rl0].1 as int, dir_g, 1).1), v)
            &&& r_mid == r_before.update(rl0, top2).push((ty as usize, tx as usize, back_flags(dir_g), 3))
            &&& g_after == g_mid.update(cell(ty, tx), v)
            &&& r_after == r_mid
            &&& rl1 == rl0 + 1
        },
        !update && top2.3 == 0 ==> r_after == r_mid.drop_last() && rl1 == rl0 - 1 && g_after == g_mid,
        !update && top2.3 != 0 ==> r_after == r_mid && rl1 == rl0 && g_after == g_mid,
    ensures
        grid_wf(g_after),
        carve_inv(m0, g_after, r_after, rl1, start, v, honest, single, nz),
{
    reveal(carve_inv);
    let oy = r_before[rl0].0 as int;
    let ox = r_before[rl0].1 as int;
    assert(step_ok(r_before[rl0]));
    if update {
        let b = step_to(oy, ox, dir_g, 1);
        assert(in_map(b.0, b.1));
        assert(in_map(ty, tx));
        lemma_set_taken(g_before, b.0, b.1, v);
        lemma_set_cell(g_before, b.0, b.1, v);
        lemma_set_taken(g_mid, ty, tx, v);
        lemma_set_cell(g_mid, ty, tx, v);
        lemma_still_taken_trans(g_before, g_mid, g_after);
        lemma_still_taken_trans(m0, g_before, g_after);
        if nz {
            assert forall|k: int| 1 <= k <= rl1 implies at(g_after, (#[trigger] r_after[k]).0 as int, r_after[k].1 as int) != 0 by {
                if k < rl0 {
                    assert(r_after[k] == r_before[k]);
                    assert(step_ok(r_before[k]));
                    assert(at(g_before, r_before[k].0 as int, r_before[k].1 as int) != 0);
                } else if k == rl0 {
                    assert(r_after[k] == top2);
                    assert(at(g_before, oy, ox) != 0);
                } else {
                    assert(r_after[k] == (ty as usize, tx as usize, back_flags(dir_g), 3i32));
                }
            }
        }
        if single {
            assert forall|k: int| 1 <= k <= rl1 implies at(g_after, (#[trigger] r_after[k]).0 as int, r_after[k].1 as int) == v by {
                if k < rl0 {
                    assert(r_after[k] == r_before[k]);
                    assert(step_ok(r_before[k]));
                    let (h, w) = (r_before[k].0 as int, r_before[k].1 as int);
                    assert(at(g_before, h, w) == v);
                    assert(!(h == b.0 && w == b.1));
                } else if k == rl0 {
                    assert(r_after[k] == top2);
                    assert(!(oy == b.0 && ox == b.1));
                } else {
                    assert(r_after[k] == (ty as usize, tx as usize, back_flags(dir_g), 3i32));
                }
            }
        }
        if honest {
            assert(at(g_before, oy, ox) != 0);
            assert forall|k: int| 1 <= k <= rl1 implies #[trigger] tried_closed(g_after, r_after[k]) by {
                if k < rl0 {
                    assert(r_after[k] == r_before[k]);
                    lemma_still_taken_closed(g_before, g_after, r_before[k].0 as int, r_before[k].1 as int);
                } else if k == rl0 {
                    assert(r_after[k] == top2);
                    lemma_still_taken_closed(g_before, g_after, oy, ox);
                    assert(tried_closed(g_before, r_before[rl0]));
                    assert(at(g_after, ty, tx) != 0);
                    assert(side_closed(g_after, oy, ox, dir_g));
                    assert(flag(top2.2, 0) ==> side_closed(g_after, oy, ox, 0));
                    assert(flag(top2.2, 1) ==> side_closed(g_after, oy, ox, 1));
                    assert(flag(top2.2, 2) ==> side_closed(g_after, oy, ox, 2));
                    assert(flag(top2.2, 3) ==> side_closed(g_after, oy, ox, 3));
                } else {
                    assert(r_after[k] == (ty as usize, tx as usize, back_flags(dir_g), 3i32));
                    assert(at(g_before, oy, ox) != 0);
                    assert(in_map(oy, ox));
                    assert(at(g_after, oy, ox) != 0);
                }
            }
            assert forall|h: int, w: int| #[trigger] maze_visited(m0, g_after, start, v, h, w)
                implies on_stack(r_after, rl1, h, w) || maze_done(g_after, h, w) by {
                if h == ty && w == tx {
                    assert(r_after[rl1] == (ty as usize, tx as usize, back_flags(dir_g), 3i32));
                } else {
                    assert(!(h == b.0 && w == b.1));
                    assert(at(g_after, h, w) == at(g_before, h, w));
                    assert(maze_visited(m0, g_before, start, v, h, w));
                    if on_stack(r_before, rl0, h, w) {
                        let k = choose|k: int| 1 <= k <= rl0 && (#[trigger] r_before[k]).0 as int == h && r_before[k].1 as int == w;
                        if k < rl0 {
                            assert(r_after[k] == r_before[k]);
                        } else {
                            assert(r_after[k] == top2);
                        }
                    } else {
                        lemma_still_taken_closed(g_before, g_after, h, w);
                    }
                }
            }
        }
        if odd_closed(m0) && at(m0, start.0 as int, start.1 as int) == 0 {
            // the cell between was empty or already held `v`: it has an even
            // coordinate, so any other taken value would have made the cell
            // beyond it taken
            assert(at(g_before, b.0, b.1) == 0 || at(g_before, b.0, b.1) == v) by {
                if at(g_before, b.0, b.1) != 0 && at(g_before, b.0, b.1) != v {
                    assert(1 <= b.0 <= 59 && 1 <= b.1 <= 59);
                    if dir_g == 0 || dir_g == 2 {
                        assert(b.0 % 2 == 0);
                    } else {
                        assert(b.1 % 2 == 0);
                    }
                }
            }
            assert forall|h: int, w: int| 1 <= h <= 59 && 1 <= w <= 59 && #[trigger] at(g_after, h, w) != 0 && at(g_after, h, w) != v implies
                (h % 2 == 0 ==> at(g_after, h - 1, w) != 0 && at(g_after, h + 1, w) != 0)
                && (w % 2 == 0 ==> at(g_after, h, w - 1) != 0 && at(g_after, h, w + 1) != 0) by {
                assert(in_map(h, w));
                assert(!(h == b.0 && w == b.1) && !(h == ty && w == tx));
                assert(at(g_before, h, w) == at(g_after, h, w));
                if h % 2 == 0 {
                    assert(in_map(h - 1, w) && in_map(h + 1, w));
                    assert(at(g_before, h - 1, w) != 0 && at(g_before, h + 1, w) != 0);
                }
                if w % 2 == 0 {
                    assert(in_map(h, w - 1) && in_map(h, w + 1));
                    assert(at(g_before, h, w - 1) != 0 && at(g_before, h, w + 1) != 0);
                }
            }
            assert forall|i: int| 0 <= i < MAP_CELLS && #[trigger] g_after[i] != m0[i] implies m0[i] == 0 by {
                lemma_cell_bounds(b.0, b.1);
                lemma_cell_bounds(ty, tx);
                if i == cell(b.0, b.1) {
                    assert(g_before[i] == m0[i] || g_before[i] == v);
                } else if i == cell(ty, tx) {
                    assert(g_before[i] == m0[i] || g_before[i] == v);
                } else {
                    assert(g_after[i] == g_before[i]);
                }
            }
        }
        if single && odd_closed(m0) && at(m0, start.0 as int, start.1 as int) == 0 {
            assert(at(g_before, b.0, b.1) == 0) by {
                if at(g_before, b.0, b.1) != 0 {
                    assert(1 <= b.0 <= 59 && 1 <= b.1 <= 59);
                    if dir_g == 0 || dir_g == 2 {
                        assert(b.0 % 2 == 0);
                    } else {
                        assert(b.1 % 2 == 0);
                    }
                }
            }
            assert forall|h: int, w: int| 1 <= h <= 59 && 1 <= w <= 59 && #[trigger] at(g_after, h, w) != 0 implies
                (h % 2 == 0 ==> at(g_after, h - 1, w) != 0 && at(g_after, h + 1, w) != 0)
                && (w % 2 == 0 ==> at(g_after, h, w - 1) != 0 && at(g_after, h, w + 1) != 0) by {
                assert(in_map(h, w));
                if h == b.0 && w == b.1 {
                    assert(in_map(oy, ox));
                    assert(at(g_before, oy, ox) == v);
                } else if h == ty && w == tx {
                } else {
                    assert(at(g_before, h, w) != 0);
                    if h % 2 == 0 {
                        assert(in_map(h - 1, w) && in_map(h + 1, w));
                        assert(at(g_before, h - 1, w) != 0 && at(g_before, h + 1, w) != 0);
                    }
                    if w % 2 == 0 {
                        assert(in_map(h, w - 1) && in_map(h, w + 1));
                        assert(at(g_before, h, w - 1) != 0 && at(g_before, h, w + 1) != 0);
                    }
                }
            }
        }
    } else {
        assert(g_after == g_before);
        if nz {
            assert forall|k: int| 1 <= k <= rl1 implies at(g_after, (#[trigger] r_after[k]).0 as int, r_after[k].1 as int) != 0 by {
                if k < rl0 {
                    assert(r_after[k] == r_before[k]);
                } else {
                    assert(r_after[k] == top2);
                }
            }
        }
        if single {
            assert forall|k: int| 1 <= k <= rl1 implies at(g_after, (#[trigger] r_after[k]).0 as int, r_after[k].1 as int) == v by {
                if k < rl0 {
                    assert(r_after[k] == r_before[k]);
                } else {
                    assert(r_after[k] == top2);
                }
            }
        }
        if honest {
            assert(tried_closed(g_before, r_before[rl0]));
            assert(tried_closed(g_before, top2)) by {
                if 0 <= dir_g < 4 {
                    assert(side_closed(g_before, oy, ox, dir_g));
                }
                assert(flag(top2.2, 0) ==> side_closed(g_before, oy, ox, 0));
                assert(flag(top2.2, 1) ==> side_closed(g_before, oy, ox, 1));
                assert(flag(top2.2, 2) ==> side_closed(g_before, oy, ox, 2));
                assert(flag(top2.2, 3) ==> side_closed(g_before, oy, ox, 3));
            }
            assert forall|k: int| 1 <= k <= rl1 implies #[trigger] tried_closed(g_after, r_after[k]) by {
                if k < rl0 {
                    assert(r_after[k] == r_before[k]);
                } else {
                    assert(r_after[k] == top2);
                }
            }
            assert forall|h: int, w: int| #[trigger] maze_visited(m0, g_after, start, v, h, w)
                implies on_stack(r_after, rl1, h, w) || maze_done(g_after, h, w) by {
                if on_stack(r_before, rl0, h, w) {
                    let k = choose|k: int| 1 <= k <= rl0 && (#[trigger] r_before[k]).0 as int == h && r_before[k].1 as int == w;
                    if k < rl0 {
                        assert(r_after[k] == r_before[k]);
                    } else if top2.3 != 0 {
                        assert(r_after[k] == top2);
                    } else {
                        assert(top2.2.0 && top2.2.1 && top2.2.2 && top2.2.3);
                        assert(flag(top2.2, 0) && flag(top2.2, 1) && flag(top2.2, 2) && flag(top2.2, 3));
                    }
                }
            }
        }
    }
}

/// Where a room may start along one axis and how long it may be: an odd
/// start, an odd length from `MIN_ROOM_W` (11) up to 19, and an end before
/// the last row or column.
pub open spec fn fits(pos: int, size: int) -> bool {
    &&& pos % 2 == 1
    &&& 0 <= pos < 61
    &&& size % 2 == 1
    &&& 11 <= size < 21
    &&& pos + size < 61
}

/// Every room placement along one axis, each listed once.
pub fn room_spans() -> (res: Vec<(usize, usize)>)
    ensures
        res.len() > 0,
        res@.no_duplicates(),
        forall|i: int| 0 <= i < res.len() ==> fits(#[trigger] res[i].0 as int, res[i].1 as int),
        forall|p: int, s: int| fits(p, s) ==> res@.contains((p as usize, s as usize)),
{
    let mut res: Vec<(usize, usize)> = Vec::new();
    let mut size: usize = 11;
    while size < 21
        invariant
            11 <= size <= 21,
            size % 2 == 1,
            size > 11 ==> res.len() > 0,
            res@.no_duplicates(),
            forall|i: int| 0 <= i < res.len() ==> fits(#[trigger] res[i].0 as int, res[i].1 as int),
            forall|i: int| 0 <= i < res.len() ==> (#[trigger] res[i]).1 < size,
            forall|p: int, s: int| fits(p, s) && s < size ==> res@.contains((p as usize, s as usize)),
        decreases 21 - size,
    {
        let ghost before = res@;
        let mut pos: usize = 1;
        while pos + size < 61
            invariant
                11 <= size < 21,
                size % 2 == 1,
                pos % 2 == 1,
                1 <= pos <= 61,
                pos > 1 ==> res.len() > 0,
                size > 11 ==> res.len() > 0,
                res@.no_duplicates(),
                forall|i: int| 0 <= i < res.len() ==> fits(#[trigger] res[i].0 as int, res[i].1 as int),
                forall|i: int| 0 <= i < res.len() ==> (#[trigger] res[i]).1 < size || (res[i].1 == size && res[i].0 < pos),
                forall|p: int, s: int| fits(p, s) && (s < size || (s == size && p < pos)) ==> res@.contains((p as usize, s as usize)),
            decreases 61 - pos,
        {
            let ghost prev = res@;
            res.push((pos, size));
            proof {
                assert forall|p: int, s: int| fits(p, s) && (s < size || (s == size && p < pos + 2))
                    implies res@.contains((p as usize, s as usize)) by {
                    if s == size && p == pos {
                        assert(res@[res.len() - 1] == (p as usize, s as usize));
                    } else {
                        assert(prev.contains((p as usize, s as usize)));
                        let j = choose|j: int| 0 <= j < prev.len() && prev[j] == (p as usize, s as usize);
                        assert(res@[j] == (p as usize, s as usize));
                    }
                }
                assert forall|a: int, b: int| 0 <= a < b < res.len() implies res@[a] != res@[b] by {
                    if b == res.len() - 1 {
                        assert(res@[a].1 < size || res@[a].0 < pos);
                    } else {
                        assert(prev[a] != prev[b]);
                    }
                }
            }
            pos += 2;
        }
        proof {
            assert forall|p: int, s: int| fits(p, s) && s < size + 2 implies res@.contains((p as usize, s as usize)) by {
                if s == size {
                    assert(p < pos);
                }
            }
        }
        size += 2;
    }
    res
}

/// A floor cell, not on a maze corridor and not touching a wall or pillar
/// (diagonals included), in the rows and columns a stair or pillar is drawn
/// from (0 to 59).
pub open spec fn stair_spot(g: Seq<i32>, corridors: Seq<i32>, h: int, w: int) -> bool {
    &&& 0 <= h < 60
    &&& 0 <= w < 60
    &&& at(g, h, w) == 1
    &&& at(corridors, h, w) != 1
    &&& at(g, h - 1, w) != 2
    &&& at(g, h + 1, w) != 2
    &&& at(g, h, w - 1) != 2
    &&& at(g, h, w + 1) != 2
    &&& at(g, h - 1, w - 1) != 2
    &&& at(g, h - 1, w + 1) != 2
    &&& at(g, h + 1, w - 1) != 2
    &&& at(g, h + 1, w + 1) != 2
}

pub open spec fn no_floor_on_border(g: Seq<i32>) -> bool {
    forall|h: int, w: int| in_map(h, w) && on_border(h, w) ==> #[trigger] at(g, h, w) != 1
}

fn is_stair_spot(g: &Vec<i32>, corridors: &Vec<i32>, h: usize, w: usize) -> (r: bool)
    requires
        grid_wf(g@),
        grid_wf(corridors@),
        h < 60,
        w < 60,
        no_floor_on_border(g@),
    ensures
        r == stair_spot(g@, corridors@, h as int, w as int),
{
    if g[h * 61 + w] == 1 {
        assert(at(g@, h as int, w as int) == 1);
        assert(!on_border(h as int, w as int));
    }
    g[h * 61 + w] == 1 && corridors[h * 61 + w] != 1 && g[(h - 1) * 61 + w] != 2 && g[(h + 1) * 61 + w] != 2
        && g[h * 61 + (w - 1)] != 2 && g[h * 61 + (w + 1)] != 2 && g[(h - 1) * 61 + (w - 1)] != 2
        && g[(h - 1) * 61 + (w + 1)] != 2 && g[(h + 1) * 61 + (w - 1)] != 2 && g[(h + 1) * 61 + (w + 1)] != 2
}

/// The cells a stair may go on, row by row; with `avoid`, cells of room
/// `avoid_room` (by `numbered`) are left out.
fn stair_spots(g: &Vec<i32>, corridors: &Vec<i32>, numbered: &Vec<i32>, avoid: bool, avoid_room: i32) -> (res: Vec<(usize, usize)>)
    requires
        grid_wf(g@),
        grid_wf(corridors@),
        grid_wf(numbered@),
        no_floor_on_border(g@),
    ensures
        forall|i: int| 0 <= i < res.len() ==> stair_spot(g@, corridors@, (#[trigger] res[i]).0 as int, res[i].1 as int)
            && !(avoid && at(numbered@, res[i].0 as int, res[i].1 as int) == avoid_room),
        forall|h: int, w: int| #[trigger] stair_spot(g@, corridors@, h, w) && !(avoid && at(numbered@, h, w) == avoid_room)
            ==> res@.contains((h as usize, w as usize)),
{
    let mut res: Vec<(usize, usize)> = Vec::new();
    let mut h: usize = 0;
    while h < 60
        invariant
            h <= 60,
            grid_wf(g@),
            grid_wf(corridors@),
            grid_wf(numbered@),
            no_floor_on_border(g@),
            forall|i: int| 0 <= i < res.len() ==> stair_spot(g@, corridors@, (#[trigger] res[i]).0 as int, res[i].1 as int)
                && !(avoid && at(numbered@, res[i].0 as int, res[i].1 as int) == avoid_room),
            forall|r: int, c: int| r < h && #[trigger] stair_spot(g@, corridors@, r, c) && !(avoid && at(numbered@, r, c) == avoid_room)
                ==> res@.contains((r as usize, c as usize)),
        decreases 60 - h,
    {
        let mut w: usize = 0;
        while w < 60
            invariant
                h < 60,
                w <= 60,
                grid_wf(g@),
                grid_wf(corridors@),
                grid_wf(numbered@),
                no_floor_on_border(g@),
                forall|i: int| 0 <= i < res.len() ==> stair_spot(g@, corridors@, (#[trigger] res[i]).0 as int, res[i].1 as int)
                    && !(avoid && at(numbered@, res[i].0 as int, res[i].1 as int) == avoid_room),
                forall|r: int, c: int| (r < h || (r == h && c < w)) && #[trigger] stair_spot(g@, corridors@, r, c)
                    && !(avoid && at(numbered@, r, c) == avoid_room) ==> res@.contains((r as usize, c as usize)),
            decreases 60 - w,
        {
            let ghost prev = res@;
            if is_stair_spot(g, corridors, h, w) && !(avoid && numbered[h * 61 + w] == avoid_room) {
                res.push((h, w));
            }
            proof {
                assert forall|r: int, c: int| (r < h || (r == h && c < w + 1)) && #[trigger] stair_spot(g@, corridors@, r, c)
                    && !(avoid && at(numbered@, r, c) == avoid_room) implies res@.contains((r as usize, c as usize)) by {
                    if r == h && c == w {
                        assert(res@[res.len() - 1] == (r as usize, c as usize));
                    } else {
                        let j = choose|j: int| 0 <= j < prev.len() && prev[j] == (r as usize, c as usize);
                        assert(res@[j] == prev[j]);
                    }
                }
            }
            w += 1;
        }
        h += 1;
    }
    res
}

/// Putting a stair on a floor cell takes that cell, and only that one, off
/// the cells a stair or pillar may go on.
pub proof fn lemma_stair_spot_after(g: Seq<i32>, corridors: Seq<i32>, sh: int, sw: int, v: i32)
    requires
        grid_wf(g),
        grid_wf(corridors),
        no_floor_on_border(g),
        in_map(sh, sw),
        at(g, sh, sw) == 1,
        v != 1,
        v != 2,
    ensures
        no_floor_on_border(g.update(cell(sh, sw), v)),
        forall|h: int, w: int| #[trigger] stair_spot(g.update(cell(sh, sw), v), corridors, h, w)
            <==> stair_spot(g, corridors, h, w) && !(h == sh && w == sw),
{
    let g2 = g.update(cell(sh, sw), v);
    lemma_set_cell(g, sh, sw, v);
    assert forall|h: int, w: int| #[trigger] stair_spot(g2, corridors, h, w)
        <==> stair_spot(g, corridors, h, w) && !(h == sh && w == sw) by {
        if 0 <= h < 60 && 0 <= w < 60 {
            if at(g2, h, w) == 1 || at(g, h, w) == 1 {
                assert(!on_border(h, w));
                assert(in_map(h - 1, w - 1) && in_map(h + 1, w + 1) && in_map(h - 1, w + 1) && in_map(h + 1, w - 1));
                assert(in_map(h - 1, w) && in_map(h + 1, w) && in_map(h, w - 1) && in_map(h, w + 1));
            }
        }
    }
}

/// A cell of a room that gets enemies and crates: a numbered room other
/// than the starting and ending rooms.
pub open spec fn spawn_room(numbered: Seq<i32>, num_rooms: i32, starting_room: i32, ending_room: i32, h: int, w: int) -> bool {
    let r = at(numbered, h, w);
    1 <= r <= num_rooms && r != starting_room && r != ending_room
}

/// The cells of room `i`, row by row.
fn room_cells(numbered: &Vec<i32>, i: i32) -> (res: Vec<(usize, usize)>)
    requires
        grid_wf(numbered@),
    ensures
        forall|k: int| 0 <= k < res.len() ==> in_map((#[trigger] res[k]).0 as int, res[k].1 as int)
            && at(numbered@, res[k].0 as int, res[k].1 as int) == i,
        forall|h: int, w: int| in_map(h, w) && #[trigger] at(numbered@, h, w) == i ==> res@.contains((h as usize, w as usize)),
{
    let mut res: Vec<(usize, usize)> = Vec::new();
    let mut h: usize = 0;
    while h < MAP_SIZE_H
        invariant
            h <= 61,
            grid_wf(numbered@),
            forall|k: int| 0 <= k < res.len() ==> in_map((#[trigger] res[k]).0 as int, res[k].1 as int)
                && at(numbered@, res[k].0 as int, res[k].1 as int) == i,
            forall|r: int, c: int| in_map(r, c) && r < h && #[trigger] at(numbered@, r, c) == i ==> res@.contains((r as usize, c as usize)),
        decreases 61 - h,
    {
        let mut w: usize = 0;
        while w < MAP_SIZE_W
            invariant
                h < 61,
                w <= 61,
                grid_wf(numbered@),
                forall|k: int| 0 <= k < res.len() ==> in_map((#[trigger] res[k]).0 as int, res[k].1 as int)
                    && at(numbered@, res[k].0 as int, res[k].1 as int) == i,
                forall|r: int, c: int| in_map(r, c) && (r < h || (r == h && c < w)) && #[trigger] at(numbered@, r, c) == i
                    ==> res@.contains((r as usize, c as usize)),
            decreases 61 - w,
        {
            let ghost prev = res@;
            if numbered[h * 61 + w] == i {
                res.push((h, w));
            }
            proof {
                assert forall|r: int, c: int| in_map(r, c) && (r < h || (r == h && c < w + 1)) && #[trigger] at(numbered@, r, c) == i
                    implies res@.contains((r as usize, c as usize)) by {
                    if r == h && c == w {
                        assert(res@[res.len() - 1] == (r as usize, c as usize));
                    } else {
                        let j = choose|j: int| 0 <= j < prev.len() && prev[j] == (r as usize, c as usize);
                        assert(res@[j] == prev[j]);
                    }
                }
            }
            w += 1;
        }
        h += 1;
    }
    res
}

/// A spawn may go on `p`: nothing spawns there yet, or, with `floor_ok`,
/// the cell is floor (1) in `map`.
pub open spec fn spawn_open(spawns: Seq<i32>, map: Seq<i32>, p: (usize, usize), floor_ok: bool) -> bool {
    at(spawns, p.0 as int, p.1 as int) == 0 || (floor_ok && at(map, p.0 as int, p.1 as int) == 1)
}

/// `spawns` after `kind` was put on each cell of `cells`, in order.
pub open spec fn put_spawns(spawns: Seq<i32>, cells: Seq<(usize, usize)>, kind: i32) -> Seq<i32>
    decreases cells.len(),
{
    if cells.len() == 0 {
        spawns
    } else {
        let p = cells.last();
        put_spawns(spawns, cells.drop_last(), kind).update(cell(p.0 as int, p.1 as int), kind)
    }
}

/// Every cell of `cells` is one of `positions` and was open (see
/// `spawn_open`) when its spawn was put down, starting from `spawns`.
pub open spec fn spawns_placed(
    spawns: Seq<i32>,
    map: Seq<i32>,
    positions: Seq<(usize, usize)>,
    kind: i32,
    floor_ok: bool,
    cells: Seq<(usize, usize)>,
) -> bool {
    forall|k: int| 0 <= k < cells.len() ==> positions.contains(#[trigger] cells[k])
        && spawn_open(put_spawns(spawns, cells.take(k), kind), map, cells[k], floor_ok)
}

pub proof fn lemma_put_spawns_push(spawns: Seq<i32>, cells: Seq<(usize, usize)>, p: (usize, usize), kind: i32)
    ensures
        put_spawns(spawns, cells.push(p), kind) == put_spawns(spawns, cells, kind).update(cell(p.0 as int, p.1 as int), kind),
{
    assert(cells.push(p).drop_last() =~= cells);
}

/// Putting spawns on cells of the map keeps a grid a grid, and leaves
/// every other cell as it was.
pub proof fn lemma_put_spawns_elsewhere(spawns: Seq<i32>, cells: Seq<(usize, usize)>, kind: i32)
    requires
        grid_wf(spawns),
        forall|k: int| 0 <= k < cells.len() ==> in_map((#[trigger] cells[k]).0 as int, cells[k].1 as int),
    ensures
        grid_wf(put_spawns(spawns, cells, kind)),
        forall|h: int, w: int| in_map(h, w) && !cells.contains((h as usize, w as usize))
            ==> #[trigger] at(put_spawns(spawns, cells, kind), h, w) == at(spawns, h, w),
    decreases cells.len(),
{
    if cells.len() > 0 {
        let rest = cells.drop_last();
        let p = cells.last();
        assert forall|k: int| 0 <= k < rest.len() implies in_map((#[trigger] rest[k]).0 as int, rest[k].1 as int) by {
            assert(rest[k] == cells[k]);
        }
        lemma_put_spawns_elsewhere(spawns, rest, kind);
        assert(in_map(cells[cells.len() - 1].0 as int, cells[cells.len() - 1].1 as int));
        lemma_set_cell(put_spawns(spawns, rest, kind), p.0 as int, p.1 as int, kind);
        assert forall|h: int, w: int| in_map(h, w) && !cells.contains((h as usize, w as usize))
            implies #[trigger] at(put_spawns(spawns, cells, kind), h, w) == at(spawns, h, w) by {
            assert(!(h == p.0 as int && w == p.1 as int)) by {
                if h == p.0 as int && w == p.1 as int {
                    assert(cells[cells.len() - 1] == (h as usize, w as usize));
                }
            }
            if rest.contains((h as usize, w as usize)) {
                let j = choose|j: int| 0 <= j < rest.len() && rest[j] == (h as usize, w as usize);
                assert(cells[j] == rest[j]);
            }
        }
    }
}

/// One more open cell keeps `spawns_placed`.
pub proof fn lemma_spawns_placed_push(
    spawns: Seq<i32>,
    map: Seq<i32>,
    positions: Seq<(usize, usize)>,
    kind: i32,
    floor_ok: bool,
    cells: Seq<(usize, usize)>,
    p: (usize, usize),
)
    requires
        spawns_placed(spawns, map, positions, kind, floor_ok, cells),
        positions.contains(p),
        spawn_open(put_spawns(spawns, cells, kind), map, p, floor_ok),
    ensures
        spawns_placed(spawns, map, positions, kind, floor_ok, cells.push(p)),
{
    let c2 = cells.push(p);
    assert forall|k: int| 0 <= k < c2.len() implies positions.contains(#[trigger] c2[k])
        && spawn_open(put_spawns(spawns, c2.take(k), kind), map, c2[k], floor_ok) by {
        if k < cells.len() {
            assert(c2.take(k) =~= cells.take(k));
            assert(c2[k] == cells[k]);
        } else {
            assert(c2.take(k) =~= cells);
        }
    }
}

/// Puts `n` spawns of `kind` on cells of `positions`, each on a cell drawn
/// uniformly among the positions still open: empty in `spawns`, or, with
/// `floor_ok`, floor (1) in `map`. Returns false, after the spawns placed so
/// far, when no position is open (a search for one would never end).
fn place_spawns(spawns: &mut Vec<i32>, positions: &Vec<(usize, usize)>, map: &Vec<i32>, n: usize, kind: i32, floor_ok: bool) -> (all: bool)
    requires
        grid_wf(old(spawns)@),
        grid_wf(map@),
        forall|k: int| 0 <= k < positions.len() ==> in_map((#[trigger] positions[k]).0 as int, positions[k].1 as int),
    ensures
        grid_wf(final(spawns)@),
        forall|h: int, w: int| in_map(h, w) ==> #[trigger] at(final(spawns)@, h, w) == at(old(spawns)@, h, w)
            || (at(final(spawns)@, h, w) == kind && positions@.contains((h as usize, w as usize))),
        exists|cells: Seq<(usize, usize)>| #[trigger] spawns_placed(old(spawns)@, map@, positions@, kind, floor_ok, cells)
            && final(spawns)@ == put_spawns(old(spawns)@, cells, kind)
            && (all ==> cells.len() == n)
            && (!all ==> cells.len() < n && forall|k: int| 0 <= k < positions.len()
                ==> !spawn_open(final(spawns)@, map@, #[trigger] positions[k], floor_ok)),
{
    let ghost cells: Seq<(usize, usize)> = Seq::empty();
    let mut placed: usize = 0;
    while placed < n
        invariant
            grid_wf(old(spawns)@),
            grid_wf(spawns@),
            grid_wf(map@),
            placed <= n,
            forall|k: int| 0 <= k < positions.len() ==> in_map((#[trigger] positions[k]).0 as int, positions[k].1 as int),
            forall|h: int, w: int| in_map(h, w) ==> #[trigger] at(spawns@, h, w) == at(old(spawns)@, h, w)
                || (at(spawns@, h, w) == kind && positions@.contains((h as usize, w as usize))),
            cells.len() == placed,
            spawns_placed(old(spawns)@, map@, positions@, kind, floor_ok, cells),
            spawns@ == put_spawns(old(spawns)@, cells, kind),
        decreases n - placed,
    {
        let mut open: Vec<(usize, usize)> = Vec::new();
        let mut k: usize = 0;
        while k < positions.len()
            invariant
                k <= positions.len(),
                grid_wf(spawns@),
                grid_wf(map@),
                forall|j: int| 0 <= j < positions.len() ==> in_map((#[trigger] positions[j]).0 as int, positions[j].1 as int),
                forall|j: int| 0 <= j < open.len() ==> positions@.contains(#[trigger] open[j]) && in_map(open[j].0 as int, open[j].1 as int)
                    && spawn_open(spawns@, map@, open[j], floor_ok),
                forall|j: int| 0 <= j < k && spawn_open(spawns@, map@, #[trigger] positions[j], floor_ok)
                    ==> open@.contains(positions[j]),
            decreases positions.len() - k,
        {
            let p = positions[k];
            let c = p.0 * 61 + p.1;
            let ghost prev = open@;
            if spawns[c] == 0 || (floor_ok && map[c] == 1) {
                open.push(p);
                proof {
                    assert(open@[open.len() - 1] == p);
                    assert(positions@[k as int] == p);
                }
            }
            proof {
                assert forall|j: int| 0 <= j < k + 1 && spawn_open(spawns@, map@, #[trigger] positions[j], floor_ok)
                    implies open@.contains(positions[j]) by {
                    if j < k {
                        let i = choose|i: int| 0 <= i < prev.len() && prev[i] == positions[j];
                        assert(open@[i] == prev[i]);
                    } else {
                        assert(open@[open.len() - 1] == positions[j]);
                    }
                }
            }
            k += 1;
        }
        if open.len() == 0 {
            return false;
        }
        let pos = open[random_in(0, open.len())];
        proof {
            lemma_set_cell(spawns@, pos.0 as int, pos.1 as int, kind);
            lemma_spawns_placed_push(old(spawns)@, map@, positions@, kind, floor_ok, cells, pos);
            lemma_put_spawns_push(old(spawns)@, cells, pos, kind);
            cells = cells.push(pos);
        }
        spawns.set(pos.0 * 61 + pos.1, kind);
        placed += 1;
    }
    true
}

/// A room placement `(first row, height, first column, width)` covers row
/// `h`, column `w`.
pub open spec fn in_room(p: (int, int, int, int), h: int, w: int) -> bool {
    p.0 <= h < p.0 + p.1 && p.2 <= w < p.2 + p.3
}

/// The grid `g` with room `p` written into it as region `v`.
pub open spec fn paint_room(g: Seq<i32>, p: (int, int, int, int), v: i32) -> Seq<i32> {
    Seq::new(g.len(), |i: int| if in_room(p, i / 61, i % 61) { v } else { g[i] })
}

/// The grid `g` with the rooms of `ps` written into it in order, the first
/// as region `first`, the next as `first + 1`, and so on.
pub open spec fn paint_rooms(g: Seq<i32>, ps: Seq<(int, int, int, int)>, first: int) -> Seq<i32>
    decreases ps.len(),
{
    if ps.len() == 0 {
        g
    } else {
        paint_room(paint_rooms(g, ps.drop_last(), first), ps.last(), (first + ps.len() - 1) as i32)
    }
}

/// The cells that the placement check of room `p` looks at for its cell
/// `a` rows down and `b` columns across are empty: the cell one row and one
/// column further down and right, and, away from the top and left edges,
/// the cells above its first row and left of its first column.
pub open spec fn clear_at(g: Seq<i32>, p: (int, int, int, int), a: int, b: int) -> bool {
    &&& (p.2 > 2 && p.0 > 2 ==> at(g, p.0 - 1, p.2 - 1) == 0)
    &&& (p.0 > 2 ==> at(g, p.0 - 1, p.2 + b) == 0)
    &&& (p.2 > 2 ==> at(g, p.0 + a, p.2 - 1) == 0)
    &&& at(g, p.0 + a + 1, p.2 + b + 1) == 0
}

/// Room `p` passes the placement check on grid `g`.
pub open spec fn room_clear(g: Seq<i32>, p: (int, int, int, int)) -> bool {
    forall|a: int, b: int| 0 <= a < p.1 && 0 <= b < p.3 ==> #[trigger] clear_at(g, p, a, b)
}

/// `g` is `g0` with the rooms `ps` laid in order as regions `first`,
/// `first + 1`, ..., each one fitting (see `fits`) and passing the
/// placement check against the grid of the rooms laid before it.
pub open spec fn rooms_laid(g0: Seq<i32>, g: Seq<i32>, first: int, ps: Seq<(int, int, int, int)>) -> bool {
    &&& g == paint_rooms(g0, ps, first)
    &&& forall|k: int| 0 <= k < ps.len() ==> fits((#[trigger] ps[k]).0, ps[k].1) && fits(ps[k].2, ps[k].3)
        && room_clear(paint_rooms(g0, ps.take(k), first), ps[k])
}

/// Laying one more room that fits and passes the check extends the rooms
/// laid.
pub proof fn lemma_rooms_laid_push(g0: Seq<i32>, g: Seq<i32>, first: int, ps: Seq<(int, int, int, int)>, p: (int, int, int, int))
    requires
        rooms_laid(g0, g, first, ps),
        fits(p.0, p.1),
        fits(p.2, p.3),
        room_clear(g, p),
    ensures
        rooms_laid(g0, paint_room(g, p, (first + ps.len()) as i32), first, ps.push(p)),
{
    let ps2 = ps.push(p);
    assert(ps2.drop_last() =~= ps);
    assert(ps2.take(ps.len() as int) =~= ps);
    assert forall|k: int| 0 <= k < ps2.len() implies fits((#[trigger] ps2[k]).0, ps2[k].1) && fits(ps2[k].2, ps2[k].3)
        && room_clear(paint_rooms(g0, ps2.take(k), first), ps2[k]) by {
        if k < ps.len() {
            assert(ps2.take(k) =~= ps.take(k));
            assert(ps2[k] == ps[k]);
        } else {
            assert(ps2[k] == p);
        }
    }
}

pub proof fn lemma_paint_room_at(g: Seq<i32>, p: (int, int, int, int), v: i32, h: int, w: int)
    requires
        grid_wf(g),
        in_map(h, w),
    ensures
        grid_wf(paint_room(g, p, v)),
        at(paint_room(g, p, v), h, w) == if in_room(p, h, w) { v } else { at(g, h, w) },
{
    lemma_cell_bounds(h, w);
    vstd::arithmetic::div_mod::lemma_fundamental_div_mod_converse(h * 61 + w, 61, h, w);
}

/// Two grids that agree on every cell are equal.
pub proof fn lemma_grid_ext(a: Seq<i32>, b: Seq<i32>)
    requires
        grid_wf(a),
        grid_wf(b),
        forall|h: int, w: int| in_map(h, w) ==> #[trigger] at(a, h, w) == at(b, h, w),
    ensures
        a == b,
{
    assert forall|i: int| 0 <= i < MAP_CELLS implies a[i] == b[i] by {
        let h = i / 61;
        let w = i % 61;
        vstd::arithmetic::div_mod::lemma_fundamental_div_mod(i, 61);
        assert(in_map(h, w));
        assert(at(a, h, w) == at(b, h, w));
    }
    assert(a =~= b);
}

/// Writing a fitting room into a grid whose regions sit on odd rows and
/// columns keeps them there.
pub proof fn lemma_paint_room_odd_closed(g: Seq<i32>, p: (int, int, int, int), v: i32)
    requires
        grid_wf(g),
        odd_closed(g),
        fits(p.0, p.1),
        fits(p.2, p.3),
        v != 0,
    ensures
        grid_wf(paint_room(g, p, v)),
        odd_closed(paint_room(g, p, v)),
{
    let g2 = paint_room(g, p, v);
    lemma_paint_room_at(g, p, v, 0, 0);
    assert forall|h: int, w: int| 1 <= h <= 59 && 1 <= w <= 59 && #[trigger] at(g2, h, w) != 0 implies
        (h % 2 == 0 ==> at(g2, h - 1, w) != 0 && at(g2, h + 1, w) != 0)
        && (w % 2 == 0 ==> at(g2, h, w - 1) != 0 && at(g2, h, w + 1) != 0) by {
        lemma_paint_room_at(g, p, v, h, w);
        lemma_paint_room_at(g, p, v, h - 1, w);
        lemma_paint_room_at(g, p, v, h + 1, w);
        lemma_paint_room_at(g, p, v, h, w - 1);
        lemma_paint_room_at(g, p, v, h, w + 1);
        if !in_room(p, h, w) {
            assert(at(g, h, w) != 0);
        }
    }
}

/// Rooms laid on an empty grid sit on odd rows and columns, as
/// `create_maze` needs to leave them as they are.
pub proof fn lemma_rooms_odd_closed(first: int, ps: Seq<(int, int, int, int)>)
    requires
        1 <= first <= 1_000_000,
        ps.len() <= 1000,
        forall|k: int| 0 <= k < ps.len() ==> fits((#[trigger] ps[k]).0, ps[k].1) && fits(ps[k].2, ps[k].3),
    ensures
        grid_wf(paint_rooms(empty_grid(), ps, first)),
        odd_closed(paint_rooms(empty_grid(), ps, first)),
    decreases ps.len(),
{
    if ps.len() == 0 {
        assert forall|h: int, w: int| 1 <= h <= 59 && 1 <= w <= 59 && #[trigger] at(empty_grid(), h, w) != 0 implies false by {
            lemma_cell_bounds(h, w);
        }
    } else {
        let rest = ps.drop_last();
        assert forall|k: int| 0 <= k < rest.len() implies fits((#[trigger] rest[k]).0, rest[k].1) && fits(rest[k].2, rest[k].3) by {
            assert(rest[k] == ps[k]);
        }
        lemma_rooms_odd_closed(first, rest);
        assert(fits(ps[ps.len() - 1].0, ps[ps.len() - 1].1) && fits(ps[ps.len() - 1].2, ps[ps.len() - 1].3));
        lemma_paint_room_odd_closed(paint_rooms(empty_grid(), rest, first), ps.last(), (first + ps.len() - 1) as i32);
    }
}

/// The spawns `spawns` after each room's crates were put down, room by
/// room: `rooms[r]` lists the cells of room `r`'s crates (3) in order.
pub open spec fn put_rooms(spawns: Seq<i32>, rooms: Seq<Seq<(usize, usize)>>) -> Seq<i32>
    decreases rooms.len(),
{
    if rooms.len() == 0 {
        spawns
    } else {
        put_spawns(put_rooms(spawns, rooms.drop_last()), rooms.last(), 3)
    }
}

/// `cs` is at most three crates put down in room `r`, starting from the
/// spawns `g`: each on a cell of room `r` that was open, with floor
/// allowed, when it was put down (see `spawn_open`).
pub open spec fn crates_of_room(g: Seq<i32>, map: Seq<i32>, numbered: Seq<i32>, r: int, cs: Seq<(usize, usize)>) -> bool {
    &&& cs.len() <= 3
    &&& forall|k: int| 0 <= k < cs.len() ==> in_map((#[trigger] cs[k]).0 as int, cs[k].1 as int)
        && at(numbered, cs[k].0 as int, cs[k].1 as int) == r
        && spawn_open(put_spawns(g, cs.take(k), 3), map, cs[k], true)
}

/// No cell of room `r` is open for a crate: every one already holds a
/// spawn and is not floor.
pub open spec fn room_full(spawns: Seq<i32>, map: Seq<i32>, numbered: Seq<i32>, r: int) -> bool {
    forall|h: int, w: int| in_map(h, w) && #[trigger] at(numbered, h, w) == r
        ==> !spawn_open(spawns, map, (h as usize, w as usize), true)
}

/// The crates of a floor with rooms 1 to `num_rooms`, laid room by room
/// (`rooms[r]` for room `r`) from the spawns `s0` to `s`: none in the
/// starting and ending rooms, at most three in each other room, and, when
/// `all` holds, at least one; when it does not, some such room had no cell
/// left for a crate.
pub open spec fn crates_laid(
    s0: Seq<i32>,
    s: Seq<i32>,
    map: Seq<i32>,
    numbered: Seq<i32>,
    num_rooms: int,
    start: int,
    end: int,
    rooms: Seq<Seq<(usize, usize)>>,
    all: bool,
) -> bool {
    &&& rooms.len() == if num_rooms >= 1 { num_rooms + 1 } else { 1 }
    &&& s == put_rooms(s0, rooms)
    &&& forall|r: int| 0 <= r < rooms.len() ==> crates_of_room(put_rooms(s0, rooms.take(r)), map, numbered, r, #[trigger] rooms[r])
    &&& forall|r: int| 0 <= r < rooms.len() && (r == 0 || r == start || r == end) ==> (#[trigger] rooms[r]).len() == 0
    &&& all ==> forall|r: int| 1 <= r < rooms.len() && r != start && r != end ==> (#[trigger] rooms[r]).len() >= 1
    &&& !all ==> exists|r: int| 1 <= r < rooms.len() && r != start && r != end && #[trigger] room_full(s, map, numbered, r)
}

pub proof fn lemma_put_rooms_push(s0: Seq<i32>, rooms: Seq<Seq<(usize, usize)>>, cs: Seq<(usize, usize)>)
    ensures
        put_rooms(s0, rooms.push(cs)) == put_spawns(put_rooms(s0, rooms), cs, 3),
{
    assert(rooms.push(cs).drop_last() =~= rooms);
}

/// A grid with nothing on it.
pub open spec fn empty_grid() -> Seq<i32> {
    Seq::new(MAP_CELLS as nat, |i: int| 0i32)
}

/// Ghost (1), gellem (2) and skeleton (4) cells of one room, each in the
/// order put down.
pub type EnemyCells = (Seq<(usize, usize)>, Seq<(usize, usize)>, Seq<(usize, usize)>);

/// `g` after one room's ghosts, then gellems, then skeletons.
pub open spec fn put_enemies(g: Seq<i32>, t: EnemyCells) -> Seq<i32> {
    put_spawns(put_spawns(put_spawns(g, t.0, 1), t.1, 2), t.2, 4)
}

/// The spawns after each room's enemies, room by room from an empty grid.
pub open spec fn put_enemy_rooms(rooms: Seq<EnemyCells>) -> Seq<i32>
    decreases rooms.len(),
{
    if rooms.len() == 0 {
        empty_grid()
    } else {
        put_enemies(put_enemy_rooms(rooms.drop_last()), rooms.last())
    }
}

/// Each cell of `cs` is a cell of room `r`, empty when `kind` was put on
/// it, starting from `g`.
pub open spec fn kind_in_room(g: Seq<i32>, numbered: Seq<i32>, r: int, cs: Seq<(usize, usize)>, kind: i32) -> bool {
    forall|k: int| 0 <= k < cs.len() ==> in_map((#[trigger] cs[k]).0 as int, cs[k].1 as int)
        && at(numbered, cs[k].0 as int, cs[k].1 as int) == r
        && at(put_spawns(g, cs.take(k), kind), cs[k].0 as int, cs[k].1 as int) == 0
}

/// Room `r` got the enemies `t`, starting from `g`: at most four ghosts,
/// two gellems and two skeletons, each on a cell of the room that was
/// empty when it was put down.
pub open spec fn enemies_of_room(g: Seq<i32>, numbered: Seq<i32>, r: int, t: EnemyCells) -> bool {
    &&& t.0.len() <= 4 && t.1.len() <= 2 && t.2.len() <= 2
    &&& kind_in_room(g, numbered, r, t.0, 1)
    &&& kind_in_room(put_spawns(g, t.0, 1), numbered, r, t.1, 2)
    &&& kind_in_room(put_spawns(put_spawns(g, t.0, 1), t.1, 2), numbered, r, t.2, 4)
}

/// Every cell of room `r` holds a spawn.
pub open spec fn room_taken(s: Seq<i32>, numbered: Seq<i32>, r: int) -> bool {
    forall|h: int, w: int| in_map(h, w) && #[trigger] at(numbered, h, w) == r ==> at(s, h, w) != 0
}

/// The enemies of a floor with rooms 1 to `num_rooms`, laid room by room
/// (`rooms[r]` for room `r`) on an empty grid, giving `s`: none in the
/// starting and ending rooms; in each other room, when `all` holds, two to
/// four ghosts, up to two gellems and one or two skeletons; when it does
/// not, some such room was left with no empty cell after getting fewer
/// enemies than were drawn for it (so fewer than eight).
pub open spec fn enemies_laid(
    s: Seq<i32>,
    numbered: Seq<i32>,
    num_rooms: int,
    start: int,
    end: int,
    rooms: Seq<EnemyCells>,
    all: bool,
) -> bool {
    &&& rooms.len() == if num_rooms >= 1 { num_rooms + 1 } else { 1 }
    &&& enemies_so_far(s, numbered, start, end, rooms, all)
}

/// `enemies_laid` for the rooms `0 .. rooms.len()` done so far.
pub open spec fn enemies_so_far(
    s: Seq<i32>,
    numbered: Seq<i32>,
    start: int,
    end: int,
    rooms: Seq<EnemyCells>,
    all: bool,
) -> bool {
    &&& s == put_enemy_rooms(rooms)
    &&& forall|r: int| 0 <= r < rooms.len() ==> enemies_of_room(put_enemy_rooms(rooms.take(r)), numbered, r, #[trigger] rooms[r])
    &&& forall|r: int| 0 <= r < rooms.len() && (r == 0 || r == start || r == end)
        ==> (#[trigger] rooms[r]).0.len() == 0 && rooms[r].1.len() == 0 && rooms[r].2.len() == 0
    &&& all ==> forall|r: int| 1 <= r < rooms.len() && r != start && r != end
        ==> (#[trigger] rooms[r]).0.len() >= 2 && rooms[r].2.len() >= 1
    &&& !all ==> exists|r: int| 1 <= r < rooms.len() && r != start && r != end && #[trigger] room_taken(s, numbered, r)
        && rooms[r].0.len() + rooms[r].1.len() + rooms[r].2.len() < 8
}

/// One more room of enemies, or none for the starting and ending rooms.
#[verifier::spinoff_prover]
#[verifier::rlimit(60)]
pub proof fn lemma_enemies_step(
    s: Seq<i32>,
    s1: Seq<i32>,
    s2: Seq<i32>,
    s3: Seq<i32>,
    map: Seq<i32>,
    positions: Seq<(usize, usize)>,
    numbered: Seq<i32>,
    start: int,
    end: int,
    rooms: Seq<EnemyCells>,
    all: bool,
    t: EnemyCells,
    n: (int, int, int),
    ok: (bool, bool, bool),
)
    requires
        grid_wf(s),
        rooms.len() >= 1,
        enemies_so_far(s, numbered, start, end, rooms, all),
        rooms.len() != start && rooms.len() != end,
        forall|k: int| 0 <= k < positions.len() ==> in_map((#[trigger] positions[k]).0 as int, positions[k].1 as int)
            && at(numbered, positions[k].0 as int, positions[k].1 as int) == rooms.len(),
        forall|h: int, w: int| in_map(h, w) && #[trigger] at(numbered, h, w) == rooms.len() ==> positions.contains((h as usize, w as usize)),
        2 <= n.0 < 5 && 0 <= n.1 < 3 && 1 <= n.2 < 3,
        spawns_placed(s, map, positions, 1, false, t.0) && s1 == put_spawns(s, t.0, 1)
            && (ok.0 ==> t.0.len() == n.0)
            && (!ok.0 ==> t.0.len() < n.0 && forall|k: int| 0 <= k < positions.len() ==> !spawn_open(s1, map, #[trigger] positions[k], false)),
        spawns_placed(s1, map, positions, 2, false, t.1) && s2 == put_spawns(s1, t.1, 2)
            && (ok.1 ==> t.1.len() == n.1)
            && (!ok.1 ==> t.1.len() < n.1 && forall|k: int| 0 <= k < positions.len() ==> !spawn_open(s2, map, #[trigger] positions[k], false)),
        spawns_placed(s2, map, positions, 4, false, t.2) && s3 == put_spawns(s2, t.2, 4)
            && (ok.2 ==> t.2.len() == n.2)
            && (!ok.2 ==> t.2.len() < n.2 && forall|k: int| 0 <= k < positions.len() ==> !spawn_open(s3, map, #[trigger] positions[k], false)),
    ensures
        enemies_so_far(s3, numbered, start, end, rooms.push(t), all && ok.0 && ok.1 && ok.2),
{
    let i = rooms.len() as int;
    let r2 = rooms.push(t);
    lemma_placed_in_room(s, map, positions, 1, t.0, numbered, i);
    lemma_put_spawns_taken(s, t.0, 1);
    lemma_placed_in_room(s1, map, positions, 2, t.1, numbered, i);
    lemma_put_spawns_taken(s1, t.1, 2);
    lemma_placed_in_room(s2, map, positions, 4, t.2, numbered, i);
    lemma_put_spawns_taken(s2, t.2, 4);
    lemma_still_taken_trans(s, s1, s2);
    lemma_still_taken_trans(s, s2, s3);
    lemma_still_taken_trans(s1, s2, s3);
    assert(r2.drop_last() =~= rooms);
    assert(r2.take(i) =~= rooms);
    assert(put_enemy_rooms(r2) == s3);
    assert forall|r: int| 0 <= r < r2.len() implies enemies_of_room(put_enemy_rooms(r2.take(r)), numbered, r, #[trigger] r2[r]) by {
        if r < i {
            assert(r2.take(r) =~= rooms.take(r));
            assert(r2[r] == rooms[r]);
        } else {
            assert(r2[r] == t);
        }
    }
    assert forall|r: int| 0 <= r < r2.len() && (r == 0 || r == start || r == end)
        implies (#[trigger] r2[r]).0.len() == 0 && r2[r].1.len() == 0 && r2[r].2.len() == 0 by {
        assert(r < i);
        assert(r2[r] == rooms[r]);
    }
    let all2 = all && ok.0 && ok.1 && ok.2;
    if all2 {
        assert forall|r: int| 1 <= r < r2.len() && r != start && r != end
            implies (#[trigger] r2[r]).0.len() >= 2 && r2[r].2.len() >= 1 by {
            if r < i {
                assert(r2[r] == rooms[r]);
            } else {
                assert(r2[r] == t);
            }
        }
    } else {
        assert(r2[i] == t);
        if !all {
            let r = choose|r: int| 1 <= r < rooms.len() && r != start && r != end && #[trigger] room_taken(s, numbered, r)
                && rooms[r].0.len() + rooms[r].1.len() + rooms[r].2.len() < 8;
            lemma_room_taken_kept(s, s3, numbered, r);
            assert(r2[r] == rooms[r]);
            assert(1 <= r < r2.len() && room_taken(s3, numbered, r));
        } else if !ok.0 {
            lemma_failed_room_taken(s1, map, positions, numbered, i);
            lemma_room_taken_kept(s1, s3, numbered, i);
            assert(1 <= i < r2.len() && room_taken(s3, numbered, i));
        } else if !ok.1 {
            lemma_failed_room_taken(s2, map, positions, numbered, i);
            lemma_room_taken_kept(s2, s3, numbered, i);
            assert(1 <= i < r2.len() && room_taken(s3, numbered, i));
        } else {
            lemma_failed_room_taken(s3, map, positions, numbered, i);
            assert(1 <= i < r2.len() && room_taken(s3, numbered, i));
        }
    }
}

/// The starting and ending rooms get no enemies.
#[verifier::spinoff_prover]
#[verifier::rlimit(60)]
pub proof fn lemma_enemies_skip(s: Seq<i32>, numbered: Seq<i32>, start: int, end: int, rooms: Seq<EnemyCells>, all: bool)
    requires
        enemies_so_far(s, numbered, start, end, rooms, all),
        rooms.len() == start || rooms.len() == end,
    ensures
        enemies_so_far(s, numbered, start, end, rooms.push((Seq::empty(), Seq::empty(), Seq::empty())), all),
{
    let e: EnemyCells = (Seq::empty(), Seq::empty(), Seq::empty());
    let i = rooms.len() as int;
    let r2 = rooms.push(e);
    assert(r2.drop_last() =~= rooms);
    assert(r2.take(i) =~= rooms);
    let g = put_enemy_rooms(rooms);
    assert(put_spawns(g, e.0, 1) == g);
    assert(put_spawns(put_spawns(g, e.0, 1), e.1, 2) == g);
    assert(put_enemies(g, e) == g);
    assert forall|r: int| 0 <= r < r2.len() implies enemies_of_room(put_enemy_rooms(r2.take(r)), numbered, r, #[trigger] r2[r]) by {
        if r < i {
            assert(r2.take(r) =~= rooms.take(r));
            assert(r2[r] == rooms[r]);
        } else {
            assert(r2[r] == e);
        }
    }
    assert forall|r: int| 0 <= r < r2.len() && (r == 0 || r == start || r == end)
        implies (#[trigger] r2[r]).0.len() == 0 && r2[r].1.len() == 0 && r2[r].2.len() == 0 by {
        if r < i {
            assert(r2[r] == rooms[r]);
        } else {
            assert(r2[r] == e);
        }
    }
    if all {
        assert forall|r: int| 1 <= r < r2.len() && r != start && r != end
            implies (#[trigger] r2[r]).0.len() >= 2 && r2[r].2.len() >= 1 by {
            if r < i {
                assert(r2[r] == rooms[r]);
            } else {
                assert(r == i);
            }
        }
    } else {
        let r = choose|r: int| 1 <= r < rooms.len() && r != start && r != end && #[trigger] room_taken(s, numbered, r)
            && rooms[r].0.len() + rooms[r].1.len() + rooms[r].2.len() < 8;
        assert(r2[r] == rooms[r]);
        assert(1 <= r < r2.len() && room_taken(s, numbered, r));
    }
}

/// Putting a non-zero spawn anywhere keeps taken cells taken.
pub proof fn lemma_put_spawns_taken(g: Seq<i32>, cells: Seq<(usize, usize)>, kind: i32)
    requires
        grid_wf(g),
        kind != 0,
        forall|k: int| 0 <= k < cells.len() ==> in_map((#[trigger] cells[k]).0 as int, cells[k].1 as int),
    ensures
        still_taken(g, put_spawns(g, cells, kind)),
        grid_wf(put_spawns(g, cells, kind)),
    decreases cells.len(),
{
    if cells.len() > 0 {
        let rest = cells.drop_last();
        let p = cells.last();
        assert forall|k: int| 0 <= k < rest.len() implies in_map((#[trigger] rest[k]).0 as int, rest[k].1 as int) by {
            assert(rest[k] == cells[k]);
        }
        lemma_put_spawns_taken(g, rest, kind);
        assert(in_map(cells[cells.len() - 1].0 as int, cells[cells.len() - 1].1 as int));
        lemma_set_taken(put_spawns(g, rest, kind), p.0 as int, p.1 as int, kind);
        lemma_still_taken_trans(g, put_spawns(g, rest, kind), put_spawns(g, cells, kind));
    }
}

/// Spawns placed without floor on the cells of room `r` are cells of room
/// `r`, each empty when its spawn went down.
pub proof fn lemma_placed_in_room(
    g: Seq<i32>,
    map: Seq<i32>,
    positions: Seq<(usize, usize)>,
    kind: i32,
    cells: Seq<(usize, usize)>,
    numbered: Seq<i32>,
    r: int,
)
    requires
        spawns_placed(g, map, positions, kind, false, cells),
        forall|k: int| 0 <= k < positions.len() ==> in_map((#[trigger] positions[k]).0 as int, positions[k].1 as int)
            && at(numbered, positions[k].0 as int, positions[k].1 as int) == r,
    ensures
        kind_in_room(g, numbered, r, cells, kind),
        forall|k: int| 0 <= k < cells.len() ==> in_map((#[trigger] cells[k]).0 as int, cells[k].1 as int),
{
    assert forall|k: int| 0 <= k < cells.len() implies in_map((#[trigger] cells[k]).0 as int, cells[k].1 as int)
        && at(numbered, cells[k].0 as int, cells[k].1 as int) == r
        && at(put_spawns(g, cells.take(k), kind), cells[k].0 as int, cells[k].1 as int) == 0 by {
        let j = choose|j: int| 0 <= j < positions.len() && positions[j] == cells[k];
        assert(in_map(positions[j].0 as int, positions[j].1 as int));
    }
}

/// A failed placement without floor leaves every cell of room `r` taken.
pub proof fn lemma_failed_room_taken(
    s: Seq<i32>,
    map: Seq<i32>,
    positions: Seq<(usize, usize)>,
    numbered: Seq<i32>,
    r: int,
)
    requires
        forall|k: int| 0 <= k < positions.len() ==> !spawn_open(s, map, #[trigger] positions[k], false),
        forall|h: int, w: int| in_map(h, w) && #[trigger] at(numbered, h, w) == r ==> positions.contains((h as usize, w as usize)),
    ensures
        room_taken(s, numbered, r),
{
    assert forall|h: int, w: int| in_map(h, w) && #[trigger] at(numbered, h, w) == r implies at(s, h, w) != 0 by {
        assert(positions.contains((h as usize, w as usize)));
        let j = choose|j: int| 0 <= j < positions.len() && positions[j] == (h as usize, w as usize);
        assert(!spawn_open(s, map, positions[j], false));
    }
}

pub proof fn lemma_room_taken_kept(s: Seq<i32>, s2: Seq<i32>, numbered: Seq<i32>, r: int)
    requires
        room_taken(s, numbered, r),
        still_taken(s, s2),
    ensures
        room_taken(s2, numbered, r),
{
    assert forall|h: int, w: int| in_map(h, w) && #[trigger] at(numbered, h, w) == r implies at(s2, h, w) != 0 by {
        assert(at(s, h, w) != 0);
    }
}

/// Raising walls and putting stairs and pillars on floor never makes a
/// dead end: they only fill empty cells or replace floor.
pub proof fn lemma_no_dead_end_kept(r: Seq<i32>, w: Seq<i32>, o: Seq<i32>)
    requires
        grid_wf(r),
        grid_wf(w),
        grid_wf(o),
        forall|h: int, c: int| in_map(h, c) && on_border(h, c) ==> #[trigger] at(r, h, c) != 1,
        forall|h: int, c: int| in_map(h, c) ==> !#[trigger] dead_end(r, h, c),
        forall|h: int, c: int| in_map(h, c) ==> #[trigger] at(w, h, c) == walled(r, h, c),
        forall|i: int| 0 <= i < MAP_CELLS ==> #[trigger] o[i] == w[i] || (w[i] == 1 && 2 <= o[i] <= 5),
    ensures
        forall|h: int, c: int| in_map(h, c) ==> !#[trigger] dead_end(o, h, c),
{
    assert forall|h: int, c: int| in_map(h, c) implies !#[trigger] dead_end(o, h, c) by {
        if at(o, h, c) == 1 {
            lemma_cell_bounds(h, c);
            assert(o[cell(h, c)] == w[cell(h, c)] || (w[cell(h, c)] == 1 && 2 <= o[cell(h, c)] <= 5));
            assert(at(w, h, c) == 1);
            assert(at(r, h, c) == 1);
            assert(!on_border(h, c));
            assert(!dead_end(r, h, c));
            let nbs = seq![(h + 1, c), (h - 1, c), (h, c + 1), (h, c - 1)];
            assert forall|k: int| 0 <= k < 4 && at(o, nbs[k].0, nbs[k].1) == 0 implies at(r, nbs[k].0, nbs[k].1) == 0 by {
                let (a, b) = nbs[k];
                assert(in_map(a, b));
                lemma_cell_bounds(a, b);
                assert(o[cell(a, b)] == w[cell(a, b)] || (w[cell(a, b)] == 1 && 2 <= o[cell(a, b)] <= 5));
                assert(at(w, a, b) == walled(r, a, b));
            }
            assert(at(o, h + 1, c) == 0 ==> at(r, h + 1, c) == 0);
            assert(at(o, h - 1, c) == 0 ==> at(r, h - 1, c) == 0);
            assert(at(o, h, c + 1) == 0 ==> at(r, h, c + 1) == 0);
            assert(at(o, h, c - 1) == 0 ==> at(r, h, c - 1) == 0);
        }
    }
}

/// A floor under construction, with the codes of its tiles, the room each
/// cell belonged to when rooms were laid out, the stairs and the spawns
/// (1 ghost, 2 gellem, 3 crate, 4 skeleton).
pub struct GameMap {
    pub current_floor: i32,
    pub map: Vec<i32>,
    pub numbered_map: Vec<i32>,
    pub num_rooms: i32,
    pub starting_room: i32,
    pub starting_position: (i32, i32),
    pub ending_room: i32,
    pub ending_position: (i32, i32),
    pub enemy_and_object_spawns: Vec<i32>,
}

impl GameMap {
    pub open spec fn wf(&self) -> bool {
        &&& grid_wf(self.map@)
        &&& grid_wf(self.numbered_map@)
        &&& grid_wf(self.enemy_and_object_spawns@)
    }

    pub fn new(current_floor: i32) -> (m: GameMap)
        ensures
            m.wf(),
            m.current_floor == current_floor,
            forall|i: int| 0 <= i < MAP_CELLS ==> m.map[i] == 0 && m.numbered_map[i] == 0
                && m.enemy_and_object_spawns[i] == 0,
            m.num_rooms == 1,
            m.starting_room == 1,
            m.starting_position == (0i32, 0i32),
            m.ending_room == 2,
            m.ending_position == (0i32, 0i32),
    {
        GameMap {
            current_floor,
            map: zero_grid(),
            numbered_map: zero_grid(),
            num_rooms: 1,
            starting_room: 1,
            starting_position: (0, 0),
            ending_room: 2,
            ending_position: (0, 0),
            enemy_and_object_spawns: zero_grid(),
        }
    }

    /// Joins regions `r1` and `r2`: every cell of either becomes the smaller
    /// number.
    pub fn coalesce(&mut self, r1: i32, r2: i32, map: Vec<i32>) -> (new_map: Vec<i32>)
        requires
            grid_wf(map@),
        ensures
            grid_wf(new_map@),
            forall|i: int| 0 <= i < MAP_CELLS ==> new_map[i] == joined(#[trigger] map[i], r1, r2),
            *final(self) == *old(self),
    {
        let mut new_map = map;
        let m = if r1 <= r2 { r1 } else { r2 };
        let mut i: usize = 0;
        while i < MAP_CELLS
            invariant
                i <= MAP_CELLS,
                m == (if r1 <= r2 { r1 } else { r2 }),
                new_map.len() == MAP_CELLS,
                forall|j: int| 0 <= j < i ==> new_map[j] == joined(map[j], r1, r2),
                forall|j: int| i <= j < MAP_CELLS ==> new_map[j] == map[j],
            decreases MAP_CELLS - i,
        {
            if new_map[i] == r1 || new_map[i] == r2 {
                new_map.set(i, m);
            }
            i += 1;
        }
        new_map
    }

    /// Raises walls: every empty cell next to floor (diagonals included)
    /// becomes a wall.
    pub fn create_walls(&mut self)
        requires
            old(self).wf(),
        ensures
            final(self).wf(),
            forall|h: int, w: int| in_map(h, w) ==> #[trigger] at(final(self).map@, h, w) == walled(old(self).map@, h, w),
            final(self).numbered_map == old(self).numbered_map,
            final(self).enemy_and_object_spawns == old(self).enemy_and_object_spawns,
            final(self).num_rooms == old(self).num_rooms,
            final(self).starting_room == old(self).starting_room,
            final(self).starting_position == old(self).starting_position,
            final(self).ending_room == old(self).ending_room,
            final(self).ending_position == old(self).ending_position,
            final(self).current_floor == old(self).current_floor,
    {
        let ghost g0 = self.map@;
        let mut new_map = self.map.clone();
        let mut h: usize = 0;
        while h < MAP_SIZE_H
            invariant
                h <= 61,
                g0 == old(self).map@,
                grid_wf(g0),
                new_map.len() == MAP_CELLS,
                forall|i: int| 0 <= i < MAP_CELLS ==> new_map[i] == g0[i] || (g0[i] == 0 && new_map[i] == 2),
                forall|r: int, c: int| in_map(r, c) && r < h ==> #[trigger] at(new_map@, r, c) == walled(g0, r, c),
                forall|r: int, c: int| in_map(r, c) && r >= h ==> #[trigger] at(new_map@, r, c) == at(g0, r, c),
            decreases 61 - h,
        {
            let mut w: usize = 0;
            while w < MAP_SIZE_W
                invariant
                    h < 61,
                    w <= 61,
                    grid_wf(g0),
                    new_map.len() == MAP_CELLS,
                    forall|i: int| 0 <= i < MAP_CELLS ==> new_map[i] == g0[i] || (g0[i] == 0 && new_map[i] == 2),
                    forall|r: int, c: int| in_map(r, c) && (r < h || (r == h && c < w)) ==> #[trigger] at(new_map@, r, c) == walled(g0, r, c),
                    forall|r: int, c: int| in_map(r, c) && (r > h || (r == h && c >= w)) ==> #[trigger] at(new_map@, r, c) == at(g0, r, c),
                decreases 61 - w,
            {
                let here = h * 61 + w;
                if new_map[here] == 0 {
                    let mut k: usize = 0;
                    while k < 3
                        invariant
                            h < 61,
                            w < 61,
                            here == cell(h as int, w as int),
                            k <= 3,
                            grid_wf(g0),
                            new_map.len() == MAP_CELLS,
                            at(g0, h as int, w as int) == 0,
                            forall|i: int| 0 <= i < MAP_CELLS ==> new_map[i] == g0[i] || (g0[i] == 0 && new_map[i] == 2),
                            forall|r: int, c: int| in_map(r, c) && (r < h || (r == h && c < w)) ==> #[trigger] at(new_map@, r, c) == walled(g0, r, c),
                            forall|r: int, c: int| in_map(r, c) && (r > h || (r == h && c > w)) ==> #[trigger] at(new_map@, r, c) == at(g0, r, c),
                            new_map@[here as int] == 2 <==> exists|k2: int, l2: int| 0 <= k2 < k && 0 <= l2 < 3 && #[trigger] near_floor_at(g0, h as int, w as int, k2, l2),
                        decreases 3 - k,
                    {
                        let mut l: usize = 0;
                        while l < 3
                            invariant
                                h < 61,
                                w < 61,
                                here == cell(h as int, w as int),
                                k < 3,
                                l <= 3,
                                grid_wf(g0),
                                new_map.len() == MAP_CELLS,
                                at(g0, h as int, w as int) == 0,
                                forall|i: int| 0 <= i < MAP_CELLS ==> new_map[i] == g0[i] || (g0[i] == 0 && new_map[i] == 2),
                                forall|r: int, c: int| in_map(r, c) && (r < h || (r == h && c < w)) ==> #[trigger] at(new_map@, r, c) == walled(g0, r, c),
                                forall|r: int, c: int| in_map(r, c) && (r > h || (r == h && c > w)) ==> #[trigger] at(new_map@, r, c) == at(g0, r, c),
                                new_map@[here as int] == 2 <==> exists|k2: int, l2: int|
                                    ((0 <= k2 < k && 0 <= l2 < 3) || (k2 == k && 0 <= l2 < l)) && #[trigger] near_floor_at(g0, h as int, w as int, k2, l2),
                            decreases 3 - l,
                        {
                            if h + k < 1 || w + l < 1 || h + k >= 61 || w + l >= 61 {
                                assert(!near_floor_at(g0, h as int, w as int, k as int, l as int));
                            } else {
                                let nb = (h + k - 1) * 61 + (w + l - 1);
                                assert(nb == cell(h as int + k as int - 1, w as int + l as int - 1));
                                if new_map[nb] == 1 {
                                    assert(near_floor_at(g0, h as int, w as int, k as int, l as int));
                                    proof { lemma_set_cell(new_map@, h as int, w as int, 2); }
                                    new_map.set(here, 2);
                                } else {
                                    assert(!near_floor_at(g0, h as int, w as int, k as int, l as int));
                                }
                            }
                            l += 1;
                        }
                        k += 1;
                    }
                    assert(at(new_map@, h as int, w as int) == walled(g0, h as int, w as int));
                } else {
                    assert(at(new_map@, h as int, w as int) == walled(g0, h as int, w as int));
                }
                w += 1;
            }
            h += 1;
        }
        self.map = new_map;
    }

    /// Fills in dead ends until none is left: a floor cell (1) with three or
    /// four empty sides becomes empty, pass after pass, until a whole pass
    /// removes nothing.
    pub fn remove_dead_ends(&mut self)
        requires
            old(self).wf(),
            forall|h: int, w: int| in_map(h, w) && on_border(h, w) ==> #[trigger] at(old(self).map@, h, w) != 1,
        ensures
            final(self).wf(),
            forall|i: int| 0 <= i < MAP_CELLS ==> #[trigger] final(self).map[i] == old(self).map[i]
                || (old(self).map[i] == 1 && final(self).map[i] == 0),
            forall|h: int, w: int| in_map(h, w) ==> !#[trigger] dead_end(final(self).map@, h, w),
            exists|rm: Seq<(int, int)>| #[trigger] dead_ends_removed(old(self).map@, rm) && final(self).map@ == unfill(old(self).map@, rm),
            (forall|h: int, w: int| in_map(h, w) ==> !#[trigger] dead_end(old(self).map@, h, w)) ==> final(self).map@ == old(self).map@,
            final(self).numbered_map == old(self).numbered_map,
            final(self).enemy_and_object_spawns == old(self).enemy_and_object_spawns,
            final(self).num_rooms == old(self).num_rooms,
            final(self).starting_room == old(self).starting_room,
            final(self).starting_position == old(self).starting_position,
            final(self).ending_room == old(self).ending_room,
            final(self).ending_position == old(self).ending_position,
            final(self).current_floor == old(self).current_floor,
    {
        let ghost g0 = self.map@;
        let mut new_map = self.map.clone();
        let mut still_removing = true;
        let ghost rm: Seq<(int, int)> = Seq::empty();
        proof {
            assert(new_map@ =~= g0);
        }
        while still_removing
            invariant
                grid_wf(g0),
                g0 == old(self).map@,
                new_map.len() == MAP_CELLS,
                forall|i: int| 0 <= i < MAP_CELLS ==> #[trigger] new_map[i] == g0[i] || (g0[i] == 1 && new_map[i] == 0),
                forall|h: int, w: int| in_map(h, w) && on_border(h, w) ==> #[trigger] at(new_map@, h, w) != 1,
                !still_removing ==> forall|h: int, w: int| in_map(h, w) ==> !#[trigger] dead_end(new_map@, h, w),
                dead_ends_removed(g0, rm),
                new_map@ == unfill(g0, rm),
            decreases count_val(new_map@, 1) + if still_removing { 1nat } else { 0nat },
        {
            let ghost gs = new_map@;
            still_removing = false;
            let mut h: usize = 0;
            while h < MAP_SIZE_H
                invariant
                    h <= 61,
                    grid_wf(g0),
                    grid_wf(gs),
                    new_map.len() == MAP_CELLS,
                    forall|i: int| 0 <= i < MAP_CELLS ==> #[trigger] gs[i] == g0[i] || (g0[i] == 1 && gs[i] == 0),
                    forall|i: int| 0 <= i < MAP_CELLS ==> #[trigger] new_map[i] == gs[i] || (gs[i] == 1 && new_map[i] == 0),
                    forall|r: int, c: int| in_map(r, c) && on_border(r, c) ==> #[trigger] at(new_map@, r, c) != 1,
                    still_removing ==> count_val(new_map@, 1) < count_val(gs, 1),
                    !still_removing ==> new_map@ == gs,
                    !still_removing ==> forall|r: int, c: int| in_map(r, c) && r < h ==> !#[trigger] dead_end(new_map@, r, c),
                    dead_ends_removed(g0, rm),
                    new_map@ == unfill(g0, rm),
                decreases 61 - h,
            {
                let mut w: usize = 0;
                while w < MAP_SIZE_W
                    invariant
                        h < 61,
                        w <= 61,
                        grid_wf(g0),
                        grid_wf(gs),
                        new_map.len() == MAP_CELLS,
                        forall|i: int| 0 <= i < MAP_CELLS ==> #[trigger] gs[i] == g0[i] || (g0[i] == 1 && gs[i] == 0),
                        forall|i: int| 0 <= i < MAP_CELLS ==> #[trigger] new_map[i] == gs[i] || (gs[i] == 1 && new_map[i] == 0),
                        forall|r: int, c: int| in_map(r, c) && on_border(r, c) ==> #[trigger] at(new_map@, r, c) != 1,
                        still_removing ==> count_val(new_map@, 1) < count_val(gs, 1),
                        !still_removing ==> new_map@ == gs,
                        !still_removing ==> forall|r: int, c: int| in_map(r, c) && (r < h || (r == h && c < w)) ==> !#[trigger] dead_end(new_map@, r, c),
                        dead_ends_removed(g0, rm),
                        new_map@ == unfill(g0, rm),
                    decreases 61 - w,
                {
                    let here = h * 61 + w;
                    if new_map[here] == 1 {
                        assert(at(new_map@, h as int, w as int) == 1);
                        assert(!on_border(h as int, w as int));
                        let mut count: i32 = 0;
                        if new_map[here + 61] == 0 {
                            count += 1;
                        }
                        if new_map[here - 61] == 0 {
                            count += 1;
                        }
                        if new_map[here + 1] == 0 {
                            count += 1;
                        }
                        if new_map[here - 1] == 0 {
                            count += 1;
                        }
                        assert(count == empty_neighbours(new_map@, h as int, w as int));
                        if count >= 3 {
                            proof {
                                lemma_set_cell(new_map@, h as int, w as int, 0);
                                lemma_count_val_update(new_map@, here as int, 0, 1);
                                lemma_dead_ends_removed_push(g0, rm, h as int, w as int);
                                rm = rm.push((h as int, w as int));
                            }
                            still_removing = true;
                            new_map.set(here, 0);
                        }
                    }
                    w += 1;
                }
                h += 1;
            }
        }
        self.map = new_map;
        proof {
            assert(dead_ends_removed(g0, rm) && self.map@ == unfill(g0, rm));
            if forall|h: int, w: int| in_map(h, w) ==> !#[trigger] dead_end(g0, h, w) {
                if rm.len() > 0 {
                    assert(rm.take(0) =~= Seq::<(int, int)>::empty());
                    assert(in_map(rm[0].0, rm[0].1) && dead_end(unfill(g0, rm.take(0)), rm[0].0, rm[0].1));
                    assert(false);
                }
                assert(self.map@ =~= g0);
            }
        }
    }

    /// Lists every door candidate of `map` (see `all_connectors`).
    pub fn get_connectors(&mut self, map: Vec<i32>) -> (res: Vec<Connector>)
        requires
            grid_wf(map@),
        ensures
            res@ == all_connectors(map@),
            forall|i: int| 0 <= i < res.len() ==> conn_ok(map@, #[trigger] res[i]),
            *final(self) == *old(self),
    {
        let ghost g = map@;
        let mut res: Vec<Connector> = Vec::new();
        let mut h: usize = 0;
        while h < 61
            invariant
                h <= 61,
                g == map@,
                grid_wf(g),
                res@ == conns_h(g, h as int),
                forall|i: int| 0 <= i < res.len() ==> conn_ok(g, #[trigger] res[i]),
            decreases 61 - h,
        {
            let ghost base_h = res@;
            let mut w: usize = 0;
            while w < 61
                invariant
                    h < 61,
                    w <= 61,
                    g == map@,
                    grid_wf(g),
                    base_h == conns_h(g, h as int),
                    res@ == base_h + conns_w(g, h as int, w as int),
                    forall|i: int| 0 <= i < res.len() ==> conn_ok(g, #[trigger] res[i]),
                decreases 61 - w,
            {
                let ghost base_w = res@;
                let here = h * 61 + w;
                if map[here] != 0 {
                    let mut k: usize = 0;
                    while k < 3
                        invariant
                            h < 61,
                            w < 61,
                            k <= 3,
                            here == cell(h as int, w as int),
                            g == map@,
                            grid_wf(g),
                            at(g, h as int, w as int) != 0,
                            base_w == base_h + conns_w(g, h as int, w as int),
                            res@ == base_w + conns_k(g, h as int, w as int, k as int),
                            forall|i: int| 0 <= i < res.len() ==> conn_ok(g, #[trigger] res[i]),
                        decreases 3 - k,
                    {
                        let ghost base_k = res@;
                        let mut l: usize = 0;
                        while l < 3
                            invariant
                                h < 61,
                                w < 61,
                                k < 3,
                                l <= 3,
                                here == cell(h as int, w as int),
                                g == map@,
                                grid_wf(g),
                                at(g, h as int, w as int) != 0,
                                base_k == base_w + conns_k(g, h as int, w as int, k as int),
                                res@ == base_k + conns_l(g, h as int, w as int, k as int, l as int),
                                forall|i: int| 0 <= i < res.len() ==> conn_ok(g, #[trigger] res[i]),
                            decreases 3 - l,
                        {
                            let ghost before = res@;
                            let ghost found = connector_at(g, h as int, w as int, k as int, l as int);
                            if h + 2 * k < 2 || w + 2 * l < 2 || h + 2 * k - 2 >= 61 || w + 2 * l - 2 >= 61 {
                                assert(found is None);
                            } else {
                                let up = (h + k - 1) * 61 + w;
                                let far = (h + 2 * k - 2) * 61 + w;
                                let side = h * 61 + (w + l - 1);
                                let farside = h * 61 + (w + 2 * l - 2);
                                if map[up] == 0 && map[far] != 0 {
                                    let r1 = map[far];
                                    let r2 = map[here];
                                    if r1 != r2 {
                                        assert(found == Some(((h + k - 1) as usize, w, r1, r2)));
                                        res.push((h + k - 1, w, r1, r2));
                                    } else {
                                        assert(found is None);
                                    }
                                } else if map[side] == 0 && map[farside] != 0 {
                                    let r1 = map[farside];
                                    let r2 = map[here];
                                    if r1 != r2 {
                                        assert(found == Some((h, (w + l - 1) as usize, r1, r2)));
                                        res.push((h, w + l - 1, r1, r2));
                                    } else {
                                        assert(found is None);
                                    }
                                } else {
                                    assert(found is None);
                                }
                            }
                            assert(res@ =~= before + opt_seq(found));
                            assert(conns_l(g, h as int, w as int, k as int, l as int + 1)
                                =~= conns_l(g, h as int, w as int, k as int, l as int) + opt_seq(found));
                            l += 1;
                        }
                        assert(conns_k(g, h as int, w as int, k as int + 1)
                            =~= conns_k(g, h as int, w as int, k as int) + conns_l(g, h as int, w as int, k as int, 3));
                        k += 1;
                    }
                } else {
                    assert forall|k2: int, l2: int| connector_at(g, h as int, w as int, k2, l2) is None by {}
                    assert(conns_l(g, h as int, w as int, 0, 3) =~= Seq::<Connector>::empty()) by {
                        reveal_with_fuel(conns_l, 4);
                    }
                    assert(conns_l(g, h as int, w as int, 1, 3) =~= Seq::<Connector>::empty()) by {
                        reveal_with_fuel(conns_l, 4);
                    }
                    assert(conns_l(g, h as int, w as int, 2, 3) =~= Seq::<Connector>::empty()) by {
                        reveal_with_fuel(conns_l, 4);
                    }
                    assert(conns_k(g, h as int, w as int, 3) =~= Seq::<Connector>::empty()) by {
                        reveal_with_fuel(conns_k, 4);
                    }
                }
                assert(conns_w(g, h as int, w as int + 1) =~= conns_w(g, h as int, w as int) + conns_k(g, h as int, w as int, 3));
                w += 1;
            }
            assert(conns_h(g, h as int + 1) =~= conns_h(g, h as int) + conns_w(g, h as int, 61));
            h += 1;
        }
        res
    }

    /// Opens doors until every region is joined: while door candidates are
    /// left, one chosen at random becomes floor (1), sometimes with a second
    /// and third door, and the two regions it separates are joined. Each
    /// round takes one region number away, so there are fewer rounds than
    /// region numbers (see `region_labels`).
    pub fn connect_maze(&mut self)
        requires
            old(self).wf(),
            forall|i: int| 0 <= i < MAP_CELLS ==> #[trigger] old(self).map[i] >= 0,
            forall|h: int, w: int| in_map(h, w) && on_border(h, w) ==> #[trigger] at(old(self).map@, h, w) == 0,
        ensures
            final(self).wf(),
            all_connectors(final(self).map@).len() == 0,
            exists|rounds: Seq<Seq<Connector>>| #[trigger] rounds_ok(old(self).map@, rounds)
                && final(self).map@ == joined_after(old(self).map@, rounds)
                && rounds.len() < region_labels(old(self).map@).len(),
            forall|i: int| 0 <= i < MAP_CELLS && old(self).map[i] == 0 ==> #[trigger] final(self).map[i] == 0 || final(self).map[i] == 1,
            forall|i: int| 0 <= i < MAP_CELLS && old(self).map[i] != 0 ==> 1 <= #[trigger] final(self).map[i] <= old(self).map[i],
            forall|h: int, w: int| in_map(h, w) && on_border(h, w) ==> #[trigger] at(final(self).map@, h, w) == 0,
            final(self).numbered_map == old(self).numbered_map,
            final(self).enemy_and_object_spawns == old(self).enemy_and_object_spawns,
            final(self).num_rooms == old(self).num_rooms,
            final(self).starting_room == old(self).starting_room,
            final(self).starting_position == old(self).starting_position,
            final(self).ending_room == old(self).ending_room,
            final(self).ending_position == old(self).ending_position,
            final(self).current_floor == old(self).current_floor,
    {
        let ghost g0 = self.map@;
        let mut connectors = self.get_connectors(self.map.clone());
        let mut new_map = self.map.clone();
        let ghost rounds: Seq<Seq<Connector>> = Seq::empty();
        proof {
            assert(new_map@ =~= g0);
        }
        while connectors.len() > 0
            invariant
                self.wf(),
                *self == *old(self),
                g0 == old(self).map@,
                grid_wf(new_map@),
                connectors@ == all_connectors(new_map@),
                forall|i: int| 0 <= i < connectors.len() ==> conn_ok(new_map@, #[trigger] connectors[i]),
                forall|i: int| 0 <= i < MAP_CELLS && g0[i] == 0 ==> #[trigger] new_map[i] == 0 || new_map[i] == 1,
                forall|i: int| 0 <= i < MAP_CELLS && g0[i] != 0 ==> 1 <= #[trigger] new_map[i] <= g0[i],
                forall|h: int, w: int| in_map(h, w) && on_border(h, w) ==> #[trigger] at(new_map@, h, w) == 0,
                rounds_ok(g0, rounds),
                new_map@ == joined_after(g0, rounds),
                rounds.len() + region_labels(new_map@).len() <= region_labels(g0).len(),
            decreases excess_sum(new_map@),
        {
            let ghost gd = new_map@;
            let n = connectors.len();
            let rand_connection = random_in(0, n);
            let c = connectors[rand_connection];
            proof {
                assert(conn_ok(gd, c));
            }
            self.open_door(&mut new_map, c, Ghost(gd));
            let ghost mut ds: Seq<Connector> = seq![c];
            proof {
                lemma_open_doors_push(gd, Seq::empty(), c);
                assert(seq![c] =~= Seq::<Connector>::empty().push(c));
                assert(new_map@ == open_doors(gd, ds));
                assert(connectors@[rand_connection as int] == c);
            }
            if random_in(0, 30) < 5 {
                let rand_addition: usize;
                if rand_connection > n / 2 {
                    rand_addition = random_in(0, n / 2);
                } else {
                    rand_addition = random_in(n / 2, n);
                }
                let d = connectors[rand_addition];
                assert(conn_ok(gd, d));
                self.open_door(&mut new_map, d, Ghost(gd));
                proof {
                    lemma_open_doors_push(gd, ds, d);
                    assert(connectors@[rand_addition as int] == d);
                    ds = ds.push(d);
                }
                if random_in(0, 30) < 2 {
                    let rand_addition = random_in(0, n);
                    let d = connectors[rand_addition];
                    assert(conn_ok(gd, d));
                    self.open_door(&mut new_map, d, Ghost(gd));
                    proof {
                        lemma_open_doors_push(gd, ds, d);
                        assert(connectors@[rand_addition as int] == d);
                        ds = ds.push(d);
                    }
                }
            }
            let ghost gdoors = new_map@;
            proof {
                assert(gdoors == open_doors(gd, ds));
                assert(ds[0] == c);
                assert(1 <= ds.len() <= 3);
                assert forall|i: int| 0 <= i < ds.len() implies all_connectors(joined_after(g0, rounds)).contains(#[trigger] ds[i]) by {
                    let k = choose|k: int| 0 <= k < connectors@.len() && connectors@[k] == ds[i];
                }
            }
            let r1 = c.2;
            let r2 = c.3;
            new_map = self.coalesce(r1, r2, new_map);
            proof {
                let big = if r1 <= r2 { r2 } else { r1 };
                let cy = c.0 as int;
                let cx = c.1 as int;
                // a cell of the larger region sits next to the door
                let j: int = if 1 <= cy <= 59 && ((at(gd, cy - 1, cx) == r1 && at(gd, cy + 1, cx) == r2)
                    || (at(gd, cy - 1, cx) == r2 && at(gd, cy + 1, cx) == r1)) {
                    if at(gd, cy - 1, cx) == big { cell(cy - 1, cx) } else { cell(cy + 1, cx) }
                } else {
                    if at(gd, cy, cx - 1) == big { cell(cy, cx - 1) } else { cell(cy, cx + 1) }
                };
                let small_cell: int = if 1 <= cy <= 59 && ((at(gd, cy - 1, cx) == r1 && at(gd, cy + 1, cx) == r2)
                    || (at(gd, cy - 1, cx) == r2 && at(gd, cy + 1, cx) == r1)) {
                    if at(gd, cy - 1, cx) == big { cell(cy + 1, cx) } else { cell(cy - 1, cx) }
                } else {
                    if at(gd, cy, cx - 1) == big { cell(cy, cx + 1) } else { cell(cy, cx - 1) }
                };
                assert(0 <= j < MAP_CELLS);
                assert(0 <= small_cell < MAP_CELLS);
                assert(gd[j] == big);
                assert(gd[j] >= 0);
                assert(gd[small_cell] >= 0);
                assert(r1 >= 1 && r2 >= 1);
                assert(gdoors[j] == big);
                assert(forall|i: int| 0 <= i < MAP_CELLS ==> excess(#[trigger] gdoors[i]) <= excess(gd[i]));
                lemma_excess_sum_le(gd, gdoors);
                lemma_excess_sum_lt(gdoors, new_map@, j);
                assert forall|i: int| 0 <= i < MAP_CELLS && g0[i] == 0 implies #[trigger] new_map[i] == 0 || new_map[i] == 1 by {
                    assert(gd[i] == 0 || gd[i] == 1);
                    assert(gdoors[i] == gd[i] || (gd[i] == 0 && gdoors[i] == 1));
                    assert(new_map[i] == joined(gdoors[i], r1, r2));
                }
                assert forall|i: int| 0 <= i < MAP_CELLS && g0[i] != 0 implies 1 <= #[trigger] new_map[i] <= g0[i] by {
                    assert(1 <= gd[i] <= g0[i]);
                    assert(gdoors[i] == gd[i]);
                    assert(new_map[i] == joined(gdoors[i], r1, r2));
                }
                assert forall|h: int, w: int| in_map(h, w) && on_border(h, w) implies #[trigger] at(new_map@, h, w) == 0 by {
                    assert(at(gdoors, h, w) == 0);
                }
                lemma_rounds_push(g0, rounds, ds);
                assert(new_map@ =~= joined_round(gd, ds));
                assert forall|i: int| 0 <= i < MAP_CELLS implies #[trigger] gd[i] >= 0 by {
                    if g0[i] == 0 {
                        assert(gd[i] == 0 || gd[i] == 1);
                    } else {
                        assert(1 <= gd[i]);
                    }
                }
                assert forall|i: int| 0 <= i < MAP_CELLS implies #[trigger] gdoors[i] == gd[i] || (gd[i] == 0 && gdoors[i] == 1) by {
                    if g0[i] == 0 {
                        assert(gd[i] == 0 || gd[i] == 1);
                    } else {
                        assert(1 <= gd[i]);
                    }
                }
                assert forall|i: int| 0 <= i < MAP_CELLS implies #[trigger] new_map@[i] == joined(gdoors[i], r1, r2) by {
                    assert(new_map[i] == joined(gdoors[i], r1, r2));
                }
                lemma_round_drops_label(gd, gdoors, new_map@, r1, r2, j, small_cell);
                rounds = rounds.push(ds);
            }
            connectors = self.get_connectors(new_map.clone());
        }
        proof {
            lemma_region_labels_finite(new_map@);
        }
        self.map = new_map;
    }

    /// Turns the empty cell of a door candidate into floor.
    fn open_door(&mut self, new_map: &mut Vec<i32>, d: Connector, Ghost(gd): Ghost<Seq<i32>>)
        requires
            grid_wf(gd),
            grid_wf(old(new_map)@),
            conn_ok(gd, d),
            forall|h: int, w: int| in_map(h, w) && on_border(h, w) ==> #[trigger] at(gd, h, w) == 0,
            forall|h: int, w: int| in_map(h, w) && on_border(h, w) ==> #[trigger] at(old(new_map)@, h, w) == 0,
            forall|i: int| 0 <= i < MAP_CELLS ==> #[trigger] old(new_map)[i] == gd[i] || (gd[i] == 0 && old(new_map)[i] == 1),
        ensures
            *final(self) == *old(self),
            grid_wf(final(new_map)@),
            final(new_map)@ == old(new_map)@.update(cell(d.0 as int, d.1 as int), 1),
            forall|i: int| 0 <= i < MAP_CELLS ==> #[trigger] final(new_map)[i] == gd[i] || (gd[i] == 0 && final(new_map)[i] == 1),
            forall|h: int, w: int| in_map(h, w) && on_border(h, w) ==> #[trigger] at(final(new_map)@, h, w) == 0,
    {
        let cy = d.0;
        let cx = d.1;
        proof {
            // the door lies inside the map, away from the border
            if 1 <= cy <= 59 && ((at(gd, cy - 1, cx as int) == d.2 && at(gd, cy + 1, cx as int) == d.3)
                || (at(gd, cy - 1, cx as int) == d.3 && at(gd, cy + 1, cx as int) == d.2)) {
                assert(at(gd, cy - 1, cx as int) != 0);
            } else {
                assert(at(gd, cy as int, cx - 1) != 0);
            }
            assert(!on_border(cy as int, cx as int));
            lemma_set_cell(old(new_map)@, cy as int, cx as int, 1);
        }
        new_map.set(cy * 61 + cx, 1);
    }

    /// Carves one maze from the last point of `recurse` with a randomised
    /// depth-first walk over odd cells: from the current point it tries the
    /// untried directions (north, east, south, west) in random order and
    /// steps two cells into any empty cell, marking the cell between; a
    /// point with no direction left is dropped. Every carved cell gets
    /// `num_maze`. Each try picks the first, second or third of the
    /// directions still untried (never a fourth), each with equal chance.
    #[verifier::spinoff_prover]
    #[verifier::rlimit(90)]
    pub fn build_maze(&mut self, new_map: Vec<i32>, num_maze: i32, recurse: &mut Vec<MazeStep>) -> (res: Vec<i32>)
        requires
            grid_wf(new_map@),
            old(recurse).len() >= 1,
            forall|i: int| 0 <= i < old(recurse).len() ==> step_ok(#[trigger] old(recurse)[i]),
            num_maze >= 1,
        ensures
            *final(self) == *old(self),
            grid_wf(res@),
            final(recurse)@ == seq![old(recurse)@[0]],
            at(res@, old(recurse)@.last().0 as int, old(recurse)@.last().1 as int) == num_maze,
            forall|i: int| 0 <= i < MAP_CELLS ==> #[trigger] res[i] == new_map[i] || res[i] == num_maze,
            forall|h: int, w: int| in_map(h, w) && on_border(h, w) ==> #[trigger] at(res@, h, w) == at(new_map@, h, w),
            still_taken(new_map@, res@),
            old(recurse).len() >= 2 && (forall|k: int| 1 <= k < old(recurse).len() ==> (same_point(#[trigger] old(recurse)@[k], old(recurse)@.last())
                || at(new_map@, old(recurse)@[k].0 as int, old(recurse)@[k].1 as int) != 0)
                && tried_closed(new_map@, old(recurse)@[k])) ==> forall|h: int, w: int|
                #[trigger] maze_visited(new_map@, res@, old(recurse)@.last(), num_maze, h, w) ==> maze_done(res@, h, w),
            (forall|k: int| 1 <= k < old(recurse).len() ==> same_point(#[trigger] old(recurse)@[k], old(recurse)@.last()))
                ==> forall|h: int, w: int| in_map(h, w) && #[trigger] at(res@, h, w) != at(new_map@, h, w)
                ==> joined_to(res@, num_maze, (old(recurse)@.last().0 as int, old(recurse)@.last().1 as int), (h, w)),
            (forall|k: int| 1 <= k < old(recurse).len() ==> same_point(#[trigger] old(recurse)@[k], old(recurse)@.last())
                || at(new_map@, old(recurse)@[k].0 as int, old(recurse)@[k].1 as int) != 0)
                ==> exists|parent: Map<(int, int), (int, int)>, rank: Map<(int, int), int>|
                #[trigger] maze_forest(new_map@, res@, old(recurse)@, num_maze, parent, rank),
            odd_closed(new_map@) && at(new_map@, old(recurse)@.last().0 as int, old(recurse)@.last().1 as int) == 0
                ==> forall|i: int| 0 <= i < MAP_CELLS && #[trigger] res[i] != new_map[i] ==> new_map[i] == 0,
            (forall|k: int| 1 <= k < old(recurse).len() ==> same_point(#[trigger] old(recurse)@[k], old(recurse)@.last()))
                && odd_closed(new_map@)
                && at(new_map@, old(recurse)@.last().0 as int, old(recurse)@.last().1 as int) == 0 ==> odd_closed(res@),
    {
        let ghost m0 = new_map@;
        let ghost r0 = recurse@;
        let ghost start = r0.last();
        let ghost single = forall|k: int| 1 <= k < r0.len() ==> same_point(#[trigger] r0[k], r0.last());
        let ghost nz = forall|k: int| 1 <= k < r0.len() ==> same_point(#[trigger] r0[k], r0.last())
            || at(m0, r0[k].0 as int, r0[k].1 as int) != 0;
        let ghost honest = r0.len() >= 2 && forall|k: int| 1 <= k < r0.len() ==> (same_point(#[trigger] r0[k], r0.last())
            || at(m0, r0[k].0 as int, r0[k].1 as int) != 0) && tried_closed(m0, r0[k]);
        let mut new_map = new_map;
        let mut rec_length = recurse.len() - 1;
        let mut y = recurse[rec_length].0;
        let mut x = recurse[rec_length].1;
        assert(step_ok(recurse@[rec_length as int]));
        proof {
            lemma_set_cell(new_map@, y as int, x as int, num_maze);
            lemma_cell_bounds(y as int, x as int);
        }
        new_map.set(y * 61 + x, num_maze);
        let ghost sy = y as int;
        let ghost sx = x as int;
        let ghost mut parent: Map<(int, int), (int, int)> = Map::empty();
        let ghost mut rank: Map<(int, int), int> = Map::empty();
        let ghost mut cnt: int = 0;
        proof {
            if nz {
                reveal(carve_tree);
                assert forall|h: int, w: int| in_map(h, w) && !(h == sy && w == sx) implies #[trigger] at(new_map@, h, w) == at(m0, h, w) by {
                    lemma_cell_bounds(h, w);
                    lemma_cell_bounds(sy, sx);
                    if cell(h, w) == cell(sy, sx) {
                        lemma_cell_inj(h, w, sy, sx);
                    }
                }
                assert forall|h: int, w: int| in_map(h, w) && !(h % 2 == 1 && w % 2 == 1) && #[trigger] at(new_map@, h, w) != at(m0, h, w)
                    implies exists|t: (int, int)| #[trigger] parent.dom().contains(t) && at(new_map@, t.0, t.1) != at(m0, t.0, t.1)
                        && t.0 % 2 == 1 && t.1 % 2 == 1 && halfway(t, parent[t]) == (h, w) by {
                    assert(h == sy && w == sx);
                }
                assert(maze_forest(m0, new_map@, r0, num_maze, parent, rank));
                assert forall|k: int| 1 <= k <= rec_length implies carve_root(r0, ((#[trigger] recurse@[k]).0 as int, recurse@[k].1 as int))
                    || rank.dom().contains((recurse@[k].0 as int, recurse@[k].1 as int)) by {
                    assert(recurse@[k] == r0[k]);
                }
                assert(carve_tree(m0, new_map@, recurse@, rec_length as int, r0, num_maze, parent, rank, cnt));
            }
            lemma_start_cell(m0, new_map@, sy, sx, num_maze);
            if single {
                assert forall|k: int| 1 <= k <= rec_length implies at(new_map@, (#[trigger] recurse@[k]).0 as int, recurse@[k].1 as int)
                    == num_maze by {
                    assert(same_point(r0[k], r0.last()));
                }
            }
            if nz {
                assert forall|k: int| 1 <= k <= rec_length implies at(new_map@, (#[trigger] recurse@[k]).0 as int, recurse@[k].1 as int)
                    != 0 by {
                    assert(same_point(r0[k], r0.last()) || at(m0, r0[k].0 as int, r0[k].1 as int) != 0);
                    assert(step_ok(r0[k]));
                    assert(in_map(r0[k].0 as int, r0[k].1 as int));
                }
            }
            if odd_closed(m0) && at(m0, sy, sx) == 0 {
                assert(odd_closed(new_map@));
                assert forall|h: int, w: int| 1 <= h <= 59 && 1 <= w <= 59 && #[trigger] at(new_map@, h, w) != 0
                    && at(new_map@, h, w) != num_maze implies (h % 2 == 0 ==> at(new_map@, h - 1, w) != 0 && at(new_map@, h + 1, w) != 0)
                    && (w % 2 == 0 ==> at(new_map@, h, w - 1) != 0 && at(new_map@, h, w + 1) != 0) by {
                }
            }
            if honest {
                assert forall|k: int| 1 <= k <= rec_length implies #[trigger] tried_closed(new_map@, recurse@[k]) by {
                    assert(tried_closed(m0, r0[k]));
                    lemma_still_taken_closed(m0, new_map@, r0[k].0 as int, r0[k].1 as int);
                }
                assert(recurse@[rec_length as int] == start);
                assert forall|h: int, w: int| #[trigger] maze_visited(m0, new_map@, start, num_maze, h, w)
                    implies on_stack(recurse@, rec_length as int, h, w) || maze_done(new_map@, h, w) by {
                    if !(h == sy && w == sx) {
                        lemma_cell_bounds(h, w);
                        lemma_cell_bounds(sy, sx);
                        if cell(h, w) == cell(sy, sx) {
                            lemma_cell_inj(h, w, sy, sx);
                        }
                        assert(new_map@[cell(h, w)] == m0[cell(h, w)]);
                    } else {
                        assert(recurse@[rec_length as int].0 as int == h && recurse@[rec_length as int].1 as int == w);
                    }
                }
            }
            reveal(carve_inv);
            if single {
                reveal(carve_joined);
                let s = (sy, sx);
                assert(walk(new_map@, num_maze, seq![s], s, s));
                assert(joined_to(new_map@, num_maze, s, s));
                assert forall|k: int| 1 <= k <= rec_length implies joined_to(new_map@, num_maze, s,
                    ((#[trigger] recurse@[k]).0 as int, recurse@[k].1 as int)) by {
                    assert(same_point(r0[k], r0.last()));
                }
                assert forall|h: int, w: int| in_map(h, w) && #[trigger] at(new_map@, h, w) != at(m0, h, w)
                    implies joined_to(new_map@, num_maze, s, (h, w)) by {
                    lemma_cell_bounds(h, w);
                    lemma_cell_bounds(sy, sx);
                    if !(h == sy && w == sx) {
                        if cell(h, w) == cell(sy, sx) {
                            lemma_cell_inj(h, w, sy, sx);
                        }
                        assert(new_map@[cell(h, w)] == m0[cell(h, w)]);
                    }
                }
            }
        }
        while rec_length >= 1
            invariant
                grid_wf(m0),
                grid_wf(new_map@),
                num_maze >= 1,
                rec_length + 1 == recurse.len(),
                recurse@[0] == r0[0],
                start == r0.last(),
                sy == start.0 as int,
                sx == start.1 as int,
                step_ok(start),
                forall|i: int| 0 <= i < recurse.len() ==> step_ok(#[trigger] recurse[i]),
                y == recurse@[rec_length as int].0,
                x == recurse@[rec_length as int].1,
                in_map(sy, sx),
                at(new_map@, sy, sx) == num_maze,
                forall|i: int| 0 <= i < MAP_CELLS ==> #[trigger] new_map[i] == m0[i] || new_map[i] == num_maze,
                forall|h: int, w: int| in_map(h, w) && on_border(h, w) ==> #[trigger] at(new_map@, h, w) == at(m0, h, w),
                honest ==> nz,
                single ==> nz,
                carve_inv(m0, new_map@, recurse@, rec_length as int, start, num_maze, honest, single, nz),
                nz ==> carve_tree(m0, new_map@, recurse@, rec_length as int, r0, num_maze, parent, rank, cnt),
                r0.len() >= 1,
                single ==> carve_joined(m0, new_map@, recurse@, rec_length as int, start, num_maze),
            decreases count_val(new_map@, 0), rec_length, recurse@[rec_length as int].3,
        {
            let ghost g_before = new_map@;
            let ghost r_before = recurse@;
            let ghost rl0 = rec_length as int;
            let ghost oy = y as int;
            let ghost ox = x as int;
            let ghost mut dir_g: int = -1;
            let mut update = false;
            let top = recurse[rec_length];
            assert(step_ok(top));
            let f: usize = (if !top.2.0 { 1 } else { 0 }) + (if !top.2.1 { 1 } else { 0 })
                + (if !top.2.2 { 1 } else { 0 }) + (if !top.2.3 { 1 } else { 0 });
            if f > 0 {
                let hi: usize = if f < 3 { f } else { 3 };
                let roll = random_in(1, hi + 1);
                let mut roll_count: usize = 0;
                let mut dir: usize = 4;
                if !top.2.0 {
                    roll_count += 1;
                    if roll_count == roll {
                        dir = 0;
                    }
                }
                if !top.2.1 {
                    roll_count += 1;
                    if roll_count == roll {
                        dir = 1;
                    }
                }
                if !top.2.2 {
                    roll_count += 1;
                    if roll_count == roll {
                        dir = 2;
                    }
                }
                if !top.2.3 {
                    roll_count += 1;
                    if roll_count == roll {
                        dir = 3;
                    }
                }
                if dir == 0 {
                    // NORTH
                    proof { dir_g = 0; }
                    recurse.set(rec_length, (y, x, (true, top.2.1, top.2.2, top.2.3), top.3 - 1));
                    if y > 2 && new_map[(y - 2) * 61 + x] == 0 {
                        proof {
                            lemma_count_val_update(new_map@, cell(y - 1, x as int), num_maze, 0);
                            lemma_set_cell(new_map@, y - 1, x as int, num_maze);
                        }
                        recurse.push((y - 2, x, (false, false, true, false), 3));
                        rec_length += 1;
                        update = true;
                        new_map.set((y - 1) * 61 + x, num_maze);
                        y = y - 2;
                    }
                } else if dir == 1 {
                    // EAST
                    proof { dir_g = 1; }
                    recurse.set(rec_length, (y, x, (top.2.0, true, top.2.2, top.2.3), top.3 - 1));
                    if x < MAP_SIZE_W - 2 && new_map[y * 61 + (x + 2)] == 0 {
                        proof {
                            lemma_count_val_update(new_map@, cell(y as int, x + 1), num_maze, 0);
                            lemma_set_cell(new_map@, y as int, x + 1, num_maze);
                        }
                        recurse.push((y, x + 2, (false, false, false, true), 3));
                        rec_length += 1;
                        update = true;
                        new_map.set(y * 61 + (x + 1), num_maze);
                        x = x + 2;
                    }
                } else if dir == 2 {
                    // SOUTH
                    proof { dir_g = 2; }
                    recurse.set(rec_length, (y, x, (top.2.0, top.2.1, true, top.2.3), top.3 - 1));
                    if y < MAP_SIZE_H - 2 && new_map[(y + 2) * 61 + x] == 0 {
                        proof {
                            lemma_count_val_update(new_map@, cell(y + 1, x as int), num_maze, 0);
                            lemma_set_cell(new_map@, y + 1, x as int, num_maze);
                        }
                        recurse.push((y + 2, x, (true, false, false, false), 3));
                        rec_length += 1;
                        update = true;
                        new_map.set((y + 1) * 61 + x, num_maze);
                        y = y + 2;
                    }
                } else {
                    // WEST
                    assert(dir == 3);
                    proof { dir_g = 3; }
                    recurse.set(rec_length, (y, x, (top.2.0, top.2.1, top.2.2, true), top.3 - 1));
                    if x > 2 && new_map[y * 61 + (x - 2)] == 0 {
                        proof {
                            lemma_count_val_update(new_map@, cell(y as int, x - 1), num_maze, 0);
                            lemma_set_cell(new_map@, y as int, x - 1, num_maze);
                        }
                        recurse.push((y, x - 2, (false, true, false, false), 3));
                        rec_length += 1;
                        update = true;
                        new_map.set(y * 61 + (x - 1), num_maze);
                        x = x - 2;
                    }
                }
            }
            let ghost g_mid = new_map@;
            let ghost r_mid = recurse@;
            let ghost top2 = recurse@[rl0];
            proof {
                assert(step_ok(top2));
                assert forall|d: int| 0 <= d < 4 && #[trigger] flag(top2.2, d) implies flag(top.2, d) || d == dir_g by {}
                if update {
                    assert(g_mid == g_before.update(cell(step_to(oy, ox, dir_g, 1).0, step_to(oy, ox, dir_g, 1).1), num_maze));
                } else {
                    assert(r_mid =~= r_before.update(rl0, top2));
                }
            }
            if update {
                assert(step_ok(recurse@[rec_length as int]));
                proof {
                    lemma_count_val_update(new_map@, cell(y as int, x as int), num_maze, 0);
                    lemma_set_cell(new_map@, y as int, x as int, num_maze);
                }
                new_map.set(y * 61 + x, num_maze);
            } else if recurse[rec_length].3 == 0 {
                recurse.pop();
                rec_length -= 1;
                y = recurse[rec_length].0;
                x = recurse[rec_length].1;
            }
            proof {
                assert(r_before[rl0] == top);
                if single {
                    lemma_maze_step_joined(m0, g_before, g_mid, new_map@, r_before, r_mid, recurse@, rl0, rec_length as int,
                        top2, dir_g, update, y as int, x as int, num_maze, start, honest, nz);
                }
                if nz {
                    lemma_maze_step_tree(m0, g_before, g_mid, new_map@, r_before, r_mid, recurse@, rl0, rec_length as int,
                        top2, dir_g, update, y as int, x as int, num_maze, r0, parent, rank, cnt, honest, single);
                }
                lemma_maze_step(m0, g_before, g_mid, new_map@, r_before, r_mid, recurse@, rl0, rec_length as int,
                    top2, dir_g, update, y as int, x as int, num_maze, start, honest, single, nz);
                if update {
                    parent = parent.insert((y as int, x as int), (oy, ox));
                    rank = rank.insert((y as int, x as int), cnt);
                    cnt = cnt + 1;
                }
            }
        }
        assert(recurse@ =~= seq![r0[0]]);
        proof {
            reveal(carve_inv);
            reveal(carve_joined);
            if nz {
                reveal(carve_tree);
                assert(maze_forest(m0, new_map@, r0, num_maze, parent, rank));
            }
            assert forall|h: int, w: int| #[trigger] maze_visited(m0, new_map@, start, num_maze, h, w) && honest
                implies maze_done(new_map@, h, w) by {
                assert(!on_stack(recurse@, 0, h, w));
            }
        }
        new_map
    }

    /// Fills every empty odd cell with mazes: each empty odd cell found
    /// (rows, then columns) starts a new maze with the next number after
    /// the rooms. Returns the corridor grid: 1 where a maze ended up, 0
    /// elsewhere.
    #[verifier::rlimit(30)]
    pub fn create_maze(&mut self) -> (corridors: Vec<i32>)
        requires
            old(self).wf(),
            0 <= old(self).num_rooms <= 1000000,
        ensures
            final(self).wf(),
            grid_wf(corridors@),
            forall|i: int| 0 <= i < MAP_CELLS ==> #[trigger] final(self).map[i] == old(self).map[i]
                || (old(self).num_rooms < final(self).map[i] <= old(self).num_rooms + 900),
            forall|h: int, w: int| in_map(h, w) && h % 2 == 1 && w % 2 == 1 ==> #[trigger] at(final(self).map@, h, w) != 0,
            forall|h: int, w: int| in_map(h, w) && on_border(h, w) ==> #[trigger] at(final(self).map@, h, w) == at(old(self).map@, h, w),
            forall|i: int| 0 <= i < MAP_CELLS ==> #[trigger] corridors[i] == if final(self).map[i] > old(self).num_rooms { 1i32 } else { 0i32 },
            odd_closed(old(self).map@) ==> odd_closed(final(self).map@)
                && forall|i: int| 0 <= i < MAP_CELLS && #[trigger] old(self).map[i] != 0 ==> final(self).map[i] == old(self).map[i],
            final(self).numbered_map == old(self).numbered_map,
            final(self).enemy_and_object_spawns == old(self).enemy_and_object_spawns,
            final(self).num_rooms == old(self).num_rooms,
            final(self).starting_room == old(self).starting_room,
            final(self).starting_position == old(self).starting_position,
            final(self).ending_room == old(self).ending_room,
            final(self).ending_position == old(self).ending_position,
            final(self).current_floor == old(self).current_floor,
    {
        let ghost g0 = self.map@;
        let mut recurse: Vec<MazeStep> = Vec::new();
        let mut new_map = self.map.clone();
        let mut num_mazes = self.num_rooms;
        let ghost mut iters: int = 0;
        let mut h: usize = 1;
        while h < MAP_SIZE_H
            invariant
                self.wf(),
                *self == *old(self),
                g0 == self.map@,
                0 <= self.num_rooms <= 1000000,
                grid_wf(new_map@),
                h % 2 == 1,
                1 <= h <= 61,
                0 <= iters <= (h - 1) / 2 * 30,
                self.num_rooms <= num_mazes <= self.num_rooms + iters,
                recurse.len() <= 1,
                forall|i: int| 0 <= i < recurse.len() ==> step_ok(#[trigger] recurse[i]),
                forall|i: int| 0 <= i < MAP_CELLS ==> #[trigger] new_map[i] == g0[i]
                    || (self.num_rooms < new_map[i] <= num_mazes),
                forall|r: int, c: int| in_map(r, c) && r % 2 == 1 && c % 2 == 1 && r < h ==> #[trigger] at(new_map@, r, c) != 0,
                forall|r: int, c: int| in_map(r, c) && on_border(r, c) ==> #[trigger] at(new_map@, r, c) == at(g0, r, c),
                odd_closed(g0) ==> odd_closed(new_map@)
                    && forall|i: int| 0 <= i < MAP_CELLS && #[trigger] new_map[i] != g0[i] ==> g0[i] == 0,
            decreases 61 - h,
        {
            let mut w: usize = 1;
            while w < MAP_SIZE_W
                invariant
                    self.wf(),
                    *self == *old(self),
                    g0 == self.map@,
                    0 <= self.num_rooms <= 1000000,
                    grid_wf(new_map@),
                    h % 2 == 1,
                    1 <= h < 61,
                    w % 2 == 1,
                    1 <= w <= 61,
                    0 <= iters <= (h - 1) / 2 * 30 + (w - 1) / 2,
                    self.num_rooms <= num_mazes <= self.num_rooms + iters,
                    recurse.len() <= 1,
                    forall|i: int| 0 <= i < recurse.len() ==> step_ok(#[trigger] recurse[i]),
                    forall|i: int| 0 <= i < MAP_CELLS ==> #[trigger] new_map[i] == g0[i]
                        || (self.num_rooms < new_map[i] <= num_mazes),
                    forall|r: int, c: int| in_map(r, c) && r % 2 == 1 && c % 2 == 1 && (r < h || (r == h && c < w)) ==> #[trigger] at(new_map@, r, c) != 0,
                    forall|r: int, c: int| in_map(r, c) && on_border(r, c) ==> #[trigger] at(new_map@, r, c) == at(g0, r, c),
                    odd_closed(g0) ==> odd_closed(new_map@)
                        && forall|i: int| 0 <= i < MAP_CELLS && #[trigger] new_map[i] != g0[i] ==> g0[i] == 0,
                decreases 61 - w,
            {
                if new_map[h * 61 + w] == 0 {
                    let y = h;
                    let x = w;
                    recurse.push((y, x, (false, false, false, false), 4));
                    recurse.push((y, x, (false, false, false, false), 4));
                    num_mazes += 1;
                    let ghost before = new_map@;
                    let ghost r0 = recurse@;
                    proof {
                        assert forall|k: int| 1 <= k < r0.len() implies same_point(#[trigger] r0[k], r0.last()) by {}
                        lemma_cell_bounds(h as int, w as int);
                    }
                    new_map = self.build_maze(new_map, num_mazes, &mut recurse);
                    proof {
                        if odd_closed(g0) {
                            assert forall|i: int| 0 <= i < MAP_CELLS && #[trigger] new_map[i] != g0[i] implies g0[i] == 0 by {
                                if new_map[i] != before[i] {
                                    assert(before[i] == 0);
                                }
                            }
                        }
                        assert forall|i: int| 0 <= i < MAP_CELLS implies #[trigger] new_map[i] == g0[i]
                            || (self.num_rooms < new_map[i] <= num_mazes) by {
                            assert(new_map[i] == before[i] || new_map[i] == num_mazes);
                        }
                        assert forall|r: int, c: int| in_map(r, c) && r % 2 == 1 && c % 2 == 1 && (r < h || (r == h && c < w + 2))
                            implies #[trigger] at(new_map@, r, c) != 0 by {
                            lemma_cell_bounds(r, c);
                            if r == h && c == w {
                            } else {
                                assert(at(before, r, c) != 0);
                                assert(new_map[cell(r, c)] == before[cell(r, c)] || new_map[cell(r, c)] == num_mazes);
                            }
                        }
                    }
                }
                proof { iters = iters + 1; }
                w += 2;
            }
            h += 2;
        }
        let mut corridors: Vec<i32> = Vec::new();
        let mut i: usize = 0;
        while i < MAP_CELLS
            invariant
                i <= MAP_CELLS,
                grid_wf(new_map@),
                corridors.len() == i,
                forall|j: int| 0 <= j < i ==> #[trigger] corridors[j] == if new_map[j] > self.num_rooms { 1i32 } else { 0i32 },
            decreases MAP_CELLS - i,
        {
            if new_map[i] > self.num_rooms {
                corridors.push(1);
            } else {
                corridors.push(0);
            }
            i += 1;
        }
        self.map = new_map;
        corridors
    }

    /// Lays out rooms: 300 times a placement is drawn uniformly among the
    /// ones that fit (`fits`, rows and columns drawn independently), and
    /// the room is written with the next room number unless the cells the
    /// check looks at are taken: the cells one row and one column further
    /// down and right than the room, and, away from the top and left edges,
    /// the row above and the column left of it. Afterwards `num_rooms` is
    /// the last room number given.
    #[verifier::spinoff_prover]
    #[verifier::rlimit(30)]
    pub fn create_rooms(&mut self)
        requires
            old(self).wf(),
            0 <= old(self).num_rooms <= 1000000,
        ensures
            final(self).wf(),
            old(self).num_rooms - 1 <= final(self).num_rooms <= old(self).num_rooms + 299,
            forall|i: int| 0 <= i < MAP_CELLS ==> #[trigger] final(self).map[i] == old(self).map[i]
                || (old(self).num_rooms <= final(self).map[i] <= final(self).num_rooms),
            forall|h: int, w: int| in_map(h, w) && on_border(h, w) ==> #[trigger] at(final(self).map@, h, w) == at(old(self).map@, h, w),
            (forall|i: int| 0 <= i < MAP_CELLS ==> #[trigger] old(self).map[i] == 0)
                ==> final(self).num_rooms >= old(self).num_rooms,
            exists|ps: Seq<(int, int, int, int)>| #[trigger] rooms_laid(old(self).map@, final(self).map@,
                old(self).num_rooms as int, ps) && ps.len() == final(self).num_rooms - old(self).num_rooms + 1
                && ps.len() <= 300,
            final(self).numbered_map == old(self).numbered_map,
            final(self).enemy_and_object_spawns == old(self).enemy_and_object_spawns,
            final(self).starting_room == old(self).starting_room,
            final(self).starting_position == old(self).starting_position,
            final(self).ending_room == old(self).ending_room,
            final(self).ending_position == old(self).ending_position,
            final(self).current_floor == old(self).current_floor,
    {
        let ghost g0 = self.map@;
        let ghost nr0 = self.num_rooms;
        let spans = room_spans();
        let mut new_map = self.map.clone();
        let ghost ps: Seq<(int, int, int, int)> = Seq::empty();
        proof {
            assert(new_map@ =~= g0);
        }
        let mut count: usize = 0;
        while count < 300
            invariant
                self.wf(),
                grid_wf(g0),
                grid_wf(new_map@),
                0 <= nr0 <= 1000000,
                count <= 300,
                nr0 <= self.num_rooms <= nr0 + count,
                self.num_rooms == nr0 + ps.len(),
                rooms_laid(g0, new_map@, nr0 as int, ps),
                count == 0 ==> new_map@ == g0,
                (forall|i: int| 0 <= i < MAP_CELLS ==> #[trigger] g0[i] == 0) && count > 0 ==> self.num_rooms > nr0,
                spans.len() > 0,
                forall|i: int| 0 <= i < spans.len() ==> fits(#[trigger] spans[i].0 as int, spans[i].1 as int),
                forall|i: int| 0 <= i < MAP_CELLS ==> #[trigger] new_map[i] == g0[i] || (nr0 <= new_map[i] < self.num_rooms),
                forall|h: int, w: int| in_map(h, w) && on_border(h, w) ==> #[trigger] at(new_map@, h, w) == at(g0, h, w),
                self.numbered_map == old(self).numbered_map,
                self.enemy_and_object_spawns == old(self).enemy_and_object_spawns,
                self.starting_room == old(self).starting_room,
                self.starting_position == old(self).starting_position,
                self.ending_room == old(self).ending_room,
                self.ending_position == old(self).ending_position,
                self.current_floor == old(self).current_floor,
            decreases 300 - count,
        {
            let rows = spans[random_in(0, spans.len())];
            let cols = spans[random_in(0, spans.len())];
            let y = rows.0;
            let height = rows.1;
            let x = cols.0;
            let width = cols.1;
            let ghost p: (int, int, int, int) = (y as int, height as int, x as int, width as int);
            let mut collided = false;
            let mut hh: usize = 0;
            while hh < height
                invariant
                    fits(y as int, height as int),
                    fits(x as int, width as int),
                    p == (y as int, height as int, x as int, width as int),
                    grid_wf(new_map@),
                    hh <= height,
                    (forall|i: int| 0 <= i < MAP_CELLS ==> #[trigger] new_map[i] == 0) ==> !collided,
                    !collided ==> forall|a: int, b: int| 0 <= a < hh && 0 <= b < width ==> #[trigger] clear_at(new_map@, p, a, b),
                decreases height - hh,
            {
                let mut ww: usize = 0;
                while ww < width
                    invariant
                        fits(y as int, height as int),
                        fits(x as int, width as int),
                        p == (y as int, height as int, x as int, width as int),
                        grid_wf(new_map@),
                        hh < height,
                        ww <= width,
                        (forall|i: int| 0 <= i < MAP_CELLS ==> #[trigger] new_map[i] == 0) ==> !collided,
                        !collided ==> forall|a: int, b: int| ((0 <= a < hh && 0 <= b < width) || (a == hh && 0 <= b < ww))
                            ==> #[trigger] clear_at(new_map@, p, a, b),
                    decreases width - ww,
                {
                    if x > 2 && y > 2 {
                        if new_map[(y - 1) * 61 + (x - 1)] != 0 {
                            collided = true;
                        }
                    }
                    if y > 2 {
                        if new_map[(y - 1) * 61 + (x + ww)] != 0 {
                            collided = true;
                        }
                    }
                    if x > 2 {
                        if new_map[(y + hh) * 61 + (x - 1)] != 0 {
                            collided = true;
                        }
                    }
                    if new_map[(y + hh + 1) * 61 + (x + ww + 1)] != 0 {
                        collided = true;
                    }
                    ww += 1;
                }
                hh += 1;
            }
            if !collided {
                let ghost start = new_map@;
                let mut hh: usize = 0;
                while hh < height
                    invariant
                        fits(y as int, height as int),
                        fits(x as int, width as int),
                        grid_wf(g0),
                        grid_wf(start),
                        grid_wf(new_map@),
                        hh <= height,
                        0 <= nr0 <= self.num_rooms,
                        forall|i: int| 0 <= i < MAP_CELLS ==> #[trigger] new_map[i] == g0[i] || (nr0 <= new_map[i] <= self.num_rooms),
                        forall|h: int, w: int| in_map(h, w) && on_border(h, w) ==> #[trigger] at(new_map@, h, w) == at(g0, h, w),
                        forall|r: int, c: int| in_map(r, c) ==> #[trigger] at(new_map@, r, c)
                            == if y <= r < y + hh && x <= c < x + width { self.num_rooms } else { at(start, r, c) },
                    decreases height - hh,
                {
                    let mut ww: usize = 0;
                    while ww < width
                        invariant
                            fits(y as int, height as int),
                            fits(x as int, width as int),
                            grid_wf(g0),
                            grid_wf(start),
                            grid_wf(new_map@),
                            hh < height,
                            ww <= width,
                            0 <= nr0 <= self.num_rooms,
                            forall|i: int| 0 <= i < MAP_CELLS ==> #[trigger] new_map[i] == g0[i] || (nr0 <= new_map[i] <= self.num_rooms),
                            forall|h: int, w: int| in_map(h, w) && on_border(h, w) ==> #[trigger] at(new_map@, h, w) == at(g0, h, w),
                            forall|r: int, c: int| in_map(r, c) ==> #[trigger] at(new_map@, r, c)
                                == if (y <= r < y + hh && x <= c < x + width) || (r == y + hh && x <= c < x + ww) {
                                    self.num_rooms
                                } else {
                                    at(start, r, c)
                                },
                        decreases width - ww,
                    {
                        proof { lemma_set_cell(new_map@, y + hh, x + ww, self.num_rooms); }
                        new_map.set((y + hh) * 61 + (x + ww), self.num_rooms);
                        ww += 1;
                    }
                    hh += 1;
                }
                proof {
                    assert forall|r: int, c: int| in_map(r, c) implies #[trigger] at(new_map@, r, c)
                        == at(paint_room(start, p, self.num_rooms), r, c) by {
                        lemma_paint_room_at(start, p, self.num_rooms, r, c);
                    }
                    lemma_paint_room_at(start, p, self.num_rooms, 0, 0);
                    lemma_grid_ext(new_map@, paint_room(start, p, self.num_rooms));
                    lemma_rooms_laid_push(g0, start, nr0 as int, ps, p);
                    ps = ps.push(p);
                }
                self.num_rooms += 1;
            }
            count += 1;
        }
        self.num_rooms -= 1;
        self.map = new_map;
        proof {
            assert(rooms_laid(old(self).map@, self.map@, old(self).num_rooms as int, ps));
        }
    }

    /// Places the stairs and pillars. The upstairs (3) goes on a cell drawn
    /// uniformly among the `stair_spot` cells; it fixes the starting
    /// position `(column, row)` and room. The downstairs (4) goes on a cell
    /// drawn the same way after that, outside the starting room when there
    /// is more than one room. Then 49 cells are drawn at random, and each
    /// that is a `stair_spot` becomes a pillar (2), or a mossy pillar (5)
    /// with chance 2 in 10. Returns false, and changes nothing, when a
    /// stair has nowhere to go (the search for a spot would never end).
    pub fn create_obstacles(&mut self, corridors: Vec<i32>) -> (placed: bool)
        requires
            old(self).wf(),
            grid_wf(corridors@),
            no_floor_on_border(old(self).map@),
        ensures
            final(self).wf(),
            !placed ==> *final(self) == *old(self),
            !placed ==> (forall|h: int, w: int| !#[trigger] stair_spot(old(self).map@, corridors@, h, w))
                || exists|sh: int, sw: int| stair_spot(old(self).map@, corridors@, sh, sw)
                    && forall|h: int, w: int| #[trigger] stair_spot(old(self).map@, corridors@, h, w) && !(h == sh && w == sw)
                        ==> old(self).num_rooms > 1 && at(old(self).numbered_map@, h, w) == at(old(self).numbered_map@, sh, sw),
            (forall|h: int, w: int| !#[trigger] stair_spot(old(self).map@, corridors@, h, w)) ==> !placed,
            placed ==> ({
                let sw = final(self).starting_position.0 as int;
                let sh = final(self).starting_position.1 as int;
                let ew = final(self).ending_position.0 as int;
                let eh = final(self).ending_position.1 as int;
                &&& stair_spot(old(self).map@, corridors@, sh, sw)
                &&& stair_spot(old(self).map@, corridors@, eh, ew)
                &&& !(sh == eh && sw == ew)
                &&& at(final(self).map@, sh, sw) == 3
                &&& at(final(self).map@, eh, ew) == 4
                &&& final(self).starting_room == at(old(self).numbered_map@, sh, sw)
                &&& final(self).ending_room == at(old(self).numbered_map@, eh, ew)
                &&& old(self).num_rooms > 1 ==> final(self).ending_room != final(self).starting_room
                &&& forall|h: int, w: int| in_map(h, w) ==> #[trigger] at(final(self).map@, h, w) == at(old(self).map@, h, w)
                    || (h == sh && w == sw) || (h == eh && w == ew)
                    || (at(old(self).map@, h, w) == 1 && (at(final(self).map@, h, w) == 2 || at(final(self).map@, h, w) == 5))
            }),
            no_floor_on_border(final(self).map@),
            forall|h: int, w: int| in_map(h, w) && at(corridors@, h, w) == 1
                ==> #[trigger] at(final(self).map@, h, w) == at(old(self).map@, h, w),
            forall|i: int| 0 <= i < MAP_CELLS ==> #[trigger] final(self).map[i] == old(self).map[i]
                || (old(self).map[i] == 1 && 2 <= final(self).map[i] <= 5),
            final(self).numbered_map == old(self).numbered_map,
            final(self).enemy_and_object_spawns == old(self).enemy_and_object_spawns,
            final(self).num_rooms == old(self).num_rooms,
            final(self).current_floor == old(self).current_floor,
    {
        let ghost g0 = self.map@;
        let mut new_map = self.map.clone();
        let ups = stair_spots(&new_map, &corridors, &self.numbered_map, false, 0);
        if ups.len() == 0 {
            return false;
        }
        let up = ups[random_in(0, ups.len())];
        let sh = up.0;
        let sw = up.1;
        proof { lemma_stair_spot_after(new_map@, corridors@, sh as int, sw as int, 3); }
        // Add upstairs (3)
        new_map.set(sh * 61 + sw, 3);
        let starting_position = (sw as i32, sh as i32);
        let starting_room = self.numbered_map[sh * 61 + sw];
        let ghost g_up = new_map@;
        let downs = stair_spots(&new_map, &corridors, &self.numbered_map, self.num_rooms > 1, starting_room);
        if downs.len() == 0 {
            proof {
                assert forall|h: int, w: int| #[trigger] stair_spot(g0, corridors@, h, w) && !(h == sh && w == sw)
                    implies self.num_rooms > 1 && at(self.numbered_map@, h, w) == at(self.numbered_map@, sh as int, sw as int) by {
                    assert(stair_spot(g_up, corridors@, h, w));
                    if !(self.num_rooms > 1 && at(self.numbered_map@, h, w) == starting_room) {
                        assert(downs@.contains((h as usize, w as usize)));
                    }
                }
            }
            return false;
        }
        let down = downs[random_in(0, downs.len())];
        let eh = down.0;
        let ew = down.1;
        assert(stair_spot(g_up, corridors@, eh as int, ew as int));
        proof { lemma_stair_spot_after(new_map@, corridors@, eh as int, ew as int, 4); }
        // Add downstairs (4)
        new_map.set(eh * 61 + ew, 4);
        let ending_position = (ew as i32, eh as i32);
        let ending_room = self.numbered_map[eh * 61 + ew];
        let ghost g_stairs = new_map@;
        proof {
            assert(stair_spot(g0, corridors@, sh as int, sw as int));
            assert(stair_spot(g_up, corridors@, eh as int, ew as int));
            assert forall|h: int, w: int| in_map(h, w) && at(corridors@, h, w) == 1
                implies #[trigger] at(new_map@, h, w) == at(g0, h, w) by {
                lemma_set_cell(g0, sh as int, sw as int, 3);
                lemma_set_cell(g_up, eh as int, ew as int, 4);
            }
            lemma_set_cell(g0, sh as int, sw as int, 3);
            lemma_set_cell(g_up, eh as int, ew as int, 4);
            assert forall|i: int| 0 <= i < MAP_CELLS implies #[trigger] g_stairs[i] == g0[i]
                || (g0[i] == 1 && 2 <= g_stairs[i] <= 5) by {
                if i == cell(sh as int, sw as int) {
                } else if i == cell(eh as int, ew as int) {
                } else {
                }
            }
        }
        // add pillars
        let attempts: i32 = 50;
        let mut attempt: i32 = 1;
        while attempt < attempts
            invariant
                1 <= attempt <= 50,
                attempts == 50,
                grid_wf(g0),
                grid_wf(corridors@),
                grid_wf(new_map@),
                no_floor_on_border(new_map@),
                in_map(sh as int, sw as int),
                in_map(eh as int, ew as int),
                !(sh == eh && sw == ew),
                at(new_map@, sh as int, sw as int) == 3,
                at(new_map@, eh as int, ew as int) == 4,
                forall|i: int| 0 <= i < MAP_CELLS ==> #[trigger] new_map[i] == g0[i]
                    || (g0[i] == 1 && 2 <= new_map[i] <= 5),
                forall|h: int, w: int| in_map(h, w) ==> #[trigger] at(new_map@, h, w) == at(g0, h, w)
                    || (h == sh && w == sw) || (h == eh && w == ew)
                    || (at(g0, h, w) == 1 && (at(new_map@, h, w) == 2 || at(new_map@, h, w) == 5)),
                forall|h: int, w: int| in_map(h, w) && at(corridors@, h, w) == 1 ==> #[trigger] at(new_map@, h, w) == at(g0, h, w),
            decreases 50 - attempt,
        {
            let h = random_in(0, MAP_SIZE_H - 1);
            let w = random_in(0, MAP_SIZE_W - 1);
            if is_stair_spot(&new_map, &corridors, h, w) {
                let moss = random_in(0, 10);
                let ghost before = new_map@;
                let v: i32 = if moss < 8 { 2 } else { 5 };
                proof {
                    lemma_set_cell(before, h as int, w as int, v);
                    lemma_cell_bounds(h as int, w as int);
                    assert(at(before, h as int, w as int) == 1);
                    assert(g0[cell(h as int, w as int)] == 1);
                    assert forall|hh: int, ww: int| in_map(hh, ww) && on_border(hh, ww) implies
                        #[trigger] at(new_map@.update(cell(h as int, w as int), v), hh, ww) != 1 by {
                        assert(at(before, hh, ww) != 1);
                    }
                    assert(at(corridors@, h as int, w as int) != 1);
                    assert forall|hh: int, ww: int| in_map(hh, ww) && at(corridors@, hh, ww) == 1
                        implies #[trigger] at(new_map@.update(cell(h as int, w as int), v), hh, ww) == at(g0, hh, ww) by {
                        assert(at(before, hh, ww) == at(g0, hh, ww));
                    }
                    assert forall|i: int| 0 <= i < MAP_CELLS implies #[trigger] new_map@.update(cell(h as int, w as int), v)[i] == g0[i]
                        || (g0[i] == 1 && 2 <= new_map@.update(cell(h as int, w as int), v)[i] <= 5) by {
                        assert(before[i] == g0[i] || (g0[i] == 1 && 2 <= before[i] <= 5));
                    }
                }
                if moss < 8 {
                    new_map.set(h * 61 + w, 2);  // pillars
                } else {
                    new_map.set(h * 61 + w, 5);  // moss pillars
                }
            }
            attempt += 1;
        }
        self.map = new_map;
        self.starting_position = starting_position;
        self.starting_room = starting_room;
        self.ending_position = ending_position;
        self.ending_room = ending_room;
        true
    }

    /// Spawns enemies in every room except the starting and ending rooms:
    /// 2 to 4 ghosts (1), 0 to 2 gellems (2) and 1 or 2 skeletons (4), each
    /// on a cell of the room not taken yet, drawn uniformly. Earlier spawns
    /// are cleared first. Returns false when a room had no free cell left
    /// for a spawn (a search for one would never end).
    #[verifier::spinoff_prover]
    #[verifier::rlimit(40)]
    pub fn create_enemies(&mut self) -> (all_placed: bool)
        requires
            old(self).wf(),
            old(self).num_rooms <= 1000000,
        ensures
            final(self).wf(),
            forall|h: int, w: int| in_map(h, w) ==> {
                let v = #[trigger] at(final(self).enemy_and_object_spawns@, h, w);
                &&& (v == 0 || v == 1 || v == 2 || v == 4)
                &&& v != 0 ==> spawn_room(final(self).numbered_map@, final(self).num_rooms, final(self).starting_room,
                    final(self).ending_room, h, w)
            },
            exists|rooms: Seq<EnemyCells>| #[trigger] enemies_laid(final(self).enemy_and_object_spawns@,
                old(self).numbered_map@, old(self).num_rooms as int, old(self).starting_room as int,
                old(self).ending_room as int, rooms, all_placed),
            final(self).map == old(self).map,
            final(self).numbered_map == old(self).numbered_map,
            final(self).num_rooms == old(self).num_rooms,
            final(self).starting_room == old(self).starting_room,
            final(self).starting_position == old(self).starting_position,
            final(self).ending_room == old(self).ending_room,
            final(self).ending_position == old(self).ending_position,
            final(self).current_floor == old(self).current_floor,
    {
        let mut all_placed = true;
        let mut enemy_and_object_spawns = zero_grid();
        let ghost rooms: Seq<EnemyCells> = seq![(Seq::empty(), Seq::empty(), Seq::empty())];
        proof {
            assert(enemy_and_object_spawns@ =~= empty_grid());
            let e: EnemyCells = (Seq::empty(), Seq::empty(), Seq::empty());
            assert(rooms.drop_last() =~= Seq::<EnemyCells>::empty());
            assert(rooms.take(0) =~= Seq::<EnemyCells>::empty());
            assert(put_spawns(empty_grid(), e.0, 1) == empty_grid());
            assert(put_spawns(put_spawns(empty_grid(), e.0, 1), e.1, 2) == empty_grid());
            assert(put_enemies(empty_grid(), e) == empty_grid());
            assert(put_enemy_rooms(rooms.drop_last()) == empty_grid());
            assert(rooms.last() == e);
            assert(put_enemy_rooms(rooms) == empty_grid());
            assert(enemies_so_far(enemy_and_object_spawns@, self.numbered_map@, self.starting_room as int,
                self.ending_room as int, rooms, all_placed));
        }
        let mut i: i32 = 1;
        while i < self.num_rooms + 1
            invariant
                self.wf(),
                *self == *old(self),
                self.num_rooms <= 1000000,
                1 <= i,
                i <= self.num_rooms + 1 || i == 1,
                grid_wf(enemy_and_object_spawns@),
                forall|h: int, w: int| in_map(h, w) ==> {
                    let v = #[trigger] at(enemy_and_object_spawns@, h, w);
                    &&& (v == 0 || v == 1 || v == 2 || v == 4)
                    &&& v != 0 ==> spawn_room(self.numbered_map@, self.num_rooms, self.starting_room, self.ending_room, h, w)
                        && at(self.numbered_map@, h, w) < i
                },
                rooms.len() == i,
                enemies_so_far(enemy_and_object_spawns@, self.numbered_map@, self.starting_room as int,
                    self.ending_room as int, rooms, all_placed),
            decreases self.num_rooms + 1 - i,
        {
            if i == self.starting_room || i == self.ending_room {
                proof {
                    lemma_enemies_skip(enemy_and_object_spawns@, self.numbered_map@, self.starting_room as int,
                        self.ending_room as int, rooms, all_placed);
                    rooms = rooms.push((Seq::empty(), Seq::empty(), Seq::empty()));
                }
                i += 1;
                continue;
            }
            let spawn_positions = room_cells(&self.numbered_map, i);
            let ghost before = enemy_and_object_spawns@;
            let ghosts = random_in(2, 5);
            let a = place_spawns(&mut enemy_and_object_spawns, &spawn_positions, &self.map, ghosts, 1, false);
            let ghost s1 = enemy_and_object_spawns@;
            let ghost c1 = choose|cs: Seq<(usize, usize)>| #[trigger] spawns_placed(before, self.map@, spawn_positions@, 1, false, cs)
                && s1 == put_spawns(before, cs, 1) && (a ==> cs.len() == ghosts)
                && (!a ==> cs.len() < ghosts && forall|k: int| 0 <= k < spawn_positions.len()
                    ==> !spawn_open(s1, self.map@, #[trigger] spawn_positions[k], false));
            let gellems = random_in(0, 3);
            let b = place_spawns(&mut enemy_and_object_spawns, &spawn_positions, &self.map, gellems, 2, false);
            let ghost s2 = enemy_and_object_spawns@;
            let ghost c2 = choose|cs: Seq<(usize, usize)>| #[trigger] spawns_placed(s1, self.map@, spawn_positions@, 2, false, cs)
                && s2 == put_spawns(s1, cs, 2) && (b ==> cs.len() == gellems)
                && (!b ==> cs.len() < gellems && forall|k: int| 0 <= k < spawn_positions.len()
                    ==> !spawn_open(s2, self.map@, #[trigger] spawn_positions[k], false));
            let skeleton = random_in(1, 3);
            let c = place_spawns(&mut enemy_and_object_spawns, &spawn_positions, &self.map, skeleton, 4, false);
            proof {
                let s3 = enemy_and_object_spawns@;
                let c3 = choose|cs: Seq<(usize, usize)>| #[trigger] spawns_placed(s2, self.map@, spawn_positions@, 4, false, cs)
                    && s3 == put_spawns(s2, cs, 4) && (c ==> cs.len() == skeleton)
                    && (!c ==> cs.len() < skeleton && forall|k: int| 0 <= k < spawn_positions.len()
                        ==> !spawn_open(s3, self.map@, #[trigger] spawn_positions[k], false));
                lemma_enemies_step(before, s1, s2, s3, self.map@, spawn_positions@, self.numbered_map@,
                    self.starting_room as int, self.ending_room as int, rooms, all_placed, (c1, c2, c3),
                    (ghosts as int, gellems as int, skeleton as int), (a, b, c));
                rooms = rooms.push((c1, c2, c3));
            }
            all_placed = all_placed && a && b && c;
            proof {
                assert forall|h: int, w: int| in_map(h, w) implies {
                    let v = #[trigger] at(enemy_and_object_spawns@, h, w);
                    &&& (v == 0 || v == 1 || v == 2 || v == 4)
                    &&& v != 0 ==> spawn_room(self.numbered_map@, self.num_rooms, self.starting_room, self.ending_room, h, w)
                        && at(self.numbered_map@, h, w) < i + 1
                } by {
                    if at(enemy_and_object_spawns@, h, w) != at(before, h, w) {
                        assert(spawn_positions@.contains((h as usize, w as usize)));
                        let k = choose|k: int| 0 <= k < spawn_positions.len() && spawn_positions[k] == (h as usize, w as usize);
                        assert(in_map(spawn_positions[k].0 as int, spawn_positions[k].1 as int));
                    }
                }
            }
            i += 1;
        }
        self.enemy_and_object_spawns = enemy_and_object_spawns;
        proof {
            assert(enemies_laid(self.enemy_and_object_spawns@, old(self).numbered_map@, old(self).num_rooms as int,
                old(self).starting_room as int, old(self).ending_room as int, rooms, all_placed));
        }
        all_placed
    }

    /// Spawns 1 to 3 crates (3) in every room except the starting and
    /// ending rooms, each on a cell of the room drawn uniformly among those
    /// with no spawn yet or on floor (a crate may replace an enemy standing
    /// on floor). Returns false when a room had no such cell left.
    pub fn create_objects(&mut self) -> (all_placed: bool)
        requires
            old(self).wf(),
            old(self).num_rooms <= 1000000,
        ensures
            final(self).wf(),
            forall|h: int, w: int| in_map(h, w) ==> #[trigger] at(final(self).enemy_and_object_spawns@, h, w)
                == at(old(self).enemy_and_object_spawns@, h, w)
                || (at(final(self).enemy_and_object_spawns@, h, w) == 3 && spawn_room(final(self).numbered_map@,
                    final(self).num_rooms, final(self).starting_room, final(self).ending_room, h, w)),
            exists|rooms: Seq<Seq<(usize, usize)>>| #[trigger] crates_laid(old(self).enemy_and_object_spawns@,
                final(self).enemy_and_object_spawns@, old(self).map@, old(self).numbered_map@, old(self).num_rooms as int,
                old(self).starting_room as int, old(self).ending_room as int, rooms, all_placed),
            final(self).map == old(self).map,
            final(self).numbered_map == old(self).numbered_map,
            final(self).num_rooms == old(self).num_rooms,
            final(self).starting_room == old(self).starting_room,
            final(self).starting_position == old(self).starting_position,
            final(self).ending_room == old(self).ending_room,
            final(self).ending_position == old(self).ending_position,
            final(self).current_floor == old(self).current_floor,
    {
        let mut all_placed = true;
        let ghost s0 = self.enemy_and_object_spawns@;
        let ghost rooms: Seq<Seq<(usize, usize)>> = seq![Seq::empty()];
        proof {
            assert(rooms.drop_last() =~= Seq::<Seq<(usize, usize)>>::empty());
            assert(rooms.take(0) =~= Seq::<Seq<(usize, usize)>>::empty());
        }
        let mut enemy_and_object_spawns = self.enemy_and_object_spawns.clone();
        proof {
            assert(enemy_and_object_spawns@ =~= s0);
            assert(put_rooms(s0, rooms.drop_last()) == s0);
            assert(put_spawns(s0, rooms.last(), 3) == s0);
        }
        let mut i: i32 = 1;
        while i < self.num_rooms + 1
            invariant
                self.wf(),
                *self == *old(self),
                s0 == self.enemy_and_object_spawns@,
                self.num_rooms <= 1000000,
                1 <= i,
                i <= self.num_rooms + 1 || i == 1,
                grid_wf(enemy_and_object_spawns@),
                forall|h: int, w: int| in_map(h, w) ==> #[trigger] at(enemy_and_object_spawns@, h, w) == at(s0, h, w)
                    || (at(enemy_and_object_spawns@, h, w) == 3 && spawn_room(self.numbered_map@, self.num_rooms,
                        self.starting_room, self.ending_room, h, w)),
                rooms.len() == i,
                enemy_and_object_spawns@ == put_rooms(s0, rooms),
                forall|r: int| 0 <= r < rooms.len() ==> crates_of_room(put_rooms(s0, rooms.take(r)), self.map@,
                    self.numbered_map@, r, #[trigger] rooms[r]),
                forall|r: int| 0 <= r < rooms.len() && (r == 0 || r == self.starting_room || r == self.ending_room)
                    ==> (#[trigger] rooms[r]).len() == 0,
                all_placed ==> forall|r: int| 1 <= r < rooms.len() && r != self.starting_room && r != self.ending_room
                    ==> (#[trigger] rooms[r]).len() >= 1,
                !all_placed ==> exists|r: int| 1 <= r < rooms.len() && r != self.starting_room && r != self.ending_room
                    && #[trigger] room_full(enemy_and_object_spawns@, self.map@, self.numbered_map@, r),
            decreases self.num_rooms + 1 - i,
        {
            if i == self.starting_room || i == self.ending_room {
                proof {
                    let e: Seq<(usize, usize)> = Seq::empty();
                    let r2 = rooms.push(e);
                    lemma_put_rooms_push(s0, rooms, e);
                    assert(put_spawns(put_rooms(s0, rooms), e, 3) == put_rooms(s0, rooms));
                    assert forall|r: int| 0 <= r < r2.len() implies crates_of_room(put_rooms(s0, r2.take(r)), self.map@,
                        self.numbered_map@, r, #[trigger] r2[r]) by {
                        if r < rooms.len() {
                            assert(r2.take(r) =~= rooms.take(r));
                            assert(r2[r] == rooms[r]);
                        } else {
                            assert(r2[r] == e);
                        }
                    }
                    if !all_placed {
                        let r = choose|r: int| 1 <= r < rooms.len() && r != self.starting_room && r != self.ending_room
                            && #[trigger] room_full(enemy_and_object_spawns@, self.map@, self.numbered_map@, r);
                        assert(r2[r] == rooms[r]);
                        assert(1 <= r < r2.len() && room_full(enemy_and_object_spawns@, self.map@, self.numbered_map@, r));
                    }
                    assert forall|r: int| 0 <= r < r2.len() && (r == 0 || r == self.starting_room || r == self.ending_room)
                        implies (#[trigger] r2[r]).len() == 0 by {
                        if r < rooms.len() {
                            assert(r2[r] == rooms[r]);
                        }
                    }
                    assert(all_placed ==> forall|r: int| 1 <= r < r2.len() && r != self.starting_room && r != self.ending_room
                        ==> (#[trigger] r2[r]).len() >= 1) by {
                        if all_placed {
                            assert forall|r: int| 1 <= r < r2.len() && r != self.starting_room && r != self.ending_room
                                implies (#[trigger] r2[r]).len() >= 1 by {
                                assert(r2[r] == rooms[r]);
                            }
                        }
                    }
                    rooms = r2;
                }
                i += 1;
                continue;
            }
            let spawn_positions = room_cells(&self.numbered_map, i);
            let ghost before = enemy_and_object_spawns@;
            let crates = random_in(1, 4);
            let a = place_spawns(&mut enemy_and_object_spawns, &spawn_positions, &self.map, crates, 3, true);
            proof {
                let cs = choose|cs: Seq<(usize, usize)>| #[trigger] spawns_placed(before, self.map@, spawn_positions@, 3, true, cs)
                    && enemy_and_object_spawns@ == put_spawns(before, cs, 3)
                    && (a ==> cs.len() == crates)
                    && (!a ==> cs.len() < crates && forall|k: int| 0 <= k < spawn_positions.len()
                        ==> !spawn_open(enemy_and_object_spawns@, self.map@, #[trigger] spawn_positions[k], true));
                let r2 = rooms.push(cs);
                lemma_put_rooms_push(s0, rooms, cs);
                assert(r2.take(rooms.len() as int) =~= rooms);
                assert forall|k: int| 0 <= k < cs.len() implies in_map((#[trigger] cs[k]).0 as int, cs[k].1 as int) by {
                    let j = choose|j: int| 0 <= j < spawn_positions.len() && spawn_positions[j] == cs[k];
                    assert(in_map(spawn_positions[j].0 as int, spawn_positions[j].1 as int));
                }
                assert(crates_of_room(before, self.map@, self.numbered_map@, i as int, cs)) by {
                    assert forall|k: int| 0 <= k < cs.len() implies in_map((#[trigger] cs[k]).0 as int, cs[k].1 as int)
                        && at(self.numbered_map@, cs[k].0 as int, cs[k].1 as int) == i
                        && spawn_open(put_spawns(before, cs.take(k), 3), self.map@, cs[k], true) by {
                        let j = choose|j: int| 0 <= j < spawn_positions.len() && spawn_positions[j] == cs[k];
                        assert(in_map(spawn_positions[j].0 as int, spawn_positions[j].1 as int));
                    }
                }
                assert forall|r: int| 0 <= r < r2.len() implies crates_of_room(put_rooms(s0, r2.take(r)), self.map@,
                    self.numbered_map@, r, #[trigger] r2[r]) by {
                    if r < rooms.len() {
                        assert(r2.take(r) =~= rooms.take(r));
                        assert(r2[r] == rooms[r]);
                    } else {
                        assert(r2[r] == cs);
                    }
                }
                assert forall|r: int| 0 <= r < r2.len() && (r == 0 || r == self.starting_room || r == self.ending_room)
                    implies (#[trigger] r2[r]).len() == 0 by {
                    assert(r < rooms.len());
                    assert(r2[r] == rooms[r]);
                }
                lemma_put_spawns_elsewhere(before, cs, 3);
                if all_placed && a {
                    assert forall|r: int| 1 <= r < r2.len() && r != self.starting_room && r != self.ending_room
                        implies (#[trigger] r2[r]).len() >= 1 by {
                        if r < rooms.len() {
                            assert(r2[r] == rooms[r]);
                        } else {
                            assert(r2[r] == cs);
                        }
                    }
                }
                if !(all_placed && a) {
                    if !a {
                        assert(r2.len() - 1 == i);
                        assert(room_full(enemy_and_object_spawns@, self.map@, self.numbered_map@, i as int)) by {
                            assert forall|h: int, w: int| in_map(h, w) && #[trigger] at(self.numbered_map@, h, w) == i
                                implies !spawn_open(enemy_and_object_spawns@, self.map@, (h as usize, w as usize), true) by {
                                assert(spawn_positions@.contains((h as usize, w as usize)));
                                let j = choose|j: int| 0 <= j < spawn_positions.len() && spawn_positions[j] == (h as usize, w as usize);
                                assert(!spawn_open(enemy_and_object_spawns@, self.map@, spawn_positions[j], true));
                            }
                        }
                        assert(1 <= i < r2.len() && room_full(enemy_and_object_spawns@, self.map@, self.numbered_map@, i as int));
                    } else {
                        let r = choose|r: int| 1 <= r < rooms.len() && r != self.starting_room && r != self.ending_room
                            && #[trigger] room_full(before, self.map@, self.numbered_map@, r);
                        assert(room_full(enemy_and_object_spawns@, self.map@, self.numbered_map@, r)) by {
                            assert forall|h: int, w: int| in_map(h, w) && #[trigger] at(self.numbered_map@, h, w) == r
                                implies !spawn_open(enemy_and_object_spawns@, self.map@, (h as usize, w as usize), true) by {
                                if cs.contains((h as usize, w as usize)) {
                                    let k = choose|k: int| 0 <= k < cs.len() && cs[k] == (h as usize, w as usize);
                                    assert(at(self.numbered_map@, cs[k].0 as int, cs[k].1 as int) == i);
                                }
                                assert(!spawn_open(before, self.map@, (h as usize, w as usize), true));
                            }
                        }
                        assert(1 <= r < r2.len() && room_full(enemy_and_object_spawns@, self.map@, self.numbered_map@, r));
                    }
                }
                rooms = r2;
            }
            all_placed = all_placed && a;
            proof {
                assert forall|h: int, w: int| in_map(h, w) implies #[trigger] at(enemy_and_object_spawns@, h, w) == at(s0, h, w)
                    || (at(enemy_and_object_spawns@, h, w) == 3 && spawn_room(self.numbered_map@, self.num_rooms,
                        self.starting_room, self.ending_room, h, w)) by {
                    if at(enemy_and_object_spawns@, h, w) != at(before, h, w) {
                        let k = choose|k: int| 0 <= k < spawn_positions.len() && spawn_positions[k] == (h as usize, w as usize);
                        assert(in_map(spawn_positions[k].0 as int, spawn_positions[k].1 as int));
                    }
                }
            }
            i += 1;
        }
        self.enemy_and_object_spawns = enemy_and_object_spawns;
        proof {
            assert(crates_laid(old(self).enemy_and_object_spawns@, self.enemy_and_object_spawns@, old(self).map@,
                old(self).numbered_map@, old(self).num_rooms as int, old(self).starting_room as int,
                old(self).ending_room as int, rooms, all_placed));
        }
        all_placed
    }

    /// Builds a whole floor: rooms, mazes between them, doors until every
    /// region is joined, no dead ends, walls, stairs and pillars, then enemy
    /// and crate spawns. Returns false when the stairs or a spawn had
    /// nowhere to go; the floor should then be built again.
    pub fn create_map(&mut self) -> (complete: bool)
        requires
            old(self).wf(),
            0 <= old(self).num_rooms <= 999_000,
        ensures
            final(self).wf(),
            no_floor_on_border(final(self).map@),
            forall|h: int, w: int| in_map(h, w) ==> !#[trigger] dead_end(final(self).map@, h, w),
            complete ==> ({
                let sw = final(self).starting_position.0 as int;
                let sh = final(self).starting_position.1 as int;
                let ew = final(self).ending_position.0 as int;
                let eh = final(self).ending_position.1 as int;
                &&& in_map(sh, sw)
                &&& in_map(eh, ew)
                &&& !(sh == eh && sw == ew)
                &&& at(final(self).map@, sh, sw) == 3
                &&& at(final(self).map@, eh, ew) == 4
                &&& final(self).starting_room == at(final(self).numbered_map@, sh, sw)
                &&& final(self).ending_room == at(final(self).numbered_map@, eh, ew)
                &&& final(self).num_rooms > 1 ==> final(self).ending_room != final(self).starting_room
            }),
            complete ==> forall|h: int, w: int| in_map(h, w) ==> {
                let v = #[trigger] at(final(self).enemy_and_object_spawns@, h, w);
                &&& (v == 0 || v == 1 || v == 2 || v == 3 || v == 4)
                &&& v != 0 ==> spawn_room(final(self).numbered_map@, final(self).num_rooms, final(self).starting_room,
                    final(self).ending_room, h, w)
            },
            final(self).current_floor == old(self).current_floor,
            !DEVELOP ==> exists|ps: Seq<(int, int, int, int)>| #[trigger] rooms_laid(empty_grid(), final(self).numbered_map@,
                old(self).num_rooms as int, ps) && ps.len() == final(self).num_rooms - old(self).num_rooms + 1
                && 1 <= ps.len() <= 300,
            !DEVELOP && old(self).num_rooms >= 1 ==> odd_closed(final(self).numbered_map@),
            !complete ==> (exists|r: int| 1 <= r <= final(self).num_rooms && r != final(self).starting_room
                && r != final(self).ending_room && #[trigger] room_taken(final(self).enemy_and_object_spawns@,
                final(self).numbered_map@, r))
                || (final(self).enemy_and_object_spawns == old(self).enemy_and_object_spawns
                    && final(self).starting_position == old(self).starting_position
                    && final(self).ending_position == old(self).ending_position),
    {
        self.map = zero_grid();
        if DEVELOP {
            return true;
        }
        proof {
            assert(self.map@ =~= empty_grid());
        }
        // create rooms
        self.create_rooms();
        self.numbered_map = self.map.clone();
        proof {
            assert(self.numbered_map@ =~= self.map@);
        }
        let ghost laid = self.numbered_map@;
        proof {
            if old(self).num_rooms >= 1 {
                let ps = choose|ps: Seq<(int, int, int, int)>| #[trigger] rooms_laid(empty_grid(), laid,
                    old(self).num_rooms as int, ps) && ps.len() == self.num_rooms - old(self).num_rooms + 1 && ps.len() <= 300;
                lemma_rooms_odd_closed(old(self).num_rooms as int, ps);
            }
        }
        // create maze
        let corridors = self.create_maze();
        // form levels
        self.connect_maze();
        let ghost cm = self.map@;
        self.remove_dead_ends();
        let ghost r = self.map@;
        proof {
            assert forall|h: int, c: int| in_map(h, c) && on_border(h, c) implies #[trigger] at(r, h, c) == 0 by {
                lemma_cell_bounds(h, c);
                assert(at(cm, h, c) == 0);
                assert(r[cell(h, c)] == cm[cell(h, c)] || (cm[cell(h, c)] == 1 && r[cell(h, c)] == 0));
            }
        }
        self.create_walls();
        let ghost w = self.map@;
        proof {
            assert forall|h: int, c: int| in_map(h, c) && on_border(h, c) implies #[trigger] at(w, h, c) != 1 by {
                assert(at(w, h, c) == walled(r, h, c));
                assert(at(r, h, c) == 0);
            }
        }
        // add objects and entities
        if !self.create_obstacles(corridors) {
            proof { lemma_no_dead_end_kept(r, w, self.map@); }
            return false;
        }
        proof { lemma_no_dead_end_kept(r, w, self.map@); }
        let enemies_placed = self.create_enemies();
        let ghost spawns_enemies = self.enemy_and_object_spawns@;
        proof {
            let rooms = choose|rooms: Seq<EnemyCells>| #[trigger] enemies_laid(spawns_enemies, self.numbered_map@,
                self.num_rooms as int, self.starting_room as int, self.ending_room as int, rooms, enemies_placed);
            assert(enemies_laid(spawns_enemies, self.numbered_map@,
                self.num_rooms as int, self.starting_room as int, self.ending_room as int, rooms, enemies_placed));
        }
        let objects_placed = self.create_objects();
        proof {
            assert forall|h: int, c: int| in_map(h, c) implies {
                let v = #[trigger] at(self.enemy_and_object_spawns@, h, c);
                &&& (v == 0 || v == 1 || v == 2 || v == 3 || v == 4)
                &&& v != 0 ==> spawn_room(self.numbered_map@, self.num_rooms, self.starting_room, self.ending_room, h, c)
            } by {
                assert(at(spawns_enemies, h, c) == 0 || at(spawns_enemies, h, c) == 1 || at(spawns_enemies, h, c) == 2
                    || at(spawns_enemies, h, c) == 4);
            }
        }
        proof {
            if !enemies_placed {
                let rooms = choose|rooms: Seq<EnemyCells>| #[trigger] enemies_laid(spawns_enemies, self.numbered_map@,
                    self.num_rooms as int, self.starting_room as int, self.ending_room as int, rooms, enemies_placed);
                let r = choose|r: int| 1 <= r < rooms.len() && r != self.starting_room && r != self.ending_room
                    && #[trigger] room_taken(spawns_enemies, self.numbered_map@, r);
                assert(still_taken(spawns_enemies, self.enemy_and_object_spawns@)) by {
                    assert forall|h: int, w: int| in_map(h, w) && at(spawns_enemies, h, w) != 0
                        implies #[trigger] at(self.enemy_and_object_spawns@, h, w) != 0 by {}
                }
                lemma_room_taken_kept(spawns_enemies, self.enemy_and_object_spawns@, self.numbered_map@, r);
                assert(1 <= r <= self.num_rooms && room_taken(self.enemy_and_object_spawns@, self.numbered_map@, r));
            } else if !objects_placed {
                let rooms = choose|rooms: Seq<Seq<(usize, usize)>>| #[trigger] crates_laid(spawns_enemies,
                    self.enemy_and_object_spawns@, self.map@, self.numbered_map@, self.num_rooms as int,
                    self.starting_room as int, self.ending_room as int, rooms, objects_placed);
                let r = choose|r: int| 1 <= r < rooms.len() && r != self.starting_room && r != self.ending_room
                    && #[trigger] room_full(self.enemy_and_object_spawns@, self.map@, self.numbered_map@, r);
                assert(room_taken(self.enemy_and_object_spawns@, self.numbered_map@, r)) by {
                    assert forall|h: int, w: int| in_map(h, w) && #[trigger] at(self.numbered_map@, h, w) == r
                        implies at(self.enemy_and_object_spawns@, h, w) != 0 by {
                        assert(!spawn_open(self.enemy_and_object_spawns@, self.map@, (h as usize, w as usize), true));
                    }
                }
                assert(1 <= r <= self.num_rooms && room_taken(self.enemy_and_object_spawns@, self.numbered_map@, r));
            }
        }
        enemies_placed && objects_placed
    }
}

} // verus!
