//! A single walled room: its size, its bounds in pixels and its tiles, each
//! a flag (whether the tile is drawn) and a texture number, laid out column
//! by column (`i * (ywalls.1 + 1) + j` for column `i`, row `j`).
use crate::random::random_in;
use vstd::prelude::*;

verus! {

const TILE_SIZE: u32 = 64;

/// Index of the tile in column `i`, row `j` of a room with `yw + 1` rows.
pub open spec fn tile_index(i: int, j: int, yw: int) -> int {
    i * (yw + 1) + j
}

/// Tiles on the outer edge of a room.
pub open spec fn is_border(i: int, j: int, xw: (i32, i32), yw: (i32, i32)) -> bool {
    i == 0 || i == xw.1 || j == 0 || j == yw.1
}

/// Tiles one step inside the outer edge (the walls' inner faces).
pub open spec fn is_ring(i: int, j: int, xw: (i32, i32), yw: (i32, i32)) -> bool {
    i == xw.0 || i == xw.1 - 1 || j == yw.0 || j == yw.1 - 1
}

pub open spec fn is_inner(i: int, j: int, xw: (i32, i32), yw: (i32, i32)) -> bool {
    0 <= i <= xw.1 && 0 <= j <= yw.1 && !is_border(i, j, xw, yw) && !is_ring(i, j, xw, yw)
}

pub proof fn lemma_tile_index(i: int, j: int, yw: int)
    requires
        0 <= j <= yw,
        0 <= i,
    ensures
        tile_index(i, j, yw) >= 0,
        tile_index(i + 1, j, yw) == tile_index(i, j, yw) + yw + 1,
{
    assert((i + 1) * (yw + 1) == i * (yw + 1) + yw + 1) by (nonlinear_arith);
    assert(i * (yw + 1) >= 0) by (nonlinear_arith) requires i >= 0, yw >= 0;
}

pub proof fn lemma_tile_index_inj(i: int, j: int, a: int, b: int, yw: int)
    requires
        0 <= j <= yw,
        0 <= b <= yw,
        0 <= i,
        0 <= a,
        tile_index(i, j, yw) == tile_index(a, b, yw),
    ensures
        i == a && j == b,
{
    if i < a {
        assert(i * (yw + 1) + yw + 1 <= a * (yw + 1)) by (nonlinear_arith) requires i < a, yw >= 0;
    } else if a < i {
        assert(a * (yw + 1) + yw + 1 <= i * (yw + 1)) by (nonlinear_arith) requires a < i, yw >= 0;
    }
}

pub proof fn lemma_tile_index_bound(i: int, j: int, xw: int, yw: int)
    requires
        0 <= j <= yw,
        0 <= i <= xw,
    ensures
        0 <= tile_index(i, j, yw) < (xw + 1) * (yw + 1),
{
    assert(i * (yw + 1) + j < (xw + 1) * (yw + 1)) by (nonlinear_arith)
        requires 0 <= j <= yw, 0 <= i <= xw;
    assert(i * (yw + 1) >= 0) by (nonlinear_arith) requires i >= 0, yw >= 0;
}

pub open spec fn tile(t: Seq<(bool, i32)>, i: int, j: int, yw: int) -> (bool, i32) {
    t[tile_index(i, j, yw)]
}

pub open spec fn in_room(i: int, j: int, xw: (i32, i32), yw: (i32, i32)) -> bool {
    0 <= i <= xw.1 && 0 <= j <= yw.1
}

/// What a processed tile holds: edge tiles are drawn with texture 6, the
/// ring inside them is drawn with a texture below 5, and an inner tile is
/// drawn only as an obstacle (texture 7); otherwise it keeps its texture.
pub open spec fn tile_done(t: Seq<(bool, i32)>, t0: Seq<(bool, i32)>, i: int, j: int, xw: (i32, i32), yw: (i32, i32)) -> bool {
    let v = tile(t, i, j, yw.1 as int);
    if is_border(i, j, xw, yw) {
        v == (true, 6i32)
    } else if is_ring(i, j, xw, yw) {
        v.0 && 0 <= v.1 < 5
    } else {
        (v.0 ==> v.1 == 7) && (!v.0 ==> v.1 == tile(t0, i, j, yw.1 as int).1)
    }
}

pub proof fn lemma_set_tile(t: Seq<(bool, i32)>, i: int, j: int, xw: int, yw: int, v: (bool, i32))
    requires
        0 <= i <= xw,
        0 <= j <= yw,
        (xw + 1) * (yw + 1) <= t.len(),
    ensures
        forall|a: int, b: int| 0 <= a <= xw && 0 <= b <= yw ==> #[trigger] tile(t.update(tile_index(i, j, yw), v), a, b, yw)
            == if a == i && b == j { v } else { tile(t, a, b, yw) },
{
    assert forall|a: int, b: int| 0 <= a <= xw && 0 <= b <= yw implies #[trigger] tile(t.update(tile_index(i, j, yw), v), a, b, yw)
        == if a == i && b == j { v } else { tile(t, a, b, yw) } by {
        lemma_tile_index_bound(a, b, xw, yw);
        lemma_tile_index_bound(i, j, xw, yw);
        if tile_index(a, b, yw) == tile_index(i, j, yw) {
            lemma_tile_index_inj(a, b, i, j, yw);
        }
    }
}

/// Tiles as a room starts with: all drawn, texture 0.
pub open spec fn fresh_tiles(n: int) -> Seq<(bool, i32)> {
    Seq::new(n as nat, |i: int| (true, 0i32))
}

pub struct Room {
    /// How many rooms the floor's room generator made: always one.
    pub num_rooms: i32,
    pub xwalls: (i32, i32),
    pub ywalls: (i32, i32),
    pub xbounds: (i32, i32),
    pub ybounds: (i32, i32),
    pub tiles: Vec<(bool, i32)>,
    pub obstacles: Vec<(i32, i32)>,
}

impl Room {
    /// A room of random size, 19 to 26 tiles wide and 10 to 18 high, with
    /// its tiles decorated and its obstacles placed by `create_new_map`.
    pub fn new() -> (r: Room)
        ensures
            r.num_rooms == 1,
            r.xwalls.0 == 1,
            19 <= r.xwalls.1 < 27,
            r.ywalls.0 == 1,
            10 <= r.ywalls.1 < 19,
            r.xbounds == (64i32, (r.xwalls.1 * 64 - 64) as i32),
            r.ybounds == (64i32, (r.ywalls.1 * 64 - 64) as i32),
            r.tiles.len() == (r.xwalls.1 + 2) * (r.ywalls.1 + 1),
            forall|i: int, j: int| in_room(i, j, r.xwalls, r.ywalls) ==> #[trigger] tile_done(r.tiles@,
                fresh_tiles(r.tiles.len() as int), i, j, r.xwalls, r.ywalls),
            forall|i: int, j: int| is_inner(i, j, r.xwalls, r.ywalls) ==> (#[trigger] tile(r.tiles@, i, j, r.ywalls.1 as int).0
                <==> r.obstacles@.contains((i as i32, j as i32))),
            forall|k: int| 0 <= k < r.obstacles.len() ==> is_inner((#[trigger] r.obstacles[k]).0 as int, r.obstacles[k].1 as int,
                r.xwalls, r.ywalls),
            forall|i: int, j: int| #[trigger] r.obstacles@.contains((i as i32, j as i32)) && is_inner(i, j, r.xwalls, r.ywalls) ==> {
                &&& !r.obstacles@.contains((i as i32, (j + 1) as i32))
                &&& !r.obstacles@.contains(((i + 1) as i32, (j - 1) as i32))
                &&& !r.obstacles@.contains(((i + 1) as i32, j as i32))
                &&& !r.obstacles@.contains(((i + 1) as i32, (j + 1) as i32))
            },
    {
        let xwalls: (i32, i32) = (1, random_in(19, 27) as i32);
        let ywalls: (i32, i32) = (1, random_in(10, 19) as i32);
        let xbounds: (i32, i32) = (xwalls.0 * TILE_SIZE as i32, ((xwalls.1 as u32 * TILE_SIZE) - TILE_SIZE) as i32);
        let ybounds: (i32, i32) = (ywalls.0 * TILE_SIZE as i32, ((ywalls.1 as u32 * TILE_SIZE) - TILE_SIZE) as i32);
        assert(0 <= (xwalls.1 + 2) * (ywalls.1 + 1) <= 28 * 19) by (nonlinear_arith)
            requires 19 <= xwalls.1 < 27, 10 <= ywalls.1 < 19;
        let count = ((xwalls.1 + 2) * (ywalls.1 + 1)) as usize;
        let mut tiles: Vec<(bool, i32)> = Vec::new();
        while tiles.len() < count
            invariant
                tiles.len() <= count,
                forall|k: int| 0 <= k < tiles.len() ==> #[trigger] tiles[k] == (true, 0i32),
            decreases count - tiles.len(),
        {
            tiles.push((true, 0));
        }
        assert(tiles@ =~= fresh_tiles(count as int));
        let obstacles = create_new_map(xwalls, ywalls, &mut tiles);
        Room { num_rooms: 1, xwalls, ywalls, xbounds, ybounds, tiles, obstacles }
    }
}


/// `p` comes before `q` row by row: a smaller first coordinate, or the
/// same one and a smaller second.
pub open spec fn lex_lt(p: (i32, i32), q: (i32, i32)) -> bool {
    p.0 < q.0 || (p.0 == q.0 && p.1 < q.1)
}

proof fn lemma_index_lex(a: int, b: int, i: int, j: int, yw: int)
    requires
        0 <= b <= yw,
        0 <= j <= yw,
        a * (yw + 1) + b < i * (yw + 1) + j,
    ensures
        a < i || (a == i && b < j),
{
    if a > i {
        assert(a * (yw + 1) >= i * (yw + 1) + (yw + 1)) by (nonlinear_arith)
            requires a >= i + 1, yw >= 0;
    }
}

/// Decorates the tiles of a room and places its obstacles. Column by column,
/// edge tiles get texture 6, the ring inside them a random texture below 5,
/// and each inner tile still drawn becomes an obstacle (texture 7) with
/// chance 1 in 75, which hides the inner tiles right below it and in the
/// next column around it so that obstacles never touch; every other inner
/// tile is hidden. Returns the obstacles, `(column, row)`, in that order.
pub fn create_new_map(xwalls: (i32, i32), ywalls: (i32, i32), tiles: &mut Vec<(bool, i32)>) -> (obs: Vec<(i32, i32)>)
    requires
        0 <= xwalls.1 <= 1000,
        0 <= ywalls.1 <= 1000,
        old(tiles).len() == (xwalls.1 + 2) * (ywalls.1 + 1),
    ensures
        final(tiles).len() == old(tiles).len(),
        forall|i: int, j: int| in_room(i, j, xwalls, ywalls) ==> #[trigger] tile_done(final(tiles)@, old(tiles)@, i, j, xwalls, ywalls),
        forall|i: int, j: int| is_inner(i, j, xwalls, ywalls) ==> (#[trigger] tile(final(tiles)@, i, j, ywalls.1 as int).0
            <==> obs@.contains((i as i32, j as i32))),
        forall|k: int| 0 <= k < obs.len() ==> is_inner((#[trigger] obs[k]).0 as int, obs[k].1 as int, xwalls, ywalls),
        forall|p: int, q: int| 0 <= p < q < obs.len() ==> lex_lt(#[trigger] obs[p], #[trigger] obs[q]),
        forall|i: int, j: int| #[trigger] obs@.contains((i as i32, j as i32)) && is_inner(i, j, xwalls, ywalls) ==> {
            &&& !obs@.contains((i as i32, (j + 1) as i32))
            &&& !obs@.contains(((i + 1) as i32, (j - 1) as i32))
            &&& !obs@.contains(((i + 1) as i32, j as i32))
            &&& !obs@.contains(((i + 1) as i32, (j + 1) as i32))
        },
        forall|k: int| (xwalls.1 + 1) * (ywalls.1 + 1) <= k < old(tiles).len() ==> #[trigger] final(tiles)@[k] == old(tiles)@[k],
{
    let ghost t0 = tiles@;
    let ghost xw = xwalls.1 as int;
    let ghost yw = ywalls.1 as int;
    let mut obs: Vec<(i32, i32)> = Vec::new();
    let mut n: usize = 0;
    let ghost grid = (xw + 1) * (yw + 1);
    proof {
        assert((xw + 1) * (yw + 1) <= (xw + 2) * (yw + 1)) by (nonlinear_arith) requires xw >= 0, yw >= 0;
        assert((xw + 2) * (yw + 1) <= 1002 * 1001) by (nonlinear_arith) requires 0 <= xw <= 1000, 0 <= yw <= 1000;
    }
    let mut i: i32 = 0;
    while i < xwalls.1 + 1
        invariant
            0 <= xw <= 1000,
            0 <= yw <= 1000,
            xw == xwalls.1,
            yw == ywalls.1,
            grid == (xw + 1) * (yw + 1),
            grid <= t0.len(),
            t0.len() <= 1002 * 1001,
            tiles.len() == t0.len(),
            0 <= i <= xw + 1,
            n == tile_index(i as int, 0, yw),
            forall|a: int, b: int| in_room(a, b, xwalls, ywalls) && tile_index(a, b, yw) < n
                ==> #[trigger] tile_done(tiles@, t0, a, b, xwalls, ywalls),
            forall|a: int, b: int| in_room(a, b, xwalls, ywalls) && tile_index(a, b, yw) >= n
                ==> (#[trigger] tile(tiles@, a, b, yw)).1 == tile(t0, a, b, yw).1,
            forall|k: int| 0 <= k < obs.len() ==> is_inner((#[trigger] obs[k]).0 as int, obs[k].1 as int, xwalls, ywalls)
                && tile_index(obs[k].0 as int, obs[k].1 as int, yw) < n
                && tile(tiles@, obs[k].0 as int, obs[k].1 as int, yw).0,
            forall|a: int, b: int| is_inner(a, b, xwalls, ywalls) && tile_index(a, b, yw) < n && #[trigger] tile(tiles@, a, b, yw).0
                ==> obs@.contains((a as i32, b as i32)),
            forall|a: int, b: int| is_inner(a, b, xwalls, ywalls) && tile_index(a, b, yw) < n && #[trigger] tile(tiles@, a, b, yw).0 ==> {
                &&& (is_inner(a, b + 1, xwalls, ywalls) ==> !tile(tiles@, a, b + 1, yw).0)
                &&& (is_inner(a + 1, b - 1, xwalls, ywalls) ==> !tile(tiles@, a + 1, b - 1, yw).0)
                &&& (is_inner(a + 1, b, xwalls, ywalls) ==> !tile(tiles@, a + 1, b, yw).0)
                &&& (is_inner(a + 1, b + 1, xwalls, ywalls) ==> !tile(tiles@, a + 1, b + 1, yw).0)
            },
            forall|k: int| grid <= k < t0.len() ==> #[trigger] tiles@[k] == t0[k],
            forall|p: int, q: int| 0 <= p < q < obs.len() ==> lex_lt(#[trigger] obs[p], #[trigger] obs[q]),
        decreases xw + 1 - i,
    {
        let mut j: i32 = 0;
        while j < ywalls.1 + 1
            invariant
                0 <= xw <= 1000,
                0 <= yw <= 1000,
                xw == xwalls.1,
                yw == ywalls.1,
                grid == (xw + 1) * (yw + 1),
                grid <= t0.len(),
                t0.len() <= 1002 * 1001,
                tiles.len() == t0.len(),
                0 <= i <= xw,
                0 <= j <= yw + 1,
                n == tile_index(i as int, j as int, yw),
                forall|a: int, b: int| in_room(a, b, xwalls, ywalls) && tile_index(a, b, yw) < n
                    ==> #[trigger] tile_done(tiles@, t0, a, b, xwalls, ywalls),
                forall|a: int, b: int| in_room(a, b, xwalls, ywalls) && tile_index(a, b, yw) >= n
                    ==> (#[trigger] tile(tiles@, a, b, yw)).1 == tile(t0, a, b, yw).1,
                forall|k: int| 0 <= k < obs.len() ==> is_inner((#[trigger] obs[k]).0 as int, obs[k].1 as int, xwalls, ywalls)
                    && tile_index(obs[k].0 as int, obs[k].1 as int, yw) < n
                    && tile(tiles@, obs[k].0 as int, obs[k].1 as int, yw).0,
                forall|a: int, b: int| is_inner(a, b, xwalls, ywalls) && tile_index(a, b, yw) < n && #[trigger] tile(tiles@, a, b, yw).0
                    ==> obs@.contains((a as i32, b as i32)),
                forall|a: int, b: int| is_inner(a, b, xwalls, ywalls) && tile_index(a, b, yw) < n && #[trigger] tile(tiles@, a, b, yw).0 ==> {
                    &&& (is_inner(a, b + 1, xwalls, ywalls) ==> !tile(tiles@, a, b + 1, yw).0)
                    &&& (is_inner(a + 1, b - 1, xwalls, ywalls) ==> !tile(tiles@, a + 1, b - 1, yw).0)
                    &&& (is_inner(a + 1, b, xwalls, ywalls) ==> !tile(tiles@, a + 1, b, yw).0)
                    &&& (is_inner(a + 1, b + 1, xwalls, ywalls) ==> !tile(tiles@, a + 1, b + 1, yw).0)
                },
                forall|k: int| grid <= k < t0.len() ==> #[trigger] tiles@[k] == t0[k],
                forall|p: int, q: int| 0 <= p < q < obs.len() ==> lex_lt(#[trigger] obs[p], #[trigger] obs[q]),
            decreases yw + 1 - j,
        {
            let ghost ii = i as int;
            let ghost jj = j as int;
            let ghost before = tiles@;
            let ghost obs_before = obs@;
            proof {
                lemma_tile_index(ii, jj, yw);
                lemma_tile_index_bound(ii, jj, xw, yw);
            }
            if i == 0 || i == xwalls.1 || j == 0 || j == ywalls.1 {
                // border
                proof { lemma_set_tile(before, ii, jj, xw, yw, (true, 6)); }
                tiles.set(n, (true, 6));
                assert(tile(tiles@, ii, jj, yw) == (true, 6i32));
                assert(tile_done(tiles@, t0, ii, jj, xwalls, ywalls));
            } else if i == xwalls.0 || i == xwalls.1 - 1 || j == ywalls.0 || j == ywalls.1 - 1 {
                // one step inside the border: random tiles
                let num = random_in(0, 5) as i32;
                proof { lemma_set_tile(before, ii, jj, xw, yw, (true, num)); }
                tiles.set(n, (true, num));
                assert(tile(tiles@, ii, jj, yw) == (true, num));
                assert(tile_done(tiles@, t0, ii, jj, xwalls, ywalls));
            } else {
                // obstacles or nothing
                let num = random_in(0, 75) as i32;
                if num == 7 && tiles[n].0 == true {
                    proof {
                        assert forall|p: int| 0 <= p < obs.len() implies lex_lt(#[trigger] obs[p], (i, j)) by {
                            assert(is_inner(obs[p].0 as int, obs[p].1 as int, xwalls, ywalls));
                            lemma_index_lex(obs[p].0 as int, obs[p].1 as int, ii, jj, yw);
                        }
                    }
                    obs.push((i, j));
                    proof {
                        assert forall|p: int, q: int| 0 <= p < q < obs.len() implies lex_lt(#[trigger] obs[p], #[trigger] obs[q]) by {
                            assert(obs[p] == obs_before[p]);
                            if q < obs_before.len() {
                                assert(obs[q] == obs_before[q]);
                            }
                        }
                    }
                    let ghost t1 = before.update(n as int, (true, 7i32));
                    proof {
                        lemma_set_tile(before, ii, jj, xw, yw, (true, 7));
                        lemma_tile_index(ii + 1, jj, yw);
                        lemma_tile_index_bound(ii + 1, jj + 1, xw, yw);
                        lemma_tile_index_bound(ii, jj + 1, xw, yw);
                        lemma_tile_index_bound(ii + 1, jj - 1, xw, yw);
                        assert(tile_index(ii, jj + 1, yw) == n + 1);
                        assert(tile_index(ii + 1, jj - 1, yw) == n + yw);
                        assert(tile_index(ii + 1, jj, yw) == n + yw + 1);
                        assert(tile_index(ii + 1, jj + 1, yw) == n + yw + 2);
                    }
                    tiles.set(n, (true, 7));
                    // prevent overlap
                    let t = tiles[n + 1].1;
                    proof { lemma_set_tile(tiles@, ii, jj + 1, xw, yw, (false, t)); }
                    tiles.set(n + 1, (false, t));
                    let yw_u = ywalls.1 as usize;
                    let t = tiles[n + yw_u].1;
                    proof { lemma_set_tile(tiles@, ii + 1, jj - 1, xw, yw, (false, t)); }
                    tiles.set(n + yw_u, (false, t));
                    let t = tiles[n + yw_u + 1].1;
                    proof { lemma_set_tile(tiles@, ii + 1, jj, xw, yw, (false, t)); }
                    tiles.set(n + yw_u + 1, (false, t));
                    let t = tiles[n + yw_u + 2].1;
                    proof { lemma_set_tile(tiles@, ii + 1, jj + 1, xw, yw, (false, t)); }
                    tiles.set(n + yw_u + 2, (false, t));
                    assert(tile(tiles@, ii, jj, yw) == (true, 7i32));
                    assert(tile_done(tiles@, t0, ii, jj, xwalls, ywalls));
                } else {
                    let t = tiles[n].1;
                    proof { lemma_set_tile(before, ii, jj, xw, yw, (false, t)); }
                    tiles.set(n, (false, t));
                    assert(tile(tiles@, ii, jj, yw) == (false, t));
                    assert(tile(before, ii, jj, yw).1 == tile(t0, ii, jj, yw).1);
                    assert(tile_done(tiles@, t0, ii, jj, xwalls, ywalls));
                }
            }
            proof {
                assert forall|k: int| grid <= k < t0.len() implies #[trigger] tiles@[k] == t0[k] by {
                    assert(before[k] == t0[k]);
                }
                assert forall|a: int, b: int| in_room(a, b, xwalls, ywalls) && tile_index(a, b, yw) < n + 1
                    implies #[trigger] tile_done(tiles@, t0, a, b, xwalls, ywalls) by {
                    if !(a == ii && b == jj) {
                        lemma_tile_index_bound(a, b, xw, yw);
                        if tile_index(a, b, yw) == n as int {
                            lemma_tile_index_inj(a, b, ii, jj, yw);
                        }
                        assert(tile_done(before, t0, a, b, xwalls, ywalls));
                        assert(tile(tiles@, a, b, yw) == tile(before, a, b, yw));
                    }
                }
                assert forall|a: int, b: int| in_room(a, b, xwalls, ywalls) && tile_index(a, b, yw) >= n + 1
                    implies (#[trigger] tile(tiles@, a, b, yw)).1 == tile(t0, a, b, yw).1 by {
                    lemma_tile_index_bound(a, b, xw, yw);
                    assert(tile(before, a, b, yw).1 == tile(t0, a, b, yw).1);
                    assert(tile(tiles@, a, b, yw).1 == tile(before, a, b, yw).1);
                }
                assert forall|a: int, b: int| is_inner(a, b, xwalls, ywalls) && tile_index(a, b, yw) < n + 1
                    && #[trigger] tile(tiles@, a, b, yw).0 implies obs@.contains((a as i32, b as i32)) by {
                    if a == ii && b == jj {
                        assert(obs@[obs.len() - 1] == (a as i32, b as i32));
                    } else {
                        lemma_tile_index_bound(a, b, xw, yw);
                        if tile_index(a, b, yw) == n as int {
                            lemma_tile_index_inj(a, b, ii, jj, yw);
                        }
                        assert(tile(tiles@, a, b, yw) == tile(before, a, b, yw));
                        assert(obs_before.contains((a as i32, b as i32)));
                        let k = choose|k: int| 0 <= k < obs_before.len() && obs_before[k] == (a as i32, b as i32);
                        assert(obs@[k] == obs_before[k]);
                    }
                }
            }
            n += 1;
            j += 1;
        }
        proof { lemma_tile_index(i as int, 0, yw); }
        i += 1;
    }
    proof {
        assert forall|a: int, b: int| in_room(a, b, xwalls, ywalls) implies #[trigger] tile_done(tiles@, t0, a, b, xwalls, ywalls) by {
            lemma_tile_index_bound(a, b, xw, yw);
        }
        assert forall|a: int, b: int| is_inner(a, b, xwalls, ywalls) implies (#[trigger] tile(tiles@, a, b, yw).0
            <==> obs@.contains((a as i32, b as i32))) by {
            lemma_tile_index_bound(a, b, xw, yw);
            if obs@.contains((a as i32, b as i32)) {
                let k = choose|k: int| 0 <= k < obs.len() && obs[k] == (a as i32, b as i32);
                assert(tile(tiles@, obs[k].0 as int, obs[k].1 as int, yw).0);
            }
        }
    }
    proof {
        assert forall|a: int, b: int| #[trigger] obs@.contains((a as i32, b as i32)) && is_inner(a, b, xwalls, ywalls) implies {
            &&& !obs@.contains((a as i32, (b + 1) as i32))
            &&& !obs@.contains(((a + 1) as i32, (b - 1) as i32))
            &&& !obs@.contains(((a + 1) as i32, b as i32))
            &&& !obs@.contains(((a + 1) as i32, (b + 1) as i32))
        } by {
            let k = choose|k: int| 0 <= k < obs.len() && obs[k] == (a as i32, b as i32);
            assert(tile(tiles@, a, b, yw).0);
        }
    }
    obs
}

} // verus!
