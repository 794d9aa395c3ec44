//! The tiles in view around a moving body that block it: walls, and for
//! some bodies moss too. Enemies, crates and projectiles look for them the
//! same way, among the 12 x 21 tiles of a screen.
use crate::collision::{collect_col, hit_side, pixel_dist, CollisionDecider};
use crate::gamedata::{check_collision, CENTER_H, CENTER_W};
use crate::map::{at, grid_wf, in_map};
use crate::player::{div_rem_64, small, spec_center, tdiv64, trem64};
use crate::rect::{overlaps, Rect};
use vstd::prelude::*;

verus! {

/// Whether a map value stops a body: walls (2) always, moss (5) when
/// `moss` holds.
pub open spec fn blocks(v: i32, moss: bool) -> bool {
    v == 2 || (moss && v == 5)
}

/// The rectangle, `ts` pixels square, of the tile `h` rows and `w` columns
/// from the top-left tile in view of a body at (`x`, `y`).
pub open spec fn tile_in_view(x: int, y: int, h: int, w: int, ts: int) -> Rect {
    Rect::spec_new(w * 64 - trem64(x) - (CENTER_W - x), h * 64 - trem64(y) - (CENTER_H - y), ts, ts)
}

/// The hit, if any, of `body` (seen from (`x`, `y`)) on the tile in view at
/// (`h`, `w`).
pub open spec fn block_hit_at(g: Seq<i32>, body: Rect, x: int, y: int, moss: bool, ts: int, h: int, w: int) -> Option<CollisionDecider> {
    let r = h + tdiv64(y);
    let c = w + tdiv64(x);
    let tile = tile_in_view(x, y, h, w, ts);
    if !in_map(r, c) || !blocks(at(g, r, c), moss) {
        None
    } else if overlaps(body, tile) {
        Some(CollisionDecider {
            dir: hit_side(body, spec_center(body), tile),
            dist: pixel_dist(spec_center(body), spec_center(tile)) as i32,
        })
    } else {
        None
    }
}

pub open spec fn opt_hit(o: Option<CollisionDecider>) -> Seq<CollisionDecider> {
    match o {
        Some(c) => seq![c],
        None => Seq::empty(),
    }
}

pub open spec fn block_hits_row(g: Seq<i32>, body: Rect, x: int, y: int, moss: bool, ts: int, h: int, w: int) -> Seq<CollisionDecider>
    decreases w,
{
    if w <= 0 {
        Seq::empty()
    } else {
        block_hits_row(g, body, x, y, moss, ts, h, w - 1) + opt_hit(block_hit_at(g, body, x, y, moss, ts, h, w - 1))
    }
}

pub open spec fn block_hits_rows(g: Seq<i32>, body: Rect, x: int, y: int, moss: bool, ts: int, h: int) -> Seq<CollisionDecider>
    decreases h,
{
    if h <= 0 {
        Seq::empty()
    } else {
        block_hits_rows(g, body, x, y, moss, ts, h - 1) + block_hits_row(g, body, x, y, moss, ts, h - 1, 21)
    }
}

/// The hits of `body` on blocking tiles among the 12 x 21 tiles in view of
/// (`x`, `y`), row by row.
pub open spec fn block_hits(g: Seq<i32>, body: Rect, x: int, y: int, moss: bool, ts: int) -> Seq<CollisionDecider> {
    block_hits_rows(g, body, x, y, moss, ts, 12)
}

/// Collects the hits of `body` on blocking tiles in view (see
/// `block_hits`).
pub fn blocking_collisions(map: &Vec<i32>, body: Rect, x: i32, y: i32, moss: bool, ts: u32) -> (r: Vec<CollisionDecider>)
    requires
        grid_wf(map@),
        body.wf(),
        small(x as int),
        small(y as int),
    ensures
        r@ == block_hits(map@, body, x as int, y as int, moss, ts as int),
{
    let ghost g = map@;
    let (h_bounds_offset, y_rem) = div_rem_64(y);
    let (w_bounds_offset, x_rem) = div_rem_64(x);
    let mut collisions: Vec<CollisionDecider> = Vec::new();
    let mut h: i32 = 0;
    while h < 12
        invariant
            0 <= h <= 12,
            grid_wf(g),
            g == map@,
            body.wf(),
            small(x as int),
            small(y as int),
            h_bounds_offset == tdiv64(y as int),
            w_bounds_offset == tdiv64(x as int),
            y_rem == trem64(y as int),
            x_rem == trem64(x as int),
            -64 < y_rem < 64,
            -64 < x_rem < 64,
            collisions@ == block_hits_rows(g, body, x as int, y as int, moss, ts as int, h as int),
        decreases 12 - h,
    {
        let ghost base = collisions@;
        let mut w: i32 = 0;
        while w < 21
            invariant
                0 <= h < 12,
                0 <= w <= 21,
                grid_wf(g),
                g == map@,
                body.wf(),
                small(x as int),
                small(y as int),
                h_bounds_offset == tdiv64(y as int),
                w_bounds_offset == tdiv64(x as int),
                y_rem == trem64(y as int),
                x_rem == trem64(x as int),
                -64 < y_rem < 64,
                -64 < x_rem < 64,
                base == block_hits_rows(g, body, x as int, y as int, moss, ts as int, h as int),
                collisions@ == base + block_hits_row(g, body, x as int, y as int, moss, ts as int, h as int, w as int),
            decreases 21 - w,
        {
            let ghost before = collisions@;
            let ghost found = block_hit_at(g, body, x as int, y as int, moss, ts as int, h as int, w as int);
            let r = h + h_bounds_offset;
            let c = w + w_bounds_offset;
            if r < 0 || c < 0 || r >= 61 || c >= 61 {
                assert(found is None);
            } else {
                let v = map[(r as usize) * 61 + (c as usize)];
                if v == 2 || (moss && v == 5) {
                    let tile = Rect::new(w * 64 - x_rem - (CENTER_W - x), h * 64 - y_rem - (CENTER_H - y), ts, ts);
                    if check_collision(&body, &tile) {
                        let hit = collect_col(body, body.center(), tile);
                        collisions.push(hit);
                    } else {
                        assert(found is None);
                    }
                } else {
                    assert(found is None);
                }
            }
            assert(collisions@ =~= before + opt_hit(found));
            assert(block_hits_row(g, body, x as int, y as int, moss, ts as int, h as int, w as int + 1)
                =~= block_hits_row(g, body, x as int, y as int, moss, ts as int, h as int, w as int) + opt_hit(found));
            w += 1;
        }
        assert(block_hits_rows(g, body, x as int, y as int, moss, ts as int, h as int + 1)
            =~= block_hits_rows(g, body, x as int, y as int, moss, ts as int, h as int)
                + block_hits_row(g, body, x as int, y as int, moss, ts as int, h as int, 21));
        h += 1;
    }
    collisions
}

} // verus!
