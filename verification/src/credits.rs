//! Which credits scene shows when.
use vstd::prelude::*;

verus! {

/// How long each scene of the credits lasts, in frames.
pub const FRAME_GAP: u32 = 200;

/// The scene shown at frame `i`: one of eleven, each `FRAME_GAP` frames
/// long, then nothing.
pub open spec fn scene_at(i: int) -> Option<u32> {
    if i < FRAME_GAP * 11 { Some((i / FRAME_GAP as int) as u32) } else { None }
}

pub fn credit_scene(i: u32) -> (r: Option<u32>)
    ensures
        r == scene_at(i as int),
{
    if i < FRAME_GAP * 11 { Some(i / FRAME_GAP) } else { None }
}

/// The frame after `i`: the credits start over after twelve scenes' worth
/// of frames.
pub fn next_credit_frame(i: u32) -> (r: u32)
    requires
        i <= FRAME_GAP * 12,
    ensures
        r == (if i + 1 > FRAME_GAP * 12 { 0 } else { i + 1 }),
        r <= FRAME_GAP * 12,
{
    let next = i + 1;
    if next > FRAME_GAP * 12 { 0 } else { next }
}

/// The scene of the credits screen of the menu, `ms` milliseconds after
/// it opened: each scene lasts 11 ticks of 200 milliseconds; after the
/// eleventh the credits are over.
pub open spec fn menu_scene_at(ms: int) -> Option<u32> {
    let s = (ms / 200) / 11;
    if s <= 10 { Some(s as u32) } else { None }
}

pub fn menu_credit_scene(ms: u128) -> (r: Option<u32>)
    ensures
        r == menu_scene_at(ms as int),
{
    let s = (ms / 200) / 11;
    if s <= 10 { Some(s as u32) } else { None }
}

} // verus!
