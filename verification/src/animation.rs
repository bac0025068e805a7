//! Sprite-sheet animation and the steering decision taken from held keys.

use vstd::prelude::*;

verus! {

/// The frame that follows `index` in a looping strip of `frame_count` frames.
pub open spec fn frame_after(index: int, frame_count: int) -> int {
    (index + 1) % frame_count
}

/// The frame reached from `index` after `steps` advances in a strip of `frame_count` frames.
pub open spec fn frames_after(index: int, steps: nat, frame_count: int) -> int
    decreases steps,
{
    if steps == 0 {
        index
    } else {
        frames_after(frame_after(index, frame_count), (steps - 1) as nat, frame_count)
    }
}

/// Advances a looping animation by one frame.
pub fn next_frame(index: usize, frame_count: usize) -> (next: usize)
    requires
        frame_count > 0,
        index < usize::MAX,
    ensures
        next == frame_after(index as int, frame_count as int),
        next == (index + 1) % (frame_count as int),
        next < frame_count,
{
    (index + 1) % frame_count
}

/// From a frame inside the strip, `steps` advances land on frame `(index + steps) % frame_count`.
pub proof fn lemma_frames_after(index: int, steps: nat, frame_count: int)
    requires
        0 <= index < frame_count,
    ensures
        frames_after(index, steps, frame_count) == (index + steps) % frame_count,
    decreases steps,
{
    if steps == 0 {
        vstd::arithmetic::div_mod::lemma_small_mod(index as nat, frame_count as nat);
    } else {
        let next = frame_after(index, frame_count);
        vstd::arithmetic::div_mod::lemma_mod_bound(index + 1, frame_count);
        lemma_frames_after(next, (steps - 1) as nat, frame_count);
        vstd::arithmetic::div_mod::lemma_add_mod_noop(index + 1, steps - 1, frame_count);
        vstd::arithmetic::div_mod::lemma_add_mod_noop(next, steps - 1, frame_count);
        vstd::arithmetic::div_mod::lemma_small_mod(next as nat, frame_count as nat);
    }
}

/// An animation loops: from any frame of the strip, as many advances as there are frames
/// come back to the same frame.
pub proof fn lemma_animation_loops(index: int, frame_count: int)
    requires
        0 <= index < frame_count,
    ensures
        frames_after(index, frame_count as nat, frame_count) == index,
{
    lemma_frames_after(index, frame_count as nat, frame_count);
    vstd::arithmetic::div_mod::lemma_mod_add_multiples_vanish(index, frame_count);
    vstd::arithmetic::div_mod::lemma_small_mod(index as nat, frame_count as nat);
}

/// Which way one axis of movement is pushed.
#[derive(PartialEq, Eq, Structural, Clone, Copy, Debug)]
pub enum Steer {
    Negative,
    Positive,
    Rest,
}

/// The push on one axis from the two keys of that axis: the negative key wins when both are
/// held, and with neither held the axis comes to rest.
pub fn steer(negative_held: bool, positive_held: bool) -> (s: Steer)
    ensures
        s == (if negative_held {
            Steer::Negative
        } else if positive_held {
            Steer::Positive
        } else {
            Steer::Rest
        }),
{
    if negative_held {
        Steer::Negative
    } else if positive_held {
        Steer::Positive
    } else {
        Steer::Rest
    }
}

} // verus!
