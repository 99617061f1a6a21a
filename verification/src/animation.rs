//! Sprite animation: which frame follows which.

use vstd::prelude::*;

verus! {

/// The frame after `index` in an animation that runs from `first` to `last`
/// and then starts over.
pub open spec fn next_frame(index: usize, first: usize, last: usize) -> usize {
    if index >= last {
        first
    } else {
        (index + 1) as usize
    }
}

/// The frame to show after `index` in an animation that runs from
/// `first_sprite_index` to `last_sprite_index` and then starts over.
pub fn next_frame_index(index: usize, first_sprite_index: usize, last_sprite_index: usize) -> (next: usize)
    ensures
        next == next_frame(index, first_sprite_index, last_sprite_index),
{
    if index >= last_sprite_index {
        first_sprite_index
    } else {
        index + 1
    }
}

} // verus!
