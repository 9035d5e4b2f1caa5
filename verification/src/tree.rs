use vstd::prelude::*;

verus! {

/// The first and the last frame of an animation.
#[derive(Clone, Copy, Debug, PartialEq, Eq, Structural)]
pub struct AnimationIndices {
    pub first: usize,
    pub last: usize,
}

/// Scenery that plays an animation.
pub struct AnimatedObject {
    pub name: String,
}

impl AnimationIndices {
    /// The frame that follows `index`: the first one after the last, else
    /// the next one.
    pub open spec fn following(self, index: usize) -> usize {
        if index == self.last {
            self.first
        } else if index < usize::MAX {
            (index + 1) as usize
        } else {
            index
        }
    }

    /// The frame to show after `index`. The frame number stays where it is
    /// when it can grow no further.
    pub fn next(&self, index: usize) -> (r: usize)
        ensures
            r == self.following(index),
    {
        if index == self.last {
            self.first
        } else if index < usize::MAX {
            index + 1
        } else {
            index
        }
    }
}

} // verus!
