use vstd::prelude::*;

verus! {

/// The easing curves that tweens can follow.
#[derive(Debug, Clone, Copy, PartialEq, Eq, Structural)]
pub enum Easing {
    Linear,
    EaseInQuad,
    EaseOutQuad,
    EaseInOutQuad,
    EaseInCubic,
    EaseOutCubic,
    EaseInOutCubic,
    EaseOutBack,
    EaseOutElastic,
    Spring,
}

impl Default for Easing {
    fn default() -> (e: Self)
        ensures
            e == Easing::EaseInOutCubic,
    {
        Self::EaseInOutCubic
    }
}

} // verus!
