//! Interpolation strategies: how a curve fills the gap between two keyframes.
use crate::value::{Interpolatable, Keyframe};
use vstd::prelude::*;

verus! {

/// A strategy that turns the two keyframes around a position into a value.
pub trait Interpolator<T: Interpolatable> {
    /// The value this strategy gives between `pre` (at `p1`) and `post` (at `p2`) at `q`.
    spec fn choose_value(p1: int, pre: T, p2: int, post: T, q: int) -> T;

    /// The value at `time`, which lies between the positions of `pre` and `post`.
    fn get(pre: &Keyframe<T>, post: &Keyframe<T>, time: i64) -> (r: T)
        requires
            pre.position <= time <= post.position,
        ensures
            r == Self::choose_value(
                pre.position as int,
                pre.value,
                post.position as int,
                post.value,
                time as int,
            ),
    ;
}

/// Blends the bracketing values in proportion to the distance from each.
pub struct LinearInterpolator;

/// Keeps the earlier value until the next keyframe: a step function.
pub struct HoldInterpolator;

impl<T: Interpolatable> Interpolator<T> for LinearInterpolator {
    open spec fn choose_value(p1: int, pre: T, p2: int, post: T, q: int) -> T {
        T::blend(p1, pre, p2, post, q)
    }

    fn get(pre: &Keyframe<T>, post: &Keyframe<T>, time: i64) -> (r: T) {
        T::interpolate(pre, post, time)
    }
}

impl<T: Interpolatable> Interpolator<T> for HoldInterpolator {
    open spec fn choose_value(p1: int, pre: T, p2: int, post: T, q: int) -> T {
        pre
    }

    fn get(pre: &Keyframe<T>, post: &Keyframe<T>, time: i64) -> (r: T) {
        pre.value
    }
}

} // verus!
