//! Properties that hold of every curve, stated over the keyframe maps that
//! `Curve::set` produces and the values that `Curve::value_at` returns.
use crate::curve::{curve_value, is_post, is_pre, BTreeCurve, Curve};
use crate::interpolator::{HoldInterpolator, Interpolator, LinearInterpolator};
use crate::value::{lemma_lerp_close, lerp, Interpolatable, Vector};
use vstd::prelude::*;

verus! {

/// The keyframe map holding just `(p1, v1)` and `(p2, v2)`.
pub open spec fn two_keyframes<T>(p1: int, v1: T, p2: int, v2: T) -> Map<int, T> {
    Map::<int, T>::empty().insert(p1, v1).insert(p2, v2)
}

/// The keyframes after setting each `(position, value)` of `ks` in turn on `m`.
pub open spec fn set_all<T>(m: Map<int, T>, ks: Seq<(int, T)>) -> Map<int, T>
    decreases ks.len(),
{
    if ks.len() == 0 {
        m
    } else {
        set_all(m, ks.drop_last()).insert(ks.last().0, ks.last().1)
    }
}

/// No two entries of `ks` share a position.
pub open spec fn distinct_positions<T>(ks: Seq<(int, T)>) -> bool {
    forall|i: int, j: int| 0 <= i < j < ks.len() ==> ks[i].0 != ks[j].0
}

/// Every keyframe of a curve is returned unchanged at its own position,
/// whatever the interpolation strategy.
pub proof fn lemma_exact_at_keyframe<T: Interpolatable, IP: Interpolator<T>>(m: Map<int, T>, p: int)
    requires
        m.contains_key(p),
    ensures
        curve_value::<T, IP>(m, p) == Ok::<T, crate::curve::CurveError>(m[p]),
{
    assert(m.dom().contains(p));
}

/// Strictly between two keyframes, a curve gives what its strategy makes of them.
pub proof fn lemma_between_two<T: Interpolatable, IP: Interpolator<T>>(
    p1: int,
    v1: T,
    p2: int,
    v2: T,
    q: int,
)
    requires
        p1 < q < p2,
    ensures
        curve_value::<T, IP>(two_keyframes(p1, v1, p2, v2), q) == Ok::<T, crate::curve::CurveError>(
            IP::choose_value(p1, v1, p2, v2, q),
        ),
{
    let m = two_keyframes(p1, v1, p2, v2);
    assert(m.dom().contains(p1));
    assert(is_pre(m, q, p1));
    assert(is_post(m, q, p2));
    let c1 = choose|p: int| is_pre(m, q, p);
    let c2 = choose|p: int| is_post(m, q, p);
    assert(c1 == p1);
    assert(c2 == p2);
}

/// Linear, on scalars: strictly between `(p1, v1)` and `(p2, v2)` the value is
/// `v1 * (1 - alpha) + v2 * alpha` with `alpha = (q - p1) / (p2 - p1)`, rounded
/// to the nearest integer: at most half a unit away.
pub proof fn lemma_linear_between_scalars(p1: i64, v1: i64, p2: i64, v2: i64, q: i64)
    requires
        p1 < q < p2,
    ensures
        curve_value::<i64, LinearInterpolator>(two_keyframes(p1 as int, v1, p2 as int, v2), q as int)
            == Ok::<i64, crate::curve::CurveError>(lerp(p1 as int, v1 as int, p2 as int, v2 as int, q as int) as i64),
        2 * (lerp(p1 as int, v1 as int, p2 as int, v2 as int, q as int) * (p2 - p1) - (v1 * (p2 - q) + v2 * (q
            - p1))) <= p2 - p1,
        2 * ((v1 * (p2 - q) + v2 * (q - p1)) - lerp(p1 as int, v1 as int, p2 as int, v2 as int, q as int) * (p2
            - p1)) <= p2 - p1,
        i64::MIN <= lerp(p1 as int, v1 as int, p2 as int, v2 as int, q as int) <= i64::MAX,
{
    lemma_between_two::<i64, LinearInterpolator>(p1 as int, v1, p2 as int, v2, q as int);
    lemma_lerp_close(p1 as int, v1 as int, p2 as int, v2 as int, q as int);
}

/// Linear, on vectors: strictly between two keyframes each component is the
/// scalar linear value of that component.
pub proof fn lemma_linear_between_vectors(p1: i64, v1: Vector, p2: i64, v2: Vector, q: i64)
    requires
        p1 < q < p2,
    ensures
        curve_value::<Vector, LinearInterpolator>(two_keyframes(p1 as int, v1, p2 as int, v2), q as int)
            == Ok::<Vector, crate::curve::CurveError>(
            Vector {
                x: lerp(p1 as int, v1.x as int, p2 as int, v2.x as int, q as int) as i64,
                y: lerp(p1 as int, v1.y as int, p2 as int, v2.y as int, q as int) as i64,
                z: lerp(p1 as int, v1.z as int, p2 as int, v2.z as int, q as int) as i64,
            },
        ),
{
    lemma_between_two::<Vector, LinearInterpolator>(p1 as int, v1, p2 as int, v2, q as int);
}

/// Hold: from the first keyframe up to, not including, the second, the value
/// is the first keyframe's.
pub proof fn lemma_hold<T: Interpolatable>(p1: int, v1: T, p2: int, v2: T, q: int)
    requires
        p1 <= q < p2,
    ensures
        curve_value::<T, HoldInterpolator>(two_keyframes(p1, v1, p2, v2), q) == Ok::<T, crate::curve::CurveError>(v1),
{
    if q == p1 {
        lemma_exact_at_keyframe::<T, HoldInterpolator>(two_keyframes(p1, v1, p2, v2), p1);
    } else {
        lemma_between_two::<T, HoldInterpolator>(p1, v1, p2, v2, q);
    }
}

/// Setting one position twice leaves a single keyframe there, holding the
/// second value: the same keyframes as setting only the second.
pub proof fn lemma_overwrite<T: Interpolatable, IP: Interpolator<T>>(
    c: BTreeCurve<T, IP>,
    m: Map<int, T>,
    p: int,
    v1: T,
    v2: T,
)
    requires
        c.valid(),
        c.keyframes() == m.insert(p, v1).insert(p, v2),
    ensures
        c.keyframes() == m.insert(p, v2),
        c.keyframes()[p] == v2,
        exists|i: int| 0 <= i < c.samples().len() && c.samples()[i].position == p,
        forall|i: int, j: int|
            0 <= i < c.samples().len() && 0 <= j < c.samples().len() && c.samples()[i].position == p
                && c.samples()[j].position == p ==> i == j,
{
    assert(m.insert(p, v1).insert(p, v2) =~= m.insert(p, v2));
    assert(c.keyframes().contains_key(p));
}

/// With distinct positions, which keyframes `set_all` leaves depends only on
/// the pairs that `ks` holds, not on their order.
proof fn lemma_set_all_contents<T>(ks: Seq<(int, T)>)
    requires
        distinct_positions(ks),
    ensures
        forall|p: int|
            #[trigger] set_all(Map::<int, T>::empty(), ks).contains_key(p) <==> exists|i: int|
                0 <= i < ks.len() && ks[i].0 == p,
        forall|i: int|
            0 <= i < ks.len() ==> #[trigger] set_all(Map::<int, T>::empty(), ks)[ks[i].0] == ks[i].1,
    decreases ks.len(),
{
    if ks.len() > 0 {
        let rest = ks.drop_last();
        lemma_set_all_contents(rest);
        let last = ks.last();
        let prev = set_all(Map::<int, T>::empty(), rest);
        let m = set_all(Map::<int, T>::empty(), ks);
        assert(m == prev.insert(last.0, last.1));
        assert forall|p: int| #[trigger] m.contains_key(p) implies exists|i: int|
            0 <= i < ks.len() && ks[i].0 == p by {
            if p == last.0 {
                assert(ks[ks.len() - 1].0 == p);
            } else {
                assert(prev.contains_key(p));
                let i = choose|i: int| 0 <= i < rest.len() && rest[i].0 == p;
                assert(ks[i] == rest[i]);
            }
        }
        assert forall|p: int| (exists|i: int| 0 <= i < ks.len() && ks[i].0 == p) implies #[trigger] m.contains_key(p) by {
            let i = choose|i: int| 0 <= i < ks.len() && ks[i].0 == p;
            if i < ks.len() - 1 {
                assert(rest[i] == ks[i]);
                assert(prev.contains_key(rest[i].0));
            }
        }
        assert forall|i: int| 0 <= i < ks.len() implies #[trigger] m[ks[i].0] == ks[i].1 by {
            if i < ks.len() - 1 {
                assert(rest[i] == ks[i]);
                assert(ks[i].0 != last.0);
                assert(prev[rest[i].0] == rest[i].1);
            }
        }
    }
}

/// Setting the same keyframes, each position once, in any order gives the same
/// keyframes, and so the same value at every position, as setting them in any
/// other order, for instance sorted by position.
pub proof fn lemma_order_independent<T: Interpolatable, IP: Interpolator<T>>(
    ks1: Seq<(int, T)>,
    ks2: Seq<(int, T)>,
    q: int,
)
    requires
        distinct_positions(ks1),
        distinct_positions(ks2),
        ks1.to_multiset() == ks2.to_multiset(),
    ensures
        set_all(Map::<int, T>::empty(), ks1) == set_all(Map::<int, T>::empty(), ks2),
        curve_value::<T, IP>(set_all(Map::<int, T>::empty(), ks1), q) == curve_value::<T, IP>(
            set_all(Map::<int, T>::empty(), ks2),
            q,
        ),
{
    broadcast use vstd::seq_lib::group_to_multiset_ensures;

    lemma_set_all_contents(ks1);
    lemma_set_all_contents(ks2);
    let m1 = set_all(Map::<int, T>::empty(), ks1);
    let m2 = set_all(Map::<int, T>::empty(), ks2);
    assert forall|p: int| #[trigger] m1.contains_key(p) implies m2.contains_key(p) && m1[p] == m2[p] by {
        let i = choose|i: int| 0 <= i < ks1.len() && ks1[i].0 == p;
        assert(ks1.contains(ks1[i]));
        assert(ks2.to_multiset().count(ks1[i]) > 0);
        let j = choose|j: int| 0 <= j < ks2.len() && ks2[j] == ks1[i];
    }
    assert forall|p: int| #[trigger] m2.contains_key(p) implies m1.contains_key(p) by {
        let j = choose|j: int| 0 <= j < ks2.len() && ks2[j].0 == p;
        assert(ks2.contains(ks2[j]));
        assert(ks1.to_multiset().count(ks2[j]) > 0);
        let i = choose|i: int| 0 <= i < ks1.len() && ks1[i] == ks2[j];
    }
    assert(m1 =~= m2);
}

} // verus!
