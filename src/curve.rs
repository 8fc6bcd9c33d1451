//! The keyframe store and the lookup of the keyframes around a position.
use crate::interpolator::Interpolator;
use crate::value::{Interpolatable, Keyframe};
use std::marker::PhantomData;
use vstd::prelude::*;

verus! {

/// Why a curve has no value at a position.
#[derive(Clone, Copy, Debug, PartialEq, Eq, Structural)]
pub enum CurveError {
    /// The curve holds no keyframe.
    Empty,
    /// The position lies before the first or after the last keyframe.
    OutOfRange,
}

/// What a curve holds around a position.
#[derive(Clone, Copy, Debug)]
pub enum Bracket<T> {
    /// A keyframe stands at the position: its value.
    Exact(T),
    /// The nearest keyframes before and after the position.
    Between(Keyframe<T>, Keyframe<T>),
}

/// Positions strictly increase along `s`: no two keyframes share a position.
pub open spec fn sorted_by_position<T>(s: Seq<Keyframe<T>>) -> bool {
    forall|i: int, j: int| 0 <= i < j < s.len() ==> s[i].position < s[j].position
}

/// The map from position to value that the keyframes of `s` describe.
pub open spec fn keyframe_map<T>(s: Seq<Keyframe<T>>) -> Map<int, T> {
    Map::new(
        |p: int| exists|i: int| 0 <= i < s.len() && s[i].position == p,
        |p: int| s[choose|i: int| 0 <= i < s.len() && s[i].position == p].value,
    )
}

/// `p` is the greatest key of `m` below `q`.
pub open spec fn is_pre<T>(m: Map<int, T>, q: int, p: int) -> bool {
    &&& m.contains_key(p)
    &&& p < q
    &&& forall|k: int| #[trigger] m.contains_key(k) && k < q ==> k <= p
}

/// `p` is the least key of `m` above `q`.
pub open spec fn is_post<T>(m: Map<int, T>, q: int, p: int) -> bool {
    &&& m.contains_key(p)
    &&& q < p
    &&& forall|k: int| #[trigger] m.contains_key(k) && q < k ==> p <= k
}

/// The value at `q` of a curve whose keyframes are `m` and whose strategy is `IP`:
/// the stored value at a keyframe, the strategy's value between the two
/// keyframes around `q`, and an error on an empty curve or outside its range.
pub open spec fn curve_value<T: Interpolatable, IP: Interpolator<T>>(m: Map<int, T>, q: int) -> Result<
    T,
    CurveError,
> {
    if m.dom() == Set::<int>::empty() {
        Err(CurveError::Empty)
    } else if m.contains_key(q) {
        Ok(m[q])
    } else if (exists|p: int| is_pre(m, q, p)) && (exists|p: int| is_post(m, q, p)) {
        let p1 = choose|p: int| is_pre(m, q, p);
        let p2 = choose|p: int| is_post(m, q, p);
        Ok(IP::choose_value(p1, m[p1], p2, m[p2], q))
    } else {
        Err(CurveError::OutOfRange)
    }
}

/// Each keyframe of a sorted sequence stands in its map under its position.
pub proof fn lemma_keyframe_map_index<T>(s: Seq<Keyframe<T>>)
    requires
        sorted_by_position(s),
    ensures
        forall|i: int|
            0 <= i < s.len() ==> #[trigger] keyframe_map(s).contains_key(s[i].position as int)
                && keyframe_map(s)[s[i].position as int] == s[i].value,
{
    assert forall|i: int| 0 <= i < s.len() implies #[trigger] keyframe_map(s).contains_key(
        s[i].position as int,
    ) && keyframe_map(s)[s[i].position as int] == s[i].value by {
        let p = s[i].position as int;
        assert(0 <= i < s.len() && s[i].position == p);
        let j = choose|j: int| 0 <= j < s.len() && s[j].position == p;
        if j < i {
            assert(s[j].position < s[i].position);
        } else if i < j {
            assert(s[i].position < s[j].position);
        }
    }
}

/// A curve: an ordered store of keyframes with unique positions, and the
/// interpolation strategy `IP` that gives values between them.
pub trait Curve<T> {
    /// The store's invariant holds.
    spec fn valid(&self) -> bool;

    /// The keyframes, as a map from position to value.
    spec fn keyframes(&self) -> Map<int, T>;

    /// What `value_at` gives at `q`.
    spec fn value_model(&self, q: int) -> Result<T, CurveError>;

    /// Inserts the keyframe `(key, value)`, replacing any value already at `key`.
    fn set(&mut self, key: i64, value: T)
        requires
            old(self).valid(),
        ensures
            final(self).valid(),
            final(self).keyframes() == old(self).keyframes().insert(key as int, value),
    ;

    /// The curve's value at `wanted_key`.
    fn value_at(&self, wanted_key: &i64) -> (r: Result<T, CurveError>)
        requires
            self.valid(),
        ensures
            r == self.value_model(*wanted_key as int),
    ;
}

/// A curve that keeps its keyframes in a vector sorted by position.
pub struct BTreeCurve<T, IP> {
    points: Vec<Keyframe<T>>,
    interpolator: PhantomData<IP>,
}

impl<T: Copy, IP> BTreeCurve<T, IP> {
    /// The stored keyframes, in order.
    pub closed spec fn samples(&self) -> Seq<Keyframe<T>> {
        self.points@
    }

    /// An empty curve.
    pub fn new() -> (r: Self)
        ensures
            sorted_by_position(r.samples()),
            keyframe_map(r.samples()) == Map::<int, T>::empty(),
    {
        let r = BTreeCurve { points: Vec::new(), interpolator: PhantomData };
        assert(keyframe_map(r.samples()) =~= Map::<int, T>::empty());
        r
    }

    /// The index of the first keyframe whose position is not below `q`.
    fn lower_bound(&self, q: i64) -> (i: usize)
        requires
            sorted_by_position(self.samples()),
        ensures
            i <= self.samples().len(),
            forall|j: int| 0 <= j < i ==> self.samples()[j].position < q,
            forall|j: int| i <= j < self.samples().len() ==> self.samples()[j].position >= q,
    {
        let mut lo: usize = 0;
        let mut hi: usize = self.points.len();
        while lo < hi
            invariant
                lo <= hi <= self.samples().len(),
                sorted_by_position(self.samples()),
                forall|j: int| 0 <= j < lo ==> self.samples()[j].position < q,
                forall|j: int| hi <= j < self.samples().len() ==> self.samples()[j].position >= q,
            decreases hi - lo,
        {
            let mid: usize = lo + (hi - lo) / 2;
            if self.points[mid].position < q {
                lo = mid + 1;
            } else {
                hi = mid;
            }
        }
        lo
    }

    /// Inserts the keyframe `(key, value)`, replacing any value already at `key`.
    pub fn set(&mut self, key: i64, value: T)
        requires
            sorted_by_position(old(self).samples()),
        ensures
            sorted_by_position(final(self).samples()),
            keyframe_map(final(self).samples()) == keyframe_map(old(self).samples()).insert(
                key as int,
                value,
            ),
    {
        let ghost s = self.samples();
        let i = self.lower_bound(key);
        let kf = Keyframe { position: key, value };
        let found = i < self.points.len() && self.points[i].position == key;
        if found {
            self.points[i] = kf;
        } else {
            self.points.insert(i, kf);
        }
        proof {
            let s2 = self.samples();
            let m = keyframe_map(s);
            let m2 = keyframe_map(s2);
            if found {
                assert(s2 == s.update(i as int, kf));
            } else {
                assert(s2 == s.insert(i as int, kf));
            }
            assert(sorted_by_position(s2));
            lemma_keyframe_map_index(s);
            lemma_keyframe_map_index(s2);
            assert forall|p: int| #[trigger] m2.contains_key(p) implies m.insert(key as int, value).contains_key(p)
                && m2[p] == m.insert(key as int, value)[p] by {
                let j = choose|j: int| 0 <= j < s2.len() && s2[j].position == p;
                if p != key {
                    let k = if found || j < i { j } else { j - 1 };
                    assert(s[k] == s2[j]);
                }
            }
            assert forall|p: int| #[trigger] m.insert(key as int, value).contains_key(p) implies m2.contains_key(p) by {
                if p != key {
                    let k = choose|k: int| 0 <= k < s.len() && s[k].position == p;
                    let j = if found || k < i { k } else { k + 1 };
                    assert(s2[j] == s[k]);
                } else {
                    assert(s2[i as int] == kf);
                }
            }
            assert(m2 =~= m.insert(key as int, value));
        }
    }

    /// The keyframe at `q`, or the two around it.
    pub fn bracket(&self, q: i64) -> (r: Result<Bracket<T>, CurveError>)
        requires
            sorted_by_position(self.samples()),
        ensures
            ({
                let m = keyframe_map(self.samples());
                match r {
                    Ok(Bracket::Exact(v)) => m.contains_key(q as int) && v == m[q as int],
                    Ok(Bracket::Between(pre, post)) => {
                        &&& !m.contains_key(q as int)
                        &&& is_pre(m, q as int, pre.position as int)
                        &&& is_post(m, q as int, post.position as int)
                        &&& pre.value == m[pre.position as int]
                        &&& post.value == m[post.position as int]
                    },
                    Err(CurveError::Empty) => m.dom() == Set::<int>::empty(),
                    Err(CurveError::OutOfRange) => {
                        &&& m.dom() != Set::<int>::empty()
                        &&& !m.contains_key(q as int)
                        &&& !((exists|p: int| is_pre(m, q as int, p)) && (exists|p: int| is_post(m, q as int, p)))
                    },
                }
            }),
    {
        let ghost s = self.samples();
        let ghost m = keyframe_map(s);
        let i = self.lower_bound(q);
        let n = self.points.len();
        proof {
            lemma_keyframe_map_index(s);
        }
        if i < n && self.points[i].position == q {
            return Ok(Bracket::Exact(self.points[i].value));
        }
        proof {
            assert forall|k: int| m.contains_key(k) implies k != q by {
                let j = choose|j: int| 0 <= j < s.len() && s[j].position == k;
                if j > i {
                    assert(s[i as int].position < s[j].position);
                }
            }
        }
        if n == 0 {
            proof {
                assert(m.dom() =~= Set::<int>::empty());
            }
            return Err(CurveError::Empty);
        }
        proof {
            assert(m.dom().contains(s[0].position as int));
        }
        if i == 0 || i == n {
            proof {
                if i == 0 {
                    assert forall|p: int| !is_pre(m, q as int, p) by {
                        if m.contains_key(p) {
                            let j = choose|j: int| 0 <= j < s.len() && s[j].position == p;
                            assert(s[j].position >= q);
                        }
                    }
                } else {
                    assert forall|p: int| !is_post(m, q as int, p) by {
                        if m.contains_key(p) {
                            let j = choose|j: int| 0 <= j < s.len() && s[j].position == p;
                            assert(s[j].position < q);
                        }
                    }
                }
            }
            return Err(CurveError::OutOfRange);
        }
        let r = Bracket::Between(self.points[i - 1], self.points[i]);
        proof {
            let p1 = s[i - 1].position as int;
            let p2 = s[i as int].position as int;
            assert forall|k: int| #[trigger] m.contains_key(k) && k < q implies k <= p1 by {
                let j = choose|j: int| 0 <= j < s.len() && s[j].position == k;
                if j < i - 1 {
                    assert(s[j].position < s[i - 1].position);
                }
            }
            assert forall|k: int| #[trigger] m.contains_key(k) && q < k implies p2 <= k by {
                let j = choose|j: int| 0 <= j < s.len() && s[j].position == k;
                if j > i {
                    assert(s[i as int].position < s[j].position);
                }
            }
            assert(is_pre(m, q as int, p1));
            assert(is_post(m, q as int, p2));
        }
        Ok(r)
    }
}

impl<T: Interpolatable, IP: Interpolator<T>> Curve<T> for BTreeCurve<T, IP> {
    open spec fn valid(&self) -> bool {
        sorted_by_position(self.samples())
    }

    open spec fn keyframes(&self) -> Map<int, T> {
        keyframe_map(self.samples())
    }

    open spec fn value_model(&self, q: int) -> Result<T, CurveError> {
        curve_value::<T, IP>(self.keyframes(), q)
    }

    fn set(&mut self, key: i64, value: T) {
        BTreeCurve::set(self, key, value)
    }

    fn value_at(&self, wanted_key: &i64) -> (r: Result<T, CurveError>) {
        let q = *wanted_key;
        let ghost m = self.keyframes();
        match self.bracket(q) {
            Ok(Bracket::Exact(v)) => Ok(v),
            Ok(Bracket::Between(pre, post)) => {
                proof {
                    let c1 = choose|p: int| is_pre(m, q as int, p);
                    let c2 = choose|p: int| is_post(m, q as int, p);
                    assert(c1 == pre.position);
                    assert(c2 == post.position);
                }
                Ok(IP::get(&pre, &post, q))
            },
            Err(e) => Err(e),
        }
    }
}

} // verus!
