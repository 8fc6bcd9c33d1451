use tween::curve::{BTreeCurve, Bracket, Curve, CurveError};
use tween::interpolator::{HoldInterpolator, LinearInterpolator};
use tween::value::Vector;

fn vector(x: i64, y: i64, z: i64) -> Vector {
    Vector { x, y, z }
}

#[test]
fn linear_interpolation_works() {
    let mut c = BTreeCurve::<i64, LinearInterpolator>::new();
    c.set(1, 100);
    c.set(3, 300);
    c.set(6, 600);
    assert_eq!(c.value_at(&1), Ok(100));
    assert_eq!(c.value_at(&3), Ok(300));
    assert_eq!(c.value_at(&6), Ok(600));

    assert_eq!(c.value_at(&2), Ok(200));
    assert_eq!(c.value_at(&4), Ok(400));
    assert_eq!(c.value_at(&5), Ok(500));
}

#[test]
fn hold_interpolation_works() {
    let mut c = BTreeCurve::<i64, HoldInterpolator>::new();
    c.set(1, 100);
    c.set(3, 300);
    c.set(6, 600);
    assert_eq!(c.value_at(&1), Ok(100));
    assert_eq!(c.value_at(&3), Ok(300));
    assert_eq!(c.value_at(&6), Ok(600));

    assert_eq!(c.value_at(&2), Ok(100));
    assert_eq!(c.value_at(&4), Ok(300));
    assert_eq!(c.value_at(&5), Ok(300));
}

#[test]
fn linear_interpolation_works_for_vectors() {
    let mut c = BTreeCurve::<Vector, LinearInterpolator>::new();
    c.set(1, vector(100, 1000, 10000));
    c.set(3, vector(300, 3000, 30000));
    c.set(6, vector(600, 6000, 60000));
    assert_eq!(c.value_at(&1), Ok(vector(100, 1000, 10000)));
    assert_eq!(c.value_at(&3), Ok(vector(300, 3000, 30000)));
    assert_eq!(c.value_at(&6), Ok(vector(600, 6000, 60000)));

    assert_eq!(c.value_at(&2), Ok(vector(200, 2000, 20000)));
    assert_eq!(c.value_at(&4), Ok(vector(400, 4000, 40000)));
    assert_eq!(c.value_at(&5), Ok(vector(500, 5000, 50000)));
}

#[test]
fn empty_curve_is_an_error() {
    let c = BTreeCurve::<i64, LinearInterpolator>::new();
    assert_eq!(c.value_at(&0), Err(CurveError::Empty));
    let h = BTreeCurve::<i64, HoldInterpolator>::new();
    assert_eq!(h.value_at(&7), Err(CurveError::Empty));
}

#[test]
fn outside_the_keyframes_is_an_error() {
    let mut c = BTreeCurve::<i64, LinearInterpolator>::new();
    c.set(1, 100);
    c.set(3, 300);
    assert_eq!(c.value_at(&0), Err(CurveError::OutOfRange));
    assert_eq!(c.value_at(&4), Err(CurveError::OutOfRange));
    assert_eq!(c.value_at(&i64::MIN), Err(CurveError::OutOfRange));
    assert_eq!(c.value_at(&i64::MAX), Err(CurveError::OutOfRange));
}

#[test]
fn single_keyframe_answers_only_at_itself() {
    let mut c = BTreeCurve::<i64, HoldInterpolator>::new();
    c.set(5, 42);
    assert_eq!(c.value_at(&5), Ok(42));
    assert_eq!(c.value_at(&4), Err(CurveError::OutOfRange));
    assert_eq!(c.value_at(&6), Err(CurveError::OutOfRange));
}

#[test]
fn set_overwrites_the_same_position() {
    let mut c = BTreeCurve::<i64, LinearInterpolator>::new();
    c.set(0, 0);
    c.set(10, 7);
    c.set(10, 100);
    assert_eq!(c.value_at(&10), Ok(100));
    assert_eq!(c.value_at(&5), Ok(50));
}

#[test]
fn insertion_order_does_not_matter() {
    let mut sorted = BTreeCurve::<i64, LinearInterpolator>::new();
    sorted.set(1, 100);
    sorted.set(3, 300);
    sorted.set(6, 600);
    let mut shuffled = BTreeCurve::<i64, LinearInterpolator>::new();
    shuffled.set(6, 600);
    shuffled.set(1, 100);
    shuffled.set(3, 300);
    for q in 0..8 {
        assert_eq!(sorted.value_at(&q), shuffled.value_at(&q));
    }
}

#[test]
fn linear_rounds_to_nearest() {
    let mut c = BTreeCurve::<i64, LinearInterpolator>::new();
    c.set(0, 0);
    c.set(3, 10);
    c.set(5, 11);
    assert_eq!(c.value_at(&1), Ok(3));
    assert_eq!(c.value_at(&2), Ok(7));
    assert_eq!(c.value_at(&4), Ok(11));
}

#[test]
fn linear_rounds_halves_away_from_the_first_value() {
    let mut up = BTreeCurve::<i64, LinearInterpolator>::new();
    up.set(0, 0);
    up.set(2, 1);
    assert_eq!(up.value_at(&1), Ok(1));
    let mut down = BTreeCurve::<i64, LinearInterpolator>::new();
    down.set(0, 0);
    down.set(2, -1);
    assert_eq!(down.value_at(&1), Ok(-1));
}

#[test]
fn linear_descending_values() {
    let mut c = BTreeCurve::<i64, LinearInterpolator>::new();
    c.set(0, 10);
    c.set(3, 0);
    assert_eq!(c.value_at(&1), Ok(7));
    assert_eq!(c.value_at(&2), Ok(3));
}

#[test]
fn linear_at_the_extremes_does_not_overflow() {
    let mut c = BTreeCurve::<i64, LinearInterpolator>::new();
    c.set(i64::MIN, i64::MIN);
    c.set(i64::MAX, i64::MAX);
    assert_eq!(c.value_at(&0), Ok(0));
    assert_eq!(c.value_at(&i64::MIN), Ok(i64::MIN));
    assert_eq!(c.value_at(&(i64::MAX - 1)), Ok(i64::MAX - 1));
}

#[test]
fn hold_keeps_the_earlier_value_on_vectors() {
    let mut c = BTreeCurve::<Vector, HoldInterpolator>::new();
    c.set(10, vector(1, 2, 3));
    c.set(20, vector(-4, -5, -6));
    assert_eq!(c.value_at(&10), Ok(vector(1, 2, 3)));
    assert_eq!(c.value_at(&19), Ok(vector(1, 2, 3)));
    assert_eq!(c.value_at(&20), Ok(vector(-4, -5, -6)));
}

#[test]
fn linear_vector_components_blend_separately() {
    let mut c = BTreeCurve::<Vector, LinearInterpolator>::new();
    c.set(0, vector(0, 10, -10));
    c.set(4, vector(4, 0, 10));
    assert_eq!(c.value_at(&1), Ok(vector(1, 7, -5)));
    assert_eq!(c.value_at(&3), Ok(vector(3, 2, 5)));
}

#[test]
fn vectors_add_componentwise() {
    let a = vector(1, 20, 300);
    let b = vector(-4, 5, 60);
    assert_eq!(a.add(b), vector(-3, 25, 360));
}

#[test]
fn bracket_finds_the_surrounding_keyframes() {
    let mut c = BTreeCurve::<i64, LinearInterpolator>::new();
    assert!(matches!(c.bracket(0), Err(CurveError::Empty)));
    c.set(30, 3);
    c.set(10, 1);
    c.set(20, 2);
    match c.bracket(25) {
        Ok(Bracket::Between(pre, post)) => {
            assert_eq!((pre.position, pre.value), (20, 2));
            assert_eq!((post.position, post.value), (30, 3));
        }
        _ => panic!("expected a bracket around 25"),
    }
    assert!(matches!(c.bracket(10), Ok(Bracket::Exact(1))));
    assert!(matches!(c.bracket(9), Err(CurveError::OutOfRange)));
    assert!(matches!(c.bracket(31), Err(CurveError::OutOfRange)));
}
