use engine_core::picking::closest;
use engine_core::Scalar;

fn num(x: f64) -> Scalar {
    Scalar::from_bits(x.to_bits())
}

#[test]
fn no_hit_gives_nothing() {
    let hits: Vec<(u8, Scalar)> = Vec::new();
    assert_eq!(closest(&hits), None);
}

#[test]
fn the_least_distance_wins() {
    let hits = vec![('a', num(3.0)), ('b', num(1.5)), ('c', num(2.0))];
    assert_eq!(closest(&hits), Some('b'));
    let hits = vec![('a', num(0.0)), ('b', num(1.5))];
    assert_eq!(closest(&hits), Some('a'));
    let hits = vec![('a', num(5.0)), ('b', num(4.0)), ('c', num(-1.0))];
    assert_eq!(closest(&hits), Some('c'));
}

#[test]
fn the_first_of_several_at_the_least_distance_wins() {
    let hits = vec![('a', num(2.0)), ('b', num(1.0)), ('c', num(1.0)), ('d', num(3.0))];
    assert_eq!(closest(&hits), Some('b'));
    let hits = vec![('a', num(0.0)), ('b', num(-0.0))];
    assert_eq!(closest(&hits), Some('a'));
}

#[test]
fn a_nan_is_closer_than_nothing() {
    let hits = vec![('a', num(2.0)), ('b', num(f64::NAN)), ('c', num(1.0))];
    assert_eq!(closest(&hits), Some('c'));
    let hits = vec![('a', num(f64::NAN)), ('b', num(1.0))];
    assert_eq!(closest(&hits), Some('a'));
}
