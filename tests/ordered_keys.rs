use pso::ordered::{bits_from_key, clamp, clamp_all, key_from_bits, INFINITY, NEG_INFINITY, ZERO};

fn key(x: f64) -> i64 {
    key_from_bits(x.to_bits())
}

#[test]
fn infinities_and_zero_have_their_keys() {
    assert_eq!(key(f64::INFINITY), INFINITY);
    assert_eq!(key(f64::NEG_INFINITY), NEG_INFINITY);
    assert_eq!(key(0.0), ZERO);
    assert_eq!(key(-0.0), ZERO);
}

#[test]
fn keys_order_as_the_numbers_do() {
    let xs = [f64::NEG_INFINITY, -1e300, -5.12, -1.5, -1e-300, 0.0, 1e-300, 0.5, 5.12, 1e300, f64::INFINITY];
    for i in 0..xs.len() {
        for j in 0..xs.len() {
            assert_eq!(key(xs[i]) <= key(xs[j]), xs[i] <= xs[j]);
            assert_eq!(key(xs[i]) < key(xs[j]), xs[i] < xs[j]);
        }
    }
}

#[test]
fn bits_come_back_from_keys() {
    for x in [-3.25f64, -1e-300, 0.0, 2.5, 1e300, f64::INFINITY, f64::NEG_INFINITY] {
        assert_eq!(f64::from_bits(bits_from_key(key(x))), x);
        assert_eq!(bits_from_key(key(x)), x.to_bits());
    }
    assert_eq!(bits_from_key(key(-0.0)), 0);
    assert_eq!(key_from_bits(1), 1);
    assert_eq!(key_from_bits(0x8000_0000_0000_0001), -2);
    assert_eq!(bits_from_key(-2), 0x8000_0000_0000_0001);
}

#[test]
fn clamp_pins_to_the_overshot_bound() {
    assert_eq!(clamp(5, 0, 3), 3);
    assert_eq!(clamp(-5, 0, 3), 0);
    assert_eq!(clamp(2, 0, 3), 2);
    assert_eq!(clamp(0, 0, 3), 0);
    assert_eq!(clamp(3, 0, 3), 3);
    assert_eq!(clamp(7, 7, 7), 7);
}

#[test]
fn clamp_all_clamps_each_dimension_into_its_bound() {
    let bounds = vec![(key(-5.12), key(5.12)), (key(0.0), key(1.0)), (key(-1.0), key(1.0))];
    let x = vec![key(6.0), key(-0.5), key(0.25)];
    let r = clamp_all(&x, &bounds);
    assert_eq!(r, vec![key(5.12), key(0.0), key(0.25)]);
}
