use unpalm::percent::Percent;

fn percent(value: f32) -> Percent {
    Percent {
        bits: value.to_bits(),
    }
}

fn samples() -> Vec<f32> {
    let mut values = vec![
        0.0,
        -0.0,
        f32::MIN_POSITIVE,
        f32::from_bits(1),
        1.0e-20,
        0.5,
        1.0,
        64.0,
        99.999,
        100.0,
        f32::from_bits(100.0f32.to_bits() + 1),
        127.9,
        128.0,
        1.0e20,
        f32::MAX,
        f32::INFINITY,
        f32::NAN,
    ];
    for i in 0..values.len() {
        values.push(-values[i]);
    }
    for i in 0..4096u32 {
        values.push(f32::from_bits(i * 0x10_0000));
    }
    values
}

#[test]
fn range_is_that_of_the_number() {
    for v in samples() {
        assert_eq!(percent(v).is_in_range(), (0.0..=100.0).contains(&v));
    }
}

#[test]
fn sign_is_that_of_the_number() {
    for v in samples() {
        assert_eq!(percent(v).is_positive(), v > 0.0);
    }
}

#[test]
fn range_ends() {
    assert!(percent(0.0).is_in_range());
    assert!(percent(100.0).is_in_range());
    assert!(!percent(-0.001).is_in_range());
    assert!(!percent(100.001).is_in_range());
    assert!(!percent(f32::NAN).is_in_range());
    assert!(!percent(0.0).is_positive());
}
