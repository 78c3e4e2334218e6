use docrag::retrieve::DEFAULT_FILTER_BITS;
use docrag::score::{Score, INFINITY_BITS, SIGN_BIT};
use docrag::segment::{similar, MERGE_THRESHOLD_BITS};

fn score(x: f64) -> Score {
    Score::from_bits(x.to_bits())
}

fn samples() -> Vec<f64> {
    vec![
        f64::NAN,
        -f64::NAN,
        f64::NEG_INFINITY,
        f64::MIN,
        -1.0e300,
        -2.0,
        -1.0,
        -0.7,
        -0.5,
        -f64::MIN_POSITIVE,
        -5.0e-324,
        -0.0,
        0.0,
        5.0e-324,
        f64::MIN_POSITIVE,
        0.3,
        0.4,
        0.5,
        0.5000000000000001,
        0.6999999999999999,
        0.7,
        0.7000000000000001,
        0.75,
        0.8,
        1.0,
        2.0,
        1.0e300,
        f64::MAX,
        f64::INFINITY,
    ]
}

#[test]
fn constants_are_the_patterns_they_name() {
    assert_eq!(SIGN_BIT, (-0.0f64).to_bits());
    assert_eq!(INFINITY_BITS, f64::INFINITY.to_bits());
    assert_eq!(MERGE_THRESHOLD_BITS, 0.7f64.to_bits());
    assert_eq!(DEFAULT_FILTER_BITS, 0.5f64.to_bits());
}

#[test]
fn bits_round_trip() {
    for x in samples() {
        assert_eq!(score(x).to_bits(), x.to_bits());
    }
    assert_eq!(Score::zero().to_bits(), 0.0f64.to_bits());
}

#[test]
fn gt_is_the_comparison_of_doubles() {
    for a in samples() {
        for b in samples() {
            assert_eq!(score(a).gt(&score(b)), a > b, "{:?} > {:?}", a, b);
        }
    }
}

#[test]
fn nan_and_sign_are_told_apart() {
    for x in samples() {
        assert_eq!(score(x).nan(), x.is_nan(), "{:?}", x);
        assert_eq!(score(x).negative(), x < 0.0, "{:?}", x);
        assert_eq!(
            score(x).valid_distance(),
            !x.is_nan() && x >= 0.0,
            "{:?}",
            x
        );
    }
}

#[test]
fn ranking_puts_numbers_in_order_and_nan_last() {
    for a in samples() {
        for b in samples() {
            let expected = if a.is_nan() {
                false
            } else if b.is_nan() {
                true
            } else {
                a < b
            };
            assert_eq!(score(a).ranks_before(&score(b)), expected, "{:?} before {:?}", a, b);
        }
    }
}

#[test]
fn similar_means_above_seven_tenths() {
    assert!(similar(&score(0.8)));
    assert!(similar(&score(0.7000000000000001)));
    assert!(similar(&score(1.0)));
    assert!(!similar(&score(0.7)));
    assert!(!similar(&score(0.3)));
    assert!(!similar(&score(0.0)));
    assert!(!similar(&score(-0.9)));
    assert!(!similar(&score(f64::NAN)));
}

#[test]
fn single_precision_similarities_keep_their_verdict_when_widened() {
    let mut bits: u32 = 0.69f32.to_bits();
    let end: u32 = 0.71f32.to_bits();
    while bits <= end {
        let x = f32::from_bits(bits);
        assert_eq!(similar(&score(x as f64)), x > 0.7f32, "{:?}", x);
        bits += 1;
    }
}
