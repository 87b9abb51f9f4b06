use pi_watcher::binary64::{sort_ranked, Binary64};

fn number(x: f64) -> Binary64 {
    Binary64::from_bits(x.to_bits())
}

fn printed(x: f64) -> String {
    let mut s = String::new();
    number(x).push_rounded(&mut s);
    s
}

/// A small generator of test patterns.
struct Patterns(u64);

impl Patterns {
    fn next(&mut self) -> u64 {
        self.0 ^= self.0 << 13;
        self.0 ^= self.0 >> 7;
        self.0 ^= self.0 << 17;
        self.0
    }
}

fn samples() -> Vec<f64> {
    let mut all = vec![
        0.0,
        -0.0,
        0.5,
        1.5,
        2.5,
        0.49999999999999994,
        1e-320,
        -3.7,
        249.5,
        250.5,
        1e15 + 0.5,
        4503599627370496.5,
        9007199254740993.0,
        1e22,
        1.2345e300,
        f64::MAX,
        f64::MIN,
        f64::MIN_POSITIVE,
        f64::INFINITY,
        f64::NEG_INFINITY,
        f64::NAN,
        -f64::NAN,
    ];
    let mut p = Patterns(0x9e37_79b9_7f4a_7c15);
    for _ in 0..400 {
        all.push(f64::from_bits(p.next()));
        all.push((p.next() % 1_000_000) as f64 / 64.0);
    }
    all
}

#[test]
fn rounding_prints_like_the_hardware_number() {
    for x in samples() {
        assert_eq!(printed(x), format!("{x:.0}"), "{x:?}");
    }
    assert_eq!(printed(2.5), "2");
    assert_eq!(printed(3.5), "4");
    assert_eq!(printed(-0.2), "-0");
    assert_eq!(printed(1e22), "10000000000000000000000");
}

#[test]
fn comparisons_agree_with_the_hardware() {
    let all = samples();
    for &a in all.iter().take(120) {
        for &b in all.iter().take(120) {
            assert_eq!(number(a).ge(number(b)), a >= b, "{a:?} {b:?}");
            let least = number(a).min(number(b));
            let hardware = a.min(b);
            assert_eq!(least.is_nan(), hardware.is_nan(), "{a:?} {b:?}");
            if !hardware.is_nan() {
                assert!(f64::from_bits(least.to_bits()) == hardware, "{a:?} {b:?}");
            }
            assert_eq!(
                number(a).sort_key() < number(b).sort_key(),
                a.total_cmp(&b).is_lt(),
                "{a:?} {b:?}"
            );
        }
        assert_eq!(number(a).is_nan(), a.is_nan());
        assert_eq!(number(a).is_finite(), a.is_finite());
        assert_eq!(number(a).is_positive(), a > 0.0);
    }
}

#[test]
fn percentages_round_like_the_hardware() {
    for whole in 1u64..=260 {
        for part in 0..=whole {
            let expected = part as f64 / whole as f64 * 100.0;
            assert_eq!(Binary64::percent(part, whole).to_bits(), expected.to_bits(), "{part}/{whole}");
        }
    }
    let mut p = Patterns(7);
    for _ in 0..2000 {
        let whole = p.next() % 0x1f_ffff_ffff_ffff + 1;
        let part = p.next() % 0x20_0000_0000_0000;
        let expected = part as f64 / whole as f64 * 100.0;
        assert_eq!(Binary64::percent(part, whole).to_bits(), expected.to_bits(), "{part}/{whole}");
    }
    assert_eq!(Binary64::percent(1, 3).to_bits(), 33.33333333333333f64.to_bits());
    assert_eq!(Binary64::percent(10, 10).to_bits(), 100.0f64.to_bits());
}

#[test]
fn a_hundredfold_rounds_like_the_hardware() {
    for x in samples() {
        let expected = x * 100.0;
        let found = number(x).hundredfold();
        if expected.is_nan() {
            assert!(found.is_nan());
        } else {
            assert_eq!(found.to_bits(), expected.to_bits(), "{x:?}");
        }
    }
    for n in 0..2000u64 {
        // Subnormal numbers and the largest ones.
        for bits in [n * 0x1_2345_6789, 0x7fef_ffff_ffff_ffff - n * 0x1234_5678_9abc] {
            let x = f64::from_bits(bits);
            assert_eq!(number(x).hundredfold().to_bits(), (x * 100.0).to_bits(), "{x:?}");
        }
    }
    assert_eq!(number(0.995).hundredfold().to_bits(), 99.5f64.to_bits());
}

#[test]
fn sorting_follows_the_total_order() {
    let mut expected = samples();
    let sorted = sort_ranked(expected.iter().map(|&x| number(x)).collect());
    expected.sort_by(f64::total_cmp);
    let expected: Vec<u64> = expected.iter().map(|x| x.to_bits()).collect();
    let found: Vec<u64> = sorted.iter().map(|x| x.to_bits()).collect();
    assert_eq!(found, expected);
    assert!(sort_ranked(Vec::new()).is_empty());
}
