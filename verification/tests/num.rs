use netanvil::decimal::{aligned, fixed_text, push_zero_padded, seconds_to_nanos};
use netanvil::num::{seconds, Num};

fn n(x: f64) -> Num {
    Num { bits: x.to_bits() }
}

fn f(x: Num) -> f64 {
    f64::from_bits(x.bits)
}

/// A small generator of bit patterns.
struct Patterns {
    state: u64,
}

impl Patterns {
    fn new() -> Self {
        Patterns { state: 0x9e37_79b9_7f4a_7c15 }
    }

    fn next(&mut self) -> u64 {
        self.state ^= self.state << 13;
        self.state ^= self.state >> 7;
        self.state ^= self.state << 17;
        self.state
    }

    /// A double of any kind; every other one of moderate size.
    fn double(&mut self) -> f64 {
        let bits = self.next();
        if bits & 1 == 0 {
            f64::from_bits(self.next())
        } else {
            let whole = (self.next() % 2_000_000) as f64 - 1_000_000.0;
            whole / (1.0 + (self.next() % 1000) as f64)
        }
    }
}

const EDGES: [f64; 14] = [
    0.0,
    -0.0,
    1.0,
    -1.0,
    f64::MIN_POSITIVE,
    5e-324,
    -5e-324,
    f64::MAX,
    f64::MIN,
    f64::INFINITY,
    f64::NEG_INFINITY,
    f64::NAN,
    f64::EPSILON,
    9007199254740993.0,
];

fn same(ours: Num, theirs: f64) -> bool {
    (f(ours).is_nan() && theirs.is_nan()) || ours.bits == theirs.to_bits()
}

fn check_pair(a: f64, b: f64) {
    assert!(same(n(a).plus(n(b)), a + b), "{a:e} + {b:e}");
    assert!(same(n(a).minus(n(b)), a - b), "{a:e} - {b:e}");
    assert!(same(n(a).times(n(b)), a * b), "{a:e} * {b:e}");
    assert!(same(n(a).over(n(b)), a / b), "{a:e} / {b:e}");
    assert_eq!(n(a).is_lt(n(b)), a < b, "{a:e} < {b:e}");
    assert_eq!(n(a).is_le(n(b)), a <= b, "{a:e} <= {b:e}");
    assert_eq!(n(a).is_same(n(b)), a == b, "{a:e} == {b:e}");
    assert!(f(n(a).max(n(b))) == a.max(b) || a.max(b).is_nan(), "max {a:e} {b:e}");
    assert!(f(n(a).min(n(b))) == a.min(b) || a.min(b).is_nan(), "min {a:e} {b:e}");
}

#[test]
fn arithmetic_agrees_with_the_processor() {
    for a in EDGES {
        for b in EDGES {
            check_pair(a, b);
        }
    }
    let mut p = Patterns::new();
    for _ in 0..20_000 {
        let a = p.double();
        let b = p.double();
        check_pair(a, b);
        check_pair(a, EDGES[(p.next() % 14) as usize]);
    }
}

#[test]
fn subnormal_results_are_rounded_once() {
    check_pair(f64::MIN_POSITIVE, 3.0);
    check_pair(5e-324, 2.0);
    check_pair(1.5e-308, 1.0000000000000002);
    check_pair(f64::MAX, 1.0000000000000002);
    check_pair(1e-200, 1e-200);
    check_pair(1e-160, 1e-160);
}

#[test]
fn whole_numbers_convert() {
    let mut p = Patterns::new();
    for x in [0, 1, 9007199254740992, 9007199254740993, u64::MAX, u64::MAX - 1024] {
        assert_eq!(Num::of(x).bits, (x as f64).to_bits());
    }
    for _ in 0..5_000 {
        let x = p.next();
        assert_eq!(Num::of(x).bits, (x as f64).to_bits());
        let d = p.double();
        assert_eq!(n(d).truncate(u64::MAX), d as u64, "{d:e}");
        assert_eq!(n(d).truncate(255), d as u8 as u64, "{d:e}");
        assert_eq!(n(d).ceil(u32::MAX as u64), d.ceil() as u32 as u64, "{d:e}");
    }
    for d in EDGES {
        assert_eq!(n(d).truncate(u64::MAX), d as u64, "{d:e}");
        assert_eq!(n(d).ceil(u64::MAX), d.ceil() as u64, "{d:e}");
    }
}

#[test]
fn signs_are_handled() {
    for d in EDGES {
        assert_eq!(n(d).is_nan(), d.is_nan());
        if !d.is_nan() {
            assert_eq!(n(d).negate().bits, (-d).to_bits());
            assert_eq!(n(d).abs().bits, d.abs().to_bits());
            assert_eq!(n(d).is_negative(), d.is_sign_negative());
        }
    }
    assert_eq!(f(n(7.5).clamp(n(1.0), n(5.0))), 5.0);
    assert_eq!(f(n(0.5).clamp(n(1.0), n(5.0))), 1.0);
    assert_eq!(f(n(2.5).clamp(n(1.0), n(5.0))), 2.5);
}

#[test]
fn spans_convert_to_seconds_and_back() {
    let mut p = Patterns::new();
    for _ in 0..5_000 {
        let nanos = p.next() % 10_000_000_000_000;
        let d = std::time::Duration::from_nanos(nanos);
        assert_eq!(seconds(nanos).bits, d.as_secs_f64().to_bits());
        let secs = (p.next() % 1_000_000_000) as f64 / 977.0;
        let expected = std::time::Duration::from_secs_f64(secs).as_nanos() as u64;
        assert_eq!(seconds_to_nanos(n(secs)), expected, "{secs}");
    }
    assert_eq!(seconds_to_nanos(n(0.1)), 100_000_000);
    assert_eq!(seconds_to_nanos(n(1e-10)), 0);
    assert_eq!(seconds_to_nanos(n(-1.0)), 0);
    assert_eq!(seconds_to_nanos(n(f64::NAN)), 0);
    assert_eq!(seconds_to_nanos(n(f64::INFINITY)), u64::MAX);
    assert_eq!(seconds_to_nanos(n(1e30)), u64::MAX);
}

#[test]
fn fixed_text_agrees_with_the_formatter() {
    let mut p = Patterns::new();
    for d in EDGES {
        assert_eq!(fixed_text(n(d), 0), format!("{:.0}", d));
        assert_eq!(fixed_text(n(d), 1), format!("{:.1}", d));
        assert_eq!(fixed_text(n(d), 2), format!("{:.2}", d));
        assert_eq!(fixed_text(n(d), 3), format!("{:.3}", d));
        assert_eq!(fixed_text(n(d), 4), format!("{:.4}", d));
        assert_eq!(fixed_text(n(d), 6), format!("{:.6}", d));
        assert_eq!(fixed_text(n(d), 9), format!("{:.9}", d));
    }
    for _ in 0..3_000 {
        let d = p.double();
        assert_eq!(fixed_text(n(d), 0), format!("{:.0}", d));
        assert_eq!(fixed_text(n(d), 1), format!("{:.1}", d));
        assert_eq!(fixed_text(n(d), 4), format!("{:.4}", d));
        assert_eq!(fixed_text(n(d), 9), format!("{:.9}", d));
    }
    for d in [0.5, 1.5, 2.5, 0.125, 0.25, 0.75, 1e22, 123456.789, 0.05, 0.15] {
        assert_eq!(fixed_text(n(d), 0), format!("{:.0}", d));
        assert_eq!(fixed_text(n(d), 1), format!("{:.1}", d));
        assert_eq!(fixed_text(n(d), 2), format!("{:.2}", d));
    }
}

#[test]
fn text_is_padded() {
    assert_eq!(aligned("7.5", 8), "     7.5");
    assert_eq!(aligned("12345", 3), "12345");
    let mut out = String::from("3m");
    push_zero_padded(&mut out, 5, 2);
    assert_eq!(out, "3m05");
}
