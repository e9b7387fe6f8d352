use netanvil::controller::composition::{CompositionStrategy, ConstraintEval, MinSelector};
use netanvil::controller::constraints::ConstraintClass;
use netanvil::num::Num;

fn n(x: f64) -> Num {
    Num { bits: x.to_bits() }
}

fn f(x: Num) -> f64 {
    f64::from_bits(x.bits)
}

fn eval(index: usize, rate: f64, severity: f64) -> ConstraintEval {
    ConstraintEval {
        constraint_index: index,
        desired_rate: n(rate),
        severity: n(severity),
        class: ConstraintClass::OperatingPoint,
    }
}

#[test]
fn min_selector_picks_lowest_rate() {
    let mut s = MinSelector;
    let evals = vec![
        eval(0, 500.0, 0.5),
        eval(1, 300.0, 1.2),
        eval(2, 800.0, 0.1),
    ];
    let r = s.compose(&evals, 0, n(1000.0));
    assert_eq!(f(r.rate), 300.0);
    assert_eq!(r.binding, Some(1));
}

#[test]
fn min_selector_empty_returns_default() {
    let mut s = MinSelector;
    let r = s.compose(&vec![], 0, n(1100.0));
    assert_eq!(f(r.rate), 1100.0);
    assert!(r.binding.is_none());
}

#[test]
fn min_selector_empty_returns_increase_rate_not_current() {
    let mut s = MinSelector;
    let r = s.compose(&vec![], 3, n(1100.0));
    assert_eq!(f(r.rate), 1100.0);
}

#[test]
fn min_selector_single_constraint() {
    let mut s = MinSelector;
    let evals = vec![eval(0, 750.0, 0.8)];
    let r = s.compose(&evals, 2, n(1100.0));
    assert_eq!(f(r.rate), 750.0);
    assert_eq!(r.binding, Some(0));
}

#[test]
fn min_selector_tie_picks_first() {
    let mut s = MinSelector;
    let evals = vec![eval(0, 500.0, 0.5), eval(1, 500.0, 1.0)];
    let r = s.compose(&evals, 0, n(1000.0));
    assert_eq!(f(r.rate), 500.0);
    assert_eq!(r.binding, Some(0));
}
