use std::cell::{Cell, RefCell};

use monjolo::arithmetic::Arithmetic;
use monjolo::numerical_method::integrator::{Field, Integrator};
use monjolo::numerical_method::interator::Interator;
use monjolo::numerical_method::rk4::RK4;

fn plus(a: u64, b: u64) -> u64 {
    (f64::from_bits(a) + f64::from_bits(b)).to_bits()
}

fn minus(a: u64, b: u64) -> u64 {
    (f64::from_bits(a) - f64::from_bits(b)).to_bits()
}

fn times(a: u64, b: u64) -> u64 {
    (f64::from_bits(a) * f64::from_bits(b)).to_bits()
}

fn over(a: u64, b: u64) -> u64 {
    (f64::from_bits(a) / f64::from_bits(b)).to_bits()
}

#[test]
fn integrates_exponential_growth_close_to_analytical_solution() {
    let rk4 = RK4;
    let arithmetic = Arithmetic { plus, minus, times, over };
    let mut growth = Field::new(1, |s: &Vec<u64>| vec![s[0]]);
    let mut state = vec![1.0f64.to_bits()];
    let dt = 0.01f64.to_bits();

    for _ in 0..100 {
        state = rk4.step(&state, dt, &mut growth, &arithmetic);
    }

    let expected = std::f64::consts::E;
    let reached = f64::from_bits(state[0]);
    assert!((reached - expected).abs() < 1e-6, "esperava ~{expected}, obteve {reached}");
}

#[test]
fn calls_dynamics_exactly_four_times_per_step() {
    let rk4 = RK4;
    let arithmetic = Arithmetic { plus, minus, times, over };
    let calls = Cell::new(0);
    let mut growth = Field::new(1, |s: &Vec<u64>| {
        calls.set(calls.get() + 1);
        vec![s[0]]
    });
    rk4.step(&vec![0.0f64.to_bits()], 1.0f64.to_bits(), &mut growth, &arithmetic);
    assert_eq!(calls.get(), 4);
}

#[test]
fn one_step_has_the_weights_of_runge_and_kutta() {
    let rk4 = RK4;
    let arithmetic = Arithmetic { plus, minus, times, over };
    let asked = RefCell::new(Vec::new());
    let mut growth = Field::new(1, |s: &Vec<u64>| {
        asked.borrow_mut().push(f64::from_bits(s[0]));
        vec![s[0]]
    });
    let next = rk4.step(&vec![1.0f64.to_bits()], 1.0f64.to_bits(), &mut growth, &arithmetic);
    assert_eq!(*asked.borrow(), vec![1.0, 1.5, 1.75, 2.75]);
    assert_eq!(f64::from_bits(next[0]), 1.0 + (1.0 / 6.0) * (1.0 + 2.0 * 1.5 + 2.0 * 1.75 + 2.75));
}

#[test]
fn what_stands_behind_the_derivatives_is_not_read() {
    let arithmetic = Arithmetic { plus, minus, times, over };
    let mut plain = Field::new(1, |s: &Vec<u64>| vec![s[0]]);
    let mut longer = Field::new(1, |s: &Vec<u64>| vec![s[0], f64::NAN.to_bits()]);
    let (state, dt) = (vec![1.0f64.to_bits()], 0.5f64.to_bits());
    assert_eq!(
        RK4.step(&state, dt, &mut longer, &arithmetic),
        RK4.step(&state, dt, &mut plain, &arithmetic)
    );
}

struct Anonymous;

impl Interator for Anonymous {}

#[test]
fn an_interator_without_a_name_is_unnamed() {
    assert_eq!(Anonymous.name(), "unnamed");
}

#[test]
fn arithmetic_hands_its_operands_on() {
    let arithmetic = Arithmetic { plus, minus, times, over };
    let (six, two) = (6.0f64.to_bits(), 2.0f64.to_bits());
    assert_eq!(f64::from_bits(arithmetic.sum(six, two)), 8.0);
    assert_eq!(f64::from_bits(arithmetic.difference(six, two)), 4.0);
    assert_eq!(f64::from_bits(arithmetic.product(six, two)), 12.0);
    assert_eq!(f64::from_bits(arithmetic.quotient(six, two)), 3.0);
}
