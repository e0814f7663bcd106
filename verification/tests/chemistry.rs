use monjolo::arithmetic::Arithmetic;
use monjolo::chemistry::{
    enthalpy_derivative, liquid_density, mixture_enthalpy, temperature_from_enthalpy, Coefficients,
};
use monjolo::double;

fn plus(a: u64, b: u64) -> u64 {
    (f64::from_bits(a) + f64::from_bits(b)).to_bits()
}

fn minus(a: u64, b: u64) -> u64 {
    (f64::from_bits(a) - f64::from_bits(b)).to_bits()
}

fn times(a: u64, b: u64) -> u64 {
    (f64::from_bits(a) * f64::from_bits(b)).to_bits()
}

fn over(a: u64, b: u64) -> u64 {
    (f64::from_bits(a) / f64::from_bits(b)).to_bits()
}

fn bits(value: f64) -> u64 {
    value.to_bits()
}

fn single_component_coefficients() -> Coefficients<1> {
    Coefficients {
        xmw: [bits(1.0)],
        avp: [bits(0.0)],
        bvp: [bits(0.0)],
        cvp: [bits(0.0)],
        ad: [bits(1.0)],
        bd: [bits(0.0)],
        cd: [bits(0.0)],
        ah: [bits(1.0e-6)],
        bh: [bits(0.0)],
        ch: [bits(0.0)],
        ag: [bits(0.0)],
        bg: [bits(0.0)],
        cg: [bits(0.0)],
        av: [bits(0.0)],
    }
}

fn two_component_coefficients() -> Coefficients<2> {
    Coefficients {
        xmw: [bits(2.0), bits(28.0)],
        avp: [bits(0.0), bits(0.0)],
        bvp: [bits(0.0), bits(0.0)],
        cvp: [bits(0.0), bits(0.0)],
        ad: [bits(23.3), bits(33.9)],
        bd: [bits(-0.07), bits(-0.0957)],
        cd: [bits(-0.0002), bits(-0.000152)],
        ah: [bits(0.1), bits(0.2)],
        bh: [bits(0.3), bits(0.4)],
        ch: [bits(0.5), bits(0.6)],
        ag: [bits(0.7), bits(0.8)],
        bg: [bits(0.9), bits(1.1)],
        cg: [bits(1.2), bits(1.3)],
        av: [bits(1.4), bits(1.5)],
    }
}

#[test]
fn mixture_enthalpy_matches_hand_computed_value_for_pure_liquid() {
    let arithmetic = Arithmetic { plus, minus, times, over };
    let constants = single_component_coefficients();
    let z = [bits(1.0)];
    assert_eq!(
        f64::from_bits(mixture_enthalpy(&z, bits(100.0), 0, &constants, &arithmetic)),
        100.0 * 1.0e-6 * 1.8
    );
}

#[test]
fn temperature_from_enthalpy_inverts_mixture_enthalpy() {
    let arithmetic = Arithmetic { plus, minus, times, over };
    let constants = single_component_coefficients();
    let z = [bits(1.0)];
    let target_temperature = 87.3;
    let target_enthalpy =
        mixture_enthalpy(&z, bits(target_temperature), 0, &constants, &arithmetic);

    let recovered = f64::from_bits(temperature_from_enthalpy(
        &z,
        bits(50.0),
        target_enthalpy,
        0,
        &constants,
        &arithmetic,
    ));

    assert!(
        (recovered - target_temperature).abs() < 1e-6,
        "esperava recuperar {target_temperature}, obteve {recovered}",
    );
}

#[test]
fn liquid_density_matches_hand_computed_value() {
    let arithmetic = Arithmetic { plus, minus, times, over };
    let constants = single_component_coefficients();
    let x = [bits(1.0)];
    assert_eq!(f64::from_bits(liquid_density(&x, bits(42.0), &constants, &arithmetic)), 1.0);
}

#[test]
fn enthalpy_of_a_vapour_counts_the_heat_of_vaporization() {
    let arithmetic = Arithmetic { plus, minus, times, over };
    let constants = two_component_coefficients();
    let z = [bits(0.25), bits(0.75)];
    let t = 40.0f64;
    let poly = |a: f64, b: f64, c: f64| t * (a + b * t / 2.0 + c * t * t / 3.0);
    let expected = 0.25 * 2.0 * (1.8 * poly(0.7, 0.9, 1.2) + 1.4)
        + 0.75 * 28.0 * (1.8 * poly(0.8, 1.1, 1.3) + 1.5);
    assert_eq!(
        f64::from_bits(mixture_enthalpy(&z, bits(t), 1, &constants, &arithmetic)),
        expected
    );
    assert_eq!(
        f64::from_bits(mixture_enthalpy(&z, bits(t), 2, &constants, &arithmetic)),
        expected - 3.57696e-6 * (t + 273.15)
    );
}

#[test]
fn enthalpy_derivative_follows_the_phase() {
    let arithmetic = Arithmetic { plus, minus, times, over };
    let constants = two_component_coefficients();
    let z = [bits(0.25), bits(0.75)];
    let t = 40.0f64;
    let slope = |a: f64, b: f64, c: f64| (a + b * t + c * t * t) * 1.8;
    let liquid = 0.25 * 2.0 * slope(0.1, 0.3, 0.5) + 0.75 * 28.0 * slope(0.2, 0.4, 0.6);
    let vapour = 0.25 * 2.0 * slope(0.7, 0.9, 1.2) + 0.75 * 28.0 * slope(0.8, 1.1, 1.3);
    let at = |ity: i32| {
        f64::from_bits(enthalpy_derivative(&z, bits(t), ity, &constants, &arithmetic))
    };
    assert_eq!(at(0), liquid);
    assert_eq!(at(1), vapour);
    assert_eq!(at(2), vapour - 3.57696e-6);
}

#[test]
fn density_of_a_mixture_is_one_over_its_volume() {
    let arithmetic = Arithmetic { plus, minus, times, over };
    let constants = two_component_coefficients();
    let x = [bits(0.5), bits(0.5)];
    let t = 30.0f64;
    let volume = 0.5 * 2.0 / (23.3 + (-0.07 + -0.0002 * t) * t)
        + 0.5 * 28.0 / (33.9 + (-0.0957 + -0.000152 * t) * t);
    assert_eq!(
        f64::from_bits(liquid_density(&x, bits(t), &constants, &arithmetic)),
        1.0 / volume
    );
}

#[test]
fn a_sum_of_volumes_begins_with_negative_zero() {
    let arithmetic = Arithmetic { plus, minus, times, over };
    let constants = single_component_coefficients();
    let density = liquid_density(&[bits(-0.0)], bits(42.0), &constants, &arithmetic);
    assert_eq!(f64::from_bits(density), f64::NEG_INFINITY);
}

#[test]
fn a_search_that_does_not_converge_gives_the_first_guess() {
    let arithmetic = Arithmetic { plus, minus, times, over };
    let mut constants = single_component_coefficients();
    constants.ah = [bits(0.0)];
    let z = [bits(1.0)];
    let found =
        temperature_from_enthalpy(&z, bits(50.0), bits(1.0), 0, &constants, &arithmetic);
    assert_eq!(f64::from_bits(found), 50.0);
}

#[test]
fn doubles_are_taken_apart_by_their_patterns() {
    assert_eq!(double::negate(bits(1.5)), bits(-1.5));
    assert_eq!(double::negate(bits(-1.5)), bits(1.5));
    assert_eq!(double::magnitude_of(bits(-2.0)), bits(2.0));
    assert_eq!(double::magnitude_of(bits(2.0)), bits(2.0));
    assert_eq!(f64::from_bits(double::SECOND_IN_HOURS), 1.0 / 3600.0);
    assert_eq!(f64::from_bits(double::SIX), 6.0);
    assert_eq!(f64::from_bits(double::HALF), 0.5);
    assert!(double::is_zero_or_less(bits(-0.0)));
    assert!(double::is_zero_or_less(bits(f64::NEG_INFINITY)));
    assert!(!double::is_zero_or_less(bits(f64::MIN_POSITIVE)));
    assert!(!double::is_zero_or_less(bits(f64::NAN)));
    assert_eq!(f64::from_bits(double::clamp_to_zero(bits(f64::NAN))), f64::NAN.max(0.0));
}

#[test]
fn integers_become_the_nearest_doubles() {
    for n in [0i64, 1, -1, 2, 3, 10, -4096, 9_007_199_254_740_993, i64::MAX, i64::MIN] {
        assert_eq!(double::from_integer(n), (n as f64).to_bits(), "{n}");
    }
}
