use monjolo::numerical_method::NumericalMethod;
use monjolo::runtime_control::RuntimeControl;
use monjolo::sensor::Sensor;
use monjolo::state_registry::StateRegistry;

fn plus(a: u64, b: u64) -> u64 {
    (f64::from_bits(a) + f64::from_bits(b)).to_bits()
}

#[test]
fn from_str_accepts_rk4_case_insensitively() {
    assert!(matches!("rk4".parse::<NumericalMethod>(), Ok(NumericalMethod::RK4)));
    assert!(matches!("RK4".parse::<NumericalMethod>(), Ok(NumericalMethod::RK4)));
    assert!(matches!("Rk4".parse::<NumericalMethod>(), Ok(NumericalMethod::RK4)));
}

#[test]
fn from_str_rejects_unknown_values() {
    assert!("euler".parse::<NumericalMethod>().is_err());
    assert_eq!(
        NumericalMethod::from_name("EULER"),
        Err("método numérico desconhecido: 'euler' (esperava \"rk4\")".to_string())
    );
}

#[test]
fn the_default_method_is_rk4() {
    assert_eq!(NumericalMethod::default(), NumericalMethod::RK4);
}

#[test]
fn starts_running_at_speed_1_and_t_h_zero() {
    let control = RuntimeControl::new();
    assert!(!control.is_paused());
    assert_eq!(f64::from_bits(control.speed()), 1.0);
    assert_eq!(f64::from_bits(control.t_h()), 0.0);
}

#[test]
fn pause_and_resume_toggle_is_paused() {
    let mut control = RuntimeControl::new();
    control.pause();
    assert!(control.is_paused());
    control.resume();
    assert!(!control.is_paused());
}

#[test]
fn negative_speed_clamps_to_zero() {
    let mut control = RuntimeControl::new();
    control.set_speed((-5.0f64).to_bits());
    assert_eq!(f64::from_bits(control.speed()), 0.0);
}

#[test]
fn positive_speed_is_kept() {
    let mut control = RuntimeControl::default();
    control.set_speed(2.5f64.to_bits());
    assert_eq!(f64::from_bits(control.speed()), 2.5);
}

#[test]
fn advance_t_h_accumulates() {
    let mut control = RuntimeControl::new();
    control.advance_t_h(0.1f64.to_bits(), &plus);
    control.advance_t_h(0.2f64.to_bits(), &plus);
    assert!((f64::from_bits(control.t_h()) - 0.3).abs() < 1e-12);
}

#[test]
fn reset_request_is_consumed_exactly_once() {
    let mut control = RuntimeControl::new();
    control.request_reset();
    assert!(control.take_reset_request());
    assert!(!control.take_reset_request());
}

#[test]
fn the_clock_is_read_as_a_sensor() {
    let mut control = RuntimeControl::new();
    control.advance_t_h(0.25f64.to_bits(), &plus);
    let registry: StateRegistry<(), (), ()> = StateRegistry::new();
    assert_eq!(f64::from_bits(control.read(registry.current())), 0.25);
}
