use std::cell::{Cell, RefCell};
use std::rc::Rc;

use monjolo::actuator::model::Actuator;
use monjolo::actuator::Actuator as _;
use monjolo::controller::model::Controller;
use monjolo::dynamic_model::{Composite, CompositeDynamicModel, DynamicModel, FunctionModel};
use monjolo::sensor::model::{Hysteresis, Ideal, Noisy, Sensor};
use monjolo::sensor::Sensor as _;
use monjolo::sharing::shared;
use monjolo::state_registry::{CurrentState, EvaluationState, StateRegistry};

fn bits(value: f64) -> u64 {
    value.to_bits()
}

fn share_sensor<B>(sensor: Sensor<B>) -> (Rc<RefCell<Sensor<B>>>, Rc<RefCell<Sensor<B>>>) {
    let one = Rc::new(RefCell::new(sensor));
    (Rc::clone(&one), one)
}

#[test]
fn derivative_is_real_not_a_stub() {
    let mut registry: StateRegistry<(), _, ()> = StateRegistry::new();
    let actuator = Actuator::new(
        &mut registry,
        "feed_a",
        |command: u64, state: u64| bits((f64::from_bits(command) - f64::from_bits(state)) / 2.0),
        shared,
    );
    let (_, needed) = registry.subscribe(&[], &["feed_a.derivative"]);
    registry.resolve().unwrap();

    actuator.write(registry.evaluation_mut(), bits(50.0));
    registry.evaluate(&actuator);
    assert_eq!(f64::from_bits(needed[0].get(registry.evaluation())), 25.0);
}

#[test]
fn dynamics_law_is_not_hardcoded() {
    let mut registry: StateRegistry<(), _, ()> = StateRegistry::new();
    let actuator = Actuator::new(
        &mut registry,
        "purge",
        |command: u64, state: u64| {
            let gap = f64::from_bits(command) - f64::from_bits(state);
            bits(gap.powi(2).copysign(gap))
        },
        shared,
    );
    let (_, needed) = registry.subscribe(&[], &["purge.derivative"]);
    registry.resolve().unwrap();

    actuator.write(registry.evaluation_mut(), bits(3.0));
    registry.evaluate(&actuator);
    assert_eq!(f64::from_bits(needed[0].get(registry.evaluation())), 9.0);
}

#[test]
fn model_new_registers_itself_under_its_own_key() {
    let mut registry: StateRegistry<(), _, ()> = StateRegistry::new();
    let actuator = Actuator::new(
        &mut registry,
        "purge",
        |command: u64, state: u64| bits(f64::from_bits(command) - f64::from_bits(state)),
        shared,
    );
    let found = registry.actuator("purge").expect("deveria estar no catálogo");
    assert!(Rc::ptr_eq(&actuator, found));

    let mut registry: StateRegistry<_, (), ()> = StateRegistry::new();
    let sensor = Sensor::new(&mut registry, "reactor.pressure", Ideal, share_sensor);
    let found = registry.sensor("reactor.pressure").expect("deveria estar no catálogo");
    assert!(Rc::ptr_eq(&sensor, found));
}

#[test]
fn an_actuator_declares_its_state_and_rests_at_its_start() {
    let mut registry: StateRegistry<(), _, ()> = StateRegistry::new();
    let actuator = Actuator::starting_at(
        &mut registry,
        "valve",
        bits(7.0),
        |command: u64, state: u64| bits(f64::from_bits(command) - f64::from_bits(state)),
        shared,
    );
    let (_, needed) = registry.subscribe(&[], &["valve", "valve.derivative"]);
    registry.resolve().unwrap();
    assert_eq!(actuator.state_keys(), vec!["valve"]);
    registry.evaluate(&actuator);
    assert_eq!(needed[0].get(registry.evaluation()), bits(7.0));
    assert_eq!(needed[1].get(registry.evaluation()), bits(0.0));
}

#[test]
fn read_is_idempotent_within_the_same_generation() {
    let mut registry: StateRegistry<_, (), ()> = StateRegistry::new();
    let (offered, _) = registry.subscribe(&["reactor.temperature"], &[]);
    offered[0].set(registry.evaluation_mut(), bits(120.5));

    let calls = Rc::new(Cell::new(0));
    let counted = Rc::clone(&calls);
    let behavior = move |value: u64| {
        counted.set(counted.get() + 1);
        value
    };
    let sensor = Sensor::new(&mut registry, "reactor.temperature", behavior, share_sensor);

    registry.resolve().unwrap();
    registry.commit();

    assert_eq!(f64::from_bits(sensor.borrow_mut().read(registry.current())), 120.5);
    assert_eq!(f64::from_bits(sensor.borrow_mut().read(registry.current())), 120.5);
    assert_eq!(calls.get(), 1);

    offered[0].set(registry.evaluation_mut(), bits(121.0));
    registry.commit();

    assert_eq!(f64::from_bits(sensor.borrow_mut().read(registry.current())), 121.0);
    assert_eq!(calls.get(), 2);
}

#[test]
fn sensor_can_be_declared_before_its_key_is_offered() {
    let mut registry: StateRegistry<_, (), ()> = StateRegistry::new();

    let sensor = Sensor::new(&mut registry, "reactor.pressure", Ideal, share_sensor);

    let (offered, _) = registry.subscribe(&["reactor.pressure"], &[]);
    offered[0].set(registry.evaluation_mut(), bits(2705.0));

    registry.resolve().unwrap();
    registry.commit();

    assert_eq!(f64::from_bits(sensor.borrow_mut().read(registry.current())), 2705.0);
}

#[test]
fn sensor_is_send_and_sync() {
    fn assert_send_sync<T: Send + Sync>() {}
    assert_send_sync::<Sensor<Ideal>>();
}

#[test]
fn noise_is_added_unless_the_deviation_is_zero() {
    let mut registry: StateRegistry<_, (), ()> = StateRegistry::new();
    let (offered, _) = registry.subscribe(&["t"], &[]);
    offered[0].set(registry.evaluation_mut(), bits(10.0));
    let disturb =
        |value: u64, std_dev: u64| bits(f64::from_bits(value) + 2.0 * f64::from_bits(std_dev));
    let noisy = Sensor::new(&mut registry, "t", Noisy::new(bits(0.5), disturb), share_sensor);
    let quiet = Sensor::new(&mut registry, "t", Noisy::new(bits(0.0), disturb), share_sensor);
    registry.resolve().unwrap();
    registry.commit();
    assert_eq!(f64::from_bits(noisy.borrow_mut().read(registry.current())), 11.0);
    assert_eq!(f64::from_bits(quiet.borrow_mut().read(registry.current())), 10.0);
}

#[test]
fn hysteresis_holds_its_output_within_the_deadband() {
    let mut registry: StateRegistry<_, (), ()> = StateRegistry::new();
    let (offered, _) = registry.subscribe(&["t"], &[]);
    let near = |value: u64, last: u64, deadband: u64| {
        (f64::from_bits(value) - f64::from_bits(last)).abs() < f64::from_bits(deadband)
    };
    let sensor = Sensor::new(&mut registry, "t", Hysteresis::new(bits(1.0), near), share_sensor);
    registry.resolve().unwrap();
    let mut seen = Vec::new();
    for value in [5.0, 5.5, 6.0, 6.5, 4.9] {
        offered[0].set(registry.evaluation_mut(), bits(value));
        registry.commit();
        seen.push(f64::from_bits(sensor.borrow_mut().read(registry.current())));
    }
    assert_eq!(seen, vec![5.0, 5.0, 6.0, 6.0, 4.9]);
}

#[test]
fn resolves_named_dependencies_declared_before_they_are_offered() {
    struct DummySensor;
    impl DummySensor {
        fn read(&self) -> f64 {
            2705.0
        }
    }
    struct DummyActuator;

    let mut registry: StateRegistry<Rc<DummySensor>, Rc<DummyActuator>, Rc<Controller>> =
        StateRegistry::new();
    let controller = Controller::new(
        &mut registry,
        "reactor_pressure_control",
        &["reactor_pressure"],
        &["purge"],
        shared,
    );

    registry.offer_sensor("reactor_pressure", Rc::new(DummySensor));
    registry.offer_actuator("purge", Rc::new(DummyActuator));
    registry.resolve().unwrap();

    assert_eq!(controller.sensor(&registry, "reactor_pressure").unwrap().read(), 2705.0);
    assert!(controller.actuator(&registry, "purge").is_some());
    assert!(controller.sensor(&registry, "missing").is_none());
}

#[test]
fn new_registers_itself_under_name() {
    let mut registry: StateRegistry<(), (), Rc<Controller>> = StateRegistry::new();
    let controller =
        Controller::new(&mut registry, "reactor_pressure_control", &[], &[], shared);

    let found =
        registry.controller("reactor_pressure_control").expect("deveria estar no catálogo");
    assert!(Rc::ptr_eq(&controller, found));
}

#[test]
fn shared_handles_lead_to_one_instance() {
    let (one, other) = shared(Cell::new(1));
    one.set(2);
    assert_eq!(other.get(), 2);
    assert!(Rc::ptr_eq(&one, &other));
}

#[test]
fn children_are_evaluated_in_order() {
    let mut registry: StateRegistry<(), (), ()> = StateRegistry::new();
    let (offered, _) = registry.subscribe(&["a", "b"], &[]);
    let (a, b) = (offered[0], offered[1]);
    let first = FunctionModel::new(
        "first",
        vec!["a".to_string()],
        move |_current: &CurrentState, mut state: EvaluationState| {
            a.set(&mut state, bits(2.0));
            state
        },
    );
    let second = FunctionModel::new(
        "second",
        Vec::new(),
        move |_current: &CurrentState, mut state: EvaluationState| {
            let seen = f64::from_bits(a.get(&state));
            b.set(&mut state, bits(seen * 10.0));
            state
        },
    );
    let mut root: Composite<Box<dyn DynamicModel>> = Composite::new().named("root");
    root.add_dynamic(Box::new(first));
    root.add_dynamic(Box::new(second));
    registry.resolve().unwrap();
    registry.evaluate(&root);
    assert_eq!(b.get(registry.evaluation()), bits(20.0));
    assert_eq!(root.name(), "root");
    assert_eq!(root.models()[1].name(), "second");
    assert_eq!(root.state_keys(), vec!["a"]);
    assert_eq!(Composite::<Box<dyn DynamicModel>>::default().name(), "unnamed");
}
