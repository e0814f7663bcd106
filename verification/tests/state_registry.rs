use std::rc::Rc;

use monjolo::actuator::Actuator;
use monjolo::state_registry::{CommandCell, StateRegistry};

struct DummySensor;

impl DummySensor {
    fn read(&self) -> f64 {
        42.0
    }
}

struct DummyController;

type Registry = StateRegistry<Rc<DummySensor>, Rc<CommandCell>, Rc<DummyController>>;

fn bits(value: f64) -> u64 {
    value.to_bits()
}

#[test]
fn need_sensor_resolves_regardless_of_order_relative_to_offer() {
    let mut registry: Registry = StateRegistry::new();
    let handle = registry.need_sensor("reactor_pressure");
    registry.offer_sensor("reactor_pressure", Rc::new(DummySensor));
    registry.resolve().unwrap();
    assert_eq!(handle.sensor(&registry).read(), 42.0);
}

#[test]
fn two_need_sensor_calls_for_the_same_name_share_the_same_instance() {
    let mut registry: Registry = StateRegistry::new();
    let handle_a = registry.need_sensor("reactor_pressure");
    let handle_b = registry.need_sensor("reactor_pressure");
    registry.offer_sensor("reactor_pressure", Rc::new(DummySensor));
    registry.resolve().unwrap();
    assert!(Rc::ptr_eq(handle_a.sensor(&registry), handle_b.sensor(&registry)));
}

#[test]
fn resolve_errors_when_a_needed_sensor_was_never_offered() {
    let mut registry: Registry = StateRegistry::new();
    let handle = registry.need_sensor("missing");
    assert!(!registry.is_sensor_resolved(&handle));
    assert_eq!(
        registry.resolve(),
        Err("sensor 'missing' declarado em need_sensor() mas nenhum offer_sensor() com esse nome".to_string())
    );
    assert!(registry.resolve().is_err());
}

#[test]
fn need_actuator_resolves_regardless_of_order_relative_to_offer() {
    let mut registry: Registry = StateRegistry::new();
    let handle = registry.need_actuator("purge");
    let cell = registry.add_command();
    registry.offer_actuator("purge", Rc::new(cell));
    registry.resolve().unwrap();
    let actuator = Rc::clone(handle.actuator(&registry));
    actuator.write(registry.evaluation_mut(), bits(10.0));
    assert_eq!(cell.get(registry.evaluation()), bits(10.0));
}

#[test]
fn two_need_actuator_calls_for_the_same_name_share_the_same_instance() {
    let mut registry: Registry = StateRegistry::new();
    let handle_a = registry.need_actuator("purge");
    let handle_b = registry.need_actuator("purge");
    let cell = registry.add_command();
    registry.offer_actuator("purge", Rc::new(cell));
    registry.resolve().unwrap();
    assert!(Rc::ptr_eq(handle_a.actuator(&registry), handle_b.actuator(&registry)));
}

#[test]
fn resolve_errors_when_a_needed_actuator_was_never_offered() {
    let mut registry: Registry = StateRegistry::new();
    let _ = registry.need_actuator("missing");
    assert_eq!(
        registry.resolve(),
        Err("atuador 'missing' declarado em need_actuator() mas nenhum offer_actuator() com esse nome".to_string())
    );
}

#[test]
fn offer_controller_is_discoverable_by_name() {
    let mut registry: Registry = StateRegistry::new();
    registry.offer_controller("reactor_pressure_control", Rc::new(DummyController));
    assert!(registry.controller("reactor_pressure_control").is_some());
    assert_eq!(registry.controller_names(), vec!["reactor_pressure_control"]);
}

#[test]
fn a_need_and_an_offer_meet_in_either_order() {
    let mut registry: Registry = StateRegistry::new();
    let (_, early) = registry.subscribe(&[], &["reactor.level"]);
    assert!(!registry.evaluation().is_resolved(&early[0]));
    let (offered, _) = registry.subscribe(&["reactor.level"], &[]);
    let (_, late) = registry.subscribe(&[], &["reactor.level"]);
    registry.resolve().unwrap();
    offered[0].set(registry.evaluation_mut(), bits(3.5));
    assert_eq!(early[0].get(registry.evaluation()), bits(3.5));
    assert_eq!(late[0].get(registry.evaluation()), bits(3.5));
}

#[test]
fn a_missing_slot_is_named_in_the_message() {
    let mut registry: Registry = StateRegistry::new();
    let _ = registry.subscribe(&[], &["nobody.offers.this"]);
    assert_eq!(
        registry.resolve(),
        Err("input 'nobody.offers.this' declarado em subscribe() mas nenhum componente oferece esse slot".to_string())
    );
}

#[test]
fn a_missing_read_slot_is_named_in_the_message() {
    let mut registry: Registry = StateRegistry::new();
    let _ = registry.subscribe_read(&["nobody.offers.this"]);
    assert_eq!(
        registry.resolve(),
        Err("input 'nobody.offers.this' declarado em subscribe_read() mas nenhum componente oferece esse slot".to_string())
    );
}

#[test]
fn values_are_read_only_after_the_first_commit() {
    let mut registry: Registry = StateRegistry::new();
    let (offered, _) = registry.subscribe(&["reactor.level"], &[]);
    offered[0].set(registry.evaluation_mut(), bits(7.0));
    registry.resolve().unwrap();
    assert_eq!(registry.read("reactor.level"), None);
    registry.commit();
    assert_eq!(registry.read("reactor.level"), Some(bits(7.0)));
    assert_eq!(registry.read("unknown"), None);
}

#[test]
fn a_write_is_invisible_until_it_is_committed() {
    let mut registry: Registry = StateRegistry::new();
    let (offered, _) = registry.subscribe(&["a", "b"], &[]);
    let reader = registry.subscribe_read(&["b"])[0];
    registry.resolve().unwrap();
    registry.commit();
    offered[1].set(registry.evaluation_mut(), bits(2.0));
    assert_eq!(reader.get_versioned(registry.current()), (1, bits(0.0)));
    registry.commit();
    assert_eq!(reader.get_versioned(registry.current()), (2, bits(2.0)));
    assert_eq!(reader.get(registry.current()), bits(2.0));
    let slots = registry.snapshot();
    assert_eq!(slots.len(), 2);
    assert_eq!(slots[1].key, "b");
    assert_eq!(slots[1].value, bits(2.0));
}

#[test]
fn a_place_stays_when_the_key_is_offered_again() {
    let mut registry: Registry = StateRegistry::new();
    let (first, needed) = registry.subscribe(&["x"], &["x"]);
    registry.resolve().unwrap();
    let (second, again) = registry.subscribe(&["x"], &["x"]);
    registry.resolve().unwrap();
    first[0].set(registry.evaluation_mut(), bits(1.0));
    second[0].set(registry.evaluation_mut(), bits(2.0));
    assert_eq!(needed[0].get(registry.evaluation()), bits(1.0));
    assert_eq!(again[0].get(registry.evaluation()), bits(2.0));
}

#[test]
fn names_are_listed_once() {
    let mut registry: Registry = StateRegistry::new();
    registry.offer_sensor("p", Rc::new(DummySensor));
    registry.offer_sensor("t", Rc::new(DummySensor));
    registry.offer_sensor("p", Rc::new(DummySensor));
    let mut names = registry.sensor_names();
    names.sort();
    assert_eq!(names, vec!["p", "t"]);
    assert!(registry.sensor("p").is_some());
    assert!(registry.sensor("q").is_none());
}

#[test]
fn a_copy_of_the_confirmed_state_answers_like_the_state() {
    let mut registry: Registry = StateRegistry::new();
    let (offered, _) = registry.subscribe(&["x"], &[]);
    let reader = registry.subscribe_read(&["x"])[0];
    registry.resolve().unwrap();
    offered[0].set(registry.evaluation_mut(), bits(4.0));
    registry.commit();
    let copy = registry.current().duplicate();
    offered[0].set(registry.evaluation_mut(), bits(5.0));
    registry.commit();
    assert!(copy.is_resolved(&reader));
    assert_eq!(reader.get_versioned(&copy), (1, bits(4.0)));
    assert_eq!(reader.get_versioned(registry.current()), (2, bits(5.0)));
}
