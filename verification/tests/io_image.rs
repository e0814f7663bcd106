use std::cell::RefCell;
use std::rc::Rc;

use monjolo::io_image::IoImage;
use monjolo::sensor::model::{Ideal, Sensor};
use monjolo::state_registry::StateRegistry;

fn bits(value: f64) -> u64 {
    value.to_bits()
}

fn copies(sensor: Sensor<Ideal>) -> (Sensor<Ideal>, Sensor<Ideal>) {
    (sensor, sensor)
}

#[test]
fn registers_sensor_and_exposes_read() {
    let mut registry: StateRegistry<Sensor<Ideal>, (), ()> = StateRegistry::new();
    let (offered, _) = registry.subscribe(&["reactor.temperature"], &[]);
    offered[0].set(registry.evaluation_mut(), bits(120.5));
    let sensor = Sensor::new(&mut registry, "reactor.temperature", Ideal, copies);
    registry.resolve().unwrap();
    registry.commit();

    let mut io: IoImage<Sensor<Ideal>, fn(u64)> = IoImage::new();
    io.register_sensor("sensors/reactor.temperature", sensor);

    assert_eq!(io.read("sensors/reactor.temperature", registry.current()), Some(bits(120.5)));
    assert_eq!(io.read("sensors/reactor.temperature", registry.current()), Some(bits(120.5)));
    assert_eq!(io.read("sensors/does.not.exist", registry.current()), None);
}

#[test]
fn registers_actuator_and_writes_command() {
    let received = Rc::new(RefCell::new(0.0));
    let received_clone = received.clone();
    let mut io: IoImage<Sensor<Ideal>, _> = IoImage::new();
    io.register_actuator("actuators/cooling_water.command", move |value: u64| {
        *received_clone.borrow_mut() = f64::from_bits(value);
    });

    io.write("actuators/cooling_water.command", bits(42.0)).unwrap();
    assert_eq!(*received.borrow(), 42.0);
    assert!(io.write("actuators/does.not.exist", bits(1.0)).is_err());
    assert_eq!(
        io.write("actuators/does.not.exist", bits(1.0)),
        Err("IoImage: sinal de escrita 'actuators/does.not.exist' não existe".to_string())
    );
}

#[test]
fn signals_lists_both_readable_and_writable() {
    let mut registry: StateRegistry<Sensor<Ideal>, (), ()> = StateRegistry::new();
    let (offered, _) = registry.subscribe(&["reactor.temperature"], &[]);
    offered[0].set(registry.evaluation_mut(), bits(1.0));
    let sensor = Sensor::new(&mut registry, "reactor.temperature", Ideal, copies);
    registry.resolve().unwrap();
    registry.commit();

    let mut io: IoImage<Sensor<Ideal>, fn(u64)> = IoImage::new();
    io.register_sensor("sensors/reactor.temperature", sensor);
    io.register_actuator("actuators/cooling_water.command", |_value: u64| {});

    let mut signals = io.signals();
    signals.sort();
    assert_eq!(signals, vec!["actuators/cooling_water.command", "sensors/reactor.temperature"]);
    assert_eq!(io.sensor_names(), vec!["sensors/reactor.temperature"]);
    assert_eq!(io.actuator_names(), vec!["actuators/cooling_water.command"]);
}

#[test]
fn a_name_that_is_registered_again_means_the_later_signal() {
    let log = Rc::new(RefCell::new(Vec::new()));
    let (one, two) = (log.clone(), log.clone());
    let mut io: IoImage<Sensor<Ideal>, Box<dyn Fn(u64)>> = IoImage::new();
    io.register_actuator("valve", Box::new(move |v: u64| one.borrow_mut().push(("one", v))));
    io.register_actuator("valve", Box::new(move |v: u64| two.borrow_mut().push(("two", v))));
    io.apply(&vec![
        ("valve".to_string(), bits(1.0)),
        ("nobody".to_string(), bits(2.0)),
        ("valve".to_string(), bits(3.0)),
    ]);
    assert_eq!(*log.borrow(), vec![("two", bits(1.0)), ("two", bits(3.0))]);
    assert_eq!(io.actuator_names(), vec!["valve"]);
}

#[test]
fn all_sensors_are_read_in_the_order_of_their_names() {
    let mut registry: StateRegistry<Sensor<Ideal>, (), ()> = StateRegistry::new();
    let (offered, _) = registry.subscribe(&["a", "b"], &[]);
    offered[0].set(registry.evaluation_mut(), bits(1.0));
    offered[1].set(registry.evaluation_mut(), bits(2.0));
    let a = Sensor::new(&mut registry, "a", Ideal, copies);
    let b = Sensor::new(&mut registry, "b", Ideal, copies);
    registry.resolve().unwrap();
    registry.commit();
    let mut io: IoImage<Sensor<Ideal>, fn(u64)> = IoImage::new();
    io.register_sensor("second", b);
    io.register_sensor("first", a);
    assert_eq!(
        io.readings(registry.current()),
        vec![("second".to_string(), bits(2.0)), ("first".to_string(), bits(1.0))]
    );
}
