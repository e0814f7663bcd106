use monjolo::adapter::command_queue::CommandQueue;
use monjolo::adapter::opcua::{
    answer_call, answer_write, call_method, current_updates, full_url, list_updates,
    parse_endpoint, plan_nodes, write_node, Access, CallOutcome, ControlMethod, WriteStatus,
    APPLICATION_URI, NAMESPACE_URI,
};
use monjolo::adapter::snapshot_bus::SnapshotBus;
use monjolo::adapter::AdapterConfig;
use monjolo::runtime::{Launched, Runtime};
use monjolo::runtime_control::RuntimeControl;
use std::cell::RefCell;
use std::rc::Rc;

fn bits(value: f64) -> u64 {
    value.to_bits()
}

fn texts(list: &[&str]) -> Vec<String> {
    list.iter().map(|text| text.to_string()).collect()
}

#[test]
fn an_endpoint_is_taken_apart() {
    assert_eq!(
        parse_endpoint("opc.tcp://0.0.0.0:4840/tep/server/"),
        Ok(("0.0.0.0".to_string(), 4840, "/tep/server/".to_string()))
    );
    assert_eq!(
        parse_endpoint("opc.tcp://localhost:+080"),
        Ok(("localhost".to_string(), 80, "/".to_string()))
    );
    assert_eq!(
        parse_endpoint("opc.tcp://:65535/"),
        Ok(("".to_string(), 65535, "/".to_string()))
    );
}

#[test]
fn an_endpoint_of_another_scheme_is_refused() {
    assert_eq!(
        parse_endpoint("http://x:1/"),
        Err("endpoint 'http://x:1/' precisa começar com opc.tcp://".to_string())
    );
    assert!(parse_endpoint("").is_err());
}

#[test]
fn an_endpoint_without_a_port_is_refused() {
    assert_eq!(
        parse_endpoint("opc.tcp://host/a:1"),
        Err("endpoint 'opc.tcp://host/a:1' precisa de host:porta".to_string())
    );
}

#[test]
fn ports_are_read_as_the_standard_library_reads_them() {
    for port in ["0", "4840", "65535", "65536", "+1", "+", "-1", "", "12a", "１", "000070000", "99999999999999999999", "1:2"] {
        let endpoint = format!("opc.tcp://h:{port}/p");
        match (parse_endpoint(&endpoint), port.parse::<u16>()) {
            (Ok((_, read, _)), Ok(wanted)) => assert_eq!(read, wanted, "{port}"),
            (Err(message), Err(_)) => {
                assert_eq!(message, format!("porta inválida em '{endpoint}'"))
            }
            (read, wanted) => panic!("{port}: {read:?} and {wanted:?}"),
        }
    }
}

#[test]
fn an_address_is_read_back() {
    for endpoint in ["opc.tcp://h:1/", "opc.tcp://a.b:4840/tep/server/", "opc.tcp://h:65535"] {
        let (host, port, path) = parse_endpoint(endpoint).unwrap();
        let url = full_url(&host, port, &path);
        assert_eq!(parse_endpoint(&url), Ok((host, port, path)));
    }
    assert_eq!(full_url("0.0.0.0", 4840, "/tep/"), "opc.tcp://0.0.0.0:4840/tep/");
}

#[test]
fn the_nodes_are_those_of_the_plant() {
    let nodes = plan_nodes(&texts(&["p", "t"]), &texts(&["valve"]));
    let shown: Vec<(&str, Access)> =
        nodes.iter().map(|node| (node.name.as_str(), node.access)).collect();
    assert_eq!(
        shown,
        vec![
            ("p", Access::Read),
            ("t", Access::Read),
            ("valve", Access::ReadWrite),
            ("clock.t_h", Access::Read),
            ("control.pause", Access::Call(ControlMethod::Pause)),
            ("control.resume", Access::Call(ControlMethod::Resume)),
            ("control.set_speed", Access::Call(ControlMethod::SetSpeed)),
            ("control.reset", Access::Call(ControlMethod::Reset)),
            ("control.shutdown", Access::Call(ControlMethod::Shutdown)),
        ]
    );
    assert_ne!(NAMESPACE_URI, APPLICATION_URI);
}

#[test]
fn a_write_becomes_a_command() {
    let mut commands = CommandQueue::new();
    assert_eq!(write_node("valve", Some(bits(55.0)), &mut commands), WriteStatus::Good);
    assert_eq!(write_node("valve", None, &mut commands), WriteStatus::BadTypeMismatch);
    assert_eq!(commands.drain(), vec![("valve".to_string(), bits(55.0))]);
    assert_eq!(commands.drain(), vec![]);
}

#[test]
fn commands_come_out_in_the_order_in_which_they_were_written() {
    let mut commands = CommandQueue::new();
    commands.write("a", bits(1.0));
    commands.write("b", bits(2.0));
    commands.write("a", bits(3.0));
    assert_eq!(
        commands.drain(),
        vec![
            ("a".to_string(), bits(1.0)),
            ("b".to_string(), bits(2.0)),
            ("a".to_string(), bits(3.0)),
        ]
    );
}

#[test]
fn a_closed_queue_drops_commands_in_silence() {
    let mut commands = CommandQueue::new();
    commands.write("a", bits(1.0));
    commands.close();
    assert_eq!(write_node("a", Some(bits(2.0)), &mut commands), WriteStatus::Good);
    assert_eq!(commands.drain(), vec![]);
}

#[test]
fn methods_act_on_the_control() {
    let mut control = RuntimeControl::new();
    assert_eq!(call_method(ControlMethod::Pause, None, &mut control), CallOutcome::Done);
    assert!(control.is_paused());
    assert_eq!(call_method(ControlMethod::Resume, None, &mut control), CallOutcome::Done);
    assert!(!control.is_paused());
    assert_eq!(
        call_method(ControlMethod::SetSpeed, Some(bits(3.0)), &mut control),
        CallOutcome::Done
    );
    assert_eq!(control.speed(), bits(3.0));
    assert_eq!(
        call_method(ControlMethod::SetSpeed, None, &mut control),
        CallOutcome::BadInvalidArgument
    );
    assert_eq!(control.speed(), bits(3.0));
    assert_eq!(call_method(ControlMethod::Reset, None, &mut control), CallOutcome::Reset);
    assert_eq!(call_method(ControlMethod::Shutdown, None, &mut control), CallOutcome::Shutdown);
    assert!(!control.take_reset_request());
}

#[test]
fn a_reader_sees_the_readings_of_one_tick() {
    let mut bus = SnapshotBus::new();
    assert_eq!(bus.read("p"), None);
    bus.publish_all(&vec![("p".to_string(), bits(1.0)), ("t".to_string(), bits(2.0))]);
    bus.publish_all(&vec![("p".to_string(), bits(3.0))]);
    assert_eq!(bus.read("p"), Some(bits(3.0)));
    assert_eq!(bus.read("t"), Some(bits(2.0)));
    assert_eq!(bus.read("x"), None);
}

#[test]
fn updates_leave_out_what_the_plant_does_not_know() {
    let mut sensors = SnapshotBus::new();
    sensors.publish_all(&vec![("p".to_string(), bits(1.0))]);
    let mut mirrors = SnapshotBus::default();
    mirrors.publish_all(&vec![("valve".to_string(), bits(50.0))]);
    let updates =
        list_updates(&texts(&["p", "gone"]), &texts(&["valve"]), &sensors, &mirrors, bits(0.5));
    assert_eq!(
        updates,
        vec![
            ("p".to_string(), bits(1.0)),
            ("valve".to_string(), bits(50.0)),
            ("clock.t_h".to_string(), bits(0.5)),
        ]
    );
}

#[test]
fn an_adapter_is_configured_by_its_endpoint() {
    let config = AdapterConfig::OpcUa { endpoint: "opc.tcp://h:1/".to_string() };
    assert_eq!(format!("{config:?}"), "OpcUa { endpoint: \"opc.tcp://h:1/\" }");
}

/// What the outside holds of one plant.
struct Held {
    commands: CommandQueue,
    control: RuntimeControl,
    sensors: SnapshotBus,
    mirrors: SnapshotBus,
}

fn held(pressure: f64) -> Rc<RefCell<Held>> {
    let mut sensors = SnapshotBus::new();
    sensors.publish_all(&vec![("p".to_string(), bits(pressure))]);
    Rc::new(RefCell::new(Held {
        commands: CommandQueue::new(),
        control: RuntimeControl::new(),
        sensors,
        mirrors: SnapshotBus::new(),
    }))
}

fn write_valve(runtime: &Runtime<Rc<RefCell<Held>>, &str>, value: Option<u64>) -> WriteStatus {
    answer_write(
        runtime,
        "valve",
        value,
        |plant: &Rc<RefCell<Held>>, name: &str, value: Option<u64>| {
            write_node(name, value, &mut plant.borrow_mut().commands)
        },
    )
}

fn call(runtime: &Runtime<Rc<RefCell<Held>>, &str>, method: ControlMethod) -> CallOutcome {
    answer_call(
        runtime,
        method,
        None,
        |plant: &Rc<RefCell<Held>>, method: ControlMethod, argument: Option<u64>| {
            call_method(method, argument, &mut plant.borrow_mut().control)
        },
    )
}

fn pressure(runtime: &Runtime<Rc<RefCell<Held>>, &str>) -> u64 {
    let updates = current_updates(runtime, |plant: &Rc<RefCell<Held>>| {
        let plant = plant.borrow();
        list_updates(&texts(&["p"]), &texts(&[]), &plant.sensors, &plant.mirrors, 0)
    });
    updates[0].1
}

#[test]
fn requests_reach_the_plant_of_the_moment() {
    let (old, new) = (held(1.0), held(2.0));
    let mut runtime = Runtime::new(Launched::Ready("old", old.clone())).ok().unwrap();
    assert_eq!(write_valve(&runtime, Some(bits(10.0))), WriteStatus::Good);
    assert_eq!(pressure(&runtime), bits(1.0));

    let failed = runtime.begin_reset().replace(|_running| (), |()| Launched::GoneEarly);
    assert!(runtime.reset(failed).is_err());
    assert_eq!(write_valve(&runtime, Some(bits(20.0))), WriteStatus::Good);
    assert_eq!(pressure(&runtime), bits(1.0));

    let ready = Launched::Ready("new", new.clone());
    let next = runtime.begin_reset().replace(|_running| (), |()| ready);
    assert_eq!(runtime.reset(next), Ok(()));
    assert_eq!(write_valve(&runtime, Some(bits(30.0))), WriteStatus::Good);
    assert_eq!(write_valve(&runtime, None), WriteStatus::BadTypeMismatch);
    assert_eq!(call(&runtime, ControlMethod::Pause), CallOutcome::Done);
    assert_eq!(call(&runtime, ControlMethod::SetSpeed), CallOutcome::BadInvalidArgument);
    assert_eq!(pressure(&runtime), bits(2.0));

    assert_eq!(
        old.borrow_mut().commands.drain(),
        vec![("valve".to_string(), bits(10.0)), ("valve".to_string(), bits(20.0))]
    );
    assert_eq!(new.borrow_mut().commands.drain(), vec![("valve".to_string(), bits(30.0))]);
    assert!(!old.borrow().control.is_paused());
    assert!(new.borrow().control.is_paused());
}
