use std::cell::{Cell, RefCell};
use std::rc::Rc;

use monjolo::actuator::model::Actuator as ActuatorModel;
use monjolo::actuator::Actuator;
use monjolo::arithmetic::Arithmetic;
use monjolo::component::{ComponentDescriptor, Construct, Factory};
use monjolo::dynamic_model::{DynamicModel, FunctionModel};
use monjolo::numerical_method::NumericalMethod;
use monjolo::plant::{pace, turn, AssemblyError, Pace, Plant, PlantBinding, Tick, Turn};
use monjolo::runtime::{Launched, Runtime, Successor};
use monjolo::runtime_control::RuntimeControl;
use monjolo::sensor::model::{Ideal, Sensor};
use monjolo::sharing::shared;
use monjolo::simulation::{
    panic_message, report, wait, Launch, PanicPayload, ServiceEvent, Simulation, StartError,
};
use monjolo::snapshot::Snapshot;
use monjolo::state_registry::{CurrentState, EvaluationState, StateRegistry};

type S = Sensor<Ideal>;
type A = Rc<dyn Actuator>;
type M = Box<dyn DynamicModel>;
type Registry = StateRegistry<S, A, ()>;
type Component = Box<dyn Construct<S, A, (), M>>;
type Running = Plant<S, A, (), monjolo::dynamic_model::Composite<M>>;
type Started = (Running, PlantBinding<S>);

fn bits(value: f64) -> u64 {
    value.to_bits()
}

fn number(value: u64) -> f64 {
    f64::from_bits(value)
}

fn plus(a: u64, b: u64) -> u64 {
    bits(number(a) + number(b))
}

fn minus(a: u64, b: u64) -> u64 {
    bits(number(a) - number(b))
}

fn times(a: u64, b: u64) -> u64 {
    bits(number(a) * number(b))
}

fn over(a: u64, b: u64) -> u64 {
    bits(number(a) / number(b))
}

fn copies(sensor: S) -> (S, S) {
    (sensor, sensor)
}

fn factory<F>(build: F) -> Component
where
    F: Fn(Registry, &Snapshot) -> (Registry, Option<M>) + 'static,
{
    Box::new(Factory { build })
}

fn start(launch: Launch<Component>) -> Result<Started, StartError> {
    let nothing: Vec<ComponentDescriptor<Component>> = Vec::new();
    launch.start(Err("no file".to_string()), nothing, copies)
}

fn started(launch: Launch<Component>) -> Started {
    match start(launch) {
        Ok(started) => started,
        Err(_) => panic!("the plant did not come up"),
    }
}

fn tick(plant: &mut Running, commands: &[(&str, f64)], control: &mut RuntimeControl, dt: f64) -> Tick {
    let arithmetic = Arithmetic { plus, minus, times, over };
    let commands = commands.iter().map(|(name, value)| (name.to_string(), bits(*value))).collect();
    plant.tick(&commands, control, NumericalMethod::RK4, bits(dt), &arithmetic).0
}

fn counting_model(ticks: Rc<Cell<usize>>) -> M {
    Box::new(FunctionModel::new(
        "counting",
        Vec::new(),
        move |_current: &CurrentState, state: EvaluationState| {
            ticks.set(ticks.get() + 1);
            state
        },
    ))
}

fn decay_model(key: &'static str, observed: Rc<Cell<f64>>) -> Component {
    factory(move |mut registry: Registry, _config: &Snapshot| {
        let derivative = format!("{key}.derivative");
        let (offered, _) = registry.subscribe(&[key, derivative.as_str()], &[]);
        let (value, rate) = (offered[0], offered[1]);
        value.set(registry.evaluation_mut(), bits(100.0));
        let _ = Sensor::new(&mut registry, key, Ideal, copies);
        let observed = observed.clone();
        let model: M = Box::new(FunctionModel::new(
            "decay",
            vec![key.to_string()],
            move |_current: &CurrentState, mut state: EvaluationState| {
                let now = number(value.get(&state));
                rate.set(&mut state, bits(-now));
                observed.set(now);
                state
            },
        ));
        (registry, Some(model))
    })
}

#[test]
fn simulation_run_requires_model() {
    let simulation: Simulation<Component> = Simulation::new();
    assert!(simulation.run(|_launch| Some(ServiceEvent::Stopped)).is_err());
    let simulation: Simulation<Component> = Simulation::default();
    assert_eq!(
        simulation.spawn().err(),
        Some("spawn: nada configurado — chame set_model() e/ou set_config_path() antes".to_string())
    );
}

#[test]
fn a_running_simulation_ticks() {
    let ticks = Rc::new(Cell::new(0));
    let ticks_for_build = ticks.clone();

    let mut simulation = Simulation::new();
    simulation.set_model(factory(move |registry: Registry, _config: &Snapshot| {
        (registry, Some(counting_model(ticks_for_build.clone())))
    }));
    assert_eq!(ticks.get(), 0);

    let outcome = simulation.run(|launch| {
        let (mut plant, _) = started(launch);
        let mut control = RuntimeControl::new();
        assert_eq!(tick(&mut plant, &[], &mut control, 0.1), Tick::Advanced(Pace::Scaled(bits(1.0))));
        Some(ServiceEvent::Stopped)
    });
    assert_eq!(outcome, Ok(()));
    assert!(ticks.get() >= 1);
}

#[test]
fn simulation_run_integrates_declared_state_keys_via_rk4() {
    let observed = Rc::new(Cell::new(100.0));

    let mut simulation = Simulation::new();
    simulation.set_tick_interval(5_000_000);
    simulation.set_dt_hours(bits(0.1));
    simulation.set_model(decay_model("decay.value", observed.clone()));

    let outcome = simulation.run(|launch| {
        let dt = number(launch.dt_hours);
        let (mut plant, _) = started(launch);
        let mut control = RuntimeControl::new();
        for _ in 0..40 {
            tick(&mut plant, &[], &mut control, dt);
        }
        Some(ServiceEvent::Stopped)
    });
    assert_eq!(outcome, Ok(()));
    let value = observed.get();
    assert!(value < 90.0, "esperava decaimento perceptível de 100.0, ficou em {value}");
    assert!(value > 0.0, "dv/dt = -v nunca cruza zero, mas obteve {value}");
    assert!((value - 100.0 * (-4.0f64).exp()).abs() < 1e-4);
}

#[test]
fn a_panic_of_the_plant_becomes_an_error() {
    let mut simulation = Simulation::new();
    simulation.set_tick_interval(1_000_000);
    simulation.set_model(factory(|registry: Registry, _config: &Snapshot| {
        (registry, Some(counting_model(Rc::new(Cell::new(0)))))
    }));
    let result = simulation.run(|launch| {
        let (mut plant, _) = started(launch);
        let mut control = RuntimeControl::new();
        for _ in 0..2 {
            tick(&mut plant, &[], &mut control, 0.1);
        }
        let payload = PanicPayload::Text("PanickyModel: pane proposital no tick 2".to_string());
        Some(report(Err(payload)))
    });

    let message = result.expect_err("esperava Err depois do pânico da PanickyModel");
    assert!(message.contains("pane proposital"), "mensagem inesperada: {message}");
    assert_eq!(message, "plant: entrou em pânico: PanickyModel: pane proposital no tick 2");
}

#[test]
fn each_end_of_a_plant_has_its_outcome() {
    assert_eq!(wait(Some(ServiceEvent::Stopped)), Ok(()));
    assert_eq!(
        wait(Some(ServiceEvent::Failed("x".to_string()))),
        Err("plant: encerrou com erro fatal: x".to_string())
    );
    assert_eq!(
        wait(None),
        Err("wait: a plant thread não reportou nada — canal de lifecycle fechado inesperadamente".to_string())
    );
    assert_eq!(
        panic_message(PanicPayload::Other),
        "pânico sem mensagem legível (payload não é &str nem String)"
    );
    assert!(matches!(report(Ok(())), ServiceEvent::Stopped));
}

#[test]
fn the_settings_reach_the_plant() {
    let mut simulation: Simulation<Component> = Simulation::new();
    simulation.set_config_path("initial.toml");
    let launch = simulation.spawn().ok().unwrap();
    assert_eq!(launch.config_path, Some("initial.toml".to_string()));
    assert_eq!(launch.tick_interval, 500_000_000);
    assert_eq!(number(launch.dt_hours), 1.0 / 3600.0);
    assert_eq!(launch.numerical_method, NumericalMethod::RK4);

    let mut simulation: Simulation<Component> = Simulation::new();
    simulation.set_config_path("initial.toml");
    simulation.set_numerical_method(NumericalMethod::RK4);
    match start(simulation.spawn().ok().unwrap()) {
        Err(StartError::Config(message)) => assert!(message.contains("'initial.toml'")),
        _ => panic!("the file is not there"),
    }
}

#[test]
fn initial_values_reach_the_factory() {
    let mut simulation = Simulation::new();
    simulation.set_config_path("initial.toml");
    simulation.set_model(factory(|mut registry: Registry, config: &Snapshot| {
        let (offered, _) = registry.subscribe(&["level"], &[]);
        offered[0].set(registry.evaluation_mut(), config.get_or_zero("state.level"));
        (registry, None)
    }));
    let nothing: Vec<ComponentDescriptor<Component>> = Vec::new();
    let launch = simulation.spawn().ok().unwrap();
    match launch.start::<S, A, (), M, _, _>(Ok("[state]\nlevel = 7.5\n".to_string()), nothing, copies) {
        Ok((mut plant, _)) => {
            plant.registry.commit();
            assert_eq!(plant.registry.read("level"), Some(bits(7.5)));
        }
        Err(_) => panic!("the plant did not come up"),
    }
}

#[test]
fn a_state_without_a_derivative_is_an_error() {
    let mut simulation = Simulation::new();
    simulation.set_model(factory(|mut registry: Registry, _config: &Snapshot| {
        let _ = registry.subscribe(&["v"], &[]);
        let model: M = Box::new(FunctionModel::new(
            "no derivative",
            vec!["v".to_string()],
            |_current: &CurrentState, state: EvaluationState| state,
        ));
        (registry, Some(model))
    }));
    match start(simulation.spawn().ok().unwrap()) {
        Err(StartError::Assembly(AssemblyError::Registry(message))) => assert_eq!(
            message,
            "input 'v.derivative' declarado em subscribe() mas nenhum componente oferece esse slot"
        ),
        _ => panic!("the derivative is offered by nobody"),
    }
}

#[test]
fn an_actuator_that_publishes_nothing_has_no_mirror() {
    let mut simulation = Simulation::new();
    simulation.set_model(factory(|mut registry: Registry, _config: &Snapshot| {
        let cell: A = Rc::new(registry.add_command());
        registry.offer_actuator("bare", cell);
        (registry, None)
    }));
    match start(simulation.spawn().ok().unwrap()) {
        Err(StartError::Assembly(AssemblyError::Mirrors(message))) => {
            assert!(message.contains("'bare'"))
        }
        _ => panic!("there is nothing to mirror"),
    }
}

fn frozen_model() -> Component {
    factory(|mut registry: Registry, _config: &Snapshot| {
        let (offered, _) = registry.subscribe(&["test.frozen.value"], &[]);
        offered[0].set(registry.evaluation_mut(), bits(42.0));
        let _ = Sensor::new(&mut registry, "test.frozen.value", Ideal, copies);
        let model: M = Box::new(FunctionModel::new(
            "frozen",
            Vec::new(),
            |_current: &CurrentState, state: EvaluationState| state,
        ));
        (registry, Some(model))
    })
}

fn launched(model: Component, dt: f64) -> Launched<Rc<RefCell<PlantBinding<S>>>, Running> {
    let mut simulation = Simulation::new();
    simulation.set_dt_hours(bits(dt));
    simulation.set_model(model);
    match simulation.spawn() {
        Ok(launch) => match start(launch) {
            Ok((plant, binding)) => Launched::Ready(plant, Rc::new(RefCell::new(binding))),
            Err(_) => Launched::GoneEarly,
        },
        Err(message) => Launched::NotStarted(message),
    }
}

/// Takes the current plant out.
fn taken<B, R>(runtime: &mut Runtime<B, R>) -> Option<R> {
    let mut plant = None;
    let keep = |running| plant = running;
    let _: Successor<B, R> = runtime.begin_reset().replace(keep, |()| Launched::GoneEarly);
    plant
}

/// Puts a plant in the place of the current one.
fn reset<B, R>(runtime: &mut Runtime<B, R>, launched: Launched<B, R>) -> Result<(), String> {
    let next = runtime.begin_reset().replace(|_running| (), |()| launched);
    runtime.reset(next)
}

fn reading(list: Vec<(String, u64)>, name: &str) -> Option<f64> {
    list.into_iter().find(|(other, _)| other == name).map(|(_, value)| number(value))
}

#[test]
fn new_builds_and_exposes_the_first_plant() {
    let mut runtime = Runtime::new(launched(frozen_model(), 0.1)).ok().unwrap();
    let binding = runtime.binding().clone();
    assert!(binding.borrow().sensors.iter().any(|(name, _)| name == "test.frozen.value"));

    let mut plant = taken(&mut runtime).unwrap();
    tick(&mut plant, &[], &mut RuntimeControl::new(), 0.1);
    let readings = binding.borrow_mut().read_sensors(plant.registry.current());
    assert_eq!(reading(readings, "test.frozen.value"), Some(42.0));
}

#[test]
fn reset_replaces_the_plant_instance_instead_of_just_pausing_it() {
    let build = || {
        launched(decay_model("test.runtime.value", Rc::new(Cell::new(0.0))), 0.1)
    };
    let mut runtime = Runtime::new(build()).ok().unwrap();
    let mut plant = taken(&mut runtime).unwrap();
    for _ in 0..20 {
        tick(&mut plant, &[], &mut RuntimeControl::new(), 0.1);
    }
    let decayed = runtime.binding().borrow_mut().read_sensors(plant.registry.current());
    assert!(reading(decayed, "test.runtime.value").unwrap() < 90.0);

    assert_eq!(reset(&mut runtime, build()), Ok(()));

    let mut plant = taken(&mut runtime).unwrap();
    for _ in 0..2 {
        tick(&mut plant, &[], &mut RuntimeControl::new(), 0.1);
    }
    let fresh = runtime.binding().borrow_mut().read_sensors(plant.registry.current());
    assert!(reading(fresh, "test.runtime.value").unwrap() > 75.0);
}

fn actuator_model() -> Component {
    factory(|mut registry: Registry, _config: &Snapshot| {
        let slot: Rc<RefCell<Option<M>>> = Rc::new(RefCell::new(None));
        let keep = slot.clone();
        let _ = ActuatorModel::new(
            &mut registry,
            "test.runtime.actuator",
            |command: u64, _state: u64| command,
            move |actuator| -> (A, A) {
                let (one, other) = shared(actuator);
                let model: M = Box::new(one.clone());
                *keep.borrow_mut() = Some(model);
                (one, other)
            },
        );
        let model = slot.borrow_mut().take();
        (registry, model)
    })
}

#[test]
fn binding_after_reset_routes_actuator_writes_to_the_new_plant_thread() {
    let mut runtime = Runtime::new(launched(actuator_model(), 1.0)).ok().unwrap();
    let mut old = taken(&mut runtime).unwrap();
    tick(&mut old, &[], &mut RuntimeControl::new(), 1.0);
    assert_eq!(reset(&mut runtime, launched(actuator_model(), 1.0)), Ok(()));

    let binding = runtime.binding().clone();
    let mut plant = taken(&mut runtime).unwrap();
    let mut control = RuntimeControl::new();
    tick(&mut plant, &[("test.runtime.actuator", 42.0)], &mut control, 1.0);
    tick(&mut plant, &[], &mut control, 1.0);

    let mirrors = binding.borrow_mut().read_actuators(plant.registry.current());
    assert!(reading(mirrors.clone(), "test.runtime.actuator").unwrap() > 10.0);
    assert_eq!(reading(mirrors, "test.runtime.actuator"), Some(84.0));
}

#[test]
fn a_runtime_needs_a_plant_that_is_ready() {
    let gone: Launched<(), ()> = Launched::GoneEarly;
    assert_eq!(
        Runtime::new(gone).err(),
        Some("Runtime::new: a plant thread encerrou antes de sinalizar pronta".to_string())
    );
    let never: Launched<(), ()> = Launched::NotStarted("why".to_string());
    assert_eq!(Runtime::new(never).err(), Some("why".to_string()));
}

#[test]
fn a_reset_that_fails_keeps_the_binding() {
    let mut runtime = Runtime::new(Launched::Ready("plant", "binding")).ok().unwrap();
    assert_eq!(taken(&mut runtime), Some("plant"));
    assert_eq!(
        reset(&mut runtime, Launched::GoneEarly),
        Err("Runtime::reset: a nova plant thread encerrou antes de sinalizar pronta".to_string())
    );
    assert_eq!(*runtime.binding(), "binding");
    assert_eq!(taken(&mut runtime), None);
    assert_eq!(reset(&mut runtime, Launched::NotStarted("why".to_string())), Err("why".to_string()));
    assert_eq!(reset(&mut runtime, Launched::Ready("next", "other")), Ok(()));
    assert_eq!(*runtime.binding(), "other");
    assert!(!runtime.is_shut_down());
    assert_eq!(runtime.request_shutdown(), Some("next"));
    assert!(!runtime.is_shut_down());
    runtime.finish_shutdown();
    assert!(runtime.is_shut_down());
}

fn running_decay() -> Running {
    match launched(decay_model("v", Rc::new(Cell::new(0.0))), 0.1) {
        Launched::Ready(plant, _) => plant,
        _ => panic!("the plant did not come up"),
    }
}

#[test]
fn a_paused_plant_stands_still_and_takes_commands() {
    let mut plant = match launched(actuator_model(), 1.0) {
        Launched::Ready(plant, _) => plant,
        _ => panic!("the plant did not come up"),
    };
    let mut control = RuntimeControl::new();
    control.pause();
    assert_eq!(tick(&mut plant, &[("test.runtime.actuator", 3.0)], &mut control, 1.0), Tick::Paused);
    assert_eq!(plant.registry.current().generation(), 0);
    assert_eq!(number(control.t_h()), 0.0);
    control.resume();
    tick(&mut plant, &[], &mut control, 1.0);
    assert_eq!(plant.registry.read("test.runtime.actuator"), Some(bits(3.0)));
    assert_eq!(plant.registry.current().generation(), 1);
    assert_eq!(number(control.t_h()), 1.0);
}

#[test]
fn a_request_to_stop_is_granted_while_paused() {
    let mut plant = running_decay();
    let mut control = RuntimeControl::new();
    control.pause();
    control.request_reset();
    assert_eq!(tick(&mut plant, &[], &mut control, 0.1), Tick::Stopped);
    assert_eq!(tick(&mut plant, &[], &mut control, 0.1), Tick::Paused);
}

#[test]
fn the_speed_changes_the_pace_and_not_the_physics() {
    let (mut slow, mut fast) = (running_decay(), running_decay());
    let mut control = RuntimeControl::new();
    let mut hurried = RuntimeControl::new();
    hurried.set_speed(bits(0.0));
    assert_eq!(tick(&mut slow, &[], &mut control, 0.1), Tick::Advanced(Pace::Scaled(bits(1.0))));
    assert_eq!(tick(&mut fast, &[], &mut hurried, 0.1), Tick::Advanced(Pace::Immediately));
    assert_eq!(slow.registry.read("v"), fast.registry.read("v"));
    assert_eq!(control.t_h(), hurried.t_h());
    assert_eq!(pace(bits(4.0)), Pace::Scaled(bits(4.0)));
    assert_eq!(pace(bits(-1.0)), Pace::Immediately);
}

#[test]
fn what_is_committed_is_the_step_and_not_a_trial() {
    let mut plant = running_decay();
    tick(&mut plant, &[], &mut RuntimeControl::new(), 0.1);
    let k1: f64 = -100.0;
    let k2 = -(100.0 + 0.5 * 0.1 * k1);
    let k3 = -(100.0 + 0.5 * 0.1 * k2);
    let k4 = -(100.0 + 0.1 * k3);
    let expected = 100.0 + 0.1 / 6.0 * (k1 + 2.0 * k2 + 2.0 * k3 + k4);
    let reached = plant.registry.read("v").map(number).unwrap();
    assert!((reached - expected).abs() < 1e-12);
    assert_eq!(plant.registry.read("v.derivative").map(number), Some(-reached));
}

#[test]
fn commands_for_unknown_actuators_are_told_apart() {
    let mut plant = match launched(actuator_model(), 1.0) {
        Launched::Ready(plant, _) => plant,
        _ => panic!("the plant did not come up"),
    };
    let commands = vec![
        ("nobody".to_string(), bits(1.0)),
        ("test.runtime.actuator".to_string(), bits(2.0)),
    ];
    assert_eq!(plant.apply_commands(&commands), vec![false, true]);
}

#[test]
fn plants_that_start_alike_stay_alike() {
    let come_up = || match launched(actuator_model(), 0.1) {
        Launched::Ready(plant, _) => plant,
        _ => panic!("the plant did not come up"),
    };
    let (mut one, mut other) = (come_up(), come_up());
    let (mut control, mut other_control) = (RuntimeControl::new(), RuntimeControl::new());
    for round in 0..20 {
        let commands = [("test.runtime.actuator", f64::from(round) * 0.3)];
        assert_eq!(
            tick(&mut one, &commands, &mut control, 0.1),
            tick(&mut other, &commands, &mut other_control, 0.1)
        );
        let position = one.registry.read("test.runtime.actuator");
        assert!(position.is_some());
        assert_eq!(position, other.registry.read("test.runtime.actuator"));
        assert_eq!(control.t_h(), other_control.t_h());
    }
    assert_ne!(one.registry.read("test.runtime.actuator"), Some(bits(0.0)));
}

#[test]
fn the_control_reaches_the_plant() {
    let mut simulation: Simulation<Component> = Simulation::new();
    assert!(!simulation.runtime_control().is_paused());
    simulation.runtime_control().pause();
    simulation.runtime_control().set_speed(bits(2.0));
    simulation.set_model(decay_model("v", Rc::new(Cell::new(0.0))));
    let mut launch = simulation.spawn().ok().unwrap();
    let mut control = std::mem::take(&mut launch.runtime_control);
    assert!(control.is_paused());
    assert_eq!(number(control.speed()), 2.0);
    let (mut plant, _) = started(launch);
    assert_eq!(tick(&mut plant, &[], &mut control, 0.1), Tick::Paused);
    control.resume();
    assert_eq!(tick(&mut plant, &[], &mut control, 0.1), Tick::Advanced(Pace::Scaled(bits(2.0))));
}

#[test]
fn the_plant_runs_under_the_control_that_was_handed_out() {
    let control = Rc::new(RefCell::new(RuntimeControl::new()));
    let mut simulation: Simulation<Component, _> = Simulation::under(control);
    let handed_out = Rc::clone(simulation.runtime_control());
    simulation.set_model(decay_model("v", Rc::new(Cell::new(0.0))));
    simulation.set_dt_hours(bits(0.1));
    let launch = simulation.spawn().ok().unwrap();
    assert!(Rc::ptr_eq(&launch.runtime_control, &handed_out));
    let idle: Simulation<Component, _> = Simulation::under(handed_out);
    assert!(idle.spawn().is_err());
}

#[test]
fn a_plant_is_ended_before_the_next_one_is_launched() {
    let log = RefCell::new(Vec::new());
    let mut runtime = Runtime::new(Launched::Ready("old", 1)).ok().unwrap();
    let next = runtime.begin_reset().replace(
        |running| {
            log.borrow_mut().push(running);
            "ended"
        },
        |ended| {
            log.borrow_mut().push(Some(ended));
            Launched::Ready("new", 2)
        },
    );
    assert_eq!(*runtime.binding(), 1);
    assert_eq!(runtime.reset(next), Ok(()));
    assert_eq!(*log.borrow(), vec![Some("old"), Some("ended")]);
    assert_eq!(*runtime.binding(), 2);
    assert_eq!(taken(&mut runtime), Some("new"));
}

#[test]
fn a_plant_is_ticked_piece_by_piece() {
    let mut simulation = Simulation::new();
    simulation.set_model(actuator_model());
    let (mut whole, _) = started(simulation.spawn().ok().unwrap());
    let mut simulation = Simulation::new();
    simulation.set_model(actuator_model());
    let (mut pieces, _) = started(simulation.spawn().ok().unwrap());
    let (mut control, mut other) = (RuntimeControl::new(), RuntimeControl::new());
    let arithmetic = Arithmetic { plus, minus, times, over };
    let commands = vec![("test.runtime.actuator".to_string(), bits(3.0))];

    assert_eq!(
        tick(&mut whole, &[("test.runtime.actuator", 3.0)], &mut control, 0.5),
        Tick::Advanced(Pace::Scaled(bits(1.0)))
    );
    assert_eq!(pieces.apply_commands(&commands), vec![true]);
    assert_eq!(turn(&mut other), Turn::Run(Pace::Scaled(bits(1.0))));
    other.request_reset();
    pieces.step(NumericalMethod::RK4, bits(0.5), &arithmetic);
    other.advance_t_h(bits(0.5), &plus);
    assert_eq!(
        pieces.registry.read("test.runtime.actuator"),
        whole.registry.read("test.runtime.actuator")
    );
    assert_eq!(pieces.registry.current().generation(), whole.registry.current().generation());
    assert_eq!(other.t_h(), control.t_h());

    other.pause();
    assert_eq!(turn(&mut other), Turn::Stopped);
    assert_eq!(turn(&mut other), Turn::Paused);
    other.resume();
    other.set_speed(bits(0.0));
    assert_eq!(turn(&mut other), Turn::Run(Pace::Immediately));
}
