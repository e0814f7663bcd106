use std::cell::RefCell;
use std::rc::Rc;

use monjolo::actuator::model::Actuator as ActuatorModel;
use monjolo::actuator::Actuator;
use monjolo::component::{
    attach_discovered_components, ComponentDescriptor, ComponentKind, Construct, Factory, OfUnit,
};
use monjolo::controller::model::Controller;
use monjolo::declaration::announcing::{
    announce_actuator, announce_controller, announce_model, announce_sensor, announce_task,
};
use monjolo::declaration::arguments::{Argument, Attribute, Literal};
use monjolo::declaration::fields::{FieldDeclaration, FieldType};
use monjolo::declaration::model::{plan_model, ModelArgument, ModelDeclaration, ModelPlan};
use monjolo::declaration::parts::{
    plan_actuator, plan_controller, plan_sensor, ActuatorDeclaration, ControllerDeclaration, Mark,
    MarkedField, SensorDeclaration,
};
use monjolo::declaration::running::{
    build_model, ActuatorComponent, ControllerComponent, DeclaredModel, ModelComponent,
    SensorComponent, TaskComponent, TaskModel, UnitKeys,
};
use monjolo::declaration::signals::Signals;
use monjolo::declaration::tasks::{
    plan_tasks, ImplDeclaration, ImplItem, MethodDeclaration, TaskPlan,
};
use monjolo::dynamic_model::{Composite, DynamicModel, FunctionModel};
use monjolo::sensor::model::{Ideal, Sensor};
use monjolo::sensor::Sensor as _;
use monjolo::sharing::shared;
use monjolo::snapshot::Snapshot;
use monjolo::state_registry::{CurrentState, EvaluationState, StateRegistry};

trait Valve: Actuator + DynamicModel {}

impl<T: Actuator + DynamicModel> Valve for T {}

type S = Rc<RefCell<Sensor<Ideal>>>;
type A = Rc<dyn Valve>;
type C = Rc<Controller>;
type M = Box<dyn DynamicModel>;
type Registry = StateRegistry<S, A, C>;
type Component = Box<dyn Construct<S, A, C, M>>;
type Descriptor = ComponentDescriptor<Component>;

fn bits(value: f64) -> u64 {
    value.to_bits()
}

fn number(value: u64) -> f64 {
    f64::from_bits(value)
}

fn pair(name: &str, value: &str) -> Argument {
    Argument { name: name.to_string(), value: Literal::Text(value.to_string()) }
}

fn list(name: &str, values: &[&str]) -> Argument {
    Argument {
        name: name.to_string(),
        value: Literal::List(values.iter().map(|value| Some(value.to_string())).collect()),
    }
}

fn mark(name: &str, arguments: Vec<Argument>) -> Attribute {
    Attribute { name: name.to_string(), arguments: Ok(arguments) }
}

fn scalar(name: &str, attributes: Vec<Attribute>) -> FieldDeclaration {
    FieldDeclaration { name: name.to_string(), ty: FieldType::Double, attributes }
}

fn array(name: &str, length: usize, attributes: Vec<Attribute>) -> FieldDeclaration {
    FieldDeclaration {
        name: name.to_string(),
        ty: FieldType::Array { of_doubles: true, length: Ok(length) },
        attributes,
    }
}

fn model(name: &str, arguments: Vec<ModelArgument>, fields: Vec<FieldDeclaration>) -> ModelPlan {
    let declaration = ModelDeclaration {
        name: name.to_string(),
        arguments: Ok(arguments),
        fields: Some(fields),
    };
    match plan_model(&declaration) {
        Ok(plan) => plan,
        Err(message) => panic!("{message}"),
    }
}

fn with(descriptor: ComponentDescriptor<()>, construct: Component) -> Descriptor {
    ComponentDescriptor {
        name: descriptor.name,
        kind: descriptor.kind,
        after: descriptor.after,
        needs: descriptor.needs,
        offers: descriptor.offers,
        construct,
    }
}

fn present<F>(declared: DeclaredModel<F>) -> M
where
    F: Fn(&Signals, EvaluationState) -> EvaluationState + 'static,
{
    Box::new(declared)
}

fn present_task<F>(task: TaskModel<F>) -> M
where
    F: Fn(&Signals, EvaluationState, Vec<u64>) -> (EvaluationState, Vec<u64>) + 'static,
{
    Box::new(task)
}

/// A computation that gets the offered and the needed values, and gives new values for the offered
/// signals; of these, the settable ones are set.
fn over_values<F>(
    compute: F,
) -> impl Fn(&Signals, EvaluationState) -> EvaluationState + Copy + 'static
where
    F: Fn(Vec<u64>, Vec<u64>) -> Vec<u64> + Copy + 'static,
{
    move |signals: &Signals, mut state: EvaluationState| {
        let offered =
            (0..signals.offered.len()).map(|i| signals.read_offered(&state, i)).collect();
        let needed = (0..signals.needed.len()).map(|i| signals.read_needed(&state, i)).collect();
        for (i, value) in compute(offered, needed).into_iter().enumerate() {
            if signals.settable[i] {
                signals.set(&mut state, i, value);
            }
        }
        state
    }
}

fn live_model<F>(plan: ModelPlan, compute: F) -> Descriptor
where
    F: Fn(&Signals, EvaluationState) -> EvaluationState + Copy + 'static,
{
    let descriptor = announce_model(&plan, ());
    with(descriptor, Box::new(ModelComponent { plan, compute, present: present::<F> }))
}

fn announced_model<F>(plan: ModelPlan, compute: F) -> Descriptor
where
    F: Fn(Vec<u64>, Vec<u64>) -> Vec<u64> + Copy + 'static,
{
    live_model(plan, over_values(compute))
}

fn live_task<F>(plan: TaskPlan, unit: UnitKeys, compute: F) -> Descriptor
where
    F: Fn(&Signals, EvaluationState, Vec<u64>) -> (EvaluationState, Vec<u64>) + Copy + 'static,
{
    let descriptor = announce_task(&plan, ());
    let construct: Component =
        Box::new(TaskComponent { plan, unit, compute, present: present_task::<F> });
    with(descriptor, construct)
}

/// A task that gets what its unit offers and its parameters.
fn announced_task<F>(plan: TaskPlan, unit: UnitKeys, compute: F) -> Descriptor
where
    F: Fn(Vec<u64>, Vec<u64>) -> Vec<u64> + Copy + 'static,
{
    live_task(plan, unit, move |unit: &Signals, state: EvaluationState, given: Vec<u64>| {
        let own = (0..unit.offered.len()).map(|i| unit.read_offered(&state, i)).collect();
        let results = compute(own, given);
        (state, results)
    })
}

fn share_sensor(sensor: Sensor<Ideal>) -> (S, S) {
    let one = Rc::new(RefCell::new(sensor));
    (Rc::clone(&one), one)
}

fn share_valve<F: Fn(u64, u64) -> u64 + 'static>(actuator: ActuatorModel<F>) -> (A, A) {
    let (one, other) = shared(actuator);
    (one, other)
}

fn discovered_actuator() -> Descriptor {
    let declaration = ActuatorDeclaration {
        name: "DiscoveredActuator".to_string(),
        arguments: Ok(vec![pair("key", "test.discovered.position")]),
        fields: Some(vec![
            MarkedField {
                name: "command".to_string(),
                marks: vec![Mark {
                    name: "command".to_string(),
                    argument: Err("sem argumento".to_string()),
                }],
            },
            MarkedField {
                name: "position".to_string(),
                marks: vec![Mark {
                    name: "state".to_string(),
                    argument: Err("sem argumento".to_string()),
                }],
            },
        ]),
    };
    let plan = match plan_actuator(&declaration) {
        Ok(plan) => plan,
        Err(message) => panic!("{message}"),
    };
    assert_eq!(plan.command_field, "command");
    assert_eq!(plan.state_field, "position");
    let descriptor = announce_actuator(&plan, ());
    let dynamics = |command: u64, position: u64| bits(number(command) - number(position));
    let construct: Component = Box::new(ActuatorComponent {
        plan,
        dynamics,
        share: share_valve,
        present: |valve: A| -> M { Box::new(valve) },
    });
    with(descriptor, construct)
}

fn discovered_sensor() -> Descriptor {
    let declaration = SensorDeclaration {
        name: "DiscoveredSensor".to_string(),
        argument: Ok(pair("key", "test.discovered.position")),
        has_fields: false,
    };
    let plan = match plan_sensor(&declaration) {
        Ok(plan) => plan,
        Err(message) => panic!("{message}"),
    };
    let descriptor = announce_sensor(&plan, ());
    let construct: Component = Box::new(SensorComponent { plan, share: share_sensor });
    with(descriptor, construct)
}

type Loop = Rc<RefCell<Option<(S, A)>>>;

fn test_controller(loops: Loop) -> Descriptor {
    let key = || Ok(pair("key", "test.discovered.position"));
    let declaration = ControllerDeclaration {
        name: "TestController".to_string(),
        argument: Ok(pair("name", "test_controller")),
        fields: Some(vec![
            MarkedField {
                name: "reading".to_string(),
                marks: vec![Mark { name: "sensor".to_string(), argument: key() }],
            },
            MarkedField {
                name: "position".to_string(),
                marks: vec![Mark { name: "actuator".to_string(), argument: key() }],
            },
        ]),
    };
    let plan = match plan_controller(&declaration) {
        Ok(plan) => plan,
        Err(message) => panic!("{message}"),
    };
    let descriptor = announce_controller(&plan, ());
    let present = move |controller: C| -> M {
        let loops = loops.clone();
        Box::new(FunctionModel::new(
            "control",
            Vec::new(),
            move |current: &CurrentState, mut state: EvaluationState| {
                let _ = &controller;
                if let Some((reading, position)) = &*loops.borrow() {
                    let read = number(reading.borrow_mut().read(current));
                    position.write(&mut state, bits(read + 1.0));
                }
                state
            },
        ))
    };
    let construct: Component =
        Box::new(ControllerComponent { plan, share: shared::<Controller>, present });
    with(descriptor, construct)
}

fn attach(discovered: Vec<Descriptor>, root: &mut Composite<M>, registry: &mut Registry, config: &Snapshot) {
    if let Err(error) = attach_discovered_components(discovered, root, registry, config) {
        panic!("{}", error.message());
    }
}

#[test]
fn attach_discovered_components_finds_and_wires_a_real_macro_declared_actuator() {
    let mut registry: Registry = StateRegistry::new();
    let mut root: Composite<M> = Composite::new();
    let config = Snapshot::from_pairs(&[]);

    attach(vec![discovered_actuator()], &mut root, &mut registry, &config);
    registry.resolve().expect("todo input deveria ter provedor");

    assert!(root.state_keys().contains(&"test.discovered.position".to_string()));

    let found = Rc::clone(registry.actuator("test.discovered.position").expect("auto-registrado"));
    assert_eq!(Rc::strong_count(&found), 3);

    found.write(registry.evaluation_mut(), bits(10.0));
    let (_, needed) = registry.subscribe(&[], &["test.discovered.position.derivative"]);
    registry.resolve().unwrap();
    registry.evaluate(&root);
    assert_eq!(number(needed[0].get(registry.evaluation())), 10.0);
}

#[test]
fn attach_discovered_components_finds_and_wires_a_real_macro_declared_controller() {
    let mut registry: Registry = StateRegistry::new();
    let mut root: Composite<M> = Composite::new();
    let config = Snapshot::from_pairs(&[]);
    let loops: Loop = Rc::new(RefCell::new(None));

    attach(
        vec![test_controller(loops.clone()), discovered_sensor(), discovered_actuator()],
        &mut root,
        &mut registry,
        &config,
    );
    registry.resolve().expect("todo input deveria ter provedor");

    let found = Rc::clone(registry.controller("test_controller").expect("auto-registrado"));
    assert_eq!(Rc::strong_count(&found), 3);

    let sensor = Rc::clone(found.sensor(&registry, "test.discovered.position").unwrap());
    let actuator = Rc::clone(found.actuator(&registry, "test.discovered.position").unwrap());
    *loops.borrow_mut() = Some((sensor, actuator));
    registry.evaluate(&root);
    let (_, needed) = registry.subscribe(&[], &["test.discovered.position.derivative"]);
    registry.resolve().unwrap();
    registry.evaluate(&root);
    assert_eq!(number(needed[0].get(registry.evaluation())), 1.0);
}

fn discovered_dynamic_model() -> ModelPlan {
    model(
        "DiscoveredDynamicModel",
        Vec::new(),
        vec![
            scalar(
                "scalar",
                vec![
                    mark("state", Vec::new()),
                    mark("config", vec![pair("key", "test.dynamic.scalar")]),
                    mark("offer", vec![pair("key", "test.discovered.scalar")]),
                ],
            ),
            array(
                "array",
                3,
                vec![
                    mark("state", Vec::new()),
                    mark(
                        "config",
                        vec![
                            pair("prefix", "test.dynamic.array"),
                            list("components", &["a", "b", "c"]),
                        ],
                    ),
                    mark(
                        "offer",
                        vec![
                            pair("prefix", "test.discovered.array"),
                            list("components", &["a", "b", "c"]),
                        ],
                    ),
                ],
            ),
            scalar("output", vec![mark("offer", vec![pair("key", "test.discovered.output")])]),
            FieldDeclaration {
                name: "_marker".to_string(),
                ty: FieldType::Other,
                attributes: Vec::new(),
            },
        ],
    )
}

fn discovered_compute(offered: Vec<u64>, _needed: Vec<u64>) -> Vec<u64> {
    let mut values = offered;
    let sum: f64 = values[1..4].iter().map(|value| number(*value)).sum();
    values[4] = bits(number(values[0]) + sum);
    values
}

#[test]
fn attach_discovered_components_finds_and_wires_a_real_macro_declared_dynamic_model() {
    let mut registry: Registry = StateRegistry::new();
    let mut root: Composite<M> = Composite::new();
    let config = Snapshot::from_pairs(&[
        ("test.dynamic.scalar", bits(10.0)),
        ("test.dynamic.array.a", bits(1.0)),
        ("test.dynamic.array.b", bits(2.0)),
        ("test.dynamic.array.c", bits(3.0)),
    ]);

    attach(
        vec![announced_model(discovered_dynamic_model(), discovered_compute)],
        &mut root,
        &mut registry,
        &config,
    );
    registry.resolve().expect("todo input deveria ter provedor");

    let (_, needed) = registry.subscribe(
        &[],
        &[
            "test.discovered.scalar",
            "test.discovered.array.a",
            "test.discovered.array.c",
            "test.discovered.output",
        ],
    );
    registry.resolve().expect("chaves já ofertadas deveriam resolver de novo sem erro");

    registry.evaluate(&root);

    assert_eq!(number(needed[0].get(registry.evaluation())), 10.0);
    assert_eq!(number(needed[1].get(registry.evaluation())), 1.0);
    assert_eq!(number(needed[2].get(registry.evaluation())), 3.0);
    assert_eq!(number(needed[3].get(registry.evaluation())), 16.0);
}

#[test]
fn config_plus_offer_field_declares_state_keys_and_its_derivative_can_be_owned_elsewhere() {
    let mut registry: Registry = StateRegistry::new();
    let config = Snapshot::from_pairs(&[("test.dynamic.scalar", bits(5.0))]);
    let plan = discovered_dynamic_model();
    let declared = build_model(&plan, over_values(discovered_compute), &mut registry, &config);

    assert_eq!(
        declared.state_keys(),
        vec![
            "test.discovered.scalar",
            "test.discovered.array.a",
            "test.discovered.array.b",
            "test.discovered.array.c",
        ],
    );

    let derivative_owner = model(
        "DerivativeOwner",
        Vec::new(),
        vec![
            scalar(
                "scalar_derivative",
                vec![mark("offer", vec![pair("key", "test.discovered.scalar.derivative")])],
            ),
            array(
                "array_derivative",
                3,
                vec![mark(
                    "offer",
                    vec![
                        pair("prefix", "test.discovered.array"),
                        list("components", &["a.derivative", "b.derivative", "c.derivative"]),
                    ],
                )],
            ),
        ],
    );
    let owner = build_model(
        &derivative_owner,
        over_values(|_offered: Vec<u64>, _needed: Vec<u64>| {
            vec![bits(7.0), bits(1.0), bits(2.0), bits(3.0)]
        }),
        &mut registry,
        &config,
    );

    let (_, needed) = registry.subscribe(
        &[],
        &[
            "test.discovered.scalar.derivative",
            "test.discovered.array.a.derivative",
            "test.discovered.array.c.derivative",
            "test.discovered.scalar",
        ],
    );
    registry.resolve().expect("sem colisão");
    registry.evaluate(&owner);

    assert_eq!(number(needed[0].get(registry.evaluation())), 7.0);
    assert_eq!(number(needed[1].get(registry.evaluation())), 1.0);
    assert_eq!(number(needed[2].get(registry.evaluation())), 3.0);
    assert_eq!(number(needed[3].get(registry.evaluation())), 5.0);
}

#[test]
fn attach_discovered_components_orders_phase_a_by_after() {
    let mut registry: Registry = StateRegistry::new();
    let mut root: Composite<M> = Composite::new();
    let config = Snapshot::from_pairs(&[]);

    let upstream = model(
        "UpstreamA",
        Vec::new(),
        vec![scalar("output", vec![mark("offer", vec![pair("key", "test.order.a_output")])])],
    );
    let downstream = model(
        "DownstreamB",
        vec![ModelArgument::Pair(list("after", &["UpstreamA"]))],
        vec![
            scalar("a_output", vec![mark("need", vec![pair("key", "test.order.a_output")])]),
            scalar("output", vec![mark("offer", vec![pair("key", "test.order.b_output")])]),
        ],
    );
    attach(
        vec![
            announced_model(downstream, |_offered: Vec<u64>, needed: Vec<u64>| {
                vec![bits(number(needed[0]) + 1.0)]
            }),
            announced_model(upstream, |_offered: Vec<u64>, _needed: Vec<u64>| vec![bits(42.0)]),
        ],
        &mut root,
        &mut registry,
        &config,
    );
    registry.resolve().expect("todo input deveria ter provedor");

    let (_, needed) = registry.subscribe(&[], &["test.order.b_output"]);
    registry.resolve().expect("chave já ofertada deveria resolver de novo sem erro");

    registry.evaluate(&root);

    assert_eq!(number(needed[0].get(registry.evaluation())), 43.0);
}

fn single_task(owner: &str, method: MethodDeclaration) -> TaskPlan {
    let declaration = ImplDeclaration {
        has_arguments: false,
        for_trait: false,
        owner: Some(owner.to_string()),
        self_type: owner.to_string(),
        items: vec![ImplItem::Other, ImplItem::Method(method)],
    };
    match plan_tasks(&declaration) {
        Ok(planned) => {
            let mut planned: Vec<TaskPlan> = planned.into_iter().flatten().collect();
            assert_eq!(planned.len(), 1);
            planned.remove(0)
        }
        Err(message) => panic!("{message}"),
    }
}

#[test]
fn tasks_macro_wires_two_units_across_a_needs_offers_boundary_with_no_after_declared() {
    let mut registry: Registry = StateRegistry::new();
    let mut root: Composite<M> = Composite::new();
    let config = Snapshot::from_pairs(&[("test.task_unit.state.level", bits(10.0))]);

    let tasks = || vec![ModelArgument::Word("tasks".to_string())];
    let unit = model(
        "TaskDrivenUnit",
        tasks(),
        vec![scalar(
            "level",
            vec![
                mark("config", vec![pair("key", "test.task_unit.state.level")]),
                mark("offer", vec![pair("key", "test.task_unit.level")]),
            ],
        )],
    );
    assert!(unit.tasks);
    let downstream = model("DownstreamTaskUnit", tasks(), Vec::new());
    let doubled = single_task(
        "TaskDrivenUnit",
        MethodDeclaration {
            name: "doubled".to_string(),
            attributes: vec![mark("offer", vec![pair("key", "test.task_unit.doubled")])],
            parameters: 0,
        },
    );
    let tripled = single_task(
        "DownstreamTaskUnit",
        MethodDeclaration {
            name: "tripled".to_string(),
            attributes: vec![
                mark("need", vec![pair("key", "test.task_unit.doubled")]),
                mark("offer", vec![pair("key", "test.task_unit.tripled")]),
            ],
            parameters: 1,
        },
    );
    assert_eq!(doubled.after, "TaskDrivenUnit");
    attach(
        vec![
            announced_task(
                tripled,
                UnitKeys::of(&downstream),
                |_own: Vec<u64>, given: Vec<u64>| vec![bits(number(given[0]) * 1.5)],
            ),
            announced_task(
                doubled,
                UnitKeys::of(&unit),
                |own: Vec<u64>, _given: Vec<u64>| vec![bits(number(own[0]) * 2.0)],
            ),
            announced_model(downstream, |offered: Vec<u64>, _needed: Vec<u64>| offered),
            announced_model(unit, |offered: Vec<u64>, _needed: Vec<u64>| offered),
        ],
        &mut root,
        &mut registry,
        &config,
    );
    registry.resolve().expect("todo input deveria ter provedor");

    let (_, needed) =
        registry.subscribe(&[], &["test.task_unit.doubled", "test.task_unit.tripled"]);
    registry.resolve().expect("chaves já ofertadas deveriam resolver de novo sem erro");

    registry.evaluate(&root);

    assert_eq!(number(needed[0].get(registry.evaluation())), 20.0);
    assert_eq!(number(needed[1].get(registry.evaluation())), 30.0);
}

#[test]
fn need_supports_array_form() {
    let mut registry: Registry = StateRegistry::new();
    let mut root: Composite<M> = Composite::new();
    let config = Snapshot::from_pairs(&[]);

    let keys = || {
        vec![pair("prefix", "test.array_order.upstream"), list("components", &["a", "b", "c"])]
    };
    let upstream = model("UpstreamArray", Vec::new(), vec![array("values", 3, vec![mark("offer", keys())])]);
    let reader = model(
        "DownstreamArrayReader",
        vec![ModelArgument::Pair(list("after", &["UpstreamArray"]))],
        vec![
            array("upstream", 3, vec![mark("need", keys())]),
            scalar("sum", vec![mark("offer", vec![pair("key", "test.array_order.sum")])]),
        ],
    );
    attach(
        vec![
            announced_model(reader, |_offered: Vec<u64>, needed: Vec<u64>| {
                vec![bits(needed.iter().map(|value| number(*value)).sum())]
            }),
            announced_model(upstream, |_offered: Vec<u64>, _needed: Vec<u64>| {
                vec![bits(10.0), bits(20.0), bits(30.0)]
            }),
        ],
        &mut root,
        &mut registry,
        &config,
    );
    registry.resolve().expect("todo input deveria ter provedor");

    let (_, needed) = registry.subscribe(&[], &["test.array_order.sum"]);
    registry.resolve().expect("chave já ofertada deveria resolver de novo sem erro");

    registry.evaluate(&root);

    assert_eq!(number(needed[0].get(registry.evaluation())), 60.0);
}

#[test]
fn nothing_is_built_where_the_first_phase_has_no_order() {
    let mut registry: Registry = StateRegistry::new();
    let mut root: Composite<M> = Composite::new();
    let config = Snapshot::from_pairs(&[]);
    let first = model("First", vec![ModelArgument::Pair(list("after", &["Second"]))], Vec::new());
    let second = model("Second", vec![ModelArgument::Pair(list("after", &["First"]))], Vec::new());
    let outcome = attach_discovered_components(
        vec![
            discovered_actuator(),
            announced_model(first, |offered: Vec<u64>, _needed: Vec<u64>| offered),
            announced_model(second, |offered: Vec<u64>, _needed: Vec<u64>| offered),
        ],
        &mut root,
        &mut registry,
        &config,
    );
    assert!(outcome.is_err());
    assert!(registry.actuator("test.discovered.position").is_none());
    assert!(root.state_keys().is_empty());
}

#[test]
fn every_announced_component_is_built_once() {
    let mut registry: Registry = StateRegistry::new();
    let mut root: Composite<M> = Composite::new();
    let config = Snapshot::from_pairs(&[]);
    let built: Rc<RefCell<Vec<&'static str>>> = Rc::new(RefCell::new(Vec::new()));
    let component = |name: &'static str, kind, after: &[&str]| {
        let built = built.clone();
        let construct: Component = Box::new(Factory {
            build: move |registry: Registry, _config: &Snapshot| -> (Registry, Option<M>) {
                built.borrow_mut().push(name);
                (registry, None)
            },
        });
        ComponentDescriptor {
            name: name.to_string(),
            kind,
            after: after.iter().map(|name| name.to_string()).collect(),
            needs: Vec::new(),
            offers: Vec::new(),
            construct,
        }
    };
    let discovered = vec![
        component("controller", ComponentKind::Controller, &[]),
        component("second", ComponentKind::Dynamic, &["first"]),
        component("sensor", ComponentKind::Sensor, &[]),
        component("actuator", ComponentKind::Actuator, &[]),
        component("first", ComponentKind::Dynamic, &[]),
    ];
    attach(discovered, &mut root, &mut registry, &config);
    assert_eq!(*built.borrow(), vec!["sensor", "first", "second", "actuator", "controller"]);
}

fn lonely_task(unit: &str) -> Descriptor {
    let plan = single_task(
        unit,
        MethodDeclaration {
            name: "level".to_string(),
            attributes: vec![mark("offer", vec![pair("key", "test.lonely.level")])],
            parameters: 0,
        },
    );
    let nothing =
        UnitKeys { offers: Vec::new(), settable: Vec::new(), needs: Vec::new() };
    announced_task(plan, nothing, |_own: Vec<u64>, _given: Vec<u64>| vec![bits(1.0)])
}

#[test]
fn a_task_without_its_unit_is_not_built() {
    let mut registry: Registry = StateRegistry::new();
    let mut root: Composite<M> = Composite::new();
    let config = Snapshot::from_pairs(&[]);
    let other = model("Other", Vec::new(), Vec::new());
    let outcome = attach_discovered_components(
        vec![
            discovered_actuator(),
            announced_model(other, |offered: Vec<u64>, _needed: Vec<u64>| offered),
            lonely_task("Missing"),
        ],
        &mut root,
        &mut registry,
        &config,
    );
    assert_eq!(
        outcome.err().map(|error| error.message()),
        Some("'Missing' deveria já ter sido construída (offer_instance) antes de suas tarefas — `after` deveria garantir isso".to_string())
    );
    assert!(registry.actuator("test.discovered.position").is_none());
    assert!(root.state_keys().is_empty());
}

#[test]
fn a_component_of_a_unit_is_built_behind_it() {
    let mut registry: Registry = StateRegistry::new();
    let mut root: Composite<M> = Composite::new();
    let config = Snapshot::from_pairs(&[]);
    let built: Rc<RefCell<Vec<&'static str>>> = Rc::new(RefCell::new(Vec::new()));
    let factory = |name: &'static str| {
        let built = built.clone();
        Factory {
            build: move |registry: Registry, _config: &Snapshot| -> (Registry, Option<M>) {
                built.borrow_mut().push(name);
                (registry, None)
            },
        }
    };
    let describe = |name: &str, after: &[&str], construct: Component| ComponentDescriptor {
        name: name.to_string(),
        kind: ComponentKind::Dynamic,
        after: after.iter().map(|name| name.to_string()).collect(),
        needs: Vec::new(),
        offers: Vec::new(),
        construct,
    };
    let part = OfUnit { unit: "unit".to_string(), component: factory("part") };
    let discovered = vec![
        describe("part", &["unit"], Box::new(part)),
        describe("unit", &[], Box::new(factory("unit"))),
    ];
    attach(discovered, &mut root, &mut registry, &config);
    assert_eq!(*built.borrow(), vec!["unit", "part"]);
}

#[test]
fn a_declared_actuator_starts_at_its_configured_value() {
    let declaration = ActuatorDeclaration {
        name: "Configured".to_string(),
        arguments: Ok(vec![pair("key", "valve"), pair("config", "valve.start")]),
        fields: Some(vec![
            MarkedField {
                name: "command".to_string(),
                marks: vec![Mark { name: "command".to_string(), argument: Err(String::new()) }],
            },
            MarkedField {
                name: "position".to_string(),
                marks: vec![Mark { name: "state".to_string(), argument: Err(String::new()) }],
            },
        ]),
    };
    let plan = plan_actuator(&declaration).expect("both fields are marked");
    let descriptor = announce_actuator(&plan, ());
    let component = ActuatorComponent {
        plan,
        dynamics: |command: u64, state: u64| bits(number(command) - number(state)),
        share: share_valve,
        present: |valve: A| -> M { Box::new(valve) },
    };
    let mut registry: Registry = StateRegistry::new();
    let mut root: Composite<M> = Composite::new();
    let config = Snapshot::from_pairs(&[("valve.start", bits(40.0))]);
    attach(vec![with(descriptor, Box::new(component))], &mut root, &mut registry, &config);
    let (_, slots) = registry.subscribe(&[], &["valve", "valve.derivative"]);
    registry.resolve().unwrap();
    assert_eq!(root.state_keys(), vec!["valve"]);

    registry.evaluate(&root);
    assert_eq!(number(slots[0].get(registry.evaluation())), 40.0);
    assert_eq!(number(slots[1].get(registry.evaluation())), 0.0);

    let valve = Rc::clone(registry.actuator("valve").unwrap());
    valve.write(registry.evaluation_mut(), bits(100.0));
    registry.evaluate(&root);
    assert_eq!(number(slots[0].get(registry.evaluation())), 40.0);
    assert_eq!(number(slots[1].get(registry.evaluation())), 60.0);
}

#[test]
fn a_model_sees_at_once_what_it_sets() {
    let plan = model(
        "Echo",
        Vec::new(),
        vec![
            scalar("own", vec![mark("offer", vec![pair("key", "test.echo.value")])]),
            scalar("seen", vec![mark("offer", vec![pair("key", "test.echo.seen")])]),
            scalar("echo", vec![mark("need", vec![pair("key", "test.echo.value")])]),
        ],
    );
    let echo = live_model(plan, |signals: &Signals, mut state: EvaluationState| {
        assert_eq!(number(signals.read_needed(&state, 0)), 0.0);
        signals.set(&mut state, 0, bits(7.0));
        let seen = signals.read_needed(&state, 0);
        signals.set(&mut state, 1, seen);
        state
    });
    let mut registry: Registry = StateRegistry::new();
    let mut root: Composite<M> = Composite::new();
    attach(vec![echo], &mut root, &mut registry, &Snapshot::from_pairs(&[]));
    let (_, slots) = registry.subscribe(&[], &["test.echo.seen"]);
    registry.resolve().unwrap();
    registry.evaluate(&root);
    assert_eq!(number(slots[0].get(registry.evaluation())), 7.0);
}

#[test]
fn a_task_sets_signals_of_its_unit_and_reads_its_parameters_first() {
    let unit = model(
        "Tank",
        vec![ModelArgument::Word("tasks".to_string())],
        vec![scalar("level", vec![mark("offer", vec![pair("key", "test.tank.level")])])],
    );
    let plan = single_task(
        "Tank",
        MethodDeclaration {
            name: "fill".to_string(),
            attributes: vec![
                mark("need", vec![pair("key", "test.tank.level")]),
                mark("offer", vec![pair("key", "test.tank.before")]),
            ],
            parameters: 1,
        },
    );
    let fill = live_task(
        plan,
        UnitKeys::of(&unit),
        |unit: &Signals, mut state: EvaluationState, given: Vec<u64>| {
            unit.set(&mut state, 0, bits(number(given[0]) + 2.0));
            (state, given)
        },
    );
    let mut registry: Registry = StateRegistry::new();
    let mut root: Composite<M> = Composite::new();
    let rest = live_model(unit, |_signals: &Signals, state: EvaluationState| state);
    attach(vec![fill, rest], &mut root, &mut registry, &Snapshot::from_pairs(&[]));
    let (_, slots) = registry.subscribe(&[], &["test.tank.level", "test.tank.before"]);
    registry.resolve().unwrap();
    registry.evaluate(&root);
    registry.evaluate(&root);
    assert_eq!(number(slots[0].get(registry.evaluation())), 4.0);
    assert_eq!(number(slots[1].get(registry.evaluation())), 2.0);
}
