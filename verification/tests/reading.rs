use monjolo::declaration::model::FieldWiring;
use monjolo::declaration::reading;
use monjolo::declaration::reading::components::{actuator, controller, sensor};
use monjolo::declaration::reading::tasks;
use monjolo::declaration::reading::{dynamic_model, read_arguments, read_attributes};
use monjolo::declaration::source::AttributeParts;
use monjolo::declaration::tasks::{Run, TaskPlan};

fn refusal<T>(outcome: Result<T, String>) -> String {
    match outcome {
        Ok(_) => panic!("expected a refusal"),
        Err(message) => message,
    }
}

fn accepted<T>(outcome: Result<T, String>) -> T {
    match outcome {
        Ok(value) => value,
        Err(message) => panic!("{message}"),
    }
}

const TANK: &str = r#"
    /// A tank.
    pub struct Tank {
        #[offer(key = "tank.level")]
        #[config(key = "tank.start")]
        #[state]
        pub level: f64,
        #[offer(prefix = "tank.out", components = ["A", "B"])]
        outflow: [f64; 2],
        #[need(prefix = "feed", components = ["A", "B",])]
        inflow: [f64; 0x2],
        #[doc = "not a signal"]
        label: String,
    }
"#;

#[test]
fn a_model_is_read_from_its_source() {
    let plan = accepted(dynamic_model(r#"after = ["Feed", "Pump"]"#, TANK));
    assert_eq!(plan.name, "Tank");
    assert_eq!(plan.after, vec!["Feed", "Pump"]);
    assert!(!plan.tasks);
    assert_eq!(plan.offers, vec!["tank.level", "tank.out.A", "tank.out.B"]);
    assert_eq!(plan.seeds, vec![Some("tank.start".to_string()), None, None]);
    assert_eq!(plan.settable, vec![false, true, true]);
    assert_eq!(plan.needs, vec!["feed.A", "feed.B"]);
    assert_eq!(plan.states, vec!["tank.level"]);
    let names: Vec<&str> = plan.fields.iter().map(|field| field.name.as_str()).collect();
    assert_eq!(names, vec!["level", "outflow", "inflow", "label"]);
    assert!(matches!(plan.fields[2].wiring, FieldWiring::Needed { start: 0, array: Some(2) }));
    assert!(matches!(plan.fields[3].wiring, FieldWiring::Plain));
    assert!(accepted(reading::dynamic_model::expand("tasks", TANK)).tasks);
    let both = accepted(dynamic_model(r#"after = ["Feed"], tasks,"#, TANK));
    assert!(both.tasks);
    assert_eq!(both.after, vec!["Feed"]);
}

#[test]
fn models_that_cannot_be_read_are_refused() {
    assert_eq!(refusal(dynamic_model("before = []", TANK)), "esperado `after`");
    assert_eq!(refusal(dynamic_model("after = [1]", TANK)), "esperada uma string literal");
    assert_eq!(
        refusal(dynamic_model("after = 1", TANK)),
        "esperado um array de strings, ex.: [\"a\", \"b\"]"
    );
    assert_eq!(
        refusal(dynamic_model("", "struct Tank(f64);")),
        "#[dynamic_model] só suporta struct com campos nomeados"
    );
    assert_eq!(
        refusal(dynamic_model("", "struct Tank { #[offer(key = \"k\")] level: f32 }")),
        "#[dynamic_model] só suporta campos `f64` ou `[f64; N]`"
    );
    assert_eq!(
        refusal(dynamic_model("", "struct Tank { #[offer(key = \"k\")] level: [f64; N] }")),
        "tamanho do array precisa ser um inteiro literal"
    );
    assert_eq!(
        refusal(dynamic_model("", "struct Tank { #[offer] level: f64 }")),
        "expected attribute arguments in parentheses: #[offer(...)]"
    );
    assert_eq!(refusal(dynamic_model("", "enum Tank {}")), "expected `struct`");
    for arguments in ["tasks(x)", "tasks()", "task", "a::tasks", "after = [], tasks(x)"] {
        assert_eq!(refusal(dynamic_model(arguments, TANK)), "expected `=`");
    }
    assert_eq!(refusal(dynamic_model("after =", "enum Tank {}")), "unexpected end of input, expected an expression");
}

#[test]
fn the_arguments_are_looked_at_before_the_item() {
    let broken = "enum Valve {}";
    assert_eq!(refusal(dynamic_model("x = []", broken)), "esperado `after`");
    assert_eq!(refusal(actuator("", broken)), "falta `key = \"...\"`");
    assert_eq!(refusal(sensor("name = \"n\"", broken)), "esperado `key = \"...\"`");
    assert_eq!(refusal(controller("key = \"k\"", broken)), "esperado `name = \"...\"`");
    assert_eq!(refusal(tasks::expand("x", broken)), "#[monjolo::tasks] não aceita argumentos");
    for outcome in [
        refusal(actuator("key = \"k\"", broken)),
        refusal(sensor("key = \"k\"", broken)),
        refusal(controller("name = \"n\"", broken)),
    ] {
        assert_eq!(outcome, "expected `struct`");
    }
    assert_eq!(refusal(tasks::expand("", broken)), "expected `impl`");
}

#[test]
fn an_actuator_is_read_from_its_source() {
    let plan = accepted(actuator(
        r#"key = "feed.d", config = "feed.start""#,
        "pub struct FeedD { #[command] command: f64, #[state] position: f64 }",
    ));
    assert_eq!(plan.name, "FeedD");
    assert_eq!(plan.args.key, "feed.d");
    assert_eq!(plan.args.config, Some("feed.start".to_string()));
    assert_eq!(plan.command_field, "command");
    assert_eq!(plan.state_field, "position");
    assert_eq!(
        refusal(actuator("key = \"k\"", "struct FeedD { #[command] command: f64 }")),
        "falta um campo marcado #[state]"
    );
    assert_eq!(
        refusal(actuator("key = \"k\"", "struct FeedD;")),
        "#[actuator] só suporta struct com campos nomeados (ex.: `struct FeedD { #[command] command: f64, #[state] position: f64 }`)"
    );
}

#[test]
fn a_sensor_is_read_from_its_source() {
    let plan =
        accepted(sensor("key = \"reactor.temperature\"", "pub struct ReactorTemperature;"));
    assert_eq!(plan.name, "ReactorTemperature");
    assert_eq!(plan.key, "reactor.temperature");
    assert_eq!(
        refusal(sensor("key = 3", "struct ReactorTemperature;")),
        "`key` precisa ser uma string literal"
    );
    for item in ["struct ReactorTemperature(f64);", "struct ReactorTemperature {}"] {
        assert!(refusal(sensor("key = \"k\"", item))
            .starts_with("#[sensor] só suporta struct sem campos"));
    }
}

#[test]
fn a_controller_is_read_from_its_source() {
    let plan = accepted(controller(
        "name = \"level_control\"",
        r#"struct LevelControl {
            #[sensor(key = "tank.level")]
            level: f64,
            #[actuator(key = "valve.position")]
            valve: f64,
            gain: f64,
        }"#,
    ));
    assert_eq!(plan.name, "LevelControl");
    assert_eq!(plan.catalog_name, "level_control");
    assert_eq!(plan.sensor_fields, vec!["level"]);
    assert_eq!(plan.sensor_keys, vec!["tank.level"]);
    assert_eq!(plan.actuator_fields, vec!["valve"]);
    assert_eq!(plan.actuator_keys, vec!["valve.position"]);
    assert_eq!(
        refusal(controller("name = \"n\"", "struct C { #[sensor(key = \"k\")] a: f64 }")),
        "falta pelo menos um campo marcado #[actuator(key = \"...\")]"
    );
}

const REACTOR: &str = r#"
    impl plant::Reactor {
        const VOLUME: f64 = 1.0;

        fn helper(&self, factor: f64) -> f64 {
            factor
        }

        #[need(prefix = "feed", components = ["A", "B"])]
        #[need(key = "reactor.pressure")]
        #[offer(key = "reactor.flow")]
        fn flow(&self, feed: [f64; 2], pressure: f64) -> f64 {
            feed[0] * pressure
        }
    }
"#;

#[test]
fn tasks_are_read_from_their_source() {
    let planned = accepted(tasks::expand("", REACTOR));
    assert_eq!(planned.len(), 3);
    assert!(planned[0].is_none());
    assert!(planned[1].is_none());
    let task = match &planned[2] {
        Some(task) => task,
        None => panic!("the method is marked"),
    };
    assert_eq!(task.name, "Reactor::flow");
    assert_eq!(task.holder, "__Reactor_flow_Task");
    assert_eq!(task.implementation, "__flow_impl");
    assert_eq!(task.after, "plant :: Reactor");
    assert_eq!(task.needs, vec!["feed.A", "feed.B", "reactor.pressure"]);
    assert_eq!(task.offers, vec!["reactor.flow"]);
    assert_eq!(
        task.parameters,
        vec![Run { start: 0, array: Some(2) }, Run { start: 2, array: None }]
    );
}

fn only_task(item: &str) -> TaskPlan {
    match accepted(tasks::expand("", item)).remove(0) {
        Some(task) => task,
        None => panic!("the method is marked"),
    }
}

#[test]
fn a_raw_identifier_leaves_its_mark_out_of_generated_names() {
    let task = only_task("impl r#Type { #[offer(key = \"k\")] fn r#match(&self) -> f64 { 0.0 } }");
    assert_eq!(task.name, "r#Type::r#match");
    assert_eq!(task.holder, "__Type_match_Task");
    assert_eq!(task.implementation, "__match_impl");
    assert_eq!(task.after, "r#Type");
}

#[test]
fn annotations_inside_of_a_method_count_as_its_annotations() {
    let quiet = only_task(
        "impl Tank { #[offer(key = \"k\")] fn level(&self) -> f64 { #![allow(unused)] 0.0 } }",
    );
    assert_eq!(quiet.name, "Tank::level");
    assert_eq!(quiet.offers, vec!["k"]);
    let inside = only_task("impl Tank { fn level(&self) -> f64 { #![offer(key = \"k\")] 0.0 } }");
    assert_eq!(inside.offers, vec!["k"]);
    assert_eq!(
        refusal(tasks::expand("", "impl Tank { fn level(&self) -> f64 { #![offer] 0.0 } }")),
        "expected attribute arguments in parentheses: #![offer(...)]"
    );
}

#[test]
fn implementations_without_tasks_are_refused() {
    assert_eq!(
        refusal(tasks::expand("", "impl Model for Reactor {}")),
        "#[monjolo::tasks] só suporta impl inerente (sem trait)"
    );
    assert_eq!(
        refusal(tasks::expand("", "impl [Reactor; 2] {}")),
        "#[monjolo::tasks] precisa de um tipo simples (ex.: `impl Reactor`)"
    );
    assert_eq!(
        refusal(tasks::expand("", "impl Reactor { #[offer(key = \"k\")] fn flow(&self, x: f64) -> f64 { x } }")),
        "1 parâmetro(s) declarado(s) mas 0 atributo(s) #[need(...)] — precisa bater 1:1, na ordem em que aparecem (1º #[need] = 1º parâmetro, etc.)"
    );
}

#[test]
fn arguments_and_annotations_are_read_in_order() {
    let list = accepted(read_arguments("first = \"a\", a::b = 2,"));
    let names: Vec<&str> = list.iter().map(|argument| argument.name.as_str()).collect();
    assert_eq!(names, vec!["first", ""]);
    let marks = read_attributes(vec![
        AttributeParts {
            name: Some("need".to_string()),
            arguments: Ok("key = \"k\"".to_string()),
        },
        AttributeParts { name: None, arguments: Err("none".to_string()) },
    ]);
    let names: Vec<&str> = marks.iter().map(|mark| mark.name.as_str()).collect();
    assert_eq!(names, vec!["need", ""]);
    assert!(marks[0].arguments.is_ok());
    assert_eq!(marks[1].arguments.as_ref().err().map(String::as_str), Some("none"));
    assert!(read_arguments("a, b").is_err());
}
