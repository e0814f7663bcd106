use monjolo::declaration::arguments::{
    expect_str_array, expect_str_lit, parse_key_spec, Argument, Attribute, FieldKeySpec, Literal,
};
use monjolo::declaration::fields::{build_field_plan, FieldDeclaration, FieldPlan, FieldShape, FieldType};
use monjolo::declaration::model::{
    parse_after_arg, plan_model, FieldWiring, ModelArgument, ModelDeclaration,
};
use monjolo::declaration::parts::{
    parse_field_key, parse_key_arg, parse_name_arg, plan_actuator, plan_controller, plan_sensor,
    ActuatorArgs, ActuatorDeclaration, ControllerDeclaration, Mark, MarkedField, SensorDeclaration,
};
use monjolo::declaration::tasks::{
    build_task, plan_tasks, ImplDeclaration, ImplItem, MethodDeclaration, Run,
};

fn text(value: &str) -> Literal {
    Literal::Text(value.to_string())
}

fn texts(values: &[&str]) -> Literal {
    Literal::List(values.iter().map(|value| Some(value.to_string())).collect())
}

fn argument(name: &str, value: Literal) -> Argument {
    Argument { name: name.to_string(), value }
}

fn attribute(name: &str, arguments: Vec<Argument>) -> Attribute {
    Attribute { name: name.to_string(), arguments: Ok(arguments) }
}

fn key(name: &str, value: &str) -> Attribute {
    attribute(name, vec![argument("key", text(value))])
}

fn keys(name: &str, prefix: &str, components: &[&str]) -> Attribute {
    attribute(
        name,
        vec![argument("prefix", text(prefix)), argument("components", texts(components))],
    )
}

fn field(ty: FieldType, attributes: Vec<Attribute>) -> FieldDeclaration {
    FieldDeclaration { name: "x".to_string(), ty, attributes }
}

fn refusal<T>(outcome: Result<T, String>) -> String {
    match outcome {
        Ok(_) => panic!("expected a refusal"),
        Err(message) => message,
    }
}

fn accepted<T>(outcome: Result<T, String>) -> T {
    match outcome {
        Ok(value) => value,
        Err(message) => panic!("{message}"),
    }
}

#[test]
fn literals_are_taken_for_what_they_are() {
    assert_eq!(expect_str_lit(&text("a")), Ok("a".to_string()));
    assert_eq!(refusal(expect_str_lit(&Literal::Other)), "esperada uma string literal");
    assert_eq!(expect_str_array(&texts(&["a", "b"])), Ok(vec!["a".to_string(), "b".to_string()]));
    assert_eq!(
        refusal(expect_str_array(&Literal::List(vec![Some("a".to_string()), None]))),
        "esperada uma string literal"
    );
    assert_eq!(
        refusal(expect_str_array(&text("a"))),
        "esperado um array de strings, ex.: [\"a\", \"b\"]"
    );
}

#[test]
fn keys_are_one_key_or_a_prefix_with_components() {
    let scalar = accepted(parse_key_spec(&key("offer", "k")));
    assert_eq!(scalar.keys(), vec!["k"]);
    assert_eq!(scalar.array_length(), None);
    let array = accepted(parse_key_spec(&keys("offer", "p", &["a", "b"])));
    assert_eq!(array.keys(), vec!["p.a", "p.b"]);
    assert_eq!(array.array_length(), Some(2));
    assert!(matches!(array, FieldKeySpec::Array(_, _)));
}

#[test]
fn mixed_and_missing_keys_are_refused() {
    assert_eq!(
        refusal(parse_key_spec(&attribute("offer", vec![]))),
        "esperado `key = \"...\"` ou `prefix = \"...\", components = [...]`"
    );
    let mixture = "use `key = \"...\"` (escalar) OU `prefix`+`components` (array), não uma mistura";
    assert_eq!(
        refusal(parse_key_spec(&attribute(
            "offer",
            vec![argument("key", text("k")), argument("prefix", text("p"))]
        ))),
        mixture
    );
    assert_eq!(
        refusal(parse_key_spec(&attribute("offer", vec![argument("prefix", text("p"))]))),
        mixture
    );
    assert_eq!(
        refusal(parse_key_spec(&attribute("offer", vec![argument("kei", text("k"))]))),
        "esperado `key`, `prefix` ou `components`"
    );
    assert_eq!(
        refusal(parse_key_spec(&Attribute {
            name: "offer".to_string(),
            arguments: Err("broken".to_string()),
        })),
        "broken"
    );
}

#[test]
fn a_field_without_marks_is_plain() {
    let plan = accepted(build_field_plan(&field(FieldType::Other, vec![attribute("doc", vec![])])));
    assert!(matches!(plan, FieldPlan::Plain { .. }));
}

#[test]
fn a_field_has_the_width_of_its_keys() {
    let array = || FieldType::Array { of_doubles: true, length: Ok(2) };
    match accepted(build_field_plan(&field(array(), vec![keys("need", "p", &["a", "b"])]))) {
        FieldPlan::Signals { shape, .. } => assert_eq!(shape, FieldShape::Array(2)),
        FieldPlan::Plain { .. } => panic!("the field is marked"),
    }
    assert_eq!(
        refusal(build_field_plan(&field(array(), vec![keys("need", "p", &["a", "b", "c"])]))),
        "campo declarado como 2 valor(es) mas o atributo descreve 3 chave(s) — components.len() precisa bater com o tamanho do array"
    );
}

#[test]
fn fields_of_other_types_hold_no_signals() {
    let unsupported = "#[dynamic_model] só suporta campos `f64` ou `[f64; N]`";
    let offered = || vec![key("offer", "k")];
    for ty in [
        FieldType::Other,
        FieldType::Array { of_doubles: false, length: Ok(1) },
        FieldType::ComputedArray { of_doubles: false },
    ] {
        assert_eq!(refusal(build_field_plan(&field(ty, offered()))), unsupported);
    }
    assert_eq!(
        refusal(build_field_plan(&field(FieldType::ComputedArray { of_doubles: true }, offered()))),
        "tamanho do array precisa ser um inteiro literal"
    );
    assert_eq!(
        refusal(build_field_plan(&field(
            FieldType::Array { of_doubles: true, length: Err("too long".to_string()) },
            offered()
        ))),
        "too long"
    );
}

#[test]
fn marks_that_do_not_go_together_are_refused() {
    let build = |attributes| build_field_plan(&field(FieldType::Double, attributes));
    assert_eq!(
        refusal(build(vec![key("offer", "a"), key("offer", "b")])),
        "atributo repetido no mesmo campo"
    );
    assert_eq!(
        refusal(build(vec![attribute("state", vec![]), attribute("state", vec![])])),
        "atributo repetido no mesmo campo"
    );
    assert_eq!(
        refusal(build(vec![key("need", "a"), key("offer", "b")])),
        "#[need] não se combina com #[config]/#[offer]/#[state] no mesmo campo — precisa vem de outro componente, não é publicado por este"
    );
    assert_eq!(
        refusal(build(vec![key("config", "a")])),
        "#[config] sozinho não cria sinal nenhum — combine com #[offer(...)] (config só decide o valor inicial de um sinal publicado)"
    );
    assert_eq!(
        refusal(build(vec![attribute("state", vec![])])),
        "#[state] sozinho não cria sinal nenhum — combine com #[offer(...)] (state marca um sinal publicado como parte do vetor de integração)"
    );
}

#[test]
fn a_model_may_name_what_comes_before_it() {
    let options = accepted(parse_after_arg(&vec![
        ModelArgument::Word("tasks".to_string()),
        ModelArgument::Pair(argument("after", texts(&["A", "B"]))),
    ]));
    assert_eq!(options.after, vec!["A", "B"]);
    assert!(options.tasks);
    assert_eq!(
        refusal(parse_after_arg(&vec![ModelArgument::Word("task".to_string())])),
        "esperado `after`"
    );
    assert_eq!(
        refusal(parse_after_arg(&vec![ModelArgument::Pair(argument("before", texts(&[])))])),
        "esperado `after`"
    );
}

#[test]
fn a_model_is_wired_in_the_order_of_its_fields() {
    let declaration = ModelDeclaration {
        name: "Unit".to_string(),
        arguments: Ok(vec![]),
        fields: Some(vec![
            FieldDeclaration {
                name: "level".to_string(),
                ty: FieldType::Double,
                attributes: vec![
                    attribute("state", vec![]),
                    key("config", "c.level"),
                    key("offer", "u.level"),
                ],
            },
            FieldDeclaration {
                name: "inflow".to_string(),
                ty: FieldType::Array { of_doubles: true, length: Ok(2) },
                attributes: vec![keys("need", "in", &["a", "b"])],
            },
            FieldDeclaration {
                name: "output".to_string(),
                ty: FieldType::Double,
                attributes: vec![key("offer", "u.output")],
            },
            FieldDeclaration {
                name: "scratch".to_string(),
                ty: FieldType::Other,
                attributes: vec![],
            },
        ]),
    };
    let plan = accepted(plan_model(&declaration));
    assert_eq!(plan.offers, vec!["u.level", "u.output"]);
    assert_eq!(plan.seeds, vec![Some("c.level".to_string()), None]);
    assert_eq!(plan.settable, vec![false, true]);
    assert_eq!(plan.needs, vec!["in.a", "in.b"]);
    assert_eq!(plan.states, vec!["u.level"]);
    assert!(!plan.tasks);
    let wired: Vec<&str> = plan.fields.iter().map(|field| field.name.as_str()).collect();
    assert_eq!(wired, vec!["level", "inflow", "output", "scratch"]);
    assert!(matches!(
        plan.fields[2].wiring,
        FieldWiring::Offered { start: 1, array: None, settable: true }
    ));
    assert!(matches!(plan.fields[1].wiring, FieldWiring::Needed { start: 0, array: Some(2) }));
    assert!(matches!(plan.fields[3].wiring, FieldWiring::Plain));
}

#[test]
fn a_model_without_named_fields_is_refused() {
    let unnamed =
        ModelDeclaration { name: "Unit".to_string(), arguments: Ok(vec![]), fields: None };
    assert_eq!(
        refusal(plan_model(&unnamed)),
        "#[dynamic_model] só suporta struct com campos nomeados"
    );
    let broken = ModelDeclaration {
        name: "Unit".to_string(),
        arguments: Err("broken".to_string()),
        fields: None,
    };
    assert_eq!(refusal(plan_model(&broken)), "broken");
}

fn method(attributes: Vec<Attribute>, parameters: usize) -> MethodDeclaration {
    MethodDeclaration { name: "flow".to_string(), attributes, parameters }
}

#[test]
fn a_task_takes_a_parameter_for_each_need() {
    let plan = accepted(build_task(
        "Reactor",
        "Reactor",
        &method(
            vec![keys("need", "p", &["a", "b"]), key("need", "q"), key("offer", "r")],
            2,
        ),
    ));
    assert_eq!(plan.name, "Reactor::flow");
    assert_eq!(plan.holder, "__Reactor_flow_Task");
    assert_eq!(plan.implementation, "__flow_impl");
    assert_eq!(plan.after, "Reactor");
    assert_eq!(plan.needs, vec!["p.a", "p.b", "q"]);
    assert_eq!(plan.offers, vec!["r"]);
    assert_eq!(
        plan.parameters,
        vec![Run { start: 0, array: Some(2) }, Run { start: 2, array: None }]
    );
    assert_eq!(plan.results, vec![Run { start: 0, array: None }]);
}

#[test]
fn tasks_that_do_not_add_up_are_refused() {
    assert_eq!(
        refusal(build_task("R", "R", &method(vec![key("need", "q")], 1))),
        "método marcado com #[need]/#[offer] precisa de pelo menos um #[offer(...)] — sem offer nenhum, esta tarefa não publicaria nada"
    );
    assert_eq!(
        refusal(build_task("R", "R", &method(vec![key("need", "q"), key("offer", "r")], 0))),
        "0 parâmetro(s) declarado(s) mas 1 atributo(s) #[need(...)] — precisa bater 1:1, na ordem em que aparecem (1º #[need] = 1º parâmetro, etc.)"
    );
}

#[test]
fn only_marked_methods_are_tasks() {
    let declaration = |has_arguments, for_trait, owner: Option<&str>| ImplDeclaration {
        has_arguments,
        for_trait,
        owner: owner.map(|owner| owner.to_string()),
        self_type: "Reactor".to_string(),
        items: vec![
            ImplItem::Other,
            ImplItem::Method(method(vec![], 3)),
            ImplItem::Method(method(vec![key("offer", "r")], 0)),
        ],
    };
    let planned = accepted(plan_tasks(&declaration(false, false, Some("Reactor"))));
    let shown: Vec<bool> = planned.iter().map(|plan| plan.is_some()).collect();
    assert_eq!(shown, vec![false, false, true]);
    assert_eq!(
        refusal(plan_tasks(&declaration(true, false, Some("Reactor")))),
        "#[monjolo::tasks] não aceita argumentos"
    );
    assert_eq!(
        refusal(plan_tasks(&declaration(false, true, Some("Reactor")))),
        "#[monjolo::tasks] só suporta impl inerente (sem trait)"
    );
    assert_eq!(
        refusal(plan_tasks(&declaration(false, false, None))),
        "#[monjolo::tasks] precisa de um tipo simples (ex.: `impl Reactor`)"
    );
}

#[test]
fn single_arguments_are_named() {
    assert_eq!(parse_key_arg(&Ok(argument("key", text("k")))), Ok("k".to_string()));
    assert_eq!(
        refusal(parse_key_arg(&Ok(argument("name", text("k"))))),
        "esperado `key = \"...\"`"
    );
    assert_eq!(
        refusal(parse_key_arg(&Ok(argument("key", Literal::Other)))),
        "`key` precisa ser uma string literal"
    );
    assert_eq!(parse_name_arg(&Ok(argument("name", text("n")))), Ok("n".to_string()));
    assert_eq!(
        refusal(parse_name_arg(&Ok(argument("key", text("n"))))),
        "esperado `name = \"...\"`"
    );
    assert_eq!(
        refusal(parse_name_arg(&Ok(argument("name", Literal::Other)))),
        "`name` precisa ser uma string literal"
    );
    assert_eq!(refusal(parse_field_key(&Err("broken".to_string()))), "broken");
    assert_eq!(
        refusal(parse_field_key(&Ok(argument("key", Literal::Other)))),
        "esperada uma string literal"
    );
}

fn marked(name: &str, marks: &[&str]) -> MarkedField {
    MarkedField {
        name: name.to_string(),
        marks: marks
            .iter()
            .map(|mark| Mark {
                name: mark.to_string(),
                argument: Ok(argument("key", text("k"))),
            })
            .collect(),
    }
}

fn actuator(fields: Option<Vec<MarkedField>>) -> ActuatorDeclaration {
    ActuatorDeclaration {
        name: "Valve".to_string(),
        arguments: Ok(vec![argument("key", text("valve")), argument("config", text("start"))]),
        fields,
    }
}

#[test]
fn an_actuator_has_one_command_and_one_state() {
    let plan = accepted(plan_actuator(&actuator(Some(vec![
        marked("position", &["state"]),
        marked("command", &["command"]),
    ]))));
    assert_eq!(plan.args.key, "valve");
    assert_eq!(plan.args.config, Some("start".to_string()));
    assert_eq!(plan.state_field, "position");
    assert_eq!(plan.command_field, "command");
    assert_eq!(
        refusal(plan_actuator(&actuator(None))),
        "#[actuator] só suporta struct com campos nomeados (ex.: `struct FeedD { #[command] command: f64, #[state] position: f64 }`)"
    );
    assert_eq!(
        refusal(plan_actuator(&actuator(Some(vec![marked("p", &["state"])])))),
        "falta um campo marcado #[command]"
    );
    assert_eq!(
        refusal(plan_actuator(&actuator(Some(vec![marked("c", &["command"])])))),
        "falta um campo marcado #[state]"
    );
    assert_eq!(
        refusal(plan_actuator(&actuator(Some(vec![
            marked("a", &["command"]),
            marked("b", &["command"])
        ])))),
        "só pode haver um campo #[command]"
    );
    assert_eq!(
        refusal(plan_actuator(&actuator(Some(vec![marked("a", &["state"]), marked("b", &["state"])])))),
        "só pode haver um campo #[state]"
    );
}

#[test]
fn an_actuator_needs_a_key() {
    assert_eq!(refusal(ActuatorArgs::parse(&Ok(vec![]))), "falta `key = \"...\"`");
    assert_eq!(
        refusal(ActuatorArgs::parse(&Ok(vec![argument("kei", text("k"))]))),
        "esperado `key` ou `config`"
    );
    assert_eq!(refusal(ActuatorArgs::parse(&Err("broken".to_string()))), "broken");
}

#[test]
fn a_sensor_has_no_fields() {
    let sensor = |has_fields| SensorDeclaration {
        name: "Temperature".to_string(),
        argument: Ok(argument("key", text("reactor.temperature"))),
        has_fields,
    };
    let plan = accepted(plan_sensor(&sensor(false)));
    assert_eq!((plan.name.as_str(), plan.key.as_str()), ("Temperature", "reactor.temperature"));
    assert_eq!(
        refusal(plan_sensor(&sensor(true))),
        "#[sensor] só suporta struct sem campos (ex.: `struct ReactorTemperature;`) — a leitura não tem computação própria do usuário, só key + behavior (Ideal por enquanto)"
    );
}

#[test]
fn a_controller_needs_a_sensor_and_an_actuator() {
    let controller = |fields| ControllerDeclaration {
        name: "Pressure".to_string(),
        argument: Ok(argument("name", text("pressure_control"))),
        fields,
    };
    let plan = accepted(plan_controller(&controller(Some(vec![
        marked("reading", &["sensor"]),
        marked("position", &["actuator"]),
    ]))));
    assert_eq!(plan.catalog_name, "pressure_control");
    assert_eq!(plan.sensor_fields, vec!["reading"]);
    assert_eq!(plan.actuator_fields, vec!["position"]);
    assert_eq!(plan.sensor_keys, vec!["k"]);
    assert_eq!(plan.actuator_keys, vec!["k"]);
    assert!(refusal(plan_controller(&controller(None)))
        .starts_with("#[controller] só suporta struct com campos nomeados"));
    assert_eq!(
        refusal(plan_controller(&controller(Some(vec![marked("p", &["actuator"])])))),
        "falta pelo menos um campo marcado #[sensor(key = \"...\")]"
    );
    assert_eq!(
        refusal(plan_controller(&controller(Some(vec![marked("p", &["sensor"])])))),
        "falta pelo menos um campo marcado #[actuator(key = \"...\")]"
    );
    assert_eq!(
        refusal(plan_controller(&controller(Some(vec![marked("p", &["sensor", "actuator"])])))),
        "um campo só pode ser #[sensor] OU #[actuator], não os dois"
    );
}
