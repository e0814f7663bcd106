//! Actuators, sensors and controllers that are declared by their fields.
use crate::declaration::arguments;
use crate::declaration::arguments::{Argument, ArgumentView};
use crate::text;
use vstd::prelude::*;

verus! {

/// The key of an actuator, and the key of the configuration at which it starts.
pub struct ActuatorArgs {
    pub key: String,
    pub config: Option<String>,
}

#[verifier::ext_equal]
pub struct ActuatorArgsView {
    pub key: Seq<char>,
    pub config: Option<Seq<char>>,
}

#[verifier::ext_equal]
pub struct ActuatorParts {
    pub key: Option<Seq<char>>,
    pub config: Option<Seq<char>>,
}

/// What the first `n` arguments say, or the first error among them.
pub open spec fn actuator_parts(list: Seq<ArgumentView>, n: nat) -> Result<ActuatorParts, Seq<char>>
    decreases n,
{
    if n == 0 {
        Ok(ActuatorParts { key: None, config: None })
    } else {
        match actuator_parts(list, (n - 1) as nat) {
            Err(message) => Err(message),
            Ok(parts) => {
                let argument = list[n - 1];
                if argument.name == "key"@ {
                    match arguments::text_of(argument.value) {
                        Ok(text) => Ok(ActuatorParts { key: Some(text), ..parts }),
                        Err(message) => Err(message),
                    }
                } else if argument.name == "config"@ {
                    match arguments::text_of(argument.value) {
                        Ok(text) => Ok(ActuatorParts { config: Some(text), ..parts }),
                        Err(message) => Err(message),
                    }
                } else {
                    Err("esperado `key` ou `config`"@)
                }
            },
        }
    }
}

/// The arguments of an actuator, or why they are refused.
pub open spec fn actuator_args_of(list: Result<Seq<ArgumentView>, Seq<char>>) -> Result<
    ActuatorArgsView,
    Seq<char>,
> {
    match list {
        Err(message) => Err(message),
        Ok(list) => match actuator_parts(list, list.len()) {
            Err(message) => Err(message),
            Ok(parts) => match parts.key {
                Some(key) => Ok(ActuatorArgsView { key, config: parts.config }),
                None => Err("falta `key = \"...\"`"@),
            },
        },
    }
}

pub open spec fn arguments_shown(list: Result<Vec<Argument>, String>) -> Result<
    Seq<ArgumentView>,
    Seq<char>,
> {
    match list {
        Ok(list) => Ok(arguments::argument_views(list@)),
        Err(message) => Err(message@),
    }
}

impl ActuatorArgs {
    pub open spec fn view(&self) -> ActuatorArgsView {
        ActuatorArgsView { key: self.key@, config: arguments::shown(self.config) }
    }

    /// Reads `key = "..."` and `config = "..."`.
    pub fn parse(list: &Result<Vec<Argument>, String>) -> (outcome: Result<ActuatorArgs, String>)
        ensures
            match (outcome, actuator_args_of(arguments_shown(*list))) {
                (Ok(args), Ok(wanted)) => args@ == wanted,
                (Err(message), Err(wanted)) => message@ == wanted,
                _ => false,
            },
    {
        let pairs = match list {
            Ok(pairs) => pairs,
            Err(message) => {
                return Err(message.clone());
            },
        };
        let ghost views = arguments::argument_views(pairs@);
        let mut key: Option<String> = None;
        let mut config: Option<String> = None;
        let mut i: usize = 0;
        while i < pairs.len()
            invariant
                i <= pairs@.len(),
                views == arguments::argument_views(pairs@),
                arguments_shown(*list) == Ok::<Seq<ArgumentView>, Seq<char>>(views),
                actuator_parts(views, i as nat) == Ok::<ActuatorParts, Seq<char>>(
                    ActuatorParts {
                        key: arguments::shown(key),
                        config: arguments::shown(config),
                    },
                ),
            decreases pairs@.len() - i,
        {
            let pair = &pairs[i];
            assert(views[i as int] == pair@);
            if text::same(&pair.name, "key") {
                match arguments::expect_str_lit(&pair.value) {
                    Ok(text) => {
                        key = Some(text);
                    },
                    Err(message) => {
                        proof {
                            first_part_error_stays(views, (i + 1) as nat, views.len());
                        }
                        return Err(message);
                    },
                }
            } else if text::same(&pair.name, "config") {
                match arguments::expect_str_lit(&pair.value) {
                    Ok(text) => {
                        config = Some(text);
                    },
                    Err(message) => {
                        proof {
                            first_part_error_stays(views, (i + 1) as nat, views.len());
                        }
                        return Err(message);
                    },
                }
            } else {
                proof {
                    first_part_error_stays(views, (i + 1) as nat, views.len());
                }
                return Err("esperado `key` ou `config`".to_owned());
            }
            i = i + 1;
        }
        match key {
            Some(key) => Ok(ActuatorArgs { key, config }),
            None => Err("falta `key = \"...\"`".to_owned()),
        }
    }
}

proof fn first_part_error_stays(list: Seq<ArgumentView>, n: nat, m: nat)
    requires
        n <= m,
        actuator_parts(list, n) is Err,
    ensures
        actuator_parts(list, m) == actuator_parts(list, n),
    decreases m,
{
    if n < m {
        first_part_error_stays(list, n, (m - 1) as nat);
    }
}

/// The text of a single argument with the expected name, or why there is none.
pub open spec fn single_of(
    argument: Result<ArgumentView, Seq<char>>,
    name: Seq<char>,
    wrong_name: Seq<char>,
    wrong_value: Seq<char>,
) -> Result<Seq<char>, Seq<char>> {
    match argument {
        Err(message) => Err(message),
        Ok(argument) => if argument.name != name {
            Err(wrong_name)
        } else {
            match arguments::text_of(argument.value) {
                Ok(text) => Ok(text),
                Err(_) => Err(wrong_value),
            }
        },
    }
}

pub open spec fn argument_shown(argument: Result<Argument, String>) -> Result<
    ArgumentView,
    Seq<char>,
> {
    match argument {
        Ok(argument) => Ok(argument@),
        Err(message) => Err(message@),
    }
}

fn parse_single(
    argument: &Result<Argument, String>,
    name: &str,
    wrong_name: &str,
    wrong_value: &str,
) -> (outcome: Result<String, String>)
    ensures
        text::outcome_is(
            outcome,
            single_of(argument_shown(*argument), name@, wrong_name@, wrong_value@),
        ),
{
    match argument {
        Err(message) => Err(message.clone()),
        Ok(argument) => {
            if !text::same(&argument.name, name) {
                return Err(wrong_name.to_owned());
            }
            match arguments::expect_str_lit(&argument.value) {
                Ok(text) => Ok(text),
                Err(_) => Err(wrong_value.to_owned()),
            }
        },
    }
}

/// The key of a sensor, or why it has none.
pub open spec fn key_arg_of(argument: Result<ArgumentView, Seq<char>>) -> Result<
    Seq<char>,
    Seq<char>,
> {
    single_of(
        argument,
        "key"@,
        "esperado `key = \"...\"`"@,
        "`key` precisa ser uma string literal"@,
    )
}

/// Reads `key = "..."`.
pub fn parse_key_arg(argument: &Result<Argument, String>) -> (outcome: Result<String, String>)
    ensures
        text::outcome_is(outcome, key_arg_of(argument_shown(*argument))),
{
    parse_single(
        argument,
        "key",
        "esperado `key = \"...\"`",
        "`key` precisa ser uma string literal",
    )
}

/// The name of a controller, or why it has none.
pub open spec fn name_arg_of(argument: Result<ArgumentView, Seq<char>>) -> Result<
    Seq<char>,
    Seq<char>,
> {
    single_of(
        argument,
        "name"@,
        "esperado `name = \"...\"`"@,
        "`name` precisa ser uma string literal"@,
    )
}

/// Reads `name = "..."`.
pub fn parse_name_arg(argument: &Result<Argument, String>) -> (outcome: Result<String, String>)
    ensures
        text::outcome_is(outcome, name_arg_of(argument_shown(*argument))),
{
    parse_single(
        argument,
        "name",
        "esperado `name = \"...\"`",
        "`name` precisa ser uma string literal",
    )
}

/// The key in the annotation of a controller's field, or why it has none.
pub open spec fn field_key_of(argument: Result<ArgumentView, Seq<char>>) -> Result<
    Seq<char>,
    Seq<char>,
> {
    single_of(
        argument,
        "key"@,
        "esperado `key = \"...\"`"@,
        "esperada uma string literal"@,
    )
}

/// Reads the `key = "..."` of a controller's field.
pub fn parse_field_key(argument: &Result<Argument, String>) -> (outcome: Result<String, String>)
    ensures
        text::outcome_is(outcome, field_key_of(argument_shown(*argument))),
{
    parse_single(argument, "key", "esperado `key = \"...\"`", "esperada uma string literal")
}

/// An annotation with at most one argument. Where its argument does not parse, the text of the
/// parser's error is at hand.
pub struct Mark {
    pub name: String,
    pub argument: Result<Argument, String>,
}

/// A field of an actuator or a controller.
pub struct MarkedField {
    pub name: String,
    pub marks: Vec<Mark>,
}

/// An actuator as it is declared. `fields` is missing where the fields have no names.
pub struct ActuatorDeclaration {
    pub name: String,
    pub arguments: Result<Vec<Argument>, String>,
    pub fields: Option<Vec<MarkedField>>,
}

/// What a declared actuator consists of.
pub struct ActuatorPlan {
    pub name: String,
    pub args: ActuatorArgs,
    pub command_field: String,
    pub state_field: String,
}

/// The fields that carry the command and the state.
#[verifier::ext_equal]
pub struct ActuatorFields {
    pub command: Option<Seq<char>>,
    pub state: Option<Seq<char>>,
}

/// The fields found after the first `n` marks of one field.
pub open spec fn fields_after_marks(
    so_far: ActuatorFields,
    field: MarkedField,
    n: nat,
) -> Result<ActuatorFields, Seq<char>>
    decreases n,
{
    if n == 0 {
        Ok(so_far)
    } else {
        match fields_after_marks(so_far, field, (n - 1) as nat) {
            Err(message) => Err(message),
            Ok(found) => {
                let mark = field.marks@[n - 1];
                if mark.name@ == "command"@ {
                    if found.command is Some {
                        Err("só pode haver um campo #[command]"@)
                    } else {
                        Ok(ActuatorFields { command: Some(field.name@), ..found })
                    }
                } else if mark.name@ == "state"@ {
                    if found.state is Some {
                        Err("só pode haver um campo #[state]"@)
                    } else {
                        Ok(ActuatorFields { state: Some(field.name@), ..found })
                    }
                } else {
                    Ok(found)
                }
            },
        }
    }
}

/// The fields found among the first `n`, or the first error among them.
pub open spec fn actuator_fields(list: Seq<MarkedField>, n: nat) -> Result<
    ActuatorFields,
    Seq<char>,
>
    decreases n,
{
    if n == 0 {
        Ok(ActuatorFields { command: None, state: None })
    } else {
        match actuator_fields(list, (n - 1) as nat) {
            Err(message) => Err(message),
            Ok(found) => fields_after_marks(found, list[n - 1], list[n - 1].marks@.len()),
        }
    }
}

proof fn first_mark_error_stays(so_far: ActuatorFields, field: MarkedField, n: nat, m: nat)
    requires
        n <= m,
        fields_after_marks(so_far, field, n) is Err,
    ensures
        fields_after_marks(so_far, field, m) == fields_after_marks(so_far, field, n),
    decreases m,
{
    if n < m {
        first_mark_error_stays(so_far, field, n, (m - 1) as nat);
    }
}

proof fn first_field_error_stays(list: Seq<MarkedField>, n: nat, m: nat)
    requires
        n <= m,
        actuator_fields(list, n) is Err,
    ensures
        actuator_fields(list, m) == actuator_fields(list, n),
    decreases m,
{
    if n < m {
        first_field_error_stays(list, n, (m - 1) as nat);
    }
}

/// Whether the outcome is what the declaration means.
pub open spec fn actuator_outcome_is(
    declaration: ActuatorDeclaration,
    outcome: Result<ActuatorPlan, String>,
) -> bool {
    match actuator_args_of(arguments_shown(declaration.arguments)) {
        Err(reason) => outcome matches Err(message) && message@ == reason,
        Ok(args) => match declaration.fields {
            None => outcome matches Err(message) && message@
                == "#[actuator] só suporta struct com campos nomeados (ex.: `struct FeedD { #[command] command: f64, #[state] position: f64 }`)"@,
            Some(list) => match actuator_fields(list@, list@.len()) {
                Err(reason) => outcome matches Err(message) && message@ == reason,
                Ok(found) => match (found.command, found.state) {
                    (None, _) => outcome matches Err(message) && message@
                        == "falta um campo marcado #[command]"@,
                    (Some(_), None) => outcome matches Err(message) && message@
                        == "falta um campo marcado #[state]"@,
                    (Some(command), Some(state)) => outcome matches Ok(plan) && {
                        &&& plan.name@ == declaration.name@
                        &&& plan.args@ == args
                        &&& plan.command_field@ == command
                        &&& plan.state_field@ == state
                    },
                },
            },
        },
    }
}

/// Decides what a declared actuator consists of, or why it is refused.
pub fn plan_actuator(declaration: &ActuatorDeclaration) -> (outcome: Result<ActuatorPlan, String>)
    ensures
        actuator_outcome_is(*declaration, outcome),
{
    let args: ActuatorArgs = match ActuatorArgs::parse(&declaration.arguments) {
        Ok(args) => args,
        Err(message) => {
            return Err(message);
        },
    };
    let list = match &declaration.fields {
        Some(list) => list,
        None => {
            return Err(
                "#[actuator] só suporta struct com campos nomeados (ex.: `struct FeedD { #[command] command: f64, #[state] position: f64 }`)".to_owned(),
            );
        },
    };
    let ghost wanted_args = args@;
    let mut command: Option<String> = None;
    let mut state: Option<String> = None;
    let mut i: usize = 0;
    while i < list.len()
        invariant
            i <= list@.len(),
            declaration.fields == Some(*list),
            actuator_args_of(arguments_shown(declaration.arguments)) == Ok::<
                ActuatorArgsView,
                Seq<char>,
            >(wanted_args),
            actuator_fields(list@, i as nat) == Ok::<ActuatorFields, Seq<char>>(
                ActuatorFields {
                    command: arguments::shown(command),
                    state: arguments::shown(state),
                },
            ),
        decreases list@.len() - i,
    {
        let field = &list[i];
        let ghost so_far = ActuatorFields {
            command: arguments::shown(command),
            state: arguments::shown(state),
        };
        let mut j: usize = 0;
        while j < field.marks.len()
            invariant
                i < list@.len(),
                j <= field.marks@.len(),
                *field == list@[i as int],
                declaration.fields == Some(*list),
                actuator_args_of(arguments_shown(declaration.arguments)) == Ok::<
                    ActuatorArgsView,
                    Seq<char>,
                >(wanted_args),
                actuator_fields(list@, i as nat) == Ok::<ActuatorFields, Seq<char>>(so_far),
                fields_after_marks(so_far, *field, j as nat) == Ok::<ActuatorFields, Seq<char>>(
                    ActuatorFields {
                        command: arguments::shown(command),
                        state: arguments::shown(state),
                    },
                ),
            decreases field.marks@.len() - j,
        {
            if text::same(&field.marks[j].name, "command") {
                if command.is_some() {
                    proof {
                        first_mark_error_stays(
                            so_far,
                            *field,
                            (j + 1) as nat,
                            field.marks@.len(),
                        );
                        first_field_error_stays(list@, (i + 1) as nat, list@.len());
                    }
                    return Err("só pode haver um campo #[command]".to_owned());
                }
                command = Some(field.name.clone());
            } else if text::same(&field.marks[j].name, "state") {
                if state.is_some() {
                    proof {
                        first_mark_error_stays(
                            so_far,
                            *field,
                            (j + 1) as nat,
                            field.marks@.len(),
                        );
                        first_field_error_stays(list@, (i + 1) as nat, list@.len());
                    }
                    return Err("só pode haver um campo #[state]".to_owned());
                }
                state = Some(field.name.clone());
            }
            j = j + 1;
        }
        i = i + 1;
    }
    let command_field: String = match command {
        Some(name) => name,
        None => {
            return Err("falta um campo marcado #[command]".to_owned());
        },
    };
    let state_field: String = match state {
        Some(name) => name,
        None => {
            return Err("falta um campo marcado #[state]".to_owned());
        },
    };
    Ok(ActuatorPlan { name: declaration.name.clone(), args, command_field, state_field })
}

/// A sensor as it is declared.
pub struct SensorDeclaration {
    pub name: String,
    pub argument: Result<Argument, String>,
    pub has_fields: bool,
}

/// What a declared sensor consists of.
pub struct SensorPlan {
    pub name: String,
    pub key: String,
}

/// Whether this is the outcome of the declared sensor.
pub open spec fn sensor_outcome_is(
    declaration: SensorDeclaration,
    outcome: Result<SensorPlan, String>,
) -> bool {
    match key_arg_of(argument_shown(declaration.argument)) {
        Err(reason) => outcome matches Err(message) && message@ == reason,
        Ok(key) => if declaration.has_fields {
            outcome matches Err(message) && message@
                == "#[sensor] só suporta struct sem campos (ex.: `struct ReactorTemperature;`) — a leitura não tem computação própria do usuário, só key + behavior (Ideal por enquanto)"@
        } else {
            outcome matches Ok(plan) && plan.name@ == declaration.name@ && plan.key@ == key
        },
    }
}

/// Decides what a declared sensor reads, or why it is refused.
pub fn plan_sensor(declaration: &SensorDeclaration) -> (outcome: Result<SensorPlan, String>)
    ensures
        sensor_outcome_is(*declaration, outcome),
{
    let key: String = match parse_key_arg(&declaration.argument) {
        Ok(key) => key,
        Err(message) => {
            return Err(message);
        },
    };
    if declaration.has_fields {
        return Err(
            "#[sensor] só suporta struct sem campos (ex.: `struct ReactorTemperature;`) — a leitura não tem computação própria do usuário, só key + behavior (Ideal por enquanto)".to_owned(),
        );
    }
    Ok(SensorPlan { name: declaration.name.clone(), key })
}

/// A controller as it is declared. `fields` is missing where the fields have no names.
pub struct ControllerDeclaration {
    pub name: String,
    pub argument: Result<Argument, String>,
    pub fields: Option<Vec<MarkedField>>,
}

/// What a declared controller works with: its name in the catalog, and for each sensor and actuator
/// the field and the key.
pub struct ControllerPlan {
    pub name: String,
    pub catalog_name: String,
    pub sensor_fields: Vec<String>,
    pub sensor_keys: Vec<String>,
    pub actuator_fields: Vec<String>,
    pub actuator_keys: Vec<String>,
}

#[verifier::ext_equal]
pub struct LoopParts {
    pub sensor_fields: Seq<Seq<char>>,
    pub sensor_keys: Seq<Seq<char>>,
    pub actuator_fields: Seq<Seq<char>>,
    pub actuator_keys: Seq<Seq<char>>,
}

/// The parts found after the first `n` marks of one field, and whether one of them counted.
pub open spec fn parts_after_marks(so_far: LoopParts, field: MarkedField, n: nat) -> Result<
    (LoopParts, bool),
    Seq<char>,
>
    decreases n,
{
    if n == 0 {
        Ok((so_far, false))
    } else {
        match parts_after_marks(so_far, field, (n - 1) as nat) {
            Err(message) => Err(message),
            Ok((found, marked)) => {
                let mark = field.marks@[n - 1];
                if mark.name@ == "sensor"@ {
                    if marked {
                        Err("um campo só pode ser #[sensor] OU #[actuator], não os dois"@)
                    } else {
                        match field_key_of(argument_shown(mark.argument)) {
                            Err(message) => Err(message),
                            Ok(key) => Ok(
                                (
                                    LoopParts {
                                        sensor_fields: found.sensor_fields.push(field.name@),
                                        sensor_keys: found.sensor_keys.push(key),
                                        ..found
                                    },
                                    true,
                                ),
                            ),
                        }
                    }
                } else if mark.name@ == "actuator"@ {
                    if marked {
                        Err("um campo só pode ser #[sensor] OU #[actuator], não os dois"@)
                    } else {
                        match field_key_of(argument_shown(mark.argument)) {
                            Err(message) => Err(message),
                            Ok(key) => Ok(
                                (
                                    LoopParts {
                                        actuator_fields: found.actuator_fields.push(field.name@),
                                        actuator_keys: found.actuator_keys.push(key),
                                        ..found
                                    },
                                    true,
                                ),
                            ),
                        }
                    }
                } else {
                    Ok((found, marked))
                }
            },
        }
    }
}

/// The parts found among the first `n` fields, or the first error among them.
pub open spec fn loop_parts(list: Seq<MarkedField>, n: nat) -> Result<LoopParts, Seq<char>>
    decreases n,
{
    if n == 0 {
        Ok(
            LoopParts {
                sensor_fields: Seq::empty(),
                sensor_keys: Seq::empty(),
                actuator_fields: Seq::empty(),
                actuator_keys: Seq::empty(),
            },
        )
    } else {
        match loop_parts(list, (n - 1) as nat) {
            Err(message) => Err(message),
            Ok(found) => match parts_after_marks(found, list[n - 1], list[n - 1].marks@.len()) {
                Ok((more, _)) => Ok(more),
                Err(message) => Err(message),
            },
        }
    }
}

proof fn first_loop_mark_error_stays(so_far: LoopParts, field: MarkedField, n: nat, m: nat)
    requires
        n <= m,
        parts_after_marks(so_far, field, n) is Err,
    ensures
        parts_after_marks(so_far, field, m) == parts_after_marks(so_far, field, n),
    decreases m,
{
    if n < m {
        first_loop_mark_error_stays(so_far, field, n, (m - 1) as nat);
    }
}

proof fn first_loop_error_stays(list: Seq<MarkedField>, n: nat, m: nat)
    requires
        n <= m,
        loop_parts(list, n) is Err,
    ensures
        loop_parts(list, m) == loop_parts(list, n),
    decreases m,
{
    if n < m {
        first_loop_error_stays(list, n, (m - 1) as nat);
    }
}

impl ControllerPlan {
    pub open spec fn parts(&self) -> LoopParts {
        LoopParts {
            sensor_fields: text::texts(self.sensor_fields@),
            sensor_keys: text::texts(self.sensor_keys@),
            actuator_fields: text::texts(self.actuator_fields@),
            actuator_keys: text::texts(self.actuator_keys@),
        }
    }

    fn add_sensor(&mut self, field: &String, key: String)
        ensures
            final(self).name == old(self).name,
            final(self).catalog_name == old(self).catalog_name,
            final(self).parts() == (LoopParts {
                sensor_fields: old(self).parts().sensor_fields.push(field@),
                sensor_keys: old(self).parts().sensor_keys.push(key@),
                ..old(self).parts()
            }),
    {
        let ghost before = self.parts();
        self.sensor_fields.push(field.clone());
        self.sensor_keys.push(key);
        assert(self.parts().sensor_fields =~= before.sensor_fields.push(field@));
        assert(self.parts().sensor_keys =~= before.sensor_keys.push(key@));
    }

    fn add_actuator(&mut self, field: &String, key: String)
        ensures
            final(self).name == old(self).name,
            final(self).catalog_name == old(self).catalog_name,
            final(self).parts() == (LoopParts {
                actuator_fields: old(self).parts().actuator_fields.push(field@),
                actuator_keys: old(self).parts().actuator_keys.push(key@),
                ..old(self).parts()
            }),
    {
        let ghost before = self.parts();
        self.actuator_fields.push(field.clone());
        self.actuator_keys.push(key);
        assert(self.parts().actuator_fields =~= before.actuator_fields.push(field@));
        assert(self.parts().actuator_keys =~= before.actuator_keys.push(key@));
    }
}

/// Whether the outcome is what the declaration means.
pub open spec fn controller_outcome_is(
    declaration: ControllerDeclaration,
    outcome: Result<ControllerPlan, String>,
) -> bool {
    match name_arg_of(argument_shown(declaration.argument)) {
        Err(reason) => outcome matches Err(message) && message@ == reason,
        Ok(name) => match declaration.fields {
            None => outcome matches Err(message) && message@
                == "#[controller] só suporta struct com campos nomeados (ex.: `struct ReactorPressureControl { #[sensor(key = \"reactor.pressure\")] pressure: f64, #[actuator(key = \"valve.purge.position\")] purge: f64 }`)"@,
            Some(list) => match loop_parts(list@, list@.len()) {
                Err(reason) => outcome matches Err(message) && message@ == reason,
                Ok(parts) => if parts.sensor_fields.len() == 0 {
                    outcome matches Err(message) && message@
                        == "falta pelo menos um campo marcado #[sensor(key = \"...\")]"@
                } else if parts.actuator_fields.len() == 0 {
                    outcome matches Err(message) && message@
                        == "falta pelo menos um campo marcado #[actuator(key = \"...\")]"@
                } else {
                    outcome matches Ok(plan) && plan.name@ == declaration.name@
                        && plan.catalog_name@ == name && plan.parts() == parts
                },
            },
        },
    }
}

/// Decides what a declared controller works with, or why it is refused.
pub fn plan_controller(declaration: &ControllerDeclaration) -> (outcome: Result<
    ControllerPlan,
    String,
>)
    ensures
        controller_outcome_is(*declaration, outcome),
{
    let catalog_name: String = match parse_name_arg(&declaration.argument) {
        Ok(name) => name,
        Err(message) => {
            return Err(message);
        },
    };
    let list = match &declaration.fields {
        Some(list) => list,
        None => {
            return Err(
                "#[controller] só suporta struct com campos nomeados (ex.: `struct ReactorPressureControl { #[sensor(key = \"reactor.pressure\")] pressure: f64, #[actuator(key = \"valve.purge.position\")] purge: f64 }`)".to_owned(),
            );
        },
    };
    let ghost wanted_name = catalog_name@;
    let mut plan = ControllerPlan {
        name: declaration.name.clone(),
        catalog_name,
        sensor_fields: Vec::new(),
        sensor_keys: Vec::new(),
        actuator_fields: Vec::new(),
        actuator_keys: Vec::new(),
    };
    let mut i: usize = 0;
    assert(plan.parts() =~= loop_parts(list@, 0)->Ok_0);
    while i < list.len()
        invariant
            i <= list@.len(),
            declaration.fields == Some(*list),
            name_arg_of(argument_shown(declaration.argument)) == Ok::<Seq<char>, Seq<char>>(
                wanted_name,
            ),
            plan.name@ == declaration.name@,
            plan.catalog_name@ == wanted_name,
            loop_parts(list@, i as nat) == Ok::<LoopParts, Seq<char>>(plan.parts()),
        decreases list@.len() - i,
    {
        let field = &list[i];
        let ghost so_far = plan.parts();
        let mut marked: bool = false;
        let mut j: usize = 0;
        while j < field.marks.len()
            invariant
                i < list@.len(),
                j <= field.marks@.len(),
                *field == list@[i as int],
                declaration.fields == Some(*list),
                name_arg_of(argument_shown(declaration.argument)) == Ok::<Seq<char>, Seq<char>>(
                    wanted_name,
                ),
                plan.name@ == declaration.name@,
                plan.catalog_name@ == wanted_name,
                loop_parts(list@, i as nat) == Ok::<LoopParts, Seq<char>>(so_far),
                parts_after_marks(so_far, *field, j as nat) == Ok::<(LoopParts, bool), Seq<char>>(
                    (plan.parts(), marked),
                ),
            decreases field.marks@.len() - j,
        {
            let mark = &field.marks[j];
            let is_sensor: bool = text::same(&mark.name, "sensor");
            let is_actuator: bool = !is_sensor && text::same(&mark.name, "actuator");
            if is_sensor || is_actuator {
                if marked {
                    proof {
                        first_loop_mark_error_stays(
                            so_far,
                            *field,
                            (j + 1) as nat,
                            field.marks@.len(),
                        );
                        first_loop_error_stays(list@, (i + 1) as nat, list@.len());
                    }
                    return Err(
                        "um campo só pode ser #[sensor] OU #[actuator], não os dois".to_owned(),
                    );
                }
                match parse_field_key(&mark.argument) {
                    Ok(key) => {
                        if is_sensor {
                            plan.add_sensor(&field.name, key);
                        } else {
                            plan.add_actuator(&field.name, key);
                        }
                        marked = true;
                    },
                    Err(message) => {
                        proof {
                            first_loop_mark_error_stays(
                                so_far,
                                *field,
                                (j + 1) as nat,
                                field.marks@.len(),
                            );
                            first_loop_error_stays(list@, (i + 1) as nat, list@.len());
                        }
                        return Err(message);
                    },
                }
            }
            j = j + 1;
        }
        i = i + 1;
    }
    assert(plan.parts().sensor_fields.len() == plan.sensor_fields@.len());
    assert(plan.parts().actuator_fields.len() == plan.actuator_fields@.len());
    if plan.sensor_fields.len() == 0 {
        return Err("falta pelo menos um campo marcado #[sensor(key = \"...\")]".to_owned());
    }
    if plan.actuator_fields.len() == 0 {
        return Err("falta pelo menos um campo marcado #[actuator(key = \"...\")]".to_owned());
    }
    Ok(plan)
}

} // verus!
