//! Laws of declared actuators, sensors and controllers.
use crate::declaration::model;
use crate::declaration::model::{ModelDeclaration, ModelPlan};
use crate::declaration::parts;
use crate::declaration::parts::{
    ActuatorDeclaration, ActuatorFields, ActuatorPlan, ControllerDeclaration, ControllerPlan,
    LoopParts, MarkedField, SensorDeclaration, SensorPlan,
};
use crate::text;
use vstd::prelude::*;

verus! {

/// How often the first `n` marks of a field have the name.
pub open spec fn times_marked(field: MarkedField, n: nat, name: Seq<char>) -> nat
    decreases n,
{
    if n == 0 {
        0
    } else {
        times_marked(field, (n - 1) as nat, name) + if field.marks@[n - 1].name@ == name {
            1nat
        } else {
            0nat
        }
    }
}

/// How often the first `n` fields have a mark with the name.
pub open spec fn times_marked_in(list: Seq<MarkedField>, n: nat, name: Seq<char>) -> nat
    decreases n,
{
    if n == 0 {
        0
    } else {
        times_marked_in(list, (n - 1) as nat, name) + times_marked(
            list[n - 1],
            list[n - 1].marks@.len(),
            name,
        )
    }
}

proof fn names_of_roles_differ()
    ensures
        "command"@ != "state"@,
        "sensor"@ != "actuator"@,
{
    reveal_strlit("command");
    reveal_strlit("state");
    reveal_strlit("sensor");
    reveal_strlit("actuator");
    assert("command"@.len() == 7);
    assert("state"@.len() == 5);
    assert("sensor"@.len() == 6);
    assert("actuator"@.len() == 8);
}

/// Whether the name that was found is that of the field with the mark: one mark gives the field, no
/// mark leaves what was found before.
pub open spec fn found_by(
    before: Option<Seq<char>>,
    times: nat,
    name: Seq<char>,
    found: Option<Seq<char>>,
) -> bool {
    &&& times == 0 ==> found == before
    &&& times == 1 ==> before is None && found == Some(name)
    &&& times <= 1
}

proof fn marks_of_a_field_are_found(so_far: ActuatorFields, field: MarkedField, n: nat)
    requires
        n <= field.marks@.len(),
    ensures
        ({
            let outcome = parts::fields_after_marks(so_far, field, n);
            let commands = times_marked(field, n, "command"@);
            let states = times_marked(field, n, "state"@);
            let held_command: nat = if so_far.command is Some {
                1
            } else {
                0
            };
            let held_state: nat = if so_far.state is Some {
                1
            } else {
                0
            };
            &&& outcome is Ok <==> held_command + commands <= 1 && held_state + states <= 1
            &&& outcome matches Ok(found) ==> {
                &&& found_by(so_far.command, commands, field.name@, found.command)
                &&& found_by(so_far.state, states, field.name@, found.state)
            }
            &&& outcome matches Err(reason) ==> {
                ||| reason == "só pode haver um campo #[command]"@ && held_command + commands > 1
                ||| reason == "só pode haver um campo #[state]"@ && held_state + states > 1
            }
        }),
    decreases n,
{
    names_of_roles_differ();
    if n > 0 {
        marks_of_a_field_are_found(so_far, field, (n - 1) as nat);
    }
}

/// Whether the name is that of a field with the mark.
pub open spec fn is_of_field(
    list: Seq<MarkedField>,
    n: int,
    mark: Seq<char>,
    name: Seq<char>,
) -> bool {
    exists|i: int|
        0 <= i < n && (#[trigger] list[i]).name@ == name && times_marked(
            list[i],
            list[i].marks@.len(),
            mark,
        ) == 1
}

proof fn roles_are_found(list: Seq<MarkedField>, n: nat)
    requires
        n <= list.len(),
    ensures
        ({
            let outcome = parts::actuator_fields(list, n);
            let commands = times_marked_in(list, n, "command"@);
            let states = times_marked_in(list, n, "state"@);
            &&& outcome is Ok <==> commands <= 1 && states <= 1
            &&& outcome matches Ok(found) ==> {
                &&& found.command is Some <==> commands == 1
                &&& found.state is Some <==> states == 1
                &&& found.command is Some ==> is_of_field(
                    list,
                    n as int,
                    "command"@,
                    found.command->0,
                )
                &&& found.state is Some ==> is_of_field(list, n as int, "state"@, found.state->0)
            }
            &&& outcome matches Err(reason) ==> {
                ||| reason == "só pode haver um campo #[command]"@ && commands > 1
                ||| reason == "só pode haver um campo #[state]"@ && states > 1
            }
        }),
    decreases n,
{
    if n > 0 {
        let m = (n - 1) as nat;
        roles_are_found(list, m);
        let field = list[m as int];
        if parts::actuator_fields(list, m) is Ok {
            let earlier = parts::actuator_fields(list, m)->Ok_0;
            marks_of_a_field_are_found(earlier, field, field.marks@.len());
            if parts::actuator_fields(list, n) is Ok {
                let found = parts::actuator_fields(list, n)->Ok_0;
                if found.command is Some {
                    a_field_stays(list, n, "command"@, earlier.command, found.command);
                }
                if found.state is Some {
                    a_field_stays(list, n, "state"@, earlier.state, found.state);
                }
            }
        }
    }
}

proof fn a_field_stays(
    list: Seq<MarkedField>,
    n: nat,
    mark: Seq<char>,
    earlier: Option<Seq<char>>,
    found: Option<Seq<char>>,
)
    requires
        0 < n <= list.len(),
        found is Some,
        earlier is Some ==> is_of_field(list, n - 1, mark, earlier->0),
        found_by(
            earlier,
            times_marked(list[n - 1], list[n - 1].marks@.len(), mark),
            list[n - 1].name@,
            found,
        ),
    ensures
        is_of_field(list, n as int, mark, found->0),
{
    if times_marked(list[n - 1], list[n - 1].marks@.len(), mark) == 1 {
        assert(list[n - 1].name@ == found->0);
    } else {
        let i = choose|i: int|
            0 <= i < n - 1 && (#[trigger] list[i]).name@ == earlier->0 && times_marked(
                list[i],
                list[i].marks@.len(),
                mark,
            ) == 1;
        assert(list[i].name@ == found->0);
    }
}

/// An actuator is planned from its arguments and from the one field that is marked as its command and
/// the one that is marked as its state. It is refused where one of them is missing or marked twice.
pub proof fn an_actuator_has_one_command_and_one_state(
    declaration: ActuatorDeclaration,
    outcome: Result<ActuatorPlan, String>,
)
    requires
        parts::actuator_outcome_is(declaration, outcome),
    ensures
        ({
            let args = parts::actuator_args_of(parts::arguments_shown(declaration.arguments));
            &&& args matches Err(reason) ==> (outcome matches Err(message) && message@ == reason)
            &&& args is Ok && declaration.fields is None ==> (outcome matches Err(message) && message@
                == "#[actuator] só suporta struct com campos nomeados (ex.: `struct FeedD { #[command] command: f64, #[state] position: f64 }`)"@)
            &&& args is Ok && declaration.fields is Some ==> ({
                let list = (declaration.fields->0)@;
                let commands = times_marked_in(list, list.len(), "command"@);
                let states = times_marked_in(list, list.len(), "state"@);
                &&& outcome is Ok <==> commands == 1 && states == 1
                &&& outcome matches Ok(plan) ==> {
                    &&& plan.name@ == declaration.name@
                    &&& plan.args.key@ == args->Ok_0.key
                    &&& plan.args.config is Some <==> args->Ok_0.config is Some
                    &&& plan.args.config matches Some(key) ==> args->Ok_0.config == Some(key@)
                    &&& is_of_field(list, list.len() as int, "command"@, plan.command_field@)
                    &&& is_of_field(list, list.len() as int, "state"@, plan.state_field@)
                }
                &&& outcome matches Err(message) ==> {
                    ||| commands > 1 && message@ == "só pode haver um campo #[command]"@
                    ||| states > 1 && message@ == "só pode haver um campo #[state]"@
                    ||| commands == 0 && states <= 1 && message@
                        == "falta um campo marcado #[command]"@
                    ||| commands == 1 && states == 0 && message@
                        == "falta um campo marcado #[state]"@
                }
            })
        }),
{
    if declaration.fields is Some {
        let list = (declaration.fields->0)@;
        roles_are_found(list, list.len());
    }
}

/// A sensor has the name of its declaration and the key of its argument, and no field.
pub proof fn a_sensor_has_a_key_and_no_field(
    declaration: SensorDeclaration,
    outcome: Result<SensorPlan, String>,
)
    requires
        parts::sensor_outcome_is(declaration, outcome),
    ensures
        ({
            let key = parts::key_arg_of(parts::argument_shown(declaration.argument));
            &&& key matches Err(reason) ==> (outcome matches Err(message) && message@ == reason)
            &&& key is Ok && declaration.has_fields ==> (outcome matches Err(message) && message@
                == "#[sensor] só suporta struct sem campos (ex.: `struct ReactorTemperature;`) — a leitura não tem computação própria do usuário, só key + behavior (Ideal por enquanto)"@)
            &&& key is Ok && !declaration.has_fields ==> (outcome matches Ok(plan) && plan.name@
                == declaration.name@ && plan.key@ == key->Ok_0)
        }),
{
}

/// Whether the mark gives the field a role in a controller.
pub open spec fn is_role(name: Seq<char>) -> bool {
    name == "sensor"@ || name == "actuator"@
}

/// Whether the field has one role, and this mark is it.
pub open spec fn has_role_at(field: MarkedField, n: int, at: int) -> bool {
    &&& 0 <= at < n
    &&& is_role(field.marks@[at].name@)
    &&& forall|k: int| 0 <= k < n && k != at ==> !is_role((#[trigger] field.marks@[k]).name@)
}

/// Whether the field has no role.
pub open spec fn has_no_role(field: MarkedField, n: int) -> bool {
    forall|k: int| 0 <= k < n ==> !is_role((#[trigger] field.marks@[k]).name@)
}

/// Whether the parts grew by the field and its key, on the side of its role.
pub open spec fn grew_by(
    before: LoopParts,
    field: MarkedField,
    at: int,
    after: LoopParts,
) -> bool {
    let mark = field.marks@[at];
    let key = parts::field_key_of(parts::argument_shown(mark.argument));
    &&& key is Ok
    &&& mark.name@ == "sensor"@ ==> {
        &&& after.sensor_fields == before.sensor_fields.push(field.name@)
        &&& after.sensor_keys == before.sensor_keys.push(key->Ok_0)
        &&& after.actuator_fields == before.actuator_fields
        &&& after.actuator_keys == before.actuator_keys
    }
    &&& mark.name@ == "actuator"@ ==> {
        &&& after.actuator_fields == before.actuator_fields.push(field.name@)
        &&& after.actuator_keys == before.actuator_keys.push(key->Ok_0)
        &&& after.sensor_fields == before.sensor_fields
        &&& after.sensor_keys == before.sensor_keys
    }
}

proof fn a_role_is_found(so_far: LoopParts, field: MarkedField, n: nat)
    requires
        n <= field.marks@.len(),
    ensures
        ({
            let outcome = parts::parts_after_marks(so_far, field, n);
            &&& outcome matches Ok((found, marked)) ==> {
                &&& !marked ==> found == so_far && has_no_role(field, n as int)
                &&& marked ==> exists|at: int| #[trigger]
                    has_role_at(field, n as int, at) && grew_by(so_far, field, at, found)
            }
            &&& has_no_role(field, n as int) ==> outcome == Ok::<(LoopParts, bool), Seq<char>>(
                (so_far, false),
            )
            &&& forall|at: int| #[trigger]
                has_role_at(field, n as int, at) ==> {
                    let key = parts::field_key_of(
                        parts::argument_shown(field.marks@[at].argument),
                    );
                    &&& outcome is Ok <==> key is Ok
                    &&& outcome is Ok ==> outcome->Ok_0.1
                    &&& key matches Err(reason) ==> outcome == Err::<(LoopParts, bool), _>(reason)
                }
        }),
    decreases n,
{
    names_of_roles_differ();
    if n > 0 {
        let m = (n - 1) as nat;
        a_role_is_found(so_far, field, m);
        let mark = field.marks@[m as int];
        let earlier = parts::parts_after_marks(so_far, field, m);
        let outcome = parts::parts_after_marks(so_far, field, n);
        if has_no_role(field, n as int) {
            assert(!is_role(field.marks@[m as int].name@));
            assert(has_no_role(field, m as int));
        }
        if outcome is Ok {
            let (found, marked) = outcome->Ok_0;
            if marked {
                if is_role(mark.name@) {
                    assert(has_role_at(field, n as int, m as int));
                    assert(grew_by(so_far, field, m as int, found));
                } else {
                    let at = choose|at: int| #[trigger]
                        has_role_at(field, m as int, at) && grew_by(so_far, field, at, found);
                    assert(has_role_at(field, n as int, at));
                }
            } else {
                assert forall|k: int| 0 <= k < n implies !is_role(
                    (#[trigger] field.marks@[k]).name@,
                ) by {}
            }
        }
        assert forall|at: int| #[trigger] has_role_at(field, n as int, at) implies {
            let key = parts::field_key_of(parts::argument_shown(field.marks@[at].argument));
            &&& outcome is Ok <==> key is Ok
            &&& outcome is Ok ==> outcome->Ok_0.1
            &&& key matches Err(reason) ==> outcome == Err::<(LoopParts, bool), _>(reason)
        } by {
            if at < m {
                assert(!is_role(field.marks@[m as int].name@));
                assert(has_role_at(field, m as int, at));
            } else {
                assert(has_no_role(field, m as int));
            }
        }
    }
}

/// Whether each field leads from one list of parts to the next: by its key where it has a role, by
/// nothing where it has none.
pub open spec fn each_grows(list: Seq<MarkedField>, n: int, steps: Seq<LoopParts>) -> bool {
    &&& steps.len() == n + 1
    &&& steps[0].sensor_fields.len() == 0
    &&& steps[0].sensor_keys.len() == 0
    &&& steps[0].actuator_fields.len() == 0
    &&& steps[0].actuator_keys.len() == 0
    &&& forall|i: int|
        0 <= i < n ==> grows_with(#[trigger] list[i], steps[i], steps[i + 1])
}

/// Whether the field leads from `before` to `after`.
pub open spec fn grows_with(field: MarkedField, before: LoopParts, after: LoopParts) -> bool {
    let n = field.marks@.len() as int;
    ||| has_no_role(field, n) && after == before
    ||| exists|at: int| #[trigger] has_role_at(field, n, at) && grew_by(before, field, at, after)
}

proof fn roles_are_in_order(list: Seq<MarkedField>, n: nat) -> (steps: Seq<LoopParts>)
    requires
        n <= list.len(),
        parts::loop_parts(list, n) is Ok,
    ensures
        each_grows(list, n as int, steps),
        steps[n as int] == parts::loop_parts(list, n)->Ok_0,
    decreases n,
{
    if n == 0 {
        seq![parts::loop_parts(list, 0)->Ok_0]
    } else {
        let m = (n - 1) as nat;
        let earlier = roles_are_in_order(list, m);
        let field = list[m as int];
        a_role_is_found(earlier[m as int], field, field.marks@.len());
        let steps = earlier.push(parts::loop_parts(list, n)->Ok_0);
        assert forall|i: int| 0 <= i < n implies grows_with(
            #[trigger] list[i],
            steps[i],
            steps[i + 1],
        ) by {
            if i < m {
                assert(steps[i] == earlier[i]);
                assert(steps[i + 1] == earlier[i + 1]);
            } else {
                assert(steps[i] == earlier[m as int]);
            }
        }
        steps
    }
}

/// The loops of a controller are its marked fields in the order in which they are declared: each stands
/// with its own key on the side of its role.
pub proof fn each_field_of_a_controller_has_its_key(list: Seq<MarkedField>) -> (steps: Seq<LoopParts>)
    requires
        parts::loop_parts(list, list.len()) is Ok,
    ensures
        each_grows(list, list.len() as int, steps),
        steps[list.len() as int] == parts::loop_parts(list, list.len())->Ok_0,
{
    roles_are_in_order(list, list.len())
}

/// Whether the field can be read: it has no role, or one role with a key.
pub open spec fn is_readable(field: MarkedField) -> bool {
    let n = field.marks@.len() as int;
    ||| has_no_role(field, n)
    ||| exists|at: int| #[trigger]
        has_role_at(field, n, at) && parts::field_key_of(
            parts::argument_shown(field.marks@[at].argument),
        ) is Ok
}

/// The fields of a controller can be read exactly where each of them can.
pub proof fn a_controller_is_read_where_its_fields_are(list: Seq<MarkedField>, n: nat)
    requires
        n <= list.len(),
    ensures
        parts::loop_parts(list, n) is Ok <==> forall|i: int|
            0 <= i < n ==> is_readable(#[trigger] list[i]),
    decreases n,
{
    if n > 0 {
        let m = (n - 1) as nat;
        a_controller_is_read_where_its_fields_are(list, m);
        let field = list[m as int];
        if parts::loop_parts(list, m) is Ok {
            a_role_is_found(parts::loop_parts(list, m)->Ok_0, field, field.marks@.len());
            if is_readable(field) && !has_no_role(field, field.marks@.len() as int) {
                let at = choose|at: int| #[trigger]
                    has_role_at(field, field.marks@.len() as int, at) && parts::field_key_of(
                        parts::argument_shown(field.marks@[at].argument),
                    ) is Ok;
                assert(has_role_at(field, field.marks@.len() as int, at));
            }
        }
        if forall|i: int| 0 <= i < n ==> is_readable(#[trigger] list[i]) {
            assert(is_readable(list[m as int]));
        }
    }
}

/// A controller is planned from its name and its marked fields, and needs a sensor and an actuator.
pub proof fn a_controller_has_a_sensor_and_an_actuator(
    declaration: ControllerDeclaration,
    outcome: Result<ControllerPlan, String>,
)
    requires
        parts::controller_outcome_is(declaration, outcome),
    ensures
        ({
            let name = parts::name_arg_of(parts::argument_shown(declaration.argument));
            &&& name matches Err(reason) ==> (outcome matches Err(message) && message@ == reason)
            &&& name is Ok && declaration.fields is Some ==> ({
                let list = (declaration.fields->0)@;
                let found = parts::loop_parts(list, list.len());
                &&& found matches Err(reason) ==> (outcome matches Err(message) && message@
                    == reason)
                &&& found is Ok && found->Ok_0.sensor_fields.len() == 0 ==> (outcome matches Err(
                    message,
                ) && message@ == "falta pelo menos um campo marcado #[sensor(key = \"...\")]"@)
                &&& found is Ok && found->Ok_0.sensor_fields.len() > 0
                    && found->Ok_0.actuator_fields.len() == 0 ==> (outcome matches Err(message)
                    && message@ == "falta pelo menos um campo marcado #[actuator(key = \"...\")]"@)
                &&& found is Ok && found->Ok_0.sensor_fields.len() > 0
                    && found->Ok_0.actuator_fields.len() > 0 ==> outcome is Ok
                &&& outcome matches Ok(plan) ==> {
                    &&& found is Ok
                    &&& plan.name@ == declaration.name@
                    &&& plan.catalog_name@ == name->Ok_0
                    &&& each_shows(plan.sensor_fields@, found->Ok_0.sensor_fields)
                    &&& each_shows(plan.sensor_keys@, found->Ok_0.sensor_keys)
                    &&& each_shows(plan.actuator_fields@, found->Ok_0.actuator_fields)
                    &&& each_shows(plan.actuator_keys@, found->Ok_0.actuator_keys)
                }
            })
            &&& name is Ok && declaration.fields is None ==> (outcome matches Err(message) && message@
                == "#[controller] só suporta struct com campos nomeados (ex.: `struct ReactorPressureControl { #[sensor(key = \"reactor.pressure\")] pressure: f64, #[actuator(key = \"valve.purge.position\")] purge: f64 }`)"@)
        }),
{
    if outcome is Ok && declaration.fields is Some {
        let plan = outcome->Ok_0;
        texts_are_shown(plan.sensor_fields@);
        texts_are_shown(plan.sensor_keys@);
        texts_are_shown(plan.actuator_fields@);
        texts_are_shown(plan.actuator_keys@);
    }
}

/// Whether the texts are those of the list, one by one.
pub open spec fn each_shows(list: Seq<String>, texts: Seq<Seq<char>>) -> bool {
    &&& texts.len() == list.len()
    &&& forall|i: int| 0 <= i < list.len() ==> (#[trigger] list[i])@ == texts[i]
}

/// The texts of a list are those of its entries, in their order.
pub proof fn texts_are_shown(list: Seq<String>)
    ensures
        each_shows(list, text::texts(list)),
{
}

/// The texts of a list of slices are those of its entries, in their order.
pub proof fn slices_are_shown(list: Seq<&str>)
    ensures
        text::strs(list).len() == list.len(),
        forall|i: int| 0 <= i < list.len() ==> (#[trigger] list[i])@ == text::strs(list)[i],
{
}

/// A model that is planned has the name of its declaration, comes after the names in its options, and
/// holds what its fields are wired to, key by key.
pub proof fn a_planned_model_holds_its_wiring(
    declaration: ModelDeclaration,
    outcome: Result<ModelPlan, String>,
)
    requires
        model::model_outcome_is(declaration, outcome),
        declaration.arguments is Ok,
    ensures
        ({
            let list = (declaration.arguments->Ok_0)@;
            let options = model::options_of(model::model_argument_views(list), list.len());
            &&& options matches Err(reason) ==> (outcome matches Err(message) && message@ == reason)
            &&& options is Ok && declaration.fields is None ==> (outcome matches Err(message)
                && message@ == "#[dynamic_model] só suporta struct com campos nomeados"@)
            &&& options is Ok && declaration.fields is Some ==> ({
                let marked = (declaration.fields->0)@;
                let wiring = model::wired(marked, marked.len());
                &&& outcome is Ok <==> wiring is Ok
                &&& wiring matches Err(reason) ==> (outcome matches Err(message) && message@
                    == reason)
                &&& outcome matches Ok(plan) ==> {
                    &&& plan.name@ == declaration.name@
                    &&& each_shows(plan.after@, options->Ok_0.after)
                    &&& plan.tasks == options->Ok_0.tasks
                    &&& each_shows(plan.offers@, wiring->Ok_0.offers)
                    &&& each_shows(plan.needs@, wiring->Ok_0.needs)
                    &&& each_shows(plan.states@, wiring->Ok_0.states)
                    &&& plan.settable@ == wiring->Ok_0.settable
                    &&& plan.seeds@.len() == wiring->Ok_0.seeds.len()
                    &&& forall|i: int|
                        0 <= i < plan.seeds@.len() ==> match (#[trigger] plan.seeds@[i]) {
                            Some(key) => wiring->Ok_0.seeds[i] == Some(key@),
                            None => wiring->Ok_0.seeds[i] is None,
                        }
                    &&& plan.fields@.len() == wiring->Ok_0.fields.len()
                    &&& forall|i: int|
                        0 <= i < plan.fields@.len() ==> (#[trigger] plan.fields@[i]).name@
                            == wiring->Ok_0.fields[i].0 && plan.fields@[i].wiring
                            == wiring->Ok_0.fields[i].1
                }
            })
        }),
{
    if outcome is Ok {
        let plan = outcome->Ok_0;
        texts_are_shown(plan.after@);
        texts_are_shown(plan.offers@);
        texts_are_shown(plan.needs@);
        texts_are_shown(plan.states@);
        assert(model::plan_wiring(plan).seeds.len() == plan.seeds@.len());
        assert forall|i: int| 0 <= i < plan.seeds@.len() implies match (#[trigger] plan.seeds@[i]) {
            Some(key) => model::plan_wiring(plan).seeds[i] == Some(key@),
            None => model::plan_wiring(plan).seeds[i] is None,
        } by {}
    }
}

} // verus!
