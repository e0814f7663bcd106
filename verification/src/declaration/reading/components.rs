//! Actuators, sensors and controllers read from source text.
use crate::declaration::arguments::{Argument, ArgumentView};
use crate::declaration::parts::{
    parse_key_arg, parse_name_arg, plan_actuator, plan_controller, plan_sensor, ActuatorArgs,
    ActuatorDeclaration, ActuatorPlan, ControllerDeclaration, ControllerPlan, Mark, MarkedField,
    SensorDeclaration, SensorPlan,
};
use crate::declaration::source::{
    AttributeParts, AttributePartsView, StructFields, StructFieldsView, StructParts,
};
use crate::declaration::{parts, reading, source};
use crate::text;
use vstd::prelude::*;

verus! {

/// An annotation with a single argument, as its parts are seen.
#[verifier::ext_equal]
pub struct MarkView {
    pub name: Seq<char>,
    pub argument: Result<ArgumentView, Seq<char>>,
}

pub open spec fn shown_mark(mark: Mark) -> MarkView {
    MarkView { name: mark.name@, argument: parts::argument_shown(mark.argument) }
}

pub open spec fn shown_marks(list: Seq<Mark>) -> Seq<MarkView> {
    Seq::new(list.len(), |i: int| shown_mark(list[i]))
}

pub open spec fn mark_of(mark: AttributePartsView) -> MarkView {
    MarkView {
        name: reading::or_nothing(mark.name),
        argument: match mark.arguments {
            Ok(text) => reading::single_argument_of(text),
            Err(message) => Err(message),
        },
    }
}

fn read_mark(mark: AttributeParts) -> (read: Mark)
    ensures
        shown_mark(read) == mark_of(mark@),
{
    let argument: Result<Argument, String> = match mark.arguments {
        Ok(text) => reading::read_single_argument(text.as_str()),
        Err(message) => Err(message),
    };
    Mark { name: reading::name_or_nothing(mark.name), argument }
}

/// Annotations, each with a single argument.
pub open spec fn marks_of(marks: Seq<AttributePartsView>) -> Seq<MarkView> {
    Seq::new(marks.len(), |i: int| mark_of(marks[i]))
}

/// Reads annotations with single arguments.
pub fn read_marks(marks: Vec<AttributeParts>) -> (list: Vec<Mark>)
    ensures
        shown_marks(list@) == marks_of(source::attribute_parts(marks@)),
{
    let ghost all = marks@;
    let mut rest: Vec<AttributeParts> = marks;
    let mut list: Vec<Mark> = Vec::new();
    while rest.len() > 0
        invariant
            list@.len() + rest@.len() == all.len(),
            rest@ == all.skip(list@.len() as int),
            forall|k: int|
                0 <= k < list@.len() ==> shown_mark(#[trigger] list@[k]) == mark_of(all[k]@),
        decreases rest@.len(),
    {
        let ghost at = list@.len() as int;
        let mark: AttributeParts = rest.remove(0);
        assert(mark == all[at]);
        list.push(read_mark(mark));
        assert(rest@ =~= all.skip(at + 1));
    }
    assert(shown_marks(list@) =~= marks_of(source::attribute_parts(all)));
    list
}

/// A field with its annotations, as its parts are seen.
#[verifier::ext_equal]
pub struct MarkedSource {
    pub name: Seq<char>,
    pub marks: Seq<MarkView>,
}

pub open spec fn shown_marked(field: MarkedField) -> MarkedSource {
    MarkedSource { name: field.name@, marks: shown_marks(field.marks@) }
}

pub open spec fn marked_of(text: Seq<char>) -> Result<MarkedSource, Seq<char>> {
    match source::syn_field(text) {
        Err(message) => Err(message),
        Ok(field) => Ok(MarkedSource { name: field.name, marks: marks_of(field.attributes) }),
    }
}

fn read_marked(text: &str) -> (field: Result<MarkedField, String>)
    ensures
        match (field, marked_of(text@)) {
            (Ok(field), Ok(wanted)) => shown_marked(field) == wanted,
            (Err(message), Err(wanted)) => message@ == wanted,
            _ => false,
        },
{
    match source::take_field_apart(text) {
        Ok(parts) => {
            let marks: Vec<Mark> = read_marks(parts.attributes);
            Ok(MarkedField { name: parts.name, marks })
        },
        Err(message) => Err(message),
    }
}

/// The marked fields in the first `n` texts, or the first error among them.
pub open spec fn marked_fields_of(texts: Seq<Seq<char>>, n: nat) -> Result<
    Seq<MarkedSource>,
    Seq<char>,
>
    decreases n,
{
    if n == 0 {
        Ok(Seq::empty())
    } else {
        match (marked_fields_of(texts, (n - 1) as nat), marked_of(texts[n - 1])) {
            (Err(message), _) => Err(message),
            (Ok(_), Err(message)) => Err(message),
            (Ok(earlier), Ok(field)) => Ok(earlier.push(field)),
        }
    }
}

proof fn first_marked_error_stays(texts: Seq<Seq<char>>, n: nat, m: nat)
    requires
        n <= m,
        marked_fields_of(texts, n) is Err,
    ensures
        marked_fields_of(texts, m) == marked_fields_of(texts, n),
    decreases m,
{
    if n < m {
        first_marked_error_stays(texts, n, (m - 1) as nat);
    }
}

pub open spec fn shown_marked_fields(list: Seq<MarkedField>) -> Seq<MarkedSource> {
    Seq::new(list.len(), |i: int| shown_marked(list[i]))
}

fn read_marked_fields(texts: &Vec<String>) -> (list: Result<Vec<MarkedField>, String>)
    ensures
        match (list, marked_fields_of(text::texts(texts@), text::texts(texts@).len())) {
            (Ok(list), Ok(wanted)) => shown_marked_fields(list@) == wanted,
            (Err(message), Err(wanted)) => message@ == wanted,
            _ => false,
        },
{
    let ghost shown = text::texts(texts@);
    let mut list: Vec<MarkedField> = Vec::new();
    let mut i: usize = 0;
    assert(shown_marked_fields(list@) =~= Seq::empty());
    while i < texts.len()
        invariant
            i <= texts@.len(),
            shown == text::texts(texts@),
            marked_fields_of(shown, i as nat) == Ok::<Seq<MarkedSource>, Seq<char>>(
                shown_marked_fields(list@),
            ),
        decreases texts@.len() - i,
    {
        assert(shown[i as int] == texts@[i as int]@);
        match read_marked(texts[i].as_str()) {
            Ok(field) => {
                let ghost before = list@;
                list.push(field);
                assert(shown_marked_fields(list@) =~= shown_marked_fields(before).push(
                    shown_marked(field),
                ));
            },
            Err(message) => {
                proof {
                    first_marked_error_stays(shown, (i + 1) as nat, shown.len());
                }
                return Err(message);
            },
        }
        i = i + 1;
    }
    Ok(list)
}

/// The marked fields of a struct, none where they have no names, or why they cannot be read.
pub open spec fn struct_marks_of(fields: StructFieldsView) -> Result<
    Option<Seq<MarkedSource>>,
    Seq<char>,
> {
    match fields {
        StructFieldsView::Named(texts) => match marked_fields_of(texts, texts.len()) {
            Ok(list) => Ok(Some(list)),
            Err(message) => Err(message),
        },
        _ => Ok(None),
    }
}

fn read_struct_marks(fields: &StructFields) -> (list: Result<Option<Vec<MarkedField>>, String>)
    ensures
        ({
            let shown = match *fields {
                StructFields::Named(texts) => StructFieldsView::Named(text::texts(texts@)),
                StructFields::Unnamed => StructFieldsView::Unnamed,
                StructFields::Unit => StructFieldsView::Unit,
            };
            match (list, struct_marks_of(shown)) {
                (Ok(Some(list)), Ok(Some(wanted))) => shown_marked_fields(list@) == wanted,
                (Ok(None), Ok(None)) => true,
                (Err(message), Err(wanted)) => message@ == wanted,
                _ => false,
            }
        }),
{
    match fields {
        StructFields::Named(texts) => match read_marked_fields(texts) {
            Ok(list) => Ok(Some(list)),
            Err(message) => Err(message),
        },
        _ => Ok(None),
    }
}

/// Whether these are the fields that were read.
pub open spec fn are_marked(
    given: Option<Vec<MarkedField>>,
    wanted: Option<Seq<MarkedSource>>,
) -> bool {
    match (given, wanted) {
        (Some(list), Some(wanted)) => shown_marked_fields(list@) == wanted,
        (None, None) => true,
        _ => false,
    }
}

/// Whether this is the outcome of an actuator with this name, these arguments and these fields.
pub open spec fn actuator_means(
    name: Seq<char>,
    list: Result<Seq<ArgumentView>, Seq<char>>,
    fields: Option<Seq<MarkedSource>>,
    outcome: Result<ActuatorPlan, String>,
) -> bool {
    exists|declaration: ActuatorDeclaration|
        {
            &&& #[trigger] parts::actuator_outcome_is(declaration, outcome)
            &&& declaration.name@ == name
            &&& parts::arguments_shown(declaration.arguments) == list
            &&& are_marked(declaration.fields, fields)
        }
}

/// Whether this is the outcome of an actuator that is declared so.
pub open spec fn actuator_expands(
    arguments: Seq<char>,
    item: Seq<char>,
    outcome: Result<ActuatorPlan, String>,
) -> bool {
    match parts::actuator_args_of(reading::arguments_of(arguments)) {
        Err(reason) => outcome matches Err(message) && message@ == reason,
        Ok(_) => match source::syn_struct(item) {
            Err(reason) => outcome matches Err(message) && message@ == reason,
            Ok(found) => match struct_marks_of(found.fields) {
                Err(reason) => outcome matches Err(message) && message@ == reason,
                Ok(fields) => actuator_means(found.name, reading::arguments_of(arguments), fields, outcome),
            },
        },
    }
}

/// Decides what an actuator consists of that is declared in source text, or why it is refused.
pub fn actuator(arguments: &str, item: &str) -> (outcome: Result<ActuatorPlan, String>)
    ensures
        actuator_expands(arguments@, item@, outcome),
{
    let list: Result<Vec<Argument>, String> = reading::read_arguments(arguments);
    match ActuatorArgs::parse(&list) {
        Ok(_) => {},
        Err(message) => {
            return Err(message);
        },
    }
    let found: StructParts = match source::take_struct_apart(item) {
        Ok(found) => found,
        Err(message) => {
            return Err(message);
        },
    };
    let ghost shown = found@;
    let fields: Option<Vec<MarkedField>> = match read_struct_marks(&found.fields) {
        Ok(fields) => fields,
        Err(message) => {
            return Err(message);
        },
    };
    let declaration = ActuatorDeclaration { name: found.name, arguments: list, fields };
    let outcome: Result<ActuatorPlan, String> = plan_actuator(&declaration);
    proof {
        let wanted = struct_marks_of(shown.fields)->Ok_0;
        assert(are_marked(declaration.fields, wanted));
        assert(actuator_means(shown.name, reading::arguments_of(arguments@), wanted, outcome));
    }
    outcome
}

/// Whether this is the outcome of a sensor with this name and this argument.
pub open spec fn sensor_means(
    name: Seq<char>,
    argument: Result<ArgumentView, Seq<char>>,
    has_fields: bool,
    outcome: Result<SensorPlan, String>,
) -> bool {
    exists|declaration: SensorDeclaration|
        {
            &&& #[trigger] parts::sensor_outcome_is(declaration, outcome)
            &&& declaration.name@ == name
            &&& parts::argument_shown(declaration.argument) == argument
            &&& declaration.has_fields == has_fields
        }
}

/// Whether this is the outcome of a sensor that is declared so.
pub open spec fn sensor_expands(
    argument: Seq<char>,
    item: Seq<char>,
    outcome: Result<SensorPlan, String>,
) -> bool {
    match parts::key_arg_of(reading::single_argument_of(argument)) {
        Err(reason) => outcome matches Err(message) && message@ == reason,
        Ok(_) => match source::syn_struct(item) {
            Err(reason) => outcome matches Err(message) && message@ == reason,
            Ok(found) => sensor_means(
                found.name,
                reading::single_argument_of(argument),
                found.fields != StructFieldsView::Unit,
                outcome,
            ),
        },
    }
}

/// Decides what a sensor reads that is declared in source text, or why it is refused.
pub fn sensor(argument: &str, item: &str) -> (outcome: Result<SensorPlan, String>)
    ensures
        sensor_expands(argument@, item@, outcome),
{
    let single: Result<Argument, String> = reading::read_single_argument(argument);
    match parse_key_arg(&single) {
        Ok(_) => {},
        Err(message) => {
            return Err(message);
        },
    }
    let found: StructParts = match source::take_struct_apart(item) {
        Ok(found) => found,
        Err(message) => {
            return Err(message);
        },
    };
    let has_fields: bool = match &found.fields {
        StructFields::Unit => false,
        _ => true,
    };
    let ghost shown = found@;
    let declaration = SensorDeclaration { name: found.name, argument: single, has_fields };
    let outcome: Result<SensorPlan, String> = plan_sensor(&declaration);
    assert(sensor_means(
        shown.name,
        reading::single_argument_of(argument@),
        shown.fields != StructFieldsView::Unit,
        outcome,
    ));
    outcome
}

/// Whether this is the outcome of a controller with this name, this argument and these fields.
pub open spec fn controller_means(
    name: Seq<char>,
    argument: Result<ArgumentView, Seq<char>>,
    fields: Option<Seq<MarkedSource>>,
    outcome: Result<ControllerPlan, String>,
) -> bool {
    exists|declaration: ControllerDeclaration|
        {
            &&& #[trigger] parts::controller_outcome_is(declaration, outcome)
            &&& declaration.name@ == name
            &&& parts::argument_shown(declaration.argument) == argument
            &&& are_marked(declaration.fields, fields)
        }
}

/// Whether this is the outcome of a controller that is declared so.
pub open spec fn controller_expands(
    argument: Seq<char>,
    item: Seq<char>,
    outcome: Result<ControllerPlan, String>,
) -> bool {
    match parts::name_arg_of(reading::single_argument_of(argument)) {
        Err(reason) => outcome matches Err(message) && message@ == reason,
        Ok(_) => match source::syn_struct(item) {
            Err(reason) => outcome matches Err(message) && message@ == reason,
            Ok(found) => match struct_marks_of(found.fields) {
                Err(reason) => outcome matches Err(message) && message@ == reason,
                Ok(fields) => controller_means(
                    found.name,
                    reading::single_argument_of(argument),
                    fields,
                    outcome,
                ),
            },
        },
    }
}

/// Decides what a controller works with that is declared in source text, or why it is refused.
pub fn controller(argument: &str, item: &str) -> (outcome: Result<ControllerPlan, String>)
    ensures
        controller_expands(argument@, item@, outcome),
{
    let single: Result<Argument, String> = reading::read_single_argument(argument);
    match parse_name_arg(&single) {
        Ok(_) => {},
        Err(message) => {
            return Err(message);
        },
    }
    let found: StructParts = match source::take_struct_apart(item) {
        Ok(found) => found,
        Err(message) => {
            return Err(message);
        },
    };
    let ghost shown = found@;
    let fields: Option<Vec<MarkedField>> = match read_struct_marks(&found.fields) {
        Ok(fields) => fields,
        Err(message) => {
            return Err(message);
        },
    };
    let declaration = ControllerDeclaration { name: found.name, argument: single, fields };
    let outcome: Result<ControllerPlan, String> = plan_controller(&declaration);
    proof {
        let wanted = struct_marks_of(shown.fields)->Ok_0;
        assert(are_marked(declaration.fields, wanted));
        assert(controller_means(shown.name, reading::single_argument_of(argument@), wanted, outcome));
    }
    outcome
}

} // verus!
