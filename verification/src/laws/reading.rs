//! Laws of what is read from a declaration: that nothing in it is lost, exchanged or made up.
use crate::declaration::arguments;
use crate::declaration::arguments::{
    Argument, ArgumentView, Attribute, FieldKeySpec, KeySpecView, Literal, LiteralView,
};
use crate::declaration::fields;
use crate::declaration::fields::{FieldDeclaration, FieldMarks, FieldPlan, FieldPlanView, FieldType};
use crate::declaration::model;
use crate::declaration::model::{ModelArgument, ModelArgumentView, ModelDeclaration, ModelPlan};
use crate::declaration::parts;
use crate::declaration::parts::{
    ActuatorArgs, ActuatorDeclaration, ActuatorPlan, ControllerDeclaration, ControllerPlan,
    MarkedField, SensorDeclaration, SensorPlan,
};
use crate::declaration::reading;
use crate::declaration::reading::components::MarkedSource;
use crate::declaration::reading::dynamic_model::{FieldSource, FieldTypeView};
use crate::declaration::reading::tasks::MethodSource;
use crate::declaration::source;
use crate::declaration::source::{MetaView, StructFieldsView};
use crate::declaration::tasks;
use crate::declaration::tasks::{ImplDeclaration, ImplItem, TaskPlan, TaskView};
use crate::laws;
use crate::text;
use vstd::prelude::*;

verus! {

/// A literal is seen as it stands: a text as the text, a list entry by entry.
pub proof fn a_literal_is_seen_as_it_stands(value: Literal)
    ensures
        value matches Literal::Text(text) ==> value@ == LiteralView::Text(text@),
        value matches Literal::List(list) ==> {
            &&& value@ is List
            &&& value@->List_0.len() == list@.len()
            &&& forall|i: int|
                0 <= i < list@.len() ==> match (#[trigger] list@[i]) {
                    Some(text) => value@->List_0[i] == Some(text@),
                    None => value@->List_0[i] is None,
                }
        },
        value is Other ==> value@ is Other,
{
}

/// An argument is seen with its name and its value, and a list of arguments one by one; an attribute
/// with its name and its arguments.
pub proof fn an_argument_is_seen_with_its_value(
    list: Seq<Argument>,
    attributes: Seq<Attribute>,
    options: Seq<ModelArgument>,
    i: int,
)
    ensures
        arguments::argument_views(list).len() == list.len(),
        arguments::attribute_views(attributes).len() == attributes.len(),
        model::model_argument_views(options).len() == options.len(),
        0 <= i < list.len() ==> {
            &&& arguments::argument_views(list)[i].name == list[i].name@
            &&& arguments::argument_views(list)[i].value == list[i].value@
        },
        0 <= i < attributes.len() ==> {
            &&& arguments::attribute_views(attributes)[i].name == attributes[i].name@
            &&& attributes[i].arguments matches Ok(given) ==> arguments::attribute_views(
                attributes,
            )[i].arguments == Ok::<Seq<ArgumentView>, Seq<char>>(
                arguments::argument_views(given@),
            )
            &&& attributes[i].arguments matches Err(reason) ==> arguments::attribute_views(
                attributes,
            )[i].arguments == Err::<Seq<ArgumentView>, Seq<char>>(reason@)
        },
        0 <= i < options.len() ==> {
            &&& options[i] matches ModelArgument::Word(word) ==> model::model_argument_views(
                options,
            )[i] == ModelArgumentView::Word(word@)
            &&& options[i] matches ModelArgument::Pair(pair) ==> {
                let seen = model::model_argument_views(options)[i];
                seen is Pair && seen->Pair_0.name == pair.name@ && seen->Pair_0.value == pair.value@
            }
        },
{
}

/// Keys are seen as they stand: one key, or a prefix with its components in their order; and a list of
/// them one by one.
pub proof fn keys_are_seen_as_they_stand(keys: FieldKeySpec, list: Seq<FieldKeySpec>)
    ensures
        tasks::spec_views(list).len() == list.len(),
        forall|i: int|
            0 <= i < list.len() ==> tasks::spec_views(list)[i] == (#[trigger] list[i])@,
        keys matches FieldKeySpec::Scalar(key) ==> keys@ == KeySpecView::Scalar(key@),
        keys matches FieldKeySpec::Array(prefix, components) ==> {
            &&& keys@ is Array
            &&& keys@->Array_0 == prefix@
            &&& laws::parts::each_shows(components@, keys@->Array_1)
        },
{
}

/// Whether the keys are seen where there are keys, and nothing where there are none.
pub open spec fn is_seen(keys: Option<FieldKeySpec>, seen: Option<KeySpecView>) -> bool {
    match (keys, seen) {
        (Some(keys), Some(seen)) => keys@ == seen,
        (None, None) => true,
        _ => false,
    }
}

/// The plan of a field is seen with each of its marks under its own name.
pub proof fn each_mark_is_seen_under_its_name(marks: FieldMarks, plan: FieldPlan)
    ensures
        is_seen(marks.config, marks@.config),
        is_seen(marks.offer, marks@.offer),
        is_seen(marks.need, marks@.need),
        marks@.state == marks.state,
        plan matches FieldPlan::Plain { name } ==> plan@ == (FieldPlanView::Plain { name: name@ }),
        plan matches FieldPlan::Signals { name, shape, marks } ==> plan@ == (
        FieldPlanView::Signals { name: name@, shape, marks: marks@ }),
{
}

/// The arguments of an actuator are seen as its key and its configured start.
pub proof fn an_actuator_is_seen_with_key_and_start(args: ActuatorArgs)
    ensures
        args@.key == args.key@,
        args.config matches Some(key) ==> args@.config == Some(key@),
        args.config is None ==> args@.config is None,
{
}

/// A task is seen with its names, its keys and its runs, each in its place.
pub proof fn a_task_is_seen_in_all_its_parts(task: TaskPlan, list: Seq<Option<TaskPlan>>, i: int)
    ensures
        task@.name == task.name@,
        task@.holder == task.holder@,
        task@.implementation == task.implementation@,
        task@.after == task.after@,
        laws::parts::each_shows(task.needs@, task@.needs),
        laws::parts::each_shows(task.offers@, task@.offers),
        task@.parameters == task.parameters@,
        task@.results == task.results@,
        tasks::task_views(list).len() == list.len(),
        0 <= i < list.len() ==> match list[i] {
            Some(task) => tasks::task_views(list)[i] == Some(task@),
            None => tasks::task_views(list)[i] is None,
        },
{
    laws::parts::texts_are_shown(task.needs@);
    laws::parts::texts_are_shown(task.offers@);
}

/// An outcome agrees with what is expected only where both are right and hold the same, or both are
/// wrong for the same reason.
pub proof fn an_outcome_agrees_in_kind_and_content(
    text_outcome: Result<String, String>,
    text_expected: Result<Seq<char>, Seq<char>>,
    list_outcome: Result<Vec<String>, String>,
    list_expected: Result<Seq<Seq<char>>, Seq<char>>,
    keys_outcome: Result<FieldKeySpec, String>,
    keys_expected: Result<KeySpecView, Seq<char>>,
    plan_outcome: Result<FieldPlan, String>,
    plan_expected: Result<FieldPlanView, Seq<char>>,
    task_outcome: Result<TaskPlan, String>,
    task_expected: Result<TaskView, Seq<char>>,
)
    ensures
        text::outcome_is(text_outcome, text_expected) <==> {
            ||| (text_outcome is Ok && text_expected is Ok && text_outcome->Ok_0@
                == text_expected->Ok_0)
            ||| (text_outcome is Err && text_expected is Err && text_outcome->Err_0@
                == text_expected->Err_0)
        },
        arguments::texts_outcome_is(list_outcome, list_expected) ==> {
            ||| (list_outcome is Ok && list_expected is Ok && laws::parts::each_shows(
                list_outcome->Ok_0@,
                list_expected->Ok_0,
            ))
            ||| (list_outcome is Err && list_expected is Err && list_outcome->Err_0@
                == list_expected->Err_0)
        },
        arguments::key_spec_outcome_is(keys_outcome, keys_expected) <==> {
            ||| (keys_outcome is Ok && keys_expected is Ok && keys_outcome->Ok_0@
                == keys_expected->Ok_0)
            ||| (keys_outcome is Err && keys_expected is Err && keys_outcome->Err_0@
                == keys_expected->Err_0)
        },
        fields::plan_outcome_is(plan_outcome, plan_expected) <==> {
            ||| (plan_outcome is Ok && plan_expected is Ok && plan_outcome->Ok_0@
                == plan_expected->Ok_0)
            ||| (plan_outcome is Err && plan_expected is Err && plan_outcome->Err_0@
                == plan_expected->Err_0)
        },
        tasks::task_outcome_is(task_outcome, task_expected) <==> {
            ||| (task_outcome is Ok && task_expected is Ok && task_outcome->Ok_0@
                == task_expected->Ok_0)
            ||| (task_outcome is Err && task_expected is Err && task_outcome->Err_0@
                == task_expected->Err_0)
        },
{
    if list_outcome is Ok {
        laws::parts::texts_are_shown(list_outcome->Ok_0@);
    }
}

/// Whether the declared type is the one that was read.
pub open spec fn is_type(ty: FieldType, read: FieldTypeView) -> bool {
    match (ty, read) {
        (FieldType::Double, FieldTypeView::Double) => true,
        (FieldType::Other, FieldTypeView::Other) => true,
        (
            FieldType::ComputedArray { of_doubles: a },
            FieldTypeView::ComputedArray { of_doubles: b },
        ) => a == b,
        (
            FieldType::Array { of_doubles: a, length },
            FieldTypeView::Array { of_doubles: b, length: wanted },
        ) => a == b && match (length, wanted) {
            (Ok(n), Ok(m)) => n == m,
            (Err(reason), Err(wanted)) => reason@ == wanted,
            _ => false,
        },
        _ => false,
    }
}

/// Whether the declared fields are those that were read, one by one.
pub open spec fn are_fields(given: Seq<FieldDeclaration>, read: Seq<FieldSource>) -> bool {
    &&& given.len() == read.len()
    &&& forall|i: int|
        0 <= i < given.len() ==> (#[trigger] given[i]).name@ == read[i].name && is_type(
            given[i].ty,
            read[i].ty,
        ) && arguments::attribute_views(given[i].attributes@) == read[i].attributes
}

/// A model is made of what its source says: the options of its arguments, the name of its struct and
/// its fields one by one. What cannot be read is refused with the reason.
pub proof fn a_model_is_made_of_its_source(
    given: Seq<char>,
    item: Seq<char>,
    outcome: Result<ModelPlan, String>,
)
    requires
        reading::dynamic_model::model_expands(given, item, outcome),
    ensures
        ({
            let list = reading::dynamic_model::model_arguments_of(given);
            let found = source::syn_struct(item);
            &&& list matches Err(reason) ==> (outcome matches Err(message) && message@ == reason)
            &&& list is Ok && model::options_of(list->Ok_0, list->Ok_0.len()) is Ok ==> {
                &&& found matches Err(reason) ==> (outcome matches Err(message) && message@
                    == reason)
                &&& found matches Ok(parts) ==> {
                    &&& parts.fields matches StructFieldsView::Named(texts) ==> {
                        let read = reading::dynamic_model::fields_of(texts, texts.len());
                        &&& read matches Err(reason) ==> (outcome matches Err(message) && message@
                            == reason)
                        &&& read is Ok ==> exists|declaration: ModelDeclaration|
                            {
                                &&& #[trigger] model::model_outcome_is(declaration, outcome)
                                &&& declaration.name@ == parts.name
                                &&& declaration.arguments is Ok
                                &&& model::model_argument_views(
                                    (declaration.arguments->Ok_0)@,
                                ) == list->Ok_0
                                &&& declaration.fields is Some
                                &&& are_fields((declaration.fields->0)@, read->Ok_0)
                            }
                    }
                    &&& !(parts.fields is Named) ==> outcome is Err
                }
            }
        }),
{
    let list = reading::dynamic_model::model_arguments_of(given);
    let found = source::syn_struct(item);
    if list is Ok && model::options_of(list->Ok_0, list->Ok_0.len()) is Ok && found is Ok {
        let parts = found->Ok_0;
        let fields = reading::dynamic_model::struct_fields_of(parts.fields);
        if fields is Ok {
            let declaration = choose|declaration: ModelDeclaration|
                reading::dynamic_model::is_model_declaration(
                    declaration,
                    parts.name,
                    list->Ok_0,
                    fields->Ok_0,
                ) && #[trigger] model::model_outcome_is(declaration, outcome);
            assert(model::model_outcome_is(declaration, outcome));
            if parts.fields is Named {
                let declared = (declaration.fields->0)@;
                let read = fields->Ok_0->0;
                assert(reading::dynamic_model::shown_fields(declared) == read);
                assert forall|i: int| 0 <= i < declared.len() implies (
                #[trigger] declared[i]).name@ == read[i].name && is_type(declared[i].ty, read[i].ty)
                    && arguments::attribute_views(declared[i].attributes@) == read[i].attributes by {
                    assert(reading::dynamic_model::shown_fields(declared)[i] == read[i]);
                }
                assert(are_fields(declared, read));
            }
        }
    }
}

/// The arguments of a model are its pairs. Where there is more than pairs among them each may be a pair
/// or the word for tasks, and anything else is refused for what was wrong with the pairs.
pub proof fn the_arguments_of_a_model_are_pairs_and_a_word(given: Seq<char>, i: int)
    ensures
        ({
            let pairs = reading::arguments_of(given);
            let outcome = reading::dynamic_model::model_arguments_of(given);
            &&& pairs matches Ok(list) ==> {
                &&& outcome is Ok
                &&& outcome->Ok_0.len() == list.len()
                &&& 0 <= i < list.len() ==> outcome->Ok_0[i] == ModelArgumentView::Pair(list[i])
            }
            &&& pairs matches Err(reason) ==> match source::syn_metas(given) {
                Err(_) => outcome == Err::<Seq<ModelArgumentView>, Seq<char>>(reason),
                Ok(metas) => {
                    &&& 0 <= i < metas.len() && (metas[i] is List || (metas[i] is Word && metas[i]
                        != MetaView::Word(Some("tasks"@)))) ==> outcome == Err::<
                        Seq<ModelArgumentView>,
                        Seq<char>,
                    >(reason)
                    &&& outcome is Ok ==> {
                        &&& outcome->Ok_0.len() == metas.len()
                        &&& 0 <= i < metas.len() ==> {
                            &&& metas[i] is Word ==> outcome->Ok_0[i] == ModelArgumentView::Word(
                                "tasks"@,
                            )
                            &&& metas[i] matches MetaView::Pair(name, value) ==> {
                                let pair = outcome->Ok_0[i];
                                &&& pair is Pair
                                &&& pair->Pair_0.value == source::syn_value(value)
                                &&& name matches Some(name) ==> pair->Pair_0.name == name
                            }
                        }
                    }
                },
            }
        }),
{
}

/// Whether the declared fields are those that were read, one by one and mark by mark.
pub open spec fn are_marked_fields(given: Seq<MarkedField>, read: Seq<MarkedSource>) -> bool {
    &&& given.len() == read.len()
    &&& forall|i: int|
        0 <= i < given.len() ==> (#[trigger] given[i]).name@ == read[i].name && are_marks(
            given[i],
            read[i],
        )
}

/// Whether the marks of a field are those that were read.
pub open spec fn are_marks(given: MarkedField, read: MarkedSource) -> bool {
    &&& given.marks@.len() == read.marks.len()
    &&& forall|k: int|
        0 <= k < given.marks@.len() ==> (#[trigger] given.marks@[k]).name@ == read.marks[k].name
            && parts::argument_shown(given.marks@[k].argument) == read.marks[k].argument
}

proof fn marked_fields_are_shown(given: Seq<MarkedField>, read: Seq<MarkedSource>)
    requires
        reading::components::shown_marked_fields(given) == read,
    ensures
        are_marked_fields(given, read),
{
    assert forall|i: int| 0 <= i < given.len() implies (#[trigger] given[i]).name@ == read[i].name
        && are_marks(given[i], read[i]) by {
        assert(reading::components::shown_marked_fields(given)[i] == read[i]);
        assert forall|k: int| 0 <= k < given[i].marks@.len() implies (
        #[trigger] given[i].marks@[k]).name@ == read[i].marks[k].name && parts::argument_shown(
            given[i].marks@[k].argument,
        ) == read[i].marks[k].argument by {
            assert(reading::components::shown_marks(given[i].marks@)[k] == read[i].marks[k]);
        }
    }
}

/// An actuator is made of what its source says: its arguments, the name of its struct and its fields
/// one by one.
pub proof fn an_actuator_is_made_of_its_source(
    given: Seq<char>,
    item: Seq<char>,
    outcome: Result<ActuatorPlan, String>,
)
    requires
        reading::components::actuator_expands(given, item, outcome),
    ensures
        ({
            let list = reading::arguments_of(given);
            let args = parts::actuator_args_of(list);
            let found = source::syn_struct(item);
            &&& args matches Err(reason) ==> (outcome matches Err(message) && message@ == reason)
            &&& args is Ok && found is Err ==> (outcome matches Err(message) && message@
                == found->Err_0)
            &&& args is Ok && found is Ok ==> {
                let fields = found->Ok_0.fields;
                &&& fields matches StructFieldsView::Named(texts) ==> {
                    let read = reading::components::marked_fields_of(texts, texts.len());
                    &&& read matches Err(reason) ==> (outcome matches Err(message) && message@
                        == reason)
                    &&& read is Ok ==> exists|declaration: ActuatorDeclaration|
                        {
                            &&& #[trigger] parts::actuator_outcome_is(declaration, outcome)
                            &&& declaration.name@ == found->Ok_0.name
                            &&& parts::arguments_shown(declaration.arguments) == list
                            &&& declaration.fields is Some
                            &&& are_marked_fields((declaration.fields->0)@, read->Ok_0)
                        }
                }
                &&& !(fields is Named) ==> outcome is Err
            }
        }),
{
    let list = reading::arguments_of(given);
    let found = source::syn_struct(item);
    if parts::actuator_args_of(list) is Ok && found is Ok {
        let marked = reading::components::struct_marks_of(found->Ok_0.fields);
        if marked is Ok {
            let declaration = choose|declaration: ActuatorDeclaration|
                {
                    &&& #[trigger] parts::actuator_outcome_is(declaration, outcome)
                    &&& declaration.name@ == found->Ok_0.name
                    &&& parts::arguments_shown(declaration.arguments) == list
                    &&& reading::components::are_marked(declaration.fields, marked->Ok_0)
                };
            assert(parts::actuator_outcome_is(declaration, outcome));
            if found->Ok_0.fields is Named {
                marked_fields_are_shown((declaration.fields->0)@, marked->Ok_0->0);
            }
        }
    }
}

/// A sensor is made of what its source says: its argument, the name of its struct, and that this has
/// no fields.
pub proof fn a_sensor_is_made_of_its_source(
    given: Seq<char>,
    item: Seq<char>,
    outcome: Result<SensorPlan, String>,
)
    requires
        reading::components::sensor_expands(given, item, outcome),
    ensures
        ({
            let key = parts::key_arg_of(reading::single_argument_of(given));
            let found = source::syn_struct(item);
            &&& key matches Err(reason) ==> (outcome matches Err(message) && message@ == reason)
            &&& key is Ok && found is Err ==> (outcome matches Err(message) && message@
                == found->Err_0)
            &&& key is Ok && found is Ok && found->Ok_0.fields is Unit ==> (outcome matches Ok(plan)
                && plan.name@ == found->Ok_0.name && plan.key@ == key->Ok_0)
            &&& key is Ok && found is Ok && !(found->Ok_0.fields is Unit) ==> outcome is Err
        }),
{
    let key = parts::key_arg_of(reading::single_argument_of(given));
    let found = source::syn_struct(item);
    if key is Ok && found is Ok {
        let declaration = choose|declaration: SensorDeclaration|
            {
                &&& #[trigger] parts::sensor_outcome_is(declaration, outcome)
                &&& declaration.name@ == found->Ok_0.name
                &&& parts::argument_shown(declaration.argument) == reading::single_argument_of(
                    given,
                )
                &&& declaration.has_fields == (found->Ok_0.fields != StructFieldsView::Unit)
            };
        assert(parts::sensor_outcome_is(declaration, outcome));
    }
}

/// A controller is made of what its source says: its argument, the name of its struct and its fields
/// one by one.
pub proof fn a_controller_is_made_of_its_source(
    given: Seq<char>,
    item: Seq<char>,
    outcome: Result<ControllerPlan, String>,
)
    requires
        reading::components::controller_expands(given, item, outcome),
    ensures
        ({
            let argument = reading::single_argument_of(given);
            let name = parts::name_arg_of(argument);
            let found = source::syn_struct(item);
            &&& name matches Err(reason) ==> (outcome matches Err(message) && message@ == reason)
            &&& name is Ok && found is Err ==> (outcome matches Err(message) && message@
                == found->Err_0)
            &&& name is Ok && found is Ok ==> {
                let fields = found->Ok_0.fields;
                &&& fields matches StructFieldsView::Named(texts) ==> {
                    let read = reading::components::marked_fields_of(texts, texts.len());
                    &&& read matches Err(reason) ==> (outcome matches Err(message) && message@
                        == reason)
                    &&& read is Ok ==> exists|declaration: ControllerDeclaration|
                        {
                            &&& #[trigger] parts::controller_outcome_is(declaration, outcome)
                            &&& declaration.name@ == found->Ok_0.name
                            &&& parts::argument_shown(declaration.argument) == argument
                            &&& declaration.fields is Some
                            &&& are_marked_fields((declaration.fields->0)@, read->Ok_0)
                        }
                }
                &&& !(fields is Named) ==> outcome is Err
            }
        }),
{
    let argument = reading::single_argument_of(given);
    let found = source::syn_struct(item);
    if parts::name_arg_of(argument) is Ok && found is Ok {
        let marked = reading::components::struct_marks_of(found->Ok_0.fields);
        if marked is Ok {
            let declaration = choose|declaration: ControllerDeclaration|
                {
                    &&& #[trigger] parts::controller_outcome_is(declaration, outcome)
                    &&& declaration.name@ == found->Ok_0.name
                    &&& parts::argument_shown(declaration.argument) == argument
                    &&& reading::components::are_marked(declaration.fields, marked->Ok_0)
                };
            assert(parts::controller_outcome_is(declaration, outcome));
            if found->Ok_0.fields is Named {
                marked_fields_are_shown((declaration.fields->0)@, marked->Ok_0->0);
            }
        }
    }
}

/// Whether the declared items are those that were read, one by one.
pub open spec fn are_items(given: Seq<ImplItem>, read: Seq<Option<MethodSource>>) -> bool {
    &&& given.len() == read.len()
    &&& forall|i: int|
        0 <= i < given.len() ==> match ((#[trigger] given[i]), read[i]) {
            (ImplItem::Method(method), Some(source)) => {
                &&& method.name@ == source.name
                &&& arguments::attribute_views(method.attributes@) == source.attributes
                &&& method.parameters == source.parameters
            },
            (ImplItem::Other, None) => true,
            _ => false,
        }
}

/// The tasks of a unit are made of what its source says: the last name of its path is the owner, and
/// its items are read one by one. Arguments are refused.
pub proof fn tasks_are_made_of_their_source(
    given: Seq<char>,
    item: Seq<char>,
    outcome: Result<Vec<Option<TaskPlan>>, String>,
)
    requires
        reading::tasks::tasks_expand(given, item, outcome),
    ensures
        given.len() > 0 ==> (outcome matches Err(message) && message@
            == "#[monjolo::tasks] não aceita argumentos"@),
        given.len() == 0 ==> match source::syn_impl(item) {
            Err(reason) => outcome matches Err(message) && message@ == reason,
            Ok(found) => {
                let items = reading::tasks::items_of(found.items, found.items.len());
                &&& items matches Err(reason) ==> (outcome matches Err(message) && message@
                    == reason)
                &&& items is Ok ==> exists|declaration: ImplDeclaration|
                    {
                        &&& #[trigger] reading::tasks::are_tasks(outcome, declaration)
                        &&& !declaration.has_arguments
                        &&& declaration.for_trait == found.for_trait
                        &&& declaration.self_type@ == found.self_type
                        &&& are_items(declaration.items@, items->Ok_0)
                        &&& found.path is None ==> declaration.owner is None
                        &&& found.path matches Some(names) ==> (names.len() > 0 ==> (
                        declaration.owner matches Some(owner) && owner@ == names[names.len() - 1]))
                    }
            },
        },
{
    if given.len() == 0 && source::syn_impl(item) is Ok {
        let found = source::syn_impl(item)->Ok_0;
        let items = reading::tasks::items_of(found.items, found.items.len());
        if items is Ok {
            let declaration = choose|declaration: ImplDeclaration|
                {
                    &&& #[trigger] reading::tasks::are_tasks(outcome, declaration)
                    &&& !declaration.has_arguments
                    &&& declaration.for_trait == found.for_trait
                    &&& source::shown_name(declaration.owner) == reading::tasks::owner_of(found.path)
                    &&& declaration.self_type@ == found.self_type
                    &&& reading::tasks::shown_items(declaration.items@) == items->Ok_0
                };
            let given_items = declaration.items@;
            assert forall|i: int| 0 <= i < given_items.len() implies match ((
            #[trigger] given_items[i]), items->Ok_0[i]) {
                (ImplItem::Method(method), Some(source)) => {
                    &&& method.name@ == source.name
                    &&& arguments::attribute_views(method.attributes@) == source.attributes
                    &&& method.parameters == source.parameters
                },
                (ImplItem::Other, None) => true,
                _ => false,
            } by {
                assert(reading::tasks::shown_items(given_items)[i] == items->Ok_0[i]);
            }
            assert(are_items(given_items, items->Ok_0));
            assert(reading::tasks::are_tasks(outcome, declaration));
        }
    }
}

/// The tasks that come out are those that the declaration means, one by one.
pub proof fn tasks_come_out_as_they_are_meant(
    outcome: Result<Vec<Option<TaskPlan>>, String>,
    declaration: ImplDeclaration,
    i: int,
)
    requires
        reading::tasks::are_tasks(outcome, declaration),
    ensures
        outcome is Ok <==> tasks::tasks_of(declaration) is Ok,
        outcome matches Err(message) ==> tasks::tasks_of(declaration)->Err_0 == message@,
        outcome matches Ok(planned) ==> {
            let wanted = tasks::tasks_of(declaration)->Ok_0;
            &&& planned@.len() == wanted.len()
            &&& 0 <= i < planned@.len() ==> match planned@[i] {
                Some(task) => wanted[i] == Some(task@),
                None => wanted[i] is None,
            }
        },
{
    if outcome is Ok {
        let planned = outcome->Ok_0;
        if 0 <= i < planned@.len() {
            a_task_is_seen_at(planned@, i);
        }
        assert(tasks::task_views(planned@).len() == planned@.len());
    }
}

proof fn a_task_is_seen_at(list: Seq<Option<TaskPlan>>, i: int)
    requires
        0 <= i < list.len(),
    ensures
        match list[i] {
            Some(task) => tasks::task_views(list)[i] == Some(task@),
            None => tasks::task_views(list)[i] is None,
        },
{
}

} // verus!
