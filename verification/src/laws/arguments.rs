//! Laws of the arguments of an annotation.
use crate::declaration::arguments;
use crate::declaration::arguments::{ArgumentView, KeySpecView, LiteralView};
use crate::declaration::model;
use crate::declaration::model::ModelArgumentView;
use crate::declaration::parts;
use vstd::prelude::*;

verus! {

/// Whether the argument at the place is the last one with the name.
pub open spec fn last_named(list: Seq<ArgumentView>, n: int, name: Seq<char>, at: int) -> bool {
    &&& 0 <= at < n
    &&& list[at].name == name
    &&& forall|later: int| at < later < n ==> (#[trigger] list[later]).name != name
}

/// Whether one of the first `n` arguments has the name.
pub open spec fn is_given(list: Seq<ArgumentView>, n: int, name: Seq<char>) -> bool {
    exists|i: int| 0 <= i < n && (#[trigger] list[i]).name == name
}

/// Whether what was kept is the text of the last argument with the name, and nothing where there is
/// none.
pub open spec fn keeps_last_text(
    list: Seq<ArgumentView>,
    n: int,
    name: Seq<char>,
    kept: Option<Seq<char>>,
) -> bool {
    &&& kept is Some <==> is_given(list, n, name)
    &&& forall|at: int| #[trigger]
        last_named(list, n, name, at) ==> kept is Some && list[at].value == LiteralView::Text(kept->0)
}

/// Whether what was kept is the list of the last argument with the name, text by text, and nothing
/// where there is none.
pub open spec fn keeps_last_list(
    list: Seq<ArgumentView>,
    n: int,
    name: Seq<char>,
    kept: Option<Seq<Seq<char>>>,
) -> bool {
    &&& kept is Some <==> is_given(list, n, name)
    &&& forall|at: int| #[trigger]
        last_named(list, n, name, at) ==> kept is Some && is_list(list[at].value, kept->0)
}

/// Whether the value is a list of these texts.
pub open spec fn is_list(value: LiteralView, texts: Seq<Seq<char>>) -> bool {
    &&& value is List
    &&& value->List_0.len() == texts.len()
    &&& forall|i: int| 0 <= i < texts.len() ==> value->List_0[i] == Some(#[trigger] texts[i])
}

/// Whether the value is a list in which something is no text.
pub open spec fn has_no_text_at(value: LiteralView, i: int) -> bool {
    value is List && 0 <= i < value->List_0.len() && value->List_0[i] is None
}

/// A text is read as itself and a list of texts as its texts, one by one. Anything else is refused.
pub proof fn a_literal_is_read_as_it_stands(value: LiteralView)
    ensures
        forall|text: Seq<char>|
            value == LiteralView::Text(text) <==> #[trigger] arguments::text_of(value) == Ok::<
                Seq<char>,
                Seq<char>,
            >(text),
        !(value is Text) ==> arguments::text_of(value) == Err::<Seq<char>, _>(
            "esperada uma string literal"@,
        ),
        arguments::texts_of(value) matches Ok(texts) ==> is_list(value, texts),
        forall|texts: Seq<Seq<char>>| #[trigger]
            is_list(value, texts) ==> arguments::texts_of(value) == Ok::<
                Seq<Seq<char>>,
                Seq<char>,
            >(texts),
        forall|i: int| #[trigger]
            has_no_text_at(value, i) ==> arguments::texts_of(value) == Err::<Seq<Seq<char>>, _>(
                "esperada uma string literal"@,
            ),
        !(value is List) ==> arguments::texts_of(value) == Err::<Seq<Seq<char>>, _>(
            "esperado um array de strings, ex.: [\"a\", \"b\"]"@,
        ),
{
    assert forall|texts: Seq<Seq<char>>| #[trigger] is_list(value, texts) implies
        arguments::texts_of(value) == Ok::<Seq<Seq<char>>, Seq<char>>(texts) by {
        let list = value->List_0;
        assert forall|i: int| 0 <= i < list.len() implies (#[trigger] list[i]) is Some by {
            assert(list[i] == Some(texts[i]));
        }
        assert forall|i: int| 0 <= i < list.len() implies list[i]->0 == #[trigger] texts[i] by {
            assert(list[i] == Some(texts[i]));
        }
        assert(Seq::new(list.len(), |i: int| list[i]->0) =~= texts);
    }
}

/// A key is one key, or a list of keys that begin with the same prefix and end with their own
/// component.
pub proof fn a_key_list_joins_prefix_and_component(
    key: Seq<char>,
    prefix: Seq<char>,
    components: Seq<Seq<char>>,
)
    ensures
        KeySpecView::Scalar(key).keys() == seq![key],
        KeySpecView::Scalar(key).array_length() is None,
        KeySpecView::Array(prefix, components).keys().len() == components.len(),
        KeySpecView::Array(prefix, components).array_length() == Some(components.len()),
        forall|i: int|
            0 <= i < components.len() ==> KeySpecView::Array(prefix, components).keys()[i] == prefix
                + "."@ + #[trigger] components[i],
{
}

/// What is wrong with one argument of a key, if anything is.
pub open spec fn key_fault(argument: ArgumentView) -> Option<Seq<char>> {
    if argument.name == "key"@ || argument.name == "prefix"@ {
        if argument.value is Text {
            None
        } else {
            Some("esperada uma string literal"@)
        }
    } else if argument.name == "components"@ {
        match argument.value {
            LiteralView::List(list) => if exists|i: int|
                0 <= i < list.len() && (#[trigger] list[i]) is None {
                Some("esperada uma string literal"@)
            } else {
                None
            },
            _ => Some("esperado um array de strings, ex.: [\"a\", \"b\"]"@),
        }
    } else {
        Some("esperado `key`, `prefix` ou `components`"@)
    }
}

/// Whether nothing is wrong with the first `n` arguments of a key.
pub open spec fn no_key_fault(list: Seq<ArgumentView>, n: int) -> bool {
    forall|i: int| 0 <= i < n ==> key_fault(#[trigger] list[i]) is None
}

proof fn names_of_arguments_differ()
    ensures
        "key"@ != "prefix"@,
        "key"@ != "components"@,
        "prefix"@ != "components"@,
        "key"@ != "config"@,
{
    reveal_strlit("key");
    reveal_strlit("prefix");
    reveal_strlit("components");
    reveal_strlit("config");
    assert("key"@.len() == 3);
    assert("prefix"@.len() == 6);
    assert("components"@.len() == 10);
    assert("config"@.len() == 6);
}

proof fn a_text_is_kept(
    list: Seq<ArgumentView>,
    n: int,
    name: Seq<char>,
    earlier: Option<Seq<char>>,
    kept: Option<Seq<char>>,
)
    requires
        0 < n <= list.len(),
        keeps_last_text(list, n - 1, name, earlier),
        list[n - 1].name == name ==> kept is Some && list[n - 1].value == LiteralView::Text(kept->0),
        list[n - 1].name != name ==> kept == earlier,
    ensures
        keeps_last_text(list, n, name, kept),
{
    if is_given(list, n, name) && list[n - 1].name != name {
        let i = choose|i: int| 0 <= i < n && (#[trigger] list[i]).name == name;
        assert(i < n - 1);
        assert(is_given(list, n - 1, name));
    }
    if is_given(list, n - 1, name) {
        let i = choose|i: int| 0 <= i < n - 1 && (#[trigger] list[i]).name == name;
        assert(list[i].name == name);
    }
    assert forall|at: int| #[trigger] last_named(list, n, name, at) implies kept is Some
        && list[at].value == LiteralView::Text(kept->0) by {
        if at < n - 1 {
            assert(list[n - 1].name != name);
            assert(last_named(list, n - 1, name, at));
        }
    }
}

proof fn a_list_is_kept(
    list: Seq<ArgumentView>,
    n: int,
    name: Seq<char>,
    earlier: Option<Seq<Seq<char>>>,
    kept: Option<Seq<Seq<char>>>,
)
    requires
        0 < n <= list.len(),
        keeps_last_list(list, n - 1, name, earlier),
        list[n - 1].name == name ==> kept is Some && is_list(list[n - 1].value, kept->0),
        list[n - 1].name != name ==> kept == earlier,
    ensures
        keeps_last_list(list, n, name, kept),
{
    if is_given(list, n, name) && list[n - 1].name != name {
        let i = choose|i: int| 0 <= i < n && (#[trigger] list[i]).name == name;
        assert(i < n - 1);
        assert(is_given(list, n - 1, name));
    }
    if is_given(list, n - 1, name) {
        let i = choose|i: int| 0 <= i < n - 1 && (#[trigger] list[i]).name == name;
        assert(list[i].name == name);
    }
    assert forall|at: int| #[trigger] last_named(list, n, name, at) implies kept is Some && is_list(
        list[at].value,
        kept->0,
    ) by {
        if at < n - 1 {
            assert(list[n - 1].name != name);
            assert(last_named(list, n - 1, name, at));
        }
    }
}

proof fn key_parts_are_the_last(list: Seq<ArgumentView>, n: nat)
    requires
        n <= list.len(),
    ensures
        forall|i: int|
            0 <= i < n && no_key_fault(list, i) && key_fault(#[trigger] list[i]) is Some
                ==> arguments::key_parts(list, n) == Err::<arguments::KeyParts, _>(
                key_fault(list[i])->0,
            ),
        no_key_fault(list, n as int) ==> {
            &&& arguments::key_parts(list, n) is Ok
            &&& keeps_last_text(list, n as int, "key"@, arguments::key_parts(list, n)->Ok_0.key)
            &&& keeps_last_text(
                list,
                n as int,
                "prefix"@,
                arguments::key_parts(list, n)->Ok_0.prefix,
            )
            &&& keeps_last_list(
                list,
                n as int,
                "components"@,
                arguments::key_parts(list, n)->Ok_0.components,
            )
        },
    decreases n,
{
    names_of_arguments_differ();
    if n > 0 {
        let m = (n - 1) as nat;
        key_parts_are_the_last(list, m);
        a_literal_is_read_as_it_stands(list[m as int].value);
        let value = list[m as int].value;
        if value is List {
            let items = value->List_0;
            if exists|i: int| 0 <= i < items.len() && (#[trigger] items[i]) is None {
                let i = choose|i: int| 0 <= i < items.len() && (#[trigger] items[i]) is None;
                assert(has_no_text_at(value, i));
            } else {
                assert(is_list(value, Seq::new(items.len(), |i: int| items[i]->0)));
            }
        }
        if no_key_fault(list, n as int) {
            assert(no_key_fault(list, m as int));
            assert(key_fault(list[m as int]) is None);
            let earlier = arguments::key_parts(list, m)->Ok_0;
            let parts = arguments::key_parts(list, n)->Ok_0;
            a_text_is_kept(list, n as int, "key"@, earlier.key, parts.key);
            a_text_is_kept(list, n as int, "prefix"@, earlier.prefix, parts.prefix);
            a_list_is_kept(list, n as int, "components"@, earlier.components, parts.components);
        }
        assert forall|i: int|
            0 <= i < n && no_key_fault(list, i) && key_fault(#[trigger] list[i]) is Some implies
            arguments::key_parts(list, n) == Err::<arguments::KeyParts, _>(
            key_fault(list[i])->0,
        ) by {
            if i < m {
                assert(arguments::key_parts(list, m) is Err);
            } else {
                assert(arguments::key_parts(list, m) is Ok);
            }
        }
    }
}

/// A key is read from its arguments. The first argument that is wrong is the reason of a refusal. Else
/// a key alone is one key, a prefix with components a list, and of an argument that is repeated the
/// last counts; nothing at all, or a mixture, is refused.
pub proof fn a_key_is_read_from_its_arguments(list: Seq<ArgumentView>, at: int, other: int)
    ensures
        0 <= at < list.len() && no_key_fault(list, at) && key_fault(list[at]) is Some
            ==> arguments::key_spec_of(Ok(list)) == Err::<KeySpecView, _>(key_fault(list[at])->0),
        no_key_fault(list, list.len() as int) ==> ({
            let n = list.len() as int;
            let key = is_given(list, n, "key"@);
            let prefix = is_given(list, n, "prefix"@);
            let components = is_given(list, n, "components"@);
            let outcome = arguments::key_spec_of(Ok(list));
            &&& key && !prefix && !components && last_named(list, n, "key"@, at) ==> (
            outcome matches Ok(KeySpecView::Scalar(found)) && list[at].value == LiteralView::Text(
                found,
            ))
            &&& !key && prefix && components && last_named(list, n, "prefix"@, at) && last_named(
                list,
                n,
                "components"@,
                other,
            ) ==> (outcome matches Ok(KeySpecView::Array(found, parts)) && list[at].value
                == LiteralView::Text(found) && is_list(list[other].value, parts))
            &&& !key && !prefix && !components ==> outcome == Err::<KeySpecView, _>(
                "esperado `key = \"...\"` ou `prefix = \"...\", components = [...]`"@,
            )
            &&& (key && (prefix || components)) || prefix != components ==> outcome == Err::<
                KeySpecView,
                _,
            >(
                "use `key = \"...\"` (escalar) OU `prefix`+`components` (array), não uma mistura"@,
            )
        }),
{
    key_parts_are_the_last(list, list.len());
}

/// What could not be read at all is refused with its own reason.
pub proof fn an_unread_key_keeps_its_reason(reason: Seq<char>)
    ensures
        arguments::key_spec_of(Err(reason)) == Err::<KeySpecView, _>(reason),
        parts::actuator_args_of(Err(reason)) == Err::<parts::ActuatorArgsView, _>(reason),
{
}

/// What is wrong with one argument of an actuator, if anything is.
pub open spec fn actuator_fault(argument: ArgumentView) -> Option<Seq<char>> {
    if argument.name == "key"@ || argument.name == "config"@ {
        if argument.value is Text {
            None
        } else {
            Some("esperada uma string literal"@)
        }
    } else {
        Some("esperado `key` ou `config`"@)
    }
}

/// Whether nothing is wrong with the first `n` arguments of an actuator.
pub open spec fn no_actuator_fault(list: Seq<ArgumentView>, n: int) -> bool {
    forall|i: int| 0 <= i < n ==> actuator_fault(#[trigger] list[i]) is None
}

proof fn actuator_parts_are_the_last(list: Seq<ArgumentView>, n: nat)
    requires
        n <= list.len(),
    ensures
        forall|i: int|
            0 <= i < n && no_actuator_fault(list, i) && actuator_fault(#[trigger] list[i]) is Some
                ==> parts::actuator_parts(list, n) == Err::<parts::ActuatorParts, _>(
                actuator_fault(list[i])->0,
            ),
        no_actuator_fault(list, n as int) ==> {
            &&& parts::actuator_parts(list, n) is Ok
            &&& keeps_last_text(list, n as int, "key"@, parts::actuator_parts(list, n)->Ok_0.key)
            &&& keeps_last_text(
                list,
                n as int,
                "config"@,
                parts::actuator_parts(list, n)->Ok_0.config,
            )
        },
    decreases n,
{
    names_of_arguments_differ();
    if n > 0 {
        let m = (n - 1) as nat;
        actuator_parts_are_the_last(list, m);
        a_literal_is_read_as_it_stands(list[m as int].value);
        if no_actuator_fault(list, n as int) {
            assert(no_actuator_fault(list, m as int));
            assert(actuator_fault(list[m as int]) is None);
            let earlier = parts::actuator_parts(list, m)->Ok_0;
            let found = parts::actuator_parts(list, n)->Ok_0;
            a_text_is_kept(list, n as int, "key"@, earlier.key, found.key);
            a_text_is_kept(list, n as int, "config"@, earlier.config, found.config);
        }
        assert forall|i: int|
            0 <= i < n && no_actuator_fault(list, i) && actuator_fault(
                #[trigger] list[i],
            ) is Some implies parts::actuator_parts(list, n) == Err::<parts::ActuatorParts, _>(
            actuator_fault(list[i])->0,
        ) by {
            if i < m {
                assert(parts::actuator_parts(list, m) is Err);
            } else {
                assert(parts::actuator_parts(list, m) is Ok);
            }
        }
    }
}

/// An actuator is read from its arguments: it has a key and may have a configured start, each from the
/// last argument of its name. The first argument that is wrong is the reason of a refusal, and without
/// a key there is none.
pub proof fn an_actuator_is_read_from_its_arguments(list: Seq<ArgumentView>, at: int)
    ensures
        0 <= at < list.len() && no_actuator_fault(list, at) && actuator_fault(list[at]) is Some
            ==> parts::actuator_args_of(Ok(list)) == Err::<parts::ActuatorArgsView, _>(
            actuator_fault(list[at])->0,
        ),
        no_actuator_fault(list, list.len() as int) ==> ({
            let n = list.len() as int;
            let outcome = parts::actuator_args_of(Ok(list));
            &&& !is_given(list, n, "key"@) ==> outcome == Err::<parts::ActuatorArgsView, _>(
                "falta `key = \"...\"`"@,
            )
            &&& is_given(list, n, "key"@) ==> {
                &&& outcome is Ok
                &&& keeps_last_text(list, n, "key"@, Some(outcome->Ok_0.key))
                &&& keeps_last_text(list, n, "config"@, outcome->Ok_0.config)
            }
        }),
{
    actuator_parts_are_the_last(list, list.len());
}

/// The one argument of a sensor, a controller or a marked field is its text, as long as it has the
/// name that is asked for.
pub proof fn a_single_argument_is_its_text(argument: ArgumentView, text: Seq<char>, reason: Seq<char>)
    ensures
        argument.name == "key"@ && argument.value == LiteralView::Text(text) ==> {
            &&& parts::key_arg_of(Ok(argument)) == Ok::<Seq<char>, Seq<char>>(text)
            &&& parts::field_key_of(Ok(argument)) == Ok::<Seq<char>, Seq<char>>(text)
        },
        argument.name == "name"@ && argument.value == LiteralView::Text(text)
            ==> parts::name_arg_of(Ok(argument)) == Ok::<Seq<char>, Seq<char>>(text),
        argument.name != "key"@ ==> {
            &&& parts::key_arg_of(Ok(argument)) == Err::<Seq<char>, _>(
                "esperado `key = \"...\"`"@,
            )
            &&& parts::field_key_of(Ok(argument)) == Err::<Seq<char>, _>(
                "esperado `key = \"...\"`"@,
            )
        },
        argument.name != "name"@ ==> parts::name_arg_of(Ok(argument)) == Err::<Seq<char>, _>(
            "esperado `name = \"...\"`"@,
        ),
        argument.name == "key"@ && !(argument.value is Text) ==> {
            &&& parts::key_arg_of(Ok(argument)) == Err::<Seq<char>, _>(
                "`key` precisa ser uma string literal"@,
            )
            &&& parts::field_key_of(Ok(argument)) == Err::<Seq<char>, _>(
                "esperada uma string literal"@,
            )
        },
        argument.name == "name"@ && !(argument.value is Text) ==> parts::name_arg_of(Ok(argument))
            == Err::<Seq<char>, _>("`name` precisa ser uma string literal"@),
        parts::key_arg_of(Err(reason)) == Err::<Seq<char>, _>(reason),
        parts::field_key_of(Err(reason)) == Err::<Seq<char>, _>(reason),
        parts::name_arg_of(Err(reason)) == Err::<Seq<char>, _>(reason),
{
}

/// What is wrong with one argument of a model, if anything is.
pub open spec fn option_fault(argument: ModelArgumentView) -> Option<Seq<char>> {
    match argument {
        ModelArgumentView::Word(word) => if word == "tasks"@ {
            None
        } else {
            Some("esperado `after`"@)
        },
        ModelArgumentView::Pair(pair) => if pair.name == "after"@ {
            match pair.value {
                LiteralView::List(list) => if exists|i: int|
                    0 <= i < list.len() && (#[trigger] list[i]) is None {
                    Some("esperada uma string literal"@)
                } else {
                    None
                },
                _ => Some("esperado um array de strings, ex.: [\"a\", \"b\"]"@),
            }
        } else {
            Some("esperado `after`"@)
        },
    }
}

/// Whether nothing is wrong with the first `n` arguments of a model.
pub open spec fn no_option_fault(list: Seq<ModelArgumentView>, n: int) -> bool {
    forall|i: int| 0 <= i < n ==> option_fault(#[trigger] list[i]) is None
}

/// Whether the arguments from `from` up to `n` are words.
pub open spec fn only_words(list: Seq<ModelArgumentView>, from: int, n: int) -> bool {
    forall|i: int| from <= i < n ==> (#[trigger] list[i]) is Word
}

/// Whether one of the first `n` arguments is a word.
pub open spec fn has_word(list: Seq<ModelArgumentView>, n: int) -> bool {
    exists|i: int| 0 <= i < n && (#[trigger] list[i]) is Word
}

/// Whether the argument is the last list that was given.
pub open spec fn last_list(list: Seq<ModelArgumentView>, n: int, at: int) -> bool {
    0 <= at < n && list[at] is Pair && only_words(list, at + 1, n)
}

/// Whether the names are those of the last list that was given, and none where none was given.
pub open spec fn keeps_last_after(
    list: Seq<ModelArgumentView>,
    n: int,
    after: Seq<Seq<char>>,
) -> bool {
    &&& forall|at: int| #[trigger]
        last_list(list, n, at) ==> is_list(list[at]->Pair_0.value, after)
    &&& only_words(list, 0, n) ==> after.len() == 0
}

proof fn an_option_without_fault(value: LiteralView)
    ensures
        value is List && (exists|i: int|
            0 <= i < value->List_0.len() && (#[trigger] value->List_0[i]) is None)
            ==> arguments::texts_of(value) == Err::<Seq<Seq<char>>, _>(
            "esperada uma string literal"@,
        ),
        value is List && !(exists|i: int|
            0 <= i < value->List_0.len() && (#[trigger] value->List_0[i]) is None)
            ==> arguments::texts_of(value) is Ok && is_list(
            value,
            arguments::texts_of(value)->Ok_0,
        ),
{
    a_literal_is_read_as_it_stands(value);
    if value is List {
        let items = value->List_0;
        if exists|i: int| 0 <= i < items.len() && (#[trigger] items[i]) is None {
            let i = choose|i: int| 0 <= i < items.len() && (#[trigger] items[i]) is None;
            assert(has_no_text_at(value, i));
        } else {
            assert(is_list(value, Seq::new(items.len(), |i: int| items[i]->0)));
        }
    }
}

proof fn the_last_list_is_kept(
    list: Seq<ModelArgumentView>,
    n: int,
    earlier: Seq<Seq<char>>,
    after: Seq<Seq<char>>,
)
    requires
        0 < n <= list.len(),
        keeps_last_after(list, n - 1, earlier),
        list[n - 1] is Word ==> after == earlier,
        list[n - 1] is Pair ==> is_list(list[n - 1]->Pair_0.value, after),
    ensures
        keeps_last_after(list, n, after),
{
    assert forall|at: int| #[trigger] last_list(list, n, at) implies is_list(
        list[at]->Pair_0.value,
        after,
    ) by {
        if at < n - 1 {
            assert(list[n - 1] is Word);
            assert(last_list(list, n - 1, at));
        }
    }
    if only_words(list, 0, n) {
        assert(list[n - 1] is Word);
        assert(only_words(list, 0, n - 1));
    }
}

proof fn options_are_the_last(list: Seq<ModelArgumentView>, n: nat)
    requires
        n <= list.len(),
    ensures
        forall|i: int|
            0 <= i < n && no_option_fault(list, i) && option_fault(#[trigger] list[i]) is Some
                ==> model::options_of(list, n) == Err::<model::OptionsView, _>(
                option_fault(list[i])->0,
            ),
        no_option_fault(list, n as int) ==> {
            &&& model::options_of(list, n) is Ok
            &&& model::options_of(list, n)->Ok_0.tasks <==> has_word(list, n as int)
            &&& keeps_last_after(list, n as int, model::options_of(list, n)->Ok_0.after)
        },
    decreases n,
{
    if n > 0 {
        let m = (n - 1) as nat;
        options_are_the_last(list, m);
        let last = list[m as int];
        if last is Pair {
            a_literal_is_read_as_it_stands(last->Pair_0.value);
            an_option_without_fault(last->Pair_0.value);
        }
        if no_option_fault(list, n as int) {
            assert(no_option_fault(list, m as int));
            assert(option_fault(list[m as int]) is None);
            let earlier = model::options_of(list, m)->Ok_0;
            let found = model::options_of(list, n)->Ok_0;
            assert(model::options_of(list, n) is Ok);
            the_last_list_is_kept(list, n as int, earlier.after, found.after);
            assert(found.tasks <==> has_word(list, n as int)) by {
                if has_word(list, n as int) && !(last is Word) {
                    let i = choose|i: int| 0 <= i < n && (#[trigger] list[i]) is Word;
                    assert(i < m);
                    assert(has_word(list, m as int));
                }
                if has_word(list, m as int) {
                    let i = choose|i: int| 0 <= i < m && (#[trigger] list[i]) is Word;
                    assert(list[i] is Word);
                }
            }
        }
        assert forall|i: int|
            0 <= i < n && no_option_fault(list, i) && option_fault(#[trigger] list[i]) is Some implies
            model::options_of(list, n) == Err::<model::OptionsView, _>(
            option_fault(list[i])->0,
        ) by {
            if i < m {
                assert(model::options_of(list, m) is Err);
            } else {
                assert(model::options_of(list, m) is Ok);
            }
        }
    }
}

/// The options of a model are read from its arguments: it has tasks where the word is among them, and
/// comes after the names of the last list that is given. The first argument that is wrong is the
/// reason of a refusal.
pub proof fn options_are_read_from_the_arguments(list: Seq<ModelArgumentView>, at: int)
    ensures
        0 <= at < list.len() && no_option_fault(list, at) && option_fault(list[at]) is Some
            ==> model::options_of(list, list.len()) == Err::<model::OptionsView, _>(
            option_fault(list[at])->0,
        ),
        no_option_fault(list, list.len() as int) ==> {
            let outcome = model::options_of(list, list.len());
            &&& outcome is Ok
            &&& outcome->Ok_0.tasks <==> has_word(list, list.len() as int)
            &&& keeps_last_after(list, list.len() as int, outcome->Ok_0.after)
        },
{
    options_are_the_last(list, list.len());
}

} // verus!
