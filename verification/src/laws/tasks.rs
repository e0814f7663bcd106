//! Laws of the tasks of a unit, and of how declarations are read from the source.
use crate::declaration::arguments;
use crate::declaration::arguments::{AttributeView, KeySpecView};
use crate::declaration::reading;
use crate::declaration::source;
use crate::declaration::source::{AttributePartsView, ImplPartView, TypeView};
use crate::declaration::tasks;
use crate::declaration::tasks::{ImplDeclaration, ImplItem, MethodDeclaration, TaskView};
use crate::text;
use vstd::prelude::*;

verus! {

/// Whether the keys are those of the attributes at these places, in the same order, and these are all
/// the attributes with the name.
pub open spec fn picks_marks(
    attributes: Seq<AttributeView>,
    n: int,
    name: Seq<char>,
    keys: Seq<KeySpecView>,
    places: Seq<int>,
) -> bool {
    &&& places.len() == keys.len()
    &&& forall|k: int|
        0 <= k < places.len() ==> 0 <= #[trigger] places[k] < n && arguments::key_spec_of(
            attributes[places[k]].arguments,
        ) == Ok::<KeySpecView, Seq<char>>(keys[k])
    &&& forall|k: int, l: int|
        0 <= k < l < places.len() ==> #[trigger] places[k] < #[trigger] places[l]
    &&& forall|i: int|
        0 <= i < n ==> (places.contains(i) <==> (#[trigger] attributes[i]).name == name)
}

proof fn one_more_place(
    attributes: Seq<AttributeView>,
    n: int,
    name: Seq<char>,
    before: Seq<KeySpecView>,
    keys: Seq<KeySpecView>,
    earlier: Seq<int>,
) -> (places: Seq<int>)
    requires
        0 < n <= attributes.len(),
        picks_marks(attributes, n - 1, name, before, earlier),
        attributes[n - 1].name == name ==> keys.len() == before.len() + 1 && keys.drop_last()
            == before && arguments::key_spec_of(attributes[n - 1].arguments) == Ok::<
            KeySpecView,
            Seq<char>,
        >(keys.last()),
        attributes[n - 1].name != name ==> keys == before,
    ensures
        picks_marks(attributes, n, name, keys, places),
{
    let places = if attributes[n - 1].name == name {
        earlier.push(n - 1)
    } else {
        earlier
    };
    assert forall|k: int| 0 <= k < places.len() implies 0 <= #[trigger] places[k] < n
        && arguments::key_spec_of(attributes[places[k]].arguments) == Ok::<KeySpecView, Seq<char>>(
        keys[k],
    ) by {
        if k < earlier.len() {
            assert(places[k] == earlier[k]);
            if attributes[n - 1].name == name {
                assert(keys[k] == keys.drop_last()[k]);
            }
        }
    }
    assert forall|k: int, l: int| 0 <= k < l < places.len() implies #[trigger] places[k]
        < #[trigger] places[l] by {
        assert(places[k] == earlier[k]);
        if l < earlier.len() {
            assert(places[l] == earlier[l]);
        }
    }
    assert forall|i: int| 0 <= i < n implies (places.contains(i) <==> (
    #[trigger] attributes[i]).name == name) by {
        if i < n - 1 {
            if earlier.contains(i) {
                let k = choose|k: int| 0 <= k < earlier.len() && earlier[k] == i;
                assert(places[k] == i);
            }
            if places.contains(i) {
                let k = choose|k: int| 0 <= k < places.len() && places[k] == i;
                assert(k < earlier.len());
                assert(earlier[k] == i);
            }
        } else {
            if attributes[n - 1].name == name {
                assert(places[places.len() - 1] == n - 1);
            }
            if places.contains(i) {
                let k = choose|k: int| 0 <= k < places.len() && places[k] == i;
                if k < earlier.len() {
                    assert(earlier[k] < n - 1);
                }
            }
        }
    }
    places
}

proof fn task_marks_are_picked(attributes: Seq<AttributeView>, n: nat) -> (places: (
    Seq<int>,
    Seq<int>,
))
    requires
        n <= attributes.len(),
        tasks::task_marks(attributes, n) is Ok,
    ensures
        picks_marks(
            attributes,
            n as int,
            "need"@,
            tasks::task_marks(attributes, n)->Ok_0.needs,
            places.0,
        ),
        picks_marks(
            attributes,
            n as int,
            "offer"@,
            tasks::task_marks(attributes, n)->Ok_0.offers,
            places.1,
        ),
    decreases n,
{
    reveal_strlit("need");
    reveal_strlit("offer");
    assert("need"@.len() == 4 && "offer"@.len() == 5);
    if n == 0 {
        (Seq::empty(), Seq::empty())
    } else {
        let m = (n - 1) as nat;
        let earlier = task_marks_are_picked(attributes, m);
        let before = tasks::task_marks(attributes, m)->Ok_0;
        let marks = tasks::task_marks(attributes, n)->Ok_0;
        if attributes[m as int].name == "need"@ {
            assert(marks.needs.drop_last() =~= before.needs);
        }
        if attributes[m as int].name == "offer"@ {
            assert(marks.offers.drop_last() =~= before.offers);
        }
        let needs = one_more_place(
            attributes,
            n as int,
            "need"@,
            before.needs,
            marks.needs,
            earlier.0,
        );
        let offers = one_more_place(
            attributes,
            n as int,
            "offer"@,
            before.offers,
            marks.offers,
            earlier.1,
        );
        (needs, offers)
    }
}

/// A task needs and offers the keys of all its attributes of that name, in the order in which they
/// stand.
pub proof fn a_task_is_read_from_its_attributes(attributes: Seq<AttributeView>) -> (places: (
    Seq<int>,
    Seq<int>,
))
    requires
        tasks::task_marks(attributes, attributes.len()) is Ok,
    ensures
        picks_marks(
            attributes,
            attributes.len() as int,
            "need"@,
            tasks::task_marks(attributes, attributes.len())->Ok_0.needs,
            places.0,
        ),
        picks_marks(
            attributes,
            attributes.len() as int,
            "offer"@,
            tasks::task_marks(attributes, attributes.len())->Ok_0.offers,
            places.1,
        ),
{
    task_marks_are_picked(attributes, attributes.len())
}

/// Whether the keys of an attribute of a task can be read.
pub open spec fn is_task_fault(attribute: AttributeView) -> bool {
    (attribute.name == "need"@ || attribute.name == "offer"@) && arguments::key_spec_of(
        attribute.arguments,
    ) is Err
}

/// The first attribute of a task whose keys cannot be read is the reason of a refusal, and there is no
/// other.
pub proof fn an_unread_attribute_refuses_the_task(attributes: Seq<AttributeView>, n: nat)
    requires
        n <= attributes.len(),
    ensures
        forall|i: int|
            0 <= i < n && is_task_fault(#[trigger] attributes[i]) && (forall|k: int|
                0 <= k < i ==> !is_task_fault(#[trigger] attributes[k])) ==> tasks::task_marks(
                attributes,
                n,
            ) == Err::<tasks::TaskMarks, _>(
                arguments::key_spec_of(attributes[i].arguments)->Err_0,
            ),
        (forall|k: int| 0 <= k < n ==> !is_task_fault(#[trigger] attributes[k]))
            ==> tasks::task_marks(attributes, n) is Ok,
    decreases n,
{
    if n > 0 {
        let m = (n - 1) as nat;
        an_unread_attribute_refuses_the_task(attributes, m);
        assert forall|i: int|
            0 <= i < n && is_task_fault(#[trigger] attributes[i]) && (forall|k: int|
                0 <= k < i ==> !is_task_fault(#[trigger] attributes[k])) implies tasks::task_marks(
            attributes,
            n,
        ) == Err::<tasks::TaskMarks, _>(
            arguments::key_spec_of(attributes[i].arguments)->Err_0,
        ) by {
            if i < m {
                assert(tasks::task_marks(attributes, m) is Err);
            } else {
                assert(tasks::task_marks(attributes, m) is Ok);
            }
        }
        if forall|k: int| 0 <= k < n ==> !is_task_fault(#[trigger] attributes[k]) {
            assert(!is_task_fault(attributes[m as int]));
        }
    }
}

proof fn rows_are_flat(specs: Seq<KeySpecView>, n: nat)
    requires
        n <= specs.len(),
    ensures
        tasks::keys_in_a_row(specs, n) == Seq::new(n, |i: int| specs[i].keys()).flatten(),
    decreases n,
{
    let parts = Seq::new(n, |i: int| specs[i].keys());
    if n == 0 {
        assert(parts =~= Seq::empty());
        assert(parts.flatten() =~= Seq::empty());
    } else {
        let m = (n - 1) as nat;
        rows_are_flat(specs, m);
        let earlier = Seq::new(m, |i: int| specs[i].keys());
        assert(parts =~= earlier.push(specs[m as int].keys()));
        earlier.lemma_flatten_push(specs[m as int].keys());
    }
}

/// Keys in a row are the keys of every attribute, one after the other; and each attribute has a run
/// that starts behind the keys of those before it and is as long as its own list.
pub proof fn every_key_stands_in_the_row(specs: Seq<KeySpecView>, i: int)
    requires
        0 <= i < specs.len(),
    ensures
        tasks::keys_in_a_row(specs, specs.len()) == Seq::new(
            specs.len(),
            |k: int| specs[k].keys(),
        ).flatten(),
        tasks::runs_of(specs).len() == specs.len(),
        tasks::runs_of(specs)[i].start == Seq::new(
            i as nat,
            |k: int| specs[k].keys(),
        ).flatten().len() as usize,
        specs[i] is Scalar ==> tasks::runs_of(specs)[i].array is None,
        specs[i] matches KeySpecView::Array(_, components) ==> tasks::runs_of(specs)[i].array
            == Some(components.len() as usize),
{
    rows_are_flat(specs, specs.len());
    rows_are_flat(specs, i as nat);
}

/// Whether a name begins with the mark of a raw identifier.
pub open spec fn is_raw(name: Seq<char>) -> bool {
    name.len() >= 2 && name[0] == 'r' && name[1] == '#'
}

/// A raw identifier stands in a name without its mark, and any other as it is.
pub proof fn a_raw_mark_is_left_out(name: Seq<char>)
    ensures
        tasks::as_part(seq!['r', '#'] + name) == name,
        !is_raw(name) ==> tasks::as_part(name) == name,
{
    assert((seq!['r', '#'] + name).skip(2) =~= name);
}

/// A method with attributes that can be read is a task as long as it offers something and has a
/// parameter for each need. It is named after its owner and its method, comes after the type of the
/// unit, and has the keys and the runs of its attributes.
pub proof fn a_task_has_a_parameter_for_each_need(
    owner: Seq<char>,
    self_type: Seq<char>,
    method: MethodDeclaration,
)
    ensures
        ({
            let attributes = arguments::attribute_views(method.attributes@);
            let marks = tasks::task_marks(attributes, attributes.len());
            let outcome = tasks::task_of(owner, self_type, method);
            &&& marks matches Err(reason) ==> outcome == Err::<TaskView, _>(reason)
            &&& marks matches Ok(found) ==> {
                &&& found.offers.len() == 0 ==> outcome == Err::<TaskView, _>(
                    "método marcado com #[need]/#[offer] precisa de pelo menos um #[offer(...)] — sem offer nenhum, esta tarefa não publicaria nada"@,
                )
                &&& found.offers.len() > 0 && method.parameters != found.needs.len() ==> outcome
                    == Err::<TaskView, _>(
                    text::decimal(method.parameters as nat) + " parâmetro(s) declarado(s) mas "@
                        + text::decimal(found.needs.len())
                        + " atributo(s) #[need(...)] — precisa bater 1:1, na ordem em que aparecem (1º #[need] = 1º parâmetro, etc.)"@,
                )
                &&& found.offers.len() > 0 && method.parameters == found.needs.len() ==> (
                outcome matches Ok(task) && {
                    &&& task.name == owner + "::"@ + method.name@
                    &&& task.after == self_type
                    &&& task.holder == "__"@ + tasks::as_part(owner) + "_"@ + tasks::as_part(
                        method.name@,
                    ) + "_Task"@
                    &&& task.implementation == "__"@ + tasks::as_part(method.name@) + "_impl"@
                    &&& task.needs == tasks::keys_in_a_row(found.needs, found.needs.len())
                    &&& task.offers == tasks::keys_in_a_row(found.offers, found.offers.len())
                    &&& task.parameters == tasks::runs_of(found.needs)
                    &&& task.results == tasks::runs_of(found.offers)
                })
            }
        }),
{
}

/// The attributes, arguments and texts of a declaration are those of its entries, one by one.
pub proof fn attributes_keep_name_and_arguments(method: MethodDeclaration, i: int)
    requires
        0 <= i < method.attributes@.len(),
    ensures
        ({
            let attributes = arguments::attribute_views(method.attributes@);
            &&& attributes.len() == method.attributes@.len()
            &&& attributes[i].name == method.attributes@[i].name@
            &&& method.attributes@[i].arguments matches Err(reason) ==> attributes[i].arguments
                == Err::<Seq<arguments::ArgumentView>, _>(reason@)
            &&& method.attributes@[i].arguments matches Ok(list) ==> {
                &&& attributes[i].arguments is Ok
                &&& attributes[i].arguments->Ok_0.len() == list@.len()
                &&& forall|k: int|
                    0 <= k < list@.len() ==> (#[trigger] list@[k]).name@
                        == attributes[i].arguments->Ok_0[k].name && list@[k].value@
                        == attributes[i].arguments->Ok_0[k].value
            }
        }),
{
}

/// What becomes of an item of a unit: a method with an attribute of a task becomes one, anything else
/// none.
pub open spec fn planned_item(
    owner: Seq<char>,
    self_type: Seq<char>,
    item: ImplItem,
) -> Result<Option<TaskView>, Seq<char>> {
    match item {
        ImplItem::Method(method) => if exists|i: int|
            0 <= i < method.attributes@.len() && ((#[trigger] method.attributes@[i]).name@ == "need"@
                || method.attributes@[i].name@ == "offer"@) {
            match tasks::task_of(owner, self_type, method) {
                Ok(task) => Ok(Some(task)),
                Err(reason) => Err(reason),
            }
        } else {
            Ok(None)
        },
        ImplItem::Other => Ok(None),
    }
}

proof fn items_are_planned_in_order(
    owner: Seq<char>,
    self_type: Seq<char>,
    items: Seq<ImplItem>,
    n: nat,
)
    requires
        n <= items.len(),
    ensures
        tasks::items_planned(owner, self_type, items, n) matches Ok(planned) ==> planned.len() == n
            && forall|i: int|
            0 <= i < n ==> planned_item(owner, self_type, #[trigger] items[i]) == Ok::<
                Option<TaskView>,
                Seq<char>,
            >(planned[i]),
        forall|i: int|
            0 <= i < n && planned_item(owner, self_type, #[trigger] items[i]) is Err && (forall|
                k: int,
            |
                0 <= k < i ==> planned_item(owner, self_type, #[trigger] items[k]) is Ok)
                ==> tasks::items_planned(owner, self_type, items, n) == Err::<
                Seq<Option<TaskView>>,
                _,
            >(planned_item(owner, self_type, items[i])->Err_0),
        (forall|k: int| 0 <= k < n ==> planned_item(owner, self_type, #[trigger] items[k]) is Ok)
            ==> tasks::items_planned(owner, self_type, items, n) is Ok,
    decreases n,
{
    if n > 0 {
        let m = (n - 1) as nat;
        items_are_planned_in_order(owner, self_type, items, m);
        match items[m as int] {
            ImplItem::Method(method) => {
                if tasks::is_task(method) {
                    let i = choose|i: int|
                        0 <= i < method.attributes@.len() && tasks::is_task_mark(
                            (#[trigger] method.attributes@[i]).name@,
                        );
                    assert(method.attributes@[i].name@ == "need"@ || method.attributes@[i].name@
                        == "offer"@);
                } else {
                    assert forall|i: int| 0 <= i < method.attributes@.len() implies (
                    #[trigger] method.attributes@[i]).name@ != "need"@
                        && method.attributes@[i].name@ != "offer"@ by {
                        assert(!tasks::is_task_mark(method.attributes@[i].name@));
                    }
                }
            },
            ImplItem::Other => {},
        }
        assert forall|i: int|
            0 <= i < n && planned_item(owner, self_type, #[trigger] items[i]) is Err && (forall|
                k: int,
            |
                0 <= k < i ==> planned_item(owner, self_type, #[trigger] items[k]) is Ok) implies
            tasks::items_planned(owner, self_type, items, n) == Err::<Seq<Option<TaskView>>, _>(
            planned_item(owner, self_type, items[i])->Err_0,
        ) by {
            if i < m {
                assert(tasks::items_planned(owner, self_type, items, m) is Err);
            } else {
                assert(tasks::items_planned(owner, self_type, items, m) is Ok);
            }
        }
    }
}

/// A unit is planned item by item in the order in which they stand, and the first item that cannot be
/// planned is the reason of a refusal. A unit with arguments, of a trait or without an owner is
/// refused.
pub proof fn every_item_of_a_unit_is_planned(declaration: ImplDeclaration, at: int)
    ensures
        declaration.has_arguments ==> tasks::tasks_of(declaration) == Err::<
            Seq<Option<TaskView>>,
            _,
        >("#[monjolo::tasks] não aceita argumentos"@),
        !declaration.has_arguments && declaration.for_trait ==> tasks::tasks_of(declaration)
            == Err::<Seq<Option<TaskView>>, _>(
            "#[monjolo::tasks] só suporta impl inerente (sem trait)"@,
        ),
        !declaration.has_arguments && !declaration.for_trait && declaration.owner is None
            ==> tasks::tasks_of(declaration) == Err::<Seq<Option<TaskView>>, _>(
            "#[monjolo::tasks] precisa de um tipo simples (ex.: `impl Reactor`)"@,
        ),
        !declaration.has_arguments && !declaration.for_trait && declaration.owner is Some ==> ({
            let owner = (declaration.owner->0)@;
            let self_type = declaration.self_type@;
            let items = declaration.items@;
            let outcome = tasks::tasks_of(declaration);
            &&& outcome matches Ok(planned) ==> planned.len() == items.len() && forall|i: int|
                0 <= i < items.len() ==> planned_item(owner, self_type, #[trigger] items[i])
                    == Ok::<Option<TaskView>, Seq<char>>(planned[i])
            &&& (forall|k: int|
                0 <= k < items.len() ==> planned_item(owner, self_type, #[trigger] items[k]) is Ok)
                ==> outcome is Ok
            &&& 0 <= at < items.len() && planned_item(owner, self_type, items[at]) is Err && (forall|
                k: int,
            |
                0 <= k < at ==> planned_item(owner, self_type, #[trigger] items[k]) is Ok)
                ==> outcome == Err::<Seq<Option<TaskView>>, _>(
                planned_item(owner, self_type, items[at])->Err_0,
            )
        }),
{
    if declaration.owner is Some {
        items_are_planned_in_order(
            (declaration.owner->0)@,
            declaration.self_type@,
            declaration.items@,
            declaration.items@.len(),
        );
    }
}

/// The attributes of a source are read one by one, each with its own name and its own arguments.
pub proof fn attributes_are_read_one_by_one(marks: Seq<AttributePartsView>, i: int)
    requires
        0 <= i < marks.len(),
    ensures
        ({
            let read = reading::attributes_of(marks);
            let single = reading::components::marks_of(marks);
            &&& read.len() == marks.len()
            &&& single.len() == marks.len()
            &&& marks[i].name matches Some(name) ==> read[i].name == name && single[i].name == name
            &&& marks[i].name is None ==> read[i].name.len() == 0 && single[i].name.len() == 0
            &&& marks[i].arguments matches Ok(text) ==> {
                &&& read[i].arguments == reading::arguments_of(text)
                &&& single[i].argument == reading::single_argument_of(text)
            }
            &&& marks[i].arguments matches Err(reason) ==> {
                &&& read[i].arguments == Err::<Seq<arguments::ArgumentView>, _>(reason)
                &&& single[i].argument == Err::<arguments::ArgumentView, _>(reason)
            }
        }),
{
}

/// The arguments of a source are read pair by pair, each name with its own value.
pub proof fn arguments_are_read_pair_by_pair(text: Seq<char>, i: int)
    ensures
        source::syn_pairs(text) matches Err(reason) ==> reading::arguments_of(text) == Err::<
            Seq<arguments::ArgumentView>,
            _,
        >(reason),
        source::syn_pairs(text) matches Ok(pairs) ==> {
            let read = reading::arguments_of(text);
            &&& read is Ok
            &&& read->Ok_0.len() == pairs.len()
            &&& 0 <= i < pairs.len() ==> {
                &&& read->Ok_0[i].value == source::syn_value(pairs[i].value)
                &&& pairs[i].name matches Some(name) ==> read->Ok_0[i].name == name
                &&& pairs[i].name is None ==> read->Ok_0[i].name.len() == 0
            }
        },
        source::syn_pair(text) matches Err(reason) ==> reading::single_argument_of(text) == Err::<
            arguments::ArgumentView,
            _,
        >(reason),
        source::syn_pair(text) matches Ok(pair) ==> {
            let read = reading::single_argument_of(text);
            &&& read is Ok
            &&& read->Ok_0.value == source::syn_value(pair.value)
            &&& pair.name matches Some(name) ==> read->Ok_0.name == name
            &&& pair.name is None ==> read->Ok_0.name.len() == 0
        },
{
}

/// The type of a field is a double where its name is that of one, an array where it is one, and an
/// array of doubles where its elements are. A literal length is the number that it writes.
pub proof fn a_type_is_read_as_it_stands(ty: Seq<char>)
    ensures
        reading::dynamic_model::type_of(ty) is Double <==> source::syn_type(ty) == TypeView::Path(
            Some("f64"@),
        ),
        source::syn_type(ty) matches TypeView::Array(element, Some(digits)) ==> {
            let read = reading::dynamic_model::type_of(ty);
            &&& read is Array
            &&& read->Array_of_doubles <==> source::syn_type(element) == TypeView::Path(
                Some("f64"@),
            )
            &&& text::decimal_value(digits) matches Some(n) ==> (n <= usize::MAX ==> read->length
                == Ok::<usize, Seq<char>>(n as usize))
            &&& text::decimal_value(digits) matches Some(n) ==> (n > usize::MAX ==> read->length
                == Err::<usize, _>("number too large to fit in target type"@))
        },
        source::syn_type(ty) matches TypeView::Array(element, None) ==> {
            let read = reading::dynamic_model::type_of(ty);
            &&& read is ComputedArray
            &&& read->ComputedArray_of_doubles <==> source::syn_type(element) == TypeView::Path(
                Some("f64"@),
            )
        },
        source::syn_type(ty) is Other ==> reading::dynamic_model::type_of(ty) is Other,
        source::syn_type(ty) is Path && source::syn_type(ty) != TypeView::Path(Some("f64"@))
            ==> reading::dynamic_model::type_of(ty) is Other,
{
}

proof fn fields_are_in_order(texts: Seq<Seq<char>>, n: nat)
    requires
        n <= texts.len(),
    ensures
        reading::dynamic_model::fields_of(texts, n) matches Ok(list) ==> list.len() == n && forall|
            i: int,
        |
            0 <= i < n ==> reading::dynamic_model::field_of(#[trigger] texts[i]) == Ok::<
                reading::dynamic_model::FieldSource,
                Seq<char>,
            >(list[i]),
        reading::components::marked_fields_of(texts, n) matches Ok(list) ==> list.len() == n
            && forall|i: int|
            0 <= i < n ==> reading::components::marked_of(#[trigger] texts[i]) == Ok::<
                reading::components::MarkedSource,
                Seq<char>,
            >(list[i]),
        (forall|i: int| 0 <= i < n ==> source::syn_field(#[trigger] texts[i]) is Ok) ==> {
            &&& reading::dynamic_model::fields_of(texts, n) is Ok
            &&& reading::components::marked_fields_of(texts, n) is Ok
        },
    decreases n,
{
    if n > 0 {
        fields_are_in_order(texts, (n - 1) as nat);
    }
}

/// The fields of a source are read one by one in their order, each with its own name, type and
/// attributes.
pub proof fn fields_are_read_one_by_one(texts: Seq<Seq<char>>, i: int)
    requires
        0 <= i < texts.len(),
        forall|k: int| 0 <= k < texts.len() ==> source::syn_field(#[trigger] texts[k]) is Ok,
    ensures
        ({
            let field = source::syn_field(texts[i])->Ok_0;
            let read = reading::dynamic_model::fields_of(texts, texts.len());
            let marked = reading::components::marked_fields_of(texts, texts.len());
            &&& read is Ok
            &&& read->Ok_0.len() == texts.len()
            &&& read->Ok_0[i].name == field.name
            &&& read->Ok_0[i].ty == reading::dynamic_model::type_of(field.ty)
            &&& read->Ok_0[i].attributes == reading::attributes_of(field.attributes)
            &&& marked is Ok
            &&& marked->Ok_0.len() == texts.len()
            &&& marked->Ok_0[i].name == field.name
            &&& marked->Ok_0[i].marks == reading::components::marks_of(field.attributes)
        }),
{
    fields_are_in_order(texts, texts.len());
}

/// How many of the first `n` flags are set.
pub open spec fn flags_set(flags: Seq<bool>, n: nat) -> Set<int> {
    Set::new(|i: int| 0 <= i < n && flags[i])
}

/// The parameters of a method are counted without its receiver: as many as there are inputs that are
/// none.
pub proof fn parameters_are_counted(inputs: Seq<bool>, n: nat)
    requires
        n <= inputs.len(),
    ensures
        flags_set(inputs, n).finite(),
        reading::tasks::parameters_among(inputs, n) == flags_set(inputs, n).len(),
    decreases n,
{
    if n == 0 {
        assert(flags_set(inputs, 0) =~= Set::empty());
    } else {
        let m = (n - 1) as nat;
        parameters_are_counted(inputs, m);
        if inputs[m as int] {
            assert(flags_set(inputs, n) =~= flags_set(inputs, m).insert(m as int));
        } else {
            assert(flags_set(inputs, n) =~= flags_set(inputs, m));
        }
    }
}

proof fn methods_are_in_order(parts: Seq<ImplPartView>, n: nat)
    requires
        n <= parts.len(),
    ensures
        reading::tasks::items_of(parts, n) matches Ok(list) ==> list.len() == n && forall|i: int|
            0 <= i < n ==> reading::tasks::item_of(#[trigger] parts[i]) == Ok::<
                Option<reading::tasks::MethodSource>,
                Seq<char>,
            >(list[i]),
    decreases n,
{
    if n > 0 {
        methods_are_in_order(parts, (n - 1) as nat);
    }
}

/// The items of a unit are read one by one in their order: a method with its own name, attributes and
/// parameters, anything else as none.
pub proof fn methods_are_read_one_by_one(parts: Seq<ImplPartView>, i: int)
    requires
        reading::tasks::items_of(parts, parts.len()) is Ok,
        0 <= i < parts.len(),
    ensures
        ({
            let list = reading::tasks::items_of(parts, parts.len())->Ok_0;
            &&& list.len() == parts.len()
            &&& parts[i] is Other ==> list[i] is None
            &&& parts[i] matches ImplPartView::Method(text) ==> {
                let method = source::syn_method(text);
                &&& method is Ok
                &&& list[i] is Some
                &&& list[i]->0.name == method->Ok_0.name
                &&& list[i]->0.attributes == reading::attributes_of(method->Ok_0.attributes)
                &&& list[i]->0.parameters == flags_set(
                    method->Ok_0.inputs,
                    method->Ok_0.inputs.len(),
                ).len()
            }
        }),
{
    methods_are_in_order(parts, parts.len());
    assert(reading::tasks::item_of(parts[i]) is Ok);
    match parts[i] {
        ImplPartView::Method(text) => {
            let method = source::syn_method(text)->Ok_0;
            parameters_are_counted(method.inputs, method.inputs.len());
        },
        ImplPartView::Other => {},
    }
}

} // verus!
