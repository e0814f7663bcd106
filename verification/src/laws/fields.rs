//! Laws of the fields of a declared model, and of how they are wired to signals.
use crate::catalog::CatalogView;
use crate::declaration::arguments;
use crate::declaration::arguments::{AttributeView, KeySpecView};
use crate::declaration::fields;
use crate::declaration::fields::{
    FieldDeclaration, FieldPlanView, FieldShape, FieldType, MarksView,
};
use crate::declaration::model;
use crate::declaration::model::{FieldWiring, ModelPlan, WiringSoFar};
use crate::laws;
use crate::state_registry::RegistryView;
use crate::{snapshot, text};
use vstd::prelude::*;

verus! {

/// A field is one double or an array of doubles, as wide as it is long. Anything else is refused.
pub proof fn a_field_is_as_wide_as_its_type(ty: FieldType, n: usize)
    ensures
        ty == FieldType::Double ==> fields::shape_of(ty) == Ok::<FieldShape, Seq<char>>(
            FieldShape::Scalar,
        ),
        ty matches FieldType::Array { of_doubles, length } ==> {
            &&& of_doubles && length == Ok::<usize, String>(n) ==> fields::shape_of(ty) == Ok::<
                FieldShape,
                Seq<char>,
            >(FieldShape::Array(n))
            &&& of_doubles ==> (length matches Err(reason) ==> fields::shape_of(ty) == Err::<
                FieldShape,
                _,
            >(reason@))
            &&& !of_doubles ==> fields::shape_of(ty) == Err::<FieldShape, _>(
                "#[dynamic_model] só suporta campos `f64` ou `[f64; N]`"@,
            )
        },
        ty matches FieldType::ComputedArray { of_doubles } ==> fields::shape_of(ty) == Err::<
            FieldShape,
            _,
        >(
            if of_doubles {
                "tamanho do array precisa ser um inteiro literal"@
            } else {
                "#[dynamic_model] só suporta campos `f64` ou `[f64; N]`"@
            },
        ),
        ty is Other ==> fields::shape_of(ty) == Err::<FieldShape, _>(
            "#[dynamic_model] só suporta campos `f64` ou `[f64; N]`"@,
        ),
        FieldShape::Scalar.width() == 1,
        FieldShape::Array(n).width() == n,
        model::array_of(FieldShape::Scalar) is None,
        model::array_of(FieldShape::Array(n)) == Some(n),
{
}

/// Whether one of the first `n` attributes has the name.
pub open spec fn is_marked(attributes: Seq<AttributeView>, n: int, name: Seq<char>) -> bool {
    exists|i: int| 0 <= i < n && (#[trigger] attributes[i]).name == name
}

/// Whether the name is one of those that say where the keys of a field come from or go to.
pub open spec fn has_keys(name: Seq<char>) -> bool {
    name == "config"@ || name == "offer"@ || name == "need"@
}

/// What is wrong with an attribute of a field of this width, if anything is: it stands there already,
/// its keys cannot be read, or there are more or fewer of them than the field holds values.
pub open spec fn mark_fault(attributes: Seq<AttributeView>, i: int, width: nat) -> Option<
    Seq<char>,
> {
    let mark = attributes[i];
    if (has_keys(mark.name) || mark.name == "state"@) && is_marked(attributes, i, mark.name) {
        Some("atributo repetido no mesmo campo"@)
    } else if has_keys(mark.name) {
        match arguments::key_spec_of(mark.arguments) {
            Err(reason) => Some(reason),
            Ok(keys) => if keys.keys().len() == width {
                None
            } else {
                Some(
                    "campo declarado como "@ + text::decimal(width)
                        + " valor(es) mas o atributo descreve "@ + text::decimal(keys.keys().len())
                        + " chave(s) — components.len() precisa bater com o tamanho do array"@,
                )
            },
        }
    } else {
        None
    }
}

/// Whether nothing is wrong with the first `n` attributes of a field.
pub open spec fn no_mark_fault(attributes: Seq<AttributeView>, n: int, width: nat) -> bool {
    forall|i: int| 0 <= i < n ==> (#[trigger] mark_fault(attributes, i, width)) is None
}

/// Whether what was kept are the keys of the attribute with the name, and nothing where there is none.
pub open spec fn keeps_mark(
    attributes: Seq<AttributeView>,
    n: int,
    name: Seq<char>,
    kept: Option<KeySpecView>,
) -> bool {
    &&& kept is Some <==> is_marked(attributes, n, name)
    &&& forall|i: int|
        0 <= i < n && (#[trigger] attributes[i]).name == name ==> kept is Some
            && arguments::key_spec_of(attributes[i].arguments) == Ok::<KeySpecView, Seq<char>>(
            kept->0,
        )
}

/// Whether the marks are those that the first `n` attributes make.
pub open spec fn are_marks(attributes: Seq<AttributeView>, n: int, marks: MarksView) -> bool {
    &&& keeps_mark(attributes, n, "config"@, marks.config)
    &&& keeps_mark(attributes, n, "offer"@, marks.offer)
    &&& keeps_mark(attributes, n, "need"@, marks.need)
    &&& marks.state <==> is_marked(attributes, n, "state"@)
}

proof fn names_of_marks_differ()
    ensures
        "config"@ != "offer"@,
        "config"@ != "need"@,
        "config"@ != "state"@,
        "offer"@ != "need"@,
        "offer"@ != "state"@,
        "need"@ != "state"@,
{
    reveal_strlit("config");
    reveal_strlit("offer");
    reveal_strlit("need");
    reveal_strlit("state");
    assert("config"@.len() == 6);
    assert("offer"@.len() == 5);
    assert("need"@.len() == 4);
    assert("state"@.len() == 5);
    assert("offer"@[0] == 'o');
    assert("state"@[0] == 's');
}

proof fn one_more_mark(
    attributes: Seq<AttributeView>,
    n: int,
    name: Seq<char>,
    earlier: Option<KeySpecView>,
    kept: Option<KeySpecView>,
)
    requires
        0 < n <= attributes.len(),
        keeps_mark(attributes, n - 1, name, earlier),
        attributes[n - 1].name == name ==> earlier is None && kept is Some && arguments::key_spec_of(
            attributes[n - 1].arguments,
        ) == Ok::<KeySpecView, Seq<char>>(kept->0),
        attributes[n - 1].name != name ==> kept == earlier,
    ensures
        keeps_mark(attributes, n, name, kept),
{
    one_more_name(attributes, n, name);
    assert forall|i: int| 0 <= i < n && (#[trigger] attributes[i]).name == name implies kept is Some
        && arguments::key_spec_of(attributes[i].arguments) == Ok::<KeySpecView, Seq<char>>(
        kept->0,
    ) by {
        if i < n - 1 {
            assert(is_marked(attributes, n - 1, name));
        }
    }
}

proof fn one_more_name(attributes: Seq<AttributeView>, n: int, name: Seq<char>)
    requires
        0 < n <= attributes.len(),
    ensures
        is_marked(attributes, n, name) <==> is_marked(attributes, n - 1, name) || attributes[n
            - 1].name == name,
{
    if is_marked(attributes, n, name) {
        let i = choose|i: int| 0 <= i < n && (#[trigger] attributes[i]).name == name;
        if i < n - 1 {
            assert(is_marked(attributes, n - 1, name));
        }
    }
    if is_marked(attributes, n - 1, name) {
        let i = choose|i: int| 0 <= i < n - 1 && (#[trigger] attributes[i]).name == name;
        assert(attributes[i].name == name);
    }
}

proof fn marks_are_those_of_the_attributes(attributes: Seq<AttributeView>, n: nat, width: nat)
    requires
        n <= attributes.len(),
    ensures
        forall|i: int|
            0 <= i < n && no_mark_fault(attributes, i, width) && (#[trigger] mark_fault(
                attributes,
                i,
                width,
            )) is Some ==> fields::marks_of(attributes, n, width) == Err::<MarksView, _>(
                mark_fault(attributes, i, width)->0,
            ),
        no_mark_fault(attributes, n as int, width) ==> {
            &&& fields::marks_of(attributes, n, width) is Ok
            &&& are_marks(
                attributes,
                n as int,
                fields::marks_of(attributes, n, width)->Ok_0,
            )
        },
    decreases n,
{
    names_of_marks_differ();
    if n > 0 {
        let m = (n - 1) as nat;
        marks_are_those_of_the_attributes(attributes, m, width);
        if no_mark_fault(attributes, m as int, width) {
            let earlier = fields::marks_of(attributes, m, width)->Ok_0;
            let mark = attributes[m as int];
            assert(are_marks(attributes, m as int, earlier));
            match mark_fault(attributes, m as int, width) {
                Some(reason) => {
                    assert(fields::marks_of(attributes, n, width) == Err::<MarksView, _>(reason));
                },
                None => {
                    let marks = fields::marks_of(attributes, n, width)->Ok_0;
                    assert(fields::marks_of(attributes, n, width) is Ok);
                    one_more_mark(attributes, n as int, "config"@, earlier.config, marks.config);
                    one_more_mark(attributes, n as int, "offer"@, earlier.offer, marks.offer);
                    one_more_mark(attributes, n as int, "need"@, earlier.need, marks.need);
                    one_more_name(attributes, n as int, "state"@);
                },
            }
        }
        if no_mark_fault(attributes, n as int, width) {
            assert(no_mark_fault(attributes, m as int, width));
            assert(mark_fault(attributes, m as int, width) is None);
        }
        assert forall|i: int|
            0 <= i < n && no_mark_fault(attributes, i, width) && (#[trigger] mark_fault(
                attributes,
                i,
                width,
            )) is Some implies fields::marks_of(attributes, n, width) == Err::<MarksView, _>(
            mark_fault(attributes, i, width)->0,
        ) by {
            if i < m {
                assert(fields::marks_of(attributes, m, width) is Err);
            }
        }
    }
}

/// What is wrong with marks that are right each by itself, if anything is.
pub open spec fn marks_clash(marks: MarksView) -> Option<Seq<char>> {
    if marks.need is Some && (marks.config is Some || marks.offer is Some || marks.state) {
        Some(
            "#[need] não se combina com #[config]/#[offer]/#[state] no mesmo campo — precisa vem de outro componente, não é publicado por este"@,
        )
    } else if marks.config is Some && marks.offer is None {
        Some(
            "#[config] sozinho não cria sinal nenhum — combine com #[offer(...)] (config só decide o valor inicial de um sinal publicado)"@,
        )
    } else if marks.state && marks.offer is None {
        Some(
            "#[state] sozinho não cria sinal nenhum — combine com #[offer(...)] (state marca um sinal publicado como parte do vetor de integração)"@,
        )
    } else {
        None
    }
}

/// A field is planned from its type and its attributes. Without a mark it is plain. Else its type has
/// to fit, the first attribute that is wrong is the reason of a refusal, and the marks may not clash;
/// what is left has the name and the shape of the field and the keys of each of its attributes.
pub proof fn a_field_is_planned_from_its_marks(field: FieldDeclaration, at: int)
    ensures
        ({
            let attributes = arguments::attribute_views(field.attributes@);
            let n = attributes.len() as int;
            let marked = is_marked(attributes, n, "config"@) || is_marked(attributes, n, "offer"@)
                || is_marked(attributes, n, "need"@) || is_marked(attributes, n, "state"@);
            let outcome = fields::plan_of(field);
            &&& !marked ==> outcome == Ok::<FieldPlanView, Seq<char>>(
                FieldPlanView::Plain { name: field.name@ },
            )
            &&& marked ==> match fields::shape_of(field.ty) {
                Err(reason) => outcome == Err::<FieldPlanView, _>(reason),
                Ok(shape) => {
                    &&& 0 <= at < n && no_mark_fault(attributes, at, shape.width()) && mark_fault(
                        attributes,
                        at,
                        shape.width(),
                    ) is Some ==> outcome == Err::<FieldPlanView, _>(
                        mark_fault(attributes, at, shape.width())->0,
                    )
                    &&& no_mark_fault(attributes, n, shape.width()) ==> {
                        ||| (outcome matches Ok(FieldPlanView::Signals { name, shape: found, marks })
                            && name == field.name@ && found == shape && are_marks(
                            attributes,
                            n,
                            marks,
                        ) && marks_clash(marks) is None)
                        ||| (outcome matches Err(reason) && exists|marks: MarksView| #[trigger]
                            are_marks(attributes, n, marks) && marks_clash(marks) == Some(reason))
                    }
                },
            }
        }),
{
    let attributes = arguments::attribute_views(field.attributes@);
    let n = attributes.len() as int;
    if exists|i: int| 0 <= i < attributes.len() && fields::is_mark(#[trigger] attributes[i].name) {
        let i = choose|i: int|
            0 <= i < attributes.len() && fields::is_mark(#[trigger] attributes[i].name);
        assert(is_marked(attributes, n, attributes[i].name));
    } else {
        assert forall|i: int| 0 <= i < n implies !fields::is_mark(
            (#[trigger] attributes[i]).name,
        ) by {
            assert(!fields::is_mark(attributes[i].name));
        }
    }
    match fields::shape_of(field.ty) {
        Err(_) => {},
        Ok(shape) => {
            marks_are_those_of_the_attributes(attributes, attributes.len(), shape.width());
            if no_mark_fault(attributes, n, shape.width()) {
                let marks = fields::marks_of(attributes, attributes.len(), shape.width())->Ok_0;
                assert(are_marks(attributes, n, marks));
                assert(fields::conflict(marks) == marks_clash(marks));
            }
        },
    }
}

/// The keys that a field offers.
pub open spec fn offered_of(field: FieldDeclaration) -> Seq<Seq<char>> {
    match fields::plan_of(field) {
        Ok(FieldPlanView::Signals { marks, .. }) => match marks.offer {
            Some(keys) => keys.keys(),
            None => Seq::empty(),
        },
        _ => Seq::empty(),
    }
}

/// The keys that a field needs.
pub open spec fn needed_of(field: FieldDeclaration) -> Seq<Seq<char>> {
    match fields::plan_of(field) {
        Ok(FieldPlanView::Signals { marks, .. }) => match marks.need {
            Some(keys) => keys.keys(),
            None => Seq::empty(),
        },
        _ => Seq::empty(),
    }
}

/// Whether a field is integrated.
pub open spec fn is_state(field: FieldDeclaration) -> bool {
    fields::plan_of(field) matches Ok(FieldPlanView::Signals { marks, .. }) && marks.state
}

/// The keys of a field that are integrated.
pub open spec fn integrated_of(field: FieldDeclaration) -> Seq<Seq<char>> {
    if is_state(field) {
        offered_of(field)
    } else {
        Seq::empty()
    }
}

/// The key of the configuration from which each value of a field starts.
pub open spec fn configured_of(field: FieldDeclaration) -> Seq<Option<Seq<char>>> {
    Seq::new(
        offered_of(field).len(),
        |j: int|
            match fields::plan_of(field) {
                Ok(FieldPlanView::Signals { marks, .. }) => match marks.config {
                    Some(keys) => Some(keys.keys()[j]),
                    None => None,
                },
                _ => None,
            },
    )
}

/// Whether a model may set each value of a field itself: it may not where the field is integrated.
pub open spec fn settable_of(field: FieldDeclaration) -> Seq<bool> {
    Seq::new(offered_of(field).len(), |j: int| !is_state(field))
}

/// One part for each of the first `n` fields.
pub open spec fn of_each<T>(
    list: Seq<FieldDeclaration>,
    n: nat,
    part: spec_fn(FieldDeclaration) -> Seq<T>,
) -> Seq<Seq<T>> {
    Seq::new(n, |i: int| part(list[i]))
}

/// Whether the wiring of a field is that of its plan: a signal that is offered or needed starts behind
/// those of the fields before it.
pub open spec fn is_wired(
    list: Seq<FieldDeclaration>,
    i: int,
    field: (Seq<char>, FieldWiring),
) -> bool {
    match fields::plan_of(list[i]) {
        Ok(FieldPlanView::Plain { name }) => field == (name, FieldWiring::Plain),
        Ok(FieldPlanView::Signals { name, shape, marks }) => {
            let offered = of_each(list, i as nat, |f: FieldDeclaration| offered_of(f)).flatten();
            let needed = of_each(list, i as nat, |f: FieldDeclaration| needed_of(f)).flatten();
            let array = match shape {
                FieldShape::Scalar => None,
                FieldShape::Array(n) => Some(n),
            };
            field == (
                name,
                if marks.offer is Some {
                    FieldWiring::Offered {
                        start: offered.len() as usize,
                        array,
                        settable: !marks.state,
                    }
                } else {
                    FieldWiring::Needed { start: needed.len() as usize, array }
                },
            )
        },
        Err(_) => false,
    }
}

/// Whether the wiring holds what the first `n` fields offer, need and integrate, in the order of the
/// fields.
pub open spec fn wires_each(list: Seq<FieldDeclaration>, n: nat, wiring: WiringSoFar) -> bool {
    &&& wiring.offers == of_each(list, n, |f: FieldDeclaration| offered_of(f)).flatten()
    &&& wiring.needs == of_each(list, n, |f: FieldDeclaration| needed_of(f)).flatten()
    &&& wiring.states == of_each(list, n, |f: FieldDeclaration| integrated_of(f)).flatten()
    &&& wiring.seeds == of_each(list, n, |f: FieldDeclaration| configured_of(f)).flatten()
    &&& wiring.settable == of_each(list, n, |f: FieldDeclaration| settable_of(f)).flatten()
    &&& wiring.fields.len() == n
    &&& forall|i: int| 0 <= i < n ==> is_wired(list, i, #[trigger] wiring.fields[i])
}

proof fn one_more_part<T>(
    list: Seq<FieldDeclaration>,
    n: nat,
    part: spec_fn(FieldDeclaration) -> Seq<T>,
)
    ensures
        of_each(list, n + 1, part).flatten() == of_each(list, n, part).flatten() + part(
            list[n as int],
        ),
{
    let earlier = of_each(list, n, part);
    assert(of_each(list, n + 1, part) =~= earlier.push(part(list[n as int])));
    earlier.lemma_flatten_push(part(list[n as int]));
}

proof fn a_planned_field_has_a_signal(field: FieldDeclaration)
    ensures
        fields::plan_of(field) matches Ok(FieldPlanView::Signals { marks, .. }) ==> {
            &&& marks.offer is Some || marks.need is Some
            &&& marks.need is Some ==> marks.offer is None && !marks.state
        },
{
    let attributes = arguments::attribute_views(field.attributes@);
    let n = attributes.len() as int;
    a_field_is_planned_from_its_marks(field, 0);
    match fields::plan_of(field) {
        Ok(FieldPlanView::Signals { marks, shape, .. }) => {
            marks_are_those_of_the_attributes(attributes, attributes.len(), shape.width());
            assert(fields::marks_of(attributes, attributes.len(), shape.width()) is Ok);
            first_fault(attributes, attributes.len(), shape.width());
            assert(are_marks(attributes, n, marks));
        },
        _ => {},
    }
}

proof fn first_fault(attributes: Seq<AttributeView>, n: nat, width: nat)
    requires
        n <= attributes.len(),
        fields::marks_of(attributes, n, width) is Ok,
    ensures
        no_mark_fault(attributes, n as int, width),
    decreases n,
{
    if n > 0 {
        let m = (n - 1) as nat;
        first_fault(attributes, m, width);
        marks_are_those_of_the_attributes(attributes, n, width);
        assert(mark_fault(attributes, m as int, width) is None);
    }
}

proof fn fields_are_wired(list: Seq<FieldDeclaration>, n: nat)
    requires
        n <= list.len(),
    ensures
        forall|i: int|
            0 <= i < n && (forall|k: int| 0 <= k < i ==> fields::plan_of(#[trigger] list[k]) is Ok)
                && fields::plan_of(#[trigger] list[i]) is Err ==> model::wired(list, n) == Err::<
                WiringSoFar,
                _,
            >(fields::plan_of(list[i])->Err_0),
        model::wired(list, n) matches Ok(wiring) ==> wires_each(list, n, wiring),
        (forall|k: int| 0 <= k < n ==> fields::plan_of(#[trigger] list[k]) is Ok) ==> model::wired(
            list,
            n,
        ) is Ok,
    decreases n,
{
    if n == 0 {
        assert(of_each(list, 0, |f: FieldDeclaration| offered_of(f)) =~= Seq::empty());
        assert(of_each(list, 0, |f: FieldDeclaration| needed_of(f)) =~= Seq::empty());
        assert(of_each(list, 0, |f: FieldDeclaration| integrated_of(f)) =~= Seq::empty());
        assert(of_each(list, 0, |f: FieldDeclaration| configured_of(f)) =~= Seq::empty());
        assert(of_each(list, 0, |f: FieldDeclaration| settable_of(f)) =~= Seq::empty());
    } else {
        let m = (n - 1) as nat;
        fields_are_wired(list, m);
        let field = list[m as int];
        if model::wired(list, n) is Ok {
            let earlier = model::wired(list, m)->Ok_0;
            let wiring = model::wired(list, n)->Ok_0;
            a_planned_field_has_a_signal(field);
            one_more_part(list, m, |f: FieldDeclaration| offered_of(f));
            one_more_part(list, m, |f: FieldDeclaration| needed_of(f));
            one_more_part(list, m, |f: FieldDeclaration| integrated_of(f));
            one_more_part(list, m, |f: FieldDeclaration| configured_of(f));
            one_more_part(list, m, |f: FieldDeclaration| settable_of(f));
            assert(wires_each(list, m, earlier));
            match fields::plan_of(field) {
                Ok(FieldPlanView::Signals { name, shape, marks }) => {
                    if marks.offer is Some {
                        let keys = marks.offer->0.keys();
                        assert(configured_of(field) =~= model::seeds_of(
                            marks.config,
                            keys.len(),
                        ));
                        assert(settable_of(field) =~= Seq::new(keys.len(), |i: int| !marks.state));
                    }
                },
                _ => {},
            }
            assert(wiring.offers =~= earlier.offers + offered_of(field));
            assert(wiring.needs =~= earlier.needs + needed_of(field));
            assert(wiring.states =~= earlier.states + integrated_of(field));
            assert(wiring.seeds =~= earlier.seeds + configured_of(field));
            assert(wiring.settable =~= earlier.settable + settable_of(field));
            assert forall|i: int| 0 <= i < n implies is_wired(
                list,
                i,
                #[trigger] wiring.fields[i],
            ) by {
                if i < m {
                    assert(wiring.fields[i] == earlier.fields[i]);
                }
            }
        }
        assert forall|i: int|
            0 <= i < n && (forall|k: int| 0 <= k < i ==> fields::plan_of(#[trigger] list[k]) is Ok)
                && fields::plan_of(#[trigger] list[i]) is Err implies model::wired(list, n) == Err::<
            WiringSoFar,
            _,
        >(fields::plan_of(list[i])->Err_0) by {
            if i < m {
                assert(model::wired(list, m) is Err);
            }
        }
    }
}

/// A model is wired field by field, in the order in which they are declared: it offers, needs and
/// integrates the keys of each of its fields, and each field knows where its own begin. The first field
/// that cannot be planned is the reason of a refusal.
pub proof fn every_field_is_wired(list: Seq<FieldDeclaration>, at: int)
    ensures
        0 <= at < list.len() && (forall|k: int|
            0 <= k < at ==> fields::plan_of(#[trigger] list[k]) is Ok) && fields::plan_of(list[at]) is Err
            ==> model::wired(list, list.len()) == Err::<WiringSoFar, _>(
            fields::plan_of(list[at])->Err_0,
        ),
        (forall|k: int| 0 <= k < list.len() ==> fields::plan_of(#[trigger] list[k]) is Ok) ==> {
            &&& model::wired(list, list.len()) is Ok
            &&& wires_each(list, list.len(), model::wired(list, list.len())->Ok_0)
        },
{
    fields_are_wired(list, list.len());
}

/// A signal starts from the configuration where the model names a key for it, and from zero where it
/// names none. Its slot stands behind those that are there, under its own key.
pub proof fn each_signal_starts_where_the_plan_says<S, A, C>(
    plan: ModelPlan,
    before: RegistryView<S, A, C>,
    config: CatalogView<u64>,
    i: int,
)
    requires
        plan.wf(),
        before.wf(),
        before.keys.len() + plan.offers@.len() <= usize::MAX,
        0 <= i < plan.offers@.len(),
    ensures
        ({
            let after = plan.installed(before, config);
            let slots = before.keys.len() as int;
            let tickets = before.evaluation.links.bindings.len() as int;
            &&& after.keys.len() == slots + plan.offers@.len()
            &&& after.keys[slots + i] == plan.offers@[i]@
            &&& after.evaluation.values.len() == slots + plan.offers@.len()
            &&& after.evaluation.values[slots + i] == match plan.seeds@[i] {
                Some(key) => snapshot::seed(config, key@),
                None => 0,
            }
            &&& laws::registry::carries(after.evaluation.links, tickets + i, slots + i)
            &&& forall|p: int|
                0 <= p < slots ==> #[trigger] after.evaluation.values[p]
                    == before.evaluation.values[p]
        }),
{
    laws::registry::each_offer_opens_a_slot(before, text::texts(plan.offers@));
    let offers = text::texts(plan.offers@);
    assert(offers[i] == plan.offers@[i]@);
}

} // verus!
