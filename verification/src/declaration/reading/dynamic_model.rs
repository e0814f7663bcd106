//! Models read from source text.
use crate::declaration::arguments::{Argument, Attribute, AttributeView};
use crate::declaration::fields::{FieldDeclaration, FieldType};
use crate::declaration::model::{
    parse_after_arg, plan_model, ModelArgument, ModelArgumentView, ModelDeclaration, ModelPlan,
};
use crate::declaration::source::{
    MetaParts, MetaView, PairParts, PairView, StructFields, StructFieldsView,
    StructParts, TypeParts, TypeView,
};
use crate::declaration::{arguments, model, reading, source};
use crate::text;
use vstd::prelude::*;

verus! {

/// A type as its parts are seen: whether it is a double, or an array, and of what length.
#[verifier::ext_equal]
pub enum FieldTypeView {
    Double,
    Array { of_doubles: bool, length: Result<usize, Seq<char>> },
    ComputedArray { of_doubles: bool },
    Other,
}

pub open spec fn shown_type(ty: FieldType) -> FieldTypeView {
    match ty {
        FieldType::Double => FieldTypeView::Double,
        FieldType::Array { of_doubles, length } => FieldTypeView::Array {
            of_doubles,
            length: match length {
                Ok(n) => Ok(n),
                Err(message) => Err(message@),
            },
        },
        FieldType::ComputedArray { of_doubles } => FieldTypeView::ComputedArray { of_doubles },
        FieldType::Other => FieldTypeView::Other,
    }
}

pub open spec fn is_double(ty: Seq<char>) -> bool {
    source::syn_type(ty) == TypeView::Path(Some("f64"@))
}

/// The length that decimal digits stand for.
pub open spec fn length_of(digits: Seq<char>) -> Result<usize, Seq<char>> {
    match text::decimal_value(digits) {
        Some(n) => if n <= usize::MAX {
            Ok(n as usize)
        } else {
            Err("number too large to fit in target type"@)
        },
        None => Err("number too large to fit in target type"@),
    }
}

pub open spec fn type_of(ty: Seq<char>) -> FieldTypeView {
    match source::syn_type(ty) {
        TypeView::Path(_) => if is_double(ty) {
            FieldTypeView::Double
        } else {
            FieldTypeView::Other
        },
        TypeView::Array(element, Some(digits)) => FieldTypeView::Array {
            of_doubles: is_double(element),
            length: length_of(digits),
        },
        TypeView::Array(element, None) => FieldTypeView::ComputedArray {
            of_doubles: is_double(element),
        },
        TypeView::Other => FieldTypeView::Other,
    }
}

fn names_double(parts: &TypeParts) -> (yes: bool)
    ensures
        yes == (parts@ == TypeView::Path(Some("f64"@))),
{
    match parts {
        TypeParts::Path(Some(name)) => text::same(name, "f64"),
        _ => false,
    }
}

/// Reads a type.
pub fn read_type(ty: &str) -> (read: FieldType)
    ensures
        shown_type(read) == type_of(ty@),
{
    let parts: TypeParts = source::take_type_apart(ty);
    match &parts {
        TypeParts::Path(_) => if names_double(&parts) {
            FieldType::Double
        } else {
            FieldType::Other
        },
        TypeParts::Array(element, length) => {
            let of_doubles: bool = names_double(&source::take_type_apart(element.as_str()));
            match length {
                Some(digits) => FieldType::Array {
                    of_doubles,
                    length: match text::from_decimal(digits.as_str()) {
                        Some(n) => Ok(n),
                        None => Err("number too large to fit in target type".to_owned()),
                    },
                },
                None => FieldType::ComputedArray { of_doubles },
            }
        },
        TypeParts::Other => FieldType::Other,
    }
}

/// A field as its parts are seen.
#[verifier::ext_equal]
pub struct FieldSource {
    pub name: Seq<char>,
    pub ty: FieldTypeView,
    pub attributes: Seq<AttributeView>,
}

pub open spec fn shown_field(field: FieldDeclaration) -> FieldSource {
    FieldSource {
        name: field.name@,
        ty: shown_type(field.ty),
        attributes: arguments::attribute_views(field.attributes@),
    }
}

pub open spec fn field_of(text: Seq<char>) -> Result<FieldSource, Seq<char>> {
    match source::syn_field(text) {
        Err(message) => Err(message),
        Ok(field) => Ok(
            FieldSource {
                name: field.name,
                ty: type_of(field.ty),
                attributes: reading::attributes_of(field.attributes),
            },
        ),
    }
}

/// Reads a field.
pub fn read_field(text: &str) -> (field: Result<FieldDeclaration, String>)
    ensures
        match (field, field_of(text@)) {
            (Ok(field), Ok(wanted)) => shown_field(field) == wanted,
            (Err(message), Err(wanted)) => message@ == wanted,
            _ => false,
        },
{
    match source::take_field_apart(text) {
        Ok(parts) => {
            let ty: FieldType = read_type(parts.ty.as_str());
            let attributes: Vec<Attribute> = reading::read_attributes(parts.attributes);
            Ok(FieldDeclaration { name: parts.name, ty, attributes })
        },
        Err(message) => Err(message),
    }
}

/// The fields in the first `n` texts, or the first error among them.
pub open spec fn fields_of(texts: Seq<Seq<char>>, n: nat) -> Result<Seq<FieldSource>, Seq<char>>
    decreases n,
{
    if n == 0 {
        Ok(Seq::empty())
    } else {
        match (fields_of(texts, (n - 1) as nat), field_of(texts[n - 1])) {
            (Err(message), _) => Err(message),
            (Ok(_), Err(message)) => Err(message),
            (Ok(earlier), Ok(field)) => Ok(earlier.push(field)),
        }
    }
}

proof fn first_field_error_stays(texts: Seq<Seq<char>>, n: nat, m: nat)
    requires
        n <= m,
        fields_of(texts, n) is Err,
    ensures
        fields_of(texts, m) == fields_of(texts, n),
    decreases m,
{
    if n < m {
        first_field_error_stays(texts, n, (m - 1) as nat);
    }
}

pub open spec fn shown_fields(list: Seq<FieldDeclaration>) -> Seq<FieldSource> {
    Seq::new(list.len(), |i: int| shown_field(list[i]))
}

/// Reads fields, each from its text.
pub fn read_fields(texts: &Vec<String>) -> (list: Result<Vec<FieldDeclaration>, String>)
    ensures
        match (list, fields_of(text::texts(texts@), text::texts(texts@).len())) {
            (Ok(list), Ok(wanted)) => shown_fields(list@) == wanted,
            (Err(message), Err(wanted)) => message@ == wanted,
            _ => false,
        },
{
    let ghost shown = text::texts(texts@);
    let mut list: Vec<FieldDeclaration> = Vec::new();
    let mut i: usize = 0;
    assert(shown_fields(list@) =~= Seq::empty());
    while i < texts.len()
        invariant
            i <= texts@.len(),
            shown == text::texts(texts@),
            fields_of(shown, i as nat) == Ok::<Seq<FieldSource>, Seq<char>>(shown_fields(list@)),
        decreases texts@.len() - i,
    {
        assert(shown[i as int] == texts@[i as int]@);
        match read_field(texts[i].as_str()) {
            Ok(field) => {
                let ghost before = list@;
                list.push(field);
                assert(shown_fields(list@) =~= shown_fields(before).push(shown_field(field)));
            },
            Err(message) => {
                proof {
                    first_field_error_stays(shown, (i + 1) as nat, shown.len());
                }
                return Err(message);
            },
        }
        i = i + 1;
    }
    Ok(list)
}

/// Whether an argument has a form that a model takes: a pair, or the bare word `tasks`.
pub open spec fn is_model_argument(meta: MetaView) -> bool {
    match meta {
        MetaView::Pair(_, _) => true,
        MetaView::Word(name) => name == Some("tasks"@),
        MetaView::List(_) => false,
    }
}

pub open spec fn are_model_arguments(metas: Seq<MetaView>) -> bool {
    forall|i: int| 0 <= i < metas.len() ==> is_model_argument(#[trigger] metas[i])
}

/// An argument that a model takes.
pub open spec fn model_argument_of(meta: MetaView) -> ModelArgumentView {
    match meta {
        MetaView::Pair(name, value) => ModelArgumentView::Pair(
            reading::argument_of(PairView { name, value }),
        ),
        _ => ModelArgumentView::Word("tasks"@),
    }
}

/// Reads an argument, if a model takes its form.
fn read_model_argument(meta: MetaParts) -> (argument: Option<ModelArgument>)
    ensures
        argument is Some == is_model_argument(meta@),
        argument matches Some(argument) ==> argument@ == model_argument_of(meta@),
{
    match meta {
        MetaParts::Pair(name, value) => Some(
            ModelArgument::Pair(reading::read_argument(PairParts { name, value })),
        ),
        MetaParts::Word(Some(name)) => if text::same(&name, "tasks") {
            Some(ModelArgument::Word(name))
        } else {
            None
        },
        MetaParts::Word(None) => None,
        MetaParts::List(_) => None,
    }
}

/// The arguments of a model in a text, or why there are none. Most often all of them are pairs. Where
/// they are not, they may still be pairs with the word `tasks` among them; otherwise the text is
/// refused as one that is no list of pairs.
pub open spec fn model_arguments_of(text: Seq<char>) -> Result<Seq<ModelArgumentView>, Seq<char>> {
    match reading::arguments_of(text) {
        Ok(list) => Ok(Seq::new(list.len(), |i: int| ModelArgumentView::Pair(list[i]))),
        Err(message) => match source::syn_metas(text) {
            Ok(metas) => if are_model_arguments(metas) {
                Ok(Seq::new(metas.len(), |i: int| model_argument_of(metas[i])))
            } else {
                Err(message)
            },
            Err(_) => Err(message),
        },
    }
}

fn list_pairs(arguments: Vec<Argument>) -> (list: Vec<ModelArgument>)
    ensures
        model::model_argument_views(list@) == Seq::new(
            arguments@.len(),
            |i: int| ModelArgumentView::Pair(arguments@[i]@),
        ),
{
    let ghost all = arguments@;
    let mut rest: Vec<Argument> = arguments;
    let mut list: Vec<ModelArgument> = Vec::new();
    while rest.len() > 0
        invariant
            list@.len() + rest@.len() == all.len(),
            rest@ == all.skip(list@.len() as int),
            forall|k: int|
                0 <= k < list@.len() ==> (#[trigger] list@[k])@ == ModelArgumentView::Pair(all[k]@),
        decreases rest@.len(),
    {
        let ghost at = list@.len() as int;
        let argument: Argument = rest.remove(0);
        assert(argument == all[at]);
        list.push(ModelArgument::Pair(argument));
        assert(rest@ =~= all.skip(at + 1));
    }
    assert(model::model_argument_views(list@) =~= Seq::new(
        all.len(),
        |i: int| ModelArgumentView::Pair(all[i]@),
    ));
    list
}

/// The arguments, if a model takes the form of each.
fn list_metas(metas: Vec<MetaParts>) -> (list: Option<Vec<ModelArgument>>)
    ensures
        ({
            let shown = Seq::new(metas@.len(), |i: int| metas@[i]@);
            match list {
                Some(list) => are_model_arguments(shown) && model::model_argument_views(list@)
                    == Seq::new(shown.len(), |i: int| model_argument_of(shown[i])),
                None => !are_model_arguments(shown),
            }
        }),
{
    let ghost all = metas@;
    let ghost shown = Seq::new(metas@.len(), |i: int| metas@[i]@);
    let mut rest: Vec<MetaParts> = metas;
    let mut list: Vec<ModelArgument> = Vec::new();
    while rest.len() > 0
        invariant
            all == metas@,
            shown == Seq::new(all.len(), |i: int| all[i]@),
            list@.len() + rest@.len() == all.len(),
            rest@ == all.skip(list@.len() as int),
            forall|k: int| 0 <= k < list@.len() ==> is_model_argument(#[trigger] shown[k]),
            forall|k: int|
                0 <= k < list@.len() ==> (#[trigger] list@[k])@ == model_argument_of(shown[k]),
        decreases rest@.len(),
    {
        let ghost at = list@.len() as int;
        let meta: MetaParts = rest.remove(0);
        assert(meta == all[at]);
        assert(shown[at] == meta@);
        match read_model_argument(meta) {
            Some(argument) => {
                list.push(argument);
            },
            None => {
                assert(!is_model_argument(shown[at]));
                return None;
            },
        }
        assert(rest@ =~= all.skip(at + 1));
    }
    assert(model::model_argument_views(list@) =~= Seq::new(
        shown.len(),
        |i: int| model_argument_of(shown[i]),
    ));
    Some(list)
}

/// Reads the arguments of a model.
pub fn read_model_arguments(text: &str) -> (list: Result<Vec<ModelArgument>, String>)
    ensures
        match (list, model_arguments_of(text@)) {
            (Ok(list), Ok(wanted)) => model::model_argument_views(list@) == wanted,
            (Err(message), Err(wanted)) => message@ == wanted,
            _ => false,
        },
{
    match reading::read_arguments(text) {
        Ok(arguments) => {
            let ghost given = arguments@;
            let list: Vec<ModelArgument> = list_pairs(arguments);
            proof {
                let wanted = reading::arguments_of(text@)->Ok_0;
                assert(wanted == arguments::argument_views(given));
                assert(model::model_argument_views(list@) =~= Seq::new(
                    wanted.len(),
                    |i: int| ModelArgumentView::Pair(wanted[i]),
                ));
            }
            Ok(list)
        },
        Err(message) => match source::split_metas(text) {
            Ok(metas) => match list_metas(metas) {
                Some(list) => Ok(list),
                None => Err(message),
            },
            Err(_) => Err(message),
        },
    }
}

/// Whether the declaration is the one with this name, these arguments and these fields.
pub open spec fn is_model_declaration(
    declaration: ModelDeclaration,
    name: Seq<char>,
    list: Seq<ModelArgumentView>,
    fields: Option<Seq<FieldSource>>,
) -> bool {
    &&& declaration.name@ == name
    &&& declaration.arguments matches Ok(given) && model::model_argument_views(given@) == list
    &&& match (declaration.fields, fields) {
        (Some(given), Some(wanted)) => shown_fields(given@) == wanted,
        (None, None) => true,
        _ => false,
    }
}

/// The named fields of a struct, none where they have no names, or why they cannot be read.
pub open spec fn struct_fields_of(fields: StructFieldsView) -> Result<
    Option<Seq<FieldSource>>,
    Seq<char>,
> {
    match fields {
        StructFieldsView::Named(texts) => match fields_of(texts, texts.len()) {
            Ok(list) => Ok(Some(list)),
            Err(message) => Err(message),
        },
        _ => Ok(None),
    }
}

/// Whether this is the outcome of a model that is declared so.
pub open spec fn model_expands(
    arguments: Seq<char>,
    item: Seq<char>,
    outcome: Result<ModelPlan, String>,
) -> bool {
    match model_arguments_of(arguments) {
        Err(reason) => outcome matches Err(message) && message@ == reason,
        Ok(list) => match model::options_of(list, list.len()) {
            Err(reason) => outcome matches Err(message) && message@ == reason,
            Ok(_) => match source::syn_struct(item) {
                Err(reason) => outcome matches Err(message) && message@ == reason,
                Ok(parts) => match struct_fields_of(parts.fields) {
                    Err(reason) => outcome matches Err(message) && message@ == reason,
                    Ok(fields) => model_means(parts.name, list, fields, outcome),
                },
            },
        },
    }
}

/// Whether this is the outcome of a model with this name, these arguments and these fields.
pub open spec fn model_means(
    name: Seq<char>,
    list: Seq<ModelArgumentView>,
    fields: Option<Seq<FieldSource>>,
    outcome: Result<ModelPlan, String>,
) -> bool {
    exists|declaration: ModelDeclaration|
        is_model_declaration(declaration, name, list, fields) && #[trigger] model::model_outcome_is(
            declaration,
            outcome,
        )
}

/// Decides what a model subscribes that is declared in source text, or why it is refused.
pub fn expand(arguments: &str, item: &str) -> (outcome: Result<ModelPlan, String>)
    ensures
        model_expands(arguments@, item@, outcome),
{
    let list: Vec<ModelArgument> = match read_model_arguments(arguments) {
        Ok(list) => list,
        Err(message) => {
            return Err(message);
        },
    };
    match parse_after_arg(&list) {
        Ok(_) => {},
        Err(message) => {
            return Err(message);
        },
    }
    let parts: StructParts = match source::take_struct_apart(item) {
        Ok(parts) => parts,
        Err(message) => {
            return Err(message);
        },
    };
    let ghost shown = parts@;
    let fields: Option<Vec<FieldDeclaration>> = match &parts.fields {
        StructFields::Named(texts) => match read_fields(texts) {
            Ok(fields) => Some(fields),
            Err(message) => {
                return Err(message);
            },
        },
        _ => None,
    };
    let ghost views = model::model_argument_views(list@);
    let declaration = ModelDeclaration { name: parts.name, arguments: Ok(list), fields };
    let outcome: Result<ModelPlan, String> = plan_model(&declaration);
    proof {
        let wanted = struct_fields_of(shown.fields)->Ok_0;
        assert(is_model_declaration(declaration, shown.name, views, wanted));
        assert(model_means(shown.name, views, wanted, outcome));
    }
    outcome
}

} // verus!
