//! What an annotated field of a model means.
use crate::declaration::arguments;
use crate::declaration::arguments::{Attribute, AttributeView, FieldKeySpec, KeySpecView};
use crate::text;
use vstd::prelude::*;

verus! {

/// The type of a field as far as a declaration reads it.
pub enum FieldType {
    /// One double.
    Double,
    /// An array with a literal length, or the text of the parser's error on that literal. The flag
    /// tells whether its elements are doubles.
    Array { of_doubles: bool, length: Result<usize, String> },
    /// An array with a length that is no literal integer.
    ComputedArray { of_doubles: bool },
    Other,
}

#[derive(Clone, Copy, Debug, PartialEq, Eq, Structural)]
pub enum FieldShape {
    Scalar,
    Array(usize),
}

impl FieldShape {
    /// How many keys a field of this shape has.
    pub open spec fn width(self) -> nat {
        match self {
            FieldShape::Scalar => 1,
            FieldShape::Array(n) => n as nat,
        }
    }
}

/// The shape of a field that holds signals, or why it can hold none.
pub open spec fn shape_of(ty: FieldType) -> Result<FieldShape, Seq<char>> {
    match ty {
        FieldType::Double => Ok(FieldShape::Scalar),
        FieldType::Array { of_doubles, length } => if !of_doubles {
            Err("#[dynamic_model] só suporta campos `f64` ou `[f64; N]`"@)
        } else {
            match length {
                Ok(n) => Ok(FieldShape::Array(n)),
                Err(message) => Err(message@),
            }
        },
        FieldType::ComputedArray { of_doubles } => if !of_doubles {
            Err("#[dynamic_model] só suporta campos `f64` ou `[f64; N]`"@)
        } else {
            Err("tamanho do array precisa ser um inteiro literal"@)
        },
        FieldType::Other => Err("#[dynamic_model] só suporta campos `f64` ou `[f64; N]`"@),
    }
}

pub fn field_shape(ty: &FieldType) -> (outcome: Result<FieldShape, String>)
    ensures
        match (outcome, shape_of(*ty)) {
            (Ok(shape), Ok(wanted)) => shape == wanted,
            (Err(message), Err(wanted)) => message@ == wanted,
            _ => false,
        },
{
    match ty {
        FieldType::Double => Ok(FieldShape::Scalar),
        FieldType::Array { of_doubles, length } => {
            if !*of_doubles {
                return Err("#[dynamic_model] só suporta campos `f64` ou `[f64; N]`".to_owned());
            }
            match length {
                Ok(n) => Ok(FieldShape::Array(*n)),
                Err(message) => Err(message.clone()),
            }
        },
        FieldType::ComputedArray { of_doubles } => {
            if !*of_doubles {
                return Err("#[dynamic_model] só suporta campos `f64` ou `[f64; N]`".to_owned());
            }
            Err("tamanho do array precisa ser um inteiro literal".to_owned())
        },
        FieldType::Other => Err(
            "#[dynamic_model] só suporta campos `f64` ou `[f64; N]`".to_owned(),
        ),
    }
}

/// A field of a declared model.
pub struct FieldDeclaration {
    pub name: String,
    pub ty: FieldType,
    pub attributes: Vec<Attribute>,
}

/// What the annotations of a field say, without its name and type.
pub struct FieldMarks {
    pub config: Option<FieldKeySpec>,
    pub offer: Option<FieldKeySpec>,
    pub need: Option<FieldKeySpec>,
    pub state: bool,
}

#[verifier::ext_equal]
pub struct MarksView {
    pub config: Option<KeySpecView>,
    pub offer: Option<KeySpecView>,
    pub need: Option<KeySpecView>,
    pub state: bool,
}

pub open spec fn shown(part: Option<FieldKeySpec>) -> Option<KeySpecView> {
    match part {
        Some(keys) => Some(keys@),
        None => None,
    }
}

impl FieldMarks {
    pub open spec fn view(&self) -> MarksView {
        MarksView {
            config: shown(self.config),
            offer: shown(self.offer),
            need: shown(self.need),
            state: self.state,
        }
    }
}

/// The plan for a field: an ordinary field, or one that holds signals.
pub enum FieldPlan {
    Plain { name: String },
    Signals { name: String, shape: FieldShape, marks: FieldMarks },
}

pub enum FieldPlanView {
    Plain { name: Seq<char> },
    Signals { name: Seq<char>, shape: FieldShape, marks: MarksView },
}

impl FieldPlan {
    pub open spec fn view(&self) -> FieldPlanView {
        match self {
            FieldPlan::Plain { name } => FieldPlanView::Plain { name: name@ },
            FieldPlan::Signals { name, shape, marks } => FieldPlanView::Signals {
                name: name@,
                shape: *shape,
                marks: marks@,
            },
        }
    }
}

/// Whether an annotation speaks of signals.
pub open spec fn is_mark(name: Seq<char>) -> bool {
    name == "config"@ || name == "offer"@ || name == "need"@ || name == "state"@
}

/// The message for a field that holds `width` values under `count` keys.
pub open spec fn width_message(width: nat, count: nat) -> Seq<char> {
    "campo declarado como "@ + text::decimal(width) + " valor(es) mas o atributo descreve "@
        + text::decimal(count)
        + " chave(s) — components.len() precisa bater com o tamanho do array"@
}

/// The keys that one annotation adds to a field of the given width.
pub open spec fn added_keys(
    present: Option<KeySpecView>,
    attribute: AttributeView,
    width: nat,
) -> Result<Option<KeySpecView>, Seq<char>> {
    if present is Some {
        Err("atributo repetido no mesmo campo"@)
    } else {
        match arguments::key_spec_of(attribute.arguments) {
            Err(message) => Err(message),
            Ok(keys) => if keys.keys().len() != width {
                Err(width_message(width, keys.keys().len()))
            } else {
                Ok(Some(keys))
            },
        }
    }
}

/// What the first `n` annotations say, or the first error among them.
pub open spec fn marks_of(attributes: Seq<AttributeView>, n: nat, width: nat) -> Result<
    MarksView,
    Seq<char>,
>
    decreases n,
{
    if n == 0 {
        Ok(MarksView { config: None, offer: None, need: None, state: false })
    } else {
        match marks_of(attributes, (n - 1) as nat, width) {
            Err(message) => Err(message),
            Ok(marks) => {
                let attribute = attributes[n - 1];
                if attribute.name == "state"@ {
                    if marks.state {
                        Err("atributo repetido no mesmo campo"@)
                    } else {
                        Ok(MarksView { state: true, ..marks })
                    }
                } else if attribute.name == "config"@ {
                    match added_keys(marks.config, attribute, width) {
                        Ok(config) => Ok(MarksView { config, ..marks }),
                        Err(message) => Err(message),
                    }
                } else if attribute.name == "offer"@ {
                    match added_keys(marks.offer, attribute, width) {
                        Ok(offer) => Ok(MarksView { offer, ..marks }),
                        Err(message) => Err(message),
                    }
                } else if attribute.name == "need"@ {
                    match added_keys(marks.need, attribute, width) {
                        Ok(need) => Ok(MarksView { need, ..marks }),
                        Err(message) => Err(message),
                    }
                } else {
                    Ok(marks)
                }
            },
        }
    }
}

/// Why annotations that are well formed one by one do not go together, if they do not.
pub open spec fn conflict(marks: MarksView) -> Option<Seq<char>> {
    if marks.need is Some && (marks.config is Some || marks.offer is Some || marks.state) {
        Some(
            "#[need] não se combina com #[config]/#[offer]/#[state] no mesmo campo — precisa vem de outro componente, não é publicado por este"@,
        )
    } else if marks.config is Some && marks.offer is None {
        Some(
            "#[config] sozinho não cria sinal nenhum — combine com #[offer(...)] (config só decide o valor inicial de um sinal publicado)"@,
        )
    } else if marks.state && marks.offer is None {
        Some(
            "#[state] sozinho não cria sinal nenhum — combine com #[offer(...)] (state marca um sinal publicado como parte do vetor de integração)"@,
        )
    } else {
        None
    }
}

/// The plan for a field, or why it has none.
pub open spec fn plan_of(field: FieldDeclaration) -> Result<FieldPlanView, Seq<char>> {
    let attributes = arguments::attribute_views(field.attributes@);
    if !exists|i: int| 0 <= i < attributes.len() && is_mark(#[trigger] attributes[i].name) {
        Ok(FieldPlanView::Plain { name: field.name@ })
    } else {
        match shape_of(field.ty) {
            Err(message) => Err(message),
            Ok(shape) => match marks_of(attributes, attributes.len(), shape.width()) {
                Err(message) => Err(message),
                Ok(marks) => match conflict(marks) {
                    Some(message) => Err(message),
                    None => Ok(FieldPlanView::Signals { name: field.name@, shape, marks }),
                },
            },
        }
    }
}

pub open spec fn plan_outcome_is(
    outcome: Result<FieldPlan, String>,
    expected: Result<FieldPlanView, Seq<char>>,
) -> bool {
    match (outcome, expected) {
        (Ok(plan), Ok(wanted)) => plan@ == wanted,
        (Err(message), Err(wanted)) => message@ == wanted,
        _ => false,
    }
}

/// An error among the first annotations is the error of the whole.
proof fn first_error_stays(attributes: Seq<AttributeView>, n: nat, m: nat, width: nat)
    requires
        n <= m,
        marks_of(attributes, n, width) is Err,
    ensures
        marks_of(attributes, m, width) == marks_of(attributes, n, width),
    decreases m,
{
    if n < m {
        first_error_stays(attributes, n, (m - 1) as nat, width);
    }
}

fn is_signal_mark(name: &String) -> (yes: bool)
    ensures
        yes == is_mark(name@),
{
    text::same(name, "config") || text::same(name, "offer") || text::same(name, "need")
        || text::same(name, "state")
}

/// The keys that one annotation adds to a field of the given width.
fn add_keys(present: &Option<FieldKeySpec>, attribute: &Attribute, width: usize) -> (outcome: Result<
    FieldKeySpec,
    String,
>)
    ensures
        match (outcome, added_keys(shown(*present), attribute@, width as nat)) {
            (Ok(keys), Ok(wanted)) => wanted == Some(keys@),
            (Err(message), Err(wanted)) => message@ == wanted,
            _ => false,
        },
{
    if present.is_some() {
        return Err("atributo repetido no mesmo campo".to_owned());
    }
    let keys = match arguments::parse_key_spec(attribute) {
        Ok(keys) => keys,
        Err(message) => {
            return Err(message);
        },
    };
    let described: Vec<String> = keys.keys();
    let count: usize = described.len();
    assert(text::texts(described@).len() == count);
    if count != width {
        let mut message: String = text::framed(
            "campo declarado como ",
            text::to_decimal(width).as_str(),
            " valor(es) mas o atributo descreve ",
        );
        message.append(text::to_decimal(count).as_str());
        message.append(" chave(s) — components.len() precisa bater com o tamanho do array");
        return Err(message);
    }
    Ok(keys)
}

/// Decides what a field means.
pub fn build_field_plan(field: &FieldDeclaration) -> (outcome: Result<FieldPlan, String>)
    ensures
        plan_outcome_is(outcome, plan_of(*field)),
{
    let ghost attributes = arguments::attribute_views(field.attributes@);
    let mut marked: bool = false;
    let mut i: usize = 0;
    while i < field.attributes.len()
        invariant
            i <= field.attributes@.len(),
            attributes == arguments::attribute_views(field.attributes@),
            marked <==> exists|k: int| 0 <= k < i && is_mark(#[trigger] attributes[k].name),
        decreases field.attributes@.len() - i,
    {
        assert(attributes[i as int] == field.attributes@[i as int]@);
        if is_signal_mark(&field.attributes[i].name) {
            assert(is_mark(attributes[i as int].name));
            marked = true;
        }
        i = i + 1;
    }
    if !marked {
        return Ok(FieldPlan::Plain { name: field.name.clone() });
    }
    let shape: FieldShape = match field_shape(&field.ty) {
        Ok(shape) => shape,
        Err(message) => {
            return Err(message);
        },
    };
    let width: usize = match shape {
        FieldShape::Scalar => 1,
        FieldShape::Array(n) => n,
    };
    let mut config: Option<FieldKeySpec> = None;
    let mut offer: Option<FieldKeySpec> = None;
    let mut need: Option<FieldKeySpec> = None;
    let mut state: bool = false;
    let mut j: usize = 0;
    while j < field.attributes.len()
        invariant
            j <= field.attributes@.len(),
            attributes == arguments::attribute_views(field.attributes@),
            exists|k: int|
                0 <= k < attributes.len() && is_mark(#[trigger] attributes[k].name),
            shape_of(field.ty) == Ok::<FieldShape, Seq<char>>(shape),
            width == shape.width(),
            marks_of(attributes, j as nat, width as nat) == Ok::<MarksView, Seq<char>>(
                MarksView {
                    config: shown(config),
                    offer: shown(offer),
                    need: shown(need),
                    state,
                },
            ),
        decreases field.attributes@.len() - j,
    {
        let attribute = &field.attributes[j];
        assert(attributes[j as int] == attribute@);
        let ghost after = (j + 1) as nat;
        if text::same(&attribute.name, "state") {
            if state {
                proof {
                    first_error_stays(attributes, after, attributes.len(), width as nat);
                }
                return Err("atributo repetido no mesmo campo".to_owned());
            }
            state = true;
        } else if text::same(&attribute.name, "config") {
            match add_keys(&config, attribute, width) {
                Ok(keys) => {
                    config = Some(keys);
                },
                Err(message) => {
                    proof {
                        first_error_stays(attributes, after, attributes.len(), width as nat);
                    }
                    return Err(message);
                },
            }
        } else if text::same(&attribute.name, "offer") {
            match add_keys(&offer, attribute, width) {
                Ok(keys) => {
                    offer = Some(keys);
                },
                Err(message) => {
                    proof {
                        first_error_stays(attributes, after, attributes.len(), width as nat);
                    }
                    return Err(message);
                },
            }
        } else if text::same(&attribute.name, "need") {
            match add_keys(&need, attribute, width) {
                Ok(keys) => {
                    need = Some(keys);
                },
                Err(message) => {
                    proof {
                        first_error_stays(attributes, after, attributes.len(), width as nat);
                    }
                    return Err(message);
                },
            }
        }
        j = j + 1;
    }
    if need.is_some() && (config.is_some() || offer.is_some() || state) {
        return Err(
            "#[need] não se combina com #[config]/#[offer]/#[state] no mesmo campo — precisa vem de outro componente, não é publicado por este".to_owned(),
        );
    }
    if config.is_some() && offer.is_none() {
        return Err(
            "#[config] sozinho não cria sinal nenhum — combine com #[offer(...)] (config só decide o valor inicial de um sinal publicado)".to_owned(),
        );
    }
    if state && offer.is_none() {
        return Err(
            "#[state] sozinho não cria sinal nenhum — combine com #[offer(...)] (state marca um sinal publicado como parte do vetor de integração)".to_owned(),
        );
    }
    Ok(
        FieldPlan::Signals {
            name: field.name.clone(),
            shape,
            marks: FieldMarks { config, offer, need, state },
        },
    )
}

} // verus!
