//! The arguments of an annotation.
use crate::text;
use vstd::prelude::*;

verus! {

/// The value of an argument: a string literal, a list of which each element is a string literal or
/// something else, or something else.
pub enum Literal {
    Text(String),
    List(Vec<Option<String>>),
    Other,
}

#[verifier::ext_equal]
pub enum LiteralView {
    Text(Seq<char>),
    List(Seq<Option<Seq<char>>>),
    Other,
}

pub open spec fn elements(list: Seq<Option<String>>) -> Seq<Option<Seq<char>>> {
    Seq::new(
        list.len(),
        |i: int|
            match list[i] {
                Some(text) => Some(text@),
                None => None,
            },
    )
}

impl Literal {
    pub open spec fn view(&self) -> LiteralView {
        match self {
            Literal::Text(text) => LiteralView::Text(text@),
            Literal::List(list) => LiteralView::List(elements(list@)),
            Literal::Other => LiteralView::Other,
        }
    }
}

/// An argument `name = value`.
pub struct Argument {
    pub name: String,
    pub value: Literal,
}

#[verifier::ext_equal]
pub struct ArgumentView {
    pub name: Seq<char>,
    pub value: LiteralView,
}

impl Argument {
    pub open spec fn view(&self) -> ArgumentView {
        ArgumentView { name: self.name@, value: self.value@ }
    }
}

pub open spec fn argument_views(list: Seq<Argument>) -> Seq<ArgumentView> {
    Seq::new(list.len(), |i: int| list[i]@)
}

/// An annotation. Where its arguments do not parse, the text of the parser's error is at hand.
pub struct Attribute {
    pub name: String,
    pub arguments: Result<Vec<Argument>, String>,
}

#[verifier::ext_equal]
pub struct AttributeView {
    pub name: Seq<char>,
    pub arguments: Result<Seq<ArgumentView>, Seq<char>>,
}

impl Attribute {
    pub open spec fn view(&self) -> AttributeView {
        AttributeView {
            name: self.name@,
            arguments: match self.arguments {
                Ok(list) => Ok(argument_views(list@)),
                Err(message) => Err(message@),
            },
        }
    }
}

pub open spec fn attribute_views(list: Seq<Attribute>) -> Seq<AttributeView> {
    Seq::new(list.len(), |i: int| list[i]@)
}

/// The text of a string literal.
pub open spec fn text_of(value: LiteralView) -> Result<Seq<char>, Seq<char>> {
    match value {
        LiteralView::Text(text) => Ok(text),
        _ => Err("esperada uma string literal"@),
    }
}

/// The texts of a list of string literals.
pub open spec fn texts_of(value: LiteralView) -> Result<Seq<Seq<char>>, Seq<char>> {
    match value {
        LiteralView::List(list) => if forall|i: int|
            0 <= i < list.len() ==> (#[trigger] list[i]) is Some {
            Ok(Seq::new(list.len(), |i: int| list[i]->0))
        } else {
            Err("esperada uma string literal"@)
        },
        _ => Err("esperado um array de strings, ex.: [\"a\", \"b\"]"@),
    }
}

pub open spec fn texts_outcome_is(
    outcome: Result<Vec<String>, String>,
    expected: Result<Seq<Seq<char>>, Seq<char>>,
) -> bool {
    match (outcome, expected) {
        (Ok(list), Ok(wanted)) => text::texts(list@) == wanted,
        (Err(message), Err(wanted)) => message@ == wanted,
        _ => false,
    }
}

pub fn expect_str_lit(value: &Literal) -> (outcome: Result<String, String>)
    ensures
        text::outcome_is(outcome, text_of(value@)),
{
    match value {
        Literal::Text(text) => Ok(text.clone()),
        _ => Err("esperada uma string literal".to_owned()),
    }
}

pub fn expect_str_array(value: &Literal) -> (outcome: Result<Vec<String>, String>)
    ensures
        texts_outcome_is(outcome, texts_of(value@)),
{
    match value {
        Literal::List(list) => {
            let ghost shown = elements(list@);
            let mut texts: Vec<String> = Vec::new();
            let mut i: usize = 0;
            while i < list.len()
                invariant
                    i <= list@.len(),
                    value@ == LiteralView::List(shown),
                    shown == elements(list@),
                    texts@.len() == i,
                    forall|k: int|
                        0 <= k < i ==> (#[trigger] shown[k]) is Some && shown[k]->0 == texts@[k]@,
                decreases list@.len() - i,
            {
                match &list[i] {
                    Some(text) => {
                        texts.push(text.clone());
                    },
                    None => {
                        assert(shown[i as int] is None);
                        return Err("esperada uma string literal".to_owned());
                    },
                }
                i = i + 1;
            }
            assert(text::texts(texts@) =~= Seq::new(shown.len(), |i: int| shown[i]->0));
            Ok(texts)
        },
        _ => Err("esperado um array de strings, ex.: [\"a\", \"b\"]".to_owned()),
    }
}

/// The keys that an annotation describes: one, or one for each component below a prefix.
pub enum FieldKeySpec {
    Scalar(String),
    Array(String, Vec<String>),
}

#[verifier::ext_equal]
pub enum KeySpecView {
    Scalar(Seq<char>),
    Array(Seq<char>, Seq<Seq<char>>),
}

impl KeySpecView {
    /// The described keys, in order.
    pub open spec fn keys(self) -> Seq<Seq<char>> {
        match self {
            KeySpecView::Scalar(key) => seq![key],
            KeySpecView::Array(prefix, components) => Seq::new(
                components.len(),
                |i: int| prefix + "."@ + components[i],
            ),
        }
    }

    /// The length of the array, where it describes one.
    pub open spec fn array_length(self) -> Option<nat> {
        match self {
            KeySpecView::Scalar(_) => None,
            KeySpecView::Array(_, components) => Some(components.len()),
        }
    }
}

impl FieldKeySpec {
    pub open spec fn view(&self) -> KeySpecView {
        match self {
            FieldKeySpec::Scalar(key) => KeySpecView::Scalar(key@),
            FieldKeySpec::Array(prefix, components) => KeySpecView::Array(
                prefix@,
                text::texts(components@),
            ),
        }
    }

    pub fn keys(&self) -> (keys: Vec<String>)
        ensures
            text::texts(keys@) == self@.keys(),
    {
        let mut keys: Vec<String> = Vec::new();
        match self {
            FieldKeySpec::Scalar(key) => {
                keys.push(key.clone());
                assert(text::texts(keys@) =~= self@.keys());
            },
            FieldKeySpec::Array(prefix, components) => {
                let mut i: usize = 0;
                while i < components.len()
                    invariant
                        i <= components@.len(),
                        keys@.len() == i,
                        forall|k: int|
                            0 <= k < i ==> (#[trigger] keys@[k])@ == prefix@ + "."@
                                + components@[k]@,
                    decreases components@.len() - i,
                {
                    keys.push(text::dotted(prefix.as_str(), components[i].as_str()));
                    i = i + 1;
                }
                assert(text::texts(keys@) =~= self@.keys());
            },
        }
        keys
    }

    /// The length of the array, where it describes one.
    pub fn array_length(&self) -> (length: Option<usize>)
        ensures
            match (length, self@.array_length()) {
                (Some(n), Some(m)) => n == m,
                (None, None) => true,
                _ => false,
            },
    {
        match self {
            FieldKeySpec::Scalar(_) => None,
            FieldKeySpec::Array(_, components) => Some(components.len()),
        }
    }
}

/// The three arguments by which keys are described.
#[verifier::ext_equal]
pub struct KeyParts {
    pub key: Option<Seq<char>>,
    pub prefix: Option<Seq<char>>,
    pub components: Option<Seq<Seq<char>>>,
}

/// The parts that the first `n` arguments give, or the first error among them. Of two arguments
/// with one name the later counts.
pub open spec fn key_parts(arguments: Seq<ArgumentView>, n: nat) -> Result<KeyParts, Seq<char>>
    decreases n,
{
    if n == 0 {
        Ok(KeyParts { key: None, prefix: None, components: None })
    } else {
        match key_parts(arguments, (n - 1) as nat) {
            Err(message) => Err(message),
            Ok(parts) => {
                let argument = arguments[n - 1];
                if argument.name == "key"@ {
                    match text_of(argument.value) {
                        Ok(text) => Ok(KeyParts { key: Some(text), ..parts }),
                        Err(message) => Err(message),
                    }
                } else if argument.name == "prefix"@ {
                    match text_of(argument.value) {
                        Ok(text) => Ok(KeyParts { prefix: Some(text), ..parts }),
                        Err(message) => Err(message),
                    }
                } else if argument.name == "components"@ {
                    match texts_of(argument.value) {
                        Ok(texts) => Ok(KeyParts { components: Some(texts), ..parts }),
                        Err(message) => Err(message),
                    }
                } else {
                    Err("esperado `key`, `prefix` ou `components`"@)
                }
            },
        }
    }
}

/// The keys that an annotation describes, or why it describes none.
pub open spec fn key_spec_of(arguments: Result<Seq<ArgumentView>, Seq<char>>) -> Result<
    KeySpecView,
    Seq<char>,
> {
    match arguments {
        Err(message) => Err(message),
        Ok(arguments) => match key_parts(arguments, arguments.len()) {
            Err(message) => Err(message),
            Ok(parts) => match (parts.key, parts.prefix, parts.components) {
                (Some(key), None, None) => Ok(KeySpecView::Scalar(key)),
                (None, Some(prefix), Some(components)) => Ok(KeySpecView::Array(prefix, components)),
                (None, None, None) => Err(
                    "esperado `key = \"...\"` ou `prefix = \"...\", components = [...]`"@,
                ),
                _ => Err(
                    "use `key = \"...\"` (escalar) OU `prefix`+`components` (array), não uma mistura"@,
                ),
            },
        },
    }
}

pub open spec fn key_spec_outcome_is(
    outcome: Result<FieldKeySpec, String>,
    expected: Result<KeySpecView, Seq<char>>,
) -> bool {
    match (outcome, expected) {
        (Ok(spec_found), Ok(wanted)) => spec_found@ == wanted,
        (Err(message), Err(wanted)) => message@ == wanted,
        _ => false,
    }
}

pub open spec fn shown(part: Option<String>) -> Option<Seq<char>> {
    match part {
        Some(text) => Some(text@),
        None => None,
    }
}

pub open spec fn shown_list(part: Option<Vec<String>>) -> Option<Seq<Seq<char>>> {
    match part {
        Some(list) => Some(text::texts(list@)),
        None => None,
    }
}

/// Reads `key = "..."`, or `prefix = "..."` with `components = [...]`.
pub fn parse_key_spec(attribute: &Attribute) -> (outcome: Result<FieldKeySpec, String>)
    ensures
        key_spec_outcome_is(outcome, key_spec_of(attribute@.arguments)),
{
    let pairs = match &attribute.arguments {
        Ok(pairs) => pairs,
        Err(message) => {
            return Err(message.clone());
        },
    };
    let ghost arguments = argument_views(pairs@);
    let mut key: Option<String> = None;
    let mut prefix: Option<String> = None;
    let mut components: Option<Vec<String>> = None;
    let mut i: usize = 0;
    while i < pairs.len()
        invariant
            i <= pairs@.len(),
            arguments == argument_views(pairs@),
            attribute@.arguments == Ok::<Seq<ArgumentView>, Seq<char>>(arguments),
            key_parts(arguments, i as nat) == Ok::<KeyParts, Seq<char>>(
                KeyParts {
                    key: shown(key),
                    prefix: shown(prefix),
                    components: shown_list(components),
                },
            ),
        decreases pairs@.len() - i,
    {
        let pair = &pairs[i];
        assert(arguments[i as int] == pair@);
        if text::same(&pair.name, "key") {
            match expect_str_lit(&pair.value) {
                Ok(text) => {
                    key = Some(text);
                },
                Err(message) => {
                    proof {
                        first_error_stays(arguments, (i + 1) as nat, arguments.len());
                    }
                    return Err(message);
                },
            }
        } else if text::same(&pair.name, "prefix") {
            match expect_str_lit(&pair.value) {
                Ok(text) => {
                    prefix = Some(text);
                },
                Err(message) => {
                    proof {
                        first_error_stays(arguments, (i + 1) as nat, arguments.len());
                    }
                    return Err(message);
                },
            }
        } else if text::same(&pair.name, "components") {
            match expect_str_array(&pair.value) {
                Ok(texts) => {
                    components = Some(texts);
                },
                Err(message) => {
                    proof {
                        first_error_stays(arguments, (i + 1) as nat, arguments.len());
                    }
                    return Err(message);
                },
            }
        } else {
            proof {
                first_error_stays(arguments, (i + 1) as nat, arguments.len());
            }
            return Err("esperado `key`, `prefix` ou `components`".to_owned());
        }
        i = i + 1;
    }
    match (key, prefix, components) {
        (Some(key), None, None) => Ok(FieldKeySpec::Scalar(key)),
        (None, Some(prefix), Some(components)) => Ok(FieldKeySpec::Array(prefix, components)),
        (None, None, None) => Err(
            "esperado `key = \"...\"` ou `prefix = \"...\", components = [...]`".to_owned(),
        ),
        _ => Err(
            "use `key = \"...\"` (escalar) OU `prefix`+`components` (array), não uma mistura".to_owned(),
        ),
    }
}

/// An error among the first arguments is the error of the whole.
proof fn first_error_stays(arguments: Seq<ArgumentView>, n: nat, m: nat)
    requires
        n <= m,
        key_parts(arguments, n) is Err,
    ensures
        key_parts(arguments, m) == key_parts(arguments, n),
    decreases m,
{
    if n < m {
        first_error_stays(arguments, n, (m - 1) as nat);
    }
}

} // verus!
