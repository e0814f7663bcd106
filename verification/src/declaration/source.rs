//! Declarations as source text, taken apart by the parser of the `syn` crate.
//!
//! A declaration is taken apart level by level. What lies below a level comes out as the text of its
//! tokens and is taken apart in its turn. The tokens are those of the `proc-macro2` crate without its
//! tie to a running compiler, so every function here is a function of the text alone.
use crate::declaration::arguments::{Literal, LiteralView};
use crate::text;
use quote::ToTokens;
use syn::parse::Parser;
use vstd::prelude::*;

verus! {

/// An optional text as text.
pub open spec fn shown_name(name: Option<String>) -> Option<Seq<char>> {
    match name {
        Some(name) => Some(name@),
        None => None,
    }
}

/// A text, or the reason why there is none, as text.
pub open spec fn shown_text(outcome: Result<String, String>) -> Result<Seq<char>, Seq<char>> {
    match outcome {
        Ok(text) => Ok(text@),
        Err(message) => Err(message@),
    }
}

/// The fields of a struct: each as text where they are named.
pub enum StructFields {
    Named(Vec<String>),
    Unnamed,
    Unit,
}

#[verifier::ext_equal]
pub enum StructFieldsView {
    Named(Seq<Seq<char>>),
    Unnamed,
    Unit,
}

pub struct StructParts {
    pub name: String,
    pub fields: StructFields,
}

#[verifier::ext_equal]
pub struct StructView {
    pub name: Seq<char>,
    pub fields: StructFieldsView,
}

impl StructParts {
    pub open spec fn view(&self) -> StructView {
        StructView {
            name: self.name@,
            fields: match self.fields {
                StructFields::Named(list) => StructFieldsView::Named(text::texts(list@)),
                StructFields::Unnamed => StructFieldsView::Unnamed,
                StructFields::Unit => StructFieldsView::Unit,
            },
        }
    }
}

pub open spec fn shown_struct(outcome: Result<StructParts, String>) -> Result<
    StructView,
    Seq<char>,
> {
    match outcome {
        Ok(parts) => Ok(parts@),
        Err(message) => Err(message@),
    }
}

/// What `syn::parse_str::<syn::ItemStruct>` makes of a text: the name and the fields of the struct,
/// or the message of its error.
pub uninterp spec fn syn_struct(item: Seq<char>) -> Result<StructView, Seq<char>>;

/// Calls `syn::parse_str` for a struct, and hands out its name and its fields, each named field as
/// the text of its tokens. Nothing is claimed but that the outcome depends on the text alone.
#[verifier::external_body]
pub(crate) fn take_struct_apart(item: &str) -> (parts: Result<StructParts, String>)
    ensures
        shown_struct(parts) == syn_struct(item@),
{
    let item = syn::parse_str::<syn::ItemStruct>(item).map_err(|error| error.to_string())?;
    let fields = match &item.fields {
        syn::Fields::Named(list) => StructFields::Named(
            list.named.iter().map(|field| field.to_token_stream().to_string()).collect(),
        ),
        syn::Fields::Unnamed(_) => StructFields::Unnamed,
        syn::Fields::Unit => StructFields::Unit,
    };
    Ok(StructParts { name: item.ident.to_string(), fields })
}

/// An annotation: its name where that is a single identifier, and the text between its parentheses,
/// or why there are none.
pub struct AttributeParts {
    pub name: Option<String>,
    pub arguments: Result<String, String>,
}

#[verifier::ext_equal]
pub struct AttributePartsView {
    pub name: Option<Seq<char>>,
    pub arguments: Result<Seq<char>, Seq<char>>,
}

impl AttributeParts {
    pub open spec fn view(&self) -> AttributePartsView {
        AttributePartsView {
            name: shown_name(self.name),
            arguments: shown_text(self.arguments),
        }
    }
}

pub open spec fn attribute_parts(list: Seq<AttributeParts>) -> Seq<AttributePartsView> {
    Seq::new(list.len(), |i: int| list[i]@)
}

/// A named field: its name, its type as text and its annotations.
pub struct FieldParts {
    pub name: String,
    pub ty: String,
    pub attributes: Vec<AttributeParts>,
}

#[verifier::ext_equal]
pub struct FieldView {
    pub name: Seq<char>,
    pub ty: Seq<char>,
    pub attributes: Seq<AttributePartsView>,
}

impl FieldParts {
    pub open spec fn view(&self) -> FieldView {
        FieldView {
            name: self.name@,
            ty: self.ty@,
            attributes: attribute_parts(self.attributes@),
        }
    }
}

pub open spec fn shown_field(outcome: Result<FieldParts, String>) -> Result<FieldView, Seq<char>> {
    match outcome {
        Ok(parts) => Ok(parts@),
        Err(message) => Err(message@),
    }
}

/// What `syn::Field::parse_named` makes of a text: the name, the type and the annotations of the
/// field, or the message of its error.
pub uninterp spec fn syn_field(field: Seq<char>) -> Result<FieldView, Seq<char>>;

/// Calls `syn::Field::parse_named`, and hands out the name of the field, its type as the text of its
/// tokens, and of each of its annotations the name and, by `syn::Attribute::parse_args`, the text of
/// the arguments. Nothing is claimed but that the outcome depends on the text alone.
#[verifier::external_body]
pub(crate) fn take_field_apart(field: &str) -> (parts: Result<FieldParts, String>)
    ensures
        shown_field(parts) == syn_field(field@),
{
    let field = syn::Field::parse_named.parse_str(field).map_err(|error| error.to_string())?;
    let part = |mark: &syn::Attribute| AttributeParts {
        name: mark.path().get_ident().map(|name| name.to_string()),
        arguments: mark.parse_args::<proc_macro2::TokenStream>().map(
            |tokens| tokens.to_string(),
        ).map_err(|error| error.to_string()),
    };
    Ok(
        FieldParts {
            name: field.ident.to_token_stream().to_string(),
            ty: field.ty.to_token_stream().to_string(),
            attributes: field.attrs.iter().map(part).collect(),
        },
    )
}

/// An item of an implementation: a method as text, or something else.
pub enum ImplPart {
    Method(String),
    Other,
}

#[verifier::ext_equal]
pub enum ImplPartView {
    Method(Seq<char>),
    Other,
}

impl ImplPart {
    pub open spec fn view(&self) -> ImplPartView {
        match self {
            ImplPart::Method(method) => ImplPartView::Method(method@),
            ImplPart::Other => ImplPartView::Other,
        }
    }
}

/// An implementation: whether it is one of a trait, the names in the path that is its type, its type
/// as text, and its items. There is no path where the type is of another form.
pub struct ImplParts {
    pub for_trait: bool,
    pub path: Option<Vec<String>>,
    pub self_type: String,
    pub items: Vec<ImplPart>,
}

#[verifier::ext_equal]
pub struct ImplView {
    pub for_trait: bool,
    pub path: Option<Seq<Seq<char>>>,
    pub self_type: Seq<char>,
    pub items: Seq<ImplPartView>,
}

impl ImplParts {
    pub open spec fn view(&self) -> ImplView {
        ImplView {
            for_trait: self.for_trait,
            path: match self.path {
                Some(names) => Some(text::texts(names@)),
                None => None,
            },
            self_type: self.self_type@,
            items: Seq::new(self.items@.len(), |i: int| self.items@[i]@),
        }
    }
}

pub open spec fn shown_impl(outcome: Result<ImplParts, String>) -> Result<ImplView, Seq<char>> {
    match outcome {
        Ok(parts) => Ok(parts@),
        Err(message) => Err(message@),
    }
}

/// What `syn::parse_str::<syn::ItemImpl>` makes of a text: the parts of the implementation, or the
/// message of its error.
pub uninterp spec fn syn_impl(item: Seq<char>) -> Result<ImplView, Seq<char>>;

/// Calls `syn::parse_str` for an implementation, and hands out its parts, each method as the text of
/// its tokens. Nothing is claimed but that the outcome depends on the text alone.
#[verifier::external_body]
pub(crate) fn take_impl_apart(item: &str) -> (parts: Result<ImplParts, String>)
    ensures
        shown_impl(parts) == syn_impl(item@),
{
    let item = syn::parse_str::<syn::ItemImpl>(item).map_err(|error| error.to_string())?;
    let path = match &*item.self_ty {
        syn::Type::Path(path) => Some(
            path.path.segments.iter().map(|segment| segment.ident.to_string()).collect(),
        ),
        _ => None,
    };
    let self_type = item.self_ty.to_token_stream().to_string();
    let part = |item: &syn::ImplItem| match item {
        syn::ImplItem::Fn(method) => ImplPart::Method(method.to_token_stream().to_string()),
        _ => ImplPart::Other,
    };
    let items = item.items.iter().map(part).collect();
    Ok(ImplParts { for_trait: item.trait_.is_some(), path, self_type, items })
}

/// A method: its name, its annotations, those inside of its body among them, and of each of its inputs
/// whether it is a parameter and not the receiver.
pub struct MethodParts {
    pub name: String,
    pub attributes: Vec<AttributeParts>,
    pub inputs: Vec<bool>,
}

#[verifier::ext_equal]
pub struct MethodView {
    pub name: Seq<char>,
    pub attributes: Seq<AttributePartsView>,
    pub inputs: Seq<bool>,
}

impl MethodParts {
    pub open spec fn view(&self) -> MethodView {
        MethodView {
            name: self.name@,
            attributes: attribute_parts(self.attributes@),
            inputs: self.inputs@,
        }
    }
}

pub open spec fn shown_method(outcome: Result<MethodParts, String>) -> Result<
    MethodView,
    Seq<char>,
> {
    match outcome {
        Ok(parts) => Ok(parts@),
        Err(message) => Err(message@),
    }
}

/// What `syn::parse_str::<syn::ImplItemFn>` makes of a text: the parts of the method, or the message
/// of its error.
pub uninterp spec fn syn_method(method: Seq<char>) -> Result<MethodView, Seq<char>>;

/// Calls `syn::parse_str` for a method, and hands out its name, of each of its annotations the name
/// and, by `syn::Attribute::parse_args`, the text of the arguments, and which of its inputs are
/// parameters. Nothing is claimed but that the outcome depends on the text alone.
#[verifier::external_body]
pub(crate) fn take_method_apart(method: &str) -> (parts: Result<MethodParts, String>)
    ensures
        shown_method(parts) == syn_method(method@),
{
    let method = syn::parse_str::<syn::ImplItemFn>(method).map_err(|error| error.to_string())?;
    let part = |mark: &syn::Attribute| AttributeParts {
        name: mark.path().get_ident().map(|name| name.to_string()),
        arguments: mark.parse_args::<proc_macro2::TokenStream>().map(
            |tokens| tokens.to_string(),
        ).map_err(|error| error.to_string()),
    };
    let parameter = |input: &syn::FnArg| matches!(input, syn::FnArg::Typed(_));
    Ok(
        MethodParts {
            name: method.sig.ident.to_string(),
            attributes: method.attrs.iter().map(part).collect(),
            inputs: method.sig.inputs.iter().map(parameter).collect(),
        },
    )
}

/// A type: the identifier that it is, if it is a path with one; or an array with the text of its
/// elements' type and the decimal digits of its length, if that is a literal; or something else.
pub enum TypeParts {
    Path(Option<String>),
    Array(String, Option<String>),
    Other,
}

#[verifier::ext_equal]
pub enum TypeView {
    Path(Option<Seq<char>>),
    Array(Seq<char>, Option<Seq<char>>),
    Other,
}

impl TypeParts {
    pub open spec fn view(&self) -> TypeView {
        match self {
            TypeParts::Path(name) => TypeView::Path(shown_name(*name)),
            TypeParts::Array(element, length) => TypeView::Array(element@, shown_name(*length)),
            TypeParts::Other => TypeView::Other,
        }
    }
}

/// What `syn::parse_str::<syn::Type>` makes of a text. A text that is no type counts as another type.
pub uninterp spec fn syn_type(ty: Seq<char>) -> TypeView;

/// Calls `syn::parse_str` for a type, and hands out its parts; the length of an array by
/// `syn::LitInt::base10_digits`. Nothing is claimed but that the outcome depends on the text alone.
#[verifier::external_body]
pub(crate) fn take_type_apart(ty: &str) -> (parts: TypeParts)
    ensures
        parts@ == syn_type(ty@),
{
    match syn::parse_str::<syn::Type>(ty) {
        Ok(syn::Type::Path(path)) => TypeParts::Path(path.path.get_ident().map(|name| name.to_string())),
        Ok(syn::Type::Array(array)) => TypeParts::Array(
            array.elem.to_token_stream().to_string(),
            match array.len {
                syn::Expr::Lit(syn::ExprLit { lit: syn::Lit::Int(length), .. }) => Some(
                    length.base10_digits().to_string(),
                ),
                _ => None,
            },
        ),
        _ => TypeParts::Other,
    }
}

/// What `syn::parse_str::<syn::Expr>` makes of a text: the text of a string literal, those of a list
/// of them, or something else.
pub uninterp spec fn syn_value(value: Seq<char>) -> LiteralView;

/// Calls `syn::parse_str` for an expression, and hands out the value of a string literal by
/// `syn::LitStr::value`, and of each element of a list whether it is one. Nothing is claimed but that
/// the outcome depends on the text alone.
#[verifier::external_body]
pub(crate) fn read_value(value: &str) -> (literal: Literal)
    ensures
        literal@ == syn_value(value@),
{
    let text = |value: &syn::Expr| match value {
        syn::Expr::Lit(syn::ExprLit { lit: syn::Lit::Str(text), .. }) => Some(text.value()),
        _ => None,
    };
    match syn::parse_str::<syn::Expr>(value) {
        Ok(syn::Expr::Array(list)) => Literal::List(list.elems.iter().map(text).collect()),
        Ok(value) => match text(&value) {
            Some(text) => Literal::Text(text),
            None => Literal::Other,
        },
        Err(_) => Literal::Other,
    }
}

/// One of several arguments: `name = value` with the value as text, a bare name, or a name with
/// something in parentheses. A name is missing if it is no single identifier.
pub enum MetaParts {
    Pair(Option<String>, String),
    Word(Option<String>),
    List(Option<String>),
}

#[verifier::ext_equal]
pub enum MetaView {
    Pair(Option<Seq<char>>, Seq<char>),
    Word(Option<Seq<char>>),
    List(Option<Seq<char>>),
}

impl MetaParts {
    pub open spec fn view(&self) -> MetaView {
        match self {
            MetaParts::Pair(name, value) => MetaView::Pair(shown_name(*name), value@),
            MetaParts::Word(name) => MetaView::Word(shown_name(*name)),
            MetaParts::List(name) => MetaView::List(shown_name(*name)),
        }
    }
}

pub open spec fn shown_metas(outcome: Result<Vec<MetaParts>, String>) -> Result<
    Seq<MetaView>,
    Seq<char>,
> {
    match outcome {
        Ok(list) => Ok(Seq::new(list@.len(), |i: int| list@[i]@)),
        Err(message) => Err(message@),
    }
}

/// What `syn::punctuated::Punctuated::parse_terminated` makes of a text as a list of `syn::Meta`
/// between commas, or the message of its error.
pub uninterp spec fn syn_metas(arguments: Seq<char>) -> Result<Seq<MetaView>, Seq<char>>;

/// Calls `syn::punctuated::Punctuated::parse_terminated` for a list of `syn::Meta`, and hands out the
/// name and, as the text of its tokens, the value of each. Nothing is claimed but that the outcome
/// depends on the text alone.
#[verifier::external_body]
pub(crate) fn split_metas(arguments: &str) -> (parts: Result<Vec<MetaParts>, String>)
    ensures
        shown_metas(parts) == syn_metas(arguments@),
{
    let name = |meta: &syn::Meta| meta.path().get_ident().map(|name| name.to_string());
    let part = |meta: &syn::Meta| match meta {
        syn::Meta::NameValue(pair) => MetaParts::Pair(
            name(meta),
            pair.value.to_token_stream().to_string(),
        ),
        syn::Meta::Path(_) => MetaParts::Word(name(meta)),
        syn::Meta::List(_) => MetaParts::List(name(meta)),
    };
    let parser = syn::punctuated::Punctuated::<syn::Meta, syn::token::Comma>::parse_terminated;
    match parser.parse_str(arguments) {
        Ok(list) => Ok(list.iter().map(part).collect()),
        Err(error) => Err(error.to_string()),
    }
}

/// An argument `name = value`: its name where that is a single identifier, and its value as text.
pub struct PairParts {
    pub name: Option<String>,
    pub value: String,
}

#[verifier::ext_equal]
pub struct PairView {
    pub name: Option<Seq<char>>,
    pub value: Seq<char>,
}

impl PairParts {
    pub open spec fn view(&self) -> PairView {
        PairView { name: shown_name(self.name), value: self.value@ }
    }
}

pub open spec fn shown_pairs(outcome: Result<Vec<PairParts>, String>) -> Result<
    Seq<PairView>,
    Seq<char>,
> {
    match outcome {
        Ok(list) => Ok(Seq::new(list@.len(), |i: int| list@[i]@)),
        Err(message) => Err(message@),
    }
}

/// What `syn::punctuated::Punctuated::parse_terminated` makes of a text as a list of
/// `syn::MetaNameValue` between commas, or the message of its error.
pub uninterp spec fn syn_pairs(arguments: Seq<char>) -> Result<Seq<PairView>, Seq<char>>;

/// Calls `syn::punctuated::Punctuated::parse_terminated` for a list of `syn::MetaNameValue`, and hands
/// out the name and, as the text of its tokens, the value of each. Nothing is claimed but that the
/// outcome depends on the text alone.
#[verifier::external_body]
pub(crate) fn split_pairs(arguments: &str) -> (parts: Result<Vec<PairParts>, String>)
    ensures
        shown_pairs(parts) == syn_pairs(arguments@),
{
    let part = |pair: &syn::MetaNameValue| PairParts {
        name: pair.path.get_ident().map(|name| name.to_string()),
        value: pair.value.to_token_stream().to_string(),
    };
    let parser =
        syn::punctuated::Punctuated::<syn::MetaNameValue, syn::token::Comma>::parse_terminated;
    match parser.parse_str(arguments) {
        Ok(list) => Ok(list.iter().map(part).collect()),
        Err(error) => Err(error.to_string()),
    }
}

pub open spec fn shown_pair(outcome: Result<PairParts, String>) -> Result<PairView, Seq<char>> {
    match outcome {
        Ok(pair) => Ok(pair@),
        Err(message) => Err(message@),
    }
}

/// What `syn::parse_str::<syn::MetaNameValue>` makes of a text, or the message of its error.
pub uninterp spec fn syn_pair(argument: Seq<char>) -> Result<PairView, Seq<char>>;

/// Calls `syn::parse_str` for a single `syn::MetaNameValue`, and hands out its name and, as the text
/// of its tokens, its value. Nothing is claimed but that the outcome depends on the text alone.
#[verifier::external_body]
pub(crate) fn take_pair_apart(argument: &str) -> (parts: Result<PairParts, String>)
    ensures
        shown_pair(parts) == syn_pair(argument@),
{
    match syn::parse_str::<syn::MetaNameValue>(argument) {
        Ok(pair) => Ok(
            PairParts {
                name: pair.path.get_ident().map(|name| name.to_string()),
                value: pair.value.to_token_stream().to_string(),
            },
        ),
        Err(error) => Err(error.to_string()),
    }
}

} // verus!
