//! Declarations read from source text.
//!
//! A declaration comes as two texts: the arguments of its annotation, and the annotated item. It is
//! read, and what it means is decided. The arguments are looked at before the item.
pub mod components;
pub mod dynamic_model;
pub mod tasks;

use crate::declaration::arguments;
use crate::declaration::arguments::{Argument, ArgumentView, Attribute, AttributeView};
use crate::declaration::model::ModelPlan;
use crate::declaration::parts;
use crate::declaration::source;
use crate::declaration::source::{AttributeParts, AttributePartsView, PairParts, PairView};
use vstd::prelude::*;

verus! {

/// A name, and no text where there is none.
pub open spec fn or_nothing(name: Option<Seq<char>>) -> Seq<char> {
    match name {
        Some(name) => name,
        None => Seq::empty(),
    }
}

pub(crate) fn name_or_nothing(name: Option<String>) -> (text: String)
    ensures
        text@ == or_nothing(source::shown_name(name)),
{
    match name {
        Some(name) => name,
        None => String::new(),
    }
}

pub open spec fn argument_of(pair: PairView) -> ArgumentView {
    ArgumentView { name: or_nothing(pair.name), value: source::syn_value(pair.value) }
}

pub(crate) fn read_argument(pair: PairParts) -> (argument: Argument)
    ensures
        argument@ == argument_of(pair@),
{
    let value = source::read_value(pair.value.as_str());
    Argument { name: name_or_nothing(pair.name), value }
}

/// The arguments in a text, or why there are none.
pub open spec fn arguments_of(text: Seq<char>) -> Result<Seq<ArgumentView>, Seq<char>> {
    match source::syn_pairs(text) {
        Ok(pairs) => Ok(Seq::new(pairs.len(), |i: int| argument_of(pairs[i]))),
        Err(message) => Err(message),
    }
}

/// Reads arguments `name = value` between commas.
pub fn read_arguments(text: &str) -> (list: Result<Vec<Argument>, String>)
    ensures
        parts::arguments_shown(list) == arguments_of(text@),
{
    let ghost wanted = source::syn_pairs(text@);
    let mut pairs: Vec<PairParts> = match source::split_pairs(text) {
        Ok(pairs) => pairs,
        Err(message) => {
            return Err(message);
        },
    };
    let ghost all = pairs@;
    let mut list: Vec<Argument> = Vec::new();
    while pairs.len() > 0
        invariant
            list@.len() + pairs@.len() == all.len(),
            pairs@ == all.skip(list@.len() as int),
            forall|k: int| 0 <= k < list@.len() ==> (#[trigger] list@[k])@ == argument_of(all[k]@),
        decreases pairs@.len(),
    {
        let ghost at = list@.len() as int;
        let pair: PairParts = pairs.remove(0);
        assert(pair == all[at]);
        list.push(read_argument(pair));
        assert(pairs@ =~= all.skip(at + 1));
    }
    proof {
        let shown = Seq::new(all.len(), |i: int| all[i]@);
        assert(wanted == Ok::<Seq<PairView>, Seq<char>>(shown));
        assert(arguments::argument_views(list@) =~= Seq::new(
            shown.len(),
            |i: int| argument_of(shown[i]),
        ));
    }
    Ok(list)
}

/// The single argument in a text, or why there is none.
pub open spec fn single_argument_of(text: Seq<char>) -> Result<ArgumentView, Seq<char>> {
    match source::syn_pair(text) {
        Ok(pair) => Ok(argument_of(pair)),
        Err(message) => Err(message),
    }
}

/// Reads a single argument `name = value`.
pub fn read_single_argument(text: &str) -> (argument: Result<Argument, String>)
    ensures
        parts::argument_shown(argument) == single_argument_of(text@),
{
    match source::take_pair_apart(text) {
        Ok(pair) => Ok(read_argument(pair)),
        Err(message) => Err(message),
    }
}

/// An annotation with a list of arguments.
pub open spec fn attribute_of(mark: AttributePartsView) -> AttributeView {
    AttributeView {
        name: or_nothing(mark.name),
        arguments: match mark.arguments {
            Ok(text) => arguments_of(text),
            Err(message) => Err(message),
        },
    }
}

fn read_attribute(mark: AttributeParts) -> (attribute: Attribute)
    ensures
        attribute@ == attribute_of(mark@),
{
    let arguments: Result<Vec<Argument>, String> = match mark.arguments {
        Ok(text) => read_arguments(text.as_str()),
        Err(message) => Err(message),
    };
    Attribute { name: name_or_nothing(mark.name), arguments }
}

/// Annotations, each with a list of arguments.
pub open spec fn attributes_of(marks: Seq<AttributePartsView>) -> Seq<AttributeView> {
    Seq::new(marks.len(), |i: int| attribute_of(marks[i]))
}

/// Reads annotations.
pub fn read_attributes(marks: Vec<AttributeParts>) -> (list: Vec<Attribute>)
    ensures
        arguments::attribute_views(list@) == attributes_of(source::attribute_parts(marks@)),
{
    let ghost all = marks@;
    let mut rest: Vec<AttributeParts> = marks;
    let mut list: Vec<Attribute> = Vec::new();
    while rest.len() > 0
        invariant
            list@.len() + rest@.len() == all.len(),
            rest@ == all.skip(list@.len() as int),
            forall|k: int| 0 <= k < list@.len() ==> (#[trigger] list@[k])@ == attribute_of(all[k]@),
        decreases rest@.len(),
    {
        let ghost at = list@.len() as int;
        let mark: AttributeParts = rest.remove(0);
        assert(mark == all[at]);
        list.push(read_attribute(mark));
        assert(rest@ =~= all.skip(at + 1));
    }
    assert(arguments::attribute_views(list@) =~= attributes_of(source::attribute_parts(all)));
    list
}

/// Decides what a model subscribes that is declared in source text, or why it is refused.
pub fn dynamic_model(arguments: &str, item: &str) -> (outcome: Result<ModelPlan, String>)
    ensures
        dynamic_model::model_expands(arguments@, item@, outcome),
{
    dynamic_model::expand(arguments, item)
}

} // verus!
