//! Tasks read from source text.
use crate::declaration::arguments::{Attribute, AttributeView};
use crate::declaration::source::{ImplPart, ImplPartView, ImplParts, ImplView, MethodParts};
use crate::declaration::tasks::{
    plan_tasks, ImplDeclaration, ImplItem, MethodDeclaration, TaskPlan,
};
use crate::declaration::{arguments, reading, source, tasks};
use crate::text;
use vstd::prelude::*;

verus! {

/// How many of the first `n` inputs are parameters.
pub open spec fn parameters_among(inputs: Seq<bool>, n: nat) -> nat
    decreases n,
{
    if n == 0 {
        0
    } else {
        parameters_among(inputs, (n - 1) as nat) + (if inputs[n - 1] {
            1nat
        } else {
            0nat
        })
    }
}

fn count_parameters(inputs: &Vec<bool>) -> (count: usize)
    ensures
        count == parameters_among(inputs@, inputs@.len()),
{
    let mut count: usize = 0;
    let mut i: usize = 0;
    while i < inputs.len()
        invariant
            count <= i <= inputs@.len(),
            count == parameters_among(inputs@, i as nat),
        decreases inputs@.len() - i,
    {
        if inputs[i] {
            count = count + 1;
        }
        i = i + 1;
    }
    count
}

/// A method, as its parts are seen.
#[verifier::ext_equal]
pub struct MethodSource {
    pub name: Seq<char>,
    pub attributes: Seq<AttributeView>,
    pub parameters: nat,
}

/// An item of an implementation: a method, or nothing where it is another item.
pub open spec fn shown_item(item: ImplItem) -> Option<MethodSource> {
    match item {
        ImplItem::Method(method) => Some(
            MethodSource {
                name: method.name@,
                attributes: arguments::attribute_views(method.attributes@),
                parameters: method.parameters as nat,
            },
        ),
        ImplItem::Other => None,
    }
}

pub open spec fn item_of(part: ImplPartView) -> Result<Option<MethodSource>, Seq<char>> {
    match part {
        ImplPartView::Other => Ok(None),
        ImplPartView::Method(text) => match source::syn_method(text) {
            Err(message) => Err(message),
            Ok(method) => Ok(
                Some(
                    MethodSource {
                        name: method.name,
                        attributes: reading::attributes_of(method.attributes),
                        parameters: parameters_among(method.inputs, method.inputs.len()),
                    },
                ),
            ),
        },
    }
}

fn read_item(part: &ImplPart) -> (item: Result<ImplItem, String>)
    ensures
        match (item, item_of(part@)) {
            (Ok(item), Ok(wanted)) => shown_item(item) == wanted,
            (Err(message), Err(wanted)) => message@ == wanted,
            _ => false,
        },
{
    let text: &String = match part {
        ImplPart::Method(text) => text,
        ImplPart::Other => {
            return Ok(ImplItem::Other);
        },
    };
    let method: MethodParts = match source::take_method_apart(text.as_str()) {
        Ok(method) => method,
        Err(message) => {
            return Err(message);
        },
    };
    let parameters: usize = count_parameters(&method.inputs);
    let attributes: Vec<Attribute> = reading::read_attributes(method.attributes);
    Ok(ImplItem::Method(MethodDeclaration { name: method.name, attributes, parameters }))
}

/// The first `n` items, or the first error among them.
pub open spec fn items_of(parts: Seq<ImplPartView>, n: nat) -> Result<
    Seq<Option<MethodSource>>,
    Seq<char>,
>
    decreases n,
{
    if n == 0 {
        Ok(Seq::empty())
    } else {
        match (items_of(parts, (n - 1) as nat), item_of(parts[n - 1])) {
            (Err(message), _) => Err(message),
            (Ok(_), Err(message)) => Err(message),
            (Ok(earlier), Ok(item)) => Ok(earlier.push(item)),
        }
    }
}

proof fn first_item_error_stays(parts: Seq<ImplPartView>, n: nat, m: nat)
    requires
        n <= m,
        items_of(parts, n) is Err,
    ensures
        items_of(parts, m) == items_of(parts, n),
    decreases m,
{
    if n < m {
        first_item_error_stays(parts, n, (m - 1) as nat);
    }
}

pub open spec fn shown_items(list: Seq<ImplItem>) -> Seq<Option<MethodSource>> {
    Seq::new(list.len(), |i: int| shown_item(list[i]))
}

fn read_items(parts: &Vec<ImplPart>) -> (list: Result<Vec<ImplItem>, String>)
    ensures
        ({
            let shown = Seq::new(parts@.len(), |i: int| parts@[i]@);
            match (list, items_of(shown, shown.len())) {
                (Ok(list), Ok(wanted)) => shown_items(list@) == wanted,
                (Err(message), Err(wanted)) => message@ == wanted,
                _ => false,
            }
        }),
{
    let ghost shown = Seq::new(parts@.len(), |i: int| parts@[i]@);
    let mut list: Vec<ImplItem> = Vec::new();
    let mut i: usize = 0;
    assert(shown_items(list@) =~= Seq::empty());
    while i < parts.len()
        invariant
            i <= parts@.len(),
            shown == Seq::new(parts@.len(), |i: int| parts@[i]@),
            items_of(shown, i as nat) == Ok::<Seq<Option<MethodSource>>, Seq<char>>(
                shown_items(list@),
            ),
        decreases parts@.len() - i,
    {
        assert(shown[i as int] == parts@[i as int]@);
        match read_item(&parts[i]) {
            Ok(item) => {
                let ghost before = list@;
                list.push(item);
                assert(shown_items(list@) =~= shown_items(before).push(shown_item(item)));
            },
            Err(message) => {
                proof {
                    first_item_error_stays(shown, (i + 1) as nat, shown.len());
                }
                return Err(message);
            },
        }
        i = i + 1;
    }
    Ok(list)
}

/// The last name of a path, where there is one.
pub open spec fn owner_of(path: Option<Seq<Seq<char>>>) -> Option<Seq<char>> {
    match path {
        Some(names) => if names.len() > 0 {
            Some(names.last())
        } else {
            None
        },
        None => None,
    }
}

fn last_name(path: &Option<Vec<String>>) -> (owner: Option<String>)
    ensures
        source::shown_name(owner) == owner_of(
            match *path {
                Some(names) => Some(text::texts(names@)),
                None => None,
            },
        ),
{
    match path {
        Some(names) => {
            assert(text::texts(names@).len() == names@.len());
            if names.len() > 0 {
                Some(names[names.len() - 1].clone())
            } else {
                None
            }
        },
        None => None,
    }
}

pub open spec fn are_tasks(
    outcome: Result<Vec<Option<TaskPlan>>, String>,
    declaration: ImplDeclaration,
) -> bool {
    match (outcome, tasks::tasks_of(declaration)) {
        (Ok(planned), Ok(wanted)) => tasks::task_views(planned@) == wanted,
        (Err(message), Err(wanted)) => message@ == wanted,
        _ => false,
    }
}

/// Whether this is the outcome of an implementation that consists of these parts.
pub open spec fn tasks_mean(
    found: ImplView,
    items: Seq<Option<MethodSource>>,
    outcome: Result<Vec<Option<TaskPlan>>, String>,
) -> bool {
    exists|declaration: ImplDeclaration|
        {
            &&& #[trigger] are_tasks(outcome, declaration)
            &&& !declaration.has_arguments
            &&& declaration.for_trait == found.for_trait
            &&& source::shown_name(declaration.owner) == owner_of(found.path)
            &&& declaration.self_type@ == found.self_type
            &&& shown_items(declaration.items@) == items
        }
}

/// Whether this is the outcome of an implementation that is declared so.
pub open spec fn tasks_expand(
    arguments: Seq<char>,
    item: Seq<char>,
    outcome: Result<Vec<Option<TaskPlan>>, String>,
) -> bool {
    if arguments.len() > 0 {
        outcome matches Err(message) && message@ == "#[monjolo::tasks] não aceita argumentos"@
    } else {
        match source::syn_impl(item) {
            Err(reason) => outcome matches Err(message) && message@ == reason,
            Ok(found) => match items_of(found.items, found.items.len()) {
                Err(reason) => outcome matches Err(message) && message@ == reason,
                Ok(items) => tasks_mean(found, items, outcome),
            },
        }
    }
}

/// Decides which methods of an implementation in source text become tasks, or why it is refused.
/// `arguments` is the text of the tokens between the parentheses of the annotation; where there are
/// none, it is empty.
pub fn expand(arguments: &str, item: &str) -> (outcome: Result<
    Vec<Option<TaskPlan>>,
    String,
>)
    ensures
        tasks_expand(arguments@, item@, outcome),
{
    if !arguments.is_empty() {
        return Err("#[monjolo::tasks] não aceita argumentos".to_owned());
    }
    let found: ImplParts = match source::take_impl_apart(item) {
        Ok(found) => found,
        Err(message) => {
            return Err(message);
        },
    };
    let ghost shown = found@;
    let items: Vec<ImplItem> = match read_items(&found.items) {
        Ok(items) => items,
        Err(message) => {
            return Err(message);
        },
    };
    let declaration = ImplDeclaration {
        has_arguments: false,
        for_trait: found.for_trait,
        owner: last_name(&found.path),
        self_type: found.self_type,
        items,
    };
    let outcome: Result<Vec<Option<TaskPlan>>, String> = plan_tasks(&declaration);
    proof {
        assert(are_tasks(outcome, declaration));
        assert(tasks_mean(shown, shown_items(declaration.items@), outcome));
    }
    outcome
}

} // verus!
