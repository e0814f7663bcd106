//! Tasks: methods of a unit that are scheduled one by one.
//!
//! A method that is annotated with what it needs and what it offers becomes a task of its own. Its
//! parameters are its needs, in order; its result is its offers, in order. The other methods of the
//! unit stay as they are. A task comes after its unit.
use crate::declaration::arguments;
use crate::declaration::arguments::{Attribute, AttributeView, FieldKeySpec, KeySpecView};
use crate::text;
use vstd::prelude::*;

verus! {

/// A method of a unit.
pub struct MethodDeclaration {
    pub name: String,
    pub attributes: Vec<Attribute>,
    /// How many parameters the method has besides its receiver.
    pub parameters: usize,
}

pub enum ImplItem {
    Method(MethodDeclaration),
    Other,
}

/// The methods of a unit, as they are declared together. `owner` is the last name in the path of the
/// type, where the type is a path.
pub struct ImplDeclaration {
    pub has_arguments: bool,
    pub for_trait: bool,
    pub owner: Option<String>,
    pub self_type: String,
    pub items: Vec<ImplItem>,
}

/// A run of keys that make up one parameter or one result.
#[derive(Clone, Copy, Debug, PartialEq, Eq, Structural)]
pub struct Run {
    pub start: usize,
    pub array: Option<usize>,
}

/// What a task subscribes and how it calls its method.
pub struct TaskPlan {
    /// The name under which the task is scheduled.
    pub name: String,
    /// The name of the type that holds the task.
    pub holder: String,
    /// The name under which the body of the method goes on.
    pub implementation: String,
    /// The unit, which comes first. It is given by the text of the tokens of its type. Where the type
    /// is a path of several names there are spaces between the tokens, as where written code is turned
    /// into text.
    pub after: String,
    pub needs: Vec<String>,
    pub offers: Vec<String>,
    pub parameters: Vec<Run>,
    pub results: Vec<Run>,
}

#[verifier::ext_equal]
pub struct TaskView {
    pub name: Seq<char>,
    pub holder: Seq<char>,
    pub implementation: Seq<char>,
    pub after: Seq<char>,
    pub needs: Seq<Seq<char>>,
    pub offers: Seq<Seq<char>>,
    pub parameters: Seq<Run>,
    pub results: Seq<Run>,
}

impl TaskPlan {
    pub open spec fn view(&self) -> TaskView {
        TaskView {
            name: self.name@,
            holder: self.holder@,
            implementation: self.implementation@,
            after: self.after@,
            needs: text::texts(self.needs@),
            offers: text::texts(self.offers@),
            parameters: self.parameters@,
            results: self.results@,
        }
    }
}

/// The needs and the offers that the annotations of a method describe, in order.
#[verifier::ext_equal]
pub struct TaskMarks {
    pub needs: Seq<KeySpecView>,
    pub offers: Seq<KeySpecView>,
}

/// What the first `n` annotations describe, or the first error among them.
pub open spec fn task_marks(attributes: Seq<AttributeView>, n: nat) -> Result<TaskMarks, Seq<char>>
    decreases n,
{
    if n == 0 {
        Ok(TaskMarks { needs: Seq::empty(), offers: Seq::empty() })
    } else {
        match task_marks(attributes, (n - 1) as nat) {
            Err(message) => Err(message),
            Ok(marks) => {
                let attribute = attributes[n - 1];
                if attribute.name == "need"@ {
                    match arguments::key_spec_of(attribute.arguments) {
                        Ok(keys) => Ok(TaskMarks { needs: marks.needs.push(keys), ..marks }),
                        Err(message) => Err(message),
                    }
                } else if attribute.name == "offer"@ {
                    match arguments::key_spec_of(attribute.arguments) {
                        Ok(keys) => Ok(TaskMarks { offers: marks.offers.push(keys), ..marks }),
                        Err(message) => Err(message),
                    }
                } else {
                    Ok(marks)
                }
            },
        }
    }
}

/// The keys of the first `n` descriptions, one after the other.
pub open spec fn keys_in_a_row(specs: Seq<KeySpecView>, n: nat) -> Seq<Seq<char>>
    decreases n,
{
    if n == 0 {
        Seq::empty()
    } else {
        keys_in_a_row(specs, (n - 1) as nat) + specs[n - 1].keys()
    }
}

/// Where the keys of each description lie in the row of all.
pub open spec fn runs_of(specs: Seq<KeySpecView>) -> Seq<Run> {
    Seq::new(
        specs.len(),
        |i: int|
            Run {
                start: keys_in_a_row(specs, i as nat).len() as usize,
                array: match specs[i].array_length() {
                    Some(n) => Some(n as usize),
                    None => None,
                },
            },
    )
}

pub open spec fn is_task_mark(name: Seq<char>) -> bool {
    name == "need"@ || name == "offer"@
}

pub open spec fn is_task(method: MethodDeclaration) -> bool {
    exists|i: int|
        0 <= i < method.attributes@.len() && is_task_mark((#[trigger] method.attributes@[i]).name@)
}

pub open spec fn parameters_message(parameters: nat, needs: nat) -> Seq<char> {
    text::decimal(parameters) + " parâmetro(s) declarado(s) mas "@ + text::decimal(needs)
        + " atributo(s) #[need(...)] — precisa bater 1:1, na ordem em que aparecem (1º #[need] = 1º parâmetro, etc.)"@
}

/// A name as part of another one: without the mark of a raw identifier.
pub open spec fn as_part(name: Seq<char>) -> Seq<char> {
    if name.len() >= 2 && name[0] == 'r' && name[1] == '#' {
        name.skip(2)
    } else {
        name
    }
}

fn name_part(name: &str) -> (part: &str)
    ensures
        part@ == as_part(name@),
{
    let n: usize = name.unicode_len();
    if n >= 2 && name.get_char(0) == 'r' && name.get_char(1) == '#' {
        assert(name@.subrange(2, n as int) =~= name@.skip(2));
        name.substring_char(2, n)
    } else {
        name
    }
}

/// The task that a method becomes, or why it becomes none.
pub open spec fn task_of(
    owner: Seq<char>,
    self_type: Seq<char>,
    method: MethodDeclaration,
) -> Result<TaskView, Seq<char>> {
    let attributes = arguments::attribute_views(method.attributes@);
    match task_marks(attributes, attributes.len()) {
        Err(message) => Err(message),
        Ok(marks) => if marks.offers.len() == 0 {
            Err(
                "método marcado com #[need]/#[offer] precisa de pelo menos um #[offer(...)] — sem offer nenhum, esta tarefa não publicaria nada"@,
            )
        } else if method.parameters != marks.needs.len() {
            Err(parameters_message(method.parameters as nat, marks.needs.len()))
        } else {
            Ok(
                TaskView {
                    name: owner + "::"@ + method.name@,
                    holder: "__"@ + as_part(owner) + "_"@ + as_part(method.name@) + "_Task"@,
                    implementation: "__"@ + as_part(method.name@) + "_impl"@,
                    after: self_type,
                    needs: keys_in_a_row(marks.needs, marks.needs.len()),
                    offers: keys_in_a_row(marks.offers, marks.offers.len()),
                    parameters: runs_of(marks.needs),
                    results: runs_of(marks.offers),
                },
            )
        },
    }
}

pub open spec fn task_outcome_is(
    outcome: Result<TaskPlan, String>,
    expected: Result<TaskView, Seq<char>>,
) -> bool {
    match (outcome, expected) {
        (Ok(plan), Ok(wanted)) => plan@ == wanted,
        (Err(message), Err(wanted)) => message@ == wanted,
        _ => false,
    }
}

pub open spec fn spec_views(list: Seq<FieldKeySpec>) -> Seq<KeySpecView> {
    Seq::new(list.len(), |i: int| list[i]@)
}

proof fn first_mark_error_stays(attributes: Seq<AttributeView>, n: nat, m: nat)
    requires
        n <= m,
        task_marks(attributes, n) is Err,
    ensures
        task_marks(attributes, m) == task_marks(attributes, n),
    decreases m,
{
    if n < m {
        first_mark_error_stays(attributes, n, (m - 1) as nat);
    }
}

/// The keys of all descriptions in a row, and where each description lies in it.
fn lay_out(specs: &Vec<FieldKeySpec>) -> (row: (Vec<String>, Vec<Run>))
    ensures
        text::texts(row.0@) == keys_in_a_row(spec_views(specs@), specs@.len()),
        row.1@ == runs_of(spec_views(specs@)),
{
    let ghost views = spec_views(specs@);
    let mut keys: Vec<String> = Vec::new();
    let mut runs: Vec<Run> = Vec::new();
    let mut i: usize = 0;
    assert(text::texts(keys@) =~= keys_in_a_row(views, 0));
    assert(runs@ =~= runs_of(views).take(0));
    while i < specs.len()
        invariant
            i <= specs@.len(),
            views == spec_views(specs@),
            text::texts(keys@) == keys_in_a_row(views, i as nat),
            runs@ == runs_of(views).take(i as int),
        decreases specs@.len() - i,
    {
        let start: usize = keys.len();
        let array: Option<usize> = specs[i].array_length();
        let mut more: Vec<String> = specs[i].keys();
        let ghost before = keys@;
        let ghost added = more@;
        assert(text::texts(before).len() == start);
        keys.append(&mut more);
        runs.push(Run { start, array });
        proof {
            assert(views[i as int] == specs@[i as int]@);
            assert(text::texts(keys@) =~= text::texts(before) + text::texts(added));
            assert(runs@ =~= runs_of(views).take(i + 1));
        }
        i = i + 1;
    }
    assert(runs_of(views).take(i as int) =~= runs_of(views));
    (keys, runs)
}

/// Makes a method into a task.
pub fn build_task(owner: &str, self_type: &str, method: &MethodDeclaration) -> (outcome: Result<
    TaskPlan,
    String,
>)
    ensures
        task_outcome_is(outcome, task_of(owner@, self_type@, *method)),
{
    let ghost attributes = arguments::attribute_views(method.attributes@);
    let mut needs: Vec<FieldKeySpec> = Vec::new();
    let mut offers: Vec<FieldKeySpec> = Vec::new();
    let mut i: usize = 0;
    assert(spec_views(needs@) =~= Seq::empty());
    assert(spec_views(offers@) =~= Seq::empty());
    while i < method.attributes.len()
        invariant
            i <= method.attributes@.len(),
            attributes == arguments::attribute_views(method.attributes@),
            task_marks(attributes, i as nat) == Ok::<TaskMarks, Seq<char>>(
                TaskMarks { needs: spec_views(needs@), offers: spec_views(offers@) },
            ),
        decreases method.attributes@.len() - i,
    {
        let attribute = &method.attributes[i];
        assert(attributes[i as int] == attribute@);
        let ghost needs_before = needs@;
        let ghost offers_before = offers@;
        if text::same(&attribute.name, "need") {
            match arguments::parse_key_spec(attribute) {
                Ok(keys) => {
                    needs.push(keys);
                    assert(spec_views(needs@) =~= spec_views(needs_before).push(keys@));
                },
                Err(message) => {
                    proof {
                        first_mark_error_stays(attributes, (i + 1) as nat, attributes.len());
                    }
                    return Err(message);
                },
            }
        } else if text::same(&attribute.name, "offer") {
            match arguments::parse_key_spec(attribute) {
                Ok(keys) => {
                    offers.push(keys);
                    assert(spec_views(offers@) =~= spec_views(offers_before).push(keys@));
                },
                Err(message) => {
                    proof {
                        first_mark_error_stays(attributes, (i + 1) as nat, attributes.len());
                    }
                    return Err(message);
                },
            }
        }
        i = i + 1;
    }
    assert(spec_views(offers@).len() == offers@.len());
    assert(spec_views(needs@).len() == needs@.len());
    if offers.len() == 0 {
        return Err(
            "método marcado com #[need]/#[offer] precisa de pelo menos um #[offer(...)] — sem offer nenhum, esta tarefa não publicaria nada".to_owned(),
        );
    }
    if method.parameters != needs.len() {
        let mut message: String = text::to_decimal(method.parameters);
        message.append(" parâmetro(s) declarado(s) mas ");
        message.append(text::to_decimal(needs.len()).as_str());
        message.append(
            " atributo(s) #[need(...)] — precisa bater 1:1, na ordem em que aparecem (1º #[need] = 1º parâmetro, etc.)",
        );
        return Err(message);
    }
    let (need_keys, parameters) = lay_out(&needs);
    let (offer_keys, results) = lay_out(&offers);
    let mut name: String = text::joined(owner, "::");
    name.append(method.name.as_str());
    let method_part: &str = name_part(method.name.as_str());
    let mut holder: String = text::framed("__", name_part(owner), "_");
    holder.append(method_part);
    holder.append("_Task");
    let plan = TaskPlan {
        name,
        holder,
        implementation: text::framed("__", method_part, "_impl"),
        after: self_type.to_owned(),
        needs: need_keys,
        offers: offer_keys,
        parameters,
        results,
    };
    Ok(plan)
}

/// What becomes of each item of a unit: nothing, or a task.
pub open spec fn items_planned(
    owner: Seq<char>,
    self_type: Seq<char>,
    items: Seq<ImplItem>,
    n: nat,
) -> Result<Seq<Option<TaskView>>, Seq<char>>
    decreases n,
{
    if n == 0 {
        Ok(Seq::empty())
    } else {
        match items_planned(owner, self_type, items, (n - 1) as nat) {
            Err(message) => Err(message),
            Ok(planned) => match items[n - 1] {
                ImplItem::Method(method) => if is_task(method) {
                    match task_of(owner, self_type, method) {
                        Ok(task) => Ok(planned.push(Some(task))),
                        Err(message) => Err(message),
                    }
                } else {
                    Ok(planned.push(None))
                },
                ImplItem::Other => Ok(planned.push(None)),
            },
        }
    }
}

proof fn first_item_error_stays(
    owner: Seq<char>,
    self_type: Seq<char>,
    items: Seq<ImplItem>,
    n: nat,
    m: nat,
)
    requires
        n <= m,
        items_planned(owner, self_type, items, n) is Err,
    ensures
        items_planned(owner, self_type, items, m) == items_planned(owner, self_type, items, n),
    decreases m,
{
    if n < m {
        first_item_error_stays(owner, self_type, items, n, (m - 1) as nat);
    }
}

/// The tasks of a unit, one entry for each of its items, or why it has none.
pub open spec fn tasks_of(declaration: ImplDeclaration) -> Result<Seq<Option<TaskView>>, Seq<char>> {
    if declaration.has_arguments {
        Err("#[monjolo::tasks] não aceita argumentos"@)
    } else if declaration.for_trait {
        Err("#[monjolo::tasks] só suporta impl inerente (sem trait)"@)
    } else {
        match declaration.owner {
            None => Err(
                "#[monjolo::tasks] precisa de um tipo simples (ex.: `impl Reactor`)"@,
            ),
            Some(owner) => items_planned(
                owner@,
                declaration.self_type@,
                declaration.items@,
                declaration.items@.len(),
            ),
        }
    }
}

pub open spec fn task_views(list: Seq<Option<TaskPlan>>) -> Seq<Option<TaskView>> {
    Seq::new(
        list.len(),
        |i: int|
            match list[i] {
                Some(task) => Some(task@),
                None => None,
            },
    )
}

fn has_task_mark(method: &MethodDeclaration) -> (yes: bool)
    ensures
        yes == is_task(*method),
{
    let mut i: usize = 0;
    while i < method.attributes.len()
        invariant
            i <= method.attributes@.len(),
            forall|k: int|
                0 <= k < i ==> !is_task_mark((#[trigger] method.attributes@[k]).name@),
        decreases method.attributes@.len() - i,
    {
        if text::same(&method.attributes[i].name, "need") || text::same(
            &method.attributes[i].name,
            "offer",
        ) {
            assert(is_task_mark(method.attributes@[i as int].name@));
            return true;
        }
        i = i + 1;
    }
    false
}

/// Decides which methods of a unit become tasks.
pub fn plan_tasks(declaration: &ImplDeclaration) -> (outcome: Result<
    Vec<Option<TaskPlan>>,
    String,
>)
    ensures
        match (outcome, tasks_of(*declaration)) {
            (Ok(planned), Ok(wanted)) => task_views(planned@) == wanted,
            (Err(message), Err(wanted)) => message@ == wanted,
            _ => false,
        },
{
    if declaration.has_arguments {
        return Err("#[monjolo::tasks] não aceita argumentos".to_owned());
    }
    if declaration.for_trait {
        return Err("#[monjolo::tasks] só suporta impl inerente (sem trait)".to_owned());
    }
    let owner = match &declaration.owner {
        Some(owner) => owner,
        None => {
            return Err(
                "#[monjolo::tasks] precisa de um tipo simples (ex.: `impl Reactor`)".to_owned(),
            );
        },
    };
    let items = &declaration.items;
    let ghost self_type = declaration.self_type@;
    let mut planned: Vec<Option<TaskPlan>> = Vec::new();
    let mut i: usize = 0;
    assert(task_views(planned@) =~= Seq::empty());
    while i < items.len()
        invariant
            i <= items@.len(),
            items == declaration.items,
            self_type == declaration.self_type@,
            tasks_of(*declaration) == items_planned(owner@, self_type, items@, items@.len()),
            items_planned(owner@, self_type, items@, i as nat) == Ok::<
                Seq<Option<TaskView>>,
                Seq<char>,
            >(task_views(planned@)),
        decreases items@.len() - i,
    {
        let ghost before = planned@;
        match &items[i] {
            ImplItem::Method(method) => {
                if has_task_mark(method) {
                    match build_task(owner.as_str(), declaration.self_type.as_str(), method) {
                        Ok(task) => {
                            planned.push(Some(task));
                            assert(task_views(planned@) =~= task_views(before).push(Some(task@)));
                        },
                        Err(message) => {
                            proof {
                                first_item_error_stays(
                                    owner@,
                                    self_type,
                                    items@,
                                    (i + 1) as nat,
                                    items@.len(),
                                );
                            }
                            return Err(message);
                        },
                    }
                } else {
                    planned.push(None);
                    assert(task_views(planned@) =~= task_views(before).push(None));
                }
            },
            ImplItem::Other => {
                planned.push(None);
                assert(task_views(planned@) =~= task_views(before).push(None));
            },
        }
        i = i + 1;
    }
    Ok(planned)
}

proof fn rows_begin_alike(specs: Seq<KeySpecView>, n: nat, m: nat)
    requires
        n <= m <= specs.len(),
    ensures
        keys_in_a_row(specs, n).len() <= keys_in_a_row(specs, m).len(),
        keys_in_a_row(specs, m).take(keys_in_a_row(specs, n).len() as int) == keys_in_a_row(
            specs,
            n,
        ),
    decreases m,
{
    let row = keys_in_a_row(specs, n);
    if n == m {
        assert(row.take(row.len() as int) =~= row);
    } else {
        rows_begin_alike(specs, n, (m - 1) as nat);
        assert(keys_in_a_row(specs, m).take(row.len() as int) =~= keys_in_a_row(
            specs,
            (m - 1) as nat,
        ).take(row.len() as int));
    }
}

/// Each parameter and each result of a task gets the keys that its annotation names, in their order:
/// they are the run that the plan gives for it.
pub proof fn a_run_holds_the_keys_of_its_annotation(specs: Seq<KeySpecView>, i: int)
    requires
        0 <= i < specs.len(),
        keys_in_a_row(specs, specs.len()).len() <= usize::MAX,
    ensures
        ({
            let start = runs_of(specs)[i].start as int;
            let row = keys_in_a_row(specs, specs.len());
            let keys = specs[i].keys();
            &&& start + keys.len() <= row.len()
            &&& row.subrange(start, start + keys.len()) == keys
        }),
{
    let before = keys_in_a_row(specs, i as nat);
    let until = keys_in_a_row(specs, (i + 1) as nat);
    let row = keys_in_a_row(specs, specs.len());
    rows_begin_alike(specs, i as nat, specs.len());
    rows_begin_alike(specs, (i + 1) as nat, specs.len());
    assert(until == before + specs[i].keys());
    assert(row.subrange(before.len() as int, until.len() as int) =~= row.take(
        until.len() as int,
    ).skip(before.len() as int));
    assert(until.skip(before.len() as int) =~= specs[i].keys());
}

} // verus!
