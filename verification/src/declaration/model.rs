//! Models that are declared by their fields.
use crate::catalog::CatalogView;
use crate::declaration::arguments::{Argument, ArgumentView, FieldKeySpec, KeySpecView};
use crate::declaration::fields::{FieldDeclaration, FieldMarks, FieldPlan, FieldPlanView, FieldShape};
use crate::declaration::{arguments, fields};
use crate::snapshot::Snapshot;
use crate::state_registry::{EvaluationView, Proxy, RegistryView, StateRegistry};
use crate::{snapshot, text};
use vstd::prelude::*;

verus! {

/// An argument of a model declaration: a pair, or a bare word.
pub enum ModelArgument {
    Pair(Argument),
    Word(String),
}

#[verifier::ext_equal]
pub enum ModelArgumentView {
    Pair(ArgumentView),
    Word(Seq<char>),
}

impl ModelArgument {
    pub open spec fn view(&self) -> ModelArgumentView {
        match self {
            ModelArgument::Pair(argument) => ModelArgumentView::Pair(argument@),
            ModelArgument::Word(word) => ModelArgumentView::Word(word@),
        }
    }
}

pub open spec fn model_argument_views(list: Seq<ModelArgument>) -> Seq<ModelArgumentView> {
    Seq::new(list.len(), |i: int| list[i]@)
}

/// What the arguments of a model declaration say: the names that come first, and whether the
/// computation of the model lies in its tasks.
pub struct ModelOptions {
    pub after: Vec<String>,
    pub tasks: bool,
}

#[verifier::ext_equal]
pub struct OptionsView {
    pub after: Seq<Seq<char>>,
    pub tasks: bool,
}

/// What the first `n` arguments say, or the first error among them.
pub open spec fn options_of(list: Seq<ModelArgumentView>, n: nat) -> Result<OptionsView, Seq<char>>
    decreases n,
{
    if n == 0 {
        Ok(OptionsView { after: Seq::empty(), tasks: false })
    } else {
        match options_of(list, (n - 1) as nat) {
            Err(message) => Err(message),
            Ok(options) => match list[n - 1] {
                ModelArgumentView::Word(word) => if word == "tasks"@ {
                    Ok(OptionsView { tasks: true, ..options })
                } else {
                    Err("esperado `after`"@)
                },
                ModelArgumentView::Pair(argument) => if argument.name == "after"@ {
                    match arguments::texts_of(argument.value) {
                        Ok(after) => Ok(OptionsView { after, ..options }),
                        Err(message) => Err(message),
                    }
                } else {
                    Err("esperado `after`"@)
                },
            },
        }
    }
}

proof fn first_option_error_stays(list: Seq<ModelArgumentView>, n: nat, m: nat)
    requires
        n <= m,
        options_of(list, n) is Err,
    ensures
        options_of(list, m) == options_of(list, n),
    decreases m,
{
    if n < m {
        first_option_error_stays(list, n, (m - 1) as nat);
    }
}

/// Reads `after = [...]` and `tasks`.
pub fn parse_after_arg(list: &Vec<ModelArgument>) -> (outcome: Result<ModelOptions, String>)
    ensures
        match (outcome, options_of(model_argument_views(list@), list@.len())) {
            (Ok(options), Ok(wanted)) => text::texts(options.after@) == wanted.after
                && options.tasks == wanted.tasks,
            (Err(message), Err(wanted)) => message@ == wanted,
            _ => false,
        },
{
    let ghost views = model_argument_views(list@);
    let mut after: Vec<String> = Vec::new();
    let mut tasks: bool = false;
    let mut i: usize = 0;
    assert(text::texts(after@) =~= Seq::empty());
    while i < list.len()
        invariant
            i <= list@.len(),
            views == model_argument_views(list@),
            options_of(views, i as nat) == Ok::<OptionsView, Seq<char>>(
                OptionsView { after: text::texts(after@), tasks },
            ),
        decreases list@.len() - i,
    {
        assert(views[i as int] == list@[i as int]@);
        match &list[i] {
            ModelArgument::Word(word) => {
                if text::same(word, "tasks") {
                    tasks = true;
                } else {
                    proof {
                        first_option_error_stays(views, (i + 1) as nat, views.len());
                    }
                    return Err("esperado `after`".to_owned());
                }
            },
            ModelArgument::Pair(pair) => {
                if text::same(&pair.name, "after") {
                    match arguments::expect_str_array(&pair.value) {
                        Ok(names) => {
                            after = names;
                        },
                        Err(message) => {
                            proof {
                                first_option_error_stays(views, (i + 1) as nat, views.len());
                            }
                            return Err(message);
                        },
                    }
                } else {
                    proof {
                        first_option_error_stays(views, (i + 1) as nat, views.len());
                    }
                    return Err("esperado `after`".to_owned());
                }
            },
        }
        i = i + 1;
    }
    Ok(ModelOptions { after, tasks })
}

/// Where the value of a field lies: in no slot, or in a run of the offered or needed keys. A run
/// belongs to an array, or is one key long. A field that an integrator advances has no setter.
pub enum FieldWiring {
    Plain,
    Offered { start: usize, array: Option<usize>, settable: bool },
    Needed { start: usize, array: Option<usize> },
}

/// A field with its place.
pub struct WiredField {
    pub name: String,
    pub wiring: FieldWiring,
}

/// What a declared model subscribes and how its fields lie in it.
pub struct ModelPlan {
    pub name: String,
    pub after: Vec<String>,
    pub tasks: bool,
    pub offers: Vec<String>,
    /// For each offered key the key of the configuration at which it starts, if it has one.
    pub seeds: Vec<Option<String>>,
    /// For each offered key whether the model itself may write it.
    pub settable: Vec<bool>,
    pub needs: Vec<String>,
    pub states: Vec<String>,
    pub fields: Vec<WiredField>,
}

#[verifier::ext_equal]
pub struct WiringSoFar {
    pub offers: Seq<Seq<char>>,
    pub seeds: Seq<Option<Seq<char>>>,
    pub settable: Seq<bool>,
    pub needs: Seq<Seq<char>>,
    pub states: Seq<Seq<char>>,
    pub fields: Seq<(Seq<char>, FieldWiring)>,
}

pub open spec fn field_views(list: Seq<WiredField>) -> Seq<(Seq<char>, FieldWiring)> {
    Seq::new(list.len(), |i: int| (list[i].name@, list[i].wiring))
}

pub open spec fn array_of(shape: FieldShape) -> Option<usize> {
    match shape {
        FieldShape::Scalar => None,
        FieldShape::Array(n) => Some(n),
    }
}

/// For each offered key of a field the key of the configuration.
pub open spec fn seeds_of(config: Option<KeySpecView>, count: nat) -> Seq<Option<Seq<char>>> {
    match config {
        Some(keys) => Seq::new(count, |i: int| Some(keys.keys()[i])),
        None => Seq::new(count, |i: int| None::<Seq<char>>),
    }
}

impl WiringSoFar {
    /// One field more.
    pub open spec fn with_field(self, plan: FieldPlanView) -> WiringSoFar {
        match plan {
            FieldPlanView::Plain { name } => WiringSoFar {
                fields: self.fields.push((name, FieldWiring::Plain)),
                ..self
            },
            FieldPlanView::Signals { name, shape, marks } => match (marks.offer, marks.need) {
                (Some(offer), _) => WiringSoFar {
                    offers: self.offers + offer.keys(),
                    seeds: self.seeds + seeds_of(marks.config, offer.keys().len()),
                    settable: self.settable + Seq::new(
                        offer.keys().len(),
                        |i: int| !marks.state,
                    ),
                    states: if marks.state {
                        self.states + offer.keys()
                    } else {
                        self.states
                    },
                    fields: self.fields.push(
                        (
                            name,
                            FieldWiring::Offered {
                                start: self.offers.len() as usize,
                                array: array_of(shape),
                                settable: !marks.state,
                            },
                        ),
                    ),
                    ..self
                },
                (None, Some(need)) => WiringSoFar {
                    needs: self.needs + need.keys(),
                    fields: self.fields.push(
                        (
                            name,
                            FieldWiring::Needed {
                                start: self.needs.len() as usize,
                                array: array_of(shape),
                            },
                        ),
                    ),
                    ..self
                },
                (None, None) => self,
            },
        }
    }
}

/// The wiring of the first `n` fields, or the first error among them.
pub open spec fn wired(list: Seq<FieldDeclaration>, n: nat) -> Result<WiringSoFar, Seq<char>>
    decreases n,
{
    if n == 0 {
        Ok(
            WiringSoFar {
                offers: Seq::empty(),
                seeds: Seq::empty(),
                settable: Seq::empty(),
                needs: Seq::empty(),
                states: Seq::empty(),
                fields: Seq::empty(),
            },
        )
    } else {
        match wired(list, (n - 1) as nat) {
            Err(message) => Err(message),
            Ok(so_far) => match fields::plan_of(list[n - 1]) {
                Err(message) => Err(message),
                Ok(plan) => Ok(so_far.with_field(plan)),
            },
        }
    }
}

proof fn first_field_error_stays(list: Seq<FieldDeclaration>, n: nat, m: nat)
    requires
        n <= m,
        wired(list, n) is Err,
    ensures
        wired(list, m) == wired(list, n),
    decreases m,
{
    if n < m {
        first_field_error_stays(list, n, (m - 1) as nat);
    }
}

/// A model as it is declared. `fields` is missing where the fields have no names.
pub struct ModelDeclaration {
    pub name: String,
    pub arguments: Result<Vec<ModelArgument>, String>,
    pub fields: Option<Vec<FieldDeclaration>>,
}

/// The keys of a plan, without its name and options.
pub open spec fn plan_wiring(plan: ModelPlan) -> WiringSoFar {
    WiringSoFar {
        offers: text::texts(plan.offers@),
        seeds: arguments::elements(plan.seeds@),
        settable: plan.settable@,
        needs: text::texts(plan.needs@),
        states: text::texts(plan.states@),
        fields: field_views(plan.fields@),
    }
}

/// Whether the outcome is what the declaration means.
pub open spec fn model_outcome_is(
    declaration: ModelDeclaration,
    outcome: Result<ModelPlan, String>,
) -> bool {
    match declaration.arguments {
        Err(reason) => outcome matches Err(message) && message@ == reason@,
        Ok(list) => match options_of(model_argument_views(list@), list@.len()) {
            Err(reason) => outcome matches Err(message) && message@ == reason,
            Ok(options) => match declaration.fields {
                None => outcome matches Err(message) && message@
                    == "#[dynamic_model] só suporta struct com campos nomeados"@,
                Some(list) => match wired(list@, list@.len()) {
                    Err(reason) => outcome matches Err(message) && message@ == reason,
                    Ok(wiring) => outcome matches Ok(plan) && {
                        &&& plan.name@ == declaration.name@
                        &&& text::texts(plan.after@) == options.after
                        &&& plan.tasks == options.tasks
                        &&& plan_wiring(plan) == wiring
                        &&& plan.wf()
                    },
                },
            },
        },
    }
}

/// The key of the configuration for each of `count` offered keys.
fn seeds_for(config: &Option<FieldKeySpec>, count: usize) -> (seeds: Vec<Option<String>>)
    requires
        config matches Some(keys) ==> keys@.keys().len() == count,
    ensures
        arguments::elements(seeds@) == seeds_of(fields::shown(*config), count as nat),
        seeds@.len() == count,
{
    let mut seeds: Vec<Option<String>> = Vec::new();
    match config {
        Some(keys) => {
            let list: Vec<String> = keys.keys();
            let ghost wanted = keys@.keys();
            let mut i: usize = 0;
            assert(text::texts(list@).len() == list@.len());
            while i < count
                invariant
                    i <= count,
                    count == list@.len(),
                    wanted == text::texts(list@),
                    seeds@.len() == i,
                    forall|k: int|
                        0 <= k < i ==> arguments::elements(seeds@)[k] == Some(#[trigger] wanted[k]),
                decreases count - i,
            {
                let ghost before = seeds@;
                seeds.push(Some(list[i].clone()));
                assert forall|k: int| 0 <= k < i + 1 implies arguments::elements(seeds@)[k] == Some(
                    #[trigger] wanted[k],
                ) by {
                    if k < i {
                        assert(arguments::elements(before)[k] == Some(wanted[k]));
                    }
                }
                i = i + 1;
            }
            assert(arguments::elements(seeds@) =~= seeds_of(
                fields::shown(*config),
                count as nat,
            ));
        },
        None => {
            let mut i: usize = 0;
            while i < count
                invariant
                    i <= count,
                    seeds@.len() == i,
                    forall|k: int| 0 <= k < i ==> (#[trigger] seeds@[k]) is None,
                decreases count - i,
            {
                seeds.push(None);
                i = i + 1;
            }
            assert(arguments::elements(seeds@) =~= seeds_of(
                fields::shown(*config),
                count as nat,
            ));
        },
    }
    seeds
}

/// `count` times the same answer.
fn repeated(answer: bool, count: usize) -> (list: Vec<bool>)
    ensures
        list@ == Seq::new(count as nat, |i: int| answer),
{
    let mut list: Vec<bool> = Vec::new();
    let mut i: usize = 0;
    while i < count
        invariant
            i <= count,
            list@ == Seq::new(i as nat, |i: int| answer),
        decreases count - i,
    {
        list.push(answer);
        i = i + 1;
        assert(list@ =~= Seq::new(i as nat, |i: int| answer));
    }
    list
}

/// In the plan for a field, every described list of keys has the width of the field.
proof fn marks_have_the_width(
    attributes: Seq<arguments::AttributeView>,
    n: nat,
    width: nat,
)
    ensures
        fields::marks_of(attributes, n, width) matches Ok(marks) ==> {
            &&& marks.config matches Some(keys) ==> keys.keys().len() == width
            &&& marks.offer matches Some(keys) ==> keys.keys().len() == width
            &&& marks.need matches Some(keys) ==> keys.keys().len() == width
        },
    decreases n,
{
    if n > 0 {
        marks_have_the_width(attributes, (n - 1) as nat, width);
    }
}

impl ModelPlan {
    /// Whether each offered key has its start and its permission.
    pub open spec fn wf(self) -> bool {
        self.seeds@.len() == self.offers@.len() && self.settable@.len() == self.offers@.len()
    }

    fn add_field(&mut self, plan: FieldPlan, declaration: &FieldDeclaration)
        requires
            fields::plan_of(*declaration) == Ok::<FieldPlanView, Seq<char>>(plan@),
            old(self).wf(),
        ensures
            plan_wiring(*final(self)) == plan_wiring(*old(self)).with_field(plan@),
            final(self).wf(),
            final(self).name == old(self).name,
            final(self).after == old(self).after,
            final(self).tasks == old(self).tasks,
    {
        let ghost before = plan_wiring(*self);
        match plan {
            FieldPlan::Plain { name } => {
                self.fields.push(WiredField { name, wiring: FieldWiring::Plain });
                assert(plan_wiring(*self) =~= before.with_field(plan@));
            },
            FieldPlan::Signals { name, shape, marks } => {
                let FieldMarks { config, offer, need, state } = marks;
                let array: Option<usize> = match shape {
                    FieldShape::Scalar => None,
                    FieldShape::Array(n) => Some(n),
                };
                proof {
                    let attributes = arguments::attribute_views(declaration.attributes@);
                    marks_have_the_width(attributes, attributes.len(), shape.width());
                }
                match offer {
                    Some(offer) => {
                        let start: usize = self.offers.len();
                        let mut keys: Vec<String> = offer.keys();
                        let ghost listed = keys@;
                        let count: usize = keys.len();
                        assert(text::texts(listed).len() == count);
                        let mut seeds: Vec<Option<String>> = seeds_for(&config, count);
                        let ghost listed_seeds = seeds@;
                        if state {
                            let mut copy: Vec<String> = text::copy_texts(&keys);
                            let ghost copied = copy@;
                            let ghost states = self.states@;
                            self.states.append(&mut copy);
                            assert(text::texts(self.states@) =~= text::texts(states) + text::texts(
                                copied,
                            ));
                        }
                        let ghost offers = self.offers@;
                        let ghost seeds_before = self.seeds@;
                        self.offers.append(&mut keys);
                        self.seeds.append(&mut seeds);
                        let mut permissions: Vec<bool> = repeated(!state, count);
                        self.settable.append(&mut permissions);
                        self.fields.push(
                            WiredField {
                                name,
                                wiring: FieldWiring::Offered { start, array, settable: !state },
                            },
                        );
                        proof {
                            assert(text::texts(self.offers@) =~= text::texts(offers) + text::texts(
                                listed,
                            ));
                            assert(arguments::elements(self.seeds@) =~= arguments::elements(
                                seeds_before,
                            ) + arguments::elements(listed_seeds));
                            assert(plan_wiring(*self) =~= before.with_field(plan@));
                        }
                    },
                    None => match need {
                        Some(need) => {
                            let start: usize = self.needs.len();
                            let mut keys: Vec<String> = need.keys();
                            let ghost listed = keys@;
                            let ghost needs = self.needs@;
                            self.needs.append(&mut keys);
                            self.fields.push(
                                WiredField { name, wiring: FieldWiring::Needed { start, array } },
                            );
                            proof {
                                assert(text::texts(self.needs@) =~= text::texts(needs)
                                    + text::texts(listed));
                                assert(plan_wiring(*self) =~= before.with_field(plan@));
                            }
                        },
                        None => {
                            assert(plan_wiring(*self) =~= before.with_field(plan@));
                        },
                    },
                }
            },
        }
    }

    /// The start values of the offered slots.
    pub open spec fn starts(self, config: CatalogView<u64>) -> Seq<u64> {
        Seq::new(
            self.offers@.len(),
            |i: int|
                match self.seeds@[i] {
                    Some(key) => snapshot::seed(config, key@),
                    None => 0u64,
                },
        )
    }

    /// The registry after the model has subscribed and its configured slots are at their start.
    pub open spec fn installed<S, A, C>(
        self,
        before: RegistryView<S, A, C>,
        config: CatalogView<u64>,
    ) -> RegistryView<S, A, C> {
        let subscribed = before.offering(text::texts(self.offers@)).needing(
            text::texts(self.needs@),
        );
        RegistryView {
            evaluation: EvaluationView {
                values: before.evaluation.values + self.starts(config),
                ..subscribed.evaluation
            },
            ..subscribed
        }
    }

    /// Subscribes the model once with all its keys, in the order of its fields, and sets the
    /// configured slots to their start. What is configured but missing starts at zero.
    pub fn install<S, A, C>(
        &self,
        registry: &mut StateRegistry<S, A, C>,
        config: &Snapshot,
    ) -> (proxies: (Vec<Proxy>, Vec<Proxy>))
        requires
            old(registry)@.wf(),
            self.wf(),
        ensures
            final(registry)@ == self.installed(old(registry)@, config@),
            final(registry)@.wf(),
            proxies.0@.len() == self.offers@.len(),
            proxies.1@.len() == self.needs@.len(),
            forall|i: int|
                0 <= i < self.offers@.len() ==> (#[trigger] proxies.0@[i]).number()
                    == old(registry)@.evaluation.links.bindings.len() + i,
            forall|i: int|
                0 <= i < self.needs@.len() ==> (#[trigger] proxies.1@[i]).number()
                    == old(registry)@.evaluation.links.bindings.len() + self.offers@.len() + i,
    {
        let ghost before = registry@;
        let offer_slices = text::as_strs(&self.offers);
        let need_slices = text::as_strs(&self.needs);
        assert(text::strs(offer_slices@).len() == self.offers@.len()) by {
            assert(text::texts(self.offers@).len() == self.offers@.len());
        }
        assert(text::strs(need_slices@).len() == self.needs@.len()) by {
            assert(text::texts(self.needs@).len() == self.needs@.len());
        }
        let (offered, needed) = registry.subscribe(offer_slices.as_slice(), need_slices.as_slice());
        let ghost subscribed = registry@;
        let ghost base = before.evaluation.values.len() as int;
        let mut i: usize = 0;
        while i < self.offers.len()
            invariant
                i <= self.offers@.len(),
                self.seeds@.len() == self.offers@.len(),
                offered@.len() == self.offers@.len(),
                base == before.evaluation.values.len(),
                subscribed == before.offering(text::texts(self.offers@)).needing(
                    text::texts(self.needs@),
                ),
                base + self.offers@.len() <= usize::MAX,
                forall|k: int|
                    0 <= k < self.offers@.len() ==> subscribed.evaluation.layout().position(
                        #[trigger] offered@[k],
                    ) == Some((base + k) as usize),
                registry@.wf(),
                registry@.evaluation.values.len() == base + self.offers@.len(),
                registry@ == (RegistryView {
                    evaluation: EvaluationView {
                        values: registry@.evaluation.values,
                        ..subscribed.evaluation
                    },
                    ..subscribed
                }),
                forall|k: int|
                    0 <= k < base ==> registry@.evaluation.values[k] == before.evaluation.values[k],
                forall|k: int|
                    0 <= k < i ==> registry@.evaluation.values[base + k] == #[trigger] self.starts(
                        config@,
                    )[k],
                forall|k: int|
                    i <= k < self.offers@.len() ==> #[trigger] registry@.evaluation.values[base + k]
                        == 0,
            decreases self.offers@.len() - i,
        {
            let ghost values = registry@.evaluation.values;
            match &self.seeds[i] {
                Some(key) => {
                    let value: u64 = config.get_or_zero(key.as_str());
                    assert(registry@.evaluation.layout().position(offered@[i as int]) == Some(
                        (base + i) as usize,
                    ));
                    offered[i].set(registry.evaluation_mut(), value);
                    assert(registry@.evaluation.values =~= values.update(base + i, value));
                },
                None => {},
            }
            proof {
                assert(registry@.evaluation.values[base + i] == self.starts(config@)[i as int]);
                assert forall|k: int| 0 <= k < i + 1 implies registry@.evaluation.values[base + k]
                    == #[trigger] self.starts(config@)[k] by {
                    if k < i {
                        assert(values[base + k] == self.starts(config@)[k]);
                    }
                }
                assert forall|k: int| i + 1 <= k < self.offers@.len() implies
                    #[trigger] registry@.evaluation.values[base + k] == 0 by {
                    assert(values[base + k] == 0);
                }
            }
            i = i + 1;
        }
        proof {
            let expected = before.evaluation.values + self.starts(config@);
            assert forall|k: int| 0 <= k < expected.len() implies registry@.evaluation.values[k]
                == expected[k] by {
                if k >= base {
                    assert(registry@.evaluation.values[base + (k - base)] == self.starts(config@)[k
                        - base]);
                }
            }
            assert(registry@.evaluation.values =~= expected);
            assert(registry@ =~= self.installed(before, config@));
        }
        (offered, needed)
    }
}

/// Decides what a declared model subscribes, or why it is refused.
pub fn plan_model(declaration: &ModelDeclaration) -> (outcome: Result<ModelPlan, String>)
    ensures
        model_outcome_is(*declaration, outcome),
{
    let options: ModelOptions = match &declaration.arguments {
        Err(message) => {
            return Err(message.clone());
        },
        Ok(list) => match parse_after_arg(list) {
            Ok(options) => options,
            Err(message) => {
                return Err(message);
            },
        },
    };
    let list = match &declaration.fields {
        Some(list) => list,
        None => {
            return Err("#[dynamic_model] só suporta struct com campos nomeados".to_owned());
        },
    };
    let ModelOptions { after, tasks } = options;
    let ghost after_names = text::texts(after@);
    let mut plan = ModelPlan {
        name: declaration.name.clone(),
        after,
        tasks,
        offers: Vec::new(),
        seeds: Vec::new(),
        settable: Vec::new(),
        needs: Vec::new(),
        states: Vec::new(),
        fields: Vec::new(),
    };
    let mut i: usize = 0;
    assert(Ok::<WiringSoFar, Seq<char>>(plan_wiring(plan)) == wired(list@, 0)) by {
        assert(plan_wiring(plan) =~= wired(list@, 0)->Ok_0);
    }
    while i < list.len()
        invariant
            i <= list@.len(),
            declaration.fields == Some(*list),
            declaration.arguments matches Ok(given) && options_of(
                model_argument_views(given@),
                given@.len(),
            ) == Ok::<OptionsView, Seq<char>>(OptionsView { after: after_names, tasks }),
            plan.name@ == declaration.name@,
            text::texts(plan.after@) == after_names,
            plan.tasks == tasks,
            plan.wf(),
            wired(list@, i as nat) == Ok::<WiringSoFar, Seq<char>>(plan_wiring(plan)),
        decreases list@.len() - i,
    {
        match fields::build_field_plan(&list[i]) {
            Ok(field) => {
                plan.add_field(field, &list[i]);
            },
            Err(message) => {
                proof {
                    first_field_error_stays(list@, (i + 1) as nat, list@.len());
                }
                return Err(message);
            },
        }
        i = i + 1;
    }
    Ok(plan)
}

} // verus!
