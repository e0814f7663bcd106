//! Models with a dynamics to evaluate, and their composition.
//!
//! A model holds the proxies that it got when it subscribed. An evaluation reads and writes the
//! working copy through them, and may read the confirmed state; it never changes the layout of the
//! working copy. A model may have no derivative at all: it still takes part in every round.
use crate::state_registry::{CurrentState, CurrentView, EvaluationState, EvaluationView, Layout, Outline};
use crate::text;
use std::rc::Rc;
use vstd::prelude::*;

verus! {

pub trait DynamicModel {
    /// The name as text.
    spec fn title(&self) -> Seq<char>;

    /// The keys of the states that an integrator advances.
    spec fn integrable(&self) -> Seq<Seq<char>>;

    /// Whether every proxy of the model addresses a slot of the buffers that are so laid out.
    spec fn ready(&self, outline: Outline, layout: Layout) -> bool;

    /// Whether one evaluation over the confirmed state may lead from `before` to `after`.
    spec fn evaluates(
        &self,
        current: CurrentView,
        before: EvaluationView,
        after: EvaluationView,
    ) -> bool;

    /// The name under which the model appears in logs.
    fn name(&self) -> (name: &str)
        ensures
            name@ == self.title(),
    ;

    fn evaluate(&self, current: &CurrentState, state: &mut EvaluationState)
        requires
            self.ready(current@.outline(), old(state)@.layout()),
        ensures
            self.evaluates(current@, old(state)@, final(state)@),
            final(state)@.layout() == old(state)@.layout(),
    ;

    /// The keys of the states that an integrator advances. Each key `k` is offered together with
    /// `k.derivative`, which holds its rate of change.
    fn state_keys(&self) -> (keys: Vec<String>)
        ensures
            text::texts(keys@) == self.integrable(),
    ;
}

/// Whether evaluating the first `n` models one after the other may lead from `before` to `after`.
pub open spec fn evaluated_in_order<M: DynamicModel>(
    models: Seq<M>,
    n: nat,
    current: CurrentView,
    before: EvaluationView,
    after: EvaluationView,
) -> bool
    decreases n,
{
    if n == 0 {
        before == after
    } else {
        exists|between: EvaluationView|
            evaluated_in_order(models, (n - 1) as nat, current, before, between)
                && between.layout() == before.layout() && #[trigger] models[n - 1].evaluates(
                current,
                between,
                after,
            )
    }
}

/// Whether every model is ready for buffers that are so laid out.
pub open spec fn all_ready<M: DynamicModel>(
    models: Seq<M>,
    outline: Outline,
    layout: Layout,
) -> bool {
    forall|i: int| 0 <= i < models.len() ==> (#[trigger] models[i]).ready(outline, layout)
}

/// The keys of the first `n` models, in order.
pub open spec fn keys_in_order<M: DynamicModel>(models: Seq<M>, n: nat) -> Seq<Seq<char>>
    decreases n,
{
    if n == 0 {
        Seq::empty()
    } else {
        keys_in_order(models, (n - 1) as nat) + models[n - 1].integrable()
    }
}

/// A model that is made of other models.
pub trait CompositeDynamicModel<M: DynamicModel>: DynamicModel {
    spec fn children(&self) -> Seq<M>;

    fn models(&self) -> (models: &Vec<M>)
        ensures
            models@ == self.children(),
    ;

    /// The list of children, to be changed. The name stays.
    fn models_mut(&mut self) -> (models: &mut Vec<M>)
        ensures
            models@ == old(self).children(),
            final(self).children() == final(models)@,
            final(self).title() == old(self).title(),
    ;

    /// Adds a model at the end of the order of evaluation.
    fn add_dynamic(&mut self, component: M)
        ensures
            final(self).children() == old(self).children().push(component),
            final(self).title() == old(self).title(),
    {
        self.models_mut().push(component);
    }

    /// Evaluates the children in the order in which they were added.
    fn evaluate_children(&self, current: &CurrentState, state: &mut EvaluationState)
        requires
            all_ready(self.children(), current@.outline(), old(state)@.layout()),
        ensures
            evaluated_in_order(
                self.children(),
                self.children().len(),
                current@,
                old(state)@,
                final(state)@,
            ),
            final(state)@.layout() == old(state)@.layout(),
    {
        evaluate_all(self.models(), current, state);
    }
}

/// Evaluates the models one after the other.
fn evaluate_all<M: DynamicModel>(
    models: &Vec<M>,
    current: &CurrentState,
    state: &mut EvaluationState,
)
    requires
        all_ready(models@, current@.outline(), old(state)@.layout()),
    ensures
        evaluated_in_order(models@, models@.len(), current@, old(state)@, final(state)@),
        final(state)@.layout() == old(state)@.layout(),
{
    let ghost before = state@;
    let mut i: usize = 0;
    while i < models.len()
        invariant
            i <= models@.len(),
            all_ready(models@, current@.outline(), before.layout()),
            state@.layout() == before.layout(),
            evaluated_in_order(models@, i as nat, current@, before, state@),
        decreases models@.len() - i,
    {
        let ghost between = state@;
        models[i].evaluate(current, state);
        i = i + 1;
        assert(models@[i as nat - 1].evaluates(current@, between, state@));
    }
}

/// Children in a list, evaluated in the order in which they were added. Children of several types
/// are boxed as trait objects.
pub struct Composite<M> {
    models: Vec<M>,
    name: String,
}

impl<M: DynamicModel> Default for Composite<M> {
    fn default() -> (composite: Composite<M>)
        ensures
            composite.parts() == Seq::<M>::empty(),
            composite.title() == "unnamed"@,
    {
        Composite { models: Vec::new(), name: "unnamed".to_owned() }
    }
}

impl<M: DynamicModel> Composite<M> {
    /// The children, in the order in which they were added.
    pub closed spec fn parts(&self) -> Seq<M> {
        self.models@
    }

    pub fn new() -> (composite: Composite<M>)
        ensures
            composite.parts() == Seq::<M>::empty(),
            composite.title() == "unnamed"@,
    {
        Composite { models: Vec::new(), name: "unnamed".to_owned() }
    }

    /// The same composite under another name.
    pub fn named(self, name: &str) -> (composite: Composite<M>)
        ensures
            composite.parts() == self.parts(),
            composite.title() == name@,
    {
        Composite { models: self.models, name: name.to_owned() }
    }
}

impl<M: DynamicModel> DynamicModel for Composite<M> {
    closed spec fn title(&self) -> Seq<char> {
        self.name@
    }

    open spec fn integrable(&self) -> Seq<Seq<char>> {
        keys_in_order(self.parts(), self.parts().len())
    }

    open spec fn ready(&self, outline: Outline, layout: Layout) -> bool {
        all_ready(self.parts(), outline, layout)
    }

    open spec fn evaluates(
        &self,
        current: CurrentView,
        before: EvaluationView,
        after: EvaluationView,
    ) -> bool {
        evaluated_in_order(self.parts(), self.parts().len(), current, before, after)
    }

    fn name(&self) -> (name: &str) {
        self.name.as_str()
    }

    fn evaluate(&self, current: &CurrentState, state: &mut EvaluationState) {
        evaluate_all(&self.models, current, state);
    }

    /// The keys of the children, in the order in which they were added.
    fn state_keys(&self) -> (keys: Vec<String>) {
        let mut keys: Vec<String> = Vec::new();
        let mut i: usize = 0;
        assert(text::texts(keys@) =~= keys_in_order(self.parts(), 0));
        while i < self.models.len()
            invariant
                i <= self.models@.len(),
                self.models@ == self.parts(),
                text::texts(keys@) == keys_in_order(self.parts(), i as nat),
            decreases self.models@.len() - i,
        {
            let mut more: Vec<String> = self.models[i].state_keys();
            let ghost before = keys@;
            let ghost added = more@;
            keys.append(&mut more);
            assert(text::texts(keys@) =~= text::texts(before) + text::texts(added));
            i = i + 1;
        }
        keys
    }
}

impl<M: DynamicModel> CompositeDynamicModel<M> for Composite<M> {
    open spec fn children(&self) -> Seq<M> {
        self.parts()
    }

    fn models(&self) -> (models: &Vec<M>) {
        &self.models
    }

    fn models_mut(&mut self) -> (models: &mut Vec<M>) {
        &mut self.models
    }
}

/// A model that a function evaluates. The function gets the confirmed state and the working copy and
/// gives the working copy back.
pub struct FunctionModel<F> {
    name: String,
    states: Vec<String>,
    run: F,
}

/// What a [`FunctionModel`] holds.
pub ghost struct FunctionView<F> {
    pub name: Seq<char>,
    pub states: Seq<Seq<char>>,
    pub run: F,
}

impl<F: Fn(&CurrentState, EvaluationState) -> EvaluationState> FunctionModel<F> {
    pub closed spec fn view(&self) -> FunctionView<F> {
        FunctionView { name: self.name@, states: text::texts(self.states@), run: self.run }
    }

    /// A model under a name, with the keys of its integrated states.
    pub fn new(name: &str, states: Vec<String>, run: F) -> (model: FunctionModel<F>)
        ensures
            model@ == (FunctionView { name: name@, states: text::texts(states@), run }),
    {
        FunctionModel { name: name.to_owned(), states, run }
    }
}

impl<F: Fn(&CurrentState, EvaluationState) -> EvaluationState> DynamicModel for FunctionModel<F> {
    open spec fn title(&self) -> Seq<char> {
        self@.name
    }

    open spec fn integrable(&self) -> Seq<Seq<char>> {
        self@.states
    }

    /// The function takes buffers that are so laid out, and leaves the layout as it is.
    open spec fn ready(&self, outline: Outline, layout: Layout) -> bool {
        &&& forall|current: CurrentState, state: EvaluationState|
            current@.outline() == outline && state@.layout() == layout ==> #[trigger] call_requires(
                self@.run,
                (&current, state),
            )
        &&& forall|current: CurrentState, state: EvaluationState, after: EvaluationState| #[trigger]
            call_ensures(self@.run, (&current, state), after) && state@.layout() == layout
                ==> after@.layout() == layout
    }

    open spec fn evaluates(
        &self,
        current: CurrentView,
        before: EvaluationView,
        after: EvaluationView,
    ) -> bool {
        exists|given: CurrentState, state: EvaluationState, left: EvaluationState| #[trigger]
            call_ensures(self@.run, (&given, state), left) && given@ == current && state@ == before
                && left@ == after
    }

    fn name(&self) -> (name: &str) {
        self.name.as_str()
    }

    fn evaluate(&self, current: &CurrentState, state: &mut EvaluationState) {
        let mut taken: EvaluationState = EvaluationState::empty();
        std::mem::swap(state, &mut taken);
        let ghost given = taken;
        assert(call_requires(self@.run, (current, taken)));
        *state = (self.run)(current, taken);
        assert(call_ensures(self@.run, (current, given), *state));
    }

    fn state_keys(&self) -> (keys: Vec<String>) {
        text::copy_texts(&self.states)
    }
}

/// A shared model takes part in a composite as the model that it shares.
impl<T: DynamicModel + ?Sized> DynamicModel for Rc<T> {
    open spec fn title(&self) -> Seq<char> {
        (**self).title()
    }

    open spec fn integrable(&self) -> Seq<Seq<char>> {
        (**self).integrable()
    }

    open spec fn ready(&self, outline: Outline, layout: Layout) -> bool {
        (**self).ready(outline, layout)
    }

    open spec fn evaluates(
        &self,
        current: CurrentView,
        before: EvaluationView,
        after: EvaluationView,
    ) -> bool {
        (**self).evaluates(current, before, after)
    }

    fn name(&self) -> (name: &str) {
        (**self).name()
    }

    fn evaluate(&self, current: &CurrentState, state: &mut EvaluationState) {
        (**self).evaluate(current, state);
    }

    fn state_keys(&self) -> (keys: Vec<String>) {
        (**self).state_keys()
    }
}

/// A boxed model takes part in a composite as the model in the box.
impl<T: DynamicModel + ?Sized> DynamicModel for Box<T> {
    open spec fn title(&self) -> Seq<char> {
        (**self).title()
    }

    open spec fn integrable(&self) -> Seq<Seq<char>> {
        (**self).integrable()
    }

    open spec fn ready(&self, outline: Outline, layout: Layout) -> bool {
        (**self).ready(outline, layout)
    }

    open spec fn evaluates(
        &self,
        current: CurrentView,
        before: EvaluationView,
        after: EvaluationView,
    ) -> bool {
        (**self).evaluates(current, before, after)
    }

    fn name(&self) -> (name: &str) {
        (**self).name()
    }

    fn evaluate(&self, current: &CurrentState, state: &mut EvaluationState) {
        (**self).evaluate(current, state);
    }

    fn state_keys(&self) -> (keys: Vec<String>) {
        (**self).state_keys()
    }
}

proof fn earlier_children_alone<M: DynamicModel>(
    models: Seq<M>,
    child: M,
    n: nat,
    current: CurrentView,
    before: EvaluationView,
    after: EvaluationView,
)
    requires
        n <= models.len(),
    ensures
        evaluated_in_order(models.push(child), n, current, before, after) == evaluated_in_order(
            models,
            n,
            current,
            before,
            after,
        ),
        keys_in_order(models.push(child), n) == keys_in_order(models, n),
    decreases n,
{
    if n > 0 {
        let more = models.push(child);
        let m = (n - 1) as nat;
        assert(more[n - 1] == models[n - 1]);
        assert forall|between: EvaluationView| #[trigger]
            evaluated_in_order(more, m, current, before, between) == evaluated_in_order(
                models,
                m,
                current,
                before,
                between,
            ) by {
            earlier_children_alone(models, child, m, current, before, between);
        }
        earlier_children_alone(models, child, m, current, before, before);
        if evaluated_in_order(more, n, current, before, after) {
            let between = choose|between: EvaluationView|
                evaluated_in_order(more, m, current, before, between) && between.layout()
                    == before.layout() && #[trigger] more[n - 1].evaluates(current, between, after);
            assert(evaluated_in_order(models, m, current, before, between));
            assert(models[n - 1].evaluates(current, between, after));
        }
        if evaluated_in_order(models, n, current, before, after) {
            let between = choose|between: EvaluationView|
                evaluated_in_order(models, m, current, before, between) && between.layout()
                    == before.layout() && #[trigger] models[n - 1].evaluates(
                    current,
                    between,
                    after,
                );
            assert(evaluated_in_order(more, m, current, before, between));
            assert(more[n - 1].evaluates(current, between, after));
        }
    }
}

/// A child that is added is evaluated after all that were there, on what they leave behind, and its
/// keys follow theirs.
pub proof fn a_new_child_comes_last<M: DynamicModel>(
    models: Seq<M>,
    child: M,
    current: CurrentView,
    before: EvaluationView,
    after: EvaluationView,
)
    ensures
        evaluated_in_order(models.push(child), models.len() + 1, current, before, after)
            <==> exists|between: EvaluationView|
            evaluated_in_order(models, models.len(), current, before, between) && between.layout()
                == before.layout() && #[trigger] child.evaluates(current, between, after),
        keys_in_order(models.push(child), models.len() + 1) == keys_in_order(models, models.len())
            + child.integrable(),
{
    let more = models.push(child);
    let n = models.len();
    assert(more[n as int] == child);
    assert forall|between: EvaluationView| #[trigger]
        evaluated_in_order(more, n, current, before, between) == evaluated_in_order(
            models,
            n,
            current,
            before,
            between,
        ) by {
        earlier_children_alone(models, child, n, current, before, between);
    }
    earlier_children_alone(models, child, n, current, before, before);
    if evaluated_in_order(more, n + 1, current, before, after) {
        let between = choose|between: EvaluationView|
            evaluated_in_order(more, n, current, before, between) && between.layout()
                == before.layout() && #[trigger] more[n as int].evaluates(current, between, after);
        assert(evaluated_in_order(models, n, current, before, between));
        assert(child.evaluates(current, between, after));
    }
    if exists|between: EvaluationView|
        evaluated_in_order(models, n, current, before, between) && between.layout()
            == before.layout() && #[trigger] child.evaluates(current, between, after) {
        let between = choose|between: EvaluationView|
            evaluated_in_order(models, n, current, before, between) && between.layout()
                == before.layout() && #[trigger] child.evaluates(current, between, after);
        assert(evaluated_in_order(more, n, current, before, between));
        assert(more[(n + 1) - 1].evaluates(current, between, after));
    }
}

} // verus!
