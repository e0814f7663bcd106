//! An actuator with one state and a law for its rate of change.
//!
//! The law is the caller's: given the command and the state, it gives the derivative. Nothing is
//! assumed of its form. The command is kept beside the slots of the evaluation state, so that the
//! actuator itself can be shared between the catalog and the order of evaluation.
use crate::actuator;
use crate::dynamic_model::DynamicModel;
use crate::state_registry::{
    CommandCell, CurrentState, CurrentView, EvaluationState, EvaluationView, Layout, Outline, Proxy,
    RegistryView, StateRegistry,
};
use crate::text;
use vstd::prelude::*;

verus! {

pub struct Actuator<F> {
    key: String,
    command: CommandCell,
    state: Proxy,
    derivative: Proxy,
    dynamics: F,
}

/// What an [`Actuator`] holds.
pub ghost struct ActuatorView<F> {
    pub key: Seq<char>,
    pub command: CommandCell,
    pub state: Proxy,
    pub derivative: Proxy,
    pub dynamics: F,
}

/// The key under which the rate of change of a state is published.
pub open spec fn derivative_key(key: Seq<char>) -> Seq<char> {
    key + ".derivative"@
}

/// Whether a new actuator on the key, with its command and its state at `initial`, stands in the
/// catalog under the key.
pub open spec fn actuator_registered<F: Fn(u64, u64) -> u64, S, A, C>(
    before: RegistryView<S, A, C>,
    key: Seq<char>,
    initial: u64,
    dynamics: F,
    actuator: Actuator<F>,
    item: A,
    after: RegistryView<S, A, C>,
) -> bool {
    let slots = before.offering(seq![key, derivative_key(key)]);
    let first = before.evaluation.values.len() as int;
    &&& after == RegistryView {
        evaluation: EvaluationView {
            values: slots.evaluation.values.update(first, initial),
            commands: slots.evaluation.commands.push(initial),
            ..slots.evaluation
        },
        actuators: before.actuators.offered(key, item),
        ..slots
    }
    &&& actuator@.key == key
    &&& actuator@.dynamics == dynamics
    &&& actuator@.command.number() == before.evaluation.commands.len()
    &&& actuator@.state.number() == before.evaluation.links.bindings.len()
    &&& actuator@.derivative.number() == before.evaluation.links.bindings.len() + 1
}

impl<F: Fn(u64, u64) -> u64> Actuator<F> {
    pub closed spec fn view(&self) -> ActuatorView<F> {
        ActuatorView {
            key: self.key@,
            command: self.command,
            state: self.state,
            derivative: self.derivative,
            dynamics: self.dynamics,
        }
    }

    /// An actuator that starts at zero. It publishes its state under `key` and the derivative under
    /// `key.derivative`, and stands in the catalog under `key`. `share` makes the actuator into two
    /// handles on it, the first for the catalog and the second for the caller.
    pub fn new<S, A, C, G: FnOnce(Actuator<F>) -> (A, A)>(
        registry: &mut StateRegistry<S, A, C>,
        key: &str,
        dynamics: F,
        share: G,
    ) -> (shared: A)
        requires
            old(registry)@.wf(),
            forall|actuator: Actuator<F>| #[trigger] call_requires(share, (actuator,)),
        ensures
            final(registry)@.wf(),
            exists|actuator: Actuator<F>, item: A| #[trigger]
                actuator_registered(
                    old(registry)@,
                    key@,
                    0,
                    dynamics,
                    actuator,
                    item,
                    final(registry)@,
                ) && call_ensures(share, (actuator,), (item, shared)),
    {
        Actuator::starting_at(registry, key, 0, dynamics, share)
    }

    /// An actuator whose command and state start at `initial`, so that it rests until another
    /// command is written.
    pub fn starting_at<S, A, C, G: FnOnce(Actuator<F>) -> (A, A)>(
        registry: &mut StateRegistry<S, A, C>,
        key: &str,
        initial: u64,
        dynamics: F,
        share: G,
    ) -> (shared: A)
        requires
            old(registry)@.wf(),
            forall|actuator: Actuator<F>| #[trigger] call_requires(share, (actuator,)),
        ensures
            final(registry)@.wf(),
            exists|actuator: Actuator<F>, item: A| #[trigger]
                actuator_registered(
                    old(registry)@,
                    key@,
                    initial,
                    dynamics,
                    actuator,
                    item,
                    final(registry)@,
                ) && call_ensures(share, (actuator,), (item, shared)),
    {
        let ghost before = registry@;
        let derivative_name: String = text::joined(key, ".derivative");
        let keys: [&str; 2] = [key, derivative_name.as_str()];
        let (offered, _) = registry.subscribe(&keys, &[]);
        let ghost slots = registry@;
        let state = offered[0];
        let derivative = offered[1];
        proof {
            assert(text::strs(keys@) =~= seq![key@, derivative_key(key@)]);
            assert(slots =~= before.offering(seq![key@, derivative_key(key@)]));
        }
        state.set(registry.evaluation_mut(), initial);
        let command = registry.add_command();
        command.set(registry.evaluation_mut(), initial);
        let actuator = Actuator { key: key.to_owned(), command, state, derivative, dynamics };
        let ghost made = actuator;
        let (item, shared) = share(actuator);
        let ghost stored = item;
        registry.offer_actuator(key, item);
        proof {
            let first = before.evaluation.values.len() as int;
            assert(registry@.evaluation.values =~= slots.evaluation.values.update(first, initial));
            assert(registry@.evaluation.commands =~= before.evaluation.commands.push(initial));
            assert(actuator_registered(
                before,
                key@,
                initial,
                dynamics,
                made,
                stored,
                registry@,
            ));
        }
        shared
    }
}

impl<F: Fn(u64, u64) -> u64> actuator::Actuator for Actuator<F> {
    open spec fn writable(&self, layout: Layout) -> bool {
        layout.has_command(self@.command)
    }

    open spec fn writes(&self, before: EvaluationView, value: u64, after: EvaluationView) -> bool {
        after == before.commanded(self@.command, value)
    }

    fn write(&self, state: &mut EvaluationState, value: u64) {
        self.command.set(state, value);
    }
}

impl<F: Fn(u64, u64) -> u64> DynamicModel for Actuator<F> {
    open spec fn title(&self) -> Seq<char> {
        "unnamed"@
    }

    open spec fn integrable(&self) -> Seq<Seq<char>> {
        seq![self@.key]
    }

    open spec fn ready(&self, outline: Outline, layout: Layout) -> bool {
        &&& layout.has_command(self@.command)
        &&& layout.resolved(self@.state)
        &&& layout.resolved(self@.derivative)
        &&& forall|command: u64, state: u64| #[trigger]
            call_requires(self@.dynamics, (command, state))
    }

    /// The law gives the derivative; nothing else changes.
    open spec fn evaluates(
        &self,
        current: CurrentView,
        before: EvaluationView,
        after: EvaluationView,
    ) -> bool {
        exists|rate: u64|
            #![trigger before.set(self@.derivative, rate)]
            call_ensures(
                self@.dynamics,
                (before.command(self@.command), before.get(self@.state)),
                rate,
            ) && after == before.set(self@.derivative, rate)
    }

    fn name(&self) -> (name: &str) {
        "unnamed"
    }

    fn evaluate(&self, current: &CurrentState, state: &mut EvaluationState) {
        let command: u64 = self.command.get(state);
        let position: u64 = self.state.get(state);
        assert(call_requires(self@.dynamics, (command, position)));
        let rate: u64 = (self.dynamics)(command, position);
        self.derivative.set(state, rate);
    }

    fn state_keys(&self) -> (keys: Vec<String>) {
        let mut keys: Vec<String> = Vec::new();
        keys.push(self.key.clone());
        assert(text::texts(keys@) =~= seq![self@.key]);
        keys
    }
}

/// An actuator that was registered can be commanded and evaluated on every buffer that serves the
/// registry it was registered with.
pub proof fn a_registered_actuator_is_ready<F: Fn(u64, u64) -> u64, S, A, C>(
    before: RegistryView<S, A, C>,
    key: Seq<char>,
    initial: u64,
    dynamics: F,
    actuator: Actuator<F>,
    item: A,
    after: RegistryView<S, A, C>,
    outline: Outline,
    layout: Layout,
)
    requires
        actuator_registered(before, key, initial, dynamics, actuator, item, after),
        layout.serves(after),
        forall|command: u64, state: u64| #[trigger] call_requires(dynamics, (command, state)),
    ensures
        DynamicModel::ready(&actuator, outline, layout),
        actuator::Actuator::writable(&actuator, layout),
{
    assert(layout.resolved(actuator@.state));
    assert(layout.resolved(actuator@.derivative));
}

/// Whether a command changes the command of the actuator and nothing else, wherever the actuator can
/// be written.
pub open spec fn keeps_its_commands<F: Fn(u64, u64) -> u64>(actuator: Actuator<F>) -> bool {
    forall|before: EvaluationView, value: u64, after: EvaluationView|
        actuator::Actuator::writable(&actuator, before.layout())
            && #[trigger] actuator::Actuator::writes(&actuator, before, value, after) ==> {
            &&& after.command(actuator@.command) == value
            &&& after.values == before.values
            &&& after.links == before.links
            &&& after.commands.len() == before.commands.len()
            &&& forall|i: int|
                0 <= i < after.commands.len() && i != actuator@.command.number()
                    ==> #[trigger] after.commands[i] == before.commands[i]
        }
}

/// Whether an evaluation puts the rate of change that the law gives into the slot of the derivative
/// and changes nothing else, wherever the actuator can be evaluated.
pub open spec fn publishes_its_rate<F: Fn(u64, u64) -> u64>(actuator: Actuator<F>) -> bool {
    forall|current: CurrentView, before: EvaluationView, after: EvaluationView|
        before.layout().resolved(actuator@.derivative) && #[trigger] DynamicModel::evaluates(
            &actuator,
            current,
            before,
            after,
        ) ==> {
            &&& call_ensures(
                actuator@.dynamics,
                (before.command(actuator@.command), before.get(actuator@.state)),
                after.get(actuator@.derivative),
            )
            &&& after.commands == before.commands
            &&& after.links == before.links
            &&& after.values.len() == before.values.len()
            &&& forall|i: int|
                0 <= i < after.values.len() && i != before.layout().position(
                    actuator@.derivative,
                )->0 ==> #[trigger] after.values[i] == before.values[i]
        }
}

/// A command and an evaluation each change one thing: a command the command that the law reads, and
/// an evaluation the rate of change. The state itself is left to the integration.
pub proof fn an_actuator_keeps_to_its_slots<F: Fn(u64, u64) -> u64>(actuator: Actuator<F>)
    ensures
        keeps_its_commands(actuator),
        publishes_its_rate(actuator),
        DynamicModel::integrable(&actuator) == seq![actuator@.key],
{
}

} // verus!
