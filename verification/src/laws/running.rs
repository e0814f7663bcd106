//! Laws of declared components at work.
use crate::actuator::model::Actuator;
use crate::catalog::CatalogView;
use crate::component::{ComponentDescriptor, ComponentKind, Construct};
use crate::controller;
use crate::controller::model::Controller;
use crate::declaration::announcing;
use crate::declaration::model::ModelPlan;
use crate::declaration::running;
use crate::declaration::running::{
    ActuatorComponent, ControllerComponent, DeclaredModel, DeclaredView, ModelComponent,
    SensorComponent, TaskComponent, TaskModel, TaskModelView, UnitKeys,
};
use crate::declaration::signals::Signals;
use crate::declaration::tasks::TaskPlan;
use crate::dynamic_model::DynamicModel;
use crate::laws;
use crate::sensor;
use crate::sensor::model::{Ideal, Sensor};
use crate::state_registry::{CurrentView, EvaluationState, EvaluationView, Proxy, RegistryView};
use crate::{actuator, links, resolution, snapshot, state_registry, text};
use vstd::prelude::*;

verus! {

/// A declared model offers each of its keys in a slot of its own, and once the registry is resolved
/// each key that it needs is read from the last slot of that key.
pub proof fn each_signal_of_a_model_has_its_key<F, S, A, C>(
    plan: ModelPlan,
    compute: F,
    before: RegistryView<S, A, C>,
    config: CatalogView<u64>,
    model: DeclaredView<F>,
)
    requires
        before.wf(),
        plan.wf(),
        before.keys.len() + plan.offers@.len() <= usize::MAX,
        running::model_built(plan, compute, before, model),
        plan.installed(before, config).resolve_failure() is None,
    ensures
        ({
            let after = plan.installed(before, config);
            let slots = before.keys.len() as int;
            &&& model.name == plan.name@
            &&& model.compute == compute
            &&& laws::parts::each_shows(plan.states@, model.states)
            &&& model.signals.settable@ == plan.settable@
            &&& model.signals.offered@.len() == plan.offers@.len()
            &&& model.signals.needed@.len() == plan.needs@.len()
            &&& forall|i: int|
                0 <= i < plan.offers@.len() ==> after.keys[slots + i] == (#[trigger] plan.offers@[i])@
                    && laws::registry::addresses(
                    after.evaluation,
                    model.signals.offered@[i],
                    slots + i,
                )
            &&& forall|i: int|
                0 <= i < plan.needs@.len() ==> laws::plant::addresses_key(
                    after.resolved(),
                    model.signals.needed@[i],
                    (#[trigger] plan.needs@[i])@,
                )
        }),
{
    let after = plan.installed(before, config);
    let offers = text::texts(plan.offers@);
    let needs = text::texts(plan.needs@);
    let slots = before.keys.len() as int;
    laws::parts::texts_are_shown(plan.states@);
    laws::registry::each_offer_opens_a_slot(before, offers);
    let offered = before.offering(offers);
    assert(offered.wf()) by {
        offering_keeps_the_order(before, offers);
    }
    resolution::asking_changes_nothing(offered.evaluation.links, needs);
    asking_stays_within(offered, needs);
    assert(after.wf());
    assert forall|i: int| 0 <= i < plan.offers@.len() implies after.keys[slots + i] == (
    #[trigger] plan.offers@[i])@ && laws::registry::addresses(
        after.evaluation,
        model.signals.offered@[i],
        slots + i,
    ) by {
        assert(offers[i] == plan.offers@[i]@);
        assert(laws::registry::carries(
            offered.evaluation.links,
            before.evaluation.links.bindings.len() + i,
            slots + i,
        ));
    }
    assert forall|i: int| 0 <= i < plan.needs@.len() implies laws::plant::addresses_key(
        after.resolved(),
        model.signals.needed@[i],
        (#[trigger] plan.needs@[i])@,
    ) by {
        let waiting = before.evaluation.links.pending.len() as int;
        assert(needs[i] == plan.needs@[i]@);
        assert(after.evaluation.links.pending[waiting + i] == (
            needs[i],
            model.signals.needed@[i].number(),
        ));
        laws::plant::a_need_is_answered(after, waiting + i, needs[i], model.signals.needed@[i]);
    }
}

proof fn offering_keeps_the_order<S, A, C>(
    before: RegistryView<S, A, C>,
    offers: Seq<Seq<char>>,
)
    requires
        before.wf(),
        before.keys.len() + offers.len() <= usize::MAX,
    ensures
        before.offering(offers).wf(),
{
    let after = before.offering(offers);
    let places = Seq::new(
        offers.len(),
        |i: int| Some((before.evaluation.values.len() + i) as usize),
    );
    links::answered_tickets_change_nothing(before.evaluation.links, places);
    assert(after.evaluation.links.within(after.keys.len())) by {
        assert forall|t: int| 0 <= t < after.evaluation.links.bindings.len() implies (
        #[trigger] after.evaluation.links.bindings[t] matches Some(p) ==> p < after.keys.len()) by {
            if t < before.evaluation.links.bindings.len() {
                assert(after.evaluation.links.bindings[t] == before.evaluation.links.bindings[t]);
            }
        }
    }
    assert(after.current.links.within(after.keys.len()));
}

proof fn asking_stays_within<S, A, C>(before: RegistryView<S, A, C>, needs: Seq<Seq<char>>)
    requires
        before.wf(),
    ensures
        before.needing(needs).wf(),
{
    resolution::asking_changes_nothing(before.evaluation.links, needs);
    let after = before.needing(needs);
    assert forall|t: int| 0 <= t < after.evaluation.links.bindings.len() implies (
    #[trigger] after.evaluation.links.bindings[t] matches Some(p) ==> p < after.keys.len()) by {
        if t < before.evaluation.links.bindings.len() {
            assert(after.evaluation.links.bindings[t] == before.evaluation.links.bindings[t]);
        }
    }
}

/// A task offers each of its keys in a slot of its own. Once the registry is resolved, each of its
/// parameters is read from the last slot of its own key, and each signal of its unit stands on the last
/// slot of the key under which the unit has it.
pub proof fn each_parameter_of_a_task_has_its_key<F, S, A, C>(
    plan: TaskPlan,
    unit: UnitKeys,
    compute: F,
    before: RegistryView<S, A, C>,
    model: TaskModelView<F>,
)
    requires
        before.wf(),
        unit.wf(),
        before.keys.len() + plan.offers@.len() <= usize::MAX,
        running::task_built(plan, unit, compute, before, model),
        before.offering(text::texts(plan.offers@)).needing(
            text::texts(plan.needs@) + unit.keys(),
        ).resolve_failure() is None,
    ensures
        ({
            let after = before.offering(text::texts(plan.offers@)).needing(
                text::texts(plan.needs@) + unit.keys(),
            );
            let slots = before.keys.len() as int;
            &&& model.name == plan.name@
            &&& model.compute == compute
            &&& model.unit.settable@ == unit.settable@
            &&& model.results.len() == plan.offers@.len()
            &&& model.parameters.len() == plan.needs@.len()
            &&& model.unit.offered@.len() == unit.offers@.len()
            &&& model.unit.needed@.len() == unit.needs@.len()
            &&& forall|i: int|
                0 <= i < plan.offers@.len() ==> after.keys[slots + i] == (#[trigger] plan.offers@[i])@
                    && laws::registry::addresses(after.evaluation, model.results[i], slots + i)
            &&& forall|i: int|
                0 <= i < plan.needs@.len() ==> laws::plant::addresses_key(
                    after.resolved(),
                    model.parameters[i],
                    (#[trigger] plan.needs@[i])@,
                )
            &&& forall|i: int|
                0 <= i < unit.offers@.len() ==> laws::plant::addresses_key(
                    after.resolved(),
                    model.unit.offered@[i],
                    (#[trigger] unit.offers@[i])@,
                )
            &&& forall|i: int|
                0 <= i < unit.needs@.len() ==> laws::plant::addresses_key(
                    after.resolved(),
                    model.unit.needed@[i],
                    (#[trigger] unit.needs@[i])@,
                )
        }),
{
    let offers = text::texts(plan.offers@);
    let needs = text::texts(plan.needs@) + unit.keys();
    let offered = before.offering(offers);
    let after = offered.needing(needs);
    let slots = before.keys.len() as int;
    let p = plan.needs@.len() as int;
    let o = unit.offers@.len() as int;
    let waiting = before.evaluation.links.pending.len() as int;
    laws::registry::each_offer_opens_a_slot(before, offers);
    offering_keeps_the_order(before, offers);
    asking_stays_within(offered, needs);
    assert forall|i: int| 0 <= i < plan.offers@.len() implies after.keys[slots + i] == (
    #[trigger] plan.offers@[i])@ && laws::registry::addresses(
        after.evaluation,
        model.results[i],
        slots + i,
    ) by {
        assert(offers[i] == plan.offers@[i]@);
        assert(laws::registry::carries(
            offered.evaluation.links,
            before.evaluation.links.bindings.len() + i,
            slots + i,
        ));
    }
    assert forall|i: int| 0 <= i < plan.needs@.len() implies laws::plant::addresses_key(
        after.resolved(),
        model.parameters[i],
        (#[trigger] plan.needs@[i])@,
    ) by {
        assert(needs[i] == plan.needs@[i]@);
        assert(after.evaluation.links.pending[waiting + i].0 == needs[i]);
        laws::plant::a_need_is_answered(after, waiting + i, needs[i], model.parameters[i]);
    }
    assert forall|i: int| 0 <= i < unit.offers@.len() implies laws::plant::addresses_key(
        after.resolved(),
        model.unit.offered@[i],
        (#[trigger] unit.offers@[i])@,
    ) by {
        assert(needs[p + i] == unit.offers@[i]@);
        assert(after.evaluation.links.pending[waiting + p + i].0 == needs[p + i]);
        laws::plant::a_need_is_answered(after, waiting + p + i, needs[p + i], model.unit.offered@[i]);
    }
    assert forall|i: int| 0 <= i < unit.needs@.len() implies laws::plant::addresses_key(
        after.resolved(),
        model.unit.needed@[i],
        (#[trigger] unit.needs@[i])@,
    ) by {
        assert(needs[p + o + i] == unit.needs@[i]@);
        assert(after.evaluation.links.pending[waiting + p + o + i].0 == needs[p + o + i]);
        laws::plant::a_need_is_answered(after, waiting + p + o + i, needs[p + o + i], model.unit.needed@[i]);
    }
}

/// A task is run on the values in the slots of its parameters, in their order; each of its results is
/// put into the slot of its own, over what the run itself left.
pub proof fn a_task_maps_its_parameters_to_its_results<
    F: Fn(&Signals, EvaluationState, Vec<u64>) -> (EvaluationState, Vec<u64>),
>(
    model: TaskModel<F>,
    current: CurrentView,
    before: EvaluationView,
    after: EvaluationView,
    parameters: Seq<int>,
    results: Seq<int>,
) -> (run: (EvaluationState, Vec<u64>, EvaluationState, Vec<u64>))
    requires
        DynamicModel::evaluates(&model, current, before, after),
        laws::registry::each_addresses(before, model@.parameters, parameters),
    ensures
        call_ensures(model@.compute, (&model@.unit, run.0, run.1), (run.2, run.3)),
        run.0@ == before,
        run.1@.len() == parameters.len(),
        forall|i: int|
            0 <= i < parameters.len() ==> #[trigger] run.1@[i] == before.values[parameters[i]],
        laws::registry::each_addresses(run.2@, model@.results, results) && run.3@.len()
            == results.len() ==> laws::registry::holds_the_last(
            run.2@,
            results,
            run.3@,
            results.len() as int,
            after,
        ),
{
    let (state, given, outcome) = choose|
        state: EvaluationState,
        given: Vec<u64>,
        outcome: (EvaluationState, Vec<u64>),
    |
        {
            &&& #[trigger] call_ensures(model@.compute, (&model@.unit, state, given), outcome)
            &&& state@ == before
            &&& given@ == state_registry::gathered(model@.parameters, before)
            &&& after == state_registry::written(
                model@.results,
                outcome.1@,
                model@.results.len(),
                outcome.0@,
            )
        };
    laws::registry::each_slot_is_gathered(before, model@.parameters, parameters);
    if laws::registry::each_addresses(outcome.0@, model@.results, results) && outcome.1@.len()
        == results.len() {
        laws::registry::each_value_is_scattered(
            outcome.0@,
            model@.results,
            results,
            outcome.1@,
        );
    }
    (state, given, outcome.0, outcome.1)
}

/// An actuator that is registered has a slot for its state under its key and one for its rate of change
/// under the key's derivative, a command of its own, and its place in the catalog. State and command
/// start alike and the rate at zero.
pub proof fn an_actuator_has_a_state_a_rate_and_a_command<F: Fn(u64, u64) -> u64, S, A, C>(
    before: RegistryView<S, A, C>,
    key: Seq<char>,
    initial: u64,
    dynamics: F,
    made: Actuator<F>,
    item: A,
    after: RegistryView<S, A, C>,
)
    requires
        before.wf(),
        before.keys.len() + 2 <= usize::MAX,
        actuator::model::actuator_registered(before, key, initial, dynamics, made, item, after),
    ensures
        ({
            let slots = before.keys.len() as int;
            let cells = before.evaluation.commands.len() as int;
            &&& after.keys.len() == slots + 2
            &&& after.keys[slots] == key
            &&& after.keys[slots + 1] == key + ".derivative"@
            &&& laws::registry::addresses(after.evaluation, made@.state, slots)
            &&& laws::registry::addresses(after.evaluation, made@.derivative, slots + 1)
            &&& after.evaluation.values[slots] == initial
            &&& after.evaluation.values[slots + 1] == 0
            &&& made@.command.number() == cells
            &&& after.evaluation.commands.len() == cells + 1
            &&& after.evaluation.commands[cells] == initial
            &&& made@.dynamics == dynamics
            &&& made@.key == key
            &&& after.actuators.names == before.actuators.names.push(key)
            &&& after.actuators.items == before.actuators.items.push(item)
            &&& forall|p: int|
                0 <= p < slots ==> #[trigger] after.evaluation.values[p]
                    == before.evaluation.values[p] && after.keys[p] == before.keys[p]
            &&& forall|c: int|
                0 <= c < cells ==> #[trigger] after.evaluation.commands[c]
                    == before.evaluation.commands[c]
        }),
{
    let offers = seq![key, actuator::model::derivative_key(key)];
    laws::registry::each_offer_opens_a_slot(before, offers);
    let slots = before.offering(offers);
    let tickets = before.evaluation.links.bindings.len() as int;
    let n = before.keys.len() as int;
    assert(offers[0] == key && offers[1] == key + ".derivative"@);
    assert(slots.keys[n + 0] == offers[0]);
    assert(slots.keys[n + 1] == offers[1]);
    assert(laws::registry::carries(slots.evaluation.links, tickets + 0, n + 0));
    assert(laws::registry::carries(slots.evaluation.links, tickets + 1, n + 1));
}

/// A declared actuator starts from the configuration where its declaration names a key, and else from
/// zero.
pub proof fn a_declared_actuator_starts_where_it_is_told<F, G, H>(
    component: ActuatorComponent<F, G, H>,
    config: CatalogView<u64>,
)
    ensures
        component.plan.args.config is None ==> component.start(config) == 0,
        component.plan.args.config matches Some(key) ==> component.start(config) == snapshot::seed(
            config,
            key@,
        ),
{
}

/// The component of a declared model builds the model of its plan, over the slots that the plan
/// installs, and belongs to no unit.
pub proof fn a_model_component_builds_its_plan<
    S,
    A,
    C,
    M,
    F: Fn(&Signals, EvaluationState) -> EvaluationState + Copy,
    H: Fn(DeclaredModel<F>) -> M,
>(
    component: ModelComponent<F, H>,
    before: RegistryView<S, A, C>,
    config: CatalogView<u64>,
    built: Option<M>,
    after: RegistryView<S, A, C>,
) -> (model: DeclaredModel<F>)
    requires
        Construct::builds(&component, before, config, built, after),
    ensures
        built is Some,
        call_ensures(component.present, (model,), built->0),
        running::model_built(component.plan, component.compute, before, model@),
        after == component.plan.installed(before, config),
        Construct::<S, A, C, M>::unit_name(&component) is None,
{
    choose|model: DeclaredModel<F>|
        {
            &&& #[trigger] running::model_built(
                component.plan,
                component.compute,
                before,
                model@,
            )
            &&& call_ensures(component.present, (model,), built->0)
        }
}

/// The component of a task builds the task of its plan, and belongs to the unit that the plan comes
/// after.
pub proof fn a_task_component_builds_its_plan<
    S,
    A,
    C,
    M,
    F: Fn(&Signals, EvaluationState, Vec<u64>) -> (EvaluationState, Vec<u64>) + Copy,
    H: Fn(TaskModel<F>) -> M,
>(
    component: TaskComponent<F, H>,
    before: RegistryView<S, A, C>,
    config: CatalogView<u64>,
    built: Option<M>,
    after: RegistryView<S, A, C>,
) -> (model: TaskModel<F>)
    requires
        Construct::builds(&component, before, config, built, after),
    ensures
        built is Some,
        call_ensures(component.present, (model,), built->0),
        running::task_built(component.plan, component.unit, component.compute, before, model@),
        after == before.offering(text::texts(component.plan.offers@)).needing(
            text::texts(component.plan.needs@) + (text::texts(component.unit.offers@)
                + text::texts(component.unit.needs@)),
        ),
        Construct::<S, A, C, M>::unit_name(&component) == Some(component.plan.after@),
{
    choose|model: TaskModel<F>|
        {
            &&& #[trigger] running::task_built(
                component.plan,
                component.unit,
                component.compute,
                before,
                model@,
            )
            &&& call_ensures(component.present, (model,), built->0)
        }
}

/// The component of a declared sensor catalogues an ideal sensor on the key of its plan, and builds no
/// model.
pub proof fn a_sensor_component_catalogues_its_key<
    S,
    A,
    C,
    M,
    G: Fn(Sensor<Ideal>) -> (S, S) + Copy,
>(
    component: SensorComponent<G>,
    before: RegistryView<S, A, C>,
    config: CatalogView<u64>,
    built: Option<M>,
    after: RegistryView<S, A, C>,
) -> (made: (Sensor<Ideal>, S, S))
    requires
        Construct::builds(&component, before, config, built, after),
    ensures
        built is None,
        sensor::model::sensor_registered(
            before,
            component.plan.key@,
            Ideal,
            made.0,
            made.1,
            after,
        ),
        call_ensures(component.share, (made.0,), (made.1, made.2)),
{
    choose|made: Sensor<Ideal>, item: S, shared: S| #[trigger]
        sensor::model::sensor_registered(
            before,
            component.plan.key@,
            Ideal,
            made,
            item,
            after,
        ) && #[trigger] call_ensures(component.share, (made,), (item, shared))
}

/// The component of a declared controller catalogues a controller under the name of its plan that asks
/// for the keys of its plan.
pub proof fn a_controller_component_asks_for_its_keys<
    S,
    A,
    C,
    M,
    G: Fn(Controller) -> (C, C) + Copy,
    H: Fn(C) -> M,
>(
    component: ControllerComponent<G, H>,
    before: RegistryView<S, A, C>,
    config: CatalogView<u64>,
    built: Option<M>,
    after: RegistryView<S, A, C>,
) -> (made: (Controller, C, C))
    requires
        Construct::builds(&component, before, config, built, after),
    ensures
        built is Some,
        controller::model::controller_registered(
            before,
            component.plan.catalog_name@,
            text::texts(component.plan.sensor_keys@),
            text::texts(component.plan.actuator_keys@),
            made.0,
            made.1,
            after,
        ),
        call_ensures(component.share, (made.0,), (made.1, made.2)),
        call_ensures(component.present, (made.2,), built->0),
{
    choose|made: Controller, item: C, shared: C|
        {
            &&& #[trigger] controller::model::controller_registered(
                before,
                component.plan.catalog_name@,
                text::texts(component.plan.sensor_keys@),
                text::texts(component.plan.actuator_keys@),
                made,
                item,
                after,
            )
            &&& #[trigger] call_ensures(component.share, (made,), (item, shared))
            &&& call_ensures(component.present, (shared,), built->0)
        }
}

/// A descriptor says what it is made of, name by name.
pub proof fn a_descriptor_says_what_it_is_made_of<F>(
    descriptor: ComponentDescriptor<F>,
    name: Seq<char>,
    kind: ComponentKind,
    after: Seq<Seq<char>>,
    needs: Seq<Seq<char>>,
    offers: Seq<Seq<char>>,
    construct: F,
)
    requires
        announcing::announces(descriptor, name, kind, after, needs, offers, construct),
    ensures
        descriptor.name@ == name,
        descriptor.kind == kind,
        descriptor.construct == construct,
        laws::parts::each_shows(descriptor.after@, after),
        laws::parts::each_shows(descriptor.needs@, needs),
        laws::parts::each_shows(descriptor.offers@, offers),
{
    laws::parts::texts_are_shown(descriptor.after@);
    laws::parts::texts_are_shown(descriptor.needs@);
    laws::parts::texts_are_shown(descriptor.offers@);
}

/// What may be set is each signal that is offered and not integrated, and setting changes no other slot.
pub proof fn only_settable_signals_are_set(
    signals: Signals,
    before: EvaluationView,
    after: EvaluationView,
    slot: int,
)
    requires
        signals.only_set(before, after),
        0 <= slot < before.values.len(),
        forall|i: int|
            0 <= i < signals.offered@.len() && signals.settable@[i] ==> !laws::registry::addresses(
                before,
                #[trigger] signals.offered@[i],
                slot,
            ),
    ensures
        after.values[slot] == before.values[slot],
        after.values.len() == before.values.len(),
        after.commands == before.commands,
        after.links == before.links,
{
    if signals.may_set(before.layout(), slot) {
        let i = choose|i: int|
            {
                &&& 0 <= i < signals.offered@.len()
                &&& signals.settable@[i]
                &&& before.layout().position(#[trigger] signals.offered@[i]) matches Some(p) && p
                    == slot
            };
        assert(laws::registry::addresses(before, signals.offered@[i], slot));
    }
    assert(after.layout().slots == after.values.len());
}

} // verus!
