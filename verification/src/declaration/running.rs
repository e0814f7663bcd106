//! Declared components at work.
//!
//! A declared model reads its slots, hands the values to the computation of its author, and writes
//! back what it may write. Reading and writing go through the proxies that its plan subscribed.
use crate::actuator::model::Actuator;
use crate::catalog::CatalogView;
use crate::component::Construct;
use crate::controller::model::Controller;
use crate::declaration::model::ModelPlan;
use crate::declaration::parts::{ActuatorPlan, ControllerPlan, SensorPlan};
use crate::declaration::signals::Signals;
use crate::declaration::tasks::TaskPlan;
use crate::dynamic_model::DynamicModel;
use crate::sensor::model::{Ideal, Sensor};
use crate::snapshot::Snapshot;
use crate::state_registry::{
    CurrentState, CurrentView, EvaluationState, EvaluationView, Layout, Outline, Proxy, RegistryView,
    StateRegistry,
};
use crate::{actuator, controller, sensor, snapshot, state_registry, text};
use vstd::prelude::*;

verus! {

/// A model over declared signals. `compute` gets the signals and the working copy and gives the
/// working copy back.
pub struct DeclaredModel<F> {
    name: String,
    states: Vec<String>,
    signals: Signals,
    compute: F,
}

/// What a [`DeclaredModel`] holds.
pub ghost struct DeclaredView<F> {
    pub name: Seq<char>,
    pub states: Seq<Seq<char>>,
    pub signals: Signals,
    pub compute: F,
}

/// Whether the computation takes every working copy that is so laid out, and sets nothing but what
/// the signals allow.
pub open spec fn computes_on<F: Fn(&Signals, EvaluationState) -> EvaluationState>(
    compute: F,
    signals: Signals,
    layout: Layout,
) -> bool {
    &&& forall|state: EvaluationState|
        state@.layout() == layout ==> #[trigger] call_requires(compute, (&signals, state))
    &&& forall|state: EvaluationState, left: EvaluationState| #[trigger]
        call_ensures(compute, (&signals, state), left) && state@.layout() == layout
            ==> signals.only_set(state@, left@)
}

impl<F: Fn(&Signals, EvaluationState) -> EvaluationState> DeclaredModel<F> {
    pub closed spec fn view(&self) -> DeclaredView<F> {
        DeclaredView {
            name: self.name@,
            states: text::texts(self.states@),
            signals: self.signals,
            compute: self.compute,
        }
    }
}

impl<F: Fn(&Signals, EvaluationState) -> EvaluationState> DynamicModel for DeclaredModel<F> {
    open spec fn title(&self) -> Seq<char> {
        self@.name
    }

    open spec fn integrable(&self) -> Seq<Seq<char>> {
        self@.states
    }

    open spec fn ready(&self, outline: Outline, layout: Layout) -> bool {
        &&& self@.signals.works_on(layout)
        &&& computes_on(self@.compute, self@.signals, layout)
    }

    open spec fn evaluates(
        &self,
        current: CurrentView,
        before: EvaluationView,
        after: EvaluationView,
    ) -> bool {
        exists|state: EvaluationState, left: EvaluationState| #[trigger]
            call_ensures(self@.compute, (&self@.signals, state), left) && state@ == before && left@
                == after
    }

    fn name(&self) -> (name: &str) {
        self.name.as_str()
    }

    fn evaluate(&self, current: &CurrentState, state: &mut EvaluationState) {
        let mut taken: EvaluationState = EvaluationState::empty();
        std::mem::swap(state, &mut taken);
        let ghost given = taken;
        assert(call_requires(self@.compute, (&self@.signals, taken)));
        *state = (self.compute)(&self.signals, taken);
        assert(call_ensures(self@.compute, (&self@.signals, given), *state));
    }

    fn state_keys(&self) -> (keys: Vec<String>) {
        text::copy_texts(&self.states)
    }
}

/// A declared model with its computation. `present` makes the model into what a round evaluates.
pub struct ModelComponent<F, H> {
    pub plan: ModelPlan,
    pub compute: F,
    pub present: H,
}

/// Whether these are so many proxies that were handed out one after the other.
pub open spec fn are_numbered(proxies: Seq<Proxy>, first: int, count: nat) -> bool {
    &&& proxies.len() == count
    &&& forall|i: int|
        0 <= i < proxies.len() ==> (#[trigger] proxies[i]).number() == first + i
}

/// Whether a model with the signals of the plan came out of subscribing it.
pub open spec fn model_built<F, S, A, C>(
    plan: ModelPlan,
    compute: F,
    before: RegistryView<S, A, C>,
    model: DeclaredView<F>,
) -> bool {
    let first = before.evaluation.links.bindings.len() as int;
    &&& model.name == plan.name@
    &&& model.states == text::texts(plan.states@)
    &&& model.compute == compute
    &&& model.signals.settable@ == plan.settable@
    &&& are_numbered(model.signals.offered@, first, plan.offers@.len())
    &&& are_numbered(
        model.signals.needed@,
        first + plan.offers@.len(),
        plan.needs@.len(),
    )
}

fn copy_flags(flags: &Vec<bool>) -> (copy: Vec<bool>)
    ensures
        copy@ == flags@,
{
    let mut copy: Vec<bool> = Vec::new();
    let mut i: usize = 0;
    while i < flags.len()
        invariant
            i <= flags@.len(),
            copy@ == flags@.take(i as int),
        decreases flags@.len() - i,
    {
        copy.push(flags[i]);
        i = i + 1;
        assert(copy@ =~= flags@.take(i as int));
    }
    assert(copy@ =~= flags@);
    copy
}

/// Builds a declared model: subscribes its plan and starts its configured slots.
pub fn build_model<S, A, C, F: Fn(&Signals, EvaluationState) -> EvaluationState>(
    plan: &ModelPlan,
    compute: F,
    registry: &mut StateRegistry<S, A, C>,
    config: &Snapshot,
) -> (model: DeclaredModel<F>)
    requires
        old(registry)@.wf(),
        plan.wf(),
    ensures
        final(registry)@.wf(),
        final(registry)@ == plan.installed(old(registry)@, config@),
        model_built(*plan, compute, old(registry)@, model@),
        model@.signals.wf(),
{
    let (offered, needed) = plan.install(registry, config);
    let settable: Vec<bool> = copy_flags(&plan.settable);
    DeclaredModel {
        name: plan.name.clone(),
        states: text::copy_texts(&plan.states),
        signals: Signals { offered, settable, needed },
        compute,
    }
}

impl<
    S,
    A,
    C,
    M,
    F: Fn(&Signals, EvaluationState) -> EvaluationState + Copy,
    H: Fn(DeclaredModel<F>) -> M,
> Construct<S, A, C, M> for ModelComponent<F, H> {
    open spec fn constructible(&self) -> bool {
        &&& self.plan.wf()
        &&& forall|model: DeclaredModel<F>| #[trigger] call_requires(self.present, (model,))
    }

    open spec fn unit_name(&self) -> Option<Seq<char>> {
        None
    }

    fn unit(&self) -> (unit: Option<&str>) {
        None
    }

    open spec fn builds(
        &self,
        before: RegistryView<S, A, C>,
        config: CatalogView<u64>,
        built: Option<M>,
        after: RegistryView<S, A, C>,
    ) -> bool {
        &&& after == self.plan.installed(before, config)
        &&& built matches Some(presented) && exists|model: DeclaredModel<F>|
            {
                &&& #[trigger] model_built(self.plan, self.compute, before, model@)
                &&& call_ensures(self.present, (model,), presented)
            }
    }

    fn construct(&self, registry: &mut StateRegistry<S, A, C>, config: &Snapshot) -> (built: Option<
        M,
    >) {
        let model = build_model(&self.plan, self.compute, registry, config);
        Some((self.present)(model))
    }
}

/// The keys of the signals of a unit, which the methods of the unit read and set. Of the offered ones
/// those are settable that no integrator advances.
pub struct UnitKeys {
    pub offers: Vec<String>,
    pub settable: Vec<bool>,
    pub needs: Vec<String>,
}

impl UnitKeys {
    pub open spec fn wf(&self) -> bool {
        self.settable@.len() == self.offers@.len()
    }

    /// The keys in a row, the offered ones first.
    pub open spec fn keys(&self) -> Seq<Seq<char>> {
        text::texts(self.offers@) + text::texts(self.needs@)
    }

    /// The keys of the unit that a plan declares.
    pub fn of(plan: &ModelPlan) -> (unit: UnitKeys)
        requires
            plan.wf(),
        ensures
            unit.wf(),
            text::texts(unit.offers@) == text::texts(plan.offers@),
            unit.settable@ == plan.settable@,
            text::texts(unit.needs@) == text::texts(plan.needs@),
    {
        let unit = UnitKeys {
            offers: text::copy_texts(&plan.offers),
            settable: copy_flags(&plan.settable),
            needs: text::copy_texts(&plan.needs),
        };
        proof {
            assert(text::texts(unit.offers@).len() == unit.offers@.len());
            assert(text::texts(plan.offers@).len() == plan.offers@.len());
        }
        unit
    }
}

/// A method of a unit at work. Its parameters are read before it is called, and its results are
/// written when it has come back; in between it reads and sets the signals of its unit on the working
/// copy.
pub struct TaskModel<F> {
    name: String,
    parameters: Vec<Proxy>,
    results: Vec<Proxy>,
    unit: Signals,
    compute: F,
}

/// What a [`TaskModel`] holds.
pub ghost struct TaskModelView<F> {
    pub name: Seq<char>,
    pub parameters: Seq<Proxy>,
    pub results: Seq<Proxy>,
    pub unit: Signals,
    pub compute: F,
}

/// Whether the method takes so many parameters on every working copy that is so laid out, gives so
/// many results, and sets nothing but what the signals of its unit allow.
pub open spec fn runs_on<F: Fn(&Signals, EvaluationState, Vec<u64>) -> (EvaluationState, Vec<u64>)>(
    compute: F,
    unit: Signals,
    parameters: nat,
    results: nat,
    layout: Layout,
) -> bool {
    &&& forall|state: EvaluationState, given: Vec<u64>|
        state@.layout() == layout && given@.len() == parameters ==> #[trigger] call_requires(
            compute,
            (&unit, state, given),
        )
    &&& forall|
        state: EvaluationState,
        given: Vec<u64>,
        outcome: (EvaluationState, Vec<u64>),
    |
        #[trigger] call_ensures(compute, (&unit, state, given), outcome) && state@.layout()
            == layout && given@.len() == parameters ==> unit.only_set(state@, outcome.0@)
            && outcome.1@.len() == results
}

impl<F: Fn(&Signals, EvaluationState, Vec<u64>) -> (EvaluationState, Vec<u64>)> TaskModel<F> {
    pub closed spec fn view(&self) -> TaskModelView<F> {
        TaskModelView {
            name: self.name@,
            parameters: self.parameters@,
            results: self.results@,
            unit: self.unit,
            compute: self.compute,
        }
    }
}

impl<F: Fn(&Signals, EvaluationState, Vec<u64>) -> (EvaluationState, Vec<u64>)> DynamicModel for TaskModel<
    F,
> {
    open spec fn title(&self) -> Seq<char> {
        self@.name
    }

    open spec fn integrable(&self) -> Seq<Seq<char>> {
        Seq::empty()
    }

    open spec fn ready(&self, outline: Outline, layout: Layout) -> bool {
        &&& state_registry::all_resolved(self@.parameters, layout)
        &&& state_registry::all_resolved(self@.results, layout)
        &&& self@.unit.works_on(layout)
        &&& runs_on(
            self@.compute,
            self@.unit,
            self@.parameters.len(),
            self@.results.len(),
            layout,
        )
    }

    open spec fn evaluates(
        &self,
        current: CurrentView,
        before: EvaluationView,
        after: EvaluationView,
    ) -> bool {
        exists|
            state: EvaluationState,
            given: Vec<u64>,
            outcome: (EvaluationState, Vec<u64>),
        |
            {
                &&& #[trigger] call_ensures(self@.compute, (&self@.unit, state, given), outcome)
                &&& state@ == before
                &&& given@ == state_registry::gathered(self@.parameters, before)
                &&& after == state_registry::written(
                    self@.results,
                    outcome.1@,
                    self@.results.len(),
                    outcome.0@,
                )
            }
    }

    fn name(&self) -> (name: &str) {
        self.name.as_str()
    }

    fn evaluate(&self, current: &CurrentState, state: &mut EvaluationState) {
        let given: Vec<u64> = state_registry::gather(&self.parameters, state);
        let mut taken: EvaluationState = EvaluationState::empty();
        std::mem::swap(state, &mut taken);
        let ghost read = (taken, given);
        assert(call_requires(self@.compute, (&self@.unit, taken, given)));
        let outcome = (self.compute)(&self.unit, taken, given);
        let ghost came_back = outcome;
        assert(call_ensures(self@.compute, (&self@.unit, read.0, read.1), came_back));
        let (left, values) = outcome;
        *state = left;
        state_registry::scatter(&self.results, state, &values);
        assert(call_ensures(self@.compute, (&self@.unit, read.0, read.1), came_back));
    }

    fn state_keys(&self) -> (keys: Vec<String>) {
        let keys: Vec<String> = Vec::new();
        assert(text::texts(keys@) =~= Seq::<Seq<char>>::empty());
        keys
    }
}

/// A task with its method. `unit` are the keys of its unit.
pub struct TaskComponent<F, H> {
    pub plan: TaskPlan,
    pub unit: UnitKeys,
    pub compute: F,
    pub present: H,
}

/// Whether a task with the signals of the plan and of its unit came out of subscribing it.
pub open spec fn task_built<F, S, A, C>(
    plan: TaskPlan,
    unit: UnitKeys,
    compute: F,
    before: RegistryView<S, A, C>,
    model: TaskModelView<F>,
) -> bool {
    let first = before.evaluation.links.bindings.len() as int;
    let parameters = first + plan.offers@.len();
    let offered = parameters + plan.needs@.len();
    let needed = offered + unit.offers@.len();
    &&& model.name == plan.name@
    &&& model.compute == compute
    &&& are_numbered(model.results, first, plan.offers@.len())
    &&& are_numbered(model.parameters, parameters, plan.needs@.len())
    &&& are_numbered(model.unit.offered@, offered, unit.offers@.len())
    &&& are_numbered(model.unit.needed@, needed, unit.needs@.len())
    &&& model.unit.settable@ == unit.settable@
}

/// The proxies from one place to another.
fn part_of(proxies: &Vec<Proxy>, from: usize, to: usize) -> (part: Vec<Proxy>)
    requires
        from <= to <= proxies@.len(),
    ensures
        part@ == proxies@.subrange(from as int, to as int),
{
    let mut part: Vec<Proxy> = Vec::new();
    let mut i: usize = from;
    assert(part@ =~= proxies@.subrange(from as int, from as int));
    while i < to
        invariant
            from <= i <= to <= proxies@.len(),
            part@ == proxies@.subrange(from as int, i as int),
        decreases to - i,
    {
        part.push(proxies[i]);
        i = i + 1;
        assert(part@ =~= proxies@.subrange(from as int, i as int));
    }
    part
}

/// Builds a task: subscribes what it offers, what it needs and the signals of its unit.
pub fn build_task_model<
    S,
    A,
    C,
    F: Fn(&Signals, EvaluationState, Vec<u64>) -> (EvaluationState, Vec<u64>),
>(plan: &TaskPlan, unit: &UnitKeys, compute: F, registry: &mut StateRegistry<S, A, C>) -> (model:
    TaskModel<F>)
    requires
        old(registry)@.wf(),
        unit.wf(),
    ensures
        final(registry)@.wf(),
        final(registry)@ == old(registry)@.offering(text::texts(plan.offers@)).needing(
            text::texts(plan.needs@) + unit.keys(),
        ),
        task_built(*plan, *unit, compute, old(registry)@, model@),
        model@.unit.wf(),
{
    let offer_slices = text::as_strs(&plan.offers);
    let mut need_slices = text::as_strs(&plan.needs);
    let mut unit_offers = text::as_strs(&unit.offers);
    let mut unit_needs = text::as_strs(&unit.needs);
    let ghost needs = need_slices@;
    let ghost own_offers = unit_offers@;
    let ghost own_needs = unit_needs@;
    need_slices.append(&mut unit_offers);
    need_slices.append(&mut unit_needs);
    proof {
        assert(text::strs(need_slices@) =~= text::strs(needs) + (text::strs(own_offers)
            + text::strs(own_needs)));
        assert(text::texts(plan.offers@).len() == plan.offers@.len());
        assert(text::strs(offer_slices@).len() == offer_slices@.len());
        assert(text::texts(plan.needs@).len() == plan.needs@.len());
        assert(text::texts(unit.offers@).len() == unit.offers@.len());
        assert(text::texts(unit.needs@).len() == unit.needs@.len());
        assert(text::strs(need_slices@).len() == need_slices@.len());
    }
    let (results, needed) = registry.subscribe(offer_slices.as_slice(), need_slices.as_slice());
    let total: usize = needed.len();
    let parameters: usize = plan.needs.len();
    let own: usize = parameters + unit.offers.len();
    let model = TaskModel {
        name: plan.name.clone(),
        parameters: part_of(&needed, 0, parameters),
        results,
        unit: Signals {
            offered: part_of(&needed, parameters, own),
            settable: copy_flags(&unit.settable),
            needed: part_of(&needed, own, total),
        },
        compute,
    };
    model
}

impl<
    S,
    A,
    C,
    M,
    F: Fn(&Signals, EvaluationState, Vec<u64>) -> (EvaluationState, Vec<u64>) + Copy,
    H: Fn(TaskModel<F>) -> M,
> Construct<S, A, C, M> for TaskComponent<F, H> {
    open spec fn constructible(&self) -> bool {
        &&& self.unit.wf()
        &&& forall|model: TaskModel<F>| #[trigger] call_requires(self.present, (model,))
    }

    open spec fn unit_name(&self) -> Option<Seq<char>> {
        Some(self.plan.after@)
    }

    fn unit(&self) -> (unit: Option<&str>) {
        Some(self.plan.after.as_str())
    }

    open spec fn builds(
        &self,
        before: RegistryView<S, A, C>,
        config: CatalogView<u64>,
        built: Option<M>,
        after: RegistryView<S, A, C>,
    ) -> bool {
        &&& after == before.offering(text::texts(self.plan.offers@)).needing(
            text::texts(self.plan.needs@) + self.unit.keys(),
        )
        &&& built matches Some(presented) && exists|model: TaskModel<F>|
            {
                &&& #[trigger] task_built(self.plan, self.unit, self.compute, before, model@)
                &&& call_ensures(self.present, (model,), presented)
            }
    }

    fn construct(&self, registry: &mut StateRegistry<S, A, C>, config: &Snapshot) -> (built: Option<
        M,
    >) {
        let model = build_task_model(&self.plan, &self.unit, self.compute, registry);
        Some((self.present)(model))
    }
}

/// A declared actuator with its law. `share` makes the actuator into two handles on it, one for the
/// catalog, and `present` makes the other into what a round evaluates.
pub struct ActuatorComponent<F, G, H> {
    pub plan: ActuatorPlan,
    pub dynamics: F,
    pub share: G,
    pub present: H,
}

impl<F, G, H> ActuatorComponent<F, G, H> {
    /// The value at which the actuator starts.
    pub open spec fn start(&self, config: CatalogView<u64>) -> u64 {
        match self.plan.args.config {
            Some(key) => snapshot::seed(config, key@),
            None => 0,
        }
    }
}

impl<
    S,
    A,
    C,
    M,
    F: Fn(u64, u64) -> u64 + Copy,
    G: Fn(Actuator<F>) -> (A, A) + Copy,
    H: Fn(A) -> M,
> Construct<S, A, C, M> for ActuatorComponent<F, G, H> {
    open spec fn constructible(&self) -> bool {
        &&& forall|actuator: Actuator<F>| #[trigger] call_requires(self.share, (actuator,))
        &&& forall|shared: A| #[trigger] call_requires(self.present, (shared,))
    }

    open spec fn unit_name(&self) -> Option<Seq<char>> {
        None
    }

    fn unit(&self) -> (unit: Option<&str>) {
        None
    }

    open spec fn builds(
        &self,
        before: RegistryView<S, A, C>,
        config: CatalogView<u64>,
        built: Option<M>,
        after: RegistryView<S, A, C>,
    ) -> bool {
        built matches Some(presented) && exists|actuator: Actuator<F>, item: A, shared: A|
            {
                &&& #[trigger] actuator::model::actuator_registered(
                    before,
                    self.plan.args.key@,
                    self.start(config),
                    self.dynamics,
                    actuator,
                    item,
                    after,
                )
                &&& #[trigger] call_ensures(self.share, (actuator,), (item, shared))
                &&& call_ensures(self.present, (shared,), presented)
            }
    }

    fn construct(&self, registry: &mut StateRegistry<S, A, C>, config: &Snapshot) -> (built: Option<
        M,
    >) {
        let initial: u64 = match &self.plan.args.config {
            Some(key) => config.get_or_zero(key.as_str()),
            None => 0,
        };
        let shared: A = Actuator::starting_at(
            registry,
            self.plan.args.key.as_str(),
            initial,
            self.dynamics,
            self.share,
        );
        assert(initial == self.start(config@));
        Some((self.present)(shared))
    }
}

/// A declared sensor, which hands the physical value on. `share` makes the sensor into two handles
/// on it, one for the catalog.
pub struct SensorComponent<G> {
    pub plan: SensorPlan,
    pub share: G,
}

impl<S, A, C, M, G: Fn(Sensor<Ideal>) -> (S, S) + Copy> Construct<S, A, C, M> for SensorComponent<
    G,
> {
    open spec fn constructible(&self) -> bool {
        forall|sensor: Sensor<Ideal>| #[trigger] call_requires(self.share, (sensor,))
    }

    open spec fn unit_name(&self) -> Option<Seq<char>> {
        None
    }

    fn unit(&self) -> (unit: Option<&str>) {
        None
    }

    /// A sensor is catalogued and gives no model.
    open spec fn builds(
        &self,
        before: RegistryView<S, A, C>,
        config: CatalogView<u64>,
        built: Option<M>,
        after: RegistryView<S, A, C>,
    ) -> bool {
        &&& built is None
        &&& exists|sensor: Sensor<Ideal>, item: S, shared: S| #[trigger]
            sensor::model::sensor_registered(before, self.plan.key@, Ideal, sensor, item, after)
                && #[trigger] call_ensures(self.share, (sensor,), (item, shared))
    }

    fn construct(&self, registry: &mut StateRegistry<S, A, C>, config: &Snapshot) -> (built: Option<
        M,
    >) {
        let _ = Sensor::new(registry, self.plan.key.as_str(), Ideal, self.share);
        None
    }
}

/// A declared controller. `share` makes the controller into two handles on it, one for the catalog,
/// and `present` makes the other into what a round evaluates.
pub struct ControllerComponent<G, H> {
    pub plan: ControllerPlan,
    pub share: G,
    pub present: H,
}

impl<
    S,
    A,
    C,
    M,
    G: Fn(Controller) -> (C, C) + Copy,
    H: Fn(C) -> M,
> Construct<S, A, C, M> for ControllerComponent<G, H> {
    open spec fn constructible(&self) -> bool {
        &&& forall|controller: Controller| #[trigger] call_requires(self.share, (controller,))
        &&& forall|shared: C| #[trigger] call_requires(self.present, (shared,))
    }

    open spec fn unit_name(&self) -> Option<Seq<char>> {
        None
    }

    fn unit(&self) -> (unit: Option<&str>) {
        None
    }

    open spec fn builds(
        &self,
        before: RegistryView<S, A, C>,
        config: CatalogView<u64>,
        built: Option<M>,
        after: RegistryView<S, A, C>,
    ) -> bool {
        built matches Some(presented) && exists|controller: Controller, item: C, shared: C|
            {
                &&& #[trigger] controller::model::controller_registered(
                    before,
                    self.plan.catalog_name@,
                    text::texts(self.plan.sensor_keys@),
                    text::texts(self.plan.actuator_keys@),
                    controller,
                    item,
                    after,
                )
                &&& #[trigger] call_ensures(self.share, (controller,), (item, shared))
                &&& call_ensures(self.present, (shared,), presented)
            }
    }

    fn construct(&self, registry: &mut StateRegistry<S, A, C>, config: &Snapshot) -> (built: Option<
        M,
    >) {
        let sensors = text::as_strs(&self.plan.sensor_keys);
        let actuators = text::as_strs(&self.plan.actuator_keys);
        let shared: C = Controller::new(
            registry,
            self.plan.catalog_name.as_str(),
            sensors.as_slice(),
            actuators.as_slice(),
            self.share,
        );
        Some((self.present)(shared))
    }
}

/// Proxies that a registry handed out are resolved on every buffer that serves it.
proof fn numbered_proxies_work<S, A, C>(
    proxies: Seq<Proxy>,
    first: int,
    count: nat,
    registry: RegistryView<S, A, C>,
    layout: Layout,
)
    requires
        are_numbered(proxies, first, count),
        0 <= first,
        first + count <= registry.evaluation.links.bindings.len(),
        layout.serves(registry),
    ensures
        state_registry::all_resolved(proxies, layout),
{
    assert forall|i: int| 0 <= i < proxies.len() implies layout.resolved(#[trigger] proxies[i]) by {
        assert(proxies[i].number() < registry.evaluation.links.bindings.len());
    }
}

/// A declared model that was built can be evaluated on every buffer that serves the registry it was
/// installed in.
pub proof fn a_built_model_is_ready<
    S,
    A,
    C,
    F: Fn(&Signals, EvaluationState) -> EvaluationState,
>(
    plan: ModelPlan,
    compute: F,
    before: RegistryView<S, A, C>,
    config: CatalogView<u64>,
    model: DeclaredModel<F>,
    outline: Outline,
    layout: Layout,
)
    requires
        plan.wf(),
        model_built(plan, compute, before, model@),
        layout.serves(plan.installed(before, config)),
        computes_on(compute, model@.signals, layout),
    ensures
        model.ready(outline, layout),
{
    let after = plan.installed(before, config);
    let first = before.evaluation.links.bindings.len() as int;
    assert(text::texts(plan.offers@).len() == plan.offers@.len());
    assert(text::texts(plan.needs@).len() == plan.needs@.len());
    numbered_proxies_work(model@.signals.offered@, first, plan.offers@.len(), after, layout);
    numbered_proxies_work(
        model@.signals.needed@,
        first + plan.offers@.len(),
        plan.needs@.len(),
        after,
        layout,
    );
}

/// A task that was built can be evaluated on every buffer that serves the registry it subscribed to.
pub proof fn a_built_task_is_ready<
    S,
    A,
    C,
    F: Fn(&Signals, EvaluationState, Vec<u64>) -> (EvaluationState, Vec<u64>),
>(
    plan: TaskPlan,
    unit: UnitKeys,
    compute: F,
    before: RegistryView<S, A, C>,
    model: TaskModel<F>,
    outline: Outline,
    layout: Layout,
)
    requires
        unit.wf(),
        task_built(plan, unit, compute, before, model@),
        layout.serves(
            before.offering(text::texts(plan.offers@)).needing(
                text::texts(plan.needs@) + unit.keys(),
            ),
        ),
        runs_on(compute, model@.unit, plan.needs@.len(), plan.offers@.len(), layout),
    ensures
        model.ready(outline, layout),
{
    let after = before.offering(text::texts(plan.offers@)).needing(
        text::texts(plan.needs@) + unit.keys(),
    );
    let first = before.evaluation.links.bindings.len() as int;
    let parameters = first + plan.offers@.len();
    let offered = parameters + plan.needs@.len();
    let needed = offered + unit.offers@.len();
    assert(text::texts(plan.offers@).len() == plan.offers@.len());
    assert(text::texts(plan.needs@).len() == plan.needs@.len());
    assert(text::texts(unit.offers@).len() == unit.offers@.len());
    assert(text::texts(unit.needs@).len() == unit.needs@.len());
    numbered_proxies_work(model@.results, first, plan.offers@.len(), after, layout);
    numbered_proxies_work(model@.parameters, parameters, plan.needs@.len(), after, layout);
    numbered_proxies_work(model@.unit.offered@, offered, unit.offers@.len(), after, layout);
    numbered_proxies_work(model@.unit.needed@, needed, unit.needs@.len(), after, layout);
}

/// A declared model sets the signals that it may set and nothing else.
pub proof fn a_declared_model_sets_what_it_may<
    F: Fn(&Signals, EvaluationState) -> EvaluationState,
>(
    model: DeclaredModel<F>,
    outline: Outline,
    current: CurrentView,
    before: EvaluationView,
    after: EvaluationView,
)
    requires
        model.ready(outline, before.layout()),
        model.evaluates(current, before, after),
    ensures
        model@.signals.only_set(before, after),
{
}

/// Whether the actuator stands in the registry under the key, with its command and its state at
/// `initial`, and works there.
pub open spec fn actuator_works<F: Fn(u64, u64) -> u64, S, A, C>(
    actuator: Actuator<F>,
    item: A,
    key: Seq<char>,
    initial: u64,
    registry: RegistryView<S, A, C>,
) -> bool {
    &&& registry.actuators.found(key) == Some(item)
    &&& actuator::Actuator::writable(&actuator, registry.evaluation.layout())
    &&& registry.evaluation.layout().resolved(actuator@.state)
    &&& registry.evaluation.layout().resolved(actuator@.derivative)
    &&& registry.evaluation.layout().position(actuator@.state)
        != registry.evaluation.layout().position(actuator@.derivative)
    &&& registry.evaluation.command(actuator@.command) == initial
    &&& registry.evaluation.get(actuator@.state) == initial
    &&& registry.evaluation.get(actuator@.derivative) == 0
    &&& DynamicModel::integrable(&actuator) == seq![key]
    &&& actuator::model::keeps_its_commands(actuator)
    &&& actuator::model::publishes_its_rate(actuator)
}

/// A declared actuator, once built, is one actuator seen from two sides. It is found in the catalog
/// under its key, where a command changes its command and nothing else. It is a model of which the
/// key is integrated, whose evaluation publishes the rate of change that the declared law gives for
/// the command and the state, in a slot other than that of the state. Command and state both start at
/// the configured value.
pub proof fn a_declared_actuator_is_commanded_and_integrated<
    S,
    A,
    C,
    M,
    F: Fn(u64, u64) -> u64 + Copy,
    G: Fn(Actuator<F>) -> (A, A) + Copy,
    H: Fn(A) -> M,
>(
    component: ActuatorComponent<F, G, H>,
    before: RegistryView<S, A, C>,
    config: CatalogView<u64>,
    presented: M,
    after: RegistryView<S, A, C>,
)
    requires
        before.wf(),
        after.wf(),
        Construct::builds(&component, before, config, Some(presented), after),
    ensures
        exists|actuator: Actuator<F>, item: A, shared: A|
            {
                &&& #[trigger] call_ensures(component.share, (actuator,), (item, shared))
                &&& call_ensures(component.present, (shared,), presented)
                &&& actuator@.dynamics == component.dynamics
                &&& actuator_works(
                    actuator,
                    item,
                    component.plan.args.key@,
                    component.start(config),
                    after,
                )
            },
{
    let key = component.plan.args.key@;
    let initial = component.start(config);
    let (actuator, item, shared) = choose|actuator: Actuator<F>, item: A, shared: A|
        {
            &&& #[trigger] actuator::model::actuator_registered(
                before,
                key,
                initial,
                component.dynamics,
                actuator,
                item,
                after,
            )
            &&& #[trigger] call_ensures(component.share, (actuator,), (item, shared))
            &&& call_ensures(component.present, (shared,), presented)
        };
    actuator::model::an_actuator_keeps_to_its_slots(actuator);
    text::last_position_is_last(after.actuators.names, key);
    assert(after.actuators.names.last() == key);
    let first = before.evaluation.links.bindings.len() as int;
    assert(after.evaluation.links.bindings[first] == Some(before.keys.len() as usize));
    assert(after.evaluation.links.bindings[first + 1] == Some((before.keys.len() + 1) as usize));
    assert(actuator_works(actuator, item, key, initial, after));
}

} // verus!
