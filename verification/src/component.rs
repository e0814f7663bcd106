//! Components that announce themselves to a simulation.
//!
//! A component is announced by a descriptor. Attaching builds every announced component once: the
//! sensors first, which are only catalogued, and then the three phases of the evaluation in their
//! order.
use crate::catalog::CatalogView;
use crate::dynamic_model::{Composite, CompositeDynamicModel, DynamicModel};
use crate::order;
use crate::order::OrderError;
use crate::snapshot::Snapshot;
use crate::state_registry::{RegistryView, StateRegistry};
use crate::text;
use vstd::multiset::Multiset;
use vstd::prelude::*;

verus! {

/// The phase of a component. Every round evaluates all `Dynamic` components, then all `Actuator`
/// components, then all `Controller` components. A `Sensor` is catalogued and never evaluated.
#[derive(Clone, Copy, Debug, PartialEq, Eq, Structural)]
pub enum ComponentKind {
    Dynamic,
    Actuator,
    Controller,
    Sensor,
}

/// What a component declares about itself.
pub struct ComponentDescriptor<F> {
    /// The name by which `after` refers to the component.
    pub name: String,
    pub kind: ComponentKind,
    /// Names of components of the same phase that come first.
    pub after: Vec<String>,
    /// Keys that another component of the same phase publishes, if any does.
    pub needs: Vec<String>,
    /// Keys that the component publishes.
    pub offers: Vec<String>,
    /// How to build the component.
    pub construct: F,
}

/// The name of a unit as text.
pub open spec fn shown_unit(unit: Option<&str>) -> Option<Seq<char>> {
    match unit {
        Some(name) => Some(name@),
        None => None,
    }
}

/// How a component is built. Building subscribes it and puts it into its catalog; a component that
/// is evaluated gives its model.
pub trait Construct<S, A, C, M> {
    /// Whether the component can be built at all.
    spec fn constructible(&self) -> bool;

    /// The name of the unit to which the component belongs, if it belongs to one. It can be built
    /// only where the unit is built before it.
    spec fn unit_name(&self) -> Option<Seq<char>>;

    fn unit(&self) -> (unit: Option<&str>)
        ensures
            shown_unit(unit) == self.unit_name(),
    ;

    /// Whether building may lead from `before` to `after` and give `built`.
    spec fn builds(
        &self,
        before: RegistryView<S, A, C>,
        config: CatalogView<u64>,
        built: Option<M>,
        after: RegistryView<S, A, C>,
    ) -> bool;

    fn construct(&self, registry: &mut StateRegistry<S, A, C>, config: &Snapshot) -> (built: Option<
        M,
    >)
        requires
            self.constructible(),
            old(registry)@.wf(),
        ensures
            final(registry)@.wf(),
            final(registry)@.extends(old(registry)@),
            self.builds(old(registry)@, config@, built, final(registry)@),
    ;
}

/// A boxed component is built as the component in the box.
impl<S, A, C, M, T: Construct<S, A, C, M> + ?Sized> Construct<S, A, C, M> for Box<T> {
    open spec fn constructible(&self) -> bool {
        (**self).constructible()
    }

    open spec fn unit_name(&self) -> Option<Seq<char>> {
        (**self).unit_name()
    }

    fn unit(&self) -> (unit: Option<&str>) {
        (**self).unit()
    }

    open spec fn builds(
        &self,
        before: RegistryView<S, A, C>,
        config: CatalogView<u64>,
        built: Option<M>,
        after: RegistryView<S, A, C>,
    ) -> bool {
        (**self).builds(before, config, built, after)
    }

    fn construct(&self, registry: &mut StateRegistry<S, A, C>, config: &Snapshot) -> (built: Option<
        M,
    >) {
        (**self).construct(registry, config)
    }
}

/// A component that a function builds. The function gets the registry and the initial values, and
/// gives the registry back with the model, if there is one.
pub struct Factory<F> {
    pub build: F,
}

impl<
    S,
    A,
    C,
    M,
    F: Fn(StateRegistry<S, A, C>, &Snapshot) -> (StateRegistry<S, A, C>, Option<M>),
> Construct<S, A, C, M> for Factory<F> {
    /// The function takes every registry that is well-formed, and leaves one that only grew.
    open spec fn constructible(&self) -> bool {
        &&& forall|registry: StateRegistry<S, A, C>, config: Snapshot|
            registry@.wf() ==> #[trigger] call_requires(self.build, (registry, &config))
        &&& forall|
            registry: StateRegistry<S, A, C>,
            config: Snapshot,
            outcome: (StateRegistry<S, A, C>, Option<M>),
        |
            #[trigger] call_ensures(self.build, (registry, &config), outcome) && registry@.wf()
                ==> outcome.0@.wf() && outcome.0@.extends(registry@)
    }

    open spec fn unit_name(&self) -> Option<Seq<char>> {
        None
    }

    fn unit(&self) -> (unit: Option<&str>) {
        None
    }

    open spec fn builds(
        &self,
        before: RegistryView<S, A, C>,
        config: CatalogView<u64>,
        built: Option<M>,
        after: RegistryView<S, A, C>,
    ) -> bool {
        exists|
            registry: StateRegistry<S, A, C>,
            values: Snapshot,
            outcome: (StateRegistry<S, A, C>, Option<M>),
        |
            {
                &&& #[trigger] call_ensures(self.build, (registry, &values), outcome)
                &&& registry@ == before
                &&& values@ == config
                &&& outcome.0@ == after
                &&& outcome.1 == built
            }
    }

    fn construct(&self, registry: &mut StateRegistry<S, A, C>, config: &Snapshot) -> (built: Option<
        M,
    >) {
        let mut taken: StateRegistry<S, A, C> = StateRegistry::new();
        std::mem::swap(registry, &mut taken);
        let ghost given = taken;
        assert(call_requires(self.build, (taken, config)));
        let (left, built) = (self.build)(taken, config);
        assert(call_ensures(self.build, (given, config), (left, built)));
        *registry = left;
        built
    }
}

/// A component that belongs to a unit, and is built as the component inside.
pub struct OfUnit<T> {
    pub unit: String,
    pub component: T,
}

impl<S, A, C, M, T: Construct<S, A, C, M>> Construct<S, A, C, M> for OfUnit<T> {
    open spec fn constructible(&self) -> bool {
        self.component.constructible()
    }

    open spec fn unit_name(&self) -> Option<Seq<char>> {
        Some(self.unit@)
    }

    fn unit(&self) -> (unit: Option<&str>) {
        Some(self.unit.as_str())
    }

    open spec fn builds(
        &self,
        before: RegistryView<S, A, C>,
        config: CatalogView<u64>,
        built: Option<M>,
        after: RegistryView<S, A, C>,
    ) -> bool {
        self.component.builds(before, config, built, after)
    }

    fn construct(&self, registry: &mut StateRegistry<S, A, C>, config: &Snapshot) -> (built: Option<
        M,
    >) {
        self.component.construct(registry, config)
    }
}

/// Whether each component can be built.
pub open spec fn all_constructible<S, A, C, M, F: Construct<S, A, C, M>>(
    list: Seq<ComponentDescriptor<F>>,
) -> bool {
    forall|i: int| 0 <= i < list.len() ==> (#[trigger] list[i]).construct.constructible()
}

/// The components of one kind, in the order in which they were announced.
pub open spec fn of_kind<F>(
    all: Seq<ComponentDescriptor<F>>,
    kind: ComponentKind,
) -> Seq<ComponentDescriptor<F>>
    decreases all.len(),
{
    if all.len() == 0 {
        Seq::empty()
    } else if all.last().kind == kind {
        of_kind(all.drop_last(), kind).push(all.last())
    } else {
        of_kind(all.drop_last(), kind)
    }
}

/// The evaluated components in the order of their phases.
pub open spec fn evaluation_order<F>(all: Seq<ComponentDescriptor<F>>) -> Seq<
    ComponentDescriptor<F>,
> {
    order::arrangement(of_kind(all, ComponentKind::Dynamic)).0 + of_kind(
        all,
        ComponentKind::Actuator,
    ) + of_kind(all, ComponentKind::Controller)
}

/// Whether building the first `n` components one after the other may lead from `before` to `after`
/// and give `built`.
pub open spec fn built_in_order<S, A, C, M, F: Construct<S, A, C, M>>(
    list: Seq<ComponentDescriptor<F>>,
    n: nat,
    config: CatalogView<u64>,
    before: RegistryView<S, A, C>,
    built: Seq<Option<M>>,
    after: RegistryView<S, A, C>,
) -> bool
    decreases n,
{
    &&& built.len() == n
    &&& if n == 0 {
        before == after
    } else {
        exists|between: RegistryView<S, A, C>|
            built_in_order(list, (n - 1) as nat, config, before, built.drop_last(), between)
                && #[trigger] list[n - 1].construct.builds(between, config, built.last(), after)
    }
}

/// The models among what was built, in order.
pub open spec fn models_built<M>(built: Seq<Option<M>>) -> Seq<M>
    decreases built.len(),
{
    if built.len() == 0 {
        Seq::empty()
    } else {
        match built.last() {
            Some(model) => models_built(built.drop_last()).push(model),
            None => models_built(built.drop_last()),
        }
    }
}

/// Whether attaching all components may lead from `before` to `after` and give `models`.
pub open spec fn attached<S, A, C, M, F: Construct<S, A, C, M>>(
    all: Seq<ComponentDescriptor<F>>,
    config: CatalogView<u64>,
    before: RegistryView<S, A, C>,
    models: Seq<M>,
    after: RegistryView<S, A, C>,
) -> bool {
    let sensors = of_kind(all, ComponentKind::Sensor);
    let evaluated = evaluation_order(all);
    exists|
        between: RegistryView<S, A, C>,
        catalogued: Seq<Option<M>>,
        built: Seq<Option<M>>,
    |
        {
            &&& #[trigger] built_in_order(
                sensors,
                sensors.len(),
                config,
                before,
                catalogued,
                between,
            )
            &&& #[trigger] built_in_order(
                evaluated,
                evaluated.len(),
                config,
                between,
                built,
                after,
            )
            &&& models == models_built(built)
        }
}

/// Whether the component belongs to a unit that is not among these components.
pub open spec fn is_orphan<S, A, C, M, F: Construct<S, A, C, M>>(
    list: Seq<ComponentDescriptor<F>>,
    component: ComponentDescriptor<F>,
) -> bool {
    component.construct.unit_name() matches Some(unit) && !order::carries_name(list, unit)
}

/// Whether every component has its unit among these components.
pub open spec fn have_their_units<S, A, C, M, F: Construct<S, A, C, M>>(
    list: Seq<ComponentDescriptor<F>>,
) -> bool {
    forall|i: int|
        0 <= i < list.len() ==> !is_orphan::<S, A, C, M, F>(list, #[trigger] list[i])
}

/// Whether the error names the missing unit of the first component without one.
pub open spec fn orphan_reported<S, A, C, M, F: Construct<S, A, C, M>>(
    list: Seq<ComponentDescriptor<F>>,
    error: OrderError,
) -> bool {
    error matches OrderError::MissingUnit { unit } && exists|i: int|
        {
            &&& 0 <= i < list.len()
            &&& is_orphan::<S, A, C, M, F>(list, #[trigger] list[i])
            &&& list[i].construct.unit_name() == Some(unit@)
            &&& forall|j: int|
                0 <= j < i ==> !is_orphan::<S, A, C, M, F>(list, #[trigger] list[j])
        }
}

/// Whether the components can be attached: their first phase has an order, and each component in it
/// has its unit.
pub open spec fn attachable<S, A, C, M, F: Construct<S, A, C, M>>(
    all: Seq<ComponentDescriptor<F>>,
) -> bool {
    let first_phase = of_kind(all, ComponentKind::Dynamic);
    &&& order::first_repeat(order::offered_keys(first_phase)) is None
    &&& order::arrangement(first_phase).1.len() == 0
    &&& have_their_units::<S, A, C, M, F>(order::arrangement(first_phase).0)
}

/// Whether the error says why the components cannot be attached: their first phase has no order, or,
/// where it has one, the first component in that order without its unit.
pub open spec fn not_attached<S, A, C, M, F: Construct<S, A, C, M>>(
    all: Seq<ComponentDescriptor<F>>,
    error: OrderError,
) -> bool {
    let first_phase = of_kind(all, ComponentKind::Dynamic);
    match error {
        OrderError::MissingUnit { .. } => {
            &&& order::first_repeat(order::offered_keys(first_phase)) is None
            &&& order::arrangement(first_phase).1.len() == 0
            &&& orphan_reported::<S, A, C, M, F>(order::arrangement(first_phase).0, error)
        },
        _ => order::refused(first_phase, error),
    }
}

/// The first component without its unit makes an error.
fn require_units<S, A, C, M, F: Construct<S, A, C, M>>(list: &Vec<ComponentDescriptor<F>>) -> (outcome:
    Result<(), OrderError>)
    ensures
        match outcome {
            Ok(_) => have_their_units::<S, A, C, M, F>(list@),
            Err(error) => error is MissingUnit && orphan_reported::<S, A, C, M, F>(list@, error),
        },
{
    let mut i: usize = 0;
    while i < list.len()
        invariant
            i <= list@.len(),
            forall|k: int|
                0 <= k < i ==> !is_orphan::<S, A, C, M, F>(list@, #[trigger] list@[k]),
        decreases list@.len() - i,
    {
        match list[i].construct.unit() {
            Some(name) => {
                let unit: String = name.to_owned();
                if !order::has_name(list, &unit) {
                    let error = OrderError::MissingUnit { unit };
                    assert(is_orphan::<S, A, C, M, F>(list@, list@[i as int]));
                    return Err(error);
                }
            },
            None => {},
        }
        i = i + 1;
    }
    Ok(())
}

/// Builds the components one after the other, and adds the models that come out to `root`.
fn build_all<S, A, C, M: DynamicModel, F: Construct<S, A, C, M>>(
    list: &Vec<ComponentDescriptor<F>>,
    root: &mut Composite<M>,
    registry: &mut StateRegistry<S, A, C>,
    config: &Snapshot,
) -> (built: Ghost<Seq<Option<M>>>)
    requires
        all_constructible::<S, A, C, M, F>(list@),
        old(registry)@.wf(),
    ensures
        final(registry)@.wf(),
        final(registry)@.extends(old(registry)@),
        built_in_order(list@, list@.len(), config@, old(registry)@, built@, final(registry)@),
        final(root).parts() == old(root).parts() + models_built(built@),
        final(root).title() == old(root).title(),
{
    let ghost start = registry@;
    let ghost children = root.parts();
    let ghost mut built: Seq<Option<M>> = Seq::empty();
    let mut i: usize = 0;
    assert(children + models_built(built) =~= children);
    while i < list.len()
        invariant
            i <= list@.len(),
            all_constructible::<S, A, C, M, F>(list@),
            registry@.wf(),
            registry@.extends(start),
            built_in_order(list@, i as nat, config@, start, built, registry@),
            root.parts() == children + models_built(built),
            root.title() == old(root).title(),
        decreases list@.len() - i,
    {
        let ghost between = registry@;
        let outcome: Option<M> = list[i].construct.construct(registry, config);
        let ghost more = built.push(outcome);
        proof {
            assert(more.drop_last() =~= built);
            assert(list@[i as nat + 1 - 1].construct.builds(
                between,
                config@,
                more.last(),
                registry@,
            ));
            assert(built_in_order(list@, (i + 1) as nat, config@, start, more, registry@));
        }
        match outcome {
            Some(model) => {
                root.add_dynamic(model);
            },
            None => {},
        }
        proof {
            assert(root.parts() =~= children + models_built(more));
            built = more;
        }
        i = i + 1;
    }
    Ghost(built)
}

/// Builds the components one after the other, for the sake of their catalog entries alone.
fn catalogue_all<S, A, C, M: DynamicModel, F: Construct<S, A, C, M>>(
    list: &Vec<ComponentDescriptor<F>>,
    registry: &mut StateRegistry<S, A, C>,
    config: &Snapshot,
) -> (built: Ghost<Seq<Option<M>>>)
    requires
        all_constructible::<S, A, C, M, F>(list@),
        old(registry)@.wf(),
    ensures
        final(registry)@.wf(),
        final(registry)@.extends(old(registry)@),
        built_in_order(list@, list@.len(), config@, old(registry)@, built@, final(registry)@),
{
    let ghost start = registry@;
    let ghost mut built: Seq<Option<M>> = Seq::empty();
    let mut i: usize = 0;
    while i < list.len()
        invariant
            i <= list@.len(),
            all_constructible::<S, A, C, M, F>(list@),
            registry@.wf(),
            registry@.extends(start),
            built_in_order(list@, i as nat, config@, start, built, registry@),
        decreases list@.len() - i,
    {
        let ghost between = registry@;
        let outcome: Option<M> = list[i].construct.construct(registry, config);
        proof {
            let more = built.push(outcome);
            assert(more.drop_last() =~= built);
            assert(list@[i as nat + 1 - 1].construct.builds(
                between,
                config@,
                more.last(),
                registry@,
            ));
            assert(built_in_order(list@, (i + 1) as nat, config@, start, more, registry@));
            built = more;
        }
        i = i + 1;
    }
    Ghost(built)
}

/// Builds every announced component. Sensors are built first and only catalogued; of the others,
/// each one that gives a model is added to `root`. Where the first phase has no order, or a component
/// in it lacks its unit, nothing is built.
pub fn attach_discovered_components<S, A, C, M: DynamicModel, F: Construct<S, A, C, M>>(
    discovered: Vec<ComponentDescriptor<F>>,
    root: &mut Composite<M>,
    registry: &mut StateRegistry<S, A, C>,
    config: &Snapshot,
) -> (outcome: Result<(), OrderError>)
    requires
        all_constructible::<S, A, C, M, F>(discovered@),
        old(registry)@.wf(),
    ensures
        final(registry)@.wf(),
        final(registry)@.extends(old(registry)@),
        final(root).title() == old(root).title(),
        match outcome {
            Ok(_) => {
                &&& attachable::<S, A, C, M, F>(discovered@)
                &&& exists|models: Seq<M>| #[trigger]
                    attached(discovered@, config@, old(registry)@, models, final(registry)@)
                        && final(root).parts() == old(root).parts() + models
            },
            Err(error) => {
                &&& not_attached::<S, A, C, M, F>(discovered@, error)
                &&& final(registry)@ == old(registry)@
                &&& final(root).parts() == old(root).parts()
            },
        },
{
    let ghost all = discovered@;
    let mut rest: Vec<ComponentDescriptor<F>> = discovered;
    let mut phase_a: Vec<ComponentDescriptor<F>> = Vec::new();
    let mut phase_b: Vec<ComponentDescriptor<F>> = Vec::new();
    let mut phase_c: Vec<ComponentDescriptor<F>> = Vec::new();
    let mut sensors: Vec<ComponentDescriptor<F>> = Vec::new();
    let ghost mut seen: Seq<ComponentDescriptor<F>> = Seq::empty();
    assert(seen + rest@ =~= all);
    while rest.len() > 0
        invariant
            seen + rest@ == all,
            phase_a@ == of_kind(seen, ComponentKind::Dynamic),
            phase_b@ == of_kind(seen, ComponentKind::Actuator),
            phase_c@ == of_kind(seen, ComponentKind::Controller),
            sensors@ == of_kind(seen, ComponentKind::Sensor),
        decreases rest@.len(),
    {
        let ghost before = rest@;
        let next = rest.remove(0);
        proof {
            let more = seen.push(next);
            assert(more.drop_last() =~= seen);
            assert(more + rest@ =~= seen + before);
            seen = more;
        }
        match next.kind {
            ComponentKind::Dynamic => {
                phase_a.push(next);
            },
            ComponentKind::Actuator => {
                phase_b.push(next);
            },
            ComponentKind::Controller => {
                phase_c.push(next);
            },
            ComponentKind::Sensor => {
                sensors.push(next);
            },
        }
    }
    assert(seen =~= all);
    let mut evaluated: Vec<ComponentDescriptor<F>> = match order::sort_phase_a(phase_a) {
        Ok(sorted) => sorted,
        Err(error) => {
            return Err(error);
        },
    };
    match require_units::<S, A, C, M, F>(&evaluated) {
        Ok(_) => {},
        Err(error) => {
            return Err(error);
        },
    }
    evaluated.append(&mut phase_b);
    evaluated.append(&mut phase_c);
    proof {
        assert(evaluated@ =~= evaluation_order(all));
        phases_are_constructible::<S, A, C, M, F>(all);
    }
    let ghost start = registry@;
    let catalogued: Ghost<Seq<Option<M>>> = catalogue_all(&sensors, registry, config);
    let ghost between = registry@;
    let built: Ghost<Seq<Option<M>>> = build_all(&evaluated, root, registry, config);
    proof {
        assert(built_in_order(
            sensors@,
            sensors@.len(),
            config@,
            start,
            catalogued@,
            between,
        ));
        assert(attached(all, config@, start, models_built(built@), registry@));
    }
    Ok(())
}

/// The place of a kind in a round.
pub open spec fn phase(kind: ComponentKind) -> int {
    match kind {
        ComponentKind::Dynamic => 0,
        ComponentKind::Actuator => 1,
        ComponentKind::Controller => 2,
        ComponentKind::Sensor => 3,
    }
}

proof fn of_kind_is_of_the_kind<F>(all: Seq<ComponentDescriptor<F>>, kind: ComponentKind)
    ensures
        forall|i: int|
            0 <= i < of_kind(all, kind).len() ==> (#[trigger] of_kind(all, kind)[i]).kind == kind,
    decreases all.len(),
{
    if all.len() > 0 {
        of_kind_is_of_the_kind(all.drop_last(), kind);
    }
}

proof fn of_kind_is_a_part<F>(all: Seq<ComponentDescriptor<F>>, kind: ComponentKind)
    ensures
        forall|i: int|
            0 <= i < of_kind(all, kind).len() ==> all.contains(#[trigger] of_kind(all, kind)[i]),
    decreases all.len(),
{
    if all.len() > 0 {
        let shorter = all.drop_last();
        of_kind_is_a_part(shorter, kind);
        let part = of_kind(all, kind);
        assert forall|i: int| 0 <= i < part.len() implies all.contains(#[trigger] part[i]) by {
            if i < of_kind(shorter, kind).len() {
                assert(shorter.contains(of_kind(shorter, kind)[i]));
                let k = choose|k: int|
                    0 <= k < shorter.len() && shorter[k] == of_kind(shorter, kind)[i];
                assert(all[k] == part[i]);
            } else {
                assert(all[all.len() - 1] == part[i]);
            }
        }
    }
}

proof fn phases_are_constructible<S, A, C, M, F: Construct<S, A, C, M>>(
    all: Seq<ComponentDescriptor<F>>,
)
    requires
        all_constructible::<S, A, C, M, F>(all),
        order::arrangement(of_kind(all, ComponentKind::Dynamic)).1.len() == 0,
    ensures
        all_constructible::<S, A, C, M, F>(of_kind(all, ComponentKind::Sensor)),
        all_constructible::<S, A, C, M, F>(evaluation_order(all)),
{
    let dynamic = of_kind(all, ComponentKind::Dynamic);
    let sorted = order::arrangement(dynamic).0;
    of_kind_is_a_part(all, ComponentKind::Sensor);
    of_kind_is_a_part(all, ComponentKind::Dynamic);
    of_kind_is_a_part(all, ComponentKind::Actuator);
    of_kind_is_a_part(all, ComponentKind::Controller);
    order::dependencies_come_first(dynamic);
    assert forall|i: int| 0 <= i < sorted.len() implies all.contains(#[trigger] sorted[i]) by {
        assert(sorted.contains(sorted[i]));
        vstd::seq_lib::to_multiset_contains(sorted, sorted[i]);
        vstd::seq_lib::to_multiset_contains(dynamic, sorted[i]);
    }
    let evaluated = evaluation_order(all);
    let actuators = of_kind(all, ComponentKind::Actuator);
    assert forall|i: int| 0 <= i < evaluated.len() implies (
    #[trigger] evaluated[i]).construct.constructible() by {
        assert(all.contains(evaluated[i])) by {
            if i < sorted.len() {
                assert(evaluated[i] == sorted[i]);
            } else if i < sorted.len() + actuators.len() {
                assert(evaluated[i] == actuators[i - sorted.len()]);
            } else {
                assert(evaluated[i] == of_kind(all, ComponentKind::Controller)[i - sorted.len()
                    - actuators.len()]);
            }
        }
    }
}

/// A round never evaluates an actuator before a dynamic component, nor a controller before an
/// actuator, and never evaluates a sensor.
pub proof fn phases_follow_each_other<F>(all: Seq<ComponentDescriptor<F>>)
    requires
        order::arrangement(of_kind(all, ComponentKind::Dynamic)).1.len() == 0,
    ensures
        forall|i: int, j: int|
            0 <= i < j < evaluation_order(all).len() ==> phase(
                (#[trigger] evaluation_order(all)[i]).kind,
            ) <= phase((#[trigger] evaluation_order(all)[j]).kind),
        forall|i: int|
            0 <= i < evaluation_order(all).len() ==> (#[trigger] evaluation_order(all)[i]).kind
                != ComponentKind::Sensor,
{
    let dynamic = of_kind(all, ComponentKind::Dynamic);
    let sorted = order::arrangement(dynamic).0;
    of_kind_is_of_the_kind(all, ComponentKind::Dynamic);
    of_kind_is_of_the_kind(all, ComponentKind::Actuator);
    of_kind_is_of_the_kind(all, ComponentKind::Controller);
    order::dependencies_come_first(dynamic);
    assert forall|i: int| 0 <= i < sorted.len() implies (#[trigger] sorted[i]).kind
        == ComponentKind::Dynamic by {
        assert(sorted.contains(sorted[i]));
        vstd::seq_lib::to_multiset_contains(sorted, sorted[i]);
        vstd::seq_lib::to_multiset_contains(dynamic, sorted[i]);
        assert(dynamic.contains(sorted[i]));
    }
}

proof fn kinds_make_up_all<F>(all: Seq<ComponentDescriptor<F>>)
    ensures
        of_kind(all, ComponentKind::Dynamic).to_multiset().add(
            of_kind(all, ComponentKind::Actuator).to_multiset(),
        ).add(of_kind(all, ComponentKind::Controller).to_multiset()).add(
            of_kind(all, ComponentKind::Sensor).to_multiset(),
        ) == all.to_multiset(),
    decreases all.len(),
{
    broadcast use vstd::seq_lib::group_to_multiset_ensures;

    if all.len() == 0 {
        assert(all.to_multiset() =~= Multiset::empty());
    } else {
        let shorter = all.drop_last();
        kinds_make_up_all(shorter);
        assert(all =~= shorter.push(all.last()));
    }
    assert(of_kind(all, ComponentKind::Dynamic).to_multiset().add(
        of_kind(all, ComponentKind::Actuator).to_multiset(),
    ).add(of_kind(all, ComponentKind::Controller).to_multiset()).add(
        of_kind(all, ComponentKind::Sensor).to_multiset(),
    ) =~= all.to_multiset());
}

/// Every announced component is built exactly once, as a sensor or in the order of evaluation, and
/// nothing else is built.
pub proof fn every_component_is_built_once<F>(all: Seq<ComponentDescriptor<F>>)
    requires
        order::arrangement(of_kind(all, ComponentKind::Dynamic)).1.len() == 0,
    ensures
        (of_kind(all, ComponentKind::Sensor) + evaluation_order(all)).to_multiset()
            == all.to_multiset(),
{
    let sensors = of_kind(all, ComponentKind::Sensor);
    let dynamic = of_kind(all, ComponentKind::Dynamic);
    let actuators = of_kind(all, ComponentKind::Actuator);
    let controllers = of_kind(all, ComponentKind::Controller);
    let sorted = order::arrangement(dynamic).0;
    kinds_make_up_all(all);
    order::dependencies_come_first(dynamic);
    vstd::seq_lib::lemma_multiset_commutative(sensors, evaluation_order(all));
    vstd::seq_lib::lemma_multiset_commutative(sorted + actuators, controllers);
    vstd::seq_lib::lemma_multiset_commutative(sorted, actuators);
    assert((sensors + evaluation_order(all)).to_multiset() =~= all.to_multiset());
}

/// A component that names its unit in `after` is built behind it.
pub proof fn a_component_is_built_behind_its_unit<S, A, C, M, F: Construct<S, A, C, M>>(
    all: Seq<ComponentDescriptor<F>>,
    j: int,
)
    requires
        attachable::<S, A, C, M, F>(all),
        0 <= j < order::arrangement(of_kind(all, ComponentKind::Dynamic)).0.len(),
        ({
            let component = order::arrangement(of_kind(all, ComponentKind::Dynamic)).0[j];
            component.construct.unit_name() matches Some(unit) && text::texts(
                component.after@,
            ).contains(unit)
        }),
    ensures
        ({
            let sorted = order::arrangement(of_kind(all, ComponentKind::Dynamic)).0;
            order::carries_name(sorted.take(j), sorted[j].construct.unit_name()->0)
        }),
        order::arrangement(of_kind(all, ComponentKind::Dynamic)).0.is_prefix_of(
            evaluation_order(all),
        ),
{
    let dynamic = of_kind(all, ComponentKind::Dynamic);
    let sorted = order::arrangement(dynamic).0;
    let unit = sorted[j].construct.unit_name()->0;
    order::dependencies_come_first(dynamic);
    assert(!is_orphan::<S, A, C, M, F>(sorted, sorted[j]));
    assert(order::depends_on(
        sorted[j],
        order::offered_keys(dynamic),
        order::offered_by(dynamic),
        unit,
    ));
    assert(evaluation_order(all).subrange(0, sorted.len() as int) =~= sorted);
}

} // verus!
