//! A running plant: a registry, a model, and what is integrated.
//!
//! One tick applies the commands that have arrived, looks at the control, and then, unless the plant
//! is stopped or paused, advances the physics by one step and confirms the result. The length of a
//! step is fixed; how fast the plant runs against the clock on the wall has no part in it.
use crate::actuator::Actuator;
use crate::arithmetic::{Arithmetic, Operations};
use crate::catalog::CatalogView;
use crate::dynamic_model::DynamicModel;
use crate::numerical_method::integrator::{Dynamics, Integrator};
use crate::numerical_method::rk4;
use crate::numerical_method::rk4::RK4;
use crate::numerical_method::NumericalMethod;
use crate::runtime_control::{ControlView, RuntimeControl};
use crate::sensor::model::{Ideal, Sensor};
use crate::state_registry::{
    CurrentState, CurrentView, EvaluationView, Outline, Proxy, ReadProxy, RegistryView,
    StateRegistry,
};
use crate::{actuator, double, links, resolution, sensor, state_registry, text};
use vstd::prelude::*;

verus! {

/// A plant. `states` and `derivatives` are the integrated slots and their rates of change, pairwise.
pub struct Plant<S, A, C, M> {
    pub registry: StateRegistry<S, A, C>,
    pub model: M,
    pub states: Vec<Proxy>,
    pub derivatives: Vec<Proxy>,
}

/// The keys that an integration needs: each state followed by its derivative.
pub open spec fn integration_needs(keys: Seq<Seq<char>>) -> Seq<Seq<char>> {
    Seq::new(
        2 * keys.len(),
        |i: int|
            if i % 2 == 0 {
                keys[i / 2]
            } else {
                actuator::model::derivative_key(keys[i / 2])
            },
    )
}

fn list_integration_needs(keys: &Vec<String>) -> (needs: Vec<String>)
    ensures
        text::texts(needs@) == integration_needs(text::texts(keys@)),
{
    let ghost wanted = integration_needs(text::texts(keys@));
    let mut needs: Vec<String> = Vec::new();
    let mut i: usize = 0;
    while i < keys.len()
        invariant
            i <= keys@.len(),
            wanted == integration_needs(text::texts(keys@)),
            needs@.len() == 2 * i,
            forall|k: int| 0 <= k < 2 * i ==> (#[trigger] needs@[k])@ == wanted[k],
        decreases keys@.len() - i,
    {
        needs.push(keys[i].clone());
        needs.push(text::joined(keys[i].as_str(), ".derivative"));
        assert forall|k: int| 0 <= k < 2 * (i + 1) implies (#[trigger] needs@[k])@ == wanted[k] by {
            if k == 2 * i {
                assert(k / 2 == i);
            }
            if k == 2 * i + 1 {
                assert(k / 2 == i);
            }
        }
        i = i + 1;
    }
    assert(text::texts(needs@) =~= wanted);
    needs
}

/// What the outside may hold of a plant: its sensors, and a mirror of each actuator, under their
/// names.
pub struct PlantBinding<S> {
    pub sensors: Vec<(String, S)>,
    pub actuators: Vec<(String, S)>,
}

/// Whether reading every sensor of a list once may give `readings` and leave `after` behind.
pub open spec fn all_read<S: sensor::Sensor>(
    before: Seq<(String, S)>,
    current: CurrentView,
    readings: Seq<(String, u64)>,
    after: Seq<(String, S)>,
) -> bool {
    &&& readings.len() == before.len()
    &&& after.len() == before.len()
    &&& forall|i: int|
        0 <= i < readings.len() ==> (#[trigger] readings[i]).0@ == before[i].0@ && after[i].0
            == before[i].0 && S::reads(before[i].1, current, readings[i].1, after[i].1)
}

/// Whether every sensor of a list can be read on a confirmed state with this outline.
pub open spec fn all_readable<S: sensor::Sensor>(list: Seq<(String, S)>, outline: Outline) -> bool {
    forall|i: int| 0 <= i < list.len() ==> (#[trigger] list[i]).1.readable(outline)
}

fn read_all<S: sensor::Sensor>(list: &mut Vec<(String, S)>, current: &CurrentState) -> (readings: Vec<
    (String, u64),
>)
    requires
        all_readable(old(list)@, current@.outline()),
    ensures
        all_read(old(list)@, current@, readings@, final(list)@),
        all_readable(final(list)@, current@.outline()),
{
    let ghost start = list@;
    let mut readings: Vec<(String, u64)> = Vec::new();
    let mut i: usize = 0;
    while i < list.len()
        invariant
            i <= list@.len() == start.len(),
            all_readable(list@, current@.outline()),
            readings@.len() == i,
            forall|k: int| i <= k < start.len() ==> #[trigger] list@[k] == start[k],
            forall|k: int|
                0 <= k < i ==> (#[trigger] readings@[k]).0@ == start[k].0@ && list@[k].0
                    == start[k].0 && S::reads(start[k].1, current@, readings@[k].1, list@[k].1),
        decreases list@.len() - i,
    {
        let ghost so_far = readings@;
        let ghost before = list@;
        let name: String = list[i].0.clone();
        assert(list@[i as int] == start[i as int]);
        let value: u64 = list[i].1.read(current);
        readings.push((name, value));
        proof {
            assert forall|k: int| 0 <= k < list@.len() implies (#[trigger] list@[k]).1.readable(
                current@.outline(),
            ) by {
                if k != i {
                    assert(list@[k] == before[k]);
                }
            }
            assert forall|k: int| 0 <= k < i + 1 implies (#[trigger] readings@[k]).0@ == start[k].0@
                && list@[k].0 == start[k].0 && S::reads(
                start[k].1,
                current@,
                readings@[k].1,
                list@[k].1,
            ) by {
                if k < i {
                    assert(readings@[k] == so_far[k]);
                }
            }
        }
        i = i + 1;
    }
    readings
}

impl<S: sensor::Sensor> PlantBinding<S> {
    /// Reads every sensor once, over the confirmed state.
    pub fn read_sensors(&mut self, current: &CurrentState) -> (readings: Vec<(String, u64)>)
        requires
            all_readable(old(self).sensors@, current@.outline()),
        ensures
            all_read(old(self).sensors@, current@, readings@, final(self).sensors@),
            all_readable(final(self).sensors@, current@.outline()),
            final(self).actuators == old(self).actuators,
    {
        read_all(&mut self.sensors, current)
    }

    /// Reads the mirror of every actuator once, over the confirmed state.
    pub fn read_actuators(&mut self, current: &CurrentState) -> (readings: Vec<(String, u64)>)
        requires
            all_readable(old(self).actuators@, current@.outline()),
        ensures
            all_read(old(self).actuators@, current@, readings@, final(self).actuators@),
            all_readable(final(self).actuators@, current@.outline()),
            final(self).sensors == old(self).sensors,
    {
        read_all(&mut self.actuators, current)
    }
}

/// Why a plant could not be assembled.
pub enum AssemblyError {
    /// A name that a component needs is offered by nobody.
    Registry(String),
    /// An actuator publishes no state under its own name.
    Mirrors(String),
}

/// The names of a list of named items.
pub open spec fn names_of<S>(list: Seq<(String, S)>) -> Seq<Seq<char>> {
    Seq::new(list.len(), |i: int| list[i].0@)
}

/// Whether a list holds every name of a catalog once, each with a clone of the item behind it.
pub open spec fn catalogued<S: Clone>(catalog: CatalogView<S>, list: Seq<(String, S)>) -> bool {
    &&& names_of(list) == text::effective_names(catalog.names, catalog.names.len())
    &&& forall|i: int|
        0 <= i < list.len() ==> (catalog.found((#[trigger] list[i]).0@) matches Some(item)
            && cloned(item, list[i].1))
}

/// Whether the actuators of `before` have got mirrors: for each name of an actuator an ideal sensor
/// on the key of that name, which stands in the catalog of sensors under that name too.
pub open spec fn mirrors<S, A, C, G: Fn(Sensor<Ideal>) -> (S, S)>(
    before: RegistryView<S, A, C>,
    share: G,
    list: Seq<(String, S)>,
    items: Seq<S>,
    after: RegistryView<S, A, C>,
) -> bool {
    let names = text::effective_names(before.actuators.names, before.actuators.names.len());
    &&& names_of(list) == names
    &&& mirrored_so_far(before, share, list, items, names, after)
}

/// Whether mirrors for these names were added to `before`.
pub open spec fn mirrored_so_far<S, A, C, G: Fn(Sensor<Ideal>) -> (S, S)>(
    before: RegistryView<S, A, C>,
    share: G,
    list: Seq<(String, S)>,
    items: Seq<S>,
    names: Seq<Seq<char>>,
    after: RegistryView<S, A, C>,
) -> bool {
    &&& list.len() == names.len()
    &&& items.len() == names.len()
    &&& after == RegistryView {
        sensors: CatalogView {
            names: before.sensors.names + names,
            items: before.sensors.items + items,
        },
        ..before.reading(names)
    }
    &&& forall|i: int|
        0 <= i < list.len() ==> is_mirror(
            share,
            before.current.links.bindings.len() + i,
            items[i],
            (#[trigger] list[i]).1,
        )
}

/// Whether the two are handles on an ideal sensor that was just made, on the read proxy with this
/// number.
pub open spec fn is_mirror<S, G: Fn(Sensor<Ideal>) -> (S, S)>(
    share: G,
    number: int,
    item: S,
    handle: S,
) -> bool {
    exists|sensor: Sensor<Ideal>|
        {
            &&& #[trigger] sensor@.proxy.number() == number
            &&& sensor@.cached is None
            &&& call_ensures(share, (sensor,), (item, handle))
        }
}

/// Whether the actuators of `before` have got mirrors and all of them were resolved.
pub open spec fn resolved_with_mirrors<S, A, C, G: Fn(Sensor<Ideal>) -> (S, S)>(
    before: RegistryView<S, A, C>,
    share: G,
    list: Seq<(String, S)>,
    after: RegistryView<S, A, C>,
) -> bool {
    exists|mirrored: RegistryView<S, A, C>, items: Seq<S>|
        {
            &&& #[trigger] mirrors(before, share, list, items, mirrored)
            &&& mirrored.resolve_failure() is None
            &&& after == mirrored.resolved()
        }
}

/// Whether assembling a plant from this registry and this model may come out so. A registry that
/// lacks an offer is the error of the registry; an actuator that publishes no state under its own
/// name is the error of its mirror.
pub open spec fn assembles<S: Clone, A, C, M: DynamicModel, G: Fn(Sensor<Ideal>) -> (S, S)>(
    registry: RegistryView<S, A, C>,
    model: M,
    share: G,
    assembled: Result<(Plant<S, A, C, M>, PlantBinding<S>), AssemblyError>,
) -> bool {
    let asked = registry.needing(integration_needs(model.integrable()));
    match assembled {
        Ok((plant, binding)) => {
            &&& asked.resolve_failure() is None
            &&& plant.wired_for(registry, model)
            &&& plant.registry@.wf()
            &&& resolved_with_mirrors(
                asked.resolved(),
                share,
                binding.actuators@,
                plant.registry@,
            )
            &&& catalogued(asked.resolved().sensors, binding.sensors@)
        },
        Err(AssemblyError::Registry(message)) => asked.resolve_failure() == Some(message@),
        Err(AssemblyError::Mirrors(message)) => {
            &&& asked.resolve_failure() is None
            &&& unmirrored(asked.resolved(), share, message@)
        },
    }
}

/// Whether resolving the mirrors of the actuators may fail with this message.
pub open spec fn unmirrored<S, A, C, G: Fn(Sensor<Ideal>) -> (S, S)>(
    before: RegistryView<S, A, C>,
    share: G,
    message: Seq<char>,
) -> bool {
    exists|mirrored: RegistryView<S, A, C>, list: Seq<(String, S)>, items: Seq<S>|
        #[trigger] mirrors(before, share, list, items, mirrored) && mirrored.resolve_failure()
            == Some(message)
}

/// The sensors of a registry under their names.
fn list_sensors<S: Clone, A, C>(registry: &StateRegistry<S, A, C>) -> (list: Vec<(String, S)>)
    requires
        registry@.wf(),
    ensures
        catalogued(registry@.sensors, list@),
{
    let mut names: Vec<String> = registry.sensor_names();
    let ghost wanted = text::texts(names@);
    let mut list: Vec<(String, S)> = Vec::new();
    let n: usize = names.len();
    assert(names_of(list@) =~= wanted.take(0));
    assert(text::texts(names@) =~= wanted.skip(0));
    while list.len() < n
        invariant
            registry@.wf(),
            n == wanted.len(),
            list@.len() <= n,
            wanted == text::effective_names(registry@.sensors.names, registry@.sensors.names.len()),
            text::texts(names@) == wanted.skip(list@.len() as int),
            names_of(list@) == wanted.take(list@.len() as int),
            forall|i: int|
                0 <= i < list@.len() ==> (registry@.sensors.found((#[trigger] list@[i]).0@)
                    matches Some(item) && cloned(item, list@[i].1)),
        decreases n - list@.len(),
    {
        let ghost before = names@;
        let ghost so_far = list@;
        assert(text::texts(before).len() == before.len());
        let name: String = names.remove(0);
        proof {
            let at = so_far.len() as int;
            assert(text::texts(before)[0] == name@);
            assert(wanted.skip(at)[0] == wanted[at]);
            text::effective_names_are_the_names(
                registry@.sensors.names,
                registry@.sensors.names.len(),
            );
            assert(wanted.contains(wanted[at]));
            text::last_position_is_last(registry@.sensors.names, name@);
        }
        match registry.sensor(name.as_str()) {
            Some(sensor) => {
                let item: S = sensor.clone();
                list.push((name, item));
            },
            None => {
                assert(false);
            },
        }
        proof {
            let at = so_far.len() as int;
            assert(names_of(list@) =~= wanted.take(at + 1));
            assert(text::texts(names@) =~= wanted.skip(at + 1)) by {
                assert forall|i: int| 0 <= i < names@.len() implies text::texts(names@)[i]
                    == wanted.skip(at + 1)[i] by {
                    assert(names@[i] == before[i + 1]);
                    assert(text::texts(before)[i + 1] == wanted.skip(at)[i + 1]);
                }
            }
        }
    }
    assert(wanted.take(n as int) =~= wanted);
    list
}

/// Gives each catalogued actuator a mirror.
fn mirror_actuators<S, A, C, G: Fn(Sensor<Ideal>) -> (S, S) + Copy>(
    registry: &mut StateRegistry<S, A, C>,
    share: G,
) -> (list: Vec<(String, S)>)
    requires
        old(registry)@.wf(),
        forall|sensor: Sensor<Ideal>| #[trigger] call_requires(share, (sensor,)),
    ensures
        final(registry)@.wf(),
        exists|items: Seq<S>| #[trigger]
            mirrors(old(registry)@, share, list@, items, final(registry)@),
{
    let ghost start = registry@;
    let names: Vec<String> = registry.actuator_names();
    let ghost wanted = text::texts(names@);
    let mut list: Vec<(String, S)> = Vec::new();
    let ghost mut items: Seq<S> = Seq::empty();
    let mut i: usize = 0;
    proof {
        assert(names_of(list@) =~= wanted.take(0));
        assert(start.sensors.names + wanted.take(0) =~= start.sensors.names);
        assert(start.sensors.items + items =~= start.sensors.items);
        assert(start.reading(wanted.take(0)) =~= start);
    }
    while i < names.len()
        invariant
            i <= names@.len(),
            wanted == text::texts(names@),
            start.wf(),
            registry@.wf(),
            forall|sensor: Sensor<Ideal>| #[trigger] call_requires(share, (sensor,)),
            names_of(list@) == wanted.take(i as int),
            mirrored_so_far(start, share, list@, items, wanted.take(i as int), registry@),
        decreases names@.len() - i,
    {
        let ghost before = registry@;
        let ghost so_far = list@;
        let shared: S = Sensor::new(registry, names[i].as_str(), Ideal, share);
        list.push((names[i].clone(), shared));
        proof {
            let at = i as int;
            let (made, item) = choose|made: Sensor<Ideal>, item: S| #[trigger]
                sensor::model::sensor_registered(
                    before,
                    names@[at]@,
                    Ideal,
                    made,
                    item,
                    registry@,
                ) && call_ensures(share, (made,), (item, shared));
            let more = items.push(item);
            let now = wanted.take(at + 1);
            assert(now =~= wanted.take(at).push(names@[at]@));
            assert(start.sensors.names + now =~= (start.sensors.names + wanted.take(at)).push(
                names@[at]@,
            ));
            assert(start.sensors.items + more =~= (start.sensors.items + items).push(item));
            assert(registry@.current.links.bindings =~= start.reading(now).current.links.bindings);
            assert(registry@.current.links.pending =~= start.reading(now).current.links.pending);
            assert(made@.proxy.number() == start.current.links.bindings.len() + at);
            assert(is_mirror(share, start.current.links.bindings.len() + at, item, shared));
            assert(names_of(list@) =~= now);
            assert forall|k: int| 0 <= k < list@.len() implies is_mirror(
                share,
                start.current.links.bindings.len() + k,
                more[k],
                (#[trigger] list@[k]).1,
            ) by {
                if k < at {
                    assert(list@[k] == so_far[k]);
                }
            }
            assert(mirrored_so_far(start, share, list@, more, now, registry@));
            items = more;
        }
        i = i + 1;
    }
    assert(wanted.take(i as int) =~= wanted);
    assert(mirrors(start, share, list@, items, registry@));
    list
}

impl<S, A, C, M: DynamicModel> Plant<S, A, C, M> {
    /// Whether every proxy of the plant has its slot.
    pub open spec fn ready(&self) -> bool {
        &&& self.registry@.wf()
        &&& self.registry@.current.values.len() == self.registry@.evaluation.values.len()
        &&& self.states@.len() == self.derivatives@.len()
        &&& state_registry::all_resolved(self.states@, self.registry@.evaluation.layout())
        &&& state_registry::all_resolved(self.derivatives@, self.registry@.evaluation.layout())
        &&& self.model.ready(
            self.registry@.current.outline(),
            self.registry@.evaluation.layout(),
        )
    }

    /// Whether the plants differ in nothing but the working copy of their state.
    pub open spec fn same_but_evaluation(&self, other: Plant<S, A, C, M>) -> bool {
        &&& other.model == self.model
        &&& other.states == self.states
        &&& other.derivatives == self.derivatives
        &&& other.registry@ == RegistryView {
            evaluation: other.registry@.evaluation,
            ..self.registry@
        }
        &&& other.registry@.evaluation.layout() == self.registry@.evaluation.layout()
    }

    /// Builds a plant from a model that has subscribed: asks for what the integration needs and
    /// resolves everything; then gives every catalogued actuator a mirror, an ideal sensor on the
    /// key of the actuator, and resolves those. A name without an offer is an error. What the
    /// outside may hold of the plant comes out beside it.
    pub fn assemble<G: Fn(Sensor<Ideal>) -> (S, S) + Copy>(
        registry: StateRegistry<S, A, C>,
        model: M,
        share: G,
    ) -> (assembled: Result<(Plant<S, A, C, M>, PlantBinding<S>), AssemblyError>)
        where
            S: Clone,
        requires
            registry@.wf(),
            forall|sensor: Sensor<Ideal>| #[trigger] call_requires(share, (sensor,)),
        ensures
            assembles(registry@, model, share, assembled),
    {
        let mut registry = registry;
        let ghost start = registry@;
        let ghost asked = start.needing(integration_needs(model.integrable()));
        let keys: Vec<String> = model.state_keys();
        let needs: Vec<String> = list_integration_needs(&keys);
        let need_slices = text::as_strs(&needs);
        proof {
            assert(text::texts(keys@).len() == keys@.len());
            assert(text::texts(needs@).len() == needs@.len());
            assert(text::strs(need_slices@).len() == need_slices@.len());
        }
        let (_, proxies) = registry.subscribe(&[], need_slices.as_slice());
        proof {
            let none: Seq<&str> = Seq::empty();
            assert(text::strs(none) =~= Seq::empty());
            assert(start.offering(Seq::empty()) =~= start);
        }
        match registry.resolve() {
            Ok(_) => {},
            Err(message) => {
                return Err(AssemblyError::Registry(message));
            },
        }
        let sensors: Vec<(String, S)> = list_sensors(&registry);
        let ghost resolved = registry@;
        let actuators: Vec<(String, S)> = mirror_actuators(&mut registry, share);
        let ghost mirrored = registry@;
        match registry.resolve() {
            Ok(_) => {},
            Err(message) => {
                assert(unmirrored(resolved, share, message@));
                return Err(AssemblyError::Mirrors(message));
            },
        }
        let mut states: Vec<Proxy> = Vec::new();
        let mut derivatives: Vec<Proxy> = Vec::new();
        let mut i: usize = 0;
        assert(proxies.len() == proxies@.len());
        while i < keys.len()
            invariant
                i <= keys@.len(),
                proxies@.len() == 2 * keys@.len(),
                proxies@.len() <= usize::MAX,
                states@.len() == i,
                derivatives@.len() == i,
                forall|k: int| 0 <= k < i ==> #[trigger] states@[k] == proxies@[2 * k],
                forall|k: int| 0 <= k < i ==> #[trigger] derivatives@[k] == proxies@[2 * k + 1],
            decreases keys@.len() - i,
        {
            states.push(proxies[2 * i]);
            derivatives.push(proxies[2 * i + 1]);
            i = i + 1;
        }
        let plant = Plant { registry, model, states, derivatives };
        assert(resolved_with_mirrors(resolved, share, actuators@, plant.registry@));
        Ok((plant, PlantBinding { sensors, actuators }))
    }

    /// Whether the plant integrates the states of the model through the proxies that were handed out
    /// next.
    pub open spec fn wired_for(&self, start: RegistryView<S, A, C>, model: M) -> bool {
        let first = start.evaluation.links.bindings.len();
        &&& self.model == model
        &&& self.states@.len() == model.integrable().len()
        &&& self.derivatives@.len() == model.integrable().len()
        &&& forall|i: int|
            0 <= i < self.states@.len() ==> (#[trigger] self.states@[i]).number() == first + 2 * i
        &&& forall|i: int|
            0 <= i < self.derivatives@.len() ==> (#[trigger] self.derivatives@[i]).number() == first
                + 2 * i + 1
    }

    /// Evaluates the model once.
    fn evaluate(&mut self)
        requires
            old(self).ready(),
        ensures
            final(self).ready(),
            old(self).same_but_evaluation(*final(self)),
            old(self).model.evaluates(
                old(self).registry@.current,
                old(self).registry@.evaluation,
                final(self).registry@.evaluation,
            ),
    {
        self.registry.evaluate(&self.model);
    }

    /// Writes the integrated slots.
    fn write_states(&mut self, values: &Vec<u64>)
        requires
            old(self).ready(),
            values@.len() == old(self).states@.len(),
        ensures
            final(self).ready(),
            old(self).same_but_evaluation(*final(self)),
            final(self).registry@.evaluation == state_registry::written(
                old(self).states@,
                values@,
                old(self).states@.len(),
                old(self).registry@.evaluation,
            ),
    {
        state_registry::scatter(&self.states, self.registry.evaluation_mut(), values);
    }
}

/// The plant as the right-hand side of its differential equations: it writes the state that is tried
/// out, evaluates the model and reads the derivatives back.
impl<S, A, C, M: DynamicModel> Dynamics for Plant<S, A, C, M> {
    open spec fn size(&self) -> nat {
        self.states@.len()
    }

    open spec fn answerable(&self) -> bool {
        self.ready()
    }

    open spec fn continues(before: Plant<S, A, C, M>, after: Plant<S, A, C, M>) -> bool {
        before.same_but_evaluation(after)
    }

    proof fn continues_on(
        first: Plant<S, A, C, M>,
        second: Plant<S, A, C, M>,
        third: Plant<S, A, C, M>,
    ) {
    }

    open spec fn responds(
        before: Plant<S, A, C, M>,
        perturbed: Seq<u64>,
        derivatives: Seq<u64>,
        after: Plant<S, A, C, M>,
    ) -> bool {
        &&& before.model.evaluates(
            before.registry@.current,
            state_registry::written(
                before.states@,
                perturbed,
                before.states@.len(),
                before.registry@.evaluation,
            ),
            after.registry@.evaluation,
        )
        &&& derivatives == state_registry::gathered(
            before.derivatives@,
            after.registry@.evaluation,
        )
    }

    fn derivatives(&mut self, perturbed: &Vec<u64>) -> (derivatives: Vec<u64>) {
        self.write_states(perturbed);
        self.evaluate();
        state_registry::gather(&self.derivatives, self.registry.evaluation())
    }
}

/// Whether one step of the physics may lead from `before` to `after`. Where nothing is integrated
/// the model is evaluated once. Otherwise the integrator takes a step, its result is written, and
/// the model is evaluated on it, so that nothing is left of the states that were only tried out.
pub open spec fn advances<S, A, C, M: DynamicModel>(
    before: Plant<S, A, C, M>,
    operations: Operations,
    dt: u64,
    after: Plant<S, A, C, M>,
) -> bool {
    &&& before.same_but_evaluation(after)
    &&& if before.states@.len() == 0 {
        before.model.evaluates(
            before.registry@.current,
            before.registry@.evaluation,
            after.registry@.evaluation,
        )
    } else {
        exists|tried: Plant<S, A, C, M>, next: Seq<u64>|
            {
                &&& #[trigger] RK4.steps(
                    operations,
                    state_registry::gathered(before.states@, before.registry@.evaluation),
                    dt,
                    before,
                    tried,
                    next,
                )
                &&& before.model.evaluates(
                    before.registry@.current,
                    state_registry::written(
                        before.states@,
                        next,
                        before.states@.len(),
                        tried.registry@.evaluation,
                    ),
                    after.registry@.evaluation,
                )
            }
    }
}

/// Whether the working copy of `after` is what an evaluation of the model left. Where nothing is
/// integrated the model evaluated the working copy of `before`.
pub open spec fn is_evaluated<S, A, C, M: DynamicModel>(
    before: Plant<S, A, C, M>,
    after: Plant<S, A, C, M>,
) -> bool {
    exists|given: EvaluationView| #[trigger]
        evaluated_from(before, given, after.registry@.evaluation)
}

/// Whether the model of `before` may lead from `given` to `left`, where `given` has the slots of
/// `before`, and its values too where nothing is integrated.
pub open spec fn evaluated_from<S, A, C, M: DynamicModel>(
    before: Plant<S, A, C, M>,
    given: EvaluationView,
    left: EvaluationView,
) -> bool {
    &&& before.model.evaluates(before.registry@.current, given, left)
    &&& given.layout() == before.registry@.evaluation.layout()
    &&& before.states@.len() == 0 ==> given == before.registry@.evaluation
}

impl<S, A, C, M: DynamicModel> Plant<S, A, C, M> {
    /// Advances the physics by one step. Whatever the operations on doubles give, the model has the
    /// last word.
    pub fn advance<
        P: Fn(u64, u64) -> u64,
        N: Fn(u64, u64) -> u64,
        Q: Fn(u64, u64) -> u64,
        D: Fn(u64, u64) -> u64,
    >(
        &mut self,
        method: NumericalMethod,
        dt: u64,
        arithmetic: &Arithmetic<P, N, Q, D>,
    )
        requires
            old(self).ready(),
            arithmetic.total(),
        ensures
            final(self).ready(),
            old(self).same_but_evaluation(*final(self)),
            is_evaluated(*old(self), *final(self)),
            forall|operations: Operations| #[trigger]
                arithmetic.computes(operations) ==> advances(
                    *old(self),
                    operations,
                    dt,
                    *final(self),
                ),
    {
        let ghost start = *self;
        if self.states.len() == 0 {
            self.evaluate();
            assert(evaluated_from(start, start.registry@.evaluation, self.registry@.evaluation));
        } else {
            let current: Vec<u64> = state_registry::gather(&self.states, self.registry.evaluation());
            let integrator: RK4 = method.integrator();
            let next: Vec<u64> = integrator.step(&current, dt, self, arithmetic);
            self.write_states(&next);
            let ghost given = self.registry@.evaluation;
            self.evaluate();
            assert(evaluated_from(start, given, self.registry@.evaluation));
        }
    }
}

/// How long to wait after a step: not at all, or the interval of a tick divided by a speed.
#[derive(Clone, Copy, Debug, PartialEq, Eq, Structural)]
pub enum Pace {
    Immediately,
    Scaled(u64),
}

/// What a tick did, and how long to wait after it. A paused plant waits for the whole interval.
#[derive(Clone, Copy, Debug, PartialEq, Eq, Structural)]
pub enum Tick {
    Stopped,
    Paused,
    Advanced(Pace),
}

/// The pace at a speed.
pub open spec fn pace_at(speed: u64) -> Pace {
    if double::is_not_positive(speed) {
        Pace::Immediately
    } else {
        Pace::Scaled(speed)
    }
}

pub fn pace(speed: u64) -> (pace: Pace)
    ensures
        pace == pace_at(speed),
{
    if double::is_zero_or_less(speed) {
        Pace::Immediately
    } else {
        Pace::Scaled(speed)
    }
}

/// Whose turn it is: that of the end, of a pause, or of one step and a wait after it.
#[derive(Clone, Copy, Debug, PartialEq, Eq, Structural)]
pub enum Turn {
    Stopped,
    Paused,
    Run(Pace),
}

/// What a control asks for: a request to stop is looked at before the pause.
pub open spec fn turn_of(control: ControlView) -> Turn {
    if control.reset_requested {
        Turn::Stopped
    } else if control.paused {
        Turn::Paused
    } else {
        Turn::Run(pace_at(control.speed))
    }
}

/// Decides what comes next, and uses up a request to stop. The control is needed for the decision
/// alone: while the plant takes its step others may change it.
pub fn turn(control: &mut RuntimeControl) -> (turn: Turn)
    ensures
        turn == turn_of(old(control)@),
        final(control)@ == (ControlView { reset_requested: false, ..old(control)@ }),
{
    if control.take_reset_request() {
        return Turn::Stopped;
    }
    let pace: Pace = pace(control.speed());
    if control.is_paused() {
        Turn::Paused
    } else {
        Turn::Run(pace)
    }
}

/// Whether writing the first `n` commands one after the other may lead to `after`. A command for an
/// actuator that is not in the catalog is left out.
pub open spec fn commanded<S, A: Actuator, C>(
    before: RegistryView<S, A, C>,
    commands: Seq<(String, u64)>,
    n: nat,
    after: EvaluationView,
) -> bool
    decreases n,
{
    if n == 0 {
        after == before.evaluation
    } else {
        exists|between: EvaluationView|
            commanded(before, commands, (n - 1) as nat, between) && #[trigger] obeyed(
                before,
                commands[n - 1],
                between,
                after,
            )
    }
}

/// Whether one command leads from `between` to `after`.
pub open spec fn obeyed<S, A: Actuator, C>(
    registry: RegistryView<S, A, C>,
    command: (String, u64),
    between: EvaluationView,
    after: EvaluationView,
) -> bool {
    match registry.actuators.found(command.0@) {
        Some(actuator) => actuator.writes(between, command.1, after),
        None => after == between,
    }
}

/// Whether all catalogued actuators can be written.
pub open spec fn all_writable<S, A: Actuator, C>(registry: RegistryView<S, A, C>) -> bool {
    forall|i: int|
        0 <= i < registry.actuators.items.len() ==> (
        #[trigger] registry.actuators.items[i]).writable(registry.evaluation.layout())
}

/// Whether the plants are the same as far as can be seen.
pub open spec fn same_plant<S, A, C, M>(
    one: Plant<S, A, C, M>,
    other: Plant<S, A, C, M>,
) -> bool {
    &&& other.model == one.model
    &&& other.states == one.states
    &&& other.derivatives == one.derivatives
    &&& other.registry@ == one.registry@
}

/// Whether the plant got its commands and nothing else.
pub open spec fn only_commanded<S, A: Actuator, C, M: DynamicModel>(
    before: Plant<S, A, C, M>,
    commands: Seq<(String, u64)>,
    after: Plant<S, A, C, M>,
) -> bool {
    &&& before.same_but_evaluation(after)
    &&& commanded(before.registry@, commands, commands.len(), after.registry@.evaluation)
}

/// Whether `after` is the plant with its working copy confirmed.
pub open spec fn confirmed<S, A, C, M>(
    stepped: Plant<S, A, C, M>,
    after: Plant<S, A, C, M>,
) -> bool {
    &&& after.model == stepped.model
    &&& after.states == stepped.states
    &&& after.derivatives == stepped.derivatives
    &&& after.registry@ == stepped.registry@.committed()
}

/// Whether the model had the last word on the working copy and it was confirmed, whatever the
/// operations on doubles give.
pub open spec fn evaluated_and_committed<S, A, C, M: DynamicModel>(
    before: Plant<S, A, C, M>,
    after: Plant<S, A, C, M>,
) -> bool {
    exists|stepped: Plant<S, A, C, M>| #[trigger]
        is_evaluated(before, stepped) && before.same_but_evaluation(stepped) && confirmed(
            stepped,
            after,
        )
}

/// Whether the plant took one step from `before` and confirmed it.
pub open spec fn stepped_and_committed<S, A, C, M: DynamicModel>(
    before: Plant<S, A, C, M>,
    operations: Operations,
    dt: u64,
    after: Plant<S, A, C, M>,
) -> bool {
    exists|stepped: Plant<S, A, C, M>|
        {
            &&& #[trigger] advances(before, operations, dt, stepped)
            &&& confirmed(stepped, after)
        }
}

/// Whether one tick may lead from `before` to `after` and do `tick`. The commands come first; a
/// request to stop is looked at before the pause; only a plant that runs steps, commits, and moves
/// its clock.
pub open spec fn ticks<S, A: Actuator, C, M: DynamicModel>(
    before: Plant<S, A, C, M>,
    control: ControlView,
    commands: Seq<(String, u64)>,
    operations: Operations,
    dt: u64,
    tick: Tick,
    after: Plant<S, A, C, M>,
    control_after: ControlView,
) -> bool {
    exists|ordered: Plant<S, A, C, M>|
        {
            &&& #[trigger] only_commanded(before, commands, ordered)
            &&& takes_its_turn(ordered, control, operations, dt, tick, after, control_after)
        }
}

/// Whether a plant that got its commands may go on to `after` and do `tick`.
pub open spec fn takes_its_turn<S, A: Actuator, C, M: DynamicModel>(
    ordered: Plant<S, A, C, M>,
    control: ControlView,
    operations: Operations,
    dt: u64,
    tick: Tick,
    after: Plant<S, A, C, M>,
    control_after: ControlView,
) -> bool {
    if control.reset_requested {
        &&& tick == Tick::Stopped
        &&& same_plant(ordered, after)
        &&& control_after == ControlView { reset_requested: false, ..control }
    } else if control.paused {
        &&& tick == Tick::Paused
        &&& same_plant(ordered, after)
        &&& control_after == control
    } else {
        &&& tick == Tick::Advanced(pace_at(control.speed))
        &&& stepped_and_committed(ordered, operations, dt, after)
        &&& control_after == ControlView { t_h: (operations.plus)(control.t_h, dt), ..control }
    }
}

/// Whether a tick of a plant that is to stop or is paused may lead from `before` to `after` and do
/// `tick`: the plant gets its commands, and a request to stop is used up.
pub open spec fn rests<S, A: Actuator, C, M: DynamicModel>(
    before: Plant<S, A, C, M>,
    control: ControlView,
    commands: Seq<(String, u64)>,
    tick: Tick,
    after: Plant<S, A, C, M>,
    control_after: ControlView,
) -> bool {
    &&& only_commanded(before, commands, after)
    &&& if control.reset_requested {
        &&& tick == Tick::Stopped
        &&& control_after == ControlView { reset_requested: false, ..control }
    } else {
        &&& tick == Tick::Paused
        &&& control_after == control
    }
}

/// Whether a tick of a plant that runs may lead from `before` to `after` and do `tick`, whatever the
/// operations on doubles give: the plant gets its commands, the model has the last word on its
/// working copy, that copy is confirmed whole as the next generation, and `plus` moves the clock.
pub open spec fn runs<S, A: Actuator, C, M: DynamicModel, P: Fn(u64, u64) -> u64>(
    before: Plant<S, A, C, M>,
    control: ControlView,
    commands: Seq<(String, u64)>,
    plus: P,
    dt: u64,
    tick: Tick,
    after: Plant<S, A, C, M>,
    control_after: ControlView,
) -> bool {
    &&& exists|ordered: Plant<S, A, C, M>| #[trigger]
        only_commanded(before, commands, ordered) && evaluated_and_committed(ordered, after)
    &&& tick == Tick::Advanced(pace_at(control.speed))
    &&& call_ensures(plus, (control.t_h, dt), control_after.t_h)
    &&& control_after == ControlView { t_h: control_after.t_h, ..control }
}

impl<S, A: Actuator, C, M: DynamicModel> Plant<S, A, C, M> {
    /// Writes the commands that have arrived, and tells of each whether its actuator was found.
    pub fn apply_commands(&mut self, commands: &Vec<(String, u64)>) -> (found: Vec<bool>)
        requires
            old(self).ready(),
            all_writable(old(self).registry@),
        ensures
            final(self).ready(),
            only_commanded(*old(self), commands@, *final(self)),
            found@.len() == commands@.len(),
            forall|i: int|
                0 <= i < found@.len() ==> #[trigger] found@[i] == (
                old(self).registry@.actuators.found(commands@[i].0@) is Some),
    {
        let ghost start = *self;
        let mut found: Vec<bool> = Vec::new();
        let mut i: usize = 0;
        while i < commands.len()
            invariant
                i <= commands@.len(),
                start.ready(),
                all_writable(start.registry@),
                self.ready(),
                start.same_but_evaluation(*self),
                commanded(start.registry@, commands@, i as nat, self.registry@.evaluation),
                found@.len() == i,
                forall|k: int|
                    0 <= k < i ==> #[trigger] found@[k] == (start.registry@.actuators.found(
                        commands@[k].0@,
                    ) is Some),
            decreases commands@.len() - i,
        {
            let ghost between = self.registry@.evaluation;
            let name = commands[i].0.as_str();
            proof {
                text::last_position_is_last(start.registry@.actuators.names, name@);
                match start.registry@.actuators.found(name@) {
                    Some(actuator) => {
                        let p = text::last_position(
                            start.registry@.actuators.names,
                            name@,
                        )->0 as int;
                        assert(start.registry@.actuators.items[p].writable(
                            start.registry@.evaluation.layout(),
                        ));
                    },
                    None => {},
                }
            }
            let known: bool = self.registry.command(name, commands[i].1);
            found.push(known);
            i = i + 1;
            assert(obeyed(
                start.registry@,
                commands@[i as nat - 1],
                between,
                self.registry@.evaluation,
            ));
        }
        found
    }

    /// One step of the physics, confirmed: what a plant does whose turn it is. The control has no part
    /// in it.
    pub fn step<
        P: Fn(u64, u64) -> u64,
        N: Fn(u64, u64) -> u64,
        Q: Fn(u64, u64) -> u64,
        D: Fn(u64, u64) -> u64,
    >(&mut self, method: NumericalMethod, dt_hours: u64, arithmetic: &Arithmetic<P, N, Q, D>)
        requires
            old(self).ready(),
            all_writable(old(self).registry@),
            old(self).registry@.current.generation < u64::MAX,
            arithmetic.total(),
        ensures
            final(self).ready(),
            all_writable(final(self).registry@),
            evaluated_and_committed(*old(self), *final(self)),
            forall|operations: Operations| #[trigger]
                arithmetic.computes(operations) ==> stepped_and_committed(
                    *old(self),
                    operations,
                    dt_hours,
                    *final(self),
                ),
    {
        let ghost start = *self;
        self.advance(method, dt_hours, arithmetic);
        let ghost stepped = *self;
        self.registry.commit();
        assert(self.registry@.current.outline() =~= stepped.registry@.current.outline());
        proof {
            assert(is_evaluated(start, stepped) && confirmed(stepped, *self));
            assert forall|operations: Operations| #[trigger]
                arithmetic.computes(operations) implies stepped_and_committed(
                start,
                operations,
                dt_hours,
                *self,
            ) by {
                assert(advances(start, operations, dt_hours, stepped));
            }
        }
    }

    /// One tick: the commands first, then, unless the plant is to stop or is paused, one step of the
    /// physics, a commit, and the clock. Commands are written to a paused plant too. Of each command
    /// it is told whether its actuator was found.
    pub fn tick<
        P: Fn(u64, u64) -> u64,
        N: Fn(u64, u64) -> u64,
        Q: Fn(u64, u64) -> u64,
        D: Fn(u64, u64) -> u64,
    >(
        &mut self,
        commands: &Vec<(String, u64)>,
        control: &mut RuntimeControl,
        method: NumericalMethod,
        dt_hours: u64,
        arithmetic: &Arithmetic<P, N, Q, D>,
    ) -> (outcome: (Tick, Vec<bool>))
        requires
            old(self).ready(),
            all_writable(old(self).registry@),
            turn_of(old(control)@) is Run ==> old(self).registry@.current.generation < u64::MAX,
            arithmetic.total(),
        ensures
            final(self).ready(),
            all_writable(final(self).registry@),
            outcome.1@.len() == commands@.len(),
            forall|i: int|
                0 <= i < outcome.1@.len() ==> #[trigger] outcome.1@[i] == (
                old(self).registry@.actuators.found(commands@[i].0@) is Some),
            if old(control)@.reset_requested || old(control)@.paused {
                rests(
                    *old(self),
                    old(control)@,
                    commands@,
                    outcome.0,
                    *final(self),
                    final(control)@,
                )
            } else {
                runs(
                    *old(self),
                    old(control)@,
                    commands@,
                    arithmetic.plus,
                    dt_hours,
                    outcome.0,
                    *final(self),
                    final(control)@,
                )
            },
            forall|operations: Operations| #[trigger]
                arithmetic.computes(operations) ==> ticks(
                    *old(self),
                    old(control)@,
                    commands@,
                    operations,
                    dt_hours,
                    outcome.0,
                    *final(self),
                    final(control)@,
                ),
            final(self).registry@.current.generation == old(self).registry@.current.generation + (
            if outcome.0 is Advanced {
                1int
            } else {
                0
            }),
    {
        let ghost start = *self;
        let found: Vec<bool> = self.apply_commands(commands);
        let ghost ordered = *self;
        let pace: Pace = match turn(control) {
            Turn::Stopped => {
                return (Tick::Stopped, found);
            },
            Turn::Paused => {
                return (Tick::Paused, found);
            },
            Turn::Run(pace) => pace,
        };
        self.step(method, dt_hours, arithmetic);
        assert(call_requires(arithmetic.plus, (control@.t_h, dt_hours)));
        control.advance_t_h(dt_hours, &arithmetic.plus);
        proof {
            assert(only_commanded(start, commands@, ordered));
            assert forall|operations: Operations| #[trigger]
                arithmetic.computes(operations) implies ticks(
                start,
                old(control)@,
                commands@,
                operations,
                dt_hours,
                Tick::Advanced(pace),
                *self,
                control@,
            ) by {
                assert(only_commanded(start, commands@, ordered));
                assert(stepped_and_committed(ordered, operations, dt_hours, *self));
            }
        }
        (Tick::Advanced(pace), found)
    }
}

/// In an assembled plant every proxy, every read proxy and every command that was handed out works,
/// and the confirmed state has room for every slot.
pub proof fn an_assembled_plant_serves_its_registry<
    S: Clone,
    A,
    C,
    M: DynamicModel,
    G: Fn(Sensor<Ideal>) -> (S, S),
>(
    registry: RegistryView<S, A, C>,
    model: M,
    share: G,
    plant: Plant<S, A, C, M>,
    binding: PlantBinding<S>,
)
    requires
        assembles(registry, model, share, Ok((plant, binding))),
        registry.wf(),
    ensures
        plant.registry@.extends(registry),
        plant.registry@.evaluation.layout().serves(plant.registry@),
        plant.registry@.evaluation.layout().serves(registry),
        plant.registry@.current.values.len() == plant.registry@.evaluation.values.len(),
        forall|reader: ReadProxy|
            0 <= reader.number() < plant.registry@.current.links.bindings.len()
                ==> #[trigger] plant.registry@.current.outline().resolved(reader),
        state_registry::all_resolved(plant.states@, plant.registry@.evaluation.layout()),
        state_registry::all_resolved(plant.derivatives@, plant.registry@.evaluation.layout()),
{
    let needs = integration_needs(model.integrable());
    let asked = registry.needing(needs);
    let (mirrored, items) = choose|mirrored: RegistryView<S, A, C>, items: Seq<S>|
        {
            &&& #[trigger] mirrors(asked.resolved(), share, binding.actuators@, items, mirrored)
            &&& mirrored.resolve_failure() is None
            &&& plant.registry@ == mirrored.resolved()
        };
    resolution::asking_changes_nothing(registry.evaluation.links, needs);
    links::settling_keeps_places(asked.evaluation.links, asked.keys);
    links::settling_keeps_places(asked.current.links, asked.keys);
    resolution::asking_changes_nothing(
        asked.resolved().current.links,
        text::effective_names(registry.actuators.names, registry.actuators.names.len()),
    );
    links::settling_keeps_places(mirrored.current.links, mirrored.keys);
    let tickets = plant.registry@.evaluation.links;
    assert(tickets == asked.evaluation.links.settled(asked.keys));
    assert(tickets.pending.len() == 0);
    let layout = plant.registry@.evaluation.layout();
    assert forall|proxy: Proxy|
        0 <= proxy.number() < tickets.bindings.len() implies #[trigger] layout.resolved(proxy) by {
        assert(tickets.bindings[proxy.number()] is Some);
    }
    let readers = plant.registry@.current.links;
    assert(readers == mirrored.current.links.settled(mirrored.keys));
    assert(readers.pending.len() == 0);
    assert forall|reader: ReadProxy|
        0 <= reader.number()
            < readers.bindings.len() implies #[trigger] plant.registry@.current.outline().resolved(
        reader,
    ) by {
        assert(readers.bindings[reader.number()] is Some);
    }
    assert forall|i: int| 0 <= i < plant.states@.len() implies layout.resolved(
        #[trigger] plant.states@[i],
    ) by {
        assert(plant.states@[i].number() < tickets.bindings.len());
    }
    assert forall|i: int| 0 <= i < plant.derivatives@.len() implies layout.resolved(
        #[trigger] plant.derivatives@[i],
    ) by {
        assert(plant.derivatives@[i].number() < tickets.bindings.len());
    }
}

/// An assembled plant can run as soon as its model can: every slot that is integrated, and every
/// rate of change, is there.
pub proof fn an_assembled_plant_is_as_ready_as_its_model<
    S: Clone,
    A,
    C,
    M: DynamicModel,
    G: Fn(Sensor<Ideal>) -> (S, S),
>(
    registry: RegistryView<S, A, C>,
    model: M,
    share: G,
    plant: Plant<S, A, C, M>,
    binding: PlantBinding<S>,
)
    requires
        assembles(registry, model, share, Ok((plant, binding))),
        registry.wf(),
    ensures
        plant.ready() == model.ready(
            plant.registry@.current.outline(),
            plant.registry@.evaluation.layout(),
        ),
{
    an_assembled_plant_serves_its_registry(registry, model, share, plant, binding);
}

/// A paused plant is frozen, whatever the arithmetic: no state is confirmed, the clock stands, and of
/// the working copy only what the commands write changes.
pub proof fn a_paused_plant_is_frozen<S, A: Actuator, C, M: DynamicModel>(
    before: Plant<S, A, C, M>,
    control: ControlView,
    commands: Seq<(String, u64)>,
    tick: Tick,
    after: Plant<S, A, C, M>,
    control_after: ControlView,
)
    requires
        control.paused,
        rests(before, control, commands, tick, after, control_after),
    ensures
        tick !is Advanced,
        after.registry@.current == before.registry@.current,
        control_after.t_h == control.t_h,
        commanded(before.registry@, commands, commands.len(), after.registry@.evaluation),
{
}

/// A request to stop is granted at the next tick, paused or not, and is then used up.
pub proof fn a_request_to_stop_beats_a_pause<S, A: Actuator, C, M: DynamicModel>(
    before: Plant<S, A, C, M>,
    control: ControlView,
    commands: Seq<(String, u64)>,
    tick: Tick,
    after: Plant<S, A, C, M>,
    control_after: ControlView,
)
    requires
        control.reset_requested,
        rests(before, control, commands, tick, after, control_after),
    ensures
        tick == Tick::Stopped,
        !control_after.reset_requested,
        after.registry@.current == before.registry@.current,
        control_after.t_h == control.t_h,
{
}

/// What a tick does whose turn it is.
pub open spec fn tick_of(turn: Turn) -> Tick {
    match turn {
        Turn::Stopped => Tick::Stopped,
        Turn::Paused => Tick::Paused,
        Turn::Run(pace) => Tick::Advanced(pace),
    }
}

/// Commands, a decision, and a step where the decision asks for one, make up a tick: whoever takes
/// them one by one, and holds the control for the decision and the clock alone, runs the plant as
/// whole ticks do.
pub proof fn a_turn_and_a_step_make_a_tick<S, A: Actuator, C, M: DynamicModel>(
    before: Plant<S, A, C, M>,
    control: ControlView,
    commands: Seq<(String, u64)>,
    ordered: Plant<S, A, C, M>,
    operations: Operations,
    dt: u64,
    after: Plant<S, A, C, M>,
)
    requires
        only_commanded(before, commands, ordered),
        if turn_of(control) is Run {
            stepped_and_committed(ordered, operations, dt, after)
        } else {
            same_plant(ordered, after)
        },
    ensures
        ticks(
            before,
            control,
            commands,
            operations,
            dt,
            tick_of(turn_of(control)),
            after,
            if turn_of(control) is Run {
                ControlView { t_h: (operations.plus)(control.t_h, dt), ..control }
            } else {
                ControlView { reset_requested: false, ..control }
            },
        ),
{
}

/// A running plant commits once per tick and confirms the whole of its working copy, whatever the
/// arithmetic.
pub proof fn a_running_plant_confirms_its_working_copy<
    S,
    A: Actuator,
    C,
    M: DynamicModel,
    P: Fn(u64, u64) -> u64,
>(
    before: Plant<S, A, C, M>,
    control: ControlView,
    commands: Seq<(String, u64)>,
    plus: P,
    dt: u64,
    tick: Tick,
    after: Plant<S, A, C, M>,
    control_after: ControlView,
)
    requires
        before.registry@.current.generation < u64::MAX,
        runs(before, control, commands, plus, dt, tick, after, control_after),
    ensures
        tick is Advanced,
        after.registry@.current.generation == before.registry@.current.generation + 1,
        after.registry@.current.values == after.registry@.evaluation.values,
{
}

/// A running plant commits once per tick, moves its clock by one step, and confirms the whole of its
/// working copy.
pub proof fn a_running_plant_commits_once<S, A: Actuator, C, M: DynamicModel>(
    before: Plant<S, A, C, M>,
    control: ControlView,
    commands: Seq<(String, u64)>,
    operations: Operations,
    dt: u64,
    tick: Tick,
    after: Plant<S, A, C, M>,
    control_after: ControlView,
)
    requires
        !control.reset_requested,
        !control.paused,
        before.registry@.current.generation < u64::MAX,
        ticks(before, control, commands, operations, dt, tick, after, control_after),
    ensures
        tick is Advanced,
        after.registry@.current.generation == before.registry@.current.generation + 1,
        after.registry@.current.values == after.registry@.evaluation.values,
        control_after.t_h == (operations.plus)(control.t_h, dt),
{
}

/// The speed decides how long to wait and nothing else: at any other speed the same tick leads to
/// the same plant and the same hour.
pub proof fn speed_has_no_part_in_the_physics<S, A: Actuator, C, M: DynamicModel>(
    before: Plant<S, A, C, M>,
    control: ControlView,
    commands: Seq<(String, u64)>,
    operations: Operations,
    dt: u64,
    tick: Tick,
    after: Plant<S, A, C, M>,
    control_after: ControlView,
    speed: u64,
)
    requires
        ticks(before, control, commands, operations, dt, tick, after, control_after),
    ensures
        ticks(
            before,
            ControlView { speed, ..control },
            commands,
            operations,
            dt,
            if tick is Advanced {
                Tick::Advanced(pace_at(speed))
            } else {
                tick
            },
            after,
            ControlView { speed, ..control_after },
        ),
{
    let ordered = choose|ordered: Plant<S, A, C, M>|
        {
            &&& #[trigger] only_commanded(before, commands, ordered)
            &&& takes_its_turn(ordered, control, operations, dt, tick, after, control_after)
        };
    assert(only_commanded(before, commands, ordered));
}

/// Whether an evaluation of the model has one outcome.
pub open spec fn is_determined<M: DynamicModel>(model: M) -> bool {
    forall|current: CurrentView, before: EvaluationView, one: EvaluationView, other: EvaluationView|
        #[trigger] model.evaluates(current, before, one) && #[trigger] model.evaluates(
            current,
            before,
            other,
        ) ==> one == other
}

/// Whether a command to any catalogued actuator has one outcome.
pub open spec fn are_determined<A: Actuator>(actuators: Seq<A>) -> bool {
    forall|i: int, before: EvaluationView, value: u64, one: EvaluationView, other: EvaluationView|
        0 <= i < actuators.len() && #[trigger] actuators[i].writes(before, value, one)
            && #[trigger] actuators[i].writes(before, value, other) ==> one == other
}

proof fn commands_have_one_outcome<S, A: Actuator, C>(
    before: RegistryView<S, A, C>,
    commands: Seq<(String, u64)>,
    n: nat,
    one: EvaluationView,
    other: EvaluationView,
)
    requires
        before.wf(),
        are_determined(before.actuators.items),
        commanded(before, commands, n, one),
        commanded(before, commands, n, other),
    ensures
        one == other,
    decreases n,
{
    if n > 0 {
        let earlier = (n - 1) as nat;
        let first = choose|between: EvaluationView|
            commanded(before, commands, earlier, between) && #[trigger] obeyed(
                before,
                commands[n - 1],
                between,
                one,
            );
        let second = choose|between: EvaluationView|
            commanded(before, commands, earlier, between) && #[trigger] obeyed(
                before,
                commands[n - 1],
                between,
                other,
            );
        commands_have_one_outcome(before, commands, earlier, first, second);
        let name = commands[n - 1].0@;
        text::last_position_is_last(before.actuators.names, name);
    }
}

/// Plants that look the same give the same answer and look the same afterwards.
proof fn answers_agree<S, A, C, M: DynamicModel>(
    one: Plant<S, A, C, M>,
    other: Plant<S, A, C, M>,
    state: Seq<u64>,
    slope: Seq<u64>,
    other_slope: Seq<u64>,
    after: Plant<S, A, C, M>,
    other_after: Plant<S, A, C, M>,
)
    requires
        is_determined(one.model),
        same_plant(one, other),
        rk4::answers(one, state, slope, after),
        rk4::answers(other, state, other_slope, other_after),
    ensures
        slope == other_slope,
        same_plant(after, other_after),
{
}

/// Plants that look the same take the same step.
proof fn steps_agree<S, A, C, M: DynamicModel>(
    one: Plant<S, A, C, M>,
    other: Plant<S, A, C, M>,
    operations: Operations,
    dt: u64,
    after: Plant<S, A, C, M>,
    other_after: Plant<S, A, C, M>,
)
    requires
        is_determined(one.model),
        same_plant(one, other),
        advances(one, operations, dt, after),
        advances(other, operations, dt, other_after),
    ensures
        same_plant(after, other_after),
{
    if one.states@.len() > 0 {
        let state = state_registry::gathered(one.states@, one.registry@.evaluation);
        let half = (operations.times)(double::HALF, dt);
        let (tried, next) = choose|tried: Plant<S, A, C, M>, next: Seq<u64>|
            {
                &&& #[trigger] RK4.steps(operations, state, dt, one, tried, next)
                &&& one.model.evaluates(
                    one.registry@.current,
                    state_registry::written(
                        one.states@,
                        next,
                        one.states@.len(),
                        tried.registry@.evaluation,
                    ),
                    after.registry@.evaluation,
                )
            };
        let (other_tried, other_next) = choose|tried: Plant<S, A, C, M>, next: Seq<u64>|
            {
                &&& #[trigger] RK4.steps(operations, state, dt, other, tried, next)
                &&& other.model.evaluates(
                    other.registry@.current,
                    state_registry::written(
                        other.states@,
                        next,
                        other.states@.len(),
                        tried.registry@.evaluation,
                    ),
                    other_after.registry@.evaluation,
                )
            };
        let (p, k) = choose|
            visited: (
                Plant<S, A, C, M>,
                Plant<S, A, C, M>,
                Plant<S, A, C, M>,
                Plant<S, A, C, M>,
                Plant<S, A, C, M>,
            ),
            slopes: (Seq<u64>, Seq<u64>, Seq<u64>, Seq<u64>),
        |
            {
                &&& #[trigger] rk4::four_answers(operations, state, dt, visited, slopes)
                &&& visited.0 == one
                &&& visited.4 == tried
                &&& next == rk4::combined(
                    operations,
                    state,
                    dt,
                    slopes.0,
                    slopes.1,
                    slopes.2,
                    slopes.3,
                )
            };
        let (q, l) = choose|
            visited: (
                Plant<S, A, C, M>,
                Plant<S, A, C, M>,
                Plant<S, A, C, M>,
                Plant<S, A, C, M>,
                Plant<S, A, C, M>,
            ),
            slopes: (Seq<u64>, Seq<u64>, Seq<u64>, Seq<u64>),
        |
            {
                &&& #[trigger] rk4::four_answers(operations, state, dt, visited, slopes)
                &&& visited.0 == other
                &&& visited.4 == other_tried
                &&& other_next == rk4::combined(
                    operations,
                    state,
                    dt,
                    slopes.0,
                    slopes.1,
                    slopes.2,
                    slopes.3,
                )
            };
        answers_agree(p.0, q.0, state, k.0, l.0, p.1, q.1);
        answers_agree(p.1, q.1, rk4::moved(operations, state, half, k.0), k.1, l.1, p.2, q.2);
        answers_agree(p.2, q.2, rk4::moved(operations, state, half, k.1), k.2, l.2, p.3, q.3);
        answers_agree(p.3, q.3, rk4::moved(operations, state, dt, k.2), k.3, l.3, p.4, q.4);
    }
}

/// The runtime is deterministic: plants that look the same and get the same commands under the same
/// control do the same in a tick and look the same after it, so they do so after any number of ticks.
/// Nothing but the model and the actuators could bring in chance.
pub proof fn the_runtime_is_deterministic<S, A: Actuator, C, M: DynamicModel>(
    one: Plant<S, A, C, M>,
    other: Plant<S, A, C, M>,
    control: ControlView,
    commands: Seq<(String, u64)>,
    operations: Operations,
    dt: u64,
    tick: Tick,
    after: Plant<S, A, C, M>,
    control_after: ControlView,
    other_tick: Tick,
    other_after: Plant<S, A, C, M>,
    other_control_after: ControlView,
)
    requires
        one.registry@.wf(),
        same_plant(one, other),
        is_determined(one.model),
        are_determined(one.registry@.actuators.items),
        ticks(one, control, commands, operations, dt, tick, after, control_after),
        ticks(
            other,
            control,
            commands,
            operations,
            dt,
            other_tick,
            other_after,
            other_control_after,
        ),
    ensures
        tick == other_tick,
        same_plant(after, other_after),
        control_after == other_control_after,
{
    let first = choose|ordered: Plant<S, A, C, M>|
        {
            &&& #[trigger] only_commanded(one, commands, ordered)
            &&& takes_its_turn(ordered, control, operations, dt, tick, after, control_after)
        };
    let second = choose|ordered: Plant<S, A, C, M>|
        {
            &&& #[trigger] only_commanded(other, commands, ordered)
            &&& takes_its_turn(
                ordered,
                control,
                operations,
                dt,
                other_tick,
                other_after,
                other_control_after,
            )
        };
    commands_have_one_outcome(
        one.registry@,
        commands,
        commands.len(),
        first.registry@.evaluation,
        second.registry@.evaluation,
    );
    assert(same_plant(first, second));
    if !control.reset_requested && !control.paused {
        let stepped = choose|stepped: Plant<S, A, C, M>|
            {
                &&& #[trigger] advances(first, operations, dt, stepped)
                &&& after.model == stepped.model
                &&& after.states == stepped.states
                &&& after.derivatives == stepped.derivatives
                &&& after.registry@ == stepped.registry@.committed()
            };
        let other_stepped = choose|stepped: Plant<S, A, C, M>|
            {
                &&& #[trigger] advances(second, operations, dt, stepped)
                &&& other_after.model == stepped.model
                &&& other_after.states == stepped.states
                &&& other_after.derivatives == stepped.derivatives
                &&& other_after.registry@ == stepped.registry@.committed()
            };
        steps_agree(first, second, operations, dt, stepped, other_stepped);
    }
}

} // verus!
