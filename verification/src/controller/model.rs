//! A controller that declares which sensors and actuators it works with.
use crate::catalog::{Catalog, CatalogView};
use crate::controller;
use crate::dynamic_model::DynamicModel;
use crate::state_registry::{
    ActuatorHandle, CurrentState, CurrentView, EvaluationState, EvaluationView, Layout, Outline,
    RegistryView, SensorHandle, StateRegistry,
};
use crate::{state_registry, text};
use vstd::prelude::*;

verus! {

/// Handles on named sensors and actuators.
pub struct Controller {
    sensors: Catalog<SensorHandle>,
    actuators: Catalog<ActuatorHandle>,
}

/// What a [`Controller`] holds.
pub ghost struct ControllerView {
    pub sensors: CatalogView<SensorHandle>,
    pub actuators: CatalogView<ActuatorHandle>,
}

/// Whether a new controller that asks for these names stands in the catalog.
pub open spec fn controller_registered<S, A, C>(
    before: RegistryView<S, A, C>,
    name: Seq<char>,
    sensors: Seq<Seq<char>>,
    actuators: Seq<Seq<char>>,
    controller: Controller,
    item: C,
    after: RegistryView<S, A, C>,
) -> bool {
    &&& after == RegistryView {
        sensor_links: state_registry::asking(before.sensor_links, sensors),
        actuator_links: state_registry::asking(before.actuator_links, actuators),
        controllers: before.controllers.offered(name, item),
        ..before
    }
    &&& controller@.sensors.names == sensors
    &&& controller@.actuators.names == actuators
    &&& controller@.sensors.wf()
    &&& controller@.actuators.wf()
    &&& forall|i: int|
        0 <= i < sensors.len() ==> (#[trigger] controller@.sensors.items[i]).number()
            == before.sensor_links.bindings.len() + i
    &&& forall|i: int|
        0 <= i < actuators.len() ==> (#[trigger] controller@.actuators.items[i]).number()
            == before.actuator_links.bindings.len() + i
}

impl Controller {
    pub closed spec fn view(&self) -> ControllerView {
        ControllerView { sensors: self.sensors@, actuators: self.actuators@ }
    }

    /// A controller that asks for sensors and actuators by name, and stands in the catalog under
    /// `name`. Whoever offers those names may do so earlier or later. `share` makes the controller
    /// into two handles on it, the first for the catalog and the second for the caller.
    pub fn new<S, A, C, G: FnOnce(Controller) -> (C, C)>(
        registry: &mut StateRegistry<S, A, C>,
        name: &str,
        sensors: &[&str],
        actuators: &[&str],
        share: G,
    ) -> (shared: C)
        requires
            old(registry)@.wf(),
            forall|controller: Controller| #[trigger] call_requires(share, (controller,)),
        ensures
            final(registry)@.wf(),
            exists|controller: Controller, item: C| #[trigger]
                controller_registered(
                    old(registry)@,
                    name@,
                    text::strs(sensors@),
                    text::strs(actuators@),
                    controller,
                    item,
                    final(registry)@,
                ) && call_ensures(share, (controller,), (item, shared)),
    {
        let ghost before = registry@;
        let ghost sensor_names = text::strs(sensors@);
        let ghost actuator_names = text::strs(actuators@);
        let mut sensor_handles: Catalog<SensorHandle> = Catalog::new();
        let mut i: usize = 0;
        assert(sensor_handles@.names =~= sensor_names.take(0));
        assert(registry@.sensor_links =~= state_registry::asking(
            before.sensor_links,
            sensor_names.take(0),
        ));
        while i < sensors.len()
            invariant
                i <= sensors@.len(),
                sensor_names == text::strs(sensors@),
                registry@.wf(),
                registry@ == (RegistryView {
                    sensor_links: state_registry::asking(
                        before.sensor_links,
                        sensor_names.take(i as int),
                    ),
                    ..before
                }),
                sensor_handles@.wf(),
                sensor_handles@.names == sensor_names.take(i as int),
                forall|k: int|
                    0 <= k < i ==> (#[trigger] sensor_handles@.items[k]).number()
                        == before.sensor_links.bindings.len() + k,
            decreases sensors@.len() - i,
        {
            let handle = registry.need_sensor(sensors[i]);
            sensor_handles.offer(sensors[i], handle);
            proof {
                let next = state_registry::asking(before.sensor_links, sensor_names.take(i + 1));
                assert(registry@.sensor_links.bindings =~= next.bindings);
                assert(registry@.sensor_links.pending =~= next.pending);
                assert(sensor_handles@.names =~= sensor_names.take(i + 1));
            }
            i = i + 1;
        }
        assert(sensor_names.take(i as int) =~= sensor_names);
        let ghost middle = registry@;
        let mut actuator_handles: Catalog<ActuatorHandle> = Catalog::new();
        let mut j: usize = 0;
        assert(actuator_handles@.names =~= actuator_names.take(0));
        assert(registry@.actuator_links =~= state_registry::asking(
            middle.actuator_links,
            actuator_names.take(0),
        ));
        while j < actuators.len()
            invariant
                j <= actuators@.len(),
                actuator_names == text::strs(actuators@),
                registry@.wf(),
                registry@ == (RegistryView {
                    actuator_links: state_registry::asking(
                        middle.actuator_links,
                        actuator_names.take(j as int),
                    ),
                    ..middle
                }),
                actuator_handles@.wf(),
                actuator_handles@.names == actuator_names.take(j as int),
                forall|k: int|
                    0 <= k < j ==> (#[trigger] actuator_handles@.items[k]).number()
                        == middle.actuator_links.bindings.len() + k,
            decreases actuators@.len() - j,
        {
            let handle = registry.need_actuator(actuators[j]);
            actuator_handles.offer(actuators[j], handle);
            proof {
                let next = state_registry::asking(
                    middle.actuator_links,
                    actuator_names.take(j + 1),
                );
                assert(registry@.actuator_links.bindings =~= next.bindings);
                assert(registry@.actuator_links.pending =~= next.pending);
                assert(actuator_handles@.names =~= actuator_names.take(j + 1));
            }
            j = j + 1;
        }
        assert(actuator_names.take(j as int) =~= actuator_names);
        let controller = Controller { sensors: sensor_handles, actuators: actuator_handles };
        let ghost made = controller;
        let (item, shared) = share(controller);
        let ghost stored = item;
        registry.offer_controller(name, item);
        assert(controller_registered(
            before,
            name@,
            sensor_names,
            actuator_names,
            made,
            stored,
            registry@,
        ));
        shared
    }

    /// The sensor that was asked for under `name`. Nothing where the name was not asked for.
    pub fn sensor<'a, S, A, C>(
        &self,
        registry: &'a StateRegistry<S, A, C>,
        name: &str,
    ) -> (sensor: Option<&'a S>)
        requires
            self@.sensors.found(name@) matches Some(handle) ==> registry@.sensor_resolved(handle),
        ensures
            match (sensor, self@.sensors.found(name@)) {
                (Some(sensor), Some(handle)) => *sensor
                    == registry@.sensors.items[registry@.sensor_links.position(
                    handle.number(),
                )->0 as int],
                (None, None) => true,
                _ => false,
            },
    {
        match self.sensors.find(name) {
            Some(handle) => Some(handle.sensor(registry)),
            None => None,
        }
    }

    /// The actuator that was asked for under `name`. Nothing where the name was not asked for.
    pub fn actuator<'a, S, A, C>(
        &self,
        registry: &'a StateRegistry<S, A, C>,
        name: &str,
    ) -> (actuator: Option<&'a A>)
        requires
            self@.actuators.found(name@) matches Some(handle) ==> registry@.actuator_resolved(
                handle,
            ),
        ensures
            match (actuator, self@.actuators.found(name@)) {
                (Some(actuator), Some(handle)) => *actuator
                    == registry@.actuators.items[registry@.actuator_links.position(
                    handle.number(),
                )->0 as int],
                (None, None) => true,
                _ => false,
            },
    {
        match self.actuators.find(name) {
            Some(handle) => Some(handle.actuator(registry)),
            None => None,
        }
    }
}

impl controller::Controller for Controller {

}

/// A controller has its place in the order of evaluation, behind all actuators, and changes
/// nothing by itself.
impl DynamicModel for Controller {
    open spec fn title(&self) -> Seq<char> {
        "unnamed"@
    }

    open spec fn integrable(&self) -> Seq<Seq<char>> {
        Seq::empty()
    }

    open spec fn ready(&self, outline: Outline, layout: Layout) -> bool {
        true
    }

    open spec fn evaluates(
        &self,
        current: CurrentView,
        before: EvaluationView,
        after: EvaluationView,
    ) -> bool {
        after == before
    }

    fn name(&self) -> (name: &str) {
        "unnamed"
    }

    fn evaluate(&self, current: &CurrentState, state: &mut EvaluationState) {
    }

    fn state_keys(&self) -> (keys: Vec<String>) {
        let keys: Vec<String> = Vec::new();
        assert(text::texts(keys@) =~= Seq::empty());
        keys
    }
}

} // verus!
