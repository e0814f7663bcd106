//! The configuration of a simulation, how its plant comes up, and how its end is reported.
//!
//! A simulation is a builder: a factory of a model, the path of a configuration, the pace on the wall,
//! the simulated step and the method of integration. Nothing is built before it is spawned. The
//! thread that the plant runs on is the caller's.
use crate::catalog::CatalogView;
use crate::component::{ComponentDescriptor, Construct};
use crate::dynamic_model::{Composite, CompositeDynamicModel, DynamicModel};
use crate::numerical_method::NumericalMethod;
use crate::order::OrderError;
use crate::plant::{AssemblyError, Plant, PlantBinding};
use crate::runtime_control::{ControlView, RuntimeControl};
use crate::sensor::model::{Ideal, Sensor};
use crate::snapshot::Snapshot;
use crate::state_registry::{RegistryView, StateRegistry};
use crate::{component, double, plant, snapshot, text};
use vstd::prelude::*;

verus! {

/// A simulation that was not spawned yet. `F` builds the model. `K` is the control that the plant runs
/// under: the control itself, or a handle on one that others hold too.
pub struct Simulation<F, K = RuntimeControl> {
    model_factory: Option<F>,
    config_path: Option<String>,
    tick_interval: u128,
    dt_hours: u64,
    numerical_method: NumericalMethod,
    runtime_control: K,
}

/// What a [`Simulation`] holds.
pub ghost struct SimulationView<F, K = RuntimeControl> {
    pub model_factory: Option<F>,
    pub config_path: Option<Seq<char>>,
    /// The pause between two ticks, in nanoseconds on the wall.
    pub tick_interval: u128,
    /// The simulated step, in hours.
    pub dt_hours: u64,
    pub numerical_method: NumericalMethod,
    pub runtime_control: K,
}

/// Half a second.
pub const DEFAULT_TICK_INTERVAL: u128 = 500_000_000;

/// An optional text.
pub open spec fn text_of(text: Option<String>) -> Option<Seq<char>> {
    match text {
        Some(text) => Some(text@),
        None => None,
    }
}

impl<F, K> SimulationView<F, K> {
    /// A simulation under a control, of which nothing else was set: a tick each half second, a
    /// simulated second per step, and Runge and Kutta's method.
    pub open spec fn unset(control: K) -> SimulationView<F, K> {
        SimulationView {
            model_factory: None,
            config_path: None,
            tick_interval: DEFAULT_TICK_INTERVAL,
            dt_hours: double::SECOND_IN_HOURS,
            numerical_method: NumericalMethod::RK4,
            runtime_control: control,
        }
    }

    /// Whether there is anything to simulate: a model, a configuration, or both.
    pub open spec fn is_configured(self) -> bool {
        self.model_factory is Some || self.config_path is Some
    }
}

/// A control that runs in real time, at the hour zero.
pub open spec fn fresh_control() -> ControlView {
    ControlView {
        paused: false,
        reset_requested: false,
        speed: double::ONE,
        t_h: double::ZERO,
    }
}

impl<F> Default for Simulation<F, RuntimeControl> {
    fn default() -> (simulation: Simulation<F, RuntimeControl>)
        ensures
            simulation@.runtime_control@ == fresh_control(),
            simulation@ == SimulationView::<F>::unset(simulation@.runtime_control),
    {
        Simulation::new()
    }
}

impl<F> Simulation<F, RuntimeControl> {
    /// A simulation with a control of its own.
    pub fn new() -> (simulation: Simulation<F, RuntimeControl>)
        ensures
            simulation@.runtime_control@ == fresh_control(),
            simulation@ == SimulationView::<F>::unset(simulation@.runtime_control),
    {
        Simulation::under(RuntimeControl::new())
    }
}

impl<F, K> Simulation<F, K> {
    pub closed spec fn view(&self) -> SimulationView<F, K> {
        SimulationView {
            model_factory: self.model_factory,
            config_path: text_of(self.config_path),
            tick_interval: self.tick_interval,
            dt_hours: self.dt_hours,
            numerical_method: self.numerical_method,
            runtime_control: self.runtime_control,
        }
    }

    /// A simulation whose plant is to run under this control.
    pub fn under(control: K) -> (simulation: Simulation<F, K>)
        ensures
            simulation@ == SimulationView::<F, K>::unset(control),
    {
        Simulation {
            model_factory: None,
            config_path: None,
            tick_interval: DEFAULT_TICK_INTERVAL,
            dt_hours: double::SECOND_IN_HOURS,
            numerical_method: NumericalMethod::RK4,
            runtime_control: control,
        }
    }

    /// The simulated step of one tick, in hours. It has nothing to do with the pause between ticks.
    pub fn set_dt_hours(&mut self, dt_hours: u64)
        ensures
            final(self)@ == (SimulationView { dt_hours, ..old(self)@ }),
    {
        self.dt_hours = dt_hours;
    }

    /// The pause between two ticks, in nanoseconds on the wall.
    pub fn set_tick_interval(&mut self, tick_interval: u128)
        ensures
            final(self)@ == (SimulationView { tick_interval, ..old(self)@ }),
    {
        self.tick_interval = tick_interval;
    }

    pub fn set_numerical_method(&mut self, numerical_method: NumericalMethod)
        ensures
            final(self)@ == (SimulationView { numerical_method, ..old(self)@ }),
    {
        self.numerical_method = numerical_method;
    }

    /// The control that the plant will run under. What is set here holds from the first tick on.
    pub fn runtime_control(&mut self) -> (control: &mut K)
        ensures
            *control == old(self)@.runtime_control,
            final(self)@ == (SimulationView { runtime_control: *final(control), ..old(self)@ }),
    {
        &mut self.runtime_control
    }

    /// The file with the initial values.
    pub fn set_config_path(&mut self, path: &str)
        ensures
            final(self)@ == (SimulationView { config_path: Some(path@), ..old(self)@ }),
    {
        self.config_path = Some(path.to_owned());
    }

    /// The factory of the model. It is called when the plant comes up, and not before.
    pub fn set_model(&mut self, factory: F)
        ensures
            final(self)@ == (SimulationView { model_factory: Some(factory), ..old(self)@ }),
    {
        self.model_factory = Some(factory);
    }

    /// Hands the configuration to the thread of the plant. It is an error where neither a model nor a
    /// configuration was set.
    pub fn spawn(self) -> (launch: Result<Launch<F, K>, String>)
        ensures
            match launch {
                Ok(launch) => self@.is_configured() && launch@ == self@,
                Err(message) => !self@.is_configured() && message@
                    == "spawn: nada configurado — chame set_model() e/ou set_config_path() antes"@,
            },
    {
        if self.model_factory.is_none() && self.config_path.is_none() {
            return Err(
                "spawn: nada configurado — chame set_model() e/ou set_config_path() antes".to_owned(),
            );
        }
        Ok(
            Launch {
                model_factory: self.model_factory,
                config_path: self.config_path,
                tick_interval: self.tick_interval,
                dt_hours: self.dt_hours,
                numerical_method: self.numerical_method,
                runtime_control: self.runtime_control,
            },
        )
    }

    /// Spawns the simulation and waits for its end. `plant_thread` runs the plant and gives the event
    /// that the plant reports last; it is not called where nothing is configured.
    pub fn run<T: FnOnce(Launch<F, K>) -> Option<ServiceEvent>>(self, plant_thread: T) -> (outcome:
        Result<(), String>)
        requires
            forall|launch: Launch<F, K>| #[trigger] call_requires(plant_thread, (launch,)),
        ensures
            if self@.is_configured() {
                exists|launch: Launch<F, K>, event: Option<ServiceEvent>| #[trigger]
                    call_ensures(plant_thread, (launch,), event) && launch@ == self@
                        && is_outcome(event, outcome)
            } else {
                outcome matches Err(message) && message@
                    == "spawn: nada configurado — chame set_model() e/ou set_config_path() antes"@
            },
    {
        match self.spawn() {
            Ok(launch) => {
                let event: Option<ServiceEvent> = plant_thread(launch);
                wait(event)
            },
            Err(message) => Err(message),
        }
    }
}

/// A simulation that was spawned: all that the thread of the plant needs.
pub struct Launch<F, K = RuntimeControl> {
    pub model_factory: Option<F>,
    pub config_path: Option<String>,
    pub tick_interval: u128,
    pub dt_hours: u64,
    pub numerical_method: NumericalMethod,
    pub runtime_control: K,
}

impl<F, K> Launch<F, K> {
    pub open spec fn view(&self) -> SimulationView<F, K> {
        SimulationView {
            model_factory: self.model_factory,
            config_path: text_of(self.config_path),
            tick_interval: self.tick_interval,
            dt_hours: self.dt_hours,
            numerical_method: self.numerical_method,
            runtime_control: self.runtime_control,
        }
    }
}

/// The plant runs under the control that was handed out before: a clone of the handle on the control,
/// taken at any time while the simulation was set up, is a clone of the handle that the launch holds.
/// Setting up changes other things than the control.
pub proof fn the_plant_runs_under_the_control_that_was_handed_out<F, K: Clone>(
    simulation: SimulationView<F, K>,
    handed_out: K,
    set_up: SimulationView<F, K>,
    launch: Launch<F, K>,
)
    requires
        cloned(simulation.runtime_control, handed_out),
        set_up == (SimulationView {
            model_factory: set_up.model_factory,
            config_path: set_up.config_path,
            tick_interval: set_up.tick_interval,
            dt_hours: set_up.dt_hours,
            numerical_method: set_up.numerical_method,
            ..simulation
        }),
        launch@ == set_up,
    ensures
        launch.runtime_control == simulation.runtime_control,
        cloned(launch.runtime_control, handed_out),
{
}

/// The last report of a plant.
pub enum ServiceEvent {
    /// It came to its end.
    Stopped,
    /// It gave up.
    Failed(String),
    /// It panicked.
    Panicked(String),
}

/// What a panic carries.
pub enum PanicPayload {
    Text(String),
    Other,
}

/// A readable message for what a panic carries.
pub fn panic_message(payload: PanicPayload) -> (message: String)
    ensures
        match payload {
            PanicPayload::Text(text) => message@ == text@,
            PanicPayload::Other => message@
                == "pânico sem mensagem legível (payload não é &str nem String)"@,
        },
{
    match payload {
        PanicPayload::Text(text) => text,
        PanicPayload::Other =>
            "pânico sem mensagem legível (payload não é &str nem String)".to_owned(),
    }
}

/// The report on how the thread of the plant went.
pub fn report(outcome: Result<(), PanicPayload>) -> (event: ServiceEvent)
    ensures
        match (outcome, event) {
            (Ok(_), ServiceEvent::Stopped) => true,
            (Err(PanicPayload::Text(text)), ServiceEvent::Panicked(message)) => message@ == text@,
            (Err(PanicPayload::Other), ServiceEvent::Panicked(message)) => message@
                == "pânico sem mensagem legível (payload não é &str nem String)"@,
            _ => false,
        },
{
    match outcome {
        Ok(_) => ServiceEvent::Stopped,
        Err(payload) => ServiceEvent::Panicked(panic_message(payload)),
    }
}

/// Whether this is what a simulation returns after that event. No event means that the thread was
/// gone before it reported.
pub open spec fn is_outcome(event: Option<ServiceEvent>, outcome: Result<(), String>) -> bool {
    match (event, outcome) {
        (Some(ServiceEvent::Stopped), Ok(_)) => true,
        (Some(ServiceEvent::Failed(reason)), Err(message)) => message@
            == "plant: encerrou com erro fatal: "@ + reason@,
        (Some(ServiceEvent::Panicked(reason)), Err(message)) => message@
            == "plant: entrou em pânico: "@ + reason@,
        (None, Err(message)) => message@
            == "wait: a plant thread não reportou nada — canal de lifecycle fechado inesperadamente"@,
        _ => false,
    }
}

/// What a simulation returns after its last event.
pub fn wait(event: Option<ServiceEvent>) -> (outcome: Result<(), String>)
    ensures
        is_outcome(event, outcome),
{
    match event {
        Some(ServiceEvent::Stopped) => Ok(()),
        Some(ServiceEvent::Failed(reason)) => Err(
            text::joined("plant: encerrou com erro fatal: ", reason.as_str()),
        ),
        Some(ServiceEvent::Panicked(reason)) => Err(
            text::joined("plant: entrou em pânico: ", reason.as_str()),
        ),
        None => Err(
            "wait: a plant thread não reportou nada — canal de lifecycle fechado inesperadamente".to_owned(),
        ),
    }
}

/// The initial values, or why there are none. Without a path every value is missing.
pub open spec fn loaded(path: Option<Seq<char>>, content: Result<Seq<char>, Seq<char>>) -> Result<
    CatalogView<u64>,
    Seq<char>,
> {
    match path {
        None => Ok(snapshot::holding(Seq::empty())),
        Some(path) => match snapshot::read_document(path, content) {
            Ok(values) => Ok(values),
            Err(reason) => Err(
                "plant thread: falha ao carregar config de '"@ + path + "': "@ + reason,
            ),
        },
    }
}

/// Loads the initial values. `content` is what is in the file, or why it could not be read; it counts
/// only where there is a path.
pub fn load_config(path: &Option<String>, content: Result<String, String>) -> (config: Result<
    Snapshot,
    String,
>)
    ensures
        match (config, loaded(text_of(*path), snapshot::content_of(content))) {
            (Ok(config), Ok(values)) => config@ == values,
            (Err(message), Err(wanted)) => message@ == wanted,
            _ => false,
        },
{
    match path {
        None => {
            let config: Snapshot = Snapshot::from_pairs(&[]);
            assert(config@ =~= snapshot::holding(Seq::empty()));
            Ok(config)
        },
        Some(path) => match Snapshot::from_file(path.as_str(), content) {
            Ok(config) => Ok(config),
            Err(reason) => {
                let mut message: String = text::framed(
                    "plant thread: falha ao carregar config de '",
                    path.as_str(),
                    "': ",
                );
                message.append(reason.as_str());
                Err(message)
            },
        },
    }
}

/// Whether the factory may lead from `before` to `after` and give these models: the model, or none
/// where there is no factory.
pub open spec fn modelled<S, A, C, M, F: Construct<S, A, C, M>>(
    factory: Option<F>,
    config: CatalogView<u64>,
    before: RegistryView<S, A, C>,
    models: Seq<M>,
    after: RegistryView<S, A, C>,
) -> bool {
    match factory {
        Some(factory) => exists|built: Option<M>| #[trigger]
            factory.builds(before, config, built, after) && models == component::models_built(
                seq![built],
            ),
        None => after == before && models == Seq::<M>::empty(),
    }
}

/// Whether building a whole plant may lead from `before` to `after` and give a root with these
/// children: the model of the factory first, and after it the discovered components.
pub open spec fn rooted<S, A, C, M, F: Construct<S, A, C, M>, D: Construct<S, A, C, M>>(
    factory: Option<F>,
    discovered: Seq<ComponentDescriptor<D>>,
    config: CatalogView<u64>,
    before: RegistryView<S, A, C>,
    children: Seq<M>,
    after: RegistryView<S, A, C>,
) -> bool {
    exists|first: Seq<M>, between: RegistryView<S, A, C>, rest: Seq<M>|
        {
            &&& #[trigger] modelled(factory, config, before, first, between)
            &&& #[trigger] component::attached(discovered, config, between, rest, after)
            &&& children == first + rest
        }
}

/// Builds the root of the plant: the model of the factory, if there is one, and after it the
/// discovered components.
pub fn assemble_root<
    S,
    A,
    C,
    M: DynamicModel,
    F: Construct<S, A, C, M>,
    D: Construct<S, A, C, M>,
>(
    factory: &Option<F>,
    discovered: Vec<ComponentDescriptor<D>>,
    registry: &mut StateRegistry<S, A, C>,
    config: &Snapshot,
) -> (root: Result<Composite<M>, OrderError>)
    requires
        *factory matches Some(factory) ==> factory.constructible(),
        component::all_constructible::<S, A, C, M, D>(discovered@),
        old(registry)@.wf(),
    ensures
        final(registry)@.wf(),
        final(registry)@.extends(old(registry)@),
        match root {
            Ok(root) => {
                &&& component::attachable::<S, A, C, M, D>(discovered@)
                &&& root.title() == "unnamed"@
                &&& rooted(
                    *factory,
                    discovered@,
                    config@,
                    old(registry)@,
                    root.parts(),
                    final(registry)@,
                )
            },
            Err(error) => component::not_attached::<S, A, C, M, D>(discovered@, error),
        },
{
    let ghost before = registry@;
    let ghost all = discovered@;
    let mut root: Composite<M> = Composite::new();
    let ghost mut first: Seq<M> = Seq::empty();
    match factory {
        Some(factory) => {
            let built: Option<M> = factory.construct(registry, config);
            let ghost alone = seq![built];
            proof {
                assert(alone.drop_last() =~= Seq::empty());
                assert(component::models_built(alone.drop_last()) =~= Seq::<M>::empty());
                first = component::models_built(alone);
                assert(factory.builds(before, config@, built, registry@));
            }
            match built {
                Some(model) => {
                    root.add_dynamic(model);
                },
                None => {},
            }
            assert(root.parts() =~= first);
        },
        None => {},
    }
    let ghost between = registry@;
    assert(modelled::<S, A, C, M, F>(*factory, config@, before, first, between));
    match component::attach_discovered_components(discovered, &mut root, registry, config) {
        Ok(_) => {
            proof {
                let rest = choose|rest: Seq<M>| #[trigger]
                    component::attached(all, config@, between, rest, registry@) && root.parts()
                        == first + rest;
                assert(component::attached(all, config@, between, rest, registry@));
            }
            Ok(root)
        },
        Err(error) => Err(error),
    }
}

/// Why a plant did not come up.
pub enum StartError {
    Config(String),
    Order(OrderError),
    Assembly(AssemblyError),
}

/// Whether the plant of a simulation may come up so.
pub open spec fn starts<
    S: Clone,
    A,
    C,
    M: DynamicModel,
    F: Construct<S, A, C, M>,
    K,
    D: Construct<S, A, C, M>,
    G: Fn(Sensor<Ideal>) -> (S, S),
>(
    simulation: SimulationView<F, K>,
    content: Result<Seq<char>, Seq<char>>,
    discovered: Seq<ComponentDescriptor<D>>,
    share: G,
    started: Result<(Plant<S, A, C, Composite<M>>, PlantBinding<S>), StartError>,
) -> bool {
    match loaded(simulation.config_path, content) {
        Err(reason) => started matches Err(StartError::Config(message)) && message@ == reason,
        Ok(config) => match started {
            Err(StartError::Config(_)) => false,
            Err(StartError::Order(error)) => component::not_attached::<S, A, C, M, D>(
                discovered,
                error,
            ),
            Err(StartError::Assembly(error)) => component::attachable::<S, A, C, M, D>(
                discovered,
            ) && comes_up(
                simulation.model_factory,
                discovered,
                config,
                share,
                Err::<(Plant<S, A, C, Composite<M>>, PlantBinding<S>), AssemblyError>(error),
            ),
            Ok(plant) => component::attachable::<S, A, C, M, D>(discovered) && comes_up(
                simulation.model_factory,
                discovered,
                config,
                share,
                Ok::<(Plant<S, A, C, Composite<M>>, PlantBinding<S>), AssemblyError>(plant),
            ),
        },
    }
}

/// Whether assembling the root that these components make up may come out so. All of it begins with
/// an empty registry.
pub open spec fn comes_up<
    S: Clone,
    A,
    C,
    M: DynamicModel,
    F: Construct<S, A, C, M>,
    D: Construct<S, A, C, M>,
    G: Fn(Sensor<Ideal>) -> (S, S),
>(
    factory: Option<F>,
    discovered: Seq<ComponentDescriptor<D>>,
    config: CatalogView<u64>,
    share: G,
    assembled: Result<(Plant<S, A, C, Composite<M>>, PlantBinding<S>), AssemblyError>,
) -> bool {
    exists|root: Composite<M>, registry: RegistryView<S, A, C>|
        {
            &&& rooted(
                factory,
                discovered,
                config,
                RegistryView::<S, A, C>::empty(),
                root.parts(),
                registry,
            )
            &&& root.title() == "unnamed"@
            &&& #[trigger] plant::assembles(registry, root, share, assembled)
        }
}

impl<F, K> Launch<F, K> {
    /// Brings the plant up: loads the initial values, builds the model and the discovered components,
    /// and assembles the plant from them.
    pub fn start<
        S: Clone,
        A,
        C,
        M: DynamicModel,
        D: Construct<S, A, C, M>,
        G: Fn(Sensor<Ideal>) -> (S, S) + Copy,
    >(
        self,
        content: Result<String, String>,
        discovered: Vec<ComponentDescriptor<D>>,
        share: G,
    ) -> (started: Result<(Plant<S, A, C, Composite<M>>, PlantBinding<S>), StartError>)
        where
            F: Construct<S, A, C, M>,
        requires
            self.model_factory matches Some(factory) ==> factory.constructible(),
            component::all_constructible::<S, A, C, M, D>(discovered@),
            forall|sensor: Sensor<Ideal>| #[trigger] call_requires(share, (sensor,)),
        ensures
            starts(self@, snapshot::content_of(content), discovered@, share, started),
    {
        let config: Snapshot = match load_config(&self.config_path, content) {
            Ok(config) => config,
            Err(message) => {
                return Err(StartError::Config(message));
            },
        };
        let mut registry: StateRegistry<S, A, C> = StateRegistry::new();
        let ghost all = discovered@;
        let root: Composite<M> = match assemble_root(
            &self.model_factory,
            discovered,
            &mut registry,
            &config,
        ) {
            Ok(root) => root,
            Err(error) => {
                return Err(StartError::Order(error));
            },
        };
        let ghost built = registry@;
        let ghost whole = root;
        match Plant::assemble(registry, root, share) {
            Ok(started) => {
                assert(plant::assembles(
                    built,
                    whole,
                    share,
                    Ok::<(Plant<S, A, C, Composite<M>>, PlantBinding<S>), AssemblyError>(started),
                ));
                Ok(started)
            },
            Err(error) => {
                assert(plant::assembles(
                    built,
                    whole,
                    share,
                    Err::<(Plant<S, A, C, Composite<M>>, PlantBinding<S>), AssemblyError>(error),
                ));
                Err(StartError::Assembly(error))
            },
        }
    }
}

} // verus!
