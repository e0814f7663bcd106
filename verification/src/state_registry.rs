//! The registry in which the components of a plant meet.
//!
//! Two buffers are kept apart. [`EvaluationState`] is the working copy of an evaluation round: it
//! may hold values that an integrator only tries out, and every [`Proxy`] addresses it.
//! [`CurrentState`] is the last confirmed state, and every [`ReadProxy`] addresses it.
//! [`StateRegistry::commit`] copies the one into the other.
//!
//! Places are append-only. A component that offers a key gets its place at once; one that needs a
//! key gets a handle that [`StateRegistry::resolve`] points at the place later, so the order in
//! which components subscribe does not matter. A handle that has a place keeps it for good.
//!
//! Signal values are 64-bit patterns of IEEE 754 doubles. The registry stores and hands them out and
//! never computes with them; the pattern of zero is `0`.
use crate::actuator::Actuator;
use crate::catalog::{Catalog, CatalogView};
use crate::dynamic_model::DynamicModel;
use crate::links::{Links, LinksView};
use crate::{links, text};
use vstd::prelude::*;

verus! {

/// A handle on one slot of an [`EvaluationState`]. Copies address the same slot.
#[derive(Clone, Copy)]
pub struct Proxy {
    ticket: usize,
}

/// A read-only handle on one slot of a [`CurrentState`].
#[derive(Clone, Copy)]
pub struct ReadProxy {
    ticket: usize,
}

/// A handle on a catalogued sensor.
#[derive(Clone, Copy)]
pub struct SensorHandle {
    ticket: usize,
}

/// A handle on a catalogued actuator.
#[derive(Clone, Copy)]
pub struct ActuatorHandle {
    ticket: usize,
}

/// A handle on the command that was last written to an actuator.
#[derive(Clone, Copy)]
pub struct CommandCell {
    cell: usize,
}

/// One named slot of a [`StateRegistry::snapshot`].
pub struct StateSlot {
    pub key: String,
    pub value: u64,
}

/// The working copy of one evaluation round.
pub struct EvaluationState {
    values: Vec<u64>,
    links: Links,
    commands: Vec<u64>,
}

/// What an [`EvaluationState`] holds.
#[verifier::ext_equal]
pub struct EvaluationView {
    pub values: Seq<u64>,
    pub links: LinksView,
    pub commands: Seq<u64>,
}

/// What an evaluation round cannot change: how many slots and commands there are, and which slot
/// each proxy addresses.
#[verifier::ext_equal]
pub struct Layout {
    pub slots: nat,
    pub links: LinksView,
    pub commands: nat,
}

impl Layout {
    pub open spec fn position(self, proxy: Proxy) -> Option<usize> {
        self.links.position(proxy.number())
    }

    /// Whether the proxy addresses a slot.
    pub open spec fn resolved(self, proxy: Proxy) -> bool {
        self.position(proxy) matches Some(p) && p < self.slots
    }

    pub open spec fn has_command(self, cell: CommandCell) -> bool {
        0 <= cell.number() < self.commands
    }

    /// Whether every proxy and every command cell that the registry ever handed out works here.
    pub open spec fn serves<S, A, C>(self, registry: RegistryView<S, A, C>) -> bool {
        &&& self.commands >= registry.evaluation.commands.len()
        &&& forall|proxy: Proxy|
            0 <= proxy.number() < registry.evaluation.links.bindings.len()
                ==> #[trigger] self.resolved(proxy)
    }
}

impl EvaluationView {
    pub open spec fn layout(self) -> Layout {
        Layout { slots: self.values.len(), links: self.links, commands: self.commands.len() }
    }

    pub open spec fn get(self, proxy: Proxy) -> u64 {
        self.values[self.layout().position(proxy)->0 as int]
    }

    pub open spec fn set(self, proxy: Proxy, value: u64) -> EvaluationView {
        EvaluationView {
            values: self.values.update(self.layout().position(proxy)->0 as int, value),
            ..self
        }
    }

    pub open spec fn command(self, cell: CommandCell) -> u64 {
        self.commands[cell.number()]
    }

    pub open spec fn commanded(self, cell: CommandCell, value: u64) -> EvaluationView {
        EvaluationView { commands: self.commands.update(cell.number(), value), ..self }
    }
}

impl EvaluationState {
    pub closed spec fn view(&self) -> EvaluationView {
        EvaluationView { values: self.values@, links: self.links@, commands: self.commands@ }
    }

    /// A buffer without slots.
    pub fn empty() -> (state: EvaluationState)
        ensures
            state@ == (EvaluationView {
                values: Seq::empty(),
                links: no_links(),
                commands: Seq::empty(),
            }),
    {
        EvaluationState { values: Vec::new(), links: Links::new(), commands: Vec::new() }
    }

    /// Whether the proxy addresses a slot of this buffer.
    pub fn is_resolved(&self, proxy: &Proxy) -> (yes: bool)
        ensures
            yes == self@.layout().resolved(*proxy),
    {
        match self.links.position(proxy.ticket) {
            Some(p) => p < self.values.len(),
            None => false,
        }
    }

    /// Whether the command cell belongs to this buffer.
    pub fn has_command(&self, cell: &CommandCell) -> (yes: bool)
        ensures
            yes == self@.layout().has_command(*cell),
    {
        cell.cell < self.commands.len()
    }
}

impl Proxy {
    pub closed spec fn number(self) -> int {
        self.ticket as int
    }

    pub fn get(&self, state: &EvaluationState) -> (value: u64)
        requires
            state@.layout().resolved(*self),
        ensures
            value == state@.get(*self),
    {
        match state.links.position(self.ticket) {
            Some(p) => state.values[p],
            None => 0,
        }
    }

    pub fn set(&self, state: &mut EvaluationState, value: u64)
        requires
            old(state)@.layout().resolved(*self),
        ensures
            final(state)@ == old(state)@.set(*self, value),
            final(state)@.layout() == old(state)@.layout(),
    {
        match state.links.position(self.ticket) {
            Some(p) => {
                state.values.set(p, value);
            },
            None => {},
        }
    }
}

/// The values of a list of slots.
pub open spec fn gathered(proxies: Seq<Proxy>, state: EvaluationView) -> Seq<u64> {
    Seq::new(proxies.len(), |i: int| state.get(proxies[i]))
}

/// The state after the first `n` slots are written, one after the other.
pub open spec fn written(
    proxies: Seq<Proxy>,
    values: Seq<u64>,
    n: nat,
    before: EvaluationView,
) -> EvaluationView
    decreases n,
{
    if n == 0 {
        before
    } else {
        written(proxies, values, (n - 1) as nat, before).set(proxies[n - 1], values[n - 1])
    }
}

/// Whether each proxy addresses a slot.
pub open spec fn all_resolved(proxies: Seq<Proxy>, layout: Layout) -> bool {
    forall|i: int| 0 <= i < proxies.len() ==> layout.resolved(#[trigger] proxies[i])
}

/// Reads a list of slots.
pub fn gather(proxies: &Vec<Proxy>, state: &EvaluationState) -> (values: Vec<u64>)
    requires
        all_resolved(proxies@, state@.layout()),
    ensures
        values@ == gathered(proxies@, state@),
{
    let mut values: Vec<u64> = Vec::new();
    let mut i: usize = 0;
    while i < proxies.len()
        invariant
            i <= proxies@.len(),
            all_resolved(proxies@, state@.layout()),
            values@.len() == i,
            forall|k: int| 0 <= k < i ==> #[trigger] values@[k] == state@.get(proxies@[k]),
        decreases proxies@.len() - i,
    {
        values.push(proxies[i].get(state));
        i = i + 1;
    }
    assert(values@ =~= gathered(proxies@, state@));
    values
}

/// Writes a list of slots.
pub fn scatter(proxies: &Vec<Proxy>, state: &mut EvaluationState, values: &Vec<u64>)
    requires
        all_resolved(proxies@, old(state)@.layout()),
        values@.len() == proxies@.len(),
    ensures
        final(state)@ == written(proxies@, values@, proxies@.len(), old(state)@),
        final(state)@.layout() == old(state)@.layout(),
{
    let ghost before = state@;
    let mut i: usize = 0;
    while i < proxies.len()
        invariant
            i <= proxies@.len(),
            values@.len() == proxies@.len(),
            all_resolved(proxies@, before.layout()),
            state@.layout() == before.layout(),
            state@ == written(proxies@, values@, i as nat, before),
        decreases proxies@.len() - i,
    {
        proxies[i].set(state, values[i]);
        i = i + 1;
    }
}

impl CommandCell {
    pub closed spec fn number(self) -> int {
        self.cell as int
    }

    pub fn get(&self, state: &EvaluationState) -> (value: u64)
        requires
            state@.layout().has_command(*self),
        ensures
            value == state@.command(*self),
    {
        state.commands[self.cell]
    }

    pub fn set(&self, state: &mut EvaluationState, value: u64)
        requires
            old(state)@.layout().has_command(*self),
        ensures
            final(state)@ == old(state)@.commanded(*self, value),
            final(state)@.layout() == old(state)@.layout(),
    {
        state.commands.set(self.cell, value);
    }
}

/// The last confirmed state. `generation` counts the commits, so two readings with the same
/// generation come from the same round.
pub struct CurrentState {
    generation: u64,
    values: Vec<u64>,
    links: Links,
}

/// What a [`CurrentState`] holds.
#[verifier::ext_equal]
pub struct CurrentView {
    pub generation: u64,
    pub values: Seq<u64>,
    pub links: LinksView,
}

/// What a commit cannot change once every slot has room in the confirmed state: how many slots
/// there are, and which slot each read proxy addresses.
#[verifier::ext_equal]
pub struct Outline {
    pub slots: nat,
    pub links: LinksView,
}

impl Outline {
    /// Whether the proxy addresses a slot.
    pub open spec fn resolved(self, proxy: ReadProxy) -> bool {
        self.links.position(proxy.number()) matches Some(p) && p < self.slots
    }
}

impl CurrentView {
    pub open spec fn outline(self) -> Outline {
        Outline { slots: self.values.len(), links: self.links }
    }

    pub open spec fn position(self, proxy: ReadProxy) -> Option<usize> {
        self.links.position(proxy.number())
    }

    /// Whether the proxy addresses a slot.
    pub open spec fn resolved(self, proxy: ReadProxy) -> bool {
        self.position(proxy) matches Some(p) && p < self.values.len()
    }

    pub open spec fn get(self, proxy: ReadProxy) -> u64 {
        self.values[self.position(proxy)->0 as int]
    }

    /// The values padded with zeros to at least `n` slots.
    pub open spec fn with_capacity(self, n: nat) -> CurrentView {
        CurrentView {
            values: if self.values.len() < n {
                self.values + Seq::new((n - self.values.len()) as nat, |i: int| 0u64)
            } else {
                self.values
            },
            ..self
        }
    }
}

impl CurrentState {
    pub closed spec fn view(&self) -> CurrentView {
        CurrentView { generation: self.generation, values: self.values@, links: self.links@ }
    }

    pub fn generation(&self) -> (generation: u64)
        ensures
            generation == self@.generation,
    {
        self.generation
    }

    /// Whether the proxy addresses a slot of this state.
    pub fn is_resolved(&self, proxy: &ReadProxy) -> (yes: bool)
        ensures
            yes == self@.resolved(*proxy),
    {
        match self.links.position(proxy.ticket) {
            Some(p) => p < self.values.len(),
            None => false,
        }
    }

    /// A copy of the confirmed state, for readers in another thread.
    pub fn duplicate(&self) -> (copy: CurrentState)
        ensures
            copy@ == self@,
    {
        let mut values: Vec<u64> = Vec::new();
        let mut i: usize = 0;
        while i < self.values.len()
            invariant
                i <= self.values@.len(),
                values@ == self.values@.take(i as int),
            decreases self.values@.len() - i,
        {
            values.push(self.values[i]);
            i = i + 1;
            assert(values@ =~= self.values@.take(i as int));
        }
        assert(values@ =~= self.values@);
        CurrentState { generation: self.generation, values, links: self.links.duplicate() }
    }

    fn reserve(&mut self, n: usize)
        ensures
            final(self)@ == old(self)@.with_capacity(n as nat),
    {
        let ghost before = self@;
        while self.values.len() < n
            invariant
                self@ == before.with_capacity(self.values@.len()),
                before.values.len() <= self.values@.len(),
                self.values@.len() <= n || self.values@.len() == before.values.len(),
            decreases n - self.values@.len(),
        {
            self.values.push(0);
            assert(self@ =~= before.with_capacity(self.values@.len()));
        }
        assert(self@ =~= before.with_capacity(n as nat));
    }
}

impl ReadProxy {
    pub closed spec fn number(self) -> int {
        self.ticket as int
    }

    /// The confirmed value.
    pub fn get(&self, current: &CurrentState) -> (value: u64)
        requires
            current@.resolved(*self),
        ensures
            value == current@.get(*self),
    {
        match current.links.position(self.ticket) {
            Some(p) => current.values[p],
            None => 0,
        }
    }

    /// The confirmed value with the generation that it belongs to.
    pub fn get_versioned(&self, current: &CurrentState) -> (versioned: (u64, u64))
        requires
            current@.resolved(*self),
        ensures
            versioned == (current@.generation, current@.get(*self)),
    {
        (current.generation, self.get(current))
    }
}

impl SensorHandle {
    pub closed spec fn number(self) -> int {
        self.ticket as int
    }

    pub fn sensor<'a, S, A, C>(&self, registry: &'a StateRegistry<S, A, C>) -> (sensor: &'a S)
        requires
            registry@.sensor_resolved(*self),
        ensures
            *sensor == registry@.sensors.items[registry@.sensor_links.position(
                self.number(),
            )->0 as int],
    {
        match registry.sensor_links.position(self.ticket) {
            Some(p) => registry.sensors.at(p),
            None => registry.sensors.at(0),
        }
    }
}

impl ActuatorHandle {
    pub closed spec fn number(self) -> int {
        self.ticket as int
    }

    pub fn actuator<'a, S, A, C>(&self, registry: &'a StateRegistry<S, A, C>) -> (actuator: &'a A)
        requires
            registry@.actuator_resolved(*self),
        ensures
            *actuator == registry@.actuators.items[registry@.actuator_links.position(
                self.number(),
            )->0 as int],
    {
        match registry.actuator_links.position(self.ticket) {
            Some(p) => registry.actuators.at(p),
            None => registry.actuators.at(0),
        }
    }
}

/// The registry of one simulation: the two state buffers, the keys of their slots, and the catalogs
/// of sensors, actuators and controllers.
pub struct StateRegistry<S, A, C> {
    current: CurrentState,
    evaluation: EvaluationState,
    keys: Vec<String>,
    sensors: Catalog<S>,
    sensor_links: Links,
    actuators: Catalog<A>,
    actuator_links: Links,
    controllers: Catalog<C>,
}

/// What a [`StateRegistry`] holds. `keys[i]` is the key under which slot `i` was offered.
#[verifier::ext_equal]
pub struct RegistryView<S, A, C> {
    pub current: CurrentView,
    pub evaluation: EvaluationView,
    pub keys: Seq<Seq<char>>,
    pub sensors: CatalogView<S>,
    pub sensor_links: LinksView,
    pub actuators: CatalogView<A>,
    pub actuator_links: LinksView,
    pub controllers: CatalogView<C>,
}

pub open spec fn no_links() -> LinksView {
    LinksView { bindings: Seq::empty(), pending: Seq::empty() }
}

pub open spec fn missing_slot(key: Seq<char>) -> Seq<char> {
    "input '"@ + key
        + "' declarado em subscribe() mas nenhum componente oferece esse slot"@
}

pub open spec fn missing_read_slot(key: Seq<char>) -> Seq<char> {
    "input '"@ + key
        + "' declarado em subscribe_read() mas nenhum componente oferece esse slot"@
}

pub open spec fn missing_sensor(name: Seq<char>) -> Seq<char> {
    "sensor '"@ + name
        + "' declarado em need_sensor() mas nenhum offer_sensor() com esse nome"@
}

pub open spec fn missing_actuator(name: Seq<char>) -> Seq<char> {
    "atuador '"@ + name
        + "' declarado em need_actuator() mas nenhum offer_actuator() com esse nome"@
}

impl<S, A, C> RegistryView<S, A, C> {
    pub open spec fn wf(self) -> bool {
        &&& self.keys.len() == self.evaluation.values.len()
        &&& self.keys.len() <= usize::MAX
        &&& self.current.values.len() <= self.evaluation.values.len()
        &&& self.evaluation.links.wf()
        &&& self.current.links.wf()
        &&& self.sensor_links.wf()
        &&& self.actuator_links.wf()
        &&& self.evaluation.links.within(self.keys.len())
        &&& self.current.links.within(self.keys.len())
        &&& self.sensor_links.within(self.sensors.items.len())
        &&& self.actuator_links.within(self.actuators.items.len())
        &&& self.sensors.wf()
        &&& self.actuators.wf()
        &&& self.controllers.wf()
    }

    pub open spec fn empty() -> RegistryView<S, A, C> {
        RegistryView {
            current: CurrentView { generation: 0, values: Seq::empty(), links: no_links() },
            evaluation: EvaluationView {
                values: Seq::empty(),
                links: no_links(),
                commands: Seq::empty(),
            },
            keys: Seq::empty(),
            sensors: CatalogView { names: Seq::empty(), items: Seq::empty() },
            sensor_links: no_links(),
            actuators: CatalogView { names: Seq::empty(), items: Seq::empty() },
            actuator_links: no_links(),
            controllers: CatalogView { names: Seq::empty(), items: Seq::empty() },
        }
    }

    /// Whether the registry may have come out of an earlier one: no ticket, no command cell and no
    /// catalogued item was taken back.
    pub open spec fn extends(self, earlier: RegistryView<S, A, C>) -> bool {
        &&& self.evaluation.links.bindings.len() >= earlier.evaluation.links.bindings.len()
        &&& self.current.links.bindings.len() >= earlier.current.links.bindings.len()
        &&& self.evaluation.commands.len() >= earlier.evaluation.commands.len()
        &&& self.sensors.items.len() >= earlier.sensors.items.len()
        &&& self.actuators.items.len() >= earlier.actuators.items.len()
    }

    pub open spec fn sensor_resolved(self, handle: SensorHandle) -> bool {
        self.sensor_links.position(handle.number()) matches Some(p) && p < self.sensors.items.len()
    }

    pub open spec fn actuator_resolved(self, handle: ActuatorHandle) -> bool {
        self.actuator_links.position(handle.number()) matches Some(p) && p
            < self.actuators.items.len()
    }

    /// A zero slot for each key, and a resolved proxy on each.
    pub open spec fn offering(self, offers: Seq<Seq<char>>) -> RegistryView<S, A, C> {
        let first = self.evaluation.values.len();
        RegistryView {
            evaluation: EvaluationView {
                values: self.evaluation.values + Seq::new(offers.len(), |i: int| 0u64),
                links: LinksView {
                    bindings: self.evaluation.links.bindings + Seq::new(
                        offers.len(),
                        |i: int| Some((first + i) as usize),
                    ),
                    pending: self.evaluation.links.pending,
                },
                ..self.evaluation
            },
            keys: self.keys + offers,
            ..self
        }
    }

    /// A proxy that waits for each key.
    pub open spec fn needing(self, needs: Seq<Seq<char>>) -> RegistryView<S, A, C> {
        RegistryView {
            evaluation: EvaluationView {
                links: asking(self.evaluation.links, needs),
                ..self.evaluation
            },
            ..self
        }
    }

    /// A read proxy that waits for each key.
    pub open spec fn reading(self, needs: Seq<Seq<char>>) -> RegistryView<S, A, C> {
        RegistryView {
            current: CurrentView { links: asking(self.current.links, needs), ..self.current },
            ..self
        }
    }

    /// The message of a resolution that fails, and nothing where it succeeds.
    pub open spec fn resolve_failure(self) -> Option<Seq<char>> {
        match self.evaluation.links.missing(self.keys) {
            Some(key) => Some(missing_slot(key)),
            None => match self.current.links.missing(self.keys) {
                Some(key) => Some(missing_read_slot(key)),
                None => match self.sensor_links.missing(self.sensors.names) {
                    Some(name) => Some(missing_sensor(name)),
                    None => match self.actuator_links.missing(self.actuators.names) {
                        Some(name) => Some(missing_actuator(name)),
                        None => None,
                    },
                },
            },
        }
    }

    /// The registry after a resolution: the four kinds of request are settled one after the other,
    /// up to the first kind that has a name missing. Where none is missing, the confirmed state
    /// has room for every slot.
    pub open spec fn resolved(self) -> RegistryView<S, A, C> {
        let first = RegistryView {
            evaluation: EvaluationView {
                links: self.evaluation.links.settled(self.keys),
                ..self.evaluation
            },
            ..self
        };
        if self.evaluation.links.missing(self.keys) is Some {
            first
        } else {
            let second = RegistryView {
                current: CurrentView {
                    links: self.current.links.settled(self.keys),
                    ..self.current
                },
                ..first
            };
            if self.current.links.missing(self.keys) is Some {
                second
            } else {
                let third = RegistryView {
                    sensor_links: self.sensor_links.settled(self.sensors.names),
                    ..second
                };
                if self.sensor_links.missing(self.sensors.names) is Some {
                    third
                } else {
                    let fourth = RegistryView {
                        actuator_links: self.actuator_links.settled(self.actuators.names),
                        ..third
                    };
                    if self.actuator_links.missing(self.actuators.names) is Some {
                        fourth
                    } else {
                        RegistryView {
                            current: fourth.current.with_capacity(self.evaluation.values.len()),
                            ..fourth
                        }
                    }
                }
            }
        }
    }

    /// The registry after a commit.
    pub open spec fn committed(self) -> RegistryView<S, A, C> {
        RegistryView {
            current: CurrentView {
                generation: (self.current.generation + 1) as u64,
                values: self.evaluation.values,
                links: self.current.links,
            },
            ..self
        }
    }

    /// The confirmed value under a key. There is none before the first commit.
    pub open spec fn value_of(self, key: Seq<char>) -> Option<u64> {
        match text::last_position(self.keys, key) {
            Some(p) => if self.current.generation > 0 && p < self.current.values.len() {
                Some(self.current.values[p as int])
            } else {
                None
            },
            None => None,
        }
    }
}

/// A ticket and a request for each name.
pub open spec fn asking(links: LinksView, names: Seq<Seq<char>>) -> LinksView {
    let first = links.bindings.len();
    LinksView {
        bindings: links.bindings + Seq::new(names.len(), |i: int| None::<usize>),
        pending: links.pending + Seq::new(names.len(), |i: int| (names[i], first + i)),
    }
}

impl<S, A, C> StateRegistry<S, A, C> {
    pub closed spec fn view(&self) -> RegistryView<S, A, C> {
        RegistryView {
            current: self.current@,
            evaluation: self.evaluation@,
            keys: text::texts(self.keys@),
            sensors: self.sensors@,
            sensor_links: self.sensor_links@,
            actuators: self.actuators@,
            actuator_links: self.actuator_links@,
            controllers: self.controllers@,
        }
    }

    pub fn new() -> (registry: StateRegistry<S, A, C>)
        ensures
            registry@ == RegistryView::<S, A, C>::empty(),
            registry@.wf(),
    {
        let registry = StateRegistry {
            current: CurrentState { generation: 0, values: Vec::new(), links: Links::new() },
            evaluation: EvaluationState {
                values: Vec::new(),
                links: Links::new(),
                commands: Vec::new(),
            },
            keys: Vec::new(),
            sensors: Catalog::new(),
            sensor_links: Links::new(),
            actuators: Catalog::new(),
            actuator_links: Links::new(),
            controllers: Catalog::new(),
        };
        assert(text::texts(registry.keys@) =~= Seq::empty());
        assert(registry@ =~= RegistryView::<S, A, C>::empty());
        registry
    }

    /// Reserves a zero slot for each key in `offers` and asks for each key in `needs`. The proxies
    /// on the offered slots work at once; the others work after [`StateRegistry::resolve`].
    pub fn subscribe(&mut self, offers: &[&str], needs: &[&str]) -> (proxies: (
        Vec<Proxy>,
        Vec<Proxy>,
    ))
        requires
            old(self)@.wf(),
        ensures
            final(self)@ == old(self)@.offering(text::strs(offers@)).needing(text::strs(needs@)),
            final(self)@.wf(),
            proxies.0@.len() == offers@.len(),
            proxies.1@.len() == needs@.len(),
            forall|i: int|
                0 <= i < offers@.len() ==> (#[trigger] proxies.0@[i]).number()
                    == old(self)@.evaluation.links.bindings.len() + i,
            forall|i: int|
                0 <= i < needs@.len() ==> (#[trigger] proxies.1@[i]).number()
                    == old(self)@.evaluation.links.bindings.len() + offers@.len() + i,
            forall|i: int|
                0 <= i < offers@.len() ==> final(self)@.evaluation.layout().position(
                    #[trigger] proxies.0@[i],
                ) == Some((old(self)@.evaluation.values.len() + i) as usize),
            forall|i: int|
                0 <= i < offers@.len() ==> final(self)@.evaluation.layout().resolved(
                    #[trigger] proxies.0@[i],
                ),
    {
        let ghost start = self@;
        let ghost offer_keys = text::strs(offers@);
        let ghost need_keys = text::strs(needs@);
        let mut offered: Vec<Proxy> = Vec::new();
        let mut i: usize = 0;
        assert(self@ =~= start.offering(offer_keys.take(0)));
        while i < offers.len()
            invariant
                i <= offers@.len(),
                offer_keys == text::strs(offers@),
                start.wf(),
                self@ == start.offering(offer_keys.take(i as int)),
                self@.wf(),
                offered@.len() == i,
                forall|k: int|
                    0 <= k < i ==> (#[trigger] offered@[k]).number()
                        == start.evaluation.links.bindings.len() + k,
            decreases offers@.len() - i,
        {
            let ghost before = self@;
            let position: usize = self.evaluation.values.len();
            self.evaluation.values.push(0);
            let ticket: usize = self.evaluation.links.bind(position);
            self.keys.push(offers[i].to_owned());
            offered.push(Proxy { ticket });
            proof {
                assert(self.keys.len() == self.keys@.len());
                assert(self@.keys =~= before.keys.push(offer_keys[i as int]));
                let next = start.offering(offer_keys.take(i + 1));
                assert(self@.keys =~= next.keys);
                assert(self@.evaluation.values =~= next.evaluation.values);
                assert(self@.evaluation.links.bindings =~= next.evaluation.links.bindings);
                assert(self@ =~= next);
            }
            i = i + 1;
        }
        assert(offer_keys.take(offers@.len() as int) =~= offer_keys);
        let ghost middle = self@;
        let mut requested: Vec<Proxy> = Vec::new();
        let mut j: usize = 0;
        assert(self@ =~= middle.needing(need_keys.take(0)));
        while j < needs.len()
            invariant
                j <= needs@.len(),
                need_keys == text::strs(needs@),
                self@ == middle.needing(need_keys.take(j as int)),
                self@.wf(),
                requested@.len() == j,
                forall|k: int|
                    0 <= k < j ==> (#[trigger] requested@[k]).number()
                        == middle.evaluation.links.bindings.len() + k,
            decreases needs@.len() - j,
        {
            let ticket: usize = self.evaluation.links.request(needs[j]);
            requested.push(Proxy { ticket });
            proof {
                let next = middle.needing(need_keys.take(j + 1));
                assert(self@.evaluation.links.bindings =~= next.evaluation.links.bindings);
                assert(self@.evaluation.links.pending =~= next.evaluation.links.pending);
                assert(self@ =~= next);
            }
            j = j + 1;
        }
        assert(need_keys.take(needs@.len() as int) =~= need_keys);
        (offered, requested)
    }

    /// Asks for a read-only handle on each key.
    pub fn subscribe_read(&mut self, needs: &[&str]) -> (proxies: Vec<ReadProxy>)
        requires
            old(self)@.wf(),
        ensures
            final(self)@ == old(self)@.reading(text::strs(needs@)),
            final(self)@.wf(),
            proxies@.len() == needs@.len(),
            forall|i: int|
                0 <= i < needs@.len() ==> (#[trigger] proxies@[i]).number()
                    == old(self)@.current.links.bindings.len() + i,
    {
        let ghost start = self@;
        let ghost need_keys = text::strs(needs@);
        let mut proxies: Vec<ReadProxy> = Vec::new();
        let mut j: usize = 0;
        assert(self@ =~= start.reading(need_keys.take(0)));
        while j < needs.len()
            invariant
                j <= needs@.len(),
                need_keys == text::strs(needs@),
                self@ == start.reading(need_keys.take(j as int)),
                self@.wf(),
                proxies@.len() == j,
                forall|k: int|
                    0 <= k < j ==> (#[trigger] proxies@[k]).number()
                        == start.current.links.bindings.len() + k,
            decreases needs@.len() - j,
        {
            let ticket: usize = self.current.links.request(needs[j]);
            proxies.push(ReadProxy { ticket });
            proof {
                let next = start.reading(need_keys.take(j + 1));
                assert(self@.current.links.bindings =~= next.current.links.bindings);
                assert(self@.current.links.pending =~= next.current.links.pending);
                assert(self@ =~= next);
            }
            j = j + 1;
        }
        assert(need_keys.take(needs@.len() as int) =~= need_keys);
        proxies
    }

    /// Reserves the command of an actuator, at first zero.
    pub fn add_command(&mut self) -> (cell: CommandCell)
        requires
            old(self)@.wf(),
        ensures
            final(self)@ == (RegistryView {
                evaluation: EvaluationView {
                    commands: old(self)@.evaluation.commands.push(0),
                    ..old(self)@.evaluation
                },
                ..old(self)@
            }),
            final(self)@.wf(),
            cell.number() == old(self)@.evaluation.commands.len(),
    {
        let cell: usize = self.evaluation.commands.len();
        self.evaluation.commands.push(0);
        CommandCell { cell }
    }

    /// Puts a sensor into the catalog.
    pub fn offer_sensor(&mut self, name: &str, sensor: S)
        requires
            old(self)@.wf(),
        ensures
            final(self)@ == (RegistryView {
                sensors: old(self)@.sensors.offered(name@, sensor),
                ..old(self)@
            }),
            final(self)@.wf(),
    {
        self.sensors.offer(name, sensor);
    }

    /// Asks for a sensor by name.
    pub fn need_sensor(&mut self, name: &str) -> (handle: SensorHandle)
        requires
            old(self)@.wf(),
        ensures
            final(self)@ == (RegistryView {
                sensor_links: old(self)@.sensor_links.requested(name@),
                ..old(self)@
            }),
            final(self)@.wf(),
            handle.number() == old(self)@.sensor_links.bindings.len(),
    {
        let ticket: usize = self.sensor_links.request(name);
        SensorHandle { ticket }
    }

    /// The names in the sensor catalog, each once.
    pub fn sensor_names(&self) -> (names: Vec<String>)
        ensures
            text::texts(names@) == text::effective_names(
                self@.sensors.names,
                self@.sensors.names.len(),
            ),
    {
        self.sensors.names()
    }

    /// The sensor under a name.
    pub fn sensor(&self, name: &str) -> (sensor: Option<&S>)
        ensures
            match (sensor, self@.sensors.found(name@)) {
                (Some(a), Some(b)) => *a == b,
                (None, None) => true,
                _ => false,
            },
    {
        self.sensors.find(name)
    }

    /// Puts an actuator into the catalog.
    pub fn offer_actuator(&mut self, name: &str, actuator: A)
        requires
            old(self)@.wf(),
        ensures
            final(self)@ == (RegistryView {
                actuators: old(self)@.actuators.offered(name@, actuator),
                ..old(self)@
            }),
            final(self)@.wf(),
    {
        self.actuators.offer(name, actuator);
    }

    /// Asks for an actuator by name.
    pub fn need_actuator(&mut self, name: &str) -> (handle: ActuatorHandle)
        requires
            old(self)@.wf(),
        ensures
            final(self)@ == (RegistryView {
                actuator_links: old(self)@.actuator_links.requested(name@),
                ..old(self)@
            }),
            final(self)@.wf(),
            handle.number() == old(self)@.actuator_links.bindings.len(),
    {
        let ticket: usize = self.actuator_links.request(name);
        ActuatorHandle { ticket }
    }

    /// The names in the actuator catalog, each once.
    pub fn actuator_names(&self) -> (names: Vec<String>)
        ensures
            text::texts(names@) == text::effective_names(
                self@.actuators.names,
                self@.actuators.names.len(),
            ),
    {
        self.actuators.names()
    }

    /// The actuator under a name.
    pub fn actuator(&self, name: &str) -> (actuator: Option<&A>)
        ensures
            match (actuator, self@.actuators.found(name@)) {
                (Some(a), Some(b)) => *a == b,
                (None, None) => true,
                _ => false,
            },
    {
        self.actuators.find(name)
    }

    /// Puts a controller into the catalog. Nothing asks for one by name before it exists, so there
    /// is no request for controllers.
    pub fn offer_controller(&mut self, name: &str, controller: C)
        requires
            old(self)@.wf(),
        ensures
            final(self)@ == (RegistryView {
                controllers: old(self)@.controllers.offered(name@, controller),
                ..old(self)@
            }),
            final(self)@.wf(),
    {
        self.controllers.offer(name, controller);
    }

    /// The names in the controller catalog, each once.
    pub fn controller_names(&self) -> (names: Vec<String>)
        ensures
            text::texts(names@) == text::effective_names(
                self@.controllers.names,
                self@.controllers.names.len(),
            ),
    {
        self.controllers.names()
    }

    /// The controller under a name.
    pub fn controller(&self, name: &str) -> (controller: Option<&C>)
        ensures
            match (controller, self@.controllers.found(name@)) {
                (Some(a), Some(b)) => *a == b,
                (None, None) => true,
                _ => false,
            },
    {
        self.controllers.find(name)
    }

    /// Whether the sensor handle has a place.
    pub fn is_sensor_resolved(&self, handle: &SensorHandle) -> (yes: bool)
        ensures
            yes == self@.sensor_resolved(*handle),
    {
        match self.sensor_links.position(handle.ticket) {
            Some(p) => p < self.sensors.len(),
            None => false,
        }
    }

    /// Whether the actuator handle has a place.
    pub fn is_actuator_resolved(&self, handle: &ActuatorHandle) -> (yes: bool)
        ensures
            yes == self@.actuator_resolved(*handle),
    {
        match self.actuator_links.position(handle.ticket) {
            Some(p) => p < self.actuators.len(),
            None => false,
        }
    }

    /// Points every waiting handle at the place of the name that it asked for. A name that nobody
    /// offers is an error; what was asked for before it is resolved by then.
    pub fn resolve(&mut self) -> (outcome: Result<(), String>)
        requires
            old(self)@.wf(),
        ensures
            final(self)@ == old(self)@.resolved(),
            final(self)@.wf(),
            match (outcome, old(self)@.resolve_failure()) {
                (Ok(_), None) => true,
                (Err(message), Some(expected)) => message@ == expected,
                _ => false,
            },
    {
        proof {
            links::settling_stays_within(self@.evaluation.links, self@.keys);
            links::settling_stays_within(self@.current.links, self@.keys);
            links::settling_stays_within(self@.sensor_links, self@.sensors.names);
            links::settling_stays_within(self@.actuator_links, self@.actuators.names);
        }
        if let Some(key) = self.evaluation.links.settle(&self.keys) {
            return Err(
                text::framed(
                    "input '",
                    key.as_str(),
                    "' declarado em subscribe() mas nenhum componente oferece esse slot",
                ),
            );
        }
        if let Some(key) = self.current.links.settle(&self.keys) {
            return Err(
                text::framed(
                    "input '",
                    key.as_str(),
                    "' declarado em subscribe_read() mas nenhum componente oferece esse slot",
                ),
            );
        }
        if let Some(name) = self.sensor_links.settle(self.sensors.offered_names()) {
            return Err(
                text::framed(
                    "sensor '",
                    name.as_str(),
                    "' declarado em need_sensor() mas nenhum offer_sensor() com esse nome",
                ),
            );
        }
        if let Some(name) = self.actuator_links.settle(self.actuators.offered_names()) {
            return Err(
                text::framed(
                    "atuador '",
                    name.as_str(),
                    "' declarado em need_actuator() mas nenhum offer_actuator() com esse nome",
                ),
            );
        }
        self.current.reserve(self.evaluation.values.len());
        Ok(())
    }

    /// The confirmed value under a key.
    pub fn read(&self, key: &str) -> (value: Option<u64>)
        ensures
            value == self@.value_of(key@),
    {
        match text::find_last(&self.keys, key) {
            Some(p) => if self.current.generation > 0 && p < self.current.values.len() {
                Some(self.current.values[p])
            } else {
                None
            },
            None => None,
        }
    }

    /// The confirmed state with its keys, one entry for each slot. A slot whose key was offered
    /// again later stays nameless and zero.
    pub fn snapshot(&self) -> (slots: Vec<StateSlot>)
        requires
            self@.wf(),
        ensures
            slots@.len() == self@.current.values.len(),
            forall|i: int|
                0 <= i < slots@.len() ==> if text::is_effective(self@.keys, i) {
                    (#[trigger] slots@[i]).key@ == self@.keys[i] && slots@[i].value
                        == self@.current.values[i]
                } else {
                    slots@[i].key@ == Seq::<char>::empty() && slots@[i].value == 0
                },
    {
        let mut slots: Vec<StateSlot> = Vec::new();
        let mut i: usize = 0;
        while i < self.current.values.len()
            invariant
                self@.wf(),
                i <= self@.current.values.len(),
                slots@.len() == i,
                forall|k: int|
                    0 <= k < i ==> if text::is_effective(self@.keys, k) {
                        (#[trigger] slots@[k]).key@ == self@.keys[k] && slots@[k].value
                            == self@.current.values[k]
                    } else {
                        slots@[k].key@ == Seq::<char>::empty() && slots@[k].value == 0
                    },
            decreases self@.current.values.len() - i,
        {
            let effective: bool = match text::find_last(&self.keys, self.keys[i].as_str()) {
                Some(p) => p == i,
                None => false,
            };
            if effective {
                slots.push(StateSlot { key: self.keys[i].clone(), value: self.current.values[i] });
            } else {
                slots.push(StateSlot { key: String::new(), value: 0 });
            }
            i = i + 1;
        }
        slots
    }

    /// Confirms the evaluation state: the values and the generation change together.
    pub fn commit(&mut self)
        requires
            old(self)@.wf(),
            old(self)@.current.generation < u64::MAX,
        ensures
            final(self)@ == old(self)@.committed(),
            final(self)@.wf(),
    {
        self.current.reserve(self.evaluation.values.len());
        let ghost reserved = self@;
        let mut i: usize = 0;
        while i < self.evaluation.values.len()
            invariant
                i <= self.evaluation.values@.len(),
                self.evaluation == old(self).evaluation,
                self@ == (RegistryView {
                    current: CurrentView { values: self@.current.values, ..reserved.current },
                    ..reserved
                }),
                self.current.values@.len() == self.evaluation.values@.len(),
                forall|k: int|
                    0 <= k < i ==> self.current.values@[k] == self.evaluation.values@[k],
                reserved.current.generation == old(self)@.current.generation,
            decreases self.evaluation.values@.len() - i,
        {
            let value: u64 = self.evaluation.values[i];
            self.current.values.set(i, value);
            i = i + 1;
        }
        assert(self.current.values@ =~= self.evaluation.values@);
        self.current.generation = self.current.generation + 1;
        assert(self@ =~= old(self)@.committed());
    }

    pub fn evaluation(&self) -> (state: &EvaluationState)
        ensures
            state@ == self@.evaluation,
    {
        &self.evaluation
    }

    pub fn current(&self) -> (current: &CurrentState)
        ensures
            current@ == self@.current,
    {
        &self.current
    }

    /// Runs one evaluation round of a model.
    pub fn evaluate<M: DynamicModel>(&mut self, model: &M)
        requires
            old(self)@.wf(),
            model.ready(old(self)@.current.outline(), old(self)@.evaluation.layout()),
        ensures
            model.evaluates(
                old(self)@.current,
                old(self)@.evaluation,
                final(self)@.evaluation,
            ),
            final(self)@.evaluation.layout() == old(self)@.evaluation.layout(),
            final(self)@ == (RegistryView {
                evaluation: final(self)@.evaluation,
                ..old(self)@
            }),
            final(self)@.wf(),
    {
        model.evaluate(&self.current, &mut self.evaluation);
    }

    /// Writes a command to the actuator with the given name, if the catalog has it.
    pub fn command(&mut self, name: &str, value: u64) -> (found: bool)
        where
            A: Actuator,
        requires
            old(self)@.wf(),
            old(self)@.actuators.found(name@) matches Some(actuator) ==> actuator.writable(
                old(self)@.evaluation.layout(),
            ),
        ensures
            found == (old(self)@.actuators.found(name@) is Some),
            match old(self)@.actuators.found(name@) {
                Some(actuator) => actuator.writes(
                    old(self)@.evaluation,
                    value,
                    final(self)@.evaluation,
                ),
                None => final(self)@.evaluation == old(self)@.evaluation,
            },
            final(self)@.evaluation.layout() == old(self)@.evaluation.layout(),
            final(self)@ == (RegistryView { evaluation: final(self)@.evaluation, ..old(self)@ }),
            final(self)@.wf(),
    {
        match self.actuators.find(name) {
            Some(actuator) => {
                actuator.write(&mut self.evaluation, value);
                true
            },
            None => false,
        }
    }

    /// The evaluation state, to be written through the proxies.
    pub fn evaluation_mut(&mut self) -> (state: &mut EvaluationState)
        ensures
            state@ == old(self)@.evaluation,
            final(self)@ == (RegistryView { evaluation: final(state)@, ..old(self)@ }),
    {
        &mut self.evaluation
    }
}

} // verus!
