//! A sensor on one key of the registry.
//!
//! A sensor reads the confirmed state and never a value that an integrator only tries out. What
//! lies between the physical value and the reading is its behavior. The behavior advances once per
//! commit: further readings of the same generation give the same value.
use crate::double;
use crate::sensor;
use crate::state_registry::{
    CurrentState, CurrentView, Outline, Proxy, ReadProxy, RegistryView, StateRegistry,
};
use crate::text;
use vstd::prelude::*;

verus! {

/// What happens between the physical value and the reading.
pub trait SensorBehavior: Sized {
    /// Whether the physical value may give `value` and leave `after` behind.
    spec fn transforms(before: Self, physical_value: u64, value: u64, after: Self) -> bool;

    /// Whether the behavior accepts a physical value.
    spec fn accepts(&self) -> bool;

    fn apply(&mut self, physical_value: u64) -> (value: u64)
        requires
            old(self).accepts(),
        ensures
            Self::transforms(*old(self), physical_value, value, *final(self)),
            final(self).accepts(),
    ;
}

/// A sensor: a read proxy, a behavior, and the reading of the last generation that was read.
#[derive(Clone, Copy)]
pub struct Sensor<B> {
    proxy: ReadProxy,
    behavior: B,
    cached: Option<(u64, u64)>,
}

/// What a [`Sensor`] holds. A cached reading is a generation and a value.
pub ghost struct SensorView<B> {
    pub proxy: ReadProxy,
    pub behavior: B,
    pub cached: Option<(u64, u64)>,
}

impl<B: SensorBehavior> SensorView<B> {
    /// Whether a reading leads from this sensor to `after`.
    pub open spec fn reads(self, current: CurrentView, value: u64, after: SensorView<B>) -> bool {
        match self.cached {
            Some((generation, reading)) if generation == current.generation => value == reading
                && after == self,
            _ => {
                &&& B::transforms(self.behavior, current.get(self.proxy), value, after.behavior)
                &&& after.proxy == self.proxy
                &&& after.cached == Some((current.generation, value))
            },
        }
    }
}

impl<B: SensorBehavior> Sensor<B> {
    pub closed spec fn view(&self) -> SensorView<B> {
        SensorView { proxy: self.proxy, behavior: self.behavior, cached: self.cached }
    }

    /// Declares a sensor on a key, and puts it into the catalog under the same key. Whoever offers
    /// the key may do so earlier or later. `share` makes the sensor into two handles on it, the
    /// first for the catalog and the second for the caller.
    pub fn new<S, A, C, F: FnOnce(Sensor<B>) -> (S, S)>(
        registry: &mut StateRegistry<S, A, C>,
        key: &str,
        behavior: B,
        share: F,
    ) -> (shared: S)
        requires
            old(registry)@.wf(),
            forall|sensor: Sensor<B>| #[trigger] call_requires(share, (sensor,)),
        ensures
            final(registry)@.wf(),
            exists|sensor: Sensor<B>, item: S| #[trigger]
                sensor_registered(
                    old(registry)@,
                    key@,
                    behavior,
                    sensor,
                    item,
                    final(registry)@,
                ) && call_ensures(share, (sensor,), (item, shared)),
    {
        let ghost before = registry@;
        let mut proxies = registry.subscribe_read(&[key]);
        let proxy = proxies[0];
        let sensor = Sensor { proxy, behavior, cached: None };
        let ghost made = sensor;
        let (item, shared) = share(sensor);
        let ghost offered = item;
        registry.offer_sensor(key, item);
        proof {
            assert(text::strs([key]@) =~= seq![key@]);
            assert(sensor_registered(before, key@, behavior, made, offered, registry@));
        }
        shared
    }
}

/// Whether a new sensor on the key stands in the catalog under the key.
pub open spec fn sensor_registered<B: SensorBehavior, S, A, C>(
    before: RegistryView<S, A, C>,
    key: Seq<char>,
    behavior: B,
    sensor: Sensor<B>,
    item: S,
    after: RegistryView<S, A, C>,
) -> bool {
    &&& after == RegistryView {
        sensors: before.sensors.offered(key, item),
        ..before.reading(seq![key])
    }
    &&& sensor@.proxy.number() == before.current.links.bindings.len()
    &&& sensor@.behavior == behavior
    &&& sensor@.cached is None
}

impl<B: SensorBehavior> sensor::Sensor for Sensor<B> {
    open spec fn readable(&self, outline: Outline) -> bool {
        outline.resolved(self@.proxy) && self@.behavior.accepts()
    }

    open spec fn reads(before: Sensor<B>, current: CurrentView, value: u64, after: Sensor<B>) -> bool {
        before@.reads(current, value, after@)
    }

    fn read(&mut self, current: &CurrentState) -> (value: u64) {
        let (generation, raw) = self.proxy.get_versioned(current);
        match self.cached {
            Some((cached_generation, value)) => {
                if cached_generation == generation {
                    return value;
                }
            },
            None => {},
        }
        let value: u64 = self.behavior.apply(raw);
        self.cached = Some((generation, value));
        value
    }
}

/// Readings of one generation agree, and only the first of them advances the behavior.
pub proof fn readings_of_a_generation_agree<B: SensorBehavior>(
    first: SensorView<B>,
    second: SensorView<B>,
    third: SensorView<B>,
    earlier: CurrentView,
    later: CurrentView,
    one: u64,
    other: u64,
)
    requires
        earlier.generation == later.generation,
        first.reads(earlier, one, second),
        second.reads(later, other, third),
    ensures
        one == other,
        third == second,
{
}

/// An ideal sensor shows what was committed: what a proxy wrote to the slot that the sensor reads
/// is the next reading after the commit.
pub proof fn an_ideal_sensor_shows_what_was_committed<S, A, C>(
    registry: RegistryView<S, A, C>,
    proxy: Proxy,
    written: u64,
    sensor: SensorView<Ideal>,
    reading: u64,
    after: SensorView<Ideal>,
)
    requires
        registry.wf(),
        registry.current.generation < u64::MAX,
        registry.evaluation.layout().resolved(proxy),
        registry.current.position(sensor.proxy) == registry.evaluation.layout().position(proxy),
        sensor.cached matches Some((generation, _)) ==> generation <= registry.current.generation,
        sensor.reads(
            (RegistryView {
                evaluation: registry.evaluation.set(proxy, written),
                ..registry
            }).committed().current,
            reading,
            after,
        ),
    ensures
        reading == written,
{
}

/// A function is a behavior without memory.
impl<F: Fn(u64) -> u64> SensorBehavior for F {
    open spec fn transforms(before: F, physical_value: u64, value: u64, after: F) -> bool {
        call_ensures(before, (physical_value,), value) && after == before
    }

    open spec fn accepts(&self) -> bool {
        forall|physical_value: u64| #[trigger] call_requires(*self, (physical_value,))
    }

    fn apply(&mut self, physical_value: u64) -> (value: u64) {
        (*self)(physical_value)
    }
}

/// Hands the physical value on.
#[derive(Clone, Copy)]
pub struct Ideal;

impl SensorBehavior for Ideal {
    open spec fn transforms(before: Ideal, physical_value: u64, value: u64, after: Ideal) -> bool {
        value == physical_value
    }

    open spec fn accepts(&self) -> bool {
        true
    }

    fn apply(&mut self, physical_value: u64) -> (value: u64) {
        physical_value
    }
}

/// Adds what a source of noise gives, unless the standard deviation is zero. The source gets the
/// physical value and the standard deviation.
pub struct Noisy<N> {
    std_dev: u64,
    disturb: N,
}

impl<N: Fn(u64, u64) -> u64> Noisy<N> {
    pub closed spec fn deviation(&self) -> u64 {
        self.std_dev
    }

    pub closed spec fn source(&self) -> N {
        self.disturb
    }

    pub fn new(std_dev: u64, disturb: N) -> (noisy: Noisy<N>)
        ensures
            noisy.deviation() == std_dev,
            noisy.source() == disturb,
    {
        Noisy { std_dev, disturb }
    }
}

impl<N: Fn(u64, u64) -> u64> SensorBehavior for Noisy<N> {
    open spec fn transforms(
        before: Noisy<N>,
        physical_value: u64,
        value: u64,
        after: Noisy<N>,
    ) -> bool {
        &&& after == before
        &&& if double::is_zero(before.deviation()) {
            value == physical_value
        } else {
            call_ensures(before.source(), (physical_value, before.deviation()), value)
        }
    }

    open spec fn accepts(&self) -> bool {
        forall|physical_value: u64| #[trigger]
            call_requires(self.source(), (physical_value, self.deviation()))
    }

    fn apply(&mut self, physical_value: u64) -> (value: u64) {
        if double::is_zero_pattern(self.std_dev) {
            physical_value
        } else {
            assert(call_requires(self.source(), (physical_value, self.deviation())));
            (self.disturb)(physical_value, self.std_dev)
        }
    }
}

/// Repeats the last reading while the physical value stays inside a dead band around it. `near`
/// tells whether a physical value lies nearer to a reading than the width of the band.
pub struct Hysteresis<N> {
    deadband: u64,
    near: N,
    last_output: Option<u64>,
}

impl<N: Fn(u64, u64, u64) -> bool> Hysteresis<N> {
    pub closed spec fn width(&self) -> u64 {
        self.deadband
    }

    pub closed spec fn test(&self) -> N {
        self.near
    }

    pub closed spec fn last(&self) -> Option<u64> {
        self.last_output
    }

    pub fn new(deadband: u64, near: N) -> (hysteresis: Hysteresis<N>)
        ensures
            hysteresis.width() == deadband,
            hysteresis.test() == near,
            hysteresis.last() is None,
    {
        Hysteresis { deadband, near, last_output: None }
    }
}

impl<N: Fn(u64, u64, u64) -> bool> SensorBehavior for Hysteresis<N> {
    open spec fn transforms(
        before: Hysteresis<N>,
        physical_value: u64,
        value: u64,
        after: Hysteresis<N>,
    ) -> bool {
        &&& after.width() == before.width()
        &&& after.test() == before.test()
        &&& after.last() == Some(value)
        &&& match before.last() {
            None => value == physical_value,
            Some(previous) => {
                ||| value == previous && call_ensures(
                    before.test(),
                    (physical_value, previous, before.width()),
                    true,
                )
                ||| value == physical_value && call_ensures(
                    before.test(),
                    (physical_value, previous, before.width()),
                    false,
                )
            },
        }
    }

    open spec fn accepts(&self) -> bool {
        forall|physical_value: u64, previous: u64| #[trigger]
            call_requires(self.test(), (physical_value, previous, self.width()))
    }

    fn apply(&mut self, physical_value: u64) -> (value: u64) {
        let output: u64 = match self.last_output {
            Some(previous) => {
                assert(call_requires(self.test(), (physical_value, previous, self.width())));
                if (self.near)(physical_value, previous, self.deadband) {
                    previous
                } else {
                    physical_value
                }
            },
            None => physical_value,
        };
        self.last_output = Some(output);
        output
    }
}

} // verus!
