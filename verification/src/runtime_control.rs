//! The handle by which a running plant is paused, paced and stopped.
use crate::double;
use crate::sensor;
use crate::state_registry::{CurrentState, CurrentView, Outline};
use vstd::prelude::*;

verus! {

/// The control of one simulation: whether it is paused, whether its end was asked for, how fast it
/// runs against the clock on the wall, and how many hours it has simulated.
#[derive(Debug)]
pub struct RuntimeControl {
    paused: bool,
    reset_requested: bool,
    speed_factor: u64,
    t_h: u64,
}

/// What a [`RuntimeControl`] holds.
pub ghost struct ControlView {
    pub paused: bool,
    pub reset_requested: bool,
    pub speed: u64,
    pub t_h: u64,
}

impl Default for RuntimeControl {
    fn default() -> (control: RuntimeControl)
        ensures
            control@ == (ControlView {
                paused: false,
                reset_requested: false,
                speed: double::ONE,
                t_h: double::ZERO,
            }),
    {
        RuntimeControl {
            paused: false,
            reset_requested: false,
            speed_factor: double::ONE,
            t_h: double::ZERO,
        }
    }
}

impl RuntimeControl {
    pub closed spec fn view(&self) -> ControlView {
        ControlView {
            paused: self.paused,
            reset_requested: self.reset_requested,
            speed: self.speed_factor,
            t_h: self.t_h,
        }
    }

    /// A control that runs in real time, at hour zero.
    pub fn new() -> (control: RuntimeControl)
        ensures
            control@ == (ControlView {
                paused: false,
                reset_requested: false,
                speed: double::ONE,
                t_h: double::ZERO,
            }),
    {
        RuntimeControl {
            paused: false,
            reset_requested: false,
            speed_factor: double::ONE,
            t_h: double::ZERO,
        }
    }

    pub fn pause(&mut self)
        ensures
            final(self)@ == (ControlView { paused: true, ..old(self)@ }),
    {
        self.paused = true;
    }

    pub fn resume(&mut self)
        ensures
            final(self)@ == (ControlView { paused: false, ..old(self)@ }),
    {
        self.paused = false;
    }

    /// Asks the plant to end. It does so at its next tick.
    pub fn request_reset(&mut self)
        ensures
            final(self)@ == (ControlView { reset_requested: true, ..old(self)@ }),
    {
        self.reset_requested = true;
    }

    /// Zero runs as fast as possible, one in real time, and `n` runs `n` times as fast. A negative
    /// factor counts as zero.
    pub fn set_speed(&mut self, factor: u64)
        ensures
            final(self)@ == (ControlView { speed: double::at_least_zero(factor), ..old(self)@ }),
    {
        self.speed_factor = double::clamp_to_zero(factor);
    }

    pub fn speed(&self) -> (speed: u64)
        ensures
            speed == self@.speed,
    {
        self.speed_factor
    }

    /// The simulated time in hours.
    pub fn t_h(&self) -> (t_h: u64)
        ensures
            t_h == self@.t_h,
    {
        self.t_h
    }

    pub fn is_paused(&self) -> (paused: bool)
        ensures
            paused == self@.paused,
    {
        self.paused
    }

    /// Takes the request to end, if there is one. A request is taken once.
    pub fn take_reset_request(&mut self) -> (requested: bool)
        ensures
            requested == old(self)@.reset_requested,
            final(self)@ == (ControlView { reset_requested: false, ..old(self)@ }),
    {
        let requested: bool = self.reset_requested;
        self.reset_requested = false;
        requested
    }

    /// Adds a step to the simulated time. `plus` adds two doubles.
    pub fn advance_t_h<P: Fn(u64, u64) -> u64>(&mut self, dt_hours: u64, plus: &P)
        requires
            call_requires(*plus, (old(self)@.t_h, dt_hours)),
        ensures
            call_ensures(*plus, (old(self)@.t_h, dt_hours), final(self)@.t_h),
            final(self)@ == (ControlView { t_h: final(self)@.t_h, ..old(self)@ }),
    {
        self.t_h = plus(self.t_h, dt_hours);
    }
}

/// The simulated time, read as a sensor. It is no quantity of a component, so the confirmed state
/// does not enter.
impl sensor::Sensor for RuntimeControl {
    open spec fn readable(&self, outline: Outline) -> bool {
        true
    }

    open spec fn reads(
        before: RuntimeControl,
        current: CurrentView,
        value: u64,
        after: RuntimeControl,
    ) -> bool {
        value == before@.t_h && after == before
    }

    fn read(&mut self, current: &CurrentState) -> (value: u64) {
        self.t_h
    }
}

} // verus!
