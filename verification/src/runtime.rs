//! The supervisor that outlives the plants.
//!
//! At any time one plant runs, and what the outside holds of a plant is the binding of that one. A
//! reset ends the plant and puts a new one in its place; the binding is exchanged as a whole, and only
//! when the new plant is ready. Ending a plant and bringing one up takes time and threads, which are
//! the caller's: the supervisor says which plant is to end and takes what came up.
use vstd::prelude::*;

verus! {

/// The supervisor of plants of which the outside holds a `B`, and which run behind an `R`.
pub struct Runtime<B, R> {
    binding: B,
    current: Option<R>,
    shut_down: bool,
}

/// What a [`Runtime`] holds. There is no current plant while one is exchanged, and none after the
/// end.
pub ghost struct RuntimeView<B, R> {
    pub binding: B,
    pub current: Option<R>,
    pub shut_down: bool,
}

/// A plant that was taken out, or none, with which the exchange for another one begins.
pub struct Exchange<R> {
    running: Option<R>,
}

/// The plant that is to come, which was launched when the one before it had ended.
pub struct Successor<B, R> {
    launched: Launched<B, R>,
}

/// Whether `launched` may be the launch of a plant after the end of the one that ran. What the launch
/// is handed is what the end left behind, so it cannot come before it.
pub open spec fn follows<B, R, X, D: FnOnce(Option<R>) -> X, L: FnOnce(X) -> Launched<B, R>>(
    running: Option<R>,
    end: D,
    launch: L,
    launched: Launched<B, R>,
) -> bool {
    exists|ended: X| #[trigger]
        call_ensures(end, (running,), ended) && call_ensures(launch, (ended,), launched)
}

impl<R> Exchange<R> {
    /// The plant that was taken out.
    pub closed spec fn running(&self) -> Option<R> {
        self.running
    }

    /// Ends the plant that was taken out, and then launches the next one with what the end left
    /// behind. Each happens once.
    pub fn replace<B, X, D: FnOnce(Option<R>) -> X, L: FnOnce(X) -> Launched<B, R>>(
        self,
        end: D,
        launch: L,
    ) -> (next: Successor<B, R>)
        requires
            call_requires(end, (self.running(),)),
            forall|ended: X| #[trigger] call_requires(launch, (ended,)),
        ensures
            follows(self.running(), end, launch, next.launched()),
    {
        let ended: X = end(self.running);
        let launched: Launched<B, R> = launch(ended);
        Successor { launched }
    }
}

impl<B, R> Successor<B, R> {
    /// How the launch went.
    pub closed spec fn launched(&self) -> Launched<B, R> {
        self.launched
    }
}

/// How the launch of a plant went: it did not start, it was gone before it was ready, or it runs
/// behind `R` and shows a `B`.
pub enum Launched<B, R> {
    NotStarted(String),
    GoneEarly,
    Ready(R, B),
}

impl<B, R> RuntimeView<B, R> {
    /// The supervisor whose plant was taken out.
    pub open spec fn vacated(self) -> RuntimeView<B, R> {
        RuntimeView { current: None, ..self }
    }

    /// The supervisor after a launch. A launch that failed leaves the binding as it was.
    pub open spec fn replaced(self, launched: Launched<B, R>) -> RuntimeView<B, R> {
        match launched {
            Launched::Ready(running, binding) => RuntimeView {
                binding,
                current: Some(running),
                ..self
            },
            _ => self,
        }
    }
}

impl<B, R> Runtime<B, R> {
    pub closed spec fn view(&self) -> RuntimeView<B, R> {
        RuntimeView { binding: self.binding, current: self.current, shut_down: self.shut_down }
    }

    /// A supervisor over the first plant. It needs a plant that is ready.
    pub fn new(launched: Launched<B, R>) -> (runtime: Result<Runtime<B, R>, String>)
        ensures
            match (launched, runtime) {
                (Launched::Ready(running, binding), Ok(runtime)) => runtime@ == (RuntimeView {
                    binding,
                    current: Some(running),
                    shut_down: false,
                }),
                (Launched::NotStarted(reason), Err(message)) => message@ == reason@,
                (Launched::GoneEarly, Err(message)) => message@
                    == "Runtime::new: a plant thread encerrou antes de sinalizar pronta"@,
                _ => false,
            },
    {
        match launched {
            Launched::Ready(running, binding) => Ok(
                Runtime { binding, current: Some(running), shut_down: false },
            ),
            Launched::NotStarted(reason) => Err(reason),
            Launched::GoneEarly => Err(
                "Runtime::new: a plant thread encerrou antes de sinalizar pronta".to_owned(),
            ),
        }
    }

    /// What the outside holds of the current plant.
    pub fn binding(&self) -> (binding: &B)
        ensures
            *binding == self@.binding,
    {
        &self.binding
    }

    /// Takes the current plant out, to be ended. The binding stays until the next plant is ready.
    pub fn begin_reset(&mut self) -> (exchange: Exchange<R>)
        ensures
            exchange.running() == old(self)@.current,
            final(self)@ == old(self)@.vacated(),
    {
        Exchange { running: self.current.take() }
    }

    /// Puts the next plant in place. The one before it has been taken out, to be ended. Where the
    /// launch failed nothing changes.
    pub fn reset(&mut self, next: Successor<B, R>) -> (outcome: Result<(), String>)
        requires
            old(self)@.current is None,
        ensures
            final(self)@ == old(self)@.replaced(next.launched()),
            match (next.launched(), outcome) {
                (Launched::Ready(_, _), Ok(_)) => true,
                (Launched::NotStarted(reason), Err(message)) => message@ == reason@,
                (Launched::GoneEarly, Err(message)) => message@
                    == "Runtime::reset: a nova plant thread encerrou antes de sinalizar pronta"@,
                _ => false,
            },
    {
        match next.launched {
            Launched::Ready(running, binding) => {
                self.binding = binding;
                self.current = Some(running);
                Ok(())
            },
            Launched::NotStarted(reason) => Err(reason),
            Launched::GoneEarly => Err(
                "Runtime::reset: a nova plant thread encerrou antes de sinalizar pronta".to_owned(),
            ),
        }
    }

    /// Takes the current plant out for good, to be ended.
    pub fn request_shutdown(&mut self) -> (running: Option<R>)
        ensures
            running == old(self)@.current,
            final(self)@ == old(self)@.vacated(),
    {
        self.current.take()
    }

    /// Records that the last plant has ended.
    pub fn finish_shutdown(&mut self)
        ensures
            final(self)@ == (RuntimeView { shut_down: true, ..old(self)@ }),
    {
        self.shut_down = true;
    }

    /// Whether the last plant has ended, which is what a caller waits for.
    pub fn is_shut_down(&self) -> (done: bool)
        ensures
            done == self@.shut_down,
    {
        self.shut_down
    }
}

/// A reset replaces the plant: the plant that ran is ended before the next one is launched, and
/// afterwards the current plant and the binding are those of that one launch, whatever ran before.
pub proof fn a_reset_replaces_plant_and_binding_together<
    B,
    R,
    X,
    D: FnOnce(Option<R>) -> X,
    L: FnOnce(X) -> Launched<B, R>,
>(runtime: RuntimeView<B, R>, end: D, launch: L, running: R, binding: B)
    requires
        follows(runtime.current, end, launch, Launched::Ready(running, binding)),
    ensures
        exists|ended: X| #[trigger]
            call_ensures(end, (runtime.current,), ended) && call_ensures(
                launch,
                (ended,),
                Launched::Ready(running, binding),
            ),
        ({
            let after = runtime.vacated().replaced(Launched::Ready(running, binding));
            &&& after.current == Some(running)
            &&& after.binding == binding
            &&& after.shut_down == runtime.shut_down
        }),
{
}

/// While a plant is exchanged, and after a launch that failed, the outside holds what it held before,
/// and no plant is current.
pub proof fn a_failed_reset_keeps_the_binding<B, R>(
    runtime: RuntimeView<B, R>,
    launched: Launched<B, R>,
)
    requires
        !(launched is Ready),
    ensures
        runtime.vacated().binding == runtime.binding,
        runtime.vacated().replaced(launched) == runtime.vacated(),
        runtime.vacated().current is None,
{
}

} // verus!
