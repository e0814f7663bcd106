//! Laws of a plant: how it is assembled, how it answers the integration, and what a tick does.
use crate::actuator::Actuator;
use crate::arithmetic::Operations;
use crate::catalog::CatalogView;
use crate::dynamic_model::DynamicModel;
use crate::laws;
use crate::numerical_method::integrator::{Dynamics, Integrator};
use crate::numerical_method::rk4;
use crate::numerical_method::rk4::RK4;
use crate::plant;
use crate::plant::{AssemblyError, Pace, Plant, PlantBinding, Tick, Turn};
use crate::runtime_control::ControlView;
use crate::sensor;
use crate::sensor::model::{Ideal, Sensor};
use crate::state_registry::{CurrentView, EvaluationView, Proxy, RegistryView};
use crate::{resolution, state_registry, text};
use vstd::prelude::*;

verus! {

/// What is asked for is each integrated key with its rate of change behind it, in the order of the
/// keys.
pub proof fn each_key_is_asked_for_with_its_rate(keys: Seq<Seq<char>>)
    ensures
        plant::integration_needs(keys).len() == 2 * keys.len(),
        forall|i: int|
            0 <= i < keys.len() ==> {
                &&& plant::integration_needs(keys)[2 * i] == #[trigger] keys[i]
                &&& plant::integration_needs(keys)[2 * i + 1] == keys[i] + ".derivative"@
            },
{
}

/// Whether the proxy addresses the last slot that was offered under the key.
pub open spec fn addresses_key<S, A, C>(
    registry: RegistryView<S, A, C>,
    proxy: Proxy,
    key: Seq<char>,
) -> bool {
    exists|place: int| #[trigger]
        laws::registry::stands_last(registry.keys, key, place) && laws::registry::addresses(
            registry.evaluation,
            proxy,
            place,
        )
}

/// In an assembled plant the proxy of each state addresses the slot of its own key, and that of each
/// rate of change the slot of that key's derivative.
pub proof fn each_state_has_its_slot_and_its_rate<
    S: Clone,
    A,
    C,
    M: DynamicModel,
    G: Fn(Sensor<Ideal>) -> (S, S),
>(
    registry: RegistryView<S, A, C>,
    model: M,
    share: G,
    assembled: Plant<S, A, C, M>,
    binding: PlantBinding<S>,
    i: int,
)
    requires
        registry.wf(),
        plant::assembles(registry, model, share, Ok((assembled, binding))),
        0 <= i < model.integrable().len(),
    ensures
        assembled.states@.len() == model.integrable().len(),
        assembled.derivatives@.len() == model.integrable().len(),
        addresses_key(assembled.registry@, assembled.states@[i], model.integrable()[i]),
        addresses_key(
            assembled.registry@,
            assembled.derivatives@[i],
            model.integrable()[i] + ".derivative"@,
        ),
        assembled.registry@.keys == registry.keys,
        assembled.registry@.evaluation.values == registry.evaluation.values,
{
    let keys = model.integrable();
    let needs = plant::integration_needs(keys);
    let asked = registry.needing(needs);
    resolution::asking_changes_nothing(registry.evaluation.links, needs);
    assert(asked.wf());
    laws::registry::a_resolution_answers_every_request(asked);
    let settled = asked.resolved();
    assert(assembled.registry@.evaluation == settled.evaluation) by {
        let (mirrored, items) = choose|mirrored: RegistryView<S, A, C>, items: Seq<S>|
            {
                &&& #[trigger] plant::mirrors(settled, share, binding.actuators@, items, mirrored)
                &&& mirrored.resolve_failure() is None
                &&& assembled.registry@ == mirrored.resolved()
            };
        assert(mirrored.evaluation == settled.evaluation);
        assert(mirrored.evaluation.links.pending.len() == 0);
    }
    assert(assembled.registry@.keys == registry.keys);
    let waiting = registry.evaluation.links.pending.len() as int;
    let first = registry.evaluation.links.bindings.len() as int;
    a_need_is_answered(asked, waiting + 2 * i, needs[2 * i], assembled.states@[i]);
    a_need_is_answered(asked, waiting + 2 * i + 1, needs[2 * i + 1], assembled.derivatives@[i]);
    each_key_is_asked_for_with_its_rate(keys);
    assert(needs[2 * i] == keys[i]);
    assert(needs[2 * i + 1] == keys[i] + ".derivative"@);
    assert(addresses_key(settled, assembled.states@[i], keys[i]));
    let place = choose|place: int| #[trigger]
        laws::registry::stands_last(settled.keys, keys[i], place) && laws::registry::addresses(
            settled.evaluation,
            assembled.states@[i],
            place,
        );
    assert(laws::registry::stands_last(assembled.registry@.keys, keys[i], place));
    let rate = keys[i] + ".derivative"@;
    let other = choose|place: int| #[trigger]
        laws::registry::stands_last(settled.keys, rate, place) && laws::registry::addresses(
            settled.evaluation,
            assembled.derivatives@[i],
            place,
        );
    assert(laws::registry::stands_last(assembled.registry@.keys, rate, other));
}

/// After a resolution that succeeds, the proxy of a request addresses the last slot of its key.
pub proof fn a_need_is_answered<S, A, C>(
    asked: RegistryView<S, A, C>,
    at: int,
    key: Seq<char>,
    proxy: Proxy,
)
    requires
        asked.wf(),
        asked.resolve_failure() is None,
        0 <= at < asked.evaluation.links.pending.len(),
        asked.evaluation.links.pending[at] == (key, proxy.number()),
    ensures
        addresses_key(asked.resolved(), proxy, key),
{
    laws::registry::a_resolution_answers_every_request(asked);
    let settled = asked.resolved();
    let request = asked.evaluation.links.pending[at];
    assert(laws::registry::answered(
        asked.evaluation.links,
        asked.keys,
        settled.evaluation.links,
        request,
    ));
    let place = choose|place: int| #[trigger]
        laws::registry::stands_last(asked.keys, request.0, place) && laws::registry::carries(
            settled.evaluation.links,
            request.1,
            place,
        );
    assert(laws::registry::stands_last(settled.keys, key, place));
    assert(laws::registry::addresses(settled.evaluation, proxy, place));
}

/// A plant answers a trial of states with rates of change: each trial value stands in the slot of its
/// own state, the model is evaluated once on that, and the answer is read from the slot of each
/// derivative.
pub proof fn a_plant_answers_with_its_rates<S, A, C, M: DynamicModel>(
    before: Plant<S, A, C, M>,
    tried: Seq<u64>,
    rates: Seq<u64>,
    after: Plant<S, A, C, M>,
    states: Seq<int>,
    derivatives: Seq<int>,
) -> (given: EvaluationView)
    requires
        <Plant<S, A, C, M> as Dynamics>::responds(before, tried, rates, after),
        tried.len() == before.states@.len(),
        laws::registry::each_addresses(before.registry@.evaluation, before.states@, states),
        laws::registry::each_addresses(
            after.registry@.evaluation,
            before.derivatives@,
            derivatives,
        ),
    ensures
        laws::registry::holds_the_last(
            before.registry@.evaluation,
            states,
            tried,
            tried.len() as int,
            given,
        ),
        before.model.evaluates(before.registry@.current, given, after.registry@.evaluation),
        rates.len() == before.derivatives@.len(),
        forall|i: int|
            0 <= i < rates.len() ==> #[trigger] rates[i]
                == after.registry@.evaluation.values[derivatives[i]],
{
    laws::registry::each_value_is_scattered(
        before.registry@.evaluation,
        before.states@,
        states,
        tried,
    );
    laws::registry::each_slot_is_gathered(
        after.registry@.evaluation,
        before.derivatives@,
        derivatives,
    );
    state_registry::written(
        before.states@,
        tried,
        before.states@.len(),
        before.registry@.evaluation,
    )
}

/// The values in the slots at these places.
pub open spec fn values_at(state: EvaluationView, places: Seq<int>) -> Seq<u64> {
    Seq::new(places.len(), |i: int| state.values[places[i]])
}

/// A plant advances by one step of the method from the values in the slots of its states. What the
/// step gives for each state is put into the slot of that state, and the model is evaluated on it. A
/// plant without states is evaluated once, on what it holds.
pub proof fn a_plant_advances_by_one_step<S, A, C, M: DynamicModel>(
    before: Plant<S, A, C, M>,
    operations: Operations,
    dt: u64,
    after: Plant<S, A, C, M>,
    states: Seq<int>,
) -> (found: (Plant<S, A, C, M>, Seq<u64>, EvaluationView))
    requires
        plant::advances(before, operations, dt, after),
        laws::registry::each_addresses(before.registry@.evaluation, before.states@, states),
    ensures
        before.model.evaluates(before.registry@.current, found.2, after.registry@.evaluation),
        after.registry@.current == before.registry@.current,
        after.registry@.keys == before.registry@.keys,
        before.states@.len() == 0 ==> found.2 == before.registry@.evaluation,
        before.states@.len() > 0 ==> {
            &&& RK4.steps(
                operations,
                values_at(before.registry@.evaluation, states),
                dt,
                before,
                found.0,
                found.1,
            )
            &&& found.1.len() == states.len()
            &&& laws::registry::holds_the_last(
                found.0.registry@.evaluation,
                states,
                found.1,
                states.len() as int,
                found.2,
            )
        },
{
    if before.states@.len() == 0 {
        (before, Seq::empty(), before.registry@.evaluation)
    } else {
        laws::registry::each_slot_is_gathered(before.registry@.evaluation, before.states@, states);
        let start = state_registry::gathered(before.states@, before.registry@.evaluation);
        assert(start =~= values_at(before.registry@.evaluation, states));
        let (tried, next) = choose|tried: Plant<S, A, C, M>, next: Seq<u64>|
            {
                &&& #[trigger] RK4.steps(operations, start, dt, before, tried, next)
                &&& before.model.evaluates(
                    before.registry@.current,
                    state_registry::written(
                        before.states@,
                        next,
                        before.states@.len(),
                        tried.registry@.evaluation,
                    ),
                    after.registry@.evaluation,
                )
            };
        let (v, k) = choose|
            visited: (
                Plant<S, A, C, M>,
                Plant<S, A, C, M>,
                Plant<S, A, C, M>,
                Plant<S, A, C, M>,
                Plant<S, A, C, M>,
            ),
            slopes: (Seq<u64>, Seq<u64>, Seq<u64>, Seq<u64>),
        |
            {
                &&& #[trigger] rk4::four_answers(operations, start, dt, visited, slopes)
                &&& visited.0 == before
                &&& visited.4 == tried
                &&& next == rk4::combined(
                    operations,
                    start,
                    dt,
                    slopes.0,
                    slopes.1,
                    slopes.2,
                    slopes.3,
                )
            };
        assert(tried.registry@.evaluation.layout() == before.registry@.evaluation.layout());
        assert forall|i: int| 0 <= i < before.states@.len() implies laws::registry::addresses(
            tried.registry@.evaluation,
            #[trigger] before.states@[i],
            states[i],
        ) by {
            assert(laws::registry::addresses(
                before.registry@.evaluation,
                before.states@[i],
                states[i],
            ));
        }
        laws::registry::each_value_is_scattered(
            tried.registry@.evaluation,
            before.states@,
            states,
            next,
        );
        (
            tried,
            next,
            state_registry::written(
                before.states@,
                next,
                before.states@.len(),
                tried.registry@.evaluation,
            ),
        )
    }
}

/// Whether a double is zero or less: zero of either sign, or below it. What is no number is not.
pub open spec fn is_zero_or_below(bits: u64) -> bool {
    bits == 0 || 0x8000_0000_0000_0000 <= bits <= 0xFFF0_0000_0000_0000
}

/// A plant that is asked to stop stops, paused or not; a plant that is only paused waits; any other
/// runs, at once where its speed is not above zero and else as fast as its speed says.
pub proof fn a_turn_is_decided_by_the_control(control: ControlView)
    ensures
        control.reset_requested ==> plant::turn_of(control) == Turn::Stopped,
        !control.reset_requested && control.paused ==> plant::turn_of(control) == Turn::Paused,
        !control.reset_requested && !control.paused && is_zero_or_below(control.speed)
            ==> plant::turn_of(control) == Turn::Run(Pace::Immediately),
        !control.reset_requested && !control.paused && !is_zero_or_below(control.speed)
            ==> plant::turn_of(control) == Turn::Run(Pace::Scaled(control.speed)),
        is_zero_or_below(control.speed) ==> plant::pace_at(control.speed) == Pace::Immediately,
        !is_zero_or_below(control.speed) ==> plant::pace_at(control.speed) == Pace::Scaled(
            control.speed,
        ),
{
}

/// A tick obeys its commands first. A plant that is asked to stop or is paused is then left as the
/// commands left it. Any other advances from there by one step, confirms every slot, counts one
/// generation and moves its clock by the step.
pub proof fn a_tick_obeys_steps_and_confirms<S, A: Actuator, C, M: DynamicModel>(
    before: Plant<S, A, C, M>,
    control: ControlView,
    commands: Seq<(String, u64)>,
    operations: Operations,
    dt: u64,
    tick: Tick,
    after: Plant<S, A, C, M>,
    control_after: ControlView,
) -> (found: (Plant<S, A, C, M>, Plant<S, A, C, M>))
    requires
        before.registry@.current.generation < u64::MAX,
        plant::ticks(before, control, commands, operations, dt, tick, after, control_after),
    ensures
        plant::only_commanded(before, commands, found.0),
        control_after.paused == control.paused,
        control_after.speed == control.speed,
        !control_after.reset_requested,
        control.reset_requested || control.paused ==> {
            &&& tick == if control.reset_requested {
                Tick::Stopped
            } else {
                Tick::Paused
            }
            &&& after.registry@ == found.0.registry@
            &&& control_after.t_h == control.t_h
        },
        !control.reset_requested && !control.paused ==> {
            &&& tick == Tick::Advanced(
                if is_zero_or_below(control.speed) {
                    Pace::Immediately
                } else {
                    Pace::Scaled(control.speed)
                },
            )
            &&& plant::advances(found.0, operations, dt, found.1)
            &&& after.registry@.evaluation == found.1.registry@.evaluation
            &&& after.registry@.current.values == found.1.registry@.evaluation.values
            &&& after.registry@.current.generation == before.registry@.current.generation + 1
            &&& control_after.t_h == (operations.plus)(control.t_h, dt)
        },
{
    let ordered = choose|ordered: Plant<S, A, C, M>|
        {
            &&& #[trigger] plant::only_commanded(before, commands, ordered)
            &&& plant::takes_its_turn(
                ordered,
                control,
                operations,
                dt,
                tick,
                after,
                control_after,
            )
        };
    if control.reset_requested || control.paused {
        (ordered, ordered)
    } else {
        let stepped = choose|stepped: Plant<S, A, C, M>|
            {
                &&& #[trigger] plant::advances(ordered, operations, dt, stepped)
                &&& plant::confirmed(stepped, after)
            };
        (ordered, stepped)
    }
}

/// Whether the names are those of the list, each of them once.
pub open spec fn lists_each_once(names: Seq<Seq<char>>, listed: Seq<Seq<char>>) -> bool {
    &&& listed.no_duplicates()
    &&& forall|name: Seq<char>| #[trigger] listed.contains(name) <==> names.contains(name)
}

/// The outside gets every sensor of the catalog once, under its own name: a handle on the item that
/// stands last under that name.
pub proof fn each_sensor_is_handed_out_under_its_name<S: Clone>(
    catalog: CatalogView<S>,
    list: Seq<(String, S)>,
)
    requires
        catalog.wf(),
        plant::catalogued(catalog, list),
    ensures
        lists_each_once(catalog.names, Seq::new(list.len(), |i: int| list[i].0@)),
        forall|i: int, place: int|
            0 <= i < list.len() && #[trigger] laws::registry::stands_last(
                catalog.names,
                (#[trigger] list[i]).0@,
                place,
            ) ==> cloned(catalog.items[place], list[i].1),
{
    laws::registry::every_name_is_listed_once(catalog.names);
    assert(Seq::new(list.len(), |i: int| list[i].0@) =~= text::effective_names(
        catalog.names,
        catalog.names.len(),
    ));
    assert forall|i: int, place: int|
        0 <= i < list.len() && #[trigger] laws::registry::stands_last(
            catalog.names,
            (#[trigger] list[i]).0@,
            place,
        ) implies cloned(catalog.items[place], list[i].1) by {
        text::last_position_is_last(catalog.names, list[i].0@);
    }
}

/// The outside gets a mirror of every actuator once, under its own name: an ideal sensor that waits for
/// the key of that name, and that the catalog has under it too.
pub proof fn each_actuator_is_mirrored_under_its_name<S, A, C, G: Fn(Sensor<Ideal>) -> (S, S)>(
    before: RegistryView<S, A, C>,
    share: G,
    list: Seq<(String, S)>,
    items: Seq<S>,
    after: RegistryView<S, A, C>,
    i: int,
) -> (mirror: Sensor<Ideal>)
    requires
        before.wf(),
        plant::mirrors(before, share, list, items, after),
        0 <= i < list.len(),
    ensures
        lists_each_once(before.actuators.names, Seq::new(list.len(), |i: int| list[i].0@)),
        after.current.links.pending.contains((list[i].0@, mirror@.proxy.number())),
        call_ensures(share, (mirror,), (items[i], list[i].1)),
        mirror@.cached is None,
        after.sensors.names[before.sensors.names.len() + i] == list[i].0@,
        after.sensors.items[before.sensors.items.len() + i] == items[i],
        after.sensors.items.len() == before.sensors.items.len() + list.len(),
        after.evaluation == before.evaluation,
        after.actuators == before.actuators,
        after.keys == before.keys,
{
    let names = text::effective_names(before.actuators.names, before.actuators.names.len());
    laws::registry::every_name_is_listed_once(before.actuators.names);
    assert(Seq::new(list.len(), |i: int| list[i].0@) =~= names);
    let number = before.current.links.bindings.len() + i;
    assert(plant::is_mirror(share, number, items[i], list[i].1));
    let mirror = choose|sensor: Sensor<Ideal>|
        {
            &&& #[trigger] sensor@.proxy.number() == number
            &&& sensor@.cached is None
            &&& call_ensures(share, (sensor,), (items[i], list[i].1))
        };
    let waiting = before.current.links.pending.len() as int;
    assert(plant::names_of(list)[i] == list[i].0@);
    assert(after.current.links.pending[waiting + i] == (names[i], number));
    mirror
}

/// An assembly fails where a key is missing, with the message that names it. One that succeeds hands out
/// the sensors of the catalog, and then a mirror of each actuator.
pub proof fn an_assembly_hands_out_sensors_and_mirrors<
    S: Clone,
    A,
    C,
    M: DynamicModel,
    G: Fn(Sensor<Ideal>) -> (S, S),
>(
    registry: RegistryView<S, A, C>,
    model: M,
    share: G,
    assembled: Result<(Plant<S, A, C, M>, PlantBinding<S>), AssemblyError>,
)
    requires
        plant::assembles(registry, model, share, assembled),
    ensures
        ({
            let asked = registry.needing(plant::integration_needs(model.integrable()));
            &&& asked.resolve_failure() matches Some(reason) ==> (assembled matches Err(
                AssemblyError::Registry(message),
            ) && message@ == reason)
            &&& assembled matches Err(AssemblyError::Registry(message)) ==> asked.resolve_failure()
                == Some(message@)
            &&& assembled matches Ok((made, binding)) ==> {
                &&& made.model == model
                &&& plant::catalogued(registry.sensors, binding.sensors@)
                &&& exists|mirrored: RegistryView<S, A, C>, items: Seq<S>| #[trigger]
                    plant::mirrors(asked.resolved(), share, binding.actuators@, items, mirrored)
                        && mirrored.resolve_failure() is None && made.registry@
                        == mirrored.resolved()
            }
        }),
{
}

/// Reading a list gives one reading for each entry, under the name of the entry and of the sensor of
/// the entry.
pub proof fn each_reading_comes_from_its_own_sensor<S: sensor::Sensor>(
    before: Seq<(String, S)>,
    current: CurrentView,
    readings: Seq<(String, u64)>,
    after: Seq<(String, S)>,
    i: int,
)
    requires
        plant::all_read(before, current, readings, after),
        0 <= i < before.len(),
    ensures
        readings.len() == before.len(),
        after.len() == before.len(),
        readings[i].0@ == before[i].0@,
        after[i].0@ == before[i].0@,
        S::reads(before[i].1, current, readings[i].1, after[i].1),
{
}

} // verus!
