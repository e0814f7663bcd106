//! What holds of a registry whatever its components ask for and offer.
use crate::links::LinksView;
use crate::state_registry::{
    ActuatorHandle, EvaluationView, Proxy, ReadProxy, RegistryView, SensorHandle,
};
use crate::{links, state_registry, text};
use vstd::prelude::*;

verus! {

/// The names that the waiting requests ask for.
pub open spec fn requested_names(links: LinksView) -> Seq<Seq<char>> {
    Seq::new(links.pending.len(), |i: int| links.pending[i].0)
}

/// Which name is missing depends only on the names asked for and the names offered.
pub proof fn missing_name_ignores_tickets(a: LinksView, b: LinksView, names: Seq<Seq<char>>)
    requires
        requested_names(a) == requested_names(b),
    ensures
        a.missing(names) == b.missing(names),
    decreases a.pending.len(),
{
    assert(a.pending.len() == requested_names(a).len());
    assert(b.pending.len() == requested_names(b).len());
    if a.pending.len() > 0 {
        assert(requested_names(a)[0] == requested_names(b)[0]);
        let place = text::last_position(names, a.pending[0].0);
        if place is Some {
            let next_a = LinksView {
                bindings: a.bindings.update(a.pending[0].1, place),
                pending: a.pending.drop_first(),
            };
            let next_b = LinksView {
                bindings: b.bindings.update(b.pending[0].1, place),
                pending: b.pending.drop_first(),
            };
            assert(requested_names(next_a) =~= requested_names(a).drop_first());
            assert(requested_names(next_b) =~= requested_names(b).drop_first());
            missing_name_ignores_tickets(next_a, next_b, names);
        }
    }
}

/// A need and an offer meet in either order: the resolution fails with the same message or
/// succeeds both times, and where it succeeds the needed proxy addresses the same slot.
pub proof fn need_and_offer_meet_in_either_order<S, A, C>(
    registry: RegistryView<S, A, C>,
    offers: Seq<Seq<char>>,
    key: Seq<char>,
    after: Proxy,
    before: Proxy,
)
    requires
        registry.wf(),
        registry.keys.len() + offers.len() <= usize::MAX,
        after.number() == registry.evaluation.links.bindings.len() + offers.len(),
        before.number() == registry.evaluation.links.bindings.len(),
    ensures
        ({
            let offer_first = registry.offering(offers).needing(seq![key]);
            let need_first = registry.needing(seq![key]).offering(offers);
            &&& offer_first.resolve_failure() == need_first.resolve_failure()
            &&& offer_first.resolve_failure() is None
                ==> offer_first.resolved().evaluation.layout().position(after)
                == need_first.resolved().evaluation.layout().position(before)
                && offer_first.resolved().evaluation.layout().resolved(after)
        }),
{
    let one = seq![key];
    let offer_first = registry.offering(offers).needing(one);
    let need_first = registry.needing(one).offering(offers);
    let a = offer_first.evaluation.links;
    let b = need_first.evaluation.links;
    let n = registry.evaluation.links.pending.len() as int;
    assert(offer_first.keys =~= need_first.keys);
    assert(requested_names(a) =~= requested_names(b));
    missing_name_ignores_tickets(a, b, offer_first.keys);
    assert(offer_first.resolve_failure() == need_first.resolve_failure());
    let places = Seq::new(
        offers.len(),
        |i: int| Some((registry.evaluation.values.len() + i) as usize),
    );
    links::answered_tickets_change_nothing(registry.evaluation.links, places);
    links::a_request_changes_nothing(registry.offering(offers).evaluation.links, key);
    assert(a =~= registry.offering(offers).evaluation.links.requested(key));
    links::a_request_changes_nothing(registry.evaluation.links, key);
    links::answered_tickets_change_nothing(registry.evaluation.links.requested(key), places);
    assert(registry.needing(one).evaluation.links =~= registry.evaluation.links.requested(key));
    assert(b =~= LinksView {
        bindings: registry.evaluation.links.requested(key).bindings + places,
        pending: registry.evaluation.links.requested(key).pending,
    });
    if offer_first.resolve_failure() is None {
        assert(a.pending[n] == (key, after.number()));
        assert(b.pending[n] == (key, before.number()));
        links::settled_tickets_carry_their_place(a, offer_first.keys, n);
        links::settled_tickets_carry_their_place(b, need_first.keys, n);
        text::last_position_is_last(offer_first.keys, key);
    }
}

/// After a resolution without failure, a proxy that was waiting addresses the slot of its key.
pub proof fn a_waiting_proxy_is_answered<S, A, C>(
    registry: RegistryView<S, A, C>,
    i: int,
    holder: Proxy,
)
    requires
        registry.wf(),
        registry.resolve_failure() is None,
        0 <= i < registry.evaluation.links.pending.len(),
        registry.evaluation.links.pending[i].1 == holder.number(),
    ensures
        registry.resolved().evaluation.layout().position(holder) == text::last_position(
            registry.keys,
            registry.evaluation.links.pending[i].0,
        ),
        registry.resolved().evaluation.layout().resolved(holder),
{
    links::settled_tickets_carry_their_place(registry.evaluation.links, registry.keys, i);
    text::last_position_is_last(registry.keys, registry.evaluation.links.pending[i].0);
}

/// After a resolution without failure, a read proxy that was waiting addresses the slot of its key.
pub proof fn a_waiting_reader_is_answered<S, A, C>(
    registry: RegistryView<S, A, C>,
    i: int,
    holder: ReadProxy,
)
    requires
        registry.wf(),
        registry.resolve_failure() is None,
        0 <= i < registry.current.links.pending.len(),
        registry.current.links.pending[i].1 == holder.number(),
    ensures
        registry.resolved().current.position(holder) == text::last_position(
            registry.keys,
            registry.current.links.pending[i].0,
        ),
        registry.resolved().current.resolved(holder),
{
    links::settled_tickets_carry_their_place(registry.current.links, registry.keys, i);
    text::last_position_is_last(registry.keys, registry.current.links.pending[i].0);
}

/// After a resolution without failure, a sensor handle that was waiting has the sensor of its name.
pub proof fn a_waiting_sensor_handle_is_answered<S, A, C>(
    registry: RegistryView<S, A, C>,
    i: int,
    holder: SensorHandle,
)
    requires
        registry.wf(),
        registry.resolve_failure() is None,
        0 <= i < registry.sensor_links.pending.len(),
        registry.sensor_links.pending[i].1 == holder.number(),
    ensures
        registry.resolved().sensor_links.position(holder.number()) == text::last_position(
            registry.sensors.names,
            registry.sensor_links.pending[i].0,
        ),
        registry.resolved().sensor_resolved(holder),
{
    links::settled_tickets_carry_their_place(registry.sensor_links, registry.sensors.names, i);
    text::last_position_is_last(registry.sensors.names, registry.sensor_links.pending[i].0);
}

/// After a resolution without failure, an actuator handle that was waiting has the actuator of its
/// name.
pub proof fn a_waiting_actuator_handle_is_answered<S, A, C>(
    registry: RegistryView<S, A, C>,
    i: int,
    holder: ActuatorHandle,
)
    requires
        registry.wf(),
        registry.resolve_failure() is None,
        0 <= i < registry.actuator_links.pending.len(),
        registry.actuator_links.pending[i].1 == holder.number(),
    ensures
        registry.resolved().actuator_links.position(holder.number()) == text::last_position(
            registry.actuators.names,
            registry.actuator_links.pending[i].0,
        ),
        registry.resolved().actuator_resolved(holder),
{
    links::settled_tickets_carry_their_place(registry.actuator_links, registry.actuators.names, i);
    text::last_position_is_last(registry.actuators.names, registry.actuator_links.pending[i].0);
}

/// Asking leaves the requests that were there as they are.
pub proof fn asking_changes_nothing(before: LinksView, names: Seq<Seq<char>>)
    requires
        before.wf(),
    ensures
        state_registry::asking(before, names).wf(),
    decreases names.len(),
{
    let after = state_registry::asking(before, names);
    if names.len() == 0 {
        assert(after =~= before);
    } else {
        asking_changes_nothing(before, names.drop_last());
        let earlier = state_registry::asking(before, names.drop_last());
        links::a_request_changes_nothing(earlier, names.last());
        assert(after =~= earlier.requested(names.last()));
    }
}

/// After a resolution without failure, every proxy that was ever handed out addresses a slot.
pub proof fn every_proxy_works_after_a_resolution<S, A, C>(
    registry: RegistryView<S, A, C>,
    holder: Proxy,
)
    requires
        registry.wf(),
        registry.resolve_failure() is None,
        0 <= holder.number() < registry.evaluation.links.bindings.len(),
    ensures
        registry.resolved().evaluation.layout().resolved(holder),
{
    let settled = registry.evaluation.links.settled(registry.keys);
    links::settling_keeps_places(registry.evaluation.links, registry.keys);
    links::settling_stays_within(registry.evaluation.links, registry.keys);
    links::all_tickets_are_answered(registry.evaluation.links, registry.keys, holder.number());
    assert(settled.bindings[holder.number()] is Some);
}

/// After a resolution without failure, every read proxy that was ever handed out addresses a slot.
pub proof fn every_reader_works_after_a_resolution<S, A, C>(
    registry: RegistryView<S, A, C>,
    holder: ReadProxy,
)
    requires
        registry.wf(),
        registry.resolve_failure() is None,
        0 <= holder.number() < registry.current.links.bindings.len(),
    ensures
        registry.resolved().current.outline().resolved(holder),
{
    let settled = registry.current.links.settled(registry.keys);
    links::settling_keeps_places(registry.current.links, registry.keys);
    links::settling_stays_within(registry.current.links, registry.keys);
    links::all_tickets_are_answered(registry.current.links, registry.keys, holder.number());
    assert(settled.bindings[holder.number()] is Some);
}

/// Two requests for the same sensor end up with the same item.
pub proof fn two_needs_of_a_sensor_share_it<S, A, C>(
    registry: RegistryView<S, A, C>,
    name: Seq<char>,
    first: SensorHandle,
    second: SensorHandle,
)
    requires
        registry.wf(),
        first.number() == registry.sensor_links.bindings.len(),
        second.number() == registry.sensor_links.bindings.len() + 1,
    ensures
        ({
            let asked = RegistryView {
                sensor_links: registry.sensor_links.requested(name).requested(name),
                ..registry
            };
            asked.resolve_failure() is None ==> {
                &&& asked.resolved().sensor_resolved(first)
                &&& asked.resolved().sensor_resolved(second)
                &&& asked.resolved().sensor_links.position(first.number())
                    == asked.resolved().sensor_links.position(second.number())
            }
        }),
{
    let links = registry.sensor_links.requested(name).requested(name);
    let asked = RegistryView { sensor_links: links, ..registry };
    let n = registry.sensor_links.pending.len() as int;
    links::a_request_changes_nothing(registry.sensor_links, name);
    links::a_request_changes_nothing(registry.sensor_links.requested(name), name);
    if asked.resolve_failure() is None {
        assert(links.pending[n] == (name, first.number()));
        assert(links.pending[n + 1] == (name, second.number()));
        a_waiting_sensor_handle_is_answered(asked, n, first);
        a_waiting_sensor_handle_is_answered(asked, n + 1, second);
    }
}

/// Two requests for the same actuator end up with the same item.
pub proof fn two_needs_of_an_actuator_share_it<S, A, C>(
    registry: RegistryView<S, A, C>,
    name: Seq<char>,
    first: ActuatorHandle,
    second: ActuatorHandle,
)
    requires
        registry.wf(),
        first.number() == registry.actuator_links.bindings.len(),
        second.number() == registry.actuator_links.bindings.len() + 1,
    ensures
        ({
            let asked = RegistryView {
                actuator_links: registry.actuator_links.requested(name).requested(name),
                ..registry
            };
            asked.resolve_failure() is None ==> {
                &&& asked.resolved().actuator_resolved(first)
                &&& asked.resolved().actuator_resolved(second)
                &&& asked.resolved().actuator_links.position(first.number())
                    == asked.resolved().actuator_links.position(second.number())
            }
        }),
{
    let links = registry.actuator_links.requested(name).requested(name);
    let asked = RegistryView { actuator_links: links, ..registry };
    let n = registry.actuator_links.pending.len() as int;
    links::a_request_changes_nothing(registry.actuator_links, name);
    links::a_request_changes_nothing(registry.actuator_links.requested(name), name);
    if asked.resolve_failure() is None {
        assert(links.pending[n] == (name, first.number()));
        assert(links.pending[n + 1] == (name, second.number()));
        a_waiting_actuator_handle_is_answered(asked, n, first);
        a_waiting_actuator_handle_is_answered(asked, n + 1, second);
    }
}

/// A resolution fails exactly where some requested name is offered by nobody.
pub proof fn resolution_fails_on_a_missing_offer<S, A, C>(registry: RegistryView<S, A, C>)
    ensures
        registry.resolve_failure() is None <==> {
            &&& forall|i: int|
                0 <= i < registry.evaluation.links.pending.len() ==> text::last_position(
                    registry.keys,
                    (#[trigger] registry.evaluation.links.pending[i]).0,
                ) is Some
            &&& forall|i: int|
                0 <= i < registry.current.links.pending.len() ==> text::last_position(
                    registry.keys,
                    (#[trigger] registry.current.links.pending[i]).0,
                ) is Some
            &&& forall|i: int|
                0 <= i < registry.sensor_links.pending.len() ==> text::last_position(
                    registry.sensors.names,
                    (#[trigger] registry.sensor_links.pending[i]).0,
                ) is Some
            &&& forall|i: int|
                0 <= i < registry.actuator_links.pending.len() ==> text::last_position(
                    registry.actuators.names,
                    (#[trigger] registry.actuator_links.pending[i]).0,
                ) is Some
        },
{
    links::missing_means_not_offered(registry.evaluation.links, registry.keys);
    links::missing_means_not_offered(registry.current.links, registry.keys);
    links::missing_means_not_offered(registry.sensor_links, registry.sensors.names);
    links::missing_means_not_offered(registry.actuator_links, registry.actuators.names);
}

/// A proxy that addresses a slot addresses it for good: subscriptions, resolutions and commits
/// leave the slot where it is.
pub proof fn a_place_is_permanent<S, A, C>(
    registry: RegistryView<S, A, C>,
    proxy: Proxy,
    offers: Seq<Seq<char>>,
    needs: Seq<Seq<char>>,
)
    requires
        registry.wf(),
        registry.evaluation.layout().resolved(proxy),
    ensures
        ({
            let place = registry.evaluation.layout().position(proxy);
            &&& registry.offering(offers).evaluation.layout().position(proxy) == place
            &&& registry.needing(needs).evaluation.layout().position(proxy) == place
            &&& registry.resolved().evaluation.layout().position(proxy) == place
            &&& registry.committed().evaluation.layout().position(proxy) == place
            &&& registry.offering(offers).evaluation.get(proxy) == registry.evaluation.get(proxy)
            &&& registry.offering(offers).keys[place->0 as int] == registry.keys[place->0 as int]
        }),
{
    let place = registry.evaluation.layout().position(proxy);
    let kept = registry.offering(offers).evaluation;
    assert(kept.links.bindings[proxy.number()]
        == registry.evaluation.links.bindings[proxy.number()]);
    assert(registry.needing(needs).evaluation.links.bindings[proxy.number()]
        == registry.evaluation.links.bindings[proxy.number()]);
    links::settling_keeps_places(registry.evaluation.links, registry.keys);
    assert(kept.values[place->0 as int] == registry.evaluation.values[place->0 as int]);
}

/// What is written to a slot is what a commit confirms: the key of the slot, and every read proxy
/// on it, give the value back.
pub proof fn a_commit_confirms_what_was_written<S, A, C>(
    registry: RegistryView<S, A, C>,
    proxy: Proxy,
    key: Seq<char>,
    value: u64,
    reader: ReadProxy,
)
    requires
        registry.wf(),
        registry.current.generation < u64::MAX,
        registry.evaluation.layout().resolved(proxy),
        registry.evaluation.layout().position(proxy) == text::last_position(registry.keys, key),
    ensures
        ({
            let written = RegistryView {
                evaluation: registry.evaluation.set(proxy, value),
                ..registry
            };
            &&& written.committed().value_of(key) == Some(value)
            &&& registry.current.position(reader) == registry.evaluation.layout().position(proxy)
                ==> written.committed().current.resolved(reader) && written.committed().current.get(
                reader,
            ) == value
        }),
{
}

/// A value that is only written, and not committed, is seen by no reader.
pub proof fn an_uncommitted_write_is_invisible<S, A, C>(
    registry: RegistryView<S, A, C>,
    evaluation: EvaluationView,
    key: Seq<char>,
)
    ensures
        ({
            let tried = RegistryView { evaluation, ..registry };
            &&& tried.current == registry.current
            &&& tried.value_of(key) == registry.value_of(key)
        }),
{
}

/// No key has a value before the first commit, and every offered key has one after it.
pub proof fn values_appear_with_the_first_commit<S, A, C>(
    registry: RegistryView<S, A, C>,
    key: Seq<char>,
)
    requires
        registry.wf(),
        registry.current.generation < u64::MAX,
    ensures
        registry.current.generation == 0 ==> registry.value_of(key) is None,
        registry.committed().value_of(key) is Some <==> registry.keys.contains(key),
{
    text::last_position_is_last(registry.keys, key);
}

} // verus!
