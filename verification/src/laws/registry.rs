//! Laws of the registry: what it keeps for whoever writes to it, asks it for a key and reads from it.
use crate::catalog::CatalogView;
use crate::links::LinksView;
use crate::state_registry::{CommandCell, CurrentView, EvaluationView, Proxy, ReadProxy, RegistryView};
use crate::{links, state_registry, text};
use vstd::prelude::*;

verus! {

/// Whether this place is written on this ticket.
pub open spec fn carries(links: LinksView, ticket: int, place: int) -> bool {
    0 <= ticket < links.bindings.len() && (links.bindings[ticket] matches Some(p) && p == place)
}

/// Whether the proxy addresses the slot at this place.
pub open spec fn addresses(state: EvaluationView, proxy: Proxy, place: int) -> bool {
    carries(state.links, proxy.number(), place) && 0 <= place < state.values.len()
}

/// Whether the read proxy addresses the slot at this place.
pub open spec fn shows(current: CurrentView, reader: ReadProxy, place: int) -> bool {
    carries(current.links, reader.number(), place) && 0 <= place < current.values.len()
}

/// A proxy reads the slot that it addresses, and writes that slot and no other.
pub proof fn a_proxy_keeps_to_its_slot(
    state: EvaluationView,
    proxy: Proxy,
    place: int,
    value: u64,
)
    requires
        addresses(state, proxy, place),
    ensures
        state.layout().resolved(proxy),
        state.get(proxy) == state.values[place],
        state.set(proxy, value).values.len() == state.values.len(),
        state.set(proxy, value).values[place] == value,
        forall|i: int|
            0 <= i < state.values.len() && i != place ==> #[trigger] state.set(
                proxy,
                value,
            ).values[i] == state.values[i],
        state.set(proxy, value).links == state.links,
        state.set(proxy, value).commands == state.commands,
        state.set(proxy, value).get(proxy) == value,
{
}

/// A command is kept in its cell and in no other, and no slot changes.
pub proof fn a_command_keeps_to_its_cell(state: EvaluationView, cell: CommandCell, value: u64)
    requires
        0 <= cell.number() < state.commands.len(),
    ensures
        state.layout().has_command(cell),
        state.command(cell) == state.commands[cell.number()],
        state.commanded(cell, value).command(cell) == value,
        state.commanded(cell, value).commands.len() == state.commands.len(),
        state.commanded(cell, value).commands[cell.number()] == value,
        forall|i: int|
            0 <= i < state.commands.len() && i != cell.number() ==> #[trigger] state.commanded(
                cell,
                value,
            ).commands[i] == state.commands[i],
        state.commanded(cell, value).values == state.values,
        state.commanded(cell, value).links == state.links,
{
}

/// A read proxy shows the confirmed value of the slot that it addresses.
pub proof fn a_reader_shows_its_slot(current: CurrentView, reader: ReadProxy, place: int)
    requires
        shows(current, reader, place),
    ensures
        current.resolved(reader),
        current.outline().resolved(reader),
        current.get(reader) == current.values[place],
{
}

/// Whether each proxy addresses the slot at its place.
pub open spec fn each_addresses(
    state: EvaluationView,
    proxies: Seq<Proxy>,
    places: Seq<int>,
) -> bool {
    &&& places.len() == proxies.len()
    &&& forall|i: int|
        0 <= i < proxies.len() ==> addresses(state, #[trigger] proxies[i], places[i])
}

/// Gathering reads the slot of each proxy, in the order of the proxies.
pub proof fn each_slot_is_gathered(state: EvaluationView, proxies: Seq<Proxy>, places: Seq<int>)
    requires
        each_addresses(state, proxies, places),
    ensures
        state_registry::all_resolved(proxies, state.layout()),
        state_registry::gathered(proxies, state).len() == proxies.len(),
        forall|i: int|
            0 <= i < proxies.len() ==> #[trigger] state_registry::gathered(proxies, state)[i]
                == state.values[places[i]],
{
    assert forall|i: int| 0 <= i < proxies.len() implies state.layout().resolved(
        #[trigger] proxies[i],
    ) by {
        assert(addresses(state, proxies[i], places[i]));
    }
    assert forall|i: int| 0 <= i < proxies.len() implies #[trigger] state_registry::gathered(
        proxies,
        state,
    )[i] == state.values[places[i]] by {
        assert(addresses(state, proxies[i], places[i]));
    }
}

/// Whether the slots hold what was written to them: each the last value that was written to it, and
/// each to which nothing was written what it held.
pub open spec fn holds_the_last(
    before: EvaluationView,
    places: Seq<int>,
    values: Seq<u64>,
    n: int,
    after: EvaluationView,
) -> bool {
    &&& after.values.len() == before.values.len()
    &&& after.links == before.links
    &&& after.commands == before.commands
    &&& forall|i: int|
        0 <= i < n && (forall|j: int| i < j < n ==> #[trigger] places[j] != places[i])
            ==> after.values[#[trigger] places[i]] == values[i]
    &&& forall|p: int|
        0 <= p < before.values.len() && (forall|j: int| 0 <= j < n ==> #[trigger] places[j] != p)
            ==> #[trigger] after.values[p] == before.values[p]
}

proof fn slots_hold_the_last(
    before: EvaluationView,
    proxies: Seq<Proxy>,
    places: Seq<int>,
    values: Seq<u64>,
    n: nat,
)
    requires
        each_addresses(before, proxies, places),
        values.len() == proxies.len(),
        n <= proxies.len(),
    ensures
        holds_the_last(
            before,
            places,
            values,
            n as int,
            state_registry::written(proxies, values, n, before),
        ),
    decreases n,
{
    if n > 0 {
        let m = (n - 1) as nat;
        slots_hold_the_last(before, proxies, places, values, m);
        let earlier = state_registry::written(proxies, values, m, before);
        let after = state_registry::written(proxies, values, n, before);
        let last = places[m as int];
        assert(addresses(before, proxies[m as int], last));
        a_proxy_keeps_to_its_slot(earlier, proxies[m as int], last, values[m as int]);
        assert(after == earlier.set(proxies[m as int], values[m as int]));
        assert forall|i: int|
            0 <= i < n && (forall|j: int| i < j < n ==> #[trigger] places[j] != places[i]) implies
            after.values[#[trigger] places[i]] == values[i] by {
            if i < m {
                assert(places[m as int] != places[i]);
                assert(addresses(before, proxies[i], places[i]));
                assert(earlier.values[places[i]] == values[i]);
            }
        }
        assert forall|p: int|
            0 <= p < before.values.len() && (forall|j: int|
                0 <= j < n ==> #[trigger] places[j] != p) implies #[trigger] after.values[p]
            == before.values[p] by {
            assert(places[m as int] != p);
            assert(earlier.values[p] == before.values[p]);
        }
    }
}

/// Scattering puts each value into the slot of its own proxy, and into no other; where two proxies
/// address one slot the later value stays.
pub proof fn each_value_is_scattered(
    before: EvaluationView,
    proxies: Seq<Proxy>,
    places: Seq<int>,
    values: Seq<u64>,
)
    requires
        each_addresses(before, proxies, places),
        values.len() == proxies.len(),
    ensures
        holds_the_last(
            before,
            places,
            values,
            proxies.len() as int,
            state_registry::written(proxies, values, proxies.len(), before),
        ),
{
    slots_hold_the_last(before, proxies, places, values, proxies.len());
}

/// What was scattered over slots of their own is gathered again, value by value.
pub proof fn what_was_scattered_is_gathered(
    before: EvaluationView,
    proxies: Seq<Proxy>,
    places: Seq<int>,
    values: Seq<u64>,
)
    requires
        each_addresses(before, proxies, places),
        values.len() == proxies.len(),
        places.no_duplicates(),
    ensures
        state_registry::gathered(
            proxies,
            state_registry::written(proxies, values, proxies.len(), before),
        ) == values,
{
    let after = state_registry::written(proxies, values, proxies.len(), before);
    each_value_is_scattered(before, proxies, places, values);
    assert forall|i: int| 0 <= i < proxies.len() implies addresses(
        after,
        #[trigger] proxies[i],
        places[i],
    ) by {
        assert(addresses(before, proxies[i], places[i]));
    }
    each_slot_is_gathered(after, proxies, places);
    assert forall|i: int| 0 <= i < proxies.len() implies #[trigger] state_registry::gathered(
        proxies,
        after,
    )[i] == values[i] by {
        assert(after.values[places[i]] == values[i]);
    }
    assert(state_registry::gathered(proxies, after) =~= values);
}

/// Each key that is offered gets a slot of its own at zero, behind the slots that are there, and its
/// proxy addresses it at once. Whatever was there stays as it is.
pub proof fn each_offer_opens_a_slot<S, A, C>(
    registry: RegistryView<S, A, C>,
    offers: Seq<Seq<char>>,
)
    requires
        registry.wf(),
        registry.keys.len() + offers.len() <= usize::MAX,
    ensures
        ({
            let after = registry.offering(offers);
            let slots = registry.keys.len() as int;
            let tickets = registry.evaluation.links.bindings.len() as int;
            &&& after.keys.len() == slots + offers.len()
            &&& after.evaluation.values.len() == slots + offers.len()
            &&& after.evaluation.links.bindings.len() == tickets + offers.len()
            &&& forall|i: int|
                0 <= i < offers.len() ==> {
                    &&& after.keys[slots + i] == #[trigger] offers[i]
                    &&& after.evaluation.values[slots + i] == 0
                    &&& carries(after.evaluation.links, tickets + i, slots + i)
                }
            &&& forall|p: int|
                0 <= p < slots ==> {
                    &&& #[trigger] after.keys[p] == registry.keys[p]
                    &&& after.evaluation.values[p] == registry.evaluation.values[p]
                }
            &&& forall|t: int|
                0 <= t < tickets ==> #[trigger] after.evaluation.links.bindings[t]
                    == registry.evaluation.links.bindings[t]
            &&& after.evaluation.links.pending == registry.evaluation.links.pending
            &&& after.evaluation.commands == registry.evaluation.commands
            &&& after.current == registry.current
            &&& after.sensors == registry.sensors
            &&& after.sensor_links == registry.sensor_links
            &&& after.actuators == registry.actuators
            &&& after.actuator_links == registry.actuator_links
            &&& after.controllers == registry.controllers
        }),
{
}

/// Whether `after` is `before` with one more ticket for each name, which waits for that name.
pub open spec fn each_waits(before: LinksView, names: Seq<Seq<char>>, after: LinksView) -> bool {
    let tickets = before.bindings.len() as int;
    let waiting = before.pending.len() as int;
    &&& after.bindings.len() == tickets + names.len()
    &&& after.pending.len() == waiting + names.len()
    &&& forall|i: int|
        0 <= i < names.len() ==> {
            &&& after.pending[waiting + i] == (#[trigger] names[i], tickets + i)
            &&& after.bindings[tickets + i] is None
        }
    &&& forall|t: int| 0 <= t < tickets ==> #[trigger] after.bindings[t] == before.bindings[t]
    &&& forall|i: int| 0 <= i < waiting ==> #[trigger] after.pending[i] == before.pending[i]
}

/// Each key that is asked for gets a ticket of its own that waits for it, among the proxies or among
/// the read proxies. Whatever was there stays as it is.
pub proof fn each_need_waits_for_its_key<S, A, C>(
    registry: RegistryView<S, A, C>,
    needs: Seq<Seq<char>>,
)
    ensures
        each_waits(
            registry.evaluation.links,
            needs,
            registry.needing(needs).evaluation.links,
        ),
        each_waits(registry.current.links, needs, registry.reading(needs).current.links),
        registry.needing(needs) == (RegistryView {
            evaluation: EvaluationView {
                links: registry.needing(needs).evaluation.links,
                ..registry.evaluation
            },
            ..registry
        }),
        registry.reading(needs) == (RegistryView {
            current: CurrentView {
                links: registry.reading(needs).current.links,
                ..registry.current
            },
            ..registry
        }),
{
}

/// Each name that is asked for gets a ticket of its own that waits for it, be it asked for alone or
/// among others.
pub proof fn each_request_waits_for_its_name(links: LinksView, names: Seq<Seq<char>>, name: Seq<char>)
    ensures
        each_waits(links, names, state_registry::asking(links, names)),
        each_waits(links, seq![name], links.requested(name)),
{
}

/// A list of requests is seen with the name and the ticket of each.
pub proof fn requests_keep_name_and_ticket(pending: Seq<(String, usize)>)
    ensures
        links::requests(pending).len() == pending.len(),
        forall|i: int|
            0 <= i < pending.len() ==> links::requests(pending)[i].0 == (#[trigger] pending[i]).0@
                && links::requests(pending)[i].1 == pending[i].1,
{
}

/// A ticket with its place on it comes behind the others, which stay as they are.
pub proof fn a_bound_ticket_carries_its_place(before: LinksView, place: usize)
    ensures
        carries(before.bound(place), before.bindings.len() as int, place as int),
        before.bound(place).bindings.len() == before.bindings.len() + 1,
        before.bound(place).pending == before.pending,
        forall|t: int|
            0 <= t < before.bindings.len() ==> #[trigger] before.bound(place).bindings[t]
                == before.bindings[t],
        forall|t: int, p: int| #[trigger]
            carries(before, t, p) ==> before.position(t) == Some(p as usize),
{
}

/// Whether the place is the last one at which the name stands.
pub open spec fn stands_last(names: Seq<Seq<char>>, name: Seq<char>, place: int) -> bool {
    &&& 0 <= place < names.len()
    &&& names[place] == name
    &&& forall|later: int| place < later < names.len() ==> #[trigger] names[later] != name
}

/// Whether every waiting request is answered with the last place of its name, nothing waits any more
/// and no other ticket changes.
pub open spec fn all_answered(before: LinksView, names: Seq<Seq<char>>, after: LinksView) -> bool {
    &&& after.pending.len() == 0
    &&& after.bindings.len() == before.bindings.len()
    &&& forall|i: int|
        0 <= i < before.pending.len() ==> answered(before, names, after, #[trigger] before.pending[i])
    &&& forall|t: int|
        0 <= t < before.bindings.len() && before.bindings[t] is Some
            ==> #[trigger] after.bindings[t] == before.bindings[t]
}

/// Whether the ticket of the request carries the last place of the name.
pub open spec fn answered(
    before: LinksView,
    names: Seq<Seq<char>>,
    after: LinksView,
    request: (Seq<char>, int),
) -> bool {
    exists|place: int| #[trigger]
        stands_last(names, request.0, place) && carries(after, request.1, place)
}

proof fn settling_answers_all(before: LinksView, names: Seq<Seq<char>>)
    requires
        before.wf(),
        names.len() <= usize::MAX,
        before.missing(names) is None,
    ensures
        all_answered(before, names, before.settled(names)),
{
    let after = before.settled(names);
    links::settling_keeps_places(before, names);
    links::missing_means_not_offered(before, names);
    assert forall|i: int| 0 <= i < before.pending.len() implies answered(
        before,
        names,
        after,
        #[trigger] before.pending[i],
    ) by {
        let request = before.pending[i];
        links::settled_tickets_carry_their_place(before, names, i);
        text::last_position_is_last(names, request.0);
        let place = text::last_position(names, request.0)->0 as int;
        assert(stands_last(names, request.0, place));
        assert(carries(after, request.1, place));
    }
}

/// A resolution that succeeds answers every request, of each of the four kinds, with the last place
/// of the name that was asked for; and it changes nothing else but the room of the confirmed state.
pub proof fn a_resolution_answers_every_request<S, A, C>(registry: RegistryView<S, A, C>)
    requires
        registry.wf(),
        registry.resolve_failure() is None,
    ensures
        ({
            let after = registry.resolved();
            &&& all_answered(registry.evaluation.links, registry.keys, after.evaluation.links)
            &&& all_answered(registry.current.links, registry.keys, after.current.links)
            &&& all_answered(registry.sensor_links, registry.sensors.names, after.sensor_links)
            &&& all_answered(
                registry.actuator_links,
                registry.actuators.names,
                after.actuator_links,
            )
            &&& after.evaluation.values == registry.evaluation.values
            &&& after.evaluation.commands == registry.evaluation.commands
            &&& after.keys == registry.keys
            &&& after.sensors == registry.sensors
            &&& after.actuators == registry.actuators
            &&& after.controllers == registry.controllers
            &&& after.current.generation == registry.current.generation
            &&& after.current.values.len() == registry.keys.len()
            &&& forall|p: int|
                0 <= p < registry.keys.len() ==> #[trigger] after.current.values[p] == if p
                    < registry.current.values.len() {
                    registry.current.values[p]
                } else {
                    0
                }
        }),
{
    settling_answers_all(registry.evaluation.links, registry.keys);
    settling_answers_all(registry.current.links, registry.keys);
    settling_answers_all(registry.sensor_links, registry.sensors.names);
    settling_answers_all(registry.actuator_links, registry.actuators.names);
}

/// Whether the request is the first whose name nobody offers.
pub open spec fn first_missing(links: LinksView, names: Seq<Seq<char>>, i: int) -> bool {
    &&& 0 <= i < links.pending.len()
    &&& !names.contains(links.pending[i].0)
    &&& all_offered_before(links, names, i)
}

/// Whether somebody offers the names of the first `n` requests.
pub open spec fn all_offered_before(links: LinksView, names: Seq<Seq<char>>, n: int) -> bool {
    forall|k: int| 0 <= k < n ==> names.contains((#[trigger] links.pending[k]).0)
}

proof fn the_first_missing_is_named(links: LinksView, names: Seq<Seq<char>>, i: int)
    requires
        names.len() <= usize::MAX,
        first_missing(links, names, i),
    ensures
        links.missing(names) == Some(links.pending[i].0),
    decreases links.pending.len(),
{
    text::last_position_is_last(names, links.pending[0].0);
    if i > 0 {
        assert(names.contains(links.pending[0].0));
        let next = LinksView {
            bindings: links.bindings.update(
                links.pending[0].1,
                text::last_position(names, links.pending[0].0),
            ),
            pending: links.pending.drop_first(),
        };
        assert forall|k: int| 0 <= k < i - 1 implies names.contains(
            (#[trigger] next.pending[k]).0,
        ) by {
            assert(next.pending[k] == links.pending[k + 1]);
        }
        assert(next.pending[i - 1] == links.pending[i]);
        the_first_missing_is_named(next, names, i - 1);
        assert(links.settled(names) == next.settled(names));
    }
}

proof fn nothing_is_missing(links: LinksView, names: Seq<Seq<char>>)
    requires
        names.len() <= usize::MAX,
        all_offered_before(links, names, links.pending.len() as int),
    ensures
        links.missing(names) is None,
{
    links::missing_means_not_offered(links, names);
    assert forall|i: int| 0 <= i < links.pending.len() implies text::last_position(
        names,
        (#[trigger] links.pending[i]).0,
    ) is Some by {
        text::last_position_is_last(names, links.pending[i].0);
    }
}

/// A resolution fails on the first name that is asked for and that nobody offers, and names it. The
/// proxies come first, the read proxies after them, the sensors and at last the actuators.
pub proof fn a_resolution_names_what_is_missing<S, A, C>(registry: RegistryView<S, A, C>, i: int)
    requires
        registry.wf(),
    ensures
        first_missing(registry.evaluation.links, registry.keys, i) ==> registry.resolve_failure()
            == Some(
            "input '"@ + registry.evaluation.links.pending[i].0
                + "' declarado em subscribe() mas nenhum componente oferece esse slot"@,
        ),
        ({
            let slots = all_offered_before(
                registry.evaluation.links,
                registry.keys,
                registry.evaluation.links.pending.len() as int,
            );
            let reads = all_offered_before(
                registry.current.links,
                registry.keys,
                registry.current.links.pending.len() as int,
            );
            let sensors = all_offered_before(
                registry.sensor_links,
                registry.sensors.names,
                registry.sensor_links.pending.len() as int,
            );
            let actuators = all_offered_before(
                registry.actuator_links,
                registry.actuators.names,
                registry.actuator_links.pending.len() as int,
            );
            &&& slots && first_missing(registry.current.links, registry.keys, i)
                ==> registry.resolve_failure() == Some(
                "input '"@ + registry.current.links.pending[i].0
                    + "' declarado em subscribe_read() mas nenhum componente oferece esse slot"@,
            )
            &&& slots && reads && first_missing(registry.sensor_links, registry.sensors.names, i)
                ==> registry.resolve_failure() == Some(
                "sensor '"@ + registry.sensor_links.pending[i].0
                    + "' declarado em need_sensor() mas nenhum offer_sensor() com esse nome"@,
            )
            &&& slots && reads && sensors && first_missing(
                registry.actuator_links,
                registry.actuators.names,
                i,
            ) ==> registry.resolve_failure() == Some(
                "atuador '"@ + registry.actuator_links.pending[i].0
                    + "' declarado em need_actuator() mas nenhum offer_actuator() com esse nome"@,
            )
            &&& slots && reads && sensors && actuators ==> registry.resolve_failure() is None
        }),
{
    if first_missing(registry.evaluation.links, registry.keys, i) {
        the_first_missing_is_named(registry.evaluation.links, registry.keys, i);
    }
    if first_missing(registry.current.links, registry.keys, i) {
        the_first_missing_is_named(registry.current.links, registry.keys, i);
    }
    if first_missing(registry.sensor_links, registry.sensors.names, i) {
        the_first_missing_is_named(registry.sensor_links, registry.sensors.names, i);
    }
    if first_missing(registry.actuator_links, registry.actuators.names, i) {
        the_first_missing_is_named(registry.actuator_links, registry.actuators.names, i);
    }
    if all_offered_before(
        registry.evaluation.links,
        registry.keys,
        registry.evaluation.links.pending.len() as int,
    ) {
        nothing_is_missing(registry.evaluation.links, registry.keys);
    }
    if all_offered_before(
        registry.current.links,
        registry.keys,
        registry.current.links.pending.len() as int,
    ) {
        nothing_is_missing(registry.current.links, registry.keys);
    }
    if all_offered_before(
        registry.sensor_links,
        registry.sensors.names,
        registry.sensor_links.pending.len() as int,
    ) {
        nothing_is_missing(registry.sensor_links, registry.sensors.names);
    }
    if all_offered_before(
        registry.actuator_links,
        registry.actuators.names,
        registry.actuator_links.pending.len() as int,
    ) {
        nothing_is_missing(registry.actuator_links, registry.actuators.names);
    }
}

/// A commit confirms the value of every slot and counts one more generation. Nothing else changes.
pub proof fn a_commit_confirms_every_slot<S, A, C>(registry: RegistryView<S, A, C>)
    requires
        registry.current.generation < u64::MAX,
    ensures
        registry.committed().current.generation == registry.current.generation + 1,
        registry.committed().current.values.len() == registry.evaluation.values.len(),
        forall|p: int|
            0 <= p < registry.evaluation.values.len()
                ==> #[trigger] registry.committed().current.values[p]
                == registry.evaluation.values[p],
        registry.committed().current.links == registry.current.links,
        registry.committed() == (RegistryView {
            current: registry.committed().current,
            ..registry
        }),
{
}

/// After a commit a key has the value of the last slot that was offered under it; before the first
/// commit no key has a value, and a key that nobody offers never has one.
pub proof fn a_key_has_the_value_of_its_last_slot<S, A, C>(
    registry: RegistryView<S, A, C>,
    key: Seq<char>,
    place: int,
)
    requires
        registry.wf(),
    ensures
        registry.current.generation == 0 ==> registry.value_of(key) is None,
        !registry.keys.contains(key) ==> registry.value_of(key) is None,
        registry.current.generation > 0 && stands_last(registry.keys, key, place) && place
            < registry.current.values.len() ==> registry.value_of(key) == Some(
            registry.current.values[place],
        ),
{
    text::last_position_is_last(registry.keys, key);
}

/// An item that is catalogued under a name is found under it until another item takes the name, and
/// the other names keep theirs.
pub proof fn the_latest_item_of_a_name_is_found<T>(
    catalog: CatalogView<T>,
    name: Seq<char>,
    item: T,
    other: Seq<char>,
)
    requires
        catalog.wf(),
        catalog.names.len() < usize::MAX,
        other != name,
    ensures
        catalog.offered(name, item).wf(),
        catalog.offered(name, item).found(name) == Some(item),
        catalog.offered(name, item).found(other) == catalog.found(other),
        catalog.offered(name, item).items == catalog.items.push(item),
        !catalog.names.contains(name) ==> catalog.found(name) is None,
        forall|place: int| #[trigger]
            stands_last(catalog.names, name, place) ==> catalog.found(name) == Some(
                catalog.items[place],
            ),
{
    let after = catalog.offered(name, item);
    text::last_position_is_last(catalog.names, name);
    text::last_position_is_last(catalog.names, other);
    text::last_position_is_last(after.names, name);
    assert(after.names[after.names.len() - 1] == name);
    assert(after.names.drop_last() =~= catalog.names);
}

/// The names of a catalog are listed once each, and all of them.
pub proof fn every_name_is_listed_once(names: Seq<Seq<char>>)
    requires
        names.len() <= usize::MAX,
    ensures
        text::effective_names(names, names.len()).no_duplicates(),
        forall|name: Seq<char>| #[trigger]
            text::effective_names(names, names.len()).contains(name) <==> names.contains(name),
{
    text::effective_names_are_the_names(names, names.len());
    assert forall|name: Seq<char>| #[trigger]
        text::effective_names(names, names.len()).contains(name) <==> names.contains(name) by {
        text::last_position_is_last(names, name);
    }
}

/// Names are listed in the order of the places at which they stand last.
pub proof fn names_are_listed_in_their_order(names: Seq<Seq<char>>, n: nat) -> (places: Seq<int>)
    requires
        n <= names.len() <= usize::MAX,
    ensures
        places.len() == text::effective_names(names, n).len(),
        forall|k: int|
            0 <= k < places.len() ==> 0 <= #[trigger] places[k] < n && stands_last(
                names,
                text::effective_names(names, n)[k],
                places[k],
            ),
        forall|k: int, l: int|
            0 <= k < l < places.len() ==> #[trigger] places[k] < #[trigger] places[l],
        forall|p: int|
            0 <= p < n && stands_last(names, #[trigger] names[p], p) ==> places.contains(p),
    decreases n,
{
    if n == 0 {
        Seq::empty()
    } else {
        let m = (n - 1) as nat;
        let earlier = names_are_listed_in_their_order(names, m);
        let before = text::effective_names(names, m);
        let listed = text::effective_names(names, n);
        text::last_position_is_last(names, names[m as int]);
        let places = if text::is_effective(names, m as int) {
            earlier.push(m as int)
        } else {
            earlier
        };
        assert(text::is_effective(names, m as int) ==> stands_last(
            names,
            names[m as int],
            m as int,
        ));
        assert forall|k: int| 0 <= k < places.len() implies 0 <= #[trigger] places[k] < n
            && stands_last(names, listed[k], places[k]) by {
            if k < earlier.len() {
                assert(places[k] == earlier[k]);
                assert(listed[k] == before[k]);
            }
        }
        assert forall|k: int, l: int| 0 <= k < l < places.len() implies #[trigger] places[k]
            < #[trigger] places[l] by {
            assert(places[k] == earlier[k]);
            if l < earlier.len() {
                assert(places[l] == earlier[l]);
            }
        }
        assert forall|p: int|
            0 <= p < n && stands_last(names, #[trigger] names[p], p) implies places.contains(p) by {
            if p < m {
                assert(earlier.contains(p));
                let k = choose|k: int| 0 <= k < earlier.len() && earlier[k] == p;
                assert(places[k] == p);
            } else {
                assert(text::is_effective(names, m as int)) by {
                    let q = text::last_position(names, names[m as int])->0 as int;
                    assert(names.contains(names[m as int]));
                    assert(q == m);
                }
                assert(places[places.len() - 1] == p);
            }
        }
        places
    }
}

/// Whether the requests before the first one that is missing are answered, and that one and those
/// behind it still wait.
pub open spec fn answered_up_to(
    before: LinksView,
    names: Seq<Seq<char>>,
    i: int,
    after: LinksView,
) -> bool {
    &&& after.pending == before.pending.skip(i)
    &&& after.bindings.len() == before.bindings.len()
    &&& forall|k: int|
        0 <= k < i ==> answered(before, names, after, #[trigger] before.pending[k])
}

proof fn settling_stops_at_the_first_missing(before: LinksView, names: Seq<Seq<char>>, i: int)
    requires
        before.wf(),
        names.len() <= usize::MAX,
        first_missing(before, names, i),
    ensures
        answered_up_to(before, names, i, before.settled(names)),
    decreases before.pending.len(),
{
    let after = before.settled(names);
    text::last_position_is_last(names, before.pending[0].0);
    if i == 0 {
        assert(after == before);
        assert(before.pending.skip(0) =~= before.pending);
    } else {
        assert(names.contains(before.pending[0].0));
        let place = text::last_position(names, before.pending[0].0);
        let next = LinksView {
            bindings: before.bindings.update(before.pending[0].1, place),
            pending: before.pending.drop_first(),
        };
        one_answer_leaves_order(before, place);
        assert forall|k: int| 0 <= k < i - 1 implies names.contains(
            (#[trigger] next.pending[k]).0,
        ) by {
            assert(next.pending[k] == before.pending[k + 1]);
        }
        assert(next.pending[i - 1] == before.pending[i]);
        settling_stops_at_the_first_missing(next, names, i - 1);
        links::settling_keeps_places(next, names);
        assert(after == next.settled(names));
        assert(next.pending.skip(i - 1) =~= before.pending.skip(i));
        assert forall|k: int| 0 <= k < i implies answered(
            before,
            names,
            after,
            #[trigger] before.pending[k],
        ) by {
            if k == 0 {
                let ticket = before.pending[0].1;
                assert(next.bindings[ticket] == place);
                assert(after.bindings[ticket] == place);
                assert(stands_last(names, before.pending[0].0, place->0 as int));
                assert(carries(after, ticket, place->0 as int));
            } else {
                assert(next.pending[k - 1] == before.pending[k]);
                assert(answered(next, names, after, next.pending[k - 1]));
            }
        }
    }
}

proof fn one_answer_leaves_order(links: LinksView, place: Option<usize>)
    requires
        links.wf(),
        links.pending.len() > 0,
        place is Some,
    ensures
        (LinksView {
            bindings: links.bindings.update(links.pending[0].1, place),
            pending: links.pending.drop_first(),
        }).wf(),
{
    let next = LinksView {
        bindings: links.bindings.update(links.pending[0].1, place),
        pending: links.pending.drop_first(),
    };
    assert forall|i: int| 0 <= i < next.pending.len() implies 0 <= (#[trigger] next.pending[i]).1
        < next.bindings.len() && next.bindings[next.pending[i].1] is None by {
        assert(next.pending[i] == links.pending[i + 1]);
    }
    assert forall|i: int, j: int| 0 <= i < j < next.pending.len() implies (
    #[trigger] next.pending[i]).1 != (#[trigger] next.pending[j]).1 by {
        assert(next.pending[i] == links.pending[i + 1]);
        assert(next.pending[j] == links.pending[j + 1]);
    }
    assert forall|t: int| 0 <= t < next.bindings.len() implies (#[trigger] next.bindings[t]) is Some
        || next.waits(t) by {
        if next.bindings[t] is None {
            assert(links.bindings[t] is None);
            let i = choose|i: int|
                0 <= i < links.pending.len() && (#[trigger] links.pending[i]).1 == t;
            assert(next.pending[i - 1] == links.pending[i]);
        }
    }
}

/// A resolution that fails keeps the answers that it gave before, and leaves the kinds of request that
/// come after the failure as they are.
pub proof fn a_failed_resolution_keeps_its_answers<S, A, C>(registry: RegistryView<S, A, C>, i: int)
    requires
        registry.wf(),
    ensures
        first_missing(registry.evaluation.links, registry.keys, i) ==> {
            let after = registry.resolved();
            &&& answered_up_to(
                registry.evaluation.links,
                registry.keys,
                i,
                after.evaluation.links,
            )
            &&& after.current == registry.current
            &&& after.sensor_links == registry.sensor_links
            &&& after.actuator_links == registry.actuator_links
            &&& after.evaluation.values == registry.evaluation.values
            &&& after.keys == registry.keys
        },
        registry.evaluation.links.missing(registry.keys) is None && first_missing(
            registry.current.links,
            registry.keys,
            i,
        ) ==> {
            let after = registry.resolved();
            &&& all_answered(registry.evaluation.links, registry.keys, after.evaluation.links)
            &&& answered_up_to(registry.current.links, registry.keys, i, after.current.links)
            &&& after.current.values == registry.current.values
            &&& after.sensor_links == registry.sensor_links
            &&& after.actuator_links == registry.actuator_links
        },
        registry.evaluation.links.missing(registry.keys) is None
            && registry.current.links.missing(registry.keys) is None && first_missing(
            registry.sensor_links,
            registry.sensors.names,
            i,
        ) ==> {
            let after = registry.resolved();
            &&& all_answered(registry.current.links, registry.keys, after.current.links)
            &&& answered_up_to(
                registry.sensor_links,
                registry.sensors.names,
                i,
                after.sensor_links,
            )
            &&& after.actuator_links == registry.actuator_links
        },
{
    if first_missing(registry.evaluation.links, registry.keys, i) {
        settling_stops_at_the_first_missing(registry.evaluation.links, registry.keys, i);
        the_first_missing_is_named(registry.evaluation.links, registry.keys, i);
    }
    if first_missing(registry.current.links, registry.keys, i) {
        settling_stops_at_the_first_missing(registry.current.links, registry.keys, i);
        the_first_missing_is_named(registry.current.links, registry.keys, i);
    }
    if first_missing(registry.sensor_links, registry.sensors.names, i) {
        settling_stops_at_the_first_missing(registry.sensor_links, registry.sensors.names, i);
        the_first_missing_is_named(registry.sensor_links, registry.sensors.names, i);
    }
    if registry.evaluation.links.missing(registry.keys) is None {
        settling_answers_all(registry.evaluation.links, registry.keys);
    }
    if registry.current.links.missing(registry.keys) is None {
        settling_answers_all(registry.current.links, registry.keys);
    }
}

} // verus!
