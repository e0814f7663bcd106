//! Laws of sensors, controllers, and the signals under which the outside knows a plant.
use crate::controller::model::Controller;
use crate::controller;
use crate::io_image;
use crate::io_image::CommandSink;
use crate::laws;
use crate::sensor::Sensor;
use crate::sensor::model::{Hysteresis, Ideal, Noisy, SensorBehavior, SensorView};
use crate::sensor;
use crate::state_registry::{CurrentView, RegistryView};
use crate::table::TableView;
use crate::text;
use vstd::prelude::*;

verus! {

/// In a generation that it has not read yet, a sensor puts the confirmed value of its own slot
/// through its behavior, and remembers the reading with the generation. In one that it has read it
/// repeats the reading, and nothing changes.
pub proof fn a_sensor_reads_its_slot<B: SensorBehavior>(
    sensor: SensorView<B>,
    current: CurrentView,
    place: int,
    value: u64,
    after: SensorView<B>,
)
    requires
        laws::registry::shows(current, sensor.proxy, place),
        sensor.reads(current, value, after),
    ensures
        (sensor.cached matches Some((generation, _)) ==> generation != current.generation) ==> {
            &&& B::transforms(sensor.behavior, current.values[place], value, after.behavior)
            &&& after.cached == Some((current.generation, value))
            &&& after.proxy == sensor.proxy
        },
        sensor.cached matches Some((generation, reading)) ==> generation == current.generation ==> {
            &&& value == reading
            &&& after == sensor
        },
{
}

/// An ideal sensor gives the physical value.
pub proof fn an_ideal_reading_is_the_physical_value(
    before: Ideal,
    physical_value: u64,
    value: u64,
    after: Ideal,
)
    requires
        Ideal::transforms(before, physical_value, value, after),
    ensures
        value == physical_value,
{
}

/// A sensor whose behavior is a function gives what the function makes of the physical value, and the
/// function stays.
pub proof fn a_function_makes_the_reading<F: Fn(u64) -> u64>(
    before: F,
    physical_value: u64,
    value: u64,
    after: F,
)
    requires
        F::transforms(before, physical_value, value, after),
    ensures
        call_ensures(before, (physical_value,), value),
        after == before,
{
}

/// A sink that is a function is called with the value, and stays.
pub proof fn a_function_takes_the_command<F: Fn(u64)>(before: F, value: u64, after: F)
    requires
        F::writes(before, value, after),
    ensures
        call_ensures(before, (value,), ()),
        after == before,
{
}

/// A noisy sensor without deviation, of either sign, gives the physical value. With one it gives what
/// the source of noise makes of the physical value and the deviation.
pub proof fn noise_needs_a_deviation<N: Fn(u64, u64) -> u64>(
    before: Noisy<N>,
    physical_value: u64,
    value: u64,
    after: Noisy<N>,
)
    requires
        Noisy::transforms(before, physical_value, value, after),
    ensures
        after == before,
        before.deviation() == 0 || before.deviation() == 0x8000_0000_0000_0000 ==> value
            == physical_value,
        before.deviation() != 0 && before.deviation() != 0x8000_0000_0000_0000 ==> call_ensures(
            before.source(),
            (physical_value, before.deviation()),
            value,
        ),
{
}

/// A sensor with a dead band starts with the physical value. It repeats its last reading as long as
/// the physical value is found near it, follows the physical value as soon as it is not, and
/// remembers what it gave.
pub proof fn a_dead_band_repeats_the_last_reading<N: Fn(u64, u64, u64) -> bool>(
    before: Hysteresis<N>,
    physical_value: u64,
    value: u64,
    after: Hysteresis<N>,
)
    requires
        Hysteresis::transforms(before, physical_value, value, after),
    ensures
        after.last() == Some(value),
        after.width() == before.width(),
        after.test() == before.test(),
        before.last() is None ==> value == physical_value,
        before.last() matches Some(previous) ==> {
            &&& !call_ensures(before.test(), (physical_value, previous, before.width()), true)
                ==> value == physical_value
            &&& !call_ensures(before.test(), (physical_value, previous, before.width()), false)
                ==> value == previous
            &&& value == previous || value == physical_value
        },
{
}

/// A sensor that is made on a key reads the last slot of the key once the registry is resolved, and
/// the catalog has it under the key.
pub proof fn a_sensor_is_made_on_its_key<B: SensorBehavior, S, A, C>(
    before: RegistryView<S, A, C>,
    key: Seq<char>,
    behavior: B,
    sensor: sensor::model::Sensor<B>,
    item: S,
    after: RegistryView<S, A, C>,
) -> (place: int)
    requires
        before.wf(),
        after.wf(),
        sensor::model::sensor_registered(before, key, behavior, sensor, item, after),
        after.resolve_failure() is None,
    ensures
        laws::registry::stands_last(before.keys, key, place),
        laws::registry::shows(after.resolved().current, sensor@.proxy, place),
        sensor@.behavior == behavior,
        sensor@.cached is None,
        after.sensors.found(key) == Some(item),
        after.sensors.items == before.sensors.items.push(item),
        after.sensors.names == before.sensors.names.push(key),
        after.keys == before.keys,
        after.evaluation == before.evaluation,
        after.actuators == before.actuators,
{
    laws::registry::a_resolution_answers_every_request(after);
    let waiting = before.current.links.pending.len() as int;
    assert(after.current.links.pending[waiting] == (key, sensor@.proxy.number()));
    let request = after.current.links.pending[waiting];
    let settled = after.resolved().current.links;
    assert(laws::registry::answered(after.current.links, after.keys, settled, request));
    let place = choose|place: int| #[trigger]
        laws::registry::stands_last(after.keys, request.0, place) && laws::registry::carries(
            settled,
            request.1,
            place,
        );
    text::last_position_is_last(after.sensors.names, key);
    assert(after.sensors.names[before.sensors.names.len() as int] == key);
    place
}

/// A controller that asks for names stands in the catalog, and once the registry is resolved each of
/// its handles has the item that the catalog has last under the name that was asked for.
pub proof fn a_controller_gets_what_it_asks_for<S, A, C>(
    before: RegistryView<S, A, C>,
    name: Seq<char>,
    sensors: Seq<Seq<char>>,
    actuators: Seq<Seq<char>>,
    controller: Controller,
    item: C,
    after: RegistryView<S, A, C>,
)
    requires
        before.wf(),
        after.wf(),
        controller::model::controller_registered(
            before,
            name,
            sensors,
            actuators,
            controller,
            item,
            after,
        ),
        after.resolve_failure() is None,
    ensures
        after.controllers.found(name) == Some(item),
        controller@.sensors.names == sensors,
        controller@.actuators.names == actuators,
        controller@.sensors.items.len() == sensors.len(),
        controller@.actuators.items.len() == actuators.len(),
        forall|i: int|
            0 <= i < sensors.len() ==> laws::registry::answered(
                after.sensor_links,
                before.sensors.names,
                after.resolved().sensor_links,
                (#[trigger] sensors[i], controller@.sensors.items[i].number()),
            ),
        forall|i: int|
            0 <= i < actuators.len() ==> laws::registry::answered(
                after.actuator_links,
                before.actuators.names,
                after.resolved().actuator_links,
                (#[trigger] actuators[i], controller@.actuators.items[i].number()),
            ),
{
    laws::registry::a_resolution_answers_every_request(after);
    text::last_position_is_last(after.controllers.names, name);
    assert(after.controllers.names[before.controllers.names.len() as int] == name);
    assert forall|i: int| 0 <= i < sensors.len() implies laws::registry::answered(
        after.sensor_links,
        before.sensors.names,
        after.resolved().sensor_links,
        (#[trigger] sensors[i], controller@.sensors.items[i].number()),
    ) by {
        let waiting = before.sensor_links.pending.len() as int;
        assert(after.sensor_links.pending[waiting + i] == (
            sensors[i],
            controller@.sensors.items[i].number(),
        ));
    }
    assert forall|i: int| 0 <= i < actuators.len() implies laws::registry::answered(
        after.actuator_links,
        before.actuators.names,
        after.resolved().actuator_links,
        (#[trigger] actuators[i], controller@.actuators.items[i].number()),
    ) by {
        let waiting = before.actuator_links.pending.len() as int;
        assert(after.actuator_links.pending[waiting + i] == (
            actuators[i],
            controller@.actuators.items[i].number(),
        ));
    }
}

/// Whether one command reaches the sink that has its name, and no other sink; where no sink has the
/// name nothing changes.
pub open spec fn reaches_its_sink<K: CommandSink>(
    before: TableView<K>,
    name: Seq<char>,
    value: u64,
    after: TableView<K>,
) -> bool {
    &&& after.names == before.names
    &&& after.items.len() == before.items.len()
    &&& forall|p: int|
        0 <= p < before.items.len() ==> if before.names[p] == name {
            K::writes(before.items[p], value, #[trigger] after.items[p])
        } else {
            after.items[p] == before.items[p]
        }
}

/// Whether each command in turn reaches its sink on the way along these tables.
pub open spec fn each_reaches_its_sink<K: CommandSink>(
    commands: Seq<(String, u64)>,
    n: int,
    tables: Seq<TableView<K>>,
) -> bool {
    &&& tables.len() == n + 1
    &&& forall|k: int|
        0 <= k < n ==> reaches_its_sink(
            tables[k],
            (#[trigger] commands[k]).0@,
            commands[k].1,
            tables[k + 1],
        )
}

proof fn one_command_reaches_its_sink<K: CommandSink>(
    before: TableView<K>,
    command: (String, u64),
    after: TableView<K>,
)
    requires
        before.wf(),
        io_image::applied_one(before, command, after),
    ensures
        reaches_its_sink(before, command.0@, command.1, after),
        after.wf(),
{
    let name = command.0@;
    text::last_position_is_last(before.names, name);
    if before.found(name) is Some {
        let sink = before.found(name)->0;
        let left = choose|left: K| #[trigger]
            K::writes(sink, command.1, left) && after == before.put(name, left);
        let place = text::last_position(before.names, name)->0 as int;
        assert(before.names[place] == name);
        assert(after.items =~= before.items.update(place, left));
    } else {
        assert forall|p: int| 0 <= p < before.items.len() implies before.names[p] != name by {
            assert(before.names.contains(before.names[p]));
        }
    }
}

proof fn commands_reach_their_sinks<K: CommandSink>(
    before: TableView<K>,
    commands: Seq<(String, u64)>,
    n: nat,
    after: TableView<K>,
) -> (tables: Seq<TableView<K>>)
    requires
        before.wf(),
        n <= commands.len(),
        io_image::applied(before, commands, n, after),
    ensures
        each_reaches_its_sink(commands, n as int, tables),
        tables[0] == before,
        tables[n as int] == after,
        after.wf(),
    decreases n,
{
    if n == 0 {
        seq![before]
    } else {
        let m = (n - 1) as nat;
        let between = choose|between: TableView<K>|
            io_image::applied(before, commands, m, between) && #[trigger] io_image::applied_one(
                between,
                commands[n - 1],
                after,
            );
        let earlier = commands_reach_their_sinks(before, commands, m, between);
        one_command_reaches_its_sink(between, commands[m as int], after);
        let tables = earlier.push(after);
        assert forall|k: int| 0 <= k < n implies reaches_its_sink(
            tables[k],
            (#[trigger] commands[k]).0@,
            commands[k].1,
            tables[k + 1],
        ) by {
            if k < m {
                assert(tables[k] == earlier[k]);
                assert(tables[k + 1] == earlier[k + 1]);
            } else {
                assert(tables[k] == earlier[m as int]);
            }
        }
        tables
    }
}

/// Commands reach the sinks one after the other in the order of the list, each the sink that has its
/// name with its own value.
pub proof fn each_command_reaches_its_sink<K: CommandSink>(
    before: TableView<K>,
    commands: Seq<(String, u64)>,
    after: TableView<K>,
) -> (tables: Seq<TableView<K>>)
    requires
        before.wf(),
        io_image::applied(before, commands, commands.len(), after),
    ensures
        each_reaches_its_sink(commands, commands.len() as int, tables),
        tables[0] == before,
        tables[commands.len() as int] == after,
{
    commands_reach_their_sinks(before, commands, commands.len(), after)
}

/// A reading under a name is that of the sensor that has the name, and changes no other sensor. There
/// is one exactly where a sensor has the name.
pub proof fn a_reading_is_that_of_its_sensor<S: Sensor>(
    before: TableView<S>,
    name: Seq<char>,
    current: CurrentView,
    value: Option<u64>,
    after: TableView<S>,
)
    requires
        before.wf(),
        io_image::read_through(before, name, current, value, after),
    ensures
        value is Some <==> before.names.contains(name),
        value is None ==> after == before,
        after.names == before.names,
        after.items.len() == before.items.len(),
        forall|p: int|
            0 <= p < before.items.len() ==> if before.names[p] == name {
                S::reads(before.items[p], current, value->0, #[trigger] after.items[p])
            } else {
                after.items[p] == before.items[p]
            },
{
    text::last_position_is_last(before.names, name);
    if before.found(name) is Some {
        let place = text::last_position(before.names, name)->0 as int;
        let sensor = before.found(name)->0;
        let number = value->0;
        assert(io_image::put_back(before, name, sensor, current, number, after));
        let left = choose|left: S| #[trigger]
            S::reads(sensor, current, number, left) && after == before.put(name, left);
        assert(before.names[place] == name);
        assert(after.items =~= before.items.update(place, left));
    } else {
        assert forall|p: int| 0 <= p < before.items.len() implies before.names[p] != name by {
            assert(before.names.contains(before.names[p]));
        }
    }
}

/// A name under which nothing is written is named in the message.
pub proof fn an_unknown_signal_is_named(name: Seq<char>)
    ensures
        io_image::unknown_signal(name) == "IoImage: sinal de escrita '"@ + name
            + "' não existe"@,
{
}

} // verus!
