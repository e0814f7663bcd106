//! Laws of what the outside writes to a plant, reads from it and asks of it.
use crate::adapter::command_queue::QueueView;
use crate::adapter::opcua::{Access, CallOutcome, ControlMethod, Node};
use crate::adapter::{command_queue, opcua, snapshot_bus};
use crate::runtime_control::ControlView;
use crate::table::TableView;
use crate::text;
use vstd::prelude::*;

verus! {

/// A command waits behind those that wait already, and none is lost; a queue that is closed takes
/// none. What is drained is gone.
pub proof fn a_command_waits_its_turn(queue: QueueView, name: Seq<char>, value: u64)
    ensures
        queue.open ==> {
            let after = queue.written(name, value);
            &&& after.open
            &&& after.waiting.len() == queue.waiting.len() + 1
            &&& after.waiting[queue.waiting.len() as int] == (name, value)
            &&& forall|i: int|
                0 <= i < queue.waiting.len() ==> #[trigger] after.waiting[i] == queue.waiting[i]
        },
        !queue.open ==> queue.written(name, value) == queue,
        queue.drained().waiting.len() == 0,
        queue.drained().open == queue.open,
{
}

/// The commands and the readings of a list are those of its entries, each with its own name and its
/// own value.
pub proof fn entries_keep_name_and_value(entries: Seq<(String, u64)>)
    ensures
        command_queue::commands_of(entries).len() == entries.len(),
        snapshot_bus::readings_of(entries).len() == entries.len(),
        forall|i: int|
            0 <= i < entries.len() ==> {
                &&& (#[trigger] entries[i]).0@ == command_queue::commands_of(entries)[i].0
                &&& entries[i].1 == command_queue::commands_of(entries)[i].1
                &&& entries[i].0@ == snapshot_bus::readings_of(entries)[i].0
                &&& entries[i].1 == snapshot_bus::readings_of(entries)[i].1
            },
{
}

/// An item of a table is found under its own name, and nothing is found under a name that the table
/// does not hold. Putting an item changes the item of its name or adds it behind the others.
pub proof fn a_table_finds_the_item_of_a_name<T>(
    table: TableView<T>,
    name: Seq<char>,
    item: T,
    place: int,
)
    requires
        table.wf(),
        table.names.len() < usize::MAX,
    ensures
        0 <= place < table.names.len() ==> table.found(table.names[place]) == Some(
            table.items[place],
        ),
        !table.names.contains(name) ==> {
            &&& table.found(name) is None
            &&& table.put(name, item).names == table.names.push(name)
            &&& table.put(name, item).items == table.items.push(item)
        },
        0 <= place < table.names.len() && table.names[place] == name ==> {
            &&& table.put(name, item).names == table.names
            &&& table.put(name, item).items == table.items.update(place, item)
        },
{
    text::last_position_is_last(table.names, name);
    if 0 <= place < table.names.len() {
        text::last_position_is_last(table.names, table.names[place]);
    }
}

/// Whether no reading from `from` on is under the name.
pub open spec fn unread_from(readings: Seq<(String, u64)>, from: int, name: Seq<char>) -> bool {
    forall|k: int| from <= k < readings.len() ==> (#[trigger] readings[k]).0@ != name
}

proof fn the_latest_is_the_last(readings: Seq<(String, u64)>, name: Seq<char>, i: int)
    requires
        -1 <= i < readings.len(),
        i >= 0 ==> readings[i].0@ == name,
        unread_from(readings, i + 1, name),
    ensures
        snapshot_bus::latest(snapshot_bus::readings_of(readings), name) == if i >= 0 {
            Some(readings[i].1)
        } else {
            None
        },
    decreases readings.len(),
{
    let shown = snapshot_bus::readings_of(readings);
    if readings.len() > 0 {
        let earlier = readings.drop_last();
        assert(shown.drop_last() =~= snapshot_bus::readings_of(earlier));
        if i < readings.len() - 1 {
            assert(readings[readings.len() - 1].0@ != name);
            assert forall|k: int| i + 1 <= k < earlier.len() implies (#[trigger] earlier[k]).0@
                != name by {
                assert(earlier[k] == readings[k]);
            }
            the_latest_is_the_last(earlier, name, i);
        }
    }
}

/// After readings are published together, each name shows the value of its last reading among them.
pub proof fn the_last_reading_of_a_name_is_shown(
    table: TableView<u64>,
    readings: Seq<(String, u64)>,
    i: int,
)
    requires
        table.wf(),
        table.names.len() + readings.len() <= usize::MAX,
        0 <= i < readings.len(),
        unread_from(readings, i + 1, readings[i].0@),
    ensures
        snapshot_bus::published(table, snapshot_bus::readings_of(readings)).found(readings[i].0@)
            == Some(readings[i].1),
{
    the_latest_is_the_last(readings, readings[i].0@, i);
    snapshot_bus::a_reader_sees_the_whole_tick(
        table,
        snapshot_bus::readings_of(readings),
        readings[i].0@,
    );
}

/// A name that is not among the readings that are published keeps what it showed.
pub proof fn an_unread_name_keeps_its_value(
    table: TableView<u64>,
    readings: Seq<(String, u64)>,
    name: Seq<char>,
)
    requires
        table.wf(),
        table.names.len() + readings.len() <= usize::MAX,
        unread_from(readings, 0, name),
    ensures
        snapshot_bus::published(table, snapshot_bus::readings_of(readings)).found(name)
            == table.found(name),
{
    the_latest_is_the_last(readings, name, -1);
    snapshot_bus::a_reader_sees_the_whole_tick(table, snapshot_bus::readings_of(readings), name);
}

/// Whether the text is the authority of an endpoint: it ends where the path begins.
pub open spec fn is_authority(authority: Seq<char>, tail: Seq<char>) -> bool {
    !authority.contains('/') && (tail.len() > 0 ==> tail[0] == '/')
}

proof fn the_authority_is_found(authority: Seq<char>, tail: Seq<char>)
    requires
        is_authority(authority, tail),
    ensures
        tail.len() == 0 ==> opcua::position_of(authority + tail, '/') is None,
        tail.len() > 0 ==> opcua::position_of(authority + tail, '/') == Some(authority.len()),
        (authority + tail).take(authority.len() as int) == authority,
        "opc.tcp://"@.is_prefix_of("opc.tcp://"@ + authority + tail),
        ("opc.tcp://"@ + authority + tail).skip("opc.tcp://"@.len() as int) == authority + tail,
{
    let rest = authority + tail;
    let whole = "opc.tcp://"@ + authority + tail;
    if tail.len() == 0 {
        assert forall|i: int| 0 <= i < rest.len() implies #[trigger] rest[i] != '/' by {
            assert(authority.contains(authority[i]));
        }
        no_char_no_position(rest, '/');
    } else {
        assert forall|i: int| 0 <= i < authority.len() implies #[trigger] rest[i] != '/' by {
            assert(authority.contains(authority[i]));
        }
        first_char_is_the_position(rest, '/', authority.len() as int);
    }
    assert(rest.take(authority.len() as int) =~= authority);
    assert(whole.subrange(0, "opc.tcp://"@.len() as int) =~= "opc.tcp://"@);
    assert(whole.skip("opc.tcp://"@.len() as int) =~= rest);
}

proof fn no_char_no_position(text: Seq<char>, c: char)
    requires
        forall|i: int| 0 <= i < text.len() ==> #[trigger] text[i] != c,
    ensures
        opcua::position_of(text, c) is None,
    decreases text.len(),
{
    if text.len() > 0 {
        let rest = text.skip(1);
        assert forall|i: int| 0 <= i < rest.len() implies #[trigger] rest[i] != c by {
            assert(rest[i] == text[i + 1]);
        }
        no_char_no_position(rest, c);
    }
}

proof fn first_char_is_the_position(text: Seq<char>, c: char, p: int)
    requires
        0 <= p < text.len(),
        text[p] == c,
        forall|i: int| 0 <= i < p ==> #[trigger] text[i] != c,
    ensures
        opcua::position_of(text, c) == Some(p as nat),
    decreases text.len(),
{
    if p > 0 {
        let rest = text.skip(1);
        assert forall|i: int| 0 <= i < p - 1 implies #[trigger] rest[i] != c by {
            assert(rest[i] == text[i + 1]);
        }
        assert(rest[p - 1] == text[p]);
        first_char_is_the_position(rest, c, p - 1);
    }
}

/// An endpoint is a scheme, a host, a colon, a port and a path. The host ends at the first colon, the
/// port where the path begins, and a path that is missing is the root. A port that is none is named.
pub proof fn an_endpoint_is_taken_apart(host: Seq<char>, port: Seq<char>, path: Seq<char>)
    requires
        is_authority(host + ":"@ + port, path),
        !host.contains(':'),
    ensures
        ({
            let endpoint = "opc.tcp://"@ + (host + ":"@ + port) + path;
            opcua::endpoint_parts(endpoint) == match opcua::port_number(port) {
                Some(number) => Ok::<_, Seq<char>>(
                    (
                        host,
                        number,
                        if path.len() == 0 {
                            seq!['/']
                        } else {
                            path
                        },
                    ),
                ),
                None => Err("porta inválida em '"@ + endpoint + "'"@),
            }
        }),
{
    let authority = host + ":"@ + port;
    reveal_strlit(":");
    reveal_strlit("/");
    the_authority_is_found(authority, path);
    assert forall|i: int| 0 <= i < host.len() implies #[trigger] authority[i] != ':' by {
        assert(host.contains(host[i]));
    }
    assert(authority[host.len() as int] == ':');
    first_char_is_the_position(authority, ':', host.len() as int);
    assert(authority.take(host.len() as int) =~= host);
    assert(authority.skip(host.len() as int + 1) =~= port);
    let rest = authority + path;
    if path.len() > 0 {
        assert("/"@ + rest.skip(authority.len() as int + 1) =~= path);
    } else {
        assert(rest =~= authority);
        assert("/"@ + Seq::empty() =~= seq!['/']);
    }
}

/// An endpoint without a port, and one with another scheme, are refused with what they lack.
pub proof fn an_endpoint_lacks_its_parts(authority: Seq<char>, path: Seq<char>, endpoint: Seq<char>)
    ensures
        is_authority(authority, path) && !authority.contains(':') ==> ({
            let whole = "opc.tcp://"@ + authority + path;
            opcua::endpoint_parts(whole) == Err::<(Seq<char>, u16, Seq<char>), _>(
                "endpoint '"@ + whole + "' precisa de host:porta"@,
            )
        }),
        !"opc.tcp://"@.is_prefix_of(endpoint) ==> opcua::endpoint_parts(endpoint) == Err::<
            (Seq<char>, u16, Seq<char>),
            _,
        >("endpoint '"@ + endpoint + "' precisa começar com opc.tcp://"@),
{
    if is_authority(authority, path) && !authority.contains(':') {
        the_authority_is_found(authority, path);
        assert forall|i: int| 0 <= i < authority.len() implies #[trigger] authority[i] != ':' by {
            assert(authority.contains(authority[i]));
        }
        no_char_no_position(authority, ':');
        if path.len() == 0 {
            assert(authority + path =~= authority);
        }
    }
}

/// Whether the text is made of decimal digits.
pub open spec fn all_digits(digits: Seq<char>) -> bool {
    forall|i: int| 0 <= i < digits.len() ==> '0' <= #[trigger] digits[i] <= '9'
}

/// The number that decimal digits write: each digit weighs ten times what the next one does.
pub open spec fn written_number(digits: Seq<char>, n: nat) -> int
    recommends
        n <= digits.len(),
    decreases n,
{
    if n == 0 {
        0
    } else {
        (digits[n - 1] as int - '0' as int) + 10 * written_number(digits, (n - 1) as nat)
    }
}

proof fn digits_have_a_value(digits: Seq<char>)
    ensures
        all_digits(digits) ==> {
            &&& text::decimal_value(digits) == Some(written_number(digits, digits.len()) as nat)
            &&& written_number(digits, digits.len()) >= 0
        },
        !all_digits(digits) ==> text::decimal_value(digits) is None,
    decreases digits.len(),
{
    if digits.len() > 0 {
        let earlier = digits.drop_last();
        digits_have_a_value(earlier);
        weights_of_the_beginning(digits, earlier, earlier.len());
        if all_digits(digits) {
            assert forall|i: int| 0 <= i < earlier.len() implies '0' <= #[trigger] earlier[i]
                <= '9' by {
                assert(earlier[i] == digits[i]);
            }
            assert('0' <= digits[digits.len() - 1] <= '9');
        } else if all_digits(earlier) {
            assert forall|i: int| 0 <= i < digits.len() && '0' <= digits.last() <= '9' implies '0'
                <= #[trigger] digits[i] <= '9' by {
                if i < earlier.len() {
                    assert(earlier[i] == digits[i]);
                }
            }
        }
    }
}

proof fn weights_of_the_beginning(digits: Seq<char>, earlier: Seq<char>, n: nat)
    requires
        earlier == digits.drop_last(),
        n <= earlier.len(),
        digits.len() > 0,
    ensures
        written_number(digits, n) == written_number(earlier, n),
    decreases n,
{
    if n > 0 {
        weights_of_the_beginning(digits, earlier, (n - 1) as nat);
    }
}

/// A port is what its digits write, with or without a plus sign before them, as long as it fits in
/// sixteen bits. Anything else is none.
pub proof fn a_port_is_what_its_digits_write(digits: Seq<char>)
    ensures
        digits.len() > 0 && all_digits(digits) && written_number(digits, digits.len()) <= 65535 ==> {
            &&& opcua::port_number(digits) matches Some(port) && port == written_number(
                digits,
                digits.len(),
            )
            &&& opcua::port_number(seq!['+'] + digits) == opcua::port_number(digits)
        },
        all_digits(digits) && written_number(digits, digits.len()) > 65535 ==> {
            &&& opcua::port_number(digits) is None
            &&& opcua::port_number(seq!['+'] + digits) is None
        },
        digits.len() == 0 || !all_digits(digits) ==> opcua::port_number(seq!['+'] + digits) is None,
        digits.len() == 0 ==> opcua::port_number(digits) is None,
        !all_digits(digits) && digits[0] != '+' ==> opcua::port_number(digits) is None,
{
    digits_have_a_value(digits);
    let signed = seq!['+'] + digits;
    assert(signed.skip(1) =~= digits);
    if digits.len() > 0 && all_digits(digits) {
        assert('0' <= digits[0] <= '9');
    }
}

/// Whether two nodes agree in name and access.
pub open spec fn is_node(node: (Seq<char>, Access), name: Seq<char>, access: Access) -> bool {
    node.0 == name && node.1 == access
}

/// A plant has a node for each sensor, which is read, one for each actuator, which is written too, one
/// for the clock and one for each method, in this order, and no other.
pub proof fn each_signal_has_its_node(sensors: Seq<Seq<char>>, actuators: Seq<Seq<char>>)
    ensures
        ({
            let nodes = opcua::planned_nodes(sensors, actuators);
            let s = sensors.len() as int;
            let a = actuators.len() as int;
            &&& nodes.len() == s + a + 6
            &&& forall|i: int|
                0 <= i < s ==> is_node(#[trigger] nodes[i], sensors[i], Access::Read)
            &&& forall|i: int|
                0 <= i < a ==> is_node(
                    nodes[s + i],
                    #[trigger] actuators[i],
                    Access::ReadWrite,
                )
            &&& is_node(nodes[s + a], "clock.t_h"@, Access::Read)
            &&& is_node(nodes[s + a + 1], "control.pause"@, Access::Call(ControlMethod::Pause))
            &&& is_node(nodes[s + a + 2], "control.resume"@, Access::Call(ControlMethod::Resume))
            &&& is_node(
                nodes[s + a + 3],
                "control.set_speed"@,
                Access::Call(ControlMethod::SetSpeed),
            )
            &&& is_node(nodes[s + a + 4], "control.reset"@, Access::Call(ControlMethod::Reset))
            &&& is_node(
                nodes[s + a + 5],
                "control.shutdown"@,
                Access::Call(ControlMethod::Shutdown),
            )
        }),
{
}

/// A list of nodes is seen with the name and the access of each.
pub proof fn nodes_keep_name_and_access(nodes: Seq<Node>)
    ensures
        opcua::nodes_of(nodes).len() == nodes.len(),
        forall|i: int|
            0 <= i < nodes.len() ==> is_node(
                opcua::nodes_of(nodes)[i],
                (#[trigger] nodes[i]).name@,
                nodes[i].access,
            ),
{
}

/// A call changes what it is for and leaves the rest of the control alone: a pause and a resume change
/// whether the plant is paused, a speed the speed. A speed below zero counts as zero, as does what is
/// no number; a call for a speed without one is refused. A reset and a shutdown are left to the
/// caller.
pub proof fn a_call_changes_what_it_is_for(argument: Option<u64>, control: ControlView, speed: u64)
    ensures
        ({
            let (outcome, after) = opcua::called(ControlMethod::Pause, argument, control);
            outcome == CallOutcome::Done && after.paused && after == (ControlView {
                paused: after.paused,
                ..control
            })
        }),
        ({
            let (outcome, after) = opcua::called(ControlMethod::Resume, argument, control);
            outcome == CallOutcome::Done && !after.paused && after == (ControlView {
                paused: after.paused,
                ..control
            })
        }),
        ({
            let (outcome, after) = opcua::called(ControlMethod::SetSpeed, Some(speed), control);
            &&& outcome == CallOutcome::Done
            &&& after == (ControlView { speed: after.speed, ..control })
            &&& speed <= 0x7FF0_0000_0000_0000 ==> after.speed == speed
            &&& speed > 0x7FF0_0000_0000_0000 ==> after.speed == 0
        }),
        opcua::called(ControlMethod::SetSpeed, None, control) == (
            CallOutcome::BadInvalidArgument,
            control,
        ),
        opcua::called(ControlMethod::Reset, argument, control) == (CallOutcome::Reset, control),
        opcua::called(ControlMethod::Shutdown, argument, control) == (
            CallOutcome::Shutdown,
            control,
        ),
{
}

/// Whether the entries are those of the names that have a value, in the order of the names: entry `k`
/// is that of the name at `from[k]`, and a name at no such place has no value.
pub open spec fn are_the_known(
    names: Seq<Seq<char>>,
    values: TableView<u64>,
    n: int,
    entries: Seq<(Seq<char>, u64)>,
    from: Seq<int>,
) -> bool {
    &&& from.len() == entries.len()
    &&& forall|k: int|
        0 <= k < from.len() ==> 0 <= #[trigger] from[k] < n && entries[k].0 == names[from[k]]
            && shown_under(values, entries[k].0, entries[k].1)
    &&& forall|k: int, l: int| 0 <= k < l < from.len() ==> #[trigger] from[k] < #[trigger] from[l]
    &&& forall|i: int|
        0 <= i < n && !from.contains(i) ==> !values.names.contains(#[trigger] names[i])
}

/// Whether the table holds the value under the name.
pub open spec fn shown_under(values: TableView<u64>, name: Seq<char>, value: u64) -> bool {
    exists|place: int|
        0 <= place < values.names.len() && #[trigger] values.names[place] == name
            && values.items[place] == value
}

proof fn known_values_are_the_known(names: Seq<Seq<char>>, values: TableView<u64>, n: nat) -> (from:
    Seq<int>)
    requires
        values.wf(),
        n <= names.len(),
    ensures
        are_the_known(names, values, n as int, opcua::known_values(names, values, n), from),
    decreases n,
{
    if n == 0 {
        Seq::empty()
    } else {
        let m = (n - 1) as nat;
        let earlier = known_values_are_the_known(names, values, m);
        let before = opcua::known_values(names, values, m);
        let entries = opcua::known_values(names, values, n);
        text::last_position_is_last(values.names, names[m as int]);
        match values.found(names[m as int]) {
            Some(value) => {
                let from = earlier.push(m as int);
                let place = text::last_position(values.names, names[m as int])->0 as int;
                assert(values.names[place] == names[m as int]);
                assert(shown_under(values, names[m as int], value));
                assert forall|k: int| 0 <= k < from.len() implies 0 <= #[trigger] from[k] < n
                    && entries[k].0 == names[from[k]] && shown_under(
                    values,
                    entries[k].0,
                    entries[k].1,
                ) by {
                    if k < earlier.len() {
                        assert(from[k] == earlier[k]);
                        assert(entries[k] == before[k]);
                    }
                }
                assert forall|k: int, l: int| 0 <= k < l < from.len() implies #[trigger] from[k]
                    < #[trigger] from[l] by {
                    assert(from[k] == earlier[k]);
                    if l < earlier.len() {
                        assert(from[l] == earlier[l]);
                    }
                }
                assert forall|i: int| 0 <= i < n && !from.contains(i) implies !values.names.contains(
                    #[trigger] names[i],
                ) by {
                    if i < m {
                        if earlier.contains(i) {
                            let k = choose|k: int| 0 <= k < earlier.len() && earlier[k] == i;
                            assert(from[k] == i);
                        }
                    } else {
                        assert(from[from.len() - 1] == i);
                    }
                }
                from
            },
            None => {
                assert(entries == before);
                earlier
            },
        }
    }
}

/// What is pushed is the value of each sensor that has one, the value of each actuator that has one,
/// each under its own name and in the order of the nodes, and at last the time.
pub proof fn every_known_value_is_pushed(
    sensors: Seq<Seq<char>>,
    actuators: Seq<Seq<char>>,
    sensor_values: TableView<u64>,
    actuator_values: TableView<u64>,
    t_h: u64,
) -> (from: (Seq<int>, Seq<int>))
    requires
        sensor_values.wf(),
        actuator_values.wf(),
    ensures
        ({
            let updates = opcua::pushed(sensors, actuators, sensor_values, actuator_values, t_h);
            let s = from.0.len() as int;
            let a = from.1.len() as int;
            &&& updates.len() == s + a + 1
            &&& are_the_known(
                sensors,
                sensor_values,
                sensors.len() as int,
                updates.take(s),
                from.0,
            )
            &&& are_the_known(
                actuators,
                actuator_values,
                actuators.len() as int,
                updates.subrange(s, s + a),
                from.1,
            )
            &&& updates[s + a] == ("clock.t_h"@, t_h)
        }),
{
    let first = known_values_are_the_known(sensors, sensor_values, sensors.len());
    let second = known_values_are_the_known(actuators, actuator_values, actuators.len());
    let updates = opcua::pushed(sensors, actuators, sensor_values, actuator_values, t_h);
    let s = first.len() as int;
    let a = second.len() as int;
    assert(updates.take(s) =~= opcua::known_values(sensors, sensor_values, sensors.len()));
    assert(updates.subrange(s, s + a) =~= opcua::known_values(
        actuators,
        actuator_values,
        actuators.len(),
    ));
    (first, second)
}

} // verus!
