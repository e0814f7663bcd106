//! What an OPC UA server shows of a plant, and what it does with what a client asks.
//!
//! There is one node for each sensor, which is read, one for each actuator, which is read and
//! written, one for the simulated time, and one method for each way to control the plant. The server
//! itself, its connections and its threads are not here.
use crate::adapter::command_queue::CommandQueue;
use crate::adapter::snapshot_bus::SnapshotBus;
use crate::runtime::{Launched, Runtime, RuntimeView};
use crate::runtime_control::{ControlView, RuntimeControl};
use crate::table::TableView;
use crate::{adapter, double, text};
use vstd::prelude::*;

verus! {

/// The namespace of the nodes.
pub const NAMESPACE_URI: &'static str = "urn:monjolo:opcua-adapter";

/// The address of the application. The server opens a namespace of its own under it, so it is
/// another than that of the nodes.
pub const APPLICATION_URI: &'static str = "urn:monjolo:opcua-adapter:app";

/// The nodes and the server do not share a namespace.
pub proof fn the_namespaces_differ()
    ensures
        NAMESPACE_URI@ != APPLICATION_URI@,
{
    reveal_strlit("urn:monjolo:opcua-adapter");
    reveal_strlit("urn:monjolo:opcua-adapter:app");
    assert(NAMESPACE_URI@.len() != APPLICATION_URI@.len());
}

/// The place of the first `c`.
pub open spec fn position_of(text: Seq<char>, c: char) -> Option<nat>
    decreases text.len(),
{
    if text.len() == 0 {
        None
    } else if text[0] == c {
        Some(0)
    } else {
        match position_of(text.skip(1), c) {
            Some(p) => Some(p + 1),
            None => None,
        }
    }
}

proof fn position_is_first(text: Seq<char>, c: char)
    ensures
        match position_of(text, c) {
            Some(p) => p < text.len() && text[p as int] == c && forall|i: int|
                0 <= i < p ==> #[trigger] text[i] != c,
            None => !text.contains(c),
        },
    decreases text.len(),
{
    if text.len() > 0 && text[0] != c {
        let rest = text.skip(1);
        position_is_first(rest, c);
        assert forall|i: int| 0 < i < text.len() implies #[trigger] text[i] == rest[i - 1] by {}
    }
}

proof fn first_is_position(text: Seq<char>, c: char, p: int)
    requires
        0 <= p < text.len(),
        text[p] == c,
        forall|i: int| 0 <= i < p ==> #[trigger] text[i] != c,
    ensures
        position_of(text, c) == Some(p as nat),
{
    position_is_first(text, c);
    assert(text.contains(c));
}

fn find_char(text: &Vec<char>, from: usize, until: usize, c: char) -> (place: Option<usize>)
    requires
        from <= until <= text@.len(),
    ensures
        match (place, position_of(text@.subrange(from as int, until as int), c)) {
            (Some(p), Some(q)) => p == from + q && p < until,
            (None, None) => true,
            _ => false,
        },
{
    let ghost part = text@.subrange(from as int, until as int);
    let mut i: usize = from;
    while i < until
        invariant
            from <= i <= until <= text@.len(),
            part == text@.subrange(from as int, until as int),
            forall|k: int| 0 <= k < i - from ==> #[trigger] part[k] != c,
        decreases until - i,
    {
        if text[i] == c {
            proof {
                assert(part[i - from] == c);
                first_is_position(part, c, i - from);
            }
            return Some(i);
        }
        assert(part[i - from] == text@[i as int]);
        i = i + 1;
    }
    proof {
        position_is_first(part, c);
    }
    None
}

/// The number of a port: decimal digits, with or without a plus sign before them, of which the value
/// fits in sixteen bits.
pub open spec fn port_number(written: Seq<char>) -> Option<u16> {
    let digits = if written.len() > 0 && written[0] == '+' {
        written.skip(1)
    } else {
        written
    };
    if digits.len() == 0 {
        None
    } else {
        match text::decimal_value(digits) {
            Some(n) => if n <= u16::MAX {
                Some(n as u16)
            } else {
                None
            },
            None => None,
        }
    }
}

fn read_port(written: &str) -> (port: Option<u16>)
    ensures
        port == port_number(written@),
{
    let n: usize = written.unicode_len();
    let start: usize = if n > 0 && written.get_char(0) == '+' {
        1
    } else {
        0
    };
    if start == n {
        return None;
    }
    assert(written@.subrange(start as int, n as int) =~= written@.skip(start as int));
    assert(written@.skip(0) =~= written@);
    match text::from_decimal(written.substring_char(start, n)) {
        Some(number) => if number <= 65535 {
            Some(number as u16)
        } else {
            None
        },
        None => None,
    }
}

/// The parts of an endpoint, or what is wrong with it.
pub open spec fn endpoint_parts(endpoint: Seq<char>) -> Result<
    (Seq<char>, u16, Seq<char>),
    Seq<char>,
> {
    let scheme = "opc.tcp://"@;
    if !scheme.is_prefix_of(endpoint) {
        Err("endpoint '"@ + endpoint + "' precisa começar com opc.tcp://"@)
    } else {
        let rest = endpoint.skip(scheme.len() as int);
        let (authority, raw_path) = match position_of(rest, '/') {
            Some(p) => (rest.take(p as int), rest.skip(p as int + 1)),
            None => (rest, Seq::empty()),
        };
        match position_of(authority, ':') {
            None => Err("endpoint '"@ + endpoint + "' precisa de host:porta"@),
            Some(p) => match port_number(authority.skip(p as int + 1)) {
                Some(port) => Ok((authority.take(p as int), port, "/"@ + raw_path)),
                None => Err("porta inválida em '"@ + endpoint + "'"@),
            },
        }
    }
}

fn to_chars(text: &str) -> (chars: Vec<char>)
    ensures
        chars@ == text@,
{
    let n: usize = text.unicode_len();
    let mut chars: Vec<char> = Vec::new();
    let mut i: usize = 0;
    while i < n
        invariant
            i <= n == text@.len(),
            chars@ == text@.take(i as int),
        decreases n - i,
    {
        chars.push(text.get_char(i));
        i = i + 1;
        assert(chars@ =~= text@.take(i as int));
    }
    assert(text@.take(n as int) =~= text@);
    chars
}

fn has_prefix(text: &Vec<char>, prefix: &Vec<char>) -> (yes: bool)
    ensures
        yes == prefix@.is_prefix_of(text@),
{
    if prefix.len() > text.len() {
        return false;
    }
    let mut i: usize = 0;
    while i < prefix.len()
        invariant
            i <= prefix@.len() <= text@.len(),
            forall|k: int| 0 <= k < i ==> #[trigger] text@[k] == prefix@[k],
        decreases prefix@.len() - i,
    {
        if text[i] != prefix[i] {
            assert(text@.subrange(0, prefix@.len() as int)[i as int] != prefix@[i as int]);
            return false;
        }
        i = i + 1;
    }
    assert(text@.subrange(0, prefix@.len() as int) =~= prefix@);
    true
}

/// Takes `opc.tcp://<host>:<port><path>` apart. A path that is missing is `/`.
pub fn parse_endpoint(endpoint: &str) -> (parts: Result<(String, u16, String), String>)
    ensures
        match (parts, endpoint_parts(endpoint@)) {
            (Ok(read), Ok(wanted)) => {
                &&& read.0@ == wanted.0
                &&& read.1 == wanted.1
                &&& read.2@ == wanted.2
            },
            (Err(message), Err(wanted)) => message@ == wanted,
            _ => false,
        },
{
    let chars: Vec<char> = to_chars(endpoint);
    let scheme: Vec<char> = to_chars("opc.tcp://");
    if !has_prefix(&chars, &scheme) {
        return Err(text::framed("endpoint '", endpoint, "' precisa começar com opc.tcp://"));
    }
    let start: usize = scheme.len();
    let end: usize = chars.len();
    let ghost rest = endpoint@.skip(start as int);
    assert(chars@.subrange(start as int, end as int) =~= rest);
    let (stop, raw_path) = match find_char(&chars, start, end, '/') {
        Some(slash) => (slash, endpoint.substring_char(slash + 1, end)),
        None => (end, ""),
    };
    let ghost authority = rest.take(stop - start);
    proof {
        assert(chars@.subrange(start as int, stop as int) =~= authority);
        reveal_strlit("");
        position_is_first(rest, '/');
        match position_of(rest, '/') {
            Some(p) => {
                assert(raw_path@ =~= rest.skip(p as int + 1));
            },
            None => {
                assert(raw_path@ =~= Seq::empty());
                assert(authority =~= rest);
            },
        }
    }
    match find_char(&chars, start, stop, ':') {
        None => Err(text::framed("endpoint '", endpoint, "' precisa de host:porta")),
        Some(colon) => {
            proof {
                position_is_first(authority, ':');
                assert(endpoint@.subrange(colon + 1, stop as int) =~= authority.skip(
                    colon + 1 - start,
                ));
                assert(endpoint@.subrange(start as int, colon as int) =~= authority.take(
                    colon - start,
                ));
            }
            match read_port(endpoint.substring_char(colon + 1, stop)) {
                Some(port) => {
                    let host: String = endpoint.substring_char(start, colon).to_owned();
                    Ok((host, port, text::joined("/", raw_path)))
                },
                None => Err(text::framed("porta inválida em '", endpoint, "'")),
            }
        },
    }
}

/// The address under which clients come back.
pub open spec fn url_of(host: Seq<char>, port: u16, path: Seq<char>) -> Seq<char> {
    "opc.tcp://"@ + host + ":"@ + text::decimal(port as nat) + path
}

pub fn full_url(host: &str, port: u16, path: &str) -> (url: String)
    ensures
        url@ == url_of(host@, port, path@),
{
    let mut url: String = text::framed("opc.tcp://", host, ":");
    let number: String = text::to_decimal(port as usize);
    url.append(number.as_str());
    url.append(path);
    url
}

/// The address that is made of a host, a port and a path is taken apart into them again.
pub proof fn an_address_is_taken_apart_again(host: Seq<char>, port: u16, path: Seq<char>)
    requires
        !host.contains('/'),
        !host.contains(':'),
        path.len() > 0,
        path[0] == '/',
    ensures
        endpoint_parts(url_of(host, port, path)) == Ok::<_, Seq<char>>((host, port, path)),
{
    let scheme = "opc.tcp://"@;
    let number = text::decimal(port as nat);
    let url = url_of(host, port, path);
    let rest = host + ":"@ + number + path;
    let authority = host + ":"@ + number;
    reveal_strlit(":");
    reveal_strlit("/");
    text::a_written_number_is_read_back(port as nat);
    assert(url =~= scheme + rest);
    assert(url.subrange(0, scheme.len() as int) =~= scheme);
    assert(url.skip(scheme.len() as int) =~= rest);
    assert forall|i: int| 0 <= i < authority.len() implies #[trigger] rest[i] != '/' by {
        if i < host.len() {
            assert(rest[i] == host[i]);
        } else if i > host.len() {
            assert(rest[i] == number[i - host.len() - 1]);
        }
    }
    assert(rest[authority.len() as int] == path[0]);
    first_is_position(rest, '/', authority.len() as int);
    assert(rest.take(authority.len() as int) =~= authority);
    assert forall|i: int| 0 <= i < host.len() implies #[trigger] authority[i] != ':' by {
        assert(authority[i] == host[i]);
    }
    assert(authority[host.len() as int] == ':');
    first_is_position(authority, ':', host.len() as int);
    assert(authority.skip(host.len() as int + 1) =~= number);
    assert(authority.take(host.len() as int) =~= host);
    assert(text::digit_value(number[0]) is Some);
    assert(port_number(number) == Some(port));
    assert("/"@ + rest.skip(authority.len() as int + 1) =~= path);
}

/// What was taken apart makes an address that is taken apart into the same.
pub proof fn parts_of_an_endpoint_stay(endpoint: Seq<char>)
    ensures
        endpoint_parts(endpoint) matches Ok((host, port, path)) ==> endpoint_parts(
            url_of(host, port, path),
        ) == Ok::<_, Seq<char>>((host, port, path)),
{
    let scheme = "opc.tcp://"@;
    match endpoint_parts(endpoint) {
        Ok((host, port, path)) => {
            let rest = endpoint.skip(scheme.len() as int);
            let authority = match position_of(rest, '/') {
                Some(p) => rest.take(p as int),
                None => rest,
            };
            position_is_first(rest, '/');
            position_is_first(authority, ':');
            assert forall|i: int| 0 <= i < host.len() implies #[trigger] host[i] != '/' && host[i]
                != ':' by {
                assert(host[i] == authority[i]);
                assert(authority[i] == rest[i]);
                if position_of(rest, '/') is None {
                    assert(rest.contains(rest[i]));
                }
            }
            reveal_strlit("/");
            an_address_is_taken_apart_again(host, port, path);
        },
        Err(_) => {},
    }
}

/// The ways to control a plant from outside.
#[derive(Clone, Copy, Debug, PartialEq, Eq, Structural)]
pub enum ControlMethod {
    Pause,
    Resume,
    SetSpeed,
    Reset,
    Shutdown,
}

impl ControlMethod {
    pub open spec fn title(self) -> Seq<char> {
        match self {
            ControlMethod::Pause => "control.pause"@,
            ControlMethod::Resume => "control.resume"@,
            ControlMethod::SetSpeed => "control.set_speed"@,
            ControlMethod::Reset => "control.reset"@,
            ControlMethod::Shutdown => "control.shutdown"@,
        }
    }

    /// The name of the node of the method.
    pub fn name(self) -> (name: &'static str)
        ensures
            name@ == self.title(),
    {
        match self {
            ControlMethod::Pause => "control.pause",
            ControlMethod::Resume => "control.resume",
            ControlMethod::SetSpeed => "control.set_speed",
            ControlMethod::Reset => "control.reset",
            ControlMethod::Shutdown => "control.shutdown",
        }
    }
}

/// No two methods have one name.
pub proof fn methods_have_names_of_their_own(one: ControlMethod, other: ControlMethod)
    requires
        one != other,
    ensures
        one.title() != other.title(),
{
    reveal_strlit("control.pause");
    reveal_strlit("control.resume");
    reveal_strlit("control.set_speed");
    reveal_strlit("control.reset");
    reveal_strlit("control.shutdown");
    assert("control.pause"@[8] == 'p');
    assert("control.reset"@[8] == 'r');
    assert("control.pause"@.len() == 13 && "control.reset"@.len() == 13);
    assert("control.resume"@.len() == 14);
    assert("control.shutdown"@.len() == 16);
    assert("control.set_speed"@.len() == 17);
}

/// What a client may do with a node.
#[derive(Clone, Copy, Debug, PartialEq, Eq, Structural)]
pub enum Access {
    Read,
    ReadWrite,
    Call(ControlMethod),
}

/// A node and the name that is its identifier, its browse name and its display name.
pub struct Node {
    pub name: String,
    pub access: Access,
}

/// Nodes as text and access.
pub open spec fn nodes_of(nodes: Seq<Node>) -> Seq<(Seq<char>, Access)> {
    Seq::new(nodes.len(), |i: int| (nodes[i].name@, nodes[i].access))
}

/// These names with one access.
pub open spec fn with_access(names: Seq<Seq<char>>, access: Access) -> Seq<(Seq<char>, Access)> {
    Seq::new(names.len(), |i: int| (names[i], access))
}

/// The nodes of the methods.
pub open spec fn method_nodes() -> Seq<(Seq<char>, Access)> {
    seq![
        (ControlMethod::Pause.title(), Access::Call(ControlMethod::Pause)),
        (ControlMethod::Resume.title(), Access::Call(ControlMethod::Resume)),
        (ControlMethod::SetSpeed.title(), Access::Call(ControlMethod::SetSpeed)),
        (ControlMethod::Reset.title(), Access::Call(ControlMethod::Reset)),
        (ControlMethod::Shutdown.title(), Access::Call(ControlMethod::Shutdown)),
    ]
}

/// The nodes of a plant: its sensors, its actuators, the clock, and the methods.
pub open spec fn planned_nodes(sensors: Seq<Seq<char>>, actuators: Seq<Seq<char>>) -> Seq<
    (Seq<char>, Access),
> {
    with_access(sensors, Access::Read) + with_access(actuators, Access::ReadWrite) + seq![
        ("clock.t_h"@, Access::Read),
    ] + method_nodes()
}

fn list_nodes(names: &Vec<String>, access: Access) -> (nodes: Vec<Node>)
    ensures
        nodes_of(nodes@) == with_access(text::texts(names@), access),
{
    let mut nodes: Vec<Node> = Vec::new();
    let mut i: usize = 0;
    while i < names.len()
        invariant
            i <= names@.len(),
            nodes@.len() == i,
            forall|k: int|
                0 <= k < i ==> (#[trigger] nodes@[k]).name@ == names@[k]@ && nodes@[k].access
                    == access,
        decreases names@.len() - i,
    {
        nodes.push(Node { name: names[i].clone(), access });
        i = i + 1;
    }
    assert(nodes_of(nodes@) =~= with_access(text::texts(names@), access));
    nodes
}

fn method_node(method: ControlMethod) -> (node: Node)
    ensures
        node.name@ == method.title(),
        node.access == Access::Call(method),
{
    Node { name: method.name().to_owned(), access: Access::Call(method) }
}

/// The nodes that the server is to have.
pub fn plan_nodes(sensors: &Vec<String>, actuators: &Vec<String>) -> (nodes: Vec<Node>)
    ensures
        nodes_of(nodes@) == planned_nodes(text::texts(sensors@), text::texts(actuators@)),
{
    let mut nodes: Vec<Node> = list_nodes(sensors, Access::Read);
    let mut writable: Vec<Node> = list_nodes(actuators, Access::ReadWrite);
    let ghost first = nodes@;
    let ghost second = writable@;
    nodes.append(&mut writable);
    assert(nodes_of(nodes@) =~= nodes_of(first) + nodes_of(second));
    nodes.push(Node { name: "clock.t_h".to_owned(), access: Access::Read });
    nodes.push(method_node(ControlMethod::Pause));
    nodes.push(method_node(ControlMethod::Resume));
    nodes.push(method_node(ControlMethod::SetSpeed));
    nodes.push(method_node(ControlMethod::Reset));
    nodes.push(method_node(ControlMethod::Shutdown));
    assert(nodes_of(nodes@) =~= planned_nodes(text::texts(sensors@), text::texts(actuators@)));
    nodes
}

/// How a write is answered.
#[derive(Clone, Copy, Debug, PartialEq, Eq, Structural)]
pub enum WriteStatus {
    Good,
    BadTypeMismatch,
}

/// Answers a write to the node of an actuator. `value` is the number that was written, if it was one.
/// The number becomes a command for the plant; a plant that has ended takes none, and the write is
/// good all the same.
pub fn write_node(name: &str, value: Option<u64>, commands: &mut CommandQueue) -> (status:
    WriteStatus)
    ensures
        match value {
            Some(number) => status == WriteStatus::Good && final(commands)@
                == old(commands)@.written(name@, number),
            None => status == WriteStatus::BadTypeMismatch && final(commands)@ == old(commands)@,
        },
{
    match value {
        Some(number) => {
            commands.write(name, number);
            WriteStatus::Good
        },
        None => WriteStatus::BadTypeMismatch,
    }
}

/// How a call is answered, and what is still to be done outside.
#[derive(Clone, Copy, Debug, PartialEq, Eq, Structural)]
pub enum CallOutcome {
    Done,
    /// The plant is to be replaced by a new one.
    Reset,
    /// The plant is to end for good.
    Shutdown,
    BadInvalidArgument,
}

/// How a call is answered and what becomes of the control of the running plant.
pub open spec fn called(method: ControlMethod, argument: Option<u64>, control: ControlView) -> (
    CallOutcome,
    ControlView,
) {
    match method {
        ControlMethod::Pause => (CallOutcome::Done, ControlView { paused: true, ..control }),
        ControlMethod::Resume => (CallOutcome::Done, ControlView { paused: false, ..control }),
        ControlMethod::SetSpeed => match argument {
            Some(factor) => (
                CallOutcome::Done,
                ControlView { speed: double::at_least_zero(factor), ..control },
            ),
            None => (CallOutcome::BadInvalidArgument, control),
        },
        ControlMethod::Reset => (CallOutcome::Reset, control),
        ControlMethod::Shutdown => (CallOutcome::Shutdown, control),
    }
}

/// Answers a call. `argument` is the first argument, if there is one and it is a number.
pub fn call_method(
    method: ControlMethod,
    argument: Option<u64>,
    control: &mut RuntimeControl,
) -> (outcome: CallOutcome)
    ensures
        (outcome, final(control)@) == called(method, argument, old(control)@),
{
    match method {
        ControlMethod::Pause => {
            control.pause();
            CallOutcome::Done
        },
        ControlMethod::Resume => {
            control.resume();
            CallOutcome::Done
        },
        ControlMethod::SetSpeed => match argument {
            Some(factor) => {
                control.set_speed(factor);
                CallOutcome::Done
            },
            None => CallOutcome::BadInvalidArgument,
        },
        ControlMethod::Reset => CallOutcome::Reset,
        ControlMethod::Shutdown => CallOutcome::Shutdown,
    }
}

/// Of the first `n` names, those that have a value, with it.
pub open spec fn known_values(names: Seq<Seq<char>>, values: TableView<u64>, n: nat) -> Seq<
    (Seq<char>, u64),
>
    decreases n,
{
    if n == 0 {
        Seq::empty()
    } else {
        let earlier = known_values(names, values, (n - 1) as nat);
        match values.found(names[n - 1]) {
            Some(value) => earlier.push((names[n - 1], value)),
            None => earlier,
        }
    }
}

/// What is pushed to the clients: the sensors, the mirrors of the actuators, and the clock.
pub open spec fn pushed(
    sensors: Seq<Seq<char>>,
    actuators: Seq<Seq<char>>,
    sensor_values: TableView<u64>,
    actuator_values: TableView<u64>,
    t_h: u64,
) -> Seq<(Seq<char>, u64)> {
    known_values(sensors, sensor_values, sensors.len()) + known_values(
        actuators,
        actuator_values,
        actuators.len(),
    ) + seq![("clock.t_h"@, t_h)]
}

fn list_values(names: &Vec<String>, values: &SnapshotBus) -> (list: Vec<(String, u64)>)
    requires
        values@.wf(),
    ensures
        adapter::snapshot_bus::readings_of(list@) == known_values(
            text::texts(names@),
            values@,
            text::texts(names@).len(),
        ),
{
    let ghost wanted = text::texts(names@);
    let mut list: Vec<(String, u64)> = Vec::new();
    let mut i: usize = 0;
    assert(adapter::snapshot_bus::readings_of(list@) =~= Seq::empty());
    while i < names.len()
        invariant
            i <= names@.len(),
            wanted == text::texts(names@),
            values@.wf(),
            adapter::snapshot_bus::readings_of(list@) == known_values(wanted, values@, i as nat),
        decreases names@.len() - i,
    {
        let ghost before = list@;
        match values.read(names[i].as_str()) {
            Some(value) => {
                list.push((names[i].clone(), value));
                assert(adapter::snapshot_bus::readings_of(list@)
                    =~= adapter::snapshot_bus::readings_of(before).push((wanted[i as int], value)));
            },
            None => {},
        }
        i = i + 1;
    }
    list
}

/// The values to push to the clients. A node whose name the plant of the moment does not know is left
/// out.
pub fn list_updates(
    sensors: &Vec<String>,
    actuators: &Vec<String>,
    sensor_values: &SnapshotBus,
    actuator_values: &SnapshotBus,
    t_h: u64,
) -> (updates: Vec<(String, u64)>)
    requires
        sensor_values@.wf(),
        actuator_values@.wf(),
    ensures
        adapter::snapshot_bus::readings_of(updates@) == pushed(
            text::texts(sensors@),
            text::texts(actuators@),
            sensor_values@,
            actuator_values@,
            t_h,
        ),
{
    let mut updates: Vec<(String, u64)> = list_values(sensors, sensor_values);
    let mut more: Vec<(String, u64)> = list_values(actuators, actuator_values);
    let ghost first = updates@;
    let ghost second = more@;
    updates.append(&mut more);
    updates.push(("clock.t_h".to_owned(), t_h));
    assert(adapter::snapshot_bus::readings_of(updates@) =~= adapter::snapshot_bus::readings_of(
        first,
    ) + adapter::snapshot_bus::readings_of(second) + seq![("clock.t_h"@, t_h)]);
    updates
}

/// Whether a write was answered with what the outside holds of the plant of the moment.
pub open spec fn write_answered<B, R, W: FnOnce(&B, &str, Option<u64>) -> WriteStatus>(
    runtime: RuntimeView<B, R>,
    name: &str,
    value: Option<u64>,
    write: W,
    status: WriteStatus,
) -> bool {
    call_ensures(write, (&runtime.binding, name, value), status)
}

/// Whether a call was answered with what the outside holds of the plant of the moment.
pub open spec fn call_answered<B, R, F: FnOnce(&B, ControlMethod, Option<u64>) -> CallOutcome>(
    runtime: RuntimeView<B, R>,
    method: ControlMethod,
    argument: Option<u64>,
    call: F,
    outcome: CallOutcome,
) -> bool {
    call_ensures(call, (&runtime.binding, method, argument), outcome)
}

/// Whether the values to push were read from what the outside holds of the plant of the moment.
pub open spec fn updates_read<B, R, L: FnOnce(&B) -> Vec<(String, u64)>>(
    runtime: RuntimeView<B, R>,
    list: L,
    updates: Vec<(String, u64)>,
) -> bool {
    call_ensures(list, (&runtime.binding,), updates)
}

/// Answers a write to a node: `write` answers it for one plant, and the plant of the moment is looked
/// up for it.
pub fn answer_write<B, R, W: FnOnce(&B, &str, Option<u64>) -> WriteStatus>(
    runtime: &Runtime<B, R>,
    name: &str,
    value: Option<u64>,
    write: W,
) -> (status: WriteStatus)
    requires
        call_requires(write, (&runtime@.binding, name, value)),
    ensures
        write_answered(runtime@, name, value, write, status),
{
    write(runtime.binding(), name, value)
}

/// Answers a call of a method: `call` answers it for one plant, and the plant of the moment is looked
/// up for it.
pub fn answer_call<B, R, F: FnOnce(&B, ControlMethod, Option<u64>) -> CallOutcome>(
    runtime: &Runtime<B, R>,
    method: ControlMethod,
    argument: Option<u64>,
    call: F,
) -> (outcome: CallOutcome)
    requires
        call_requires(call, (&runtime@.binding, method, argument)),
    ensures
        call_answered(runtime@, method, argument, call, outcome),
{
    call(runtime.binding(), method, argument)
}

/// The values to push to the clients: `list` gives those of one plant, and the plant of the moment is
/// looked up for it.
pub fn current_updates<B, R, L: FnOnce(&B) -> Vec<(String, u64)>>(
    runtime: &Runtime<B, R>,
    list: L,
) -> (updates: Vec<(String, u64)>)
    requires
        call_requires(list, (&runtime@.binding,)),
    ensures
        updates_read(runtime@, list, updates),
{
    list(runtime.binding())
}

/// The server outlives the plants: after a reset every request is answered by the new plant and by
/// no other, though the nodes were planned for the first one.
pub proof fn requests_follow_a_reset<
    B,
    R,
    W: FnOnce(&B, &str, Option<u64>) -> WriteStatus,
    F: FnOnce(&B, ControlMethod, Option<u64>) -> CallOutcome,
    L: FnOnce(&B) -> Vec<(String, u64)>,
>(
    runtime: RuntimeView<B, R>,
    running: R,
    binding: B,
    name: &str,
    value: Option<u64>,
    write: W,
    status: WriteStatus,
    method: ControlMethod,
    argument: Option<u64>,
    call: F,
    outcome: CallOutcome,
    list: L,
    updates: Vec<(String, u64)>,
)
    ensures
        ({
            let after = runtime.vacated().replaced(Launched::Ready(running, binding));
            &&& write_answered(after, name, value, write, status) == call_ensures(
                write,
                (&binding, name, value),
                status,
            )
            &&& call_answered(after, method, argument, call, outcome) == call_ensures(
                call,
                (&binding, method, argument),
                outcome,
            )
            &&& updates_read(after, list, updates) == call_ensures(list, (&binding,), updates)
        }),
{
}

/// While a plant is exchanged, and after a launch that failed, requests are answered with what the
/// outside held before.
pub proof fn requests_survive_a_failed_reset<
    B,
    R,
    W: FnOnce(&B, &str, Option<u64>) -> WriteStatus,
    F: FnOnce(&B, ControlMethod, Option<u64>) -> CallOutcome,
    L: FnOnce(&B) -> Vec<(String, u64)>,
>(
    runtime: RuntimeView<B, R>,
    launched: Launched<B, R>,
    name: &str,
    value: Option<u64>,
    write: W,
    status: WriteStatus,
    method: ControlMethod,
    argument: Option<u64>,
    call: F,
    outcome: CallOutcome,
    list: L,
    updates: Vec<(String, u64)>,
)
    requires
        !(launched is Ready),
    ensures
        ({
            let after = runtime.vacated().replaced(launched);
            &&& write_answered(after, name, value, write, status) == write_answered(
                runtime,
                name,
                value,
                write,
                status,
            )
            &&& call_answered(after, method, argument, call, outcome) == call_answered(
                runtime,
                method,
                argument,
                call,
                outcome,
            )
            &&& updates_read(after, list, updates) == updates_read(runtime, list, updates)
        }),
{
}

} // verus!
