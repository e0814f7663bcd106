//! The signals of a plant under the names by which the outside knows them.
//!
//! Signals that are read and signals that are written are two catalogs: the same name may stand in
//! both. Prefixes such as `sensors/` are the caller's convention.
use crate::sensor::Sensor;
use crate::state_registry::{CurrentState, CurrentView, Outline};
use crate::table::{Table, TableView};
use crate::text;
use vstd::prelude::*;

verus! {

/// Something that takes commands.
pub trait CommandSink: Sized {
    /// Whether the sink takes this value.
    spec fn takes(&self, value: u64) -> bool;

    /// Whether writing the value may lead from `before` to `after`.
    spec fn writes(before: Self, value: u64, after: Self) -> bool;

    fn write(&mut self, value: u64)
        requires
            old(self).takes(value),
        ensures
            Self::writes(*old(self), value, *final(self)),
            forall|later: u64| old(self).takes(later) ==> #[trigger] final(self).takes(later),
    ;
}

/// A function is a sink: it is called with the value.
impl<F: Fn(u64)> CommandSink for F {
    open spec fn takes(&self, value: u64) -> bool {
        call_requires(*self, (value,))
    }

    open spec fn writes(before: F, value: u64, after: F) -> bool {
        call_ensures(before, (value,), ()) && after == before
    }

    fn write(&mut self, value: u64) {
        (*self)(value);
    }
}

/// Sensors and sinks under names.
pub struct IoImage<S, K> {
    readable: Table<S>,
    writable: Table<K>,
}

/// What an [`IoImage`] holds.
#[verifier::ext_equal]
pub struct IoView<S, K> {
    pub readable: TableView<S>,
    pub writable: TableView<K>,
}

impl<S, K> IoView<S, K> {
    pub open spec fn wf(self) -> bool {
        self.readable.wf() && self.writable.wf()
    }
}

/// Whether reading this sensor may give `number`, and `after` is `before` with what the sensor became
/// under its name.
pub open spec fn put_back<S: Sensor>(
    before: TableView<S>,
    name: Seq<char>,
    sensor: S,
    current: CurrentView,
    number: u64,
    after: TableView<S>,
) -> bool {
    exists|left: S| #[trigger]
        S::reads(sensor, current, number, left) && after == before.put(name, left)
}

/// Whether reading the sensor under a name may give `value` and lead from `before` to `after`. There
/// is no value where no sensor has the name.
pub open spec fn read_through<S: Sensor>(
    before: TableView<S>,
    name: Seq<char>,
    current: CurrentView,
    value: Option<u64>,
    after: TableView<S>,
) -> bool {
    match (before.found(name), value) {
        (Some(sensor), Some(number)) => put_back(before, name, sensor, current, number, after),
        (None, None) => after == before,
        _ => false,
    }
}

/// Whether every sensor can be read on a confirmed state with this outline.
pub open spec fn all_readable<S: Sensor>(table: TableView<S>, outline: Outline) -> bool {
    forall|i: int| 0 <= i < table.items.len() ==> (#[trigger] table.items[i]).readable(outline)
}

/// Whether every sink takes every value.
pub open spec fn all_taking<K: CommandSink>(table: TableView<K>) -> bool {
    forall|i: int, value: u64|
        0 <= i < table.items.len() ==> #[trigger] table.items[i].takes(value)
}

/// Whether writing to this sink leads from `before` to `after`.
pub open spec fn written_to<K: CommandSink>(
    before: TableView<K>,
    name: Seq<char>,
    sink: K,
    value: u64,
    after: TableView<K>,
) -> bool {
    exists|left: K| #[trigger] K::writes(sink, value, left) && after == before.put(name, left)
}

/// Whether one command leads from `before` to `after`.
pub open spec fn applied_one<K: CommandSink>(
    before: TableView<K>,
    command: (String, u64),
    after: TableView<K>,
) -> bool {
    match before.found(command.0@) {
        Some(sink) => written_to(before, command.0@, sink, command.1, after),
        None => after == before,
    }
}

/// Whether the first `n` commands, one after the other, lead from `before` to `after`.
pub open spec fn applied<K: CommandSink>(
    before: TableView<K>,
    commands: Seq<(String, u64)>,
    n: nat,
    after: TableView<K>,
) -> bool
    decreases n,
{
    if n == 0 {
        after == before
    } else {
        exists|between: TableView<K>|
            applied(before, commands, (n - 1) as nat, between) && #[trigger] applied_one(
                between,
                commands[n - 1],
                after,
            )
    }
}

/// The message for a name under which nothing is written.
pub open spec fn unknown_signal(name: Seq<char>) -> Seq<char> {
    "IoImage: sinal de escrita '"@ + name + "' não existe"@
}

impl<S: Sensor, K: CommandSink> IoImage<S, K> {
    pub closed spec fn view(&self) -> IoView<S, K> {
        IoView { readable: self.readable@, writable: self.writable@ }
    }

    pub fn new() -> (image: IoImage<S, K>)
        ensures
            image@.readable == (TableView::<S> { names: Seq::empty(), items: Seq::empty() }),
            image@.writable == (TableView::<K> { names: Seq::empty(), items: Seq::empty() }),
            image@.wf(),
    {
        IoImage { readable: Table::new(), writable: Table::new() }
    }

    /// Publishes a sensor under a name.
    pub fn register_sensor(&mut self, name: &str, sensor: S)
        requires
            old(self)@.wf(),
        ensures
            final(self)@ == (IoView {
                readable: old(self)@.readable.put(name@, sensor),
                ..old(self)@
            }),
            final(self)@.wf(),
    {
        self.readable.insert(name, sensor);
    }

    /// Takes commands for a sink under a name.
    pub fn register_actuator(&mut self, name: &str, sink: K)
        requires
            old(self)@.wf(),
        ensures
            final(self)@ == (IoView {
                writable: old(self)@.writable.put(name@, sink),
                ..old(self)@
            }),
            final(self)@.wf(),
    {
        self.writable.insert(name, sink);
    }

    /// All names: those that are read, then those that are written.
    pub fn signals(&self) -> (names: Vec<String>)
        ensures
            text::texts(names@) == self@.readable.names + self@.writable.names,
    {
        let mut names: Vec<String> = self.readable.names();
        let mut more: Vec<String> = self.writable.names();
        let ghost first = names@;
        let ghost second = more@;
        names.append(&mut more);
        assert(text::texts(names@) =~= text::texts(first) + text::texts(second));
        names
    }

    pub fn sensor_names(&self) -> (names: Vec<String>)
        ensures
            text::texts(names@) == self@.readable.names,
    {
        self.readable.names()
    }

    pub fn actuator_names(&self) -> (names: Vec<String>)
        ensures
            text::texts(names@) == self@.writable.names,
    {
        self.writable.names()
    }

    /// Reads the sensor under a name, over the confirmed state. There is no value where no sensor
    /// has the name.
    pub fn read(&mut self, name: &str, current: &CurrentState) -> (value: Option<u64>)
        requires
            old(self)@.wf(),
            old(self)@.readable.found(name@) matches Some(sensor) ==> sensor.readable(
                current@.outline(),
            ),
        ensures
            final(self)@.wf(),
            final(self)@.writable == old(self)@.writable,
            read_through(
                old(self)@.readable,
                name@,
                current@,
                value,
                final(self)@.readable,
            ),
            final(self)@.readable.found(name@) matches Some(sensor) ==> sensor.readable(
                current@.outline(),
            ),
            all_readable(old(self)@.readable, current@.outline()) ==> all_readable(
                final(self)@.readable,
                current@.outline(),
            ),
    {
        match self.readable.place(name) {
            Some(place) => {
                let value: u64 = self.readable.at_mut(place).read(current);
                proof {
                    let after = self@.readable.items[place as int];
                    let sensor = old(self)@.readable.items[place as int];
                    assert(S::reads(sensor, current@, value, after));
                    assert(self@.readable =~= old(self)@.readable.put(name@, after));
                    assert(put_back(
                        old(self)@.readable,
                        name@,
                        sensor,
                        current@,
                        value,
                        self@.readable,
                    ));
                }
                Some(value)
            },
            None => None,
        }
    }

    /// Writes to the sink under a name. It is an error where no sink has the name.
    pub fn write(&mut self, name: &str, value: u64) -> (outcome: Result<(), String>)
        requires
            old(self)@.wf(),
            old(self)@.writable.found(name@) matches Some(sink) ==> sink.takes(value),
        ensures
            final(self)@.wf(),
            final(self)@.readable == old(self)@.readable,
            match (outcome, old(self)@.writable.found(name@)) {
                (Ok(_), Some(sink)) => exists|after: K| #[trigger]
                    K::writes(sink, value, after) && final(self)@.writable
                        == old(self)@.writable.put(name@, after),
                (Err(message), None) => message@ == unknown_signal(name@)
                    && final(self)@.writable == old(self)@.writable,
                _ => false,
            },
    {
        match self.writable.place(name) {
            Some(place) => {
                self.writable.at_mut(place).write(value);
                proof {
                    let after = self@.writable.items[place as int];
                    assert(K::writes(old(self)@.writable.items[place as int], value, after));
                }
                Ok(())
            },
            None => Err(text::framed("IoImage: sinal de escrita '", name, "' não existe")),
        }
    }

    /// Writes commands one after the other. A command for a name that no sink has is left out.
    pub fn apply(&mut self, commands: &Vec<(String, u64)>)
        requires
            old(self)@.wf(),
            all_taking(old(self)@.writable),
        ensures
            final(self)@.wf(),
            final(self)@.readable == old(self)@.readable,
            all_taking(final(self)@.writable),
            applied(old(self)@.writable, commands@, commands@.len(), final(self)@.writable),
    {
        let ghost start = self@;
        let mut i: usize = 0;
        while i < commands.len()
            invariant
                i <= commands@.len(),
                self@.wf(),
                self@.readable == start.readable,
                all_taking(self@.writable),
                applied(start.writable, commands@, i as nat, self@.writable),
            decreases commands@.len() - i,
        {
            let ghost between = self@.writable;
            let name = commands[i].0.as_str();
            let value: u64 = commands[i].1;
            match self.writable.place(name) {
                Some(place) => {
                    self.writable.at_mut(place).write(value);
                    proof {
                        let after = self@.writable.items[place as int];
                        let sink = between.items[place as int];
                        assert(K::writes(sink, value, after));
                        assert(self@.writable =~= between.put(name@, after));
                        assert(written_to(between, name@, sink, value, self@.writable));
                        assert forall|k: int, later: u64|
                            0 <= k < self@.writable.items.len() implies #[trigger] self@.writable.items[k].takes(
                            later,
                        ) by {
                            assert(between.items[k].takes(later));
                        }
                    }
                },
                None => {},
            }
            i = i + 1;
            assert(applied_one(between, commands@[i as nat - 1], self@.writable));
        }
    }

    /// Reads every sensor once, over the confirmed state.
    pub fn readings(&mut self, current: &CurrentState) -> (list: Vec<(String, u64)>)
        requires
            old(self)@.wf(),
            all_readable(old(self)@.readable, current@.outline()),
        ensures
            final(self)@.wf(),
            final(self)@.writable == old(self)@.writable,
            final(self)@.readable.names == old(self)@.readable.names,
            list@.len() == old(self)@.readable.names.len(),
            forall|i: int|
                0 <= i < list@.len() ==> (#[trigger] list@[i]).0@ == old(self)@.readable.names[i]
                    && S::reads(
                    old(self)@.readable.items[i],
                    current@,
                    list@[i].1,
                    final(self)@.readable.items[i],
                ),
            all_readable(final(self)@.readable, current@.outline()),
    {
        let ghost start = self@;
        let names: Vec<String> = self.readable.names();
        let mut list: Vec<(String, u64)> = Vec::new();
        let mut i: usize = 0;
        assert(text::texts(names@).len() == names@.len());
        while i < names.len()
            invariant
                i <= names@.len() == start.readable.items.len(),
                start.wf(),
                self@.wf(),
                text::texts(names@) == start.readable.names,
                self@.writable == start.writable,
                self@.readable.names == start.readable.names,
                list@.len() == i,
                all_readable(self@.readable, current@.outline()),
                forall|k: int|
                    i <= k < start.readable.items.len() ==> #[trigger] self@.readable.items[k]
                        == start.readable.items[k],
                forall|k: int|
                    0 <= k < i ==> (#[trigger] list@[k]).0@ == start.readable.names[k] && S::reads(
                        start.readable.items[k],
                        current@,
                        list@[k].1,
                        self@.readable.items[k],
                    ),
            decreases names@.len() - i,
        {
            let ghost before = list@;
            let ghost items = self@.readable.items;
            let value: u64 = self.readable.at_mut(i).read(current);
            list.push((names[i].clone(), value));
            proof {
                assert forall|k: int| 0 <= k < self@.readable.items.len() implies (
                #[trigger] self@.readable.items[k]).readable(current@.outline()) by {
                    if k != i {
                        assert(self@.readable.items[k] == items[k]);
                    }
                }
                assert(text::texts(names@)[i as int] == names@[i as int]@);
                assert forall|k: int| 0 <= k < i + 1 implies (#[trigger] list@[k]).0@
                    == start.readable.names[k] && S::reads(
                    start.readable.items[k],
                    current@,
                    list@[k].1,
                    self@.readable.items[k],
                ) by {
                    if k < i {
                        assert(list@[k] == before[k]);
                    }
                }
            }
            i = i + 1;
        }
        list
    }
}

} // verus!
