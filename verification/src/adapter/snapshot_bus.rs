//! The readings of a plant, by name.
use crate::table::{Table, TableView};
use vstd::prelude::*;

verus! {

/// The latest value that was published under each name. A bus is not copied: a publisher and a reader
/// on different threads share this one value, behind a lock of theirs.
pub struct SnapshotBus {
    values: Table<u64>,
}

/// A table with these readings put into it, one after the other.
pub open spec fn published(table: TableView<u64>, readings: Seq<(Seq<char>, u64)>) -> TableView<u64>
    decreases readings.len(),
{
    if readings.len() == 0 {
        table
    } else {
        published(table, readings.drop_last()).put(readings.last().0, readings.last().1)
    }
}

/// Readings as text and numbers.
pub open spec fn readings_of(readings: Seq<(String, u64)>) -> Seq<(Seq<char>, u64)> {
    Seq::new(readings.len(), |i: int| (readings[i].0@, readings[i].1))
}

impl SnapshotBus {
    pub closed spec fn view(&self) -> TableView<u64> {
        self.values@
    }

    pub fn new() -> (bus: SnapshotBus)
        ensures
            bus@ == (TableView::<u64> { names: Seq::empty(), items: Seq::empty() }),
            bus@.wf(),
    {
        SnapshotBus { values: Table::new() }
    }

    /// Publishes the readings of one tick together. Of two readings under one name the later counts.
    pub fn publish_all(&mut self, readings: &Vec<(String, u64)>)
        requires
            old(self)@.wf(),
        ensures
            final(self)@ == published(old(self)@, readings_of(readings@)),
            final(self)@.wf(),
    {
        let ghost all = readings_of(readings@);
        let ghost before = self@;
        let mut i: usize = 0;
        assert(all.take(0) =~= Seq::empty());
        while i < readings.len()
            invariant
                i <= readings@.len(),
                all == readings_of(readings@),
                self@.wf(),
                self@ == published(before, all.take(i as int)),
            decreases readings@.len() - i,
        {
            self.values.insert(readings[i].0.as_str(), readings[i].1);
            i = i + 1;
            assert(all.take(i as int).drop_last() =~= all.take(i - 1));
        }
        assert(all.take(i as int) =~= all);
    }

    /// The latest value under a name, if one was ever published.
    pub fn read(&self, name: &str) -> (value: Option<u64>)
        requires
            self@.wf(),
        ensures
            value == self@.found(name@),
    {
        match self.values.find(name) {
            Some(value) => Some(*value),
            None => None,
        }
    }
}

impl Default for SnapshotBus {
    fn default() -> (bus: SnapshotBus)
        ensures
            bus@ == (TableView::<u64> { names: Seq::empty(), items: Seq::empty() }),
            bus@.wf(),
    {
        SnapshotBus::new()
    }
}

/// The latest of the readings under a name.
pub open spec fn latest(readings: Seq<(Seq<char>, u64)>, name: Seq<char>) -> Option<u64>
    decreases readings.len(),
{
    if readings.len() == 0 {
        None
    } else if readings.last().0 == name {
        Some(readings.last().1)
    } else {
        latest(readings.drop_last(), name)
    }
}

proof fn publishing_keeps_order(table: TableView<u64>, readings: Seq<(Seq<char>, u64)>)
    requires
        table.wf(),
        table.names.len() + readings.len() <= usize::MAX,
    ensures
        published(table, readings).wf(),
        published(table, readings).names.len() <= table.names.len() + readings.len(),
    decreases readings.len(),
{
    if readings.len() > 0 {
        publishing_keeps_order(table, readings.drop_last());
        crate::table::what_was_put_is_found(
            published(table, readings.drop_last()),
            readings.last().0,
            readings.last().1,
        );
    }
}

/// A reader sees the latest value of what was published together, and under every other name what
/// was there before.
pub proof fn a_reader_sees_the_whole_tick(
    table: TableView<u64>,
    readings: Seq<(Seq<char>, u64)>,
    name: Seq<char>,
)
    requires
        table.wf(),
        table.names.len() + readings.len() <= usize::MAX,
    ensures
        published(table, readings).found(name) == match latest(readings, name) {
            Some(value) => Some(value),
            None => table.found(name),
        },
    decreases readings.len(),
{
    if readings.len() > 0 {
        let earlier = published(table, readings.drop_last());
        publishing_keeps_order(table, readings.drop_last());
        a_reader_sees_the_whole_tick(table, readings.drop_last(), name);
        if readings.last().0 == name {
            crate::table::what_was_put_is_found(earlier, name, readings.last().1);
        } else {
            crate::table::putting_leaves_others_alone(
                earlier,
                readings.last().0,
                readings.last().1,
                name,
            );
        }
    }
}

} // verus!
