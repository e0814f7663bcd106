//! A table of named items, each name at most once.
use crate::text;
use vstd::prelude::*;

verus! {

/// Items under names. Putting an item under a name that is taken replaces the item.
pub struct Table<T> {
    names: Vec<String>,
    items: Vec<T>,
}

/// What a table holds: its names, none of them twice, in the order in which they were first taken,
/// and the item under each.
#[verifier::ext_equal]
pub struct TableView<T> {
    pub names: Seq<Seq<char>>,
    pub items: Seq<T>,
}

impl<T> TableView<T> {
    pub open spec fn wf(self) -> bool {
        &&& self.names.len() == self.items.len()
        &&& self.names.len() <= usize::MAX
        &&& self.names.no_duplicates()
    }

    /// The item under a name.
    pub open spec fn found(self, name: Seq<char>) -> Option<T> {
        match text::last_position(self.names, name) {
            Some(place) => if place < self.items.len() {
                Some(self.items[place as int])
            } else {
                None
            },
            None => None,
        }
    }

    /// The table with an item put under a name.
    pub open spec fn put(self, name: Seq<char>, item: T) -> TableView<T> {
        match text::last_position(self.names, name) {
            Some(place) => TableView {
                names: self.names,
                items: self.items.update(place as int, item),
            },
            None => TableView { names: self.names.push(name), items: self.items.push(item) },
        }
    }
}

impl<T> Table<T> {
    pub closed spec fn view(&self) -> TableView<T> {
        TableView { names: text::texts(self.names@), items: self.items@ }
    }

    pub fn new() -> (table: Table<T>)
        ensures
            table@ == (TableView::<T> { names: Seq::empty(), items: Seq::empty() }),
            table@.wf(),
    {
        let table = Table { names: Vec::new(), items: Vec::new() };
        assert(text::texts(table.names@) =~= Seq::empty());
        table
    }

    pub fn insert(&mut self, name: &str, item: T)
        requires
            old(self)@.wf(),
        ensures
            final(self)@ == old(self)@.put(name@, item),
            final(self)@.wf(),
    {
        let ghost before = self@;
        proof {
            text::last_position_is_last(before.names, name@);
        }
        match text::find_last(&self.names, name) {
            Some(place) => {
                self.items[place] = item;
            },
            None => {
                self.names.push(name.to_owned());
                self.items.push(item);
                assert(text::texts(self.names@) =~= before.names.push(name@));
                assert(self.names.len() == self.names@.len());
            },
        }
    }

    /// The names, in the order in which they were first taken.
    pub fn names(&self) -> (names: Vec<String>)
        ensures
            text::texts(names@) == self@.names,
    {
        text::copy_texts(&self.names)
    }

    /// The place of a name.
    pub fn place(&self, name: &str) -> (place: Option<usize>)
        requires
            self@.wf(),
        ensures
            place == text::last_position(self@.names, name@),
            place matches Some(p) ==> p < self@.items.len() && self@.found(name@) == Some(
                self@.items[p as int],
            ),
            place is None ==> self@.found(name@) is None,
    {
        proof {
            text::last_position_is_last(self@.names, name@);
        }
        text::find_last(&self.names, name)
    }

    pub fn find(&self, name: &str) -> (item: Option<&T>)
        requires
            self@.wf(),
        ensures
            match (item, self@.found(name@)) {
                (Some(a), Some(b)) => *a == b,
                (None, None) => true,
                _ => false,
            },
    {
        match self.place(name) {
            Some(place) => Some(&self.items[place]),
            None => None,
        }
    }

    /// The item at a place, to be changed.
    pub fn at_mut(&mut self, place: usize) -> (item: &mut T)
        requires
            old(self)@.wf(),
            place < old(self)@.items.len(),
        ensures
            *item == old(self)@.items[place as int],
            final(self)@ == (TableView {
                names: old(self)@.names,
                items: old(self)@.items.update(place as int, *final(item)),
            }),
    {
        &mut self.items[place]
    }
}

/// What was put under a name is found there.
pub proof fn what_was_put_is_found<T>(table: TableView<T>, name: Seq<char>, item: T)
    requires
        table.wf(),
        table.names.len() < usize::MAX,
    ensures
        table.put(name, item).wf(),
        table.put(name, item).found(name) == Some(item),
{
    text::last_position_is_last(table.names, name);
    text::last_position_is_last(table.put(name, item).names, name);
}

/// Putting an item under a name leaves the items under other names alone.
pub proof fn putting_leaves_others_alone<T>(
    table: TableView<T>,
    name: Seq<char>,
    item: T,
    other: Seq<char>,
)
    requires
        table.wf(),
        table.names.len() < usize::MAX,
        other != name,
    ensures
        table.put(name, item).found(other) == table.found(other),
{
    text::last_position_is_last(table.names, name);
    text::last_position_is_last(table.names, other);
    let after = table.put(name, item);
    text::last_position_is_last(after.names, other);
    match text::last_position(table.names, other) {
        Some(p) => {
            assert(after.names[p as int] == other);
            assert(after.names.contains(other));
        },
        None => {
            assert forall|i: int| 0 <= i < after.names.len() implies after.names[i] != other by {
                if i < table.names.len() {
                    assert(table.names.contains(table.names[i]));
                }
            }
        },
    }
}

} // verus!
