//! An append-only list of named items.
use crate::text;
use vstd::prelude::*;

verus! {

/// Items under names. An item keeps its place for good; a name that is offered again means the
/// later item.
pub struct Catalog<T> {
    names: Vec<String>,
    items: Vec<T>,
}

#[verifier::ext_equal]
pub struct CatalogView<T> {
    pub names: Seq<Seq<char>>,
    pub items: Seq<T>,
}

impl<T> CatalogView<T> {
    pub open spec fn wf(self) -> bool {
        self.names.len() == self.items.len() && self.names.len() <= usize::MAX
    }

    pub open spec fn offered(self, name: Seq<char>, item: T) -> CatalogView<T> {
        CatalogView { names: self.names.push(name), items: self.items.push(item) }
    }

    /// The item that a look-up of `name` finds.
    pub open spec fn found(self, name: Seq<char>) -> Option<T> {
        match text::last_position(self.names, name) {
            Some(place) => if place < self.items.len() {
                Some(self.items[place as int])
            } else {
                None
            },
            None => None,
        }
    }
}

impl<T> Catalog<T> {
    pub closed spec fn view(&self) -> CatalogView<T> {
        CatalogView { names: text::texts(self.names@), items: self.items@ }
    }

    pub fn new() -> (catalog: Catalog<T>)
        ensures
            catalog@ == (CatalogView::<T> { names: Seq::empty(), items: Seq::empty() }),
            catalog@.wf(),
    {
        let catalog = Catalog { names: Vec::new(), items: Vec::new() };
        assert(text::texts(catalog.names@) =~= Seq::empty());
        catalog
    }

    pub fn offer(&mut self, name: &str, item: T)
        requires
            old(self)@.wf(),
        ensures
            final(self)@ == old(self)@.offered(name@, item),
            final(self)@.wf(),
    {
        self.names.push(name.to_owned());
        self.items.push(item);
        assert(text::texts(self.names@) =~= old(self)@.names.push(name@));
        assert(self.names.len() == self.names@.len());
    }

    pub fn names(&self) -> (listed: Vec<String>)
        ensures
            text::texts(listed@) == text::effective_names(self@.names, self@.names.len()),
    {
        text::list_names(&self.names)
    }

    /// The names as they were offered, one for each place.
    pub fn offered_names(&self) -> (names: &Vec<String>)
        ensures
            text::texts(names@) == self@.names,
    {
        &self.names
    }

    pub fn find(&self, name: &str) -> (item: Option<&T>)
        ensures
            match (item, self@.found(name@)) {
                (Some(a), Some(b)) => *a == b,
                (None, None) => true,
                _ => false,
            },
    {
        match text::find_last(&self.names, name) {
            Some(place) => if place < self.items.len() {
                Some(&self.items[place])
            } else {
                None
            },
            None => None,
        }
    }

    pub fn len(&self) -> (n: usize)
        ensures
            n == self@.items.len(),
    {
        self.items.len()
    }

    pub fn at(&self, place: usize) -> (item: &T)
        requires
            place < self@.items.len(),
        ensures
            *item == self@.items[place as int],
    {
        &self.items[place]
    }
}

} // verus!
