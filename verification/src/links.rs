//! Requests for a name that are answered later.
//!
//! A holder asks for a name before anyone has offered it and gets a ticket. Settling walks the
//! requests in the order in which they were made, writes the place of the name on the ticket and
//! drops the request. A ticket that carries a place keeps it.
use crate::text;
use vstd::prelude::*;

verus! {

/// The tickets handed out so far, and the requests that still wait for a place.
pub struct Links {
    bindings: Vec<Option<usize>>,
    pending: Vec<(String, usize)>,
}

/// What a [`Links`] holds: the place on each ticket, and the name and ticket of each request.
#[verifier::ext_equal]
pub struct LinksView {
    pub bindings: Seq<Option<usize>>,
    pub pending: Seq<(Seq<char>, int)>,
}

pub open spec fn requests(pending: Seq<(String, usize)>) -> Seq<(Seq<char>, int)> {
    Seq::new(pending.len(), |i: int| (pending[i].0@, pending[i].1 as int))
}

impl LinksView {
    /// Whether a request waits for the place of this ticket.
    pub open spec fn waits(self, ticket: int) -> bool {
        exists|i: int| 0 <= i < self.pending.len() && (#[trigger] self.pending[i]).1 == ticket
    }

    /// Whether every place is below `n`.
    pub open spec fn within(self, n: nat) -> bool {
        forall|t: int|
            0 <= t < self.bindings.len() ==> (#[trigger] self.bindings[t] matches Some(p) ==> p < n)
    }

    /// Every waiting request has a ticket of its own, and nothing is written on it yet; and every
    /// ticket on which nothing is written has a request.
    pub open spec fn wf(self) -> bool {
        &&& forall|t: int|
            0 <= t < self.bindings.len() ==> (#[trigger] self.bindings[t]) is Some || self.waits(t)
        &&& forall|i: int|
            0 <= i < self.pending.len() ==> 0 <= (#[trigger] self.pending[i]).1
                < self.bindings.len() && self.bindings[self.pending[i].1] is None
        &&& forall|i: int, j: int|
            0 <= i < j < self.pending.len() ==> (#[trigger] self.pending[i]).1 != (
            #[trigger] self.pending[j]).1
    }

    /// The place that the ticket carries.
    pub open spec fn position(self, ticket: int) -> Option<usize> {
        if 0 <= ticket < self.bindings.len() {
            self.bindings[ticket]
        } else {
            None
        }
    }

    /// One more ticket, with its place already on it.
    pub open spec fn bound(self, position: usize) -> LinksView {
        LinksView { bindings: self.bindings.push(Some(position)), pending: self.pending }
    }

    /// One more ticket, with a request for `name`.
    pub open spec fn requested(self, name: Seq<char>) -> LinksView {
        LinksView {
            bindings: self.bindings.push(None),
            pending: self.pending.push((name, self.bindings.len() as int)),
        }
    }

    /// The requests answered in order against `names`, up to the first name that nobody offers.
    pub open spec fn settled(self, names: Seq<Seq<char>>) -> LinksView
        decreases self.pending.len(),
    {
        if self.pending.len() == 0 || text::last_position(names, self.pending[0].0) is None {
            self
        } else {
            LinksView {
                bindings: self.bindings.update(
                    self.pending[0].1,
                    text::last_position(names, self.pending[0].0),
                ),
                pending: self.pending.drop_first(),
            }.settled(names)
        }
    }

    /// The first requested name that is missing from `names`.
    pub open spec fn missing(self, names: Seq<Seq<char>>) -> Option<Seq<char>> {
        let left = self.settled(names).pending;
        if left.len() == 0 {
            None
        } else {
            Some(left[0].0)
        }
    }
}

proof fn answering_one_leaves_the_others(links: LinksView, place: Option<usize>)
    requires
        links.wf(),
        links.pending.len() > 0,
        place is Some,
    ensures
        ({
            let next = LinksView {
                bindings: links.bindings.update(links.pending[0].1, place),
                pending: links.pending.drop_first(),
            };
            forall|t: int|
                0 <= t < next.bindings.len() ==> (#[trigger] next.bindings[t]) is Some
                    || next.waits(t)
        }),
{
    let next = LinksView {
        bindings: links.bindings.update(links.pending[0].1, place),
        pending: links.pending.drop_first(),
    };
    assert forall|t: int| 0 <= t < next.bindings.len() implies (#[trigger] next.bindings[t]) is Some
        || next.waits(t) by {
        if next.bindings[t] is None {
            assert(links.bindings[t] is None);
            let i = choose|i: int|
                0 <= i < links.pending.len() && (#[trigger] links.pending[i]).1 == t;
            assert(next.pending[i - 1] == links.pending[i]);
        }
    }
}

/// Settling keeps every place below the number of names.
pub proof fn settling_stays_within(links: LinksView, names: Seq<Seq<char>>)
    requires
        links.wf(),
        names.len() <= usize::MAX,
        links.within(names.len()),
    ensures
        links.settled(names).within(names.len()),
    decreases links.pending.len(),
{
    if links.pending.len() > 0 && text::last_position(names, links.pending[0].0) is Some {
        text::last_position_is_last(names, links.pending[0].0);
        settling_keeps_places(links, names);
        let next = LinksView {
            bindings: links.bindings.update(
                links.pending[0].1,
                text::last_position(names, links.pending[0].0),
            ),
            pending: links.pending.drop_first(),
        };
        one_answer_keeps_tickets_apart(links, names);
        settling_stays_within(next, names);
    }
}

proof fn one_answer_keeps_tickets_apart(links: LinksView, names: Seq<Seq<char>>)
    requires
        links.wf(),
        links.pending.len() > 0,
        text::last_position(names, links.pending[0].0) is Some,
    ensures
        (LinksView {
            bindings: links.bindings.update(
                links.pending[0].1,
                text::last_position(names, links.pending[0].0),
            ),
            pending: links.pending.drop_first(),
        }).wf(),
{
    let next = LinksView {
        bindings: links.bindings.update(
            links.pending[0].1,
            text::last_position(names, links.pending[0].0),
        ),
        pending: links.pending.drop_first(),
    };
    assert forall|i: int| 0 <= i < next.pending.len() implies 0 <= (#[trigger] next.pending[i]).1
        < next.bindings.len() && next.bindings[next.pending[i].1] is None by {
        assert(next.pending[i] == links.pending[i + 1]);
    }
    assert forall|i: int, j: int| 0 <= i < j < next.pending.len() implies (
    #[trigger] next.pending[i]).1 != (#[trigger] next.pending[j]).1 by {
        assert(next.pending[i] == links.pending[i + 1]);
        assert(next.pending[j] == links.pending[j + 1]);
    }
    answering_one_leaves_the_others(links, text::last_position(names, links.pending[0].0));
}

/// Where nothing is missing, every ticket carries a place.
pub proof fn all_tickets_are_answered(links: LinksView, names: Seq<Seq<char>>, ticket: int)
    requires
        links.wf(),
        links.missing(names) is None,
        0 <= ticket < links.bindings.len(),
    ensures
        links.settled(names).position(ticket) is Some,
{
    settling_keeps_places(links, names);
    missing_means_not_offered(links, names);
}

/// Tickets that carry their places from the start leave the others as they are.
pub proof fn answered_tickets_change_nothing(links: LinksView, answered: Seq<Option<usize>>)
    requires
        links.wf(),
        forall|t: int| 0 <= t < answered.len() ==> (#[trigger] answered[t]) is Some,
    ensures
        (LinksView { bindings: links.bindings + answered, pending: links.pending }).wf(),
{
    let after = LinksView { bindings: links.bindings + answered, pending: links.pending };
    assert forall|i: int| 0 <= i < after.pending.len() implies 0 <= (#[trigger] after.pending[i]).1
        < after.bindings.len() && after.bindings[after.pending[i].1] is None by {
        assert(links.pending[i] == after.pending[i]);
    }
    assert forall|t: int| 0 <= t < after.bindings.len() implies (#[trigger] after.bindings[t]) is Some
        || after.waits(t) by {
        if t < links.bindings.len() {
            assert(after.bindings[t] == links.bindings[t]);
            assert(links.waits(t) ==> after.waits(t));
        } else {
            assert(after.bindings[t] == answered[t - links.bindings.len()]);
        }
    }
}

/// A ticket with a request of its own leaves the others as they are.
pub proof fn a_request_changes_nothing(links: LinksView, name: Seq<char>)
    requires
        links.wf(),
    ensures
        links.requested(name).wf(),
{
    let after = links.requested(name);
    let last = links.pending.len() as int;
    assert forall|i: int| 0 <= i < after.pending.len() implies 0 <= (#[trigger] after.pending[i]).1
        < after.bindings.len() && after.bindings[after.pending[i].1] is None by {
        if i < last {
            assert(links.pending[i] == after.pending[i]);
        }
    }
    assert forall|i: int, j: int| 0 <= i < j < after.pending.len() implies (
    #[trigger] after.pending[i]).1 != (#[trigger] after.pending[j]).1 by {
        assert(links.pending[i] == after.pending[i]);
        if j < last {
            assert(links.pending[j] == after.pending[j]);
        }
    }
    assert forall|t: int| 0 <= t < after.bindings.len() implies (#[trigger] after.bindings[t]) is Some
        || after.waits(t) by {
        if t < links.bindings.len() {
            assert(after.bindings[t] == links.bindings[t]);
            if after.bindings[t] is None {
                let i = choose|i: int|
                    0 <= i < links.pending.len() && (#[trigger] links.pending[i]).1 == t;
                assert(after.pending[i] == links.pending[i]);
            }
        } else {
            assert(after.pending[last].1 == t);
        }
    }
}

/// Settling keeps the tickets apart and leaves every place that was already written.
pub proof fn settling_keeps_places(links: LinksView, names: Seq<Seq<char>>)
    requires
        links.wf(),
    ensures
        links.settled(names).wf(),
        links.settled(names).bindings.len() == links.bindings.len(),
        forall|t: int|
            0 <= t < links.bindings.len() && links.bindings[t] is Some
                ==> #[trigger] links.settled(names).bindings[t] == links.bindings[t],
    decreases links.pending.len(),
{
    if links.pending.len() > 0 && text::last_position(names, links.pending[0].0) is Some {
        let next = LinksView {
            bindings: links.bindings.update(
                links.pending[0].1,
                text::last_position(names, links.pending[0].0),
            ),
            pending: links.pending.drop_first(),
        };
        one_answer_keeps_tickets_apart(links, names);
        settling_keeps_places(next, names);
        assert forall|t: int| 0 <= t < links.bindings.len() && links.bindings[t] is Some implies
            #[trigger] links.settled(names).bindings[t] == links.bindings[t] by {
            assert(next.bindings[t] == links.bindings[t]);
        }
    }
}

/// A name is missing exactly where one of the requested names is offered by nobody.
pub proof fn missing_means_not_offered(links: LinksView, names: Seq<Seq<char>>)
    ensures
        links.missing(names) is None <==> forall|i: int|
            0 <= i < links.pending.len() ==> text::last_position(
                names,
                (#[trigger] links.pending[i]).0,
            ) is Some,
        links.missing(names) matches Some(name) ==> text::last_position(names, name) is None,
        links.missing(names) is None ==> links.settled(names).pending.len() == 0,
    decreases links.pending.len(),
{
    if links.pending.len() > 0 && text::last_position(names, links.pending[0].0) is Some {
        let next = LinksView {
            bindings: links.bindings.update(
                links.pending[0].1,
                text::last_position(names, links.pending[0].0),
            ),
            pending: links.pending.drop_first(),
        };
        missing_means_not_offered(next, names);
        if links.missing(names) is None {
            assert forall|i: int| 0 <= i < links.pending.len() implies text::last_position(
                names,
                (#[trigger] links.pending[i]).0,
            ) is Some by {
                if i > 0 {
                    assert(next.pending[i - 1] == links.pending[i]);
                }
            }
        } else {
            let k = choose|k: int|
                0 <= k < next.pending.len() && text::last_position(names, (#[trigger] next.pending[k]).0) is None;
            assert(links.pending[k + 1] == next.pending[k]);
        }
    }
}

/// Where nothing is missing, the ticket of every request carries the place of its name.
pub proof fn settled_tickets_carry_their_place(
    links: LinksView,
    names: Seq<Seq<char>>,
    i: int,
)
    requires
        links.wf(),
        links.missing(names) is None,
        0 <= i < links.pending.len(),
    ensures
        links.settled(names).position(links.pending[i].1) == text::last_position(
            names,
            links.pending[i].0,
        ),
        text::last_position(names, links.pending[i].0) is Some,
    decreases links.pending.len(),
{
    missing_means_not_offered(links, names);
    let next = LinksView {
        bindings: links.bindings.update(
            links.pending[0].1,
            text::last_position(names, links.pending[0].0),
        ),
        pending: links.pending.drop_first(),
    };
    assert(text::last_position(names, links.pending[0].0) is Some);
    settling_keeps_places(links, names);
    one_answer_keeps_tickets_apart(links, names);
    if i == 0 {
        settling_keeps_places(next, names);
        assert(next.bindings[links.pending[0].1] == text::last_position(names, links.pending[0].0));
    } else {
        assert(next.pending[i - 1] == links.pending[i]);
        settled_tickets_carry_their_place(next, names, i - 1);
    }
}

impl Links {
    pub closed spec fn view(&self) -> LinksView {
        LinksView { bindings: self.bindings@, pending: requests(self.pending@) }
    }

    pub fn new() -> (links: Links)
        ensures
            links@ == (LinksView { bindings: Seq::empty(), pending: Seq::empty() }),
            links@.wf(),
    {
        let links = Links { bindings: Vec::new(), pending: Vec::new() };
        assert(requests(links.pending@) =~= Seq::empty());
        links
    }

    /// A copy that carries the same tickets and waits for the same names.
    pub fn duplicate(&self) -> (copy: Links)
        ensures
            copy@ == self@,
    {
        let mut bindings: Vec<Option<usize>> = Vec::new();
        let mut i: usize = 0;
        while i < self.bindings.len()
            invariant
                i <= self.bindings@.len(),
                bindings@ == self.bindings@.take(i as int),
            decreases self.bindings@.len() - i,
        {
            bindings.push(self.bindings[i]);
            i = i + 1;
            assert(bindings@ =~= self.bindings@.take(i as int));
        }
        let mut pending: Vec<(String, usize)> = Vec::new();
        let mut j: usize = 0;
        assert(requests(pending@) =~= requests(self.pending@).take(0));
        while j < self.pending.len()
            invariant
                j <= self.pending@.len(),
                requests(pending@) == requests(self.pending@).take(j as int),
            decreases self.pending@.len() - j,
        {
            let ghost before = pending@;
            pending.push((self.pending[j].0.clone(), self.pending[j].1));
            j = j + 1;
            assert(requests(pending@) =~= requests(before).push(
                (self.pending@[j - 1].0@, self.pending@[j - 1].1 as int),
            ));
            assert(requests(pending@) =~= requests(self.pending@).take(j as int));
        }
        assert(bindings@ =~= self.bindings@);
        assert(requests(pending@) =~= requests(self.pending@));
        Links { bindings, pending }
    }

    /// Hands out a ticket with its place on it.
    pub fn bind(&mut self, position: usize) -> (ticket: usize)
        ensures
            final(self)@ == old(self)@.bound(position),
            ticket == old(self)@.bindings.len(),
            old(self)@.wf() ==> final(self)@.wf(),
    {
        let ticket: usize = self.bindings.len();
        self.bindings.push(Some(position));
        proof {
            let before = old(self)@;
            if before.wf() {
                let answered = seq![Some(position)];
                answered_tickets_change_nothing(before, answered);
                assert(self@.bindings =~= before.bindings + answered);
            }
        }
        ticket
    }

    /// Hands out a ticket that waits for `name`.
    pub fn request(&mut self, name: &str) -> (ticket: usize)
        ensures
            final(self)@ == old(self)@.requested(name@),
            ticket == old(self)@.bindings.len(),
            old(self)@.wf() ==> final(self)@.wf(),
    {
        let ticket: usize = self.bindings.len();
        self.bindings.push(None);
        self.pending.push((name.to_owned(), ticket));
        proof {
            let before = old(self)@;
            assert(requests(self.pending@) =~= before.pending.push((name@, ticket as int)));
            if before.wf() {
                a_request_changes_nothing(before, name@);
            }
        }
        ticket
    }

    /// The place that the ticket carries.
    pub fn position(&self, ticket: usize) -> (place: Option<usize>)
        ensures
            place == self@.position(ticket as int),
    {
        if ticket < self.bindings.len() {
            self.bindings[ticket]
        } else {
            None
        }
    }

    /// Answers the waiting requests against `names`, and gives back the first name that is missing.
    pub fn settle(&mut self, names: &Vec<String>) -> (missing: Option<String>)
        requires
            old(self)@.wf(),
        ensures
            final(self)@ == old(self)@.settled(text::texts(names@)),
            final(self)@.wf(),
            match (missing, old(self)@.missing(text::texts(names@))) {
                (Some(name), Some(wanted)) => name@ == wanted,
                (None, None) => true,
                _ => false,
            },
    {
        let ghost all = text::texts(names@);
        proof {
            settling_keeps_places(self@, all);
        }
        while self.pending.len() > 0
            invariant
                self@.wf(),
                all == text::texts(names@),
                self@.settled(all) == old(self)@.settled(all),
                old(self)@.settled(all).wf(),
            decreases self.pending@.len(),
        {
            assert(self@.pending[0] == (self.pending@[0].0@, self.pending@[0].1 as int));
            match text::find_last(names, self.pending[0].0.as_str()) {
                Some(place) => {
                    let ghost before = self@;
                    let ticket: usize = self.pending[0].1;
                    self.bindings.set(ticket, Some(place));
                    let _ = self.pending.remove(0);
                    proof {
                        let next = LinksView {
                            bindings: before.bindings.update(
                                before.pending[0].1,
                                text::last_position(all, before.pending[0].0),
                            ),
                            pending: before.pending.drop_first(),
                        };
                        assert(self@.pending =~= next.pending);
                        assert(self@ == next);
                        one_answer_keeps_tickets_apart(before, all);
                    }
                },
                None => {
                    return Some(self.pending[0].0.clone());
                },
            }
        }
        None
    }
}

} // verus!
