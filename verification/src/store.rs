//! The ticket store: tickets by id, and the counter that hands out new ids.

use vstd::prelude::*;
use crate::data::{Status, Ticket, TicketDraft};

verus! {

broadcast use vstd::std_specs::btree::group_btree_axioms;

/// The id of a ticket.
#[derive(Clone, Copy, Debug, PartialEq, Eq, Structural, PartialOrd, Ord, Hash)]
pub struct TicketId(pub u64);

/// The contents of a store as a mathematical value: the tickets by id, and
/// the id that the next ticket will get.
pub struct StoreView {
    pub tickets: Map<u64, Ticket>,
    pub next_id: nat,
}

/// The ticket that a draft becomes under a given id.
pub open spec fn ticket_from_draft(id: u64, draft: TicketDraft) -> Ticket {
    Ticket { id: TicketId(id), title: draft.title, description: draft.description, status: Status::ToDo }
}

impl StoreView {
    /// Every stored ticket has an id below the next one, and is stored
    /// under its own id.
    pub open spec fn wf(self) -> bool {
        &&& self.next_id <= u64::MAX
        &&& forall|k: u64| #[trigger] self.tickets.contains_key(k) ==> k < self.next_id && self.tickets[k].id == TicketId(k)
    }

    /// The ticket stored under an id, if any.
    pub open spec fn lookup(self, id: TicketId) -> Option<Ticket> {
        if self.tickets.contains_key(id.0) {
            Some(self.tickets[id.0])
        } else {
            None
        }
    }

    /// The store after a draft has been added.
    pub open spec fn add(self, draft: TicketDraft) -> StoreView {
        StoreView {
            tickets: self.tickets.insert(self.next_id as u64, ticket_from_draft(self.next_id as u64, draft)),
            next_id: self.next_id + 1,
        }
    }

    /// The store after the ticket under `ticket.id` has been replaced.
    pub open spec fn replace(self, ticket: Ticket) -> StoreView {
        StoreView { tickets: self.tickets.insert(ticket.id.0, ticket), next_id: self.next_id }
    }
}

/// The state behind the store's lock: the tickets, keyed by the number of
/// their id, and the counter of ids handed out.
pub struct TicketData {
    tickets: std::collections::BTreeMap<u64, Ticket>,
    counter: u64,
}

impl View for TicketData {
    type V = StoreView;

    closed spec fn view(&self) -> StoreView {
        StoreView { tickets: self.tickets@, next_id: self.counter as nat }
    }
}

impl TicketData {
    /// The store's invariant.
    pub open spec fn wf(&self) -> bool {
        self@.wf()
    }

    /// An empty store; the first ticket gets id 0.
    pub fn new() -> (res: TicketData)
        ensures
            res.wf(),
            res@.tickets == Map::<u64, Ticket>::empty(),
            res@.next_id == 0,
    {
        TicketData { tickets: std::collections::BTreeMap::new(), counter: 0 }
    }

    /// An empty store whose first ticket gets id `first_id`.
    pub fn starting_at(first_id: u64) -> (res: TicketData)
        ensures
            res.wf(),
            res@.tickets == Map::<u64, Ticket>::empty(),
            res@.next_id == first_id,
    {
        TicketData { tickets: std::collections::BTreeMap::new(), counter: first_id }
    }

    /// The id that the next ticket will get.
    pub fn next_id(&self) -> (res: u64)
        ensures
            res == self@.next_id,
    {
        self.counter
    }

    /// Stores the draft as a new `ToDo` ticket under the next id, and
    /// returns that id.
    pub fn add_ticket(&mut self, draft: TicketDraft) -> (id: TicketId)
        requires
            old(self).wf(),
            old(self)@.next_id < u64::MAX,
        ensures
            final(self).wf(),
            id.0 == old(self)@.next_id,
            final(self)@ == old(self)@.add(draft),
    {
        let id = TicketId(self.counter);
        self.counter = self.counter + 1;
        let ticket = Ticket {
            id,
            title: draft.title,
            description: draft.description,
            status: Status::ToDo,
        };
        self.tickets.insert(id.0, ticket);
        id
    }

    /// The ticket stored under `id`, if any.
    pub fn get(&self, id: TicketId) -> (res: Option<Ticket>)
        requires
            self.wf(),
        ensures
            res == self@.lookup(id),
    {
        match self.tickets.get(&id.0) {
            Some(t) => Some(t.clone()),
            None => None,
        }
    }

    /// Replaces the stored ticket that has the same id as `ticket`.
    pub fn replace(&mut self, ticket: Ticket)
        requires
            old(self).wf(),
            old(self)@.tickets.contains_key(ticket.id.0),
        ensures
            final(self).wf(),
            final(self)@ == old(self)@.replace(ticket),
    {
        self.tickets.insert(ticket.id.0, ticket);
    }
}

/// Adding a draft keeps the store well formed; the new id was free before,
/// the store then finds under it a `ToDo` ticket with the draft's title and
/// description, the next id is one higher, and every other id finds what
/// it found before.
pub proof fn lemma_add_then_lookup(s: StoreView, draft: TicketDraft)
    requires
        s.wf(),
        s.next_id < u64::MAX,
    ensures
        s.add(draft).wf(),
        s.lookup(TicketId(s.next_id as u64)) is None,
        s.add(draft).lookup(TicketId(s.next_id as u64)) == Some(ticket_from_draft(s.next_id as u64, draft)),
        ticket_from_draft(s.next_id as u64, draft) == (Ticket {
            id: TicketId(s.next_id as u64),
            title: draft.title,
            description: draft.description,
            status: Status::ToDo,
        }),
        s.add(draft).next_id == s.next_id + 1,
        forall|other: TicketId| other.0 != s.next_id ==> #[trigger] s.add(draft).lookup(other) == s.lookup(other),
{
}

/// Two tickets added one after the other get different ids, the second one
/// above the first.
pub proof fn lemma_consecutive_ids_differ(s: StoreView, first: TicketDraft, second: TicketDraft)
    requires
        s.wf(),
        s.next_id + 1 < u64::MAX,
    ensures
        s.add(first).next_id == s.next_id + 1,
        s.add(first).add(second).lookup(TicketId(s.next_id as u64)) == Some(ticket_from_draft(s.next_id as u64, first)),
        s.add(first).add(second).lookup(TicketId((s.next_id + 1) as u64)) == Some(ticket_from_draft((s.next_id + 1) as u64, second)),
{
}

/// Replacing a stored ticket keeps the store well formed; the store then
/// finds the new ticket under its id and leaves every other id alone.
pub proof fn lemma_replace_then_lookup(s: StoreView, ticket: Ticket)
    requires
        s.wf(),
        s.tickets.contains_key(ticket.id.0),
    ensures
        s.replace(ticket).wf(),
        s.replace(ticket).lookup(ticket.id) == Some(ticket),
        s.replace(ticket).next_id == s.next_id,
        forall|other: TicketId| other != ticket.id ==> #[trigger] s.replace(ticket).lookup(other) == s.lookup(other),
{
}

} // verus!
