//! The decisions of the ticket server that is fed through a bounded channel:
//! each received command is applied to the store and answered.

use vstd::prelude::*;
use crate::data::{Status, Ticket, TicketDraft};
use crate::store::{lemma_add_then_lookup, StoreView, TicketData, TicketId};

verus! {

/// A request to the ticket server.
#[derive(Debug)]
pub enum Command {
    Insert { draft: TicketDraft },
    Get { id: TicketId },
}

/// The server's answer to one command.
#[derive(Debug)]
pub enum Reply {
    Inserted(TicketId),
    Found(Option<Ticket>),
}

/// What the server does with what it received: answer, or shut down once
/// every sender is gone.
#[derive(Debug)]
pub enum ServerStep {
    Respond(Reply),
    Shutdown,
}

/// The error of a client whose request could not be delivered or answered.
#[derive(Clone, Copy, Debug, PartialEq, Eq, Structural)]
pub struct OverloadedError;

impl OverloadedError {
    /// The error's message.
    pub fn to_string(&self) -> (res: String)
        ensures
            res@ == "The store is overloaded"@,
    {
        String::from_str("The store is overloaded")
    }
}

/// Whether the store can take one more ticket without its counter
/// overflowing.
pub open spec fn can_serve(store: StoreView, received: Option<Command>) -> bool {
    match received {
        Some(Command::Insert { .. }) => store.next_id < u64::MAX,
        _ => true,
    }
}

/// The store after a received command, and the step taken.
pub open spec fn serve_spec(store: StoreView, received: Option<Command>) -> (StoreView, ServerStep) {
    match received {
        Some(Command::Insert { draft }) => (store.add(draft), ServerStep::Respond(Reply::Inserted(TicketId(store.next_id as u64)))),
        Some(Command::Get { id }) => (store, ServerStep::Respond(Reply::Found(store.lookup(id)))),
        None => (store, ServerStep::Shutdown),
    }
}

/// What the server answers, turn by turn: an insert answers the next id
/// and a get of that id then finds the inserted draft as a `ToDo` ticket
/// under it; a get leaves the store as it is and answers what the store
/// finds; a closed channel shuts the server down and leaves the store.
pub proof fn lemma_served_insert_then_get(store: StoreView, draft: TicketDraft, id: TicketId)
    requires
        store.wf(),
        store.next_id < u64::MAX,
    ensures
        serve_spec(store, Some(Command::Insert { draft })).0.wf(),
        serve_spec(store, Some(Command::Insert { draft })).1
            == ServerStep::Respond(Reply::Inserted(TicketId(store.next_id as u64))),
        serve_spec(serve_spec(store, Some(Command::Insert { draft })).0, Some(Command::Get { id: TicketId(store.next_id as u64) })).1
            == ServerStep::Respond(Reply::Found(Some(Ticket {
                id: TicketId(store.next_id as u64),
                title: draft.title,
                description: draft.description,
                status: Status::ToDo,
            }))),
        serve_spec(store, Some(Command::Get { id })).0 == store,
        serve_spec(store, Some(Command::Get { id })).1 == ServerStep::Respond(Reply::Found(store.lookup(id))),
        serve_spec(store, None).0 == store,
        serve_spec(store, None).1 == ServerStep::Shutdown,
{
    lemma_add_then_lookup(store, draft);
}

/// One turn of the server loop: `received` is `None` once the channel has no
/// sender left. An insert stores the draft and answers its id; a get answers
/// the ticket, if any; a closed channel shuts the server down.
pub fn server_step(store: &mut TicketData, received: Option<Command>) -> (step: ServerStep)
    requires
        old(store).wf(),
        can_serve(old(store)@, received),
    ensures
        final(store).wf(),
        (final(store)@, step) == serve_spec(old(store)@, received),
{
    match received {
        Some(Command::Insert { draft }) => {
            let id = store.add_ticket(draft);
            ServerStep::Respond(Reply::Inserted(id))
        },
        Some(Command::Get { id }) => {
            let ticket = store.get(id);
            ServerStep::Respond(Reply::Found(ticket))
        },
        None => ServerStep::Shutdown,
    }
}

} // verus!
