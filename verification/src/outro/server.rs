//! The second layout of the REST endpoints (`/create`, `/get`, `/patch`),
//! with its own payload types.

use vstd::prelude::*;
use crate::data::{Status, Ticket, TicketDraft};
use crate::outro::{apply_patch, patch_status_valid, show_fields, shows, store_after_patch};
use crate::store::{TicketData, TicketId};

verus! {

/// Payload of `POST /create`.
#[derive(Debug)]
pub struct CreateTicket {
    pub title: String,
    pub description: String,
}

/// Answer of `POST /create`: the id of the new ticket.
#[derive(Debug)]
pub struct CreateTicketResponse {
    pub id: u64,
}

/// Payload of `POST /get`.
#[derive(Debug)]
pub struct GetTicket {
    pub id: u64,
}

/// Answer of `POST /get` and `POST /patch`: the ticket, if there is one.
#[derive(Debug)]
pub struct GetTicketResponse {
    pub ticket: Option<TicketDetails>,
}

/// A ticket as the service shows it.
#[derive(Debug)]
pub struct TicketDetails {
    pub id: u64,
    pub title: String,
    pub description: String,
    pub status: String,
}

/// Payload of `POST /patch`: the fields to change; `None` keeps a field.
#[derive(Debug)]
pub struct PatchTicket {
    pub id: u64,
    pub title: Option<String>,
    pub description: Option<String>,
    pub status: Option<String>,
}

/// Whether an answer shows exactly the ticket found, or nothing when none is.
pub open spec fn answers(res: GetTicketResponse, found: Option<Ticket>) -> bool {
    match found {
        None => res.ticket is None,
        Some(t) => res.ticket matches Some(d) && shows(d.id, d.title@, d.description@, d.status@, t),
    }
}

/// `GET /health`: always `OK`.
pub fn health_check() -> (res: &'static str)
    ensures
        res@ == "OK"@,
{
    "OK"
}

/// `POST /create`: stores a new `ToDo` ticket and answers its id.
pub fn create_ticket(store: &mut TicketData, payload: CreateTicket) -> (res: CreateTicketResponse)
    requires
        old(store).wf(),
        old(store)@.next_id < u64::MAX,
    ensures
        final(store).wf(),
        final(store)@ == old(store)@.add(TicketDraft { title: payload.title, description: payload.description }),
        res.id == old(store)@.next_id,
{
    let id = store.add_ticket(TicketDraft { title: payload.title, description: payload.description });
    CreateTicketResponse { id: id.0 }
}

/// Shows a found ticket, or nothing.
fn details_of(found: Option<Ticket>) -> (res: GetTicketResponse)
    ensures
        answers(res, found),
{
    match found {
        None => GetTicketResponse { ticket: None },
        Some(t) => {
            let (id, title, description, status) = show_fields(&t);
            GetTicketResponse { ticket: Some(TicketDetails { id, title, description, status }) }
        },
    }
}

/// `POST /get`: answers the ticket with the given id, if there is one.
pub fn get_ticket(store: &TicketData, payload: GetTicket) -> (res: GetTicketResponse)
    requires
        store.wf(),
    ensures
        answers(res, store@.lookup(TicketId(payload.id))),
{
    let found = store.get(TicketId(payload.id));
    details_of(found)
}

/// `POST /patch`: changes the given fields of the ticket with the given id,
/// and answers the ticket as it now is; answers nothing when there is no
/// such ticket.
pub fn patch_ticket(store: &mut TicketData, payload: PatchTicket) -> (res: GetTicketResponse)
    requires
        old(store).wf(),
        old(store)@.lookup(TicketId(payload.id)) is Some ==> patch_status_valid(payload.status),
    ensures
        final(store).wf(),
        final(store)@ == store_after_patch(old(store)@, payload.id, payload.title, payload.description, payload.status),
        answers(res, final(store)@.lookup(TicketId(payload.id))),
{
    let id = TicketId(payload.id);
    match store.get(id) {
        None => GetTicketResponse { ticket: None },
        Some(t) => {
            let t = apply_patch(t, payload.title, payload.description, payload.status);
            store.replace(t.clone());
            details_of(Some(t))
        },
    }
}

/// `POST /patch` for any payload: when a ticket has the id and the status
/// text names no status, the patch is refused with `None` and the store is
/// left as it was; any other payload is applied as `patch_ticket` does (a
/// missing id is answered with no ticket, whatever the status text).
pub fn checked_patch_ticket(store: &mut TicketData, payload: PatchTicket) -> (res: Option<GetTicketResponse>)
    requires
        old(store).wf(),
    ensures
        final(store).wf(),
        res is None <==> (old(store)@.lookup(TicketId(payload.id)) is Some && !patch_status_valid(payload.status)),
        res is None ==> final(store)@ == old(store)@,
        res matches Some(r) ==> final(store)@ == store_after_patch(old(store)@, payload.id, payload.title, payload.description, payload.status)
            && answers(r, final(store)@.lookup(TicketId(payload.id))),
{
    let found = store.get(TicketId(payload.id)).is_some();
    let valid = match &payload.status {
        Some(s) => Status::try_from(s.clone()).is_ok(),
        None => true,
    };
    if !found || valid {
        Some(patch_ticket(store, payload))
    } else {
        None
    }
}

} // verus!
