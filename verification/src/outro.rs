//! The REST endpoints of the ticket service: their payloads, and what each
//! endpoint does to the store and answers.

pub mod server;

use vstd::prelude::*;
use crate::data::{status_name, status_named, Status, Ticket, TicketDraft};
use crate::store::{StoreView, TicketData, TicketId};

verus! {

/// A user of the service.
#[derive(Debug, PartialEq)]
pub struct User {
    pub id: u64,
    pub name: String,
}

impl Clone for User {
    fn clone(&self) -> (res: Self)
        ensures
            res == *self,
    {
        User { id: self.id, name: self.name.clone() }
    }
}

/// Payload of `POST /ticket`.
#[derive(Debug)]
pub struct CreateTicket {
    pub title: String,
    pub description: String,
}

/// Answer of `POST /ticket`: the id of the new ticket.
#[derive(Debug)]
pub struct CreateTicketResponse {
    pub id: u64,
}

/// Payload of `POST /get`.
#[derive(Debug)]
pub struct GetTicket {
    pub id: u64,
}

/// Answer of `POST /get` and `POST /patch`: the ticket, if there is one.
#[derive(Debug)]
pub struct GetTicketResponse {
    pub ticket: Option<TicketDetail>,
}

/// A ticket as the service shows it.
#[derive(Debug)]
pub struct TicketDetail {
    pub id: u64,
    pub title: String,
    pub description: String,
    pub status: String,
}

/// Payload of `POST /patch`: the fields to change; `None` keeps a field.
#[derive(Debug)]
pub struct PatchTicket {
    pub id: u64,
    pub title: Option<String>,
    pub description: Option<String>,
    pub status: Option<String>,
}

/// Whether the shown fields `(id, title, description, status)` are those
/// of the ticket.
pub open spec fn shows(id: u64, title: Seq<char>, description: Seq<char>, status: Seq<char>, t: Ticket) -> bool {
    &&& id == t.id.0
    &&& title == t.title@
    &&& description == t.description@
    &&& status == status_name(t.status)
}

/// Whether a detail shows the ticket.
pub open spec fn detail_shows(d: TicketDetail, t: Ticket) -> bool {
    shows(d.id, d.title@, d.description@, d.status@, t)
}

/// Whether an answer shows exactly the ticket found, or nothing when none is.
pub open spec fn answers(res: GetTicketResponse, found: Option<Ticket>) -> bool {
    match found {
        None => res.ticket is None,
        Some(t) => res.ticket matches Some(d) && detail_shows(d, t),
    }
}

/// Whether the status text of a patch, if any, names a status.
pub open spec fn patch_status_valid(status: Option<String>) -> bool {
    match status {
        Some(s) => status_named(s@) is Some,
        None => true,
    }
}

/// The ticket after a patch: each given field replaces the stored one.
pub open spec fn patched(t: Ticket, title: Option<String>, description: Option<String>, status: Option<String>) -> Ticket {
    Ticket {
        id: t.id,
        title: match title { Some(x) => x, None => t.title },
        description: match description { Some(x) => x, None => t.description },
        status: match status { Some(x) => status_named(x@).unwrap(), None => t.status },
    }
}

/// The store after a patch of the ticket under `id`, if there is one.
pub open spec fn store_after_patch(s: StoreView, id: u64, title: Option<String>, description: Option<String>, status: Option<String>) -> StoreView {
    match s.lookup(TicketId(id)) {
        Some(t) => s.replace(patched(t, title, description, status)),
        None => s,
    }
}

/// After a patch of a stored ticket, the store finds that ticket with the
/// given fields changed and the others kept, under the same id; every
/// other id finds what it found before; a patch that gives no field leaves
/// the ticket as it was.
pub proof fn lemma_patch_then_lookup(s: StoreView, id: u64, title: Option<String>, description: Option<String>, status: Option<String>)
    requires
        s.wf(),
        s.lookup(TicketId(id)) is Some,
    ensures
        ({
            let t = s.lookup(TicketId(id)).unwrap();
            let after = store_after_patch(s, id, title, description, status);
            &&& after.wf()
            &&& after.lookup(TicketId(id)) == Some(patched(t, title, description, status))
            &&& patched(t, title, description, status).id == TicketId(id)
            &&& patched(t, None, None, None) == t
            &&& forall|other: TicketId| other.0 != id ==> #[trigger] after.lookup(other) == s.lookup(other)
        }),
{
}

/// A patch changes exactly the fields it gives: the id always stays; a
/// title, description or status that the patch leaves out keeps its stored
/// value, whatever the other fields of the patch are; one that it gives
/// replaces the stored one (a status by the status its text names).
pub proof fn lemma_patch_fields(t: Ticket, title: Option<String>, description: Option<String>, status: Option<String>)
    ensures
        patched(t, title, description, status).id == t.id,
        title is None ==> patched(t, title, description, status).title == t.title,
        title matches Some(x) ==> patched(t, title, description, status).title == x,
        description is None ==> patched(t, title, description, status).description == t.description,
        description matches Some(x) ==> patched(t, title, description, status).description == x,
        status is None ==> patched(t, title, description, status).status == t.status,
        status matches Some(x) ==> (status_named(x@) matches Some(s) ==> patched(t, title, description, status).status == s),
{
}

/// The fields of a ticket as the service shows them.
pub fn show_fields(t: &Ticket) -> (res: (u64, String, String, String))
    ensures
        shows(res.0, res.1@, res.2@, res.3@, *t),
{
    (t.id.0, t.title.clone(), t.description.clone(), t.status.to_string())
}

/// Applies the given fields to a ticket.
pub fn apply_patch(t: Ticket, title: Option<String>, description: Option<String>, status: Option<String>) -> (res: Ticket)
    requires
        patch_status_valid(status),
    ensures
        res == patched(t, title, description, status),
{
    let mut t = t;
    if let Some(title) = title {
        t.title = title;
    }
    if let Some(description) = description {
        t.description = description;
    }
    if let Some(status) = status {
        match Status::try_from(status) {
            Ok(s) => t.status = s,
            Err(_) => {},
        }
    }
    t
}

/// The id of the first ticket that the service creates.
pub const FIRST_TICKET_ID: u64 = 1;

/// The empty store that the service starts with: its first ticket gets id
/// `FIRST_TICKET_ID`.
pub fn service_store() -> (res: TicketData)
    ensures
        res.wf(),
        res@.tickets == Map::<u64, Ticket>::empty(),
        res@.next_id == FIRST_TICKET_ID,
{
    TicketData::starting_at(FIRST_TICKET_ID)
}

/// `GET /health`: always `OK`.
pub fn health_check() -> (res: &'static str)
    ensures
        res@ == "OK"@,
{
    "OK"
}

/// `POST /ticket`: stores a new `ToDo` ticket and answers its id.
pub fn create_ticket(store: &mut TicketData, payload: CreateTicket) -> (res: CreateTicketResponse)
    requires
        old(store).wf(),
        old(store)@.next_id < u64::MAX,
    ensures
        final(store).wf(),
        final(store)@ == old(store)@.add(TicketDraft { title: payload.title, description: payload.description }),
        res.id == old(store)@.next_id,
{
    let id = store.add_ticket(TicketDraft { title: payload.title, description: payload.description });
    CreateTicketResponse { id: id.0 }
}

/// Shows a found ticket, or nothing.
fn detail_of(found: Option<Ticket>) -> (res: GetTicketResponse)
    ensures
        answers(res, found),
{
    match found {
        None => GetTicketResponse { ticket: None },
        Some(t) => {
            let (id, title, description, status) = show_fields(&t);
            GetTicketResponse { ticket: Some(TicketDetail { id, title, description, status }) }
        },
    }
}

/// `POST /get`: answers the ticket with the given id, if there is one.
pub fn get_ticket(store: &TicketData, payload: GetTicket) -> (res: GetTicketResponse)
    requires
        store.wf(),
    ensures
        answers(res, store@.lookup(TicketId(payload.id))),
{
    let found = store.get(TicketId(payload.id));
    detail_of(found)
}

/// `POST /patch`: changes the given fields of the ticket with the given id,
/// and answers the ticket as it now is; answers nothing when there is no
/// such ticket. A status text is read without regard to case.
pub fn patch_ticket(store: &mut TicketData, payload: PatchTicket) -> (res: GetTicketResponse)
    requires
        old(store).wf(),
        old(store)@.lookup(TicketId(payload.id)) is Some ==> patch_status_valid(payload.status),
    ensures
        final(store).wf(),
        final(store)@ == store_after_patch(old(store)@, payload.id, payload.title, payload.description, payload.status),
        answers(res, final(store)@.lookup(TicketId(payload.id))),
{
    let id = TicketId(payload.id);
    match store.get(id) {
        None => GetTicketResponse { ticket: None },
        Some(t) => {
            let t = apply_patch(t, payload.title, payload.description, payload.status);
            store.replace(t.clone());
            detail_of(Some(t))
        },
    }
}

/// `POST /patch` for any payload: when a ticket has the id and the status
/// text names no status, the patch is refused with `None` and the store is
/// left as it was; any other payload is applied as `patch_ticket` does (a
/// missing id is answered with no ticket, whatever the status text).
pub fn checked_patch_ticket(store: &mut TicketData, payload: PatchTicket) -> (res: Option<GetTicketResponse>)
    requires
        old(store).wf(),
    ensures
        final(store).wf(),
        res is None <==> (old(store)@.lookup(TicketId(payload.id)) is Some && !patch_status_valid(payload.status)),
        res is None ==> final(store)@ == old(store)@,
        res matches Some(r) ==> final(store)@ == store_after_patch(old(store)@, payload.id, payload.title, payload.description, payload.status)
            && answers(r, final(store)@.lookup(TicketId(payload.id))),
{
    let found = store.get(TicketId(payload.id)).is_some();
    let valid = match &payload.status {
        Some(s) => Status::try_from(s.clone()).is_ok(),
        None => true,
    };
    if !found || valid {
        Some(patch_ticket(store, payload))
    } else {
        None
    }
}

} // verus!
