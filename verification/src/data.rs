//! Tickets and their status.

use vstd::prelude::*;
use crate::store::TicketId;
use crate::text::{to_uppercase, unicode_uppercase, ascii_upper};

verus! {

/// Where a ticket stands in its workflow.
#[derive(Clone, Copy, Debug, PartialEq, Eq, Structural)]
pub enum Status {
    ToDo,
    InProgress,
    Done,
}

/// A ticket of the store: its id, its texts and its status.
#[derive(Debug)]
pub struct Ticket {
    pub id: TicketId,
    pub title: String,
    pub description: String,
    pub status: Status,
}

/// What a caller hands in to open a new ticket.
#[derive(Debug)]
pub struct TicketDraft {
    pub title: String,
    pub description: String,
}

impl Clone for Ticket {
    fn clone(&self) -> (res: Self)
        ensures
            res == *self,
    {
        Ticket {
            id: self.id,
            title: self.title.clone(),
            description: self.description.clone(),
            status: self.status,
        }
    }
}

impl Clone for TicketDraft {
    fn clone(&self) -> (res: Self)
        ensures
            res == *self,
    {
        TicketDraft { title: self.title.clone(), description: self.description.clone() }
    }
}

/// The name under which a status is shown to users.
pub open spec fn status_name(s: Status) -> Seq<char> {
    match s {
        Status::ToDo => "ToDo"@,
        Status::InProgress => "InProgress"@,
        Status::Done => "Done"@,
    }
}

/// The upper-case key that a status text is matched against.
pub open spec fn status_key(s: Status) -> Seq<char> {
    match s {
        Status::ToDo => "TODO"@,
        Status::InProgress => "INPROGRESS"@,
        Status::Done => "DONE"@,
    }
}

/// The upper-case form of a text: on ASCII text, `a`..=`z` become
/// `A`..=`Z`; other text goes through Unicode upper-casing.
pub open spec fn upper_form(text: Seq<char>) -> Seq<char> {
    if vstd::utf8::is_ascii_chars(text) {
        ascii_upper(text)
    } else {
        unicode_uppercase(text)
    }
}

/// The status that a text names, compared without regard to case; `None`
/// when it names none.
pub open spec fn status_named(text: Seq<char>) -> Option<Status> {
    let upper = upper_form(text);
    if upper == status_key(Status::ToDo) {
        Some(Status::ToDo)
    } else if upper == status_key(Status::InProgress) {
        Some(Status::InProgress)
    } else if upper == status_key(Status::Done) {
        Some(Status::Done)
    } else {
        None
    }
}

/// The message of a refused status text.
pub open spec fn invalid_status_message(text: Seq<char>) -> Seq<char> {
    "Invalid status: "@ + text
}

impl Status {
    /// The display form of the status: `ToDo`, `InProgress` or `Done`.
    pub fn to_string(&self) -> (res: String)
        ensures
            res@ == status_name(*self),
    {
        match self {
            Status::ToDo => String::from_str("ToDo"),
            Status::InProgress => String::from_str("InProgress"),
            Status::Done => String::from_str("Done"),
        }
    }

    /// Reads a status from its name, in any case (`todo`, `InProgress`,
    /// `DONE`, ...). Any other text is refused with `Invalid status: <text>`.
    pub fn try_from(value: String) -> (res: Result<Status, String>)
        ensures
            match res {
                Ok(s) => status_named(value@) == Some(s),
                Err(e) => status_named(value@) is None && e@ == invalid_status_message(value@),
            },
    {
        let upper = to_uppercase(value.as_str());
        proof {
            reveal_strlit("TODO");
            reveal_strlit("INPROGRESS");
            reveal_strlit("DONE");
        }
        if upper == String::from_str("TODO") {
            Ok(Status::ToDo)
        } else if upper == String::from_str("INPROGRESS") {
            Ok(Status::InProgress)
        } else if upper == String::from_str("DONE") {
            Ok(Status::Done)
        } else {
            let mut msg = String::from_str("Invalid status: ");
            msg.append(value.as_str());
            Err(msg)
        }
    }
}

/// The status words spelled out: the display forms are `ToDo`,
/// `InProgress` and `Done`; an ASCII text names a status exactly when its
/// upper-case form is `TODO`, `INPROGRESS` or `DONE`, and names none
/// otherwise.
pub proof fn lemma_status_words(text: Seq<char>)
    ensures
        status_name(Status::ToDo) == seq!['T', 'o', 'D', 'o'],
        status_name(Status::InProgress) == seq!['I', 'n', 'P', 'r', 'o', 'g', 'r', 'e', 's', 's'],
        status_name(Status::Done) == seq!['D', 'o', 'n', 'e'],
        vstd::utf8::is_ascii_chars(text) ==> {
            &&& status_named(text) == Some(Status::ToDo) <==> ascii_upper(text) == seq!['T', 'O', 'D', 'O']
            &&& status_named(text) == Some(Status::InProgress)
                <==> ascii_upper(text) == seq!['I', 'N', 'P', 'R', 'O', 'G', 'R', 'E', 'S', 'S']
            &&& status_named(text) == Some(Status::Done) <==> ascii_upper(text) == seq!['D', 'O', 'N', 'E']
            &&& status_named(text) is None <==> !(ascii_upper(text) == seq!['T', 'O', 'D', 'O']
                || ascii_upper(text) == seq!['I', 'N', 'P', 'R', 'O', 'G', 'R', 'E', 'S', 'S']
                || ascii_upper(text) == seq!['D', 'O', 'N', 'E'])
        },
{
    reveal_strlit("ToDo");
    reveal_strlit("InProgress");
    reveal_strlit("Done");
    reveal_strlit("TODO");
    reveal_strlit("INPROGRESS");
    reveal_strlit("DONE");
    assert("ToDo"@ =~= seq!['T', 'o', 'D', 'o']);
    assert("InProgress"@ =~= seq!['I', 'n', 'P', 'r', 'o', 'g', 'r', 'e', 's', 's']);
    assert("Done"@ =~= seq!['D', 'o', 'n', 'e']);
    assert("TODO"@ =~= seq!['T', 'O', 'D', 'O']);
    assert("INPROGRESS"@ =~= seq!['I', 'N', 'P', 'R', 'O', 'G', 'R', 'E', 'S', 'S']);
    assert("DONE"@ =~= seq!['D', 'O', 'N', 'E']);
}

/// Reading back the display form of a status gives the same status.
pub proof fn lemma_status_name_round_trip(s: Status)
    ensures
        status_named(status_name(s)) == Some(s),
{
    reveal_strlit("ToDo");
    reveal_strlit("InProgress");
    reveal_strlit("Done");
    reveal_strlit("TODO");
    reveal_strlit("INPROGRESS");
    reveal_strlit("DONE");
    let name = status_name(s);
    assert(vstd::utf8::is_ascii_chars(name));
    assert(ascii_upper(name) =~= status_key(s));
    assert(status_key(Status::ToDo)[0] != status_key(Status::Done)[0]);
    assert(status_key(Status::ToDo).len() != status_key(Status::InProgress).len());
    assert(status_key(Status::Done).len() != status_key(Status::InProgress).len());
}

} // verus!
