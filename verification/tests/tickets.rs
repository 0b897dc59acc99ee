use rust_course::bounded::{server_step, Command, OverloadedError, Reply, ServerStep};
use rust_course::data::{Status, Ticket, TicketDraft};
use rust_course::store::{TicketData, TicketId};

fn draft(title: &str, description: &str) -> TicketDraft {
    TicketDraft { title: title.to_string(), description: description.to_string() }
}

#[test]
fn status_display_names() {
    assert_eq!(Status::ToDo.to_string(), "ToDo");
    assert_eq!(Status::InProgress.to_string(), "InProgress");
    assert_eq!(Status::Done.to_string(), "Done");
}

#[test]
fn status_is_read_in_any_case() {
    assert_eq!(Status::try_from("todo".to_string()), Ok(Status::ToDo));
    assert_eq!(Status::try_from("InProgress".to_string()), Ok(Status::InProgress));
    assert_eq!(Status::try_from("inprogress".to_string()), Ok(Status::InProgress));
    assert_eq!(Status::try_from("DONE".to_string()), Ok(Status::Done));
    assert_eq!(Status::try_from("dOnE".to_string()), Ok(Status::Done));
}

#[test]
fn status_round_trips_through_its_name() {
    for s in [Status::ToDo, Status::InProgress, Status::Done] {
        assert_eq!(Status::try_from(s.to_string()), Ok(s));
    }
}

#[test]
fn unknown_status_is_refused_with_its_text() {
    assert_eq!(
        Status::try_from("Blocked".to_string()),
        Err("Invalid status: Blocked".to_string())
    );
    assert_eq!(Status::try_from("".to_string()), Err("Invalid status: ".to_string()));
}

#[test]
fn first_ticket_gets_id_zero_and_ids_count_up() {
    let mut store = TicketData::new();
    assert_eq!(store.next_id(), 0);
    let a = store.add_ticket(draft("a", "first"));
    let b = store.add_ticket(draft("b", "second"));
    assert_eq!(a, TicketId(0));
    assert_eq!(b, TicketId(1));
    assert_eq!(store.next_id(), 2);
}

#[test]
fn added_ticket_is_found_as_todo() {
    let mut store = TicketData::new();
    let id = store.add_ticket(draft("title", "description"));
    let t = store.get(id).unwrap();
    assert_eq!(t.id, id);
    assert_eq!(t.title, "title");
    assert_eq!(t.description, "description");
    assert_eq!(t.status, Status::ToDo);
    assert!(store.get(TicketId(7)).is_none());
}

#[test]
fn replace_changes_only_that_ticket() {
    let mut store = TicketData::new();
    let a = store.add_ticket(draft("a", "x"));
    let b = store.add_ticket(draft("b", "y"));
    store.replace(Ticket { id: a, title: "A".to_string(), description: "X".to_string(), status: Status::Done });
    let ta = store.get(a).unwrap();
    assert_eq!(ta.title, "A");
    assert_eq!(ta.status, Status::Done);
    let tb = store.get(b).unwrap();
    assert_eq!(tb.title, "b");
    assert_eq!(tb.status, Status::ToDo);
}

#[test]
fn server_inserts_gets_and_shuts_down() {
    let mut store = TicketData::new();
    match server_step(&mut store, Some(Command::Insert { draft: draft("t", "d") })) {
        ServerStep::Respond(Reply::Inserted(id)) => assert_eq!(id, TicketId(0)),
        other => panic!("unexpected step {:?}", other),
    }
    match server_step(&mut store, Some(Command::Get { id: TicketId(0) })) {
        ServerStep::Respond(Reply::Found(Some(t))) => {
            assert_eq!(t.title, "t");
            assert_eq!(t.status, Status::ToDo);
        },
        other => panic!("unexpected step {:?}", other),
    }
    match server_step(&mut store, Some(Command::Get { id: TicketId(3) })) {
        ServerStep::Respond(Reply::Found(None)) => {},
        other => panic!("unexpected step {:?}", other),
    }
    assert!(matches!(server_step(&mut store, None), ServerStep::Shutdown));
}

#[test]
fn overloaded_error_message() {
    assert_eq!(OverloadedError.to_string(), "The store is overloaded");
}

#[test]
fn a_store_can_start_from_any_id() {
    let mut store = TicketData::starting_at(1);
    assert_eq!(store.next_id(), 1);
    assert_eq!(store.add_ticket(draft("t", "d")), TicketId(1));
    assert!(store.get(TicketId(0)).is_none());
    let mut service = rust_course::outro::service_store();
    assert_eq!(service.add_ticket(draft("t", "d")), TicketId(1));
}
