use rust_course::store::TicketData;
use rust_course::outro::{
    checked_patch_ticket, create_ticket, get_ticket, health_check, patch_ticket, service_store, CreateTicket,
    GetTicket, PatchTicket, User,
};
use rust_course::outro::server as layout;

#[test]
fn test_health_check() {
    assert_eq!(health_check(), "OK");
    assert_eq!(layout::health_check(), "OK");
}

#[test]
fn test_create_user() {
    let mut store = service_store();
    let created = create_ticket(
        &mut store,
        CreateTicket { title: "1".to_string(), description: "2".to_string() },
    );
    assert_eq!(created.id, 1);

    let got = get_ticket(&store, GetTicket { id: created.id });
    let detail = got.ticket.expect("the new ticket is found");
    assert_eq!(detail.id, created.id);
    assert_eq!(detail.title, "1");
    assert_eq!(detail.description, "2");
    assert_eq!(detail.status, "ToDo");

    let patched = patch_ticket(
        &mut store,
        PatchTicket {
            id: created.id,
            title: Some("111".to_owned()),
            description: Some("222".to_owned()),
            status: Some("InProgress".to_owned()),
        },
    );
    let detail = patched.ticket.expect("the patched ticket is found");
    assert_eq!(detail.id, created.id);
    assert_eq!(detail.title, "111");
    assert_eq!(detail.description, "222");
    assert_eq!(detail.status, "InProgress");

    let again = get_ticket(&store, GetTicket { id: created.id }).ticket.unwrap();
    assert_eq!(again.title, "111");
    assert_eq!(again.status, "InProgress");
}

#[test]
fn patch_keeps_fields_that_are_not_given() {
    let mut store = service_store();
    let id = create_ticket(&mut store, CreateTicket { title: "t".into(), description: "d".into() }).id;
    let detail = patch_ticket(
        &mut store,
        PatchTicket { id, title: None, description: Some("new".into()), status: Some("done".into()) },
    )
    .ticket
    .unwrap();
    assert_eq!(detail.title, "t");
    assert_eq!(detail.description, "new");
    assert_eq!(detail.status, "Done");
}

#[test]
fn unknown_ids_answer_nothing() {
    let mut store = service_store();
    assert!(get_ticket(&store, GetTicket { id: 5 }).ticket.is_none());
    let patched = patch_ticket(
        &mut store,
        PatchTicket { id: 5, title: Some("x".into()), description: None, status: None },
    );
    assert!(patched.ticket.is_none());
    // A missing id is answered with no ticket, even with a status that names none.
    let answer = checked_patch_ticket(
        &mut store,
        PatchTicket { id: 5, title: None, description: None, status: Some("bogus".into()) },
    );
    assert!(answer.unwrap().ticket.is_none());
    let answer = patch_ticket(
        &mut store,
        PatchTicket { id: 5, title: None, description: None, status: Some("bogus".into()) },
    );
    assert!(answer.ticket.is_none());
}

#[test]
fn checked_patch_refuses_an_unknown_status_and_changes_nothing() {
    let mut store = service_store();
    let id = create_ticket(&mut store, CreateTicket { title: "t".into(), description: "d".into() }).id;
    let refused = checked_patch_ticket(
        &mut store,
        PatchTicket { id, title: Some("changed".into()), description: None, status: Some("later".into()) },
    );
    assert!(refused.is_none());
    let detail = get_ticket(&store, GetTicket { id }).ticket.unwrap();
    assert_eq!(detail.title, "t");
    assert_eq!(detail.status, "ToDo");

    let accepted = checked_patch_ticket(
        &mut store,
        PatchTicket { id, title: None, description: None, status: Some("INPROGRESS".into()) },
    );
    assert_eq!(accepted.unwrap().ticket.unwrap().status, "InProgress");
}

#[test]
fn second_layout_creates_gets_and_patches() {
    let mut store = TicketData::new();
    let created = layout::create_ticket(
        &mut store,
        layout::CreateTicket { title: "a".into(), description: "b".into() },
    );
    assert_eq!(created.id, 0);
    let detail = layout::get_ticket(&store, layout::GetTicket { id: 0 }).ticket.unwrap();
    assert_eq!(detail.title, "a");
    assert_eq!(detail.status, "ToDo");
    let detail = layout::patch_ticket(
        &mut store,
        layout::PatchTicket { id: 0, title: None, description: None, status: Some("Done".into()) },
    )
    .ticket
    .unwrap();
    assert_eq!(detail.status, "Done");
    assert_eq!(detail.description, "b");
    assert!(layout::checked_patch_ticket(
        &mut store,
        layout::PatchTicket { id: 0, title: None, description: None, status: Some("nope".into()) },
    )
    .is_none());
}

#[test]
fn users_compare_by_fields() {
    let u = User { id: 1, name: "ann".into() };
    assert_eq!(u.clone(), u);
}
