//! The ticket store: add, show, amend, mv, list, undo/redo.

use tix::error::{AddError, AmendError, InitResult, ListError, MvError, ShowError, SwitchError,
    SwitchResult, TixError};
use tix::ticket::{Priority, Status};
use tix::workspace::Workspace;

const ID0: &str = "00000000000000000000";
const ID1: &str = "00000000000000000001";

fn fresh() -> Workspace {
    let mut w = Workspace::new();
    assert!(matches!(w.init(), Ok(InitResult::Initialized)));
    w
}

#[test]
fn init_then_reinit_is_idempotent() {
    let mut w = Workspace::new();
    assert!(matches!(w.init(), Ok(InitResult::Initialized)));
    assert!(matches!(w.init(), Ok(InitResult::Reinitialized)));
    assert!(matches!(w.init(), Ok(InitResult::Reinitialized)));
}

#[test]
fn add_allocates_sortable_ids_in_creation_order() {
    let mut w = fresh();
    let a = w.add("first", None, Priority::Unspecified, None).unwrap();
    let b = w.add("second", None, Priority::Unspecified, None).unwrap();
    assert_eq!(a, ID0);
    assert_eq!(b, ID1);
    assert!(a < b, "identifiers must sort by creation order");
}

#[test]
fn add_then_show_round_trip() {
    let mut w = fresh();
    let id = w
        .add("fix the widget", Some("it wobbles"), Priority::b, None)
        .unwrap();
    let t = w.show(&id).unwrap();
    assert_eq!(t.id, id);
    assert_eq!(t.title, "fix the widget");
    assert_eq!(t.body.as_deref(), Some("it wobbles"));
    assert!(matches!(t.priority, Priority::b));
    assert!(matches!(t.status, Status::backlog));
}

#[test]
fn add_defaults_priority_to_z_and_status_to_backlog() {
    let mut w = fresh();
    let id = w.add("plain", None, Priority::Unspecified, None).unwrap();
    let t = w.show(&id).unwrap();
    assert!(matches!(t.priority, Priority::z));
    assert!(matches!(t.status, Status::backlog));
    assert_eq!(t.body, None);
}

#[test]
fn add_with_explicit_status() {
    let mut w = fresh();
    let id = w.add("urgent", None, Priority::a, Some(Status::doing)).unwrap();
    let t = w.show(&id).unwrap();
    assert!(matches!(t.priority, Priority::a));
    assert!(matches!(t.status, Status::doing));
}

#[test]
fn add_empty_title_fails_invalid_title() {
    let mut w = fresh();
    let r = w.add("", None, Priority::Unspecified, None);
    assert_eq!(r, Err(AddError::TixError(TixError::InvalidTitle)));
    let r = w.add("", Some("a body"), Priority::a, Some(Status::todo));
    assert_eq!(r, Err(AddError::TixError(TixError::InvalidTitle)));
}

#[test]
fn add_blank_title_fails_invalid_title() {
    let mut w = fresh();
    let r = w.add("  \t ", None, Priority::Unspecified, None);
    assert_eq!(r, Err(AddError::TixError(TixError::InvalidTitle)));
}

#[test]
fn add_on_uninitialized_workspace_fails() {
    let mut w = Workspace::new();
    let r = w.add("x", None, Priority::Unspecified, None);
    assert_eq!(r, Err(AddError::TixError(TixError::NotARepository)));
}

#[test]
fn show_unknown_id_fails_ticket_not_found() {
    let w = fresh();
    let r = w.show(ID0);
    assert_eq!(r.err(), Some(ShowError::TixError(TixError::TicketNotFound)));
}

#[test]
fn show_malformed_id_fails_invalid_ticket_id() {
    let w = fresh();
    let r = w.show("nonsense");
    assert_eq!(r.err(), Some(ShowError::TixError(TixError::InvalidTicketId)));
    let r = w.show("0000000000000000000x");
    assert_eq!(r.err(), Some(ShowError::TixError(TixError::InvalidTicketId)));
}

#[test]
fn show_field_projections() {
    let mut w = fresh();
    let id = w.add("titled", Some("the body"), Priority::c, Some(Status::todo)).unwrap();
    assert_eq!(w.show_title(&id).unwrap(), "titled");
    assert_eq!(w.show_body(&id).unwrap(), "the body");
    assert!(matches!(w.show_status(&id).unwrap(), Status::todo));
    assert!(matches!(w.show_priority(&id).unwrap(), Priority::c));
}

#[test]
fn show_body_of_bodyless_ticket_is_empty() {
    let mut w = fresh();
    let id = w.add("no body", None, Priority::Unspecified, None).unwrap();
    assert_eq!(w.show_body(&id).unwrap(), "");
}

#[test]
fn amend_changes_only_supplied_fields() {
    let mut w = fresh();
    let id = w.add("old title", Some("old body"), Priority::b, None).unwrap();
    w.amend(&id, Some("new title"), None, None).unwrap();
    let t = w.show(&id).unwrap();
    assert_eq!(t.title, "new title");
    assert_eq!(t.body.as_deref(), Some("old body"));
    assert!(matches!(t.priority, Priority::b));

    w.amend(&id, None, Some("new body"), Some(Priority::a)).unwrap();
    let t = w.show(&id).unwrap();
    assert_eq!(t.title, "new title");
    assert_eq!(t.body.as_deref(), Some("new body"));
    assert!(matches!(t.priority, Priority::a));
}

#[test]
fn amend_unspecified_priority_keeps_prior() {
    let mut w = fresh();
    let id = w.add("t", None, Priority::c, None).unwrap();
    w.amend(&id, None, None, Some(Priority::Unspecified)).unwrap();
    assert!(matches!(w.show_priority(&id).unwrap(), Priority::c));
}

#[test]
fn amend_blank_title_fails_invalid_title() {
    let mut w = fresh();
    let id = w.add("t", None, Priority::Unspecified, None).unwrap();
    let r = w.amend(&id, Some("   "), None, None);
    assert_eq!(r, Err(AmendError::TixError(TixError::InvalidTitle)));
}

#[test]
fn amend_unknown_ticket_fails() {
    let mut w = fresh();
    let r = w.amend(ID0, Some("t"), None, None);
    assert_eq!(r, Err(AmendError::TixError(TixError::TicketNotFound)));
    let r = w.amend("zzz", Some("t"), None, None);
    assert_eq!(r, Err(AmendError::TixError(TixError::InvalidTicketId)));
}

#[test]
fn mv_sets_status() {
    let mut w = fresh();
    let id = w.add("t", None, Priority::Unspecified, None).unwrap();
    w.mv(&id, Status::doing).unwrap();
    assert!(matches!(w.show_status(&id).unwrap(), Status::doing));
}

#[test]
fn mv_unknown_ticket_fails() {
    let mut w = fresh();
    let r = w.mv(ID0, Status::done);
    assert_eq!(r, Err(MvError::TixError(TixError::TicketNotFound)));
}

#[test]
fn mv_same_status_twice_is_idempotent() {
    let mut w = fresh();
    let id = w.add("t", None, Priority::Unspecified, Some(Status::todo)).unwrap();
    w.mv(&id, Status::doing).unwrap();
    let once = w.list(false, vec![], vec![]).unwrap();
    w.mv(&id, Status::doing).unwrap();
    let twice = w.list(false, vec![], vec![]).unwrap();
    assert_eq!(once.len(), twice.len());
    for (a, b) in once.iter().zip(twice.iter()) {
        assert_eq!(a.id, b.id);
        assert_eq!(a.title, b.title);
        assert!(matches!((a.status, b.status), (Status::doing, Status::doing)));
    }
}

#[test]
fn undo_restores_prior_state_and_redo_restores_it_back() {
    let mut w = fresh();
    let id = w.add("t", None, Priority::Unspecified, Some(Status::todo)).unwrap();
    w.mv(&id, Status::done).unwrap();
    assert!(matches!(w.show_status(&id).unwrap(), Status::done));
    w.undo().unwrap();
    assert!(matches!(w.show_status(&id).unwrap(), Status::todo));
    w.redo().unwrap();
    assert!(matches!(w.show_status(&id).unwrap(), Status::done));
}

#[test]
fn undo_of_add_removes_the_ticket() {
    let mut w = fresh();
    let id = w.add("t", None, Priority::Unspecified, None).unwrap();
    w.undo().unwrap();
    assert_eq!(w.show(&id).err(), Some(ShowError::TixError(TixError::TicketNotFound)));
    w.redo().unwrap();
    assert_eq!(w.show(&id).unwrap().title, "t");
}

#[test]
fn mutation_after_undo_invalidates_redo() {
    let mut w = fresh();
    let id = w.add("t", None, Priority::Unspecified, Some(Status::todo)).unwrap();
    w.mv(&id, Status::done).unwrap();
    w.undo().unwrap();
    w.mv(&id, Status::doing).unwrap();
    assert_eq!(w.redo(), Err(TixError::CommandFailed));
    assert!(matches!(w.show_status(&id).unwrap(), Status::doing));
}

#[test]
fn undo_past_the_beginning_fails() {
    let mut w = fresh();
    // The fresh workspace holds only the init commit.
    w.undo().unwrap();
    assert_eq!(w.undo(), Err(TixError::CommandFailed));
}

#[test]
fn redo_without_undo_fails() {
    let mut w = fresh();
    assert_eq!(w.redo(), Err(TixError::CommandFailed));
}

#[test]
fn list_default_filter_hides_backlog_and_done() {
    let mut w = fresh();
    let a = w.add("a", None, Priority::Unspecified, Some(Status::backlog)).unwrap();
    let b = w.add("b", None, Priority::Unspecified, Some(Status::todo)).unwrap();
    let c = w.add("c", None, Priority::Unspecified, Some(Status::doing)).unwrap();
    let d = w.add("d", None, Priority::Unspecified, Some(Status::done)).unwrap();
    let got = w.list(false, vec![], vec![]).unwrap();
    let ids: Vec<&str> = got.iter().map(|t| t.id.as_str()).collect();
    assert_eq!(ids, vec![b.as_str(), c.as_str()]);
    assert!(!ids.contains(&a.as_str()));
    assert!(!ids.contains(&d.as_str()));
}

#[test]
fn list_orders_by_ascending_id() {
    let mut w = fresh();
    let mut expect = Vec::new();
    for i in 0..5 {
        let id = w
            .add(&format!("t{}", i), None, Priority::Unspecified, Some(Status::todo))
            .unwrap();
        expect.push(id);
    }
    let got = w.list(false, vec![], vec![]).unwrap();
    let ids: Vec<String> = got.iter().map(|t| t.id.clone()).collect();
    assert_eq!(ids, expect);
    let mut sorted = ids.clone();
    sorted.sort();
    assert_eq!(ids, sorted);
}

#[test]
fn list_explicit_status_and_priority_filters() {
    let mut w = fresh();
    let a = w.add("a", None, Priority::a, Some(Status::done)).unwrap();
    let _b = w.add("b", None, Priority::b, Some(Status::done)).unwrap();
    let _c = w.add("c", None, Priority::a, Some(Status::todo)).unwrap();
    let got = w.list(false, vec![Status::done], vec![Priority::a]).unwrap();
    assert_eq!(got.len(), 1);
    assert_eq!(got[0].id, a);
}

#[test]
fn list_empty_store_is_empty() {
    let w = fresh();
    assert_eq!(w.list(false, vec![], vec![]).unwrap().len(), 0);
    let e = Workspace::new().list(false, vec![], vec![]).err();
    assert_eq!(e, Some(ListError::TixError(TixError::NotARepository)));
}

#[test]
fn switch_sequence_not_found_then_create_then_already_exists() {
    let mut w = fresh();
    let r = w.switch("p", false);
    assert!(
        matches!(r, Err(SwitchError::TixError(TixError::SwitchProjectNotFound(ref n))) if n == "p")
    );
    let r = w.switch("p", true);
    assert!(matches!(r, Ok(SwitchResult::Created(ref n)) if n == "p"));
    let r = w.switch("p", true);
    assert!(
        matches!(r, Err(SwitchError::TixError(TixError::SwitchProjectAlreadyExists(ref n))) if n == "p")
    );
}

#[test]
fn switch_to_active_project_fails() {
    let mut w = fresh();
    let r = w.switch("main", false);
    assert!(
        matches!(r, Err(SwitchError::TixError(TixError::SwitchAlreadyOnProject(ref n))) if n == "main")
    );
}

#[test]
fn projects_are_isolated_stores() {
    let mut w = fresh();
    let id = w.add("in main", None, Priority::Unspecified, Some(Status::todo)).unwrap();
    w.switch("other", true).unwrap();
    assert_eq!(w.show(&id).err(), Some(ShowError::TixError(TixError::TicketNotFound)));
    assert_eq!(w.list(false, vec![], vec![]).unwrap().len(), 0);
    let id2 = w.add("in other", None, Priority::Unspecified, Some(Status::todo)).unwrap();
    assert_eq!(id2, ID0, "each project allocates identifiers of its own");
    w.switch("main", false).unwrap();
    assert_eq!(w.show(&id).unwrap().title, "in main");
}

#[test]
fn projects_lists_active_first() {
    let mut w = fresh();
    w.switch("beta", true).unwrap();
    w.switch("alpha", true).unwrap();
    let names = w.projects().unwrap();
    assert_eq!(names, vec!["alpha", "main", "beta"]);
    w.switch("main", false).unwrap();
    let names = w.projects().unwrap();
    assert_eq!(names, vec!["main", "beta", "alpha"]);
}

#[test]
fn config_set_get_round_trip() {
    let mut w = fresh();
    w.config_set("user.name", "Alex").unwrap();
    assert_eq!(w.config_get("user.name").unwrap(), "Alex");
    w.config_set("user.name", "Robin").unwrap();
    assert_eq!(w.config_get("user.name").unwrap(), "Robin");
}

#[test]
fn config_rejects_malformed_keys() {
    let mut w = fresh();
    for bad in [".leading", "trailing.", "two..dots", "", "spa ce"] {
        let r = w.config_set(bad, "v");
        assert_eq!(
            r.err(),
            Some(tix::error::ConfigError::TixError(TixError::ConfigInvalidKey)),
            "key {:?} must be rejected",
            bad
        );
    }
}

#[test]
fn config_get_unset_key_fails() {
    let w = fresh();
    let r = w.config_get("user.email");
    assert_eq!(r.err(), Some(tix::error::ConfigError::TixError(TixError::CommandFailed)));
}
