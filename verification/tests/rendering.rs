//! Log rendering, `since` expressions, and the wire encodings.

use tix::error::{InitResult, LogError, TixError};
use tix::ticket::{Priority, PriorityVecExt, Status, StatusVecExt};
use tix::workspace::Workspace;

fn fresh() -> Workspace {
    let mut w = Workspace::new();
    assert!(matches!(w.init(), Ok(InitResult::Initialized)));
    w
}

const ID0: &str = "00000000000000000000";

#[test]
fn log_oneline_lists_commits_newest_first() {
    let mut w = fresh();
    let id = w.add("a title", None, Priority::Unspecified, Some(Status::todo)).unwrap();
    w.mv(&id, Status::doing).unwrap();
    let out = w.log(true, None, None).unwrap();
    assert_eq!(
        out,
        format!("3 mv {} doing\n2 add {}\n1 init\n", ID0, ID0)
    );
}

#[test]
fn log_full_form_renders_blocks() {
    let w = fresh();
    let out = w.log(false, None, None).unwrap();
    assert_eq!(out, "commit 1\ntime 0\n\n    init\n\n");
}

#[test]
fn log_limit_caps_the_entries() {
    let mut w = fresh();
    let id = w.add("t", None, Priority::Unspecified, Some(Status::todo)).unwrap();
    w.mv(&id, Status::done).unwrap();
    let out = w.log(true, Some(1), None).unwrap();
    assert_eq!(out, format!("3 mv {} done\n", ID0));
    let out = w.log(true, Some(2), None).unwrap();
    assert_eq!(out.lines().count(), 2);
    let out = w.log(true, Some(0), None).unwrap();
    assert_eq!(out.lines().count(), 3, "a non-positive limit means no limit");
}

#[test]
fn log_since_hides_older_commits() {
    let mut w = fresh();
    // The init commit is stamped at clock 0.
    w.set_clock(1000);
    let id = w.add("later", None, Priority::Unspecified, Some(Status::todo)).unwrap();
    w.set_clock(2000);
    let out = w.log(true, None, Some("1500 seconds ago")).unwrap();
    assert_eq!(out, format!("2 add {}\n", id));
    let out = w.log(true, None, Some("1500")).unwrap();
    assert_eq!(out, "", "an absolute cutoff after every commit hides them all");
    let out = w.log(true, None, Some("0")).unwrap();
    assert_eq!(out.lines().count(), 2);
}

#[test]
fn log_since_units() {
    let mut w = fresh();
    w.set_clock(7 * 86400);
    let id = w.add("recent", None, Priority::Unspecified, Some(Status::todo)).unwrap();
    // One week ago reaches clock 0, so both commits show.
    let out = w.log(true, None, Some("1 week ago")).unwrap();
    assert_eq!(out.lines().count(), 2);
    // One day ago leaves only the recent commit.
    let out = w.log(true, None, Some("1 day ago")).unwrap();
    assert_eq!(out, format!("2 add {}\n", id));
    // Minutes and hours parse too.
    assert!(w.log(true, None, Some("5 minutes ago")).is_ok());
    assert!(w.log(true, None, Some("2 hours ago")).is_ok());
}

#[test]
fn log_rejects_unparseable_since() {
    let w = fresh();
    for bad in ["yesterday", "5 fortnights ago", "5 days", "days ago", ""] {
        let r = w.log(true, None, Some(bad));
        assert_eq!(
            r.err(),
            Some(LogError::TixError(TixError::CommandFailed)),
            "expression {:?} must be rejected",
            bad
        );
    }
}

#[test]
fn ticket_ids_are_fixed_width_decimals() {
    let mut w = fresh();
    let a = w.add("x", None, Priority::Unspecified, None).unwrap();
    assert_eq!(a.len(), 20);
    assert!(a.chars().all(|c| c.is_ascii_digit()));
    assert_eq!(a, "00000000000000000000");
}

#[test]
fn priority_wire_bytes_round_trip() {
    assert!(matches!(Priority::from(b'a'), Priority::a));
    assert!(matches!(Priority::from(b'b'), Priority::b));
    assert!(matches!(Priority::from(b'c'), Priority::c));
    assert!(matches!(Priority::from(b'z'), Priority::z));
    assert!(matches!(Priority::from(b'q'), Priority::z), "unknown bytes decode to the default");
    let v: Vec<Priority> = vec![Priority::a, Priority::z, Priority::Unspecified];
    assert_eq!(v.to_bytes(), vec![b'a', b'z', 0]);
}

#[test]
fn status_wire_bytes_round_trip() {
    assert!(matches!(Status::from(b'b'), Status::backlog));
    assert!(matches!(Status::from(b't'), Status::todo));
    assert!(matches!(Status::from(b'w'), Status::doing));
    assert!(matches!(Status::from(b'd'), Status::done));
    assert!(matches!(Status::from(b'x'), Status::todo), "unknown bytes decode to todo");
    let v: Vec<Status> = vec![Status::backlog, Status::doing, Status::done];
    assert_eq!(v.to_bytes(), vec![b'b', b'w', b'd']);
}

#[test]
fn log_since_rejects_numbers_beyond_sixty_four_bits() {
    let w = fresh();
    let r = w.log(true, None, Some("99999999999999999999999"));
    assert_eq!(r.err(), Some(LogError::TixError(TixError::CommandFailed)));
}

#[test]
fn log_since_huge_relative_span_reaches_everything() {
    let mut w = fresh();
    w.set_clock(50);
    let out = w.log(true, None, Some("99999999999999999999999 weeks ago")).unwrap();
    assert_eq!(out.lines().count(), 1, "a span past the epoch clamps to zero");
}

#[test]
fn log_full_form_shows_the_commit_time() {
    let mut w = fresh();
    w.set_clock(42);
    let id = w.add("timed", None, Priority::Unspecified, Some(Status::todo)).unwrap();
    let out = w.log(false, Some(1), None).unwrap();
    assert_eq!(out, format!("commit 2\ntime 42\n\n    add {}\n\n", id));
}

#[test]
fn log_on_uninitialized_workspace_fails() {
    let w = Workspace::new();
    assert_eq!(
        w.log(true, None, None).err(),
        Some(LogError::TixError(TixError::NotARepository))
    );
}
