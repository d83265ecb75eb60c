//! The remote reference and push/pull/clone.

use tix::error::{InitResult, RemoteError, TixError};
use tix::ticket::{Priority, Status};
use tix::workspace::Workspace;

const URL: &str = "https://example.test/repo";

fn fresh() -> Workspace {
    let mut w = Workspace::new();
    assert!(matches!(w.init(), Ok(InitResult::Initialized)));
    w
}

fn fresh_with_remote() -> Workspace {
    let mut w = fresh();
    w.remote_add(URL).unwrap();
    w
}

#[test]
fn remote_add_then_list() {
    let mut w = fresh();
    assert_eq!(w.remote(false).unwrap(), "");
    w.remote_add(URL).unwrap();
    assert_eq!(w.remote(false).unwrap(), "origin\n");
    assert_eq!(w.remote(true).unwrap(), format!("origin\t{}\n", URL));
}

#[test]
fn remote_add_twice_fails() {
    let mut w = fresh_with_remote();
    let r = w.remote_add("https://elsewhere.test/x");
    assert_eq!(r, Err(RemoteError::TixError(TixError::RemoteAlreadyExists)));
}

#[test]
fn remote_add_malformed_url_fails() {
    let mut w = fresh();
    for bad in ["", "no-scheme", "://host", "http://", "HTTP://host/x"] {
        let r = w.remote_add(bad);
        assert_eq!(
            r,
            Err(RemoteError::TixError(TixError::RemoteInvalidName)),
            "url {:?} must be rejected",
            bad
        );
    }
}

#[test]
fn push_without_remote_fails() {
    let mut w = fresh();
    let empty = tix::sync::RemoteState { projects: Vec::new() };
    assert_eq!(w.push(false, false, &empty).err(), Some(TixError::CommandFailed));
}

#[test]
fn push_fast_forward_and_clone_round_trip() {
    let mut w = fresh_with_remote();
    let id = w.add("shared", Some("body"), Priority::b, Some(Status::todo)).unwrap();
    let empty = tix::sync::RemoteState { projects: Vec::new() };
    let r1 = w.push(false, false, &empty).unwrap();

    let w2 = Workspace::clone(URL, &r1).unwrap();
    let t = w2.show(&id).unwrap();
    assert_eq!(t.title, "shared");
    assert_eq!(t.body.as_deref(), Some("body"));
    assert_eq!(w2.remote(true).unwrap(), format!("origin\t{}\n", URL));
    assert_eq!(w2.projects().unwrap(), vec!["main"]);
}

#[test]
fn clone_rejects_malformed_url() {
    let empty = tix::sync::RemoteState { projects: Vec::new() };
    let r = Workspace::clone("not a url", &empty);
    assert!(matches!(r, Err(tix::error::CloneError::TixError(TixError::CommandFailed))));
}

#[test]
fn clone_of_empty_remote_yields_fresh_main() {
    let empty = tix::sync::RemoteState { projects: Vec::new() };
    let w = Workspace::clone(URL, &empty).unwrap();
    assert_eq!(w.projects().unwrap(), vec!["main"]);
    assert_eq!(w.list(false, vec![], vec![]).unwrap().len(), 0);
}

#[test]
fn push_against_diverged_remote_needs_force() {
    // Two lines of work from the same base.
    let mut w1 = fresh_with_remote();
    let empty = tix::sync::RemoteState { projects: Vec::new() };
    let base = w1.push(false, false, &empty).unwrap();

    let mut w2 = Workspace::clone(URL, &base).unwrap();
    w2.add("theirs", None, Priority::Unspecified, Some(Status::todo)).unwrap();
    let advanced = w2.push(false, false, &base).unwrap();

    // The remote has a commit the local workspace lacks.
    w1.add("ours", None, Priority::Unspecified, Some(Status::todo)).unwrap();
    let r = w1.push(false, false, &advanced);
    assert_eq!(r.err(), Some(TixError::PushRejectedNeedsForce));

    // A forced push succeeds unconditionally and overwrites.
    let forced = w1.push(true, false, &advanced).unwrap();
    let w3 = Workspace::clone(URL, &forced).unwrap();
    let titles: Vec<String> =
        w3.list(false, vec![], vec![]).unwrap().iter().map(|t| t.title.clone()).collect();
    assert_eq!(titles, vec!["ours"]);
}

#[test]
fn push_with_lease_honours_the_last_observed_state() {
    let mut w1 = fresh_with_remote();
    let empty = tix::sync::RemoteState { projects: Vec::new() };
    let base = w1.push(false, false, &empty).unwrap();

    // Someone else advances the remote behind our back.
    let mut w2 = Workspace::clone(URL, &base).unwrap();
    w2.add("sneaky", None, Priority::Unspecified, Some(Status::todo)).unwrap();
    let advanced = w2.push(false, false, &base).unwrap();

    w1.add("ours2", None, Priority::Unspecified, Some(Status::todo)).unwrap();
    // The lease is `base`, but the remote now reads `advanced`.
    let r = w1.push(false, true, &advanced);
    assert_eq!(r.err(), Some(TixError::PushRejectedNeedsForce));
    // Against an unmoved remote the lease holds and the push lands.
    let r = w1.push(false, true, &base);
    assert!(r.is_ok());
}

#[test]
fn pull_fast_forwards_shared_projects() {
    let mut w1 = fresh_with_remote();
    let empty = tix::sync::RemoteState { projects: Vec::new() };
    let base = w1.push(false, false, &empty).unwrap();

    let mut w2 = Workspace::clone(URL, &base).unwrap();
    let id = w2.add("upstream", None, Priority::Unspecified, Some(Status::todo)).unwrap();
    let advanced = w2.push(false, false, &base).unwrap();

    w1.pull(&advanced).unwrap();
    assert_eq!(w1.show(&id).unwrap().title, "upstream");
}

#[test]
fn pull_materializes_unknown_projects() {
    let mut w1 = fresh_with_remote();
    let empty = tix::sync::RemoteState { projects: Vec::new() };
    let base = w1.push(false, false, &empty).unwrap();

    let mut w2 = Workspace::clone(URL, &base).unwrap();
    w2.switch("side", true).unwrap();
    w2.add("side work", None, Priority::Unspecified, Some(Status::todo)).unwrap();
    let advanced = w2.push(true, false, &base).unwrap();

    w1.pull(&advanced).unwrap();
    assert_eq!(w1.projects().unwrap(), vec!["main", "side"]);
    w1.switch("side", false).unwrap();
    let titles: Vec<String> =
        w1.list(false, vec![], vec![]).unwrap().iter().map(|t| t.title.clone()).collect();
    assert_eq!(titles, vec!["side work"]);
}

#[test]
fn pull_from_diverged_remote_fails_without_partial_application() {
    let mut w1 = fresh_with_remote();
    let empty = tix::sync::RemoteState { projects: Vec::new() };
    let base = w1.push(false, false, &empty).unwrap();

    let mut w2 = Workspace::clone(URL, &base).unwrap();
    w2.add("theirs2", None, Priority::Unspecified, Some(Status::todo)).unwrap();
    let advanced = w2.push(false, false, &base).unwrap();

    w1.add("ours3", None, Priority::Unspecified, Some(Status::todo)).unwrap();
    assert_eq!(w1.pull(&advanced), Err(TixError::CommandFailed));
    // Nothing was applied.
    let titles: Vec<String> =
        w1.list(false, vec![], vec![]).unwrap().iter().map(|t| t.title.clone()).collect();
    assert_eq!(titles, vec!["ours3"]);
}

#[test]
fn pull_without_remote_fails() {
    let mut w = fresh();
    let empty = tix::sync::RemoteState { projects: Vec::new() };
    assert_eq!(w.pull(&empty), Err(TixError::CommandFailed));
}

#[test]
fn clone_preserves_the_identifier_counter() {
    let mut w1 = fresh_with_remote();
    let empty = tix::sync::RemoteState { projects: Vec::new() };
    let first = w1.add("one", None, Priority::Unspecified, Some(Status::todo)).unwrap();
    let r = w1.push(false, false, &empty).unwrap();

    let mut w2 = Workspace::clone(URL, &r).unwrap();
    let second = w2.add("two", None, Priority::Unspecified, Some(Status::todo)).unwrap();
    assert_ne!(first, second, "a clone must not re-issue identifiers");
    assert!(second > first);
}

#[test]
fn pull_preserves_the_identifier_counter() {
    let mut w1 = fresh_with_remote();
    let empty = tix::sync::RemoteState { projects: Vec::new() };
    let base = w1.push(false, false, &empty).unwrap();

    let mut w2 = Workspace::clone(URL, &base).unwrap();
    let first = w2.add("theirs3", None, Priority::Unspecified, Some(Status::todo)).unwrap();
    let advanced = w2.push(false, false, &base).unwrap();

    w1.pull(&advanced).unwrap();
    let second = w1.add("ours4", None, Priority::Unspecified, Some(Status::todo)).unwrap();
    assert_ne!(first, second, "a pull must not re-issue identifiers");
}

#[test]
fn undo_is_isolated_per_project() {
    let mut w = fresh();
    let id = w.add("in main2", None, Priority::Unspecified, Some(Status::todo)).unwrap();
    w.switch("other2", true).unwrap();
    w.add("elsewhere", None, Priority::Unspecified, Some(Status::todo)).unwrap();
    w.undo().unwrap();
    w.switch("main", false).unwrap();
    assert_eq!(w.show(&id).unwrap().title, "in main2");
}

#[test]
fn sync_ops_need_an_initialized_workspace() {
    let mut w = Workspace::new();
    let empty = tix::sync::RemoteState { projects: Vec::new() };
    assert_eq!(w.push(false, false, &empty).err(), Some(TixError::NotARepository));
    assert_eq!(w.pull(&empty), Err(TixError::NotARepository));
    assert_eq!(w.remote_add(URL), Err(RemoteError::TixError(TixError::NotARepository)));
}
