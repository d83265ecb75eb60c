//! The engine's cross-operation guarantees, stated and proved over the
//! workspace model.
//!
//! Each law here relates several operations through the spec functions
//! that their contracts are stated with, so a caller can chain the
//! operations' postconditions and conclude these facts about real
//! executions.

use vstd::prelude::*;
use crate::history::{tickets_wf, CommitModel, ProjectModel};
use crate::ids::id_chars;
use crate::store::{lookup_ticket, lemma_lookup_found, lemma_wf_ids_distinct,
    ticket_index};
use crate::ticket::{Priority, Status, TicketModel};
use crate::workspace::WorkspaceModel;

verus! {

/// A lookup that finds something has a witness position.
proof fn lemma_lookup_exists(ts: Seq<TicketModel>, id: Seq<char>)
    requires
        lookup_ticket(ts, id) is Some,
    ensures
        exists|k: int| 0 <= k < ts.len() && (#[trigger] ts[k]).id == id,
    decreases ts.len(),
{
    if ts.len() > 0 {
        if ts.last().id == id {
            assert(ts[ts.len() - 1].id == id);
        } else {
            lemma_lookup_exists(ts.drop_last(), id);
            let k = choose|k: int|
                0 <= k < ts.drop_last().len() && (#[trigger] ts.drop_last()[k]).id == id;
            assert(ts[k].id == id);
        }
    }
}

/// Creating a ticket and reading it back.
///
/// Whenever `add` succeeds, `show` with the identifier it returned finds
/// a ticket whose title, body and priority are exactly the given ones
/// (priority falling back to `z` when unspecified) and whose status is
/// `backlog` unless one was given.
pub proof fn lemma_add_then_show(
    w: WorkspaceModel,
    title: Seq<char>,
    body: Option<Seq<char>>,
    priority: Priority,
    status: Option<Status>,
)
    requires
        w.wf(),
        w.add_ok(title),
    ensures
        ({
            let w2 = w.spec_add(title, body, priority, status);
            let id = id_chars(w.active_project().next_seq);
            lookup_ticket(w2.tickets(), id) == Some(
                TicketModel {
                    id,
                    title,
                    body,
                    priority: priority.spec_effective(),
                    status: match status {
                        Some(s) => s,
                        None => Status::backlog,
                    },
                },
            )
        }),
{
    let w2 = w.spec_add(title, body, priority, status);
    let p = w.active_project();
    let t = w.fresh_ticket(title, body, priority, status);
    assert(w2.active_project() == WorkspaceModel::with_active(
        w,
        ProjectModel {
            next_seq: p.next_seq + 1,
            ..p.record(
                CommitModel {
                    message: "add "@ + t.id,
                    time: w.now,
                    tickets: p.tickets().push(t),
                },
            )
        },
    ).active_project());
    assert(w2.tickets() =~= p.tickets().push(t));
    assert(w2.tickets().last() == t);
}

/// Undo restores the state before a mutation; redo restores the state
/// after it; a fresh mutation after an undo leaves nothing to redo.
///
/// Every mutation (`add`, `amend`, `mv`) turns the workspace into
/// `w.with_active(p2)` where `p2` records one commit `c` on the active
/// project, possibly advancing the identifier counter to `n2`. This law
/// covers them all at once.
pub proof fn lemma_undo_redo_round_trip(
    w: WorkspaceModel,
    c: CommitModel,
    n2: nat,
    c2: CommitModel,
    n3: nat,
)
    requires
        w.wf(),
        w.initialized,
    ensures
        ({
            let p = w.active_project();
            let w2 = w.with_active(ProjectModel { next_seq: n2, ..p.record(c) });
            &&& w2.active_project().undo_ok()
            &&& w2.spec_undo().tickets() == w.tickets()
            &&& w2.spec_undo().active_project().redo_ok()
            &&& w2.spec_undo().spec_redo().tickets() == w2.tickets()
            &&& !w2.spec_undo().with_active(
                ProjectModel {
                    next_seq: n3,
                    ..w2.spec_undo().active_project().record(c2)
                },
            ).active_project().redo_ok()
        }),
{
    let p = w.active_project();
    let p2 = ProjectModel { next_seq: n2, ..p.record(c) };
    let w2 = w.with_active(p2);
    assert(w2.active_project() == p2);
    crate::history::lemma_undo_redo_round_trip(
        ProjectModel { next_seq: n2, ..p },
        c,
        c2,
    );
    assert(p2 == ProjectModel { next_seq: n2, ..p }.record(c));
    assert(w2.spec_undo().active_project() == p2.undone());
    assert(p2.undone().tickets() == p.tickets()) by {
        assert(ProjectModel { next_seq: n2, ..p }.tickets() == p.tickets());
    }
    assert(w2.spec_undo().tickets() == w.tickets());
    assert(w2.spec_undo().spec_redo().active_project() == p2.undone().redone());
    let u = w2.spec_undo();
    let p3 = ProjectModel { next_seq: n3, ..u.active_project().record(c2) };
    assert(u.with_active(p3).active_project() == p3);
    assert(p3.commits == ProjectModel { next_seq: n2, ..p }.record(c).undone().record(c2).commits);
    assert(p3.cursor == ProjectModel { next_seq: n2, ..p }.record(c).undone().record(c2).cursor);
}

/// Setting the same status twice is the same as setting it once: the
/// second `mv` records another commit, but the observable ticket store
/// does not change.
pub proof fn lemma_mv_idempotent(w: WorkspaceModel, id: Seq<char>, status: Status)
    requires
        w.wf(),
        w.initialized,
        lookup_ticket(w.tickets(), id) is Some,
    ensures
        ({
            let w1 = w.spec_mv(id, status);
            let w2 = w1.spec_mv(id, status);
            w2.tickets() == w1.tickets()
        }),
{
    let p = w.active_project();
    let ts = p.tickets();
    assert(tickets_wf(ts, p.next_seq));
    lemma_wf_ids_distinct(ts, p.next_seq);
    lemma_lookup_exists(ts, id);
    let i = ticket_index(ts, id);
    assert(0 <= i < ts.len() && ts[i].id == id);
    let t1 = TicketModel { status, ..ts[i] };
    let ts1 = ts.update(i, t1);
    let w1 = w.spec_mv(id, status);
    assert(w1.active_project().tickets() =~= ts1);
    // The second lookup finds the same position: identifiers are untouched.
    assert forall|k1: int, k2: int| 0 <= k1 < k2 < ts1.len() implies (#[trigger] ts1[k1]).id != (
    #[trigger] ts1[k2]).id by {
        assert(ts1[k1].id == ts[k1].id);
        assert(ts1[k2].id == ts[k2].id);
    }
    assert(ts1[i].id == id);
    lemma_lookup_found(ts1, id, i);
    let t2 = TicketModel { status, ..ts1[i] };
    assert(t2 == t1);
    assert(ts1.update(i, t2) =~= ts1);
    assert(w1.spec_mv(id, status).tickets() =~= ts1);
}

/// Creating a project makes it exist and active, so a repeated
/// `switch --create` with the same name must fail, and a plain `switch`
/// to a name that was never created must keep failing.
pub proof fn lemma_switch_create(w: WorkspaceModel, name: Seq<char>)
    requires
        w.wf(),
        w.initialized,
        !w.has_project(name),
    ensures
        w.spec_create_project(name).wf(),
        w.spec_create_project(name).has_project(name),
        w.spec_create_project(name).active_project().name == name,
{
    let w2 = w.spec_create_project(name);
    let n = w.projects.len() as int;
    assert(w2.projects[n].name == name);
    assert(w2.active_project().name == name);
    assert forall|i: int| 0 <= i < w2.projects.len() implies (#[trigger] w2.projects[i]).wf() by {
        if i < n {
            assert(w2.projects[i] == w.projects[i]);
        }
    }
    assert forall|i: int, j: int| 0 <= i < j < w2.projects.len() implies (
    #[trigger] w2.projects[i]).name != (#[trigger] w2.projects[j]).name by {
        if j < n {
            assert(w2.projects[i] == w.projects[i]);
            assert(w2.projects[j] == w.projects[j]);
        } else {
            assert(w2.projects[i] == w.projects[i]);
            assert(!(w.projects[i].name == name));
        }
    }
}

} // verus!
