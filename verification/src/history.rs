//! Commits, per-project history, and the undo/redo cursor.
//!
//! Every successful mutation of a project's ticket store is recorded as a
//! [`Commit`]: an immutable snapshot of the store after the change, with a
//! message and a timestamp. Commits form a totally ordered sequence; a
//! cursor marks how many of them are currently applied. `undo` moves the
//! cursor one step back, `redo` one step forward; recording a new commit
//! while the cursor sits below the end discards the undone tail, which gives
//! linear (non-branching) history semantics.

use vstd::prelude::*;
use crate::ids::{dec_value, is_id};
use crate::text::is_blank;
use crate::ticket::{clone_ticket_vec, tickets_model, Ticket, TicketModel};

verus! {

/// The mathematical value of a commit.
#[verifier::ext_equal]
pub ghost struct CommitModel {
    pub message: Seq<char>,
    pub time: u64,
    pub tickets: Seq<TicketModel>,
}

/// A well-formed ticket record: a properly shaped identifier and a title
/// that is not blank.
pub open spec fn ticket_ok(t: TicketModel) -> bool {
    is_id(t.id) && !is_blank(t.title)
}

/// A well-formed ticket store snapshot, relative to the identifier counter
/// `bound`: every ticket is well formed, every identifier decodes below the
/// counter, and identifiers strictly increase along the snapshot, so the
/// store is sorted by creation order and free of duplicates.
pub open spec fn tickets_wf(ts: Seq<TicketModel>, bound: nat) -> bool {
    &&& forall|k: int|
        0 <= k < ts.len() ==> ticket_ok(#[trigger] ts[k]) && dec_value(ts[k].id) < bound
    &&& forall|k1: int, k2: int|
        0 <= k1 < k2 < ts.len() ==> dec_value(#[trigger] ts[k1].id) < dec_value(
            #[trigger] ts[k2].id,
        )
}

impl CommitModel {
    /// Well-formedness relative to the identifier counter of the owning
    /// project.
    pub open spec fn wf(self, bound: nat) -> bool {
        tickets_wf(self.tickets, bound)
    }
}

/// One recorded mutation: the state of the ticket store just after it, a
/// human-readable message and the clock value it was recorded at. Its
/// position in the project's commit sequence is its sequence number; its
/// predecessor is the commit just before it.
#[derive(Debug)]
pub struct Commit {
    pub message: String,
    pub time: u64,
    pub tickets: Vec<Ticket>,
}

impl View for Commit {
    type V = CommitModel;

    open spec fn view(&self) -> CommitModel {
        CommitModel { message: self.message@, time: self.time, tickets: tickets_model(self.tickets@) }
    }
}

impl Clone for Commit {
    /// An exact copy: the clone has the same model as the original.
    fn clone(&self) -> (r: Commit)
        ensures
            r@ == self@,
    {
        let r = Commit {
            message: self.message.clone(),
            time: self.time,
            tickets: clone_ticket_vec(&self.tickets),
        };
        proof {
            assert(r@ =~= self@);
        }
        r
    }
}

/// The sequence of commit models behind a vector of commits.
pub open spec fn commits_model(cs: Seq<Commit>) -> Seq<CommitModel> {
    cs.map_values(|c: Commit| c@)
}

/// Copy the first `n` commits of `v`.
pub fn clone_commit_prefix(v: &Vec<Commit>, n: usize) -> (r: Vec<Commit>)
    requires
        n <= v@.len(),
    ensures
        commits_model(r@) == commits_model(v@).take(n as int),
{
    let mut r: Vec<Commit> = Vec::new();
    let mut i: usize = 0;
    while i < n
        invariant
            n <= v@.len(),
            i <= n,
            r@.len() == i,
            forall|k: int| 0 <= k < i ==> (#[trigger] r@[k])@ == v@[k]@,
        decreases n - i,
    {
        let c = v[i].clone();
        r.push(c);
        i = i + 1;
    }
    proof {
        assert forall|k: int| 0 <= k < n implies commits_model(r@)[k] == commits_model(v@).take(
            n as int,
        )[k] by {
            assert(r@[k]@ == v@[k]@);
        }
        assert(commits_model(r@) =~= commits_model(v@).take(n as int));
    }
    r
}

/// The mathematical value of a project's history.
#[verifier::ext_equal]
pub ghost struct ProjectModel {
    pub name: Seq<char>,
    pub commits: Seq<CommitModel>,
    /// How many commits are currently applied.
    pub cursor: nat,
    /// The identifier allocation counter; never decreased.
    pub next_seq: nat,
}

impl ProjectModel {
    /// The commits currently applied.
    pub open spec fn applied(self) -> Seq<CommitModel> {
        self.commits.take(self.cursor as int)
    }

    /// The current ticket store: the snapshot of the last applied commit,
    /// or the empty store when the cursor sits at the sentinel before the
    /// first commit.
    pub open spec fn tickets(self) -> Seq<TicketModel> {
        if self.cursor == 0 {
            Seq::empty()
        } else {
            self.commits[self.cursor - 1].tickets
        }
    }

    /// Recording a commit: the undone tail is discarded, the new commit is
    /// appended, and the cursor advances onto it.
    pub open spec fn record(self, c: CommitModel) -> ProjectModel {
        ProjectModel { commits: self.applied().push(c), cursor: self.cursor + 1, ..self }
    }

    /// Whether there is a change to undo.
    pub open spec fn undo_ok(self) -> bool {
        self.cursor > 0
    }

    /// Undoing: the cursor steps back; no history is lost.
    pub open spec fn undone(self) -> ProjectModel {
        ProjectModel { cursor: (self.cursor - 1) as nat, ..self }
    }

    /// Whether there is an undone change to redo.
    pub open spec fn redo_ok(self) -> bool {
        self.cursor < self.commits.len()
    }

    /// Redoing: the cursor steps forward onto the undone commit.
    pub open spec fn redone(self) -> ProjectModel {
        ProjectModel { cursor: self.cursor + 1, ..self }
    }

    /// Well-formedness: the cursor stays within the history and every
    /// recorded snapshot is well formed under the allocation counter.
    pub open spec fn wf(self) -> bool {
        &&& self.cursor <= self.commits.len()
        &&& forall|j: int| 0 <= j < self.commits.len() ==> (#[trigger] self.commits[j]).wf(
            self.next_seq,
        )
    }
}

/// Recording a well-formed commit on a well-formed project keeps the
/// project well formed.
pub proof fn lemma_record_wf(p: ProjectModel, c: CommitModel)
    requires
        p.wf(),
        c.wf(p.next_seq),
    ensures
        p.record(c).wf(),
{
    let q = p.record(c);
    assert forall|j: int| 0 <= j < q.commits.len() implies (#[trigger] q.commits[j]).wf(
        q.next_seq,
    ) by {
        if j < p.cursor {
            assert(q.commits[j] == p.commits[j]);
        }
    }
}

/// Undo and redo are exact inverses around a recorded commit, and a fresh
/// commit recorded after an undo leaves nothing to redo.
///
/// After recording `c`: undo is possible and restores the ticket store that
/// preceded `c`; redo is then possible and restores the store `c` produced;
/// but recording any `c2` instead of redoing discards the undone tail, so
/// no redo remains.
pub proof fn lemma_undo_redo_round_trip(p: ProjectModel, c: CommitModel, c2: CommitModel)
    requires
        p.cursor <= p.commits.len(),
    ensures
        p.record(c).undo_ok(),
        p.record(c).undone().tickets() == p.tickets(),
        p.record(c).undone().redo_ok(),
        p.record(c).undone().redone().tickets() == p.record(c).tickets(),
        !p.record(c).undone().record(c2).redo_ok(),
{
    let q = p.record(c);
    let u = q.undone();
    assert(u.cursor == p.cursor);
    if p.cursor > 0 {
        assert(u.commits[p.cursor - 1] == p.commits[p.cursor - 1]);
    } else {
        assert(u.tickets() =~= p.tickets());
    }
    assert(u.redone().tickets() == q.tickets());
    let r = u.record(c2);
    assert(r.commits.len() == p.cursor + 1);
}

/// One project: a named ticket store together with its commit history and
/// undo cursor.
#[derive(Debug)]
pub struct Project {
    pub name: String,
    pub commits: Vec<Commit>,
    /// How many commits are currently applied; always at most
    /// `commits.len()`.
    pub cursor: usize,
    /// The identifier allocation counter for this project.
    pub next_seq: u64,
}

impl View for Project {
    type V = ProjectModel;

    open spec fn view(&self) -> ProjectModel {
        ProjectModel {
            name: self.name@,
            commits: commits_model(self.commits@),
            cursor: self.cursor as nat,
            next_seq: self.next_seq as nat,
        }
    }
}

impl Clone for Project {
    /// An exact copy: the clone has the same model as the original.
    fn clone(&self) -> (r: Project)
        ensures
            r@ == self@,
    {
        let commits = clone_commit_prefix(&self.commits, self.commits.len());
        proof {
            assert(commits_model(self.commits@).take(self.commits@.len() as int) =~= commits_model(
                self.commits@,
            ));
        }
        let r = Project {
            name: self.name.clone(),
            commits,
            cursor: self.cursor,
            next_seq: self.next_seq,
        };
        proof {
            assert(r@ =~= self@);
        }
        r
    }
}

impl Project {
    /// A fresh project with the given name: no tickets, no history.
    pub fn empty(name: String) -> (p: Project)
        ensures
            p@ == (ProjectModel {
                name: name@,
                commits: Seq::<CommitModel>::empty(),
                cursor: 0nat,
                next_seq: 0nat,
            }),
            p@.wf(),
    {
        let p = Project { name, commits: Vec::new(), cursor: 0, next_seq: 0 };
        proof {
            assert(p@ =~= ProjectModel {
                name: p.name@,
                commits: Seq::<CommitModel>::empty(),
                cursor: 0nat,
                next_seq: 0nat,
            });
        }
        p
    }

    /// A copy of the current ticket store.
    pub fn snapshot(&self) -> (r: Vec<Ticket>)
        requires
            self@.wf(),
        ensures
            tickets_model(r@) == self@.tickets(),
    {
        if self.cursor == 0 {
            let r: Vec<Ticket> = Vec::new();
            proof {
                assert(tickets_model(r@) =~= self@.tickets());
            }
            r
        } else {
            let r = clone_ticket_vec(&self.commits[self.cursor - 1].tickets);
            proof {
                assert(tickets_model(r@) =~= self@.tickets());
            }
            r
        }
    }

    /// Record a mutation: append a commit holding the new store state and
    /// advance the cursor onto it, discarding any undone tail.
    pub fn record(&mut self, message: String, time: u64, tickets: Vec<Ticket>)
        requires
            old(self)@.wf(),
        ensures
            final(self)@ == old(self)@.record(
                CommitModel { message: message@, time, tickets: tickets_model(tickets@) },
            ),
    {
        self.commits.truncate(self.cursor);
        self.commits.push(Commit { message, time, tickets });
        self.cursor = self.commits.len();
        proof {
            assert(commits_model(old(self).commits@).take(old(self).cursor as int) =~= commits_model(
                old(self).commits@.subrange(0, old(self).cursor as int),
            ));
            assert(self@ =~= old(self)@.record(
                CommitModel {
                    message: message@,
                    time,
                    tickets: tickets_model(tickets@),
                },
            ));
        }
    }
}

} // verus!
