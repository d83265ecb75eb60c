//! The remote reference and the synchronisation protocol.
//!
//! A workspace owns at most one remote: a name (always `origin`) and a URL
//! under which another workspace's persisted state lives. What travels
//! between the two is a [`RemoteState`]: for every project, its name, its
//! applied commits and its identifier counter. The caller performs the
//! transport; the engine decides. `push` computes the state the remote
//! must take, `pull` fast-forwards the local projects from a fetched
//! state, and `clone` materializes a whole workspace from one.

use vstd::prelude::*;
use vstd::string::StrSliceExecFns;
use vstd::string::StringExecFns;
use crate::error::{CloneError, RemoteError, TixError};
use crate::history::{clone_commit_prefix, commits_model, Commit, CommitModel, Project,
    ProjectModel};
use crate::text::{is_url, is_url_str, str_eq};
use crate::ticket::Ticket;
use crate::workspace::{lemma_reinsert, lemma_projects_model_update, Workspace, WorkspaceModel};

verus! {

/// The mathematical value of a remote reference.
#[verifier::ext_equal]
pub ghost struct RemoteModel {
    pub name: Seq<char>,
    pub url: Seq<char>,
}

/// A named remote: where another workspace's state is reachable.
#[derive(Debug)]
pub struct Remote {
    pub name: String,
    pub url: String,
}

impl View for Remote {
    type V = RemoteModel;

    open spec fn view(&self) -> RemoteModel {
        RemoteModel { name: self.name@, url: self.url@ }
    }
}

/// The mathematical value of one project as a remote holds it.
#[verifier::ext_equal]
pub ghost struct SyncProjectModel {
    pub name: Seq<char>,
    /// The project's applied commits; a remote holds no undone tail.
    pub commits: Seq<CommitModel>,
    pub next_seq: nat,
}

/// One project as it travels to or from a remote.
#[derive(Debug)]
pub struct SyncProject {
    pub name: String,
    pub commits: Vec<Commit>,
    pub next_seq: u64,
}

impl View for SyncProject {
    type V = SyncProjectModel;

    open spec fn view(&self) -> SyncProjectModel {
        SyncProjectModel {
            name: self.name@,
            commits: commits_model(self.commits@),
            next_seq: self.next_seq as nat,
        }
    }
}

impl Clone for SyncProject {
    /// An exact copy: the clone has the same model as the original.
    fn clone(&self) -> (r: SyncProject)
        ensures
            r@ == self@,
    {
        let commits = clone_commit_prefix(&self.commits, self.commits.len());
        proof {
            assert(commits_model(self.commits@).take(self.commits@.len() as int) =~= commits_model(
                self.commits@,
            ));
        }
        let r = SyncProject { name: self.name.clone(), commits, next_seq: self.next_seq };
        proof {
            assert(r@ =~= self@);
        }
        r
    }
}

/// A whole workspace's state as a remote holds it: every project's applied
/// history.
#[derive(Debug)]
pub struct RemoteState {
    pub projects: Vec<SyncProject>,
}

impl View for RemoteState {
    type V = Seq<SyncProjectModel>;

    open spec fn view(&self) -> Seq<SyncProjectModel> {
        self.projects@.map_values(|p: SyncProject| p@)
    }
}

impl Clone for RemoteState {
    /// An exact copy: the clone has the same model as the original.
    fn clone(&self) -> (r: RemoteState)
        ensures
            r@ == self@,
    {
        let mut ps: Vec<SyncProject> = Vec::new();
        let mut i: usize = 0;
        while i < self.projects.len()
            invariant
                i <= self.projects@.len(),
                ps@.len() == i,
                forall|k: int| 0 <= k < i ==> (#[trigger] ps@[k])@ == self.projects@[k]@,
            decreases self.projects@.len() - i,
        {
            let p = self.projects[i].clone();
            ps.push(p);
            i = i + 1;
        }
        let r = RemoteState { projects: ps };
        proof {
            assert forall|k: int| 0 <= k < self.projects@.len() implies r@[k] == self@[k] by {
                assert(ps@[k]@ == self.projects@[k]@);
            }
            assert(r@ =~= self@);
        }
        r
    }
}

/// Well-formedness of a state fetched from or sent to a remote: project
/// names are unique and every snapshot respects its project's identifier
/// counter.
pub open spec fn sync_wf(r: Seq<SyncProjectModel>) -> bool {
    &&& forall|i: int, j: int|
        0 <= i < j < r.len() ==> (#[trigger] r[i]).name != (#[trigger] r[j]).name
    &&& forall|i: int, j: int|
        0 <= i < r.len() && 0 <= j < r[i].commits.len() ==> (#[trigger] r[i].commits[j]).wf(
            r[i].next_seq,
        )
}

/// Whether the remote state holds a project named `name`.
pub open spec fn sync_has(r: Seq<SyncProjectModel>, name: Seq<char>) -> bool {
    exists|i: int| 0 <= i < r.len() && (#[trigger] r[i]).name == name
}

/// The position of the project named `name` in a remote state.
pub open spec fn sync_index(r: Seq<SyncProjectModel>, name: Seq<char>) -> int {
    choose|i: int| 0 <= i < r.len() && (#[trigger] r[i]).name == name
}

/// Whether `a` is a prefix of `b`: `b` only appends to `a`.
pub open spec fn is_prefix(a: Seq<CommitModel>, b: Seq<CommitModel>) -> bool {
    a.len() <= b.len() && a == b.take(a.len() as int)
}

/// Whether pushing without force is a fast-forward: every project the
/// remote holds exists locally, and the remote's commits are a prefix of
/// the local applied history, so pushing only appends.
pub open spec fn ff_ok(r: Seq<SyncProjectModel>, w: WorkspaceModel) -> bool {
    forall|i: int|
        0 <= i < r.len() ==> w.has_project((#[trigger] r[i]).name) && is_prefix(
            r[i].commits,
            w.projects[w.project_index(r[i].name)].applied(),
        )
}

/// The state a push publishes: every local project's applied history and
/// identifier counter.
pub open spec fn spec_publish(w: WorkspaceModel) -> Seq<SyncProjectModel> {
    w.projects.map_values(
        |p: ProjectModel| SyncProjectModel { name: p.name, commits: p.applied(), next_seq: p.next_seq },
    )
}

/// The project a fetched remote project materializes as: its whole
/// history applied, nothing to redo.
pub open spec fn as_project(sp: SyncProjectModel) -> ProjectModel {
    ProjectModel {
        name: sp.name,
        commits: sp.commits,
        cursor: sp.commits.len(),
        next_seq: sp.next_seq,
    }
}

/// A local project fast-forwarded to the remote project of the same name:
/// the remote history is adopted wholesale (any undone local tail is
/// discarded) and the identifier counter never decreases.
pub open spec fn merged_project(p: ProjectModel, sp: SyncProjectModel) -> ProjectModel {
    ProjectModel {
        name: p.name,
        commits: sp.commits,
        cursor: sp.commits.len(),
        next_seq: if p.next_seq >= sp.next_seq {
            p.next_seq
        } else {
            sp.next_seq
        },
    }
}

/// What pulling does to one local project: fast-forward it if the remote
/// has a project of the same name, leave it alone otherwise.
pub open spec fn pull_merge(p: ProjectModel, r: Seq<SyncProjectModel>) -> ProjectModel {
    if sync_has(r, p.name) {
        merged_project(p, r[sync_index(r, p.name)])
    } else {
        p
    }
}

/// The projects of the remote that the local workspace does not know yet,
/// in remote order.
pub open spec fn new_projects(w: WorkspaceModel, r: Seq<SyncProjectModel>) -> Seq<ProjectModel>
    decreases r.len(),
{
    if r.len() == 0 {
        Seq::empty()
    } else {
        let rest = new_projects(w, r.drop_last());
        if w.has_project(r.last().name) {
            rest
        } else {
            rest.push(as_project(r.last()))
        }
    }
}

/// Whether pulling is a fast-forward: wherever local and remote share a
/// project, the local applied history is a prefix of the remote's, so
/// pulling only appends commits.
pub open spec fn pull_ok(w: WorkspaceModel, r: Seq<SyncProjectModel>) -> bool {
    forall|i: int|
        0 <= i < r.len() ==> (w.has_project((#[trigger] r[i]).name) ==> is_prefix(
            w.projects[w.project_index(r[i].name)].applied(),
            r[i].commits,
        ))
}

/// The workspace after a successful pull: shared projects fast-forwarded,
/// unknown remote projects materialized at the end, the fetched state
/// remembered as the lease.
pub open spec fn spec_pull(w: WorkspaceModel, r: Seq<SyncProjectModel>) -> WorkspaceModel {
    WorkspaceModel {
        projects: w.projects.map_values(|p: ProjectModel| pull_merge(p, r)) + new_projects(w, r),
        lease: Some(r),
        ..w
    }
}

/// The workspace a clone of remote state `r` under `url` materializes: an
/// initialized workspace holding exactly the remote's projects (or a
/// fresh `main` when the remote is empty), with the remote configured and
/// the fetched state as the lease.
pub open spec fn spec_clone(url: Seq<char>, r: Seq<SyncProjectModel>) -> WorkspaceModel {
    WorkspaceModel {
        initialized: true,
        projects: if r.len() == 0 {
            seq![
                ProjectModel {
                    name: "main"@,
                    commits: Seq::empty(),
                    cursor: 0nat,
                    next_seq: 0nat,
                },
            ]
        } else {
            r.map_values(|sp: SyncProjectModel| as_project(sp))
        },
        active: 0nat,
        config: Seq::empty(),
        remote: Some(RemoteModel { name: "origin"@, url }),
        lease: Some(r),
        now: 0u64,
    }
}

/// The projects a pull materializes are all well formed.
proof fn lemma_new_projects_wf(w: WorkspaceModel, r: Seq<SyncProjectModel>)
    requires
        forall|i: int, j: int|
            0 <= i < r.len() && 0 <= j < r[i].commits.len() ==> (#[trigger] r[i].commits[j]).wf(
                r[i].next_seq,
            ),
    ensures
        forall|k: int|
            0 <= k < new_projects(w, r).len() ==> (#[trigger] new_projects(w, r)[k]).wf(),
    decreases r.len(),
{
    if r.len() > 0 {
        let rd = r.drop_last();
        assert forall|i: int, j: int|
            0 <= i < rd.len() && 0 <= j < rd[i].commits.len() implies (
        #[trigger] rd[i].commits[j]).wf(rd[i].next_seq) by {
            assert(rd[i] == r[i]);
        }
        lemma_new_projects_wf(w, rd);
        let prev = new_projects(w, rd);
        if !w.has_project(r.last().name) {
            let p = as_project(r.last());
            assert(p.wf()) by {
                assert forall|j: int| 0 <= j < p.commits.len() implies (#[trigger] p.commits[j]).wf(
                    p.next_seq,
                ) by {
                    assert(r[r.len() - 1].commits[j].wf(r[r.len() - 1].next_seq));
                }
            }
            assert forall|k: int| 0 <= k < prev.push(p).len() implies (
            #[trigger] prev.push(p)[k]).wf() by {
                if k < prev.len() {
                    assert(prev.push(p)[k] == prev[k]);
                } else {
                    assert(prev.push(p)[k] == p);
                }
            }
        }
    }
}

/// The projects a pull materializes bear names the workspace does not
/// have, names that all come from the remote state, pairwise distinct.
proof fn lemma_new_projects_names(w: WorkspaceModel, r: Seq<SyncProjectModel>)
    requires
        forall|p: int, q: int|
            0 <= p < q < r.len() ==> (#[trigger] r[p]).name != (#[trigger] r[q]).name,
    ensures
        forall|k: int|
            0 <= k < new_projects(w, r).len() ==> !w.has_project(
                (#[trigger] new_projects(w, r)[k]).name,
            ),
        forall|k: int|
            0 <= k < new_projects(w, r).len() ==> sync_has(
                r,
                (#[trigger] new_projects(w, r)[k]).name,
            ),
        forall|k1: int, k2: int|
            0 <= k1 < k2 < new_projects(w, r).len() ==> (#[trigger] new_projects(w, r)[k1]).name
                != (#[trigger] new_projects(w, r)[k2]).name,
    decreases r.len(),
{
    if r.len() > 0 {
        let rd = r.drop_last();
        assert forall|p: int, q: int| 0 <= p < q < rd.len() implies (#[trigger] rd[p]).name != (
        #[trigger] rd[q]).name by {
            assert(rd[p] == r[p]);
            assert(rd[q] == r[q]);
        }
        lemma_new_projects_names(w, rd);
        let prev = new_projects(w, rd);
        assert forall|k: int| 0 <= k < prev.len() implies sync_has(
            r,
            (#[trigger] prev[k]).name,
        ) by {
            let i = choose|i: int| 0 <= i < rd.len() && (#[trigger] rd[i]).name == prev[k].name;
            assert(r[i].name == prev[k].name);
        }
        if !w.has_project(r.last().name) {
            let p = as_project(r.last());
            let cur = prev.push(p);
            assert forall|k1: int, k2: int| 0 <= k1 < k2 < cur.len() implies (
            #[trigger] cur[k1]).name != (#[trigger] cur[k2]).name by {
                if k2 == prev.len() {
                    assert(cur[k1] == prev[k1]);
                    assert(cur[k2] == p);
                    let i = choose|i: int|
                        0 <= i < rd.len() && (#[trigger] rd[i]).name == prev[k1].name;
                    assert(r[i].name == prev[k1].name);
                    assert(r[i].name != r[r.len() - 1].name);
                } else {
                    assert(cur[k1] == prev[k1]);
                    assert(cur[k2] == prev[k2]);
                }
            }
            assert forall|k: int| 0 <= k < cur.len() implies !w.has_project(
                (#[trigger] cur[k]).name,
            ) by {
                if k < prev.len() {
                    assert(cur[k] == prev[k]);
                }
            }
            assert forall|k: int| 0 <= k < cur.len() implies sync_has(
                r,
                (#[trigger] cur[k]).name,
            ) by {
                if k < prev.len() {
                    assert(cur[k] == prev[k]);
                } else {
                    assert(cur[k].name == r[r.len() - 1].name);
                }
            }
        }
    }
}

/// In a well-formed remote state, a project position is recovered from
/// its name.
proof fn lemma_sync_index(r: Seq<SyncProjectModel>, i: int)
    requires
        forall|p: int, q: int| 0 <= p < q < r.len() ==> (#[trigger] r[p]).name != (#[trigger] r[q]).name,
        0 <= i < r.len(),
    ensures
        sync_has(r, r[i].name),
        sync_index(r, r[i].name) == i,
{
    assert(sync_has(r, r[i].name)) by {
        assert(r[i].name == r[i].name);
    }
    let w = sync_index(r, r[i].name);
    assert(0 <= w < r.len() && r[w].name == r[i].name);
    assert(w == i);
}

/// A remote that holds a project whose history has not reached the local
/// applied history (or that the local workspace lacks) has diverged: no
/// fast-forward is possible, so by `push`'s contract a plain push fails
/// with `PushRejectedNeedsForce` while a forced push still succeeds.
pub proof fn lemma_push_rejects_diverged(w: WorkspaceModel, r: Seq<SyncProjectModel>, i: int)
    requires
        0 <= i < r.len(),
        w.has_project(r[i].name) ==> !is_prefix(
            r[i].commits,
            w.projects[w.project_index(r[i].name)].applied(),
        ),
    ensures
        !ff_ok(r, w),
{
}

/// Decide whether two tickets have the same model.
fn ticket_eq(a: &Ticket, b: &Ticket) -> (r: bool)
    ensures
        r == (a@ == b@),
{
    if !str_eq(a.id.as_str(), b.id.as_str()) {
        return false;
    }
    if !str_eq(a.title.as_str(), b.title.as_str()) {
        return false;
    }
    let body_eq = match (&a.body, &b.body) {
        (None, None) => true,
        (Some(x), Some(y)) => str_eq(x.as_str(), y.as_str()),
        _ => false,
    };
    if !body_eq {
        return false;
    }
    let pe: bool = match (a.priority, b.priority) {
        (crate::ticket::Priority::a, crate::ticket::Priority::a) => true,
        (crate::ticket::Priority::b, crate::ticket::Priority::b) => true,
        (crate::ticket::Priority::c, crate::ticket::Priority::c) => true,
        (crate::ticket::Priority::z, crate::ticket::Priority::z) => true,
        (crate::ticket::Priority::Unspecified, crate::ticket::Priority::Unspecified) => true,
        _ => false,
    };
    if !pe {
        return false;
    }
    let se: bool = match (a.status, b.status) {
        (crate::ticket::Status::backlog, crate::ticket::Status::backlog) => true,
        (crate::ticket::Status::todo, crate::ticket::Status::todo) => true,
        (crate::ticket::Status::doing, crate::ticket::Status::doing) => true,
        (crate::ticket::Status::done, crate::ticket::Status::done) => true,
        _ => false,
    };
    if !se {
        return false;
    }
    proof {
        assert(a@ =~= b@);
    }
    true
}

/// Decide whether two commits have the same model.
fn commit_eq(a: &Commit, b: &Commit) -> (r: bool)
    ensures
        r == (a@ == b@),
{
    if !str_eq(a.message.as_str(), b.message.as_str()) {
        return false;
    }
    if a.time != b.time {
        return false;
    }
    if a.tickets.len() != b.tickets.len() {
        proof {
            assert(a@.tickets.len() != b@.tickets.len());
        }
        return false;
    }
    let n = a.tickets.len();
    let mut i: usize = 0;
    while i < n
        invariant
            n == a.tickets@.len(),
            n == b.tickets@.len(),
            i <= n,
            a.message@ == b.message@,
            a.time == b.time,
            forall|k: int| 0 <= k < i ==> (#[trigger] a.tickets@[k])@ == b.tickets@[k]@,
        decreases n - i,
    {
        if !ticket_eq(&a.tickets[i], &b.tickets[i]) {
            proof {
                assert(a@.tickets[i as int] != b@.tickets[i as int]);
            }
            return false;
        }
        i = i + 1;
    }
    proof {
        assert forall|k: int| 0 <= k < n implies a@.tickets[k] == b@.tickets[k] by {
            assert(a.tickets@[k]@ == b.tickets@[k]@);
        }
        assert(a@.tickets =~= b@.tickets);
        assert(a@ =~= b@);
    }
    true
}

/// Decide whether the first `na` commits of `a` equal the first `nb`
/// commits of `b` up to their shorter length, i.e. whether the one
/// history is a prefix of the other.
fn prefix_eq(a: &Vec<Commit>, na: usize, b: &Vec<Commit>, nb: usize) -> (r: bool)
    requires
        na <= a@.len(),
        nb <= b@.len(),
    ensures
        r == is_prefix(commits_model(a@).take(na as int), commits_model(b@).take(nb as int)),
{
    let ghost pa = commits_model(a@).take(na as int);
    let ghost pb = commits_model(b@).take(nb as int);
    if na > nb {
        return false;
    }
    let mut i: usize = 0;
    while i < na
        invariant
            na <= a@.len(),
            nb <= b@.len(),
            na <= nb,
            i <= na,
            pa == commits_model(a@).take(na as int),
            pb == commits_model(b@).take(nb as int),
            forall|k: int| 0 <= k < i ==> pa[k] == pb[k],
        decreases na - i,
    {
        if !commit_eq(&a[i], &b[i]) {
            proof {
                assert(pa[i as int] == a@[i as int]@);
                assert(pb[i as int] == b@[i as int]@);
            }
            return false;
        }
        proof {
            assert(pa[i as int] == a@[i as int]@);
            assert(pb[i as int] == b@[i as int]@);
        }
        i = i + 1;
    }
    proof {
        assert forall|k: int| 0 <= k < na implies pa[k] == pb.take(pa.len() as int)[k] by {
            assert(pa[k] == pb[k]);
        }
        assert(pa =~= pb.take(pa.len() as int));
    }
    true
}

/// Decide whether two remote states are the same.
fn sync_state_eq(a: &RemoteState, b: &RemoteState) -> (r: bool)
    ensures
        r == (a@ == b@),
{
    if a.projects.len() != b.projects.len() {
        proof {
            assert(a@.len() != b@.len());
        }
        return false;
    }
    let n = a.projects.len();
    let mut i: usize = 0;
    while i < n
        invariant
            n == a.projects@.len(),
            n == b.projects@.len(),
            i <= n,
            forall|k: int| 0 <= k < i ==> (#[trigger] a.projects@[k])@ == b.projects@[k]@,
        decreases n - i,
    {
        let x = &a.projects[i];
        let y = &b.projects[i];
        if !str_eq(x.name.as_str(), y.name.as_str()) {
            proof {
                assert(a@[i as int] != b@[i as int]);
            }
            return false;
        }
        if x.next_seq != y.next_seq {
            proof {
                assert(a@[i as int] != b@[i as int]);
            }
            return false;
        }
        if x.commits.len() != y.commits.len() {
            proof {
                assert(a@[i as int].commits.len() != b@[i as int].commits.len());
            }
            return false;
        }
        let m = x.commits.len();
        let mut j: usize = 0;
        while j < m
            invariant
                i < n,
                n == a.projects@.len(),
                n == b.projects@.len(),
                *x == a.projects@[i as int],
                *y == b.projects@[i as int],
                m == x.commits@.len(),
                m == y.commits@.len(),
                j <= m,
                forall|k: int| 0 <= k < j ==> (#[trigger] x.commits@[k])@ == y.commits@[k]@,
            decreases m - j,
        {
            if !commit_eq(&x.commits[j], &y.commits[j]) {
                proof {
                    assert(a@[i as int].commits[j as int] != b@[i as int].commits[j as int]);
                }
                return false;
            }
            j = j + 1;
        }
        proof {
            assert forall|k: int| 0 <= k < m implies x@.commits[k] == y@.commits[k] by {
                assert(x.commits@[k]@ == y.commits@[k]@);
            }
            assert(x@.commits =~= y@.commits);
            assert(x@ =~= y@);
        }
        i = i + 1;
    }
    proof {
        assert forall|k: int| 0 <= k < n implies a@[k] == b@[k] by {
            assert(a.projects@[k]@ == b.projects@[k]@);
        }
        assert(a@ =~= b@);
    }
    true
}

/// Materialize a fetched remote project as a local project.
fn sync_to_project(sp: &SyncProject) -> (p: Project)
    ensures
        p@ == as_project(sp@),
{
    let commits = clone_commit_prefix(&sp.commits, sp.commits.len());
    proof {
        assert(commits_model(sp.commits@).take(sp.commits@.len() as int) =~= commits_model(
            sp.commits@,
        ));
        assert(commits@.len() == sp.commits@.len());
    }
    let p = Project {
        name: sp.name.clone(),
        commits,
        cursor: sp.commits.len(),
        next_seq: sp.next_seq,
    };
    proof {
        assert(p@ =~= as_project(sp@));
    }
    p
}

/// Find the position of the project named `name` in a remote state.
fn sync_find(ps: &Vec<SyncProject>, name: &str) -> (r: Option<usize>)
    ensures
        match r {
            Some(i) => 0 <= i < ps@.len() && ps@[i as int]@.name == name@,
            None => forall|k: int| 0 <= k < ps@.len() ==> (#[trigger] ps@[k])@.name != name@,
        },
{
    let mut i: usize = 0;
    while i < ps.len()
        invariant
            i <= ps@.len(),
            forall|k: int| 0 <= k < i ==> (#[trigger] ps@[k])@.name != name@,
        decreases ps@.len() - i,
    {
        if str_eq(ps[i].name.as_str(), name) {
            return Some(i);
        }
        i = i + 1;
    }
    None
}

impl Workspace {
    /// The remote state this workspace publishes: every project's applied
    /// history.
    fn publish(&self) -> (r: RemoteState)
        requires
            self@.wf(),
        ensures
            r@ == spec_publish(self@),
    {
        let mut ps: Vec<SyncProject> = Vec::new();
        let mut i: usize = 0;
        while i < self.projects.len()
            invariant
                self@.wf(),
                i <= self.projects@.len(),
                ps@.len() == i,
                forall|k: int| 0 <= k < i ==> (#[trigger] ps@[k])@ == spec_publish(self@)[k],
            decreases self.projects@.len() - i,
        {
            let p = &self.projects[i];
            proof {
                assert(p@ == self@.projects[i as int]);
                assert(p@.wf());
            }
            let sp = SyncProject {
                name: p.name.clone(),
                commits: clone_commit_prefix(&p.commits, p.cursor),
                next_seq: p.next_seq,
            };
            proof {
                assert(sp@ =~= spec_publish(self@)[i as int]);
            }
            ps.push(sp);
            i = i + 1;
        }
        let r = RemoteState { projects: ps };
        proof {
            assert forall|k: int| 0 <= k < self.projects@.len() implies r@[k] == spec_publish(
                self@,
            )[k] by {
                assert(ps@[k]@ == spec_publish(self@)[k]);
            }
            assert(r@ =~= spec_publish(self@));
        }
        r
    }

    /// Configure the remote: always named `origin`, pointing at `url`.
    /// Fails when one is already configured or the URL is malformed.
    pub fn remote_add(&mut self, url: &str) -> (r: Result<(), RemoteError>)
        requires
            old(self)@.wf(),
        ensures
            final(self)@.wf(),
            !old(self)@.initialized ==> r == Err::<(), RemoteError>(
                RemoteError::TixError(TixError::NotARepository),
            ) && final(self)@ == old(self)@,
            old(self)@.initialized && old(self)@.remote is Some ==> r == Err::<(), RemoteError>(
                RemoteError::TixError(TixError::RemoteAlreadyExists),
            ) && final(self)@ == old(self)@,
            old(self)@.initialized && old(self)@.remote is None && !is_url(url@) ==> r == Err::<
                (),
                RemoteError,
            >(RemoteError::TixError(TixError::RemoteInvalidName)) && final(self)@ == old(self)@,
            old(self)@.initialized && old(self)@.remote is None && is_url(url@) ==> r == Ok::<
                (),
                RemoteError,
            >(()) && final(self)@ == (WorkspaceModel {
                remote: Some(RemoteModel { name: "origin"@, url: url@ }),
                ..old(self)@
            }),
    {
        if !self.initialized {
            return Err(RemoteError::TixError(TixError::NotARepository));
        }
        match &self.remote {
            Some(_) => {
                return Err(RemoteError::TixError(TixError::RemoteAlreadyExists));
            },
            None => {},
        }
        if !is_url_str(url) {
            return Err(RemoteError::TixError(TixError::RemoteInvalidName));
        }
        self.remote = Some(Remote { name: String::from_str("origin"), url: String::from_str(url) });
        proof {
            assert(self@ =~= WorkspaceModel {
                remote: Some(RemoteModel { name: "origin"@, url: url@ }),
                ..old(self)@
            });
        }
        Ok(())
    }

    /// Describe the configured remote: its name, and with `verbose` also
    /// its URL. An unconfigured remote is an empty description, not an
    /// error.
    pub fn remote(&self, verbose: bool) -> (r: Result<String, RemoteError>)
        requires
            self@.wf(),
        ensures
            !self@.initialized ==> r == Err::<String, RemoteError>(
                RemoteError::TixError(TixError::NotARepository),
            ),
            self@.initialized && self@.remote is None ==> r is Ok && (r->Ok_0)@ == Seq::<
                char,
            >::empty(),
            self@.initialized && self@.remote is Some && !verbose ==> r is Ok && (r->Ok_0)@
                == self@.remote->0.name + "\n"@,
            self@.initialized && self@.remote is Some && verbose ==> r is Ok && (r->Ok_0)@
                == self@.remote->0.name + "\t"@ + self@.remote->0.url + "\n"@,
    {
        if !self.initialized {
            return Err(RemoteError::TixError(TixError::NotARepository));
        }
        match &self.remote {
            None => Ok(String::new()),
            Some(rem) => {
                let mut out = rem.name.clone();
                if verbose {
                    out.append("\t");
                    out.append(rem.url.as_str());
                }
                out.append("\n");
                Ok(out)
            },
        }
    }

    /// Push this workspace's state to the remote, given the remote's
    /// current state as just fetched by the caller.
    ///
    /// Exactly one mode applies. Plain push succeeds only as a
    /// fast-forward, when the remote holds no project or commit that the
    /// local applied histories lack. `force` overwrites unconditionally.
    /// `force_with_lease` (which takes precedence) overwrites only if the
    /// remote still equals the state last observed here. On success the
    /// returned state is what the caller must store at the remote, and it
    /// becomes the new lease.
    pub fn push(&mut self, force: bool, force_with_lease: bool, remote: &RemoteState) -> (r: Result<
        RemoteState,
        TixError,
    >)
        requires
            old(self)@.wf(),
        ensures
            final(self)@.wf(),
            !old(self)@.initialized ==> r == Err::<RemoteState, TixError>(TixError::NotARepository)
                && final(self)@ == old(self)@,
            old(self)@.initialized && old(self)@.remote is None ==> r == Err::<
                RemoteState,
                TixError,
            >(TixError::CommandFailed) && final(self)@ == old(self)@,
            old(self)@.initialized && old(self)@.remote is Some ==> {
                let allowed = if force_with_lease {
                    old(self)@.lease == Some(remote@)
                } else if force {
                    true
                } else {
                    ff_ok(remote@, old(self)@)
                };
                if allowed {
                    &&& r is Ok
                    &&& (r->Ok_0)@ == spec_publish(old(self)@)
                    &&& final(self)@ == (WorkspaceModel {
                        lease: Some(spec_publish(old(self)@)),
                        ..old(self)@
                    })
                } else {
                    &&& r == Err::<RemoteState, TixError>(TixError::PushRejectedNeedsForce)
                    &&& final(self)@ == old(self)@
                }
            },
    {
        if !self.initialized {
            return Err(TixError::NotARepository);
        }
        match &self.remote {
            None => {
                return Err(TixError::CommandFailed);
            },
            Some(_) => {},
        }
        if force_with_lease {
            let lease_ok = match &self.lease {
                None => false,
                Some(l) => sync_state_eq(l, remote),
            };
            if !lease_ok {
                return Err(TixError::PushRejectedNeedsForce);
            }
        } else if force {
        } else {
            if !self.fast_forward_ok(remote) {
                return Err(TixError::PushRejectedNeedsForce);
            }
        }
        let out = self.publish();
        let keep = out.clone();
        self.lease = Some(keep);
        proof {
            assert(self@ =~= WorkspaceModel {
                lease: Some(spec_publish(old(self)@)),
                ..old(self)@
            });
        }
        Ok(out)
    }

    /// Decide whether pushing plainly to a remote in state `remote` would
    /// be a fast-forward.
    fn fast_forward_ok(&self, remote: &RemoteState) -> (r: bool)
        requires
            self@.wf(),
        ensures
            r == ff_ok(remote@, self@),
    {
        let mut i: usize = 0;
        while i < remote.projects.len()
            invariant
                self@.wf(),
                i <= remote.projects@.len(),
                forall|k: int|
                    0 <= k < i ==> self@.has_project((#[trigger] remote@[k]).name) && is_prefix(
                        remote@[k].commits,
                        self@.projects[self@.project_index(remote@[k].name)].applied(),
                    ),
            decreases remote.projects@.len() - i,
        {
            let rp = &remote.projects[i];
            match self.find_project(rp.name.as_str()) {
                None => {
                    proof {
                        assert(!self@.has_project(remote@[i as int].name));
                    }
                    return false;
                },
                Some(j) => {
                    let lp = &self.projects[j];
                    proof {
                        assert(self@.projects[j as int].name == remote@[i as int].name);
                        let w = self@.project_index(remote@[i as int].name);
                        assert(0 <= w < self@.projects.len() && self@.projects[w].name == remote@[
                            i as int
                        ].name) by {
                            assert(self@.projects[j as int].name == remote@[i as int].name);
                        }
                        assert(w == j as int);
                        assert(lp@.wf());
                        assert(commits_model(rp.commits@).take(rp.commits@.len() as int)
                            =~= rp@.commits);
                    }
                    if !prefix_eq(&rp.commits, rp.commits.len(), &lp.commits, lp.cursor) {
                        proof {
                            assert(!is_prefix(
                                remote@[i as int].commits,
                                self@.projects[self@.project_index(
                                    remote@[i as int].name,
                                )].applied(),
                            ));
                        }
                        return false;
                    }
                },
            }
            i = i + 1;
        }
        true
    }

    /// Decide whether pulling the remote state `remote` would be a
    /// fast-forward for every shared project.
    fn pull_check(&self, remote: &RemoteState) -> (b: bool)
        requires
            self@.wf(),
        ensures
            b == pull_ok(self@, remote@),
    {
        let mut i: usize = 0;
        while i < remote.projects.len()
            invariant
                self@.wf(),
                i <= remote.projects@.len(),
                forall|k: int|
                    0 <= k < i ==> (self@.has_project((#[trigger] remote@[k]).name) ==> is_prefix(
                        self@.projects[self@.project_index(remote@[k].name)].applied(),
                        remote@[k].commits,
                    )),
            decreases remote.projects@.len() - i,
        {
            let rp = &remote.projects[i];
            match self.find_project(rp.name.as_str()) {
                None => {
                    proof {
                        assert(!self@.has_project(remote@[i as int].name));
                    }
                },
                Some(j) => {
                    let lp = &self.projects[j];
                    proof {
                        assert(self@.projects[j as int].name == remote@[i as int].name);
                        let w = self@.project_index(remote@[i as int].name);
                        assert(0 <= w < self@.projects.len() && self@.projects[w].name == remote@[
                            i as int
                        ].name) by {
                            assert(self@.projects[j as int].name == remote@[i as int].name);
                        }
                        assert(w == j as int);
                        assert(lp@.wf());
                        assert(commits_model(rp.commits@).take(rp.commits@.len() as int)
                            =~= rp@.commits);
                    }
                    if !prefix_eq(&lp.commits, lp.cursor, &rp.commits, rp.commits.len()) {
                        proof {
                            assert(!is_prefix(
                                self@.projects[self@.project_index(
                                    remote@[i as int].name,
                                )].applied(),
                                remote@[i as int].commits,
                            ));
                        }
                        return false;
                    }
                },
            }
            i = i + 1;
        }
        true
    }

    /// Find the index, below `n`, of the project named `name`.
    fn find_project_upto(&self, name: &str, n: usize) -> (r: Option<usize>)
        requires
            n <= self.projects@.len(),
        ensures
            match r {
                Some(i) => 0 <= i < n && self@.projects[i as int].name == name@,
                None => forall|k: int| 0 <= k < n ==> (#[trigger] self@.projects[k]).name != name@,
            },
    {
        let mut i: usize = 0;
        while i < n
            invariant
                n <= self.projects@.len(),
                i <= n,
                forall|j: int| 0 <= j < i ==> (#[trigger] self@.projects[j]).name != name@,
            decreases n - i,
        {
            if str_eq(self.projects[i].name.as_str(), name) {
                return Some(i);
            }
            i = i + 1;
        }
        None
    }

    /// Pull from the remote, given its current state as just fetched by
    /// the caller: fast-forward every shared project to the remote's
    /// history, materialize remote projects unknown here, and remember
    /// the fetched state as the lease. All-or-nothing: a remote history
    /// that has diverged from a local one fails the whole pull and
    /// changes nothing.
    pub fn pull(&mut self, remote: &RemoteState) -> (r: Result<(), TixError>)
        requires
            old(self)@.wf(),
            sync_wf(remote@),
        ensures
            final(self)@.wf(),
            !old(self)@.initialized ==> r == Err::<(), TixError>(TixError::NotARepository)
                && final(self)@ == old(self)@,
            old(self)@.initialized && old(self)@.remote is None ==> r == Err::<(), TixError>(
                TixError::CommandFailed,
            ) && final(self)@ == old(self)@,
            old(self)@.initialized && old(self)@.remote is Some && !pull_ok(old(self)@, remote@)
                ==> r == Err::<(), TixError>(TixError::CommandFailed) && final(self)@ == old(
                self,
            )@,
            old(self)@.initialized && old(self)@.remote is Some && pull_ok(old(self)@, remote@)
                ==> r == Ok::<(), TixError>(()) && final(self)@ == spec_pull(old(self)@, remote@),
    {
        if !self.initialized {
            return Err(TixError::NotARepository);
        }
        match &self.remote {
            None => {
                return Err(TixError::CommandFailed);
            },
            Some(_) => {},
        }
        if !self.pull_check(remote) {
            return Err(TixError::CommandFailed);
        }
        let ghost w0 = self@;
        let n0 = self.projects.len();
        // Materialize the remote projects this workspace does not know.
        let mut i: usize = 0;
        while i < remote.projects.len()
            invariant
                sync_wf(remote@),
                w0.wf(),
                n0 == w0.projects.len(),
                i <= remote.projects@.len(),
                self.projects@.len() >= n0,
                self@.projects == w0.projects + new_projects(w0, remote@.take(i as int)),
                self@.initialized == w0.initialized,
                self@.active == w0.active,
                self@.config == w0.config,
                self@.remote == w0.remote,
                self@.lease == w0.lease,
                self@.now == w0.now,
            decreases remote.projects@.len() - i,
        {
            let rp = &remote.projects[i];
            let ghost ps0 = self.projects@;
            let found = self.find_project_upto(rp.name.as_str(), n0);
            proof {
                assert(remote@.take(i + 1).drop_last() =~= remote@.take(i as int));
                assert(remote@.take(i + 1).last() == remote@[i as int]);
                assert forall|k: int| 0 <= k < n0 implies self@.projects[k] == w0.projects[k] by {
                    assert((w0.projects + new_projects(w0, remote@.take(i as int)))[k]
                        == w0.projects[k]);
                }
            }
            match found {
                None => {
                    let p = sync_to_project(rp);
                    self.projects.push(p);
                    proof {
                        assert(!w0.has_project(remote@[i as int].name));
                        crate::workspace::lemma_projects_model_push(
                            ps0,
                            self.projects@.last(),
                        );
                        assert(self@.projects =~= w0.projects + new_projects(
                            w0,
                            remote@.take(i + 1),
                        ));
                        assert(self@.projects == w0.projects + new_projects(
                            w0,
                            remote@.take(i + 1),
                        ));
                    }
                },
                Some(j) => {
                    proof {
                        assert(w0.projects[j as int].name == remote@[i as int].name);
                        assert(w0.has_project(remote@[i as int].name));
                        assert(self@.projects == w0.projects + new_projects(
                            w0,
                            remote@.take(i + 1),
                        ));
                    }
                },
            }
            i = i + 1;
        }
        proof {
            assert(remote@.take(remote@.len() as int) =~= remote@);
        }
        // Fast-forward the projects the remote also holds.
        let ghost news = new_projects(w0, remote@);
        let mut j: usize = 0;
        while j < n0
            invariant
                sync_wf(remote@),
                w0.wf(),
                n0 == w0.projects.len(),
                j <= n0,
                news == new_projects(w0, remote@),
                self@.projects.len() == n0 + news.len(),
                self.projects@.len() == n0 + news.len(),
                forall|k: int|
                    0 <= k < j ==> self@.projects[k] == pull_merge(
                        #[trigger] w0.projects[k],
                        remote@,
                    ),
                forall|k: int| j <= k < n0 ==> #[trigger] self@.projects[k] == w0.projects[k],
                forall|k: int|
                    n0 <= k < self@.projects.len() ==> #[trigger] self@.projects[k] == news[k - n0],
                self@.initialized == w0.initialized,
                self@.active == w0.active,
                self@.config == w0.config,
                self@.remote == w0.remote,
                self@.lease == w0.lease,
                self@.now == w0.now,
            decreases n0 - j,
        {
            let nm = self.projects[j].name.clone();
            proof {
                assert(self@.projects[j as int] == w0.projects[j as int]);
                assert(nm@ == w0.projects[j as int].name);
            }
            let found = sync_find(&remote.projects, nm.as_str());
            match found {
                None => {
                    proof {
                        assert(!sync_has(remote@, w0.projects[j as int].name));
                        assert(pull_merge(w0.projects[j as int], remote@) == w0.projects[
                            j as int
                        ]);
                    }
                },
                Some(ri) => {
                    let rp = &remote.projects[ri];
                    let commits = clone_commit_prefix(&rp.commits, rp.commits.len());
                    let nseq: u64 = if self.projects[j].next_seq >= rp.next_seq {
                        self.projects[j].next_seq
                    } else {
                        rp.next_seq
                    };
                    let ghost ps0 = self.projects@;
                    let mut p = self.projects.remove(j);
                    proof {
                        assert(p == ps0[j as int]);
                        assert(p@ == w0.projects[j as int]);
                    }
                    p.commits = commits;
                    p.cursor = p.commits.len();
                    p.next_seq = nseq;
                    let ghost pm2 = p@;
                    self.projects.insert(j, p);
                    proof {
                        lemma_sync_index(remote@, ri as int);
                        assert(remote@[ri as int].name == w0.projects[j as int].name);
                        assert(sync_index(remote@, w0.projects[j as int].name) == ri as int);
                        assert(commits_model(rp.commits@).take(rp.commits@.len() as int)
                            =~= remote@[ri as int].commits);
                        assert(pm2 =~= merged_project(
                            w0.projects[j as int],
                            remote@[ri as int],
                        ));
                        assert(pm2 == pull_merge(w0.projects[j as int], remote@));
                        let pv = self.projects@[j as int];
                        lemma_reinsert(ps0, j as int, pv);
                        assert(self.projects@ == ps0.update(j as int, pv));
                        lemma_projects_model_update(ps0, j as int, pv);
                        assert(pv@ == pm2);
                    }
                },
            }
            j = j + 1;
        }
        let keep = remote.clone();
        self.lease = Some(keep);
        proof {
            let goal = spec_pull(w0, remote@);
            assert(goal.projects.len() == n0 + news.len());
            assert forall|k: int| 0 <= k < n0 + news.len() implies self@.projects[k]
                == goal.projects[k] by {
                if k < n0 {
                    assert(goal.projects[k] == w0.projects.map_values(
                        |p: ProjectModel| pull_merge(p, remote@),
                    )[k]);
                } else {
                    assert(goal.projects[k] == news[k - n0]);
                }
            }
            assert(self@.projects =~= goal.projects);
            assert(self@ =~= goal);
            // Everything the pull produced is well formed.
            assert forall|k: int| 0 <= k < self@.projects.len() implies (
            #[trigger] self@.projects[k]).wf() by {
                if k < n0 {
                    let p0 = w0.projects[k];
                    if sync_has(remote@, p0.name) {
                        let sp = remote@[sync_index(remote@, p0.name)];
                        assert(0 <= sync_index(remote@, p0.name) < remote@.len());
                        assert forall|c: int| 0 <= c < sp.commits.len() implies (
                        #[trigger] sp.commits[c]).wf(
                            self@.projects[k].next_seq,
                        ) by {
                            assert(sp.commits[c].wf(sp.next_seq));
                            crate::store::lemma_tickets_wf_mono(
                                sp.commits[c].tickets,
                                sp.next_seq,
                                self@.projects[k].next_seq,
                            );
                        }
                    }
                } else {
                    lemma_new_projects_wf(w0, remote@);
                    assert(news[k - n0].wf());
                }
            }
            assert forall|k1: int, k2: int| 0 <= k1 < k2 < self@.projects.len() implies (
            #[trigger] self@.projects[k1]).name != (#[trigger] self@.projects[k2]).name by {
                lemma_new_projects_names(w0, remote@);
                if k1 < n0 {
                    assert(self@.projects[k1].name == w0.projects[k1].name);
                }
                if k2 < n0 {
                    assert(self@.projects[k2].name == w0.projects[k2].name);
                }
            }
            assert(self@.wf());
        }
        Ok(())
    }

    /// Materialize a whole workspace from a remote's state: its projects
    /// become local projects (or a fresh `main` if it has none), the
    /// remote is configured under `url`, and the fetched state becomes
    /// the lease. Fails only on a malformed URL.
    pub fn clone(url: &str, remote: &RemoteState) -> (r: Result<Workspace, CloneError>)
        requires
            sync_wf(remote@),
        ensures
            !is_url(url@) ==> r == Err::<Workspace, CloneError>(
                CloneError::TixError(TixError::CommandFailed),
            ),
            is_url(url@) ==> r is Ok && (r->Ok_0)@ == spec_clone(url@, remote@) && (
            r->Ok_0)@.wf(),
    {
        if !is_url_str(url) {
            return Err(CloneError::TixError(TixError::CommandFailed));
        }
        let mut w = Workspace::new();
        w.initialized = true;
        if remote.projects.len() == 0 {
            let p = Project::empty(String::from_str("main"));
            w.projects.push(p);
        } else {
            let mut i: usize = 0;
            while i < remote.projects.len()
                invariant
                    sync_wf(remote@),
                    i <= remote.projects@.len(),
                    w.projects@.len() == i,
                    forall|k: int|
                        0 <= k < i ==> (#[trigger] w.projects@[k])@ == as_project(remote@[k]),
                    w.initialized,
                    w.active == 0,
                    w@.config == Seq::<(Seq<char>, Seq<char>)>::empty(),
                    w.remote is None,
                    w.lease is None,
                    w.now == 0,
                decreases remote.projects@.len() - i,
            {
                let p = sync_to_project(&remote.projects[i]);
                w.projects.push(p);
                i = i + 1;
            }
        }
        w.remote = Some(
            Remote { name: String::from_str("origin"), url: String::from_str(url) },
        );
        let keep = remote.clone();
        w.lease = Some(keep);
        proof {
            let goal = spec_clone(url@, remote@);
            assert forall|k: int| 0 <= k < goal.projects.len() implies w@.projects[k]
                == goal.projects[k] by {
                if remote@.len() > 0 {
                    assert(w.projects@[k]@ == as_project(remote@[k]));
                }
            }
            assert(w@.projects =~= goal.projects);
            assert(w@.config =~= goal.config);
            assert(w@ =~= goal);
            assert forall|k: int| 0 <= k < w@.projects.len() implies (
            #[trigger] w@.projects[k]).wf() by {
                if remote@.len() > 0 {
                    let sp = remote@[k];
                    assert forall|c: int| 0 <= c < sp.commits.len() implies (
                    #[trigger] sp.commits[c]).wf(sp.next_seq) by {}
                }
            }
            assert(w@.wf());
        }
        Ok(w)
    }

}

} // verus!
