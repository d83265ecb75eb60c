//! The ticket store operations of the workspace.
//!
//! `add`, `amend`, `mv` and their read-only companions `show` and `list`
//! act on the active project's current ticket store; every mutation
//! validates its input first, then records exactly one commit. `undo` and
//! `redo` move the active project's history cursor.

use vstd::prelude::*;
use vstd::string::StrSliceExecFns;
use vstd::string::StringExecFns;
use crate::error::{AddError, AmendError, ListError, MvError, ShowError, TixError};
use crate::history::{tickets_wf, ticket_ok, CommitModel, ProjectModel};
use crate::ids::{dec_value, id_chars, is_id, is_id_str, render_id, lemma_dec_fixed_shape,
    lemma_dec_fixed_value, lemma_u64_fits_id_width, ID_WIDTH};
use crate::text::{is_blank, is_blank_str, str_eq};
use crate::ticket::{lemma_tickets_model_push, lemma_tickets_model_update, tickets_model,
    Priority, Status, Ticket, TicketModel};
use crate::workspace::{lemma_projects_model_update, lemma_reinsert, Workspace, WorkspaceModel};

verus! {

/// The ticket bearing `id` in the store `ts`, if any.
pub open spec fn lookup_ticket(ts: Seq<TicketModel>, id: Seq<char>) -> Option<TicketModel>
    decreases ts.len(),
{
    if ts.len() == 0 {
        None
    } else if ts.last().id == id {
        Some(ts.last())
    } else {
        lookup_ticket(ts.drop_last(), id)
    }
}

/// The position of the ticket bearing `id` (unique when identifiers are
/// distinct).
pub open spec fn ticket_index(ts: Seq<TicketModel>, id: Seq<char>) -> int {
    choose|i: int| 0 <= i < ts.len() && (#[trigger] ts[i]).id == id
}

/// In a well-formed store, identifiers are pairwise distinct.
pub proof fn lemma_wf_ids_distinct(ts: Seq<TicketModel>, bound: nat)
    requires
        tickets_wf(ts, bound),
    ensures
        forall|k1: int, k2: int|
            0 <= k1 < k2 < ts.len() ==> (#[trigger] ts[k1]).id != (#[trigger] ts[k2]).id,
{
    assert forall|k1: int, k2: int| 0 <= k1 < k2 < ts.len() implies (#[trigger] ts[k1]).id != (
    #[trigger] ts[k2]).id by {
        assert(dec_value(ts[k1].id) < dec_value(ts[k2].id));
    }
}

/// If `ts[i]` bears `id` and identifiers are distinct, looking `id` up
/// yields exactly that ticket.
pub proof fn lemma_lookup_found(ts: Seq<TicketModel>, id: Seq<char>, i: int)
    requires
        forall|k1: int, k2: int|
            0 <= k1 < k2 < ts.len() ==> (#[trigger] ts[k1]).id != (#[trigger] ts[k2]).id,
        0 <= i < ts.len(),
        ts[i].id == id,
    ensures
        lookup_ticket(ts, id) == Some(ts[i]),
        ticket_index(ts, id) == i,
    decreases ts.len(),
{
    if i == ts.len() - 1 {
    } else {
        assert(ts.drop_last()[i] == ts[i]);
        assert forall|k1: int, k2: int| 0 <= k1 < k2 < ts.drop_last().len() implies (
        #[trigger] ts.drop_last()[k1]).id != (#[trigger] ts.drop_last()[k2]).id by {
            assert(ts.drop_last()[k1] == ts[k1]);
            assert(ts.drop_last()[k2] == ts[k2]);
        }
        lemma_lookup_found(ts.drop_last(), id, i);
    }
    let w = ticket_index(ts, id);
    assert(0 <= w < ts.len() && ts[w].id == id) by {
        assert(ts[i].id == id);
    }
    assert(w == i);
}

/// An identifier no ticket bears looks up to nothing.
pub proof fn lemma_lookup_absent(ts: Seq<TicketModel>, id: Seq<char>)
    requires
        forall|k: int| 0 <= k < ts.len() ==> (#[trigger] ts[k]).id != id,
    ensures
        lookup_ticket(ts, id) is None,
    decreases ts.len(),
{
    if ts.len() > 0 {
        assert forall|k: int| 0 <= k < ts.drop_last().len() implies (
        #[trigger] ts.drop_last()[k]).id != id by {
            assert(ts.drop_last()[k] == ts[k]);
        }
        lemma_lookup_absent(ts.drop_last(), id);
    }
}

/// A bigger identifier counter keeps a store well formed.
pub proof fn lemma_tickets_wf_mono(ts: Seq<TicketModel>, b1: nat, b2: nat)
    requires
        tickets_wf(ts, b1),
        b1 <= b2,
    ensures
        tickets_wf(ts, b2),
{
}

/// Find the position of the ticket bearing `id` in a store vector.
fn find_ticket(ts: &Vec<Ticket>, id: &str) -> (r: Option<usize>)
    ensures
        match r {
            Some(i) => 0 <= i < ts@.len() && ts@[i as int]@.id == id@,
            None => forall|k: int| 0 <= k < ts@.len() ==> (#[trigger] ts@[k])@.id != id@,
        },
{
    let mut i: usize = 0;
    while i < ts.len()
        invariant
            i <= ts@.len(),
            forall|k: int| 0 <= k < i ==> (#[trigger] ts@[k])@.id != id@,
        decreases ts@.len() - i,
    {
        if str_eq(ts[i].id.as_str(), id) {
            return Some(i);
        }
        i = i + 1;
    }
    None
}

/// Decide whether `v` holds `s`.
fn status_contains(v: &Vec<Status>, s: Status) -> (b: bool)
    ensures
        b == v@.contains(s),
{
    let mut i: usize = 0;
    while i < v.len()
        invariant
            i <= v@.len(),
            forall|k: int| 0 <= k < i ==> v@[k] != s,
        decreases v@.len() - i,
    {
        if v[i] == s {
            return true;
        }
        i = i + 1;
    }
    false
}

/// Decide whether `v` holds `p`.
fn priority_contains(v: &Vec<Priority>, p: Priority) -> (b: bool)
    ensures
        b == v@.contains(p),
{
    let mut i: usize = 0;
    while i < v.len()
        invariant
            i <= v@.len(),
            forall|k: int| 0 <= k < i ==> v@[k] != p,
        decreases v@.len() - i,
    {
        if v[i] == p {
            return true;
        }
        i = i + 1;
    }
    false
}

/// The model of an optional string argument.
pub open spec fn opt_view(o: Option<&str>) -> Option<Seq<char>> {
    match o {
        Some(s) => Some(s@),
        None => None,
    }
}

/// What `amend` turns a ticket into: supplied fields replace, omitted
/// fields keep their value. A priority of `Unspecified` counts as omitted.
pub open spec fn amended_ticket(
    t: TicketModel,
    title: Option<Seq<char>>,
    body: Option<Seq<char>>,
    priority: Option<Priority>,
) -> TicketModel {
    TicketModel {
        title: match title {
            Some(s) => s,
            None => t.title,
        },
        body: match body {
            Some(b) => Some(b),
            None => t.body,
        },
        priority: match priority {
            Some(p) => if p is Unspecified {
                t.priority
            } else {
                p
            },
            None => t.priority,
        },
        ..t
    }
}

/// Whether a ticket passes the list filter: its status is in the status
/// set, and its priority is in the priority set unless that set is empty.
pub open spec fn passes(t: TicketModel, sts: Seq<Status>, prs: Seq<Priority>) -> bool {
    sts.contains(t.status) && (prs.len() == 0 || prs.contains(t.priority))
}

/// The status filter that actually applies: `todo` and `doing` when the
/// caller supplies none, hiding `backlog` and `done` by default.
pub open spec fn effective_statuses(sts: Seq<Status>) -> Seq<Status> {
    if sts.len() == 0 {
        seq![Status::todo, Status::doing]
    } else {
        sts
    }
}

/// The tickets of `ts` that pass the filter, in store order.
pub open spec fn select(ts: Seq<TicketModel>, sts: Seq<Status>, prs: Seq<Priority>) -> Seq<
    TicketModel,
>
    decreases ts.len(),
{
    if ts.len() == 0 {
        Seq::empty()
    } else {
        let prev = select(ts.drop_last(), sts, prs);
        if passes(ts.last(), sts, prs) {
            prev.push(ts.last())
        } else {
            prev
        }
    }
}

/// A prefix of a well-formed store is well formed.
pub proof fn lemma_tickets_wf_prefix(ts: Seq<TicketModel>, bound: nat, n: int)
    requires
        tickets_wf(ts, bound),
        0 <= n <= ts.len(),
    ensures
        tickets_wf(ts.take(n), bound),
{
    assert forall|k: int| 0 <= k < n implies ticket_ok(#[trigger] ts.take(n)[k]) && dec_value(
        ts.take(n)[k].id,
    ) < bound by {
        assert(ts.take(n)[k] == ts[k]);
    }
    assert forall|k1: int, k2: int| 0 <= k1 < k2 < n implies dec_value(
        (#[trigger] ts.take(n)[k1]).id,
    ) < dec_value((#[trigger] ts.take(n)[k2]).id) by {
        assert(ts.take(n)[k1] == ts[k1]);
        assert(ts.take(n)[k2] == ts[k2]);
    }
}

/// What `list` returns is itself a well-formed store: in particular its
/// identifiers strictly increase, so the listing is ordered by ascending
/// identifier (creation order).
pub proof fn lemma_select_sorted(
    ts: Seq<TicketModel>,
    sts: Seq<Status>,
    prs: Seq<Priority>,
    bound: nat,
)
    requires
        tickets_wf(ts, bound),
    ensures
        tickets_wf(select(ts, sts, prs), bound),
        select(ts, sts, prs).len() > 0 ==> ts.len() > 0 && dec_value(
            select(ts, sts, prs).last().id,
        ) <= dec_value(ts.last().id),
    decreases ts.len(),
{
    if ts.len() > 0 {
        assert(ts.drop_last() =~= ts.take(ts.len() - 1));
        lemma_tickets_wf_prefix(ts, bound, ts.len() - 1);
        lemma_select_sorted(ts.drop_last(), sts, prs, bound);
        let prev = select(ts.drop_last(), sts, prs);
        let t = ts.last();
        if passes(t, sts, prs) {
            assert forall|k1: int, k2: int| 0 <= k1 < k2 < prev.push(t).len() implies dec_value(
                (#[trigger] prev.push(t)[k1]).id,
            ) < dec_value((#[trigger] prev.push(t)[k2]).id) by {
                if k2 == prev.len() {
                    assert(prev.push(t)[k2] == t);
                    assert(prev.push(t)[k1] == prev[k1]);
                    if prev.len() > 0 {
                        assert(dec_value(prev[k1].id) <= dec_value(prev.last().id));
                        assert(dec_value(prev.last().id) <= dec_value(ts.drop_last().last().id));
                        assert(ts.drop_last().last() == ts[ts.len() - 2]);
                        assert(dec_value(ts[ts.len() - 2].id) < dec_value(t.id));
                    }
                } else {
                    assert(prev.push(t)[k1] == prev[k1]);
                    assert(prev.push(t)[k2] == prev[k2]);
                }
            }
            assert forall|k: int| 0 <= k < prev.push(t).len() implies ticket_ok(
                #[trigger] prev.push(t)[k],
            ) && dec_value(prev.push(t)[k].id) < bound by {
                if k < prev.len() {
                    assert(prev.push(t)[k] == prev[k]);
                } else {
                    assert(prev.push(t)[k] == t);
                }
            }
        }
    }
}

impl WorkspaceModel {
    /// Whether `add` succeeds: the title carries a visible character, the
    /// workspace is initialized, and the identifier space is not
    /// exhausted.
    pub open spec fn add_ok(self, title: Seq<char>) -> bool {
        &&& !is_blank(title)
        &&& self.initialized
        &&& self.active_project().next_seq < u64::MAX
    }

    /// The ticket a successful `add` creates: a fresh identifier, the
    /// given fields, priority `z` unless one was given, status `backlog`
    /// unless one was given.
    pub open spec fn fresh_ticket(
        self,
        title: Seq<char>,
        body: Option<Seq<char>>,
        priority: Priority,
        status: Option<Status>,
    ) -> TicketModel {
        TicketModel {
            id: id_chars(self.active_project().next_seq),
            title,
            body,
            priority: priority.spec_effective(),
            status: match status {
                Some(s) => s,
                None => Status::backlog,
            },
        }
    }

    /// The workspace after a successful `add`: the new ticket is appended
    /// to the active project's store, one commit is recorded, and the
    /// identifier counter advances.
    pub open spec fn spec_add(
        self,
        title: Seq<char>,
        body: Option<Seq<char>>,
        priority: Priority,
        status: Option<Status>,
    ) -> WorkspaceModel {
        let p = self.active_project();
        let t = self.fresh_ticket(title, body, priority, status);
        let c = CommitModel {
            message: "add "@ + t.id,
            time: self.now,
            tickets: p.tickets().push(t),
        };
        self.with_active(ProjectModel { next_seq: p.next_seq + 1, ..p.record(c) })
    }

    /// The workspace after a successful `amend` of the ticket bearing
    /// `id`: the store entry is updated in place and one commit is
    /// recorded.
    pub open spec fn spec_amend(
        self,
        id: Seq<char>,
        title: Option<Seq<char>>,
        body: Option<Seq<char>>,
        priority: Option<Priority>,
    ) -> WorkspaceModel {
        let p = self.active_project();
        let ts = p.tickets();
        let i = ticket_index(ts, id);
        let ts2 = ts.update(i, amended_ticket(ts[i], title, body, priority));
        self.with_active(
            p.record(CommitModel { message: "amend "@ + id, time: self.now, tickets: ts2 }),
        )
    }

    /// The workspace after a successful `mv` of the ticket bearing `id`:
    /// its status is set and one commit is recorded.
    pub open spec fn spec_mv(self, id: Seq<char>, status: Status) -> WorkspaceModel {
        let p = self.active_project();
        let ts = p.tickets();
        let i = ticket_index(ts, id);
        let ts2 = ts.update(i, TicketModel { status, ..ts[i] });
        self.with_active(
            p.record(
                CommitModel {
                    message: "mv "@ + id + " "@ + status.spec_name(),
                    time: self.now,
                    tickets: ts2,
                },
            ),
        )
    }

    /// The workspace after a successful `undo` on the active project.
    pub open spec fn spec_undo(self) -> WorkspaceModel {
        self.with_active(self.active_project().undone())
    }

    /// The workspace after a successful `redo` on the active project.
    pub open spec fn spec_redo(self) -> WorkspaceModel {
        self.with_active(self.active_project().redone())
    }
}

impl Workspace {
    /// Create a ticket in the active project.
    ///
    /// The title must hold a visible character; `priority` falls back to
    /// `z` when unspecified, the status to `backlog` when absent. Returns
    /// the new ticket's identifier. Exactly one commit is recorded.
    pub fn add(
        &mut self,
        title: &str,
        body: Option<&str>,
        priority: Priority,
        status: Option<Status>,
    ) -> (r: Result<String, AddError>)
        requires
            old(self)@.wf(),
        ensures
            final(self)@.wf(),
            is_blank(title@) ==> r == Err::<String, AddError>(
                AddError::TixError(TixError::InvalidTitle),
            ) && final(self)@ == old(self)@,
            !is_blank(title@) && !old(self)@.initialized ==> r == Err::<String, AddError>(
                AddError::TixError(TixError::NotARepository),
            ) && final(self)@ == old(self)@,
            !is_blank(title@) && old(self)@.initialized && old(
                self,
            )@.active_project().next_seq >= u64::MAX ==> r == Err::<String, AddError>(
                AddError::TixError(TixError::OutOfMemory),
            ) && final(self)@ == old(self)@,
            old(self)@.add_ok(title@) ==> r is Ok && (r->Ok_0)@ == id_chars(
                old(self)@.active_project().next_seq,
            ) && final(self)@ == old(self)@.spec_add(
                title@,
                opt_view(body),
                priority,
                status,
            ),
            r is Ok <==> old(self)@.add_ok(title@),
    {
        if is_blank_str(title) {
            return Err(AddError::TixError(TixError::InvalidTitle));
        }
        if !self.initialized {
            return Err(AddError::TixError(TixError::NotARepository));
        }
        let now = self.now;
        let active = self.active;
        let ghost w0 = self@;
        let mut p = self.projects.remove(active);
        let ghost pm0 = p@;
        proof {
            assert(pm0 == w0.active_project());
        }
        if p.next_seq == u64::MAX {
            self.projects.insert(active, p);
            proof {
                lemma_reinsert(old(self).projects@, active as int, old(self).projects@[
                    active as int
                ]);
                assert(self.projects@ =~= old(self).projects@);
                assert(self@ =~= w0);
            }
            return Err(AddError::TixError(TixError::OutOfMemory));
        }
        let seq_no = p.next_seq;
        let id = render_id(seq_no);
        let t = Ticket {
            id: id.clone(),
            title: String::from_str(title),
            body: match body {
                Some(b) => Some(String::from_str(b)),
                None => None,
            },
            priority: priority.effective(),
            status: match status {
                Some(s) => s,
                None => Status::backlog,
            },
        };
        let ghost tm = t@;
        let mut snap = p.snapshot();
        let ghost ts0 = tickets_model(snap@);
        snap.push(t);
        let mut msg = String::from_str("add ");
        msg.append(id.as_str());
        proof {
            lemma_tickets_model_push(snap@.drop_last(), snap@.last());
            assert(snap@.drop_last() =~= snap@.subrange(0, snap@.len() - 1));
            assert(tickets_model(snap@) == ts0.push(tm));
        }
        p.record(msg, now, snap);
        p.next_seq = seq_no + 1;
        let ghost pm2 = p@;
        self.projects.insert(active, p);
        proof {
            assert(tm =~= w0.fresh_ticket(title@, opt_view(body), priority, status));
            let c = CommitModel { message: "add "@ + tm.id, time: now, tickets: ts0.push(tm) };
            assert(msg@ == "add "@ + tm.id);
            assert(pm2 =~= ProjectModel { next_seq: pm0.next_seq + 1, ..pm0.record(c) });
            // The new store stays well formed under the advanced counter.
            lemma_u64_fits_id_width(seq_no);
            lemma_dec_fixed_value(seq_no as nat, ID_WIDTH as nat);
            lemma_dec_fixed_shape(seq_no as nat, ID_WIDTH as nat);
            assert(ticket_ok(tm));
            assert(dec_value(tm.id) == seq_no);
            assert(tickets_wf(ts0, pm0.next_seq));
            assert forall|k: int| 0 <= k < ts0.push(tm).len() implies ticket_ok(
                #[trigger] ts0.push(tm)[k],
            ) && dec_value(ts0.push(tm)[k].id) < pm0.next_seq + 1 by {
                if k < ts0.len() {
                    assert(ts0.push(tm)[k] == ts0[k]);
                }
            }
            assert forall|k1: int, k2: int| 0 <= k1 < k2 < ts0.push(tm).len() implies dec_value(
                (#[trigger] ts0.push(tm)[k1]).id,
            ) < dec_value((#[trigger] ts0.push(tm)[k2]).id) by {
                if k2 < ts0.len() {
                    assert(ts0.push(tm)[k1] == ts0[k1]);
                    assert(ts0.push(tm)[k2] == ts0[k2]);
                } else {
                    assert(ts0.push(tm)[k1] == ts0[k1]);
                    assert(ts0.push(tm)[k2] == tm);
                }
            }
            assert(c.wf(pm0.next_seq + 1));
            crate::history::lemma_record_wf(
                ProjectModel { next_seq: pm0.next_seq + 1, ..pm0 },
                c,
            );
            assert(ProjectModel { next_seq: pm0.next_seq + 1, ..pm0 }.record(c) =~= pm2);
            assert(pm2.wf());
            let pv = self.projects@[active as int];
            lemma_reinsert(old(self).projects@, active as int, pv);
            assert(self.projects@ == old(self).projects@.update(active as int, pv));
            assert(pv@ == pm2);
            lemma_projects_model_update(old(self).projects@, active as int, pv);
            assert(self@.projects =~= w0.projects.update(active as int, pm2));
            assert(self@ =~= w0.spec_add(title@, opt_view(body), priority, status));
            assert(self@.wf());
        }
        Ok(id)
    }

    /// Read one ticket of the active project.
    pub fn show(&self, ticket_id: &str) -> (r: Result<Ticket, ShowError>)
        requires
            self@.wf(),
        ensures
            !self@.initialized ==> r == Err::<Ticket, ShowError>(
                ShowError::TixError(TixError::NotARepository),
            ),
            self@.initialized && !is_id(ticket_id@) ==> r == Err::<Ticket, ShowError>(
                ShowError::TixError(TixError::InvalidTicketId),
            ),
            self@.initialized && is_id(ticket_id@) ==> match lookup_ticket(
                self@.tickets(),
                ticket_id@,
            ) {
                Some(t) => r is Ok && (r->Ok_0)@ == t,
                None => r == Err::<Ticket, ShowError>(
                    ShowError::TixError(TixError::TicketNotFound),
                ),
            },
    {
        if !self.initialized {
            return Err(ShowError::TixError(TixError::NotARepository));
        }
        if !is_id_str(ticket_id) {
            return Err(ShowError::TixError(TixError::InvalidTicketId));
        }
        let p = &self.projects[self.active];
        if p.cursor == 0 {
            proof {
                lemma_lookup_absent(self@.tickets(), ticket_id@);
            }
            return Err(ShowError::TixError(TixError::TicketNotFound));
        }
        let ts = &p.commits[p.cursor - 1].tickets;
        proof {
            assert(tickets_model(ts@) == self@.tickets());
            assert(tickets_wf(self@.tickets(), p@.next_seq));
            lemma_wf_ids_distinct(self@.tickets(), p@.next_seq);
        }
        match find_ticket(ts, ticket_id) {
            Some(i) => {
                proof {
                    lemma_lookup_found(self@.tickets(), ticket_id@, i as int);
                }
                Ok(ts[i].clone())
            },
            None => {
                proof {
                    lemma_lookup_absent(self@.tickets(), ticket_id@);
                }
                Err(ShowError::TixError(TixError::TicketNotFound))
            },
        }
    }

    /// Read one ticket's title.
    pub fn show_title(&self, ticket_id: &str) -> (r: Result<String, ShowError>)
        requires
            self@.wf(),
        ensures
            !self@.initialized ==> r == Err::<String, ShowError>(
                ShowError::TixError(TixError::NotARepository),
            ),
            self@.initialized && !is_id(ticket_id@) ==> r == Err::<String, ShowError>(
                ShowError::TixError(TixError::InvalidTicketId),
            ),
            self@.initialized && is_id(ticket_id@) ==> match lookup_ticket(
                self@.tickets(),
                ticket_id@,
            ) {
                Some(t) => r is Ok && (r->Ok_0)@ == t.title,
                None => r == Err::<String, ShowError>(
                    ShowError::TixError(TixError::TicketNotFound),
                ),
            },
    {
        match self.show(ticket_id) {
            Ok(t) => Ok(t.title),
            Err(e) => Err(e),
        }
    }

    /// Read one ticket's body; a ticket without one reads as the empty
    /// string.
    pub fn show_body(&self, ticket_id: &str) -> (r: Result<String, ShowError>)
        requires
            self@.wf(),
        ensures
            !self@.initialized ==> r == Err::<String, ShowError>(
                ShowError::TixError(TixError::NotARepository),
            ),
            self@.initialized && !is_id(ticket_id@) ==> r == Err::<String, ShowError>(
                ShowError::TixError(TixError::InvalidTicketId),
            ),
            self@.initialized && is_id(ticket_id@) ==> match lookup_ticket(
                self@.tickets(),
                ticket_id@,
            ) {
                Some(t) => r is Ok && (r->Ok_0)@ == (match t.body {
                    Some(b) => b,
                    None => Seq::<char>::empty(),
                }),
                None => r == Err::<String, ShowError>(
                    ShowError::TixError(TixError::TicketNotFound),
                ),
            },
    {
        match self.show(ticket_id) {
            Ok(t) => match t.body {
                Some(b) => Ok(b),
                None => Ok(String::new()),
            },
            Err(e) => Err(e),
        }
    }

    /// Read one ticket's status.
    pub fn show_status(&self, ticket_id: &str) -> (r: Result<Status, ShowError>)
        requires
            self@.wf(),
        ensures
            !self@.initialized ==> r == Err::<Status, ShowError>(
                ShowError::TixError(TixError::NotARepository),
            ),
            self@.initialized && !is_id(ticket_id@) ==> r == Err::<Status, ShowError>(
                ShowError::TixError(TixError::InvalidTicketId),
            ),
            self@.initialized && is_id(ticket_id@) ==> match lookup_ticket(
                self@.tickets(),
                ticket_id@,
            ) {
                Some(t) => r == Ok::<Status, ShowError>(t.status),
                None => r == Err::<Status, ShowError>(
                    ShowError::TixError(TixError::TicketNotFound),
                ),
            },
    {
        match self.show(ticket_id) {
            Ok(t) => Ok(t.status),
            Err(e) => Err(e),
        }
    }

    /// Read one ticket's priority.
    pub fn show_priority(&self, ticket_id: &str) -> (r: Result<Priority, ShowError>)
        requires
            self@.wf(),
        ensures
            !self@.initialized ==> r == Err::<Priority, ShowError>(
                ShowError::TixError(TixError::NotARepository),
            ),
            self@.initialized && !is_id(ticket_id@) ==> r == Err::<Priority, ShowError>(
                ShowError::TixError(TixError::InvalidTicketId),
            ),
            self@.initialized && is_id(ticket_id@) ==> match lookup_ticket(
                self@.tickets(),
                ticket_id@,
            ) {
                Some(t) => r == Ok::<Priority, ShowError>(t.priority),
                None => r == Err::<Priority, ShowError>(
                    ShowError::TixError(TixError::TicketNotFound),
                ),
            },
    {
        match self.show(ticket_id) {
            Ok(t) => Ok(t.priority),
            Err(e) => Err(e),
        }
    }

    /// Partially update the ticket bearing `ticket_id`: only supplied
    /// fields change. A supplied title must not be blank; a supplied
    /// priority of `Unspecified` leaves the priority alone. Exactly one
    /// commit is recorded.
    pub fn amend(
        &mut self,
        ticket_id: &str,
        title: Option<&str>,
        body: Option<&str>,
        priority: Option<Priority>,
    ) -> (r: Result<(), AmendError>)
        requires
            old(self)@.wf(),
        ensures
            final(self)@.wf(),
            !old(self)@.initialized ==> r == Err::<(), AmendError>(
                AmendError::TixError(TixError::NotARepository),
            ) && final(self)@ == old(self)@,
            old(self)@.initialized && !is_id(ticket_id@) ==> r == Err::<(), AmendError>(
                AmendError::TixError(TixError::InvalidTicketId),
            ) && final(self)@ == old(self)@,
            old(self)@.initialized && is_id(ticket_id@) && (title matches Some(t) && is_blank(t@))
                ==> r == Err::<(), AmendError>(AmendError::TixError(TixError::InvalidTitle))
                && final(self)@ == old(self)@,
            old(self)@.initialized && is_id(ticket_id@) && !(title matches Some(t) && is_blank(t@))
                && lookup_ticket(old(self)@.tickets(), ticket_id@) is None ==> r == Err::<
                (),
                AmendError,
            >(AmendError::TixError(TixError::TicketNotFound)) && final(self)@ == old(self)@,
            old(self)@.initialized && is_id(ticket_id@) && !(title matches Some(t) && is_blank(t@))
                && lookup_ticket(old(self)@.tickets(), ticket_id@) is Some ==> r == Ok::<
                (),
                AmendError,
            >(()) && final(self)@ == old(self)@.spec_amend(
                ticket_id@,
                opt_view(title),
                opt_view(body),
                priority,
            ),
    {
        if !self.initialized {
            return Err(AmendError::TixError(TixError::NotARepository));
        }
        if !is_id_str(ticket_id) {
            return Err(AmendError::TixError(TixError::InvalidTicketId));
        }
        match title {
            Some(t) => {
                if is_blank_str(t) {
                    return Err(AmendError::TixError(TixError::InvalidTitle));
                }
            },
            None => {},
        }
        let now = self.now;
        let active = self.active;
        let ghost w0 = self@;
        let mut p = self.projects.remove(active);
        let ghost pm0 = p@;
        proof {
            assert(pm0 == w0.active_project());
            assert(tickets_wf(pm0.tickets(), pm0.next_seq));
            lemma_wf_ids_distinct(pm0.tickets(), pm0.next_seq);
        }
        let mut snap = p.snapshot();
        let ghost ts0 = tickets_model(snap@);
        let found = find_ticket(&snap, ticket_id);
        match found {
            None => {
                self.projects.insert(active, p);
                proof {
                    lemma_lookup_absent(ts0, ticket_id@);
                    lemma_reinsert(old(self).projects@, active as int, old(self).projects@[
                        active as int
                    ]);
                    assert(self.projects@ =~= old(self).projects@);
                    assert(self@ =~= w0);
                }
                Err(AmendError::TixError(TixError::TicketNotFound))
            },
            Some(i) => {
                proof {
                    lemma_lookup_found(ts0, ticket_id@, i as int);
                }
                let ghost snap0 = snap@;
                let mut e = snap.remove(i);
                let ghost e0 = e@;
                match title {
                    Some(t) => e.title = String::from_str(t),
                    None => {},
                }
                match body {
                    Some(b) => e.body = Some(String::from_str(b)),
                    None => {},
                }
                match priority {
                    Some(pr) => {
                        if !matches!(pr, Priority::Unspecified) {
                            e.priority = pr;
                        }
                    },
                    None => {},
                }
                let ghost e2 = e@;
                snap.insert(i, e);
                let mut msg = String::from_str("amend ");
                msg.append(ticket_id);
                proof {
                    assert(e0 == ts0[i as int]);
                    assert(e2 =~= amended_ticket(
                        e0,
                        opt_view(title),
                        opt_view(body),
                        priority,
                    ));
                    lemma_reinsert(snap0, i as int, snap@[i as int]);
                    lemma_tickets_model_update(snap0, i as int, snap@[i as int]);
                    assert(tickets_model(snap@) =~= ts0.update(i as int, e2));
                }
                let ghost ts2 = tickets_model(snap@);
                proof {
                    // The amended store is still well formed: identifiers
                    // are untouched and the title stays non-blank.
                    assert forall|k: int| 0 <= k < ts2.len() implies ticket_ok(#[trigger] ts2[k])
                        && dec_value(ts2[k].id) < pm0.next_seq by {
                        if k != i {
                            assert(ts2[k] == ts0[k]);
                        }
                    }
                    assert forall|k1: int, k2: int| 0 <= k1 < k2 < ts2.len() implies dec_value(
                        (#[trigger] ts2[k1]).id,
                    ) < dec_value((#[trigger] ts2[k2]).id) by {
                        assert(ts2[k1].id == ts0[k1].id);
                        assert(ts2[k2].id == ts0[k2].id);
                    }
                    let c = CommitModel { message: "amend "@ + ticket_id@, time: now, tickets: ts2 };
                    assert(c.wf(pm0.next_seq));
                    crate::history::lemma_record_wf(pm0, c);
                }
                p.record(msg, now, snap);
                let ghost pm2 = p@;
                self.projects.insert(active, p);
                proof {
                    assert(pm2 =~= pm0.record(
                        CommitModel {
                            message: "amend "@ + ticket_id@,
                            time: now,
                            tickets: ts2,
                        },
                    ));
                    assert(pm2.wf());
                    let pv = self.projects@[active as int];
                    lemma_reinsert(old(self).projects@, active as int, pv);
                    lemma_projects_model_update(old(self).projects@, active as int, pv);
                    assert(self@.projects =~= w0.projects.update(active as int, pm2));
                    assert(ticket_index(w0.tickets(), ticket_id@) == i as int);
                    assert(self@ =~= w0.spec_amend(
                        ticket_id@,
                        opt_view(title),
                        opt_view(body),
                        priority,
                    ));
                    assert(self@.wf());
                }
                Ok(())
            },
        }
    }

    /// Set the status of the ticket bearing `ticket_id`. Exactly one
    /// commit is recorded, also when the status does not change.
    pub fn mv(&mut self, ticket_id: &str, status: Status) -> (r: Result<(), MvError>)
        requires
            old(self)@.wf(),
        ensures
            final(self)@.wf(),
            !old(self)@.initialized ==> r == Err::<(), MvError>(
                MvError::TixError(TixError::NotARepository),
            ) && final(self)@ == old(self)@,
            old(self)@.initialized && !is_id(ticket_id@) ==> r == Err::<(), MvError>(
                MvError::TixError(TixError::InvalidTicketId),
            ) && final(self)@ == old(self)@,
            old(self)@.initialized && is_id(ticket_id@) && lookup_ticket(
                old(self)@.tickets(),
                ticket_id@,
            ) is None ==> r == Err::<(), MvError>(MvError::TixError(TixError::TicketNotFound))
                && final(self)@ == old(self)@,
            old(self)@.initialized && is_id(ticket_id@) && lookup_ticket(
                old(self)@.tickets(),
                ticket_id@,
            ) is Some ==> r == Ok::<(), MvError>(()) && final(self)@ == old(self)@.spec_mv(
                ticket_id@,
                status,
            ),
    {
        if !self.initialized {
            return Err(MvError::TixError(TixError::NotARepository));
        }
        if !is_id_str(ticket_id) {
            return Err(MvError::TixError(TixError::InvalidTicketId));
        }
        let now = self.now;
        let active = self.active;
        let ghost w0 = self@;
        let mut p = self.projects.remove(active);
        let ghost pm0 = p@;
        proof {
            assert(pm0 == w0.active_project());
            assert(tickets_wf(pm0.tickets(), pm0.next_seq));
            lemma_wf_ids_distinct(pm0.tickets(), pm0.next_seq);
        }
        let mut snap = p.snapshot();
        let ghost ts0 = tickets_model(snap@);
        let found = find_ticket(&snap, ticket_id);
        match found {
            None => {
                self.projects.insert(active, p);
                proof {
                    lemma_lookup_absent(ts0, ticket_id@);
                    lemma_reinsert(old(self).projects@, active as int, old(self).projects@[
                        active as int
                    ]);
                    assert(self.projects@ =~= old(self).projects@);
                    assert(self@ =~= w0);
                }
                Err(MvError::TixError(TixError::TicketNotFound))
            },
            Some(i) => {
                proof {
                    lemma_lookup_found(ts0, ticket_id@, i as int);
                }
                let ghost snap0 = snap@;
                let mut e = snap.remove(i);
                let ghost e0 = e@;
                e.status = status;
                let ghost e2 = e@;
                snap.insert(i, e);
                let mut msg = String::from_str("mv ");
                msg.append(ticket_id);
                msg.append(" ");
                msg.append(status.name());
                proof {
                    assert(e0 == ts0[i as int]);
                    assert(e2 =~= TicketModel { status, ..e0 });
                    lemma_reinsert(snap0, i as int, snap@[i as int]);
                    lemma_tickets_model_update(snap0, i as int, snap@[i as int]);
                    assert(tickets_model(snap@) =~= ts0.update(i as int, e2));
                }
                let ghost ts2 = tickets_model(snap@);
                proof {
                    assert forall|k: int| 0 <= k < ts2.len() implies ticket_ok(#[trigger] ts2[k])
                        && dec_value(ts2[k].id) < pm0.next_seq by {
                        if k != i {
                            assert(ts2[k] == ts0[k]);
                        }
                    }
                    assert forall|k1: int, k2: int| 0 <= k1 < k2 < ts2.len() implies dec_value(
                        (#[trigger] ts2[k1]).id,
                    ) < dec_value((#[trigger] ts2[k2]).id) by {
                        assert(ts2[k1].id == ts0[k1].id);
                        assert(ts2[k2].id == ts0[k2].id);
                    }
                    let c = CommitModel {
                        message: "mv "@ + ticket_id@ + " "@ + status.spec_name(),
                        time: now,
                        tickets: ts2,
                    };
                    assert(c.wf(pm0.next_seq));
                    crate::history::lemma_record_wf(pm0, c);
                }
                p.record(msg, now, snap);
                let ghost pm2 = p@;
                self.projects.insert(active, p);
                proof {
                    assert(msg@ == "mv "@ + ticket_id@ + " "@ + status.spec_name());
                    assert(pm2 =~= pm0.record(
                        CommitModel {
                            message: "mv "@ + ticket_id@ + " "@ + status.spec_name(),
                            time: now,
                            tickets: ts2,
                        },
                    ));
                    assert(pm2.wf());
                    let pv = self.projects@[active as int];
                    lemma_reinsert(old(self).projects@, active as int, pv);
                    lemma_projects_model_update(old(self).projects@, active as int, pv);
                    assert(self@.projects =~= w0.projects.update(active as int, pm2));
                    assert(ticket_index(w0.tickets(), ticket_id@) == i as int);
                    assert(self@ =~= w0.spec_mv(ticket_id@, status));
                    assert(self@.wf());
                }
                Ok(())
            },
        }
    }

    /// List the active project's tickets that pass the filters, in store
    /// order (ascending identifier). An empty status filter defaults to
    /// `todo` and `doing`; an empty priority filter lets every priority through.
    /// The `_long` flag only concerns rendering and has no effect here.
    pub fn list(&self, _long: bool, statuses: Vec<Status>, priorities: Vec<Priority>) -> (r: Result<
        Vec<Ticket>,
        ListError,
    >)
        requires
            self@.wf(),
        ensures
            !self@.initialized ==> r == Err::<Vec<Ticket>, ListError>(
                ListError::TixError(TixError::NotARepository),
            ),
            self@.initialized ==> r is Ok && tickets_model((r->Ok_0)@) == select(
                self@.tickets(),
                effective_statuses(statuses@),
                priorities@,
            ),
    {
        if !self.initialized {
            return Err(ListError::TixError(TixError::NotARepository));
        }
        let sts: Vec<Status> = if statuses.len() == 0 {
            let mut v: Vec<Status> = Vec::new();
            v.push(Status::todo);
            v.push(Status::doing);
            proof {
                assert(v@ =~= seq![Status::todo, Status::doing]);
            }
            v
        } else {
            statuses
        };
        let ghost eff = effective_statuses(statuses@);
        proof {
            assert(sts@ == eff);
        }
        let p = &self.projects[self.active];
        if p.cursor == 0 {
            let out: Vec<Ticket> = Vec::new();
            proof {
                assert(tickets_model(out@) =~= select(self@.tickets(), eff, priorities@));
            }
            return Ok(out);
        }
        let ts = &p.commits[p.cursor - 1].tickets;
        proof {
            assert(tickets_model(ts@) == self@.tickets());
        }
        let ghost full = tickets_model(ts@);
        let mut out: Vec<Ticket> = Vec::new();
        let mut i: usize = 0;
        while i < ts.len()
            invariant
                i <= ts@.len(),
                full == tickets_model(ts@),
                sts@ == eff,
                tickets_model(out@) == select(full.take(i as int), eff, priorities@),
            decreases ts@.len() - i,
        {
            let t = &ts[i];
            let keep = status_contains(&sts, t.status) && (priorities.len() == 0
                || priority_contains(&priorities, t.priority));
            let ghost out0 = tickets_model(out@);
            if keep {
                let c = t.clone();
                out.push(c);
                proof {
                    lemma_tickets_model_push(out@.drop_last(), out@.last());
                    assert(out@.drop_last() =~= out@.subrange(0, out@.len() - 1));
                    assert(tickets_model(out@) == out0.push(full[i as int]));
                }
            }
            proof {
                assert(full.take(i + 1).drop_last() =~= full.take(i as int));
                assert(full.take(i + 1).last() == full[i as int]);
                assert(passes(full[i as int], eff, priorities@) == keep);
                assert(tickets_model(out@) == select(full.take(i + 1), eff, priorities@));
            }
            i = i + 1;
        }
        proof {
            assert(full.take(full.len() as int) =~= full);
        }
        Ok(out)
    }

    /// Undo the last applied change in the active project: move the cursor
    /// one commit back. Fails when nothing is applied.
    pub fn undo(&mut self) -> (r: Result<(), TixError>)
        requires
            old(self)@.wf(),
        ensures
            final(self)@.wf(),
            !old(self)@.initialized ==> r == Err::<(), TixError>(TixError::NotARepository)
                && final(self)@ == old(self)@,
            old(self)@.initialized && !old(self)@.active_project().undo_ok() ==> r == Err::<
                (),
                TixError,
            >(TixError::CommandFailed) && final(self)@ == old(self)@,
            old(self)@.initialized && old(self)@.active_project().undo_ok() ==> r == Ok::<
                (),
                TixError,
            >(()) && final(self)@ == old(self)@.spec_undo(),
    {
        if !self.initialized {
            return Err(TixError::NotARepository);
        }
        let active = self.active;
        let ghost w0 = self@;
        let mut p = self.projects.remove(active);
        let ghost pm0 = p@;
        proof {
            assert(pm0 == w0.active_project());
        }
        if p.cursor == 0 {
            self.projects.insert(active, p);
            proof {
                lemma_reinsert(old(self).projects@, active as int, old(self).projects@[
                    active as int
                ]);
                assert(self.projects@ =~= old(self).projects@);
                assert(self@ =~= w0);
            }
            return Err(TixError::CommandFailed);
        }
        p.cursor = p.cursor - 1;
        let ghost pm2 = p@;
        self.projects.insert(active, p);
        proof {
            assert(pm2 =~= pm0.undone());
            let pv = self.projects@[active as int];
            lemma_reinsert(old(self).projects@, active as int, pv);
            lemma_projects_model_update(old(self).projects@, active as int, pv);
            assert(self@.projects =~= w0.projects.update(active as int, pm2));
            assert(self@ =~= w0.spec_undo());
        }
        Ok(())
    }

    /// Redo the most recently undone change in the active project: move
    /// the cursor one commit forward. Fails when no undone commit is
    /// pending.
    pub fn redo(&mut self) -> (r: Result<(), TixError>)
        requires
            old(self)@.wf(),
        ensures
            final(self)@.wf(),
            !old(self)@.initialized ==> r == Err::<(), TixError>(TixError::NotARepository)
                && final(self)@ == old(self)@,
            old(self)@.initialized && !old(self)@.active_project().redo_ok() ==> r == Err::<
                (),
                TixError,
            >(TixError::CommandFailed) && final(self)@ == old(self)@,
            old(self)@.initialized && old(self)@.active_project().redo_ok() ==> r == Ok::<
                (),
                TixError,
            >(()) && final(self)@ == old(self)@.spec_redo(),
    {
        if !self.initialized {
            return Err(TixError::NotARepository);
        }
        let active = self.active;
        let ghost w0 = self@;
        let mut p = self.projects.remove(active);
        let ghost pm0 = p@;
        proof {
            assert(pm0 == w0.active_project());
        }
        if p.cursor >= p.commits.len() {
            self.projects.insert(active, p);
            proof {
                lemma_reinsert(old(self).projects@, active as int, old(self).projects@[
                    active as int
                ]);
                assert(self.projects@ =~= old(self).projects@);
                assert(self@ =~= w0);
            }
            return Err(TixError::CommandFailed);
        }
        p.cursor = p.cursor + 1;
        let ghost pm2 = p@;
        self.projects.insert(active, p);
        proof {
            assert(pm2 =~= pm0.redone());
            let pv = self.projects@[active as int];
            lemma_reinsert(old(self).projects@, active as int, pv);
            lemma_projects_model_update(old(self).projects@, active as int, pv);
            assert(self@.projects =~= w0.projects.update(active as int, pm2));
            assert(self@ =~= w0.spec_redo());
        }
        Ok(())
    }
}

} // verus!
