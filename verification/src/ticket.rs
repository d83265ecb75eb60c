//! Ticket records and their enumerated fields.
//!
//! A ticket has an identifier, a title, an optional body, a priority and a
//! status. Priority and status are closed enumerations; each has a legacy
//! one-byte wire encoding that is kept only at the serialization boundary.

use vstd::prelude::*;

verus! {

/// Priority of a ticket. `a` is the most urgent, `z` the least and the
/// default. `Unspecified` stands for "no priority given"; operations that
/// accept it fall back to `z`.
#[allow(non_camel_case_types)]
#[derive(Clone, Copy, PartialEq, Eq, Structural, Debug)]
pub enum Priority {
    a,
    b,
    c,
    z,
    Unspecified,
}

impl Priority {
    /// The legacy wire byte for this priority; `Unspecified` encodes as 0.
    pub open spec fn spec_byte(self) -> u8 {
        match self {
            Priority::a => 97,
            Priority::b => 98,
            Priority::c => 99,
            Priority::z => 122,
            Priority::Unspecified => 0,
        }
    }

    /// Encode this priority as its wire byte.
    pub fn byte(self) -> (b: u8)
        ensures
            b == self.spec_byte(),
    {
        match self {
            Priority::a => 97,
            Priority::b => 98,
            Priority::c => 99,
            Priority::z => 122,
            Priority::Unspecified => 0,
        }
    }

    /// The priority that actually applies: `Unspecified` falls back to `z`.
    pub open spec fn spec_effective(self) -> Priority {
        if self is Unspecified {
            Priority::z
        } else {
            self
        }
    }

    /// Resolve `Unspecified` to the default priority `z`.
    pub fn effective(self) -> (p: Priority)
        ensures
            p == self.spec_effective(),
    {
        match self {
            Priority::Unspecified => Priority::z,
            other => other,
        }
    }

    /// What decoding a wire byte yields: the matching priority, or `z` for
    /// any byte outside the encoding.
    pub open spec fn spec_from_byte(b: u8) -> Priority {
        if b == 97 {
            Priority::a
        } else if b == 98 {
            Priority::b
        } else if b == 99 {
            Priority::c
        } else {
            Priority::z
        }
    }
}

impl From<u8> for Priority {
    /// Decode a legacy wire byte; anything outside the encoding falls back
    /// to the default priority `z`.
    fn from(b: u8) -> (p: Priority)
        ensures
            p == Priority::spec_from_byte(b),
    {
        if b == 97 {
            Priority::a
        } else if b == 98 {
            Priority::b
        } else if b == 99 {
            Priority::c
        } else {
            Priority::z
        }
    }
}

impl vstd::std_specs::convert::FromSpecImpl<u8> for Priority {
    open spec fn obeys_from_spec() -> bool {
        true
    }

    open spec fn from_spec(b: u8) -> Priority {
        Priority::spec_from_byte(b)
    }
}

/// Workflow status of a ticket. A ticket is never deleted; `done` models
/// completion.
#[allow(non_camel_case_types)]
#[derive(Clone, Copy, PartialEq, Eq, Structural, Debug)]
pub enum Status {
    backlog,
    todo,
    doing,
    done,
}

impl Status {
    /// The legacy wire byte for this status.
    pub open spec fn spec_byte(self) -> u8 {
        match self {
            Status::backlog => 98,
            Status::todo => 116,
            Status::doing => 119,
            Status::done => 100,
        }
    }

    /// Encode this status as its wire byte.
    pub fn byte(self) -> (b: u8)
        ensures
            b == self.spec_byte(),
    {
        match self {
            Status::backlog => 98,
            Status::todo => 116,
            Status::doing => 119,
            Status::done => 100,
        }
    }

    /// The word this status is written as.
    pub open spec fn spec_name(self) -> Seq<char> {
        match self {
            Status::backlog => "backlog"@,
            Status::todo => "todo"@,
            Status::doing => "doing"@,
            Status::done => "done"@,
        }
    }

    /// The word this status is written as.
    pub fn name(self) -> (r: &'static str)
        ensures
            r@ == self.spec_name(),
    {
        match self {
            Status::backlog => "backlog",
            Status::todo => "todo",
            Status::doing => "doing",
            Status::done => "done",
        }
    }

    /// What decoding a wire byte yields: the matching status, or `todo` for
    /// any byte outside the encoding.
    pub open spec fn spec_from_byte(b: u8) -> Status {
        if b == 98 {
            Status::backlog
        } else if b == 116 {
            Status::todo
        } else if b == 119 {
            Status::doing
        } else if b == 100 {
            Status::done
        } else {
            Status::todo
        }
    }
}

impl From<u8> for Status {
    /// Decode a legacy wire byte; anything outside the encoding falls back
    /// to `todo`.
    fn from(b: u8) -> (s: Status)
        ensures
            s == Status::spec_from_byte(b),
    {
        if b == 98 {
            Status::backlog
        } else if b == 116 {
            Status::todo
        } else if b == 119 {
            Status::doing
        } else if b == 100 {
            Status::done
        } else {
            Status::todo
        }
    }
}

impl vstd::std_specs::convert::FromSpecImpl<u8> for Status {
    open spec fn obeys_from_spec() -> bool {
        true
    }

    open spec fn from_spec(b: u8) -> Status {
        Status::spec_from_byte(b)
    }
}

/// Encoding a list of priorities as wire bytes.
pub trait PriorityVecExt {
    /// The byte sequence this list encodes to.
    spec fn spec_to_bytes(&self) -> Seq<u8>;

    /// Encode each element as its wire byte.
    fn to_bytes(&self) -> (r: Vec<u8>)
        ensures
            r@ == self.spec_to_bytes(),
    ;
}

impl PriorityVecExt for Vec<Priority> {
    open spec fn spec_to_bytes(&self) -> Seq<u8> {
        self@.map_values(|p: Priority| p.spec_byte())
    }

    fn to_bytes(&self) -> (r: Vec<u8>) {
        let mut r: Vec<u8> = Vec::new();
        let mut i: usize = 0;
        while i < self.len()
            invariant
                i <= self@.len(),
                r@ == self@.take(i as int).map_values(|p: Priority| p.spec_byte()),
            decreases self@.len() - i,
        {
            r.push(self[i].byte());
            proof {
                assert(self@.take(i + 1) =~= self@.take(i as int).push(self@[i as int]));
                assert(r@ =~= self@.take(i + 1).map_values(|p: Priority| p.spec_byte()));
            }
            i = i + 1;
        }
        proof {
            assert(self@.take(self@.len() as int) =~= self@);
        }
        r
    }
}

/// Encoding a list of statuses as wire bytes.
pub trait StatusVecExt {
    /// The byte sequence this list encodes to.
    spec fn spec_to_bytes(&self) -> Seq<u8>;

    /// Encode each element as its wire byte.
    fn to_bytes(&self) -> (r: Vec<u8>)
        ensures
            r@ == self.spec_to_bytes(),
    ;
}

impl StatusVecExt for Vec<Status> {
    open spec fn spec_to_bytes(&self) -> Seq<u8> {
        self@.map_values(|s: Status| s.spec_byte())
    }

    fn to_bytes(&self) -> (r: Vec<u8>) {
        let mut r: Vec<u8> = Vec::new();
        let mut i: usize = 0;
        while i < self.len()
            invariant
                i <= self@.len(),
                r@ == self@.take(i as int).map_values(|s: Status| s.spec_byte()),
            decreases self@.len() - i,
        {
            r.push(self[i].byte());
            proof {
                assert(self@.take(i + 1) =~= self@.take(i as int).push(self@[i as int]));
                assert(r@ =~= self@.take(i + 1).map_values(|s: Status| s.spec_byte()));
            }
            i = i + 1;
        }
        proof {
            assert(self@.take(self@.len() as int) =~= self@);
        }
        r
    }
}

/// The mathematical value of a ticket: every string replaced by its
/// character sequence.
#[verifier::ext_equal]
pub ghost struct TicketModel {
    pub id: Seq<char>,
    pub title: Seq<char>,
    pub body: Option<Seq<char>>,
    pub priority: Priority,
    pub status: Status,
}

/// One ticket record.
#[derive(Debug)]
pub struct Ticket {
    /// Unique within a project, fixed at creation, sortable by creation time.
    pub id: String,
    /// Never blank: it holds at least one non-whitespace character.
    pub title: String,
    /// Optional free-form text.
    pub body: Option<String>,
    pub priority: Priority,
    pub status: Status,
}

impl View for Ticket {
    type V = TicketModel;

    open spec fn view(&self) -> TicketModel {
        TicketModel {
            id: self.id@,
            title: self.title@,
            body: if self.body is Some {
                Some(self.body->0@)
            } else {
                None
            },
            priority: self.priority,
            status: self.status,
        }
    }
}

impl Clone for Ticket {
    /// An exact copy: the clone has the same model as the original.
    fn clone(&self) -> (r: Ticket)
        ensures
            r@ == self@,
    {
        Ticket {
            id: self.id.clone(),
            title: self.title.clone(),
            body: match &self.body {
                Some(b) => Some(b.clone()),
                None => None,
            },
            priority: self.priority,
            status: self.status,
        }
    }
}

/// The sequence of ticket models behind a vector of tickets.
pub open spec fn tickets_model(ts: Seq<Ticket>) -> Seq<TicketModel> {
    ts.map_values(|t: Ticket| t@)
}

/// Pushing a ticket commutes with taking models.
pub proof fn lemma_tickets_model_push(s: Seq<Ticket>, t: Ticket)
    ensures
        tickets_model(s.push(t)) == tickets_model(s).push(t@),
{
    assert forall|k: int| 0 <= k < s.len() + 1 implies tickets_model(s.push(t))[k]
        == tickets_model(s).push(t@)[k] by {}
    assert(tickets_model(s.push(t)) =~= tickets_model(s).push(t@));
}

/// Updating a ticket commutes with taking models.
pub proof fn lemma_tickets_model_update(s: Seq<Ticket>, i: int, t: Ticket)
    requires
        0 <= i < s.len(),
    ensures
        tickets_model(s.update(i, t)) == tickets_model(s).update(i, t@),
{
    assert forall|k: int| 0 <= k < s.len() implies tickets_model(s.update(i, t))[k]
        == tickets_model(s).update(i, t@)[k] by {}
    assert(tickets_model(s.update(i, t)) =~= tickets_model(s).update(i, t@));
}

/// Copy a whole ticket store snapshot.
pub fn clone_ticket_vec(v: &Vec<Ticket>) -> (r: Vec<Ticket>)
    ensures
        tickets_model(r@) == tickets_model(v@),
{
    let mut r: Vec<Ticket> = Vec::new();
    let mut i: usize = 0;
    while i < v.len()
        invariant
            i <= v@.len(),
            r@.len() == i,
            forall|k: int| 0 <= k < i ==> (#[trigger] r@[k])@ == v@[k]@,
        decreases v@.len() - i,
    {
        let c = v[i].clone();
        r.push(c);
        i = i + 1;
    }
    proof {
        assert forall|k: int| 0 <= k < v@.len() implies tickets_model(r@)[k] == tickets_model(
            v@,
        )[k] by {
            assert(r@[k]@ == v@[k]@);
        }
        assert(tickets_model(r@) =~= tickets_model(v@));
    }
    r
}

} // verus!
