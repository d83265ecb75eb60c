//! Parsing the ticket template a text editor hands back.
//!
//! The template is a header between two `---` lines, followed by the
//! body. The header carries `Title:` and `Priority:` fields; body lines
//! starting with `#` are comments and are dropped. The caller (which
//! owns the editor subprocess) passes the file's text in and receives
//! the title, the optional body, and the priority.

use vstd::prelude::*;
use vstd::string::StrSliceExecFns;
use vstd::string::StringExecFns;
use crate::text::{is_blank, is_space};
use crate::ticket::Priority;

verus! {

/// The index of the first line feed at or after `i`.
pub open spec fn nl_at(s: Seq<char>, i: int) -> int
    decreases s.len() - i,
{
    if 0 <= i < s.len() && s[i] != '\n' {
        nl_at(s, i + 1)
    } else {
        i
    }
}

/// Whether `p` is a prefix of `s`.
pub open spec fn starts_with(s: Seq<char>, p: Seq<char>) -> bool {
    p.len() <= s.len() && s.take(p.len() as int) == p
}

/// The first index at or after `i` holding something other than
/// whitespace.
pub open spec fn trim_lo(s: Seq<char>, i: int) -> int
    decreases s.len() - i,
{
    if 0 <= i < s.len() && is_space(s[i]) {
        trim_lo(s, i + 1)
    } else {
        i
    }
}

/// The index just after the last non-whitespace character before `i`.
pub open spec fn trim_hi(s: Seq<char>, i: int) -> int
    decreases i,
{
    if 0 < i <= s.len() && is_space(s[i - 1]) {
        trim_hi(s, i - 1)
    } else {
        i
    }
}

/// `s` without leading and trailing whitespace.
pub open spec fn spec_trim(s: Seq<char>) -> Seq<char> {
    let lo = trim_lo(s, 0);
    let hi = trim_hi(s, s.len() as int);
    if lo <= hi {
        s.subrange(lo, hi)
    } else {
        Seq::empty()
    }
}

/// The priority a `Priority:` value denotes: one of the four letters in
/// either case; anything else means "use the default".
pub open spec fn spec_priority_token(t: Seq<char>) -> Priority {
    if t.len() == 1 && (t[0] == 'a' || t[0] == 'A') {
        Priority::a
    } else if t.len() == 1 && (t[0] == 'b' || t[0] == 'B') {
        Priority::b
    } else if t.len() == 1 && (t[0] == 'c' || t[0] == 'C') {
        Priority::c
    } else if t.len() == 1 && (t[0] == 'z' || t[0] == 'Z') {
        Priority::z
    } else {
        Priority::Unspecified
    }
}

/// The parser's state after some lines.
#[verifier::ext_equal]
pub ghost struct TemplateState {
    pub title: Seq<char>,
    pub priority: Priority,
    pub in_header: bool,
    pub in_body: bool,
    pub body: Seq<Seq<char>>,
}

/// The state before any line.
pub open spec fn template_init() -> TemplateState {
    TemplateState {
        title: Seq::empty(),
        priority: Priority::z,
        in_header: false,
        in_body: false,
        body: Seq::empty(),
    }
}

/// One line of the template applied to the parser state.
///
/// A `---` line toggles into the header, or out of it and into the body.
/// Body lines that are not comments are collected. Header lines may set
/// the title or the priority.
pub open spec fn step_line(st: TemplateState, line: Seq<char>) -> TemplateState {
    if starts_with(line, "---"@) {
        if !st.in_header {
            TemplateState { in_header: true, ..st }
        } else {
            TemplateState { in_header: false, in_body: true, ..st }
        }
    } else if st.in_body {
        if !starts_with(line, "#"@) {
            TemplateState { body: st.body.push(line), ..st }
        } else {
            st
        }
    } else if st.in_header {
        if starts_with(line, "Title:"@) {
            TemplateState { title: spec_trim(line.skip(6)), ..st }
        } else if starts_with(line, "Priority:"@) {
            TemplateState { priority: spec_priority_token(spec_trim(line.skip(9))), ..st }
        } else {
            st
        }
    } else {
        st
    }
}

/// The line beginning at `i` (its line feed at `e`), with a carriage
/// return before the line feed stripped.
pub open spec fn line_at(s: Seq<char>, i: int, e: int) -> Seq<char> {
    if e < s.len() && e - 1 >= i && s[e - 1] == '\r' {
        s.subrange(i, e - 1)
    } else {
        s.subrange(i, e)
    }
}

/// A line feed position never precedes where the search began, nor
/// passes the end of the text.
proof fn lemma_nl_bounds(s: Seq<char>, i: int)
    requires
        0 <= i <= s.len(),
    ensures
        i <= nl_at(s, i) <= s.len(),
    decreases s.len() - i,
{
    if i < s.len() && s[i] != '\n' {
        lemma_nl_bounds(s, i + 1);
    }
}

/// The parser state after all lines from position `i` on.
pub open spec fn parse_state(s: Seq<char>, i: int, st: TemplateState) -> TemplateState
    decreases s.len() - i,
    via parse_state_dec
{
    if i >= s.len() || i < 0 {
        st
    } else {
        let e = nl_at(s, i);
        let st2 = step_line(st, line_at(s, i, e));
        if e >= s.len() {
            st2
        } else {
            parse_state(s, e + 1, st2)
        }
    }
}

#[via_fn]
proof fn parse_state_dec(s: Seq<char>, i: int, st: TemplateState) {
    if 0 <= i < s.len() {
        lemma_nl_bounds(s, i);
    }
}

/// The collected body lines joined with line feeds.
pub open spec fn spec_join(ls: Seq<Seq<char>>) -> Seq<char>
    decreases ls.len(),
{
    if ls.len() == 0 {
        Seq::empty()
    } else if ls.len() == 1 {
        ls[0]
    } else {
        spec_join(ls.drop_last()) + "\n"@ + ls.last()
    }
}

/// What parsing a whole template yields: the (trimmed) title, the body
/// unless it is blank, and the priority.
pub open spec fn spec_parse_template(s: Seq<char>) -> (Seq<char>, Option<Seq<char>>, Priority) {
    let st = parse_state(s, 0, template_init());
    let joined = spec_join(st.body);
    (st.title, if is_blank(joined) { None } else { Some(joined) }, st.priority)
}

/// Whether the accumulator faithfully mirrors the parser state.
spec fn acc_ok(acc: TemplateAcc, st: TemplateState) -> bool {
    &&& acc.title@ == st.title
    &&& acc.priority == st.priority
    &&& acc.in_header == st.in_header
    &&& acc.in_body == st.in_body
    &&& acc.body@ == spec_join(st.body)
    &&& acc.body_any == (st.body.len() > 0)
}

/// The executable parser state.
struct TemplateAcc {
    title: String,
    priority: Priority,
    in_header: bool,
    in_body: bool,
    body: String,
    body_any: bool,
}

/// Decide whether `p` is a prefix of `a`.
fn str_starts_with(a: &str, p: &str) -> (r: bool)
    ensures
        r == starts_with(a@, p@),
{
    let n = a.unicode_len();
    let m = p.unicode_len();
    if m > n {
        return false;
    }
    let mut i: usize = 0;
    while i < m
        invariant
            n == a@.len(),
            m == p@.len(),
            m <= n,
            i <= m,
            forall|k: int| 0 <= k < i ==> a@[k] == p@[k],
        decreases m - i,
    {
        if a.get_char(i) != p.get_char(i) {
            proof {
                assert(a@.take(m as int)[i as int] != p@[i as int]);
            }
            return false;
        }
        i = i + 1;
    }
    proof {
        assert(a@.take(m as int) =~= p@);
    }
    true
}

/// Strip leading and trailing whitespace.
fn trim_str<'a>(a: &'a str) -> (r: &'a str)
    ensures
        r@ == spec_trim(a@),
{
    let n = a.unicode_len();
    let mut lo: usize = 0;
    let mut scanning = true;
    while scanning && lo < n
        invariant
            n == a@.len(),
            lo <= n,
            trim_lo(a@, 0) == trim_lo(a@, lo as int),
            !scanning ==> trim_lo(a@, lo as int) == lo,
        decreases n - lo, if scanning { 1int } else { 0int },
    {
        let c = a.get_char(lo);
        if c == ' ' || c == '\t' || c == '\n' || c == '\r' {
            proof {
                assert(is_space(a@[lo as int]));
                assert(trim_lo(a@, lo as int) == trim_lo(a@, lo + 1));
            }
            lo = lo + 1;
        } else {
            proof {
                assert(trim_lo(a@, lo as int) == lo);
            }
            scanning = false;
        }
    }
    proof {
        assert(trim_lo(a@, lo as int) == lo);
        assert(trim_lo(a@, 0) == lo);
    }
    let mut hi: usize = n;
    let mut scanning_hi = true;
    while scanning_hi && hi > 0
        invariant
            n == a@.len(),
            hi <= n,
            trim_hi(a@, n as int) == trim_hi(a@, hi as int),
            !scanning_hi ==> trim_hi(a@, hi as int) == hi,
        decreases hi, if scanning_hi { 1int } else { 0int },
    {
        let c = a.get_char(hi - 1);
        if c == ' ' || c == '\t' || c == '\n' || c == '\r' {
            proof {
                assert(is_space(a@[hi - 1]));
                assert(trim_hi(a@, hi as int) == trim_hi(a@, hi - 1));
            }
            hi = hi - 1;
        } else {
            proof {
                assert(trim_hi(a@, hi as int) == hi);
            }
            scanning_hi = false;
        }
    }
    proof {
        assert(trim_hi(a@, hi as int) == hi);
        assert(trim_hi(a@, n as int) == hi);
    }
    if lo <= hi {
        a.substring_char(lo, hi)
    } else {
        proof {
            reveal_strlit("");
            assert(""@ =~= Seq::<char>::empty());
        }
        ""
    }
}

/// Read a priority value token.
fn priority_token(t: &str) -> (p: Priority)
    ensures
        p == spec_priority_token(t@),
{
    if t.unicode_len() != 1 {
        return Priority::Unspecified;
    }
    let c = t.get_char(0);
    if c == 'a' || c == 'A' {
        Priority::a
    } else if c == 'b' || c == 'B' {
        Priority::b
    } else if c == 'c' || c == 'C' {
        Priority::c
    } else if c == 'z' || c == 'Z' {
        Priority::z
    } else {
        Priority::Unspecified
    }
}

impl TemplateAcc {
    /// Apply one line.
    fn apply_line(&mut self, line: &str, Ghost(st): Ghost<TemplateState>)
        requires
            acc_ok(*old(self), st),
        ensures
            acc_ok(*final(self), step_line(st, line@)),
    {
        if str_starts_with(line, "---") {
            proof {
                reveal_strlit("---");
            }
            if !self.in_header {
                self.in_header = true;
            } else {
                self.in_header = false;
                self.in_body = true;
            }
            return;
        }
        proof {
            reveal_strlit("---");
        }
        if self.in_body {
            if !str_starts_with(line, "#") {
                if self.body_any {
                    self.body.append("\n");
                }
                self.body.append(line);
                self.body_any = true;
                proof {
                    reveal_strlit("#");
                    if st.body.len() > 0 {
                        assert(st.body.push(line@).drop_last() =~= st.body);
                        assert(spec_join(st.body.push(line@)) == spec_join(st.body) + "\n"@
                            + line@);
                    } else {
                        assert(st.body.push(line@).len() == 1);
                        assert(spec_join(st.body.push(line@)) == line@);
                        assert(self.body@ =~= line@);
                    }
                }
            } else {
                proof {
                    reveal_strlit("#");
                }
            }
            return;
        }
        if self.in_header {
            let n = line.unicode_len();
            if str_starts_with(line, "Title:") {
                proof {
                    reveal_strlit("Title:");
                    assert("Title:"@.len() == 6);
                }
                let rest = line.substring_char(6, n);
                proof {
                    assert(rest@ =~= line@.skip(6));
                }
                let t = trim_str(rest);
                self.title = t.to_owned();
            } else if str_starts_with(line, "Priority:") {
                proof {
                    reveal_strlit("Title:");
                    reveal_strlit("Priority:");
                    assert("Priority:"@.len() == 9);
                }
                let rest = line.substring_char(9, n);
                proof {
                    assert(rest@ =~= line@.skip(9));
                }
                let t = trim_str(rest);
                self.priority = priority_token(t);
            } else {
                proof {
                    reveal_strlit("Title:");
                    reveal_strlit("Priority:");
                }
            }
            return;
        }
    }
}

/// Parse an edited ticket template into its title, optional body and
/// priority.
pub fn parse_ticket_template(content: &str) -> (r: (String, Option<String>, Priority))
    ensures
        ({
            let (title, body, priority) = spec_parse_template(content@);
            &&& r.0@ == title
            &&& (match r.1 {
                Some(b) => body == Some(b@),
                None => body is None,
            })
            &&& r.2 == priority
        }),
{
    let n = content.unicode_len();
    let mut acc = TemplateAcc {
        title: String::new(),
        priority: Priority::z,
        in_header: false,
        in_body: false,
        body: String::new(),
        body_any: false,
    };
    let ghost mut st = template_init();
    proof {
        assert(acc_ok(acc, st));
    }
    let mut start: usize = 0;
    let mut i: usize = 0;
    while i < n
        invariant
            n == content@.len(),
            start <= i <= n,
            acc_ok(acc, st),
            forall|k: int| start <= k < i ==> content@[k] != '\n',
            parse_state(content@, 0, template_init()) == parse_state(
                content@,
                start as int,
                st,
            ),
        decreases n - i,
    {
        let c = content.get_char(i);
        if c == '\n' {
            proof {
                lemma_nl_run(content@, start as int, i as int);
            }
            let line = if i > start && content.get_char(i - 1) == '\r' {
                content.substring_char(start, i - 1)
            } else {
                content.substring_char(start, i)
            };
            proof {
                assert(line@ == line_at(content@, start as int, i as int));
            }
            acc.apply_line(line, Ghost(st));
            proof {
                st = step_line(st, line@);
            }
            start = i + 1;
        }
        i = i + 1;
    }
    if start < n {
        proof {
            lemma_nl_run(content@, start as int, n as int);
        }
        let line = content.substring_char(start, n);
        proof {
            assert(line@ == line_at(content@, start as int, n as int));
        }
        acc.apply_line(line, Ghost(st));
        proof {
            st = step_line(st, line@);
        }
    }
    proof {
        assert(parse_state(content@, 0, template_init()) == st);
    }
    let body = if acc.body_any {
        if crate::text::is_blank_str(acc.body.as_str()) {
            None
        } else {
            Some(acc.body)
        }
    } else {
        proof {
            assert(is_blank(spec_join(st.body))) by {
                assert(spec_join(st.body) =~= Seq::<char>::empty());
            }
        }
        None
    };
    (acc.title, body, acc.priority)
}

/// A stretch without line feeds that ends at `e` (a line feed or the end
/// of the text) pins down where the line beginning at `a` ends.
proof fn lemma_nl_run(s: Seq<char>, a: int, e: int)
    requires
        0 <= a <= e <= s.len(),
        forall|k: int| a <= k < e ==> s[k] != '\n',
        e < s.len() ==> s[e] == '\n',
    ensures
        nl_at(s, a) == e,
    decreases e - a,
{
    if a < e {
        lemma_nl_run(s, a + 1, e);
    }
}

} // verus!
