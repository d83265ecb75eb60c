//! Rendering the commit history and parsing `since` time expressions.
//!
//! `log` walks the active project's applied commits newest-first and
//! renders each as text, in a one-line or a block form. An optional limit
//! caps the count; an optional `since` expression hides commits stamped
//! before a cutoff. The expression is either an absolute number of
//! seconds, or `<n> <unit> ago` with a unit of seconds, minutes, hours,
//! days or weeks.

use vstd::prelude::*;
use vstd::arithmetic::div_mod::lemma_fundamental_div_mod;
use vstd::string::StrSliceExecFns;
use vstd::string::StringExecFns;
use crate::error::{LogError, TixError};
use crate::history::CommitModel;
use crate::ids::{dec_plain, dec_value, digit_val, is_digit, render_dec};
use crate::workspace::{Workspace, WorkspaceModel};

verus! {

/// The end of the run of digit characters starting at `i`.
pub open spec fn digits_end(s: Seq<char>, i: int) -> int
    decreases s.len() - i,
{
    if 0 <= i < s.len() && is_digit(s[i]) {
        digits_end(s, i + 1)
    } else {
        i
    }
}

/// The end of the run of non-space characters starting at `i`.
pub open spec fn word_end(s: Seq<char>, i: int) -> int
    decreases s.len() - i,
{
    if 0 <= i < s.len() && s[i] != ' ' {
        word_end(s, i + 1)
    } else {
        i
    }
}

/// The length in seconds of a unit word, if it is one.
pub open spec fn unit_secs(w: Seq<char>) -> Option<u64> {
    if w == "second"@ || w == "seconds"@ {
        Some(1u64)
    } else if w == "minute"@ || w == "minutes"@ {
        Some(60u64)
    } else if w == "hour"@ || w == "hours"@ {
        Some(3600u64)
    } else if w == "day"@ || w == "days"@ {
        Some(86400u64)
    } else if w == "week"@ || w == "weeks"@ {
        Some(604800u64)
    } else {
        None
    }
}

/// What a `since` expression means at clock value `now`: the cutoff
/// timestamp below which commits are hidden. A bare numeral is an
/// absolute timestamp (and must fit in 64 bits); `<n> <unit> ago` counts
/// back from `now`, clamping at zero.
pub open spec fn spec_parse_since(s: Seq<char>, now: u64) -> Option<u64> {
    let d = digits_end(s, 0);
    if d == 0 {
        None
    } else if d == s.len() {
        if dec_value(s) <= u64::MAX {
            Some(dec_value(s) as u64)
        } else {
            None
        }
    } else if s[d] == ' ' {
        let u = word_end(s, d + 1);
        if u > d + 1 && u < s.len() && s[u] == ' ' && s.skip(u + 1) == "ago"@ {
            match unit_secs(s.subrange(d + 1, u)) {
                Some(k) => {
                    let total = dec_value(s.take(d)) * k;
                    if total >= now {
                        Some(0u64)
                    } else {
                        Some((now - total) as u64)
                    }
                },
                None => None,
            }
        } else {
            None
        }
    } else {
        None
    }
}

/// One rendered commit: `pos` is its zero-based position, so it is shown
/// as commit number `pos + 1`.
pub open spec fn render_entry(pos: int, c: CommitModel, oneline: bool) -> Seq<char> {
    if oneline {
        dec_plain((pos + 1) as nat) + " "@ + c.message + "\n"@
    } else {
        "commit "@ + dec_plain((pos + 1) as nat) + "\n"@ + "time "@ + dec_plain(c.time as nat)
            + "\n\n    "@ + c.message + "\n\n"@
    }
}

/// The rendered log of `cs[..j]`, newest first: each commit stamped at or
/// after `cutoff` is rendered and counts against `limit` (a non-positive
/// limit never runs out).
pub open spec fn render_from(
    cs: Seq<CommitModel>,
    j: int,
    oneline: bool,
    limit: int,
    cutoff: u64,
) -> Seq<char>
    decreases (if j >= 0 { j } else { 0 }),
{
    if j <= 0 || limit == 0 {
        Seq::empty()
    } else {
        let c = cs[j - 1];
        if c.time >= cutoff {
            render_entry(j - 1, c, oneline) + render_from(cs, j - 1, oneline, limit - 1, cutoff)
        } else {
            render_from(cs, j - 1, oneline, limit, cutoff)
        }
    }
}

/// The limit that actually applies: a positive count, or none.
pub open spec fn spec_limit(limit: Option<i32>) -> int {
    match limit {
        Some(n) => if n > 0 {
            n as int
        } else {
            -1
        },
        None => -1,
    }
}

/// The whole rendered log of a workspace.
pub open spec fn spec_log(w: WorkspaceModel, oneline: bool, limit: int, cutoff: u64) -> Seq<char> {
    let p = w.active_project();
    render_from(p.commits, p.cursor as int, oneline, limit, cutoff)
}

/// Decide whether `s@.subrange(from, to)` equals `w@`.
fn word_at(s: &str, from: usize, to: usize, w: &str) -> (r: bool)
    requires
        from <= to <= s@.len(),
    ensures
        r == (s@.subrange(from as int, to as int) == w@),
{
    let n = w.unicode_len();
    if to - from != n {
        proof {
            assert(s@.subrange(from as int, to as int).len() != w@.len());
        }
        return false;
    }
    let mut i: usize = 0;
    while i < n
        invariant
            from <= to <= s@.len(),
            to - from == n,
            n == w@.len(),
            i <= n,
            forall|k: int| 0 <= k < i ==> s@[from + k] == w@[k],
        decreases n - i,
    {
        if s.get_char(from + i) != w.get_char(i) {
            proof {
                assert(s@.subrange(from as int, to as int)[i as int] != w@[i as int]);
            }
            return false;
        }
        i = i + 1;
    }
    proof {
        assert(s@.subrange(from as int, to as int) =~= w@);
    }
    true
}

/// Find where the leading numeral of `s` ends.
fn scan_digits(s: &str) -> (d: usize)
    ensures
        d == digits_end(s@, 0),
        d <= s@.len(),
        forall|k: int| 0 <= k < d ==> is_digit(#[trigger] s@[k]),
{
    let n = s.unicode_len();
    let mut i: usize = 0;
    while i < n
        invariant
            n == s@.len(),
            i <= n,
            digits_end(s@, 0) == digits_end(s@, i as int),
            forall|k: int| 0 <= k < i ==> is_digit(#[trigger] s@[k]),
        decreases n - i,
    {
        let c = s.get_char(i);
        if !('0' <= c && c <= '9') {
            proof {
                assert(!is_digit(s@[i as int]));
                assert(digits_end(s@, i as int) == i);
            }
            return i;
        }
        proof {
            assert(is_digit(s@[i as int]));
            assert(digits_end(s@, i as int) == digits_end(s@, i + 1));
        }
        i = i + 1;
    }
    proof {
        assert(digits_end(s@, i as int) == i);
    }
    i
}

/// Parse a `since` expression against the clock value `now`.
pub fn parse_since(s: &str, now: u64) -> (r: Option<u64>)
    ensures
        r == spec_parse_since(s@, now),
{
    let n = s.unicode_len();
    let d = scan_digits(s);
    if d == 0 {
        return None;
    }
    // Evaluate the numeral, tracking whether it still fits in 64 bits.
    let mut i: usize = 0;
    let mut val: u64 = 0;
    let mut over: bool = false;
    while i < d
        invariant
            n == s@.len(),
            d <= n,
            i <= d,
            forall|k: int| 0 <= k < d ==> is_digit(#[trigger] s@[k]),
            !over ==> val == dec_value(s@.take(i as int)),
            over ==> dec_value(s@.take(i as int)) > u64::MAX,
        decreases d - i,
    {
        let c = s.get_char(i);
        let dv = (c as u32 - 48) as u64;
        proof {
            assert(is_digit(s@[i as int]));
            assert(s@.take(i + 1).drop_last() =~= s@.take(i as int));
            assert(s@.take(i + 1).last() == s@[i as int]);
            assert(dec_value(s@.take(i + 1)) == dec_value(s@.take(i as int)) * 10 + digit_val(
                s@[i as int],
            ));
        }
        if over {
            proof {
                assert(dec_value(s@.take(i as int)) * 10 + digit_val(s@[i as int]) > u64::MAX);
            }
        } else {
            let limit_q = (u64::MAX - dv) / 10;
            proof {
                lemma_fundamental_div_mod((u64::MAX - dv) as int, 10);
            }
            if val > limit_q {
                over = true;
                proof {
                    assert(val * 10 + dv > u64::MAX);
                }
            } else {
                proof {
                    assert(val * 10 + dv <= u64::MAX);
                }
                val = val * 10 + dv;
            }
        }
        i = i + 1;
    }
    if i == n {
        proof {
            assert(s@.take(n as int) =~= s@);
        }
        if over {
            return None;
        }
        return Some(val);
    }
    if s.get_char(i) != ' ' {
        return None;
    }
    // Scan the unit word.
    let mut u: usize = i + 1;
    while u < n && s.get_char(u) != ' '
        invariant
            n == s@.len(),
            i + 1 <= u <= n,
            word_end(s@, i + 1) == word_end(s@, u as int),
        decreases n - u,
    {
        proof {
            assert(word_end(s@, u as int) == word_end(s@, u + 1));
        }
        u = u + 1;
    }
    proof {
        assert(word_end(s@, u as int) == u);
        assert(word_end(s@, i + 1) == u);
    }
    if u == i + 1 || u >= n {
        return None;
    }
    // The rest must read `ago`.
    if n - u != 4 {
        proof {
            assert(s@.skip(u + 1).len() != "ago"@.len()) by {
                reveal_strlit("ago");
            }
        }
        return None;
    }
    let ok_ago = s.get_char(u + 1) == 'a' && s.get_char(u + 2) == 'g' && s.get_char(u + 3) == 'o';
    proof {
        reveal_strlit("ago");
        if ok_ago {
            assert(s@.skip(u + 1) =~= "ago"@);
        } else {
            assert(s@.skip(u + 1)[0] == s@[u + 1]);
            assert(s@.skip(u + 1)[1] == s@[u + 2]);
            assert(s@.skip(u + 1)[2] == s@[u + 3]);
        }
    }
    if !ok_ago {
        return None;
    }
    let k: u64 = if word_at(s, i + 1, u, "second") || word_at(s, i + 1, u, "seconds") {
        1
    } else if word_at(s, i + 1, u, "minute") || word_at(s, i + 1, u, "minutes") {
        60
    } else if word_at(s, i + 1, u, "hour") || word_at(s, i + 1, u, "hours") {
        3600
    } else if word_at(s, i + 1, u, "day") || word_at(s, i + 1, u, "days") {
        86400
    } else if word_at(s, i + 1, u, "week") || word_at(s, i + 1, u, "weeks") {
        604800
    } else {
        proof {
            assert(unit_secs(s@.subrange(i + 1, u as int)) is None);
        }
        return None;
    };
    proof {
        assert(unit_secs(s@.subrange(i + 1, u as int)) == Some(k));
    }
    let ghost nval = dec_value(s@.take(i as int));
    if over {
        proof {
            assert(nval * k >= nval > u64::MAX >= now);
        }
        return Some(0);
    }
    // val * k compared against now without overflowing.
    if k != 0 && val > now / k {
        proof {
            lemma_fundamental_div_mod(now as int, k as int);
            assert(val * k > now) by (nonlinear_arith)
                requires
                    val > now / k,
                    k > 0,
                    now == k * (now / k) + now % k,
                    now % k < k,
            ;
        }
        return Some(0);
    }
    proof {
        lemma_fundamental_div_mod(now as int, k as int);
        assert(val * k <= now) by (nonlinear_arith)
            requires
                val <= now / k,
                k > 0,
                now == k * (now / k) + now % k,
                0 <= now % k,
        ;
    }
    Some(now - val * k)
}

impl Workspace {
    /// Render the active project's commit history, newest first. `oneline`
    /// selects the condensed form; a positive `limit` caps the number of
    /// entries; `since` hides commits stamped before the cutoff it
    /// denotes, and fails the whole call when it cannot be parsed.
    pub fn log(&self, oneline: bool, limit: Option<i32>, since: Option<&str>) -> (r: Result<
        String,
        LogError,
    >)
        requires
            self@.wf(),
        ensures
            !self@.initialized ==> r == Err::<String, LogError>(
                LogError::TixError(TixError::NotARepository),
            ),
            self@.initialized && (since matches Some(s) && spec_parse_since(s@, self@.now) is None)
                ==> r == Err::<String, LogError>(LogError::TixError(TixError::CommandFailed)),
            self@.initialized && !(since matches Some(s) && spec_parse_since(s@, self@.now) is None)
                ==> r is Ok && (r->Ok_0)@ == spec_log(
                self@,
                oneline,
                spec_limit(limit),
                match since {
                    Some(s) => spec_parse_since(s@, self@.now)->0,
                    None => 0u64,
                },
            ),
    {
        if !self.initialized {
            return Err(LogError::TixError(TixError::NotARepository));
        }
        let cutoff: u64 = match since {
            None => 0,
            Some(sexpr) => match parse_since(sexpr, self.now) {
                Some(c) => c,
                None => {
                    return Err(LogError::TixError(TixError::CommandFailed));
                },
            },
        };
        let mut rem: i64 = match limit {
            Some(l) => if l > 0 {
                l as i64
            } else {
                -1
            },
            None => -1,
        };
        let ghost lim0 = spec_limit(limit);
        let ghost mut glim = lim0;
        let p = &self.projects[self.active];
        let ghost cs = p@.commits;
        let mut out = String::new();
        let mut j: usize = p.cursor;
        proof {
            assert(p@ == self@.active_project());
            assert(j <= cs.len());
        }
        while j > 0 && rem != 0
            invariant
                p@ == self@.active_project(),
                cs == p@.commits,
                j <= cs.len(),
                j <= p.cursor,
                p.cursor as int <= cs.len(),
                cs.len() == p.commits@.len(),
                rem == 0 <==> glim == 0,
                rem > 0 ==> glim == rem,
                rem < 0 ==> glim < 0,
                render_from(cs, p.cursor as int, oneline, lim0, cutoff) == out@ + render_from(
                    cs,
                    j as int,
                    oneline,
                    glim,
                    cutoff,
                ),
            decreases j,
        {
            let c = &p.commits[j - 1];
            proof {
                assert(c@ == cs[j - 1]);
            }
            if c.time >= cutoff {
                let num = render_dec(j as u64);
                let ghost out0 = out@;
                if oneline {
                    out.append(num.as_str());
                    out.append(" ");
                    out.append(c.message.as_str());
                    out.append("\n");
                } else {
                    out.append("commit ");
                    out.append(num.as_str());
                    out.append("\n");
                    let tnum = render_dec(c.time);
                    out.append("time ");
                    out.append(tnum.as_str());
                    out.append("\n\n    ");
                    out.append(c.message.as_str());
                    out.append("\n\n");
                }
                proof {
                    assert(num@ == dec_plain(((j - 1) + 1) as nat));
                    assert(out@ == out0 + render_entry(j - 1, cs[j - 1], oneline));
                    assert(out0 + (render_entry(j - 1, cs[j - 1], oneline) + render_from(
                        cs,
                        j - 1,
                        oneline,
                        glim - 1,
                        cutoff,
                    )) =~= (out0 + render_entry(j - 1, cs[j - 1], oneline)) + render_from(
                        cs,
                        j - 1,
                        oneline,
                        glim - 1,
                        cutoff,
                    ));
                    glim = glim - 1;
                }
                if rem > 0 {
                    rem = rem - 1;
                }
            }
            j = j - 1;
        }
        proof {
            assert(render_from(cs, j as int, oneline, glim, cutoff) =~= Seq::<char>::empty());
            assert(out@ + Seq::<char>::empty() =~= out@);
        }
        Ok(out)
    }
}

} // verus!
