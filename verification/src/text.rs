//! Character-level string utilities.
//!
//! Verified equality and the little grammars the engine validates against:
//! blank titles, dotted configuration keys, and remote URLs.

use vstd::prelude::*;
use vstd::string::StrSliceExecFns;

verus! {

/// Decide whether two string slices hold the same characters.
pub fn str_eq(a: &str, b: &str) -> (r: bool)
    ensures
        r == (a@ == b@),
{
    let n = a.unicode_len();
    let m = b.unicode_len();
    if n != m {
        return false;
    }
    let mut i: usize = 0;
    while i < n
        invariant
            n == a@.len(),
            n == b@.len(),
            i <= n,
            forall|j: int| 0 <= j < i ==> a@[j] == b@[j],
        decreases n - i,
    {
        if a.get_char(i) != b.get_char(i) {
            return false;
        }
        i = i + 1;
    }
    proof {
        assert(a@ =~= b@);
    }
    true
}

/// Whether `c` counts as whitespace when a title is trimmed: space, tab,
/// line feed or carriage return.
pub open spec fn is_space(c: char) -> bool {
    c == ' ' || c == '\t' || c == '\n' || c == '\r'
}

/// A blank string: nothing but whitespace (the empty string included).
pub open spec fn is_blank(s: Seq<char>) -> bool {
    forall|i: int| 0 <= i < s.len() ==> is_space(#[trigger] s[i])
}

/// Decide whether `s` is blank.
pub fn is_blank_str(s: &str) -> (r: bool)
    ensures
        r == is_blank(s@),
{
    let n = s.unicode_len();
    let mut i: usize = 0;
    while i < n
        invariant
            n == s@.len(),
            i <= n,
            forall|j: int| 0 <= j < i ==> is_space(#[trigger] s@[j]),
        decreases n - i,
    {
        let c = s.get_char(i);
        if !(c == ' ' || c == '\t' || c == '\n' || c == '\r') {
            return false;
        }
        i = i + 1;
    }
    true
}

/// Whether `c` may appear inside a configuration key segment: an ASCII
/// letter, digit, underscore or hyphen.
pub open spec fn is_key_char(c: char) -> bool {
    ('a' <= c && c <= 'z') || ('A' <= c && c <= 'Z') || ('0' <= c && c <= '9') || c == '_' || c
        == '-'
}

/// The dotted-identifier grammar of configuration keys, `user.name` for
/// example: one or more non-empty segments of key characters, joined by
/// single dots.
pub open spec fn is_config_key(s: Seq<char>) -> bool {
    &&& s.len() > 0
    &&& s[0] != '.'
    &&& s[s.len() - 1] != '.'
    &&& forall|i: int| 0 <= i < s.len() ==> is_key_char(#[trigger] s[i]) || s[i] == '.'
    &&& forall|i: int| 0 <= i < s.len() - 1 ==> !(#[trigger] s[i] == '.' && s[i + 1] == '.')
}

/// Decide whether `s` is a well-formed configuration key.
pub fn is_config_key_str(s: &str) -> (r: bool)
    ensures
        r == is_config_key(s@),
{
    let n = s.unicode_len();
    if n == 0 {
        return false;
    }
    if s.get_char(0) == '.' || s.get_char(n - 1) == '.' {
        return false;
    }
    let mut i: usize = 0;
    while i < n
        invariant
            n == s@.len(),
            0 < n,
            i <= n,
            s@[0] != '.',
            s@[n - 1] != '.',
            forall|j: int| 0 <= j < i ==> is_key_char(#[trigger] s@[j]) || s@[j] == '.',
            forall|j: int| 0 <= j < i - 1 ==> !(#[trigger] s@[j] == '.' && s@[j + 1] == '.'),
        decreases n - i,
    {
        let c = s.get_char(i);
        let ok = ('a' <= c && c <= 'z') || ('A' <= c && c <= 'Z') || ('0' <= c && c <= '9') || c
            == '_' || c == '-';
        if !ok && c != '.' {
            return false;
        }
        if c == '.' && i > 0 {
            if s.get_char(i - 1) == '.' {
                return false;
            }
        }
        i = i + 1;
    }
    true
}

/// Whether `c` may appear in a URL scheme: a lowercase ASCII letter.
pub open spec fn is_scheme_char(c: char) -> bool {
    'a' <= c && c <= 'z'
}

/// Whether position `i` of `s` starts the `://` separator of a URL whose
/// scheme is the non-empty stretch of scheme characters before it and whose
/// remainder after the separator is non-empty.
pub open spec fn url_separator_at(s: Seq<char>, i: int) -> bool {
    &&& 0 < i
    &&& i + 3 < s.len()
    &&& (forall|j: int| 0 <= j < i ==> is_scheme_char(#[trigger] s[j]))
    &&& s[i] == ':'
    &&& s[i + 1] == '/'
    &&& s[i + 2] == '/'
}

/// The shape of an acceptable remote URL: a non-empty lowercase scheme,
/// then `://`, then a non-empty remainder.
pub open spec fn is_url(s: Seq<char>) -> bool {
    exists|i: int| #[trigger] url_separator_at(s, i)
}

/// Decide whether `s` is shaped like a remote URL.
pub fn is_url_str(s: &str) -> (r: bool)
    ensures
        r == is_url(s@),
{
    let n = s.unicode_len();
    let mut i: usize = 0;
    while i < n
        invariant
            n == s@.len(),
            i <= n,
            forall|j: int| 0 <= j < i ==> is_scheme_char(#[trigger] s@[j]),
        decreases n - i,
    {
        let c = s.get_char(i);
        if !('a' <= c && c <= 'z') {
            if c == ':' && i > 0 && n - i > 3 {
                if s.get_char(i + 1) == '/' && s.get_char(i + 2) == '/' {
                    proof {
                        assert(url_separator_at(s@, i as int));
                    }
                    return true;
                }
            }
            proof {
                assert forall|k: int| !url_separator_at(s@, k) by {
                    if k > i && 0 < k && k + 3 < s@.len() {
                        assert(!is_scheme_char(s@[i as int]));
                    }
                }
            }
            return false;
        }
        i = i + 1;
    }
    proof {
        assert forall|k: int| !url_separator_at(s@, k) by {
            if 0 < k && k + 3 < s@.len() {
                assert(is_scheme_char(s@[k]));
            }
        }
    }
    false
}

} // verus!
