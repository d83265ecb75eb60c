//! Ticket identifiers and decimal numerals.
//!
//! Identifiers are allocated from a per-project counter and rendered as
//! fixed-width decimal strings, so that the lexicographic order of two
//! identifiers agrees with their creation order. This module holds the
//! numeral spec functions, the executable renderers, and the lemmas that
//! make identifiers unambiguous: a numeral decodes back to the number it
//! was rendered from, so rendering is injective.

use vstd::prelude::*;
use vstd::arithmetic::div_mod::lemma_fundamental_div_mod;
use vstd::string::StrSliceExecFns;
use vstd::string::StringExecFns;

verus! {

/// Width, in digits, of a rendered ticket identifier. Wide enough for every
/// value of the 64-bit allocation counter.
pub const ID_WIDTH: usize = 20;

/// The decimal digit character for `d` (meaningful for `0 <= d < 10`).
pub open spec fn digit_char(d: int) -> char {
    if d == 0 {
        '0'
    } else if d == 1 {
        '1'
    } else if d == 2 {
        '2'
    } else if d == 3 {
        '3'
    } else if d == 4 {
        '4'
    } else if d == 5 {
        '5'
    } else if d == 6 {
        '6'
    } else if d == 7 {
        '7'
    } else if d == 8 {
        '8'
    } else {
        '9'
    }
}

/// Whether `c` is a decimal digit character.
pub open spec fn is_digit(c: char) -> bool {
    48 <= c as u32 <= 57
}

/// The numeric value of a digit character.
pub open spec fn digit_val(c: char) -> int {
    c as u32 - 48
}

/// Ten to the `k`-th power.
pub open spec fn pow10(k: nat) -> nat
    decreases k,
{
    if k == 0 {
        1nat
    } else {
        10 * pow10((k - 1) as nat)
    }
}

/// `n` rendered as exactly `w` decimal digits, zero-padded, most
/// significant digit first. Digits beyond the width are cut off: the
/// rendering is faithful only when `n < pow10(w)`.
pub open spec fn dec_fixed(n: nat, w: nat) -> Seq<char>
    decreases w,
{
    if w == 0 {
        Seq::empty()
    } else {
        dec_fixed(n / 10, (w - 1) as nat).push(digit_char((n % 10) as int))
    }
}

/// `n` rendered as an unpadded decimal numeral.
pub open spec fn dec_plain(n: nat) -> Seq<char>
    decreases n,
{
    if n < 10 {
        seq![digit_char(n as int)]
    } else {
        dec_plain(n / 10).push(digit_char((n % 10) as int))
    }
}

/// The number a digit string denotes, read as a decimal numeral.
pub open spec fn dec_value(s: Seq<char>) -> int
    decreases s.len(),
{
    if s.len() == 0 {
        0
    } else {
        dec_value(s.drop_last()) * 10 + digit_val(s.last())
    }
}

/// The rendered form of the ticket identifier with counter value `n`.
pub open spec fn id_chars(n: nat) -> Seq<char> {
    dec_fixed(n, ID_WIDTH as nat)
}

/// Whether `s` is shaped like a ticket identifier: exactly [`ID_WIDTH`]
/// decimal digits.
pub open spec fn is_id(s: Seq<char>) -> bool {
    s.len() == ID_WIDTH && forall|i: int| 0 <= i < s.len() ==> is_digit(#[trigger] s[i])
}

/// A fixed-width numeral has the asked-for width and holds digits only.
pub proof fn lemma_dec_fixed_shape(n: nat, w: nat)
    ensures
        dec_fixed(n, w).len() == w,
        forall|i: int| 0 <= i < w ==> is_digit(#[trigger] dec_fixed(n, w)[i]),
    decreases w,
{
    if w > 0 {
        lemma_dec_fixed_shape(n / 10, (w - 1) as nat);
    }
}

/// A fixed-width numeral decodes back to the number it renders, as long as
/// the number fits in the width.
pub proof fn lemma_dec_fixed_value(n: nat, w: nat)
    requires
        n < pow10(w),
    ensures
        dec_value(dec_fixed(n, w)) == n,
    decreases w,
{
    if w == 0 {
        assert(n == 0);
    } else {
        let rest = dec_fixed(n / 10, (w - 1) as nat);
        lemma_dec_fixed_shape(n / 10, (w - 1) as nat);
        assert(dec_fixed(n, w).drop_last() =~= rest);
        assert(n / 10 < pow10((w - 1) as nat)) by {
            lemma_fundamental_div_mod(n as int, 10);
        };
        lemma_dec_fixed_value(n / 10, (w - 1) as nat);
        assert(digit_val(digit_char((n % 10) as int)) == n % 10);
        lemma_fundamental_div_mod(n as int, 10);
    }
}

/// Rendering at a fixed width is injective on the numbers that fit.
pub proof fn lemma_dec_fixed_injective(m: nat, n: nat, w: nat)
    requires
        m < pow10(w),
        n < pow10(w),
        dec_fixed(m, w) == dec_fixed(n, w),
    ensures
        m == n,
{
    lemma_dec_fixed_value(m, w);
    lemma_dec_fixed_value(n, w);
}

/// Every 64-bit counter value fits in [`ID_WIDTH`] digits.
pub proof fn lemma_u64_fits_id_width(n: u64)
    ensures
        (n as nat) < pow10(ID_WIDTH as nat),
{
    reveal_with_fuel(pow10, 21);
    assert(pow10(20) == 0x56bc75e2d63100000);
}

/// Two distinct counter values render as distinct identifiers.
pub proof fn lemma_id_chars_injective(m: u64, n: u64)
    requires
        id_chars(m as nat) == id_chars(n as nat),
    ensures
        m == n,
{
    lemma_u64_fits_id_width(m);
    lemma_u64_fits_id_width(n);
    lemma_dec_fixed_injective(m as nat, n as nat, ID_WIDTH as nat);
}

/// Lexicographic order on character sequences, by code point.
pub open spec fn lex_lt(a: Seq<char>, b: Seq<char>) -> bool
    decreases a.len(),
{
    b.len() > 0 && (a.len() == 0 || (a[0] as u32) < (b[0] as u32) || (a[0] == b[0] && lex_lt(
        a.drop_first(),
        b.drop_first(),
    )))
}

/// After a shared prefix, the order of the last characters decides.
proof fn lemma_lex_push_last(p: Seq<char>, x: char, y: char)
    requires
        (x as u32) < (y as u32),
    ensures
        lex_lt(p.push(x), p.push(y)),
    decreases p.len(),
{
    if p.len() == 0 {
        assert(p.push(x) =~= seq![x]);
        assert(p.push(y) =~= seq![y]);
    } else {
        assert(p.push(x)[0] == p[0]);
        assert(p.push(y)[0] == p[0]);
        lemma_lex_push_last(p.drop_first(), x, y);
        assert(p.push(x).drop_first() =~= p.drop_first().push(x));
        assert(p.push(y).drop_first() =~= p.drop_first().push(y));
    }
}

/// A strict order between equal-length sequences survives appending.
proof fn lemma_lex_push_both(a: Seq<char>, b: Seq<char>, x: char, y: char)
    requires
        a.len() == b.len(),
        lex_lt(a, b),
    ensures
        lex_lt(a.push(x), b.push(y)),
    decreases a.len(),
{
    if a.len() == 0 {
    } else {
        assert(a.push(x)[0] == a[0]);
        assert(b.push(y)[0] == b[0]);
        if a[0] == b[0] && !((a[0] as u32) < (b[0] as u32)) {
            lemma_lex_push_both(a.drop_first(), b.drop_first(), x, y);
            assert(a.push(x).drop_first() =~= a.drop_first().push(x));
            assert(b.push(y).drop_first() =~= b.drop_first().push(y));
        }
    }
}

/// Fixed-width rendering turns the numeric order into the lexicographic
/// order: identifiers sort as the numbers they were allocated from.
pub proof fn lemma_dec_fixed_sorts(m: nat, n: nat, w: nat)
    requires
        m < n,
        n < pow10(w),
    ensures
        lex_lt(dec_fixed(m, w), dec_fixed(n, w)),
    decreases w,
{
    lemma_fundamental_div_mod(m as int, 10);
    lemma_fundamental_div_mod(n as int, 10);
    let mq = m / 10;
    let nq = n / 10;
    assert(mq <= nq) by (nonlinear_arith)
        requires
            m < n,
            m == 10 * (m / 10) + m % 10,
            n == 10 * (n / 10) + n % 10,
            m % 10 < 10,
            0 <= n % 10,
            mq == m / 10,
            nq == n / 10,
    ;
    if mq == nq {
        assert(m % 10 < n % 10);
        assert(digit_char((m % 10) as int) as u32 == 48 + m % 10);
        assert(digit_char((n % 10) as int) as u32 == 48 + n % 10);
        lemma_lex_push_last(
            dec_fixed(mq, (w - 1) as nat),
            digit_char((m % 10) as int),
            digit_char((n % 10) as int),
        );
    } else {
        assert(nq < pow10((w - 1) as nat)) by {
            assert(pow10(w) == 10 * pow10((w - 1) as nat));
            assert(nq < pow10((w - 1) as nat)) by (nonlinear_arith)
                requires
                    n == 10 * nq + n % 10,
                    0 <= n % 10,
                    n < 10 * pow10((w - 1) as nat),
            ;
        }
        lemma_dec_fixed_sorts(mq, nq, (w - 1) as nat);
        lemma_dec_fixed_shape(mq, (w - 1) as nat);
        lemma_dec_fixed_shape(nq, (w - 1) as nat);
        lemma_lex_push_both(
            dec_fixed(mq, (w - 1) as nat),
            dec_fixed(nq, (w - 1) as nat),
            digit_char((m % 10) as int),
            digit_char((n % 10) as int),
        );
    }
}

/// Identifiers allocated later sort lexicographically after identifiers
/// allocated earlier, so listing in identifier order is listing in
/// creation order.
pub proof fn lemma_id_chars_sorted(m: u64, n: u64)
    requires
        m < n,
    ensures
        lex_lt(id_chars(m as nat), id_chars(n as nat)),
{
    lemma_u64_fits_id_width(n);
    lemma_dec_fixed_sorts(m as nat, n as nat, ID_WIDTH as nat);
}

/// The single-character string for digit `d`.
fn digit_str(d: u8) -> (r: &'static str)
    requires
        d < 10,
    ensures
        r@ == seq![digit_char(d as int)],
{
    proof {
        reveal_strlit("0");
        reveal_strlit("1");
        reveal_strlit("2");
        reveal_strlit("3");
        reveal_strlit("4");
        reveal_strlit("5");
        reveal_strlit("6");
        reveal_strlit("7");
        reveal_strlit("8");
        reveal_strlit("9");
    }
    let r: &'static str = if d == 0 {
        "0"
    } else if d == 1 {
        "1"
    } else if d == 2 {
        "2"
    } else if d == 3 {
        "3"
    } else if d == 4 {
        "4"
    } else if d == 5 {
        "5"
    } else if d == 6 {
        "6"
    } else if d == 7 {
        "7"
    } else if d == 8 {
        "8"
    } else {
        "9"
    };
    proof {
        assert(r@ =~= seq![digit_char(d as int)]);
    }
    r
}

/// Append the digit character for `d` to `s`.
fn push_digit(s: &mut String, d: u8)
    requires
        d < 10,
    ensures
        final(s)@ == old(s)@.push(digit_char(d as int)),
{
    let t = digit_str(d);
    s.append(t);
    proof {
        assert(old(s)@ + t@ =~= old(s)@.push(digit_char(d as int)));
    }
}

/// Render `n` as exactly `w` decimal digits, zero-padded.
fn fixed_chars(n: u64, w: usize) -> (r: String)
    ensures
        r@ == dec_fixed(n as nat, w as nat),
    decreases w,
{
    if w == 0 {
        String::new()
    } else {
        let mut s = fixed_chars(n / 10, w - 1);
        push_digit(&mut s, (n % 10) as u8);
        s
    }
}

/// Render the identifier string for counter value `n`.
pub fn render_id(n: u64) -> (r: String)
    ensures
        r@ == id_chars(n as nat),
{
    fixed_chars(n, ID_WIDTH)
}

/// Render `n` as an unpadded decimal string.
pub fn render_dec(n: u64) -> (r: String)
    ensures
        r@ == dec_plain(n as nat),
    decreases n,
{
    if n < 10 {
        let mut s = String::new();
        push_digit(&mut s, n as u8);
        proof {
            assert(s@ =~= dec_plain(n as nat));
        }
        s
    } else {
        let mut s = render_dec(n / 10);
        push_digit(&mut s, (n % 10) as u8);
        s
    }
}

/// Decide whether `s` is shaped like a ticket identifier.
pub fn is_id_str(s: &str) -> (b: bool)
    ensures
        b == is_id(s@),
{
    let n = s.unicode_len();
    if n != ID_WIDTH {
        return false;
    }
    let mut i: usize = 0;
    while i < n
        invariant
            n == s@.len(),
            n == ID_WIDTH,
            i <= n,
            forall|j: int| 0 <= j < i ==> is_digit(#[trigger] s@[j]),
        decreases n - i,
    {
        let c = s.get_char(i);
        let v = c as u32;
        if v < 48 || v > 57 {
            return false;
        }
        i = i + 1;
    }
    true
}

} // verus!
