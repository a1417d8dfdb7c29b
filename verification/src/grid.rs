//! The distress-alert wire codec for the peer-to-peer grid.
//!
//! One alert travels as one UDP datagram whose payload is a text record with
//! exactly three fields, in this order and with no surrounding whitespace:
//!
//! ```text
//! {"sender_ip":"<escaped>","threat_type":"<escaped>","timestamp":<decimal>}
//! ```
//!
//! Inside a string field, `"` and `\` are escaped with a backslash; the
//! timestamp is a canonical decimal (no sign, no leading zero). The parser
//! accepts exactly the encodings produced by [`encode_alert`] and rejects
//! every other payload, so a listening agent invokes its alert sink exactly
//! once per well-formed datagram and never for a malformed one. The shell
//! moves datagram bytes in and out; it hands the payload over as text.

use vstd::prelude::*;
use crate::text::{
    append_u64, canonical_dec, dec, digit_val, digits_val, is_digit, lemma_dec_canonical,
    lemma_dec_len, lemma_dec_unique, lemma_val_append, lemma_val_of_dec,
};

verus! {

/// The well-known UDP port of the grid: alerts are broadcast to it and the
/// listener binds to it.
pub const GRID_PORT: u16 = 9000;

/// A distress alert, built on send and discarded after receipt.
pub struct Alert {
    pub sender_ip: String,
    pub threat_type: String,
    pub timestamp: u64,
}

impl View for Alert {
    type V = (Seq<char>, Seq<char>, u64);

    open spec fn view(&self) -> (Seq<char>, Seq<char>, u64) {
        (self.sender_ip@, self.threat_type@, self.timestamp)
    }
}

/// How one character is written inside a string field.
pub open spec fn esc_char(c: char) -> Seq<char> {
    if c == '"' || c == '\\' {
        seq!['\\', c]
    } else {
        seq![c]
    }
}

/// How a whole string field is written.
pub open spec fn esc(s: Seq<char>) -> Seq<char>
    decreases s.len(),
{
    if s.len() == 0 {
        Seq::empty()
    } else {
        esc_char(s[0]) + esc(s.drop_first())
    }
}

/// The literal text before the sender field.
pub open spec fn lit_head() -> Seq<char> {
    seq!['{', '"', 's', 'e', 'n', 'd', 'e', 'r', '_', 'i', 'p', '"', ':', '"']
}

/// The literal text between the sender and threat fields (after the
/// closing quote of the sender field).
pub open spec fn lit_mid() -> Seq<char> {
    seq![',', '"', 't', 'h', 'r', 'e', 'a', 't', '_', 't', 'y', 'p', 'e', '"', ':', '"']
}

/// The literal text between the threat field and the timestamp (after the
/// closing quote of the threat field).
pub open spec fn lit_ts() -> Seq<char> {
    seq![',', '"', 't', 'i', 'm', 'e', 's', 't', 'a', 'm', 'p', '"', ':']
}

/// The one and only wire form of an alert.
pub open spec fn encode_spec(a: (Seq<char>, Seq<char>, u64)) -> Seq<char> {
    lit_head() + esc(a.0) + seq!['"'] + lit_mid() + esc(a.1) + seq!['"'] + lit_ts() + dec(
        a.2 as nat,
    ) + seq!['}']
}

/// Escaping distributes over appending one character.
pub proof fn lemma_esc_snoc(s: Seq<char>, c: char)
    ensures
        esc(s.push(c)) == esc(s) + esc_char(c),
    decreases s.len(),
{
    if s.len() == 0 {
        assert(s.push(c).drop_first() =~= Seq::<char>::empty());
        assert(s.push(c)[0] == c);
        assert(esc(s.push(c)) == esc_char(c) + esc(s.push(c).drop_first()));
        assert(esc(s.push(c)) =~= esc(s) + esc_char(c));
    } else {
        assert(s.push(c).drop_first() =~= s.drop_first().push(c));
        assert(s.push(c)[0] == s[0]);
        assert(esc(s.push(c)) == esc_char(s[0]) + esc(s.drop_first().push(c)));
        lemma_esc_snoc(s.drop_first(), c);
        assert(esc(s.push(c)) == esc_char(s[0]) + (esc(s.drop_first()) + esc_char(c)));
        assert(esc(s.push(c)) =~= esc(s) + esc_char(c));
    }
}

/// Appends `s` to `out` with `"` and `\` escaped.
fn append_escaped(out: &mut String, s: &str)
    ensures
        final(out)@ == old(out)@ + esc(s@),
{
    let n = s.unicode_len();
    let mut i: usize = 0;
    proof {
        assert(s@.take(0) =~= Seq::<char>::empty());
        assert(out@ =~= out@ + esc(s@.take(0)));
    }
    while i < n
        invariant
            n == s@.len(),
            i <= n,
            out@ == old(out)@ + esc(s@.take(i as int)),
        decreases n - i,
    {
        let c = s.get_char(i);
        if c == '"' {
            out.append("\\\"");
            proof {
                reveal_strlit("\\\"");
            }
        } else if c == '\\' {
            out.append("\\\\");
            proof {
                reveal_strlit("\\\\");
            }
        } else {
            let piece = s.substring_char(i, i + 1);
            out.append(piece);
            proof {
                assert(piece@ =~= esc_char(c));
            }
        }
        proof {
            lemma_esc_snoc(s@.take(i as int), c);
            assert(s@.take(i + 1) =~= s@.take(i as int).push(c));
            assert(out@ =~= old(out)@ + esc(s@.take(i + 1)));
        }
        i = i + 1;
    }
    proof {
        assert(s@.take(n as int) =~= s@);
    }
}

/// What scanning a string field from the front of `s` yields: the unescaped
/// content up to the first closing quote, and how many characters were
/// consumed (the closing quote included). `None` when the field is
/// unterminated or holds an invalid escape.
pub open spec fn scan_str(s: Seq<char>) -> Option<(Seq<char>, int)>
    decreases s.len(),
{
    if s.len() == 0 {
        None
    } else if s[0] == '"' {
        Some((Seq::empty(), 1))
    } else if s[0] == '\\' {
        if s.len() >= 2 && (s[1] == '"' || s[1] == '\\') {
            match scan_str(s.skip(2)) {
                Some(tk) => Some((seq![s[1]] + tk.0, tk.1 + 2)),
                None => None,
            }
        } else {
            None
        }
    } else {
        match scan_str(s.skip(1)) {
            Some(tk) => Some((seq![s[0]] + tk.0, tk.1 + 1)),
            None => None,
        }
    }
}

/// A successful scan consumes between one character and the whole input.
pub proof fn lemma_scan_bounds(s: Seq<char>)
    ensures
        scan_str(s) matches Some(tk) ==> 1 <= tk.1 <= s.len(),
    decreases s.len(),
{
    if s.len() > 0 && s[0] != '"' {
        if s[0] == '\\' {
            if s.len() >= 2 && (s[1] == '"' || s[1] == '\\') {
                lemma_scan_bounds(s.skip(2));
            }
        } else {
            lemma_scan_bounds(s.skip(1));
        }
    }
}

/// Completeness of the scanner: an escaped field followed by its closing
/// quote scans back to exactly the field content.
pub proof fn lemma_scan_of_esc(t: Seq<char>, rest: Seq<char>)
    ensures
        scan_str(esc(t) + seq!['"'] + rest) == Some((t, esc(t).len() + 1int)),
    decreases t.len(),
{
    let s = esc(t) + seq!['"'] + rest;
    if t.len() == 0 {
        assert(s[0] == '"');
        assert(scan_str(s) == Some((Seq::<char>::empty(), 1int)));
        assert(t =~= Seq::<char>::empty());
    } else {
        let t1 = t.drop_first();
        lemma_scan_of_esc(t1, rest);
        assert(esc(t) == esc_char(t[0]) + esc(t1));
        if t[0] == '"' || t[0] == '\\' {
            assert(s[0] == '\\');
            assert(s[1] == t[0]);
            assert(s.len() >= 2);
            assert(s.skip(2) =~= esc(t1) + seq!['"'] + rest);
            assert(seq![s[1]] + t1 =~= t);
            assert(scan_str(s) == Some((t, esc(t).len() + 1int)));
        } else {
            assert(s[0] == t[0]);
            assert(s[0] != '"' && s[0] != '\\');
            assert(s.skip(1) =~= esc(t1) + seq!['"'] + rest);
            assert(seq![s[0]] + t1 =~= t);
            assert(scan_str(s) == Some((t, esc(t).len() + 1int)));
        }
    }
}

/// Soundness of the scanner: whatever it consumed was the escaped form of
/// the content it returned, closed by a quote.
pub proof fn lemma_scan_sound(s: Seq<char>)
    ensures
        scan_str(s) matches Some(tk) ==> tk.1 <= s.len() && s.take(tk.1) == esc(tk.0) + seq!['"'],
    decreases s.len(),
{
    lemma_scan_bounds(s);
    if s.len() == 0 {
    } else if s[0] == '"' {
        assert(s.take(1) =~= esc(Seq::<char>::empty()) + seq!['"']);
    } else if s[0] == '\\' {
        if s.len() >= 2 && (s[1] == '"' || s[1] == '\\') {
            lemma_scan_sound(s.skip(2));
            lemma_scan_bounds(s.skip(2));
            if let Some(tk) = scan_str(s.skip(2)) {
                assert(s.skip(2).take(tk.1) == esc(tk.0) + seq!['"']);
                let u = seq![s[1]] + tk.0;
                assert(esc(u) == esc_char(s[1]) + esc(tk.0)) by {
                    assert(u[0] == s[1]);
                    assert(u.drop_first() =~= tk.0);
                }
                assert(esc_char(s[1]) =~= seq!['\\', s[1]]);
                assert(s.take(tk.1 + 2) =~= seq![s[0], s[1]] + s.skip(2).take(tk.1));
                assert(esc(u) + seq!['"'] =~= seq![s[0], s[1]] + (esc(tk.0) + seq!['"']));
                assert(s.take(tk.1 + 2) == esc(u) + seq!['"']);
            }
        }
    } else {
        lemma_scan_sound(s.skip(1));
        lemma_scan_bounds(s.skip(1));
        if let Some(tk) = scan_str(s.skip(1)) {
            assert(s.skip(1).take(tk.1) == esc(tk.0) + seq!['"']);
            let u = seq![s[0]] + tk.0;
            assert(esc(u) == esc_char(s[0]) + esc(tk.0)) by {
                assert(u[0] == s[0]);
                assert(u.drop_first() =~= tk.0);
            }
            assert(esc_char(s[0]) =~= seq![s[0]]);
            assert(s.take(tk.1 + 1) =~= seq![s[0]] + s.skip(1).take(tk.1));
            assert(esc(u) + seq!['"'] =~= seq![s[0]] + (esc(tk.0) + seq!['"']));
            assert(s.take(tk.1 + 1) == esc(u) + seq!['"']);
        }
    }
}

/// The numeric value of a digit character, when it is one.
fn char_digit(c: char) -> (r: Option<u64>)
    ensures
        match r {
            Some(d) => d < 10 && digit_val(c) == d as nat,
            None => !is_digit(c),
        },
{
    match c {
        '0' => Some(0),
        '1' => Some(1),
        '2' => Some(2),
        '3' => Some(3),
        '4' => Some(4),
        '5' => Some(5),
        '6' => Some(6),
        '7' => Some(7),
        '8' => Some(8),
        '9' => Some(9),
        _ => None,
    }
}

/// Parses the canonical decimal starting at position `p`. On success the
/// consumed text is exactly `dec(v)` and the next character (if any) is no
/// digit; on failure no canonical decimal bounded by a non-digit starts at
/// `p` at all.
fn parse_number(s: &str, p: usize) -> (r: Option<(u64, usize)>)
    requires
        p <= s@.len(),
    ensures
        match r {
            Some(t) => p < t.1 && t.1 <= s@.len() && s@.subrange(p as int, t.1 as int) == dec(
                t.0 as nat,
            ) && (t.1 == s@.len() || !is_digit(s@[t.1 as int])),
            None => forall|v: u64, q: int|
                #![trigger dec(v as nat), s@.subrange(p as int, q)]
                p <= q <= s@.len() && (q == s@.len() || !is_digit(s@[q])) ==> s@.subrange(
                    p as int,
                    q,
                ) != dec(v as nat),
        },
{
    let n = s.unicode_len();
    if p == n {
        proof {
            assert forall|v: u64, q: int|
                p <= q <= s@.len() && (q == s@.len() || !is_digit(s@[q])) implies s@.subrange(
                p as int,
                q,
            ) != dec(v as nat) by {
                lemma_dec_canonical(v as nat);
                assert(s@.subrange(p as int, q).len() == 0);
            }
        }
        return None;
    }
    let c0 = s.get_char(p);
    let d0 = match char_digit(c0) {
        Some(d) => d,
        None => {
            proof {
                assert forall|v: u64, q: int|
                    p <= q <= s@.len() && (q == s@.len() || !is_digit(s@[q])) implies s@.subrange(
                    p as int,
                    q,
                ) != dec(v as nat) by {
                    lemma_dec_canonical(v as nat);
                    if q > p && s@.subrange(p as int, q) == dec(v as nat) {
                        assert(is_digit(dec(v as nat)[0]));
                        assert(s@.subrange(p as int, q)[0] == s@[p as int]);
                    }
                }
            }
            return None;
        },
    };
    if d0 == 0 {
        let zero_run = if p + 1 < n {
            match char_digit(s.get_char(p + 1)) {
                Some(_) => true,
                None => false,
            }
        } else {
            false
        };
        proof {
            assert(digit_val(c0) == 0);
            assert(c0 == '0');
        }
        if zero_run {
            proof {
                assert(is_digit(s@[p + 1]));
                assert forall|v: u64, q: int|
                    p <= q <= s@.len() && (q == s@.len() || !is_digit(s@[q])) implies s@.subrange(
                    p as int,
                    q,
                ) != dec(v as nat) by {
                    lemma_dec_canonical(v as nat);
                    if s@.subrange(p as int, q) == dec(v as nat) {
                        assert(q > p);
                        assert(s@.subrange(p as int, q)[0] == s@[p as int]);
                        assert(dec(v as nat)[0] == '0');
                        assert(dec(v as nat).len() == 1);
                        assert(q == p + 1);
                        assert(false);
                    }
                }
            }
            return None;
        }
        proof {
            assert(s@.subrange(p as int, p + 1) =~= seq!['0']);
            assert(dec(0nat) =~= seq!['0']);
        }
        return Some((0, p + 1));
    }
    let mut v: u64 = d0;
    let mut i: usize = p + 1;
    proof {
        assert(s@.subrange(p as int, p + 1) =~= seq![c0]);
        assert(digits_val(seq![c0]) == digit_val(c0)) by {
            assert(seq![c0].drop_last() =~= Seq::<char>::empty());
            assert(seq![c0].last() == c0);
            assert(digits_val(Seq::<char>::empty()) == 0);
        }
        assert(digits_val(s@.subrange(p as int, p + 1)) == d0 as nat);
        assert(c0 != '0');
    }
    while i < n
        invariant
            n == s@.len(),
            p < i <= n,
            s@[p as int] == c0,
            c0 != '0',
            is_digit(c0),
            forall|j: int| p <= j < i ==> is_digit(#[trigger] s@[j]),
            digits_val(s@.subrange(p as int, i as int)) == v as nat,
        decreases n - i,
    {
        let c = s.get_char(i);
        match char_digit(c) {
            None => {
                proof {
                    lemma_run_is_dec(s@, p as int, i as int, v);
                }
                return Some((v, i));
            },
            Some(d) => {
                proof {
                    assert(s@.subrange(p as int, i + 1).drop_last() =~= s@.subrange(
                        p as int,
                        i as int,
                    ));
                    assert(s@.subrange(p as int, i + 1).last() == c);
                    assert(digits_val(s@.subrange(p as int, i + 1)) == v as nat * 10 + d as nat);
                }
                if v > (u64::MAX - d) / 10 {
                    proof {
                        lemma_overflow_no_dec(s@, p as int, i as int, v, d);
                    }
                    return None;
                }
                proof {
                    vstd::arithmetic::div_mod::lemma_fundamental_div_mod(
                        (u64::MAX - d) as int,
                        10,
                    );
                }
                v = v * 10 + d;
                i = i + 1;
            },
        }
    }
    proof {
        lemma_run_is_dec(s@, p as int, i as int, v);
    }
    Some((v, i))
}

/// A scanned digit run with no leading zero is the canonical decimal of its
/// value.
proof fn lemma_run_is_dec(s: Seq<char>, p: int, i: int, v: u64)
    requires
        0 <= p < i <= s.len(),
        s[p] != '0',
        forall|j: int| p <= j < i ==> is_digit(#[trigger] s[j]),
        digits_val(s.subrange(p, i)) == v as nat,
    ensures
        s.subrange(p, i) == dec(v as nat),
{
    let t = s.subrange(p, i);
    assert(t[0] == s[p]);
    assert(forall|k: int| 0 <= k < t.len() ==> is_digit(#[trigger] t[k])) by {
        assert(forall|k: int| 0 <= k < t.len() ==> t[k] == #[trigger] s[p + k]);
    }
    lemma_dec_unique(t, v as nat);
}

/// When the digits read so far already exceed the largest 64-bit value, no
/// canonical decimal of a 64-bit value starts at `p` and ends at a
/// non-digit.
proof fn lemma_overflow_no_dec(s: Seq<char>, p: int, i: int, v: u64, d: u64)
    requires
        0 <= p < i < s.len(),
        s[p] != '0',
        forall|j: int| p <= j < i ==> is_digit(#[trigger] s[j]),
        is_digit(s[i]),
        digit_val(s[i]) == d as nat,
        digits_val(s.subrange(p, i)) == v as nat,
        d < 10,
        v > (u64::MAX - d) / 10,
    ensures
        forall|w: u64, q: int|
            #![trigger dec(w as nat), s.subrange(p, q)]
            p <= q <= s.len() && (q == s.len() || !is_digit(s[q])) ==> s.subrange(p, q) != dec(
                w as nat,
            ),
{
    assert(v as nat * 10 + d as nat > u64::MAX as nat) by {
        vstd::arithmetic::div_mod::lemma_fundamental_div_mod((u64::MAX - d) as int, 10);
    }
    assert forall|w: u64, q: int|
        p <= q <= s.len() && (q == s.len() || !is_digit(s[q])) implies s.subrange(p, q) != dec(
        w as nat,
    ) by {
        lemma_dec_canonical(w as nat);
        lemma_val_of_dec(w as nat);
        if s.subrange(p, q) == dec(w as nat) {
            assert(q > p);
            assert(forall|k: int|
                0 <= k < q - p ==> is_digit(#[trigger] s.subrange(p, q)[k]));
            assert(q >= i + 1) by {
                if q <= i {
                    assert(q < s.len());
                    assert(is_digit(s[q])) by {
                        if q < i {
                        } else {
                        }
                    }
                }
            }
            assert(s.subrange(p, q) =~= s.subrange(p, i + 1) + s.subrange(i + 1, q));
            lemma_val_append(s.subrange(p, i + 1), s.subrange(i + 1, q));
            assert(s.subrange(p, i + 1).drop_last() =~= s.subrange(p, i));
            assert(s.subrange(p, i + 1).last() == s[i]);
            assert(digits_val(s.subrange(p, i + 1)) == v as nat * 10 + d as nat);
            assert(digits_val(s.subrange(p, q)) > u64::MAX as nat);
            assert(digits_val(dec(w as nat)) == w as nat);
            assert(false);
        }
    }
}

/// Checks that `lit` stands in `s` at position `p`.
fn expect_lit(s: &str, p: usize, lit: &str) -> (r: Option<usize>)
    requires
        p <= s@.len(),
    ensures
        match r {
            Some(q) => q == p + lit@.len() && q <= s@.len() && s@.subrange(p as int, q as int)
                == lit@,
            None => !(p + lit@.len() <= s@.len() && s@.subrange(p as int, p + lit@.len() as int)
                == lit@),
        },
{
    let n = s.unicode_len();
    let k = lit.unicode_len();
    if k > n - p {
        return None;
    }
    let mut i: usize = 0;
    while i < k
        invariant
            n == s@.len(),
            k == lit@.len(),
            p + k <= n,
            i <= k,
            forall|j: int| 0 <= j < i ==> s@[p + j] == lit@[j],
        decreases k - i,
    {
        if s.get_char(p + i) != lit.get_char(i) {
            assert(s@.subrange(p as int, p + k as int)[i as int] == s@[p + i]);
            return None;
        }
        i = i + 1;
    }
    assert(s@.subrange(p as int, p + k as int) =~= lit@);
    Some(p + k)
}

/// Shifts a scan result by an already-consumed prefix: `acc` characters of
/// content and `off` input positions.
pub open spec fn scan_shift(acc: Seq<char>, off: int, r: Option<(Seq<char>, int)>) -> Option<
    (Seq<char>, int),
> {
    match r {
        Some(tk) => Some((acc + tk.0, off + tk.1)),
        None => None,
    }
}

/// Scans one string field of the payload, starting right after its opening
/// quote at position `p`; returns the unescaped content and the position
/// just past the closing quote.
fn scan_string(s: &str, p: usize) -> (r: Option<(String, usize)>)
    requires
        p <= s@.len(),
    ensures
        match r {
            Some(t) => p < t.1 && t.1 <= s@.len() && scan_str(s@.skip(p as int)) == Some(
                (t.0@, t.1 - p as int),
            ),
            None => scan_str(s@.skip(p as int)) is None,
        },
{
    let n = s.unicode_len();
    let mut i: usize = p;
    let mut out = String::new();
    while i < n
        invariant
            n == s@.len(),
            p <= i <= n,
            scan_str(s@.skip(p as int)) == scan_shift(out@, i - p, scan_str(s@.skip(i as int))),
        decreases n - i,
    {
        let c = s.get_char(i);
        proof {
            assert(s@.skip(i as int)[0] == c);
            assert(s@.skip(i as int).len() == n - i);
        }
        if c == '"' {
            proof {
                assert(scan_str(s@.skip(i as int)) == Some((Seq::<char>::empty(), 1int)));
                assert(out@ + Seq::<char>::empty() =~= out@);
            }
            return Some((out, i + 1));
        } else if c == '\\' {
            if i + 1 == n {
                proof {
                    assert(scan_str(s@.skip(i as int)) is None);
                }
                return None;
            }
            let d = s.get_char(i + 1);
            proof {
                assert(s@.skip(i as int)[1] == d);
            }
            if d == '"' || d == '\\' {
                let ghost out0 = out@;
                let piece = s.substring_char(i + 1, i + 2);
                out.append(piece);
                proof {
                    assert(piece@ =~= seq![d]);
                    assert(s@.skip(i as int).skip(2) =~= s@.skip(i + 2));
                    match scan_str(s@.skip(i + 2)) {
                        Some(tk) => {
                            assert(scan_str(s@.skip(i as int)) == Some((seq![d] + tk.0, tk.1 + 2)));
                            assert(out0 + (seq![d] + tk.0) =~= out@ + tk.0);
                        },
                        None => {
                            assert(scan_str(s@.skip(i as int)) is None);
                        },
                    }
                }
                i = i + 2;
            } else {
                proof {
                    assert(scan_str(s@.skip(i as int)) is None);
                }
                return None;
            }
        } else {
            let ghost out0 = out@;
            let piece = s.substring_char(i, i + 1);
            out.append(piece);
            proof {
                assert(piece@ =~= seq![c]);
                assert(s@.skip(i as int).skip(1) =~= s@.skip(i + 1));
                match scan_str(s@.skip(i + 1)) {
                    Some(tk) => {
                        assert(scan_str(s@.skip(i as int)) == Some((seq![c] + tk.0, tk.1 + 1)));
                        assert(out0 + (seq![c] + tk.0) =~= out@ + tk.0);
                    },
                    None => {
                        assert(scan_str(s@.skip(i as int)) is None);
                    },
                }
            }
            i = i + 1;
        }
    }
    proof {
        assert(s@.skip(i as int).len() == 0);
        assert(scan_str(s@.skip(i as int)) is None);
    }
    None
}

/// How an encoded alert splits into its literal and field segments.
#[verifier::rlimit(100)]
#[verifier::spinoff_prover]
proof fn lemma_encode_parts(m: (Seq<char>, Seq<char>, u64))
    ensures
        encode_spec(m).len() == 46 + esc(m.0).len() + esc(m.1).len() + dec(m.2 as nat).len(),
        scan_str(encode_spec(m).skip(14)) == Some((m.0, esc(m.0).len() + 1int)),
        scan_str(encode_spec(m).skip((31 + esc(m.0).len()) as int)) == Some(
            (m.1, esc(m.1).len() + 1int),
        ),
        encode_spec(m)[(45 + esc(m.0).len() + esc(m.1).len() + dec(m.2 as nat).len()) as int]
            == '}',
        encode_spec(m).subrange(0, 14) == lit_head(),
        encode_spec(m).skip(14) == esc(m.0) + seq!['"'] + (lit_mid() + esc(m.1) + seq!['"']
            + lit_ts() + dec(m.2 as nat) + seq!['}']),
        encode_spec(m).subrange((15 + esc(m.0).len()) as int, (31 + esc(m.0).len()) as int) == lit_mid(),
        encode_spec(m).skip((31 + esc(m.0).len()) as int) == esc(m.1) + seq!['"'] + (lit_ts() + dec(
            m.2 as nat,
        ) + seq!['}']),
        encode_spec(m).subrange(
            (32 + esc(m.0).len() + esc(m.1).len()) as int,
            (45 + esc(m.0).len() + esc(m.1).len()) as int,
        ) == lit_ts(),
        encode_spec(m).subrange(
            (45 + esc(m.0).len() + esc(m.1).len()) as int,
            (45 + esc(m.0).len() + esc(m.1).len() + dec(m.2 as nat).len()) as int,
        ) == dec(m.2 as nat),
        encode_spec(m).subrange(
            (45 + esc(m.0).len() + esc(m.1).len() + dec(m.2 as nat).len()) as int,
            (46 + esc(m.0).len() + esc(m.1).len() + dec(m.2 as nat).len()) as int,
        ) == seq!['}'],
{
    let e = encode_spec(m);
    assert(e.len() == 46 + esc(m.0).len() + esc(m.1).len() + dec(m.2 as nat).len());
    assert(e.subrange(0, 14) =~= lit_head());
    assert(e.skip(14) =~= esc(m.0) + seq!['"'] + (lit_mid() + esc(m.1) + seq!['"'] + lit_ts()
        + dec(m.2 as nat) + seq!['}']));
    assert(e.subrange((15 + esc(m.0).len()) as int, (31 + esc(m.0).len()) as int) =~= lit_mid());
    assert(e.skip((31 + esc(m.0).len()) as int) =~= esc(m.1) + seq!['"'] + (lit_ts() + dec(m.2 as nat)
        + seq!['}']));
    assert(e.subrange(
        (32 + esc(m.0).len() + esc(m.1).len()) as int,
        (45 + esc(m.0).len() + esc(m.1).len()) as int,
    ) =~= lit_ts());
    assert(e.subrange(
        (45 + esc(m.0).len() + esc(m.1).len()) as int,
        (45 + esc(m.0).len() + esc(m.1).len() + dec(m.2 as nat).len()) as int,
    ) =~= dec(m.2 as nat));
    assert(e.subrange(
        (45 + esc(m.0).len() + esc(m.1).len() + dec(m.2 as nat).len()) as int,
        (46 + esc(m.0).len() + esc(m.1).len() + dec(m.2 as nat).len()) as int,
    ) =~= seq!['}']);
    lemma_scan_of_esc(
        m.0,
        lit_mid() + esc(m.1) + seq!['"'] + lit_ts() + dec(m.2 as nat) + seq!['}'],
    );
    lemma_scan_of_esc(m.1, lit_ts() + dec(m.2 as nat) + seq!['}']);
    assert(e[(45 + esc(m.0).len() + esc(m.1).len() + dec(m.2 as nat).len()) as int] == '}') by {
        assert(e.subrange(
            (45 + esc(m.0).len() + esc(m.1).len() + dec(m.2 as nat).len()) as int,
            (46 + esc(m.0).len() + esc(m.1).len() + dec(m.2 as nat).len()) as int,
        )[0] == e[(45 + esc(m.0).len() + esc(m.1).len() + dec(m.2 as nat).len()) as int]);
    }
}

/// A payload that does not open with the head literal is no alert.
proof fn lemma_reject_head(s: Seq<char>)
    requires
        !(14 <= s.len() && s.subrange(0, 14) == lit_head()),
    ensures
        forall|m: (Seq<char>, Seq<char>, u64)| s != #[trigger] encode_spec(m),
{
    assert forall|m: (Seq<char>, Seq<char>, u64)| s != #[trigger] encode_spec(m) by {
        if s == encode_spec(m) {
            lemma_encode_parts(m);
        }
    }
}

/// A payload whose sender field does not scan is no alert.
proof fn lemma_reject_sender(s: Seq<char>)
    requires
        scan_str(s.skip(14)) is None,
    ensures
        forall|m: (Seq<char>, Seq<char>, u64)| s != #[trigger] encode_spec(m),
{
    assert forall|m: (Seq<char>, Seq<char>, u64)| s != #[trigger] encode_spec(m) by {
        if s == encode_spec(m) {
            lemma_encode_parts(m);
        }
    }
}

/// A payload without the threat-type literal after the sender field is no
/// alert.
proof fn lemma_reject_mid(s: Seq<char>, ip: Seq<char>, p2: int)
    requires
        scan_str(s.skip(14)) == Some((ip, p2 - 14)),
        !(p2 + 16 <= s.len() && s.subrange(p2, p2 + 16) == lit_mid()),
    ensures
        forall|m: (Seq<char>, Seq<char>, u64)| s != #[trigger] encode_spec(m),
{
    assert forall|m: (Seq<char>, Seq<char>, u64)| s != #[trigger] encode_spec(m) by {
        if s == encode_spec(m) {
            lemma_encode_parts(m);
            assert(m.0 == ip && 15 + esc(m.0).len() == p2);
        }
    }
}

/// A payload whose threat field does not scan is no alert.
proof fn lemma_reject_threat(s: Seq<char>, ip: Seq<char>, p2: int)
    requires
        scan_str(s.skip(14)) == Some((ip, p2 - 14)),
        scan_str(s.skip(p2 + 16)) is None,
    ensures
        forall|m: (Seq<char>, Seq<char>, u64)| s != #[trigger] encode_spec(m),
{
    assert forall|m: (Seq<char>, Seq<char>, u64)| s != #[trigger] encode_spec(m) by {
        if s == encode_spec(m) {
            lemma_encode_parts(m);
            assert(m.0 == ip && 15 + esc(m.0).len() == p2);
            assert(scan_str(s.skip(p2 + 16)) is Some);
        }
    }
}

/// A payload without the timestamp literal after the threat field is no
/// alert.
proof fn lemma_reject_ts_lit(s: Seq<char>, ip: Seq<char>, p2: int, tt: Seq<char>, p4: int)
    requires
        scan_str(s.skip(14)) == Some((ip, p2 - 14)),
        scan_str(s.skip(p2 + 16)) == Some((tt, p4 - p2 - 16)),
        !(p4 + 13 <= s.len() && s.subrange(p4, p4 + 13) == lit_ts()),
    ensures
        forall|m: (Seq<char>, Seq<char>, u64)| s != #[trigger] encode_spec(m),
{
    assert forall|m: (Seq<char>, Seq<char>, u64)| s != #[trigger] encode_spec(m) by {
        if s == encode_spec(m) {
            lemma_encode_parts(m);
            assert(m.0 == ip && 15 + esc(m.0).len() == p2);
            assert(m.1 == tt && 32 + esc(m.0).len() + esc(m.1).len() == p4);
        }
    }
}

/// A payload without a canonical decimal bounded by a non-digit after the
/// timestamp literal is no alert.
proof fn lemma_reject_number(s: Seq<char>, ip: Seq<char>, p2: int, tt: Seq<char>, p4: int)
    requires
        scan_str(s.skip(14)) == Some((ip, p2 - 14)),
        scan_str(s.skip(p2 + 16)) == Some((tt, p4 - p2 - 16)),
        forall|v: u64, q: int|
            #![trigger dec(v as nat), s.subrange(p4 + 13, q)]
            p4 + 13 <= q <= s.len() && (q == s.len() || !is_digit(s[q])) ==> s.subrange(
                p4 + 13,
                q,
            ) != dec(v as nat),
    ensures
        forall|m: (Seq<char>, Seq<char>, u64)| s != #[trigger] encode_spec(m),
{
    assert(!is_digit('}'));
    assert forall|m: (Seq<char>, Seq<char>, u64)| s != #[trigger] encode_spec(m) by {
        if s == encode_spec(m) {
            lemma_encode_parts(m);
            assert(m.0 == ip && 15 + esc(m.0).len() == p2);
            assert(m.1 == tt && 32 + esc(m.0).len() + esc(m.1).len() == p4);
            let q5 = p4 + 13 + dec(m.2 as nat).len() as int;
            assert(s.subrange(p4 + 13, q5) == dec(m.2 as nat));
            assert(s[q5] == '}');
            assert(false);
        }
    }
}

/// A payload whose decimal is not closed by `}` is no alert.
proof fn lemma_reject_brace(
    s: Seq<char>,
    ip: Seq<char>,
    p2: int,
    tt: Seq<char>,
    p4: int,
    ts: u64,
    p6: int,
)
    requires
        scan_str(s.skip(14)) == Some((ip, p2 - 14)),
        scan_str(s.skip(p2 + 16)) == Some((tt, p4 - p2 - 16)),
        p4 + 13 < p6 <= s.len(),
        s.subrange(p4 + 13, p6) == dec(ts as nat),
        p6 == s.len() || !is_digit(s[p6]),
        !(p6 + 1 <= s.len() && s.subrange(p6, p6 + 1) == seq!['}']),
    ensures
        forall|m: (Seq<char>, Seq<char>, u64)| s != #[trigger] encode_spec(m),
{
    assert(!is_digit('}'));
    assert forall|m: (Seq<char>, Seq<char>, u64)| s != #[trigger] encode_spec(m) by {
        if s == encode_spec(m) {
            lemma_encode_parts(m);
            assert(m.0 == ip && 15 + esc(m.0).len() == p2);
            assert(m.1 == tt && 32 + esc(m.0).len() + esc(m.1).len() == p4);
            let q5 = p4 + 13 + dec(m.2 as nat).len() as int;
            assert(s.subrange(p4 + 13, q5) == dec(m.2 as nat));
            assert(s[q5] == '}');
            lemma_dec_len(m.2 as nat);
            lemma_number_unique(s, p4 + 13, ts, p6, m.2, q5);
            assert(s.subrange(p6, p6 + 1) == seq!['}']);
            assert(false);
        }
    }
}

/// A payload with trailing text after the closing brace is no alert.
proof fn lemma_reject_trailing(
    s: Seq<char>,
    ip: Seq<char>,
    p2: int,
    tt: Seq<char>,
    p4: int,
    ts: u64,
    p6: int,
)
    requires
        scan_str(s.skip(14)) == Some((ip, p2 - 14)),
        scan_str(s.skip(p2 + 16)) == Some((tt, p4 - p2 - 16)),
        p4 + 13 < p6 <= s.len(),
        s.subrange(p4 + 13, p6) == dec(ts as nat),
        p6 == s.len() || !is_digit(s[p6]),
        p6 + 1 != s.len(),
    ensures
        forall|m: (Seq<char>, Seq<char>, u64)| s != #[trigger] encode_spec(m),
{
    assert(!is_digit('}'));
    assert forall|m: (Seq<char>, Seq<char>, u64)| s != #[trigger] encode_spec(m) by {
        if s == encode_spec(m) {
            lemma_encode_parts(m);
            assert(m.0 == ip && 15 + esc(m.0).len() == p2);
            assert(m.1 == tt && 32 + esc(m.0).len() + esc(m.1).len() == p4);
            let q5 = p4 + 13 + dec(m.2 as nat).len() as int;
            assert(s.subrange(p4 + 13, q5) == dec(m.2 as nat));
            assert(s[q5] == '}');
            lemma_dec_len(m.2 as nat);
            lemma_number_unique(s, p4 + 13, ts, p6, m.2, q5);
            assert(s.len() == p6 + 1);
            assert(false);
        }
    }
}

/// A payload made of exactly the seven segments of the wire layout is the
/// encoding of the alert they spell.
proof fn lemma_assemble(
    s: Seq<char>,
    ip: Seq<char>,
    tt: Seq<char>,
    ts: u64,
    p2: int,
    p4: int,
    p6: int,
)
    requires
        14 <= p2 <= p2 + 16 <= p4 <= p4 + 13 <= p6 < s.len(),
        s.subrange(0, 14) == lit_head(),
        s.subrange(14, p2) == esc(ip) + seq!['"'],
        s.subrange(p2, p2 + 16) == lit_mid(),
        s.subrange(p2 + 16, p4) == esc(tt) + seq!['"'],
        s.subrange(p4, p4 + 13) == lit_ts(),
        s.subrange(p4 + 13, p6) == dec(ts as nat),
        s.subrange(p6, p6 + 1) == seq!['}'],
        p6 + 1 == s.len(),
    ensures
        s == encode_spec((ip, tt, ts)),
{
    assert(s =~= s.subrange(0, 14) + s.subrange(14, p2) + s.subrange(p2, p2 + 16) + s.subrange(
        p2 + 16,
        p4,
    ) + s.subrange(p4, p4 + 13) + s.subrange(p4 + 13, p6) + s.subrange(p6, p6 + 1));
    assert(s =~= lit_head() + esc(ip) + seq!['"'] + lit_mid() + esc(tt) + seq!['"'] + lit_ts()
        + dec(ts as nat) + seq!['}']);
}

/// Parses one datagram payload. Returns the alert exactly when the payload
/// is the canonical encoding of one - so a well-formed datagram reaches the
/// alert sink exactly once, and any other byte sequence is silently dropped.
#[verifier::rlimit(60)]
#[verifier::spinoff_prover]
pub fn parse_alert(s: &str) -> (r: Option<Alert>)
    ensures
        match r {
            Some(a) => s@ == encode_spec(a@),
            None => forall|m: (Seq<char>, Seq<char>, u64)| s@ != #[trigger] encode_spec(m),
        },
{
    let n = s.unicode_len();
    proof {
        reveal_strlit("{\"sender_ip\":\"");
        assert("{\"sender_ip\":\""@ =~= lit_head());
        reveal_strlit(",\"threat_type\":\"");
        assert(",\"threat_type\":\""@ =~= lit_mid());
        reveal_strlit(",\"timestamp\":");
        assert(",\"timestamp\":"@ =~= lit_ts());
        reveal_strlit("}");
        assert("}"@ =~= seq!['}']);
        assert(!is_digit('}'));
    }
    let p1 = match expect_lit(s, 0, "{\"sender_ip\":\"") {
        Some(q) => q,
        None => {
            proof {
                lemma_reject_head(s@);
            }
            return None;
        },
    };
    let (ip, p2) = match scan_string(s, p1) {
        Some(t) => t,
        None => {
            proof {
                lemma_reject_sender(s@);
            }
            return None;
        },
    };
    proof {
        assert(scan_str(s@.skip(14)) == Some((ip@, p2 - 14int)));
        lemma_scan_sound(s@.skip(14));
        assert(s@.skip(14).take(p2 - 14) == esc(ip@) + seq!['"']);
    }
    let p3 = match expect_lit(s, p2, ",\"threat_type\":\"") {
        Some(q) => q,
        None => {
            proof {
                lemma_reject_mid(s@, ip@, p2 as int);
            }
            return None;
        },
    };
    let (tt, p4) = match scan_string(s, p3) {
        Some(t) => t,
        None => {
            proof {
                lemma_reject_threat(s@, ip@, p2 as int);
            }
            return None;
        },
    };
    proof {
        assert(scan_str(s@.skip(p3 as int)) == Some((tt@, p4 - p3 as int)));
        lemma_scan_sound(s@.skip(p3 as int));
        assert(s@.skip(p3 as int).take(p4 - p3) == esc(tt@) + seq!['"']);
    }
    let p5 = match expect_lit(s, p4, ",\"timestamp\":") {
        Some(q) => q,
        None => {
            proof {
                lemma_reject_ts_lit(s@, ip@, p2 as int, tt@, p4 as int);
            }
            return None;
        },
    };
    let (ts, p6) = match parse_number(s, p5) {
        Some(t) => t,
        None => {
            proof {
                lemma_reject_number(s@, ip@, p2 as int, tt@, p4 as int);
            }
            return None;
        },
    };
    let p7 = match expect_lit(s, p6, "}") {
        Some(q) => q,
        None => {
            proof {
                lemma_reject_brace(s@, ip@, p2 as int, tt@, p4 as int, ts, p6 as int);
            }
            return None;
        },
    };
    if p7 != n {
        proof {
            lemma_reject_trailing(s@, ip@, p2 as int, tt@, p4 as int, ts, p6 as int);
        }
        return None;
    }
    proof {
        assert(s@.subrange(14, p2 as int) == esc(ip@) + seq!['"']) by {
            assert(s@.subrange(14, p2 as int) =~= s@.skip(14).take(p2 - 14));
        }
        assert(s@.subrange(p3 as int, p4 as int) == esc(tt@) + seq!['"']) by {
            assert(s@.subrange(p3 as int, p4 as int) =~= s@.skip(p3 as int).take(p4 - p3));
        }
        lemma_assemble(s@, ip@, tt@, ts, p2 as int, p4 as int, p6 as int);
    }
    Some(Alert { sender_ip: ip, threat_type: tt, timestamp: ts })
}

/// No two distinct alerts share a wire form. Together with the parser's
/// contract this gives the round trip: the datagram broadcast for an alert
/// is accepted by every listener and parses back to exactly that alert,
/// while a payload that is no alert encoding is dropped and never reaches
/// the sink.
pub proof fn lemma_encode_injective(a: (Seq<char>, Seq<char>, u64), b: (Seq<char>, Seq<char>, u64))
    requires
        encode_spec(a) == encode_spec(b),
    ensures
        a == b,
{
    let e = encode_spec(a);
    lemma_encode_parts(a);
    lemma_encode_parts(b);
    assert(a.0 == b.0 && esc(a.0).len() == esc(b.0).len());
    assert(a.1 == b.1 && esc(a.1).len() == esc(b.1).len());
    let q4 = (45 + esc(a.0).len() + esc(a.1).len()) as int;
    let q5a = q4 + dec(a.2 as nat).len();
    let q5b = q4 + dec(b.2 as nat).len();
    assert(e[q5a] == '}') by {
        assert(e.subrange(q5a, q5a + 1)[0] == e[q5a]);
    }
    assert(e[q5b] == '}') by {
        assert(e.subrange(q5b, q5b + 1)[0] == e[q5b]);
    }
    assert(!is_digit('}'));
    lemma_dec_len(a.2 as nat);
    lemma_dec_len(b.2 as nat);
    lemma_number_unique(e, q4, a.2, q5a, b.2, q5b);
    assert(a =~= b);
}

/// Two canonical decimals that start at the same position and end at a
/// non-digit boundary are the same number ending at the same place.
proof fn lemma_number_unique(s: Seq<char>, p: int, v1: u64, q1: int, v2: u64, q2: int)
    requires
        0 <= p,
        p < q1 <= s.len(),
        p < q2 <= s.len(),
        s.subrange(p, q1) == dec(v1 as nat),
        s.subrange(p, q2) == dec(v2 as nat),
        q1 == s.len() || !is_digit(s[q1]),
        q2 == s.len() || !is_digit(s[q2]),
    ensures
        q1 == q2,
        v1 == v2,
{
    lemma_dec_canonical(v1 as nat);
    lemma_dec_canonical(v2 as nat);
    assert forall|k: int| p <= k < q1 implies is_digit(#[trigger] s[k]) by {
        assert(s.subrange(p, q1)[k - p] == s[k]);
        assert(is_digit(dec(v1 as nat)[k - p]));
    }
    assert forall|k: int| p <= k < q2 implies is_digit(#[trigger] s[k]) by {
        assert(s.subrange(p, q2)[k - p] == s[k]);
        assert(is_digit(dec(v2 as nat)[k - p]));
    }
    if q1 < q2 {
        assert(is_digit(s[q1]));
        assert(false);
    } else if q2 < q1 {
        assert(is_digit(s[q2]));
        assert(false);
    }
    lemma_val_of_dec(v1 as nat);
    lemma_val_of_dec(v2 as nat);
}

/// Encodes `a` into the wire form sent as one datagram payload.
pub fn encode_alert(a: &Alert) -> (out: String)
    ensures
        out@ == encode_spec(a@),
{
    let mut out = String::new();
    out.append("{\"sender_ip\":\"");
    proof {
        reveal_strlit("{\"sender_ip\":\"");
        assert(out@ =~= lit_head());
    }
    append_escaped(&mut out, a.sender_ip.as_str());
    out.append("\",\"threat_type\":\"");
    proof {
        reveal_strlit("\",\"threat_type\":\"");
        assert(out@ =~= lit_head() + esc(a.sender_ip@) + seq!['"'] + lit_mid());
    }
    append_escaped(&mut out, a.threat_type.as_str());
    out.append("\",\"timestamp\":");
    proof {
        reveal_strlit("\",\"timestamp\":");
        assert(out@ =~= lit_head() + esc(a.sender_ip@) + seq!['"'] + lit_mid() + esc(
            a.threat_type@,
        ) + seq!['"'] + lit_ts());
    }
    append_u64(&mut out, a.timestamp);
    out.append("}");
    proof {
        reveal_strlit("}");
        assert(out@ =~= encode_spec(a@));
    }
    out
}

} // verus!
