//! Verified text helpers shared across the library: percent-encoding,
//! canonical decimal numerals, and character-level string equality.

use vstd::prelude::*;

verus! {

/// How one character is written in a percent-encoded query value: the four
/// characters that would split or terminate the value are escaped, every
/// other character passes through.
pub open spec fn url_encode_char(c: char) -> Seq<char> {
    if c == ' ' {
        seq!['%', '2', '0']
    } else if c == ';' {
        seq!['%', '3', 'B']
    } else if c == '/' {
        seq!['%', '2', 'F']
    } else if c == '&' {
        seq!['%', '2', '6']
    } else {
        seq![c]
    }
}

/// The percent-encoded form of a whole string.
pub open spec fn url_encode_spec(s: Seq<char>) -> Seq<char>
    decreases s.len(),
{
    if s.len() == 0 {
        Seq::empty()
    } else {
        url_encode_char(s[0]) + url_encode_spec(s.drop_first())
    }
}

/// Percent-encoding distributes over appending one character.
proof fn lemma_url_encode_snoc(s: Seq<char>, c: char)
    ensures
        url_encode_spec(s.push(c)) == url_encode_spec(s) + url_encode_char(c),
    decreases s.len(),
{
    if s.len() == 0 {
        assert(s.push(c).drop_first() =~= Seq::<char>::empty());
        assert(s.push(c)[0] == c);
        assert(url_encode_spec(s.push(c)) == url_encode_char(c) + url_encode_spec(
            s.push(c).drop_first(),
        ));
        assert(url_encode_spec(s.push(c)) =~= url_encode_spec(s) + url_encode_char(c));
    } else {
        assert(s.push(c).drop_first() =~= s.drop_first().push(c));
        assert(s.push(c)[0] == s[0]);
        lemma_url_encode_snoc(s.drop_first(), c);
        assert(url_encode_spec(s.push(c)) == url_encode_char(s[0]) + (url_encode_spec(
            s.drop_first(),
        ) + url_encode_char(c)));
        assert(url_encode_spec(s.push(c)) =~= url_encode_spec(s) + url_encode_char(c));
    }
}

/// Percent-encodes `s` for use as one query-string value.
pub fn url_encode(s: &str) -> (r: String)
    ensures
        r@ == url_encode_spec(s@),
{
    let n = s.unicode_len();
    let mut out = String::new();
    let mut i: usize = 0;
    proof {
        assert(s@.take(0) =~= Seq::<char>::empty());
        assert(out@ =~= url_encode_spec(s@.take(0)));
    }
    while i < n
        invariant
            n == s@.len(),
            i <= n,
            out@ == url_encode_spec(s@.take(i as int)),
        decreases n - i,
    {
        let c = s.get_char(i);
        if c == ' ' {
            out.append("%20");
            proof {
                reveal_strlit("%20");
            }
        } else if c == ';' {
            out.append("%3B");
            proof {
                reveal_strlit("%3B");
            }
        } else if c == '/' {
            out.append("%2F");
            proof {
                reveal_strlit("%2F");
            }
        } else if c == '&' {
            out.append("%26");
            proof {
                reveal_strlit("%26");
            }
        } else {
            let piece = s.substring_char(i, i + 1);
            out.append(piece);
            proof {
                assert(piece@ =~= url_encode_char(c));
            }
        }
        proof {
            lemma_url_encode_snoc(s@.take(i as int), c);
            assert(s@.take(i + 1) =~= s@.take(i as int).push(c));
            assert(out@ =~= url_encode_spec(s@.take(i + 1)));
        }
        i = i + 1;
    }
    proof {
        assert(s@.take(n as int) =~= s@);
    }
    out
}

/// The canonical decimal digits of `n`, most significant first.
pub open spec fn dec(n: nat) -> Seq<char>
    decreases n,
{
    if n < 10 {
        seq![digit_char(n)]
    } else {
        dec(n / 10).push(digit_char(n % 10))
    }
}

/// The digit character for a value below ten.
pub open spec fn digit_char(d: nat) -> char {
    if d == 0 {
        '0'
    } else if d == 1 {
        '1'
    } else if d == 2 {
        '2'
    } else if d == 3 {
        '3'
    } else if d == 4 {
        '4'
    } else if d == 5 {
        '5'
    } else if d == 6 {
        '6'
    } else if d == 7 {
        '7'
    } else if d == 8 {
        '8'
    } else {
        '9'
    }
}

/// The numeric value of a digit character (ten when it is no digit).
pub open spec fn digit_val(c: char) -> nat {
    if c == '0' {
        0
    } else if c == '1' {
        1
    } else if c == '2' {
        2
    } else if c == '3' {
        3
    } else if c == '4' {
        4
    } else if c == '5' {
        5
    } else if c == '6' {
        6
    } else if c == '7' {
        7
    } else if c == '8' {
        8
    } else if c == '9' {
        9
    } else {
        10
    }
}

pub open spec fn is_digit(c: char) -> bool {
    digit_val(c) < 10
}

/// The value of a digit string, most significant first.
pub open spec fn digits_val(s: Seq<char>) -> nat
    decreases s.len(),
{
    if s.len() == 0 {
        0
    } else {
        digits_val(s.drop_last()) * 10 + digit_val(s.last())
    }
}

/// A canonical decimal: at least one digit, all digits, no leading zero
/// unless the number is exactly `0`.
pub open spec fn canonical_dec(s: Seq<char>) -> bool {
    &&& s.len() > 0
    &&& forall|i: int| 0 <= i < s.len() ==> is_digit(#[trigger] s[i])
    &&& (s[0] == '0' ==> s.len() == 1)
}

/// Every canonical decimal has at least one digit; ten or more take two.
pub proof fn lemma_dec_len(n: nat)
    ensures
        dec(n).len() >= 1,
        n >= 10 ==> dec(n).len() >= 2,
    decreases n,
{
    if n >= 10 {
        lemma_dec_len(n / 10);
    }
}

/// The canonical decimal of any number is indeed canonical.
pub proof fn lemma_dec_canonical(n: nat)
    ensures
        canonical_dec(dec(n)),
    decreases n,
{
    if n < 10 {
        assert(is_digit(dec(n)[0]));
    } else {
        lemma_dec_canonical(n / 10);
        assert(dec(n)[0] == dec(n / 10)[0]);
        assert(dec(n)[0] == '0' ==> false) by {
            if dec(n / 10)[0] == '0' {
                assert(dec(n / 10).len() == 1);
                if n / 10 < 10 {
                    assert(digit_char(n / 10) == '0');
                    assert(n / 10 == 0);
                } else {
                    lemma_dec_len(n / 10);
                }
            }
        }
        assert(forall|i: int| 0 <= i < dec(n).len() ==> is_digit(#[trigger] dec(n)[i])) by {
            assert(forall|i: int|
                0 <= i < dec(n / 10).len() ==> dec(n)[i] == #[trigger] dec(n / 10)[i]);
            assert(dec(n).last() == digit_char(n % 10));
            assert(is_digit(digit_char(n % 10)));
        }
    }
}

/// Reading the digits of `n` back gives `n`.
pub proof fn lemma_val_of_dec(n: nat)
    ensures
        digits_val(dec(n)) == n,
    decreases n,
{
    if n < 10 {
        assert(dec(n) == seq![digit_char(n)]);
        assert(dec(n).drop_last() =~= Seq::<char>::empty());
        assert(dec(n).last() == digit_char(n));
        assert(digits_val(Seq::<char>::empty()) == 0);
        assert(digits_val(dec(n)) == digit_val(digit_char(n)));
        assert(digit_val(digit_char(n)) == n);
    } else {
        lemma_val_of_dec(n / 10);
        assert(dec(n) == dec(n / 10).push(digit_char(n % 10)));
        assert(dec(n).drop_last() =~= dec(n / 10));
        assert(dec(n).last() == digit_char(n % 10));
        assert(digits_val(dec(n)) == digits_val(dec(n / 10)) * 10 + digit_val(
            digit_char(n % 10),
        ));
        assert(digit_val(digit_char(n % 10)) == n % 10);
        vstd::arithmetic::div_mod::lemma_fundamental_div_mod(n as int, 10);
    }
}

/// A digit string that does not start with `0` has a positive value.
pub proof fn lemma_val_positive(t: Seq<char>)
    requires
        t.len() > 0,
        is_digit(t[0]),
        t[0] != '0',
    ensures
        digits_val(t) >= 1,
    decreases t.len(),
{
    if t.len() == 1 {
        assert(t.drop_last() =~= Seq::<char>::empty());
        assert(digit_val(t[0]) >= 1);
    } else {
        assert(t.drop_last()[0] == t[0]);
        lemma_val_positive(t.drop_last());
    }
}

/// Appending further digits never lowers the value.
pub proof fn lemma_val_append(t: Seq<char>, u: Seq<char>)
    ensures
        digits_val(t + u) >= digits_val(t),
    decreases u.len(),
{
    if u.len() == 0 {
        assert(t + u =~= t);
    } else {
        assert((t + u).drop_last() =~= t + u.drop_last());
        lemma_val_append(t, u.drop_last());
    }
}

/// There is exactly one canonical decimal for each value.
pub proof fn lemma_dec_unique(t: Seq<char>, n: nat)
    requires
        canonical_dec(t),
        digits_val(t) == n,
    ensures
        t == dec(n),
    decreases t.len(),
{
    if t.len() == 1 {
        assert(t.drop_last() =~= Seq::<char>::empty());
        assert(n == digit_val(t[0]));
        assert(n < 10);
        assert(digit_char(digit_val(t[0])) == t[0]);
        assert(t =~= dec(n));
    } else {
        assert(t[0] != '0');
        let t0 = t.drop_last();
        assert(t0[0] == t[0]);
        assert(forall|i: int| 0 <= i < t0.len() ==> is_digit(#[trigger] t0[i])) by {
            assert(forall|i: int| 0 <= i < t0.len() ==> t0[i] == #[trigger] t[i]);
        }
        lemma_val_positive(t0);
        lemma_dec_unique(t0, digits_val(t0));
        let d = digit_val(t.last());
        assert(d < 10);
        assert(n == digits_val(t0) * 10 + d);
        assert(n >= 10);
        vstd::arithmetic::div_mod::lemma_fundamental_div_mod_converse(
            n as int,
            10,
            digits_val(t0) as int,
            d as int,
        );
        assert(n / 10 == digits_val(t0) && n % 10 == d);
        assert(digit_char(digit_val(t.last())) == t.last());
        assert(t =~= dec(n / 10).push(digit_char(n % 10)));
    }
}

/// The digit character of `d`, as text.
fn digit_str(d: u64) -> (r: &'static str)
    requires
        d < 10,
    ensures
        r@ == seq![digit_char(d as nat)],
{
    proof {
        reveal_strlit("0");
        reveal_strlit("1");
        reveal_strlit("2");
        reveal_strlit("3");
        reveal_strlit("4");
        reveal_strlit("5");
        reveal_strlit("6");
        reveal_strlit("7");
        reveal_strlit("8");
        reveal_strlit("9");
    }
    match d {
        0 => "0",
        1 => "1",
        2 => "2",
        3 => "3",
        4 => "4",
        5 => "5",
        6 => "6",
        7 => "7",
        8 => "8",
        _ => "9",
    }
}

/// Appends the canonical decimal digits of `m` to `out`.
pub fn append_u64(out: &mut String, m: u64)
    ensures
        final(out)@ == old(out)@ + dec(m as nat),
    decreases m,
{
    if m < 10 {
        out.append(digit_str(m));
    } else {
        append_u64(out, m / 10);
        out.append(digit_str(m % 10));
        proof {
            assert(out@ =~= old(out)@ + dec(m as nat));
        }
    }
}

/// Character-for-character string equality.
pub fn str_eq(a: &str, b: &str) -> (r: bool)
    ensures
        r == (a@ == b@),
{
    let n = a.unicode_len();
    if n != b.unicode_len() {
        return false;
    }
    let mut i: usize = 0;
    while i < n
        invariant
            n == a@.len(),
            n == b@.len(),
            i <= n,
            forall|j: int| 0 <= j < i ==> a@[j] == b@[j],
        decreases n - i,
    {
        if a.get_char(i) != b.get_char(i) {
            return false;
        }
        i = i + 1;
    }
    proof {
        assert(a@ =~= b@);
    }
    true
}

} // verus!
