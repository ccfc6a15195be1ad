//! Text helpers shared by the formatters and parsers: integers rendered as
//! digits, and strings read as characters.

use vstd::prelude::*;
use vstd::string::StringExecFns;

verus! {

/// The ASCII digit for `d`, where `0 <= d < 16` (lower-case for hex digits).
pub open spec fn digit_char(d: int) -> char {
    if d < 10 {
        (48 + d) as char
    } else {
        (87 + d) as char
    }
}

/// Decimal digits of `n`, most significant first, with no leading zeros
/// (a single `0` for zero).
pub open spec fn decimal(n: nat) -> Seq<char>
    decreases n,
{
    if n < 10 {
        seq![digit_char(n as int)]
    } else {
        decimal(n / 10).push(digit_char((n % 10) as int))
    }
}

/// Decimal text of a signed integer: a `-` in front of negative values.
pub open spec fn signed_decimal(n: int) -> Seq<char> {
    if n < 0 {
        seq!['-'] + decimal((-n) as nat)
    } else {
        decimal(n as nat)
    }
}

/// The last `width` decimal digits of `v`, zero-padded on the left.
pub open spec fn padded(v: nat, width: nat) -> Seq<char>
    decreases width,
{
    if width == 0 {
        Seq::empty()
    } else {
        padded(v / 10, (width - 1) as nat).push(digit_char((v % 10) as int))
    }
}

/// The last `width` hex digits of `v`, zero-padded on the left.
pub open spec fn padded_hex(v: nat, width: nat) -> Seq<char>
    decreases width,
{
    if width == 0 {
        Seq::empty()
    } else {
        padded_hex(v / 16, (width - 1) as nat).push(digit_char((v % 16) as int))
    }
}

/// Hex digits of `n` with no leading zeros (a single `0` for zero).
pub open spec fn hex_digits(n: nat) -> Seq<char>
    decreases n,
{
    if n < 16 {
        seq![digit_char(n as int)]
    } else {
        hex_digits(n / 16).push(digit_char((n % 16) as int))
    }
}

/// The `width` fractional digits of `v` with trailing zeros removed
/// (empty when they are all zero).
pub open spec fn trimmed_fraction(v: nat, width: nat) -> Seq<char>
    decreases width,
{
    if width == 0 {
        Seq::empty()
    } else if v % 10 == 0 {
        trimmed_fraction(v / 10, (width - 1) as nat)
    } else {
        padded(v, width)
    }
}

/// Appends one character to a string.
#[verifier::external_body]
pub(crate) fn push_char(s: &mut String, c: char)
    ensures
        final(s)@ == old(s)@.push(c),
{
    s.push(c);
}

/// Appends a string slice to a string.
pub(crate) fn push_str(s: &mut String, t: &str)
    ensures
        final(s)@ == old(s)@ + t@,
{
    s.append(t);
}

/// The digit character for `d < 16`.
pub fn digit(d: u64) -> (c: char)
    requires
        d < 16,
    ensures
        c == digit_char(d as int),
{
    if d < 10 {
        ((48 + d) as u8) as char
    } else {
        ((87 + d) as u8) as char
    }
}

/// Appends the decimal digits of `n`.
pub fn push_decimal(s: &mut String, n: u64)
    ensures
        final(s)@ == old(s)@ + decimal(n as nat),
    decreases n,
{
    if n >= 10 {
        push_decimal(s, n / 10);
    }
    push_char(s, digit(n % 10));
    proof {
        assert(n < 10 ==> n % 10 == n);
    }
}

/// Appends the decimal text of a signed integer.
pub fn push_signed_decimal(s: &mut String, n: i64)
    ensures
        final(s)@ == old(s)@ + signed_decimal(n as int),
{
    if n < 0 {
        push_char(s, '-');
        let m: u64 = if n == i64::MIN {
            9_223_372_036_854_775_808u64
        } else {
            (-n) as u64
        };
        push_decimal(s, m);
        proof {
            assert(old(s)@.push('-') + decimal(m as nat) == old(s)@ + (seq!['-'] + decimal(
                (-n) as nat,
            )));
        }
    } else {
        push_decimal(s, n as u64);
    }
}

/// Appends the last `width` decimal digits of `v`, zero-padded.
pub fn push_padded(s: &mut String, v: u64, width: u32)
    ensures
        final(s)@ == old(s)@ + padded(v as nat, width as nat),
    decreases width,
{
    if width > 0 {
        push_padded(s, v / 10, width - 1);
        push_char(s, digit(v % 10));
    }
}

/// Appends the last `width` hex digits of `v`, zero-padded.
pub fn push_padded_hex(s: &mut String, v: u64, width: u32)
    ensures
        final(s)@ == old(s)@ + padded_hex(v as nat, width as nat),
    decreases width,
{
    if width > 0 {
        push_padded_hex(s, v / 16, width - 1);
        push_char(s, digit(v % 16));
    }
}

/// Appends the hex digits of `n`.
pub fn push_hex(s: &mut String, n: u64)
    ensures
        final(s)@ == old(s)@ + hex_digits(n as nat),
    decreases n,
{
    if n >= 16 {
        push_hex(s, n / 16);
    }
    push_char(s, digit(n % 16));
    proof {
        assert(n < 16 ==> n % 16 == n);
    }
}

/// Appends `.` and the fractional digits of `v` (of `width` digits) with
/// trailing zeros removed, or nothing when they are all zero.
pub fn fmt_frac(s: &mut String, v: u64, width: u32)
    ensures
        final(s)@ == old(s)@ + (if trimmed_fraction(v as nat, width as nat).len() == 0 {
            Seq::<char>::empty()
        } else {
            seq!['.'] + trimmed_fraction(v as nat, width as nat)
        }),
{
    let mut v2 = v;
    let mut w = width;
    while w > 0 && v2 % 10 == 0
        invariant
            w <= width,
            trimmed_fraction(v as nat, width as nat) == trimmed_fraction(v2 as nat, w as nat),
        decreases w,
    {
        v2 = v2 / 10;
        w = w - 1;
    }
    if w > 0 {
        push_char(s, '.');
        push_padded(s, v2, w);
        proof {
            lemma_padded_len(v2 as nat, w as nat);
            assert(old(s)@.push('.') + padded(v2 as nat, w as nat) == old(s)@ + (seq!['.']
                + padded(v2 as nat, w as nat)));
        }
    } else {
        proof {
            assert(old(s)@ + Seq::<char>::empty() == old(s)@);
        }
    }
}

pub proof fn lemma_padded_len(v: nat, width: nat)
    ensures
        padded(v, width).len() == width,
    decreases width,
{
    if width > 0 {
        lemma_padded_len(v / 10, (width - 1) as nat);
    }
}

/// The characters of `s`.
pub fn str_chars(s: &str) -> (v: Vec<char>)
    ensures
        v@ == s@,
{
    broadcast use vstd::string::group_string_axioms;

    let mut v: Vec<char> = Vec::new();
    for c in it: s.chars()
        invariant
            v@ == it.seq().take(it.index() as int),
    {
        v.push(c);
    }
    assert(v@ =~= s@);
    v
}

/// Whether `a` comes before `b` in the order of Rust's `str`: by code points,
/// a proper prefix first.
pub open spec fn chars_less(a: Seq<char>, b: Seq<char>) -> bool {
    exists|n: int|
        #![trigger a.take(n), b.take(n)]
        0 <= n <= a.len() && n <= b.len() && a.take(n) == b.take(n) && ((n == a.len() && n
            < b.len()) || (n < a.len() && n < b.len() && (a[n] as u32) < (b[n] as u32)))
}

/// `a` comes before `b` where they first differ at `n`.
pub proof fn lemma_chars_less_at(a: Seq<char>, b: Seq<char>, n: int)
    requires
        0 <= n < a.len(),
        n < b.len(),
        a.take(n) == b.take(n),
        (a[n] as u32) < (b[n] as u32),
    ensures
        chars_less(a, b),
{
}

/// Whether the keys of `e` strictly ascend, as the entries of a `BTreeMap`
/// come out.
pub open spec fn keys_ascending<V>(e: Seq<(String, V)>) -> bool {
    forall|i: int, j: int| 0 <= i < j < e.len() ==> chars_less(#[trigger] e[i].0@, #[trigger] e[j].0@)
}

} // verus!
