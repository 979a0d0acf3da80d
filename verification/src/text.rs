//! Number rendering used by the emitters, report tables and error messages:
//! decimal, signed decimal and lowercase hexadecimal with optional zero padding
//! and `0x` prefix.

use vstd::prelude::*;

verus! {

/// The hexadecimal digit for `d` (lowercase), for `d < 16`.
pub open spec fn hex_char(d: nat) -> char {
    if d == 0 { '0' }
    else if d == 1 { '1' }
    else if d == 2 { '2' }
    else if d == 3 { '3' }
    else if d == 4 { '4' }
    else if d == 5 { '5' }
    else if d == 6 { '6' }
    else if d == 7 { '7' }
    else if d == 8 { '8' }
    else if d == 9 { '9' }
    else if d == 10 { 'a' }
    else if d == 11 { 'b' }
    else if d == 12 { 'c' }
    else if d == 13 { 'd' }
    else if d == 14 { 'e' }
    else { 'f' }
}

/// Minimal base-`b` digits of `n` (no leading zeros; `0` renders as "0").
pub open spec fn digits(n: nat, b: nat) -> Seq<char>
    recommends
        2 <= b <= 16,
    decreases n,
{
    if b < 2 || n < b {
        seq![hex_char(n % 16)]
    } else {
        proof {
            assert(n / b < n) by (nonlinear_arith)
                requires
                    n >= b,
                    b >= 2,
            ;
        }
        digits(n / b, b).push(hex_char(n % b))
    }
}

/// Decimal rendering of `n`.
pub open spec fn dec(n: nat) -> Seq<char> {
    digits(n, 10)
}

/// Lowercase hexadecimal rendering of `n`, no prefix.
pub open spec fn hex(n: nat) -> Seq<char> {
    digits(n, 16)
}

/// Signed decimal rendering: a leading '-' for negative values.
pub open spec fn sdec(v: int) -> Seq<char> {
    if v < 0 {
        seq!['-'] + dec((-v) as nat)
    } else {
        dec(v as nat)
    }
}

/// `s` padded on the left with '0' up to `width` characters.
pub open spec fn zero_pad(s: Seq<char>, width: nat) -> Seq<char> {
    if s.len() >= width {
        s
    } else {
        Seq::new((width - s.len()) as nat, |i: int| '0') + s
    }
}

/// Hexadecimal with at least `width` digits (`{:0W x}`).
pub open spec fn hex_w(n: nat, width: nat) -> Seq<char> {
    zero_pad(hex(n), width)
}

/// `0x`-prefixed hexadecimal with at least `width` digits after the prefix
/// (`{:#x}` for width 0, `{:#0W x}` with W = width + 2).
pub open spec fn hex_alt(n: nat, width: nat) -> Seq<char> {
    seq!['0', 'x'] + zero_pad(hex(n), width)
}

proof fn lemma_div_smaller(n: nat, b: nat)
    requires
        n >= b,
        b >= 2,
    ensures
        n / b < n,
        n / b <= n / 2,
{
    assert(n / b < n) by (nonlinear_arith)
        requires
            n >= b,
            b >= 2,
    ;
    assert(n / b <= n / 2) by (nonlinear_arith)
        requires
            n >= b,
            b >= 2,
    ;
}

/// The rendering of a value below 2^k has at most k + 1 digits.
proof fn lemma_digits_len(n: nat, b: nat, k: nat)
    requires
        2 <= b,
        n < vstd::arithmetic::power2::pow2(k),
    ensures
        1 <= digits(n, b).len() <= k + 1,
    decreases n,
{
    if !(b < 2 || n < b) {
        lemma_div_smaller(n, b);
        if k == 0 {
            vstd::arithmetic::power2::lemma2_to64();
        } else {
            vstd::arithmetic::power2::lemma_pow2_unfold(k);
            lemma_digits_len(n / b, b, (k - 1) as nat);
        }
    }
}

/// The one-character string of the digit `d`.
fn digit_str(d: u64) -> (s: &'static str)
    requires
        d < 16,
    ensures
        s@ == seq![hex_char(d as nat)],
{
    if d == 0 {
        proof { reveal_strlit("0"); }
        "0"
    } else if d == 1 {
        proof { reveal_strlit("1"); }
        "1"
    } else if d == 2 {
        proof { reveal_strlit("2"); }
        "2"
    } else if d == 3 {
        proof { reveal_strlit("3"); }
        "3"
    } else if d == 4 {
        proof { reveal_strlit("4"); }
        "4"
    } else if d == 5 {
        proof { reveal_strlit("5"); }
        "5"
    } else if d == 6 {
        proof { reveal_strlit("6"); }
        "6"
    } else if d == 7 {
        proof { reveal_strlit("7"); }
        "7"
    } else if d == 8 {
        proof { reveal_strlit("8"); }
        "8"
    } else if d == 9 {
        proof { reveal_strlit("9"); }
        "9"
    } else if d == 10 {
        proof { reveal_strlit("a"); }
        "a"
    } else if d == 11 {
        proof { reveal_strlit("b"); }
        "b"
    } else if d == 12 {
        proof { reveal_strlit("c"); }
        "c"
    } else if d == 13 {
        proof { reveal_strlit("d"); }
        "d"
    } else if d == 14 {
        proof { reveal_strlit("e"); }
        "e"
    } else {
        proof { reveal_strlit("f"); }
        "f"
    }
}

/// Appends the base-`b` digits of `n` to `out`.
fn push_digits(out: &mut String, n: u64, b: u64)
    requires
        2 <= b <= 16,
    ensures
        final(out)@ == old(out)@ + digits(n as nat, b as nat),
    decreases n,
{
    if n < b {
        out.append(digit_str(n % 16));
    } else {
        proof {
            lemma_div_smaller(n as nat, b as nat);
        }
        push_digits(out, n / b, b);
        out.append(digit_str(n % b));
        assert(digits(n as nat, b as nat) == digits((n / b) as nat, b as nat).push(
            hex_char((n % b) as nat),
        ));
    }
}

/// `t` occurs in `s` (as a contiguous piece).
pub open spec fn occurs_in(t: Seq<char>, s: Seq<char>) -> bool {
    exists|p: int| 0 <= p && p + t.len() <= s.len() && #[trigger] s.subrange(p, p + t.len()) == t
}

/// A piece of a text is a piece of any text around it.
pub proof fn lemma_occurs_around(t: Seq<char>, a: Seq<char>, b: Seq<char>, c: Seq<char>)
    requires
        occurs_in(t, b),
    ensures
        occurs_in(t, a + b + c),
{
    let p = choose|p: int| 0 <= p && p + t.len() <= b.len() && #[trigger] b.subrange(p, p + t.len()) == t;
    let q = a.len() + p;
    assert((a + b + c).subrange(q, q + t.len()) =~= b.subrange(p, p + t.len()));
}

/// A text occurs in itself.
pub proof fn lemma_occurs_self(t: Seq<char>)
    ensures
        occurs_in(t, t),
{
    let p: int = 0;
    assert(t.subrange(p, p + t.len()) =~= t);
}

/// Name for the text of the `Debug` formatting of a string (quoted, with
/// escapes).
pub uninterp spec fn str_debug_text(s: Seq<char>) -> Seq<char>;

/// Formats a string with `{:?}`; the text is a function of the string, named
/// [`str_debug_text`].
#[verifier::external_body]
pub(crate) fn str_debug(s: &str) -> (r: String)
    ensures
        r@ == str_debug_text(s@),
{
    format!("{s:?}")
}

/// Appends the decimal rendering of `n`.
pub fn push_dec(out: &mut String, n: u64)
    ensures
        final(out)@ == old(out)@ + dec(n as nat),
{
    push_digits(out, n, 10);
}

/// Appends the lowercase hexadecimal rendering of `n`.
pub fn push_hex(out: &mut String, n: u64)
    ensures
        final(out)@ == old(out)@ + hex(n as nat),
{
    push_digits(out, n, 16);
}

/// Appends the signed decimal rendering of `v`.
pub fn push_sdec(out: &mut String, v: i64)
    ensures
        final(out)@ == old(out)@ + sdec(v as int),
{
    if v < 0 {
        out.append("-");
        proof { reveal_strlit("-"); }
        let m: u64 = (-(v as i128)) as u64;
        push_dec(out, m);
        assert(final(out)@ =~= old(out)@ + sdec(v as int));
    } else {
        push_dec(out, v as u64);
    }
}

/// Number of characters in the base-`b` rendering of `n`.
fn digit_count(n: u64, b: u64) -> (c: usize)
    requires
        2 <= b <= 16,
    ensures
        c == digits(n as nat, b as nat).len(),
    decreases n,
{
    proof {
        vstd::arithmetic::power2::lemma2_to64();
        lemma_digits_len(n as nat, b as nat, 64);
    }
    if n < b {
        1
    } else {
        proof {
            lemma_div_smaller(n as nat, b as nat);
        }
        let c = digit_count(n / b, b);
        c + 1
    }
}

/// Appends `count` zeros.
fn push_zeros(out: &mut String, count: usize)
    ensures
        final(out)@ == old(out)@ + Seq::new(count as nat, |i: int| '0'),
{
    let mut k: usize = 0;
    while k < count
        invariant
            k <= count,
            out@ == old(out)@ + Seq::new(k as nat, |i: int| '0'),
        decreases count - k,
    {
        out.append("0");
        proof { reveal_strlit("0"); }
        k = k + 1;
        assert(out@ =~= old(out)@ + Seq::new(k as nat, |i: int| '0'));
    }
}

/// Appends the hexadecimal rendering of `n` zero-padded to `width` digits.
pub fn push_hex_w(out: &mut String, n: u64, width: usize)
    ensures
        final(out)@ == old(out)@ + hex_w(n as nat, width as nat),
{
    let c = digit_count(n, 16);
    if c < width {
        push_zeros(out, width - c);
    }
    push_hex(out, n);
    assert(final(out)@ =~= old(out)@ + hex_w(n as nat, width as nat));
}

/// Appends `0x` and the hexadecimal rendering of `n` zero-padded to `width` digits.
pub fn push_hex_alt(out: &mut String, n: u64, width: usize)
    ensures
        final(out)@ == old(out)@ + hex_alt(n as nat, width as nat),
{
    out.append("0x");
    proof { reveal_strlit("0x"); }
    push_hex_w(out, n, width);
    assert(final(out)@ =~= old(out)@ + hex_alt(n as nat, width as nat));
}

/// Decimal rendering of `n` as a new string.
pub fn dec_string(n: u64) -> (s: String)
    ensures
        s@ == dec(n as nat),
{
    let mut s = String::new();
    push_dec(&mut s, n);
    assert(s@ =~= dec(n as nat));
    s
}

/// An owned copy of `t`.
pub fn text(t: &str) -> (s: String)
    ensures
        s@ == t@,
{
    let mut s = String::new();
    s.append(t);
    s
}

/// Whether two strings have the same characters.
pub fn str_eq(a: &str, b: &str) -> (r: bool)
    ensures
        r == (a@ == b@),
{
    let n = a.unicode_len();
    if n != b.unicode_len() {
        return false;
    }
    let mut i: usize = 0;
    while i < n
        invariant
            i <= n,
            n == a@.len(),
            n == b@.len(),
            forall|k: int| 0 <= k < i ==> a@[k] == b@[k],
        decreases n - i,
    {
        if a.get_char(i) != b.get_char(i) {
            return false;
        }
        i = i + 1;
    }
    assert(a@ =~= b@);
    true
}

} // verus!
