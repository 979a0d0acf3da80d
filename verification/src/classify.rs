//! Operator overrides of block classification: `--classify uart` sets every
//! block's kind; `--classify 0x40034000=uart,0x4003c000=spi` sets kinds per
//! 4 KiB page. The same option prefixes MMIO access labels.

use vstd::prelude::*;
use std::collections::HashMap;
use crate::hw::{BlockKind, HardwareSpec};
use crate::mmio::MmioAccess;
use crate::text::str_eq;

verus! {

broadcast use vstd::std_specs::hash::group_hash_axioms;

// ---------------------------------------------------------------------------
// Characters and text
// ---------------------------------------------------------------------------

/// Unicode `White_Space`, the set `char::is_whitespace` answers for: tab,
/// line feed, vertical tab, form feed, carriage return, space, U+0085, U+00A0,
/// U+1680, U+2000 to U+200A, U+2028, U+2029, U+202F, U+205F and U+3000.
pub open spec fn char_is_whitespace(c: char) -> bool {
    let n = c as u32;
    (0x09 <= n <= 0x0D) || n == 0x20 || n == 0x85 || n == 0xA0 || n == 0x1680 || (0x2000 <= n
        <= 0x200A) || n == 0x2028 || n == 0x2029 || n == 0x202F || n == 0x205F || n == 0x3000
}

/// Whether `c` is Unicode whitespace.
fn is_whitespace(c: char) -> (r: bool)
    ensures
        r == char_is_whitespace(c),
{
    let n = c as u32;
    (0x09 <= n && n <= 0x0D) || n == 0x20 || n == 0x85 || n == 0xA0 || n == 0x1680 || (0x2000 <= n
        && n <= 0x200A) || n == 0x2028 || n == 0x2029 || n == 0x202F || n == 0x205F || n == 0x3000
}

/// Name for the text `str::to_lowercase` produces (Unicode lowercase mapping).
pub uninterp spec fn lowercase_text(s: Seq<char>) -> Seq<char>;

/// Calls `str::to_lowercase`; the text is a function of the input, named
/// [`lowercase_text`].
#[verifier::external_body]
pub(crate) fn to_lowercase(s: &str) -> (r: String)
    ensures
        r@ == lowercase_text(s@),
{
    s.to_lowercase()
}

/// Index of the first character at or after `i` that is not whitespace.
pub open spec fn lead_end(s: Seq<char>, i: nat) -> nat
    decreases s.len() - i,
{
    if i < s.len() && char_is_whitespace(s[i as int]) {
        lead_end(s, i + 1)
    } else {
        i
    }
}

/// Index after the last character before `j` (and at or after `a`) that is not
/// whitespace.
pub open spec fn trail_start(s: Seq<char>, a: nat, j: nat) -> nat
    decreases j,
{
    if j > a && char_is_whitespace(s[j - 1]) {
        trail_start(s, a, (j - 1) as nat)
    } else {
        j
    }
}

/// `s` without leading and trailing whitespace.
pub open spec fn trimmed(s: Seq<char>) -> Seq<char> {
    let a = lead_end(s, 0);
    s.subrange(a as int, trail_start(s, a, s.len()) as int)
}

proof fn lemma_lead_end_bounds(s: Seq<char>, i: nat)
    requires
        i <= s.len(),
    ensures
        i <= lead_end(s, i) <= s.len(),
    decreases s.len() - i,
{
    if i < s.len() && char_is_whitespace(s[i as int]) {
        lemma_lead_end_bounds(s, i + 1);
    }
}

/// `s` without leading and trailing whitespace.
pub fn trim(s: &str) -> (t: &str)
    ensures
        t@ == trimmed(s@),
{
    let n = s.unicode_len();
    let mut i: usize = 0;
    while i < n && is_whitespace(s.get_char(i))
        invariant
            i <= n,
            n == s@.len(),
            lead_end(s@, 0) == lead_end(s@, i as nat),
        decreases n - i,
    {
        i = i + 1;
    }
    proof {
        lemma_lead_end_bounds(s@, 0);
    }
    let mut j: usize = n;
    while j > i && is_whitespace(s.get_char(j - 1))
        invariant
            i <= j <= n,
            n == s@.len(),
            i == lead_end(s@, 0),
            trail_start(s@, i as nat, n as nat) == trail_start(s@, i as nat, j as nat),
        decreases j,
    {
        j = j - 1;
    }
    s.substring_char(i, j)
}

/// Index of the first `c` in `s` at or after `i`.
pub open spec fn find_from(s: Seq<char>, c: char, i: nat) -> Option<nat>
    decreases s.len() - i,
{
    if i >= s.len() {
        None
    } else if s[i as int] == c {
        Some(i)
    } else {
        find_from(s, c, i + 1)
    }
}

proof fn lemma_find_from_bounds(s: Seq<char>, c: char, i: nat)
    ensures
        find_from(s, c, i) matches Some(k) ==> i <= k < s.len() && s[k as int] == c,
    decreases s.len() - i,
{
    if i < s.len() && s[i as int] != c {
        lemma_find_from_bounds(s, c, i + 1);
    }
}

fn find_char(s: &str, c: char) -> (r: Option<usize>)
    ensures
        r matches Some(k) ==> find_from(s@, c, 0) == Some(k as nat),
        r is None ==> find_from(s@, c, 0) is None,
{
    let n = s.unicode_len();
    let mut i: usize = 0;
    while i < n
        invariant
            i <= n,
            n == s@.len(),
            find_from(s@, c, 0) == find_from(s@, c, i as nat),
        decreases n - i,
    {
        if s.get_char(i) == c {
            return Some(i);
        }
        i = i + 1;
    }
    None
}

/// The parts of `s` between occurrences of `c` (at least one part).
pub open spec fn split_on(s: Seq<char>, c: char) -> Seq<Seq<char>>
    decreases s.len(),
{
    if s.len() == 0 {
        seq![Seq::empty()]
    } else {
        let rest = split_on(s.drop_last(), c);
        if s.last() == c {
            rest.push(Seq::empty())
        } else {
            rest.update(rest.len() - 1, rest.last().push(s.last()))
        }
    }
}

proof fn lemma_split_nonempty(s: Seq<char>, c: char)
    ensures
        split_on(s, c).len() >= 1,
    decreases s.len(),
{
    if s.len() > 0 {
        lemma_split_nonempty(s.drop_last(), c);
    }
}

fn split_parts(s: &str, c: char) -> (v: Vec<String>)
    ensures
        v@.len() == split_on(s@, c).len(),
        forall|i: int| 0 <= i < v@.len() ==> (#[trigger] v@[i])@ == split_on(s@, c)[i],
{
    let n = s.unicode_len();
    let mut done: Vec<String> = Vec::new();
    let mut cur = String::new();
    let mut i: usize = 0;
    assert(s@.subrange(0, 0) =~= Seq::<char>::empty());
    while i < n
        invariant
            i <= n,
            n == s@.len(),
            done@.len() + 1 == split_on(s@.subrange(0, i as int), c).len(),
            forall|k: int| 0 <= k < done@.len() ==> (#[trigger] done@[k])@ == split_on(s@.subrange(0, i as int), c)[k],
            cur@ == split_on(s@.subrange(0, i as int), c).last(),
        decreases n - i,
    {
        let ch = s.get_char(i);
        proof {
            let sub = s@.subrange(0, i as int + 1);
            assert(sub.drop_last() =~= s@.subrange(0, i as int));
            lemma_split_nonempty(s@.subrange(0, i as int), c);
        }
        if ch == c {
            let finished = cur;
            done.push(finished);
            cur = String::new();
        } else {
            cur.append(s.substring_char(i, i + 1));
        }
        i = i + 1;
    }
    assert(s@.subrange(0, n as int) =~= s@);
    done.push(cur);
    proof {
        lemma_split_nonempty(s@, c);
        assert forall|k: int| 0 <= k < done@.len() implies (#[trigger] done@[k])@ == split_on(s@, c)[k] by {
            if k == done@.len() - 1 {
            } else {
            }
        }
    }
    done
}

// ---------------------------------------------------------------------------
// Numbers
// ---------------------------------------------------------------------------

/// Value of a digit in `radix` (10 or 16), if it is one.
pub open spec fn digit_value(c: char, radix: nat) -> Option<nat> {
    if '0' <= c <= '9' && (c as nat) - ('0' as nat) < radix {
        Some(((c as nat) - ('0' as nat)) as nat)
    } else if radix == 16 && 'a' <= c <= 'f' {
        Some(((c as nat) - ('a' as nat) + 10) as nat)
    } else if radix == 16 && 'A' <= c <= 'F' {
        Some(((c as nat) - ('A' as nat) + 10) as nat)
    } else {
        None
    }
}

/// Value of a string of digits in `radix` (0 for no digits), if all are digits.
pub open spec fn digits_value(s: Seq<char>, radix: nat) -> Option<nat>
    decreases s.len(),
{
    if s.len() == 0 {
        Some(0)
    } else {
        match (digits_value(s.drop_last(), radix), digit_value(s.last(), radix)) {
            (Some(v), Some(d)) => Some(v * radix + d),
            _ => None,
        }
    }
}

/// The unsigned number `s` spells in `radix`: an optional `+`, then one
/// digit or more, fitting in 64 bits (`u64::from_str_radix`).
pub open spec fn parse_uint(s: Seq<char>, radix: nat) -> Option<u64> {
    let body = if s.len() > 0 && s[0] == '+' { s.drop_first() } else { s };
    if body.len() == 0 {
        None
    } else {
        match digits_value(body, radix) {
            Some(v) => if v <= u64::MAX { Some(v as u64) } else { None },
            None => None,
        }
    }
}

proof fn lemma_digits_grow(s: Seq<char>, radix: nat, k: nat)
    requires
        radix >= 2,
        k <= s.len(),
        digits_value(s, radix) is Some,
    ensures
        digits_value(s.subrange(0, k as int), radix) is Some,
        digits_value(s.subrange(0, k as int), radix)->0 <= digits_value(s, radix)->0,
    decreases s.len(),
{
    if k < s.len() {
        assert(s.drop_last() =~= s.subrange(0, s.len() - 1));
        lemma_digits_grow(s.drop_last(), radix, k);
        assert(s.drop_last().subrange(0, k as int) =~= s.subrange(0, k as int));
        let v = digits_value(s.drop_last(), radix)->0;
        assert(v * radix >= v) by (nonlinear_arith)
            requires
                radix >= 2,
        ;
    } else {
        assert(s.subrange(0, k as int) =~= s);
    }
}

fn digit_of(c: char, radix: u32) -> (d: Option<u32>)
    requires
        radix == 10 || radix == 16,
    ensures
        match digit_value(c, radix as nat) {
            Some(v) => d == Some(v as u32),
            None => d is None,
        },
{
    if '0' <= c && c <= '9' && (c as u32) - ('0' as u32) < radix {
        Some((c as u32) - ('0' as u32))
    } else if radix == 16 && 'a' <= c && c <= 'f' {
        Some((c as u32) - ('a' as u32) + 10)
    } else if radix == 16 && 'A' <= c && c <= 'F' {
        Some((c as u32) - ('A' as u32) + 10)
    } else {
        None
    }
}

/// Parses an unsigned 64-bit number in `radix` (10 or 16): an optional `+`,
/// then digits; `None` when empty, on a non-digit or on overflow.
pub fn parse_u64_radix(s: &str, radix: u32) -> (r: Option<u64>)
    requires
        radix == 10 || radix == 16,
    ensures
        r == parse_uint(s@, radix as nat),
{
    let n = s.unicode_len();
    let start: usize = if n > 0 && s.get_char(0) == '+' { 1 } else { 0 };
    let ghost body = if s@.len() > 0 && s@[0] == '+' { s@.drop_first() } else { s@ };
    assert(body =~= s@.subrange(start as int, n as int));
    if start == n {
        return None;
    }
    let mut v: u64 = 0;
    let mut i: usize = start;
    assert(body.subrange(0, 0) =~= Seq::<char>::empty());
    while i < n
        invariant
            start <= i <= n,
            n == s@.len(),
            radix == 10 || radix == 16,
            body == s@.subrange(start as int, n as int),
            body == (if s@.len() > 0 && s@[0] == '+' { s@.drop_first() } else { s@ }),
            body.len() > 0,
            digits_value(body.subrange(0, i - start), radix as nat) == Some(v as nat),
        decreases n - i,
    {
        let c = s.get_char(i);
        proof {
            let sub = body.subrange(0, i - start + 1);
            assert(sub.drop_last() =~= body.subrange(0, i - start));
            assert(sub.last() == c);
        }
        match digit_of(c, radix) {
            None => {
                proof {
                    let sub = body.subrange(0, i - start + 1);
                    assert(digits_value(sub, radix as nat) is None);
                    if digits_value(body, radix as nat) is Some {
                        lemma_digits_grow(body, radix as nat, (i - start + 1) as nat);
                    }
                }
                return None;
            },
            Some(d) => {
                let next = v.checked_mul(radix as u64);
                match next {
                    None => {
                        proof {
                            let sub = body.subrange(0, i - start + 1);
                            assert(v * radix + d > u64::MAX);
                            if digits_value(body, radix as nat) is Some {
                                lemma_digits_grow(body, radix as nat, (i - start + 1) as nat);
                            }
                        }
                        return None;
                    },
                    Some(m) => match m.checked_add(d as u64) {
                        None => {
                            proof {
                                if digits_value(body, radix as nat) is Some {
                                    lemma_digits_grow(body, radix as nat, (i - start + 1) as nat);
                                }
                            }
                            return None;
                        },
                        Some(w) => {
                            v = w;
                        },
                    },
                }
            },
        }
        i = i + 1;
    }
    assert(body.subrange(0, n - start) =~= body);
    Some(v)
}

/// The address an operator wrote: `0x`/`0X` hexadecimal or decimal, blanks
/// around it ignored.
pub open spec fn parse_addr(s: Seq<char>) -> Option<u64> {
    let t = trimmed(s);
    if t.len() >= 2 && t[0] == '0' && (t[1] == 'x' || t[1] == 'X') {
        parse_uint(t.subrange(2, t.len() as int), 16)
    } else {
        parse_uint(t, 10)
    }
}

/// Parses an address: `0x`/`0X` hexadecimal or decimal, surrounding
/// whitespace ignored.
pub fn parse_u64_addr(s: &str) -> (r: Option<u64>)
    ensures
        r == parse_addr(s@),
{
    let t = trim(s);
    let n = t.unicode_len();
    if n >= 2 && t.get_char(0) == '0' && (t.get_char(1) == 'x' || t.get_char(1) == 'X') {
        parse_u64_radix(t.substring_char(2, n), 16)
    } else {
        parse_u64_radix(t, 10)
    }
}

// ---------------------------------------------------------------------------
// Kinds and maps
// ---------------------------------------------------------------------------

/// The block kind an operator can name (already lowercase).
pub open spec fn kind_named(s: Seq<char>) -> Option<BlockKind> {
    if s == "gpu"@ {
        Some(BlockKind::Gpu)
    } else if s == "audio"@ {
        Some(BlockKind::Audio)
    } else if s == "dma"@ {
        Some(BlockKind::Dma)
    } else if s == "usb"@ {
        Some(BlockKind::Usb)
    } else if s == "uart"@ {
        Some(BlockKind::Uart)
    } else if s == "spi"@ {
        Some(BlockKind::Spi)
    } else if s == "i2c"@ {
        Some(BlockKind::I2c)
    } else if s == "ethernet"@ {
        Some(BlockKind::Ethernet)
    } else {
        None
    }
}

/// The block kind named by `s`, case-insensitively.
pub open spec fn kind_of(s: Seq<char>) -> Option<BlockKind> {
    kind_named(lowercase_text(s))
}

/// Parses a block kind name, case-insensitively ("gpu", "audio", "dma",
/// "usb", "uart", "spi", "i2c", "ethernet").
pub fn parse_block_kind_name(kind: &str) -> (r: Option<BlockKind>)
    ensures
        r == kind_of(kind@),
{
    let lower = to_lowercase(kind);
    let l = lower.as_str();
    if str_eq(l, "gpu") {
        Some(BlockKind::Gpu)
    } else if str_eq(l, "audio") {
        Some(BlockKind::Audio)
    } else if str_eq(l, "dma") {
        Some(BlockKind::Dma)
    } else if str_eq(l, "usb") {
        Some(BlockKind::Usb)
    } else if str_eq(l, "uart") {
        Some(BlockKind::Uart)
    } else if str_eq(l, "spi") {
        Some(BlockKind::Spi)
    } else if str_eq(l, "i2c") {
        Some(BlockKind::I2c)
    } else if str_eq(l, "ethernet") {
        Some(BlockKind::Ethernet)
    } else {
        None
    }
}

/// The `--classify` name of a block kind: its own name in lowercase, for the
/// kinds the option accepts.
pub open spec fn classify_name(k: BlockKind) -> Option<Seq<char>> {
    match k {
        BlockKind::Gpu => Some("gpu"@),
        BlockKind::Audio => Some("audio"@),
        BlockKind::Dma => Some("dma"@),
        BlockKind::Usb => Some("usb"@),
        BlockKind::Uart => Some("uart"@),
        BlockKind::Spi => Some("spi"@),
        BlockKind::I2c => Some("i2c"@),
        BlockKind::Ethernet => Some("ethernet"@),
        _ => None,
    }
}

/// A name selects exactly the block kind it names: `kind_named(s)` is `k`
/// when and only when `s` is the `--classify` name of `k`. Distinct accepted
/// names therefore select distinct kinds.
pub proof fn lemma_kind_names(s: Seq<char>, k: BlockKind)
    ensures
        kind_named(s) == Some(k) <==> classify_name(k) == Some(s),
{
    reveal_strlit("gpu");
    reveal_strlit("audio");
    reveal_strlit("dma");
    reveal_strlit("usb");
    reveal_strlit("uart");
    reveal_strlit("spi");
    reveal_strlit("i2c");
    reveal_strlit("ethernet");
    assert("gpu"@.len() == 3 && "gpu"@[0] == 'g');
    assert("audio"@.len() == 5 && "audio"@[0] == 'a');
    assert("dma"@.len() == 3 && "dma"@[0] == 'd');
    assert("usb"@.len() == 3 && "usb"@[0] == 'u');
    assert("uart"@.len() == 4 && "uart"@[0] == 'u');
    assert("spi"@.len() == 3 && "spi"@[0] == 's');
    assert("i2c"@.len() == 3 && "i2c"@[0] == 'i');
    assert("ethernet"@.len() == 8 && "ethernet"@[0] == 'e');
}

/// What `parse_block_kind_name` returns: the kind whose `--classify` name is
/// the lowercase form of the text, and nothing when no kind has that name.
pub proof fn lemma_parse_kind_by_name(s: Seq<char>, k: BlockKind)
    ensures
        kind_of(s) == Some(k) <==> classify_name(k) == Some(lowercase_text(s)),
{
    lemma_kind_names(lowercase_text(s), k);
}

/// Distinct names never select the same block kind.
pub proof fn lemma_kind_names_injective(a: Seq<char>, b: Seq<char>)
    ensures
        kind_named(a) is Some && kind_named(a) == kind_named(b) ==> a == b,
{
    if kind_named(a) is Some && kind_named(a) == kind_named(b) {
        let k = kind_named(a)->Some_0;
        lemma_kind_names(a, k);
        lemma_kind_names(b, k);
    }
}

/// The 4 KiB page of an address.
pub open spec fn page_of(a: u64) -> u64 {
    a & !0xfffu64
}

/// One `address=kind` entry of the option: `Some(None)` for a blank part,
/// `Some(Some((page, value)))` for a valid entry, `None` when it is malformed.
/// `value` maps the trimmed kind text to the entry's value.
pub open spec fn entry_of<V>(part: Seq<char>, value: spec_fn(Seq<char>) -> Option<V>) -> Option<
    Option<(u64, V)>,
> {
    let t = trimmed(part);
    if t.len() == 0 {
        Some(None)
    } else {
        match find_from(t, '=', 0) {
            None => None,
            Some(k) => match (
                parse_addr(t.subrange(0, k as int)),
                value(trimmed(t.subrange(k as int + 1, t.len() as int))),
            ) {
                (Some(a), Some(v)) => Some(Some((page_of(a), v))),
                _ => None,
            },
        }
    }
}

/// The entries of parts `0..k`, later pages overriding earlier ones; `None` if
/// any part is malformed.
pub open spec fn entries_map<V>(parts: Seq<Seq<char>>, k: nat, value: spec_fn(Seq<char>) -> Option<V>) -> Option<
    Map<u64, V>,
>
    decreases k,
{
    if k == 0 {
        Some(Map::empty())
    } else {
        match entries_map(parts, (k - 1) as nat, value) {
            None => None,
            Some(m) => match entry_of(parts[k - 1], value) {
                None => None,
                Some(None) => Some(m),
                Some(Some((a, v))) => Some(m.insert(a, v)),
            },
        }
    }
}

/// The per-page map an option spells, if it has an `=`, every part is blank
/// or a valid entry, and there is at least one entry.
pub open spec fn option_map<V>(s: Seq<char>, value: spec_fn(Seq<char>) -> Option<V>) -> Option<Map<u64, V>> {
    if find_from(s, '=', 0) is None {
        None
    } else {
        let parts = split_on(s, ',');
        match entries_map(parts, parts.len(), value) {
            Some(m) => if m.dom().len() > 0 { Some(m) } else { None },
            None => None,
        }
    }
}

/// Kinds by page.
pub open spec fn kind_map_of(s: Seq<char>) -> Option<Map<u64, BlockKind>> {
    option_map(s, |t: Seq<char>| kind_of(t))
}

/// The lowercase label of a kind name, when it names a kind.
pub open spec fn label_value(t: Seq<char>) -> Option<Seq<char>> {
    let l = lowercase_text(t);
    if kind_of(l) is Some { Some(l) } else { None }
}

/// Kind labels by page.
pub open spec fn label_map_of(s: Seq<char>) -> Option<Map<u64, Seq<char>>> {
    option_map(s, |t: Seq<char>| label_value(t))
}

/// One parsed entry.
enum Entry<V> {
    Blank,
    Bad,
    Good(u64, V),
}

fn kind_entry(part: &str) -> (e: Entry<BlockKind>)
    ensures
        match entry_of(part@, |t: Seq<char>| kind_of(t)) {
            None => e is Bad,
            Some(None) => e is Blank,
            Some(Some((a, v))) => e == Entry::Good(a, v),
        },
{
    let t = trim(part);
    let n = t.unicode_len();
    if n == 0 {
        return Entry::Blank;
    }
    match find_char(t, '=') {
        None => Entry::Bad,
        Some(k) => {
            proof {
                lemma_find_from_bounds(t@, '=', 0);
            }
            let addr = parse_u64_addr(t.substring_char(0, k));
            let kind = parse_block_kind_name(trim(t.substring_char(k + 1, n)));
            match (addr, kind) {
                (Some(a), Some(v)) => Entry::Good(a & !0xfffu64, v),
                _ => Entry::Bad,
            }
        },
    }
}

fn label_entry(part: &str) -> (e: Entry<String>)
    ensures
        match entry_of(part@, |t: Seq<char>| label_value(t)) {
            None => e is Bad,
            Some(None) => e is Blank,
            Some(Some((a, v))) => e matches Entry::Good(ea, ev) && ea == a && ev@ == v,
        },
{
    let t = trim(part);
    let n = t.unicode_len();
    if n == 0 {
        return Entry::Blank;
    }
    match find_char(t, '=') {
        None => Entry::Bad,
        Some(k) => {
            proof {
                lemma_find_from_bounds(t@, '=', 0);
            }
            let addr = parse_u64_addr(t.substring_char(0, k));
            let label = to_lowercase(trim(t.substring_char(k + 1, n)));
            let known = parse_block_kind_name(label.as_str()).is_some();
            match addr {
                Some(a) => if known {
                    Entry::Good(a & !0xfffu64, label)
                } else {
                    Entry::Bad
                },
                None => Entry::Bad,
            }
        },
    }
}

/// Parses `addr=kind,addr=kind,...` into kinds by 4 KiB page; `None` when the
/// text has no `=`, a part is malformed, or no entry is given.
pub fn parse_classify_address_map(spec: &str) -> (r: Option<HashMap<u64, BlockKind>>)
    ensures
        match kind_map_of(spec@) {
            None => r is None,
            Some(m) => r matches Some(h) && h@ == m,
        },
{
    if find_char(spec, '=').is_none() {
        return None;
    }
    let parts = split_parts(spec, ',');
    let ghost ps = split_on(spec@, ',');
    let ghost value = |t: Seq<char>| kind_of(t);
    let mut map: HashMap<u64, BlockKind> = HashMap::new();
    let mut i: usize = 0;
    while i < parts.len()
        invariant
            i <= parts@.len(),
            parts@.len() == ps.len(),
            forall|k: int| 0 <= k < parts@.len() ==> (#[trigger] parts@[k])@ == ps[k],
            value == (|t: Seq<char>| kind_of(t)),
            ps == split_on(spec@, ','),
            find_from(spec@, '=', 0) is Some,
            entries_map(ps, i as nat, value) == Some(map@),
        decreases parts@.len() - i,
    {
        match kind_entry(parts[i].as_str()) {
            Entry::Bad => {
                proof {
                    assert(entries_map(ps, (i + 1) as nat, value) is None);
                    lemma_entries_stay_none(ps, (i + 1) as nat, ps.len(), value);
                }
                return None;
            },
            Entry::Blank => {},
            Entry::Good(a, v) => {
                map.insert(a, v);
            },
        }
        i = i + 1;
    }
    if map.len() == 0 {
        None
    } else {
        Some(map)
    }
}

/// Parses `addr=kind,...` into lowercase kind labels by 4 KiB page; `None`
/// when the text has no `=`, a part is malformed or names no kind, or no entry
/// is given.
pub fn parse_classify_kind_labels(spec: &str) -> (r: Option<HashMap<u64, String>>)
    ensures
        match label_map_of(spec@) {
            None => r is None,
            Some(m) => r matches Some(h) && h@.dom() == m.dom() && forall|a: u64| #[trigger]
                m.contains_key(a) ==> h@[a]@ == m[a],
        },
{
    if find_char(spec, '=').is_none() {
        return None;
    }
    let parts = split_parts(spec, ',');
    let ghost ps = split_on(spec@, ',');
    let ghost value = |t: Seq<char>| label_value(t);
    let mut map: HashMap<u64, String> = HashMap::new();
    let mut i: usize = 0;
    while i < parts.len()
        invariant
            i <= parts@.len(),
            parts@.len() == ps.len(),
            forall|k: int| 0 <= k < parts@.len() ==> (#[trigger] parts@[k])@ == ps[k],
            value == (|t: Seq<char>| label_value(t)),
            ps == split_on(spec@, ','),
            find_from(spec@, '=', 0) is Some,
            entries_map(ps, i as nat, value) matches Some(m) && map@.dom() == m.dom() && forall|
                a: u64,
            | #[trigger] m.contains_key(a) ==> map@[a]@ == m[a],
        decreases parts@.len() - i,
    {
        match label_entry(parts[i].as_str()) {
            Entry::Bad => {
                proof {
                    assert(entries_map(ps, (i + 1) as nat, value) is None);
                    lemma_entries_stay_none(ps, (i + 1) as nat, ps.len(), value);
                }
                return None;
            },
            Entry::Blank => {},
            Entry::Good(a, v) => {
                map.insert(a, v);
            },
        }
        i = i + 1;
    }
    if map.len() == 0 {
        None
    } else {
        Some(map)
    }
}

proof fn lemma_entries_stay_none<V>(
    parts: Seq<Seq<char>>,
    i: nat,
    k: nat,
    value: spec_fn(Seq<char>) -> Option<V>,
)
    requires
        i <= k,
        entries_map(parts, i, value) is None,
    ensures
        entries_map(parts, k, value) is None,
    decreases k - i,
{
    if i < k {
        lemma_entries_stay_none(parts, i, (k - 1) as nat, value);
    }
}

// ---------------------------------------------------------------------------
// Applying an override
// ---------------------------------------------------------------------------

/// The kinds of blocks after `--classify s`: per page when `s` is a page map
/// (blocks on other pages keep theirs), else all blocks when `s` names a kind,
/// else unchanged.
pub open spec fn classified_kind(k: BlockKind, base: u64, s: Seq<char>) -> BlockKind {
    match kind_map_of(s) {
        Some(m) => if m.contains_key(page_of(base)) { m[page_of(base)] } else { k },
        None => match kind_of(s) {
            Some(all) => all,
            None => k,
        },
    }
}

/// Applies `--classify kind` to the blocks' kinds; everything else of the
/// specification is kept.
pub fn apply_classify_override(spec: &mut HardwareSpec, kind: &str)
    ensures
        final(spec).source == old(spec).source,
        final(spec).cpu == old(spec).cpu,
        final(spec).memory == old(spec).memory,
        final(spec).interrupts == old(spec).interrupts,
        final(spec).blocks@.len() == old(spec).blocks@.len(),
        forall|i: int|
            0 <= i < old(spec).blocks@.len() ==> {
                let (b, b0) = (#[trigger] final(spec).blocks@[i], old(spec).blocks@[i]);
                &&& b.kind == classified_kind(b0.kind, b0.base_address, kind@)
                &&& b.id == b0.id && b.base_address == b0.base_address && b.size == b0.size
                &&& b.registers == b0.registers && b.timing == b0.timing
            },
{
    let map = parse_classify_address_map(kind);
    let single = parse_block_kind_name(kind);
    let n = spec.blocks.len();
    let mut i: usize = 0;
    while i < n
        invariant
            i <= n,
            n == old(spec).blocks@.len(),
            spec.blocks@.len() == n,
            spec.source == old(spec).source,
            spec.cpu == old(spec).cpu,
            spec.memory == old(spec).memory,
            spec.interrupts == old(spec).interrupts,
            match kind_map_of(kind@) {
                None => map is None,
                Some(m) => map matches Some(h) && h@ == m,
            },
            single == kind_of(kind@),
            forall|k: int|
                i <= k < n ==> #[trigger] spec.blocks@[k] == old(spec).blocks@[k],
            forall|k: int|
                0 <= k < i ==> {
                    let (b, b0) = (#[trigger] spec.blocks@[k], old(spec).blocks@[k]);
                    &&& b.kind == classified_kind(b0.kind, b0.base_address, kind@)
                    &&& b.id == b0.id && b.base_address == b0.base_address && b.size == b0.size
                    &&& b.registers == b0.registers && b.timing == b0.timing
                },
        decreases n - i,
    {
        let page = spec.blocks[i].base_address & !0xfffu64;
        let new_kind = match &map {
            Some(m) => match m.get(&page) {
                Some(k) => Some(*k),
                None => None,
            },
            None => single,
        };
        match new_kind {
            Some(k) => {
                spec.blocks[i].kind = k;
            },
            None => {},
        }
        i = i + 1;
    }
}

/// Label prefixes after `--classify s`: per page when `s` is a page map of
/// kind labels (accesses on other pages keep their name), else `s` itself on
/// every access.
pub open spec fn prefixed_name(name: Seq<char>, address: u64, s: Seq<char>) -> Seq<char> {
    match label_map_of(s) {
        Some(m) => if m.contains_key(page_of(address)) {
            m[page_of(address)] + "_"@ + name
        } else {
            name
        },
        None => s + "_"@ + name,
    }
}

/// Prefixes the function names of MMIO accesses with the classification
/// label of their page (or with `kind` on all of them).
pub fn prefix_mmio_by_classify(accesses: &mut Vec<MmioAccess>, kind: &str)
    ensures
        final(accesses)@.len() == old(accesses)@.len(),
        forall|i: int|
            0 <= i < old(accesses)@.len() ==> {
                let (a, a0) = (#[trigger] final(accesses)@[i], old(accesses)@[i]);
                &&& a.function_name@ == prefixed_name(a0.function_name@, a0.address, kind@)
                &&& a.address == a0.address && a.value == a0.value && a.access_type == a0.access_type
                &&& a.instruction_addr == a0.instruction_addr
            },
{
    proof {
        reveal_strlit("_");
    }
    let labels = parse_classify_kind_labels(kind);
    let n = accesses.len();
    let mut i: usize = 0;
    while i < n
        invariant
            i <= n,
            n == old(accesses)@.len(),
            accesses@.len() == n,
            match label_map_of(kind@) {
                None => labels is None,
                Some(m) => labels matches Some(h) && h@.dom() == m.dom() && forall|a: u64| #[trigger]
                    m.contains_key(a) ==> h@[a]@ == m[a],
            },
            forall|k: int| i <= k < n ==> #[trigger] accesses@[k] == old(accesses)@[k],
            forall|k: int|
                0 <= k < i ==> {
                    let (a, a0) = (#[trigger] accesses@[k], old(accesses)@[k]);
                    &&& a.function_name@ == prefixed_name(a0.function_name@, a0.address, kind@)
                    &&& a.address == a0.address && a.value == a0.value && a.access_type
                        == a0.access_type
                    &&& a.instruction_addr == a0.instruction_addr
                },
        decreases n - i,
    {
        let page = accesses[i].address & !0xfffu64;
        let prefix: Option<&str> = match &labels {
            Some(m) => match m.get(&page) {
                Some(l) => Some(l.as_str()),
                None => None,
            },
            None => Some(kind),
        };
        match prefix {
            Some(p) => {
                let mut name = String::new();
                name.append(p);
                name.append("_");
                name.append(accesses[i].function_name.as_str());
                accesses[i].function_name = name;
            },
            None => {},
        }
        i = i + 1;
    }
}

} // verus!
