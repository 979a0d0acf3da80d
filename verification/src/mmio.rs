//! Raw MMIO accesses and the byte-level scans that find candidate MMIO
//! addresses in a firmware image, plus the removal of known boot headers.

use vstd::prelude::*;

verus! {

/// Direction of an MMIO access.
#[derive(Clone, Copy, Debug, PartialEq, Eq, Structural)]
pub enum MmioAccessType {
    Read,
    Write,
}

/// One observed (or inferred) MMIO access.
#[derive(Clone, Debug, PartialEq, Eq)]
pub struct MmioAccess {
    pub address: u64,
    pub value: Option<u64>,
    pub access_type: MmioAccessType,
    /// Function (or label) the access was attributed to.
    pub function_name: String,
    pub instruction_addr: u64,
}

/// `v` lies in an address range typical of SoC peripherals (generic ARM
/// windows, MediaTek and Unisoc ranges).
pub open spec fn likely_mmio(v: u32) -> bool {
    ||| 0x10000000 <= v <= 0x20000000
    ||| 0xA0000000 <= v <= 0xB0000000
    ||| 0x40000000 <= v <= 0x50000000
    ||| 0xE0000000 <= v <= 0xF0000000
    ||| 0x1C000000 <= v <= 0x1D000000
    ||| 0xA9000000 <= v <= 0xAB000000
}

/// Whether `val` looks like a peripheral address.
pub fn is_likely_mmio(val: u32) -> (r: bool)
    ensures
        r == likely_mmio(val),
{
    (val >= 0x10000000 && val <= 0x20000000) || (val >= 0xA0000000 && val <= 0xB0000000) || (val
        >= 0x40000000 && val <= 0x50000000) || (val >= 0xE0000000 && val <= 0xF0000000) || (val
        >= 0x1C000000 && val <= 0x1D000000) || (val >= 0xA9000000 && val <= 0xAB000000)
}

/// Little-endian 32-bit word of the `k`-th complete 4-byte chunk.
pub open spec fn word_at(data: Seq<u8>, k: int) -> u32 {
    (data[4 * k] as u32) | ((data[4 * k + 1] as u32) << 8u32) | ((data[4 * k + 2] as u32) << 16u32) | ((
    data[4 * k + 3] as u32) << 24u32)
}

/// Words of the complete chunks `0..k` that satisfy `pick`, in order.
pub open spec fn picked_words(data: Seq<u8>, k: nat, pick: spec_fn(u32) -> bool) -> Seq<u32>
    decreases k,
{
    if k == 0 {
        Seq::empty()
    } else {
        let rest = picked_words(data, (k - 1) as nat, pick);
        if pick(word_at(data, k - 1)) { rest.push(word_at(data, k - 1)) } else { rest }
    }
}

/// `s` without elements equal to their predecessor (consecutive duplicates).
pub open spec fn dedup_consecutive(s: Seq<u32>) -> Seq<u32>
    decreases s.len(),
{
    if s.len() <= 1 {
        s
    } else {
        let rest = dedup_consecutive(s.drop_last());
        if s.last() == s[s.len() - 2] { rest } else { rest.push(s.last()) }
    }
}

/// `s` cut to at most `n` elements.
pub open spec fn take_at_most(s: Seq<u32>, n: nat) -> Seq<u32> {
    if s.len() <= n { s } else { s.subrange(0, n as int) }
}

/// A heuristic write access to `address` attributed to `label`.
pub open spec fn is_scan_access(a: MmioAccess, address: u32, label: Seq<char>) -> bool {
    &&& a.address == address as u64
    &&& a.value == Some(1u64)
    &&& a.access_type == MmioAccessType::Write
    &&& a.function_name@ == label
    &&& a.instruction_addr == 0
}

/// `accs` are the heuristic accesses of `addrs`, in order.
pub open spec fn scan_accesses(accs: Seq<MmioAccess>, addrs: Seq<u32>, label: Seq<char>) -> bool {
    &&& accs.len() == addrs.len()
    &&& forall|i: int| 0 <= i < accs.len() ==> is_scan_access(#[trigger] accs[i], addrs[i], label)
}

/// The window the quick mock scan accepts.
pub open spec fn mock_window(v: u32) -> bool {
    (0x10000000 <= v <= 0x20000000) || (0xA0000000 <= v <= 0xB0000000)
}

fn word_le(data: &[u8], k: usize) -> (w: u32)
    requires
        4 * k + 4 <= data.len(),
    ensures
        w == word_at(data@, k as int),
{
    let i = 4 * k;
    (data[i] as u32) | ((data[i + 1] as u32) << 8u32) | ((data[i + 2] as u32) << 16u32) | ((data[i
        + 3] as u32) << 24u32)
}

fn scan_access(address: u32, label: &str) -> (a: MmioAccess)
    ensures
        is_scan_access(a, address, label@),
{
    let mut name = String::new();
    name.append(label);
    MmioAccess {
        address: address as u64,
        value: Some(1),
        access_type: MmioAccessType::Write,
        function_name: name,
        instruction_addr: 0,
    }
}

/// Candidate addresses of the complete 4-byte little-endian words of `data`
/// that satisfy `pick`: at most `limit`, then (when `dedup`) without
/// consecutive repeats.
fn scan_words(data: &[u8], pick_likely: bool, limit: usize, dedup: bool) -> (v: Vec<u32>)
    ensures
        ({
            let picked = if pick_likely {
                picked_words(data@, data@.len() / 4, |w: u32| likely_mmio(w))
            } else {
                picked_words(data@, data@.len() / 4, |w: u32| mock_window(w))
            };
            let cut = take_at_most(picked, limit as nat);
            v@ == if dedup { dedup_consecutive(cut) } else { cut }
        }),
{
    let ghost pick: spec_fn(u32) -> bool = if pick_likely {
        |w: u32| likely_mmio(w)
    } else {
        |w: u32| mock_window(w)
    };
    let chunks = data.len() / 4;
    let mut words: Vec<u32> = Vec::new();
    let mut k: usize = 0;
    while k < chunks
        invariant
            k <= chunks,
            chunks == data@.len() / 4,
            pick == (if pick_likely {
                |w: u32| likely_mmio(w)
            } else {
                |w: u32| mock_window(w)
            }),
            words@ == picked_words(data@, k as nat, pick),
        decreases chunks - k,
    {
        assert(4 * k + 4 <= data.len()) by (nonlinear_arith)
            requires
                k < chunks,
                chunks == data.len() / 4,
        ;
        let w = word_le(data, k);
        let keep = if pick_likely { is_likely_mmio(w) } else {
            (w >= 0x10000000 && w <= 0x20000000) || (w >= 0xA0000000 && w <= 0xB0000000)
        };
        if keep {
            words.push(w);
        }
        k = k + 1;
    }
    let mut cut: Vec<u32> = Vec::new();
    let mut i: usize = 0;
    while i < words.len() && i < limit
        invariant
            i <= words@.len(),
            i <= limit,
            cut@ == words@.subrange(0, i as int),
        decreases words@.len() - i,
    {
        cut.push(words[i]);
        i = i + 1;
    }
    assert(cut@ == take_at_most(words@, limit as nat));
    if !dedup {
        return cut;
    }
    let mut out: Vec<u32> = Vec::new();
    let mut j: usize = 0;
    while j < cut.len()
        invariant
            j <= cut@.len(),
            out@ == dedup_consecutive(cut@.subrange(0, j as int)),
        decreases cut@.len() - j,
    {
        proof {
            let sub = cut@.subrange(0, j as int + 1);
            assert(sub.drop_last() =~= cut@.subrange(0, j as int));
        }
        if j == 0 || cut[j] != cut[j - 1] {
            out.push(cut[j]);
        }
        j = j + 1;
    }
    assert(cut@.subrange(0, j as int) =~= cut@);
    out
}

fn accesses_of(addrs: &Vec<u32>, label: &str) -> (v: Vec<MmioAccess>)
    ensures
        scan_accesses(v@, addrs@, label@),
{
    let mut v: Vec<MmioAccess> = Vec::new();
    let mut i: usize = 0;
    while i < addrs.len()
        invariant
            i <= addrs@.len(),
            v@.len() == i,
            forall|k: int| 0 <= k < i ==> is_scan_access(#[trigger] v@[k], addrs@[k], label@),
        decreases addrs@.len() - i,
    {
        v.push(scan_access(addrs[i], label));
        i = i + 1;
    }
    v
}

/// Heuristic scan of raw bytes: every complete little-endian word that looks
/// like a peripheral address, as a write attributed to "heuristic"; at most
/// 500, then without consecutive repeats of an address.
pub fn heuristic_scan(data: &[u8]) -> (v: Vec<MmioAccess>)
    ensures
        scan_accesses(
            v@,
            dedup_consecutive(
                take_at_most(picked_words(data@, data@.len() / 4, |w: u32| likely_mmio(w)), 500),
            ),
            "heuristic"@,
        ),
{
    let addrs = scan_words(data, true, 500, true);
    accesses_of(&addrs, "heuristic")
}

/// Quick mock scan of raw bytes: every complete little-endian word in the
/// generic peripheral windows, as a write attributed to "detected"; at most 100.
pub fn mock_mmio_from_binary(data: &[u8]) -> (v: Vec<MmioAccess>)
    ensures
        scan_accesses(
            v@,
            take_at_most(picked_words(data@, data@.len() / 4, |w: u32| mock_window(w)), 100),
            "detected"@,
        ),
{
    let addrs = scan_words(data, false, 100, false);
    accesses_of(&addrs, "detected")
}

/// The payload of a boot image without its known header: a DHTB header (512
/// bytes), an MTK boot-ROM header (32 bytes) or an Android boot image header
/// (1648 bytes); other images (gzip included) are returned whole.
pub open spec fn stripped(d: Seq<u8>) -> Seq<u8> {
    if d.len() > 4 && d.subrange(0, 4) == seq![0x44u8, 0x48u8, 0x54u8, 0x42u8] {
        d.subrange(0x200, d.len() as int)
    } else if d.len() > 16 && d.subrange(0, 4) == seq![0xA0u8, 0x0Au8, 0x1Au8, 0x00u8] {
        d.subrange(32, d.len() as int)
    } else if d.len() > 8 && d.subrange(0, 8) == seq![
        0x41u8,
        0x4Eu8,
        0x44u8,
        0x52u8,
        0x4Fu8,
        0x49u8,
        0x44u8,
        0x21u8,
    ] {
        d.subrange(1648, d.len() as int)
    } else {
        d
    }
}

/// A header is recognized only on images long enough to hold it.
pub open spec fn header_fits(d: Seq<u8>) -> bool {
    &&& (d.len() > 4 && d.subrange(0, 4) == seq![0x44u8, 0x48u8, 0x54u8, 0x42u8]) ==> d.len() >= 0x200
    &&& (d.len() > 16 && d.subrange(0, 4) == seq![0xA0u8, 0x0Au8, 0x1Au8, 0x00u8]) ==> d.len() >= 32
    &&& (d.len() > 8 && d.subrange(0, 8) == seq![
        0x41u8,
        0x4Eu8,
        0x44u8,
        0x52u8,
        0x4Fu8,
        0x49u8,
        0x44u8,
        0x21u8,
    ]) ==> d.len() >= 1648
}

fn starts_with(d: &[u8], prefix: &[u8]) -> (r: bool)
    ensures
        r == (prefix@.len() <= d@.len() && d@.subrange(0, prefix@.len() as int) == prefix@),
{
    if prefix.len() > d.len() {
        return false;
    }
    let mut i: usize = 0;
    while i < prefix.len()
        invariant
            i <= prefix@.len(),
            prefix@.len() <= d@.len(),
            forall|k: int| 0 <= k < i ==> d@[k] == prefix@[k],
        decreases prefix@.len() - i,
    {
        if d[i] != prefix[i] {
            assert(d@.subrange(0, prefix@.len() as int)[i as int] != prefix@[i as int]);
            return false;
        }
        i = i + 1;
    }
    assert(d@.subrange(0, prefix@.len() as int) =~= prefix@);
    true
}

fn tail(d: &[u8], from: usize) -> (v: Vec<u8>)
    requires
        from <= d@.len(),
    ensures
        v@ == d@.subrange(from as int, d@.len() as int),
{
    let mut v: Vec<u8> = Vec::new();
    let mut i: usize = from;
    while i < d.len()
        invariant
            from <= i <= d@.len(),
            v@ == d@.subrange(from as int, i as int),
        decreases d@.len() - i,
    {
        v.push(d[i]);
        i = i + 1;
    }
    v
}

/// Removes a known boot header (DHTB, MTK boot ROM, Android boot image).
pub fn strip_headers(data: &[u8]) -> (v: Vec<u8>)
    requires
        header_fits(data@),
    ensures
        v@ == stripped(data@),
{
    let dhtb: [u8; 4] = [0x44, 0x48, 0x54, 0x42];
    let mtk: [u8; 4] = [0xA0, 0x0A, 0x1A, 0x00];
    let android: [u8; 8] = [0x41, 0x4E, 0x44, 0x52, 0x4F, 0x49, 0x44, 0x21];
    assert(dhtb@ == seq![0x44u8, 0x48u8, 0x54u8, 0x42u8]);
    assert(mtk@ == seq![0xA0u8, 0x0Au8, 0x1Au8, 0x00u8]);
    assert(android@ == seq![0x41u8, 0x4Eu8, 0x44u8, 0x52u8, 0x4Fu8, 0x49u8, 0x44u8, 0x21u8]);
    if data.len() > 4 && starts_with(data, dhtb.as_slice()) {
        return tail(data, 0x200);
    }
    if data.len() > 16 && starts_with(data, mtk.as_slice()) {
        return tail(data, 32);
    }
    if data.len() > 8 && starts_with(data, android.as_slice()) {
        return tail(data, 1648);
    }
    tail(data, 0)
}

/// An MMIO access a disassembler found: the address, "write" or another
/// direction, the function and the instruction.
#[derive(Clone, Debug, PartialEq, Eq)]
pub struct MmioCandidate {
    pub address: u64,
    pub access_type: String,
    pub function: String,
    pub instruction_addr: u64,
}

/// The access recorded for a candidate.
#[verifier::opaque]
pub open spec fn from_candidate(a: MmioAccess, c: MmioCandidate) -> bool {
    &&& a.address == c.address
    &&& a.value == Some(1u64)
    &&& a.access_type == if c.access_type@ == "write"@ {
        MmioAccessType::Write
    } else {
        MmioAccessType::Read
    }
    &&& a.function_name@ == c.function@
    &&& a.instruction_addr == c.instruction_addr
}

/// `k` is the first candidate with its address.
#[verifier::opaque]
pub open spec fn first_with_address(cs: Seq<MmioCandidate>, k: int) -> bool {
    &&& 0 <= k < cs.len()
    &&& forall|j: int| 0 <= j < k ==> cs[j].address != cs[k].address
}

/// Addresses strictly increase along `out`.
pub open spec fn sorted_by_address(out: Seq<MmioAccess>) -> bool {
    forall|i: int, j: int| 0 <= i < j < out.len() ==> out[i].address < out[j].address
}

/// Every access of `out` records the first candidate of its address.
pub open spec fn all_first(out: Seq<MmioAccess>, cs: Seq<MmioCandidate>) -> bool {
    forall|i: int|
        #![trigger out[i]]
        0 <= i < out.len() ==> exists|k: int| #[trigger] first_with_address(cs, k) && from_candidate(out[i], cs[k])
}

/// Every candidate's address occurs in `out`.
pub open spec fn covers_addresses(out: Seq<MmioAccess>, cs: Seq<MmioCandidate>) -> bool {
    forall|k: int|
        #![trigger cs[k]]
        0 <= k < cs.len() ==> exists|i: int| 0 <= i < out.len() && (#[trigger] out[i]).address == cs[k].address
}

/// `out` holds, by increasing address, the first candidate of each address
/// found in `cs`.
pub open spec fn unique_by_address(out: Seq<MmioAccess>, cs: Seq<MmioCandidate>) -> bool {
    &&& sorted_by_address(out)
    &&& all_first(out, cs)
    &&& covers_addresses(out, cs)
}

fn access_of(c: &MmioCandidate) -> (a: MmioAccess)
    ensures
        from_candidate(a, *c),
        a.address == c.address,
{
    let write = c.access_type.as_str().unicode_len() == 5 && {
        let t = c.access_type.as_str();
        t.get_char(0) == 'w' && t.get_char(1) == 'r' && t.get_char(2) == 'i' && t.get_char(3) == 't'
            && t.get_char(4) == 'e'
    };
    proof {
        reveal(from_candidate);
        reveal_strlit("write");
        if write {
            assert(c.access_type@ =~= "write"@);
        }
    }
    let mut name = String::new();
    name.append(c.function.as_str());
    MmioAccess {
        address: c.address,
        value: Some(1),
        access_type: if write { MmioAccessType::Write } else { MmioAccessType::Read },
        function_name: name,
        instruction_addr: c.instruction_addr,
    }
}

proof fn lemma_firsts_of_prefix(prev: Seq<MmioCandidate>, c: MmioCandidate)
    ensures
        forall|m: int| #[trigger] first_with_address(prev, m) ==> first_with_address(prev.push(c), m) && prev.push(c)[m] == prev[m],
{
    let cs = prev.push(c);
    reveal(first_with_address);
    assert forall|m: int| #[trigger] first_with_address(prev, m) implies first_with_address(cs, m) && cs[m] == prev[m] by {
        assert forall|j: int| 0 <= j < m implies cs[j].address != cs[m].address by {
            assert(prev[j] == cs[j]);
        }
    }
}

proof fn lemma_keep(out: Seq<MmioAccess>, prev: Seq<MmioCandidate>, c: MmioCandidate, pos: int)
    requires
        unique_by_address(out, prev),
        0 <= pos < out.len(),
        out[pos].address == c.address,
    ensures
        unique_by_address(out, prev.push(c)),
{
    let cs = prev.push(c);
    lemma_firsts_of_prefix(prev, c);
    assert forall|i: int| #![trigger out[i]] 0 <= i < out.len() implies exists|m: int| #[trigger]
        first_with_address(cs, m) && from_candidate(out[i], cs[m]) by {
        let m = choose|m: int| #[trigger] first_with_address(prev, m) && from_candidate(out[i], prev[m]);
        assert(first_with_address(cs, m));
    }
    assert forall|q: int| #![trigger cs[q]] 0 <= q < cs.len() implies exists|i: int| 0 <= i < out.len()
        && (#[trigger] out[i]).address == cs[q].address by {
        if q < prev.len() {
            assert(cs[q] == prev[q]);
            let i = choose|i: int| 0 <= i < out.len() && (#[trigger] out[i]).address == prev[q].address;
        } else {
            assert(out[pos].address == cs[q].address);
        }
    }
}

proof fn lemma_new_first(out: Seq<MmioAccess>, prev: Seq<MmioCandidate>, c: MmioCandidate, pos: int)
    requires
        sorted_by_address(out),
        covers_addresses(out, prev),
        0 <= pos <= out.len(),
        forall|i: int| 0 <= i < pos ==> out[i].address < c.address,
        pos < out.len() ==> out[pos].address > c.address,
    ensures
        first_with_address(prev.push(c), prev.len() as int),
{
    let cs = prev.push(c);
    let k = prev.len() as int;
    reveal(first_with_address);
    assert forall|j: int| 0 <= j < k implies cs[j].address != cs[k].address by {
        assert(cs[j] == prev[j]);
        let i = choose|i: int| 0 <= i < out.len() && (#[trigger] out[i]).address == prev[j].address;
        if i > pos {
            assert(out[pos].address < out[i].address);
        }
    }
}

proof fn lemma_insert_sorted(out: Seq<MmioAccess>, c: MmioCandidate, pos: int, a: MmioAccess)
    requires
        sorted_by_address(out),
        0 <= pos <= out.len(),
        forall|i: int| 0 <= i < pos ==> out[i].address < c.address,
        pos < out.len() ==> out[pos].address > c.address,
        a.address == c.address,
    ensures
        sorted_by_address(out.insert(pos, a)),
{
    let after = out.insert(pos, a);
    out.insert_ensures(pos, a);
    assert forall|i: int, j: int| 0 <= i < j < after.len() implies after[i].address < after[j].address by {
        if j < pos {
            assert(after[i] == out[i] && after[j] == out[j]);
        } else if j == pos {
            assert(after[i] == out[i]);
        } else {
            assert(after[j] == out[(j - 1) as int]);
            if j - 1 > pos {
                assert(out[pos].address < out[j - 1].address);
            }
            if i < pos {
                assert(after[i] == out[i]);
            } else if i > pos {
                assert(after[i] == out[(i - 1) as int]);
            }
        }
    }
}

proof fn lemma_insert(out: Seq<MmioAccess>, prev: Seq<MmioCandidate>, c: MmioCandidate, pos: int, a: MmioAccess)
    requires
        unique_by_address(out, prev),
        0 <= pos <= out.len(),
        forall|i: int| 0 <= i < pos ==> out[i].address < c.address,
        pos < out.len() ==> out[pos].address > c.address,
        from_candidate(a, c),
        a.address == c.address,
    ensures
        unique_by_address(out.insert(pos, a), prev.push(c)),
{
    let cs = prev.push(c);
    let after = out.insert(pos, a);
    out.insert_ensures(pos, a);
    lemma_firsts_of_prefix(prev, c);
    lemma_new_first(out, prev, c, pos);
    lemma_insert_sorted(out, c, pos, a);
    assert forall|i: int| #![trigger after[i]] 0 <= i < after.len() implies exists|m: int| #[trigger]
        first_with_address(cs, m) && from_candidate(after[i], cs[m]) by {
        if i == pos {
            assert(first_with_address(cs, prev.len() as int) && from_candidate(after[i], cs[prev.len() as int]));
        } else {
            let bi = if i < pos { i } else { i - 1 };
            assert(after[i] == out[bi]);
            let m = choose|m: int| #[trigger] first_with_address(prev, m) && from_candidate(out[bi], prev[m]);
            assert(first_with_address(cs, m));
        }
    }
    assert forall|q: int| #![trigger cs[q]] 0 <= q < cs.len() implies exists|i: int| 0 <= i < after.len()
        && (#[trigger] after[i]).address == cs[q].address by {
        if q < prev.len() {
            assert(cs[q] == prev[q]);
            let i = choose|i: int| 0 <= i < out.len() && (#[trigger] out[i]).address == prev[q].address;
            if i < pos {
                assert(after[i] == out[i]);
            } else {
                assert(after[i + 1] == out[i]);
            }
        } else {
            assert(after[pos] == a);
        }
    }
}

/// The accesses of disassembled candidates, by increasing address, keeping
/// the first candidate of each address (a stable sort by address, then
/// removal of repeated addresses).
pub fn unique_accesses(candidates: &Vec<MmioCandidate>) -> (out: Vec<MmioAccess>)
    ensures
        unique_by_address(out@, candidates@),
{
    let mut out: Vec<MmioAccess> = Vec::new();
    let mut k: usize = 0;
    while k < candidates.len()
        invariant
            k <= candidates@.len(),
            unique_by_address(out@, candidates@.subrange(0, k as int)),
        decreases candidates@.len() - k,
    {
        let c = &candidates[k];
        proof {
            assert(candidates@.subrange(0, k as int + 1) =~= candidates@.subrange(0, k as int).push(*c));
        }
        let mut pos: usize = 0;
        while pos < out.len() && out[pos].address < c.address
            invariant
                pos <= out@.len(),
                forall|i: int| 0 <= i < pos ==> out@[i].address < c.address,
            decreases out@.len() - pos,
        {
            pos = pos + 1;
        }
        if pos < out.len() && out[pos].address == c.address {
            proof {
                lemma_keep(out@, candidates@.subrange(0, k as int), *c, pos as int);
            }
        } else {
            let a = access_of(c);
            proof {
                lemma_insert(out@, candidates@.subrange(0, k as int), *c, pos as int, a);
            }
            out.insert(pos, a);
        }
        k = k + 1;
    }
    assert(candidates@.subrange(0, k as int) =~= candidates@);
    out
}

/// The accesses found in an image by disassembly: the heuristic scan of the
/// raw bytes when the disassembler found no function or no candidate, else the
/// candidates by increasing address, first of each address.
pub fn accesses_from_disasm(data: &[u8], functions_found: bool, candidates: &Vec<MmioCandidate>) -> (v: Vec<
    MmioAccess,
>)
    ensures
        !functions_found || candidates@.len() == 0 ==> scan_accesses(
            v@,
            dedup_consecutive(
                take_at_most(picked_words(data@, data@.len() / 4, |w: u32| likely_mmio(w)), 500),
            ),
            "heuristic"@,
        ),
        functions_found && candidates@.len() > 0 ==> unique_by_address(v@, candidates@),
{
    if !functions_found || candidates.len() == 0 {
        heuristic_scan(data)
    } else {
        unique_accesses(candidates)
    }
}

} // verus!
