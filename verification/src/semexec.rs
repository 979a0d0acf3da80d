//! Reference semantic execution: SIR operations as effects on a minimal
//! architectural state, at an ISA's word width and byte order.
//!
//! The differential property compares the reference execution of a program
//! with the execution of its encode→decode round trip at the target's width:
//! behaviour, not representation. Memory (load/store, push/pop) follows the
//! target's byte order. Operations set no flags yet.

use vstd::prelude::*;

use crate::sir::{BasicBlock, Function, Module, Op, OpModel, VReg, ops_model, duplicate_ops};
use crate::text::{hex_alt, push_hex_alt};
use crate::target::{Endianness, TargetIsa};
use crate::encode::{enc_ops, encode_module, encode_error_text, entry_ops, EncodeErrorModel};
use crate::decode::{decode_ops, decode_spec, decode_error_text, decodable, arith, DecodeErrorModel};
use crate::roundtrip::{
    all_faithful, decoded_form, decoded_ops, faithful, arith_form, clear_as_mov, x86_long_form,
    lemma_codec_roundtrip,
};

verus! {

/// Size of the modeled address space (64 KiB scratch).
pub const MEM_SIZE: usize = 0x10000;

/// Stack pointer register of the SIR model (x86 `esp`).
pub const SP: u32 = 4;

/// Link register of the SIR model (Alpha's r26); `Ret` sets `pc` from it.
pub const LINK: u32 = 26;

/// Architectural condition flags.
#[derive(Debug, Clone, Copy, PartialEq, Eq, Structural)]
pub struct Flags {
    pub carry: bool,
    pub overflow: bool,
    pub zero: bool,
    pub negative: bool,
    /// Architecture-specific condition bits (SH `T`, ColdFire `X`, SPARC icc...).
    pub extra: u32,
}

impl Default for Flags {
    fn default() -> (f: Flags)
        ensures
            f == (Flags { carry: false, overflow: false, zero: false, negative: false, extra: 0 }),
    {
        Flags { carry: false, overflow: false, zero: false, negative: false, extra: 0 }
    }
}

/// Minimal architectural state for differential execution.
#[derive(Debug, Clone, PartialEq, Eq)]
pub struct MachineState {
    /// 32 register-indexed GPRs (`u64` so Alpha's 64-bit registers fit).
    pub gpr: Vec<u64>,
    pub pc: u64,
    pub flags: Flags,
    /// Flat address space (`MEM_SIZE` bytes, zero-initialized).
    pub mem: Vec<u8>,
}

/// Model of a [`MachineState`].
pub struct StateModel {
    pub gpr: Seq<u64>,
    pub pc: u64,
    pub flags: Flags,
    pub mem: Seq<u8>,
}

impl View for MachineState {
    type V = StateModel;

    open spec fn view(&self) -> StateModel {
        StateModel { gpr: self.gpr@, pc: self.pc, flags: self.flags, mem: self.mem@ }
    }
}

/// The register slot of a register number (numbers wrap modulo 32).
pub open spec fn slot(idx: u32) -> int {
    (idx % 32) as int
}

/// Register `idx` of a state.
pub open spec fn reg(s: StateModel, idx: u32) -> u64 {
    s.gpr[slot(idx)]
}

/// A state with register `idx` set to `v`.
pub open spec fn set_reg(s: StateModel, idx: u32, v: u64) -> StateModel {
    StateModel { gpr: s.gpr.update(slot(idx), v), ..s }
}

/// The state [`MachineState::new`] builds.
pub open spec fn initial_state() -> StateModel {
    StateModel {
        gpr: Seq::new(32, |i: int| 0u64),
        pc: 0,
        flags: Flags { carry: false, overflow: false, zero: false, negative: false, extra: 0 },
        mem: Seq::new(MEM_SIZE as nat, |i: int| 0u8),
    }
}

impl Default for MachineState {
    fn default() -> (s: MachineState)
        ensures
            s@.gpr.len() == 0,
            s@.mem.len() == 0,
            s@.pc == 0,
            s@.flags == (Flags { carry: false, overflow: false, zero: false, negative: false, extra: 0 }),
    {
        MachineState { gpr: Vec::new(), pc: 0, flags: Flags::default(), mem: Vec::new() }
    }
}

impl MachineState {
    /// 32 zero registers, `pc` 0, no flags, `MEM_SIZE` zero bytes.
    pub fn new() -> (s: MachineState)
        ensures
            s@ == initial_state(),
    {
        let gpr: Vec<u64> = vec![0u64; 32];
        let mem: Vec<u8> = vec![0u8; MEM_SIZE];
        let s = MachineState { gpr, pc: 0, flags: Flags::default(), mem };
        assert(s@.gpr =~= initial_state().gpr);
        assert(s@.mem =~= initial_state().mem);
        s
    }

    /// The state with register `idx` (modulo 32) set to `value`.
    pub fn with_gpr(self, idx: u32, value: u64) -> (s: MachineState)
        requires
            slot(idx) < self.gpr.len(),
        ensures
            s@ == set_reg(self@, idx, value),
    {
        let mut s = self;
        s.gpr.set((idx % 32) as usize, value);
        s
    }

    /// Register `idx` (modulo 32).
    pub fn gpr(&self, idx: u32) -> (v: u64)
        requires
            slot(idx) < self.gpr.len(),
        ensures
            v == reg(self@, idx),
    {
        self.gpr[(idx % 32) as usize]
    }

    /// A copy of this state.
    pub fn duplicate(&self) -> (s: MachineState)
        ensures
            s@ == self@,
    {
        let mut gpr: Vec<u64> = Vec::new();
        let mut k: usize = 0;
        while k < self.gpr.len()
            invariant
                k <= self.gpr.len(),
                gpr@ == self.gpr@.subrange(0, k as int),
            decreases self.gpr.len() - k,
        {
            gpr.push(self.gpr[k]);
            k = k + 1;
            assert(gpr@ =~= self.gpr@.subrange(0, k as int));
        }
        let mut mem: Vec<u8> = Vec::new();
        let mut k: usize = 0;
        while k < self.mem.len()
            invariant
                k <= self.mem.len(),
                mem@ == self.mem@.subrange(0, k as int),
            decreases self.mem.len() - k,
        {
            mem.push(self.mem[k]);
            k = k + 1;
            assert(mem@ =~= self.mem@.subrange(0, k as int));
        }
        assert(gpr@ =~= self.gpr@);
        assert(mem@ =~= self.mem@);
        MachineState { gpr, pc: self.pc, flags: self.flags, mem }
    }

    /// Whether two states are equal.
    pub fn same_state(&self, other: &MachineState) -> (r: bool)
        ensures
            r == (self@ == other@),
    {
        if self.pc != other.pc || self.flags != other.flags {
            return false;
        }
        if !same_u64s(&self.gpr, &other.gpr) {
            return false;
        }
        if !same_u8s(&self.mem, &other.mem) {
            return false;
        }
        true
    }
}

fn same_u64s(a: &Vec<u64>, b: &Vec<u64>) -> (r: bool)
    ensures
        r == (a@ == b@),
{
    if a.len() != b.len() {
        return false;
    }
    let mut i: usize = 0;
    while i < a.len()
        invariant
            i <= a.len(),
            a.len() == b.len(),
            forall|k: int| 0 <= k < i ==> a@[k] == b@[k],
        decreases a.len() - i,
    {
        if a[i] != b[i] {
            return false;
        }
        i = i + 1;
    }
    assert(a@ =~= b@);
    true
}

fn same_u8s(a: &Vec<u8>, b: &Vec<u8>) -> (r: bool)
    ensures
        r == (a@ == b@),
{
    if a.len() != b.len() {
        return false;
    }
    let mut i: usize = 0;
    while i < a.len()
        invariant
            i <= a.len(),
            a.len() == b.len(),
            forall|k: int| 0 <= k < i ==> a@[k] == b@[k],
        decreases a.len() - i,
    {
        if a[i] != b[i] {
            return false;
        }
        i = i + 1;
    }
    assert(a@ =~= b@);
    true
}

// ---------------------------------------------------------------------------
// Memory
// ---------------------------------------------------------------------------

/// Why a memory access failed.
#[derive(Debug, Clone, Copy, PartialEq, Eq, Structural)]
pub enum MemError {
    OutOfBounds { address: u64, size: u64 },
    BadWidth(u8),
}

/// The access widths memory supports.
pub open spec fn width_ok(width: u8) -> bool {
    width == 1 || width == 2 || width == 4 || width == 8
}

/// The value of little-endian bytes.
pub open spec fn le_value(b: Seq<u8>) -> nat
    decreases b.len(),
{
    if b.len() == 0 {
        0
    } else {
        (b[0] + 256 * le_value(b.drop_first())) as nat
    }
}

/// The value of big-endian bytes.
pub open spec fn be_value(b: Seq<u8>) -> nat
    decreases b.len(),
{
    if b.len() == 0 {
        0
    } else {
        (b.last() + 256 * be_value(b.drop_last())) as nat
    }
}

/// The `n` low bytes of `v`, least significant first.
pub open spec fn le_bytes(v: nat, n: nat) -> Seq<u8>
    decreases n,
{
    if n == 0 {
        Seq::empty()
    } else {
        seq![(v % 256) as u8] + le_bytes(v / 256, (n - 1) as nat)
    }
}

/// The `n` low bytes of `v`, most significant first.
pub open spec fn be_bytes(v: nat, n: nat) -> Seq<u8>
    decreases n,
{
    if n == 0 {
        Seq::empty()
    } else {
        be_bytes(v / 256, (n - 1) as nat) + seq![(v % 256) as u8]
    }
}

/// The value of bytes in a byte order.
pub open spec fn value_of(b: Seq<u8>, endian: Endianness) -> nat {
    match endian {
        Endianness::Little => le_value(b),
        Endianness::Big => be_value(b),
    }
}

/// The `n` low bytes of `v` in a byte order.
pub open spec fn bytes_of(v: nat, n: nat, endian: Endianness) -> Seq<u8> {
    match endian {
        Endianness::Little => le_bytes(v, n),
        Endianness::Big => be_bytes(v, n),
    }
}

/// Whether `width` bytes at `address` lie inside `mem`.
pub open spec fn in_bounds(mem: Seq<u8>, address: u64, width: u8) -> bool {
    address + width <= mem.len()
}

/// What [`MachineState::load`] returns.
pub open spec fn load_spec(mem: Seq<u8>, address: u64, width: u8, endian: Endianness) -> Result<
    u64,
    MemError,
> {
    if !width_ok(width) {
        Err(MemError::BadWidth(width))
    } else if !in_bounds(mem, address, width) {
        Err(MemError::OutOfBounds { address, size: width as u64 })
    } else {
        Ok(value_of(mem.subrange(address as int, address + width), endian) as u64)
    }
}

/// The memory [`MachineState::store`] leaves, or its error.
pub open spec fn store_spec(
    mem: Seq<u8>,
    address: u64,
    width: u8,
    endian: Endianness,
    value: u64,
) -> Result<Seq<u8>, MemError> {
    if !width_ok(width) {
        Err(MemError::BadWidth(width))
    } else if !in_bounds(mem, address, width) {
        Err(MemError::OutOfBounds { address, size: width as u64 })
    } else {
        Ok(
            mem.subrange(0, address as int) + bytes_of(value as nat, width as nat, endian)
                + mem.subrange(address + width, mem.len() as int),
        )
    }
}

proof fn lemma_le_bytes_len(v: nat, n: nat)
    ensures
        le_bytes(v, n).len() == n,
    decreases n,
{
    if n > 0 {
        lemma_le_bytes_len(v / 256, (n - 1) as nat);
    }
}

proof fn lemma_be_bytes_len(v: nat, n: nat)
    ensures
        be_bytes(v, n).len() == n,
    decreases n,
{
    if n > 0 {
        lemma_be_bytes_len(v / 256, (n - 1) as nat);
    }
}

/// `256^n`.
pub open spec fn pow256(n: nat) -> nat
    decreases n,
{
    if n == 0 {
        1
    } else {
        256 * pow256((n - 1) as nat)
    }
}

proof fn lemma_pow256_pos(n: nat)
    ensures
        pow256(n) >= 1,
    decreases n,
{
    if n > 0 {
        lemma_pow256_pos((n - 1) as nat);
    }
}

proof fn lemma_le_roundtrip(v: nat, n: nat)
    ensures
        le_value(le_bytes(v, n)) == v % pow256(n),
    decreases n,
{
    if n > 0 {
        let b = le_bytes(v, n);
        lemma_le_roundtrip(v / 256, (n - 1) as nat);
        assert(b.drop_first() =~= le_bytes(v / 256, (n - 1) as nat));
        lemma_pow256_pos((n - 1) as nat);
        vstd::arithmetic::div_mod::lemma_mod_breakdown(v as int, 256, pow256((n - 1) as nat) as int);
    }
}

proof fn lemma_be_roundtrip(v: nat, n: nat)
    ensures
        be_value(be_bytes(v, n)) == v % pow256(n),
    decreases n,
{
    if n > 0 {
        let b = be_bytes(v, n);
        lemma_be_roundtrip(v / 256, (n - 1) as nat);
        assert(b.drop_last() =~= be_bytes(v / 256, (n - 1) as nat));
        lemma_pow256_pos((n - 1) as nat);
        vstd::arithmetic::div_mod::lemma_mod_breakdown(v as int, 256, pow256((n - 1) as nat) as int);
    }
}

/// Memory round trip: after a successful store, a load of the same address,
/// width and byte order gives back the stored value truncated to the width,
/// and every byte outside the stored range is unchanged.
pub proof fn lemma_load_after_store(
    mem: Seq<u8>,
    address: u64,
    width: u8,
    endian: Endianness,
    value: u64,
)
    requires
        store_spec(mem, address, width, endian, value) is Ok,
    ensures
        ({
            let mem2 = store_spec(mem, address, width, endian, value)->Ok_0;
            &&& mem2.len() == mem.len()
            &&& load_spec(mem2, address, width, endian) == Ok::<u64, MemError>(
                (value as nat % pow256(width as nat)) as u64,
            )
            &&& forall|k: int|
                0 <= k < mem.len() && !(address <= k < address + width) ==> #[trigger] mem2[k]
                    == mem[k]
        }),
{
    let bytes = bytes_of(value as nat, width as nat, endian);
    let mem2 = store_spec(mem, address, width, endian, value)->Ok_0;
    lemma_le_bytes_len(value as nat, width as nat);
    lemma_be_bytes_len(value as nat, width as nat);
    assert(mem2.subrange(address as int, address + width) =~= bytes);
    lemma_le_roundtrip(value as nat, width as nat);
    lemma_be_roundtrip(value as nat, width as nat);
    lemma_pow256_pos(width as nat);
}

/// Memory frame: a store leaves every load of a disjoint range as it was.
pub proof fn lemma_store_frame(
    mem: Seq<u8>,
    address: u64,
    width: u8,
    endian: Endianness,
    value: u64,
    other: u64,
    other_width: u8,
    other_endian: Endianness,
)
    requires
        store_spec(mem, address, width, endian, value) is Ok,
        other + other_width <= address || address + width <= other,
    ensures
        load_spec(store_spec(mem, address, width, endian, value)->Ok_0, other, other_width, other_endian)
            == load_spec(mem, other, other_width, other_endian),
{
    let mem2 = store_spec(mem, address, width, endian, value)->Ok_0;
    lemma_load_after_store(mem, address, width, endian, value);
    if in_bounds(mem, other, other_width) {
        assert(mem2.subrange(other as int, other + other_width) =~= mem.subrange(
            other as int,
            other + other_width,
        ));
    }
}

/// The other byte order.
pub open spec fn flip(e: Endianness) -> Endianness {
    match e {
        Endianness::Little => Endianness::Big,
        Endianness::Big => Endianness::Little,
    }
}

proof fn lemma_le_be_reverse(b: Seq<u8>)
    ensures
        le_value(b) == be_value(b.reverse()),
        be_value(b) == le_value(b.reverse()),
    decreases b.len(),
{
    if b.len() > 0 {
        let r = b.reverse();
        lemma_le_be_reverse(b.drop_first());
        lemma_le_be_reverse(b.drop_last());
        assert(r.drop_last() =~= b.drop_first().reverse());
        assert(r.drop_first() =~= b.drop_last().reverse());
        assert(r.last() == b[0]);
        assert(r[0] == b.last());
    }
}

/// Storing in one byte order and loading the same range in the other reads
/// the stored bytes backwards: the value the stored order gives to them
/// reversed.
pub proof fn lemma_store_load_other_order(
    mem: Seq<u8>,
    address: u64,
    width: u8,
    endian: Endianness,
    value: u64,
)
    requires
        store_spec(mem, address, width, endian, value) is Ok,
    ensures
        load_spec(store_spec(mem, address, width, endian, value)->Ok_0, address, width, flip(endian))
            == Ok::<u64, MemError>(
            value_of(bytes_of(value as nat, width as nat, endian).reverse(), endian) as u64,
        ),
{
    let bytes = bytes_of(value as nat, width as nat, endian);
    let mem2 = store_spec(mem, address, width, endian, value)->Ok_0;
    lemma_le_bytes_len(value as nat, width as nat);
    lemma_be_bytes_len(value as nat, width as nat);
    assert(mem2.subrange(address as int, address + width) =~= bytes);
    lemma_le_be_reverse(bytes);
}

/// Value of `b[lo..hi)` little-endian, read from the top byte down.
fn read_le(b: &Vec<u8>, lo: usize, hi: usize) -> (v: u64)
    requires
        lo <= hi <= b.len(),
        hi - lo <= 8,
    ensures
        v == le_value(b@.subrange(lo as int, hi as int)),
{
    let mut acc: u64 = 0;
    let mut k: usize = hi;
    proof {
        lemma_le_value_bound(b@.subrange(hi as int, hi as int));
    }
    while k > lo
        invariant
            lo <= k <= hi,
            hi <= b.len(),
            hi - lo <= 8,
            acc == le_value(b@.subrange(k as int, hi as int)),
            le_value(b@.subrange(k as int, hi as int)) < pow256((hi - k) as nat),
        decreases k - lo,
    {
        let ghost before = b@.subrange(k as int, hi as int);
        k = k - 1;
        let ghost now = b@.subrange(k as int, hi as int);
        proof {
            assert(now.drop_first() =~= before);
            lemma_pow256_le8((hi - k) as nat);
            lemma_le_value_bound(now);
        }
        acc = acc * 256 + b[k] as u64;
    }
    acc
}

/// Value of `b[lo..hi)` big-endian, read from the bottom byte up.
fn read_be(b: &Vec<u8>, lo: usize, hi: usize) -> (v: u64)
    requires
        lo <= hi <= b.len(),
        hi - lo <= 8,
    ensures
        v == be_value(b@.subrange(lo as int, hi as int)),
{
    let mut acc: u64 = 0;
    let mut k: usize = lo;
    proof {
        lemma_be_value_bound(b@.subrange(lo as int, lo as int));
    }
    while k < hi
        invariant
            lo <= k <= hi,
            hi <= b.len(),
            hi - lo <= 8,
            acc == be_value(b@.subrange(lo as int, k as int)),
            be_value(b@.subrange(lo as int, k as int)) < pow256((k - lo) as nat),
        decreases hi - k,
    {
        let ghost before = b@.subrange(lo as int, k as int);
        k = k + 1;
        let ghost now = b@.subrange(lo as int, k as int);
        proof {
            assert(now.drop_last() =~= before);
            lemma_pow256_le8((k - lo) as nat);
            lemma_be_value_bound(now);
        }
        acc = acc * 256 + b[k - 1] as u64;
    }
    acc
}

proof fn lemma_pow256_le8(n: nat)
    requires
        n <= 8,
    ensures
        pow256(n) <= 0x1_0000_0000_0000_0000,
        n >= 1 ==> pow256((n - 1) as nat) * 256 == pow256(n),
{
    reveal_with_fuel(pow256, 9);
}

proof fn lemma_le_value_bound(b: Seq<u8>)
    ensures
        le_value(b) < pow256(b.len()),
    decreases b.len(),
{
    if b.len() > 0 {
        lemma_le_value_bound(b.drop_first());
    }
}

proof fn lemma_be_value_bound(b: Seq<u8>)
    ensures
        be_value(b) < pow256(b.len()),
    decreases b.len(),
{
    if b.len() > 0 {
        lemma_be_value_bound(b.drop_last());
    }
}


fn check_width(width: u8) -> (r: Result<usize, MemError>)
    ensures
        match r {
            Ok(n) => width_ok(width) && n == width,
            Err(e) => !width_ok(width) && e == MemError::BadWidth(width),
        },
{
    if width == 1 || width == 2 || width == 4 || width == 8 {
        Ok(width as usize)
    } else {
        Err(MemError::BadWidth(width))
    }
}

impl MachineState {
    /// `mem[address .. address+width]` as a value in `endian` byte order;
    /// `BadWidth` unless the width is 1, 2, 4 or 8, and `OutOfBounds` when the
    /// range leaves memory, also when it would pass the end of the address space.
    pub fn load(&self, address: u64, width: u8, endian: Endianness) -> (r: Result<u64, MemError>)
        ensures
            r == load_spec(self@.mem, address, width, endian),
    {
        let size = check_width(width)?;
        let len = self.mem.len() as u64;
        let end = match address.checked_add(size as u64) {
            Some(e) => e,
            None => {
                return Err(MemError::OutOfBounds { address, size: size as u64 });
            },
        };
        if end > len {
            return Err(MemError::OutOfBounds { address, size: size as u64 });
        }
        let lo = address as usize;
        let hi = lo + size;
        match endian {
            Endianness::Little => Ok(read_le(&self.mem, lo, hi)),
            Endianness::Big => Ok(read_be(&self.mem, lo, hi)),
        }
    }

    /// Writes the `width` low bytes of `value` into `mem[address ..]` in
    /// `endian` byte order; fails as [`MachineState::load`] does, leaving the
    /// state unchanged.
    pub fn store(&mut self, address: u64, width: u8, endian: Endianness, value: u64) -> (r: Result<
        (),
        MemError,
    >)
        ensures
            match store_spec(old(self)@.mem, address, width, endian, value) {
                Ok(m) => r is Ok && final(self)@ == (StateModel { mem: m, ..old(self)@ }),
                Err(e) => r == Err::<(), MemError>(e) && final(self)@ == old(self)@,
            },
    {
        let size = check_width(width)?;
        let len = self.mem.len() as u64;
        let end = match address.checked_add(size as u64) {
            Some(e) => e,
            None => {
                return Err(MemError::OutOfBounds { address, size: size as u64 });
            },
        };
        if end > len {
            return Err(MemError::OutOfBounds { address, size: size as u64 });
        }
        let lo = address as usize;
        match endian {
            Endianness::Little => write_le(&mut self.mem, lo, size, value),
            Endianness::Big => write_be(&mut self.mem, lo, size, value),
        }
        Ok(())
    }
}

fn write_le(mem: &mut Vec<u8>, lo: usize, n: usize, value: u64)
    requires
        lo + n <= old(mem).len(),
    ensures
        final(mem)@ == old(mem)@.subrange(0, lo as int) + le_bytes(value as nat, n as nat)
            + old(mem)@.subrange(lo + n, old(mem)@.len() as int),
{
    let ghost start = mem@;
    let mut x: u64 = value;
    let mut k: usize = 0;
    while k < n
        invariant
            k <= n,
            lo + n <= mem.len(),
            mem.len() == start.len(),
            forall|j: int| 0 <= j < start.len() && !(lo <= j < lo + k) ==> #[trigger] mem@[j] == start[j],
            le_bytes(value as nat, n as nat) == mem@.subrange(lo as int, lo + k) + le_bytes(
                x as nat,
                (n - k) as nat,
            ),
        decreases n - k,
    {
        let ghost before = mem@;
        let ghost xb = x;
        mem.set(lo + k, (x % 256) as u8);
        x = x / 256;
        k = k + 1;
        proof {
            assert(le_bytes(xb as nat, (n - k + 1) as nat) =~= seq![(xb as nat % 256) as u8]
                + le_bytes(x as nat, (n - k) as nat));
            assert(mem@.subrange(lo as int, lo + k) =~= before.subrange(lo as int, lo + k - 1)
                + seq![(xb as nat % 256) as u8]);
            assert(le_bytes(value as nat, n as nat) =~= mem@.subrange(lo as int, lo + k) + le_bytes(
                x as nat,
                (n - k) as nat,
            ));
        }
    }
    proof {
        lemma_le_bytes_len(x as nat, 0);
        assert(mem@ =~= start.subrange(0, lo as int) + le_bytes(value as nat, n as nat)
            + start.subrange(lo + n, start.len() as int));
    }
}

fn write_be(mem: &mut Vec<u8>, lo: usize, n: usize, value: u64)
    requires
        lo + n <= old(mem).len(),
    ensures
        final(mem)@ == old(mem)@.subrange(0, lo as int) + be_bytes(value as nat, n as nat)
            + old(mem)@.subrange(lo + n, old(mem)@.len() as int),
{
    let ghost start = mem@;
    let mut x: u64 = value;
    let mut k: usize = n;
    while k > 0
        invariant
            k <= n,
            lo + n <= mem.len(),
            mem.len() == start.len(),
            forall|j: int| 0 <= j < start.len() && !(lo + k <= j < lo + n) ==> #[trigger] mem@[j] == start[j],
            be_bytes(value as nat, n as nat) == be_bytes(x as nat, k as nat) + mem@.subrange(
                lo + k,
                lo + n,
            ),
        decreases k,
    {
        let ghost before = mem@;
        let ghost xb = x;
        mem.set(lo + k - 1, (x % 256) as u8);
        x = x / 256;
        k = k - 1;
        proof {
            assert(be_bytes(xb as nat, (k + 1) as nat) =~= be_bytes(x as nat, k as nat) + seq![(xb as nat
                % 256) as u8]);
            assert(mem@.subrange(lo + k, lo + n) =~= seq![(xb as nat % 256) as u8]
                + before.subrange(lo + k + 1, lo + n));
            assert(be_bytes(value as nat, n as nat) =~= be_bytes(x as nat, k as nat) + mem@.subrange(
                lo + k,
                lo + n,
            ));
        }
    }
    proof {
        assert(mem@ =~= start.subrange(0, lo as int) + be_bytes(value as nat, n as nat)
            + start.subrange(lo + n, start.len() as int));
    }
}


// ---------------------------------------------------------------------------
// Execution
// ---------------------------------------------------------------------------

/// Why a program stopped.
#[derive(Debug, Clone, Copy, PartialEq, Eq)]
pub enum ExecError {
    /// An operation kind the executor does not model yet (call/jmp/gap...).
    Unsupported(&'static str),
    /// A memory access failed.
    Memory(MemError),
}

/// Model of an [`ExecError`].
pub enum ExecErrorModel {
    Unsupported(Seq<char>),
    Memory(MemError),
}

impl View for ExecError {
    type V = ExecErrorModel;

    open spec fn view(&self) -> ExecErrorModel {
        match self {
            ExecError::Unsupported(k) => ExecErrorModel::Unsupported(k@),
            ExecError::Memory(e) => ExecErrorModel::Memory(*e),
        }
    }
}

/// Model of an optional execution error.
pub open spec fn opt_err(e: Option<ExecError>) -> Option<ExecErrorModel> {
    match e {
        Some(x) => Some(x@),
        None => None,
    }
}

/// Register width of the ISA (Alpha 64-bit, the others 32-bit).
pub open spec fn isa_bits(isa: TargetIsa) -> u8 {
    match isa {
        TargetIsa::Alpha => 64,
        _ => 32,
    }
}

/// Register width the ISA operates on.
pub fn word_bits(isa: TargetIsa) -> (w: u8)
    ensures
        w == isa_bits(isa),
{
    match isa {
        TargetIsa::Alpha => 64,
        _ => 32,
    }
}

/// Byte order of the ISA's memory: the catalog's, little-endian without an entry.
pub open spec fn isa_endian(isa: TargetIsa) -> Endianness {
    match isa.catalog_endianness() {
        Some(e) => e,
        None => Endianness::Little,
    }
}

/// Byte order of the ISA's memory.
pub fn endianness(isa: TargetIsa) -> (e: Endianness)
    ensures
        e == isa_endian(isa),
{
    match isa.catalog_byte_order() {
        Some(e) => e,
        None => Endianness::Little,
    }
}

/// All ones in the `width` low bits.
pub open spec fn mask_of(width: u8) -> u64 {
    if width == 64 {
        u64::MAX
    } else {
        ((1u64 << width) - 1) as u64
    }
}

proof fn lemma_shift_pos(width: u8)
    by (bit_vector)
    requires
        width < 64,
    ensures
        1u64 << width >= 1,
        width == 32 ==> (1u64 << width) - 1 == 0xFFFF_FFFFu64,
{
}

/// All ones in the `width` low bits (`width` at most 64).
pub fn mask(width: u8) -> (m: u64)
    requires
        width <= 64,
    ensures
        m == mask_of(width),
{
    if width == 64 {
        u64::MAX
    } else {
        proof {
            lemma_shift_pos(width);
        }
        (1u64 << width) - 1
    }
}

/// The executor's name for an operation kind it does not model.
pub open spec fn kind_name(op: OpModel) -> Seq<char> {
    match op {
        OpModel::CallRel { .. } => "call"@,
        OpModel::JmpRel { .. } => "jmp"@,
        OpModel::LdMem { .. } => "ldmem"@,
        OpModel::StMem { .. } => "stmem"@,
        _ => "gap"@,
    }
}

/// The effect of one operation at `width` / `endian`.
pub open spec fn exec_op(op: OpModel, s: StateModel, width: u8, endian: Endianness) -> Result<
    StateModel,
    ExecErrorModel,
> {
    let m = mask_of(width);
    match op {
        OpModel::Nop => Ok(s),
        OpModel::Ret => Ok(StateModel { pc: reg(s, LINK), ..s }),
        OpModel::MovImm { dst, imm } => Ok(set_reg(s, dst, (imm as u64) & m)),
        OpModel::AddImm { dst, imm } => Ok(
            set_reg(s, dst, vstd::wrapping::u64_specs::wrapping_add(reg(s, dst), imm as u64) & m),
        ),
        OpModel::SubImm { dst, imm } => Ok(
            set_reg(s, dst, vstd::wrapping::u64_specs::wrapping_sub(reg(s, dst), imm as u64) & m),
        ),
        OpModel::Clear { dst } => Ok(set_reg(s, dst, 0)),
        OpModel::Inc { dst } => Ok(
            set_reg(s, dst, vstd::wrapping::u64_specs::wrapping_add(reg(s, dst), 1) & m),
        ),
        OpModel::Dec { dst } => Ok(
            set_reg(s, dst, vstd::wrapping::u64_specs::wrapping_sub(reg(s, dst), 1) & m),
        ),
        OpModel::Push { src } => {
            let addr = vstd::wrapping::u64_specs::wrapping_sub(reg(s, SP), 4);
            match store_spec(s.mem, addr, 4, endian, reg(s, src)) {
                Ok(mem) => Ok(set_reg(StateModel { mem, ..s }, SP, addr)),
                Err(e) => Err(ExecErrorModel::Memory(e)),
            }
        },
        OpModel::Pop { dst } => {
            let addr = reg(s, SP);
            match load_spec(s.mem, addr, 4, endian) {
                Ok(v) => Ok(
                    set_reg(set_reg(s, dst, v), SP, vstd::wrapping::u64_specs::wrapping_add(addr, 4)),
                ),
                Err(e) => Err(ExecErrorModel::Memory(e)),
            }
        },
        _ => Err(ExecErrorModel::Unsupported(kind_name(op))),
    }
}

/// The state after running `ops` from `s`, and the error that stopped them.
pub open spec fn run(ops: Seq<OpModel>, s: StateModel, width: u8, endian: Endianness) -> (
    StateModel,
    Option<ExecErrorModel>,
)
    decreases ops.len(),
{
    if ops.len() == 0 {
        (s, None)
    } else {
        match exec_op(ops[0], s, width, endian) {
            Ok(s2) => run(ops.drop_first(), s2, width, endian),
            Err(e) => (s, Some(e)),
        }
    }
}

proof fn lemma_exec_op_regs(op: OpModel, s: StateModel, width: u8, endian: Endianness)
    requires
        s.gpr.len() == 32,
    ensures
        exec_op(op, s, width, endian) matches Ok(s2) ==> s2.gpr.len() == 32,
{
    match op {
        OpModel::Push { src } => {
            let addr = vstd::wrapping::u64_specs::wrapping_sub(reg(s, SP), 4);
            if store_spec(s.mem, addr, 4, endian, reg(s, src)) is Ok {
            }
        },
        _ => {},
    }
}

fn exec_one(op: &Op, st: &mut MachineState, m: u64, width: u8, endian: Endianness) -> (r: Result<
    (),
    ExecError,
>)
    requires
        old(st).gpr.len() == 32,
        m == mask_of(width),
    ensures
        match exec_op(op@, old(st)@, width, endian) {
            Ok(s2) => r is Ok && final(st)@ == s2,
            Err(e) => r matches Err(x) && x@ == e && final(st)@ == old(st)@,
        },
{
    match op {
        Op::Nop => Ok(()),
        Op::Ret => {
            st.pc = st.gpr(LINK);
            Ok(())
        },
        Op::MovImm { dst, imm } => {
            st.gpr.set((dst.0 % 32) as usize, (*imm as u64) & m);
            Ok(())
        },
        Op::AddImm { dst, imm } => {
            let i = (dst.0 % 32) as usize;
            let v = st.gpr[i].wrapping_add(*imm as u64) & m;
            st.gpr.set(i, v);
            Ok(())
        },
        Op::SubImm { dst, imm } => {
            let i = (dst.0 % 32) as usize;
            let v = st.gpr[i].wrapping_sub(*imm as u64) & m;
            st.gpr.set(i, v);
            Ok(())
        },
        Op::Clear { dst } => {
            st.gpr.set((dst.0 % 32) as usize, 0);
            Ok(())
        },
        Op::Inc { dst } => {
            let i = (dst.0 % 32) as usize;
            let v = st.gpr[i].wrapping_add(1) & m;
            st.gpr.set(i, v);
            Ok(())
        },
        Op::Dec { dst } => {
            let i = (dst.0 % 32) as usize;
            let v = st.gpr[i].wrapping_sub(1) & m;
            st.gpr.set(i, v);
            Ok(())
        },
        Op::Push { src } => {
            let addr = st.gpr(SP).wrapping_sub(4);
            let value = st.gpr(src.0);
            match st.store(addr, 4, endian, value) {
                Ok(()) => {},
                Err(e) => {
                    return Err(ExecError::Memory(e));
                },
            }
            st.gpr.set(SP as usize, addr);
            Ok(())
        },
        Op::Pop { dst } => {
            let addr = st.gpr(SP);
            let value = match st.load(addr, 4, endian) {
                Ok(v) => v,
                Err(e) => {
                    return Err(ExecError::Memory(e));
                },
            };
            st.gpr.set((dst.0 % 32) as usize, value);
            st.gpr.set(SP as usize, addr.wrapping_add(4));
            Ok(())
        },
        _ => Err(ExecError::Unsupported(op_kind(op))),
    }
}

/// The executor's name for an operation kind it does not model.
fn op_kind(op: &Op) -> (k: &'static str)
    ensures
        k@ == kind_name(op@),
{
    match op {
        Op::CallRel { .. } => "call",
        Op::JmpRel { .. } => "jmp",
        Op::LdMem { .. } => "ldmem",
        Op::StMem { .. } => "stmem",
        _ => "gap",
    }
}

/// Executes `ops` with reference SIR semantics at `width` / `endian`. Stops
/// with an error at the first operation the executor does not model or whose
/// memory access fails; the state keeps the effects of the operations before.
pub fn execute(ops: &[Op], st: &mut MachineState, width: u8, endian: Endianness) -> (r: Result<
    (),
    ExecError,
>)
    requires
        width <= 64,
        old(st).gpr.len() == 32,
    ensures
        final(st)@ == run(ops_model(ops@), old(st)@, width, endian).0,
        match r {
            Ok(()) => run(ops_model(ops@), old(st)@, width, endian).1 is None,
            Err(e) => run(ops_model(ops@), old(st)@, width, endian).1 == Some(e@),
        },
{
    let m = mask(width);
    let ghost all = ops_model(ops@);
    let mut i: usize = 0;
    assert(all.subrange(0, all.len() as int) =~= all);
    while i < ops.len()
        invariant
            i <= ops@.len(),
            all == ops_model(ops@),
            m == mask_of(width),
            st.gpr.len() == 32,
            run(all, old(st)@, width, endian) == run(all.subrange(i as int, all.len() as int), st@, width, endian),
        decreases ops@.len() - i,
    {
        let ghost rest = all.subrange(i as int, all.len() as int);
        proof {
            assert(rest[0] == ops@[i as int]@);
            assert(rest.drop_first() =~= all.subrange(i + 1, all.len() as int));
            lemma_exec_op_regs(rest[0], st@, width, endian);
        }
        let r = exec_one(&ops[i], st, m, width, endian);
        if r.is_err() {
            return r;
        }
        i = i + 1;
    }
    proof {
        assert(all.subrange(i as int, all.len() as int).len() == 0);
    }
    Ok(())
}

/// Executes `ops` with the target ISA's semantics: reference semantics at the
/// ISA's word width and byte order, so exactly what [`execute`] does with
/// `word_bits(isa)` and `endianness(isa)`.
pub fn execute_isa(ops: &[Op], st: &mut MachineState, isa: TargetIsa) -> (r: Result<(), ExecError>)
    requires
        old(st).gpr.len() == 32,
    ensures
        final(st)@ == run(ops_model(ops@), old(st)@, isa_bits(isa), isa_endian(isa)).0,
        match r {
            Ok(()) => run(ops_model(ops@), old(st)@, isa_bits(isa), isa_endian(isa)).1 is None,
            Err(e) => run(ops_model(ops@), old(st)@, isa_bits(isa), isa_endian(isa)).1 == Some(e@),
        },
{
    execute(ops, st, word_bits(isa), endianness(isa))
}


// ---------------------------------------------------------------------------
// Behaviour of the round trip
// ---------------------------------------------------------------------------

proof fn lemma_mask_facts(a: u64, m: u64)
    by (bit_vector)
    ensures
        a & 0xFFFF_FFFFu64 == a % 0x1_0000_0000,
        0u64 & m == 0,
        a & m <= a,
{
}

proof fn lemma_i32_view(imm: u32)
    by (bit_vector)
    ensures
        imm >= 0x8000_0000u32 <==> (imm as i32) < 0i32,
        imm >= 0x8000_0000u32 ==> ((imm as i32) as i64) + 0x1_0000_0000i64 == imm as i64,
        imm < 0x8000_0000u32 ==> ((imm as i32) as i64) == imm as i64,
{
}

proof fn lemma_mod32_wrap_sub(x: u64, y: u64)
    ensures
        vstd::wrapping::u64_specs::wrapping_sub(x, y) % 0x1_0000_0000 == (x - y) % 0x1_0000_0000,
{
    if x < y {
        assert((x - y + 0x1_0000_0000_0000_0000) % 0x1_0000_0000 == (x - y) % 0x1_0000_0000) by {
            vstd::arithmetic::div_mod::lemma_mod_add_multiples_vanish(
                (x - y) as int,
                0x1_0000_0000,
            );
            assert(0x1_0000_0000_0000_0000int == 0x1_0000_0000 * 0x1_0000_0000);
            vstd::arithmetic::div_mod::lemma_mod_multiples_vanish(
                0x1_0000_0000,
                (x - y) as int,
                0x1_0000_0000,
            );
        }
    }
}

proof fn lemma_mod32_wrap_add(x: u64, y: u64)
    ensures
        vstd::wrapping::u64_specs::wrapping_add(x, y) % 0x1_0000_0000 == (x + y) % 0x1_0000_0000,
{
    if x + y > u64::MAX {
        assert((x + y - 0x1_0000_0000_0000_0000) % 0x1_0000_0000 == (x + y) % 0x1_0000_0000) by {
            assert(0x1_0000_0000_0000_0000int == 0x1_0000_0000 * 0x1_0000_0000);
            vstd::arithmetic::div_mod::lemma_mod_multiples_vanish(
                -0x1_0000_0000,
                (x + y) as int,
                0x1_0000_0000,
            );
        }
    }
}

/// On a 32-bit target, the decoded form of a faithful operation has the same
/// effect as the operation.
proof fn lemma_decoded_op_alike(op: OpModel, isa: TargetIsa, s: StateModel, endian: Endianness)
    requires
        faithful(op, isa),
        s.gpr.len() == 32,
    ensures
        exec_op(decoded_form(op, isa), s, 32, endian) == exec_op(op, s, 32, endian),
{
    let m = mask_of(32);
    lemma_shift_pos(32);
    match op {
        OpModel::AddImm { imm, .. } | OpModel::SubImm { imm, .. } => lemma_i32_view(imm),
        _ => {},
    }
    assert(m == 0xFFFF_FFFFu64);
    match op {
        OpModel::Clear { dst } => {
            lemma_mask_facts(0, m);
        },
        OpModel::AddImm { dst, imm } => {
            let x = reg(s, dst);
            let d = decoded_form(op, isa);
            if d != op {
                let v = (imm as i32) as int;
                assert(d == arith(dst, v));
                lemma_mod32_wrap_add(x, imm as u64);
                lemma_mask_facts(vstd::wrapping::u64_specs::wrapping_add(x, imm as u64), m);
                if v == 1 {
                    lemma_mask_facts(vstd::wrapping::u64_specs::wrapping_add(x, 1), m);
                } else if v < 0 {
                    let w = if v == -1 { 1u64 } else { (-v) as u64 };
                    lemma_mod32_wrap_sub(x, w);
                    lemma_mask_facts(vstd::wrapping::u64_specs::wrapping_sub(x, w), m);
                    assert(imm == v + 0x1_0000_0000);
                    assert((x - w) % 0x1_0000_0000 == (x + imm) % 0x1_0000_0000) by {
                        vstd::arithmetic::div_mod::lemma_mod_add_multiples_vanish(
                            (x - w) as int,
                            0x1_0000_0000,
                        );
                    }
                }
            }
        },
        OpModel::SubImm { dst, imm } => {
            let x = reg(s, dst);
            let d = decoded_form(op, isa);
            if d != op {
                let v = -((imm as i32) as int);
                assert(d == arith(dst, v));
                lemma_mod32_wrap_sub(x, imm as u64);
                lemma_mask_facts(vstd::wrapping::u64_specs::wrapping_sub(x, imm as u64), m);
                if v == 1 {
                    assert(imm == 0xFFFF_FFFF);
                    lemma_mask_facts(vstd::wrapping::u64_specs::wrapping_add(x, 1), m);
                    assert((x + 1) % 0x1_0000_0000 == (x - imm) % 0x1_0000_0000) by {
                        vstd::arithmetic::div_mod::lemma_mod_add_multiples_vanish(
                            (x - imm) as int,
                            0x1_0000_0000,
                        );
                    }
                } else if v >= 0 {
                    lemma_mod32_wrap_add(x, (v as u32) as u64);
                    lemma_mask_facts(vstd::wrapping::u64_specs::wrapping_add(x, (v as u32) as u64), m);
                    if v > 0 {
                        assert(imm == 0x1_0000_0000 - v);
                        assert((x + v) % 0x1_0000_0000 == (x - imm) % 0x1_0000_0000) by {
                            vstd::arithmetic::div_mod::lemma_mod_add_multiples_vanish(
                                (x - imm) as int,
                                0x1_0000_0000,
                            );
                        }
                    }
                }
            }
        },
        _ => {},
    }
}


/// Behavioural round trip: on a target with 32-bit registers, running the
/// decoded form of a faithfully encoded program leaves the same state, and
/// stops with the same error, as running the program itself.
pub proof fn lemma_roundtrip_behaves_alike(ops: Seq<OpModel>, isa: TargetIsa, s: StateModel)
    requires
        isa_bits(isa) == 32,
        all_faithful(ops, isa),
        s.gpr.len() == 32,
    ensures
        run(decoded_ops(ops, isa), s, 32, isa_endian(isa)) == run(ops, s, 32, isa_endian(isa)),
    decreases ops.len(),
{
    let e = isa_endian(isa);
    if ops.len() > 0 {
        let d = decoded_ops(ops, isa);
        assert(d[0] == decoded_form(ops[0], isa));
        assert(faithful(ops[0], isa));
        lemma_decoded_op_alike(ops[0], isa, s, e);
        match exec_op(ops[0], s, 32, e) {
            Ok(s2) => {
                let tail = ops.drop_first();
                assert forall|i: int| 0 <= i < tail.len() implies #[trigger] faithful(tail[i], isa) by {
                    assert(tail[i] == ops[i + 1]);
                }
                lemma_exec_op_regs(ops[0], s, 32, e);
                assert(d.drop_first() =~= decoded_ops(tail, isa));
                lemma_roundtrip_behaves_alike(tail, isa, s2);
            },
            Err(_) => {},
        }
    }
}

// ---------------------------------------------------------------------------
// Differential execution
// ---------------------------------------------------------------------------

/// Result of running one program under reference and target semantics.
#[derive(Debug, Clone)]
pub struct DifferentialReport {
    pub target: TargetIsa,
    pub reference: MachineState,
    pub isa: MachineState,
    /// Set when either side cannot execute the program (a gap, not a pass).
    pub exec_error: Option<ExecError>,
    /// Set when encoding or decoding failed before execution.
    pub note: String,
}

impl DifferentialReport {
    /// Both sides executed and left the same architectural state.
    pub open spec fn matched_spec(&self) -> bool {
        &&& self.exec_error is None
        &&& self.note@.len() == 0
        &&& self.reference@ == self.isa@
    }

    /// Both sides executed and left the same architectural state.
    pub fn matched(&self) -> (r: bool)
        ensures
            r == self.matched_spec(),
    {
        self.exec_error.is_none() && self.note.as_str().unicode_len() == 0
            && self.reference.same_state(&self.isa)
    }
}

/// The first error of two, as `Option::or` picks it.
pub open spec fn first_err(a: Option<ExecErrorModel>, b: Option<ExecErrorModel>) -> Option<
    ExecErrorModel,
> {
    match a {
        Some(x) => Some(x),
        None => b,
    }
}

/// The outcome of a differential run: both final states, the first error and
/// the note on why the round trip could not run.
pub struct DiffModel {
    pub reference: StateModel,
    pub isa: StateModel,
    pub err: Option<ExecErrorModel>,
    pub note: Seq<char>,
}

/// The outcome of running `ops` on `isa` from state `s`, both ways.
pub open spec fn diff_model(ops: Seq<OpModel>, isa: TargetIsa, s: StateModel) -> DiffModel {
    let w = isa_bits(isa);
    let e = isa_endian(isa);
    let reference = run(ops, s, w, e);
    match enc_ops(ops, isa) {
        Err(ee) => DiffModel {
            reference: reference.0,
            isa: s,
            err: reference.1,
            note: "encode: "@ + crate::encode::encode_error_text(ee),
        },
        Ok(b) => match decode_spec(b, isa) {
            Err(de) => DiffModel {
                reference: reference.0,
                isa: s,
                err: reference.1,
                note: "decode: "@ + decode_error_text(de),
            },
            Ok(d) => DiffModel {
                reference: reference.0,
                isa: run(d, s, w, e).0,
                err: first_err(reference.1, run(d, s, w, e).1),
                note: Seq::empty(),
            },
        },
    }
}

/// Both sides ran without error and left the same state.
pub open spec fn diff_matches(d: DiffModel) -> bool {
    d.err is None && d.note.len() == 0 && d.reference == d.isa
}

/// What [`differential_ops`] reports for `ops` on `isa` from state `s`.
pub open spec fn differential_spec(r: DifferentialReport, ops: Seq<OpModel>, isa: TargetIsa, s: StateModel) -> bool {
    let d = diff_model(ops, isa, s);
    &&& r.target == isa
    &&& r.reference@ == d.reference
    &&& r.isa@ == d.isa
    &&& opt_err(r.exec_error) == d.err
    &&& r.note@ == d.note
}

/// A module holding `ops` as the entry block of its only function.
pub(crate) fn module_from(ops: Vec<Op>, name: &str, label: &str) -> (m: Module)
    ensures
        m.functions.len() == 1,
        m.functions@[0].blocks.len() == 1,
        m.functions@[0].blocks@[0].ops@ == ops@,
        m.name@ == name@,
        m.functions@[0].name@ == name@,
        m.functions@[0].blocks@[0].label@ == label@,
        m.source_isa@ == "sir"@,
        m.lift_gaps == 0,
        m.source is None,
        m.text_vma is None,
{
    let mut sir = String::new();
    sir.append("sir");
    let mut label_s = String::new();
    label_s.append(label);
    let mut fname = String::new();
    fname.append(name);
    let mut mname = String::new();
    mname.append(name);
    let block = BasicBlock { label: label_s, ops };
    let mut blocks: Vec<BasicBlock> = Vec::new();
    blocks.push(block);
    let mut functions: Vec<Function> = Vec::new();
    functions.push(Function { name: fname, blocks });
    Module {
        name: mname,
        source_isa: sir,
        functions,
        lift_gaps: 0,
        source: None,
        text_vma: None,
    }
}

/// Runs `ops` under reference semantics and under the target ISA's semantics
/// after encode→decode, from the same initial `state`.
pub fn differential_ops(ops: Vec<Op>, isa: TargetIsa, state: &MachineState) -> (r: DifferentialReport)
    requires
        state.gpr.len() == 32,
    ensures
        differential_spec(r, ops_model(ops@), isa, state@),
        isa_bits(isa) == 32 && decodable(isa) && all_faithful(ops_model(ops@), isa) && run(
            ops_model(ops@),
            state@,
            32,
            isa_endian(isa),
        ).1 is None ==> r.matched_spec(),
{
    let width = word_bits(isa);
    let endian = endianness(isa);
    let mut reference = state.duplicate();
    let reference_err = execute(ops.as_slice(), &mut reference, width, endian).err();
    let ghost m = ops_model(ops@);
    proof {
        if isa_bits(isa) == 32 && decodable(isa) && all_faithful(m, isa) {
            lemma_codec_roundtrip(m, isa);
            lemma_roundtrip_behaves_alike(m, isa, state@);
        }
    }
    let copy = duplicate_ops(&ops);
    let module = module_from(copy, "diff", "v0");
    proof {
        assert(entry_ops(module) == m);
    }
    let bytes = match encode_module(&module, isa) {
        Ok(b) => b,
        Err(e) => {
            let mut note = String::new();
            note.append("encode: ");
            let msg = e.message();
            note.append(msg.as_str());
            return DifferentialReport {
                target: isa,
                reference,
                isa: state.duplicate(),
                exec_error: reference_err,
                note,
            };
        },
    };
    let decoded = match decode_ops(bytes.as_slice(), isa) {
        Ok(o) => o,
        Err(e) => {
            let mut note = String::new();
            note.append("decode: ");
            let msg = e.message();
            note.append(msg.as_str());
            return DifferentialReport {
                target: isa,
                reference,
                isa: state.duplicate(),
                exec_error: reference_err,
                note,
            };
        },
    };
    let mut isa_state = state.duplicate();
    let isa_err = execute_isa(decoded.as_slice(), &mut isa_state, isa).err();
    let exec_error = match reference_err {
        Some(e) => Some(e),
        None => isa_err,
    };
    let note = String::new();
    assert(note@ =~= Seq::<char>::empty());
    DifferentialReport { target: isa, reference, isa: isa_state, exec_error, note }
}


// ---------------------------------------------------------------------------
// The generated sweep
// ---------------------------------------------------------------------------

/// Immediates swept by [`differential_sweep`]: boundaries and negatives.
pub const IMM_CASES: [u32; 10] = [
    0,
    1,
    0x7F,
    0x80,
    0x7FFF,
    0x8000,
    0x7FFF_FFFF,
    0x8000_0000,
    0xFFFF_FFFE,
    0xFFFF_FFFF,
];

/// Initial values of register 0 swept (high bits and boundaries stress the
/// word width).
pub const STATE_CASES: [u64; 4] = [0, 1, 0x7FFF_FFFF, 0xFFFF_FFFF];

/// The swept immediates.
pub open spec fn imm_cases() -> Seq<u32> {
    seq![0u32, 1, 0x7F, 0x80, 0x7FFF, 0x8000, 0x7FFF_FFFF, 0x8000_0000, 0xFFFF_FFFE, 0xFFFF_FFFF]
}

/// The swept initial values of register 0.
pub open spec fn state_cases() -> Seq<u64> {
    seq![0u64, 1, 0x7FFF_FFFF, 0xFFFF_FFFF]
}

/// A program label: the kind, a colon and the immediate in `0x` hexadecimal.
pub open spec fn labeled(kind: Seq<char>, imm: u32) -> Seq<char> {
    kind + ":"@ + hex_alt(imm as nat, 0)
}

/// The six programs of one immediate.
pub open spec fn imm_programs(imm: u32) -> Seq<(Seq<char>, Seq<OpModel>)> {
    seq![
        (labeled("mov_imm"@, imm), seq![OpModel::MovImm { dst: 0, imm }, OpModel::Ret]),
        (
            labeled("add_imm"@, imm),
            seq![OpModel::MovImm { dst: 0, imm: 0 }, OpModel::AddImm { dst: 0, imm }, OpModel::Ret],
        ),
        (
            labeled("sub_imm"@, imm),
            seq![OpModel::MovImm { dst: 0, imm: 0 }, OpModel::SubImm { dst: 0, imm }, OpModel::Ret],
        ),
        (
            labeled("inc_from"@, imm),
            seq![OpModel::MovImm { dst: 0, imm }, OpModel::Inc { dst: 0 }, OpModel::Ret],
        ),
        (
            labeled("dec_from"@, imm),
            seq![OpModel::MovImm { dst: 0, imm }, OpModel::Dec { dst: 0 }, OpModel::Ret],
        ),
        (
            labeled("clear_from"@, imm),
            seq![OpModel::MovImm { dst: 0, imm }, OpModel::Clear { dst: 0 }, OpModel::Ret],
        ),
    ]
}

/// The programs of the immediates `cases`, in order.
pub open spec fn imm_block(cases: Seq<u32>) -> Seq<(Seq<char>, Seq<OpModel>)>
    decreases cases.len(),
{
    if cases.len() == 0 {
        Seq::empty()
    } else {
        imm_block(cases.drop_last()) + imm_programs(cases.last())
    }
}

/// The programs [`sweep_programs`] generates: nop, ret, each kind for each
/// immediate, push and pop.
pub open spec fn sweep_list() -> Seq<(Seq<char>, Seq<OpModel>)> {
    seq![("nop"@, seq![OpModel::Nop, OpModel::Ret]), ("ret"@, seq![OpModel::Ret])] + imm_block(
        imm_cases(),
    ) + seq![
        ("push"@, seq![OpModel::Push { src: 0 }, OpModel::Ret]),
        ("pop"@, seq![OpModel::Pop { dst: 0 }, OpModel::Ret]),
    ]
}

fn named(kind: &str) -> (s: String)
    ensures
        s@ == kind@,
{
    let mut s = String::new();
    s.append(kind);
    s
}

fn label_imm(kind: &str, imm: u32) -> (s: String)
    ensures
        s@ == labeled(kind@, imm),
{
    let mut s = String::new();
    s.append(kind);
    s.append(":");
    push_hex_alt(&mut s, imm as u64, 0);
    s
}

fn push_program(out: &mut Vec<(String, Vec<Op>)>, label: String, ops: Vec<Op>)
    ensures
        programs_model(final(out)@) == programs_model(old(out)@).push((label@, ops_model(ops@))),
{
    out.push((label, ops));
    assert(programs_model(out@) =~= programs_model(old(out)@).push((label@, ops_model(ops@))));
}

fn prog2(a: Op, b: Op) -> (v: Vec<Op>)
    ensures
        ops_model(v@) == seq![a@, b@],
{
    let v = vec![a, b];
    assert(ops_model(v@) =~= seq![a@, b@]);
    v
}

fn prog3(a: Op, b: Op, c: Op) -> (v: Vec<Op>)
    ensures
        ops_model(v@) == seq![a@, b@, c@],
{
    let v = vec![a, b, c];
    assert(ops_model(v@) =~= seq![a@, b@, c@]);
    v
}

/// The models of generated programs.
pub open spec fn programs_model(v: Seq<(String, Vec<Op>)>) -> Seq<(Seq<char>, Seq<OpModel>)> {
    Seq::new(v.len(), |i: int| (v[i].0@, ops_model(v[i].1@)))
}

fn push_imm_programs(out: &mut Vec<(String, Vec<Op>)>, imm: u32)
    ensures
        programs_model(final(out)@) == programs_model(old(out)@) + imm_programs(imm),
{
    let v0 = VReg(0);
    let ghost p0 = programs_model(out@);
    push_program(out, label_imm("mov_imm", imm), prog2(Op::MovImm { dst: v0, imm }, Op::Ret));
    let ghost p1 = programs_model(out@);
    push_program(
        out,
        label_imm("add_imm", imm),
        prog3(Op::MovImm { dst: v0, imm: 0 }, Op::AddImm { dst: v0, imm }, Op::Ret),
    );
    let ghost p2 = programs_model(out@);
    push_program(
        out,
        label_imm("sub_imm", imm),
        prog3(Op::MovImm { dst: v0, imm: 0 }, Op::SubImm { dst: v0, imm }, Op::Ret),
    );
    let ghost p3 = programs_model(out@);
    push_program(
        out,
        label_imm("inc_from", imm),
        prog3(Op::MovImm { dst: v0, imm }, Op::Inc { dst: v0 }, Op::Ret),
    );
    let ghost p4 = programs_model(out@);
    push_program(
        out,
        label_imm("dec_from", imm),
        prog3(Op::MovImm { dst: v0, imm }, Op::Dec { dst: v0 }, Op::Ret),
    );
    let ghost p5 = programs_model(out@);
    push_program(
        out,
        label_imm("clear_from", imm),
        prog3(Op::MovImm { dst: v0, imm }, Op::Clear { dst: v0 }, Op::Ret),
    );
    proof {
        let q = imm_programs(imm);
        assert(p1 == p0.push(q[0]));
        assert(p2 == p1.push(q[1]));
        assert(p3 == p2.push(q[2]));
        assert(p4 == p3.push(q[3]));
        assert(p5 == p4.push(q[4]));
        assert(programs_model(out@) == p5.push(q[5]));
        assert(programs_model(out@) =~= p0 + q);
    }
}

/// Generated differential programs: each op kind with each immediate.
pub fn sweep_programs() -> (out: Vec<(String, Vec<Op>)>)
    ensures
        programs_model(out@) == sweep_list(),
{
    let v0 = VReg(0);
    let mut out: Vec<(String, Vec<Op>)> = Vec::new();
    push_program(&mut out, named("nop"), prog2(Op::Nop, Op::Ret));
    let ret_only = vec![Op::Ret];
    assert(ops_model(ret_only@) =~= seq![OpModel::Ret]);
    push_program(&mut out, named("ret"), ret_only);
    proof {
        assert(programs_model(out@) =~~= seq![("nop"@, seq![OpModel::Nop, OpModel::Ret]), ("ret"@, seq![OpModel::Ret])] + imm_block(imm_cases().subrange(0, 0)));
    }
    let mut k: usize = 0;
    while k < 10
        invariant
            k <= 10,
            programs_model(out@) == seq![("nop"@, seq![OpModel::Nop, OpModel::Ret]), ("ret"@, seq![OpModel::Ret])] + imm_block(imm_cases().subrange(0, k as int)),
        decreases 10 - k,
    {
        let imm = IMM_CASES[k];
        assert(imm == imm_cases()[k as int]);
        push_imm_programs(&mut out, imm);
        proof {
            let cases = imm_cases().subrange(0, k as int + 1);
            assert(cases.drop_last() =~= imm_cases().subrange(0, k as int));
            assert(cases.last() == imm);
        }
        k = k + 1;
    }
    push_program(&mut out, named("push"), prog2(Op::Push { src: v0 }, Op::Ret));
    push_program(&mut out, named("pop"), prog2(Op::Pop { dst: v0 }, Op::Ret));
    proof {
        assert(imm_cases().subrange(0, 10) =~= imm_cases());
        assert(programs_model(out@) =~~= sweep_list());
    }
    out
}


/// The sweep's initial state for register-0 value `v`.
pub open spec fn sweep_state(v: u64) -> StateModel {
    set_reg(set_reg(set_reg(initial_state(), 0, v), SP, 0x8000), LINK, 0x8000)
}

/// Sweep states: each initial value of register 0, with the stack pointer and
/// the link register inside the modeled memory.
pub fn sweep_states() -> (v: Vec<MachineState>)
    ensures
        v@.len() == 4,
        forall|i: int| 0 <= i < 4 ==> (#[trigger] v@[i])@ == sweep_state(state_cases()[i]),
        forall|i: int| 0 <= i < 4 ==> (#[trigger] v@[i]).gpr.len() == 32,
{
    let mut v: Vec<MachineState> = Vec::new();
    let mut k: usize = 0;
    while k < 4
        invariant
            k <= 4,
            v@.len() == k,
            forall|i: int| 0 <= i < k ==> (#[trigger] v@[i])@ == sweep_state(state_cases()[i]),
            forall|i: int| 0 <= i < k ==> (#[trigger] v@[i]).gpr.len() == 32,
        decreases 4 - k,
    {
        let value = STATE_CASES[k];
        assert(value == state_cases()[k as int]);
        let st = MachineState::new().with_gpr(0, value).with_gpr(SP, 0x8000).with_gpr(LINK, 0x8000);
        v.push(st);
        k = k + 1;
    }
    v
}

/// Counts of a generated sweep.
#[derive(Debug, Clone)]
pub struct SweepReport {
    pub target: TargetIsa,
    /// Programs that encoded, decoded and executed on both sides.
    pub applicable: usize,
    /// Applicable programs where both sides left the same state.
    pub matched: usize,
    /// Behavioural mismatches: `(program, reference state, isa state)`.
    pub mismatches: Vec<(String, MachineState, MachineState)>,
}

impl SweepReport {
    /// No mismatch and every applicable program matched.
    pub fn all_match(&self) -> (r: bool)
        ensures
            r == (self.mismatches@.len() == 0 && self.applicable == self.matched),
    {
        self.mismatches.len() == 0 && self.applicable == self.matched
    }
}

/// One differential run of the sweep: label, program and initial state.
pub type SweepItem = (Seq<char>, Seq<OpModel>, StateModel);

/// The runs of one program over the states.
pub open spec fn sweep_row(label: Seq<char>, ops: Seq<OpModel>, states: Seq<StateModel>) -> Seq<
    SweepItem,
> {
    Seq::new(states.len(), |k: int| (label, ops, states[k]))
}

/// All runs: programs in order, each over all states.
pub open spec fn sweep_items(progs: Seq<(Seq<char>, Seq<OpModel>)>, states: Seq<StateModel>) -> Seq<
    SweepItem,
>
    decreases progs.len(),
{
    if progs.len() == 0 {
        Seq::empty()
    } else {
        sweep_items(progs.drop_last(), states) + sweep_row(progs.last().0, progs.last().1, states)
    }
}

/// Counts and mismatches of a sweep.
pub struct SweepModel {
    pub applicable: nat,
    pub matched: nat,
    pub mismatches: Seq<(Seq<char>, StateModel, StateModel)>,
}

/// The counts over `items` on `isa`: runs with an error or a note are not
/// applicable; an applicable run matches or is a mismatch.
pub open spec fn sweep_fold(items: Seq<SweepItem>, isa: TargetIsa) -> SweepModel
    decreases items.len(),
{
    if items.len() == 0 {
        SweepModel { applicable: 0, matched: 0, mismatches: Seq::empty() }
    } else {
        let prev = sweep_fold(items.drop_last(), isa);
        let (label, ops, st) = items.last();
        let d = diff_model(ops, isa, st);
        if d.err is Some || d.note.len() > 0 {
            prev
        } else if d.reference == d.isa {
            SweepModel { applicable: prev.applicable + 1, matched: prev.matched + 1, ..prev }
        } else {
            SweepModel {
                applicable: prev.applicable + 1,
                mismatches: prev.mismatches.push((label, d.reference, d.isa)),
                ..prev
            }
        }
    }
}

/// The sweep's initial states.
pub open spec fn sweep_state_list() -> Seq<StateModel> {
    Seq::new(4, |k: int| sweep_state(state_cases()[k]))
}

/// Models of reported mismatches.
pub open spec fn mismatches_model(v: Seq<(String, MachineState, MachineState)>) -> Seq<
    (Seq<char>, StateModel, StateModel),
> {
    Seq::new(v.len(), |i: int| (v[i].0@, v[i].1@, v[i].2@))
}

proof fn lemma_fold_bound(items: Seq<SweepItem>, isa: TargetIsa)
    ensures
        sweep_fold(items, isa).matched <= sweep_fold(items, isa).applicable <= items.len(),
    decreases items.len(),
{
    if items.len() > 0 {
        lemma_fold_bound(items.drop_last(), isa);
    }
}

proof fn lemma_imm_block_len(cases: Seq<u32>)
    ensures
        imm_block(cases).len() == 6 * cases.len(),
    decreases cases.len(),
{
    if cases.len() > 0 {
        lemma_imm_block_len(cases.drop_last());
    }
}

/// Generated differential test: every program of [`sweep_programs`] from every
/// state of [`sweep_states`], reference against the ISA.
pub fn differential_sweep(target: TargetIsa) -> (r: SweepReport)
    ensures
        r.target == target,
        r.applicable == sweep_fold(sweep_items(sweep_list(), sweep_state_list()), target).applicable,
        r.matched == sweep_fold(sweep_items(sweep_list(), sweep_state_list()), target).matched,
        mismatches_model(r.mismatches@) == sweep_fold(
            sweep_items(sweep_list(), sweep_state_list()),
            target,
        ).mismatches,
{
    let states = sweep_states();
    let programs = sweep_programs();
    let ghost progs = sweep_list();
    let ghost sts = sweep_state_list();
    assert(sts =~= Seq::new(4, |k: int| states@[k]@));
    proof {
        lemma_imm_block_len(imm_cases());
        assert(progs.len() == 64);
    }
    let mut applicable: usize = 0;
    let mut matched: usize = 0;
    let mut mismatches: Vec<(String, MachineState, MachineState)> = Vec::new();
    let mut p: usize = 0;
    while p < programs.len()
        invariant
            programs_model(programs@) == progs,
            progs == sweep_list(),
            sts == sweep_state_list(),
            states@.len() == 4,
            forall|i: int| 0 <= i < 4 ==> (#[trigger] states@[i])@ == sts[i],
            forall|i: int| 0 <= i < 4 ==> (#[trigger] states@[i]).gpr.len() == 32,
            p <= programs@.len(),
            programs@.len() == 64,
            applicable == sweep_fold(sweep_items(progs.subrange(0, p as int), sts), target).applicable,
            matched == sweep_fold(sweep_items(progs.subrange(0, p as int), sts), target).matched,
            mismatches_model(mismatches@) == sweep_fold(sweep_items(progs.subrange(0, p as int), sts), target).mismatches,
            sweep_items(progs.subrange(0, p as int), sts).len() == 4 * p,
        decreases programs@.len() - p,
    {
        let label = &programs[p].0;
        let ops = &programs[p].1;
        let ghost done = sweep_items(progs.subrange(0, p as int), sts);
        let ghost row = sweep_row(progs[p as int].0, progs[p as int].1, sts);
        proof {
            assert(progs.subrange(0, p as int + 1).drop_last() =~= progs.subrange(0, p as int));
            assert(progs.subrange(0, p as int + 1).last() == progs[p as int]);
            assert(progs[p as int] == (label@, ops_model(ops@)));
        }
        let mut k: usize = 0;
        assert(done + row.subrange(0, 0) =~= done);
        while k < 4
            invariant
                k <= 4,
                states@.len() == 4,
                forall|i: int| 0 <= i < 4 ==> (#[trigger] states@[i])@ == sts[i],
                forall|i: int| 0 <= i < 4 ==> (#[trigger] states@[i]).gpr.len() == 32,
                row == sweep_row(label@, ops_model(ops@), sts),
                sts.len() == 4,
                done.len() == 4 * p,
                p < programs@.len(),
                programs@.len() == 64,
                sts == sweep_state_list(),
                applicable == sweep_fold(done + row.subrange(0, k as int), target).applicable,
                matched == sweep_fold(done + row.subrange(0, k as int), target).matched,
                mismatches_model(mismatches@) == sweep_fold(done + row.subrange(0, k as int), target).mismatches,
            decreases 4 - k,
        {
            let state = &states[k];
            proof {
                let items = done + row.subrange(0, k as int + 1);
                assert(items.drop_last() =~= done + row.subrange(0, k as int));
                assert(items.last() == (label@, ops_model(ops@), sts[k as int]));
                lemma_fold_bound(done + row.subrange(0, k as int), target);
            }
            let copy = duplicate_ops(ops);
            let r = differential_ops(copy, target, state);
            if r.exec_error.is_some() || r.note.as_str().unicode_len() != 0 {
            } else {
                applicable = applicable + 1;
                if r.matched() {
                    matched = matched + 1;
                } else {
                    let ghost before = mismatches@;
                    mismatches.push((label.clone(), r.reference, r.isa));
                    proof {
                        assert(mismatches_model(mismatches@) =~= mismatches_model(before).push(
                            (label@, r.reference@, r.isa@),
                        ));
                    }
                }
            }
            k = k + 1;
        }
        proof {
            assert(row.subrange(0, 4) =~= row);
            assert(sweep_items(progs.subrange(0, p as int + 1), sts) =~= done + row);
        }
        p = p + 1;
    }
    proof {
        assert(progs.subrange(0, p as int) =~= progs);
    }
    SweepReport { target, applicable, matched, mismatches }
}

} // verus!
