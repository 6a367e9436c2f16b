//! The value codec and the aggregate memory encoder.
//!
//! A field element occupies one cell; a 256-bit integer occupies two cells,
//! low half first. An aggregate record occupies a declared, fixed number of
//! cells: one per scalar field, two per 256-bit field, and exactly one per
//! variable-length collection, which holds a pointer to a freshly allocated
//! segment with the collection's elements written from its base.
//!
//! Encoding is transactional: the target region is checked first, and on any
//! refusal memory is left exactly as it was.

use crate::error::HintError;
use crate::felt::{Felt, Uint256};
use crate::types::{
    BeaconHeader, BeaconHeaderCairo, LastLeafProof, LastLeafProofCairo, MmrSnapshot,
    MmrSnapshotCairo,
};
use crate::memory::{
    mem_write, Address, CellValue, MemView, Memory, MemoryError, SegView, write_check,
};
use vstd::prelude::*;

verus! {

/// The cells a sequence of field elements occupies, one each.
pub open spec fn felt_cells(fs: Seq<Felt>) -> Seq<CellValue> {
    fs.map_values(|f: Felt| CellValue::Int(f))
}

/// The two cells a 256-bit integer occupies: low half, then high half.
pub open spec fn u256_cells(u: Uint256) -> Seq<CellValue> {
    seq![CellValue::Int(u.low), CellValue::Int(u.high)]
}

/// The cells a sequence of 256-bit integers occupies, two each, in order.
pub open spec fn u256s_cells(us: Seq<Uint256>) -> Seq<CellValue>
    decreases us.len(),
{
    if us.len() == 0 {
        Seq::empty()
    } else {
        u256s_cells(us.drop_last()) + u256_cells(us.last())
    }
}

/// A segment holding exactly the given cells, all written.
pub open spec fn seg_of(cells: Seq<CellValue>) -> SegView {
    cells.map_values(|c: CellValue| Some(c))
}

/// A segment after writing a run of cells starting at `off`: the run's cells
/// hold the run's values, cells between the old end and the run are unwritten,
/// all others keep their value.
pub open spec fn write_cells(s: SegView, off: int, cells: Seq<CellValue>) -> SegView {
    let end = off + cells.len();
    let n = if cells.len() > 0 && end > s.len() {
        end
    } else {
        s.len() as int
    };
    Seq::new(
        n as nat,
        |j: int|
            if off <= j < end {
                Some(cells[j - off])
            } else if j < s.len() {
                s[j]
            } else {
                None
            },
    )
}

/// The memory after writing a run of cells starting at `a`.
pub open spec fn mem_write_cells(m: MemView, a: Address, cells: Seq<CellValue>) -> MemView {
    m.update(a.segment as int, write_cells(m[a.segment as int], a.offset as int, cells))
}

/// The exact outcome owed for writing a run of `n` cells at `a`: the segment
/// must exist, the run must fit below the offset limit, and every target cell
/// must be unwritten.
pub open spec fn region_check(m: MemView, a: Address, n: int) -> Result<(), MemoryError> {
    if a.segment >= m.len() {
        Err(MemoryError::UnallocatedSegment)
    } else if a.offset + n > usize::MAX {
        Err(MemoryError::OffsetOverflow)
    } else if exists|j: int|
        a.offset <= j < a.offset + n && j < m[a.segment as int].len() && !(#[trigger] m[a.segment
            as int][j] is None) {
        Err(MemoryError::InconsistentWrite)
    } else {
        Ok(())
    }
}

/// Check a target region as `region_check` describes, without writing.
pub fn region_check_exec(mem: &Memory, a: Address, n: usize) -> (r: Result<(), MemoryError>)
    ensures
        r == region_check(mem@, a, n as int),
{
    if a.segment >= mem.num_segments() {
        return Err(MemoryError::UnallocatedSegment);
    }
    if n > usize::MAX - a.offset {
        return Err(MemoryError::OffsetOverflow);
    }
    let mut j: usize = 0;
    while j < n
        invariant
            a.segment < mem@.len(),
            a.offset + n <= usize::MAX,
            j <= n,
            forall|k: int|
                a.offset <= k < a.offset + j ==> !(k < mem@[a.segment as int].len() && !(
                #[trigger] mem@[a.segment as int][k] is None)),
        decreases n - j,
    {
        let cell = mem.get(Address { segment: a.segment, offset: a.offset + j });
        if cell.is_some() {
            return Err(MemoryError::InconsistentWrite);
        }
        j = j + 1;
    }
    Ok(())
}

/// Write a run of cells starting at `a`, advancing one cell per entry, and
/// return the address just past the run. The whole region is checked first:
/// on refusal nothing is written.
pub fn write_run(mem: &mut Memory, a: Address, cells: &Vec<CellValue>) -> (r: Result<
    Address,
    MemoryError,
>)
    ensures
        match r {
            Ok(end) => {
                &&& region_check(old(mem)@, a, cells@.len() as int) is Ok
                &&& end == a.at(cells@.len() as int)
                &&& final(mem)@ == mem_write_cells(old(mem)@, a, cells@)
            },
            Err(e) => {
                &&& Err::<(), MemoryError>(e) == region_check(old(mem)@, a, cells@.len() as int)
                &&& final(mem)@ == old(mem)@
            },
        },
{
    match region_check_exec(mem, a, cells.len()) {
        Err(e) => {
            return Err(e);
        },
        Ok(()) => {},
    }
    let ghost m0 = mem@;
    let mut i: usize = 0;
    proof {
        assert(mem@ =~~= mem_write_cells(m0, a, cells@.take(0)));
    }
    while i < cells.len()
        invariant
            region_check(m0, a, cells@.len() as int) is Ok,
            i <= cells@.len(),
            a.segment < m0.len(),
            a.offset + cells@.len() <= usize::MAX,
            mem@ == mem_write_cells(m0, a, cells@.take(i as int)),
        decreases cells@.len() - i,
    {
        let target = Address { segment: a.segment, offset: a.offset + i };
        proof {
            lemma_run_step(m0, a, cells@, i as int);
        }
        let res = mem.insert_value(target, cells[i]);
        proof {
            assert(res is Ok);
            assert(mem@ =~~= mem_write_cells(m0, a, cells@.take(i + 1)));
        }
        i = i + 1;
    }
    proof {
        assert(cells@.take(cells@.len() as int) == cells@);
    }
    Ok(Address { segment: a.segment, offset: a.offset + cells.len() })
}

/// One step of `write_run`: with the region free in the original memory and a
/// prefix already written, the next cell's write is accepted and extends the
/// prefix.
proof fn lemma_run_step(m0: MemView, a: Address, cells: Seq<CellValue>, i: int)
    requires
        region_check(m0, a, cells.len() as int) is Ok,
        0 <= i < cells.len(),
    ensures
        write_check(
            mem_write_cells(m0, a, cells.take(i)),
            Address { segment: a.segment, offset: (a.offset + i) as usize },
            cells[i],
        ) is Ok,
        mem_write(
            mem_write_cells(m0, a, cells.take(i)),
            Address { segment: a.segment, offset: (a.offset + i) as usize },
            cells[i],
        ) =~~= mem_write_cells(m0, a, cells.take(i + 1)),
{
    let s0 = m0[a.segment as int];
    let si = write_cells(s0, a.offset as int, cells.take(i));
    let t = Address { segment: a.segment, offset: (a.offset + i) as usize };
    assert(a.offset + i < usize::MAX);
    if t.offset < si.len() {
        assert(si[t.offset as int] is None);
    }
    assert(write_check(mem_write_cells(m0, a, cells.take(i)), t, cells[i]) is Ok);
    let lhs = mem_write(mem_write_cells(m0, a, cells.take(i)), t, cells[i]);
    let rhs = mem_write_cells(m0, a, cells.take(i + 1));
    assert(lhs[a.segment as int] =~= rhs[a.segment as int]);
    assert(lhs =~~= rhs);
}

/// The cells of a sequence of field elements, as a vector ready to write.
pub fn felts_to_cells(fs: &Vec<Felt>) -> (r: Vec<CellValue>)
    ensures
        r@ == felt_cells(fs@),
{
    let mut r: Vec<CellValue> = Vec::new();
    let mut i: usize = 0;
    proof {
        assert(r@ =~= felt_cells(fs@.take(0)));
    }
    while i < fs.len()
        invariant
            i <= fs@.len(),
            r@ == felt_cells(fs@.take(i as int)),
        decreases fs@.len() - i,
    {
        r.push(CellValue::Int(fs[i]));
        proof {
            assert(r@ =~= felt_cells(fs@.take(i + 1)));
        }
        i = i + 1;
    }
    proof {
        assert(fs@.take(fs@.len() as int) == fs@);
    }
    r
}

/// The cells of a sequence of 256-bit integers, as a vector ready to write.
pub fn u256s_to_cells(us: &Vec<Uint256>) -> (r: Vec<CellValue>)
    ensures
        r@ == u256s_cells(us@),
{
    let mut r: Vec<CellValue> = Vec::new();
    let mut i: usize = 0;
    proof {
        assert(us@.take(0) =~= Seq::<Uint256>::empty());
    }
    while i < us.len()
        invariant
            i <= us@.len(),
            r@ == u256s_cells(us@.take(i as int)),
        decreases us@.len() - i,
    {
        r.push(CellValue::Int(us[i].low));
        r.push(CellValue::Int(us[i].high));
        proof {
            assert(us@.take(i + 1).drop_last() =~= us@.take(i as int));
            assert(us@.take(i + 1).last() == us@[i as int]);
            assert(r@ =~= u256s_cells(us@.take(i as int)) + u256_cells(us@[i as int]));
        }
        i = i + 1;
    }
    proof {
        assert(us@.take(us@.len() as int) == us@);
    }
    r
}

/// Each 256-bit integer occupies two cells.
pub proof fn lemma_u256s_cells_len(us: Seq<Uint256>)
    ensures
        u256s_cells(us).len() == 2 * us.len(),
    decreases us.len(),
{
    if us.len() > 0 {
        lemma_u256s_cells_len(us.drop_last());
    }
}

/// Allocate a fresh segment and fill it with one cell per field element.
fn alloc_felt_seg(mem: &mut Memory, fs: &Vec<Felt>) -> (r: Address)
    ensures
        final(mem)@ == old(mem)@.push(seg_of(felt_cells(fs@))),
        old(mem)@.len() < usize::MAX,
        r.segment == old(mem)@.len(),
        r.offset == 0,
{
    let base = mem.add_segment();
    let cells = felts_to_cells(fs);
    let ghost m1 = mem@;
    let res = write_run(mem, base, &cells);
    proof {
        vstd::std_specs::vec::axiom_spec_len(&cells);
        assert(m1[base.segment as int] == Seq::<Option<CellValue>>::empty());
        assert(region_check(m1, base, cells@.len() as int) is Ok);
        assert(res is Ok);
        assert(write_cells(Seq::empty(), 0, cells@) =~= seg_of(cells@));
        assert(mem@ =~~= old(mem)@.push(seg_of(felt_cells(fs@))));
    }
    base
}

/// Allocate a fresh segment and fill it with two cells per 256-bit integer.
fn alloc_u256_seg(mem: &mut Memory, us: &Vec<Uint256>) -> (r: Address)
    ensures
        final(mem)@ == old(mem)@.push(seg_of(u256s_cells(us@))),
        old(mem)@.len() < usize::MAX,
        r.segment == old(mem)@.len(),
        r.offset == 0,
{
    let base = mem.add_segment();
    let cells = u256s_to_cells(us);
    let ghost m1 = mem@;
    let res = write_run(mem, base, &cells);
    proof {
        vstd::std_specs::vec::axiom_spec_len(&cells);
        assert(m1[base.segment as int] == Seq::<Option<CellValue>>::empty());
        assert(region_check(m1, base, cells@.len() as int) is Ok);
        assert(res is Ok);
        assert(write_cells(Seq::empty(), 0, cells@) =~= seg_of(cells@));
        assert(mem@ =~~= old(mem)@.push(seg_of(u256s_cells(us@))));
    }
    base
}

/// The eight cells a beacon header occupies, in declared field order.
pub open spec fn header_cells(h: BeaconHeader) -> Seq<CellValue> {
    seq![
        CellValue::Int(h.slot),
        CellValue::Int(h.proposer_index),
        CellValue::Int(h.parent_root.low),
        CellValue::Int(h.parent_root.high),
        CellValue::Int(h.state_root.low),
        CellValue::Int(h.state_root.high),
        CellValue::Int(h.body_root.low),
        CellValue::Int(h.body_root.high),
    ]
}

/// The memory after encoding a beacon header at `a`.
pub open spec fn encode_header_mem(m: MemView, a: Address, h: BeaconHeader) -> MemView {
    mem_write_cells(m, a, header_cells(h))
}

/// The seven cells a grower snapshot occupies: size, poseidon root, poseidon
/// peaks pointer, keccak root (two cells), keccak peaks pointer, stored peak
/// count.
pub open spec fn snapshot_cells(s: MmrSnapshot, pseg: Address, kseg: Address) -> Seq<CellValue> {
    seq![
        CellValue::Int(s.size),
        CellValue::Int(s.poseidon_root),
        CellValue::Ptr(pseg),
        CellValue::Int(s.keccak_root.low),
        CellValue::Int(s.keccak_root.high),
        CellValue::Ptr(kseg),
        CellValue::Int(s.peaks_len),
    ]
}

/// The memory after encoding a grower snapshot at `a`: the seven-cell layout
/// written at `a`, then one fresh segment with the poseidon peaks and one with
/// the keccak peaks.
pub open spec fn encode_snapshot_mem(m: MemView, a: Address, s: MmrSnapshot) -> MemView {
    let pseg = Address { segment: m.len() as usize, offset: 0 };
    let kseg = Address { segment: (m.len() + 1) as usize, offset: 0 };
    mem_write_cells(m, a, snapshot_cells(s, pseg, kseg)).push(
        seg_of(felt_cells(s.poseidon_peaks@)),
    ).push(seg_of(u256s_cells(s.keccak_peaks@)))
}

/// The six cells a last-leaf proof occupies: header root (two cells), header
/// position, path length, poseidon path pointer, keccak path pointer.
pub open spec fn llp_cells(p: LastLeafProof, pseg: Address, kseg: Address) -> Seq<CellValue> {
    seq![
        CellValue::Int(p.header_root.low),
        CellValue::Int(p.header_root.high),
        CellValue::Int(p.header_position),
        CellValue::Int(p.path_len),
        CellValue::Ptr(pseg),
        CellValue::Ptr(kseg),
    ]
}

/// The memory after encoding a last-leaf proof at `a`.
pub open spec fn encode_llp_mem(m: MemView, a: Address, p: LastLeafProof) -> MemView {
    let pseg = Address { segment: m.len() as usize, offset: 0 };
    let kseg = Address { segment: (m.len() + 1) as usize, offset: 0 };
    mem_write_cells(m, a, llp_cells(p, pseg, kseg)).push(
        seg_of(felt_cells(p.poseidon_path@)),
    ).push(seg_of(u256s_cells(p.keccak_path@)))
}

impl BeaconHeader {
    /// The number of cells a beacon header occupies.
    pub fn n_fields() -> (r: usize)
        ensures
            r == 8,
    {
        8
    }

    /// Encode this header at `address` and return the address just past it:
    /// always exactly eight cells further, whatever the field values. The
    /// target region is checked first: on refusal nothing is written.
    pub fn to_memory(&self, mem: &mut Memory, address: Address) -> (r: Result<Address, HintError>)
        ensures
            match r {
                Ok(end) => {
                    &&& region_check(old(mem)@, address, 8) is Ok
                    &&& end == address.at(8)
                    &&& final(mem)@ == encode_header_mem(old(mem)@, address, *self)
                },
                Err(e) => {
                    &&& final(mem)@ == old(mem)@
                    &&& match region_check(old(mem)@, address, 8) {
                        Err(me) => e == HintError::Memory(me),
                        Ok(()) => false,
                    }
                },
            },
    {
        let mut cells: Vec<CellValue> = Vec::new();
        cells.push(CellValue::Int(self.slot));
        cells.push(CellValue::Int(self.proposer_index));
        cells.push(CellValue::Int(self.parent_root.low));
        cells.push(CellValue::Int(self.parent_root.high));
        cells.push(CellValue::Int(self.state_root.low));
        cells.push(CellValue::Int(self.state_root.high));
        cells.push(CellValue::Int(self.body_root.low));
        cells.push(CellValue::Int(self.body_root.high));
        proof {
            assert(cells@ =~= header_cells(*self));
        }
        match write_run(mem, address, &cells) {
            Ok(end) => Ok(end),
            Err(e) => Err(HintError::Memory(e)),
        }
    }
}

impl MmrSnapshot {
    /// The number of cells a grower snapshot occupies.
    pub fn n_fields() -> (r: usize)
        ensures
            r == 7,
    {
        7
    }

    /// Encode this snapshot at `address` and return the address just past it:
    /// always exactly seven cells further. The record's peak invariant —
    /// parallel peak sequences whose stored count matches their length — is
    /// validated and the target region checked first: on any refusal nothing
    /// is written.
    pub fn to_memory(&self, mem: &mut Memory, address: Address) -> (r: Result<Address, HintError>)
        ensures
            match r {
                Ok(end) => {
                    &&& self.valid()
                    &&& region_check(old(mem)@, address, 7) is Ok
                    &&& end == address.at(7)
                    &&& final(mem)@ == encode_snapshot_mem(old(mem)@, address, *self)
                },
                Err(e) => {
                    &&& final(mem)@ == old(mem)@
                    &&& if !self.valid() {
                        e == HintError::PeaksLengthMismatch
                    } else {
                        match region_check(old(mem)@, address, 7) {
                            Err(me) => e == HintError::Memory(me),
                            Ok(()) => false,
                        }
                    }
                },
            },
    {
        if self.poseidon_peaks.len() != self.keccak_peaks.len() {
            return Err(HintError::PeaksLengthMismatch);
        }
        let stored = Felt::from_u64(self.poseidon_peaks.len() as u64);
        if !(self.peaks_len.le(&stored) && stored.le(&self.peaks_len)) {
            return Err(HintError::PeaksLengthMismatch);
        }
        match region_check_exec(mem, address, 7) {
            Err(e) => {
                return Err(HintError::Memory(e));
            },
            Ok(()) => {},
        }
        let ghost m0 = mem@;
        let pseg = alloc_felt_seg(mem, &self.poseidon_peaks);
        let kseg = alloc_u256_seg(mem, &self.keccak_peaks);
        let mut cells: Vec<CellValue> = Vec::new();
        cells.push(CellValue::Int(self.size));
        cells.push(CellValue::Int(self.poseidon_root));
        cells.push(CellValue::Ptr(pseg));
        cells.push(CellValue::Int(self.keccak_root.low));
        cells.push(CellValue::Int(self.keccak_root.high));
        cells.push(CellValue::Ptr(kseg));
        cells.push(CellValue::Int(self.peaks_len));
        proof {
            assert(cells@ =~= snapshot_cells(*self, pseg, kseg));
            assert(region_check(mem@, address, 7) is Ok);
        }
        let res = write_run(mem, address, &cells);
        proof {
            assert(res is Ok);
            let seg_i = address.segment as int;
            assert(mem@[seg_i] =~= encode_snapshot_mem(m0, address, *self)[seg_i]);
            assert(mem@ =~~= encode_snapshot_mem(m0, address, *self));
        }
        match res {
            Ok(end) => Ok(end),
            Err(_) => vstd::pervasive::unreached(),
        }
    }
}

impl LastLeafProof {
    /// The number of cells a last-leaf proof occupies.
    pub fn n_fields() -> (r: usize)
        ensures
            r == 6,
    {
        6
    }

    /// Encode this proof at `address` and return the address just past it:
    /// always exactly six cells further. The record's path invariant —
    /// parallel path sequences whose stored length matches them — is
    /// validated and the target region checked first: on any refusal nothing
    /// is written.
    pub fn to_memory(&self, mem: &mut Memory, address: Address) -> (r: Result<Address, HintError>)
        ensures
            match r {
                Ok(end) => {
                    &&& self.valid()
                    &&& region_check(old(mem)@, address, 6) is Ok
                    &&& end == address.at(6)
                    &&& final(mem)@ == encode_llp_mem(old(mem)@, address, *self)
                },
                Err(e) => {
                    &&& final(mem)@ == old(mem)@
                    &&& if !self.valid() {
                        e == HintError::PathsLengthMismatch
                    } else {
                        match region_check(old(mem)@, address, 6) {
                            Err(me) => e == HintError::Memory(me),
                            Ok(()) => false,
                        }
                    }
                },
            },
    {
        if self.poseidon_path.len() != self.keccak_path.len() {
            return Err(HintError::PathsLengthMismatch);
        }
        let stored = Felt::from_u64(self.poseidon_path.len() as u64);
        if !(self.path_len.le(&stored) && stored.le(&self.path_len)) {
            return Err(HintError::PathsLengthMismatch);
        }
        match region_check_exec(mem, address, 6) {
            Err(e) => {
                return Err(HintError::Memory(e));
            },
            Ok(()) => {},
        }
        let ghost m0 = mem@;
        let pseg = alloc_felt_seg(mem, &self.poseidon_path);
        let kseg = alloc_u256_seg(mem, &self.keccak_path);
        let mut cells: Vec<CellValue> = Vec::new();
        cells.push(CellValue::Int(self.header_root.low));
        cells.push(CellValue::Int(self.header_root.high));
        cells.push(CellValue::Int(self.header_position));
        cells.push(CellValue::Int(self.path_len));
        cells.push(CellValue::Ptr(pseg));
        cells.push(CellValue::Ptr(kseg));
        proof {
            assert(cells@ =~= llp_cells(*self, pseg, kseg));
            assert(region_check(mem@, address, 6) is Ok);
        }
        let res = write_run(mem, address, &cells);
        proof {
            assert(res is Ok);
            let seg_i = address.segment as int;
            assert(mem@[seg_i] =~= encode_llp_mem(m0, address, *self)[seg_i]);
            assert(mem@ =~~= encode_llp_mem(m0, address, *self));
        }
        match res {
            Ok(end) => Ok(end),
            Err(_) => vstd::pervasive::unreached(),
        }
    }
}

/// The eight cells an accumulator-layout beacon header occupies, in declared
/// field order.
pub open spec fn header_cairo_cells(h: BeaconHeaderCairo) -> Seq<CellValue> {
    seq![
        CellValue::Int(h.slot),
        CellValue::Int(h.proposer_index),
        CellValue::Int(h.parent_root.low),
        CellValue::Int(h.parent_root.high),
        CellValue::Int(h.state_root.low),
        CellValue::Int(h.state_root.high),
        CellValue::Int(h.body_root.low),
        CellValue::Int(h.body_root.high),
    ]
}

/// The memory after encoding an accumulator-layout beacon header at `a`.
pub open spec fn encode_header_cairo_mem(m: MemView, a: Address, h: BeaconHeaderCairo) -> MemView {
    mem_write_cells(m, a, header_cairo_cells(h))
}

/// The seven cells an accumulator snapshot occupies: keccak root (two cells),
/// poseidon root, element count, keccak peaks pointer, poseidon peaks pointer,
/// and a peak count computed from the poseidon peak sequence's length.
pub open spec fn snapshot_cairo_cells(s: MmrSnapshotCairo, kseg: Address, pseg: Address) -> Seq<
    CellValue,
> {
    seq![
        CellValue::Int(s.keccak_root.low),
        CellValue::Int(s.keccak_root.high),
        CellValue::Int(s.poseidon_root),
        CellValue::Int(s.elements_count),
        CellValue::Ptr(kseg),
        CellValue::Ptr(pseg),
        CellValue::Int(Felt { l0: s.poseidon_peaks@.len() as u64, l1: 0, l2: 0, l3: 0 }),
    ]
}

/// The memory after encoding an accumulator snapshot at `a`: the seven-cell
/// layout written at `a`, then one fresh segment with the keccak peaks and one
/// with the poseidon peaks.
pub open spec fn encode_snapshot_cairo_mem(m: MemView, a: Address, s: MmrSnapshotCairo) -> MemView {
    let kseg = Address { segment: m.len() as usize, offset: 0 };
    let pseg = Address { segment: (m.len() + 1) as usize, offset: 0 };
    mem_write_cells(m, a, snapshot_cairo_cells(s, kseg, pseg)).push(
        seg_of(u256s_cells(s.keccak_peaks@)),
    ).push(seg_of(felt_cells(s.poseidon_peaks@)))
}

/// The six cells an accumulator last-leaf proof occupies: header root (two
/// cells), header position, path length, poseidon path pointer, keccak path
/// pointer.
pub open spec fn llp_cairo_cells(p: LastLeafProofCairo, pseg: Address, kseg: Address) -> Seq<
    CellValue,
> {
    seq![
        CellValue::Int(p.header_root.low),
        CellValue::Int(p.header_root.high),
        CellValue::Int(p.header_position),
        CellValue::Int(p.path_len),
        CellValue::Ptr(pseg),
        CellValue::Ptr(kseg),
    ]
}

/// The memory after encoding an accumulator last-leaf proof at `a`.
pub open spec fn encode_llp_cairo_mem(m: MemView, a: Address, p: LastLeafProofCairo) -> MemView {
    let pseg = Address { segment: m.len() as usize, offset: 0 };
    let kseg = Address { segment: (m.len() + 1) as usize, offset: 0 };
    mem_write_cells(m, a, llp_cairo_cells(p, pseg, kseg)).push(
        seg_of(felt_cells(p.poseidon_path@)),
    ).push(seg_of(u256s_cells(p.keccak_path@)))
}

impl BeaconHeaderCairo {
    /// The number of cells an accumulator-layout beacon header occupies.
    pub fn n_fields() -> (r: usize)
        ensures
            r == 8,
    {
        8
    }

    /// Encode this header at `address` and return the address just past it:
    /// always exactly eight cells further, whatever the field values. The
    /// target region is checked first: on refusal nothing is written.
    pub fn to_memory(&self, mem: &mut Memory, address: Address) -> (r: Result<Address, HintError>)
        ensures
            match r {
                Ok(end) => {
                    &&& region_check(old(mem)@, address, 8) is Ok
                    &&& end == address.at(8)
                    &&& final(mem)@ == encode_header_cairo_mem(old(mem)@, address, *self)
                },
                Err(e) => {
                    &&& final(mem)@ == old(mem)@
                    &&& match region_check(old(mem)@, address, 8) {
                        Err(me) => e == HintError::Memory(me),
                        Ok(()) => false,
                    }
                },
            },
    {
        let mut cells: Vec<CellValue> = Vec::new();
        cells.push(CellValue::Int(self.slot));
        cells.push(CellValue::Int(self.proposer_index));
        cells.push(CellValue::Int(self.parent_root.low));
        cells.push(CellValue::Int(self.parent_root.high));
        cells.push(CellValue::Int(self.state_root.low));
        cells.push(CellValue::Int(self.state_root.high));
        cells.push(CellValue::Int(self.body_root.low));
        cells.push(CellValue::Int(self.body_root.high));
        proof {
            assert(cells@ =~= header_cairo_cells(*self));
        }
        match write_run(mem, address, &cells) {
            Ok(end) => Ok(end),
            Err(e) => Err(HintError::Memory(e)),
        }
    }
}

impl MmrSnapshotCairo {
    /// The number of cells an accumulator snapshot occupies.
    pub fn n_fields() -> (r: usize)
        ensures
            r == 7,
    {
        7
    }

    /// Encode this snapshot at `address` and return the address just past it:
    /// always exactly seven cells further. The stored peak count is computed
    /// from the poseidon peak sequence; `leafs_count` is not serialized. The
    /// peak sequences are validated and the target region checked first: on
    /// any refusal nothing is written.
    pub fn to_memory(&self, mem: &mut Memory, address: Address) -> (r: Result<Address, HintError>)
        ensures
            match r {
                Ok(end) => {
                    &&& self.peaks_parallel()
                    &&& region_check(old(mem)@, address, 7) is Ok
                    &&& end == address.at(7)
                    &&& final(mem)@ == encode_snapshot_cairo_mem(old(mem)@, address, *self)
                },
                Err(e) => {
                    &&& final(mem)@ == old(mem)@
                    &&& if !self.peaks_parallel() {
                        e == HintError::PeaksLengthMismatch
                    } else {
                        match region_check(old(mem)@, address, 7) {
                            Err(me) => e == HintError::Memory(me),
                            Ok(()) => false,
                        }
                    }
                },
            },
    {
        if self.poseidon_peaks.len() != self.keccak_peaks.len() {
            return Err(HintError::PeaksLengthMismatch);
        }
        match region_check_exec(mem, address, 7) {
            Err(e) => {
                return Err(HintError::Memory(e));
            },
            Ok(()) => {},
        }
        let ghost m0 = mem@;
        let kseg = alloc_u256_seg(mem, &self.keccak_peaks);
        let pseg = alloc_felt_seg(mem, &self.poseidon_peaks);
        let peaks_len = Felt::from_u64(self.poseidon_peaks.len() as u64);
        let mut cells: Vec<CellValue> = Vec::new();
        cells.push(CellValue::Int(self.keccak_root.low));
        cells.push(CellValue::Int(self.keccak_root.high));
        cells.push(CellValue::Int(self.poseidon_root));
        cells.push(CellValue::Int(self.elements_count));
        cells.push(CellValue::Ptr(kseg));
        cells.push(CellValue::Ptr(pseg));
        cells.push(CellValue::Int(peaks_len));
        proof {
            assert(cells@ =~= snapshot_cairo_cells(*self, kseg, pseg));
            assert(region_check(mem@, address, 7) is Ok);
        }
        let res = write_run(mem, address, &cells);
        proof {
            assert(res is Ok);
            let seg_i = address.segment as int;
            assert(mem@[seg_i] =~= encode_snapshot_cairo_mem(m0, address, *self)[seg_i]);
            assert(mem@ =~~= encode_snapshot_cairo_mem(m0, address, *self));
        }
        match res {
            Ok(end) => Ok(end),
            Err(_) => vstd::pervasive::unreached(),
        }
    }
}

impl LastLeafProofCairo {
    /// The number of cells an accumulator last-leaf proof occupies.
    pub fn n_fields() -> (r: usize)
        ensures
            r == 6,
    {
        6
    }

    /// Encode this proof at `address` and return the address just past it:
    /// always exactly six cells further. The record's path invariant —
    /// parallel path sequences whose stored length matches them — is
    /// validated and the target region checked first: on any refusal nothing
    /// is written.
    pub fn to_memory(&self, mem: &mut Memory, address: Address) -> (r: Result<Address, HintError>)
        ensures
            match r {
                Ok(end) => {
                    &&& self.valid()
                    &&& region_check(old(mem)@, address, 6) is Ok
                    &&& end == address.at(6)
                    &&& final(mem)@ == encode_llp_cairo_mem(old(mem)@, address, *self)
                },
                Err(e) => {
                    &&& final(mem)@ == old(mem)@
                    &&& if !self.valid() {
                        e == HintError::PathsLengthMismatch
                    } else {
                        match region_check(old(mem)@, address, 6) {
                            Err(me) => e == HintError::Memory(me),
                            Ok(()) => false,
                        }
                    }
                },
            },
    {
        if self.poseidon_path.len() != self.keccak_path.len() {
            return Err(HintError::PathsLengthMismatch);
        }
        let stored = Felt::from_u64(self.poseidon_path.len() as u64);
        if !(self.path_len.le(&stored) && stored.le(&self.path_len)) {
            return Err(HintError::PathsLengthMismatch);
        }
        match region_check_exec(mem, address, 6) {
            Err(e) => {
                return Err(HintError::Memory(e));
            },
            Ok(()) => {},
        }
        let ghost m0 = mem@;
        let pseg = alloc_felt_seg(mem, &self.poseidon_path);
        let kseg = alloc_u256_seg(mem, &self.keccak_path);
        let mut cells: Vec<CellValue> = Vec::new();
        cells.push(CellValue::Int(self.header_root.low));
        cells.push(CellValue::Int(self.header_root.high));
        cells.push(CellValue::Int(self.header_position));
        cells.push(CellValue::Int(self.path_len));
        cells.push(CellValue::Ptr(pseg));
        cells.push(CellValue::Ptr(kseg));
        proof {
            assert(cells@ =~= llp_cairo_cells(*self, pseg, kseg));
            assert(region_check(mem@, address, 6) is Ok);
        }
        let res = write_run(mem, address, &cells);
        proof {
            assert(res is Ok);
            let seg_i = address.segment as int;
            assert(mem@[seg_i] =~= encode_llp_cairo_mem(m0, address, *self)[seg_i]);
            assert(mem@ =~~= encode_llp_cairo_mem(m0, address, *self));
        }
        match res {
            Ok(end) => Ok(end),
            Err(_) => vstd::pervasive::unreached(),
        }
    }
}

/// The exact outcome owed for encoding a grower snapshot: the validation
/// failure, the region failure, or the encoded memory.
pub open spec fn snapshot_outcome(m: MemView, a: Address, s: MmrSnapshot) -> Result<
    MemView,
    HintError,
> {
    if !s.valid() {
        Err(HintError::PeaksLengthMismatch)
    } else {
        match region_check(m, a, 7) {
            Err(me) => Err(HintError::Memory(me)),
            Ok(()) => Ok(encode_snapshot_mem(m, a, s)),
        }
    }
}

/// The exact outcome owed for encoding an accumulator snapshot.
pub open spec fn snapshot_cairo_outcome(m: MemView, a: Address, s: MmrSnapshotCairo) -> Result<
    MemView,
    HintError,
> {
    if !s.peaks_parallel() {
        Err(HintError::PeaksLengthMismatch)
    } else {
        match region_check(m, a, 7) {
            Err(me) => Err(HintError::Memory(me)),
            Ok(()) => Ok(encode_snapshot_cairo_mem(m, a, s)),
        }
    }
}

/// The exact outcome owed for encoding a grower last-leaf proof.
pub open spec fn llp_outcome(m: MemView, a: Address, p: LastLeafProof) -> Result<
    MemView,
    HintError,
> {
    if !p.valid() {
        Err(HintError::PathsLengthMismatch)
    } else {
        match region_check(m, a, 6) {
            Err(me) => Err(HintError::Memory(me)),
            Ok(()) => Ok(encode_llp_mem(m, a, p)),
        }
    }
}

} // verus!
