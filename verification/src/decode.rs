//! The mirror decoder: reading encoded records back out of memory, and the
//! round-trip laws tying it to the encoder.
//!
//! The spec readers walk the inverse of each record's declared layout. The
//! laws state that decoding an encoded record recovers the source record's
//! fields, peak sequences and headers exactly.

use crate::codec::{
    encode_header_cairo_mem, encode_snapshot_cairo_mem, encode_snapshot_mem, felt_cells,
    header_cairo_cells, mem_write_cells, region_check, seg_of, snapshot_cairo_cells,
    snapshot_cairo_outcome, snapshot_cells, u256s_cells, write_cells,
};
use crate::error::HintError;
use crate::felt::{Felt, Uint256};
use crate::hints::{
    felt_u64, pointer_outcome, store_outcome, table_lookup, write_beacon_input_outcome,
    write_headers_cairo_outcome,
};
use crate::memory::{mem_write, write_cell_seq, write_check, Address, CellValue, MemView, Memory};
use crate::types::{BeaconHeaderCairo, BeaconMmrUpdateCairo, MmrSnapshot, MmrSnapshotCairo};
use vstd::prelude::*;

verus! {

/// The value at segment `seg`, offset `off`, or `None` when no such cell was
/// ever written.
pub open spec fn read_cell(m: MemView, seg: int, off: int) -> Option<CellValue> {
    if 0 <= seg < m.len() && 0 <= off < m[seg].len() {
        m[seg][off]
    } else {
        None
    }
}

/// The field element at a cell, if the cell holds one.
pub open spec fn read_int(m: MemView, seg: int, off: int) -> Option<Felt> {
    match read_cell(m, seg, off) {
        Some(CellValue::Int(x)) => Some(x),
        _ => None,
    }
}

/// The address at a cell, if the cell holds one.
pub open spec fn read_ptr(m: MemView, seg: int, off: int) -> Option<Address> {
    match read_cell(m, seg, off) {
        Some(CellValue::Ptr(p)) => Some(p),
        _ => None,
    }
}

/// The 256-bit integer at two consecutive cells: low half, then high half.
pub open spec fn read_u256(m: MemView, seg: int, off: int) -> Option<Uint256> {
    match (read_int(m, seg, off), read_int(m, seg, off + 1)) {
        (Some(lo), Some(hi)) => Some(Uint256 { low: lo, high: hi }),
        _ => None,
    }
}

/// `n` field elements from consecutive cells.
pub open spec fn read_felts(m: MemView, seg: int, off: int, n: nat) -> Option<Seq<Felt>>
    decreases n,
{
    if n == 0 {
        Some(Seq::empty())
    } else {
        match (read_int(m, seg, off), read_felts(m, seg, off + 1, (n - 1) as nat)) {
            (Some(x), Some(rest)) => Some(seq![x] + rest),
            _ => None,
        }
    }
}

/// `n` 256-bit integers from consecutive cell pairs.
pub open spec fn read_u256s(m: MemView, seg: int, off: int, n: nat) -> Option<Seq<Uint256>>
    decreases n,
{
    if n == 0 {
        Some(Seq::empty())
    } else {
        match (read_u256(m, seg, off), read_u256s(m, seg, off + 2, (n - 1) as nat)) {
            (Some(u), Some(rest)) => Some(seq![u] + rest),
            _ => None,
        }
    }
}

/// An accumulator-layout header from its eight cells.
pub open spec fn read_header_cairo(m: MemView, seg: int, off: int) -> Option<BeaconHeaderCairo> {
    match (
        read_int(m, seg, off),
        read_int(m, seg, off + 1),
        read_u256(m, seg, off + 2),
        read_u256(m, seg, off + 4),
        read_u256(m, seg, off + 6),
    ) {
        (Some(slot), Some(proposer), Some(parent), Some(state), Some(body)) => Some(
            BeaconHeaderCairo {
                slot,
                proposer_index: proposer,
                parent_root: parent,
                state_root: state,
                body_root: body,
            },
        ),
        _ => None,
    }
}

/// `n` accumulator-layout headers from consecutive eight-cell runs.
pub open spec fn read_headers_cairo(m: MemView, seg: int, off: int, n: nat) -> Option<
    Seq<BeaconHeaderCairo>,
>
    decreases n,
{
    if n == 0 {
        Some(Seq::empty())
    } else {
        match (read_header_cairo(m, seg, off), read_headers_cairo(m, seg, off + 8, (n - 1) as nat)) {
            (Some(h), Some(rest)) => Some(seq![h] + rest),
            _ => None,
        }
    }
}

/// Writing a run changes exactly the run's cells: inside the run each cell
/// holds the run's value, outside it every read is unchanged.
pub proof fn lemma_read_write_cells(m: MemView, a: Address, cells: Seq<CellValue>)
    requires
        a.segment < m.len(),
    ensures
        forall|j: int|
            a.offset <= j < a.offset + cells.len() ==> read_cell(
                mem_write_cells(m, a, cells),
                a.segment as int,
                j,
            ) == Some(cells[j - a.offset]),
        forall|sg: int, j: int|
            sg != a.segment || j < a.offset || j >= a.offset + cells.len() ==> read_cell(
                mem_write_cells(m, a, cells),
                sg,
                j,
            ) == read_cell(m, sg, j),
{
}

/// Reading back a run of field-element cells recovers the sequence.
proof fn lemma_read_felts_from_cells(m: MemView, seg: int, off: int, fs: Seq<Felt>)
    requires
        forall|j: int|
            0 <= j < fs.len() ==> read_cell(m, seg, off + j) == Some(CellValue::Int(#[trigger] fs[j])),
    ensures
        read_felts(m, seg, off, fs.len()) == Some(fs),
    decreases fs.len(),
{
    if fs.len() == 0 {
        assert(fs =~= Seq::<Felt>::empty());
    } else {
        let rest = fs.drop_first();
        assert(forall|j: int|
            0 <= j < rest.len() ==> read_cell(m, seg, off + 1 + j) == Some(
                CellValue::Int(#[trigger] rest[j]),
            ));
        lemma_read_felts_from_cells(m, seg, off + 1, rest);
        assert(read_cell(m, seg, off + 0) == Some(CellValue::Int(fs[0])));
        assert(seq![fs[0]] + rest =~= fs);
    }
}

/// The cell pair of the k-th 256-bit integer in a run: low half at 2k, high
/// half at 2k + 1.
proof fn lemma_u256s_cells_index(us: Seq<Uint256>, k: int)
    requires
        0 <= k < us.len(),
    ensures
        u256s_cells(us)[2 * k] == CellValue::Int(us[k].low),
        u256s_cells(us)[2 * k + 1] == CellValue::Int(us[k].high),
    decreases us.len(),
{
    crate::codec::lemma_u256s_cells_len(us);
    crate::codec::lemma_u256s_cells_len(us.drop_last());
    if k == us.len() - 1 {
    } else {
        lemma_u256s_cells_index(us.drop_last(), k);
    }
}

/// Reading back a run of 256-bit cell pairs recovers the sequence.
proof fn lemma_read_u256s_from_cells(m: MemView, seg: int, off: int, us: Seq<Uint256>)
    requires
        forall|k: int|
            0 <= k < us.len() ==> read_cell(m, seg, off + 2 * k) == Some(
                CellValue::Int(#[trigger] us[k].low),
            ) && read_cell(m, seg, off + 2 * k + 1) == Some(CellValue::Int(us[k].high)),
    ensures
        read_u256s(m, seg, off, us.len()) == Some(us),
    decreases us.len(),
{
    if us.len() == 0 {
        assert(us =~= Seq::<Uint256>::empty());
    } else {
        let rest = us.drop_first();
        assert(forall|k: int| 0 <= k < rest.len() ==> #[trigger] rest[k] == us[k + 1]);
        assert(forall|k: int|
            0 <= k < rest.len() ==> read_cell(m, seg, off + 2 + 2 * k) == Some(
                CellValue::Int(#[trigger] rest[k].low),
            ) && read_cell(m, seg, off + 2 + 2 * k + 1) == Some(CellValue::Int(rest[k].high)));
        lemma_read_u256s_from_cells(m, seg, off + 2, rest);
        assert(read_cell(m, seg, off + 2 * 0) == Some(CellValue::Int(us[0].low)));
        assert(read_cell(m, seg, off + 2 * 0 + 1) == Some(CellValue::Int(us[0].high)));
        assert(read_u256(m, seg, off) == Some(us[0]));
        assert(seq![us[0]] + rest =~= us);
    }
}

/// Law: encoding a valid grower snapshot and then decoding it through the
/// inverse layout recovers the size, both roots, the stored peak count, and
/// both peak sequences in their original order.
pub proof fn lemma_snapshot_round_trip(m: MemView, a: Address, s: MmrSnapshot)
    requires
        s.valid(),
        region_check(m, a, 7) is Ok,
        m.len() + 2 <= usize::MAX,
    ensures
        ({
            let mf = encode_snapshot_mem(m, a, s);
            let seg = a.segment as int;
            let off = a.offset as int;
            &&& read_int(mf, seg, off) == Some(s.size)
            &&& read_int(mf, seg, off + 1) == Some(s.poseidon_root)
            &&& read_u256(mf, seg, off + 3) == Some(s.keccak_root)
            &&& read_int(mf, seg, off + 6) == Some(s.peaks_len)
            &&& s.peaks_len.value() == s.poseidon_peaks@.len()
            &&& match read_ptr(mf, seg, off + 2) {
                Some(p) => read_felts(
                    mf,
                    p.segment as int,
                    p.offset as int,
                    s.poseidon_peaks@.len(),
                ) == Some(s.poseidon_peaks@),
                None => false,
            }
            &&& match read_ptr(mf, seg, off + 5) {
                Some(k) => read_u256s(
                    mf,
                    k.segment as int,
                    k.offset as int,
                    s.keccak_peaks@.len(),
                ) == Some(s.keccak_peaks@),
                None => false,
            }
        }),
{
    let pseg = Address { segment: m.len() as usize, offset: 0 };
    let kseg = Address { segment: (m.len() + 1) as usize, offset: 0 };
    let cells = snapshot_cells(s, pseg, kseg);
    let mw = mem_write_cells(m, a, cells);
    let mf = encode_snapshot_mem(m, a, s);
    let seg = a.segment as int;
    let off = a.offset as int;
    lemma_read_write_cells(m, a, cells);
    assert(forall|j: int|
        a.offset <= j < a.offset + 7 ==> #[trigger] read_cell(mf, seg, j) == read_cell(mw, seg, j));
    assert(read_cell(mf, seg, off) == Some(cells[0]));
    assert(read_cell(mf, seg, off + 1) == Some(cells[1]));
    assert(read_cell(mf, seg, off + 2) == Some(cells[2]));
    assert(read_cell(mf, seg, off + 3) == Some(cells[3]));
    assert(read_cell(mf, seg, off + 4) == Some(cells[4]));
    assert(read_cell(mf, seg, off + 5) == Some(cells[5]));
    assert(read_cell(mf, seg, off + 6) == Some(cells[6]));
    let fs = s.poseidon_peaks@;
    let ps = seg_of(felt_cells(fs));
    assert(mf[pseg.segment as int] == ps);
    assert(forall|j: int|
        0 <= j < fs.len() ==> read_cell(mf, pseg.segment as int, j) == Some(
            CellValue::Int(#[trigger] fs[j]),
        ));
    lemma_read_felts_from_cells(mf, pseg.segment as int, 0, fs);
    let us = s.keccak_peaks@;
    let ks = seg_of(u256s_cells(us));
    crate::codec::lemma_u256s_cells_len(us);
    assert(mf[kseg.segment as int] == ks);
    assert forall|k: int| 0 <= k < us.len() implies read_cell(mf, kseg.segment as int, 2 * k)
        == Some(CellValue::Int(#[trigger] us[k].low)) && read_cell(
        mf,
        kseg.segment as int,
        2 * k + 1,
    ) == Some(CellValue::Int(us[k].high)) by {
        lemma_u256s_cells_index(us, k);
    }
    lemma_read_u256s_from_cells(mf, kseg.segment as int, 0, us);
}

/// Every cell already written in `m1` reads the same in `m2`.
pub open spec fn preserves_written(m1: MemView, m2: MemView) -> bool {
    forall|sg: int, j: int|
        #[trigger] read_cell(m1, sg, j) is Some ==> read_cell(m2, sg, j) == read_cell(m1, sg, j)
}

/// An accepted single-cell write preserves every written cell: it only fills
/// an unwritten cell or rewrites an equal value.
proof fn lemma_write_preserves_written(m: MemView, a: Address, v: CellValue)
    requires
        write_check(m, a, v) is Ok,
    ensures
        preserves_written(m, mem_write(m, a, v)),
        read_cell(mem_write(m, a, v), a.segment as int, a.offset as int) == Some(v),
{
    assert(write_cell_seq(m[a.segment as int], a.offset as int, v) =~= write_cells(
        m[a.segment as int],
        a.offset as int,
        seq![v],
    ));
    lemma_read_write_cells(m, a, seq![v]);
    assert(mem_write(m, a, v) =~~= mem_write_cells(m, a, seq![v]));
}

/// A decoded header run stays decodable, unchanged, in any memory that
/// preserves the written cells.
proof fn lemma_read_headers_preserved(
    m1: MemView,
    m2: MemView,
    seg: int,
    off: int,
    hs: Seq<BeaconHeaderCairo>,
)
    requires
        preserves_written(m1, m2),
        read_headers_cairo(m1, seg, off, hs.len()) == Some(hs),
    ensures
        read_headers_cairo(m2, seg, off, hs.len()) == Some(hs),
    decreases hs.len(),
{
    if hs.len() > 0 {
        let rest = hs.drop_first();
        assert(read_header_cairo(m1, seg, off) is Some && read_headers_cairo(
            m1,
            seg,
            off + 8,
            (hs.len() - 1) as nat,
        ) is Some);
        assert(read_headers_cairo(m1, seg, off + 8, rest.len()) == Some(rest)) by {
            assert(seq![read_header_cairo(m1, seg, off)->Some_0] + read_headers_cairo(
                m1,
                seg,
                off + 8,
                rest.len(),
            )->Some_0 == hs);
            assert((seq![hs[0]] + rest)[0] == hs[0]);
            assert(read_headers_cairo(m1, seg, off + 8, rest.len())->Some_0 =~= rest);
        }
        lemma_read_headers_preserved(m1, m2, seg, off + 8, rest);
        assert(read_header_cairo(m2, seg, off) == read_header_cairo(m1, seg, off));
        assert(seq![hs[0]] + rest =~= hs);
    }
}

/// Law: encoding a run of accumulator headers and then decoding the same
/// region recovers every header, in order, whatever the field values.
pub proof fn lemma_headers_cairo_round_trip(
    m: MemView,
    a: Address,
    hs: Seq<BeaconHeaderCairo>,
    m2: MemView,
    end: Address,
)
    requires
        write_headers_cairo_outcome(m, a, hs) == Ok::<(MemView, Address), (MemView, HintError)>(
            (m2, end),
        ),
    ensures
        read_headers_cairo(m2, a.segment as int, a.offset as int, hs.len()) == Some(hs),
        forall|sg: int, j: int|
            sg != a.segment || j < a.offset ==> read_cell(m2, sg, j) == #[trigger] read_cell(
                m,
                sg,
                j,
            ),
        m2.len() == m.len(),
    decreases hs.len(),
{
    if hs.len() == 0 {
        assert(hs =~= Seq::<BeaconHeaderCairo>::empty());
    } else {
        let cells = header_cairo_cells(hs[0]);
        let m1 = encode_header_cairo_mem(m, a, hs[0]);
        let a8 = a.at(8);
        lemma_read_write_cells(m, a, cells);
        lemma_headers_cairo_round_trip(m1, a8, hs.drop_first(), m2, end);
        assert(forall|j: int|
            a.offset <= j < a.offset + 8 ==> #[trigger] read_cell(m2, a.segment as int, j)
                == read_cell(m1, a.segment as int, j));
        assert(read_header_cairo(m2, a.segment as int, a.offset as int) == Some(hs[0]));
        assert(seq![hs[0]] + hs.drop_first() =~= hs);
    }
}

/// Law: after a successful bulk-input write (accumulator layout), decoding
/// the headers region recovers every added header, in order, and the count
/// cell holds exactly the number of added headers.
pub proof fn lemma_update_round_trip(
    m: MemView,
    u: BeaconMmrUpdateCairo,
    t: Seq<(String, Address)>,
    mf: MemView,
)
    requires
        write_beacon_input_outcome(m, Some(u), t) == Ok::<MemView, (MemView, HintError)>(mf),
    ensures
        ({
            let n = u.added_headers@.len();
            match table_lookup(t, "start_mmr_snapshot"@) {
                Some(a1) => match snapshot_cairo_outcome(m, a1, u.start_snapshot) {
                    Ok(m1) => match table_lookup(t, "end_mmr_snapshot"@) {
                        Some(a2) => match snapshot_cairo_outcome(m1, a2, u.end_snapshot) {
                            Ok(m2) => match pointer_outcome(m2, t, "headers"@) {
                                Ok(hbase) => {
                                    &&& read_headers_cairo(
                                        mf,
                                        hbase.segment as int,
                                        hbase.offset as int,
                                        n,
                                    ) == Some(u.added_headers@)
                                    &&& match table_lookup(t, "n_headers"@) {
                                        Some(na) => read_int(
                                            mf,
                                            na.segment as int,
                                            na.offset as int,
                                        ) == Some(felt_u64(n as u64)),
                                        None => false,
                                    }
                                },
                                Err(_) => false,
                            },
                            Err(_) => false,
                        },
                        None => false,
                    },
                    Err(_) => false,
                },
                None => false,
            }
        }),
{
    let a1 = table_lookup(t, "start_mmr_snapshot"@)->Some_0;
    let m1 = snapshot_cairo_outcome(m, a1, u.start_snapshot)->Ok_0;
    let a2 = table_lookup(t, "end_mmr_snapshot"@)->Some_0;
    let m2 = snapshot_cairo_outcome(m1, a2, u.end_snapshot)->Ok_0;
    let hbase = pointer_outcome(m2, t, "headers"@)->Ok_0;
    let hs = u.added_headers@;
    let folded = write_headers_cairo_outcome(m2, hbase, hs);
    let m3 = folded->Ok_0.0;
    let end = folded->Ok_0.1;
    lemma_headers_cairo_round_trip(m2, hbase, hs, m3, end);
    let na = table_lookup(t, "n_headers"@)->Some_0;
    let v = CellValue::Int(felt_u64(hs.len() as u64));
    assert(write_check(m3, na, v) is Ok);
    assert(mf == mem_write(m3, na, v));
    lemma_write_preserves_written(m3, na, v);
    lemma_read_headers_preserved(m3, mf, hbase.segment as int, hbase.offset as int, hs);
}

/// Law: encoding an accumulator snapshot and then decoding it through the
/// inverse layout recovers both roots, the element count, the computed peak
/// count, and both peak sequences in their original order. The carried
/// `leafs_count` is not serialized and so not recovered.
pub proof fn lemma_snapshot_cairo_round_trip(m: MemView, a: Address, s: MmrSnapshotCairo)
    requires
        s.peaks_parallel(),
        region_check(m, a, 7) is Ok,
        m.len() + 2 <= usize::MAX,
    ensures
        ({
            let mf = encode_snapshot_cairo_mem(m, a, s);
            let seg = a.segment as int;
            let off = a.offset as int;
            &&& read_u256(mf, seg, off) == Some(s.keccak_root)
            &&& read_int(mf, seg, off + 2) == Some(s.poseidon_root)
            &&& read_int(mf, seg, off + 3) == Some(s.elements_count)
            &&& read_int(mf, seg, off + 6) == Some(
                felt_u64(s.poseidon_peaks@.len() as u64),
            )
            &&& match read_ptr(mf, seg, off + 4) {
                Some(k) => read_u256s(
                    mf,
                    k.segment as int,
                    k.offset as int,
                    s.keccak_peaks@.len(),
                ) == Some(s.keccak_peaks@),
                None => false,
            }
            &&& match read_ptr(mf, seg, off + 5) {
                Some(p) => read_felts(
                    mf,
                    p.segment as int,
                    p.offset as int,
                    s.poseidon_peaks@.len(),
                ) == Some(s.poseidon_peaks@),
                None => false,
            }
        }),
{
    let kseg = Address { segment: m.len() as usize, offset: 0 };
    let pseg = Address { segment: (m.len() + 1) as usize, offset: 0 };
    let cells = snapshot_cairo_cells(s, kseg, pseg);
    let mf = encode_snapshot_cairo_mem(m, a, s);
    let seg = a.segment as int;
    let off = a.offset as int;
    lemma_read_write_cells(m, a, cells);
    assert(forall|j: int|
        a.offset <= j < a.offset + 7 ==> #[trigger] read_cell(mf, seg, j) == read_cell(
            mem_write_cells(m, a, cells),
            seg,
            j,
        ));
    assert(read_cell(mf, seg, off) == Some(cells[0]));
    assert(read_cell(mf, seg, off + 1) == Some(cells[1]));
    assert(read_cell(mf, seg, off + 2) == Some(cells[2]));
    assert(read_cell(mf, seg, off + 3) == Some(cells[3]));
    assert(read_cell(mf, seg, off + 4) == Some(cells[4]));
    assert(read_cell(mf, seg, off + 5) == Some(cells[5]));
    assert(read_cell(mf, seg, off + 6) == Some(cells[6]));
    let us = s.keccak_peaks@;
    crate::codec::lemma_u256s_cells_len(us);
    assert(mf[kseg.segment as int] == seg_of(u256s_cells(us)));
    assert forall|k: int| 0 <= k < us.len() implies read_cell(mf, kseg.segment as int, 2 * k)
        == Some(CellValue::Int(#[trigger] us[k].low)) && read_cell(
        mf,
        kseg.segment as int,
        2 * k + 1,
    ) == Some(CellValue::Int(us[k].high)) by {
        lemma_u256s_cells_index(us, k);
    }
    lemma_read_u256s_from_cells(mf, kseg.segment as int, 0, us);
    let fs = s.poseidon_peaks@;
    assert(mf[pseg.segment as int] == seg_of(felt_cells(fs)));
    assert(forall|j: int|
        0 <= j < fs.len() ==> read_cell(mf, pseg.segment as int, j) == Some(
            CellValue::Int(#[trigger] fs[j]),
        ));
    lemma_read_felts_from_cells(mf, pseg.segment as int, 0, fs);
}


/// A run of field elements cannot be read when its last cell does not exist.
proof fn lemma_read_felts_missing_tail(m: MemView, seg: int, off: int, n: nat)
    requires
        n > 0,
        read_cell(m, seg, off + n - 1) is None,
    ensures
        read_felts(m, seg, off, n) is None,
    decreases n,
{
    if n > 1 {
        lemma_read_felts_missing_tail(m, seg, off + 1, (n - 1) as nat);
    }
}

/// A run of 256-bit integers cannot be read when its last cell does not exist.
proof fn lemma_read_u256s_missing_tail(m: MemView, seg: int, off: int, n: nat)
    requires
        n > 0,
        read_cell(m, seg, off + 2 * n - 1) is None,
    ensures
        read_u256s(m, seg, off, n) is None,
    decreases n,
{
    if n > 1 {
        lemma_read_u256s_missing_tail(m, seg, off + 2, (n - 1) as nat);
    }
}

/// The inverse of the grower snapshot layout: the six fixed cells, then both
/// peak runs, with the peak count taken from the stored count cell.
pub open spec fn decode_snapshot_spec(m: MemView, a: Address) -> Option<
    (Felt, Felt, Seq<Felt>, Uint256, Seq<Uint256>, Felt),
> {
    let seg = a.segment as int;
    let off = a.offset as int;
    match (
        read_int(m, seg, off),
        read_int(m, seg, off + 1),
        read_ptr(m, seg, off + 2),
        read_u256(m, seg, off + 3),
        read_ptr(m, seg, off + 5),
        read_int(m, seg, off + 6),
    ) {
        (Some(size), Some(proot), Some(pp), Some(kroot), Some(kp), Some(plen)) => {
            match (
                read_felts(m, pp.segment as int, pp.offset as int, plen.value()),
                read_u256s(m, kp.segment as int, kp.offset as int, plen.value()),
            ) {
                (Some(ppeaks), Some(kpeaks)) => Some((size, proot, ppeaks, kroot, kpeaks, plen)),
                _ => None,
            }
        },
        _ => None,
    }
}

/// Read a run of `count` field-element cells from `base`.
fn read_felts_exec(mem: &Memory, base: Address, count: usize) -> (r: Option<Vec<Felt>>)
    ensures
        match r {
            Some(v) => {
                &&& read_felts(mem@, base.segment as int, base.offset as int, count as nat)
                    == Some(v@)
                &&& v@.len() == count
            },
            None => read_felts(mem@, base.segment as int, base.offset as int, count as nat)
                is None,
        },
{
    proof {
        mem.lemma_view_bounds();
    }
    if count > 0 && base.offset > usize::MAX - (count - 1) {
        proof {
            lemma_read_felts_missing_tail(
                mem@,
                base.segment as int,
                base.offset as int,
                count as nat,
            );
        }
        return None;
    }
    let mut acc: Vec<Felt> = Vec::new();
    let mut i: usize = 0;
    proof {
        let whole = read_felts(mem@, base.segment as int, base.offset as int, count as nat);
        if whole is Some {
            assert(acc@ + whole->Some_0 =~= whole->Some_0);
        }
    }
    while i < count
        invariant
            i <= count,
            base.offset + count <= usize::MAX + 1,
            acc@.len() == i,
            ({
                let whole = read_felts(
                    mem@,
                    base.segment as int,
                    base.offset as int,
                    count as nat,
                );
                let rest = read_felts(
                    mem@,
                    base.segment as int,
                    base.offset + i,
                    (count - i) as nat,
                );
                whole == match rest {
                    Some(tail) => Some(acc@ + tail),
                    None => None,
                }
            }),
        decreases count - i,
    {
        let x = match mem.get(Address { segment: base.segment, offset: base.offset + i }) {
            Some(CellValue::Int(x)) => x,
            _ => {
                return None;
            },
        };
        acc.push(x);
        proof {
            let rest = read_felts(mem@, base.segment as int, base.offset + i, (count - i) as nat);
            if rest is Some {
                assert(acc@.drop_last() + rest->Some_0 =~= acc@ + (rest->Some_0).drop_first());
            }
        }
        i = i + 1;
    }
    proof {
        let whole = read_felts(mem@, base.segment as int, base.offset as int, count as nat);
        assert(acc@ + Seq::<Felt>::empty() =~= acc@);
        assert(whole == Some(acc@));
    }
    Some(acc)
}

/// Read a run of `count` 256-bit cell pairs from `base`.
fn read_u256s_exec(mem: &Memory, base: Address, count: usize) -> (r: Option<Vec<Uint256>>)
    ensures
        match r {
            Some(v) => {
                &&& read_u256s(mem@, base.segment as int, base.offset as int, count as nat)
                    == Some(v@)
                &&& v@.len() == count
            },
            None => read_u256s(mem@, base.segment as int, base.offset as int, count as nat)
                is None,
        },
{
    proof {
        mem.lemma_view_bounds();
    }
    if count > 0 && (base.offset as u128) + 2 * (count as u128) - 1 > (usize::MAX as u128) {
        proof {
            lemma_read_u256s_missing_tail(
                mem@,
                base.segment as int,
                base.offset as int,
                count as nat,
            );
        }
        return None;
    }
    let mut acc: Vec<Uint256> = Vec::new();
    let mut i: usize = 0;
    proof {
        let whole = read_u256s(mem@, base.segment as int, base.offset as int, count as nat);
        if whole is Some {
            assert(acc@ + whole->Some_0 =~= whole->Some_0);
        }
    }
    while i < count
        invariant
            i <= count,
            base.offset + 2 * count <= usize::MAX + 1,
            acc@.len() == i,
            ({
                let whole = read_u256s(
                    mem@,
                    base.segment as int,
                    base.offset as int,
                    count as nat,
                );
                let rest = read_u256s(
                    mem@,
                    base.segment as int,
                    base.offset + 2 * i,
                    (count - i) as nat,
                );
                whole == match rest {
                    Some(tail) => Some(acc@ + tail),
                    None => None,
                }
            }),
        decreases count - i,
    {
        let lo = match mem.get(Address { segment: base.segment, offset: base.offset + 2 * i }) {
            Some(CellValue::Int(x)) => x,
            _ => {
                return None;
            },
        };
        let hi = match mem.get(
            Address { segment: base.segment, offset: base.offset + 2 * i + 1 },
        ) {
            Some(CellValue::Int(x)) => x,
            _ => {
                return None;
            },
        };
        acc.push(Uint256 { low: lo, high: hi });
        proof {
            let rest = read_u256s(
                mem@,
                base.segment as int,
                base.offset + 2 * i,
                (count - i) as nat,
            );
            if rest is Some {
                assert(acc@.drop_last() + rest->Some_0 =~= acc@ + (rest->Some_0).drop_first());
            }
        }
        i = i + 1;
    }
    proof {
        let whole = read_u256s(mem@, base.segment as int, base.offset as int, count as nat);
        assert(acc@ + Seq::<Uint256>::empty() =~= acc@);
        assert(whole == Some(acc@));
    }
    Some(acc)
}

/// The host-side mirror decode of a grower snapshot: read the record back out
/// of memory through the inverse layout. The result, when there is one, is a
/// fully valid snapshot.
pub fn decode_snapshot(mem: &Memory, address: Address) -> (r: Option<MmrSnapshot>)
    ensures
        match r {
            Some(s) => {
                &&& decode_snapshot_spec(mem@, address) == Some(
                    (
                        s.size,
                        s.poseidon_root,
                        s.poseidon_peaks@,
                        s.keccak_root,
                        s.keccak_peaks@,
                        s.peaks_len,
                    ),
                )
                &&& s.valid()
            },
            None => decode_snapshot_spec(mem@, address) is None,
        },
{
    proof {
        mem.lemma_view_bounds();
    }
    if address.offset > usize::MAX - 6 {
        return None;
    }
    let seg = address.segment;
    let size = match mem.get(Address { segment: seg, offset: address.offset }) {
        Some(CellValue::Int(x)) => x,
        _ => {
            return None;
        },
    };
    let proot = match mem.get(Address { segment: seg, offset: address.offset + 1 }) {
        Some(CellValue::Int(x)) => x,
        _ => {
            return None;
        },
    };
    let pp = match mem.get(Address { segment: seg, offset: address.offset + 2 }) {
        Some(CellValue::Ptr(p)) => p,
        _ => {
            return None;
        },
    };
    let klo = match mem.get(Address { segment: seg, offset: address.offset + 3 }) {
        Some(CellValue::Int(x)) => x,
        _ => {
            return None;
        },
    };
    let khi = match mem.get(Address { segment: seg, offset: address.offset + 4 }) {
        Some(CellValue::Int(x)) => x,
        _ => {
            return None;
        },
    };
    let kp = match mem.get(Address { segment: seg, offset: address.offset + 5 }) {
        Some(CellValue::Ptr(p)) => p,
        _ => {
            return None;
        },
    };
    let plen = match mem.get(Address { segment: seg, offset: address.offset + 6 }) {
        Some(CellValue::Int(x)) => x,
        _ => {
            return None;
        },
    };
    let ghost n = plen.value();
    if plen.l1 != 0 || plen.l2 != 0 || plen.l3 != 0 {
        // The stored count cannot index a cell: the run's last cell is
        // past every offset a segment can hold.
        proof {
            crate::felt::lemma_limb_floor(plen);
            lemma_read_felts_missing_tail(mem@, pp.segment as int, pp.offset as int, n);
        }
        return None;
    }
    let count_u64 = plen.l0;
    if count_u64 > (usize::MAX as u64) {
        proof {
            lemma_read_felts_missing_tail(mem@, pp.segment as int, pp.offset as int, n);
        }
        return None;
    }
    let count = count_u64 as usize;
    let ppeaks = match read_felts_exec(mem, pp, count) {
        Some(v) => v,
        None => {
            return None;
        },
    };
    let kpeaks = match read_u256s_exec(mem, kp, count) {
        Some(v) => v,
        None => {
            return None;
        },
    };
    proof {
        assert(n == count as nat);
        assert(read_felts(mem@, pp.segment as int, pp.offset as int, n) == Some(ppeaks@));
        assert(read_u256s(mem@, kp.segment as int, kp.offset as int, n) == Some(kpeaks@));
    }
    Some(
        MmrSnapshot {
            size,
            poseidon_root: proot,
            poseidon_peaks: ppeaks,
            keccak_root: Uint256 { low: klo, high: khi },
            keccak_peaks: kpeaks,
            peaks_len: plen,
        },
    )
}


/// The host-side mirror decode of one accumulator-layout header.
pub fn decode_header_cairo(mem: &Memory, address: Address) -> (r: Option<BeaconHeaderCairo>)
    ensures
        r == read_header_cairo(mem@, address.segment as int, address.offset as int),
{
    proof {
        mem.lemma_view_bounds();
    }
    if address.offset > usize::MAX - 7 {
        return None;
    }
    let seg = address.segment;
    let slot = match mem.get(Address { segment: seg, offset: address.offset }) {
        Some(CellValue::Int(x)) => x,
        _ => {
            return None;
        },
    };
    let proposer = match mem.get(Address { segment: seg, offset: address.offset + 1 }) {
        Some(CellValue::Int(x)) => x,
        _ => {
            return None;
        },
    };
    let plo = match mem.get(Address { segment: seg, offset: address.offset + 2 }) {
        Some(CellValue::Int(x)) => x,
        _ => {
            return None;
        },
    };
    let phi = match mem.get(Address { segment: seg, offset: address.offset + 3 }) {
        Some(CellValue::Int(x)) => x,
        _ => {
            return None;
        },
    };
    let slo = match mem.get(Address { segment: seg, offset: address.offset + 4 }) {
        Some(CellValue::Int(x)) => x,
        _ => {
            return None;
        },
    };
    let shi = match mem.get(Address { segment: seg, offset: address.offset + 5 }) {
        Some(CellValue::Int(x)) => x,
        _ => {
            return None;
        },
    };
    let blo = match mem.get(Address { segment: seg, offset: address.offset + 6 }) {
        Some(CellValue::Int(x)) => x,
        _ => {
            return None;
        },
    };
    let bhi = match mem.get(Address { segment: seg, offset: address.offset + 7 }) {
        Some(CellValue::Int(x)) => x,
        _ => {
            return None;
        },
    };
    Some(
        BeaconHeaderCairo {
            slot,
            proposer_index: proposer,
            parent_root: Uint256 { low: plo, high: phi },
            state_root: Uint256 { low: slo, high: shi },
            body_root: Uint256 { low: blo, high: bhi },
        },
    )
}

/// The host-side mirror decode of a run of `count` accumulator-layout headers.
pub fn decode_headers_cairo(mem: &Memory, base: Address, count: usize) -> (r: Option<
    Vec<BeaconHeaderCairo>,
>)
    ensures
        match r {
            Some(v) => {
                &&& read_headers_cairo(
                    mem@,
                    base.segment as int,
                    base.offset as int,
                    count as nat,
                ) == Some(v@)
                &&& v@.len() == count
            },
            None => read_headers_cairo(
                mem@,
                base.segment as int,
                base.offset as int,
                count as nat,
            ) is None,
        },
{
    proof {
        mem.lemma_view_bounds();
    }
    let mut acc: Vec<BeaconHeaderCairo> = Vec::new();
    let mut cursor = base;
    let mut i: usize = 0;
    proof {
        let whole = read_headers_cairo(mem@, base.segment as int, base.offset as int, count as nat);
        if whole is Some {
            assert(acc@ + whole->Some_0 =~= whole->Some_0);
        }
    }
    while i < count
        invariant
            i <= count,
            acc@.len() == i,
            cursor.segment == base.segment,
            cursor.offset == base.offset + 8 * i,
            ({
                let whole = read_headers_cairo(
                    mem@,
                    base.segment as int,
                    base.offset as int,
                    count as nat,
                );
                let rest = read_headers_cairo(
                    mem@,
                    cursor.segment as int,
                    cursor.offset as int,
                    (count - i) as nat,
                );
                whole == match rest {
                    Some(tail) => Some(acc@ + tail),
                    None => None,
                }
            }),
        decreases count - i,
    {
        let h = match decode_header_cairo(mem, cursor) {
            Some(h) => h,
            None => {
                return None;
            },
        };
        proof {
            // The header's last cell exists, so the next base fits.
            mem.lemma_view_bounds();
            assert(read_cell(mem@, cursor.segment as int, cursor.offset + 7) is Some);
        }
        acc.push(h);
        proof {
            let rest = read_headers_cairo(
                mem@,
                cursor.segment as int,
                cursor.offset as int,
                (count - i) as nat,
            );
            if rest is Some {
                assert(acc@.drop_last() + rest->Some_0 =~= acc@ + (rest->Some_0).drop_first());
            }
        }
        cursor = Address { segment: cursor.segment, offset: cursor.offset + 8 };
        i = i + 1;
    }
    proof {
        let whole = read_headers_cairo(mem@, base.segment as int, base.offset as int, count as nat);
        assert(acc@ + Seq::<BeaconHeaderCairo>::empty() =~= acc@);
        assert(whole == Some(acc@));
    }
    Some(acc)
}

} // verus!
