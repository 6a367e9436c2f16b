use mmr_hints::decode::decode_snapshot;
use mmr_hints::error::HintError;
use mmr_hints::felt::{Felt, Uint256};
use mmr_hints::memory::{Address, CellValue, Memory};
use mmr_hints::types::{
    BeaconHeader, BeaconHeaderCairo, LastLeafProof, LastLeafProofCairo, MmrSnapshot,
    MmrSnapshotCairo,
};

fn felt(n: u64) -> Felt {
    Felt::from_u64(n)
}

fn u256(low: u128, high: u128) -> Uint256 {
    Uint256::from_u128_pair(low, high)
}

fn at(segment: usize, offset: usize) -> Address {
    Address { segment, offset }
}

fn int_cell(n: u64) -> Option<CellValue> {
    Some(CellValue::Int(Felt::from_u64(n)))
}

fn snapshot(peaks: &[u64]) -> MmrSnapshot {
    MmrSnapshot {
        size: felt(100),
        poseidon_root: felt(111),
        poseidon_peaks: peaks.iter().map(|&p| felt(p)).collect(),
        keccak_root: u256(222, 333),
        keccak_peaks: peaks.iter().map(|&p| u256(p as u128, 0)).collect(),
        peaks_len: felt(peaks.len() as u64),
    }
}

#[test]
fn header_encoding_advances_exactly_eight_cells() {
    let mut mem = Memory::new();
    mem.add_segment();
    let header = BeaconHeader {
        slot: felt(7),
        proposer_index: felt(9),
        parent_root: u256(1, 2),
        state_root: u256(3, 4),
        body_root: u256(5, 6),
    };
    let end = header.to_memory(&mut mem, at(0, 0)).unwrap();
    assert_eq!(end, at(0, 8));
    // Arbitrary magnitudes advance the cursor just the same.
    let huge = BeaconHeader {
        slot: Felt::from_limbs(u64::MAX, u64::MAX, u64::MAX, 0x800000000000010).unwrap(),
        proposer_index: felt(0),
        parent_root: u256(u128::MAX, u128::MAX),
        state_root: u256(0, u128::MAX),
        body_root: u256(u128::MAX, 0),
    };
    let end = huge.to_memory(&mut mem, at(0, 8)).unwrap();
    assert_eq!(end, at(0, 16));
    assert_eq!(BeaconHeader::n_fields(), 8);
    assert_eq!(BeaconHeaderCairo::n_fields(), 8);
}

#[test]
fn header_layout_is_slot_proposer_then_roots() {
    let mut mem = Memory::new();
    mem.add_segment();
    let header = BeaconHeader {
        slot: felt(7),
        proposer_index: felt(9),
        parent_root: u256(1, 2),
        state_root: u256(3, 4),
        body_root: u256(5, 6),
    };
    header.to_memory(&mut mem, at(0, 0)).unwrap();
    assert_eq!(mem.get(at(0, 0)), int_cell(7));
    assert_eq!(mem.get(at(0, 1)), int_cell(9));
    assert_eq!(mem.get(at(0, 2)), int_cell(1)); // parent low
    assert_eq!(mem.get(at(0, 3)), int_cell(2)); // parent high
    assert_eq!(mem.get(at(0, 4)), int_cell(3)); // state low
    assert_eq!(mem.get(at(0, 5)), int_cell(4)); // state high
    assert_eq!(mem.get(at(0, 6)), int_cell(5)); // body low
    assert_eq!(mem.get(at(0, 7)), int_cell(6)); // body high
}

#[test]
fn snapshot_encoding_advances_exactly_seven_cells() {
    for peaks in [&[][..], &[4][..], &[4, 5, 6][..]] {
        let mut mem = Memory::new();
        mem.add_segment();
        let end = snapshot(peaks).to_memory(&mut mem, at(0, 0)).unwrap();
        assert_eq!(end, at(0, 7));
    }
    assert_eq!(MmrSnapshot::n_fields(), 7);
    assert_eq!(MmrSnapshotCairo::n_fields(), 7);
}

#[test]
fn snapshot_mirror_decode_recovers_the_fields() {
    let mut mem = Memory::new();
    mem.add_segment();
    let s = snapshot(&[4, 5]);
    s.to_memory(&mut mem, at(0, 0)).unwrap();
    // Mirror decode through the declared layout.
    assert_eq!(mem.get(at(0, 0)), int_cell(100)); // size
    assert_eq!(mem.get(at(0, 1)), int_cell(111)); // poseidon root
    let pseg = match mem.get(at(0, 2)) {
        Some(CellValue::Ptr(p)) => p,
        other => panic!("expected poseidon peaks pointer, got {:?}", other),
    };
    assert_eq!(mem.get(at(0, 3)), int_cell(222)); // keccak root low
    assert_eq!(mem.get(at(0, 4)), int_cell(333)); // keccak root high
    let kseg = match mem.get(at(0, 5)) {
        Some(CellValue::Ptr(p)) => p,
        other => panic!("expected keccak peaks pointer, got {:?}", other),
    };
    assert_eq!(mem.get(at(0, 6)), int_cell(2)); // stored peak count
    // Peak segments hold the sequences in original order.
    assert_eq!(mem.get(pseg), int_cell(4));
    assert_eq!(mem.get(at(pseg.segment, 1)), int_cell(5));
    assert_eq!(mem.get(at(pseg.segment, 2)), None);
    assert_eq!(mem.get(kseg), int_cell(4)); // first keccak peak, low half
    assert_eq!(mem.get(at(kseg.segment, 1)), int_cell(0)); // high half
    assert_eq!(mem.get(at(kseg.segment, 2)), int_cell(5));
    assert_eq!(mem.get(at(kseg.segment, 3)), int_cell(0));
    assert_eq!(mem.get(at(kseg.segment, 4)), None);
}

#[test]
fn mismatched_peaks_fail_before_any_write() {
    let mut mem = Memory::new();
    mem.add_segment();
    let before = mem.segments.clone();
    let s = MmrSnapshot {
        size: felt(1),
        poseidon_root: felt(2),
        poseidon_peaks: vec![felt(3), felt(4)],
        keccak_root: u256(5, 6),
        keccak_peaks: vec![u256(7, 0)],
        peaks_len: felt(2),
    };
    assert_eq!(
        s.to_memory(&mut mem, at(0, 0)),
        Err(HintError::PeaksLengthMismatch)
    );
    assert_eq!(mem.segments, before);
}

#[test]
fn mismatched_cairo_peaks_fail_before_any_write() {
    let mut mem = Memory::new();
    mem.add_segment();
    let before = mem.segments.clone();
    let s = MmrSnapshotCairo {
        keccak_root: u256(1, 2),
        poseidon_root: felt(3),
        elements_count: felt(9),
        leafs_count: felt(5),
        keccak_peaks: vec![],
        poseidon_peaks: vec![felt(8)],
    };
    assert_eq!(
        s.to_memory(&mut mem, at(0, 0)),
        Err(HintError::PeaksLengthMismatch)
    );
    assert_eq!(mem.segments, before);
}

#[test]
fn cairo_snapshot_orders_keccak_first_and_computes_the_count() {
    let mut mem = Memory::new();
    mem.add_segment();
    let s = MmrSnapshotCairo {
        keccak_root: u256(10, 20),
        poseidon_root: felt(30),
        elements_count: felt(40),
        leafs_count: felt(50), // never serialized
        keccak_peaks: vec![u256(60, 0)],
        poseidon_peaks: vec![felt(70)],
    };
    let end = s.to_memory(&mut mem, at(0, 0)).unwrap();
    assert_eq!(end, at(0, 7));
    assert_eq!(mem.get(at(0, 0)), int_cell(10)); // keccak root low
    assert_eq!(mem.get(at(0, 1)), int_cell(20)); // keccak root high
    assert_eq!(mem.get(at(0, 2)), int_cell(30)); // poseidon root
    assert_eq!(mem.get(at(0, 3)), int_cell(40)); // element count
    let kseg = match mem.get(at(0, 4)) {
        Some(CellValue::Ptr(p)) => p,
        other => panic!("expected keccak peaks pointer, got {:?}", other),
    };
    let pseg = match mem.get(at(0, 5)) {
        Some(CellValue::Ptr(p)) => p,
        other => panic!("expected poseidon peaks pointer, got {:?}", other),
    };
    assert_eq!(mem.get(at(0, 6)), int_cell(1)); // computed peak count
    assert!(kseg.segment < pseg.segment); // keccak segment allocated first
    assert_eq!(mem.get(kseg), int_cell(60));
    assert_eq!(mem.get(pseg), int_cell(70));
    // The leafs count 50 is nowhere in the record's cells.
    for off in 0..7 {
        assert_ne!(mem.get(at(0, off)), int_cell(50));
    }
}

#[test]
fn last_leaf_proof_layout_and_validation() {
    let mut mem = Memory::new();
    mem.add_segment();
    let p = LastLeafProof {
        header_root: u256(1, 2),
        header_position: felt(3),
        path_len: felt(1),
        poseidon_path: vec![felt(4)],
        keccak_path: vec![u256(5, 0)],
    };
    let end = p.to_memory(&mut mem, at(0, 0)).unwrap();
    assert_eq!(end, at(0, 6));
    assert_eq!(LastLeafProof::n_fields(), 6);
    assert_eq!(LastLeafProofCairo::n_fields(), 6);
    assert_eq!(mem.get(at(0, 0)), int_cell(1)); // header root low
    assert_eq!(mem.get(at(0, 1)), int_cell(2)); // header root high
    assert_eq!(mem.get(at(0, 2)), int_cell(3)); // position
    assert_eq!(mem.get(at(0, 3)), int_cell(1)); // path length
    assert!(matches!(mem.get(at(0, 4)), Some(CellValue::Ptr(_))));
    assert!(matches!(mem.get(at(0, 5)), Some(CellValue::Ptr(_))));

    let mut mem2 = Memory::new();
    mem2.add_segment();
    let before = mem2.segments.clone();
    let bad = LastLeafProofCairo {
        header_root: u256(1, 2),
        header_position: felt(3),
        path_len: felt(2),
        poseidon_path: vec![felt(4), felt(5)],
        keccak_path: vec![u256(6, 0)],
    };
    assert_eq!(
        bad.to_memory(&mut mem2, at(0, 0)),
        Err(HintError::PathsLengthMismatch)
    );
    assert_eq!(mem2.segments, before);
}

#[test]
fn encoding_into_an_occupied_region_leaves_memory_unchanged() {
    let mut mem = Memory::new();
    mem.add_segment();
    mem.insert_value(at(0, 3), CellValue::Int(felt(77))).unwrap();
    let before = mem.segments.clone();
    let s = snapshot(&[1]);
    match s.to_memory(&mut mem, at(0, 0)) {
        Err(HintError::Memory(_)) => {}
        other => panic!("expected a memory error, got {:?}", other),
    }
    assert_eq!(mem.segments, before);
}

#[test]
fn snapshot_encode_then_decode_is_the_identity() {
    for peaks in [&[][..], &[4][..], &[4, 5, 6][..]] {
        let mut mem = Memory::new();
        mem.add_segment();
        let s = snapshot(peaks);
        s.to_memory(&mut mem, at(0, 0)).unwrap();
        let decoded = decode_snapshot(&mem, at(0, 0)).unwrap();
        assert_eq!(decoded, s);
    }
}

#[test]
fn decoding_an_unwritten_region_yields_nothing() {
    let mut mem = Memory::new();
    mem.add_segment();
    assert!(decode_snapshot(&mem, at(0, 0)).is_none());
    assert!(decode_snapshot(&mem, at(5, 0)).is_none());
}

#[test]
fn stored_peak_count_must_match_the_peaks() {
    let mut mem = Memory::new();
    mem.add_segment();
    let before = mem.segments.clone();
    // Parallel peak sequences, but the stored count disagrees with them.
    let s = MmrSnapshot {
        size: felt(1),
        poseidon_root: felt(2),
        poseidon_peaks: vec![felt(3), felt(4)],
        keccak_root: u256(5, 6),
        keccak_peaks: vec![u256(7, 0), u256(8, 0)],
        peaks_len: felt(3),
    };
    assert_eq!(
        s.to_memory(&mut mem, at(0, 0)),
        Err(HintError::PeaksLengthMismatch)
    );
    assert_eq!(mem.segments, before);
}

#[test]
fn stored_path_length_must_match_the_paths() {
    let mut mem = Memory::new();
    mem.add_segment();
    let before = mem.segments.clone();
    // Parallel path sequences, but the stored length disagrees with them.
    let p = LastLeafProof {
        header_root: u256(1, 2),
        header_position: felt(3),
        path_len: felt(2),
        poseidon_path: vec![felt(4)],
        keccak_path: vec![u256(5, 0)],
    };
    assert_eq!(
        p.to_memory(&mut mem, at(0, 0)),
        Err(HintError::PathsLengthMismatch)
    );
    let q = LastLeafProofCairo {
        header_root: u256(1, 2),
        header_position: felt(3),
        path_len: felt(0),
        poseidon_path: vec![felt(4)],
        keccak_path: vec![u256(5, 0)],
    };
    assert_eq!(
        q.to_memory(&mut mem, at(0, 0)),
        Err(HintError::PathsLengthMismatch)
    );
    assert_eq!(mem.segments, before);
}
