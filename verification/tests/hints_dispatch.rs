use mmr_hints::decode::decode_headers_cairo;
use mmr_hints::error::HintError;
use mmr_hints::felt::{Felt, Uint256};
use mmr_hints::hints::{
    hint_is_position_in_mmr_array, mmr_bit_length, mmr_left_child, write_beacon_input, VarTable,
};
use mmr_hints::memory::{Address, CellValue, Memory};
use mmr_hints::processor::{
    get_hints, CustomHintProcessor, LayoutVariant, HINT_IS_POSITION_IN_MMR_ARRAY,
    HINT_WRITE_BEACON_INPUT, MMR_BIT_LENGTH, MMR_LEFT_CHILD,
};
use mmr_hints::types::{
    BeaconHeader, BeaconHeaderCairo, BeaconHeaderWithRoot, BeaconMmrUpdateCairo, ChainIntegration,
    LastLeafProof, MmrInput, MmrSnapshot, MmrSnapshotCairo, RunContext,
};

fn felt(n: u64) -> Felt {
    Felt::from_u64(n)
}

fn u256(low: u128, high: u128) -> Uint256 {
    Uint256::from_u128_pair(low, high)
}

fn at(segment: usize, offset: usize) -> Address {
    Address { segment, offset }
}

fn int_cell(n: u64) -> Option<CellValue> {
    Some(CellValue::Int(Felt::from_u64(n)))
}

/// One frame segment with `mmr_len` at offset 0 and the result cells after it.
fn arithmetic_frame(names: &[(&str, u64)], result: &str) -> (Memory, VarTable) {
    let mut mem = Memory::new();
    mem.add_segment();
    let mut vars = VarTable::new();
    let mut off: usize = 0;
    for (name, value) in names {
        vars.insert(name, at(0, off));
        mem.insert_value(at(0, off), CellValue::Int(felt(*value))).unwrap();
        off += 1;
    }
    vars.insert(result, at(0, off));
    (mem, vars)
}

#[test]
fn bit_length_hint_values() {
    for (input, expected) in [(0, 0), (1, 1), (7, 3), (8, 4)] {
        let (mut mem, vars) = arithmetic_frame(&[("mmr_len", input)], "bit_length");
        mmr_bit_length(&mut mem, &vars).unwrap();
        assert_eq!(mem.get(at(0, 1)), int_cell(expected));
    }
}

#[test]
fn left_child_membership_is_an_inclusive_boundary() {
    let (mut mem, vars) = arithmetic_frame(&[("left_child", 5), ("mmr_len", 5)], "in_mmr");
    mmr_left_child(&mut mem, &vars).unwrap();
    assert_eq!(mem.get(at(0, 2)), int_cell(1));

    let (mut mem, vars) = arithmetic_frame(&[("left_child", 6), ("mmr_len", 5)], "in_mmr");
    mmr_left_child(&mut mem, &vars).unwrap();
    assert_eq!(mem.get(at(0, 2)), int_cell(0));
}

#[test]
fn position_membership_is_a_strict_boundary() {
    let (mut mem, vars) = arithmetic_frame(
        &[("position", 5), ("mmr_offset", 5)],
        "is_position_in_mmr_array",
    );
    hint_is_position_in_mmr_array(&mut mem, &vars).unwrap();
    assert_eq!(mem.get(at(0, 2)), int_cell(0));

    let (mut mem, vars) = arithmetic_frame(
        &[("position", 6), ("mmr_offset", 5)],
        "is_position_in_mmr_array",
    );
    hint_is_position_in_mmr_array(&mut mem, &vars).unwrap();
    assert_eq!(mem.get(at(0, 2)), int_cell(1));
}

#[test]
fn missing_variable_is_reported() {
    let mut mem = Memory::new();
    mem.add_segment();
    let vars = VarTable::new();
    assert_eq!(
        mmr_bit_length(&mut mem, &vars),
        Err(HintError::IdentifierNotFound)
    );
}

#[test]
fn pointer_cell_is_no_integer() {
    let mut mem = Memory::new();
    mem.add_segment();
    let mut vars = VarTable::new();
    vars.insert("mmr_len", at(0, 0));
    vars.insert("bit_length", at(0, 1));
    mem.insert_value(at(0, 0), CellValue::Ptr(at(0, 5))).unwrap();
    assert_eq!(
        mmr_bit_length(&mut mem, &vars),
        Err(HintError::ExpectedInteger(at(0, 0)))
    );
}

fn cairo_snapshot(tag: u64, peaks: &[u64]) -> MmrSnapshotCairo {
    MmrSnapshotCairo {
        keccak_root: u256(tag as u128, 1),
        poseidon_root: felt(tag + 1),
        elements_count: felt(tag + 2),
        leafs_count: felt(tag + 3),
        keccak_peaks: peaks.iter().map(|&p| u256(p as u128, 0)).collect(),
        poseidon_peaks: peaks.iter().map(|&p| felt(p)).collect(),
    }
}

fn cairo_header(tag: u64) -> BeaconHeaderCairo {
    BeaconHeaderCairo {
        slot: felt(tag),
        proposer_index: felt(tag + 1),
        parent_root: u256(tag as u128 + 2, 0),
        state_root: u256(tag as u128 + 3, 0),
        body_root: u256(tag as u128 + 4, 0),
    }
}

/// A frame for the bulk-input hint: snapshot regions in segment 0, the headers
/// array in its own segment pointed to by the `headers` variable's cell.
fn update_frame() -> (Memory, VarTable) {
    let mut mem = Memory::new();
    mem.add_segment();
    let headers_seg = mem.add_segment();
    let mut vars = VarTable::new();
    vars.insert("start_mmr_snapshot", at(0, 0));
    vars.insert("end_mmr_snapshot", at(0, 7));
    vars.insert("headers", at(0, 14));
    vars.insert("n_headers", at(0, 15));
    mem.insert_value(at(0, 14), CellValue::Ptr(headers_seg)).unwrap();
    (mem, vars)
}

fn run_update_round_trip(n_headers: u64) {
    let (mut mem, vars) = update_frame();
    let headers: Vec<BeaconHeaderCairo> = (0..n_headers).map(|k| cairo_header(10 * k + 100)).collect();
    let update = BeaconMmrUpdateCairo {
        start_snapshot: cairo_snapshot(10, &[4]),
        end_snapshot: cairo_snapshot(20, &[4, 5]),
        added_headers: headers.clone(),
        last_leaf_proof: None,
    };
    let mut ctx = RunContext::new();
    ctx.insert_beacon_mmr_update(update);
    write_beacon_input(&mut mem, &ctx, &vars).unwrap();

    // The header count written equals the number of added headers.
    assert_eq!(mem.get(at(0, 15)), int_cell(n_headers));
    // Each decoded header equals its source, via the inverse layout.
    for (k, h) in headers.iter().enumerate() {
        let base = 8 * k;
        assert_eq!(mem.get(at(1, base)), Some(CellValue::Int(h.slot)));
        assert_eq!(mem.get(at(1, base + 1)), Some(CellValue::Int(h.proposer_index)));
        assert_eq!(mem.get(at(1, base + 2)), Some(CellValue::Int(h.parent_root.low)));
        assert_eq!(mem.get(at(1, base + 3)), Some(CellValue::Int(h.parent_root.high)));
        assert_eq!(mem.get(at(1, base + 4)), Some(CellValue::Int(h.state_root.low)));
        assert_eq!(mem.get(at(1, base + 5)), Some(CellValue::Int(h.state_root.high)));
        assert_eq!(mem.get(at(1, base + 6)), Some(CellValue::Int(h.body_root.low)));
        assert_eq!(mem.get(at(1, base + 7)), Some(CellValue::Int(h.body_root.high)));
    }
    // Nothing past the run.
    assert_eq!(mem.get(at(1, 8 * n_headers as usize)), None);
    // The library's own mirror decode recovers the run in one call.
    let decoded = decode_headers_cairo(&mem, at(1, 0), n_headers as usize).unwrap();
    assert_eq!(decoded, headers);
    // The start snapshot landed at its resolved address, keccak root first.
    assert_eq!(mem.get(at(0, 0)), int_cell(10));
    assert_eq!(mem.get(at(0, 2)), int_cell(11));
    assert_eq!(mem.get(at(0, 6)), int_cell(1)); // computed peak count
    // The end snapshot at its own address.
    assert_eq!(mem.get(at(0, 7)), int_cell(20));
    assert_eq!(mem.get(at(0, 13)), int_cell(2));
}

#[test]
fn update_round_trip_with_zero_headers() {
    run_update_round_trip(0);
}

#[test]
fn update_round_trip_with_one_header() {
    run_update_round_trip(1);
}

#[test]
fn update_round_trip_with_several_headers() {
    run_update_round_trip(3);
}

#[test]
fn missing_context_entry_is_a_typed_error() {
    let (mut mem, vars) = update_frame();
    let ctx = RunContext::new();
    let before = mem.segments.clone();
    assert_eq!(
        write_beacon_input(&mut mem, &ctx, &vars),
        Err(HintError::MissingContextEntry)
    );
    assert_eq!(mem.segments, before);
}

#[test]
fn unknown_hint_leaves_memory_unchanged() {
    let mut mem = Memory::new();
    mem.add_segment();
    mem.insert_value(at(0, 0), CellValue::Int(felt(1))).unwrap();
    let before = mem.segments.clone();
    let ctx = RunContext::new();
    let vars = VarTable::new();
    let proc = CustomHintProcessor::new(LayoutVariant::Accumulator);
    assert_eq!(
        proc.execute_hint_extensive(&mut mem, &ctx, &vars, "ids.something_else = 1"),
        Err(HintError::UnknownHint)
    );
    assert_eq!(mem.segments, before);
    // The plain entry point delegates everything to the builtin tier.
    assert_eq!(
        proc.execute_hint(&mut mem, &ctx, &vars),
        Err(HintError::UnknownHint)
    );
    assert_eq!(mem.segments, before);
}

#[test]
fn dispatch_reaches_the_arithmetic_hints() {
    let (mut mem, vars) = arithmetic_frame(&[("mmr_len", 8)], "bit_length");
    let ctx = RunContext::new();
    let proc = CustomHintProcessor::new(LayoutVariant::Accumulator);
    proc.execute_hint_extensive(&mut mem, &ctx, &vars, MMR_BIT_LENGTH).unwrap();
    assert_eq!(mem.get(at(0, 1)), int_cell(4));

    let (mut mem, vars) = arithmetic_frame(&[("left_child", 5), ("mmr_len", 5)], "in_mmr");
    proc.execute_hint_extensive(&mut mem, &ctx, &vars, MMR_LEFT_CHILD).unwrap();
    assert_eq!(mem.get(at(0, 2)), int_cell(1));

    let (mut mem, vars) = arithmetic_frame(
        &[("position", 9), ("mmr_offset", 5)],
        "is_position_in_mmr_array",
    );
    proc.execute_hint_extensive(&mut mem, &ctx, &vars, HINT_IS_POSITION_IN_MMR_ARRAY)
        .unwrap();
    assert_eq!(mem.get(at(0, 2)), int_cell(1));
}

#[test]
fn registration_table_holds_the_three_arithmetic_hints() {
    let table = get_hints();
    assert_eq!(table.len(), 3);
    assert_eq!(table[0].0, MMR_BIT_LENGTH);
    assert_eq!(table[1].0, MMR_LEFT_CHILD);
    assert_eq!(table[2].0, HINT_IS_POSITION_IN_MMR_ARRAY);
}

#[test]
fn grower_dispatch_writes_the_whole_integration() {
    let mut mem = Memory::new();
    mem.add_segment();
    let headers_seg = mem.add_segment();
    let mut vars = VarTable::new();
    vars.insert("start_mmr_snapshot", at(0, 0));
    vars.insert("end_mmr_snapshot", at(0, 7));
    vars.insert("last_leaf_proof", at(0, 14));
    vars.insert("headers", at(0, 20));
    vars.insert("n_headers", at(0, 21));
    mem.insert_value(at(0, 20), CellValue::Ptr(headers_seg)).unwrap();

    let header = BeaconHeader {
        slot: felt(42),
        proposer_index: felt(43),
        parent_root: u256(44, 0),
        state_root: u256(45, 0),
        body_root: u256(46, 0),
    };
    let ci = ChainIntegration {
        name: "devnet".to_string(),
        network_id: felt(1),
        start_height: felt(2),
        end_height: felt(3),
        headers: vec![BeaconHeaderWithRoot { root: u256(9, 9), header }],
        last_leaf_proof: LastLeafProof {
            header_root: u256(7, 8),
            header_position: felt(5),
            path_len: felt(0),
            poseidon_path: vec![],
            keccak_path: vec![],
        },
        start_mmr: MmrSnapshot {
            size: felt(60),
            poseidon_root: felt(61),
            poseidon_peaks: vec![felt(62)],
            keccak_root: u256(63, 0),
            keccak_peaks: vec![u256(64, 0)],
            peaks_len: felt(1),
        },
        end_mmr: MmrSnapshot {
            size: felt(70),
            poseidon_root: felt(71),
            poseidon_peaks: vec![],
            keccak_root: u256(72, 0),
            keccak_peaks: vec![],
            peaks_len: felt(0),
        },
    };
    let input = MmrInput {
        epoch_number: felt(11),
        block_number: felt(12),
        chain_integrations: vec![ci],
    };
    let mut ctx = RunContext::new();
    ctx.insert_mmr_input(input);

    let proc = CustomHintProcessor::new(LayoutVariant::Grower);
    proc.execute_hint_extensive(&mut mem, &ctx, &vars, HINT_WRITE_BEACON_INPUT)
        .unwrap();

    // Grower snapshots store the size first.
    assert_eq!(mem.get(at(0, 0)), int_cell(60));
    assert_eq!(mem.get(at(0, 7)), int_cell(70));
    // The grower layout encodes the last-leaf proof.
    assert_eq!(mem.get(at(0, 14)), int_cell(7));
    assert_eq!(mem.get(at(0, 15)), int_cell(8));
    assert_eq!(mem.get(at(0, 16)), int_cell(5));
    // The inner headers landed at the headers base; the count followed.
    assert_eq!(mem.get(at(1, 0)), int_cell(42));
    assert_eq!(mem.get(at(1, 7)), int_cell(0)); // body root high half
    assert_eq!(mem.get(at(0, 21)), int_cell(1));
}

#[test]
fn empty_chain_integrations_are_a_setup_defect() {
    let (mut mem, _) = update_frame();
    let mut vars = VarTable::new();
    vars.insert("start_mmr_snapshot", at(0, 0));
    let input = MmrInput {
        epoch_number: felt(1),
        block_number: felt(2),
        chain_integrations: vec![],
    };
    let mut ctx = RunContext::new();
    ctx.insert_mmr_input(input);
    let proc = CustomHintProcessor::new(LayoutVariant::Grower);
    let before = mem.segments.clone();
    assert_eq!(
        proc.execute_hint_extensive(&mut mem, &ctx, &vars, HINT_WRITE_BEACON_INPUT),
        Err(HintError::MissingContextEntry)
    );
    assert_eq!(mem.segments, before);
}

#[test]
fn integer_cell_is_no_pointer() {
    let (mut mem, vars) = update_frame();
    // Overwrite the frame: the headers variable's cell holds an integer.
    let mut mem2 = Memory::new();
    mem2.add_segment();
    mem2.insert_value(at(0, 14), CellValue::Int(felt(3))).unwrap();
    let update = BeaconMmrUpdateCairo {
        start_snapshot: cairo_snapshot(10, &[]),
        end_snapshot: cairo_snapshot(20, &[]),
        added_headers: vec![],
        last_leaf_proof: None,
    };
    let mut ctx = RunContext::new();
    ctx.insert_beacon_mmr_update(update.clone());
    assert_eq!(
        write_beacon_input(&mut mem2, &ctx, &vars),
        Err(HintError::ExpectedPointer(at(0, 14)))
    );
    // The well-formed frame accepts the same update.
    write_beacon_input(&mut mem, &ctx, &vars).unwrap();
}
