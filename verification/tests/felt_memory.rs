use mmr_hints::felt::{bits_u64, Felt, Uint256};
use mmr_hints::memory::{Address, CellValue, Memory, MemoryError};

fn felt(n: u64) -> Felt {
    Felt::from_u64(n)
}

fn at(segment: usize, offset: usize) -> Address {
    Address { segment, offset }
}

#[test]
fn bit_length_of_words() {
    assert_eq!(bits_u64(0), 0);
    assert_eq!(bits_u64(1), 1);
    assert_eq!(bits_u64(7), 3);
    assert_eq!(bits_u64(8), 4);
    assert_eq!(bits_u64(u64::MAX), 64);
}

#[test]
fn bit_length_of_field_elements() {
    assert_eq!(felt(0).bits(), 0);
    assert_eq!(felt(1).bits(), 1);
    assert_eq!(felt(7).bits(), 3);
    assert_eq!(felt(8).bits(), 4);
    // 2^64 needs the second limb: bit length 65.
    let two_to_64 = Felt::from_limbs(0, 1, 0, 0).unwrap();
    assert_eq!(two_to_64.bits(), 65);
    // 2^128 and 2^192 via the third and fourth limbs.
    assert_eq!(Felt::from_limbs(0, 0, 1, 0).unwrap().bits(), 129);
    assert_eq!(Felt::from_limbs(0, 0, 0, 1).unwrap().bits(), 193);
}

#[test]
fn limb_constructor_enforces_the_prime() {
    // The prime is 2^251 + 17 * 2^192 + 1; its limbs are (1, 0, 0, 0x800000000000011).
    assert!(Felt::from_limbs(0, 0, 0, 0x800000000000011).is_some()); // prime - 1
    assert!(Felt::from_limbs(1, 0, 0, 0x800000000000011).is_none()); // the prime itself
    assert!(Felt::from_limbs(2, 0, 0, 0x800000000000011).is_none()); // prime + 1
    assert!(Felt::from_limbs(u64::MAX, u64::MAX, u64::MAX, 0x800000000000010).is_some());
}

#[test]
fn comparisons_follow_the_numeric_value() {
    let small = felt(5);
    let big = Felt::from_limbs(0, 0, 0, 1).unwrap(); // 2^192
    assert!(small.le(&big));
    assert!(!big.le(&small));
    assert!(big.gt(&small));
    assert!(!small.gt(&big));
    assert!(small.le(&small));
    assert!(!small.gt(&small));
}

#[test]
fn uint256_splits_into_two_halves() {
    let u = Uint256::from_u128_pair(3, 5);
    assert_eq!(u.low.l0, 3);
    assert_eq!(u.high.l0, 5);
    let big = Uint256::from_u128_pair(u128::MAX, u128::MAX);
    assert_eq!(big.low.l0, u64::MAX);
    assert_eq!(big.low.l1, u64::MAX);
    assert_eq!(big.low.l2, 0);
    assert_eq!(big.high.l1, u64::MAX);
}

#[test]
fn memory_write_then_read() {
    let mut mem = Memory::new();
    assert_eq!(mem.num_segments(), 0);
    let base = mem.add_segment();
    assert_eq!(base, at(0, 0));
    assert_eq!(mem.num_segments(), 1);
    mem.insert_value(at(0, 0), CellValue::Int(felt(42))).unwrap();
    assert_eq!(mem.get(at(0, 0)), Some(CellValue::Int(felt(42))));
    assert_eq!(mem.get(at(0, 1)), None);
    assert_eq!(mem.get(at(1, 0)), None);
}

#[test]
fn memory_is_write_once() {
    let mut mem = Memory::new();
    mem.add_segment();
    mem.insert_value(at(0, 0), CellValue::Int(felt(1))).unwrap();
    // Rewriting the same value is accepted; a different value is refused.
    assert_eq!(mem.insert_value(at(0, 0), CellValue::Int(felt(1))), Ok(()));
    assert_eq!(
        mem.insert_value(at(0, 0), CellValue::Int(felt(2))),
        Err(MemoryError::InconsistentWrite)
    );
    assert_eq!(mem.get(at(0, 0)), Some(CellValue::Int(felt(1))));
}

#[test]
fn memory_refuses_unallocated_segments() {
    let mut mem = Memory::new();
    assert_eq!(
        mem.insert_value(at(0, 0), CellValue::Int(felt(1))),
        Err(MemoryError::UnallocatedSegment)
    );
    mem.add_segment();
    assert_eq!(
        mem.insert_value(at(3, 0), CellValue::Int(felt(1))),
        Err(MemoryError::UnallocatedSegment)
    );
}

#[test]
fn memory_fills_gaps_with_unwritten_cells() {
    let mut mem = Memory::new();
    mem.add_segment();
    mem.insert_value(at(0, 5), CellValue::Int(felt(9))).unwrap();
    assert_eq!(mem.get(at(0, 3)), None);
    assert_eq!(mem.get(at(0, 5)), Some(CellValue::Int(felt(9))));
    // The gap can be filled later.
    mem.insert_value(at(0, 3), CellValue::Ptr(at(1, 0))).unwrap();
    assert_eq!(mem.get(at(0, 3)), Some(CellValue::Ptr(at(1, 0))));
}

#[test]
fn offsets_have_a_hard_ceiling() {
    let mut mem = Memory::new();
    mem.add_segment();
    assert_eq!(
        mem.insert_value(at(0, usize::MAX), CellValue::Int(felt(1))),
        Err(MemoryError::OffsetOverflow)
    );
    assert_eq!(mem.get(at(0, usize::MAX)), None);
}
