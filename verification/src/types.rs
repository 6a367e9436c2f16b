//! The host-side records encoded into VM memory, and the run-scoped context
//! that carries them from the driver into the hint handlers.
//!
//! Two record families exist because two guest programs expect different
//! snapshot layouts: the grower layout stores the snapshot size first and a
//! stored peak count, while the accumulator layout stores the keccak root
//! first and a peak count computed from the poseidon peak sequence. The two
//! layouts are not interchangeable.

use crate::error::HintError;
use crate::felt::{Felt, Uint256};
use vstd::prelude::*;

verus! {

/// A beacon-chain block header; fixed width, no collections.
#[derive(Clone, Copy, Debug, PartialEq, Eq)]
pub struct BeaconHeader {
    pub slot: Felt,
    pub proposer_index: Felt,
    pub parent_root: Uint256,
    pub state_root: Uint256,
    pub body_root: Uint256,
}

/// A beacon header together with its own root.
#[derive(Clone, Copy, Debug, PartialEq, Eq)]
pub struct BeaconHeaderWithRoot {
    pub root: Uint256,
    pub header: BeaconHeader,
}

/// A commitment to an MMR's state under two hash schemes, grower layout.
#[derive(Clone, Debug, PartialEq, Eq)]
pub struct MmrSnapshot {
    pub size: Felt,
    pub poseidon_root: Felt,
    pub poseidon_peaks: Vec<Felt>,
    pub keccak_root: Uint256,
    pub keccak_peaks: Vec<Uint256>,
    pub peaks_len: Felt,
}

impl MmrSnapshot {
    /// The two peak sequences describe the same MMR state and must stay
    /// parallel: equal lengths.
    pub open spec fn peaks_parallel(self) -> bool {
        self.poseidon_peaks@.len() == self.keccak_peaks@.len()
    }

    /// A fully valid snapshot: parallel peaks whose stored count matches.
    pub open spec fn valid(self) -> bool {
        &&& self.peaks_parallel()
        &&& self.peaks_len.value() == self.poseidon_peaks@.len()
    }
}

/// A Merkle inclusion path for the most recently appended leaf.
#[derive(Clone, Debug, PartialEq, Eq)]
pub struct LastLeafProof {
    pub header_root: Uint256,
    pub header_position: Felt,
    pub path_len: Felt,
    pub poseidon_path: Vec<Felt>,
    pub keccak_path: Vec<Uint256>,
}

impl LastLeafProof {
    /// The two path sequences must stay parallel: equal lengths.
    pub open spec fn paths_parallel(self) -> bool {
        self.poseidon_path@.len() == self.keccak_path@.len()
    }

    /// A fully valid proof: parallel paths whose stored length matches.
    pub open spec fn valid(self) -> bool {
        &&& self.paths_parallel()
        &&& self.path_len.value() == self.poseidon_path@.len()
    }
}

/// One chain's contribution to a grower run: its headers and the MMR states
/// they extend.
#[derive(Clone, Debug, PartialEq, Eq)]
pub struct ChainIntegration {
    pub name: String,
    pub network_id: Felt,
    pub start_height: Felt,
    pub end_height: Felt,
    pub headers: Vec<BeaconHeaderWithRoot>,
    pub last_leaf_proof: LastLeafProof,
    pub start_mmr: MmrSnapshot,
    pub end_mmr: MmrSnapshot,
}

/// The top-level grower input: one run's chain integrations.
#[derive(Clone, Debug, PartialEq, Eq)]
pub struct MmrInput {
    pub epoch_number: Felt,
    pub block_number: Felt,
    pub chain_integrations: Vec<ChainIntegration>,
}

/// A beacon-chain block header, accumulator layout.
#[derive(Clone, Copy, Debug, PartialEq, Eq)]
pub struct BeaconHeaderCairo {
    pub slot: Felt,
    pub proposer_index: Felt,
    pub parent_root: Uint256,
    pub state_root: Uint256,
    pub body_root: Uint256,
}

/// A commitment to an MMR's state, accumulator layout. `leafs_count` is
/// carried with the record but never serialized.
#[derive(Clone, Debug, PartialEq, Eq)]
pub struct MmrSnapshotCairo {
    pub keccak_root: Uint256,
    pub poseidon_root: Felt,
    pub elements_count: Felt,
    pub leafs_count: Felt,
    pub keccak_peaks: Vec<Uint256>,
    pub poseidon_peaks: Vec<Felt>,
}

impl MmrSnapshotCairo {
    /// The two peak sequences must stay parallel: equal lengths.
    pub open spec fn peaks_parallel(self) -> bool {
        self.poseidon_peaks@.len() == self.keccak_peaks@.len()
    }
}

/// A Merkle inclusion path for the most recently appended leaf, accumulator
/// layout.
#[derive(Clone, Debug, PartialEq, Eq)]
pub struct LastLeafProofCairo {
    pub header_root: Uint256,
    pub header_position: Felt,
    pub path_len: Felt,
    pub poseidon_path: Vec<Felt>,
    pub keccak_path: Vec<Uint256>,
}

impl LastLeafProofCairo {
    /// The two path sequences must stay parallel: equal lengths.
    pub open spec fn paths_parallel(self) -> bool {
        self.poseidon_path@.len() == self.keccak_path@.len()
    }

    /// A fully valid proof: parallel paths whose stored length matches.
    pub open spec fn valid(self) -> bool {
        &&& self.paths_parallel()
        &&& self.path_len.value() == self.poseidon_path@.len()
    }
}

/// One contiguous extension of an MMR: the committed state before and after,
/// the headers appended between them, and optionally a proof for the last
/// leaf already present.
#[derive(Clone, Debug, PartialEq, Eq)]
pub struct BeaconMmrUpdateCairo {
    pub start_snapshot: MmrSnapshotCairo,
    pub end_snapshot: MmrSnapshotCairo,
    pub added_headers: Vec<BeaconHeaderCairo>,
    pub last_leaf_proof: Option<LastLeafProofCairo>,
}

/// The run-scoped context: populated once before VM execution starts, held
/// immutably for one run, and read by the hint handlers. Each entry carries
/// the deserialized input object of one driver variant.
#[derive(Clone, Debug)]
pub struct RunContext {
    pub mmr_input: Option<MmrInput>,
    pub beacon_mmr_update: Option<BeaconMmrUpdateCairo>,
}

impl RunContext {
    /// An empty context: no input has been placed yet.
    pub fn new() -> (r: RunContext)
        ensures
            r.mmr_input is None,
            r.beacon_mmr_update is None,
    {
        RunContext { mmr_input: None, beacon_mmr_update: None }
    }

    /// Place the grower input for this run.
    pub fn insert_mmr_input(&mut self, input: MmrInput)
        ensures
            final(self).mmr_input == Some(input),
            final(self).beacon_mmr_update == old(self).beacon_mmr_update,
    {
        self.mmr_input = Some(input);
    }

    /// Place the accumulator update for this run.
    pub fn insert_beacon_mmr_update(&mut self, update: BeaconMmrUpdateCairo)
        ensures
            final(self).beacon_mmr_update == Some(update),
            final(self).mmr_input == old(self).mmr_input,
    {
        self.beacon_mmr_update = Some(update);
    }

    /// The grower input, or the typed setup error when none was placed.
    pub fn get_mmr_input(&self) -> (r: Result<&MmrInput, HintError>)
        ensures
            match r {
                Ok(input) => self.mmr_input == Some(*input),
                Err(e) => {
                    &&& self.mmr_input is None
                    &&& e == HintError::MissingContextEntry
                },
            },
    {
        match &self.mmr_input {
            Some(input) => Ok(input),
            None => Err(HintError::MissingContextEntry),
        }
    }

    /// The accumulator update, or the typed setup error when none was placed.
    pub fn get_beacon_mmr_update(&self) -> (r: Result<&BeaconMmrUpdateCairo, HintError>)
        ensures
            match r {
                Ok(update) => self.beacon_mmr_update == Some(*update),
                Err(e) => {
                    &&& self.beacon_mmr_update is None
                    &&& e == HintError::MissingContextEntry
                },
            },
    {
        match &self.beacon_mmr_update {
            Some(update) => Ok(update),
            None => Err(HintError::MissingContextEntry),
        }
    }
}

} // verus!
