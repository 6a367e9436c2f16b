//! The hint dispatch table.
//!
//! A processor maps a hint identifier — the hint's textual source form — to a
//! handler. Domain-specific handlers are consulted first: the bulk-input
//! writer (whose layout a processor selects once, at construction) and the
//! three arithmetic hints. An identifier registered nowhere fails with the
//! "unknown hint" condition without touching memory; the caller may then fall
//! back to its generic builtin table, of which this dispatch is a strict
//! extension.

use crate::codec::{llp_outcome, snapshot_outcome};
use crate::error::HintError;
use crate::felt::Felt;
use crate::hints::{
    bit_length_outcome, felt_u64, hint_is_position_in_mmr_array, left_child_outcome,
    mmr_bit_length, mmr_left_child, pointer_outcome, position_outcome, store_at, store_outcome,
    table_lookup, write_beacon_input, write_beacon_input_outcome, write_headers_grower,
    write_headers_grower_outcome, VarTable,
};
use crate::memory::{Address, CellValue, MemView, Memory};
use crate::types::{MmrInput, RunContext};
use vstd::prelude::*;
use vstd::string::StringExecFns;

verus! {

/// The textual source of the bulk-input hint.
pub const HINT_WRITE_BEACON_INPUT: &'static str = "write_beacon_input()";

/// The textual source of the bit-length hint.
pub const MMR_BIT_LENGTH: &'static str = "ids.bit_length = ids.mmr_len.bit_length()";

/// The textual source of the left-child membership hint.
pub const MMR_LEFT_CHILD: &'static str = "ids.in_mmr = 1 if ids.left_child <= ids.mmr_len else 0";

/// The textual source of the position membership hint.
pub const HINT_IS_POSITION_IN_MMR_ARRAY: &'static str =
    "ids.is_position_in_mmr_array= 1 if ids.position > ids.mmr_offset else 0";

/// The closed set of arithmetic hint handlers, resolved once at registration.
#[derive(Clone, Copy, Debug, PartialEq, Eq, Structural)]
pub enum HintKind {
    BitLength,
    LeftChild,
    PositionInMmrArray,
}

/// Which bulk-input layout a processor serves: the two guest programs expect
/// different snapshot orderings and must never be confused.
#[derive(Clone, Copy, Debug, PartialEq, Eq, Structural)]
pub enum LayoutVariant {
    /// Size-first snapshots, stored peak count, last-leaf proof encoded.
    Grower,
    /// Keccak-first snapshots, computed peak count, no last-leaf proof.
    Accumulator,
}

/// The registration table of the three arithmetic hints, keyed by their
/// textual source.
pub fn get_hints() -> (r: Vec<(String, HintKind)>)
    ensures
        r@.len() == 3,
        r@[0].0@ == MMR_BIT_LENGTH@ && r@[0].1 == HintKind::BitLength,
        r@[1].0@ == MMR_LEFT_CHILD@ && r@[1].1 == HintKind::LeftChild,
        r@[2].0@ == HINT_IS_POSITION_IN_MMR_ARRAY@ && r@[2].1 == HintKind::PositionInMmrArray,
{
    let mut hints: Vec<(String, HintKind)> = Vec::new();
    hints.push((String::from_str(MMR_BIT_LENGTH), HintKind::BitLength));
    hints.push((String::from_str(MMR_LEFT_CHILD), HintKind::LeftChild));
    hints.push((String::from_str(HINT_IS_POSITION_IN_MMR_ARRAY), HintKind::PositionInMmrArray));
    hints
}

/// The exact outcome owed for the bulk-input hint, grower layout: read the
/// input from the run-scoped context and take its first chain integration;
/// encode the start and end snapshots and the last-leaf proof at their
/// resolved addresses; encode the headers sequentially from the resolved
/// headers base; and write the header count. On failure, the memory written
/// so far and the error, in evaluation order.
pub open spec fn write_grower_input_outcome(
    m: MemView,
    input: Option<MmrInput>,
    t: Seq<(String, Address)>,
) -> Result<MemView, (MemView, HintError)> {
    match input {
        None => Err((m, HintError::MissingContextEntry)),
        Some(inp) => {
            if inp.chain_integrations@.len() == 0 {
                Err((m, HintError::MissingContextEntry))
            } else {
                let ci = inp.chain_integrations@[0];
                match table_lookup(t, "start_mmr_snapshot"@) {
                    None => Err((m, HintError::IdentifierNotFound)),
                    Some(a1) => match snapshot_outcome(m, a1, ci.start_mmr) {
                        Err(e) => Err((m, e)),
                        Ok(m1) => match table_lookup(t, "end_mmr_snapshot"@) {
                            None => Err((m1, HintError::IdentifierNotFound)),
                            Some(a2) => match snapshot_outcome(m1, a2, ci.end_mmr) {
                                Err(e) => Err((m1, e)),
                                Ok(m2) => match table_lookup(t, "last_leaf_proof"@) {
                                    None => Err((m2, HintError::IdentifierNotFound)),
                                    Some(a3) => match llp_outcome(m2, a3, ci.last_leaf_proof) {
                                        Err(e) => Err((m2, e)),
                                        Ok(m3) => match pointer_outcome(m3, t, "headers"@) {
                                            Err(e) => Err((m3, e)),
                                            Ok(hbase) => match write_headers_grower_outcome(
                                                m3,
                                                hbase,
                                                ci.headers@,
                                            ) {
                                                Err(pair) => Err(pair),
                                                Ok((m4, _end)) => match store_outcome(
                                                    m4,
                                                    t,
                                                    "n_headers"@,
                                                    CellValue::Int(
                                                        felt_u64(ci.headers@.len() as u64),
                                                    ),
                                                ) {
                                                    Err(e) => Err((m4, e)),
                                                    Ok(m5) => Ok(m5),
                                                },
                                            },
                                        },
                                    },
                                },
                            },
                        },
                    },
                }
            }
        },
    }
}

/// The hint dispatcher: the registered domain handlers over a caller-supplied
/// builtin tier.
pub struct CustomHintProcessor {
    /// The bulk-input layout this processor serves.
    pub variant: LayoutVariant,
    /// The registered arithmetic hints, keyed by their textual source.
    pub hints: Vec<(String, HintKind)>,
}

impl CustomHintProcessor {
    /// A processor serving the given bulk-input layout, with the three
    /// arithmetic hints registered.
    pub fn new(variant: LayoutVariant) -> (r: CustomHintProcessor)
        ensures
            r.variant == variant,
            r.hints@.len() == 3,
            r.hints@[0].0@ == MMR_BIT_LENGTH@ && r.hints@[0].1 == HintKind::BitLength,
            r.hints@[1].0@ == MMR_LEFT_CHILD@ && r.hints@[1].1 == HintKind::LeftChild,
            r.hints@[2].0@ == HINT_IS_POSITION_IN_MMR_ARRAY@ && r.hints@[2].1
                == HintKind::PositionInMmrArray,
    {
        CustomHintProcessor { variant, hints: Self::hints() }
    }

    /// The registration table of the arithmetic hints.
    fn hints() -> (r: Vec<(String, HintKind)>)
        ensures
            r@.len() == 3,
            r@[0].0@ == MMR_BIT_LENGTH@ && r@[0].1 == HintKind::BitLength,
            r@[1].0@ == MMR_LEFT_CHILD@ && r@[1].1 == HintKind::LeftChild,
            r@[2].0@ == HINT_IS_POSITION_IN_MMR_ARRAY@ && r@[2].1 == HintKind::PositionInMmrArray,
    {
        get_hints()
    }

    /// The handler registered for a hint identifier, if any.
    fn lookup_hint(&self, code: &str) -> (r: Option<HintKind>)
        ensures
            r == table_lookup(self.hints@, code@),
    {
        let key = String::from_str(code);
        let mut i: usize = 0;
        proof {
            assert(self.hints@.skip(0) =~= self.hints@);
        }
        while i < self.hints.len()
            invariant
                i <= self.hints@.len(),
                key@ == code@,
                table_lookup(self.hints@, code@) == table_lookup(
                    self.hints@.skip(i as int),
                    code@,
                ),
            decreases self.hints@.len() - i,
        {
            if self.hints[i].0 == key {
                return Some(self.hints[i].1);
            }
            proof {
                assert(self.hints@.skip(i as int).drop_first() =~= self.hints@.skip(i + 1));
            }
            i = i + 1;
        }
        None
    }

    /// The bulk-input hint, grower layout: encodes the first chain
    /// integration's snapshots, last-leaf proof and headers, and stores the
    /// header count.
    fn write_beacon_input(&self, mem: &mut Memory, ctx: &RunContext, vars: &VarTable) -> (r:
        Result<(), HintError>)
        ensures
            match r {
                Ok(()) => write_grower_input_outcome(old(mem)@, ctx.mmr_input, vars.entries@)
                    == Ok::<MemView, (MemView, HintError)>(final(mem)@),
                Err(e) => write_grower_input_outcome(old(mem)@, ctx.mmr_input, vars.entries@)
                    == Err::<MemView, (MemView, HintError)>((final(mem)@, e)),
            },
    {
        let input = match ctx.get_mmr_input() {
            Ok(i) => i,
            Err(e) => {
                return Err(e);
            },
        };
        if input.chain_integrations.len() == 0 {
            return Err(HintError::MissingContextEntry);
        }
        let ci = &input.chain_integrations[0];
        let a1 = match vars.address_of("start_mmr_snapshot") {
            Ok(a) => a,
            Err(e) => {
                return Err(e);
            },
        };
        match ci.start_mmr.to_memory(mem, a1) {
            Ok(_) => {},
            Err(e) => {
                return Err(e);
            },
        }
        let a2 = match vars.address_of("end_mmr_snapshot") {
            Ok(a) => a,
            Err(e) => {
                return Err(e);
            },
        };
        match ci.end_mmr.to_memory(mem, a2) {
            Ok(_) => {},
            Err(e) => {
                return Err(e);
            },
        }
        let a3 = match vars.address_of("last_leaf_proof") {
            Ok(a) => a,
            Err(e) => {
                return Err(e);
            },
        };
        match ci.last_leaf_proof.to_memory(mem, a3) {
            Ok(_) => {},
            Err(e) => {
                return Err(e);
            },
        }
        let hbase = match vars.pointer_of("headers", mem) {
            Ok(p) => p,
            Err(e) => {
                return Err(e);
            },
        };
        match write_headers_grower(mem, hbase, &ci.headers) {
            Ok(_) => {},
            Err(e) => {
                return Err(e);
            },
        }
        let n = Felt::from_u64(ci.headers.len() as u64);
        store_at(mem, vars, "n_headers", CellValue::Int(n))
    }

    /// The plain dispatch entry point delegates every identifier to the
    /// caller's builtin tier: it handles no domain hint itself.
    pub fn execute_hint(&self, mem: &mut Memory, _ctx: &RunContext, _vars: &VarTable) -> (r:
        Result<(), HintError>)
        ensures
            r == Err::<(), HintError>(HintError::UnknownHint),
            final(mem)@ == old(mem)@,
    {
        Err(HintError::UnknownHint)
    }

    /// Dispatch one hint invocation by its identifier: the bulk-input writer
    /// of this processor's layout first, then the registered arithmetic
    /// hints. An identifier registered nowhere fails with the "unknown hint"
    /// condition and leaves memory unchanged, so the caller can fall back to
    /// its builtin tier.
    pub fn execute_hint_extensive(
        &self,
        mem: &mut Memory,
        ctx: &RunContext,
        vars: &VarTable,
        hint_code: &str,
    ) -> (r: Result<(), HintError>)
        ensures
            ({
                let t = vars.entries@;
                if hint_code@ == HINT_WRITE_BEACON_INPUT@ {
                    match self.variant {
                        LayoutVariant::Grower => match r {
                            Ok(()) => write_grower_input_outcome(old(mem)@, ctx.mmr_input, t)
                                == Ok::<MemView, (MemView, HintError)>(final(mem)@),
                            Err(e) => write_grower_input_outcome(old(mem)@, ctx.mmr_input, t)
                                == Err::<MemView, (MemView, HintError)>((final(mem)@, e)),
                        },
                        LayoutVariant::Accumulator => match r {
                            Ok(()) => write_beacon_input_outcome(
                                old(mem)@,
                                ctx.beacon_mmr_update,
                                t,
                            ) == Ok::<MemView, (MemView, HintError)>(final(mem)@),
                            Err(e) => write_beacon_input_outcome(
                                old(mem)@,
                                ctx.beacon_mmr_update,
                                t,
                            ) == Err::<MemView, (MemView, HintError)>((final(mem)@, e)),
                        },
                    }
                } else {
                    match table_lookup(self.hints@, hint_code@) {
                        Some(HintKind::BitLength) => match r {
                            Ok(()) => bit_length_outcome(old(mem)@, t) == Ok::<
                                MemView,
                                HintError,
                            >(final(mem)@),
                            Err(e) => bit_length_outcome(old(mem)@, t) == Err::<MemView, _>(e)
                                && final(mem)@ == old(mem)@,
                        },
                        Some(HintKind::LeftChild) => match r {
                            Ok(()) => left_child_outcome(old(mem)@, t) == Ok::<
                                MemView,
                                HintError,
                            >(final(mem)@),
                            Err(e) => left_child_outcome(old(mem)@, t) == Err::<MemView, _>(e)
                                && final(mem)@ == old(mem)@,
                        },
                        Some(HintKind::PositionInMmrArray) => match r {
                            Ok(()) => position_outcome(old(mem)@, t) == Ok::<
                                MemView,
                                HintError,
                            >(final(mem)@),
                            Err(e) => position_outcome(old(mem)@, t) == Err::<MemView, _>(e)
                                && final(mem)@ == old(mem)@,
                        },
                        None => r == Err::<(), HintError>(HintError::UnknownHint) && final(mem)@
                            == old(mem)@,
                    }
                }
            }),
    {
        let code_s = String::from_str(hint_code);
        if code_s == String::from_str(HINT_WRITE_BEACON_INPUT) {
            return match self.variant {
                LayoutVariant::Grower => self.write_beacon_input(mem, ctx, vars),
                LayoutVariant::Accumulator => write_beacon_input(mem, ctx, vars),
            };
        }
        match self.lookup_hint(hint_code) {
            Some(HintKind::BitLength) => mmr_bit_length(mem, vars),
            Some(HintKind::LeftChild) => mmr_left_child(mem, vars),
            Some(HintKind::PositionInMmrArray) => hint_is_position_in_mmr_array(mem, vars),
            None => Err(HintError::UnknownHint),
        }
    }
}

impl Default for CustomHintProcessor {
    /// The default processor serves the accumulator layout, as the packaged
    /// driver does.
    fn default() -> (r: CustomHintProcessor)
        ensures
            r.variant == LayoutVariant::Accumulator,
            r.hints@.len() == 3,
            r.hints@[0].0@ == MMR_BIT_LENGTH@ && r.hints@[0].1 == HintKind::BitLength,
            r.hints@[1].0@ == MMR_LEFT_CHILD@ && r.hints@[1].1 == HintKind::LeftChild,
            r.hints@[2].0@ == HINT_IS_POSITION_IN_MMR_ARRAY@ && r.hints@[2].1
                == HintKind::PositionInMmrArray,
    {
        CustomHintProcessor::new(LayoutVariant::Accumulator)
    }
}

/// Law: a hint identifier that matches none of the registered codes resolves
/// to no handler in a freshly registered table. Together with the dispatch
/// contract of `execute_hint_extensive`, dispatching such an identifier
/// returns the "unknown hint" failure and leaves memory unchanged.
pub proof fn lemma_unregistered_code_unresolved(t: Seq<(String, HintKind)>, code: Seq<char>)
    requires
        t.len() == 3,
        t[0].0@ == MMR_BIT_LENGTH@,
        t[1].0@ == MMR_LEFT_CHILD@,
        t[2].0@ == HINT_IS_POSITION_IN_MMR_ARRAY@,
        code != MMR_BIT_LENGTH@,
        code != MMR_LEFT_CHILD@,
        code != HINT_IS_POSITION_IN_MMR_ARRAY@,
    ensures
        table_lookup(t, code) is None,
{
    assert(table_lookup(t, code) == table_lookup(t.drop_first(), code));
    assert(table_lookup(t.drop_first(), code) == table_lookup(t.drop_first().drop_first(), code));
    assert(table_lookup(t.drop_first().drop_first(), code) == table_lookup(
        t.drop_first().drop_first().drop_first(),
        code,
    ));
    assert(table_lookup(t.drop_first().drop_first().drop_first(), code) is None);
}

} // verus!
