//! The hint handlers: the three arithmetic hints and the bulk-input writers.
//!
//! Every handler reads already-placed values through the symbolic-variable
//! table of the current program frame and writes its result back through the
//! same table. Each handler's exact outcome — the value written or the typed
//! failure, in evaluation order — is stated by a spec function beside it.

use crate::codec::{
    encode_header_cairo_mem, encode_header_mem, region_check, snapshot_cairo_outcome,
};
use crate::error::HintError;
use crate::felt::{bit_len, Felt};
use crate::memory::{mem_read, mem_write, write_check, Address, CellValue, MemView, Memory};
use crate::types::{
    BeaconHeader, BeaconHeaderCairo, BeaconHeaderWithRoot, BeaconMmrUpdateCairo, RunContext,
};
use vstd::prelude::*;
use vstd::string::StringExecFns;

verus! {

/// First-match lookup of a name in a keyed table.
pub open spec fn table_lookup<T>(s: Seq<(String, T)>, name: Seq<char>) -> Option<T>
    decreases s.len(),
{
    if s.len() == 0 {
        None
    } else if s[0].0@ == name {
        Some(s[0].1)
    } else {
        table_lookup(s.drop_first(), name)
    }
}

/// The symbolic-variable table of the current program frame: each entry maps
/// a variable's name to the address of its cell.
pub struct VarTable {
    pub entries: Vec<(String, Address)>,
}

impl VarTable {
    /// An empty table.
    pub fn new() -> (r: VarTable)
        ensures
            r.entries@ == Seq::<(String, Address)>::empty(),
    {
        let t = VarTable { entries: Vec::new() };
        proof {
            assert(t.entries@ =~= Seq::<(String, Address)>::empty());
        }
        t
    }

    /// Bind a variable name to a cell address.
    pub fn insert(&mut self, name: &str, a: Address)
        ensures
            final(self).entries@.len() == old(self).entries@.len() + 1,
            final(self).entries@.last().0@ == name@,
            final(self).entries@.last().1 == a,
            final(self).entries@.take(old(self).entries@.len() as int) == old(self).entries@,
    {
        let key = String::from_str(name);
        self.entries.push((key, a));
        proof {
            assert(self.entries@.take(old(self).entries@.len() as int) =~= old(self).entries@);
        }
    }

    /// The address bound to `name`, or the lookup failure.
    pub fn address_of(&self, name: &str) -> (r: Result<Address, HintError>)
        ensures
            match r {
                Ok(a) => table_lookup(self.entries@, name@) == Some(a),
                Err(e) => {
                    &&& table_lookup(self.entries@, name@) is None
                    &&& e == HintError::IdentifierNotFound
                },
            },
    {
        let key = String::from_str(name);
        let mut i: usize = 0;
        proof {
            assert(self.entries@.skip(0) =~= self.entries@);
        }
        while i < self.entries.len()
            invariant
                i <= self.entries@.len(),
                key@ == name@,
                table_lookup(self.entries@, name@) == table_lookup(
                    self.entries@.skip(i as int),
                    name@,
                ),
            decreases self.entries@.len() - i,
        {
            if self.entries[i].0 == key {
                return Ok(self.entries[i].1);
            }
            proof {
                assert(self.entries@.skip(i as int).drop_first() =~= self.entries@.skip(i + 1));
            }
            i = i + 1;
        }
        Err(HintError::IdentifierNotFound)
    }
}

/// The field element with a given small value, as the hints write it back.
pub open spec fn felt_u64(x: u64) -> Felt {
    Felt { l0: x, l1: 0, l2: 0, l3: 0 }
}

/// The exact outcome owed for reading an integer variable: the address bound
/// to the name must hold a field element.
pub open spec fn integer_outcome(m: MemView, t: Seq<(String, Address)>, name: Seq<char>) -> Result<
    Felt,
    HintError,
> {
    match table_lookup(t, name) {
        None => Err(HintError::IdentifierNotFound),
        Some(a) => match mem_read(m, a) {
            Some(CellValue::Int(x)) => Ok(x),
            _ => Err(HintError::ExpectedInteger(a)),
        },
    }
}

/// The exact outcome owed for reading a pointer variable: the address bound
/// to the name must hold an address.
pub open spec fn pointer_outcome(m: MemView, t: Seq<(String, Address)>, name: Seq<char>) -> Result<
    Address,
    HintError,
> {
    match table_lookup(t, name) {
        None => Err(HintError::IdentifierNotFound),
        Some(a) => match mem_read(m, a) {
            Some(CellValue::Ptr(p)) => Ok(p),
            _ => Err(HintError::ExpectedPointer(a)),
        },
    }
}

/// The exact outcome owed for writing one value through a variable name.
pub open spec fn store_outcome(
    m: MemView,
    t: Seq<(String, Address)>,
    name: Seq<char>,
    v: CellValue,
) -> Result<MemView, HintError> {
    match table_lookup(t, name) {
        None => Err(HintError::IdentifierNotFound),
        Some(dst) => match write_check(m, dst, v) {
            Ok(()) => Ok(mem_write(m, dst, v)),
            Err(me) => Err(HintError::Memory(me)),
        },
    }
}

impl VarTable {
    /// The field element held at the cell of the variable `name`.
    pub fn integer_of(&self, name: &str, mem: &Memory) -> (r: Result<Felt, HintError>)
        ensures
            r == integer_outcome(mem@, self.entries@, name@),
    {
        let a = match self.address_of(name) {
            Ok(a) => a,
            Err(e) => {
                return Err(e);
            },
        };
        match mem.get(a) {
            Some(CellValue::Int(x)) => Ok(x),
            _ => Err(HintError::ExpectedInteger(a)),
        }
    }

    /// The address held at the cell of the variable `name`.
    pub fn pointer_of(&self, name: &str, mem: &Memory) -> (r: Result<Address, HintError>)
        ensures
            r == pointer_outcome(mem@, self.entries@, name@),
    {
        let a = match self.address_of(name) {
            Ok(a) => a,
            Err(e) => {
                return Err(e);
            },
        };
        match mem.get(a) {
            Some(CellValue::Ptr(p)) => Ok(p),
            _ => Err(HintError::ExpectedPointer(a)),
        }
    }
}

/// Write one value at the cell of the variable `name`.
pub(crate) fn store_at(mem: &mut Memory, vars: &VarTable, name: &str, v: CellValue) -> (r: Result<
    (),
    HintError,
>)
    ensures
        match r {
            Ok(()) => store_outcome(old(mem)@, vars.entries@, name@, v) == Ok::<MemView, HintError>(final(mem)@),
            Err(e) => {
                &&& store_outcome(old(mem)@, vars.entries@, name@, v) == Err::<MemView, _>(e)
                &&& final(mem)@ == old(mem)@
            },
        },
{
    let dst = match vars.address_of(name) {
        Ok(a) => a,
        Err(e) => {
            return Err(e);
        },
    };
    match mem.insert_value(dst, v) {
        Ok(()) => Ok(()),
        Err(me) => Err(HintError::Memory(me)),
    }
}

/// The exact outcome owed for the bit-length hint: read `mmr_len`, write its
/// bit length to `bit_length`. Zero has bit length zero.
pub open spec fn bit_length_outcome(m: MemView, t: Seq<(String, Address)>) -> Result<
    MemView,
    HintError,
> {
    match integer_outcome(m, t, "mmr_len"@) {
        Err(e) => Err(e),
        Ok(x) => store_outcome(
            m,
            t,
            "bit_length"@,
            CellValue::Int(felt_u64(bit_len(x.value()) as u64)),
        ),
    }
}

/// The bit-length hint: `bit_length` receives the bit length of `mmr_len`.
pub fn mmr_bit_length(mem: &mut Memory, vars: &VarTable) -> (r: Result<(), HintError>)
    ensures
        match r {
            Ok(()) => bit_length_outcome(old(mem)@, vars.entries@) == Ok::<MemView, HintError>(final(mem)@),
            Err(e) => {
                &&& bit_length_outcome(old(mem)@, vars.entries@) == Err::<MemView, _>(e)
                &&& final(mem)@ == old(mem)@
            },
        },
{
    let x = match vars.integer_of("mmr_len", mem) {
        Ok(x) => x,
        Err(e) => {
            return Err(e);
        },
    };
    let b = x.bits();
    store_at(mem, vars, "bit_length", CellValue::Int(Felt::from_u64(b)))
}

/// The exact outcome owed for the left-child membership hint: `in_mmr`
/// receives 1 when `left_child <= mmr_len` (inclusive boundary), else 0.
pub open spec fn left_child_outcome(m: MemView, t: Seq<(String, Address)>) -> Result<
    MemView,
    HintError,
> {
    match integer_outcome(m, t, "left_child"@) {
        Err(e) => Err(e),
        Ok(lc) => match integer_outcome(m, t, "mmr_len"@) {
            Err(e) => Err(e),
            Ok(ml) => store_outcome(
                m,
                t,
                "in_mmr"@,
                CellValue::Int(
                    if lc.value() <= ml.value() {
                        felt_u64(1)
                    } else {
                        felt_u64(0)
                    },
                ),
            ),
        },
    }
}

/// The left-child membership hint.
pub fn mmr_left_child(mem: &mut Memory, vars: &VarTable) -> (r: Result<(), HintError>)
    ensures
        match r {
            Ok(()) => left_child_outcome(old(mem)@, vars.entries@) == Ok::<MemView, HintError>(final(mem)@),
            Err(e) => {
                &&& left_child_outcome(old(mem)@, vars.entries@) == Err::<MemView, _>(e)
                &&& final(mem)@ == old(mem)@
            },
        },
{
    let lc = match vars.integer_of("left_child", mem) {
        Ok(x) => x,
        Err(e) => {
            return Err(e);
        },
    };
    let ml = match vars.integer_of("mmr_len", mem) {
        Ok(x) => x,
        Err(e) => {
            return Err(e);
        },
    };
    let v = if lc.le(&ml) {
        Felt::from_u64(1)
    } else {
        Felt::from_u64(0)
    };
    store_at(mem, vars, "in_mmr", CellValue::Int(v))
}

/// The exact outcome owed for the position membership hint:
/// `is_position_in_mmr_array` receives 1 when `position > mmr_offset` (strict
/// boundary), else 0.
pub open spec fn position_outcome(m: MemView, t: Seq<(String, Address)>) -> Result<
    MemView,
    HintError,
> {
    match integer_outcome(m, t, "position"@) {
        Err(e) => Err(e),
        Ok(pos) => match integer_outcome(m, t, "mmr_offset"@) {
            Err(e) => Err(e),
            Ok(off) => store_outcome(
                m,
                t,
                "is_position_in_mmr_array"@,
                CellValue::Int(
                    if pos.value() > off.value() {
                        felt_u64(1)
                    } else {
                        felt_u64(0)
                    },
                ),
            ),
        },
    }
}

/// The position membership hint.
pub fn hint_is_position_in_mmr_array(mem: &mut Memory, vars: &VarTable) -> (r: Result<
    (),
    HintError,
>)
    ensures
        match r {
            Ok(()) => position_outcome(old(mem)@, vars.entries@) == Ok::<MemView, HintError>(final(mem)@),
            Err(e) => {
                &&& position_outcome(old(mem)@, vars.entries@) == Err::<MemView, _>(e)
                &&& final(mem)@ == old(mem)@
            },
        },
{
    let pos = match vars.integer_of("position", mem) {
        Ok(x) => x,
        Err(e) => {
            return Err(e);
        },
    };
    let off = match vars.integer_of("mmr_offset", mem) {
        Ok(x) => x,
        Err(e) => {
            return Err(e);
        },
    };
    let v = if pos.gt(&off) {
        Felt::from_u64(1)
    } else {
        Felt::from_u64(0)
    };
    store_at(mem, vars, "is_position_in_mmr_array", CellValue::Int(v))
}

/// The exact outcome owed for encoding a run of accumulator headers, one
/// after the other: on failure, the memory written so far and the error.
pub open spec fn write_headers_cairo_outcome(
    m: MemView,
    a: Address,
    hs: Seq<BeaconHeaderCairo>,
) -> Result<(MemView, Address), (MemView, HintError)>
    decreases hs.len(),
{
    if hs.len() == 0 {
        Ok((m, a))
    } else {
        match region_check(m, a, 8) {
            Err(me) => Err((m, HintError::Memory(me))),
            Ok(()) => write_headers_cairo_outcome(
                encode_header_cairo_mem(m, a, hs[0]),
                a.at(8),
                hs.drop_first(),
            ),
        }
    }
}

/// Encode a run of accumulator headers sequentially from `base`, returning
/// the address just past the run.
fn write_headers_cairo(mem: &mut Memory, base: Address, hs: &Vec<BeaconHeaderCairo>) -> (r: Result<
    Address,
    HintError,
>)
    ensures
        match r {
            Ok(end) => write_headers_cairo_outcome(old(mem)@, base, hs@) == Ok::<
                _,
                (MemView, HintError),
            >((final(mem)@, end)),
            Err(e) => write_headers_cairo_outcome(old(mem)@, base, hs@) == Err::<
                (MemView, Address),
                _,
            >((final(mem)@, e)),
        },
{
    let mut cursor = base;
    let mut i: usize = 0;
    proof {
        assert(hs@.skip(0) =~= hs@);
    }
    while i < hs.len()
        invariant
            i <= hs@.len(),
            write_headers_cairo_outcome(old(mem)@, base, hs@) == write_headers_cairo_outcome(
                mem@,
                cursor,
                hs@.skip(i as int),
            ),
        decreases hs@.len() - i,
    {
        let h = hs[i];
        proof {
            assert(hs@.skip(i as int)[0] == hs@[i as int]);
            assert(hs@.skip(i as int).drop_first() =~= hs@.skip(i + 1));
        }
        match h.to_memory(mem, cursor) {
            Ok(end) => {
                cursor = end;
            },
            Err(e) => {
                proof {
                    assert(write_headers_cairo_outcome(mem@, cursor, hs@.skip(i as int)) == Err::<
                        (MemView, Address),
                        (MemView, HintError),
                    >((mem@, e)));
                }
                return Err(e);
            },
        }
        i = i + 1;
    }
    proof {
        assert(hs@.skip(hs@.len() as int) =~= Seq::<BeaconHeaderCairo>::empty());
    }
    Ok(cursor)
}

/// The exact outcome owed for encoding a run of grower headers (each carried
/// with its root; only the header itself is encoded).
pub open spec fn write_headers_grower_outcome(
    m: MemView,
    a: Address,
    hs: Seq<BeaconHeaderWithRoot>,
) -> Result<(MemView, Address), (MemView, HintError)>
    decreases hs.len(),
{
    if hs.len() == 0 {
        Ok((m, a))
    } else {
        match region_check(m, a, 8) {
            Err(me) => Err((m, HintError::Memory(me))),
            Ok(()) => write_headers_grower_outcome(
                encode_header_mem(m, a, hs[0].header),
                a.at(8),
                hs.drop_first(),
            ),
        }
    }
}

/// Encode a run of grower headers sequentially from `base`, returning the
/// address just past the run.
pub(crate) fn write_headers_grower(
    mem: &mut Memory,
    base: Address,
    hs: &Vec<BeaconHeaderWithRoot>,
) -> (r: Result<Address, HintError>)
    ensures
        match r {
            Ok(end) => write_headers_grower_outcome(old(mem)@, base, hs@) == Ok::<
                _,
                (MemView, HintError),
            >((final(mem)@, end)),
            Err(e) => write_headers_grower_outcome(old(mem)@, base, hs@) == Err::<
                (MemView, Address),
                _,
            >((final(mem)@, e)),
        },
{
    let mut cursor = base;
    let mut i: usize = 0;
    proof {
        assert(hs@.skip(0) =~= hs@);
    }
    while i < hs.len()
        invariant
            i <= hs@.len(),
            write_headers_grower_outcome(old(mem)@, base, hs@) == write_headers_grower_outcome(
                mem@,
                cursor,
                hs@.skip(i as int),
            ),
        decreases hs@.len() - i,
    {
        let h = hs[i];
        proof {
            assert(hs@.skip(i as int)[0] == hs@[i as int]);
            assert(hs@.skip(i as int).drop_first() =~= hs@.skip(i + 1));
        }
        match h.header.to_memory(mem, cursor) {
            Ok(end) => {
                cursor = end;
            },
            Err(e) => {
                proof {
                    assert(write_headers_grower_outcome(mem@, cursor, hs@.skip(i as int)) == Err::<
                        (MemView, Address),
                        (MemView, HintError),
                    >((mem@, e)));
                }
                return Err(e);
            },
        }
        i = i + 1;
    }
    proof {
        assert(hs@.skip(hs@.len() as int) =~= Seq::<BeaconHeaderWithRoot>::empty());
    }
    Ok(cursor)
}

/// The exact outcome owed for the bulk-input hint, accumulator layout: read
/// the update from the run-scoped context, encode the start and end snapshots
/// at their resolved addresses, encode the added headers sequentially from the
/// resolved headers base, and write the header count. The last-leaf proof is
/// not encoded in this layout. On failure, the memory written so far and the
/// error, in evaluation order.
pub open spec fn write_beacon_input_outcome(
    m: MemView,
    upd: Option<BeaconMmrUpdateCairo>,
    t: Seq<(String, Address)>,
) -> Result<MemView, (MemView, HintError)> {
    match upd {
        None => Err((m, HintError::MissingContextEntry)),
        Some(u) => match table_lookup(t, "start_mmr_snapshot"@) {
            None => Err((m, HintError::IdentifierNotFound)),
            Some(a1) => match snapshot_cairo_outcome(m, a1, u.start_snapshot) {
                Err(e) => Err((m, e)),
                Ok(m1) => match table_lookup(t, "end_mmr_snapshot"@) {
                    None => Err((m1, HintError::IdentifierNotFound)),
                    Some(a2) => match snapshot_cairo_outcome(m1, a2, u.end_snapshot) {
                        Err(e) => Err((m1, e)),
                        Ok(m2) => match pointer_outcome(m2, t, "headers"@) {
                            Err(e) => Err((m2, e)),
                            Ok(hbase) => match write_headers_cairo_outcome(
                                m2,
                                hbase,
                                u.added_headers@,
                            ) {
                                Err(pair) => Err(pair),
                                Ok((m3, _end)) => match store_outcome(
                                    m3,
                                    t,
                                    "n_headers"@,
                                    CellValue::Int(felt_u64(u.added_headers@.len() as u64)),
                                ) {
                                    Err(e) => Err((m3, e)),
                                    Ok(m4) => Ok(m4),
                                },
                            },
                        },
                    },
                },
            },
        },
    }
}

/// The bulk-input hint, accumulator layout: the only handler that performs
/// bulk writes. Encodes the context-held update's snapshots and headers into
/// memory and stores the header count.
pub fn write_beacon_input(mem: &mut Memory, ctx: &RunContext, vars: &VarTable) -> (r: Result<
    (),
    HintError,
>)
    ensures
        match r {
            Ok(()) => write_beacon_input_outcome(old(mem)@, ctx.beacon_mmr_update, vars.entries@)
                == Ok::<MemView, (MemView, HintError)>(final(mem)@),
            Err(e) => write_beacon_input_outcome(old(mem)@, ctx.beacon_mmr_update, vars.entries@)
                == Err::<MemView, (MemView, HintError)>((final(mem)@, e)),
        },
{
    let update = match ctx.get_beacon_mmr_update() {
        Ok(u) => u,
        Err(e) => {
            return Err(e);
        },
    };
    let a1 = match vars.address_of("start_mmr_snapshot") {
        Ok(a) => a,
        Err(e) => {
            return Err(e);
        },
    };
    match update.start_snapshot.to_memory(mem, a1) {
        Ok(_) => {},
        Err(e) => {
            return Err(e);
        },
    }
    let a2 = match vars.address_of("end_mmr_snapshot") {
        Ok(a) => a,
        Err(e) => {
            return Err(e);
        },
    };
    match update.end_snapshot.to_memory(mem, a2) {
        Ok(_) => {},
        Err(e) => {
            return Err(e);
        },
    }
    let hbase = match vars.pointer_of("headers", mem) {
        Ok(p) => p,
        Err(e) => {
            return Err(e);
        },
    };
    match write_headers_cairo(mem, hbase, &update.added_headers) {
        Ok(_) => {},
        Err(e) => {
            return Err(e);
        },
    }
    let n = Felt::from_u64(update.added_headers.len() as u64);
    store_at(mem, vars, "n_headers", CellValue::Int(n))
}

} // verus!
