//! A model of the VM's segmented, write-once memory.
//!
//! Memory is a sequence of independently addressed segments; each cell holds
//! either a field element or a pointer (the address of another cell). A cell,
//! once written, may only be rewritten with the same value; writing past a
//! segment's current end fills the gap with unwritten cells.

use crate::felt::Felt;
use vstd::prelude::*;

verus! {

/// An address in segmented memory: a segment index and an offset within it.
#[derive(Clone, Copy, Debug, PartialEq, Eq, Structural)]
pub struct Address {
    pub segment: usize,
    pub offset: usize,
}

impl Address {
    /// The address `k` cells past this one, within the same segment.
    pub open spec fn at(self, k: int) -> Address {
        Address { segment: self.segment, offset: (self.offset + k) as usize }
    }
}

/// What one memory cell holds: a field element or an address.
#[derive(Clone, Copy, Debug, PartialEq, Eq, Structural)]
pub enum CellValue {
    Int(Felt),
    Ptr(Address),
}

/// Why a memory write was refused.
#[derive(Clone, Copy, Debug, PartialEq, Eq, Structural)]
pub enum MemoryError {
    /// The address names a segment that was never allocated.
    UnallocatedSegment,
    /// The cell already holds a different value.
    InconsistentWrite,
    /// The offset is too large for a cell to exist at it.
    OffsetOverflow,
}

/// One segment's contents: `None` marks a cell never written.
pub type SegView = Seq<Option<CellValue>>;

/// The whole memory's contents, one sequence per allocated segment.
pub type MemView = Seq<Seq<Option<CellValue>>>;

/// A segment after writing `v` at `off`: the cell at `off` holds `v`, cells
/// between the old end and `off` are unwritten, all others keep their value.
pub open spec fn write_cell_seq(s: SegView, off: int, v: CellValue) -> SegView {
    let n = if off + 1 > s.len() {
        off + 1
    } else {
        s.len() as int
    };
    Seq::new(
        n as nat,
        |j: int|
            if j == off {
                Some(v)
            } else if j < s.len() {
                s[j]
            } else {
                None
            },
    )
}

/// Whether a write of `v` at `a` is accepted: the segment exists, a cell can
/// exist at the offset, and the cell is unwritten or already holds `v`.
pub open spec fn can_write(m: MemView, a: Address, v: CellValue) -> bool {
    &&& a.segment < m.len()
    &&& a.offset < usize::MAX
    &&& (a.offset >= m[a.segment as int].len() || m[a.segment as int][a.offset as int] is None
        || m[a.segment as int][a.offset as int] == Some(v))
}

/// The memory after writing `v` at `a`.
pub open spec fn mem_write(m: MemView, a: Address, v: CellValue) -> MemView {
    m.update(a.segment as int, write_cell_seq(m[a.segment as int], a.offset as int, v))
}

/// The value at `a`, or `None` if the cell was never written or lies outside
/// the allocated segments.
pub open spec fn mem_read(m: MemView, a: Address) -> Option<CellValue> {
    if a.segment < m.len() && a.offset < m[a.segment as int].len() {
        m[a.segment as int][a.offset as int]
    } else {
        None
    }
}

/// The exact outcome `insert_value` owes for a given memory, address and value.
pub open spec fn write_check(m: MemView, a: Address, v: CellValue) -> Result<(), MemoryError> {
    if a.segment >= m.len() {
        Err(MemoryError::UnallocatedSegment)
    } else if a.offset < m[a.segment as int].len() && !(m[a.segment as int][a.offset as int]
        is None) && m[a.segment as int][a.offset as int] != Some(v) {
        Err(MemoryError::InconsistentWrite)
    } else if a.offset == usize::MAX {
        Err(MemoryError::OffsetOverflow)
    } else {
        Ok(())
    }
}

/// The VM's memory: allocated segments of write-once cells.
#[derive(Clone, Debug)]
pub struct Memory {
    pub segments: Vec<Vec<Option<CellValue>>>,
}

impl View for Memory {
    type V = MemView;

    open spec fn view(&self) -> MemView {
        self.segments@.map_values(|s: Vec<Option<CellValue>>| s@)
    }
}

impl Memory {
    /// A memory with no segments.
    pub fn new() -> (r: Memory)
        ensures
            r@ == Seq::<SegView>::empty(),
    {
        let m = Memory { segments: Vec::new() };
        proof {
            assert(m@ =~= Seq::<SegView>::empty());
        }
        m
    }

    /// The number of allocated segments.
    pub fn num_segments(&self) -> (r: usize)
        ensures
            r == self@.len(),
    {
        self.segments.len()
    }

    /// Allocate a fresh, empty segment and return its base address.
    pub fn add_segment(&mut self) -> (r: Address)
        ensures
            final(self)@ == old(self)@.push(Seq::empty()),
            old(self)@.len() < usize::MAX,
            r.segment == old(self)@.len(),
            r.offset == 0,
    {
        let base = Address { segment: self.segments.len(), offset: 0 };
        self.segments.push(Vec::new());
        proof {
            vstd::std_specs::vec::axiom_spec_len(&self.segments);
            assert(self@ =~~= old(self)@.push(Seq::empty()));
        }
        base
    }

    /// Write `v` at `a`. The write is refused, and memory left unchanged, when
    /// the segment does not exist or the cell already holds a different value.
    pub fn insert_value(&mut self, a: Address, v: CellValue) -> (r: Result<(), MemoryError>)
        ensures
            r == write_check(old(self)@, a, v),
            r is Ok ==> final(self)@ == mem_write(old(self)@, a, v),
            r is Err ==> final(self)@ == old(self)@,
    {
        if a.segment >= self.segments.len() {
            return Err(MemoryError::UnallocatedSegment);
        }
        let ghost m0 = self@;
        let seg = &mut self.segments[a.segment];
        if a.offset < seg.len() {
            match seg[a.offset] {
                Some(existing) => {
                    if existing == v {
                        proof {
                            assert(self@ =~~= m0);
                            assert(self@ =~~= mem_write(m0, a, v));
                        }
                        Ok(())
                    } else {
                        proof {
                            assert(self@ =~~= m0);
                        }
                        Err(MemoryError::InconsistentWrite)
                    }
                },
                None => {
                    seg[a.offset] = Some(v);
                    proof {
                        assert(self@ =~~= mem_write(m0, a, v));
                    }
                    Ok(())
                },
            }
        } else {
            if a.offset == usize::MAX {
                proof {
                    assert(self@ =~~= m0);
                }
                return Err(MemoryError::OffsetOverflow);
            }
            let ghost s0 = seg@;
            while seg.len() < a.offset
                invariant
                    seg@.len() <= a.offset,
                    seg@.len() >= s0.len(),
                    seg@.subrange(0, s0.len() as int) == s0,
                    forall|j: int| s0.len() <= j < seg@.len() ==> seg@[j] is None,
                decreases a.offset - seg@.len(),
            {
                seg.push(None);
            }
            seg.push(Some(v));
            proof {
                assert(self@ =~~= mem_write(m0, a, v));
            }
            Ok(())
        }
    }

    /// Every segment index and every cell offset fits in a machine word.
    pub proof fn lemma_view_bounds(&self)
        ensures
            self@.len() <= usize::MAX,
            forall|i: int| 0 <= i < self@.len() ==> (#[trigger] self@[i]).len() <= usize::MAX,
    {
        vstd::std_specs::vec::axiom_spec_len(&self.segments);
        assert forall|i: int| 0 <= i < self@.len() implies (#[trigger] self@[i]).len()
            <= usize::MAX by {
            let v = self.segments@[i];
            vstd::std_specs::vec::axiom_spec_len(&v);
            assert(self@[i] == v@);
        }
    }

    /// Read the value at `a`, or `None` for an unwritten or unallocated cell.
    pub fn get(&self, a: Address) -> (r: Option<CellValue>)
        ensures
            r == mem_read(self@, a),
    {
        if a.segment < self.segments.len() {
            let seg = &self.segments[a.segment];
            if a.offset < seg.len() {
                seg[a.offset]
            } else {
                None
            }
        } else {
            None
        }
    }
}

} // verus!
