//! The address bus: an address-decoded multiplexer that routes byte reads
//! and writes to mounted components.
//!
//! The bus itself only keeps the mount table; dispatching an access to the
//! memory behind a mount is the backend's job, because the components live
//! in the backend's registry.

use vstd::prelude::*;

use crate::component::{ComponentId, MemoryAddress, MemorySize};
use crate::error::{EmulatorErrorKind, Error};

verus! {

/// One mounted component: the half-open address range
/// `[base, base + size)` it owns.
#[derive(Clone, Copy, Debug, PartialEq, Eq, Structural)]
pub struct BusMount {
    /// First address of the mount.
    pub base: MemoryAddress,
    /// Number of addresses the mount owns.
    pub size: MemorySize,
    /// The component the mount routes to.
    pub component: ComponentId,
}

impl BusMount {
    /// Whether `address` lies inside the mount's range.
    pub open spec fn spec_contains(&self, address: int) -> bool {
        self.base <= address < self.base + self.size
    }

    /// Whether the whole range `[address, address + len)` lies inside the
    /// mount's range.
    pub open spec fn spec_contains_range(&self, address: int, len: int) -> bool {
        self.base <= address && address + len <= self.base + self.size
    }

    /// Whether `address` lies inside the mount's range.
    pub fn contains(&self, address: MemoryAddress) -> (r: bool)
        requires
            self.base + self.size <= usize::MAX,
        ensures
            r == self.spec_contains(address as int),
    {
        self.base <= address && address < self.base + self.size
    }
}

/// The mount table, kept sorted by base address.
pub struct Bus {
    /// The mounts, sorted by `base`.
    pub mounts: Vec<BusMount>,
}

impl Bus {
    /// The mount table's invariants: every range fits the address space,
    /// ranges are pairwise disjoint, no component is mounted twice, and
    /// the table is sorted by base address.
    pub open spec fn wf(&self) -> bool {
        &&& forall|i: int|
            0 <= i < self.mounts@.len() ==> (#[trigger] self.mounts@[i]).base + self.mounts@[i].size
                <= usize::MAX
        &&& forall|i: int, j: int|
            0 <= i < j < self.mounts@.len() ==> ((#[trigger] self.mounts@[i]).base
                + self.mounts@[i].size <= (#[trigger] self.mounts@[j]).base || self.mounts@[j].base
                + self.mounts@[j].size <= self.mounts@[i].base)
        &&& forall|i: int, j: int|
            0 <= i < j < self.mounts@.len() ==> (#[trigger] self.mounts@[i]).component != (
            #[trigger] self.mounts@[j]).component
        &&& forall|i: int, j: int|
            0 <= i < j < self.mounts@.len() ==> (#[trigger] self.mounts@[i]).base <= (
            #[trigger] self.mounts@[j]).base
    }

    /// An empty bus.
    pub fn new() -> (r: Bus)
        ensures
            r.wf(),
            r.mounts@.len() == 0,
    {
        Bus { mounts: Vec::new() }
    }

    /// Whether some mount covers the whole range `[address, address + len)`.
    pub open spec fn spec_covers_range(&self, address: int, len: int) -> bool {
        exists|i: int|
            0 <= i < self.mounts@.len() && (#[trigger] self.mounts@[i]).spec_contains_range(
                address,
                len,
            )
    }

    /// Mounts a component of the given size at `base`, keeping the table
    /// sorted; the new range must be inside the address space, disjoint
    /// from every existing mount, and carry a fresh component id.
    pub fn insert(&mut self, base: MemoryAddress, size: MemorySize, component: ComponentId)
        requires
            old(self).wf(),
            base + size <= usize::MAX,
            forall|i: int|
                0 <= i < old(self).mounts@.len() ==> (base + size <= (
                #[trigger] old(self).mounts@[i]).base || old(self).mounts@[i].base + old(
                    self,
                ).mounts@[i].size <= base),
            forall|i: int|
                0 <= i < old(self).mounts@.len() ==> (#[trigger] old(self).mounts@[i]).component
                    != component,
        ensures
            final(self).wf(),
            final(self).mounts@.len() == old(self).mounts@.len() + 1,
            final(self).mounts@.contains(BusMount { base, size, component }),
            forall|i: int|
                0 <= i < final(self).mounts@.len() ==> (old(self).mounts@.contains(
                    #[trigger] final(self).mounts@[i],
                ) || final(self).mounts@[i] == (BusMount { base, size, component })),
            forall|i: int|
                0 <= i < old(self).mounts@.len() ==> final(self).mounts@.contains(
                    #[trigger] old(self).mounts@[i],
                ),
    {
        let mount = BusMount { base, size, component };
        let count = self.mounts.len();
        let mut pos: usize = 0;
        while pos < count && self.mounts[pos].base <= base
            invariant
                pos <= count,
                count == self.mounts@.len(),
                forall|i: int| 0 <= i < pos ==> (#[trigger] self.mounts@[i]).base <= base,
            decreases count - pos,
        {
            pos = pos + 1;
        }
        self.mounts.insert(pos, mount);
        proof {
            let pre = old(self).mounts@;
            let post = self.mounts@;
            assert forall|i: int| 0 <= i < post.len() implies (pre.contains(#[trigger] post[i])
                || post[i] == mount) by {
                if i < pos {
                    assert(post[i] == pre[i]);
                } else if i > pos {
                    assert(post[i] == pre[i - 1]);
                }
            }
            assert forall|i: int| 0 <= i < pre.len() implies post.contains(#[trigger] pre[i]) by {
                if i < pos {
                    assert(post[i] == pre[i]);
                } else {
                    assert(post[i + 1] == pre[i]);
                }
            }
            assert(post[pos as int] == mount);
        }
    }

    /// Finds the mount that covers the whole range
    /// `[address, address + size)` and returns its component together with
    /// the range's offset from the mount's base; fails with a `Misc` fault
    /// when the range is empty or no single mount covers it.
    pub fn get_component_at(&self, address: MemoryAddress, size: MemorySize) -> (r: Result<
        (ComponentId, MemoryAddress),
        Error,
    >)
        requires
            self.wf(),
        ensures
            match r {
                Ok(found) => size > 0 && exists|i: int|
                    0 <= i < self.mounts@.len() && (#[trigger] self.mounts@[i]).spec_contains_range(
                        address as int,
                        size as int,
                    ) && found.0 == self.mounts@[i].component && found.1 == address
                        - self.mounts@[i].base,
                Err(e) => (size == 0 || !self.spec_covers_range(address as int, size as int)) && (
                e matches Error::Emulator(k, _) && k == EmulatorErrorKind::Misc),
            },
    {
        if size > 0 && address <= usize::MAX - (size - 1) {
            let last = address + (size - 1);
            let count = self.mounts.len();
            let mut idx: usize = 0;
            while idx < count
                invariant
                    idx <= count,
                    count == self.mounts@.len(),
                    self.wf(),
                    0 < size,
                    address + size - 1 == last,
                    forall|i: int|
                        0 <= i < idx ==> !(#[trigger] self.mounts@[i]).spec_contains_range(
                            address as int,
                            size as int,
                        ),
                decreases count - idx,
            {
                let mount = self.mounts[idx];
                if mount.contains(address) && mount.contains(last) {
                    proof {
                        assert(self.mounts@[idx as int].spec_contains_range(
                            address as int,
                            size as int,
                        ));
                    }
                    return Ok((mount.component, address - mount.base));
                }
                proof {
                    assert(!self.mounts@[idx as int].spec_contains_range(
                        address as int,
                        size as int,
                    ));
                }
                idx = idx + 1;
            }
            Err(Error::emulator(EmulatorErrorKind::Misc, "no mapped component covers the range"))
        } else {
            proof {
                if size > 0 && !(address + (size - 1) <= usize::MAX) {
                    assert forall|i: int|
                        0 <= i < self.mounts@.len() implies !(
                    #[trigger] self.mounts@[i]).spec_contains_range(
                        address as int,
                        size as int,
                    ) by {}
                }
            }
            Err(Error::emulator(EmulatorErrorKind::Misc, "no mapped component covers the range"))
        }
    }

    /// One past the highest address of the last mount: the bus size when
    /// mounts are contiguous from zero.
    pub fn size(&self) -> (r: usize)
        requires
            self.wf(),
            self.mounts@.len() > 0,
        ensures
            r == self.mounts@.last().base + self.mounts@.last().size,
    {
        let last = self.mounts[self.mounts.len() - 1];
        last.base + last.size
    }
}

} // verus!
