//! A contiguous byte region, optionally read-only, addressed from zero.

use vstd::prelude::*;

use crate::error::{EmulatorErrorKind, Error};

verus! {

/// A contiguous block of bytes with an optional read-only flag.
///
/// Reads and writes are bounds-checked against the block's size; a write on
/// a read-only block fails before anything else is examined, as does an
/// access that overruns the block.
pub struct MemoryBlock {
    read_only: bool,
    data: Vec<u8>,
}

impl MemoryBlock {
    /// The bytes held by the block.
    pub closed spec fn contents(&self) -> Seq<u8> {
        self.data@
    }

    /// Whether the block rejects writes.
    pub closed spec fn spec_read_only(&self) -> bool {
        self.read_only
    }

    /// A writable block holding exactly `data`.
    pub fn from_vec(data: Vec<u8>) -> (r: MemoryBlock)
        ensures
            r.contents() == data@,
            !r.spec_read_only(),
    {
        MemoryBlock { read_only: false, data }
    }

    /// Marks the block read-only; once set the flag stays set.
    pub fn set_read_only(&mut self)
        ensures
            final(self).spec_read_only(),
            final(self).contents() == old(self).contents(),
    {
        self.read_only = true;
    }

    /// Grows the block with zero bytes, or truncates it, to `size` bytes.
    pub fn resize(&mut self, size: usize)
        ensures
            final(self).contents().len() == size,
            final(self).spec_read_only() == old(self).spec_read_only(),
            size <= old(self).contents().len() ==> final(self).contents() == old(
                self,
            ).contents().subrange(0, size as int),
            size > old(self).contents().len() ==> {
                &&& final(self).contents().subrange(0, old(self).contents().len() as int) == old(
                    self,
                ).contents()
                &&& forall|i: int|
                    old(self).contents().len() <= i < size ==> final(self).contents()[i] == 0
            },
    {
        self.data.resize(size, 0);
    }

    /// The number of bytes the block holds.
    pub fn size(&self) -> (r: usize)
        ensures
            r == self.contents().len(),
    {
        self.data.len()
    }

    /// Copies `len` bytes starting at `address` out of the block.
    ///
    /// Fails with `MemoryAccessOutOfBounds` exactly when `address + len`
    /// overruns the block.
    pub fn read(&self, address: usize, len: usize) -> (r: Result<Vec<u8>, Error>)
        ensures
            match r {
                Ok(buf) => address + len <= self.contents().len() && buf@ == self.contents().subrange(
                    address as int,
                    address as int + len as int,
                ),
                Err(e) => address + len > self.contents().len() && (e matches Error::Emulator(
                    k,
                    _,
                ) && k == EmulatorErrorKind::MemoryAccessOutOfBounds),
            },
    {
        if len > self.data.len() || address > self.data.len() - len {
            return Err(
                Error::emulator(
                    EmulatorErrorKind::MemoryAccessOutOfBounds,
                    "read overruns memory block",
                ),
            );
        }
        let mut buf: Vec<u8> = Vec::new();
        let dlen = self.data.len();
        let mut idx: usize = 0;
        while idx < len
            invariant
                address + len <= dlen,
                dlen == self.data@.len(),
                idx <= len,
                buf@ == self.data@.subrange(address as int, address as int + idx as int),
            decreases len - idx,
        {
            buf.push(self.data[address + idx]);
            idx = idx + 1;
            proof {
                assert(buf@ =~= self.data@.subrange(address as int, address as int + idx as int));
            }
        }
        Ok(buf)
    }

    /// Copies `buffer` into the block starting at `address`.
    ///
    /// Fails with `MemoryAccessReadOnly` when the block is read-only, and
    /// otherwise with `MemoryAccessOutOfBounds` exactly when the write
    /// would overrun the block.
    pub fn write(&mut self, address: usize, buffer: &[u8]) -> (r: Result<(), Error>)
        ensures
            final(self).spec_read_only() == old(self).spec_read_only(),
            match r {
                Ok(_) => !old(self).spec_read_only() && address + buffer@.len() <= old(
                    self,
                ).contents().len() && final(self).contents() == old(self).contents().subrange(
                    0,
                    address as int,
                ) + buffer@ + old(self).contents().subrange(
                    address as int + buffer@.len() as int,
                    old(self).contents().len() as int,
                ),
                Err(e) => final(self).contents() == old(self).contents() && (e matches Error::Emulator(
                    k,
                    _,
                ) && if old(self).spec_read_only() {
                    k == EmulatorErrorKind::MemoryAccessReadOnly
                } else {
                    k == EmulatorErrorKind::MemoryAccessOutOfBounds && address + buffer@.len()
                        > old(self).contents().len()
                }),
            },
    {
        if self.read_only {
            return Err(
                Error::emulator(
                    EmulatorErrorKind::MemoryAccessReadOnly,
                    "write to read-only memory block",
                ),
            );
        }
        let blen = buffer.len();
        if blen > self.data.len() || address > self.data.len() - blen {
            return Err(
                Error::emulator(
                    EmulatorErrorKind::MemoryAccessOutOfBounds,
                    "write overruns memory block",
                ),
            );
        }
        let dlen = self.data.len();
        let mut idx: usize = 0;
        while idx < blen
            invariant
                address + blen <= dlen,
                dlen == self.data@.len(),
                blen == buffer@.len(),
                idx <= blen,
                dlen == old(self).contents().len(),
                forall|k: int| 0 <= k < address ==> self.data@[k] == old(self).contents()[k],
                forall|k: int|
                    address <= k < address + idx ==> self.data@[k] == buffer@[k - address],
                forall|k: int|
                    address + idx <= k < dlen ==> self.data@[k] == old(self).contents()[k],
                self.read_only == old(self).spec_read_only(),
            decreases blen - idx,
        {
            self.data[address + idx] = buffer[idx];
            idx = idx + 1;
        }
        proof {
            assert(self.data@ =~= old(self).contents().subrange(0, address as int) + buffer@ + old(
                self,
            ).contents().subrange(
                address as int + buffer@.len() as int,
                old(self).contents().len() as int,
            ));
        }
        Ok(())
    }

    /// The single byte at `address`.
    ///
    /// Fails with `MemoryAccessOutOfBounds` exactly when `address` is
    /// outside the block.
    pub fn read_u8(&self, address: usize) -> (r: Result<u8, Error>)
        ensures
            match r {
                Ok(b) => address < self.contents().len() && b == self.contents()[address as int],
                Err(e) => address >= self.contents().len() && (e matches Error::Emulator(k, _)
                    && k == EmulatorErrorKind::MemoryAccessOutOfBounds),
            },
    {
        if address < self.data.len() {
            Ok(self.data[address])
        } else {
            Err(
                Error::emulator(
                    EmulatorErrorKind::MemoryAccessOutOfBounds,
                    "byte read outside memory block",
                ),
            )
        }
    }

    /// Writes the single byte `value` at `address`.
    pub fn write_u8(&mut self, address: usize, value: u8) -> (r: Result<(), Error>)
        ensures
            final(self).spec_read_only() == old(self).spec_read_only(),
            match r {
                Ok(_) => !old(self).spec_read_only() && address < old(self).contents().len()
                    && final(self).contents() == old(self).contents().update(
                    address as int,
                    value,
                ),
                Err(e) => final(self).contents() == old(self).contents() && (e matches Error::Emulator(
                    k,
                    _,
                ) && if old(self).spec_read_only() {
                    k == EmulatorErrorKind::MemoryAccessReadOnly
                } else {
                    k == EmulatorErrorKind::MemoryAccessOutOfBounds && address >= old(
                        self,
                    ).contents().len()
                }),
            },
    {
        if self.read_only {
            return Err(
                Error::emulator(
                    EmulatorErrorKind::MemoryAccessReadOnly,
                    "write to read-only memory block",
                ),
            );
        }
        if address < self.data.len() {
            self.data[address] = value;
            Ok(())
        } else {
            Err(
                Error::emulator(
                    EmulatorErrorKind::MemoryAccessOutOfBounds,
                    "byte write outside memory block",
                ),
            )
        }
    }
}

} // verus!
