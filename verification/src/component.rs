//! The component registry's building blocks: identity and capability
//! projection.
//!
//! A component is an identified implementation.  Implementations are a
//! closed set of variants, and a capability (addressable, steppable) is
//! whatever the variant supports; nothing here relies on inheritance or
//! dynamic dispatch.

use vstd::prelude::*;

use crate::audio::Audio;
use crate::cpu::Cpu;
use crate::memory::MemoryBlock;
use crate::timer::Timer;

verus! {

/// An address on the bus.
pub type MemoryAddress = usize;

/// A size or length of a bus region.
pub type MemorySize = MemoryAddress;

/// The identity of a component; unique within one backend.
#[derive(Clone, Copy, Debug, PartialEq, Eq, Structural)]
pub struct ComponentId(pub usize);

/// The implementation carried by a component.
pub enum ComponentImpl {
    /// A byte region mounted on the bus (addressable).
    Memory(MemoryBlock),
    /// The 60 Hz timer (steppable).
    Timer(Timer),
    /// The CHIP-8 CPU (steppable).
    Cpu(Cpu),
    /// The 48 kHz audio generator (steppable).
    Audio(Audio),
    /// An implementation temporarily detached while its component steps.
    Vacant,
}

impl ComponentImpl {
    /// Whether the implementation answers bus reads and writes.
    pub open spec fn is_addressable(&self) -> bool {
        self matches ComponentImpl::Memory(_)
    }

    /// Whether the scheduler can step the implementation.
    pub open spec fn is_steppable(&self) -> bool {
        ||| self matches ComponentImpl::Timer(_)
        ||| self matches ComponentImpl::Cpu(_)
        ||| self matches ComponentImpl::Audio(_)
    }

    /// The bytes of a memory implementation; empty for anything else.
    pub open spec fn memory_contents(&self) -> Seq<u8> {
        match self {
            ComponentImpl::Memory(m) => m.contents(),
            _ => Seq::empty(),
        }
    }

    /// Whether a memory implementation is read-only; false for anything
    /// else.
    pub open spec fn memory_read_only(&self) -> bool {
        match self {
            ComponentImpl::Memory(m) => m.spec_read_only(),
            _ => false,
        }
    }

    /// The implementation's own invariant.
    pub open spec fn wf(&self) -> bool {
        match self {
            ComponentImpl::Memory(_) => true,
            ComponentImpl::Timer(_) => true,
            ComponentImpl::Cpu(c) => c.wf(),
            ComponentImpl::Audio(a) => a.wf(),
            ComponentImpl::Vacant => false,
        }
    }
}

/// An identified component.
pub struct Component {
    /// The component's identity.
    pub id: ComponentId,
    /// What the component does.
    pub imp: ComponentImpl,
}

} // verus!
