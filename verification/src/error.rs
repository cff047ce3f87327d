//! Error surface of the emulation kernel.

use vstd::prelude::*;

verus! {

/// The class of an emulator fault raised inside a component step.
#[derive(Clone, Copy, Debug, PartialEq, Eq, Structural)]
pub enum EmulatorErrorKind {
    /// An access fell outside the addressed region.
    MemoryAccessOutOfBounds,
    /// A write hit a read-only region.
    MemoryAccessReadOnly,
    /// The CPU fetched an opcode it does not know.
    UnknownOpcode,
    /// Any other emulator fault.
    Misc,
}

/// An error surfaced by the kernel: an emulator fault with its kind, or a
/// configuration or wiring error, each with a free-form message.
#[derive(Clone, Debug)]
pub enum Error {
    /// A fault produced while emulating, tagged with its kind.
    Emulator(EmulatorErrorKind, String),
    /// Anything outside the emulation itself.
    Other(String),
}

impl Error {
    /// A miscellaneous emulator fault carrying `msg`.
    pub fn new(msg: &str) -> (r: Error)
        ensures
            r matches Error::Emulator(k, m) && k == EmulatorErrorKind::Misc && m@ == msg@,
    {
        Error::Emulator(EmulatorErrorKind::Misc, msg.to_owned())
    }

    /// An emulator fault of the given kind carrying `msg`.
    pub fn emulator(kind: EmulatorErrorKind, msg: &str) -> (r: Error)
        ensures
            r matches Error::Emulator(k, m) && k == kind && m@ == msg@,
    {
        Error::Emulator(kind, msg.to_owned())
    }

    /// The fault kind, or `None` for a non-emulator error.
    pub fn kind(&self) -> (r: Option<EmulatorErrorKind>)
        ensures
            match self {
                Error::Emulator(k, _) => r == Some(*k),
                Error::Other(_) => r is None,
            },
    {
        match self {
            Error::Emulator(k, _) => Some(*k),
            Error::Other(_) => None,
        }
    }
}

/// Failure to bind a channel to a frontend, or a frontend-specific error.
#[derive(Clone, Copy, Debug, PartialEq, Eq, Structural)]
pub enum FrontendError {
    /// The frontend has no text sink.
    TextNotSupported,
    /// The frontend has no graphics sink.
    GraphicsNotSupported,
    /// The frontend has no audio sink.
    AudioNotSupported,
    /// The frontend has no input source.
    InputNotSupported,
}

} // verus!
