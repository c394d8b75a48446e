use vstd::prelude::*;

verus! {

/// A structural violation found while loading an object file.  Loading is
/// all-or-nothing: any of these means no instruction is ever executed.
#[derive(Clone, Copy, PartialEq, Eq, Structural, Debug)]
pub enum FormatError {
    /// The buffer ended (or a section boundary was crossed) while more
    /// bytes were required.
    Truncated,
    /// A variable-length integer does not fit in `usize`.
    VintTooLarge,
    /// The four signature bytes at the start of the buffer are wrong.
    BadSignature,
    /// The version field differs from the single supported version.
    BadVersion,
    /// A section that this executor requires to be empty is not.
    ReservedNotEmpty,
    /// A string-table entry is not valid UTF-8.
    BadString,
}

/// The reason a fatal runtime fault was raised during dispatch.
#[derive(Clone, Copy, PartialEq, Eq, Structural, Debug)]
pub enum FaultKind {
    /// The opcode byte is not one of the defined opcodes.
    UnknownOpcode,
    /// An immediate operand was truncated or does not fit in `usize`.
    BadOperand,
    /// An opcode needed more operand-stack values than were present.
    StackUnderflow,
    /// A value had a different kind than the opcode demands.
    TypeMismatch,
    /// A table, slot, or element index is out of range.
    IndexOutOfRange,
    /// A dictionary read named a key that is not present.
    KeyNotFound,
    /// The name handed to the builtin-call opcode is not a known builtin.
    UnknownBuiltin,
    /// The target needs a module, class, or host facility that this
    /// minimal executor never loads.
    Unresolved,
    /// A return was executed with no active frame.
    FrameUnderflow,
    /// A function descriptor declares more parameters than local slots.
    BadFunction,
}

/// How a run ends abnormally.  A `Fault` is fatal and unrecoverable; a
/// `Raised` exception is semantically catchable (though this minimal
/// executor loads no handler tables, so it too ends the run) and is kept
/// distinguishable from a fault.  Both carry the offset of the opcode
/// that was executing.
#[derive(Debug)]
pub enum RunError {
    Fault { kind: FaultKind, at: usize },
    Raised { name: Vec<u8>, at: usize },
}

} // verus!
