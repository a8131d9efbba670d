use vstd::prelude::*;

verus! {

/// The sum type whose discriminator byte was not recognised.
#[derive(Debug, Clone, Copy, PartialEq, Eq, Structural)]
pub enum SumKind {
    Expr,
    Stmt,
    Type,
    Constant,
    Initializer,
    IntLit,
    Nullable,
    ProcedureKind,
    ProcedureStubKind,
    Variance,
    InstanceAccessKind,
    DynamicAccessKind,
    FunctionAccessKind,
    LogicalOp,
    NonNullableMode,
}

/// The single error value of every encode and decode operation.
#[derive(Debug, Clone, Copy, PartialEq, Eq, Structural)]
pub enum KernelError {
    /// The input ended before the value did.
    ShortRead,
    /// A fixed tag did not hold the expected bytes.
    WrongMagic { expected: u32, actual: u32 },
    /// A variable-length integer does not fit in 30 bits.
    InvalidVarUint,
    /// An optional value's presence byte was neither 0 nor 1.
    InvalidOption(u8),
    /// A discriminator byte outside the table of its sum.
    UnknownTag { sum: SumKind, tag: u8 },
    /// A text payload that is not UTF-8.
    InvalidUtf8,
    /// A reference past the end of the table it points into.
    IndexOutOfRange { index: u32, len: u32 },
    /// The count after a class's procedure offsets differs from its procedure count.
    ClassIndexMismatch,
    /// A header whose format version is not supported.
    UnsupportedVersion(u32),
    /// A file position or count that does not fit in 32 bits.
    OffsetOverflow,
}

} // verus!
