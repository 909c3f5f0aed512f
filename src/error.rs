use vstd::prelude::*;

verus! {

/// The ways an operation on values can fail.
#[derive(Debug, Clone, Copy, PartialEq, Eq, Structural)]
pub enum AgoError {
    /// No rule of the casting matrix covers the pair of kinds.
    UnsupportedCast,
    /// A string does not parse into the requested numeric kind.
    CastParseFailure,
    /// An index is negative or not below the length.
    IndexOutOfBounds,
    /// A struct has no entry under the key.
    KeyNotFound,
    /// The key's kind does not suit the container.
    KeyTypeMismatch,
    /// A typed list is given a value of another kind.
    ValueKindMismatch,
    /// A string character is replaced by something other than one character.
    InvalidCharacterReplacement,
    /// The container kind does not support the operation.
    UnsupportedContainerOperation,
    /// The operator is not defined on these operand kinds.
    UnsupportedOperandKinds,
    /// Both operands of null-coalescing are null.
    BothOperandsNull,
    /// An integer result does not fit in 128 bits.
    IntegerOverflow,
    /// An integer division or remainder by zero.
    DivisionByZero,
}

} // verus!
