//! Errors reported by the parser and by the decoder.
use vstd::prelude::*;

verus! {

/// What went wrong while parsing source text.
#[derive(Clone, Copy, Debug, PartialEq, Eq, Structural)]
pub enum ParseErrorKind {
    /// A token that names no instruction.
    UnknownInstruction,
    /// An instruction without the operand it needs.
    MissingParameter,
    /// An instruction with more operands than it takes.
    ExtraParameters,
    /// An operand that is not a decimal or `0x` hexadecimal number.
    MalformedNumber,
    /// An operand outside the range its instruction allows.
    ValueOutOfRange,
    /// A keyword where it cannot stand, such as `else` outside a conditional.
    UnexpectedToken,
    /// The source ended before a block was closed.
    UnclosedBlock,
    /// A second procedure with a name already declared.
    DuplicateProcedure,
    /// An exported procedure in a program.
    ExportInProgram,
    /// A program without a `begin ... end` body.
    MissingBody,
    /// A module with a `begin ... end` body.
    BodyInModule,
    /// A call to a procedure that is neither declared nor imported.
    UndefinedProcedure,
    /// A second import whose last segment names an alias already bound.
    ConflictingImport,
    /// An import after a declaration or a body.
    MisplacedImport,
    /// A blank line inside the documentation above a declaration.
    DocumentationBlankLine,
    /// A `proc` or `export` header that is not well formed.
    MalformedDeclaration,
    /// More procedures than a 16-bit index can name.
    TooManyProcedures,
}

/// A parse failure: its kind, the line where it was found, and the offending token.
#[derive(Clone, Debug, PartialEq, Eq)]
pub struct ParsingError {
    pub kind: ParseErrorKind,
    pub line: usize,
    pub token: String,
}

/// What went wrong while decoding bytes.
#[derive(Clone, Copy, Debug, PartialEq, Eq, Structural)]
pub enum DecodeErrorKind {
    /// The input ended inside a value.
    Truncated,
    /// A tag, flag or opcode byte with no meaning at its place.
    UnknownTag,
    /// A value outside its range: a non-canonical field element, a character code
    /// that is not a Unicode scalar value, or a count a push cannot have.
    InvalidValue,
    /// Bytes left over after the value.
    TrailingBytes,
    /// A decoded unit that breaks the program or module rules.
    RuleViolation,
}

/// A decode failure: its kind and the byte offset where it was found.
#[derive(Clone, Copy, Debug, PartialEq, Eq, Structural)]
pub struct DecodeError {
    pub kind: DecodeErrorKind,
    pub offset: usize,
}

} // verus!
