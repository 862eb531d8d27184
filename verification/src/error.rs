//! The ways in which reading or writing a table can fail.

use vstd::prelude::*;

verus! {

/// What went wrong while a table, a record or a single field was read or written.
#[derive(Debug, Clone, Copy, PartialEq, Eq, Structural)]
pub enum ErrorKind {
    /// The byte source ended before the bytes that were asked for.
    UnexpectedEof,
    /// A header or a field descriptor breaks the layout of the format.
    MalformedHeader,
    /// The type tag of a field descriptor is none of the ten known tags.
    InvalidFieldType(char),
    /// A memo field was met but no memo store was given.
    MissingMemoFile,
    /// The label names no known code page.
    InvalidEncoding,
    /// The value handed to the writer is not of the type the field declares.
    IncompatibleType,
    /// The text of a numeric field is not a decimal literal.
    ParseFloatError,
    /// The text of a date or of a memo index is not an unsigned integer.
    ParseIntError,
    /// The text has a character that the code page cannot represent.
    UnencodableText,
    /// The encoded value needs more bytes than the field has.
    ValueTooLong,
    /// A numeric text does not have the number of fraction digits that the field declares.
    BadNumericScale,
    /// Writing the content of a memo is not supported.
    MemoWriteUnsupported,
    /// A field name is longer than the format allows, or is used twice.
    InvalidFieldName,
    /// A record has fewer values than the table has fields.
    NotEnoughFields,
    /// A record has more values than the table has fields.
    TooManyFields,
    /// The table has as many records as its header can count.
    TooManyRecords,
}

/// The failure of one field of a record: which field failed, by its place
/// among the fields of the table, and how.
#[derive(Debug, Clone, Copy, PartialEq, Eq, Structural)]
pub struct FieldIOError {
    /// The place of the field among the fields of the table, from zero.
    pub field: usize,
    /// What went wrong.
    pub kind: ErrorKind,
}

impl FieldIOError {
    /// What went wrong.
    pub fn kind(&self) -> (kind: ErrorKind)
        ensures
            kind == self.kind,
    {
        self.kind
    }
}

/// The failure of one record of a table: which record failed, which of its
/// fields if the failure is that of a field, and how.
#[derive(Debug, Clone, Copy, PartialEq, Eq, Structural)]
pub struct Error {
    /// The number of the record in the table, from zero.
    pub record_num: usize,
    /// The place of the field that failed among the fields of the table.
    pub field: Option<usize>,
    /// What went wrong.
    pub kind: ErrorKind,
}

impl Error {
    /// What went wrong.
    pub fn kind(&self) -> (kind: ErrorKind)
        ensures
            kind == self.kind,
    {
        self.kind
    }
}

} // verus!
