//! A codec for dBase / FoxPro tables and their memo stores.
//!
//! The library turns the fixed-layout bytes of a table into typed values and
//! back. It works on bytes that are in memory: whoever calls it reads and
//! writes the files. Every function is stated over a mathematical model of
//! the bytes and proved against it.
//!
//! - [`field`] holds the value of a field and the rules that read and write
//!   it, type by type; [`field_laws`] proves that reading undoes writing.
//! - [`padding`], [`digits`], [`numeric`], [`calendar`] and [`byte_order`]
//!   hold what the rules are made of: the trimming of pad bytes, decimal
//!   digits, decimal literals, dates and day counts, and integers of fixed
//!   width. [`calendar_laws`] proves that a day is found again from its day
//!   count.
//! - [`encoding`] holds the code page of a table.
//! - [`memo`] reads the long texts of a memo store, in its three layouts.
//! - [`header`], [`record`] and [`table`] hold the header of a table and the
//!   descriptors of its fields.
//! - [`reading`] and [`writing`] read and write the records of a table, and
//!   [`table_laws`] proves that a table that is written and read again gives
//!   back its records.
//!
//! The library has no floating point. A number of a numeric field is kept as
//! the decimal literal that stands in the file, and a number of a double or
//! currency field as its 64 bits.

pub mod byte_order;
pub mod calendar;
pub mod calendar_laws;
pub mod digits;
pub mod encoding;
pub mod error;
pub mod field;
pub mod field_laws;
pub mod field_type;
pub mod header;
pub mod memo;
pub mod numeric;
pub mod padding;
pub mod reading;
pub mod record;
pub mod table;
pub mod table_laws;
pub mod writing;

pub use crate::calendar::{Date, DateTime, Time};
pub use crate::encoding::{encoded_bytes, CodePage};
pub use crate::error::{Error, ErrorKind, FieldIOError};
pub use crate::field::FieldValue;
pub use crate::field_type::FieldType;
pub use crate::header::TableHeader;
pub use crate::memo::{MemoFileType, MemoHeader, MemoReader};
pub use crate::numeric::{Binary64, Decimal};
pub use crate::padding::trim_field_data;
pub use crate::reading::{NamedValue, Reader, Record, RecordIterator};
pub use crate::record::{FieldFlags, FieldInfo, FieldName};
pub use crate::table::TableInfo;
pub use crate::writing::{TableWriter, TableWriterBuilder};
