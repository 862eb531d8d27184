//! The start of a table file: the header, and the descriptors of the fields.
//!
//! The header takes 32 bytes. Behind it stands one descriptor of 32 bytes
//! for each field, and behind the last descriptor the terminator byte.

use vstd::prelude::*;

use crate::byte_order::{
    append_bytes, le_bytes_u16, le_bytes_u32, le_u16, le_u32, read_u16_le, read_u32_le,
    u16_le_bytes, u32_le_bytes,
};
use crate::calendar::Date;
use crate::error::ErrorKind;
use crate::padding::{nuls, push_nuls};

verus! {

/// The size of the header in bytes.
pub const HEADER_SIZE: usize = 32;

/// The size of a field descriptor in bytes.
pub const DESCRIPTOR_SIZE: usize = 32;

/// The byte that stands behind the last field descriptor.
pub const TERMINATOR: u8 = 0x0D;

/// The byte that stands behind the last record.
pub const END_OF_FILE: u8 = 0x1A;

/// The flag byte of a record that is in use.
pub const NOT_DELETED: u8 = 0x20;

/// The flag byte of a record that was deleted.
pub const DELETED: u8 = 0x2A;

/// The bit of the table flags that says that the table has a memo store.
pub const HAS_MEMO: u8 = 0x02;

/// What the header of a table says of the file.
#[derive(Debug, Copy, Clone, PartialEq, Eq, Structural)]
pub struct TableHeader {
    /// The version byte, which names the dialect of the file.
    pub version: u8,
    /// The year of the last update, counted from 1900.
    pub update_year: u8,
    /// The month of the last update.
    pub update_month: u8,
    /// The day of the last update.
    pub update_day: u8,
    /// The number of records.
    pub record_count: u32,
    /// The number of bytes before the first record.
    pub header_length: u16,
    /// The number of bytes of a record, its deletion flag included.
    pub record_length: u16,
    /// The flag of a transaction that was not completed.
    pub transaction_flag: u8,
    /// The flag of an encrypted table.
    pub encryption_flag: u8,
    /// The table flags, one of which says that the table has a memo store.
    pub table_flags: u8,
    /// The language driver, which names the code page.
    pub language_driver: u8,
}

/// The header that the first 32 bytes of `s` hold.
pub open spec fn header_of(s: Seq<u8>) -> TableHeader {
    TableHeader {
        version: s[0],
        update_year: s[1],
        update_month: s[2],
        update_day: s[3],
        record_count: le_u32(s.skip(4)) as u32,
        header_length: le_u16(s.skip(8)) as u16,
        record_length: le_u16(s.skip(10)) as u16,
        transaction_flag: s[14],
        encryption_flag: s[15],
        table_flags: s[28],
        language_driver: s[29],
    }
}

impl TableHeader {
    /// The 32 bytes of this header. The reserved bytes are zero.
    pub open spec fn bytes(self) -> Seq<u8> {
        seq![self.version, self.update_year, self.update_month, self.update_day] + le_bytes_u32(
            self.record_count as int,
        ) + le_bytes_u16(self.header_length as int) + le_bytes_u16(self.record_length as int)
            + seq![0u8, 0u8, self.transaction_flag, self.encryption_flag] + nuls(12)
            + seq![self.table_flags, self.language_driver, 0u8, 0u8]
    }

    /// The date of the last update.
    pub open spec fn last_update_date(self) -> Date {
        Date {
            year: (1900 + self.update_year) as u32,
            month: self.update_month as u32,
            day: self.update_day as u32,
        }
    }

    /// The date of the last update.
    pub fn last_update(&self) -> (date: Date)
        ensures
            date == self.last_update_date(),
    {
        Date {
            year: 1900 + self.update_year as u32,
            month: self.update_month as u32,
            day: self.update_day as u32,
        }
    }

    /// Whether the table flags say that the table has a memo store.
    pub fn has_memo(&self) -> (b: bool)
        ensures
            b == (self.table_flags & HAS_MEMO != 0),
    {
        self.table_flags & HAS_MEMO != 0
    }

    /// Reads the header from the start of `src`. Fewer than 32 bytes are an
    /// early end of the source.
    pub fn read_from(src: &[u8]) -> (r: Result<TableHeader, ErrorKind>)
        ensures
            r == if src@.len() >= HEADER_SIZE {
                Ok::<TableHeader, ErrorKind>(header_of(src@))
            } else {
                Err(ErrorKind::UnexpectedEof)
            },
    {
        if src.len() < HEADER_SIZE {
            return Err(ErrorKind::UnexpectedEof);
        }
        let count_bytes = vstd::slice::slice_subrange(src, 4, src.len());
        let header_length_bytes = vstd::slice::slice_subrange(src, 8, src.len());
        let record_length_bytes = vstd::slice::slice_subrange(src, 10, src.len());
        proof {
            assert(count_bytes@ =~= src@.skip(4));
            assert(header_length_bytes@ =~= src@.skip(8));
            assert(record_length_bytes@ =~= src@.skip(10));
        }
        Ok(
            TableHeader {
                version: src[0],
                update_year: src[1],
                update_month: src[2],
                update_day: src[3],
                record_count: read_u32_le(count_bytes),
                header_length: read_u16_le(header_length_bytes),
                record_length: read_u16_le(record_length_bytes),
                transaction_flag: src[14],
                encryption_flag: src[15],
                table_flags: src[28],
                language_driver: src[29],
            },
        )
    }

    /// Appends the 32 bytes of this header to `dst`.
    pub fn write_to(&self, dst: &mut Vec<u8>)
        ensures
            final(dst)@ == old(dst)@ + self.bytes(),
    {
        dst.push(self.version);
        dst.push(self.update_year);
        dst.push(self.update_month);
        dst.push(self.update_day);
        let count = u32_le_bytes(self.record_count);
        append_bytes(dst, count.as_slice());
        let header_length = u16_le_bytes(self.header_length);
        append_bytes(dst, header_length.as_slice());
        let record_length = u16_le_bytes(self.record_length);
        append_bytes(dst, record_length.as_slice());
        dst.push(0);
        dst.push(0);
        dst.push(self.transaction_flag);
        dst.push(self.encryption_flag);
        push_nuls(dst, 12);
        dst.push(self.table_flags);
        dst.push(self.language_driver);
        dst.push(0);
        dst.push(0);
        proof {
            assert(dst@ =~= old(dst)@ + self.bytes());
        }
    }
}

/// A header is read back from its bytes as it was written.
pub proof fn lemma_header_round_trip(header: TableHeader)
    ensures
        header.bytes().len() == HEADER_SIZE,
        header_of(header.bytes()) == header,
{
    let s = header.bytes();
    let count = le_bytes_u32(header.record_count as int);
    let hl = le_bytes_u16(header.header_length as int);
    let rl = le_bytes_u16(header.record_length as int);
    assert(s.len() == 32);
    crate::byte_order::lemma_le_u32_round_trip(header.record_count as int);
    assert(le_u32(s.skip(4)) == le_u32(count)) by {
        assert(s.skip(4)[0] == count[0]);
        assert(s.skip(4)[1] == count[1]);
        assert(s.skip(4)[2] == count[2]);
        assert(s.skip(4)[3] == count[3]);
    }
    assert(le_u16(s.skip(8)) == header.header_length) by {
        assert(s.skip(8)[0] == hl[0]);
        assert(s.skip(8)[1] == hl[1]);
    }
    assert(le_u16(s.skip(10)) == header.record_length) by {
        assert(s.skip(10)[0] == rl[0]);
        assert(s.skip(10)[1] == rl[1]);
    }
}

} // verus!
