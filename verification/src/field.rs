//! The value of one field of one record, and the rules that turn the bytes
//! of a field into a value and a value into bytes.

use vstd::prelude::*;

use crate::byte_order::{
    append_bytes, i32_le_bytes, le_bytes_u32, le_u32, le_u64, read_i32_le, read_u32_le,
    signed32, unsigned32,
};
use crate::calendar::{datetime_of_bytes, parsed_date, Date, DateTime};
use crate::digits::{parse_u32, parsed_u32};
use crate::encoding::{decoded_text, encoded_bytes, text_bytes, CodePage, MAX_TEXT_BYTES};
use crate::error::ErrorKind;
use crate::field_type::FieldType;
use crate::memo::{memo_read, MemoReader, MemoReaderView};
use crate::numeric::{fits_places, is_decimal_literal, Binary64, Decimal};
use crate::padding::{lemma_trimmed_shape, trim_field_data, trimmed, PAD};
use crate::record::{FieldInfo, FieldInfoView};

verus! {

/// The byte that fills a numeric field whose number was too wide for it.
pub const OVERFLOW_MARK: u8 = 0x2A;

/// The value of one field of one record.
///
/// The values of the text-like types can be absent: a field that holds
/// nothing but padding has no value. A number of a numeric or float field
/// is the decimal literal of the file, and a number of a double or currency
/// field is its 64 bits.
#[derive(Debug, PartialEq, Eq)]
pub enum FieldValue {
    /// A text.
    Character(Option<String>),
    /// A number written in decimal digits.
    Numeric(Option<Decimal>),
    /// A truth value.
    Logical(Option<bool>),
    /// A date.
    Date(Option<Date>),
    /// Another number written in decimal digits.
    Float(Option<Decimal>),
    /// A signed number of four bytes.
    Integer(i32),
    /// An amount of money, in binary floating point.
    Currency(Binary64),
    /// A date and a time of day.
    DateTime(DateTime),
    /// A number in binary floating point.
    Double(Binary64),
    /// A long text, which the memo store holds.
    Memo(String),
}

/// What a field value holds.
pub enum FieldValueView {
    Character(Option<Seq<char>>),
    Numeric(Option<Seq<u8>>),
    Logical(Option<bool>),
    Date(Option<Date>),
    Float(Option<Seq<u8>>),
    Integer(i32),
    Currency(Binary64),
    DateTime(DateTime),
    Double(Binary64),
    Memo(Seq<char>),
}

impl FieldValueView {
    /// The type of field that holds a value of this kind.
    pub open spec fn field_type(self) -> FieldType {
        match self {
            FieldValueView::Character(_) => FieldType::Character,
            FieldValueView::Numeric(_) => FieldType::Numeric,
            FieldValueView::Logical(_) => FieldType::Logical,
            FieldValueView::Integer(_) => FieldType::Integer,
            FieldValueView::Float(_) => FieldType::Float,
            FieldValueView::Double(_) => FieldType::Double,
            FieldValueView::Date(_) => FieldType::Date,
            FieldValueView::Memo(_) => FieldType::Memo,
            FieldValueView::Currency(_) => FieldType::Currency,
            FieldValueView::DateTime(_) => FieldType::DateTime,
        }
    }

    /// The numbers of the value are decimal literals.
    pub open spec fn wf(self) -> bool {
        match self {
            FieldValueView::Numeric(Some(text)) => is_decimal_literal(text),
            FieldValueView::Float(Some(text)) => is_decimal_literal(text),
            _ => true,
        }
    }
}

impl View for FieldValue {
    type V = FieldValueView;

    open spec fn view(&self) -> FieldValueView {
        match self {
            FieldValue::Character(Some(text)) => FieldValueView::Character(Some(text@)),
            FieldValue::Character(None) => FieldValueView::Character(None),
            FieldValue::Numeric(Some(number)) => FieldValueView::Numeric(Some(number@)),
            FieldValue::Numeric(None) => FieldValueView::Numeric(None),
            FieldValue::Logical(value) => FieldValueView::Logical(*value),
            FieldValue::Date(value) => FieldValueView::Date(*value),
            FieldValue::Float(Some(number)) => FieldValueView::Float(Some(number@)),
            FieldValue::Float(None) => FieldValueView::Float(None),
            FieldValue::Integer(value) => FieldValueView::Integer(*value),
            FieldValue::Currency(value) => FieldValueView::Currency(*value),
            FieldValue::DateTime(value) => FieldValueView::DateTime(*value),
            FieldValue::Double(value) => FieldValueView::Double(*value),
            FieldValue::Memo(text) => FieldValueView::Memo(text@),
        }
    }
}

impl Clone for FieldValue {
    fn clone(&self) -> (copy: FieldValue)
        ensures
            copy@ == self@,
    {
        match self {
            FieldValue::Character(Some(text)) => FieldValue::Character(Some(text.clone())),
            FieldValue::Character(None) => FieldValue::Character(None),
            FieldValue::Numeric(Some(number)) => FieldValue::Numeric(Some(number.clone())),
            FieldValue::Numeric(None) => FieldValue::Numeric(None),
            FieldValue::Logical(value) => FieldValue::Logical(*value),
            FieldValue::Date(value) => FieldValue::Date(*value),
            FieldValue::Float(Some(number)) => FieldValue::Float(Some(number.clone())),
            FieldValue::Float(None) => FieldValue::Float(None),
            FieldValue::Integer(value) => FieldValue::Integer(*value),
            FieldValue::Currency(value) => FieldValue::Currency(*value),
            FieldValue::DateTime(value) => FieldValue::DateTime(*value),
            FieldValue::Double(value) => FieldValue::Double(*value),
            FieldValue::Memo(text) => FieldValue::Memo(text.clone()),
        }
    }
}

/// The truth value that the byte of a logical field stands for: `T`, `t`,
/// `Y`, `y` and `1` are true, `F`, `f`, `N` and `n` are false, and any other
/// byte, the space and the question mark among them, is no value.
pub open spec fn logical_of(b: u8) -> Option<bool> {
    if b == 0x54 || b == 0x74 || b == 0x59 || b == 0x79 || b == 0x31 {
        Some(true)
    } else if b == 0x46 || b == 0x66 || b == 0x4E || b == 0x6E {
        Some(false)
    } else {
        None
    }
}

/// Whether `s` holds overflow marks only.
pub open spec fn all_marks(s: Seq<u8>) -> bool {
    forall|i: int| 0 <= i < s.len() ==> s[i] == OVERFLOW_MARK
}

/// The number that the bytes of a numeric field hold: none where the
/// trimmed bytes are empty or overflow marks only, else the literal that
/// they are. Trimmed bytes that are no decimal literal are a failure.
pub open spec fn number_of(bytes: Seq<u8>) -> Result<Option<Seq<u8>>, ErrorKind> {
    let text = trimmed(bytes);
    if text.len() == 0 || all_marks(text) {
        Ok(None)
    } else if is_decimal_literal(text) {
        Ok(Some(text))
    } else {
        Err(ErrorKind::ParseFloatError)
    }
}

/// The date that the bytes of a date field hold: none where they are
/// padding only, else the date that the trimmed bytes write.
pub open spec fn date_of(bytes: Seq<u8>) -> Result<Option<Date>, ErrorKind> {
    let text = trimmed(bytes);
    if text.len() == 0 {
        Ok(None)
    } else {
        match parsed_date(text) {
            Some(date) => Ok(Some(date)),
            None => Err(ErrorKind::ParseIntError),
        }
    }
}

/// What the bytes of a memo field say of where the text is.
pub enum MemoIndex {
    /// The field is padding only: the text is empty.
    Empty,
    /// The text starts at this block of the memo store.
    Block(u32),
    /// The field holds something that is no block index.
    Malformed,
}

/// The block index that the bytes of a memo field of width `length` hold: a
/// field of more than four bytes holds it in decimal digits, a field of
/// four bytes as a number, least significant byte first.
pub open spec fn memo_index_of(bytes: Seq<u8>, length: u8) -> MemoIndex {
    if length > 4 {
        let text = trimmed(bytes);
        if text.len() == 0 {
            MemoIndex::Empty
        } else {
            match parsed_u32(text) {
                Some(index) => MemoIndex::Block(index),
                None => MemoIndex::Malformed,
            }
        }
    } else {
        MemoIndex::Block(le_u32(bytes) as u32)
    }
}

/// The value of a memo field whose text the memo store gave as `looked_up`:
/// that text, read in the code page of the table. A failure of the store is
/// the failure of the field. So is a text of more than `MAX_TEXT_BYTES`
/// bytes, which is more than a code page can read on this machine.
pub open spec fn memo_value(looked_up: Result<Seq<u8>, ErrorKind>, encoding: Seq<char>) -> Result<
    FieldValueView,
    ErrorKind,
> {
    match looked_up {
        Ok(text) => if text.len() > MAX_TEXT_BYTES {
            Err(ErrorKind::ValueTooLong)
        } else {
            Ok(FieldValueView::Memo(decoded_text(encoding, text)))
        },
        Err(e) => Err(e),
    }
}

/// The value that the bytes `bytes` of a field described by `info` hold, in
/// a table whose code page has the label `encoding` and whose memo store,
/// if it has one, is in the state `memo`.
///
/// A text is what the code page reads from the trimmed bytes; bytes that
/// start with a byte-order mark are read in the encoding of that mark.
pub open spec fn decoded_field(
    bytes: Seq<u8>,
    info: FieldInfoView,
    encoding: Seq<char>,
    memo: Option<MemoReaderView>,
) -> Result<FieldValueView, ErrorKind> {
    match info.field_type {
        FieldType::Logical => Ok(FieldValueView::Logical(logical_of(bytes[0]))),
        FieldType::Character => {
            let text = trimmed(bytes);
            if text.len() == 0 {
                Ok(FieldValueView::Character(None))
            } else {
                Ok(FieldValueView::Character(Some(decoded_text(encoding, text))))
            }
        },
        FieldType::Numeric => match number_of(bytes) {
            Ok(number) => Ok(FieldValueView::Numeric(number)),
            Err(e) => Err(e),
        },
        FieldType::Float => match number_of(bytes) {
            Ok(number) => Ok(FieldValueView::Float(number)),
            Err(e) => Err(e),
        },
        FieldType::Date => match date_of(bytes) {
            Ok(date) => Ok(FieldValueView::Date(date)),
            Err(e) => Err(e),
        },
        FieldType::Integer => Ok(FieldValueView::Integer(signed32(le_u32(bytes)) as i32)),
        FieldType::Double => Ok(FieldValueView::Double(Binary64 { bits: le_u64(bytes) as u64 })),
        FieldType::Currency => Ok(
            FieldValueView::Currency(Binary64 { bits: le_u64(bytes) as u64 }),
        ),
        FieldType::DateTime => Ok(FieldValueView::DateTime(datetime_of_bytes(bytes))),
        FieldType::Memo => match memo_index_of(bytes, info.field_length) {
            MemoIndex::Empty => Ok(FieldValueView::Memo(Seq::empty())),
            MemoIndex::Malformed => Err(ErrorKind::ParseIntError),
            MemoIndex::Block(index) => match memo {
                Some(reader) => memo_value(memo_read(reader, index).result, encoding),
                None => Err(ErrorKind::MissingMemoFile),
            },
        },
    }
}

/// The state of the memo store after the bytes `bytes` of a field described
/// by `info` were read: only the lookup of a memo field changes it.
pub open spec fn memo_after(
    bytes: Seq<u8>,
    info: FieldInfoView,
    memo: Option<MemoReaderView>,
) -> Option<MemoReaderView> {
    match (info.field_type, memo_index_of(bytes, info.field_length), memo) {
        (FieldType::Memo, MemoIndex::Block(index), Some(reader)) => Some(
            MemoReaderView { buffer: memo_read(reader, index).buffer, ..reader },
        ),
        _ => memo,
    }
}

/// The state of a memo store that may be missing.
pub open spec fn memo_state(memo: Option<MemoReader>) -> Option<MemoReaderView> {
    match memo {
        Some(reader) => Some(reader@),
        None => None,
    }
}

/// The bytes of the text `text` of a character field in the code page of
/// label `encoding`. A text of more than `MAX_TEXT_BYTES` bytes, which is
/// more than a code page can write on this machine, is too long for any
/// field.
pub open spec fn character_bytes(text: Seq<char>, encoding: Seq<char>) -> Result<
    Seq<u8>,
    ErrorKind,
> {
    if vstd::utf8::encode_utf8(text).len() > MAX_TEXT_BYTES {
        Err(ErrorKind::ValueTooLong)
    } else {
        text_bytes(encoding, text)
    }
}

/// The bytes of a number in a field with `places` decimal places: its
/// literal, which must have exactly that many digits behind the point.
pub open spec fn number_bytes(number: Option<Seq<u8>>, places: u8) -> Result<Seq<u8>, ErrorKind> {
    match number {
        Some(text) => if fits_places(text, places as nat) {
            Ok(text)
        } else {
            Err(ErrorKind::BadNumericScale)
        },
        None => Ok(Seq::empty()),
    }
}

/// The bytes that the value `value` takes in a field described by `info`,
/// before padding. A value of another type than the field is refused before
/// anything else; the text of a memo cannot be written.
///
/// An absent text, number or truth value takes no bytes, an absent date
/// eight pad bytes. A truth value is written `t` or `f`.
pub open spec fn encoded_value(
    value: FieldValueView,
    info: FieldInfoView,
    encoding: Seq<char>,
) -> Result<Seq<u8>, ErrorKind> {
    if value.field_type() != info.field_type {
        Err(ErrorKind::IncompatibleType)
    } else {
        match value {
            FieldValueView::Character(Some(text)) => character_bytes(text, encoding),
            FieldValueView::Character(None) => Ok(Seq::empty()),
            FieldValueView::Numeric(number) => number_bytes(number, info.num_decimal_places),
            FieldValueView::Float(number) => number_bytes(number, info.num_decimal_places),
            FieldValueView::Logical(Some(true)) => Ok(seq![0x74u8]),
            FieldValueView::Logical(Some(false)) => Ok(seq![0x66u8]),
            FieldValueView::Logical(None) => Ok(Seq::empty()),
            FieldValueView::Date(Some(date)) => Ok(date.text()),
            FieldValueView::Date(None) => Ok(pads(8)),
            FieldValueView::Integer(number) => Ok(le_bytes_u32(unsigned32(number as int))),
            FieldValueView::Currency(number) => Ok(number.bytes()),
            FieldValueView::DateTime(value) => Ok(value.bytes()),
            FieldValueView::Double(number) => Ok(number.bytes()),
            FieldValueView::Memo(_) => Err(ErrorKind::MemoWriteUnsupported),
        }
    }
}

/// `count` pad bytes.
pub open spec fn pads(count: nat) -> Seq<u8> {
    Seq::new(count, |i: int| PAD)
}

/// The `length` bytes of a field that holds the bytes `value`: the value,
/// and pad bytes behind it. A value of more bytes than the field has is
/// refused.
pub open spec fn slot_of(value: Seq<u8>, length: u8) -> Result<Seq<u8>, ErrorKind> {
    if value.len() > length {
        Err(ErrorKind::ValueTooLong)
    } else {
        Ok(value + pads((length - value.len()) as nat))
    }
}

/// The bytes that a field described by `info` takes in a record when it
/// holds the value `value`: as many as the field is wide.
pub open spec fn encoded_field(
    value: FieldValueView,
    info: FieldInfoView,
    encoding: Seq<char>,
) -> Result<Seq<u8>, ErrorKind> {
    match encoded_value(value, info, encoding) {
        Ok(bytes) => slot_of(bytes, info.field_length),
        Err(e) => Err(e),
    }
}

/// Appends `count` pad bytes to `dst`.
pub fn push_pads(dst: &mut Vec<u8>, count: usize)
    ensures
        final(dst)@ == old(dst)@ + pads(count as nat),
{
    let mut i: usize = 0;
    while i < count
        invariant
            i <= count,
            dst@ == old(dst)@ + pads(i as nat),
        decreases count - i,
    {
        dst.push(PAD);
        proof {
            assert(dst@ =~= old(dst)@ + pads((i + 1) as nat));
        }
        i += 1;
    }
    proof {
        assert(old(dst)@ + pads(0) =~= old(dst)@);
    }
}

/// Whether `bytes` hold overflow marks only.
fn is_all_marks(bytes: &[u8]) -> (b: bool)
    ensures
        b == all_marks(bytes@),
{
    let mut i: usize = 0;
    while i < bytes.len()
        invariant
            i <= bytes@.len(),
            forall|k: int| 0 <= k < i ==> bytes@[k] == OVERFLOW_MARK,
        decreases bytes@.len() - i,
    {
        if bytes[i] != OVERFLOW_MARK {
            return false;
        }
        i += 1;
    }
    true
}

/// The truth value that the byte of a logical field stands for.
pub fn read_logical(b: u8) -> (value: Option<bool>)
    ensures
        value == logical_of(b),
{
    if b == 0x54 || b == 0x74 || b == 0x59 || b == 0x79 || b == 0x31 {
        Some(true)
    } else if b == 0x46 || b == 0x66 || b == 0x4E || b == 0x6E {
        Some(false)
    } else {
        None
    }
}

/// The number that the bytes of a numeric field hold.
pub fn read_number(field_bytes: &[u8]) -> (r: Result<Option<Decimal>, ErrorKind>)
    ensures
        match r {
            Ok(Some(number)) => number_of(field_bytes@) == Ok::<Option<Seq<u8>>, ErrorKind>(
                Some(number@),
            ),
            Ok(None) => number_of(field_bytes@) == Ok::<Option<Seq<u8>>, ErrorKind>(None),
            Err(e) => number_of(field_bytes@) == Err::<Option<Seq<u8>>, ErrorKind>(e),
        },
{
    let value = trim_field_data(field_bytes);
    if value.len() == 0 || is_all_marks(value) {
        Ok(None)
    } else {
        match Decimal::from_ascii(value) {
            Some(number) => Ok(Some(number)),
            None => Err(ErrorKind::ParseFloatError),
        }
    }
}

/// The date that the bytes of a date field hold.
pub fn read_date(field_bytes: &[u8]) -> (r: Result<Option<Date>, ErrorKind>)
    ensures
        r == date_of(field_bytes@),
{
    let value = trim_field_data(field_bytes);
    if value.len() == 0 {
        Ok(None)
    } else {
        match Date::from_ascii(value) {
            Ok(date) => Ok(Some(date)),
            Err(e) => Err(e),
        }
    }
}

/// The block index that the bytes of a memo field hold.
pub fn read_memo_index(field_bytes: &[u8], length: u8) -> (index: MemoIndex)
    requires
        field_bytes@.len() == length,
        length >= 4,
    ensures
        index == memo_index_of(field_bytes@, length),
{
    if length > 4 {
        let value = trim_field_data(field_bytes);
        if value.len() == 0 {
            MemoIndex::Empty
        } else {
            match parse_u32(value) {
                Some(index) => MemoIndex::Block(index),
                None => MemoIndex::Malformed,
            }
        }
    } else {
        MemoIndex::Block(read_u32_le(field_bytes))
    }
}

/// The value of a memo field whose text the memo store gave as `looked_up`.
pub fn read_memo_text(looked_up: Result<Vec<u8>, ErrorKind>, encoding: &CodePage) -> (r: Result<
    FieldValue,
    ErrorKind,
>)
    ensures
        match r {
            Ok(value) => memo_value(seq_result(looked_up), encoding@) == Ok::<
                FieldValueView,
                ErrorKind,
            >(value@),
            Err(e) => memo_value(seq_result(looked_up), encoding@) == Err::<
                FieldValueView,
                ErrorKind,
            >(e),
        },
{
    match looked_up {
        Ok(text) => {
            if text.len() > MAX_TEXT_BYTES {
                Err(ErrorKind::ValueTooLong)
            } else {
                Ok(FieldValue::Memo(encoding.decode(text.as_slice())))
            }
        },
        Err(e) => Err(e),
    }
}

/// The result of a lookup, with the text as a sequence.
pub open spec fn seq_result(r: Result<Vec<u8>, ErrorKind>) -> Result<Seq<u8>, ErrorKind> {
    match r {
        Ok(text) => Ok(text@),
        Err(e) => Err(e),
    }
}

impl FieldValue {
    /// The type of field that holds this value.
    pub fn field_type(&self) -> (t: FieldType)
        ensures
            t == self@.field_type(),
    {
        match self {
            FieldValue::Character(_) => FieldType::Character,
            FieldValue::Numeric(_) => FieldType::Numeric,
            FieldValue::Logical(_) => FieldType::Logical,
            FieldValue::Integer(_) => FieldType::Integer,
            FieldValue::Float(_) => FieldType::Float,
            FieldValue::Double(_) => FieldType::Double,
            FieldValue::Date(_) => FieldType::Date,
            FieldValue::Memo(_) => FieldType::Memo,
            FieldValue::Currency(_) => FieldType::Currency,
            FieldValue::DateTime(_) => FieldType::DateTime,
        }
    }

    /// Reads the value of a field from its bytes in a record.
    ///
    /// `field_bytes` are the bytes of the field, as many as the descriptor
    /// says. The text of a memo field is looked up in `memo_reader`; a memo
    /// field that names a block when there is no memo store is a failure.
    pub fn read_from(
        field_bytes: &[u8],
        memo_reader: &mut Option<MemoReader>,
        field_info: &FieldInfo,
        encoding: &CodePage,
    ) -> (r: Result<FieldValue, ErrorKind>)
        requires
            field_bytes@.len() == field_info@.field_length,
        ensures
            match r {
                Ok(value) => value@.wf() && decoded_field(
                    field_bytes@,
                    field_info@,
                    encoding@,
                    memo_state(*old(memo_reader)),
                ) == Ok::<FieldValueView, ErrorKind>(value@),
                Err(e) => decoded_field(
                    field_bytes@,
                    field_info@,
                    encoding@,
                    memo_state(*old(memo_reader)),
                ) == Err::<FieldValueView, ErrorKind>(e),
            },
            memo_state(*final(memo_reader)) == memo_after(
                field_bytes@,
                field_info@,
                memo_state(*old(memo_reader)),
            ),
    {
        let length = field_info.length();
        match field_info.field_type() {
            FieldType::Logical => Ok(FieldValue::Logical(read_logical(field_bytes[0]))),
            FieldType::Character => {
                let value = trim_field_data(field_bytes);
                proof {
                    lemma_trimmed_shape(field_bytes@);
                }
                if value.len() == 0 {
                    Ok(FieldValue::Character(None))
                } else {
                    Ok(FieldValue::Character(Some(encoding.decode(value))))
                }
            },
            FieldType::Numeric => match read_number(field_bytes) {
                Ok(number) => Ok(FieldValue::Numeric(number)),
                Err(e) => Err(e),
            },
            FieldType::Float => match read_number(field_bytes) {
                Ok(number) => Ok(FieldValue::Float(number)),
                Err(e) => Err(e),
            },
            FieldType::Date => match read_date(field_bytes) {
                Ok(date) => Ok(FieldValue::Date(date)),
                Err(e) => Err(e),
            },
            FieldType::Integer => Ok(FieldValue::Integer(read_i32_le(field_bytes))),
            FieldType::Double => Ok(FieldValue::Double(Binary64::from_le_bytes(field_bytes))),
            FieldType::Currency => Ok(FieldValue::Currency(Binary64::from_le_bytes(field_bytes))),
            FieldType::DateTime => match DateTime::read_from(field_bytes) {
                Ok(value) => Ok(FieldValue::DateTime(value)),
                Err(e) => Err(e),
            },
            FieldType::Memo => match read_memo_index(field_bytes, length) {
                MemoIndex::Empty => Ok(FieldValue::Memo(String::new())),
                MemoIndex::Malformed => Err(ErrorKind::ParseIntError),
                MemoIndex::Block(index) => match memo_reader {
                    Some(reader) => {
                        let looked_up = reader.read_data_at(index);
                        read_memo_text(looked_up, encoding)
                    },
                    None => Err(ErrorKind::MissingMemoFile),
                },
            },
        }
    }

    /// The bytes that this value takes in a field described by `field_info`,
    /// before padding.
    pub fn encode(&self, field_info: &FieldInfo, encoding: &CodePage) -> (r: Result<
        Vec<u8>,
        ErrorKind,
    >)
        ensures
            match r {
                Ok(bytes) => encoded_value(self@, field_info@, encoding@) == Ok::<
                    Seq<u8>,
                    ErrorKind,
                >(bytes@),
                Err(e) => encoded_value(self@, field_info@, encoding@) == Err::<
                    Seq<u8>,
                    ErrorKind,
                >(e),
            },
    {
        if self.field_type() != field_info.field_type() {
            return Err(ErrorKind::IncompatibleType);
        }
        let mut bytes: Vec<u8> = Vec::new();
        match self {
            FieldValue::Character(Some(text)) => {
                if text.as_str().as_bytes().len() > MAX_TEXT_BYTES {
                    return Err(ErrorKind::ValueTooLong);
                }
                return encoded_bytes(text.as_str(), encoding);
            },
            FieldValue::Character(None) => {},
            FieldValue::Numeric(Some(number)) | FieldValue::Float(Some(number)) => {
                if !number.fits_places(field_info.num_decimal_places()) {
                    return Err(ErrorKind::BadNumericScale);
                }
                append_bytes(&mut bytes, number.as_bytes());
            },
            FieldValue::Numeric(None) | FieldValue::Float(None) => {},
            FieldValue::Logical(Some(value)) => {
                if *value {
                    bytes.push(0x74);
                } else {
                    bytes.push(0x66);
                }
            },
            FieldValue::Logical(None) => {},
            FieldValue::Date(Some(date)) => {
                date.write_text(&mut bytes);
            },
            FieldValue::Date(None) => {
                push_pads(&mut bytes, 8);
            },
            FieldValue::Integer(number) => {
                let raw = i32_le_bytes(*number);
                append_bytes(&mut bytes, raw.as_slice());
            },
            FieldValue::Currency(number) | FieldValue::Double(number) => {
                let raw = number.to_le_bytes();
                append_bytes(&mut bytes, raw.as_slice());
            },
            FieldValue::DateTime(value) => {
                value.write_to(&mut bytes);
            },
            FieldValue::Memo(_) => {
                return Err(ErrorKind::MemoWriteUnsupported);
            },
        }
        proof {
            let expected = encoded_value(self@, field_info@, encoding@);
            assert(expected is Ok);
            assert(bytes@ =~= expected->Ok_0);
        }
        Ok(bytes)
    }

    /// Appends to `dst` the bytes that this value takes in a field
    /// described by `field_info`, before padding. A value of another type
    /// than the field is refused, and a refused value leaves `dst` as it
    /// was.
    pub fn write_as(&self, field_info: &FieldInfo, encoding: &CodePage, dst: &mut Vec<u8>) -> (r:
        Result<(), ErrorKind>)
        ensures
            match r {
                Ok(()) => encoded_value(self@, field_info@, encoding@) is Ok && final(dst)@ == old(
                    dst,
                )@ + encoded_value(self@, field_info@, encoding@)->Ok_0,
                Err(e) => encoded_value(self@, field_info@, encoding@) == Err::<
                    Seq<u8>,
                    ErrorKind,
                >(e) && final(dst)@ == old(dst)@,
            },
    {
        match self.encode(field_info, encoding) {
            Ok(bytes) => {
                append_bytes(dst, bytes.as_slice());
                Ok(())
            },
            Err(e) => Err(e),
        }
    }

    /// Appends to `dst` the bytes of a field described by `field_info` that
    /// holds this value: the value, and pad bytes up to the width of the
    /// field. A refused value leaves `dst` as it was.
    pub fn write_field(&self, field_info: &FieldInfo, encoding: &CodePage, dst: &mut Vec<u8>) -> (r:
        Result<(), ErrorKind>)
        ensures
            match r {
                Ok(()) => encoded_field(self@, field_info@, encoding@) is Ok && final(dst)@ == old(
                    dst,
                )@ + encoded_field(self@, field_info@, encoding@)->Ok_0,
                Err(e) => encoded_field(self@, field_info@, encoding@) == Err::<
                    Seq<u8>,
                    ErrorKind,
                >(e) && final(dst)@ == old(dst)@,
            },
    {
        match self.encode(field_info, encoding) {
            Ok(bytes) => {
                let length = field_info.length() as usize;
                if bytes.len() > length {
                    return Err(ErrorKind::ValueTooLong);
                }
                append_bytes(dst, bytes.as_slice());
                push_pads(dst, length - bytes.len());
                proof {
                    assert(dst@ =~= old(dst)@ + (bytes@ + pads((length - bytes@.len()) as nat)));
                }
                Ok(())
            },
            Err(e) => Err(e),
        }
    }
}

impl From<Date> for FieldValue {
    /// The value of a date field that holds `date`.
    fn from(date: Date) -> (value: FieldValue) {
        FieldValue::Date(Some(date))
    }
}

impl vstd::std_specs::convert::FromSpecImpl<Date> for FieldValue {
    open spec fn obeys_from_spec() -> bool {
        true
    }

    open spec fn from_spec(date: Date) -> FieldValue {
        FieldValue::Date(Some(date))
    }
}

} // verus!
