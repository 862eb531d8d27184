//! What holds of the rules that read and write the value of a field.

use vstd::prelude::*;

use crate::byte_order::{
    le_bytes_u32, le_u32, lemma_le_u32_round_trip, lemma_le_u64_round_trip, lemma_signed32_round_trip, unsigned32,
};
use crate::calendar::{gregorian_date, parsed_date, time_of_word, Date, DateTime};
use crate::calendar::is_calendar_date;
use crate::calendar_laws::{lemma_julian_day_round_trip, lemma_time_word_round_trip};
use crate::digits::{all_digits, is_digit, lemma_zero_padded, zero_padded};
use crate::encoding::{decoded_text, text_bytes};
use crate::error::ErrorKind;
use crate::field::{
    all_marks, decoded_field, encoded_field, encoded_value, logical_of, number_of, pads, FieldValueView, OVERFLOW_MARK,
};
use crate::field_type::FieldType;
use crate::memo::MemoReaderView;
use crate::numeric::{is_decimal_literal, is_literal_byte, lemma_literal_bytes};
use crate::padding::{
    is_text_end, lemma_trimmed_is_minimal_span, lemma_trimmed_of_padding, trimmed, NUL, PAD,
};
use crate::record::FieldInfoView;

verus! {

/// Whether a field gives back the bytes `value` when they are padded to its
/// width and trimmed again: they hold no NUL byte, and neither start nor
/// end with a pad byte.
pub open spec fn survives_padding(value: Seq<u8>) -> bool {
    &&& forall|i: int| 0 <= i < value.len() ==> value[i] != NUL
    &&& value.len() > 0 ==> value[0] != PAD && value.last() != PAD
}

/// Bytes that survive padding are what is left of them, padded, after
/// trimming.
pub proof fn lemma_trim_undoes_padding(value: Seq<u8>, count: nat)
    requires
        survives_padding(value),
    ensures
        trimmed(value + pads(count)) == value,
{
    let slot = value + pads(count);
    assert forall|i: int| 0 <= i < slot.len() implies slot[i] != NUL by {
        if i < value.len() {
            assert(slot[i] == value[i]);
        }
    }
    assert(is_text_end(slot, slot.len() as int));
    if value.len() == 0 {
        lemma_trimmed_of_padding(slot, slot.len() as int);
        assert(value =~= Seq::<u8>::empty());
    } else {
        assert(slot[0] == value[0]);
        assert(slot[value.len() - 1] == value.last());
        lemma_trimmed_is_minimal_span(slot, 0, value.len() - 1, slot.len() as int);
        assert(slot.subrange(0, value.len() as int) =~= value);
    }
}

/// The text of a date whose year has at most four digits, and whose month
/// and day have at most two, is eight digits that write that date.
pub proof fn lemma_date_text(date: Date)
    requires
        date.year <= 9999,
        date.month <= 99,
        date.day <= 99,
    ensures
        date.text().len() == 8,
        all_digits(date.text()),
        parsed_date(date.text()) == Some(date),
{
    assert(vstd::arithmetic::power::pow(10, 4) == 10_000int && vstd::arithmetic::power::pow(10, 2)
        == 100int) by {
        reveal_with_fuel(vstd::arithmetic::power::pow, 5);
    }
    lemma_zero_padded(date.year as nat, 4);
    lemma_zero_padded(date.month as nat, 2);
    lemma_zero_padded(date.day as nat, 2);
    let y = zero_padded(date.year as nat, 4);
    let m = zero_padded(date.month as nat, 2);
    let d = zero_padded(date.day as nat, 2);
    let text = date.text();
    assert(text.subrange(0, 4) =~= y);
    assert(text.subrange(4, 6) =~= m);
    assert(text.subrange(6, 8) =~= d);
    assert forall|i: int| 0 <= i < text.len() implies is_digit(#[trigger] text[i]) by {
        if i < 4 {
            assert(text[i] == y[i]);
        } else if i < 6 {
            assert(text[i] == m[i - 4]);
        } else {
            assert(text[i] == d[i - 6]);
        }
    }
}

/// What a value must fulfil for a field to give it back unchanged.
///
/// A text must be read by the code page as it was written, in bytes that
/// survive padding. A date must have a year of at most four digits and a
/// month and a day of at most two. A date-time must be found again from its
/// day number and its time word. The absent values and all other values
/// come back as they are.
pub open spec fn is_kept(value: FieldValueView, encoding: Seq<char>) -> bool {
    match value {
        FieldValueView::Character(Some(text)) => match text_bytes(encoding, text) {
            Ok(bytes) => bytes.len() > 0 && survives_padding(bytes) && decoded_text(encoding, bytes)
                == text,
            Err(_) => true,
        },
        FieldValueView::Date(Some(date)) => date.year <= 9999 && date.month <= 99 && date.day
            <= 99,
        FieldValueView::DateTime(value) => gregorian_date(value.date.julian_day()) == value.date
            && time_of_word(value.time.word()) == value.time,
        _ => true,
    }
}

/// Reading undoes writing: the bytes that a field takes for a value hold
/// that value, for every value that the field accepts and keeps.
pub proof fn lemma_read_undoes_write(
    value: FieldValueView,
    info: FieldInfoView,
    encoding: Seq<char>,
    memo: Option<MemoReaderView>,
)
    requires
        value.wf(),
        info.wf(),
        is_kept(value, encoding),
        encoded_field(value, info, encoding) is Ok,
    ensures
        encoded_field(value, info, encoding)->Ok_0.len() == info.field_length,
        decoded_field(encoded_field(value, info, encoding)->Ok_0, info, encoding, memo) == Ok::<
            FieldValueView,
            ErrorKind,
        >(value),
{
    let bytes = encoded_value(value, info, encoding)->Ok_0;
    let slot = encoded_field(value, info, encoding)->Ok_0;
    let count = (info.field_length - bytes.len()) as nat;
    assert(slot == bytes + pads(count));
    match value {
        FieldValueView::Character(Some(text)) => {
            lemma_trim_undoes_padding(bytes, count);
        },
        FieldValueView::Character(None) => {
            assert(bytes =~= Seq::<u8>::empty());
            lemma_trim_undoes_padding(bytes, count);
        },
        FieldValueView::Numeric(Some(number)) => {
            lemma_number_survives(number);
            lemma_trim_undoes_padding(bytes, count);
        },
        FieldValueView::Float(Some(number)) => {
            lemma_number_survives(number);
            lemma_trim_undoes_padding(bytes, count);
        },
        FieldValueView::Numeric(None) => {
            lemma_trim_undoes_padding(bytes, count);
        },
        FieldValueView::Float(None) => {
            lemma_trim_undoes_padding(bytes, count);
        },
        FieldValueView::Logical(Some(truth)) => {
            assert(slot[0] == bytes[0]);
        },
        FieldValueView::Logical(None) => {
            assert(slot[0] == PAD);
        },
        FieldValueView::Date(Some(date)) => {
            lemma_date_text(date);
            assert(survives_padding(bytes)) by {
                assert forall|i: int| 0 <= i < bytes.len() implies bytes[i] != NUL by {
                    assert(is_digit(bytes[i]));
                }
                assert(is_digit(bytes[0]) && is_digit(bytes[bytes.len() - 1]));
            }
            lemma_trim_undoes_padding(bytes, count);
        },
        FieldValueView::Date(None) => {
            assert(slot =~= pads(8));
            lemma_trimmed_of_padding(slot, 8);
        },
        FieldValueView::Integer(number) => {
            lemma_signed32_round_trip(number as int, 0);
            lemma_le_u32_round_trip(unsigned32(number as int));
            assert(slot =~= bytes);
        },
        FieldValueView::Currency(number) => {
            lemma_le_u64_round_trip(number.bits as int);
            assert(slot =~= bytes);
        },
        FieldValueView::Double(number) => {
            lemma_le_u64_round_trip(number.bits as int);
            assert(slot =~= bytes);
        },
        FieldValueView::DateTime(moment) => {
            let day = moment.date.julian_day();
            let word = moment.time.word();
            assert(-0x8000_0000 <= day < 0x8000_0000);
            assert(-0x8000_0000 <= word < 0x8000_0000);
            lemma_signed32_round_trip(day, 0);
            lemma_signed32_round_trip(word, 0);
            lemma_le_u32_round_trip(unsigned32(day));
            lemma_le_u32_round_trip(unsigned32(word));
            assert(slot =~= bytes);
            let first = le_bytes_u32(unsigned32(day));
            let second = le_bytes_u32(unsigned32(word));
            assert(slot.skip(4) =~= second);
            assert(le_u32(slot) == le_u32(first));
        },
        FieldValueView::Memo(_) => {},
    }
}

/// The literal of a number survives padding, and is neither empty nor made
/// of overflow marks.
pub proof fn lemma_number_survives(number: Seq<u8>)
    requires
        is_decimal_literal(number),
    ensures
        survives_padding(number),
        number.len() > 0,
        !all_marks(number),
        number_of(number) == Ok::<Option<Seq<u8>>, ErrorKind>(Some(number)),
{
    lemma_literal_bytes(number);
    assert forall|i: int| 0 <= i < number.len() implies number[i] != NUL by {
        assert(is_literal_byte(number[i]));
    }
    assert(is_literal_byte(number[0]));
    assert(is_literal_byte(number[number.len() - 1]));
    assert(number[0] != OVERFLOW_MARK);
    lemma_trim_undoes_padding(number, 0);
    assert(number + pads(0) =~= number);
}

/// A date-time of a day of the calendar in the years 1 to 9999, at a time
/// of day with minutes and seconds below sixty and at most 24 hours, is
/// kept by its field.
pub proof fn lemma_datetime_is_kept(moment: DateTime, encoding: Seq<char>)
    requires
        is_calendar_date(moment.date),
        1 <= moment.date.year <= 9999,
        moment.time.hours <= 24,
        moment.time.minutes < 60,
        moment.time.seconds < 60,
    ensures
        is_kept(FieldValueView::DateTime(moment), encoding),
{
    lemma_julian_day_round_trip(moment.date);
    lemma_time_word_round_trip(moment.time);
}

/// A numeric field that holds overflow marks only has no value.
pub proof fn lemma_marks_are_no_number(bytes: Seq<u8>)
    requires
        all_marks(bytes),
    ensures
        number_of(bytes) == Ok::<Option<Seq<u8>>, ErrorKind>(None),
{
    assert(survives_padding(bytes));
    lemma_trim_undoes_padding(bytes, 0);
    assert(bytes + pads(0) =~= bytes);
}

/// A numeric field that holds pad bytes only has no value.
pub proof fn lemma_padding_is_no_number(count: nat)
    ensures
        number_of(pads(count)) == Ok::<Option<Seq<u8>>, ErrorKind>(None),
{
    lemma_trim_undoes_padding(Seq::<u8>::empty(), count);
    assert(Seq::<u8>::empty() + pads(count) =~= pads(count));
}

/// A number that is absent is written as pad bytes over the whole width of
/// the field, whatever stood for its absence when it was read.
pub proof fn lemma_no_number_is_padding(info: FieldInfoView, encoding: Seq<char>)
    ensures
        info.field_type == FieldType::Numeric ==> encoded_field(
            FieldValueView::Numeric(None),
            info,
            encoding,
        ) == Ok::<Seq<u8>, ErrorKind>(pads(info.field_length as nat)),
        info.field_type == FieldType::Float ==> encoded_field(
            FieldValueView::Float(None),
            info,
            encoding,
        ) == Ok::<Seq<u8>, ErrorKind>(pads(info.field_length as nat)),
{
    assert(Seq::<u8>::empty() + pads(info.field_length as nat) =~= pads(
        info.field_length as nat,
    ));
}

/// A truth value is written as the one byte `t` or `f`, and read back as
/// itself; an absent truth value is written as a pad byte and read back as
/// absent.
pub proof fn lemma_logical_round_trip(truth: Option<bool>, info: FieldInfoView, encoding: Seq<char>)
    requires
        info.wf(),
        info.field_type == FieldType::Logical,
    ensures
        encoded_field(FieldValueView::Logical(truth), info, encoding) == Ok::<Seq<u8>, ErrorKind>(
            match truth {
                Some(true) => seq![0x74u8],
                Some(false) => seq![0x66u8],
                None => seq![PAD],
            },
        ),
        logical_of(encoded_field(FieldValueView::Logical(truth), info, encoding)->Ok_0[0])
            == truth,
{
    let bytes = encoded_value(FieldValueView::Logical(truth), info, encoding)->Ok_0;
    let slot = bytes + pads((1 - bytes.len()) as nat);
    match truth {
        Some(true) => {
            assert(slot =~= seq![0x74u8]);
        },
        Some(false) => {
            assert(slot =~= seq![0x66u8]);
        },
        None => {
            assert(slot =~= seq![PAD]);
        },
    }
}

/// A value is refused as of the wrong type exactly when its type is not that
/// of the field, whatever else holds of it.
pub proof fn lemma_schema_is_enforced(
    value: FieldValueView,
    info: FieldInfoView,
    encoding: Seq<char>,
)
    ensures
        value.field_type() != info.field_type <==> encoded_value(value, info, encoding) == Err::<
            Seq<u8>,
            ErrorKind,
        >(ErrorKind::IncompatibleType),
        value.field_type() != info.field_type <==> encoded_field(value, info, encoding) == Err::<
            Seq<u8>,
            ErrorKind,
        >(ErrorKind::IncompatibleType),
{
}

} // verus!
