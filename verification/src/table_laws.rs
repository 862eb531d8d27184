//! What holds of a table that is written and read again.

use vstd::prelude::*;

use crate::encoding::decoded_text;
use crate::error::ErrorKind;
use crate::field::{encoded_field, memo_after, FieldValueView};
use crate::field_laws::{is_kept, lemma_read_undoes_write};
use crate::field_type::{lemma_tag_round_trip, type_of_tag, FieldType};
use crate::header::{
    header_of, lemma_header_round_trip, DESCRIPTOR_SIZE, HEADER_SIZE, NOT_DELETED, TERMINATOR,
};
use crate::memo::MemoReaderView;
use crate::padding::{before_byte, lemma_before_byte, nuls, NUL};
use crate::header::{DELETED, END_OF_FILE};
use crate::reading::{
    available_records, decoded_fields, decoded_records, field_bytes, field_names, field_start, record_bytes, DecodedFields, DecodedRecords, RecordView,
};
use crate::record::{FieldInfoView, FIELD_NAME_LENGTH};
use crate::table::{
    descriptor_bytes, descriptor_of, descriptors_from, layout_of, lemma_sum_lengths_step, name_bytes, sum_lengths, TableInfoView,
};
use crate::writing::{
    descriptors_bytes, encoded_fields, encoded_record, finished_bytes, layout_bytes,
    records_bytes, table_bytes, TableWriterView,
};

verus! {

/// Whether each of the values `values` is one that its field gives back
/// unchanged.
pub open spec fn all_kept(
    values: Seq<FieldValueView>,
    fields: Seq<FieldInfoView>,
    encoding: Seq<char>,
) -> bool {
    &&& values.len() == fields.len()
    &&& forall|i: int|
        0 <= i < values.len() ==> (#[trigger] values[i]).wf() && is_kept(values[i], encoding)
}

/// A field starts behind the fields before it.
pub proof fn lemma_field_start_grows(fields: Seq<FieldInfoView>, a: int, b: int)
    requires
        0 <= a <= b <= fields.len(),
    ensures
        1 <= field_start(fields, a) <= field_start(fields, b),
{
    let upto = fields.subrange(0, b);
    crate::table::lemma_sum_lengths_grows(upto, a);
    assert(upto.subrange(0, a) =~= fields.subrange(0, a));
}

/// The bytes of the first fields of a record that was written are written
/// too, they are as many as the flag and the widths of those fields, and
/// the bytes of more fields start with them.
pub proof fn lemma_encoded_prefix(
    values: Seq<FieldValueView>,
    fields: Seq<FieldInfoView>,
    encoding: Seq<char>,
    k: int,
    count: int,
)
    requires
        0 <= k <= count <= fields.len(),
        values.len() == fields.len(),
        encoded_fields(values, fields, encoding, count) is Ok,
        forall|i: int| 0 <= i < fields.len() ==> (#[trigger] fields[i]).wf(),
    ensures
        encoded_fields(values, fields, encoding, k) is Ok,
        encoded_fields(values, fields, encoding, k)->Ok_0.len() == field_start(fields, k),
        encoded_fields(values, fields, encoding, count)->Ok_0.len() == field_start(fields, count),
        encoded_fields(values, fields, encoding, count)->Ok_0.subrange(0, field_start(fields, k))
            == encoded_fields(values, fields, encoding, k)->Ok_0,
    decreases count,
{
    if count == 0 {
        assert(fields.subrange(0, 0) =~= Seq::<FieldInfoView>::empty());
        let whole = encoded_fields(values, fields, encoding, 0)->Ok_0;
        assert(whole.subrange(0, 1) =~= whole);
    } else {
        let whole = encoded_fields(values, fields, encoding, count)->Ok_0;
        let before = encoded_fields(values, fields, encoding, count - 1)->Ok_0;
        let slot = encoded_field(values[count - 1], fields[count - 1], encoding)->Ok_0;
        assert(whole == before + slot);
        assert(fields[count - 1].wf());
        lemma_sum_lengths_step(fields, count - 1);
        if k == count {
            lemma_encoded_prefix(values, fields, encoding, count - 1, count - 1);
            assert(whole.subrange(0, whole.len() as int) =~= whole);
        } else {
            lemma_encoded_prefix(values, fields, encoding, k, count - 1);
            lemma_field_start_grows(fields, k, count - 1);
            assert(whole.subrange(0, field_start(fields, k)) =~= before.subrange(
                0,
                field_start(fields, k),
            ));
        }
    }
}

/// Reading undoes writing, record by record: the bytes that were written
/// for the values of a record hold those values, field by field, and
/// reading them leaves the memo store as it was.
pub proof fn lemma_record_round_trip(
    values: Seq<FieldValueView>,
    fields: Seq<FieldInfoView>,
    encoding: Seq<char>,
    memo: Option<MemoReaderView>,
)
    requires
        all_kept(values, fields, encoding),
        forall|i: int| 0 <= i < fields.len() ==> (#[trigger] fields[i]).wf(),
        encoded_record(values, fields, encoding) is Ok,
    ensures
        encoded_record(values, fields, encoding)->Ok_0.len() == 1 + sum_lengths(fields),
        encoded_record(values, fields, encoding)->Ok_0[0] == NOT_DELETED,
        decoded_fields(
            encoded_record(values, fields, encoding)->Ok_0,
            fields,
            encoding,
            memo,
            fields.len() as int,
        ) == (DecodedFields { values: Ok(values), memo }),
{
    let count = fields.len() as int;
    let record = encoded_record(values, fields, encoding)->Ok_0;
    lemma_encoded_prefix(values, fields, encoding, 0, count);
    assert(fields.subrange(0, count) =~= fields);
    assert(fields.subrange(0, 0) =~= Seq::<FieldInfoView>::empty());
    assert(record[0] == record.subrange(0, 1)[0]);
    lemma_fields_round_trip(values, fields, encoding, memo, count);
    assert(values.subrange(0, count) =~= values);
}

/// The first `k` fields of a record that was written are read back as the
/// first `k` values.
proof fn lemma_fields_round_trip(
    values: Seq<FieldValueView>,
    fields: Seq<FieldInfoView>,
    encoding: Seq<char>,
    memo: Option<MemoReaderView>,
    k: int,
)
    requires
        0 <= k <= fields.len(),
        all_kept(values, fields, encoding),
        forall|i: int| 0 <= i < fields.len() ==> (#[trigger] fields[i]).wf(),
        encoded_fields(values, fields, encoding, fields.len() as int) is Ok,
    ensures
        decoded_fields(
            encoded_fields(values, fields, encoding, fields.len() as int)->Ok_0,
            fields,
            encoding,
            memo,
            k,
        ) == (DecodedFields { values: Ok(values.subrange(0, k)), memo }),
    decreases k,
{
    let count = fields.len() as int;
    let record = encoded_fields(values, fields, encoding, count)->Ok_0;
    if k == 0 {
        assert(values.subrange(0, 0) =~= Seq::<FieldValueView>::empty());
    } else {
        lemma_fields_round_trip(values, fields, encoding, memo, k - 1);
        lemma_encoded_prefix(values, fields, encoding, k, count);
        lemma_encoded_prefix(values, fields, encoding, k - 1, count);
        lemma_encoded_prefix(values, fields, encoding, k - 1, k);
        let value = values[k - 1];
        let info = fields[k - 1];
        assert(info.wf() && value.wf() && is_kept(value, encoding));
        let upto = encoded_fields(values, fields, encoding, k)->Ok_0;
        let before = encoded_fields(values, fields, encoding, k - 1)->Ok_0;
        let slot = encoded_field(value, info, encoding)->Ok_0;
        assert(upto == before + slot);
        lemma_read_undoes_write(value, info, encoding, memo);
        lemma_sum_lengths_step(fields, k - 1);
        lemma_field_start_grows(fields, k, count);
        lemma_field_start_grows(fields, k - 1, k);
        assert(field_bytes(record, fields, k - 1) =~= slot) by {
            assert(record.subrange(0, field_start(fields, k)) == upto);
            assert forall|i: int| 0 <= i < slot.len() implies field_bytes(record, fields, k - 1)[i]
                == slot[i] by {
                assert(record[field_start(fields, k - 1) + i] == upto[field_start(fields, k - 1)
                    + i]);
            }
        }
        assert(value.field_type() == info.field_type);
        assert(info.field_type != FieldType::Memo);
        assert(memo_after(slot, info, memo) == memo);
        assert(values.subrange(0, k) =~= values.subrange(0, k - 1).push(value));
    }
}

/// Whether the names of the fields `fields` come back from their bytes in
/// the code page of label `encoding`: the code page reads the bytes of
/// each name as the name, and the bytes do not start with the byte that
/// ends the descriptors.
pub open spec fn names_kept(fields: Seq<FieldInfoView>, encoding: Seq<char>) -> bool {
    forall|i: int|
        0 <= i < fields.len() ==> match name_bytes((#[trigger] fields[i]).name, encoding) {
            Ok(bytes) => decoded_text(encoding, bytes) == fields[i].name && (bytes.len() > 0
                ==> bytes[0] != TERMINATOR),
            Err(_) => true,
        }
}

/// A descriptor is read back from its bytes as it was written, where the
/// code page reads the bytes of its name as the name.
pub proof fn lemma_descriptor_round_trip(info: FieldInfoView, encoding: Seq<char>)
    requires
        info.wf(),
        name_bytes(info.name, encoding) is Ok,
        decoded_text(encoding, name_bytes(info.name, encoding)->Ok_0) == info.name,
    ensures
        descriptor_bytes(info, name_bytes(info.name, encoding)->Ok_0).len() == DESCRIPTOR_SIZE,
        descriptor_of(descriptor_bytes(info, name_bytes(info.name, encoding)->Ok_0), encoding)
            == Ok::<FieldInfoView, ErrorKind>(info),
{
    let name = name_bytes(info.name, encoding)->Ok_0;
    let bytes = descriptor_bytes(info, name);
    let fill = nuls((FIELD_NAME_LENGTH - name.len()) as nat);
    assert(bytes.len() == 32);
    let name_field = bytes.subrange(0, FIELD_NAME_LENGTH as int);
    assert(name_field =~= name + fill);
    crate::padding::lemma_before_byte_shape(name, NUL);
    assert(before_byte(name_field, NUL) == name) by {
        assert forall|i: int| 0 <= i < name.len() implies name_field[i] != NUL by {
            assert(name_field[i] == name[i]);
        }
        if name.len() < name_field.len() {
            assert(name_field[name.len() as int] == fill[0]);
        }
        crate::padding::lemma_before_byte(name_field, NUL, name.len() as int);
        assert(name_field.subrange(0, name.len() as int) =~= name);
    }
    assert(bytes[11] == info.field_type.tag() as u8);
    lemma_tag_round_trip(info.field_type);
    assert(type_of_tag(bytes[11] as char) == Some(info.field_type)) by {
        assert((info.field_type.tag() as u8) as char == info.field_type.tag());
    }
    assert(bytes.subrange(12, 16) =~= info.displacement_field);
    assert(bytes.subrange(19, 24) =~= info.autoincrement_next_val);
    assert(bytes[16] == info.field_length);
    assert(bytes[17] == info.num_decimal_places);
    assert(bytes[18] == info.flags.0);
    assert(bytes[24] == info.autoincrement_step);
}

/// The bytes of the descriptors are 32 for each field.
pub proof fn lemma_descriptors_length(fields: Seq<FieldInfoView>, encoding: Seq<char>, count: int)
    requires
        0 <= count <= fields.len(),
        descriptors_bytes(fields, encoding, count) is Ok,
        forall|i: int| 0 <= i < fields.len() ==> (#[trigger] fields[i]).wf(),
    ensures
        descriptors_bytes(fields, encoding, count)->Ok_0.len() == DESCRIPTOR_SIZE * count,
        forall|k: int|
            0 <= k <= count ==> (#[trigger] descriptors_bytes(fields, encoding, k)) is Ok,
    decreases count,
{
    if count > 0 {
        lemma_descriptors_length(fields, encoding, count - 1);
        assert(fields[count - 1].wf());
    }
}

/// The descriptors that were written are read back from the place of any
/// one of them on, where the code page keeps the names.
proof fn lemma_descriptors_round_trip(
    fields: Seq<FieldInfoView>,
    encoding: Seq<char>,
    src: Seq<u8>,
    k: int,
)
    requires
        0 <= k <= fields.len(),
        descriptors_bytes(fields, encoding, fields.len() as int) is Ok,
        forall|i: int| 0 <= i < fields.len() ==> (#[trigger] fields[i]).wf(),
        names_kept(fields, encoding),
        src.len() > HEADER_SIZE + DESCRIPTOR_SIZE * fields.len(),
        src.subrange(HEADER_SIZE as int, HEADER_SIZE + DESCRIPTOR_SIZE * fields.len())
            == descriptors_bytes(fields, encoding, fields.len() as int)->Ok_0,
        src[HEADER_SIZE + DESCRIPTOR_SIZE * fields.len()] == TERMINATOR,
    ensures
        descriptors_from(src, HEADER_SIZE + DESCRIPTOR_SIZE * k, encoding) == Ok::<
            Seq<FieldInfoView>,
            ErrorKind,
        >(fields.skip(k)),
    decreases fields.len() - k,
{
    let count = fields.len() as int;
    let offset = HEADER_SIZE + DESCRIPTOR_SIZE * k;
    if k == count {
        assert(fields.skip(k) =~= Seq::<FieldInfoView>::empty());
    } else {
        lemma_descriptors_round_trip(fields, encoding, src, k + 1);
        lemma_descriptors_length(fields, encoding, count);
        lemma_descriptors_length(fields, encoding, k + 1);
        lemma_descriptors_length(fields, encoding, k);
        let info = fields[k];
        assert(info.wf());
        let name = name_bytes(info.name, encoding)->Ok_0;
        let one = descriptor_bytes(info, name);
        lemma_descriptor_round_trip(info, encoding);
        let all = descriptors_bytes(fields, encoding, count)->Ok_0;
        lemma_descriptors_prefix(fields, encoding, k + 1, count);
        let upto = descriptors_bytes(fields, encoding, k + 1)->Ok_0;
        let before = descriptors_bytes(fields, encoding, k)->Ok_0;
        assert(upto == before + one);
        assert(src.subrange(offset, offset + DESCRIPTOR_SIZE) =~= one) by {
            assert forall|i: int| 0 <= i < 32 implies src[offset + i] == one[i] by {
                assert(src[offset + i] == all[DESCRIPTOR_SIZE * k + i]);
                assert(all[DESCRIPTOR_SIZE * k + i] == all.subrange(0, DESCRIPTOR_SIZE * (k + 1))[
                    DESCRIPTOR_SIZE * k + i]);
                assert(upto[DESCRIPTOR_SIZE * k + i] == one[i]);
            }
        }
        assert(src[offset] != TERMINATOR) by {
            assert(src[offset] == one[0]);
            if name.len() > 0 {
                assert(one[0] == name[0]);
            } else {
                assert(one[0] == NUL);
            }
        }
        assert(seq![info] + fields.skip(k + 1) =~= fields.skip(k));
    }
}

/// The bytes of the first descriptors are the start of the bytes of more.
pub proof fn lemma_descriptors_prefix(
    fields: Seq<FieldInfoView>,
    encoding: Seq<char>,
    k: int,
    count: int,
)
    requires
        0 <= k <= count <= fields.len(),
        descriptors_bytes(fields, encoding, count) is Ok,
        forall|i: int| 0 <= i < fields.len() ==> (#[trigger] fields[i]).wf(),
    ensures
        descriptors_bytes(fields, encoding, k) is Ok,
        descriptors_bytes(fields, encoding, count)->Ok_0.subrange(0, DESCRIPTOR_SIZE * k)
            == descriptors_bytes(fields, encoding, k)->Ok_0,
    decreases count,
{
    lemma_descriptors_length(fields, encoding, count);
    let whole = descriptors_bytes(fields, encoding, count)->Ok_0;
    if k == count {
        assert(whole.subrange(0, whole.len() as int) =~= whole);
    } else {
        lemma_descriptors_prefix(fields, encoding, k, count - 1);
        lemma_descriptors_length(fields, encoding, count - 1);
        let before = descriptors_bytes(fields, encoding, count - 1)->Ok_0;
        assert(whole.subrange(0, DESCRIPTOR_SIZE * k) =~= before.subrange(
            0,
            DESCRIPTOR_SIZE * k,
        ));
    }
}

/// The layout of a table is read back from the start of its file as it was
/// written, whatever follows in the file, where the code page keeps the
/// names of the fields.
pub proof fn lemma_layout_round_trip(info: TableInfoView, encoding: Seq<char>, rest: Seq<u8>)
    requires
        info.wf(),
        names_kept(info.fields, encoding),
        layout_bytes(info, encoding) is Ok,
    ensures
        layout_bytes(info, encoding)->Ok_0.len() == info.header.header_length,
        layout_of(layout_bytes(info, encoding)->Ok_0 + rest, encoding) == Ok::<
            TableInfoView,
            ErrorKind,
        >(info),
{
    let count = info.fields.len() as int;
    let start = layout_bytes(info, encoding)->Ok_0;
    let descriptors = descriptors_bytes(info.fields, encoding, count)->Ok_0;
    let src = start + rest;
    lemma_header_round_trip(info.header);
    lemma_descriptors_length(info.fields, encoding, count);
    assert(start.len() == 32 + 32 * count + 1);
    assert(src.subrange(HEADER_SIZE as int, HEADER_SIZE + DESCRIPTOR_SIZE * count) =~= descriptors);
    assert(src[HEADER_SIZE + DESCRIPTOR_SIZE * count] == TERMINATOR);
    lemma_descriptors_round_trip(info.fields, encoding, src, 0);
    assert(info.fields.skip(0) =~= info.fields);
    assert(header_of(src) == header_of(info.header.bytes())) by {
        assert(src.subrange(0, HEADER_SIZE as int) =~= info.header.bytes());
        lemma_header_prefix(info.header.bytes(), src);
    }
}

/// The header that bytes hold is that of their first 32 bytes.
pub proof fn lemma_header_prefix(start: Seq<u8>, src: Seq<u8>)
    requires
        start.len() == HEADER_SIZE,
        src.len() >= HEADER_SIZE,
        src.subrange(0, HEADER_SIZE as int) == start,
    ensures
        header_of(src) == header_of(start),
{
    assert forall|i: int| 0 <= i < 32 implies src[i] == start[i] by {
        assert(src.subrange(0, 32)[i] == src[i]);
    }
    assert(src.skip(4)[0] == start.skip(4)[0] && src.skip(4)[1] == start.skip(4)[1] && src.skip(
        4,
    )[2] == start.skip(4)[2] && src.skip(4)[3] == start.skip(4)[3]);
    assert(src.skip(8)[0] == start.skip(8)[0] && src.skip(8)[1] == start.skip(8)[1]);
    assert(src.skip(10)[0] == start.skip(10)[0] && src.skip(10)[1] == start.skip(10)[1]);
}

/// The record that the values `values` make when they are written to a
/// table of fields `fields`: a record in use, with each value under the
/// name of its field.
pub open spec fn written_record(values: Seq<FieldValueView>, fields: Seq<FieldInfoView>)
    -> RecordView {
    RecordView { deleted: false, names: field_names(fields), values }
}

/// The records that the rows `rows` make when they are written.
pub open spec fn written_records(rows: Seq<Seq<FieldValueView>>, fields: Seq<FieldInfoView>) -> Seq<
    RecordView,
> {
    Seq::new(rows.len(), |i: int| written_record(rows[i], fields))
}

/// The bytes of the first records are written where more are, they are as
/// many as the records are long, and the bytes of more records start with
/// them.
pub proof fn lemma_records_prefix(
    rows: Seq<Seq<FieldValueView>>,
    fields: Seq<FieldInfoView>,
    encoding: Seq<char>,
    k: int,
    count: int,
)
    requires
        0 <= k <= count <= rows.len(),
        records_bytes(rows, fields, encoding, count) is Ok,
        forall|i: int| 0 <= i < fields.len() ==> (#[trigger] fields[i]).wf(),
    ensures
        records_bytes(rows, fields, encoding, k) is Ok,
        records_bytes(rows, fields, encoding, k)->Ok_0.len() == k * (1 + sum_lengths(fields)),
        records_bytes(rows, fields, encoding, count)->Ok_0.len() == count * (1 + sum_lengths(
            fields,
        )),
        records_bytes(rows, fields, encoding, count)->Ok_0.subrange(
            0,
            k * (1 + sum_lengths(fields)),
        ) == records_bytes(rows, fields, encoding, k)->Ok_0,
    decreases count,
{
    let size = 1 + sum_lengths(fields) as int;
    let whole = records_bytes(rows, fields, encoding, count)->Ok_0;
    if count == 0 {
        assert(whole.subrange(0, 0) =~= whole);
        assert(0 * size == 0);
    } else {
        let before = records_bytes(rows, fields, encoding, count - 1)->Ok_0;
        let record = encoded_record(rows[count - 1], fields, encoding)->Ok_0;
        lemma_encoded_prefix(
            rows[count - 1],
            fields,
            encoding,
            fields.len() as int,
            fields.len() as int,
        );
        assert(fields.subrange(0, fields.len() as int) =~= fields);
        assert(record.len() == size);
        assert(count * size == (count - 1) * size + size) by (nonlinear_arith);
        if k == count {
            lemma_records_prefix(rows, fields, encoding, count - 1, count - 1);
            assert(whole.subrange(0, whole.len() as int) =~= whole);
        } else {
            lemma_records_prefix(rows, fields, encoding, k, count - 1);
            assert(k * size <= (count - 1) * size) by (nonlinear_arith)
                requires
                    0 <= k <= count - 1,
                    size >= 0,
            ;
            assert(whole.subrange(0, k * size) =~= before.subrange(0, k * size));
        }
    }
}

/// A table that is written and read again gives back its layout and its
/// records: the layout is read from the start of the file as it was
/// written, the file holds as many records as were written, and the
/// records are read as they were written, one after the other, where each
/// value is one that its field keeps and the code page keeps the names of
/// the fields.
pub proof fn lemma_table_round_trip(
    info: TableInfoView,
    encoding: Seq<char>,
    rows: Seq<Seq<FieldValueView>>,
    memo: Option<MemoReaderView>,
)
    requires
        info.wf(),
        names_kept(info.fields, encoding),
        info.header.record_count == rows.len(),
        forall|i: int| 0 <= i < rows.len() ==> all_kept(#[trigger] rows[i], info.fields, encoding),
        table_bytes(info, encoding, rows) is Ok,
    ensures
        layout_of(table_bytes(info, encoding, rows)->Ok_0, encoding) == Ok::<
            TableInfoView,
            ErrorKind,
        >(info),
        available_records(info, table_bytes(info, encoding, rows)->Ok_0.len() as int)
            == rows.len(),
        decoded_records(
            info,
            table_bytes(info, encoding, rows)->Ok_0,
            encoding,
            memo,
            rows.len() as int,
        ) == (DecodedRecords { records: Ok(written_records(rows, info.fields)), memo }),
{
    let count = rows.len() as int;
    let size = info.header.record_length as int;
    let start = layout_bytes(info, encoding)->Ok_0;
    let body = records_bytes(rows, info.fields, encoding, count)->Ok_0;
    let file = table_bytes(info, encoding, rows)->Ok_0;
    assert(file =~= start + (body + seq![END_OF_FILE]));
    lemma_layout_round_trip(info, encoding, body + seq![END_OF_FILE]);
    lemma_records_prefix(rows, info.fields, encoding, count, count);
    assert(file.len() == info.header.header_length + count * size + 1);
    let room = count * size + 1;
    assert(available_records(info, file.len() as int) == count) by {
        if size == 1 {
            assert(count * 1 == count) by (nonlinear_arith);
            assert(room / 1 == room);
        } else {
            vstd::arithmetic::div_mod::lemma_fundamental_div_mod_converse(room, size, count, 1);
        }
    }
    lemma_rows_round_trip(info, encoding, rows, memo, count);
    assert(written_records(rows, info.fields).subrange(0, count) =~= written_records(
        rows,
        info.fields,
    ));
}

/// The first `k` records of a table that was written are read back as they
/// were written.
proof fn lemma_rows_round_trip(
    info: TableInfoView,
    encoding: Seq<char>,
    rows: Seq<Seq<FieldValueView>>,
    memo: Option<MemoReaderView>,
    k: int,
)
    requires
        0 <= k <= rows.len(),
        info.wf(),
        forall|i: int| 0 <= i < rows.len() ==> all_kept(#[trigger] rows[i], info.fields, encoding),
        table_bytes(info, encoding, rows) is Ok,
        layout_bytes(info, encoding)->Ok_0.len() == info.header.header_length,
    ensures
        decoded_records(info, table_bytes(info, encoding, rows)->Ok_0, encoding, memo, k) == (
        DecodedRecords { records: Ok(written_records(rows, info.fields).subrange(0, k)), memo }),
    decreases k,
{
    let count = rows.len() as int;
    let size = info.header.record_length as int;
    let start = layout_bytes(info, encoding)->Ok_0;
    let body = records_bytes(rows, info.fields, encoding, count)->Ok_0;
    let file = table_bytes(info, encoding, rows)->Ok_0;
    let all = written_records(rows, info.fields);
    if k == 0 {
        assert(all.subrange(0, 0) =~= Seq::<RecordView>::empty());
    } else {
        lemma_rows_round_trip(info, encoding, rows, memo, k - 1);
        lemma_records_prefix(rows, info.fields, encoding, k, count);
        lemma_records_prefix(rows, info.fields, encoding, k - 1, count);
        lemma_records_prefix(rows, info.fields, encoding, k - 1, k);
        let upto = records_bytes(rows, info.fields, encoding, k)->Ok_0;
        let before = records_bytes(rows, info.fields, encoding, k - 1)->Ok_0;
        let record = encoded_record(rows[k - 1], info.fields, encoding)->Ok_0;
        assert(upto == before + record);
        assert(all_kept(rows[k - 1], info.fields, encoding));
        lemma_record_round_trip(rows[k - 1], info.fields, encoding, memo);
        assert(k * size == (k - 1) * size + size) by (nonlinear_arith);
        assert(k * size <= count * size) by (nonlinear_arith)
            requires
                0 <= k <= count,
                size >= 0,
        ;
        assert(record_bytes(info, file, k - 1) =~= record) by {
            assert forall|i: int| 0 <= i < size implies record_bytes(info, file, k - 1)[i]
                == record[i] by {
                let at = (k - 1) * size + i;
                assert(file[info.header.header_length + at] == body[at]);
                assert(body[at] == body.subrange(0, k * size)[at]);
                assert(upto[at] == record[i]);
            }
        }
        assert(record[0] != DELETED);
        assert(all.subrange(0, k) =~= all.subrange(0, k - 1).push(
            written_record(rows[k - 1], info.fields),
        ));
    }
}

/// The layout of a table with `count` as the number of its records.
pub open spec fn with_record_count(info: TableInfoView, count: u32) -> TableInfoView {
    TableInfoView {
        header: crate::header::TableHeader { record_count: count, ..info.header },
        fields: info.fields,
    }
}

/// What a writer gives when it is finished is the file of the table that
/// holds the rows that it was given: where the writer has written the start
/// of the file and then the rows `rows`, its finished bytes are those of
/// the table with these rows, with their number in the header.
pub proof fn lemma_finished_table(writer: TableWriterView, rows: Seq<Seq<FieldValueView>>)
    requires
        writer.info.wf(),
        writer.record_count == rows.len(),
        layout_bytes(writer.info, writer.encoding) is Ok,
        records_bytes(rows, writer.info.fields, writer.encoding, rows.len() as int) is Ok,
        writer.bytes == layout_bytes(writer.info, writer.encoding)->Ok_0 + records_bytes(
            rows,
            writer.info.fields,
            writer.encoding,
            rows.len() as int,
        )->Ok_0,
    ensures
        with_record_count(writer.info, writer.record_count).wf(),
        table_bytes(
            with_record_count(writer.info, writer.record_count),
            writer.encoding,
            rows,
        ) == Ok::<Seq<u8>, ErrorKind>(finished_bytes(writer)),
{
    let info = writer.info;
    let counted = with_record_count(info, writer.record_count);
    let descriptors = descriptors_bytes(info.fields, writer.encoding, info.fields.len() as int)->Ok_0;
    let body = records_bytes(rows, info.fields, writer.encoding, rows.len() as int)->Ok_0;
    lemma_header_round_trip(info.header);
    lemma_header_round_trip(counted.header);
    assert(writer.bytes.skip(HEADER_SIZE as int) =~= descriptors + seq![TERMINATOR] + body);
    assert(finished_bytes(writer) =~= counted.header.bytes() + descriptors + seq![TERMINATOR]
        + body + seq![END_OF_FILE]);
}

} // verus!
