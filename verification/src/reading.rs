//! Reading the records of a table.
//!
//! The reader holds the bytes of the table file. A record is found by its
//! index, its fields are cut out of it by the widths that the descriptors
//! declare, and each field is read by the rule of its type.

use vstd::prelude::*;

use crate::encoding::{encoding_of_label, CodePage};
use crate::error::{Error, ErrorKind, FieldIOError};
use crate::field::{decoded_field, memo_after, memo_state, FieldValue, FieldValueView};
use crate::header::{TableHeader, DELETED};
use crate::memo::{MemoReader, MemoReaderView};
use crate::record::{FieldInfo, FieldInfoView};
use crate::table::{
    field_views, layout_of, lemma_sum_lengths_grows, lemma_sum_lengths_step, sum_lengths,
    TableInfo, TableInfoView,
};

verus! {

/// The values of the first fields of a record, and the state in which
/// reading them left the memo store.
pub struct DecodedFields {
    pub values: Result<Seq<FieldValueView>, ErrorKind>,
    pub memo: Option<MemoReaderView>,
}

/// Where the field `index` of `fields` starts in a record: behind the
/// deletion flag and the fields before it.
pub open spec fn field_start(fields: Seq<FieldInfoView>, index: int) -> int {
    1 + sum_lengths(fields.subrange(0, index)) as int
}

/// The bytes of the field `index` of `fields` in the record `record`.
pub open spec fn field_bytes(record: Seq<u8>, fields: Seq<FieldInfoView>, index: int) -> Seq<u8> {
    record.subrange(
        field_start(fields, index),
        field_start(fields, index) + fields[index].field_length,
    )
}

/// The values of the first `count` fields of the record `record`, read one
/// after the other. The first field that fails ends the reading, and its
/// failure is the failure of the record. Each memo field finds the memo
/// store as the field before it left it.
pub open spec fn decoded_fields(
    record: Seq<u8>,
    fields: Seq<FieldInfoView>,
    encoding: Seq<char>,
    memo: Option<MemoReaderView>,
    count: int,
) -> DecodedFields
    decreases count,
{
    if count <= 0 {
        DecodedFields { values: Ok(Seq::empty()), memo }
    } else {
        let before = decoded_fields(record, fields, encoding, memo, count - 1);
        match before.values {
            Err(_) => before,
            Ok(values) => {
                let bytes = field_bytes(record, fields, count - 1);
                let info = fields[count - 1];
                DecodedFields {
                    values: match decoded_field(bytes, info, encoding, before.memo) {
                        Ok(value) => Ok(values.push(value)),
                        Err(e) => Err(e),
                    },
                    memo: memo_after(bytes, info, before.memo),
                }
            },
        }
    }
}

/// The place of the field whose failure ended the reading of the first
/// `count` fields of a record, where one failed.
pub open spec fn failed_field(
    record: Seq<u8>,
    fields: Seq<FieldInfoView>,
    encoding: Seq<char>,
    memo: Option<MemoReaderView>,
    count: int,
) -> int
    decreases count,
{
    if count <= 0 {
        0
    } else if decoded_fields(record, fields, encoding, memo, count - 1).values is Err {
        failed_field(record, fields, encoding, memo, count - 1)
    } else {
        count - 1
    }
}

/// The views of the values `values`.
pub open spec fn value_views(values: Seq<FieldValue>) -> Seq<FieldValueView> {
    Seq::new(values.len(), |i: int| values[i]@)
}

/// Reads the values of the fields of one record, in the order of the
/// fields.
///
/// `record` holds the bytes of the record, the deletion flag first, and is
/// as long as the flag and the fields together.
pub fn read_fields(
    record: &[u8],
    fields: &Vec<FieldInfo>,
    encoding: &CodePage,
    memo_reader: &mut Option<MemoReader>,
) -> (r: Result<Vec<FieldValue>, FieldIOError>)
    requires
        record@.len() == 1 + sum_lengths(field_views(fields@)),
    ensures
        match r {
            Ok(values) => decoded_fields(
                record@,
                field_views(fields@),
                encoding@,
                memo_state(*old(memo_reader)),
                fields@.len() as int,
            ).values == Ok::<Seq<FieldValueView>, ErrorKind>(value_views(values@)),
            Err(e) => decoded_fields(
                record@,
                field_views(fields@),
                encoding@,
                memo_state(*old(memo_reader)),
                fields@.len() as int,
            ).values == Err::<Seq<FieldValueView>, ErrorKind>(e.kind) && e.field == failed_field(
                record@,
                field_views(fields@),
                encoding@,
                memo_state(*old(memo_reader)),
                fields@.len() as int,
            ),
        },
        memo_state(*final(memo_reader)) == decoded_fields(
            record@,
            field_views(fields@),
            encoding@,
            memo_state(*old(memo_reader)),
            fields@.len() as int,
        ).memo,
{
    let ghost all = field_views(fields@);
    let ghost start_memo = memo_state(*memo_reader);
    let mut values: Vec<FieldValue> = Vec::new();
    let total = record.len();
    let mut offset: usize = 1;
    let mut i: usize = 0;
    proof {
        assert(value_views(values@) =~= Seq::<FieldValueView>::empty());
        assert(all.subrange(0, 0) =~= Seq::<FieldInfoView>::empty());
    }
    while i < fields.len()
        invariant
            i <= fields@.len(),
            all == field_views(fields@),
            total == record@.len(),
            start_memo == memo_state(*old(memo_reader)),
            record@.len() == 1 + sum_lengths(all),
            offset == field_start(all, i as int),
            decoded_fields(record@, all, encoding@, start_memo, i as int) == (DecodedFields {
                values: Ok(value_views(values@)),
                memo: memo_state(*memo_reader),
            }),
        decreases fields@.len() - i,
    {
        let info = &fields[i];
        let width = info.length() as usize;
        proof {
            lemma_sum_lengths_step(all, i as int);
            lemma_sum_lengths_grows(all, i + 1);
            assert(all[i as int] == info@);
        }
        let bytes = vstd::slice::slice_subrange(record, offset, offset + width);
        let ghost before = value_views(values@);
        let ghost memo_before = memo_state(*memo_reader);
        proof {
            assert(bytes@ == field_bytes(record@, all, i as int));
            assert(decoded_fields(record@, all, encoding@, start_memo, i as int).memo
                == memo_before);
        }
        match FieldValue::read_from(bytes, memo_reader, info, encoding) {
            Ok(value) => {
                values.push(value);
                proof {
                    assert(value_views(values@) =~= before.push(value@));
                    assert(decoded_fields(record@, all, encoding@, start_memo, i + 1).values
                        == Ok::<Seq<FieldValueView>, ErrorKind>(before.push(value@)));
                }
            },
            Err(e) => {
                proof {
                    assert(decoded_fields(record@, all, encoding@, start_memo, i + 1).values
                        == Err::<Seq<FieldValueView>, ErrorKind>(e));
                    lemma_failure_stays(
                        record@,
                        all,
                        encoding@,
                        start_memo,
                        i + 1,
                        all.len() as int,
                    );
                }
                return Err(FieldIOError { field: i, kind: e });
            },
        }
        offset += width;
        i += 1;
    }
    Ok(values)
}

/// Once a field has failed, the fields behind it are not read.
pub proof fn lemma_failure_stays(
    record: Seq<u8>,
    fields: Seq<FieldInfoView>,
    encoding: Seq<char>,
    memo: Option<MemoReaderView>,
    failed: int,
    count: int,
)
    requires
        0 <= failed <= count,
        decoded_fields(record, fields, encoding, memo, failed).values is Err,
    ensures
        decoded_fields(record, fields, encoding, memo, count) == decoded_fields(
            record,
            fields,
            encoding,
            memo,
            failed,
        ),
        failed_field(record, fields, encoding, memo, count) == failed_field(
            record,
            fields,
            encoding,
            memo,
            failed,
        ),
    decreases count - failed,
{
    if failed < count {
        lemma_failure_stays(record, fields, encoding, memo, failed, count - 1);
    }
}

/// The value of one field of a record, with the name of the field.
#[derive(Debug, PartialEq, Eq)]
pub struct NamedValue {
    pub name: String,
    pub value: FieldValue,
}

impl Clone for NamedValue {
    fn clone(&self) -> (copy: NamedValue)
        ensures
            copy.name@ == self.name@,
            copy.value@ == self.value@,
    {
        NamedValue { name: self.name.clone(), value: self.value.clone() }
    }
}

/// One record of a table: its deletion flag, and the values of its fields
/// in the order of the fields, each with the name of its field.
#[derive(Debug, PartialEq, Eq)]
pub struct Record {
    pub deleted: bool,
    pub values: Vec<NamedValue>,
}

impl Clone for Record {
    fn clone(&self) -> (copy: Record)
        ensures
            copy@ == self@,
    {
        let mut values: Vec<NamedValue> = Vec::new();
        let mut i: usize = 0;
        while i < self.values.len()
            invariant
                i <= self.values@.len(),
                values@.len() == i,
                forall|k: int|
                    0 <= k < i ==> (#[trigger] values@[k]).name@ == self.values@[k].name@
                        && values@[k].value@ == self.values@[k].value@,
            decreases self.values@.len() - i,
        {
            values.push(self.values[i].clone());
            i += 1;
        }
        let copy = Record { deleted: self.deleted, values };
        proof {
            assert(copy@.names =~= self@.names);
            assert(copy@.values =~= self@.values);
        }
        copy
    }
}

/// What a record holds.
pub struct RecordView {
    pub deleted: bool,
    pub names: Seq<Seq<char>>,
    pub values: Seq<FieldValueView>,
}

impl View for Record {
    type V = RecordView;

    open spec fn view(&self) -> RecordView {
        RecordView {
            deleted: self.deleted,
            names: Seq::new(self.values@.len(), |i: int| self.values@[i].name@),
            values: Seq::new(self.values@.len(), |i: int| self.values@[i].value@),
        }
    }
}

/// The names of the fields `fields`.
pub open spec fn field_names(fields: Seq<FieldInfoView>) -> Seq<Seq<char>> {
    Seq::new(fields.len(), |i: int| fields[i].name)
}

impl Record {
    /// The record of the given values, each under the name of its field.
    pub fn new(deleted: bool, fields: &Vec<FieldInfo>, values: Vec<FieldValue>) -> (record: Record)
        requires
            values@.len() == fields@.len(),
        ensures
            record@ == (RecordView {
                deleted,
                names: field_names(field_views(fields@)),
                values: value_views(values@),
            }),
    {
        let ghost wanted = value_views(values@);
        let mut named: Vec<NamedValue> = Vec::new();
        let mut i: usize = 0;
        while i < values.len()
            invariant
                i <= values@.len(),
                values@.len() == fields@.len(),
                wanted == value_views(values@),
                named@.len() == i,
                forall|a: int|
                    0 <= a < i ==> (#[trigger] named@[a]).name@ == fields@[a]@.name
                        && named@[a].value@ == wanted[a],
            decreases values@.len() - i,
        {
            named.push(NamedValue { name: fields[i].name().to_owned(), value: values[i].clone() });
            i += 1;
        }
        let record = Record { deleted, values: named };
        proof {
            assert(record@.names =~= field_names(field_views(fields@)));
            assert(record@.values =~= wanted);
        }
        record
    }

    /// The value of the first field named `name`, if the record has such a
    /// field.
    pub fn get(&self, name: &str) -> (value: Option<&FieldValue>)
        ensures
            match value {
                Some(found) => exists|i: int|
                    0 <= i < self@.names.len() && self@.names[i] == name@ && self@.values[i]
                        == found@ && forall|k: int| 0 <= k < i ==> self@.names[k] != name@,
                None => forall|i: int| 0 <= i < self@.names.len() ==> self@.names[i] != name@,
            },
    {
        let wanted = name.to_owned();
        let mut i: usize = 0;
        while i < self.values.len()
            invariant
                i <= self.values@.len(),
                wanted@ == name@,
                forall|k: int| 0 <= k < i ==> self@.names[k] != name@,
            decreases self.values@.len() - i,
        {
            if self.values[i].name == wanted {
                assert(self@.names[i as int] == name@ && self@.values[i as int]
                    == self.values@[i as int].value@);
                return Some(&self.values[i].value);
            }
            i += 1;
        }
        None
    }
}

/// The number of records that a table file of `source_len` bytes holds:
/// the number that its header declares, or the number of whole records that
/// the file has room for behind the header, if that is less.
pub open spec fn available_records(info: TableInfoView, source_len: int) -> int {
    let room = source_len - info.header.header_length;
    if room < 0 {
        0
    } else if room / (info.header.record_length as int) < info.header.record_count {
        room / (info.header.record_length as int)
    } else {
        info.header.record_count as int
    }
}

/// The bytes of the record `index` in a table file: the records stand one
/// behind the other, behind the header.
pub open spec fn record_bytes(info: TableInfoView, source: Seq<u8>, index: int) -> Seq<u8> {
    source.subrange(
        info.header.header_length + index * info.header.record_length,
        info.header.header_length + (index + 1) * info.header.record_length,
    )
}

/// A record as it was read, and the state in which reading it left the memo
/// store.
pub struct DecodedRecord {
    pub record: Result<RecordView, ErrorKind>,
    pub memo: Option<MemoReaderView>,
}

/// The record that the bytes `bytes` hold: it is deleted where its first
/// byte is the deletion mark, and its values are those of its fields. A
/// deleted record is read like any other.
pub open spec fn decoded_record(
    bytes: Seq<u8>,
    fields: Seq<FieldInfoView>,
    encoding: Seq<char>,
    memo: Option<MemoReaderView>,
) -> DecodedRecord {
    let decoded = decoded_fields(bytes, fields, encoding, memo, fields.len() as int);
    DecodedRecord {
        record: match decoded.values {
            Ok(values) => Ok(
                RecordView { deleted: bytes[0] == DELETED, names: field_names(fields), values },
            ),
            Err(e) => Err(e),
        },
        memo: decoded.memo,
    }
}

/// The first records of a table, and the state in which reading them left
/// the memo store.
pub struct DecodedRecords {
    pub records: Result<Seq<RecordView>, ErrorKind>,
    pub memo: Option<MemoReaderView>,
}

/// The first `count` records of the table file `source`, read one after the
/// other. The first record that fails ends the reading.
pub open spec fn decoded_records(
    info: TableInfoView,
    source: Seq<u8>,
    encoding: Seq<char>,
    memo: Option<MemoReaderView>,
    count: int,
) -> DecodedRecords
    decreases count,
{
    if count <= 0 {
        DecodedRecords { records: Ok(Seq::empty()), memo }
    } else {
        let before = decoded_records(info, source, encoding, memo, count - 1);
        match before.records {
            Err(_) => before,
            Ok(records) => {
                let next = decoded_record(
                    record_bytes(info, source, count - 1),
                    info.fields,
                    encoding,
                    before.memo,
                );
                DecodedRecords {
                    records: match next.record {
                        Ok(record) => Ok(records.push(record)),
                        Err(e) => Err(e),
                    },
                    memo: next.memo,
                }
            },
        }
    }
}

/// The failure that ended the reading of the first `count` records of a
/// table, where one failed: the number of the record, the place of the
/// field that failed in it, and how it failed.
pub open spec fn record_failure(
    info: TableInfoView,
    source: Seq<u8>,
    encoding: Seq<char>,
    memo: Option<MemoReaderView>,
    count: int,
) -> Error
    decreases count,
{
    let before = decoded_records(info, source, encoding, memo, count - 1);
    if count <= 1 || before.records is Ok {
        Error {
            record_num: (count - 1) as usize,
            field: Some(
                failed_field(
                    record_bytes(info, source, count - 1),
                    info.fields,
                    encoding,
                    before.memo,
                    info.fields.len() as int,
                ) as usize,
            ),
            kind: decoded_records(info, source, encoding, memo, count).records->Err_0,
        }
    } else {
        record_failure(info, source, encoding, memo, count - 1)
    }
}

/// The views of the records `records`.
pub open spec fn record_views(records: Seq<Record>) -> Seq<RecordView> {
    Seq::new(records.len(), |i: int| records[i]@)
}

/// The fields of a table as its reader lists them: the deletion flag of a
/// record first, and then the columns `columns`, so that the first column
/// has the place 1.
pub open spec fn listed_fields(columns: Seq<FieldInfoView>) -> Seq<FieldInfoView> {
    seq![crate::record::deletion_flag_view()] + columns
}

/// A reader of the records of a table.
pub struct Reader {
    info: TableInfo,
    listed: Vec<FieldInfo>,
    encoding: CodePage,
    source: Vec<u8>,
    memo_reader: Option<MemoReader>,
}

/// The state of a reader: the layout of its table, the fields as the reader
/// lists them, the code page, the bytes of the table file, and the state of
/// the memo store, if it has one.
pub struct ReaderView {
    pub info: TableInfoView,
    pub fields: Seq<FieldInfoView>,
    pub encoding: Seq<char>,
    pub source: Seq<u8>,
    pub memo: Option<MemoReaderView>,
}

impl View for Reader {
    type V = ReaderView;

    closed spec fn view(&self) -> ReaderView {
        ReaderView {
            info: self.info@,
            fields: field_views(self.listed@),
            encoding: self.encoding@,
            source: self.source@,
            memo: memo_state(self.memo_reader),
        }
    }
}

impl Reader {
    /// A reader of the table whose file holds the bytes `source`, in the
    /// code page `encoding`. The header and the field descriptors are read
    /// at once, and their failure is the failure of the reader. The table
    /// has no memo store yet.
    pub fn new(source: Vec<u8>, encoding: CodePage) -> (r: Result<Reader, ErrorKind>)
        ensures
            match r {
                Ok(reader) => layout_of(source@, encoding@) == Ok::<TableInfoView, ErrorKind>(
                    reader@.info,
                ) && reader@ == (ReaderView {
                    info: reader@.info,
                    fields: listed_fields(reader@.info.fields),
                    encoding: encoding@,
                    source: source@,
                    memo: None,
                }),
                Err(e) => layout_of(source@, encoding@) == Err::<TableInfoView, ErrorKind>(e),
            },
    {
        match TableInfo::read_from(source.as_slice(), &encoding) {
            Ok(info) => {
                let columns = info.fields();
                let mut listed: Vec<FieldInfo> = Vec::new();
                listed.push(FieldInfo::deletion_flag());
                let mut i: usize = 0;
                while i < columns.len()
                    invariant
                        i <= columns@.len(),
                        listed@.len() == i + 1,
                        listed@[0]@ == crate::record::deletion_flag_view(),
                        forall|k: int| 0 <= k < i ==> (#[trigger] listed@[k + 1])@ == columns@[k]@,
                    decreases columns@.len() - i,
                {
                    listed.push(columns[i].clone());
                    i += 1;
                }
                proof {
                    let wanted = listed_fields(field_views(columns@));
                    assert(field_views(listed@).len() == wanted.len());
                    assert forall|k: int| 0 <= k < wanted.len() implies field_views(listed@)[k]
                        == wanted[k] by {
                        if k > 0 {
                            assert(listed@[(k - 1) + 1]@ == columns@[k - 1]@);
                        }
                    }
                    assert(field_views(listed@) =~= wanted);
                }
                Ok(Reader { info, listed, encoding, source, memo_reader: None })
            },
            Err(e) => Err(e),
        }
    }

    /// A reader of the table whose file holds the bytes `source`, in the
    /// code page that `label` stands for. An unknown label is refused
    /// before the table is looked at.
    pub fn new_with_label(source: Vec<u8>, label: &str) -> (r: Result<Reader, ErrorKind>)
        ensures
            match r {
                Ok(reader) => encoding_of_label(label@) is Some && layout_of(
                    source@,
                    label@,
                ) == Ok::<TableInfoView, ErrorKind>(reader@.info) && reader@ == (ReaderView {
                    info: reader@.info,
                    fields: listed_fields(reader@.info.fields),
                    encoding: label@,
                    source: source@,
                    memo: None,
                }),
                Err(e) => if encoding_of_label(label@) is None {
                    e == ErrorKind::InvalidEncoding
                } else {
                    layout_of(source@, label@) == Err::<TableInfoView, ErrorKind>(e)
                },
            },
    {
        match CodePage::for_label(label) {
            Ok(encoding) => Reader::new(source, encoding),
            Err(e) => Err(e),
        }
    }

    /// The same reader with `memo_reader` as the memo store of its table.
    pub fn with_memo(self, memo_reader: MemoReader) -> (reader: Reader)
        ensures
            reader@ == (ReaderView { memo: Some(memo_reader@), ..self@ }),
    {
        Reader {
            info: self.info,
            listed: self.listed,
            encoding: self.encoding,
            source: self.source,
            memo_reader: Some(memo_reader),
        }
    }

    /// The header of the table.
    pub fn header(&self) -> (header: TableHeader)
        ensures
            header == self@.info.header,
    {
        self.info.header()
    }

    /// The fields of the table as the reader lists them: the deletion flag
    /// of a record has the place 0, and the columns follow in their order.
    pub fn fields(&self) -> (fields: &Vec<FieldInfo>)
        ensures
            field_views(fields@) == self@.fields,
    {
        &self.listed
    }

    /// The descriptors of the columns of the table, in the order of the
    /// fields in a record.
    pub fn columns(&self) -> (fields: &Vec<FieldInfo>)
        ensures
            field_views(fields@) == self@.info.fields,
    {
        self.info.fields()
    }

    /// The number of records that can be read: not more than the header
    /// declares, and not more than the file holds in full.
    pub fn record_count(&self) -> (count: usize)
        ensures
            count == available_records(self@.info, self@.source.len() as int),
            self@.info.wf(),
            count > 0 ==> self@.info.header.header_length + count
                * self@.info.header.record_length <= self@.source.len(),
    {
        let header = self.info.header();
        let len = self.source.len();
        let start = header.header_length as usize;
        if len < start {
            return 0;
        }
        let size = header.record_length as usize;
        let room = len - start;
        let whole = room / size;
        assert(whole * size <= room) by (nonlinear_arith)
            requires
                whole == room / size,
                size > 0,
        ;
        if whole < header.record_count as usize {
            whole
        } else {
            assert((header.record_count as int) * size <= whole * size) by (nonlinear_arith)
                requires
                    header.record_count <= whole,
                    size > 0,
            ;
            header.record_count as usize
        }
    }

    /// Reads the record `index`. There is no such record where the index is
    /// not below the number of records that can be read: the end of the
    /// file ends the table, whatever its header declares.
    pub fn read_record(&mut self, index: usize) -> (r: Result<Option<Record>, Error>)
        ensures
            final(self)@.info == old(self)@.info,
            final(self)@.fields == old(self)@.fields,
            final(self)@.encoding == old(self)@.encoding,
            final(self)@.source == old(self)@.source,
            index >= available_records(old(self)@.info, old(self)@.source.len() as int) ==> r
                == Ok::<Option<Record>, Error>(None) && final(self)@ == old(self)@,
            index < available_records(old(self)@.info, old(self)@.source.len() as int) ==> ({
                let decoded = decoded_record(
                    record_bytes(old(self)@.info, old(self)@.source, index as int),
                    old(self)@.info.fields,
                    old(self)@.encoding,
                    old(self)@.memo,
                );
                &&& final(self)@.memo == decoded.memo
                &&& match r {
                    Ok(Some(record)) => decoded.record == Ok::<RecordView, ErrorKind>(record@),
                    Ok(None) => false,
                    Err(e) => decoded.record == Err::<RecordView, ErrorKind>(e.kind) && e == (
                    Error {
                        record_num: index,
                        field: Some(
                            failed_field(
                                record_bytes(old(self)@.info, old(self)@.source, index as int),
                                old(self)@.info.fields,
                                old(self)@.encoding,
                                old(self)@.memo,
                                old(self)@.info.fields.len() as int,
                            ) as usize,
                        ),
                        kind: e.kind,
                    }),
                }
            }),
    {
        let count = self.record_count();
        if index >= count {
            return Ok(None);
        }
        let header = self.info.header();
        let size = header.record_length as usize;
        let start = header.header_length as usize;
        let len = self.source.len();
        assert(index * size + size <= count * size && 0 <= index * size) by (nonlinear_arith)
            requires
                0 <= index < count,
                size >= 0,
        ;
        assert(start + index * size + size <= len);
        let offset = start + index * size;
        assert((index + 1) * size == index * size + size) by (nonlinear_arith);
        let bytes = vstd::slice::slice_subrange(self.source.as_slice(), offset, offset + size);
        let fields = self.info.fields();
        let values = match read_fields(bytes, fields, &self.encoding, &mut self.memo_reader) {
            Ok(values) => values,
            Err(e) => {
                return Err(Error { record_num: index, field: Some(e.field), kind: e.kind });
            },
        };
        proof {
            lemma_values_length(
                bytes@,
                field_views(fields@),
                self.encoding@,
                old(self)@.memo,
                fields@.len() as int,
            );
        }
        Ok(Some(Record::new(bytes[0] == DELETED, fields, values)))
    }

    /// Reads all records of the table, in their order in the file. The
    /// first record that fails is the failure of the reading.
    pub fn read(&mut self) -> (r: Result<Vec<Record>, Error>)
        ensures
            final(self)@.info == old(self)@.info,
            final(self)@.fields == old(self)@.fields,
            final(self)@.encoding == old(self)@.encoding,
            final(self)@.source == old(self)@.source,
            ({
                let all = decoded_records(
                    old(self)@.info,
                    old(self)@.source,
                    old(self)@.encoding,
                    old(self)@.memo,
                    available_records(old(self)@.info, old(self)@.source.len() as int),
                );
                &&& final(self)@.memo == all.memo
                &&& match r {
                    Ok(records) => all.records == Ok::<Seq<RecordView>, ErrorKind>(
                        record_views(records@),
                    ),
                    Err(e) => all.records == Err::<Seq<RecordView>, ErrorKind>(e.kind) && e
                        == record_failure(
                        old(self)@.info,
                        old(self)@.source,
                        old(self)@.encoding,
                        old(self)@.memo,
                        available_records(old(self)@.info, old(self)@.source.len() as int),
                    ),
                }
            }),
    {
        let count = self.record_count();
        let mut records: Vec<Record> = Vec::new();
        let mut i: usize = 0;
        proof {
            assert(record_views(records@) =~= Seq::<RecordView>::empty());
        }
        while i < count
            invariant
                i <= count,
                count == available_records(old(self)@.info, old(self)@.source.len() as int),
                self@.info == old(self)@.info,
                self@.fields == old(self)@.fields,
                self@.encoding == old(self)@.encoding,
                self@.source == old(self)@.source,
                decoded_records(
                    old(self)@.info,
                    old(self)@.source,
                    old(self)@.encoding,
                    old(self)@.memo,
                    i as int,
                ) == (DecodedRecords { records: Ok(record_views(records@)), memo: self@.memo }),
            decreases count - i,
        {
            let ghost before = record_views(records@);
            match self.read_record(i) {
                Ok(Some(record)) => {
                    records.push(record);
                    proof {
                        assert(record_views(records@) =~= before.push(record@));
                    }
                },
                Ok(None) => {},
                Err(e) => {
                    proof {
                        lemma_record_failure_stays(
                            old(self)@.info,
                            old(self)@.source,
                            old(self)@.encoding,
                            old(self)@.memo,
                            i + 1,
                            count as int,
                        );
                    }
                    return Err(e);
                },
            }
            i += 1;
        }
        Ok(records)
    }
}

/// The fields of a record that were read are as many as were asked for.
pub proof fn lemma_values_length(
    record: Seq<u8>,
    fields: Seq<FieldInfoView>,
    encoding: Seq<char>,
    memo: Option<MemoReaderView>,
    count: int,
)
    requires
        0 <= count,
    ensures
        decoded_fields(record, fields, encoding, memo, count).values matches Ok(values)
            ==> values.len() == count,
    decreases count,
{
    if count > 0 {
        lemma_values_length(record, fields, encoding, memo, count - 1);
    }
}

/// Once a record has failed, the records behind it are not read.
pub proof fn lemma_record_failure_stays(
    info: TableInfoView,
    source: Seq<u8>,
    encoding: Seq<char>,
    memo: Option<MemoReaderView>,
    failed: int,
    count: int,
)
    requires
        0 <= failed <= count,
        decoded_records(info, source, encoding, memo, failed).records is Err,
    ensures
        decoded_records(info, source, encoding, memo, count) == decoded_records(
            info,
            source,
            encoding,
            memo,
            failed,
        ),
        failed >= 1 ==> record_failure(info, source, encoding, memo, count) == record_failure(
            info,
            source,
            encoding,
            memo,
            failed,
        ),
    decreases count - failed,
{
    if failed < count {
        lemma_record_failure_stays(info, source, encoding, memo, failed, count - 1);
    }
}

/// A walk over the records of a table, from the first to the last. What it
/// gives is read when it is asked for.
pub struct RecordIterator {
    reader: Reader,
    position: usize,
}

/// The state of a walk over the records of a table: the state of its
/// reader, and the number of the record that comes next.
pub struct RecordIteratorView {
    pub reader: ReaderView,
    pub position: usize,
}

impl View for RecordIterator {
    type V = RecordIteratorView;

    closed spec fn view(&self) -> RecordIteratorView {
        RecordIteratorView { reader: self.reader@, position: self.position }
    }
}

impl Reader {
    /// A walk over the records of the table, which starts at its first
    /// record.
    pub fn iter_records(self) -> (records: RecordIterator)
        ensures
            records@ == (RecordIteratorView { reader: self@, position: 0 }),
    {
        RecordIterator { reader: self, position: 0 }
    }
}

impl RecordIterator {
    /// The next record of the table, or its failure; `None` behind the last
    /// record that can be read. A record that failed is passed over: the
    /// walk goes on with the record behind it.
    pub fn next_record(&mut self) -> (r: Option<Result<Record, Error>>)
        ensures
            final(self)@.reader.info == old(self)@.reader.info,
            final(self)@.reader.fields == old(self)@.reader.fields,
            final(self)@.reader.encoding == old(self)@.reader.encoding,
            final(self)@.reader.source == old(self)@.reader.source,
            old(self)@.position >= available_records(
                old(self)@.reader.info,
                old(self)@.reader.source.len() as int,
            ) ==> r is None && final(self)@ == old(self)@,
            old(self)@.position < available_records(
                old(self)@.reader.info,
                old(self)@.reader.source.len() as int,
            ) ==> ({
                let decoded = decoded_record(
                    record_bytes(
                        old(self)@.reader.info,
                        old(self)@.reader.source,
                        old(self)@.position as int,
                    ),
                    old(self)@.reader.info.fields,
                    old(self)@.reader.encoding,
                    old(self)@.reader.memo,
                );
                &&& final(self)@.position == old(self)@.position + 1
                &&& final(self)@.reader.memo == decoded.memo
                &&& match r {
                    Some(Ok(record)) => decoded.record == Ok::<RecordView, ErrorKind>(record@),
                    Some(Err(e)) => decoded.record == Err::<RecordView, ErrorKind>(e.kind)
                        && e.record_num == old(self)@.position,
                    None => false,
                }
            }),
    {
        let count = self.reader.record_count();
        if self.position >= count {
            return None;
        }
        let index = self.position;
        let result = self.reader.read_record(index);
        self.position = index + 1;
        match result {
            Ok(Some(record)) => Some(Ok(record)),
            Ok(None) => None,
            Err(e) => Some(Err(e)),
        }
    }

    /// The reader of the table, as the walk left it.
    pub fn into_reader(self) -> (reader: Reader)
        ensures
            reader@ == self@.reader,
    {
        self.reader
    }
}

} // verus!
