//! Writing a table: a builder collects the fields, and a writer puts the
//! header, the field descriptors and then one record after the other into
//! the bytes of the table file.

use vstd::prelude::*;

use crate::byte_order::append_bytes;
use crate::calendar::Date;
use crate::encoding::{encoding_of_label, CodePage};
use crate::error::{Error, ErrorKind};
use crate::field::{encoded_field, FieldValue, FieldValueView};
use crate::field_type::FieldType;
use crate::header::{
    TableHeader, DESCRIPTOR_SIZE, END_OF_FILE, HEADER_SIZE, NOT_DELETED, TERMINATOR,
};
use crate::reading::value_views;
use crate::record::{is_length_allowed, length_allowed, FieldInfo, FieldInfoView, FieldName};
use crate::table::{
    descriptor_bytes, field_views, name_bytes, names_distinct, sum_lengths, write_descriptor,
    TableInfo, TableInfoView, MAX_FIELDS,
};

verus! {

/// The version byte of a table without a memo store.
pub const DBASE3: u8 = 0x03;

/// The most bytes that the fields of a record can take together: the length
/// of a record, with its deletion flag, is a number of two bytes.
pub const MAX_FIELDS_LENGTH: usize = 0xfffe;

/// The bytes that the first `count` values of `values` take in a record of
/// fields `fields`: the flag of a record in use, and then the bytes of each
/// field. The first value that its field refuses is the failure of all.
pub open spec fn encoded_fields(
    values: Seq<FieldValueView>,
    fields: Seq<FieldInfoView>,
    encoding: Seq<char>,
    count: int,
) -> Result<Seq<u8>, ErrorKind>
    decreases count,
{
    if count <= 0 {
        Ok(seq![NOT_DELETED])
    } else {
        match encoded_fields(values, fields, encoding, count - 1) {
            Err(e) => Err(e),
            Ok(bytes) => match encoded_field(values[count - 1], fields[count - 1], encoding) {
                Ok(slot) => Ok(bytes + slot),
                Err(e) => Err(e),
            },
        }
    }
}

/// The place of the value whose refusal ended the writing of the first
/// `count` values of a record, where one was refused.
pub open spec fn refused_field(
    values: Seq<FieldValueView>,
    fields: Seq<FieldInfoView>,
    encoding: Seq<char>,
    count: int,
) -> int
    decreases count,
{
    if count <= 0 {
        0
    } else if encoded_fields(values, fields, encoding, count - 1) is Err {
        refused_field(values, fields, encoding, count - 1)
    } else {
        count - 1
    }
}

/// The refusal of the record number `record_num` of the values `values`,
/// where it is refused: the number of the record, the place of the value
/// that was refused, if the record has a value for each field, and how it
/// was refused.
pub open spec fn record_refusal(
    values: Seq<FieldValueView>,
    fields: Seq<FieldInfoView>,
    encoding: Seq<char>,
    record_num: int,
) -> Error {
    Error {
        record_num: record_num as usize,
        field: if values.len() == fields.len() {
            Some(refused_field(values, fields, encoding, fields.len() as int) as usize)
        } else {
            None
        },
        kind: encoded_record(values, fields, encoding)->Err_0,
    }
}

/// The bytes of the record of the values `values` in a table of fields
/// `fields`. A record with fewer or with more values than the table has
/// fields is refused before any value is looked at.
pub open spec fn encoded_record(
    values: Seq<FieldValueView>,
    fields: Seq<FieldInfoView>,
    encoding: Seq<char>,
) -> Result<Seq<u8>, ErrorKind> {
    if values.len() < fields.len() {
        Err(ErrorKind::NotEnoughFields)
    } else if values.len() > fields.len() {
        Err(ErrorKind::TooManyFields)
    } else {
        encoded_fields(values, fields, encoding, fields.len() as int)
    }
}

/// The bytes of the first `count` descriptors of `fields`, one behind the
/// other. The first name that cannot be written is the failure of all.
pub open spec fn descriptors_bytes(fields: Seq<FieldInfoView>, encoding: Seq<char>, count: int)
    -> Result<Seq<u8>, ErrorKind>
    decreases count,
{
    if count <= 0 {
        Ok(Seq::empty())
    } else {
        match descriptors_bytes(fields, encoding, count - 1) {
            Err(e) => Err(e),
            Ok(bytes) => match name_bytes(fields[count - 1].name, encoding) {
                Ok(name) => Ok(bytes + descriptor_bytes(fields[count - 1], name)),
                Err(e) => Err(e),
            },
        }
    }
}

/// The bytes that a table file starts with: the header, the descriptors of
/// the fields, and the terminator byte.
pub open spec fn layout_bytes(info: TableInfoView, encoding: Seq<char>) -> Result<
    Seq<u8>,
    ErrorKind,
> {
    match descriptors_bytes(info.fields, encoding, info.fields.len() as int) {
        Ok(bytes) => Ok(info.header.bytes() + bytes + seq![TERMINATOR]),
        Err(e) => Err(e),
    }
}

/// The bytes of the first `count` records of `records`, one behind the
/// other. The first record that is refused is the failure of all.
pub open spec fn records_bytes(
    records: Seq<Seq<FieldValueView>>,
    fields: Seq<FieldInfoView>,
    encoding: Seq<char>,
    count: int,
) -> Result<Seq<u8>, ErrorKind>
    decreases count,
{
    if count <= 0 {
        Ok(Seq::empty())
    } else {
        match records_bytes(records, fields, encoding, count - 1) {
            Err(e) => Err(e),
            Ok(bytes) => match encoded_record(records[count - 1], fields, encoding) {
                Ok(record) => Ok(bytes + record),
                Err(e) => Err(e),
            },
        }
    }
}

/// The bytes of the file of a table of layout `info` that holds the
/// records `records`: the header and the descriptors, the records, and the
/// end-of-file byte.
pub open spec fn table_bytes(
    info: TableInfoView,
    encoding: Seq<char>,
    records: Seq<Seq<FieldValueView>>,
) -> Result<Seq<u8>, ErrorKind> {
    match layout_bytes(info, encoding) {
        Err(e) => Err(e),
        Ok(start) => match records_bytes(records, info.fields, encoding, records.len() as int) {
            Err(e) => Err(e),
            Ok(body) => Ok(start + body + seq![END_OF_FILE]),
        },
    }
}

/// The values of the records `records`.
pub open spec fn records_views(records: Seq<Vec<FieldValue>>) -> Seq<Seq<FieldValueView>> {
    Seq::new(records.len(), |i: int| value_views(records[i]@))
}

/// The header of a new table of fields `fields` that was last updated on
/// the day `last_update`, if that day can be written: the year is counted
/// from 1900 in one byte, and the month and the day take one byte each.
pub open spec fn new_header(
    fields: Seq<FieldInfoView>,
    version: u8,
    language_driver: u8,
    last_update: Date,
) -> Option<TableHeader> {
    if 1900 <= last_update.year <= 2155 && last_update.month <= 255 && last_update.day <= 255 {
        Some(
            TableHeader {
                version,
                update_year: (last_update.year - 1900) as u8,
                update_month: last_update.month as u8,
                update_day: last_update.day as u8,
                record_count: 0,
                header_length: (HEADER_SIZE + DESCRIPTOR_SIZE * fields.len() + 1) as u16,
                record_length: (1 + sum_lengths(fields)) as u16,
                transaction_flag: 0,
                encryption_flag: 0,
                table_flags: 0,
                language_driver,
            },
        )
    } else {
        None
    }
}

/// What a builder holds.
pub struct TableWriterBuilderView {
    pub fields: Seq<FieldInfoView>,
    pub encoding: Seq<char>,
    pub version: u8,
    pub language_driver: u8,
}

impl TableWriterBuilderView {
    /// The fields can make a table: they are few enough and narrow enough
    /// for the two lengths of the header, each is well formed, and no two
    /// have the same name.
    pub open spec fn wf(self) -> bool {
        &&& self.fields.len() <= MAX_FIELDS
        &&& sum_lengths(self.fields) <= MAX_FIELDS_LENGTH
        &&& forall|i: int| 0 <= i < self.fields.len() ==> (#[trigger] self.fields[i]).wf()
        &&& names_distinct(self.fields)
    }
}

/// Collects the fields of a table that is to be written.
pub struct TableWriterBuilder {
    fields: Vec<FieldInfo>,
    total_length: usize,
    encoding: CodePage,
    version: u8,
    language_driver: u8,
}

impl View for TableWriterBuilder {
    type V = TableWriterBuilderView;

    closed spec fn view(&self) -> TableWriterBuilderView {
        TableWriterBuilderView {
            fields: field_views(self.fields@),
            encoding: self.encoding@,
            version: self.version,
            language_driver: self.language_driver,
        }
    }
}

/// What becomes of the fields of a builder when a field is added: the new
/// field stands behind the others. A width that the type does not allow, a
/// field too many and a record too long make the header malformed, and a
/// name that another field has is refused.
pub open spec fn with_field(fields: Seq<FieldInfoView>, field: FieldInfoView) -> Result<
    Seq<FieldInfoView>,
    ErrorKind,
> {
    if !length_allowed(field.field_type, field.field_length) {
        Err(ErrorKind::MalformedHeader)
    } else if fields.len() >= MAX_FIELDS || sum_lengths(fields) + field.field_length
        > MAX_FIELDS_LENGTH {
        Err(ErrorKind::MalformedHeader)
    } else if exists|i: int| 0 <= i < fields.len() && fields[i].name == field.name {
        Err(ErrorKind::InvalidFieldName)
    } else {
        Ok(fields.push(field))
    }
}

/// The descriptor of a new field.
pub open spec fn new_field(name: Seq<char>, field_type: FieldType, length: u8, places: u8)
    -> FieldInfoView {
    FieldInfoView {
        name,
        field_type,
        displacement_field: seq![0u8, 0u8, 0u8, 0u8],
        field_length: length,
        num_decimal_places: places,
        flags: crate::record::FieldFlags(0),
        autoincrement_next_val: seq![0u8, 0u8, 0u8, 0u8, 0u8],
        autoincrement_step: 0,
    }
}

impl TableWriterBuilder {
    #[verifier::type_invariant]
    spec fn well_formed(self) -> bool {
        &&& self@.wf()
        &&& self.total_length == sum_lengths(field_views(self.fields@))
    }

    /// A builder of a table without fields, in the code page `encoding`.
    pub fn new(encoding: CodePage) -> (builder: TableWriterBuilder)
        ensures
            builder@ == (TableWriterBuilderView {
                fields: Seq::empty(),
                encoding: encoding@,
                version: DBASE3,
                language_driver: 0,
            }),
            builder@.wf(),
    {
        let fields: Vec<FieldInfo> = Vec::new();
        proof {
            assert(field_views(fields@) =~= Seq::<FieldInfoView>::empty());
        }
        TableWriterBuilder {
            fields,
            total_length: 0,
            encoding,
            version: DBASE3,
            language_driver: 0,
        }
    }

    /// A builder of a table without fields, in the code page that `label`
    /// stands for. A label that stands for no code page is refused.
    pub fn new_with_label(label: &str) -> (r: Result<TableWriterBuilder, ErrorKind>)
        ensures
            match r {
                Ok(builder) => encoding_of_label(label@) is Some && builder@
                    == (TableWriterBuilderView {
                    fields: Seq::empty(),
                    encoding: label@,
                    version: DBASE3,
                    language_driver: 0,
                }) && builder@.wf(),
                Err(e) => encoding_of_label(label@) is None && e
                    == ErrorKind::InvalidEncoding,
            },
    {
        match CodePage::for_label(label) {
            Ok(encoding) => Ok(TableWriterBuilder::new(encoding)),
            Err(e) => Err(e),
        }
    }

    /// The same builder with `language_driver` as the byte that names the
    /// code page in the header.
    pub fn language_driver(self, language_driver: u8) -> (builder: TableWriterBuilder)
        ensures
            builder@ == (TableWriterBuilderView { language_driver, ..self@ }),
            builder@.wf(),
    {
        proof {
            use_type_invariant(&self);
        }
        TableWriterBuilder {
            fields: self.fields,
            total_length: self.total_length,
            encoding: self.encoding,
            version: self.version,
            language_driver,
        }
    }

    /// Adds a field of the given name, type, width and decimal places
    /// behind the fields that the builder has.
    pub fn add_field(self, name: FieldName, field_type: FieldType, length: u8, places: u8) -> (r:
        Result<TableWriterBuilder, ErrorKind>)
        ensures
            match r {
                Ok(builder) => with_field(
                    self@.fields,
                    new_field(name@, field_type, length, places),
                ) == Ok::<Seq<FieldInfoView>, ErrorKind>(builder@.fields) && builder@ == (
                TableWriterBuilderView { fields: builder@.fields, ..self@ }) && builder@.wf(),
                Err(e) => with_field(self@.fields, new_field(name@, field_type, length, places))
                    == Err::<Seq<FieldInfoView>, ErrorKind>(e),
            },
    {
        proof {
            use_type_invariant(&self);
        }
        let ghost before = field_views(self.fields@);
        if !is_length_allowed(field_type, length) {
            return Err(ErrorKind::MalformedHeader);
        }
        if self.fields.len() >= MAX_FIELDS || self.total_length + length as usize
            > MAX_FIELDS_LENGTH {
            return Err(ErrorKind::MalformedHeader);
        }
        let field = FieldInfo::new(name, field_type, length).with_decimal_places(places);
        proof {
            assert(field@ == new_field(name@, field_type, length, places));
        }
        let mut i: usize = 0;
        while i < self.fields.len()
            invariant
                i <= self.fields@.len(),
                before == field_views(self.fields@),
                before == self@.fields,
                field@ == new_field(name@, field_type, length, places),
                length_allowed(field_type, length),
                before.len() < MAX_FIELDS,
                sum_lengths(before) + length <= MAX_FIELDS_LENGTH,
                forall|k: int| 0 <= k < i ==> before[k].name != field@.name,
            decreases self.fields@.len() - i,
        {
            if self.fields[i].same_name(&field) {
                assert(before[i as int].name == field@.name);
                return Err(ErrorKind::InvalidFieldName);
            }
            i += 1;
        }
        let mut fields = self.fields;
        fields.push(field);
        proof {
            let after = field_views(fields@);
            assert(after =~= before.push(field@));
            assert(after.drop_last() =~= before);
            assert forall|a: int, b: int| 0 <= a < b < after.len() implies after[a].name
                != after[b].name by {
                if b < before.len() {
                    assert(after[a] == before[a] && after[b] == before[b]);
                } else {
                    assert(after[a] == before[a]);
                }
            }
            assert forall|k: int| 0 <= k < after.len() implies (#[trigger] after[k]).wf() by {
                if k < before.len() {
                    assert(after[k] == before[k]);
                }
            }
        }
        Ok(
            TableWriterBuilder {
                fields,
                total_length: self.total_length + length as usize,
                encoding: self.encoding,
                version: self.version,
                language_driver: self.language_driver,
            },
        )
    }

    /// Adds a text field of `length` bytes.
    pub fn add_character_field(self, name: FieldName, length: u8) -> (r: Result<
        TableWriterBuilder,
        ErrorKind,
    >)
        ensures
            match r {
                Ok(builder) => with_field(
                    self@.fields,
                    new_field(name@, FieldType::Character, length, 0),
                ) == Ok::<Seq<FieldInfoView>, ErrorKind>(builder@.fields) && builder@ == (
                TableWriterBuilderView { fields: builder@.fields, ..self@ }) && builder@.wf(),
                Err(e) => with_field(
                    self@.fields,
                    new_field(name@, FieldType::Character, length, 0),
                ) == Err::<Seq<FieldInfoView>, ErrorKind>(e),
            },
    {
        self.add_field(name, FieldType::Character, length, 0)
    }

    /// Adds a numeric field of `length` bytes, `num_decimal_places` of
    /// which are digits behind the point.
    pub fn add_numeric_field(self, name: FieldName, length: u8, num_decimal_places: u8) -> (r:
        Result<TableWriterBuilder, ErrorKind>)
        ensures
            match r {
                Ok(builder) => with_field(
                    self@.fields,
                    new_field(name@, FieldType::Numeric, length, num_decimal_places),
                ) == Ok::<Seq<FieldInfoView>, ErrorKind>(builder@.fields) && builder@ == (
                TableWriterBuilderView { fields: builder@.fields, ..self@ }) && builder@.wf(),
                Err(e) => with_field(
                    self@.fields,
                    new_field(name@, FieldType::Numeric, length, num_decimal_places),
                ) == Err::<Seq<FieldInfoView>, ErrorKind>(e),
            },
    {
        self.add_field(name, FieldType::Numeric, length, num_decimal_places)
    }

    /// Adds a float field of `length` bytes, `num_decimal_places` of which
    /// are digits behind the point.
    pub fn add_float_field(self, name: FieldName, length: u8, num_decimal_places: u8) -> (r:
        Result<TableWriterBuilder, ErrorKind>)
        ensures
            match r {
                Ok(builder) => with_field(
                    self@.fields,
                    new_field(name@, FieldType::Float, length, num_decimal_places),
                ) == Ok::<Seq<FieldInfoView>, ErrorKind>(builder@.fields) && builder@ == (
                TableWriterBuilderView { fields: builder@.fields, ..self@ }) && builder@.wf(),
                Err(e) => with_field(
                    self@.fields,
                    new_field(name@, FieldType::Float, length, num_decimal_places),
                ) == Err::<Seq<FieldInfoView>, ErrorKind>(e),
            },
    {
        self.add_field(name, FieldType::Float, length, num_decimal_places)
    }

    /// Adds a date field, which takes eight bytes.
    pub fn add_date_field(self, name: FieldName) -> (r: Result<TableWriterBuilder, ErrorKind>)
        ensures
            match r {
                Ok(builder) => with_field(
                    self@.fields,
                    new_field(name@, FieldType::Date, 8, 0),
                ) == Ok::<Seq<FieldInfoView>, ErrorKind>(builder@.fields) && builder@ == (
                TableWriterBuilderView { fields: builder@.fields, ..self@ }) && builder@.wf(),
                Err(e) => with_field(self@.fields, new_field(name@, FieldType::Date, 8, 0))
                    == Err::<Seq<FieldInfoView>, ErrorKind>(e),
            },
    {
        self.add_field(name, FieldType::Date, 8, 0)
    }

    /// Adds a field of a truth value, which takes one byte.
    pub fn add_logical_field(self, name: FieldName) -> (r: Result<TableWriterBuilder, ErrorKind>)
        ensures
            match r {
                Ok(builder) => with_field(
                    self@.fields,
                    new_field(name@, FieldType::Logical, 1, 0),
                ) == Ok::<Seq<FieldInfoView>, ErrorKind>(builder@.fields) && builder@ == (
                TableWriterBuilderView { fields: builder@.fields, ..self@ }) && builder@.wf(),
                Err(e) => with_field(self@.fields, new_field(name@, FieldType::Logical, 1, 0))
                    == Err::<Seq<FieldInfoView>, ErrorKind>(e),
            },
    {
        self.add_field(name, FieldType::Logical, 1, 0)
    }

    /// Adds a field of a signed number of four bytes.
    pub fn add_integer_field(self, name: FieldName) -> (r: Result<TableWriterBuilder, ErrorKind>)
        ensures
            match r {
                Ok(builder) => with_field(
                    self@.fields,
                    new_field(name@, FieldType::Integer, 4, 0),
                ) == Ok::<Seq<FieldInfoView>, ErrorKind>(builder@.fields) && builder@ == (
                TableWriterBuilderView { fields: builder@.fields, ..self@ }) && builder@.wf(),
                Err(e) => with_field(self@.fields, new_field(name@, FieldType::Integer, 4, 0))
                    == Err::<Seq<FieldInfoView>, ErrorKind>(e),
            },
    {
        self.add_field(name, FieldType::Integer, 4, 0)
    }

    /// Adds a currency field, which takes eight bytes.
    pub fn add_currency_field(self, name: FieldName) -> (r: Result<TableWriterBuilder, ErrorKind>)
        ensures
            match r {
                Ok(builder) => with_field(
                    self@.fields,
                    new_field(name@, FieldType::Currency, 8, 0),
                ) == Ok::<Seq<FieldInfoView>, ErrorKind>(builder@.fields) && builder@ == (
                TableWriterBuilderView { fields: builder@.fields, ..self@ }) && builder@.wf(),
                Err(e) => with_field(self@.fields, new_field(name@, FieldType::Currency, 8, 0))
                    == Err::<Seq<FieldInfoView>, ErrorKind>(e),
            },
    {
        self.add_field(name, FieldType::Currency, 8, 0)
    }

    /// Adds a date-time field, which takes eight bytes.
    pub fn add_datetime_field(self, name: FieldName) -> (r: Result<TableWriterBuilder, ErrorKind>)
        ensures
            match r {
                Ok(builder) => with_field(
                    self@.fields,
                    new_field(name@, FieldType::DateTime, 8, 0),
                ) == Ok::<Seq<FieldInfoView>, ErrorKind>(builder@.fields) && builder@ == (
                TableWriterBuilderView { fields: builder@.fields, ..self@ }) && builder@.wf(),
                Err(e) => with_field(self@.fields, new_field(name@, FieldType::DateTime, 8, 0))
                    == Err::<Seq<FieldInfoView>, ErrorKind>(e),
            },
    {
        self.add_field(name, FieldType::DateTime, 8, 0)
    }

    /// Adds a field of a number in binary floating point, which takes eight bytes.
    pub fn add_double_field(self, name: FieldName) -> (r: Result<TableWriterBuilder, ErrorKind>)
        ensures
            match r {
                Ok(builder) => with_field(
                    self@.fields,
                    new_field(name@, FieldType::Double, 8, 0),
                ) == Ok::<Seq<FieldInfoView>, ErrorKind>(builder@.fields) && builder@ == (
                TableWriterBuilderView { fields: builder@.fields, ..self@ }) && builder@.wf(),
                Err(e) => with_field(self@.fields, new_field(name@, FieldType::Double, 8, 0))
                    == Err::<Seq<FieldInfoView>, ErrorKind>(e),
            },
    {
        self.add_field(name, FieldType::Double, 8, 0)
    }

    /// Starts the table file: the header and the descriptors of the fields
    /// are written at once, so that the bytes are those of a table without
    /// records whatever follows. `last_update` is the day that the header
    /// gives as that of the last update.
    ///
    /// A day that the header cannot hold makes the header malformed, and a
    /// field name that the code page cannot write in eleven bytes is
    /// refused.
    pub fn build(self, last_update: Date) -> (r: Result<TableWriter, ErrorKind>)
        ensures
            match new_header(self@.fields, self@.version, self@.language_driver, last_update) {
                None => r is Err && r->Err_0 == ErrorKind::MalformedHeader,
                Some(header) => match layout_bytes(
                    TableInfoView { header, fields: self@.fields },
                    self@.encoding,
                ) {
                    Ok(bytes) => r is Ok && r->Ok_0@ == (TableWriterView {
                        info: TableInfoView { header, fields: self@.fields },
                        encoding: self@.encoding,
                        bytes,
                        record_count: 0,
                    }),
                    Err(e) => r is Err && r->Err_0 == e,
                },
            },
    {
        proof {
            use_type_invariant(&self);
        }
        if last_update.year < 1900 || last_update.year > 2155 || last_update.month > 255
            || last_update.day > 255 {
            return Err(ErrorKind::MalformedHeader);
        }
        let ghost views = field_views(self.fields@);
        let header = TableHeader {
            version: self.version,
            update_year: (last_update.year - 1900) as u8,
            update_month: last_update.month as u8,
            update_day: last_update.day as u8,
            record_count: 0,
            header_length: (HEADER_SIZE + DESCRIPTOR_SIZE * self.fields.len() + 1) as u16,
            record_length: (1 + self.total_length) as u16,
            transaction_flag: 0,
            encryption_flag: 0,
            table_flags: 0,
            language_driver: self.language_driver,
        };
        let mut dst: Vec<u8> = Vec::new();
        proof {
            assert(dst@ =~= Seq::<u8>::empty());
        }
        let mut i: usize = 0;
        while i < self.fields.len()
            invariant
                i <= self.fields@.len(),
                views == field_views(self.fields@),
                views == self@.fields,
                new_header(views, self@.version, self@.language_driver, last_update) == Some(
                    header,
                ),
                descriptors_bytes(views, self.encoding@, i as int) == Ok::<Seq<u8>, ErrorKind>(
                    dst@,
                ),
            decreases self.fields@.len() - i,
        {
            match write_descriptor(&self.fields[i], &self.encoding, &mut dst) {
                Ok(()) => {},
                Err(e) => {
                    proof {
                        lemma_descriptor_failure_stays(
                            views,
                            self.encoding@,
                            i + 1,
                            views.len() as int,
                        );
                    }
                    return Err(e);
                },
            }
            i += 1;
        }
        dst.push(TERMINATOR);
        let info = match TableInfo::new(header, self.fields) {
            Ok(info) => info,
            Err(e) => {
                return Err(e);
            },
        };
        let writer = TableWriter { info, encoding: self.encoding, body: dst, record_count: 0 };
        proof {
            let start = descriptors_bytes(views, self.encoding@, views.len() as int)->Ok_0;
            assert(writer@.bytes =~= header.bytes() + start + seq![TERMINATOR]);
        }
        Ok(writer)
    }
}

/// Once the name of a field cannot be written, the descriptors behind it
/// are not written.
pub proof fn lemma_descriptor_failure_stays(
    fields: Seq<FieldInfoView>,
    encoding: Seq<char>,
    failed: int,
    count: int,
)
    requires
        0 <= failed <= count,
        descriptors_bytes(fields, encoding, failed) is Err,
    ensures
        descriptors_bytes(fields, encoding, count) == descriptors_bytes(fields, encoding, failed),
    decreases count - failed,
{
    if failed < count {
        lemma_descriptor_failure_stays(fields, encoding, failed, count - 1);
    }
}

/// Once a value is refused, the values behind it are not written.
pub proof fn lemma_value_failure_stays(
    values: Seq<FieldValueView>,
    fields: Seq<FieldInfoView>,
    encoding: Seq<char>,
    failed: int,
    count: int,
)
    requires
        0 <= failed <= count,
        encoded_fields(values, fields, encoding, failed) is Err,
    ensures
        encoded_fields(values, fields, encoding, count) == encoded_fields(
            values,
            fields,
            encoding,
            failed,
        ),
        refused_field(values, fields, encoding, count) == refused_field(
            values,
            fields,
            encoding,
            failed,
        ),
    decreases count - failed,
{
    if failed < count {
        lemma_value_failure_stays(values, fields, encoding, failed, count - 1);
    }
}

/// The state of a writer: the layout and the code page of its table, the
/// bytes of the table file so far, and the number of records in them.
pub struct TableWriterView {
    pub info: TableInfoView,
    pub encoding: Seq<char>,
    pub bytes: Seq<u8>,
    pub record_count: u32,
}

/// A writer of the records of a table. It holds what the table file has
/// behind its header; the header is written when the table is finished,
/// with the number of records that it then has.
pub struct TableWriter {
    info: TableInfo,
    encoding: CodePage,
    body: Vec<u8>,
    record_count: u32,
}

impl View for TableWriter {
    type V = TableWriterView;

    closed spec fn view(&self) -> TableWriterView {
        TableWriterView {
            info: self.info@,
            encoding: self.encoding@,
            bytes: self.info@.header.bytes() + self.body@,
            record_count: self.record_count,
        }
    }
}

/// The bytes of a finished table file: those written so far, with the
/// number of records in its place in the header, and the end-of-file byte
/// behind them.
pub open spec fn finished_bytes(writer: TableWriterView) -> Seq<u8> {
    (TableHeader { record_count: writer.record_count, ..writer.info.header }).bytes()
        + writer.bytes.skip(HEADER_SIZE as int) + seq![END_OF_FILE]
}

impl TableWriter {
    /// The descriptors of the fields of the table.
    pub fn fields(&self) -> (fields: &Vec<FieldInfo>)
        ensures
            field_views(fields@) == self@.info.fields,
    {
        self.info.fields()
    }

    /// The bytes of the table file as they stand: the header with no
    /// record counted, the descriptors, and the records written so far.
    pub fn bytes_so_far(&self) -> (bytes: Vec<u8>)
        ensures
            bytes@ == self@.bytes,
    {
        let mut bytes: Vec<u8> = Vec::new();
        self.info.header().write_to(&mut bytes);
        append_bytes(&mut bytes, self.body.as_slice());
        bytes
    }

    /// The bytes of the table file behind its header, as they stand: the
    /// descriptors, the terminator byte, and the records written so far.
    pub fn body(&self) -> (bytes: &[u8])
        ensures
            bytes@ == self@.bytes.skip(HEADER_SIZE as int),
    {
        proof {
            crate::header::lemma_header_round_trip(self.info@.header);
            assert(self@.bytes.skip(HEADER_SIZE as int) =~= self.body@);
        }
        self.body.as_slice()
    }

    /// The number of records written so far.
    pub fn record_count(&self) -> (count: u32)
        ensures
            count == self@.record_count,
    {
        self.record_count
    }

    /// Writes one record of the values `values`, one for each field of the
    /// table and in the order of the fields.
    ///
    /// The record is checked against the fields before anything is
    /// written: a record that is refused leaves the file as it was, and the
    /// records written before it stay.
    pub fn write_record(&mut self, values: &Vec<FieldValue>) -> (r: Result<(), Error>)
        ensures
            final(self)@.info == old(self)@.info,
            final(self)@.encoding == old(self)@.encoding,
            match r {
                Ok(()) => old(self)@.record_count < u32::MAX && final(self)@.record_count == old(
                    self,
                )@.record_count + 1 && encoded_record(
                    value_views(values@),
                    old(self)@.info.fields,
                    old(self)@.encoding,
                ) is Ok && final(self)@.bytes == old(self)@.bytes + encoded_record(
                    value_views(values@),
                    old(self)@.info.fields,
                    old(self)@.encoding,
                )->Ok_0,
                Err(e) => final(self)@ == old(self)@ && if old(self)@.record_count == u32::MAX {
                    e == (Error {
                        record_num: u32::MAX as usize,
                        field: None,
                        kind: ErrorKind::TooManyRecords,
                    })
                } else {
                    encoded_record(
                        value_views(values@),
                        old(self)@.info.fields,
                        old(self)@.encoding,
                    ) is Err && e == record_refusal(
                        value_views(values@),
                        old(self)@.info.fields,
                        old(self)@.encoding,
                        old(self)@.record_count as int,
                    )
                },
            },
    {
        let record_num = self.record_count as usize;
        if self.record_count == u32::MAX {
            return Err(Error { record_num, field: None, kind: ErrorKind::TooManyRecords });
        }
        let fields = self.info.fields();
        if values.len() < fields.len() {
            return Err(Error { record_num, field: None, kind: ErrorKind::NotEnoughFields });
        }
        if values.len() > fields.len() {
            return Err(Error { record_num, field: None, kind: ErrorKind::TooManyFields });
        }
        let ghost wanted = value_views(values@);
        let ghost views = field_views(fields@);
        let mut record: Vec<u8> = Vec::new();
        record.push(NOT_DELETED);
        proof {
            assert(record@ =~= seq![NOT_DELETED]);
        }
        let mut i: usize = 0;
        while i < fields.len()
            invariant
                i <= fields@.len(),
                values@.len() == fields@.len(),
                wanted == value_views(values@),
                views == field_views(fields@),
                views == old(self)@.info.fields,
                self@ == old(self)@,
                self.record_count < u32::MAX,
                record_num == self.record_count,
                encoded_fields(wanted, views, self.encoding@, i as int) == Ok::<
                    Seq<u8>,
                    ErrorKind,
                >(record@),
            decreases fields@.len() - i,
        {
            let ghost before = record@;
            match values[i].write_field(&fields[i], &self.encoding, &mut record) {
                Ok(()) => {},
                Err(e) => {
                    proof {
                        lemma_value_failure_stays(
                            wanted,
                            views,
                            self.encoding@,
                            i + 1,
                            views.len() as int,
                        );
                    }
                    return Err(Error { record_num, field: Some(i), kind: e });
                },
            }
            i += 1;
        }
        append_bytes(&mut self.body, record.as_slice());
        self.record_count = self.record_count + 1;
        proof {
            assert(self@.bytes =~= old(self)@.bytes + record@);
        }
        Ok(())
    }

    /// Writes the records `records` one after the other, and returns how
    /// many were written. The first record that is refused ends the
    /// writing; the records before it stay written.
    pub fn write_records(&mut self, records: &Vec<Vec<FieldValue>>) -> (r: (usize, Result<
        (),
        Error,
    >))
        ensures
            final(self)@.info == old(self)@.info,
            final(self)@.encoding == old(self)@.encoding,
            r.0 <= records@.len(),
            final(self)@.record_count == old(self)@.record_count + r.0,
            records_bytes(
                records_views(records@),
                old(self)@.info.fields,
                old(self)@.encoding,
                r.0 as int,
            ) is Ok,
            final(self)@.bytes == old(self)@.bytes + records_bytes(
                records_views(records@),
                old(self)@.info.fields,
                old(self)@.encoding,
                r.0 as int,
            )->Ok_0,
            match r.1 {
                Ok(()) => r.0 == records@.len(),
                Err(e) => r.0 < records@.len() && if old(self)@.record_count + r.0 == u32::MAX {
                    e == (Error {
                        record_num: u32::MAX as usize,
                        field: None,
                        kind: ErrorKind::TooManyRecords,
                    })
                } else {
                    encoded_record(
                        records_views(records@)[r.0 as int],
                        old(self)@.info.fields,
                        old(self)@.encoding,
                    ) is Err && e == record_refusal(
                        records_views(records@)[r.0 as int],
                        old(self)@.info.fields,
                        old(self)@.encoding,
                        old(self)@.record_count + r.0,
                    )
                },
            },
    {
        let ghost all = records_views(records@);
        let mut written: usize = 0;
        proof {
            assert(old(self)@.bytes + Seq::<u8>::empty() =~= old(self)@.bytes);
        }
        while written < records.len()
            invariant
                written <= records@.len(),
                all == records_views(records@),
                self@.info == old(self)@.info,
                self@.encoding == old(self)@.encoding,
                self@.record_count == old(self)@.record_count + written,
                records_bytes(all, old(self)@.info.fields, old(self)@.encoding, written as int)
                    is Ok,
                self@.bytes == old(self)@.bytes + records_bytes(
                    all,
                    old(self)@.info.fields,
                    old(self)@.encoding,
                    written as int,
                )->Ok_0,
            decreases records@.len() - written,
        {
            let ghost before = records_bytes(
                all,
                old(self)@.info.fields,
                old(self)@.encoding,
                written as int,
            )->Ok_0;
            let ghost bytes_before = self@.bytes;
            proof {
                assert(all[written as int] == value_views(records@[written as int]@));
            }
            match self.write_record(&records[written]) {
                Ok(()) => {
                    proof {
                        let record = encoded_record(
                            all[written as int],
                            old(self)@.info.fields,
                            old(self)@.encoding,
                        )->Ok_0;
                        assert(self@.bytes =~= old(self)@.bytes + (before + record));
                    }
                },
                Err(e) => {
                    return (written, Err(e));
                },
            }
            written += 1;
        }
        (written, Ok(()))
    }

    /// Ends the table file: the number of records takes its place in the
    /// header, and the end-of-file byte is put behind the last record.
    pub fn finalize(self) -> (bytes: Vec<u8>)
        ensures
            bytes@ == finished_bytes(self@),
    {
        let header = self.info.header();
        let patched = TableHeader {
            version: header.version,
            update_year: header.update_year,
            update_month: header.update_month,
            update_day: header.update_day,
            record_count: self.record_count,
            header_length: header.header_length,
            record_length: header.record_length,
            transaction_flag: header.transaction_flag,
            encryption_flag: header.encryption_flag,
            table_flags: header.table_flags,
            language_driver: header.language_driver,
        };
        let mut dst: Vec<u8> = Vec::new();
        patched.write_to(&mut dst);
        append_bytes(&mut dst, self.body.as_slice());
        dst.push(END_OF_FILE);
        proof {
            crate::header::lemma_header_round_trip(header);
            assert(self@.bytes.skip(HEADER_SIZE as int) =~= self.body@);
            assert(dst@ =~= finished_bytes(self@));
        }
        dst
    }
}

} // verus!
