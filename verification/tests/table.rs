use dbase::header::{DELETED, END_OF_FILE, TERMINATOR};
use dbase::error::Error;
use dbase::{
    Binary64, CodePage, Date, DateTime, Decimal, ErrorKind, FieldName, FieldType, FieldValue,
    MemoFileType, MemoReader, Reader, TableHeader, TableInfo, TableWriterBuilder, Time,
};

fn name(text: &str) -> FieldName {
    FieldName::try_from(text).unwrap()
}

fn number(value: f64, places: usize) -> FieldValue {
    let text = format!("{:.*}", places, value);
    FieldValue::Numeric(Some(Decimal::from_ascii(text.as_bytes()).unwrap()))
}

fn number_of(value: &FieldValue) -> Option<f64> {
    match value {
        FieldValue::Numeric(Some(number)) => {
            Some(std::str::from_utf8(number.as_bytes()).unwrap().parse::<f64>().unwrap())
        }
        FieldValue::Numeric(None) => None,
        other => panic!("not a number: {:?}", other),
    }
}

fn today() -> Date {
    Date::new(28, 10, 2026)
}

#[test]
fn end_to_end() {
    let mut writer = TableWriterBuilder::new_with_label("utf-8")
        .unwrap()
        .add_character_field(name("Nick Name"), 50)
        .unwrap()
        .add_numeric_field(name("Age"), 20, 10)
        .unwrap()
        .build(today())
        .unwrap();
    writer
        .write_record(&vec![FieldValue::Character(Some("Yoshi".to_string())), number(32.0, 10)])
        .unwrap();
    let bytes = writer.finalize();

    let mut reader = Reader::new_with_label(bytes, "utf-8").unwrap();
    let records = reader.read().unwrap();
    assert_eq!(records.len(), 1);
    assert_eq!(
        records[0].get("Nick Name"),
        Some(&FieldValue::Character(Some("Yoshi".to_string())))
    );
    assert_eq!(number_of(records[0].get("Age").unwrap()), Some(32.0));
    assert_eq!(records[0].get("Missing"), None);
    assert!(!records[0].deleted);
}

#[test]
fn table_file_layout() {
    let mut writer = TableWriterBuilder::new(CodePage::for_label("utf-8").unwrap())
        .language_driver(0x57)
        .add_character_field(name("Name"), 4)
        .unwrap()
        .add_logical_field(name("Ok"))
        .unwrap()
        .build(Date::new(2, 3, 1999))
        .unwrap();
    writer
        .write_record(&vec![
            FieldValue::Character(Some("ab".to_string())),
            FieldValue::Logical(Some(true)),
        ])
        .unwrap();
    writer
        .write_record(&vec![FieldValue::Character(None), FieldValue::Logical(None)])
        .unwrap();
    assert_eq!(writer.record_count(), 2);
    let bytes = writer.finalize();

    let mut expected = vec![0x03, 99, 3, 2, 2, 0, 0, 0, 97, 0, 6, 0];
    expected.extend_from_slice(&[0; 16]);
    expected.extend_from_slice(&[0, 0x57, 0, 0]);
    expected.extend_from_slice(b"Name\0\0\0\0\0\0\0C\0\0\0\0");
    expected.extend_from_slice(&[4, 0, 0, 0, 0, 0, 0, 0, 0]);
    expected.extend_from_slice(&[0; 7]);
    expected.extend_from_slice(b"Ok\0\0\0\0\0\0\0\0\0L\0\0\0\0");
    expected.extend_from_slice(&[1, 0, 0, 0, 0, 0, 0, 0, 0]);
    expected.extend_from_slice(&[0; 7]);
    expected.push(TERMINATOR);
    expected.extend_from_slice(b" ab  t");
    expected.extend_from_slice(b"      ");
    expected.push(END_OF_FILE);
    assert_eq!(bytes, expected);

    let header = TableHeader::read_from(&bytes).unwrap();
    assert_eq!(header.record_count, 2);
    assert_eq!(header.header_length, 97);
    assert_eq!(header.record_length, 6);
    assert_eq!(header.language_driver, 0x57);
    assert_eq!(header.last_update(), Date::new(2, 3, 1999));
    assert!(!header.has_memo());
    let mut round_trip = Vec::new();
    header.write_to(&mut round_trip);
    assert_eq!(round_trip, bytes[..32].to_vec());
}

#[test]
fn every_type_round_trips_through_a_table() {
    let moment = DateTime::new(Date::new(29, 2, 2000), Time::new(23, 59, 59));
    let values = vec![
        FieldValue::Character(Some("text".to_string())),
        number(-12.5, 3),
        FieldValue::Float(Some(Decimal::from_ascii(b"0.50").unwrap())),
        FieldValue::Date(Some(Date::new(1, 1, 2019))),
        FieldValue::Logical(Some(false)),
        FieldValue::Integer(-1457),
        FieldValue::Currency(Binary64::from_bits(12.5f64.to_bits())),
        FieldValue::DateTime(moment),
        FieldValue::Double(Binary64::from_bits(f64::MAX.to_bits())),
    ];
    let absent = vec![
        FieldValue::Character(None),
        FieldValue::Numeric(None),
        FieldValue::Float(None),
        FieldValue::Date(None),
        FieldValue::Logical(None),
        FieldValue::Integer(0),
        FieldValue::Currency(Binary64::from_bits(0)),
        FieldValue::DateTime(DateTime::new(Date::new(1, 1, 1), Time::new(0, 0, 0))),
        FieldValue::Double(Binary64::from_bits(f64::NAN.to_bits())),
    ];
    let mut writer = TableWriterBuilder::new_with_label("utf-8")
        .unwrap()
        .add_character_field(name("c"), 10)
        .unwrap()
        .add_numeric_field(name("n"), 12, 3)
        .unwrap()
        .add_float_field(name("f"), 8, 2)
        .unwrap()
        .add_date_field(name("d"))
        .unwrap()
        .add_logical_field(name("l"))
        .unwrap()
        .add_integer_field(name("i"))
        .unwrap()
        .add_currency_field(name("y"))
        .unwrap()
        .add_datetime_field(name("t"))
        .unwrap()
        .add_double_field(name("b"))
        .unwrap()
        .build(today())
        .unwrap();
    let (written, result) = writer.write_records(&vec![values.clone(), absent.clone()]);
    assert_eq!((written, result), (2, Ok(())));
    let mut reader = Reader::new_with_label(writer.finalize(), "utf-8").unwrap();
    assert_eq!(reader.record_count(), 2);
    assert_eq!(reader.columns().len(), 9);
    assert_eq!(reader.columns()[1].name(), "n");
    assert_eq!(reader.fields().len(), 10);
    assert_eq!(reader.fields()[0].name(), "DeletionFlag");
    assert_eq!(reader.fields()[0].length(), 1);
    assert_eq!(reader.fields()[2].name(), "n");
    assert_eq!(reader.fields()[2].field_type(), FieldType::Numeric);
    assert_eq!(reader.fields()[2].length(), 12);
    assert_eq!(reader.fields()[2].num_decimal_places(), 3);
    let records = reader.read().unwrap();
    assert_eq!(records.len(), 2);
    for (record, wanted) in records.iter().zip([values, absent]) {
        let read: Vec<FieldValue> = record.values.iter().map(|v| v.value.clone()).collect();
        assert_eq!(read, wanted);
        let names: Vec<&str> = record.values.iter().map(|v| v.name.as_str()).collect();
        assert_eq!(names, vec!["c", "n", "f", "d", "l", "i", "y", "t", "b"]);
    }
    assert_eq!(reader.read_record(1).unwrap().unwrap(), records[1]);
    assert_eq!(reader.read_record(2), Ok(None));
}

#[test]
fn refused_record_writes_nothing() {
    let mut writer = TableWriterBuilder::new_with_label("utf-8")
        .unwrap()
        .add_character_field(name("c"), 3)
        .unwrap()
        .add_integer_field(name("i"))
        .unwrap()
        .build(today())
        .unwrap();
    let good = vec![FieldValue::Character(Some("abc".to_string())), FieldValue::Integer(1)];
    let wrong_type = vec![FieldValue::Character(None), FieldValue::Logical(None)];
    let too_few = vec![FieldValue::Character(None)];
    let too_many = vec![FieldValue::Character(None), FieldValue::Integer(1), FieldValue::Integer(2)];
    let too_long = vec![FieldValue::Character(Some("abcd".to_string())), FieldValue::Integer(1)];
    assert_eq!(
        writer.write_record(&wrong_type),
        Err(Error { record_num: 0, field: Some(1), kind: ErrorKind::IncompatibleType })
    );
    assert_eq!(
        writer.write_record(&too_few),
        Err(Error { record_num: 0, field: None, kind: ErrorKind::NotEnoughFields })
    );
    assert_eq!(
        writer.write_record(&too_many),
        Err(Error { record_num: 0, field: None, kind: ErrorKind::TooManyFields })
    );
    assert_eq!(
        writer.write_record(&too_long),
        Err(Error { record_num: 0, field: Some(0), kind: ErrorKind::ValueTooLong })
    );
    assert_eq!(writer.record_count(), 0);
    let batch = vec![good.clone(), wrong_type, good.clone()];
    assert_eq!(
        writer.write_records(&batch),
        (1, Err(Error { record_num: 1, field: Some(1), kind: ErrorKind::IncompatibleType }))
    );
    assert_eq!(writer.record_count(), 1);
    let mut reader = Reader::new_with_label(writer.finalize(), "utf-8").unwrap();
    let records = reader.read().unwrap();
    assert_eq!(records.len(), 1);
    assert_eq!(records[0].get("i"), Some(&FieldValue::Integer(1)));
}

#[test]
fn builder_refuses_what_cannot_be_a_table() {
    let builder = TableWriterBuilder::new_with_label("utf-8").unwrap();
    let builder = builder.add_character_field(name("a"), 10).unwrap();
    assert_eq!(
        builder.add_integer_field(name("a")).err(),
        Some(ErrorKind::InvalidFieldName)
    );
    let builder = TableWriterBuilder::new_with_label("utf-8").unwrap();
    assert_eq!(
        builder.add_character_field(name("a"), 0).err(),
        Some(ErrorKind::MalformedHeader)
    );
    let builder = TableWriterBuilder::new_with_label("utf-8").unwrap();
    assert_eq!(
        builder.add_field(name("a"), FieldType::Integer, 5, 0).err(),
        Some(ErrorKind::MalformedHeader)
    );
    let builder = TableWriterBuilder::new_with_label("utf-8").unwrap();
    assert_eq!(
        builder.add_field(name("m"), FieldType::Memo, 3, 0).err(),
        Some(ErrorKind::MalformedHeader)
    );
    let builder = TableWriterBuilder::new_with_label("utf-8").unwrap();
    assert_eq!(
        builder.build(Date { year: 1899, month: 1, day: 1 }).err(),
        Some(ErrorKind::MalformedHeader)
    );
    assert_eq!(FieldName::try_from("twelve bytes").err(), Some(ErrorKind::InvalidFieldName));
    assert!(FieldName::try_from("eleven byte").is_ok());
    assert_eq!(
        TableWriterBuilder::new_with_label("no such label").err(),
        Some(ErrorKind::InvalidEncoding)
    );
}

#[test]
fn builder_refuses_a_record_that_is_too_long() {
    let mut builder = TableWriterBuilder::new_with_label("utf-8").unwrap();
    for i in 0..256 {
        builder = builder.add_character_field(name(&format!("f{}", i)), 255).unwrap();
    }
    assert_eq!(
        builder.add_character_field(name("last"), 255).err(),
        Some(ErrorKind::MalformedHeader)
    );
}

fn small_table() -> Vec<u8> {
    let mut writer = TableWriterBuilder::new_with_label("utf-8")
        .unwrap()
        .add_character_field(name("c"), 3)
        .unwrap()
        .build(today())
        .unwrap();
    for text in ["one", "two", "six"] {
        writer.write_record(&vec![FieldValue::Character(Some(text.to_string()))]).unwrap();
    }
    writer.finalize()
}

#[test]
fn deleted_records_are_read_and_marked() {
    let mut bytes = small_table();
    bytes[32 + 32 + 1 + 4] = DELETED;
    let mut reader = Reader::new_with_label(bytes, "utf-8").unwrap();
    let records = reader.read().unwrap();
    assert_eq!(records.len(), 3);
    assert!(!records[0].deleted);
    assert!(records[1].deleted);
    assert_eq!(records[1].get("c"), Some(&FieldValue::Character(Some("two".to_string()))));
}

#[test]
fn end_of_file_ends_the_table() {
    let mut bytes = small_table();
    bytes[4] = 200;
    let mut reader = Reader::new_with_label(bytes.clone(), "utf-8").unwrap();
    assert_eq!(reader.header().record_count, 200);
    assert_eq!(reader.record_count(), 3);
    assert_eq!(reader.read().unwrap().len(), 3);
    bytes.truncate(bytes.len() - 3);
    let mut reader = Reader::new_with_label(bytes.clone(), "utf-8").unwrap();
    assert_eq!(reader.read().unwrap().len(), 2);
    bytes[4] = 1;
    let mut reader = Reader::new_with_label(bytes, "utf-8").unwrap();
    assert_eq!(reader.read().unwrap().len(), 1);
}

#[test]
fn malformed_headers_are_refused() {
    let good = small_table();
    let utf8 = CodePage::for_label("utf-8").unwrap();
    assert!(TableInfo::read_from(&good, &utf8).is_ok());
    assert_eq!(TableInfo::read_from(&good[..31], &utf8).err(), Some(ErrorKind::UnexpectedEof));
    assert_eq!(TableInfo::read_from(&good[..32], &utf8).err(), Some(ErrorKind::UnexpectedEof));
    assert_eq!(TableInfo::read_from(&good[..63], &utf8).err(), Some(ErrorKind::UnexpectedEof));
    assert_eq!(TableInfo::read_from(&good[..64], &utf8).err(), Some(ErrorKind::UnexpectedEof));
    let mut bad = good.clone();
    bad[10] = 5;
    assert_eq!(TableInfo::read_from(&bad, &utf8).err(), Some(ErrorKind::MalformedHeader));
    let mut bad = good.clone();
    bad[8] = 66;
    assert_eq!(TableInfo::read_from(&bad, &utf8).err(), Some(ErrorKind::MalformedHeader));
    let mut bad = good.clone();
    bad[32 + 11] = b'G';
    assert_eq!(TableInfo::read_from(&bad, &utf8).err(), Some(ErrorKind::InvalidFieldType('G')));
    let mut bad = good.clone();
    bad[32 + 11] = b'I';
    assert_eq!(TableInfo::read_from(&bad, &utf8).err(), Some(ErrorKind::MalformedHeader));
    let mut bad = good.clone();
    bad[32 + 16] = 0;
    assert_eq!(TableInfo::read_from(&bad, &utf8).err(), Some(ErrorKind::MalformedHeader));
    assert_eq!(
        Reader::new_with_label(good, "no such label").err(),
        Some(ErrorKind::InvalidEncoding)
    );
}

#[test]
fn duplicate_names_in_a_file_are_refused() {
    let mut writer = TableWriterBuilder::new_with_label("utf-8")
        .unwrap()
        .add_character_field(name("a"), 3)
        .unwrap()
        .add_character_field(name("b"), 3)
        .unwrap()
        .build(today())
        .unwrap();
    writer
        .write_record(&vec![FieldValue::Character(None), FieldValue::Character(None)])
        .unwrap();
    let mut bytes = writer.finalize();
    bytes[64] = b'a';
    let utf8 = CodePage::for_label("utf-8").unwrap();
    assert_eq!(TableInfo::read_from(&bytes, &utf8).err(), Some(ErrorKind::MalformedHeader));
}

#[test]
fn failing_field_fails_the_record() {
    let mut writer = TableWriterBuilder::new_with_label("utf-8")
        .unwrap()
        .add_numeric_field(name("n"), 5, 0)
        .unwrap()
        .build(today())
        .unwrap();
    writer.write_record(&vec![number(12.0, 0)]).unwrap();
    writer.write_record(&vec![number(13.0, 0)]).unwrap();
    let mut bytes = writer.finalize();
    let second = 32 + 32 + 1 + 6 + 1;
    bytes[second] = b'x';
    let mut reader = Reader::new_with_label(bytes, "utf-8").unwrap();
    assert_eq!(number_of(reader.read_record(0).unwrap().unwrap().get("n").unwrap()), Some(12.0));
    let failure = Error { record_num: 1, field: Some(0), kind: ErrorKind::ParseFloatError };
    assert_eq!(reader.read_record(1), Err(failure));
    assert_eq!(reader.read(), Err(failure));
    assert_eq!(failure.kind(), ErrorKind::ParseFloatError);
}

#[test]
fn memo_fields_are_resolved_through_the_reader() {
    let mut bytes = TableWriterBuilder::new_with_label("utf-8")
        .unwrap()
        .add_field(name("note"), FieldType::Memo, 10, 0)
        .unwrap()
        .build(today())
        .unwrap()
        .finalize();
    bytes.pop();
    bytes.extend_from_slice(b"          1");
    bytes.extend_from_slice(b"           ");
    bytes.push(END_OF_FILE);
    bytes[4] = 2;

    let mut reader = Reader::new_with_label(bytes.clone(), "utf-8").unwrap();
    assert_eq!(
        reader.read_record(0),
        Err(Error { record_num: 0, field: Some(0), kind: ErrorKind::MissingMemoFile })
    );
    assert_eq!(
        reader.read_record(1).unwrap().unwrap().get("note"),
        Some(&FieldValue::Memo(String::new()))
    );

    let mut store = vec![0u8; 16];
    store[0..4].copy_from_slice(&2u32.to_le_bytes());
    store[4..6].copy_from_slice(&16u16.to_le_bytes());
    store.extend_from_slice(b"long text\x1A");
    let memo = MemoReader::new(MemoFileType::DbaseMemo, store).unwrap();
    let mut reader = Reader::new_with_label(bytes, "utf-8").unwrap().with_memo(memo);
    let records = reader.read().unwrap();
    assert_eq!(records[0].get("note"), Some(&FieldValue::Memo("long text".to_string())));
    assert_eq!(records[1].get("note"), Some(&FieldValue::Memo(String::new())));
}

#[test]
fn fields_are_found_by_name_and_by_place() {
    let bytes = TableWriterBuilder::new_with_label("utf-8")
        .unwrap()
        .add_character_field(name("first"), 3)
        .unwrap()
        .add_integer_field(name("second"))
        .unwrap()
        .build(today())
        .unwrap()
        .finalize();
    let info = TableInfo::read_from(&bytes, &CodePage::for_label("utf-8").unwrap()).unwrap();
    assert_eq!(info.field_index("first"), Some(0));
    assert_eq!(info.field_index("second"), Some(1));
    assert_eq!(info.field_index("third"), None);
    assert_eq!(info.fields()[1].name(), "second");
    assert_eq!(info.fields()[1].field_type(), FieldType::Integer);
    assert_eq!(info.header().record_length, 8);
    assert_eq!(info.header().header_length, 97);
    assert_eq!(info.header().record_count, 0);
}

#[test]
fn records_are_walked_one_by_one() {
    let mut bytes = small_table();
    bytes[32 + 32 + 1 + 4 + 1] = 0;
    let reader = Reader::new_with_label(bytes, "utf-8").unwrap();
    let mut records = reader.iter_records();
    let first = records.next_record().unwrap().unwrap();
    assert_eq!(first.get("c"), Some(&FieldValue::Character(Some("one".to_string()))));
    let second = records.next_record().unwrap().unwrap();
    assert_eq!(second.get("c"), Some(&FieldValue::Character(None)));
    let third = records.next_record().unwrap().unwrap();
    assert_eq!(third.get("c"), Some(&FieldValue::Character(Some("six".to_string()))));
    assert_eq!(records.next_record(), None);
    assert_eq!(records.next_record(), None);
    let mut reader = records.into_reader();
    assert_eq!(reader.read().unwrap().len(), 3);
}

#[test]
fn walk_goes_on_behind_a_record_that_failed() {
    let mut writer = TableWriterBuilder::new_with_label("utf-8")
        .unwrap()
        .add_date_field(name("d"))
        .unwrap()
        .build(today())
        .unwrap();
    for day in 1..=3 {
        writer.write_record(&vec![FieldValue::Date(Some(Date::new(day, 1, 2020)))]).unwrap();
    }
    let mut bytes = writer.finalize();
    bytes[32 + 32 + 1 + 9 + 1] = b'x';
    let mut records = Reader::new_with_label(bytes, "utf-8").unwrap().iter_records();
    assert!(records.next_record().unwrap().is_ok());
    assert_eq!(
        records.next_record(),
        Some(Err(Error { record_num: 1, field: Some(0), kind: ErrorKind::ParseIntError }))
    );
    let third = records.next_record().unwrap().unwrap();
    assert_eq!(third.get("d"), Some(&FieldValue::Date(Some(Date::new(3, 1, 2020)))));
    assert_eq!(records.next_record(), None);
}

#[test]
fn started_table_is_a_table_without_records() {
    let mut writer = TableWriterBuilder::new_with_label("utf-8")
        .unwrap()
        .add_character_field(name("c"), 3)
        .unwrap()
        .build(today())
        .unwrap();
    let started = writer.bytes_so_far();
    assert_eq!(started.len(), 32 + 32 + 1);
    let mut reader = Reader::new_with_label(started, "utf-8").unwrap();
    assert_eq!(reader.columns().len(), 1);
    assert_eq!(reader.read().unwrap().len(), 0);
    writer.write_record(&vec![FieldValue::Character(Some("abc".to_string()))]).unwrap();
    let so_far = writer.bytes_so_far();
    let body = writer.body().to_vec();
    assert_eq!(so_far[32..], body[..]);
    let finished = writer.finalize();
    assert_eq!(finished[32..finished.len() - 1], body[..]);
    assert_eq!(so_far[..4], finished[..4]);
    assert_eq!(so_far[4..8], [0, 0, 0, 0]);
    assert_eq!(finished[4..8], [1, 0, 0, 0]);
    assert_eq!(so_far[8..], finished[8..finished.len() - 1]);
}
