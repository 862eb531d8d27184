use std::collections::HashMap;

use dbase::{
    encoded_bytes, CodePage, Date, ErrorKind, FieldName, FieldValue, Reader, Record,
    TableWriterBuilder,
};

/// To make sure it fails if you specify the wrong encoding label.
#[test]
fn shift_jis_new_with_label_with_wrong_label() {
    let result = TableWriterBuilder::new_with_label("wrong_encoding_label");
    assert!(result.is_err());
    match result.err().unwrap() {
        ErrorKind::InvalidEncoding => (),
        _ => {
            assert!(false, "a ErrorKind is not a ErrorKind::InvalidEncoding");
        }
    }
}

/// To make sure it successes if you specify the correct encoding label.
#[test]
fn shift_jis_new_with_label_with_correct_label() {
    let result = TableWriterBuilder::new_with_label("shift_jis");
    assert!(result.is_ok());
}

#[derive(Clone, Debug, PartialEq)]
struct TestRecord {
    text: String,
}

fn write_test_record(record: &TestRecord) -> Vec<FieldValue> {
    vec![FieldValue::Character(Some(record.text.clone()))]
}

fn read_test_record(record: &Record) -> TestRecord {
    match &record.values[0].value {
        FieldValue::Character(Some(text)) => TestRecord { text: text.clone() },
        other => panic!("not a text: {:?}", other),
    }
}

#[test]
fn shift_jis_write_file_with_encoded_field_name() {
    let label = "shift_jis";
    let name = "属性1";
    let value = "吾輩は猫である。名前はまだない。";
    let field_name = FieldName::try_from(name).unwrap();

    let writer_builder = TableWriterBuilder::new_with_label(label)
        .unwrap()
        .add_character_field(field_name, 40)
        .unwrap();

    let record = TestRecord {
        text: value.to_string(),
    };

    let mut writer = writer_builder.build(Date::new(28, 10, 2026)).unwrap();
    writer.write_records(&vec![write_test_record(&record)]).1.unwrap();
    let dst = writer.finalize();

    let mut reader = Reader::new_with_label(dst, label).unwrap();
    let field = reader.fields().get(1).unwrap();
    assert_eq!(field.name(), name);
    let read_records = reader.read().unwrap();
    let read_record = read_test_record(read_records.get(0).unwrap());
    assert_eq!(read_record.text, value);
}

#[test]
fn shift_jis_bytes_are_those_of_the_code_page() {
    let shift_jis = CodePage::for_label("shift_jis").unwrap();
    assert!(!shift_jis.is_utf8());
    assert_eq!(encoded_bytes("猫", &shift_jis), Ok(vec![0x94, 0x4C]));
    assert_eq!(encoded_bytes("abc", &shift_jis), Ok(b"abc".to_vec()));
    assert_eq!(shift_jis.decode(&[0x94, 0x4C]), "猫");
    assert_eq!(encoded_bytes("😀", &shift_jis), Err(ErrorKind::UnencodableText));
    let utf8 = CodePage::for_label("UTF-8").unwrap();
    assert!(utf8.is_utf8());
    assert!(CodePage::for_label(" utf8 ").unwrap().is_utf8());
    assert_eq!(encoded_bytes("猫", &utf8), Ok("猫".as_bytes().to_vec()));
    assert_eq!(encoded_bytes("😀", &utf8), Ok("😀".as_bytes().to_vec()));
    assert_eq!(utf8.decode(&[0x61, 0xFF]), "a\u{FFFD}");
    assert_eq!(CodePage::for_label("klingon").err(), Some(ErrorKind::InvalidEncoding));
}

fn character_value(value: Option<&FieldValue>) -> Option<String> {
    match value {
        Some(value) => match value {
            FieldValue::Character(value) => match value {
                Some(value) => Some(value.clone()),
                None => None,
            },
            _ => None,
        },
        None => None,
    }
}

fn shift_jis(text: &str) -> Vec<u8> {
    let (bytes, _, unmappable) = encoding_rs::SHIFT_JIS.encode(text);
    assert!(!unmappable);
    bytes.into_owned()
}

fn padded(mut bytes: Vec<u8>, width: usize, fill: u8) -> Vec<u8> {
    assert!(bytes.len() <= width);
    bytes.resize(width, fill);
    bytes
}

/// The bytes of a table file of books and their authors in Shift_JIS, laid
/// out byte by byte: a header, two descriptors of text fields of twenty
/// bytes, and six records.
fn shift_jis_field_name_dbf() -> Vec<u8> {
    let rows = [
        ("浮雲", "二葉亭四迷"),
        ("十三夜", "樋口一葉"),
        ("金色夜叉", "尾崎紅葉"),
        ("三四郎", "夏目漱石"),
        ("羅生門", "芥川龍之介"),
        ("平家物語", ""),
    ];
    let mut file = vec![0x03, 119, 4, 1];
    file.extend_from_slice(&(rows.len() as u32).to_le_bytes());
    file.extend_from_slice(&(32u16 + 2 * 32 + 1).to_le_bytes());
    file.extend_from_slice(&(1u16 + 20 + 20).to_le_bytes());
    file.resize(32, 0);
    for name in ["書籍名", "著者"] {
        let mut descriptor = padded(shift_jis(name), 11, 0);
        descriptor.push(b'C');
        descriptor.extend_from_slice(&[0; 4]);
        descriptor.push(20);
        file.extend_from_slice(&padded(descriptor, 32, 0));
    }
    file.push(0x0D);
    for (book, author) in rows {
        file.push(b' ');
        file.extend_from_slice(&padded(shift_jis(book), 20, b' '));
        file.extend_from_slice(&padded(shift_jis(author), 20, b' '));
    }
    file.push(0x1A);
    file
}

#[test]
fn shift_jis_read_field_names_and_values() {
    let mut data = HashMap::new();
    data.insert(0, (Some("浮雲"), Some("二葉亭四迷")));
    data.insert(1, (Some("十三夜"), Some("樋口一葉")));
    data.insert(2, (Some("金色夜叉"), Some("尾崎紅葉")));
    data.insert(3, (Some("三四郎"), Some("夏目漱石")));
    data.insert(4, (Some("羅生門"), Some("芥川龍之介")));
    data.insert(5, (Some("平家物語"), None));

    let mut reader = Reader::new_with_label(shift_jis_field_name_dbf(), "shift_jis").unwrap();
    assert_eq!(reader.fields().get(1).unwrap().name(), "書籍名");
    assert_eq!(reader.fields().get(2).unwrap().name(), "著者");
    let records = reader.read().unwrap();
    assert_eq!(records.len(), 6);
    for (index, record) in records.iter().enumerate() {
        let book = character_value(record.get("書籍名"));
        let author = character_value(record.get("著者"));
        let book_and_author = data.get(&index).unwrap();
        let book = book.as_deref();
        assert_eq!(book.as_deref(), book_and_author.0);
        assert_eq!(author.as_deref(), book_and_author.1);
    }
}

#[test]
fn field_name_too_long_for_the_code_page_is_refused() {
    let builder = TableWriterBuilder::new_with_label("utf-8")
        .unwrap()
        .add_character_field(FieldName::try_from("属性1").unwrap(), 40)
        .unwrap();
    assert!(builder.build(Date::new(28, 10, 2026)).is_ok());
    let builder = TableWriterBuilder::new_with_label("shift_jis")
        .unwrap()
        .add_character_field(FieldName::try_from("a😀").unwrap(), 40)
        .unwrap();
    assert_eq!(builder.build(Date::new(28, 10, 2026)).err(), Some(ErrorKind::UnencodableText));
    let builder = TableWriterBuilder::new_with_label("utf-8")
        .unwrap()
        .add_character_field(FieldName::try_from("a\0b").unwrap(), 40)
        .unwrap();
    assert_eq!(builder.build(Date::new(28, 10, 2026)).err(), Some(ErrorKind::InvalidFieldName));
}
