use dbase::{
    Binary64, CodePage, Date, DateTime, Decimal, ErrorKind, FieldInfo, FieldName, FieldType,
    FieldValue, MemoFileType, MemoReader, Time,
};

fn utf8() -> CodePage {
    CodePage::for_label("utf-8").unwrap()
}

fn create_temp_field_info(field_type: FieldType, len: u8) -> FieldInfo {
    FieldInfo::new(FieldName::try_from("").unwrap(), field_type, len)
}

fn test_we_can_read_back(field_info: &FieldInfo, value: &FieldValue) {
    let mut out = Vec::<u8>::with_capacity(field_info.length() as usize);
    value.write_as(field_info, &utf8(), &mut out).unwrap();

    let read_value = FieldValue::read_from(&out, &mut None, field_info, &utf8()).unwrap();
    assert_eq!(value, &read_value);
}

fn read(bytes: &[u8], field_type: FieldType) -> Result<FieldValue, ErrorKind> {
    let info = create_temp_field_info(field_type, bytes.len() as u8);
    FieldValue::read_from(bytes, &mut None, &info, &utf8())
}

fn slot(value: &FieldValue, info: &FieldInfo) -> Result<Vec<u8>, ErrorKind> {
    let mut out = Vec::new();
    value.write_field(info, &utf8(), &mut out)?;
    Ok(out)
}

#[test]
fn write_read_date() {
    let date = FieldValue::from(Date {
        year: 2019,
        month: 01,
        day: 01,
    });

    let field_info = create_temp_field_info(FieldType::Date, FieldType::Date.size().unwrap());
    test_we_can_read_back(&field_info, &date);
}

#[test]
fn test_write_read_empty_date() {
    let date = FieldValue::Date(None);

    let field_info = create_temp_field_info(FieldType::Date, FieldType::Date.size().unwrap());
    test_we_can_read_back(&field_info, &date);
}

#[test]
fn write_read_ascii_char() {
    let field = FieldValue::Character(Some(String::from("Only ASCII")));

    let record_info = create_temp_field_info(FieldType::Character, 10);
    test_we_can_read_back(&record_info, &field);
}

#[test]
fn test_write_read_integer_via_enum() {
    let value = FieldValue::Integer(1457);

    let field_info = FieldInfo::new(
        FieldName::try_from("Integer").unwrap(),
        FieldType::Integer,
        FieldType::Integer.size().unwrap(),
    );

    test_we_can_read_back(&field_info, &value);
}

#[test]
fn date_is_written_with_zeros_in_front() {
    let info = create_temp_field_info(FieldType::Date, 8);
    let value = FieldValue::Date(Some(Date::new(7, 3, 987)));
    assert_eq!(slot(&value, &info).unwrap(), b"09870307".to_vec());
    assert_eq!(read(b"09870307", FieldType::Date).unwrap(), value);
}

#[test]
fn absent_date_is_eight_pad_bytes() {
    let info = create_temp_field_info(FieldType::Date, 8);
    assert_eq!(slot(&FieldValue::Date(None), &info).unwrap(), b"        ".to_vec());
    assert_eq!(read(b"        ", FieldType::Date).unwrap(), FieldValue::Date(None));
}

#[test]
fn date_is_not_validated_against_the_calendar() {
    assert_eq!(
        read(b"20199945", FieldType::Date).unwrap(),
        FieldValue::Date(Some(Date { year: 2019, month: 99, day: 45 }))
    );
}

#[test]
fn malformed_date_is_a_parse_failure() {
    assert_eq!(read(b"2019AB01", FieldType::Date), Err(ErrorKind::ParseIntError));
    assert_eq!(read(b"2019    ", FieldType::Date), Err(ErrorKind::ParseIntError));
    assert_eq!(read(b" 2019010", FieldType::Date), Err(ErrorKind::ParseIntError));
}

#[test]
fn date_too_wide_for_its_field_is_refused() {
    let info = create_temp_field_info(FieldType::Date, 8);
    let value = FieldValue::Date(Some(Date { year: 12345, month: 1, day: 1 }));
    assert_eq!(slot(&value, &info), Err(ErrorKind::ValueTooLong));
}

#[test]
fn logical_mapping() {
    for b in [b'T', b't', b'Y', b'y', b'1'] {
        assert_eq!(read(&[b], FieldType::Logical).unwrap(), FieldValue::Logical(Some(true)));
    }
    for b in [b'F', b'f', b'N', b'n'] {
        assert_eq!(read(&[b], FieldType::Logical).unwrap(), FieldValue::Logical(Some(false)));
    }
    for b in [b' ', b'?', b'x', b'0', 0u8] {
        assert_eq!(read(&[b], FieldType::Logical).unwrap(), FieldValue::Logical(None));
    }
}

#[test]
fn logical_is_written_as_t_or_f() {
    let info = create_temp_field_info(FieldType::Logical, 1);
    assert_eq!(slot(&FieldValue::Logical(Some(true)), &info).unwrap(), b"t".to_vec());
    assert_eq!(slot(&FieldValue::Logical(Some(false)), &info).unwrap(), b"f".to_vec());
    assert_eq!(slot(&FieldValue::Logical(None), &info).unwrap(), b" ".to_vec());
}

#[test]
fn numeric_sentinels_are_absent() {
    assert_eq!(read(b"**********", FieldType::Numeric).unwrap(), FieldValue::Numeric(None));
    assert_eq!(read(b"          ", FieldType::Numeric).unwrap(), FieldValue::Numeric(None));
    assert_eq!(read(b"*****", FieldType::Float).unwrap(), FieldValue::Float(None));
    assert_eq!(read(b"     ", FieldType::Float).unwrap(), FieldValue::Float(None));
    assert_eq!(read(b"\0\0\0\0", FieldType::Numeric).unwrap(), FieldValue::Numeric(None));
}

#[test]
fn absent_number_is_written_as_padding() {
    let numeric = create_temp_field_info(FieldType::Numeric, 10);
    let float = create_temp_field_info(FieldType::Float, 5);
    assert_eq!(slot(&FieldValue::Numeric(None), &numeric).unwrap(), b"          ".to_vec());
    assert_eq!(slot(&FieldValue::Float(None), &float).unwrap(), b"     ".to_vec());
}

#[test]
fn numeric_is_read_as_its_literal() {
    let value = read(b"   32.0000000000    ", FieldType::Numeric).unwrap();
    match value {
        FieldValue::Numeric(Some(number)) => {
            assert_eq!(number.as_bytes(), b"32.0000000000");
            let text = std::str::from_utf8(number.as_bytes()).unwrap();
            assert_eq!(text.parse::<f64>().unwrap(), 32.0);
        }
        other => panic!("not a number: {:?}", other),
    }
    let value = read(b"-1.5e3", FieldType::Float).unwrap();
    match value {
        FieldValue::Float(Some(number)) => {
            let text = std::str::from_utf8(number.as_bytes()).unwrap();
            assert_eq!(text.parse::<f32>().unwrap(), -1500.0);
        }
        other => panic!("not a number: {:?}", other),
    }
}

#[test]
fn malformed_number_is_a_parse_failure() {
    assert_eq!(read(b"12a4", FieldType::Numeric), Err(ErrorKind::ParseFloatError));
    assert_eq!(read(b"1 2", FieldType::Numeric), Err(ErrorKind::ParseFloatError));
    assert_eq!(read(b"**1*", FieldType::Float), Err(ErrorKind::ParseFloatError));
    assert_eq!(read(b"--1", FieldType::Float), Err(ErrorKind::ParseFloatError));
}

#[test]
fn number_must_have_the_decimal_places_of_its_field() {
    let info = create_temp_field_info(FieldType::Numeric, 20).with_decimal_places(10);
    let exact = FieldValue::Numeric(Some(Decimal::from_ascii(b"32.0000000000").unwrap()));
    assert_eq!(slot(&exact, &info).unwrap(), b"32.0000000000       ".to_vec());
    assert_eq!(
        read(&slot(&exact, &info).unwrap(), FieldType::Numeric).unwrap(),
        exact
    );
    let short = FieldValue::Numeric(Some(Decimal::from_ascii(b"32.0").unwrap()));
    assert_eq!(slot(&short, &info), Err(ErrorKind::BadNumericScale));
    let exponent = FieldValue::Numeric(Some(Decimal::from_ascii(b"3.2000000000e1").unwrap()));
    assert_eq!(slot(&exponent, &info), Err(ErrorKind::BadNumericScale));
    let not_a_number = FieldValue::Numeric(Some(Decimal::from_ascii(b"NaN").unwrap()));
    assert_eq!(slot(&not_a_number, &info).unwrap(), b"NaN                 ".to_vec());
    let whole = create_temp_field_info(FieldType::Numeric, 4);
    let integer = FieldValue::Numeric(Some(Decimal::from_ascii(b"-12").unwrap()));
    assert_eq!(slot(&integer, &whole).unwrap(), b"-12 ".to_vec());
}

#[test]
fn number_too_wide_for_its_field_is_refused() {
    let info = create_temp_field_info(FieldType::Numeric, 3);
    let value = FieldValue::Numeric(Some(Decimal::from_ascii(b"12345").unwrap()));
    assert_eq!(slot(&value, &info), Err(ErrorKind::ValueTooLong));
}

#[test]
fn character_is_trimmed_and_padded() {
    let info = create_temp_field_info(FieldType::Character, 8);
    let value = FieldValue::Character(Some(String::from("ab c")));
    assert_eq!(slot(&value, &info).unwrap(), b"ab c    ".to_vec());
    assert_eq!(read(b"  ab c  ", FieldType::Character).unwrap(), value);
    assert_eq!(read(b"ab c\0xyz", FieldType::Character).unwrap(), value);
    assert_eq!(read(b"        ", FieldType::Character).unwrap(), FieldValue::Character(None));
    assert_eq!(read(b"\0abcdefg", FieldType::Character).unwrap(), FieldValue::Character(None));
    assert_eq!(slot(&FieldValue::Character(None), &info).unwrap(), b"        ".to_vec());
}

#[test]
fn character_too_wide_for_its_field_is_refused() {
    let info = create_temp_field_info(FieldType::Character, 3);
    let value = FieldValue::Character(Some(String::from("abcd")));
    assert_eq!(slot(&value, &info), Err(ErrorKind::ValueTooLong));
}

#[test]
fn integer_is_four_bytes_least_significant_first() {
    let info = create_temp_field_info(FieldType::Integer, 4);
    assert_eq!(slot(&FieldValue::Integer(1457), &info).unwrap(), vec![0xB1, 0x05, 0, 0]);
    assert_eq!(slot(&FieldValue::Integer(-2), &info).unwrap(), vec![0xFE, 0xFF, 0xFF, 0xFF]);
    assert_eq!(
        read(&[0xFE, 0xFF, 0xFF, 0xFF], FieldType::Integer).unwrap(),
        FieldValue::Integer(-2)
    );
    assert_eq!(
        read(&[0x00, 0x00, 0x00, 0x80], FieldType::Integer).unwrap(),
        FieldValue::Integer(i32::MIN)
    );
}

#[test]
fn double_and_currency_are_eight_bytes_of_a_binary_float() {
    let double = create_temp_field_info(FieldType::Double, 8);
    let currency = create_temp_field_info(FieldType::Currency, 8);
    let number = 32.5f64;
    let value = FieldValue::Double(Binary64::from_bits(number.to_bits()));
    let bytes = slot(&value, &double).unwrap();
    assert_eq!(bytes, number.to_le_bytes().to_vec());
    assert_eq!(read(&bytes, FieldType::Double).unwrap(), value);
    let amount = FieldValue::Currency(Binary64::from_bits((-0.25f64).to_bits()));
    let bytes = slot(&amount, &currency).unwrap();
    assert_eq!(bytes, (-0.25f64).to_le_bytes().to_vec());
    match read(&bytes, FieldType::Currency).unwrap() {
        FieldValue::Currency(read_back) => {
            assert_eq!(f64::from_bits(read_back.to_bits()), -0.25);
        }
        other => panic!("not a currency: {:?}", other),
    }
}

#[test]
fn datetime_is_a_day_number_and_a_time_word() {
    let info = create_temp_field_info(FieldType::DateTime, 8);
    let moment = DateTime::new(Date::new(20, 7, 2019), Time::new(13, 37, 42));
    let value = FieldValue::DateTime(moment);
    let bytes = slot(&value, &info).unwrap();
    let mut expected = 2458685i32.to_le_bytes().to_vec();
    expected.extend_from_slice(&(13 * 3_600_000 + 37 * 60_000 + 42 * 1_000i32).to_le_bytes());
    assert_eq!(bytes, expected);
    assert_eq!(read(&bytes, FieldType::DateTime).unwrap(), value);
}

#[test]
fn schema_is_enforced_on_write() {
    let info = create_temp_field_info(FieldType::Character, 10);
    let mut out = vec![1u8, 2, 3];
    let result = FieldValue::Integer(5).write_as(&info, &utf8(), &mut out);
    assert_eq!(result, Err(ErrorKind::IncompatibleType));
    assert_eq!(out, vec![1u8, 2, 3]);
    let result = FieldValue::Numeric(None).write_field(&info, &utf8(), &mut out);
    assert_eq!(result, Err(ErrorKind::IncompatibleType));
    assert_eq!(out, vec![1u8, 2, 3]);
    let numeric = create_temp_field_info(FieldType::Numeric, 10);
    let float = FieldValue::Float(Some(Decimal::from_ascii(b"1").unwrap()));
    assert_eq!(float.write_as(&numeric, &utf8(), &mut out), Err(ErrorKind::IncompatibleType));
    assert_eq!(out, vec![1u8, 2, 3]);
}

#[test]
fn every_value_has_the_type_of_its_variant() {
    assert_eq!(FieldValue::Character(None).field_type(), FieldType::Character);
    assert_eq!(FieldValue::Numeric(None).field_type(), FieldType::Numeric);
    assert_eq!(FieldValue::Logical(None).field_type(), FieldType::Logical);
    assert_eq!(FieldValue::Date(None).field_type(), FieldType::Date);
    assert_eq!(FieldValue::Float(None).field_type(), FieldType::Float);
    assert_eq!(FieldValue::Integer(0).field_type(), FieldType::Integer);
    assert_eq!(FieldValue::Currency(Binary64::from_bits(0)).field_type(), FieldType::Currency);
    assert_eq!(FieldValue::Double(Binary64::from_bits(0)).field_type(), FieldType::Double);
    assert_eq!(FieldValue::Memo(String::new()).field_type(), FieldType::Memo);
    let moment = DateTime::new(Date::new(1, 1, 2000), Time::new(0, 0, 0));
    assert_eq!(FieldValue::DateTime(moment).field_type(), FieldType::DateTime);
}

#[test]
fn memo_cannot_be_written() {
    let info = create_temp_field_info(FieldType::Memo, 10);
    let mut out = Vec::new();
    let result = FieldValue::Memo(String::from("text")).write_as(&info, &utf8(), &mut out);
    assert_eq!(result, Err(ErrorKind::MemoWriteUnsupported));
    assert!(out.is_empty());
}

#[test]
fn memo_field_without_a_memo_store_fails() {
    assert_eq!(read(b"         1", FieldType::Memo), Err(ErrorKind::MissingMemoFile));
    assert_eq!(read(&[1, 0, 0, 0], FieldType::Memo), Err(ErrorKind::MissingMemoFile));
}

#[test]
fn empty_memo_field_needs_no_memo_store() {
    assert_eq!(
        read(b"          ", FieldType::Memo).unwrap(),
        FieldValue::Memo(String::new())
    );
}

#[test]
fn malformed_memo_index_is_a_parse_failure() {
    assert_eq!(read(b"      12x ", FieldType::Memo), Err(ErrorKind::ParseIntError));
    assert_eq!(read(b"99999999999", FieldType::Memo), Err(ErrorKind::ParseIntError));
}

fn dbase4_store() -> Vec<u8> {
    let mut store = vec![0u8; 512];
    store[0..4].copy_from_slice(&3u32.to_le_bytes());
    store[4..6].copy_from_slice(&512u16.to_le_bytes());
    let mut block = vec![0xFFu8, 0xFF, 0x08, 0x00];
    block.extend_from_slice(&9u32.to_le_bytes());
    block.extend_from_slice(b"Hello\x1Fxyz");
    block.resize(512, 0);
    store.extend_from_slice(&block);
    store
}

#[test]
fn memo_field_is_looked_up_in_the_store() {
    let reader = MemoReader::new(MemoFileType::DbaseMemo4, dbase4_store()).unwrap();
    let mut memo = Some(reader);
    let info = create_temp_field_info(FieldType::Memo, 10);
    let value = FieldValue::read_from(b"         1", &mut memo, &info, &utf8()).unwrap();
    assert_eq!(value, FieldValue::Memo(String::from("Hello")));
    let binary = create_temp_field_info(FieldType::Memo, 4);
    let value = FieldValue::read_from(&[1, 0, 0, 0], &mut memo, &binary, &utf8()).unwrap();
    assert_eq!(value, FieldValue::Memo(String::from("Hello")));
    let missing = FieldValue::read_from(b"         7", &mut memo, &info, &utf8());
    assert_eq!(missing, Err(ErrorKind::UnexpectedEof));
}

#[test]
fn field_type_tags() {
    let all = [
        ('C', FieldType::Character),
        ('D', FieldType::Date),
        ('F', FieldType::Float),
        ('N', FieldType::Numeric),
        ('L', FieldType::Logical),
        ('Y', FieldType::Currency),
        ('T', FieldType::DateTime),
        ('I', FieldType::Integer),
        ('B', FieldType::Double),
        ('M', FieldType::Memo),
    ];
    for (tag, field_type) in all {
        assert_eq!(FieldType::from(tag), Some(field_type));
        assert_eq!(u8::from(field_type), tag as u8);
        assert_eq!(FieldType::try_from(tag), Ok(field_type));
    }
    assert_eq!(FieldType::from('G'), None);
    assert_eq!(FieldType::from('c'), None);
    assert_eq!(FieldType::try_from('G'), Err(ErrorKind::InvalidFieldType('G')));
}

#[test]
fn field_type_sizes() {
    assert_eq!(FieldType::Logical.size(), Some(1));
    assert_eq!(FieldType::Date.size(), Some(8));
    assert_eq!(FieldType::Integer.size(), Some(4));
    assert_eq!(FieldType::Currency.size(), Some(8));
    assert_eq!(FieldType::DateTime.size(), Some(8));
    assert_eq!(FieldType::Double.size(), Some(8));
    assert_eq!(FieldType::Character.size(), None);
    assert_eq!(FieldType::Numeric.size(), None);
    assert_eq!(FieldType::Float.size(), None);
    assert_eq!(FieldType::Memo.size(), None);
}
