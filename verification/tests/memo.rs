use dbase::{ErrorKind, MemoFileType, MemoHeader, MemoReader};

fn dbase_store(next: u32, declared_size: u16, blocks: &[&[u8]]) -> Vec<u8> {
    let size = if declared_size == 0 { 512 } else { declared_size as usize };
    let mut store = vec![0u8; size];
    store[0..4].copy_from_slice(&next.to_le_bytes());
    store[4..6].copy_from_slice(&declared_size.to_le_bytes());
    for block in blocks {
        store.extend_from_slice(block);
    }
    store
}

fn foxbase_store(size: u16, blocks: &[Vec<u8>]) -> Vec<u8> {
    let mut store = vec![0u8; size as usize];
    store[0..4].copy_from_slice(&9u32.to_le_bytes());
    store[4..6].copy_from_slice(&[0xAB, 0xCD]);
    store[6..8].copy_from_slice(&size.to_be_bytes());
    for block in blocks {
        let mut padded = block.clone();
        padded.resize(size as usize, 0);
        store.extend_from_slice(&padded);
    }
    store
}

fn length_prefixed(length: &[u8; 4], content: &[u8]) -> Vec<u8> {
    let mut block = vec![0, 0, 0, 1];
    block.extend_from_slice(length);
    block.extend_from_slice(content);
    block
}

#[test]
fn memo_header_of_each_layout() {
    let dbase = [7u8, 0, 0, 0, 0x00, 0x04, 9, 9];
    assert_eq!(
        MemoHeader::read_from(&dbase, MemoFileType::DbaseMemo),
        Ok(MemoHeader { next_available_block_index: 7, block_size: 1024 })
    );
    assert_eq!(
        MemoHeader::read_from(&dbase, MemoFileType::DbaseMemo4),
        Ok(MemoHeader { next_available_block_index: 7, block_size: 1024 })
    );
    let no_size = [1u8, 2, 0, 0, 0, 0];
    assert_eq!(
        MemoHeader::read_from(&no_size, MemoFileType::DbaseMemo),
        Ok(MemoHeader { next_available_block_index: 513, block_size: 512 })
    );
    let foxbase = [7u8, 0, 0, 0, 0xFF, 0xFF, 0x00, 0x40];
    assert_eq!(
        MemoHeader::read_from(&foxbase, MemoFileType::FoxBaseMemo),
        Ok(MemoHeader { next_available_block_index: 7, block_size: 64 })
    );
}

#[test]
fn memo_header_cut_short() {
    assert_eq!(
        MemoHeader::read_from(&[0; 5], MemoFileType::DbaseMemo),
        Err(ErrorKind::UnexpectedEof)
    );
    assert_eq!(
        MemoHeader::read_from(&[0; 7], MemoFileType::FoxBaseMemo),
        Err(ErrorKind::UnexpectedEof)
    );
    assert!(MemoHeader::read_from(&[0; 6], MemoFileType::DbaseMemo4).is_ok());
    assert!(MemoReader::new(MemoFileType::FoxBaseMemo, vec![0; 7]).is_err());
}

#[test]
fn memo_reader_keeps_layout_and_header() {
    let reader = MemoReader::new(MemoFileType::DbaseMemo, dbase_store(3, 16, &[])).unwrap();
    assert_eq!(reader.memo_file_type(), MemoFileType::DbaseMemo);
    assert_eq!(
        reader.header(),
        MemoHeader { next_available_block_index: 3, block_size: 16 }
    );
}

#[test]
fn dbase4_text_ends_at_the_sentinel() {
    let block = length_prefixed(&[11, 0, 0, 0], b"Hello\x1Fworld");
    let mut padded = block.clone();
    padded.resize(32, 0);
    let store = dbase_store(2, 32, &[&padded]);
    let mut reader = MemoReader::new(MemoFileType::DbaseMemo4, store).unwrap();
    assert_eq!(reader.read_data_at(1), Ok(b"Hello".to_vec()));
}

#[test]
fn dbase4_text_without_sentinel_runs_to_its_length() {
    let mut padded = length_prefixed(&[5, 0, 0, 0], b"Hello world");
    padded.resize(32, b'#');
    let store = dbase_store(2, 32, &[&padded]);
    let mut reader = MemoReader::new(MemoFileType::DbaseMemo4, store).unwrap();
    assert_eq!(reader.read_data_at(1), Ok(b"Hello".to_vec()));
}

#[test]
fn dbase4_text_longer_than_a_block() {
    let content = vec![b'a'; 40];
    let block = length_prefixed(&[40, 0, 0, 0], &content);
    let store = dbase_store(2, 16, &[&[0u8; 16], &block]);
    let mut reader = MemoReader::new(MemoFileType::DbaseMemo4, store).unwrap();
    assert_eq!(reader.read_data_at(2), Ok(content));
}

#[test]
fn dbase4_store_cut_short() {
    let block = length_prefixed(&[40, 0, 0, 0], b"short");
    let store = dbase_store(2, 16, &[&block]);
    let mut reader = MemoReader::new(MemoFileType::DbaseMemo4, store).unwrap();
    assert_eq!(reader.read_data_at(1), Err(ErrorKind::UnexpectedEof));
    assert_eq!(reader.read_data_at(9), Err(ErrorKind::UnexpectedEof));
    assert_eq!(reader.read_data_at(u32::MAX), Err(ErrorKind::UnexpectedEof));
}

#[test]
fn foxbase_text_drops_the_zeros_at_its_end() {
    let block = length_prefixed(&[0, 0, 0, 12], b"Hello\0you\0\0\0");
    let store = foxbase_store(32, &[block]);
    let mut reader = MemoReader::new(MemoFileType::FoxBaseMemo, store).unwrap();
    assert_eq!(reader.read_data_at(1), Ok(b"Hello\0you".to_vec()));
}

#[test]
fn foxbase_text_of_zeros_is_empty() {
    let block = length_prefixed(&[0, 0, 0, 6], &[0; 6]);
    let store = foxbase_store(32, &[block]);
    let mut reader = MemoReader::new(MemoFileType::FoxBaseMemo, store).unwrap();
    assert_eq!(reader.read_data_at(1), Ok(Vec::new()));
}

#[test]
fn foxbase_text_longer_than_a_block() {
    let content: Vec<u8> = (1..=100u8).collect();
    let block = length_prefixed(&[0, 0, 0, 100], &content);
    let mut store = foxbase_store(16, &[vec![0; 16]]);
    store.extend_from_slice(&block);
    let mut reader = MemoReader::new(MemoFileType::FoxBaseMemo, store).unwrap();
    assert_eq!(reader.read_data_at(2), Ok(content));
    assert_eq!(reader.read_data_at(40), Err(ErrorKind::UnexpectedEof));
}

#[test]
fn dbase_text_ends_at_the_sentinel_or_the_block() {
    let mut first = b"Hello\x1Arest".to_vec();
    first.resize(16, b'.');
    let second = *b"0123456789abcdef";
    let store = dbase_store(3, 16, &[&first, &second]);
    let mut reader = MemoReader::new(MemoFileType::DbaseMemo, store).unwrap();
    assert_eq!(reader.read_data_at(1), Ok(b"Hello".to_vec()));
    assert_eq!(reader.read_data_at(2), Ok(second.to_vec()));
}

#[test]
fn dbase_short_last_block_is_tolerated() {
    let first = *b"0123456789abcdef";
    let store = dbase_store(3, 16, &[&first, b"tail"]);
    let mut reader = MemoReader::new(MemoFileType::DbaseMemo, store).unwrap();
    assert_eq!(reader.read_data_at(2), Ok(b"tail\0\0\0\0\0\0\0\0\0\0\0\0".to_vec()));
    assert_eq!(reader.read_data_at(1), Ok(first.to_vec()));
    assert_eq!(reader.read_data_at(2), Ok(b"tail456789abcdef".to_vec()));
}

#[test]
fn dbase_short_block_elsewhere_is_a_failure() {
    let first = *b"0123456789abcdef";
    let store = dbase_store(7, 16, &[&first, b"tail"]);
    let mut reader = MemoReader::new(MemoFileType::DbaseMemo, store).unwrap();
    assert_eq!(reader.read_data_at(2), Err(ErrorKind::UnexpectedEof));
    assert_eq!(reader.read_data_at(3), Err(ErrorKind::UnexpectedEof));
    assert_eq!(reader.read_data_at(6), Ok(vec![0; 16]));
}

#[test]
fn dbase_block_size_defaults_to_512() {
    let mut block = vec![b'x'; 512];
    block[300] = 0x1A;
    let store = dbase_store(2, 0, &[&block]);
    let mut reader = MemoReader::new(MemoFileType::DbaseMemo, store).unwrap();
    assert_eq!(reader.header().block_size, 512);
    assert_eq!(reader.read_data_at(1), Ok(vec![b'x'; 300]));
}

#[test]
fn layout_is_shown_by_the_header() {
    let mut dbase3 = vec![0u8; 512];
    dbase3[0] = 2;
    dbase3[16] = 0x03;
    assert_eq!(MemoFileType::detect(&dbase3), Some(MemoFileType::DbaseMemo));
    let dbase4 = dbase_store(2, 64, &[]);
    assert_eq!(MemoFileType::detect(&dbase4), Some(MemoFileType::DbaseMemo4));
    let foxbase = foxbase_store(64, &[]);
    let mut unused_zero = foxbase.clone();
    unused_zero[4] = 0;
    unused_zero[5] = 0;
    assert_eq!(MemoFileType::detect(&unused_zero), Some(MemoFileType::FoxBaseMemo));
    assert_eq!(MemoFileType::detect(&[0; 7]), None);
    assert_eq!(MemoFileType::detect(&[0; 8]), Some(MemoFileType::FoxBaseMemo));

    let reader = MemoReader::open(dbase3).unwrap();
    assert_eq!(reader.memo_file_type(), MemoFileType::DbaseMemo);
    assert_eq!(reader.header().block_size, 512);
    let reader = MemoReader::open(dbase4).unwrap();
    assert_eq!(reader.memo_file_type(), MemoFileType::DbaseMemo4);
    assert_eq!(reader.header().block_size, 64);
    let mut reader = MemoReader::open(unused_zero).unwrap();
    assert_eq!(reader.memo_file_type(), MemoFileType::FoxBaseMemo);
    assert_eq!(reader.header().block_size, 64);
    assert_eq!(reader.read_data_at(0), Err(ErrorKind::UnexpectedEof));
    assert_eq!(MemoReader::open(vec![0; 7]).err(), Some(ErrorKind::UnexpectedEof));
}
