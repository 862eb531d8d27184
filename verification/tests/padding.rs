use dbase::trim_field_data;

#[test]
fn trim_of_padding_is_empty() {
    assert_eq!(trim_field_data(b""), b"");
    assert_eq!(trim_field_data(b" "), b"");
    assert_eq!(trim_field_data(b"        "), b"");
    assert_eq!(trim_field_data(b"\0"), b"");
    assert_eq!(trim_field_data(b"\0abc"), b"");
    assert_eq!(trim_field_data(b"   \0abc"), b"");
    for len in 0..=255usize {
        assert_eq!(trim_field_data(&vec![b' '; len]), b"");
        let mut nul_first = vec![b'x'; len + 1];
        nul_first[0] = 0;
        assert_eq!(trim_field_data(&nul_first), b"");
    }
}

#[test]
fn trim_is_the_minimal_span() {
    assert_eq!(trim_field_data(b"abc"), b"abc");
    assert_eq!(trim_field_data(b"  abc"), b"abc");
    assert_eq!(trim_field_data(b"abc  "), b"abc");
    assert_eq!(trim_field_data(b"  a b  c  "), b"a b  c");
    assert_eq!(trim_field_data(b" abc \0 def "), b"abc");
    assert_eq!(trim_field_data(b"abc\0"), b"abc");
    assert_eq!(trim_field_data(b"x"), b"x");
    assert_eq!(trim_field_data(b"\tabc\n"), b"\tabc\n");
    for len in 1..=255usize {
        for first in [0, len / 2, len - 1] {
            let mut bytes = vec![b' '; len];
            bytes[first] = b'x';
            bytes[len - 1 - first / 2] = b'y';
            let lo = first.min(len - 1 - first / 2);
            let hi = first.max(len - 1 - first / 2);
            assert_eq!(trim_field_data(&bytes), &bytes[lo..=hi]);
        }
    }
}

#[test]
fn trim_borrows_from_its_input() {
    let bytes = b"  abc  ".to_vec();
    let trimmed = trim_field_data(&bytes);
    assert_eq!(trimmed.as_ptr(), bytes[2..].as_ptr());
}

fn reference_trim(bytes: &[u8]) -> &[u8] {
    let end = bytes.iter().position(|b| *b == 0).unwrap_or(bytes.len());
    let text = &bytes[..end];
    let start = text.iter().position(|b| *b != b' ').unwrap_or(text.len());
    let stop = text.iter().rposition(|b| *b != b' ').map_or(start, |i| i + 1);
    &text[start..stop]
}

#[test]
fn trim_of_every_short_field() {
    let alphabet = [b' ', 0u8, b'a', b'*'];
    for len in 0..=7usize {
        let count = alphabet.len().pow(len as u32);
        for code in 0..count {
            let mut rest = code;
            let mut bytes = Vec::with_capacity(len);
            for _ in 0..len {
                bytes.push(alphabet[rest % alphabet.len()]);
                rest /= alphabet.len();
            }
            assert_eq!(trim_field_data(&bytes), reference_trim(&bytes), "{:?}", bytes);
        }
    }
}
