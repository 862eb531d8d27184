//! Text in the code page of a table.
//!
//! What a code page does to text is the work of the `encoding_rs` crate. The
//! library names the results of its functions and proves its own logic over
//! those names.

use encoding_rs::Encoding;
use vstd::prelude::*;
use vstd::string::StringSliceAdditionalSpecFns;

use crate::error::ErrorKind;

verus! {

/// The longest text, in bytes, that is handed to a code page in one piece:
/// one sixty-fourth of the largest size that the machine can count.
///
/// A code page reserves the room for its output before it writes it: at
/// most eight times the size of its input and a few bytes more, rounded up
/// to a power of two. Where that size is more than the machine can count,
/// the code page stops the program. A text of at most this length is out of
/// that danger on every machine.
pub const MAX_TEXT_BYTES: usize = usize::MAX / 64;

/// The bytes of the name `UTF-8`.
pub open spec fn utf8_name_bytes() -> Seq<u8> {
    seq![0x55u8, 0x54u8, 0x46u8, 0x2Du8, 0x38u8]
}

/// The name of the encoding that `label` stands for; `None` where the label
/// stands for none.
pub uninterp spec fn encoding_of_label(label: Seq<char>) -> Option<Seq<char>>;

/// The text that `bytes` hold in the encoding that `label` stands for, with
/// each malformed sequence replaced by the replacement character. Where the
/// bytes start with a byte-order mark of UTF-8 or of UTF-16, they are read
/// in the encoding of that mark instead, and the mark is no part of the
/// text.
pub uninterp spec fn decoded_text(label: Seq<char>, bytes: Seq<u8>) -> Seq<char>;

/// The bytes of `text` in the encoding that `label` stands for, and whether
/// the text holds a character that the encoding does not have.
pub uninterp spec fn encoded_text(label: Seq<char>, text: Seq<char>) -> (Seq<u8>, bool);

/// Whether `label` stands for the encoding UTF-8.
pub open spec fn label_is_utf8(label: Seq<char>) -> bool {
    match encoding_of_label(label) {
        Some(name) => vstd::utf8::encode_utf8(name) == utf8_name_bytes(),
        None => false,
    }
}

/// The bytes of `text` in the code page of label `label`: those of UTF-8
/// where the code page is UTF-8, else those that the encoding gives; `None`
/// where the text has a character that the encoding does not have.
pub open spec fn encoded_in(label: Seq<char>, text: Seq<char>) -> Option<Seq<u8>> {
    if label_is_utf8(label) {
        Some(vstd::utf8::encode_utf8(text))
    } else if encoded_text(label, text).1 {
        None
    } else {
        Some(encoded_text(label, text).0)
    }
}

/// The bytes of `text` in the code page of label `label`, or the refusal
/// of a text with a character that the code page does not have. No other
/// character is ever written in the place of such a character.
pub open spec fn text_bytes(label: Seq<char>, text: Seq<char>) -> Result<Seq<u8>, ErrorKind> {
    match encoded_in(label, text) {
        Some(bytes) => Ok(bytes),
        None => Err(ErrorKind::UnencodableText),
    }
}

/// `encoding_rs::Encoding::for_label`, then `Encoding::name` on what it
/// found: the name of the encoding that the label stands for, `None` where
/// `for_label` finds none.
#[verifier::external_body]
fn encoding_name(label: &str) -> (name: Option<String>)
    ensures
        match name {
            Some(n) => encoding_of_label(label@) == Some(n@),
            None => encoding_of_label(label@) is None,
        },
{
    match Encoding::for_label(label.as_bytes()) {
        Some(encoding) => Some(encoding.name().to_string()),
        None => None,
    }
}

/// `encoding_rs::Encoding::decode`, on the encoding that `for_label` finds
/// for `label`: the text of `bytes`, malformed sequences replaced, read in
/// the encoding of a byte-order mark where the bytes start with one. The
/// label must stand for an encoding. The bytes must be few enough for the
/// size of the output to be computed, which `decode` reserves before it
/// reads: it is at most three times the number of bytes and a few more,
/// rounded up to a power of two.
#[verifier::external_body]
fn decode_text(label: &str, bytes: &[u8]) -> (text: String)
    requires
        encoding_of_label(label@) is Some,
        bytes@.len() <= MAX_TEXT_BYTES,
    ensures
        text@ == decoded_text(label@, bytes@),
{
    Encoding::for_label(label.as_bytes()).unwrap().decode(bytes).0.into_owned()
}

/// `encoding_rs::Encoding::encode`, on the encoding that `for_label` finds
/// for `label`: the bytes of `text`, and whether a character had no place in
/// the encoding. The label must stand for an encoding. The text must be
/// short enough for the size of the output to be computed, which `encode`
/// reserves before it writes and again where a character has no place: it
/// is at most eight times the bytes of the text and a few more, rounded up
/// to a power of two.
#[verifier::external_body]
fn encode_text(label: &str, text: &str) -> (r: (Vec<u8>, bool))
    requires
        encoding_of_label(label@) is Some,
        text.spec_bytes().len() <= MAX_TEXT_BYTES,
    ensures
        (r.0@, r.1) == encoded_text(label@, text@),
{
    let (bytes, _, unmappable) = Encoding::for_label(label.as_bytes()).unwrap().encode(text);
    (bytes.into_owned(), unmappable)
}

/// Whether `name` is the name `UTF-8`.
fn is_utf8_name(name: &str) -> (b: bool)
    ensures
        b == (name.spec_bytes() == utf8_name_bytes()),
{
    let bytes = name.as_bytes();
    if bytes.len() != 5 {
        return false;
    }
    let b = bytes[0] == 0x55 && bytes[1] == 0x54 && bytes[2] == 0x46 && bytes[3] == 0x2D
        && bytes[4] == 0x38;
    proof {
        if b {
            assert(bytes@ =~= utf8_name_bytes());
        }
    }
    b
}

/// The code page of a table: a label that stands for an encoding. Its view
/// is the label.
#[derive(Debug, PartialEq, Eq)]
pub struct CodePage {
    label: String,
    utf8: bool,
}

impl View for CodePage {
    type V = Seq<char>;

    closed spec fn view(&self) -> Seq<char> {
        self.label@
    }
}

impl Clone for CodePage {
    fn clone(&self) -> (copy: CodePage)
        ensures
            copy@ == self@,
            copy.wf(),
    {
        proof {
            use_type_invariant(self);
        }
        CodePage { label: self.label.clone(), utf8: self.utf8 }
    }
}

impl CodePage {
    #[verifier::type_invariant]
    spec fn well_formed(self) -> bool {
        self.wf()
    }

    /// The label stands for an encoding, and the code page knows whether
    /// that encoding is UTF-8.
    pub closed spec fn wf(self) -> bool {
        &&& encoding_of_label(self.label@) is Some
        &&& self.utf8 == label_is_utf8(self.label@)
    }

    /// The code page that `label` stands for. A label that stands for no
    /// encoding is refused.
    pub fn for_label(label: &str) -> (r: Result<CodePage, ErrorKind>)
        ensures
            match r {
                Ok(cp) => encoding_of_label(label@) is Some && cp@ == label@ && cp.wf(),
                Err(e) => encoding_of_label(label@) is None && e == ErrorKind::InvalidEncoding,
            },
    {
        match encoding_name(label) {
            Some(name) => {
                let utf8 = is_utf8_name(name.as_str());
                Ok(CodePage { label: label.to_owned(), utf8 })
            },
            None => Err(ErrorKind::InvalidEncoding),
        }
    }

    /// Whether this code page is UTF-8.
    pub fn is_utf8(&self) -> (b: bool)
        ensures
            b == label_is_utf8(self@),
    {
        proof {
            use_type_invariant(self);
        }
        self.utf8
    }

    /// The text that `bytes` hold in this code page. Bytes that are no text
    /// in it become the replacement character. Bytes that start with a
    /// byte-order mark of UTF-8 or of UTF-16 are read in the encoding of
    /// that mark, whatever the code page, and the mark is dropped.
    ///
    /// The bytes are at most `MAX_TEXT_BYTES`.
    pub fn decode(&self, bytes: &[u8]) -> (text: String)
        requires
            bytes@.len() <= MAX_TEXT_BYTES,
        ensures
            text@ == decoded_text(self@, bytes@),
    {
        proof {
            use_type_invariant(self);
        }
        decode_text(self.label.as_str(), bytes)
    }
}

/// What becomes of the bytes that a code page gave for a text: they are the
/// result, unless a character of the text had no place in the code page.
pub fn accept_encoded(bytes: Vec<u8>, unmappable: bool) -> (r: Result<Vec<u8>, ErrorKind>)
    ensures
        r == if unmappable {
            Err::<Vec<u8>, ErrorKind>(ErrorKind::UnencodableText)
        } else {
            Ok(bytes)
        },
{
    if unmappable {
        Err(ErrorKind::UnencodableText)
    } else {
        Ok(bytes)
    }
}

/// The bytes of `value` in the code page `encoding`. A text with a character
/// that the code page does not have is refused: no other character is
/// written in its place.
///
/// The text has at most `MAX_TEXT_BYTES` bytes in UTF-8.
pub fn encoded_bytes(value: &str, encoding: &CodePage) -> (r: Result<Vec<u8>, ErrorKind>)
    requires
        value.spec_bytes().len() <= MAX_TEXT_BYTES,
    ensures
        match r {
            Ok(bytes) => text_bytes(encoding@, value@) == Ok::<Seq<u8>, ErrorKind>(bytes@),
            Err(e) => text_bytes(encoding@, value@) == Err::<Seq<u8>, ErrorKind>(e),
        },
{
    proof {
        use_type_invariant(encoding);
    }
    if encoding.utf8 {
        Ok(vstd::slice::slice_to_vec(value.as_bytes()))
    } else {
        let (bytes, unmappable) = encode_text(encoding.label.as_str(), value);
        accept_encoded(bytes, unmappable)
    }
}

} // verus!
