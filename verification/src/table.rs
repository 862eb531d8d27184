//! The layout of a table: its header and the descriptors of its fields,
//! which fix where each field of a record stands.

use vstd::prelude::*;

use crate::byte_order::append_bytes;
use crate::encoding::{decoded_text, encoded_bytes, text_bytes, CodePage, MAX_TEXT_BYTES};
use crate::error::ErrorKind;
use crate::field_type::{type_of_tag, FieldType};
use crate::header::{header_of, TableHeader, DESCRIPTOR_SIZE, HEADER_SIZE, TERMINATOR};
use crate::padding::{before_byte, find_byte, nuls, push_nuls, NUL};
use crate::record::{length_allowed, FieldFlags, FieldInfo, FieldInfoView, FIELD_NAME_LENGTH};

verus! {

/// The most fields that a table can have: the length of its header is a
/// number of two bytes.
pub const MAX_FIELDS: usize = 2046;

/// The field descriptor that the first 32 bytes of `s` hold.
///
/// The name is what stands before the first NUL byte of the first eleven
/// bytes, read in the code page of the table. An unknown type tag and a
/// width that the type does not allow are failures.
pub open spec fn descriptor_of(s: Seq<u8>, encoding: Seq<char>) -> Result<
    FieldInfoView,
    ErrorKind,
> {
    match type_of_tag(s[11] as char) {
        None => Err(ErrorKind::InvalidFieldType(s[11] as char)),
        Some(field_type) => if !length_allowed(field_type, s[16]) {
            Err(ErrorKind::MalformedHeader)
        } else {
            Ok(
                FieldInfoView {
                    name: decoded_text(encoding, 
                        before_byte(s.subrange(0, FIELD_NAME_LENGTH as int), NUL),
                    ),
                    field_type,
                    displacement_field: s.subrange(12, 16),
                    field_length: s[16],
                    num_decimal_places: s[17],
                    flags: FieldFlags(s[18]),
                    autoincrement_next_val: s.subrange(19, 24),
                    autoincrement_step: s[24],
                },
            )
        },
    }
}

/// The 32 bytes of the descriptor `info` whose name has the bytes `name`
/// in the code page of the table.
pub open spec fn descriptor_bytes(info: FieldInfoView, name: Seq<u8>) -> Seq<u8> {
    name + nuls((FIELD_NAME_LENGTH - name.len()) as nat) + seq![info.field_type.tag() as u8]
        + info.displacement_field + seq![
        info.field_length,
        info.num_decimal_places,
        info.flags.0,
    ] + info.autoincrement_next_val + seq![info.autoincrement_step] + nuls(7)
}

/// The bytes of the name `name` in a descriptor: those that the code page
/// gives, which must be at most eleven and hold no NUL byte. A name of more
/// than `MAX_TEXT_BYTES` bytes is refused before the code page sees it.
pub open spec fn name_bytes(name: Seq<char>, encoding: Seq<char>) -> Result<Seq<u8>, ErrorKind> {
    if vstd::utf8::encode_utf8(name).len() > MAX_TEXT_BYTES {
        Err(ErrorKind::InvalidFieldName)
    } else {
        match text_bytes(encoding, name) {
            Ok(bytes) => if bytes.len() <= FIELD_NAME_LENGTH && before_byte(bytes, NUL) == bytes {
                Ok(bytes)
            } else {
                Err(ErrorKind::InvalidFieldName)
            },
            Err(e) => Err(e),
        }
    }
}

/// Reads a field descriptor from the first 32 bytes of `src`.
pub fn read_descriptor(src: &[u8], encoding: &CodePage) -> (r: Result<FieldInfo, ErrorKind>)
    requires
        src@.len() >= DESCRIPTOR_SIZE,
    ensures
        match r {
            Ok(info) => descriptor_of(src@, encoding@) == Ok::<FieldInfoView, ErrorKind>(info@),
            Err(e) => descriptor_of(src@, encoding@) == Err::<FieldInfoView, ErrorKind>(e),
        },
{
    let tag = src[11] as char;
    let field_type = match FieldType::from(tag) {
        Some(field_type) => field_type,
        None => {
            return Err(ErrorKind::InvalidFieldType(tag));
        },
    };
    let name_field = vstd::slice::slice_subrange(src, 0, FIELD_NAME_LENGTH);
    let name_end = find_byte(name_field, NUL);
    let name = encoding.decode(vstd::slice::slice_subrange(name_field, 0, name_end));
    let displacement_field: [u8; 4] = [src[12], src[13], src[14], src[15]];
    let autoincrement_next_val: [u8; 5] = [src[19], src[20], src[21], src[22], src[23]];
    proof {
        assert(displacement_field@ =~= src@.subrange(12, 16));
        assert(autoincrement_next_val@ =~= src@.subrange(19, 24));
    }
    FieldInfo::from_parts(
        name,
        field_type,
        displacement_field,
        src[16],
        src[17],
        FieldFlags(src[18]),
        autoincrement_next_val,
        src[24],
    )
}

/// Appends the 32 bytes of the descriptor `info` to `dst`. A name that the
/// code page cannot write in eleven bytes without a NUL byte is refused,
/// and a refused descriptor leaves `dst` as it was.
pub fn write_descriptor(info: &FieldInfo, encoding: &CodePage, dst: &mut Vec<u8>) -> (r: Result<
    (),
    ErrorKind,
>)
    ensures
        match r {
            Ok(()) => name_bytes(info@.name, encoding@) is Ok && final(dst)@ == old(dst)@
                + descriptor_bytes(info@, name_bytes(info@.name, encoding@)->Ok_0),
            Err(e) => final(dst)@ == old(dst)@ && name_bytes(info@.name, encoding@) == Err::<
                Seq<u8>,
                ErrorKind,
            >(e),
        },
{
    if info.name().as_bytes().len() > MAX_TEXT_BYTES {
        return Err(ErrorKind::InvalidFieldName);
    }
    let name = match encoded_bytes(info.name(), encoding) {
        Ok(name) => name,
        Err(e) => {
            return Err(e);
        },
    };
    if name.len() > FIELD_NAME_LENGTH || find_byte(name.as_slice(), NUL) != name.len() {
        proof {
            if name@.len() <= FIELD_NAME_LENGTH {
                crate::padding::lemma_before_byte_shape(name@, NUL);
            }
        }
        return Err(ErrorKind::InvalidFieldName);
    }
    proof {
        assert(name@.subrange(0, name@.len() as int) =~= name@);
    }
    append_bytes(dst, name.as_slice());
    push_nuls(dst, FIELD_NAME_LENGTH - name.len());
    dst.push(info.field_type().tag_byte());
    let displacement = info.displacement_field();
    append_bytes(dst, displacement.as_slice());
    dst.push(info.length());
    dst.push(info.num_decimal_places());
    dst.push(info.flags().0);
    let next = info.autoincrement_next_val();
    append_bytes(dst, next.as_slice());
    dst.push(info.autoincrement_step());
    push_nuls(dst, 7);
    proof {
        assert(dst@ =~= old(dst)@ + descriptor_bytes(info@, name@));
    }
    Ok(())
}

/// The sum of the widths of the fields `fields`.
pub open spec fn sum_lengths(fields: Seq<FieldInfoView>) -> nat
    decreases fields.len(),
{
    if fields.len() == 0 {
        0
    } else {
        sum_lengths(fields.drop_last()) + fields.last().field_length as nat
    }
}

/// Whether no two of the fields `fields` have the same name.
pub open spec fn names_distinct(fields: Seq<FieldInfoView>) -> bool {
    forall|i: int, j: int| 0 <= i < j < fields.len() ==> fields[i].name != fields[j].name
}

/// The descriptors that stand in `src` from `offset` on, up to the
/// terminator byte. A source that ends before the terminator is an early
/// end, and the failure of a descriptor is the failure of all.
pub open spec fn descriptors_from(src: Seq<u8>, offset: int, encoding: Seq<char>) -> Result<
    Seq<FieldInfoView>,
    ErrorKind,
>
    decreases src.len() - offset,
{
    if offset < 0 || offset >= src.len() {
        Err(ErrorKind::UnexpectedEof)
    } else if src[offset] == TERMINATOR {
        Ok(Seq::empty())
    } else if offset + DESCRIPTOR_SIZE > src.len() {
        Err(ErrorKind::UnexpectedEof)
    } else {
        match descriptor_of(src.subrange(offset, offset + DESCRIPTOR_SIZE as int), encoding) {
            Err(e) => Err(e),
            Ok(first) => match descriptors_from(src, offset + DESCRIPTOR_SIZE, encoding) {
                Err(e) => Err(e),
                Ok(rest) => Ok(seq![first] + rest),
            },
        }
    }
}

/// What a table layout holds.
pub struct TableInfoView {
    pub header: TableHeader,
    pub fields: Seq<FieldInfoView>,
}

impl TableInfoView {
    /// The header agrees with the fields: the header ends behind the
    /// terminator of the descriptors, a record is as long as its deletion
    /// flag and its fields together, each descriptor is well formed, and no
    /// two fields have the same name.
    pub open spec fn wf(self) -> bool {
        &&& self.header.header_length == HEADER_SIZE + DESCRIPTOR_SIZE * self.fields.len() + 1
        &&& self.header.record_length == 1 + sum_lengths(self.fields)
        &&& forall|i: int| 0 <= i < self.fields.len() ==> (#[trigger] self.fields[i]).wf()
        &&& names_distinct(self.fields)
    }
}

/// The layout that `header` and `fields` make, if they agree.
pub open spec fn checked_layout(header: TableHeader, fields: Seq<FieldInfoView>) -> Result<
    TableInfoView,
    ErrorKind,
> {
    if (TableInfoView { header, fields }).wf() {
        Ok(TableInfoView { header, fields })
    } else {
        Err(ErrorKind::MalformedHeader)
    }
}

/// The layout of the table whose file starts with the bytes `src`: the
/// header, then the descriptors up to the terminator byte. A header that
/// does not agree with the descriptors is malformed.
pub open spec fn layout_of(src: Seq<u8>, encoding: Seq<char>) -> Result<TableInfoView, ErrorKind> {
    if src.len() < HEADER_SIZE {
        Err(ErrorKind::UnexpectedEof)
    } else {
        match descriptors_from(src, HEADER_SIZE as int, encoding) {
            Err(e) => Err(e),
            Ok(fields) => checked_layout(header_of(src), fields),
        }
    }
}

/// The views of the descriptors `fields`.
pub open spec fn field_views(fields: Seq<FieldInfo>) -> Seq<FieldInfoView> {
    Seq::new(fields.len(), |i: int| fields[i]@)
}

/// The sum of the widths of a prefix grows by the width of the next field.
pub proof fn lemma_sum_lengths_step(fields: Seq<FieldInfoView>, k: int)
    requires
        0 <= k < fields.len(),
    ensures
        sum_lengths(fields.subrange(0, k + 1)) == sum_lengths(fields.subrange(0, k))
            + fields[k].field_length,
{
    assert(fields.subrange(0, k + 1).drop_last() =~= fields.subrange(0, k));
}

/// The sum of the widths of `fields`, or `None` where it is above `limit`.
fn total_length(fields: &Vec<FieldInfo>, limit: usize) -> (r: Option<usize>)
    requires
        limit < 0x1_0000_0000,
    ensures
        match r {
            Some(total) => total == sum_lengths(field_views(fields@)) && total <= limit,
            None => sum_lengths(field_views(fields@)) > limit,
        },
        r is Some ==> forall|k: int|
            0 <= k < fields@.len() ==> (#[trigger] field_views(fields@)[k]).wf(),
{
    let ghost all = field_views(fields@);
    let mut total: usize = 0;
    let mut i: usize = 0;
    while i < fields.len()
        invariant
            i <= fields@.len(),
            all == field_views(fields@),
            total == sum_lengths(all.subrange(0, i as int)),
            total <= limit,
            limit < 0x1_0000_0000,
            forall|k: int| 0 <= k < i ==> (#[trigger] all[k]).wf(),
        decreases fields@.len() - i,
    {
        proof {
            lemma_sum_lengths_step(all, i as int);
        }
        let width = fields[i].length() as usize;
        if width > limit - total {
            proof {
                lemma_sum_lengths_grows(all, i + 1);
            }
            return None;
        }
        total += width;
        i += 1;
    }
    proof {
        assert(all.subrange(0, i as int) =~= all);
    }
    Some(total)
}

/// The sum of the widths of a prefix is at most that of all fields.
pub proof fn lemma_sum_lengths_grows(fields: Seq<FieldInfoView>, k: int)
    requires
        0 <= k <= fields.len(),
    ensures
        sum_lengths(fields.subrange(0, k)) <= sum_lengths(fields),
    decreases fields.len() - k,
{
    if k < fields.len() {
        lemma_sum_lengths_step(fields, k);
        lemma_sum_lengths_grows(fields, k + 1);
    } else {
        assert(fields.subrange(0, k) =~= fields);
    }
}

/// Whether no two of the fields `fields` have the same name.
fn has_distinct_names(fields: &Vec<FieldInfo>) -> (b: bool)
    ensures
        b == names_distinct(field_views(fields@)),
{
    let ghost all = field_views(fields@);
    let mut j: usize = 0;
    while j < fields.len()
        invariant
            j <= fields@.len(),
            all == field_views(fields@),
            forall|a: int, b: int| 0 <= a < b < j ==> all[a].name != all[b].name,
        decreases fields@.len() - j,
    {
        let mut i: usize = 0;
        while i < j
            invariant
                i <= j < fields@.len(),
                all == field_views(fields@),
                forall|a: int| 0 <= a < i ==> all[a].name != all[j as int].name,
            decreases j - i,
        {
            if fields[i].same_name(&fields[j]) {
                assert(all[i as int].name == all[j as int].name);
                return false;
            }
            i += 1;
        }
        j += 1;
    }
    true
}

/// The layout of a table: its header and the descriptors of its fields.
pub struct TableInfo {
    header: TableHeader,
    fields: Vec<FieldInfo>,
}

impl View for TableInfo {
    type V = TableInfoView;

    closed spec fn view(&self) -> TableInfoView {
        TableInfoView { header: self.header, fields: field_views(self.fields@) }
    }
}

impl TableInfo {
    #[verifier::type_invariant]
    spec fn well_formed(self) -> bool {
        self@.wf()
    }

    /// The layout that `header` and `fields` make. A header that does not
    /// agree with the fields is malformed.
    pub fn new(header: TableHeader, fields: Vec<FieldInfo>) -> (r: Result<TableInfo, ErrorKind>)
        ensures
            match r {
                Ok(info) => checked_layout(header, field_views(fields@)) == Ok::<
                    TableInfoView,
                    ErrorKind,
                >(info@),
                Err(e) => checked_layout(header, field_views(fields@)) == Err::<
                    TableInfoView,
                    ErrorKind,
                >(e),
            },
    {
        let ghost views = field_views(fields@);
        let count = fields.len();
        if count > MAX_FIELDS || header.header_length as usize != HEADER_SIZE + DESCRIPTOR_SIZE
            * count + 1 {
            return Err(ErrorKind::MalformedHeader);
        }
        match total_length(&fields, 0xffff) {
            Some(total) => {
                if header.record_length as usize != total + 1 {
                    return Err(ErrorKind::MalformedHeader);
                }
            },
            None => {
                return Err(ErrorKind::MalformedHeader);
            },
        }
        if !has_distinct_names(&fields) {
            return Err(ErrorKind::MalformedHeader);
        }
        Ok(TableInfo { header, fields })
    }

    /// Reads the layout of a table from the start of its file.
    pub fn read_from(src: &[u8], encoding: &CodePage) -> (r: Result<TableInfo, ErrorKind>)
        ensures
            match r {
                Ok(info) => layout_of(src@, encoding@) == Ok::<TableInfoView, ErrorKind>(info@),
                Err(e) => layout_of(src@, encoding@) == Err::<TableInfoView, ErrorKind>(e),
            },
    {
        let header = match TableHeader::read_from(src) {
            Ok(header) => header,
            Err(e) => {
                return Err(e);
            },
        };
        let mut fields: Vec<FieldInfo> = Vec::new();
        let mut offset: usize = HEADER_SIZE;
        loop
            invariant
                HEADER_SIZE <= offset <= src@.len(),
                descriptors_from(src@, HEADER_SIZE as int, encoding@) == match descriptors_from(
                    src@,
                    offset as int,
                    encoding@,
                ) {
                    Ok(rest) => Ok::<Seq<FieldInfoView>, ErrorKind>(field_views(fields@) + rest),
                    Err(e) => Err(e),
                },
            ensures
                descriptors_from(src@, HEADER_SIZE as int, encoding@) == Ok::<
                    Seq<FieldInfoView>,
                    ErrorKind,
                >(field_views(fields@)),
            decreases src@.len() - offset,
        {
            if offset >= src.len() {
                return Err(ErrorKind::UnexpectedEof);
            }
            if src[offset] == TERMINATOR {
                proof {
                    assert(field_views(fields@) + Seq::<FieldInfoView>::empty() =~= field_views(
                        fields@,
                    ));
                }
                break ;
            }
            if src.len() - offset < DESCRIPTOR_SIZE {
                return Err(ErrorKind::UnexpectedEof);
            }
            let bytes = vstd::slice::slice_subrange(src, offset, offset + DESCRIPTOR_SIZE);
            let ghost before = field_views(fields@);
            match read_descriptor(bytes, encoding) {
                Ok(info) => {
                    fields.push(info);
                    proof {
                        let rest = descriptors_from(
                            src@,
                            offset + DESCRIPTOR_SIZE as int,
                            encoding@,
                        );
                        assert(field_views(fields@) =~= before.push(info@));
                        if rest is Ok {
                            assert(before + (seq![info@] + rest->Ok_0) =~= field_views(fields@)
                                + rest->Ok_0);
                        }
                    }
                },
                Err(e) => {
                    return Err(e);
                },
            }
            offset += DESCRIPTOR_SIZE;
        }
        TableInfo::new(header, fields)
    }

    /// The place of the field named `name` among the fields, if the table
    /// has such a field.
    pub fn field_index(&self, name: &str) -> (index: Option<usize>)
        ensures
            match index {
                Some(i) => i < self@.fields.len() && self@.fields[i as int].name == name@,
                None => forall|i: int| 0 <= i < self@.fields.len() ==> self@.fields[i].name
                    != name@,
            },
    {
        let mut i: usize = 0;
        while i < self.fields.len()
            invariant
                i <= self.fields@.len(),
                forall|k: int| 0 <= k < i ==> self@.fields[k].name != name@,
            decreases self.fields@.len() - i,
        {
            if self.fields[i].has_name(name) {
                return Some(i);
            }
            i += 1;
        }
        None
    }

    /// The header of the table.
    pub fn header(&self) -> (header: TableHeader)
        ensures
            header == self@.header,
            self@.wf(),
    {
        proof {
            use_type_invariant(self);
        }
        self.header
    }

    /// The descriptors of the fields, in the order of the fields in a
    /// record.
    pub fn fields(&self) -> (fields: &Vec<FieldInfo>)
        ensures
            field_views(fields@) == self@.fields,
            self@.wf(),
    {
        proof {
            use_type_invariant(self);
        }
        &self.fields
    }
}

} // verus!
