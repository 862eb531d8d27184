//! The description of a field: its name, its type and its width.

use vstd::prelude::*;
use vstd::string::StringSliceAdditionalSpecFns;

use crate::error::ErrorKind;
use crate::field_type::FieldType;

verus! {

/// The most bytes that the name of a field can take in its descriptor.
pub const FIELD_NAME_LENGTH: usize = 11;

/// Whether a field of type `field_type` can be `length` bytes wide: a type
/// of fixed size has that size, a memo field has room for a block index of
/// four bytes, and any other field has at least one byte.
pub open spec fn length_allowed(field_type: FieldType, length: u8) -> bool {
    match field_type.fixed_size() {
        Some(size) => length == size,
        None => if field_type == FieldType::Memo {
            length >= 4
        } else {
            length > 0
        },
    }
}

/// Whether a field of type `field_type` can be `length` bytes wide.
pub fn is_length_allowed(field_type: FieldType, length: u8) -> (b: bool)
    ensures
        b == length_allowed(field_type, length),
{
    match field_type.size() {
        Some(size) => length == size,
        None => match field_type {
            FieldType::Memo => length >= 4,
            _ => length > 0,
        },
    }
}

/// The name of a field: a text of at most eleven bytes.
#[derive(Debug, PartialEq, Eq)]
pub struct FieldName {
    name: String,
}

impl View for FieldName {
    type V = Seq<char>;

    closed spec fn view(&self) -> Seq<char> {
        self.name@
    }
}

impl Clone for FieldName {
    fn clone(&self) -> (copy: FieldName)
        ensures
            copy@ == self@,
    {
        proof {
            use_type_invariant(self);
        }
        FieldName { name: self.name.clone() }
    }
}

impl FieldName {
    #[verifier::type_invariant]
    spec fn well_formed(self) -> bool {
        vstd::utf8::encode_utf8(self.name@).len() <= FIELD_NAME_LENGTH
    }

    /// The field name `name`. A name of more than eleven bytes is refused.
    pub fn try_from(name: &str) -> (r: Result<FieldName, ErrorKind>)
        ensures
            match r {
                Ok(field_name) => name.spec_bytes().len() <= FIELD_NAME_LENGTH && field_name@
                    == name@,
                Err(e) => name.spec_bytes().len() > FIELD_NAME_LENGTH && e
                    == ErrorKind::InvalidFieldName,
            },
    {
        if name.as_bytes().len() > FIELD_NAME_LENGTH {
            Err(ErrorKind::InvalidFieldName)
        } else {
            Ok(FieldName { name: name.to_owned() })
        }
    }

    /// The name as a string.
    pub fn as_str(&self) -> (s: &str)
        ensures
            s@ == self@,
            s.spec_bytes().len() <= FIELD_NAME_LENGTH,
    {
        proof {
            use_type_invariant(self);
        }
        self.name.as_str()
    }
}

/// The flag byte of a field descriptor.
#[derive(Debug, Copy, Clone, PartialEq, Eq, Structural)]
pub struct FieldFlags(pub u8);

/// What a field descriptor holds.
pub struct FieldInfoView {
    pub name: Seq<char>,
    pub field_type: FieldType,
    pub displacement_field: Seq<u8>,
    pub field_length: u8,
    pub num_decimal_places: u8,
    pub flags: FieldFlags,
    pub autoincrement_next_val: Seq<u8>,
    pub autoincrement_step: u8,
}

impl FieldInfoView {
    /// The descriptor is one that a table can hold: the width is one that
    /// the type allows, and the reserved parts have their sizes.
    pub open spec fn wf(self) -> bool {
        &&& length_allowed(self.field_type, self.field_length)
        &&& self.displacement_field.len() == 4
        &&& self.autoincrement_next_val.len() == 5
    }
}

/// The descriptor that stands for the deletion flag of a record where the
/// flag is listed among the fields: a text of one byte, named
/// `DeletionFlag`.
pub open spec fn deletion_flag_view() -> FieldInfoView {
    FieldInfoView {
        name: "DeletionFlag"@,
        field_type: FieldType::Character,
        displacement_field: seq![0u8, 0u8, 0u8, 0u8],
        field_length: 1,
        num_decimal_places: 0,
        flags: FieldFlags(0),
        autoincrement_next_val: seq![0u8, 0u8, 0u8, 0u8, 0u8],
        autoincrement_step: 0,
    }
}

/// The descriptor of one field of a table.
#[derive(Debug, PartialEq, Eq)]
pub struct FieldInfo {
    name: String,
    field_type: FieldType,
    displacement_field: [u8; 4],
    field_length: u8,
    num_decimal_places: u8,
    flags: FieldFlags,
    autoincrement_next_val: [u8; 5],
    autoincrement_step: u8,
}

impl View for FieldInfo {
    type V = FieldInfoView;

    closed spec fn view(&self) -> FieldInfoView {
        FieldInfoView {
            name: self.name@,
            field_type: self.field_type,
            displacement_field: self.displacement_field@,
            field_length: self.field_length,
            num_decimal_places: self.num_decimal_places,
            flags: self.flags,
            autoincrement_next_val: self.autoincrement_next_val@,
            autoincrement_step: self.autoincrement_step,
        }
    }
}

impl Clone for FieldInfo {
    fn clone(&self) -> (copy: FieldInfo)
        ensures
            copy@ == self@,
    {
        proof {
            use_type_invariant(self);
        }
        FieldInfo {
            name: self.name.clone(),
            field_type: self.field_type,
            displacement_field: self.displacement_field,
            field_length: self.field_length,
            num_decimal_places: self.num_decimal_places,
            flags: self.flags,
            autoincrement_next_val: self.autoincrement_next_val,
            autoincrement_step: self.autoincrement_step,
        }
    }
}

impl FieldInfo {
    #[verifier::type_invariant]
    spec fn well_formed(self) -> bool {
        self@.wf()
    }

    /// The descriptor of a field of the given name, type and width, with no
    /// decimal places and nothing in its reserved parts.
    ///
    /// The width is one that the type allows.
    pub fn new(name: FieldName, field_type: FieldType, length: u8) -> (info: FieldInfo)
        requires
            length_allowed(field_type, length),
        ensures
            info@ == (FieldInfoView {
                name: name@,
                field_type,
                displacement_field: seq![0u8, 0u8, 0u8, 0u8],
                field_length: length,
                num_decimal_places: 0,
                flags: FieldFlags(0),
                autoincrement_next_val: seq![0u8, 0u8, 0u8, 0u8, 0u8],
                autoincrement_step: 0,
            }),
            info@.wf(),
    {
        let displacement_field: [u8; 4] = [0, 0, 0, 0];
        let autoincrement_next_val: [u8; 5] = [0, 0, 0, 0, 0];
        proof {
            assert(displacement_field@ =~= seq![0u8, 0u8, 0u8, 0u8]);
            assert(autoincrement_next_val@ =~= seq![0u8, 0u8, 0u8, 0u8, 0u8]);
        }
        let name_text = name.as_str().to_owned();
        FieldInfo {
            name: name_text,
            field_type,
            displacement_field,
            field_length: length,
            num_decimal_places: 0,
            flags: FieldFlags(0),
            autoincrement_next_val,
            autoincrement_step: 0,
        }
    }

    /// The descriptor that stands for the deletion flag of a record.
    pub fn deletion_flag() -> (info: FieldInfo)
        ensures
            info@ == deletion_flag_view(),
    {
        let displacement_field: [u8; 4] = [0, 0, 0, 0];
        let autoincrement_next_val: [u8; 5] = [0, 0, 0, 0, 0];
        proof {
            assert(displacement_field@ =~= seq![0u8, 0u8, 0u8, 0u8]);
            assert(autoincrement_next_val@ =~= seq![0u8, 0u8, 0u8, 0u8, 0u8]);
        }
        FieldInfo {
            name: "DeletionFlag".to_owned(),
            field_type: FieldType::Character,
            displacement_field,
            field_length: 1,
            num_decimal_places: 0,
            flags: FieldFlags(0),
            autoincrement_next_val,
            autoincrement_step: 0,
        }
    }

    /// The descriptor made of all its parts. A width that the type does not
    /// allow makes the descriptor malformed.
    pub fn from_parts(
        name: String,
        field_type: FieldType,
        displacement_field: [u8; 4],
        length: u8,
        num_decimal_places: u8,
        flags: FieldFlags,
        autoincrement_next_val: [u8; 5],
        autoincrement_step: u8,
    ) -> (r: Result<FieldInfo, ErrorKind>)
        ensures
            match r {
                Ok(info) => length_allowed(field_type, length) && info@.wf() && info@ == (
                FieldInfoView {
                    name: name@,
                    field_type,
                    displacement_field: displacement_field@,
                    field_length: length,
                    num_decimal_places,
                    flags,
                    autoincrement_next_val: autoincrement_next_val@,
                    autoincrement_step,
                }),
                Err(e) => !length_allowed(field_type, length) && e == ErrorKind::MalformedHeader,
            },
    {
        if !is_length_allowed(field_type, length) {
            return Err(ErrorKind::MalformedHeader);
        }
        Ok(
            FieldInfo {
                name,
                field_type,
                displacement_field,
                field_length: length,
                num_decimal_places,
                flags,
                autoincrement_next_val,
                autoincrement_step,
            },
        )
    }

    /// The same descriptor with `places` decimal places.
    pub fn with_decimal_places(self, places: u8) -> (info: FieldInfo)
        ensures
            info@ == (FieldInfoView { num_decimal_places: places, ..self@ }),
            info@.wf(),
    {
        proof {
            use_type_invariant(&self);
        }
        let mut info = self;
        info.num_decimal_places = places;
        info
    }

    /// The name of the field.
    pub fn name(&self) -> (name: &str)
        ensures
            name@ == self@.name,
    {
        self.name.as_str()
    }

    /// The reserved displacement of the field within its record.
    pub fn displacement_field(&self) -> (bytes: [u8; 4])
        ensures
            bytes@ == self@.displacement_field,
    {
        self.displacement_field
    }

    /// The next value of an autoincrement field.
    pub fn autoincrement_next_val(&self) -> (bytes: [u8; 5])
        ensures
            bytes@ == self@.autoincrement_next_val,
    {
        self.autoincrement_next_val
    }

    /// The step of an autoincrement field.
    pub fn autoincrement_step(&self) -> (step: u8)
        ensures
            step == self@.autoincrement_step,
    {
        self.autoincrement_step
    }

    /// Whether this field has the name `name`.
    pub fn has_name(&self, name: &str) -> (b: bool)
        ensures
            b == (self@.name == name@),
    {
        let wanted = name.to_owned();
        self.name == wanted
    }

    /// Whether this field and `other` have the same name.
    pub fn same_name(&self, other: &FieldInfo) -> (b: bool)
        ensures
            b == (self@.name == other@.name),
    {
        self.name == other.name
    }

    /// The type of the field.
    pub fn field_type(&self) -> (t: FieldType)
        ensures
            t == self@.field_type,
    {
        self.field_type
    }

    /// The width of the field in bytes, which its type allows.
    pub fn length(&self) -> (length: u8)
        ensures
            length == self@.field_length,
            length_allowed(self@.field_type, length),
            self@.wf(),
    {
        proof {
            use_type_invariant(self);
        }
        self.field_length
    }

    /// The number of digits behind the point in a numeric field.
    pub fn num_decimal_places(&self) -> (places: u8)
        ensures
            places == self@.num_decimal_places,
    {
        self.num_decimal_places
    }

    /// The flag byte of the descriptor.
    pub fn flags(&self) -> (flags: FieldFlags)
        ensures
            flags == self@.flags,
    {
        self.flags
    }
}

} // verus!
