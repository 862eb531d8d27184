//! The type tag of a field.

use vstd::prelude::*;

use crate::error::ErrorKind;

verus! {

/// The ten kinds of field that a table can declare.
#[derive(Debug, Copy, Clone, PartialEq, Eq, Structural)]
pub enum FieldType {
    // dBASE III
    Character,
    Date,
    Float,
    Numeric,
    Logical,
    // Visual FoxPro
    Currency,
    DateTime,
    Integer,
    // of unknown origin
    Double,
    Memo,
}

/// The field type that the tag character `c` stands for, if any.
pub open spec fn type_of_tag(c: char) -> Option<FieldType> {
    if c == 'C' {
        Some(FieldType::Character)
    } else if c == 'D' {
        Some(FieldType::Date)
    } else if c == 'F' {
        Some(FieldType::Float)
    } else if c == 'N' {
        Some(FieldType::Numeric)
    } else if c == 'L' {
        Some(FieldType::Logical)
    } else if c == 'Y' {
        Some(FieldType::Currency)
    } else if c == 'T' {
        Some(FieldType::DateTime)
    } else if c == 'I' {
        Some(FieldType::Integer)
    } else if c == 'B' {
        Some(FieldType::Double)
    } else if c == 'M' {
        Some(FieldType::Memo)
    } else {
        None
    }
}

impl FieldType {
    /// The tag character of this type.
    pub open spec fn tag(self) -> char {
        match self {
            FieldType::Character => 'C',
            FieldType::Date => 'D',
            FieldType::Float => 'F',
            FieldType::Numeric => 'N',
            FieldType::Logical => 'L',
            FieldType::Currency => 'Y',
            FieldType::DateTime => 'T',
            FieldType::Integer => 'I',
            FieldType::Double => 'B',
            FieldType::Memo => 'M',
        }
    }

    /// The number of bytes that a value of this type takes in a record, for
    /// the types whose size does not depend on the field.
    pub open spec fn fixed_size(self) -> Option<u8> {
        match self {
            FieldType::Logical => Some(1u8),
            FieldType::Date => Some(8u8),
            FieldType::Integer => Some(4u8),
            FieldType::Currency => Some(8u8),
            FieldType::DateTime => Some(8u8),
            FieldType::Double => Some(8u8),
            _ => None,
        }
    }

    /// The type that the tag character `c` stands for; `None` for any other
    /// character.
    pub fn from(c: char) -> (t: Option<FieldType>)
        ensures
            t == type_of_tag(c),
    {
        match c {
            'C' => Some(FieldType::Character),
            'D' => Some(FieldType::Date),
            'F' => Some(FieldType::Float),
            'N' => Some(FieldType::Numeric),
            'L' => Some(FieldType::Logical),
            'Y' => Some(FieldType::Currency),
            'T' => Some(FieldType::DateTime),
            'I' => Some(FieldType::Integer),
            'B' => Some(FieldType::Double),
            'M' => Some(FieldType::Memo),
            _ => None,
        }
    }

    /// The size of a value of this type in a record; `None` where the size is
    /// that of the field.
    pub fn size(self) -> (s: Option<u8>)
        ensures
            s == self.fixed_size(),
    {
        match self {
            FieldType::Logical => Some(1),
            FieldType::Date => Some(8),
            FieldType::Integer => Some(4),
            FieldType::Currency => Some(8),
            FieldType::DateTime => Some(8),
            FieldType::Double => Some(8),
            _ => None,
        }
    }

    /// The tag of this type as the byte that stands in a field descriptor.
    pub fn tag_byte(self) -> (b: u8)
        ensures
            b == self.tag() as u8,
            type_of_tag(b as char) == Some(self),
    {
        match self {
            FieldType::Character => 67,
            FieldType::Date => 68,
            FieldType::Float => 70,
            FieldType::Numeric => 78,
            FieldType::Logical => 76,
            FieldType::Currency => 89,
            FieldType::DateTime => 84,
            FieldType::Integer => 73,
            FieldType::Double => 66,
            FieldType::Memo => 77,
        }
    }
}

impl From<FieldType> for u8 {
    /// The tag of the type as a byte.
    fn from(t: FieldType) -> (b: u8) {
        t.tag_byte()
    }
}

impl vstd::std_specs::convert::FromSpecImpl<FieldType> for u8 {
    open spec fn obeys_from_spec() -> bool {
        true
    }

    open spec fn from_spec(t: FieldType) -> u8 {
        t.tag() as u8
    }
}

impl TryFrom<char> for FieldType {
    type Error = ErrorKind;

    /// The type that the tag character `c` stands for, or the error that
    /// names the character.
    fn try_from(c: char) -> (r: Result<FieldType, ErrorKind>) {
        match FieldType::from(c) {
            Some(t) => Ok(t),
            None => Err(ErrorKind::InvalidFieldType(c)),
        }
    }
}

impl vstd::std_specs::convert::TryFromSpecImpl<char> for FieldType {
    open spec fn obeys_try_from_spec() -> bool {
        true
    }

    open spec fn try_from_spec(c: char) -> Result<FieldType, ErrorKind> {
        match type_of_tag(c) {
            Some(t) => Ok(t),
            None => Err(ErrorKind::InvalidFieldType(c)),
        }
    }
}

/// Every type is found again from its own tag.
pub proof fn lemma_tag_round_trip(t: FieldType)
    ensures
        type_of_tag(t.tag()) == Some(t),
{
}

} // verus!
