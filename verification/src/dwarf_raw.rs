//! Debugging information entries as plain values, and what the parser
//! reads out of their attributes.

use crate::text::chars_of;
use crate::types::TypeEncoding;
use vstd::prelude::*;

verus! {

// Tags and encodings, as the DWARF standard numbers them.
/// The tag of an array type.
pub const DW_TAG_ARRAY_TYPE: u16 = 0x01;

/// The tag of an enumeration type.
pub const DW_TAG_ENUMERATION_TYPE: u16 = 0x04;

/// The tag of a member of a struct or union.
pub const DW_TAG_MEMBER: u16 = 0x0d;

/// The tag of a pointer type.
pub const DW_TAG_POINTER_TYPE: u16 = 0x0f;

/// The tag of a struct type.
pub const DW_TAG_STRUCTURE_TYPE: u16 = 0x13;

/// The tag of a typedef.
pub const DW_TAG_TYPEDEF: u16 = 0x16;

/// The tag of a union type.
pub const DW_TAG_UNION_TYPE: u16 = 0x17;

/// The tag of one dimension of an array.
pub const DW_TAG_SUBRANGE_TYPE: u16 = 0x21;

/// The tag of a base type.
pub const DW_TAG_BASE_TYPE: u16 = 0x24;

/// The tag of a `const` qualifier.
pub const DW_TAG_CONST_TYPE: u16 = 0x26;

/// The tag of one value of an enumeration.
pub const DW_TAG_ENUMERATOR: u16 = 0x28;

/// The tag of a variable.
pub const DW_TAG_VARIABLE: u16 = 0x34;

/// The tag of a `volatile` qualifier.
pub const DW_TAG_VOLATILE_TYPE: u16 = 0x35;

/// The encoding of a floating-point number.
pub const DW_ATE_FLOAT: u8 = 0x04;

/// The encoding of a signed integer.
pub const DW_ATE_SIGNED: u8 = 0x05;

/// The encoding of a signed character.
pub const DW_ATE_SIGNED_CHAR: u8 = 0x06;

/// The encoding of an unsigned integer.
pub const DW_ATE_UNSIGNED: u8 = 0x07;

/// The encoding of an unsigned character.
pub const DW_ATE_UNSIGNED_CHAR: u8 = 0x08;

/// The operation that adds an unsigned constant, which opens the location
/// of a member.
pub const DW_OP_PLUS_UCONST: u8 = 0x23;

// Attribute names, as the DWARF standard numbers them.
/// The name of an entry.
pub const DW_AT_NAME: u16 = 0x03;

/// The size of an entry in bytes.
pub const DW_AT_BYTE_SIZE: u16 = 0x0b;

/// The bit offset of a bitfield.
pub const DW_AT_BIT_OFFSET: u16 = 0x0c;

/// The bit size of a bitfield.
pub const DW_AT_BIT_SIZE: u16 = 0x0d;

/// The value of an enumerator.
pub const DW_AT_CONST_VALUE: u16 = 0x1c;

/// The greatest index of a dimension.
pub const DW_AT_UPPER_BOUND: u16 = 0x2f;

/// The number of elements of a dimension.
pub const DW_AT_COUNT: u16 = 0x37;

/// The offset of a member within its struct.
pub const DW_AT_DATA_MEMBER_LOCATION: u16 = 0x38;

/// The encoding of a base type.
pub const DW_AT_ENCODING: u16 = 0x3e;

/// The type of an entry.
pub const DW_AT_TYPE: u16 = 0x49;

/// The value of one attribute, in the form in which it was written.
#[derive(Debug)]
pub enum AttrValue {
    Udata(u64),
    Sdata(i64),
    Data1(u8),
    Data2(u16),
    Data4(u32),
    Data8(u64),
    /// The bytes of an inline string.
    Text(Vec<u8>),
    /// A base-type encoding.
    Encoding(u8),
    Block(Vec<u8>),
    Exprloc(Vec<u8>),
    /// A reference relative to the start of the unit.
    UnitRef(usize),
    /// A reference relative to the start of the section.
    DebugInfoRef(usize),
    /// Any other value.
    Other,
}

/// What an attribute value holds: bytes as a sequence.
pub enum AttrView {
    Udata(u64),
    Sdata(i64),
    Data1(u8),
    Data2(u16),
    Data4(u32),
    Data8(u64),
    Text(Seq<u8>),
    Encoding(u8),
    Block(Seq<u8>),
    Exprloc(Seq<u8>),
    UnitRef(usize),
    DebugInfoRef(usize),
    Other,
}

impl View for AttrValue {
    type V = AttrView;

    open spec fn view(&self) -> AttrView {
        match *self {
            AttrValue::Udata(v) => AttrView::Udata(v),
            AttrValue::Sdata(v) => AttrView::Sdata(v),
            AttrValue::Data1(v) => AttrView::Data1(v),
            AttrValue::Data2(v) => AttrView::Data2(v),
            AttrValue::Data4(v) => AttrView::Data4(v),
            AttrValue::Data8(v) => AttrView::Data8(v),
            AttrValue::Text(b) => AttrView::Text(b@),
            AttrValue::Encoding(v) => AttrView::Encoding(v),
            AttrValue::Block(b) => AttrView::Block(b@),
            AttrValue::Exprloc(b) => AttrView::Exprloc(b@),
            AttrValue::UnitRef(v) => AttrView::UnitRef(v),
            AttrValue::DebugInfoRef(v) => AttrView::DebugInfoRef(v),
            AttrValue::Other => AttrView::Other,
        }
    }
}

/// What an attribute holds, if the entry has it.
pub open spec fn attr_view(a: Option<AttrValue>) -> Option<AttrView> {
    match a {
        Some(v) => Some(v@),
        None => None,
    }
}

/// One debugging information entry: where it stands in its unit, how deep
/// in the tree, its tag, and those of its attributes that the parser
/// reads.
#[derive(Debug)]
pub struct RawDie {
    pub offset: usize,
    pub depth: isize,
    pub tag: u16,
    pub name: Option<AttrValue>,
    pub byte_size: Option<AttrValue>,
    pub encoding: Option<AttrValue>,
    pub member_location: Option<AttrValue>,
    pub type_ref: Option<AttrValue>,
    pub bit_size: Option<AttrValue>,
    pub bit_offset: Option<AttrValue>,
    pub const_value: Option<AttrValue>,
    pub upper_bound: Option<AttrValue>,
    pub count: Option<AttrValue>,
}

/// One unit: where it starts in the section, and its entries in tree
/// order, parents before children.
#[derive(Debug)]
pub struct RawUnit {
    pub offset: usize,
    pub dies: Vec<RawDie>,
}

/// The text that a sequence of bytes decodes to when every invalid UTF-8
/// sequence is replaced by the replacement character, as the standard
/// library decodes it.
pub uninterp spec fn lossy_text(bytes: Seq<u8>) -> Seq<char>;

/// The text of `bytes`, from `String::from_utf8_lossy`: the bytes decoded
/// as UTF-8 with the replacement character in place of what is not valid.
/// The result depends on the bytes alone; its value is named, not defined
/// here.
#[verifier::external_body]
pub(crate) fn utf8_lossy(bytes: &[u8]) -> (r: String)
    ensures
        r@ == lossy_text(bytes@),
{
    String::from_utf8_lossy(bytes).into_owned()
}

// ---------------------------------------------------------------------------
// Numbers
// ---------------------------------------------------------------------------

/// The attribute as an unsigned size, if it is a constant without sign.
pub open spec fn unsigned_of(a: Option<AttrValue>) -> Option<usize> {
    match a {
        Some(AttrValue::Udata(v)) => Some(v as usize),
        Some(AttrValue::Data1(v)) => Some(v as usize),
        Some(AttrValue::Data2(v)) => Some(v as usize),
        Some(AttrValue::Data4(v)) => Some(v as usize),
        Some(AttrValue::Data8(v)) => Some(v as usize),
        _ => None,
    }
}

/// The attribute as a size, if it is a constant; a signed constant is
/// taken by its bit pattern.
pub open spec fn number_of(a: Option<AttrValue>) -> Option<usize> {
    match a {
        Some(AttrValue::Sdata(v)) => Some(v as usize),
        _ => unsigned_of(a),
    }
}

/// The attribute as an unsigned size.
pub fn read_unsigned(a: &Option<AttrValue>) -> (r: Option<usize>)
    ensures
        r == unsigned_of(*a),
{
    match a {
        Some(AttrValue::Udata(v)) => Some(#[verifier::truncate] (*v as usize)),
        Some(AttrValue::Data1(v)) => Some(*v as usize),
        Some(AttrValue::Data2(v)) => Some(*v as usize),
        Some(AttrValue::Data4(v)) => Some(#[verifier::truncate] (*v as usize)),
        Some(AttrValue::Data8(v)) => Some(#[verifier::truncate] (*v as usize)),
        _ => None,
    }
}

/// The attribute as a size.
pub fn read_number(a: &Option<AttrValue>) -> (r: Option<usize>)
    ensures
        r == number_of(*a),
{
    match a {
        Some(AttrValue::Sdata(v)) => Some(#[verifier::truncate] (*v as usize)),
        _ => read_unsigned(a),
    }
}

// ---------------------------------------------------------------------------
// What an entry says
// ---------------------------------------------------------------------------

/// The name of the entry, if it has one written inline.
pub open spec fn die_name(d: RawDie) -> Option<Seq<char>> {
    match d.name {
        Some(AttrValue::Text(b)) => Some(lossy_text(b@)),
        _ => None,
    }
}

/// The byte size of the entry; 0 if it has none.
pub open spec fn die_size(d: RawDie) -> usize {
    match unsigned_of(d.byte_size) {
        Some(n) => n,
        None => 0,
    }
}

/// The encoding of the entry; unsigned where it has none or another one.
pub open spec fn die_encoding(d: RawDie) -> TypeEncoding {
    match d.encoding {
        Some(AttrValue::Encoding(e)) => if e == DW_ATE_SIGNED || e == DW_ATE_SIGNED_CHAR {
            TypeEncoding::Signed
        } else if e == DW_ATE_FLOAT {
            TypeEncoding::Float
        } else {
            TypeEncoding::Unsigned
        },
        _ => TypeEncoding::Unsigned,
    }
}

/// The offset that a location expression states: the byte after the
/// operation that adds a constant.
pub open spec fn location_in(b: Seq<u8>) -> Option<usize> {
    if b.len() >= 2 && b[0] == DW_OP_PLUS_UCONST {
        Some(b[1] as usize)
    } else {
        None
    }
}

/// The offset of a member within its struct; 0 if the entry states none.
pub open spec fn die_member_location(d: RawDie) -> usize {
    let found = match d.member_location {
        Some(AttrValue::Block(b)) => location_in(b@),
        Some(AttrValue::Exprloc(b)) => location_in(b@),
        _ => number_of(d.member_location),
    };
    match found {
        Some(n) => n,
        None => 0,
    }
}

/// An offset within the section, in 64-bit arithmetic.
pub open spec fn section_offset(unit_offset: usize, local: usize) -> u64 {
    ((unit_offset as nat + local as nat) % 0x1_0000_0000_0000_0000) as u64
}

/// The place in the section that the entry's type reference names: a
/// reference within the unit counts from `unit_offset`. 0 if the entry has
/// no reference.
pub open spec fn die_type_offset(d: RawDie, unit_offset: usize) -> u64 {
    match d.type_ref {
        Some(AttrValue::UnitRef(r)) => if r > 0 {
            section_offset(unit_offset, r)
        } else {
            0
        },
        Some(AttrValue::DebugInfoRef(r)) => r as u64,
        _ => 0,
    }
}

/// The bit position of the entry: its bit offset, 0 if it states none, and
/// its bit size. `None` if it has no bit size.
pub open spec fn die_bitfield(d: RawDie) -> Option<(usize, usize)> {
    match number_of(d.bit_size) {
        Some(size) => Some(
            (
                match number_of(d.bit_offset) {
                    Some(o) => o,
                    None => 0usize,
                },
                size,
            ),
        ),
        None => None,
    }
}

/// The value of an enumerator, if it states one.
pub open spec fn die_enum_value(d: RawDie) -> Option<i64> {
    match d.const_value {
        Some(AttrValue::Sdata(v)) => Some(v),
        Some(AttrValue::Udata(v)) => Some(v as i64),
        Some(AttrValue::Data1(v)) => Some(v as i64),
        Some(AttrValue::Data2(v)) => Some(v as i64),
        Some(AttrValue::Data4(v)) => Some(v as i64),
        Some(AttrValue::Data8(v)) => Some(v as i64),
        _ => None,
    }
}

/// One more than `n`, in the arithmetic of sizes.
pub open spec fn next_size(n: usize) -> usize {
    if n == usize::MAX {
        0
    } else {
        (n + 1) as usize
    }
}

/// The length of the dimension that a subrange states: one more than its
/// upper bound, else its count.
pub open spec fn die_dimension(d: RawDie) -> Option<usize> {
    match number_of(d.upper_bound) {
        Some(n) => Some(next_size(n)),
        None => number_of(d.count),
    }
}

/// The name of the entry.
pub fn read_name(d: &RawDie) -> (r: Option<Vec<char>>)
    ensures
        match r {
            Some(n) => die_name(*d) == Some(n@),
            None => die_name(*d).is_none(),
        },
{
    match &d.name {
        Some(AttrValue::Text(b)) => {
            let s = utf8_lossy(b.as_slice());
            Some(chars_of(s.as_str()))
        },
        _ => None,
    }
}

/// The byte size of the entry.
pub fn read_size(d: &RawDie) -> (r: usize)
    ensures
        r == die_size(*d),
{
    match read_unsigned(&d.byte_size) {
        Some(n) => n,
        None => 0,
    }
}

/// The encoding of the entry.
pub fn read_encoding(d: &RawDie) -> (r: TypeEncoding)
    ensures
        r == die_encoding(*d),
{
    match &d.encoding {
        Some(AttrValue::Encoding(e)) => {
            if *e == DW_ATE_SIGNED || *e == DW_ATE_SIGNED_CHAR {
                TypeEncoding::Signed
            } else if *e == DW_ATE_FLOAT {
                TypeEncoding::Float
            } else {
                TypeEncoding::Unsigned
            }
        },
        _ => TypeEncoding::Unsigned,
    }
}

fn read_location(b: &Vec<u8>) -> (r: Option<usize>)
    ensures
        r == location_in(b@),
{
    if b.len() >= 2 && b[0] == DW_OP_PLUS_UCONST {
        Some(b[1] as usize)
    } else {
        None
    }
}

/// The offset of a member within its struct.
pub fn read_member_location(d: &RawDie) -> (r: usize)
    ensures
        r == die_member_location(*d),
{
    let found = match &d.member_location {
        Some(AttrValue::Block(b)) => read_location(b),
        Some(AttrValue::Exprloc(b)) => read_location(b),
        _ => read_number(&d.member_location),
    };
    match found {
        Some(n) => n,
        None => 0,
    }
}

/// The place in the section that the entry's type reference names.
pub fn read_type_offset(d: &RawDie, unit_offset: usize) -> (r: u64)
    ensures
        r == die_type_offset(*d, unit_offset),
{
    match &d.type_ref {
        Some(AttrValue::UnitRef(r)) => {
            if *r > 0 {
                let wide: u128 = unit_offset as u128 + *r as u128;
                (wide % 0x1_0000_0000_0000_0000u128) as u64
            } else {
                0
            }
        },
        Some(AttrValue::DebugInfoRef(r)) => *r as u64,
        _ => 0,
    }
}

/// The bit position of the entry.
pub fn read_bitfield(d: &RawDie) -> (r: Option<(usize, usize)>)
    ensures
        r == die_bitfield(*d),
{
    match read_number(&d.bit_size) {
        Some(size) => {
            let offset = match read_number(&d.bit_offset) {
                Some(o) => o,
                None => 0,
            };
            Some((offset, size))
        },
        None => None,
    }
}

/// The value of an enumerator.
pub fn read_enum_value(d: &RawDie) -> (r: Option<i64>)
    ensures
        r == die_enum_value(*d),
{
    match &d.const_value {
        Some(AttrValue::Sdata(v)) => Some(*v),
        Some(AttrValue::Udata(v)) => Some(#[verifier::truncate] (*v as i64)),
        Some(AttrValue::Data1(v)) => Some(*v as i64),
        Some(AttrValue::Data2(v)) => Some(*v as i64),
        Some(AttrValue::Data4(v)) => Some(*v as i64),
        Some(AttrValue::Data8(v)) => Some(#[verifier::truncate] (*v as i64)),
        _ => None,
    }
}

/// The length of the dimension that a subrange states.
pub fn read_dimension(d: &RawDie) -> (r: Option<usize>)
    ensures
        r == die_dimension(*d),
{
    match read_number(&d.upper_bound) {
        Some(n) => {
            if n == usize::MAX {
                Some(0)
            } else {
                Some(n + 1)
            }
        },
        None => read_number(&d.count),
    }
}

} // verus!
