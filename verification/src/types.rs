//! The data model: variables, type descriptors, struct members, enumeration
//! variants and catalogue entries.

use crate::text::{contains, has_substring, lowercase_of, lowered, chars_of, same_chars};
use vstd::prelude::*;

verus! {

/// Arrays with more elements than this are not expanded.
pub const MAX_ARRAY_EXPAND: usize = 1000;

/// Descent into nested aggregates stops beyond this depth.
pub const MAX_NESTING_DEPTH: usize = 50;

// ---------------------------------------------------------------------------
// Kinds and encodings
// ---------------------------------------------------------------------------

/// What sort of type a descriptor describes.
#[derive(Debug, Clone, Copy, PartialEq, Eq, Structural)]
pub enum TypeKind {
    Primitive,
    Struct,
    Union,
    Enum,
    Array,
    Pointer,
    Typedef,
}

impl TypeKind {
    /// The lower-case name of the kind.
    pub open spec fn label(self) -> Seq<char> {
        match self {
            TypeKind::Primitive => "primitive"@,
            TypeKind::Struct => "struct"@,
            TypeKind::Union => "union"@,
            TypeKind::Enum => "enum"@,
            TypeKind::Array => "array"@,
            TypeKind::Pointer => "pointer"@,
            TypeKind::Typedef => "typedef"@,
        }
    }

    /// The lower-case name of the kind.
    pub fn to_string(&self) -> (r: String)
        ensures
            r@ == self.label(),
    {
        match self {
            TypeKind::Primitive => "primitive".to_owned(),
            TypeKind::Struct => "struct".to_owned(),
            TypeKind::Union => "union".to_owned(),
            TypeKind::Enum => "enum".to_owned(),
            TypeKind::Array => "array".to_owned(),
            TypeKind::Pointer => "pointer".to_owned(),
            TypeKind::Typedef => "typedef".to_owned(),
        }
    }
}

/// The bit order in which a toolchain counts bitfield offsets.
#[derive(Debug, Clone, Copy, PartialEq, Eq, Structural)]
pub enum Endianness {
    Little,
    Big,
}

impl Default for Endianness {
    fn default() -> (r: Self)
        ensures
            r == Endianness::Little,
    {
        Endianness::Little
    }
}

/// How the bits of a scalar are to be read.
#[derive(Debug, Clone, Copy, PartialEq, Eq, Structural)]
pub enum TypeEncoding {
    Unsigned,
    Signed,
    Float,
}

impl Default for TypeEncoding {
    fn default() -> (r: Self)
        ensures
            r == TypeEncoding::Unsigned,
    {
        TypeEncoding::Unsigned
    }
}

impl TypeEncoding {
    /// The lower-case name of the encoding.
    pub open spec fn label(self) -> Seq<char> {
        match self {
            TypeEncoding::Unsigned => "unsigned"@,
            TypeEncoding::Signed => "signed"@,
            TypeEncoding::Float => "float"@,
        }
    }

    /// The lower-case name of the encoding.
    pub fn to_string(&self) -> (r: String)
        ensures
            r@ == self.label(),
    {
        match self {
            TypeEncoding::Unsigned => "unsigned".to_owned(),
            TypeEncoding::Signed => "signed".to_owned(),
            TypeEncoding::Float => "float".to_owned(),
        }
    }
}

// ---------------------------------------------------------------------------
// Struct members
// ---------------------------------------------------------------------------

/// One member of a struct or union.
#[derive(Debug)]
pub struct StructMember {
    pub name: String,
    pub offset: usize,
    pub ty_name: String,
    pub type_size: usize,
    pub type_offset: Option<u64>,
    pub bit_offset: Option<usize>,
    pub bit_size: Option<usize>,
}

/// What a `StructMember` holds.
pub struct MemberView {
    pub name: Seq<char>,
    pub offset: usize,
    pub ty_name: Seq<char>,
    pub type_size: usize,
    pub type_offset: Option<u64>,
    pub bit_offset: Option<usize>,
    pub bit_size: Option<usize>,
}

impl MemberView {
    /// A member is a bitfield exactly when it has a bit size.
    pub open spec fn is_bitfield(self) -> bool {
        self.bit_size is Some
    }
}

impl View for StructMember {
    type V = MemberView;

    open spec fn view(&self) -> MemberView {
        MemberView {
            name: self.name@,
            offset: self.offset,
            ty_name: self.ty_name@,
            type_size: self.type_size,
            type_offset: self.type_offset,
            bit_offset: self.bit_offset,
            bit_size: self.bit_size,
        }
    }
}

impl Clone for StructMember {
    fn clone(&self) -> (r: Self)
        ensures
            r@ == self@,
    {
        StructMember {
            name: self.name.clone(),
            offset: self.offset,
            ty_name: self.ty_name.clone(),
            type_size: self.type_size,
            type_offset: self.type_offset,
            bit_offset: self.bit_offset,
            bit_size: self.bit_size,
        }
    }
}

/// The bit offset counted from the other end of a container of
/// `container_bits` bits.
pub open spec fn mirrored_bit_offset(container_bits: usize, raw: usize, bit_size: usize) -> int {
    container_bits - raw - bit_size
}

impl StructMember {
    /// A member at `offset` with no type reference and no bit position.
    pub fn new(name: String, offset: usize, ty_name: String, type_size: usize) -> (r: Self)
        ensures
            r@ == (MemberView {
                name: name@,
                offset,
                ty_name: ty_name@,
                type_size,
                type_offset: None,
                bit_offset: None,
                bit_size: None,
            }),
    {
        StructMember {
            name,
            offset,
            ty_name: ty_name,
            type_size,
            type_offset: None,
            bit_offset: None,
            bit_size: None,
        }
    }

    /// The same member, referring to the type stored under `type_offset`.
    pub fn with_type_offset(self, type_offset: u64) -> (r: Self)
        ensures
            r@ == (MemberView { type_offset: Some(type_offset), ..self@ }),
    {
        let mut m = self;
        m.type_offset = Some(type_offset);
        m
    }

    /// The same member as a bitfield of `bit_size` bits at `bit_offset`.
    pub fn with_bitfield(self, bit_offset: usize, bit_size: usize) -> (r: Self)
        ensures
            r@ == (MemberView { bit_offset: Some(bit_offset), bit_size: Some(bit_size), ..self@ }),
    {
        let mut m = self;
        m.bit_offset = Some(bit_offset);
        m.bit_size = Some(bit_size);
        m
    }

    /// Whether the member is a bitfield.
    pub fn is_bitfield(&self) -> (r: bool)
        ensures
            r == self@.is_bitfield(),
    {
        self.bit_size.is_some()
    }

    /// The bit offset as the target counts it. With `Endianness::Big` it is
    /// the recorded offset. With `Endianness::Little` the recorded offset
    /// counts from the most significant bit of the container and is
    /// mirrored; a bitfield that does not fit in the container has no
    /// mirrored offset. A member without a recorded offset has none.
    pub fn get_effective_bit_offset(&self, endianness: Endianness, container_size_bits: usize) -> (r:
        Option<usize>)
        ensures
            r == match self.bit_offset {
                None => None::<usize>,
                Some(raw) => match endianness {
                    Endianness::Big => Some(raw),
                    Endianness::Little => {
                        let width = match self.bit_size {
                            Some(w) => w,
                            None => 0usize,
                        };
                        if mirrored_bit_offset(container_size_bits, raw, width) >= 0 {
                            Some(mirrored_bit_offset(container_size_bits, raw, width) as usize)
                        } else {
                            None
                        }
                    },
                },
            },
    {
        match self.bit_offset {
            None => None,
            Some(raw) => match endianness {
                Endianness::Big => Some(raw),
                Endianness::Little => {
                    let width = match self.bit_size {
                        Some(w) => w,
                        None => 0,
                    };
                    if raw <= container_size_bits && width <= container_size_bits - raw {
                        Some(container_size_bits - raw - width)
                    } else {
                        None
                    }
                },
            },
        }
    }
}

// ---------------------------------------------------------------------------
// Enumeration variants
// ---------------------------------------------------------------------------

/// One named value of an enumeration.
#[derive(Debug)]
pub struct EnumVariant {
    pub name: String,
    pub value: i64,
}

/// What an `EnumVariant` holds.
pub struct VariantView {
    pub name: Seq<char>,
    pub value: i64,
}

impl View for EnumVariant {
    type V = VariantView;

    open spec fn view(&self) -> VariantView {
        VariantView { name: self.name@, value: self.value }
    }
}

impl Clone for EnumVariant {
    fn clone(&self) -> (r: Self)
        ensures
            r@ == self@,
    {
        EnumVariant { name: self.name.clone(), value: self.value }
    }
}

impl EnumVariant {
    /// The variant named `name` with the value `value`.
    pub fn new(name: String, value: i64) -> (r: Self)
        ensures
            r@ == (VariantView { name: name@, value }),
    {
        EnumVariant { name, value }
    }
}


// ---------------------------------------------------------------------------
// Type descriptors
// ---------------------------------------------------------------------------

/// The descriptor of one type of the image. `offset` is the place in the
/// debugging information where the type was defined; it identifies the
/// descriptor within one parse, and is 0 for a descriptor that was made up.
/// `pointer_target` is the element of an array or the target of a pointer.
#[derive(Debug)]
pub struct TypeInfo {
    pub name: String,
    pub size: usize,
    pub encoding: TypeEncoding,
    pub kind: TypeKind,
    pub members: Vec<StructMember>,
    pub variants: Vec<EnumVariant>,
    pub array_dims: Vec<usize>,
    pub pointer_target: Option<Box<TypeInfo>>,
    pub offset: u64,
}

/// What a `TypeInfo` holds.
pub struct TypeView {
    pub name: Seq<char>,
    pub size: usize,
    pub encoding: TypeEncoding,
    pub kind: TypeKind,
    pub members: Seq<MemberView>,
    pub variants: Seq<VariantView>,
    pub array_dims: Seq<usize>,
    pub pointer_target: Option<Box<TypeView>>,
    pub offset: u64,
}

/// The views of a list of members.
pub open spec fn member_views(s: Seq<StructMember>) -> Seq<MemberView> {
    Seq::new(s.len(), |i: int| s[i]@)
}

/// The views of a list of variants.
pub open spec fn variant_views(s: Seq<EnumVariant>) -> Seq<VariantView> {
    Seq::new(s.len(), |i: int| s[i]@)
}

impl View for TypeInfo {
    type V = TypeView;

    open spec fn view(&self) -> TypeView
        decreases self,
    {
        TypeView {
            name: self.name@,
            size: self.size,
            encoding: self.encoding,
            kind: self.kind,
            members: member_views(self.members@),
            variants: variant_views(self.variants@),
            array_dims: self.array_dims@,
            pointer_target: match self.pointer_target {
                Some(b) => Some(Box::new((*b).view())),
                None => None,
            },
            offset: self.offset,
        }
    }
}

impl TypeView {
    /// A descriptor of kind `Primitive` with nothing but a name, a size and
    /// an encoding.
    pub open spec fn plain(name: Seq<char>, size: usize, encoding: TypeEncoding) -> TypeView {
        TypeView {
            name,
            size,
            encoding,
            kind: TypeKind::Primitive,
            members: Seq::empty(),
            variants: Seq::empty(),
            array_dims: Seq::empty(),
            pointer_target: None,
            offset: 0,
        }
    }

    /// Whether the descriptor has the shape of its kind: an element exactly
    /// where it is an array or a pointer, members only where it is a
    /// struct or a union, variants only where it is an enumeration.
    pub open spec fn has_shape(self) -> bool {
        &&& self.pointer_target is Some <==> (self.kind == TypeKind::Array || self.kind
            == TypeKind::Pointer)
        &&& self.members.len() > 0 ==> (self.kind == TypeKind::Struct || self.kind
            == TypeKind::Union)
        &&& self.variants.len() > 0 ==> self.kind == TypeKind::Enum
    }

    /// How many descriptors hang below this one through `pointer_target`.
    pub open spec fn nesting(self) -> nat
        decreases self,
    {
        match self.pointer_target {
            Some(b) => 1 + (*b).nesting(),
            None => 0,
        }
    }
}

/// A copy of `v`.
pub fn clone_members(v: &Vec<StructMember>) -> (r: Vec<StructMember>)
    ensures
        member_views(r@) == member_views(v@),
{
    let mut r: Vec<StructMember> = Vec::new();
    let mut i: usize = 0;
    while i < v.len()
        invariant
            i <= v.len(),
            r.len() == i,
            member_views(r@) == member_views(v@.take(i as int)),
        decreases v.len() - i,
    {
        let ghost before = r@;
        let c = v[i].clone();
        r.push(c);
        i += 1;
        proof {
            let a = member_views(r@);
            let b = member_views(v@.take(i as int));
            assert(a.len() == b.len());
            assert forall|k: int| 0 <= k < a.len() implies a[k] == b[k] by {
                if k < i - 1 {
                    assert(member_views(before)[k] == member_views(v@.take(i - 1))[k]);
                }
            }
            assert(a =~= b);
        }
    }
    proof {
        assert(v@.take(v.len() as int) =~= v@);
    }
    r
}

/// A copy of `v`.
pub fn clone_variants(v: &Vec<EnumVariant>) -> (r: Vec<EnumVariant>)
    ensures
        variant_views(r@) == variant_views(v@),
{
    let mut r: Vec<EnumVariant> = Vec::new();
    let mut i: usize = 0;
    while i < v.len()
        invariant
            i <= v.len(),
            r.len() == i,
            variant_views(r@) == variant_views(v@.take(i as int)),
        decreases v.len() - i,
    {
        let ghost before = r@;
        let c = v[i].clone();
        r.push(c);
        i += 1;
        proof {
            let a = variant_views(r@);
            let b = variant_views(v@.take(i as int));
            assert(a.len() == b.len());
            assert forall|k: int| 0 <= k < a.len() implies a[k] == b[k] by {
                if k < i - 1 {
                    assert(variant_views(before)[k] == variant_views(v@.take(i - 1))[k]);
                }
            }
            assert(a =~= b);
        }
    }
    proof {
        assert(v@.take(v.len() as int) =~= v@);
    }
    r
}

/// A copy of `v`.
pub fn clone_sizes(v: &Vec<usize>) -> (r: Vec<usize>)
    ensures
        r@ == v@,
{
    let mut r: Vec<usize> = Vec::new();
    let mut i: usize = 0;
    while i < v.len()
        invariant
            i <= v.len(),
            r@ == v@.take(i as int),
        decreases v.len() - i,
    {
        r.push(v[i]);
        i += 1;
    }
    r
}

impl Clone for TypeInfo {
    fn clone(&self) -> (r: Self)
        ensures
            r@ == self@,
        decreases self,
    {
        let target = match &self.pointer_target {
            Some(b) => {
                let inner: TypeInfo = (**b).clone();
                Some(Box::new(inner))
            },
            None => None,
        };
        TypeInfo {
            name: self.name.clone(),
            size: self.size,
            encoding: self.encoding,
            kind: self.kind,
            members: clone_members(&self.members),
            variants: clone_variants(&self.variants),
            array_dims: clone_sizes(&self.array_dims),
            pointer_target: target,
            offset: self.offset,
        }
    }
}

impl TypeInfo {
    /// A primitive type.
    pub fn new(name: String, size: usize, encoding: TypeEncoding) -> (r: Self)
        ensures
            r@ == TypeView::plain(name@, size, encoding),
            r@.has_shape(),
    {
        Self::primitive(name, size, encoding)
    }

    /// A primitive type.
    pub fn primitive(name: String, size: usize, encoding: TypeEncoding) -> (r: Self)
        ensures
            r@ == TypeView::plain(name@, size, encoding),
            r@.has_shape(),
    {
        let r = TypeInfo {
            name,
            size,
            encoding,
            kind: TypeKind::Primitive,
            members: Vec::new(),
            variants: Vec::new(),
            array_dims: Vec::new(),
            pointer_target: None,
            offset: 0,
        };
        proof {
            assert(r@.members =~= Seq::empty());
            assert(r@.variants =~= Seq::empty());
            assert(r@.array_dims =~= Seq::empty());
        }
        r
    }

    /// A struct with the given members, defined at `offset`.
    pub fn struct_type(name: String, size: usize, members: Vec<StructMember>, offset: u64) -> (r:
        Self)
        ensures
            r@ == (TypeView {
                kind: TypeKind::Struct,
                members: member_views(members@),
                offset,
                ..TypeView::plain(name@, size, TypeEncoding::Unsigned)
            }),
            r@.has_shape(),
    {
        let r = TypeInfo {
            name,
            size,
            encoding: TypeEncoding::Unsigned,
            kind: TypeKind::Struct,
            members,
            variants: Vec::new(),
            array_dims: Vec::new(),
            pointer_target: None,
            offset,
        };
        proof {
            assert(r@.variants =~= Seq::empty());
            assert(r@.array_dims =~= Seq::empty());
        }
        r
    }

    /// A union with the given members, defined at `offset`.
    pub fn union_type(name: String, size: usize, members: Vec<StructMember>, offset: u64) -> (r:
        Self)
        ensures
            r@ == (TypeView {
                kind: TypeKind::Union,
                members: member_views(members@),
                offset,
                ..TypeView::plain(name@, size, TypeEncoding::Unsigned)
            }),
            r@.has_shape(),
    {
        let r = TypeInfo {
            name,
            size,
            encoding: TypeEncoding::Unsigned,
            kind: TypeKind::Union,
            members,
            variants: Vec::new(),
            array_dims: Vec::new(),
            pointer_target: None,
            offset,
        };
        proof {
            assert(r@.variants =~= Seq::empty());
            assert(r@.array_dims =~= Seq::empty());
        }
        r
    }

    /// An enumeration with the given variants, defined at `offset`.
    pub fn enum_type(
        name: String,
        size: usize,
        encoding: TypeEncoding,
        variants: Vec<EnumVariant>,
        offset: u64,
    ) -> (r: Self)
        ensures
            r@ == (TypeView {
                kind: TypeKind::Enum,
                variants: variant_views(variants@),
                offset,
                ..TypeView::plain(name@, size, encoding)
            }),
            r@.has_shape(),
    {
        let r = TypeInfo {
            name,
            size,
            encoding,
            kind: TypeKind::Enum,
            members: Vec::new(),
            variants,
            array_dims: Vec::new(),
            pointer_target: None,
            offset,
        };
        proof {
            assert(r@.members =~= Seq::empty());
            assert(r@.array_dims =~= Seq::empty());
        }
        r
    }

    /// An array of `element_type` with dimensions `dims`, outermost first,
    /// defined at `offset`. It takes the encoding of its element.
    pub fn array_type(
        name: String,
        size: usize,
        element_type: TypeInfo,
        dims: Vec<usize>,
        offset: u64,
    ) -> (r: Self)
        ensures
            r@ == (TypeView {
                kind: TypeKind::Array,
                array_dims: dims@,
                pointer_target: Some(Box::new(element_type@)),
                offset,
                ..TypeView::plain(name@, size, element_type.encoding)
            }),
            r@.has_shape(),
    {
        let r = TypeInfo {
            name,
            size,
            encoding: element_type.encoding,
            kind: TypeKind::Array,
            members: Vec::new(),
            variants: Vec::new(),
            array_dims: dims,
            pointer_target: Some(Box::new(element_type)),
            offset,
        };
        proof {
            assert(r@.members =~= Seq::empty());
            assert(r@.variants =~= Seq::empty());
        }
        r
    }

    /// A pointer to `target`, defined at `offset`.
    pub fn pointer_type(name: String, size: usize, target: TypeInfo, offset: u64) -> (r: Self)
        ensures
            r@ == (TypeView {
                kind: TypeKind::Pointer,
                pointer_target: Some(Box::new(target@)),
                offset,
                ..TypeView::plain(name@, size, TypeEncoding::Unsigned)
            }),
            r@.has_shape(),
    {
        let r = TypeInfo {
            name,
            size,
            encoding: TypeEncoding::Unsigned,
            kind: TypeKind::Pointer,
            members: Vec::new(),
            variants: Vec::new(),
            array_dims: Vec::new(),
            pointer_target: Some(Box::new(target)),
            offset,
        };
        proof {
            assert(r@.members =~= Seq::empty());
            assert(r@.variants =~= Seq::empty());
            assert(r@.array_dims =~= Seq::empty());
        }
        r
    }
}


// ---------------------------------------------------------------------------
// Variables
// ---------------------------------------------------------------------------

/// A named global data object of the image.
#[derive(Debug)]
pub struct Variable {
    pub name: String,
    pub address: u64,
    pub size: usize,
    pub ty_name: String,
    pub section: String,
    pub type_info: Option<TypeInfo>,
}

/// What a `Variable` holds.
pub struct VariableView {
    pub name: Seq<char>,
    pub address: u64,
    pub size: usize,
    pub ty_name: Seq<char>,
    pub section: Seq<char>,
    pub type_info: Option<TypeView>,
}

impl View for Variable {
    type V = VariableView;

    open spec fn view(&self) -> VariableView {
        VariableView {
            name: self.name@,
            address: self.address,
            size: self.size,
            ty_name: self.ty_name@,
            section: self.section@,
            type_info: match self.type_info {
                Some(t) => Some(t@),
                None => None,
            },
        }
    }
}

impl Clone for Variable {
    fn clone(&self) -> (r: Self)
        ensures
            r@ == self@,
    {
        let info = match &self.type_info {
            Some(t) => Some(t.clone()),
            None => None,
        };
        Variable {
            name: self.name.clone(),
            address: self.address,
            size: self.size,
            ty_name: self.ty_name.clone(),
            section: self.section.clone(),
            type_info: info,
        }
    }
}

impl Variable {
    /// A variable without a resolved type.
    pub fn new(name: String, address: u64, size: usize, ty_name: String, section: String) -> (r:
        Self)
        ensures
            r@ == (VariableView {
                name: name@,
                address,
                size,
                ty_name: ty_name@,
                section: section@,
                type_info: None,
            }),
    {
        Variable { name, address, size, ty_name, section, type_info: None }
    }

    /// The same variable with `type_info` as its resolved type.
    pub fn with_type_info(self, type_info: TypeInfo) -> (r: Self)
        ensures
            r@ == (VariableView { type_info: Some(type_info@), ..self@ }),
    {
        let mut v = self;
        v.type_info = Some(type_info);
        v
    }
}

/// The views of a list of variables.
pub open spec fn variable_views(s: Seq<Variable>) -> Seq<VariableView> {
    Seq::new(s.len(), |i: int| s[i]@)
}

// ---------------------------------------------------------------------------
// Catalogue entries
// ---------------------------------------------------------------------------

/// One row of the catalogue: an addressable cell of a variable.
#[derive(Debug)]
pub struct A2lEntry {
    pub full_name: String,
    pub address: u64,
    pub size: usize,
    pub a2l_type: String,
    pub ty_name: String,
    pub bit_offset: Option<usize>,
    pub bit_size: Option<usize>,
    pub array_index: Option<Vec<usize>>,
}

/// What an `A2lEntry` holds.
pub struct EntryView {
    pub full_name: Seq<char>,
    pub address: u64,
    pub size: usize,
    pub a2l_type: Seq<char>,
    pub ty_name: Seq<char>,
    pub bit_offset: Option<usize>,
    pub bit_size: Option<usize>,
    pub array_index: Option<Seq<usize>>,
}

impl EntryView {
    /// An entry that is no bitfield and lies in no array.
    pub open spec fn plain(
        full_name: Seq<char>,
        address: u64,
        size: usize,
        a2l_type: Seq<char>,
        ty_name: Seq<char>,
    ) -> EntryView {
        EntryView {
            full_name,
            address,
            size,
            a2l_type,
            ty_name,
            bit_offset: None,
            bit_size: None,
            array_index: None,
        }
    }

    /// An entry is a bitfield exactly when it has a bit size.
    pub open spec fn is_bitfield(self) -> bool {
        self.bit_size is Some
    }
}

impl View for A2lEntry {
    type V = EntryView;

    open spec fn view(&self) -> EntryView {
        EntryView {
            full_name: self.full_name@,
            address: self.address,
            size: self.size,
            a2l_type: self.a2l_type@,
            ty_name: self.ty_name@,
            bit_offset: self.bit_offset,
            bit_size: self.bit_size,
            array_index: match self.array_index {
                Some(v) => Some(v@),
                None => None,
            },
        }
    }
}

impl Clone for A2lEntry {
    fn clone(&self) -> (r: Self)
        ensures
            r@ == self@,
    {
        let index = match &self.array_index {
            Some(v) => Some(clone_sizes(v)),
            None => None,
        };
        A2lEntry {
            full_name: self.full_name.clone(),
            address: self.address,
            size: self.size,
            a2l_type: self.a2l_type.clone(),
            ty_name: self.ty_name.clone(),
            bit_offset: self.bit_offset,
            bit_size: self.bit_size,
            array_index: index,
        }
    }
}

impl A2lEntry {
    /// An entry that is no bitfield and lies in no array.
    pub fn new(full_name: String, address: u64, size: usize, a2l_type: String, ty_name: String) -> (r:
        Self)
        ensures
            r@ == EntryView::plain(full_name@, address, size, a2l_type@, ty_name@),
    {
        A2lEntry {
            full_name,
            address,
            size,
            a2l_type,
            ty_name,
            bit_offset: None,
            bit_size: None,
            array_index: None,
        }
    }

    /// The same entry as a bitfield of `bit_size` bits at `bit_offset`.
    pub fn with_bitfield(self, bit_offset: usize, bit_size: usize) -> (r: Self)
        ensures
            r@ == (EntryView { bit_offset: Some(bit_offset), bit_size: Some(bit_size), ..self@ }),
    {
        let mut e = self;
        e.bit_offset = Some(bit_offset);
        e.bit_size = Some(bit_size);
        e
    }

    /// The same entry at position `index` of an array.
    pub fn with_array_index(self, index: Vec<usize>) -> (r: Self)
        ensures
            r@ == (EntryView { array_index: Some(index@), ..self@ }),
    {
        let mut e = self;
        e.array_index = Some(index);
        e
    }

    /// Whether the entry is a bitfield.
    pub fn is_bitfield(&self) -> (r: bool)
        ensures
            r == self@.is_bitfield(),
    {
        self.bit_size.is_some()
    }
}

/// The views of a list of entries.
pub open spec fn entry_views(s: Seq<A2lEntry>) -> Seq<EntryView> {
    Seq::new(s.len(), |i: int| s[i]@)
}

/// The views of the entries that a list of references points to.
pub open spec fn entry_ref_views(s: Seq<&A2lEntry>) -> Seq<EntryView> {
    Seq::new(s.len(), |i: int| s[i]@)
}

/// The greatest position below `upto` whose entry is named `name`.
pub open spec fn last_named(entries: Seq<EntryView>, name: Seq<char>, upto: int) -> Option<int>
    decreases upto,
{
    if upto <= 0 {
        None
    } else if entries[upto - 1].full_name == name {
        Some(upto - 1)
    } else {
        last_named(entries, name, upto - 1)
    }
}

/// The entries of `entries` whose lower-case name holds the lower-case form
/// of `query`, in their order.
pub open spec fn matching_entries(entries: Seq<EntryView>, query: Seq<char>) -> Seq<EntryView>
    decreases entries.len(),
{
    if entries.len() == 0 {
        Seq::empty()
    } else {
        let head = matching_entries(entries.drop_last(), query);
        if contains(lowercase_of(entries.last().full_name), lowercase_of(query)) {
            head.push(entries.last())
        } else {
            head
        }
    }
}

/// The catalogue: entries in the order in which they were added.
#[derive(Debug)]
pub struct A2lEntryStore {
    pub entries: Vec<A2lEntry>,
}

impl View for A2lEntryStore {
    type V = Seq<EntryView>;

    open spec fn view(&self) -> Seq<EntryView> {
        entry_views(self.entries@)
    }
}

impl Clone for A2lEntryStore {
    fn clone(&self) -> (r: Self)
        ensures
            r@ == self@,
    {
        let mut entries: Vec<A2lEntry> = Vec::new();
        let mut i: usize = 0;
        while i < self.entries.len()
            invariant
                i <= self.entries.len(),
                entries.len() == i,
                forall|k: int| 0 <= k < i ==> (#[trigger] entries@[k])@ == self.entries@[k]@,
            decreases self.entries.len() - i,
        {
            entries.push(self.entries[i].clone());
            i += 1;
        }
        let r = A2lEntryStore { entries };
        proof {
            assert(r@ =~= self@);
        }
        r
    }
}

impl Default for A2lEntryStore {
    fn default() -> (r: Self)
        ensures
            r@ == Seq::<EntryView>::empty(),
    {
        Self::new()
    }
}

impl A2lEntryStore {
    /// The empty catalogue.
    pub fn new() -> (r: Self)
        ensures
            r@ == Seq::<EntryView>::empty(),
    {
        let r = A2lEntryStore { entries: Vec::new() };
        proof {
            assert(r@ =~= Seq::<EntryView>::empty());
        }
        r
    }

    /// Appends `entry`.
    pub fn add(&mut self, entry: A2lEntry)
        ensures
            final(self)@ == old(self)@.push(entry@),
    {
        self.entries.push(entry);
        proof {
            assert(self@ =~= old(self)@.push(entry@));
        }
    }

    /// The number of entries.
    pub fn len(&self) -> (r: usize)
        ensures
            r == self@.len(),
    {
        self.entries.len()
    }

    /// Whether the catalogue holds no entry.
    pub fn is_empty(&self) -> (r: bool)
        ensures
            r == (self@.len() == 0),
    {
        self.entries.len() == 0
    }

    /// The entry named `name`; of several, the one added last.
    pub fn get_by_name(&self, name: &str) -> (r: Option<&A2lEntry>)
        ensures
            match last_named(self@, name@, self@.len() as int) {
                Some(i) => r.is_some() && *r.unwrap() == self.entries@[i],
                None => r.is_none(),
            },
    {
        let wanted = chars_of(name);
        let mut i: usize = self.entries.len();
        while i > 0
            invariant
                i <= self.entries.len(),
                wanted@ == name@,
                last_named(self@, name@, i as int) == last_named(self@, name@, self@.len() as int),
            decreases i,
        {
            let current = chars_of(self.entries[i - 1].full_name.as_str());
            if same_chars(current.as_slice(), wanted.as_slice()) {
                return Some(&self.entries[i - 1]);
            }
            i -= 1;
        }
        None
    }

    /// The entries whose name holds `query`, letter case set aside, in
    /// catalogue order.
    pub fn search(&self, query: &str) -> (r: Vec<&A2lEntry>)
        ensures
            entry_ref_views(r@) == matching_entries(self@, query@),
    {
        let needle = lowered(query);
        let mut r: Vec<&A2lEntry> = Vec::new();
        let mut i: usize = 0;
        while i < self.entries.len()
            invariant
                i <= self.entries.len(),
                needle@ == lowercase_of(query@),
                entry_ref_views(r@) == matching_entries(self@.take(i as int), query@),
            decreases self.entries.len() - i,
        {
            let hay = lowered(self.entries[i].full_name.as_str());
            proof {
                let next = self@.take(i + 1);
                assert(next.drop_last() =~= self@.take(i as int));
                assert(next.last() == self.entries@[i as int]@);
            }
            if has_substring(hay.as_slice(), needle.as_slice()) {
                let ghost before = r@;
                r.push(&self.entries[i]);
                proof {
                    assert(entry_ref_views(r@) =~= entry_ref_views(before).push(
                        self.entries@[i as int]@,
                    ));
                }
            }
            i += 1;
        }
        proof {
            assert(self@.take(self@.len() as int) =~= self@);
        }
        r
    }
}

// ---------------------------------------------------------------------------
// Cache records
// ---------------------------------------------------------------------------

/// What is remembered of one parsed image.
#[derive(Debug)]
pub struct CacheEntry {
    pub file_hash: String,
    pub file_path: String,
    pub file_size: u64,
    pub modified_time: u64,
    pub variable_count: usize,
    pub parse_time_ms: u64,
    pub created_at: i64,
    pub has_dwarf: bool,
}

impl CacheEntry {
    /// A record made at the time `created_at`, in seconds since the epoch.
    pub fn new(
        file_hash: String,
        file_path: String,
        file_size: u64,
        modified_time: u64,
        variable_count: usize,
        parse_time_ms: u64,
        created_at: i64,
        has_dwarf: bool,
    ) -> (r: Self)
        ensures
            r.file_hash@ == file_hash@,
            r.file_path@ == file_path@,
            r.file_size == file_size,
            r.modified_time == modified_time,
            r.variable_count == variable_count,
            r.parse_time_ms == parse_time_ms,
            r.created_at == created_at,
            r.has_dwarf == has_dwarf,
    {
        CacheEntry {
            file_hash,
            file_path,
            file_size,
            modified_time,
            variable_count,
            parse_time_ms,
            created_at,
            has_dwarf,
        }
    }
}


// ---------------------------------------------------------------------------
// Scalar tags
// ---------------------------------------------------------------------------

/// The A2L scalar tag for a cell of `size` bytes with the given encoding.
pub open spec fn scalar_tag(size: usize, encoding: TypeEncoding) -> Seq<char> {
    match (size, encoding) {
        (1, TypeEncoding::Unsigned) => "UBYTE"@,
        (1, TypeEncoding::Signed) => "SBYTE"@,
        (2, TypeEncoding::Unsigned) => "UWORD"@,
        (2, TypeEncoding::Signed) => "SWORD"@,
        (4, TypeEncoding::Unsigned) => "ULONG"@,
        (4, TypeEncoding::Signed) => "SLONG"@,
        (4, TypeEncoding::Float) => "FLOAT32_IEEE"@,
        (8, TypeEncoding::Unsigned) => "A_UINT64"@,
        (8, TypeEncoding::Signed) => "A_INT64"@,
        (8, TypeEncoding::Float) => "FLOAT64_IEEE"@,
        _ => "UBYTE"@,
    }
}

/// The A2L scalar tag for a cell of `size` bytes with the given encoding.
pub fn infer_a2l_type_from_encoding(size: usize, encoding: TypeEncoding) -> (r: &'static str)
    ensures
        r@ == scalar_tag(size, encoding),
{
    match encoding {
        TypeEncoding::Unsigned => {
            if size == 1 {
                "UBYTE"
            } else if size == 2 {
                "UWORD"
            } else if size == 4 {
                "ULONG"
            } else if size == 8 {
                "A_UINT64"
            } else {
                "UBYTE"
            }
        },
        TypeEncoding::Signed => {
            if size == 1 {
                "SBYTE"
            } else if size == 2 {
                "SWORD"
            } else if size == 4 {
                "SLONG"
            } else if size == 8 {
                "A_INT64"
            } else {
                "UBYTE"
            }
        },
        TypeEncoding::Float => {
            if size == 4 {
                "FLOAT32_IEEE"
            } else if size == 8 {
                "FLOAT64_IEEE"
            } else {
                "UBYTE"
            }
        },
    }
}

/// The A2L scalar tag guessed from a lower-case type name and a size: the
/// first rule whose word the name holds decides, and the size where none
/// does.
pub open spec fn tag_for_lowered(size: usize, lower: Seq<char>) -> Seq<char> {
    if contains(lower, "float"@) || contains(lower, "double"@) {
        if size == 4 {
            "FLOAT32_IEEE"@
        } else {
            "FLOAT64_IEEE"@
        }
    } else if contains(lower, "u8"@) || contains(lower, "uint8"@) || contains(lower, "char"@) {
        "UBYTE"@
    } else if contains(lower, "u16"@) || contains(lower, "uint16"@) || contains(lower, "wchar"@) {
        "UWORD"@
    } else if contains(lower, "u32"@) || contains(lower, "uint32"@) {
        "ULONG"@
    } else if contains(lower, "u64"@) || contains(lower, "uint64"@) {
        "A_UINT64"@
    } else if contains(lower, "i8"@) || contains(lower, "int8"@) || contains(lower, "sbyte"@) {
        "SBYTE"@
    } else if contains(lower, "i16"@) || contains(lower, "int16"@) || contains(lower, "short"@) {
        "SWORD"@
    } else if contains(lower, "i32"@) || contains(lower, "int32"@) || contains(lower, "int"@) {
        "SLONG"@
    } else if contains(lower, "i64"@) || contains(lower, "int64"@) {
        "A_INT64"@
    } else {
        scalar_tag(size, TypeEncoding::Unsigned)
    }
}

/// Whether `hay` holds the word `word`.
pub fn holds(hay: &[char], word: &str) -> (r: bool)
    ensures
        r == contains(hay@, word@),
{
    let w = chars_of(word);
    has_substring(hay, w.as_slice())
}

/// The A2L scalar tag guessed from the lower-case type name `lower` and
/// `size`.
pub fn infer_a2l_type_lowered(size: usize, lower: &[char]) -> (r: &'static str)
    ensures
        r@ == tag_for_lowered(size, lower@),
{
    if holds(lower, "float") || holds(lower, "double") {
        if size == 4 {
            "FLOAT32_IEEE"
        } else {
            "FLOAT64_IEEE"
        }
    } else if holds(lower, "u8") || holds(lower, "uint8") || holds(lower, "char") {
        "UBYTE"
    } else if holds(lower, "u16") || holds(lower, "uint16") || holds(lower, "wchar") {
        "UWORD"
    } else if holds(lower, "u32") || holds(lower, "uint32") {
        "ULONG"
    } else if holds(lower, "u64") || holds(lower, "uint64") {
        "A_UINT64"
    } else if holds(lower, "i8") || holds(lower, "int8") || holds(lower, "sbyte") {
        "SBYTE"
    } else if holds(lower, "i16") || holds(lower, "int16") || holds(lower, "short") {
        "SWORD"
    } else if holds(lower, "i32") || holds(lower, "int32") || holds(lower, "int") {
        "SLONG"
    } else if holds(lower, "i64") || holds(lower, "int64") {
        "A_INT64"
    } else {
        infer_a2l_type_from_encoding(size, TypeEncoding::Unsigned)
    }
}

/// The A2L scalar tag guessed from a type name, letter case set aside, and
/// a size.
pub fn infer_a2l_type(size: usize, ty_name: &str) -> (r: &'static str)
    ensures
        r@ == tag_for_lowered(size, lowercase_of(ty_name@)),
{
    let lower = lowered(ty_name);
    infer_a2l_type_lowered(size, lower.as_slice())
}

} // verus!
