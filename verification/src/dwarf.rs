//! The debug-info parser: from the entries of the debugging information to
//! the repository of type descriptors.

use crate::dwarf_raw::{
    die_bitfield, die_dimension, die_encoding, die_enum_value, die_member_location, die_name,
    die_size, die_type_offset, read_bitfield, read_dimension, read_encoding, read_enum_value,
    read_member_location, read_name, read_size, read_type_offset, section_offset, RawDie, RawUnit,
    DW_TAG_ARRAY_TYPE, DW_TAG_BASE_TYPE, DW_TAG_CONST_TYPE, DW_TAG_ENUMERATION_TYPE,
    DW_TAG_ENUMERATOR, DW_TAG_MEMBER, DW_TAG_POINTER_TYPE, DW_TAG_STRUCTURE_TYPE,
    DW_TAG_SUBRANGE_TYPE, DW_TAG_TYPEDEF, DW_TAG_UNION_TYPE, DW_TAG_VARIABLE,
    DW_TAG_VOLATILE_TYPE,
};
use crate::expand::repo_view;
use crate::number::{decimal, hex_lower, push_decimal, push_number, zero_padded};
use crate::text::{chars_of, push_str, same_chars, string_of};
use crate::types::{
    member_views, variant_views, EnumVariant, MemberView, StructMember, TypeEncoding, TypeInfo,
    TypeKind, TypeView, VariantView,
};
use std::collections::HashMap;
use vstd::prelude::*;

verus! {

/// How many descriptors of each sort the debugging information held.
#[derive(Debug, Clone, Copy, PartialEq, Eq, Structural)]
pub struct DwarfStats {
    pub base_types: usize,
    pub structs: usize,
    pub unions: usize,
    pub enums: usize,
    pub arrays: usize,
    pub pointers: usize,
    pub typedefs: usize,
    pub variables: usize,
    pub struct_members: usize,
    pub enum_values: usize,
}

impl Default for DwarfStats {
    fn default() -> (r: Self)
        ensures
            r == no_stats(),
    {
        DwarfStats {
            base_types: 0,
            structs: 0,
            unions: 0,
            enums: 0,
            arrays: 0,
            pointers: 0,
            typedefs: 0,
            variables: 0,
            struct_members: 0,
            enum_values: 0,
        }
    }
}

/// The counts before any entry was seen.
pub open spec fn no_stats() -> DwarfStats {
    DwarfStats {
        base_types: 0,
        structs: 0,
        unions: 0,
        enums: 0,
        arrays: 0,
        pointers: 0,
        typedefs: 0,
        variables: 0,
        struct_members: 0,
        enum_values: 0,
    }
}

/// One more than `n`, or `n` if no greater count can be held.
pub open spec fn bumped(n: usize) -> usize {
    if n == usize::MAX {
        n
    } else {
        (n + 1) as usize
    }
}

fn bump(n: usize) -> (r: usize)
    ensures
        r == bumped(n),
{
    if n == usize::MAX {
        n
    } else {
        n + 1
    }
}

// ---------------------------------------------------------------------------
// The children of an entry
// ---------------------------------------------------------------------------

/// Whether entry `k` lies one level below entry `p` in the tree.
pub open spec fn is_direct_child(dies: Seq<RawDie>, p: int, k: int) -> bool {
    dies[k].depth as int == dies[p].depth as int + 1
}

/// The member that the entry `d` of a unit at `unit_offset` describes; a
/// member of a union lies at offset 0.
pub open spec fn member_of(d: RawDie, name: Seq<char>, unit_offset: usize, in_union: bool)
    -> MemberView {
    MemberView {
        name,
        offset: if in_union {
            0
        } else {
            die_member_location(d)
        },
        ty_name: "unknown"@,
        type_size: die_size(d),
        type_offset: Some(die_type_offset(d, unit_offset)),
        bit_offset: match die_bitfield(d) {
            Some(b) => Some(b.0),
            None => None,
        },
        bit_size: match die_bitfield(d) {
            Some(b) => Some(b.1),
            None => None,
        },
    }
}

/// The members among the entries from `k` on that are children of entry
/// `p`: the named member entries one level below `p`, up to the first
/// entry that does not lie below `p`.
pub open spec fn members_from(
    dies: Seq<RawDie>,
    p: int,
    k: int,
    unit_offset: usize,
    in_union: bool,
) -> Seq<MemberView>
    decreases dies.len() - k,
{
    if k < 0 || k >= dies.len() || dies[k].depth <= dies[p].depth {
        Seq::empty()
    } else {
        let rest = members_from(dies, p, k + 1, unit_offset, in_union);
        if is_direct_child(dies, p, k) && dies[k].tag == DW_TAG_MEMBER {
            match die_name(dies[k]) {
                Some(name) => seq![member_of(dies[k], name, unit_offset, in_union)] + rest,
                None => rest,
            }
        } else {
            rest
        }
    }
}

/// The variants among the entries from `k` on that are children of entry
/// `p`: the enumerator entries one level below `p` with a name and a
/// value.
pub open spec fn variants_from(dies: Seq<RawDie>, p: int, k: int) -> Seq<VariantView>
    decreases dies.len() - k,
{
    if k < 0 || k >= dies.len() || dies[k].depth <= dies[p].depth {
        Seq::empty()
    } else {
        let rest = variants_from(dies, p, k + 1);
        if is_direct_child(dies, p, k) && dies[k].tag == DW_TAG_ENUMERATOR {
            match (die_name(dies[k]), die_enum_value(dies[k])) {
                (Some(name), Some(value)) => seq![VariantView { name, value }] + rest,
                _ => rest,
            }
        } else {
            rest
        }
    }
}

/// The dimensions among the entries from `k` on that are children of
/// entry `p`: those of the subrange entries one level below `p`.
pub open spec fn dims_from(dies: Seq<RawDie>, p: int, k: int) -> Seq<usize>
    decreases dies.len() - k,
{
    if k < 0 || k >= dies.len() || dies[k].depth <= dies[p].depth {
        Seq::empty()
    } else {
        let rest = dims_from(dies, p, k + 1);
        if is_direct_child(dies, p, k) && dies[k].tag == DW_TAG_SUBRANGE_TYPE {
            match die_dimension(dies[k]) {
                Some(n) => seq![n] + rest,
                None => rest,
            }
        } else {
            rest
        }
    }
}

fn direct_child(dies: &Vec<RawDie>, p: usize, k: usize) -> (r: bool)
    requires
        p < dies.len(),
        k < dies.len(),
    ensures
        r == is_direct_child(dies@, p as int, k as int),
{
    (dies[k].depth as i128) == (dies[p].depth as i128) + 1
}

/// The members of the struct or union that entry `p` describes.
pub fn collect_members(dies: &Vec<RawDie>, p: usize, unit_offset: usize, in_union: bool) -> (r:
    Vec<StructMember>)
    requires
        p < dies.len(),
    ensures
        member_views(r@) == members_from(dies@, p as int, p + 1, unit_offset, in_union),
{
    let mut r: Vec<StructMember> = Vec::new();
    let mut k: usize = p + 1;
    let ghost all = members_from(dies@, p as int, p + 1, unit_offset, in_union);
    proof {
        assert(member_views(r@) + all =~= all);
    }
    while k < dies.len() && dies[k].depth > dies[p].depth
        invariant
            p < k <= dies.len(),
            member_views(r@) + members_from(dies@, p as int, k as int, unit_offset, in_union)
                == all,
        decreases dies.len() - k,
    {
        let ghost before = member_views(r@);
        let ghost rest = members_from(dies@, p as int, k + 1, unit_offset, in_union);
        if direct_child(dies, p, k) && dies[k].tag == DW_TAG_MEMBER {
            match read_name(&dies[k]) {
                Some(name) => {
                    let offset = if in_union {
                        0
                    } else {
                        read_member_location(&dies[k])
                    };
                    let mut member = StructMember::new(
                        string_of(name.as_slice()),
                        offset,
                        "unknown".to_owned(),
                        read_size(&dies[k]),
                    ).with_type_offset(read_type_offset(&dies[k], unit_offset));
                    match read_bitfield(&dies[k]) {
                        Some((bit_offset, bit_size)) => {
                            member = member.with_bitfield(bit_offset, bit_size);
                        },
                        None => {},
                    }
                    proof {
                        assert(member@ == member_of(dies@[k as int], name@, unit_offset, in_union));
                    }
                    r.push(member);
                    proof {
                        assert(member_views(r@) =~= before + seq![member@]);
                        assert((before + seq![member@]) + rest =~= before + (seq![member@] + rest));
                    }
                },
                None => {},
            }
        }
        k += 1;
    }
    proof {
        assert(members_from(dies@, p as int, k as int, unit_offset, in_union) =~= Seq::<
            MemberView,
        >::empty());
        assert(member_views(r@) + Seq::<MemberView>::empty() =~= member_views(r@));
    }
    r
}

/// The variants of the enumeration that entry `p` describes.
pub fn collect_variants(dies: &Vec<RawDie>, p: usize) -> (r: Vec<EnumVariant>)
    requires
        p < dies.len(),
    ensures
        variant_views(r@) == variants_from(dies@, p as int, p + 1),
{
    let mut r: Vec<EnumVariant> = Vec::new();
    let mut k: usize = p + 1;
    let ghost all = variants_from(dies@, p as int, p + 1);
    proof {
        assert(variant_views(r@) + all =~= all);
    }
    while k < dies.len() && dies[k].depth > dies[p].depth
        invariant
            p < k <= dies.len(),
            variant_views(r@) + variants_from(dies@, p as int, k as int) == all,
        decreases dies.len() - k,
    {
        let ghost before = variant_views(r@);
        let ghost rest = variants_from(dies@, p as int, k + 1);
        if direct_child(dies, p, k) && dies[k].tag == DW_TAG_ENUMERATOR {
            match read_name(&dies[k]) {
                Some(name) => {
                    match read_enum_value(&dies[k]) {
                        Some(value) => {
                            let variant = EnumVariant::new(string_of(name.as_slice()), value);
                            r.push(variant);
                            proof {
                                assert(variant_views(r@) =~= before + seq![variant@]);
                                assert((before + seq![variant@]) + rest =~= before + (
                                seq![variant@] + rest));
                            }
                        },
                        None => {},
                    }
                },
                None => {},
            }
        }
        k += 1;
    }
    proof {
        assert(variants_from(dies@, p as int, k as int) =~= Seq::<VariantView>::empty());
        assert(variant_views(r@) + Seq::<VariantView>::empty() =~= variant_views(r@));
    }
    r
}

/// The dimensions of the array that entry `p` describes, outermost first.
pub fn collect_dims(dies: &Vec<RawDie>, p: usize) -> (r: Vec<usize>)
    requires
        p < dies.len(),
    ensures
        r@ == dims_from(dies@, p as int, p + 1),
{
    let mut r: Vec<usize> = Vec::new();
    let mut k: usize = p + 1;
    let ghost all = dims_from(dies@, p as int, p + 1);
    proof {
        assert(r@ + all =~= all);
    }
    while k < dies.len() && dies[k].depth > dies[p].depth
        invariant
            p < k <= dies.len(),
            r@ + dims_from(dies@, p as int, k as int) == all,
        decreases dies.len() - k,
    {
        let ghost before = r@;
        let ghost rest = dims_from(dies@, p as int, k + 1);
        if direct_child(dies, p, k) && dies[k].tag == DW_TAG_SUBRANGE_TYPE {
            match read_dimension(&dies[k]) {
                Some(n) => {
                    r.push(n);
                    proof {
                        assert(r@ =~= before + seq![n]);
                        assert((before + seq![n]) + rest =~= before + (seq![n] + rest));
                    }
                },
                None => {},
            }
        }
        k += 1;
    }
    proof {
        assert(dims_from(dies@, p as int, k as int) =~= Seq::<usize>::empty());
        assert(r@ + Seq::<usize>::empty() =~= r@);
    }
    r
}

// ---------------------------------------------------------------------------
// Names that are made up
// ---------------------------------------------------------------------------

/// The dimensions `dims` as they stand in the name of an array.
pub open spec fn joined_dims(dims: Seq<usize>) -> Seq<char>
    decreases dims.len(),
{
    if dims.len() == 0 {
        Seq::empty()
    } else if dims.len() == 1 {
        decimal(dims[0] as nat)
    } else {
        joined_dims(dims.drop_last()) + "]["@ + decimal(dims.last() as nat)
    }
}

/// The name of an array with the dimensions `dims`.
pub open spec fn array_label(dims: Seq<usize>) -> Seq<char> {
    if dims.len() == 0 {
        "array"@
    } else {
        "array["@ + joined_dims(dims) + "]"@
    }
}

/// The name of a struct or union without a name, defined at `offset`.
pub open spec fn anonymous_label(offset: u64, in_union: bool) -> Seq<char> {
    if in_union {
        "<anon_union@0x"@ + hex_lower(offset as nat) + ">"@
    } else {
        "<anon@0x"@ + hex_lower(offset as nat) + ">"@
    }
}

/// The name of an array with the dimensions `dims`.
pub fn format_array_name(dims: &Vec<usize>) -> (r: String)
    ensures
        r@ == array_label(dims@),
{
    if dims.len() == 0 {
        return "array".to_owned();
    }
    let mut j: Vec<char> = Vec::new();
    push_decimal(&mut j, dims[0] as u64);
    let mut i: usize = 1;
    proof {
        assert(dims@.take(1).len() == 1);
        assert(j@ =~= joined_dims(dims@.take(1)));
    }
    while i < dims.len()
        invariant
            1 <= i <= dims.len(),
            j@ == joined_dims(dims@.take(i as int)),
        decreases dims.len() - i,
    {
        proof {
            let next = dims@.take(i + 1);
            assert(next.drop_last() =~= dims@.take(i as int));
            assert(next.last() == dims@[i as int]);
        }
        push_str(&mut j, "][");
        push_decimal(&mut j, dims[i] as u64);
        i += 1;
    }
    proof {
        assert(dims@.take(dims.len() as int) =~= dims@);
    }
    let mut out: Vec<char> = Vec::new();
    push_str(&mut out, "array[");
    crate::text::push_all(&mut out, j.as_slice());
    push_str(&mut out, "]");
    proof {
        assert(out@ =~= array_label(dims@));
    }
    string_of(out.as_slice())
}

/// The name of a struct or union without a name, defined at `offset`.
pub fn format_anonymous_name(offset: u64, in_union: bool) -> (r: String)
    ensures
        r@ == anonymous_label(offset, in_union),
{
    let mut out: Vec<char> = Vec::new();
    if in_union {
        push_str(&mut out, "<anon_union@0x");
    } else {
        push_str(&mut out, "<anon@0x");
    }
    push_number(&mut out, offset, 16, false, 0);
    push_str(&mut out, ">");
    proof {
        assert(zero_padded(hex_lower(offset as nat), 0) == hex_lower(offset as nat));
        assert(out@ =~= anonymous_label(offset, in_union));
    }
    string_of(out.as_slice())
}

// ---------------------------------------------------------------------------
// The parser and what it holds
// ---------------------------------------------------------------------------

/// A name and the offset that it stands for.
#[derive(Debug)]
pub struct NamedOffset {
    pub name: String,
    pub offset: u64,
}

/// The debug-info parser: the repository of type descriptors and what was
/// found beside it.
pub struct DwarfParser {
    /// The repository: each descriptor under the offset where it was
    /// defined.
    pub type_cache: HashMap<u64, TypeInfo>,
    /// The offsets of the repository, in the order in which they came in.
    pub order: Vec<u64>,
    /// The offset of the struct or union of each name.
    pub struct_index: Vec<NamedOffset>,
    /// The offset of the type of each variable.
    pub variable_types: Vec<NamedOffset>,
    /// For each array, the offset of its element type.
    pub array_elem_offsets: Vec<(u64, u64)>,
    /// For each typedef and qualifier, the offset of the type it stands
    /// for.
    pub type_refs: Vec<(u64, u64)>,
    /// The counts.
    pub stats: DwarfStats,
}

/// What a `DwarfParser` holds.
pub struct ParserView {
    pub types: Map<u64, TypeView>,
    pub order: Seq<u64>,
    pub structs: Seq<(Seq<char>, u64)>,
    pub variables: Seq<(Seq<char>, u64)>,
    pub array_elements: Seq<(u64, u64)>,
    pub type_refs: Seq<(u64, u64)>,
    pub stats: DwarfStats,
}

/// The views of a list of names with offsets.
pub open spec fn named_views(s: Seq<NamedOffset>) -> Seq<(Seq<char>, u64)> {
    Seq::new(s.len(), |i: int| (s[i].name@, s[i].offset))
}

impl View for DwarfParser {
    type V = ParserView;

    open spec fn view(&self) -> ParserView {
        ParserView {
            types: repo_view(self.type_cache@),
            order: self.order@,
            structs: named_views(self.struct_index@),
            variables: named_views(self.variable_types@),
            array_elements: self.array_elem_offsets@,
            type_refs: self.type_refs@,
            stats: self.stats,
        }
    }
}

impl ParserView {
    /// The parser that has seen nothing.
    pub open spec fn empty() -> ParserView {
        ParserView {
            types: Map::empty(),
            order: Seq::empty(),
            structs: Seq::empty(),
            variables: Seq::empty(),
            array_elements: Seq::empty(),
            type_refs: Seq::empty(),
            stats: no_stats(),
        }
    }

    /// `order` lists the offsets of the repository, each once.
    pub open spec fn wf(self) -> bool {
        &&& self.order.no_duplicates()
        &&& forall|k: u64| self.types.contains_key(k) <==> self.order.contains(k)
    }

    /// The parser with the descriptor `t` stored under `key`.
    pub open spec fn inserted(self, key: u64, t: TypeView) -> ParserView {
        ParserView {
            types: self.types.insert(key, t),
            order: if self.types.contains_key(key) {
                self.order
            } else {
                self.order.push(key)
            },
            ..self
        }
    }
}

/// The first position at or after `i` whose name is `name`.
pub open spec fn name_index(list: Seq<(Seq<char>, u64)>, name: Seq<char>, i: int) -> Option<int>
    decreases list.len() - i,
{
    if i < 0 || i >= list.len() {
        None
    } else if list[i].0 == name {
        Some(i)
    } else {
        name_index(list, name, i + 1)
    }
}

/// `list` with `offset` under `name`: in place of what stood under that
/// name, or at the end.
pub open spec fn with_name(list: Seq<(Seq<char>, u64)>, name: Seq<char>, offset: u64) -> Seq<
    (Seq<char>, u64),
> {
    match name_index(list, name, 0) {
        Some(i) => list.update(i, (name, offset)),
        None => list.push((name, offset)),
    }
}

/// The offset under `name` in `list`.
pub open spec fn offset_of_name(list: Seq<(Seq<char>, u64)>, name: Seq<char>) -> Option<u64> {
    match name_index(list, name, 0) {
        Some(i) => Some(list[i].1),
        None => None,
    }
}

/// The position of `name` in `list`.
pub fn find_name(list: &Vec<NamedOffset>, name: &[char]) -> (r: Option<usize>)
    ensures
        match r {
            Some(i) => name_index(named_views(list@), name@, 0) == Some(i as int) && i
                < list.len(),
            None => name_index(named_views(list@), name@, 0).is_none(),
        },
{
    let ghost ls = named_views(list@);
    let mut i: usize = 0;
    while i < list.len()
        invariant
            i <= list.len(),
            ls == named_views(list@),
            name_index(ls, name@, i as int) == name_index(ls, name@, 0),
        decreases list.len() - i,
    {
        let current = chars_of(list[i].name.as_str());
        proof {
            assert(ls[i as int].0 == list@[i as int].name@);
        }
        if same_chars(current.as_slice(), name) {
            return Some(i);
        }
        i += 1;
    }
    None
}

/// Stores `offset` under `name` in `list`.
pub fn set_name(list: &mut Vec<NamedOffset>, name: &[char], offset: u64)
    ensures
        named_views(final(list)@) == with_name(named_views(old(list)@), name@, offset),
{
    let fresh = NamedOffset { name: string_of(name), offset };
    match find_name(list, name) {
        Some(i) => {
            list.set(i, fresh);
            proof {
                assert(named_views(list@) =~= with_name(named_views(old(list)@), name@, offset));
            }
        },
        None => {
            list.push(fresh);
            proof {
                assert(named_views(list@) =~= with_name(named_views(old(list)@), name@, offset));
            }
        },
    }
}

impl DwarfParser {
    /// A parser that has seen nothing.
    pub fn new() -> (r: Self)
        ensures
            r@ == ParserView::empty(),
            r@.wf(),
    {
        let r = DwarfParser {
            type_cache: HashMap::new(),
            order: Vec::new(),
            struct_index: Vec::new(),
            variable_types: Vec::new(),
            array_elem_offsets: Vec::new(),
            type_refs: Vec::new(),
            stats: DwarfStats::default(),
        };
        proof {
            assert(r@.types =~= Map::<u64, TypeView>::empty());
            assert(r@.structs =~= Seq::empty());
            assert(r@.variables =~= Seq::empty());
        }
        r
    }

    /// Stores `t` in the repository under `key`.
    pub fn insert_type(&mut self, key: u64, t: TypeInfo)
        requires
            old(self)@.wf(),
        ensures
            final(self)@ == old(self)@.inserted(key, t@),
            final(self)@.wf(),
    {
        broadcast use vstd::std_specs::hash::group_hash_axioms;

        let known = self.type_cache.contains_key(&key);
        self.type_cache.insert(key, t);
        if !known {
            self.order.push(key);
        }
        proof {
            assert(self@.types =~= old(self)@.types.insert(key, t@));
            let new = self@;
            let prev = old(self)@;
            assert forall|k: u64| new.types.contains_key(k) <==> new.order.contains(k) by {
                if known {
                    assert(prev.types.contains_key(key));
                } else {
                    if k == key {
                        assert(new.order[new.order.len() - 1] == key);
                    } else if prev.order.contains(k) {
                        let i = choose|i: int| 0 <= i < prev.order.len() && prev.order[i] == k;
                        assert(new.order[i] == k);
                    } else if new.order.contains(k) {
                        let i = choose|i: int| 0 <= i < new.order.len() && new.order[i] == k;
                        assert(prev.order[i] == k);
                    }
                }
            }
            if !known {
                assert(!prev.order.contains(key));
            }
        }
    }
}

// ---------------------------------------------------------------------------
// From entries to descriptors
// ---------------------------------------------------------------------------

/// The descriptor with which an array or a pointer starts out as its
/// element: no size, nothing known but a name.
pub open spec fn stub(name: Seq<char>, offset: u64) -> TypeView {
    TypeView { offset, ..TypeView::plain(name, 0, TypeEncoding::Unsigned) }
}

/// The descriptor for the base type `d` with the name `name`.
pub open spec fn base_descriptor(d: RawDie, name: Seq<char>, at: u64) -> TypeView {
    TypeView { offset: at, ..TypeView::plain(name, die_size(d), die_encoding(d)) }
}

/// The descriptor for the struct or union at entry `p`.
pub open spec fn aggregate_descriptor(
    dies: Seq<RawDie>,
    p: int,
    unit_offset: usize,
    at: u64,
    in_union: bool,
) -> TypeView {
    TypeView {
        kind: if in_union {
            TypeKind::Union
        } else {
            TypeKind::Struct
        },
        members: members_from(dies, p, p + 1, unit_offset, in_union),
        offset: at,
        ..TypeView::plain(
            match die_name(dies[p]) {
                Some(n) => n,
                None => anonymous_label(at, in_union),
            },
            die_size(dies[p]),
            TypeEncoding::Unsigned,
        )
    }
}

/// The descriptor for the enumeration at entry `p` with the name `name`.
pub open spec fn enum_descriptor(dies: Seq<RawDie>, p: int, name: Seq<char>, at: u64) -> TypeView {
    TypeView {
        kind: TypeKind::Enum,
        variants: variants_from(dies, p, p + 1),
        offset: at,
        ..TypeView::plain(name, die_size(dies[p]), die_encoding(dies[p]))
    }
}

/// The descriptor for the array at entry `p`: its dimensions, and a stub
/// for its element.
pub open spec fn array_descriptor(dies: Seq<RawDie>, p: int, at: u64) -> TypeView {
    TypeView {
        kind: TypeKind::Array,
        array_dims: dims_from(dies, p, p + 1),
        pointer_target: Some(Box::new(stub("unknown"@, 0))),
        offset: at,
        ..TypeView::plain(
            array_label(dims_from(dies, p, p + 1)),
            die_size(dies[p]),
            TypeEncoding::Unsigned,
        )
    }
}

/// The descriptor for the pointer `d`: opaque, with a stub that refers to
/// the offset of what it points to.
pub open spec fn pointer_descriptor(d: RawDie, unit_offset: usize, at: u64) -> TypeView {
    TypeView {
        kind: TypeKind::Pointer,
        pointer_target: Some(Box::new(stub("void"@, die_type_offset(d, unit_offset)))),
        offset: at,
        ..TypeView::plain("pointer"@, die_size(d), TypeEncoding::Unsigned)
    }
}

/// The descriptor for a typedef or qualifier named `name`: nothing of its
/// own until the references are resolved.
pub open spec fn alias_descriptor(name: Seq<char>, at: u64) -> TypeView {
    TypeView {
        kind: TypeKind::Typedef,
        offset: at,
        ..TypeView::plain(name, 0, TypeEncoding::Unsigned)
    }
}

/// `st` with the typedef or qualifier `d` named `name` stored at `at`, and
/// its reference remembered if it has one.
pub open spec fn with_alias(st: ParserView, d: RawDie, name: Seq<char>, unit_offset: usize, at: u64)
    -> ParserView {
    let target = die_type_offset(d, unit_offset);
    let stored = st.inserted(at, alias_descriptor(name, at));
    if target > 0 {
        ParserView { type_refs: stored.type_refs.push((at, target)), ..stored }
    } else {
        stored
    }
}

/// The parser after entry `p` of the unit that starts at `unit_offset`.
/// Each base type, struct, union, enumeration, array, pointer, typedef and
/// qualifier gives one descriptor, stored under the place of the entry in
/// the section; a base type, an enumeration or a typedef without a name
/// gives none. A variable with a name and a type is remembered with the
/// offset of its type. Every entry is counted by its sort.
pub open spec fn after_die(st: ParserView, dies: Seq<RawDie>, p: int, unit_offset: usize)
    -> ParserView {
    let d = dies[p];
    let at = section_offset(unit_offset, d.offset);
    let stats = st.stats;
    if d.tag == DW_TAG_BASE_TYPE {
        match die_name(d) {
            Some(n) => ParserView {
                stats: DwarfStats { base_types: bumped(stats.base_types), ..stats },
                ..st.inserted(at, base_descriptor(d, n, at))
            },
            None => st,
        }
    } else if d.tag == DW_TAG_STRUCTURE_TYPE || d.tag == DW_TAG_UNION_TYPE {
        let in_union = d.tag == DW_TAG_UNION_TYPE;
        let stored = st.inserted(at, aggregate_descriptor(dies, p, unit_offset, at, in_union));
        ParserView {
            structs: match die_name(d) {
                Some(n) => with_name(stored.structs, n, at),
                None => stored.structs,
            },
            stats: if in_union {
                DwarfStats { unions: bumped(stats.unions), ..stats }
            } else {
                DwarfStats { structs: bumped(stats.structs), ..stats }
            },
            ..stored
        }
    } else if d.tag == DW_TAG_ENUMERATION_TYPE {
        match die_name(d) {
            Some(n) => ParserView {
                stats: DwarfStats { enums: bumped(stats.enums), ..stats },
                ..st.inserted(at, enum_descriptor(dies, p, n, at))
            },
            None => st,
        }
    } else if d.tag == DW_TAG_ARRAY_TYPE {
        let element = die_type_offset(d, unit_offset);
        let stored = st.inserted(at, array_descriptor(dies, p, at));
        ParserView {
            array_elements: if element > 0 {
                stored.array_elements.push((at, element))
            } else {
                stored.array_elements
            },
            stats: DwarfStats { arrays: bumped(stats.arrays), ..stats },
            ..stored
        }
    } else if d.tag == DW_TAG_POINTER_TYPE {
        ParserView {
            stats: DwarfStats { pointers: bumped(stats.pointers), ..stats },
            ..st.inserted(at, pointer_descriptor(d, unit_offset, at))
        }
    } else if d.tag == DW_TAG_TYPEDEF {
        match die_name(d) {
            Some(n) => ParserView {
                stats: DwarfStats { typedefs: bumped(stats.typedefs), ..stats },
                ..with_alias(st, d, n, unit_offset, at)
            },
            None => st,
        }
    } else if d.tag == DW_TAG_CONST_TYPE {
        with_alias(
            st,
            d,
            match die_name(d) {
                Some(n) => n,
                None => "const"@,
            },
            unit_offset,
            at,
        )
    } else if d.tag == DW_TAG_VOLATILE_TYPE {
        with_alias(
            st,
            d,
            match die_name(d) {
                Some(n) => n,
                None => "volatile"@,
            },
            unit_offset,
            at,
        )
    } else if d.tag == DW_TAG_VARIABLE {
        let counted = ParserView {
            stats: DwarfStats { variables: bumped(stats.variables), ..stats },
            ..st
        };
        match die_name(d) {
            Some(n) => if die_type_offset(d, unit_offset) > 0 {
                ParserView {
                    variables: with_name(st.variables, n, die_type_offset(d, unit_offset)),
                    ..counted
                }
            } else {
                counted
            },
            None => counted,
        }
    } else if d.tag == DW_TAG_MEMBER {
        ParserView {
            stats: DwarfStats { struct_members: bumped(stats.struct_members), ..stats },
            ..st
        }
    } else if d.tag == DW_TAG_ENUMERATOR {
        ParserView { stats: DwarfStats { enum_values: bumped(stats.enum_values), ..stats }, ..st }
    } else {
        st
    }
}

/// The parser after the first `upto` entries of a unit.
pub open spec fn after_dies(st: ParserView, dies: Seq<RawDie>, unit_offset: usize, upto: int)
    -> ParserView
    decreases upto,
{
    if upto <= 0 || upto > dies.len() {
        st
    } else {
        after_die(after_dies(st, dies, unit_offset, upto - 1), dies, upto - 1, unit_offset)
    }
}

/// The parser after the first `upto` units.
pub open spec fn after_units(units: Seq<RawUnit>, upto: int) -> ParserView
    decreases upto,
{
    if upto <= 0 || upto > units.len() {
        ParserView::empty()
    } else {
        let u = units[upto - 1];
        after_dies(after_units(units, upto - 1), u.dies@, u.offset, u.dies@.len() as int)
    }
}

fn make_stub(name: &str, offset: u64) -> (r: TypeInfo)
    ensures
        r@ == stub(name@, offset),
{
    let mut t = TypeInfo::primitive(name.to_owned(), 0, TypeEncoding::Unsigned);
    t.offset = offset;
    t
}

fn section_place(unit_offset: usize, local: usize) -> (r: u64)
    ensures
        r == section_offset(unit_offset, local),
{
    let wide: u128 = unit_offset as u128 + local as u128;
    (wide % 0x1_0000_0000_0000_0000u128) as u64
}

impl DwarfParser {
    fn store_alias(&mut self, d: &RawDie, name: String, unit_offset: usize, at: u64)
        requires
            old(self)@.wf(),
        ensures
            final(self)@ == with_alias(old(self)@, *d, name@, unit_offset, at),
            final(self)@.wf(),
    {
        let target = read_type_offset(d, unit_offset);
        let mut t = TypeInfo::primitive(name, 0, TypeEncoding::Unsigned);
        t.kind = TypeKind::Typedef;
        t.offset = at;
        self.insert_type(at, t);
        if target > 0 {
            self.type_refs.push((at, target));
        }
    }

    /// Takes in entry `p` of the unit that starts at `unit_offset`.
    pub fn process_die(&mut self, dies: &Vec<RawDie>, p: usize, unit_offset: usize)
        requires
            p < dies.len(),
            old(self)@.wf(),
        ensures
            final(self)@ == after_die(old(self)@, dies@, p as int, unit_offset),
            final(self)@.wf(),
    {
        let d = &dies[p];
        let at = section_place(unit_offset, d.offset);
        let tag = d.tag;
        if tag == DW_TAG_BASE_TYPE {
            match read_name(d) {
                Some(n) => {
                    let mut t = TypeInfo::primitive(
                        string_of(n.as_slice()),
                        read_size(d),
                        read_encoding(d),
                    );
                    t.offset = at;
                    self.insert_type(at, t);
                    self.stats.base_types = bump(self.stats.base_types);
                },
                None => {},
            }
        } else if tag == DW_TAG_STRUCTURE_TYPE || tag == DW_TAG_UNION_TYPE {
            let in_union = tag == DW_TAG_UNION_TYPE;
            let members = collect_members(dies, p, unit_offset, in_union);
            let name = read_name(d);
            let label = match &name {
                Some(n) => string_of(n.as_slice()),
                None => format_anonymous_name(at, in_union),
            };
            let t = if in_union {
                TypeInfo::union_type(label, read_size(d), members, at)
            } else {
                TypeInfo::struct_type(label, read_size(d), members, at)
            };
            proof {
                assert(t@ == aggregate_descriptor(dies@, p as int, unit_offset, at, in_union));
            }
            self.insert_type(at, t);
            match &name {
                Some(n) => {
                    set_name(&mut self.struct_index, n.as_slice(), at);
                },
                None => {},
            }
            if in_union {
                self.stats.unions = bump(self.stats.unions);
            } else {
                self.stats.structs = bump(self.stats.structs);
            }
        } else if tag == DW_TAG_ENUMERATION_TYPE {
            match read_name(d) {
                Some(n) => {
                    let variants = collect_variants(dies, p);
                    let t = TypeInfo::enum_type(
                        string_of(n.as_slice()),
                        read_size(d),
                        read_encoding(d),
                        variants,
                        at,
                    );
                    self.insert_type(at, t);
                    self.stats.enums = bump(self.stats.enums);
                },
                None => {},
            }
        } else if tag == DW_TAG_ARRAY_TYPE {
            let dims = collect_dims(dies, p);
            let element = read_type_offset(d, unit_offset);
            let t = TypeInfo::array_type(
                format_array_name(&dims),
                read_size(d),
                make_stub("unknown", 0),
                dims,
                at,
            );
            proof {
                assert(t@ == array_descriptor(dies@, p as int, at));
            }
            self.insert_type(at, t);
            if element > 0 {
                self.array_elem_offsets.push((at, element));
            }
            self.stats.arrays = bump(self.stats.arrays);
        } else if tag == DW_TAG_POINTER_TYPE {
            let t = TypeInfo::pointer_type(
                "pointer".to_owned(),
                read_size(d),
                make_stub("void", read_type_offset(d, unit_offset)),
                at,
            );
            self.insert_type(at, t);
            self.stats.pointers = bump(self.stats.pointers);
        } else if tag == DW_TAG_TYPEDEF {
            match read_name(d) {
                Some(n) => {
                    self.store_alias(d, string_of(n.as_slice()), unit_offset, at);
                    self.stats.typedefs = bump(self.stats.typedefs);
                },
                None => {},
            }
        } else if tag == DW_TAG_CONST_TYPE {
            let label = match read_name(d) {
                Some(n) => string_of(n.as_slice()),
                None => "const".to_owned(),
            };
            self.store_alias(d, label, unit_offset, at);
        } else if tag == DW_TAG_VOLATILE_TYPE {
            let label = match read_name(d) {
                Some(n) => string_of(n.as_slice()),
                None => "volatile".to_owned(),
            };
            self.store_alias(d, label, unit_offset, at);
        } else if tag == DW_TAG_VARIABLE {
            self.stats.variables = bump(self.stats.variables);
            match read_name(d) {
                Some(n) => {
                    let target = read_type_offset(d, unit_offset);
                    if target > 0 {
                        set_name(&mut self.variable_types, n.as_slice(), target);
                    }
                },
                None => {},
            }
        } else if tag == DW_TAG_MEMBER {
            self.stats.struct_members = bump(self.stats.struct_members);
        } else if tag == DW_TAG_ENUMERATOR {
            self.stats.enum_values = bump(self.stats.enum_values);
        }
    }

    /// Takes in the entries of the unit `unit`, in order.
    pub fn process_unit(&mut self, unit: &RawUnit)
        requires
            old(self)@.wf(),
        ensures
            final(self)@ == after_dies(
                old(self)@,
                unit.dies@,
                unit.offset,
                unit.dies@.len() as int,
            ),
            final(self)@.wf(),
    {
        let mut p: usize = 0;
        while p < unit.dies.len()
            invariant
                p <= unit.dies.len(),
                self@.wf(),
                self@ == after_dies(old(self)@, unit.dies@, unit.offset, p as int),
            decreases unit.dies.len() - p,
        {
            self.process_die(&unit.dies, p, unit.offset);
            p += 1;
        }
    }
}

} // verus!
