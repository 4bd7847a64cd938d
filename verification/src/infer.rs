//! The name-based type inferrer, for variables about which the debugging
//! information says nothing.

use crate::dwarf::{offset_of_name, find_name, DwarfParser, ParserView};
use crate::expand::repo_view;
use crate::number::{decimal, push_decimal};
use crate::text::{
    chars_of, contains, ends_with, has_substring, lowercase_of, lowered, push_str, string_of,
};
use crate::types::{
    holds, variable_views, TypeEncoding, TypeInfo, TypeView, Variable, VariableView,
};
use vstd::prelude::*;

verus! {

/// The name of the unsigned type of `size` bytes: `uint8_t`, `uint16_t`,
/// `uint32_t` or `uint64_t`, and an array of bytes for any other size.
pub open spec fn sized_label(size: usize) -> Seq<char> {
    if size == 1 {
        "uint8_t"@
    } else if size == 2 {
        "uint16_t"@
    } else if size == 4 {
        "uint32_t"@
    } else if size == 8 {
        "uint64_t"@
    } else {
        "uint8_t["@ + decimal(size as nat) + "]"@
    }
}

/// The name of the unsigned type of `size` bytes.
pub fn infer_type_name(size: usize) -> (r: String)
    ensures
        r@ == sized_label(size),
{
    if size == 1 {
        "uint8_t".to_owned()
    } else if size == 2 {
        "uint16_t".to_owned()
    } else if size == 4 {
        "uint32_t".to_owned()
    } else if size == 8 {
        "uint64_t".to_owned()
    } else {
        let mut out: Vec<char> = Vec::new();
        push_str(&mut out, "uint8_t[");
        push_decimal(&mut out, size as u64);
        push_str(&mut out, "]");
        proof {
            assert(out@ =~= sized_label(size));
        }
        string_of(out.as_slice())
    }
}

/// The encoding that the lower-case variable name `lower` suggests, if it
/// holds one of the marks of a type; the first rule that fits decides.
pub open spec fn marked_encoding(lower: Seq<char>) -> Option<TypeEncoding> {
    if contains(lower, "_u8"@) || contains(lower, "_uint8"@) || contains(lower, "uint8_t"@) {
        Some(TypeEncoding::Unsigned)
    } else if contains(lower, "_u16"@) || contains(lower, "_uint16"@) || contains(
        lower,
        "uint16_t"@,
    ) {
        Some(TypeEncoding::Unsigned)
    } else if contains(lower, "_u32"@) || contains(lower, "_uint32"@) || contains(
        lower,
        "uint32_t"@,
    ) {
        Some(TypeEncoding::Unsigned)
    } else if contains(lower, "_u64"@) || contains(lower, "_uint64"@) || contains(
        lower,
        "uint64_t"@,
    ) {
        Some(TypeEncoding::Unsigned)
    } else if contains(lower, "_s8"@) || contains(lower, "_int8"@) || contains(lower, "int8_t"@) {
        Some(TypeEncoding::Signed)
    } else if contains(lower, "_s16"@) || contains(lower, "_int16"@) || contains(
        lower,
        "int16_t"@,
    ) {
        Some(TypeEncoding::Signed)
    } else if contains(lower, "_s32"@) || contains(lower, "_int32"@) || contains(
        lower,
        "int32_t"@,
    ) || contains(lower, "_int"@) || "_i"@.is_suffix_of(lower) {
        Some(TypeEncoding::Signed)
    } else if contains(lower, "_s64"@) || contains(lower, "_int64"@) || contains(
        lower,
        "int64_t"@,
    ) {
        Some(TypeEncoding::Signed)
    } else if contains(lower, "_f32"@) || contains(lower, "_float"@) || contains(
        lower,
        "float32"@,
    ) {
        Some(TypeEncoding::Float)
    } else if contains(lower, "_f64"@) || contains(lower, "_double"@) || contains(
        lower,
        "float64"@,
    ) {
        Some(TypeEncoding::Float)
    } else if contains(lower, "_bool"@) || "_b"@.is_suffix_of(lower) || contains(
        lower,
        "boolean"@,
    ) {
        Some(TypeEncoding::Unsigned)
    } else {
        None
    }
}

/// The type name that the lower-case variable name `lower` suggests; that
/// of its size where it holds no mark.
pub open spec fn marked_label(lower: Seq<char>, size: usize) -> Seq<char> {
    if contains(lower, "_u8"@) || contains(lower, "_uint8"@) || contains(lower, "uint8_t"@) {
        "uint8_t"@
    } else if contains(lower, "_u16"@) || contains(lower, "_uint16"@) || contains(
        lower,
        "uint16_t"@,
    ) {
        "uint16_t"@
    } else if contains(lower, "_u32"@) || contains(lower, "_uint32"@) || contains(
        lower,
        "uint32_t"@,
    ) {
        "uint32_t"@
    } else if contains(lower, "_u64"@) || contains(lower, "_uint64"@) || contains(
        lower,
        "uint64_t"@,
    ) {
        "uint64_t"@
    } else if contains(lower, "_s8"@) || contains(lower, "_int8"@) || contains(lower, "int8_t"@) {
        "int8_t"@
    } else if contains(lower, "_s16"@) || contains(lower, "_int16"@) || contains(
        lower,
        "int16_t"@,
    ) {
        "int16_t"@
    } else if contains(lower, "_s32"@) || contains(lower, "_int32"@) || contains(
        lower,
        "int32_t"@,
    ) || contains(lower, "_int"@) || "_i"@.is_suffix_of(lower) {
        "int32_t"@
    } else if contains(lower, "_s64"@) || contains(lower, "_int64"@) || contains(
        lower,
        "int64_t"@,
    ) {
        "int64_t"@
    } else if contains(lower, "_f32"@) || contains(lower, "_float"@) || contains(
        lower,
        "float32"@,
    ) {
        "float"@
    } else if contains(lower, "_f64"@) || contains(lower, "_double"@) || contains(
        lower,
        "float64"@,
    ) {
        "double"@
    } else if contains(lower, "_bool"@) || "_b"@.is_suffix_of(lower) || contains(
        lower,
        "boolean"@,
    ) {
        "bool"@
    } else {
        sized_label(size)
    }
}

/// The primitive descriptor for a variable of `size` bytes whose
/// lower-case name is `lower`.
pub open spec fn inferred_for_lowered(lower: Seq<char>, size: usize) -> TypeView {
    TypeView::plain(
        marked_label(lower, size),
        size,
        match marked_encoding(lower) {
            Some(e) => e,
            None => TypeEncoding::Unsigned,
        },
    )
}

/// The primitive descriptor for a variable named `name` of `size` bytes.
pub open spec fn inferred_type(name: Seq<char>, size: usize) -> TypeView {
    inferred_for_lowered(lowercase_of(name), size)
}

fn ends(hay: &[char], word: &str) -> (r: bool)
    ensures
        r == word@.is_suffix_of(hay@),
{
    let w = chars_of(word);
    ends_with(hay, w.as_slice())
}

/// The primitive descriptor for a variable of `size` bytes whose
/// lower-case name is `lower`.
pub fn infer_type_from_lowered(lower: &[char], size: usize) -> (r: TypeInfo)
    ensures
        r@ == inferred_for_lowered(lower@, size),
{
    if holds(lower, "_u8") || holds(lower, "_uint8") || holds(lower, "uint8_t") {
        TypeInfo::primitive("uint8_t".to_owned(), size, TypeEncoding::Unsigned)
    } else if holds(lower, "_u16") || holds(lower, "_uint16") || holds(lower, "uint16_t") {
        TypeInfo::primitive("uint16_t".to_owned(), size, TypeEncoding::Unsigned)
    } else if holds(lower, "_u32") || holds(lower, "_uint32") || holds(lower, "uint32_t") {
        TypeInfo::primitive("uint32_t".to_owned(), size, TypeEncoding::Unsigned)
    } else if holds(lower, "_u64") || holds(lower, "_uint64") || holds(lower, "uint64_t") {
        TypeInfo::primitive("uint64_t".to_owned(), size, TypeEncoding::Unsigned)
    } else if holds(lower, "_s8") || holds(lower, "_int8") || holds(lower, "int8_t") {
        TypeInfo::primitive("int8_t".to_owned(), size, TypeEncoding::Signed)
    } else if holds(lower, "_s16") || holds(lower, "_int16") || holds(lower, "int16_t") {
        TypeInfo::primitive("int16_t".to_owned(), size, TypeEncoding::Signed)
    } else if holds(lower, "_s32") || holds(lower, "_int32") || holds(lower, "int32_t") || holds(
        lower,
        "_int",
    ) || ends(lower, "_i") {
        TypeInfo::primitive("int32_t".to_owned(), size, TypeEncoding::Signed)
    } else if holds(lower, "_s64") || holds(lower, "_int64") || holds(lower, "int64_t") {
        TypeInfo::primitive("int64_t".to_owned(), size, TypeEncoding::Signed)
    } else if holds(lower, "_f32") || holds(lower, "_float") || holds(lower, "float32") {
        TypeInfo::primitive("float".to_owned(), size, TypeEncoding::Float)
    } else if holds(lower, "_f64") || holds(lower, "_double") || holds(lower, "float64") {
        TypeInfo::primitive("double".to_owned(), size, TypeEncoding::Float)
    } else if holds(lower, "_bool") || ends(lower, "_b") || holds(lower, "boolean") {
        TypeInfo::primitive("bool".to_owned(), size, TypeEncoding::Unsigned)
    } else {
        TypeInfo::primitive(infer_type_name(size), size, TypeEncoding::Unsigned)
    }
}

/// The primitive descriptor for a variable named `name` of `size` bytes,
/// guessed from the marks of a type in its name, letter case set aside,
/// and from its size where it holds none.
pub fn infer_type_from_name(name: &str, size: usize) -> (r: TypeInfo)
    ensures
        r@ == inferred_type(name@, size),
{
    let lower = lowered(name);
    infer_type_from_lowered(lower.as_slice(), size)
}

// ---------------------------------------------------------------------------
// Giving variables their type
// ---------------------------------------------------------------------------

/// The type of the variable `v` as the parser `st` knows it: the
/// descriptor of the type recorded for its name, and the inferred type
/// where nothing is recorded or the repository does not hold it.
pub open spec fn type_for(st: ParserView, v: VariableView) -> TypeView {
    match offset_of_name(st.variables, v.name) {
        Some(o) => if st.types.contains_key(o) {
            st.types[o]
        } else {
            inferred_type(v.name, v.size)
        },
        None => inferred_type(v.name, v.size),
    }
}

/// The variable `v` with its type.
pub open spec fn typed(st: ParserView, v: VariableView) -> VariableView {
    VariableView { type_info: Some(type_for(st, v)), ..v }
}

/// The variables `vars`, each with its type.
pub open spec fn all_typed(st: ParserView, vars: Seq<VariableView>) -> Seq<VariableView> {
    Seq::new(vars.len(), |i: int| typed(st, vars[i]))
}

/// Gives each of `variables` its type.
pub fn assign_types(variables: &mut Vec<Variable>, parser: &DwarfParser)
    ensures
        variable_views(final(variables)@) == all_typed(parser@, variable_views(old(variables)@)),
{
    broadcast use vstd::std_specs::hash::group_hash_axioms;

    let mut out: Vec<Variable> = Vec::new();
    let mut i: usize = 0;
    while i < variables.len()
        invariant
            i <= variables.len(),
            variables@ == old(variables)@,
            out.len() == i,
            forall|k: int| 0 <= k < i ==> (#[trigger] out@[k])@ == typed(parser@, variables@[k]@),
        decreases variables.len() - i,
    {
        let var = &variables[i];
        let name = chars_of(var.name.as_str());
        let known: Option<TypeInfo> = match find_name(&parser.variable_types, name.as_slice()) {
            Some(p) => {
                let offset = parser.variable_types[p].offset;
                proof {
                    assert(crate::dwarf::named_views(parser.variable_types@)[p as int].1
                        == offset);
                }
                match parser.type_cache.get(&offset) {
                    Some(t) => Some(t.clone()),
                    None => None,
                }
            },
            None => None,
        };
        let type_info = match known {
            Some(t) => t,
            None => infer_type_from_name(var.name.as_str(), var.size),
        };
        let copy = var.clone().with_type_info(type_info);
        out.push(copy);
        i += 1;
    }
    proof {
        assert(variable_views(out@) =~= all_typed(parser@, variable_views(old(variables)@)));
    }
    *variables = out;
}

} // verus!
