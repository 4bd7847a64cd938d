//! One image, one repository and one session: plain units and plain
//! symbols that say the same give the same descriptors and variables.

use crate::dwarf::{
    after_die, after_dies, after_units, aggregate_descriptor, array_descriptor, dims_from,
    enum_descriptor, members_from, variants_from, ParserView,
};
use crate::dwarf_raw::{
    attr_view, die_bitfield, die_dimension, die_encoding, die_enum_value, die_member_location,
    die_name, die_size, die_type_offset, number_of, section_offset, unsigned_of, AttrValue,
    RawDie, RawUnit,
};
use crate::dwarf_read::{
    entries_in, entries_left, head_abbreviations, heads_left, read_heads, tell_units, tells_die,
    tells_unit, units_in, UnitHead,
};
use crate::elf::{deep_session, SessionView};
use crate::image::{image_in, symbols_in, tell_symbols, tells_symbol, text_of};
use crate::parse::{
    debug_abbrev, debug_info, has_debug, is_repository_of, is_session_of, made_from, session_from,
};
use crate::symbols::{extracted, RawSymbol};
use vstd::prelude::*;

verus! {

// ---------------------------------------------------------------------------
// Entries that say the same
// ---------------------------------------------------------------------------

/// Whether two entries say the same: the same place, depth and tag, and
/// attributes that hold the same.
pub open spec fn same_die(a: RawDie, b: RawDie) -> bool {
    &&& a.offset == b.offset
    &&& a.depth == b.depth
    &&& a.tag == b.tag
    &&& attr_view(a.name) == attr_view(b.name)
    &&& attr_view(a.byte_size) == attr_view(b.byte_size)
    &&& attr_view(a.encoding) == attr_view(b.encoding)
    &&& attr_view(a.member_location) == attr_view(b.member_location)
    &&& attr_view(a.type_ref) == attr_view(b.type_ref)
    &&& attr_view(a.bit_size) == attr_view(b.bit_size)
    &&& attr_view(a.bit_offset) == attr_view(b.bit_offset)
    &&& attr_view(a.const_value) == attr_view(b.const_value)
    &&& attr_view(a.upper_bound) == attr_view(b.upper_bound)
    &&& attr_view(a.count) == attr_view(b.count)
}

/// Whether two lists of entries say the same, one for one.
pub open spec fn same_dies(a: Seq<RawDie>, b: Seq<RawDie>) -> bool {
    &&& a.len() == b.len()
    &&& forall|i: int| 0 <= i < a.len() ==> same_die(#[trigger] a[i], b[i])
}

/// Whether two lists of units say the same, one for one.
pub open spec fn same_units(a: Seq<RawUnit>, b: Seq<RawUnit>) -> bool {
    &&& a.len() == b.len()
    &&& forall|i: int|
        0 <= i < a.len() ==> (#[trigger] a[i]).offset == b[i].offset && same_dies(
            a[i].dies@,
            b[i].dies@,
        )
}

/// Attributes that hold the same are read as the same number.
proof fn lemma_same_number(a: Option<AttrValue>, b: Option<AttrValue>)
    requires
        attr_view(a) == attr_view(b),
    ensures
        unsigned_of(a) == unsigned_of(b),
        number_of(a) == number_of(b),
{
    match (a, b) {
        (Some(x), Some(y)) => {
            assert(x@ == y@);
        },
        _ => {},
    }
}

/// Entries that say the same are read alike.
pub proof fn lemma_same_readings(a: RawDie, b: RawDie, unit_offset: usize)
    requires
        same_die(a, b),
    ensures
        die_name(a) == die_name(b),
        die_size(a) == die_size(b),
        die_encoding(a) == die_encoding(b),
        die_member_location(a) == die_member_location(b),
        die_type_offset(a, unit_offset) == die_type_offset(b, unit_offset),
        die_bitfield(a) == die_bitfield(b),
        die_enum_value(a) == die_enum_value(b),
        die_dimension(a) == die_dimension(b),
{
    lemma_same_number(a.byte_size, b.byte_size);
    lemma_same_number(a.member_location, b.member_location);
    lemma_same_number(a.bit_size, b.bit_size);
    lemma_same_number(a.bit_offset, b.bit_offset);
    lemma_same_number(a.upper_bound, b.upper_bound);
    lemma_same_number(a.count, b.count);
    assert(die_name(a) == die_name(b)) by {
        match (a.name, b.name) {
            (Some(x), Some(y)) => {
                assert(x@ == y@);
            },
            _ => {},
        }
    }
    assert(die_encoding(a) == die_encoding(b)) by {
        match (a.encoding, b.encoding) {
            (Some(x), Some(y)) => {
                assert(x@ == y@);
            },
            _ => {},
        }
    }
    assert(die_member_location(a) == die_member_location(b)) by {
        match (a.member_location, b.member_location) {
            (Some(x), Some(y)) => {
                assert(x@ == y@);
            },
            _ => {},
        }
    }
    assert(die_type_offset(a, unit_offset) == die_type_offset(b, unit_offset)) by {
        match (a.type_ref, b.type_ref) {
            (Some(x), Some(y)) => {
                assert(x@ == y@);
            },
            _ => {},
        }
    }
    assert(die_enum_value(a) == die_enum_value(b)) by {
        match (a.const_value, b.const_value) {
            (Some(x), Some(y)) => {
                assert(x@ == y@);
            },
            _ => {},
        }
    }
}

/// Entries that say the same have the same members.
proof fn lemma_same_members(
    a: Seq<RawDie>,
    b: Seq<RawDie>,
    p: int,
    k: int,
    unit_offset: usize,
    in_union: bool,
)
    requires
        same_dies(a, b),
        0 <= p < a.len(),
    ensures
        members_from(a, p, k, unit_offset, in_union) == members_from(
            b,
            p,
            k,
            unit_offset,
            in_union,
        ),
    decreases a.len() - k,
{
    if 0 <= k < a.len() {
        lemma_same_readings(a[k], b[k], unit_offset);
        assert(same_die(a[p], b[p]));
        if a[k].depth > a[p].depth {
            lemma_same_members(a, b, p, k + 1, unit_offset, in_union);
        }
    }
}

/// Entries that say the same have the same variants.
proof fn lemma_same_variants(a: Seq<RawDie>, b: Seq<RawDie>, p: int, k: int)
    requires
        same_dies(a, b),
        0 <= p < a.len(),
    ensures
        variants_from(a, p, k) == variants_from(b, p, k),
    decreases a.len() - k,
{
    if 0 <= k < a.len() {
        lemma_same_readings(a[k], b[k], 0);
        assert(same_die(a[p], b[p]));
        if a[k].depth > a[p].depth {
            lemma_same_variants(a, b, p, k + 1);
        }
    }
}

/// Entries that say the same have the same dimensions.
proof fn lemma_same_dims(a: Seq<RawDie>, b: Seq<RawDie>, p: int, k: int)
    requires
        same_dies(a, b),
        0 <= p < a.len(),
    ensures
        dims_from(a, p, k) == dims_from(b, p, k),
    decreases a.len() - k,
{
    if 0 <= k < a.len() {
        lemma_same_readings(a[k], b[k], 0);
        assert(same_die(a[p], b[p]));
        if a[k].depth > a[p].depth {
            lemma_same_dims(a, b, p, k + 1);
        }
    }
}

/// Entries that say the same take the parser to the same state.
proof fn lemma_same_after_die(
    st: ParserView,
    a: Seq<RawDie>,
    b: Seq<RawDie>,
    p: int,
    unit_offset: usize,
)
    requires
        same_dies(a, b),
        0 <= p < a.len(),
    ensures
        after_die(st, a, p, unit_offset) == after_die(st, b, p, unit_offset),
{
    assert(same_die(a[p], b[p]));
    lemma_same_readings(a[p], b[p], unit_offset);
    lemma_same_members(a, b, p, p + 1, unit_offset, true);
    lemma_same_members(a, b, p, p + 1, unit_offset, false);
    lemma_same_variants(a, b, p, p + 1);
    lemma_same_dims(a, b, p, p + 1);
    let at = section_offset(unit_offset, a[p].offset);
    assert(aggregate_descriptor(a, p, unit_offset, at, true) == aggregate_descriptor(
        b,
        p,
        unit_offset,
        at,
        true,
    ));
    assert(aggregate_descriptor(a, p, unit_offset, at, false) == aggregate_descriptor(
        b,
        p,
        unit_offset,
        at,
        false,
    ));
    assert(array_descriptor(a, p, at) == array_descriptor(b, p, at));
    assert(forall|n: Seq<char>| enum_descriptor(a, p, n, at) == enum_descriptor(b, p, n, at));
}

/// Entries that say the same take the parser to the same state, entry
/// after entry.
proof fn lemma_same_after_dies(
    st: ParserView,
    a: Seq<RawDie>,
    b: Seq<RawDie>,
    unit_offset: usize,
    upto: int,
)
    requires
        same_dies(a, b),
    ensures
        after_dies(st, a, unit_offset, upto) == after_dies(st, b, unit_offset, upto),
    decreases upto,
{
    if 0 < upto <= a.len() {
        lemma_same_after_dies(st, a, b, unit_offset, upto - 1);
        lemma_same_after_die(after_dies(st, a, unit_offset, upto - 1), a, b, upto - 1, unit_offset);
    }
}

/// Units that say the same take the parser to the same state.
pub proof fn lemma_same_after_units(a: Seq<RawUnit>, b: Seq<RawUnit>, upto: int)
    requires
        same_units(a, b),
    ensures
        after_units(a, upto) == after_units(b, upto),
    decreases upto,
{
    if 0 < upto <= a.len() {
        lemma_same_after_units(a, b, upto - 1);
        let u = a[upto - 1];
        let v = b[upto - 1];
        assert(u.offset == v.offset && same_dies(u.dies@, v.dies@));
        lemma_same_after_dies(
            after_units(a, upto - 1),
            u.dies@,
            v.dies@,
            u.offset,
            u.dies@.len() as int,
        );
    }
}

// ---------------------------------------------------------------------------
// One repository
// ---------------------------------------------------------------------------

/// Two lists of plain units that say what the same headers hold say the
/// same.
proof fn lemma_told_units_same(
    a: Seq<RawUnit>,
    b: Seq<RawUnit>,
    heads: Seq<UnitHead>,
    abbrev: Seq<u8>,
)
    requires
        tell_units(a, heads, abbrev),
        tell_units(b, heads, abbrev),
    ensures
        same_units(a, b),
{
    let kept = read_heads(heads, abbrev);
    assert forall|i: int| 0 <= i < a.len() implies (#[trigger] a[i]).offset == b[i].offset
        && same_dies(a[i].dies@, b[i].dies@) by {
        assert(tells_unit(a[i], kept[i], abbrev));
        assert(tells_unit(b[i], kept[i], abbrev));
        let x = a[i].dies@;
        let y = b[i].dies@;
        assert forall|j: int| 0 <= j < x.len() implies same_die(#[trigger] x[j], y[j]) by {
            let from = entries_left(
                entries_in(kept[i], head_abbreviations(kept[i], abbrev).unwrap()),
            );
            assert(tells_die(x[j], from[j]));
            assert(tells_die(y[j], from[j]));
        }
    }
}

/// An image has one repository: whatever plain units stand for its
/// debugging information, the descriptors, the variables and the counts
/// are the same.
pub proof fn law_one_repository(p: ParserView, q: ParserView, data: Seq<u8>)
    requires
        is_repository_of(p, data),
        is_repository_of(q, data),
    ensures
        p == q,
{
    let image = image_in(data).unwrap();
    if has_debug(image) {
        let info = debug_info(image);
        let abbrev = debug_abbrev(image);
        let a = choose|units: Seq<RawUnit>| #[trigger] made_from(p, units, info, abbrev);
        let b = choose|units: Seq<RawUnit>| #[trigger] made_from(q, units, info, abbrev);
        lemma_told_units_same(a, b, heads_left(units_in(info)), abbrev);
        lemma_same_after_units(a, b, a.len() as int);
    }
}

// ---------------------------------------------------------------------------
// One session
// ---------------------------------------------------------------------------

/// Whether two lists of symbols say the same, one for one.
pub open spec fn same_symbols(a: Seq<RawSymbol>, b: Seq<RawSymbol>) -> bool {
    &&& a.len() == b.len()
    &&& forall|i: int|
        0 <= i < a.len() ==> {
            &&& text_of((#[trigger] a[i]).name) == text_of(b[i].name)
            &&& a[i].address == b[i].address
            &&& a[i].size == b[i].size
            &&& a[i].section@ == b[i].section@
        }
}

/// Symbols that say the same give the same variables.
pub proof fn lemma_same_extracted(a: Seq<RawSymbol>, b: Seq<RawSymbol>, upto: int)
    requires
        same_symbols(a, b),
    ensures
        extracted(a, upto) == extracted(b, upto),
    decreases upto,
{
    if 0 < upto <= a.len() {
        lemma_same_extracted(a, b, upto - 1);
        let s = a[upto - 1];
        let t = b[upto - 1];
        assert(text_of(s.name) == text_of(t.name));
        match (s.name, t.name) {
            (Some(m), Some(n)) => {
                assert(m@ == n@);
            },
            _ => {},
        }
    }
}

/// An image has one session: whatever plain symbols and units stand for
/// what it holds, the session is the same.
pub proof fn law_one_session(s: SessionView, t: SessionView, data: Seq<u8>, deep: bool)
    requires
        is_session_of(s, data, deep),
        is_session_of(t, data, deep),
    ensures
        s == t,
{
    let image = image_in(data).unwrap();
    let from = symbols_in(image);
    let a = choose|symbols: Seq<RawSymbol>| #[trigger]
        tell_symbols(symbols, image, from) && session_from(s, symbols, data, deep);
    let b = choose|symbols: Seq<RawSymbol>| #[trigger]
        tell_symbols(symbols, image, from) && session_from(t, symbols, data, deep);
    assert(same_symbols(a, b)) by {
        assert forall|i: int| 0 <= i < a.len() implies {
            &&& text_of((#[trigger] a[i]).name) == text_of(b[i].name)
            &&& a[i].address == b[i].address
            &&& a[i].size == b[i].size
            &&& a[i].section@ == b[i].section@
        } by {
            assert(tells_symbol(a[i], image, from[i]));
            assert(tells_symbol(b[i], image, from[i]));
        }
    }
    lemma_same_extracted(a, b, a.len() as int);
    if deep {
        let p = choose|p: ParserView| #[trigger]
            is_repository_of(p, data) && s == deep_session(a, data.len() as u64, p);
        let q = choose|q: ParserView| #[trigger]
            is_repository_of(q, data) && t == deep_session(b, data.len() as u64, q);
        law_one_repository(p, q, data);
    }
}

} // verus!
