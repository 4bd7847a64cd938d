//! What holds of every descriptor of a repository that the parser made.

use crate::dwarf::{after_die, after_dies, after_units, ParserView};
use crate::dwarf_raw::{RawDie, RawUnit};
use crate::resolve::{
    backfilled, backfilled_type, collapsed, collapsed_one, inlined, inlined_one, resolved,
    resolved_types,
};
use crate::types::{TypeKind, TypeView};
use vstd::prelude::*;

verus! {

/// Whether every descriptor of `types` has the shape of its kind and
/// stands under its own offset.
pub open spec fn all_shaped(types: Map<u64, TypeView>) -> bool {
    forall|k: u64|
        types.contains_key(k) ==> (#[trigger] types[k]).has_shape() && types[k].offset == k
}

proof fn lemma_after_die_shaped(st: ParserView, dies: Seq<RawDie>, p: int, unit_offset: usize)
    requires
        all_shaped(st.types),
        0 <= p < dies.len(),
    ensures
        all_shaped(after_die(st, dies, p, unit_offset).types),
{
    let next = after_die(st, dies, p, unit_offset).types;
    assert forall|k: u64| next.contains_key(k) implies (#[trigger] next[k]).has_shape()
        && next[k].offset == k by {
        if st.types.contains_key(k) && next[k] == st.types[k] {
        }
    }
}

proof fn lemma_after_dies_shaped(st: ParserView, dies: Seq<RawDie>, unit_offset: usize, upto: int)
    requires
        all_shaped(st.types),
    ensures
        all_shaped(after_dies(st, dies, unit_offset, upto).types),
    decreases upto,
{
    if 0 < upto <= dies.len() {
        lemma_after_dies_shaped(st, dies, unit_offset, upto - 1);
        lemma_after_die_shaped(
            after_dies(st, dies, unit_offset, upto - 1),
            dies,
            upto - 1,
            unit_offset,
        );
    }
}

proof fn lemma_after_units_shaped(units: Seq<RawUnit>, upto: int)
    ensures
        all_shaped(after_units(units, upto).types),
    decreases upto,
{
    if 0 < upto <= units.len() {
        lemma_after_units_shaped(units, upto - 1);
        let u = units[upto - 1];
        lemma_after_dies_shaped(
            after_units(units, upto - 1),
            u.dies@,
            u.offset,
            u.dies@.len() as int,
        );
    }
}

proof fn lemma_collapsed_shaped(types: Map<u64, TypeView>, refs: Seq<(u64, u64)>, upto: int)
    requires
        all_shaped(types),
    ensures
        all_shaped(collapsed(types, refs, upto)),
    decreases upto,
{
    if 0 < upto <= refs.len() {
        lemma_collapsed_shaped(types, refs, upto - 1);
        let before = collapsed(types, refs, upto - 1);
        let after = collapsed_one(before, refs[upto - 1].0, refs[upto - 1].1);
        assert forall|k: u64| after.contains_key(k) implies (#[trigger] after[k]).has_shape()
            && after[k].offset == k by {
            if before.contains_key(k) {
                assert(before[k].has_shape());
            }
            if before.contains_key(refs[upto - 1].1) {
                assert(before[refs[upto - 1].1].has_shape());
            }
        }
    }
}

proof fn lemma_inlined_shaped(types: Map<u64, TypeView>, arrays: Seq<(u64, u64)>, upto: int)
    requires
        all_shaped(types),
    ensures
        all_shaped(inlined(types, arrays, upto)),
    decreases upto,
{
    if 0 < upto <= arrays.len() {
        lemma_inlined_shaped(types, arrays, upto - 1);
        let before = inlined(types, arrays, upto - 1);
        let after = inlined_one(before, arrays[upto - 1].0, arrays[upto - 1].1);
        assert forall|k: u64| after.contains_key(k) implies (#[trigger] after[k]).has_shape()
            && after[k].offset == k by {
            if before.contains_key(k) {
                assert(before[k].has_shape());
            }
        }
    }
}

/// Every descriptor of a repository that the parser made has the shape of
/// its kind: an element exactly where it is an array or a pointer,
/// members only where it is a struct or a union, variants only where it
/// is an enumeration. And every descriptor stands under the offset that
/// it carries, so that the offset identifies it.
pub proof fn law_repository_shaped(units: Seq<RawUnit>)
    ensures
        all_shaped(resolved(after_units(units, units.len() as int)).types),
{
    let st = after_units(units, units.len() as int);
    lemma_after_units_shaped(units, units.len() as int);
    let filled = backfilled(st.types);
    assert(all_shaped(filled)) by {
        assert forall|k: u64| filled.contains_key(k) implies (#[trigger] filled[k]).has_shape()
            && filled[k].offset == k by {
            assert(st.types[k].has_shape());
            assert(filled[k] == backfilled_type(st.types, st.types[k]));
        }
    }
    lemma_collapsed_shaped(filled, st.type_refs, st.type_refs.len() as int);
    lemma_inlined_shaped(
        collapsed(filled, st.type_refs, st.type_refs.len() as int),
        st.array_elements,
        st.array_elements.len() as int,
    );
}

} // verus!
