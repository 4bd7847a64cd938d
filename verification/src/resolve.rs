//! The reference resolver: after all entries are in, members learn the
//! name and size of their type, typedefs and qualifiers take over what
//! they stand for, and arrays get their element.

use crate::dwarf::{after_units, DwarfParser, ParserView};
use crate::dwarf_raw::RawUnit;
use crate::expand::repo_view;
use crate::types::{
    clone_members, clone_sizes, clone_variants, member_views, MemberView, StructMember, TypeInfo,
    TypeKind, TypeView,
};
use std::collections::HashMap;
use vstd::prelude::*;

verus! {

// ---------------------------------------------------------------------------
// Members learn their type
// ---------------------------------------------------------------------------

/// The member `m` with the name of its type, and with the size of its type
/// if it has no size of its own, where the repository `types` holds its
/// type.
pub open spec fn backfilled_member(types: Map<u64, TypeView>, m: MemberView) -> MemberView {
    match m.type_offset {
        Some(k) => if types.contains_key(k) {
            MemberView {
                ty_name: types[k].name,
                type_size: if m.type_size == 0 {
                    types[k].size
                } else {
                    m.type_size
                },
                ..m
            }
        } else {
            m
        },
        None => m,
    }
}

/// The members `ms`, each with what it learns of its type.
pub open spec fn backfilled_members(types: Map<u64, TypeView>, ms: Seq<MemberView>) -> Seq<
    MemberView,
> {
    Seq::new(ms.len(), |i: int| backfilled_member(types, ms[i]))
}

/// The descriptor `t` with its members backfilled.
pub open spec fn backfilled_type(types: Map<u64, TypeView>, t: TypeView) -> TypeView {
    TypeView { members: backfilled_members(types, t.members), ..t }
}

/// The repository with the members of every descriptor backfilled.
pub open spec fn backfilled(types: Map<u64, TypeView>) -> Map<u64, TypeView> {
    Map::new(|k: u64| types.contains_key(k), |k: u64| backfilled_type(types, types[k]))
}

// ---------------------------------------------------------------------------
// Typedefs and qualifiers take over what they stand for
// ---------------------------------------------------------------------------

/// The descriptor `alias` with everything but name and offset taken from
/// `target`.
pub open spec fn taken_over(alias: TypeView, target: TypeView) -> TypeView {
    TypeView { name: alias.name, offset: alias.offset, ..target }
}

/// The repository after the reference `from -> to` is followed once.
pub open spec fn collapsed_one(types: Map<u64, TypeView>, from: u64, to: u64) -> Map<
    u64,
    TypeView,
> {
    if to > 0 && types.contains_key(to) && types.contains_key(from) {
        types.insert(from, taken_over(types[from], types[to]))
    } else {
        types
    }
}

/// The repository after the first `upto` references are followed, in
/// order, once each.
pub open spec fn collapsed(types: Map<u64, TypeView>, refs: Seq<(u64, u64)>, upto: int) -> Map<
    u64,
    TypeView,
>
    decreases upto,
{
    if upto <= 0 || upto > refs.len() {
        types
    } else {
        collapsed_one(collapsed(types, refs, upto - 1), refs[upto - 1].0, refs[upto - 1].1)
    }
}

// ---------------------------------------------------------------------------
// Arrays get their element
// ---------------------------------------------------------------------------

/// The array `array` with `element` as its element and the encoding of
/// that element.
pub open spec fn with_element(array: TypeView, element: TypeView) -> TypeView {
    TypeView { pointer_target: Some(Box::new(element)), encoding: element.encoding, ..array }
}

/// The repository after the array at `array` gets the descriptor at
/// `element` as its element.
pub open spec fn inlined_one(types: Map<u64, TypeView>, array: u64, element: u64) -> Map<
    u64,
    TypeView,
> {
    if element > 0 && types.contains_key(array) && types[array].kind == TypeKind::Array
        && types.contains_key(element) {
        types.insert(array, with_element(types[array], types[element]))
    } else {
        types
    }
}

/// The repository after the first `upto` arrays get their element, in
/// order.
pub open spec fn inlined(types: Map<u64, TypeView>, arrays: Seq<(u64, u64)>, upto: int) -> Map<
    u64,
    TypeView,
>
    decreases upto,
{
    if upto <= 0 || upto > arrays.len() {
        types
    } else {
        inlined_one(inlined(types, arrays, upto - 1), arrays[upto - 1].0, arrays[upto - 1].1)
    }
}

/// The repository of the parser `st` with all references resolved:
/// members backfilled, then typedefs and qualifiers collapsed, then array
/// elements put in.
pub open spec fn resolved_types(st: ParserView) -> Map<u64, TypeView> {
    inlined(
        collapsed(backfilled(st.types), st.type_refs, st.type_refs.len() as int),
        st.array_elements,
        st.array_elements.len() as int,
    )
}

/// The parser `st` with all references resolved.
pub open spec fn resolved(st: ParserView) -> ParserView {
    ParserView { types: resolved_types(st), ..st }
}

fn backfill_members(types: &HashMap<u64, TypeInfo>, members: &Vec<StructMember>) -> (r: Vec<
    StructMember,
>)
    ensures
        member_views(r@) == backfilled_members(repo_view(types@), member_views(members@)),
{
    broadcast use vstd::std_specs::hash::group_hash_axioms;

    let mut r: Vec<StructMember> = Vec::new();
    let mut i: usize = 0;
    let ghost repo = repo_view(types@);
    while i < members.len()
        invariant
            i <= members.len(),
            r.len() == i,
            repo == repo_view(types@),
            forall|k: int|
                0 <= k < i ==> (#[trigger] r@[k])@ == backfilled_member(repo, members@[k]@),
        decreases members.len() - i,
    {
        let mut m = members[i].clone();
        match m.type_offset {
            Some(key) => {
                match types.get(&key) {
                    Some(t) => {
                        m.ty_name = t.name.clone();
                        if m.type_size == 0 {
                            m.type_size = t.size;
                        }
                        proof {
                            assert(repo.contains_key(key));
                            assert(repo[key] == t@);
                        }
                    },
                    None => {
                        proof {
                            assert(!repo.contains_key(key));
                        }
                    },
                }
            },
            None => {},
        }
        r.push(m);
        i += 1;
    }
    proof {
        assert(member_views(r@) =~= backfilled_members(repo, member_views(members@)));
    }
    r
}

impl DwarfParser {
    /// Gives every member the name of its type, and the size of its type
    /// where it has none of its own.
    pub fn resolve_all_member_types(&mut self)
        requires
            old(self)@.wf(),
        ensures
            final(self)@ == (ParserView { types: backfilled(old(self)@.types), ..old(self)@ }),
            final(self)@.wf(),
    {
        broadcast use vstd::std_specs::hash::group_hash_axioms;

        let ghost start = self@;
        let n = self.order.len();
        let mut i: usize = 0;
        while i < n
            invariant
                i <= n,
                n == start.order.len(),
                start.wf(),
                self@.wf(),
                self@ == (ParserView { types: self@.types, ..start }),
                forall|k: u64| self@.types.contains_key(k) <==> start.types.contains_key(k),
                forall|k: u64| #[trigger]
                    start.types.contains_key(k) ==> self@.types[k].name == start.types[k].name
                        && self@.types[k].size == start.types[k].size,
                forall|j: int|
                    0 <= j < i ==> self@.types[#[trigger] start.order[j]] == backfilled_type(
                        start.types,
                        start.types[start.order[j]],
                    ),
                forall|j: int|
                    i <= j < n ==> self@.types[#[trigger] start.order[j]]
                        == start.types[start.order[j]],
            decreases n - i,
        {
            let key = self.order[i];
            let ghost before = self@;
            proof {
                assert(start.order.contains(key));
                assert(start.types.contains_key(key));
            }
            let updated = match self.type_cache.get(&key) {
                Some(t) => {
                    let members = backfill_members(&self.type_cache, &t.members);
                    let mut copy = t.clone();
                    copy.members = members;
                    proof {
                        assert(t@ == before.types[key]);
                        assert(backfilled_members(before.types, t@.members)
                            =~= backfilled_members(start.types, t@.members)) by {
                            assert forall|x: int| 0 <= x < t@.members.len() implies
                                backfilled_member(before.types, t@.members[x])
                                == backfilled_member(start.types, t@.members[x]) by {
                                match t@.members[x].type_offset {
                                    Some(q) => {
                                        if start.types.contains_key(q) {
                                            assert(before.types.contains_key(q));
                                        }
                                    },
                                    None => {},
                                }
                            }
                        }
                        assert(copy@ == backfilled_type(start.types, start.types[key]));
                    }
                    Some(copy)
                },
                None => None,
            };
            match updated {
                Some(t) => {
                    self.insert_type(key, t);
                    proof {
                        assert forall|j: int| 0 <= j < i + 1 implies self@.types[
                        #[trigger] start.order[j]] == backfilled_type(
                            start.types,
                            start.types[start.order[j]],
                        ) by {
                            if j < i {
                                assert(start.order[j] != key);
                            }
                        }
                        assert forall|j: int| i + 1 <= j < n implies self@.types[
                        #[trigger] start.order[j]] == start.types[start.order[j]] by {
                            assert(start.order[j] != key);
                        }
                    }
                },
                None => {},
            }
            i += 1;
        }
        proof {
            assert forall|k: u64| self@.types.contains_key(k) implies self@.types[k]
                == backfilled(start.types)[k] by {
                assert(start.types.contains_key(k));
                assert(start.order.contains(k));
                let j = choose|j: int| 0 <= j < start.order.len() && start.order[j] == k;
                assert(self@.types[start.order[j]] == backfilled_type(
                    start.types,
                    start.types[start.order[j]],
                ));
            }
            assert(self@.types =~= backfilled(start.types));
        }
    }

    /// Lets every typedef and qualifier take over what it stands for, each
    /// reference followed once, in the order in which they were found.
    pub fn resolve_type_refs(&mut self)
        requires
            old(self)@.wf(),
        ensures
            final(self)@ == (ParserView {
                types: collapsed(
                    old(self)@.types,
                    old(self)@.type_refs,
                    old(self)@.type_refs.len() as int,
                ),
                ..old(self)@
            }),
            final(self)@.wf(),
    {
        broadcast use vstd::std_specs::hash::group_hash_axioms;

        let ghost start = self@;
        let n = self.type_refs.len();
        let mut i: usize = 0;
        while i < n
            invariant
                i <= n,
                n == start.type_refs.len(),
                self@.wf(),
                self@ == (ParserView {
                    types: collapsed(start.types, start.type_refs, i as int),
                    ..start
                }),
            decreases n - i,
        {
            let (from, to) = self.type_refs[i];
            let ghost cur = self@.types;
            let updated = if to > 0 {
                match self.type_cache.get(&to) {
                    Some(target) => {
                        match self.type_cache.get(&from) {
                            Some(alias) => {
                                let mut copy = target.clone();
                                copy.name = alias.name.clone();
                                copy.offset = alias.offset;
                                proof {
                                    assert(copy@ == taken_over(cur[from], cur[to]));
                                }
                                Some(copy)
                            },
                            None => None,
                        }
                    },
                    None => None,
                }
            } else {
                None
            };
            match updated {
                Some(t) => {
                    self.insert_type(from, t);
                },
                None => {},
            }
            i += 1;
        }
    }

    /// Gives every array its element and the encoding of its element, in
    /// the order in which the arrays were found.
    pub fn resolve_array_element_types(&mut self)
        requires
            old(self)@.wf(),
        ensures
            final(self)@ == (ParserView {
                types: inlined(
                    old(self)@.types,
                    old(self)@.array_elements,
                    old(self)@.array_elements.len() as int,
                ),
                ..old(self)@
            }),
            final(self)@.wf(),
    {
        broadcast use vstd::std_specs::hash::group_hash_axioms;

        let ghost start = self@;
        let n = self.array_elem_offsets.len();
        let mut i: usize = 0;
        while i < n
            invariant
                i <= n,
                n == start.array_elements.len(),
                self@.wf(),
                self@ == (ParserView {
                    types: inlined(start.types, start.array_elements, i as int),
                    ..start
                }),
            decreases n - i,
        {
            let (array, element) = self.array_elem_offsets[i];
            let ghost cur = self@.types;
            let updated = if element > 0 {
                match self.type_cache.get(&array) {
                    Some(a) => {
                        match a.kind {
                            TypeKind::Array => {
                                match self.type_cache.get(&element) {
                                    Some(e) => {
                                        let mut copy = TypeInfo {
                                            name: a.name.clone(),
                                            size: a.size,
                                            encoding: e.encoding,
                                            kind: a.kind,
                                            members: clone_members(&a.members),
                                            variants: clone_variants(&a.variants),
                                            array_dims: clone_sizes(&a.array_dims),
                                            pointer_target: Some(Box::new(e.clone())),
                                            offset: a.offset,
                                        };
                                        proof {
                                            assert(copy@ == with_element(cur[array], cur[element]));
                                        }
                                        Some(copy)
                                    },
                                    None => None,
                                }
                            },
                            _ => None,
                        }
                    },
                    None => None,
                }
            } else {
                None
            };
            match updated {
                Some(t) => {
                    self.insert_type(array, t);
                },
                None => {},
            }
            i += 1;
        }
    }

    /// The parser for the units `units`: every entry taken in, in order,
    /// then all references resolved.
    pub fn from_units(units: &Vec<RawUnit>) -> (r: Self)
        ensures
            r@ == resolved(after_units(units@, units@.len() as int)),
            r@.wf(),
    {
        let mut parser = DwarfParser::new();
        let mut i: usize = 0;
        while i < units.len()
            invariant
                i <= units.len(),
                parser@.wf(),
                parser@ == after_units(units@, i as int),
            decreases units.len() - i,
        {
            parser.process_unit(&units[i]);
            i += 1;
        }
        parser.resolve_all_member_types();
        parser.resolve_type_refs();
        parser.resolve_array_element_types();
        parser
    }
}

} // verus!
