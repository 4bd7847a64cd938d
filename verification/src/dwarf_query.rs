//! What can be asked of the parser once the repository stands.

use crate::dwarf::{
    find_name, named_views, offset_of_name, DwarfParser, NamedOffset, ParserView,
};
use crate::expand::repo_view;
use crate::number::{hex_lower, push_number, zero_padded};
use crate::text::{
    chars_of, contains, has_substring, lowercase_of, lowered, push_str, same_chars, string_of,
};
use crate::types::{MemberView, StructMember, TypeInfo, TypeKind, TypeView};
use std::collections::HashMap;
use vstd::prelude::*;

verus! {

/// The descriptors under the first `upto` offsets of `order`, as far as
/// the repository holds them.
pub open spec fn types_in_order(types: Map<u64, TypeView>, order: Seq<u64>, upto: int) -> Seq<
    TypeView,
>
    decreases upto,
{
    if upto <= 0 || upto > order.len() {
        Seq::empty()
    } else {
        let head = types_in_order(types, order, upto - 1);
        if types.contains_key(order[upto - 1]) {
            head.push(types[order[upto - 1]])
        } else {
            head
        }
    }
}

/// The offsets of a list of names with offsets.
pub open spec fn offsets_of(list: Seq<(Seq<char>, u64)>) -> Seq<u64> {
    Seq::new(list.len(), |i: int| list[i].1)
}

/// The views of the descriptors that a list of references points to.
pub open spec fn type_ref_views(s: Seq<&TypeInfo>) -> Seq<TypeView> {
    Seq::new(s.len(), |i: int| s[i]@)
}

/// The name of the type at `offset`, or a note that the repository does
/// not hold it.
pub open spec fn type_label(types: Map<u64, TypeView>, offset: u64) -> Seq<char> {
    if types.contains_key(offset) {
        types[offset].name
    } else {
        "unknown (offset: 0x"@ + hex_lower(offset as nat) + ")"@
    }
}

/// Each variable with the name of its type.
pub open spec fn variables_with_types(st: ParserView) -> Seq<(Seq<char>, Seq<char>)> {
    Seq::new(
        st.variables.len(),
        |i: int| (st.variables[i].0, type_label(st.types, st.variables[i].1)),
    )
}

/// The views of a list of pairs of strings.
pub open spec fn pair_views(s: Seq<(String, String)>) -> Seq<(Seq<char>, Seq<char>)> {
    Seq::new(s.len(), |i: int| (s[i].0@, s[i].1@))
}

/// Among the first `upto` variables, those whose type the repository
/// holds as a struct: the name of each with that type.
pub open spec fn struct_instances(st: ParserView, upto: int) -> Seq<(Seq<char>, TypeView)>
    decreases upto,
{
    if upto <= 0 || upto > st.variables.len() {
        Seq::empty()
    } else {
        let head = struct_instances(st, upto - 1);
        let v = st.variables[upto - 1];
        if st.types.contains_key(v.1) && st.types[v.1].kind == TypeKind::Struct {
            head.push((v.0, st.types[v.1]))
        } else {
            head
        }
    }
}

/// The views of a list of names with descriptors.
pub open spec fn instance_views(s: Seq<(String, &TypeInfo)>) -> Seq<(Seq<char>, TypeView)> {
    Seq::new(s.len(), |i: int| (s[i].0@, s[i].1@))
}

/// How many of the first `upto` variables have a type that the repository
/// holds.
pub open spec fn resolved_count(st: ParserView, upto: int) -> nat
    decreases upto,
{
    if upto <= 0 || upto > st.variables.len() {
        0
    } else if st.types.contains_key(st.variables[upto - 1].1) {
        resolved_count(st, upto - 1) + 1
    } else {
        resolved_count(st, upto - 1)
    }
}

/// The offsets of the types of the first `upto` variables that the
/// repository does not hold, each once, in the order of first appearance.
pub open spec fn unresolved_offsets(st: ParserView, upto: int) -> Seq<u64>
    decreases upto,
{
    if upto <= 0 || upto > st.variables.len() {
        Seq::empty()
    } else {
        let head = unresolved_offsets(st, upto - 1);
        let o = st.variables[upto - 1].1;
        if st.types.contains_key(o) || head.contains(o) {
            head
        } else {
            head.push(o)
        }
    }
}

/// No more types are resolved than variables were looked at.
pub proof fn lemma_resolved_count_bound(st: ParserView, upto: int)
    ensures
        resolved_count(st, upto) <= (if upto > 0 {
            upto
        } else {
            0
        }),
    decreases upto,
{
    if 0 < upto <= st.variables.len() {
        lemma_resolved_count_bound(st, upto - 1);
    }
}

/// No more offsets are missing than variables were looked at.
pub proof fn lemma_unresolved_bound(st: ParserView, upto: int)
    ensures
        unresolved_offsets(st, upto).len() <= (if upto > 0 {
            upto
        } else {
            0
        }),
    decreases upto,
{
    if 0 < upto <= st.variables.len() {
        lemma_unresolved_bound(st, upto - 1);
    }
}

/// A member of a struct together with the struct.
pub struct MemberMatch {
    pub owner: TypeView,
    pub member: MemberView,
}

/// Whether the lower-case name of `m` is, or with `loose` holds, the
/// lower-case form of `wanted`.
pub open spec fn member_matches(m: MemberView, wanted: Seq<char>, loose: bool) -> bool {
    if loose {
        contains(lowercase_of(m.name), lowercase_of(wanted))
    } else {
        lowercase_of(m.name) == lowercase_of(wanted)
    }
}

/// The first `upto` members of `t` that match.
pub open spec fn matches_in_type(t: TypeView, wanted: Seq<char>, loose: bool, upto: int) -> Seq<
    MemberMatch,
>
    decreases upto,
{
    if upto <= 0 || upto > t.members.len() {
        Seq::empty()
    } else {
        let head = matches_in_type(t, wanted, loose, upto - 1);
        if member_matches(t.members[upto - 1], wanted, loose) {
            head.push(MemberMatch { owner: t, member: t.members[upto - 1] })
        } else {
            head
        }
    }
}

/// The members that match among those of the first `upto` named structs
/// and unions.
pub open spec fn matches_in_structs(st: ParserView, wanted: Seq<char>, loose: bool, upto: int)
    -> Seq<MemberMatch>
    decreases upto,
{
    if upto <= 0 || upto > st.structs.len() {
        Seq::empty()
    } else {
        let head = matches_in_structs(st, wanted, loose, upto - 1);
        let o = st.structs[upto - 1].1;
        if st.types.contains_key(o) {
            head + matches_in_type(st.types[o], wanted, loose, st.types[o].members.len() as int)
        } else {
            head
        }
    }
}

/// The members named `wanted`, letter case set aside; if there is none,
/// the members whose name holds `wanted`.
pub open spec fn members_found(st: ParserView, wanted: Seq<char>) -> Seq<MemberMatch> {
    let exact = matches_in_structs(st, wanted, false, st.structs.len() as int);
    if exact.len() > 0 {
        exact
    } else {
        matches_in_structs(st, wanted, true, st.structs.len() as int)
    }
}

/// The views of a list of structs with members.
pub open spec fn match_views(s: Seq<(&TypeInfo, &StructMember)>) -> Seq<MemberMatch> {
    Seq::new(s.len(), |i: int| MemberMatch { owner: s[i].0@, member: s[i].1@ })
}

impl DwarfParser {
    /// How many variables have a type recorded.
    pub fn get_variable_count(&self) -> (r: usize)
        ensures
            r == self@.variables.len(),
    {
        self.variable_types.len()
    }

    /// How many descriptors the repository holds.
    pub fn get_type_cache_size(&self) -> (r: usize)
        ensures
            r == self@.types.dom().len(),
    {
        self.type_count()
    }

    /// The repository.
    pub fn type_cache(&self) -> (r: &HashMap<u64, TypeInfo>)
        ensures
            repo_view(r@) == self@.types,
    {
        &self.type_cache
    }

    /// How many descriptors the repository holds.
    pub fn type_count(&self) -> (r: usize)
        ensures
            r == self@.types.dom().len(),
    {
        broadcast use vstd::std_specs::hash::group_hash_axioms;

        proof {
            assert(self@.types.dom() =~= self.type_cache@.dom());
        }
        self.type_cache.len()
    }

    /// The counts: base types, structs, unions, enumerations, arrays,
    /// pointers, typedefs, variables, members and enumerators.
    pub fn get_stats(&self) -> (r: (
        usize,
        usize,
        usize,
        usize,
        usize,
        usize,
        usize,
        usize,
        usize,
        usize,
    ))
        ensures
            r == (
                self@.stats.base_types,
                self@.stats.structs,
                self@.stats.unions,
                self@.stats.enums,
                self@.stats.arrays,
                self@.stats.pointers,
                self@.stats.typedefs,
                self@.stats.variables,
                self@.stats.struct_members,
                self@.stats.enum_values,
            ),
    {
        (
            self.stats.base_types,
            self.stats.structs,
            self.stats.unions,
            self.stats.enums,
            self.stats.arrays,
            self.stats.pointers,
            self.stats.typedefs,
            self.stats.variables,
            self.stats.struct_members,
            self.stats.enum_values,
        )
    }

    /// The descriptor defined at `offset`.
    pub fn get_type_by_offset(&self, offset: u64) -> (r: Option<&TypeInfo>)
        ensures
            match r {
                Some(t) => self@.types.contains_key(offset) && t@ == self@.types[offset],
                None => !self@.types.contains_key(offset),
            },
    {
        broadcast use vstd::std_specs::hash::group_hash_axioms;

        self.type_cache.get(&offset)
    }

    /// The descriptors under the offsets `keys`, in that order, as far as
    /// the repository holds them.
    pub fn types_at(&self, keys: &Vec<u64>) -> (r: Vec<&TypeInfo>)
        ensures
            type_ref_views(r@) == types_in_order(self@.types, keys@, keys@.len() as int),
    {
        let mut r: Vec<&TypeInfo> = Vec::new();
        let mut i: usize = 0;
        proof {
            assert(type_ref_views(r@) =~= types_in_order(self@.types, keys@, 0));
        }
        while i < keys.len()
            invariant
                i <= keys.len(),
                type_ref_views(r@) == types_in_order(self@.types, keys@, i as int),
            decreases keys.len() - i,
        {
            match self.get_type_by_offset(keys[i]) {
                Some(t) => {
                    let ghost before = r@;
                    r.push(t);
                    proof {
                        assert(type_ref_views(r@) =~= type_ref_views(before).push(t@));
                    }
                },
                None => {},
            }
            i += 1;
        }
        r
    }

    /// All descriptors, in the order in which their offsets came in.
    pub fn all_types(&self) -> (r: Vec<&TypeInfo>)
        ensures
            type_ref_views(r@) == types_in_order(
                self@.types,
                self@.order,
                self@.order.len() as int,
            ),
    {
        self.types_at(&self.order)
    }

    /// The struct or union named `name`.
    pub fn find_struct_by_name(&self, name: &str) -> (r: Option<&TypeInfo>)
        ensures
            match offset_of_name(self@.structs, name@) {
                Some(o) => match r {
                    Some(t) => self@.types.contains_key(o) && t@ == self@.types[o],
                    None => !self@.types.contains_key(o),
                },
                None => r.is_none(),
            },
    {
        let wanted = chars_of(name);
        match find_name(&self.struct_index, wanted.as_slice()) {
            Some(i) => {
                proof {
                    assert(named_views(self.struct_index@)[i as int].1
                        == self.struct_index@[i as int].offset);
                }
                self.get_type_by_offset(self.struct_index[i].offset)
            },
            None => None,
        }
    }

    /// The named structs and unions, in the order in which their names
    /// came in.
    pub fn list_structs(&self) -> (r: Vec<&TypeInfo>)
        ensures
            type_ref_views(r@) == types_in_order(
                self@.types,
                offsets_of(self@.structs),
                self@.structs.len() as int,
            ),
    {
        let mut keys: Vec<u64> = Vec::new();
        let mut i: usize = 0;
        while i < self.struct_index.len()
            invariant
                i <= self.struct_index.len(),
                keys.len() == i,
                forall|k: int| 0 <= k < i ==> keys@[k] == self.struct_index@[k].offset,
            decreases self.struct_index.len() - i,
        {
            keys.push(self.struct_index[i].offset);
            i += 1;
        }
        proof {
            assert(keys@ =~= offsets_of(self@.structs));
        }
        self.types_at(&keys)
    }

    /// Each variable with the name of its type.
    pub fn list_variables_with_types(&self) -> (r: Vec<(String, String)>)
        ensures
            pair_views(r@) == variables_with_types(self@),
    {
        let mut r: Vec<(String, String)> = Vec::new();
        let mut i: usize = 0;
        while i < self.variable_types.len()
            invariant
                i <= self.variable_types.len(),
                r.len() == i,
                forall|k: int|
                    0 <= k < i ==> (#[trigger] r@[k]).0@ == self@.variables[k].0 && r@[k].1@
                        == type_label(self@.types, self@.variables[k].1),
            decreases self.variable_types.len() - i,
        {
            let v = &self.variable_types[i];
            proof {
                assert(self@.variables[i as int] == (v.name@, v.offset));
            }
            let label = match self.get_type_by_offset(v.offset) {
                Some(t) => t.name.clone(),
                None => {
                    let mut out: Vec<char> = Vec::new();
                    push_str(&mut out, "unknown (offset: 0x");
                    push_number(&mut out, v.offset, 16, false, 0);
                    push_str(&mut out, ")");
                    proof {
                        assert(zero_padded(hex_lower(v.offset as nat), 0) == hex_lower(
                            v.offset as nat,
                        ));
                        assert(out@ =~= type_label(self@.types, v.offset));
                    }
                    string_of(out.as_slice())
                },
            };
            r.push((v.name.clone(), label));
            i += 1;
        }
        proof {
            assert(pair_views(r@) =~= variables_with_types(self@));
        }
        r
    }

    /// The variables whose type the repository holds as a struct, each
    /// with that type.
    pub fn list_struct_instance_variables(&self) -> (r: Vec<(String, &TypeInfo)>)
        ensures
            instance_views(r@) == struct_instances(self@, self@.variables.len() as int),
    {
        let mut r: Vec<(String, &TypeInfo)> = Vec::new();
        let mut i: usize = 0;
        proof {
            assert(instance_views(r@) =~= struct_instances(self@, 0));
        }
        while i < self.variable_types.len()
            invariant
                i <= self.variable_types.len(),
                instance_views(r@) == struct_instances(self@, i as int),
            decreases self.variable_types.len() - i,
        {
            let v = &self.variable_types[i];
            proof {
                assert(self@.variables[i as int] == (v.name@, v.offset));
            }
            match self.get_type_by_offset(v.offset) {
                Some(t) => {
                    match t.kind {
                        TypeKind::Struct => {
                            let ghost before = r@;
                            let name = v.name.clone();
                            r.push((name, t));
                            proof {
                                assert(instance_views(r@) =~= instance_views(before).push(
                                    (v.name@, t@),
                                ));
                            }
                        },
                        _ => {},
                    }
                },
                None => {},
            }
            i += 1;
        }
        r
    }

    /// How many variables have a type recorded, how many of these types
    /// the repository holds, and how many different offsets it does not
    /// hold.
    pub fn debug_type_resolution(&self) -> (r: (usize, usize, usize))
        ensures
            r.0 == self@.variables.len(),
            r.1 == resolved_count(self@, self@.variables.len() as int),
            r.2 == unresolved_offsets(self@, self@.variables.len() as int).len(),
    {
        let mut resolved: usize = 0;
        let mut missing: Vec<u64> = Vec::new();
        let mut i: usize = 0;
        while i < self.variable_types.len()
            invariant
                i <= self.variable_types.len(),
                resolved == resolved_count(self@, i as int),
                missing@ == unresolved_offsets(self@, i as int),
            decreases self.variable_types.len() - i,
        {
            let v = &self.variable_types[i];
            proof {
                assert(self@.variables[i as int] == (v.name@, v.offset));
                lemma_resolved_count_bound(self@, i as int);
                lemma_unresolved_bound(self@, i as int);
            }
            match self.get_type_by_offset(v.offset) {
                Some(t) => {
                    resolved += 1;
                },
                None => {
                    let mut k: usize = 0;
                    let mut seen = false;
                    while k < missing.len()
                        invariant
                            k <= missing.len(),
                            seen == missing@.take(k as int).contains(v.offset),
                        decreases missing.len() - k,
                    {
                        proof {
                            let next = missing@.take(k + 1);
                            let prev = missing@.take(k as int);
                            assert(next =~= prev.push(missing@[k as int]));
                            if prev.contains(v.offset) {
                                let j = choose|j: int| 0 <= j < prev.len() && prev[j] == v.offset;
                                assert(next[j] == v.offset);
                            }
                            if missing@[k as int] == v.offset {
                                assert(next[k as int] == v.offset);
                            }
                            if next.contains(v.offset) && !prev.contains(v.offset) {
                                let j = choose|j: int| 0 <= j < next.len() && next[j] == v.offset;
                                if j < k {
                                    assert(prev[j] == v.offset);
                                }
                            }
                        }
                        if missing[k] == v.offset {
                            seen = true;
                        }
                        k += 1;
                    }
                    proof {
                        assert(missing@.take(missing.len() as int) =~= missing@);
                    }
                    if !seen {
                        missing.push(v.offset);
                    }
                },
            }
            i += 1;
        }
        (self.variable_types.len(), resolved, missing.len())
    }

    fn collect_member_matches<'a>(&'a self, wanted: &[char], loose: bool, Ghost(name): Ghost<
        Seq<char>,
    >) -> (r: Vec<(&'a TypeInfo, &'a StructMember)>)
        requires
            wanted@ == lowercase_of(name),
        ensures
            match_views(r@) == matches_in_structs(self@, name, loose, self@.structs.len() as int),
    {
        let mut r: Vec<(&TypeInfo, &StructMember)> = Vec::new();
        let mut i: usize = 0;
        proof {
            assert(match_views(r@) =~= matches_in_structs(self@, name, loose, 0));
        }
        while i < self.struct_index.len()
            invariant
                i <= self.struct_index.len(),
                wanted@ == lowercase_of(name),
                match_views(r@) == matches_in_structs(self@, name, loose, i as int),
            decreases self.struct_index.len() - i,
        {
            let offset = self.struct_index[i].offset;
            proof {
                assert(self@.structs[i as int].1 == offset);
            }
            match self.get_type_by_offset(offset) {
                Some(t) => {
                    let ghost start = match_views(r@);
                    let mut k: usize = 0;
                    proof {
                        assert(match_views(r@) =~= start + matches_in_type(t@, name, loose, 0));
                    }
                    while k < t.members.len()
                        invariant
                            k <= t.members.len(),
                            wanted@ == lowercase_of(name),
                            match_views(r@) == start + matches_in_type(t@, name, loose, k as int),
                        decreases t.members.len() - k,
                    {
                        let m = &t.members[k];
                        let lower = lowered(m.name.as_str());
                        proof {
                            assert(t@.members[k as int] == m@);
                        }
                        let hit = if loose {
                            has_substring(lower.as_slice(), wanted)
                        } else {
                            same_chars(lower.as_slice(), wanted)
                        };
                        if hit {
                            let ghost before = r@;
                            r.push((t, m));
                            proof {
                                assert(match_views(r@) =~= match_views(before).push(
                                    MemberMatch { owner: t@, member: m@ },
                                ));
                                assert(match_views(r@) =~= start + matches_in_type(
                                    t@,
                                    name,
                                    loose,
                                    k + 1,
                                ));
                            }
                        }
                        k += 1;
                    }
                },
                None => {},
            }
            i += 1;
        }
        r
    }

    /// The members named `member_name`, letter case set aside, each with
    /// its struct or union; if there is none, the members whose name
    /// holds `member_name`.
    pub fn find_structs_containing_member(&self, member_name: &str) -> (r: Vec<
        (&TypeInfo, &StructMember),
    >)
        ensures
            match_views(r@) == members_found(self@, member_name@),
    {
        let wanted = lowered(member_name);
        let exact = self.collect_member_matches(wanted.as_slice(), false, Ghost(member_name@));
        if exact.len() > 0 {
            exact
        } else {
            self.collect_member_matches(wanted.as_slice(), true, Ghost(member_name@))
        }
    }
}

} // verus!
