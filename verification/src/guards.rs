//! Counting where the expansion stops short: at the depth limit and at
//! the cap on array elements.

use crate::expand::{
    chain_dims, chain_element_size, chain_leaf, depth_left, lemma_chain_leaf_below, path_contains,
    product, product_capped, repo_view, sized,
};
use crate::elf::ElfParser;
use crate::types::{
    variable_views, TypeInfo, TypeKind, TypeView, Variable, VariableView, MAX_ARRAY_EXPAND,
    MAX_NESTING_DEPTH,
};
use std::collections::HashMap;
use vstd::prelude::*;

verus! {

/// How often an expansion stopped short.
#[derive(Debug, Clone, Copy, PartialEq, Eq, Structural)]
pub struct GuardCounts {
    /// How often the descent stopped at the depth limit.
    pub too_deep: usize,
    /// How many arrays were left unexpanded for having too many elements.
    pub too_wide: usize,
}

/// How often an expansion stops short, without the limits of a machine
/// word.
pub struct Stops {
    pub too_deep: nat,
    pub too_wide: nat,
}

impl Stops {
    /// No stop.
    pub open spec fn none() -> Stops {
        Stops { too_deep: 0, too_wide: 0 }
    }

    /// The stops of two expansions together.
    pub open spec fn plus(self, other: Stops) -> Stops {
        Stops {
            too_deep: self.too_deep + other.too_deep,
            too_wide: self.too_wide + other.too_wide,
        }
    }

    /// The stops of `n` expansions like this one.
    pub open spec fn times(self, n: nat) -> Stops {
        Stops { too_deep: self.too_deep * n, too_wide: self.too_wide * n }
    }
}

/// `n`, or `usize::MAX` where `n` is greater.
pub open spec fn capped(n: nat) -> usize {
    if n > usize::MAX {
        usize::MAX
    } else {
        n as usize
    }
}

/// The stops `s` as counts that fit a machine word.
pub open spec fn counts_of(s: Stops) -> GuardCounts {
    GuardCounts { too_deep: capped(s.too_deep), too_wide: capped(s.too_wide) }
}

/// How often the expansion of a cell of type `t` at depth `depth` stops
/// short: once at the depth limit; once for an array with more than
/// `MAX_ARRAY_EXPAND` elements; and as often as the expansions of its
/// members and elements do.
pub open spec fn stops_in(repo: Map<u64, TypeView>, t: TypeView, depth: nat, visited: Seq<u64>)
    -> Stops
    decreases depth_left(depth), t.nesting(), 1nat, 0nat,
{
    if depth > MAX_NESTING_DEPTH {
        Stops { too_deep: 1, too_wide: 0 }
    } else if t.offset > 0 && visited.contains(t.offset) {
        Stops::none()
    } else {
        let inside = visited.push(t.offset);
        match t.kind {
            TypeKind::Struct | TypeKind::Union => stops_in_members(repo, t, 0, depth, inside),
            TypeKind::Array => {
                let total = product(chain_dims(t));
                if total > MAX_ARRAY_EXPAND {
                    Stops { too_deep: 0, too_wide: 1 }
                } else if total > 0 {
                    match chain_leaf(t) {
                        Some(e) => if e.nesting() < t.nesting() {
                            stops_in(
                                repo,
                                sized(e, chain_element_size(t, 0)),
                                depth,
                                inside,
                            ).times(total)
                        } else {
                            Stops::none()
                        },
                        None => Stops::none(),
                    }
                } else {
                    Stops::none()
                }
            },
            _ => Stops::none(),
        }
    }
}

/// The stops in the expansions of the members of `t` from position `from`
/// on.
pub open spec fn stops_in_members(
    repo: Map<u64, TypeView>,
    t: TypeView,
    from: nat,
    depth: nat,
    inside: Seq<u64>,
) -> Stops
    decreases depth_left(depth), t.nesting(), 0nat, t.members.len() - from,
{
    if depth > MAX_NESTING_DEPTH || from >= t.members.len() {
        Stops::none()
    } else {
        let m = t.members[from as int];
        let rest = stops_in_members(repo, t, from + 1, depth, inside);
        if m.is_bitfield() {
            rest
        } else {
            match m.type_offset {
                Some(key) => if repo.contains_key(key) {
                    stops_in(repo, repo[key], depth + 1, inside).plus(rest)
                } else {
                    rest
                },
                None => rest,
            }
        }
    }
}

/// The stops in the expansion of the variable `v`.
pub open spec fn stops_in_variable(repo: Map<u64, TypeView>, v: VariableView) -> Stops {
    match v.type_info {
        Some(t) => stops_in(repo, t, 0, Seq::empty()),
        None => Stops::none(),
    }
}

/// The stops in the expansions of the variables `vars`.
pub open spec fn stops_in_all(repo: Map<u64, TypeView>, vars: Seq<VariableView>) -> Stops
    decreases vars.len(),
{
    if vars.len() == 0 {
        Stops::none()
    } else {
        stops_in_all(repo, vars.drop_last()).plus(stops_in_variable(repo, vars.last()))
    }
}

fn add_capped(a: usize, b: usize) -> (r: usize)
    ensures
        r == capped(a as nat + b as nat),
{
    if a > usize::MAX - b {
        usize::MAX
    } else {
        a + b
    }
}

fn mul_capped(a: usize, n: usize) -> (r: usize)
    ensures
        r == capped(a as nat * n as nat),
{
    proof {
        assert(a * n <= 0xffff_ffff_ffff_ffff * 0xffff_ffff_ffff_ffff) by (nonlinear_arith)
            requires
                a <= 0xffff_ffff_ffff_ffff,
                n <= 0xffff_ffff_ffff_ffff,
        ;
    }
    let wide: u128 = (a as u128) * (n as u128);
    if wide > usize::MAX as u128 {
        usize::MAX
    } else {
        wide as usize
    }
}

proof fn lemma_capped_plus(a: nat, b: nat)
    ensures
        capped(capped(a) as nat + capped(b) as nat) == capped(a + b),
{
}

proof fn lemma_capped_times(a: nat, n: nat)
    ensures
        capped(capped(a) as nat * n) == capped(a * n),
{
    if a > usize::MAX {
        if n == 0 {
            assert(a * n == 0) by (nonlinear_arith)
                requires
                    n == 0,
            ;
            assert(capped(a) as nat * n == 0) by (nonlinear_arith)
                requires
                    n == 0,
            ;
        } else {
            assert(a * n > usize::MAX) by (nonlinear_arith)
                requires
                    a > usize::MAX,
                    n >= 1,
            ;
            assert(capped(a) as nat * n >= usize::MAX) by (nonlinear_arith)
                requires
                    capped(a) == usize::MAX,
                    n >= 1,
            ;
        }
    }
}

impl ElfParser {
    /// How often the expansion of a cell of type `type_info`, taken with
    /// the size `size`, stops short at depth `depth`.
    pub fn count_guard_stops(
        type_info: &TypeInfo,
        size: usize,
        depth: usize,
        visited: &mut Vec<u64>,
        type_cache: &HashMap<u64, TypeInfo>,
    ) -> (r: GuardCounts)
        ensures
            final(visited)@ == old(visited)@,
            r == counts_of(
                stops_in(
                    repo_view(type_cache@),
                    TypeView { size, ..type_info@ },
                    depth as nat,
                    old(visited)@,
                ),
            ),
        decreases depth_left(depth as nat), type_info@.nesting(), 1nat, 0nat,
    {
        broadcast use vstd::std_specs::hash::group_hash_axioms;

        let ghost repo = repo_view(type_cache@);
        let ghost t = TypeView { size, ..type_info@ };
        let ghost path = visited@;
        if depth > MAX_NESTING_DEPTH {
            return GuardCounts { too_deep: 1, too_wide: 0 };
        }
        if type_info.offset > 0 && path_contains(visited, type_info.offset) {
            return GuardCounts { too_deep: 0, too_wide: 0 };
        }
        visited.push(type_info.offset);
        let ghost inside = visited@;
        let mut counts = GuardCounts { too_deep: 0, too_wide: 0 };
        match type_info.kind {
            TypeKind::Struct | TypeKind::Union => {
                let mut i: usize = type_info.members.len();
                while i > 0
                    invariant
                        i <= type_info.members.len(),
                        depth <= MAX_NESTING_DEPTH,
                        visited@ == inside,
                        repo == repo_view(type_cache@),
                        t == (TypeView { size, ..type_info@ }),
                        counts == counts_of(
                            stops_in_members(repo, t, i as nat, depth as nat, inside),
                        ),
                    decreases i,
                {
                    i -= 1;
                    let member = &type_info.members[i];
                    let ghost rest = stops_in_members(
                        repo,
                        t,
                        (i + 1) as nat,
                        depth as nat,
                        inside,
                    );
                    proof {
                        assert(t.members[i as int] == member@);
                    }
                    if !member.is_bitfield() {
                        match member.type_offset {
                            Some(key) => {
                                match type_cache.get(&key) {
                                    Some(member_type) => {
                                        proof {
                                            assert(repo.contains_key(key));
                                            assert(repo[key] == member_type@);
                                            assert((TypeView {
                                                size: member_type.size,
                                                ..member_type@
                                            }) == member_type@);
                                        }
                                        let below = Self::count_guard_stops(
                                            member_type,
                                            member_type.size,
                                            depth + 1,
                                            visited,
                                            type_cache,
                                        );
                                        proof {
                                            let b = stops_in(
                                                repo,
                                                repo[key],
                                                (depth + 1) as nat,
                                                inside,
                                            );
                                            lemma_capped_plus(b.too_deep, rest.too_deep);
                                            lemma_capped_plus(b.too_wide, rest.too_wide);
                                        }
                                        counts = GuardCounts {
                                            too_deep: add_capped(below.too_deep, counts.too_deep),
                                            too_wide: add_capped(below.too_wide, counts.too_wide),
                                        };
                                    },
                                    None => {
                                        proof {
                                            assert(!repo.contains_key(key));
                                        }
                                    },
                                }
                            },
                            None => {},
                        }
                    }
                }
            },
            TypeKind::Array => {
                let (dims, elem, elem_size) = Self::flatten_array_type(type_info, size);
                proof {
                    lemma_chain_leaf_below(t);
                }
                match product_capped(&dims, MAX_ARRAY_EXPAND) {
                    None => {
                        counts = GuardCounts { too_deep: 0, too_wide: 1 };
                    },
                    Some(total) => {
                        if total > 0 {
                            match elem {
                                Some(e) => {
                                    let leaf_size = if e.size == 0 {
                                        elem_size
                                    } else {
                                        e.size
                                    };
                                    proof {
                                        assert((TypeView { size: leaf_size, ..e@ }) == sized(
                                            e@,
                                            elem_size,
                                        ));
                                        assert(e@.nesting() < type_info@.nesting());
                                    }
                                    let one = Self::count_guard_stops(
                                        e,
                                        leaf_size,
                                        depth,
                                        visited,
                                        type_cache,
                                    );
                                    proof {
                                        let s = stops_in(
                                            repo,
                                            sized(e@, elem_size),
                                            depth as nat,
                                            inside,
                                        );
                                        lemma_capped_times(s.too_deep, total as nat);
                                        lemma_capped_times(s.too_wide, total as nat);
                                    }
                                    counts = GuardCounts {
                                        too_deep: mul_capped(one.too_deep, total),
                                        too_wide: mul_capped(one.too_wide, total),
                                    };
                                },
                                None => {},
                            }
                        }
                    },
                }
            },
            _ => {},
        }
        visited.pop();
        proof {
            assert(visited@ =~= path);
        }
        counts
    }

    /// How often the expansions of `variables` stop short.
    pub fn count_all_guard_stops(variables: &Vec<Variable>, type_cache: &HashMap<u64, TypeInfo>)
        -> (r: GuardCounts)
        ensures
            r == counts_of(stops_in_all(repo_view(type_cache@), variable_views(variables@))),
    {
        let mut counts = GuardCounts { too_deep: 0, too_wide: 0 };
        let ghost vars = variable_views(variables@);
        let ghost repo = repo_view(type_cache@);
        let mut i: usize = 0;
        proof {
            assert(vars.take(0) =~= Seq::<VariableView>::empty());
        }
        while i < variables.len()
            invariant
                i <= variables.len(),
                vars == variable_views(variables@),
                repo == repo_view(type_cache@),
                counts == counts_of(stops_in_all(repo, vars.take(i as int))),
            decreases variables.len() - i,
        {
            let ghost before = stops_in_all(repo, vars.take(i as int));
            proof {
                let next = vars.take(i + 1);
                assert(next.drop_last() =~= vars.take(i as int));
                assert(next.last() == variables@[i as int]@);
            }
            match &variables[i].type_info {
                Some(t) => {
                    let mut visited: Vec<u64> = Vec::new();
                    proof {
                        assert(visited@ =~= Seq::<u64>::empty());
                        assert((TypeView { size: t.size, ..t@ }) == t@);
                    }
                    let one = Self::count_guard_stops(t, t.size, 0, &mut visited, type_cache);
                    proof {
                        let s = stops_in(repo, t@, 0, Seq::empty());
                        lemma_capped_plus(before.too_deep, s.too_deep);
                        lemma_capped_plus(before.too_wide, s.too_wide);
                    }
                    counts = GuardCounts {
                        too_deep: add_capped(counts.too_deep, one.too_deep),
                        too_wide: add_capped(counts.too_wide, one.too_wide),
                    };
                },
                None => {},
            }
            i += 1;
        }
        proof {
            assert(vars.take(variables.len() as int) =~= vars);
        }
        counts
    }
}

} // verus!
