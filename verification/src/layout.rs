//! What holds of every catalogue: where the descent stops, where entries
//! lie within their variable, how array elements are addressed, and what
//! the mask of a bitfield is.

use crate::a2l::{bitfield_mask, bitfield_max};
use crate::expand::{
    addr_plus, bitfield_entry, catalogue, chain_dims, chain_element_size, chain_leaf, depth_left,
    element_name, expansion, flat_entries, flat_entry, indexed_name,
    lemma_positive_product_factors, lemma_product_front, lemma_product_positive,
    member_expansion, members_expansion, multi_index, product, root_entry, sized, stride,
    variable_expansion, walk, walk_from,
};
use vstd::arithmetic::div_mod::{
    lemma_add_mod_noop_right, lemma_fundamental_div_mod, lemma_fundamental_div_mod_converse,
    lemma_mod_bound,
};
use crate::types::{
    EntryView, MemberView, TypeKind, TypeView, VariableView, MAX_ARRAY_EXPAND, MAX_NESTING_DEPTH,
};
use vstd::arithmetic::power2::{lemma2_to64, lemma2_to64_rest, lemma_pow2_adds, lemma_pow2_pos, lemma_pow2_strictly_increases, pow2};
use vstd::prelude::*;

verus! {

// ---------------------------------------------------------------------------
// Where the descent stops
// ---------------------------------------------------------------------------

/// Beyond `MAX_NESTING_DEPTH` the descent produces nothing.
pub proof fn law_depth_guard(
    repo: Map<u64, TypeView>,
    prefix: Seq<char>,
    addr: u64,
    t: TypeView,
    depth: nat,
    visited: Seq<u64>,
    indices: Seq<usize>,
)
    requires
        depth > MAX_NESTING_DEPTH,
    ensures
        expansion(repo, prefix, addr, t, depth, visited, indices) == Seq::<EntryView>::empty(),
{
}

/// A type that the descent is already inside is not entered again: every
/// cycle through the repository is broken where it closes.
pub proof fn law_cycle_guard(
    repo: Map<u64, TypeView>,
    prefix: Seq<char>,
    addr: u64,
    t: TypeView,
    depth: nat,
    visited: Seq<u64>,
    indices: Seq<usize>,
)
    requires
        t.offset > 0,
        visited.contains(t.offset),
    ensures
        expansion(repo, prefix, addr, t, depth, visited, indices) == Seq::<EntryView>::empty(),
{
}

/// Every step of the descent into a member uses up one level of the depth
/// that is left, and none is left beyond `MAX_NESTING_DEPTH`: the descent
/// ends after at most that many levels.
pub proof fn law_depth_is_used_up(depth: nat)
    ensures
        depth_left(depth) <= MAX_NESTING_DEPTH + 1,
        depth <= MAX_NESTING_DEPTH ==> depth_left(depth + 1) < depth_left(depth),
        depth > MAX_NESTING_DEPTH ==> depth_left(depth) == 0,
{
}

// ---------------------------------------------------------------------------
// The mask of a bitfield
// ---------------------------------------------------------------------------

/// The greatest value of a bitfield of `bit_size` bits is one less than
/// the power of two of `bit_size`.
pub proof fn law_bitfield_max(bit_size: usize)
    requires
        bit_size <= 64,
    ensures
        bitfield_max(bit_size) == pow2(bit_size as nat) - 1,
{
    lemma2_to64();
    lemma2_to64_rest();
    if bit_size < 64 {
        let w = bit_size as u64;
        lemma_pow2_strictly_increases(bit_size as nat, 64);
        vstd::bits::lemma_u64_shl_is_mul(1, w);
        assert(1u64 << w >= 1) by (bit_vector)
            requires
                w < 64,
        ;
    }
}

/// The mask of a bitfield that lies within 64 bits is the greatest value
/// of its bits, shifted to its offset: `((1 << bit_size) - 1) << bit_offset`.
pub proof fn law_bitfield_mask(bit_offset: usize, bit_size: usize)
    requires
        bit_offset + bit_size <= 64,
    ensures
        bitfield_mask(bit_offset, bit_size) == (pow2(bit_size as nat) - 1) * pow2(
            bit_offset as nat,
        ),
{
    law_bitfield_max(bit_size);
    lemma2_to64();
    lemma2_to64_rest();
    let ones = bitfield_max(bit_size);
    if bit_offset >= 64 {
        assert(bit_size == 0);
        assert(pow2(0) == 1);
        assert((pow2(0) - 1) * pow2(bit_offset as nat) == 0) by (nonlinear_arith)
            requires
                pow2(0) == 1,
        ;
    } else {
        let o = bit_offset as u64;
        lemma_pow2_adds(bit_size as nat, bit_offset as nat);
        lemma_pow2_pos(bit_offset as nat);
        if bit_offset + bit_size < 64 {
            lemma_pow2_strictly_increases((bit_offset + bit_size) as nat, 64);
        }
        let a = pow2(bit_size as nat) as int;
        let b = pow2(bit_offset as nat) as int;
        assert((a - 1) * b <= a * b - 1) by (nonlinear_arith)
            requires
                b >= 1,
        ;
        assert(ones as int * b <= u64::MAX);
        vstd::bits::lemma_u64_shl_is_mul(ones, o);
    }
}

/// Whether a bitfield with the position `bit_offset`, `bit_size` lies
/// within a container of `size` bytes.
pub open spec fn bits_fit(bit_offset: Option<usize>, bit_size: Option<usize>, size: usize) -> bool {
    match bit_size {
        Some(w) => (match bit_offset {
            Some(o) => o,
            None => 0usize,
        }) + w <= 8 * size,
        None => true,
    }
}

/// Whether every bitfield among the members of `t`, and of the
/// descriptors below it, lies within its container.
pub open spec fn bitfields_fit(t: TypeView) -> bool
    decreases t.nesting(),
{
    &&& forall|i: int|
        0 <= i < t.members.len() ==> bits_fit(
            (#[trigger] t.members[i]).bit_offset,
            t.members[i].bit_size,
            t.members[i].type_size,
        )
    &&& match t.pointer_target {
        Some(b) => bitfields_fit(*b),
        None => true,
    }
}

/// Whether every bitfield member of the repository lies within its
/// container.
pub open spec fn repo_bitfields_fit(repo: Map<u64, TypeView>) -> bool {
    forall|k: u64| repo.contains_key(k) ==> bitfields_fit(#[trigger] repo[k])
}

/// Whether every bitfield entry of `s` lies within its container.
pub open spec fn entries_bits_fit(s: Seq<EntryView>) -> bool {
    forall|i: int| 0 <= i < s.len() ==> bits_fit((#[trigger] s[i]).bit_offset, s[i].bit_size, s[i].size)
}

proof fn lemma_bits_concat(a: Seq<EntryView>, b: Seq<EntryView>)
    requires
        entries_bits_fit(a),
        entries_bits_fit(b),
    ensures
        entries_bits_fit(a + b),
{
    assert forall|i: int| 0 <= i < (a + b).len() implies bits_fit(
        (#[trigger] (a + b)[i]).bit_offset,
        (a + b)[i].bit_size,
        (a + b)[i].size,
    ) by {
        if i < a.len() {
            assert((a + b)[i] == a[i]);
        } else {
            assert((a + b)[i] == b[i - a.len()]);
        }
    }
}

proof fn lemma_chain_leaf_fits(t: TypeView)
    requires
        bitfields_fit(t),
    ensures
        match chain_leaf(t) {
            Some(e) => bitfields_fit(e),
            None => true,
        },
    decreases t.nesting(),
{
    match t.pointer_target {
        Some(b) => {
            if (*b).kind == TypeKind::Array {
                lemma_chain_leaf_fits(*b);
            }
        },
        None => {},
    }
}

/// Where every bitfield member of the repository and of `t` lies within
/// its container, every bitfield entry of the expansion of `t` does:
/// `bit_offset + bit_size <= 8 * size`.
pub proof fn law_bitfields_within_container(
    repo: Map<u64, TypeView>,
    prefix: Seq<char>,
    addr: u64,
    t: TypeView,
    depth: nat,
    visited: Seq<u64>,
    indices: Seq<usize>,
)
    requires
        repo_bitfields_fit(repo),
        bitfields_fit(t),
    ensures
        entries_bits_fit(expansion(repo, prefix, addr, t, depth, visited, indices)),
    decreases depth_left(depth), t.nesting(), 1nat, 0nat,
{
    if depth > MAX_NESTING_DEPTH {
    } else if t.offset > 0 && visited.contains(t.offset) {
    } else {
        let inside = visited.push(t.offset);
        let root = seq![root_entry(prefix, addr, t, indices)];
        assert(entries_bits_fit(root));
        match t.kind {
            TypeKind::Struct | TypeKind::Union => {
                lemma_members_bits(repo, prefix, addr, t, 0, depth, inside);
                lemma_bits_concat(
                    root,
                    members_expansion(repo, prefix, addr, t, 0, depth, inside),
                );
            },
            TypeKind::Array => {
                let dims = chain_dims(t);
                let total = product(dims);
                let es = chain_element_size(t, 0);
                if 0 < total <= MAX_ARRAY_EXPAND {
                    lemma_chain_leaf_fits(t);
                    match chain_leaf(t) {
                        Some(e) => {
                            if e.nesting() < t.nesting() {
                                lemma_walk_bits(
                                    repo,
                                    prefix,
                                    addr,
                                    e,
                                    dims,
                                    es,
                                    depth,
                                    inside,
                                    indices,
                                );
                                lemma_bits_concat(
                                    root,
                                    walk(repo, prefix, addr, e, dims, es, depth, inside, indices),
                                );
                            } else {
                                assert(root + Seq::<EntryView>::empty() =~= root);
                            }
                        },
                        None => {
                            lemma_flat_bits(prefix, addr, t, dims, es, indices, 0, total);
                            lemma_bits_concat(
                                root,
                                flat_entries(prefix, addr, t, dims, es, indices, 0, total),
                            );
                        },
                    }
                } else {
                    assert(root + Seq::<EntryView>::empty() =~= root);
                }
            },
            _ => {
                assert(root + Seq::<EntryView>::empty() =~= root);
            },
        }
    }
}

proof fn lemma_members_bits(
    repo: Map<u64, TypeView>,
    prefix: Seq<char>,
    addr: u64,
    t: TypeView,
    from: nat,
    depth: nat,
    inside: Seq<u64>,
)
    requires
        repo_bitfields_fit(repo),
        bitfields_fit(t),
    ensures
        entries_bits_fit(members_expansion(repo, prefix, addr, t, from, depth, inside)),
    decreases depth_left(depth), t.nesting(), 0nat, t.members.len() - from,
{
    if depth > MAX_NESTING_DEPTH || from >= t.members.len() {
    } else {
        let m = t.members[from as int];
        let one = member_expansion(repo, prefix, addr, t.encoding, m, depth, inside);
        if m.is_bitfield() {
            assert(entries_bits_fit(one)) by {
                assert(one[0] == bitfield_entry(prefix, addr, t.encoding, m));
                assert(bits_fit(m.bit_offset, m.bit_size, m.type_size));
            }
        } else {
            match m.type_offset {
                Some(key) => {
                    if repo.contains_key(key) {
                        law_bitfields_within_container(
                            repo,
                            crate::expand::member_name(prefix, m.name),
                            addr_plus(addr, m.offset as nat),
                            repo[key],
                            depth + 1,
                            inside,
                            Seq::empty(),
                        );
                    }
                },
                None => {},
            }
        }
        lemma_members_bits(repo, prefix, addr, t, from + 1, depth, inside);
        lemma_bits_concat(one, members_expansion(repo, prefix, addr, t, from + 1, depth, inside));
    }
}

proof fn lemma_walk_bits(
    repo: Map<u64, TypeView>,
    prefix: Seq<char>,
    base: u64,
    e: TypeView,
    dims: Seq<usize>,
    elem_size: usize,
    depth: nat,
    inside: Seq<u64>,
    indices: Seq<usize>,
)
    requires
        repo_bitfields_fit(repo),
        bitfields_fit(e),
    ensures
        entries_bits_fit(walk(repo, prefix, base, e, dims, elem_size, depth, inside, indices)),
    decreases depth_left(depth), e.nesting(), 3 + 2 * dims.len(), 0nat,
{
    if dims.len() == 0 {
        assert(bitfields_fit(sized(e, elem_size)));
        law_bitfields_within_container(
            repo,
            prefix,
            base,
            sized(e, elem_size),
            depth,
            inside,
            indices,
        );
    } else {
        lemma_walk_from_bits(repo, prefix, base, e, dims, elem_size, depth, inside, indices, 0);
    }
}

proof fn lemma_walk_from_bits(
    repo: Map<u64, TypeView>,
    prefix: Seq<char>,
    base: u64,
    e: TypeView,
    dims: Seq<usize>,
    elem_size: usize,
    depth: nat,
    inside: Seq<u64>,
    indices: Seq<usize>,
    i: nat,
)
    requires
        repo_bitfields_fit(repo),
        bitfields_fit(e),
    ensures
        entries_bits_fit(
            walk_from(repo, prefix, base, e, dims, elem_size, depth, inside, indices, i),
        ),
    decreases depth_left(depth), e.nesting(), 2 + 2 * dims.len(), dims[0] - i,
{
    if dims.len() == 0 || i >= dims[0] {
    } else {
        lemma_walk_bits(
            repo,
            crate::expand::element_name(prefix, i as usize),
            addr_plus(base, i * stride(dims, elem_size)),
            e,
            dims.skip(1),
            elem_size,
            depth,
            inside,
            indices.push(i as usize),
        );
        lemma_walk_from_bits(repo, prefix, base, e, dims, elem_size, depth, inside, indices, i + 1);
        lemma_bits_concat(
            walk(
                repo,
                crate::expand::element_name(prefix, i as usize),
                addr_plus(base, i * stride(dims, elem_size)),
                e,
                dims.skip(1),
                elem_size,
                depth,
                inside,
                indices.push(i as usize),
            ),
            walk_from(repo, prefix, base, e, dims, elem_size, depth, inside, indices, i + 1),
        );
    }
}

proof fn lemma_flat_bits(
    prefix: Seq<char>,
    addr: u64,
    t: TypeView,
    dims: Seq<usize>,
    elem_size: usize,
    indices: Seq<usize>,
    from: nat,
    total: nat,
)
    ensures
        entries_bits_fit(flat_entries(prefix, addr, t, dims, elem_size, indices, from, total)),
    decreases total - from,
{
    if from < total {
        lemma_flat_bits(prefix, addr, t, dims, elem_size, indices, from + 1, total);
        lemma_bits_concat(
            seq![flat_entry(prefix, addr, t, dims, elem_size, indices, from)],
            flat_entries(prefix, addr, t, dims, elem_size, indices, from + 1, total),
        );
    }
}


// ---------------------------------------------------------------------------
// Entries lie within their variable
// ---------------------------------------------------------------------------

/// Whether the member `m` lies within an aggregate of `size` bytes: a
/// bitfield by its container, any other member by the size of its type,
/// as far as the repository holds it.
pub open spec fn member_fits(repo: Map<u64, TypeView>, size: usize, m: MemberView) -> bool {
    if m.is_bitfield() {
        m.offset + m.type_size <= size
    } else {
        match m.type_offset {
            Some(k) => repo.contains_key(k) ==> m.offset + repo[k].size <= size,
            None => true,
        }
    }
}

/// Whether the layout of `t` is within its size: the members of a struct
/// or union lie within it, and the elements of an array that is expanded
/// fill no more than it, each element within the size of one.
pub open spec fn fits(repo: Map<u64, TypeView>, t: TypeView) -> bool
    decreases t.nesting(),
{
    match t.kind {
        TypeKind::Struct | TypeKind::Union => forall|i: int|
            0 <= i < t.members.len() ==> member_fits(repo, t.size, #[trigger] t.members[i]),
        TypeKind::Array => {
            let dims = chain_dims(t);
            let es = chain_element_size(t, 0);
            0 < product(dims) <= MAX_ARRAY_EXPAND ==> {
                &&& product(dims) * es <= t.size
                &&& match chain_leaf(t) {
                    Some(e) => e.nesting() < t.nesting() ==> sized(e, es).size <= es && fits(
                        repo,
                        sized(e, es),
                    ),
                    None => true,
                }
            }
        },
        _ => true,
    }
}

/// Whether the layout of every descriptor of the repository is within
/// its size.
pub open spec fn repo_fits(repo: Map<u64, TypeView>) -> bool {
    forall|k: u64| repo.contains_key(k) ==> fits(repo, #[trigger] repo[k])
}

/// Whether the entry `e` lies within the `size` bytes from `start` on.
pub open spec fn within(e: EntryView, start: int, size: int) -> bool {
    start <= e.address && e.address + e.size <= start + size
}

/// Whether every entry of `s` lies within the `size` bytes from `start`
/// on.
pub open spec fn all_within(s: Seq<EntryView>, start: int, size: int) -> bool {
    forall|i: int| 0 <= i < s.len() ==> within(#[trigger] s[i], start, size)
}

proof fn lemma_within_concat(a: Seq<EntryView>, b: Seq<EntryView>, start: int, size: int)
    requires
        all_within(a, start, size),
        all_within(b, start, size),
    ensures
        all_within(a + b, start, size),
{
    assert forall|i: int| 0 <= i < (a + b).len() implies within(
        #[trigger] (a + b)[i],
        start,
        size,
    ) by {
        if i < a.len() {
            assert((a + b)[i] == a[i]);
        } else {
            assert((a + b)[i] == b[i - a.len()]);
        }
    }
}

proof fn lemma_within_wider(s: Seq<EntryView>, start: int, size: int, outer: int, outer_size: int)
    requires
        all_within(s, start, size),
        outer <= start,
        start + size <= outer + outer_size,
    ensures
        all_within(s, outer, outer_size),
{
    assert forall|i: int| 0 <= i < s.len() implies within(#[trigger] s[i], outer, outer_size) by {
        assert(within(s[i], start, size));
    }
}

/// Within the 64-bit address space an address plus an offset is their
/// sum.
pub proof fn lemma_addr_plus_exact(base: u64, delta: nat)
    requires
        base + delta <= u64::MAX,
    ensures
        addr_plus(base, delta) == base + delta,
{
}

/// Every entry of the expansion of a variable lies within the variable:
/// where the layout of the repository and of `t` is within its sizes and
/// the variable lies within the address space, each entry begins at or
/// after `addr` and ends at or before `addr + t.size`.
pub proof fn law_containment(
    repo: Map<u64, TypeView>,
    prefix: Seq<char>,
    addr: u64,
    t: TypeView,
    depth: nat,
    visited: Seq<u64>,
    indices: Seq<usize>,
)
    requires
        repo_fits(repo),
        fits(repo, t),
        addr + t.size <= u64::MAX,
    ensures
        all_within(
            expansion(repo, prefix, addr, t, depth, visited, indices),
            addr as int,
            t.size as int,
        ),
    decreases depth_left(depth), t.nesting(), 1nat, 0nat,
{
    let a = addr as int;
    let size = t.size as int;
    if depth > MAX_NESTING_DEPTH {
    } else if t.offset > 0 && visited.contains(t.offset) {
    } else {
        let inside = visited.push(t.offset);
        let root = seq![root_entry(prefix, addr, t, indices)];
        assert(all_within(root, a, size));
        match t.kind {
            TypeKind::Struct | TypeKind::Union => {
                lemma_members_within(repo, prefix, addr, t, 0, depth, inside);
                lemma_within_concat(
                    root,
                    members_expansion(repo, prefix, addr, t, 0, depth, inside),
                    a,
                    size,
                );
            },
            TypeKind::Array => {
                let dims = chain_dims(t);
                let total = product(dims);
                let es = chain_element_size(t, 0);
                if 0 < total <= MAX_ARRAY_EXPAND {
                    match chain_leaf(t) {
                        Some(e) => {
                            if e.nesting() < t.nesting() {
                                lemma_walk_within(
                                    repo,
                                    prefix,
                                    addr,
                                    e,
                                    dims,
                                    es,
                                    depth,
                                    inside,
                                    indices,
                                );
                                let below = walk(
                                    repo,
                                    prefix,
                                    addr,
                                    e,
                                    dims,
                                    es,
                                    depth,
                                    inside,
                                    indices,
                                );
                                lemma_within_wider(below, a, (total * es) as int, a, size);
                                lemma_within_concat(root, below, a, size);
                            } else {
                                assert(root + Seq::<EntryView>::empty() =~= root);
                            }
                        },
                        None => {
                            lemma_flat_within(prefix, addr, t, dims, es, indices, 0, total);
                            let below = flat_entries(prefix, addr, t, dims, es, indices, 0, total);
                            lemma_within_wider(below, a, (total * es) as int, a, size);
                            lemma_within_concat(root, below, a, size);
                        },
                    }
                } else {
                    assert(root + Seq::<EntryView>::empty() =~= root);
                }
            },
            _ => {
                assert(root + Seq::<EntryView>::empty() =~= root);
            },
        }
    }
}

proof fn lemma_members_within(
    repo: Map<u64, TypeView>,
    prefix: Seq<char>,
    addr: u64,
    t: TypeView,
    from: nat,
    depth: nat,
    inside: Seq<u64>,
)
    requires
        repo_fits(repo),
        forall|i: int| 0 <= i < t.members.len() ==> member_fits(repo, t.size, #[trigger] t.members[i]),
        addr + t.size <= u64::MAX,
    ensures
        all_within(
            members_expansion(repo, prefix, addr, t, from, depth, inside),
            addr as int,
            t.size as int,
        ),
    decreases depth_left(depth), t.nesting(), 0nat, t.members.len() - from,
{
    let a = addr as int;
    let size = t.size as int;
    if depth > MAX_NESTING_DEPTH || from >= t.members.len() {
    } else {
        let m = t.members[from as int];
        assert(member_fits(repo, t.size, m));
        let one = member_expansion(repo, prefix, addr, t.encoding, m, depth, inside);
        if m.is_bitfield() {
            lemma_addr_plus_exact(addr, m.offset as nat);
            assert(one[0] == bitfield_entry(prefix, addr, t.encoding, m));
            assert(all_within(one, a, size));
        } else {
            match m.type_offset {
                Some(key) => {
                    if repo.contains_key(key) {
                        lemma_addr_plus_exact(addr, m.offset as nat);
                        let child = addr_plus(addr, m.offset as nat);
                        law_containment(
                            repo,
                            crate::expand::member_name(prefix, m.name),
                            child,
                            repo[key],
                            depth + 1,
                            inside,
                            Seq::empty(),
                        );
                        lemma_within_wider(one, child as int, repo[key].size as int, a, size);
                    }
                },
                None => {},
            }
        }
        lemma_members_within(repo, prefix, addr, t, from + 1, depth, inside);
        lemma_within_concat(
            one,
            members_expansion(repo, prefix, addr, t, from + 1, depth, inside),
            a,
            size,
        );
    }
}

proof fn lemma_walk_within(
    repo: Map<u64, TypeView>,
    prefix: Seq<char>,
    base: u64,
    e: TypeView,
    dims: Seq<usize>,
    elem_size: usize,
    depth: nat,
    inside: Seq<u64>,
    indices: Seq<usize>,
)
    requires
        repo_fits(repo),
        fits(repo, sized(e, elem_size)),
        sized(e, elem_size).size <= elem_size,
        base + product(dims) * elem_size <= u64::MAX,
    ensures
        all_within(
            walk(repo, prefix, base, e, dims, elem_size, depth, inside, indices),
            base as int,
            (product(dims) * elem_size) as int,
        ),
    decreases depth_left(depth), e.nesting(), 3 + 2 * dims.len(), 0nat,
{
    if dims.len() == 0 {
        let s = sized(e, elem_size);
        assert(product(dims) == 1);
        assert(1 * elem_size == elem_size) by (nonlinear_arith);
        law_containment(repo, prefix, base, s, depth, inside, indices);
        lemma_within_wider(
            expansion(repo, prefix, base, s, depth, inside, indices),
            base as int,
            s.size as int,
            base as int,
            elem_size as int,
        );
    } else {
        lemma_walk_from_within(repo, prefix, base, e, dims, elem_size, depth, inside, indices, 0);
    }
}

proof fn lemma_walk_from_within(
    repo: Map<u64, TypeView>,
    prefix: Seq<char>,
    base: u64,
    e: TypeView,
    dims: Seq<usize>,
    elem_size: usize,
    depth: nat,
    inside: Seq<u64>,
    indices: Seq<usize>,
    i: nat,
)
    requires
        repo_fits(repo),
        fits(repo, sized(e, elem_size)),
        sized(e, elem_size).size <= elem_size,
        dims.len() > 0,
        base + product(dims) * elem_size <= u64::MAX,
    ensures
        all_within(
            walk_from(repo, prefix, base, e, dims, elem_size, depth, inside, indices, i),
            base as int,
            (product(dims) * elem_size) as int,
        ),
    decreases depth_left(depth), e.nesting(), 2 + 2 * dims.len(), dims[0] - i,
{
    if i >= dims[0] {
    } else {
        let step = stride(dims, elem_size);
        let whole = product(dims) * elem_size;
        crate::expand::lemma_product_front(dims);
        let d0 = dims[0] as nat;
        let rest = product(dims.skip(1));
        let es = elem_size as nat;
        assert(whole == d0 * step) by (nonlinear_arith)
            requires
                whole == (d0 * rest) * es,
                step == rest * es,
        ;
        assert(i * step + step <= d0 * step) by (nonlinear_arith)
            requires
                i < d0,
        ;
        let here = addr_plus(base, i * step);
        lemma_addr_plus_exact(base, i * step);
        lemma_walk_within(
            repo,
            crate::expand::element_name(prefix, i as usize),
            here,
            e,
            dims.skip(1),
            elem_size,
            depth,
            inside,
            indices.push(i as usize),
        );
        let one = walk(
            repo,
            crate::expand::element_name(prefix, i as usize),
            here,
            e,
            dims.skip(1),
            elem_size,
            depth,
            inside,
            indices.push(i as usize),
        );
        lemma_within_wider(one, here as int, step as int, base as int, whole as int);
        lemma_walk_from_within(
            repo,
            prefix,
            base,
            e,
            dims,
            elem_size,
            depth,
            inside,
            indices,
            i + 1,
        );
        lemma_within_concat(
            one,
            walk_from(repo, prefix, base, e, dims, elem_size, depth, inside, indices, i + 1),
            base as int,
            whole as int,
        );
    }
}

proof fn lemma_flat_within(
    prefix: Seq<char>,
    addr: u64,
    t: TypeView,
    dims: Seq<usize>,
    elem_size: usize,
    indices: Seq<usize>,
    from: nat,
    total: nat,
)
    requires
        addr + total * elem_size <= u64::MAX,
    ensures
        all_within(
            flat_entries(prefix, addr, t, dims, elem_size, indices, from, total),
            addr as int,
            (total * elem_size) as int,
        ),
    decreases total - from,
{
    if from < total {
        let es = elem_size as nat;
        assert(from * es + es <= total * es) by (nonlinear_arith)
            requires
                from < total,
        ;
        lemma_addr_plus_exact(addr, from * es);
        lemma_flat_within(prefix, addr, t, dims, elem_size, indices, from + 1, total);
        let one = seq![flat_entry(prefix, addr, t, dims, elem_size, indices, from)];
        assert(all_within(one, addr as int, (total * elem_size) as int));
        lemma_within_concat(
            one,
            flat_entries(prefix, addr, t, dims, elem_size, indices, from + 1, total),
            addr as int,
            (total * elem_size) as int,
        );
    }
}


// ---------------------------------------------------------------------------
// Array elements are addressed row by row
// ---------------------------------------------------------------------------

/// The position of the element with the indices `idx` in an array of
/// dimensions `dims` laid out row by row:
/// `((i1 * D2 + i2) * D3 + ...) * Dn + in`.
pub open spec fn row_major(idx: Seq<usize>, dims: Seq<usize>) -> nat
    decreases idx.len(),
{
    if idx.len() == 0 || dims.len() == 0 {
        0
    } else {
        row_major(idx.drop_last(), dims.drop_last()) * (dims.last() as nat) + (idx.last() as nat)
    }
}

/// Whether `idx` names an element of an array of dimensions `dims`.
pub open spec fn valid_index(idx: Seq<usize>, dims: Seq<usize>) -> bool {
    idx.len() == dims.len() && forall|k: int| 0 <= k < idx.len() ==> idx[k] < dims[k]
}

/// The entries for the element at position `flat` of the array: the
/// expansion of the element type at `flat` element sizes from `base`,
/// under the name and with the indices of that position.
pub open spec fn element_expansion(
    repo: Map<u64, TypeView>,
    prefix: Seq<char>,
    base: u64,
    e: TypeView,
    dims: Seq<usize>,
    elem_size: usize,
    depth: nat,
    inside: Seq<u64>,
    indices: Seq<usize>,
    flat: nat,
) -> Seq<EntryView> {
    expansion(
        repo,
        indexed_name(prefix, multi_index(flat, dims)),
        addr_plus(base, flat * (elem_size as nat)),
        sized(e, elem_size),
        depth,
        inside,
        indices + multi_index(flat, dims),
    )
}

/// The entries for the elements at the positions `from .. to`, in order.
pub open spec fn elements_between(
    repo: Map<u64, TypeView>,
    prefix: Seq<char>,
    base: u64,
    e: TypeView,
    dims: Seq<usize>,
    elem_size: usize,
    depth: nat,
    inside: Seq<u64>,
    indices: Seq<usize>,
    from: nat,
    to: nat,
) -> Seq<EntryView>
    decreases to - from,
{
    if from >= to {
        Seq::empty()
    } else {
        element_expansion(repo, prefix, base, e, dims, elem_size, depth, inside, indices, from)
            + elements_between(
            repo,
            prefix,
            base,
            e,
            dims,
            elem_size,
            depth,
            inside,
            indices,
            from + 1,
            to,
        )
    }
}

/// An offset added to an address after another is their sum added once.
pub proof fn lemma_addr_plus_twice(base: u64, a: nat, b: nat)
    ensures
        addr_plus(addr_plus(base, a), b) == addr_plus(base, a + b),
{
    lemma_add_mod_noop_right(b as int, base as int + a as int, 0x1_0000_0000_0000_0000);
    lemma_mod_bound(base as int + a as int, 0x1_0000_0000_0000_0000);
}

/// The name under indices that begin with `i` is the name under the rest
/// of them of the element `i`.
pub proof fn lemma_indexed_name_front(prefix: Seq<char>, i: usize, rest: Seq<usize>)
    ensures
        indexed_name(prefix, seq![i] + rest) == indexed_name(element_name(prefix, i), rest),
    decreases rest.len(),
{
    let all = seq![i] + rest;
    if rest.len() == 0 {
        assert(all.drop_last() =~= Seq::<usize>::empty());
        assert(all.last() == i);
        assert(indexed_name(prefix, all.drop_last()) == prefix);
    } else {
        assert(all.drop_last() =~= seq![i] + rest.drop_last());
        assert(all.last() == rest.last());
        lemma_indexed_name_front(prefix, i, rest.drop_last());
    }
}

/// The indices of a position begin with the index of the row that the
/// position lies in, and go on with the indices within that row.
pub proof fn lemma_multi_index_front(i: nat, k: nat, first: usize, rest: Seq<usize>)
    requires
        i < first,
        k < product(rest),
        forall|j: int| 0 <= j < rest.len() ==> rest[j] >= 1,
    ensures
        multi_index(i * product(rest) + k, seq![first] + rest) == seq![i as usize] + multi_index(
            k,
            rest,
        ),
    decreases rest.len(),
{
    let dims = seq![first] + rest;
    if rest.len() == 0 {
        assert(product(rest) == 1);
        assert(k == 0);
        assert(i * 1 + 0 == i) by (nonlinear_arith);
        assert(dims.drop_last() =~= Seq::<usize>::empty());
        assert(dims.last() == first);
        lemma_fundamental_div_mod_converse(i as int, first as int, 0, i as int);
        assert(multi_index(i / (first as nat), dims.drop_last()) =~= Seq::<usize>::empty());
        assert(multi_index(i, dims) == multi_index(i / (first as nat), dims.drop_last()).push(
            (i % (first as nat)) as usize,
        ));
        assert(multi_index(i, dims) =~= seq![i as usize]);
        assert(multi_index(k, rest) =~= Seq::<usize>::empty());
        assert(seq![i as usize] + Seq::<usize>::empty() =~= seq![i as usize]);
    } else {
        let last = rest.last() as nat;
        let inner = rest.drop_last();
        let p_inner = product(inner);
        let flat = i * product(rest) + k;
        assert(dims.drop_last() =~= seq![first] + inner);
        assert(dims.last() == rest.last());
        assert(product(rest) == p_inner * last);
        lemma_fundamental_div_mod(k as int, last as int);
        lemma_mod_bound(k as int, last as int);
        let kq = k / last;
        let kr = k % last;
        assert(flat == (i * p_inner + kq) * last + kr) by (nonlinear_arith)
            requires
                flat == i * (p_inner * last) + k,
                k == last * kq + kr,
        ;
        lemma_fundamental_div_mod_converse(
            flat as int,
            last as int,
            (i * p_inner + kq) as int,
            kr as int,
        );
        assert(kq < p_inner) by (nonlinear_arith)
            requires
                k < p_inner * last,
                k == last * kq + kr,
                kr >= 0,
                last >= 1,
        ;
        assert forall|j: int| 0 <= j < inner.len() implies inner[j] >= 1 by {
            assert(inner[j] == rest[j]);
        }
        lemma_multi_index_front(i, kq, first, inner);
        assert(multi_index(flat, dims) == multi_index(i * p_inner + kq, seq![first] + inner).push(
            kr as usize,
        ));
        assert(multi_index(k, rest) == multi_index(kq, inner).push(kr as usize));
        assert((seq![i as usize] + multi_index(kq, inner)).push(kr as usize) =~= seq![i as usize]
            + multi_index(kq, inner).push(kr as usize));
    }
}

/// The entries between two positions and those between the second and a
/// third are those between the first and the third.
pub proof fn lemma_elements_join(
    repo: Map<u64, TypeView>,
    prefix: Seq<char>,
    base: u64,
    e: TypeView,
    dims: Seq<usize>,
    elem_size: usize,
    depth: nat,
    inside: Seq<u64>,
    indices: Seq<usize>,
    a: nat,
    b: nat,
    c: nat,
)
    requires
        a <= b <= c,
    ensures
        elements_between(repo, prefix, base, e, dims, elem_size, depth, inside, indices, a, b)
            + elements_between(repo, prefix, base, e, dims, elem_size, depth, inside, indices, b, c)
            == elements_between(
            repo,
            prefix,
            base,
            e,
            dims,
            elem_size,
            depth,
            inside,
            indices,
            a,
            c,
        ),
    decreases b - a,
{
    let right = elements_between(
        repo,
        prefix,
        base,
        e,
        dims,
        elem_size,
        depth,
        inside,
        indices,
        b,
        c,
    );
    if a >= b {
        assert(Seq::<EntryView>::empty() + right =~= right);
    } else {
        lemma_elements_join(
            repo,
            prefix,
            base,
            e,
            dims,
            elem_size,
            depth,
            inside,
            indices,
            a + 1,
            b,
            c,
        );
        let head = element_expansion(
            repo,
            prefix,
            base,
            e,
            dims,
            elem_size,
            depth,
            inside,
            indices,
            a,
        );
        let mid = elements_between(
            repo,
            prefix,
            base,
            e,
            dims,
            elem_size,
            depth,
            inside,
            indices,
            a + 1,
            b,
        );
        assert((head + mid) + right =~= head + (mid + right));
    }
}

/// The elements of row `i`, counted within the row, are the elements of
/// the array at the positions of that row.
proof fn lemma_row_elements(
    repo: Map<u64, TypeView>,
    prefix: Seq<char>,
    base: u64,
    e: TypeView,
    first: usize,
    rest: Seq<usize>,
    elem_size: usize,
    depth: nat,
    inside: Seq<u64>,
    indices: Seq<usize>,
    i: nat,
    k: nat,
)
    requires
        i < first,
        k <= product(rest),
        forall|j: int| 0 <= j < rest.len() ==> rest[j] >= 1,
    ensures
        elements_between(
            repo,
            element_name(prefix, i as usize),
            addr_plus(base, i * stride(seq![first] + rest, elem_size)),
            e,
            rest,
            elem_size,
            depth,
            inside,
            indices.push(i as usize),
            k,
            product(rest),
        ) == elements_between(
            repo,
            prefix,
            base,
            e,
            seq![first] + rest,
            elem_size,
            depth,
            inside,
            indices,
            i * product(rest) + k,
            i * product(rest) + product(rest),
        ),
    decreases product(rest) - k,
{
    let dims = seq![first] + rest;
    let p = product(rest);
    let es = elem_size as nat;
    if k < p {
        lemma_row_elements(
            repo,
            prefix,
            base,
            e,
            first,
            rest,
            elem_size,
            depth,
            inside,
            indices,
            i,
            k + 1,
        );
        assert(dims.skip(1) =~= rest);
        let step = stride(dims, elem_size);
        assert(step == p * es);
        lemma_multi_index_front(i, k, first, rest);
        lemma_indexed_name_front(prefix, i as usize, multi_index(k, rest));
        lemma_addr_plus_twice(base, i * step, k * es);
        assert(i * step + k * es == (i * p + k) * es) by (nonlinear_arith)
            requires
                step == p * es,
        ;
        assert(indices.push(i as usize) + multi_index(k, rest) =~= indices + (seq![i as usize]
            + multi_index(k, rest)));
        assert(i * p + k + 1 == i * p + (k + 1));
    }
}

/// A walk over an array is the walk over its elements row by row: the
/// entries of a walk with the dimensions `dims` are those of the elements
/// at the positions 0, 1, ... in turn, each at its position times the
/// element size from the base, under the indices of that position.
pub proof fn law_walk_is_row_major(
    repo: Map<u64, TypeView>,
    prefix: Seq<char>,
    base: u64,
    e: TypeView,
    dims: Seq<usize>,
    elem_size: usize,
    depth: nat,
    inside: Seq<u64>,
    indices: Seq<usize>,
)
    requires
        product(dims) > 0,
    ensures
        walk(repo, prefix, base, e, dims, elem_size, depth, inside, indices) == elements_between(
            repo,
            prefix,
            base,
            e,
            dims,
            elem_size,
            depth,
            inside,
            indices,
            0,
            product(dims),
        ),
    decreases dims.len(), 1nat, 0nat,
{
    if dims.len() == 0 {
        let one = element_expansion(
            repo,
            prefix,
            base,
            e,
            dims,
            elem_size,
            depth,
            inside,
            indices,
            0,
        );
        assert(multi_index(0, dims) =~= Seq::<usize>::empty());
        assert(indices + Seq::<usize>::empty() =~= indices);
        assert(0 * (elem_size as nat) == 0) by (nonlinear_arith);
        assert(addr_plus(base, 0) == base);
        assert(elements_between(
            repo,
            prefix,
            base,
            e,
            dims,
            elem_size,
            depth,
            inside,
            indices,
            1,
            1,
        ) =~= Seq::<EntryView>::empty());
        assert(one + Seq::<EntryView>::empty() =~= one);
    } else {
        lemma_walk_from_is_row_major(
            repo,
            prefix,
            base,
            e,
            dims,
            elem_size,
            depth,
            inside,
            indices,
            0,
        );
        lemma_product_front(dims);
        assert(0 * product(dims.skip(1)) == 0) by (nonlinear_arith);
    }
}

proof fn lemma_walk_from_is_row_major(
    repo: Map<u64, TypeView>,
    prefix: Seq<char>,
    base: u64,
    e: TypeView,
    dims: Seq<usize>,
    elem_size: usize,
    depth: nat,
    inside: Seq<u64>,
    indices: Seq<usize>,
    i: nat,
)
    requires
        dims.len() > 0,
        product(dims) > 0,
        i <= dims[0],
    ensures
        walk_from(repo, prefix, base, e, dims, elem_size, depth, inside, indices, i)
            == elements_between(
            repo,
            prefix,
            base,
            e,
            dims,
            elem_size,
            depth,
            inside,
            indices,
            i * product(dims.skip(1)),
            product(dims),
        ),
    decreases dims.len(), 0nat, dims[0] - i,
{
    let rest = dims.skip(1);
    let p = product(rest);
    let first = dims[0];
    lemma_product_front(dims);
    lemma_positive_product_factors(dims);
    assert forall|j: int| 0 <= j < rest.len() implies rest[j] >= 1 by {
        assert(rest[j] == dims[j + 1]);
    }
    lemma_product_positive(rest);
    assert(dims =~= seq![first] + rest);
    if i >= dims[0] {
        assert(i * p == (first as nat) * p);
    } else {
        lemma_walk_from_is_row_major(
            repo,
            prefix,
            base,
            e,
            dims,
            elem_size,
            depth,
            inside,
            indices,
            i + 1,
        );
        law_walk_is_row_major(
            repo,
            element_name(prefix, i as usize),
            addr_plus(base, i * stride(dims, elem_size)),
            e,
            rest,
            elem_size,
            depth,
            inside,
            indices.push(i as usize),
        );
        lemma_row_elements(
            repo,
            prefix,
            base,
            e,
            first,
            rest,
            elem_size,
            depth,
            inside,
            indices,
            i,
            0,
        );
        assert((i + 1) * p == i * p + p) by (nonlinear_arith);
        assert(i * p + p <= (first as nat) * p) by (nonlinear_arith)
            requires
                i < first,
        ;
        lemma_elements_join(
            repo,
            prefix,
            base,
            e,
            dims,
            elem_size,
            depth,
            inside,
            indices,
            i * p,
            i * p + p,
            product(dims),
        );
    }
}

/// The position that the indices `idx` name row by row lies within the
/// array, and its indices are `idx`: the element with the indices
/// `[i1, .., in]` lies at `(((i1 * D2 + i2) * D3 + ...) * Dn + in)`
/// element sizes from the base.
pub proof fn law_row_major_position(idx: Seq<usize>, dims: Seq<usize>)
    requires
        valid_index(idx, dims),
    ensures
        row_major(idx, dims) < product(dims),
        multi_index(row_major(idx, dims), dims) == idx,
    decreases idx.len(),
{
    if idx.len() == 0 {
        assert(multi_index(0, dims) =~= idx);
    } else {
        let head = idx.drop_last();
        let front = dims.drop_last();
        let last = dims.last() as nat;
        let i = idx.last() as nat;
        assert(valid_index(head, front)) by {
            assert forall|k: int| 0 <= k < head.len() implies head[k] < front[k] by {
                assert(head[k] == idx[k] && front[k] == dims[k]);
            }
        }
        law_row_major_position(head, front);
        let r = row_major(head, front);
        let flat = r * last + i;
        assert(idx[idx.len() - 1] < dims[idx.len() - 1]);
        lemma_fundamental_div_mod_converse(flat as int, last as int, r as int, i as int);
        assert(flat < product(front) * last) by (nonlinear_arith)
            requires
                flat == r * last + i,
                r < product(front),
                i < last,
        ;
        assert(multi_index(flat, dims) == multi_index(r, front).push(i as usize));
        assert(head.push(idx.last()) =~= idx);
    }
}

// ---------------------------------------------------------------------------
// The entries of a variable and of a catalogue
// ---------------------------------------------------------------------------

/// The bytes that the variable `v` takes: the size of its type, or its
/// own size if its type is not known.
pub open spec fn extent(v: VariableView) -> usize {
    match v.type_info {
        Some(t) => t.size,
        None => v.size,
    }
}

/// Whether the variable `v` is well laid out: the layout of its type is
/// within its size, and the variable ends within the address space.
pub open spec fn well_laid(repo: Map<u64, TypeView>, v: VariableView) -> bool {
    &&& v.address + extent(v) <= u64::MAX
    &&& match v.type_info {
        Some(t) => fits(repo, t),
        None => true,
    }
}

/// Every entry of a variable lies within the variable: where the layout
/// of the repository is within its sizes and the variable is well laid
/// out, each of its entries begins at or after the address of the
/// variable and ends at or before its end.
pub proof fn law_variable_contained(repo: Map<u64, TypeView>, v: VariableView)
    requires
        repo_fits(repo),
        well_laid(repo, v),
    ensures
        all_within(variable_expansion(repo, v), v.address as int, extent(v) as int),
{
    match v.type_info {
        Some(t) => {
            law_containment(repo, v.name, v.address, t, 0, Seq::empty(), Seq::empty());
        },
        None => {},
    }
}

/// Every entry of a catalogue lies within one of its variables, where
/// the layout of the repository is within its sizes and every variable is
/// well laid out.
pub proof fn law_catalogue_contained(repo: Map<u64, TypeView>, vars: Seq<VariableView>, i: int)
    requires
        repo_fits(repo),
        forall|k: int| 0 <= k < vars.len() ==> well_laid(repo, #[trigger] vars[k]),
        0 <= i < catalogue(repo, vars).len(),
    ensures
        exists|k: int|
            0 <= k < vars.len() && within(
                catalogue(repo, vars)[i],
                (#[trigger] vars[k]).address as int,
                extent(vars[k]) as int,
            ),
    decreases vars.len(),
{
    let init = vars.drop_last();
    let before = catalogue(repo, init);
    let own = variable_expansion(repo, vars.last());
    if i < before.len() {
        assert forall|k: int| 0 <= k < init.len() implies well_laid(repo, #[trigger] init[k]) by {
            assert(init[k] == vars[k]);
        }
        law_catalogue_contained(repo, init, i);
        let k = choose|k: int|
            0 <= k < init.len() && within(
                before[i],
                (#[trigger] init[k]).address as int,
                extent(init[k]) as int,
            );
        assert(vars[k] == init[k]);
        assert(catalogue(repo, vars)[i] == before[i]);
    } else {
        let last = vars.len() - 1;
        law_variable_contained(repo, vars[last]);
        assert(catalogue(repo, vars)[i] == own[i - before.len()]);
        assert(within(own[i - before.len()], vars[last].address as int, extent(vars[last]) as int));
    }
}

// ---------------------------------------------------------------------------
// The elements of an array of scalars
// ---------------------------------------------------------------------------

/// The indices of a position name an element of the array, and the
/// position is the one that these indices name row by row.
pub proof fn law_position_indices(flat: nat, dims: Seq<usize>)
    requires
        flat < product(dims),
    ensures
        valid_index(multi_index(flat, dims), dims),
        row_major(multi_index(flat, dims), dims) == flat,
    decreases dims.len(),
{
    if dims.len() > 0 {
        let front = dims.drop_last();
        let last = dims.last() as nat;
        let p = product(front);
        assert(last >= 1) by {
            if last == 0 {
                assert(p * 0 == 0) by (nonlinear_arith);
            }
        }
        let q = flat / last;
        let r = flat % last;
        lemma_fundamental_div_mod(flat as int, last as int);
        lemma_mod_bound(flat as int, last as int);
        assert(q < p) by (nonlinear_arith)
            requires
                flat < p * last,
                flat == last * q + r,
                r >= 0,
                last >= 1,
        ;
        law_position_indices(q, front);
        let head = multi_index(q, front);
        let idx = multi_index(flat, dims);
        assert(idx == head.push(r as usize));
        assert(idx.drop_last() =~= head);
        assert(valid_index(idx, dims)) by {
            assert forall|k: int| 0 <= k < idx.len() implies idx[k] < dims[k] by {
                if k < head.len() {
                    assert(idx[k] == head[k] && dims[k] == front[k]);
                }
            }
        }
        assert(q * last + r == flat) by (nonlinear_arith)
            requires
                flat == last * q + r,
        ;
    }
}

/// Whether a cell of the type `e` is one entry: `e` is no struct, no
/// union and no array.
pub open spec fn is_scalar(e: TypeView) -> bool {
    e.kind != TypeKind::Struct && e.kind != TypeKind::Union && e.kind != TypeKind::Array
}

/// The entry for the element at position `flat` of an array of scalars
/// `e` with the dimensions `dims` and the element size `elem_size`, named
/// `prefix` at `base`: it lies `flat` element sizes from the base and
/// carries the indices of that position.
pub open spec fn element_entry(
    prefix: Seq<char>,
    base: u64,
    e: TypeView,
    dims: Seq<usize>,
    elem_size: usize,
    indices: Seq<usize>,
    flat: nat,
) -> EntryView {
    root_entry(
        indexed_name(prefix, multi_index(flat, dims)),
        addr_plus(base, flat * (elem_size as nat)),
        sized(e, elem_size),
        indices + multi_index(flat, dims),
    )
}

proof fn lemma_scalar_elements(
    repo: Map<u64, TypeView>,
    prefix: Seq<char>,
    base: u64,
    e: TypeView,
    dims: Seq<usize>,
    elem_size: usize,
    depth: nat,
    inside: Seq<u64>,
    indices: Seq<usize>,
    from: nat,
    to: nat,
)
    requires
        is_scalar(e),
        depth <= MAX_NESTING_DEPTH,
        e.offset > 0 ==> !inside.contains(e.offset),
        from <= to,
    ensures
        elements_between(repo, prefix, base, e, dims, elem_size, depth, inside, indices, from, to)
            == Seq::new(
            (to - from) as nat,
            |k: int| element_entry(prefix, base, e, dims, elem_size, indices, (from + k) as nat),
        ),
    decreases to - from,
{
    let all = elements_between(
        repo,
        prefix,
        base,
        e,
        dims,
        elem_size,
        depth,
        inside,
        indices,
        from,
        to,
    );
    let wanted = Seq::new(
        (to - from) as nat,
        |k: int| element_entry(prefix, base, e, dims, elem_size, indices, (from + k) as nat),
    );
    if from < to {
        lemma_scalar_elements(
            repo,
            prefix,
            base,
            e,
            dims,
            elem_size,
            depth,
            inside,
            indices,
            from + 1,
            to,
        );
        let first = element_expansion(
            repo,
            prefix,
            base,
            e,
            dims,
            elem_size,
            depth,
            inside,
            indices,
            from,
        );
        let one = element_entry(prefix, base, e, dims, elem_size, indices, from);
        assert(sized(e, elem_size).kind == e.kind && sized(e, elem_size).offset == e.offset);
        assert(first =~= seq![one]);
        assert(all =~= wanted);
    } else {
        assert(all =~= wanted);
    }
}

/// The entries of an array of scalars: one for each element, row by row.
/// The entry at position `k` carries the indices of that position and lies
/// `k` element sizes from the base, in 64-bit arithmetic.
pub proof fn law_scalar_walk(
    repo: Map<u64, TypeView>,
    prefix: Seq<char>,
    base: u64,
    e: TypeView,
    dims: Seq<usize>,
    elem_size: usize,
    depth: nat,
    inside: Seq<u64>,
    indices: Seq<usize>,
)
    requires
        product(dims) > 0,
        is_scalar(e),
        depth <= MAX_NESTING_DEPTH,
        e.offset > 0 ==> !inside.contains(e.offset),
    ensures
        walk(repo, prefix, base, e, dims, elem_size, depth, inside, indices).len() == product(
            dims,
        ),
        forall|k: int|
            0 <= k < product(dims) ==> #[trigger] walk(
                repo,
                prefix,
                base,
                e,
                dims,
                elem_size,
                depth,
                inside,
                indices,
            )[k] == element_entry(prefix, base, e, dims, elem_size, indices, k as nat),
{
    law_walk_is_row_major(repo, prefix, base, e, dims, elem_size, depth, inside, indices);
    lemma_scalar_elements(
        repo,
        prefix,
        base,
        e,
        dims,
        elem_size,
        depth,
        inside,
        indices,
        0,
        product(dims),
    );
}

} // verus!
