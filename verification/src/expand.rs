//! The leaf expander: every variable is flattened into catalogue entries by
//! descending structs, unions and arrays.

use crate::number::{decimal, push_decimal};
use crate::text::{chars_of, push_all, string_of};
use crate::types::{
    clone_sizes, infer_a2l_type_from_encoding, scalar_tag, A2lEntry, A2lEntryStore, EntryView, MemberView,
    StructMember, TypeEncoding, TypeInfo, TypeKind, TypeView, Variable, VariableView,
    MAX_ARRAY_EXPAND, MAX_NESTING_DEPTH,
};
use crate::elf::ElfParser;
use std::collections::HashMap;
use vstd::prelude::*;

verus! {

// ---------------------------------------------------------------------------
// The repository as a map of views
// ---------------------------------------------------------------------------

/// What a repository holds: the view of each descriptor under its offset.
pub open spec fn repo_view(m: Map<u64, TypeInfo>) -> Map<u64, TypeView> {
    Map::new(|k: u64| m.contains_key(k), |k: u64| m[k]@)
}

// ---------------------------------------------------------------------------
// Addresses
// ---------------------------------------------------------------------------

/// The address `delta` bytes after `base`, in 64-bit address arithmetic.
pub open spec fn addr_plus(base: u64, delta: nat) -> u64 {
    ((base as nat + delta) % 0x1_0000_0000_0000_0000) as u64
}

/// The address `delta` bytes after `base`.
pub fn offset_address(base: u64, delta: u128) -> (r: u64)
    requires
        delta <= 0xffff_ffff_ffff_ffff_ffff_ffff,
    ensures
        r == addr_plus(base, delta as nat),
{
    let wide: u128 = base as u128 + delta;
    (wide % 0x1_0000_0000_0000_0000u128) as u64
}

// ---------------------------------------------------------------------------
// Names
// ---------------------------------------------------------------------------

/// The name of the member `member` of the aggregate named `prefix`.
pub open spec fn member_name(prefix: Seq<char>, member: Seq<char>) -> Seq<char> {
    prefix + seq!['.'] + member
}

/// The name of element `i` of the array named `prefix`.
pub open spec fn element_name(prefix: Seq<char>, i: usize) -> Seq<char> {
    prefix + seq!['.', '_'] + decimal(i as nat) + seq!['_']
}

/// The name of the element of the array named `prefix` at the indices
/// `indices`, outermost first.
pub open spec fn indexed_name(prefix: Seq<char>, indices: Seq<usize>) -> Seq<char>
    decreases indices.len(),
{
    if indices.len() == 0 {
        prefix
    } else {
        element_name(indexed_name(prefix, indices.drop_last()), indices.last())
    }
}

// ---------------------------------------------------------------------------
// Array chains
// ---------------------------------------------------------------------------

/// The product of `dims`.
pub open spec fn product(dims: Seq<usize>) -> nat
    decreases dims.len(),
{
    if dims.len() == 0 {
        1
    } else {
        product(dims.drop_last()) * (dims.last() as nat)
    }
}

/// `dims` without the dimensions that are 1.
pub open spec fn kept_dims(dims: Seq<usize>) -> Seq<usize>
    decreases dims.len(),
{
    if dims.len() == 0 {
        Seq::empty()
    } else if dims.last() == 1 {
        kept_dims(dims.drop_last())
    } else {
        kept_dims(dims.drop_last()).push(dims.last())
    }
}

/// The array descriptor that is the element of `t`, if there is one.
pub open spec fn inner_array(t: TypeView) -> Option<TypeView> {
    match t.pointer_target {
        Some(b) => if (*b).kind == TypeKind::Array {
            Some(*b)
        } else {
            None
        },
        None => None,
    }
}

/// The dimensions of the chain of arrays that starts at `t`, outermost
/// first, without those that are 1.
pub open spec fn chain_dims(t: TypeView) -> Seq<usize>
    decreases t.nesting(),
{
    match t.pointer_target {
        Some(b) => if (*b).kind == TypeKind::Array {
            kept_dims(t.array_dims) + chain_dims(*b)
        } else {
            kept_dims(t.array_dims)
        },
        None => kept_dims(t.array_dims),
    }
}

/// The element at the end of the chain of arrays that starts at `t`: the
/// first descriptor below `t` that is no array.
pub open spec fn chain_leaf(t: TypeView) -> Option<TypeView>
    decreases t.nesting(),
{
    match t.pointer_target {
        Some(b) => if (*b).kind == TypeKind::Array {
            chain_leaf(*b)
        } else {
            Some(*b)
        },
        None => None,
    }
}

/// The size of one element as `t` alone tells it: its size divided by the
/// product of its own dimensions, and `fallback` where either is 0.
pub open spec fn own_element_size(t: TypeView, fallback: usize) -> usize {
    if t.size > 0 && product(t.array_dims) > 0 {
        (t.size as nat / product(t.array_dims)) as usize
    } else {
        fallback
    }
}

/// The size of one element of the chain of arrays that starts at `t`: what
/// the innermost array with a size and dimensions tells, and `fallback`
/// where none does.
pub open spec fn chain_element_size(t: TypeView, fallback: usize) -> usize
    decreases t.nesting(),
{
    match t.pointer_target {
        Some(b) => if (*b).kind == TypeKind::Array {
            chain_element_size(*b, own_element_size(t, fallback))
        } else {
            own_element_size(t, fallback)
        },
        None => own_element_size(t, fallback),
    }
}

/// The indices, outermost first, of the element at position `flat` of an
/// array of dimensions `dims` laid out row by row.
pub open spec fn multi_index(flat: nat, dims: Seq<usize>) -> Seq<usize>
    decreases dims.len(),
{
    if dims.len() == 0 {
        Seq::empty()
    } else if dims.last() == 0 {
        multi_index(0, dims.drop_last()).push(0)
    } else {
        multi_index(flat / (dims.last() as nat), dims.drop_last()).push(
            (flat % (dims.last() as nat)) as usize,
        )
    }
}

// ---------------------------------------------------------------------------
// The expansion
// ---------------------------------------------------------------------------

/// How much deeper a descent at `depth` may still go.
pub open spec fn depth_left(depth: nat) -> nat {
    if depth <= MAX_NESTING_DEPTH {
        (MAX_NESTING_DEPTH + 1 - depth) as nat
    } else {
        0
    }
}

/// The entry for the cell itself.
pub open spec fn root_entry(prefix: Seq<char>, addr: u64, t: TypeView, indices: Seq<usize>)
    -> EntryView {
    EntryView {
        full_name: prefix,
        address: addr,
        size: t.size,
        a2l_type: scalar_tag(t.size, t.encoding),
        ty_name: t.name,
        bit_offset: None,
        bit_size: None,
        array_index: Some(indices),
    }
}

/// The entry for the bitfield `m` of an aggregate with encoding `encoding`
/// that is named `prefix` and lies at `addr`.
pub open spec fn bitfield_entry(
    prefix: Seq<char>,
    addr: u64,
    encoding: TypeEncoding,
    m: MemberView,
) -> EntryView {
    EntryView {
        full_name: member_name(prefix, m.name),
        address: addr_plus(addr, m.offset as nat),
        size: m.type_size,
        a2l_type: scalar_tag(m.type_size, encoding),
        ty_name: m.ty_name,
        bit_offset: Some(
            match m.bit_offset {
                Some(o) => o,
                None => 0usize,
            },
        ),
        bit_size: Some(
            match m.bit_size {
                Some(w) => w,
                None => 0usize,
            },
        ),
        array_index: None,
    }
}

/// `e` with the size `size` if it has none of its own.
pub open spec fn sized(e: TypeView, size: usize) -> TypeView {
    if e.size == 0 {
        TypeView { size, ..e }
    } else {
        e
    }
}

/// The entries for a cell of type `t` named `prefix` at `addr`: the cell
/// itself, then what it is made of. Nothing is produced beyond
/// `MAX_NESTING_DEPTH`, nor for a type that the descent is already inside
/// (`visited` holds the offsets on the way down).
pub open spec fn expansion(
    repo: Map<u64, TypeView>,
    prefix: Seq<char>,
    addr: u64,
    t: TypeView,
    depth: nat,
    visited: Seq<u64>,
    indices: Seq<usize>,
) -> Seq<EntryView>
    decreases depth_left(depth), t.nesting(), 1nat, 0nat,
{
    if depth > MAX_NESTING_DEPTH {
        Seq::empty()
    } else if t.offset > 0 && visited.contains(t.offset) {
        Seq::empty()
    } else {
        let inside = visited.push(t.offset);
        let below = match t.kind {
            TypeKind::Struct | TypeKind::Union => members_expansion(
                repo,
                prefix,
                addr,
                t,
                0,
                depth,
                inside,
            ),
            TypeKind::Array => {
                let dims = chain_dims(t);
                let total = product(dims);
                if 0 < total <= MAX_ARRAY_EXPAND {
                    match chain_leaf(t) {
                        Some(e) => if e.nesting() < t.nesting() {
                            walk(
                                repo,
                                prefix,
                                addr,
                                e,
                                dims,
                                chain_element_size(t, 0),
                                depth,
                                inside,
                                indices,
                            )
                        } else {
                            Seq::empty()
                        },
                        None => flat_entries(
                            prefix,
                            addr,
                            t,
                            dims,
                            chain_element_size(t, 0),
                            indices,
                            0,
                            total,
                        ),
                    }
                } else {
                    Seq::empty()
                }
            },
            _ => Seq::empty(),
        };
        seq![root_entry(prefix, addr, t, indices)] + below
    }
}

/// The entries for the members of `t` from position `from` on.
pub open spec fn members_expansion(
    repo: Map<u64, TypeView>,
    prefix: Seq<char>,
    addr: u64,
    t: TypeView,
    from: nat,
    depth: nat,
    inside: Seq<u64>,
) -> Seq<EntryView>
    decreases depth_left(depth), t.nesting(), 0nat, t.members.len() - from,
{
    if depth > MAX_NESTING_DEPTH || from >= t.members.len() {
        Seq::empty()
    } else {
        member_expansion(repo, prefix, addr, t.encoding, t.members[from as int], depth, inside)
            + members_expansion(repo, prefix, addr, t, from + 1, depth, inside)
    }
}

/// The entries for one member `m` of an aggregate at `addr`: one entry for
/// a bitfield; the expansion of its type, if the repository has it; else
/// nothing.
pub open spec fn member_expansion(
    repo: Map<u64, TypeView>,
    prefix: Seq<char>,
    addr: u64,
    encoding: TypeEncoding,
    m: MemberView,
    depth: nat,
    inside: Seq<u64>,
) -> Seq<EntryView>
    decreases depth_left(depth), 0nat, 0nat, 0nat,
    when depth <= MAX_NESTING_DEPTH
{
    if m.is_bitfield() {
        seq![bitfield_entry(prefix, addr, encoding, m)]
    } else {
        match m.type_offset {
            Some(key) => if repo.contains_key(key) {
                expansion(
                    repo,
                    member_name(prefix, m.name),
                    addr_plus(addr, m.offset as nat),
                    repo[key],
                    depth + 1,
                    inside,
                    Seq::empty(),
                )
            } else {
                Seq::empty()
            },
            None => Seq::empty(),
        }
    }
}

/// The entries for the elements of an array of `e` with dimensions `dims`
/// and element size `elem_size`, named `prefix` at `base`: for each index of
/// the first dimension in turn, the elements of the sub-array at that
/// index; for no dimensions, the element itself.
pub open spec fn walk(
    repo: Map<u64, TypeView>,
    prefix: Seq<char>,
    base: u64,
    e: TypeView,
    dims: Seq<usize>,
    elem_size: usize,
    depth: nat,
    inside: Seq<u64>,
    indices: Seq<usize>,
) -> Seq<EntryView>
    decreases depth_left(depth), e.nesting(), 3 + 2 * dims.len(), 0nat,
{
    if dims.len() == 0 {
        expansion(repo, prefix, base, sized(e, elem_size), depth, inside, indices)
    } else {
        walk_from(repo, prefix, base, e, dims, elem_size, depth, inside, indices, 0)
    }
}

/// The bytes between neighbouring elements of the first dimension of
/// `dims`.
pub open spec fn stride(dims: Seq<usize>, elem_size: usize) -> nat {
    product(dims.skip(1)) * (elem_size as nat)
}

/// The part of `walk` for the indices of the first dimension from `i` on.
pub open spec fn walk_from(
    repo: Map<u64, TypeView>,
    prefix: Seq<char>,
    base: u64,
    e: TypeView,
    dims: Seq<usize>,
    elem_size: usize,
    depth: nat,
    inside: Seq<u64>,
    indices: Seq<usize>,
    i: nat,
) -> Seq<EntryView>
    decreases depth_left(depth), e.nesting(), 2 + 2 * dims.len(), dims[0] - i,
{
    if dims.len() == 0 || i >= dims[0] {
        Seq::empty()
    } else {
        walk(
            repo,
            element_name(prefix, i as usize),
            addr_plus(base, i * stride(dims, elem_size)),
            e,
            dims.skip(1),
            elem_size,
            depth,
            inside,
            indices.push(i as usize),
        ) + walk_from(repo, prefix, base, e, dims, elem_size, depth, inside, indices, i + 1)
    }
}

/// The entry for element `flat` of an array `t` without a known element
/// type.
pub open spec fn flat_entry(
    prefix: Seq<char>,
    addr: u64,
    t: TypeView,
    dims: Seq<usize>,
    elem_size: usize,
    indices: Seq<usize>,
    flat: nat,
) -> EntryView {
    EntryView {
        full_name: indexed_name(prefix, multi_index(flat, dims)),
        address: addr_plus(addr, flat * (elem_size as nat)),
        size: elem_size,
        a2l_type: scalar_tag(elem_size, t.encoding),
        ty_name: t.name,
        bit_offset: None,
        bit_size: None,
        array_index: Some(indices + multi_index(flat, dims)),
    }
}

/// The entries for the elements `from .. total` of an array `t` without a
/// known element type.
pub open spec fn flat_entries(
    prefix: Seq<char>,
    addr: u64,
    t: TypeView,
    dims: Seq<usize>,
    elem_size: usize,
    indices: Seq<usize>,
    from: nat,
    total: nat,
) -> Seq<EntryView>
    decreases total - from,
{
    if from >= total {
        Seq::empty()
    } else {
        seq![flat_entry(prefix, addr, t, dims, elem_size, indices, from)] + flat_entries(
            prefix,
            addr,
            t,
            dims,
            elem_size,
            indices,
            from + 1,
            total,
        )
    }
}

// ---------------------------------------------------------------------------
// Products of dimensions
// ---------------------------------------------------------------------------

/// A product with a factor 0 is 0.
pub proof fn lemma_product_zero(dims: Seq<usize>, k: int)
    requires
        0 <= k < dims.len(),
        dims[k] == 0,
    ensures
        product(dims) == 0,
    decreases dims.len(),
{
    if k == dims.len() - 1 {
        assert(product(dims.drop_last()) * 0 == 0) by (nonlinear_arith);
    } else {
        lemma_product_zero(dims.drop_last(), k);
        assert(0 * (dims.last() as nat) == 0) by (nonlinear_arith);
    }
}

/// A product of factors that are all at least 1 is at least 1, and no
/// smaller than the product of any of its prefixes.
pub proof fn lemma_product_grows(dims: Seq<usize>, k: int)
    requires
        0 <= k <= dims.len(),
        forall|i: int| 0 <= i < dims.len() ==> dims[i] >= 1,
    ensures
        1 <= product(dims.take(k)) <= product(dims),
    decreases dims.len() - k,
{
    if k < dims.len() {
        lemma_product_grows(dims, k + 1);
        let next = dims.take(k + 1);
        assert(next.drop_last() =~= dims.take(k));
        assert(next.last() == dims[k]);
        let a = product(dims.take(k));
        let d = dims[k] as nat;
        assert(a <= a * d) by (nonlinear_arith)
            requires
                d >= 1,
        ;
        lemma_product_positive(dims.take(k));
    } else {
        assert(dims.take(k) =~= dims);
        lemma_product_positive(dims);
    }
}

/// A product of factors that are all at least 1 is at least 1.
pub proof fn lemma_product_positive(dims: Seq<usize>)
    requires
        forall|i: int| 0 <= i < dims.len() ==> dims[i] >= 1,
    ensures
        product(dims) >= 1,
    decreases dims.len(),
{
    if dims.len() > 0 {
        lemma_product_positive(dims.drop_last());
        let a = product(dims.drop_last());
        let d = dims.last() as nat;
        assert(a * d >= 1) by (nonlinear_arith)
            requires
                a >= 1,
                d >= 1,
        ;
    }
}

/// A positive product has no factor 0.
pub proof fn lemma_positive_product_factors(dims: Seq<usize>)
    requires
        product(dims) > 0,
    ensures
        forall|i: int| 0 <= i < dims.len() ==> dims[i] >= 1,
{
    assert forall|i: int| 0 <= i < dims.len() implies dims[i] >= 1 by {
        if dims[i] == 0 {
            lemma_product_zero(dims, i);
        }
    }
}

/// The product of a list is its first factor times the product of the
/// rest.
pub proof fn lemma_product_front(dims: Seq<usize>)
    requires
        dims.len() > 0,
    ensures
        product(dims) == (dims[0] as nat) * product(dims.skip(1)),
    decreases dims.len(),
{
    if dims.len() == 1 {
        assert(dims.drop_last() =~= Seq::<usize>::empty());
        assert(dims.skip(1) =~= Seq::<usize>::empty());
        assert(product(dims.drop_last()) == 1);
        assert(product(dims.skip(1)) == 1);
        assert(1 * (dims[0] as nat) == (dims[0] as nat) * 1) by (nonlinear_arith);
    } else {
        let init = dims.drop_last();
        lemma_product_front(init);
        assert(init.skip(1) =~= dims.skip(1).drop_last());
        assert(dims.skip(1).last() == dims.last());
        let a = dims[0] as nat;
        let b = product(init.skip(1));
        let c = dims.last() as nat;
        assert((a * b) * c == a * (b * c)) by (nonlinear_arith);
    }
}

/// The product of `dims`, if it is at most `cap`.
pub fn product_capped(dims: &Vec<usize>, cap: usize) -> (r: Option<usize>)
    ensures
        match r {
            Some(p) => p == product(dims@) && p <= cap,
            None => product(dims@) > cap,
        },
{
    let mut z: usize = 0;
    while z < dims.len()
        invariant
            z <= dims.len(),
            forall|i: int| 0 <= i < z ==> dims@[i] >= 1,
        decreases dims.len() - z,
    {
        if dims[z] == 0 {
            proof {
                lemma_product_zero(dims@, z as int);
            }
            return Some(0);
        }
        z += 1;
    }
    let mut acc: usize = 1;
    let mut k: usize = 0;
    proof {
        assert(dims@.take(0) =~= Seq::<usize>::empty());
    }
    if cap == 0 {
        proof {
            lemma_product_positive(dims@);
        }
        return None;
    }
    while k < dims.len()
        invariant
            k <= dims.len(),
            forall|i: int| 0 <= i < dims.len() ==> dims@[i] >= 1,
            acc == product(dims@.take(k as int)),
            acc <= cap,
        decreases dims.len() - k,
    {
        let d = dims[k];
        proof {
            let next = dims@.take(k + 1);
            assert(next.drop_last() =~= dims@.take(k as int));
            assert(next.last() == d);
        }
        if acc > cap / d {
            proof {
                assert(acc * d > cap) by (nonlinear_arith)
                    requires
                        acc > cap / d,
                        d >= 1,
                ;
                lemma_product_grows(dims@, k + 1);
            }
            return None;
        }
        assert(acc * d <= cap) by (nonlinear_arith)
            requires
                acc <= cap / d,
                d >= 1,
        ;
        acc = acc * d;
        k += 1;
    }
    proof {
        assert(dims@.take(dims.len() as int) =~= dims@);
    }
    Some(acc)
}

/// The size of one element as an array of `size` bytes with dimensions
/// `dims` tells it.
pub fn element_size_of(size: usize, dims: &Vec<usize>, fallback: usize) -> (r: usize)
    ensures
        r == if size > 0 && product(dims@) > 0 {
            (size as nat / product(dims@)) as usize
        } else {
            fallback
        },
{
    if size == 0 {
        return fallback;
    }
    match product_capped(dims, size) {
        Some(p) => {
            if p > 0 {
                size / p
            } else {
                fallback
            }
        },
        None => {
            proof {
                let p = product(dims@);
                assert(size as nat / p == 0) by (nonlinear_arith)
                    requires
                        p > size,
                ;
            }
            0
        },
    }
}

/// Appends to `out` the dimensions of `dims` that are not 1.
pub fn push_kept_dims(out: &mut Vec<usize>, dims: &Vec<usize>)
    ensures
        final(out)@ == old(out)@ + kept_dims(dims@),
{
    let mut i: usize = 0;
    proof {
        assert(dims@.take(0) =~= Seq::<usize>::empty());
        assert(out@ =~= old(out)@ + kept_dims(dims@.take(0)));
    }
    while i < dims.len()
        invariant
            i <= dims.len(),
            out@ == old(out)@ + kept_dims(dims@.take(i as int)),
        decreases dims.len() - i,
    {
        proof {
            let next = dims@.take(i + 1);
            assert(next.drop_last() =~= dims@.take(i as int));
            assert(next.last() == dims@[i as int]);
        }
        if dims[i] != 1 {
            out.push(dims[i]);
            proof {
                assert(out@ =~= old(out)@ + kept_dims(dims@.take(i + 1)));
            }
        }
        i += 1;
    }
    proof {
        assert(dims@.take(dims.len() as int) =~= dims@);
    }
}

// ---------------------------------------------------------------------------
// Names
// ---------------------------------------------------------------------------

/// The name of the member `member` of the aggregate named `prefix`.
pub fn make_member_name(prefix: &Vec<char>, member: &str) -> (r: Vec<char>)
    ensures
        r@ == member_name(prefix@, member@),
{
    let mut r: Vec<char> = Vec::new();
    push_all(&mut r, prefix.as_slice());
    r.push('.');
    crate::text::push_str(&mut r, member);
    proof {
        assert(r@ =~= member_name(prefix@, member@));
    }
    r
}

/// The name of element `i` of the array named `prefix`.
pub fn make_element_name(prefix: &Vec<char>, i: usize) -> (r: Vec<char>)
    ensures
        r@ == element_name(prefix@, i),
{
    let mut r: Vec<char> = Vec::new();
    push_all(&mut r, prefix.as_slice());
    r.push('.');
    r.push('_');
    push_decimal(&mut r, i as u64);
    r.push('_');
    proof {
        assert(r@ =~= element_name(prefix@, i));
    }
    r
}

// ---------------------------------------------------------------------------
// The descent
// ---------------------------------------------------------------------------

/// The descriptor at the end of a chain of arrays lies below its start.
pub proof fn lemma_chain_leaf_below(t: TypeView)
    ensures
        match chain_leaf(t) {
            Some(e) => e.nesting() < t.nesting() && e.kind != TypeKind::Array,
            None => true,
        },
    decreases t.nesting(),
{
    match t.pointer_target {
        Some(b) => {
            if (*b).kind == TypeKind::Array {
                lemma_chain_leaf_below(*b);
            }
        },
        None => {},
    }
}

/// The dimensions that follow `t`'s own in its chain.
pub open spec fn rest_dims(t: TypeView) -> Seq<usize> {
    match inner_array(t) {
        Some(b) => chain_dims(b),
        None => Seq::empty(),
    }
}

/// The element size of the chain below `t`, given what is known at `t`.
pub open spec fn rest_element_size(t: TypeView, known: usize) -> usize {
    match inner_array(t) {
        Some(b) => chain_element_size(b, known),
        None => known,
    }
}

/// Whether `key` stands in `path`.
pub fn path_contains(path: &Vec<u64>, key: u64) -> (r: bool)
    ensures
        r == path@.contains(key),
{
    let mut i: usize = 0;
    while i < path.len()
        invariant
            i <= path.len(),
            forall|k: int| 0 <= k < i ==> path@[k] != key,
        decreases path.len() - i,
    {
        if path[i] == key {
            return true;
        }
        i += 1;
    }
    false
}

impl ElfParser {
    /// The name of the element of the array named `prefix` at `indices`.
    pub fn format_array_element_name(prefix: &Vec<char>, indices: &Vec<usize>) -> (r: Vec<char>)
        ensures
            r@ == indexed_name(prefix@, indices@),
    {
        let mut r: Vec<char> = Vec::new();
        push_all(&mut r, prefix.as_slice());
        let mut i: usize = 0;
        proof {
            assert(indices@.take(0) =~= Seq::<usize>::empty());
            assert(r@ =~= prefix@);
        }
        while i < indices.len()
            invariant
                i <= indices.len(),
                r@ == indexed_name(prefix@, indices@.take(i as int)),
            decreases indices.len() - i,
        {
            proof {
                let next = indices@.take(i + 1);
                assert(next.drop_last() =~= indices@.take(i as int));
                assert(next.last() == indices@[i as int]);
            }
            r = make_element_name(&r, indices[i]);
            i += 1;
        }
        proof {
            assert(indices@.take(indices.len() as int) =~= indices@);
        }
        r
    }

    /// The indices of the element at position `flat_idx` of an array with
    /// dimensions `dims` laid out row by row.
    pub fn flat_to_multi_index(flat_idx: usize, dims: &Vec<usize>) -> (r: Vec<usize>)
        ensures
            r@ == multi_index(flat_idx as nat, dims@),
    {
        let n = dims.len();
        let mut r: Vec<usize> = Vec::new();
        let mut i: usize = 0;
        while i < n
            invariant
                i <= n,
                r.len() == i,
            decreases n - i,
        {
            r.push(0);
            i += 1;
        }
        let mut k: usize = n;
        let mut rem: usize = flat_idx;
        let ghost full = multi_index(flat_idx as nat, dims@);
        proof {
            lemma_multi_index_len(flat_idx as nat, dims@);
            assert(dims@.take(n as int) =~= dims@);
        }
        while k > 0
            invariant
                k <= n,
                n == dims.len(),
                r.len() == n,
                full == multi_index(flat_idx as nat, dims@),
                full.len() == n,
                forall|j: int| k <= j < n ==> r@[j] == full[j],
                forall|j: int|
                    0 <= j < k ==> (#[trigger] multi_index(rem as nat, dims@.take(k as int))[j])
                        == full[j],
                multi_index(rem as nat, dims@.take(k as int)).len() == k,
            decreases k,
        {
            let ghost pre = dims@.take(k as int);
            let d = dims[k - 1];
            let digit: usize = if d == 0 {
                0
            } else {
                rem % d
            };
            let next_rem: usize = if d == 0 {
                0
            } else {
                rem / d
            };
            proof {
                assert(pre.last() == d);
                assert(pre.drop_last() =~= dims@.take(k - 1));
                lemma_multi_index_len(next_rem as nat, dims@.take(k - 1));
                let m = multi_index(rem as nat, pre);
                assert(m == multi_index(next_rem as nat, pre.drop_last()).push(digit));
                assert(m[k - 1] == digit);
                assert forall|j: int| 0 <= j < k - 1 implies (#[trigger] multi_index(
                    next_rem as nat,
                    dims@.take(k - 1),
                )[j]) == full[j] by {
                    assert(m[j] == multi_index(next_rem as nat, dims@.take(k - 1))[j]);
                }
            }
            r.set(k - 1, digit);
            rem = next_rem;
            k -= 1;
        }
        proof {
            assert(r@ =~= full);
        }
        r
    }

    /// The dimensions, the element and the element size of the chain of
    /// arrays that starts at `type_info`, taken with the size `size`.
    pub fn flatten_array_type<'a>(type_info: &'a TypeInfo, size: usize) -> (r: (
        Vec<usize>,
        Option<&'a TypeInfo>,
        usize,
    ))
        ensures
            r.0@ == chain_dims(TypeView { size, ..type_info@ }),
            match r.1 {
                Some(e) => chain_leaf(TypeView { size, ..type_info@ }) == Some(e@),
                None => chain_leaf(TypeView { size, ..type_info@ }).is_none(),
            },
            r.2 == chain_element_size(TypeView { size, ..type_info@ }, 0),
    {
        let ghost top = TypeView { size, ..type_info@ };
        let mut dims: Vec<usize> = Vec::new();
        push_kept_dims(&mut dims, &type_info.array_dims);
        let mut known: usize = element_size_of(size, &type_info.array_dims, 0);
        let mut cur: &TypeInfo = type_info;
        proof {
            assert(dims@ =~= kept_dims(top.array_dims));
            assert(chain_dims(top) =~= dims@ + rest_dims(cur@));
        }
        loop
            invariant
                top == (TypeView { size, ..type_info@ }),
                chain_dims(top) == dims@ + rest_dims(cur@),
                chain_leaf(top) == chain_leaf(cur@),
                chain_element_size(top, 0) == rest_element_size(cur@, known),
            decreases cur@.nesting(),
        {
            match &cur.pointer_target {
                None => {
                    proof {
                        assert(dims@ + Seq::<usize>::empty() =~= dims@);
                    }
                    return (dims, None, known);
                },
                Some(b) => {
                    let inner: &TypeInfo = &**b;
                    if inner.kind != TypeKind::Array {
                        proof {
                            assert(dims@ + Seq::<usize>::empty() =~= dims@);
                        }
                        return (dims, Some(inner), known);
                    }
                    let ghost before = dims@;
                    push_kept_dims(&mut dims, &inner.array_dims);
                    known = element_size_of(inner.size, &inner.array_dims, known);
                    proof {
                        assert(chain_dims(inner@) =~= kept_dims(inner@.array_dims) + rest_dims(
                            inner@,
                        ));
                        assert(before + (kept_dims(inner@.array_dims) + rest_dims(inner@))
                            =~= dims@ + rest_dims(inner@));
                    }
                    cur = inner;
                },
            }
        }
    }
}

/// Laid out row by row, an element has as many indices as the array has
/// dimensions.
pub proof fn lemma_multi_index_len(flat: nat, dims: Seq<usize>)
    ensures
        multi_index(flat, dims).len() == dims.len(),
    decreases dims.len(),
{
    if dims.len() > 0 {
        if dims.last() == 0 {
            lemma_multi_index_len(0, dims.drop_last());
        } else {
            lemma_multi_index_len(flat / (dims.last() as nat), dims.drop_last());
        }
    }
}

/// The product of the dimensions of `dims` from position `from` on.
fn suffix_product(dims: &Vec<usize>, from: usize) -> (r: usize)
    requires
        from <= dims.len(),
        product(dims@.skip(from as int)) <= MAX_ARRAY_EXPAND,
    ensures
        r == product(dims@.skip(from as int)),
{
    let mut rest: Vec<usize> = Vec::new();
    let mut i: usize = from;
    while i < dims.len()
        invariant
            from <= i <= dims.len(),
            rest@ == dims@.subrange(from as int, i as int),
        decreases dims.len() - i,
    {
        rest.push(dims[i]);
        i += 1;
    }
    proof {
        assert(rest@ =~= dims@.skip(from as int));
    }
    match product_capped(&rest, MAX_ARRAY_EXPAND) {
        Some(p) => p,
        None => 0,
    }
}

fn join_indices(base: &Vec<usize>, more: &Vec<usize>) -> (r: Vec<usize>)
    ensures
        r@ == base@ + more@,
{
    let mut r = clone_sizes(base);
    let mut i: usize = 0;
    while i < more.len()
        invariant
            i <= more.len(),
            r@ == base@ + more@.take(i as int),
        decreases more.len() - i,
    {
        r.push(more[i]);
        i += 1;
        proof {
            assert(r@ =~= base@ + more@.take(i as int));
        }
    }
    proof {
        assert(more@.take(more.len() as int) =~= more@);
    }
    r
}

impl ElfParser {
    /// Appends to `store` the entries for a cell of type `type_info`, taken
    /// with the size `size`, named `prefix` at `base_addr`. `visited` holds
    /// the offsets of the types that the descent is inside.
    pub fn expand_recursive(
        prefix: &Vec<char>,
        base_addr: u64,
        type_info: &TypeInfo,
        size: usize,
        depth: usize,
        visited: &mut Vec<u64>,
        type_cache: &HashMap<u64, TypeInfo>,
        store: &mut A2lEntryStore,
        array_index: &Vec<usize>,
    )
        ensures
            final(visited)@ == old(visited)@,
            final(store)@ == old(store)@ + expansion(
                repo_view(type_cache@),
                prefix@,
                base_addr,
                TypeView { size, ..type_info@ },
                depth as nat,
                old(visited)@,
                array_index@,
            ),
        decreases depth_left(depth as nat), type_info@.nesting(), 1nat, 0nat,
    {
        broadcast use vstd::std_specs::hash::group_hash_axioms;

        let ghost repo = repo_view(type_cache@);
        let ghost t = TypeView { size, ..type_info@ };
        let ghost start = store@;
        let ghost path = visited@;
        if depth > MAX_NESTING_DEPTH {
            proof {
                assert(store@ =~= start + Seq::<EntryView>::empty());
            }
            return ;
        }
        if type_info.offset > 0 && path_contains(visited, type_info.offset) {
            proof {
                assert(store@ =~= start + Seq::<EntryView>::empty());
            }
            return ;
        }
        visited.push(type_info.offset);
        let ghost inside = visited@;
        let tag = infer_a2l_type_from_encoding(size, type_info.encoding);
        let entry = A2lEntry::new(
            string_of(prefix.as_slice()),
            base_addr,
            size,
            tag.to_owned(),
            type_info.name.clone(),
        ).with_array_index(clone_sizes(array_index));
        store.add(entry);
        let ghost root = root_entry(prefix@, base_addr, t, array_index@);
        let ghost rooted = start.push(root);
        proof {
            assert(entry@ == root);
        }
        match type_info.kind {
            TypeKind::Struct | TypeKind::Union => {
                let mut i: usize = 0;
                let ghost all = members_expansion(
                    repo,
                    prefix@,
                    base_addr,
                    t,
                    0,
                    depth as nat,
                    inside,
                );
                while i < type_info.members.len()
                    invariant
                        i <= type_info.members.len(),
                        depth <= MAX_NESTING_DEPTH,
                        visited@ == inside,
                        repo == repo_view(type_cache@),
                        t == (TypeView { size, ..type_info@ }),
                        all == members_expansion(
                            repo,
                            prefix@,
                            base_addr,
                            t,
                            0,
                            depth as nat,
                            inside,
                        ),
                        store@ + members_expansion(
                            repo,
                            prefix@,
                            base_addr,
                            t,
                            i as nat,
                            depth as nat,
                            inside,
                        ) == rooted + all,
                    decreases type_info.members.len() - i,
                {
                    let member = &type_info.members[i];
                    let ghost m = t.members[i as int];
                    let ghost before = store@;
                    let ghost rest = members_expansion(
                        repo,
                        prefix@,
                        base_addr,
                        t,
                        (i + 1) as nat,
                        depth as nat,
                        inside,
                    );
                    let ghost one = member_expansion(
                        repo,
                        prefix@,
                        base_addr,
                        t.encoding,
                        m,
                        depth as nat,
                        inside,
                    );
                    proof {
                        assert(m == member@);
                        assert(members_expansion(
                            repo,
                            prefix@,
                            base_addr,
                            t,
                            i as nat,
                            depth as nat,
                            inside,
                        ) == one + rest);
                    }
                    let child_name = make_member_name(prefix, member.name.as_str());
                    let child_addr = offset_address(base_addr, member.offset as u128);
                    if member.is_bitfield() {
                        let member_tag = infer_a2l_type_from_encoding(
                            member.type_size,
                            type_info.encoding,
                        );
                        let bit_offset = match member.bit_offset {
                            Some(o) => o,
                            None => 0,
                        };
                        let bit_size = match member.bit_size {
                            Some(w) => w,
                            None => 0,
                        };
                        let leaf = A2lEntry::new(
                            string_of(child_name.as_slice()),
                            child_addr,
                            member.type_size,
                            member_tag.to_owned(),
                            member.ty_name.clone(),
                        ).with_bitfield(bit_offset, bit_size);
                        proof {
                            assert(leaf@ == bitfield_entry(prefix@, base_addr, t.encoding, m));
                        }
                        store.add(leaf);
                        proof {
                            assert(store@ =~= before + one);
                        }
                    } else {
                        match member.type_offset {
                            Some(key) => {
                                match type_cache.get(&key) {
                                    Some(member_type) => {
                                        let none: Vec<usize> = Vec::new();
                                        proof {
                                            assert(repo.contains_key(key));
                                            assert(repo[key] == member_type@);
                                            assert((TypeView {
                                                size: member_type.size,
                                                ..member_type@
                                            }) == member_type@);
                                            assert(none@ =~= Seq::<usize>::empty());
                                        }
                                        Self::expand_recursive(
                                            &child_name,
                                            child_addr,
                                            member_type,
                                            member_type.size,
                                            depth + 1,
                                            visited,
                                            type_cache,
                                            store,
                                            &none,
                                        );
                                    },
                                    None => {
                                        proof {
                                            assert(!repo.contains_key(key));
                                            assert(store@ =~= before + one);
                                        }
                                    },
                                }
                            },
                            None => {
                                proof {
                                    assert(store@ =~= before + one);
                                }
                            },
                        }
                    }
                    proof {
                        assert(store@ == before + one);
                        assert((before + one) + rest =~= before + (one + rest));
                    }
                    i += 1;
                }
                proof {
                    assert(members_expansion(
                        repo,
                        prefix@,
                        base_addr,
                        t,
                        type_info.members.len() as nat,
                        depth as nat,
                        inside,
                    ) =~= Seq::<EntryView>::empty());
                    assert(store@ =~= rooted + all);
                    assert(rooted + all =~= start + (seq![root] + all));
                }
            },
            TypeKind::Array => {
                let (dims, elem, elem_size) = Self::flatten_array_type(type_info, size);
                proof {
                    lemma_chain_leaf_below(t);
                }
                let total = product_capped(&dims, MAX_ARRAY_EXPAND);
                match total {
                    Some(n) => {
                        if n > 0 {
                            match elem {
                                Some(e) => {
                                    proof {
                                        assert(dims@.skip(0) =~= dims@);
                                        assert(e@.nesting() < type_info@.nesting());
                                    }
                                    Self::expand_multi_dim_array(
                                        prefix,
                                        base_addr,
                                        e,
                                        &dims,
                                        0,
                                        elem_size,
                                        depth,
                                        visited,
                                        type_cache,
                                        store,
                                        array_index,
                                    );
                                    proof {
                                        let below = walk(
                                            repo,
                                            prefix@,
                                            base_addr,
                                            e@,
                                            dims@,
                                            elem_size,
                                            depth as nat,
                                            inside,
                                            array_index@,
                                        );
                                        assert(store@ == rooted + below);
                                        assert(rooted + below =~= start + (seq![root] + below));
                                    }
                                },
                                None => {
                                    let mut i: usize = 0;
                                    let ghost all = flat_entries(
                                        prefix@,
                                        base_addr,
                                        t,
                                        dims@,
                                        elem_size,
                                        array_index@,
                                        0,
                                        n as nat,
                                    );
                                    while i < n
                                        invariant
                                            i <= n <= MAX_ARRAY_EXPAND,
                                            visited@ == inside,
                                            t == (TypeView { size, ..type_info@ }),
                                            all == flat_entries(
                                                prefix@,
                                                base_addr,
                                                t,
                                                dims@,
                                                elem_size,
                                                array_index@,
                                                0,
                                                n as nat,
                                            ),
                                            store@ + flat_entries(
                                                prefix@,
                                                base_addr,
                                                t,
                                                dims@,
                                                elem_size,
                                                array_index@,
                                                i as nat,
                                                n as nat,
                                            ) == rooted + all,
                                        decreases n - i,
                                    {
                                        let ghost before = store@;
                                        let ghost rest = flat_entries(
                                            prefix@,
                                            base_addr,
                                            t,
                                            dims@,
                                            elem_size,
                                            array_index@,
                                            (i + 1) as nat,
                                            n as nat,
                                        );
                                        let multi = Self::flat_to_multi_index(i, &dims);
                                        let idx = join_indices(array_index, &multi);
                                        let name = Self::format_array_element_name(prefix, &multi);
                                        proof {
                                            assert(i * elem_size <= 0xffff_ffff_ffff_ffff_ffff_ffff)
                                                by (nonlinear_arith)
                                                requires
                                                    i <= 1000,
                                                    elem_size <= 0xffff_ffff_ffff_ffff,
                                            ;
                                        }
                                        let delta: u128 = (i as u128) * (elem_size as u128);
                                        let addr = offset_address(base_addr, delta);
                                        let elem_tag = infer_a2l_type_from_encoding(
                                            elem_size,
                                            type_info.encoding,
                                        );
                                        let leaf = A2lEntry::new(
                                            string_of(name.as_slice()),
                                            addr,
                                            elem_size,
                                            elem_tag.to_owned(),
                                            type_info.name.clone(),
                                        ).with_array_index(idx);
                                        proof {
                                            assert(leaf@ == flat_entry(
                                                prefix@,
                                                base_addr,
                                                t,
                                                dims@,
                                                elem_size,
                                                array_index@,
                                                i as nat,
                                            ));
                                        }
                                        store.add(leaf);
                                        proof {
                                            assert(store@ =~= before + seq![leaf@]);
                                            assert((before + seq![leaf@]) + rest =~= before + (
                                            seq![leaf@] + rest));
                                        }
                                        i += 1;
                                    }
                                    proof {
                                        assert(flat_entries(
                                            prefix@,
                                            base_addr,
                                            t,
                                            dims@,
                                            elem_size,
                                            array_index@,
                                            n as nat,
                                            n as nat,
                                        ) =~= Seq::<EntryView>::empty());
                                        assert(store@ =~= rooted + all);
                                        assert(rooted + all =~= start + (seq![root] + all));
                                    }
                                },
                            }
                        } else {
                            proof {
                                assert(store@ =~= start + (seq![root] + Seq::<EntryView>::empty()));
                            }
                        }
                    },
                    None => {
                        proof {
                            assert(store@ =~= start + (seq![root] + Seq::<EntryView>::empty()));
                        }
                    },
                }
            },
            _ => {
                proof {
                    assert(store@ =~= start + (seq![root] + Seq::<EntryView>::empty()));
                }
            },
        }
        visited.pop();
        proof {
            assert(visited@ =~= path);
        }
    }

    /// Appends to `store` the entries for the elements of an array of
    /// `elem_type` whose dimensions are those of `dims` from position
    /// `from` on, named `prefix` at `base_addr`.
    pub fn expand_multi_dim_array(
        prefix: &Vec<char>,
        base_addr: u64,
        elem_type: &TypeInfo,
        dims: &Vec<usize>,
        from: usize,
        elem_size: usize,
        depth: usize,
        visited: &mut Vec<u64>,
        type_cache: &HashMap<u64, TypeInfo>,
        store: &mut A2lEntryStore,
        base_idx: &Vec<usize>,
    )
        requires
            from <= dims.len(),
            0 < product(dims@.skip(from as int)) <= MAX_ARRAY_EXPAND,
        ensures
            final(visited)@ == old(visited)@,
            final(store)@ == old(store)@ + walk(
                repo_view(type_cache@),
                prefix@,
                base_addr,
                elem_type@,
                dims@.skip(from as int),
                elem_size,
                depth as nat,
                old(visited)@,
                base_idx@,
            ),
        decreases
                depth_left(depth as nat),
                elem_type@.nesting(),
                3 + 2 * (dims.len() - from),
                0nat,
    {
        let ghost repo = repo_view(type_cache@);
        let ghost here = dims@.skip(from as int);
        let ghost start = store@;
        let ghost path = visited@;
        if from == dims.len() {
            let size = if elem_type.size == 0 {
                elem_size
            } else {
                elem_type.size
            };
            proof {
                assert(here.len() == 0);
                assert((TypeView { size, ..elem_type@ }) == sized(elem_type@, elem_size));
            }
            Self::expand_recursive(
                prefix,
                base_addr,
                elem_type,
                size,
                depth,
                visited,
                type_cache,
                store,
                base_idx,
            );
            return ;
        }
        let current_dim = dims[from];
        proof {
            lemma_product_front(here);
            lemma_positive_product_factors(here);
            assert(here[0] == current_dim);
            assert(here.skip(1) =~= dims@.skip(from + 1));
            lemma_positive_product_factors(here);
            assert forall|i: int| 0 <= i < here.skip(1).len() implies here.skip(1)[i] >= 1 by {
                assert(here.skip(1)[i] == here[i + 1]);
            }
            lemma_product_positive(here.skip(1));
            let a = current_dim as nat;
            let b = product(here.skip(1));
            assert(a <= a * b && b <= a * b) by (nonlinear_arith)
                requires
                    a >= 1,
                    b >= 1,
            ;
        }
        let inner = suffix_product(dims, from + 1);
        proof {
            assert(inner * elem_size <= 1000 * 0xffff_ffff_ffff_ffff) by (nonlinear_arith)
                requires
                    inner <= 1000,
                    elem_size <= 0xffff_ffff_ffff_ffff,
            ;
        }
        let stride128: u128 = (inner as u128) * (elem_size as u128);
        proof {
            assert(stride128 == stride(here, elem_size));
        }
        let ghost all = walk_from(
            repo,
            prefix@,
            base_addr,
            elem_type@,
            here,
            elem_size,
            depth as nat,
            path,
            base_idx@,
            0,
        );
        let mut i: usize = 0;
        while i < current_dim
            invariant
                i <= current_dim <= MAX_ARRAY_EXPAND,
                from < dims.len(),
                here == dims@.skip(from as int),
                here[0] == current_dim,
                0 < product(dims@.skip(from + 1)) <= MAX_ARRAY_EXPAND,
                visited@ == path,
                repo == repo_view(type_cache@),
                stride128 == stride(here, elem_size),
                stride128 <= 1000 * 0xffff_ffff_ffff_ffff,
                all == walk_from(
                    repo,
                    prefix@,
                    base_addr,
                    elem_type@,
                    here,
                    elem_size,
                    depth as nat,
                    path,
                    base_idx@,
                    0,
                ),
                store@ + walk_from(
                    repo,
                    prefix@,
                    base_addr,
                    elem_type@,
                    here,
                    elem_size,
                    depth as nat,
                    path,
                    base_idx@,
                    i as nat,
                ) == start + all,
            decreases current_dim - i,
        {
            let ghost before = store@;
            let ghost rest = walk_from(
                repo,
                prefix@,
                base_addr,
                elem_type@,
                here,
                elem_size,
                depth as nat,
                path,
                base_idx@,
                (i + 1) as nat,
            );
            let mut full_idx = clone_sizes(base_idx);
            full_idx.push(i);
            let elem_name = make_element_name(prefix, i);
            proof {
                assert(i * stride128 <= 0xffff_ffff_ffff_ffff_ffff_ffff) by (nonlinear_arith)
                    requires
                        i <= 1000,
                        stride128 <= 1000 * 0xffff_ffff_ffff_ffff,
                ;
            }
            let delta: u128 = (i as u128) * stride128;
            let elem_addr = offset_address(base_addr, delta);
            proof {
                assert(here.skip(1) =~= dims@.skip(from + 1));
                assert(full_idx@ =~= base_idx@.push(i));
            }
            Self::expand_multi_dim_array(
                &elem_name,
                elem_addr,
                elem_type,
                dims,
                from + 1,
                elem_size,
                depth,
                visited,
                type_cache,
                store,
                &full_idx,
            );
            proof {
                let one = walk(
                    repo,
                    element_name(prefix@, i),
                    addr_plus(base_addr, (i as nat) * stride(here, elem_size)),
                    elem_type@,
                    here.skip(1),
                    elem_size,
                    depth as nat,
                    path,
                    base_idx@.push(i),
                );
                assert(store@ == before + one);
                assert((before + one) + rest =~= before + (one + rest));
            }
            i += 1;
        }
        proof {
            assert(walk_from(
                repo,
                prefix@,
                base_addr,
                elem_type@,
                here,
                elem_size,
                depth as nat,
                path,
                base_idx@,
                current_dim as nat,
            ) =~= Seq::<EntryView>::empty());
            assert(store@ =~= start + all);
        }
    }
}

// ---------------------------------------------------------------------------
// Variables and the catalogue
// ---------------------------------------------------------------------------

/// The entries for the variable `v`: the expansion of its type at its
/// address, or one entry of unsigned encoding if its type is not known.
pub open spec fn variable_expansion(repo: Map<u64, TypeView>, v: VariableView) -> Seq<EntryView> {
    match v.type_info {
        Some(t) => expansion(repo, v.name, v.address, t, 0, Seq::empty(), Seq::empty()),
        None => seq![
            EntryView::plain(
                v.name,
                v.address,
                v.size,
                scalar_tag(v.size, TypeEncoding::Unsigned),
                v.ty_name,
            ),
        ],
    }
}

/// The catalogue for `vars`: the entries of each variable in turn.
pub open spec fn catalogue(repo: Map<u64, TypeView>, vars: Seq<VariableView>) -> Seq<EntryView>
    decreases vars.len(),
{
    if vars.len() == 0 {
        Seq::empty()
    } else {
        catalogue(repo, vars.drop_last()) + variable_expansion(repo, vars.last())
    }
}

impl ElfParser {
    /// Appends the entries for `var` to `store`.
    pub fn expand_variable(
        var: &Variable,
        type_cache: &HashMap<u64, TypeInfo>,
        store: &mut A2lEntryStore,
    )
        ensures
            final(store)@ == old(store)@ + variable_expansion(repo_view(type_cache@), var@),
    {
        match &var.type_info {
            Some(type_info) => {
                let mut visited: Vec<u64> = Vec::new();
                let prefix = chars_of(var.name.as_str());
                let none: Vec<usize> = Vec::new();
                proof {
                    assert(visited@ =~= Seq::<u64>::empty());
                    assert(none@ =~= Seq::<usize>::empty());
                    assert((TypeView { size: type_info.size, ..type_info@ }) == type_info@);
                }
                Self::expand_recursive(
                    &prefix,
                    var.address,
                    type_info,
                    type_info.size,
                    0,
                    &mut visited,
                    type_cache,
                    store,
                    &none,
                );
            },
            None => {
                let tag = infer_a2l_type_from_encoding(var.size, TypeEncoding::Unsigned);
                let entry = A2lEntry::new(
                    var.name.clone(),
                    var.address,
                    var.size,
                    tag.to_owned(),
                    var.ty_name.clone(),
                );
                store.add(entry);
                proof {
                    assert(store@ =~= old(store)@ + variable_expansion(
                        repo_view(type_cache@),
                        var@,
                    ));
                }
            },
        }
    }

    /// The catalogue for `variables`.
    pub fn expand_all_entries(variables: &Vec<Variable>, type_cache: &HashMap<u64, TypeInfo>) -> (r:
        A2lEntryStore)
        ensures
            r@ == catalogue(repo_view(type_cache@), crate::types::variable_views(variables@)),
    {
        let mut store = A2lEntryStore::new();
        let mut i: usize = 0;
        let ghost vars = crate::types::variable_views(variables@);
        proof {
            assert(vars.take(0) =~= Seq::<VariableView>::empty());
        }
        while i < variables.len()
            invariant
                i <= variables.len(),
                vars == crate::types::variable_views(variables@),
                store@ == catalogue(repo_view(type_cache@), vars.take(i as int)),
            decreases variables.len() - i,
        {
            proof {
                let next = vars.take(i + 1);
                assert(next.drop_last() =~= vars.take(i as int));
                assert(next.last() == variables@[i as int]@);
            }
            Self::expand_variable(&variables[i], type_cache, &mut store);
            i += 1;
        }
        proof {
            assert(vars.take(variables.len() as int) =~= vars);
        }
        store
    }
}

} // verus!
