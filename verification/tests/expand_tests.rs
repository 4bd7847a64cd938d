use a2l_editor::{
    infer_a2l_type, infer_a2l_type_from_encoding, A2lEntry, A2lEntryStore, CacheEntry, ElfParser,
    Endianness, EnumVariant, GuardCounts, StructMember, TypeEncoding, TypeInfo, TypeKind,
    Variable, MAX_ARRAY_EXPAND, MAX_NESTING_DEPTH,
};
use std::collections::HashMap;

fn prim(name: &str, size: usize, encoding: TypeEncoding, offset: u64) -> TypeInfo {
    let mut t = TypeInfo::primitive(name.to_string(), size, encoding);
    t.offset = offset;
    t
}

fn member(name: &str, offset: usize, type_offset: u64) -> StructMember {
    StructMember::new(name.to_string(), offset, "unknown".to_string(), 0)
        .with_type_offset(type_offset)
}

fn variable(name: &str, address: u64, t: TypeInfo) -> Variable {
    Variable::new(name.to_string(), address, t.size, t.name.clone(), ".data".to_string())
        .with_type_info(t)
}

fn expand(v: &Variable, repo: &HashMap<u64, TypeInfo>) -> Vec<A2lEntry> {
    let mut store = A2lEntryStore::new();
    ElfParser::expand_variable(v, repo, &mut store);
    store.entries
}

fn row(e: &A2lEntry) -> (String, u64, usize, String) {
    (e.full_name.clone(), e.address, e.size, e.a2l_type.clone())
}

fn unsigned_repo() -> HashMap<u64, TypeInfo> {
    let mut repo = HashMap::new();
    repo.insert(0x10, prim("u8", 1, TypeEncoding::Unsigned, 0x10));
    repo.insert(0x20, prim("u16", 2, TypeEncoding::Unsigned, 0x20));
    repo.insert(0x30, prim("u32", 4, TypeEncoding::Unsigned, 0x30));
    repo
}

#[test]
fn limits_are_as_published() {
    assert_eq!(MAX_ARRAY_EXPAND, 1000);
    assert_eq!(MAX_NESTING_DEPTH, 50);
}

#[test]
fn flat_struct_expands_to_root_and_members() {
    let repo = unsigned_repo();
    let cfg = TypeInfo::struct_type(
        "cfg_t".to_string(),
        8,
        vec![member("a", 0, 0x10), member("b", 2, 0x20), member("c", 4, 0x30)],
        0x40,
    );
    let entries = expand(&variable("cfg", 0x2000_0100, cfg), &repo);
    let rows: Vec<_> = entries.iter().map(row).collect();
    assert_eq!(
        rows,
        vec![
            // The root of an aggregate is tagged by its size like any cell.
            ("cfg".to_string(), 0x2000_0100, 8, "A_UINT64".to_string()),
            ("cfg.a".to_string(), 0x2000_0100, 1, "UBYTE".to_string()),
            ("cfg.b".to_string(), 0x2000_0102, 2, "UWORD".to_string()),
            ("cfg.c".to_string(), 0x2000_0104, 4, "ULONG".to_string()),
        ]
    );
    assert_eq!(entries[0].ty_name, "cfg_t");
    assert_eq!(entries[2].ty_name, "u16");
    assert!(entries.iter().all(|e| e.bit_size.is_none()));
    assert!(entries.iter().all(|e| e.array_index == Some(vec![])));
}

#[test]
fn bitfields_become_entries_with_bit_positions() {
    let repo = unsigned_repo();
    let r = StructMember::new("r".to_string(), 4, "u32".to_string(), 4)
        .with_type_offset(0x30)
        .with_bitfield(0, 3);
    let g = StructMember::new("g".to_string(), 4, "u32".to_string(), 4)
        .with_type_offset(0x30)
        .with_bitfield(3, 5);
    assert!(r.is_bitfield());
    let flags = TypeInfo::struct_type(
        "flags_t".to_string(),
        8,
        vec![member("x", 0, 0x30), r, g],
        0x50,
    );
    let entries = expand(&variable("flags", 0x2000_0200, flags), &repo);
    let names: Vec<_> = entries.iter().map(|e| e.full_name.as_str()).collect();
    assert_eq!(names, vec!["flags", "flags.x", "flags.r", "flags.g"]);
    assert_eq!(entries[2].size, 4);
    assert_eq!(entries[2].address, 0x2000_0204);
    assert_eq!((entries[2].bit_offset, entries[2].bit_size), (Some(0), Some(3)));
    assert_eq!((entries[3].bit_offset, entries[3].bit_size), (Some(3), Some(5)));
    assert_eq!(entries[2].a2l_type, "ULONG");
    assert_eq!(entries[2].ty_name, "u32");
    assert_eq!(entries[2].array_index, None);
    assert!(entries[2].is_bitfield());
    assert!(!entries[1].is_bitfield());
}

#[test]
fn two_by_three_array_is_walked_row_by_row() {
    let repo = unsigned_repo();
    let m = TypeInfo::array_type(
        "array[2][3]".to_string(),
        12,
        prim("u16", 2, TypeEncoding::Unsigned, 0x20),
        vec![2, 3],
        0x60,
    );
    let entries = expand(&variable("M", 0x2000_0300, m), &repo);
    assert_eq!(entries.len(), 7);
    assert_eq!(row(&entries[0]), ("M".to_string(), 0x2000_0300, 12, "UBYTE".to_string()));
    let expected = [
        ("M._0_._0_", 0x2000_0300u64, vec![0usize, 0]),
        ("M._0_._1_", 0x2000_0302, vec![0, 1]),
        ("M._0_._2_", 0x2000_0304, vec![0, 2]),
        ("M._1_._0_", 0x2000_0306, vec![1, 0]),
        ("M._1_._1_", 0x2000_0308, vec![1, 1]),
        ("M._1_._2_", 0x2000_030A, vec![1, 2]),
    ];
    for (e, (name, address, index)) in entries[1..].iter().zip(expected.iter()) {
        assert_eq!(e.full_name, *name);
        assert_eq!(e.address, *address);
        assert_eq!(e.size, 2);
        assert_eq!(e.a2l_type, "UWORD");
        assert_eq!(e.array_index.as_ref(), Some(index));
        let flat = index[0] * 3 + index[1];
        assert_eq!(e.address, 0x2000_0300 + (flat as u64) * 2);
        assert!(e.address >= 0x2000_0300 && e.address + e.size as u64 <= 0x2000_0300 + 12);
    }
}

#[test]
fn chains_of_arrays_are_one_walk() {
    let repo = unsigned_repo();
    let inner = TypeInfo::array_type(
        "array[3]".to_string(),
        6,
        prim("u16", 2, TypeEncoding::Unsigned, 0x20),
        vec![3],
        0x61,
    );
    let outer = TypeInfo::array_type("array[2]".to_string(), 12, inner, vec![2], 0x62);
    let (dims, leaf, size) = ElfParser::flatten_array_type(&outer, 12);
    assert_eq!(dims, vec![2, 3]);
    assert_eq!(leaf.map(|t| t.name.clone()), Some("u16".to_string()));
    assert_eq!(size, 2);
    let entries = expand(&variable("M", 0x100, outer), &repo);
    let names: Vec<_> = entries.iter().map(|e| e.full_name.as_str()).collect();
    assert_eq!(
        names,
        vec!["M", "M._0_._0_", "M._0_._1_", "M._0_._2_", "M._1_._0_", "M._1_._1_", "M._1_._2_"]
    );
    assert_eq!(entries[4].address, 0x106);
}

#[test]
fn dimensions_of_one_are_dropped() {
    let t = TypeInfo::array_type(
        "array[1][4][1]".to_string(),
        4,
        prim("u8", 1, TypeEncoding::Unsigned, 0x10),
        vec![1, 4, 1],
        0x63,
    );
    let (dims, _, size) = ElfParser::flatten_array_type(&t, 4);
    assert_eq!(dims, vec![4]);
    assert_eq!(size, 1);
    let entries = expand(&variable("v", 0x10, t), &HashMap::new());
    assert_eq!(entries.len(), 5);
    assert_eq!(entries[4].full_name, "v._3_");
    assert_eq!(entries[4].address, 0x13);
}

#[test]
fn arrays_above_the_cap_give_only_their_root() {
    let buf = TypeInfo::array_type(
        "array[2000]".to_string(),
        2000,
        prim("u8", 1, TypeEncoding::Unsigned, 0x10),
        vec![2000],
        0x70,
    );
    let entries = expand(&variable("buf", 0x3000, buf), &unsigned_repo());
    assert_eq!(entries.len(), 1);
    assert_eq!(entries[0].full_name, "buf");
    assert_eq!(entries[0].size, 2000);

    let at_cap = TypeInfo::array_type(
        "array[1000]".to_string(),
        1000,
        prim("u8", 1, TypeEncoding::Unsigned, 0x10),
        vec![1000],
        0x71,
    );
    assert_eq!(expand(&variable("b", 0, at_cap), &unsigned_repo()).len(), 1001);

    let empty = TypeInfo::array_type(
        "array[0]".to_string(),
        0,
        prim("u8", 1, TypeEncoding::Unsigned, 0x10),
        vec![0],
        0x72,
    );
    assert_eq!(expand(&variable("e", 0, empty), &unsigned_repo()).len(), 1);
}

#[test]
fn arrays_without_element_type_are_listed_flat() {
    let mut t = TypeInfo::array_type(
        "array[2][2]".to_string(),
        16,
        prim("x", 0, TypeEncoding::Signed, 0),
        vec![2, 2],
        0x73,
    );
    t.pointer_target = None;
    t.encoding = TypeEncoding::Signed;
    let entries = expand(&variable("q", 0x40, t), &HashMap::new());
    let rows: Vec<_> = entries[1..].iter().map(row).collect();
    assert_eq!(
        rows,
        vec![
            ("q._0_._0_".to_string(), 0x40, 4, "SLONG".to_string()),
            ("q._0_._1_".to_string(), 0x44, 4, "SLONG".to_string()),
            ("q._1_._0_".to_string(), 0x48, 4, "SLONG".to_string()),
            ("q._1_._1_".to_string(), 0x4C, 4, "SLONG".to_string()),
        ]
    );
    assert_eq!(entries[3].array_index, Some(vec![1, 0]));
    assert_eq!(entries[3].ty_name, "array[2][2]");
}

#[test]
fn cycles_are_not_entered_again() {
    let mut repo = unsigned_repo();
    let pointer = TypeInfo::pointer_type(
        "pointer".to_string(),
        4,
        prim("void", 0, TypeEncoding::Unsigned, 0x80),
        0x90,
    );
    repo.insert(0x90, pointer);
    let node = TypeInfo::struct_type(
        "N".to_string(),
        8,
        vec![member("next", 0, 0x90), member("x", 4, 0x30)],
        0x80,
    );
    repo.insert(0x80, node.clone());
    let entries = expand(&variable("n", 0x500, node), &repo);
    let rows: Vec<_> = entries.iter().map(row).collect();
    assert_eq!(
        rows,
        vec![
            ("n".to_string(), 0x500, 8, "A_UINT64".to_string()),
            ("n.next".to_string(), 0x500, 4, "ULONG".to_string()),
            ("n.x".to_string(), 0x504, 4, "ULONG".to_string()),
        ]
    );

    // A struct that holds itself by value is cut where the cycle closes.
    let mut looped = HashMap::new();
    let own = TypeInfo::struct_type("S".to_string(), 4, vec![member("me", 0, 0xA0)], 0xA0);
    looped.insert(0xA0, own.clone());
    let entries = expand(&variable("s", 0, own), &looped);
    assert_eq!(entries.len(), 1);
}

#[test]
fn descent_stops_at_the_depth_limit() {
    // Types without an offset bypass the cycle guard; only the depth stops
    // this descent: depths 0 to 50 give an entry each.
    let mut repo = HashMap::new();
    let mut own = TypeInfo::struct_type("S".to_string(), 4, vec![member("m", 0, 0xB0)], 0);
    own.offset = 0;
    repo.insert(0xB0, own.clone());
    let entries = expand(&variable("s", 0, own), &repo);
    assert_eq!(entries.len(), MAX_NESTING_DEPTH + 1);
    assert_eq!(entries.last().unwrap().full_name.matches(".m").count(), MAX_NESTING_DEPTH);
}

#[test]
fn unions_put_every_member_at_the_base() {
    let repo = unsigned_repo();
    let u = TypeInfo::union_type(
        "U".to_string(),
        4,
        vec![member("a", 0, 0x10), member("b", 0, 0x30)],
        0xC0,
    );
    assert_eq!(u.kind, TypeKind::Union);
    let entries = expand(&variable("u", 0x700, u), &repo);
    assert_eq!(entries.len(), 3);
    assert!(entries.iter().all(|e| e.address == 0x700));
}

#[test]
fn members_without_a_known_type_are_left_out() {
    let t = TypeInfo::struct_type(
        "T".to_string(),
        4,
        vec![member("gone", 0, 0x999), StructMember::new("bare".into(), 0, "x".into(), 1)],
        0xD0,
    );
    assert_eq!(expand(&variable("t", 0, t), &unsigned_repo()).len(), 1);
}

#[test]
fn variables_without_type_give_one_plain_entry() {
    let v = Variable::new("raw".into(), 0x10, 2, "uint16_t".into(), ".bss".into());
    let entries = expand(&v, &HashMap::new());
    assert_eq!(entries.len(), 1);
    assert_eq!(row(&entries[0]), ("raw".to_string(), 0x10, 2, "UWORD".to_string()));
    assert_eq!(entries[0].ty_name, "uint16_t");
    assert_eq!(entries[0].array_index, None);
}

#[test]
fn catalogue_keeps_the_order_of_the_variables() {
    let repo = unsigned_repo();
    let vars = vec![
        variable("b", 0x20, prim("u8", 1, TypeEncoding::Unsigned, 0x10)),
        Variable::new("a".into(), 0x10, 4, "uint32_t".into(), ".data".into()),
    ];
    let store = ElfParser::expand_all_entries(&vars, &repo);
    let names: Vec<_> = store.entries.iter().map(|e| e.full_name.as_str()).collect();
    assert_eq!(names, vec!["b", "a"]);
    assert_eq!(store.len(), 2);
    assert!(!store.is_empty());
}

#[test]
fn addresses_wrap_in_sixty_four_bits() {
    let repo = unsigned_repo();
    let t = TypeInfo::struct_type("W".to_string(), 8, vec![member("m", 4, 0x30)], 0xE0);
    let entries = expand(&variable("w", u64::MAX - 1, t), &repo);
    assert_eq!(entries[1].address, 2);
}

#[test]
fn names_and_indices_of_elements() {
    let prefix: Vec<char> = "A".chars().collect();
    let name = ElfParser::format_array_element_name(&prefix, &vec![2, 10]);
    assert_eq!(name.into_iter().collect::<String>(), "A._2_._10_");
    let same = ElfParser::format_array_element_name(&prefix, &vec![]);
    assert_eq!(same.into_iter().collect::<String>(), "A");
    assert_eq!(ElfParser::flat_to_multi_index(0, &vec![2, 3]), vec![0, 0]);
    assert_eq!(ElfParser::flat_to_multi_index(4, &vec![2, 3]), vec![1, 1]);
    assert_eq!(ElfParser::flat_to_multi_index(5, &vec![2, 3]), vec![1, 2]);
    assert_eq!(ElfParser::flat_to_multi_index(23, &vec![2, 3, 4]), vec![1, 2, 3]);
    assert_eq!(ElfParser::flat_to_multi_index(7, &vec![]), Vec::<usize>::new());
}

#[test]
fn scalar_tags_follow_the_table() {
    let (unsigned, signed, float) =
        (TypeEncoding::Unsigned, TypeEncoding::Signed, TypeEncoding::Float);
    let table = [
        (1, unsigned, "UBYTE"),
        (1, signed, "SBYTE"),
        (2, unsigned, "UWORD"),
        (2, signed, "SWORD"),
        (4, unsigned, "ULONG"),
        (4, signed, "SLONG"),
        (4, float, "FLOAT32_IEEE"),
        (8, unsigned, "A_UINT64"),
        (8, signed, "A_INT64"),
        (8, float, "FLOAT64_IEEE"),
        (3, unsigned, "UBYTE"),
        (16, signed, "UBYTE"),
        (2, float, "UBYTE"),
        (0, unsigned, "UBYTE"),
    ];
    for (size, encoding, tag) in table {
        assert_eq!(infer_a2l_type_from_encoding(size, encoding), tag);
    }
}

#[test]
fn tags_are_guessed_from_type_names() {
    assert_eq!(infer_a2l_type(4, "float"), "FLOAT32_IEEE");
    assert_eq!(infer_a2l_type(8, "Double"), "FLOAT64_IEEE");
    assert_eq!(infer_a2l_type(2, "FLOAT"), "FLOAT64_IEEE");
    assert_eq!(infer_a2l_type(1, "UINT8_T"), "UBYTE");
    assert_eq!(infer_a2l_type(1, "char"), "UBYTE");
    assert_eq!(infer_a2l_type(2, "uint16_t"), "UWORD");
    assert_eq!(infer_a2l_type(2, "wchar_t"), "UBYTE");
    assert_eq!(infer_a2l_type(4, "u32"), "ULONG");
    assert_eq!(infer_a2l_type(8, "uint64_t"), "A_UINT64");
    assert_eq!(infer_a2l_type(1, "i8"), "SBYTE");
    assert_eq!(infer_a2l_type(2, "short"), "SWORD");
    assert_eq!(infer_a2l_type(4, "int"), "SLONG");
    assert_eq!(infer_a2l_type(8, "int64_t"), "SLONG");
    assert_eq!(infer_a2l_type(8, "i64"), "A_INT64");
    assert_eq!(infer_a2l_type(2, "mystery"), "UWORD");
    assert_eq!(infer_a2l_type(3, "mystery"), "UBYTE");
}

#[test]
fn builders_set_what_they_name() {
    let t = TypeInfo::new("n".into(), 2, TypeEncoding::Signed);
    assert_eq!((t.kind, t.size, t.encoding, t.offset), (TypeKind::Primitive, 2, TypeEncoding::Signed, 0));
    assert!(t.members.is_empty() && t.variants.is_empty() && t.array_dims.is_empty());
    assert!(t.pointer_target.is_none());
    let e = TypeInfo::enum_type(
        "E".into(),
        1,
        TypeEncoding::Unsigned,
        vec![EnumVariant::new("A".into(), -1)],
        9,
    );
    assert_eq!((e.kind, e.offset, e.variants[0].value), (TypeKind::Enum, 9, -1));
    assert_eq!(e.variants[0].name, "A");
    let a = TypeInfo::array_type("a".into(), 8, prim("f", 4, TypeEncoding::Float, 1), vec![2], 3);
    assert_eq!((a.kind, a.encoding), (TypeKind::Array, TypeEncoding::Float));
    assert_eq!(a.array_dims, vec![2]);
    let p = TypeInfo::pointer_type("p".into(), 4, prim("f", 4, TypeEncoding::Float, 1), 5);
    assert_eq!((p.kind, p.encoding), (TypeKind::Pointer, TypeEncoding::Unsigned));
    assert_eq!(p.pointer_target.as_ref().unwrap().name, "f");
    let c = p.clone();
    assert_eq!(c.pointer_target.unwrap().size, 4);
    assert_eq!(TypeKind::Typedef.to_string(), "typedef");
    assert_eq!(TypeKind::Struct.to_string(), "struct");
    assert_eq!(TypeEncoding::Float.to_string(), "float");
    assert_eq!(TypeEncoding::default(), TypeEncoding::Unsigned);
    assert_eq!(Endianness::default(), Endianness::Little);
    let entry = A2lEntry::new("n".into(), 1, 2, "UWORD".into(), "t".into())
        .with_bitfield(1, 2)
        .with_array_index(vec![3]);
    assert_eq!((entry.bit_offset, entry.bit_size), (Some(1), Some(2)));
    assert_eq!(entry.array_index, Some(vec![3]));
    let record = CacheEntry::new("h".into(), "p".into(), 1, 2, 3, 4, 5, true);
    assert_eq!((record.file_size, record.modified_time, record.variable_count), (1, 2, 3));
    assert_eq!((record.parse_time_ms, record.created_at, record.has_dwarf), (4, 5, true));
}

#[test]
fn effective_bit_offsets_mirror_for_little_endian() {
    let m = StructMember::new("m".into(), 0, "u32".into(), 4).with_bitfield(3, 5);
    assert_eq!(m.get_effective_bit_offset(Endianness::Big, 32), Some(3));
    assert_eq!(m.get_effective_bit_offset(Endianness::Little, 32), Some(24));
    assert_eq!(m.get_effective_bit_offset(Endianness::Little, 8), Some(0));
    assert_eq!(m.get_effective_bit_offset(Endianness::Little, 7), None);
    let plain = StructMember::new("p".into(), 0, "u32".into(), 4);
    assert!(!plain.is_bitfield());
    assert_eq!(plain.get_effective_bit_offset(Endianness::Little, 32), None);
    assert_eq!(plain.get_effective_bit_offset(Endianness::Big, 32), None);
}

#[test]
fn store_finds_entries_by_name() {
    let mut store = A2lEntryStore::default();
    assert!(store.is_empty());
    store.add(A2lEntry::new("Speed".into(), 1, 1, "UBYTE".into(), "u8".into()));
    store.add(A2lEntry::new("speed_limit".into(), 2, 1, "UBYTE".into(), "u8".into()));
    store.add(A2lEntry::new("Speed".into(), 3, 1, "UBYTE".into(), "u8".into()));
    store.add(A2lEntry::new("torque".into(), 4, 1, "UBYTE".into(), "u8".into()));
    assert_eq!(store.len(), 4);
    assert_eq!(store.get_by_name("Speed").map(|e| e.address), Some(3));
    assert_eq!(store.get_by_name("torque").map(|e| e.address), Some(4));
    assert!(store.get_by_name("speed").is_none());
    let found: Vec<_> = store.search("SPEED").iter().map(|e| e.address).collect();
    assert_eq!(found, vec![1, 2, 3]);
    assert_eq!(store.search("").len(), 4);
    assert!(store.search("absent").is_empty());
    assert_eq!(store.clone().len(), 4);
}

#[test]
fn stops_at_the_guards_are_counted() {
    let repo = unsigned_repo();
    let wide = TypeInfo::array_type(
        "array[2000]".to_string(),
        2000,
        prim("u8", 1, TypeEncoding::Unsigned, 0x10),
        vec![2000],
        0x70,
    );
    let mut with_wide = repo.clone();
    with_wide.insert(0x70, wide.clone());
    let holder = TypeInfo::struct_type(
        "H".to_string(),
        4000,
        vec![member("a", 0, 0x70), member("b", 2000, 0x70), member("c", 0, 0x10)],
        0x71,
    );
    let rows = TypeInfo::array_type("array[3]".to_string(), 12000, holder.clone(), vec![3], 0x72);
    let mut own = TypeInfo::struct_type("S".to_string(), 4, vec![member("m", 0, 0xB0)], 0);
    own.offset = 0;
    with_wide.insert(0xB0, own.clone());
    let vars = vec![
        variable("plain", 0, prim("u8", 1, TypeEncoding::Unsigned, 0x10)),
        variable("wide", 0, wide),
        variable("holder", 0, holder),
        variable("rows", 0, rows),
        variable("deep", 0, own),
        Variable::new("bare".into(), 0, 1, "t".into(), ".data".into()),
    ];
    let one = |v: &Variable| ElfParser::count_all_guard_stops(&vec![v.clone()], &with_wide);
    assert_eq!(one(&vars[0]), GuardCounts { too_deep: 0, too_wide: 0 });
    assert_eq!(one(&vars[1]), GuardCounts { too_deep: 0, too_wide: 1 });
    assert_eq!(one(&vars[2]), GuardCounts { too_deep: 0, too_wide: 2 });
    assert_eq!(one(&vars[3]), GuardCounts { too_deep: 0, too_wide: 6 });
    assert_eq!(one(&vars[4]), GuardCounts { too_deep: 1, too_wide: 0 });
    assert_eq!(one(&vars[5]), GuardCounts { too_deep: 0, too_wide: 0 });
    assert_eq!(
        ElfParser::count_all_guard_stops(&vars, &with_wide),
        GuardCounts { too_deep: 1, too_wide: 9 }
    );
}
