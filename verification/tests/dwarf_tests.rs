use a2l_editor::dwarf::format_array_name;
use a2l_editor::dwarf_raw::{
    read_bitfield, read_dimension, read_encoding, read_enum_value, read_member_location,
    read_name, read_size, read_type_offset,
};
use a2l_editor::infer::{assign_types, infer_type_name};
use a2l_editor::symbols::{comes_before, extract_variables};
use a2l_editor::{
    infer_type_from_name, AttrValue, DwarfParser, ElfParser, RawDie, RawSymbol, RawUnit,
    TypeEncoding, TypeKind, Variable,
};

const BASE: u16 = 0x24;
const STRUCT: u16 = 0x13;
const UNION: u16 = 0x17;
const MEMBER: u16 = 0x0d;
const ENUM: u16 = 0x04;
const ENUMERATOR: u16 = 0x28;
const ARRAY: u16 = 0x01;
const SUBRANGE: u16 = 0x21;
const POINTER: u16 = 0x0f;
const TYPEDEF: u16 = 0x16;
const CONST: u16 = 0x26;
const VOLATILE: u16 = 0x35;
const VARIABLE: u16 = 0x34;
const UNIT: u16 = 0x11;

fn die(offset: usize, depth: isize, tag: u16) -> RawDie {
    RawDie {
        offset,
        depth,
        tag,
        name: None,
        byte_size: None,
        encoding: None,
        member_location: None,
        type_ref: None,
        bit_size: None,
        bit_offset: None,
        const_value: None,
        upper_bound: None,
        count: None,
    }
}

fn named(mut d: RawDie, name: &str) -> RawDie {
    d.name = Some(AttrValue::Text(name.as_bytes().to_vec()));
    d
}

fn sized(mut d: RawDie, size: u8) -> RawDie {
    d.byte_size = Some(AttrValue::Data1(size));
    d
}

fn typed(mut d: RawDie, unit_ref: usize) -> RawDie {
    d.type_ref = Some(AttrValue::UnitRef(unit_ref));
    d
}

fn at(mut d: RawDie, location: u64) -> RawDie {
    d.member_location = Some(AttrValue::Udata(location));
    d
}

fn base(offset: usize, name: &str, size: u8, encoding: u8) -> RawDie {
    let mut d = sized(named(die(offset, 1, BASE), name), size);
    d.encoding = Some(AttrValue::Encoding(encoding));
    d
}

/// One unit at section offset 0x100 with a little of everything.
fn sample_unit() -> RawUnit {
    let mut r = typed(sized(at(named(die(0x50, 2, MEMBER), "r"), 4), 4), 0x20);
    r.bit_size = Some(AttrValue::Data1(3));
    r.bit_offset = Some(AttrValue::Data1(29));
    let mut lo = named(die(0x74, 2, ENUMERATOR), "LO");
    lo.const_value = Some(AttrValue::Sdata(-1));
    let mut hi = named(die(0x78, 2, ENUMERATOR), "HI");
    hi.const_value = Some(AttrValue::Data1(200));
    let mut rows = die(0x84, 2, SUBRANGE);
    rows.upper_bound = Some(AttrValue::Data1(1));
    let mut cols = die(0x88, 2, SUBRANGE);
    cols.count = Some(AttrValue::Udata(3));
    let mut nested_member = typed(at(named(die(0x58, 3, MEMBER), "deep"), 0), 0x10);
    nested_member.depth = 3;
    RawUnit {
        offset: 0x100,
        dies: vec![
            die(0x0b, 0, UNIT),
            base(0x10, "unsigned char", 1, 0x08),
            base(0x18, "short", 2, 0x05),
            base(0x20, "unsigned int", 4, 0x07),
            base(0x28, "float", 4, 0x04),
            die(0x2c, 1, BASE),
            sized(named(die(0x30, 1, STRUCT), "cfg_t"), 8),
            typed(at(named(die(0x38, 2, MEMBER), "a"), 0), 0x10),
            typed(at(named(die(0x40, 2, MEMBER), "b"), 2), 0xa0),
            typed(at(die(0x48, 2, MEMBER), 6), 0x10),
            r,
            sized(die(0x54, 2, STRUCT), 1),
            nested_member,
            sized(die(0x60, 1, UNION), 4),
            typed(at(named(die(0x64, 2, MEMBER), "w"), 9), 0x20),
            sized(named(die(0x70, 1, ENUM), "level"), 1),
            lo,
            hi,
            typed(sized(die(0x80, 1, ARRAY), 12), 0xa0),
            rows,
            cols,
            typed(sized(die(0x90, 1, POINTER), 4), 0x30),
            typed(named(die(0xa0, 1, TYPEDEF), "i16"), 0x18),
            typed(die(0xa8, 1, CONST), 0xa0),
            typed(named(die(0xac, 1, VOLATILE), "vol"), 0xa8),
            die(0xae, 1, TYPEDEF),
            typed(named(die(0xb0, 1, VARIABLE), "cfg"), 0x30),
            typed(named(die(0xb8, 1, VARIABLE), "M"), 0x80),
            named(die(0xbc, 1, VARIABLE), "untyped"),
            typed(named(die(0xc0, 1, VARIABLE), "ghost"), 0xf00),
        ],
    }
}

#[test]
fn attributes_are_read_by_their_form() {
    let mut d = die(0, 0, BASE);
    assert_eq!(read_name(&d), None);
    assert_eq!(read_size(&d), 0);
    assert_eq!(read_encoding(&d), TypeEncoding::Unsigned);
    assert_eq!(read_member_location(&d), 0);
    assert_eq!(read_type_offset(&d, 0x100), 0);
    assert_eq!(read_bitfield(&d), None);
    assert_eq!(read_enum_value(&d), None);
    assert_eq!(read_dimension(&d), None);

    d.name = Some(AttrValue::Text(vec![b'a', 0xff, b'b']));
    let name: String = read_name(&d).unwrap().into_iter().collect();
    assert_eq!(name, "a\u{fffd}b");
    d.name = Some(AttrValue::Udata(1));
    assert_eq!(read_name(&d), None);

    for (value, size) in [
        (AttrValue::Udata(7), 7),
        (AttrValue::Data1(1), 1),
        (AttrValue::Data2(300), 300),
        (AttrValue::Data4(70000), 70000),
        (AttrValue::Data8(9), 9),
        (AttrValue::Sdata(4), 0),
        (AttrValue::Other, 0),
    ] {
        d.byte_size = Some(value);
        assert_eq!(read_size(&d), size);
    }
    for (code, encoding) in [
        (0x04, TypeEncoding::Float),
        (0x05, TypeEncoding::Signed),
        (0x06, TypeEncoding::Signed),
        (0x07, TypeEncoding::Unsigned),
        (0x08, TypeEncoding::Unsigned),
        (0x02, TypeEncoding::Unsigned),
    ] {
        d.encoding = Some(AttrValue::Encoding(code));
        assert_eq!(read_encoding(&d), encoding);
    }
    d.member_location = Some(AttrValue::Sdata(12));
    assert_eq!(read_member_location(&d), 12);
    d.member_location = Some(AttrValue::Block(vec![0x23, 8]));
    assert_eq!(read_member_location(&d), 8);
    d.member_location = Some(AttrValue::Exprloc(vec![0x23, 16, 0]));
    assert_eq!(read_member_location(&d), 16);
    d.member_location = Some(AttrValue::Exprloc(vec![0x10, 16]));
    assert_eq!(read_member_location(&d), 0);
    d.member_location = Some(AttrValue::Block(vec![0x23]));
    assert_eq!(read_member_location(&d), 0);

    d.type_ref = Some(AttrValue::UnitRef(0x20));
    assert_eq!(read_type_offset(&d, 0x100), 0x120);
    d.type_ref = Some(AttrValue::UnitRef(0));
    assert_eq!(read_type_offset(&d, 0x100), 0);
    d.type_ref = Some(AttrValue::DebugInfoRef(0x20));
    assert_eq!(read_type_offset(&d, 0x100), 0x20);
    d.type_ref = Some(AttrValue::Udata(0x20));
    assert_eq!(read_type_offset(&d, 0x100), 0);

    d.bit_size = Some(AttrValue::Data1(5));
    assert_eq!(read_bitfield(&d), Some((0, 5)));
    d.bit_offset = Some(AttrValue::Udata(3));
    assert_eq!(read_bitfield(&d), Some((3, 5)));
    d.bit_size = None;
    assert_eq!(read_bitfield(&d), None);

    for (value, expected) in [
        (AttrValue::Sdata(-5), Some(-5)),
        (AttrValue::Udata(u64::MAX), Some(-1)),
        (AttrValue::Data1(255), Some(255)),
        (AttrValue::Data2(65535), Some(65535)),
        (AttrValue::Data4(u32::MAX), Some(4294967295)),
        (AttrValue::Data8(1 << 63), Some(i64::MIN)),
        (AttrValue::Text(vec![]), None),
    ] {
        d.const_value = Some(value);
        assert_eq!(read_enum_value(&d), expected);
    }
    d.upper_bound = Some(AttrValue::Data1(9));
    assert_eq!(read_dimension(&d), Some(10));
    d.upper_bound = Some(AttrValue::Sdata(-1));
    assert_eq!(read_dimension(&d), Some(0));
    d.upper_bound = None;
    d.count = Some(AttrValue::Data2(4));
    assert_eq!(read_dimension(&d), Some(4));
}

#[test]
fn entries_become_descriptors_under_their_section_offset() {
    let parser = DwarfParser::from_units(&vec![sample_unit()]);
    assert_eq!(parser.get_stats(), (4, 2, 1, 1, 1, 1, 1, 4, 6, 2));
    assert_eq!(parser.type_count(), 13);
    assert_eq!(parser.get_type_cache_size(), 13);
    assert_eq!(parser.type_cache().len(), 13);
    assert!(parser.has_dwarf_info());
    assert_eq!(parser.get_variable_count(), 3);

    let u8_t = parser.get_type_by_offset(0x110).unwrap();
    assert_eq!((u8_t.name.as_str(), u8_t.size, u8_t.kind), ("unsigned char", 1, TypeKind::Primitive));
    assert_eq!((u8_t.encoding, u8_t.offset), (TypeEncoding::Unsigned, 0x110));
    assert_eq!(parser.get_type_by_offset(0x118).unwrap().encoding, TypeEncoding::Signed);
    assert_eq!(parser.get_type_by_offset(0x128).unwrap().encoding, TypeEncoding::Float);
    assert!(parser.get_type_by_offset(0x12c).is_none());
    assert!(parser.get_type_by_offset(0x10).is_none());

    let cfg = parser.find_struct_by_name("cfg_t").unwrap();
    assert_eq!((cfg.kind, cfg.size, cfg.offset), (TypeKind::Struct, 8, 0x130));
    let members: Vec<_> = cfg
        .members
        .iter()
        .map(|m| (m.name.as_str(), m.offset, m.ty_name.as_str(), m.type_size, m.type_offset))
        .collect();
    assert_eq!(
        members,
        vec![
            ("a", 0, "unsigned char", 1, Some(0x110)),
            ("b", 2, "i16", 0, Some(0x1a0)),
            ("r", 4, "unsigned int", 4, Some(0x120)),
        ]
    );
    assert_eq!((cfg.members[2].bit_offset, cfg.members[2].bit_size), (Some(29), Some(3)));
    assert_eq!(cfg.members[0].bit_size, None);

    let inner = parser.get_type_by_offset(0x154).unwrap();
    assert_eq!(inner.name, "<anon@0x154>");
    assert_eq!(inner.members.len(), 1);
    assert_eq!(inner.members[0].name, "deep");
    let union = parser.get_type_by_offset(0x160).unwrap();
    assert_eq!((union.name.as_str(), union.kind), ("<anon_union@0x160>", TypeKind::Union));
    assert_eq!(union.members[0].offset, 0);

    let level = parser.get_type_by_offset(0x170).unwrap();
    assert_eq!(level.kind, TypeKind::Enum);
    let variants: Vec<_> = level.variants.iter().map(|v| (v.name.as_str(), v.value)).collect();
    assert_eq!(variants, vec![("LO", -1), ("HI", 200)]);

    let pointer = parser.get_type_by_offset(0x190).unwrap();
    assert_eq!((pointer.name.as_str(), pointer.kind, pointer.size), ("pointer", TypeKind::Pointer, 4));
    let target = pointer.pointer_target.as_ref().unwrap();
    assert_eq!((target.name.as_str(), target.offset), ("void", 0x130));
}

#[test]
fn references_are_resolved_in_three_stages() {
    let parser = DwarfParser::from_units(&vec![sample_unit()]);
    // The typedef takes over what it stands for and keeps name and offset.
    let alias = parser.get_type_by_offset(0x1a0).unwrap();
    assert_eq!((alias.name.as_str(), alias.offset), ("i16", 0x1a0));
    assert_eq!((alias.size, alias.encoding, alias.kind), (2, TypeEncoding::Signed, TypeKind::Primitive));
    let constant = parser.get_type_by_offset(0x1a8).unwrap();
    assert_eq!((constant.name.as_str(), constant.size), ("const", 2));
    // Followed once, in order: the volatile took what the const held then.
    let volatile = parser.get_type_by_offset(0x1ac).unwrap();
    assert_eq!((volatile.name.as_str(), volatile.size), ("vol", 2));
    // The array gets the collapsed typedef as element, and its encoding.
    let array = parser.get_type_by_offset(0x180).unwrap();
    assert_eq!(array.name, "array[2][3]");
    assert_eq!(array.array_dims, vec![2, 3]);
    assert_eq!((array.kind, array.size, array.encoding), (TypeKind::Array, 12, TypeEncoding::Signed));
    let element = array.pointer_target.as_ref().unwrap();
    assert_eq!((element.name.as_str(), element.size), ("i16", 2));
}

#[test]
fn a_typedef_before_its_target_is_followed_when_the_target_stands() {
    let unit = RawUnit {
        offset: 0,
        dies: vec![
            typed(named(die(0x10, 1, TYPEDEF), "outer"), 0x20),
            typed(named(die(0x20, 1, TYPEDEF), "inner"), 0x30),
            base(0x30, "int", 4, 0x05),
            typed(die(0x40, 1, ARRAY), 0x999),
        ],
    };
    let parser = DwarfParser::from_units(&vec![unit]);
    let outer = parser.get_type_by_offset(0x10).unwrap();
    assert_eq!((outer.size, outer.kind), (0, TypeKind::Typedef));
    let inner = parser.get_type_by_offset(0x20).unwrap();
    assert_eq!((inner.size, inner.kind), (4, TypeKind::Primitive));
    let array = parser.get_type_by_offset(0x40).unwrap();
    assert_eq!(array.name, "array");
    assert_eq!(array.pointer_target.as_ref().unwrap().name, "unknown");
    assert!(!parser.has_dwarf_info());
}

#[test]
fn parser_answers_questions_about_what_it_holds() {
    let parser = DwarfParser::from_units(&vec![sample_unit()]);
    let order: Vec<u64> = parser.all_types().iter().map(|t| t.offset).collect();
    assert_eq!(
        order,
        vec![0x110, 0x118, 0x120, 0x128, 0x130, 0x154, 0x160, 0x170, 0x180, 0x190, 0x1a0, 0x1a8, 0x1ac]
    );
    let names: Vec<_> = parser.list_structs().iter().map(|t| t.name.clone()).collect();
    assert_eq!(names, vec!["cfg_t"]);
    assert!(parser.find_struct_by_name("absent").is_none());
    assert_eq!(
        parser.list_variables_with_types(),
        vec![
            ("cfg".to_string(), "cfg_t".to_string()),
            ("M".to_string(), "array[2][3]".to_string()),
            ("ghost".to_string(), "unknown (offset: 0x1000)".to_string()),
        ]
    );
    let instances: Vec<_> = parser
        .list_struct_instance_variables()
        .iter()
        .map(|(n, t)| (n.clone(), t.offset))
        .collect();
    assert_eq!(instances, vec![("cfg".to_string(), 0x130)]);
    assert_eq!(parser.debug_type_resolution(), (3, 2, 1));
    let exact: Vec<_> = parser
        .find_structs_containing_member("A")
        .iter()
        .map(|(t, m)| (t.name.clone(), m.name.clone()))
        .collect();
    assert_eq!(exact, vec![("cfg_t".to_string(), "a".to_string())]);
    assert!(parser.find_structs_containing_member("zz").is_empty());
    let empty = DwarfParser::new();
    assert_eq!(empty.get_stats(), (0, 0, 0, 0, 0, 0, 0, 0, 0, 0));
    assert_eq!(empty.debug_type_resolution(), (0, 0, 0));
    assert!(!empty.has_dwarf_info());
    assert!(empty.all_types().is_empty());
}

#[test]
fn later_names_replace_earlier_ones() {
    let unit = RawUnit {
        offset: 0,
        dies: vec![
            sized(named(die(0x10, 1, STRUCT), "s"), 1),
            sized(named(die(0x20, 1, STRUCT), "s"), 2),
            typed(named(die(0x30, 1, VARIABLE), "v"), 0x10),
            typed(named(die(0x40, 1, VARIABLE), "v"), 0x20),
        ],
    };
    let parser = DwarfParser::from_units(&vec![unit]);
    assert_eq!(parser.find_struct_by_name("s").unwrap().size, 2);
    assert_eq!(parser.list_structs().len(), 1);
    assert_eq!(parser.list_variables_with_types(), vec![("v".to_string(), "s".to_string())]);
}

#[test]
fn units_are_taken_in_at_their_own_offsets() {
    let first = RawUnit { offset: 0, dies: vec![base(0x10, "a", 1, 0x08)] };
    let second = RawUnit {
        offset: 0x200,
        dies: vec![
            base(0x10, "b", 2, 0x05),
            {
                let mut d = named(die(0x20, 1, TYPEDEF), "far");
                d.type_ref = Some(AttrValue::DebugInfoRef(0x10));
                d
            },
        ],
    };
    let parser = DwarfParser::from_units(&vec![first, second]);
    assert_eq!(parser.get_type_by_offset(0x10).unwrap().name, "a");
    assert_eq!(parser.get_type_by_offset(0x210).unwrap().name, "b");
    assert_eq!(parser.get_type_by_offset(0x220).unwrap().size, 1);
    assert_eq!(parser.type_count(), 3);
}

#[test]
fn array_names_list_their_dimensions() {
    assert_eq!(format_array_name(&vec![]), "array");
    assert_eq!(format_array_name(&vec![7]), "array[7]");
    assert_eq!(format_array_name(&vec![2, 3, 10]), "array[2][3][10]");
}

#[test]
fn types_are_guessed_from_variable_names() {
    let cases = [
        ("speed_u8", 1, "uint8_t", TypeEncoding::Unsigned),
        ("Speed_UINT16_raw", 2, "uint16_t", TypeEncoding::Unsigned),
        ("x_u32", 4, "uint32_t", TypeEncoding::Unsigned),
        ("myuint64_t", 8, "uint64_t", TypeEncoding::Unsigned),
        ("t_s8", 1, "int8_t", TypeEncoding::Signed),
        ("t_int16", 2, "int16_t", TypeEncoding::Signed),
        ("count_i", 4, "int32_t", TypeEncoding::Signed),
        ("t_int64", 8, "int32_t", TypeEncoding::Signed),
        ("t_s64", 8, "int64_t", TypeEncoding::Signed),
        ("gain_f32", 4, "float", TypeEncoding::Float),
        ("gain_double", 8, "double", TypeEncoding::Float),
        ("is_ready_b", 1, "bool", TypeEncoding::Unsigned),
        ("BOOLEAN_flag", 1, "bool", TypeEncoding::Unsigned),
        ("plain", 1, "uint8_t", TypeEncoding::Unsigned),
        ("plain", 2, "uint16_t", TypeEncoding::Unsigned),
        ("plain", 4, "uint32_t", TypeEncoding::Unsigned),
        ("plain", 8, "uint64_t", TypeEncoding::Unsigned),
        ("plain", 12, "uint8_t[12]", TypeEncoding::Unsigned),
    ];
    for (name, size, label, encoding) in cases {
        let t = infer_type_from_name(name, size);
        assert_eq!((t.name.as_str(), t.size, t.encoding), (label, size, encoding), "{}", name);
        assert_eq!((t.kind, t.offset), (TypeKind::Primitive, 0));
    }
    assert_eq!(infer_type_name(3), "uint8_t[3]");
}

fn symbol(name: &str, address: u64, size: u64, section: &str) -> RawSymbol {
    RawSymbol { name: Some(name.to_string()), address, size, section: section.to_string() }
}

#[test]
fn symbols_become_variables_in_name_order() {
    let symbols = vec![
        symbol("zeta", 0x30, 4, ".data"),
        symbol("alpha", 0x10, 2, ".bss"),
        symbol("", 0x11, 2, ".bss"),
        symbol(".hidden", 0x12, 2, ".bss"),
        symbol("empty", 0x13, 0, ".bss"),
        symbol("nothing", 0, 0, ".bss"),
        symbol("code", 0x14, 4, "text"),
        symbol("ro", 0x15, 1, "my_rodata_part"),
        symbol("odd", 0x16, 3, ".text"),
        symbol("alpha", 0x99, 8, ".data"),
        RawSymbol { name: None, address: 1, size: 1, section: ".data".into() },
        symbol("Beta", 0x20, 8, "bss"),
        symbol("alphabet", 0, 1, ".data"),
        symbol("nosection", 0x40, 1, ""),
    ];
    let vars = extract_variables(&symbols);
    let rows: Vec<_> = vars
        .iter()
        .map(|v| (v.name.as_str(), v.address, v.size, v.ty_name.as_str(), v.section.as_str()))
        .collect();
    assert_eq!(
        rows,
        vec![
            ("Beta", 0x20, 8, "uint64_t", "bss"),
            ("alpha", 0x10, 2, "uint16_t", ".bss"),
            ("alphabet", 0, 1, "uint8_t", ".data"),
            ("odd", 0x16, 3, "uint8_t[3]", ".text"),
            ("ro", 0x15, 1, "uint8_t", "my_rodata_part"),
            ("zeta", 0x30, 4, "uint32_t", ".data"),
        ]
    );
    assert!(vars.iter().all(|v| v.type_info.is_none()));
    let mut sorted: Vec<String> = vars.iter().map(|v| v.name.clone()).collect();
    sorted.sort();
    assert_eq!(sorted, vars.iter().map(|v| v.name.clone()).collect::<Vec<_>>());
    assert!(extract_variables(&vec![]).is_empty());
}

#[test]
fn names_are_ordered_like_strings() {
    let words = ["", "a", "A", "ab", "b", "aa", "é", "z", "a_b", "a.b", "日本", "~"];
    for a in words {
        for b in words {
            let x: Vec<char> = a.chars().collect();
            let y: Vec<char> = b.chars().collect();
            assert_eq!(comes_before(&x, &y), a < b, "{:?} {:?}", a, b);
        }
    }
}

#[test]
fn variables_get_their_type_from_the_parser_or_their_name() {
    let parser = DwarfParser::from_units(&vec![sample_unit()]);
    let mut vars = vec![
        Variable::new("cfg".into(), 0x2000_0100, 8, "uint64_t".into(), ".data".into()),
        Variable::new("ghost".into(), 0x10, 2, "uint16_t".into(), ".data".into()),
        Variable::new("gain_f32".into(), 0x20, 4, "uint32_t".into(), ".data".into()),
    ];
    assign_types(&mut vars, &parser);
    assert_eq!(vars[0].type_info.as_ref().unwrap().name, "cfg_t");
    assert_eq!(vars[0].type_info.as_ref().unwrap().kind, TypeKind::Struct);
    assert_eq!(vars[1].type_info.as_ref().unwrap().name, "uint16_t");
    assert_eq!(vars[2].type_info.as_ref().unwrap().encoding, TypeEncoding::Float);
    assert_eq!(vars[0].address, 0x2000_0100);
}

#[test]
fn sessions_hold_variables_types_and_the_catalogue() {
    let symbols = vec![
        symbol("cfg", 0x2000_0100, 8, ".data"),
        symbol("M", 0x2000_0300, 12, ".bss"),
        symbol("lone_u8", 0x2000_0400, 1, ".data"),
    ];
    let shallow = ElfParser::shallow(&symbols, 4096);
    assert_eq!(shallow.variable_count(), 3);
    assert_eq!(shallow.file_size(), 4096);
    assert!(!shallow.has_dwarf());
    assert!(shallow.dwarf_stats().is_none());
    assert!(shallow.a2l_entries().is_none());
    assert_eq!(shallow.a2l_entry_count(), 0);
    assert_eq!((shallow.guard_counts().too_deep, shallow.guard_counts().too_wide), (0, 0));
    let names: Vec<_> = shallow.variables().iter().map(|v| v.name.as_str()).collect();
    assert_eq!(names, vec!["M", "cfg", "lone_u8"]);
    assert_eq!(shallow.get_by_name("cfg").map(|v| v.address), Some(0x2000_0100));
    assert!(shallow.get_by_name("CFG").is_none());
    let found: Vec<_> = shallow.search("U8").iter().map(|v| v.name.as_str()).collect();
    assert_eq!(found, vec!["lone_u8"]);

    let parser = DwarfParser::from_units(&vec![sample_unit()]);
    let mut deep = ElfParser::deep(&symbols, 4096, parser);
    assert!(deep.has_dwarf());
    let stats = deep.dwarf_stats().unwrap();
    assert_eq!((stats.base_types, stats.structs, stats.struct_members), (4, 2, 6));
    let entries = &deep.a2l_entries().unwrap().entries;
    let names: Vec<_> = entries.iter().map(|e| e.full_name.as_str()).collect();
    assert_eq!(
        names,
        vec![
            "M", "M._0_._0_", "M._0_._1_", "M._0_._2_", "M._1_._0_", "M._1_._1_", "M._1_._2_",
            "cfg", "cfg.a", "cfg.b", "cfg.r", "lone_u8",
        ]
    );
    assert_eq!(deep.a2l_entry_count(), 12);
    assert_eq!((deep.guard_counts().too_deep, deep.guard_counts().too_wide), (0, 0));
    let m12 = &entries[6];
    assert_eq!((m12.address, m12.size, m12.a2l_type.as_str()), (0x2000_030A, 2, "SWORD"));
    let r = &entries[10];
    assert_eq!((r.address, r.size, r.bit_offset, r.bit_size), (0x2000_0104, 4, Some(29), Some(3)));
    let b = &entries[9];
    assert_eq!((b.address, b.size, b.a2l_type.as_str()), (0x2000_0102, 2, "SWORD"));
    for e in entries.iter().take(7) {
        assert!(e.address >= 0x2000_0300 && e.address + e.size as u64 <= 0x2000_0300 + 12);
    }
    deep.set_a2l_entries(a2l_editor::A2lEntryStore::new());
    assert_eq!(deep.a2l_entry_count(), 0);
}
