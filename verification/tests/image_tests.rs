use a2l_editor::{
    analyze_variables_with_dwarf, DwarfParser, ElfParser, ParseError, TypeEncoding, TypeKind,
    Variable,
};

fn put16(out: &mut Vec<u8>, v: u16) {
    out.extend_from_slice(&v.to_le_bytes());
}

fn put32(out: &mut Vec<u8>, v: u32) {
    out.extend_from_slice(&v.to_le_bytes());
}

fn put64(out: &mut Vec<u8>, v: u64) {
    out.extend_from_slice(&v.to_le_bytes());
}

fn cstr(out: &mut Vec<u8>, s: &str) {
    out.extend_from_slice(s.as_bytes());
    out.push(0);
}

/// `.debug_abbrev` for the unit below.
fn abbreviations() -> Vec<u8> {
    vec![
        1, 0x11, 1, 0x03, 0x08, 0, 0, // compile unit, children: name
        2, 0x24, 0, 0x03, 0x08, 0x0b, 0x0b, 0x3e, 0x0b, 0, 0, // base type: name, size, encoding
        3, 0x13, 1, 0x03, 0x08, 0x0b, 0x0b, 0, 0, // struct, children: name, size
        4, 0x0d, 0, 0x03, 0x08, 0x49, 0x13, 0x38, 0x0b, 0, 0, // member: name, type, location
        5, 0x34, 0, 0x03, 0x08, 0x49, 0x13, 0, 0, // variable: name, type
        6, 0x01, 1, 0x49, 0x13, 0x0b, 0x0b, 0, 0, // array, children: type, size
        7, 0x21, 0, 0x2f, 0x0b, 0, 0, // subrange: upper bound
        8, 0x16, 0, 0x03, 0x08, 0x49, 0x13, 0, 0, // typedef: name, type
        0,
    ]
}

/// `.debug_info` with one unit; returns the bytes and the unit-relative
/// offsets of the u8, u16, struct, array and typedef entries.
fn information() -> (Vec<u8>, [u32; 5]) {
    let mut body: Vec<u8> = Vec::new();
    put16(&mut body, 4); // version
    put32(&mut body, 0); // abbreviations at 0
    body.push(4); // address size
    let at = |body: &Vec<u8>| (body.len() + 4) as u32;
    body.push(1);
    cstr(&mut body, "unit.c");
    let u8_at = at(&body);
    body.push(2);
    cstr(&mut body, "unsigned char");
    body.extend_from_slice(&[1, 0x08]);
    let u16_at = at(&body);
    body.push(2);
    cstr(&mut body, "short");
    body.extend_from_slice(&[2, 0x05]);
    let struct_at = at(&body);
    body.push(3);
    cstr(&mut body, "cfg_t");
    body.push(8);
    body.push(4);
    cstr(&mut body, "a");
    put32(&mut body, u8_at);
    body.push(0);
    body.push(4);
    cstr(&mut body, "b");
    put32(&mut body, u16_at);
    body.push(2);
    body.push(0); // end of the members
    let typedef_at = at(&body);
    body.push(8);
    cstr(&mut body, "i16");
    put32(&mut body, u16_at);
    let array_at = at(&body);
    body.push(6);
    put32(&mut body, typedef_at);
    body.push(12);
    body.extend_from_slice(&[7, 1, 7, 2]);
    body.push(0); // end of the dimensions
    body.push(5);
    cstr(&mut body, "cfg");
    put32(&mut body, struct_at);
    body.push(5);
    cstr(&mut body, "M");
    put32(&mut body, array_at);
    body.push(0); // end of the unit
    let mut info = Vec::new();
    put32(&mut info, body.len() as u32);
    info.extend_from_slice(&body);
    (info, [u8_at, u16_at, struct_at, array_at, typedef_at])
}

/// A little-endian 64-bit image with a `.data` section, three symbols and,
/// if asked for, debugging information.
fn image(with_debug: bool) -> Vec<u8> {
    if with_debug {
        image_with(Some((information().0, abbreviations())))
    } else {
        image_with(None)
    }
}

/// A unit without entries whose abbreviations lie beyond the end of
/// `.debug_abbrev`.
fn unit_without_abbreviations() -> Vec<u8> {
    let mut unit = Vec::new();
    put32(&mut unit, 7);
    put16(&mut unit, 4);
    put32(&mut unit, 0xffff);
    unit.push(4);
    unit
}

/// The image with the sections `.debug_info` and `.debug_abbrev` given, or
/// without debugging information.
fn image_with(debug: Option<(Vec<u8>, Vec<u8>)>) -> Vec<u8> {
    let with_debug = debug.is_some();
    let (info, abbrev) = debug.unwrap_or_default();
    let mut names = vec![0u8];
    let mut name_at = Vec::new();
    for n in [".data", ".debug_abbrev", ".debug_info", ".symtab", ".strtab", ".shstrtab"] {
        name_at.push(names.len() as u32);
        cstr(&mut names, n);
    }
    let mut strings = vec![0u8];
    let mut symbols = vec![0u8; 24];
    for (name, bind, shndx, value, size) in [
        ("local_u8", 0x01u8, 1u16, 0x2000_0400u64, 1u64),
        ("cfg", 0x11, 1, 0x2000_0100, 8),
        ("M", 0x11, 1, 0x2000_0300, 12),
        ("extern_fn", 0x12, 0, 0, 0),
    ] {
        put32(&mut symbols, strings.len() as u32);
        cstr(&mut strings, name);
        symbols.push(bind);
        symbols.push(0);
        put16(&mut symbols, shndx);
        put64(&mut symbols, value);
        put64(&mut symbols, size);
    }
    let data = vec![0u8; 16];
    let debug_type = if with_debug { 1u32 } else { 8 };
    let debug_names = if with_debug { [name_at[1], name_at[2]] } else { [0, 0] };
    let parts: Vec<(u32, u32, u64, Vec<u8>, u32, u32, u64)> = vec![
        (name_at[0], 1, 3, data, 0, 0, 0),
        (debug_names[0], debug_type, 0, if with_debug { abbrev } else { vec![] }, 0, 0, 0),
        (debug_names[1], debug_type, 0, if with_debug { info } else { vec![] }, 0, 0, 0),
        (name_at[3], 2, 0, symbols, 5, 2, 24),
        (name_at[4], 3, 0, strings, 0, 0, 0),
        (name_at[5], 3, 0, names, 0, 0, 0),
    ];
    let mut out = vec![0x7f, b'E', b'L', b'F', 2, 1, 1, 0, 0, 0, 0, 0, 0, 0, 0, 0];
    put16(&mut out, 2);
    put16(&mut out, 0x3e);
    put32(&mut out, 1);
    put64(&mut out, 0);
    put64(&mut out, 0);
    let shoff_at = out.len();
    put64(&mut out, 0);
    put32(&mut out, 0);
    put16(&mut out, 64);
    put16(&mut out, 0);
    put16(&mut out, 0);
    put16(&mut out, 64);
    put16(&mut out, 7);
    put16(&mut out, 6);
    let mut placed = Vec::new();
    for (_, sh_type, _, bytes, _, _, _) in &parts {
        while out.len() % 8 != 0 {
            out.push(0);
        }
        placed.push(out.len() as u64);
        if *sh_type != 8 {
            out.extend_from_slice(bytes);
        }
    }
    while out.len() % 8 != 0 {
        out.push(0);
    }
    let shoff = out.len() as u64;
    out[shoff_at..shoff_at + 8].copy_from_slice(&shoff.to_le_bytes());
    out.extend_from_slice(&[0u8; 64]);
    for ((name, sh_type, flags, bytes, link, info, entsize), offset) in parts.iter().zip(placed) {
        put32(&mut out, *name);
        put32(&mut out, *sh_type);
        put64(&mut out, *flags);
        put64(&mut out, if *flags != 0 { 0x2000_0000 } else { 0 });
        put64(&mut out, offset);
        put64(&mut out, bytes.len() as u64);
        put32(&mut out, *link);
        put32(&mut out, *info);
        put64(&mut out, 1);
        put64(&mut out, *entsize);
    }
    out
}

#[test]
fn what_is_no_image_is_refused() {
    assert!(matches!(ElfParser::parse(b"not an image at all"), Err(ParseError::InvalidImage)));
    assert!(matches!(ElfParser::parse_deep(&[]), Err(ParseError::InvalidImage)));
    assert!(matches!(DwarfParser::parse(&[0x7f, b'E', b'L', b'F']), Err(ParseError::InvalidImage)));
    let mut vars = vec![Variable::new("v".into(), 1, 1, "t".into(), ".data".into())];
    assert_eq!(analyze_variables_with_dwarf(&mut vars, b"junk"), Err(ParseError::InvalidImage));
    assert!(vars[0].type_info.is_none());
    assert!(!ParseError::InvalidImage.to_string().is_empty());
}

#[test]
fn symbols_of_an_image_become_its_variables() {
    let bytes = image(true);
    let session = ElfParser::parse(&bytes).unwrap();
    let rows: Vec<_> = session
        .variables()
        .iter()
        .map(|v| (v.name.as_str(), v.address, v.size, v.ty_name.as_str(), v.section.as_str()))
        .collect();
    assert_eq!(
        rows,
        vec![
            ("M", 0x2000_0300, 12, "uint8_t[12]", ".data"),
            ("cfg", 0x2000_0100, 8, "uint64_t", ".data"),
            ("local_u8", 0x2000_0400, 1, "uint8_t", ".data"),
        ]
    );
    assert_eq!(session.file_size(), bytes.len() as u64);
    assert!(!session.has_dwarf());
    assert!(session.a2l_entries().is_none());
    assert!(session.variables().iter().all(|v| v.type_info.is_none()));
}

#[test]
fn debugging_information_of_an_image_becomes_its_repository() {
    let (_, [u8_at, u16_at, struct_at, array_at, typedef_at]) = information();
    let parser = DwarfParser::parse(&image(true)).unwrap();
    assert!(parser.has_dwarf_info());
    assert_eq!(parser.get_stats(), (2, 1, 0, 0, 1, 0, 1, 2, 2, 0));
    let byte = parser.get_type_by_offset(u8_at as u64).unwrap();
    assert_eq!((byte.name.as_str(), byte.size, byte.encoding), ("unsigned char", 1, TypeEncoding::Unsigned));
    let short = parser.get_type_by_offset(u16_at as u64).unwrap();
    assert_eq!((short.name.as_str(), short.size, short.encoding), ("short", 2, TypeEncoding::Signed));
    let cfg = parser.get_type_by_offset(struct_at as u64).unwrap();
    assert_eq!((cfg.name.as_str(), cfg.size, cfg.kind), ("cfg_t", 8, TypeKind::Struct));
    let members: Vec<_> = cfg
        .members
        .iter()
        .map(|m| (m.name.as_str(), m.offset, m.ty_name.as_str(), m.type_size, m.type_offset))
        .collect();
    assert_eq!(
        members,
        vec![
            ("a", 0, "unsigned char", 1, Some(u8_at as u64)),
            ("b", 2, "short", 2, Some(u16_at as u64)),
        ]
    );
    let alias = parser.get_type_by_offset(typedef_at as u64).unwrap();
    assert_eq!((alias.name.as_str(), alias.size, alias.encoding), ("i16", 2, TypeEncoding::Signed));
    let array = parser.get_type_by_offset(array_at as u64).unwrap();
    assert_eq!(array.array_dims, vec![2, 3]);
    assert_eq!(array.pointer_target.as_ref().unwrap().name, "i16");
    assert_eq!(
        parser.list_variables_with_types(),
        vec![("cfg".to_string(), "cfg_t".to_string()), ("M".to_string(), "array[2][3]".to_string())]
    );
}

#[test]
fn a_deep_parse_gives_the_catalogue() {
    let session = ElfParser::parse_deep(&image(true)).unwrap();
    assert!(session.has_dwarf());
    assert_eq!(session.dwarf_stats().unwrap().structs, 1);
    let rows: Vec<_> = session
        .a2l_entries()
        .unwrap()
        .entries
        .iter()
        .map(|e| (e.full_name.clone(), e.address, e.size, e.a2l_type.clone()))
        .collect();
    let expected = [
        ("M", 0x2000_0300u64, 12usize, "UBYTE"),
        ("M._0_._0_", 0x2000_0300, 2, "SWORD"),
        ("M._0_._1_", 0x2000_0302, 2, "SWORD"),
        ("M._0_._2_", 0x2000_0304, 2, "SWORD"),
        ("M._1_._0_", 0x2000_0306, 2, "SWORD"),
        ("M._1_._1_", 0x2000_0308, 2, "SWORD"),
        ("M._1_._2_", 0x2000_030A, 2, "SWORD"),
        ("cfg", 0x2000_0100, 8, "A_UINT64"),
        ("cfg.a", 0x2000_0100, 1, "UBYTE"),
        ("cfg.b", 0x2000_0102, 2, "SWORD"),
        ("local_u8", 0x2000_0400, 1, "UBYTE"),
    ];
    let expected: Vec<_> = expected
        .iter()
        .map(|e| (e.0.to_string(), e.1, e.2, e.3.to_string()))
        .collect();
    assert_eq!(rows, expected);
    let typed = session.get_by_name("local_u8").unwrap().type_info.as_ref().unwrap();
    assert_eq!(typed.name, "uint8_t");
}

#[test]
fn an_image_without_debugging_information_gets_inferred_types() {
    let bytes = image(false);
    let parser = DwarfParser::parse(&bytes).unwrap();
    assert!(!parser.has_dwarf_info());
    assert_eq!(parser.type_count(), 0);
    let session = ElfParser::parse_deep(&bytes).unwrap();
    assert!(!session.has_dwarf());
    assert!(session.dwarf_stats().is_none());
    assert_eq!(session.a2l_entry_count(), 3);
    let cfg = session.get_by_name("cfg").unwrap();
    assert_eq!(cfg.type_info.as_ref().unwrap().name, "uint64_t");
    let mut vars = vec![Variable::new("gain_f32".into(), 1, 4, "t".into(), ".data".into())];
    assert_eq!(analyze_variables_with_dwarf(&mut vars, &bytes), Ok(false));
    assert_eq!(vars[0].type_info.as_ref().unwrap().encoding, TypeEncoding::Float);
}

#[test]
fn debugging_information_that_breaks_off_is_refused() {
    let (mut info, _) = information();
    info.truncate(info.len() - 5);
    let bytes = image_with(Some((info, abbreviations())));
    assert!(matches!(DwarfParser::parse(&bytes), Err(ParseError::InvalidImage)));
    assert!(matches!(ElfParser::parse_deep(&bytes), Err(ParseError::InvalidImage)));
    assert_eq!(ElfParser::parse(&bytes).unwrap().variable_count(), 3);
    let mut vars = vec![Variable::new("cfg".into(), 1, 8, "t".into(), ".data".into())];
    assert_eq!(analyze_variables_with_dwarf(&mut vars, &bytes), Err(ParseError::InvalidImage));
    assert!(vars[0].type_info.is_none());
}

#[test]
fn an_entry_without_an_abbreviation_is_refused() {
    let mut body: Vec<u8> = Vec::new();
    put16(&mut body, 4);
    put32(&mut body, 0);
    body.push(4);
    body.push(1);
    cstr(&mut body, "unit.c");
    body.push(99);
    let mut info = Vec::new();
    put32(&mut info, body.len() as u32);
    info.extend_from_slice(&body);
    let bytes = image_with(Some((info, abbreviations())));
    assert!(matches!(DwarfParser::parse(&bytes), Err(ParseError::InvalidImage)));
}

#[test]
fn a_unit_without_abbreviations_is_left_out() {
    let alone = image_with(Some((unit_without_abbreviations(), abbreviations())));
    let parser = DwarfParser::parse(&alone).unwrap();
    assert_eq!(parser.type_count(), 0);
    assert!(!parser.has_dwarf_info());
    assert_eq!(parser.get_stats(), (0, 0, 0, 0, 0, 0, 0, 0, 0, 0));
}

#[test]
fn entries_of_a_later_unit_stand_at_their_place_in_the_section() {
    let (unit, [u8_at, u16_at, struct_at, array_at, typedef_at]) = information();
    let mut info = unit_without_abbreviations();
    let start = info.len() as u64;
    info.extend_from_slice(&unit);
    let parser = DwarfParser::parse(&image_with(Some((info, abbreviations())))).unwrap();
    assert_eq!(parser.get_stats(), (2, 1, 0, 0, 1, 0, 1, 2, 2, 0));
    assert_eq!(parser.type_count(), 5);
    assert!(parser.get_type_by_offset(struct_at as u64).is_none());
    let cfg = parser.get_type_by_offset(start + struct_at as u64).unwrap();
    assert_eq!((cfg.name.as_str(), cfg.size, cfg.kind), ("cfg_t", 8, TypeKind::Struct));
    let members: Vec<_> =
        cfg.members.iter().map(|m| (m.name.as_str(), m.ty_name.as_str(), m.type_offset)).collect();
    assert_eq!(
        members,
        vec![
            ("a", "unsigned char", Some(start + u8_at as u64)),
            ("b", "short", Some(start + u16_at as u64)),
        ]
    );
    let array = parser.get_type_by_offset(start + array_at as u64).unwrap();
    assert_eq!(array.array_dims, vec![2, 3]);
    assert_eq!(array.pointer_target.as_ref().unwrap().name, "i16");
    assert!(parser.get_type_by_offset(start + typedef_at as u64).is_some());
}

#[test]
fn two_units_are_read_one_after_the_other() {
    let (unit, [_, _, struct_at, _, _]) = information();
    let mut info = unit.clone();
    info.extend_from_slice(&unit);
    let parser = DwarfParser::parse(&image_with(Some((info, abbreviations())))).unwrap();
    assert_eq!(parser.get_stats(), (4, 2, 0, 0, 2, 0, 2, 4, 4, 0));
    assert_eq!(parser.type_count(), 10);
    for start in [0, unit.len() as u64] {
        let cfg = parser.get_type_by_offset(start + struct_at as u64).unwrap();
        assert_eq!(cfg.name, "cfg_t");
    }
}
