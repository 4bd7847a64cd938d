use a2l_editor::{
    A2lEntry, A2lEntryInfo, A2lError, A2lGenerator, A2lParser, AppendResult, ExportKind,
    SaveResult, Variable, VariableChanges, VariableEdit,
};

fn entry(name: &str, address: u64, size: usize, tag: &str) -> A2lEntry {
    A2lEntry::new(name.to_string(), address, size, tag.to_string(), "t".to_string())
}

fn info(name: &str, address: u64, tag: &str) -> A2lEntryInfo {
    A2lEntryInfo {
        full_name: name.to_string(),
        address,
        size: 4,
        a2l_type: tag.to_string(),
        ty_name: "t".to_string(),
        bit_offset: None,
        bit_size: None,
    }
}

fn no_changes() -> VariableChanges {
    VariableChanges { name: None, address: None, data_type: None, var_type: None, bit_mask: None }
}

fn edit(action: &str, name: &str) -> VariableEdit {
    VariableEdit {
        action: action.to_string(),
        original_name: name.to_string(),
        changes: None,
        entry: None,
        export_mode: None,
    }
}

fn counts(modified: usize, deleted: usize, added: usize, skipped: usize) -> SaveResult {
    SaveResult { modified, deleted, added, skipped }
}

const FOO: &str = "    /begin MEASUREMENT foo \"\"\n      UWORD NO_COMPU_METHOD 0 0 0 65535\n      ECU_ADDRESS 0x00001000\n      ECU_ADDRESS_EXTENSION 0x0\n      FORMAT \"%5.0\"\n      SYMBOL_LINK \"foo\" 0\n    /end MEASUREMENT\n\n";

#[test]
fn measurement_block_is_rendered_line_by_line() {
    let text = A2lGenerator::generate_measurement_block(&entry("foo", 0x1000, 2, "UWORD"));
    assert_eq!(text, FOO);
}

#[test]
fn characteristic_block_is_rendered_line_by_line() {
    let text = A2lGenerator::generate_characteristic_block(&entry("k", 0x2000_0104, 4, "SLONG"));
    assert_eq!(
        text,
        "    /begin CHARACTERISTIC k \"\"\n      VALUE 0x20000104 __SLong_Value 0 NO_COMPU_METHOD 0 2147483647\n      EXTENDED_LIMITS 0 2147483647\n      SYMBOL_LINK \"k\" 0\n    /end CHARACTERISTIC\n\n"
    );
}

#[test]
fn bitfield_blocks_carry_their_mask() {
    let r = entry("flags.r", 0x2000_0200, 4, "ULONG").with_bitfield(0, 3);
    let g = entry("flags.g", 0x2000_0200, 4, "ULONG").with_bitfield(3, 5);
    let text = A2lGenerator::generate_measurement_block(&r);
    assert!(text.contains("      ULONG NO_COMPU_METHOD 0 0 0 7\n      BIT_MASK 0x7\n"));
    let text = A2lGenerator::generate_measurement_block(&g);
    assert!(text.contains("      ULONG NO_COMPU_METHOD 0 0 0 31\n      BIT_MASK 0xF8\n"));
    let text = A2lGenerator::generate_characteristic_block(&g);
    assert!(text.contains(" 0 NO_COMPU_METHOD 0 31\n      BIT_MASK 0xF8\n      EXTENDED_LIMITS 0 31\n"));
}

#[test]
fn masks_and_maxima_of_bitfields() {
    assert_eq!(A2lGenerator::get_bitfield_max(0), 0);
    assert_eq!(A2lGenerator::get_bitfield_max(1), 1);
    assert_eq!(A2lGenerator::get_bitfield_max(3), 7);
    assert_eq!(A2lGenerator::get_bitfield_max(63), u64::MAX >> 1);
    assert_eq!(A2lGenerator::get_bitfield_max(64), u64::MAX);
    assert_eq!(A2lGenerator::get_bitfield_max(200), u64::MAX);
    assert_eq!(A2lGenerator::calculate_bit_mask(Some(0), Some(3)), 0x7);
    assert_eq!(A2lGenerator::calculate_bit_mask(Some(3), Some(5)), 0xF8);
    assert_eq!(A2lGenerator::calculate_bit_mask(Some(60), Some(4)), 0xF000_0000_0000_0000);
    assert_eq!(A2lGenerator::calculate_bit_mask(Some(62), Some(4)), 0xC000_0000_0000_0000);
    assert_eq!(A2lGenerator::calculate_bit_mask(Some(64), Some(1)), 0);
    assert_eq!(A2lGenerator::calculate_bit_mask(None, Some(1)), 0);
    assert_eq!(A2lGenerator::calculate_bit_mask(Some(1), None), 0);
    for (offset, size) in [(0usize, 1usize), (5, 9), (31, 33), (0, 64), (63, 1)] {
        let formula = if size == 64 { u64::MAX } else { ((1u64 << size) - 1) << offset };
        assert_eq!(A2lGenerator::calculate_bit_mask(Some(offset), Some(size)), formula);
    }
}

#[test]
fn tables_give_format_range_and_layout() {
    let rows = [
        ("UBYTE", "%3.0", "0", "255", "__UByte_Value"),
        ("SBYTE", "%3.0", "-128", "127", "__SByte_Value"),
        ("UWORD", "%5.0", "0", "65535", "__UWord_Value"),
        ("SWORD", "%5.0", "-32768", "32767", "__SWord_Value"),
        ("ULONG", "%10.0", "0", "4294967295", "__ULong_Value"),
        ("SLONG", "%10.0", "-2147483648", "2147483647", "__SLong_Value"),
        ("FLOAT32_IEEE", "%10.4", "-3.4E38", "3.4E38", "__Float32_Value"),
        ("A_UINT64", "%20.0", "0", "18446744073709551615", "__UInt64_Value"),
        ("A_INT64", "%20.0", "-9223372036854775808", "9223372036854775807", "__Int64_Value"),
        ("FLOAT64_IEEE", "%16.8", "-1.7E308", "1.7E308", "__Float64_Value"),
        ("OTHER", "%10.0", "0", "0", "__ULong_Value"),
        ("", "%10.0", "0", "0", "__ULong_Value"),
    ];
    for (tag, format, min, max, layout) in rows {
        assert_eq!(A2lGenerator::get_format_string(tag), format);
        assert_eq!(A2lGenerator::get_min_max(tag), (min, max));
        assert_eq!(A2lGenerator::get_record_layout(tag), layout);
    }
}

#[test]
fn document_holds_header_blocks_and_footer() {
    let mut g = A2lGenerator::new("P", "M");
    assert_eq!(g.variable_count(), 0);
    g.add_variable(Variable::new("v_u8".into(), 0x10, 1, "uint8_t".into(), ".data".into()));
    g.add_entry(entry("foo", 0x1000, 2, "UWORD"));
    g.add_entries(&[entry("bar", 0x2000, 4, "FLOAT32_IEEE")]);
    g.add_variables(&[Variable::new("w".into(), 0x20, 4, "Float".into(), ".bss".into())]);
    assert_eq!(g.variable_count(), 4);
    let text = g.generate();
    let head = "/begin ASAP2_VERSION\n  1 71\n/end ASAP2_VERSION\n\n/begin PROJECT P \"\"\n  /begin MODULE M \"\"\n    /begin CHARACTERISTIC __PLACEHOLDER__ \"\"\n      VALUE 0x0 NO_COMPU_METHOD 0 0 0 0\n    /end CHARACTERISTIC\n\n    /begin COMPU_METHOD\n      NO_COMPU_METHOD \"\" NO_COMPU_VTAB \"\" \"\" \"\"\n    /end COMPU_METHOD\n\n";
    assert!(text.starts_with(head));
    assert!(text.ends_with("    /end MEASUREMENT\n\n  /end MODULE\n/end PROJECT\n"));
    let v = text.find("/begin MEASUREMENT v_u8 ").unwrap();
    let w = text.find("/begin MEASUREMENT w ").unwrap();
    let foo = text.find("/begin MEASUREMENT foo ").unwrap();
    let bar = text.find("/begin MEASUREMENT bar ").unwrap();
    assert!(v < w && w < foo && foo < bar);
    assert!(text.contains("      UBYTE NO_COMPU_METHOD 0 0 0 255\n      ECU_ADDRESS 0x00000010\n"));
    assert!(text.contains("      FLOAT32_IEEE NO_COMPU_METHOD 0 0 -3.4E38 3.4E38\n      ECU_ADDRESS 0x00000020\n"));
    assert!(text.contains(FOO));
    g.clear();
    assert_eq!(g.variable_count(), 0);
    assert!(!g.generate().contains("MEASUREMENT"));
}

#[test]
fn reading_back_a_document_gives_its_entries_in_order() {
    let entries = vec![
        entry("cfg.a", 0x2000_0100, 1, "UBYTE"),
        entry("cfg.b", 0x2000_0102, 2, "UWORD"),
        entry("M._1_._2_", 0x2000_030A, 2, "SWORD"),
        entry("flags.g", 0x2000_0200, 4, "ULONG").with_bitfield(3, 5),
        entry("big", 0x1_0000_0000_0000, 8, "A_INT64"),
    ];
    let mut g = A2lGenerator::new("P", "M");
    g.add_entries(&entries);
    let read = A2lParser::parse_all_variables(&g.generate());
    assert_eq!(read.len(), entries.len() + 1);
    assert_eq!(read[0].name, "__PLACEHOLDER__");
    assert_eq!(read[0].var_type, "CHARACTERISTIC");
    assert_eq!(read[0].address.as_deref(), Some("0x0"));
    for (r, e) in read[1..].iter().zip(entries.iter()) {
        assert_eq!(r.name, e.full_name);
        assert_eq!(r.var_type, "MEASUREMENT");
        assert_eq!(r.data_type, e.a2l_type);
        assert_eq!(r.address.clone().unwrap(), format!("0x{:08X}", e.address));
    }
    let names = A2lGenerator::parse_existing_names(&g.generate());
    let expected: Vec<String> = std::iter::once("__PLACEHOLDER__".to_string())
        .chain(entries.iter().map(|e| e.full_name.clone()))
        .collect();
    assert_eq!(names, expected);
}

#[test]
fn characteristics_are_read_back_with_the_address_of_their_value() {
    let text = A2lGenerator::generate_characteristic_block(&entry("k", 0xABC, 4, "SLONG"));
    let read = A2lParser::parse_all_variables(&text);
    assert_eq!(read.len(), 1);
    assert_eq!(read[0].name, "k");
    assert_eq!(read[0].var_type, "CHARACTERISTIC");
    assert_eq!(read[0].address.as_deref(), Some("0x00000ABC"));
    assert_eq!(read[0].data_type, "");
    assert_eq!(read[0].clone().name, "k");
}

#[test]
fn names_come_from_opening_lines_only() {
    let text = "/begin GROUP g \"\"\n/end GROUP\n  /begin MEASUREMENT a \"\"\n  UBYTE x\n/end MEASUREMENT\n\t/begin CHARACTERISTIC b \"\"\n/end CHARACTERISTIC\n/begin MEASUREMENT 12 \"\"\n/end MEASUREMENT\n/begin MEASUREMENT UWORD \"\"\n/end MEASUREMENT\n/begin MEASUREMENT a \"\"\n/end MEASUREMENT\n/begin MEASUREMENT\nlater\n/end MEASUREMENT\n/begin IF_DATA x\n/begin MEASUREMENTS c\n";
    assert_eq!(A2lGenerator::parse_existing_names(text), vec!["a".to_string(), "b".to_string()]);
    assert!(A2lGenerator::parse_existing_names("").is_empty());
}

#[test]
fn blocks_are_read_with_name_type_and_address() {
    let text = "/begin MEASUREMENT speed \"\"\n  SWORD NO_COMPU_METHOD 0 0 -32768 32767\n  /begin IF_DATA X\n  /end IF_DATA\n  ECU_ADDRESS 0x10 \n\n  ECU_ADDRESS\n/end MEASUREMENT\nnoise\n/begin CHARACTERISTIC 42 \"\"\n  first UBYTE\n  UFIX16 x\n  ECU_ADDRESS 0x1\n  VALUE 0x2 L 0\n/end CHARACTERISTIC\n/end MEASUREMENT\n/begin MEASUREMENT open \"\"\n";
    let read = A2lParser::parse_all_variables(text);
    assert_eq!(read.len(), 2);
    assert_eq!(read[0].name, "speed");
    assert_eq!(read[0].data_type, "SWORD");
    assert_eq!(read[0].address.as_deref(), Some("0x10"));
    assert_eq!(read[0].var_type, "MEASUREMENT");
    assert_eq!(read[1].name, "first");
    assert_eq!(read[1].data_type, "UFIX16");
    assert_eq!(read[1].address.as_deref(), Some("0x2"));
    assert_eq!(read[1].var_type, "CHARACTERISTIC");
    assert!(A2lParser::parse_all_variables("").is_empty());
}

#[test]
fn measurement_names_are_the_third_words_of_opening_lines() {
    let text = "/begin MEASUREMENT foo \"\"\n  UBYTE NO_COMPU_METHOD 0 0 0 255\n/end MEASUREMENT\n";
    assert_eq!(A2lParser::parse_measurement_names(text), vec!["foo".to_string()]);
    let more = format!(
        "{}  /begin CHARACTERISTIC cal \"\"\n  /end CHARACTERISTIC\n\t/begin MEASUREMENT  bar  \"\"\r\n/end MEASUREMENT\n{}/begin MEASUREMENT\n/begin MEASUREMENT 12 \"\"\n/begin MEASUREMENT UWORD \"\"\n/begin MEASUREMENTS x\n",
        text, text
    );
    assert_eq!(
        A2lParser::parse_measurement_names(&more),
        vec!["foo".to_string(), "bar".to_string(), "foo".to_string()]
    );
    assert!(A2lParser::parse_measurement_names("").is_empty());
}

#[test]
fn append_puts_new_blocks_before_the_first_group() {
    let content = format!("/begin MODULE m \"\"\n{}  /begin GROUP g \"\"\n  /end GROUP\n/end MODULE\n", FOO);
    let leaves = [entry("foo", 0x1000, 2, "UWORD"), entry("bar", 0x2000, 1, "UBYTE")];
    let (text, result) = A2lGenerator::append_to_file(&content, &leaves, ExportKind::Measurement);
    assert_eq!(result, AppendResult { added: 1, skipped: 1, existing: 1 });
    let bar = A2lGenerator::generate_measurement_block(&leaves[1]);
    let expected = format!(
        "/begin MODULE m \"\"\n{}{}  /begin GROUP g \"\"\n  /end GROUP\n/end MODULE\n",
        FOO, bar
    );
    assert_eq!(text, expected);
    assert_eq!(A2lGenerator::preview_append(&content, &leaves), result);
    assert_eq!(
        A2lGenerator::parse_existing_names(&text),
        vec!["foo".to_string(), "bar".to_string()]
    );
}

#[test]
fn append_falls_back_to_the_last_closing_line() {
    let leaf = [entry("bar", 0x2000, 1, "UBYTE")];
    let bar = A2lGenerator::generate_measurement_block(&leaf[0]);
    let kar = A2lGenerator::generate_characteristic_block(&leaf[0]);

    let content = format!("{}/end MODULE\n", FOO);
    let (text, result) = A2lGenerator::append_to_file(&content, &leaf, ExportKind::Measurement);
    assert_eq!(result, AppendResult { added: 1, skipped: 0, existing: 1 });
    let at = FOO.rfind("    /end MEASUREMENT").unwrap();
    assert_eq!(text, format!("{}{}{}/end MODULE\n", &FOO[..at], bar, &FOO[at..]));

    let content = "x\n  /end CHARACTERISTIC\n/end MODULE\n";
    let (text, _) = A2lGenerator::append_to_file(content, &leaf, ExportKind::Characteristic);
    assert_eq!(text, format!("x\n{}  /end CHARACTERISTIC\n/end MODULE\n", kar));

    let content = "x\ny /end MODULE\n";
    let (text, _) = A2lGenerator::append_to_file(content, &leaf, ExportKind::Measurement);
    assert_eq!(text, format!("x\ny {}/end MODULE\n", bar));

    let (text, result) = A2lGenerator::append_to_file("plain", &leaf, ExportKind::Measurement);
    assert_eq!(text, format!("plain{}", bar));
    assert_eq!(result, AppendResult { added: 1, skipped: 0, existing: 0 });

    let (text, _) = A2lGenerator::append_to_file("  /end MODULE", &leaf, ExportKind::Measurement);
    assert_eq!(text, format!("{}  /end MODULE", bar));

    let (text, result) = A2lGenerator::append_to_file("", &[], ExportKind::Measurement);
    assert_eq!((text.as_str(), result), ("", AppendResult { added: 0, skipped: 0, existing: 0 }));
}

#[test]
fn delete_removes_whole_blocks_and_keeps_the_rest() {
    let content = format!("head\r\n{}mid\n    /begin CHARACTERISTIC k \"\"\n    /end CHARACTERISTIC\ntail", FOO);
    let text = A2lGenerator::remove_variables(&content, &["foo".to_string()]).unwrap();
    assert_eq!(text, "head\n\nmid\n    /begin CHARACTERISTIC k \"\"\n    /end CHARACTERISTIC\ntail\n");
    let text = A2lGenerator::remove_variables(&content, &["k".into(), "foo".into()]).unwrap();
    assert_eq!(text, "head\n\nmid\ntail\n");
    let text = A2lGenerator::remove_variables(&content, &["absent".to_string()]).unwrap();
    assert_eq!(text, format!("head\n{}mid\n    /begin CHARACTERISTIC k \"\"\n    /end CHARACTERISTIC\ntail\n", FOO));
    assert_eq!(A2lGenerator::remove_variables("", &[]).unwrap(), "");
}

#[test]
fn removing_twice_is_removing_once() {
    let content = format!(
        "head\r\n{}  /begin CHARACTERISTIC cal \"\"\n    /begin MEASUREMENT foo \"\"\n  /end CHARACTERISTIC\n{}tail",
        FOO,
        FOO.replace("foo", "bar")
    );
    let names = ["foo".to_string()];
    let once = A2lGenerator::remove_variables(&content, &names).unwrap();
    assert_eq!(
        once,
        format!(
            "head\n\n  /begin CHARACTERISTIC cal \"\"\n    /begin MEASUREMENT foo \"\"\n  /end CHARACTERISTIC\n{}tail\n",
            FOO.replace("foo", "bar")
        )
    );
    assert_eq!(A2lGenerator::remove_variables(&once, &names).unwrap(), once);
    let returns = "x\r\r\n";
    let first = A2lGenerator::remove_variables(returns, &names).unwrap();
    assert_eq!(first, "x\r\n");
    assert_eq!(A2lGenerator::remove_variables(&first, &names).unwrap(), "x\n");
}

#[test]
fn broken_blocks_are_refused() {
    let open = "/begin MEASUREMENT a \"\"\n  UBYTE\n";
    assert_eq!(A2lGenerator::remove_variables(open, &[]), Err(A2lError::InvalidA2lFile));
    let crossed = "/begin MEASUREMENT a \"\"\n/end CHARACTERISTIC\n";
    assert_eq!(A2lGenerator::remove_variables(crossed, &[]), Err(A2lError::InvalidA2lFile));
    let numbered = "/begin MEASUREMENT 1e5 \"\"\n/end MEASUREMENT\n";
    assert_eq!(
        A2lGenerator::modify_variable(numbered, "x", &no_changes()),
        Err(A2lError::InvalidA2lFile)
    );
    let tagged = "/begin CHARACTERISTIC SLONG \"\"\n/end CHARACTERISTIC\n";
    assert_eq!(A2lGenerator::remove_variables(tagged, &[]), Err(A2lError::InvalidA2lFile));
    let result = A2lGenerator::apply_changes(open, &[edit("delete", "a")]);
    assert_eq!(result, Err(A2lError::InvalidA2lFile));
    assert!(!A2lError::InvalidA2lFile.to_string().is_empty());
}

#[test]
fn modify_rewrites_the_lines_that_carry_the_values() {
    let content = "top\n\t/begin MEASUREMENT foo \"\"\n\t  UWORD NO_COMPU_METHOD 0 0 0 65535\n\t  ECU_ADDRESS 0x1000\n\t  ECU_ADDRESS_EXTENSION 0x0\n\t  FORMAT \"%5.0\"\n\t  DISPLAY grp 0 65535\n\t  DISPLAY_IDENTIFIER keep\n\t  LINK_MAP \"foo\" 0x1000 0 0 0 0\n\t  SYMBOL_LINK \"foo\" 0\n\t  other foo\n\t/end MEASUREMENT\n/begin MEASUREMENT bar \"\"\n  ECU_ADDRESS 0x2\n/end MEASUREMENT\n";
    let changes = VariableChanges {
        name: Some("baz".into()),
        address: Some("0x20".into()),
        data_type: Some("SLONG".into()),
        var_type: Some("MEASUREMENT".into()),
        bit_mask: None,
    };
    let text = A2lGenerator::modify_variable(content, "foo", &changes).unwrap();
    assert_eq!(
        text,
        "top\n\t/begin MEASUREMENT baz \"\"\n\t  SLONG NO_COMPU_METHOD 0 0 -2147483648 2147483647\n\t  ECU_ADDRESS 0x20\n\t  ECU_ADDRESS_EXTENSION 0x0\n\t  FORMAT \"%10.0\"\n\t  DISPLAY grp -2147483648 2147483647\n\t  DISPLAY_IDENTIFIER keep\n\t  LINK_MAP \"baz\" 0x20 0 0 0 0\n\t  SYMBOL_LINK \"baz\" 0\n\t  other foo\n\t/end MEASUREMENT\n/begin MEASUREMENT bar \"\"\n  ECU_ADDRESS 0x2\n/end MEASUREMENT\n"
    );
    let only_name = VariableChanges { name: Some("n".into()), ..no_changes() };
    let text = A2lGenerator::modify_variable(content, "bar", &only_name).unwrap();
    assert!(text.ends_with("/begin MEASUREMENT n \"\"\n  ECU_ADDRESS 0x2\n/end MEASUREMENT\n"));
    assert!(text.contains("\t/begin MEASUREMENT foo \"\"\n\t  UWORD NO_COMPU_METHOD 0 0 0 65535\n"));
    let same = A2lGenerator::modify_variable(content, "absent", &changes).unwrap();
    assert_eq!(same, content);
}

#[test]
fn a_range_line_of_another_tag_stays_as_it_stands() {
    for tag in ["FLOAT16", "FLOAT64", "UFIX16", "UFIX32", "SFIX16", "SFIX32"] {
        let content = format!(
            "/begin MEASUREMENT foo \"\"\n  {} NO_COMPU_METHOD 0 0 -1 1\n  ECU_ADDRESS 0x10\n/end MEASUREMENT\n",
            tag
        );
        let rename = VariableChanges { name: Some("bar".into()), ..no_changes() };
        let text = A2lGenerator::modify_variable(&content, "foo", &rename).unwrap();
        assert_eq!(text, content.replace("foo", "bar"));
    }
    let content = "/begin MEASUREMENT foo \"\"\n  UBYTE NO_COMPU_METHOD 0 0 3 9\n/end MEASUREMENT\n";
    let rename = VariableChanges { name: Some("bar".into()), ..no_changes() };
    assert_eq!(
        A2lGenerator::modify_variable(content, "foo", &rename).unwrap(),
        "/begin MEASUREMENT bar \"\"\n  UBYTE NO_COMPU_METHOD 0 0 0 255\n/end MEASUREMENT\n"
    );
}

#[test]
fn modify_makes_the_block_anew_when_its_kind_changes() {
    let content = format!("a\n{}b\n", FOO);
    let changes = VariableChanges { var_type: Some("CHARACTERISTIC".into()), ..no_changes() };
    let text = A2lGenerator::modify_variable(&content, "foo", &changes).unwrap();
    let made = A2lGenerator::generate_characteristic_block(&entry("foo", 0x1000, 4, "UWORD"));
    assert_eq!(text, format!("a\n{}\nb\n", made));

    let back = VariableChanges {
        name: Some("renamed".into()),
        address: Some("0XFF".into()),
        data_type: Some("UBYTE".into()),
        var_type: Some("MEASUREMENT".into()),
        bit_mask: None,
    };
    let text = A2lGenerator::modify_variable(&text, "foo", &back).unwrap();
    let made = A2lGenerator::generate_measurement_block(&entry("renamed", 0xFF, 4, "UBYTE"));
    assert_eq!(text, format!("a\n{}\n\nb\n", made));

    let lines: Vec<Vec<char>> = FOO.lines().map(|l| l.chars().collect()).collect();
    let kept = A2lGenerator::apply_changes_to_block(&lines[..7].to_vec(), &no_changes(), true);
    assert_eq!(format!("{}\n", kept), FOO);
}

#[test]
fn edits_are_applied_in_order_and_counted() {
    let content = format!("/begin MODULE m \"\"\n{}  /begin GROUP g \"\"\n  /end GROUP\n/end MODULE\n", FOO);
    let edits = vec![
        VariableEdit { entry: Some(info("bar", 0x2000, "UBYTE")), ..edit("add", "") },
        VariableEdit { entry: Some(info("bar", 0x2000, "UBYTE")), ..edit("add", "") },
        VariableEdit {
            entry: Some(info("kar", 0x3000, "SWORD")),
            export_mode: Some("characteristic".into()),
            ..edit("add", "")
        },
        VariableEdit {
            changes: Some(VariableChanges { address: Some("0x1234".into()), ..no_changes() }),
            ..edit("modify", "foo")
        },
        VariableEdit { changes: Some(no_changes()), ..edit("modify", "absent") },
        edit("modify", "foo"),
        edit("delete", "bar"),
        edit("delete", "bar"),
        edit("add", "nothing"),
        edit("rename", "foo"),
    ];
    let (text, result) = A2lGenerator::apply_changes(&content, &edits).unwrap();
    assert_eq!(result, counts(1, 1, 2, 3));
    let foo = FOO.replace("ECU_ADDRESS 0x00001000", "ECU_ADDRESS 0x1234");
    let kar = A2lGenerator::generate_characteristic_block(&entry("kar", 0x3000, 4, "SWORD"));
    // The empty line after the deleted block stays where it was.
    assert_eq!(
        text,
        format!("/begin MODULE m \"\"\n{}\n{}  /begin GROUP g \"\"\n  /end GROUP\n/end MODULE\n", foo, kar)
    );
    let (text, result) = A2lGenerator::apply_changes(&content, &[]).unwrap();
    assert_eq!((text, result), (content, counts(0, 0, 0, 0)));
}

#[test]
fn deleting_what_is_not_there_changes_nothing() {
    let content = format!("head\r\n{}tail without end", FOO);
    let (text, result) = A2lGenerator::apply_changes(&content, &[edit("delete", "bar")]).unwrap();
    assert_eq!(text, content);
    assert_eq!(result, counts(0, 0, 0, 1));
    let once = A2lGenerator::apply_changes(&content, &[edit("delete", "foo")]).unwrap();
    assert_eq!(once.1, counts(0, 1, 0, 0));
    let twice = A2lGenerator::apply_changes(&once.0, &[edit("delete", "foo")]).unwrap();
    assert_eq!(twice.0, once.0);
    assert_eq!(twice.1, counts(0, 0, 0, 1));
}

#[test]
fn adding_what_is_there_changes_nothing() {
    let content = format!("head\n{}  /begin GROUP g \"\"\n", FOO);
    let dup = VariableEdit { entry: Some(info("foo", 0x9, "UBYTE")), ..edit("add", "") };
    let (text, result) = A2lGenerator::apply_changes(&content, &[dup]).unwrap();
    assert_eq!(text, content);
    assert_eq!(result, counts(0, 0, 0, 1));
    let new = VariableEdit { entry: Some(info("bar", 0x9, "UBYTE")), ..edit("add", "") };
    let again = VariableEdit { entry: Some(info("bar", 0x9, "UBYTE")), ..edit("add", "") };
    let once = A2lGenerator::apply_changes(&content, &[new]).unwrap();
    assert_eq!(once.1, counts(0, 0, 1, 0));
    let twice = A2lGenerator::apply_changes(&once.0, &[again]).unwrap();
    assert_eq!(twice.0, once.0);
    assert_eq!(twice.1, counts(0, 0, 0, 1));
}

#[test]
fn a_block_put_inside_a_line_opens_no_line() {
    let content = "x /begin GROUP g \"\"\n".to_string();
    let new = VariableEdit { entry: Some(info("bar", 0x1000, "UWORD")), ..edit("add", "") };
    let again = VariableEdit { entry: Some(info("bar", 0x1000, "UWORD")), ..edit("add", "") };
    let once = A2lGenerator::apply_changes(&content, &[new]).unwrap();
    assert_eq!(once.0, format!("x {}/begin GROUP g \"\"\n", FOO.replace("foo", "bar")));
    assert_eq!(once.1, counts(0, 0, 1, 0));
    assert_eq!(A2lGenerator::parse_existing_names(&once.0), Vec::<String>::new());
    let twice = A2lGenerator::apply_changes(&once.0, &[again]).unwrap();
    assert_eq!(twice.1, counts(0, 0, 1, 0));
}

#[test]
fn variables_are_rendered_with_a_guessed_tag() {
    let g = A2lGenerator::new("P", "M");
    let v = Variable::new("gain".into(), 0x1000, 2, "UINT16_T".into(), ".data".into());
    assert_eq!(g.generate_measurement(&v), FOO.replace("foo", "gain"));
    let e = A2lGenerator::entry_for(&v);
    assert_eq!((e.full_name.as_str(), e.a2l_type.as_str(), e.size), ("gain", "UWORD", 2));
    assert_eq!(e.to_owned().address, 0x1000);
    let i = info("k", 7, "UBYTE").to_entry();
    assert_eq!((i.full_name.as_str(), i.address, i.size, i.array_index), ("k", 7, 4, None));
}
