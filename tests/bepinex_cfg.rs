use hq_launcher::bepinex_cfg::{parse, set_entry_value, value_to_string, Entry, FileData, Num, Section, Value, FLAGS_MESSAGE};
use hq_launcher::number::Decimal;

fn one_entry(text: &str) -> Entry {
    let f = parse(text).expect("parses");
    assert_eq!(f.sections.len(), 1);
    assert_eq!(f.sections[0].entries.len(), 1);
    f.sections[0].entries[0].clone()
}

#[test]
fn boolean_entry_with_default() {
    let text = "[Section1]\n# Setting type: Boolean\n# Default value: true\nKey1 = false\n";
    let f = parse(text).unwrap();
    assert_eq!(f.sections.len(), 1);
    assert_eq!(f.sections[0].name, "Section1");
    let e = &f.sections[0].entries[0];
    assert_eq!(e.name, "Key1");
    assert!(matches!(e.default, Some(Value::Bool(true))));
    assert!(matches!(e.value, Value::Bool(false)));
    let out = hq_launcher::bepinex_cfg::write(&f).unwrap();
    assert_eq!(
        out,
        "[Section1]\n\n# Setting type: Boolean\n# Default value: true\nKey1 = false\n"
    );
}

#[test]
fn capitalised_booleans_are_rejected() {
    let text = "[Section1]\n# Setting type: Boolean\n# Default value: True\nKey1 = False\n";
    assert!(parse(text).is_err());
}

#[test]
fn enum_entry_and_out_of_range_index() {
    let text = "[S]\n# Setting type: String\n# Acceptable values: A, B, C\nKey2 = B\n";
    let mut f = parse(text).unwrap();
    match &f.sections[0].entries[0].value {
        Value::Enum { index, options } => {
            assert_eq!(*index, 1);
            assert_eq!(options, &vec!["A".to_string(), "B".to_string(), "C".to_string()]);
        }
        _ => panic!("not an enum"),
    }
    if let Value::Enum { index, .. } = &mut f.sections[0].entries[0].value {
        *index = 5;
    }
    let out = hq_launcher::bepinex_cfg::write(&f).unwrap();
    let g = parse(&out).unwrap();
    match &g.sections[0].entries[0].value {
        Value::Enum { index, options } => {
            assert_eq!(*index, 0);
            assert_eq!(options.len(), 3);
        }
        _ => panic!("not an enum"),
    }
}

#[test]
fn heuristic_types() {
    assert!(matches!(one_entry("[S]\nX = true\n").value, Value::Bool(true)));
    match one_entry("[S]\nX = 12\n").value {
        Value::Int(n) => {
            assert_eq!(n.value, 12);
            assert!(n.range.is_none());
        }
        _ => panic!("not an int"),
    }
    match one_entry("[S]\nX = 1.5\n").value {
        Value::Float(n) => assert_eq!(n.value, Decimal { negative: false, mantissa: 15, scale: 1 }),
        _ => panic!("not a float"),
    }
    match one_entry("[S]\nX = hello\n").value {
        Value::String(s) => assert_eq!(s, "hello"),
        _ => panic!("not a string"),
    }
}

#[test]
fn empty_flags_render_as_zero_and_read_back_empty() {
    let v = Value::Flags { indicies: vec![], options: vec!["Debug".to_string(), "Warning".to_string()] };
    assert_eq!(value_to_string(&v), "0");
    let text = format!("[S]\n# Setting type: String\n# Acceptable values: Debug, Warning\n{}\nLog = 0\n", FLAGS_MESSAGE);
    match one_entry(&text).value {
        Value::Flags { indicies, options } => {
            assert!(indicies.is_empty());
            assert_eq!(options.len(), 2);
        }
        _ => panic!("not flags"),
    }
}

#[test]
fn flags_pick_known_names_in_order() {
    let text = format!("[S]\n# Acceptable values: Debug, Info, Warning\n{}\nLog = Warning, Nope, Debug\n", FLAGS_MESSAGE);
    let e = one_entry(&text);
    match &e.value {
        Value::Flags { indicies, .. } => assert_eq!(indicies, &vec![2, 0]),
        _ => panic!("not flags"),
    }
    assert_eq!(value_to_string(&e.value), "Warning, Debug");
}

#[test]
fn comma_decimal_reads_as_dot() {
    let e = one_entry("[S]\n# Setting type: Single\nF = 3,14\n");
    match &e.value {
        Value::Float(n) => assert_eq!(n.value, Decimal { negative: false, mantissa: 314, scale: 2 }),
        _ => panic!("not a float"),
    }
    assert_eq!(value_to_string(&e.value), "3.14");
}

#[test]
fn decimal_text_forms() {
    let f = |m: u64, s: u32, n: bool| {
        value_to_string(&Value::Float(Num { value: Decimal { negative: n, mantissa: m, scale: s }, range: None }))
    };
    assert_eq!(f(5, 3, false), "0.005");
    assert_eq!(f(125, 1, true), "-12.5");
    assert_eq!(f(7, 0, false), "7");
    assert_eq!(f(0, 0, false), "0");
}

#[test]
fn ranges_are_read_and_written() {
    let text = "[S]\n# Setting type: Int32\n# Default value: 5\n# Acceptable value range: From 1 to 10\nN = 7\n";
    let f = parse(text).unwrap();
    match &f.sections[0].entries[0].value {
        Value::Int(n) => {
            assert_eq!(n.value, 7);
            let r = n.range.clone().unwrap();
            assert_eq!((r.start, r.end), (1, 10));
        }
        _ => panic!("not an int"),
    }
    assert_eq!(
        hq_launcher::bepinex_cfg::write(&f).unwrap(),
        "[S]\n\n# Setting type: Int32\n# Default value: 5\n# Acceptable value range: From 1 to 10\nN = 7\n"
    );
}

#[test]
fn metadata_header_and_description() {
    let text = "## Settings file was created by plugin My Mod 1.2.3\n## Plugin GUID: com.example.mod\n\n[General]\n\n## First line\n## Second line\n# Setting type: String\n# Default value: a\\nb\nGreeting = hi\\nthere\n";
    let f = parse(text).unwrap();
    let m = f.metadata.clone().unwrap();
    assert_eq!(m.mod_name, "My Mod");
    assert_eq!(m.mod_version, "1.2.3");
    assert_eq!(m.mod_guid, "com.example.mod");
    let e = &f.sections[0].entries[0];
    assert_eq!(e.description.as_deref(), Some("First line\nSecond line"));
    match &e.value {
        Value::String(s) => assert_eq!(s, "hi\nthere"),
        _ => panic!("not a string"),
    }
    let out = hq_launcher::bepinex_cfg::write(&f).unwrap();
    assert_eq!(out, text);
    assert_eq!(hq_launcher::bepinex_cfg::write(&parse(&out).unwrap()).unwrap(), out);
}

#[test]
fn missing_guid_line_gives_empty_guid() {
    let f = parse("## Settings file was created by plugin Solo 0.1").unwrap();
    let m = f.metadata.unwrap();
    assert_eq!(m.mod_name, "Solo");
    assert_eq!(m.mod_version, "0.1");
    assert_eq!(m.mod_guid, "");
    assert!(f.sections.is_empty());
}

#[test]
fn entry_outside_section_is_an_error() {
    assert!(parse("Key = 1\n").is_err());
}

#[test]
fn bad_numbers_are_errors() {
    assert!(parse("[S]\n# Setting type: Int32\nN = abc\n").is_err());
    assert!(parse("[S]\n# Setting type: Int32\nN = 99999999999\n").is_err());
    assert!(parse("[S]\n# Setting type: Single\nN = 1.2.3\n").is_err());
    assert!(parse("[S]\nN = flase\n").is_err());
}

#[test]
fn int_limits() {
    match one_entry("[S]\n# Setting type: Int32\nN = -2147483648\n").value {
        Value::Int(n) => assert_eq!(n.value, i32::MIN),
        _ => panic!("not an int"),
    }
    match one_entry("[S]\n# Setting type: Int32\nN = +2147483647\n").value {
        Value::Int(n) => assert_eq!(n.value, i32::MAX),
        _ => panic!("not an int"),
    }
    assert!(parse("[S]\n# Setting type: Int32\nN = 2147483648\n").is_err());
}

#[test]
fn unknown_lines_are_skipped() {
    let f = parse("[S]\n# Something else: 1\njust words\r\n\r\nK = v\r\n").unwrap();
    assert_eq!(f.sections[0].entries.len(), 1);
    assert_eq!(f.sections[0].entries[0].name, "K");
}

#[test]
fn empty_text_is_an_empty_document() {
    let f = parse("").unwrap();
    assert!(f.metadata.is_none());
    assert!(f.sections.is_empty());
    assert_eq!(hq_launcher::bepinex_cfg::write(&f).unwrap(), "");
}

#[test]
fn set_entry_value_replaces_or_adds() {
    let mut f = parse("[A]\nX = 1\nY = 2\n").unwrap();
    set_entry_value(&mut f, &"A".to_string(), &"Y".to_string(), Value::Bool(true));
    assert!(matches!(f.sections[0].entries[1].value, Value::Bool(true)));
    set_entry_value(&mut f, &"B".to_string(), &"Z".to_string(), Value::String("s".to_string()));
    assert_eq!(f.sections.len(), 2);
    assert_eq!(f.sections[1].name, "B");
    assert_eq!(f.sections[1].entries[0].name, "Z");
    let mut empty = FileData { metadata: None, sections: vec![] };
    set_entry_value(&mut empty, &"S".to_string(), &"K".to_string(), Value::Bool(false));
    assert_eq!(hq_launcher::bepinex_cfg::write(&empty).unwrap(), "[S]\n\n# Setting type: Boolean\n# Default value:\nK = false\n");
    let _ = Section { name: String::new(), entries: vec![] };
}

#[test]
fn written_text_reads_back_and_is_a_fixed_point() {
    let text = format!(
        "## Settings file was created by plugin Some Plugin 2.0.1\n## Plugin GUID: org.example.some\n\n[General]\n## Turns it on.\n# Setting type: Boolean\n# Default value: true\nEnabled = false\n\n[Numbers]\n# Setting type: Int32\n# Default value: 3\n# Acceptable value range: From -5 to 10\nCount = -2\n# Setting type: Single\n# Default value: 0,50\n# Acceptable value range: From 0 to 1.5\nScale = 1.25\n# Setting type: String\n# Default value: Info\n# Acceptable values: Debug, Info, Warning\nLevel = Warning\n# Setting type: String\n# Default value: 0\n# Acceptable values: Debug, Info, Warning\n{}\nLog = Info, Debug\n# Setting type: String\n# Default value: C:\\\\path\nPath = line one\\nline two\n",
        FLAGS_MESSAGE
    );
    let first = parse(&text).unwrap();
    let written = hq_launcher::bepinex_cfg::write(&first).unwrap();
    let second = parse(&written).unwrap();
    let rewritten = hq_launcher::bepinex_cfg::write(&second).unwrap();
    assert_eq!(rewritten, written);
    assert_eq!(format!("{:?}", second), format!("{:?}", first));
    match &second.sections[1].entries[1].default {
        Some(Value::Float(n)) => assert_eq!(n.value, Decimal { negative: false, mantissa: 5, scale: 1 }),
        _ => panic!("not a float default"),
    }
    match &second.sections[1].entries[3].value {
        Value::Flags { indicies, .. } => assert_eq!(indicies, &vec![1, 0]),
        _ => panic!("not flags"),
    }
}
