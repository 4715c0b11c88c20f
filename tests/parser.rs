use nand2tetris_hdl_parser::model::pin_debug_string;
use nand2tetris_hdl_parser::parser::read_chip;
use nand2tetris_hdl_parser::{parse_hdl, parse_io_pins, part, pin, separator, Chip, HDLParseError, Part, Pin};

fn p(name: &str, start: u32, end: u32) -> Pin {
    Pin {
        name: name.to_string(),
        start,
        end,
    }
}

fn message(text: &str) -> String {
    parse_hdl(text).err().unwrap().description().to_string()
}

#[test]
fn fails_parse() {
    assert_eq!(
        parse_hdl("aaaa ").err().unwrap().description(),
        "0: at line 1, in Tag:
aaaa
^

1: at line 1, in symbol \"CHIP\":
aaaa
^

"
    );
}

#[test]
fn test_parse_io_pins() {
    let text = "    IN a, b;
";
    let (_, pins) = parse_io_pins(text, "IN").unwrap_or(("", vec![]));
    assert_eq!(
        pins,
        vec![
            Pin {
                name: "a".to_string(),
                start: 0,
                end: 0,
            },
            Pin {
                name: "b".to_string(),
                start: 0,
                end: 0,
            }
        ]
    );
}

#[test]
fn test_pin_debug_display() {
    let index_same_formatted: String = Pin {
        name: "placeholder".to_string(),
        start: 0,
        end: 0,
    }
    .to_debug_string()
    .chars()
    .filter(|c| !c.is_whitespace())
    .collect();
    let index_same_cmp: String = "Pin { name: \"placeholder\", index: 0 }"
        .chars()
        .filter(|c| !c.is_whitespace())
        .collect();
    assert_eq!(index_same_formatted, index_same_cmp);

    let index_different_formatted: String = Pin {
        name: "placeholder".to_string(),
        start: 3,
        end: 4,
    }
    .to_debug_string()
    .chars()
    .filter(|c| !c.is_whitespace())
    .collect();
    let index_different_cmp: String = "Pin { name: \"placeholder\", start: 3, end: 4 }"
        .chars()
        .filter(|c| !c.is_whitespace())
        .collect();
    assert_eq!(index_different_formatted, index_different_cmp);
}

#[test]
fn pin_debug_string_exact() {
    assert_eq!(p("a", 12, 12).to_debug_string(), "Pin { name: \"a\", index: 12 }");
    assert_eq!(p("bus", 0, 15).to_debug_string(), "Pin { name: \"bus\", start: 0, end: 15 }");
    assert_eq!(p("q\"x", 7, 7).to_debug_string(), "Pin { name: \"q\\\"x\", index: 7 }");
    assert_eq!(
        p("w", 4294967295, 0).to_debug_string(),
        "Pin { name: \"w\", start: 4294967295, end: 0 }"
    );
}

#[test]
fn pin_range_index_and_plain() {
    assert_eq!(pin("a[0..3]"), ("", p("a", 0, 3)));
    assert_eq!(pin("a[2]"), ("", p("a", 2, 2)));
    assert_eq!(pin("a"), ("", p("a", 0, 0)));
}

#[test]
fn pin_leaves_the_rest() {
    assert_eq!(pin("in[5] = x"), ("= x", p("in", 5, 5)));
    assert_eq!(pin("a = b"), ("= b", p("a", 0, 0)));
    assert_eq!(pin("sel[1..2],b"), (",b", p("sel", 1, 2)));
    assert_eq!(pin(" /** c */ b;"), (";", p("b", 0, 0)));
    assert_eq!(pin("b\n= c"), ("= c", p("b", 0, 0)));
    assert_eq!(pin("b/** c */[1]x"), ("x", p("b", 1, 1)));
    // no name stands before a delimiter
    assert_eq!(pin(", b;"), (", b;", p("", 0, 0)));
}

#[test]
fn pin_index_overflow_reads_as_zero() {
    assert_eq!(pin("a[4294967295]"), ("", p("a", 4294967295, 4294967295)));
    assert_eq!(pin("a[4294967296]"), ("", p("a", 0, 0)));
    assert_eq!(pin("a[1..99999999999]"), ("", p("a", 1, 0)));
    assert_eq!(pin("a[007]"), ("", p("a", 7, 7)));
}

#[test]
fn pin_malformed_index_is_left_unread() {
    assert_eq!(pin("a[]"), ("[]", p("a", 0, 0)));
    assert_eq!(pin("a[3"), ("[3", p("a", 0, 0)));
    assert_eq!(pin("a[1..]"), ("[1..]", p("a", 0, 0)));
    assert_eq!(pin("a[1..2"), ("[1..2", p("a", 0, 0)));
}

#[test]
fn part_pairs_pins_in_order() {
    let (rest, got) = part("Test(a[0..3]=a[0..3],b=b,out=out);").unwrap();
    assert_eq!(rest, "");
    assert_eq!(
        got,
        Part {
            name: "Test".to_string(),
            internal: vec![p("a", 0, 3), p("b", 0, 0), p("out", 0, 0)],
            external: vec![p("a", 0, 3), p("b", 0, 0), p("out", 0, 0)],
        }
    );
}

#[test]
fn part_without_pins() {
    let (rest, got) = part("  Nop() ; Next").unwrap_or(("x", Part {
        name: String::new(),
        internal: vec![],
        external: vec![],
    }));
    // `);` must be written together
    assert_eq!(rest, "x");
    let (rest, got2) = part("Nop(); Next").unwrap();
    assert_eq!(rest, "Next");
    assert_eq!(got2.name, "Nop");
    assert!(got2.internal.is_empty() && got2.external.is_empty());
    assert_eq!(got.name, "");
}

#[test]
fn part_errors() {
    let e = part("(a=b);").err().unwrap();
    assert!(e.description().contains("expected nonzero length alphanumeric identifier"));
    let e = part("Test a=b);").err().unwrap();
    assert!(e.description().contains("in symbol \"(\""));
    let e = part("Test(a=b").err().unwrap();
    assert!(e.description().contains("in symbol \");\""));
}

#[test]
fn whole_document() {
    let chip = parse_hdl("CHIP Example IN a, b; OUT out; PARTS: Test(a=a, b=b, out=out);").unwrap();
    assert_eq!(
        chip,
        Chip {
            name: "Example".to_string(),
            inputs: vec![p("a", 0, 0), p("b", 0, 0)],
            outputs: vec![p("out", 0, 0)],
            parts: vec![Part {
                name: "Test".to_string(),
                internal: vec![p("a", 0, 0), p("b", 0, 0), p("out", 0, 0)],
                external: vec![p("a", 0, 0), p("b", 0, 0), p("out", 0, 0)],
            }],
        }
    );
}

const EXAMPLE: &str = "// An example chip
/** with a block comment */
CHIP Example {
    IN a[16], b;
    OUT out[16];

    PARTS:
    // first part
    Test(a[0..3]=a[0..3], b=b, out=out1);
    Test(a=a, b=b, out=out); /** trailing */
    Test(a=a,b=b,out=out);
}
";

#[test]
fn document_with_comments_and_buses() {
    let chip = parse_hdl(EXAMPLE).unwrap();
    assert_eq!(chip.name, "Example");
    assert_eq!(chip.inputs, vec![p("a", 16, 16), p("b", 0, 0)]);
    assert_eq!(chip.outputs, vec![p("out", 16, 16)]);
    assert_eq!(chip.parts.len(), 3);
    assert_eq!(
        chip.parts[0],
        Part {
            name: "Test".to_string(),
            internal: vec![p("a", 0, 3), p("b", 0, 0), p("out", 0, 0)],
            external: vec![p("a", 0, 3), p("b", 0, 0), p("out1", 0, 0)],
        }
    );
    for q in &chip.parts[1..] {
        assert_eq!(q.internal, vec![p("a", 0, 0), p("b", 0, 0), p("out", 0, 0)]);
        assert_eq!(q.external, q.internal);
    }
}

#[test]
fn parsed_chips_are_well_formed() {
    for text in [
        EXAMPLE,
        "CHIP X IN a; OUT b; PARTS:",
        "CHIP Y IN a,b,c; OUT o; PARTS: P(x=a); Q(); R(y=b, z=c);",
    ] {
        let chip = parse_hdl(text).unwrap();
        assert!(!chip.inputs.is_empty());
        assert!(!chip.outputs.is_empty());
        for q in &chip.parts {
            assert_eq!(q.internal.len(), q.external.len());
        }
    }
}

#[test]
fn parts_stop_at_the_first_that_does_not_parse() {
    let chip = parse_hdl("CHIP X IN a; OUT b; PARTS: P(x=a); (y=b); R(z=a);").unwrap();
    assert_eq!(chip.parts.len(), 1);
    assert_eq!(chip.parts[0].name, "P");
}

#[test]
fn failure_on_aaaa_names_chip_at_line_one_column_one() {
    let m = message("aaaa");
    assert_eq!(
        m,
        "0: at line 1, in Tag:\naaaa\n^\n\n1: at line 1, in symbol \"CHIP\":\naaaa\n^\n\n"
    );
}

#[test]
fn failure_on_empty_text() {
    assert_eq!(
        message(""),
        "0: in Tag, got empty input\n\n1: in symbol \"CHIP\", got empty input\n\n"
    );
}

#[test]
fn failure_on_missing_in_list() {
    assert_eq!(
        message("CHIP Foo OUT a; PARTS:"),
        "0: at line 1, in TakeUntil:\nCHIP Foo OUT a; PARTS:\n         ^\n\n1: at line 1, in IN:\nCHIP Foo OUT a; PARTS:\n         ^\n\n"
    );
}

#[test]
fn failure_on_missing_out_list() {
    let m = message("CHIP Foo IN a; PARTS: X();");
    assert!(m.contains("in TakeUntil"));
    assert!(m.contains("in OUT:"));
}

#[test]
fn failure_on_missing_parts() {
    let m = message("CHIP Foo IN a; OUT b;\n");
    assert!(m.contains("in symbol \"PARTS:\""));
}

#[test]
fn failure_on_empty_pin_list() {
    let m = message("CHIP Foo\nIN ;\nOUT b; PARTS:");
    assert_eq!(
        m,
        "0: at line 2, in Not:\nIN ;\n   ^\n\n1: at line 2, in Pin:\nIN ;\n   ^\n\n2: at line 2, in Many1:\nIN ;\n   ^\n\n3: at line 2, in IN:\nIN ;\n^\n\n"
    );
}

#[test]
fn failure_on_unterminated_list() {
    assert_eq!(
        message("CHIP Foo IN a, b"),
        "0: at line 1, in Pin:\nCHIP Foo IN a, b\n                ^\n\n1: at line 1, in IN:\nCHIP Foo IN a, b\n         ^\n\n"
    );
}

#[test]
fn failure_column_counts_bytes_of_wide_characters() {
    assert_eq!(
        message("/** é */ aaaa"),
        "0: at line 1, in Tag:\n/** é */ aaaa\n          ^\n\n1: at line 1, in symbol \"CHIP\":\n/** é */ aaaa\n          ^\n\n"
    );
}

#[test]
fn parsing_twice_gives_equal_results() {
    let a = parse_hdl(EXAMPLE).unwrap();
    let b = parse_hdl(EXAMPLE).unwrap();
    assert_eq!(a, b);
    assert_eq!(message("CHIP"), message("CHIP"));
}

#[test]
fn separator_skips_trivia() {
    assert_eq!(separator("  // c\n /** d */\tx y"), "x y");
    assert_eq!(separator("// no line end"), "// no line end");
    assert_eq!(separator("/** open"), "/** open");
    assert_eq!(separator("x"), "x");
}

#[test]
fn io_list_rest_and_error() {
    let (rest, pins) = parse_io_pins("junk IN a[0..1],b ; OUT", "IN").unwrap();
    assert_eq!(pins, vec![p("a", 0, 1), p("b", 0, 0)]);
    assert_eq!(rest, "OUT");
    assert!(parse_io_pins("IN a;", "OUT").is_err());
}

#[test]
fn error_new_keeps_message() {
    let e = HDLParseError::new("boom");
    assert_eq!(e.description(), "boom");
    assert_eq!(e.details, "boom");
}

#[test]
fn pin_debug_string_from_quoted_name() {
    assert_eq!(pin_debug_string("'n'", 1, 1), "Pin { name: 'n', index: 1 }");
    assert_eq!(pin_debug_string("\"n\"", 0, 10), "Pin { name: \"n\", start: 0, end: 10 }");
}

#[test]
fn read_chip_gives_frames_at_character_positions() {
    let s: Vec<char> = "é CHIP X IN ;".chars().collect();
    let frames = read_chip(&s).err().unwrap();
    let positions: Vec<usize> = frames.iter().map(|f| f.0).collect();
    assert_eq!(positions, vec![0, 0]);
    let s: Vec<char> = "CHIP X IN ;".chars().collect();
    let frames = read_chip(&s).err().unwrap();
    let positions: Vec<usize> = frames.iter().map(|f| f.0).collect();
    assert_eq!(positions, vec![10, 10, 10, 7]);
}

#[test]
fn part_names_are_judged_by_the_low_byte_of_the_code_point() {
    // U+0141 has low byte 0x41 ('A'); U+0101 has low byte 0x01
    let (rest, got) = part("\u{141}x(a=b);").unwrap();
    assert_eq!((rest, got.name.as_str()), ("", "\u{141}x"));
    assert!(part("\u{101}x(a=b);").is_err());
    assert_eq!(pin("\u{101}b"), ("", p("\u{101}b", 0, 0)));
}

#[test]
fn unclosed_part_fails_the_chip() {
    let m = message("CHIP X IN a; OUT b; PARTS: Test(a=a");
    assert!(m.contains("in symbol \");\""));
    assert_eq!(
        m,
        "0: at line 1, in Tag:\nCHIP X IN a; OUT b; PARTS: Test(a=a\n                                   ^\n\n1: at line 1, in symbol \");\":\nCHIP X IN a; OUT b; PARTS: Test(a=a\n                                   ^\n\n"
    );
    let m = message("CHIP X IN a; OUT b; PARTS: P(x=a); Q x=a);");
    assert!(m.contains("in symbol \"(\""));
    let m = message("CHIP X IN a; OUT b; PARTS: T(=b);");
    assert!(m.contains("in symbol \");\""));
}

#[test]
fn trivia_between_tokens_changes_nothing() {
    let plain = parse_hdl("CHIP X IN a, b; OUT o; PARTS: T(x=b, y=a[1..2]); U();").unwrap();
    for text in [
        "CHIP X IN a\n, b; OUT o; PARTS: T(x=b, y=a[1..2]); U();",
        "CHIP X IN /** c */ a, // d\n b; OUT o\t; PARTS: T(x=b, y=a[1..2]); U();",
        "CHIP X IN a, b; OUT o; PARTS: T(x=/** c */b, y=a[1..2]); U();",
        "CHIP X IN a, b; OUT o; PARTS: T( x = b /** c */ , y\n=\na[1..2] ); U( );",
        "CHIP X IN a, b; OUT o; PARTS:\nT(x=b,y=a[1..2]);// e\nU();\n",
    ] {
        assert_eq!(parse_hdl(text).unwrap(), plain, "{}", text);
    }
}

#[test]
fn missing_pin_in_a_list_is_named() {
    let m = message("CHIP X IN a,,b; OUT o; PARTS:");
    assert!(m.contains("in Pin:"));
    assert!(m.contains("in IN:"));
}

#[test]
fn canonical_layout_parses_back() {
    // a part closed without its `;` fails the chip
    let m = message("CHIP And16x IN a, b; OUT out; PARTS: Nand(a=a, b=b, out=n) Not(in=n, out=out); ");
    assert!(m.contains("in symbol \");\""));
    let chip = parse_hdl("CHIP And16x IN a, b; OUT out; PARTS: Nand(a=a, b=b, out=n); Not(in=n, out=out); ").unwrap();
    assert_eq!(
        chip.parts[1],
        Part {
            name: "Not".to_string(),
            internal: vec![p("in", 0, 0), p("out", 0, 0)],
            external: vec![p("n", 0, 0), p("out", 0, 0)],
        }
    );
}
