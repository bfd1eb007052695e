use fmi::pattern::{MatchType, MemoryPattern, PatternError};

fn compiled(text: &str) -> Vec<(u8, MatchType)> {
    MemoryPattern::from_string(0, text).unwrap().data
}

fn rejected(text: &str) -> (usize, usize) {
    match MemoryPattern::from_string(0, text) {
        Err(PatternError::InvalidToken { start, end }) => (start, end),
        Ok(pattern) => panic!("compiled to {:?}", pattern),
    }
}

#[test]
fn it_works() {
    assert_eq!(2 + 2, 4);
}

#[test]
fn exact_bytes_compile_in_order() {
    assert_eq!(
        compiled("8B 45 B0 89"),
        vec![
            (0x8Bu8, MatchType::Both),
            (0x45u8, MatchType::Both),
            (0xB0u8, MatchType::Both),
            (0x89u8, MatchType::Both)
        ]
    );
}

#[test]
fn hex_digits_of_either_case() {
    assert_eq!(compiled("ff Ff fF 0a"), vec![
        (0xFFu8, MatchType::Both),
        (0xFFu8, MatchType::Both),
        (0xFFu8, MatchType::Both),
        (0x0Au8, MatchType::Both)
    ]);
    assert_eq!(compiled("00"), vec![(0x00u8, MatchType::Both)]);
    assert_eq!(compiled("09 10 a0 Af"), vec![
        (0x09u8, MatchType::Both),
        (0x10u8, MatchType::Both),
        (0xA0u8, MatchType::Both),
        (0xAFu8, MatchType::Both)
    ]);
}

#[test]
fn single_wildcards() {
    assert_eq!(compiled("*"), vec![(0x00u8, MatchType::Neither)]);
    assert_eq!(compiled("?"), vec![(0x00u8, MatchType::Neither)]);
}

#[test]
fn double_wildcards() {
    assert_eq!(compiled("??"), vec![(0x00u8, MatchType::Neither)]);
    assert_eq!(compiled("**"), vec![(0x00u8, MatchType::Neither)]);
    assert_eq!(compiled("*?"), vec![(0x00u8, MatchType::Neither)]);
    assert_eq!(compiled("?*"), vec![(0x00u8, MatchType::Neither)]);
}

#[test]
fn high_nibble_token() {
    assert_eq!(compiled("4?"), vec![(0x40u8, MatchType::Left)]);
    assert_eq!(compiled("f*"), vec![(0xF0u8, MatchType::Left)]);
    assert_eq!(compiled("0?"), vec![(0x00u8, MatchType::Left)]);
}

#[test]
fn low_nibble_token() {
    assert_eq!(compiled("?4"), vec![(0x04u8, MatchType::Right)]);
    assert_eq!(compiled("*F"), vec![(0x0Fu8, MatchType::Right)]);
    assert_eq!(compiled("?0"), vec![(0x00u8, MatchType::Right)]);
}

#[test]
fn offset_is_kept() {
    let pattern = MemoryPattern::from_string(7, "8B ??").unwrap();
    assert_eq!(pattern.offset, 7);
    assert_eq!(pattern.data.len(), 2);
}

#[test]
fn any_whitespace_separates() {
    let expected = vec![(0x8Bu8, MatchType::Both), (0x45u8, MatchType::Both)];
    assert_eq!(compiled("8B 45"), expected);
    assert_eq!(compiled("  8B\t45\n"), expected);
    assert_eq!(compiled("\r\n8B\r\n45\r\n"), expected);
    assert_eq!(compiled("8B\u{0B}45\u{0C}"), expected);
    assert_eq!(compiled("8B\u{85}45"), expected);
    assert_eq!(compiled("8B\u{A0}45"), expected);
    assert_eq!(compiled("8B\u{1680}45"), expected);
    assert_eq!(compiled("8B\u{2000}45\u{200A}"), expected);
    assert_eq!(compiled("8B\u{2028}\u{2029}45"), expected);
    assert_eq!(compiled("8B\u{202F}45\u{205F}"), expected);
    assert_eq!(compiled("\u{3000}8B\u{3000}45\u{3000}"), expected);
}

#[test]
fn whitespace_is_what_std_calls_whitespace() {
    let mut code: u32 = 0;
    while code < 0x3100 {
        if let Some(c) = char::from_u32(code) {
            let text = format!("8B{}45", c);
            let two = MemoryPattern::from_string(0, &text).map(|p| p.data.len()) == Ok(2);
            assert_eq!(two, c.is_whitespace(), "U+{:04X}", code);
        }
        code += 1;
    }
}

#[test]
fn characters_near_whitespace_are_none() {
    assert_eq!(rejected("8B\u{200B}45"), (0, 5));
    assert_eq!(rejected("8B\u{1F}45"), (0, 5));
    assert_eq!(rejected("8B\u{0}45"), (0, 5));
}

#[test]
fn multi_line_text() {
    let pattern = MemoryPattern::from_string(
        0,
        r#"
            8B 45 B0
            89 45 C4
            48 8B 4D C8
            8B 55 C4
            E8 13 FF FF FF
        "#,
    )
    .unwrap();
    assert_eq!(pattern.data.len(), 18);
    assert_eq!(pattern.data[0], (0x8Bu8, MatchType::Both));
    assert_eq!(pattern.data[8], (0x4Du8, MatchType::Both));
    assert_eq!(pattern.data[17], (0xFFu8, MatchType::Both));
}

#[test]
fn single_character_that_is_no_wildcard_fails() {
    assert_eq!(rejected("4"), (0, 1));
    assert_eq!(rejected("A"), (0, 1));
    assert_eq!(rejected("+"), (0, 1));
    assert_eq!(rejected("\u{E9}"), (0, 1));
    assert_eq!(rejected("8B x 45"), (3, 4));
}

#[test]
fn every_single_ascii_character_but_the_wildcards_fails() {
    let mut code: u8 = 0x21;
    while code < 0x7F {
        let c = code as char;
        let result = MemoryPattern::from_string(0, &c.to_string());
        if c == '*' || c == '?' {
            assert_eq!(result.unwrap().data, vec![(0u8, MatchType::Neither)]);
        } else {
            assert_eq!(result, Err(PatternError::InvalidToken { start: 0, end: 1 }));
        }
        code += 1;
    }
}

#[test]
fn long_tokens_fail() {
    assert_eq!(rejected("8B4"), (0, 3));
    assert_eq!(rejected("???"), (0, 3));
    assert_eq!(rejected("8B45"), (0, 4));
    assert_eq!(rejected("8B 45C4 ??"), (3, 7));
    assert_eq!(rejected("0x8B"), (0, 4));
}

#[test]
fn text_without_token_fails_as_empty_token_at_its_end() {
    assert_eq!(rejected(""), (0, 0));
    assert_eq!(rejected("   "), (3, 3));
    assert_eq!(rejected("\n\t\u{3000}"), (3, 3));
}

#[test]
fn digits_outside_hexadecimal_fail() {
    assert_eq!(rejected("G0"), (0, 2));
    assert_eq!(rejected("0g"), (0, 2));
    assert_eq!(rejected("?g"), (0, 2));
    assert_eq!(rejected("z?"), (0, 2));
    assert_eq!(rejected("8B ZZ"), (3, 5));
    assert_eq!(rejected("/0"), (0, 2));
    assert_eq!(rejected(":0"), (0, 2));
    assert_eq!(rejected("@0"), (0, 2));
    assert_eq!(rejected("`0"), (0, 2));
}

#[test]
fn a_sign_is_no_digit() {
    assert_eq!(rejected("+4"), (0, 2));
    assert_eq!(rejected("-4"), (0, 2));
    assert_eq!(rejected("?+"), (0, 2));
    assert_eq!(rejected("+?"), (0, 2));
}

#[test]
fn characters_beyond_ascii_fail() {
    assert_eq!(rejected("\u{E9}\u{E9}"), (0, 2));
    assert_eq!(rejected("?\u{E9}"), (0, 2));
    assert_eq!(rejected("\u{E9}?"), (0, 2));
    assert_eq!(rejected("\u{FF10}\u{FF11}"), (0, 2));
}

#[test]
fn first_malformed_token_is_reported() {
    assert_eq!(rejected("8B xx 45 yyy"), (3, 5));
    assert_eq!(rejected("  zz 8B q"), (2, 4));
    assert_eq!(rejected("\u{3000}8B\u{3000}\u{E9}q\u{3000}zz"), (4, 6));
}

#[test]
fn compiled_patterns_are_well_formed() {
    let pattern = MemoryPattern::from_string(3, "8B 4? ?4 ?? * FF").unwrap();
    assert!(pattern.is_well_formed());
}

#[test]
fn ill_formed_patterns_are_told_apart() {
    let empty = MemoryPattern { data: vec![], offset: 0 };
    assert!(!empty.is_well_formed());
    let low_bits = MemoryPattern { data: vec![(0x41u8, MatchType::Left)], offset: 0 };
    assert!(!low_bits.is_well_formed());
    let high_bits = MemoryPattern { data: vec![(0x14u8, MatchType::Right)], offset: 0 };
    assert!(!high_bits.is_well_formed());
    let any_bits = MemoryPattern { data: vec![(0x01u8, MatchType::Neither)], offset: 0 };
    assert!(!any_bits.is_well_formed());
    let fine = MemoryPattern {
        data: vec![
            (0x41u8, MatchType::Both),
            (0x40u8, MatchType::Left),
            (0x04u8, MatchType::Right),
            (0x00u8, MatchType::Neither),
        ],
        offset: 9,
    };
    assert!(fine.is_well_formed());
}

#[test]
fn text_of_a_pattern() {
    let pattern = MemoryPattern::from_string(0, " 8b\t4? ?c * ?? 05").unwrap();
    assert_eq!(pattern.to_text(), "8B 4? ?C ?? ?? 05");
    let one = MemoryPattern::from_string(0, "a?").unwrap();
    assert_eq!(one.to_text(), "A?");
    let none = MemoryPattern { data: vec![], offset: 0 };
    assert_eq!(none.to_text(), "");
}

#[test]
fn text_compiles_to_the_same_elements() {
    let pattern = MemoryPattern::from_string(5, "8B 45 ?? 4? ?4 * 00 fF").unwrap();
    let again = MemoryPattern::from_string(5, &pattern.to_text()).unwrap();
    assert_eq!(again, pattern);
}

#[test]
fn every_element_survives_the_text() {
    let mut data: Vec<(u8, MatchType)> = Vec::new();
    let mut byte: u16 = 0;
    while byte < 256 {
        data.push((byte as u8, MatchType::Both));
        byte += 1;
    }
    let mut nibble: u8 = 0;
    while nibble < 16 {
        data.push((nibble << 4, MatchType::Left));
        data.push((nibble, MatchType::Right));
        nibble += 1;
    }
    data.push((0u8, MatchType::Neither));
    let pattern = MemoryPattern { data, offset: 2 };
    assert!(pattern.is_well_formed());
    let again = MemoryPattern::from_string(2, &pattern.to_text()).unwrap();
    assert_eq!(again, pattern);
}
