use tauwriter_lsp::multiplicity::Multiplicity;
use tauwriter_lsp::position::{lsp_pos_to_byte_offset, utf16_idx_to_byte_idx, LspPosition};
use tauwriter_lsp::uuid::{generate_uuid_ref, generate_uuid_v4, generate_uuid_v7};

#[test]
fn test_multiplicity_parse_and_validate() {
    // Test Exact
    let m1 = Multiplicity::parse("(1)");
    assert!(m1.validate(1));
    assert!(!m1.validate(0));
    assert!(!m1.validate(2));

    // Test Range *
    let m2 = Multiplicity::parse("*");
    assert!(m2.validate(1));
    assert!(m2.validate(100));
    assert!(!m2.validate(0));

    // Test Range min..max
    let m3 = Multiplicity::parse("1..3");
    assert!(m3.validate(1));
    assert!(m3.validate(2));
    assert!(m3.validate(3));
    assert!(!m3.validate(0));
    assert!(!m3.validate(4));

    // Test Range min..*
    let m4 = Multiplicity::parse("2..*");
    assert!(m4.validate(2));
    assert!(m4.validate(5));
    assert!(!m4.validate(1));
}

#[test]
fn multiplicity_parse_exact_values() {
    assert_eq!(Multiplicity::parse("(1)"), Multiplicity::Exact(1));
    assert_eq!(Multiplicity::parse("*"), Multiplicity::Range(1, None));
    assert_eq!(Multiplicity::parse("1..3"), Multiplicity::Range(1, Some(3)));
    assert_eq!(Multiplicity::parse("2..*"), Multiplicity::Range(2, None));
    assert_eq!(Multiplicity::parse("x..y"), Multiplicity::Range(0, Some(0)));
    assert_eq!(Multiplicity::parse("bogus"), Multiplicity::Range(0, None));
    assert!(Multiplicity::parse("(1)").min_required());
    assert!(!Multiplicity::parse("0..*").min_required());
}

#[test]
fn test_lsp_pos_to_byte_offset_mapping() {
    let content = "line0\nline1\nline2";
    let pos = LspPosition { line: 1, character: 2 };
    let offset = lsp_pos_to_byte_offset(content.as_bytes(), pos);
    // "line0\n" is 6 bytes. "li" is 2 bytes. Total offset should be 8.
    assert_eq!(offset, 8);
}

#[test]
fn lsp_pos_past_the_end() {
    let content = "ab\ncd";
    assert_eq!(lsp_pos_to_byte_offset(content.as_bytes(), LspPosition { line: 5, character: 0 }), 5);
    assert_eq!(lsp_pos_to_byte_offset(content.as_bytes(), LspPosition { line: 0, character: 9 }), 2);
    assert_eq!(lsp_pos_to_byte_offset("h\u{e9}llo".as_bytes(), LspPosition { line: 0, character: 2 }), 3);
}

#[test]
fn lib_tests_test_utf16_idx_to_byte_idx() {
    // ASCII
    assert_eq!(utf16_idx_to_byte_idx("hello", 0), 0);
    assert_eq!(utf16_idx_to_byte_idx("hello", 2), 2);
    assert_eq!(utf16_idx_to_byte_idx("hello", 10), 5);

    // Multi-byte Unicode (curly quotes: 3 bytes each, 1 UTF-16 code unit each)
    let s = "\u{201C}hello\u{201D}";
    assert_eq!(utf16_idx_to_byte_idx(s, 0), 0);
    assert_eq!(utf16_idx_to_byte_idx(s, 1), 3);
    assert_eq!(utf16_idx_to_byte_idx(s, 6), 8);

    // Surrogate pairs (4 bytes, 2 UTF-16 code units)
    let smiley = "a\u{1F60A}b";
    assert_eq!(utf16_idx_to_byte_idx(smiley, 0), 0);
    assert_eq!(utf16_idx_to_byte_idx(smiley, 1), 1);
    assert_eq!(utf16_idx_to_byte_idx(smiley, 2), 5);
    assert_eq!(utf16_idx_to_byte_idx(smiley, 3), 5);
    assert_eq!(utf16_idx_to_byte_idx(smiley, 4), 6);
}

#[test]
fn lib_test_utf16_idx_to_byte_idx() {
    assert_eq!(utf16_idx_to_byte_idx("hello", 0), 0);
    assert_eq!(utf16_idx_to_byte_idx("hello", 2), 2);
    assert_eq!(utf16_idx_to_byte_idx("hello", 10), 5);
    let s = "\u{201C}hello\u{201D}";
    assert_eq!(utf16_idx_to_byte_idx(s, 0), 0);
    assert_eq!(utf16_idx_to_byte_idx(s, 1), 3);
    assert_eq!(utf16_idx_to_byte_idx(s, 6), 8);
    let smiley = "a\u{1F60A}b";
    assert_eq!(utf16_idx_to_byte_idx(smiley, 0), 0);
    assert_eq!(utf16_idx_to_byte_idx(smiley, 1), 1);
    assert_eq!(utf16_idx_to_byte_idx(smiley, 2), 5);
    assert_eq!(utf16_idx_to_byte_idx(smiley, 3), 5);
    assert_eq!(utf16_idx_to_byte_idx(smiley, 4), 6);
}

#[test]
fn test_utf16_idx_to_byte_idx_2() {
    assert_eq!(utf16_idx_to_byte_idx("h\u{00E9}llo", 2), 3);
    assert_eq!(utf16_idx_to_byte_idx("\u{1F389}\u{1F38A}", 1), 4);
}

fn check_uuid_shape(u: &str, version: char) {
    assert_eq!(u.len(), 36);
    let parts: Vec<&str> = u.split('-').collect();
    assert_eq!(parts.len(), 5);
    assert_eq!(parts[0].len(), 8);
    assert_eq!(parts[1].len(), 4);
    assert_eq!(parts[2].len(), 4);
    assert_eq!(parts[3].len(), 4);
    assert_eq!(parts[4].len(), 12);
    assert_eq!(parts[2].chars().next(), Some(version));
    let var_char = parts[3].chars().next().unwrap().to_ascii_lowercase();
    assert!(vec!['8', '9', 'a', 'b'].contains(&var_char));
}

#[test]
fn test_uuid_v4_generation_format() {
    let uuid_v4 = generate_uuid_v4();
    check_uuid_shape(&uuid_v4, '4');
}

#[test]
fn test_uuid_v7_generation_format() {
    let uuid_v7 = generate_uuid_v7();
    check_uuid_shape(&uuid_v7, '7');
    let uuid_ref = generate_uuid_ref();
    assert_eq!(uuid_ref.len(), 36);
    let ref_parts: Vec<&str> = uuid_ref.split('-').collect();
    assert_eq!(ref_parts.len(), 5);
    assert_eq!(ref_parts[2].chars().next(), Some('7'));
}

#[test]
fn test_uuid_randomness() {
    let u1 = generate_uuid_v4();
    let u2 = generate_uuid_v4();
    let u3 = generate_uuid_v7();
    let u4 = generate_uuid_v7();
    assert_ne!(u1, u2);
    assert_ne!(u3, u4);
    assert_ne!(u1, u3);
}
