use tauwriter_lsp::incremental::position_char_index;
use ropey::Rope;
use tauwriter_lsp::incremental::{compute_input_edit, input_edit_for};
use tauwriter_lsp::position::{LspPosition, LspRange};

fn range(l1: u32, c1: u32, l2: u32, c2: u32) -> LspRange {
    LspRange { start: LspPosition { line: l1, character: c1 }, end: LspPosition { line: l2, character: c2 } }
}

#[test]
fn test_compute_input_edit_single_line_replace() {
    // "hello world" — replace "world" (chars 6..11) with "there"
    let rope = Rope::from_str("hello world");
    let edit = compute_input_edit(&rope, range(0, 6, 0, 11), "there", 6, 11, 0, 0);
    assert_eq!(edit.start_byte, 6);
    assert_eq!(edit.old_end_byte, 11);
    assert_eq!(edit.new_end_byte, 11);
    assert_eq!(edit.start_position.row, 0);
    assert_eq!(edit.start_position.column, 6);
    assert_eq!(edit.old_end_position.row, 0);
    assert_eq!(edit.old_end_position.column, 11);
    assert_eq!(edit.new_end_position.row, 0);
    assert_eq!(edit.new_end_position.column, 11);
}

#[test]
fn test_compute_input_edit_multiline_insertion() {
    // "hello\nworld" — insert "FOO\nBAR" at position 5 (between lines)
    let rope = Rope::from_str("hello\nworld");
    let edit = compute_input_edit(&rope, range(0, 5, 1, 0), "FOO\nBAR", 5, 5, 0, 1);
    assert_eq!(edit.start_byte, 5);
    assert_eq!(edit.old_end_byte, 5);
    assert_eq!(edit.new_end_byte, 12);
    assert_eq!(edit.start_position.row, 0);
    assert_eq!(edit.start_position.column, 5);
    assert_eq!(edit.new_end_position.row, 1);
    assert_eq!(edit.new_end_position.column, 3);
}

#[test]
fn test_compute_input_edit_no_newlines_in_insertion() {
    let rope = Rope::from_str("abc");
    let edit = compute_input_edit(&rope, range(0, 1, 0, 1), "XY", 1, 1, 0, 0);
    assert_eq!(edit.start_position.row, 0);
    assert_eq!(edit.new_end_position.row, 0);
    assert_eq!(edit.new_end_position.column, 3);
}

#[test]
fn test_compute_input_edit_empty_rope() {
    let rope = Rope::from_str("");
    let edit = compute_input_edit(&rope, range(0, 0, 0, 0), "hello", 0, 0, 0, 0);
    assert_eq!(edit.start_byte, 0);
    assert_eq!(edit.old_end_byte, 0);
    assert_eq!(edit.new_end_byte, 5);
}

#[test]
fn test_compute_input_edit_multiline_old_range() {
    let rope = Rope::from_str("line1\nline2\nline3");
    let edit = compute_input_edit(&rope, range(0, 0, 2, 3), "replaced", 0, 14, 0, 2);
    assert_eq!(edit.old_end_byte, rope.char_to_byte(14));
    assert_eq!(edit.old_end_position.row, 2);
    let end_line_byte = rope.line_to_byte(2);
    assert_eq!(edit.old_end_position.column, (14u32.saturating_sub(end_line_byte as u32)) as usize);
}

#[test]
fn edit_columns_count_bytes() {
    // "héllo\nwörld": é and ö take two bytes each.
    let rope = Rope::from_str("héllo\nwörld");
    // Replace "ö" (char 7) by "o\nO": the new end is one row down, one byte in.
    let edit = compute_input_edit(&rope, range(1, 1, 1, 2), "o\nO", 7, 8, 1, 1);
    assert_eq!(edit.start_byte, 8);
    assert_eq!(edit.old_end_byte, 10);
    assert_eq!(edit.new_end_byte, 11);
    assert_eq!(edit.start_position.column, 1);
    assert_eq!(edit.old_end_position.column, 3);
    assert_eq!(edit.new_end_position.row, 2);
    assert_eq!(edit.new_end_position.column, 1);
    // A line index past the last measures from the end of the text.
    let edit = compute_input_edit(&rope, range(5, 0, 5, 0), "x", 11, 11, 5, 5);
    assert_eq!(edit.start_byte, 13);
    assert_eq!(edit.start_position.column, 0);
    assert_eq!(edit.new_end_position.column, 1);
}

#[test]
fn input_edit_for_checks_the_offsets() {
    let rope = Rope::from_str("hello world");
    assert!(input_edit_for(&rope, range(0, 6, 0, 12), "x", 6, 12, 0, 0).is_none());
    let edit = input_edit_for(&rope, range(0, 6, 0, 11), "there", 6, 11, 0, 0).unwrap();
    assert_eq!(edit, compute_input_edit(&rope, range(0, 6, 0, 11), "there", 6, 11, 0, 0));
}

#[test]
fn carriage_return_line_feed_is_one_line_break() {
    // "a\r\nb": line 1 starts at byte 3, after the CRLF pair.
    let rope = Rope::from_str("a\r\nb");
    let edit = compute_input_edit(&rope, range(1, 0, 1, 1), "x", 3, 4, 1, 1);
    assert_eq!(edit.start_byte, 3);
    assert_eq!(edit.start_position.column, 0);
    assert_eq!(edit.old_end_position.column, 1);
}

#[test]
fn positions_become_character_indices() {
    let rope = Rope::from_str("a😊b\r\nxyz");
    let at = |line: u32, character: u32| LspPosition { line, character };
    // The smiley takes two UTF-16 units and one character.
    assert_eq!(position_char_index(&rope, at(0, 3)), (2, 0));
    // Line 1 starts after the CRLF pair.
    assert_eq!(position_char_index(&rope, at(1, 2)), (7, 1));
    // A column past the line's end stops at the next line's start; a line past the last at the end.
    assert_eq!(position_char_index(&rope, at(0, 40)), (5, 0));
    assert_eq!(position_char_index(&rope, at(5, 0)), (8, 5));
}
