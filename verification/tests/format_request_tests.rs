use tauwriter_lsp::format_edits::{extract_opening_tag_name, formatting_edits, on_type_formatting, range_formatting_edits};
use tauwriter_lsp::position::{LspPosition, LspRange};
use tauwriter_lsp::syntax::SyntaxNode;

fn rng(l1: u32, c1: u32, l2: u32, c2: u32) -> LspRange {
    LspRange { start: LspPosition { line: l1, character: c1 }, end: LspPosition { line: l2, character: c2 } }
}

fn pos(line: u32, character: u32) -> LspPosition {
    LspPosition { line, character }
}

#[test]
fn opening_tag_names() {
    assert_eq!(extract_opening_tag_name("  <section id=\"1\">", 18), Some("section".to_string()));
    // Trailing white space before the cursor is dropped.
    assert_eq!(extract_opening_tag_name("<p>  ", 5), Some("p".to_string()));
    // A cursor past the end takes the whole line.
    assert_eq!(extract_opening_tag_name("<bold>", 99), Some("bold".to_string()));
    // The cursor cuts the line.
    assert_eq!(extract_opening_tag_name("<a><b>", 3), Some("a".to_string()));
    // Closing, self-closing, comments, and text without a tag.
    assert_eq!(extract_opening_tag_name("</section>", 10), None);
    // A tag the rest of the line already closes is balanced.
    assert_eq!(extract_opening_tag_name("<b></b>", 3), None);
    assert_eq!(extract_opening_tag_name("<b> </b>", 3), Some("b".to_string()));
    assert_eq!(extract_opening_tag_name("<br/>", 5), None);
    assert_eq!(extract_opening_tag_name("<!-- x -->", 10), None);
    assert_eq!(extract_opening_tag_name("plain >", 7), None);
    assert_eq!(extract_opening_tag_name("<>", 2), None);
    assert_eq!(extract_opening_tag_name("<p", 2), None);
    assert_eq!(extract_opening_tag_name("", 0), None);
}

#[test]
fn closing_tags_typed() {
    let content = "<document>\n  <section>\n</document>";
    let edits = on_type_formatting(">", "/d/x.twxml", content, pos(1, 11)).unwrap();
    assert_eq!(edits.len(), 1);
    assert_eq!(edits[0].range, rng(1, 11, 1, 11));
    assert_eq!(edits[0].new_text, "</section>");
    // Another character, another file type, a line that does not exist,
    // and the `metadata` tag give nothing.
    assert!(on_type_formatting("a", "/d/x.twxml", content, pos(1, 11)).is_none());
    assert!(on_type_formatting(">", "/d/x.hubgs", content, pos(1, 11)).is_none());
    assert!(on_type_formatting(">", "/d/x.twxml", content, pos(9, 0)).is_none());
    assert!(on_type_formatting(">", "/d/x.twxml", "<metadata>", pos(0, 10)).is_none());
}

fn leaf(kind: &str, text: &str, start: u32) -> SyntaxNode {
    SyntaxNode {
        kind: kind.to_string(),
        field: None,
        text: text.to_string(),
        range: rng(0, start, 0, start + text.len() as u32),
        has_error: false,
        children: vec![],
    }
}

#[test]
fn whole_document_and_range_formatting() {
    // A file of another type is not formatted.
    assert!(formatting_edits("/d/notes.txt", "x", None).is_none());
    assert!(range_formatting_edits("/d/notes.txt", "x", rng(0, 0, 0, 1), None).is_none());
    // A TWXML document without a tree is kept as it is.
    let content = "line one\nline two é";
    let edits = formatting_edits("/d/a.twxml", content, None).unwrap();
    assert_eq!(edits.len(), 1);
    assert_eq!(edits[0].range, rng(0, 0, 1, 11));
    assert_eq!(edits[0].new_text, content);
    assert!(range_formatting_edits("/d/a.twxml", content, rng(0, 0, 1, 0), None).unwrap().is_empty());
    // A HubGS document is laid out from its tree: an empty tree gives a newline.
    let root = SyntaxNode {
        kind: "document".to_string(),
        field: None,
        text: "x".to_string(),
        range: rng(0, 0, 0, 1),
        has_error: false,
        children: vec![leaf("comment", "x", 0)],
    };
    let edits = formatting_edits("/d/a.hubgs", "x", Some(&root)).unwrap();
    assert_eq!(edits[0].new_text, "\n");
    assert_eq!(edits[0].range, rng(0, 0, 0, 1));
    let ranged = range_formatting_edits("/d/a.hubgs", "x", rng(0, 0, 0, 1), Some(&root)).unwrap();
    assert_eq!(ranged.len(), 1);
    assert_eq!(ranged[0].range, rng(0, 0, 0, 1));
    // The edit is dropped when it does not reach the requested lines.
    assert!(range_formatting_edits("/d/a.hubgs", "x", rng(3, 0, 4, 0), Some(&root)).unwrap().is_empty());
}
