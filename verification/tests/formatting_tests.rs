use tauwriter_lsp::edits::compute_format_edit;
use tauwriter_lsp::formatter::{format_expression, format_source, is_expression_kind};
use tauwriter_lsp::layout::{
    attrs_str_simple, collapse_whitespace, split_words, format_attrs, join_atoms_flat, join_atoms_with_wrap, leading_spaces,
    tag_behavior, TagBehavior,
};
use tauwriter_lsp::position::{LspPosition, LspRange};
use tauwriter_lsp::syntax::SyntaxNode;

fn rng0() -> LspRange {
    LspRange { start: LspPosition { line: 0, character: 0 }, end: LspPosition { line: 0, character: 0 } }
}

fn leaf(kind: &str, field: Option<&str>, text: &str) -> SyntaxNode {
    SyntaxNode {
        kind: kind.to_string(),
        field: field.map(|f| f.to_string()),
        text: text.to_string(),
        range: rng0(),
        has_error: false,
        children: vec![],
    }
}

fn node(kind: &str, text: &str, children: Vec<SyntaxNode>) -> SyntaxNode {
    SyntaxNode { kind: kind.to_string(), field: None, text: text.to_string(), range: rng0(), has_error: false, children }
}

fn field_node(kind: &str, field: &str, text: &str, children: Vec<SyntaxNode>) -> SyntaxNode {
    SyntaxNode {
        kind: kind.to_string(),
        field: Some(field.to_string()),
        text: text.to_string(),
        range: rng0(),
        has_error: false,
        children,
    }
}

fn element(name: &str, content: Vec<SyntaxNode>) -> SyntaxNode {
    let mut children = vec![node("start_tag", "", vec![leaf("tag_name", Some("name"), name)])];
    children.extend(content);
    children.push(node("end_tag", "", vec![leaf("tag_name", Some("name"), name)]));
    node("element", "", children)
}

fn text(t: &str) -> SyntaxNode {
    leaf("text", None, t)
}

#[test]
fn test_formatter_structural_blocks() {
    let content = "<document><body><heading>Title</heading></body></document>";
    let heading = element("heading", vec![text("Title")]);
    let body = node("body_block", "", vec![heading]);
    let document = node("document_block", content, vec![body]);
    let root = node("source_file", content, vec![document]);
    let formatted = format_source(content, "twxml", Some(&root));

    assert!(formatted.contains("<document>"));
    assert!(formatted.contains("</document>"));
    assert_eq!(formatted, "<document>\n  <body>\n    <heading>Title</heading>\n  </body>\n</document>\n");
}

#[test]
fn test_formatter_preserves_meta_under_document() {
    let content = "<document><meta name=\"title\" content=\"Test\" /><body></body></document>";
    let meta = node(
        "self_closing_element",
        "<meta name=\"title\" content=\"Test\" />",
        vec![
            leaf("tag_name", Some("name"), "meta"),
            leaf("attribute", None, "name=\"title\""),
            leaf("attribute", None, "content=\"Test\""),
        ],
    );
    let body = node("body_block", "<body></body>", vec![]);
    let document = node("document_block", content, vec![meta, body]);
    let root = node("source_file", content, vec![document]);
    let formatted = format_source(content, "twxml", Some(&root));

    assert!(formatted.contains("meta"), "Expected meta tag in formatted output, got:\n{}", formatted);
    assert!(formatted.contains("title"), "Expected 'title' attribute in formatted output, got:\n{}", formatted);
    assert!(formatted.contains("Test"), "Expected 'Test' value in formatted output, got:\n{}", formatted);
    assert_eq!(formatted, "<document>\n  <meta name=\"title\" content=\"Test\"/>\n  <body></body>\n</document>\n");
}

#[test]
fn formatter_keeps_text_with_errors_or_other_types() {
    let mut root = node("source_file", "", vec![]);
    root.has_error = true;
    assert_eq!(format_source("<document>", "twxml", Some(&root)), "<document>");
    assert_eq!(format_source("<document>", "twxml", None), "<document>");
    assert_eq!(format_source("plain", "md", None), "plain");
}

#[test]
fn formatter_wraps_prose_and_keeps_breaks() {
    let words = "alpha beta gamma delta epsilon zeta eta theta iota kappa lambda mu nu xi omicron pi rho sigma tau upsilon";
    let br = node("self_closing_element", "<br/>", vec![leaf("tag_name", Some("name"), "br")]);
    let para = element("paragraph", vec![text(words), br, text("  end ,here  ")]);
    let root = node("source_file", "", vec![para]);
    let formatted = format_source("", "twxml", Some(&root));
    assert_eq!(
        formatted,
        "<paragraph>\n  alpha beta gamma delta epsilon zeta eta theta iota kappa lambda mu nu xi omicron pi rho sigma tau\n  upsilon\n  end,here\n</paragraph>\n"
    );
}

#[test]
fn formatter_reindents_code_blocks() {
    let code = element("codeblock", vec![text("\n\n      fn main() {\n          body\n\n      }\n   ")]);
    let section = element("section", vec![code]);
    let root = node("source_file", "", vec![section]);
    let formatted = format_source("", "twxml", Some(&root));
    assert_eq!(formatted, "<section>\n  <codeblock>\n    fn main() {\n        body\n\n    }\n  </codeblock>\n</section>\n");
}

#[test]
fn formatter_hubgs_sections() {
    let import = node(
        "import_statement",
        "",
        vec![leaf("identifier", None, "Person"), leaf("identifier", None, "Place"), leaf("string", None, "'schema.hubgs'")],
    );
    let imports = node("imports_section", "", vec![import]);
    let fields = node(
        "fields_block",
        "",
        vec![node(
            "field_definition",
            "",
            vec![leaf("identifier", None, "name"), leaf(":", None, ":"), leaf("identifier", None, "Text")],
        )],
    );
    let enums = node(
        "enums_block",
        "",
        vec![node(
            "enum_definition",
            "",
            vec![leaf("identifier", None, "Status"), leaf("identifier", None, "Active"), leaf("identifier", None, "Inactive")],
        )],
    );
    let hubs = node(
        "hubs_block",
        "",
        vec![node(
            "hub_definition",
            "",
            vec![leaf("identifier", None, "Person"), leaf("hub_field", None, "name"), leaf("hub_role", None, "home -> (1) ALLOWS [Place]")],
        )],
    );
    let defs = node("definitions_section", "", vec![fields, enums, hubs]);
    let inst = node(
        "instance_block",
        "",
        vec![
            field_node("identifier", "ref", "frodo", vec![]),
            field_node("identifier", "type", "Person", vec![]),
            node("instance_assignment", "", vec![leaf("identifier", None, "name"), leaf("=", None, "="), leaf("string", None, " 'Frodo' ")]),
            node("instance_assignment", "", vec![leaf("identifier", None, "home"), leaf("=", None, "="), leaf("array", None, "[shire]")]),
        ],
    );
    let insts = node("instances_section", "", vec![inst]);
    let root = node("source_file", "", vec![imports, defs, insts]);
    let formatted = format_source("", "hubgs", Some(&root));
    assert_eq!(
        formatted,
        "IMPORTS [\n    [ Person, Place ] FROM 'schema.hubgs'\n],\n\nDEFINITIONS [\n    FIELDS [\n        name: Text\n    ],\n    ENUMS [\n        Status { Active, Inactive }\n    ],\n    HUBS [\n        Person {\n            name,\n            home -> (1) ALLOWS [Place]\n        }\n    ]\n],\n\nINSTANCES [\n    frodo: Person {\n        name = 'Frodo',\n        home = [shire]\n    }\n]\n"
    );
}

#[test]
fn formatter_expressions() {
    let left = field_node("identifier", "left", "first_name", vec![]);
    let op = field_node("+", "operator", "+", vec![]);
    let right = field_node("string", "right", "' '", vec![]);
    let bin = node("binary_expression", "first_name+' '", vec![left, op, right]);
    assert_eq!(format_expression(&bin), "first_name + ' '");
    let callee = field_node(
        "member_expression",
        "function",
        "this.items.map",
        vec![field_node("identifier", "object", "items", vec![]), field_node("property_identifier", "property", "map", vec![])],
    );
    let arrow = node(
        "arrow_function",
        "x=>x",
        vec![field_node("identifier", "parameter", "x", vec![]), field_node("identifier", "body", "x", vec![])],
    );
    let call = node("call_expression", "", vec![callee, arrow, leaf("number", None, "2")]);
    assert_eq!(format_expression(&call), "items.map(x => x, 2)");
    assert!(is_expression_kind("call_expression"));
    assert!(!is_expression_kind("comment"));
}

#[test]
fn layout_helpers() {
    assert_eq!(leading_spaces("   x "), 3);
    assert_eq!(collapse_whitespace(" a \t\n b  "), " a b ");
    assert!(tag_behavior("paragraph") == TagBehavior::ForcedExpandInline);
    assert!(tag_behavior("br") == TagBehavior::Br);
    assert!(tag_behavior("unknown") == TagBehavior::LeafBlock);
    let atoms = vec![Some("Hello".to_string()), Some(",".to_string()), None, Some("world".to_string())];
    assert_eq!(join_atoms_flat(&atoms), "Hello, world");
    assert_eq!(join_atoms_with_wrap(&atoms, 100, 1), "  Hello,\n  world");
    assert_eq!(join_atoms_with_wrap(&vec![Some("aaaa".to_string()), Some("bbbb".to_string())], 8, 0), "aaaa\nbbbb");
    let attrs = vec!["a=\"1\"".to_string(), "b=\"2\"".to_string()];
    assert_eq!(attrs_str_simple(&attrs), " a=\"1\" b=\"2\"");
    assert_eq!(format_attrs(&attrs, "tag", 0), " a=\"1\" b=\"2\"");
    let long: Vec<String> = vec!["x".repeat(60), "y".repeat(60)];
    assert_eq!(format_attrs(&long, "t", 1), format!("\n    {}\n    {}\n  ", "x".repeat(60), "y".repeat(60)));
    assert_eq!(format_attrs(&vec![], "t", 1), "");
}

#[test]
fn test_compute_format_edit_no_change_returns_none() {
    let content = "line1\nline2\nline3";
    assert_eq!(compute_format_edit(content, content), None);
}

#[test]
fn test_compute_format_edit_empty_strings() {
    assert_eq!(compute_format_edit("", ""), None);
}

#[test]
fn test_compute_format_edit_all_lines_changed() {
    let original = "a\nb\nc";
    let formatted = "x\ny\nz";

    let edit = compute_format_edit(original, formatted).expect("expected an edit");

    assert_eq!(edit.range.start.line, 0);
    assert_eq!(edit.range.start.character, 0);
    let orig_lines: Vec<&str> = original.lines().collect();
    assert_eq!(edit.range.end.line, (orig_lines.len() - 1) as u32);
    assert_eq!(edit.range.end.character, orig_lines.last().unwrap().len() as u32);
    assert_eq!(edit.new_text, "x\ny\nz");
}

#[test]
fn test_compute_format_edit_prefix_preserved() {
    let original = "unchanged\nold_line\nend";
    let formatted = "unchanged\nnew_line\nend";

    let edit = compute_format_edit(original, formatted).expect("expected an edit");

    assert_eq!(edit.range.start.line, 1);
    assert_eq!(edit.new_text, "new_line");
}

#[test]
fn test_compute_format_edit_suffix_preserved() {
    let original = "start\nold";
    let formatted = "start\nnew";

    let edit = compute_format_edit(original, formatted).expect("expected an edit");

    assert_eq!(edit.range.start.line, 1);
    assert_eq!(edit.new_text, "new");
}

#[test]
fn test_compute_format_edit_both_prefix_and_suffix() {
    let original = "prefix\nmiddle\nsuffix";
    let formatted = "prefix\nchanged\nsuffix";

    let edit = compute_format_edit(original, formatted).expect("expected an edit");

    assert_eq!(edit.range.start.line, 1);
    assert_eq!(edit.new_text, "changed");
}

#[test]
fn test_compute_format_edit_only_prefix_matches() {
    let original = "unchanged\nold_line";
    let formatted = "unchanged\nnew_line";

    let edit = compute_format_edit(original, formatted).expect("expected an edit");

    assert_eq!(edit.range.start.line, 1);
    assert_eq!(edit.new_text, "new_line");
}

#[test]
fn test_compute_format_edit_only_suffix_matches() {
    let original = "old\nsuffix";
    let formatted = "new\nsuffix";

    let edit = compute_format_edit(original, formatted).expect("expected an edit");

    assert_eq!(edit.range.start.line, 0);
    assert_eq!(edit.new_text, "new");
}

#[test]
fn test_compute_format_edit_multiline_replacement() {
    let original = "a\nold_block";
    let formatted = "a\nfirst\nsecond\nthird";

    let edit = compute_format_edit(original, formatted).expect("expected an edit");

    assert_eq!(edit.range.start.line, 1);
    assert_eq!(edit.new_text, "first\nsecond\nthird");
}

#[test]
fn test_compute_format_edit_single_line_to_multiple() {
    let original = "one";
    let formatted = "first\nsecond";

    let edit = compute_format_edit(original, formatted).expect("expected an edit");

    assert_eq!(edit.range.start.line, 0);
    assert_eq!(edit.new_text, "first\nsecond");
}

#[test]
fn test_compute_format_edit_trailing_newline() {
    let original = "a\nb\n";
    let formatted = "x\ny\n";

    let edit = compute_format_edit(original, formatted).expect("expected an edit");

    assert!(edit.new_text.ends_with('\n'));
}

/// Applies an edit to an ASCII text, positions taken as line and column.
fn apply(text: &str, start: LspPosition, end: LspPosition, new_text: &str) -> String {
    let offset = |p: LspPosition| -> usize {
        let mut off = 0;
        for (i, line) in text.split('\n').enumerate() {
            if i == p.line as usize {
                return off + (p.character as usize).min(line.len());
            }
            off += line.len() + 1;
        }
        text.len()
    };
    format!("{}{}{}", &text[..offset(start)], new_text, &text[offset(end)..])
}

#[test]
fn compute_format_edit_middle_block_keeps_the_last_line() {
    let edit = compute_format_edit("a\nb\nc\nd", "a\nx\ny\nd").expect("expected an edit");
    assert_eq!(edit.range.start, LspPosition { line: 1, character: 0 });
    assert_eq!(edit.range.end, LspPosition { line: 2, character: 1 });
    assert_eq!(edit.new_text, "x\ny");
}

#[test]
fn compute_format_edit_applied_gives_the_formatted_text() {
    let cases = [
        ("", "a\nb"),
        ("a", "a\nb"),
        ("a\nb", "a"),
        ("unchanged\nold_line\nend", "unchanged\nnew_line\nend"),
        ("a\nb\n", "x\ny\n"),
        ("a\nb", "a\nb\nc\n"),
        ("x\n\ny", "x\n\n\ny"),
    ];
    for (original, formatted) in cases {
        let edit = compute_format_edit(original, formatted).expect("expected an edit");
        assert_eq!(apply(original, edit.range.start, edit.range.end, &edit.new_text), formatted);
    }
    // Lines that are the same give no edit, a trailing newline aside.
    assert_eq!(compute_format_edit("a\nb\n", "a\nb"), None);
}

#[test]
fn collapsing_white_space_twice_changes_nothing() {
    let once = collapse_whitespace("  a \n\t b  ");
    assert_eq!(once, " a b ");
    assert_eq!(collapse_whitespace(&once), once);
    assert_eq!(collapse_whitespace("x\u{a0}\u{a0}y"), "x y");
}

#[test]
fn collapsing_white_space_keeps_the_words() {
    let text = " one\ttwo \n three  ";
    assert_eq!(split_words(&collapse_whitespace(text)), split_words(text));
}
