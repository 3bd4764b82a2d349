use tauwriter_lsp::hubgs_tree::{get_hub_type_at_position, get_hubgs_completion_context, is_in_hub_definition, HubgsCompletionContext};
use tauwriter_lsp::position::{LspPosition, LspRange};
use tauwriter_lsp::syntax::SyntaxNode;
use tauwriter_lsp::tree_query::{descend, enter_child};
use tauwriter_lsp::twxml_tree::{
    find_review_at_position, get_all_twxml_tags, get_twxml_completion_context, parse_twxml_ast, recursive_text,
    TwxmlCompletionContext,
};

fn rng(l1: u32, c1: u32, l2: u32, c2: u32) -> LspRange {
    LspRange { start: LspPosition { line: l1, character: c1 }, end: LspPosition { line: l2, character: c2 } }
}

fn pos(line: u32, character: u32) -> LspPosition {
    LspPosition { line, character }
}

fn node(kind: &str, field: Option<&str>, text: &str, range: LspRange, children: Vec<SyntaxNode>) -> SyntaxNode {
    SyntaxNode {
        kind: kind.to_string(),
        field: field.map(|f| f.to_string()),
        text: text.to_string(),
        range,
        has_error: false,
        children,
    }
}

/// A node on line `line` from column `c` spanning `text`.
fn on_line(kind: &str, field: Option<&str>, text: &str, line: u32, c: u32, children: Vec<SyntaxNode>) -> SyntaxNode {
    node(kind, field, text, rng(line, c, line, c + text.len() as u32), children)
}

fn attr(name: &str, value: &str, line: u32, c: u32) -> SyntaxNode {
    let n = name.len() as u32;
    on_line(
        "attribute",
        None,
        &format!("{}={}", name, value),
        line,
        c,
        vec![
            on_line("attribute_name", None, name, line, c, vec![]),
            on_line("=", None, "=", line, c + n, vec![]),
            on_line("quoted_attribute_value", None, value, line, c + n + 1, vec![]),
        ],
    )
}

// <document><body>
//   <paragraph>
//     <hubref id="aragorn" field="name">Strider</hubref>
//   </paragraph>
// </body></document>
const STORY: &str = "<document><body>\n  <paragraph>\n    <hubref id=\"aragorn\" field=\"name\">Strider</hubref>\n  </paragraph>\n</body></document>";

fn story_tree() -> SyntaxNode {
    let hubref_start = on_line(
        "start_tag",
        None,
        "<hubref id=\"aragorn\" field=\"name\">",
        2,
        4,
        vec![
            on_line("tag_name", Some("name"), "hubref", 2, 5, vec![]),
            attr("id", "\"aragorn\"", 2, 12),
            attr("field", "\"name\"", 2, 25),
        ],
    );
    let hubref = on_line(
        "element",
        None,
        "<hubref id=\"aragorn\" field=\"name\">Strider</hubref>",
        2,
        4,
        vec![
            hubref_start,
            on_line("text", None, "Strider", 2, 38, vec![]),
            on_line("end_tag", None, "</hubref>", 2, 45, vec![on_line("tag_name", Some("name"), "hubref", 2, 47, vec![])]),
        ],
    );
    let paragraph = node(
        "element",
        None,
        "<paragraph>...</paragraph>",
        rng(1, 2, 3, 14),
        vec![
            on_line("start_tag", None, "<paragraph>", 1, 2, vec![on_line("tag_name", Some("name"), "paragraph", 1, 3, vec![])]),
            hubref,
            on_line("end_tag", None, "</paragraph>", 3, 2, vec![on_line("tag_name", Some("name"), "paragraph", 3, 4, vec![])]),
        ],
    );
    let body = node("body_block", None, "<body>...</body>", rng(0, 10, 4, 7), vec![paragraph]);
    let document = node("document_block", None, STORY, rng(0, 0, 4, 18), vec![body]);
    node("source_file", None, STORY, rng(0, 0, 4, 18), vec![document])
}

#[test]
fn test_twxml_completion_contexts() {
    let content = STORY;
    let tree = story_tree();

    let pos_id = pos(2, 17);
    let ctx_id = get_twxml_completion_context(content, pos_id, &tree);
    assert!(matches!(ctx_id, TwxmlCompletionContext::HubrefId));

    let pos_field = pos(2, 32);
    let ctx_field = get_twxml_completion_context(content, pos_field, &tree);
    if let TwxmlCompletionContext::HubrefField { id_val } = ctx_field {
        assert_eq!(id_val, "aragorn");
    } else {
        panic!("Expected HubrefField context");
    }
}

#[test]
fn twxml_tag_context_after_open_angle() {
    // "  <paragraph>\n    <" with the cursor right after the last `<`.
    let content = "<document><body>\n  <paragraph>\n    <h\n  </paragraph>\n</body></document>";
    let partial = node("ERROR", None, "<h", rng(2, 4, 2, 6), vec![]);
    let paragraph = node(
        "element",
        None,
        "<paragraph>...</paragraph>",
        rng(1, 2, 3, 14),
        vec![
            on_line("start_tag", None, "<paragraph>", 1, 2, vec![on_line("tag_name", Some("name"), "paragraph", 1, 3, vec![])]),
            partial,
            on_line("end_tag", None, "</paragraph>", 3, 2, vec![on_line("tag_name", Some("name"), "paragraph", 3, 4, vec![])]),
        ],
    );
    let body = node("body_block", None, "<body>...</body>", rng(0, 10, 4, 7), vec![paragraph]);
    let document = node("document_block", None, content, rng(0, 0, 4, 18), vec![body]);
    let root = node("source_file", None, content, rng(0, 0, 4, 18), vec![document]);

    // Just after `<`: the node under the cursor is the partial tag, inside
    // `paragraph`.
    match get_twxml_completion_context(content, pos(2, 5), &root) {
        TwxmlCompletionContext::Tag { parent } => assert_eq!(parent.as_deref(), Some("paragraph")),
        _ => panic!("expected a tag context"),
    }
    // After `<h` the cursor is at the end of the partial tag, so the node
    // under it is the paragraph itself, and the container above is `body`.
    match get_twxml_completion_context(content, pos(2, 6), &root) {
        TwxmlCompletionContext::Tag { parent } => assert_eq!(parent.as_deref(), Some("body")),
        _ => panic!("expected a tag context"),
    }
    let doc = "<document><body><</body></document>";
    let tree = node(
        "source_file",
        None,
        doc,
        rng(0, 0, 0, 35),
        vec![node(
            "document_block",
            None,
            doc,
            rng(0, 0, 0, 35),
            vec![node("body_block", None, "<body><</body>", rng(0, 10, 0, 24), vec![node("ERROR", None, "<", rng(0, 16, 0, 17), vec![])])],
        )],
    );
    match get_twxml_completion_context(doc, pos(0, 17), &tree) {
        TwxmlCompletionContext::Tag { parent } => assert_eq!(parent.as_deref(), Some("document")),
        _ => panic!("expected a tag context"),
    }
    // A closing tag or a comment opener is no tag context.
    let closing = "</";
    let flat = node("source_file", None, closing, rng(0, 0, 0, 2), vec![]);
    assert!(matches!(get_twxml_completion_context(closing, pos(0, 2), &flat), TwxmlCompletionContext::Nothing));
    let comment = "<!--";
    let flat = node("source_file", None, comment, rng(0, 0, 0, 4), vec![]);
    assert!(matches!(get_twxml_completion_context(comment, pos(0, 4), &flat), TwxmlCompletionContext::Nothing));
    // A cursor past the end of its line, or on a line that does not exist.
    assert!(matches!(get_twxml_completion_context("<a", pos(0, 9), &flat), TwxmlCompletionContext::Nothing));
    assert!(matches!(get_twxml_completion_context("<a", pos(3, 0), &flat), TwxmlCompletionContext::Nothing));
}

#[test]
fn twxml_completion_outside_attributes() {
    let tree = story_tree();
    // In the text of the hubref: no attribute is on the way up.
    assert!(matches!(get_twxml_completion_context(STORY, pos(2, 40), &tree), TwxmlCompletionContext::Nothing));
    // On the tag name of the hubref, the text before the cursor opens a tag.
    match get_twxml_completion_context(STORY, pos(2, 7), &tree) {
        TwxmlCompletionContext::Tag { parent } => assert_eq!(parent.as_deref(), Some("hubref")),
        _ => panic!("expected a tag context"),
    }
}

#[test]
fn descent_enters_first_child_holding_the_position() {
    let tree = story_tree();
    let path = descend(&tree, pos(2, 17));
    let kinds: Vec<&str> = path.iter().map(|n| n.kind.as_str()).collect();
    assert_eq!(
        kinds,
        vec!["source_file", "document_block", "body_block", "element", "element", "start_tag", "attribute", "quoted_attribute_value"]
    );
    // The end of a range is outside it: at column 24 the `id` attribute is behind.
    let path = descend(&tree, pos(2, 24));
    assert_eq!(path.last().unwrap().kind, "start_tag");
    // An empty child is entered only at its own position.
    let empty = node("missing", None, "", rng(0, 3, 0, 3), vec![]);
    let parent = node("element", None, "abcdef", rng(0, 0, 0, 6), vec![empty]);
    assert_eq!(enter_child(&parent, pos(0, 3)), Some(0));
    assert_eq!(enter_child(&parent, pos(0, 2)), None);
    assert_eq!(enter_child(&parent, pos(0, 4)), None);
}

#[test]
fn parse_twxml_ast_reads_hubrefs() {
    let tree = story_tree();
    let refs = parse_twxml_ast("story.twxml", &tree);
    assert_eq!(refs.len(), 1);
    let r = &refs[0];
    assert_eq!(r.name, "aragorn");
    assert_eq!(r.file, "story.twxml");
    assert_eq!(r.range, rng(2, 15, 2, 24));
    assert_eq!(r.field.as_deref(), Some("name"));
    assert_eq!(r.text.as_deref(), Some("Strider"));
    assert_eq!(r.tag_range, rng(2, 4, 2, 54));
    assert!(!r.is_reviewed);
    assert_eq!(recursive_text(&tree), "Strider");
}

fn review_tree() -> SyntaxNode {
    // <review><hubref id='frodo' field="name">  Mr. Underhill </hubref><hubref field="x"/></review>
    let text = "<review><hubref id='frodo' field=\"name\">  Mr. Underhill </hubref><hubref field=\"x\"/></review>";
    let inner_start = on_line(
        "start_tag",
        None,
        "<hubref id='frodo' field=\"name\">",
        0,
        8,
        vec![on_line("tag_name", Some("name"), "hubref", 0, 9, vec![]), attr("id", "'frodo'", 0, 16), attr("field", "\"name\"", 0, 27)],
    );
    let inner = on_line(
        "element",
        None,
        "<hubref id='frodo' field=\"name\">  Mr. Underhill </hubref>",
        0,
        8,
        vec![
            inner_start,
            on_line("text", None, "  Mr. Underhill ", 0, 40, vec![]),
            on_line("end_tag", None, "</hubref>", 0, 56, vec![on_line("tag_name", Some("name"), "hubref", 0, 58, vec![])]),
        ],
    );
    let lone = on_line(
        "self_closing_element",
        None,
        "<hubref field=\"x\"/>",
        0,
        65,
        vec![on_line("tag_name", Some("name"), "hubref", 0, 66, vec![]), attr("field", "\"x\"", 0, 73)],
    );
    let review = on_line(
        "element",
        None,
        text,
        0,
        0,
        vec![
            on_line("start_tag", None, "<review>", 0, 0, vec![on_line("tag_name", Some("name"), "review", 0, 1, vec![])]),
            inner,
            lone,
            on_line("end_tag", None, "</review>", 0, 84, vec![on_line("tag_name", Some("name"), "review", 0, 86, vec![])]),
        ],
    );
    on_line("source_file", None, text, 0, 0, vec![review])
}

#[test]
fn hubrefs_under_review_are_reviewed() {
    let tree = review_tree();
    let refs = parse_twxml_ast("r.twxml", &tree);
    // The self-closing hubref has no id and gives no reference.
    assert_eq!(refs.len(), 1);
    assert_eq!(refs[0].name, "frodo");
    assert_eq!(refs[0].text.as_deref(), Some("Mr. Underhill"));
    assert!(refs[0].is_reviewed);
}

#[test]
fn review_lookup_reads_the_first_child_of_the_start_tag() {
    let tree = review_tree();
    // Inside the hubref: the hubref under a review is found, but its
    // attributes are read from the first child of its start tag, which
    // here is the tag name: no id, so nothing.
    assert_eq!(find_review_at_position(&tree, pos(0, 45)), None);
    // Outside any element.
    let flat = on_line("source_file", None, "plain", 0, 0, vec![]);
    assert_eq!(find_review_at_position(&flat, pos(0, 2)), None);
}

#[test]
fn review_lookup_with_attributes_on_the_first_child() {
    // A hubref whose start tag's first child carries the attributes.
    let carrier = on_line("tag_head", None, "x", 0, 9, vec![attr("id", "\"sam\"", 0, 9), attr("field", "'role'", 0, 20)]);
    let hub_start = on_line("start_tag", None, "<hubref ...>", 0, 8, vec![carrier, on_line("tag_name", Some("name"), "hubref", 0, 9, vec![])]);
    let hub = on_line("element", None, "<hubref ...>Sam</hubref>", 0, 8, vec![hub_start, on_line("text", None, "Sam", 0, 20, vec![])]);
    let review = on_line(
        "element",
        None,
        "<review><hubref ...>Sam</hubref></review>",
        0,
        0,
        vec![on_line("start_tag", None, "<review>", 0, 0, vec![on_line("tag_name", Some("name"), "review", 0, 1, vec![])]), hub],
    );
    let root = on_line("source_file", None, "<review>...</review>", 0, 0, vec![review]);
    // On the review's start tag: the review element is the anchor.
    let found = find_review_at_position(&root, pos(0, 2));
    let (review_range, hub_range, id, field, text) = found.expect("a review");
    assert_eq!(review_range, rng(0, 0, 0, 41));
    assert_eq!(hub_range, rng(0, 8, 0, 20));
    assert_eq!(id, "sam");
    assert_eq!(field, "role");
    // The text of the returned start tag has no text nodes.
    assert_eq!(text, "");
}

#[test]
fn all_tags_with_parents() {
    let content = "<document><meta title=\"T\"/><body><section><br/></section></body></document>";
    let br = on_line("self_closing_element", None, "<br/>", 0, 42, vec![on_line("tag_name", Some("name"), "br", 0, 43, vec![])]);
    let section = on_line(
        "element",
        None,
        "<section><br/></section>",
        0,
        33,
        vec![
            on_line("start_tag", None, "<section>", 0, 33, vec![on_line("tag_name", Some("name"), "section", 0, 34, vec![])]),
            br,
            on_line("end_tag", None, "</section>", 0, 47, vec![on_line("tag_name", Some("name"), "section", 0, 49, vec![])]),
        ],
    );
    let body = on_line("body_block", None, "<body><section><br/></section></body>", 0, 27, vec![section]);
    let meta = on_line("meta_tag", None, "<meta title=\"T\"/>", 0, 10, vec![]);
    let document = on_line("document_block", None, content, 0, 0, vec![meta, body]);
    let root = on_line("source_file", None, content, 0, 0, vec![document]);
    let tags = get_all_twxml_tags("t.twxml", &root);
    let seen: Vec<(String, Option<String>)> = tags.iter().map(|t| (t.name.clone(), t.parent_name.clone())).collect();
    assert_eq!(
        seen,
        vec![
            ("meta".to_string(), Some("document".to_string())),
            ("body".to_string(), Some("document".to_string())),
            ("section".to_string(), Some("body".to_string())),
            ("br".to_string(), Some("section".to_string())),
        ]
    );
    assert_eq!(tags[2].range, rng(0, 34, 0, 41));
    assert!(tags.iter().all(|t| t.file == "t.twxml"));
}

#[test]
fn test_meta_tag_parsing() {
    let twxml_content = format!("<document><body>{}</body></document>", "");
    let body = on_line("body_block", None, "<body></body>", 0, 10, vec![]);
    let document = on_line("document_block", None, &twxml_content, 0, 0, vec![body]);
    let root = on_line("source_file", None, &twxml_content, 0, 0, vec![document]);
    let tags = get_all_twxml_tags("test.twxml", &root);
    let tag_names: Vec<_> = tags.iter().map(|t| t.name.clone()).collect();
    assert!(tag_names.iter().any(|n| n == "body"));
}

// HubGS:
//
// DEFINITIONS [
//     FIELDS [ name: Text ],
//     HUBS [
//         Character {
//             name -> (1) ALLOWS [Location]
//         }
//     ]
// ],
// INSTANCES [
//     aragorn: Character {
//         name = rivendell
//     }
// ]
const HUBGS: &str = "
DEFINITIONS [
    FIELDS [ name: Text ],
    HUBS [
        Character {
            name -> (1) ALLOWS [Location]
        }
    ]
],
INSTANCES [
    aragorn: Character {
        name = rivendell
    }
]
";

fn hubgs_tree() -> SyntaxNode {
    let role = on_line(
        "hub_role",
        None,
        "name -> (1) ALLOWS [Location]",
        5,
        12,
        vec![
            on_line("identifier", None, "name", 5, 12, vec![]),
            on_line("->", None, "->", 5, 17, vec![]),
            on_line("multiplicity", None, "(1)", 5, 20, vec![]),
            on_line("ALLOWS", None, "ALLOWS", 5, 24, vec![]),
            on_line("[", None, "[", 5, 31, vec![]),
            on_line("identifier", None, "Location", 5, 32, vec![]),
            on_line("]", None, "]", 5, 40, vec![]),
        ],
    );
    let hub = node(
        "hub_definition",
        None,
        "Character {...}",
        rng(4, 8, 6, 9),
        vec![on_line("identifier", None, "Character", 4, 8, vec![]), role],
    );
    let hubs = node("hubs_block", None, "HUBS [...]", rng(3, 4, 7, 5), vec![hub]);
    let fields = on_line("fields_block", None, "FIELDS [ name: Text ]", 2, 4, vec![]);
    let definitions = node("definitions_block", None, "DEFINITIONS [...]", rng(1, 0, 8, 1), vec![fields, hubs]);
    let assignment = on_line(
        "instance_assignment",
        None,
        "name = rivendell",
        11,
        8,
        vec![
            on_line("identifier", None, "name", 11, 8, vec![]),
            on_line("=", None, "=", 11, 13, vec![]),
            on_line("identifier", None, "rivendell", 11, 15, vec![]),
        ],
    );
    let block = node(
        "instance_block",
        None,
        "aragorn: Character {...}",
        rng(10, 4, 12, 5),
        vec![
            on_line("identifier", Some("id"), "aragorn", 10, 4, vec![]),
            on_line("identifier", Some("type"), "Character", 10, 13, vec![]),
            assignment,
        ],
    );
    let instances = node("instances_block", None, "INSTANCES [...]", rng(9, 0, 13, 1), vec![block]);
    node("document", None, HUBGS, rng(0, 0, 14, 0), vec![definitions, instances])
}

#[test]
fn test_hubgs_completion_contexts() {
    let tree = hubgs_tree();

    let pos_allows = pos(5, 32);
    let ctx_allows = get_hubgs_completion_context(&tree, pos_allows);
    assert!(matches!(ctx_allows, HubgsCompletionContext::AllowsList));

    let pos_assign = pos(11, 16);
    let ctx_assign = get_hubgs_completion_context(&tree, pos_assign);
    if let HubgsCompletionContext::InstanceAssignment { hub_type, role_name } = ctx_assign {
        assert_eq!(hub_type, "Character");
        assert_eq!(role_name, "name");
    } else {
        panic!("Expected InstanceAssignment context, found something else");
    }
}

#[test]
fn hubgs_context_before_allows_and_outside() {
    let tree = hubgs_tree();
    // On the role name, before ALLOWS: nothing.
    assert!(matches!(get_hubgs_completion_context(&tree, pos(5, 13)), HubgsCompletionContext::Nothing));
    // On the instance's type name, outside any assignment: nothing.
    assert!(matches!(get_hubgs_completion_context(&tree, pos(10, 15)), HubgsCompletionContext::Nothing));
}

#[test]
fn hub_type_and_definition_at_position() {
    let tree = hubgs_tree();
    // Inside the instance block, and inside the hub definition.
    assert_eq!(get_hub_type_at_position(&tree, pos(11, 9)), Some("Character".to_string()));
    assert_eq!(get_hub_type_at_position(&tree, pos(5, 14)), Some("Character".to_string()));
    // In the FIELDS block: no hub type.
    assert_eq!(get_hub_type_at_position(&tree, pos(2, 6)), None);
    assert!(is_in_hub_definition(&tree, pos(5, 14)));
    assert!(!is_in_hub_definition(&tree, pos(11, 9)));
    assert!(!is_in_hub_definition(&tree, pos(2, 6)));
}
