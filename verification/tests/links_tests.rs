use tauwriter_lsp::links::{find_anchor_line, get_hubgs_imports, instance_link_target, link_sites, split_href, LinkKind};
use tauwriter_lsp::model::{HubInstance, HubgsParseResult, SourceFile, TwxmlTag, Workspace, WorkspaceFile};
use tauwriter_lsp::position::{LspPosition, LspRange};
use tauwriter_lsp::syntax::SyntaxNode;

fn rng(l1: u32, c1: u32, l2: u32, c2: u32) -> LspRange {
    LspRange { start: LspPosition { line: l1, character: c1 }, end: LspPosition { line: l2, character: c2 } }
}

fn node(kind: &str, field: Option<&str>, text: &str, range: LspRange, children: Vec<SyntaxNode>) -> SyntaxNode {
    SyntaxNode { kind: kind.to_string(), field: field.map(|f| f.to_string()), text: text.to_string(), range, has_error: false, children }
}

fn attr(name: &str, value: &str, line: u32, c: u32) -> SyntaxNode {
    let n = name.len() as u32;
    let v = value.len() as u32;
    node(
        "attribute",
        None,
        &format!("{}={}", name, value),
        rng(line, c, line, c + n + 1 + v),
        vec![
            node("attribute_name", None, name, rng(line, c, line, c + n), vec![]),
            node("=", None, "=", rng(line, c + n, line, c + n + 1), vec![]),
            node("quoted_attribute_value", None, value, rng(line, c + n + 1, line, c + n + 1 + v), vec![]),
        ],
    )
}

fn tag(kind: &str, name: &str, line: u32, attrs: Vec<SyntaxNode>) -> SyntaxNode {
    let mut children = vec![node("tag_name", Some("name"), name, rng(line, 1, line, 1 + name.len() as u32), vec![])];
    children.extend(attrs);
    node(kind, None, "", rng(line, 0, line, 60), children)
}

/// <document><body>
/// <link href="ch2.twxml#intro"/>
/// <paragraph id="intro"><hubref id='frodo'>F</hubref></paragraph>
/// <section class="intro"/>
/// </body></document>
fn story() -> SyntaxNode {
    let link = tag("self_closing_element", "link", 1, vec![attr("href", "\"ch2.twxml#intro\"", 1, 6)]);
    let hubref_start = tag("start_tag", "hubref", 2, vec![attr("id", "'frodo'", 2, 30)]);
    let hubref = node("element", None, "", rng(2, 22, 2, 50), vec![hubref_start, node("text", None, "F", rng(2, 41, 2, 42), vec![])]);
    let para_start = tag("start_tag", "paragraph", 2, vec![attr("id", "\"intro\"", 2, 11)]);
    let para = node("element", None, "", rng(2, 0, 2, 62), vec![para_start, hubref]);
    let section = tag("self_closing_element", "section", 3, vec![attr("class", "\"intro\"", 3, 9)]);
    let body = node("body_block", None, "", rng(0, 10, 4, 7), vec![link, para, section]);
    node("source_file", None, "", rng(0, 0, 4, 18), vec![node("document_block", None, "", rng(0, 0, 4, 18), vec![body])])
}

#[test]
fn link_and_hubref_sites_in_document_order() {
    let sites = link_sites(&story());
    assert_eq!(sites.len(), 2);
    assert_eq!(sites[0].kind, LinkKind::Href);
    assert_eq!(sites[0].value, "ch2.twxml#intro");
    assert_eq!(sites[0].range, rng(1, 11, 1, 28));
    assert_eq!(sites[1].kind, LinkKind::Instance);
    assert_eq!(sites[1].value, "frodo");
    assert_eq!(sites[1].range, rng(2, 33, 2, 40));
}

#[test]
fn hrefs_split_into_file_and_anchor() {
    let p = split_href("https://example.org/a#b");
    assert!(p.external && p.path.is_none() && p.anchor.is_none());
    let p = split_href("ch2.twxml#intro");
    assert!(!p.external);
    assert_eq!(p.path.as_deref(), Some("ch2.twxml"));
    assert_eq!(p.anchor.as_deref(), Some("intro"));
    let p = split_href("#intro");
    assert_eq!((p.path, p.anchor.as_deref()), (None, Some("intro")));
    let p = split_href("notes.twxml");
    assert_eq!((p.path.as_deref(), p.anchor), (Some("notes.twxml"), None));
    // With two `#`, a leading one makes the rest an anchor; otherwise it is all a file.
    let p = split_href("#a#b");
    assert_eq!((p.path, p.anchor.as_deref()), (None, Some("a#b")));
    let p = split_href("x#a#b");
    assert_eq!((p.path.as_deref(), p.anchor), (Some("x#a#b"), None));
}

#[test]
fn anchors_by_id_alias_or_class() {
    let tree = story();
    // The paragraph's start tag on line 2 carries id="intro": line 3, 1-based.
    assert_eq!(find_anchor_line(&tree, "intro"), Some(3));
    assert_eq!(find_anchor_line(&tree, "frodo"), Some(3));
    assert_eq!(find_anchor_line(&tree, "missing"), None);
}

#[test]
fn instance_links_lead_to_the_declaring_line() {
    let inst = HubInstance {
        name: "frodo".to_string(),
        instance_type: "Person".to_string(),
        file: "/w/lore.hubgs".to_string(),
        range: rng(6, 4, 6, 9),
        block_range: rng(6, 4, 8, 5),
        description: None,
        assignments: vec![],
    };
    let defs = HubgsParseResult { instances: vec![inst], types: vec![], enums: vec![], structs: vec![], global_fields: vec![], imports: vec![] };
    let ws = Workspace {
        files: vec![WorkspaceFile {
            source: SourceFile { path: "/w/lore.hubgs".to_string(), contents: String::new() },
            hubgs: defs,
            references: vec![],
            tags: Vec::<TwxmlTag>::new(),
        }],
    };
    assert_eq!(instance_link_target(&ws, &"frodo".to_string()), Some(("/w/lore.hubgs".to_string(), 7)));
    assert_eq!(instance_link_target(&ws, &"sam".to_string()), None);
}

#[test]
fn hubgs_imports_with_ranges() {
    let stmt = |line: u32, path: &str| {
        node(
            "import_statement",
            None,
            "",
            rng(line, 4, line, 40),
            vec![
                node("identifier", None, "Location", rng(line, 5, line, 13), vec![]),
                node("FROM", None, "FROM", rng(line, 15, line, 19), vec![]),
                node("string", None, path, rng(line, 20, line, 20 + path.len() as u32), vec![]),
            ],
        )
    };
    let section = node("imports_section", None, "", rng(1, 0, 4, 1), vec![stmt(2, "'schema.hubgs'"), stmt(3, "\"more/people.hubgs\"")]);
    let root = node("source_file", None, "", rng(0, 0, 5, 0), vec![section, node("string", None, "'x'", rng(4, 0, 4, 3), vec![])]);
    let imports = get_hubgs_imports(&root);
    assert_eq!(
        imports,
        vec![("schema.hubgs".to_string(), rng(2, 20, 2, 34)), ("more/people.hubgs".to_string(), rng(3, 20, 3, 39))]
    );
}
