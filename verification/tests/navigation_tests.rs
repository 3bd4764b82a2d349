use tauwriter_lsp::model::{
    HubAssignment, HubInstance, HubReference, HubType, HubValue, HubgsParseResult, SourceFile, TwxmlTag, Workspace,
    WorkspaceFile,
};
use tauwriter_lsp::navigation::{
    document_highlights, goto_implementation, incoming_calls, outgoing_calls, prepare_call_hierarchy, reference_locations,
    rename_edits, resolve_definition, resolve_type_definition, symbol_at_position, workspace_uris, HighlightKind, SymbolSort,
};
use tauwriter_lsp::position::{LspPosition, LspRange};
use tauwriter_lsp::syntax::SyntaxNode;

fn rng(l1: u32, c1: u32, l2: u32, c2: u32) -> LspRange {
    LspRange { start: LspPosition { line: l1, character: c1 }, end: LspPosition { line: l2, character: c2 } }
}

fn pos(line: u32, character: u32) -> LspPosition {
    LspPosition { line, character }
}

fn empty_defs() -> HubgsParseResult {
    HubgsParseResult { instances: vec![], types: vec![], enums: vec![], structs: vec![], global_fields: vec![], imports: vec![] }
}

fn ty(name: &str, file: &str, line: u32) -> HubType {
    HubType {
        name: name.to_string(),
        file: file.to_string(),
        range: rng(line, 2, line, 8),
        block_range: rng(line, 2, line + 2, 3),
        fields: vec![],
        roles: vec![],
        extends_parents: vec![],
        constraints: vec![],
    }
}

fn inst(name: &str, ty: &str, file: &str, line: u32, assignments: Vec<HubAssignment>) -> HubInstance {
    HubInstance {
        name: name.to_string(),
        instance_type: ty.to_string(),
        file: file.to_string(),
        range: rng(line, 4, line, 9),
        block_range: rng(line, 4, line + 3, 5),
        description: None,
        assignments,
    }
}

fn points_to(name: &str, target: &str, line: u32) -> HubAssignment {
    HubAssignment {
        name: name.to_string(),
        range: rng(line, 8, line, 14),
        value: HubValue::Identifier(target.to_string()),
        value_range: rng(line, 17, line, 25),
    }
}

fn hubref(name: &str, file: &str, line: u32) -> HubReference {
    HubReference {
        name: name.to_string(),
        file: file.to_string(),
        range: rng(line, 12, line, 17),
        field: None,
        text: None,
        tag_range: rng(line, 0, line, 30),
        is_reviewed: false,
    }
}

/// `/w/lore.hubgs` defines Person with frodo and sam (sam's friend is
/// frodo); `/w/tale.twxml` refers to frodo twice.
fn world() -> Workspace {
    let mut defs = empty_defs();
    defs.types = vec![ty("Person", "/w/lore.hubgs", 0)];
    defs.instances = vec![
        inst("frodo", "Person", "/w/lore.hubgs", 4, vec![]),
        inst("sam", "Person", "/w/lore.hubgs", 8, vec![points_to("friend", "frodo", 9)]),
    ];
    Workspace {
        files: vec![
            WorkspaceFile {
                source: SourceFile { path: "/w/lore.hubgs".to_string(), contents: String::new() },
                hubgs: defs,
                references: vec![],
                tags: Vec::<TwxmlTag>::new(),
            },
            WorkspaceFile {
                source: SourceFile { path: "/w/tale.twxml".to_string(), contents: String::new() },
                hubgs: empty_defs(),
                references: vec![hubref("frodo", "/w/tale.twxml", 1), hubref("frodo", "/w/tale.twxml", 3), hubref("sam", "/w/tale.twxml", 5)],
                tags: Vec::<TwxmlTag>::new(),
            },
        ],
    }
}

fn uris() -> Vec<Option<String>> {
    vec![Some("file:///w/lore.hubgs".to_string()), Some("file:///w/tale.twxml".to_string())]
}

fn node(kind: &str, field: Option<&str>, text: &str, range: LspRange, children: Vec<SyntaxNode>) -> SyntaxNode {
    SyntaxNode { kind: kind.to_string(), field: field.map(|f| f.to_string()), text: text.to_string(), range, has_error: false, children }
}

#[test]
fn symbol_under_cursor() {
    // HubGS: an identifier.
    let contents = "INSTANCES [ frodo: Person ]";
    let ident = node("identifier", None, "frodo", rng(0, 12, 0, 17), vec![]);
    let root = node("document", None, contents, rng(0, 0, 0, 27), vec![ident]);
    assert_eq!(symbol_at_position(contents, pos(0, 14), &root), Some("frodo".to_string()));
    assert_eq!(symbol_at_position(contents, pos(0, 2), &root), None);
    // TWXML: the id value of a hubref, quotes trimmed; another attribute gives nothing.
    let contents = "<hubref id='sam' field=\"x\"/>";
    let id_value = node("attribute_value", None, "'sam'", rng(0, 11, 0, 16), vec![]);
    let id_attr = node("attribute", None, "id='sam'", rng(0, 8, 0, 16), vec![node("attribute_name", None, "id", rng(0, 8, 0, 10), vec![]), id_value]);
    let field_value = node("attribute_value", None, "\"x\"", rng(0, 23, 0, 26), vec![]);
    let field_attr = node(
        "attribute",
        None,
        "field=\"x\"",
        rng(0, 17, 0, 26),
        vec![node("attribute_name", None, "field", rng(0, 17, 0, 22), vec![]), field_value],
    );
    let tag = node(
        "self_closing_element",
        None,
        contents,
        rng(0, 0, 0, 28),
        vec![node("tag_name", Some("name"), "hubref", rng(0, 1, 0, 7), vec![]), id_attr, field_attr],
    );
    let root = node("source_file", None, contents, rng(0, 0, 0, 28), vec![tag]);
    assert_eq!(symbol_at_position(contents, pos(0, 13), &root), Some("sam".to_string()));
    assert_eq!(symbol_at_position(contents, pos(0, 24), &root), None);
    // A UTF-16 column is turned into a byte column: "é" takes two bytes.
    let contents = "é frodo";
    let ident = node("identifier", None, "frodo", rng(0, 3, 0, 8), vec![]);
    let root = node("document", None, contents, rng(0, 0, 0, 8), vec![ident]);
    assert_eq!(symbol_at_position(contents, pos(0, 2), &root), Some("frodo".to_string()));
}

#[test]
fn definitions_and_implementations() {
    let ws = world();
    let here = Some("/w/tale.twxml".to_string());
    assert_eq!(resolve_definition(&ws, &"sam".to_string(), &here), Some(("/w/lore.hubgs".to_string(), rng(8, 4, 8, 9))));
    assert_eq!(resolve_definition(&ws, &"Person".to_string(), &Some("/w/lore.hubgs".to_string())), Some(("/w/lore.hubgs".to_string(), rng(0, 2, 0, 8))));
    assert_eq!(resolve_definition(&ws, &"Person".to_string(), &None), None);
    assert_eq!(resolve_type_definition(&ws, &"frodo".to_string(), &None), Some(("/w/lore.hubgs".to_string(), rng(0, 2, 0, 8))));
    let impls = goto_implementation(&ws, &"Person".to_string(), &Some("/w/lore.hubgs".to_string())).unwrap();
    assert_eq!(impls, vec![("/w/lore.hubgs".to_string(), rng(4, 4, 4, 9)), ("/w/lore.hubgs".to_string(), rng(8, 4, 8, 9))]);
    assert_eq!(goto_implementation(&ws, &"frodo".to_string(), &Some("/w/lore.hubgs".to_string())), None);
}

#[test]
fn highlights_in_a_file() {
    let ws = world();
    let hl = document_highlights(&ws, &"frodo".to_string(), &Some("/w/lore.hubgs".to_string()));
    assert_eq!(hl, vec![(rng(4, 4, 4, 9), HighlightKind::Write), (rng(9, 8, 9, 14), HighlightKind::Read)]);
    let hl = document_highlights(&ws, &"frodo".to_string(), &Some("/w/tale.twxml".to_string()));
    assert_eq!(hl, vec![(rng(1, 12, 1, 17), HighlightKind::Read), (rng(3, 12, 3, 17), HighlightKind::Read)]);
    assert!(document_highlights(&ws, &"frodo".to_string(), &None).is_empty());
}

#[test]
fn references_and_renames() {
    let ws = world();
    let locs = reference_locations(&ws, &"frodo".to_string(), &uris());
    assert_eq!(
        locs,
        vec![
            ("file:///w/lore.hubgs".to_string(), rng(9, 8, 9, 14)),
            ("file:///w/tale.twxml".to_string(), rng(1, 12, 1, 17)),
            ("file:///w/tale.twxml".to_string(), rng(3, 12, 3, 17)),
        ]
    );
    // Files without an address are left out.
    let locs = reference_locations(&ws, &"frodo".to_string(), &vec![None, Some("t".to_string())]);
    assert_eq!(locs.len(), 2);
    let edits = rename_edits(&ws, &"frodo".to_string(), &uris());
    assert_eq!(
        edits,
        vec![
            ("file:///w/lore.hubgs".to_string(), vec![rng(4, 4, 4, 9), rng(9, 8, 9, 14)]),
            ("file:///w/tale.twxml".to_string(), vec![rng(1, 12, 1, 17), rng(3, 12, 3, 17)]),
        ]
    );
    assert_eq!(workspace_uris(&ws).len(), 2);
}

#[test]
fn call_hierarchy() {
    let ws = world();
    let root = prepare_call_hierarchy(&ws, &"sam".to_string(), &None, &uris()).unwrap();
    assert_eq!(root.kind, SymbolSort::Variable);
    assert_eq!(root.detail, "Hub Instance (Person)");
    assert_eq!(root.range, rng(8, 4, 11, 5));
    assert_eq!(root.data, Some(("HubInstance".to_string(), "sam".to_string())));
    let t = prepare_call_hierarchy(&ws, &"Person".to_string(), &Some("/w/lore.hubgs".to_string()), &uris()).unwrap();
    assert_eq!(t.kind, SymbolSort::Class);
    assert_eq!(t.uri, "file:///w/lore.hubgs");
    assert!(prepare_call_hierarchy(&ws, &"sam".to_string(), &None, &vec![None, None]).is_none());

    // Into the type: its instances.
    let into_type = incoming_calls(&ws, "HubType", &"Person".to_string(), &uris());
    let names: Vec<String> = into_type.iter().map(|c| c.0.name.clone()).collect();
    assert_eq!(names, vec!["frodo", "sam"]);
    assert_eq!(into_type[0].1, vec![rng(4, 4, 4, 9)]);
    // Into frodo: sam (whose block holds the assignment) and the TWXML file,
    // whose two references are grouped.
    let into_frodo = incoming_calls(&ws, "HubInstance", &"frodo".to_string(), &uris());
    assert_eq!(into_frodo.len(), 2);
    assert_eq!(into_frodo[0].0.name, "sam");
    assert_eq!(into_frodo[0].0.kind, SymbolSort::Variable);
    assert_eq!(into_frodo[0].1, vec![rng(9, 8, 9, 14)]);
    assert_eq!(into_frodo[1].0.name, "tale.twxml");
    assert_eq!(into_frodo[1].0.kind, SymbolSort::File);
    assert_eq!(into_frodo[1].0.detail, "File");
    assert_eq!(into_frodo[1].0.range, rng(0, 0, 0, 0));
    assert_eq!(into_frodo[1].1, vec![rng(1, 12, 1, 17), rng(3, 12, 3, 17)]);
    assert!(incoming_calls(&ws, "Other", &"frodo".to_string(), &uris()).is_empty());

    // Out of sam: its type.
    let out = outgoing_calls(&ws, "HubInstance", &"sam".to_string(), &uris());
    assert_eq!(out.len(), 1);
    assert_eq!(out[0].0.name, "Person");
    assert_eq!(out[0].1, vec![rng(8, 4, 8, 9)]);
    assert!(outgoing_calls(&ws, "HubType", &"Person".to_string(), &uris()).is_empty());
}

#[test]
fn each_file_links_to_its_own_url() {
    let mut ws = world();
    assert_eq!(workspace_uris(&ws), uris());
    ws.files[1].source.path = "relative/tale.twxml".to_string();
    assert_eq!(workspace_uris(&ws), vec![Some("file:///w/lore.hubgs".to_string()), None]);
    ws.files[0].source.path = "/w/a b.hubgs".to_string();
    assert_eq!(workspace_uris(&ws)[0], Some("file:///w/a%20b.hubgs".to_string()));
}
