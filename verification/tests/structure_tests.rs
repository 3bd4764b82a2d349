use tauwriter_lsp::model::{HubInstance, HubType, HubgsParseResult, SourceFile, TwxmlTag, Workspace, WorkspaceFile};
use tauwriter_lsp::navigation::SymbolSort;
use tauwriter_lsp::position::{LspPosition, LspRange};
use tauwriter_lsp::resolution::{all_hub_instances, all_hub_types};
use tauwriter_lsp::structure::{compute_folding_ranges, selection_ranges};
use tauwriter_lsp::symbols::{contains_text, document_symbols, workspace_symbols, workspace_symbols_with_uris};
use tauwriter_lsp::syntax::SyntaxNode;

fn rng(l1: u32, c1: u32, l2: u32, c2: u32) -> LspRange {
    LspRange { start: LspPosition { line: l1, character: c1 }, end: LspPosition { line: l2, character: c2 } }
}

fn pos(line: u32, character: u32) -> LspPosition {
    LspPosition { line, character }
}

fn node(kind: &str, range: LspRange, children: Vec<SyntaxNode>) -> SyntaxNode {
    SyntaxNode { kind: kind.to_string(), field: None, text: String::new(), range, has_error: false, children }
}

fn no_defs() -> HubgsParseResult {
    HubgsParseResult { instances: vec![], types: vec![], enums: vec![], structs: vec![], global_fields: vec![], imports: vec![] }
}

fn hub_type(name: &str, path: &str, line: u32) -> HubType {
    HubType {
        name: name.to_string(),
        file: path.to_string(),
        range: rng(line, 8, line, 8 + name.len() as u32),
        block_range: rng(line, 8, line + 2, 9),
        fields: vec![],
        roles: vec![],
        extends_parents: vec![],
        constraints: vec![],
    }
}

fn instance(name: &str, ty: &str, path: &str, line: u32) -> HubInstance {
    HubInstance {
        name: name.to_string(),
        instance_type: ty.to_string(),
        file: path.to_string(),
        range: rng(line, 4, line, 4 + name.len() as u32),
        block_range: rng(line, 4, line, 40),
        description: None,
        assignments: vec![],
    }
}

fn file(path: &str, hubgs: HubgsParseResult) -> WorkspaceFile {
    WorkspaceFile {
        source: SourceFile { path: path.to_string(), contents: String::new() },
        hubgs,
        references: vec![],
        tags: Vec::<TwxmlTag>::new(),
    }
}

#[test]
fn test_folding_ranges() {
    // The tree of:
    //
    // DEFINITIONS [
    //     FIELDS [
    //         first_name: Text,
    //         resides_in: Location,
    //         name: Text,
    //         unknown_field: Text
    //     ],
    //     HUBS [
    //         Person {
    //             name
    //         }
    //     ]
    // ]
    let person = node("hub_definition", rng(9, 8, 11, 9), vec![node("identifier", rng(9, 8, 9, 14), vec![])]);
    let hubs = node("hubs_block", rng(8, 4, 12, 5), vec![node("HUBS", rng(8, 4, 8, 8), vec![]), person]);
    let fields = node("fields_block", rng(2, 4, 7, 5), vec![node("field_definition", rng(3, 8, 3, 24), vec![])]);
    let defs = node("definitions_section", rng(1, 0, 13, 1), vec![fields, hubs]);
    let root = node("source_file", rng(0, 0, 14, 0), vec![defs]);
    let ranges = compute_folding_ranges("fantasy.hubgs", &root);

    // Should find at least DEFINITIONS block and HUBS block and Person definition
    assert!(ranges.len() >= 3);

    // Check for DEFINITIONS block (line 1 to 13)
    let def_block = ranges.iter().find(|r| r.start.line == 1 && r.end.line == 13);
    assert!(def_block.is_some());

    // Depth first, the last child first.
    assert_eq!(ranges, vec![rng(1, 0, 13, 1), rng(8, 4, 12, 5), rng(9, 8, 11, 9), rng(2, 4, 7, 5)]);
}

#[test]
fn folding_ranges_by_file_type() {
    let one_line = node("element", rng(1, 0, 1, 20), vec![]);
    let multi = node("element", rng(2, 0, 5, 10), vec![node("element", rng(3, 2, 4, 8), vec![])]);
    let section = node("instances_section", rng(6, 0, 8, 1), vec![]);
    let root = node("source_file", rng(0, 0, 9, 0), vec![one_line, multi, section]);
    // TWXML folds elements only; the root and one-line elements do not fold.
    assert_eq!(compute_folding_ranges("story.twxml", &root), vec![rng(2, 0, 5, 10), rng(3, 2, 4, 8)]);
    // HubGS folds its sections and blocks.
    assert_eq!(compute_folding_ranges("world.hubgs", &root), vec![rng(6, 0, 8, 1)]);
    assert!(compute_folding_ranges("notes.txt", &root).is_empty());
}

#[test]
fn selection_ranges_grow_outward() {
    let contents = "ab\ncdé f";
    let space = node("text", rng(1, 4, 1, 5), vec![]);
    let second = node("element", rng(1, 0, 1, 6), vec![node("word", rng(1, 0, 1, 4), vec![]), space]);
    let root = node("source_file", rng(0, 0, 1, 6), vec![node("word", rng(0, 0, 0, 2), vec![]), second]);
    // UTF-16 column 3 of line 1 lies after "cdé", at byte 4 of the line.
    let chains = selection_ranges("file:///s.twxml", contents, &root, &vec![pos(1, 3), pos(0, 1), pos(5, 0)]).unwrap();
    assert_eq!(chains[0], vec![rng(1, 4, 1, 5), rng(1, 0, 1, 6), rng(0, 0, 1, 6)]);
    assert_eq!(chains[1], vec![rng(0, 0, 0, 2), rng(0, 0, 1, 6)]);
    // Past the last line the offset runs past the end: only the root holds it.
    assert_eq!(chains[2], vec![rng(0, 0, 1, 6)]);
    assert!(selection_ranges("file:///s.txt", contents, &root, &vec![pos(0, 0)]).is_none());
    assert_eq!(selection_ranges("file:///s.hubgs", contents, &root, &vec![]), Some(vec![]));
}

#[test]
fn test_workspace_symbols() {
    let path = "fantasy.hubgs";
    let mut defs = no_defs();
    defs.types = vec![hub_type("Character", path, 3)];
    defs.instances = vec![instance("aragorn", "Character", path, 10)];
    let ws = Workspace { files: vec![file(path, defs)] };

    // Test finding Hub Instances
    let instances = all_hub_instances(&ws);
    assert!(instances.iter().any(|i| i.name == "aragorn"));

    // Test finding Hub Types
    let types = all_hub_types(&ws);
    assert!(types.iter().any(|t| t.name == "Character"));
}

fn lore() -> Workspace {
    let mut defs = no_defs();
    defs.types = vec![hub_type("Person", "/w/lore.hubgs", 1), hub_type("Ring", "/w/lore.hubgs", 4)];
    defs.instances = vec![instance("frodo", "Person", "/w/lore.hubgs", 8), instance("sam", "Person", "/w/lore.hubgs", 9)];
    let mut more = no_defs();
    more.instances = vec![instance("Frodo_Twin", "Person", "/w/more.hubgs", 2)];
    Workspace { files: vec![file("/w/lore.hubgs", defs), file("/w/more.hubgs", more), file("/w/tale.twxml", no_defs())] }
}

#[test]
fn substring_test() {
    assert!(contains_text("frodo", "rod"));
    assert!(contains_text("frodo", ""));
    assert!(contains_text("frodo", "frodo"));
    assert!(!contains_text("frodo", "frodos"));
    assert!(!contains_text("frodo", "dor"));
    assert!(contains_text("héllo", "él"));
}

#[test]
fn workspace_symbols_match_ignoring_case() {
    let ws = lore();
    let uris = vec![Some("file:///w/lore.hubgs".to_string()), Some("file:///w/more.hubgs".to_string()), None];
    let found = workspace_symbols_with_uris(&ws, "FRO", &uris);
    let names: Vec<(&str, SymbolSort, &str)> =
        found.iter().map(|s| (s.name.as_str(), s.kind, s.container.as_str())).collect();
    assert_eq!(names, vec![("frodo", SymbolSort::Variable, "Instances"), ("Frodo_Twin", SymbolSort::Variable, "Instances")]);
    assert_eq!(found[0].uri, "file:///w/lore.hubgs");
    assert_eq!(found[0].range, rng(8, 4, 8, 9));
    // An empty query matches everything: instances first, then types.
    let all: Vec<String> = workspace_symbols_with_uris(&ws, "", &uris).into_iter().map(|s| s.name).collect();
    assert_eq!(all, vec!["frodo", "sam", "Frodo_Twin", "Person", "Ring"]);
    // A file without an address contributes nothing.
    let uris = vec![None, Some("file:///w/more.hubgs".to_string()), None];
    let found: Vec<String> = workspace_symbols_with_uris(&ws, "o", &uris).into_iter().map(|s| s.name).collect();
    assert_eq!(found, vec!["Frodo_Twin"]);
    // With the platform's own file URLs.
    let found = workspace_symbols(&ws, "ring");
    assert_eq!(found.len(), 1);
    assert_eq!(found[0].kind, SymbolSort::Class);
    assert_eq!(found[0].container, "Types");
}

#[test]
fn document_symbols_of_a_file() {
    let ws = lore();
    let syms = document_symbols(&ws, &"/w/lore.hubgs".to_string(), "file:///w/lore.hubgs").unwrap();
    let names: Vec<(&str, SymbolSort)> = syms.iter().map(|s| (s.name.as_str(), s.kind)).collect();
    assert_eq!(
        names,
        vec![("frodo", SymbolSort::Variable), ("sam", SymbolSort::Variable), ("Person", SymbolSort::Class), ("Ring", SymbolSort::Class)]
    );
    assert!(syms.iter().all(|s| s.uri == "file:///w/lore.hubgs"));
    assert_eq!(syms[2].range, rng(1, 8, 1, 14));
    // A TWXML file of the workspace has none; an unknown file gives nothing.
    assert_eq!(document_symbols(&ws, &"/w/tale.twxml".to_string(), "file:///w/tale.twxml").map(|v| v.len()), Some(0));
    assert!(document_symbols(&ws, &"/w/other.hubgs".to_string(), "file:///w/other.hubgs").is_none());
}
