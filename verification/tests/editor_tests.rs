use tauwriter_lsp::edits::FormatEdit;
use tauwriter_lsp::lenses::{code_action_impl, code_lens, inlay_hints, review_edits, review_tags_ready};
use tauwriter_lsp::hover::range_is_ordered;
use tauwriter_lsp::model::{
    HubAssignment, HubFieldDef, HubInstance, HubReference, HubRoleDef, HubType, HubValue, HubgsParseResult, SourceFile,
    TwxmlTag, Workspace, WorkspaceFile,
};
use tauwriter_lsp::position::{LspPosition, LspRange};
use tauwriter_lsp::signature::{find_active_parameter, format_hub_type_signature, signature_help, ParamInfo};

fn rng(l1: u32, c1: u32, l2: u32, c2: u32) -> LspRange {
    LspRange { start: LspPosition { line: l1, character: c1 }, end: LspPosition { line: l2, character: c2 } }
}

fn pos(line: u32, character: u32) -> LspPosition {
    LspPosition { line, character }
}

fn empty_defs() -> HubgsParseResult {
    HubgsParseResult { instances: vec![], types: vec![], enums: vec![], structs: vec![], global_fields: vec![], imports: vec![] }
}

fn field(name: &str) -> HubFieldDef {
    HubFieldDef { name: name.to_string(), range: rng(1, 4, 1, 8), decorator: None, expression: None, is_display: false, is_background: false }
}

fn person() -> HubType {
    HubType {
        name: "Person".to_string(),
        file: "/w/lore.hubgs".to_string(),
        range: rng(0, 2, 0, 8),
        block_range: rng(0, 2, 2, 3),
        fields: vec![field("name"), field("age")],
        roles: vec![HubRoleDef {
            name: "friend".to_string(),
            direction: "->".to_string(),
            multiplicity: "*".to_string(),
            allowed_types: vec!["Person".to_string(), "Elf".to_string()],
        }],
        extends_parents: vec![],
        constraints: vec![],
    }
}

fn inst(name: &str, line: u32, last_line: u32, assignments: Vec<HubAssignment>) -> HubInstance {
    HubInstance {
        name: name.to_string(),
        instance_type: "Person".to_string(),
        file: "/w/lore.hubgs".to_string(),
        range: rng(line, 0, line, name.len() as u32),
        block_range: rng(line, 0, last_line, 1),
        description: None,
        assignments,
    }
}

fn hubref(name: &str, line: u32) -> HubReference {
    HubReference {
        name: name.to_string(),
        file: "/w/tale.twxml".to_string(),
        range: rng(line, 12, line, 17),
        field: None,
        text: None,
        tag_range: rng(line, 0, line, 30),
        is_reviewed: false,
    }
}

const LORE: &str = "frodo: Person {\n  name = 'Frodo',\n  friend = [sam]\n}\nsam: Person {\n  friend = [frodo]\n}";

/// `/w/lore.hubgs` defines Person with frodo and sam (sam's friend is
/// frodo); `/w/tale.twxml` refers to frodo twice and to sam once.
fn world() -> Workspace {
    let mut defs = empty_defs();
    defs.types = vec![person()];
    defs.instances = vec![
        inst("frodo", 0, 3, vec![]),
        inst(
            "sam",
            4,
            6,
            vec![HubAssignment {
                name: "friend".to_string(),
                range: rng(5, 2, 5, 8),
                value: HubValue::Identifier("frodo".to_string()),
                value_range: rng(5, 11, 5, 18),
            }],
        ),
    ];
    Workspace {
        files: vec![
            WorkspaceFile {
                source: SourceFile { path: "/w/lore.hubgs".to_string(), contents: LORE.to_string() },
                hubgs: defs,
                references: vec![],
                tags: Vec::<TwxmlTag>::new(),
            },
            WorkspaceFile {
                source: SourceFile { path: "/w/tale.twxml".to_string(), contents: String::new() },
                hubgs: empty_defs(),
                references: vec![hubref("frodo", 1), hubref("frodo", 3), hubref("sam", 5)],
                tags: Vec::<TwxmlTag>::new(),
            },
        ],
    }
}

#[test]
fn hub_type_signature_lists_fields_then_roles() {
    let (label, params) = format_hub_type_signature(&person());
    assert_eq!(label, "Person { name: Value, age: Value, friend: Person | Elf }");
    let labels: Vec<&str> = params.iter().map(|p| p.label.as_str()).collect();
    assert_eq!(labels, vec!["name: Value", "age: Value", "friend: Person | Elf"]);
    assert_eq!(params[0].documentation, "Field: name");
    assert_eq!(params[2].documentation, "Role: friend (Multiplicity: *, Direction: ->)");
}

fn params() -> Vec<ParamInfo> {
    format_hub_type_signature(&person()).1
}

#[test]
fn active_parameter_by_name_before_equals() {
    let text = "frodo: Person {\n  name = 'x',\n  age = 3";
    assert_eq!(find_active_parameter(text, text.len(), &params()), Some(1));
    // After `{` on the same line.
    let text = "frodo: Person { friend = [";
    assert_eq!(find_active_parameter(text, text.len(), &params()), Some(2));
    // No `=` after the last separator.
    let text = "frodo: Person { nam";
    assert_eq!(find_active_parameter(text, text.len(), &params()), None);
    // An unknown name.
    let text = "x {\n  colour = 1";
    assert_eq!(find_active_parameter(text, text.len(), &params()), None);
    // An empty name matches the first parameter.
    let text = "x { = 1";
    assert_eq!(find_active_parameter(text, text.len(), &params()), Some(0));
    // No separator at all, or a cursor past the end.
    assert_eq!(find_active_parameter("age = 1", 7, &params()), None);
    assert_eq!(find_active_parameter("x { age = 1", 40, &params()), None);
    // Only the text before the cursor counts.
    let text = "x {\n  age = 1,\n  name = 2";
    assert_eq!(find_active_parameter(text, 12, &params()), Some(1));
}

#[test]
fn signature_help_inside_an_instance() {
    let ws = world();
    let path = Some("/w/lore.hubgs".to_string());
    // Line 2, after `friend =`.
    let sig = signature_help(&ws, "file:///w/lore.hubgs", &path, LORE, pos(2, 10)).unwrap();
    assert_eq!(sig.label, "Person { name: Value, age: Value, friend: Person | Elf }");
    assert_eq!(sig.documentation, "Hub Type definition for Person");
    assert_eq!(sig.parameters.len(), 3);
    assert_eq!(sig.active_parameter, Some(2));
    // Line 1, before its `=`: no parameter is active yet.
    let sig = signature_help(&ws, "file:///w/lore.hubgs", &path, LORE, pos(1, 4)).unwrap();
    assert_eq!(sig.active_parameter, None);
    // Outside every instance block, or not a HubGS document.
    assert!(signature_help(&ws, "file:///w/lore.hubgs", &path, LORE, pos(7, 0)).is_none());
    assert!(signature_help(&ws, "file:///w/tale.twxml", &path, LORE, pos(2, 10)).is_none());
    assert!(signature_help(&ws, "file:///w/lore.hubgs", &None, LORE, pos(2, 10)).is_none());
}

#[test]
fn code_lenses_count_references_and_instances() {
    let ws = world();
    let lenses = code_lens(&ws, &Some("/w/lore.hubgs".to_string())).unwrap();
    let shown: Vec<(LspRange, &str, &str)> =
        lenses.iter().map(|l| (l.range, l.title.as_str(), l.command.as_str())).collect();
    assert_eq!(
        shown,
        vec![
            (rng(0, 0, 0, 5), "3 references", "editor.action.findReferences"),
            (rng(4, 0, 4, 3), "1 reference", "editor.action.findReferences"),
            (rng(0, 2, 0, 8), "2 instances", "editor.action.goToImplementation"),
        ]
    );
    let lenses = code_lens(&ws, &Some("/w/tale.twxml".to_string())).unwrap();
    assert_eq!(lenses.len(), 3);
    assert!(lenses.iter().all(|l| l.title == "Go to definition" && l.command == "editor.action.goToDeclaration"));
    assert_eq!(lenses[1].range, rng(3, 12, 3, 17));
    assert!(code_lens(&ws, &Some("/w/notes.txt".to_string())).is_none());
    assert!(code_lens(&ws, &Some("/w/missing.hubgs".to_string())).is_none());
    assert!(code_lens(&ws, &None).is_none());
}

#[test]
fn inlay_hints_show_instance_types() {
    let ws = world();
    let hints = inlay_hints(&ws, &Some("/w/lore.hubgs".to_string()));
    assert_eq!(hints, vec![(pos(0, 5), ": Person".to_string()), (pos(4, 3), ": Person".to_string())]);
    assert!(inlay_hints(&ws, &Some("/w/tale.twxml".to_string())).is_empty());
    assert!(inlay_hints(&ws, &None).is_empty());
}

#[test]
fn review_quick_fixes() {
    let review = rng(2, 0, 2, 60);
    let fixes = code_action_impl(review, "frodo", "name", "Mr. Baggins", &HubValue::Text("Frodo".to_string()));
    assert_eq!(fixes.len(), 2);
    assert_eq!(fixes[0].title, "Sync and Resolve: change to 'Frodo'");
    assert_eq!(fixes[0].new_text, "<hubref id=\"frodo\" field=\"name\">Frodo</hubref>");
    assert!(fixes[0].preferred);
    assert_eq!(fixes[0].range, review);
    assert_eq!(fixes[1].title, "Mark as Resolved: keep current text");
    assert_eq!(fixes[1].new_text, "<hubref id=\"frodo\" field=\"name\">Mr. Baggins</hubref>");
    assert!(!fixes[1].preferred);
    // Other values show as they are displayed.
    let fixes = code_action_impl(review, "ring", "forged", "long ago", &HubValue::Boolean(true));
    assert_eq!(fixes[0].new_text, "<hubref id=\"ring\" field=\"forged\">true</hubref>");
}

fn shown(name: &str, line: u32, text: &str, reviewed: bool) -> HubReference {
    let mut r = hubref(name, line);
    r.field = Some("name".to_string());
    r.text = Some(text.to_string());
    r.is_reviewed = reviewed;
    r.tag_range = rng(line, 0, line, 10);
    r
}

fn tale(refs: Vec<HubReference>) -> WorkspaceFile {
    WorkspaceFile {
        source: SourceFile { path: "/w/tale.twxml".to_string(), contents: String::new() },
        hubgs: empty_defs(),
        references: refs,
        tags: Vec::<TwxmlTag>::new(),
    }
}

#[test]
fn reviewed_reference_matching_its_value_becomes_plain() {
    let ws = world();
    let file = tale(vec![shown("frodo", 0, "Frodo", true), shown("frodo", 1, "Bilbo", true)]);
    let computed = vec![Some("Frodo".to_string()), Some("Frodo".to_string())];
    let edits = review_edits(&ws, &file, true, &computed, None);
    assert_eq!(
        edits,
        vec![FormatEdit {
            range: rng(0, 0, 0, 10),
            new_text: "<hubref id=\"frodo\" field=\"name\">Frodo</hubref>".to_string(),
        }]
    );
    // The pass over unreviewed references leaves reviewed ones alone.
    assert!(review_edits(&ws, &file, false, &computed, None).is_empty());
}

#[test]
fn unreviewed_reference_out_of_step_is_wrapped_in_a_review() {
    let ws = world();
    let content = "0123456789abc\n<hubref/>ok\n";
    let file = tale(vec![shown("frodo", 0, "Bilbo", false), shown("frodo", 1, "Frodo", false), shown("nobody", 0, "x", false)]);
    let computed = vec![Some("Frodo".to_string()), Some("Frodo".to_string()), Some("y".to_string())];
    let edits = review_edits(&ws, &file, false, &computed, Some(content));
    assert_eq!(
        edits,
        vec![FormatEdit { range: rng(0, 0, 0, 10), new_text: "<review>0123456789</review>".to_string() }]
    );
    // Without the document's text nothing is wrapped; without a value nothing is compared.
    assert!(review_edits(&ws, &file, false, &computed, None).is_empty());
    assert!(review_edits(&ws, &file, false, &vec![], Some(content)).is_empty());
}

#[test]
fn review_pass_checks_only_the_tags_it_reads() {
    let ws = world();
    let mut backwards = shown("frodo", 0, "Bilbo", false);
    backwards.tag_range = rng(0, 9, 0, 2);
    let mut in_step = shown("frodo", 0, "Frodo", false);
    in_step.tag_range = rng(0, 9, 0, 2);
    let computed = vec![Some("Frodo".to_string())];
    let content = "0123456789abc";
    // The out-of-step reference's tag is read, and runs backwards.
    assert!(!review_tags_ready(&ws, &tale(vec![backwards]), false, &computed, Some(content)));
    // A reference in step is not read, whatever its range.
    assert!(review_tags_ready(&ws, &tale(vec![in_step]), false, &computed, Some(content)));
    assert!(range_is_ordered(content, rng(0, 2, 0, 9)));
    assert!(!range_is_ordered(content, rng(0, 9, 0, 2)));
    // Past the line's end both offsets stop at its end.
    assert!(range_is_ordered(content, rng(0, 40, 0, 20)));
}
