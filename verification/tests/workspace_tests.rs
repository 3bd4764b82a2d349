use tauwriter_lsp::position::SemanticToken;
use tauwriter_lsp::semantic::{encode_tokens, EncodedToken};
use tauwriter_lsp::hubgs_tree::{get_hub_type_at_position, is_in_hub_definition};
use tauwriter_lsp::model::{
    GlobalField, HubAssignment, HubFieldDef, HubImport, HubInstance, HubReference, HubRoleDef, HubType, HubValue,
    HubgsParseResult, SourceFile, TwxmlTag, ValidationError, Workspace, WorkspaceFile,
};
use tauwriter_lsp::position::{LspPosition, LspRange};
use tauwriter_lsp::resolution::{all_global_fields, all_hub_instances, all_hub_types, resolve_reference, resolve_type};
use tauwriter_lsp::semantic::{compute_semantic_tokens, hubgs_capture_token};
use tauwriter_lsp::syntax::SyntaxNode;
use tauwriter_lsp::twxml_tree::parse_twxml_ast;
use tauwriter_lsp::validation::validate_file;

fn rng(l1: u32, c1: u32, l2: u32, c2: u32) -> LspRange {
    LspRange { start: LspPosition { line: l1, character: c1 }, end: LspPosition { line: l2, character: c2 } }
}

fn twxml(content: &str) -> String {
    format!("<document><body>{}</body></document>", content)
}

fn no_defs() -> HubgsParseResult {
    HubgsParseResult { instances: vec![], types: vec![], enums: vec![], structs: vec![], global_fields: vec![], imports: vec![] }
}

fn file(path: &str, contents: &str, hubgs: HubgsParseResult, refs: Vec<HubReference>, tags: Vec<TwxmlTag>) -> WorkspaceFile {
    WorkspaceFile { source: SourceFile { path: path.to_string(), contents: contents.to_string() }, hubgs, references: refs, tags }
}

fn tag(name: &str, parent: Option<&str>, path: &str) -> TwxmlTag {
    TwxmlTag { name: name.to_string(), file: path.to_string(), range: rng(0, 0, 0, 5), parent_name: parent.map(|p| p.to_string()) }
}

fn global(name: &str, ty: &str, path: &str, line: u32) -> GlobalField {
    GlobalField { name: name.to_string(), file: path.to_string(), range: rng(line, 8, line, 8 + name.len() as u32), field_type: ty.to_string() }
}

fn field_def(name: &str, line: u32) -> HubFieldDef {
    HubFieldDef {
        name: name.to_string(),
        range: rng(line, 12, line, 12 + name.len() as u32),
        decorator: None,
        expression: None,
        is_display: false,
        is_background: false,
    }
}

fn role(name: &str, mult: &str, allowed: &[&str]) -> HubRoleDef {
    HubRoleDef {
        name: name.to_string(),
        direction: "->".to_string(),
        multiplicity: mult.to_string(),
        allowed_types: allowed.iter().map(|a| a.to_string()).collect(),
    }
}

fn hub_type(name: &str, path: &str, line: u32, fields: Vec<HubFieldDef>, roles: Vec<HubRoleDef>) -> HubType {
    HubType {
        name: name.to_string(),
        file: path.to_string(),
        range: rng(line, 8, line, 8 + name.len() as u32),
        block_range: rng(line, 8, line + 3, 9),
        fields,
        roles,
        extends_parents: vec![],
        constraints: vec![],
    }
}

fn assign(name: &str, line: u32, value: HubValue) -> HubAssignment {
    HubAssignment { name: name.to_string(), range: rng(line, 8, line, 8 + name.len() as u32), value, value_range: rng(line, 20, line, 30) }
}

fn text(s: &str) -> HubValue {
    HubValue::Text(s.to_string())
}

fn refs(names: &[&str]) -> HubValue {
    HubValue::Array(names.iter().map(|n| HubValue::Identifier(n.to_string())).collect())
}

fn instance(name: &str, ty: &str, path: &str, line: u32, assignments: Vec<HubAssignment>) -> HubInstance {
    HubInstance {
        name: name.to_string(),
        instance_type: ty.to_string(),
        file: path.to_string(),
        range: rng(line, 4, line, 4 + name.len() as u32),
        block_range: rng(line, 4, line + 2, 5),
        description: None,
        assignments,
    }
}

fn messages(errors: &[ValidationError]) -> Vec<String> {
    errors.iter().map(|e| e.message.clone()).collect()
}

fn node(kind: &str, field: Option<&str>, text: &str, range: LspRange, children: Vec<SyntaxNode>) -> SyntaxNode {
    SyntaxNode { kind: kind.to_string(), field: field.map(|f| f.to_string()), text: text.to_string(), range, has_error: false, children }
}

fn on_line(kind: &str, field: Option<&str>, text: &str, line: u32, c: u32, children: Vec<SyntaxNode>) -> SyntaxNode {
    node(kind, field, text, rng(line, c, line, c + text.len() as u32), children)
}

/// The tree of `<document><body><hubref id='NAME'>TEXT</hubref></body></document>`.
fn hubref_tree(contents: &str, name: &str, text: &str) -> SyntaxNode {
    let id_value = format!("'{}'", name);
    let start_text = format!("<hubref id={}>", id_value);
    let start = on_line(
        "start_tag",
        None,
        &start_text,
        0,
        16,
        vec![
            on_line("tag_name", Some("name"), "hubref", 0, 17, vec![]),
            on_line(
                "attribute",
                None,
                &format!("id={}", id_value),
                0,
                24,
                vec![
                    on_line("attribute_name", None, "id", 0, 24, vec![]),
                    on_line("=", None, "=", 0, 26, vec![]),
                    on_line("quoted_attribute_value", None, &id_value, 0, 27, vec![]),
                ],
            ),
        ],
    );
    let after_start = 16 + start_text.len() as u32;
    let element_text = format!("{}{}</hubref>", start_text, text);
    let element = on_line(
        "element",
        None,
        &element_text,
        0,
        16,
        vec![
            start,
            on_line("text", None, text, 0, after_start, vec![]),
            on_line(
                "end_tag",
                None,
                "</hubref>",
                0,
                after_start + text.len() as u32,
                vec![on_line("tag_name", Some("name"), "hubref", 0, after_start + text.len() as u32 + 2, vec![])],
            ),
        ],
    );
    let end = contents.len() as u32;
    let body = node("body_block", None, "<body>...</body>", rng(0, 10, 0, end - 11), vec![element]);
    let document = node("document_block", None, contents, rng(0, 0, 0, end), vec![body]);
    node("source_file", None, contents, rng(0, 0, 0, end), vec![document])
}

fn story_tags(path: &str) -> Vec<TwxmlTag> {
    vec![tag("document", None, path), tag("body", Some("document"), path), tag("hubref", Some("body"), path)]
}

#[test]
fn test_salsa_indexing_and_resolution() {
    // 1. A Hub definition in HubGS: INSTANCES [ aragorn:Person { name = 'Aragorn' } ]
    let mut defs = no_defs();
    defs.instances = vec![instance("aragorn", "Person", "fantasy.hubgs", 0, vec![assign("name", 0, text("Aragorn"))])];
    // 2. A reference in TWXML
    let contents = twxml("<hubref id='aragorn'>Aragorn</hubref>");
    let tree = hubref_tree(&contents, "aragorn", "Aragorn");
    let refs = parse_twxml_ast("story.twxml", &tree);
    // 3. The workspace
    let ws = Workspace {
        files: vec![
            file("fantasy.hubgs", "INSTANCES [ aragorn:Person { name = 'Aragorn' } ]", defs, vec![], vec![]),
            file("story.twxml", &contents, no_defs(), refs, story_tags("story.twxml")),
        ],
    };
    // 4. Verify indexing
    let instances = all_hub_instances(&ws);
    assert_eq!(instances.len(), 1);
    assert_eq!(instances[0].name, "aragorn");
    // 5. Verify resolution
    let resolved = resolve_reference(&ws, &"aragorn".to_string());
    assert!(resolved.is_some());
    assert_eq!(resolved.unwrap().name, "aragorn");
    // 6. Verify diagnostics (should be empty for valid ref)
    let errors = validate_file(&ws, &ws.files[1], Some(&tree), &vec![None]);
    assert!(errors.is_empty(), "{:?}", messages(&errors));
}

#[test]
fn test_broken_reference_diagnostic() {
    // Reference to non-existent 'gandalf'
    let contents = twxml("<hubref id='gandalf'>Gandalf</hubref>");
    let tree = hubref_tree(&contents, "gandalf", "Gandalf");
    let refs = parse_twxml_ast("story.twxml", &tree);
    let ws = Workspace { files: vec![file("story.twxml", &contents, no_defs(), refs, story_tags("story.twxml"))] };
    let errors = validate_file(&ws, &ws.files[0], Some(&tree), &vec![None]);
    assert_eq!(errors.len(), 1);
    assert!(errors[0].message.contains("gandalf"));
}

#[test]
fn test_unknown_hub_type_diagnostic() {
    // Instance of non-existent 'Alien' type: INSTANCES [ zorp:Alien { name = 'Zorp' } ]
    let mut defs = no_defs();
    defs.instances = vec![instance("zorp", "Alien", "fantasy.hubgs", 0, vec![assign("name", 0, text("Zorp"))])];
    let ws = Workspace { files: vec![file("fantasy.hubgs", "INSTANCES [ zorp:Alien { name = 'Zorp' } ]", defs, vec![], vec![])] };
    let errors = validate_file(&ws, &ws.files[0], None, &vec![]);
    // unknown type error + orphaned instances guard
    assert!(errors.iter().any(|e| e.message.contains("Alien")));
}

#[test]
fn test_completion() {
    let path = "fantasy.hubgs";
    let mut defs = no_defs();
    defs.instances = vec![
        instance("aragorn", "Person", path, 0, vec![assign("name", 0, text("Aragorn"))]),
        instance("gandalf", "Wizard", path, 0, vec![assign("name", 0, text("Gandalf"))]),
    ];
    let ws = Workspace { files: vec![file(path, "", defs, vec![], vec![])] };
    let instances = all_hub_instances(&ws);
    assert_eq!(instances.len(), 2);
    let names: Vec<String> = instances.iter().map(|i| i.name.clone()).collect();
    assert!(names.contains(&"aragorn".to_string()));
    assert!(names.contains(&"gandalf".to_string()));
}

fn fantasy_fields(path: &str) -> Vec<GlobalField> {
    vec![
        global("first_name", "Text", path, 3),
        global("resides_in", "Location", path, 4),
        global("name", "Text", path, 5),
        global("unknown_field", "Text", path, 6),
    ]
}

#[test]
fn test_context_aware_completion() {
    let path = "fantasy.hubgs";
    let mut defs = no_defs();
    defs.global_fields = fantasy_fields(path);
    defs.types = vec![hub_type("Person", path, 9, vec![field_def("first_name", 10)], vec![role("resides_in", "1", &["Location"])])];
    defs.instances = vec![instance("aragorn", "Person", path, 16, vec![])];
    let ws = Workspace { files: vec![file(path, "", defs, vec![], vec![])] };

    // 1. Verify type parsing
    let types = all_hub_types(&ws);
    assert_eq!(types.len(), 1);
    let person_type = &types[0];
    assert_eq!(person_type.name, "Person");
    assert!(person_type.fields.iter().any(|f| f.name == "first_name"));
    assert!(person_type.roles.iter().any(|r| r.name == "resides_in"));

    // 2. Verify context identification: line 17 is inside the aragorn:Person block
    let block = node(
        "instance_block",
        None,
        "aragorn:Person {\n\n    }",
        rng(16, 4, 18, 5),
        vec![
            on_line("identifier", Some("id"), "aragorn", 16, 4, vec![]),
            on_line(":", None, ":", 16, 11, vec![]),
            on_line("identifier", Some("type"), "Person", 16, 12, vec![]),
            on_line("{", None, "{", 16, 19, vec![]),
            on_line("}", None, "}", 18, 4, vec![]),
        ],
    );
    let instances = node("instances_section", None, "INSTANCES [...]", rng(15, 0, 19, 1), vec![block]);
    let hub = node("hub_definition", None, "Person {...}", rng(9, 8, 12, 9), vec![on_line("identifier", None, "Person", 9, 8, vec![])]);
    let definitions = node(
        "definitions_section",
        None,
        "DEFINITIONS [...]",
        rng(1, 0, 14, 1),
        vec![node("hubs_block", None, "HUBS [...]", rng(8, 4, 13, 5), vec![hub])],
    );
    let root = node("source_file", None, "", rng(0, 0, 20, 0), vec![definitions, instances]);
    let type_at_pos = get_hub_type_at_position(&root, LspPosition { line: 17, character: 8 });
    assert_eq!(type_at_pos, Some("Person".to_string()));
}

#[test]
fn test_semantic_tokens_twxml() {
    let contents = twxml("<hubref id='aragorn'>Aragorn</hubref>");
    let tree = hubref_tree(&contents, "aragorn", "Aragorn");
    let refs = parse_twxml_ast("story.twxml", &tree);
    let f = file("story.twxml", &contents, no_defs(), refs, vec![]);
    let tokens = compute_semantic_tokens(&f, &vec![]);
    assert_eq!(tokens.len(), 1);
    assert_eq!(tokens[0].token_type, 2); // VARIABLE
    assert_eq!(tokens[0].character, 28); // After id=' (shifted by new skeleton prefix)
}

#[test]
fn test_deep_validation() {
    let path = "fantasy.hubgs";
    let mut defs = no_defs();
    defs.global_fields = fantasy_fields(path);
    defs.types = vec![
        hub_type("Person", path, 9, vec![field_def("first_name", 10)], vec![role("resides_in", "1", &["Location"])]),
        hub_type("Location", path, 13, vec![field_def("name", 14)], vec![]),
        hub_type("Wizard", path, 16, vec![field_def("name", 17)], vec![]),
    ];
    defs.instances = vec![
        instance("rivendell", "Location", path, 22, vec![assign("name", 22, text("Rivendell"))]),
        instance("gandalf", "Wizard", path, 23, vec![assign("name", 23, text("Gandalf"))]),
        instance(
            "aragorn",
            "Person",
            path,
            24,
            vec![
                assign("first_name", 25, text("Aragorn")),
                assign("resides_in", 26, refs(&["rivendell"])),
                assign("unknown_field", 27, text("Oops")),
            ],
        ),
        instance("boromir", "Person", path, 29, vec![assign("resides_in", 30, refs(&["gandalf"]))]),
    ];
    let ws = Workspace { files: vec![file(path, "", defs, vec![], vec![])] };
    let errors = validate_file(&ws, &ws.files[0], None, &vec![]);
    // 1. unknown_field error
    assert!(errors.iter().any(|e| e.message.contains("unknown_field")));
    // 2. Type mismatch error (gandalf is Wizard, resides_in ALLOWS Location)
    assert!(errors.iter().any(|e| e.message.contains("Type mismatch") && e.message.contains("resides_in")));
}

#[test]
fn test_multiplicity_validation() {
    let path = "fantasy.hubgs";
    let mut defs = no_defs();
    defs.global_fields = fantasy_fields(path);
    defs.types = vec![
        hub_type("Person", path, 9, vec![field_def("first_name", 10)], vec![role("resides_in", "1", &["Location"])]),
        hub_type("Location", path, 13, vec![field_def("name", 14)], vec![]),
    ];
    defs.instances = vec![
        instance("rivendell", "Location", path, 19, vec![assign("name", 19, text("Rivendell"))]),
        // Missing resides_in
        instance("aragorn", "Person", path, 20, vec![assign("first_name", 21, text("Aragorn"))]),
        instance(
            "boromir",
            "Person",
            path,
            24,
            vec![assign("first_name", 25, text("Boromir")), assign("resides_in", 26, refs(&["rivendell", "rivendell"]))],
        ),
    ];
    let ws = Workspace { files: vec![file(path, "", defs, vec![], vec![])] };
    let errors = validate_file(&ws, &ws.files[0], None, &vec![]);
    // 1. Missing required role 'resides_in' for aragorn
    assert!(errors.iter().any(|e| e.message.contains("Missing required role 'resides_in'")));
    // 2. Multiplicity violation for boromir (expected 1, found 2)
    assert!(errors.iter().any(|e| e.message.contains("Multiplicity violation") && e.message.contains("resides_in")));
}

#[test]
fn test_imports_resolution() {
    // 1. Define 'Location' in schema.hubgs
    let mut schema = no_defs();
    schema.global_fields = fantasy_fields("schema.hubgs");
    schema.types = vec![hub_type("Location", "schema.hubgs", 9, vec![field_def("name", 10)], vec![])];
    // 2. Import 'Location' in story.hubgs
    let mut story = no_defs();
    story.imports = vec![HubImport { types: vec!["Location".to_string()], from: "schema.hubgs".to_string() }];
    story.instances = vec![instance("rivendell", "Location", "story.hubgs", 5, vec![assign("name", 6, text("Rivendell"))])];
    let ws = Workspace {
        files: vec![file("schema.hubgs", "", schema, vec![], vec![]), file("story.hubgs", "", story, vec![], vec![])],
    };
    // Verify 'Location' is visible in story_file
    let resolved = resolve_type(&ws, &ws.files[1], &"Location".to_string());
    assert!(resolved.is_some());
    assert_eq!(resolved.unwrap().name, "Location");
    // Verify diagnostics are clean in story_file
    let errors = validate_file(&ws, &ws.files[1], None, &vec![]);
    assert!(errors.is_empty(), "Errors: {:?}", messages(&errors));
}

#[test]
fn test_type_goto_definition() {
    let path = "fantasy.hubgs";
    let mut defs = no_defs();
    defs.global_fields = fantasy_fields(path);
    defs.types = vec![hub_type("Character", path, 9, vec![field_def("name", 10)], vec![])];
    let ws = Workspace { files: vec![file(path, "", defs, vec![], vec![])] };
    let resolved = resolve_type(&ws, &ws.files[0], &"Character".to_string());
    assert!(resolved.is_some());
    let character_type = resolved.unwrap();
    // 'Character' starts on line 9, character 8
    let range = character_type.range;
    assert_eq!(range.start.line, 9);
    assert_eq!(range.start.character, 8);
}

#[test]
fn test_global_field_completion() {
    let path = "fantasy.hubgs";
    let mut defs = no_defs();
    defs.global_fields = vec![global("first_name", "Text", path, 3), global("last_name", "Text", path, 4)];
    defs.types = vec![hub_type("Person", path, 7, vec![], vec![])];
    let ws = Workspace { files: vec![file(path, "", defs, vec![], vec![])] };

    // Line 8 is inside Person { ... }
    let hub = node(
        "hub_definition",
        None,
        "Person {\n\n        }",
        rng(7, 8, 9, 9),
        vec![on_line("identifier", None, "Person", 7, 8, vec![]), on_line("{", None, "{", 7, 15, vec![]), on_line("}", None, "}", 9, 8, vec![])],
    );
    let hubs = node("hubs_block", None, "HUBS [...]", rng(6, 4, 10, 5), vec![hub]);
    let fields = node("fields_block", None, "FIELDS [...]", rng(2, 4, 5, 6), vec![]);
    let definitions = node("definitions_section", None, "DEFINITIONS [...]", rng(1, 0, 11, 1), vec![fields, hubs]);
    let root = node("source_file", None, "", rng(0, 0, 12, 0), vec![definitions]);
    assert!(is_in_hub_definition(&root, LspPosition { line: 8, character: 12 }));

    let global_fields = all_global_fields(&ws);
    assert_eq!(global_fields.len(), 2);
    assert_eq!(global_fields[0].name, "first_name");
}

#[test]
fn hubgs_captures_give_legend_tokens() {
    // A type definition is declared and defined; an instance name is defined.
    assert_eq!(hubgs_capture_token("type_def"), Some((0, 3)));
    assert_eq!(hubgs_capture_token("inst_name"), Some((2, 2)));
    assert_eq!(hubgs_capture_token("inst_type"), Some((0, 0)));
    assert_eq!(hubgs_capture_token("role_name"), Some((1, 3)));
    assert_eq!(hubgs_capture_token("assign_name"), Some((1, 0)));
    assert_eq!(hubgs_capture_token("enum_name"), Some((3, 3)));
    assert_eq!(hubgs_capture_token("comment"), None);
}

#[test]
fn semantic_tokens_encoded_relative_to_each_other() {
    let t = |line: u32, character: u32| SemanticToken { line, character, length: 3, token_type: 2, token_modifiers: 0 };
    let encoded = encode_tokens(&vec![t(1, 4), t(1, 10), t(3, 2)]);
    let e = |delta_line: u32, delta_start: u32| EncodedToken { delta_line, delta_start, length: 3, token_type: 2, token_modifiers: 0 };
    assert_eq!(encoded, vec![e(1, 4), e(0, 6), e(2, 2)]);
}
