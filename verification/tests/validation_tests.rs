use tauwriter_lsp::model::{
    GlobalField, HubAssignment, HubFieldDef, HubImport, HubInstance, HubReference, HubRoleDef, HubType, HubValue,
    HubgsParseResult, SourceFile, TwxmlTag, ValidationError, Workspace, WorkspaceFile,
};
use tauwriter_lsp::position::{LspPosition, LspRange};
use tauwriter_lsp::syntax::SyntaxNode;
use tauwriter_lsp::twxml_rules::{get_tag_name, has_attribute, is_valid_twxml_tag};
use tauwriter_lsp::validation::{validate_file, validate_value_type};

fn rng(l1: u32, c1: u32, l2: u32, c2: u32) -> LspRange {
    LspRange { start: LspPosition { line: l1, character: c1 }, end: LspPosition { line: l2, character: c2 } }
}

fn no_defs() -> HubgsParseResult {
    HubgsParseResult {
        instances: vec![],
        types: vec![],
        enums: vec![],
        structs: vec![],
        global_fields: vec![],
        imports: vec![],
    }
}

fn file(path: &str, contents: &str, hubgs: HubgsParseResult, refs: Vec<HubReference>, tags: Vec<TwxmlTag>) -> WorkspaceFile {
    WorkspaceFile {
        source: SourceFile { path: path.to_string(), contents: contents.to_string() },
        hubgs,
        references: refs,
        tags,
    }
}

fn tag(name: &str, parent: Option<&str>, path: &str, line: u32) -> TwxmlTag {
    TwxmlTag {
        name: name.to_string(),
        file: path.to_string(),
        range: rng(line, 0, line, 5),
        parent_name: parent.map(|p| p.to_string()),
    }
}

fn skeleton(path: &str) -> Vec<TwxmlTag> {
    vec![tag("document", None, path, 0), tag("body", Some("document"), path, 0)]
}

fn reference(name: &str, field: Option<&str>, text: Option<&str>, path: &str) -> HubReference {
    HubReference {
        name: name.to_string(),
        file: path.to_string(),
        range: rng(0, 20, 0, 30),
        field: field.map(|f| f.to_string()),
        text: text.map(|t| t.to_string()),
        tag_range: rng(0, 16, 0, 40),
        is_reviewed: false,
    }
}

fn field_def(name: &str) -> HubFieldDef {
    HubFieldDef {
        name: name.to_string(),
        range: rng(3, 8, 3, 8 + name.len() as u32),
        decorator: None,
        expression: None,
        is_display: false,
        is_background: false,
    }
}

fn role(name: &str, mult: &str, allowed: &[&str]) -> HubRoleDef {
    HubRoleDef {
        name: name.to_string(),
        direction: "->".to_string(),
        multiplicity: mult.to_string(),
        allowed_types: allowed.iter().map(|a| a.to_string()).collect(),
    }
}

fn hub_type(name: &str, path: &str, fields: &[&str], roles: Vec<HubRoleDef>, parents: &[&str]) -> HubType {
    HubType {
        name: name.to_string(),
        file: path.to_string(),
        range: rng(6, 8, 6, 8 + name.len() as u32),
        block_range: rng(6, 8, 8, 9),
        fields: fields.iter().map(|f| field_def(f)).collect(),
        roles,
        extends_parents: parents.iter().map(|p| p.to_string()).collect(),
        constraints: vec![],
    }
}

fn global(name: &str, ty: &str, path: &str) -> GlobalField {
    GlobalField { name: name.to_string(), file: path.to_string(), range: rng(2, 8, 2, 12), field_type: ty.to_string() }
}

fn assign(name: &str, value: HubValue) -> HubAssignment {
    HubAssignment { name: name.to_string(), range: rng(11, 8, 11, 12), value, value_range: rng(11, 15, 11, 20) }
}

fn instance(name: &str, ty: &str, path: &str, assignments: Vec<HubAssignment>) -> HubInstance {
    HubInstance {
        name: name.to_string(),
        instance_type: ty.to_string(),
        file: path.to_string(),
        range: rng(10, 4, 10, 4 + name.len() as u32),
        block_range: rng(10, 4, 12, 5),
        description: None,
        assignments,
    }
}

fn leaf(kind: &str, field: Option<&str>, text: &str) -> SyntaxNode {
    SyntaxNode {
        kind: kind.to_string(),
        field: field.map(|f| f.to_string()),
        text: text.to_string(),
        range: rng(0, 0, 0, text.len() as u32),
        has_error: false,
        children: vec![],
    }
}

fn inner(kind: &str, text: &str, start: u32, children: Vec<SyntaxNode>) -> SyntaxNode {
    SyntaxNode {
        kind: kind.to_string(),
        field: None,
        text: text.to_string(),
        range: rng(0, start, 0, start + text.len() as u32),
        has_error: false,
        children,
    }
}

fn messages(errors: &[ValidationError]) -> Vec<String> {
    errors.iter().map(|e| e.message.clone()).collect()
}

fn lotr_age_file() -> WorkspaceFile {
    let mut defs = no_defs();
    defs.global_fields = vec![global("age", "Number", "lotr.hubgs")];
    defs.types = vec![hub_type("Character", "lotr.hubgs", &["age"], vec![], &[])];
    defs.instances =
        vec![instance("aragorn", "Character", "lotr.hubgs", vec![assign("age", HubValue::Number("87".to_string()))])];
    file("lotr.hubgs", "", defs, vec![], vec![])
}

#[test]
fn test_twxml_invalid_tag_diagnostic() {
    let path = "story.twxml";
    let mut tags = skeleton(path);
    tags.push(tag("invalidtag", Some("body"), path, 0));
    let f = file(path, "<document><body><invalidtag>Content</invalidtag></body></document>", no_defs(), vec![], tags);
    let ws = Workspace { files: vec![] };
    let errors = validate_file(&ws, &f, None, &vec![]);
    assert!(errors.iter().any(|e| e.message.contains("Unknown TWXML tag 'invalidtag'")));
}

#[test]
fn test_twxml_nesting_rule_diagnostic() {
    let path = "story.twxml";
    let mut tags = skeleton(path);
    tags.push(tag("section", Some("body"), path, 0));
    tags.push(tag("paragraph", Some("section"), path, 0));
    tags.push(tag("heading", Some("paragraph"), path, 0));
    let f = file(path, "", no_defs(), vec![], tags);
    let ws = Workspace { files: vec![] };
    let errors = validate_file(&ws, &f, None, &vec![]);
    assert!(errors
        .iter()
        .any(|e| e.message == "Invalid nesting: tag 'heading' is not allowed as a child of 'paragraph'"));
}

#[test]
fn test_twxml_unresolved_hubref_diagnostic() {
    let mut defs = no_defs();
    defs.instances = vec![instance("aragorn", "Character", "lotr.hubgs", vec![])];
    let hub = file("lotr.hubgs", "INSTANCES [ aragorn: Character {} ]", defs, vec![], vec![]);
    let path = "story.twxml";
    let mut tags = skeleton(path);
    tags.push(tag("hubref", Some("body"), path, 0));
    let story = file(path, "", no_defs(), vec![reference("gandalf", None, None, path)], tags);
    let ws = Workspace { files: vec![hub, story] };
    let errors = validate_file(&ws, &ws.files[1], None, &vec![]);
    assert!(errors.iter().any(|e| e.message == "Hub reference 'gandalf' not found"));
}

#[test]
fn test_twxml_self_closing_hubref_field_validation() {
    let valid_path = "story_valid.twxml";
    let mut tags = skeleton(valid_path);
    tags.push(tag("hubref", Some("body"), valid_path, 0));
    let valid = file(valid_path, "", no_defs(), vec![reference("aragorn", Some("age"), None, valid_path)], tags);
    let ws_valid = Workspace { files: vec![lotr_age_file(), valid] };
    let errors_valid = validate_file(&ws_valid, &ws_valid.files[1], None, &vec![None]);
    assert!(errors_valid.is_empty(), "Expected no errors, found {:?}", messages(&errors_valid));

    let invalid_path = "story_invalid.twxml";
    let mut tags = skeleton(invalid_path);
    tags.push(tag("hubref", Some("body"), invalid_path, 0));
    let invalid =
        file(invalid_path, "", no_defs(), vec![reference("aragorn", Some("nonexistent"), None, invalid_path)], tags);
    let ws_invalid = Workspace { files: vec![lotr_age_file(), invalid] };
    let errors_invalid = validate_file(&ws_invalid, &ws_invalid.files[1], None, &vec![None]);
    assert!(errors_invalid.iter().any(|e| e.message.contains("Unknown field 'nonexistent'")));
}

fn lotr_name_file() -> WorkspaceFile {
    let mut defs = no_defs();
    defs.global_fields = vec![global("name", "Text", "lotr.hubgs")];
    defs.types = vec![hub_type("Character", "lotr.hubgs", &["name"], vec![], &[])];
    defs.instances = vec![instance(
        "aragorn",
        "Character",
        "lotr.hubgs",
        vec![assign("name", HubValue::Text("Elessar".to_string()))],
    )];
    file("lotr.hubgs", "", defs, vec![], vec![])
}

#[test]
fn test_twxml_wrapping_hubref_sync_validation() {
    let hub = lotr_name_file();
    // the computed value of the field `name`, as the evaluator renders it
    let computed = vec![Some("Elessar".to_string())];

    let sync_path = "story_sync.twxml";
    let mut tags = skeleton(sync_path);
    tags.push(tag("hubref", Some("body"), sync_path, 0));
    let sync = file(sync_path, "", no_defs(), vec![reference("aragorn", Some("name"), Some("Elessar"), sync_path)], tags);
    let ws_sync = Workspace { files: vec![hub, sync] };
    let errors_sync = validate_file(&ws_sync, &ws_sync.files[1], None, &computed);
    assert!(errors_sync.is_empty(), "Expected no errors, found {:?}", messages(&errors_sync));

    let unsync_path = "story_unsync.twxml";
    let mut tags = skeleton(unsync_path);
    tags.push(tag("hubref", Some("body"), unsync_path, 0));
    let unsync =
        file(unsync_path, "", no_defs(), vec![reference("aragorn", Some("name"), Some("Strider"), unsync_path)], tags);
    let ws_unsync = Workspace { files: vec![lotr_name_file(), unsync] };
    let errors_unsync = validate_file(&ws_unsync, &ws_unsync.files[1], None, &computed);
    assert!(errors_unsync.iter().any(|e| e.message == "Out of sync: expected 'Elessar', found 'Strider'"));
}

#[test]
fn test_hubgs_type_mismatch_diagnostic() {
    let mut defs = no_defs();
    defs.global_fields = vec![global("age", "Number", "lotr.hubgs")];
    defs.types = vec![hub_type("Character", "lotr.hubgs", &["age"], vec![], &[])];
    defs.instances =
        vec![instance("frodo", "Character", "lotr.hubgs", vec![assign("age", HubValue::Text("fifty".to_string()))])];
    let ws = Workspace { files: vec![file("lotr.hubgs", "", defs, vec![], vec![])] };
    let errors = validate_file(&ws, &ws.files[0], None, &vec![]);
    assert!(errors.iter().any(|e| e.message == "Type mismatch for field 'age': expected 'Number'"));
    assert_eq!(errors.len(), 1);
}

#[test]
fn test_hubgs_orphaned_instances() {
    let mut defs = no_defs();
    defs.instances =
        vec![instance("hero", "Person", "orphan.hubgs", vec![assign("name", HubValue::Text("Hero".to_string()))])];
    let ws = Workspace { files: vec![file("orphan.hubgs", "INSTANCES [ hero:Person { name = 'Hero' } ]", defs, vec![], vec![])] };
    let errors = validate_file(&ws, &ws.files[0], None, &vec![]);
    assert!(errors.iter().any(|e| e.message.contains("no definitions or imports")));
    assert_eq!(
        errors[0].message,
        "Instance 'hero' uses type 'Person' but no definitions or imports are present"
    );
    assert!(errors.iter().any(|e| e.message == "Unknown Hub type 'Person'"));
}

#[test]
fn test_hubgs_instances_resolved_via_imports() {
    let mut schema = no_defs();
    schema.global_fields = vec![global("name", "Text", "schema.hubgs")];
    schema.types = vec![hub_type("Person", "schema.hubgs", &["name"], vec![], &[])];
    let mut story = no_defs();
    story.imports = vec![HubImport { types: vec!["Person".to_string()], from: "schema.hubgs".to_string() }];
    story.instances =
        vec![instance("hero", "Person", "story.hubgs", vec![assign("name", HubValue::Text("Hero".to_string()))])];
    let ws = Workspace {
        files: vec![file("schema.hubgs", "", schema, vec![], vec![]), file("story.hubgs", "", story, vec![], vec![])],
    };
    let errors = validate_file(&ws, &ws.files[1], None, &vec![]);
    assert!(errors.is_empty(), "Expected no errors, found: {:?}", messages(&errors));
}

#[test]
fn test_twxml_skeleton_missing_metadata() {
    let path = "no_meta.twxml";
    let mut tags = skeleton(path);
    tags.push(tag("paragraph", Some("body"), path, 0));
    let f = file(path, "<document><body><paragraph>Hello</paragraph></body></document>", no_defs(), vec![], tags);
    let ws = Workspace { files: vec![] };
    let errors = validate_file(&ws, &f, None, &vec![]);
    assert!(errors.is_empty(), "Expected no errors for valid document without meta tags, found: {:?}", messages(&errors));
}

#[test]
fn test_twxml_skeleton_missing_body() {
    let path = "no_body.twxml";
    let tags = vec![tag("document", None, path, 0), tag("meta", Some("document"), path, 0)];
    let f = file(path, "<document><meta /></document>", no_defs(), vec![], tags);
    let ws = Workspace { files: vec![] };
    let errors = validate_file(&ws, &f, None, &vec![]);
    assert!(errors.iter().any(|e| e.message == "Document missing required <body> block"));
    assert_eq!(errors[0].range, rng(0, 0, 0, 0));
}

#[test]
fn test_twxml_skeleton_valid() {
    let path = "valid.twxml";
    let mut tags = skeleton(path);
    tags.push(tag("paragraph", Some("body"), path, 0));
    let f = file(path, "", no_defs(), vec![], tags);
    let ws = Workspace { files: vec![] };
    let errors = validate_file(&ws, &f, None, &vec![]);
    assert!(
        !errors.iter().any(|e| e.message.contains("missing required") || e.message.contains("Duplicate")),
        "Expected no skeleton errors, found: {:?}",
        messages(&errors)
    );
}

#[test]
fn twxml_duplicate_body_reported_at_each() {
    let path = "dup.twxml";
    let mut tags = skeleton(path);
    tags.push(tag("body", Some("document"), path, 1));
    let f = file(path, "", no_defs(), vec![], tags);
    let ws = Workspace { files: vec![] };
    let errors = validate_file(&ws, &f, None, &vec![]);
    let dups: Vec<_> =
        errors.iter().filter(|e| e.message == "Duplicate <body> block \u{2014} document must contain exactly one").collect();
    assert_eq!(dups.len(), 2);
}

#[test]
fn test_twxml_invalid_self_closing_tag() {
    let path = "story.twxml";
    let mut tags = skeleton(path);
    tags.push(tag("invalidtag", Some("body"), path, 0));
    let f = file(path, "", no_defs(), vec![], tags);
    let ws = Workspace { files: vec![] };
    let errors = validate_file(&ws, &f, None, &vec![]);
    assert!(errors.iter().any(|e| e.message.contains("Unknown TWXML tag 'invalidtag'")));
}

#[test]
fn twxml_metadata_tag_gets_a_hint() {
    let path = "story.twxml";
    let mut tags = skeleton(path);
    tags.push(tag("metadata", Some("document"), path, 0));
    let f = file(path, "", no_defs(), vec![], tags);
    let ws = Workspace { files: vec![] };
    let errors = validate_file(&ws, &f, None, &vec![]);
    assert_eq!(messages(&errors), vec!["Unknown TWXML tag 'metadata'. Did you mean '<meta />' at the document root?"]);
}

fn start_tag(name: &str) -> SyntaxNode {
    inner("start_tag", &format!("<{}>", name), 0, vec![leaf("tag_name", Some("name"), name)])
}

fn end_tag(name: &str) -> SyntaxNode {
    inner("end_tag", &format!("</{}>", name), 0, vec![leaf("tag_name", Some("name"), name)])
}

fn attribute(name: &str, value: &str) -> SyntaxNode {
    inner(
        "attribute",
        &format!("{}={}", name, value),
        0,
        vec![leaf("attribute_name", None, name), leaf("=", None, "="), leaf("quoted_attribute_value", None, value)],
    )
}

#[test]
fn test_twxml_meta_invalid_nesting() {
    let contents =
        "<document><body><paragraph><meta name=\"author\" content=\"Tolkien\"/></paragraph></body></document>";
    let meta = inner(
        "self_closing_element",
        "<meta name=\"author\" content=\"Tolkien\"/>",
        27,
        vec![leaf("tag_name", Some("name"), "meta"), attribute("name", "\"author\""), attribute("content", "\"Tolkien\"")],
    );
    let paragraph = inner("element", "<paragraph>...</paragraph>", 16, vec![start_tag("paragraph"), meta, end_tag("paragraph")]);
    let body = inner("body_block", "<body>...</body>", 10, vec![paragraph]);
    let document = inner("document_block", contents, 0, vec![body]);
    let root = inner("source_file", contents, 0, vec![document]);
    let path = "nested_meta.twxml";
    let mut tags = skeleton(path);
    tags.push(tag("paragraph", Some("body"), path, 0));
    tags.push(tag("meta", Some("paragraph"), path, 0));
    let f = file(path, contents, no_defs(), vec![], tags);
    let ws = Workspace { files: vec![] };
    let errors = validate_file(&ws, &f, Some(&root), &vec![]);
    assert!(errors
        .iter()
        .any(|e| e.message == "Invalid nesting: tag 'meta' is only allowed as a direct child of 'document'"));
    assert!(errors.iter().any(|e| e.message == "Invalid positioning: tag 'meta' must precede the <body> block"));
}

#[test]
fn test_twxml_include_tag_valid() {
    let contents = "<document><body><include src=\"chapter2.twxml\" /></body></document>";
    let incl_node = inner(
        "self_closing_element",
        "<include src=\"chapter2.twxml\" />",
        16,
        vec![leaf("tag_name", Some("name"), "include"), attribute("src", "\"chapter2.twxml\"")],
    );
    let body = inner("body_block", "<body>...</body>", 10, vec![incl_node]);
    let root = inner("source_file", contents, 0, vec![inner("document_block", contents, 0, vec![body])]);
    let path = "include_valid.twxml";
    let mut tags = skeleton(path);
    tags.push(tag("include", Some("body"), path, 0));
    let f = file(path, contents, no_defs(), vec![], tags);
    let ws = Workspace { files: vec![] };
    let errors = validate_file(&ws, &f, Some(&root), &vec![]);
    assert!(!errors.iter().any(|e| e.message.contains("Invalid include") || e.message.contains("Unknown TWXML tag")));
}

#[test]
fn twxml_include_without_src_and_block_include() {
    let empty_include = inner("self_closing_element", "<include />", 16, vec![leaf("tag_name", Some("name"), "include")]);
    let blank_src = inner(
        "self_closing_element",
        "<include src=\"  \" />",
        30,
        vec![leaf("tag_name", Some("name"), "include"), attribute("src", "\"  \"")],
    );
    let block_include = inner("element", "<include></include>", 50, vec![start_tag("include"), end_tag("include")]);
    let mismatched = inner("element", "<bold></italic>", 70, vec![start_tag("bold"), end_tag("italic")]);
    let body = inner("body_block", "<body>...</body>", 10, vec![empty_include, blank_src, block_include, mismatched]);
    let root = inner("source_file", "", 0, vec![inner("document_block", "", 0, vec![body])]);
    let path = "includes.twxml";
    let f = file(path, "<document><body></body></document>", no_defs(), vec![], skeleton(path));
    let ws = Workspace { files: vec![] };
    let errors = validate_file(&ws, &f, Some(&root), &vec![]);
    // children are walked from the last to the first
    assert_eq!(
        messages(&errors),
        vec![
            "Mismatched closing tag. Expected `</bold>`",
            "Invalid include: tag 'include' must be self-closing",
            "Invalid include: tag 'include' must have a non-empty 'src' attribute",
            "Invalid include: tag 'include' must have a non-empty 'src' attribute",
        ]
    );
}

#[test]
fn test_validate_value_type_primitives() {
    let ws = Workspace { files: vec![] };

    // Test Text
    let val_text = HubValue::Text("hello".to_string());
    assert!(validate_value_type(&ws, &val_text, "Text"));
    assert!(!validate_value_type(&ws, &val_text, "Number"));

    // Test Number
    let val_num = HubValue::Number("12.3".to_string());
    assert!(validate_value_type(&ws, &val_num, "Number"));
    assert!(!validate_value_type(&ws, &val_num, "Boolean"));

    // Test Boolean
    let val_bool = HubValue::Boolean(true);
    assert!(validate_value_type(&ws, &val_bool, "Boolean"));
    assert!(!validate_value_type(&ws, &val_bool, "Text"));

    // Test Image
    let val_img_valid = HubValue::Text("avatar.png".to_string());
    let val_img_invalid = HubValue::Text("avatar.txt".to_string());
    assert!(validate_value_type(&ws, &val_img_valid, "Image"));
    assert!(!validate_value_type(&ws, &val_img_invalid, "Image"));
}

#[test]
fn value_types_image_case_color_enum_arrays() {
    let mut defs = no_defs();
    defs.enums = vec![tauwriter_lsp::model::HubEnum {
        name: "Status".to_string(),
        file: "d.hubgs".to_string(),
        range: rng(0, 0, 0, 6),
        variants: vec!["Active".to_string(), "Inactive".to_string()],
    }];
    let ws = Workspace { files: vec![file("d.hubgs", "", defs, vec![], vec![])] };
    // the lower-casing is what makes an upper-case suffix acceptable
    assert!(validate_value_type(&ws, &HubValue::Text("AVATAR.PNG".to_string()), "Image"));
    assert!(validate_value_type(&ws, &HubValue::Text("#ff0000".to_string()), "Color"));
    assert!(validate_value_type(&ws, &HubValue::Text("rgb(1,2,3)".to_string()), "Color"));
    assert!(!validate_value_type(&ws, &HubValue::Text("red".to_string()), "Color"));
    assert!(validate_value_type(&ws, &HubValue::Identifier("Active".to_string()), "Status"));
    assert!(!validate_value_type(&ws, &HubValue::Identifier("Retired".to_string()), "Status"));
    assert!(!validate_value_type(&ws, &HubValue::Text("Active".to_string()), "Status"));
    assert!(validate_value_type(&ws, &HubValue::Boolean(false), "Whatever"));
    let texts = HubValue::Array(vec![HubValue::Text("a".to_string()), HubValue::Text("b".to_string())]);
    assert!(validate_value_type(&ws, &texts, "Array<Text>"));
    assert!(!validate_value_type(&ws, &texts, "Array<Number>"));
    assert!(validate_value_type(&ws, &HubValue::Number("1".to_string()), "String"));
}

#[test]
fn hubgs_roles_references_and_multiplicity() {
    let path = "fantasy.hubgs";
    let mut defs = no_defs();
    defs.global_fields = vec![global("name", "Text", path)];
    defs.types = vec![
        hub_type("Location", path, &["name"], vec![], &[]),
        hub_type("City", path, &["name"], vec![], &["Location"]),
        hub_type("Person", path, &["name"], vec![role("resides_in", "(1)", &["Location"])], &[]),
    ];
    defs.instances = vec![
        instance("rivendell", "City", path, vec![assign("name", HubValue::Text("Rivendell".to_string()))]),
        instance("frodo", "Person", path, vec![assign("resides_in", HubValue::Identifier("rivendell".to_string()))]),
        instance("sam", "Person", path, vec![assign("resides_in", HubValue::Array(vec![]))]),
        instance("pippin", "Person", path, vec![assign("unknown_field", HubValue::Text("x".to_string()))]),
        instance(
            "merry",
            "Person",
            path,
            vec![assign("resides_in", HubValue::Array(vec![HubValue::Identifier("frodo".to_string())]))],
        ),
        instance(
            "bilbo",
            "Person",
            path,
            vec![assign("resides_in", HubValue::Array(vec![HubValue::Identifier("nowhere".to_string())]))],
        ),
    ];
    let ws = Workspace { files: vec![file(path, "", defs, vec![], vec![])] };
    let errors = validate_file(&ws, &ws.files[0], None, &vec![]);
    assert_eq!(
        messages(&errors),
        vec![
            "Role assignment for 'resides_in' must be an array of references wrapped in '[...]'",
            "Multiplicity violation for role 'resides_in': expected (1), found 0",
            "Unknown field or role 'unknown_field' for type 'Person'",
            "Missing required role 'resides_in' for type 'Person'",
            "Type mismatch: Role 'resides_in' does not allow type 'Person'",
            "Hub reference 'nowhere' not found",
        ]
    );
}

#[test]
fn hubgs_undeclared_field() {
    let path = "defs.hubgs";
    let mut defs = no_defs();
    defs.types = vec![hub_type("Person", path, &["name"], vec![], &[])];
    let ws = Workspace { files: vec![file(path, "", defs, vec![], vec![])] };
    let errors = validate_file(&ws, &ws.files[0], None, &vec![]);
    assert_eq!(messages(&errors), vec!["Field 'name' used in Hub 'Person' must be defined in a FIELDS block"]);
}

#[test]
fn other_files_are_not_validated() {
    let f = file("notes.txt", "", no_defs(), vec![], vec![]);
    let ws = Workspace { files: vec![] };
    assert!(validate_file(&ws, &f, None, &vec![]).is_empty());
}

#[test]
fn test_get_tag_name_element() {
    let section = inner("element", "<section></section>", 16, vec![start_tag("section"), end_tag("section")]);
    assert_eq!(get_tag_name(&section), "section");
}

#[test]
fn test_get_tag_name_self_closing() {
    let meta = inner("meta_tag", "<meta name=\"author\" />", 10, vec![attribute("name", "\"author\"")]);
    assert_eq!(get_tag_name(&meta), "meta_tag");
}

#[test]
fn test_has_attribute_check() {
    let incl_node = inner(
        "self_closing_element",
        "<include src=\"chapter1.twxml\" />",
        16,
        vec![leaf("tag_name", Some("name"), "include"), attribute("src", "\"chapter1.twxml\"")],
    );
    assert!(has_attribute(&incl_node, "src"));
    assert!(!has_attribute(&incl_node, "href"));
    assert_eq!(get_tag_name(&incl_node), "include");
}

#[test]
fn twxml_tag_names() {
    assert!(is_valid_twxml_tag("document"));
    assert!(is_valid_twxml_tag("hubref"));
    assert!(is_valid_twxml_tag("include"));
    assert!(!is_valid_twxml_tag("metadata"));
    assert!(!is_valid_twxml_tag("div"));
}

#[test]
fn test_twxml_include_tag_invalid() {
    // 1. Missing src attribute
    let contents1 = "<document><body><include /></body></document>";
    let incl = inner("self_closing_element", "<include />", 16, vec![leaf("tag_name", Some("name"), "include")]);
    let body = inner("body_block", "<body><include /></body>", 10, vec![incl]);
    let root1 = inner("source_file", contents1, 0, vec![inner("document_block", contents1, 0, vec![body])]);
    let path1 = "include_no_src.twxml";
    let mut tags1 = skeleton(path1);
    tags1.push(tag("include", Some("body"), path1, 0));
    let f1 = file(path1, contents1, no_defs(), vec![], tags1);
    let ws1 = Workspace { files: vec![] };
    let errors1 = validate_file(&ws1, &f1, Some(&root1), &vec![]);
    assert!(errors1
        .iter()
        .any(|e| e.message == "Invalid include: tag 'include' must have a non-empty 'src' attribute"));

    // 2. Block-style include is invalid
    let contents2 = "<document><body><include src=\"chapter2.twxml\">Nested content</include></body></document>";
    let open = inner(
        "start_tag",
        "<include src=\"chapter2.twxml\">",
        16,
        vec![leaf("tag_name", Some("name"), "include"), attribute("src", "\"chapter2.twxml\"")],
    );
    let block = inner(
        "element",
        "<include src=\"chapter2.twxml\">Nested content</include>",
        16,
        vec![open, leaf("text", None, "Nested content"), end_tag("include")],
    );
    let body = inner("body_block", "<body>...</body>", 10, vec![block]);
    let root2 = inner("source_file", contents2, 0, vec![inner("document_block", contents2, 0, vec![body])]);
    let path2 = "include_block.twxml";
    let mut tags2 = skeleton(path2);
    tags2.push(tag("include", Some("body"), path2, 0));
    let f2 = file(path2, contents2, no_defs(), vec![], tags2);
    let ws2 = Workspace { files: vec![] };
    let errors2 = validate_file(&ws2, &f2, Some(&root2), &vec![]);
    assert!(errors2.iter().any(|e| e.message == "Invalid include: tag 'include' must be self-closing"));
}

#[test]
fn test_twxml_meta_after_body() {
    // <meta /> placed after <body> is invalid
    let contents =
        "<document><body><paragraph>Hello</paragraph></body><meta name=\"author\" content=\"Tolkien\"/></document>";
    let paragraph = inner(
        "element",
        "<paragraph>Hello</paragraph>",
        16,
        vec![start_tag("paragraph"), leaf("text", None, "Hello"), end_tag("paragraph")],
    );
    let body = inner("body_block", "<body><paragraph>Hello</paragraph></body>", 10, vec![paragraph]);
    let meta = inner(
        "self_closing_element",
        "<meta name=\"author\" content=\"Tolkien\"/>",
        51,
        vec![leaf("tag_name", Some("name"), "meta"), attribute("name", "\"author\""), attribute("content", "\"Tolkien\"")],
    );
    let document = inner("document_block", contents, 0, vec![body, meta]);
    let root = inner("source_file", contents, 0, vec![document]);
    let path = "ordered_meta.twxml";
    let mut tags = skeleton(path);
    tags.push(tag("paragraph", Some("body"), path, 0));
    tags.push(tag("meta", Some("document"), path, 0));
    let f = file(path, contents, no_defs(), vec![], tags);
    let ws = Workspace { files: vec![] };
    let errors = validate_file(&ws, &f, Some(&root), &vec![]);
    assert!(errors.iter().any(|e| e.message == "Invalid positioning: tag 'meta' must precede the <body> block"));
}

#[test]
fn test_hubgs_unknown_instance_type() {
    let path = "unknown_type.hubgs";
    let mut defs = no_defs();
    defs.global_fields = vec![global("name", "Text", path)];
    defs.types = vec![hub_type("Character", path, &["name"], vec![], &[])];
    defs.instances =
        vec![instance("hero", "NonExistentType", path, vec![assign("name", HubValue::Text("Hero".to_string()))])];
    let ws = Workspace { files: vec![file(path, "", defs, vec![], vec![])] };
    let errors = validate_file(&ws, &ws.files[0], None, &vec![]);
    assert!(errors.iter().any(|e| e.message == "Unknown Hub type 'NonExistentType'"));
}

#[test]
fn test_hubgs_dependency_validation_imports_satisfy() {
    let mut defs = no_defs();
    defs.global_fields = vec![global("name", "Text", "defs.hubgs")];
    defs.types = vec![hub_type("Character", "defs.hubgs", &["name"], vec![], &[])];
    let mut insts = no_defs();
    insts.imports = vec![HubImport { types: vec!["Character".to_string()], from: "defs.hubgs".to_string() }];
    insts.instances =
        vec![instance("hero", "Character", "instances.hubgs", vec![assign("name", HubValue::Text("Hero".to_string()))])];
    let ws = Workspace {
        files: vec![file("defs.hubgs", "", defs, vec![], vec![]), file("instances.hubgs", "", insts, vec![], vec![])],
    };
    let errors = validate_file(&ws, &ws.files[1], None, &vec![]);
    assert!(errors.is_empty(), "Expected no errors when imports satisfy instance types, found: {:?}", messages(&errors));
}

fn refs(names: &[&str]) -> HubValue {
    HubValue::Array(names.iter().map(|n| HubValue::Identifier(n.to_string())).collect())
}

fn named(name: &str, ty: &str, path: &str, text: &str, roles: Vec<(&str, &[&str])>) -> HubInstance {
    let mut assignments = vec![assign("name", HubValue::Text(text.to_string()))];
    for (r, targets) in roles {
        assignments.push(assign(r, refs(targets)));
    }
    instance(name, ty, path, assignments)
}

fn errors_of(path: &str, types: Vec<HubType>, instances: Vec<HubInstance>) -> Vec<String> {
    let mut defs = no_defs();
    defs.global_fields = vec![global("name", "Text", path)];
    defs.types = types;
    defs.instances = instances;
    let ws = Workspace { files: vec![file(path, "", defs, vec![], vec![])] };
    messages(&validate_file(&ws, &ws.files[0], None, &vec![]))
}

#[test]
fn test_polymorphic_validation_child_satisfies_parent_role() {
    let path = "poly.hubgs";
    let errors = errors_of(
        path,
        vec![
            hub_type("Animal", path, &["name"], vec![], &[]),
            hub_type("Dog", path, &["name"], vec![role("role", "1", &["Animal"])], &["Animal"]),
        ],
        vec![named("buddy", "Dog", path, "Buddy", vec![("role", &["rex"])]), named("rex", "Animal", path, "Rex", vec![])],
    );
    assert!(errors.is_empty(), "Expected no validation errors for polymorphic assignment, found: {:?}", errors);
}

#[test]
fn test_polymorphic_validation_no_extends_fails() {
    let path = "poly_fail.hubgs";
    let errors = errors_of(
        path,
        vec![
            hub_type("Animal", path, &["name"], vec![], &[]),
            hub_type("Robot", path, &["name"], vec![role("serve", "1", &["Animal"])], &[]),
        ],
        vec![named("robby", "Robot", path, "Robby", vec![("serve", &["robby"])])],
    );
    assert!(!errors.is_empty(), "Expected type mismatch error for non-extended type");
    assert!(errors.iter().any(|e| e.contains("Type mismatch")), "Expected type mismatch error, found: {:?}", errors);
}

#[test]
fn test_polymorphic_validation_multi_extends_satisfies_any_parent() {
    let path = "poly_multi.hubgs";
    let errors = errors_of(
        path,
        vec![
            hub_type("Animal", path, &["name"], vec![], &[]),
            hub_type("Mammal", path, &["name"], vec![], &[]),
            hub_type(
                "Dragon",
                path,
                &["name"],
                vec![role("roar_to", "1", &["Mammal"]), role("fly_to", "1", &["Animal"])],
                &["Animal", "Mammal"],
            ),
        ],
        vec![
            named("draco", "Dragon", path, "Draco", vec![("roar_to", &["spike"]), ("fly_to", &["sparky"])]),
            named("spike", "Mammal", path, "Spike", vec![]),
            named("sparky", "Animal", path, "Sparky", vec![]),
        ],
    );
    assert!(
        errors.is_empty(),
        "Expected no validation errors for multi-extends polymorphic assignment, found: {:?}",
        errors
    );
}

#[test]
fn test_polymorphic_validation_transitive_extends() {
    let path = "poly_transitive.hubgs";
    let errors = errors_of(
        path,
        vec![
            hub_type("LivingThing", path, &["name"], vec![role("keeper", "0..1", &["LivingThing"])], &[]),
            hub_type("Animal", path, &["name"], vec![], &["LivingThing"]),
        ],
        vec![
            named("leo", "Animal", path, "Leo", vec![("keeper", &["keeper_inst"])]),
            named("keeper_inst", "LivingThing", path, "Keeper", vec![]),
        ],
    );
    assert!(
        errors.is_empty(),
        "Expected no validation errors for transitive extends with direct grandparent instance, found: {:?}",
        errors
    );
}

#[test]
fn test_polymorphic_validation_grandchild_role_match() {
    let path = "poly_grandchild.hubgs";
    let errors = errors_of(
        path,
        vec![
            hub_type("LivingThing", path, &["name"], vec![role("keeper", "0..1", &["LivingThing"])], &[]),
            hub_type("Animal", path, &["name"], vec![role("parent", "0..1", &["LivingThing"])], &["LivingThing"]),
        ],
        vec![
            named("leo", "Animal", path, "Leo", vec![("keeper", &["grandparent"])]),
            named("grandparent", "LivingThing", path, "Grandparent", vec![]),
        ],
    );
    assert!(
        errors.is_empty(),
        "Expected no validation errors for grandchild-instance filling grandparent-role, found: {:?}",
        errors
    );
}

#[test]
fn test_polymorphic_validation_child_as_parent_instance() {
    let path = "poly_child_as_parent.hubgs";
    let errors = errors_of(
        path,
        vec![
            hub_type("Animal", path, &["name"], vec![role("keeper", "0..1", &["Animal"])], &[]),
            hub_type("Dog", path, &["name"], vec![], &["Animal"]),
        ],
        vec![
            named("buddy", "Dog", path, "Buddy", vec![]),
            named("whiskers", "Animal", path, "Whiskers", vec![("keeper", &["buddy"])]),
        ],
    );
    assert!(
        errors.is_empty(),
        "Expected no validation errors for child-instance filling parent-role, found: {:?}",
        errors
    );
}

#[test]
fn test_polymorphic_validation_grandchild_as_grandparent_instance() {
    let path = "poly_grandchild_as_gp.hubgs";
    let errors = errors_of(
        path,
        vec![
            hub_type("LivingThing", path, &["name"], vec![role("caretaker", "0..1", &["LivingThing"])], &[]),
            hub_type("Animal", path, &["name"], vec![], &["LivingThing"]),
            hub_type("Dog", path, &["name"], vec![], &["Animal"]),
        ],
        vec![
            named("buddy", "Dog", path, "Buddy", vec![]),
            named("guardian", "LivingThing", path, "Guardian", vec![("caretaker", &["buddy"])]),
        ],
    );
    assert!(
        errors.is_empty(),
        "Expected no validation errors for grandchild-instance filling grandparent-role, found: {:?}",
        errors
    );
}

#[test]
fn test_hubgs_primitive_type_checking() {
    let mut defs = no_defs();
    defs.global_fields =
        vec![global("age", "Number", "types.hubgs"), global("name", "Text", "types.hubgs"), global("is_active", "Boolean", "types.hubgs")];
    defs.types = vec![hub_type("Person", "types.hubgs", &["age", "name", "is_active"], vec![], &[])];
    defs.instances = vec![
        instance(
            "aragorn",
            "Person",
            "types.hubgs",
            vec![
                assign("age", HubValue::Number("87".to_string())),
                assign("name", HubValue::Text("Aragorn".to_string())),
                assign("is_active", HubValue::Boolean(true)),
            ],
        ),
        instance(
            "boromir",
            "Person",
            "types.hubgs",
            vec![
                assign("age", HubValue::Text("Thirty".to_string())),
                assign("name", HubValue::Number("10".to_string())),
                assign("is_active", HubValue::Text("yes".to_string())),
            ],
        ),
    ];
    let ws = Workspace { files: vec![file("types.hubgs", "", defs, vec![], vec![])] };
    let errors = validate_file(&ws, &ws.files[0], None, &vec![]);

    // boromir should have 3 type mismatch errors
    let boromir_errors: Vec<_> = errors.iter().filter(|e| e.message.contains("Type mismatch")).collect();
    assert_eq!(boromir_errors.len(), 3);
    assert!(boromir_errors.iter().any(|e| e.message.contains("field 'age'") && e.message.contains("'Number'")));
    assert!(boromir_errors.iter().any(|e| e.message.contains("field 'name'") && e.message.contains("'Text'")));
    assert!(boromir_errors.iter().any(|e| e.message.contains("field 'is_active'") && e.message.contains("'Boolean'")));
}
