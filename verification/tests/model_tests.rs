use tauwriter_lsp::computed::{member_access, MemberAccess};
use tauwriter_lsp::computed::{field_value_source, FieldSource};
use tauwriter_lsp::expression::{Expr, Literal};
use tauwriter_lsp::colors::{format_hex_rgba, parse_hex_color, HexColor};
use tauwriter_lsp::model::{
    Db, GlobalField, HubAssignment, HubFieldDef, HubImport, HubInstance, HubReference, HubRoleDef, HubType, HubValue,
    HubgsParseResult, SourceFile, TwxmlTag, Workspace, WorkspaceFile,
};
use tauwriter_lsp::polymorphic::{
    collect_hub_types, collect_type_chain, hub_type_all_fields, hub_type_all_roles, hub_type_allows,
    hub_type_field_by_name, hub_type_role_by_name,
};
use tauwriter_lsp::position::{LspPosition, LspRange, SemanticToken};
use tauwriter_lsp::references::{
    find_all_references, find_ref_in_value, format_hub_value, hub_instance_metadata_background,
    hub_instance_metadata_background_range, hub_instance_metadata_display,
};
use tauwriter_lsp::resolution::{resolve_reference, resolve_type};
use tauwriter_lsp::semantic::{compute_semantic_tokens, sort_by_position};

fn rng(l1: u32, c1: u32, l2: u32, c2: u32) -> LspRange {
    LspRange { start: LspPosition { line: l1, character: c1 }, end: LspPosition { line: l2, character: c2 } }
}

fn no_defs() -> HubgsParseResult {
    HubgsParseResult { instances: vec![], types: vec![], enums: vec![], structs: vec![], global_fields: vec![], imports: vec![] }
}

fn file(path: &str, hubgs: HubgsParseResult, refs: Vec<HubReference>) -> WorkspaceFile {
    WorkspaceFile {
        source: SourceFile { path: path.to_string(), contents: String::new() },
        hubgs,
        references: refs,
        tags: Vec::<TwxmlTag>::new(),
    }
}

fn field(name: &str, display: bool, background: bool) -> HubFieldDef {
    HubFieldDef {
        name: name.to_string(),
        range: rng(1, 1, 1, 2),
        decorator: None,
        expression: None,
        is_display: display,
        is_background: background,
    }
}

fn role(name: &str, allowed: &[&str]) -> HubRoleDef {
    HubRoleDef {
        name: name.to_string(),
        direction: "->".to_string(),
        multiplicity: "*".to_string(),
        allowed_types: allowed.iter().map(|a| a.to_string()).collect(),
    }
}

fn hub_type(name: &str, fields: Vec<HubFieldDef>, roles: Vec<HubRoleDef>, parents: &[&str]) -> HubType {
    HubType {
        name: name.to_string(),
        file: "world.hubgs".to_string(),
        range: rng(0, 0, 0, 1),
        block_range: rng(0, 0, 2, 1),
        fields,
        roles,
        extends_parents: parents.iter().map(|p| p.to_string()).collect(),
        constraints: vec![],
    }
}

fn assign(name: &str, value: HubValue, line: u32) -> HubAssignment {
    HubAssignment { name: name.to_string(), range: rng(line, 4, line, 8), value, value_range: rng(line, 11, line, 20) }
}

fn instance(name: &str, ty: &str, assignments: Vec<HubAssignment>) -> HubInstance {
    HubInstance {
        name: name.to_string(),
        instance_type: ty.to_string(),
        file: "world.hubgs".to_string(),
        range: rng(5, 0, 5, 3),
        block_range: rng(5, 0, 6, 1),
        description: None,
        assignments,
    }
}

/// Entity <- Living <- Person (Person also extends Named); Named has no type.
fn world() -> Workspace {
    let mut defs = no_defs();
    defs.types = vec![
        hub_type("Entity", vec![field("name", false, false), field("id", false, false)], vec![role("owner", &[])], &[]),
        hub_type("Living", vec![field("age", false, false), field("name", true, false)], vec![], &["Entity"]),
        hub_type(
            "Person",
            vec![field("age", false, true)],
            vec![role("friend", &["Person"]), role("owner", &["Entity"])],
            &["Living", "Named"],
        ),
        hub_type("Place", vec![], vec![], &[]),
    ];
    defs.global_fields = vec![GlobalField {
        name: "name".to_string(),
        file: "world.hubgs".to_string(),
        range: rng(0, 0, 0, 4),
        field_type: "Text".to_string(),
    }];
    defs.instances = vec![
        instance(
            "frodo",
            "Person",
            vec![
                assign("name", HubValue::Text("Frodo".to_string()), 7),
                assign("age", HubValue::Number("50".to_string()), 8),
                assign("friend", HubValue::Array(vec![HubValue::Identifier("sam".to_string())]), 9),
            ],
        ),
        instance("sam", "Person", vec![assign("friend", HubValue::Identifier("frodo".to_string()), 11)]),
    ];
    let story_ref = HubReference {
        name: "sam".to_string(),
        file: "story.twxml".to_string(),
        range: rng(3, 10, 3, 20),
        field: None,
        text: None,
        tag_range: rng(3, 2, 3, 30),
        is_reviewed: false,
    };
    Workspace { files: vec![file("world.hubgs", defs, vec![]), file("story.twxml", no_defs(), vec![story_ref])] }
}

fn person(ws: &Workspace) -> HubType {
    ws.files[0].hubgs.types[2].copy()
}

#[test]
fn polymorphic_chain_and_inheritance() {
    let ws = world();
    let p = person(&ws);
    let chain: Vec<String> = collect_hub_types(&ws, &p).iter().map(|t| t.name.clone()).collect();
    // parents before grandparents; Named has no type
    assert_eq!(chain, vec!["Person", "Living", "Entity"]);
    let all_types: Vec<HubType> = ws.files[0].hubgs.types.iter().map(|t| t.copy()).collect();
    let chain2: Vec<String> = collect_type_chain(&p, &all_types).iter().map(|t| t.name.clone()).collect();
    assert_eq!(chain2, chain);

    let fields: Vec<(String, bool)> = hub_type_all_fields(&ws, &p).iter().map(|f| (f.name.clone(), f.is_background)).collect();
    assert_eq!(fields, vec![("age".to_string(), true), ("name".to_string(), false), ("id".to_string(), false)]);
    let roles: Vec<(String, Vec<String>)> =
        hub_type_all_roles(&ws, &p).iter().map(|r| (r.name.clone(), r.allowed_types.clone())).collect();
    assert_eq!(roles, vec![("friend".to_string(), vec!["Person".to_string()]), ("owner".to_string(), vec!["Entity".to_string()])]);

    assert!(hub_type_field_by_name(&ws, &p, "age").unwrap().is_background);
    assert!(hub_type_field_by_name(&ws, &p, "name").unwrap().is_display);
    assert!(hub_type_field_by_name(&ws, &p, "missing").is_none());
    assert_eq!(hub_type_role_by_name(&ws, &p, "owner").unwrap().allowed_types, vec!["Entity".to_string()]);
}

#[test]
fn polymorphic_allows() {
    let ws = world();
    let p = person(&ws);
    assert!(hub_type_allows(&ws, &p, &[]));
    assert!(hub_type_allows(&ws, &p, &["Entity".to_string()]));
    assert!(hub_type_allows(&ws, &p, &["Named".to_string()]));
    assert!(!hub_type_allows(&ws, &p, &["Place".to_string()]));
    let place = ws.files[0].hubgs.types[3].copy();
    assert!(!hub_type_allows(&ws, &place, &["Entity".to_string()]));
}

#[test]
fn resolution_and_references() {
    let ws = world();
    assert_eq!(resolve_reference(&ws, &"sam".to_string()).unwrap().instance_type, "Person");
    assert!(resolve_reference(&ws, &"gandalf".to_string()).is_none());
    assert_eq!(resolve_type(&ws, &ws.files[0], &"Living".to_string()).unwrap().name, "Living");
    assert!(resolve_type(&ws, &ws.files[1], &"Living".to_string()).is_none());

    let refs = find_all_references(&ws, &"sam".to_string());
    let places: Vec<(String, u32)> = refs.iter().map(|r| (r.file.clone(), r.range.start.line)).collect();
    assert_eq!(places, vec![("world.hubgs".to_string(), 9), ("story.twxml".to_string(), 3)]);
    let refs = find_all_references(&ws, &"frodo".to_string());
    assert_eq!(refs.len(), 1);
    assert_eq!(refs[0].range, rng(11, 4, 11, 8));

    let nested = HubValue::Array(vec![HubValue::Array(vec![HubValue::Identifier("x".to_string())])]);
    assert_eq!(find_ref_in_value(&nested, &"x".to_string(), rng(1, 1, 1, 1)), Some(rng(1, 1, 1, 1)));
    assert_eq!(find_ref_in_value(&nested, &"y".to_string(), rng(1, 1, 1, 1)), None);
}

#[test]
fn instance_metadata() {
    let ws = world();
    let frodo = ws.files[0].hubgs.instances[0].copy();
    assert_eq!(hub_instance_metadata_display(&ws, &frodo), Some("Frodo".to_string()));
    assert_eq!(hub_instance_metadata_background(&ws, &frodo), Some("50".to_string()));
    assert_eq!(hub_instance_metadata_background_range(&ws, &frodo), Some(rng(8, 11, 8, 20)));
    let sam = ws.files[0].hubgs.instances[1].copy();
    assert_eq!(hub_instance_metadata_display(&ws, &sam), None);
}

#[test]
fn test_format_hub_value_text() {
    let val = HubValue::Text("hello".to_string());
    assert_eq!(format_hub_value(&val), "\"hello\"");
}

#[test]
fn test_format_hub_value_number() {
    let val = HubValue::Number("42".to_string());
    assert_eq!(format_hub_value(&val), "42");
}

#[test]
fn test_format_hub_value_boolean_true() {
    let val = HubValue::Boolean(true);
    assert_eq!(format_hub_value(&val), "true");
}

#[test]
fn test_format_hub_value_boolean_false() {
    let val = HubValue::Boolean(false);
    assert_eq!(format_hub_value(&val), "false");
}

#[test]
fn test_format_hub_value_identifier() {
    let val = HubValue::Identifier("my_id".to_string());
    assert_eq!(format_hub_value(&val), "my_id");
}

#[test]
fn test_format_hub_value_array() {
    let val = HubValue::Array(vec![HubValue::Number("1".to_string()), HubValue::Text("a".to_string())]);
    assert_eq!(format_hub_value(&val), "[1, \"a\"]");
}

#[test]
fn format_hub_value_color_and_nested() {
    assert_eq!(format_hub_value(&HubValue::ColorHex("#fff".to_string())), "color(#fff)");
    let nested = HubValue::Array(vec![HubValue::Array(vec![]), HubValue::Boolean(true)]);
    assert_eq!(format_hub_value(&nested), "[, true]");
}

fn channel(v: u8, max: u8) -> f32 {
    v as f32 / max as f32
}

#[test]
fn parse_hex_3_digit() {
    let c = parse_hex_color("#f00").unwrap();
    assert!((channel(c.red, c.max) - 1.0).abs() < f32::EPSILON);
    assert!((channel(c.green, c.max) - 0.0).abs() < f32::EPSILON);
    assert!((channel(c.blue, c.max) - 0.0).abs() < f32::EPSILON);
    assert!((channel(c.alpha, c.max) - 1.0).abs() < f32::EPSILON);
}

#[test]
fn parse_hex_4_digit() {
    let c = parse_hex_color("#f00f").unwrap();
    assert!((channel(c.red, c.max) - 1.0).abs() < f32::EPSILON);
    assert!((channel(c.blue, c.max) - 0.0).abs() < f32::EPSILON);
    assert!((channel(c.alpha, c.max) - 1.0).abs() < f32::EPSILON);
}

#[test]
fn parse_hex_6_digit() {
    let c = parse_hex_color("#ff0000").unwrap();
    assert!((channel(c.red, c.max) - 1.0).abs() < f32::EPSILON);
    assert!((channel(c.green, c.max) - 0.0).abs() < f32::EPSILON);
    assert!((channel(c.blue, c.max) - 0.0).abs() < f32::EPSILON);
}

#[test]
fn parse_hex_8_digit() {
    let c = parse_hex_color("#ff000080").unwrap();
    assert!((channel(c.red, c.max) - 1.0).abs() < f32::EPSILON);
    assert!((channel(c.alpha, c.max) - 0.502).abs() < 0.01);
}

#[test]
fn parse_hex_no_hash() {
    assert!(parse_hex_color("f00").is_none());
}

#[test]
fn parse_hex_invalid_len() {
    assert!(parse_hex_color("#12345").is_none());
    assert!(parse_hex_color("#xyz").is_none());
}

#[test]
fn parse_hex_exact_channels() {
    assert_eq!(parse_hex_color("  #A1b2C3 "), Some(HexColor { red: 0xa1, green: 0xb2, blue: 0xc3, alpha: 255, max: 255 }));
    assert_eq!(parse_hex_color("#1234"), Some(HexColor { red: 1, green: 2, blue: 3, alpha: 4, max: 15 }));
}

#[test]
fn format_hex_opaque() {
    assert_eq!(format_hex_rgba(255, 128, 0, 255), "\"#ff8000\"");
}

#[test]
fn format_hex_transparent() {
    assert_eq!(format_hex_rgba(255, 0, 0, 128), "\"#ff000080\"");
}

fn token(line: u32, character: u32, t: u32) -> SemanticToken {
    SemanticToken { line, character, length: 1, token_type: t, token_modifiers: 0 }
}

#[test]
fn semantic_tokens_sorted_stably() {
    let sorted = sort_by_position(vec![token(2, 0, 0), token(1, 5, 1), token(1, 5, 2), token(0, 9, 3), token(1, 0, 4)]);
    let order: Vec<u32> = sorted.iter().map(|t| t.token_type).collect();
    assert_eq!(order, vec![3, 4, 1, 2, 0]);
}

#[test]
fn semantic_tokens_of_files() {
    let ws = world();
    let twxml = compute_semantic_tokens(&ws.files[1], &vec![]);
    assert_eq!(twxml, vec![SemanticToken { line: 3, character: 11, length: 8, token_type: 2, token_modifiers: 0 }]);
    let hub = compute_semantic_tokens(&ws.files[0], &vec![token(4, 1, 0), token(0, 2, 1)]);
    assert_eq!(hub, vec![token(0, 2, 1), token(4, 1, 0)]);
    let mut other = file("notes.txt", no_defs(), vec![]);
    other.source.path = "notes.txt".to_string();
    assert!(compute_semantic_tokens(&other, &vec![token(0, 0, 0)]).is_empty());
    let _ = HubImport { types: vec![], from: String::new() };
}

#[test]
fn type_chain_is_breadth_first() {
    let mut defs = no_defs();
    defs.types = vec![
        hub_type("C", vec![field("n", false, false)], vec![], &["A", "B"]),
        hub_type("A", vec![field("n", false, false)], vec![], &[]),
        hub_type("B", vec![field("n", false, false)], vec![], &["Y"]),
        hub_type("Y", vec![field("n", false, false)], vec![], &[]),
    ];
    let ws = Workspace { files: vec![file("h.hubgs", defs, vec![])] };
    let c = ws.files[0].hubgs.types[0].copy();
    let chain: Vec<String> = collect_hub_types(&ws, &c).iter().map(|t| t.name.clone()).collect();
    assert_eq!(chain, vec!["C", "A", "B", "Y"]);
}

#[test]
fn database_finds_files_by_exact_path() {
    let ws = world();
    assert_eq!(ws.find_file("story.twxml").map(|f| f.path), Some("story.twxml".to_string()));
    assert!(ws.find_file("story").is_none());
}

fn decorated(name: &str, decorator: &str, expression: &str) -> HubFieldDef {
    let mut f = field(name, false, false);
    f.decorator = Some(decorator.to_string());
    f.expression = Some(expression.to_string());
    f
}

#[test]
fn field_value_sources_in_order() {
    let mut defs = no_defs();
    defs.types = vec![hub_type(
        "Box",
        vec![
            decorated("area", "@computed", "w * h"),
            decorated("broken", "@computed", "w *"),
            decorated("color", "@default", "'red'"),
            field("plain", false, false),
        ],
        vec![],
        &[],
    )];
    let boxed = instance("b", "Box", vec![assign("color", HubValue::Text("blue".to_string()), 7)]);
    let bare = instance("c", "Box", vec![]);
    let lost = instance("d", "Crate", vec![]);
    defs.instances = vec![boxed.copy(), bare.copy(), lost.copy()];
    let ws = Workspace { files: vec![file("world.hubgs", defs, vec![])] };
    let name = |s: &str| s.to_string();

    assert!(matches!(field_value_source(&ws, &boxed, &name("color")), FieldSource::Assigned(HubValue::Text(t)) if t == "blue"));
    assert!(matches!(field_value_source(&ws, &bare, &name("area")), FieldSource::Computed(Expr::Binary { .. })));
    assert!(matches!(field_value_source(&ws, &bare, &name("broken")), FieldSource::Unparsable(x) if x == "w *"));
    assert!(matches!(
        field_value_source(&ws, &bare, &name("color")),
        FieldSource::Default(Expr::Literal(Literal::Str(s))) if s == "red"
    ));
    assert!(matches!(field_value_source(&ws, &bare, &name("plain")), FieldSource::Missing));
    assert!(matches!(field_value_source(&ws, &bare, &name("nothing")), FieldSource::Missing));
    assert!(matches!(field_value_source(&ws, &lost, &name("area")), FieldSource::UnresolvedType));
}

#[test]
fn member_access_of_values() {
    let ws = world();
    let sam = HubValue::Identifier("sam".to_string());
    assert!(matches!(member_access(&ws, &sam, "friend"), MemberAccess::FieldOrRole(i) if i.name == "sam"));
    assert!(matches!(member_access(&ws, &HubValue::Identifier("this".to_string()), "x"), MemberAccess::Nothing));
    assert!(matches!(member_access(&ws, &HubValue::Identifier("nobody".to_string()), "x"), MemberAccess::Nothing));
    let items = HubValue::Array(vec![HubValue::Identifier("frodo".to_string()), sam]);
    assert!(matches!(member_access(&ws, &items, "length"), MemberAccess::Value(HubValue::Number(n)) if n == "2"));
    assert!(matches!(member_access(&ws, &items, "name"), MemberAccess::Field(i) if i.name == "frodo"));
    assert!(matches!(member_access(&ws, &HubValue::Boolean(true), "name"), MemberAccess::Nothing));
}
