use tauwriter_lsp::completion::{
    apply_uuid_filter, apply_uuid_filter_from, check_slash_uuid_completion, check_slash_uuid_completion_from, complete_allows_list, complete_fields_and_roles, complete_global_fields,
    complete_hub_fields, complete_hubref_id_instances, complete_role_instances, complete_twxml_tags, completion_items,
    handle_hubgs_completion, instance_completion_item, CompletionEntry, ItemKind, OfferUuid,
};
use tauwriter_lsp::model::{
    GlobalField, HubAssignment, HubFieldDef, HubInstance, HubRoleDef, HubType, HubValue, HubgsParseResult, SourceFile,
    TwxmlTag, Workspace, WorkspaceFile,
};
use tauwriter_lsp::position::{LspPosition, LspRange};
use tauwriter_lsp::syntax::SyntaxNode;

fn rng(l1: u32, c1: u32, l2: u32, c2: u32) -> LspRange {
    LspRange { start: LspPosition { line: l1, character: c1 }, end: LspPosition { line: l2, character: c2 } }
}

fn pos(line: u32, character: u32) -> LspPosition {
    LspPosition { line, character }
}

fn field(name: &str, display: bool) -> HubFieldDef {
    HubFieldDef { name: name.to_string(), range: rng(0, 0, 0, 1), decorator: None, expression: None, is_display: display, is_background: false }
}

fn role(name: &str, allowed: &[&str]) -> HubRoleDef {
    HubRoleDef {
        name: name.to_string(),
        direction: "->".to_string(),
        multiplicity: "*".to_string(),
        allowed_types: allowed.iter().map(|a| a.to_string()).collect(),
    }
}

fn hub_type(name: &str, fields: Vec<HubFieldDef>, roles: Vec<HubRoleDef>, parents: &[&str]) -> HubType {
    HubType {
        name: name.to_string(),
        file: "lore.hubgs".to_string(),
        range: rng(0, 0, 0, 1),
        block_range: rng(0, 0, 0, 1),
        fields,
        roles,
        extends_parents: parents.iter().map(|p| p.to_string()).collect(),
        constraints: vec![],
    }
}

fn instance(name: &str, ty: &str, assignments: Vec<HubAssignment>) -> HubInstance {
    HubInstance {
        name: name.to_string(),
        instance_type: ty.to_string(),
        file: "lore.hubgs".to_string(),
        range: rng(0, 0, 0, 1),
        block_range: rng(0, 0, 0, 1),
        description: None,
        assignments,
    }
}

fn text_value(name: &str, text: &str) -> HubAssignment {
    HubAssignment { name: name.to_string(), range: rng(0, 0, 0, 1), value: HubValue::Text(text.to_string()), value_range: rng(0, 0, 0, 1) }
}

/// Character with `name` (display) and a `home` role allowing Place;
/// Hobbit extends Character; an Orc whose type is unknown.
fn lore() -> Workspace {
    let hubgs = HubgsParseResult {
        instances: vec![
            instance("frodo", "Hobbit", vec![text_value("name", "Frodo Baggins")]),
            instance("shire", "Place", vec![]),
            instance("azog", "Orc", vec![]),
        ],
        types: vec![
            hub_type("Character", vec![field("name", true)], vec![role("home", &["Place"]), role("friend", &["Character", "Orc"])], &[]),
            hub_type("Hobbit", vec![field("feet", false)], vec![], &["Character"]),
            hub_type("Place", vec![], vec![], &[]),
        ],
        enums: vec![],
        structs: vec![],
        global_fields: vec![GlobalField {
            name: "name".to_string(),
            file: "lore.hubgs".to_string(),
            range: rng(0, 0, 0, 1),
            field_type: "Text".to_string(),
        }],
        imports: vec![],
    };
    Workspace {
        files: vec![
            WorkspaceFile {
                source: SourceFile { path: "lore.hubgs".to_string(), contents: String::new() },
                hubgs,
                references: vec![],
                tags: Vec::<TwxmlTag>::new(),
            },
            WorkspaceFile {
                source: SourceFile { path: "tale.twxml".to_string(), contents: "<hubref id=\"x\"/>".to_string() },
                hubgs: HubgsParseResult {
                    instances: vec![],
                    types: vec![],
                    enums: vec![],
                    structs: vec![],
                    global_fields: vec![],
                    imports: vec![],
                },
                references: vec![],
                tags: Vec::<TwxmlTag>::new(),
            },
        ],
    }
}

fn labels(items: &[CompletionEntry]) -> Vec<String> {
    items.iter().map(|e| e.label.clone()).collect()
}

#[test]
fn tags_offered_by_parent() {
    let all = complete_twxml_tags(&None);
    assert_eq!(all.len(), 39);
    assert_eq!(all[0].label, "document");
    assert_eq!(all[0].detail, "TWXML Document");
    assert_eq!(all[0].kind, ItemKind::Class);
    let in_body = complete_twxml_tags(&Some("body".to_string()));
    assert_eq!(in_body.len(), 37);
    assert!(!labels(&in_body).contains(&"document".to_string()));
    assert!(!labels(&in_body).contains(&"body".to_string()));
    let in_section = complete_twxml_tags(&Some("section".to_string()));
    assert_eq!(in_section.len(), 38);
    assert_eq!(in_section[0].label, "body");
    let hubref = in_section.iter().find(|e| e.label == "hubref").unwrap();
    assert_eq!(hubref.kind, ItemKind::Reference);
    assert_eq!(hubref.detail, "Hub Reference");
}

#[test]
fn instance_items_show_type_and_label() {
    let ws = lore();
    let items = complete_hubref_id_instances(&ws);
    assert_eq!(labels(&items), vec!["frodo", "shire", "azog"]);
    assert_eq!(items[0].detail, "Hub Instance (Hobbit) - Frodo Baggins");
    assert_eq!(items[1].detail, "Hub Instance (Place)");
    assert_eq!(items[0].kind, ItemKind::Reference);
    let one = instance_completion_item(&ws, &ws.files[0].hubgs.instances[1]);
    assert_eq!(one.label, "shire");
    assert!(one.insert_text.is_none() && one.filter_text.is_none() && one.edit.is_none());
}

#[test]
fn types_fields_and_roles() {
    let ws = lore();
    let types = complete_allows_list(&ws);
    assert_eq!(labels(&types), vec!["Character", "Hobbit", "Place"]);
    assert!(types.iter().all(|e| e.kind == ItemKind::Class && e.detail == "Hub Type"));
    let hobbit = &ws.files[0].hubgs.types[1];
    let members = complete_fields_and_roles(&ws, hobbit);
    assert_eq!(labels(&members), vec!["feet", "name", "home", "friend"]);
    assert_eq!(members[0].kind, ItemKind::Field);
    assert_eq!(members[2].kind, ItemKind::Interface);
    assert_eq!(members[2].detail, "Role");
    let globals = complete_global_fields(&ws);
    assert_eq!(globals.len(), 1);
    assert_eq!(globals[0].detail, "Global Field (Text)");
    let via_instance = complete_hub_fields(&ws, &"frodo".to_string()).unwrap();
    assert_eq!(labels(&via_instance), labels(&members));
    // An instance whose type does not resolve, and a name that is no instance.
    assert!(complete_hub_fields(&ws, &"azog".to_string()).is_none());
    assert!(complete_hub_fields(&ws, &"nobody".to_string()).is_none());
}

#[test]
fn role_candidates_follow_extends() {
    let ws = lore();
    let path = "lore.hubgs".to_string();
    // `friend` allows Character and Orc: the Hobbit fits through EXTENDS,
    // the Orc (no such type) because its type is listed.
    let friends = complete_role_instances(&ws, &path, &"Character".to_string(), &"friend".to_string());
    assert_eq!(labels(&friends), vec!["frodo", "azog"]);
    let homes = complete_role_instances(&ws, &path, &"Character".to_string(), &"home".to_string());
    assert_eq!(labels(&homes), vec!["shire"]);
    assert!(complete_role_instances(&ws, &path, &"Character".to_string(), &"enemy".to_string()).is_empty());
    assert!(complete_role_instances(&ws, &path, &"Dragon".to_string(), &"home".to_string()).is_empty());
}

#[test]
fn slash_uuid_items() {
    let items = check_slash_uuid_completion("key = /uu", pos(0, 9)).unwrap();
    assert_eq!(labels(&items), vec!["uuid_v4", "uuid_v7"]);
    for (item, version) in items.iter().zip(['4', '7']) {
        let text = item.insert_text.clone().unwrap();
        assert_eq!(text.len(), 36);
        assert_eq!(text.chars().nth(14), Some(version));
        let edit = item.edit.as_ref().unwrap();
        assert_eq!(edit.range, rng(0, 6, 0, 9));
        assert_eq!(edit.new_text, text);
        assert_eq!(item.kind, ItemKind::Snippet);
    }
    assert_eq!(items[0].filter_text.as_deref(), Some("/uuid_v4"));
    assert_eq!(items[1].detail, "Generate a new UUID v7");
    // The slash's offset counts bytes.
    let items = check_slash_uuid_completion("é/x", pos(0, 4)).unwrap();
    assert_eq!(items[0].edit.as_ref().unwrap().range, rng(0, 2, 0, 4));
    // Something other than a word after the slash, no slash, past the end.
    assert!(check_slash_uuid_completion("a/b c", pos(0, 5)).is_none());
    assert!(check_slash_uuid_completion("abc", pos(0, 3)).is_none());
    assert!(check_slash_uuid_completion("a/", pos(0, 9)).is_none());
    assert!(check_slash_uuid_completion("a/", pos(4, 0)).is_none());
}

#[test]
fn uuid_offers() {
    let base = || vec![instance_completion_item(&lore(), &lore().files[0].hubgs.instances[1])];
    assert_eq!(labels(&apply_uuid_filter(base(), OfferUuid::Nothing)), vec!["shire"]);
    let r = apply_uuid_filter(base(), OfferUuid::Ref);
    assert_eq!(labels(&r), vec!["shire", "uuid-ref"]);
    assert_eq!(r[1].detail, "Insert a valid HubGS ref UUID (prefixed, no hyphens)");
    assert_eq!(r[1].insert_text.as_ref().unwrap().chars().nth(14), Some('7'));
    assert_eq!(labels(&apply_uuid_filter(base(), OfferUuid::V4)), vec!["shire", "uuid-v4"]);
    assert_eq!(labels(&apply_uuid_filter(base(), OfferUuid::V7)), vec!["shire", "uuid-v7"]);
    assert_eq!(labels(&apply_uuid_filter(base(), OfferUuid::Both)), vec!["shire", "uuid-v4", "uuid-ref"]);
}

fn node(kind: &str, field: Option<&str>, text: &str, range: LspRange, children: Vec<SyntaxNode>) -> SyntaxNode {
    SyntaxNode { kind: kind.to_string(), field: field.map(|f| f.to_string()), text: text.to_string(), range, has_error: false, children }
}

#[test]
fn completion_requests() {
    let ws = lore();
    // A slash in the open text wins.
    let r = completion_items(&ws, &Some("tale.twxml".to_string()), &Some("/".to_string()), pos(0, 1), None);
    assert_eq!(labels(&r), vec!["uuid_v4", "uuid_v7"]);
    // On the id of a hubref: every instance and a reference UUID.
    let value = node("quoted_attribute_value", None, "\"x\"", rng(0, 11, 0, 14), vec![]);
    let attr = node(
        "attribute",
        None,
        "id=\"x\"",
        rng(0, 8, 0, 14),
        vec![node("attribute_name", None, "id", rng(0, 8, 0, 10), vec![]), node("=", None, "=", rng(0, 10, 0, 11), vec![]), value],
    );
    let tag = node(
        "self_closing_element",
        None,
        "<hubref id=\"x\"/>",
        rng(0, 0, 0, 16),
        vec![node("tag_name", Some("name"), "hubref", rng(0, 1, 0, 7), vec![]), attr],
    );
    let root = node("source_file", None, "<hubref id=\"x\"/>", rng(0, 0, 0, 16), vec![tag]);
    let r = completion_items(&ws, &Some("tale.twxml".to_string()), &None, pos(0, 12), Some(&root));
    assert_eq!(labels(&r), vec!["frodo", "shire", "azog", "uuid-ref"]);
    // No tree, or a file of another kind: every instance, nothing more.
    let r = completion_items(&ws, &Some("tale.twxml".to_string()), &None, pos(0, 12), None);
    assert_eq!(labels(&r), vec!["frodo", "shire", "azog"]);
    let r = completion_items(&ws, &None, &None, pos(0, 0), None);
    assert_eq!(labels(&r), vec!["frodo", "shire", "azog"]);
}

#[test]
fn hubgs_completion_inside_definitions() {
    let ws = lore();
    // Inside a hub definition named Character: its fields and roles.
    let ident = node("identifier", None, "Character", rng(1, 2, 1, 11), vec![]);
    let inner = node("field_list", None, "name", rng(2, 4, 2, 8), vec![]);
    let def = node("hub_definition", None, "Character { name }", rng(1, 2, 3, 3), vec![ident, inner]);
    let root = node("document", None, "...", rng(0, 0, 4, 0), vec![def]);
    let (items, offer) = handle_hubgs_completion(&ws, &"lore.hubgs".to_string(), pos(2, 5), &root).unwrap();
    assert_eq!(offer, OfferUuid::Nothing);
    assert_eq!(labels(&items), vec!["name", "home", "friend"]);
    // A definition whose type does not resolve: the declared fields.
    let ident = node("identifier", None, "Ghost", rng(1, 2, 1, 7), vec![]);
    let inner = node("field_list", None, "name", rng(2, 4, 2, 8), vec![]);
    let def = node("hub_definition", None, "Ghost { name }", rng(1, 2, 3, 3), vec![ident, inner]);
    let root = node("document", None, "...", rng(0, 0, 4, 0), vec![def]);
    let (items, _) = handle_hubgs_completion(&ws, &"lore.hubgs".to_string(), pos(2, 5), &root).unwrap();
    assert_eq!(labels(&items), vec!["name"]);
    assert_eq!(items[0].detail, "Global Field (Text)");
    // Outside any definition: nothing.
    assert!(handle_hubgs_completion(&ws, &"lore.hubgs".to_string(), pos(5, 0), &root).is_none());
}

#[test]
fn uuids_from_system_random_bytes() {
    let entropy: Vec<u8> = (0u8..36).collect();
    let items = check_slash_uuid_completion_from("key = /uu", pos(0, 9), &entropy).unwrap();
    // The version 4 UUID is bytes 10 to 26, with its version and variant set.
    assert_eq!(items[0].insert_text.clone().unwrap(), "0a0b0c0d-0e0f-4011-9213-141516171819");
    let v7 = items[1].insert_text.clone().unwrap();
    assert!(v7.ends_with("-7a1b-9c1d-1e1f20212223"));
    let items = apply_uuid_filter_from(vec![], OfferUuid::Ref, &entropy);
    assert!(items[0].insert_text.clone().unwrap().ends_with("-7001-8203-040506070809"));
    // Too few bytes: the clock-seeded generator is used.
    let items = apply_uuid_filter_from(vec![], OfferUuid::V4, &vec![1, 2, 3]);
    assert_eq!(items[0].insert_text.clone().unwrap().chars().nth(14), Some('4'));
}
