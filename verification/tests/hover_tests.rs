use tauwriter_lsp::hover::{get_range_text, hover_global_field, hover_impl, hover_instance, hover_instance_with_uris, hover_type};
use tauwriter_lsp::model::{
    GlobalField, HubAssignment, HubFieldDef, HubInstance, HubRoleDef, HubType, HubValue, HubgsParseResult, SourceFile,
    TwxmlTag, Workspace, WorkspaceFile,
};
use tauwriter_lsp::position::{LspPosition, LspRange};
use tauwriter_lsp::resolution::{all_hub_instances, resolve_type};

fn rng(l1: u32, c1: u32, l2: u32, c2: u32) -> LspRange {
    LspRange { start: LspPosition { line: l1, character: c1 }, end: LspPosition { line: l2, character: c2 } }
}

const WORLD: &str = "FIELDS [ name: Text ],\nHUBS [\n  Person {\n    name,\n    friend -> (*) ALLOWS [Person, Elf]\n  }\n]";

fn world() -> Workspace {
    let person = HubType {
        name: "Person".to_string(),
        file: "/w/world.hubgs".to_string(),
        range: rng(2, 2, 2, 8),
        block_range: rng(2, 2, 5, 3),
        fields: vec![HubFieldDef {
            name: "name".to_string(),
            range: rng(3, 4, 3, 8),
            decorator: None,
            expression: None,
            is_display: true,
            is_background: false,
        }],
        roles: vec![
            HubRoleDef {
                name: "friend".to_string(),
                direction: "->".to_string(),
                multiplicity: "*".to_string(),
                allowed_types: vec!["Person".to_string(), "Elf".to_string()],
            },
            HubRoleDef {
                name: "home".to_string(),
                direction: "->".to_string(),
                multiplicity: "1".to_string(),
                allowed_types: vec![],
            },
        ],
        extends_parents: vec![],
        constraints: vec![],
    };
    let name_field = GlobalField {
        name: "name".to_string(),
        file: "/w/world.hubgs".to_string(),
        range: rng(0, 9, 0, 19),
        field_type: "Text".to_string(),
    };
    let assign = |name: &str, value: HubValue| HubAssignment {
        name: name.to_string(),
        range: rng(9, 4, 9, 8),
        value,
        value_range: rng(9, 10, 9, 20),
    };
    let frodo = HubInstance {
        name: "frodo".to_string(),
        instance_type: "Person".to_string(),
        file: "/w/world.hubgs".to_string(),
        range: rng(8, 2, 8, 7),
        block_range: rng(8, 2, 12, 3),
        description: None,
        assignments: vec![
            assign("name", HubValue::Text("Frodo".to_string())),
            assign("friend", HubValue::Array(vec![HubValue::Identifier("sam".to_string()), HubValue::Identifier("gollum".to_string())])),
            assign("home", HubValue::Identifier("shire".to_string())),
        ],
    };
    let sam = HubInstance {
        name: "sam".to_string(),
        instance_type: "Person".to_string(),
        file: "/w/world.hubgs".to_string(),
        range: rng(13, 2, 13, 5),
        block_range: rng(13, 2, 14, 3),
        description: None,
        assignments: vec![assign("age", HubValue::Number("38".to_string()))],
    };
    let hubgs = HubgsParseResult {
        instances: vec![frodo, sam],
        types: vec![person],
        enums: vec![],
        structs: vec![],
        global_fields: vec![name_field],
        imports: vec![],
    };
    Workspace {
        files: vec![WorkspaceFile {
            source: SourceFile { path: "/w/world.hubgs".to_string(), contents: WORLD.to_string() },
            hubgs,
            references: vec![],
            tags: Vec::<TwxmlTag>::new(),
        }],
    }
}

#[test]
fn range_text_single_and_multi_line() {
    let text = "ab\ncdé f\ngh";
    assert_eq!(get_range_text(text, rng(1, 1, 1, 3)), "dé");
    assert_eq!(get_range_text(text, rng(0, 1, 2, 1)), "b\ncdé f\ng");
    // A character past the line's end takes the line's end.
    assert_eq!(get_range_text(text, rng(0, 0, 0, 40)), "ab");
    // A line that does not exist gives nothing.
    assert_eq!(get_range_text(text, rng(1, 0, 7, 0)), "");
    // UTF-16 offsets count a non-BMP character as two units.
    assert_eq!(get_range_text("a😀b", rng(0, 1, 0, 3)), "😀");
    // An end line before the start line keeps both partial lines.
    assert_eq!(get_range_text(text, rng(2, 1, 0, 1)), "h\na");
}

#[test]
fn type_hover_lists_fields_roles_and_source() {
    let ws = world();
    let t = &ws.files[0].hubgs.types[0];
    let (md, range) = hover_type(&ws, t);
    assert_eq!(range, rng(2, 2, 2, 8));
    assert_eq!(
        md,
        "## Type: Person\n---\n### Fields:\n- **name:** (from global field def)\n---\n### Roles:\n\
         - **friend -> (*):** ALLOWS [Person, Elf]\n- **home -> (1):** (no allows list)\n---\n```hubgs\n\
         Person {\n    name,\n    friend -> (*) ALLOWS [Person, Elf]\n  }\n```"
    );
}

#[test]
fn global_field_hover() {
    let ws = world();
    let g = &ws.files[0].hubgs.global_fields[0];
    let (md, range) = hover_global_field(&ws, g);
    assert_eq!(range, rng(0, 9, 0, 19));
    assert_eq!(md, "## Field: name\n---\n- **Type:** Text\n---\n```hubgs\nname: Text\n```");
}

#[test]
fn instance_hover_with_links() {
    let ws = world();
    let frodo = &ws.files[0].hubgs.instances[0];
    let uris = vec![Some("file:///w/world.hubgs".to_string())];
    let (md, range) = hover_instance_with_uris(&ws, frodo, &uris);
    assert_eq!(range, rng(8, 2, 8, 7));
    assert_eq!(
        md,
        "## Person: frodo (Hub)\n---\n### Fields:\n- **name:** \"Frodo\"\n---\n### Roles:\n**friend (*)**\n\
         Count: 2\n  - [sam](file:///w/world.hubgs)\n  - gollum\n**home (1)**\nValue: shire"
    );
    // Without a link address the target is a plain item.
    let (md, _) = hover_instance_with_uris(&ws, frodo, &vec![None]);
    assert!(md.contains("Count: 2\n  - sam\n  - gollum"));
    // The public form computes the addresses itself.
    let (md, _) = hover_instance(&ws, frodo);
    assert!(md.starts_with("## Person: frodo (Hub)\n---\n### Fields:\n- **name:** \"Frodo\""));
}

#[test]
fn instance_hover_counts_and_plain_fields() {
    let ws = world();
    let sam = &ws.files[0].hubgs.instances[1];
    let (md, _) = hover_instance_with_uris(&ws, sam, &vec![None]);
    assert_eq!(
        md,
        "## Person: sam (Hub)\n---\n### Fields:\n- **age:** 38\n---\n### Roles:\n**friend (*)**\nCount: 0\n**home (1)**\nCount: 0"
    );
}

#[test]
fn hover_dispatch() {
    let ws = world();
    let path = Some("/w/world.hubgs".to_string());
    // An instance name.
    let (md, _) = hover_impl(&ws, &"sam".to_string(), &path, &None).unwrap();
    assert!(md.starts_with("## Person: sam (Hub)"));
    // A type name, found through the file name.
    let (md, _) = hover_impl(&ws, &"Person".to_string(), &Some("/elsewhere".to_string()), &Some("/w/world.hubgs".to_string())).unwrap();
    assert!(md.starts_with("## Type: Person"));
    // A declared field.
    let (md, range) = hover_impl(&ws, &"name".to_string(), &path, &None).unwrap();
    assert!(md.starts_with("## Field: name"));
    assert_eq!(range, rng(0, 9, 0, 19));
    // Nothing of that name, or no file to look in.
    assert!(hover_impl(&ws, &"nobody".to_string(), &path, &None).is_none());
    assert!(hover_impl(&ws, &"Person".to_string(), &None, &None).is_none());
}

fn field_at(name: &str, line: u32, col: u32) -> HubFieldDef {
    HubFieldDef {
        name: name.to_string(),
        range: rng(line, col, line, col + name.len() as u32),
        decorator: None,
        expression: None,
        is_display: false,
        is_background: false,
    }
}

fn global_at(name: &str, ty: &str, path: &str, line: u32) -> GlobalField {
    GlobalField {
        name: name.to_string(),
        file: path.to_string(),
        range: rng(line, 8, line, 8 + (name.len() + 2 + ty.len()) as u32),
        field_type: ty.to_string(),
    }
}

fn one_file(path: &str, contents: &str, hubgs: HubgsParseResult) -> Workspace {
    Workspace {
        files: vec![WorkspaceFile {
            source: SourceFile { path: path.to_string(), contents: contents.to_string() },
            hubgs,
            references: vec![],
            tags: Vec::<TwxmlTag>::new(),
        }],
    }
}

const TAILOR: &str = "
DEFINITIONS [
    FIELDS [
        name: Text,
        description: Text,
        resides_in: Location
    ],
    HUBS [
        Character {
            name,
            description,
            resides_in -> (0..1) ALLOWS [Location]
        },
        Location {
            name
        }
    ]
],
INSTANCES [
    workshop:Location { name = 'The Workshop' },
    tailor:Character {
        name = 'The Brave Little Tailor',
        description = 'A nimble and clever tailor who killed seven flies with one blow.',
        resides_in = [workshop]
    }
]
";

#[test]
fn test_hover_description() {
    let path = "fantasy.hubgs";
    let description = "A nimble and clever tailor who killed seven flies with one blow.";
    let assignment = |name: &str, line: u32, value: HubValue| HubAssignment {
        name: name.to_string(),
        range: rng(line, 8, line, 8 + name.len() as u32),
        value,
        value_range: rng(line, 11 + name.len() as u32, line, 60),
    };
    let character = HubType {
        name: "Character".to_string(),
        file: path.to_string(),
        range: rng(8, 8, 8, 17),
        block_range: rng(8, 8, 12, 9),
        fields: vec![field_at("name", 9, 12), field_at("description", 10, 12)],
        roles: vec![HubRoleDef {
            name: "resides_in".to_string(),
            direction: "->".to_string(),
            multiplicity: "0..1".to_string(),
            allowed_types: vec!["Location".to_string()],
        }],
        extends_parents: vec![],
        constraints: vec![],
    };
    let location = HubType {
        name: "Location".to_string(),
        file: path.to_string(),
        range: rng(13, 8, 13, 16),
        block_range: rng(13, 8, 15, 9),
        fields: vec![field_at("name", 14, 12)],
        roles: vec![],
        extends_parents: vec![],
        constraints: vec![],
    };
    let workshop = HubInstance {
        name: "workshop".to_string(),
        instance_type: "Location".to_string(),
        file: path.to_string(),
        range: rng(19, 4, 19, 12),
        block_range: rng(19, 4, 19, 47),
        description: None,
        assignments: vec![HubAssignment {
            name: "name".to_string(),
            range: rng(19, 24, 19, 28),
            value: HubValue::Text("The Workshop".to_string()),
            value_range: rng(19, 31, 19, 45),
        }],
    };
    let tailor = HubInstance {
        name: "tailor".to_string(),
        instance_type: "Character".to_string(),
        file: path.to_string(),
        range: rng(20, 4, 20, 10),
        block_range: rng(20, 4, 24, 5),
        description: Some(description.to_string()),
        assignments: vec![
            assignment("name", 21, HubValue::Text("The Brave Little Tailor".to_string())),
            assignment("description", 22, HubValue::Text(description.to_string())),
            assignment("resides_in", 23, HubValue::Array(vec![HubValue::Identifier("workshop".to_string())])),
        ],
    };
    let hubgs = HubgsParseResult {
        instances: vec![workshop, tailor],
        types: vec![character, location],
        enums: vec![],
        structs: vec![],
        global_fields: vec![
            global_at("name", "Text", path, 3),
            global_at("description", "Text", path, 4),
            global_at("resides_in", "Location", path, 5),
        ],
        imports: vec![],
    };
    let ws = one_file(path, TAILOR, hubgs);

    // 1. Verify instance data exists
    let instances = all_hub_instances(&ws);
    assert_eq!(instances.len(), 2); // workshop + tailor
    let tailor = instances.iter().find(|i| i.name == "tailor").unwrap();
    assert_eq!(tailor.description.as_ref().unwrap(), description);
    assert_eq!(tailor.assignments.len(), 3); // name, description, resides_in

    // 2. Verify hover produces correct content for an instance
    let (markdown, _) =
        hover_impl(&ws, &"tailor".to_string(), &Some("/fantasy.hubgs".to_string()), &Some("fantasy.hubgs".to_string()))
            .unwrap();
    assert!(markdown.contains("Character: tailor (Hub)"), "Missing hub header. Markdown:\n{}", markdown);
    assert!(markdown.contains("A nimble and clever tailor"), "Missing description. Markdown:\n{}", markdown);
    assert!(markdown.contains("Fields:"), "Missing fields section. Markdown:\n{}", markdown);
    assert!(markdown.contains("The Brave Little Tailor"), "Missing name value. Markdown:\n{}", markdown);
    assert!(markdown.contains("Roles:"), "Missing roles section. Markdown:\n{}", markdown);
    assert!(markdown.contains("resides_in"), "Missing role name. Markdown:\n{}", markdown);
    assert!(markdown.contains("Count: 1"), "Missing role count. Markdown:\n{}", markdown);
}

const PEOPLE_FIELDS: &str = "
DEFINITIONS [
    FIELDS [
        first_name: Text,
        age: Number,
        is_active: Boolean
    ],
    HUBS [
        Person {
            first_name,
            age,
            is_active
        }
    ]
]
";

#[test]
fn test_field_definition_hover() {
    let path = "fantasy.hubgs";
    let person = HubType {
        name: "Person".to_string(),
        file: path.to_string(),
        range: rng(8, 8, 8, 14),
        block_range: rng(8, 8, 12, 9),
        fields: vec![field_at("first_name", 9, 12), field_at("age", 10, 12), field_at("is_active", 11, 12)],
        roles: vec![],
        extends_parents: vec![],
        constraints: vec![],
    };
    let hubgs = HubgsParseResult {
        instances: vec![],
        types: vec![person],
        enums: vec![],
        structs: vec![],
        global_fields: vec![
            global_at("first_name", "Text", path, 3),
            global_at("age", "Number", path, 4),
            global_at("is_active", "Boolean", path, 5),
        ],
        imports: vec![],
    };
    let ws = one_file(path, PEOPLE_FIELDS, hubgs);
    // Hover over a global field definition should return hover content
    let (markdown, _) = hover_impl(
        &ws,
        &"first_name".to_string(),
        &Some("/fantasy.hubgs".to_string()),
        &Some("fantasy.hubgs".to_string()),
    )
    .unwrap();
    assert!(markdown.contains("Field: first_name"), "Missing field header. Markdown:\n{}", markdown);
    assert!(markdown.contains("Text"), "Missing type info. Markdown:\n{}", markdown);
    assert!(markdown.contains("```hubgs"), "Missing code block. Markdown:\n{}", markdown);
}

const PERSON_LOCATION: &str = "
DEFINITIONS [
    FIELDS [
        first_name: Text,
        resides_in: Location,
        name: Text
    ],
    HUBS [
        Person {
            first_name,
            resides_in -> (1) ALLOWS [Location]
        },
        Location {
            name
        }
    ]
]
";

#[test]
fn test_type_hover() {
    let path = "fantasy.hubgs";
    let person = HubType {
        name: "Person".to_string(),
        file: path.to_string(),
        range: rng(8, 8, 8, 14),
        block_range: rng(8, 8, 11, 9),
        fields: vec![field_at("first_name", 9, 12)],
        roles: vec![HubRoleDef {
            name: "resides_in".to_string(),
            direction: "->".to_string(),
            multiplicity: "1".to_string(),
            allowed_types: vec!["Location".to_string()],
        }],
        extends_parents: vec![],
        constraints: vec![],
    };
    let location = HubType {
        name: "Location".to_string(),
        file: path.to_string(),
        range: rng(12, 8, 12, 16),
        block_range: rng(12, 8, 14, 9),
        fields: vec![field_at("name", 13, 12)],
        roles: vec![],
        extends_parents: vec![],
        constraints: vec![],
    };
    let hubgs = HubgsParseResult {
        instances: vec![],
        types: vec![person, location],
        enums: vec![],
        structs: vec![],
        global_fields: vec![
            global_at("first_name", "Text", path, 3),
            global_at("resides_in", "Location", path, 4),
            global_at("name", "Text", path, 5),
        ],
        imports: vec![],
    };
    let ws = one_file(path, PERSON_LOCATION, hubgs);

    // 1. Verify type data exists
    let resolved = resolve_type(&ws, &ws.files[0], &"Person".to_string());
    assert!(resolved.is_some());
    let person_type = resolved.unwrap();
    assert!(person_type.fields.iter().any(|f| f.name == "first_name"));
    assert!(person_type.roles.iter().any(|r| r.name == "resides_in"));

    // 2. Verify allows list is correctly parsed (not empty)
    let resides_role = person_type.roles.iter().find(|r| r.name == "resides_in").unwrap();
    assert!(
        !resides_role.allowed_types.is_empty(),
        "Allows list should contain 'Location', but got: {:?}",
        resides_role.allowed_types
    );
    assert_eq!(resides_role.allowed_types, vec!["Location".to_string()]);

    // 3. Verify hover produces correct content for a type
    let (markdown, _) =
        hover_impl(&ws, &"Person".to_string(), &Some("/fantasy.hubgs".to_string()), &Some("fantasy.hubgs".to_string()))
            .unwrap();
    assert!(markdown.contains("Type: Person"), "Missing type header. Markdown:\n{}", markdown);
    assert!(markdown.contains("Fields:"), "Missing fields section. Markdown:\n{}", markdown);
    assert!(markdown.contains("first_name"), "Missing field name. Markdown:\n{}", markdown);
    assert!(markdown.contains("Roles:"), "Missing roles section. Markdown:\n{}", markdown);
    assert!(markdown.contains("ALLOWS [Location]"), "Missing allows list in roles. Markdown:\n{}", markdown);
    assert!(markdown.contains("```hubgs"), "Missing code block. Markdown:\n{}", markdown);
}
