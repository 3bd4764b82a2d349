use tauwriter_lsp::hubgs_parse::{node_to_hub_value, parse_hubgs_ast};
use tauwriter_lsp::model::HubValue;
use tauwriter_lsp::position::{LspPosition, LspRange};
use tauwriter_lsp::syntax::SyntaxNode;

fn rng(l1: u32, c1: u32, l2: u32, c2: u32) -> LspRange {
    LspRange { start: LspPosition { line: l1, character: c1 }, end: LspPosition { line: l2, character: c2 } }
}

fn node(kind: &str, field: Option<&str>, text: &str, range: LspRange, children: Vec<SyntaxNode>) -> SyntaxNode {
    SyntaxNode { kind: kind.to_string(), field: field.map(|f| f.to_string()), text: text.to_string(), range, has_error: false, children }
}

/// A leaf on line `line` from column `c`.
fn leaf(kind: &str, text: &str, line: u32, c: u32) -> SyntaxNode {
    node(kind, None, text, rng(line, c, line, c + text.len() as u32), vec![])
}

fn ident(text: &str, line: u32, c: u32) -> SyntaxNode {
    leaf("identifier", text, line, c)
}

fn inner(kind: &str, line: u32, last_line: u32, children: Vec<SyntaxNode>) -> SyntaxNode {
    node(kind, None, "", rng(line, 4, last_line, 5), children)
}

fn field_def(name: &str, ty: &str, line: u32) -> SyntaxNode {
    inner(
        "field_definition",
        line,
        line,
        vec![ident(name, line, 8), leaf(":", ":", line, 8 + name.len() as u32), ident(ty, line, 10 + name.len() as u32)],
    )
}

#[test]
fn test_hubgs_fields_enums_structs_parsing() {
    // DEFINITIONS [
    //     FIELDS [
    //         name: Text,
    //         age: Number
    //     ],
    //     ENUMS [
    //         Status { Active, Inactive }
    //     ],
    //     STRUCTS [
    //         Address {
    //             street,
    //             city
    //         }
    //     ]
    // ]
    let fields = inner("fields_block", 2, 5, vec![leaf("FIELDS", "FIELDS", 2, 4), field_def("name", "Text", 3), field_def("age", "Number", 4)]);
    let status = inner(
        "enum_definition",
        7,
        7,
        vec![ident("Status", 7, 8), leaf("{", "{", 7, 15), ident("Active", 7, 17), leaf(",", ",", 7, 23), ident("Inactive", 7, 25), leaf("}", "}", 7, 34)],
    );
    let enums = inner("enums_block", 6, 8, vec![leaf("ENUMS", "ENUMS", 6, 4), status]);
    let address = inner(
        "struct_definition",
        10,
        13,
        vec![ident("Address", 10, 8), leaf("{", "{", 10, 16), ident("street", 11, 12), leaf(",", ",", 11, 18), ident("city", 12, 12), leaf("}", "}", 13, 8)],
    );
    let structs = inner("structs_block", 9, 14, vec![leaf("STRUCTS", "STRUCTS", 9, 4), address]);
    let defs = inner("definitions_section", 1, 15, vec![leaf("DEFINITIONS", "DEFINITIONS", 1, 0), fields, enums, structs]);
    let root = node("source_file", None, "", rng(0, 0, 16, 0), vec![defs]);

    let result = parse_hubgs_ast("definitions.hubgs", &root);

    // 1. Verify Fields
    let fields = &result.global_fields;
    assert_eq!(fields.len(), 2);
    assert_eq!(fields[0].name, "name");
    assert_eq!(fields[0].field_type, "Text");
    assert_eq!(fields[1].name, "age");
    assert_eq!(fields[1].field_type, "Number");

    // 2. Verify Enums
    let enums = &result.enums;
    assert_eq!(enums.len(), 1);
    assert_eq!(enums[0].name, "Status");
    assert_eq!(enums[0].variants, vec!["Active".to_string(), "Inactive".to_string()]);

    // 3. Verify Structs
    let structs = &result.structs;
    assert_eq!(structs.len(), 1);
    assert_eq!(structs[0].name, "Address");
    assert_eq!(structs[0].field_names, vec!["street".to_string(), "city".to_string()]);
}

fn decorated(name: &str, decorator: &str, expr: &str, line: u32) -> SyntaxNode {
    let n = name.len() as u32;
    let dec = node(
        "decorator",
        None,
        "",
        rng(line, 15 + n, line, 60),
        vec![leaf(decorator, decorator, line, 15 + n), leaf("(", "(", line, 24 + n), leaf("_expression", expr, line, 25 + n), leaf(")", ")", line, 59)],
    );
    inner("hub_field", line, line, vec![ident(name, line, 12), leaf("=", "=", line, 13 + n), dec])
}

#[test]
fn test_hubgs_decorator_parsing() {
    // HUBS [
    //     Person {
    //         first_name,
    //         last_name = @default('Doe'),
    //         full_name = @computed(first_name + ' ' + last_name)
    //     }
    // ]
    let person = inner(
        "hub_definition",
        8,
        12,
        vec![
            ident("Person", 8, 8),
            leaf("{", "{", 8, 15),
            inner("hub_field", 9, 9, vec![ident("first_name", 9, 12)]),
            decorated("last_name", "@default", "'Doe'", 10),
            decorated("full_name", "@computed", "first_name + ' ' + last_name", 11),
            leaf("}", "}", 12, 8),
        ],
    );
    let hubs = inner("hubs_block", 7, 13, vec![leaf("HUBS", "HUBS", 7, 4), person]);
    let defs = inner("definitions_section", 1, 14, vec![hubs]);
    let root = node("source_file", None, "", rng(0, 0, 15, 0), vec![defs]);

    let result = parse_hubgs_ast("decorators.hubgs", &root);
    let types = &result.types;
    assert_eq!(types.len(), 1);

    let fields = &types[0].fields;
    assert_eq!(fields.len(), 3);

    assert_eq!(fields[0].name, "first_name");
    assert_eq!(fields[0].decorator, None);

    assert_eq!(fields[1].name, "last_name");
    assert_eq!(fields[1].decorator, Some("@default".to_string()));

    assert_eq!(fields[2].name, "full_name");
    assert_eq!(fields[2].decorator, Some("@computed".to_string()));
    assert_eq!(fields[2].expression.as_ref().unwrap(), "first_name + ' ' + last_name");
}

fn assignment(name: &str, value: SyntaxNode, line: u32) -> SyntaxNode {
    inner("instance_assignment", line, line, vec![ident(name, line, 8), leaf("=", "=", line, 9 + name.len() as u32), value])
}

#[test]
fn roles_imports_and_instances() {
    // IMPORTS [ [Location] FROM 'places.hubgs' ],
    // HUBS [ Person { name, home -> (1) ALLOWS [Location, Ship] } ],
    // INSTANCES [ aragorn:Person { ... }, :Person { ... }, stray { ... } ]
    let import = inner(
        "import_statement",
        0,
        0,
        vec![leaf("[", "[", 0, 10), ident("Location", 0, 11), leaf("]", "]", 0, 19), leaf("FROM", "FROM", 0, 21), leaf("string", "'places.hubgs'", 0, 26)],
    );
    let imports = inner("imports_section", 0, 0, vec![leaf("IMPORTS", "IMPORTS", 0, 0), import]);
    let role = inner(
        "hub_role",
        2,
        2,
        vec![
            ident("home", 2, 8),
            leaf("->", "->", 2, 13),
            leaf("(", "(", 2, 16),
            leaf("multiplicity", "1", 2, 17),
            leaf(")", ")", 2, 18),
            leaf("ALLOWS", "ALLOWS", 2, 20),
            ident("Location", 2, 28),
            ident("Ship", 2, 38),
        ],
    );
    let person = inner("hub_definition", 1, 3, vec![ident("Person", 1, 4), inner("hub_field", 2, 2, vec![ident("name", 2, 4)]), role]);
    let defs = inner("definitions_section", 1, 3, vec![inner("hubs_block", 1, 3, vec![person])]);
    let array = node(
        "array",
        None,
        "[rivendell, 3]",
        rng(7, 15, 7, 29),
        vec![leaf("[", "[", 7, 15), ident("rivendell", 7, 16), leaf(",", ",", 7, 25), leaf("number", "3", 7, 27), leaf("]", "]", 7, 28)],
    );
    let grouped = node(
        "parenthesized_expression",
        None,
        "(true)",
        rng(8, 15, 8, 21),
        vec![leaf("(", "(", 8, 15), leaf("boolean", "true", 8, 16), leaf(")", ")", 8, 20)],
    );
    let aragorn = node(
        "instance_block",
        None,
        "",
        rng(5, 4, 10, 5),
        vec![
            node("identifier", Some("ref"), "aragorn", rng(5, 4, 5, 11), vec![]),
            leaf(":", ":", 5, 11),
            node("identifier", Some("type"), "Person", rng(5, 12, 5, 18), vec![]),
            assignment("name", leaf("string", "\"Aragorn\"", 6, 15), 6),
            assignment("home", array, 7),
            assignment("king", grouped, 8),
            assignment("description", leaf("template_string", "`Heir of Isildur`", 9, 22), 9),
            assignment("sword", leaf("call", "anduril()", 10, 16), 10),
        ],
    );
    let untyped = node(
        "instance_block",
        None,
        "",
        rng(11, 4, 11, 20),
        vec![node("identifier", Some("ref"), "ghost", rng(11, 4, 11, 9), vec![]), assignment("description", leaf("number", "7", 11, 22), 11)],
    );
    let nameless = node("instance_block", None, "", rng(12, 4, 12, 20), vec![node("identifier", Some("type"), "Person", rng(12, 5, 12, 11), vec![])]);
    let instances = inner("instances_section", 4, 13, vec![aragorn, untyped, nameless]);
    let root = node("source_file", None, "", rng(0, 0, 14, 0), vec![imports, defs, instances]);

    let result = parse_hubgs_ast("w.hubgs", &root);
    assert_eq!(result.imports.len(), 1);
    assert_eq!(result.imports[0].types, vec!["Location".to_string()]);
    assert_eq!(result.imports[0].from, "places.hubgs");

    let person = &result.types[0];
    assert_eq!(person.name, "Person");
    assert_eq!(person.range, rng(1, 4, 1, 10));
    assert_eq!(person.block_range, rng(1, 4, 3, 5));
    assert_eq!(person.file, "w.hubgs");
    let home = &person.roles[0];
    assert_eq!((home.name.as_str(), home.direction.as_str(), home.multiplicity.as_str()), ("home", "->", "1"));
    assert_eq!(home.allowed_types, vec!["Location".to_string(), "Ship".to_string()]);

    assert_eq!(result.instances.len(), 2);
    let a = &result.instances[0];
    assert_eq!((a.name.as_str(), a.instance_type.as_str()), ("aragorn", "Person"));
    assert_eq!(a.range, rng(5, 4, 5, 11));
    assert_eq!(a.block_range, rng(5, 4, 10, 5));
    // The call holds no value, so its assignment is left out.
    assert_eq!(a.assignments.len(), 4);
    assert_eq!(a.assignments[0].value, HubValue::Text("Aragorn".to_string()));
    assert_eq!(a.assignments[0].value_range, rng(6, 15, 6, 24));
    assert_eq!(
        a.assignments[1].value,
        HubValue::Array(vec![HubValue::Identifier("rivendell".to_string()), HubValue::Number("3".to_string())])
    );
    assert_eq!(a.assignments[2].value, HubValue::Boolean(true));
    assert_eq!(a.description.as_deref(), Some("Heir of Isildur"));
    // Without a type the instance is of type `Unknown`; a description that is not text gives none.
    let g = &result.instances[1];
    assert_eq!((g.name.as_str(), g.instance_type.as_str()), ("ghost", "Unknown"));
    assert_eq!(g.description, None);
}

#[test]
fn values_of_expression_nodes() {
    assert_eq!(node_to_hub_value(&leaf("boolean", "false", 0, 0)), Some(HubValue::Boolean(false)));
    assert_eq!(node_to_hub_value(&leaf("string", "'it''s'", 0, 0)), Some(HubValue::Text("it''s".to_string())));
    assert_eq!(node_to_hub_value(&leaf("comment", "// x", 0, 0)), None);
    // An expression with nothing but punctuation holds no value.
    let empty = node("_expression", None, "()", rng(0, 0, 0, 2), vec![leaf("(", "(", 0, 0), leaf(")", ")", 0, 1)]);
    assert_eq!(node_to_hub_value(&empty), None);
}
