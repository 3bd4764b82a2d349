use tauwriter_lsp::expression::{parse_expression, Expr, Literal};

fn ident(s: &str) -> Expr {
    Expr::Ident(s.to_string())
}

fn num(s: &str) -> Expr {
    Expr::Literal(Literal::Number(s.to_string()))
}

fn text(s: &str) -> Expr {
    Expr::Literal(Literal::Str(s.to_string()))
}

fn bin(op: &str, l: Expr, r: Expr) -> Expr {
    Expr::Binary { op: op.to_string(), left: Box::new(l), right: Box::new(r) }
}

fn dot(t: Expr, m: &str) -> Expr {
    Expr::DotAccess { target: Box::new(t), member: m.to_string() }
}

fn call(t: Expr, args: Vec<Expr>) -> Expr {
    Expr::Call { target: Box::new(t), args }
}

#[test]
fn precedence_and_left_association() {
    assert_eq!(parse_expression("1 + 2 * 3"), Some(bin("+", num("1"), bin("*", num("2"), num("3")))));
    assert_eq!(parse_expression("10 - 4 - 3"), Some(bin("-", bin("-", num("10"), num("4")), num("3"))));
    assert_eq!(parse_expression("8 / 2 * 3"), Some(bin("*", bin("/", num("8"), num("2")), num("3"))));
    assert_eq!(
        parse_expression("(1 + 2) * 3"),
        Some(bin("*", Expr::Group(Box::new(bin("+", num("1"), num("2")))), num("3")))
    );
}

#[test]
fn literals_and_identifiers() {
    assert_eq!(parse_expression("first_name + ' ' + last_name"), Some(bin("+", bin("+", ident("first_name"), text(" ")), ident("last_name"))));
    assert_eq!(parse_expression("\"a\" + `b`"), Some(bin("+", text("a"), text("b"))));
    assert_eq!(parse_expression("true"), Some(Expr::Literal(Literal::Bool(true))));
    assert_eq!(parse_expression("falsey"), Some(ident("falsey")));
    assert_eq!(parse_expression(".5 + 1.25"), Some(bin("+", num(".5"), num("1.25"))));
    // An unterminated string runs to the end.
    assert_eq!(parse_expression("'open"), Some(text("open")));
}

#[test]
fn unary_operators() {
    assert_eq!(
        parse_expression("-x"),
        Some(Expr::Unary { op: "-".to_string(), operand: Box::new(ident("x")) })
    );
    assert_eq!(
        parse_expression("!!done"),
        Some(Expr::Unary {
            op: "!".to_string(),
            operand: Box::new(Expr::Unary { op: "!".to_string(), operand: Box::new(ident("done")) }),
        })
    );
}

#[test]
fn member_access_calls_and_arrows() {
    assert_eq!(parse_expression("this.companions.length"), Some(dot(dot(ident("this"), "companions"), "length")));
    assert_eq!(parse_expression("this.companions.len()"), Some(call(dot(dot(ident("this"), "companions"), "len"), vec![])));
    assert_eq!(
        parse_expression("this.companions.map(c => c.name).join(', ')"),
        Some(call(
            dot(
                call(
                    dot(dot(ident("this"), "companions"), "map"),
                    vec![Expr::Arrow { param: "c".to_string(), body: Box::new(dot(ident("c"), "name")) }],
                ),
                "join"
            ),
            vec![text(", ")],
        ))
    );
    assert_eq!(parse_expression("f(a, b)"), Some(call(ident("f"), vec![ident("a"), ident("b")])));
}

#[test]
fn malformed_expressions() {
    assert_eq!(parse_expression(""), None);
    assert_eq!(parse_expression("   "), None);
    assert_eq!(parse_expression("1 +"), None);
    assert_eq!(parse_expression("a."), None);
    assert_eq!(parse_expression("f(a,)"), None);
    assert_eq!(parse_expression("f(a"), None);
    assert_eq!(parse_expression(")"), None);
    // A group may lack its closing parenthesis.
    assert_eq!(parse_expression("(a"), Some(Expr::Group(Box::new(ident("a")))));
    // Tokens after a complete expression are not looked at.
    assert_eq!(parse_expression("a b"), Some(ident("a")));
    assert_eq!(parse_expression("x é"), Some(ident("x")));
}

use tauwriter_lsp::computed::{hub_value_to_string, needs_default, resolve_role_targets};
use tauwriter_lsp::model::{
    HubAssignment, HubFieldDef, HubInstance, HubRoleDef, HubType, HubValue, HubgsParseResult, SourceFile, TwxmlTag,
    Workspace, WorkspaceFile,
};
use tauwriter_lsp::position::{LspPosition, LspRange};

fn rng() -> LspRange {
    LspRange { start: LspPosition { line: 0, character: 0 }, end: LspPosition { line: 0, character: 1 } }
}

fn field(name: &str, decorator: Option<&str>) -> HubFieldDef {
    HubFieldDef {
        name: name.to_string(),
        range: rng(),
        decorator: decorator.map(|d| d.to_string()),
        expression: decorator.map(|_| "1 + 1".to_string()),
        is_display: false,
        is_background: false,
    }
}

fn ty(name: &str, fields: Vec<HubFieldDef>, roles: Vec<HubRoleDef>, parents: &[&str]) -> HubType {
    HubType {
        name: name.to_string(),
        file: "w.hubgs".to_string(),
        range: rng(),
        block_range: rng(),
        fields,
        roles,
        extends_parents: parents.iter().map(|p| p.to_string()).collect(),
        constraints: vec![],
    }
}

fn inst(name: &str, t: &str, assignments: Vec<(&str, HubValue)>) -> HubInstance {
    HubInstance {
        name: name.to_string(),
        instance_type: t.to_string(),
        file: "w.hubgs".to_string(),
        range: rng(),
        block_range: rng(),
        description: None,
        assignments: assignments
            .into_iter()
            .map(|(n, v)| HubAssignment { name: n.to_string(), range: rng(), value: v, value_range: rng() })
            .collect(),
    }
}

fn ids(names: &[&str]) -> HubValue {
    HubValue::Array(names.iter().map(|n| HubValue::Identifier(n.to_string())).collect())
}

fn shire() -> Workspace {
    let keeper = HubRoleDef {
        name: "companions".to_string(),
        direction: "<->".to_string(),
        multiplicity: "0..*".to_string(),
        allowed_types: vec!["Person".to_string()],
    };
    let defs = HubgsParseResult {
        instances: vec![
            inst("aragorn", "Person", vec![("companions", ids(&["gandalf", "shadowfax", "nobody", "legolas"]))]),
            inst("gandalf", "Wizard", vec![]),
            inst("legolas", "Person", vec![("nickname", HubValue::Text("Greenleaf".to_string()))]),
            inst("shadowfax", "Horse", vec![]),
        ],
        types: vec![
            ty("Person", vec![field("name", None), field("nickname", Some("@default")), field("age", Some("@computed"))], vec![keeper], &[]),
            ty("Wizard", vec![], vec![], &["Person"]),
            ty("Horse", vec![], vec![], &[]),
        ],
        enums: vec![],
        structs: vec![],
        global_fields: vec![],
        imports: vec![],
    };
    Workspace {
        files: vec![WorkspaceFile {
            source: SourceFile { path: "w.hubgs".to_string(), contents: String::new() },
            hubgs: defs,
            references: vec![],
            tags: Vec::<TwxmlTag>::new(),
        }],
    }
}

#[test]
fn role_targets_keep_fitting_instances() {
    let ws = shire();
    let aragorn = &ws.files[0].hubgs.instances[0];
    // gandalf is a Wizard, which extends Person; shadowfax is a Horse; nobody does not resolve.
    assert_eq!(resolve_role_targets(&ws, aragorn, &"companions".to_string()), Some(ids(&["gandalf", "legolas"])));
    // An unknown role, or a role the instance leaves unassigned.
    assert_eq!(resolve_role_targets(&ws, aragorn, &"enemies".to_string()), None);
    let legolas = &ws.files[0].hubgs.instances[2];
    assert_eq!(resolve_role_targets(&ws, legolas, &"companions".to_string()), None);
}

#[test]
fn defaults_apply_to_unassigned_fields() {
    let ws = shire();
    let aragorn = &ws.files[0].hubgs.instances[0];
    let legolas = &ws.files[0].hubgs.instances[2];
    assert_eq!(needs_default(&ws, aragorn, &"nickname".to_string()), Some(true));
    assert_eq!(needs_default(&ws, legolas, &"nickname".to_string()), Some(false));
    // No default on the field, no such field, or a type that does not resolve.
    assert_eq!(needs_default(&ws, aragorn, &"age".to_string()), None);
    assert_eq!(needs_default(&ws, aragorn, &"height".to_string()), None);
    let stray = inst("stray", "Ghost", vec![]);
    assert_eq!(needs_default(&ws, &stray, &"nickname".to_string()), None);
}

#[test]
fn values_as_text() {
    assert_eq!(hub_value_to_string(&HubValue::Text("a b".to_string())), Some("a b".to_string()));
    assert_eq!(hub_value_to_string(&HubValue::Number("2.5".to_string())), Some("2.5".to_string()));
    assert_eq!(hub_value_to_string(&HubValue::Boolean(false)), Some("false".to_string()));
    assert_eq!(hub_value_to_string(&HubValue::Identifier("frodo".to_string())), Some("frodo".to_string()));
    assert_eq!(hub_value_to_string(&HubValue::ColorHex("#fff".to_string())), None);
    assert_eq!(hub_value_to_string(&ids(&["a"])), None);
}
