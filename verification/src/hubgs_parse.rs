//! What a HubGS syntax tree defines: its imports, the fields, enums,
//! structs and hub types of its definitions sections, and the hub
//! instances of its instances sections, read node by node.
use vstd::prelude::*;

use crate::model::{
    opt_view, strings_view, values_view, AssignmentView, EnumView, FieldView, GlobalField, GlobalFieldView, HubAssignment,
    HubEnum, HubFieldDef, HubImport, HubInstance, HubRoleDef, HubStruct, HubType, HubValue, HubgsParseResult,
    ImportView, InstanceView, ParseView, RoleView, StructView, TypeView, ValueView,
};
use crate::multiplicity::{trim_char, trim_range};
use crate::references::first_assignment;
use crate::syntax::{field_child, lemma_nodes_view, node_view, NodeView, SyntaxNode};
use crate::text::{owned, str_eq, string_from_range, to_chars};
use crate::twxml_tree::{unquote_text, unquoted};

verus! {

// ---------- values ----------

/// A punctuation token between the parts of an expression.
pub open spec fn punctuation(k: Seq<char>) -> bool {
    k == "("@ || k == ")"@ || k == "["@ || k == "]"@ || k == "{"@ || k == "}"@ || k == ","@ || k == "."@
}

/// A string literal's text with double quotes, single quotes and then
/// backquotes trimmed from both ends.
pub open spec fn string_value(s: Seq<char>) -> Seq<char> {
    trim_char(unquoted(s), '`')
}

/// The value an expression node holds: identifiers, numbers (as written),
/// strings, booleans, arrays of the values their elements hold, and for
/// an expression or parenthesized expression the value of its first part
/// that is not punctuation and holds one; none for anything else.
pub open spec fn value_of(n: NodeView) -> Option<ValueView>
    decreases n,
{
    if n.kind == "identifier"@ {
        Some(ValueView::Identifier(n.text))
    } else if n.kind == "number"@ {
        Some(ValueView::Number(n.text))
    } else if n.kind == "string"@ || n.kind == "template_string"@ {
        Some(ValueView::Text(string_value(n.text)))
    } else if n.kind == "boolean"@ {
        Some(ValueView::Boolean(n.text == "true"@))
    } else if n.kind == "array"@ {
        Some(ValueView::Array(values_in(n.children)))
    } else if n.kind == "_expression"@ || n.kind == "parenthesized_expression"@ {
        first_value(n.children)
    } else {
        None
    }
}

/// The values the nodes `cs` hold, in order, skipping those that hold none.
pub open spec fn values_in(cs: Seq<NodeView>) -> Seq<ValueView>
    decreases cs,
{
    if cs.len() == 0 {
        Seq::empty()
    } else {
        values_in(cs.drop_last()) + match value_of(cs.last()) {
            Some(v) => seq![v],
            None => Seq::empty(),
        }
    }
}

/// The value of the first node of `cs` that is not punctuation and holds one.
pub open spec fn first_value(cs: Seq<NodeView>) -> Option<ValueView>
    decreases cs,
{
    if cs.len() == 0 {
        None
    } else {
        match first_value(cs.drop_last()) {
            Some(v) => Some(v),
            None => if punctuation(cs.last().kind) {
                None
            } else {
                value_of(cs.last())
            },
        }
    }
}

fn string_text(s: &str) -> (r: String)
    ensures
        r@ == string_value(s@),
{
    let u = unquote_text(s);
    let v = to_chars(u.as_str());
    assert(v@.subrange(0, v@.len() as int) =~= v@);
    let (a, b) = trim_range(&v, 0, v.len(), '`');
    string_from_range(&v, a, b)
}

fn is_punctuation(k: &str) -> (b: bool)
    ensures
        b == punctuation(k@),
{
    str_eq(k, "(") || str_eq(k, ")") || str_eq(k, "[") || str_eq(k, "]") || str_eq(k, "{") || str_eq(k, "}")
        || str_eq(k, ",") || str_eq(k, ".")
}

/// The value an expression node holds (see `value_of`).
pub fn node_to_hub_value(n: &SyntaxNode) -> (r: Option<HubValue>)
    ensures
        match r {
            Some(v) => value_of(n@) == Some(v@),
            None => value_of(n@) is None,
        },
    decreases n,
{
    let k = n.kind.as_str();
    if str_eq(k, "identifier") {
        return Some(HubValue::Identifier(n.text.clone()));
    }
    if str_eq(k, "number") {
        return Some(HubValue::Number(n.text.clone()));
    }
    if str_eq(k, "string") || str_eq(k, "template_string") {
        return Some(HubValue::Text(string_text(n.text.as_str())));
    }
    if str_eq(k, "boolean") {
        return Some(HubValue::Boolean(str_eq(n.text.as_str(), "true")));
    }
    let is_array = str_eq(k, "array");
    let is_group = str_eq(k, "_expression") || str_eq(k, "parenthesized_expression");
    if !is_array && !is_group {
        return None;
    }
    proof {
        lemma_nodes_view(n.children@);
    }
    let ghost cs = n@.children;
    let mut vals: Vec<HubValue> = Vec::new();
    let mut i: usize = 0;
    assert(cs.take(0) =~= Seq::<NodeView>::empty());
    assert(values_view(vals@) =~= Seq::<ValueView>::empty());
    while i < n.children.len()
        invariant
            i <= n.children.len(),
            cs == n@.children,
            cs.len() == n.children@.len(),
            forall|j: int| 0 <= j < n.children@.len() ==> #[trigger] cs[j] == node_view(n.children@[j]),
            is_array ==> values_view(vals@) == values_in(cs.take(i as int)),
            !is_array ==> first_value(cs.take(i as int)) is None,
            is_array == (n@.kind == "array"@),
            is_group == (n@.kind == "_expression"@ || n@.kind == "parenthesized_expression"@),
            is_array || is_group,
            n@.kind != "identifier"@ && n@.kind != "number"@ && n@.kind != "string"@ && n@.kind != "template_string"@
                && n@.kind != "boolean"@,
        decreases n.children.len() - i,
    {
        let c = &n.children[i];
        assert(cs.take(i + 1).drop_last() =~= cs.take(i as int));
        assert(cs.take(i + 1).last() == c@);
        assert(decreases_to!(n => n.children));
        assert(decreases_to!(n.children => n.children@));
        assert(decreases_to!(n.children@ => n.children@[i as int]));
        if is_array {
            match node_to_hub_value(c) {
                Some(v) => {
                    let ghost before = vals@;
                    proof {
                        crate::model::lemma_values_view_push(before, v);
                    }
                    vals.push(v);
                },
                None => {},
            }
            assert(values_view(vals@) =~= values_in(cs.take(i + 1)));
        } else {
            if !is_punctuation(c.kind.as_str()) {
                match node_to_hub_value(c) {
                    Some(v) => {
                        proof {
                            lemma_first_value_found(cs, i as int);
                        }
                        return Some(v);
                    },
                    None => {},
                }
            }
        }
        i = i + 1;
    }
    assert(cs.take(i as int) =~= cs);
    if is_array {
        Some(HubValue::Array(vals))
    } else {
        None
    }
}

/// When the first `i` nodes hold no first value and node `i` is not
/// punctuation and holds one, it is the first value of them all.
proof fn lemma_first_value_found(cs: Seq<NodeView>, i: int)
    requires
        0 <= i < cs.len(),
        first_value(cs.take(i)) is None,
        !punctuation(cs[i].kind),
        value_of(cs[i]) is Some,
    ensures
        first_value(cs) == value_of(cs[i]),
    decreases cs.len(),
{
    if cs.len() == i + 1 {
        assert(cs.drop_last() =~= cs.take(i));
    } else {
        assert(cs.drop_last().take(i) =~= cs.take(i));
        lemma_first_value_found(cs.drop_last(), i);
    }
}

// ---------- names among children ----------

/// The texts of the identifier nodes among `cs`, in order.
pub open spec fn idents(cs: Seq<NodeView>) -> Seq<Seq<char>>
    decreases cs.len(),
{
    if cs.len() == 0 {
        Seq::empty()
    } else {
        idents(cs.drop_last()) + if cs.last().kind == "identifier"@ {
            seq![cs.last().text]
        } else {
            Seq::empty()
        }
    }
}

/// The texts of the identifier children of `n` from index `from` on.
fn idents_of(n: &SyntaxNode, from: usize) -> (r: Vec<String>)
    requires
        from <= n.children.len(),
    ensures
        strings_view(r@) == idents(n@.children.skip(from as int)),
{
    proof {
        lemma_nodes_view(n.children@);
    }
    let ghost cs = n@.children.skip(from as int);
    let mut out: Vec<String> = Vec::new();
    let mut i = from;
    assert(cs.take(0) =~= Seq::<NodeView>::empty());
    assert(strings_view(out@) =~= Seq::<Seq<char>>::empty());
    while i < n.children.len()
        invariant
            from <= i <= n.children.len(),
            cs == n@.children.skip(from as int),
            nodes_len(n),
            strings_view(out@) == idents(cs.take(i - from)),
        decreases n.children.len() - i,
    {
        let c = &n.children[i];
        assert(cs.take(i - from + 1).drop_last() =~= cs.take(i - from));
        assert(cs.take(i - from + 1).last() == c@);
        let ghost before = strings_view(out@);
        if str_eq(c.kind.as_str(), "identifier") {
            out.push(c.text.clone());
            assert(strings_view(out@) =~= before.push(c@.text));
        }
        assert(strings_view(out@) =~= idents(cs.take(i - from + 1)));
        i = i + 1;
    }
    assert(cs.take(i - from) =~= cs);
    out
}

/// The views of the children of `n` are the views of its child nodes.
pub open spec fn nodes_len(n: &SyntaxNode) -> bool {
    &&& n@.children.len() == n.children@.len()
    &&& forall|j: int| 0 <= j < n.children@.len() ==> #[trigger] n@.children[j] == node_view(n.children@[j])
}

// ---------- imports ----------

/// The text of the last string node among `cs`, quotes trimmed (empty
/// when there is none).
pub open spec fn last_string(cs: Seq<NodeView>) -> Seq<char>
    decreases cs.len(),
{
    if cs.len() == 0 {
        Seq::empty()
    } else if cs.last().kind == "string"@ {
        unquoted(cs.last().text)
    } else {
        last_string(cs.drop_last())
    }
}

/// The import an import statement makes: the identifiers it names and
/// the file of its (last) string.
pub open spec fn import_of(stmt: NodeView) -> ImportView {
    ImportView { types: idents(stmt.children), from: last_string(stmt.children) }
}

/// The imports of the statements among `cs`.
pub open spec fn section_imports(cs: Seq<NodeView>) -> Seq<ImportView>
    decreases cs.len(),
{
    if cs.len() == 0 {
        Seq::empty()
    } else {
        section_imports(cs.drop_last()) + if cs.last().kind == "import_statement"@ {
            seq![import_of(cs.last())]
        } else {
            Seq::empty()
        }
    }
}

/// The imports of the imports sections among `cs`.
pub open spec fn root_imports(cs: Seq<NodeView>) -> Seq<ImportView>
    decreases cs.len(),
{
    if cs.len() == 0 {
        Seq::empty()
    } else {
        root_imports(cs.drop_last()) + if cs.last().kind == "imports_section"@ {
            section_imports(cs.last().children)
        } else {
            Seq::empty()
        }
    }
}

/// The views of a sequence of imports.
pub open spec fn imports_view(v: Seq<HubImport>) -> Seq<ImportView> {
    v.map_values(|x: HubImport| x@)
}

fn import_at(stmt: &SyntaxNode) -> (r: HubImport)
    ensures
        r@ == import_of(stmt@),
{
    proof {
        lemma_nodes_view(stmt.children@);
    }
    let types = idents_of(stmt, 0);
    assert(stmt@.children.skip(0) =~= stmt@.children);
    let ghost cs = stmt@.children;
    let mut k = stmt.children.len();
    assert(cs.take(k as int) =~= cs);
    while k > 0
        invariant
            k <= stmt.children.len(),
            cs == stmt@.children,
            nodes_len(stmt),
            strings_view(types@) == idents(cs),
            last_string(cs) == last_string(cs.take(k as int)),
        decreases k,
    {
        let c = &stmt.children[k - 1];
        assert(cs.take(k as int).drop_last() =~= cs.take(k - 1));
        assert(cs.take(k as int).last() == c@);
        if str_eq(c.kind.as_str(), "string") {
            return HubImport { types, from: unquote_text(c.text.as_str()) };
        }
        k = k - 1;
    }
    assert(cs.take(0) =~= Seq::<NodeView>::empty());
    HubImport { types, from: String::new() }
}

fn push_section_imports(sec: &SyntaxNode, out: &mut Vec<HubImport>)
    ensures
        imports_view(final(out)@) == imports_view(old(out)@) + section_imports(sec@.children),
{
    proof {
        lemma_nodes_view(sec.children@);
    }
    let ghost cs = sec@.children;
    let ghost o0 = imports_view(out@);
    let mut i: usize = 0;
    assert(cs.take(0) =~= Seq::<NodeView>::empty());
    assert(imports_view(out@) =~= o0 + section_imports(cs.take(0)));
    while i < sec.children.len()
        invariant
            i <= sec.children.len(),
            cs == sec@.children,
            nodes_len(sec),
            imports_view(out@) == o0 + section_imports(cs.take(i as int)),
        decreases sec.children.len() - i,
    {
        let c = &sec.children[i];
        assert(cs.take(i + 1).drop_last() =~= cs.take(i as int));
        assert(cs.take(i + 1).last() == c@);
        let ghost before = imports_view(out@);
        if str_eq(c.kind.as_str(), "import_statement") {
            let imp = import_at(c);
            let ghost iv = imp@;
            out.push(imp);
            assert(imports_view(out@) =~= before.push(iv));
        }
        assert(imports_view(out@) =~= o0 + section_imports(cs.take(i + 1)));
        i = i + 1;
    }
    assert(cs.take(i as int) =~= cs);
}

// ---------- fields, enums and structs ----------

/// The fields the field definitions among `cs` declare in the file `path`:
/// a name, then its type as the third part.
pub open spec fn block_fields(path: Seq<char>, cs: Seq<NodeView>) -> Seq<GlobalFieldView>
    decreases cs.len(),
{
    if cs.len() == 0 {
        Seq::empty()
    } else {
        let d = cs.last();
        block_fields(path, cs.drop_last()) + if d.kind == "field_definition"@ && d.children.len() > 2 {
            seq![
                GlobalFieldView {
                    name: d.children[0].text,
                    file: path,
                    range: d.children[0].range,
                    field_type: d.children[2].text,
                },
            ]
        } else {
            Seq::empty()
        }
    }
}

/// The enums the enum definitions among `cs` declare: a name, then the
/// identifiers after it as variants.
pub open spec fn block_enums(path: Seq<char>, cs: Seq<NodeView>) -> Seq<EnumView>
    decreases cs.len(),
{
    if cs.len() == 0 {
        Seq::empty()
    } else {
        let d = cs.last();
        block_enums(path, cs.drop_last()) + if d.kind == "enum_definition"@ && d.children.len() > 0 {
            seq![
                EnumView {
                    name: d.children[0].text,
                    file: path,
                    range: d.children[0].range,
                    variants: idents(d.children.skip(1)),
                },
            ]
        } else {
            Seq::empty()
        }
    }
}

/// The structs the struct definitions among `cs` declare: a name, then
/// the identifiers after it as field names.
pub open spec fn block_structs(path: Seq<char>, cs: Seq<NodeView>) -> Seq<StructView>
    decreases cs.len(),
{
    if cs.len() == 0 {
        Seq::empty()
    } else {
        let d = cs.last();
        block_structs(path, cs.drop_last()) + if d.kind == "struct_definition"@ && d.children.len() > 0 {
            seq![
                StructView {
                    name: d.children[0].text,
                    file: path,
                    range: d.children[0].range,
                    field_names: idents(d.children.skip(1)),
                },
            ]
        } else {
            Seq::empty()
        }
    }
}

/// The views of sequences of fields, enums and structs.
pub open spec fn globals_view(v: Seq<GlobalField>) -> Seq<GlobalFieldView> {
    v.map_values(|x: GlobalField| x@)
}

pub open spec fn enums_view(v: Seq<HubEnum>) -> Seq<EnumView> {
    v.map_values(|x: HubEnum| x@)
}

pub open spec fn structs_view(v: Seq<HubStruct>) -> Seq<StructView> {
    v.map_values(|x: HubStruct| x@)
}

fn push_block_fields(path: &str, b: &SyntaxNode, out: &mut Vec<GlobalField>)
    ensures
        globals_view(final(out)@) == globals_view(old(out)@) + block_fields(path@, b@.children),
{
    proof {
        lemma_nodes_view(b.children@);
    }
    let ghost cs = b@.children;
    let ghost o0 = globals_view(out@);
    let mut i: usize = 0;
    assert(cs.take(0) =~= Seq::<NodeView>::empty());
    assert(globals_view(out@) =~= o0 + block_fields(path@, cs.take(0)));
    while i < b.children.len()
        invariant
            i <= b.children.len(),
            cs == b@.children,
            nodes_len(b),
            globals_view(out@) == o0 + block_fields(path@, cs.take(i as int)),
        decreases b.children.len() - i,
    {
        let d = &b.children[i];
        assert(cs.take(i + 1).drop_last() =~= cs.take(i as int));
        assert(cs.take(i + 1).last() == d@);
        proof {
            lemma_nodes_view(d.children@);
        }
        let ghost before = globals_view(out@);
        if str_eq(d.kind.as_str(), "field_definition") && d.children.len() > 2 {
            let g = GlobalField {
                name: d.children[0].text.clone(),
                file: owned(path),
                range: d.children[0].range,
                field_type: d.children[2].text.clone(),
            };
            let ghost gv = g@;
            out.push(g);
            assert(globals_view(out@) =~= before.push(gv));
        }
        assert(globals_view(out@) =~= o0 + block_fields(path@, cs.take(i + 1)));
        i = i + 1;
    }
    assert(cs.take(i as int) =~= cs);
}

fn push_block_enums(path: &str, b: &SyntaxNode, out: &mut Vec<HubEnum>)
    ensures
        enums_view(final(out)@) == enums_view(old(out)@) + block_enums(path@, b@.children),
{
    proof {
        lemma_nodes_view(b.children@);
    }
    let ghost cs = b@.children;
    let ghost o0 = enums_view(out@);
    let mut i: usize = 0;
    assert(cs.take(0) =~= Seq::<NodeView>::empty());
    assert(enums_view(out@) =~= o0 + block_enums(path@, cs.take(0)));
    while i < b.children.len()
        invariant
            i <= b.children.len(),
            cs == b@.children,
            nodes_len(b),
            enums_view(out@) == o0 + block_enums(path@, cs.take(i as int)),
        decreases b.children.len() - i,
    {
        let d = &b.children[i];
        assert(cs.take(i + 1).drop_last() =~= cs.take(i as int));
        assert(cs.take(i + 1).last() == d@);
        proof {
            lemma_nodes_view(d.children@);
        }
        let ghost before = enums_view(out@);
        if str_eq(d.kind.as_str(), "enum_definition") && d.children.len() > 0 {
            let e = HubEnum {
                name: d.children[0].text.clone(),
                file: owned(path),
                range: d.children[0].range,
                variants: idents_of(d, 1),
            };
            let ghost ev = e@;
            out.push(e);
            assert(enums_view(out@) =~= before.push(ev));
        }
        assert(enums_view(out@) =~= o0 + block_enums(path@, cs.take(i + 1)));
        i = i + 1;
    }
    assert(cs.take(i as int) =~= cs);
}

fn push_block_structs(path: &str, b: &SyntaxNode, out: &mut Vec<HubStruct>)
    ensures
        structs_view(final(out)@) == structs_view(old(out)@) + block_structs(path@, b@.children),
{
    proof {
        lemma_nodes_view(b.children@);
    }
    let ghost cs = b@.children;
    let ghost o0 = structs_view(out@);
    let mut i: usize = 0;
    assert(cs.take(0) =~= Seq::<NodeView>::empty());
    assert(structs_view(out@) =~= o0 + block_structs(path@, cs.take(0)));
    while i < b.children.len()
        invariant
            i <= b.children.len(),
            cs == b@.children,
            nodes_len(b),
            structs_view(out@) == o0 + block_structs(path@, cs.take(i as int)),
        decreases b.children.len() - i,
    {
        let d = &b.children[i];
        assert(cs.take(i + 1).drop_last() =~= cs.take(i as int));
        assert(cs.take(i + 1).last() == d@);
        proof {
            lemma_nodes_view(d.children@);
        }
        let ghost before = structs_view(out@);
        if str_eq(d.kind.as_str(), "struct_definition") && d.children.len() > 0 {
            let s = HubStruct {
                name: d.children[0].text.clone(),
                file: owned(path),
                range: d.children[0].range,
                field_names: idents_of(d, 1),
            };
            let ghost sv = s@;
            out.push(s);
            assert(structs_view(out@) =~= before.push(sv));
        }
        assert(structs_view(out@) =~= o0 + block_structs(path@, cs.take(i + 1)));
        i = i + 1;
    }
    assert(cs.take(i as int) =~= cs);
}

// ---------- hub types ----------

/// The decorator of a hub field and its expression: after `=`, the first
/// and third parts of a decorator node.
pub open spec fn decorator_of(item: NodeView) -> (Option<Seq<char>>, Option<Seq<char>>) {
    if item.children.len() > 2 && item.children[1].kind == "="@ && item.children[2].kind == "decorator"@ {
        let d = item.children[2];
        (
            if d.children.len() > 0 {
                Some(d.children[0].text)
            } else {
                None
            },
            if d.children.len() > 2 {
                Some(d.children[2].text)
            } else {
                None
            },
        )
    } else {
        (None, None)
    }
}

/// The field a hub field node declares: its first part names it.
pub open spec fn field_of(item: NodeView) -> FieldView {
    FieldView {
        name: item.children[0].text,
        range: item.children[0].range,
        decorator: decorator_of(item).0,
        expression: decorator_of(item).1,
        is_display: false,
        is_background: false,
    }
}

/// The role a hub role node declares: its name, direction (second part)
/// and multiplicity (fourth part), and the identifiers after its name as
/// the allowed types.
pub open spec fn role_of(item: NodeView) -> RoleView {
    RoleView {
        name: item.children[0].text,
        direction: if item.children.len() > 1 {
            item.children[1].text
        } else {
            Seq::empty()
        },
        multiplicity: if item.children.len() > 3 {
            item.children[3].text
        } else {
            Seq::empty()
        },
        allowed_types: idents(item.children.skip(1)),
    }
}

/// The fields of the hub field nodes among `cs`.
pub open spec fn hub_fields(cs: Seq<NodeView>) -> Seq<FieldView>
    decreases cs.len(),
{
    if cs.len() == 0 {
        Seq::empty()
    } else {
        hub_fields(cs.drop_last()) + if cs.last().kind == "hub_field"@ && cs.last().children.len() > 0 {
            seq![field_of(cs.last())]
        } else {
            Seq::empty()
        }
    }
}

/// The roles of the hub role nodes among `cs`.
pub open spec fn hub_roles(cs: Seq<NodeView>) -> Seq<RoleView>
    decreases cs.len(),
{
    if cs.len() == 0 {
        Seq::empty()
    } else {
        hub_roles(cs.drop_last()) + if cs.last().kind == "hub_role"@ && cs.last().children.len() > 0 {
            seq![role_of(cs.last())]
        } else {
            Seq::empty()
        }
    }
}

/// The hub type a hub definition declares in the file `path`.
pub open spec fn type_of(path: Seq<char>, h: NodeView) -> TypeView {
    TypeView {
        name: h.children[0].text,
        file: path,
        range: h.children[0].range,
        block_range: h.range,
        fields: hub_fields(h.children),
        roles: hub_roles(h.children),
        extends_parents: Seq::empty(),
        constraints: Seq::empty(),
    }
}

/// The hub types of the hub definitions among `cs`.
pub open spec fn block_types(path: Seq<char>, cs: Seq<NodeView>) -> Seq<TypeView>
    decreases cs.len(),
{
    if cs.len() == 0 {
        Seq::empty()
    } else {
        block_types(path, cs.drop_last()) + if cs.last().kind == "hub_definition"@ && cs.last().children.len() > 0 {
            seq![type_of(path, cs.last())]
        } else {
            Seq::empty()
        }
    }
}

/// The views of a sequence of hub types.
pub open spec fn types_view(v: Seq<HubType>) -> Seq<TypeView> {
    v.map_values(|x: HubType| x@)
}

fn decorator_at(item: &SyntaxNode) -> (r: (Option<String>, Option<String>))
    ensures
        (opt_view(r.0), opt_view(r.1)) == decorator_of(item@),
{
    proof {
        lemma_nodes_view(item.children@);
    }
    if item.children.len() > 2 && str_eq(item.children[1].kind.as_str(), "=") && str_eq(
        item.children[2].kind.as_str(),
        "decorator",
    ) {
        let d = &item.children[2];
        proof {
            lemma_nodes_view(d.children@);
        }
        let dec = if d.children.len() > 0 {
            Some(d.children[0].text.clone())
        } else {
            None
        };
        let expr = if d.children.len() > 2 {
            Some(d.children[2].text.clone())
        } else {
            None
        };
        (dec, expr)
    } else {
        (None, None)
    }
}

fn role_at(item: &SyntaxNode) -> (r: HubRoleDef)
    requires
        item.children.len() > 0,
    ensures
        r@ == role_of(item@),
{
    proof {
        lemma_nodes_view(item.children@);
    }
    let direction = if item.children.len() > 1 {
        item.children[1].text.clone()
    } else {
        String::new()
    };
    let multiplicity = if item.children.len() > 3 {
        item.children[3].text.clone()
    } else {
        String::new()
    };
    HubRoleDef { name: item.children[0].text.clone(), direction, multiplicity, allowed_types: idents_of(item, 1) }
}

fn type_at(path: &str, h: &SyntaxNode) -> (r: HubType)
    requires
        h.children.len() > 0,
    ensures
        r@ == type_of(path@, h@),
{
    proof {
        lemma_nodes_view(h.children@);
    }
    let ghost cs = h@.children;
    let mut fields: Vec<HubFieldDef> = Vec::new();
    let mut roles: Vec<HubRoleDef> = Vec::new();
    let mut i: usize = 0;
    assert(cs.take(0) =~= Seq::<NodeView>::empty());
    assert(fields@.map_values(|f: HubFieldDef| f@) =~= Seq::<FieldView>::empty());
    assert(roles@.map_values(|r: HubRoleDef| r@) =~= Seq::<RoleView>::empty());
    while i < h.children.len()
        invariant
            i <= h.children.len(),
            cs == h@.children,
            nodes_len(h),
            fields@.map_values(|f: HubFieldDef| f@) == hub_fields(cs.take(i as int)),
            roles@.map_values(|r: HubRoleDef| r@) == hub_roles(cs.take(i as int)),
        decreases h.children.len() - i,
    {
        let item = &h.children[i];
        assert(cs.take(i + 1).drop_last() =~= cs.take(i as int));
        assert(cs.take(i + 1).last() == item@);
        proof {
            lemma_nodes_view(item.children@);
        }
        let ghost f0 = fields@.map_values(|f: HubFieldDef| f@);
        if str_eq(item.kind.as_str(), "hub_field") && item.children.len() > 0 {
            let (decorator, expression) = decorator_at(item);
            let f = HubFieldDef {
                name: item.children[0].text.clone(),
                range: item.children[0].range,
                decorator,
                expression,
                is_display: false,
                is_background: false,
            };
            let ghost fv = f@;
            fields.push(f);
            assert(fields@.map_values(|f: HubFieldDef| f@) =~= f0.push(fv));
        }
        let ghost r0 = roles@.map_values(|r: HubRoleDef| r@);
        if str_eq(item.kind.as_str(), "hub_role") && item.children.len() > 0 {
            let r = role_at(item);
            let ghost rv = r@;
            roles.push(r);
            assert(roles@.map_values(|r: HubRoleDef| r@) =~= r0.push(rv));
        }
        assert(fields@.map_values(|f: HubFieldDef| f@) =~= hub_fields(cs.take(i + 1)));
        assert(roles@.map_values(|r: HubRoleDef| r@) =~= hub_roles(cs.take(i + 1)));
        i = i + 1;
    }
    assert(cs.take(i as int) =~= cs);
    let extends_parents: Vec<String> = Vec::new();
    let constraints: Vec<String> = Vec::new();
    assert(strings_view(extends_parents@) =~= Seq::<Seq<char>>::empty());
    assert(strings_view(constraints@) =~= Seq::<Seq<char>>::empty());
    HubType {
        name: h.children[0].text.clone(),
        file: owned(path),
        range: h.children[0].range,
        block_range: h.range,
        fields,
        roles,
        extends_parents,
        constraints,
    }
}

fn push_block_types(path: &str, b: &SyntaxNode, out: &mut Vec<HubType>)
    ensures
        types_view(final(out)@) == types_view(old(out)@) + block_types(path@, b@.children),
{
    proof {
        lemma_nodes_view(b.children@);
    }
    let ghost cs = b@.children;
    let ghost o0 = types_view(out@);
    let mut i: usize = 0;
    assert(cs.take(0) =~= Seq::<NodeView>::empty());
    assert(types_view(out@) =~= o0 + block_types(path@, cs.take(0)));
    while i < b.children.len()
        invariant
            i <= b.children.len(),
            cs == b@.children,
            nodes_len(b),
            types_view(out@) == o0 + block_types(path@, cs.take(i as int)),
        decreases b.children.len() - i,
    {
        let d = &b.children[i];
        assert(cs.take(i + 1).drop_last() =~= cs.take(i as int));
        assert(cs.take(i + 1).last() == d@);
        let ghost before = types_view(out@);
        if str_eq(d.kind.as_str(), "hub_definition") && d.children.len() > 0 {
            let t = type_at(path, d);
            let ghost tv = t@;
            out.push(t);
            assert(types_view(out@) =~= before.push(tv));
        }
        assert(types_view(out@) =~= o0 + block_types(path@, cs.take(i + 1)));
        i = i + 1;
    }
    assert(cs.take(i as int) =~= cs);
}

// ---------- definitions sections ----------

/// The fields of the fields blocks among `cs`.
pub open spec fn def_fields(path: Seq<char>, cs: Seq<NodeView>) -> Seq<GlobalFieldView>
    decreases cs.len(),
{
    if cs.len() == 0 {
        Seq::empty()
    } else {
        def_fields(path, cs.drop_last()) + if cs.last().kind == "fields_block"@ {
            block_fields(path, cs.last().children)
        } else {
            Seq::empty()
        }
    }
}

/// The enums of the enums blocks among `cs`.
pub open spec fn def_enums(path: Seq<char>, cs: Seq<NodeView>) -> Seq<EnumView>
    decreases cs.len(),
{
    if cs.len() == 0 {
        Seq::empty()
    } else {
        def_enums(path, cs.drop_last()) + if cs.last().kind == "enums_block"@ {
            block_enums(path, cs.last().children)
        } else {
            Seq::empty()
        }
    }
}

/// The structs of the structs blocks among `cs`.
pub open spec fn def_structs(path: Seq<char>, cs: Seq<NodeView>) -> Seq<StructView>
    decreases cs.len(),
{
    if cs.len() == 0 {
        Seq::empty()
    } else {
        def_structs(path, cs.drop_last()) + if cs.last().kind == "structs_block"@ {
            block_structs(path, cs.last().children)
        } else {
            Seq::empty()
        }
    }
}

/// The hub types of the hubs blocks among `cs`.
pub open spec fn def_types(path: Seq<char>, cs: Seq<NodeView>) -> Seq<TypeView>
    decreases cs.len(),
{
    if cs.len() == 0 {
        Seq::empty()
    } else {
        def_types(path, cs.drop_last()) + if cs.last().kind == "hubs_block"@ {
            block_types(path, cs.last().children)
        } else {
            Seq::empty()
        }
    }
}

/// The definitions read so far: fields, enums, structs and hub types.
pub open spec fn defs_so_far(
    path: Seq<char>,
    cs: Seq<NodeView>,
    g: Seq<GlobalFieldView>,
    e: Seq<EnumView>,
    s: Seq<StructView>,
    t: Seq<TypeView>,
    g0: Seq<GlobalFieldView>,
    e0: Seq<EnumView>,
    s0: Seq<StructView>,
    t0: Seq<TypeView>,
) -> bool {
    &&& g == g0 + def_fields(path, cs)
    &&& e == e0 + def_enums(path, cs)
    &&& s == s0 + def_structs(path, cs)
    &&& t == t0 + def_types(path, cs)
}

fn push_definitions(
    path: &str,
    d: &SyntaxNode,
    fields: &mut Vec<GlobalField>,
    enums: &mut Vec<HubEnum>,
    structs: &mut Vec<HubStruct>,
    types: &mut Vec<HubType>,
)
    ensures
        defs_so_far(
            path@,
            d@.children,
            globals_view(final(fields)@),
            enums_view(final(enums)@),
            structs_view(final(structs)@),
            types_view(final(types)@),
            globals_view(old(fields)@),
            enums_view(old(enums)@),
            structs_view(old(structs)@),
            types_view(old(types)@),
        ),
{
    proof {
        lemma_nodes_view(d.children@);
    }
    let ghost cs = d@.children;
    let ghost g0 = globals_view(fields@);
    let ghost e0 = enums_view(enums@);
    let ghost s0 = structs_view(structs@);
    let ghost t0 = types_view(types@);
    let mut i: usize = 0;
    assert(cs.take(0) =~= Seq::<NodeView>::empty());
    assert(defs_so_far(
        path@,
        cs.take(0),
        globals_view(fields@),
        enums_view(enums@),
        structs_view(structs@),
        types_view(types@),
        g0,
        e0,
        s0,
        t0,
    )) by {
        assert(g0 + def_fields(path@, cs.take(0)) =~= g0);
        assert(e0 + def_enums(path@, cs.take(0)) =~= e0);
        assert(s0 + def_structs(path@, cs.take(0)) =~= s0);
        assert(t0 + def_types(path@, cs.take(0)) =~= t0);
    }
    while i < d.children.len()
        invariant
            i <= d.children.len(),
            cs == d@.children,
            nodes_len(d),
            defs_so_far(
                path@,
                cs.take(i as int),
                globals_view(fields@),
                enums_view(enums@),
                structs_view(structs@),
                types_view(types@),
                g0,
                e0,
                s0,
                t0,
            ),
        decreases d.children.len() - i,
    {
        let b = &d.children[i];
        assert(cs.take(i + 1).drop_last() =~= cs.take(i as int));
        assert(cs.take(i + 1).last() == b@);
        let ghost gb = globals_view(fields@);
        let ghost eb = enums_view(enums@);
        let ghost sb = structs_view(structs@);
        let ghost tb = types_view(types@);
        let k = b.kind.as_str();
        if str_eq(k, "fields_block") {
            push_block_fields(path, b, fields);
        }
        if str_eq(k, "enums_block") {
            push_block_enums(path, b, enums);
        }
        if str_eq(k, "structs_block") {
            push_block_structs(path, b, structs);
        }
        if str_eq(k, "hubs_block") {
            push_block_types(path, b, types);
        }
        proof {
            let step = cs.take(i + 1);
            assert(globals_view(fields@) =~= g0 + def_fields(path@, step));
            assert(enums_view(enums@) =~= e0 + def_enums(path@, step));
            assert(structs_view(structs@) =~= s0 + def_structs(path@, step));
            assert(types_view(types@) =~= t0 + def_types(path@, step));
        }
        i = i + 1;
    }
    assert(cs.take(i as int) =~= cs);
}

// ---------- instances ----------

/// The assignment an assignment node makes: its first part names it,
/// its third part holds the value; none when that part holds no value.
pub open spec fn assignment_of(a: NodeView) -> Option<AssignmentView> {
    if a.kind == "instance_assignment"@ && a.children.len() > 2 {
        match value_of(a.children[2]) {
            Some(v) => Some(
                AssignmentView {
                    name: a.children[0].text,
                    range: a.children[0].range,
                    value: v,
                    value_range: a.children[2].range,
                },
            ),
            None => None,
        }
    } else {
        None
    }
}

/// The assignments among `cs`.
pub open spec fn block_assignments(cs: Seq<NodeView>) -> Seq<AssignmentView>
    decreases cs.len(),
{
    if cs.len() == 0 {
        Seq::empty()
    } else {
        block_assignments(cs.drop_last()) + match assignment_of(cs.last()) {
            Some(a) => seq![a],
            None => Seq::empty(),
        }
    }
}

/// The description an instance gives: the text of its first assignment to
/// `description`, when that is text.
pub open spec fn description_of(asgs: Seq<AssignmentView>) -> Option<Seq<char>> {
    match first_assignment(asgs, "description"@) {
        Some(a) => match a.value {
            ValueView::Text(s) => Some(s),
            _ => None,
        },
        None => None,
    }
}

/// The instance an instance block declares in the file `path`: named by
/// its `ref` field, typed by its `type` field (`Unknown` without one);
/// none without a `ref`.
pub open spec fn instance_of(path: Seq<char>, b: NodeView) -> Option<InstanceView> {
    match field_child(b, "ref"@) {
        Some(r) => {
            let asgs = block_assignments(b.children);
            Some(
                InstanceView {
                    name: r.text,
                    instance_type: match field_child(b, "type"@) {
                        Some(t) => t.text,
                        None => "Unknown"@,
                    },
                    file: path,
                    range: r.range,
                    block_range: b.range,
                    description: description_of(asgs),
                    assignments: asgs,
                },
            )
        },
        None => None,
    }
}

/// The instances of the instance blocks among `cs`.
pub open spec fn section_instances(path: Seq<char>, cs: Seq<NodeView>) -> Seq<InstanceView>
    decreases cs.len(),
{
    if cs.len() == 0 {
        Seq::empty()
    } else {
        section_instances(path, cs.drop_last()) + if cs.last().kind == "instance_block"@ {
            match instance_of(path, cs.last()) {
                Some(i) => seq![i],
                None => Seq::empty(),
            }
        } else {
            Seq::empty()
        }
    }
}

/// The views of a sequence of instances.
pub open spec fn instances_view(v: Seq<HubInstance>) -> Seq<InstanceView> {
    v.map_values(|x: HubInstance| x@)
}

fn assignments_at(b: &SyntaxNode) -> (r: Vec<HubAssignment>)
    ensures
        r@.map_values(|a: HubAssignment| a@) == block_assignments(b@.children),
{
    proof {
        lemma_nodes_view(b.children@);
    }
    let ghost cs = b@.children;
    let mut out: Vec<HubAssignment> = Vec::new();
    let mut i: usize = 0;
    assert(cs.take(0) =~= Seq::<NodeView>::empty());
    assert(out@.map_values(|a: HubAssignment| a@) =~= Seq::<AssignmentView>::empty());
    while i < b.children.len()
        invariant
            i <= b.children.len(),
            cs == b@.children,
            nodes_len(b),
            out@.map_values(|a: HubAssignment| a@) == block_assignments(cs.take(i as int)),
        decreases b.children.len() - i,
    {
        let a = &b.children[i];
        assert(cs.take(i + 1).drop_last() =~= cs.take(i as int));
        assert(cs.take(i + 1).last() == a@);
        proof {
            lemma_nodes_view(a.children@);
        }
        let ghost before = out@.map_values(|a: HubAssignment| a@);
        if str_eq(a.kind.as_str(), "instance_assignment") && a.children.len() > 2 {
            match node_to_hub_value(&a.children[2]) {
                Some(v) => {
                    let asg = HubAssignment {
                        name: a.children[0].text.clone(),
                        range: a.children[0].range,
                        value: v,
                        value_range: a.children[2].range,
                    };
                    let ghost av = asg@;
                    out.push(asg);
                    assert(out@.map_values(|a: HubAssignment| a@) =~= before.push(av));
                },
                None => {},
            }
        }
        assert(out@.map_values(|a: HubAssignment| a@) =~= block_assignments(cs.take(i + 1)));
        i = i + 1;
    }
    assert(cs.take(i as int) =~= cs);
    out
}

fn description_at(asgs: &Vec<HubAssignment>) -> (r: Option<String>)
    ensures
        opt_view(r) == description_of(asgs@.map_values(|a: HubAssignment| a@)),
{
    let ghost av = asgs@.map_values(|a: HubAssignment| a@);
    let mut i: usize = 0;
    assert(av.skip(0) =~= av);
    while i < asgs.len()
        invariant
            i <= asgs.len(),
            av == asgs@.map_values(|a: HubAssignment| a@),
            first_assignment(av, "description"@) == first_assignment(av.skip(i as int), "description"@),
        decreases asgs.len() - i,
    {
        assert(av.skip(i as int).drop_first() =~= av.skip(i + 1));
        assert(av.skip(i as int)[0] == asgs@[i as int]@);
        if str_eq(asgs[i].name.as_str(), "description") {
            return match &asgs[i].value {
                HubValue::Text(s) => Some(s.clone()),
                _ => None,
            };
        }
        i = i + 1;
    }
    None
}

fn push_section_instances(path: &str, sec: &SyntaxNode, out: &mut Vec<HubInstance>)
    ensures
        instances_view(final(out)@) == instances_view(old(out)@) + section_instances(path@, sec@.children),
{
    proof {
        lemma_nodes_view(sec.children@);
    }
    let ghost cs = sec@.children;
    let ghost o0 = instances_view(out@);
    let mut i: usize = 0;
    assert(cs.take(0) =~= Seq::<NodeView>::empty());
    assert(instances_view(out@) =~= o0 + section_instances(path@, cs.take(0)));
    while i < sec.children.len()
        invariant
            i <= sec.children.len(),
            cs == sec@.children,
            nodes_len(sec),
            instances_view(out@) == o0 + section_instances(path@, cs.take(i as int)),
        decreases sec.children.len() - i,
    {
        let b = &sec.children[i];
        assert(cs.take(i + 1).drop_last() =~= cs.take(i as int));
        assert(cs.take(i + 1).last() == b@);
        proof {
            lemma_nodes_view(b.children@);
        }
        let ghost before = instances_view(out@);
        if str_eq(b.kind.as_str(), "instance_block") {
            match b.child_by_field_name("ref") {
                Some(ri) => {
                    let r = &b.children[ri];
                    let instance_type = match b.child_by_field_name("type") {
                        Some(ti) => b.children[ti].text.clone(),
                        None => owned("Unknown"),
                    };
                    let assignments = assignments_at(b);
                    let description = description_at(&assignments);
                    let inst = HubInstance {
                        name: r.text.clone(),
                        instance_type,
                        file: owned(path),
                        range: r.range,
                        block_range: b.range,
                        description,
                        assignments,
                    };
                    let ghost iv = inst@;
                    out.push(inst);
                    assert(instances_view(out@) =~= before.push(iv));
                },
                None => {},
            }
        }
        assert(instances_view(out@) =~= o0 + section_instances(path@, cs.take(i + 1)));
        i = i + 1;
    }
    assert(cs.take(i as int) =~= cs);
}

// ---------- the whole tree ----------

/// The fields of the definitions sections among `cs`.
pub open spec fn root_fields(path: Seq<char>, cs: Seq<NodeView>) -> Seq<GlobalFieldView>
    decreases cs.len(),
{
    if cs.len() == 0 {
        Seq::empty()
    } else {
        root_fields(path, cs.drop_last()) + if cs.last().kind == "definitions_section"@ {
            def_fields(path, cs.last().children)
        } else {
            Seq::empty()
        }
    }
}

/// The enums of the definitions sections among `cs`.
pub open spec fn root_enums(path: Seq<char>, cs: Seq<NodeView>) -> Seq<EnumView>
    decreases cs.len(),
{
    if cs.len() == 0 {
        Seq::empty()
    } else {
        root_enums(path, cs.drop_last()) + if cs.last().kind == "definitions_section"@ {
            def_enums(path, cs.last().children)
        } else {
            Seq::empty()
        }
    }
}

/// The structs of the definitions sections among `cs`.
pub open spec fn root_structs(path: Seq<char>, cs: Seq<NodeView>) -> Seq<StructView>
    decreases cs.len(),
{
    if cs.len() == 0 {
        Seq::empty()
    } else {
        root_structs(path, cs.drop_last()) + if cs.last().kind == "definitions_section"@ {
            def_structs(path, cs.last().children)
        } else {
            Seq::empty()
        }
    }
}

/// The hub types of the definitions sections among `cs`.
pub open spec fn root_types(path: Seq<char>, cs: Seq<NodeView>) -> Seq<TypeView>
    decreases cs.len(),
{
    if cs.len() == 0 {
        Seq::empty()
    } else {
        root_types(path, cs.drop_last()) + if cs.last().kind == "definitions_section"@ {
            def_types(path, cs.last().children)
        } else {
            Seq::empty()
        }
    }
}

/// The instances of the instances sections among `cs`.
pub open spec fn root_instances(path: Seq<char>, cs: Seq<NodeView>) -> Seq<InstanceView>
    decreases cs.len(),
{
    if cs.len() == 0 {
        Seq::empty()
    } else {
        root_instances(path, cs.drop_last()) + if cs.last().kind == "instances_section"@ {
            section_instances(path, cs.last().children)
        } else {
            Seq::empty()
        }
    }
}

/// What the HubGS tree `root` of the file `path` defines, section by
/// section in the order of the top-level children.
pub open spec fn hubgs_of(path: Seq<char>, root: NodeView) -> ParseView {
    ParseView {
        instances: root_instances(path, root.children),
        types: root_types(path, root.children),
        enums: root_enums(path, root.children),
        structs: root_structs(path, root.children),
        global_fields: root_fields(path, root.children),
        imports: root_imports(root.children),
    }
}

/// What the HubGS tree `root` of the file `path` defines (see `hubgs_of`).
#[verifier::rlimit(40)]
pub fn parse_hubgs_ast(path: &str, root: &SyntaxNode) -> (r: HubgsParseResult)
    ensures
        r@ == hubgs_of(path@, root@),
{
    proof {
        lemma_nodes_view(root.children@);
    }
    let ghost cs = root@.children;
    let mut instances: Vec<HubInstance> = Vec::new();
    let mut types: Vec<HubType> = Vec::new();
    let mut enums: Vec<HubEnum> = Vec::new();
    let mut structs: Vec<HubStruct> = Vec::new();
    let mut global_fields: Vec<GlobalField> = Vec::new();
    let mut imports: Vec<HubImport> = Vec::new();
    let mut i: usize = 0;
    assert(cs.take(0) =~= Seq::<NodeView>::empty());
    assert(instances_view(instances@) =~= Seq::<InstanceView>::empty());
    assert(types_view(types@) =~= Seq::<TypeView>::empty());
    assert(enums_view(enums@) =~= Seq::<EnumView>::empty());
    assert(structs_view(structs@) =~= Seq::<StructView>::empty());
    assert(globals_view(global_fields@) =~= Seq::<GlobalFieldView>::empty());
    assert(imports_view(imports@) =~= Seq::<ImportView>::empty());
    while i < root.children.len()
        invariant
            i <= root.children.len(),
            cs == root@.children,
            nodes_len(root),
            instances_view(instances@) == root_instances(path@, cs.take(i as int)),
            types_view(types@) == root_types(path@, cs.take(i as int)),
            enums_view(enums@) == root_enums(path@, cs.take(i as int)),
            structs_view(structs@) == root_structs(path@, cs.take(i as int)),
            globals_view(global_fields@) == root_fields(path@, cs.take(i as int)),
            imports_view(imports@) == root_imports(cs.take(i as int)),
        decreases root.children.len() - i,
    {
        let n = &root.children[i];
        let ghost step = cs.take(i + 1);
        assert(step.drop_last() =~= cs.take(i as int));
        assert(step.last() == n@);
        let k = n.kind.as_str();
        if str_eq(k, "imports_section") {
            push_section_imports(n, &mut imports);
        }
        if str_eq(k, "definitions_section") {
            push_definitions(path, n, &mut global_fields, &mut enums, &mut structs, &mut types);
        }
        if str_eq(k, "instances_section") {
            push_section_instances(path, n, &mut instances);
        }
        proof {
            assert(instances_view(instances@) =~= root_instances(path@, step));
            assert(types_view(types@) =~= root_types(path@, step));
            assert(enums_view(enums@) =~= root_enums(path@, step));
            assert(structs_view(structs@) =~= root_structs(path@, step));
            assert(globals_view(global_fields@) =~= root_fields(path@, step));
            assert(imports_view(imports@) =~= root_imports(step));
        }
        i = i + 1;
    }
    assert(cs.take(i as int) =~= cs);
    HubgsParseResult { instances, types, enums, structs, global_fields, imports }
}

} // verus!
