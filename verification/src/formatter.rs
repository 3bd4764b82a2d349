//! Formatting entry points: a document by its file type, and HubGS
//! expressions in normalized spacing.
use vstd::prelude::*;

use crate::hubgs_format::{format_hubgs, spec_format_hubgs};
use crate::syntax::{first_in_field, lemma_nodes_view, node_view, nodes_view, NodeView, SyntaxNode};
use crate::text::{owned, spec_join, str_eq, views};
use crate::twxml_format::{format_twxml, node_depth, spec_format_twxml};

verus! {

/// The formatted text of a document of type `file_type` with syntax tree
/// `tree`: TWXML and HubGS are laid out, other text is kept.
pub open spec fn spec_format_source(contents: Seq<char>, file_type: Seq<char>, tree: Option<NodeView>) -> Seq<
    char,
> {
    if file_type == "twxml"@ {
        spec_format_twxml(contents, tree)
    } else if file_type == "hubgs"@ {
        spec_format_hubgs(tree->0)
    } else {
        contents
    }
}

/// Formats `contents`, of type `file_type`, whose syntax tree in that
/// type's grammar is `tree` (`None` when it could not be parsed).
pub fn format_source(contents: &str, file_type: &str, tree: Option<&SyntaxNode>) -> (r: String)
    requires
        file_type@ == "hubgs"@ ==> tree is Some,
        tree matches Some(t) ==> node_depth(t@) < usize::MAX,
    ensures
        r@ == spec_format_source(
            contents@,
            file_type@,
            match tree {
                Some(t) => Some(t@),
                None => None,
            },
        ),
{
    if str_eq(file_type, "twxml") {
        format_twxml(contents, tree)
    } else if str_eq(file_type, "hubgs") {
        match tree {
            Some(t) => format_hubgs(t),
            None => owned(contents),
        }
    } else {
        owned(contents)
    }
}

// ---------- expressions ----------

/// The kinds of expression nodes that are formatted recursively.
pub open spec fn spec_is_expression_kind(kind: Seq<char>) -> bool {
    ||| kind == "binary_expression"@ || kind == "unary_expression"@ || kind == "member_expression"@
    ||| kind == "call_expression"@ || kind == "arrow_function"@ || kind == "identifier"@ || kind == "number"@
    ||| kind == "string"@ || kind == "template_string"@ || kind == "array"@ || kind == "boolean"@
    ||| kind == "parenthesized_expression"@
}

/// Whether `kind` is an expression node that is formatted recursively.
pub fn is_expression_kind(kind: &str) -> (b: bool)
    ensures
        b == spec_is_expression_kind(kind@),
{
    str_eq(kind, "binary_expression") || str_eq(kind, "unary_expression") || str_eq(kind, "member_expression")
        || str_eq(kind, "call_expression") || str_eq(kind, "arrow_function") || str_eq(kind, "identifier")
        || str_eq(kind, "number") || str_eq(kind, "string") || str_eq(kind, "template_string") || str_eq(
        kind,
        "array",
    ) || str_eq(kind, "boolean") || str_eq(kind, "parenthesized_expression")
}

/// The index of the first of `cs` held under the field `name`, or
/// `cs.len()` when there is none.
pub open spec fn field_pos(cs: Seq<NodeView>, name: Seq<char>) -> nat
    decreases cs.len(),
{
    if cs.len() == 0 {
        0
    } else if cs[0].field == Some(name) {
        0
    } else {
        1 + field_pos(cs.drop_first(), name)
    }
}

/// `field_pos` finds what `first_in_field` finds.
pub proof fn lemma_field_pos(cs: Seq<NodeView>, name: Seq<char>)
    ensures
        field_pos(cs, name) <= cs.len(),
        field_pos(cs, name) < cs.len() ==> first_in_field(cs, name) == Some(cs[field_pos(cs, name) as int]),
        field_pos(cs, name) == cs.len() ==> first_in_field(cs, name) is None,
    decreases cs.len(),
{
    if cs.len() > 0 && cs[0].field != Some(name) {
        lemma_field_pos(cs.drop_first(), name);
        if field_pos(cs, name) < cs.len() {
            assert(cs[field_pos(cs, name) as int] == cs.drop_first()[field_pos(cs.drop_first(), name) as int]);
        }
    }
}

/// The text of the child of `n` in field `name`; empty when there is none.
pub open spec fn field_text(n: NodeView, name: Seq<char>) -> Seq<char> {
    let p = field_pos(n.children, name);
    if p < n.children.len() {
        n.children[p as int].text
    } else {
        Seq::empty()
    }
}

/// The formatted child of `n` in field `name`; empty when there is none.
pub open spec fn field_expr(n: NodeView, name: Seq<char>) -> Seq<char>
    decreases n, 0nat,
{
    let p = field_pos(n.children, name);
    if p < n.children.len() {
        fmt_expr(n.children[p as int])
    } else {
        Seq::empty()
    }
}

/// The formatted expression children of `cs`, leaving out index `skip`.
pub open spec fn expr_children(cs: Seq<NodeView>, skip: int) -> Seq<Seq<char>>
    decreases cs, 0nat,
{
    if cs.len() == 0 {
        Seq::empty()
    } else {
        expr_children(cs.drop_last(), skip) + if spec_is_expression_kind(cs.last().kind) && cs.len() - 1
            != skip {
            seq![fmt_expr(cs.last())]
        } else {
            Seq::empty()
        }
    }
}

/// The pieces of a template string: expressions formatted, the rest kept.
pub open spec fn template_parts(cs: Seq<NodeView>) -> Seq<char>
    decreases cs, 0nat,
{
    if cs.len() == 0 {
        Seq::empty()
    } else {
        template_parts(cs.drop_last()) + if spec_is_expression_kind(cs.last().kind) {
            fmt_expr(cs.last())
        } else {
            cs.last().text
        }
    }
}

/// An expression in normalized spacing: binary operators between single
/// spaces, arguments and array elements separated by `, `, members and
/// calls without spaces; leaves as written.
pub open spec fn fmt_expr(n: NodeView) -> Seq<char>
    decreases n, 1nat,
{
    let k = n.kind;
    if k == "identifier"@ || k == "number"@ || k == "boolean"@ || k == "string"@ {
        n.text
    } else if k == "template_string"@ {
        template_parts(n.children)
    } else if k == "array"@ {
        "["@ + spec_join(expr_children(n.children, -1), ", "@) + "]"@
    } else if k == "parenthesized_expression"@ {
        if n.children.len() > 1 {
            "("@ + fmt_expr(n.children[1]) + ")"@
        } else {
            n.text
        }
    } else if k == "unary_expression"@ {
        field_text(n, "operator"@) + field_expr(n, "argument"@)
    } else if k == "binary_expression"@ {
        field_expr(n, "left"@) + " "@ + field_text(n, "operator"@) + " "@ + field_expr(n, "right"@)
    } else if k == "member_expression"@ {
        field_expr(n, "object"@) + "."@ + field_text(n, "property"@)
    } else if k == "call_expression"@ {
        let f = field_pos(n.children, "function"@);
        field_expr(n, "function"@) + "("@ + spec_join(
            expr_children(n.children, if f < n.children.len() { f as int } else { -1 }),
            ", "@,
        ) + ")"@
    } else if k == "arrow_function"@ {
        field_text(n, "parameter"@) + " => "@ + field_expr(n, "body"@)
    } else {
        n.text
    }
}

fn field_position(node: &SyntaxNode, name: &str) -> (r: usize)
    ensures
        r == field_pos(node@.children, name@),
        r <= node.children.len(),
{
    proof {
        lemma_nodes_view(node.children@);
        lemma_field_pos(node@.children, name@);
    }
    let ghost cs = node@.children;
    let mut i: usize = 0;
    assert(cs.skip(0) =~= cs);
    while i < node.children.len()
        invariant
            i <= node.children.len(),
            cs == node@.children,
            cs.len() == node.children@.len(),
            forall|j: int| 0 <= j < node.children@.len() ==> #[trigger] cs[j] == node_view(node.children@[j]),
            field_pos(cs, name@) == i + field_pos(cs.skip(i as int), name@),
        decreases node.children.len() - i,
    {
        assert(cs.skip(i as int).drop_first() =~= cs.skip(i + 1));
        assert(cs.skip(i as int)[0] == cs[i as int]);
        let hit = match &node.children[i].field {
            Some(f) => str_eq(f.as_str(), name),
            None => false,
        };
        if hit {
            return i;
        }
        i = i + 1;
    }
    i
}

fn field_text_of(node: &SyntaxNode, name: &str) -> (r: String)
    ensures
        r@ == field_text(node@, name@),
{
    proof {
        lemma_nodes_view(node.children@);
    }
    let p = field_position(node, name);
    if p < node.children.len() {
        node.children[p].text.clone()
    } else {
        String::new()
    }
}

fn field_expression(node: &SyntaxNode, name: &str) -> (r: String)
    ensures
        r@ == field_expr(node@, name@),
    decreases node, 0nat,
{
    proof {
        lemma_nodes_view(node.children@);
    }
    let p = field_position(node, name);
    if p < node.children.len() {
        assert(decreases_to!(node => node.children));
        assert(decreases_to!(node.children => node.children@[p as int]));
        format_expression_children_at(&node.children, p)
    } else {
        String::new()
    }
}

fn format_expression_children_at(children: &Vec<SyntaxNode>, i: usize) -> (r: String)
    requires
        i < children.len(),
    ensures
        r@ == fmt_expr(node_view(children@[i as int])),
    decreases children, 0nat,
{
    assert(decreases_to!(children => children@[i as int]));
    format_expression(&children[i])
}

fn expression_children(children: &Vec<SyntaxNode>, skip: usize, has_skip: bool) -> (r: Vec<String>)
    ensures
        views(r@) == expr_children(nodes_view(children@), if has_skip { skip as int } else { -1 }),
    decreases children, 0nat,
{
    proof {
        lemma_nodes_view(children@);
    }
    let ghost cs = nodes_view(children@);
    let ghost sk: int = if has_skip { skip as int } else { -1 };
    let mut r: Vec<String> = Vec::new();
    let mut i: usize = 0;
    assert(cs.take(0) =~= Seq::<NodeView>::empty());
    assert(views(r@) =~= Seq::<Seq<char>>::empty());
    while i < children.len()
        invariant
            i <= children.len(),
            cs == nodes_view(children@),
            cs.len() == children@.len(),
            forall|j: int| 0 <= j < children@.len() ==> #[trigger] cs[j] == node_view(children@[j]),
            sk == if has_skip { skip as int } else { -1 },
            views(r@) == expr_children(cs.take(i as int), sk),
        decreases children.len() - i,
    {
        assert(cs.take(i + 1).drop_last() =~= cs.take(i as int));
        assert(cs.take(i + 1).last() == children@[i as int]@);
        let ghost r0 = views(r@);
        if is_expression_kind(children[i].kind.as_str()) && !(has_skip && i == skip) {
            assert(decreases_to!(children => children@[i as int]));
            let e = format_expression(&children[i]);
            let ghost ev = e@;
            r.push(e);
            assert(views(r@) =~= r0 + seq![ev]);
        } else {
            assert(views(r@) =~= r0 + Seq::<Seq<char>>::empty());
        }
        i = i + 1;
    }
    assert(cs.take(children.len() as int) =~= cs);
    r
}

fn template_pieces(children: &Vec<SyntaxNode>) -> (r: String)
    ensures
        r@ == template_parts(nodes_view(children@)),
    decreases children, 0nat,
{
    proof {
        lemma_nodes_view(children@);
    }
    let ghost cs = nodes_view(children@);
    let mut r = String::new();
    let mut i: usize = 0;
    assert(cs.take(0) =~= Seq::<NodeView>::empty());
    while i < children.len()
        invariant
            i <= children.len(),
            cs == nodes_view(children@),
            cs.len() == children@.len(),
            forall|j: int| 0 <= j < children@.len() ==> #[trigger] cs[j] == node_view(children@[j]),
            r@ == template_parts(cs.take(i as int)),
        decreases children.len() - i,
    {
        assert(cs.take(i + 1).drop_last() =~= cs.take(i as int));
        assert(cs.take(i + 1).last() == children@[i as int]@);
        if is_expression_kind(children[i].kind.as_str()) {
            assert(decreases_to!(children => children@[i as int]));
            let e = format_expression(&children[i]);
            r.append(e.as_str());
        } else {
            r.append(children[i].text.as_str());
        }
        i = i + 1;
    }
    assert(cs.take(children.len() as int) =~= cs);
    r
}

/// Formats an expression node in normalized spacing.
pub fn format_expression(node: &SyntaxNode) -> (r: String)
    ensures
        r@ == fmt_expr(node@),
    decreases node, 1nat,
{
    proof {
        lemma_nodes_view(node.children@);
    }
    let k = node.kind.as_str();
    if str_eq(k, "identifier") || str_eq(k, "number") || str_eq(k, "boolean") || str_eq(k, "string") {
        node.text.clone()
    } else if str_eq(k, "template_string") {
        template_pieces(&node.children)
    } else if str_eq(k, "array") {
        let exprs = expression_children(&node.children, 0, false);
        let mut r = owned("[");
        let j = crate::text::join(&exprs, ", ");
        r.append(j.as_str());
        r.append("]");
        r
    } else if str_eq(k, "parenthesized_expression") {
        if node.children.len() > 1 {
            let inner = format_expression_children_at(&node.children, 1);
            let mut r = owned("(");
            r.append(inner.as_str());
            r.append(")");
            r
        } else {
            node.text.clone()
        }
    } else if str_eq(k, "unary_expression") {
        let mut r = field_text_of(node, "operator");
        let a = field_expression(node, "argument");
        r.append(a.as_str());
        r
    } else if str_eq(k, "binary_expression") {
        let mut r = field_expression(node, "left");
        r.append(" ");
        let op = field_text_of(node, "operator");
        r.append(op.as_str());
        r.append(" ");
        let right = field_expression(node, "right");
        r.append(right.as_str());
        r
    } else if str_eq(k, "member_expression") {
        let mut r = field_expression(node, "object");
        r.append(".");
        let p = field_text_of(node, "property");
        r.append(p.as_str());
        r
    } else if str_eq(k, "call_expression") {
        let f = field_position(node, "function");
        let mut r = field_expression(node, "function");
        r.append("(");
        let args = expression_children(&node.children, f, f < node.children.len());
        let j = crate::text::join(&args, ", ");
        r.append(j.as_str());
        r.append(")");
        r
    } else if str_eq(k, "arrow_function") {
        let mut r = field_text_of(node, "parameter");
        r.append(" => ");
        let b = field_expression(node, "body");
        r.append(b.as_str());
        r
    } else {
        node.text.clone()
    }
}

} // verus!
