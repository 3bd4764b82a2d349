//! The HubGS formatter: rewrites the imports, definitions and instances
//! sections of a syntax tree in a fixed layout.
use vstd::prelude::*;

use crate::layout::{byte_len, push_spaces, spaces, spec_trim, trim_ws};
use crate::position::utf8_count;
use crate::syntax::{field_child, lemma_nodes_view, node_view, nodes_view, NodeView, SyntaxNode};
use crate::text::{join, owned, spec_join, str_eq, views};

verus! {

/// The texts of the children of `n` of kind `kind`, from index `from` on.
pub open spec fn texts_of_kind(cs: Seq<NodeView>, kind: Seq<char>, from: int) -> Seq<Seq<char>>
    decreases cs.len(),
{
    if cs.len() == 0 || cs.len() <= from {
        Seq::empty()
    } else {
        texts_of_kind(cs.drop_last(), kind, from) + if cs.last().kind == kind {
            seq![cs.last().text]
        } else {
            Seq::empty()
        }
    }
}

/// The text of the last child of `cs` of kind `kind`; empty when none.
pub open spec fn last_text_of_kind(cs: Seq<NodeView>, kind: Seq<char>) -> Seq<char>
    decreases cs.len(),
{
    if cs.len() == 0 {
        Seq::empty()
    } else if cs.last().kind == kind {
        cs.last().text
    } else {
        last_text_of_kind(cs.drop_last(), kind)
    }
}

fn texts_of(children: &Vec<SyntaxNode>, kind: &str, from: usize) -> (r: Vec<String>)
    ensures
        views(r@) == texts_of_kind(nodes_view(children@), kind@, from as int),
{
    proof {
        lemma_nodes_view(children@);
    }
    let ghost cs = nodes_view(children@);
    let mut r: Vec<String> = Vec::new();
    let mut i: usize = 0;
    assert(cs.take(0) =~= Seq::<NodeView>::empty());
    assert(views(r@) =~= Seq::<Seq<char>>::empty());
    while i < children.len()
        invariant
            i <= children.len(),
            cs == nodes_view(children@),
            cs.len() == children@.len(),
            forall|j: int| 0 <= j < children@.len() ==> #[trigger] cs[j] == node_view(children@[j]),
            views(r@) == texts_of_kind(cs.take(i as int), kind@, from as int),
        decreases children.len() - i,
    {
        assert(cs.take(i + 1).drop_last() =~= cs.take(i as int));
        assert(cs.take(i + 1).last() == children@[i as int]@);
        let ghost r0 = r@;
        if i >= from && str_eq(children[i].kind.as_str(), kind) {
            r.push(children[i].text.clone());
            assert(views(r@) =~= views(r0) + seq![children@[i as int].text@]);
        } else {
            assert(views(r@) =~= views(r0) + Seq::<Seq<char>>::empty());
        }
        i = i + 1;
    }
    assert(cs.take(children.len() as int) =~= cs);
    r
}

fn last_text_of(children: &Vec<SyntaxNode>, kind: &str) -> (r: String)
    ensures
        r@ == last_text_of_kind(nodes_view(children@), kind@),
{
    proof {
        lemma_nodes_view(children@);
    }
    let ghost cs = nodes_view(children@);
    let mut r = String::new();
    let mut i: usize = 0;
    assert(cs.take(0) =~= Seq::<NodeView>::empty());
    while i < children.len()
        invariant
            i <= children.len(),
            cs == nodes_view(children@),
            cs.len() == children@.len(),
            forall|j: int| 0 <= j < children@.len() ==> #[trigger] cs[j] == node_view(children@[j]),
            r@ == last_text_of_kind(cs.take(i as int), kind@),
        decreases children.len() - i,
    {
        assert(cs.take(i + 1).drop_last() =~= cs.take(i as int));
        assert(cs.take(i + 1).last() == children@[i as int]@);
        if str_eq(children[i].kind.as_str(), kind) {
            r = children[i].text.clone();
        }
        i = i + 1;
    }
    assert(cs.take(children.len() as int) =~= cs);
    r
}

// ---------- imports ----------

/// One import statement on a line: its types and the file they come from.
pub open spec fn import_line(stmt: NodeView) -> Seq<char> {
    "    [ "@ + spec_join(texts_of_kind(stmt.children, "identifier"@, 0), ", "@) + " ] FROM "@
        + last_text_of_kind(stmt.children, "string"@)
}

/// The import lines of the statements among `cs`.
pub open spec fn import_lines(cs: Seq<NodeView>) -> Seq<Seq<char>>
    decreases cs.len(),
{
    if cs.len() == 0 {
        Seq::empty()
    } else {
        import_lines(cs.drop_last()) + if cs.last().kind == "import_statement"@ {
            seq![import_line(cs.last())]
        } else {
            Seq::empty()
        }
    }
}

/// The imports section laid out.
pub open spec fn fmt_imports(n: NodeView) -> Seq<char> {
    "IMPORTS [\n"@ + spec_join(import_lines(n.children), ",\n"@) + "\n]"@
}

fn format_imports_section(node: &SyntaxNode) -> (r: String)
    ensures
        r@ == fmt_imports(node@),
{
    proof {
        lemma_nodes_view(node.children@);
    }
    let ghost cs = node@.children;
    let mut lines: Vec<String> = Vec::new();
    let mut i: usize = 0;
    assert(cs.take(0) =~= Seq::<NodeView>::empty());
    assert(views(lines@) =~= Seq::<Seq<char>>::empty());
    while i < node.children.len()
        invariant
            i <= node.children.len(),
            cs == node@.children,
            cs.len() == node.children@.len(),
            forall|j: int| 0 <= j < node.children@.len() ==> #[trigger] cs[j] == node_view(node.children@[j]),
            views(lines@) == import_lines(cs.take(i as int)),
        decreases node.children.len() - i,
    {
        assert(cs.take(i + 1).drop_last() =~= cs.take(i as int));
        assert(cs.take(i + 1).last() == node.children@[i as int]@);
        let stmt = &node.children[i];
        let ghost l0 = views(lines@);
        if str_eq(stmt.kind.as_str(), "import_statement") {
            let types = texts_of(&stmt.children, "identifier", 0);
            let from = last_text_of(&stmt.children, "string");
            let mut line = owned("    [ ");
            let joined = join(&types, ", ");
            line.append(joined.as_str());
            line.append(" ] FROM ");
            line.append(from.as_str());
            let ghost lv = line@;
            lines.push(line);
            assert(views(lines@) =~= l0 + seq![lv]);
        } else {
            assert(views(lines@) =~= l0 + Seq::<Seq<char>>::empty());
        }
        i = i + 1;
    }
    assert(cs.take(node.children.len() as int) =~= cs);
    let mut r = owned("IMPORTS [\n");
    let body = join(&lines, ",\n");
    r.append(body.as_str());
    r.append("\n]");
    r
}

// ---------- definitions ----------

/// A field definition on a line: its name and type (its first and third
/// children).
pub open spec fn field_lines(cs: Seq<NodeView>) -> Seq<Seq<char>>
    decreases cs.len(),
{
    if cs.len() == 0 {
        Seq::empty()
    } else {
        let f = cs.last();
        field_lines(cs.drop_last()) + if f.kind == "field_definition"@ && f.children.len() > 2 {
            seq!["        "@ + f.children[0].text + ": "@ + f.children[2].text]
        } else {
            Seq::empty()
        }
    }
}

/// An enum on a line: its name and its variants.
pub open spec fn enum_lines(cs: Seq<NodeView>) -> Seq<Seq<char>>
    decreases cs.len(),
{
    if cs.len() == 0 {
        Seq::empty()
    } else {
        let e = cs.last();
        enum_lines(cs.drop_last()) + if e.kind == "enum_definition"@ && e.children.len() > 0 {
            seq![
                "        "@ + e.children[0].text + " { "@ + spec_join(texts_of_kind(e.children, "identifier"@, 1), ", "@)
                    + " }"@,
            ]
        } else {
            Seq::empty()
        }
    }
}

/// A struct over several lines: its name, then its fields one per line.
pub open spec fn struct_lines(cs: Seq<NodeView>) -> Seq<Seq<char>>
    decreases cs.len(),
{
    if cs.len() == 0 {
        Seq::empty()
    } else {
        let s = cs.last();
        struct_lines(cs.drop_last()) + if s.kind == "struct_definition"@ && s.children.len() > 0 {
            seq![
                "        "@ + s.children[0].text + " {\n            "@ + spec_join(
                    texts_of_kind(s.children, "identifier"@, 1),
                    ",\n            "@,
                ) + "\n        }"@,
            ]
        } else {
            Seq::empty()
        }
    }
}

/// The texts of the children of kind `kind` after the first child are the
/// texts of those children, in order.
proof fn lemma_texts_after_first(cs: Seq<NodeView>, kind: Seq<char>)
    requires
        cs.len() > 0,
    ensures
        texts_of_kind(cs, kind, 1) == cs.skip(1).filter(|c: NodeView| c.kind == kind).map_values(|c: NodeView| c.text),
    decreases cs.len(),
{
    reveal(Seq::filter);
    let p = |c: NodeView| c.kind == kind;
    let f = |c: NodeView| c.text;
    if cs.len() == 1 {
        assert(cs.skip(1) =~= Seq::<NodeView>::empty());
        assert(cs.skip(1).filter(p) =~= Seq::<NodeView>::empty());
    } else {
        lemma_texts_after_first(cs.drop_last(), kind);
        let rest = cs.skip(1);
        assert(rest.drop_last() =~= cs.drop_last().skip(1));
        assert(rest.last() == cs.last());
        let sub = rest.drop_last().filter(p);
        if p(cs.last()) {
            assert(rest.filter(p) == sub.push(cs.last()));
            assert(sub.push(cs.last()).map_values(f) =~= sub.map_values(f) + seq![cs.last().text]);
        } else {
            assert(rest.filter(p) == sub);
            assert(sub.map_values(f) =~= sub.map_values(f) + Seq::<Seq<char>>::empty());
        }
    }
}

/// A formatted struct lists its name and then, one per line, exactly the
/// identifiers that follow the name among the struct's children, in order:
/// never the name itself again.
pub proof fn law_struct_fields(s: NodeView)
    requires
        s.kind == "struct_definition"@,
        s.children.len() > 0,
    ensures
        struct_lines(seq![s]) == seq![
            "        "@ + s.children[0].text + " {\n            "@ + spec_join(
                s.children.skip(1).filter(|c: NodeView| c.kind == "identifier"@).map_values(|c: NodeView| c.text),
                ",\n            "@,
            ) + "\n        }"@,
        ],
{
    lemma_texts_after_first(s.children, "identifier"@);
    assert(seq![s].drop_last() =~= Seq::<NodeView>::empty());
    assert(struct_lines(seq![s].drop_last()) =~= Seq::<Seq<char>>::empty());
}

/// A formatted enum lists its name and then exactly the identifiers that
/// follow the name among the enum's children, in order: never the name
/// itself again.
pub proof fn law_enum_variants(e: NodeView)
    requires
        e.kind == "enum_definition"@,
        e.children.len() > 0,
    ensures
        enum_lines(seq![e]) == seq![
            "        "@ + e.children[0].text + " { "@ + spec_join(
                e.children.skip(1).filter(|c: NodeView| c.kind == "identifier"@).map_values(|c: NodeView| c.text),
                ", "@,
            ) + " }"@,
        ],
{
    lemma_texts_after_first(e.children, "identifier"@);
    assert(seq![e].drop_last() =~= Seq::<NodeView>::empty());
    assert(enum_lines(seq![e].drop_last()) =~= Seq::<Seq<char>>::empty());
}

/// The fields and roles of a hub, each on a line.
pub open spec fn hub_items(cs: Seq<NodeView>) -> Seq<Seq<char>>
    decreases cs.len(),
{
    if cs.len() == 0 {
        Seq::empty()
    } else {
        let c = cs.last();
        hub_items(cs.drop_last()) + if c.kind == "hub_field"@ || c.kind == "hub_role"@ {
            seq!["            "@ + c.text]
        } else {
            Seq::empty()
        }
    }
}

/// A hub over several lines: its name, then its fields and roles.
pub open spec fn hub_lines(cs: Seq<NodeView>) -> Seq<Seq<char>>
    decreases cs.len(),
{
    if cs.len() == 0 {
        Seq::empty()
    } else {
        let h = cs.last();
        hub_lines(cs.drop_last()) + if h.kind == "hub_definition"@ && h.children.len() > 0 {
            seq!["        "@ + h.children[0].text + " {\n"@ + spec_join(hub_items(h.children), ",\n"@) + "\n        }"@]
        } else {
            Seq::empty()
        }
    }
}

/// A block of definitions under its keyword; nothing when it is empty.
pub open spec fn keyword_block(keyword: Seq<char>, items: Seq<Seq<char>>) -> Seq<Seq<char>> {
    if items.len() == 0 {
        Seq::empty()
    } else {
        seq!["    "@ + keyword + " [\n"@ + spec_join(items, ",\n"@) + "\n    ]"@]
    }
}

/// The definition blocks among `cs`, laid out.
pub open spec fn definition_blocks(cs: Seq<NodeView>) -> Seq<Seq<char>>
    decreases cs.len(),
{
    if cs.len() == 0 {
        Seq::empty()
    } else {
        let b = cs.last();
        definition_blocks(cs.drop_last()) + if b.kind == "fields_block"@ {
            keyword_block("FIELDS"@, field_lines(b.children))
        } else if b.kind == "enums_block"@ {
            keyword_block("ENUMS"@, enum_lines(b.children))
        } else if b.kind == "structs_block"@ {
            keyword_block("STRUCTS"@, struct_lines(b.children))
        } else if b.kind == "hubs_block"@ {
            keyword_block("HUBS"@, hub_lines(b.children))
        } else {
            Seq::empty()
        }
    }
}

/// The definitions section laid out.
pub open spec fn fmt_definitions(n: NodeView) -> Seq<char> {
    "DEFINITIONS [\n"@ + spec_join(definition_blocks(n.children), ",\n"@) + "\n]"@
}

fn push_view(lines: &mut Vec<String>, line: String)
    ensures
        views(final(lines)@) == views(old(lines)@).push(line@),
{
    let ghost l0 = lines@;
    let ghost v = line@;
    lines.push(line);
    assert(views(lines@) =~= views(l0).push(v));
}

fn definition_items(block: &SyntaxNode, which: u8) -> (r: Vec<String>)
    requires
        which < 4,
    ensures
        views(r@) == if which == 0 {
            field_lines(block@.children)
        } else if which == 1 {
            enum_lines(block@.children)
        } else if which == 2 {
            struct_lines(block@.children)
        } else {
            hub_lines(block@.children)
        },
{
    proof {
        lemma_nodes_view(block.children@);
    }
    let ghost cs = block@.children;
    let ghost target = |c: Seq<NodeView>|
        if which == 0 {
            field_lines(c)
        } else if which == 1 {
            enum_lines(c)
        } else if which == 2 {
            struct_lines(c)
        } else {
            hub_lines(c)
        };
    let mut out: Vec<String> = Vec::new();
    let mut i: usize = 0;
    assert(cs.take(0) =~= Seq::<NodeView>::empty());
    assert(views(out@) =~= target(cs.take(0)));
    while i < block.children.len()
        invariant
            i <= block.children.len(),
            which < 4,
            cs == block@.children,
            cs.len() == block.children@.len(),
            forall|j: int| 0 <= j < block.children@.len() ==> #[trigger] cs[j] == node_view(block.children@[j]),
            target == (|c: Seq<NodeView>|
                if which == 0 {
                    field_lines(c)
                } else if which == 1 {
                    enum_lines(c)
                } else if which == 2 {
                    struct_lines(c)
                } else {
                    hub_lines(c)
                }),
            views(out@) == target(cs.take(i as int)),
        decreases block.children.len() - i,
    {
        assert(cs.take(i + 1).drop_last() =~= cs.take(i as int));
        assert(cs.take(i + 1).last() == block.children@[i as int]@);
        let d = &block.children[i];
        proof {
            lemma_nodes_view(d.children@);
        }
        let ghost o0 = views(out@);
        let k = d.kind.as_str();
        if which == 0 {
            if str_eq(k, "field_definition") && d.children.len() > 2 {
                let mut line = owned("        ");
                line.append(d.children[0].text.as_str());
                line.append(": ");
                line.append(d.children[2].text.as_str());
                push_view(&mut out, line);
            }
        } else if which == 1 {
            if str_eq(k, "enum_definition") && d.children.len() > 0 {
                let variants = texts_of(&d.children, "identifier", 1);
                let mut line = owned("        ");
                line.append(d.children[0].text.as_str());
                line.append(" { ");
                let j = join(&variants, ", ");
                line.append(j.as_str());
                line.append(" }");
                push_view(&mut out, line);
            }
        } else if which == 2 {
            if str_eq(k, "struct_definition") && d.children.len() > 0 {
                let fields = texts_of(&d.children, "identifier", 1);
                let mut line = owned("        ");
                line.append(d.children[0].text.as_str());
                line.append(" {\n            ");
                let j = join(&fields, ",\n            ");
                line.append(j.as_str());
                line.append("\n        }");
                push_view(&mut out, line);
            }
        } else {
            if str_eq(k, "hub_definition") && d.children.len() > 0 {
                let mut items: Vec<String> = Vec::new();
                let ghost hc = d@.children;
                let mut m: usize = 0;
                assert(hc.take(0) =~= Seq::<NodeView>::empty());
                assert(views(items@) =~= Seq::<Seq<char>>::empty());
                while m < d.children.len()
                    invariant
                        m <= d.children.len(),
                        hc == d@.children,
                        hc.len() == d.children@.len(),
                        forall|j: int| 0 <= j < d.children@.len() ==> #[trigger] hc[j] == node_view(d.children@[j]),
                        views(items@) == hub_items(hc.take(m as int)),
                    decreases d.children.len() - m,
                {
                    assert(hc.take(m + 1).drop_last() =~= hc.take(m as int));
                    assert(hc.take(m + 1).last() == d.children@[m as int]@);
                    let ck = d.children[m].kind.as_str();
                    let ghost i0 = views(items@);
                    if str_eq(ck, "hub_field") || str_eq(ck, "hub_role") {
                        let mut it = owned("            ");
                        it.append(d.children[m].text.as_str());
                        push_view(&mut items, it);
                    } else {
                        assert(views(items@) =~= i0 + Seq::<Seq<char>>::empty());
                    }
                    m = m + 1;
                }
                assert(hc.take(d.children.len() as int) =~= hc);
                let mut line = owned("        ");
                line.append(d.children[0].text.as_str());
                line.append(" {\n");
                let j = join(&items, ",\n");
                line.append(j.as_str());
                line.append("\n        }");
                push_view(&mut out, line);
            }
        }
        assert(views(out@) =~= target(cs.take(i + 1)));
        i = i + 1;
    }
    assert(cs.take(block.children.len() as int) =~= cs);
    out
}

fn format_definitions_section(node: &SyntaxNode) -> (r: String)
    ensures
        r@ == fmt_definitions(node@),
{
    proof {
        lemma_nodes_view(node.children@);
    }
    let ghost cs = node@.children;
    let mut blocks: Vec<String> = Vec::new();
    let mut i: usize = 0;
    assert(cs.take(0) =~= Seq::<NodeView>::empty());
    assert(views(blocks@) =~= Seq::<Seq<char>>::empty());
    while i < node.children.len()
        invariant
            i <= node.children.len(),
            cs == node@.children,
            cs.len() == node.children@.len(),
            forall|j: int| 0 <= j < node.children@.len() ==> #[trigger] cs[j] == node_view(node.children@[j]),
            views(blocks@) == definition_blocks(cs.take(i as int)),
        decreases node.children.len() - i,
    {
        assert(cs.take(i + 1).drop_last() =~= cs.take(i as int));
        assert(cs.take(i + 1).last() == node.children@[i as int]@);
        let b = &node.children[i];
        let k = b.kind.as_str();
        let ghost b0 = views(blocks@);
        let which: u8 = if str_eq(k, "fields_block") {
            0
        } else if str_eq(k, "enums_block") {
            1
        } else if str_eq(k, "structs_block") {
            2
        } else if str_eq(k, "hubs_block") {
            3
        } else {
            4
        };
        if which < 4 {
            let items = definition_items(b, which);
            if items.len() > 0 {
                let mut block = owned("    ");
                block.append(
                    if which == 0 {
                        "FIELDS"
                    } else if which == 1 {
                        "ENUMS"
                    } else if which == 2 {
                        "STRUCTS"
                    } else {
                        "HUBS"
                    },
                );
                block.append(" [\n");
                let j = join(&items, ",\n");
                block.append(j.as_str());
                block.append("\n    ]");
                push_view(&mut blocks, block);
            }
        }
        assert(views(blocks@) =~= definition_blocks(cs.take(i + 1)));
        i = i + 1;
    }
    assert(cs.take(node.children.len() as int) =~= cs);
    let mut r = owned("DEFINITIONS [\n");
    let body = join(&blocks, ",\n");
    r.append(body.as_str());
    r.append("\n]");
    r
}

// ---------- instances ----------

/// The assignments of an instance block as trimmed name and value.
pub open spec fn assignments_of(cs: Seq<NodeView>) -> Seq<(Seq<char>, Seq<char>)>
    decreases cs.len(),
{
    if cs.len() == 0 {
        Seq::empty()
    } else {
        let c = cs.last();
        assignments_of(cs.drop_last()) + if c.kind == "instance_assignment"@ && c.children.len() > 2 {
            seq![(spec_trim(c.children[0].text), spec_trim(c.children[2].text))]
        } else {
            Seq::empty()
        }
    }
}

/// The widest name among `pairs`, in bytes.
pub open spec fn widest(pairs: Seq<(Seq<char>, Seq<char>)>) -> nat
    decreases pairs.len(),
{
    if pairs.len() == 0 {
        0
    } else {
        let w = utf8_count(pairs.last().0);
        let m = widest(pairs.drop_last());
        if m > w {
            m
        } else {
            w
        }
    }
}

/// The assignments laid out, names padded to the widest.
pub open spec fn assignment_lines(pairs: Seq<(Seq<char>, Seq<char>)>, width: nat) -> Seq<Seq<char>>
    decreases pairs.len(),
{
    if pairs.len() == 0 {
        Seq::empty()
    } else {
        let p = pairs.last();
        assignment_lines(pairs.drop_last(), width).push(
            "        "@ + p.0 + spaces((width - utf8_count(p.0)) as nat) + " = "@ + p.1,
        )
    }
}

/// One instance block laid out.
pub open spec fn instance_text(b: NodeView, r: Seq<char>, t: Seq<char>) -> Seq<char> {
    let pairs = assignments_of(b.children);
    let inner = if pairs.len() == 0 {
        Seq::empty()
    } else {
        "\n"@ + spec_join(assignment_lines(pairs, widest(pairs)), ",\n"@) + "\n    "@
    };
    "    "@ + r + ": "@ + t + " {"@ + inner + "}"@
}

/// The instance blocks among `cs` with a name and a type, laid out.
pub open spec fn instance_texts(cs: Seq<NodeView>) -> Seq<Seq<char>>
    decreases cs.len(),
{
    if cs.len() == 0 {
        Seq::empty()
    } else {
        let b = cs.last();
        instance_texts(cs.drop_last()) + if b.kind == "instance_block"@ {
            match (field_child(b, "ref"@), field_child(b, "type"@)) {
                (Some(r), Some(t)) => seq![instance_text(b, r.text, t.text)],
                _ => Seq::empty(),
            }
        } else {
            Seq::empty()
        }
    }
}

/// The instances section laid out.
pub open spec fn fmt_instances(n: NodeView) -> Seq<char> {
    "INSTANCES [\n"@ + spec_join(instance_texts(n.children), ",\n"@) + "\n]"@
}

proof fn lemma_widest(pairs: Seq<(Seq<char>, Seq<char>)>)
    ensures
        forall|i: int| 0 <= i < pairs.len() ==> utf8_count(#[trigger] pairs[i].0) <= widest(pairs),
    decreases pairs.len(),
{
    if pairs.len() > 0 {
        lemma_widest(pairs.drop_last());
        assert forall|i: int| 0 <= i < pairs.len() implies utf8_count(#[trigger] pairs[i].0) <= widest(pairs) by {
            if i < pairs.len() - 1 {
                assert(pairs[i] == pairs.drop_last()[i]);
            }
        }
    }
}

#[verifier::spinoff_prover]
#[verifier::rlimit(30)]
fn format_instance(b: &SyntaxNode, r: &String, t: &String) -> (out: String)
    ensures
        out@ == instance_text(b@, r@, t@),
{
    proof {
        lemma_nodes_view(b.children@);
    }
    let ghost cs = b@.children;
    let mut names: Vec<String> = Vec::new();
    let mut values: Vec<String> = Vec::new();
    let mut width: u128 = 0;
    let mut i: usize = 0;
    assert(cs.take(0) =~= Seq::<NodeView>::empty());
    assert(views(names@) =~= Seq::<Seq<char>>::empty());
    while i < b.children.len()
        invariant
            i <= b.children.len(),
            cs == b@.children,
            cs.len() == b.children@.len(),
            forall|j: int| 0 <= j < b.children@.len() ==> #[trigger] cs[j] == node_view(b.children@[j]),
            views(names@) == assignments_of(cs.take(i as int)).map_values(|p: (Seq<char>, Seq<char>)| p.0),
            views(values@) == assignments_of(cs.take(i as int)).map_values(|p: (Seq<char>, Seq<char>)| p.1),
            width == widest(assignments_of(cs.take(i as int))),
            width <= 4 * (usize::MAX as u128),
        decreases b.children.len() - i,
    {
        assert(cs.take(i + 1).drop_last() =~= cs.take(i as int));
        assert(cs.take(i + 1).last() == b.children@[i as int]@);
        let a = &b.children[i];
        proof {
            lemma_nodes_view(a.children@);
        }
        let ghost p0 = assignments_of(cs.take(i as int));
        if str_eq(a.kind.as_str(), "instance_assignment") && a.children.len() > 2 {
            let name = trim_ws(a.children[0].text.as_str());
            let value = trim_ws(a.children[2].text.as_str());
            let w = byte_len(name.as_str());
            if w > width {
                width = w;
            }
            let ghost pair = (name@, value@);
            let ghost n0 = views(names@);
            let ghost v0 = views(values@);
            names.push(name);
            values.push(value);
            assert(views(names@) =~= n0.push(pair.0));
            assert(views(values@) =~= v0.push(pair.1));
            assert(assignments_of(cs.take(i + 1)) =~= p0.push(pair));
            assert(assignments_of(cs.take(i + 1)).drop_last() =~= p0);
            assert(p0.push(pair).map_values(|p: (Seq<char>, Seq<char>)| p.0) =~= p0.map_values(
                |p: (Seq<char>, Seq<char>)| p.0,
            ).push(pair.0));
            assert(p0.push(pair).map_values(|p: (Seq<char>, Seq<char>)| p.1) =~= p0.map_values(
                |p: (Seq<char>, Seq<char>)| p.1,
            ).push(pair.1));
        } else {
            assert(assignments_of(cs.take(i + 1)) =~= p0);
        }
        i = i + 1;
    }
    assert(cs.take(b.children.len() as int) =~= cs);
    let ghost pairs = assignments_of(cs);
    assert(assignments_of(cs.take(i as int)) == pairs);
    assert forall|j: int| 0 <= j < names.len() implies (#[trigger] names@[j])@ == pairs[j].0 && values@[j]@
        == pairs[j].1 by {
        assert(views(names@)[j] == names@[j]@);
        assert(views(values@)[j] == values@[j]@);
    }
    proof {
        lemma_widest(pairs);
    }
    let mut lines: Vec<String> = Vec::new();
    let mut k: usize = 0;
    assert(pairs.take(0) =~= Seq::<(Seq<char>, Seq<char>)>::empty());
    assert(views(lines@) =~= Seq::<Seq<char>>::empty());
    while k < names.len()
        invariant
            k <= names.len(),
            names.len() == values.len(),
            names.len() == pairs.len(),
            forall|j: int| 0 <= j < names.len() ==> (#[trigger] names@[j])@ == pairs[j].0 && values@[j]@ == pairs[j].1,
            forall|j: int| 0 <= j < pairs.len() ==> utf8_count(#[trigger] pairs[j].0) <= widest(pairs),
            width == widest(pairs),
            views(lines@) == assignment_lines(pairs.take(k as int), width as nat),
        decreases names.len() - k,
    {
        let nw = byte_len(names[k].as_str());
        assert(utf8_count(pairs[k as int].0) <= widest(pairs));
        let mut line = owned("        ");
        line.append(names[k].as_str());
        push_spaces(&mut line, width - nw);
        line.append(" = ");
        line.append(values[k].as_str());
        let ghost l0 = views(lines@);
        push_view(&mut lines, line);
        assert(pairs.take(k + 1).drop_last() =~= pairs.take(k as int));
        assert(pairs.take(k + 1).last() == pairs[k as int]);
        k = k + 1;
    }
    assert(pairs.take(names.len() as int) =~= pairs);
    let mut out = owned("    ");
    out.append(r.as_str());
    out.append(": ");
    out.append(t.as_str());
    out.append(" {");
    if names.len() > 0 {
        out.append("\n");
        let j = join(&lines, ",\n");
        out.append(j.as_str());
        out.append("\n    ");
    }
    out.append("}");
    out
}

fn format_instances_section(node: &SyntaxNode) -> (r: String)
    ensures
        r@ == fmt_instances(node@),
{
    proof {
        lemma_nodes_view(node.children@);
    }
    let ghost cs = node@.children;
    let mut items: Vec<String> = Vec::new();
    let mut i: usize = 0;
    assert(cs.take(0) =~= Seq::<NodeView>::empty());
    assert(views(items@) =~= Seq::<Seq<char>>::empty());
    while i < node.children.len()
        invariant
            i <= node.children.len(),
            cs == node@.children,
            cs.len() == node.children@.len(),
            forall|j: int| 0 <= j < node.children@.len() ==> #[trigger] cs[j] == node_view(node.children@[j]),
            views(items@) == instance_texts(cs.take(i as int)),
        decreases node.children.len() - i,
    {
        assert(cs.take(i + 1).drop_last() =~= cs.take(i as int));
        assert(cs.take(i + 1).last() == node.children@[i as int]@);
        let b = &node.children[i];
        proof {
            lemma_nodes_view(b.children@);
        }
        let ghost i0 = views(items@);
        if str_eq(b.kind.as_str(), "instance_block") {
            match (b.child_by_field_name("ref"), b.child_by_field_name("type")) {
                (Some(ri), Some(ti)) => {
                    let text = format_instance(b, &b.children[ri].text, &b.children[ti].text);
                    push_view(&mut items, text);
                },
                _ => {},
            }
        }
        assert(views(items@) =~= instance_texts(cs.take(i + 1)));
        i = i + 1;
    }
    assert(cs.take(node.children.len() as int) =~= cs);
    let mut r = owned("INSTANCES [\n");
    let body = join(&items, ",\n");
    r.append(body.as_str());
    r.append("\n]");
    r
}

// ---------- the file ----------

/// The sections of a HubGS tree laid out, in order; other children are
/// left out.
pub open spec fn sections(cs: Seq<NodeView>) -> Seq<Seq<char>>
    decreases cs.len(),
{
    if cs.len() == 0 {
        Seq::empty()
    } else {
        let c = cs.last();
        sections(cs.drop_last()) + if c.kind == "imports_section"@ {
            seq![fmt_imports(c)]
        } else if c.kind == "definitions_section"@ {
            seq![fmt_definitions(c)]
        } else if c.kind == "instances_section"@ {
            seq![fmt_instances(c)]
        } else {
            Seq::empty()
        }
    }
}

/// A HubGS file laid out: its sections separated by a blank line, ended by
/// a newline.
pub open spec fn spec_format_hubgs(root: NodeView) -> Seq<char> {
    spec_join(sections(root.children), ",\n\n"@) + "\n"@
}

/// Formats a HubGS file given its syntax tree.
pub fn format_hubgs(root: &SyntaxNode) -> (r: String)
    ensures
        r@ == spec_format_hubgs(root@),
{
    proof {
        lemma_nodes_view(root.children@);
    }
    let ghost cs = root@.children;
    let mut out: Vec<String> = Vec::new();
    let mut i: usize = 0;
    assert(cs.take(0) =~= Seq::<NodeView>::empty());
    assert(views(out@) =~= Seq::<Seq<char>>::empty());
    while i < root.children.len()
        invariant
            i <= root.children.len(),
            cs == root@.children,
            cs.len() == root.children@.len(),
            forall|j: int| 0 <= j < root.children@.len() ==> #[trigger] cs[j] == node_view(root.children@[j]),
            views(out@) == sections(cs.take(i as int)),
        decreases root.children.len() - i,
    {
        assert(cs.take(i + 1).drop_last() =~= cs.take(i as int));
        assert(cs.take(i + 1).last() == root.children@[i as int]@);
        let c = &root.children[i];
        let k = c.kind.as_str();
        if str_eq(k, "imports_section") {
            push_view(&mut out, format_imports_section(c));
        } else if str_eq(k, "definitions_section") {
            push_view(&mut out, format_definitions_section(c));
        } else if str_eq(k, "instances_section") {
            push_view(&mut out, format_instances_section(c));
        }
        assert(views(out@) =~= sections(cs.take(i + 1)));
        i = i + 1;
    }
    assert(cs.take(root.children.len() as int) =~= cs);
    let mut r = join(&out, ",\n\n");
    r.append("\n");
    r
}

} // verus!
