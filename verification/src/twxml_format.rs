//! The TWXML formatter: lays a syntax tree out again, element by element,
//! after each tag's behaviour (block containers expanded, prose wrapped,
//! short leaves kept on one line, code blocks re-indented verbatim).
use vstd::prelude::*;

use crate::layout::{
    atoms_view, attrs_str_simple, byte_len, collapse_from, collapse_whitespace, format_attrs, indent_str,
    indentation, join_atoms_flat, join_atoms_with_wrap, leading_spaces, push_spaces, spaces, spec_attrs_simple,
    spec_format_attrs, spec_join_flat, spec_tag_behavior, spec_trim, spec_words, spec_wrap, split_words,
    tag_behavior, trim_ws, TagBehavior, MAX_LINE_LEN,
};
use crate::multiplicity::leading_count;
use crate::position::utf8_count;
use crate::syntax::{field_child, lemma_nodes_view, node_view, nodes_view, NodeView, SyntaxNode};
use crate::text::{has_non_ws, newline_index, owned, spec_join, str_eq, to_chars, views};

verus! {

// ---------- reading elements ----------

/// The tag name the formatter reads: that of an element's start tag or of
/// a self-closing element, or the tag a document, meta or body block
/// stands for.
pub open spec fn fmt_tag_name(n: NodeView) -> Option<Seq<char>> {
    if n.kind == "element"@ || n.kind == "self_closing_element"@ {
        let target = if n.kind == "element"@ {
            if n.children.len() > 0 {
                Some(n.children[0])
            } else {
                None
            }
        } else {
            Some(n)
        };
        match target {
            Some(t) => match field_child(t, "name"@) {
                Some(c) => Some(c.text),
                None => None,
            },
            None => None,
        }
    } else if n.kind == "document_block"@ {
        Some("document"@)
    } else if n.kind == "meta_tag"@ {
        Some("meta"@)
    } else if n.kind == "body_block"@ {
        Some("body"@)
    } else {
        None
    }
}

/// The texts of the attribute nodes among `cs`.
pub open spec fn attribute_texts(cs: Seq<NodeView>) -> Seq<Seq<char>>
    decreases cs.len(),
{
    if cs.len() == 0 {
        Seq::empty()
    } else {
        attribute_texts(cs.drop_last()) + if cs.last().kind == "attribute"@ {
            seq![cs.last().text]
        } else {
            Seq::empty()
        }
    }
}

/// The attributes of an element (from its start tag) or of another node.
pub open spec fn attr_texts(n: NodeView) -> Seq<Seq<char>> {
    if n.kind == "element"@ && n.children.len() > 0 {
        attribute_texts(n.children[0].children)
    } else {
        attribute_texts(n.children)
    }
}

/// Kinds that only frame an element.
pub open spec fn is_frame_kind(k: Seq<char>) -> bool {
    k == "start_tag"@ || k == "end_tag"@ || k == "tag_name"@
}

/// Whether `n` holds nothing but its frame and blank text.
pub open spec fn empty_of_content(n: NodeView) -> bool {
    forall|i: int|
        0 <= i < n.children.len() ==> is_frame_kind(#[trigger] n.children[i].kind) || (n.children[i].kind
            == "text"@ && !has_non_ws(n.children[i].text))
}

/// The texts of the text nodes among `cs`, one after another.
pub open spec fn text_concat(cs: Seq<NodeView>) -> Seq<char>
    decreases cs.len(),
{
    if cs.len() == 0 {
        Seq::empty()
    } else {
        text_concat(cs.drop_last()) + if cs.last().kind == "text"@ {
            cs.last().text
        } else {
            Seq::empty()
        }
    }
}

/// How deep the tree under `n` goes.
pub open spec fn node_depth(n: NodeView) -> nat
    decreases n,
{
    1 + children_depth(n.children)
}

/// The greatest depth among the trees `cs`.
pub open spec fn children_depth(cs: Seq<NodeView>) -> nat
    decreases cs,
{
    if cs.len() == 0 {
        0
    } else {
        let a = node_depth(cs.last());
        let b = children_depth(cs.drop_last());
        if a > b {
            a
        } else {
            b
        }
    }
}

/// Each tree of `cs` is no deeper than `children_depth(cs)`.
pub proof fn lemma_children_depth(cs: Seq<NodeView>)
    ensures
        forall|i: int| 0 <= i < cs.len() ==> #[trigger] node_depth(cs[i]) <= children_depth(cs),
    decreases cs.len(),
{
    if cs.len() > 0 {
        lemma_children_depth(cs.drop_last());
        assert forall|i: int| 0 <= i < cs.len() implies #[trigger] node_depth(cs[i]) <= children_depth(cs) by {
            if i < cs.len() - 1 {
                assert(cs[i] == cs.drop_last()[i]);
            }
        }
    }
}

// ---------- code blocks ----------

/// `s` cut at each newline, empty pieces kept (`str::split('\n')`).
pub open spec fn split_nl(s: Seq<char>) -> Seq<Seq<char>>
    decreases s.len(),
{
    let i = newline_index(s);
    if i >= s.len() {
        seq![s]
    } else {
        proof {
            crate::text::lemma_newline_index_bound(s);
        }
        seq![s.take(i as int)] + split_nl(s.skip(i + 1 as int))
    }
}

/// The index of the first line of `ls` that is not blank, from `k` on.
pub open spec fn first_nonblank(ls: Seq<Seq<char>>, k: nat) -> nat
    decreases ls.len() - k,
{
    if k >= ls.len() {
        k
    } else if has_non_ws(ls[k as int]) {
        k
    } else {
        first_nonblank(ls, k + 1)
    }
}

/// The index of the last line of `ls[..k]` that is not blank.
pub open spec fn last_nonblank(ls: Seq<Seq<char>>, k: nat) -> int
    decreases k,
{
    if k == 0 {
        -1
    } else if k <= ls.len() && has_non_ws(ls[k - 1]) {
        k - 1
    } else {
        last_nonblank(ls, (k - 1) as nat)
    }
}

/// One line of a code block moved by `target - first` columns: blank lines
/// become empty, others get their leading spaces adjusted (never below
/// zero).
pub open spec fn shifted_line(line: Seq<char>, target: nat, first: nat) -> Seq<char> {
    if has_non_ws(line) {
        let lead = leading_count(line, ' ');
        let n: int = lead + target - first;
        spaces(if n > 0 { n as nat } else { 0 }) + line.skip(lead as int)
    } else {
        Seq::empty()
    }
}

/// The lines of `ls` shifted, one after another with newlines between.
pub open spec fn shifted_lines(ls: Seq<Seq<char>>, target: nat, first: nat) -> Seq<char>
    decreases ls.len(),
{
    if ls.len() == 0 {
        Seq::empty()
    } else if ls.len() == 1 {
        shifted_line(ls[0], target, first)
    } else {
        shifted_lines(ls.drop_last(), target, first) + "\n"@ + shifted_line(ls.last(), target, first)
    }
}

/// A code block: its text kept line by line, without the blank lines
/// around it, re-indented so that its first line sits one level deeper
/// than the tag.
pub open spec fn codeblock_text(n: NodeView, tag: Seq<char>, attr_str: Seq<char>, indent: nat) -> Seq<char> {
    let ind = indentation(indent);
    let inner = text_concat(n.children);
    if !has_non_ws(inner) {
        ind + "<"@ + tag + attr_str + "></"@ + tag + ">"@
    } else {
        let ls = split_nl(inner);
        let start = first_nonblank(ls, 0);
        let end = last_nonblank(ls, ls.len());
        let content = ls.subrange(start as int, end + 1);
        let first = leading_count(content[0], ' ');
        ind + "<"@ + tag + attr_str + ">\n"@ + shifted_lines(content, 2 * (indent + 1), first) + "\n"@ + ind
            + "</"@ + tag + ">"@
    }
}

// ---------- laying out the tree ----------

/// Whether an inline child of this kind is formatted as an element.
pub open spec fn is_element_kind(k: Seq<char>) -> bool {
    k == "element"@ || k == "self_closing_element"@ || k == "document_block"@ || k == "body_block"@
}

/// `n` laid out at `indent`; `block` is the level of the enclosing prose
/// when `n` stands inside inline content.
pub open spec fn fmt_node(n: NodeView, indent: nat, block: Option<nat>) -> Seq<char>
    decreases n, 2nat,
{
    if n.kind == "text"@ {
        if block is Some {
            collapse_from(n.text, false)
        } else {
            Seq::empty()
        }
    } else if n.kind == "comment"@ {
        indentation(indent) + spec_trim(n.text) + "\n"@
    } else if is_element_kind(n.kind) {
        fmt_element(n, indent, block)
    } else {
        fmt_concat(n.children, indent, block)
    }
}

/// The trees `cs` laid out one after another.
pub open spec fn fmt_concat(cs: Seq<NodeView>, indent: nat, block: Option<nat>) -> Seq<char>
    decreases cs, 0nat,
{
    if cs.len() == 0 {
        Seq::empty()
    } else {
        fmt_concat(cs.drop_last(), indent, block) + fmt_node(cs.last(), indent, block)
    }
}

/// The laid-out children of a block container at `level` that are not
/// frame or text and not blank.
pub open spec fn expand_children(cs: Seq<NodeView>, level: nat) -> Seq<Seq<char>>
    decreases cs, 0nat,
{
    if cs.len() == 0 {
        Seq::empty()
    } else {
        let prev = expand_children(cs.drop_last(), level);
        let c = cs.last();
        if is_frame_kind(c.kind) || c.kind == "text"@ {
            prev
        } else {
            let out = fmt_node(c, level, None);
            if has_non_ws(out) {
                prev.push(out)
            } else {
                prev
            }
        }
    }
}

/// The inline atoms of the children `cs` of a prose element whose content
/// sits at level `ci`: the words of text, a break for `br`, `fr` as a
/// tag, other children laid out inline and trimmed; frame and comments
/// are left out.
pub open spec fn inline_atoms(cs: Seq<NodeView>, ci: nat) -> Seq<Option<Seq<char>>>
    decreases cs, 0nat,
{
    if cs.len() == 0 {
        Seq::empty()
    } else {
        let prev = inline_atoms(cs.drop_last(), ci);
        let c = cs.last();
        if is_frame_kind(c.kind) || c.kind == "comment"@ {
            prev
        } else if c.kind == "text"@ {
            prev + spec_words(collapse_from(c.text, false)).map_values(|w: Seq<char>| Some(w))
        } else {
            let tag = match fmt_tag_name(c) {
                Some(t) => t,
                None => Seq::empty(),
            };
            if is_element_kind(c.kind) && tag == "br"@ {
                prev.push(None)
            } else if is_element_kind(c.kind) && tag == "fr"@ {
                prev.push(Some("<fr"@ + spec_attrs_simple(attr_texts(c)) + "/>"@))
            } else {
                let t = spec_trim(fmt_node(c, 0, Some(ci)));
                if t.len() > 0 {
                    prev.push(Some(t))
                } else {
                    prev
                }
            }
        }
    }
}

/// The laid-out children of a block container, each ending in a newline.
pub open spec fn terminated(outs: Seq<Seq<char>>) -> Seq<char>
    decreases outs.len(),
{
    if outs.len() == 0 {
        Seq::empty()
    } else {
        let c = outs.last();
        terminated(outs.drop_last()) + c + if c.len() > 0 && c.last() == '\n' {
            Seq::empty()
        } else {
            "\n"@
        }
    }
}

/// An empty element: opening and closing tag side by side.
pub open spec fn empty_pair(tag: Seq<char>, attr_str: Seq<char>) -> Seq<char> {
    "<"@ + tag + attr_str + "></"@ + tag + ">"@
}

/// An element with its content on lines of its own between the tags.
pub open spec fn expanded(ind: Seq<char>, tag: Seq<char>, attr_str: Seq<char>, body: Seq<char>) -> Seq<char> {
    ind + "<"@ + tag + attr_str + ">\n"@ + body + "\n"@ + ind + "</"@ + tag + ">"@
}

/// An element laid out after its tag's behaviour.
pub open spec fn fmt_element(n: NodeView, indent: nat, block: Option<nat>) -> Seq<char>
    decreases n, 1nat,
{
    let tag = match fmt_tag_name(n) {
        Some(t) => t,
        None => Seq::empty(),
    };
    if tag.len() == 0 {
        Seq::empty()
    } else {
        let attrs = attr_texts(n);
        let ind = indentation(indent);
        let attr_str = spec_format_attrs(attrs, tag, indent);
        let self_closing = "<"@ + tag + attr_str + "/>"@;
        match spec_tag_behavior(tag) {
            TagBehavior::CodeBlock => codeblock_text(n, tag, attr_str, indent),
            TagBehavior::Br => match block {
                Some(l) => "<br/>\n"@ + indentation(l + 1),
                None => ind + "<br/>"@,
            },
            TagBehavior::Fr => {
                let fr = "<fr"@ + spec_attrs_simple(attrs) + "/>"@;
                if block is Some {
                    fr
                } else {
                    ind + fr
                }
            },
            TagBehavior::SelfClosingBlock => if block is Some {
                self_closing
            } else {
                ind + self_closing
            },
            b => if n.kind == "self_closing_element"@ {
                if block is Some {
                    self_closing
                } else {
                    ind + self_closing
                }
            } else if b == TagBehavior::ForcedExpandBlock {
                if empty_of_content(n) {
                    ind + empty_pair(tag, attr_str)
                } else {
                    let outs = expand_children(n.children, indent + 1);
                    if outs.len() == 0 {
                        ind + empty_pair(tag, attr_str)
                    } else {
                        ind + "<"@ + tag + attr_str + ">\n"@ + terminated(outs) + ind + "</"@ + tag + ">"@
                    }
                }
            } else if b == TagBehavior::ForcedExpandInline {
                if empty_of_content(n) {
                    ind + empty_pair(tag, attr_str)
                } else {
                    let content = spec_wrap(inline_atoms(n.children, indent + 1), MAX_LINE_LEN as nat, indent + 1);
                    if content.len() == 0 {
                        ind + empty_pair(tag, attr_str)
                    } else {
                        expanded(ind, tag, attr_str, content)
                    }
                }
            } else {
                if empty_of_content(n) {
                    if block is Some {
                        empty_pair(tag, attr_str)
                    } else {
                        ind + empty_pair(tag, attr_str)
                    }
                } else {
                    let ci = match block {
                        Some(l) => l,
                        None => indent,
                    };
                    let atoms = inline_atoms(n.children, ci);
                    let flat = spec_join_flat(atoms);
                    let single = "<"@ + tag + attr_str + ">"@ + flat + "</"@ + tag + ">"@;
                    if block is Some {
                        single
                    } else if utf8_count(single) <= MAX_LINE_LEN && !flat.contains('\n') {
                        ind + single
                    } else {
                        expanded(ind, tag, attr_str, spec_wrap(atoms, MAX_LINE_LEN as nat, indent + 1))
                    }
                }
            },
        }
    }
}

/// The formatted document: the tree laid out, trimmed, and ended by a
/// newline unless empty; the text itself when it did not parse cleanly.
pub open spec fn spec_format_twxml(contents: Seq<char>, tree: Option<NodeView>) -> Seq<char> {
    match tree {
        None => contents,
        Some(root) => if root.has_error {
            contents
        } else {
            let t = spec_trim(fmt_node(root, 0, None));
            if t.len() > 0 {
                t + "\n"@
            } else {
                t
            }
        },
    }
}

// ---------- reading elements, executably ----------

/// The view of an optional string.
pub open spec fn opt_str(o: Option<String>) -> Option<Seq<char>> {
    match o {
        Some(s) => Some(s@),
        None => None,
    }
}

/// The tag name the formatter reads from `node`.
pub fn element_tag_name(node: &SyntaxNode) -> (r: Option<String>)
    ensures
        opt_str(r) == fmt_tag_name(node@),
{
    proof {
        lemma_nodes_view(node.children@);
    }
    let is_el = str_eq(node.kind.as_str(), "element");
    if is_el || str_eq(node.kind.as_str(), "self_closing_element") {
        if is_el {
            if node.children.len() == 0 {
                return None;
            }
            let t = &node.children[0];
            proof {
                lemma_nodes_view(t.children@);
            }
            match t.child_by_field_name("name") {
                Some(i) => Some(t.children[i].text.clone()),
                None => None,
            }
        } else {
            match node.child_by_field_name("name") {
                Some(i) => Some(node.children[i].text.clone()),
                None => None,
            }
        }
    } else if str_eq(node.kind.as_str(), "document_block") {
        Some(owned("document"))
    } else if str_eq(node.kind.as_str(), "meta_tag") {
        Some(owned("meta"))
    } else if str_eq(node.kind.as_str(), "body_block") {
        Some(owned("body"))
    } else {
        None
    }
}

fn attribute_texts_of(children: &Vec<SyntaxNode>) -> (r: Vec<String>)
    ensures
        views(r@) == attribute_texts(nodes_view(children@)),
{
    proof {
        lemma_nodes_view(children@);
    }
    let ghost cs = nodes_view(children@);
    let mut r: Vec<String> = Vec::new();
    let mut i: usize = 0;
    assert(cs.take(0) =~= Seq::<NodeView>::empty());
    assert(views(r@) =~= Seq::<Seq<char>>::empty());
    while i < children.len()
        invariant
            i <= children.len(),
            cs == nodes_view(children@),
            cs.len() == children@.len(),
            forall|j: int| 0 <= j < children@.len() ==> #[trigger] cs[j] == node_view(children@[j]),
            views(r@) == attribute_texts(cs.take(i as int)),
        decreases children.len() - i,
    {
        assert(cs.take(i + 1).drop_last() =~= cs.take(i as int));
        assert(cs.take(i + 1).last() == children@[i as int]@);
        let ghost r0 = r@;
        if str_eq(children[i].kind.as_str(), "attribute") {
            r.push(children[i].text.clone());
            assert(views(r@) =~= views(r0) + seq![children@[i as int].text@]);
        } else {
            assert(views(r@) =~= views(r0) + Seq::<Seq<char>>::empty());
        }
        i = i + 1;
    }
    assert(cs.take(children.len() as int) =~= cs);
    r
}

/// The attribute texts among `cs` are the texts of its attribute nodes, in
/// order.
proof fn lemma_attribute_texts(cs: Seq<NodeView>)
    ensures
        attribute_texts(cs) == cs.filter(|c: NodeView| c.kind == "attribute"@).map_values(|c: NodeView| c.text),
    decreases cs.len(),
{
    reveal(Seq::filter);
    if cs.len() > 0 {
        lemma_attribute_texts(cs.drop_last());
        let p = |c: NodeView| c.kind == "attribute"@;
        let f = |c: NodeView| c.text;
        let sub = cs.drop_last().filter(p);
        if p(cs.last()) {
            assert(cs.filter(p) == sub.push(cs.last()));
            assert(sub.push(cs.last()).map_values(f) =~= sub.map_values(f) + seq![cs.last().text]);
        } else {
            assert(cs.filter(p) == sub);
            assert(sub.map_values(f) =~= sub.map_values(f) + Seq::<Seq<char>>::empty());
        }
    }
}

/// Formatting keeps an element's attributes: those it writes in the
/// element's start tag are exactly the attribute nodes of its start tag
/// (its first child), in order.
pub proof fn law_element_attributes(n: NodeView)
    requires
        n.kind == "element"@,
        n.children.len() > 0,
    ensures
        attr_texts(n) == n.children[0].children.filter(|c: NodeView| c.kind == "attribute"@).map_values(
            |c: NodeView| c.text,
        ),
{
    lemma_attribute_texts(n.children[0].children);
}

/// The attribute texts of `node` (from its start tag when an element).
pub fn get_attributes(node: &SyntaxNode) -> (r: Vec<String>)
    ensures
        views(r@) == attr_texts(node@),
{
    proof {
        lemma_nodes_view(node.children@);
    }
    if str_eq(node.kind.as_str(), "element") && node.children.len() > 0 {
        attribute_texts_of(&node.children[0].children)
    } else {
        attribute_texts_of(&node.children)
    }
}

/// Whether `node` holds nothing but its frame and blank text.
pub fn is_node_empty_of_content(node: &SyntaxNode) -> (b: bool)
    ensures
        b == empty_of_content(node@),
{
    proof {
        lemma_nodes_view(node.children@);
    }
    let ghost cs = node@.children;
    let mut i: usize = 0;
    while i < node.children.len()
        invariant
            i <= node.children.len(),
            cs == node@.children,
            cs.len() == node.children@.len(),
            forall|j: int| 0 <= j < node.children@.len() ==> #[trigger] cs[j] == node_view(node.children@[j]),
            forall|j: int|
                0 <= j < i ==> is_frame_kind(#[trigger] cs[j].kind) || (cs[j].kind == "text"@ && !has_non_ws(
                    cs[j].text,
                )),
        decreases node.children.len() - i,
    {
        let c = &node.children[i];
        assert(cs[i as int] == c@);
        let k = c.kind.as_str();
        if str_eq(k, "start_tag") || str_eq(k, "end_tag") || str_eq(k, "tag_name") {
        } else if str_eq(k, "text") {
            let t = trim_ws(c.text.as_str());
            if !t.as_str().is_empty() {
                proof {
                    lemma_trim_nonblank(c.text@);
                    assert(!(is_frame_kind(cs[i as int].kind) || (cs[i as int].kind == "text"@ && !has_non_ws(
                        cs[i as int].text,
                    ))));
                }
                return false;
            }
            proof {
                lemma_trim_nonblank(c.text@);
            }
        } else {
            assert(!(is_frame_kind(cs[i as int].kind) || (cs[i as int].kind == "text"@ && !has_non_ws(
                cs[i as int].text,
            ))));
            return false;
        }
        i = i + 1;
    }
    true
}

/// Trimming leaves something exactly when something is not blank.
pub proof fn lemma_trim_nonblank(s: Seq<char>)
    ensures
        (spec_trim(s).len() > 0) == has_non_ws(s),
{
    crate::layout::lemma_trim_facts(s);
}

fn text_of_children(children: &Vec<SyntaxNode>) -> (r: String)
    ensures
        r@ == text_concat(nodes_view(children@)),
{
    proof {
        lemma_nodes_view(children@);
    }
    let ghost cs = nodes_view(children@);
    let mut r = String::new();
    let mut i: usize = 0;
    assert(cs.take(0) =~= Seq::<NodeView>::empty());
    while i < children.len()
        invariant
            i <= children.len(),
            cs == nodes_view(children@),
            cs.len() == children@.len(),
            forall|j: int| 0 <= j < children@.len() ==> #[trigger] cs[j] == node_view(children@[j]),
            r@ == text_concat(cs.take(i as int)),
        decreases children.len() - i,
    {
        assert(cs.take(i + 1).drop_last() =~= cs.take(i as int));
        assert(cs.take(i + 1).last() == children@[i as int]@);
        let ghost r0 = r@;
        if str_eq(children[i].kind.as_str(), "text") {
            r.append(children[i].text.as_str());
        } else {
            assert(r@ =~= r0 + Seq::<char>::empty());
        }
        i = i + 1;
    }
    assert(cs.take(children.len() as int) =~= cs);
    r
}

// ---------- code blocks, executably ----------

/// `s` cut at each newline, empty pieces kept.
pub fn split_newlines(s: &str) -> (r: Vec<String>)
    ensures
        views(r@) == split_nl(s@),
{
    let v = to_chars(s);
    let mut out: Vec<String> = Vec::new();
    let mut cur: Vec<char> = Vec::new();
    let mut i: usize = 0;
    assert(cur@ + v@.skip(0) =~= s@);
    assert(views(out@) + split_nl(s@) =~= split_nl(s@));
    while i < v.len()
        invariant
            i <= v.len(),
            v@ == s@,
            forall|k: int| 0 <= k < cur@.len() ==> cur@[k] != '\n',
            views(out@) + split_nl(cur@ + v@.skip(i as int)) == split_nl(s@),
        decreases v.len() - i,
    {
        let c = v[i];
        let ghost rest = v@.skip(i + 1);
        assert(v@.skip(i as int) =~= seq![c] + rest);
        if c == '\n' {
            let ghost whole = cur@ + v@.skip(i as int);
            proof {
                crate::text::lemma_newline_index_prefix(cur@, v@.skip(i as int));
                assert(whole.take(cur@.len() as int) =~= cur@);
                assert(whole.skip(cur@.len() + 1 as int) =~= rest);
            }
            let piece = crate::text::string_from_chars(&cur);
            let ghost o0 = out@;
            out.push(piece);
            assert(views(out@) =~= views(o0).push(cur@));
            assert(views(out@) + split_nl(rest) =~= views(o0) + split_nl(whole));
            cur = Vec::new();
            assert(cur@ + rest =~= rest);
        } else {
            let ghost c0 = cur@;
            cur.push(c);
            assert(c0 + v@.skip(i as int) =~= cur@ + rest);
        }
        i = i + 1;
    }
    assert(v@.skip(i as int) =~= Seq::<char>::empty());
    assert(cur@ + v@.skip(i as int) =~= cur@);
    proof {
        crate::text::lemma_newline_index_prefix(cur@, Seq::<char>::empty());
        assert(cur@ + Seq::<char>::empty() =~= cur@);
    }
    let piece = crate::text::string_from_chars(&cur);
    let ghost o0 = out@;
    out.push(piece);
    assert(views(out@) =~= views(o0) + seq![cur@]);
    out
}

/// Text with something not blank keeps it on some line.
pub proof fn lemma_split_nonblank(s: Seq<char>)
    requires
        has_non_ws(s),
    ensures
        exists|k: int| 0 <= k < split_nl(s).len() && has_non_ws(#[trigger] split_nl(s)[k]),
    decreases s.len(),
{
    let i = newline_index(s);
    crate::text::lemma_newline_index_bound(s);
    if i >= s.len() {
        assert(split_nl(s)[0] == s);
    } else {
        let j = choose|j: int| 0 <= j < s.len() && !crate::text::is_ws(#[trigger] s[j]);
        if j < i {
            assert(s.take(i as int)[j] == s[j]);
            assert(split_nl(s)[0] == s.take(i as int));
        } else {
            assert(j != i);
            assert(s.skip(i + 1 as int)[j - i - 1] == s[j]);
            lemma_split_nonblank(s.skip(i + 1 as int));
            let k = choose|k: int| 0 <= k < split_nl(s.skip(i + 1 as int)).len() && has_non_ws(
                #[trigger] split_nl(s.skip(i + 1 as int))[k],
            );
            assert(split_nl(s)[k + 1] == split_nl(s.skip(i + 1 as int))[k]);
        }
    }
}

proof fn lemma_first_nonblank(ls: Seq<Seq<char>>, k: nat)
    ensures
        k <= first_nonblank(ls, k),
        first_nonblank(ls, k) < ls.len() ==> has_non_ws(ls[first_nonblank(ls, k) as int]),
        forall|j: int| k <= j < first_nonblank(ls, k) && j < ls.len() ==> !has_non_ws(#[trigger] ls[j]),
    decreases ls.len() - k,
{
    if k < ls.len() && !has_non_ws(ls[k as int]) {
        lemma_first_nonblank(ls, k + 1);
    }
}

proof fn lemma_last_nonblank(ls: Seq<Seq<char>>, k: nat)
    requires
        k <= ls.len(),
    ensures
        -1 <= last_nonblank(ls, k) < k,
        last_nonblank(ls, k) >= 0 ==> has_non_ws(ls[last_nonblank(ls, k)]),
        forall|j: int| last_nonblank(ls, k) < j < k ==> !has_non_ws(#[trigger] ls[j]),
    decreases k,
{
    if k > 0 && !has_non_ws(ls[k - 1]) {
        lemma_last_nonblank(ls, (k - 1) as nat);
    }
}

fn shift_line(line: &String, target: u128, first: usize) -> (r: String)
    requires
        target <= 4 * (usize::MAX as u128),
    ensures
        r@ == shifted_line(line@, target as nat, first as nat),
{
    let t = trim_ws(line.as_str());
    proof {
        lemma_trim_nonblank(line@);
    }
    if t.as_str().is_empty() {
        return String::new();
    }
    let lead = leading_spaces(line.as_str());
    let x: u128 = lead as u128 + target;
    let n: u128 = if x >= first as u128 { x - first as u128 } else { 0 };
    let mut r = String::new();
    push_spaces(&mut r, n);
    let v = to_chars(line.as_str());
    proof {
        crate::layout::lemma_leading_count_bound(line@, ' ');
    }
    let rest = crate::text::string_from_range(&v, lead, v.len());
    r.append(rest.as_str());
    assert(r@ =~= shifted_line(line@, target as nat, first as nat));
    r
}

fn codeblock(node: &SyntaxNode, tag: &String, attr_str: &String, indent: usize) -> (r: String)
    ensures
        r@ == codeblock_text(node@, tag@, attr_str@, indent as nat),
{
    let inner = text_of_children(&node.children);
    let ind = indent_str(indent as u128);
    let t = trim_ws(inner.as_str());
    proof {
        lemma_trim_nonblank(inner@);
    }
    if t.as_str().is_empty() {
        let mut r = ind.clone();
        r.append("<");
        r.append(tag.as_str());
        r.append(attr_str.as_str());
        r.append("></");
        r.append(tag.as_str());
        r.append(">");
        assert(r@ =~= codeblock_text(node@, tag@, attr_str@, indent as nat));
        return r;
    }
    let ls = split_newlines(inner.as_str());
    let ghost lv = views(ls@);
    proof {
        lemma_split_nonblank(inner@);
        lemma_first_nonblank(lv, 0);
        lemma_last_nonblank(lv, lv.len());
    }
    let mut start: usize = 0;
    while start < ls.len() && trim_ws(ls[start].as_str()).as_str().is_empty()
        invariant
            start <= ls.len(),
            lv == views(ls@),
            first_nonblank(lv, 0) == first_nonblank(lv, start as nat),
        decreases ls.len() - start,
    {
        proof {
            lemma_trim_nonblank(ls@[start as int]@);
            assert(lv[start as int] == ls@[start as int]@);
        }
        start = start + 1;
    }
    proof {
        if start < ls.len() {
            lemma_trim_nonblank(ls@[start as int]@);
            assert(lv[start as int] == ls@[start as int]@);
        }
    }
    let mut end: usize = ls.len();
    while end > 0 && trim_ws(ls[end - 1].as_str()).as_str().is_empty()
        invariant
            end <= ls.len(),
            lv == views(ls@),
            last_nonblank(lv, lv.len()) == last_nonblank(lv, end as nat),
        decreases end,
    {
        proof {
            lemma_trim_nonblank(ls@[end - 1]@);
            assert(lv[end - 1] == ls@[end - 1]@);
        }
        end = end - 1;
    }
    proof {
        if end > 0 {
            lemma_trim_nonblank(ls@[end - 1]@);
            assert(lv[end - 1] == ls@[end - 1]@);
        }
        let k = choose|k: int| 0 <= k < lv.len() && has_non_ws(#[trigger] lv[k]);
        assert(start <= k);
        assert(k < end);
    }
    // lines start..end (exclusive) are the content
    let ghost content = lv.subrange(start as int, end as int);
    let first = leading_spaces(ls[start].as_str());
    let target: u128 = 2 * (indent as u128 + 1);
    let mut padded = shift_line(&ls[start], target, first);
    let mut i = start + 1;
    assert(content.take(1) =~= seq![lv[start as int]]);
    assert(padded@ == shifted_lines(content.take(1), target as nat, first as nat));
    while i < end
        invariant
            start < i <= end <= ls.len(),
            lv == views(ls@),
            content == lv.subrange(start as int, end as int),
            target == 2 * (indent as u128 + 1),
            padded@ == shifted_lines(content.take(i - start), target as nat, first as nat),
        decreases end - i,
    {
        padded.append("\n");
        let line = shift_line(&ls[i], target, first);
        padded.append(line.as_str());
        proof {
            let t = content.take(i - start + 1);
            assert(t.drop_last() =~= content.take(i - start));
            assert(t.last() == ls@[i as int]@);
        }
        i = i + 1;
    }
    assert(content.take(end - start) =~= content);
    let mut r = ind.clone();
    r.append("<");
    r.append(tag.as_str());
    r.append(attr_str.as_str());
    r.append(">\n");
    r.append(padded.as_str());
    r.append("\n");
    r.append(ind.as_str());
    r.append("</");
    r.append(tag.as_str());
    r.append(">");
    proof {
        assert(first_nonblank(lv, 0) == start);
        assert(last_nonblank(lv, lv.len()) == end - 1);
        assert(content[0] == ls@[start as int]@);
    }
    assert(r@ =~= codeblock_text(node@, tag@, attr_str@, indent as nat));
    r
}

// ---------- laying out the tree, executably ----------

/// A level of enclosing prose, viewed.
pub open spec fn opt_level(b: Option<usize>) -> Option<nat> {
    match b {
        Some(l) => Some(l as nat),
        None => None,
    }
}

/// The levels used on the tree under a node fit in `usize`.
pub open spec fn levels_fit(indent: usize, block: Option<usize>, depth: nat) -> bool {
    &&& indent + depth < usize::MAX
    &&& block matches Some(l) ==> l + depth < usize::MAX
}

/// Lays out `node` at `indent`, inside prose at level `block` if any.
pub fn format_node(node: &SyntaxNode, indent: usize, block: Option<usize>) -> (r: String)
    requires
        levels_fit(indent, block, node_depth(node@)),
    ensures
        r@ == fmt_node(node@, indent as nat, opt_level(block)),
    decreases node, 2nat,
{
    let k = node.kind.as_str();
    if str_eq(k, "text") {
        if block.is_some() {
            collapse_whitespace(node.text.as_str())
        } else {
            String::new()
        }
    } else if str_eq(k, "comment") {
        let mut r = indent_str(indent as u128);
        let t = trim_ws(node.text.as_str());
        r.append(t.as_str());
        r.append("\n");
        r
    } else if str_eq(k, "element") || str_eq(k, "self_closing_element") || str_eq(k, "document_block")
        || str_eq(k, "body_block") {
        format_element(node, indent, block)
    } else {
        format_concat(&node.children, indent, block)
    }
}

/// Lays out the trees `children` one after another.
pub fn format_concat(children: &Vec<SyntaxNode>, indent: usize, block: Option<usize>) -> (r: String)
    requires
        levels_fit(indent, block, children_depth(nodes_view(children@))),
    ensures
        r@ == fmt_concat(nodes_view(children@), indent as nat, opt_level(block)),
    decreases children, 0nat,
{
    proof {
        lemma_nodes_view(children@);
        lemma_children_depth(nodes_view(children@));
    }
    let ghost cs = nodes_view(children@);
    let mut out = String::new();
    let mut i: usize = 0;
    assert(cs.take(0) =~= Seq::<NodeView>::empty());
    while i < children.len()
        invariant
            i <= children.len(),
            cs == nodes_view(children@),
            cs.len() == children@.len(),
            forall|j: int| 0 <= j < children@.len() ==> #[trigger] cs[j] == node_view(children@[j]),
            forall|j: int| 0 <= j < cs.len() ==> #[trigger] node_depth(cs[j]) <= children_depth(cs),
            levels_fit(indent, block, children_depth(cs)),
            out@ == fmt_concat(cs.take(i as int), indent as nat, opt_level(block)),
        decreases children.len() - i,
    {
        assert(decreases_to!(children => children@[i as int]));
        assert(node_depth(cs[i as int]) <= children_depth(cs));
        let part = format_node(&children[i], indent, block);
        out.append(part.as_str());
        assert(cs.take(i + 1).drop_last() =~= cs.take(i as int));
        assert(cs.take(i + 1).last() == children@[i as int]@);
        i = i + 1;
    }
    assert(cs.take(children.len() as int) =~= cs);
    out
}

/// The laid-out children of a block container at `level`, blank ones and
/// frame and text left out.
pub fn format_expanded_children(children: &Vec<SyntaxNode>, level: usize) -> (r: Vec<String>)
    requires
        levels_fit(level, None, children_depth(nodes_view(children@))),
    ensures
        views(r@) == expand_children(nodes_view(children@), level as nat),
    decreases children, 0nat,
{
    proof {
        lemma_nodes_view(children@);
        lemma_children_depth(nodes_view(children@));
    }
    let ghost cs = nodes_view(children@);
    let mut out: Vec<String> = Vec::new();
    let mut i: usize = 0;
    assert(cs.take(0) =~= Seq::<NodeView>::empty());
    assert(views(out@) =~= Seq::<Seq<char>>::empty());
    while i < children.len()
        invariant
            i <= children.len(),
            cs == nodes_view(children@),
            cs.len() == children@.len(),
            forall|j: int| 0 <= j < children@.len() ==> #[trigger] cs[j] == node_view(children@[j]),
            forall|j: int| 0 <= j < cs.len() ==> #[trigger] node_depth(cs[j]) <= children_depth(cs),
            levels_fit(level, None, children_depth(cs)),
            views(out@) == expand_children(cs.take(i as int), level as nat),
        decreases children.len() - i,
    {
        assert(cs.take(i + 1).drop_last() =~= cs.take(i as int));
        assert(cs.take(i + 1).last() == children@[i as int]@);
        let c = &children[i];
        let k = c.kind.as_str();
        if !(str_eq(k, "start_tag") || str_eq(k, "end_tag") || str_eq(k, "tag_name") || str_eq(k, "text")) {
            assert(decreases_to!(children => children@[i as int]));
            assert(node_depth(cs[i as int]) <= children_depth(cs));
            let part = format_node(c, level, None);
            let t = trim_ws(part.as_str());
            proof {
                lemma_trim_nonblank(part@);
            }
            if !t.as_str().is_empty() {
                let ghost o0 = out@;
                out.push(part);
                assert(views(out@) =~= views(o0).push(fmt_node(cs[i as int], level as nat, None)));
            }
        }
        i = i + 1;
    }
    assert(cs.take(children.len() as int) =~= cs);
    out
}

/// The inline atoms of `children`, whose content sits at level `ci`.
pub fn build_inline_atoms(children: &Vec<SyntaxNode>, ci: usize) -> (r: Vec<Option<String>>)
    requires
        levels_fit(0, Some(ci), children_depth(nodes_view(children@))),
    ensures
        atoms_view(r@) == inline_atoms(nodes_view(children@), ci as nat),
    decreases children, 0nat,
{
    proof {
        lemma_nodes_view(children@);
        lemma_children_depth(nodes_view(children@));
    }
    let ghost cs = nodes_view(children@);
    let mut atoms: Vec<Option<String>> = Vec::new();
    let mut i: usize = 0;
    assert(cs.take(0) =~= Seq::<NodeView>::empty());
    assert(atoms_view(atoms@) =~= Seq::<Option<Seq<char>>>::empty());
    while i < children.len()
        invariant
            i <= children.len(),
            cs == nodes_view(children@),
            cs.len() == children@.len(),
            forall|j: int| 0 <= j < children@.len() ==> #[trigger] cs[j] == node_view(children@[j]),
            forall|j: int| 0 <= j < cs.len() ==> #[trigger] node_depth(cs[j]) <= children_depth(cs),
            levels_fit(0, Some(ci), children_depth(cs)),
            atoms_view(atoms@) == inline_atoms(cs.take(i as int), ci as nat),
        decreases children.len() - i,
    {
        assert(cs.take(i + 1).drop_last() =~= cs.take(i as int));
        assert(cs.take(i + 1).last() == children@[i as int]@);
        let c = &children[i];
        let ghost a0 = atoms_view(atoms@);
        let k = c.kind.as_str();
        if str_eq(k, "start_tag") || str_eq(k, "end_tag") || str_eq(k, "tag_name") || str_eq(k, "comment") {
        } else if str_eq(k, "text") {
            let collapsed = collapse_whitespace(c.text.as_str());
            let words = split_words(collapsed.as_str());
            let ghost wv = views(words@);
            let mut w: usize = 0;
            assert(a0 + wv.take(0).map_values(|x: Seq<char>| Some(x)) =~= a0);
            while w < words.len()
                invariant
                    w <= words.len(),
                    wv == views(words@),
                    atoms_view(atoms@) == a0 + wv.take(w as int).map_values(|x: Seq<char>| Some(x)),
                decreases words.len() - w,
            {
                let ghost b0 = atoms_view(atoms@);
                atoms.push(Some(words[w].clone()));
                assert(atoms_view(atoms@) =~= b0.push(Some(wv[w as int])));
                assert(wv.take(w + 1).map_values(|x: Seq<char>| Some(x)) =~= wv.take(w as int).map_values(
                    |x: Seq<char>| Some(x),
                ).push(Some(wv[w as int])));
                w = w + 1;
            }
            assert(wv.take(words.len() as int) =~= wv);
        } else {
            let tag = match element_tag_name(c) {
                Some(t) => t,
                None => String::new(),
            };
            let is_el = str_eq(k, "element") || str_eq(k, "self_closing_element") || str_eq(k, "document_block")
                || str_eq(k, "body_block");
            if is_el && str_eq(tag.as_str(), "br") {
                atoms.push(None);
                assert(atoms_view(atoms@) =~= a0.push(None));
            } else if is_el && str_eq(tag.as_str(), "fr") {
                let attrs = get_attributes(c);
                let mut a = owned("<fr");
                let simple = attrs_str_simple(&attrs);
                a.append(simple.as_str());
                a.append("/>");
                let ghost av = a@;
                atoms.push(Some(a));
                assert(atoms_view(atoms@) =~= a0.push(Some(av)));
            } else {
                assert(decreases_to!(children => children@[i as int]));
                assert(node_depth(cs[i as int]) <= children_depth(cs));
                let laid = format_node(c, 0, Some(ci));
                let t = trim_ws(laid.as_str());
                if !t.as_str().is_empty() {
                    let ghost tv = t@;
                    atoms.push(Some(t));
                    assert(atoms_view(atoms@) =~= a0.push(Some(tv)));
                }
            }
        }
        i = i + 1;
    }
    assert(cs.take(children.len() as int) =~= cs);
    atoms
}

fn empty_pair_str(tag: &String, attr_str: &String) -> (r: String)
    ensures
        r@ == empty_pair(tag@, attr_str@),
{
    let mut r = owned("<");
    r.append(tag.as_str());
    r.append(attr_str.as_str());
    r.append("></");
    r.append(tag.as_str());
    r.append(">");
    r
}

fn expanded_str(ind: &String, tag: &String, attr_str: &String, body: &String) -> (r: String)
    ensures
        r@ == expanded(ind@, tag@, attr_str@, body@),
{
    let mut r = ind.clone();
    r.append("<");
    r.append(tag.as_str());
    r.append(attr_str.as_str());
    r.append(">\n");
    r.append(body.as_str());
    r.append("\n");
    r.append(ind.as_str());
    r.append("</");
    r.append(tag.as_str());
    r.append(">");
    r
}

fn prefixed(ind: &String, s: String) -> (r: String)
    ensures
        r@ == ind@ + s@,
{
    let mut r = ind.clone();
    r.append(s.as_str());
    r
}

fn layout_block_container(node: &SyntaxNode, tag: &String, attr_str: &String, indent: usize) -> (r: String)
    requires
        levels_fit(indent, None, node_depth(node@)),
        node@.kind != "self_closing_element"@,
    ensures
        r@ == ({
            let ind = indentation(indent as nat);
            if empty_of_content(node@) {
                ind + empty_pair(tag@, attr_str@)
            } else {
                let outs = expand_children(node@.children, indent as nat + 1);
                if outs.len() == 0 {
                    ind + empty_pair(tag@, attr_str@)
                } else {
                    ind + "<"@ + tag@ + attr_str@ + ">\n"@ + terminated(outs) + ind + "</"@ + tag@ + ">"@
                }
            }
        }),
    decreases node, 0nat,
{
    let ind = indent_str(indent as u128);
    if is_node_empty_of_content(node) {
        return prefixed(&ind, empty_pair_str(tag, attr_str));
    }
    let outs = format_expanded_children(&node.children, indent + 1);
    if outs.len() == 0 {
        return prefixed(&ind, empty_pair_str(tag, attr_str));
    }
    let ghost ov = views(outs@);
    let mut body = String::new();
    let mut i: usize = 0;
    assert(ov.take(0) =~= Seq::<Seq<char>>::empty());
    while i < outs.len()
        invariant
            i <= outs.len(),
            ov == views(outs@),
            body@ == terminated(ov.take(i as int)),
        decreases outs.len() - i,
    {
        let c = &outs[i];
        body.append(c.as_str());
        let v = to_chars(c.as_str());
        if !(v.len() > 0 && v[v.len() - 1] == '\n') {
            body.append("\n");
        }
        assert(ov.take(i + 1).drop_last() =~= ov.take(i as int));
        assert(ov.take(i + 1).last() == c@);
        i = i + 1;
    }
    assert(ov.take(outs.len() as int) =~= ov);
    let mut r = ind.clone();
    r.append("<");
    r.append(tag.as_str());
    r.append(attr_str.as_str());
    r.append(">\n");
    r.append(body.as_str());
    r.append(ind.as_str());
    r.append("</");
    r.append(tag.as_str());
    r.append(">");
    r
}

fn layout_prose_container(node: &SyntaxNode, tag: &String, attr_str: &String, indent: usize) -> (r: String)
    requires
        levels_fit(indent, None, node_depth(node@)),
    ensures
        r@ == ({
            let ind = indentation(indent as nat);
            if empty_of_content(node@) {
                ind + empty_pair(tag@, attr_str@)
            } else {
                let content = spec_wrap(
                    inline_atoms(node@.children, indent as nat + 1),
                    MAX_LINE_LEN as nat,
                    indent as nat + 1,
                );
                if content.len() == 0 {
                    ind + empty_pair(tag@, attr_str@)
                } else {
                    expanded(ind, tag@, attr_str@, content)
                }
            }
        }),
    decreases node, 0nat,
{
    let ind = indent_str(indent as u128);
    if is_node_empty_of_content(node) {
        return prefixed(&ind, empty_pair_str(tag, attr_str));
    }
    let atoms = build_inline_atoms(&node.children, indent + 1);
    let content = join_atoms_with_wrap(&atoms, MAX_LINE_LEN, indent + 1);
    if content.as_str().is_empty() {
        return prefixed(&ind, empty_pair_str(tag, attr_str));
    }
    expanded_str(&ind, tag, attr_str, &content)
}

fn contains_newline(s: &str) -> (b: bool)
    ensures
        b == s@.contains('\n'),
{
    let v = to_chars(s);
    let mut i: usize = 0;
    while i < v.len()
        invariant
            i <= v.len(),
            v@ == s@,
            forall|k: int| 0 <= k < i ==> v@[k] != '\n',
        decreases v.len() - i,
    {
        if v[i] == '\n' {
            assert(s@[i as int] == '\n');
            return true;
        }
        i = i + 1;
    }
    false
}

fn layout_leaf(node: &SyntaxNode, tag: &String, attr_str: &String, indent: usize, block: Option<usize>) -> (r: String)
    requires
        levels_fit(indent, block, node_depth(node@)),
    ensures
        r@ == ({
            let ind = indentation(indent as nat);
            if empty_of_content(node@) {
                if block is Some {
                    empty_pair(tag@, attr_str@)
                } else {
                    ind + empty_pair(tag@, attr_str@)
                }
            } else {
                let ci = match opt_level(block) {
                    Some(l) => l,
                    None => indent as nat,
                };
                let atoms = inline_atoms(node@.children, ci);
                let flat = spec_join_flat(atoms);
                let single = "<"@ + tag@ + attr_str@ + ">"@ + flat + "</"@ + tag@ + ">"@;
                if block is Some {
                    single
                } else if utf8_count(single) <= MAX_LINE_LEN && !flat.contains('\n') {
                    ind + single
                } else {
                    expanded(ind, tag@, attr_str@, spec_wrap(atoms, MAX_LINE_LEN as nat, indent as nat + 1))
                }
            }
        }),
    decreases node, 0nat,
{
    let ind = indent_str(indent as u128);
    if is_node_empty_of_content(node) {
        let compact = empty_pair_str(tag, attr_str);
        return if block.is_some() {
            compact
        } else {
            prefixed(&ind, compact)
        };
    }
    let ci = match block {
        Some(l) => l,
        None => indent,
    };
    let atoms = build_inline_atoms(&node.children, ci);
    let flat = join_atoms_flat(&atoms);
    let mut single = owned("<");
    single.append(tag.as_str());
    single.append(attr_str.as_str());
    single.append(">");
    single.append(flat.as_str());
    single.append("</");
    single.append(tag.as_str());
    single.append(">");
    if block.is_some() {
        single
    } else if byte_len(single.as_str()) <= MAX_LINE_LEN as u128 && !contains_newline(flat.as_str()) {
        prefixed(&ind, single)
    } else {
        let wrapped = join_atoms_with_wrap(&atoms, MAX_LINE_LEN, indent + 1);
        expanded_str(&ind, tag, attr_str, &wrapped)
    }
}

fn self_closing_str(ind: &String, tag: &String, attr_str: &String, in_block: bool) -> (r: String)
    ensures
        r@ == if in_block {
            "<"@ + tag@ + attr_str@ + "/>"@
        } else {
            ind@ + ("<"@ + tag@ + attr_str@ + "/>"@)
        },
{
    let mut sc = owned("<");
    sc.append(tag.as_str());
    sc.append(attr_str.as_str());
    sc.append("/>");
    if in_block {
        sc
    } else {
        prefixed(ind, sc)
    }
}

/// Lays out an element after its tag's behaviour.
pub fn format_element(node: &SyntaxNode, indent: usize, block: Option<usize>) -> (r: String)
    requires
        levels_fit(indent, block, node_depth(node@)),
    ensures
        r@ == fmt_element(node@, indent as nat, opt_level(block)),
    decreases node, 1nat,
{
    let tag = match element_tag_name(node) {
        Some(t) => t,
        None => String::new(),
    };
    if tag.as_str().is_empty() {
        return String::new();
    }
    let attrs = get_attributes(node);
    let ind = indent_str(indent as u128);
    let attr_str = format_attrs(&attrs, tag.as_str(), indent);
    match tag_behavior(tag.as_str()) {
        TagBehavior::CodeBlock => codeblock(node, &tag, &attr_str, indent),
        TagBehavior::Br => match block {
            Some(l) => {
                let mut r = owned("<br/>\n");
                let more = indent_str(l as u128 + 1);
                r.append(more.as_str());
                r
            },
            None => prefixed(&ind, owned("<br/>")),
        },
        TagBehavior::Fr => {
            let mut fr = owned("<fr");
            let simple = attrs_str_simple(&attrs);
            fr.append(simple.as_str());
            fr.append("/>");
            if block.is_some() {
                fr
            } else {
                prefixed(&ind, fr)
            }
        },
        TagBehavior::SelfClosingBlock => self_closing_str(&ind, &tag, &attr_str, block.is_some()),
        b => {
            if str_eq(node.kind.as_str(), "self_closing_element") {
                self_closing_str(&ind, &tag, &attr_str, block.is_some())
            } else if b == TagBehavior::ForcedExpandBlock {
                layout_block_container(node, &tag, &attr_str, indent)
            } else if b == TagBehavior::ForcedExpandInline {
                layout_prose_container(node, &tag, &attr_str, indent)
            } else {
                layout_leaf(node, &tag, &attr_str, indent, block)
            }
        },
    }
}

/// Formats a TWXML document given its syntax tree (`None` when it could not
/// be parsed): the text itself when the tree holds an error.
pub fn format_twxml(contents: &str, tree: Option<&SyntaxNode>) -> (r: String)
    requires
        tree matches Some(t) ==> node_depth(t@) < usize::MAX,
    ensures
        r@ == spec_format_twxml(
            contents@,
            match tree {
                Some(t) => Some(t@),
                None => None,
            },
        ),
{
    match tree {
        None => owned(contents),
        Some(root) => {
            if root.has_error {
                return owned(contents);
            }
            let laid = format_node(root, 0, None);
            let mut t = trim_ws(laid.as_str());
            if !t.as_str().is_empty() {
                t.append("\n");
            }
            t
        },
    }
}

} // verus!
