//! What is read from a TWXML syntax tree: the hub references it makes, the
//! tags it uses with their parents, the review around a position, and the
//! completion that fits at a position.
use vstd::prelude::*;

use crate::layout::{spec_trim, trim_ws};
use crate::model::{HubReference, ReferenceView, TagView, TwxmlTag};
use crate::multiplicity::{trim_char, trim_range};
use crate::position::LspRange;
use crate::syntax::{field_child, lemma_nodes_view, node_view, NodeView, SyntaxNode};
use crate::position::{char_len_utf8, utf8_len, LspPosition};
use crate::text::{lines, owned, spec_lines, str_eq, string_from_range, to_chars, views};
use crate::tree_query::{descend, descent_path, refs_view};

verus! {

// ---------- attributes and text ----------

/// The value node of the last attribute among `cs` named `name` (an
/// attribute node with a name, a separator and a value).
pub open spec fn last_attr(cs: Seq<NodeView>, name: Seq<char>) -> Option<NodeView>
    decreases cs.len(),
{
    if cs.len() == 0 {
        None
    } else {
        let c = cs.last();
        if c.kind == "attribute"@ && c.children.len() > 2 && c.children[0].text == name {
            Some(c.children[2])
        } else {
            last_attr(cs.drop_last(), name)
        }
    }
}

/// `s` with double quotes, then single quotes, trimmed from both ends.
pub open spec fn unquoted(s: Seq<char>) -> Seq<char> {
    trim_char(trim_char(s, '"'), '\'')
}

/// The index of the last attribute child of `n` named `name`.
pub(crate) fn last_attr_index(n: &SyntaxNode, name: &str) -> (r: Option<usize>)
    ensures
        match r {
            Some(i) => i < n.children.len() && n.children@[i as int].children.len() > 2 && last_attr(
                n@.children,
                name@,
            ) == Some(n@.children[i as int].children[2]),
            None => last_attr(n@.children, name@) is None,
        },
{
    proof {
        lemma_nodes_view(n.children@);
    }
    let ghost cs = n@.children;
    let mut k = n.children.len();
    assert(cs.take(k as int) =~= cs);
    while k > 0
        invariant
            k <= n.children.len(),
            cs == n@.children,
            cs.len() == n.children@.len(),
            forall|j: int| 0 <= j < n.children@.len() ==> #[trigger] cs[j] == node_view(n.children@[j]),
            last_attr(cs, name@) == last_attr(cs.take(k as int), name@),
        decreases k,
    {
        let c = &n.children[k - 1];
        assert(cs.take(k as int).drop_last() =~= cs.take(k - 1));
        assert(cs.take(k as int).last() == c@);
        proof {
            lemma_nodes_view(c.children@);
        }
        if str_eq(c.kind.as_str(), "attribute") && c.children.len() > 2 && str_eq(c.children[0].text.as_str(), name) {
            return Some(k - 1);
        }
        k = k - 1;
    }
    None
}

/// `s` with double quotes, then single quotes, trimmed from both ends.
fn unquote(s: &str) -> (r: String)
    ensures
        r@ == unquoted(s@),
{
    let v = to_chars(s);
    assert(v@.subrange(0, v@.len() as int) =~= v@);
    let (a, b) = trim_range(&v, 0, v.len(), '"');
    let (c, d) = trim_range(&v, a, b, '\'');
    string_from_range(&v, c, d)
}

/// `s` with double quotes, then single quotes, trimmed from both ends.
pub fn unquote_text(s: &str) -> (r: String)
    ensures
        r@ == unquoted(s@),
{
    unquote(s)
}

/// `s` with double quotes trimmed from both ends.
fn unquote_double(s: &str) -> (r: String)
    ensures
        r@ == trim_char(s@, '"'),
{
    let v = to_chars(s);
    assert(v@.subrange(0, v@.len() as int) =~= v@);
    let (a, b) = trim_range(&v, 0, v.len(), '"');
    string_from_range(&v, a, b)
}

/// The text of `n`: its own text for a `text` node, else the text of its
/// children other than start and end tags, in order.
pub open spec fn inner_text(n: NodeView) -> Seq<char>
    decreases n,
{
    if n.kind == "text"@ {
        n.text
    } else {
        inner_texts(n.children)
    }
}

/// The texts of `cs` other than start and end tags, in order.
pub open spec fn inner_texts(cs: Seq<NodeView>) -> Seq<char>
    decreases cs,
{
    if cs.len() == 0 {
        Seq::empty()
    } else {
        inner_texts(cs.drop_last()) + if cs.last().kind == "start_tag"@ || cs.last().kind == "end_tag"@ {
            Seq::empty()
        } else {
            inner_text(cs.last())
        }
    }
}

/// The text of `n` (see `inner_text`).
pub fn recursive_text(n: &SyntaxNode) -> (r: String)
    ensures
        r@ == inner_text(n@),
    decreases n,
{
    if str_eq(n.kind.as_str(), "text") {
        return n.text.clone();
    }
    proof {
        lemma_nodes_view(n.children@);
    }
    let ghost cs = n@.children;
    let mut r = String::new();
    let mut i: usize = 0;
    assert(cs.take(0) =~= Seq::<NodeView>::empty());
    while i < n.children.len()
        invariant
            i <= n.children.len(),
            cs == n@.children,
            cs.len() == n.children@.len(),
            forall|j: int| 0 <= j < n.children@.len() ==> #[trigger] cs[j] == node_view(n.children@[j]),
            r@ == inner_texts(cs.take(i as int)),
        decreases n.children.len() - i,
    {
        let c = &n.children[i];
        assert(cs.take(i + 1).drop_last() =~= cs.take(i as int));
        assert(cs.take(i + 1).last() == c@);
        if !str_eq(c.kind.as_str(), "start_tag") && !str_eq(c.kind.as_str(), "end_tag") {
            assert(decreases_to!(n => n.children));
            assert(decreases_to!(n.children => n.children@));
            assert(decreases_to!(n.children@ => n.children@[i as int]));
            let t = recursive_text(c);
            r.append(t.as_str());
        }
        i = i + 1;
    }
    assert(cs.take(i as int) =~= cs);
    r
}

// ---------- hub references ----------

/// Some child of `n` is a `tag_name` with the text `name`.
pub open spec fn has_tag_name(n: NodeView, name: Seq<char>) -> bool {
    exists|j: int| 0 <= j < n.children.len() && (#[trigger] n.children[j]).kind == "tag_name"@ && n.children[j].text == name
}

/// An element whose start tag is named `hubref`.
pub open spec fn is_hubref_element(n: NodeView) -> bool {
    n.kind == "element"@ && exists|i: int|
        0 <= i < n.children.len() && (#[trigger] n.children[i]).kind == "start_tag"@ && has_tag_name(
            n.children[i],
            "hubref"@,
        )
}

/// A self-closing element named `hubref`.
pub open spec fn is_hubref_self_closing(n: NodeView) -> bool {
    n.kind == "self_closing_element"@ && has_tag_name(n, "hubref"@)
}

/// The parent is an element whose start tag is named `review`.
pub open spec fn parent_is_review(par: Option<NodeView>) -> bool {
    match par {
        Some(p) => p.kind == "element"@ && p.children.len() > 0 && p.children[0].kind == "start_tag"@
            && match field_child(p.children[0], "name"@) {
            Some(nm) => nm.text == "review"@,
            None => false,
        },
        None => false,
    }
}

/// An element's text as a reference keeps it: none when empty, else trimmed.
pub open spec fn kept_text(t: Seq<char>) -> Option<Seq<char>> {
    if t.len() == 0 {
        None
    } else {
        Some(spec_trim(t))
    }
}

/// The reference a hubref node makes, read from the attributes of `tag`
/// (its start tag, or itself when self-closing): present when it has an
/// `id`.
pub open spec fn reference_from(
    file: Seq<char>,
    n: NodeView,
    tag: NodeView,
    text: Option<Seq<char>>,
    par: Option<NodeView>,
) -> Option<ReferenceView> {
    match last_attr(tag.children, "id"@) {
        Some(v) => Some(
            ReferenceView {
                name: unquoted(v.text),
                file,
                range: v.range,
                field: match last_attr(tag.children, "field"@) {
                    Some(f) => Some(unquoted(f.text)),
                    None => None,
                },
                text,
                tag_range: n.range,
                is_reviewed: parent_is_review(par),
            },
        ),
        None => None,
    }
}

/// The reference made by the node `n` (whose parent is `par`) of the file
/// `file`, if it is a hubref with an `id`.
pub open spec fn reference_of(file: Seq<char>, n: NodeView, par: Option<NodeView>) -> Option<ReferenceView> {
    if is_hubref_element(n) {
        reference_from(file, n, n.children[0], kept_text(inner_text(n)), par)
    } else if is_hubref_self_closing(n) {
        reference_from(file, n, n, None, par)
    } else {
        None
    }
}

/// The references made in the tree under `n`, in document order.
pub open spec fn references_in(file: Seq<char>, n: NodeView, par: Option<NodeView>) -> Seq<ReferenceView>
    decreases n,
{
    (match reference_of(file, n, par) {
        Some(r) => seq![r],
        None => Seq::empty(),
    }) + references_in_children(file, n.children, n)
}

/// The references made in the subtrees `cs` of `parent`, in order.
pub open spec fn references_in_children(file: Seq<char>, cs: Seq<NodeView>, parent: NodeView) -> Seq<
    ReferenceView,
>
    decreases cs,
{
    if cs.len() == 0 {
        Seq::empty()
    } else {
        references_in_children(file, cs.drop_last(), parent) + references_in(file, cs.last(), Some(parent))
    }
}

/// The view of an optional node reference.
pub open spec fn opt_node(o: Option<&SyntaxNode>) -> Option<NodeView> {
    match o {
        Some(x) => Some(node_view(*x)),
        None => None,
    }
}

/// The views of a sequence of references.
pub open spec fn references_view(s: Seq<HubReference>) -> Seq<ReferenceView> {
    s.map_values(|r: HubReference| r@)
}

fn tag_named(n: &SyntaxNode, name: &str) -> (b: bool)
    ensures
        b == has_tag_name(n@, name@),
{
    proof {
        lemma_nodes_view(n.children@);
    }
    let ghost cs = n@.children;
    let mut i: usize = 0;
    while i < n.children.len()
        invariant
            i <= n.children.len(),
            cs == n@.children,
            cs.len() == n.children@.len(),
            forall|j: int| 0 <= j < n.children@.len() ==> #[trigger] cs[j] == node_view(n.children@[j]),
            forall|j: int| 0 <= j < i ==> !((#[trigger] cs[j]).kind == "tag_name"@ && cs[j].text == name@),
        decreases n.children.len() - i,
    {
        let c = &n.children[i];
        assert(cs[i as int] == c@);
        if str_eq(c.kind.as_str(), "tag_name") && str_eq(c.text.as_str(), name) {
            return true;
        }
        i = i + 1;
    }
    false
}

fn hubref_element(n: &SyntaxNode) -> (b: bool)
    ensures
        b == is_hubref_element(n@),
{
    if !str_eq(n.kind.as_str(), "element") {
        return false;
    }
    proof {
        lemma_nodes_view(n.children@);
    }
    let ghost cs = n@.children;
    let mut i: usize = 0;
    while i < n.children.len()
        invariant
            i <= n.children.len(),
            n@.kind == "element"@,
            cs == n@.children,
            cs.len() == n.children@.len(),
            forall|j: int| 0 <= j < n.children@.len() ==> #[trigger] cs[j] == node_view(n.children@[j]),
            forall|j: int|
                0 <= j < i ==> !((#[trigger] cs[j]).kind == "start_tag"@ && has_tag_name(cs[j], "hubref"@)),
        decreases n.children.len() - i,
    {
        let c = &n.children[i];
        assert(cs[i as int] == c@);
        if str_eq(c.kind.as_str(), "start_tag") && tag_named(c, "hubref") {
            return true;
        }
        i = i + 1;
    }
    false
}

fn review_parent(par: Option<&SyntaxNode>) -> (b: bool)
    ensures
        b == parent_is_review(opt_node(par)),
{
    match par {
        Some(p) => {
            proof {
                lemma_nodes_view(p.children@);
            }
            if !str_eq(p.kind.as_str(), "element") || p.children.len() == 0 {
                return false;
            }
            let st = &p.children[0];
            if !str_eq(st.kind.as_str(), "start_tag") {
                return false;
            }
            proof {
                lemma_nodes_view(st.children@);
            }
            match st.child_by_field_name("name") {
                Some(i) => str_eq(st.children[i].text.as_str(), "review"),
                None => false,
            }
        },
        None => false,
    }
}

fn make_reference(
    file: &str,
    n: &SyntaxNode,
    tag: &SyntaxNode,
    text: Option<String>,
    par: Option<&SyntaxNode>,
) -> (r: Option<HubReference>)
    ensures
        match r {
            Some(x) => reference_from(file@, n@, tag@, crate::model::opt_view(text), opt_node(par)) == Some(x@),
            None => reference_from(file@, n@, tag@, crate::model::opt_view(text), opt_node(par)) is None,
        },
{
    proof {
        lemma_nodes_view(tag.children@);
    }
    match last_attr_index(tag, "id") {
        Some(i) => {
            let a = &tag.children[i];
            proof {
                lemma_nodes_view(a.children@);
            }
            let value = &a.children[2];
            let field = match last_attr_index(tag, "field") {
                Some(j) => {
                    let f = &tag.children[j];
                    proof {
                        lemma_nodes_view(f.children@);
                    }
                    Some(unquote(f.children[2].text.as_str()))
                },
                None => None,
            };
            let reviewed = review_parent(par);
            Some(
                HubReference {
                    name: unquote(value.text.as_str()),
                    file: owned(file),
                    range: value.range,
                    field,
                    text,
                    tag_range: n.range,
                    is_reviewed: reviewed,
                },
            )
        },
        None => None,
    }
}

fn reference_at(file: &str, n: &SyntaxNode, par: Option<&SyntaxNode>) -> (r: Option<HubReference>)
    ensures
        match r {
            Some(x) => reference_of(file@, n@, opt_node(par)) == Some(x@),
            None => reference_of(file@, n@, opt_node(par)) is None,
        },
{
    proof {
        lemma_nodes_view(n.children@);
    }
    if hubref_element(n) {
        let t = recursive_text(n);
        let kept = if t.as_str().is_empty() {
            None
        } else {
            Some(trim_ws(t.as_str()))
        };
        assert(crate::model::opt_view(kept) == kept_text(inner_text(n@)));
        make_reference(file, n, &n.children[0], kept, par)
    } else if str_eq(n.kind.as_str(), "self_closing_element") && tag_named(n, "hubref") {
        make_reference(file, n, n, None, par)
    } else {
        None
    }
}

fn collect_references(
    file: &str,
    n: &SyntaxNode,
    par: Option<&SyntaxNode>,
    out: &mut Vec<HubReference>,
)
    ensures
        references_view(final(out)@) == references_view(old(out)@) + references_in(file@, n@, opt_node(par)),
    decreases n,
{
    let ghost o0 = references_view(out@);
    match reference_at(file, n, par) {
        Some(r) => {
            out.push(r);
        },
        None => {},
    }
    let ghost o1 = references_view(out@);
    assert(o1 =~= o0 + match reference_of(file@, n@, opt_node(par)) {
        Some(r) => seq![r],
        None => Seq::<ReferenceView>::empty(),
    });
    proof {
        lemma_nodes_view(n.children@);
    }
    let ghost cs = n@.children;
    let mut i: usize = 0;
    assert(cs.take(0) =~= Seq::<NodeView>::empty());
    while i < n.children.len()
        invariant
            i <= n.children.len(),
            cs == n@.children,
            cs.len() == n.children@.len(),
            forall|j: int| 0 <= j < n.children@.len() ==> #[trigger] cs[j] == node_view(n.children@[j]),
            references_view(out@) == o1 + references_in_children(file@, cs.take(i as int), n@),
        decreases n.children.len() - i,
    {
        let c = &n.children[i];
        assert(cs.take(i + 1).drop_last() =~= cs.take(i as int));
        assert(cs.take(i + 1).last() == c@);
        assert(decreases_to!(n => n.children));
        assert(decreases_to!(n.children => n.children@));
        assert(decreases_to!(n.children@ => n.children@[i as int]));
        let ghost before = references_view(out@);
        collect_references(file, c, Some(n), out);
        assert(opt_node(Some(n)) == Some(n@));
        assert(references_view(out@) =~= o1 + references_in_children(file@, cs.take(i + 1), n@));
        i = i + 1;
    }
    assert(cs.take(i as int) =~= cs);
}

/// The hub references the TWXML tree `root` of the file `file` makes, in
/// document order: each hubref element or self-closing hubref with an `id`
/// attribute gives one, with its `field`, its trimmed text (elements only,
/// when not empty), its range and whether a review element encloses it.
pub fn parse_twxml_ast(file: &str, root: &SyntaxNode) -> (r: Vec<HubReference>)
    ensures
        references_view(r@) == references_in(file@, root@, None),
{
    let mut out: Vec<HubReference> = Vec::new();
    assert(references_view(out@) =~= Seq::<ReferenceView>::empty());
    collect_references(file, root, None, &mut out);
    assert(opt_node(None) == None::<NodeView>);
    assert(references_view(out@) =~= references_in(file@, root@, None));
    out
}

// ---------- tags ----------

/// The tag name a parent gives its child: an element's start tag name, `body`
/// for a body block, `meta` for a meta tag; none otherwise.
pub open spec fn parent_tag_name(p: Option<NodeView>) -> Option<Seq<char>> {
    match p {
        Some(q) => if q.kind == "element"@ {
            if q.children.len() > 0 && q.children[0].kind == "start_tag"@ {
                match field_child(q.children[0], "name"@) {
                    Some(nm) => Some(nm.text),
                    None => None,
                }
            } else {
                None
            }
        } else if q.kind == "body_block"@ {
            Some("body"@)
        } else if q.kind == "meta_tag"@ {
            Some("meta"@)
        } else {
            None
        },
        None => None,
    }
}

/// The tag a `tag_name` node `n` stands for, given its parent, grandparent
/// and great-grandparent: the name of an element (through its start tag)
/// or of a self-closing element, with the tag name of that element's
/// parent.
pub open spec fn tag_of(
    file: Seq<char>,
    n: NodeView,
    par: Option<NodeView>,
    gp: Option<NodeView>,
    ggp: Option<NodeView>,
) -> Option<TagView> {
    if n.kind == "tag_name"@ {
        match par {
            Some(p) => if p.kind == "start_tag"@ {
                match gp {
                    Some(g) => if g.kind == "element"@ {
                        Some(TagView { name: n.text, file, range: n.range, parent_name: parent_tag_name(ggp) })
                    } else {
                        None
                    },
                    None => None,
                }
            } else if p.kind == "self_closing_element"@ {
                Some(TagView { name: n.text, file, range: n.range, parent_name: parent_tag_name(gp) })
            } else {
                None
            },
            None => None,
        }
    } else {
        None
    }
}

/// The tags of the tree under `n`, in document order.
pub open spec fn tags_in(
    file: Seq<char>,
    n: NodeView,
    par: Option<NodeView>,
    gp: Option<NodeView>,
    ggp: Option<NodeView>,
) -> Seq<TagView>
    decreases n,
{
    (match tag_of(file, n, par, gp, ggp) {
        Some(t) => seq![t],
        None => Seq::empty(),
    }) + tags_in_children(file, n.children, n, par, gp)
}

/// The tags of the subtrees `cs` of `parent`, in order.
pub open spec fn tags_in_children(
    file: Seq<char>,
    cs: Seq<NodeView>,
    parent: NodeView,
    gp: Option<NodeView>,
    ggp: Option<NodeView>,
) -> Seq<TagView>
    decreases cs,
{
    if cs.len() == 0 {
        Seq::empty()
    } else {
        tags_in_children(file, cs.drop_last(), parent, gp, ggp) + tags_in(file, cs.last(), Some(parent), gp, ggp)
    }
}

/// The meta and body blocks among `cs`, as tags whose parent is `document`.
pub open spec fn block_tags(file: Seq<char>, cs: Seq<NodeView>) -> Seq<TagView>
    decreases cs.len(),
{
    if cs.len() == 0 {
        Seq::empty()
    } else {
        let c = cs.last();
        block_tags(file, cs.drop_last()) + if c.kind == "meta_tag"@ {
            seq![TagView { name: "meta"@, file, range: c.range, parent_name: Some("document"@) }]
        } else if c.kind == "body_block"@ {
            seq![TagView { name: "body"@, file, range: c.range, parent_name: Some("document"@) }]
        } else {
            Seq::empty()
        }
    }
}

/// The node that holds the document's blocks: the first child of a
/// `source_file` root, else the root itself.
pub open spec fn blocks_holder(root: NodeView) -> Option<NodeView> {
    if root.kind == "source_file"@ {
        if root.children.len() > 0 {
            Some(root.children[0])
        } else {
            None
        }
    } else {
        Some(root)
    }
}

/// All tags of the TWXML tree `root` of the file `file`: its meta and body
/// blocks first, then each named element and self-closing element in
/// document order.
pub open spec fn all_tags(file: Seq<char>, root: NodeView) -> Seq<TagView> {
    (match blocks_holder(root) {
        Some(h) => block_tags(file, h.children),
        None => Seq::empty(),
    }) + tags_in(file, root, None, None, None)
}

/// The views of a sequence of tags.
pub open spec fn tags_view(s: Seq<TwxmlTag>) -> Seq<TagView> {
    s.map_values(|t: TwxmlTag| t@)
}

fn parent_tag(p: Option<&SyntaxNode>) -> (r: Option<String>)
    ensures
        crate::model::opt_view(r) == parent_tag_name(opt_node(p)),
{
    match p {
        Some(q) => {
            proof {
                lemma_nodes_view(q.children@);
            }
            if str_eq(q.kind.as_str(), "element") {
                if q.children.len() > 0 && str_eq(q.children[0].kind.as_str(), "start_tag") {
                    let st = &q.children[0];
                    proof {
                        lemma_nodes_view(st.children@);
                    }
                    match st.child_by_field_name("name") {
                        Some(i) => Some(st.children[i].text.clone()),
                        None => None,
                    }
                } else {
                    None
                }
            } else if str_eq(q.kind.as_str(), "body_block") {
                Some(owned("body"))
            } else if str_eq(q.kind.as_str(), "meta_tag") {
                Some(owned("meta"))
            } else {
                None
            }
        },
        None => None,
    }
}

fn tag_at(
    file: &str,
    n: &SyntaxNode,
    par: Option<&SyntaxNode>,
    gp: Option<&SyntaxNode>,
    ggp: Option<&SyntaxNode>,
) -> (r: Option<TwxmlTag>)
    ensures
        match r {
            Some(t) => tag_of(file@, n@, opt_node(par), opt_node(gp), opt_node(ggp)) == Some(t@),
            None => tag_of(file@, n@, opt_node(par), opt_node(gp), opt_node(ggp)) is None,
        },
{
    if !str_eq(n.kind.as_str(), "tag_name") {
        return None;
    }
    match par {
        Some(p) => {
            if str_eq(p.kind.as_str(), "start_tag") {
                match gp {
                    Some(g) => {
                        if str_eq(g.kind.as_str(), "element") {
                            Some(
                                TwxmlTag {
                                    name: n.text.clone(),
                                    file: owned(file),
                                    range: n.range,
                                    parent_name: parent_tag(ggp),
                                },
                            )
                        } else {
                            None
                        }
                    },
                    None => None,
                }
            } else if str_eq(p.kind.as_str(), "self_closing_element") {
                Some(TwxmlTag { name: n.text.clone(), file: owned(file), range: n.range, parent_name: parent_tag(gp) })
            } else {
                None
            }
        },
        None => None,
    }
}

fn collect_tags(
    file: &str,
    n: &SyntaxNode,
    par: Option<&SyntaxNode>,
    gp: Option<&SyntaxNode>,
    ggp: Option<&SyntaxNode>,
    out: &mut Vec<TwxmlTag>,
)
    ensures
        tags_view(final(out)@) == tags_view(old(out)@) + tags_in(
            file@,
            n@,
            opt_node(par),
            opt_node(gp),
            opt_node(ggp),
        ),
    decreases n,
{
    let ghost o0 = tags_view(out@);
    match tag_at(file, n, par, gp, ggp) {
        Some(t) => {
            out.push(t);
        },
        None => {},
    }
    let ghost o1 = tags_view(out@);
    assert(o1 =~= o0 + match tag_of(file@, n@, opt_node(par), opt_node(gp), opt_node(ggp)) {
        Some(t) => seq![t],
        None => Seq::<TagView>::empty(),
    });
    proof {
        lemma_nodes_view(n.children@);
    }
    let ghost cs = n@.children;
    let mut i: usize = 0;
    assert(cs.take(0) =~= Seq::<NodeView>::empty());
    while i < n.children.len()
        invariant
            i <= n.children.len(),
            cs == n@.children,
            cs.len() == n.children@.len(),
            forall|j: int| 0 <= j < n.children@.len() ==> #[trigger] cs[j] == node_view(n.children@[j]),
            tags_view(out@) == o1 + tags_in_children(file@, cs.take(i as int), n@, opt_node(par), opt_node(gp)),
        decreases n.children.len() - i,
    {
        let c = &n.children[i];
        assert(cs.take(i + 1).drop_last() =~= cs.take(i as int));
        assert(cs.take(i + 1).last() == c@);
        assert(decreases_to!(n => n.children));
        assert(decreases_to!(n.children => n.children@));
        assert(decreases_to!(n.children@ => n.children@[i as int]));
        collect_tags(file, c, Some(n), par, gp, out);
        assert(opt_node(Some(n)) == Some(n@));
        assert(tags_view(out@) =~= o1 + tags_in_children(file@, cs.take(i + 1), n@, opt_node(par), opt_node(gp)));
        i = i + 1;
    }
    assert(cs.take(i as int) =~= cs);
}

fn collect_block_tags(file: &str, h: &SyntaxNode, out: &mut Vec<TwxmlTag>)
    ensures
        tags_view(final(out)@) == tags_view(old(out)@) + block_tags(file@, h@.children),
{
    proof {
        lemma_nodes_view(h.children@);
    }
    let ghost cs = h@.children;
    let ghost o0 = tags_view(out@);
    let mut i: usize = 0;
    assert(cs.take(0) =~= Seq::<NodeView>::empty());
    while i < h.children.len()
        invariant
            i <= h.children.len(),
            cs == h@.children,
            cs.len() == h.children@.len(),
            forall|j: int| 0 <= j < h.children@.len() ==> #[trigger] cs[j] == node_view(h.children@[j]),
            tags_view(out@) == o0 + block_tags(file@, cs.take(i as int)),
        decreases h.children.len() - i,
    {
        let c = &h.children[i];
        assert(cs.take(i + 1).drop_last() =~= cs.take(i as int));
        assert(cs.take(i + 1).last() == c@);
        let ghost before = tags_view(out@);
        if str_eq(c.kind.as_str(), "meta_tag") {
            let t = TwxmlTag { name: owned("meta"), file: owned(file), range: c.range, parent_name: Some(owned("document")) };
            assert(t@ == TagView { name: "meta"@, file: file@, range: c@.range, parent_name: Some("document"@) });
            out.push(t);
            assert(tags_view(out@) =~= before.push(t@));
        } else if str_eq(c.kind.as_str(), "body_block") {
            let t = TwxmlTag { name: owned("body"), file: owned(file), range: c.range, parent_name: Some(owned("document")) };
            assert(t@ == TagView { name: "body"@, file: file@, range: c@.range, parent_name: Some("document"@) });
            out.push(t);
            assert(tags_view(out@) =~= before.push(t@));
        }
        assert(tags_view(out@) =~= o0 + block_tags(file@, cs.take(i + 1)));
        i = i + 1;
    }
    assert(cs.take(i as int) =~= cs);
}

/// All tags of the TWXML tree `root` of the file `file` (see `all_tags`).
pub fn get_all_twxml_tags(file: &str, root: &SyntaxNode) -> (r: Vec<TwxmlTag>)
    ensures
        tags_view(r@) == all_tags(file@, root@),
{
    let mut out: Vec<TwxmlTag> = Vec::new();
    assert(tags_view(out@) =~= Seq::<TagView>::empty());
    proof {
        lemma_nodes_view(root.children@);
    }
    if str_eq(root.kind.as_str(), "source_file") {
        if root.children.len() > 0 {
            collect_block_tags(file, &root.children[0], &mut out);
        }
    } else {
        collect_block_tags(file, root, &mut out);
    }
    let ghost o1 = tags_view(out@);
    collect_tags(file, root, None, None, None, &mut out);
    assert(opt_node(None) == None::<NodeView>);
    assert(tags_view(out@) =~= all_tags(file@, root@));
    out
}

// ---------- reviews ----------

/// The name an element's start tag (its first child) gives it.
pub open spec fn element_name(e: NodeView) -> Option<Seq<char>> {
    if e.children.len() > 0 {
        match field_child(e.children[0], "name"@) {
            Some(nm) => Some(nm.text),
            None => None,
        }
    } else {
        None
    }
}

/// Scanning `path` upward from index `k - 1`, the index of the first
/// element or self-closing element.
pub open spec fn element_up(path: Seq<NodeView>, k: int) -> Option<int>
    decreases k,
{
    if k <= 0 || k > path.len() {
        None
    } else if path[k - 1].kind == "element"@ || path[k - 1].kind == "self_closing_element"@ {
        Some(k - 1)
    } else {
        element_up(path, k - 1)
    }
}

/// The first of `cs` that is an element named `hubref`.
pub open spec fn first_hubref_child(cs: Seq<NodeView>) -> Option<NodeView>
    decreases cs.len(),
{
    if cs.len() == 0 {
        None
    } else if cs[0].kind == "element"@ && element_name(cs[0]) == Some("hubref"@) {
        Some(cs[0])
    } else {
        first_hubref_child(cs.drop_first())
    }
}

/// For an element `node` (child of `parent`): a review element gives its
/// range and the start tag of its first hubref child; a hubref element
/// inside a review element gives the review's range and its own start tag.
pub open spec fn review_and_hubref(node: NodeView, parent: Option<NodeView>) -> Option<(LspRange, NodeView)> {
    if node.kind != "element"@ {
        None
    } else {
        match element_name(node) {
            Some(nm) => if nm == "review"@ {
                match first_hubref_child(node.children) {
                    Some(c) => Some((node.range, c.children[0])),
                    None => None,
                }
            } else if nm == "hubref"@ {
                match parent {
                    Some(p) => if p.kind == "element"@ && element_name(p) == Some("review"@) {
                        Some((p.range, node.children[0]))
                    } else {
                        None
                    },
                    None => None,
                }
            } else {
                None
            },
            None => None,
        }
    }
}

/// The review found along the descent path `path`: starting from the
/// innermost element on the path (else the root), the review range, the
/// range of the hub node found, its `id` and `field` attributes (read from
/// its first child, or itself when it has none; both required) and its text.
pub open spec fn review_on_path(path: Seq<NodeView>) -> Option<(LspRange, LspRange, Seq<char>, Seq<char>, Seq<char>)> {
    let (node, parent) = match element_up(path, path.len() as int) {
        Some(j) => (path[j], if j > 0 { Some(path[j - 1]) } else { None }),
        None => (path[0], None),
    };
    match review_and_hubref(node, parent) {
        Some((rr, h)) => {
            let st = if h.children.len() > 0 { h.children[0] } else { h };
            match (last_attr(st.children, "id"@), last_attr(st.children, "field"@)) {
                (Some(i), Some(f)) => Some((rr, h.range, unquoted(i.text), unquoted(f.text), inner_text(h))),
                _ => None,
            }
        },
        None => None,
    }
}

fn element_index(path: &Vec<&SyntaxNode>) -> (r: Option<usize>)
    ensures
        match r {
            Some(j) => j < path@.len() && element_up(refs_view(path@), path@.len() as int) == Some(j as int),
            None => element_up(refs_view(path@), path@.len() as int) is None,
        },
{
    let ghost pv = refs_view(path@);
    let mut i = path.len();
    while i > 0
        invariant
            i <= path@.len(),
            pv == refs_view(path@),
            element_up(pv, path@.len() as int) == element_up(pv, i as int),
        decreases i,
    {
        let n: &SyntaxNode = path[i - 1];
        assert(pv[i - 1] == n@);
        if str_eq(n.kind.as_str(), "element") || str_eq(n.kind.as_str(), "self_closing_element") {
            return Some(i - 1);
        }
        i = i - 1;
    }
    None
}

fn name_of_element(e: &SyntaxNode) -> (r: Option<String>)
    ensures
        crate::model::opt_view(r) == element_name(e@),
{
    proof {
        lemma_nodes_view(e.children@);
    }
    if e.children.len() > 0 {
        let st = &e.children[0];
        proof {
            lemma_nodes_view(st.children@);
        }
        match st.child_by_field_name("name") {
            Some(i) => Some(st.children[i].text.clone()),
            None => None,
        }
    } else {
        None
    }
}

fn named(e: &SyntaxNode, name: &str) -> (b: bool)
    ensures
        b == (element_name(e@) == Some(name@)),
{
    match name_of_element(e) {
        Some(n) => str_eq(n.as_str(), name),
        None => false,
    }
}

fn hubref_child_index(node: &SyntaxNode) -> (r: Option<usize>)
    ensures
        match r {
            Some(i) => i < node.children.len() && node@.children[i as int].children.len() > 0
                && first_hubref_child(node@.children) == Some(node@.children[i as int]),
            None => first_hubref_child(node@.children) is None,
        },
{
    proof {
        lemma_nodes_view(node.children@);
    }
    let ghost cs = node@.children;
    let mut i: usize = 0;
    assert(cs.skip(0) =~= cs);
    while i < node.children.len()
        invariant
            i <= node.children.len(),
            cs == node@.children,
            cs.len() == node.children@.len(),
            forall|j: int| 0 <= j < node.children@.len() ==> #[trigger] cs[j] == node_view(node.children@[j]),
            first_hubref_child(cs) == first_hubref_child(cs.skip(i as int)),
        decreases node.children.len() - i,
    {
        assert(cs.skip(i as int).drop_first() =~= cs.skip(i + 1));
        assert(cs.skip(i as int)[0] == cs[i as int]);
        let c = &node.children[i];
        if str_eq(c.kind.as_str(), "element") && named(c, "hubref") {
            return Some(i);
        }
        i = i + 1;
    }
    None
}

fn find_review_and_hubref<'a>(node: &'a SyntaxNode, parent: Option<&'a SyntaxNode>) -> (r: Option<
    (LspRange, &'a SyntaxNode),
>)
    ensures
        match r {
            Some((rr, h)) => review_and_hubref(node@, opt_node(parent)) == Some((rr, h@)),
            None => review_and_hubref(node@, opt_node(parent)) is None,
        },
{
    if !str_eq(node.kind.as_str(), "element") {
        return None;
    }
    proof {
        lemma_nodes_view(node.children@);
    }
    match name_of_element(node) {
        Some(nm) => {
            if str_eq(nm.as_str(), "review") {
                match hubref_child_index(node) {
                    Some(i) => {
                        let c = &node.children[i];
                        proof {
                            lemma_nodes_view(c.children@);
                        }
                        Some((node.range, &c.children[0]))
                    },
                    None => None,
                }
            } else if str_eq(nm.as_str(), "hubref") {
                match parent {
                    Some(p) => {
                        if str_eq(p.kind.as_str(), "element") && named(p, "review") {
                            Some((p.range, &node.children[0]))
                        } else {
                            None
                        }
                    },
                    None => None,
                }
            } else {
                None
            }
        },
        None => None,
    }
}

/// The review at `pos` in the TWXML tree `root` (see `review_on_path`).
pub fn find_review_at_position(root: &SyntaxNode, pos: LspPosition) -> (r: Option<
    (LspRange, LspRange, String, String, String),
>)
    ensures
        match r {
            Some((a, b, c, d, e)) => review_on_path(descent_path(root@, pos)) == Some((a, b, c@, d@, e@)),
            None => review_on_path(descent_path(root@, pos)) is None,
        },
{
    let path = descend(root, pos);
    let ghost pv = refs_view(path@);
    let (node, parent): (&SyntaxNode, Option<&SyntaxNode>) = match element_index(&path) {
        Some(j) => {
            assert(pv[j as int] == path@[j as int]@);
            if j > 0 {
                assert(pv[j - 1] == path@[j - 1]@);
                (path[j], Some(path[j - 1]))
            } else {
                (path[j], None)
            }
        },
        None => {
            assert(pv[0] == path@[0]@);
            (path[0], None)
        },
    };
    match find_review_and_hubref(node, parent) {
        Some((rr, h)) => {
            proof {
                lemma_nodes_view(h.children@);
            }
            let st: &SyntaxNode = if h.children.len() > 0 {
                &h.children[0]
            } else {
                h
            };
            proof {
                lemma_nodes_view(st.children@);
            }
            match last_attr_index(st, "id") {
                Some(i) => match last_attr_index(st, "field") {
                    Some(f) => {
                        let ia = &st.children[i];
                        let fa = &st.children[f];
                        proof {
                            lemma_nodes_view(ia.children@);
                            lemma_nodes_view(fa.children@);
                        }
                        let id = unquote(ia.children[2].text.as_str());
                        let field = unquote(fa.children[2].text.as_str());
                        let text = recursive_text(h);
                        Some((rr, h.range, id, field, text))
                    },
                    None => None,
                },
                None => None,
            }
        },
        None => None,
    }
}

// ---------- completion ----------

/// Whether `c` is alphabetic or numeric in Unicode's tables (a name for what
/// `char::is_alphanumeric` returns).
pub uninterp spec fn alphanumeric(c: char) -> bool;

/// `char::is_alphanumeric`. The contract names the result `alphanumeric`
/// and states it for ASCII only (letters and digits); Unicode's tables for
/// the other characters are not restated.
#[verifier::external_body]
pub(crate) fn is_alphanumeric(c: char) -> (b: bool)
    ensures
        b == alphanumeric(c),
        (c as u32) < 128 ==> (b == (('a' <= c && c <= 'z') || ('A' <= c && c <= 'Z') || ('0' <= c && c <= '9'))),
{
    c.is_alphanumeric()
}

/// A character that may appear in a tag name being typed.
pub open spec fn is_name_char(c: char) -> bool {
    alphanumeric(c) || c == '_'
}

/// The number of characters of `line` that make up its first `col` bytes,
/// if `col` falls between two characters.
pub open spec fn chars_in_bytes(line: Seq<char>, col: int) -> Option<nat>
    decreases line.len(),
{
    if col == 0 {
        Some(0)
    } else if col < 0 || line.len() == 0 {
        None
    } else {
        match chars_in_bytes(line.drop_first(), col - utf8_len(line[0])) {
            Some(k) => Some(k + 1),
            None => None,
        }
    }
}

/// The number of UTF-8 bytes of `line`.
pub open spec fn byte_count(line: Seq<char>) -> nat
    decreases line.len(),
{
    if line.len() == 0 {
        0
    } else {
        utf8_len(line[0]) + byte_count(line.drop_first())
    }
}


/// Adding a character adds its UTF-8 width.
pub proof fn lemma_byte_count_push(s: Seq<char>, c: char)
    ensures
        byte_count(s.push(c)) == byte_count(s) + utf8_len(c),
    decreases s.len(),
{
    if s.len() == 0 {
        assert(s.push(c).drop_first() =~= Seq::<char>::empty());
        assert(s.push(c)[0] == c);
        assert(byte_count(Seq::<char>::empty()) == 0);
        assert(byte_count(s.push(c)) == utf8_len(c) + byte_count(s.push(c).drop_first()));
    } else {
        lemma_byte_count_push(s.drop_first(), c);
        assert(s.push(c).drop_first() =~= s.drop_first().push(c));
        assert(s.push(c)[0] == s[0]);
        assert(byte_count(s.push(c)) == utf8_len(s[0]) + byte_count(s.push(c).drop_first()));
    }
}

/// The characters counted by `chars_in_bytes` make up exactly the bytes.
pub proof fn lemma_chars_in_bytes(line: Seq<char>, col: int)
    ensures
        chars_in_bytes(line, col) matches Some(k) ==> k <= line.len() && byte_count(line.take(k as int)) == col,
    decreases line.len(),
{
    if col == 0 {
        assert(line.take(0) =~= Seq::<char>::empty());
    } else if col > 0 && line.len() > 0 {
        let rest = line.drop_first();
        let c2 = col - utf8_len(line[0]);
        lemma_chars_in_bytes(rest, c2);
        match chars_in_bytes(rest, c2) {
            Some(k) => {
                assert(line.take(k + 1 as int).drop_first() =~= rest.take(k as int));
                assert(line.take(k + 1 as int)[0] == line[0]);
            },
            None => {},
        }
    }
}

/// A longer prefix has at least as many bytes.
pub proof fn lemma_byte_count_mono(s: Seq<char>, i: int, j: int)
    requires
        0 <= i <= j <= s.len(),
    ensures
        byte_count(s.take(i)) <= byte_count(s.take(j)),
    decreases j - i,
{
    if i < j {
        lemma_byte_count_mono(s, i, j - 1);
        lemma_byte_count_push(s.take(j - 1), s[j - 1]);
        assert(s.take(j) =~= s.take(j - 1).push(s[j - 1]));
    }
}

/// The bytes before a character inside the first `col` bytes number at
/// most `col`.
pub proof fn lemma_byte_count_bound(v: Seq<char>, i: int, k: int, col: int)
    requires
        0 <= i <= k,
        chars_in_bytes(v, col) == Some(k as nat),
    ensures
        byte_count(v.take(i)) <= col,
{
    lemma_chars_in_bytes(v, col);
    lemma_byte_count_mono(v, i, k);
}

/// The cursor does not fall inside a character of its line: it lies past
/// the line's end or between two characters of it.
pub open spec fn cursor_between_chars(s: Seq<char>, pos: LspPosition) -> bool {
    let ls = spec_lines(s);
    pos.line < ls.len() && pos.character <= byte_count(ls[pos.line as int]) ==> chars_in_bytes(
        ls[pos.line as int],
        pos.character as int,
    ) is Some
}

/// The part of the cursor's line before the cursor, when the line exists
/// and the cursor lies within it.
pub open spec fn text_before_cursor(s: Seq<char>, pos: LspPosition) -> Option<Seq<char>> {
    let ls = spec_lines(s);
    if pos.line < ls.len() {
        match chars_in_bytes(ls[pos.line as int], pos.character as int) {
            Some(k) => Some(ls[pos.line as int].take(k as int)),
            None => None,
        }
    } else {
        None
    }
}

/// The index of the last `<` of `s`.
pub open spec fn last_lt(s: Seq<char>) -> Option<int>
    decreases s.len(),
{
    if s.len() == 0 {
        None
    } else if s.last() == '<' {
        Some(s.len() - 1)
    } else {
        last_lt(s.drop_last())
    }
}

/// `s` ends with `!--`.
pub open spec fn ends_with_comment_open(s: Seq<char>) -> bool {
    s.len() >= 3 && s[s.len() - 3] == '!' && s[s.len() - 2] == '-' && s[s.len() - 1] == '-'
}

/// The text before the cursor ends with `<` and a partial tag name: the
/// part from its last `<` does not end with `/` or `!--`, and every
/// character after the `<` may belong to a tag name.
pub open spec fn opens_tag(before: Seq<char>) -> bool {
    match last_lt(before) {
        Some(i) => {
            let after = before.skip(i);
            after.last() != '/' && !ends_with_comment_open(after) && forall|j: int|
                1 <= j < after.len() ==> is_name_char(#[trigger] after[j])
        },
        None => false,
    }
}

/// The tag name a container gives what it holds: an element's name, or
/// `body`, `meta`, `document` for those blocks.
pub open spec fn container_name(q: NodeView) -> Option<Seq<char>> {
    if q.kind == "element"@ {
        element_name(q)
    } else if q.kind == "body_block"@ {
        Some("body"@)
    } else if q.kind == "meta_tag"@ {
        Some("meta"@)
    } else if q.kind == "document_block"@ {
        Some("document"@)
    } else {
        None
    }
}

/// Scanning `path` upward from index `k - 1`, the first container name.
pub open spec fn container_up(path: Seq<NodeView>, k: int) -> Option<Seq<char>>
    decreases k,
{
    if k <= 0 || k > path.len() {
        None
    } else {
        match container_name(path[k - 1]) {
            Some(x) => Some(x),
            None => container_up(path, k - 1),
        }
    }
}

/// Scanning `path` upward from index `k - 1` and stopping at a `document`
/// or `source_file` node, the index of the first attribute.
pub open spec fn attribute_up(path: Seq<NodeView>, k: int) -> Option<int>
    decreases k,
{
    if k <= 0 || k > path.len() {
        None
    } else if path[k - 1].kind == "document"@ || path[k - 1].kind == "source_file"@ {
        None
    } else if path[k - 1].kind == "attribute"@ {
        Some(k - 1)
    } else {
        attribute_up(path, k - 1)
    }
}

/// The completion that fits at a position of a TWXML document.
pub enum TwxmlCompletionContext {
    /// On the `id` attribute of a hubref.
    HubrefId,
    /// On the `field` attribute of a hubref whose `id` is given.
    HubrefField { id_val: String },
    /// Just after `<`, about to type a tag name inside `parent`.
    Tag { parent: Option<String> },
    Nothing,
}

/// The view of a TWXML completion context.
pub enum TwxmlContextView {
    HubrefId,
    HubrefField(Seq<char>),
    Tag(Option<Seq<char>>),
    Nothing,
}

impl View for TwxmlCompletionContext {
    type V = TwxmlContextView;

    open spec fn view(&self) -> TwxmlContextView {
        match self {
            TwxmlCompletionContext::HubrefId => TwxmlContextView::HubrefId,
            TwxmlCompletionContext::HubrefField { id_val } => TwxmlContextView::HubrefField(id_val@),
            TwxmlCompletionContext::Tag { parent } => TwxmlContextView::Tag(crate::model::opt_view(*parent)),
            TwxmlCompletionContext::Nothing => TwxmlContextView::Nothing,
        }
    }
}

/// The attribute context along the descent path: on the nearest attribute
/// (below any document node) of a hubref start tag or self-closing hubref,
/// its `id` attribute, or its `field` attribute when the tag also has an
/// `id` (whose value, double quotes trimmed, it carries).
pub open spec fn attribute_context(path: Seq<NodeView>) -> TwxmlContextView {
    match attribute_up(path, path.len() as int) {
        Some(j) => {
            let a = path[j];
            if a.children.len() > 2 && j > 0 {
                let p = path[j - 1];
                let is_hubref = (p.kind == "start_tag"@ || p.kind == "self_closing_element"@) && match field_child(
                    p,
                    "name"@,
                ) {
                    Some(nm) => nm.text == "hubref"@,
                    None => false,
                };
                if !is_hubref {
                    TwxmlContextView::Nothing
                } else if a.children[0].text == "id"@ {
                    TwxmlContextView::HubrefId
                } else if a.children[0].text == "field"@ {
                    match last_attr(p.children, "id"@) {
                        Some(v) => TwxmlContextView::HubrefField(trim_char(v.text, '"')),
                        None => TwxmlContextView::Nothing,
                    }
                } else {
                    TwxmlContextView::Nothing
                }
            } else {
                TwxmlContextView::Nothing
            }
        },
        None => TwxmlContextView::Nothing,
    }
}

/// The completion context at `pos` in the TWXML document `s` whose tree
/// gives the descent path `path`: a tag, with the nearest container name
/// above the node under the cursor, when the text before the cursor opens
/// one; else the attribute context.
pub open spec fn twxml_context(s: Seq<char>, pos: LspPosition, path: Seq<NodeView>) -> TwxmlContextView {
    match text_before_cursor(s, pos) {
        Some(before) => if opens_tag(before) {
            TwxmlContextView::Tag(container_up(path, path.len() - 1))
        } else {
            attribute_context(path)
        },
        None => attribute_context(path),
    }
}

pub(crate) fn chars_in_prefix(line: &Vec<char>, col: u128) -> (r: Option<usize>)
    ensures
        match r {
            Some(k) => k <= line.len() && chars_in_bytes(line@, col as int) == Some(k as nat),
            None => chars_in_bytes(line@, col as int) is None,
        },
{
    let mut i: usize = 0;
    let mut b: u128 = 0;
    let c64 = col;
    assert(line@.skip(0) =~= line@);
    while b < c64 && i < line.len()
        invariant
            i <= line.len(),
            b <= 4 * i,
            c64 == col,
            chars_in_bytes(line@, col as int) == match chars_in_bytes(line@.skip(i as int), col - b) {
                Some(k) => Some((k + i) as nat),
                None => None,
            },
        decreases line.len() - i,
    {
        let w = char_len_utf8(line[i]);
        assert(line@.skip(i as int).drop_first() =~= line@.skip(i + 1));
        assert(line@.skip(i as int)[0] == line@[i as int]);
        b = b + w as u128;
        i = i + 1;
    }
    if b == c64 {
        Some(i)
    } else {
        None
    }
}

pub(crate) fn last_lt_index(s: &Vec<char>, end: usize) -> (r: Option<usize>)
    requires
        end <= s.len(),
    ensures
        match r {
            Some(i) => i < end && last_lt(s@.take(end as int)) == Some(i as int),
            None => last_lt(s@.take(end as int)) is None,
        },
{
    let mut k = end;
    while k > 0
        invariant
            k <= end <= s.len(),
            last_lt(s@.take(end as int)) == last_lt(s@.take(k as int)),
        decreases k,
    {
        assert(s@.take(k as int).drop_last() =~= s@.take(k - 1));
        if s[k - 1] == '<' {
            return Some(k - 1);
        }
        k = k - 1;
    }
    None
}

fn opens_tag_at(v: &Vec<char>, k: usize) -> (b: bool)
    requires
        k <= v.len(),
    ensures
        b == opens_tag(v@.take(k as int)),
{
    let ghost before = v@.take(k as int);
    match last_lt_index(v, k) {
        Some(i) => {
            let ghost after = before.skip(i as int);
            assert(after.len() == k - i);
            assert(forall|j: int| 0 <= j < after.len() ==> after[j] == v@[i + j]);
            if v[k - 1] == '/' {
                return false;
            }
            if k - i >= 3 && v[k - 3] == '!' && v[k - 2] == '-' && v[k - 1] == '-' {
                return false;
            }
            let mut j = i + 1;
            while j < k
                invariant
                    i < j <= k,
                    k <= v.len(),
                    after == v@.take(k as int).skip(i as int),
                    after.len() == k - i,
                    last_lt(v@.take(k as int)) == Some(i as int),
                    forall|m: int| 1 <= m < j - i ==> is_name_char(#[trigger] after[m]),
                decreases k - j,
            {
                assert(after[j - i] == v@[j as int]);
                if !(is_alphanumeric(v[j]) || v[j] == '_') {
                    assert(!is_name_char(after[j - i]));
                    return false;
                }
                j = j + 1;
            }
            true
        },
        None => false,
    }
}

fn container_index(path: &Vec<&SyntaxNode>, k: usize) -> (r: Option<String>)
    requires
        k <= path@.len(),
    ensures
        crate::model::opt_view(r) == container_up(refs_view(path@), k as int),
{
    let ghost pv = refs_view(path@);
    let mut i = k;
    while i > 0
        invariant
            i <= k <= path@.len(),
            pv == refs_view(path@),
            container_up(pv, k as int) == container_up(pv, i as int),
        decreases i,
    {
        let q: &SyntaxNode = path[i - 1];
        assert(pv[i - 1] == q@);
        if str_eq(q.kind.as_str(), "element") {
            match name_of_element(q) {
                Some(n) => {
                    return Some(n);
                },
                None => {},
            }
        } else if str_eq(q.kind.as_str(), "body_block") {
            return Some(owned("body"));
        } else if str_eq(q.kind.as_str(), "meta_tag") {
            return Some(owned("meta"));
        } else if str_eq(q.kind.as_str(), "document_block") {
            return Some(owned("document"));
        }
        i = i - 1;
    }
    None
}

fn attribute_index(path: &Vec<&SyntaxNode>) -> (r: Option<usize>)
    ensures
        match r {
            Some(j) => j < path@.len() && attribute_up(refs_view(path@), path@.len() as int) == Some(j as int),
            None => attribute_up(refs_view(path@), path@.len() as int) is None,
        },
{
    let ghost pv = refs_view(path@);
    let mut i = path.len();
    while i > 0
        invariant
            i <= path@.len(),
            pv == refs_view(path@),
            attribute_up(pv, path@.len() as int) == attribute_up(pv, i as int),
        decreases i,
    {
        let n: &SyntaxNode = path[i - 1];
        assert(pv[i - 1] == n@);
        if str_eq(n.kind.as_str(), "document") || str_eq(n.kind.as_str(), "source_file") {
            return None;
        }
        if str_eq(n.kind.as_str(), "attribute") {
            return Some(i - 1);
        }
        i = i - 1;
    }
    None
}

fn attribute_context_at(path: &Vec<&SyntaxNode>) -> (r: TwxmlCompletionContext)
    ensures
        r@ == attribute_context(refs_view(path@)),
{
    let ghost pv = refs_view(path@);
    match attribute_index(path) {
        Some(j) => {
            let a: &SyntaxNode = path[j];
            assert(pv[j as int] == a@);
            proof {
                lemma_nodes_view(a.children@);
            }
            if a.children.len() > 2 && j > 0 {
                let p: &SyntaxNode = path[j - 1];
                assert(pv[j - 1] == p@);
                proof {
                    lemma_nodes_view(p.children@);
                }
                let is_hubref = (str_eq(p.kind.as_str(), "start_tag") || str_eq(p.kind.as_str(), "self_closing_element"))
                    && match p.child_by_field_name("name") {
                    Some(i) => str_eq(p.children[i].text.as_str(), "hubref"),
                    None => false,
                };
                if !is_hubref {
                    TwxmlCompletionContext::Nothing
                } else if str_eq(a.children[0].text.as_str(), "id") {
                    TwxmlCompletionContext::HubrefId
                } else if str_eq(a.children[0].text.as_str(), "field") {
                    match last_attr_index(p, "id") {
                        Some(i) => {
                            let ia = &p.children[i];
                            proof {
                                lemma_nodes_view(ia.children@);
                            }
                            TwxmlCompletionContext::HubrefField { id_val: unquote_double(ia.children[2].text.as_str()) }
                        },
                        None => TwxmlCompletionContext::Nothing,
                    }
                } else {
                    TwxmlCompletionContext::Nothing
                }
            } else {
                TwxmlCompletionContext::Nothing
            }
        },
        None => TwxmlCompletionContext::Nothing,
    }
}

/// The completion context at `pos` in the TWXML document `contents` whose
/// syntax tree is `root` (see `twxml_context`).
pub fn get_twxml_completion_context(contents: &str, pos: LspPosition, root: &SyntaxNode) -> (r:
    TwxmlCompletionContext)
    requires
        cursor_between_chars(contents@, pos),
    ensures
        r@ == twxml_context(contents@, pos, descent_path(root@, pos)),
{
    let path = descend(root, pos);
    let ghost pv = refs_view(path@);
    let ls = lines(contents);
    let line_no = pos.line as usize;
    if line_no < ls.len() {
        assert(views(ls@)[line_no as int] == ls@[line_no as int]@);
        let v = to_chars(ls[line_no].as_str());
        match chars_in_prefix(&v, pos.character as u128) {
            Some(k) => {
                if opens_tag_at(&v, k) {
                    let parent = container_index(&path, path.len() - 1);
                    return TwxmlCompletionContext::Tag { parent };
                }
            },
            None => {},
        }
    }
    attribute_context_at(&path)
}

} // verus!
