//! Validation of TWXML documents: the document skeleton, hub references,
//! tag names and nesting, and the tag structure of the syntax tree
//! (closing tags, includes, meta tags).
use vstd::prelude::*;
use vstd::string::StringSliceAdditionalSpecFns;

use crate::model::{ErrorView, FileView, ReferenceView, TagView, ValidationError, Workspace, WorkspaceFile};
use crate::multiplicity::{trim_char, trim_range};
use crate::polymorphic::{has_field_named, has_key, has_role_named};
use crate::position::{lsp_pos_to_byte_offset, spec_lsp_pos_to_byte_offset, LspRange};
use crate::resolution::{resolve_reference, resolve_type_at, resolve_type_at_path, spec_resolve_reference};
use crate::syntax::{field_child, lemma_nodes_view, node_view, nodes_view, NodeView, SyntaxNode};
use crate::text::{has_non_ws, owned, range_has_non_ws, str_eq, to_chars};
use crate::validation::{diag, errors_view, missing_reference_message};

verus! {

// ---------- tag names ----------

/// The tags of TWXML.
pub open spec fn is_twxml_tag_name(n: Seq<char>) -> bool {
    ||| n == "document"@ || n == "body"@ || n == "meta"@
    ||| n == "section"@ || n == "heading"@ || n == "paragraph"@ || n == "aside"@ || n == "blockquote"@
    ||| n == "codeblock"@
    ||| n == "ul"@ || n == "ol"@ || n == "li"@ || n == "dl"@ || n == "dt"@ || n == "dd"@
    ||| n == "details"@ || n == "summary"@
    ||| n == "table"@ || n == "tr"@ || n == "th"@ || n == "td"@
    ||| n == "hubref"@ || n == "link"@ || n == "image"@ || n == "audio"@ || n == "video"@ || n == "code"@
    ||| n == "bold"@ || n == "italic"@ || n == "underline"@ || n == "strikethrough"@ || n == "super"@
    ||| n == "sub"@
    ||| n == "br"@ || n == "hr"@ || n == "fr"@ || n == "footnote"@ || n == "review"@ || n == "include"@
}

/// Whether `name` is a TWXML tag.
pub fn is_valid_twxml_tag(name: &str) -> (b: bool)
    ensures
        b == is_twxml_tag_name(name@),
{
    str_eq(name, "document") || str_eq(name, "body") || str_eq(name, "meta") || str_eq(name, "section")
        || str_eq(name, "heading") || str_eq(name, "paragraph") || str_eq(name, "aside") || str_eq(
        name,
        "blockquote",
    ) || str_eq(name, "codeblock") || str_eq(name, "ul") || str_eq(name, "ol") || str_eq(name, "li")
        || str_eq(name, "dl") || str_eq(name, "dt") || str_eq(name, "dd") || str_eq(name, "details")
        || str_eq(name, "summary") || str_eq(name, "table") || str_eq(name, "tr") || str_eq(name, "th")
        || str_eq(name, "td") || str_eq(name, "hubref") || str_eq(name, "link") || str_eq(name, "image")
        || str_eq(name, "audio") || str_eq(name, "video") || str_eq(name, "code") || str_eq(name, "bold")
        || str_eq(name, "italic") || str_eq(name, "underline") || str_eq(name, "strikethrough") || str_eq(
        name,
        "super",
    ) || str_eq(name, "sub") || str_eq(name, "br") || str_eq(name, "hr") || str_eq(name, "fr") || str_eq(
        name,
        "footnote",
    ) || str_eq(name, "review") || str_eq(name, "include")
}

// ---------- reading nodes ----------

/// The tag name of an element (from its start tag) or of a self-closing
/// element; otherwise, and when the name is missing, the node's kind.
pub open spec fn tag_name_of(n: NodeView) -> Seq<char> {
    if n.kind == "element"@ {
        if n.children.len() > 0 {
            match field_child(n.children[0], "name"@) {
                Some(c) => c.text,
                None => n.kind,
            }
        } else {
            n.kind
        }
    } else if n.kind == "self_closing_element"@ {
        match field_child(n, "name"@) {
            Some(c) => c.text,
            None => n.kind,
        }
    } else {
        n.kind
    }
}

/// The tag name of `node` (see `tag_name_of`).
pub fn get_tag_name(node: &SyntaxNode) -> (r: String)
    ensures
        r@ == tag_name_of(node@),
{
    proof {
        lemma_nodes_view(node.children@);
    }
    if str_eq(node.kind.as_str(), "element") {
        if node.children.len() > 0 {
            let start = &node.children[0];
            match start.child_by_field_name("name") {
                Some(i) => {
                    proof {
                        lemma_nodes_view(start.children@);
                    }
                    start.children[i].text.clone()
                },
                None => node.kind.clone(),
            }
        } else {
            node.kind.clone()
        }
    } else if str_eq(node.kind.as_str(), "self_closing_element") {
        match node.child_by_field_name("name") {
            Some(i) => node.children[i].text.clone(),
            None => node.kind.clone(),
        }
    } else {
        node.kind.clone()
    }
}

/// Whether the first attribute among `cs` named `attr` that has a value
/// has a value that is not blank once quotes are stripped.
pub open spec fn attr_scan(cs: Seq<NodeView>, attr: Seq<char>) -> bool
    decreases cs.len(),
{
    if cs.len() == 0 {
        false
    } else {
        let c = cs[0];
        if c.kind == "attribute"@ && c.children.len() > 2 && c.children[0].text == attr {
            has_non_ws(trim_char(trim_char(c.children[2].text, '"'), '\''))
        } else {
            attr_scan(cs.drop_first(), attr)
        }
    }
}

/// Whether `node` has the attribute `attr_name` with a non-blank value.
pub fn has_attribute(node: &SyntaxNode, attr_name: &str) -> (b: bool)
    ensures
        b == attr_scan(node@.children, attr_name@),
{
    proof {
        lemma_nodes_view(node.children@);
    }
    let ghost cs = node@.children;
    let mut i: usize = 0;
    assert(cs.skip(0) =~= cs);
    while i < node.children.len()
        invariant
            i <= node.children.len(),
            cs == node@.children,
            cs.len() == node.children@.len(),
            forall|j: int| 0 <= j < node.children@.len() ==> #[trigger] cs[j] == node_view(node.children@[j]),
            attr_scan(cs, attr_name@) == attr_scan(cs.skip(i as int), attr_name@),
        decreases node.children.len() - i,
    {
        let child = &node.children[i];
        assert(cs.skip(i as int).drop_first() =~= cs.skip(i + 1));
        assert(cs.skip(i as int)[0] == child@);
        proof {
            lemma_nodes_view(child.children@);
        }
        if str_eq(child.kind.as_str(), "attribute") && child.children.len() > 2 && str_eq(
            child.children[0].text.as_str(),
            attr_name,
        ) {
            let v = to_chars(child.children[2].text.as_str());
            let (a, b) = trim_range(&v, 0, v.len(), '"');
            assert(v@.subrange(0, v@.len() as int) =~= v@);
            let (c, d) = trim_range(&v, a, b, '\'');
            return range_has_non_ws(&v, c, d);
        }
        i = i + 1;
    }
    false
}

// ---------- the tag structure ----------

/// Message for a closing tag that does not match its opening tag.
pub open spec fn mismatch_message(name: Seq<char>) -> Seq<char> {
    "Mismatched closing tag. Expected `</"@ + name + ">`"@
}

/// What one node contributes to the structure check: an element whose
/// closing tag names another tag, an `include` that is not self-closing,
/// or a self-closing `include` without a non-blank `src`.
pub open spec fn node_step_errors(n: NodeView) -> Seq<ErrorView> {
    let name = tag_name_of(n);
    if n.kind == "element"@ {
        (if n.children.len() > 0 && n.children[0].kind == "start_tag"@ && n.children.last().kind == "end_tag"@ {
            let end_name = match field_child(n.children.last(), "name"@) {
                Some(c) => c.text,
                None => Seq::empty(),
            };
            if name != end_name {
                seq![diag(n.children.last().range, mismatch_message(name))]
            } else {
                Seq::empty()
            }
        } else {
            Seq::empty()
        }) + if name == "include"@ {
            seq![diag(n.range, "Invalid include: tag 'include' must be self-closing"@)]
        } else {
            Seq::empty()
        }
    } else if n.kind == "self_closing_element"@ {
        if name == "include"@ && !attr_scan(n.children, "src"@) {
            seq![diag(n.range, "Invalid include: tag 'include' must have a non-empty 'src' attribute"@)]
        } else {
            Seq::empty()
        }
    } else {
        Seq::empty()
    }
}

/// Whether the walk records `n` as a meta tag.
pub open spec fn is_meta_node(n: NodeView) -> bool {
    n.kind == "meta_tag"@ || ((n.kind == "element"@ || n.kind == "self_closing_element"@) && tag_name_of(n)
        == "meta"@)
}

/// The structure diagnostics of the tree under `n`: the node first, then
/// its children from the last to the first, each with its own subtree.
pub open spec fn walk_errors(n: NodeView) -> Seq<ErrorView>
    decreases n,
{
    node_step_errors(n) + walk_children_errors(n.children)
}

/// The structure diagnostics of the subtrees `cs`, the last first.
pub open spec fn walk_children_errors(cs: Seq<NodeView>) -> Seq<ErrorView>
    decreases cs,
{
    if cs.len() == 0 {
        Seq::empty()
    } else {
        walk_errors(cs.last()) + walk_children_errors(cs.drop_last())
    }
}

/// A meta tag met by the walk: its range and the kind of its parent.
pub struct MetaSite {
    pub range: LspRange,
    pub parent_kind: Option<String>,
}

/// The view of a meta site.
pub struct MetaView {
    pub range: LspRange,
    pub parent_kind: Option<Seq<char>>,
}

impl View for MetaSite {
    type V = MetaView;

    open spec fn view(&self) -> MetaView {
        MetaView {
            range: self.range,
            parent_kind: match self.parent_kind {
                Some(k) => Some(k@),
                None => None,
            },
        }
    }
}

/// The meta tags of the tree under `n` (whose parent has kind `parent`),
/// in the order of the walk.
pub open spec fn walk_metas(n: NodeView, parent: Option<Seq<char>>) -> Seq<MetaView>
    decreases n,
{
    (if is_meta_node(n) {
        seq![MetaView { range: n.range, parent_kind: parent }]
    } else {
        Seq::empty()
    }) + walk_children_metas(n.children, n.kind)
}

/// The meta tags of the subtrees `cs` of a node of kind `parent`, the last
/// subtree first.
pub open spec fn walk_children_metas(cs: Seq<NodeView>, parent: Seq<char>) -> Seq<MetaView>
    decreases cs,
{
    if cs.len() == 0 {
        Seq::empty()
    } else {
        walk_metas(cs.last(), Some(parent)) + walk_children_metas(cs.drop_last(), parent)
    }
}

fn push_diag(errors: &mut Vec<ValidationError>, range: LspRange, message: String)
    ensures
        errors_view(final(errors)@) == errors_view(old(errors)@).push(diag(range, message@)),
{
    let ghost e0 = errors@;
    let ghost m = message@;
    errors.push(ValidationError { range, message });
    assert(errors_view(errors@) =~= errors_view(e0).push(diag(range, m)));
}

fn step_node(node: &SyntaxNode, errors: &mut Vec<ValidationError>)
    ensures
        errors_view(final(errors)@) == errors_view(old(errors)@) + node_step_errors(node@),
{
    let ghost e0 = errors_view(errors@);
    proof {
        lemma_nodes_view(node.children@);
    }
    let name = get_tag_name(node);
    if str_eq(node.kind.as_str(), "element") {
        let n = node.children.len();
        if n > 0 && str_eq(node.children[0].kind.as_str(), "start_tag") && str_eq(
            node.children[n - 1].kind.as_str(),
            "end_tag",
        ) {
            let end_tag = &node.children[n - 1];
            assert(node@.children.last() == end_tag@);
            let end_name = match end_tag.child_by_field_name("name") {
                Some(i) => {
                    proof {
                        lemma_nodes_view(end_tag.children@);
                    }
                    end_tag.children[i].text.clone()
                },
                None => String::new(),
            };
            if name != end_name {
                let mut m = owned("Mismatched closing tag. Expected `</");
                m.append(name.as_str());
                m.append(">`");
                push_diag(errors, end_tag.range, m);
            }
        }
        let ghost e1 = errors_view(errors@);
        if str_eq(name.as_str(), "include") {
            push_diag(errors, node.range, owned("Invalid include: tag 'include' must be self-closing"));
        }
        assert(errors_view(errors@) =~= e0 + node_step_errors(node@));
    } else if str_eq(node.kind.as_str(), "self_closing_element") {
        if str_eq(name.as_str(), "include") && !has_attribute(node, "src") {
            push_diag(
                errors,
                node.range,
                owned("Invalid include: tag 'include' must have a non-empty 'src' attribute"),
            );
            assert(errors_view(errors@) =~= e0 + node_step_errors(node@));
        } else {
            assert(errors_view(errors@) =~= e0 + node_step_errors(node@));
        }
    } else {
        assert(errors_view(errors@) =~= e0 + node_step_errors(node@));
    }
}

/// Whether the walk records `node` as a meta tag.
fn is_meta(node: &SyntaxNode) -> (b: bool)
    ensures
        b == is_meta_node(node@),
{
    if str_eq(node.kind.as_str(), "meta_tag") {
        true
    } else if str_eq(node.kind.as_str(), "element") || str_eq(node.kind.as_str(), "self_closing_element") {
        let name = get_tag_name(node);
        str_eq(name.as_str(), "meta")
    } else {
        false
    }
}

/// The views of a sequence of meta sites.
pub open spec fn metas_view(v: Seq<MetaSite>) -> Seq<MetaView> {
    v.map_values(|m: MetaSite| m@)
}

fn walk_node(
    node: &SyntaxNode,
    parent: Option<&String>,
    errors: &mut Vec<ValidationError>,
    metas: &mut Vec<MetaSite>,
)
    ensures
        errors_view(final(errors)@) == errors_view(old(errors)@) + walk_errors(node@),
        metas_view(final(metas)@) == metas_view(old(metas)@) + walk_metas(
            node@,
            match parent {
                Some(p) => Some(p@),
                None => None,
            },
        ),
    decreases node,
{
    let ghost e0 = errors_view(errors@);
    let ghost m0 = metas_view(metas@);
    let ghost pk = match parent {
        Some(p) => Some(p@),
        None => None,
    };
    step_node(node, errors);
    if is_meta(node) {
        let pkind = match parent {
            Some(p) => Some(p.clone()),
            None => None,
        };
        let site = MetaSite { range: node.range, parent_kind: pkind };
        assert(site@ == MetaView { range: node.range, parent_kind: pk });
        metas.push(site);
        assert(metas_view(metas@) =~= m0 + seq![MetaView { range: node.range, parent_kind: pk }]);
    } else {
        assert(metas_view(metas@) =~= m0 + Seq::<MetaView>::empty());
    }
    let ghost m1 = metas_view(metas@);
    walk_children(&node.children, &node.kind, errors, metas);
    assert(node@.children == nodes_view(node.children@));
    assert(errors_view(errors@) =~= e0 + walk_errors(node@));
    assert(metas_view(metas@) =~= m0 + walk_metas(node@, pk));
}

fn walk_children(
    children: &Vec<SyntaxNode>,
    parent: &String,
    errors: &mut Vec<ValidationError>,
    metas: &mut Vec<MetaSite>,
)
    ensures
        errors_view(final(errors)@) == errors_view(old(errors)@) + walk_children_errors(nodes_view(children@)),
        metas_view(final(metas)@) == metas_view(old(metas)@) + walk_children_metas(
            nodes_view(children@),
            parent@,
        ),
    decreases children,
{
    proof {
        lemma_nodes_view(children@);
    }
    let ghost cs = nodes_view(children@);
    let ghost e0 = errors_view(errors@);
    let ghost m0 = metas_view(metas@);
    let mut k = children.len();
    assert(cs.take(k as int) =~= cs);
    assert(errors_view(errors@) + walk_children_errors(cs.take(k as int)) =~= e0 + walk_children_errors(cs));
    assert(metas_view(metas@) + walk_children_metas(cs.take(k as int), parent@) =~= m0 + walk_children_metas(
        cs,
        parent@,
    ));
    while k > 0
        invariant
            k <= children.len(),
            cs == nodes_view(children@),
            cs.len() == children@.len(),
            forall|j: int| 0 <= j < children@.len() ==> #[trigger] cs[j] == node_view(children@[j]),
            errors_view(errors@) + walk_children_errors(cs.take(k as int)) == e0 + walk_children_errors(cs),
            metas_view(metas@) + walk_children_metas(cs.take(k as int), parent@) == m0 + walk_children_metas(
                cs,
                parent@,
            ),
        decreases k,
    {
        let ghost ek = errors_view(errors@);
        let ghost mk = metas_view(metas@);
        assert(decreases_to!(children => children@[k - 1]));
        walk_node(&children[k - 1], Some(parent), errors, metas);
        proof {
            assert(cs.take(k as int).drop_last() =~= cs.take(k - 1));
            assert(cs.take(k as int).last() == children@[k - 1]@);
            assert(errors_view(errors@) + walk_children_errors(cs.take(k - 1)) =~= ek + walk_children_errors(
                cs.take(k as int),
            ));
            assert(metas_view(metas@) + walk_children_metas(cs.take(k - 1), parent@) =~= mk + walk_children_metas(
                cs.take(k as int),
                parent@,
            ));
        }
        k = k - 1;
    }
    assert(cs.take(0) =~= Seq::<NodeView>::empty());
    assert(errors_view(errors@) =~= errors_view(errors@) + walk_children_errors(cs.take(0)));
    assert(metas_view(metas@) =~= metas_view(metas@) + walk_children_metas(cs.take(0), parent@));
}

// ---------- meta tags ----------

/// The bytes of `<body>`.
pub open spec fn body_open_bytes() -> Seq<u8> {
    seq![60u8, 98u8, 111u8, 100u8, 121u8, 62u8]
}

/// `pat` occurs in `b` at offset `i`.
pub open spec fn occurs_at(b: Seq<u8>, pat: Seq<u8>, i: int) -> bool {
    0 <= i && i + pat.len() <= b.len() && b.subrange(i, i + pat.len()) == pat
}

/// The offset of the first `<body>` in `b`.
pub open spec fn find_body(b: Seq<u8>) -> Option<nat> {
    if exists|i: int| occurs_at(b, body_open_bytes(), i) {
        Some(
            (choose|i: int| occurs_at(b, body_open_bytes(), i) && forall|j: int| 0 <= j < i ==> !occurs_at(b, body_open_bytes(), j)) as nat,
        )
    } else {
        None
    }
}

proof fn lemma_first_occurrence(b: Seq<u8>, i: int)
    requires
        occurs_at(b, body_open_bytes(), i),
    ensures
        exists|k: int| occurs_at(b, body_open_bytes(), k) && forall|j: int| 0 <= j < k ==> !occurs_at(b, body_open_bytes(), j),
    decreases i,
{
    if exists|j: int| 0 <= j < i && occurs_at(b, body_open_bytes(), j) {
        let j = choose|j: int| 0 <= j < i && occurs_at(b, body_open_bytes(), j);
        lemma_first_occurrence(b, j);
    } else {
        assert(occurs_at(b, body_open_bytes(), i) && forall|j: int| 0 <= j < i ==> !occurs_at(b, body_open_bytes(), j));
    }
}

fn occurs_body_at(b: &[u8], i: usize) -> (r: bool)
    ensures
        r == occurs_at(b@, body_open_bytes(), i as int),
{
    if i > b.len() || b.len() - i < 6 {
        return false;
    }
    let r = b[i] == 60u8 && b[i + 1] == 98u8 && b[i + 2] == 111u8 && b[i + 3] == 100u8 && b[i + 4] == 121u8
        && b[i + 5] == 62u8;
    proof {
        if r {
            assert(b@.subrange(i as int, i + 6) =~= body_open_bytes());
        } else {
            if b@.subrange(i as int, i + 6) == body_open_bytes() {
                assert(b@.subrange(i as int, i + 6)[0] == b@[i as int]);
                assert(b@.subrange(i as int, i + 6)[1] == b@[i + 1]);
                assert(b@.subrange(i as int, i + 6)[2] == b@[i + 2]);
                assert(b@.subrange(i as int, i + 6)[3] == b@[i + 3]);
                assert(b@.subrange(i as int, i + 6)[4] == b@[i + 4]);
                assert(b@.subrange(i as int, i + 6)[5] == b@[i + 5]);
            }
        }
    }
    r
}

/// The byte offset of the first `<body>` in `b`.
pub fn find_body_offset(b: &[u8]) -> (r: Option<usize>)
    ensures
        match r {
            Some(i) => find_body(b@) == Some(i as nat),
            None => find_body(b@) is None,
        },
{
    let mut i: usize = 0;
    while i < b.len()
        invariant
            i <= b.len(),
            forall|j: int| 0 <= j < i ==> !occurs_at(b@, body_open_bytes(), j),
        decreases b.len() - i,
    {
        if occurs_body_at(b, i) {
            proof {
                lemma_first_occurrence(b@, i as int);
                let k = choose|k: int| occurs_at(b@, body_open_bytes(), k) && forall|j: int| 0 <= j < k ==> !occurs_at(b@, body_open_bytes(), j);
                if k < i {
                } else if k > i {
                    assert(!occurs_at(b@, body_open_bytes(), i as int));
                }
                assert(k == i);
            }
            return Some(i);
        }
        i = i + 1;
    }
    proof {
        assert forall|j: int| !occurs_at(b@, body_open_bytes(), j) by {
            if j >= b@.len() {
            }
        }
    }
    None
}

/// A diagnostic for each meta tag that starts at or after the first
/// `<body>` of the document bytes `b`.
pub open spec fn meta_position_errors(metas: Seq<MetaView>, b: Seq<u8>) -> Seq<ErrorView>
    decreases metas.len(),
{
    if metas.len() == 0 {
        Seq::empty()
    } else {
        let m = metas.last();
        meta_position_errors(metas.drop_last(), b) + match find_body(b) {
            Some(body) => if spec_lsp_pos_to_byte_offset(b, m.range.start) >= body {
                seq![diag(m.range, "Invalid positioning: tag 'meta' must precede the <body> block"@)]
            } else {
                Seq::empty()
            },
            None => Seq::empty(),
        }
    }
}

/// A diagnostic for each meta tag whose parent is not the document block.
pub open spec fn meta_nesting_errors(metas: Seq<MetaView>) -> Seq<ErrorView>
    decreases metas.len(),
{
    if metas.len() == 0 {
        Seq::empty()
    } else {
        let m = metas.last();
        meta_nesting_errors(metas.drop_last()) + if m.parent_kind matches Some(k) && k != "document_block"@ {
            seq![diag(m.range, "Invalid nesting: tag 'meta' is only allowed as a direct child of 'document'"@)]
        } else {
            Seq::empty()
        }
    }
}

/// The structure diagnostics of the tree `root` of the document `b`: those
/// of the walk, then meta positioning, then meta nesting.
pub open spec fn structure_errors(root: NodeView, b: Seq<u8>) -> Seq<ErrorView> {
    let metas = walk_metas(root, None);
    walk_errors(root) + meta_position_errors(metas, b) + meta_nesting_errors(metas)
}

#[verifier::spinoff_prover]
#[verifier::rlimit(40)]
fn check_meta_positions(metas: &Vec<MetaSite>, bytes: &[u8], errors: &mut Vec<ValidationError>)
    ensures
        errors_view(final(errors)@) == errors_view(old(errors)@) + meta_position_errors(metas_view(metas@), bytes@),
{
    let ghost e1 = errors_view(errors@);
    let ghost mv = metas_view(metas@);
    let body = find_body_offset(bytes);
    let mut i: usize = 0;
    assert(mv.take(0) =~= Seq::<MetaView>::empty());
    assert(errors_view(errors@) =~= e1 + meta_position_errors(mv.take(0), bytes@));
    while i < metas.len()
        invariant
            i <= metas.len(),
            mv == metas_view(metas@),
            match body {
                Some(x) => find_body(bytes@) == Some(x as nat),
                None => find_body(bytes@) is None,
            },
            errors_view(errors@) == e1 + meta_position_errors(mv.take(i as int), bytes@),
        decreases metas.len() - i,
    {
        match body {
            Some(body_off) => {
                let meta_off = lsp_pos_to_byte_offset(bytes, metas[i].range.start);
                if meta_off >= body_off {
                    push_diag(
                        errors,
                        metas[i].range,
                        owned("Invalid positioning: tag 'meta' must precede the <body> block"),
                    );
                }
            },
            None => {},
        }
        proof {
            assert(mv.take(i + 1).drop_last() =~= mv.take(i as int));
            assert(mv.take(i + 1).last() == metas@[i as int]@);
            assert(errors_view(errors@) =~= e1 + meta_position_errors(mv.take(i + 1), bytes@));
        }
        i = i + 1;
    }
    assert(mv.take(metas.len() as int) =~= mv);
}

fn check_meta_nesting(metas: &Vec<MetaSite>, errors: &mut Vec<ValidationError>)
    ensures
        errors_view(final(errors)@) == errors_view(old(errors)@) + meta_nesting_errors(metas_view(metas@)),
{
    let ghost e2 = errors_view(errors@);
    let ghost mv = metas_view(metas@);
    let mut j: usize = 0;
    assert(mv.take(0) =~= Seq::<MetaView>::empty());
    assert(errors_view(errors@) =~= e2 + meta_nesting_errors(mv.take(0)));
    while j < metas.len()
        invariant
            j <= metas.len(),
            mv == metas_view(metas@),
            errors_view(errors@) == e2 + meta_nesting_errors(mv.take(j as int)),
        decreases metas.len() - j,
    {
        let bad = match &metas[j].parent_kind {
            Some(k) => !str_eq(k.as_str(), "document_block"),
            None => false,
        };
        if bad {
            push_diag(
                errors,
                metas[j].range,
                owned("Invalid nesting: tag 'meta' is only allowed as a direct child of 'document'"),
            );
        }
        proof {
            assert(mv.take(j + 1).drop_last() =~= mv.take(j as int));
            assert(mv.take(j + 1).last() == metas@[j as int]@);
            assert(errors_view(errors@) =~= e2 + meta_nesting_errors(mv.take(j + 1)));
        }
        j = j + 1;
    }
    assert(mv.take(metas.len() as int) =~= mv);
}

/// Checks the tag structure of the tree `root` of the document `contents`.
pub fn validate_tag_structure(root: &SyntaxNode, contents: &str, errors: &mut Vec<ValidationError>)
    ensures
        errors_view(final(errors)@) == errors_view(old(errors)@) + structure_errors(root@, contents.spec_bytes()),
{
    let ghost e0 = errors_view(errors@);
    let mut metas: Vec<MetaSite> = Vec::new();
    walk_node(root, None, errors, &mut metas);
    assert(metas_view(metas@) =~= walk_metas(root@, None));
    let bytes = contents.as_bytes();
    check_meta_positions(&metas, bytes, errors);
    check_meta_nesting(&metas, errors);
    assert(errors_view(errors@) =~= e0 + structure_errors(root@, contents.spec_bytes()));
}

// ---------- the document ----------

/// How many of `tags` are named `name`.
pub open spec fn count_named(tags: Seq<TagView>, name: Seq<char>) -> nat
    decreases tags.len(),
{
    if tags.len() == 0 {
        0
    } else {
        count_named(tags.drop_last(), name) + if tags.last().name == name { 1nat } else { 0nat }
    }
}

/// A diagnostic at each `body` tag of `tags`.
pub open spec fn duplicate_body_errors(tags: Seq<TagView>) -> Seq<ErrorView>
    decreases tags.len(),
{
    if tags.len() == 0 {
        Seq::empty()
    } else {
        duplicate_body_errors(tags.drop_last()) + if tags.last().name == "body"@ {
            seq![diag(tags.last().range, "Duplicate <body> block — document must contain exactly one"@)]
        } else {
            Seq::empty()
        }
    }
}

/// The empty range at the start of a document.
pub open spec fn start_range() -> LspRange {
    LspRange {
        start: crate::position::LspPosition { line: 0, character: 0 },
        end: crate::position::LspPosition { line: 0, character: 0 },
    }
}

/// A document needs exactly one `body`: none is reported at its start,
/// several at each of them.
pub open spec fn skeleton_errors(tags: Seq<TagView>) -> Seq<ErrorView> {
    let n = count_named(tags, "body"@);
    if n == 0 {
        seq![diag(start_range(), "Document missing required <body> block"@)]
    } else if n > 1 {
        duplicate_body_errors(tags)
    } else {
        Seq::empty()
    }
}

/// Message for a reference to a field its instance's type lacks.
pub open spec fn unknown_field_message(field: Seq<char>, ty: Seq<char>) -> Seq<char> {
    "Unknown field '"@ + field + "' for type '"@ + ty + "'"@
}

/// Message for a reference whose text differs from its field's value.
pub open spec fn out_of_sync_message(expected: Seq<char>, found: Seq<char>) -> Seq<char> {
    "Out of sync: expected '"@ + expected + "', found '"@ + found + "'"@
}

/// The diagnostics of one hub reference `r`; `computed` is the text of
/// the value of the field it shows, where that value could be computed.
/// A reference to no instance is reported; one with a field must name a
/// field or role of the instance's type, and its text, if any, must equal
/// the computed value.
pub open spec fn one_reference_errors(ws: Seq<FileView>, r: ReferenceView, computed: Option<Seq<char>>) -> Seq<
    ErrorView,
> {
    match spec_resolve_reference(ws, r.name) {
        Some(inst) => match r.field {
            Some(fname) => match resolve_type_at(ws, inst.file, inst.instance_type) {
                Some(t) => if !has_key(t.fields, fname) && !has_key(t.roles, fname) {
                    seq![diag(r.range, unknown_field_message(fname, inst.instance_type))]
                } else {
                    match (r.text, computed) {
                        (Some(text), Some(c)) => if c != text {
                            seq![diag(r.range, out_of_sync_message(c, text))]
                        } else {
                            Seq::empty()
                        },
                        _ => Seq::empty(),
                    }
                },
                None => Seq::empty(),
            },
            None => Seq::empty(),
        },
        None => seq![diag(r.range, missing_reference_message(r.name))],
    }
}

/// The computed text for the `k`-th reference: none past the end.
pub open spec fn computed_at(computed: Seq<Option<Seq<char>>>, k: int) -> Option<Seq<char>> {
    if 0 <= k < computed.len() {
        computed[k]
    } else {
        None
    }
}

/// The diagnostics of the references `refs`, the `k`-th with the computed
/// text `computed_at(computed, k)`.
pub open spec fn reference_errors(ws: Seq<FileView>, refs: Seq<ReferenceView>, computed: Seq<Option<Seq<char>>>) -> Seq<
    ErrorView,
>
    decreases refs.len(),
{
    if refs.len() == 0 {
        Seq::empty()
    } else {
        reference_errors(ws, refs.drop_last(), computed) + one_reference_errors(
            ws,
            refs.last(),
            computed_at(computed, refs.len() - 1),
        )
    }
}

/// Message for a tag TWXML does not know.
pub open spec fn unknown_tag_message(name: Seq<char>) -> Seq<char> {
    if name == "metadata"@ {
        "Unknown TWXML tag 'metadata'. Did you mean '<meta />' at the document root?"@
    } else {
        "Unknown TWXML tag '"@ + name + "'"@
    }
}

/// Message for a tag inside a parent that may not hold it.
pub open spec fn nesting_message(name: Seq<char>, parent: Seq<char>) -> Seq<char> {
    "Invalid nesting: tag '"@ + name + "' is not allowed as a child of '"@ + parent + "'"@
}

/// The diagnostics of one tag: an unknown name, and a heading outside a
/// section, the document or the body.
pub open spec fn one_tag_errors(t: TagView) -> Seq<ErrorView> {
    (if !is_twxml_tag_name(t.name) {
        seq![diag(t.range, unknown_tag_message(t.name))]
    } else {
        Seq::empty()
    }) + if t.name == "heading"@ && (t.parent_name matches Some(p) && p != "section"@ && p != "document"@ && p
        != "body"@) {
        seq![diag(t.range, nesting_message(t.name, t.parent_name->0))]
    } else {
        Seq::empty()
    }
}

/// The diagnostics of the tags `tags`, in order.
pub open spec fn tag_errors(tags: Seq<TagView>) -> Seq<ErrorView>
    decreases tags.len(),
{
    if tags.len() == 0 {
        Seq::empty()
    } else {
        tag_errors(tags.drop_last()) + one_tag_errors(tags.last())
    }
}

/// The options of computed texts, viewed.
pub open spec fn computed_view(v: Seq<Option<String>>) -> Seq<Option<Seq<char>>> {
    v.map_values(|o: Option<String>| match o {
        Some(s) => Some(s@),
        None => None,
    })
}

/// All diagnostics of the TWXML file `f`: the skeleton, the hub
/// references, the tags, and the tag structure of its tree when it has one.
pub open spec fn twxml_errors(
    ws: Seq<FileView>,
    f: FileView,
    tree: Option<NodeView>,
    computed: Seq<Option<Seq<char>>>,
) -> Seq<ErrorView> {
    skeleton_errors(f.tags) + reference_errors(ws, f.references, computed) + tag_errors(f.tags) + match tree {
        Some(root) => structure_errors(root, vstd::utf8::encode_utf8(f.contents)),
        None => Seq::empty(),
    }
}

fn concat3(a: &str, b: &str, c: &str) -> (r: String)
    ensures
        r@ == a@ + b@ + c@,
{
    let mut r = owned(a);
    r.append(b);
    r.append(c);
    r
}

fn concat5(a: &str, b: &str, c: &str, d: &str, e: &str) -> (r: String)
    ensures
        r@ == a@ + b@ + c@ + d@ + e@,
{
    let mut r = concat3(a, b, c);
    r.append(d);
    r.append(e);
    r
}

fn check_skeleton(file: &WorkspaceFile, errors: &mut Vec<ValidationError>)
    ensures
        errors_view(final(errors)@) == errors_view(old(errors)@) + skeleton_errors(file@.tags),
{
    let ghost e0 = errors_view(errors@);
    let ghost tags = file@.tags;
    let mut count: usize = 0;
    let mut i: usize = 0;
    while i < file.tags.len()
        invariant
            i <= file.tags.len(),
            tags == file@.tags,
            count == count_named(tags.take(i as int), "body"@),
            count <= i,
        decreases file.tags.len() - i,
    {
        proof {
            assert(tags.take(i + 1).drop_last() =~= tags.take(i as int));
            assert(tags.take(i + 1).last() == file.tags@[i as int]@);
        }
        if str_eq(file.tags[i].name.as_str(), "body") {
            count = count + 1;
        }
        i = i + 1;
    }
    assert(tags.take(file.tags.len() as int) =~= tags);
    if count == 0 {
        push_diag(errors, LspRange::zero(), owned("Document missing required <body> block"));
        assert(errors_view(errors@) =~= e0 + skeleton_errors(tags));
    } else if count > 1 {
        let mut k: usize = 0;
        assert(errors_view(errors@) =~= e0 + duplicate_body_errors(tags.take(0)));
        while k < file.tags.len()
            invariant
                k <= file.tags.len(),
                tags == file@.tags,
                errors_view(errors@) == e0 + duplicate_body_errors(tags.take(k as int)),
            decreases file.tags.len() - k,
        {
            if str_eq(file.tags[k].name.as_str(), "body") {
                push_diag(
                    errors,
                    file.tags[k].range,
                    owned("Duplicate <body> block — document must contain exactly one"),
                );
            }
            proof {
                assert(tags.take(k + 1).drop_last() =~= tags.take(k as int));
                assert(tags.take(k + 1).last() == file.tags@[k as int]@);
                assert(errors_view(errors@) =~= e0 + duplicate_body_errors(tags.take(k + 1)));
            }
            k = k + 1;
        }
        assert(tags.take(file.tags.len() as int) =~= tags);
    } else {
        assert(errors_view(errors@) =~= e0 + skeleton_errors(tags));
    }
}

fn check_reference(
    ws: &Workspace,
    r: &crate::model::HubReference,
    computed: &Option<String>,
    errors: &mut Vec<ValidationError>,
)
    ensures
        errors_view(final(errors)@) == errors_view(old(errors)@) + one_reference_errors(
            ws@,
            r@,
            match computed {
                Some(s) => Some(s@),
                None => None,
            },
        ),
{
    let ghost e0 = errors_view(errors@);
    match resolve_reference(ws, &r.name) {
        Some(instance) => match &r.field {
            Some(field_name) => match resolve_type_at_path(ws, &instance.file, &instance.instance_type) {
                Some(hub_type) => {
                    let is_field = has_field_named(&hub_type.fields, field_name);
                    let is_role = has_role_named(&hub_type.roles, field_name);
                    if !is_field && !is_role {
                        let m = concat5(
                            "Unknown field '",
                            field_name.as_str(),
                            "' for type '",
                            instance.instance_type.as_str(),
                            "'",
                        );
                        push_diag(errors, r.range, m);
                    } else {
                        match (&r.text, computed) {
                            (Some(text_val), Some(c)) => {
                                if *c != *text_val {
                                    let m = concat5(
                                        "Out of sync: expected '",
                                        c.as_str(),
                                        "', found '",
                                        text_val.as_str(),
                                        "'",
                                    );
                                    push_diag(errors, r.range, m);
                                } else {
                                    assert(errors_view(errors@) =~= e0 + Seq::<ErrorView>::empty());
                                }
                            },
                            _ => {
                                assert(errors_view(errors@) =~= e0 + Seq::<ErrorView>::empty());
                            },
                        }
                    }
                },
                None => {
                    assert(errors_view(errors@) =~= e0 + Seq::<ErrorView>::empty());
                },
            },
            None => {
                assert(errors_view(errors@) =~= e0 + Seq::<ErrorView>::empty());
            },
        },
        None => {
            let m = concat3("Hub reference '", r.name.as_str(), "' not found");
            push_diag(errors, r.range, m);
        },
    }
}

fn check_tag(t: &crate::model::TwxmlTag, errors: &mut Vec<ValidationError>)
    ensures
        errors_view(final(errors)@) == errors_view(old(errors)@) + one_tag_errors(t@),
{
    let ghost e0 = errors_view(errors@);
    if !is_valid_twxml_tag(t.name.as_str()) {
        let m = if str_eq(t.name.as_str(), "metadata") {
            owned("Unknown TWXML tag 'metadata'. Did you mean '<meta />' at the document root?")
        } else {
            concat3("Unknown TWXML tag '", t.name.as_str(), "'")
        };
        push_diag(errors, t.range, m);
    }
    let ghost e1 = errors_view(errors@);
    if str_eq(t.name.as_str(), "heading") {
        match &t.parent_name {
            Some(parent_name) => {
                if !str_eq(parent_name.as_str(), "section") && !str_eq(parent_name.as_str(), "document")
                    && !str_eq(parent_name.as_str(), "body") {
                    let m = concat5(
                        "Invalid nesting: tag '",
                        t.name.as_str(),
                        "' is not allowed as a child of '",
                        parent_name.as_str(),
                        "'",
                    );
                    push_diag(errors, t.range, m);
                }
            },
            None => {},
        }
    }
    assert(errors_view(errors@) =~= e0 + one_tag_errors(t@));
}

/// Checks the TWXML file `file` of `ws` and appends its diagnostics.
/// `tree` is the syntax tree of the file's contents, when it could be
/// parsed; `computed[k]` is the text of the value of the field that the
/// `k`-th hub reference shows, when that value could be computed (a
/// missing entry counts as not computed).
#[verifier::spinoff_prover]
#[verifier::rlimit(30)]
pub fn validate_twxml(
    ws: &Workspace,
    file: &WorkspaceFile,
    tree: Option<&SyntaxNode>,
    computed: &Vec<Option<String>>,
    errors: &mut Vec<ValidationError>,
)
    ensures
        errors_view(final(errors)@) == errors_view(old(errors)@) + twxml_errors(
            ws@,
            file@,
            match tree {
                Some(t) => Some(t@),
                None => None,
            },
            computed_view(computed@),
        ),
{
    let ghost e0 = errors_view(errors@);
    let ghost f = file@;
    let ghost cv = computed_view(computed@);
    check_skeleton(file, errors);
    let ghost e1 = errors_view(errors@);
    let mut i: usize = 0;
    assert(f.references.take(0) =~= Seq::<ReferenceView>::empty());
    assert(errors_view(errors@) =~= e1 + reference_errors(ws@, f.references.take(0), cv));
    while i < file.references.len()
        invariant
            i <= file.references.len(),
            f == file@,
            cv == computed_view(computed@),
            errors_view(errors@) == e1 + reference_errors(ws@, f.references.take(i as int), cv),
        decreases file.references.len() - i,
    {
        let none: Option<String> = None;
        let c = if i < computed.len() { &computed[i] } else { &none };
        check_reference(ws, &file.references[i], c, errors);
        proof {
            let t = f.references.take(i + 1);
            assert(t.drop_last() =~= f.references.take(i as int));
            assert(t.last() == file.references@[i as int]@);
            assert(computed_at(cv, t.len() - 1) == match *c {
                Some(s) => Some(s@),
                None => None,
            });
            assert(errors_view(errors@) =~= e1 + reference_errors(ws@, t, cv));
        }
        i = i + 1;
    }
    assert(f.references.take(file.references.len() as int) =~= f.references);
    let ghost e2 = errors_view(errors@);
    let mut k: usize = 0;
    assert(f.tags.take(0) =~= Seq::<TagView>::empty());
    assert(errors_view(errors@) =~= e2 + tag_errors(f.tags.take(0)));
    while k < file.tags.len()
        invariant
            k <= file.tags.len(),
            f == file@,
            errors_view(errors@) == e2 + tag_errors(f.tags.take(k as int)),
        decreases file.tags.len() - k,
    {
        check_tag(&file.tags[k], errors);
        proof {
            assert(f.tags.take(k + 1).drop_last() =~= f.tags.take(k as int));
            assert(f.tags.take(k + 1).last() == file.tags@[k as int]@);
            assert(errors_view(errors@) =~= e2 + tag_errors(f.tags.take(k + 1)));
        }
        k = k + 1;
    }
    assert(f.tags.take(file.tags.len() as int) =~= f.tags);
    let ghost e3 = errors_view(errors@);
    match tree {
        Some(root) => {
            validate_tag_structure(root, file.source.contents.as_str(), errors);
        },
        None => {},
    }
    assert(errors_view(errors@) =~= e0 + twxml_errors(
        ws@,
        f,
        match tree {
            Some(t) => Some(t@),
            None => None,
        },
        cv,
    ));
}

} // verus!
