//! Links in documents: the `link` and `hubref` tags of a TWXML tree, how
//! an `href` splits into a file and an anchor, the line an anchor names in
//! a TWXML file, where a linked instance lies, and the files a HubGS
//! document imports.
use vstd::prelude::*;

use crate::model::{opt_view, HubInstance, Workspace};
use crate::position::LspRange;
use crate::resolution::{resolve_reference, spec_resolve_reference};
use crate::syntax::{field_child, lemma_nodes_view, node_view, NodeView, SyntaxNode};
use crate::text::{owned, spec_starts_with, starts_with, str_eq, string_from_range, to_chars};
use crate::twxml_tree::{last_attr, unquote_text, unquoted};

verus! {

// ---------- link sites ----------

/// What a link tag points at: an address (`href` of a `link`) or an
/// instance (`id` of a `hubref`).
#[derive(Clone, Copy, Debug, PartialEq, Eq, Structural)]
pub enum LinkKind {
    Href,
    Instance,
}

/// A link found in a TWXML tree: its kind, the attribute's value with
/// quotes trimmed, and the range of the value.
pub struct LinkSite {
    pub kind: LinkKind,
    pub value: String,
    pub range: LspRange,
}

/// The view of a link site.
pub struct LinkSiteView {
    pub kind: LinkKind,
    pub value: Seq<char>,
    pub range: LspRange,
}

impl View for LinkSite {
    type V = LinkSiteView;

    open spec fn view(&self) -> LinkSiteView {
        LinkSiteView { kind: self.kind, value: self.value@, range: self.range }
    }
}

/// The views of a sequence of link sites.
pub open spec fn sites_view(v: Seq<LinkSite>) -> Seq<LinkSiteView> {
    v.map_values(|s: LinkSite| s@)
}

/// The link a node makes: a start tag or self-closing element named
/// `link` with an `href`, or named `hubref` with an `id` (the last such
/// attribute counts).
pub open spec fn site_of(n: NodeView) -> Option<LinkSiteView> {
    if n.kind == "start_tag"@ || n.kind == "self_closing_element"@ {
        match field_child(n, "name"@) {
            Some(nm) => if nm.text == "link"@ {
                match last_attr(n.children, "href"@) {
                    Some(v) => Some(LinkSiteView { kind: LinkKind::Href, value: unquoted(v.text), range: v.range }),
                    None => None,
                }
            } else if nm.text == "hubref"@ {
                match last_attr(n.children, "id"@) {
                    Some(v) => Some(LinkSiteView { kind: LinkKind::Instance, value: unquoted(v.text), range: v.range }),
                    None => None,
                }
            } else {
                None
            },
            None => None,
        }
    } else {
        None
    }
}

/// The links of the subtree `n`, a node before its children.
pub open spec fn sites_in(n: NodeView) -> Seq<LinkSiteView>
    decreases n,
{
    (match site_of(n) {
        Some(s) => seq![s],
        None => Seq::empty(),
    }) + sites_in_children(n.children)
}

/// The links of the subtrees `cs`, in order.
pub open spec fn sites_in_children(cs: Seq<NodeView>) -> Seq<LinkSiteView>
    decreases cs,
{
    if cs.len() == 0 {
        Seq::empty()
    } else {
        sites_in_children(cs.drop_last()) + sites_in(cs.last())
    }
}

fn attr_value(n: &SyntaxNode, name: &str) -> (r: Option<(String, LspRange)>)
    ensures
        match r {
            Some((v, range)) => last_attr(n@.children, name@) matches Some(a) && v@ == unquoted(a.text) && range
                == a.range,
            None => last_attr(n@.children, name@) is None,
        },
{
    match crate::twxml_tree::last_attr_index(n, name) {
        Some(i) => {
            proof {
                lemma_nodes_view(n.children@);
                lemma_nodes_view(n.children@[i as int].children@);
            }
            let a = &n.children[i].children[2];
            Some((unquote_text(a.text.as_str()), a.range))
        },
        None => None,
    }
}

fn site_at(n: &SyntaxNode) -> (r: Option<LinkSite>)
    ensures
        match r {
            Some(s) => site_of(n@) == Some(s@),
            None => site_of(n@) is None,
        },
{
    if !(str_eq(n.kind.as_str(), "start_tag") || str_eq(n.kind.as_str(), "self_closing_element")) {
        return None;
    }
    let k = match n.child_by_field_name("name") {
        Some(k) => k,
        None => {
            return None;
        },
    };
    proof {
        lemma_nodes_view(n.children@);
    }
    let tag = n.children[k].text.as_str();
    if str_eq(tag, "link") {
        match attr_value(n, "href") {
            Some((value, range)) => Some(LinkSite { kind: LinkKind::Href, value, range }),
            None => None,
        }
    } else if str_eq(tag, "hubref") {
        match attr_value(n, "id") {
            Some((value, range)) => Some(LinkSite { kind: LinkKind::Instance, value, range }),
            None => None,
        }
    } else {
        None
    }
}

fn collect_sites(n: &SyntaxNode, out: &mut Vec<LinkSite>)
    ensures
        sites_view(final(out)@) == sites_view(old(out)@) + sites_in(n@),
    decreases n,
{
    let ghost o0 = sites_view(out@);
    match site_at(n) {
        Some(s) => {
            let ghost sv = s@;
            out.push(s);
            assert(sites_view(out@) =~= o0.push(sv));
        },
        None => {},
    }
    let ghost o1 = sites_view(out@);
    assert(o1 =~= o0 + match site_of(n@) {
        Some(s) => seq![s],
        None => Seq::<LinkSiteView>::empty(),
    });
    proof {
        lemma_nodes_view(n.children@);
    }
    let ghost cs = n@.children;
    let mut i: usize = 0;
    assert(cs.take(0) =~= Seq::<NodeView>::empty());
    while i < n.children.len()
        invariant
            i <= n.children.len(),
            cs == n@.children,
            cs.len() == n.children@.len(),
            forall|j: int| 0 <= j < n.children@.len() ==> #[trigger] cs[j] == node_view(n.children@[j]),
            sites_view(out@) == o1 + sites_in_children(cs.take(i as int)),
        decreases n.children.len() - i,
    {
        let c = &n.children[i];
        assert(cs.take(i + 1).drop_last() =~= cs.take(i as int));
        assert(cs.take(i + 1).last() == c@);
        assert(decreases_to!(n => n.children));
        assert(decreases_to!(n.children => n.children@));
        assert(decreases_to!(n.children@ => n.children@[i as int]));
        collect_sites(c, out);
        assert(sites_view(out@) =~= o1 + sites_in_children(cs.take(i + 1)));
        i = i + 1;
    }
    assert(cs.take(i as int) =~= cs);
}

/// The links of a TWXML tree (see `sites_in`).
pub fn link_sites(root: &SyntaxNode) -> (r: Vec<LinkSite>)
    ensures
        sites_view(r@) == sites_in(root@),
{
    let mut out: Vec<LinkSite> = Vec::new();
    assert(sites_view(out@) =~= Seq::<LinkSiteView>::empty());
    collect_sites(root, &mut out);
    assert(sites_view(out@) =~= sites_in(root@));
    out
}

// ---------- hrefs ----------

/// How an `href` reads.
pub struct HrefParts {
    /// An `http://` or `https://` address, taken as it is.
    pub external: bool,
    /// The file it names, relative to the linking document.
    pub path: Option<String>,
    /// The anchor after `#`.
    pub anchor: Option<String>,
}

/// The number of `#` in `s`.
pub open spec fn hash_count(s: Seq<char>) -> nat
    decreases s.len(),
{
    if s.len() == 0 {
        0
    } else {
        hash_count(s.drop_last()) + if s.last() == '#' { 1nat } else { 0nat }
    }
}

/// The index of the first `#` of `s` (its length when there is none).
pub open spec fn first_hash(s: Seq<char>) -> int
    decreases s.len(),
{
    if s.len() == 0 {
        0
    } else if s[0] == '#' {
        0
    } else {
        1 + first_hash(s.drop_first())
    }
}

/// How `h` reads: an `http`/`https` address is external; with exactly one
/// `#`, the file before it (none when empty) and the anchor after it; else
/// a leading `#` gives an anchor only, and anything else a file only.
pub open spec fn href_parts_of(h: Seq<char>) -> (bool, Option<Seq<char>>, Option<Seq<char>>) {
    if spec_starts_with(h, "http://"@) || spec_starts_with(h, "https://"@) {
        (true, None, None)
    } else if hash_count(h) == 1 {
        let i = first_hash(h);
        (false, if i == 0 { None } else { Some(h.take(i)) }, Some(h.skip(i + 1)))
    } else if h.len() > 0 && h[0] == '#' {
        (false, None, Some(h.skip(1)))
    } else {
        (false, Some(h), None)
    }
}

proof fn lemma_first_hash(s: Seq<char>)
    ensures
        0 <= first_hash(s) <= s.len(),
        first_hash(s) < s.len() ==> s[first_hash(s)] == '#',
        forall|k: int| 0 <= k < first_hash(s) ==> s[k] != '#',
        hash_count(s) > 0 ==> first_hash(s) < s.len(),
    decreases s.len(),
{
    if s.len() > 0 {
        lemma_first_hash(s.drop_first());
        assert forall|k: int| 0 <= k < first_hash(s) implies s[k] != '#' by {
            if k > 0 {
                assert(s[k] == s.drop_first()[k - 1]);
            }
        }
        if hash_count(s) > 0 && s[0] != '#' {
            lemma_hash_count_first(s);
        }
    }
}

proof fn lemma_hash_count_first(s: Seq<char>)
    requires
        s.len() > 0,
    ensures
        hash_count(s) == hash_count(s.drop_first()) + if s[0] == '#' { 1nat } else { 0nat },
    decreases s.len(),
{
    if s.len() > 1 {
        lemma_hash_count_first(s.drop_last());
        assert(s.drop_last().drop_first() =~= s.drop_first().drop_last());
    } else {
        assert(s.drop_first() =~= Seq::<char>::empty());
        assert(s.drop_last() =~= Seq::<char>::empty());
    }
}

/// How an `href` reads (see `href_parts_of`).
pub fn split_href(href: &str) -> (r: HrefParts)
    ensures
        (r.external, opt_view(r.path), opt_view(r.anchor)) == href_parts_of(href@),
{
    if starts_with(href, "http://") || starts_with(href, "https://") {
        return HrefParts { external: true, path: None, anchor: None };
    }
    let v = to_chars(href);
    let mut count: usize = 0;
    let mut first: usize = v.len();
    let mut i: usize = 0;
    assert(v@.take(0) =~= Seq::<char>::empty());
    proof {
        lemma_first_hash(v@);
    }
    while i < v.len()
        invariant
            i <= v.len(),
            v@ == href@,
            count == hash_count(v@.take(i as int)),
            count <= i,
            count == 0 ==> first == v.len(),
            count > 0 ==> first == first_hash(v@),
            0 <= first_hash(v@) <= v@.len(),
            first_hash(v@) < v@.len() ==> v@[first_hash(v@)] == '#',
            forall|k: int| 0 <= k < first_hash(v@) ==> v@[k] != '#',
            count == 0 ==> i <= first_hash(v@),
        decreases v.len() - i,
    {
        assert(v@.take(i + 1).drop_last() =~= v@.take(i as int));
        if v[i] == '#' {
            if count == 0 {
                first = i;
            }
            count = count + 1;
        }
        i = i + 1;
    }
    assert(v@.take(i as int) =~= v@);
    if count == 1 {
        let path = if first == 0 {
            None
        } else {
            Some(string_from_range(&v, 0, first))
        };
        return HrefParts { external: false, path, anchor: Some(string_from_range(&v, first + 1, v.len())) };
    }
    if v.len() > 0 && v[0] == '#' {
        return HrefParts { external: false, path: None, anchor: Some(string_from_range(&v, 1, v.len())) };
    }
    HrefParts { external: false, path: Some(owned(href)), anchor: None }
}

// ---------- anchors ----------

/// Among `cs`, an attribute named `id`, `alias` or `class` has the value
/// `anchor` (quotes trimmed).
pub open spec fn has_anchor(cs: Seq<NodeView>, anchor: Seq<char>) -> bool {
    exists|i: int|
        0 <= i < cs.len() && (#[trigger] cs[i]).kind == "attribute"@ && cs[i].children.len() > 2 && (
        cs[i].children[0].text == "id"@ || cs[i].children[0].text == "alias"@ || cs[i].children[0].text
            == "class"@) && unquoted(cs[i].children[2].text) == anchor
}

/// The 1-based line of the first tag of the subtree `n` (a node before its
/// children) that carries the anchor.
pub open spec fn anchor_line(n: NodeView, anchor: Seq<char>) -> Option<nat>
    decreases n,
{
    if (n.kind == "start_tag"@ || n.kind == "self_closing_element"@) && has_anchor(n.children, anchor) {
        Some((n.range.start.line + 1) as nat)
    } else {
        anchor_line_children(n.children, anchor)
    }
}

/// The line of the first anchor among the subtrees `cs`.
pub open spec fn anchor_line_children(cs: Seq<NodeView>, anchor: Seq<char>) -> Option<nat>
    decreases cs,
{
    if cs.len() == 0 {
        None
    } else {
        match anchor_line_children(cs.drop_last(), anchor) {
            Some(l) => Some(l),
            None => anchor_line(cs.last(), anchor),
        }
    }
}

fn carries_anchor(n: &SyntaxNode, anchor: &str) -> (b: bool)
    ensures
        b == has_anchor(n@.children, anchor@),
{
    proof {
        lemma_nodes_view(n.children@);
    }
    let ghost cs = n@.children;
    let mut i: usize = 0;
    while i < n.children.len()
        invariant
            i <= n.children.len(),
            cs == n@.children,
            cs.len() == n.children@.len(),
            forall|j: int| 0 <= j < n.children@.len() ==> #[trigger] cs[j] == node_view(n.children@[j]),
            forall|j: int|
                0 <= j < i ==> !((#[trigger] cs[j]).kind == "attribute"@ && cs[j].children.len() > 2 && (
                cs[j].children[0].text == "id"@ || cs[j].children[0].text == "alias"@ || cs[j].children[0].text
                    == "class"@) && unquoted(cs[j].children[2].text) == anchor@),
        decreases n.children.len() - i,
    {
        let c = &n.children[i];
        proof {
            lemma_nodes_view(c.children@);
        }
        if str_eq(c.kind.as_str(), "attribute") && c.children.len() > 2 {
            let name = c.children[0].text.as_str();
            if str_eq(name, "id") || str_eq(name, "alias") || str_eq(name, "class") {
                let value = unquote_text(c.children[2].text.as_str());
                if str_eq(value.as_str(), anchor) {
                    assert(cs[i as int] == c@);
                    return true;
                }
            }
        }
        i = i + 1;
    }
    false
}

/// The 1-based line of the first tag of the TWXML tree `n` carrying the
/// anchor (see `anchor_line`).
pub fn find_anchor_line(n: &SyntaxNode, anchor: &str) -> (r: Option<u64>)
    ensures
        match r {
            Some(l) => anchor_line(n@, anchor@) == Some(l as nat),
            None => anchor_line(n@, anchor@) is None,
        },
    decreases n,
{
    if (str_eq(n.kind.as_str(), "start_tag") || str_eq(n.kind.as_str(), "self_closing_element")) && carries_anchor(
        n,
        anchor,
    ) {
        return Some(n.range.start.line as u64 + 1);
    }
    proof {
        lemma_nodes_view(n.children@);
    }
    let ghost cs = n@.children;
    let mut i: usize = 0;
    assert(cs.take(0) =~= Seq::<NodeView>::empty());
    while i < n.children.len()
        invariant
            i <= n.children.len(),
            cs == n@.children,
            cs.len() == n.children@.len(),
            forall|j: int| 0 <= j < n.children@.len() ==> #[trigger] cs[j] == node_view(n.children@[j]),
            anchor_line_children(cs.take(i as int), anchor@) is None,
            anchor_line(n@, anchor@) == anchor_line_children(cs, anchor@),
        decreases n.children.len() - i,
    {
        let c = &n.children[i];
        assert(cs.take(i + 1).drop_last() =~= cs.take(i as int));
        assert(cs.take(i + 1).last() == c@);
        assert(decreases_to!(n => n.children));
        assert(decreases_to!(n.children => n.children@));
        assert(decreases_to!(n.children@ => n.children@[i as int]));
        match find_anchor_line(c, anchor) {
            Some(l) => {
                proof {
                    lemma_first_found(cs, i as int, anchor@);
                }
                return Some(l);
            },
            None => {},
        }
        i = i + 1;
    }
    assert(cs.take(i as int) =~= cs);
    None
}

/// When the first `i` subtrees carry no anchor and subtree `i` does, the
/// first anchor of all of them is that one.
proof fn lemma_first_found(cs: Seq<NodeView>, i: int, anchor: Seq<char>)
    requires
        0 <= i < cs.len(),
        anchor_line_children(cs.take(i), anchor) is None,
        anchor_line(cs[i], anchor) is Some,
    ensures
        anchor_line_children(cs, anchor) == anchor_line(cs[i], anchor),
    decreases cs.len(),
{
    if cs.len() == i + 1 {
        assert(cs.drop_last() =~= cs.take(i));
    } else {
        assert(cs.drop_last().take(i) =~= cs.take(i));
        lemma_first_found(cs.drop_last(), i, anchor);
    }
}

// ---------- instances and imports ----------

/// Where a link to the instance `id` leads: the path of its file and the
/// 1-based line where it is declared.
pub open spec fn instance_target_of(ws: Seq<crate::model::FileView>, id: Seq<char>) -> Option<(Seq<char>, nat)> {
    match spec_resolve_reference(ws, id) {
        Some(i) => Some((i.file, (i.range.start.line + 1) as nat)),
        None => None,
    }
}

/// Where a link to an instance leads (see `instance_target_of`).
pub fn instance_link_target(ws: &Workspace, id: &String) -> (r: Option<(String, u64)>)
    ensures
        match r {
            Some((p, l)) => instance_target_of(ws@, id@) == Some((p@, l as nat)),
            None => instance_target_of(ws@, id@) is None,
        },
{
    match resolve_reference(ws, id) {
        Some(inst) => Some((inst.file.clone(), inst.range.start.line as u64 + 1)),
        None => None,
    }
}

/// The string children of an import statement, quotes trimmed, with their
/// ranges.
pub open spec fn import_strings(cs: Seq<NodeView>) -> Seq<(Seq<char>, LspRange)>
    decreases cs.len(),
{
    if cs.len() == 0 {
        Seq::empty()
    } else {
        import_strings(cs.drop_last()) + if cs.last().kind == "string"@ {
            seq![(unquoted(cs.last().text), cs.last().range)]
        } else {
            Seq::empty()
        }
    }
}

/// The files the import statements of the subtree `n` name, a node before
/// its children.
pub open spec fn imports_in(n: NodeView) -> Seq<(Seq<char>, LspRange)>
    decreases n,
{
    (if n.kind == "import_statement"@ {
        import_strings(n.children)
    } else {
        Seq::empty()
    }) + imports_in_children(n.children)
}

/// The files the import statements of the subtrees `cs` name, in order.
pub open spec fn imports_in_children(cs: Seq<NodeView>) -> Seq<(Seq<char>, LspRange)>
    decreases cs,
{
    if cs.len() == 0 {
        Seq::empty()
    } else {
        imports_in_children(cs.drop_last()) + imports_in(cs.last())
    }
}

/// The views of a sequence of named ranges.
pub open spec fn named_ranges_view(v: Seq<(String, LspRange)>) -> Seq<(Seq<char>, LspRange)> {
    v.map_values(|x: (String, LspRange)| (x.0@, x.1))
}

fn collect_imports(n: &SyntaxNode, out: &mut Vec<(String, LspRange)>)
    ensures
        named_ranges_view(final(out)@) == named_ranges_view(old(out)@) + imports_in(n@),
    decreases n,
{
    let ghost o0 = named_ranges_view(out@);
    proof {
        lemma_nodes_view(n.children@);
    }
    let ghost cs = n@.children;
    if str_eq(n.kind.as_str(), "import_statement") {
        let mut i: usize = 0;
        assert(cs.take(0) =~= Seq::<NodeView>::empty());
        while i < n.children.len()
            invariant
                i <= n.children.len(),
                cs == n@.children,
                cs.len() == n.children@.len(),
                forall|j: int| 0 <= j < n.children@.len() ==> #[trigger] cs[j] == node_view(n.children@[j]),
                named_ranges_view(out@) == o0 + import_strings(cs.take(i as int)),
            decreases n.children.len() - i,
        {
            let c = &n.children[i];
            assert(cs.take(i + 1).drop_last() =~= cs.take(i as int));
            assert(cs.take(i + 1).last() == c@);
            let ghost before = named_ranges_view(out@);
            if str_eq(c.kind.as_str(), "string") {
                let item = (unquote_text(c.text.as_str()), c.range);
                let ghost iv = (item.0@, item.1);
                out.push(item);
                assert(named_ranges_view(out@) =~= before.push(iv));
            }
            assert(named_ranges_view(out@) =~= o0 + import_strings(cs.take(i + 1)));
            i = i + 1;
        }
        assert(cs.take(i as int) =~= cs);
    }
    let ghost o1 = named_ranges_view(out@);
    assert(o1 =~= o0 + (if n@.kind == "import_statement"@ {
        import_strings(cs)
    } else {
        Seq::<(Seq<char>, LspRange)>::empty()
    }));
    let mut i: usize = 0;
    assert(cs.take(0) =~= Seq::<NodeView>::empty());
    while i < n.children.len()
        invariant
            i <= n.children.len(),
            cs == n@.children,
            cs.len() == n.children@.len(),
            forall|j: int| 0 <= j < n.children@.len() ==> #[trigger] cs[j] == node_view(n.children@[j]),
            named_ranges_view(out@) == o1 + imports_in_children(cs.take(i as int)),
        decreases n.children.len() - i,
    {
        let c = &n.children[i];
        assert(cs.take(i + 1).drop_last() =~= cs.take(i as int));
        assert(cs.take(i + 1).last() == c@);
        assert(decreases_to!(n => n.children));
        assert(decreases_to!(n.children => n.children@));
        assert(decreases_to!(n.children@ => n.children@[i as int]));
        collect_imports(c, out);
        assert(named_ranges_view(out@) =~= o1 + imports_in_children(cs.take(i + 1)));
        i = i + 1;
    }
    assert(cs.take(i as int) =~= cs);
}

/// The files the HubGS tree `root` imports, with the ranges of their
/// names (see `imports_in`).
pub fn get_hubgs_imports(root: &SyntaxNode) -> (r: Vec<(String, LspRange)>)
    ensures
        named_ranges_view(r@) == imports_in(root@),
{
    let mut out: Vec<(String, LspRange)> = Vec::new();
    assert(named_ranges_view(out@) =~= Seq::<(Seq<char>, LspRange)>::empty());
    collect_imports(root, &mut out);
    assert(named_ranges_view(out@) =~= imports_in(root@));
    out
}

} // verus!
