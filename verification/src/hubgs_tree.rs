//! Questions about the HubGS syntax tree at an editor position: the hub
//! type in force there, whether it lies inside a hub definition, and what
//! completion fits there.
use vstd::prelude::*;

use crate::layout::{spec_trim, trim_ws};
use crate::model::opt_view;
use crate::position::LspPosition;
use crate::syntax::{field_child, lemma_nodes_view, node_view, NodeView, SyntaxNode};
use crate::text::str_eq;
use crate::tree_query::{descend, descent_path, pos_lt, position_lt, refs_view};

verus! {

/// Scanning `path` upward from index `k - 1`, the hub type of the first hub
/// definition (its first child's text) or instance block (the text of its
/// `type` field) met; none when that node lacks the part or none is met.
pub open spec fn hub_type_up(path: Seq<NodeView>, k: int) -> Option<Seq<char>>
    decreases k,
{
    if k <= 0 || k > path.len() {
        None
    } else {
        let n = path[k - 1];
        if n.kind == "hub_definition"@ {
            if n.children.len() > 0 {
                Some(n.children[0].text)
            } else {
                None
            }
        } else if n.kind == "instance_block"@ {
            match field_child(n, "type"@) {
                Some(t) => Some(t.text),
                None => None,
            }
        } else {
            hub_type_up(path, k - 1)
        }
    }
}

/// The hub type in force at `pos` in the HubGS tree `root`: that of the
/// innermost hub definition or instance block holding the node under `pos`.
pub fn get_hub_type_at_position(root: &SyntaxNode, pos: LspPosition) -> (r: Option<String>)
    ensures
        opt_view(r) == hub_type_up(descent_path(root@, pos), descent_path(root@, pos).len() as int),
{
    let path = descend(root, pos);
    let ghost pv = refs_view(path@);
    let mut k = path.len();
    while k > 0
        invariant
            k <= path@.len(),
            pv == refs_view(path@),
            pv == descent_path(root@, pos),
            hub_type_up(pv, pv.len() as int) == hub_type_up(pv, k as int),
        decreases k,
    {
        let n: &SyntaxNode = path[k - 1];
        assert(pv[k - 1] == n@);
        proof {
            lemma_nodes_view(n.children@);
        }
        if str_eq(n.kind.as_str(), "hub_definition") {
            if n.children.len() > 0 {
                return Some(n.children[0].text.clone());
            }
            return None;
        } else if str_eq(n.kind.as_str(), "instance_block") {
            match n.child_by_field_name("type") {
                Some(i) => {
                    return Some(n.children[i].text.clone());
                },
                None => {
                    return None;
                },
            }
        }
        k = k - 1;
    }
    None
}

/// Some node on the path is a hub definition.
pub open spec fn has_hub_definition(path: Seq<NodeView>) -> bool {
    exists|i: int| 0 <= i < path.len() && (#[trigger] path[i]).kind == "hub_definition"@
}

/// Whether the node under `pos` in the HubGS tree `root` lies inside a hub
/// definition.
pub fn is_in_hub_definition(root: &SyntaxNode, pos: LspPosition) -> (b: bool)
    ensures
        b == has_hub_definition(descent_path(root@, pos)),
{
    let path = descend(root, pos);
    let ghost pv = refs_view(path@);
    let mut k = path.len();
    while k > 0
        invariant
            k <= path@.len(),
            pv == refs_view(path@),
            pv == descent_path(root@, pos),
            forall|i: int| k <= i < pv.len() ==> (#[trigger] pv[i]).kind != "hub_definition"@,
        decreases k,
    {
        let n: &SyntaxNode = path[k - 1];
        assert(pv[k - 1] == n@);
        if str_eq(n.kind.as_str(), "hub_definition") {
            return true;
        }
        k = k - 1;
    }
    false
}

/// The completion that fits at a position of a HubGS document.
pub enum HubgsCompletionContext {
    /// Inside the list of types a role allows.
    AllowsList,
    /// On the value of an assignment inside an instance block.
    InstanceAssignment { hub_type: String, role_name: String },
    Nothing,
}

/// The view of a HubGS completion context.
pub enum HubgsContextView {
    AllowsList,
    InstanceAssignment { hub_type: Seq<char>, role_name: Seq<char> },
    Nothing,
}

impl View for HubgsCompletionContext {
    type V = HubgsContextView;

    open spec fn view(&self) -> HubgsContextView {
        match self {
            HubgsCompletionContext::AllowsList => HubgsContextView::AllowsList,
            HubgsCompletionContext::InstanceAssignment { hub_type, role_name } =>
                HubgsContextView::InstanceAssignment { hub_type: hub_type@, role_name: role_name@ },
            HubgsCompletionContext::Nothing => HubgsContextView::Nothing,
        }
    }
}

/// Scanning `path` upward from index `k - 1` and stopping at a `document`
/// node, the index of the first node of kind `kind`.
pub open spec fn innermost_up(path: Seq<NodeView>, kind: Seq<char>, k: int) -> Option<int>
    decreases k,
{
    if k <= 0 || k > path.len() {
        None
    } else if path[k - 1].kind == "document"@ {
        None
    } else if path[k - 1].kind == kind {
        Some(k - 1)
    } else {
        innermost_up(path, kind, k - 1)
    }
}

/// The first of `cs` that is the `ALLOWS` keyword, by kind or by text.
pub open spec fn first_allows(cs: Seq<NodeView>) -> Option<NodeView>
    decreases cs.len(),
{
    if cs.len() == 0 {
        None
    } else if cs[0].kind == "ALLOWS"@ || cs[0].text == "ALLOWS"@ {
        Some(cs[0])
    } else {
        first_allows(cs.drop_first())
    }
}

/// The path leads through a role whose `ALLOWS` keyword ends before the
/// node under the position starts.
pub open spec fn in_allows_list(path: Seq<NodeView>) -> bool {
    match innermost_up(path, "hub_role"@, path.len() as int) {
        Some(j) => match first_allows(path[j].children) {
            Some(a) => pos_lt(a.range.end, path.last().range.start),
            None => false,
        },
        None => false,
    }
}

/// The completion context that the descent path `path` calls for: a list
/// of allowed types after `ALLOWS`; else, inside an instance assignment
/// whose instance block names its type, that type and the assigned name
/// (both trimmed); else none.
pub open spec fn hubgs_context(path: Seq<NodeView>) -> HubgsContextView {
    if in_allows_list(path) {
        HubgsContextView::AllowsList
    } else {
        match innermost_up(path, "instance_assignment"@, path.len() as int) {
            Some(j) => if path[j].children.len() > 0 {
                match innermost_up(path, "instance_block"@, j + 1) {
                    Some(m) => match field_child(path[m], "type"@) {
                        Some(t) => HubgsContextView::InstanceAssignment {
                            hub_type: spec_trim(t.text),
                            role_name: spec_trim(path[j].children[0].text),
                        },
                        None => HubgsContextView::Nothing,
                    },
                    None => HubgsContextView::Nothing,
                }
            } else {
                HubgsContextView::Nothing
            },
            None => HubgsContextView::Nothing,
        }
    }
}

fn innermost_index(path: &Vec<&SyntaxNode>, kind: &str, k: usize) -> (r: Option<usize>)
    requires
        k <= path@.len(),
    ensures
        match r {
            Some(j) => j < k && innermost_up(refs_view(path@), kind@, k as int) == Some(j as int),
            None => innermost_up(refs_view(path@), kind@, k as int) is None,
        },
{
    let ghost pv = refs_view(path@);
    let mut i = k;
    while i > 0
        invariant
            i <= k <= path@.len(),
            pv == refs_view(path@),
            innermost_up(pv, kind@, k as int) == innermost_up(pv, kind@, i as int),
        decreases i,
    {
        let n: &SyntaxNode = path[i - 1];
        assert(pv[i - 1] == n@);
        if str_eq(n.kind.as_str(), "document") {
            return None;
        }
        if str_eq(n.kind.as_str(), kind) {
            return Some(i - 1);
        }
        i = i - 1;
    }
    None
}

fn find_allows(n: &SyntaxNode) -> (r: Option<usize>)
    ensures
        match r {
            Some(i) => i < n.children.len() && first_allows(n@.children) == Some(n@.children[i as int]),
            None => first_allows(n@.children) is None,
        },
{
    proof {
        lemma_nodes_view(n.children@);
    }
    let ghost cs = n@.children;
    let mut i: usize = 0;
    assert(cs.skip(0) =~= cs);
    while i < n.children.len()
        invariant
            i <= n.children.len(),
            cs == n@.children,
            cs.len() == n.children@.len(),
            forall|j: int| 0 <= j < n.children@.len() ==> #[trigger] cs[j] == node_view(n.children@[j]),
            first_allows(cs) == first_allows(cs.skip(i as int)),
        decreases n.children.len() - i,
    {
        assert(cs.skip(i as int).drop_first() =~= cs.skip(i + 1));
        assert(cs.skip(i as int)[0] == cs[i as int]);
        let c = &n.children[i];
        if str_eq(c.kind.as_str(), "ALLOWS") || str_eq(c.text.as_str(), "ALLOWS") {
            return Some(i);
        }
        i = i + 1;
    }
    None
}

/// The completion context at `pos` in the HubGS tree `root`.
pub fn get_hubgs_completion_context(root: &SyntaxNode, pos: LspPosition) -> (r: HubgsCompletionContext)
    ensures
        r@ == hubgs_context(descent_path(root@, pos)),
{
    let path = descend(root, pos);
    let ghost pv = refs_view(path@);
    let len = path.len();
    let last: &SyntaxNode = path[len - 1];
    assert(pv.last() == last@);
    let mut allows = false;
    match innermost_index(&path, "hub_role", len) {
        Some(j) => {
            let role: &SyntaxNode = path[j];
            assert(pv[j as int] == role@);
            proof {
                lemma_nodes_view(role.children@);
            }
            match find_allows(role) {
                Some(a) => {
                    allows = position_lt(role.children[a].range.end, last.range.start);
                },
                None => {},
            }
        },
        None => {},
    }
    assert(allows == in_allows_list(pv));
    if allows {
        return HubgsCompletionContext::AllowsList;
    }
    match innermost_index(&path, "instance_assignment", len) {
        Some(j) => {
            let assign: &SyntaxNode = path[j];
            assert(pv[j as int] == assign@);
            proof {
                lemma_nodes_view(assign.children@);
            }
            if assign.children.len() == 0 {
                return HubgsCompletionContext::Nothing;
            }
            let role_name = trim_ws(assign.children[0].text.as_str());
            match innermost_index(&path, "instance_block", j + 1) {
                Some(m) => {
                    let block: &SyntaxNode = path[m];
                    assert(pv[m as int] == block@);
                    proof {
                        lemma_nodes_view(block.children@);
                    }
                    match block.child_by_field_name("type") {
                        Some(t) => {
                            let hub_type = trim_ws(block.children[t].text.as_str());
                            HubgsCompletionContext::InstanceAssignment { hub_type, role_name }
                        },
                        None => HubgsCompletionContext::Nothing,
                    }
                },
                None => HubgsCompletionContext::Nothing,
            }
        },
        None => HubgsCompletionContext::Nothing,
    }
}

} // verus!
