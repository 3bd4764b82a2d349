//! Finding the node of a syntax tree under an editor position: the descent
//! from the root that, level by level, enters the first child whose range
//! holds the position, and the path of nodes it passes through.
use vstd::prelude::*;

use crate::position::{LspPosition, LspRange};
use crate::syntax::{lemma_nodes_view, node_view, NodeView, SyntaxNode};

verus! {

/// `a` comes before `b` (line first, then column).
pub open spec fn pos_lt(a: LspPosition, b: LspPosition) -> bool {
    a.line < b.line || (a.line == b.line && a.character < b.character)
}

/// Whether `a` comes before `b`.
pub fn position_lt(a: LspPosition, b: LspPosition) -> (r: bool)
    ensures
        r == pos_lt(a, b),
{
    a.line < b.line || (a.line == b.line && a.character < b.character)
}

/// Whether a node with range `r` reaches past `p`: a non-empty range must
/// end after `p`, an empty one at or after it.
pub open spec fn reaches_past(r: LspRange, p: LspPosition) -> bool {
    if r.start == r.end {
        !pos_lt(r.end, p)
    } else {
        pos_lt(p, r.end)
    }
}

/// The child the descent enters at `p`, scanning `cs` from index `i`:
/// children that do not reach past `p` are passed over; the first one that
/// does is entered if it starts at or before `p`, and otherwise the scan
/// stops without entering any.
pub open spec fn enter_from(cs: Seq<NodeView>, p: LspPosition, i: int) -> Option<int>
    decreases cs.len() - i,
{
    if i < 0 || i >= cs.len() {
        None
    } else if !reaches_past(cs[i].range, p) {
        enter_from(cs, p, i + 1)
    } else if pos_lt(p, cs[i].range.start) {
        None
    } else {
        Some(i)
    }
}

/// The child entered lies in the scanned part.
pub proof fn lemma_enter_from_bounds(cs: Seq<NodeView>, p: LspPosition, i: int)
    ensures
        enter_from(cs, p, i) matches Some(k) ==> 0 <= i <= k < cs.len(),
    decreases cs.len() - i,
{
    if 0 <= i < cs.len() && !reaches_past(cs[i].range, p) {
        lemma_enter_from_bounds(cs, p, i + 1);
    }
}

/// The nodes the descent at `p` passes through, from `n` down to the
/// deepest node it reaches.
pub open spec fn descent_path(n: NodeView, p: LspPosition) -> Seq<NodeView>
    decreases n,
{
    seq![n] + match enter_from(n.children, p, 0) {
        Some(k) => if 0 <= k < n.children.len() {
            descent_path(n.children[k], p)
        } else {
            Seq::empty()
        },
        None => Seq::empty(),
    }
}

/// The index of the child of `n` that the descent at `p` enters.
pub fn enter_child(n: &SyntaxNode, p: LspPosition) -> (r: Option<usize>)
    ensures
        match r {
            Some(k) => k < n.children.len() && enter_from(n@.children, p, 0) == Some(k as int),
            None => enter_from(n@.children, p, 0) is None,
        },
{
    proof {
        lemma_nodes_view(n.children@);
    }
    let ghost cs = n@.children;
    let mut i: usize = 0;
    while i < n.children.len()
        invariant
            i <= n.children.len(),
            cs == n@.children,
            cs.len() == n.children@.len(),
            forall|j: int| 0 <= j < n.children@.len() ==> #[trigger] cs[j] == node_view(n.children@[j]),
            enter_from(cs, p, 0) == enter_from(cs, p, i as int),
        decreases n.children.len() - i,
    {
        let r = n.children[i].range;
        assert(cs[i as int].range == r);
        let past = if r.start == r.end {
            !position_lt(r.end, p)
        } else {
            position_lt(p, r.end)
        };
        if past {
            if position_lt(p, r.start) {
                return None;
            }
            return Some(i);
        }
        i = i + 1;
    }
    None
}

/// The views of a sequence of node references.
pub open spec fn refs_view(s: Seq<&SyntaxNode>) -> Seq<NodeView> {
    s.map_values(|x: &SyntaxNode| node_view(*x))
}

/// The nodes the descent from `root` at `p` passes through, root first.
pub fn descend<'a>(root: &'a SyntaxNode, p: LspPosition) -> (path: Vec<&'a SyntaxNode>)
    ensures
        refs_view(path@) == descent_path(root@, p),
        path@.len() > 0,
{
    let mut path: Vec<&'a SyntaxNode> = Vec::new();
    path.push(root);
    let mut cur: &'a SyntaxNode = root;
    let mut step = enter_child(cur, p);
    assert(refs_view(path@).drop_last() =~= Seq::<NodeView>::empty());
    assert(refs_view(path@).drop_last() + descent_path(cur@, p) =~= descent_path(root@, p));
    while step.is_some()
        invariant
            path@.len() > 0,
            path@.last() == cur,
            refs_view(path@).drop_last() + descent_path(cur@, p) == descent_path(root@, p),
            match step {
                Some(k) => k < cur.children.len() && enter_from(cur@.children, p, 0) == Some(k as int),
                None => enter_from(cur@.children, p, 0) is None,
            },
        decreases descent_path(cur@, p).len(),
    {
        let k = step.unwrap();
        proof {
            lemma_nodes_view(cur.children@);
        }
        let next: &'a SyntaxNode = &cur.children[k];
        let ghost before = refs_view(path@);
        assert(cur@.children[k as int] == next@);
        assert(descent_path(cur@, p) =~= seq![cur@] + descent_path(next@, p));
        path.push(next);
        assert(refs_view(path@) =~= before.push(next@));
        assert(refs_view(path@).drop_last() =~= before);
        assert(before =~= before.drop_last() + seq![cur@]);
        assert(refs_view(path@).drop_last() + descent_path(next@, p) =~= descent_path(root@, p));
        cur = next;
        step = enter_child(cur, p);
    }
    assert(descent_path(cur@, p) =~= seq![cur@]);
    assert(refs_view(path@) =~= refs_view(path@).drop_last() + seq![cur@]);
    path
}

} // verus!
