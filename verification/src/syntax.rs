//! Concrete syntax trees as plain data: each node carries its kind, the
//! field under which its parent holds it, its source text and range, an
//! error flag and its children in order.
use vstd::prelude::*;

use crate::position::LspRange;

verus! {

/// A node of a concrete syntax tree.
pub struct SyntaxNode {
    /// The grammar kind of the node (`element`, `start_tag`, `text`, ...).
    pub kind: String,
    /// The field name under which the parent holds this node, if any.
    pub field: Option<String>,
    /// The source text the node spans.
    pub text: String,
    pub range: LspRange,
    /// Whether the node or something below it failed to parse.
    pub has_error: bool,
    pub children: Vec<SyntaxNode>,
}

/// The view of a syntax node.
pub struct NodeView {
    pub kind: Seq<char>,
    pub field: Option<Seq<char>>,
    pub text: Seq<char>,
    pub range: LspRange,
    pub has_error: bool,
    pub children: Seq<NodeView>,
}

/// The view of a syntax node.
pub open spec fn node_view(n: SyntaxNode) -> NodeView
    decreases n,
{
    NodeView {
        kind: n.kind@,
        field: match n.field {
            Some(f) => Some(f@),
            None => None,
        },
        text: n.text@,
        range: n.range,
        has_error: n.has_error,
        children: nodes_view(n.children@),
    }
}

/// The views of a sequence of syntax nodes.
pub open spec fn nodes_view(s: Seq<SyntaxNode>) -> Seq<NodeView>
    decreases s,
{
    if s.len() == 0 {
        Seq::empty()
    } else {
        seq![node_view(s[0])] + nodes_view(s.drop_first())
    }
}

impl View for SyntaxNode {
    type V = NodeView;

    open spec fn view(&self) -> NodeView {
        node_view(*self)
    }
}

/// Length and elements of the views of a sequence of nodes.
pub proof fn lemma_nodes_view(s: Seq<SyntaxNode>)
    ensures
        nodes_view(s).len() == s.len(),
        forall|i: int| 0 <= i < s.len() ==> #[trigger] nodes_view(s)[i] == node_view(s[i]),
    decreases s.len(),
{
    if s.len() > 0 {
        lemma_nodes_view(s.drop_first());
        assert forall|i: int| 0 <= i < s.len() implies #[trigger] nodes_view(s)[i] == node_view(s[i]) by {
            if i > 0 {
                assert(nodes_view(s)[i] == nodes_view(s.drop_first())[i - 1]);
            }
        }
    }
}

/// The first child of `n` held under the field `name`.
pub open spec fn field_child(n: NodeView, name: Seq<char>) -> Option<NodeView> {
    first_in_field(n.children, name)
}

/// The first node of `s` held under the field `name`.
pub open spec fn first_in_field(s: Seq<NodeView>, name: Seq<char>) -> Option<NodeView>
    decreases s.len(),
{
    if s.len() == 0 {
        None
    } else if s[0].field == Some(name) {
        Some(s[0])
    } else {
        first_in_field(s.drop_first(), name)
    }
}

impl SyntaxNode {
    /// The index of the first child held under the field `name`.
    pub fn child_by_field_name(&self, name: &str) -> (r: Option<usize>)
        ensures
            match r {
                Some(i) => i < self.children.len() && field_child(self@, name@) == Some(self@.children[i as int]),
                None => field_child(self@, name@) is None,
            },
    {
        proof {
            lemma_nodes_view(self.children@);
        }
        let ghost cs = self@.children;
        let mut i: usize = 0;
        assert(cs.skip(0) =~= cs);
        while i < self.children.len()
            invariant
                i <= self.children.len(),
                cs == self@.children,
                cs.len() == self.children@.len(),
                forall|j: int| 0 <= j < self.children@.len() ==> #[trigger] cs[j] == node_view(self.children@[j]),
                first_in_field(cs, name@) == first_in_field(cs.skip(i as int), name@),
            decreases self.children.len() - i,
        {
            assert(cs.skip(i as int).drop_first() =~= cs.skip(i + 1));
            assert(cs.skip(i as int)[0] == cs[i as int]);
            let hit = match &self.children[i].field {
                Some(f) => crate::text::str_eq(f.as_str(), name),
                None => false,
            };
            if hit {
                return Some(i);
            }
            i = i + 1;
        }
        None
    }
}

} // verus!
