//! The structure of a document seen through its syntax tree: the regions
//! an editor can fold, and the nested ranges a selection grows through.
use vstd::prelude::*;

use vstd::string::StringSliceAdditionalSpecFns;
use vstd::utf8::encode_utf8;

use crate::position::{lemma_encode_utf8_concat, lemma_utf8_count_prefix, utf8_count, spec_utf16_idx_to_byte_idx, utf16_idx_to_byte_idx, LspPosition, LspRange};
use crate::signature::bytes_before_line;
use crate::syntax::{lemma_nodes_view, node_view, NodeView, SyntaxNode};
use crate::text::{ends_with, lemma_newline_index_bound, lines, newline_index, spec_ends_with, spec_lines, str_eq, views};
use crate::tree_query::{descend, descent_path, refs_view};

verus! {

// ---------- folding ----------

/// The node kinds that fold: the sections, blocks, hub definitions and
/// instance blocks of HubGS; the elements of TWXML.
pub open spec fn foldable_kind(hubgs: bool, kind: Seq<char>) -> bool {
    if hubgs {
        kind == "imports_section"@ || kind == "definitions_section"@ || kind == "fields_block"@ || kind
            == "enums_block"@ || kind == "hubs_block"@ || kind == "hub_definition"@ || kind == "instances_section"@
            || kind == "instance_block"@
    } else {
        kind == "element"@
    }
}

/// The folding ranges of the subtree `n`: its own range when it spans more
/// than one line and its kind folds, then those of its children, the last
/// child first.
pub open spec fn folds_of(n: NodeView, hubgs: bool) -> Seq<LspRange>
    decreases n,
{
    (if n.range.start.line != n.range.end.line && foldable_kind(hubgs, n.kind) {
        seq![n.range]
    } else {
        Seq::empty()
    }) + folds_of_children(n.children, hubgs)
}

/// The folding ranges of the subtrees `cs`, from the last to the first.
pub open spec fn folds_of_children(cs: Seq<NodeView>, hubgs: bool) -> Seq<LspRange>
    decreases cs,
{
    if cs.len() == 0 {
        Seq::empty()
    } else {
        folds_of(cs.last(), hubgs) + folds_of_children(cs.drop_last(), hubgs)
    }
}

/// The folding ranges of the document at `path` with syntax tree `root`:
/// by the file's type, HubGS or TWXML; none for another file.
pub open spec fn folding_ranges_of(path: Seq<char>, root: NodeView) -> Seq<LspRange> {
    if spec_ends_with(path, ".hubgs"@) {
        folds_of(root, true)
    } else if spec_ends_with(path, ".twxml"@) {
        folds_of(root, false)
    } else {
        Seq::empty()
    }
}

fn is_foldable(hubgs: bool, kind: &str) -> (b: bool)
    ensures
        b == foldable_kind(hubgs, kind@),
{
    if hubgs {
        str_eq(kind, "imports_section") || str_eq(kind, "definitions_section") || str_eq(kind, "fields_block")
            || str_eq(kind, "enums_block") || str_eq(kind, "hubs_block") || str_eq(kind, "hub_definition")
            || str_eq(kind, "instances_section") || str_eq(kind, "instance_block")
    } else {
        str_eq(kind, "element")
    }
}

fn collect_folds(n: &SyntaxNode, hubgs: bool, out: &mut Vec<LspRange>)
    ensures
        final(out)@ == old(out)@ + folds_of(n@, hubgs),
    decreases n,
{
    let ghost o0 = out@;
    if n.range.start.line != n.range.end.line && is_foldable(hubgs, n.kind.as_str()) {
        out.push(n.range);
    }
    let ghost o1 = out@;
    assert(o1 =~= o0 + (if n@.range.start.line != n@.range.end.line && foldable_kind(hubgs, n@.kind) {
        seq![n@.range]
    } else {
        Seq::<LspRange>::empty()
    }));
    proof {
        lemma_nodes_view(n.children@);
    }
    let ghost cs = n@.children;
    let mut i: usize = n.children.len();
    assert(cs.take(i as int) =~= cs);
    while i > 0
        invariant
            i <= n.children.len(),
            cs == n@.children,
            cs.len() == n.children@.len(),
            forall|j: int| 0 <= j < n.children@.len() ==> #[trigger] cs[j] == node_view(n.children@[j]),
            o1 + folds_of_children(cs, hubgs) == out@ + folds_of_children(cs.take(i as int), hubgs),
        decreases i,
    {
        let c = &n.children[i - 1];
        assert(cs.take(i as int).drop_last() =~= cs.take(i - 1));
        assert(cs.take(i as int).last() == c@);
        assert(decreases_to!(n => n.children));
        assert(decreases_to!(n.children => n.children@));
        assert(decreases_to!(n.children@ => n.children@[i - 1]));
        let ghost before = out@;
        collect_folds(c, hubgs, out);
        assert(before + folds_of_children(cs.take(i as int), hubgs) =~= out@ + folds_of_children(
            cs.take(i - 1),
            hubgs,
        ));
        i = i - 1;
    }
    assert(cs.take(0) =~= Seq::<NodeView>::empty());
    assert(out@ =~= out@ + Seq::<LspRange>::empty());
}

/// The folding ranges of the document at `path` (see `folding_ranges_of`).
pub fn compute_folding_ranges(path: &str, root: &SyntaxNode) -> (r: Vec<LspRange>)
    ensures
        r@ == folding_ranges_of(path@, root@),
{
    let mut out: Vec<LspRange> = Vec::new();
    if ends_with(path, ".hubgs") {
        collect_folds(root, true, &mut out);
    } else if ends_with(path, ".twxml") {
        collect_folds(root, false, &mut out);
    }
    assert(out@ =~= folding_ranges_of(path@, root@));
    out
}

// ---------- selection ----------

/// The byte offset an editor position stands for, counted over the lines
/// of `s`: each earlier line's bytes and one byte for its end, then the
/// byte index of the UTF-16 column in the position's own line.
pub open spec fn selection_offset(s: Seq<char>, pos: LspPosition) -> nat {
    let ls = spec_lines(s);
    bytes_before_line(ls, pos.line as nat) + if pos.line < ls.len() {
        spec_utf16_idx_to_byte_idx(ls[pos.line as int], pos.character as nat)
    } else {
        0
    }
}

/// The line and column reached after the first `k` bytes of `b`.
pub open spec fn point_after(b: Seq<u8>, k: nat) -> (nat, nat)
    decreases k,
{
    if k == 0 || k > b.len() {
        (0, 0)
    } else {
        let p = point_after(b, (k - 1) as nat);
        if b[k - 1] == 10 {
            (p.0 + 1, 0)
        } else {
            (p.0, p.1 + 1)
        }
    }
}

/// The point of the syntax tree at byte offset `off` of `b`; past the end,
/// the column of the last line runs on.
pub open spec fn point_at_byte(b: Seq<u8>, off: nat) -> LspPosition {
    let k = if off <= b.len() {
        off
    } else {
        b.len()
    };
    let p = point_after(b, k);
    LspPosition { line: p.0 as u32, character: (p.1 + (off - k)) as u32 }
}

/// The ranges a selection at `pos` grows through: those of the nodes the
/// descent at the position's point passes, innermost first, up to the root.
pub open spec fn selection_chain(s: Seq<char>, root: NodeView, pos: LspPosition) -> Seq<LspRange> {
    descent_path(root, point_at_byte(encode_utf8(s), selection_offset(s, pos))).map_values(
        |n: NodeView| n.range,
    ).reverse()
}

/// The selection ranges of the document at `uri` with text `s` and syntax
/// tree `root`, one chain for each position; none for a document that is
/// neither TWXML nor HubGS.
pub open spec fn selection_ranges_of(
    uri: Seq<char>,
    s: Seq<char>,
    root: NodeView,
    positions: Seq<LspPosition>,
) -> Option<Seq<Seq<LspRange>>> {
    if spec_ends_with(uri, ".twxml"@) || spec_ends_with(uri, ".hubgs"@) {
        Some(positions.map_values(|p: LspPosition| selection_chain(s, root, p)))
    } else {
        None
    }
}

/// Every position stands for an offset the tree's `u32` columns can hold.
pub open spec fn offsets_fit(s: Seq<char>, positions: Seq<LspPosition>) -> bool {
    forall|i: int| 0 <= i < positions.len() ==> selection_offset(s, #[trigger] positions[i]) <= u32::MAX
}

/// A line of `s` has no more UTF-8 bytes than `s` itself.
proof fn lemma_line_bytes(s: Seq<char>, i: int)
    requires
        0 <= i < spec_lines(s).len(),
    ensures
        utf8_count(spec_lines(s)[i]) <= utf8_count(s),
    decreases s.len(),
{
    let k = newline_index(s);
    lemma_newline_index_bound(s);
    if k < s.len() {
        let t = s.take(k as int);
        if i == 0 {
            lemma_utf8_count_prefix(s, k as int);
            if t.len() > 0 && t.last() == '\r' {
                lemma_utf8_count_prefix(t, t.len() - 1);
                assert(t.take(t.len() - 1) =~= t.drop_last());
            }
        } else {
            let rest = s.skip(k + 1 as int);
            lemma_line_bytes(rest, i - 1);
            lemma_encode_utf8_concat(s.take(k + 1 as int), rest);
            assert(s =~= s.take(k + 1 as int) + rest);
        }
    }
}

fn selection_offset_of(contents: &str, pos: LspPosition) -> (r: u128)
    ensures
        r == selection_offset(contents@, pos),
{
    let ls = lines(contents);
    let ghost lv = views(ls@);
    let mut total: u128 = 0;
    let mut i: usize = 0;
    let n = pos.line as usize;
    while i < n
        invariant
            i <= n,
            n == pos.line,
            lv == views(ls@),
            lv == spec_lines(contents@),
            total == bytes_before_line(lv, i as nat),
            total <= i * 0x5_0000_0000_0000_0000,
            n <= u32::MAX,
        decreases n - i,
    {
        if i < ls.len() {
            assert(lv[i as int] == ls@[i as int]@);
            let b = crate::format_edits::utf8_bytes(ls[i].as_str());
            total = total + b + 1;
        }
        i = i + 1;
    }
    if n < ls.len() {
        assert(lv[n as int] == ls@[n as int]@);
        let line = ls[n].as_str();
        assert(line.spec_bytes() == encode_utf8(line@));
        proof {
            lemma_line_bytes(contents@, n as int);
            assert(contents.spec_bytes() == encode_utf8(contents@));
        }
        let whole = contents.as_bytes();
        let _whole_len = whole.len();
        let b = utf16_idx_to_byte_idx(line, pos.character as usize);
        assert(total <= 0x1_0000_0000 * 0x5_0000_0000_0000_0000);
        total + b as u128
    } else {
        total
    }
}

fn point_of_offset(contents: &str, off: u128) -> (p: LspPosition)
    requires
        off <= u32::MAX,
    ensures
        p == point_at_byte(encode_utf8(contents@), off as nat),
{
    let b = contents.as_bytes();
    assert(b@ == encode_utf8(contents@));
    let k: usize = if off <= b.len() as u128 {
        off as usize
    } else {
        b.len()
    };
    let mut row: u64 = 0;
    let mut col: u64 = 0;
    let mut j: usize = 0;
    while j < k
        invariant
            j <= k <= b@.len(),
            k <= off,
            off <= u32::MAX,
            (row as nat, col as nat) == point_after(b@, j as nat),
            row <= j,
            col <= j,
        decreases k - j,
    {
        if b[j] == 10 {
            row = row + 1;
            col = 0;
        } else {
            col = col + 1;
        }
        j = j + 1;
    }
    let extra = off - k as u128;
    LspPosition { line: row as u32, character: (col as u128 + extra) as u32 }
}

/// The selection ranges of the document at `uri` (see `selection_ranges_of`).
pub fn selection_ranges(uri: &str, contents: &str, root: &SyntaxNode, positions: &Vec<LspPosition>) -> (r: Option<
    Vec<Vec<LspRange>>,
>)
    requires
        offsets_fit(contents@, positions@),
    ensures
        match r {
            Some(v) => selection_ranges_of(uri@, contents@, root@, positions@) == Some(
                v@.map_values(|c: Vec<LspRange>| c@),
            ),
            None => selection_ranges_of(uri@, contents@, root@, positions@) is None,
        },
{
    if !(ends_with(uri, ".twxml") || ends_with(uri, ".hubgs")) {
        return None;
    }
    let mut out: Vec<Vec<LspRange>> = Vec::new();
    let mut i: usize = 0;
    while i < positions.len()
        invariant
            i <= positions.len(),
            offsets_fit(contents@, positions@),
            out@.map_values(|c: Vec<LspRange>| c@) == positions@.take(i as int).map_values(
                |p: LspPosition| selection_chain(contents@, root@, p),
            ),
        decreases positions.len() - i,
    {
        let pos = positions[i];
        assert(selection_offset(contents@, positions@[i as int]) <= u32::MAX);
        let off = selection_offset_of(contents, pos);
        let pt = point_of_offset(contents, off);
        let path = descend(root, pt);
        let ghost pv = refs_view(path@);
        let mut chain: Vec<LspRange> = Vec::new();
        let mut k = path.len();
        while k > 0
            invariant
                k <= path@.len(),
                pv == refs_view(path@),
                pv.len() == path@.len(),
                chain@ == pv.skip(k as int).map_values(|n: NodeView| n.range).reverse(),
            decreases k,
        {
            let n: &SyntaxNode = path[k - 1];
            assert(pv[k - 1] == n@);
            let ghost before = chain@;
            chain.push(n.range);
            assert(pv.skip(k - 1).map_values(|n: NodeView| n.range).reverse() =~= pv.skip(k as int).map_values(
                |n: NodeView| n.range,
            ).reverse().push(n@.range));
            k = k - 1;
        }
        assert(pv.skip(0) =~= pv);
        let ghost before = out@.map_values(|c: Vec<LspRange>| c@);
        out.push(chain);
        assert(out@.map_values(|c: Vec<LspRange>| c@) =~= before.push(selection_chain(contents@, root@, pos)));
        assert(positions@.take(i + 1).map_values(|p: LspPosition| selection_chain(contents@, root@, p))
            =~= positions@.take(i as int).map_values(|p: LspPosition| selection_chain(contents@, root@, p)).push(
            selection_chain(contents@, root@, pos),
        ));
        i = i + 1;
    }
    assert(positions@.take(i as int) =~= positions@);
    Some(out)
}

} // verus!
