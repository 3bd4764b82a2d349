//! The edits of the formatting requests: the whole document, a range of
//! it, and the closing tag added when an opening TWXML tag is typed.
use vstd::prelude::*;
use vstd::string::StringSliceAdditionalSpecFns;
use vstd::utf8::encode_utf8;

use crate::edits::{compute_format_edit, spec_format_edit, EditView, FormatEdit};
use crate::formatter::{format_source, spec_format_source};
use crate::layout::{lemma_ws_trail, ws_trail};
use crate::position::{LspPosition, LspRange};
use crate::syntax::{NodeView, SyntaxNode};
use crate::text::{
    ends_with, is_whitespace, is_ws, lines, owned, spec_ends_with, spec_lines, spec_starts_with, str_eq, to_chars,
    views,
};
use crate::twxml_format::node_depth;
use crate::twxml_tree::{chars_in_bytes, last_lt};

verus! {

/// The file type a document's address names: `twxml`, `hubgs`, or none.
pub open spec fn file_type_of(uri: Seq<char>) -> Option<Seq<char>> {
    if spec_ends_with(uri, ".twxml"@) {
        Some("twxml"@)
    } else if spec_ends_with(uri, ".hubgs"@) {
        Some("hubgs"@)
    } else {
        None
    }
}

fn file_type(uri: &str) -> (r: Option<String>)
    ensures
        crate::model::opt_view(r) == file_type_of(uri@),
{
    if ends_with(uri, ".twxml") {
        Some(owned("twxml"))
    } else if ends_with(uri, ".hubgs") {
        Some(owned("hubgs"))
    } else {
        None
    }
}

/// The document can be formatted: a HubGS document has a syntax tree, and
/// a tree's depth fits a machine word.
pub open spec fn formattable(uri: Seq<char>, tree: Option<NodeView>) -> bool {
    &&& file_type_of(uri) == Some("hubgs"@) ==> tree is Some
    &&& tree matches Some(t) ==> node_depth(t) < usize::MAX
}

/// The edit replacing the whole of `content` by `new_text`: from the start
/// to the end of its last line (the line count and the last line's byte
/// length taken as 32-bit numbers).
pub open spec fn whole_document_edit(content: Seq<char>, new_text: Seq<char>) -> EditView {
    let ls = spec_lines(content);
    let last_len = if ls.len() > 0 { encode_utf8(ls.last()).len() } else { 0 };
    let count = ls.len() as u32;
    EditView {
        range: LspRange {
            start: LspPosition { line: 0, character: 0 },
            end: LspPosition { line: if count > 0 { (count - 1) as u32 } else { 0 }, character: last_len as u32 },
        },
        new_text,
    }
}

/// The number of UTF-8 bytes of `s`.
pub(crate) fn utf8_bytes(s: &str) -> (n: u128)
    ensures
        n == encode_utf8(s@).len(),
        n <= 4 * (usize::MAX as int),
{
    let v = to_chars(s);
    let mut n: u128 = 0;
    let mut i: usize = 0;
    assert(v@.take(0) =~= Seq::<char>::empty());
    while i < v.len()
        invariant
            i <= v.len(),
            n == encode_utf8(v@.take(i as int)).len(),
            n <= 4 * i,
            v.len() <= usize::MAX,
        decreases v.len() - i,
    {
        proof {
            crate::position::lemma_utf8_count_push(v@.take(i as int), v@[i as int]);
            crate::position::lemma_utf8_len_bound(v@[i as int]);
        }
        assert(v@.take(i + 1) =~= v@.take(i as int).push(v@[i as int]));
        let w = crate::position::char_len_utf8(v[i]);
        n = n + w as u128;
        i = i + 1;
    }
    assert(v@.take(i as int) =~= s@);
    n
}

/// The views of a sequence of edits.
pub open spec fn edits_view(v: Seq<FormatEdit>) -> Seq<EditView> {
    v.map_values(|e: FormatEdit| e@)
}

/// The edits formatting the document at address `uri` with contents
/// `content` and syntax tree `tree`: one replacing the whole document by
/// its formatted text; none for a document of another type.
pub open spec fn formatting_edits_of(uri: Seq<char>, content: Seq<char>, tree: Option<NodeView>) -> Option<
    Seq<EditView>,
> {
    match file_type_of(uri) {
        Some(ft) => Some(seq![whole_document_edit(content, spec_format_source(content, ft, tree))]),
        None => None,
    }
}

/// The edits formatting a document (see `formatting_edits_of`).
pub fn formatting_edits(uri: &str, content: &str, tree: Option<&SyntaxNode>) -> (r: Option<Vec<FormatEdit>>)
    requires
        formattable(uri@, crate::twxml_tree::opt_node(tree)),
    ensures
        match r {
            Some(v) => formatting_edits_of(uri@, content@, crate::twxml_tree::opt_node(tree)) == Some(edits_view(v@)),
            None => formatting_edits_of(uri@, content@, crate::twxml_tree::opt_node(tree)) is None,
        },
{
    let ft = match file_type(uri) {
        Some(ft) => ft,
        None => {
            return None;
        },
    };
    let new_text = format_source(content, ft.as_str(), tree);
    let ls = lines(content);
    let ghost lv = views(ls@);
    let last_len: u32 = if ls.len() > 0 {
        assert(lv.last() == ls@[ls.len() - 1]@);
        (utf8_bytes(ls[ls.len() - 1].as_str()) as u32)
    } else {
        0
    };
    let count = ls.len() as u32;
    let end_line = if count > 0 { count - 1 } else { 0 };
    let e = FormatEdit {
        range: LspRange { start: LspPosition { line: 0, character: 0 }, end: LspPosition { line: end_line, character: last_len } },
        new_text,
    };
    let ghost ev = e@;
    let mut out: Vec<FormatEdit> = Vec::new();
    out.push(e);
    assert(edits_view(out@) =~= seq![ev]);
    Some(out)
}

/// The edits formatting the part of a document in `range`: none for a
/// document of another type; no edit when formatting changes nothing or
/// its edit does not reach the range's lines; else that edit.
pub open spec fn range_formatting_edits_of(
    uri: Seq<char>,
    content: Seq<char>,
    range: LspRange,
    tree: Option<NodeView>,
) -> Option<Seq<EditView>> {
    match file_type_of(uri) {
        Some(ft) => {
            let formatted = spec_format_source(content, ft, tree);
            if formatted == content {
                Some(Seq::empty())
            } else {
                match spec_format_edit(content, formatted) {
                    Some(e) => if e.range.start.line <= range.end.line && e.range.end.line >= range.start.line {
                        Some(seq![e])
                    } else {
                        Some(Seq::empty())
                    },
                    None => Some(Seq::empty()),
                }
            }
        },
        None => None,
    }
}

/// The edits formatting a range of a document (see
/// `range_formatting_edits_of`).
pub fn range_formatting_edits(uri: &str, content: &str, range: LspRange, tree: Option<&SyntaxNode>) -> (r: Option<
    Vec<FormatEdit>,
>)
    requires
        formattable(uri@, crate::twxml_tree::opt_node(tree)),
    ensures
        match r {
            Some(v) => range_formatting_edits_of(uri@, content@, range, crate::twxml_tree::opt_node(tree)) == Some(
                edits_view(v@),
            ),
            None => range_formatting_edits_of(uri@, content@, range, crate::twxml_tree::opt_node(tree)) is None,
        },
{
    let ft = match file_type(uri) {
        Some(ft) => ft,
        None => {
            return None;
        },
    };
    let formatted = format_source(content, ft.as_str(), tree);
    let mut out: Vec<FormatEdit> = Vec::new();
    assert(edits_view(out@) =~= Seq::<EditView>::empty());
    if str_eq(formatted.as_str(), content) {
        return Some(out);
    }
    match compute_format_edit(content, formatted.as_str()) {
        Some(e) => {
            if e.range.start.line <= range.end.line && e.range.end.line >= range.start.line {
                let ghost ev = e@;
                out.push(e);
                assert(edits_view(out@) =~= seq![ev]);
            }
        },
        None => {},
    }
    Some(out)
}

// ---------- closing tags as they are typed ----------

/// The index of the first character of `s` that ends a tag name: white
/// space, `/` or `>`; the length of `s` when there is none.
pub open spec fn name_end(s: Seq<char>) -> nat
    decreases s.len(),
{
    if s.len() == 0 {
        0
    } else if is_ws(s[0]) || s[0] == '/' || s[0] == '>' {
        0
    } else {
        1 + name_end(s.drop_first())
    }
}

/// The name of a start tag `<name ...>`: what follows `<` up to white
/// space, `/` or `>`; none when that is empty or the text is not `<...>`.
pub open spec fn name_from_tag(tag: Seq<char>) -> Option<Seq<char>> {
    if tag.len() >= 2 && tag[0] == '<' && tag.last() == '>' {
        let inner = tag.subrange(1, tag.len() - 1);
        let name = inner.take(name_end(inner) as int);
        if name.len() == 0 {
            None
        } else {
            Some(name)
        }
    } else {
        None
    }
}

/// The name of the opening tag that `t`, the text of `line` before the
/// cursor, ends with: `t`, trailing white space dropped, must end with `>`;
/// from its last `<`, a comment, a closing tag and a self-closing tag give
/// none; nor does a tag that the rest of the line already balances, its
/// closing tag following it directly.
pub open spec fn opening_tag_before(line: Seq<char>, t: Seq<char>) -> Option<Seq<char>> {
    let trimmed = t.take(t.len() - ws_trail(t));
    if trimmed.len() == 0 || trimmed.last() != '>' {
        None
    } else {
        match last_lt(trimmed) {
            Some(i) => {
                let between = trimmed.skip(i);
                if spec_starts_with(between, "<!--"@) || spec_starts_with(between, "</"@) || spec_ends_with(
                    between,
                    "/>"@,
                ) {
                    None
                } else {
                    match name_from_tag(between) {
                        Some(name) => if spec_starts_with(line.skip(trimmed.len() as int), "</"@ + name + ">"@) {
                            None
                        } else {
                            Some(name)
                        },
                        None => None,
                    }
                }
            },
            None => None,
        }
    }
}

/// The text of `line` before the byte offset `cursor` (all of it when the
/// cursor lies past its end).
pub open spec fn text_before(line: Seq<char>, cursor: int) -> Seq<char> {
    match chars_in_bytes(line, cursor) {
        Some(k) => line.take(k as int),
        None => line,
    }
}

/// The cursor does not fall inside a character of `line`.
pub open spec fn cursor_in_line_ok(line: Seq<char>, cursor: int) -> bool {
    cursor <= crate::twxml_tree::byte_count(line) ==> chars_in_bytes(line, cursor) is Some
}

fn tag_name_in(v: &Vec<char>, lo: usize, hi: usize) -> (r: Option<String>)
    requires
        lo <= hi <= v.len(),
    ensures
        crate::model::opt_view(r) == name_from_tag(v@.subrange(lo as int, hi as int)),
{
    let ghost tag = v@.subrange(lo as int, hi as int);
    if !(hi - lo >= 2 && v[lo] == '<' && v[hi - 1] == '>') {
        return None;
    }
    let ghost inner = tag.subrange(1, tag.len() - 1);
    assert(inner =~= v@.subrange(lo + 1, hi - 1));
    let mut e = lo + 1;
    while e < hi - 1 && !(is_whitespace(v[e]) || v[e] == '/' || v[e] == '>')
        invariant
            lo + 1 <= e <= hi - 1,
            hi <= v.len(),
            inner =~= v@.subrange(lo + 1, hi - 1),
            name_end(inner) == (e - (lo + 1)) + name_end(v@.subrange(e as int, hi - 1)),
        decreases hi - 1 - e,
    {
        assert(v@.subrange(e as int, hi - 1).drop_first() =~= v@.subrange(e + 1, hi - 1));
        e = e + 1;
    }
    assert(inner.take(name_end(inner) as int) =~= v@.subrange(lo + 1, e as int));
    if e == lo + 1 {
        return None;
    }
    Some(crate::text::string_from_range(v, lo + 1, e))
}

fn opening_tag_in(v: &Vec<char>, k: usize) -> (r: Option<String>)
    requires
        k <= v.len(),
    ensures
        crate::model::opt_view(r) == opening_tag_before(v@, v@.take(k as int)),
{
    let ghost t = v@.take(k as int);
    // trailing white space
    let mut j = k;
    while j > 0 && is_whitespace(v[j - 1])
        invariant
            j <= k <= v.len(),
            t == v@.take(k as int),
            forall|m: int| j <= m < k ==> is_ws(t[m]),
        decreases j,
    {
        j = j - 1;
    }
    proof {
        lemma_ws_trail(t, j as int);
        assert(t.take(j as int) =~= v@.take(j as int));
        if j > 0 {
            assert(!is_ws(t.take(j as int).last()));
        } else {
            assert(t.take(0) =~= Seq::<char>::empty());
        }
    }
    let ghost trimmed = t.take(t.len() - ws_trail(t));
    assert(trimmed =~= v@.take(j as int));
    if j == 0 || v[j - 1] != '>' {
        return None;
    }
    let i = match crate::twxml_tree::last_lt_index(v, j) {
        Some(i) => i,
        None => {
            return None;
        },
    };
    let ghost between = trimmed.skip(i as int);
    assert(between =~= v@.subrange(i as int, j as int));
    let comment = to_chars("<!--");
    let closing = to_chars("</");
    let sc = (j - i >= 2 && v[j - 2] == '/' && v[j - 1] == '>');
    proof {
        reveal_strlit("/>");
        assert("/>"@ =~= seq!['/', '>']);
        if j - i >= 2 {
            assert(between.skip(between.len() - 2) =~= seq![v@[j - 2], v@[j - 1]]);
        }
    }
    assert(sc == spec_ends_with(between, "/>"@));
    assert(v@.subrange(i as int, j as int) =~= v@.take(j as int).skip(i as int));
    let starts_comment = seq_starts_with_bounded(v, i, j, &comment);
    let starts_closing = seq_starts_with_bounded(v, i, j, &closing);
    if starts_comment || starts_closing || sc {
        return None;
    }
    match tag_name_in(v, i, j) {
        Some(name) => {
            let mut pat = owned("</");
            pat.append(name.as_str());
            pat.append(">");
            let pv = to_chars(pat.as_str());
            assert(v@.skip(trimmed.len() as int) =~= v@.subrange(j as int, v@.len() as int));
            if seq_starts_with_bounded(v, j, v.len(), &pv) {
                None
            } else {
                Some(name)
            }
        },
        None => None,
    }
}

fn seq_starts_with_bounded(v: &Vec<char>, from: usize, to: usize, prefix: &Vec<char>) -> (b: bool)
    requires
        from <= to <= v.len(),
    ensures
        b == spec_starts_with(v@.subrange(from as int, to as int), prefix@),
{
    if prefix.len() > to - from {
        return false;
    }
    let mut i: usize = 0;
    while i < prefix.len()
        invariant
            i <= prefix.len(),
            prefix.len() <= to - from,
            to <= v.len(),
            forall|j: int| 0 <= j < i ==> v@[from + j] == prefix@[j],
        decreases prefix.len() - i,
    {
        if v[from + i] != prefix[i] {
            assert(v@.subrange(from as int, to as int).take(prefix.len() as int)[i as int] != prefix@[i as int]);
            return false;
        }
        i = i + 1;
    }
    assert(v@.subrange(from as int, to as int).take(prefix.len() as int) =~= prefix@);
    true
}

/// The name of the opening tag `text` ends with before the byte offset
/// `cursor`, unless the rest of the line closes it (see
/// `opening_tag_before` and `text_before`).
pub fn extract_opening_tag_name(text: &str, cursor: usize) -> (r: Option<String>)
    requires
        cursor_in_line_ok(text@, cursor as int),
    ensures
        crate::model::opt_view(r) == opening_tag_before(text@, text_before(text@, cursor as int)),
{
    let v = to_chars(text);
    let k = match crate::twxml_tree::chars_in_prefix(&v, cursor as u128) {
        Some(k) => k,
        None => v.len(),
    };
    assert(v@.take(v@.len() as int) =~= v@);
    opening_tag_in(&v, k)
}

/// The edit closing an opening TWXML tag just typed: when `>` is typed in
/// a TWXML document and the text of the cursor's line before the cursor
/// (the cursor's UTF-16 column taken as a byte offset) ends with an opening
/// tag other than `metadata`, its closing tag inserted at the cursor.
pub open spec fn closing_tag_edit(ch: Seq<char>, uri: Seq<char>, content: Seq<char>, pos: LspPosition) -> Option<
    Seq<EditView>,
> {
    let ls = spec_lines(content);
    if ch != ">"@ || !spec_ends_with(uri, ".twxml"@) || pos.line >= ls.len() {
        None
    } else {
        match opening_tag_before(ls[pos.line as int], text_before(ls[pos.line as int], pos.character as int)) {
            Some(name) => if name == "metadata"@ {
                None
            } else {
                Some(seq![EditView { range: LspRange { start: pos, end: pos }, new_text: "</"@ + name + ">"@ }])
            },
            None => None,
        }
    }
}

/// The cursor does not fall inside a character of its line.
pub open spec fn typed_cursor_ok(content: Seq<char>, pos: LspPosition) -> bool {
    let ls = spec_lines(content);
    pos.line < ls.len() ==> cursor_in_line_ok(ls[pos.line as int], pos.character as int)
}

/// The edits for a typed character (see `closing_tag_edit`).
pub fn on_type_formatting(ch: &str, uri: &str, content: &str, pos: LspPosition) -> (r: Option<Vec<FormatEdit>>)
    requires
        typed_cursor_ok(content@, pos),
    ensures
        match r {
            Some(v) => closing_tag_edit(ch@, uri@, content@, pos) == Some(edits_view(v@)),
            None => closing_tag_edit(ch@, uri@, content@, pos) is None,
        },
{
    if !str_eq(ch, ">") || !ends_with(uri, ".twxml") {
        return None;
    }
    let ls = lines(content);
    let line_no = pos.line as usize;
    if line_no >= ls.len() {
        return None;
    }
    assert(views(ls@)[line_no as int] == ls@[line_no as int]@);
    match extract_opening_tag_name(ls[line_no].as_str(), pos.character as usize) {
        Some(name) => {
            if str_eq(name.as_str(), "metadata") {
                return None;
            }
            let mut closing = owned("</");
            closing.append(name.as_str());
            closing.append(">");
            let e = FormatEdit { range: LspRange { start: pos, end: pos }, new_text: closing };
            let ghost ev = e@;
            let mut out: Vec<FormatEdit> = Vec::new();
            out.push(e);
            assert(edits_view(out@) =~= seq![ev]);
            Some(out)
        },
        None => None,
    }
}

} // verus!
