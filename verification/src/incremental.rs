//! The edit a syntax tree receives when a change replaces part of an open
//! document held in a rope: byte offsets and row/column points before and
//! after the change.
use vstd::prelude::*;
use vstd::string::StringSliceAdditionalSpecFns;
use vstd::utf8::encode_utf8;

use crate::position::{char_len_utf8, lemma_utf8_count_push, lemma_utf8_len_bound, utf8_count, LspRange};
use crate::text::to_chars;

verus! {

/// The rope type of the `ropey` crate.
#[verifier::external_type_specification]
#[verifier::external_body]
pub struct ExRope(ropey::Rope);

/// The characters a rope holds.
pub uninterp spec fn rope_text(r: ropey::Rope) -> Seq<char>;

/// Whether `c` breaks a line for a rope built with the crate's default
/// features (`unicode_lines`): LF, VT, FF, CR, NEL, LS and PS.
pub open spec fn is_line_break(c: char) -> bool {
    c == '\n' || c == '\u{000B}' || c == '\u{000C}' || c == '\r' || c == '\u{0085}' || c == '\u{2028}' || c
        == '\u{2029}'
}

/// The character offsets just after each line break of `t` from offset
/// `i` on, a CR followed by an LF making one break.
pub open spec fn break_ends(t: Seq<char>, i: nat) -> Seq<nat>
    decreases t.len() - i,
{
    if i >= t.len() {
        Seq::empty()
    } else if t[i as int] == '\r' && i + 1 < t.len() && t[i + 1 as int] == '\n' {
        seq![i + 2] + break_ends(t, i + 2)
    } else if is_line_break(t[i as int]) {
        seq![i + 1] + break_ends(t, i + 1)
    } else {
        break_ends(t, i + 1)
    }
}

/// The number of lines `Rope::len_lines` counts in a text: its line breaks
/// plus one.
pub open spec fn rope_len_lines(text: Seq<char>) -> nat {
    break_ends(text, 0).len() + 1
}

/// The byte index at which `Rope::line_to_byte` puts the start of line
/// `line` of a text: 0 for the first line, just after the line break that
/// ends the line before, and the text's byte length for the line one past
/// the last.
pub open spec fn rope_line_to_byte(text: Seq<char>, line: nat) -> nat {
    let ends = break_ends(text, 0);
    if line == 0 {
        0
    } else if line <= ends.len() {
        utf8_count(text.take(ends[line - 1] as int))
    } else {
        utf8_count(text)
    }
}

/// The character index at which `Rope::line_to_char` puts the start of
/// line `line` of a text: 0 for the first line, just after the line break
/// that ends the line before, and the text's length for the line one past
/// the last.
pub open spec fn rope_line_to_char(text: Seq<char>, line: nat) -> nat {
    let ends = break_ends(text, 0);
    if line == 0 {
        0
    } else if line <= ends.len() {
        ends[line - 1]
    } else {
        text.len()
    }
}

/// The ends of the line breaks from `i` on lie after `i`, within the text,
/// in increasing order.
pub proof fn lemma_break_ends(t: Seq<char>, i: nat)
    ensures
        forall|k: int| 0 <= k < break_ends(t, i).len() ==> i < #[trigger] break_ends(t, i)[k] <= t.len(),
        forall|j: int, k: int| 0 <= j < k < break_ends(t, i).len() ==> break_ends(t, i)[j] < break_ends(t, i)[k],
    decreases t.len() - i, 1nat,
{
    if i < t.len() {
        let be = break_ends(t, i);
        if t[i as int] == '\r' && i + 1 < t.len() && t[i + 1 as int] == '\n' {
            lemma_break_ends_step(t, i, (i + 2) as nat);
        } else if is_line_break(t[i as int]) {
            lemma_break_ends_step(t, i, i + 1);
        } else {
            lemma_break_ends(t, i + 1);
            assert(be == break_ends(t, i + 1));
        }
        assert(forall|k: int| 0 <= k < be.len() ==> i < #[trigger] be[k] <= t.len());
    }
}

proof fn lemma_break_ends_step(t: Seq<char>, i: nat, n: nat)
    requires
        i < n <= t.len(),
        break_ends(t, i) == seq![n] + break_ends(t, n),
    ensures
        forall|k: int| 0 <= k < break_ends(t, i).len() ==> i < #[trigger] break_ends(t, i)[k] <= t.len(),
        forall|j: int, k: int| 0 <= j < k < break_ends(t, i).len() ==> break_ends(t, i)[j] < break_ends(t, i)[k],
    decreases t.len() - i, 0nat,
{
    lemma_break_ends(t, n);
    let be = break_ends(t, i);
    let rest = break_ends(t, n);
    assert forall|k: int| 0 <= k < be.len() implies i < #[trigger] be[k] <= t.len() by {
        if k > 0 {
            assert(be[k] == rest[k - 1]);
        }
    }
    assert forall|j: int, k: int| 0 <= j < k < be.len() implies be[j] < be[k] by {
        assert(be[k] == rest[k - 1]);
        if j > 0 {
            assert(be[j] == rest[j - 1]);
        }
    }
}

/// The character index of position `pos` in the text `t`, as a rope
/// reads it: the start of its line, plus the characters of that line (its
/// line break included) before its UTF-16 column; the end of the text for
/// a line past the last.
pub open spec fn position_char(t: Seq<char>, pos: crate::position::LspPosition) -> nat {
    let l = pos.line as nat;
    if l < rope_len_lines(t) {
        let s = rope_line_to_char(t, l);
        s + crate::hover::char_stop(t.subrange(s as int, rope_line_to_char(t, l + 1) as int), pos.character as nat)
    } else {
        t.len()
    }
}

/// `Rope::char_to_byte`: the byte index of the character at `char_idx`,
/// that is the UTF-8 length of the characters before it (the index one
/// past the end included); it panics past that, which `requires` rules out.
#[verifier::external_body]
fn rope_char_to_byte(rope: &ropey::Rope, char_idx: usize) -> (r: usize)
    requires
        char_idx <= rope_text(*rope).len(),
    ensures
        r == utf8_count(rope_text(*rope).take(char_idx as int)),
{
    rope.char_to_byte(char_idx)
}

/// `Rope::len_chars`: the number of characters of the rope's text.
#[verifier::external_body]
fn rope_len_chars(rope: &ropey::Rope) -> (r: usize)
    ensures
        r == rope_text(*rope).len(),
{
    rope.len_chars()
}

/// `Rope::line_to_char`: the character index of the start of line
/// `line_idx` (see `rope_line_to_char`); it panics past one line after the
/// last, which `requires` rules out.
#[verifier::external_body]
fn rope_line_start_char(rope: &ropey::Rope, line_idx: usize) -> (r: usize)
    requires
        line_idx <= rope_len_lines(rope_text(*rope)),
    ensures
        r == rope_line_to_char(rope_text(*rope), line_idx as nat),
{
    rope.line_to_char(line_idx)
}

/// `Rope::char`: the character at `char_idx`; it panics at or past the
/// end, which `requires` rules out.
#[verifier::external_body]
fn rope_char(rope: &ropey::Rope, char_idx: usize) -> (r: char)
    requires
        char_idx < rope_text(*rope).len(),
    ensures
        r == rope_text(*rope)[char_idx as int],
{
    rope.char(char_idx)
}

/// `Rope::len_bytes`: the UTF-8 length of the rope's text.
#[verifier::external_body]
fn rope_len_bytes(rope: &ropey::Rope) -> (r: usize)
    ensures
        r == utf8_count(rope_text(*rope)),
{
    rope.len_bytes()
}

/// `Rope::len_lines`: the number of lines of the rope's text (see
/// `rope_len_lines`).
#[verifier::external_body]
fn rope_len_lines_of(rope: &ropey::Rope) -> (r: usize)
    ensures
        r == rope_len_lines(rope_text(*rope)),
{
    rope.len_lines()
}

/// `Rope::line_to_byte`: the byte index of the start of line `line_idx`
/// (see `rope_line_to_byte`); it panics past one line after the last,
/// which `requires` rules out.
#[verifier::external_body]
fn rope_line_start(rope: &ropey::Rope, line_idx: usize) -> (r: usize)
    requires
        line_idx <= rope_len_lines(rope_text(*rope)),
    ensures
        r == rope_line_to_byte(rope_text(*rope), line_idx as nat),
{
    rope.line_to_byte(line_idx)
}

/// A point of a syntax tree: a row and a byte column.
#[derive(Clone, Copy, Debug, PartialEq, Eq, Structural)]
pub struct TreePoint {
    pub row: usize,
    pub column: usize,
}

/// The edit a syntax tree receives: where the change starts, where the
/// replaced text ended, and where the new text ends, as byte offsets and
/// as points.
#[derive(Clone, Copy, Debug, PartialEq, Eq, Structural)]
pub struct TreeEdit {
    pub start_byte: usize,
    pub old_end_byte: usize,
    pub new_end_byte: usize,
    pub start_position: TreePoint,
    pub old_end_position: TreePoint,
    pub new_end_position: TreePoint,
}

/// The number of line feeds in `s`.
pub open spec fn newline_count(s: Seq<char>) -> nat
    decreases s.len(),
{
    if s.len() == 0 {
        0
    } else {
        newline_count(s.drop_last()) + if s.last() == '\n' { 1nat } else { 0nat }
    }
}

/// The part of `s` after its last line feed (all of it when it has none).
pub open spec fn after_last_newline(s: Seq<char>) -> Seq<char>
    decreases s.len(),
{
    if s.len() == 0 {
        s
    } else if s.last() == '\n' {
        Seq::empty()
    } else {
        after_last_newline(s.drop_last()).push(s.last())
    }
}

/// `a - b`, or zero when `b` is larger.
pub open spec fn saturating_diff(a: nat, b: nat) -> nat {
    if a >= b {
        (a - b) as nat
    } else {
        0
    }
}

/// The byte index of the start of line `line` of `t`, or the end of `t`
/// for a line past the last.
pub open spec fn line_start_or_end(t: Seq<char>, line: nat) -> nat {
    if line < rope_len_lines(t) {
        rope_line_to_byte(t, line)
    } else {
        utf8_count(t)
    }
}

/// The tree edit for replacing the characters `start_char..end_char` of
/// the text `t`, which `range` spans on lines `start_line_idx` to
/// `end_line_idx`, by `new_text`. Columns are byte distances from the
/// start of those lines (zero before it); the new end lies as many rows
/// below the start as `new_text` has line feeds, at the bytes after its
/// last one (or after the start column when it has none).
pub open spec fn tree_edit_of(
    t: Seq<char>,
    range: LspRange,
    new_text: Seq<char>,
    start_char: nat,
    end_char: nat,
    start_line_idx: nat,
    end_line_idx: nat,
) -> TreeEdit {
    let start_byte = utf8_count(t.take(start_char as int));
    let old_end_byte = utf8_count(t.take(end_char as int));
    let start_col = saturating_diff(start_byte, line_start_or_end(t, start_line_idx));
    let n = newline_count(new_text);
    TreeEdit {
        start_byte: start_byte as usize,
        old_end_byte: old_end_byte as usize,
        new_end_byte: (start_byte + utf8_count(new_text)) as usize,
        start_position: TreePoint { row: range.start.line as usize, column: start_col as usize },
        old_end_position: TreePoint {
            row: range.end.line as usize,
            column: saturating_diff(old_end_byte, line_start_or_end(t, end_line_idx)) as usize,
        },
        new_end_position: TreePoint {
            row: (range.start.line + n) as usize,
            column: (if n == 0 {
                start_col + utf8_count(new_text)
            } else {
                utf8_count(after_last_newline(new_text))
            }) as usize,
        },
    }
}

/// The change fits the machine: the new end's byte offset and row are
/// indices.
pub open spec fn edit_fits(t: Seq<char>, range: LspRange, new_text: Seq<char>, start_char: nat) -> bool {
    &&& utf8_count(t.take(start_char as int)) + utf8_count(new_text) <= usize::MAX
    &&& range.start.line + newline_count(new_text) <= usize::MAX
}

fn newline_facts(s: &str) -> (r: (usize, usize))
    ensures
        r.0 == newline_count(s@),
        r.1 == utf8_count(after_last_newline(s@)) as usize,
{
    let v = to_chars(s);
    let mut count: usize = 0;
    let mut tail: u128 = 0;
    let mut i: usize = 0;
    assert(v@.take(0) =~= Seq::<char>::empty());
    while i < v.len()
        invariant
            i <= v.len(),
            v@ == s@,
            count == newline_count(v@.take(i as int)),
            tail == utf8_count(after_last_newline(v@.take(i as int))),
            count <= i,
            tail <= 4 * i,
        decreases v.len() - i,
    {
        let c = v[i];
        assert(v@.take(i + 1).drop_last() =~= v@.take(i as int));
        assert(v@.take(i + 1).last() == c);
        if c == '\n' {
            count = count + 1;
            tail = 0;
            assert(after_last_newline(v@.take(i + 1)) =~= Seq::<char>::empty());
        } else {
            proof {
                lemma_utf8_count_push(after_last_newline(v@.take(i as int)), c);
                lemma_utf8_len_bound(c);
            }
            assert(tail + 4 <= 4 * (i + 1));
            tail = tail + char_len_utf8(c) as u128;
        }
        i = i + 1;
    }
    assert(v@.take(i as int) =~= s@);
    (count, #[verifier::truncate] (tail as usize))
}

/// The tree edit for a change (see `tree_edit_of`), when its character
/// offsets lie within the rope and the new end fits the machine; `None`
/// otherwise.
pub fn input_edit_for(
    rope: &ropey::Rope,
    range: LspRange,
    new_text: &str,
    start_char: usize,
    end_char: usize,
    start_line_idx: usize,
    end_line_idx: usize,
) -> (r: Option<TreeEdit>)
    ensures
        match r {
            Some(e) => e == tree_edit_of(
                rope_text(*rope),
                range,
                new_text@,
                start_char as nat,
                end_char as nat,
                start_line_idx as nat,
                end_line_idx as nat,
            ),
            None => !(start_char <= rope_text(*rope).len() && end_char <= rope_text(*rope).len() && edit_fits(
                rope_text(*rope),
                range,
                new_text@,
                start_char as nat,
            )),
        },
{
    let chars = rope_len_chars(rope);
    if start_char > chars || end_char > chars {
        return None;
    }
    let start_byte = rope_char_to_byte(rope, start_char);
    let new_len = crate::layout::byte_len(new_text);
    let (n, _tail) = newline_facts(new_text);
    if start_byte as u128 + new_len > usize::MAX as u128 || range.start.line as u128 + n as u128
        > usize::MAX as u128 {
        return None;
    }
    Some(compute_input_edit(rope, range, new_text, start_char, end_char, start_line_idx, end_line_idx))
}

/// The tree edit for replacing the characters `start_char..end_char` of
/// the rope's text by `new_text` (see `tree_edit_of`).
pub fn compute_input_edit(
    rope: &ropey::Rope,
    range: LspRange,
    new_text: &str,
    start_char: usize,
    end_char: usize,
    start_line_idx: usize,
    end_line_idx: usize,
) -> (r: TreeEdit)
    requires
        start_char <= rope_text(*rope).len(),
        end_char <= rope_text(*rope).len(),
        edit_fits(rope_text(*rope), range, new_text@, start_char as nat),
    ensures
        r == tree_edit_of(
            rope_text(*rope),
            range,
            new_text@,
            start_char as nat,
            end_char as nat,
            start_line_idx as nat,
            end_line_idx as nat,
        ),
{
    let ghost t = rope_text(*rope);
    let start_byte = rope_char_to_byte(rope, start_char);
    let old_end_byte = rope_char_to_byte(rope, end_char);
    let new_len = new_text.len();
    assert(new_text.spec_bytes() == encode_utf8(new_text@));
    let new_end_byte = start_byte + new_len;
    let start_row = range.start.line as usize;
    let lines = rope_len_lines_of(rope);
    let start_line_byte = if start_line_idx < lines {
        rope_line_start(rope, start_line_idx)
    } else {
        rope_len_bytes(rope)
    };
    let start_col = if start_byte >= start_line_byte {
        start_byte - start_line_byte
    } else {
        0
    };
    let old_end_row = range.end.line as usize;
    let end_line_byte = if end_line_idx < lines {
        rope_line_start(rope, end_line_idx)
    } else {
        rope_len_bytes(rope)
    };
    let old_end_col = if old_end_byte >= end_line_byte {
        old_end_byte - end_line_byte
    } else {
        0
    };
    let (n, tail) = newline_facts(new_text);
    let new_end_row = start_row + n;
    let new_end_col = if n == 0 {
        start_col + new_len
    } else {
        tail
    };
    TreeEdit {
        start_byte,
        old_end_byte,
        new_end_byte,
        start_position: TreePoint { row: start_row, column: start_col },
        old_end_position: TreePoint { row: old_end_row, column: old_end_col },
        new_end_position: TreePoint { row: new_end_row, column: new_end_col },
    }
}

/// The character index of position `pos` in the rope's text (see
/// `position_char`), and the index of its line.
pub fn position_char_index(rope: &ropey::Rope, pos: crate::position::LspPosition) -> (r: (usize, usize))
    ensures
        r.0 == position_char(rope_text(*rope), pos),
        r.1 == pos.line,
{
    let ghost t = rope_text(*rope);
    let chars = rope_len_chars(rope);
    let lines = rope_len_lines_of(rope);
    let l = pos.line as usize;
    if l >= lines {
        return (chars, l);
    }
    proof {
        lemma_break_ends(t, 0);
    }
    let s = rope_line_start_char(rope, l);
    let e = rope_line_start_char(rope, l + 1);
    proof {
        let ends = break_ends(t, 0);
        if l > 0 && l < ends.len() {
            assert(ends[l - 1] < ends[l as int]);
        }
    }
    assert(s <= e <= t.len());
    let mut v: Vec<char> = Vec::new();
    let mut k = s;
    while k < e
        invariant
            t == rope_text(*rope),
            s <= k <= e <= t.len(),
            v@ == t.subrange(s as int, k as int),
        decreases e - k,
    {
        v.push(rope_char(rope, k));
        assert(v@ =~= t.subrange(s as int, k + 1));
        k = k + 1;
    }
    let off = crate::hover::utf16_char_index(&v, pos.character);
    (s + off, l)
}

} // verus!
