//! Editor positions and ranges, semantic tokens, and the conversions between
//! line/column positions, UTF-16 offsets and byte offsets.
use vstd::prelude::*;
use vstd::utf8::{char_is_scalar, decode_utf8, encode_scalar, encode_utf8, encode_utf8_decode_utf8, decode_utf8_encode_utf8, valid_utf8};

use vstd::string::StringSliceAdditionalSpecFns;

use crate::text::{newline_index, to_chars};

verus! {

/// A zero-based line/column position.
#[derive(Clone, Copy, Debug, PartialEq, Eq, Hash, Structural)]
pub struct LspPosition {
    pub line: u32,
    pub character: u32,
}

/// A range between two positions.
#[derive(Clone, Copy, Debug, PartialEq, Eq, Hash, Structural)]
pub struct LspRange {
    pub start: LspPosition,
    pub end: LspPosition,
}

/// A semantic token: where it starts, its length, its type and modifier bits.
#[derive(Clone, Copy, Debug, PartialEq, Eq, Hash, Structural)]
pub struct SemanticToken {
    pub line: u32,
    pub character: u32,
    pub length: u32,
    pub token_type: u32,
    pub token_modifiers: u32,
}

impl LspRange {
    /// The empty range at the start of a document.
    pub fn zero() -> (r: Self)
        ensures
            r.start.line == 0 && r.start.character == 0 && r.end.line == 0 && r.end.character == 0,
    {
        LspRange {
            start: LspPosition { line: 0, character: 0 },
            end: LspPosition { line: 0, character: 0 },
        }
    }
}

/// Number of UTF-8 bytes of `c`.
pub open spec fn utf8_len(c: char) -> nat {
    encode_scalar(c as u32).len()
}

/// Number of UTF-16 code units of `c`.
pub open spec fn utf16_len(c: char) -> nat {
    if (c as u32) < 0x10000 { 1 } else { 2 }
}

/// Number of UTF-16 code units of `chars`.
pub open spec fn utf16_count(chars: Seq<char>) -> nat
    decreases chars.len(),
{
    if chars.len() == 0 { 0 } else { utf16_count(chars.drop_last()) + utf16_len(chars.last()) }
}

/// Number of UTF-8 bytes of `chars`.
pub open spec fn utf8_count(chars: Seq<char>) -> nat {
    encode_utf8(chars).len()
}

pub proof fn lemma_encode_utf8_concat(a: Seq<char>, b: Seq<char>)
    ensures
        encode_utf8(a + b) == encode_utf8(a) + encode_utf8(b),
    decreases a.len(),
{
    if a.len() == 0 {
        assert(a + b =~= b);
        assert(encode_utf8(a) + encode_utf8(b) =~= encode_utf8(b));
    } else {
        assert((a + b).drop_first() =~= a.drop_first() + b);
        lemma_encode_utf8_concat(a.drop_first(), b);
        assert(encode_utf8(a + b) =~= encode_scalar(a[0] as u32) + encode_utf8(a.drop_first() + b));
    }
}

pub proof fn lemma_utf8_count_push(a: Seq<char>, c: char)
    ensures
        utf8_count(a.push(c)) == utf8_count(a) + utf8_len(c),
{
    lemma_encode_utf8_concat(a, seq![c]);
    assert(a.push(c) =~= a + seq![c]);
    assert(encode_utf8(seq![c]) =~= encode_scalar(c as u32) + encode_utf8(seq![c].drop_first()));
    assert(seq![c].drop_first() =~= Seq::<char>::empty());
}

pub proof fn lemma_utf8_count_prefix(a: Seq<char>, k: int)
    requires
        0 <= k <= a.len(),
    ensures
        utf8_count(a.take(k)) <= utf8_count(a),
{
    lemma_encode_utf8_concat(a.take(k), a.skip(k));
    assert(a.take(k) + a.skip(k) =~= a);
}

/// A character takes one to four bytes in UTF-8.
pub proof fn lemma_utf8_len_bound(c: char)
    ensures
        1 <= utf8_len(c) <= 4,
{
    char_is_scalar(c);
}

/// Width of `c` in UTF-8, as `char::len_utf8` computes it.
pub fn char_len_utf8(c: char) -> (n: usize)
    ensures
        n == utf8_len(c),
        1 <= n <= 4,
{
    proof {
        char_is_scalar(c);
    }
    let v = c as u32;
    if v < 0x80 {
        1
    } else if v < 0x800 {
        2
    } else if v < 0x10000 {
        3
    } else {
        4
    }
}

/// Width of `c` in UTF-16, as `char::len_utf16` computes it.
pub fn char_len_utf16(c: char) -> (n: usize)
    ensures
        n == utf16_len(c),
        n <= utf8_len(c),
{
    proof {
        char_is_scalar(c);
    }
    if (c as u32) < 0x10000 {
        1
    } else {
        2
    }
}

/// Index of the first char at which the UTF-16 offset reaches `idx`
/// (`chars.len()` if it never does), searching from `k`.
pub open spec fn utf16_stop(chars: Seq<char>, idx: nat, k: nat) -> nat
    decreases chars.len() - k,
{
    if k >= chars.len() || utf16_count(chars.take(k as int)) >= idx {
        k
    } else {
        utf16_stop(chars, idx, k + 1)
    }
}

/// The byte offset in `s` of the UTF-16 offset `idx`: the bytes of the chars
/// before the first char at which `idx` is reached, or the whole length
/// when `idx` lies past the end.
pub open spec fn spec_utf16_idx_to_byte_idx(s: Seq<char>, idx: nat) -> nat {
    let k = utf16_stop(s, idx, 0);
    if utf16_count(s.take(k as int)) < idx {
        utf8_count(s)
    } else {
        utf8_count(s.take(k as int))
    }
}

/// Converts a UTF-16 offset within `s` into a byte offset.
pub fn utf16_idx_to_byte_idx(s: &str, utf16_idx: usize) -> (r: usize)
    requires
        s.spec_bytes().len() <= usize::MAX,
    ensures
        r == spec_utf16_idx_to_byte_idx(s@, utf16_idx as nat),
{
    let chars = to_chars(s);
    let mut utf16_current: usize = 0;
    let mut byte_current: usize = 0;
    let mut i: usize = 0;
    proof {
        assert(s.spec_bytes() == encode_utf8(s@));
        assert(chars@.take(0) =~= Seq::<char>::empty());
    }
    while i < chars.len() && utf16_current < utf16_idx
        invariant
            chars@ == s@,
            utf8_count(s@) <= usize::MAX,
            i <= chars.len(),
            utf16_current == utf16_count(chars@.take(i as int)),
            byte_current == utf8_count(chars@.take(i as int)),
            utf16_current <= byte_current,
            utf16_stop(s@, utf16_idx as nat, 0) == utf16_stop(s@, utf16_idx as nat, i as nat),
        decreases chars.len() - i,
    {
        let c = chars[i];
        let ghost pre = chars@.take(i as int);
        assert(chars@.take(i + 1) =~= pre.push(c));
        assert(chars@.take(i + 1).drop_last() =~= pre);
        proof {
            lemma_utf8_count_push(pre, c);
            lemma_utf8_count_prefix(chars@, i + 1);
        }
        let w16 = char_len_utf16(c);
        let w8 = char_len_utf8(c);
        utf16_current = utf16_current + w16;
        byte_current = byte_current + w8;
        i = i + 1;
    }
    if utf16_current < utf16_idx {
        assert(i == chars.len());
        assert(chars@.take(i as int) =~= chars@);
        s.len()
    } else {
        byte_current
    }
}

/// Offset of the start of line `line` in `b`, scanning from `from`;
/// `None` when the bytes end first.
pub open spec fn line_start(b: Seq<u8>, line: nat, from: nat) -> Option<nat>
    decreases b.len() - from,
{
    if line == 0 {
        Some(from)
    } else if from >= b.len() {
        None
    } else if b[from as int] == 10u8 {
        line_start(b, (line - 1) as nat, from + 1)
    } else {
        line_start(b, line, from + 1)
    }
}

/// The byte offset of `pos` in `b`: the start of its line plus the bytes of
/// at most `pos.character` chars, stopping at the end of the line; the length
/// of `b` when the line does not exist or the rest of `b` is not UTF-8.
pub open spec fn spec_lsp_pos_to_byte_offset(b: Seq<u8>, pos: LspPosition) -> nat {
    match line_start(b, pos.line as nat, 0) {
        Some(off) => {
            let rest = b.skip(off as int);
            if valid_utf8(rest) {
                let chars = decode_utf8(rest);
                let n = newline_index(chars);
                let k = if (pos.character as nat) < n { pos.character as nat } else { n };
                off + utf8_count(chars.take(k as int))
            } else {
                b.len()
            }
        },
        None => b.len(),
    }
}

/// Decodes `bytes` as UTF-8 (`std::str::from_utf8`); `None` when they are
/// not valid UTF-8. The result's bytes are the given bytes.
#[verifier::external_body]
fn str_from_utf8(bytes: &[u8]) -> (r: Option<&str>)
    ensures
        r is Some <==> valid_utf8(bytes@),
        r matches Some(s) ==> s.spec_bytes() == bytes@,
{
    std::str::from_utf8(bytes).ok()
}

/// Converts a line/column position into a byte offset within `contents`.
pub fn lsp_pos_to_byte_offset(contents: &[u8], pos: LspPosition) -> (r: usize)
    ensures
        r == spec_lsp_pos_to_byte_offset(contents@, pos),
{
    let mut current_line: usize = 0;
    let mut current_offset: usize = 0;
    while current_line < pos.line as usize && current_offset < contents.len()
        invariant
            current_line <= pos.line,
            current_offset <= contents.len(),
            line_start(contents@, pos.line as nat, 0) == line_start(
                contents@,
                (pos.line - current_line) as nat,
                current_offset as nat,
            ),
        decreases contents.len() - current_offset,
    {
        if contents[current_offset] == 10u8 {
            current_line = current_line + 1;
        }
        current_offset = current_offset + 1;
    }
    if current_line == pos.line as usize {
        let remaining = &contents[current_offset..contents.len()];
        assert(remaining@ =~= contents@.skip(current_offset as int));
        match str_from_utf8(remaining) {
            Some(s) => {
                proof {
                    decode_utf8_encode_utf8(remaining@);
                    encode_utf8_decode_utf8(s@);
                    assert(s.spec_bytes() == encode_utf8(s@));
                }
                let chars = to_chars(s);
                let ghost n = newline_index(chars@);
                proof {
                    crate::text::lemma_newline_index_bound(chars@);
                }
                let mut char_count: usize = 0;
                let mut byte_count: usize = 0;
                let total = contents.len();
                assert(total == contents@.len());
                while char_count < chars.len() && char_count < pos.character as usize && chars[char_count] != '\n'
                    invariant
                        total == contents@.len(),
                        chars@ == decode_utf8(remaining@),
                        encode_utf8(chars@) == remaining@,
                        remaining@.len() + current_offset == contents@.len(),
                        n == newline_index(chars@),
                        n <= chars@.len(),
                        n < chars@.len() ==> chars@[n as int] == '\n',
                        forall|k: int| 0 <= k < n ==> chars@[k] != '\n',
                        char_count <= n,
                        char_count <= pos.character,
                        byte_count == utf8_count(chars@.take(char_count as int)),
                    decreases chars.len() - char_count,
                {
                    let c = chars[char_count];
                    proof {
                        let pre = chars@.take(char_count as int);
                        assert(chars@.take(char_count + 1) =~= pre.push(c));
                        lemma_utf8_count_push(pre, c);
                        lemma_utf8_count_prefix(chars@, char_count + 1);
                        assert(utf8_count(chars@) == remaining@.len());
                    }
                    let w = char_len_utf8(c);
                    byte_count = byte_count + w;
                    char_count = char_count + 1;
                }
                proof {
                    let k = if (pos.character as nat) < n { pos.character as nat } else { n };
                    assert(char_count == k);
                    lemma_utf8_count_prefix(chars@, char_count as int);
                    assert(utf8_count(chars@) == remaining@.len());
                }
                return current_offset + byte_count;
            },
            None => {},
        }
    }
    contents.len()
}

} // verus!
