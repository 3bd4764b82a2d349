//! Semantic tokens of a file: hub references in TWXML, the captured
//! declarations of HubGS, ordered by position.
use vstd::prelude::*;

use crate::model::{ReferenceView, WorkspaceFile};
use crate::position::SemanticToken;
use crate::resolution::{is_hubgs, is_hubgs_path, is_twxml, is_twxml_path};

verus! {

/// Token type of a hub type name.
pub const TOKEN_TYPE: u32 = 0;

/// Token type of a field or role name.
pub const TOKEN_FIELD: u32 = 1;

/// Token type of an instance name.
pub const TOKEN_INSTANCE: u32 = 2;

/// Token type of an enum name.
pub const TOKEN_ENUM: u32 = 3;

/// Modifier bit of a declaration (the first modifier of the legend).
pub const MOD_DECLARATION: u32 = 1;

/// Modifier bit of a definition (the second modifier of the legend).
pub const MOD_DEFINITION: u32 = 2;

/// The token type and modifiers of a HubGS query capture, by its name:
/// type definitions, instance names, instance types, field and role
/// declarations, assigned field names and enum names; none for another
/// capture.
pub open spec fn capture_token(name: Seq<char>) -> Option<(u32, u32)> {
    if name == "type_def"@ {
        Some((TOKEN_TYPE, MOD_DECLARATION | MOD_DEFINITION))
    } else if name == "inst_name"@ {
        Some((TOKEN_INSTANCE, MOD_DEFINITION))
    } else if name == "inst_type"@ {
        Some((TOKEN_TYPE, 0))
    } else if name == "field_name"@ || name == "role_name"@ {
        Some((TOKEN_FIELD, MOD_DECLARATION | MOD_DEFINITION))
    } else if name == "assign_name"@ {
        Some((TOKEN_FIELD, 0))
    } else if name == "enum_name"@ {
        Some((TOKEN_ENUM, MOD_DECLARATION | MOD_DEFINITION))
    } else {
        None
    }
}

/// The token type and modifiers of a HubGS query capture (see
/// `capture_token`).
pub fn hubgs_capture_token(name: &str) -> (r: Option<(u32, u32)>)
    ensures
        r == capture_token(name@),
{
    if crate::text::str_eq(name, "type_def") {
        Some((TOKEN_TYPE, MOD_DECLARATION | MOD_DEFINITION))
    } else if crate::text::str_eq(name, "inst_name") {
        Some((TOKEN_INSTANCE, MOD_DEFINITION))
    } else if crate::text::str_eq(name, "inst_type") {
        Some((TOKEN_TYPE, 0))
    } else if crate::text::str_eq(name, "field_name") || crate::text::str_eq(name, "role_name") {
        Some((TOKEN_FIELD, MOD_DECLARATION | MOD_DEFINITION))
    } else if crate::text::str_eq(name, "assign_name") {
        Some((TOKEN_FIELD, 0))
    } else if crate::text::str_eq(name, "enum_name") {
        Some((TOKEN_ENUM, MOD_DECLARATION | MOD_DEFINITION))
    } else {
        None
    }
}

/// The token of a hub reference: its name inside the tag, one column in
/// and two shorter than the reference's range.
pub open spec fn reference_token(r: ReferenceView) -> SemanticToken {
    let range = r.range;
    SemanticToken {
        line: range.start.line,
        character: (range.start.character + 1) as u32,
        length: if range.end.character > range.start.character + 2 {
            (range.end.character - range.start.character - 2) as u32
        } else {
            0
        },
        token_type: TOKEN_INSTANCE,
        token_modifiers: 0,
    }
}

/// References whose columns leave room for the token arithmetic.
pub open spec fn columns_fit(refs: Seq<ReferenceView>) -> bool {
    forall|i: int| 0 <= i < refs.len() ==> #[trigger] refs[i].range.start.character + 2 <= u32::MAX
}

/// Appends the token of each hub reference of `file`.
pub fn append_twxml_semantic_tokens(file: &WorkspaceFile, tokens: &mut Vec<SemanticToken>)
    requires
        columns_fit(file@.references),
    ensures
        final(tokens)@ == old(tokens)@ + file@.references.map_values(|r: ReferenceView| reference_token(r)),
{
    let ghost refs = file@.references;
    let ghost t0 = tokens@;
    let mut i: usize = 0;
    assert(refs.take(0).map_values(|r: ReferenceView| reference_token(r)) =~= Seq::<SemanticToken>::empty());
    assert(tokens@ =~= t0 + refs.take(0).map_values(|r: ReferenceView| reference_token(r)));
    while i < file.references.len()
        invariant
            i <= file.references.len(),
            refs == file@.references,
            columns_fit(refs),
            tokens@ == t0 + refs.take(i as int).map_values(|r: ReferenceView| reference_token(r)),
        decreases file.references.len() - i,
    {
        let range = file.references[i].range;
        assert(refs[i as int].range == range);
        let length = if range.end.character > range.start.character + 2 {
            range.end.character - range.start.character - 2
        } else {
            0
        };
        tokens.push(
            SemanticToken {
                line: range.start.line,
                character: range.start.character + 1,
                length,
                token_type: TOKEN_INSTANCE,
                token_modifiers: 0,
            },
        );
        assert(refs.take(i + 1).map_values(|r: ReferenceView| reference_token(r)) =~= refs.take(i as int).map_values(
            |r: ReferenceView| reference_token(r),
        ).push(reference_token(refs[i as int])));
        i = i + 1;
    }
    assert(refs.take(file.references.len() as int) =~= refs);
}

// ---------- ordering ----------

/// `a` comes no later than `b`: by line, then by column.
pub open spec fn token_le(a: SemanticToken, b: SemanticToken) -> bool {
    a.line < b.line || (a.line == b.line && a.character <= b.character)
}

/// `x` inserted into `s` after every element from the end that does not
/// come after it: the step of a stable insertion sort.
pub open spec fn insert_token(s: Seq<SemanticToken>, x: SemanticToken) -> Seq<SemanticToken>
    decreases s.len(),
{
    if s.len() == 0 {
        seq![x]
    } else if token_le(s.last(), x) {
        s.push(x)
    } else {
        insert_token(s.drop_last(), x).push(s.last())
    }
}

/// `s` sorted by position, tokens at equal positions kept in their order.
pub open spec fn sort_tokens(s: Seq<SemanticToken>) -> Seq<SemanticToken>
    decreases s.len(),
{
    if s.len() == 0 {
        Seq::empty()
    } else {
        insert_token(sort_tokens(s.drop_last()), s.last())
    }
}

proof fn lemma_insert_at(s: Seq<SemanticToken>, x: SemanticToken, p: int)
    requires
        0 <= p <= s.len(),
        forall|k: int| p <= k < s.len() ==> !token_le(#[trigger] s[k], x),
        p > 0 ==> token_le(s[p - 1], x),
    ensures
        insert_token(s, x) == s.take(p).push(x) + s.skip(p),
    decreases s.len() - p,
{
    if p == s.len() {
        if s.len() == 0 {
            assert(s.take(p).push(x) + s.skip(p) =~= seq![x]);
        } else {
            assert(s.take(p).push(x) + s.skip(p) =~= s.push(x));
        }
    } else {
        let d = s.drop_last();
        lemma_insert_at(d, x, p);
        assert(s.take(p).push(x) + s.skip(p) =~= (d.take(p).push(x) + d.skip(p)).push(s.last()));
    }
}

/// Sorts `tokens` by line, then column, keeping the order of tokens at the
/// same position.
pub fn sort_by_position(tokens: Vec<SemanticToken>) -> (r: Vec<SemanticToken>)
    ensures
        r@ == sort_tokens(tokens@),
{
    let mut out: Vec<SemanticToken> = Vec::new();
    let mut i: usize = 0;
    assert(tokens@.take(0) =~= Seq::<SemanticToken>::empty());
    while i < tokens.len()
        invariant
            i <= tokens.len(),
            out@ == sort_tokens(tokens@.take(i as int)),
        decreases tokens.len() - i,
    {
        let x = tokens[i];
        let mut p = out.len();
        while p > 0 && (out[p - 1].line > x.line || (out[p - 1].line == x.line && out[p - 1].character > x.character))
            invariant
                p <= out.len(),
                forall|k: int| p <= k < out@.len() ==> !token_le(#[trigger] out@[k], x),
            decreases p,
        {
            p = p - 1;
        }
        proof {
            lemma_insert_at(out@, x, p as int);
            assert(tokens@.take(i + 1).drop_last() =~= tokens@.take(i as int));
            assert(tokens@.take(i + 1).last() == x);
        }
        let ghost o0 = out@;
        out.insert(p, x);
        assert(out@ =~= o0.take(p as int).push(x) + o0.skip(p as int));
        i = i + 1;
    }
    assert(tokens@.take(tokens.len() as int) =~= tokens@);
    out
}

/// The tokens of a file before ordering: the captured declarations of a
/// HubGS file, the references of a TWXML file, none otherwise.
pub open spec fn raw_tokens(path: Seq<char>, refs: Seq<ReferenceView>, hubgs: Seq<SemanticToken>) -> Seq<SemanticToken> {
    if is_hubgs(path) {
        hubgs
    } else if is_twxml(path) {
        refs.map_values(|r: ReferenceView| reference_token(r))
    } else {
        Seq::empty()
    }
}

/// The semantic tokens of `file`, ordered by position. `hubgs_tokens` are
/// the tokens of the declarations the HubGS grammar captures, in capture
/// order; they are used for HubGS files.
pub fn compute_semantic_tokens(file: &WorkspaceFile, hubgs_tokens: &Vec<SemanticToken>) -> (r: Vec<SemanticToken>)
    requires
        is_twxml(file@.path) && !is_hubgs(file@.path) ==> columns_fit(file@.references),
    ensures
        r@ == sort_tokens(raw_tokens(file@.path, file@.references, hubgs_tokens@)),
{
    let mut tokens: Vec<SemanticToken> = Vec::new();
    if is_hubgs_path(&file.source.path) {
        let mut i: usize = 0;
        while i < hubgs_tokens.len()
            invariant
                i <= hubgs_tokens.len(),
                tokens@ == hubgs_tokens@.take(i as int),
            decreases hubgs_tokens.len() - i,
        {
            tokens.push(hubgs_tokens[i]);
            assert(hubgs_tokens@.take(i + 1) =~= hubgs_tokens@.take(i as int).push(hubgs_tokens@[i as int]));
            i = i + 1;
        }
        assert(hubgs_tokens@.take(hubgs_tokens.len() as int) =~= hubgs_tokens@);
    } else if is_twxml_path(&file.source.path) {
        append_twxml_semantic_tokens(file, &mut tokens);
        assert(tokens@ =~= raw_tokens(file@.path, file@.references, hubgs_tokens@));
    }
    sort_by_position(tokens)
}

// ---------- laws of ordering ----------

/// Whether `s` is ordered by position.
pub open spec fn positions_ordered(s: Seq<SemanticToken>) -> bool {
    forall|i: int, j: int| 0 <= i < j < s.len() ==> token_le(#[trigger] s[i], #[trigger] s[j])
}

proof fn lemma_insert_ordered(s: Seq<SemanticToken>, x: SemanticToken)
    requires
        positions_ordered(s),
    ensures
        positions_ordered(insert_token(s, x)),
        insert_token(s, x).to_multiset() == s.to_multiset().insert(x),
    decreases s.len(),
{
    broadcast use vstd::seq_lib::group_to_multiset_ensures;
    if s.len() == 0 {
        assert(seq![x] =~= Seq::<SemanticToken>::empty().push(x));
    } else if token_le(s.last(), x) {
        let t = s.push(x);
        assert forall|i: int, j: int| 0 <= i < j < t.len() implies token_le(#[trigger] t[i], #[trigger] t[j]) by {
            if j == s.len() {
                assert(token_le(s[i], s.last()) || i == s.len() - 1);
            }
        }
    } else {
        let d = s.drop_last();
        assert(positions_ordered(d)) by {
            assert forall|i: int, j: int| 0 <= i < j < d.len() implies token_le(#[trigger] d[i], #[trigger] d[j]) by {
                assert(d[i] == s[i] && d[j] == s[j]);
            }
        }
        lemma_insert_ordered(d, x);
        let m = insert_token(d, x);
        let t = m.push(s.last());
        lemma_insert_members(d, x);
        assert forall|i: int, j: int| 0 <= i < j < t.len() implies token_le(#[trigger] t[i], #[trigger] t[j]) by {
            if j == m.len() {
                assert(t[i] == m[i]);
                if m[i] == x {
                } else {
                    let k = choose|k: int| 0 <= k < d.len() && d[k] == m[i];
                    assert(token_le(s[k], s.last()));
                }
            }
        }
        assert(s =~= d.push(s.last()));
    }
}

proof fn lemma_insert_members(s: Seq<SemanticToken>, x: SemanticToken)
    ensures
        insert_token(s, x).len() == s.len() + 1,
        forall|i: int|
            0 <= i < insert_token(s, x).len() ==> #[trigger] insert_token(s, x)[i] == x || exists|k: int|
                0 <= k < s.len() && s[k] == insert_token(s, x)[i],
    decreases s.len(),
{
    if s.len() > 0 && !token_le(s.last(), x) {
        let d = s.drop_last();
        lemma_insert_members(d, x);
        let m = insert_token(d, x);
        assert forall|i: int| 0 <= i < insert_token(s, x).len() implies #[trigger] insert_token(s, x)[i] == x
            || exists|k: int| 0 <= k < s.len() && s[k] == insert_token(s, x)[i] by {
            if i < m.len() {
                if m[i] != x {
                    let k = choose|k: int| 0 <= k < d.len() && d[k] == m[i];
                    assert(s[k] == d[k]);
                }
            } else {
                assert(s[s.len() - 1] == insert_token(s, x)[i]);
            }
        }
    } else if s.len() > 0 {
        assert forall|i: int| 0 <= i < insert_token(s, x).len() implies #[trigger] insert_token(s, x)[i] == x
            || exists|k: int| 0 <= k < s.len() && s[k] == insert_token(s, x)[i] by {
            if i < s.len() {
                assert(s[i] == insert_token(s, x)[i]);
            }
        }
    }
}

/// The semantic tokens come out ordered by line, then column, and are the
/// tokens that went in, each as often as it went in.
pub proof fn law_sorted_tokens(s: Seq<SemanticToken>)
    ensures
        positions_ordered(sort_tokens(s)),
        sort_tokens(s).to_multiset() == s.to_multiset(),
    decreases s.len(),
{
    broadcast use vstd::seq_lib::group_to_multiset_ensures;
    if s.len() == 0 {
        assert(sort_tokens(s) =~= Seq::<SemanticToken>::empty());
    } else {
        law_sorted_tokens(s.drop_last());
        lemma_insert_ordered(sort_tokens(s.drop_last()), s.last());
        assert(s =~= s.drop_last().push(s.last()));
    }
}

/// Tokens at the same position keep the order they came in.
pub proof fn law_sort_is_stable(s: Seq<SemanticToken>)
    requires
        positions_ordered(s),
    ensures
        sort_tokens(s) == s,
    decreases s.len(),
{
    if s.len() > 0 {
        let d = s.drop_last();
        assert(positions_ordered(d)) by {
            assert forall|i: int, j: int| 0 <= i < j < d.len() implies token_le(#[trigger] d[i], #[trigger] d[j]) by {
                assert(d[i] == s[i] && d[j] == s[j]);
            }
        }
        law_sort_is_stable(d);
        if d.len() > 0 {
            assert(token_le(s[d.len() - 1], s[s.len() - 1]));
            assert(d.last() == s[d.len() - 1]);
        }
        assert(d.push(s.last()) =~= s);
    }
}


// ---------- relative encoding ----------

/// A token as the protocol sends it: its line and start relative to the
/// token before it.
#[derive(Clone, Copy, Debug, PartialEq, Eq, Structural)]
pub struct EncodedToken {
    pub delta_line: u32,
    pub delta_start: u32,
    pub length: u32,
    pub token_type: u32,
    pub token_modifiers: u32,
}

/// The `i`-th token of `s` relative to the one before it (to line 0,
/// column 0 for the first): the lines between them, and the column from
/// the earlier token's start on the same line, else from the line's start.
pub open spec fn delta_of(s: Seq<SemanticToken>, i: int) -> EncodedToken {
    let (line, ch) = if i == 0 { (0u32, 0u32) } else { (s[i - 1].line, s[i - 1].character) };
    EncodedToken {
        delta_line: (s[i].line - line) as u32,
        delta_start: (if s[i].line == line { s[i].character - ch } else { s[i].character as int }) as u32,
        length: s[i].length,
        token_type: s[i].token_type,
        token_modifiers: s[i].token_modifiers,
    }
}

/// The tokens `s` encoded relative to each other.
pub open spec fn delta_encoded(s: Seq<SemanticToken>) -> Seq<EncodedToken> {
    Seq::new(s.len(), |i: int| delta_of(s, i))
}

/// The tokens `tokens`, ordered by position, encoded relative to each
/// other (see `delta_of`).
pub fn encode_tokens(tokens: &Vec<SemanticToken>) -> (r: Vec<EncodedToken>)
    requires
        positions_ordered(tokens@),
    ensures
        r@ == delta_encoded(tokens@),
{
    let mut out: Vec<EncodedToken> = Vec::new();
    let mut last_line: u32 = 0;
    let mut last_char: u32 = 0;
    let mut i: usize = 0;
    while i < tokens.len()
        invariant
            i <= tokens.len(),
            positions_ordered(tokens@),
            out@.len() == i,
            forall|k: int| 0 <= k < i ==> #[trigger] out@[k] == delta_of(tokens@, k),
            i == 0 ==> last_line == 0 && last_char == 0,
            i > 0 ==> last_line == tokens@[i - 1].line && last_char == tokens@[i - 1].character,
        decreases tokens.len() - i,
    {
        let t = tokens[i];
        if i > 0 {
            assert(token_le(tokens@[i - 1], tokens@[i as int]));
        }
        let delta_start = if t.line == last_line { t.character - last_char } else { t.character };
        out.push(EncodedToken {
            delta_line: t.line - last_line,
            delta_start,
            length: t.length,
            token_type: t.token_type,
            token_modifiers: t.token_modifiers,
        });
        last_line = t.line;
        last_char = t.character;
        i = i + 1;
    }
    assert(out@ =~= delta_encoded(tokens@));
    out
}

/// The semantic tokens of `file` (see `compute_semantic_tokens`), encoded
/// relative to each other as the protocol sends them.
pub fn encoded_semantic_tokens(file: &WorkspaceFile, hubgs_tokens: &Vec<SemanticToken>) -> (r: Vec<EncodedToken>)
    requires
        is_twxml(file@.path) && !is_hubgs(file@.path) ==> columns_fit(file@.references),
    ensures
        r@ == delta_encoded(sort_tokens(raw_tokens(file@.path, file@.references, hubgs_tokens@))),
{
    let tokens = compute_semantic_tokens(file, hubgs_tokens);
    proof {
        law_sorted_tokens(raw_tokens(file@.path, file@.references, hubgs_tokens@));
    }
    encode_tokens(&tokens)
}

} // verus!
