//! The smallest whole-line edit that turns a document into its formatted
//! form: common leading and trailing lines are kept, the lines between are
//! replaced.
use vstd::prelude::*;

use crate::hover::char_stop;
use crate::position::{char_len_utf16, utf16_count, utf16_len, utf16_stop, LspPosition, LspRange};
use crate::text::{lines, newline_index, spec_lines, str_eq, string_from_range, to_chars, views, lemma_newline_index_bound};

verus! {

/// A replacement of the text in `range` by `new_text`.
#[derive(Debug, PartialEq, Eq)]
pub struct FormatEdit {
    pub range: LspRange,
    pub new_text: String,
}

/// The view of an edit.
pub struct EditView {
    pub range: LspRange,
    pub new_text: Seq<char>,
}

impl View for FormatEdit {
    type V = EditView;

    open spec fn view(&self) -> EditView {
        EditView { range: self.range, new_text: self.new_text@ }
    }
}

// ---------- positions and offsets ----------

/// The number of newlines in `s`.
pub open spec fn nl_count(s: Seq<char>) -> nat
    decreases s.len(),
{
    if s.len() == 0 {
        0
    } else {
        nl_count(s.drop_last()) + if s.last() == '\n' { 1nat } else { 0nat }
    }
}

/// The offset at which the line holding offset `k` of `t` starts: just
/// after the last newline before `k`, or 0.
pub open spec fn line_start_before(t: Seq<char>, k: nat) -> nat
    decreases k,
{
    if k == 0 || k > t.len() {
        0
    } else if t[k - 1] == '\n' {
        k
    } else {
        line_start_before(t, (k - 1) as nat)
    }
}

/// The position of offset `k` of `t`: its line (the newlines before it)
/// and its UTF-16 column within that line.
pub open spec fn pos_at(t: Seq<char>, k: nat) -> LspPosition {
    LspPosition {
        line: nl_count(t.take(k as int)) as u32,
        character: utf16_count(t.subrange(line_start_before(t, k) as int, k as int)) as u32,
    }
}

/// The offset at which line `l` of `t` starts: after its `l`-th newline;
/// the end of `t` when it has fewer.
pub open spec fn line_start_of(t: Seq<char>, l: nat) -> nat
    decreases l,
{
    if l == 0 {
        0
    } else {
        let p = line_start_of(t, (l - 1) as nat);
        let i = newline_index(t.skip(p as int));
        if p + i < t.len() {
            p + i + 1
        } else {
            t.len()
        }
    }
}

/// The offset of position `pos` in `t`: the start of its line, plus the
/// characters of that line before its UTF-16 column.
pub open spec fn offset_at(t: Seq<char>, pos: LspPosition) -> nat {
    let s = line_start_of(t, pos.line as nat);
    let rest = t.skip(s as int);
    s + char_stop(rest.take(newline_index(rest) as int), pos.character as nat)
}

/// `t` with the text of the edit's range replaced by its new text.
pub open spec fn apply_edit(t: Seq<char>, e: EditView) -> Seq<char> {
    t.take(offset_at(t, e.range.start) as int) + e.new_text + t.skip(offset_at(t, e.range.end) as int)
}

// ---------- the edit ----------

/// The length of the common prefix of `a` and `b`, counting from `i`.
pub open spec fn common_prefix_len(a: Seq<char>, b: Seq<char>, i: nat) -> nat
    decreases a.len() - i,
{
    if i < a.len() && i < b.len() && a[i as int] == b[i as int] {
        common_prefix_len(a, b, i + 1)
    } else {
        i
    }
}

/// The length of the common suffix of `a` and `b`, at most `bound`,
/// counting from `j`.
pub open spec fn common_suffix_len(a: Seq<char>, b: Seq<char>, bound: nat, j: nat) -> nat
    decreases bound - j,
{
    if j < bound && j < a.len() && j < b.len() && a[a.len() - 1 - j] == b[b.len() - 1 - j] {
        common_suffix_len(a, b, bound, j + 1)
    } else {
        j
    }
}

/// The first offset from `k` on that ends the text of a line other than
/// the last (a newline with text after it); the end of `t` when none does.
pub open spec fn line_end_from(t: Seq<char>, k: nat) -> nat
    decreases t.len() - k,
{
    if k >= t.len() {
        t.len()
    } else if t[k as int] == '\n' && k + 1 < t.len() {
        k
    } else {
        line_end_from(t, k + 1)
    }
}

/// The offsets in `original` between which the edit replaces text: from
/// the start of the line holding the first differing character, to the end
/// of the text of the line holding the last one (the end of the document
/// when that is its last line). The text before and after is common to
/// both documents.
pub open spec fn edit_offsets(original: Seq<char>, formatted: Seq<char>) -> (nat, nat) {
    let cp = common_prefix_len(original, formatted, 0);
    let m = if original.len() < formatted.len() { original.len() } else { formatted.len() };
    let cs = common_suffix_len(original, formatted, (m - cp) as nat, 0);
    (line_start_before(original, cp), line_end_from(original, (original.len() - cs) as nat))
}

/// The whole-line edit from `original` to `formatted`: none when their
/// lines are the same; otherwise the edit that replaces the lines between
/// the common leading and trailing text by those of `formatted`.
pub open spec fn spec_format_edit(original: Seq<char>, formatted: Seq<char>) -> Option<EditView> {
    if spec_lines(original) == spec_lines(formatted) {
        None
    } else {
        let (a, b) = edit_offsets(original, formatted);
        Some(
            EditView {
                range: LspRange { start: pos_at(original, a), end: pos_at(original, b) },
                new_text: formatted.subrange(a as int, formatted.len() - (original.len() - b)),
            },
        )
    }
}

// ---------- lemmas ----------

proof fn lemma_common_prefix(a: Seq<char>, b: Seq<char>, i: nat)
    requires
        i <= a.len(),
        i <= b.len(),
        forall|k: int| 0 <= k < i ==> a[k] == b[k],
    ensures
        i <= common_prefix_len(a, b, i) <= a.len(),
        common_prefix_len(a, b, i) <= b.len(),
        forall|k: int| 0 <= k < common_prefix_len(a, b, i) ==> a[k] == b[k],
    decreases a.len() - i,
{
    if i < a.len() && i < b.len() && a[i as int] == b[i as int] {
        lemma_common_prefix(a, b, i + 1);
    }
}

/// The `k`-th characters from the ends of `a` and `b` agree.
pub open spec fn same_from_end(a: Seq<char>, b: Seq<char>, k: int) -> bool {
    a[a.len() - 1 - k] == b[b.len() - 1 - k]
}

proof fn lemma_common_suffix(a: Seq<char>, b: Seq<char>, bound: nat, j: nat)
    requires
        j <= bound,
        j <= a.len(),
        j <= b.len(),
        forall|k: int| 0 <= k < j ==> #[trigger] same_from_end(a, b, k),
    ensures
        j <= common_suffix_len(a, b, bound, j) <= bound,
        common_suffix_len(a, b, bound, j) <= a.len(),
        common_suffix_len(a, b, bound, j) <= b.len(),
        forall|k: int| 0 <= k < common_suffix_len(a, b, bound, j) ==> #[trigger] same_from_end(a, b, k),
    decreases bound - j,
{
    if j < bound && j < a.len() && j < b.len() && a[a.len() - 1 - j] == b[b.len() - 1 - j] {
        lemma_common_suffix(a, b, bound, j + 1);
    }
}

proof fn lemma_line_start_before(t: Seq<char>, k: nat)
    requires
        k <= t.len(),
    ensures
        line_start_before(t, k) <= k,
        line_start_before(t, k) > 0 ==> t[line_start_before(t, k) - 1] == '\n',
        forall|m: int| line_start_before(t, k) <= m < k ==> t[m] != '\n',
    decreases k,
{
    if k > 0 && t[k - 1] != '\n' {
        lemma_line_start_before(t, (k - 1) as nat);
    }
}

proof fn lemma_line_end_from(t: Seq<char>, k: nat)
    requires
        k <= t.len(),
    ensures
        k <= line_end_from(t, k) <= t.len(),
    decreases t.len() - k,
{
    if k < t.len() && !(t[k as int] == '\n' && k + 1 < t.len()) {
        lemma_line_end_from(t, k + 1);
    }
}

proof fn lemma_nl_count_bound(s: Seq<char>)
    ensures
        nl_count(s) <= s.len(),
    decreases s.len(),
{
    if s.len() > 0 {
        lemma_nl_count_bound(s.drop_last());
    }
}

proof fn lemma_utf16_count_bound(s: Seq<char>)
    ensures
        s.len() <= utf16_count(s) <= 2 * s.len(),
    decreases s.len(),
{
    if s.len() > 0 {
        lemma_utf16_count_bound(s.drop_last());
    }
}

proof fn lemma_utf16_count_grows(s: Seq<char>, k: nat, j: nat)
    requires
        k < j <= s.len(),
    ensures
        utf16_count(s.take(k as int)) < utf16_count(s.take(j as int)),
    decreases j,
{
    assert(s.take(j as int).drop_last() =~= s.take(j - 1));
    if k < j - 1 {
        lemma_utf16_count_grows(s, k, (j - 1) as nat);
    }
}

proof fn lemma_utf16_stop_at(s: Seq<char>, j: nat, k: nat)
    requires
        k <= j <= s.len(),
    ensures
        utf16_stop(s, utf16_count(s.take(j as int)), k) == j,
    decreases j - k,
{
    if k < j {
        lemma_utf16_count_grows(s, k, j);
        lemma_utf16_stop_at(s, j, k + 1);
    }
}

/// The column of the first `j` characters of a line leads back to them.
proof fn lemma_char_stop_count(s: Seq<char>, j: nat)
    requires
        j <= s.len(),
    ensures
        char_stop(s, utf16_count(s.take(j as int))) == j,
{
    lemma_utf16_stop_at(s, j, 0);
}

proof fn lemma_newline_index_at_least(s: Seq<char>, m: nat)
    requires
        m <= s.len(),
        forall|k: int| 0 <= k < m ==> s[k] != '\n',
    ensures
        m <= newline_index(s),
        m < s.len() && s[m as int] == '\n' ==> newline_index(s) == m,
{
    lemma_newline_index_bound(s);
}

/// The start of the line of the newlines before `k` is the start of the
/// line holding `k`.
proof fn lemma_line_start_of_count(t: Seq<char>, k: nat)
    requires
        k <= t.len(),
    ensures
        line_start_of(t, nl_count(t.take(k as int))) == line_start_before(t, k),
    decreases k,
{
    if k > 0 {
        assert(t.take(k as int).drop_last() =~= t.take(k - 1));
        lemma_line_start_of_count(t, (k - 1) as nat);
        if t[k - 1] == '\n' {
            let c = nl_count(t.take(k - 1));
            let p = line_start_before(t, (k - 1) as nat);
            lemma_line_start_before(t, (k - 1) as nat);
            let rest = t.skip(p as int);
            assert forall|m: int| 0 <= m < k - 1 - p implies rest[m] != '\n' by {
                assert(rest[m] == t[p + m]);
            }
            assert(rest[k - 1 - p] == t[k - 1]);
            lemma_newline_index_at_least(rest, (k - 1 - p) as nat);
            assert(line_start_of(t, c + 1) == k);
        }
    }
}

/// Offset `k` of `t` is where its position leads back to.
proof fn lemma_offset_of_pos(t: Seq<char>, k: nat)
    requires
        k <= t.len(),
        2 * t.len() <= u32::MAX,
    ensures
        offset_at(t, pos_at(t, k)) == k,
{
    let s = line_start_before(t, k);
    lemma_line_start_before(t, k);
    lemma_nl_count_bound(t.take(k as int));
    lemma_line_start_of_count(t, k);
    let seg = t.subrange(s as int, k as int);
    lemma_utf16_count_bound(seg);
    let p = pos_at(t, k);
    assert(p.line as nat == nl_count(t.take(k as int)));
    assert(p.character as nat == utf16_count(seg));
    let rest = t.skip(s as int);
    assert forall|m: int| 0 <= m < k - s implies rest[m] != '\n' by {
        assert(rest[m] == t[s + m]);
    }
    lemma_newline_index_at_least(rest, (k - s) as nat);
    lemma_newline_index_bound(rest);
    let line = rest.take(newline_index(rest) as int);
    assert(line.len() >= k - s);
    assert forall|m: int| 0 <= m < k - s implies line.take(k - s)[m] == seg[m] by {
        assert(rest[m] == t[s + m]);
    }
    assert(line.take(k - s) =~= seg);
    lemma_char_stop_count(line, (k - s) as nat);
}

/// Applying the whole-line edit to the original document gives the
/// formatted one, wherever their lines differ and the document is small
/// enough for its positions to be 32-bit numbers.
pub proof fn law_format_edit_applies(original: Seq<char>, formatted: Seq<char>)
    requires
        spec_lines(original) != spec_lines(formatted),
        2 * original.len() <= u32::MAX,
    ensures
        spec_format_edit(original, formatted) matches Some(e) && apply_edit(original, e) == formatted,
{
    let o = original;
    let f = formatted;
    lemma_common_prefix(o, f, 0);
    let cp = common_prefix_len(o, f, 0);
    let m = if o.len() < f.len() { o.len() } else { f.len() };
    lemma_common_suffix(o, f, (m - cp) as nat, 0);
    let cs = common_suffix_len(o, f, (m - cp) as nat, 0);
    lemma_line_start_before(o, cp);
    lemma_line_end_from(o, (o.len() - cs) as nat);
    let (a, b) = edit_offsets(o, f);
    let e = spec_format_edit(o, f)->0;
    lemma_offset_of_pos(o, a);
    lemma_offset_of_pos(o, b);
    let hi = f.len() - (o.len() - b);
    assert(o.take(a as int) =~= f.take(a as int));
    assert forall|k: int| 0 <= k < o.len() - b implies o.skip(b as int)[k] == f.skip(hi)[k] by {
        let j = o.len() - b - 1 - k;
        assert(same_from_end(o, f, j));
    }
    assert(o.skip(b as int) =~= f.skip(hi));
    assert(apply_edit(o, e) =~= f.take(a as int) + f.subrange(a as int, hi) + f.skip(hi));
    assert(apply_edit(o, e) =~= f);
}

// ---------- the executable edit ----------

fn same_lines(a: &Vec<String>, b: &Vec<String>) -> (r: bool)
    ensures
        r == (views(a@) == views(b@)),
{
    if a.len() != b.len() {
        assert(views(a@).len() != views(b@).len());
        return false;
    }
    let mut i: usize = 0;
    while i < a.len()
        invariant
            i <= a.len(),
            a.len() == b.len(),
            forall|k: int| 0 <= k < i ==> a@[k]@ == b@[k]@,
        decreases a.len() - i,
    {
        if !str_eq(a[i].as_str(), b[i].as_str()) {
            assert(views(a@)[i as int] != views(b@)[i as int]);
            return false;
        }
        i = i + 1;
    }
    assert(views(a@) =~= views(b@));
    true
}

fn position_of(v: &Vec<char>, k: usize) -> (p: LspPosition)
    requires
        k <= v.len(),
    ensures
        p == pos_at(v@, k as nat),
{
    let ghost t = v@;
    let mut count: usize = 0;
    let mut i: usize = 0;
    assert(t.take(0) =~= Seq::<char>::empty());
    while i < k
        invariant
            t == v@,
            i <= k <= v.len(),
            count <= i,
            count == nl_count(t.take(i as int)),
        decreases k - i,
    {
        assert(t.take(i + 1).drop_last() =~= t.take(i as int));
        if v[i] == '\n' {
            count = count + 1;
        }
        i = i + 1;
    }
    let mut s = k;
    while s > 0 && v[s - 1] != '\n'
        invariant
            t == v@,
            s <= k <= v.len(),
            line_start_before(t, s as nat) == line_start_before(t, k as nat),
        decreases s,
    {
        s = s - 1;
    }
    let mut units: u128 = 0;
    let mut j = s;
    assert(t.subrange(s as int, s as int) =~= Seq::<char>::empty());
    while j < k
        invariant
            t == v@,
            s <= j <= k <= v.len(),
            units == utf16_count(t.subrange(s as int, j as int)),
            units <= 2 * (j - s),
        decreases k - j,
    {
        assert(t.subrange(s as int, j + 1).drop_last() =~= t.subrange(s as int, j as int));
        units = units + char_len_utf16(v[j]) as u128;
        j = j + 1;
    }
    LspPosition { line: count as u32, character: units as u32 }
}

/// The whole-line edit from `original` to `formatted`, if their lines
/// differ (see `spec_format_edit`).
pub fn compute_format_edit(original: &str, formatted: &str) -> (r: Option<FormatEdit>)
    ensures
        match r {
            Some(e) => spec_format_edit(original@, formatted@) == Some(e@),
            None => spec_format_edit(original@, formatted@) is None,
        },
{
    let orig_lines = lines(original);
    let new_lines = lines(formatted);
    if same_lines(&orig_lines, &new_lines) {
        return None;
    }
    let o = to_chars(original);
    let f = to_chars(formatted);
    let ghost ov = o@;
    let ghost fv = f@;
    let mut cp: usize = 0;
    while cp < o.len() && cp < f.len() && o[cp] == f[cp]
        invariant
            ov == o@,
            fv == f@,
            cp <= o.len(),
            cp <= f.len(),
            common_prefix_len(ov, fv, 0) == common_prefix_len(ov, fv, cp as nat),
        decreases o.len() - cp,
    {
        cp = cp + 1;
    }
    let m = if o.len() < f.len() { o.len() } else { f.len() };
    let bound = m - cp;
    let mut cs: usize = 0;
    while cs < bound && cs < o.len() && cs < f.len() && o[o.len() - 1 - cs] == f[f.len() - 1 - cs]
        invariant
            ov == o@,
            fv == f@,
            cs <= bound,
            bound == m - cp,
            m <= o.len(),
            m <= f.len(),
            common_suffix_len(ov, fv, bound as nat, 0) == common_suffix_len(ov, fv, bound as nat, cs as nat),
        decreases bound - cs,
    {
        cs = cs + 1;
    }
    let mut a = cp;
    while a > 0 && o[a - 1] != '\n'
        invariant
            ov == o@,
            a <= cp <= o.len(),
            line_start_before(ov, a as nat) == line_start_before(ov, cp as nat),
        decreases a,
    {
        a = a - 1;
    }
    let mut b = o.len() - cs;
    while b < o.len() && !(o[b] == '\n' && b + 1 < o.len())
        invariant
            ov == o@,
            b <= o.len(),
            line_end_from(ov, b as nat) == line_end_from(ov, (o.len() - cs) as nat),
        decreases o.len() - b,
    {
        b = b + 1;
    }
    proof {
        lemma_common_prefix(ov, fv, 0);
        lemma_common_suffix(ov, fv, bound as nat, 0);
        lemma_line_start_before(ov, cp as nat);
        lemma_line_end_from(ov, (o.len() - cs) as nat);
        assert((a as nat, b as nat) == edit_offsets(ov, fv));
    }
    let hi = f.len() - (o.len() - b);
    let start = position_of(&o, a);
    let end = position_of(&o, b);
    let new_text = string_from_range(&f, a, hi);
    Some(FormatEdit { range: LspRange { start, end }, new_text })
}

} // verus!
