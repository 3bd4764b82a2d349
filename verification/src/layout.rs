//! Text layout for the TWXML formatter: tag behaviours, indentation,
//! whitespace collapsing, words, trimming, attribute strings and the
//! joining of inline atoms with and without word wrapping.
use vstd::prelude::*;

use crate::multiplicity::leading_count;
use crate::position::{char_len_utf8, lemma_utf8_count_push, utf8_count};
use crate::text::{is_whitespace, is_ws, push_char, spec_join, str_eq, to_chars, views};

verus! {

/// The longest line the formatter aims for.
pub const MAX_LINE_LEN: usize = 100;

/// How the formatter lays out an element.
#[derive(Clone, Copy, Debug, PartialEq, Eq, Structural)]
pub enum TagBehavior {
    /// Always multiline; children are block-level elements.
    ForcedExpandBlock,
    /// Always multiline; children are inline prose.
    ForcedExpandInline,
    /// Inline if the content fits on one line, else expanded.
    LeafBlock,
    /// Self-closing, on its own indented line in block context.
    SelfClosingBlock,
    /// Content kept verbatim.
    CodeBlock,
    /// Inline line break.
    Br,
    /// Always inline.
    Fr,
}

/// The behaviour of each tag.
pub open spec fn spec_tag_behavior(tag: Seq<char>) -> TagBehavior {
    if tag == "br"@ {
        TagBehavior::Br
    } else if tag == "fr"@ {
        TagBehavior::Fr
    } else if tag == "codeblock"@ {
        TagBehavior::CodeBlock
    } else if tag == "hr"@ || tag == "image"@ || tag == "audio"@ || tag == "video"@ || tag == "meta"@ {
        TagBehavior::SelfClosingBlock
    } else if tag == "paragraph"@ || tag == "aside"@ || tag == "blockquote"@ {
        TagBehavior::ForcedExpandInline
    } else if tag == "document"@ || tag == "body"@ || tag == "section"@ || tag == "ul"@ || tag == "ol"@ || tag
        == "dl"@ || tag == "details"@ || tag == "table"@ || tag == "tr"@ || tag == "footnote"@ || tag == "review"@ {
        TagBehavior::ForcedExpandBlock
    } else {
        TagBehavior::LeafBlock
    }
}

/// The layout behaviour of `tag`.
pub fn tag_behavior(tag: &str) -> (b: TagBehavior)
    ensures
        b == spec_tag_behavior(tag@),
{
    if str_eq(tag, "br") {
        TagBehavior::Br
    } else if str_eq(tag, "fr") {
        TagBehavior::Fr
    } else if str_eq(tag, "codeblock") {
        TagBehavior::CodeBlock
    } else if str_eq(tag, "hr") || str_eq(tag, "image") || str_eq(tag, "audio") || str_eq(tag, "video") || str_eq(
        tag,
        "meta",
    ) {
        TagBehavior::SelfClosingBlock
    } else if str_eq(tag, "paragraph") || str_eq(tag, "aside") || str_eq(tag, "blockquote") {
        TagBehavior::ForcedExpandInline
    } else if str_eq(tag, "document") || str_eq(tag, "body") || str_eq(tag, "section") || str_eq(tag, "ul")
        || str_eq(tag, "ol") || str_eq(tag, "dl") || str_eq(tag, "details") || str_eq(tag, "table") || str_eq(
        tag,
        "tr",
    ) || str_eq(tag, "footnote") || str_eq(tag, "review") {
        TagBehavior::ForcedExpandBlock
    } else {
        TagBehavior::LeafBlock
    }
}

// ---------- lengths and indentation ----------

/// The number of UTF-8 bytes of `s`.
pub fn byte_len(s: &str) -> (n: u128)
    ensures
        n == utf8_count(s@),
        n <= 4 * (usize::MAX as u128),
{
    let v = to_chars(s);
    let mut n: u128 = 0;
    let mut i: usize = 0;
    assert(v@.take(0) =~= Seq::<char>::empty());
    assert(utf8_count(Seq::<char>::empty()) == 0) by {
        assert(vstd::utf8::encode_utf8(Seq::<char>::empty()) =~= Seq::<u8>::empty());
    }
    while i < v.len()
        invariant
            i <= v.len(),
            n == utf8_count(v@.take(i as int)),
            n <= 4 * i,
        decreases v.len() - i,
    {
        let w = char_len_utf8(v[i]);
        proof {
            lemma_utf8_count_push(v@.take(i as int), v@[i as int]);
            assert(v@.take(i + 1) =~= v@.take(i as int).push(v@[i as int]));
        }
        n = n + w as u128;
        i = i + 1;
    }
    assert(v@.take(v.len() as int) =~= s@);
    assert(n <= 4 * (usize::MAX as u128));
    n
}

/// `n` spaces.
pub open spec fn spaces(n: nat) -> Seq<char> {
    Seq::new(n, |i: int| ' ')
}

/// Appends `n` spaces to `s`.
pub fn push_spaces(s: &mut String, n: u128)
    ensures
        final(s)@ == old(s)@ + spaces(n as nat),
{
    let mut k: u128 = 0;
    assert(old(s)@ + spaces(0) =~= old(s)@);
    while k < n
        invariant
            k <= n,
            s@ == old(s)@ + spaces(k as nat),
        decreases n - k,
    {
        push_char(s, ' ');
        assert(old(s)@ + spaces((k + 1) as nat) =~= old(s)@ + spaces(k as nat) + seq![' ']);
        k = k + 1;
    }
}

/// The indentation of level `level`: two spaces per level.
pub open spec fn indentation(level: nat) -> Seq<char> {
    spaces(2 * level)
}

/// The indentation of level `level`.
pub fn indent_str(level: u128) -> (r: String)
    requires
        level <= usize::MAX as u128 + 1,
    ensures
        r@ == indentation(level as nat),
{
    let mut r = String::new();
    push_spaces(&mut r, 2 * level);
    assert(Seq::<char>::empty() + spaces(2 * (level as nat)) =~= indentation(level as nat));
    r
}

/// How many spaces start `s`.
pub fn leading_spaces(s: &str) -> (n: usize)
    ensures
        n == leading_count(s@, ' '),
{
    let v = to_chars(s);
    let mut i: usize = 0;
    assert(v@.skip(0) =~= v@);
    while i < v.len() && v[i] == ' '
        invariant
            i <= v.len(),
            v@ == s@,
            leading_count(s@, ' ') == i + leading_count(v@.skip(i as int), ' '),
        decreases v.len() - i,
    {
        assert(v@.skip(i as int).drop_first() =~= v@.skip(i + 1));
        i = i + 1;
    }
    i
}

// ---------- whitespace ----------

/// `s` with each run of white space made one space; `in_space` tells
/// whether a run is already open.
pub open spec fn collapse_from(s: Seq<char>, in_space: bool) -> Seq<char>
    decreases s.len(),
{
    if s.len() == 0 {
        Seq::empty()
    } else if is_ws(s[0]) {
        if in_space {
            collapse_from(s.drop_first(), true)
        } else {
            seq![' '] + collapse_from(s.drop_first(), true)
        }
    } else {
        seq![s[0]] + collapse_from(s.drop_first(), false)
    }
}

proof fn lemma_collapse_idempotent(t: Seq<char>, b: bool)
    ensures
        collapse_from(collapse_from(t, b), b) == collapse_from(t, b),
    decreases t.len(),
{
    if t.len() > 0 {
        let rest = t.drop_first();
        if is_ws(t[0]) {
            lemma_collapse_idempotent(rest, true);
            if !b {
                let c = seq![' '] + collapse_from(rest, true);
                assert(c.drop_first() =~= collapse_from(rest, true));
            }
        } else {
            lemma_collapse_idempotent(rest, false);
            let c = seq![t[0]] + collapse_from(rest, false);
            assert(c.drop_first() =~= collapse_from(rest, false));
        }
    }
}

proof fn lemma_collapse_shape(t: Seq<char>, b: bool)
    ensures
        forall|i: int| 0 <= i < collapse_from(t, b).len() && is_ws(#[trigger] collapse_from(t, b)[i]) ==> collapse_from(t, b)[i] == ' ',
        forall|i: int|
            0 <= i < collapse_from(t, b).len() - 1 ==> !(#[trigger] collapse_from(t, b)[i] == ' ' && collapse_from(t, b)[i + 1] == ' '),
        b && collapse_from(t, b).len() > 0 ==> collapse_from(t, b)[0] != ' ',
        t.len() > 0 && !is_ws(t.last()) ==> collapse_from(t, b).len() > 0 && collapse_from(t, b).last() == t.last(),
        t.len() > 0 && is_ws(t.last()) && collapse_from(t, b).len() > 0 ==> collapse_from(t, b).last() == ' ',
        !b && t.len() > 0 ==> collapse_from(t, b).len() > 0,
    decreases t.len(),
{
    if t.len() > 0 {
        let rest = t.drop_first();
        assert(is_ws(' ')) by {
            assert((' ' as u32) == 0x20);
        }
        if rest.len() > 0 {
            assert(rest.last() == t.last());
        }
        if is_ws(t[0]) {
            lemma_collapse_shape(rest, true);
            let c = collapse_from(rest, true);
            if !b {
                let r = seq![' '] + c;
                assert(r.drop_first() =~= c);
                if c.len() > 0 {
                    assert(r.last() == c.last());
                }
            }
        } else {
            lemma_collapse_shape(rest, false);
            let c = collapse_from(rest, false);
            let r = seq![t[0]] + c;
            assert(r.drop_first() =~= c);
            if c.len() > 0 {
                assert(r.last() == c.last());
            } else {
                assert(rest.len() == 0);
                assert(r.last() == t[0]);
            }
        }
    }
}

/// Collapsing white space twice changes nothing more than once.
pub proof fn law_collapse_whitespace_idempotent(text: Seq<char>)
    ensures
        collapse_from(collapse_from(text, false), false) == collapse_from(text, false),
{
    lemma_collapse_idempotent(text, false);
}

/// The collapsed text holds no white space but single spaces, and starts
/// (ends) with a space exactly when the text starts (ends) with white
/// space.
pub proof fn law_collapse_whitespace_shape(text: Seq<char>)
    ensures
        forall|i: int| 0 <= i < collapse_from(text, false).len() && is_ws(#[trigger] collapse_from(text, false)[i])
            ==> collapse_from(text, false)[i] == ' ',
        forall|i: int|
            0 <= i < collapse_from(text, false).len() - 1 ==> !(#[trigger] collapse_from(text, false)[i] == ' '
                && collapse_from(text, false)[i + 1] == ' '),
        (collapse_from(text, false).len() > 0 && collapse_from(text, false)[0] == ' ') <==> (text.len() > 0 && is_ws(
            text[0],
        )),
        (collapse_from(text, false).len() > 0 && collapse_from(text, false).last() == ' ') <==> (text.len() > 0
            && is_ws(text.last())),
{
    lemma_collapse_shape(text, false);
    assert(is_ws(' ')) by {
        assert((' ' as u32) == 0x20);
    }
    if text.len() > 0 {
        lemma_collapse_shape(text.drop_first(), is_ws(text[0]));
    }
}

/// `text` with each run of white space made one space.
pub fn collapse_whitespace(text: &str) -> (r: String)
    ensures
        r@ == collapse_from(text@, false),
{
    let v = to_chars(text);
    let mut result = String::new();
    let mut in_space = false;
    let mut i: usize = 0;
    assert(v@.skip(0) =~= v@);
    while i < v.len()
        invariant
            i <= v.len(),
            v@ == text@,
            result@ + collapse_from(v@.skip(i as int), in_space) == collapse_from(text@, false),
        decreases v.len() - i,
    {
        let c = v[i];
        assert(v@.skip(i as int).drop_first() =~= v@.skip(i + 1));
        assert(v@.skip(i as int)[0] == c);
        let ghost r0 = result@;
        if is_whitespace(c) {
            if !in_space {
                push_char(&mut result, ' ');
                in_space = true;
                assert(r0 + (seq![' '] + collapse_from(v@.skip(i + 1), true)) =~= result@ + collapse_from(
                    v@.skip(i + 1),
                    true,
                ));
            }
        } else {
            push_char(&mut result, c);
            in_space = false;
            assert(r0 + (seq![c] + collapse_from(v@.skip(i + 1), false)) =~= result@ + collapse_from(
                v@.skip(i + 1),
                false,
            ));
        }
        i = i + 1;
    }
    assert(v@.skip(i as int) =~= Seq::<char>::empty());
    assert(result@ + Seq::<char>::empty() =~= result@);
    result
}

/// How many characters start `s` before the first white space.
pub open spec fn word_len(s: Seq<char>) -> nat
    decreases s.len(),
{
    if s.len() == 0 || is_ws(s[0]) {
        0
    } else {
        1 + word_len(s.drop_first())
    }
}

/// The words of `s`: its maximal runs of non-white-space characters, as
/// `str::split_whitespace` gives them.
pub open spec fn spec_words(s: Seq<char>) -> Seq<Seq<char>>
    decreases s.len(),
{
    if s.len() == 0 {
        Seq::empty()
    } else if is_ws(s[0]) {
        spec_words(s.drop_first())
    } else {
        let k = word_len(s);
        proof {
            lemma_word_len(s);
        }
        seq![s.take(k as int)] + spec_words(s.skip(k as int))
    }
}

/// Facts about `word_len`.
pub proof fn lemma_word_len(s: Seq<char>)
    ensures
        word_len(s) <= s.len(),
        s.len() > 0 && !is_ws(s[0]) ==> word_len(s) >= 1,
        forall|k: int| 0 <= k < word_len(s) ==> !is_ws(s[k]),
        word_len(s) < s.len() ==> is_ws(s[word_len(s) as int]),
    decreases s.len(),
{
    if s.len() > 0 && !is_ws(s[0]) {
        lemma_word_len(s.drop_first());
        assert forall|k: int| 0 <= k < word_len(s) implies !is_ws(s[k]) by {
            if k > 0 {
                assert(s[k] == s.drop_first()[k - 1]);
            }
        }
        if word_len(s) < s.len() {
            assert(s[word_len(s) as int] == s.drop_first()[word_len(s) - 1]);
        }
    }
}

proof fn lemma_word_len_concat(w: Seq<char>, r: Seq<char>)
    requires
        forall|k: int| 0 <= k < w.len() ==> !is_ws(w[k]),
        r.len() == 0 || is_ws(r[0]),
    ensures
        word_len(w + r) == w.len(),
    decreases w.len(),
{
    if w.len() > 0 {
        lemma_word_len_concat(w.drop_first(), r);
        assert((w + r).drop_first() =~= w.drop_first() + r);
    } else {
        assert(w + r =~= r);
    }
}

proof fn lemma_words_of_word(w: Seq<char>, r: Seq<char>)
    requires
        w.len() > 0,
        forall|k: int| 0 <= k < w.len() ==> !is_ws(w[k]),
        r.len() == 0 || is_ws(r[0]),
    ensures
        spec_words(w + r) == seq![w] + spec_words(r),
{
    lemma_word_len_concat(w, r);
    let s = w + r;
    assert(s[0] == w[0]);
    assert(s.take(w.len() as int) =~= w);
    assert(s.skip(w.len() as int) =~= r);
}

proof fn lemma_collapse_word(t: Seq<char>, b: bool)
    requires
        t.len() > 0,
        !is_ws(t[0]),
    ensures
        collapse_from(t, b) == t.take(word_len(t) as int) + collapse_from(t.skip(word_len(t) as int), false),
    decreases t.len(),
{
    let rest = t.drop_first();
    lemma_word_len(t);
    if rest.len() == 0 || is_ws(rest[0]) {
        assert(word_len(t) == 1);
        assert(t.take(1) =~= seq![t[0]]);
        assert(t.skip(1) =~= rest);
    } else {
        lemma_collapse_word(rest, false);
        lemma_word_len(rest);
        assert(word_len(t) == word_len(rest) + 1);
        assert(t.take(word_len(t) as int) =~= seq![t[0]] + rest.take(word_len(rest) as int));
        assert(t.skip(word_len(t) as int) =~= rest.skip(word_len(rest) as int));
    }
}

proof fn lemma_collapse_words(t: Seq<char>, b: bool)
    ensures
        spec_words(collapse_from(t, b)) == spec_words(t),
    decreases t.len(),
{
    if t.len() > 0 {
        let rest = t.drop_first();
        if is_ws(t[0]) {
            lemma_collapse_words(rest, true);
            if !b {
                let c = seq![' '] + collapse_from(rest, true);
                assert(is_ws(' ')) by {
                    assert((' ' as u32) == 0x20);
                }
                assert(c.drop_first() =~= collapse_from(rest, true));
            }
        } else {
            lemma_word_len(t);
            let k = word_len(t);
            let after = t.skip(k as int);
            lemma_collapse_word(t, b);
            lemma_collapse_words(after, false);
            let c = collapse_from(after, false);
            if after.len() > 0 {
                assert(after[0] == t[k as int]);
                assert(is_ws(' ')) by {
                    assert((' ' as u32) == 0x20);
                }
            }
            assert forall|j: int| 0 <= j < t.take(k as int).len() implies !is_ws(t.take(k as int)[j]) by {
                assert(t.take(k as int)[j] == t[j]);
            }
            lemma_words_of_word(t.take(k as int), c);
        }
    }
}

/// Collapsing white space keeps the words of the text.
pub proof fn law_collapse_whitespace_keeps_words(text: Seq<char>)
    ensures
        spec_words(collapse_from(text, false)) == spec_words(text),
{
    lemma_collapse_words(text, false);
}

/// The words of `s`.
pub fn split_words(s: &str) -> (r: Vec<String>)
    ensures
        views(r@) == spec_words(s@),
{
    let v = to_chars(s);
    let mut out: Vec<String> = Vec::new();
    let mut i: usize = 0;
    assert(v@.skip(0) =~= v@);
    assert(views(out@) + spec_words(v@.skip(0)) =~= spec_words(s@));
    while i < v.len()
        invariant
            i <= v.len(),
            v@ == s@,
            views(out@) + spec_words(v@.skip(i as int)) == spec_words(s@),
        decreases v.len() - i,
    {
        let ghost rest = v@.skip(i as int);
        if is_whitespace(v[i]) {
            assert(rest[0] == v@[i as int]);
            assert(rest.drop_first() =~= v@.skip(i + 1));
            i = i + 1;
        } else {
            assert(rest[0] == v@[i as int]);
            proof {
                lemma_word_len(rest);
            }
            let mut j = i;
            while j < v.len() && !is_whitespace(v[j])
                invariant
                    i <= j <= v.len(),
                    v@ == s@,
                    rest == v@.skip(i as int),
                    word_len(rest) <= rest.len(),
                    forall|k: int| 0 <= k < word_len(rest) ==> !is_ws(rest[k]),
                    word_len(rest) < rest.len() ==> is_ws(rest[word_len(rest) as int]),
                    j - i <= word_len(rest),
                decreases v.len() - j,
            {
                assert(rest[j - i] == v@[j as int]);
                j = j + 1;
            }
            proof {
                if j < v.len() {
                    assert(rest[j - i] == v@[j as int]);
                }
                assert(j - i == word_len(rest));
            }
            let w = crate::text::string_from_range(&v, i, j);
            let ghost o0 = out@;
            out.push(w);
            proof {
                assert(w@ =~= rest.take(word_len(rest) as int));
                assert(rest.skip(word_len(rest) as int) =~= v@.skip(j as int));
                assert(views(out@) =~= views(o0).push(w@));
                assert(views(out@) + spec_words(v@.skip(j as int)) =~= views(o0) + spec_words(rest));
            }
            i = j;
        }
    }
    assert(v@.skip(i as int) =~= Seq::<char>::empty());
    assert(views(out@) + Seq::<Seq<char>>::empty() =~= views(out@));
    out
}

/// How many white-space characters start `s`.
pub open spec fn ws_lead(s: Seq<char>) -> nat
    decreases s.len(),
{
    if s.len() > 0 && is_ws(s[0]) {
        1 + ws_lead(s.drop_first())
    } else {
        0
    }
}

/// How many white-space characters end `s`.
pub open spec fn ws_trail(s: Seq<char>) -> nat
    decreases s.len(),
{
    if s.len() > 0 && is_ws(s.last()) {
        1 + ws_trail(s.drop_last())
    } else {
        0
    }
}

/// `s` without leading and trailing white space, as `str::trim` gives it.
pub open spec fn spec_trim(s: Seq<char>) -> Seq<char> {
    let r = s.skip(ws_lead(s) as int);
    r.take(r.len() - ws_trail(r))
}

proof fn lemma_ws_lead(s: Seq<char>, i: int)
    requires
        0 <= i <= s.len(),
        forall|k: int| 0 <= k < i ==> is_ws(s[k]),
    ensures
        ws_lead(s) == i + ws_lead(s.skip(i)),
    decreases i,
{
    if i > 0 {
        lemma_ws_lead(s.drop_first(), i - 1);
        assert(s.drop_first().skip(i - 1) =~= s.skip(i));
    } else {
        assert(s.skip(0) =~= s);
    }
}

pub proof fn lemma_ws_trail(s: Seq<char>, j: int)
    requires
        0 <= j <= s.len(),
        forall|k: int| j <= k < s.len() ==> is_ws(s[k]),
    ensures
        ws_trail(s) == (s.len() - j) + ws_trail(s.take(j)),
    decreases s.len() - j,
{
    if j < s.len() {
        lemma_ws_trail(s.drop_last(), j);
        assert(s.drop_last().take(j) =~= s.take(j));
    } else {
        assert(s.take(j) =~= s);
    }
}

/// `s` without leading and trailing white space.
pub fn trim_ws(s: &str) -> (r: String)
    ensures
        r@ == spec_trim(s@),
{
    let v = to_chars(s);
    let mut a: usize = 0;
    while a < v.len() && is_whitespace(v[a])
        invariant
            a <= v.len(),
            v@ == s@,
            forall|k: int| 0 <= k < a ==> is_ws(v@[k]),
        decreases v.len() - a,
    {
        a = a + 1;
    }
    proof {
        lemma_ws_lead(v@, a as int);
        if a < v.len() {
            assert(v@.skip(a as int)[0] == v@[a as int]);
        }
    }
    let mut b = v.len();
    while b > a && is_whitespace(v[b - 1])
        invariant
            a <= b <= v.len(),
            v@ == s@,
            forall|k: int| b <= k < v.len() ==> is_ws(v@[k]),
        decreases b,
    {
        b = b - 1;
    }
    proof {
        let r = v@.skip(a as int);
        assert(ws_lead(v@) == a);
        lemma_ws_trail(r, b - a);
        assert forall|k: int| b - a <= k < r.len() implies is_ws(r[k]) by {
            assert(r[k] == v@[a + k]);
        }
        lemma_ws_trail(r, b - a);
        if b > a {
            assert(r.take(b - a).last() == v@[b - 1]);
        }
        assert(ws_trail(r.take(b - a)) == 0);
    }
    let r = crate::text::string_from_range(&v, a, b);
    assert(r@ =~= spec_trim(s@));
    r
}

// ---------- inline atoms ----------

/// Whether `a` starts with punctuation that attaches to the word before.
pub open spec fn starts_punct(a: Seq<char>) -> bool {
    a.len() > 0 && (a[0] == '.' || a[0] == ',' || a[0] == ':' || a[0] == ';' || a[0] == '!' || a[0] == '?')
}

fn starts_with_punct(a: &str) -> (b: bool)
    ensures
        b == starts_punct(a@),
{
    let v = to_chars(a);
    if v.len() == 0 {
        false
    } else {
        let c = v[0];
        c == '.' || c == ',' || c == ':' || c == ';' || c == '!' || c == '?'
    }
}

/// The views of a sequence of atoms; `None` marks a line break.
pub open spec fn atoms_view(v: Seq<Option<String>>) -> Seq<Option<Seq<char>>> {
    v.map_values(|a: Option<String>| match a {
        Some(s) => Some(s@),
        None => None,
    })
}

/// The atoms on one line: separated by a space, except before
/// punctuation and at the start; line breaks are ignored.
pub open spec fn spec_join_flat(atoms: Seq<Option<Seq<char>>>) -> Seq<char>
    decreases atoms.len(),
{
    if atoms.len() == 0 {
        Seq::empty()
    } else {
        let prev = spec_join_flat(atoms.drop_last());
        match atoms.last() {
            None => prev,
            Some(a) => if prev.len() == 0 || starts_punct(a) {
                prev + a
            } else {
                prev + " "@ + a
            },
        }
    }
}

/// Joins `atoms` on one line.
pub fn join_atoms_flat(atoms: &Vec<Option<String>>) -> (r: String)
    ensures
        r@ == spec_join_flat(atoms_view(atoms@)),
{
    let ghost av = atoms_view(atoms@);
    let mut out = String::new();
    let mut i: usize = 0;
    assert(av.take(0) =~= Seq::<Option<Seq<char>>>::empty());
    while i < atoms.len()
        invariant
            i <= atoms.len(),
            av == atoms_view(atoms@),
            out@ == spec_join_flat(av.take(i as int)),
        decreases atoms.len() - i,
    {
        assert(av.take(i + 1).drop_last() =~= av.take(i as int));
        assert(av.take(i + 1).last() == av[i as int]);
        match &atoms[i] {
            Some(atom) => {
                if out.as_str().is_empty() || starts_with_punct(atom.as_str()) {
                    out.append(atom.as_str());
                } else {
                    out.append(" ");
                    out.append(atom.as_str());
                }
            },
            None => {},
        }
        i = i + 1;
    }
    assert(av.take(atoms.len() as int) =~= av);
    out
}

/// The lines finished so far and the line being filled, when `atoms` are
/// wrapped greedily at `max_len` bytes with each line prefixed by `ind`.
pub open spec fn wrap_state(atoms: Seq<Option<Seq<char>>>, max_len: nat, ind: Seq<char>) -> (
    Seq<Seq<char>>,
    Seq<char>,
)
    decreases atoms.len(),
{
    if atoms.len() == 0 {
        (Seq::empty(), Seq::empty())
    } else {
        let (lines, cur) = wrap_state(atoms.drop_last(), max_len, ind);
        match atoms.last() {
            None => if cur.len() > 0 {
                (lines.push(ind + cur), Seq::empty())
            } else {
                (lines, cur)
            },
            Some(a) => {
                let needs_space = cur.len() > 0 && !starts_punct(a);
                let extra: nat = if needs_space { 1 } else { 0 };
                if cur.len() == 0 {
                    (lines, cur + a)
                } else if utf8_count(cur) + extra + utf8_count(a) <= max_len {
                    (lines, if needs_space { cur + " "@ + a } else { cur + a })
                } else {
                    (lines.push(ind + cur), a)
                }
            },
        }
    }
}

/// `atoms` wrapped greedily at `max_len` bytes, each line indented to
/// `level`, the lines joined by newlines; a `None` atom ends the line.
pub open spec fn spec_wrap(atoms: Seq<Option<Seq<char>>>, max_len: nat, level: nat) -> Seq<char> {
    let ind = indentation(level);
    let (lines, cur) = wrap_state(atoms, max_len, ind);
    spec_join(if cur.len() > 0 { lines.push(ind + cur) } else { lines }, "\n"@)
}

/// Joins `atoms` with greedy wrapping at `max_len` bytes; each line is
/// indented to `content_indent`.
pub fn join_atoms_with_wrap(atoms: &Vec<Option<String>>, max_len: usize, content_indent: usize) -> (r: String)
    ensures
        r@ == spec_wrap(atoms_view(atoms@), max_len as nat, content_indent as nat),
{
    let ghost av = atoms_view(atoms@);
    let ind = indent_str(content_indent as u128);
    let mut lines: Vec<String> = Vec::new();
    let mut current = String::new();
    let mut i: usize = 0;
    assert(av.take(0) =~= Seq::<Option<Seq<char>>>::empty());
    assert(views(lines@) =~= Seq::<Seq<char>>::empty());
    while i < atoms.len()
        invariant
            i <= atoms.len(),
            av == atoms_view(atoms@),
            ind@ == indentation(content_indent as nat),
            views(lines@) == wrap_state(av.take(i as int), max_len as nat, ind@).0,
            current@ == wrap_state(av.take(i as int), max_len as nat, ind@).1,
        decreases atoms.len() - i,
    {
        assert(av.take(i + 1).drop_last() =~= av.take(i as int));
        assert(av.take(i + 1).last() == av[i as int]);
        let ghost l0 = lines@;
        match &atoms[i] {
            None => {
                if !current.as_str().is_empty() {
                    let mut line = ind.clone();
                    line.append(current.as_str());
                    lines.push(line);
                    current = String::new();
                    assert(views(lines@) =~= views(l0).push(ind@ + wrap_state(av.take(i as int), max_len as nat, ind@).1));
                }
            },
            Some(s) => {
                let needs_space = !current.as_str().is_empty() && !starts_with_punct(s.as_str());
                let extra: u128 = if needs_space { 1 } else { 0 };
                if current.as_str().is_empty() {
                    current.append(s.as_str());
                } else {
                    let cl = byte_len(current.as_str());
                    let sl = byte_len(s.as_str());
                    if cl + extra + sl <= max_len as u128 {
                        if needs_space {
                            current.append(" ");
                        }
                        current.append(s.as_str());
                    } else {
                        let mut line = ind.clone();
                        line.append(current.as_str());
                        lines.push(line);
                        assert(views(lines@) =~= views(l0).push(ind@ + wrap_state(av.take(i as int), max_len as nat, ind@).1));
                        current = s.clone();
                    }
                }
            },
        }
        i = i + 1;
    }
    assert(av.take(atoms.len() as int) =~= av);
    if !current.as_str().is_empty() {
        let mut line = ind.clone();
        line.append(current.as_str());
        let ghost l0 = lines@;
        lines.push(line);
        assert(views(lines@) =~= views(l0).push(ind@ + current@));
    }
    crate::text::join(&lines, "\n")
}

/// The attributes on the tag's line: a space, then the attributes
/// separated by spaces; nothing when there are none.
pub open spec fn spec_attrs_simple(attrs: Seq<Seq<char>>) -> Seq<char> {
    if attrs.len() == 0 {
        Seq::empty()
    } else {
        " "@ + spec_join(attrs, " "@)
    }
}

/// The attributes written after a tag name, on one line.
pub fn attrs_str_simple(attrs: &Vec<String>) -> (r: String)
    ensures
        r@ == spec_attrs_simple(views(attrs@)),
{
    if attrs.len() == 0 {
        String::new()
    } else {
        let mut r = String::new();
        r.append(" ");
        let j = crate::text::join(attrs, " ");
        r.append(j.as_str());
        r
    }
}

/// Each attribute on a line of its own at `level`.
pub open spec fn attr_lines(attrs: Seq<Seq<char>>, level: nat) -> Seq<char>
    decreases attrs.len(),
{
    if attrs.len() == 0 {
        Seq::empty()
    } else {
        attr_lines(attrs.drop_last(), level) + "\n"@ + indentation(level) + attrs.last()
    }
}

/// The attributes of a tag at `indent`: on the tag's line when the whole
/// opening tag fits in the line limit, else one per line one level deeper,
/// with the closing bracket on a line of its own.
pub open spec fn spec_format_attrs(attrs: Seq<Seq<char>>, tag: Seq<char>, indent: nat) -> Seq<char> {
    if attrs.len() == 0 {
        Seq::empty()
    } else {
        let inline = " "@ + spec_join(attrs, " "@);
        if 2 * indent + 1 + utf8_count(tag) + utf8_count(inline) + 1 <= MAX_LINE_LEN {
            inline
        } else {
            attr_lines(attrs, indent + 1) + "\n"@ + indentation(indent)
        }
    }
}

/// The attributes of a tag at `indent`, laid out.
pub fn format_attrs(attrs: &Vec<String>, tag_name: &str, indent: usize) -> (r: String)
    ensures
        r@ == spec_format_attrs(views(attrs@), tag_name@, indent as nat),
{
    if attrs.len() == 0 {
        return String::new();
    }
    let inline = attrs_str_simple(attrs);
    let width = 2 * (indent as u128) + 1 + byte_len(tag_name) + byte_len(inline.as_str()) + 1;
    if width <= MAX_LINE_LEN as u128 {
        return inline;
    }
    let ghost av = views(attrs@);
    let mut out = String::new();
    let mut k: usize = 0;
    assert(av.take(0) =~= Seq::<Seq<char>>::empty());
    while k < attrs.len()
        invariant
            k <= attrs.len(),
            av == views(attrs@),
            out@ == attr_lines(av.take(k as int), (indent + 1) as nat),
        decreases attrs.len() - k,
    {
        out.append("\n");
        let ind = indent_str(indent as u128 + 1);
        out.append(ind.as_str());
        out.append(attrs[k].as_str());
        assert(av.take(k + 1).drop_last() =~= av.take(k as int));
        k = k + 1;
    }
    assert(av.take(attrs.len() as int) =~= av);
    out.append("\n");
    let ind = indent_str(indent as u128);
    out.append(ind.as_str());
    out
}

/// What trimming keeps: nothing exactly when all is white space, and
/// otherwise a piece that starts and ends with non-white space.
pub proof fn lemma_trim_facts(s: Seq<char>)
    ensures
        (spec_trim(s).len() > 0) == crate::text::has_non_ws(s),
    decreases s.len(),
{
    let a = ws_lead(s);
    lemma_ws_lead_facts(s);
    let r = s.skip(a as int);
    lemma_ws_trail_facts(r);
    if crate::text::has_non_ws(s) {
        let i = choose|i: int| 0 <= i < s.len() && !is_ws(#[trigger] s[i]);
        assert(a <= i);
        assert(!is_ws(r[i - a]));
        if r.len() - ws_trail(r) <= i - a {
            assert(is_ws(r[i - a]));
        }
    } else {
        if spec_trim(s).len() > 0 {
            assert(!is_ws(r[0]) || a == s.len());
            assert(is_ws(s[a as int]));
        }
    }
}

proof fn lemma_ws_lead_facts(s: Seq<char>)
    ensures
        ws_lead(s) <= s.len(),
        forall|k: int| 0 <= k < ws_lead(s) ==> is_ws(s[k]),
        ws_lead(s) < s.len() ==> !is_ws(s[ws_lead(s) as int]),
    decreases s.len(),
{
    if s.len() > 0 && is_ws(s[0]) {
        lemma_ws_lead_facts(s.drop_first());
        assert forall|k: int| 0 <= k < ws_lead(s) implies is_ws(s[k]) by {
            if k > 0 {
                assert(s[k] == s.drop_first()[k - 1]);
            }
        }
        if ws_lead(s) < s.len() {
            assert(s[ws_lead(s) as int] == s.drop_first()[ws_lead(s) - 1]);
        }
    }
}

proof fn lemma_ws_trail_facts(s: Seq<char>)
    ensures
        ws_trail(s) <= s.len(),
        forall|k: int| s.len() - ws_trail(s) <= k < s.len() ==> is_ws(s[k]),
    decreases s.len(),
{
    if s.len() > 0 && is_ws(s.last()) {
        lemma_ws_trail_facts(s.drop_last());
        assert forall|k: int| s.len() - ws_trail(s) <= k < s.len() implies is_ws(s[k]) by {
            if k < s.len() - 1 {
                assert(s[k] == s.drop_last()[k]);
            }
        }
    }
}

/// A string starts with at most its length of copies of a character.
pub proof fn lemma_leading_count_bound(s: Seq<char>, c: char)
    ensures
        leading_count(s, c) <= s.len(),
    decreases s.len(),
{
    if s.len() > 0 && s[0] == c {
        lemma_leading_count_bound(s.drop_first(), c);
    }
}

} // verus!
