//! The expression language of `@computed` and `@default` fields: its
//! tokens and its syntax trees, read by recursive descent.
//!
//! Grammar:
//!   arrow   -> IDENT '=>' arrow | add
//!   add     -> mul (('+' | '-') mul)*
//!   mul     -> unary (('*' | '/') unary)*
//!   unary   -> ('-' | '!') unary | member
//!   member  -> primary ('.' IDENT | '(' (arrow (',' arrow)*)? ')')*
//!   primary -> NUMBER | STRING | BOOL | IDENT | '(' arrow ')'?
//! Numbers are kept as the text that spells them.
use vstd::prelude::*;

use crate::text::{owned, str_eq, string_from_range, to_chars};

verus! {

// ---------- characters ----------

/// ASCII whitespace: space, tab, line feed, form feed, carriage return.
pub open spec fn ascii_space(c: char) -> bool {
    c == ' ' || c == '\t' || c == '\n' || c == '\x0C' || c == '\r'
}

/// An ASCII letter.
pub open spec fn ascii_letter(c: char) -> bool {
    ('a' <= c && c <= 'z') || ('A' <= c && c <= 'Z')
}

/// An ASCII digit.
pub open spec fn ascii_digit(c: char) -> bool {
    '0' <= c && c <= '9'
}

/// A character that continues an identifier.
pub open spec fn ident_char(c: char) -> bool {
    ascii_letter(c) || ascii_digit(c) || c == '_'
}

/// A character that continues a number.
pub open spec fn number_char(c: char) -> bool {
    ascii_digit(c) || c == '.'
}

// ---------- tokens ----------

/// A token of an expression.
pub enum Token {
    Ident(String),
    Number(String),
    Str(String),
    Bool(bool),
    Op(String),
    Dot,
    LParen,
    RParen,
}

/// The view of a token.
pub enum TokenView {
    Ident(Seq<char>),
    Number(Seq<char>),
    Str(Seq<char>),
    Bool(bool),
    Op(Seq<char>),
    Dot,
    LParen,
    RParen,
}

impl View for Token {
    type V = TokenView;

    open spec fn view(&self) -> TokenView {
        match self {
            Token::Ident(s) => TokenView::Ident(s@),
            Token::Number(s) => TokenView::Number(s@),
            Token::Str(s) => TokenView::Str(s@),
            Token::Bool(b) => TokenView::Bool(*b),
            Token::Op(s) => TokenView::Op(s@),
            Token::Dot => TokenView::Dot,
            Token::LParen => TokenView::LParen,
            Token::RParen => TokenView::RParen,
        }
    }
}

/// The views of a sequence of tokens.
pub open spec fn tokens_view(v: Seq<Token>) -> Seq<TokenView> {
    v.map_values(|t: Token| t@)
}

/// The first index at or after `i` that holds no whitespace.
pub open spec fn skip_space(s: Seq<char>, i: int) -> int
    decreases s.len() - i,
{
    if 0 <= i < s.len() && ascii_space(s[i]) {
        skip_space(s, i + 1)
    } else {
        i
    }
}

/// The end of the identifier characters from `i`.
pub open spec fn ident_end(s: Seq<char>, i: int) -> int
    decreases s.len() - i,
{
    if 0 <= i < s.len() && ident_char(s[i]) {
        ident_end(s, i + 1)
    } else {
        i
    }
}

/// The end of the number characters from `i`.
pub open spec fn number_end(s: Seq<char>, i: int) -> int
    decreases s.len() - i,
{
    if 0 <= i < s.len() && number_char(s[i]) {
        number_end(s, i + 1)
    } else {
        i
    }
}

/// The first index at or after `i` that holds `q`, or the end.
pub open spec fn quote_end(s: Seq<char>, i: int, q: char) -> int
    decreases s.len() - i,
{
    if 0 <= i < s.len() && s[i] != q {
        quote_end(s, i + 1, q)
    } else {
        i
    }
}

/// A word read as an identifier: `true` and `false` are booleans.
pub open spec fn word_token(w: Seq<char>) -> TokenView {
    if w == "true"@ {
        TokenView::Bool(true)
    } else if w == "false"@ {
        TokenView::Bool(false)
    } else {
        TokenView::Ident(w)
    }
}

/// The token that starts at or after `i` (after whitespace) and the index
/// after it; none at the end. A quote opens a string that runs to the same
/// quote (or the end); a letter or `_` an identifier; a digit, or a `.`
/// before a digit, a number; `=>` is an operator; a parenthesis is itself;
/// any other character is a one-character operator.
pub open spec fn next_token(s: Seq<char>, i: int) -> Option<(TokenView, int)> {
    let p = skip_space(s, i);
    if p < 0 || p >= s.len() {
        None
    } else {
        let c = s[p];
        if c == '\'' || c == '"' || c == '`' {
            let e = quote_end(s, p + 1, c);
            Some((TokenView::Str(s.subrange(p + 1, e)), if e < s.len() { e + 1 } else { e }))
        } else if ascii_letter(c) || c == '_' {
            let e = ident_end(s, p);
            Some((word_token(s.subrange(p, e)), e))
        } else if c == '.' && !(p + 1 < s.len() && ascii_digit(s[p + 1])) {
            Some((TokenView::Dot, p + 1))
        } else if c == '.' || ascii_digit(c) {
            let e = number_end(s, p);
            Some((TokenView::Number(s.subrange(p, e)), e))
        } else if c == '=' && p + 1 < s.len() && s[p + 1] == '>' {
            Some((TokenView::Op("=>"@), p + 2))
        } else if c == '(' {
            Some((TokenView::LParen, p + 1))
        } else if c == ')' {
            Some((TokenView::RParen, p + 1))
        } else {
            Some((TokenView::Op(seq![c]), p + 1))
        }
    }
}

/// The tokens of `s` from index `i` on.
pub open spec fn tokens_from(s: Seq<char>, i: int) -> Seq<TokenView>
    decreases s.len() - i,
{
    match next_token(s, i) {
        Some((t, j)) => if i < j <= s.len() {
            seq![t] + tokens_from(s, j)
        } else {
            Seq::empty()
        },
        None => Seq::empty(),
    }
}

proof fn lemma_ident_end(s: Seq<char>, i: int, j: int)
    requires
        0 <= i <= j <= s.len(),
        forall|k: int| i <= k < j ==> ident_char(#[trigger] s[k]),
        j == s.len() || !ident_char(s[j]),
    ensures
        ident_end(s, i) == j,
    decreases j - i,
{
    if i < j {
        lemma_ident_end(s, i + 1, j);
    }
}

/// The words `true` and `false` are the boolean literals: where one stands
/// at `i`, not followed by a letter, digit or `_`, the token read there is
/// that boolean, never an identifier.
pub proof fn law_boolean_words(s: Seq<char>, i: int, b: bool)
    requires
        0 <= i,
        i + (if b { 4int } else { 5int }) <= s.len(),
        s.subrange(i, i + (if b { 4int } else { 5int })) == (if b { "true"@ } else { "false"@ }),
        i + (if b { 4int } else { 5int }) == s.len() || !({
            let c = s[i + (if b { 4int } else { 5int })];
            ('a' <= c && c <= 'z') || ('A' <= c && c <= 'Z') || ('0' <= c && c <= '9') || c == '_'
        }),
    ensures
        next_token(s, i) == Some((TokenView::Bool(b), i + (if b { 4int } else { 5int }))),
{
    reveal_strlit("true");
    reveal_strlit("false");
    let n: int = if b { 4 } else { 5 };
    let w = s.subrange(i, i + n);
    assert(s[i] == w[0]);
    assert(!ascii_space(s[i]));
    assert(skip_space(s, i) == i);
    assert forall|k: int| i <= k < i + n implies ident_char(#[trigger] s[k]) by {
        assert(s[k] == w[k - i]);
    }
    lemma_ident_end(s, i, i + n);
    assert(ascii_letter(s[i]));
}

/// The tokens of `s`.
pub open spec fn spec_tokenize(s: Seq<char>) -> Seq<TokenView> {
    tokens_from(s, 0)
}

fn is_space(c: char) -> (b: bool)
    ensures
        b == ascii_space(c),
{
    c == ' ' || c == '\t' || c == '\n' || c == '\x0C' || c == '\r'
}

fn is_letter(c: char) -> (b: bool)
    ensures
        b == ascii_letter(c),
{
    ('a' <= c && c <= 'z') || ('A' <= c && c <= 'Z')
}

fn is_digit(c: char) -> (b: bool)
    ensures
        b == ascii_digit(c),
{
    '0' <= c && c <= '9'
}

/// Reads the token at or after `i`; `None` at the end.
fn read_token(s: &Vec<char>, i: usize) -> (r: Option<(Token, usize)>)
    requires
        i <= s.len(),
    ensures
        match r {
            Some((t, j)) => next_token(s@, i as int) == Some((t@, j as int)) && i < j <= s.len(),
            None => next_token(s@, i as int) is None,
        },
{
    let mut p = i;
    while p < s.len() && is_space(s[p])
        invariant
            i <= p <= s.len(),
            skip_space(s@, i as int) == skip_space(s@, p as int),
        decreases s.len() - p,
    {
        p = p + 1;
    }
    if p >= s.len() {
        return None;
    }
    let c = s[p];
    if c == '\'' || c == '"' || c == '`' {
        let mut e = p + 1;
        while e < s.len() && s[e] != c
            invariant
                p + 1 <= e <= s.len(),
                quote_end(s@, p + 1, c) == quote_end(s@, e as int, c),
            decreases s.len() - e,
        {
            e = e + 1;
        }
        let body = string_from_range(s, p + 1, e);
        let next = if e < s.len() {
            e + 1
        } else {
            e
        };
        return Some((Token::Str(body), next));
    }
    if is_letter(c) || c == '_' {
        let mut e = p;
        while e < s.len() && (is_letter(s[e]) || is_digit(s[e]) || s[e] == '_')
            invariant
                p <= e <= s.len(),
                ident_end(s@, p as int) == ident_end(s@, e as int),
            decreases s.len() - e,
        {
            e = e + 1;
        }
        assert(e > p);
        let w = string_from_range(s, p, e);
        let t = if str_eq(w.as_str(), "true") {
            Token::Bool(true)
        } else if str_eq(w.as_str(), "false") {
            Token::Bool(false)
        } else {
            Token::Ident(w)
        };
        return Some((t, e));
    }
    if c == '.' && !(p + 1 < s.len() && is_digit(s[p + 1])) {
        return Some((Token::Dot, p + 1));
    }
    if c == '.' || is_digit(c) {
        let mut e = p;
        while e < s.len() && (is_digit(s[e]) || s[e] == '.')
            invariant
                p <= e <= s.len(),
                number_end(s@, p as int) == number_end(s@, e as int),
            decreases s.len() - e,
        {
            e = e + 1;
        }
        assert(e > p);
        return Some((Token::Number(string_from_range(s, p, e)), e));
    }
    if c == '=' && p + 1 < s.len() && s[p + 1] == '>' {
        return Some((Token::Op(owned("=>")), p + 2));
    }
    if c == '(' {
        return Some((Token::LParen, p + 1));
    }
    if c == ')' {
        return Some((Token::RParen, p + 1));
    }
    let mut op = String::new();
    crate::text::push_char(&mut op, c);
    assert(op@ =~= seq![c]);
    Some((Token::Op(op), p + 1))
}

/// The tokens of `src`.
fn tokenize(src: &str) -> (r: Vec<Token>)
    ensures
        tokens_view(r@) == spec_tokenize(src@),
{
    let s = to_chars(src);
    let mut out: Vec<Token> = Vec::new();
    let mut i: usize = 0;
    assert(tokens_view(out@) + tokens_from(s@, 0) =~= tokens_from(s@, 0));
    loop
        invariant
            i <= s.len(),
            s@ == src@,
            tokens_view(out@) + tokens_from(s@, i as int) == tokens_from(s@, 0),
        decreases s.len() - i,
    {
        match read_token(&s, i) {
            Some((t, j)) => {
                let ghost before = tokens_view(out@);
                let ghost tv = t@;
                out.push(t);
                assert(tokens_view(out@) =~= before.push(tv));
                assert(tokens_view(out@) + tokens_from(s@, j as int) =~= before + (seq![tv] + tokens_from(
                    s@,
                    j as int,
                )));
                i = j;
            },
            None => {
                assert(tokens_view(out@) + tokens_from(s@, i as int) =~= tokens_view(out@));
                return out;
            },
        }
    }
}

// ---------- syntax trees ----------

/// A literal of an expression; a number keeps the text that spells it.
#[derive(Debug, PartialEq, Eq)]
pub enum Literal {
    Number(String),
    Str(String),
    Bool(bool),
}

/// The view of a literal.
pub enum LiteralView {
    Number(Seq<char>),
    Str(Seq<char>),
    Bool(bool),
}

/// An expression.
#[derive(Debug, PartialEq, Eq)]
pub enum Expr {
    Literal(Literal),
    Binary { op: String, left: Box<Expr>, right: Box<Expr> },
    Unary { op: String, operand: Box<Expr> },
    /// An identifier, `this` among them.
    Ident(String),
    /// `target.member`.
    DotAccess { target: Box<Expr>, member: String },
    /// A parenthesized expression.
    Group(Box<Expr>),
    /// `target(args)`.
    Call { target: Box<Expr>, args: Vec<Expr> },
    /// `param => body`.
    Arrow { param: String, body: Box<Expr> },
}

/// The view of an expression.
pub enum ExprView {
    Literal(LiteralView),
    Binary { op: Seq<char>, left: Box<ExprView>, right: Box<ExprView> },
    Unary { op: Seq<char>, operand: Box<ExprView> },
    Ident(Seq<char>),
    DotAccess { target: Box<ExprView>, member: Seq<char> },
    Group(Box<ExprView>),
    Call { target: Box<ExprView>, args: Seq<ExprView> },
    Arrow { param: Seq<char>, body: Box<ExprView> },
}

/// The view of a literal.
pub open spec fn literal_view(l: Literal) -> LiteralView {
    match l {
        Literal::Number(s) => LiteralView::Number(s@),
        Literal::Str(s) => LiteralView::Str(s@),
        Literal::Bool(b) => LiteralView::Bool(b),
    }
}

/// The view of an expression.
pub open spec fn expr_view(e: Expr) -> ExprView
    decreases e,
{
    match e {
        Expr::Literal(l) => ExprView::Literal(literal_view(l)),
        Expr::Binary { op, left, right } => ExprView::Binary {
            op: op@,
            left: Box::new(expr_view(*left)),
            right: Box::new(expr_view(*right)),
        },
        Expr::Unary { op, operand } => ExprView::Unary { op: op@, operand: Box::new(expr_view(*operand)) },
        Expr::Ident(s) => ExprView::Ident(s@),
        Expr::DotAccess { target, member } => ExprView::DotAccess {
            target: Box::new(expr_view(*target)),
            member: member@,
        },
        Expr::Group(inner) => ExprView::Group(Box::new(expr_view(*inner))),
        Expr::Call { target, args } => ExprView::Call {
            target: Box::new(expr_view(*target)),
            args: exprs_view(args@),
        },
        Expr::Arrow { param, body } => ExprView::Arrow { param: param@, body: Box::new(expr_view(*body)) },
    }
}

/// The views of a sequence of expressions.
pub open spec fn exprs_view(s: Seq<Expr>) -> Seq<ExprView>
    decreases s,
{
    if s.len() == 0 {
        Seq::empty()
    } else {
        seq![expr_view(s[0])] + exprs_view(s.drop_first())
    }
}

impl View for Expr {
    type V = ExprView;

    open spec fn view(&self) -> ExprView {
        expr_view(*self)
    }
}

/// Length and elements of the views of a sequence of expressions.
pub proof fn lemma_exprs_view(s: Seq<Expr>)
    ensures
        exprs_view(s).len() == s.len(),
        forall|i: int| 0 <= i < s.len() ==> #[trigger] exprs_view(s)[i] == expr_view(s[i]),
    decreases s.len(),
{
    if s.len() > 0 {
        lemma_exprs_view(s.drop_first());
        assert forall|i: int| 0 <= i < s.len() implies #[trigger] exprs_view(s)[i] == expr_view(s[i]) by {
            if i > 0 {
                assert(exprs_view(s)[i] == exprs_view(s.drop_first())[i - 1]);
            }
        }
    }
}

// ---------- recursive descent ----------

/// The token at index `p`; none past the end.
pub open spec fn tok(ts: Seq<TokenView>, p: int) -> Option<TokenView> {
    if 0 <= p < ts.len() {
        Some(ts[p])
    } else {
        None
    }
}

/// `arrow` at `p`: the expression and the index after it.
pub open spec fn spec_arrow(ts: Seq<TokenView>, p: int) -> Option<(ExprView, int)>
    decreases ts.len() - p, 7int,
{
    match tok(ts, p) {
        Some(TokenView::Ident(name)) => if tok(ts, p + 1) == Some(TokenView::Op("=>"@)) {
            match spec_arrow(ts, p + 2) {
                Some((b, q)) => Some((ExprView::Arrow { param: name, body: Box::new(b) }, q)),
                None => None,
            }
        } else {
            spec_add(ts, p)
        },
        _ => spec_add(ts, p),
    }
}

/// `add` at `p`.
pub open spec fn spec_add(ts: Seq<TokenView>, p: int) -> Option<(ExprView, int)>
    decreases ts.len() - p, 6int,
{
    match spec_mul(ts, p) {
        Some((l, q)) => if p < q <= ts.len() {
            add_rest(ts, q, l)
        } else {
            None
        },
        None => None,
    }
}

/// The `+` and `-` operations that follow `left` from `p` on, left to right.
pub open spec fn add_rest(ts: Seq<TokenView>, p: int, left: ExprView) -> Option<(ExprView, int)>
    decreases ts.len() - p, 6int,
{
    match tok(ts, p) {
        Some(TokenView::Op(o)) => if o == "+"@ || o == "-"@ {
            match spec_mul(ts, p + 1) {
                Some((r, q)) => if p + 1 < q <= ts.len() {
                    add_rest(ts, q, ExprView::Binary { op: o, left: Box::new(left), right: Box::new(r) })
                } else {
                    None
                },
                None => None,
            }
        } else {
            Some((left, p))
        },
        _ => Some((left, p)),
    }
}

/// `mul` at `p`.
pub open spec fn spec_mul(ts: Seq<TokenView>, p: int) -> Option<(ExprView, int)>
    decreases ts.len() - p, 5int,
{
    match spec_unary(ts, p) {
        Some((l, q)) => if p < q <= ts.len() {
            mul_rest(ts, q, l)
        } else {
            None
        },
        None => None,
    }
}

/// The `*` and `/` operations that follow `left` from `p` on, left to right.
pub open spec fn mul_rest(ts: Seq<TokenView>, p: int, left: ExprView) -> Option<(ExprView, int)>
    decreases ts.len() - p, 5int,
{
    match tok(ts, p) {
        Some(TokenView::Op(o)) => if o == "*"@ || o == "/"@ {
            match spec_unary(ts, p + 1) {
                Some((r, q)) => if p + 1 < q <= ts.len() {
                    mul_rest(ts, q, ExprView::Binary { op: o, left: Box::new(left), right: Box::new(r) })
                } else {
                    None
                },
                None => None,
            }
        } else {
            Some((left, p))
        },
        _ => Some((left, p)),
    }
}

/// `unary` at `p`.
pub open spec fn spec_unary(ts: Seq<TokenView>, p: int) -> Option<(ExprView, int)>
    decreases ts.len() - p, 4int,
{
    match tok(ts, p) {
        Some(TokenView::Op(o)) => if o == "-"@ || o == "!"@ {
            match spec_unary(ts, p + 1) {
                Some((e, q)) => Some((ExprView::Unary { op: o, operand: Box::new(e) }, q)),
                None => None,
            }
        } else {
            spec_member(ts, p)
        },
        _ => spec_member(ts, p),
    }
}

/// `member` at `p`.
pub open spec fn spec_member(ts: Seq<TokenView>, p: int) -> Option<(ExprView, int)>
    decreases ts.len() - p, 3int,
{
    match spec_primary(ts, p) {
        Some((t, q)) => if p < q <= ts.len() {
            member_rest(ts, q, t)
        } else {
            None
        },
        None => None,
    }
}

/// The member accesses and calls that follow `target` from `p` on.
pub open spec fn member_rest(ts: Seq<TokenView>, p: int, target: ExprView) -> Option<(ExprView, int)>
    decreases ts.len() - p, 3int,
{
    match tok(ts, p) {
        Some(TokenView::Dot) => match tok(ts, p + 1) {
            Some(TokenView::Ident(m)) => member_rest(
                ts,
                p + 2,
                ExprView::DotAccess { target: Box::new(target), member: m },
            ),
            _ => None,
        },
        Some(TokenView::LParen) => if tok(ts, p + 1) == Some(TokenView::RParen) {
            member_rest(ts, p + 2, ExprView::Call { target: Box::new(target), args: Seq::empty() })
        } else {
            match arg_list(ts, p + 1) {
                Some((args, q)) => if p + 1 < q <= ts.len() && tok(ts, q) == Some(TokenView::RParen) {
                    member_rest(ts, q + 1, ExprView::Call { target: Box::new(target), args })
                } else {
                    None
                },
                None => None,
            }
        },
        _ => Some((target, p)),
    }
}

/// The comma-separated arguments of a call from `p` on.
pub open spec fn arg_list(ts: Seq<TokenView>, p: int) -> Option<(Seq<ExprView>, int)>
    decreases ts.len() - p, 8int,
{
    match spec_arrow(ts, p) {
        Some((a, q)) => if p < q <= ts.len() {
            if tok(ts, q) == Some(TokenView::Op(","@)) {
                match arg_list(ts, q + 1) {
                    Some((rest, r)) => Some((seq![a] + rest, r)),
                    None => None,
                }
            } else {
                Some((seq![a], q))
            }
        } else {
            None
        },
        None => None,
    }
}

/// `primary` at `p`; a group's closing parenthesis may be missing.
pub open spec fn spec_primary(ts: Seq<TokenView>, p: int) -> Option<(ExprView, int)>
    decreases ts.len() - p, 2int,
{
    match tok(ts, p) {
        Some(TokenView::Number(n)) => Some((ExprView::Literal(LiteralView::Number(n)), p + 1)),
        Some(TokenView::Str(s)) => Some((ExprView::Literal(LiteralView::Str(s)), p + 1)),
        Some(TokenView::Bool(b)) => Some((ExprView::Literal(LiteralView::Bool(b)), p + 1)),
        Some(TokenView::Ident(i)) => Some((ExprView::Ident(i), p + 1)),
        Some(TokenView::LParen) => match spec_arrow(ts, p + 1) {
            Some((inner, q)) => if p + 1 < q <= ts.len() {
                Some(
                    (
                        ExprView::Group(Box::new(inner)),
                        if tok(ts, q) == Some(TokenView::RParen) {
                            q + 1
                        } else {
                            q
                        },
                    ),
                )
            } else {
                None
            },
            None => None,
        },
        _ => None,
    }
}

/// The expression `src` reads as: the longest `arrow` at its first token;
/// tokens after it are not looked at.
pub open spec fn spec_parse_expression(src: Seq<char>) -> Option<ExprView> {
    match spec_arrow(spec_tokenize(src), 0) {
        Some((e, _)) => Some(e),
        None => None,
    }
}

/// `r` is the result `s` of a parse that started at `p`, over `n` tokens;
/// a successful one ends after `p` (or at it, when `strict` is off).
pub open spec fn parsed(r: Option<(Expr, usize)>, s: Option<(ExprView, int)>, p: int, n: int, strict: bool) -> bool {
    match r {
        Some((e, q)) => s == Some((e@, q as int)) && (if strict {
            p < q
        } else {
            p <= q
        }) && q <= n,
        None => s is None,
    }
}

fn op_is(t: &Token, a: &str) -> (b: bool)
    ensures
        b == (t@ == TokenView::Op(a@)),
{
    match t {
        Token::Op(o) => str_eq(o.as_str(), a),
        _ => false,
    }
}

fn p_arrow(ts: &Vec<Token>, p: usize) -> (r: Option<(Expr, usize)>)
    requires
        p <= ts.len(),
    ensures
        parsed(r, spec_arrow(tokens_view(ts@), p as int), p as int, ts.len() as int, true),
    decreases ts.len() - p, 7int,
{
    let ghost tv = tokens_view(ts@);
    if (p < ts.len() && p + 1 < ts.len()) {
        assert(tv[p as int] == ts@[p as int]@);
        assert(tv[p + 1] == ts@[p + 1]@);
        let name = match &ts[p] {
            Token::Ident(n) => Some(n.clone()),
            _ => None,
        };
        match name {
            Some(n) => {
                if op_is(&ts[p + 1], "=>") {
                    match p_arrow(ts, p + 2) {
                        Some((b, q)) => {
                            return Some((Expr::Arrow { param: n, body: Box::new(b) }, q));
                        },
                        None => {
                            return None;
                        },
                    }
                }
            },
            None => {},
        }
    } else if p < ts.len() {
        assert(tv[p as int] == ts@[p as int]@);
    }
    p_add(ts, p)
}

fn p_add(ts: &Vec<Token>, p: usize) -> (r: Option<(Expr, usize)>)
    requires
        p <= ts.len(),
    ensures
        parsed(r, spec_add(tokens_view(ts@), p as int), p as int, ts.len() as int, true),
    decreases ts.len() - p, 6int,
{
    match p_mul(ts, p) {
        Some((l, q)) => add_more(ts, q, l),
        None => None,
    }
}

fn add_more(ts: &Vec<Token>, p: usize, left: Expr) -> (r: Option<(Expr, usize)>)
    requires
        p <= ts.len(),
    ensures
        parsed(r, add_rest(tokens_view(ts@), p as int, left@), p as int, ts.len() as int, false),
    decreases ts.len() - p, 6int,
{
    let ghost tv = tokens_view(ts@);
    if p < ts.len() {
        assert(tv[p as int] == ts@[p as int]@);
        let op = match &ts[p] {
            Token::Op(o) => if str_eq(o.as_str(), "+") || str_eq(o.as_str(), "-") {
                Some(o.clone())
            } else {
                None
            },
            _ => None,
        };
        match op {
            Some(o) => {
                match p_mul(ts, p + 1) {
                    Some((right, q)) => {
                        let e = Expr::Binary { op: o, left: Box::new(left), right: Box::new(right) };
                        return add_more(ts, q, e);
                    },
                    None => {
                        return None;
                    },
                }
            },
            None => {},
        }
    }
    Some((left, p))
}

fn p_mul(ts: &Vec<Token>, p: usize) -> (r: Option<(Expr, usize)>)
    requires
        p <= ts.len(),
    ensures
        parsed(r, spec_mul(tokens_view(ts@), p as int), p as int, ts.len() as int, true),
    decreases ts.len() - p, 5int,
{
    match p_unary(ts, p) {
        Some((l, q)) => mul_more(ts, q, l),
        None => None,
    }
}

fn mul_more(ts: &Vec<Token>, p: usize, left: Expr) -> (r: Option<(Expr, usize)>)
    requires
        p <= ts.len(),
    ensures
        parsed(r, mul_rest(tokens_view(ts@), p as int, left@), p as int, ts.len() as int, false),
    decreases ts.len() - p, 5int,
{
    let ghost tv = tokens_view(ts@);
    if p < ts.len() {
        assert(tv[p as int] == ts@[p as int]@);
        let op = match &ts[p] {
            Token::Op(o) => if str_eq(o.as_str(), "*") || str_eq(o.as_str(), "/") {
                Some(o.clone())
            } else {
                None
            },
            _ => None,
        };
        match op {
            Some(o) => {
                match p_unary(ts, p + 1) {
                    Some((right, q)) => {
                        let e = Expr::Binary { op: o, left: Box::new(left), right: Box::new(right) };
                        return mul_more(ts, q, e);
                    },
                    None => {
                        return None;
                    },
                }
            },
            None => {},
        }
    }
    Some((left, p))
}

fn p_unary(ts: &Vec<Token>, p: usize) -> (r: Option<(Expr, usize)>)
    requires
        p <= ts.len(),
    ensures
        parsed(r, spec_unary(tokens_view(ts@), p as int), p as int, ts.len() as int, true),
    decreases ts.len() - p, 4int,
{
    let ghost tv = tokens_view(ts@);
    if p < ts.len() {
        assert(tv[p as int] == ts@[p as int]@);
        let op = match &ts[p] {
            Token::Op(o) => if str_eq(o.as_str(), "-") || str_eq(o.as_str(), "!") {
                Some(o.clone())
            } else {
                None
            },
            _ => None,
        };
        match op {
            Some(o) => {
                match p_unary(ts, p + 1) {
                    Some((e, q)) => {
                        return Some((Expr::Unary { op: o, operand: Box::new(e) }, q));
                    },
                    None => {
                        return None;
                    },
                }
            },
            None => {},
        }
    }
    p_member(ts, p)
}

fn p_member(ts: &Vec<Token>, p: usize) -> (r: Option<(Expr, usize)>)
    requires
        p <= ts.len(),
    ensures
        parsed(r, spec_member(tokens_view(ts@), p as int), p as int, ts.len() as int, true),
    decreases ts.len() - p, 3int,
{
    match p_primary(ts, p) {
        Some((t, q)) => member_more(ts, q, t),
        None => None,
    }
}

fn member_more(ts: &Vec<Token>, p: usize, target: Expr) -> (r: Option<(Expr, usize)>)
    requires
        p <= ts.len(),
    ensures
        parsed(r, member_rest(tokens_view(ts@), p as int, target@), p as int, ts.len() as int, false),
    decreases ts.len() - p, 3int,
{
    let ghost tv = tokens_view(ts@);
    if p >= ts.len() {
        return Some((target, p));
    }
    assert(tv[p as int] == ts@[p as int]@);
    if (p < ts.len() && p + 1 < ts.len()) {
        assert(tv[p + 1] == ts@[p + 1]@);
    }
    match &ts[p] {
        Token::Dot => {
            if (p < ts.len() && p + 1 < ts.len()) {
                match &ts[p + 1] {
                    Token::Ident(m) => {
                        let e = Expr::DotAccess { target: Box::new(target), member: m.clone() };
                        member_more(ts, p + 2, e)
                    },
                    _ => None,
                }
            } else {
                None
            }
        },
        Token::LParen => {
            let empty = (p < ts.len() && p + 1 < ts.len()) && match &ts[p + 1] {
                Token::RParen => true,
                _ => false,
            };
            if empty {
                let e = Expr::Call { target: Box::new(target), args: Vec::new() };
                assert(exprs_view(Seq::<Expr>::empty()) =~= Seq::<ExprView>::empty());
                member_more(ts, p + 2, e)
            } else {
                match args_from(ts, p + 1) {
                    Some((args, q)) => {
                        if q < ts.len() {
                            assert(tv[q as int] == ts@[q as int]@);
                            let closed = match &ts[q] {
                                Token::RParen => true,
                                _ => false,
                            };
                            if closed {
                                let e = Expr::Call { target: Box::new(target), args };
                                member_more(ts, q + 1, e)
                            } else {
                                None
                            }
                        } else {
                            None
                        }
                    },
                    None => None,
                }
            }
        },
        _ => Some((target, p)),
    }
}

fn args_from(ts: &Vec<Token>, p: usize) -> (r: Option<(Vec<Expr>, usize)>)
    requires
        p <= ts.len(),
    ensures
        match r {
            Some((args, q)) => arg_list(tokens_view(ts@), p as int) == Some((exprs_view(args@), q as int)) && p < q
                <= ts.len(),
            None => arg_list(tokens_view(ts@), p as int) is None,
        },
    decreases ts.len() - p, 8int,
{
    let ghost tv = tokens_view(ts@);
    match p_arrow(ts, p) {
        Some((a, q)) => {
            let comma = q < ts.len() && op_is(&ts[q], ",");
            if q < ts.len() {
                assert(tv[q as int] == ts@[q as int]@);
            }
            if comma {
                match args_from(ts, q + 1) {
                    Some((mut rest, r)) => {
                        let ghost av = a@;
                        let ghost rv = exprs_view(rest@);
                        let ghost rest0 = rest@;
                        let mut v: Vec<Expr> = Vec::new();
                        v.push(a);
                        v.append(&mut rest);
                        proof {
                            lemma_exprs_view(v@);
                            lemma_exprs_view(rest0);
                            assert(exprs_view(v@) =~= seq![av] + rv);
                        }
                        Some((v, r))
                    },
                    None => None,
                }
            } else {
                let ghost av = a@;
                let mut v: Vec<Expr> = Vec::new();
                v.push(a);
                proof {
                    lemma_exprs_view(v@);
                    assert(exprs_view(v@) =~= seq![av]);
                }
                Some((v, q))
            }
        },
        None => None,
    }
}

fn p_primary(ts: &Vec<Token>, p: usize) -> (r: Option<(Expr, usize)>)
    requires
        p <= ts.len(),
    ensures
        parsed(r, spec_primary(tokens_view(ts@), p as int), p as int, ts.len() as int, true),
    decreases ts.len() - p, 2int,
{
    let ghost tv = tokens_view(ts@);
    if p >= ts.len() {
        return None;
    }
    assert(tv[p as int] == ts@[p as int]@);
    match &ts[p] {
        Token::Number(n) => Some((Expr::Literal(Literal::Number(n.clone())), p + 1)),
        Token::Str(s) => Some((Expr::Literal(Literal::Str(s.clone())), p + 1)),
        Token::Bool(b) => Some((Expr::Literal(Literal::Bool(*b)), p + 1)),
        Token::Ident(i) => Some((Expr::Ident(i.clone()), p + 1)),
        Token::LParen => {
            match p_arrow(ts, p + 1) {
                Some((inner, q)) => {
                    let closed = q < ts.len() && match &ts[q] {
                        Token::RParen => true,
                        _ => false,
                    };
                    if q < ts.len() {
                        assert(tv[q as int] == ts@[q as int]@);
                    }
                    let next = if closed {
                        q + 1
                    } else {
                        q
                    };
                    Some((Expr::Group(Box::new(inner)), next))
                },
                None => None,
            }
        },
        _ => None,
    }
}

/// The expression `src` reads as (see `spec_parse_expression`); none when
/// it does not start with one.
pub fn parse_expression(src: &str) -> (r: Option<Expr>)
    ensures
        match r {
            Some(e) => spec_parse_expression(src@) == Some(e@),
            None => spec_parse_expression(src@) is None,
        },
{
    let tokens = tokenize(src);
    match p_arrow(&tokens, 0) {
        Some((e, _)) => Some(e),
        None => None,
    }
}

} // verus!
