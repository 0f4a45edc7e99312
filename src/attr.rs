use vstd::prelude::*;
use crate::text::decimal;
use crate::diag::{Error, ErrorKind};

verus! {

pub enum Delimiter {
    Paren,
    Brace,
    Bracket,
    Invisible,
}

/// A token of an attribute's arguments.
pub enum Token {
    Ident(String),
    /// A punctuation character, and whether it is joined to the next one
    /// (as the first `=` of `==`).
    Punct(char, bool),
    /// A string literal, by its value.
    Str(String),
    /// An integer literal without suffix, by its digits.
    Int(String),
    /// A floating-point literal, by its text (`0.1`).
    Float(String),
    /// Any other literal, by its text.
    Lit(String),
    Group(Delimiter, Vec<Token>),
}

/// The shape of an attribute after its path: `#[p]`, `#[p(..)]` or `#[p = ..]`.
pub enum Meta {
    Path,
    List(Vec<Token>),
    NameValue,
}

/// An attribute: its path when that is a single identifier (else empty), its
/// shape, and its location.
pub struct Attribute {
    pub name: String,
    pub meta: Meta,
    pub loc: usize,
}

/// A formatting capability that a template reference asks of a field.
#[derive(Copy, Clone, PartialEq, Eq, Structural, Debug)]
pub enum Trait {
    Debug,
    Display,
    Octal,
    LowerHex,
    UpperHex,
    Pointer,
    Binary,
    LowerExp,
    UpperExp,
}

/// How a synthesized binding wraps the field it reads.
#[derive(Copy, Clone, PartialEq, Eq, Structural, Debug)]
pub enum Wrap {
    Plain,
    /// `.as_display()`, for a bare `{field}`.
    AsDisplay,
    /// The pointer-formatting wrapper, for `{field:p}`.
    Pointer,
}

/// A local binding made for a template: `local` is bound to `value` (a field
/// variable), wrapped as `wrap` says.
pub struct Binding {
    pub local: String,
    pub value: String,
    pub wrap: Wrap,
}

/// A display template, and what compiling it found.
pub struct Display {
    pub loc: usize,
    pub fmt: String,
    pub args: Vec<Token>,
    pub requires_fmt_machinery: bool,
    pub has_bonus_display: bool,
    pub infinite_recursive: bool,
    pub implied_bounds: Vec<(usize, Trait)>,
    pub bindings: Vec<Binding>,
}

/// `#[error(fmt = path)]`
pub struct Fmt {
    pub loc: usize,
    pub path: Vec<Token>,
}

/// The annotations of a type, a variant or a field. A marker is held by the
/// location of its attribute.
pub struct Attrs {
    pub display: Option<Display>,
    pub source: Option<usize>,
    pub backtrace: Option<usize>,
    pub from: Option<usize>,
    pub transparent: Option<usize>,
    pub fmt: Option<Fmt>,
}

} // verus!

verus! {

/// A token, as text.
pub enum TokenView {
    Ident(Seq<char>),
    Punct(char, bool),
    Str(Seq<char>),
    Int(Seq<char>),
    Float(Seq<char>),
    Lit(Seq<char>),
    Group(Delimiter, Seq<TokenView>),
}

pub open spec fn token_view(t: Token) -> TokenView
    decreases t,
{
    match t {
        Token::Ident(s) => TokenView::Ident(s@),
        Token::Punct(c, j) => TokenView::Punct(c, j),
        Token::Str(s) => TokenView::Str(s@),
        Token::Int(s) => TokenView::Int(s@),
        Token::Float(s) => TokenView::Float(s@),
        Token::Lit(s) => TokenView::Lit(s@),
        Token::Group(d, v) => TokenView::Group(d, tokens_view(v@)),
    }
}

pub open spec fn tokens_view(s: Seq<Token>) -> Seq<TokenView>
    decreases s,
{
    if s.len() == 0 {
        Seq::empty()
    } else {
        tokens_view(s.drop_last()).push(token_view(s.last()))
    }
}

pub proof fn lemma_tokens_view(s: Seq<Token>)
    ensures
        tokens_view(s).len() == s.len(),
        forall|i: int| 0 <= i < s.len() ==> tokens_view(s)[i] == token_view(s[i]),
    decreases s.len(),
{
    if s.len() > 0 {
        lemma_tokens_view(s.drop_last());
    }
}

pub fn clone_token(t: &Token) -> (r: Token)
    ensures
        token_view(r) == token_view(*t),
    decreases t,
{
    match t {
        Token::Ident(s) => Token::Ident(s.clone()),
        Token::Punct(c, j) => Token::Punct(*c, *j),
        Token::Str(s) => Token::Str(s.clone()),
        Token::Int(s) => Token::Int(s.clone()),
        Token::Float(s) => Token::Float(s.clone()),
        Token::Lit(s) => Token::Lit(s.clone()),
        Token::Group(d, v) => {
            let d2 = match d {
                Delimiter::Paren => Delimiter::Paren,
                Delimiter::Brace => Delimiter::Brace,
                Delimiter::Bracket => Delimiter::Bracket,
                Delimiter::Invisible => Delimiter::Invisible,
            };
            proof {
                assert(decreases_to!(*t => *v));
            }
            Token::Group(d2, clone_tokens(v))
        },
    }
}

pub fn clone_tokens(v: &Vec<Token>) -> (r: Vec<Token>)
    ensures
        tokens_view(r@) == tokens_view(v@),
    decreases v,
{
    let mut r: Vec<Token> = Vec::new();
    let mut i: usize = 0;
    while i < v.len()
        invariant
            i <= v@.len(),
            tokens_view(r@) == tokens_view(v@.subrange(0, i as int)),
        decreases v.len() - i,
    {
        proof {
            assert(decreases_to!(*v => v@));
            assert(decreases_to!(v@ => v@[i as int]));
        }
        let t = clone_token(&v[i]);
        let ghost before = r@;
        r.push(t);
        assert(r@.drop_last() =~= before);
        assert(v@.subrange(0, i + 1).drop_last() =~= v@.subrange(0, i as int));
        i = i + 1;
    }
    assert(v@.subrange(0, i as int) =~= v@);
    r
}

} // verus!

verus! {

pub open spec fn is_dot(t: TokenView) -> bool {
    t matches TokenView::Punct(c, _) && c == '.'
}

/// A token after which an expression begins.
pub open spec fn begins_expr(t: TokenView) -> bool {
    match t {
        TokenView::Ident(s) => s == "break"@ || s == "continue"@ || s == "if"@ || s == "in"@ || s
            == "match"@ || s == "mut"@ || s == "return"@ || s == "while"@,
        TokenView::Punct(c, _) => c == '+' || c == '&' || c == '!' || c == '^' || c == ',' || c
            == '/' || c == '=' || c == '>' || c == '<' || c == '|' || c == '%' || c == ';' || c
            == '*' || c == '-',
        _ => false,
    }
}

pub open spec fn all_digits(s: Seq<char>) -> bool {
    s.len() > 0 && forall|k: int| 0 <= k < s.len() ==> crate::fmt::is_digit(s[k])
}

/// The position written `n` (digits that fit in a `u32`), as its variable `_n`.
pub open spec fn index_var(s: Seq<char>) -> Seq<char> {
    seq!['_'] + decimal(crate::fmt::digits_value(s))
}

pub open spec fn index_ok(s: Seq<char>) -> bool {
    all_digits(s) && crate::fmt::digits_value(s) <= u32::MAX
}

/// `a.b`, two positions, as in the float literal of `.0.1`.
pub open spec fn float_split(s: Seq<char>) -> Option<(Seq<char>, Seq<char>)> {
    match crate::fmt::find_from(s, 0, '.') {
        Some(k) => {
            let a = s.subrange(0, k);
            let b = s.subrange(k + 1, s.len() as int);
            if index_ok(a) && index_ok(b) {
                Some((a, b))
            } else {
                None
            }
        },
        None => None,
    }
}

/// The arguments of a template with field accesses rewritten: at the start
/// of an expression, `.field` becomes `field`, `.0` becomes `_0`, and `.0.1`
/// becomes `_0.1`; groups are rewritten inside. `None` where a position
/// does not fit in a `u32`.
pub open spec fn rewrite(ts: Seq<TokenView>, i: int, begin: bool) -> Option<Seq<TokenView>>
    decreases ts, ts.len() - i,
{
    if i < 0 || i >= ts.len() {
        Some(Seq::empty())
    } else {
        let t = ts[i];
        if t matches TokenView::Group(d, _) && d == Delimiter::Invisible {
            match rewrite(ts, i + 1, false) {
                Some(rest) => Some(seq![t] + rest),
                None => None,
            }
        } else if begin && is_dot(t) && i + 1 < ts.len() && ts[i + 1] is Ident {
            rewrite(ts, i + 1, false)
        } else if begin && is_dot(t) && i + 1 < ts.len() && ts[i + 1] is Int {
            let digits = ts[i + 1]->Int_0;
            if index_ok(digits) {
                match rewrite(ts, i + 2, false) {
                    Some(rest) => Some(seq![TokenView::Ident(index_var(digits))] + rest),
                    None => None,
                }
            } else {
                None
            }
        } else if begin && is_dot(t) && i + 1 < ts.len() && (ts[i + 1] matches TokenView::Float(
            f,
        ) && float_split(f) is Some) {
            let (a, b) = float_split(ts[i + 1]->Float_0)->0;
            match rewrite(ts, i + 2, false) {
                Some(rest) => Some(
                    seq![
                        TokenView::Ident(index_var(a)),
                        TokenView::Punct('.', false),
                        TokenView::Int(decimal(crate::fmt::digits_value(b))),
                    ] + rest,
                ),
                None => None,
            }
        } else {
            let next = begins_expr(t);
            let here = match t {
                TokenView::Group(d, inner) => match rewrite(inner, 0, true) {
                    Some(x) => Some(TokenView::Group(d, x)),
                    None => None,
                },
                _ => Some(t),
            };
            match (here, rewrite(ts, i + 1, next)) {
                (Some(h), Some(rest)) => Some(seq![h] + rest),
                _ => None,
            }
        }
    }
}

} // verus!

verus! {

pub open spec fn prepend(p: Seq<TokenView>, o: Option<Seq<TokenView>>) -> Option<Seq<TokenView>> {
    match o {
        Some(r) => Some(p + r),
        None => None,
    }
}

fn starts_expr(t: &Token) -> (r: bool)
    ensures
        r == begins_expr(token_view(*t)),
{
    match t {
        Token::Ident(s) => {
            let s = s.as_str();
            crate::text::eq_str(s, "break") || crate::text::eq_str(s, "continue")
                || crate::text::eq_str(s, "if") || crate::text::eq_str(s, "in")
                || crate::text::eq_str(s, "match") || crate::text::eq_str(s, "mut")
                || crate::text::eq_str(s, "return") || crate::text::eq_str(s, "while")
        },
        Token::Punct(c, _) => {
            let c = *c;
            c == '+' || c == '&' || c == '!' || c == '^' || c == ',' || c == '/' || c == '=' || c
                == '>' || c == '<' || c == '|' || c == '%' || c == ';' || c == '*' || c == '-'
        },
        _ => false,
    }
}

/// The value of `s[from..to]` if it is a nonempty run of digits that fits in
/// a `u32`.
fn index_value(s: &Vec<char>, from: usize, to: usize) -> (r: Option<u32>)
    requires
        from <= to <= s@.len(),
    ensures
        r matches Some(v) ==> index_ok(s@.subrange(from as int, to as int)) && v as nat
            == crate::fmt::digits_value(s@.subrange(from as int, to as int)),
        r is None ==> !index_ok(s@.subrange(from as int, to as int)),
{
    if from == to {
        return None;
    }
    let mut k: usize = from;
    while k < to
        invariant
            from <= k <= to <= s@.len(),
            forall|j: int| from <= j < k ==> crate::fmt::is_digit(s@[j]),
        decreases to - k,
    {
        if !('0' <= s[k] && s[k] <= '9') {
            assert(!crate::fmt::is_digit(s@.subrange(from as int, to as int)[k - from]));
            return None;
        }
        k = k + 1;
    }
    crate::fmt::parse_u32(s, from, to)
}

fn index_ident(v: u32) -> (r: Token)
    ensures
        token_view(r) == TokenView::Ident(seq!['_'] + decimal(v as nat)),
{
    let mut s = String::new();
    crate::text::push_char(&mut s, '_');
    crate::text::push_decimal(&mut s, v);
    assert(s@ =~= seq!['_'] + decimal(v as nat));
    Token::Ident(s)
}

pub proof fn lemma_tokens_view_push(s: Seq<Token>, t: Token)
    ensures
        tokens_view(s.push(t)) == tokens_view(s).push(token_view(t)),
{
    assert(s.push(t).drop_last() =~= s);
}

enum Rewritten {
    Next(usize, bool),
    Fail,
}

/// One token (or a `.` with the token after it) of `rewrite`, appended to
/// `out`.
#[verifier::rlimit(60)]
fn rewrite_one(tokens: &Vec<Token>, i: usize, begin: bool, out: &mut Vec<Token>) -> (r: Rewritten)
    requires
        i < tokens@.len(),
    ensures
        match r {
            Rewritten::Next(j, b) => i < j <= tokens@.len() && prepend(
                tokens_view(old(out)@),
                rewrite(tokens_view(tokens@), i as int, begin),
            ) == prepend(tokens_view(final(out)@), rewrite(tokens_view(tokens@), j as int, b)),
            Rewritten::Fail => rewrite(tokens_view(tokens@), i as int, begin) is None,
        },
    decreases tokens, 0nat,
{
    let ghost ts = tokens_view(tokens@);
    proof {
        lemma_tokens_view(tokens@);
    }
    let n = tokens.len();
    let t = &tokens[i];
    let ghost before = out@;
    let is_dot_here = match t {
        Token::Punct(c, _) => *c == '.',
        _ => false,
    };
    if let Token::Group(Delimiter::Invisible, _) = t {
        let c = clone_token(t);
        out.push(c);
        proof {
            lemma_tokens_view_push(before, c);
        }
        return Rewritten::Next(i + 1, false);
    }
    if begin && is_dot_here && i + 1 < n {
        match &tokens[i + 1] {
            Token::Ident(_) => {
                return Rewritten::Next(i + 1, false);
            },
            Token::Int(d) => {
                let cs = crate::text::chars_of(d.as_str());
                assert(cs@.subrange(0, cs@.len() as int) =~= cs@);
                match index_value(&cs, 0, cs.len()) {
                    None => {
                        return Rewritten::Fail;
                    },
                    Some(v) => {
                        let id = index_ident(v);
                        out.push(id);
                        proof {
                            lemma_tokens_view_push(before, id);
                        }
                        return Rewritten::Next(i + 2, false);
                    },
                }
            },
            Token::Float(f) => {
                let cs = crate::text::chars_of(f.as_str());
                let split = split_float(&cs);
                if let Some((a, b)) = split {
                    let t1 = index_ident(a);
                    let t2 = Token::Punct('.', false);
                    let mut bs = String::new();
                    crate::text::push_decimal(&mut bs, b);
                    let t3 = Token::Int(bs);
                    out.push(t1);
                    out.push(t2);
                    out.push(t3);
                    proof {
                        lemma_tokens_view_push(before, t1);
                        lemma_tokens_view_push(before.push(t1), t2);
                        lemma_tokens_view_push(before.push(t1).push(t2), t3);
                        assert(out@ == before.push(t1).push(t2).push(t3));
                    }
                    return Rewritten::Next(i + 2, false);
                }
            },
            _ => {},
        }
    }
    let next = starts_expr(t);
    let here = match t {
        Token::Group(d, inner) => {
            proof {
                assert(decreases_to!(*tokens => tokens@));
                assert(decreases_to!(tokens@ => tokens@[i as int]));
                assert(decreases_to!(tokens@[i as int] => *inner));
            }
            match parse_token_expr(inner, true) {
                Some(x) => {
                    let d2 = match d {
                        Delimiter::Paren => Delimiter::Paren,
                        Delimiter::Brace => Delimiter::Brace,
                        Delimiter::Bracket => Delimiter::Bracket,
                        Delimiter::Invisible => Delimiter::Invisible,
                    };
                    Token::Group(d2, x)
                },
                None => {
                    return Rewritten::Fail;
                },
            }
        },
        _ => clone_token(t),
    };
    out.push(here);
    proof {
        lemma_tokens_view_push(before, here);
    }
    Rewritten::Next(i + 1, next)
}

/// The arguments with field accesses rewritten (see `rewrite`).
pub fn parse_token_expr(tokens: &Vec<Token>, begin_expr: bool) -> (r: Option<Vec<Token>>)
    ensures
        match rewrite(tokens_view(tokens@), 0, begin_expr) {
            Some(x) => r matches Some(v) && tokens_view(v@) == x,
            None => r is None,
        },
    decreases tokens, 1nat,
{
    let ghost ts = tokens_view(tokens@);
    let mut out: Vec<Token> = Vec::new();
    let mut begin = begin_expr;
    let mut i: usize = 0;
    let n = tokens.len();
    assert(tokens_view(out@) + ts =~= ts);
    while i < n
        invariant
            n == tokens@.len(),
            i <= n,
            ts == tokens_view(tokens@),
            rewrite(ts, 0, begin_expr) == prepend(tokens_view(out@), rewrite(ts, i as int, begin)),
        decreases n - i,
    {
        match rewrite_one(tokens, i, begin, &mut out) {
            Rewritten::Next(j, b) => {
                i = j;
                begin = b;
            },
            Rewritten::Fail => {
                return None;
            },
        }
    }
    proof {
        lemma_tokens_view(tokens@);
    }
    assert(rewrite(ts, i as int, begin) == Some(Seq::<TokenView>::empty()));
    assert(tokens_view(out@) + Seq::<TokenView>::empty() =~= tokens_view(out@));
    Some(out)
}

/// `a.b` with two positions.
fn split_float(cs: &Vec<char>) -> (r: Option<(u32, u32)>)
    ensures
        match float_split(cs@) {
            Some((a, b)) => r matches Some((x, y)) && x as nat == crate::fmt::digits_value(a)
                && y as nat == crate::fmt::digits_value(b) && index_var(a) == seq!['_']
                + decimal(x as nat),
            None => r is None,
        },
{
    let k = match crate::fmt::find_char(cs, 0, '.') {
        Some(k) => k,
        None => return None,
    };
    let n = cs.len();
    let a = index_value(cs, 0, k);
    let b = index_value(cs, k + 1, n);
    match (a, b) {
        (Some(x), Some(y)) => Some((x, y)),
        _ => None,
    }
}

} // verus!

verus! {

/// What the arguments of an `#[error(...)]` attribute hold.
pub enum ErrorAttr {
    /// A template and its rewritten arguments.
    Template { fmt: Seq<char>, args: Seq<TokenView> },
    /// `transparent`, and whether more tokens follow it.
    Transparent { extra: bool },
    /// `fmt = path`, and whether more tokens follow the path.
    FmtPath { path: Seq<TokenView>, extra: bool },
    Malformed,
}

pub open spec fn is_punct_view(t: TokenView, c: char) -> bool {
    t matches TokenView::Punct(p, _) && p == c
}

/// `::` at position `i`.
pub open spec fn path_sep_at(ts: Seq<TokenView>, i: int) -> bool {
    0 <= i && i + 1 < ts.len() && (ts[i] matches TokenView::Punct(c, j) && c == ':' && j)
        && is_punct_view(ts[i + 1], ':')
}

/// The end of the path `a::b::c` whose first identifier is at `i`.
pub open spec fn path_rest_end(ts: Seq<TokenView>, i: int) -> int
    decreases ts.len() - i,
{
    if 0 <= i && i + 1 < ts.len() && path_sep_at(ts, i + 1) && i + 3 < ts.len() && ts[i + 3] is Ident {
        path_rest_end(ts, i + 3)
    } else {
        i + 1
    }
}

/// The end of a path that starts at `i`, with or without a leading `::`.
pub open spec fn path_end(ts: Seq<TokenView>, i: int) -> Option<int> {
    if 0 <= i < ts.len() && ts[i] is Ident {
        Some(path_rest_end(ts, i))
    } else if path_sep_at(ts, i) && i + 2 < ts.len() && ts[i + 2] is Ident {
        Some(path_rest_end(ts, i + 2))
    } else {
        None
    }
}

pub open spec fn classify(ts: Seq<TokenView>) -> ErrorAttr {
    if ts.len() == 0 {
        ErrorAttr::Malformed
    } else {
        match ts[0] {
            TokenView::Str(s) => {
                let rest = ts.subrange(1, ts.len() as int);
                if rest.len() == 0 || (rest.len() == 1 && is_punct_view(rest[0], ',')) {
                    ErrorAttr::Template { fmt: s, args: Seq::empty() }
                } else {
                    match rewrite(rest, 0, false) {
                        Some(a) => ErrorAttr::Template { fmt: s, args: a },
                        None => ErrorAttr::Malformed,
                    }
                }
            },
            TokenView::Ident(k) => if k == "transparent"@ {
                ErrorAttr::Transparent { extra: ts.len() > 1 }
            } else if k == "fmt"@ && ts.len() > 1 && is_punct_view(ts[1], '=') {
                match path_end(ts, 2) {
                    Some(e) => ErrorAttr::FmtPath { path: ts.subrange(2, e), extra: e < ts.len() },
                    None => ErrorAttr::Malformed,
                }
            } else {
                ErrorAttr::Malformed
            },
            _ => ErrorAttr::Malformed,
        }
    }
}

/// A template as the parser records it.
pub struct DisplayModel {
    pub loc: usize,
    pub fmt: Seq<char>,
    pub args: Seq<TokenView>,
    pub requires_fmt_machinery: bool,
}

pub struct AttrsModel {
    pub display: Option<DisplayModel>,
    pub source: Option<usize>,
    pub backtrace: Option<usize>,
    pub from: Option<usize>,
    pub transparent: Option<usize>,
    pub fmt: Option<(usize, Seq<TokenView>)>,
}

pub open spec fn attrs_model(a: Attrs) -> AttrsModel {
    AttrsModel {
        display: match a.display {
            Some(d) => Some(
                DisplayModel {
                    loc: d.loc,
                    fmt: d.fmt@,
                    args: tokens_view(d.args@),
                    requires_fmt_machinery: d.requires_fmt_machinery,
                },
            ),
            None => None,
        },
        source: a.source,
        backtrace: a.backtrace,
        from: a.from,
        transparent: a.transparent,
        fmt: match a.fmt {
            Some(f) => Some((f.loc, tokens_view(f.path@))),
            None => None,
        },
    }
}

/// A template not yet compiled.
pub open spec fn fresh(a: Attrs) -> bool {
    a.display matches Some(d) ==> !d.has_bonus_display && !d.infinite_recursive
        && d.implied_bounds@.len() == 0 && d.bindings@.len() == 0
}

pub open spec fn no_attrs() -> AttrsModel {
    AttrsModel {
        display: None,
        source: None,
        backtrace: None,
        from: None,
        transparent: None,
        fmt: None,
    }
}

pub open spec fn malformed(loc: usize) -> Error {
    Error { loc, kind: ErrorKind::Malformed }
}

/// The effect of an `#[error(...)]` attribute.
pub open spec fn error_attr_step(loc: usize, meta: Meta, st: AttrsModel) -> Result<AttrsModel, Error> {
    match meta {
        Meta::List(toks) => match classify(tokens_view(toks@)) {
            ErrorAttr::Malformed => Err(malformed(loc)),
            ErrorAttr::Transparent { extra } => if st.transparent is Some {
                Err(Error { loc, kind: ErrorKind::DuplicateTransparent })
            } else if extra {
                Err(malformed(loc))
            } else {
                Ok(AttrsModel { transparent: Some(loc), ..st })
            },
            ErrorAttr::FmtPath { path, extra } => if st.fmt is Some {
                Err(Error { loc, kind: ErrorKind::DuplicateFmt })
            } else if extra {
                Err(malformed(loc))
            } else {
                Ok(AttrsModel { fmt: Some((loc, path)), ..st })
            },
            ErrorAttr::Template { fmt, args } => if st.display is Some {
                Err(Error { loc, kind: ErrorKind::DuplicateDisplay })
            } else {
                Ok(
                    AttrsModel {
                        display: Some(
                            DisplayModel { loc, fmt, args, requires_fmt_machinery: args.len() > 0 },
                        ),
                        ..st
                    },
                )
            },
        },
        _ => Err(malformed(loc)),
    }
}

/// The effect of one attribute.
pub open spec fn attr_step(a: Attribute, st: AttrsModel) -> Result<AttrsModel, Error> {
    if a.name@ == "error"@ {
        error_attr_step(a.loc, a.meta, st)
    } else if a.name@ == "source"@ {
        if !(a.meta is Path) {
            Err(malformed(a.loc))
        } else if st.source is Some {
            Err(Error { loc: a.loc, kind: ErrorKind::DuplicateSource })
        } else {
            Ok(AttrsModel { source: Some(a.loc), ..st })
        }
    } else if a.name@ == "backtrace"@ {
        if !(a.meta is Path) {
            Err(malformed(a.loc))
        } else if st.backtrace is Some {
            Err(Error { loc: a.loc, kind: ErrorKind::DuplicateBacktrace })
        } else {
            Ok(AttrsModel { backtrace: Some(a.loc), ..st })
        }
    } else if a.name@ == "from"@ {
        if !(a.meta is Path) {
            Ok(st)
        } else if st.from is Some {
            Err(Error { loc: a.loc, kind: ErrorKind::DuplicateFrom })
        } else {
            Ok(AttrsModel { from: Some(a.loc), ..st })
        }
    } else {
        Ok(st)
    }
}

/// The annotations that attributes `i..` add to `st`.
pub open spec fn attrs_from(attrs: Seq<Attribute>, i: int, st: AttrsModel) -> Result<AttrsModel, Error>
    decreases attrs.len() - i,
{
    if i < 0 || i >= attrs.len() {
        Ok(st)
    } else {
        match attr_step(attrs[i], st) {
            Ok(next) => attrs_from(attrs, i + 1, next),
            Err(e) => Err(e),
        }
    }
}

} // verus!

verus! {

pub proof fn lemma_tokens_view_subrange(s: Seq<Token>, a: int, b: int)
    requires
        0 <= a <= b <= s.len(),
    ensures
        tokens_view(s.subrange(a, b)) == tokens_view(s).subrange(a, b),
{
    lemma_tokens_view(s);
    lemma_tokens_view(s.subrange(a, b));
    assert(tokens_view(s.subrange(a, b)) =~= tokens_view(s).subrange(a, b));
}

fn clone_range(v: &Vec<Token>, from: usize, to: usize) -> (r: Vec<Token>)
    requires
        from <= to <= v@.len(),
    ensures
        tokens_view(r@) == tokens_view(v@).subrange(from as int, to as int),
{
    let mut r: Vec<Token> = Vec::new();
    let mut i: usize = from;
    while i < to
        invariant
            from <= i <= to <= v@.len(),
            tokens_view(r@) == tokens_view(v@.subrange(from as int, i as int)),
        decreases to - i,
    {
        let t = clone_token(&v[i]);
        let ghost before = r@;
        r.push(t);
        proof {
            lemma_tokens_view_push(before, t);
            lemma_tokens_view_push(v@.subrange(from as int, i as int), v@[i as int]);
            assert(v@.subrange(from as int, i + 1) =~= v@.subrange(from as int, i as int).push(
                v@[i as int],
            ));
        }
        i = i + 1;
    }
    proof {
        lemma_tokens_view_subrange(v@, from as int, to as int);
    }
    r
}

enum Parsed {
    Template(String, Vec<Token>),
    Transparent(bool),
    FmtPath(Vec<Token>, bool),
    Malformed,
}

fn path_sep(ts: &Vec<Token>, i: usize) -> (r: bool)
    ensures
        r == path_sep_at(tokens_view(ts@), i as int),
{
    proof {
        lemma_tokens_view(ts@);
    }
    if ts.len() < 2 || i >= ts.len() - 1 {
        return false;
    }
    let first = match &ts[i] {
        Token::Punct(c, j) => *c == ':' && *j,
        _ => false,
    };
    let second = match &ts[i + 1] {
        Token::Punct(c, _) => *c == ':',
        _ => false,
    };
    first && second
}

fn is_ident_tok(ts: &Vec<Token>, i: usize) -> (r: bool)
    ensures
        r == (i < ts@.len() && tokens_view(ts@)[i as int] is Ident),
{
    proof {
        lemma_tokens_view(ts@);
    }
    i < ts.len() && matches!(ts[i], Token::Ident(_))
}

fn path_rest(ts: &Vec<Token>, i: usize) -> (r: usize)
    requires
        i < ts@.len(),
    ensures
        r == path_rest_end(tokens_view(ts@), i as int),
        i < r <= ts@.len(),
    decreases ts@.len() - i,
{
    proof {
        lemma_tokens_view(ts@);
    }
    let n = ts.len();
    if i + 1 < n && path_sep(ts, i + 1) && n > 3 && i < n - 3 && is_ident_tok(ts, i + 3) {
        path_rest(ts, i + 3)
    } else {
        i + 1
    }
}

fn path_end_exec(ts: &Vec<Token>, i: usize) -> (r: Option<usize>)
    requires
        i <= ts@.len(),
    ensures
        r matches Some(e) ==> path_end(tokens_view(ts@), i as int) == Some(e as int) && i < e
            <= ts@.len(),
        r is None ==> path_end(tokens_view(ts@), i as int) is None,
{
    proof {
        lemma_tokens_view(ts@);
    }
    let n = ts.len();
    if is_ident_tok(ts, i) {
        Some(path_rest(ts, i))
    } else if path_sep(ts, i) && i < n && n - i > 2 && is_ident_tok(ts, i + 2) {
        Some(path_rest(ts, i + 2))
    } else {
        None
    }
}

fn classify_exec(toks: &Vec<Token>) -> (r: Parsed)
    ensures
        match classify(tokens_view(toks@)) {
            ErrorAttr::Template { fmt, args } => r matches Parsed::Template(f, a) && f@ == fmt
                && tokens_view(a@) == args,
            ErrorAttr::Transparent { extra } => r == Parsed::Transparent(extra),
            ErrorAttr::FmtPath { path, extra } => r matches Parsed::FmtPath(p, x) && tokens_view(
                p@,
            ) == path && x == extra,
            ErrorAttr::Malformed => r is Malformed,
        },
{
    let ghost ts = tokens_view(toks@);
    proof {
        lemma_tokens_view(toks@);
    }
    let n = toks.len();
    if n == 0 {
        return Parsed::Malformed;
    }
    match &toks[0] {
        Token::Str(s) => {
            let rest = clone_range(toks, 1, n);
            let trailing_comma = n == 2 && match &toks[1] {
                Token::Punct(c, _) => *c == ',',
                _ => false,
            };
            if n == 1 || trailing_comma {
                let empty: Vec<Token> = Vec::new();
                assert(tokens_view(empty@) =~= Seq::<TokenView>::empty());
                return Parsed::Template(s.clone(), empty);
            }
            match parse_token_expr(&rest, false) {
                Some(a) => Parsed::Template(s.clone(), a),
                None => Parsed::Malformed,
            }
        },
        Token::Ident(k) => {
            if crate::text::eq_str(k.as_str(), "transparent") {
                Parsed::Transparent(n > 1)
            } else if crate::text::eq_str(k.as_str(), "fmt") && n > 1 && match &toks[1] {
                Token::Punct(c, _) => *c == '=',
                _ => false,
            } {
                match path_end_exec(toks, 2) {
                    Some(e) => Parsed::FmtPath(clone_range(toks, 2, e), e < n),
                    None => Parsed::Malformed,
                }
            } else {
                Parsed::Malformed
            }
        },
        _ => Parsed::Malformed,
    }
}

/// Records the `#[error(...)]` attribute `attr` in `attrs`.
pub fn parse_error_attribute(attrs: &mut Attrs, attr: &Attribute) -> (r: Result<(), Error>)
    ensures
        match error_attr_step(attr.loc, attr.meta, attrs_model(*old(attrs))) {
            Ok(m) => r is Ok && attrs_model(*final(attrs)) == m,
            Err(e) => r == Err::<(), Error>(e) && attrs_model(*final(attrs)) == attrs_model(
                *old(attrs),
            ),
        },
        fresh(*old(attrs)) ==> fresh(*final(attrs)),
{
    let loc = attr.loc;
    let toks = match &attr.meta {
        Meta::List(toks) => toks,
        _ => return Err(Error { loc, kind: ErrorKind::Malformed }),
    };
    match classify_exec(toks) {
        Parsed::Malformed => Err(Error { loc, kind: ErrorKind::Malformed }),
        Parsed::Transparent(extra) => {
            if attrs.transparent.is_some() {
                return Err(Error { loc, kind: ErrorKind::DuplicateTransparent });
            }
            if extra {
                return Err(Error { loc, kind: ErrorKind::Malformed });
            }
            attrs.transparent = Some(loc);
            Ok(())
        },
        Parsed::FmtPath(path, extra) => {
            if attrs.fmt.is_some() {
                return Err(Error { loc, kind: ErrorKind::DuplicateFmt });
            }
            if extra {
                return Err(Error { loc, kind: ErrorKind::Malformed });
            }
            attrs.fmt = Some(Fmt { loc, path });
            Ok(())
        },
        Parsed::Template(fmt, args) => {
            if attrs.display.is_some() {
                return Err(Error { loc, kind: ErrorKind::DuplicateDisplay });
            }
            let requires_fmt_machinery = args.len() > 0;
            proof {
                lemma_tokens_view(args@);
            }
            attrs.display = Some(
                Display {
                    loc,
                    fmt,
                    args,
                    requires_fmt_machinery,
                    has_bonus_display: false,
                    infinite_recursive: false,
                    implied_bounds: Vec::new(),
                    bindings: Vec::new(),
                },
            );
            Ok(())
        },
    }
}

fn name_is(a: &Attribute, lit: &str) -> (r: bool)
    ensures
        r == (a.name@ == lit@),
{
    crate::text::eq_str(a.name.as_str(), lit)
}

/// The annotations that the attributes make, or the first error.
pub fn get(input: &Vec<Attribute>) -> (r: Result<Attrs, Error>)
    ensures
        match attrs_from(input@, 0, no_attrs()) {
            Ok(m) => r matches Ok(a) && attrs_model(a) == m && fresh(a),
            Err(e) => r == Err::<Attrs, Error>(e),
        },
{
    let mut attrs = Attrs {
        display: None,
        source: None,
        backtrace: None,
        from: None,
        transparent: None,
        fmt: None,
    };
    let mut i: usize = 0;
    while i < input.len()
        invariant
            i <= input@.len(),
            fresh(attrs),
            attrs_from(input@, 0, no_attrs()) == attrs_from(input@, i as int, attrs_model(attrs)),
        decreases input.len() - i,
    {
        let attr = &input[i];
        if name_is(attr, "error") {
            parse_error_attribute(&mut attrs, attr)?;
        } else if name_is(attr, "source") {
            if !matches!(attr.meta, Meta::Path) {
                return Err(Error { loc: attr.loc, kind: ErrorKind::Malformed });
            }
            if attrs.source.is_some() {
                return Err(Error { loc: attr.loc, kind: ErrorKind::DuplicateSource });
            }
            attrs.source = Some(attr.loc);
        } else if name_is(attr, "backtrace") {
            if !matches!(attr.meta, Meta::Path) {
                return Err(Error { loc: attr.loc, kind: ErrorKind::Malformed });
            }
            if attrs.backtrace.is_some() {
                return Err(Error { loc: attr.loc, kind: ErrorKind::DuplicateBacktrace });
            }
            attrs.backtrace = Some(attr.loc);
        } else if name_is(attr, "from") {
            if matches!(attr.meta, Meta::Path) {
                if attrs.from.is_some() {
                    return Err(Error { loc: attr.loc, kind: ErrorKind::DuplicateFrom });
                }
                attrs.from = Some(attr.loc);
            }
        }
        i = i + 1;
    }
    Ok(attrs)
}

} // verus!
