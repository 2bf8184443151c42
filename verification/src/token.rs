use vstd::prelude::*;

verus! {

/// A source-location range, measured in positions of the host's input text.
/// Diagnostics are anchored to such a range.
#[derive(Clone, Copy, Debug, PartialEq, Eq)]
pub struct Span {
    pub lo: usize,
    pub hi: usize,
}

/// The bracketing character pair of a token group.
#[derive(Clone, Copy, Debug, PartialEq, Eq)]
pub enum Delim {
    Paren,
    Brace,
    Bracket,
}

/// One token of an input or output stream: an identifier, a punctuation
/// character, a literal, or a delimited group of nested tokens.
#[derive(Debug, PartialEq, Eq)]
pub enum Token {
    Ident { text: String, span: Span },
    Punct { ch: char, span: Span },
    Literal { text: String, span: Span },
    Group { delim: Delim, tokens: Vec<Token>, span: Span },
}

/// The mathematical value of a `Token`: identifier and literal text as
/// character sequences, group contents as a sequence of token values.
pub enum Tok {
    Ident { text: Seq<char>, span: Span },
    Punct { ch: char, span: Span },
    Literal { text: Seq<char>, span: Span },
    Group { delim: Delim, toks: Seq<Tok>, span: Span },
}

pub open spec fn view_token(t: Token) -> Tok
    decreases t,
{
    match t {
        Token::Ident { text, span } => Tok::Ident { text: text@, span },
        Token::Punct { ch, span } => Tok::Punct { ch, span },
        Token::Literal { text, span } => Tok::Literal { text: text@, span },
        Token::Group { delim, tokens, span } => Tok::Group {
            delim,
            toks: view_tokens(tokens@),
            span,
        },
    }
}

pub open spec fn view_tokens(s: Seq<Token>) -> Seq<Tok>
    decreases s,
{
    if s.len() == 0 {
        Seq::empty()
    } else {
        seq![view_token(s[0])] + view_tokens(s.subrange(1, s.len() as int))
    }
}

impl View for Token {
    type V = Tok;

    open spec fn view(&self) -> Tok {
        view_token(*self)
    }
}

impl Tok {
    /// The source range that this token value covers.
    pub open spec fn span(&self) -> Span {
        match *self {
            Tok::Ident { span, .. } => span,
            Tok::Punct { span, .. } => span,
            Tok::Literal { span, .. } => span,
            Tok::Group { span, .. } => span,
        }
    }

    /// The text of an identifier token; empty for any other token.
    pub open spec fn ident_text(&self) -> Seq<char> {
        match *self {
            Tok::Ident { text, .. } => text,
            _ => Seq::empty(),
        }
    }

    /// The contents of a group token; empty for any other token.
    pub open spec fn group_toks(&self) -> Seq<Tok> {
        match *self {
            Tok::Group { toks, .. } => toks,
            _ => Seq::empty(),
        }
    }

    /// Whether this token is an identifier with the given text.
    pub open spec fn is_ident_with(&self, t: Seq<char>) -> bool {
        self is Ident && self.ident_text() == t
    }

    /// Whether this token is the given punctuation character.
    pub open spec fn is_punct_with(&self, c: char) -> bool {
        match *self {
            Tok::Punct { ch, .. } => ch == c,
            _ => false,
        }
    }

    /// Whether this token is a group with the given delimiter.
    pub open spec fn is_group_with(&self, d: Delim) -> bool {
        match *self {
            Tok::Group { delim, .. } => delim == d,
            _ => false,
        }
    }
}

/// Whether a string equals the given text.
pub fn str_eq(a: &String, b: &str) -> (r: bool)
    ensures
        r == (a@ == b@),
{
    *a == b.to_owned()
}

/// Whether a token is an identifier with the given text.
pub fn tok_is_ident_with(t: &Token, s: &str) -> (r: bool)
    ensures
        r == t@.is_ident_with(s@),
{
    match t {
        Token::Ident { text, .. } => str_eq(text, s),
        _ => false,
    }
}

/// Whether a token is an identifier.
pub fn tok_is_ident(t: &Token) -> (r: bool)
    ensures
        r == (t@ is Ident),
{
    match t {
        Token::Ident { .. } => true,
        _ => false,
    }
}

/// Whether a token is the given punctuation character.
pub fn tok_is_punct_with(t: &Token, c: char) -> (r: bool)
    ensures
        r == t@.is_punct_with(c),
{
    match t {
        Token::Punct { ch, .. } => *ch == c,
        _ => false,
    }
}

/// Whether a token is a parenthesis-delimited group.
pub fn tok_is_paren_group(t: &Token) -> (r: bool)
    ensures
        r == t@.is_group_with(Delim::Paren),
{
    match t {
        Token::Group { delim: Delim::Paren, .. } => true,
        _ => false,
    }
}

/// The source range from the first to the last token of a non-empty sequence.
pub open spec fn spec_join_span(s: Seq<Tok>) -> Span
    recommends
        s.len() > 0,
{
    Span { lo: s[0].span().lo, hi: s[s.len() - 1].span().hi }
}

impl Token {
    /// A structural copy of this token, equal to the original in value.
    pub fn deep_clone(&self) -> (r: Token)
        ensures
            r@ == self@,
        decreases *self,
    {
        match self {
            Token::Ident { text, span } => Token::Ident { text: text.clone(), span: *span },
            Token::Punct { ch, span } => Token::Punct { ch: *ch, span: *span },
            Token::Literal { text, span } => Token::Literal { text: text.clone(), span: *span },
            Token::Group { delim, tokens, span } => Token::Group {
                delim: *delim,
                tokens: deep_clone_tokens(tokens),
                span: *span,
            },
        }
    }

    /// The source range of this token.
    pub fn span(&self) -> (r: Span)
        ensures
            r == self@.span(),
    {
        match self {
            Token::Ident { span, .. } => *span,
            Token::Punct { span, .. } => *span,
            Token::Literal { span, .. } => *span,
            Token::Group { span, .. } => *span,
        }
    }
}

/// A structural copy of a token sequence, equal to the original in value.
pub fn deep_clone_tokens(v: &Vec<Token>) -> (r: Vec<Token>)
    ensures
        view_tokens(r@) == view_tokens(v@),
        r@.len() == v@.len(),
    decreases *v,
{
    let mut out: Vec<Token> = Vec::new();
    let mut i: usize = 0;
    while i < v.len()
        invariant
            i <= v@.len(),
            out@.len() == i,
            forall|j: int| 0 <= j < i ==> view_token(#[trigger] out@[j]) == view_token(v@[j]),
        decreases v@.len() - i,
    {
        let t = v[i].deep_clone();
        out.push(t);
        i = i + 1;
    }
    proof {
        lemma_view_tokens_ext(out@, v@);
    }
    out
}

/// Two token sequences whose elements agree in value have the same value.
pub proof fn lemma_view_tokens_ext(a: Seq<Token>, b: Seq<Token>)
    requires
        a.len() == b.len(),
        forall|j: int| 0 <= j < a.len() ==> view_token(#[trigger] a[j]) == view_token(b[j]),
    ensures
        view_tokens(a) == view_tokens(b),
    decreases a,
{
    if a.len() > 0 {
        lemma_view_tokens_ext(a.subrange(1, a.len() as int), b.subrange(1, b.len() as int));
        assert(view_tokens(a) =~= view_tokens(b));
    } else {
        assert(view_tokens(a) =~= view_tokens(b));
    }
}

/// A token sequence whose elements have the given values has that sequence
/// of values.
pub proof fn lemma_view_tokens_is(a: Seq<Token>, t: Seq<Tok>)
    requires
        a.len() == t.len(),
        forall|j: int| 0 <= j < a.len() ==> view_token(#[trigger] a[j]) == t[j],
    ensures
        view_tokens(a) == t,
    decreases a,
{
    if a.len() == 0 {
        assert(view_tokens(a) =~= t);
    } else {
        lemma_view_tokens_is(a.subrange(1, a.len() as int), t.subrange(1, t.len() as int));
        assert(view_tokens(a) =~= t);
    }
}

/// Token sequence values distribute over concatenation.
pub proof fn lemma_view_tokens_concat(a: Seq<Token>, b: Seq<Token>)
    ensures
        view_tokens(a + b) == view_tokens(a) + view_tokens(b),
{
    lemma_view_all(a);
    lemma_view_all(b);
    assert forall|j: int| 0 <= j < (a + b).len() implies view_token(#[trigger] (a + b)[j]) == (
    view_tokens(a) + view_tokens(b))[j] by {
        if j < a.len() {
            assert((a + b)[j] == a[j]);
        } else {
            assert((a + b)[j] == b[j - a.len()]);
        }
    }
    lemma_view_tokens_is(a + b, view_tokens(a) + view_tokens(b));
}

/// A copy of the tokens `[start, end)` of a sequence, equal in value to
/// that range.
pub fn clone_range(v: &Vec<Token>, start: usize, end: usize) -> (r: Vec<Token>)
    requires
        start <= end,
        end <= v@.len(),
    ensures
        r@.len() == end - start,
        view_tokens(r@) == view_tokens(v@).subrange(start as int, end as int),
{
    let mut out: Vec<Token> = Vec::new();
    let mut i: usize = start;
    while i < end
        invariant
            start <= i <= end,
            end <= v@.len(),
            out@.len() == i - start,
            forall|j: int|
                0 <= j < out@.len() ==> view_token(#[trigger] out@[j]) == view_token(
                    v@[start + j],
                ),
        decreases end - i,
    {
        let t = v[i].deep_clone();
        out.push(t);
        i = i + 1;
    }
    proof {
        lemma_view_all(v@);
        lemma_view_tokens_is(out@, view_tokens(v@).subrange(start as int, end as int));
    }
    out
}

/// Every position of a token sequence's value is the value of that token.
pub proof fn lemma_view_all(s: Seq<Token>)
    ensures
        view_tokens(s).len() == s.len(),
        forall|i: int| 0 <= i < s.len() ==> view_tokens(s)[i] == view_token(#[trigger] s[i]),
{
    lemma_view_tokens_len(s);
    assert forall|i: int| 0 <= i < s.len() implies view_tokens(s)[i] == view_token(
        #[trigger] s[i],
    ) by {
        lemma_view_tokens_index(s, i);
    }
}

pub proof fn lemma_view_tokens_len(s: Seq<Token>)
    ensures
        view_tokens(s).len() == s.len(),
    decreases s,
{
    if s.len() > 0 {
        lemma_view_tokens_len(s.subrange(1, s.len() as int));
    }
}

pub proof fn lemma_view_tokens_index(s: Seq<Token>, i: int)
    requires
        0 <= i < s.len(),
    ensures
        view_tokens(s).len() == s.len(),
        view_tokens(s)[i] == view_token(s[i]),
    decreases s,
{
    lemma_view_tokens_len(s);
    if i > 0 {
        lemma_view_tokens_index(s.subrange(1, s.len() as int), i - 1);
    }
}

} // verus!
