use crate::token::{lemma_view_all, view_token, view_tokens, Delim, Tok, Token};
use vstd::string::StringExecFns;
use vstd::prelude::*;

verus! {

/// The opening character of a delimiter.
pub open spec fn open_char(d: Delim) -> char {
    match d {
        Delim::Paren => '(',
        Delim::Brace => '{',
        Delim::Bracket => '[',
    }
}

/// The closing character of a delimiter.
pub open spec fn close_char(d: Delim) -> char {
    match d {
        Delim::Paren => ')',
        Delim::Brace => '}',
        Delim::Bracket => ']',
    }
}

/// The canonical text of one token: its own text, or its group's contents
/// between the delimiter characters, padded with one space on each side
/// when the group is non-empty.
pub open spec fn render_tok(t: Tok) -> Seq<char>
    decreases t,
{
    match t {
        Tok::Ident { text, .. } => text,
        Tok::Punct { ch, .. } => seq![ch],
        Tok::Literal { text, .. } => text,
        Tok::Group { delim, toks, .. } => if toks.len() == 0 {
            seq![open_char(delim), close_char(delim)]
        } else {
            seq![open_char(delim), ' '] + render_toks(toks) + seq![' ', close_char(delim)]
        },
    }
}

/// The canonical text of a token stream: the tokens' texts, separated by
/// one space.
pub open spec fn render_toks(s: Seq<Tok>) -> Seq<char>
    decreases s,
{
    if s.len() == 0 {
        Seq::empty()
    } else if s.len() == 1 {
        render_tok(s[0])
    } else {
        render_tok(s[0]) + seq![' '] + render_toks(s.subrange(1, s.len() as int))
    }
}

/// Relies on `String::push`: appends the given character at the end of the
/// string.
#[verifier::external_body]
fn push_char(s: &mut String, c: char)
    ensures
        final(s)@ == old(s)@.push(c),
{
    s.push(c);
}

/// Appends one token's canonical text.
fn render_token_onto(t: &Token, out: &mut String)
    ensures
        final(out)@ == old(out)@ + render_tok(t@),
    decreases *t,
{
    match t {
        Token::Ident { text, .. } => {
            out.append(text.as_str());
        },
        Token::Punct { ch, .. } => {
            push_char(out, *ch);
            proof {
                assert(out@ =~= old(out)@ + render_tok(t@));
            }
        },
        Token::Literal { text, .. } => {
            out.append(text.as_str());
        },
        Token::Group { delim, tokens, .. } => {
            let (oc, cc): (char, char) = match delim {
                Delim::Paren => ('(', ')'),
                Delim::Brace => ('{', '}'),
                Delim::Bracket => ('[', ']'),
            };
            push_char(out, oc);
            if tokens.len() > 0 {
                push_char(out, ' ');
                render_tokens_onto(tokens, out);
                push_char(out, ' ');
            }
            push_char(out, cc);
            proof {
                assert(out@ =~= old(out)@ + render_tok(t@));
            }
        },
    }
}

/// Appends a token sequence's canonical text, one space between tokens.
fn render_tokens_onto(v: &Vec<Token>, out: &mut String)
    ensures
        final(out)@ == old(out)@ + render_toks(view_tokens(v@)),
    decreases *v,
{
    proof {
        lemma_view_all(v@);
        assert(old(out)@ + render_upto(view_tokens(v@), 0) =~= old(out)@);
    }
    let mut i: usize = 0;
    while i < v.len()
        invariant
            i <= v@.len(),
            view_tokens(v@).len() == v@.len(),
            forall|j: int|
                0 <= j < v@.len() ==> view_tokens(v@)[j] == view_token(#[trigger] v@[j]),
            out@ == old(out)@ + render_upto(view_tokens(v@), i as int),
        decreases v@.len() - i,
    {
        if i > 0 {
            push_char(out, ' ');
        }
        render_token_onto(&v[i], out);
        proof {
            lemma_render_upto_step(view_tokens(v@), i as int);
            assert(out@ =~= old(out)@ + render_upto(view_tokens(v@), i + 1));
        }
        i = i + 1;
    }
    proof {
        lemma_render_upto_all(view_tokens(v@));
    }
}

/// The canonical text of the first `k` tokens of a stream.
pub open spec fn render_upto(s: Seq<Tok>, k: int) -> Seq<char>
    decreases k,
{
    if k <= 0 {
        Seq::empty()
    } else if k == 1 {
        render_tok(s[0])
    } else {
        render_upto(s, k - 1) + seq![' '] + render_tok(s[k - 1])
    }
}

pub proof fn lemma_render_upto_step(s: Seq<Tok>, k: int)
    requires
        0 <= k,
    ensures
        k == 0 ==> render_upto(s, k + 1) == render_tok(s[0]),
        k > 0 ==> render_upto(s, k + 1) == render_upto(s, k) + seq![' '] + render_tok(s[k]),
{
}

/// The text of the whole stream is the text of all its tokens.
pub proof fn lemma_render_upto_all(s: Seq<Tok>)
    ensures
        render_toks(s) == render_upto(s, s.len() as int),
    decreases s.len(),
{
    if s.len() > 1 {
        let t = s.subrange(1, s.len() as int);
        lemma_render_upto_all(t);
        lemma_render_shift(s, t, s.len() as int - 1);
        assert(render_toks(s) =~= render_upto(s, s.len() as int));
    }
}

/// `render_upto` over a suffix, shifted by one position.
proof fn lemma_render_shift(s: Seq<Tok>, t: Seq<Tok>, k: int)
    requires
        1 <= s.len(),
        t == s.subrange(1, s.len() as int),
        0 <= k <= t.len(),
    ensures
        k >= 1 ==> render_tok(s[0]) + seq![' '] + render_upto(t, k) == render_upto(s, k + 1),
    decreases k,
{
    if k > 1 {
        lemma_render_shift(s, t, k - 1);
        assert(t[k - 1] == s[k]);
        assert(render_upto(t, k) == render_upto(t, k - 1) + seq![' '] + render_tok(t[k - 1]));
        assert(render_upto(s, k + 1) == render_upto(s, k) + seq![' '] + render_tok(s[k]));
        assert(render_tok(s[0]) + seq![' '] + render_upto(t, k) =~= render_upto(s, k + 1));
    } else if k == 1 {
        assert(t[0] == s[1]);
        assert(render_upto(t, 1) == render_tok(t[0]));
        assert(render_upto(s, 1) == render_tok(s[0]));
        assert(render_upto(s, 2) == render_upto(s, 1) + seq![' '] + render_tok(s[1]));
        assert(render_tok(s[0]) + seq![' '] + render_upto(t, 1) =~= render_upto(s, 2));
    }
}

/// The canonical text of a token stream, as the host would print it: the
/// emitted code in one line, tokens separated by single spaces.
pub fn render(tokens: &Vec<Token>) -> (r: String)
    ensures
        r@ == render_toks(view_tokens(tokens@)),
{
    let mut out = String::new();
    render_tokens_onto(tokens, &mut out);
    proof {
        assert(out@ =~= render_toks(view_tokens(tokens@)));
    }
    out
}

} // verus!
