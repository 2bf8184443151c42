use crate::arg::Arg;
use crate::input::{spec_fields, FieldV, Input};
use crate::token::{deep_clone_tokens, lemma_view_all, lemma_view_tokens_concat, view_token,
    view_tokens, Delim, Span, Tok, Token};
use vstd::prelude::*;

verus! {

/// The tokens of one stub method: the member's name and return type kept,
/// the parameters and the body dropped.
pub open spec fn stub_toks(f: FieldV) -> Seq<Tok> {
    let head = seq![
        Tok::Ident { text: "fn"@, span: f.name_span },
        Tok::Ident { text: f.name, span: f.name_span },
        Tok::Group { delim: Delim::Paren, toks: Seq::empty(), span: f.name_span },
    ];
    let ret = match f.output {
        Option::None => Seq::<Tok>::empty(),
        Option::Some(t) => seq![
            Tok::Punct { ch: '-', span: f.name_span },
            Tok::Punct { ch: '>', span: f.name_span },
        ] + t,
    };
    head + ret + seq![Tok::Group { delim: Delim::Brace, toks: Seq::empty(), span: f.name_span }]
}

/// The stub tokens of the first `k` fields, concatenated in order.
pub open spec fn stubs_upto(fs: Seq<FieldV>, k: int) -> Seq<Tok>
    decreases k,
{
    if k <= 0 {
        Seq::empty()
    } else {
        stubs_upto(fs, k - 1) + stub_toks(fs[k - 1])
    }
}

/// The emitted stream: the original interface unchanged, then one
/// implementation block naming the interface and the target, holding one
/// stub per member in declaration order.
pub open spec fn emit_spec(s: Seq<Tok>, target: Seq<char>, tspan: Span) -> Seq<Tok> {
    s + seq![
        Tok::Ident { text: "impl"@, span: tspan },
        Tok::Ident { text: s[0].ident_text(), span: s[0].span() },
        Tok::Ident { text: "for"@, span: tspan },
        Tok::Ident { text: target, span: tspan },
        Tok::Group {
            delim: Delim::Brace,
            toks: stubs_upto(spec_fields(s), spec_fields(s).len() as int),
            span: tspan,
        },
    ]
}

/// The tokens of the stub generated for one field.
fn make_stub(f: &crate::input::Field) -> (r: Vec<Token>)
    ensures
        view_tokens(r@) == stub_toks(f@),
{
    let nsp = f.name_span;
    let mut r: Vec<Token> = Vec::new();
    r.push(Token::Ident { text: "fn".to_owned(), span: nsp });
    r.push(Token::Ident { text: f.name.clone(), span: nsp });
    r.push(Token::Group { delim: Delim::Paren, tokens: Vec::new(), span: nsp });
    match &f.output {
        Option::Some(ts) => {
            r.push(Token::Punct { ch: '-', span: nsp });
            r.push(Token::Punct { ch: '>', span: nsp });
            let mut tail = deep_clone_tokens(ts);
            proof {
                lemma_view_all(tail@);
                lemma_view_all(ts@);
            }
            r.append(&mut tail);
        },
        Option::None => {},
    }
    r.push(Token::Group { delim: Delim::Brace, tokens: Vec::new(), span: nsp });
    proof {
        lemma_view_all(r@);
        assert(view_tokens(Seq::<Token>::empty()) =~= Seq::<Tok>::empty());
        crate::token::lemma_view_tokens_is(r@, stub_toks(f@));
    }
    r
}

/// Renders the implementation block for a validated interface and target:
/// the interface re-emitted verbatim, then `impl NAME for TARGET { ... }`
/// with one stub per member. A pure function of its two models: equal
/// models give equal output.
pub fn make(input: &Input, arg: &Arg) -> (r: Vec<Token>)
    requires
        input.wf(),
    ensures
        view_tokens(r@) == emit_spec(input.raw_view(), arg.name_view(), arg.span_view()),
{
    let ghost sv = input.raw_view();
    let ghost fs = spec_fields(sv);
    let fields = input.fields();
    let mut stubs: Vec<Token> = Vec::new();
    let mut i: usize = 0;
    proof {
        assert(view_tokens(Seq::<Token>::empty()) =~= Seq::<Tok>::empty());
    }
    while i < fields.len()
        invariant
            input.wf(),
            sv == input.raw_view(),
            fs == spec_fields(sv),
            i <= fields@.len(),
            fields@.len() == fs.len(),
            forall|j: int| 0 <= j < fields@.len() ==> (#[trigger] fields@[j])@ == fs[j],
            view_tokens(stubs@) == stubs_upto(fs, i as int),
        decreases fields@.len() - i,
    {
        let mut sv2 = make_stub(&fields[i]);
        proof {
            lemma_view_tokens_concat(stubs@, sv2@);
        }
        stubs.append(&mut sv2);
        i = i + 1;
    }
    let raw = input.get_all();
    proof {
        lemma_view_all(raw@);
    }
    let mut out: Vec<Token> = deep_clone_tokens(raw);
    proof {
        lemma_view_all(out@);
    }
    let name_tok = raw[0].deep_clone();
    let ghost base = out@;
    out.push(Token::Ident { text: "impl".to_owned(), span: arg.get_span() });
    out.push(name_tok);
    out.push(Token::Ident { text: "for".to_owned(), span: arg.get_span() });
    out.push(Token::Ident { text: arg.get_name().clone(), span: arg.get_span() });
    out.push(Token::Group { delim: Delim::Brace, tokens: stubs, span: arg.get_span() });
    proof {
        let target = emit_spec(sv, arg.name_view(), arg.span_view());
        lemma_view_all(base);
        assert(out@ =~= base + seq![
            out@[base.len() as int],
            out@[base.len() as int + 1],
            out@[base.len() as int + 2],
            out@[base.len() as int + 3],
            out@[base.len() as int + 4],
        ]);
        assert(sv[0] is Ident);
        assert(view_token(name_tok) == sv[0]);
        assert forall|j: int| 0 <= j < out@.len() implies view_token(#[trigger] out@[j])
            == target[j] by {
            if j < sv.len() {
                assert(out@[j] == base[j]);
                assert(view_token(base[j]) == view_tokens(base)[j]);
            }
        }
        crate::token::lemma_view_tokens_is(out@, target);
    }
    out
}

/// Emission is deterministic, hence idempotent: the emitted stream is a
/// function of the validated models alone, so two emissions from the same
/// interface and target are identical.
pub proof fn lemma_emit_deterministic(
    r1: Seq<Tok>,
    r2: Seq<Tok>,
    s: Seq<Tok>,
    target: Seq<char>,
    tspan: Span,
)
    requires
        r1 == emit_spec(s, target, tspan),
        r2 == emit_spec(s, target, tspan),
    ensures
        r1 == r2,
{
}

/// The emitted stream keeps the whole interface unchanged, and the
/// implementation block right after it names exactly the supplied
/// interface and exactly the supplied target: `impl`, the interface name,
/// `for`, the target identifier, then the stub block.
pub proof fn lemma_emit_names(s: Seq<Tok>, target: Seq<char>, tspan: Span)
    ensures
        emit_spec(s, target, tspan).len() == s.len() + 5,
        emit_spec(s, target, tspan).subrange(0, s.len() as int) == s,
        emit_spec(s, target, tspan)[s.len() as int].is_ident_with("impl"@),
        emit_spec(s, target, tspan)[s.len() as int + 1].is_ident_with(s[0].ident_text()),
        emit_spec(s, target, tspan)[s.len() as int + 2].is_ident_with("for"@),
        emit_spec(s, target, tspan)[s.len() as int + 3].is_ident_with(target),
        emit_spec(s, target, tspan)[s.len() as int + 4].is_group_with(Delim::Brace),
{
    assert(emit_spec(s, target, tspan).subrange(0, s.len() as int) =~= s);
}

} // verus!
