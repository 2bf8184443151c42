use crate::error::{ParseError, ParseErrorKind};
use crate::token::{clone_range, lemma_view_all, spec_join_span, tok_is_ident, tok_is_ident_with,
    tok_is_paren_group, tok_is_punct_with, view_token, view_tokens, Delim, Span, Tok, Token};
use vstd::prelude::*;

verus! {

// ---------------------------------------------------------------------------
// The interface grammar, at the specification level.
//
// An interface stream is `NAME '{' MEMBER* '}'`; a member is
// `'fn' NAME '(' RECEIVER (',' PARAM)* ')' ('->' TYPE)? ';'`.
// Members are the runs of body tokens that end at each top-level `';'`;
// a trailing run without `';'` counts as one (malformed) member.
// ---------------------------------------------------------------------------

/// The length of the first member of a body: everything up to and including
/// the first top-level `';'`, or the whole body when no `';'` remains.
pub open spec fn member_len(s: Seq<Tok>) -> int
    decreases s.len(),
{
    if s.len() == 0 {
        0
    } else if s[0].is_punct_with(';') {
        1
    } else {
        1 + member_len(s.subrange(1, s.len() as int))
    }
}

pub proof fn lemma_member_len_bounds(s: Seq<Tok>)
    ensures
        s.len() > 0 ==> 1 <= member_len(s) <= s.len(),
        s.len() == 0 ==> member_len(s) == 0,
    decreases s.len(),
{
    if s.len() > 0 && !s[0].is_punct_with(';') {
        lemma_member_len_bounds(s.subrange(1, s.len() as int));
    }
}

/// `member_len` in closed form: `n` is the length of the first member iff
/// no `';'` stands before position `n - 1` and position `n - 1` either is a
/// `';'` or ends the body.
pub proof fn lemma_member_len_is(s: Seq<Tok>, n: int)
    requires
        1 <= n <= s.len(),
        forall|j: int| 0 <= j < n - 1 ==> !(#[trigger] s[j]).is_punct_with(';'),
        s[n - 1].is_punct_with(';') || n == s.len(),
    ensures
        member_len(s) == n,
    decreases n,
{
    if n == 1 {
        if !s[0].is_punct_with(';') {
            assert(s.len() == 1);
            lemma_member_len_bounds(s.subrange(1, s.len() as int));
        }
    } else {
        assert(!s[0].is_punct_with(';'));
        let t = s.subrange(1, s.len() as int);
        assert(forall|j: int| 0 <= j < n - 2 ==> !(#[trigger] t[j]).is_punct_with(';'));
        assert(t[n - 2] == s[n - 1]);
        lemma_member_len_is(t, n - 1);
    }
}

/// The members of a body, in order: split at each `';'`, the separator kept
/// at the end of its member.
pub open spec fn split_members(s: Seq<Tok>) -> Seq<Seq<Tok>>
    decreases s.len(),
{
    if s.len() == 0 {
        Seq::empty()
    } else {
        let n = member_len(s);
        if 1 <= n <= s.len() {
            seq![s.subrange(0, n)] + split_members(s.subrange(n, s.len() as int))
        } else {
            seq![s]
        }
    }
}

/// Whether one member has the shape of a method signature:
/// `'fn' NAME '(' ... ')'`, an optional `'->' TYPE` clause with at least one
/// type token, and the closing `';'`.
pub open spec fn member_is_method(m: Seq<Tok>) -> bool {
    &&& m.len() >= 4
    &&& m[0].is_ident_with("fn"@)
    &&& m[1] is Ident
    &&& m[2].is_group_with(Delim::Paren)
    &&& m[m.len() - 1].is_punct_with(';')
    &&& (m.len() == 4 || (m.len() >= 7 && m[3].is_punct_with('-') && m[4].is_punct_with('>')))
}

/// The length of the first parameter of a parameter list: everything before
/// the first top-level `','`, or the whole list when no `','` occurs.
pub open spec fn first_param_len(s: Seq<Tok>) -> int
    decreases s.len(),
{
    if s.len() == 0 {
        0
    } else if s[0].is_punct_with(',') {
        0
    } else {
        1 + first_param_len(s.subrange(1, s.len() as int))
    }
}

pub proof fn lemma_first_param_len_bounds(s: Seq<Tok>)
    ensures
        0 <= first_param_len(s) <= s.len(),
    decreases s.len(),
{
    if s.len() > 0 && !s[0].is_punct_with(',') {
        lemma_first_param_len_bounds(s.subrange(1, s.len() as int));
    }
}

/// `first_param_len` in closed form.
pub proof fn lemma_first_param_len_is(s: Seq<Tok>, n: int)
    requires
        0 <= n <= s.len(),
        forall|j: int| 0 <= j < n ==> !(#[trigger] s[j]).is_punct_with(','),
        n == s.len() || s[n].is_punct_with(','),
    ensures
        first_param_len(s) == n,
    decreases n + 1,
{
    if s.len() == 0 {
    } else if n == 0 {
    } else {
        let t = s.subrange(1, s.len() as int);
        assert(forall|j: int| 0 <= j < n - 1 ==> #[trigger] t[j] == s[j + 1]);
        if n < s.len() {
            assert(t[n - 1] == s[n]);
        }
        lemma_first_param_len_is(t, n - 1);
    }
}

/// The first parameter of a parameter list.
pub open spec fn first_param(s: Seq<Tok>) -> Seq<Tok> {
    s.subrange(0, first_param_len(s))
}

/// Whether a parameter is structurally a receiver: `self`, `mut self`,
/// `&self` or `&mut self`.
pub open spec fn is_receiver(p: Seq<Tok>) -> bool {
    ||| (p.len() == 1 && p[0].is_ident_with("self"@))
    ||| (p.len() == 2 && p[0].is_ident_with("mut"@) && p[1].is_ident_with("self"@))
    ||| (p.len() == 2 && p[0].is_punct_with('&') && p[1].is_ident_with("self"@))
    ||| (p.len() == 3 && p[0].is_punct_with('&') && p[1].is_ident_with("mut"@)
        && p[2].is_ident_with("self"@))
}

/// Whether a method member's first parameter exists and is a receiver.
pub open spec fn member_has_receiver(m: Seq<Tok>) -> bool
    recommends
        member_is_method(m),
{
    let params = m[2].group_toks();
    first_param_len(params) > 0 && is_receiver(first_param(params))
}

/// The range reported for a method member without a receiver: its first
/// parameter when one is present, the whole member otherwise.
pub open spec fn static_span(m: Seq<Tok>) -> Span
    recommends
        member_is_method(m),
{
    let p = first_param(m[2].group_toks());
    if p.len() > 0 {
        spec_join_span(p)
    } else {
        spec_join_span(m)
    }
}

/// The index of the first member that is not a method signature, or the
/// member count when every member is one.
pub open spec fn first_non_method(ms: Seq<Seq<Tok>>) -> int
    decreases ms.len(),
{
    if ms.len() == 0 {
        0
    } else if !member_is_method(ms[0]) {
        0
    } else {
        1 + first_non_method(ms.subrange(1, ms.len() as int))
    }
}

/// The index of the first member without a receiver, or the member count.
pub open spec fn first_no_receiver(ms: Seq<Seq<Tok>>) -> int
    decreases ms.len(),
{
    if ms.len() == 0 {
        0
    } else if !member_has_receiver(ms[0]) {
        0
    } else {
        1 + first_no_receiver(ms.subrange(1, ms.len() as int))
    }
}

/// Whether the stream has the outer interface shape: a name, then one
/// brace-delimited body, and nothing else.
pub open spec fn interface_shape_ok(s: Seq<Tok>) -> bool {
    s.len() == 2 && s[0] is Ident && s[1].is_group_with(Delim::Brace)
}

/// The members of an interface stream of valid shape.
pub open spec fn interface_members(s: Seq<Tok>) -> Seq<Seq<Tok>> {
    split_members(s[1].group_toks())
}

/// What validating a brace body yields, by the rules in order: a non-empty
/// member list (range: the whole body), every member a method signature
/// (range: the first offender), and every method's first parameter a
/// receiver (range: that parameter, or the member when no parameter is
/// present). `None` means the body is valid.
pub open spec fn body_outcome(bodyv: Seq<Tok>, body_span: Span) -> Option<ParseError> {
    let ms = split_members(bodyv);
    if ms.len() == 0 {
        Some(ParseError { kind: ParseErrorKind::EmptyInterface, span: body_span })
    } else if first_non_method(ms) < ms.len() {
        Some(
            ParseError {
                kind: ParseErrorKind::NonMethodMember,
                span: spec_join_span(ms[first_non_method(ms)]),
            },
        )
    } else if first_no_receiver(ms) < ms.len() {
        Some(
            ParseError {
                kind: ParseErrorKind::StaticMethodMember,
                span: static_span(ms[first_no_receiver(ms)]),
            },
        )
    } else {
        None
    }
}

/// What validating an interface stream yields: first the outer shape (range
/// on failure: the whole stream), then the body rules. `None` means the
/// stream is a fully valid interface.
pub open spec fn interface_outcome(s: Seq<Tok>, whole: Span) -> Option<ParseError> {
    if !interface_shape_ok(s) {
        Some(ParseError { kind: ParseErrorKind::NotInterface, span: whole })
    } else {
        body_outcome(s[1].group_toks(), s[1].span())
    }
}

/// A fully valid interface: outer shape, at least one member, every member
/// a method signature whose first parameter is a receiver.
pub open spec fn valid_interface(s: Seq<Tok>) -> bool {
    &&& interface_shape_ok(s)
    &&& interface_members(s).len() > 0
    &&& forall|i: int|
        0 <= i < interface_members(s).len() ==> member_is_method(
            #[trigger] interface_members(s)[i],
        ) && member_has_receiver(interface_members(s)[i])
}

pub proof fn lemma_first_non_method_all(ms: Seq<Seq<Tok>>)
    ensures
        0 <= first_non_method(ms) <= ms.len(),
        first_non_method(ms) == ms.len() <==> forall|i: int|
            0 <= i < ms.len() ==> member_is_method(#[trigger] ms[i]),
        first_non_method(ms) < ms.len() ==> !member_is_method(ms[first_non_method(ms)])
            && forall|i: int| 0 <= i < first_non_method(ms) ==> member_is_method(#[trigger] ms[i]),
    decreases ms.len(),
{
    if ms.len() > 0 && member_is_method(ms[0]) {
        lemma_first_non_method_all(ms.subrange(1, ms.len() as int));
        assert(forall|i: int|
            1 <= i < ms.len() ==> ms.subrange(1, ms.len() as int)[i - 1] == #[trigger] ms[i]);
    }
}

pub proof fn lemma_first_no_receiver_all(ms: Seq<Seq<Tok>>)
    ensures
        0 <= first_no_receiver(ms) <= ms.len(),
        first_no_receiver(ms) == ms.len() <==> forall|i: int|
            0 <= i < ms.len() ==> member_has_receiver(#[trigger] ms[i]),
        first_no_receiver(ms) < ms.len() ==> !member_has_receiver(ms[first_no_receiver(ms)])
            && forall|i: int|
            0 <= i < first_no_receiver(ms) ==> member_has_receiver(#[trigger] ms[i]),
    decreases ms.len(),
{
    if ms.len() > 0 && member_has_receiver(ms[0]) {
        lemma_first_no_receiver_all(ms.subrange(1, ms.len() as int));
        assert(forall|i: int|
            1 <= i < ms.len() ==> ms.subrange(1, ms.len() as int)[i - 1] == #[trigger] ms[i]);
    }
}

/// For every non-empty interface whose members are all instance methods
/// with a receiver parameter, validation succeeds, and the derived fields
/// are one per member, in declaration order, each under its member's own
/// name.
pub proof fn lemma_valid_interface_accepted(s: Seq<Tok>, whole: Span)
    requires
        interface_shape_ok(s),
        interface_members(s).len() > 0,
        forall|i: int|
            0 <= i < interface_members(s).len() ==> member_is_method(
                #[trigger] interface_members(s)[i],
            ) && member_has_receiver(interface_members(s)[i]),
    ensures
        interface_outcome(s, whole) is None,
        spec_fields(s).len() == interface_members(s).len(),
        forall|i: int|
            0 <= i < spec_fields(s).len() ==> (#[trigger] spec_fields(s)[i]) == field_of(
                interface_members(s)[i],
            ),
        forall|i: int|
            0 <= i < spec_fields(s).len() ==> (#[trigger] spec_fields(s)[i]).name
                == interface_members(s)[i][1].ident_text(),
{
    lemma_outcome_none_iff_valid(s, whole);
}

/// Validation succeeds exactly on the fully valid interfaces.
pub proof fn lemma_outcome_none_iff_valid(s: Seq<Tok>, whole: Span)
    ensures
        interface_outcome(s, whole) is None <==> valid_interface(s),
{
    if interface_shape_ok(s) {
        let ms = interface_members(s);
        lemma_first_non_method_all(ms);
        lemma_first_no_receiver_all(ms);
    }
}

/// One step of member splitting: the first member of the suffix starting at
/// `start`, followed by the members of the rest.
pub proof fn lemma_split_step(bodyv: Seq<Tok>, start: int, n: int)
    requires
        0 <= start < bodyv.len(),
        n == member_len(bodyv.subrange(start, bodyv.len() as int)),
    ensures
        1 <= n <= bodyv.len() - start,
        split_members(bodyv.subrange(start, bodyv.len() as int)) == seq![
            bodyv.subrange(start, start + n),
        ] + split_members(bodyv.subrange(start + n, bodyv.len() as int)),
{
    let suffix = bodyv.subrange(start, bodyv.len() as int);
    lemma_member_len_bounds(suffix);
    assert(suffix.subrange(0, n) =~= bodyv.subrange(start, start + n));
    assert(suffix.subrange(n, suffix.len() as int) =~= bodyv.subrange(
        start + n,
        bodyv.len() as int,
    ));
}

/// The first member's length, scanning the body from `start`.
fn scan_member_len(body: &Vec<Token>, start: usize) -> (n: usize)
    requires
        start < body@.len(),
    ensures
        1 <= n <= body@.len() - start,
        member_len(view_tokens(body@).subrange(start as int, body@.len() as int)) == n,
{
    proof {
        lemma_view_all(body@);
    }
    let ghost suffix = view_tokens(body@).subrange(start as int, body@.len() as int);
    let mut i: usize = start;
    while i < body.len()
        invariant
            start <= i <= body@.len(),
            start < body@.len(),
            suffix == view_tokens(body@).subrange(start as int, body@.len() as int),
            view_tokens(body@).len() == body@.len(),
            forall|j: int|
                0 <= j < body@.len() ==> view_tokens(body@)[j] == view_token(#[trigger] body@[j]),
            forall|j: int|
                start <= j < i ==> !(#[trigger] view_tokens(body@)[j]).is_punct_with(';'),
        decreases body@.len() - i,
    {
        if tok_is_punct_with(&body[i], ';') {
            let n: usize = i + 1 - start;
            proof {
                lemma_member_len_is(suffix, n as int);
            }
            return n;
        }
        i = i + 1;
    }
    let n: usize = body.len() - start;
    proof {
        lemma_member_len_is(suffix, n as int);
    }
    n
}

/// The first parameter's length, scanning a parameter list for `','`.
fn scan_first_param_len(params: &Vec<Token>) -> (n: usize)
    ensures
        n <= params@.len(),
        first_param_len(view_tokens(params@)) == n,
{
    proof {
        lemma_view_all(params@);
    }
    let mut i: usize = 0;
    while i < params.len()
        invariant
            i <= params@.len(),
            view_tokens(params@).len() == params@.len(),
            forall|j: int|
                0 <= j < params@.len() ==> view_tokens(params@)[j] == view_token(
                    #[trigger] params@[j],
                ),
            forall|j: int|
                0 <= j < i ==> !(#[trigger] view_tokens(params@)[j]).is_punct_with(','),
        decreases params@.len() - i,
    {
        if tok_is_punct_with(&params[i], ',') {
            proof {
                lemma_first_param_len_is(view_tokens(params@), i as int);
            }
            return i;
        }
        i = i + 1;
    }
    proof {
        lemma_first_param_len_is(view_tokens(params@), params@.len() as int);
    }
    params.len()
}

/// Whether the member at `[start, start + n)` is a method signature.
fn check_method(body: &Vec<Token>, start: usize, n: usize) -> (r: bool)
    requires
        1 <= n,
        start + n <= body@.len(),
    ensures
        r == member_is_method(view_tokens(body@).subrange(start as int, (start + n) as int)),
{
    proof {
        lemma_view_all(body@);
    }
    let len = body.len();
    let ghost m = view_tokens(body@).subrange(start as int, (start + n) as int);
    if n < 4 {
        return false;
    }
    let r: bool = tok_is_ident_with(&body[start], "fn") && tok_is_ident(&body[start + 1])
        && tok_is_paren_group(&body[start + 2]) && tok_is_punct_with(&body[start + n - 1], ';')
        && (n == 4 || (n >= 7 && tok_is_punct_with(&body[start + 3], '-') && tok_is_punct_with(
        &body[start + 4],
        '>',
    )));
    r
}

/// Whether a parameter list begins with a receiver parameter.
fn check_receiver(params: &Vec<Token>) -> (r: bool)
    ensures
        r == (first_param_len(view_tokens(params@)) > 0 && is_receiver(
            first_param(view_tokens(params@)),
        )),
{
    proof {
        lemma_view_all(params@);
        lemma_first_param_len_bounds(view_tokens(params@));
    }
    let n = scan_first_param_len(params);
    if n == 1 {
        tok_is_ident_with(&params[0], "self")
    } else if n == 2 {
        (tok_is_ident_with(&params[0], "mut") || tok_is_punct_with(&params[0], '&'))
            && tok_is_ident_with(&params[1], "self")
    } else if n == 3 {
        tok_is_punct_with(&params[0], '&') && tok_is_ident_with(&params[1], "mut")
            && tok_is_ident_with(&params[2], "self")
    } else {
        false
    }
}

/// The source range of the body tokens `[start, end)`.
fn join_range_span(body: &Vec<Token>, start: usize, end: usize) -> (r: Span)
    requires
        start < end,
        end <= body@.len(),
    ensures
        r == spec_join_span(view_tokens(body@).subrange(start as int, end as int)),
{
    proof {
        lemma_view_all(body@);
    }
    Span { lo: body[start].span().lo, hi: body[end - 1].span().hi }
}

/// Validates a brace body against the member rules, in two passes: first
/// every member must be a method signature, then every method's first
/// parameter must be a receiver.
fn validate_body(body: &Vec<Token>, body_span: Span) -> (r: Option<ParseError>)
    ensures
        r == body_outcome(view_tokens(body@), body_span),
{
    proof {
        lemma_view_all(body@);
    }
    let ghost bodyv = view_tokens(body@);
    let ghost ms = split_members(bodyv);
    if body.len() == 0 {
        proof {
            assert(bodyv =~= Seq::<Tok>::empty());
        }
        return Some(ParseError::new(ParseErrorKind::EmptyInterface, body_span));
    }
    proof {
        lemma_member_len_bounds(bodyv);
        assert(ms.len() > 0);
        assert(bodyv.subrange(0, bodyv.len() as int) =~= bodyv);
        assert(ms.subrange(0, ms.len() as int) =~= ms);
    }
    // Every member must be a method signature.
    let mut start: usize = 0;
    let ghost mut k: int = 0;
    while start < body.len()
        invariant
            0 <= start <= body@.len(),
            0 <= k <= ms.len(),
            bodyv == view_tokens(body@),
            ms == split_members(bodyv),
            bodyv.len() == body@.len(),
            split_members(bodyv.subrange(start as int, bodyv.len() as int)) == ms.subrange(
                k,
                ms.len() as int,
            ),
            forall|i: int| 0 <= i < k ==> member_is_method(#[trigger] ms[i]),
        decreases body@.len() - start,
    {
        let n = scan_member_len(body, start);
        proof {
            lemma_split_step(bodyv, start as int, n as int);
            assert(ms.subrange(k, ms.len() as int).len() >= 1);
            assert(k < ms.len());
            assert(ms.subrange(k, ms.len() as int)[0] == bodyv.subrange(
                start as int,
                start as int + n,
            ));
            assert(ms[k] == bodyv.subrange(start as int, start as int + n));
        }
        if !check_method(body, start, n) {
            proof {
                lemma_first_non_method_all(ms);
                let f = first_non_method(ms);
                if f < k {
                    assert(member_is_method(ms[f]));
                    assert(false);
                }
                if f > k {
                    assert(member_is_method(ms[k]));
                    assert(false);
                }
            }
            let sp = join_range_span(body, start, start + n);
            return Some(ParseError::new(ParseErrorKind::NonMethodMember, sp));
        }
        proof {
            assert(ms.subrange(k, ms.len() as int).subrange(1, ms.len() as int - k) =~= ms.subrange(
                k + 1,
                ms.len() as int,
            ));
            assert(split_members(bodyv.subrange(start as int + n, bodyv.len() as int))
                =~= ms.subrange(k + 1, ms.len() as int));
            k = k + 1;
        }
        start = start + n;
    }
    proof {
        assert(bodyv.subrange(start as int, bodyv.len() as int) =~= Seq::<Tok>::empty());
        assert(ms.subrange(k, ms.len() as int).len() == 0);
        assert(k == ms.len());
        lemma_first_non_method_all(ms);
        assert(first_non_method(ms) == ms.len());
    }
    proof {
        assert(bodyv.subrange(0, bodyv.len() as int) =~= bodyv);
        assert(ms.subrange(0, ms.len() as int) =~= ms);
    }
    // Every method's first parameter must be a receiver.
    let mut start2: usize = 0;
    let ghost mut k2: int = 0;
    while start2 < body.len()
        invariant
            0 <= start2 <= body@.len(),
            0 <= k2 <= ms.len(),
            bodyv == view_tokens(body@),
            ms == split_members(bodyv),
            bodyv.len() == body@.len(),
            first_non_method(ms) == ms.len(),
            forall|i: int| 0 <= i < ms.len() ==> member_is_method(#[trigger] ms[i]),
            split_members(bodyv.subrange(start2 as int, bodyv.len() as int)) == ms.subrange(
                k2,
                ms.len() as int,
            ),
            forall|i: int| 0 <= i < k2 ==> member_has_receiver(#[trigger] ms[i]),
        decreases body@.len() - start2,
    {
        let n = scan_member_len(body, start2);
        proof {
            lemma_view_all(body@);
            lemma_split_step(bodyv, start2 as int, n as int);
            assert(ms.subrange(k2, ms.len() as int).len() >= 1);
            assert(k2 < ms.len());
            assert(ms.subrange(k2, ms.len() as int)[0] == bodyv.subrange(
                start2 as int,
                start2 as int + n,
            ));
            assert(ms[k2] == bodyv.subrange(start2 as int, start2 as int + n));
            assert(member_is_method(ms[k2]));
            assert(ms[k2][2] == view_token(body@[start2 as int + 2]));
        }
        match &body[start2 + 2] {
            Token::Group { delim: Delim::Paren, tokens: params, .. } => {
                proof {
                    assert(ms[k2][2].group_toks() == view_tokens(params@));
                }
                if !check_receiver(params) {
                    proof {
                        lemma_first_no_receiver_all(ms);
                        let f = first_no_receiver(ms);
                        if f < k2 {
                            assert(member_has_receiver(ms[f]));
                            assert(false);
                        }
                        if f > k2 {
                            assert(member_has_receiver(ms[k2]));
                            assert(false);
                        }
                    }
                    let fl = scan_first_param_len(params);
                    if fl > 0 {
                        proof {
                            lemma_view_all(params@);
                        }
                        let lo = params[0].span().lo;
                        let hi = params[fl - 1].span().hi;
                        return Some(
                            ParseError::new(ParseErrorKind::StaticMethodMember, Span { lo, hi }),
                        );
                    } else {
                        let sp = join_range_span(body, start2, start2 + n);
                        return Some(ParseError::new(ParseErrorKind::StaticMethodMember, sp));
                    }
                }
            },
            _ => {
                proof {
                    assert(ms[k2][2].is_group_with(Delim::Paren));
                    assert(false);
                }
            },
        }
        proof {
            assert(ms.subrange(k2, ms.len() as int).subrange(1, ms.len() as int - k2)
                =~= ms.subrange(k2 + 1, ms.len() as int));
            assert(split_members(bodyv.subrange(start2 as int + n, bodyv.len() as int))
                =~= ms.subrange(k2 + 1, ms.len() as int));
            k2 = k2 + 1;
        }
        start2 = start2 + n;
    }
    proof {
        assert(bodyv.subrange(start2 as int, bodyv.len() as int) =~= Seq::<Tok>::empty());
        assert(ms.subrange(k2, ms.len() as int).len() == 0);
        assert(k2 == ms.len());
        lemma_first_no_receiver_all(ms);
        assert(first_no_receiver(ms) == ms.len());
    }
    None
}

/// A derived view of one qualifying member: its name, its optional return
/// type clause, and its parameters after the receiver. Computed on demand,
/// in declaration order.
#[derive(Debug, PartialEq, Eq)]
pub struct Field {
    pub name: String,
    pub name_span: Span,
    pub output: Option<Vec<Token>>,
    pub args: Vec<Token>,
}

/// The mathematical value of a `Field`.
pub struct FieldV {
    pub name: Seq<char>,
    pub name_span: Span,
    pub output: Option<Seq<Tok>>,
    pub args: Seq<Tok>,
}

impl View for Field {
    type V = FieldV;

    open spec fn view(&self) -> FieldV {
        FieldV {
            name: self.name@,
            name_span: self.name_span,
            output: match self.output {
                Option::Some(ref v) => Option::Some(view_tokens(v@)),
                Option::None => Option::None,
            },
            args: view_tokens(self.args@),
        }
    }
}

/// The parameters after the receiver: what follows the first `','` of the
/// parameter list, or nothing when no `','` occurs.
pub open spec fn rest_params(params: Seq<Tok>) -> Seq<Tok> {
    let fl = first_param_len(params);
    if fl == params.len() {
        Seq::empty()
    } else {
        params.subrange(fl + 1, params.len() as int)
    }
}

/// The derived view of one method member.
pub open spec fn field_of(m: Seq<Tok>) -> FieldV
    recommends
        member_is_method(m),
{
    FieldV {
        name: m[1].ident_text(),
        name_span: m[1].span(),
        output: if m.len() == 4 {
            Option::None
        } else {
            Option::Some(m.subrange(5, m.len() - 1))
        },
        args: rest_params(m[2].group_toks()),
    }
}

/// The fields of a valid interface: one per member, in declaration order.
pub open spec fn spec_fields(s: Seq<Tok>) -> Seq<FieldV> {
    interface_members(s).map_values(|m: Seq<Tok>| field_of(m))
}

/// The validated interface declaration: the parsed token stream, kept
/// verbatim so that it can be re-emitted unchanged.
#[derive(Debug, PartialEq, Eq)]
pub struct Input {
    tokens: Vec<Token>,
}

impl Input {
    /// The whole declaration stream, at the specification level.
    pub closed spec fn raw_view(&self) -> Seq<Tok> {
        view_tokens(self.tokens@)
    }

    /// The declaration is a fully valid interface.
    pub open spec fn wf(&self) -> bool {
        valid_interface(self.raw_view())
    }

    /// Wraps an already validated declaration stream.
    pub fn new(tokens: Vec<Token>) -> (r: Input)
        ensures
            r.raw_view() == view_tokens(tokens@),
    {
        Input { tokens }
    }

    /// The full declaration, re-emitted verbatim, unmodified.
    pub fn get_all(&self) -> (r: &Vec<Token>)
        ensures
            view_tokens(r@) == self.raw_view(),
    {
        &self.tokens
    }

    /// The interface's own name.
    pub fn name(&self) -> (r: &String)
        requires
            self.wf(),
        ensures
            r@ == self.raw_view()[0].ident_text(),
    {
        proof {
            lemma_view_all(self.tokens@);
        }
        match &self.tokens[0] {
            Token::Ident { text, .. } => text,
            _ => vstd::pervasive::unreached(),
        }
    }

    /// The ordered `Field` views of the members, one per qualifying member,
    /// in declaration order.
    pub fn fields(&self) -> (r: Vec<Field>)
        requires
            self.wf(),
        ensures
            r@.len() == spec_fields(self.raw_view()).len(),
            forall|i: int|
                0 <= i < r@.len() ==> (#[trigger] r@[i])@ == spec_fields(self.raw_view())[i],
    {
        proof {
            lemma_view_all(self.tokens@);
        }
        let ghost sv = self.raw_view();
        let ghost ms = interface_members(sv);
        match &self.tokens[1] {
            Token::Group { delim: Delim::Brace, tokens: body, .. } => {
                proof {
                    assert(sv[1].group_toks() == view_tokens(body@));
                    lemma_view_all(body@);
                }
                let ghost bodyv = view_tokens(body@);
                let mut out: Vec<Field> = Vec::new();
                let mut start: usize = 0;
                let ghost mut k: int = 0;
                proof {
                    assert(bodyv.subrange(0, bodyv.len() as int) =~= bodyv);
                    assert(ms.subrange(0, ms.len() as int) =~= ms);
                }
                while start < body.len()
                    invariant
                        self.wf(),
                        0 <= start <= body@.len(),
                        0 <= k <= ms.len(),
                        sv == self.raw_view(),
                        ms == interface_members(sv),
                        sv[1].group_toks() == view_tokens(body@),
                        bodyv == view_tokens(body@),
                        bodyv.len() == body@.len(),
                        forall|j: int|
                            0 <= j < body@.len() ==> view_tokens(body@)[j] == view_token(
                                #[trigger] body@[j],
                            ),
                        split_members(bodyv.subrange(start as int, bodyv.len() as int))
                            == ms.subrange(k, ms.len() as int),
                        out@.len() == k,
                        forall|i: int|
                            0 <= i < k ==> (#[trigger] out@[i])@ == spec_fields(sv)[i],
                    decreases body@.len() - start,
                {
                    let n = scan_member_len(body, start);
                    proof {
                        lemma_split_step(bodyv, start as int, n as int);
                        assert(ms.subrange(k, ms.len() as int).len() >= 1);
                        assert(k < ms.len());
                        assert(ms.subrange(k, ms.len() as int)[0] == bodyv.subrange(
                            start as int,
                            start as int + n,
                        ));
                        assert(ms[k] == bodyv.subrange(start as int, start as int + n));
                        assert(member_is_method(ms[k]));
                    }
                    let ghost m = bodyv.subrange(start as int, start as int + n);
                    let nm: String;
                    let nsp: Span;
                    match &body[start + 1] {
                        Token::Ident { text, span } => {
                            nm = text.clone();
                            nsp = *span;
                        },
                        _ => {
                            proof {
                                assert(m[1] == view_token(body@[start as int + 1]));
                                assert(false);
                            }
                            return vstd::pervasive::unreached();
                        },
                    }
                    let output: Option<Vec<Token>> = if n == 4 {
                        Option::None
                    } else {
                        let o = clone_range(body, start + 5, start + n - 1);
                        proof {
                            assert(m.subrange(5, m.len() - 1) =~= bodyv.subrange(
                                start as int + 5,
                                start as int + n - 1,
                            ));
                        }
                        Option::Some(o)
                    };
                    let args: Vec<Token>;
                    match &body[start + 2] {
                        Token::Group { delim: Delim::Paren, tokens: params, .. } => {
                            proof {
                                assert(m[2] == view_token(body@[start as int + 2]));
                                assert(m[2].group_toks() == view_tokens(params@));
                                lemma_view_all(params@);
                            }
                            let fl = scan_first_param_len(params);
                            if fl == params.len() {
                                args = Vec::new();
                                proof {
                                    assert(view_tokens(Seq::<Token>::empty())
                                        =~= Seq::<Tok>::empty());
                                }
                            } else {
                                args = clone_range(params, fl + 1, params.len());
                            }
                        },
                        _ => {
                            proof {
                                assert(m[2] == view_token(body@[start as int + 2]));
                                assert(false);
                            }
                            return vstd::pervasive::unreached();
                        },
                    }
                    let f = Field { name: nm, name_span: nsp, output, args };
                    proof {
                        assert(f@ == field_of(m));
                        assert(spec_fields(sv)[k] == field_of(ms[k]));
                    }
                    out.push(f);
                    proof {
                        assert(ms.subrange(k, ms.len() as int).subrange(1, ms.len() as int - k)
                            =~= ms.subrange(k + 1, ms.len() as int));
                        assert(split_members(bodyv.subrange(start as int + n, bodyv.len() as int))
                            =~= ms.subrange(k + 1, ms.len() as int));
                        k = k + 1;
                    }
                    start = start + n;
                }
                proof {
                    assert(bodyv.subrange(start as int, bodyv.len() as int)
                        =~= Seq::<Tok>::empty());
                    assert(ms.subrange(k, ms.len() as int).len() == 0);
                    assert(k == ms.len());
                }
                out
            },
            _ => {
                proof {
                    assert(sv[1].is_group_with(Delim::Brace));
                    assert(false);
                }
                vstd::pervasive::unreached()
            },
        }
    }

    /// Parses and validates the interface stream. `stream_span` is the
    /// range of the whole stream, the anchor when the outer shape is wrong.
    pub fn parse(tokens: Vec<Token>, stream_span: Span) -> (r: Result<Input, ParseError>)
        ensures
            match r {
                Ok(inp) => interface_outcome(view_tokens(tokens@), stream_span) is None
                    && inp.wf() && inp.raw_view() == view_tokens(tokens@),
                Err(e) => interface_outcome(view_tokens(tokens@), stream_span) == Some(e),
            },
    {
        proof {
            lemma_view_all(tokens@);
        }
        let ghost sv = view_tokens(tokens@);
        if tokens.len() != 2 {
            return Err(ParseError::new(ParseErrorKind::NotInterface, stream_span));
        }
        if !tok_is_ident(&tokens[0]) {
            return Err(ParseError::new(ParseErrorKind::NotInterface, stream_span));
        }
        let outcome = match &tokens[1] {
            Token::Group { delim: Delim::Brace, tokens: body, span } => {
                proof {
                    assert(sv[1].group_toks() == view_tokens(body@));
                    assert(sv[1].span() == *span);
                }
                validate_body(body, *span)
            },
            _ => {
                return Err(ParseError::new(ParseErrorKind::NotInterface, stream_span));
            },
        };
        match outcome {
            Some(e) => Err(e),
            None => {
                proof {
                    lemma_outcome_none_iff_valid(sv, stream_span);
                }
                Ok(Input { tokens })
            },
        }
    }
}

} // verus!
