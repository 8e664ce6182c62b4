//! The laws of the library, stated and proved over the specification
//! functions that the executable functions are verified against: formatting
//! is idempotent and preserves what a program evaluates to, a builtin short
//! of operands underflows, element-wise shape agreement is enforced with
//! scalar broadcasting, and evaluation is deterministic.

use vstd::prelude::*;
use crate::token::{TokView, TokKind, CharClass, in_class, is_glyph, run_len, lex1, spec_lex,
    lemma_run_len_char, lemma_run_len_le};
use crate::prim::{Prim, arity, glyph_of, glyph_prim, mnemonic_prim, resolve_tok};
use crate::formatter::{fmt_tok, fmt_toks, render, spec_format};
use crate::value::ValView;
use crate::eval::{OpView, EvalErrV, StateV, OutcomeV, is_bin, bin_int, fits_i64, bin_apply,
    splat, step, spec_eval};
use crate::compile::comp;
use crate::host::spec_run_src;

verus! {

/// A builtin finding fewer operands on the stack than its arity always
/// fails with a stack underflow: the stack is never read past its bottom.
pub proof fn lemma_stack_arity(st: StateV, p: Prim)
    requires
        st.stack.len() < arity(p),
    ensures
        step(st, OpView::Call(p)) == Err::<StateV, EvalErrV>(EvalErrV::StackUnderflow),
{
}

/// An element-wise builtin on two arrays of unequal shapes always fails
/// with a shape mismatch naming both shapes, whatever the elements are.
pub proof fn lemma_shape_mismatch(
    p: Prim,
    sha: Seq<usize>,
    ea: Seq<i64>,
    shb: Seq<usize>,
    eb: Seq<i64>,
)
    requires
        is_bin(p),
        sha != shb,
    ensures
        bin_apply(
            p,
            ValView::NumArr { shape: sha, elems: ea },
            ValView::NumArr { shape: shb, elems: eb },
        ) == Err::<ValView, EvalErrV>(EvalErrV::ShapeMismatch { left: sha, right: shb }),
{
}

/// A scalar broadcasts over an array without a shape error: when every
/// element operation stays in range, the result is an array of exactly the
/// array operand's shape, and no input ever yields a shape mismatch.
pub proof fn lemma_scalar_broadcast(p: Prim, x: i64, sh: Seq<usize>, es: Seq<i64>)
    requires
        is_bin(p),
    ensures
        (forall|i: int| 0 <= i < es.len() ==> fits_i64(bin_int(p, x as int, #[trigger] es[i] as int)))
            ==> bin_apply(p, ValView::Num(x), ValView::NumArr { shape: sh, elems: es })
            == Ok::<ValView, EvalErrV>(
            ValView::NumArr {
                shape: sh,
                elems: Seq::new(es.len(), |i: int| bin_int(p, x as int, es[i] as int) as i64),
            },
        ),
        (forall|i: int| 0 <= i < es.len() ==> fits_i64(bin_int(p, #[trigger] es[i] as int, x as int)))
            ==> bin_apply(p, ValView::NumArr { shape: sh, elems: es }, ValView::Num(x))
            == Ok::<ValView, EvalErrV>(
            ValView::NumArr {
                shape: sh,
                elems: Seq::new(es.len(), |i: int| bin_int(p, es[i] as int, x as int) as i64),
            },
        ),
        !(bin_apply(p, ValView::Num(x), ValView::NumArr { shape: sh, elems: es })
            matches Err(e) && e is ShapeMismatch),
        !(bin_apply(p, ValView::NumArr { shape: sh, elems: es }, ValView::Num(x))
            matches Err(e) && e is ShapeMismatch),
{
    let xs = splat(es.len(), x);
    if forall|i: int| 0 <= i < es.len() ==> fits_i64(
        bin_int(p, x as int, #[trigger] es[i] as int),
    ) {
        assert(forall|i: int|
            0 <= i < xs.len() ==> fits_i64(bin_int(p, #[trigger] xs[i] as int, es[i] as int)));
        assert(Seq::new(xs.len(), |i: int| bin_int(p, xs[i] as int, es[i] as int) as i64)
            =~= Seq::new(es.len(), |i: int| bin_int(p, x as int, es[i] as int) as i64));
    }
    if forall|i: int| 0 <= i < es.len() ==> fits_i64(
        bin_int(p, #[trigger] es[i] as int, x as int),
    ) {
        assert(forall|i: int|
            0 <= i < es.len() ==> fits_i64(bin_int(p, #[trigger] es[i] as int, xs[i] as int)));
        assert(Seq::new(es.len(), |i: int| bin_int(p, es[i] as int, xs[i] as int) as i64)
            =~= Seq::new(es.len(), |i: int| bin_int(p, es[i] as int, x as int) as i64));
    }
}

/// Evaluation is deterministic: the outcome of a program is a function of
/// the program alone, so two runs that both meet the evaluator's contract
/// report one and the same outcome.
pub proof fn lemma_determinism(ops: Seq<OpView>, r1: OutcomeV, r2: OutcomeV)
    requires
        r1 == spec_eval(ops),
        r2 == spec_eval(ops),
    ensures
        r1 == r2,
{
}

/// Well-formedness of a token: its text is exactly what its kind scans.
pub open spec fn tok_wf(t: TokView) -> bool {
    match t.kind {
        TokKind::Ident => t.text.len() >= 1 && forall|i: int|
            0 <= i < t.text.len() ==> in_class(#[trigger] t.text[i], CharClass::Letter),
        TokKind::Num => t.text.len() >= 1 && forall|i: int|
            0 <= i < t.text.len() ==> in_class(#[trigger] t.text[i], CharClass::Digit),
        TokKind::Space => t.text.len() >= 1 && forall|i: int|
            0 <= i < t.text.len() ==> in_class(#[trigger] t.text[i], CharClass::Blank),
        TokKind::Glyph => t.text.len() == 1 && is_glyph(t.text[0]),
        TokKind::Open => t.text == seq!['['],
        TokKind::Close => t.text == seq![']'],
        TokKind::Str => t.text.len() >= 2 && t.text[0] == '"' && t.text.last() == '"' && forall|
            i: int,
        |
            1 <= i < t.text.len() - 1 ==> in_class(#[trigger] t.text[i], CharClass::StrInner),
        TokKind::Comment => t.text.len() >= 1 && t.text[0] == '#' && forall|i: int|
            1 <= i < t.text.len() ==> in_class(#[trigger] t.text[i], CharClass::NonNewline),
    }
}

/// Whether the text that follows a token cannot extend it: a maximal-run
/// token must not be followed by a character of its own class, and a
/// comment runs to the end of its line.
pub open spec fn sep_ok(t: TokView, rest: Seq<char>) -> bool {
    match t.kind {
        TokKind::Ident => rest.len() == 0 || !in_class(rest[0], CharClass::Letter),
        TokKind::Num => rest.len() == 0 || !in_class(rest[0], CharClass::Digit),
        TokKind::Space => rest.len() == 0 || !in_class(rest[0], CharClass::Blank),
        TokKind::Comment => rest.len() == 0 || rest[0] == '\n',
        _ => true,
    }
}

/// A token stream as the lexer would produce it: every token well formed,
/// and no token extendable by what follows it.
pub open spec fn stream_ok(ts: Seq<TokView>) -> bool
    decreases ts.len(),
{
    ts.len() == 0 || (tok_wf(ts[0]) && sep_ok(ts[0], render(ts.drop_first())) && stream_ok(
        ts.drop_first(),
    ))
}

/// A well-formed token has text.
pub proof fn lemma_tok_wf_nonempty(t: TokView)
    requires
        tok_wf(t),
    ensures
        t.text.len() >= 1,
{
}

/// Scanning a well-formed token's text followed by anything that cannot
/// extend it yields exactly that token.
pub proof fn lemma_lex1_token(t: TokView, rest: Seq<char>)
    requires
        tok_wf(t),
        sep_ok(t, rest),
    ensures
        lex1(t.text + rest) == Ok::<(TokView, int), crate::token::LexErrKind>(
            (t, t.text.len() as int),
        ),
{
    let s = t.text + rest;
    let n = t.text.len() as int;
    assert(s.len() == t.text.len() + rest.len());
    assert(forall|i: int| 0 <= i < n ==> s[i] == t.text[i]);
    assert(forall|i: int| n <= i < s.len() ==> s[i] == rest[i - n]);
    match t.kind {
        TokKind::Ident => {
            lemma_run_len_char(s, CharClass::Letter, n as nat);
            assert(s.subrange(0, n) =~= t.text);
        },
        TokKind::Num => {
            lemma_run_len_char(s, CharClass::Digit, n as nat);
            assert(s.subrange(0, n) =~= t.text);
        },
        TokKind::Space => {
            lemma_run_len_char(s, CharClass::Blank, n as nat);
            assert(s.subrange(0, n) =~= t.text);
        },
        TokKind::Glyph => {
            assert(s[0] == t.text[0]);
            assert(s.subrange(0, 1) =~= t.text);
        },
        TokKind::Open => {
            assert(s[0] == '[');
            assert(s.subrange(0, 1) =~= t.text);
        },
        TokKind::Close => {
            assert(s[0] == ']');
            assert(s.subrange(0, 1) =~= t.text);
        },
        TokKind::Str => {
            assert(s[0] == '"');
            let d = s.drop_first();
            assert(forall|i: int| 0 <= i < d.len() ==> d[i] == s[i + 1]);
            lemma_run_len_char(d, CharClass::StrInner, (n - 2) as nat);
            assert(d[n - 2] == t.text[n - 1]);
            assert(s[n - 1] == t.text[n - 1]);
            assert(s.subrange(0, n) =~= t.text);
        },
        TokKind::Comment => {
            assert(s[0] == '#');
            let d = s.drop_first();
            assert(forall|i: int| 0 <= i < d.len() ==> d[i] == s[i + 1]);
            lemma_run_len_char(d, CharClass::NonNewline, (n - 1) as nat);
            assert(s.subrange(0, n) =~= t.text);
        },
    }
}

/// Scanning the rendering of a lexer-shaped token stream yields exactly
/// that stream.
pub proof fn lemma_lex_stream(ts: Seq<TokView>)
    requires
        stream_ok(ts),
    ensures
        spec_lex(render(ts)) == Ok::<Seq<TokView>, (crate::token::LexErrKind, int)>(ts),
    decreases ts.len(),
{
    if ts.len() == 0 {
        assert(render(ts) =~= Seq::<char>::empty());
        assert(ts =~= Seq::<TokView>::empty());
    } else {
        let t = ts[0];
        let rest = ts.drop_first();
        let s = render(ts);
        assert(tok_wf(t) && sep_ok(t, render(rest)) && stream_ok(rest));
        assert(s == t.text + render(rest));
        lemma_lex1_token(t, render(rest));
        let n = t.text.len() as int;
        lemma_tok_wf_nonempty(t);
        assert(s.len() == t.text.len() + render(rest).len());
        assert(0 < n <= s.len());
        assert(lex1(s) == Ok::<(TokView, int), crate::token::LexErrKind>((t, n)));
        assert(s.subrange(n, s.len() as int) =~= render(rest));
        lemma_lex_stream(rest);
        assert(spec_lex(s.subrange(n, s.len() as int)) == Ok::<
            Seq<TokView>,
            (crate::token::LexErrKind, int),
        >(rest));
        assert(spec_lex(s) == Ok::<Seq<TokView>, (crate::token::LexErrKind, int)>(
            seq![t] + rest,
        ));
        assert(seq![t] + rest =~= ts);
    }
}

/// What the lexer accepts it renders back, and its output is lexer shaped.
pub proof fn lemma_lex_sound(s: Seq<char>, ts: Seq<TokView>)
    requires
        spec_lex(s) == Ok::<Seq<TokView>, (crate::token::LexErrKind, int)>(ts),
    ensures
        render(ts) == s,
        stream_ok(ts),
    decreases s.len(),
{
    if s.len() == 0 {
        assert(ts =~= Seq::<TokView>::empty());
        assert(render(ts) =~= s);
    } else {
        let r1 = lex1(s);
        match r1 {
            Ok((t, n)) => {
                assert(0 < n <= s.len());
                let tail = s.subrange(n, s.len() as int);
                match spec_lex(tail) {
                    Ok(rest) => {
                        assert(ts == seq![t] + rest);
                        lemma_lex_sound(tail, rest);
                        assert(ts.drop_first() =~= rest);
                        assert(ts[0] == t);
                        assert(render(ts) == t.text + render(rest));
                        // The token covers s[..n]; what follows it is tail.
                        lemma_lex1_shape(s, t, n);
                        assert(t.text =~= s.subrange(0, n));
                        assert(t.text + tail =~= s);
                        assert(render(ts) =~= s);
                        assert(sep_ok(t, render(rest)));
                    },
                    Err(e) => {
                        assert(false);
                    },
                }
            },
            Err(k) => {
                assert(false);
            },
        }
    }
}

/// The first token of a text is well formed, covers a prefix of the text,
/// and cannot be extended by what follows it.
pub proof fn lemma_lex1_shape(s: Seq<char>, t: TokView, n: int)
    requires
        s.len() > 0,
        lex1(s) == Ok::<(TokView, int), crate::token::LexErrKind>((t, n)),
    ensures
        0 < n <= s.len(),
        t.text == s.subrange(0, n),
        tok_wf(t),
        sep_ok(t, s.subrange(n, s.len() as int)),
{
    let c = s[0];
    let rest = s.subrange(n, s.len() as int);
    if in_class(c, CharClass::Letter) {
        lemma_run_len_le(s, CharClass::Letter);
        assert(run_len(s, CharClass::Letter) >= 1);
    } else if in_class(c, CharClass::Digit) {
        lemma_run_len_le(s, CharClass::Digit);
        assert(run_len(s, CharClass::Digit) >= 1);
    } else if in_class(c, CharClass::Blank) {
        lemma_run_len_le(s, CharClass::Blank);
        assert(run_len(s, CharClass::Blank) >= 1);
    } else if is_glyph(c) {
        assert(t.text =~= seq![c]);
    } else if c == '[' {
        assert(t.text =~= seq!['[']);
    } else if c == ']' {
        assert(t.text =~= seq![']']);
    } else if c == '"' {
        let d = s.drop_first();
        let j = run_len(d, CharClass::StrInner) as int;
        lemma_run_len_le(d, CharClass::StrInner);
        assert(forall|i: int| 0 <= i < d.len() ==> d[i] == s[i + 1]);
        assert(t.text == s.subrange(0, j + 2));
        assert(t.text.last() == s[j + 1]);
        assert forall|i: int| 1 <= i < t.text.len() - 1 implies in_class(
            #[trigger] t.text[i],
            CharClass::StrInner,
        ) by {
            assert(t.text[i] == s[i]);
            assert(s[i] == d[i - 1]);
            assert(in_class(d[i - 1], CharClass::StrInner));
        }
    } else if c == '#' {
        let d = s.drop_first();
        let j = run_len(d, CharClass::NonNewline) as int;
        lemma_run_len_le(d, CharClass::NonNewline);
        assert(forall|i: int| 0 <= i < d.len() ==> d[i] == s[i + 1]);
        assert forall|i: int| 1 <= i < t.text.len() implies in_class(
            #[trigger] t.text[i],
            CharClass::NonNewline,
        ) by {
            assert(t.text[i] == s[i]);
            assert(s[i] == d[i - 1]);
            assert(in_class(d[i - 1], CharClass::NonNewline));
        }
        if n < s.len() {
            assert(s[n] == d[n - 1]);
            assert(!in_class(d[n - 1], CharClass::NonNewline));
            assert(rest[0] == s[n]);
        }
    } else {
        assert(false);
    }
}

/// The formatted image of a well-formed token is well formed.
pub proof fn lemma_fmt_tok_wf(t: TokView)
    requires
        tok_wf(t),
    ensures
        tok_wf(fmt_tok(t)),
        fmt_tok(t).text.len() >= 1,
{
    if t.kind == TokKind::Ident {
        match mnemonic_prim(t.text) {
            Some(p) => {
                assert(is_glyph(glyph_of(p)));
            },
            None => {},
        }
    }
}

/// A glyph character is in no maximal-run class.
pub proof fn lemma_glyph_classes(c: char)
    requires
        is_glyph(c),
    ensures
        !in_class(c, CharClass::Letter),
        !in_class(c, CharClass::Digit),
        !in_class(c, CharClass::Blank),
        c != '\n',
{
}

/// Formatting preserves the lexer shape of a token stream: texts change
/// only from mnemonics to glyphs, which no neighbouring token can absorb.
pub proof fn lemma_fmt_stream_ok(ts: Seq<TokView>)
    requires
        stream_ok(ts),
    ensures
        stream_ok(fmt_toks(ts)),
    decreases ts.len(),
{
    if ts.len() == 0 {
    } else {
        let rest = ts.drop_first();
        lemma_fmt_stream_ok(rest);
        lemma_fmt_tok_wf(ts[0]);
        assert(fmt_toks(ts).drop_first() =~= fmt_toks(rest));
        assert(fmt_toks(ts)[0] == fmt_tok(ts[0]));
        if rest.len() == 0 {
            assert(fmt_toks(rest).len() == 0);
            assert(render(fmt_toks(rest)) =~= Seq::<char>::empty());
        } else {
            lemma_tok_wf_nonempty(rest[0]);
            lemma_fmt_tok_wf(rest[0]);
            assert(render(rest)[0] == rest[0].text[0]);
            assert(fmt_toks(rest)[0] == fmt_tok(rest[0]));
            assert(render(fmt_toks(rest))[0] == fmt_tok(rest[0]).text[0]);
            if fmt_tok(rest[0]) == rest[0] {
                assert(render(fmt_toks(rest))[0] == render(rest)[0]);
            } else {
                assert(rest[0].kind == TokKind::Ident);
                assert(mnemonic_prim(rest[0].text) is Some);
                let p = mnemonic_prim(rest[0].text)->Some_0;
                assert(fmt_tok(rest[0]).text == seq![glyph_of(p)]);
                lemma_glyph_classes(glyph_of(p));
                // A comment is never followed by an identifier: its
                // separation demands a newline, and an identifier starts
                // with a letter.
                if ts[0].kind == TokKind::Comment {
                    assert(render(rest)[0] == rest[0].text[0]);
                    assert(in_class(rest[0].text[0], CharClass::Letter));
                    assert(false);
                }
            }
        }
    }
}

/// Applying the formatter twice is applying it once, token by token.
pub proof fn lemma_fmt_idem(ts: Seq<TokView>)
    ensures
        fmt_toks(fmt_toks(ts)) == fmt_toks(ts),
{
    assert forall|i: int| 0 <= i < ts.len() implies #[trigger] fmt_toks(fmt_toks(ts))[i]
        == fmt_toks(ts)[i] by {
        let t = ts[i];
        if t.kind == TokKind::Ident {
            match mnemonic_prim(t.text) {
                Some(p) => {},
                None => {},
            }
        }
    }
    assert(fmt_toks(fmt_toks(ts)) =~= fmt_toks(ts));
}

/// Formatting is idempotent: formatting a formatted text changes nothing.
pub proof fn theorem_format_idempotent(s: Seq<char>, out: Seq<char>)
    requires
        spec_format(s) == Ok::<Seq<char>, (crate::token::LexErrKind, int)>(out),
    ensures
        spec_format(out) == Ok::<Seq<char>, (crate::token::LexErrKind, int)>(out),
{
    let ts = spec_lex(s)->Ok_0;
    lemma_lex_sound(s, ts);
    lemma_fmt_stream_ok(ts);
    lemma_lex_stream(fmt_toks(ts));
    lemma_fmt_idem(ts);
}

/// The builtin of a glyph is the builtin of its mnemonic.
pub proof fn lemma_glyph_round(p: Prim)
    ensures
        glyph_prim(glyph_of(p)) == Some(p),
{
}

/// A token and its formatted image resolve and compile alike.
pub proof fn lemma_comp_fmt(ts: Seq<TokView>, i: int, depth: int)
    ensures
        comp(fmt_toks(ts), i, depth) == comp(ts, i, depth),
    decreases ts.len() - i,
{
    assert(fmt_toks(ts).len() == ts.len());
    if 0 <= i < ts.len() {
        let t = ts[i];
        let f = fmt_toks(ts)[i];
        assert(f == fmt_tok(t));
        if t.kind == TokKind::Ident {
            match mnemonic_prim(t.text) {
                Some(p) => {
                    lemma_glyph_round(p);
                    assert(resolve_tok(f) == Some(p));
                    assert(resolve_tok(t) == Some(p));
                    lemma_comp_fmt(ts, i + 1, depth);
                },
                None => {
                    assert(f == t);
                    lemma_comp_fmt(ts, i + 1, depth);
                },
            }
        } else {
            assert(f == t);
            match t.kind {
                TokKind::Open => {
                    lemma_comp_fmt(ts, i + 1, depth + 1);
                },
                TokKind::Close => {
                    if depth != 0 {
                        lemma_comp_fmt(ts, i + 1, depth - 1);
                    }
                },
                _ => {
                    lemma_comp_fmt(ts, i + 1, depth);
                },
            }
        }
    }
}

/// Formatting never changes what a source evaluates to: the whole pipeline
/// reports one and the same outcome for a text and for its formatted image,
/// whether the program succeeds, fails to run, or fails to compile.
pub proof fn theorem_format_run_equal(s: Seq<char>, out: Seq<char>)
    requires
        spec_format(s) == Ok::<Seq<char>, (crate::token::LexErrKind, int)>(out),
    ensures
        spec_run_src(out) == spec_run_src(s),
{
    let ts = spec_lex(s)->Ok_0;
    lemma_lex_sound(s, ts);
    lemma_fmt_stream_ok(ts);
    lemma_lex_stream(fmt_toks(ts));
    lemma_comp_fmt(ts, 0, 0);
}

} // verus!
