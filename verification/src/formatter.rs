//! The formatter: rewrites every identifier token that is a known ASCII
//! mnemonic into its canonical single-glyph token, and copies every other
//! token through verbatim. Spacing is preserved exactly as written; no
//! realignment policy is applied.

use vstd::prelude::*;
use crate::token::{Token, TokView, TokKind, LexErr, LexErrKind, spec_lex, lex_chars};
use crate::prim::{mnemonic_prim, mnemonic_prim_of, glyph_of, glyph_char_of};

verus! {

/// The formatted image of one token: a recognized mnemonic becomes its glyph,
/// everything else is unchanged.
pub open spec fn fmt_tok(t: TokView) -> TokView {
    if t.kind == TokKind::Ident {
        match mnemonic_prim(t.text) {
            Some(p) => TokView { kind: TokKind::Glyph, text: seq![glyph_of(p)] },
            None => t,
        }
    } else {
        t
    }
}

/// The formatted image of a token sequence.
pub open spec fn fmt_toks(ts: Seq<TokView>) -> Seq<TokView> {
    ts.map_values(|t: TokView| fmt_tok(t))
}

/// The text a token sequence spells: the concatenation of the token texts.
pub open spec fn render(ts: Seq<TokView>) -> Seq<char>
    decreases ts.len(),
{
    if ts.len() == 0 {
        Seq::empty()
    } else {
        ts[0].text + render(ts.drop_first())
    }
}

/// Rendering one more token appends its text.
pub proof fn lemma_render_push(ts: Seq<TokView>, t: TokView)
    ensures
        render(ts.push(t)) =~= render(ts) + t.text,
    decreases ts.len(),
{
    if ts.len() == 0 {
        assert(ts.push(t).drop_first() =~= Seq::<TokView>::empty());
        assert(ts.push(t)[0] == t);
        assert(render(Seq::<TokView>::empty()) =~= Seq::<char>::empty());
        assert(render(ts.push(t)) == ts.push(t)[0].text + render(ts.push(t).drop_first()));
        assert(render(ts.push(t)) =~= t.text);
        assert(render(ts) + t.text =~= t.text);
    } else {
        assert(ts.push(t).drop_first() =~= ts.drop_first().push(t));
        lemma_render_push(ts.drop_first(), t);
        assert(ts.push(t)[0] == ts[0]);
        assert(ts[0].text + (render(ts.drop_first()) + t.text) =~= (ts[0].text + render(
            ts.drop_first(),
        )) + t.text);
    }
}

/// The formatted text of a source text: the rendering of its formatted
/// tokens, or the scanning failure when the text does not scan.
pub open spec fn spec_format(s: Seq<char>) -> Result<Seq<char>, (LexErrKind, int)> {
    match spec_lex(s) {
        Ok(ts) => Ok(render(fmt_toks(ts))),
        Err(e) => Err(e),
    }
}

/// Appends every character of `t` to `out`.
fn append_chars(out: &mut Vec<char>, t: &Vec<char>)
    ensures
        final(out)@ == old(out)@ + t@,
{
    let mut i: usize = 0;
    proof {
        assert(out@ =~= old(out)@ + t@.subrange(0, 0));
    }
    while i < t.len()
        invariant
            i <= t@.len(),
            out@ == old(out)@ + t@.subrange(0, i as int),
        decreases t@.len() - i,
    {
        out.push(t[i]);
        proof {
            assert(old(out)@ + t@.subrange(0, i + 1) =~= (old(out)@ + t@.subrange(
                0,
                i as int,
            )).push(t@[i as int]));
        }
        i = i + 1;
    }
    proof {
        assert(t@.subrange(0, t@.len() as int) =~= t@);
    }
}

/// Formats a scanned token stream into its output text.
pub fn fmt_token_text(ts: &Vec<Token>) -> (out: Vec<char>)
    ensures
        out@ == render(fmt_toks(ts.deep_view())),
{
    let mut out: Vec<char> = Vec::new();
    let mut i: usize = 0;
    proof {
        assert(ts.deep_view().subrange(0, 0) =~= Seq::<TokView>::empty());
        assert(out@ =~= render(fmt_toks(ts.deep_view().subrange(0, 0))));
    }
    while i < ts.len()
        invariant
            i <= ts@.len(),
            ts.deep_view().len() == ts@.len(),
            out@ == render(fmt_toks(ts.deep_view().subrange(0, i as int))),
        decreases ts@.len() - i,
    {
        let ghost pre = ts.deep_view().subrange(0, i as int);
        let ghost cur = ts.deep_view()[i as int];
        let t = &ts[i];
        if matches!(t.kind, TokKind::Ident) {
            match mnemonic_prim_of(&t.text) {
                Some(p) => {
                    out.push(glyph_char_of(p));
                    proof {
                        assert(fmt_tok(cur).text =~= seq![glyph_of(p)]);
                    }
                },
                None => {
                    append_chars(&mut out, &t.text);
                    proof {
                        assert(fmt_tok(cur) == cur);
                    }
                },
            }
        } else {
            append_chars(&mut out, &t.text);
            proof {
                assert(fmt_tok(cur) == cur);
            }
        }
        proof {
            assert(ts.deep_view().subrange(0, i + 1) =~= pre.push(cur));
            assert(fmt_toks(pre.push(cur)) =~= fmt_toks(pre).push(fmt_tok(cur)));
            lemma_render_push(fmt_toks(pre), fmt_tok(cur));
            assert(out@ =~= render(fmt_toks(pre)) + fmt_tok(cur).text);
        }
        i = i + 1;
    }
    proof {
        assert(ts.deep_view().subrange(0, i as int) =~= ts.deep_view());
    }
    out
}

/// Formats a source text: scans it and rewrites its mnemonics, or reports
/// the scanning failure and leaves the text untouched.
pub fn format_chars(s: &Vec<char>) -> (r: Result<Vec<char>, LexErr>)
    ensures
        match r {
            Ok(out) => spec_format(s@) == Ok::<Seq<char>, (LexErrKind, int)>(out@),
            Err(e) => spec_format(s@) == Err::<Seq<char>, (LexErrKind, int)>(
                (e.kind, e.at as int),
            ),
        },
{
    match lex_chars(s) {
        Ok(ts) => Ok(fmt_token_text(&ts)),
        Err(e) => Err(e),
    }
}

} // verus!
