//! The host-facing contract: formatting and evaluation of source text,
//! reported as a structured result with a success flag, a human-readable
//! output, the displayed stack values, and the formatted source. Every
//! failure is flattened into the `success == false` branch of the result;
//! no fault crosses this boundary.

use vstd::prelude::*;
use vstd::string::StrSliceExecFns;
use vstd::string::StringExecFns;
use crate::token::{LexErrKind, lex_chars, spec_lex};
use crate::formatter::{spec_format, format_chars};
use crate::compile::{CompileErrKind, CompErrV, spec_compile, compile};
use crate::eval::{EvalErrV, OutcomeV, ExecOutcome, spec_eval, evaluate};
use crate::value::ValView;
use crate::render::{dec_digits, val_text, val_chars};

verus! {

/// Relies on String::push: appends exactly the given character.
#[verifier::external_body]
fn push_char(s: &mut String, c: char)
    ensures
        final(s)@ == old(s)@.push(c),
{
    s.push(c);
}

/// The characters of a text, in order.
pub fn chars_of_str(s: &str) -> (r: Vec<char>)
    ensures
        r@ == s@,
{
    let n = s.unicode_len();
    let mut r: Vec<char> = Vec::new();
    let mut i: usize = 0;
    proof {
        assert(r@ =~= s@.subrange(0, 0));
    }
    while i < n
        invariant
            n == s@.len(),
            i <= n,
            r@ == s@.subrange(0, i as int),
        decreases n - i,
    {
        r.push(s.get_char(i));
        proof {
            assert(r@ =~= s@.subrange(0, i + 1));
        }
        i = i + 1;
    }
    proof {
        assert(s@.subrange(0, s@.len() as int) =~= s@);
    }
    r
}

/// A text built from characters.
pub fn string_of_chars(cs: &Vec<char>) -> (r: String)
    ensures
        r@ == cs@,
{
    let mut r = String::new();
    let mut i: usize = 0;
    proof {
        assert(r@ =~= cs@.subrange(0, 0));
    }
    while i < cs.len()
        invariant
            i <= cs@.len(),
            r@ == cs@.subrange(0, i as int),
        decreases cs@.len() - i,
    {
        push_char(&mut r, cs[i]);
        proof {
            assert(r@ =~= cs@.subrange(0, i + 1));
        }
        i = i + 1;
    }
    proof {
        assert(cs@.subrange(0, cs@.len() as int) =~= cs@);
    }
    r
}

/// Appends every given character to a text.
fn append_chars_text(s: &mut String, cs: &Vec<char>)
    ensures
        final(s)@ == old(s)@ + cs@,
{
    let mut i: usize = 0;
    proof {
        assert(s@ =~= old(s)@ + cs@.subrange(0, 0));
    }
    while i < cs.len()
        invariant
            i <= cs@.len(),
            s@ == old(s)@ + cs@.subrange(0, i as int),
        decreases cs@.len() - i,
    {
        push_char(s, cs[i]);
        proof {
            assert(old(s)@ + cs@.subrange(0, i + 1) =~= (old(s)@ + cs@.subrange(0, i as int)).push(
                cs@[i as int],
            ));
        }
        i = i + 1;
    }
    proof {
        assert(cs@.subrange(0, cs@.len() as int) =~= cs@);
    }
}

/// Appends the decimal display of `n` to a text.
fn append_dec(s: &mut String, n: usize)
    ensures
        final(s)@ == old(s)@ + dec_digits(n as int),
{
    let mut cs: Vec<char> = Vec::new();
    crate::render::push_dec(&mut cs, n as u64);
    let mut i: usize = 0;
    proof {
        assert(s@ =~= old(s)@ + cs@.subrange(0, 0));
    }
    while i < cs.len()
        invariant
            cs@ == dec_digits(n as int),
            i <= cs@.len(),
            s@ == old(s)@ + cs@.subrange(0, i as int),
        decreases cs@.len() - i,
    {
        push_char(s, cs[i]);
        proof {
            assert(old(s)@ + cs@.subrange(0, i + 1) =~= (old(s)@ + cs@.subrange(0, i as int)).push(
                cs@[i as int],
            ));
        }
        i = i + 1;
    }
    proof {
        assert(cs@.subrange(0, cs@.len() as int) =~= cs@);
    }
}

/// The message of a scanning failure, with its character offset.
pub open spec fn lex_err_text(k: LexErrKind, at: int) -> Seq<char> {
    (match k {
        LexErrKind::UnterminatedStr => "unterminated string literal at "@,
        LexErrKind::BadChar => "unrecognized character at "@,
    }) + dec_digits(at)
}

/// The message of a compilation failure, with its token index; an
/// unresolved name is spelled out.
pub open spec fn comp_err_text(e: CompErrV) -> Seq<char> {
    match e.kind {
        CompileErrKind::UnknownName => "unknown name "@ + e.name + " at token "@ + dec_digits(
            e.at,
        ),
        CompileErrKind::MalformedLiteral => "malformed literal at token "@ + dec_digits(e.at),
        CompileErrKind::Unbalanced => "unbalanced bracket at token "@ + dec_digits(e.at),
    }
}

/// The display of a shape.
pub open spec fn shape_text(sh: Seq<usize>) -> Seq<char>
    decreases sh.len(),
{
    if sh.len() == 0 {
        Seq::empty()
    } else if sh.len() == 1 {
        dec_digits(sh[0] as int)
    } else {
        dec_digits(sh[0] as int) + seq![' '] + shape_text(sh.drop_first())
    }
}

/// The message of an evaluation failure; a shape mismatch names both shapes.
pub open spec fn eval_err_text(e: EvalErrV) -> Seq<char> {
    match e {
        EvalErrV::StackUnderflow => "stack underflow"@,
        EvalErrV::TypeMismatch => "type mismatch"@,
        EvalErrV::Overflow => "numeric overflow"@,
        EvalErrV::ShapeMismatch { left, right } => "shape mismatch: ["@ + shape_text(left)
            + "] and ["@ + shape_text(right) + "]"@,
    }
}

/// The outcome of formatting source text.
pub struct FormatOutcome {
    /// Whether the source scanned and was formatted.
    pub success: bool,
    /// The formatted source, or the source unchanged on failure.
    pub formatted: String,
    /// Empty on success; the failure message otherwise.
    pub output: String,
}

/// Formats source text. On any scanning failure the source is returned
/// unchanged and the failure is described in `output`: formatting never
/// destroys its input.
pub fn format_source(code: &str) -> (r: FormatOutcome)
    ensures
        match spec_format(code@) {
            Ok(t) => r.success && r.formatted@ == t && r.output@ == Seq::<char>::empty(),
            Err((k, p)) => !r.success && r.formatted@ == code@ && r.output@ == lex_err_text(k, p),
        },
{
    let cs = chars_of_str(code);
    match format_chars(&cs) {
        Ok(out) => FormatOutcome {
            success: true,
            formatted: string_of_chars(&out),
            output: String::new(),
        },
        Err(e) => {
            let mut msg = match e.kind {
                LexErrKind::UnterminatedStr => "unterminated string literal at ".to_owned(),
                LexErrKind::BadChar => "unrecognized character at ".to_owned(),
            };
            append_dec(&mut msg, e.at);
            FormatOutcome { success: false, formatted: code.to_owned(), output: msg }
        },
    }
}

/// The outcome of evaluating source text.
pub struct EvalOutcome {
    /// Whether the source scanned, compiled and ran to the end.
    pub success: bool,
    /// The newline-joined stack display on success; the failure message
    /// otherwise.
    pub output: String,
    /// The display of each final stack value, topmost first; empty on
    /// failure.
    pub stack: Vec<String>,
    /// The best-effort formatted source, independent of the run's outcome.
    pub formatted: String,
}

/// The displays of the values of a final stack, topmost first.
pub open spec fn stack_texts(st: Seq<ValView>) -> Seq<Seq<char>> {
    Seq::new(st.len(), |i: int| val_text(st[st.len() - 1 - i]))
}

/// Lines joined by a newline between each pair.
pub open spec fn joined(lines: Seq<Seq<char>>) -> Seq<char>
    decreases lines.len(),
{
    if lines.len() == 0 {
        Seq::empty()
    } else if lines.len() == 1 {
        lines[0]
    } else {
        lines[0] + seq!['\n'] + joined(lines.drop_first())
    }
}

/// The outcome of the full pipeline on a source text.
pub enum RunV {
    /// The source does not scan.
    LexFail(LexErrKind, int),
    /// The source scans but does not compile.
    CompFail(CompErrV),
    /// The program fails while running.
    EvalFail(EvalErrV, Seq<ValView>),
    /// The program runs to its end with this stack.
    Done(Seq<ValView>),
}

/// Scans, compiles and evaluates a source text, as one function.
pub open spec fn spec_run_src(s: Seq<char>) -> RunV {
    match spec_lex(s) {
        Err((k, p)) => RunV::LexFail(k, p),
        Ok(ts) => match spec_compile(ts) {
            Err(e) => RunV::CompFail(e),
            Ok(ops) => match spec_eval(ops) {
                OutcomeV::Failure(e, st) => RunV::EvalFail(e, st),
                OutcomeV::Success(st) => RunV::Done(st),
            },
        },
    }
}

/// Evaluates source text: scans, compiles and runs it, and reports the
/// displayed stack. Formatting is attempted first, best effort: its result
/// stands in `formatted` whatever the run does, and the run always works on
/// the original source. On success `output` joins the stack displays,
/// topmost value first, with newlines; on failure `output` carries the
/// failure message and `stack` is empty.
pub fn evaluate_source(code: &str) -> (r: EvalOutcome)
    ensures
        r.formatted@ == (match spec_format(code@) {
            Ok(t) => t,
            Err(e) => code@,
        }),
        match spec_run_src(code@) {
            RunV::LexFail(k, p) => !r.success && r.output@ == lex_err_text(k, p)
                && r.stack.deep_view() == Seq::<Seq<char>>::empty(),
            RunV::CompFail(e) => !r.success && r.output@ == comp_err_text(e)
                && r.stack.deep_view() == Seq::<Seq<char>>::empty(),
            RunV::EvalFail(e, st) => !r.success && r.output@ == eval_err_text(e)
                && r.stack.deep_view() == Seq::<Seq<char>>::empty(),
            RunV::Done(st) => r.success && r.stack.deep_view() == stack_texts(st) && r.output@
                == joined(stack_texts(st)),
        },
{
    let cs = chars_of_str(code);
    let formatted = match format_chars(&cs) {
        Ok(out) => string_of_chars(&out),
        Err(_) => code.to_owned(),
    };
    let toks = match lex_chars(&cs) {
        Ok(ts) => ts,
        Err(e) => {
            let mut msg = match e.kind {
                LexErrKind::UnterminatedStr => "unterminated string literal at ".to_owned(),
                LexErrKind::BadChar => "unrecognized character at ".to_owned(),
            };
            append_dec(&mut msg, e.at);
            return EvalOutcome { success: false, output: msg, stack: Vec::new(), formatted };
        },
    };
    let prog = match compile(&toks) {
        Ok(p) => p,
        Err(e) => {
            let mut msg = match e.kind {
                CompileErrKind::UnknownName => {
                    let mut m = "unknown name ".to_owned();
                    append_chars_text(&mut m, &e.name);
                    m.append(" at token ");
                    proof {
                        assert(m@ =~= "unknown name "@ + e@.name + " at token "@);
                    }
                    m
                },
                CompileErrKind::MalformedLiteral => "malformed literal at token ".to_owned(),
                CompileErrKind::Unbalanced => "unbalanced bracket at token ".to_owned(),
            };
            append_dec(&mut msg, e.at);
            proof {
                assert(msg@ =~= comp_err_text(e@));
            }
            return EvalOutcome { success: false, output: msg, stack: Vec::new(), formatted };
        },
    };
    match evaluate(&prog) {
        ExecOutcome::Failure { err, partial } => {
            let msg = match err {
                crate::eval::EvalErr::StackUnderflow => "stack underflow".to_owned(),
                crate::eval::EvalErr::TypeMismatch => "type mismatch".to_owned(),
                crate::eval::EvalErr::Overflow => "numeric overflow".to_owned(),
                crate::eval::EvalErr::ShapeMismatch { left, right } => {
                    let mut m = "shape mismatch: [".to_owned();
                    append_shape(&mut m, &left);
                    m.append("] and [");
                    append_shape(&mut m, &right);
                    m.append("]");
                    proof {
                        assert(m@ =~= "shape mismatch: ["@ + crate::host::shape_text(left@)
                            + "] and ["@ + crate::host::shape_text(right@) + "]"@);
                    }
                    m
                },
            };
            EvalOutcome { success: false, output: msg, stack: Vec::new(), formatted }
        },
        ExecOutcome::Success { stack } => {
            let ghost stv = stack.deep_view();
            let mut lines: Vec<String> = Vec::new();
            let mut output = String::new();
            let n = stack.len();
            let mut i: usize = 0;
            proof {
                assert(stv.len() == stack@.len());
                assert(lines.deep_view() =~= stack_texts(stv).subrange(0, 0));
                assert(output@ =~= joined(stack_texts(stv).subrange(0, 0)));
            }
            while i < n
                invariant
                    n == stack@.len(),
                    stv == stack.deep_view(),
                    stv.len() == n,
                    i <= n,
                    lines.deep_view() == stack_texts(stv).subrange(0, i as int),
                    output@ == joined(stack_texts(stv).subrange(0, i as int)),
                decreases n - i,
            {
                let v = &stack[n - 1 - i];
                proof {
                    assert(v@ == stv[n - 1 - i]);
                    assert(val_text(v@) == stack_texts(stv)[i as int]);
                }
                let cs2 = val_chars(v);
                let line = string_of_chars(&cs2);
                if i > 0 {
                    push_char(&mut output, '\n');
                }
                let mut j: usize = 0;
                proof {
                    assert(cs2@.subrange(0, 0) =~= Seq::<char>::empty());
                }
                let ghost out_mid = output@;
                while j < cs2.len()
                    invariant
                        j <= cs2@.len(),
                        output@ == out_mid + cs2@.subrange(0, j as int),
                    decreases cs2@.len() - j,
                {
                    push_char(&mut output, cs2[j]);
                    proof {
                        assert(out_mid + cs2@.subrange(0, j + 1) =~= (out_mid + cs2@.subrange(
                            0,
                            j as int,
                        )).push(cs2@[j as int]));
                    }
                    j = j + 1;
                }
                lines.push(line);
                proof {
                    assert(cs2@.subrange(0, cs2@.len() as int) =~= cs2@);
                    assert(out_mid =~= out_mid + cs2@.subrange(0, 0));
                    let texts = stack_texts(stv);
                    assert(texts.subrange(0, i + 1) =~= texts.subrange(0, i as int).push(
                        texts[i as int],
                    ));
                    assert(lines.deep_view() =~= texts.subrange(0, i + 1));
                    lemma_joined_push(texts.subrange(0, i as int), texts[i as int]);
                    assert(output@ =~= joined(texts.subrange(0, i + 1)));
                }
                i = i + 1;
            }
            proof {
                assert(stack_texts(stv).subrange(0, n as int) =~= stack_texts(stv));
            }
            EvalOutcome { success: true, output, stack: lines, formatted }
        },
    }
}

/// Appending one line to a joined display.
pub proof fn lemma_joined_push(lines: Seq<Seq<char>>, x: Seq<char>)
    ensures
        joined(lines.push(x)) == if lines.len() == 0 {
            x
        } else {
            joined(lines) + seq!['\n'] + x
        },
    decreases lines.len(),
{
    if lines.len() == 0 {
        assert(lines.push(x) =~= seq![x]);
        assert(joined(seq![x]) == x);
    } else {
        assert(lines.push(x).drop_first() =~= lines.drop_first().push(x));
        lemma_joined_push(lines.drop_first(), x);
        if lines.len() == 1 {
            assert(joined(lines.push(x)) == lines[0] + seq!['\n'] + x);
        } else {
            assert(lines[0] + seq!['\n'] + (joined(lines.drop_first()) + seq!['\n'] + x) =~= (
            lines[0] + seq!['\n'] + joined(lines.drop_first())) + seq!['\n'] + x);
        }
    }
}

/// Appends the display of a shape's dimensions to a text.
fn append_shape(s: &mut String, sh: &Vec<usize>)
    ensures
        final(s)@ == old(s)@ + shape_text(sh@),
{
    let mut i: usize = 0;
    proof {
        assert(s@ =~= old(s)@ + shape_text(sh@.subrange(0, 0)));
    }
    while i < sh.len()
        invariant
            i <= sh@.len(),
            s@ == old(s)@ + shape_text(sh@.subrange(0, i as int)),
        decreases sh@.len() - i,
    {
        if i > 0 {
            push_char(s, ' ');
        }
        append_dec(s, sh[i]);
        proof {
            let pre = sh@.subrange(0, i as int);
            assert(sh@.subrange(0, i + 1) =~= pre.push(sh@[i as int]));
            lemma_shape_text_push(pre, sh@[i as int]);
            if i == 0 {
                assert(s@ =~= old(s)@ + shape_text(sh@.subrange(0, i + 1)));
            } else {
                assert((old(s)@ + shape_text(pre)).push(' ') + dec_digits(sh@[i as int] as int)
                    =~= old(s)@ + (shape_text(pre) + seq![' '] + dec_digits(
                    sh@[i as int] as int,
                )));
                assert(s@ =~= old(s)@ + shape_text(sh@.subrange(0, i + 1)));
            }
        }
        i = i + 1;
    }
    proof {
        assert(sh@.subrange(0, sh@.len() as int) =~= sh@);
    }
}

/// Appending one dimension to a shape display.
pub proof fn lemma_shape_text_push(sh: Seq<usize>, d: usize)
    ensures
        shape_text(sh.push(d)) == if sh.len() == 0 {
            dec_digits(d as int)
        } else {
            shape_text(sh) + seq![' '] + dec_digits(d as int)
        },
    decreases sh.len(),
{
    if sh.len() == 0 {
        assert(sh.push(d) =~= seq![d]);
        assert(shape_text(seq![d]) == dec_digits(d as int));
    } else {
        assert(sh.push(d).drop_first() =~= sh.drop_first().push(d));
        lemma_shape_text_push(sh.drop_first(), d);
        if sh.len() == 1 {
            assert(shape_text(sh.push(d)) == dec_digits(sh[0] as int) + seq![' '] + dec_digits(
                d as int,
            ));
        } else {
            assert(dec_digits(sh[0] as int) + seq![' '] + (shape_text(sh.drop_first()) + seq![' ']
                + dec_digits(d as int)) =~= (dec_digits(sh[0] as int) + seq![' '] + shape_text(
                sh.drop_first(),
            )) + seq![' '] + dec_digits(d as int));
        }
    }
}

} // verus!
