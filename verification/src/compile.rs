//! The compiler: turns a token stream into a program. Source runs rightmost
//! token first, so the compiler emits the operations of later tokens before
//! those of earlier ones. Names are resolved against the fixed builtin
//! table, numeric and string literals become push instructions, brackets
//! become array-literal markers, and blanks and comments are dropped.
//! Bracket balance is checked structurally here, so a compiled program
//! never closes an array literal it did not open.

use vstd::prelude::*;
use crate::token::{Token, TokView, TokKind, CharClass, in_class, class_has, copy_range};
use crate::prim::{resolve_tok, mnemonic_prim_of, glyph_prim_of};
use crate::value::{Value, val_wf, copy_vec, lemma_shape_prod_single};
use crate::eval::{Op, OpView, Program, prog_wf};

verus! {

/// What went wrong while compiling.
#[derive(Clone, Copy, PartialEq, Eq, Structural)]
pub enum CompileErrKind {
    /// An identifier or glyph that names no builtin.
    UnknownName,
    /// A numeric literal with a stray character or out of the number range,
    /// or a string literal too short to carry its quotes.
    MalformedLiteral,
    /// A closing bracket with no opening one, or an opening bracket never
    /// closed.
    Unbalanced,
}

/// A compilation failure: its kind, the index of the offending token (a
/// missing closing bracket is reported at the token count), and, for an
/// unresolved name, the text of that name (empty otherwise).
pub struct CompileErr {
    pub kind: CompileErrKind,
    pub at: usize,
    pub name: Vec<char>,
}

/// The mathematical image of a compilation failure.
pub struct CompErrV {
    pub kind: CompileErrKind,
    pub at: int,
    pub name: Seq<char>,
}

impl View for CompileErr {
    type V = CompErrV;

    open spec fn view(&self) -> CompErrV {
        CompErrV { kind: self.kind, at: self.at as int, name: self.name@ }
    }
}

/// Whether every character of `t` is a decimal digit.
pub open spec fn is_digits(t: Seq<char>) -> bool {
    t.len() >= 1 && forall|i: int| 0 <= i < t.len() ==> in_class(#[trigger] t[i], CharClass::Digit)
}

/// The number a digit sequence spells.
pub open spec fn num_val(t: Seq<char>) -> int
    decreases t.len(),
{
    if t.len() == 0 {
        0
    } else {
        num_val(t.drop_last()) * 10 + (t.last() as u32 - 48)
    }
}

/// A digit sequence spells a non-negative number.
pub proof fn lemma_num_val_nonneg(t: Seq<char>)
    requires
        forall|i: int| 0 <= i < t.len() ==> in_class(#[trigger] t[i], CharClass::Digit),
    ensures
        num_val(t) >= 0,
    decreases t.len(),
{
    if t.len() > 0 {
        lemma_num_val_nonneg(t.drop_last());
        assert(in_class(t.last(), CharClass::Digit));
    }
}

/// A prefix of a digit sequence spells no more than the whole.
pub proof fn lemma_num_val_grow(t: Seq<char>, j: int)
    requires
        0 <= j <= t.len(),
        forall|i: int| 0 <= i < t.len() ==> in_class(#[trigger] t[i], CharClass::Digit),
    ensures
        num_val(t.subrange(0, j)) <= num_val(t),
    decreases t.len() - j,
{
    if j == t.len() {
        assert(t.subrange(0, j) =~= t);
    } else {
        assert(t.subrange(0, j + 1).drop_last() =~= t.subrange(0, j));
        assert(t.subrange(0, j + 1).last() == t[j]);
        assert(in_class(t[j], CharClass::Digit));
        lemma_num_val_nonneg(t.subrange(0, j));
        lemma_num_val_grow(t, j + 1);
    }
}

/// Whether every character of `text` is a decimal digit, executably.
fn all_digits(text: &Vec<char>) -> (b: bool)
    ensures
        b == is_digits(text@),
{
    if text.len() == 0 {
        return false;
    }
    let mut j: usize = 0;
    while j < text.len()
        invariant
            j <= text@.len(),
            text@.len() >= 1,
            forall|q: int| 0 <= q < j ==> in_class(#[trigger] text@[q], CharClass::Digit),
        decreases text@.len() - j,
    {
        if !class_has(text[j], CharClass::Digit) {
            proof {
                assert(!in_class(text@[j as int], CharClass::Digit));
            }
            return false;
        }
        j = j + 1;
    }
    true
}

/// Snoc then splice is splicing with the operation put in front.
proof fn lemma_comp_snoc_compose(op: OpView, r: Result<Seq<OpView>, CompErrV>, post: Seq<OpView>)
    ensures
        comp_compose(comp_snoc(op, r), post) == comp_compose(r, seq![op] + post),
{
    match r {
        Ok(os) => {
            assert(os.push(op) + post =~= os + (seq![op] + post));
        },
        Err(e) => {},
    }
}

/// Parses a digit sequence into the number representation, or reports that
/// it does not fit.
fn parse_num(text: &Vec<char>) -> (r: Option<i64>)
    requires
        is_digits(text@),
    ensures
        match r {
            Some(v) => v as int == num_val(text@) && num_val(text@) <= i64::MAX as int,
            None => num_val(text@) > i64::MAX as int,
        },
{
    let mut acc: i64 = 0;
    let mut i: usize = 0;
    proof {
        assert(text@.subrange(0, 0) =~= Seq::<char>::empty());
    }
    while i < text.len()
        invariant
            is_digits(text@),
            i <= text@.len(),
            acc as int == num_val(text@.subrange(0, i as int)),
            acc >= 0,
        decreases text@.len() - i,
    {
        let c = text[i];
        proof {
            assert(in_class(text@[i as int], CharClass::Digit));
        }
        let d = (c as u32 - 48) as i64;
        let next = match acc.checked_mul(10) {
            Some(m) => m.checked_add(d),
            None => None,
        };
        proof {
            assert(text@.subrange(0, i + 1).drop_last() =~= text@.subrange(0, i as int));
            assert(text@.subrange(0, i + 1).last() == text@[i as int]);
        }
        match next {
            Some(v) => {
                acc = v;
            },
            None => {
                proof {
                    assert(num_val(text@.subrange(0, i + 1)) > i64::MAX as int);
                    lemma_num_val_grow(text@, i + 1);
                }
                return None;
            },
        }
        i = i + 1;
    }
    proof {
        assert(text@.subrange(0, text@.len() as int) =~= text@);
    }
    Some(acc)
}

/// The operations of the tokens of `ts` from index `i` on, inside `depth`
/// open array literals. The rightmost token executes first, so the
/// operations of the tokens after `i` stand before the operation of token
/// `i`; an opening bracket, whose array literal completes only after its
/// contents ran, compiles to the collecting marker, and a closing bracket
/// to the opening one. A failure names the index of its token, and an
/// unresolved name carries its text.
pub open spec fn comp(ts: Seq<TokView>, i: int, depth: int) -> Result<Seq<OpView>, CompErrV>
    decreases ts.len() - i,
{
    if i < 0 || i >= ts.len() {
        if depth == 0 {
            Ok(Seq::empty())
        } else {
            Err(
                CompErrV {
                    kind: CompileErrKind::Unbalanced,
                    at: ts.len() as int,
                    name: Seq::empty(),
                },
            )
        }
    } else {
        let t = ts[i];
        match t.kind {
            TokKind::Space | TokKind::Comment => comp(ts, i + 1, depth),
            TokKind::Num => if is_digits(t.text) && num_val(t.text) <= i64::MAX as int {
                comp_snoc(OpView::Push(val_of_num(num_val(t.text))), comp(ts, i + 1, depth))
            } else {
                Err(CompErrV { kind: CompileErrKind::MalformedLiteral, at: i, name: Seq::empty() })
            },
            TokKind::Str => if t.text.len() >= 2 {
                comp_snoc(
                    OpView::Push(
                        crate::value::ValView::CharArr {
                            shape: seq![(t.text.len() - 2) as usize],
                            elems: t.text.subrange(1, t.text.len() - 1),
                        },
                    ),
                    comp(ts, i + 1, depth),
                )
            } else {
                Err(CompErrV { kind: CompileErrKind::MalformedLiteral, at: i, name: Seq::empty() })
            },
            TokKind::Ident | TokKind::Glyph => match resolve_tok(t) {
                Some(p) => comp_snoc(OpView::Call(p), comp(ts, i + 1, depth)),
                None => Err(CompErrV { kind: CompileErrKind::UnknownName, at: i, name: t.text }),
            },
            TokKind::Open => comp_snoc(OpView::ArrEnd, comp(ts, i + 1, depth + 1)),
            TokKind::Close => if depth == 0 {
                Err(CompErrV { kind: CompileErrKind::Unbalanced, at: i, name: Seq::empty() })
            } else {
                comp_snoc(OpView::ArrBegin, comp(ts, i + 1, depth - 1))
            },
        }
    }
}

/// A scalar number value.
pub open spec fn val_of_num(n: int) -> crate::value::ValView {
    crate::value::ValView::Num(n as i64)
}

/// Appends one token's operation after the operations of the tokens that
/// execute before it.
pub open spec fn comp_snoc(op: OpView, r: Result<Seq<OpView>, CompErrV>) -> Result<
    Seq<OpView>,
    CompErrV,
> {
    match r {
        Ok(ops) => Ok(ops.push(op)),
        Err(e) => Err(e),
    }
}

/// The compiled image of a whole token stream.
pub open spec fn spec_compile(ts: Seq<TokView>) -> Result<Seq<OpView>, CompErrV> {
    comp(ts, 0, 0)
}

/// Splices the operations of the tokens already scanned, which execute
/// last, after the outcome of compiling the rest.
pub open spec fn comp_compose(r: Result<Seq<OpView>, CompErrV>, post: Seq<OpView>) -> Result<
    Seq<OpView>,
    CompErrV,
> {
    match r {
        Ok(ops) => Ok(ops + post),
        Err(e) => Err(e),
    }
}

/// Compiles a token stream into a program whose operations run the
/// rightmost token first, or reports the first failure with the index of
/// its token. Every literal the program pushes is a well-formed value.
pub fn compile(tokens: &Vec<Token>) -> (r: Result<Program, CompileErr>)
    ensures
        match r {
            Ok(p) => spec_compile(tokens.deep_view()) == Ok::<Seq<OpView>, CompErrV>(p@)
                && prog_wf(p@),
            Err(e) => spec_compile(tokens.deep_view()) == Err::<Seq<OpView>, CompErrV>(e@),
        },
{
    let ghost tsv = tokens.deep_view();
    let mut ops: Vec<Op> = Vec::new();
    let mut depth: usize = 0;
    let mut i: usize = 0;
    proof {
        assert(tsv.len() == tokens@.len());
        assert(ops.deep_view() =~= Seq::<OpView>::empty());
        match comp(tsv, 0, 0) {
            Ok(os) => {
                assert(os + Seq::<OpView>::empty() =~= os);
            },
            Err(e) => {},
        }
    }
    while i < tokens.len()
        invariant
            tsv == tokens.deep_view(),
            tsv.len() == tokens@.len(),
            i <= tsv.len(),
            depth <= i,
            prog_wf(ops.deep_view()),
            spec_compile(tsv) == comp_compose(comp(tsv, i as int, depth as int), ops.deep_view()),
        decreases tsv.len() - i,
    {
        let ghost pre = ops.deep_view();
        let t = &tokens[i];
        proof {
            assert(t@ == tsv[i as int]);
        }
        match t.kind {
            TokKind::Space | TokKind::Comment => {},
            TokKind::Num => {
                if !all_digits(&t.text) {
                    return Err(
                        CompileErr {
                            kind: CompileErrKind::MalformedLiteral,
                            at: i,
                            name: Vec::new(),
                        },
                    );
                }
                match parse_num(&t.text) {
                    Some(v) => {
                        proof {
                            lemma_num_val_nonneg(tsv[i as int].text);
                        }
                        ops.insert(0, Op::Push(Value::Num(v)));
                        proof {
                            let opv = OpView::Push(val_of_num(num_val(tsv[i as int].text)));
                            assert(ops.deep_view() =~= seq![opv] + pre);
                            lemma_comp_snoc_compose(opv, comp(tsv, i + 1, depth as int), pre);
                        }
                    },
                    None => {
                        return Err(
                            CompileErr {
                                kind: CompileErrKind::MalformedLiteral,
                                at: i,
                                name: Vec::new(),
                            },
                        );
                    },
                }
            },
            TokKind::Str => {
                if t.text.len() < 2 {
                    return Err(
                        CompileErr {
                            kind: CompileErrKind::MalformedLiteral,
                            at: i,
                            name: Vec::new(),
                        },
                    );
                }
                let k = t.text.len() - 2;
                let elems = copy_range(&t.text, 1, t.text.len() - 1);
                let mut shape: Vec<usize> = Vec::new();
                shape.push(k);
                proof {
                    assert(shape@ =~= seq![k]);
                    lemma_shape_prod_single(k);
                }
                let v = Value::CharArr { shape, elems };
                proof {
                    assert(val_wf(v@));
                }
                ops.insert(0, Op::Push(v));
                proof {
                    let opv = OpView::Push(
                        crate::value::ValView::CharArr {
                            shape: seq![(tsv[i as int].text.len() - 2) as usize],
                            elems: tsv[i as int].text.subrange(1, tsv[i as int].text.len() - 1),
                        },
                    );
                    assert(ops.deep_view() =~= seq![opv] + pre);
                    lemma_comp_snoc_compose(opv, comp(tsv, i + 1, depth as int), pre);
                }
            },
            TokKind::Ident | TokKind::Glyph => {
                let res = if matches!(t.kind, TokKind::Ident) {
                    mnemonic_prim_of(&t.text)
                } else {
                    if t.text.len() == 1 {
                        glyph_prim_of(t.text[0])
                    } else {
                        None
                    }
                };
                proof {
                    assert(res == resolve_tok(tsv[i as int]));
                }
                match res {
                    Some(p) => {
                        ops.insert(0, Op::Call(p));
                        proof {
                            assert(ops.deep_view() =~= seq![OpView::Call(p)] + pre);
                            lemma_comp_snoc_compose(
                                OpView::Call(p),
                                comp(tsv, i + 1, depth as int),
                                pre,
                            );
                        }
                    },
                    None => {
                        return Err(
                            CompileErr {
                                kind: CompileErrKind::UnknownName,
                                at: i,
                                name: copy_vec(&t.text),
                            },
                        );
                    },
                }
            },
            TokKind::Open => {
                depth = depth + 1;
                ops.insert(0, Op::ArrEnd);
                proof {
                    assert(ops.deep_view() =~= seq![OpView::ArrEnd] + pre);
                    lemma_comp_snoc_compose(OpView::ArrEnd, comp(tsv, i + 1, depth as int), pre);
                }
            },
            TokKind::Close => {
                if depth == 0 {
                    return Err(
                        CompileErr { kind: CompileErrKind::Unbalanced, at: i, name: Vec::new() },
                    );
                }
                depth = depth - 1;
                ops.insert(0, Op::ArrBegin);
                proof {
                    assert(ops.deep_view() =~= seq![OpView::ArrBegin] + pre);
                    lemma_comp_snoc_compose(OpView::ArrBegin, comp(tsv, i + 1, depth as int), pre);
                }
            },
        }
        i = i + 1;
    }
    if depth != 0 {
        return Err(
            CompileErr { kind: CompileErrKind::Unbalanced, at: tokens.len(), name: Vec::new() },
        );
    }
    proof {
        match comp(tsv, i as int, 0) {
            Ok(os) => {
                assert(os =~= Seq::<OpView>::empty());
                assert(os + ops.deep_view() =~= ops.deep_view());
            },
            Err(e) => {},
        }
    }
    Ok(Program { ops })
}

} // verus!
