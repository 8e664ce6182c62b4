//! The stack machine: compiled operations, the evaluation step relation, and
//! the executable evaluator.
//!
//! A program is a finite sequence of operations with no backward jumps, so
//! every evaluation terminates; no operation budget is needed. Each run
//! builds a fresh stack, and the outcome is a pure function of the program:
//! evaluation is deterministic. Arithmetic is element-wise after
//! broadcasting: a scalar operand pairs with every element of an array
//! operand, arrays must agree in shape exactly, and every element operation
//! is checked so that a result outside the number range reports a failure
//! instead of wrapping.

use vstd::prelude::*;
use crate::prim::{Prim, arity};
use crate::value::{Value, ValView, val_wf, shape_prod, copy_value, copy_vec, eq_shapes,
    lemma_shape_prod_cons, lemma_shape_prod_single};

verus! {

/// One compiled instruction.
pub enum Op {
    /// Pushes a copy of a literal value.
    Push(Value),
    /// Invokes a builtin.
    Call(Prim),
    /// Marks the start of an array literal: remembers the stack depth.
    ArrBegin,
    /// Marks the end of an array literal: collects the values pushed since
    /// the matching start into one array.
    ArrEnd,
}

/// The mathematical image of an instruction.
pub enum OpView {
    Push(ValView),
    Call(Prim),
    ArrBegin,
    ArrEnd,
}

impl View for Op {
    type V = OpView;

    open spec fn view(&self) -> OpView {
        match self {
            Op::Push(v) => OpView::Push(v@),
            Op::Call(p) => OpView::Call(*p),
            Op::ArrBegin => OpView::ArrBegin,
            Op::ArrEnd => OpView::ArrEnd,
        }
    }
}

impl DeepView for Op {
    type V = OpView;

    open spec fn deep_view(&self) -> OpView {
        self@
    }
}

/// A compiled program: its operations, in execution order.
pub struct Program {
    pub ops: Vec<Op>,
}

impl View for Program {
    type V = Seq<OpView>;

    open spec fn view(&self) -> Seq<OpView> {
        self.ops.deep_view()
    }
}

/// Every literal a program pushes is a well-formed value.
pub open spec fn prog_wf(ops: Seq<OpView>) -> bool {
    forall|i: int|
        0 <= i < ops.len() ==> match #[trigger] ops[i] {
            OpView::Push(v) => val_wf(v),
            _ => true,
        }
}

/// An evaluation failure.
pub enum EvalErr {
    /// A builtin found fewer operands on the stack than its arity, or an
    /// array literal closed past the depth it opened at.
    StackUnderflow,
    /// Two non-scalar operands of unequal shapes, named left and right.
    ShapeMismatch { left: Vec<usize>, right: Vec<usize> },
    /// An operand of the wrong tag, or an inhomogeneous array literal.
    TypeMismatch,
    /// An element operation left the number range.
    Overflow,
}

/// The mathematical image of an evaluation failure.
pub enum EvalErrV {
    StackUnderflow,
    ShapeMismatch { left: Seq<usize>, right: Seq<usize> },
    TypeMismatch,
    Overflow,
}

impl View for EvalErr {
    type V = EvalErrV;

    open spec fn view(&self) -> EvalErrV {
        match self {
            EvalErr::StackUnderflow => EvalErrV::StackUnderflow,
            EvalErr::ShapeMismatch { left, right } => EvalErrV::ShapeMismatch {
                left: left@,
                right: right@,
            },
            EvalErr::TypeMismatch => EvalErrV::TypeMismatch,
            EvalErr::Overflow => EvalErrV::Overflow,
        }
    }
}

/// The machine state between operations: the value stack and the depths at
/// which open array literals started.
pub struct StateV {
    pub stack: Seq<ValView>,
    pub frames: Seq<usize>,
}

/// The outcome of a run: the final stack, or a failure with the partial
/// stack at the point of failure.
pub enum OutcomeV {
    Success(Seq<ValView>),
    Failure(EvalErrV, Seq<ValView>),
}

/// Whether a builtin is one of the element-wise binary operations.
pub open spec fn is_bin(p: Prim) -> bool {
    p == Prim::Add || p == Prim::Sub || p == Prim::Mul
}

/// The unbounded value of one element operation.
pub open spec fn bin_int(p: Prim, x: int, y: int) -> int {
    if p == Prim::Sub {
        x - y
    } else if p == Prim::Mul {
        x * y
    } else {
        x + y
    }
}

/// Whether an unbounded value fits the number representation.
pub open spec fn fits_i64(n: int) -> bool {
    i64::MIN as int <= n && n <= i64::MAX as int
}

/// Element-wise application of a binary operation to two element sequences
/// of equal length: the mapped sequence, or a failure when any element
/// result leaves the number range.
pub open spec fn bin_elems(p: Prim, xs: Seq<i64>, ys: Seq<i64>) -> Result<Seq<i64>, EvalErrV>
    recommends
        xs.len() == ys.len(),
{
    if forall|i: int| 0 <= i < xs.len() ==> fits_i64(bin_int(p, #[trigger] xs[i] as int, ys[i] as int)) {
        Ok(Seq::new(xs.len(), |i: int| bin_int(p, xs[i] as int, ys[i] as int) as i64))
    } else {
        Err(EvalErrV::Overflow)
    }
}

/// A constant element sequence: a broadcast scalar.
pub open spec fn splat(n: nat, x: i64) -> Seq<i64> {
    Seq::new(n, |i: int| x)
}

/// The result of a binary builtin on two operands: scalars combine directly,
/// a scalar broadcasts over an array, arrays must agree in shape exactly,
/// and characters take no arithmetic.
pub open spec fn bin_apply(p: Prim, a: ValView, b: ValView) -> Result<ValView, EvalErrV> {
    match (a, b) {
        (ValView::Num(x), ValView::Num(y)) => if fits_i64(bin_int(p, x as int, y as int)) {
            Ok(ValView::Num(bin_int(p, x as int, y as int) as i64))
        } else {
            Err(EvalErrV::Overflow)
        },
        (ValView::Num(x), ValView::NumArr { shape, elems }) => match bin_elems(
            p,
            splat(elems.len(), x),
            elems,
        ) {
            Ok(es) => Ok(ValView::NumArr { shape, elems: es }),
            Err(e) => Err(e),
        },
        (ValView::NumArr { shape, elems }, ValView::Num(y)) => match bin_elems(
            p,
            elems,
            splat(elems.len(), y),
        ) {
            Ok(es) => Ok(ValView::NumArr { shape, elems: es }),
            Err(e) => Err(e),
        },
        (
            ValView::NumArr { shape: sha, elems: ea },
            ValView::NumArr { shape: shb, elems: eb },
        ) => if sha == shb {
            match bin_elems(p, ea, eb) {
                Ok(es) => Ok(ValView::NumArr { shape: sha, elems: es }),
                Err(e) => Err(e),
            }
        } else {
            Err(EvalErrV::ShapeMismatch { left: sha, right: shb })
        },
        _ => Err(EvalErrV::TypeMismatch),
    }
}

/// The result of negation on one operand.
pub open spec fn neg_apply(a: ValView) -> Result<ValView, EvalErrV> {
    match a {
        ValView::Num(x) => if fits_i64(-(x as int)) {
            Ok(ValView::Num((-(x as int)) as i64))
        } else {
            Err(EvalErrV::Overflow)
        },
        ValView::NumArr { shape, elems } => if forall|i: int|
            0 <= i < elems.len() ==> fits_i64(-(#[trigger] elems[i] as int)) {
            Ok(
                ValView::NumArr {
                    shape,
                    elems: Seq::new(elems.len(), |i: int| (-(elems[i] as int)) as i64),
                },
            )
        } else {
            Err(EvalErrV::Overflow)
        },
        _ => Err(EvalErrV::TypeMismatch),
    }
}

/// The result of taking the length of one operand: the first dimension of an
/// array, or one for a scalar.
pub open spec fn len_apply(a: ValView) -> Result<ValView, EvalErrV> {
    match a {
        ValView::Num(_) => Ok(ValView::Num(1)),
        ValView::Char(_) => Ok(ValView::Num(1)),
        ValView::NumArr { shape, .. } => if shape[0] as int <= i64::MAX as int {
            Ok(ValView::Num(shape[0] as i64))
        } else {
            Err(EvalErrV::Overflow)
        },
        ValView::CharArr { shape, .. } => if shape[0] as int <= i64::MAX as int {
            Ok(ValView::Num(shape[0] as i64))
        } else {
            Err(EvalErrV::Overflow)
        },
    }
}

/// The result of the range builtin: the first `n` naturals for a
/// non-negative scalar number `n`, a failure otherwise.
pub open spec fn range_apply(a: ValView) -> Result<ValView, EvalErrV> {
    match a {
        ValView::Num(n) => if n < 0 {
            Err(EvalErrV::TypeMismatch)
        } else if n as int <= usize::MAX as int {
            Ok(
                ValView::NumArr {
                    shape: seq![n as usize],
                    elems: Seq::new(n as nat, |i: int| i as i64),
                },
            )
        } else {
            Err(EvalErrV::Overflow)
        },
        _ => Err(EvalErrV::TypeMismatch),
    }
}

/// What a builtin pushes, given the operands it popped, bottom first.
pub open spec fn prim_apply(p: Prim, args: Seq<ValView>) -> Result<Seq<ValView>, EvalErrV>
    recommends
        args.len() == arity(p),
{
    match p {
        Prim::Add | Prim::Sub | Prim::Mul => match bin_apply(p, args[0], args[1]) {
            Ok(v) => Ok(seq![v]),
            Err(e) => Err(e),
        },
        Prim::Neg => match neg_apply(args[0]) {
            Ok(v) => Ok(seq![v]),
            Err(e) => Err(e),
        },
        Prim::Dup => Ok(seq![args[0], args[0]]),
        Prim::Flip => Ok(seq![args[1], args[0]]),
        Prim::Pop => Ok(Seq::empty()),
        Prim::Len => match len_apply(args[0]) {
            Ok(v) => Ok(seq![v]),
            Err(e) => Err(e),
        },
        Prim::Range => match range_apply(args[0]) {
            Ok(v) => Ok(seq![v]),
            Err(e) => Err(e),
        },
    }
}

/// Collects a run of scalar numbers, topmost value first.
pub open spec fn coll_nums(vs: Seq<ValView>) -> Result<Seq<i64>, EvalErrV>
    decreases vs.len(),
{
    if vs.len() == 0 {
        Ok(Seq::empty())
    } else {
        match vs.last() {
            ValView::Num(x) => match coll_nums(vs.drop_last()) {
                Ok(r) => Ok(seq![x] + r),
                Err(e) => Err(e),
            },
            _ => Err(EvalErrV::TypeMismatch),
        }
    }
}

/// Collects a run of scalar characters, topmost value first.
pub open spec fn coll_chars(vs: Seq<ValView>) -> Result<Seq<char>, EvalErrV>
    decreases vs.len(),
{
    if vs.len() == 0 {
        Ok(Seq::empty())
    } else {
        match vs.last() {
            ValView::Char(c) => match coll_chars(vs.drop_last()) {
                Ok(r) => Ok(seq![c] + r),
                Err(e) => Err(e),
            },
            _ => Err(EvalErrV::TypeMismatch),
        }
    }
}

/// Collects a run of number arrays that all share the shape `sh`,
/// flattening their elements topmost array first.
pub open spec fn coll_num_arrs(vs: Seq<ValView>, sh: Seq<usize>) -> Result<Seq<i64>, EvalErrV>
    decreases vs.len(),
{
    if vs.len() == 0 {
        Ok(Seq::empty())
    } else {
        match vs.last() {
            ValView::NumArr { shape, elems } => if shape == sh {
                match coll_num_arrs(vs.drop_last(), sh) {
                    Ok(r) => Ok(elems + r),
                    Err(e) => Err(e),
                }
            } else {
                Err(EvalErrV::ShapeMismatch { left: sh, right: shape })
            },
            _ => Err(EvalErrV::TypeMismatch),
        }
    }
}

/// Collects a run of character arrays that all share the shape `sh`,
/// topmost array first.
pub open spec fn coll_char_arrs(vs: Seq<ValView>, sh: Seq<usize>) -> Result<Seq<char>, EvalErrV>
    decreases vs.len(),
{
    if vs.len() == 0 {
        Ok(Seq::empty())
    } else {
        match vs.last() {
            ValView::CharArr { shape, elems } => if shape == sh {
                match coll_char_arrs(vs.drop_last(), sh) {
                    Ok(r) => Ok(elems + r),
                    Err(e) => Err(e),
                }
            } else {
                Err(EvalErrV::ShapeMismatch { left: sh, right: shape })
            },
            _ => Err(EvalErrV::TypeMismatch),
        }
    }
}

/// Forms one array from the values an array literal collected. The topmost
/// value was pushed last, which under rightmost-first execution is the
/// leftmost in source, so elements are taken topmost first to restore
/// source order: scalars stack into a rank-one array, arrays of one common
/// shape stack into an array of one higher rank, anything mixed is refused.
pub open spec fn collect(vs: Seq<ValView>) -> Result<ValView, EvalErrV> {
    if vs.len() == 0 {
        Ok(ValView::NumArr { shape: seq![0usize], elems: Seq::empty() })
    } else {
        match vs.last() {
            ValView::Num(_) => match coll_nums(vs) {
                Ok(es) => Ok(ValView::NumArr { shape: seq![vs.len() as usize], elems: es }),
                Err(e) => Err(e),
            },
            ValView::Char(_) => match coll_chars(vs) {
                Ok(es) => Ok(ValView::CharArr { shape: seq![vs.len() as usize], elems: es }),
                Err(e) => Err(e),
            },
            ValView::NumArr { shape: sh0, .. } => match coll_num_arrs(vs, sh0) {
                Ok(es) => Ok(
                    ValView::NumArr { shape: seq![vs.len() as usize] + sh0, elems: es },
                ),
                Err(e) => Err(e),
            },
            ValView::CharArr { shape: sh0, .. } => match coll_char_arrs(vs, sh0) {
                Ok(es) => Ok(
                    ValView::CharArr { shape: seq![vs.len() as usize] + sh0, elems: es },
                ),
                Err(e) => Err(e),
            },
        }
    }
}

/// One transition of the machine.
pub open spec fn step(st: StateV, op: OpView) -> Result<StateV, EvalErrV> {
    match op {
        OpView::Push(v) => Ok(StateV { stack: st.stack.push(v), frames: st.frames }),
        OpView::Call(p) => if st.stack.len() < arity(p) {
            Err(EvalErrV::StackUnderflow)
        } else {
            let k = arity(p) as int;
            let args = st.stack.subrange(st.stack.len() - k, st.stack.len() as int);
            match prim_apply(p, args) {
                Ok(out) => Ok(
                    StateV {
                        stack: st.stack.subrange(0, st.stack.len() - k) + out,
                        frames: st.frames,
                    },
                ),
                Err(e) => Err(e),
            }
        },
        OpView::ArrBegin => Ok(
            StateV { stack: st.stack, frames: st.frames.push(st.stack.len() as usize) },
        ),
        OpView::ArrEnd => if st.frames.len() == 0 {
            Err(EvalErrV::StackUnderflow)
        } else {
            let d = st.frames.last() as int;
            if st.stack.len() < d {
                Err(EvalErrV::StackUnderflow)
            } else {
                match collect(st.stack.subrange(d, st.stack.len() as int)) {
                    Ok(v) => Ok(
                        StateV {
                            stack: st.stack.subrange(0, d).push(v),
                            frames: st.frames.drop_last(),
                        },
                    ),
                    Err(e) => Err(e),
                }
            }
        },
    }
}

/// Runs the remaining operations from a state: the final stack, or the first
/// failure together with the stack at that point.
pub open spec fn run_ops(ops: Seq<OpView>, st: StateV) -> OutcomeV
    decreases ops.len(),
{
    if ops.len() == 0 {
        OutcomeV::Success(st.stack)
    } else {
        match step(st, ops[0]) {
            Ok(st2) => run_ops(ops.drop_first(), st2),
            Err(e) => OutcomeV::Failure(e, st.stack),
        }
    }
}

/// The outcome of a whole program, from an empty stack.
pub open spec fn spec_eval(ops: Seq<OpView>) -> OutcomeV {
    run_ops(ops, StateV { stack: Seq::empty(), frames: Seq::empty() })
}

/// The outcome of one run, as the machine reports it.
pub enum ExecOutcome {
    /// The program ran to its end; the final stack, bottom first.
    Success { stack: Vec<Value> },
    /// The run failed; the failure and the stack at that point.
    Failure { err: EvalErr, partial: Vec<Value> },
}

impl View for ExecOutcome {
    type V = OutcomeV;

    open spec fn view(&self) -> OutcomeV {
        match self {
            ExecOutcome::Success { stack } => OutcomeV::Success(stack.deep_view()),
            ExecOutcome::Failure { err, partial } => OutcomeV::Failure(err@, partial.deep_view()),
        }
    }
}

/// Executable twin of [`arity`].
pub fn arity_of(p: Prim) -> (n: usize)
    ensures
        n == arity(p),
{
    match p {
        Prim::Add => 2,
        Prim::Sub => 2,
        Prim::Mul => 2,
        Prim::Neg => 1,
        Prim::Dup => 1,
        Prim::Flip => 2,
        Prim::Pop => 1,
        Prim::Len => 1,
        Prim::Range => 1,
    }
}

/// One checked element operation.
fn checked_bin(p: Prim, x: i64, y: i64) -> (r: Option<i64>)
    requires
        is_bin(p),
    ensures
        match r {
            Some(v) => fits_i64(bin_int(p, x as int, y as int)) && v as int == bin_int(
                p,
                x as int,
                y as int,
            ),
            None => !fits_i64(bin_int(p, x as int, y as int)),
        },
{
    match p {
        Prim::Add => x.checked_add(y),
        Prim::Sub => x.checked_sub(y),
        Prim::Mul => x.checked_mul(y),
        _ => None,
    }
}

/// Element-wise checked application over two equally long element vectors.
fn bin_elems_exec(p: Prim, xs: &Vec<i64>, ys: &Vec<i64>) -> (r: Result<Vec<i64>, EvalErr>)
    requires
        is_bin(p),
        xs@.len() == ys@.len(),
    ensures
        match r {
            Ok(out) => bin_elems(p, xs@, ys@) == Ok::<Seq<i64>, EvalErrV>(out@),
            Err(e) => e@ == EvalErrV::Overflow && bin_elems(p, xs@, ys@) == Err::<
                Seq<i64>,
                EvalErrV,
            >(EvalErrV::Overflow),
        },
{
    let mut out: Vec<i64> = Vec::new();
    let mut i: usize = 0;
    while i < xs.len()
        invariant
            is_bin(p),
            xs@.len() == ys@.len(),
            i <= xs@.len(),
            out@.len() == i,
            forall|j: int|
                0 <= j < i ==> fits_i64(bin_int(p, #[trigger] xs@[j] as int, ys@[j] as int))
                    && out@[j] as int == bin_int(p, xs@[j] as int, ys@[j] as int),
        decreases xs@.len() - i,
    {
        match checked_bin(p, xs[i], ys[i]) {
            Some(v) => {
                out.push(v);
            },
            None => {
                proof {
                    assert(!fits_i64(bin_int(p, xs@[i as int] as int, ys@[i as int] as int)));
                }
                return Err(EvalErr::Overflow);
            },
        }
        i = i + 1;
    }
    proof {
        assert(out@ =~= Seq::new(xs@.len(), |j: int| bin_int(p, xs@[j] as int, ys@[j] as int) as i64));
    }
    Ok(out)
}

/// A binary builtin on two operands.
fn bin_num_exec(p: Prim, a: &Value, b: &Value) -> (r: Result<Value, EvalErr>)
    requires
        is_bin(p),
        val_wf(a@),
        val_wf(b@),
    ensures
        match r {
            Ok(v) => bin_apply(p, a@, b@) == Ok::<ValView, EvalErrV>(v@) && val_wf(v@),
            Err(e) => bin_apply(p, a@, b@) == Err::<ValView, EvalErrV>(e@),
        },
{
    match (a, b) {
        (Value::Num(x), Value::Num(y)) => match checked_bin(p, *x, *y) {
            Some(v) => Ok(Value::Num(v)),
            None => Err(EvalErr::Overflow),
        },
        (Value::Num(x), Value::NumArr { shape, elems }) => {
            let xs: Vec<i64> = vec![*x; elems.len()];
            proof {
                assert(xs@ =~= splat(elems@.len(), *x));
            }
            match bin_elems_exec(p, &xs, elems) {
                Ok(out) => Ok(Value::NumArr { shape: copy_vec(shape), elems: out }),
                Err(e) => Err(e),
            }
        },
        (Value::NumArr { shape, elems }, Value::Num(y)) => {
            let ys: Vec<i64> = vec![*y; elems.len()];
            proof {
                assert(ys@ =~= splat(elems@.len(), *y));
            }
            match bin_elems_exec(p, elems, &ys) {
                Ok(out) => Ok(Value::NumArr { shape: copy_vec(shape), elems: out }),
                Err(e) => Err(e),
            }
        },
        (Value::NumArr { shape: sha, elems: ea }, Value::NumArr { shape: shb, elems: eb }) => {
            if eq_shapes(sha, shb) {
                match bin_elems_exec(p, ea, eb) {
                    Ok(out) => Ok(Value::NumArr { shape: copy_vec(sha), elems: out }),
                    Err(e) => Err(e),
                }
            } else {
                Err(EvalErr::ShapeMismatch { left: copy_vec(sha), right: copy_vec(shb) })
            }
        },
        _ => Err(EvalErr::TypeMismatch),
    }
}

/// Negation of one operand.
fn neg_exec(a: &Value) -> (r: Result<Value, EvalErr>)
    requires
        val_wf(a@),
    ensures
        match r {
            Ok(v) => neg_apply(a@) == Ok::<ValView, EvalErrV>(v@) && val_wf(v@),
            Err(e) => neg_apply(a@) == Err::<ValView, EvalErrV>(e@),
        },
{
    match a {
        Value::Num(x) => match (0i64).checked_sub(*x) {
            Some(v) => Ok(Value::Num(v)),
            None => Err(EvalErr::Overflow),
        },
        Value::NumArr { shape, elems } => {
            let mut out: Vec<i64> = Vec::new();
            let mut i: usize = 0;
            while i < elems.len()
                invariant
                    i <= elems@.len(),
                    out@.len() == i,
                    a@ == (ValView::NumArr { shape: shape@, elems: elems@ }),
                    forall|j: int|
                        0 <= j < i ==> fits_i64(-(#[trigger] elems@[j] as int)) && out@[j] as int
                            == -(elems@[j] as int),
                decreases elems@.len() - i,
            {
                match (0i64).checked_sub(elems[i]) {
                    Some(v) => {
                        out.push(v);
                    },
                    None => {
                        proof {
                            assert(!fits_i64(-(elems@[i as int] as int)));
                            assert(!(forall|j: int|
                                0 <= j < elems@.len() ==> fits_i64(
                                    -(#[trigger] elems@[j] as int),
                                )));
                        }
                        return Err(EvalErr::Overflow);
                    },
                }
                i = i + 1;
            }
            proof {
                assert(out@ =~= Seq::new(elems@.len(), |j: int| (-(elems@[j] as int)) as i64));
            }
            Ok(Value::NumArr { shape: copy_vec(shape), elems: out })
        },
        _ => Err(EvalErr::TypeMismatch),
    }
}

/// The length builtin on one operand.
fn len_exec(a: &Value) -> (r: Result<Value, EvalErr>)
    requires
        val_wf(a@),
    ensures
        match r {
            Ok(v) => len_apply(a@) == Ok::<ValView, EvalErrV>(v@) && val_wf(v@),
            Err(e) => len_apply(a@) == Err::<ValView, EvalErrV>(e@),
        },
{
    match a {
        Value::Num(_) => Ok(Value::Num(1)),
        Value::Char(_) => Ok(Value::Num(1)),
        Value::NumArr { shape, .. } => {
            let d = shape[0];
            if d as u64 <= i64::MAX as u64 {
                Ok(Value::Num(d as i64))
            } else {
                Err(EvalErr::Overflow)
            }
        },
        Value::CharArr { shape, .. } => {
            let d = shape[0];
            if d as u64 <= i64::MAX as u64 {
                Ok(Value::Num(d as i64))
            } else {
                Err(EvalErr::Overflow)
            }
        },
    }
}

/// The range builtin on one operand.
fn range_exec(a: &Value) -> (r: Result<Value, EvalErr>)
    requires
        val_wf(a@),
    ensures
        match r {
            Ok(v) => range_apply(a@) == Ok::<ValView, EvalErrV>(v@) && val_wf(v@),
            Err(e) => range_apply(a@) == Err::<ValView, EvalErrV>(e@),
        },
{
    match a {
        Value::Num(n) => {
            if *n < 0 {
                Err(EvalErr::TypeMismatch)
            } else if (*n as u64) > (usize::MAX as u64) {
                Err(EvalErr::Overflow)
            } else {
                let k = *n as usize;
                let mut elems: Vec<i64> = Vec::new();
                let mut i: usize = 0;
                while i < k
                    invariant
                        i <= k,
                        k as u64 <= i64::MAX as u64,
                        elems@.len() == i,
                        forall|j: int| 0 <= j < i ==> #[trigger] elems@[j] as int == j,
                    decreases k - i,
                {
                    elems.push(i as i64);
                    i = i + 1;
                }
                let mut shape: Vec<usize> = Vec::new();
                shape.push(k);
                proof {
                    assert(elems@ =~= Seq::new(*n as nat, |j: int| j as i64));
                    assert(shape@ =~= seq![*n as usize]);
                    lemma_shape_prod_single(k);
                }
                Ok(Value::NumArr { shape, elems })
            }
        },
        _ => Err(EvalErr::TypeMismatch),
    }
}

/// Collects the scalar numbers of the first `i` values of `vs`, topmost
/// first.
fn coll_nums_exec(vs: &Vec<Value>, i: usize) -> (r: Result<Vec<i64>, EvalErr>)
    requires
        i <= vs@.len(),
    ensures
        match r {
            Ok(out) => coll_nums(vs.deep_view().subrange(0, i as int)) == Ok::<
                Seq<i64>,
                EvalErrV,
            >(out@) && out@.len() == i,
            Err(e) => coll_nums(vs.deep_view().subrange(0, i as int)) == Err::<
                Seq<i64>,
                EvalErrV,
            >(e@),
        },
    decreases i,
{
    let ghost pre = vs.deep_view().subrange(0, i as int);
    if i == 0 {
        proof {
            assert(pre =~= Seq::<ValView>::empty());
        }
        Ok(Vec::new())
    } else {
        proof {
            assert(pre.last() == vs.deep_view()[i - 1]);
            assert(pre.drop_last() =~= vs.deep_view().subrange(0, i - 1));
        }
        match &vs[i - 1] {
            Value::Num(x) => match coll_nums_exec(vs, i - 1) {
                Ok(mut rest) => {
                    let ghost rest0 = rest@;
                    let mut out: Vec<i64> = Vec::new();
                    out.push(*x);
                    out.append(&mut rest);
                    proof {
                        assert(out@ =~= seq![*x] + rest0);
                    }
                    Ok(out)
                },
                Err(e) => Err(e),
            },
            _ => Err(EvalErr::TypeMismatch),
        }
    }
}

/// Collects the scalar characters of the first `i` values of `vs`, topmost
/// first.
fn coll_chars_exec(vs: &Vec<Value>, i: usize) -> (r: Result<Vec<char>, EvalErr>)
    requires
        i <= vs@.len(),
    ensures
        match r {
            Ok(out) => coll_chars(vs.deep_view().subrange(0, i as int)) == Ok::<
                Seq<char>,
                EvalErrV,
            >(out@) && out@.len() == i,
            Err(e) => coll_chars(vs.deep_view().subrange(0, i as int)) == Err::<
                Seq<char>,
                EvalErrV,
            >(e@),
        },
    decreases i,
{
    let ghost pre = vs.deep_view().subrange(0, i as int);
    if i == 0 {
        proof {
            assert(pre =~= Seq::<ValView>::empty());
        }
        Ok(Vec::new())
    } else {
        proof {
            assert(pre.last() == vs.deep_view()[i - 1]);
            assert(pre.drop_last() =~= vs.deep_view().subrange(0, i - 1));
        }
        match &vs[i - 1] {
            Value::Char(c) => match coll_chars_exec(vs, i - 1) {
                Ok(mut rest) => {
                    let ghost rest0 = rest@;
                    let mut out: Vec<char> = Vec::new();
                    out.push(*c);
                    out.append(&mut rest);
                    proof {
                        assert(out@ =~= seq![*c] + rest0);
                    }
                    Ok(out)
                },
                Err(e) => Err(e),
            },
            _ => Err(EvalErr::TypeMismatch),
        }
    }
}

/// Collects the number arrays among the first `i` values of `vs`, all of
/// shape `sh`, flattening their elements topmost array first.
fn coll_num_arrs_exec(vs: &Vec<Value>, i: usize, sh: &Vec<usize>) -> (r: Result<
    Vec<i64>,
    EvalErr,
>)
    requires
        i <= vs@.len(),
        forall|j: int| 0 <= j < vs@.len() ==> val_wf(#[trigger] vs.deep_view()[j]),
    ensures
        match r {
            Ok(out) => coll_num_arrs(vs.deep_view().subrange(0, i as int), sh@)
                == Ok::<Seq<i64>, EvalErrV>(out@) && out@.len() == i * shape_prod(sh@),
            Err(e) => coll_num_arrs(vs.deep_view().subrange(0, i as int), sh@)
                == Err::<Seq<i64>, EvalErrV>(e@),
        },
    decreases i,
{
    let ghost pre = vs.deep_view().subrange(0, i as int);
    if i == 0 {
        proof {
            assert(pre =~= Seq::<ValView>::empty());
        }
        Ok(Vec::new())
    } else {
        proof {
            assert(pre.last() == vs.deep_view()[i - 1]);
            assert(pre.drop_last() =~= vs.deep_view().subrange(0, i - 1));
        }
        match &vs[i - 1] {
            Value::NumArr { shape, elems } => {
                if eq_shapes(shape, sh) {
                    match coll_num_arrs_exec(vs, i - 1, sh) {
                        Ok(mut rest) => {
                            let mut out: Vec<i64> = copy_vec(elems);
                            out.append(&mut rest);
                            proof {
                                assert(val_wf(vs.deep_view()[i - 1]));
                                assert(elems@.len() == shape_prod(sh@));
                                assert(i * shape_prod(sh@) == shape_prod(sh@) + (i - 1)
                                    * shape_prod(sh@)) by (nonlinear_arith);
                            }
                            Ok(out)
                        },
                        Err(e) => Err(e),
                    }
                } else {
                    Err(EvalErr::ShapeMismatch { left: copy_vec(sh), right: copy_vec(shape) })
                }
            },
            _ => Err(EvalErr::TypeMismatch),
        }
    }
}

/// Collects the character arrays among the first `i` values of `vs`, all of
/// shape `sh`, flattening their elements topmost array first.
fn coll_char_arrs_exec(vs: &Vec<Value>, i: usize, sh: &Vec<usize>) -> (r: Result<
    Vec<char>,
    EvalErr,
>)
    requires
        i <= vs@.len(),
        forall|j: int| 0 <= j < vs@.len() ==> val_wf(#[trigger] vs.deep_view()[j]),
    ensures
        match r {
            Ok(out) => coll_char_arrs(vs.deep_view().subrange(0, i as int), sh@)
                == Ok::<Seq<char>, EvalErrV>(out@) && out@.len() == i * shape_prod(sh@),
            Err(e) => coll_char_arrs(vs.deep_view().subrange(0, i as int), sh@)
                == Err::<Seq<char>, EvalErrV>(e@),
        },
    decreases i,
{
    let ghost pre = vs.deep_view().subrange(0, i as int);
    if i == 0 {
        proof {
            assert(pre =~= Seq::<ValView>::empty());
        }
        Ok(Vec::new())
    } else {
        proof {
            assert(pre.last() == vs.deep_view()[i - 1]);
            assert(pre.drop_last() =~= vs.deep_view().subrange(0, i - 1));
        }
        match &vs[i - 1] {
            Value::CharArr { shape, elems } => {
                if eq_shapes(shape, sh) {
                    match coll_char_arrs_exec(vs, i - 1, sh) {
                        Ok(mut rest) => {
                            let mut out: Vec<char> = copy_vec(elems);
                            out.append(&mut rest);
                            proof {
                                assert(val_wf(vs.deep_view()[i - 1]));
                                assert(elems@.len() == shape_prod(sh@));
                                assert(i * shape_prod(sh@) == shape_prod(sh@) + (i - 1)
                                    * shape_prod(sh@)) by (nonlinear_arith);
                            }
                            Ok(out)
                        },
                        Err(e) => Err(e),
                    }
                } else {
                    Err(EvalErr::ShapeMismatch { left: copy_vec(sh), right: copy_vec(shape) })
                }
            },
            _ => Err(EvalErr::TypeMismatch),
        }
    }
}

/// Forms one array from the values an array literal collected.
fn collect_exec(vs: &Vec<Value>) -> (r: Result<Value, EvalErr>)
    requires
        forall|j: int| 0 <= j < vs@.len() ==> val_wf(#[trigger] vs.deep_view()[j]),
    ensures
        match r {
            Ok(v) => collect(vs.deep_view()) == Ok::<ValView, EvalErrV>(v@) && val_wf(v@),
            Err(e) => collect(vs.deep_view()) == Err::<ValView, EvalErrV>(e@),
        },
{
    let n = vs.len();
    if n == 0 {
        let mut shape: Vec<usize> = Vec::new();
        shape.push(0);
        proof {
            assert(vs.deep_view() =~= Seq::<ValView>::empty());
            assert(shape@ =~= seq![0usize]);
            lemma_shape_prod_single(0);
        }
        Ok(Value::NumArr { shape, elems: Vec::new() })
    } else {
        proof {
            assert(vs.deep_view().subrange(0, vs@.len() as int) =~= vs.deep_view());
            assert(vs.deep_view().last() == vs.deep_view()[n - 1]);
        }
        match &vs[n - 1] {
            Value::Num(_) => match coll_nums_exec(vs, n) {
                Ok(out) => {
                    let mut shape: Vec<usize> = Vec::new();
                    shape.push(n);
                    proof {
                        assert(shape@ =~= seq![n]);
                        lemma_shape_prod_single(n);
                    }
                    Ok(Value::NumArr { shape, elems: out })
                },
                Err(e) => Err(e),
            },
            Value::Char(_) => match coll_chars_exec(vs, n) {
                Ok(out) => {
                    let mut shape: Vec<usize> = Vec::new();
                    shape.push(n);
                    proof {
                        assert(shape@ =~= seq![n]);
                        lemma_shape_prod_single(n);
                    }
                    Ok(Value::CharArr { shape, elems: out })
                },
                Err(e) => Err(e),
            },
            Value::NumArr { shape: sh0, .. } => match coll_num_arrs_exec(vs, n, sh0) {
                Ok(out) => {
                    let mut shape: Vec<usize> = Vec::new();
                    shape.push(n);
                    let mut tail = copy_vec(sh0);
                    shape.append(&mut tail);
                    proof {
                        assert(shape@ =~= seq![n] + sh0@);
                        lemma_shape_prod_cons(n, sh0@);
                    }
                    Ok(Value::NumArr { shape, elems: out })
                },
                Err(e) => Err(e),
            },
            Value::CharArr { shape: sh0, .. } => match coll_char_arrs_exec(vs, n, sh0) {
                Ok(out) => {
                    let mut shape: Vec<usize> = Vec::new();
                    shape.push(n);
                    let mut tail = copy_vec(sh0);
                    shape.append(&mut tail);
                    proof {
                        assert(shape@ =~= seq![n] + sh0@);
                        lemma_shape_prod_cons(n, sh0@);
                    }
                    Ok(Value::CharArr { shape, elems: out })
                },
                Err(e) => Err(e),
            },
        }
    }
}

/// Well-formedness of every value on a stack.
pub open spec fn stack_wf(s: Seq<ValView>) -> bool {
    forall|j: int| 0 <= j < s.len() ==> val_wf(#[trigger] s[j])
}

/// Applies one builtin to the stack in place: pops its operands, pushes its
/// results. On failure the stack is left exactly as it was.
fn do_call(p: Prim, stack: &mut Vec<Value>) -> (r: Option<EvalErr>)
    requires
        stack_wf(old(stack).deep_view()),
    ensures
        match r {
            None => {
                &&& old(stack).deep_view().len() >= arity(p)
                &&& prim_apply(
                    p,
                    old(stack).deep_view().subrange(
                        old(stack).deep_view().len() - arity(p),
                        old(stack).deep_view().len() as int,
                    ),
                ) matches Ok(out) && final(stack).deep_view() == old(stack).deep_view().subrange(
                    0,
                    old(stack).deep_view().len() - arity(p),
                ) + out
                &&& stack_wf(final(stack).deep_view())
            },
            Some(e) => {
                &&& final(stack)@ == old(stack)@
                &&& if old(stack).deep_view().len() < arity(p) {
                    e@ == EvalErrV::StackUnderflow
                } else {
                    prim_apply(
                        p,
                        old(stack).deep_view().subrange(
                            old(stack).deep_view().len() - arity(p),
                            old(stack).deep_view().len() as int,
                        ),
                    ) == Err::<Seq<ValView>, EvalErrV>(e@)
                }
            },
        },
{
    let ghost st0 = stack.deep_view();
    let n0 = stack.len();
    proof {
        assert(st0.len() == stack@.len());
    }
    let k = arity_of(p);
    if n0 < k {
        return Some(EvalErr::StackUnderflow);
    }
    let ghost args = st0.subrange(st0.len() - arity(p), st0.len() as int);
    match p {
        Prim::Add | Prim::Sub | Prim::Mul => {
            let b = &stack[n0 - 1];
            let a = &stack[n0 - 2];
            proof {
                assert(a@ == st0[n0 - 2]);
                assert(b@ == st0[n0 - 1]);
                assert(args =~= seq![a@, b@]);
            }
            match bin_num_exec(p, a, b) {
                Ok(v) => {
                    let ghost vv = v@;
                    stack.pop();
                    stack.pop();
                    stack.push(v);
                    proof {
                        assert(prim_apply(p, args) == Ok::<Seq<ValView>, EvalErrV>(seq![vv]));
                        assert(stack.deep_view() =~= st0.subrange(0, st0.len() - 2) + seq![vv]);
                    }
                    None
                },
                Err(e) => {
                    proof {
                        assert(prim_apply(p, args) == Err::<Seq<ValView>, EvalErrV>(e@));
                    }
                    Some(e)
                },
            }
        },
        Prim::Neg | Prim::Len | Prim::Range => {
            let a = &stack[n0 - 1];
            proof {
                assert(a@ == st0[n0 - 1]);
                assert(args =~= seq![a@]);
            }
            let res = match p {
                Prim::Neg => neg_exec(a),
                Prim::Len => len_exec(a),
                _ => range_exec(a),
            };
            match res {
                Ok(v) => {
                    let ghost vv = v@;
                    stack.pop();
                    stack.push(v);
                    proof {
                        assert(prim_apply(p, args) == Ok::<Seq<ValView>, EvalErrV>(seq![vv]));
                        assert(stack.deep_view() =~= st0.subrange(0, st0.len() - 1) + seq![vv]);
                    }
                    None
                },
                Err(e) => {
                    proof {
                        assert(prim_apply(p, args) == Err::<Seq<ValView>, EvalErrV>(e@));
                    }
                    Some(e)
                },
            }
        },
        Prim::Dup => {
            let v = copy_value(&stack[n0 - 1]);
            proof {
                assert(v@ == st0[n0 - 1]);
                assert(args =~= seq![v@]);
            }
            stack.push(v);
            proof {
                assert(prim_apply(p, args) == Ok::<Seq<ValView>, EvalErrV>(
                    seq![st0[n0 - 1], st0[n0 - 1]],
                ));
                assert(stack.deep_view() =~= st0.subrange(0, st0.len() - 1) + seq![
                    st0[n0 - 1],
                    st0[n0 - 1],
                ]);
            }
            None
        },
        Prim::Flip => {
            let b = stack.pop().unwrap();
            let a = stack.pop().unwrap();
            proof {
                assert(a@ == st0[n0 - 2]);
                assert(b@ == st0[n0 - 1]);
                assert(args =~= seq![a@, b@]);
            }
            let ghost av = a@;
            let ghost bv = b@;
            stack.push(b);
            stack.push(a);
            proof {
                assert(prim_apply(p, args) == Ok::<Seq<ValView>, EvalErrV>(seq![bv, av]));
                assert(stack.deep_view() =~= st0.subrange(0, st0.len() - 2) + seq![bv, av]);
            }
            None
        },
        Prim::Pop => {
            stack.pop();
            proof {
                assert(prim_apply(p, args) == Ok::<Seq<ValView>, EvalErrV>(Seq::empty()));
                assert(stack.deep_view() =~= st0.subrange(0, st0.len() - 1) + Seq::<
                    ValView,
                >::empty());
            }
            None
        },
    }
}

/// Runs a compiled program against a fresh stack: the final stack, or the
/// first failure with the stack at that point. The outcome is exactly the
/// one the step relation prescribes, so two runs of one program agree.
pub fn evaluate(prog: &Program) -> (r: ExecOutcome)
    requires
        prog_wf(prog@),
    ensures
        r@ == spec_eval(prog@),
{
    let n = prog.ops.len();
    let mut stack: Vec<Value> = Vec::new();
    let mut frames: Vec<usize> = Vec::new();
    let mut i: usize = 0;
    proof {
        assert(prog@.len() == prog.ops@.len());
        assert(stack.deep_view() =~= Seq::<ValView>::empty());
        assert(prog@.subrange(0, n as int) =~= prog@);
    }
    while i < n
        invariant
            prog_wf(prog@),
            n == prog@.len(),
            n == prog.ops@.len(),
            i <= n,
            stack_wf(stack.deep_view()),
            spec_eval(prog@) == run_ops(
                prog@.subrange(i as int, n as int),
                StateV { stack: stack.deep_view(), frames: frames@ },
            ),
        decreases n - i,
    {
        let ghost st0 = StateV { stack: stack.deep_view(), frames: frames@ };
        let ghost suf = prog@.subrange(i as int, n as int);
        proof {
            assert(suf[0] == prog@[i as int]);
            assert(prog@[i as int] == prog.ops@[i as int]@);
            assert(suf.drop_first() =~= prog@.subrange(i + 1, n as int));
        }
        match &prog.ops[i] {
            Op::Push(v) => {
                proof {
                    assert(val_wf(v@));
                }
                let c = copy_value(v);
                stack.push(c);
                proof {
                    assert(stack.deep_view() =~= st0.stack.push(v@));
                    assert(step(st0, suf[0]) == Ok::<StateV, EvalErrV>(
                        StateV { stack: st0.stack.push(v@), frames: st0.frames },
                    ));
                }
            },
            Op::Call(p) => {
                match do_call(*p, &mut stack) {
                    None => {
                        proof {
                            assert(step(st0, suf[0]) == Ok::<StateV, EvalErrV>(
                                StateV { stack: stack.deep_view(), frames: st0.frames },
                            ));
                        }
                    },
                    Some(e) => {
                        proof {
                            assert(step(st0, suf[0]) == Err::<StateV, EvalErrV>(e@));
                            assert(run_ops(suf, st0) == OutcomeV::Failure(e@, st0.stack));
                        }
                        return ExecOutcome::Failure { err: e, partial: stack };
                    },
                }
            },
            Op::ArrBegin => {
                frames.push(stack.len());
                proof {
                    assert(stack@.len() == st0.stack.len());
                    assert(frames@ =~= st0.frames.push(st0.stack.len() as usize));
                    assert(step(st0, suf[0]) == Ok::<StateV, EvalErrV>(
                        StateV {
                            stack: st0.stack,
                            frames: st0.frames.push(st0.stack.len() as usize),
                        },
                    ));
                }
            },
            Op::ArrEnd => {
                if frames.len() == 0 {
                    proof {
                        assert(step(st0, suf[0]) == Err::<StateV, EvalErrV>(
                            EvalErrV::StackUnderflow,
                        ));
                        assert(run_ops(suf, st0) == OutcomeV::Failure(
                            EvalErrV::StackUnderflow,
                            st0.stack,
                        ));
                    }
                    return ExecOutcome::Failure { err: EvalErr::StackUnderflow, partial: stack };
                }
                let d = frames[frames.len() - 1];
                proof {
                    assert(d == st0.frames.last());
                }
                if stack.len() < d {
                    proof {
                        assert(stack@.len() == st0.stack.len());
                        assert(step(st0, suf[0]) == Err::<StateV, EvalErrV>(
                            EvalErrV::StackUnderflow,
                        ));
                        assert(run_ops(suf, st0) == OutcomeV::Failure(
                            EvalErrV::StackUnderflow,
                            st0.stack,
                        ));
                    }
                    return ExecOutcome::Failure { err: EvalErr::StackUnderflow, partial: stack };
                }
                frames.pop();
                let mut tail = stack.split_off(d);
                proof {
                    assert(tail.deep_view() =~= st0.stack.subrange(
                        d as int,
                        st0.stack.len() as int,
                    ));
                    assert(stack.deep_view() =~= st0.stack.subrange(0, d as int));
                    assert(forall|j: int|
                        0 <= j < tail@.len() ==> val_wf(#[trigger] tail.deep_view()[j]));
                }
                match collect_exec(&tail) {
                    Ok(v) => {
                        stack.push(v);
                        proof {
                            assert(stack.deep_view() =~= st0.stack.subrange(0, d as int).push(
                                v@,
                            ));
                            assert(frames@ =~= st0.frames.drop_last());
                            assert(step(st0, suf[0]) == Ok::<StateV, EvalErrV>(
                                StateV {
                                    stack: st0.stack.subrange(0, d as int).push(v@),
                                    frames: st0.frames.drop_last(),
                                },
                            ));
                        }
                    },
                    Err(e) => {
                        stack.append(&mut tail);
                        proof {
                            assert(stack.deep_view() =~= st0.stack);
                            assert(step(st0, suf[0]) == Err::<StateV, EvalErrV>(e@));
                            assert(run_ops(suf, st0) == OutcomeV::Failure(e@, st0.stack));
                        }
                        return ExecOutcome::Failure { err: e, partial: stack };
                    },
                }
            },
        }
        i = i + 1;
    }
    proof {
        assert(prog@.subrange(i as int, n as int) =~= Seq::<OpView>::empty());
    }
    ExecOutcome::Success { stack }
}

} // verus!
