//! The value model: scalar numbers, scalar characters, and n-dimensional
//! arrays of numbers or of characters. An array carries an ordered shape and
//! a flat, row-major element sequence; its invariant is that the product of
//! the shape dimensions equals the element count. Values are immutable once
//! constructed: every operation builds new values.

use vstd::prelude::*;

verus! {

/// A runtime value: a scalar number, a scalar character, or a homogeneous
/// n-dimensional array of one of the two.
pub enum Value {
    /// A scalar number.
    Num(i64),
    /// A scalar character.
    Char(char),
    /// An array of numbers: a shape and its row-major elements.
    NumArr { shape: Vec<usize>, elems: Vec<i64> },
    /// An array of characters: a shape and its row-major elements.
    CharArr { shape: Vec<usize>, elems: Vec<char> },
}

/// The mathematical image of a value.
pub enum ValView {
    Num(i64),
    Char(char),
    NumArr { shape: Seq<usize>, elems: Seq<i64> },
    CharArr { shape: Seq<usize>, elems: Seq<char> },
}

impl View for Value {
    type V = ValView;

    open spec fn view(&self) -> ValView {
        match self {
            Value::Num(x) => ValView::Num(*x),
            Value::Char(c) => ValView::Char(*c),
            Value::NumArr { shape, elems } => ValView::NumArr { shape: shape@, elems: elems@ },
            Value::CharArr { shape, elems } => ValView::CharArr { shape: shape@, elems: elems@ },
        }
    }
}

impl DeepView for Value {
    type V = ValView;

    open spec fn deep_view(&self) -> ValView {
        self@
    }
}

/// The number of elements a shape calls for: the product of its dimensions.
pub open spec fn shape_prod(sh: Seq<usize>) -> nat
    decreases sh.len(),
{
    if sh.len() == 0 {
        1
    } else {
        (sh[0] * shape_prod(sh.drop_first())) as nat
    }
}

/// Well-formedness of a value: an array has a non-empty shape whose product
/// is its element count; scalars carry no obligation.
pub open spec fn val_wf(v: ValView) -> bool {
    match v {
        ValView::Num(_) => true,
        ValView::Char(_) => true,
        ValView::NumArr { shape, elems } => shape.len() >= 1 && elems.len() == shape_prod(shape),
        ValView::CharArr { shape, elems } => shape.len() >= 1 && elems.len() == shape_prod(shape),
    }
}

/// The product of a shape with one dimension prepended.
pub proof fn lemma_shape_prod_cons(k: usize, sh: Seq<usize>)
    ensures
        shape_prod(seq![k] + sh) == k * shape_prod(sh),
{
    assert((seq![k] + sh).len() > 0);
    assert((seq![k] + sh)[0] == k);
    assert((seq![k] + sh).drop_first() =~= sh);
}

/// The product of a shape with one dimension alone.
pub proof fn lemma_shape_prod_single(k: usize)
    ensures
        shape_prod(seq![k]) == k,
{
    assert(seq![k] =~= seq![k] + Seq::<usize>::empty());
    lemma_shape_prod_cons(k, Seq::<usize>::empty());
    assert(shape_prod(Seq::<usize>::empty()) == 1);
}

/// Whether two shapes are the same.
pub fn eq_shapes(a: &Vec<usize>, b: &Vec<usize>) -> (r: bool)
    ensures
        r == (a@ == b@),
{
    if a.len() != b.len() {
        return false;
    }
    let mut i: usize = 0;
    while i < a.len()
        invariant
            a@.len() == b@.len(),
            i <= a@.len(),
            forall|j: int| 0 <= j < i ==> a@[j] == b@[j],
        decreases a@.len() - i,
    {
        if a[i] != b[i] {
            return false;
        }
        i = i + 1;
    }
    proof {
        assert(a@ =~= b@);
    }
    true
}

/// Copies a vector of copyable elements.
pub fn copy_vec<T: Copy>(v: &Vec<T>) -> (r: Vec<T>)
    ensures
        r@ == v@,
{
    let mut r: Vec<T> = Vec::new();
    let mut i: usize = 0;
    proof {
        assert(r@ =~= v@.subrange(0, 0));
    }
    while i < v.len()
        invariant
            i <= v@.len(),
            r@ == v@.subrange(0, i as int),
        decreases v@.len() - i,
    {
        r.push(v[i]);
        proof {
            assert(r@ =~= v@.subrange(0, i + 1));
        }
        i = i + 1;
    }
    proof {
        assert(v@.subrange(0, v@.len() as int) =~= v@);
    }
    r
}

/// Copies a value; values are immutable, so a copy stands for the original.
pub fn copy_value(v: &Value) -> (r: Value)
    ensures
        r@ == v@,
{
    match v {
        Value::Num(x) => Value::Num(*x),
        Value::Char(c) => Value::Char(*c),
        Value::NumArr { shape, elems } => Value::NumArr {
            shape: copy_vec(shape),
            elems: copy_vec(elems),
        },
        Value::CharArr { shape, elems } => Value::CharArr {
            shape: copy_vec(shape),
            elems: copy_vec(elems),
        },
    }
}

} // verus!
