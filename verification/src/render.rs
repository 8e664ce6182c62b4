//! Textual display of values: numbers in decimal with a high minus for
//! negatives, character scalars with a leading `@`, number arrays as a
//! bracketed, space-separated element list, character arrays as a quoted
//! string. Arrays of any rank display their elements flat, in row-major
//! order.

use vstd::prelude::*;
use crate::value::{Value, ValView};

verus! {

/// The character of one decimal digit.
pub open spec fn digit_char(d: int) -> char {
    if d == 0 {
        '0'
    } else if d == 1 {
        '1'
    } else if d == 2 {
        '2'
    } else if d == 3 {
        '3'
    } else if d == 4 {
        '4'
    } else if d == 5 {
        '5'
    } else if d == 6 {
        '6'
    } else if d == 7 {
        '7'
    } else if d == 8 {
        '8'
    } else {
        '9'
    }
}

/// The decimal digits of a non-negative number, most significant first.
pub open spec fn dec_digits(n: int) -> Seq<char>
    recommends
        n >= 0,
    decreases n,
{
    if n < 10 {
        seq![digit_char(n)]
    } else {
        dec_digits(n / 10).push(digit_char(n % 10))
    }
}

/// The display of a number: its digits, with a high minus when negative.
pub open spec fn num_text(n: int) -> Seq<char> {
    if n < 0 {
        seq!['\u{00af}'] + dec_digits(-n)
    } else {
        dec_digits(n)
    }
}

/// The space-separated display of a sequence of numbers.
pub open spec fn join_nums(es: Seq<i64>) -> Seq<char>
    decreases es.len(),
{
    if es.len() == 0 {
        Seq::empty()
    } else if es.len() == 1 {
        num_text(es[0] as int)
    } else {
        num_text(es[0] as int) + seq![' '] + join_nums(es.drop_first())
    }
}

/// Appending one number to a joined display.
pub proof fn lemma_join_nums_push(es: Seq<i64>, x: i64)
    ensures
        join_nums(es.push(x)) == if es.len() == 0 {
            num_text(x as int)
        } else {
            join_nums(es) + seq![' '] + num_text(x as int)
        },
    decreases es.len(),
{
    if es.len() == 0 {
        assert(es.push(x) =~= seq![x]);
        assert(join_nums(seq![x]) == num_text(x as int));
    } else {
        assert(es.push(x).drop_first() =~= es.drop_first().push(x));
        lemma_join_nums_push(es.drop_first(), x);
        if es.len() == 1 {
            assert(es.drop_first().len() == 0);
            assert(join_nums(es.push(x)) == num_text(es[0] as int) + seq![' '] + num_text(
                x as int,
            ));
        } else {
            assert(num_text(es[0] as int) + seq![' '] + (join_nums(es.drop_first()) + seq![' ']
                + num_text(x as int)) =~= (num_text(es[0] as int) + seq![' '] + join_nums(
                es.drop_first(),
            )) + seq![' '] + num_text(x as int));
        }
    }
}

/// The display of a value.
pub open spec fn val_text(v: ValView) -> Seq<char> {
    match v {
        ValView::Num(x) => num_text(x as int),
        ValView::Char(c) => seq!['@', c],
        ValView::NumArr { shape, elems } => seq!['['] + join_nums(elems) + seq![']'],
        ValView::CharArr { shape, elems } => seq!['"'] + elems + seq!['"'],
    }
}

/// Executable twin of [`digit_char`].
fn digit_char_of(d: u64) -> (c: char)
    requires
        d < 10,
    ensures
        c == digit_char(d as int),
{
    if d == 0 {
        '0'
    } else if d == 1 {
        '1'
    } else if d == 2 {
        '2'
    } else if d == 3 {
        '3'
    } else if d == 4 {
        '4'
    } else if d == 5 {
        '5'
    } else if d == 6 {
        '6'
    } else if d == 7 {
        '7'
    } else if d == 8 {
        '8'
    } else {
        '9'
    }
}

/// Appends the decimal digits of `m` to `out`.
pub fn push_dec(out: &mut Vec<char>, m: u64)
    ensures
        final(out)@ == old(out)@ + dec_digits(m as int),
    decreases m,
{
    if m >= 10 {
        push_dec(out, m / 10);
        out.push(digit_char_of(m % 10));
        proof {
            assert(old(out)@ + dec_digits((m / 10) as int).push(digit_char((m % 10) as int))
                =~= (old(out)@ + dec_digits((m / 10) as int)).push(digit_char((m % 10) as int)));
        }
    } else {
        out.push(digit_char_of(m));
        proof {
            assert(old(out)@ + seq![digit_char(m as int)] =~= old(out)@.push(
                digit_char(m as int),
            ));
        }
    }
}

/// Appends the display of the number `n` to `out`.
fn push_num(out: &mut Vec<char>, n: i64)
    ensures
        final(out)@ == old(out)@ + num_text(n as int),
{
    if n < 0 {
        out.push('\u{00af}');
        let m = (-(n as i128)) as u64;
        proof {
            assert(m as int == -(n as int));
        }
        push_dec(out, m);
        proof {
            assert(out@ =~= old(out)@ + (seq!['\u{00af}'] + dec_digits(-(n as int))));
        }
    } else {
        push_dec(out, n as u64);
    }
}

/// The display of one value as characters.
pub fn val_chars(v: &Value) -> (out: Vec<char>)
    ensures
        out@ == val_text(v@),
{
    let mut out: Vec<char> = Vec::new();
    match v {
        Value::Num(x) => {
            push_num(&mut out, *x);
        },
        Value::Char(c) => {
            out.push('@');
            out.push(*c);
            proof {
                assert(out@ =~= seq!['@', *c]);
            }
        },
        Value::NumArr { shape, elems } => {
            out.push('[');
            let mut i: usize = 0;
            proof {
                assert(elems@.subrange(0, 0) =~= Seq::<i64>::empty());
                assert(out@ =~= seq!['['] + join_nums(elems@.subrange(0, 0)));
            }
            while i < elems.len()
                invariant
                    i <= elems@.len(),
                    v@ == (ValView::NumArr { shape: shape@, elems: elems@ }),
                    out@ == seq!['['] + join_nums(elems@.subrange(0, i as int)),
                decreases elems@.len() - i,
            {
                if i > 0 {
                    out.push(' ');
                }
                push_num(&mut out, elems[i]);
                proof {
                    let pre = elems@.subrange(0, i as int);
                    assert(elems@.subrange(0, i + 1) =~= pre.push(elems@[i as int]));
                    lemma_join_nums_push(pre, elems@[i as int]);
                    if i == 0 {
                        assert(out@ =~= seq!['['] + join_nums(elems@.subrange(0, i + 1)));
                    } else {
                        assert((seq!['['] + join_nums(pre)) + seq![' '] + num_text(
                            elems@[i as int] as int,
                        ) =~= seq!['['] + (join_nums(pre) + seq![' '] + num_text(
                            elems@[i as int] as int,
                        )));
                        assert(out@ =~= seq!['['] + join_nums(elems@.subrange(0, i + 1)));
                    }
                }
                i = i + 1;
            }
            out.push(']');
            proof {
                assert(elems@.subrange(0, elems@.len() as int) =~= elems@);
                assert(out@ =~= (seq!['['] + join_nums(elems@)) + seq![']']);
                assert((seq!['['] + join_nums(elems@)) + seq![']'] =~= seq!['['] + join_nums(
                    elems@,
                ) + seq![']']);
            }
        },
        Value::CharArr { shape, elems } => {
            out.push('"');
            let mut i: usize = 0;
            proof {
                assert(out@ =~= seq!['"'] + elems@.subrange(0, 0));
            }
            while i < elems.len()
                invariant
                    i <= elems@.len(),
                    v@ == (ValView::CharArr { shape: shape@, elems: elems@ }),
                    out@ == seq!['"'] + elems@.subrange(0, i as int),
                decreases elems@.len() - i,
            {
                out.push(elems[i]);
                proof {
                    assert(out@ =~= seq!['"'] + elems@.subrange(0, i + 1));
                }
                i = i + 1;
            }
            out.push('"');
            proof {
                assert(elems@.subrange(0, elems@.len() as int) =~= elems@);
                assert(out@ =~= seq!['"'] + elems@ + seq!['"']);
            }
        },
    }
    out
}

} // verus!
