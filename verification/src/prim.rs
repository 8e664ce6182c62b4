//! The builtin table: operation identifiers, their arities, their canonical
//! glyphs and their ASCII mnemonics. The table is a fixed, read-only mapping;
//! both the formatter and the compiler resolve names against it.

use vstd::prelude::*;
use crate::token::TokView;
use crate::token::TokKind;

verus! {

/// A builtin operation of the language.
#[derive(Clone, Copy, PartialEq, Eq, Structural)]
pub enum Prim {
    /// Element-wise addition.
    Add,
    /// Element-wise subtraction.
    Sub,
    /// Element-wise multiplication.
    Mul,
    /// Element-wise negation.
    Neg,
    /// Duplicates the top of the stack.
    Dup,
    /// Swaps the two top values of the stack.
    Flip,
    /// Discards the top of the stack.
    Pop,
    /// The length of the first axis of an array, or one for a scalar.
    Len,
    /// The first `n` naturals, counted from zero, as a rank-one array.
    Range,
}

/// How many operands the builtin pops from the stack.
pub open spec fn arity(p: Prim) -> nat {
    match p {
        Prim::Add => 2,
        Prim::Sub => 2,
        Prim::Mul => 2,
        Prim::Neg => 1,
        Prim::Dup => 1,
        Prim::Flip => 2,
        Prim::Pop => 1,
        Prim::Len => 1,
        Prim::Range => 1,
    }
}

/// The canonical glyph of a builtin.
pub open spec fn glyph_of(p: Prim) -> char {
    match p {
        Prim::Add => '+',
        Prim::Sub => '-',
        Prim::Mul => '\u{00d7}',
        Prim::Neg => '\u{00af}',
        Prim::Dup => '.',
        Prim::Flip => ':',
        Prim::Pop => '\u{25cc}',
        Prim::Len => '\u{29fb}',
        Prim::Range => '\u{21e1}',
    }
}

/// Executable twin of [`glyph_of`].
pub fn glyph_char_of(p: Prim) -> (c: char)
    ensures
        c == glyph_of(p),
{
    match p {
        Prim::Add => '+',
        Prim::Sub => '-',
        Prim::Mul => '\u{00d7}',
        Prim::Neg => '\u{00af}',
        Prim::Dup => '.',
        Prim::Flip => ':',
        Prim::Pop => '\u{25cc}',
        Prim::Len => '\u{29fb}',
        Prim::Range => '\u{21e1}',
    }
}

/// The builtin whose canonical glyph is `c`, if any.
pub open spec fn glyph_prim(c: char) -> Option<Prim> {
    if c == '+' {
        Some(Prim::Add)
    } else if c == '-' {
        Some(Prim::Sub)
    } else if c == '\u{00d7}' {
        Some(Prim::Mul)
    } else if c == '\u{00af}' {
        Some(Prim::Neg)
    } else if c == '.' {
        Some(Prim::Dup)
    } else if c == ':' {
        Some(Prim::Flip)
    } else if c == '\u{25cc}' {
        Some(Prim::Pop)
    } else if c == '\u{29fb}' {
        Some(Prim::Len)
    } else if c == '\u{21e1}' {
        Some(Prim::Range)
    } else {
        None
    }
}

/// Executable twin of [`glyph_prim`].
pub fn glyph_prim_of(c: char) -> (r: Option<Prim>)
    ensures
        r == glyph_prim(c),
{
    if c == '+' {
        Some(Prim::Add)
    } else if c == '-' {
        Some(Prim::Sub)
    } else if c == '\u{00d7}' {
        Some(Prim::Mul)
    } else if c == '\u{00af}' {
        Some(Prim::Neg)
    } else if c == '.' {
        Some(Prim::Dup)
    } else if c == ':' {
        Some(Prim::Flip)
    } else if c == '\u{25cc}' {
        Some(Prim::Pop)
    } else if c == '\u{29fb}' {
        Some(Prim::Len)
    } else if c == '\u{21e1}' {
        Some(Prim::Range)
    } else {
        None
    }
}

/// The ASCII mnemonic of a builtin, as a character sequence.
pub open spec fn mnemonic_of(p: Prim) -> Seq<char> {
    match p {
        Prim::Add => seq!['a', 'd', 'd'],
        Prim::Sub => seq!['s', 'u', 'b'],
        Prim::Mul => seq!['m', 'u', 'l'],
        Prim::Neg => seq!['n', 'e', 'g'],
        Prim::Dup => seq!['d', 'u', 'p'],
        Prim::Flip => seq!['f', 'l', 'i', 'p'],
        Prim::Pop => seq!['p', 'o', 'p'],
        Prim::Len => seq!['l', 'e', 'n'],
        Prim::Range => seq!['r', 'a', 'n', 'g', 'e'],
    }
}

/// The builtin whose ASCII mnemonic is `t`, if any.
pub open spec fn mnemonic_prim(t: Seq<char>) -> Option<Prim> {
    if t == mnemonic_of(Prim::Add) {
        Some(Prim::Add)
    } else if t == mnemonic_of(Prim::Sub) {
        Some(Prim::Sub)
    } else if t == mnemonic_of(Prim::Mul) {
        Some(Prim::Mul)
    } else if t == mnemonic_of(Prim::Neg) {
        Some(Prim::Neg)
    } else if t == mnemonic_of(Prim::Dup) {
        Some(Prim::Dup)
    } else if t == mnemonic_of(Prim::Flip) {
        Some(Prim::Flip)
    } else if t == mnemonic_of(Prim::Pop) {
        Some(Prim::Pop)
    } else if t == mnemonic_of(Prim::Len) {
        Some(Prim::Len)
    } else if t == mnemonic_of(Prim::Range) {
        Some(Prim::Range)
    } else {
        None
    }
}

/// Executable twin of [`mnemonic_prim`].
pub fn mnemonic_prim_of(t: &Vec<char>) -> (r: Option<Prim>)
    ensures
        r == mnemonic_prim(t@),
{
    let n = t.len();
    if n == 3 && t[0] == 'a' && t[1] == 'd' && t[2] == 'd' {
        proof {
            assert(t@ =~= mnemonic_of(Prim::Add));
        }
        Some(Prim::Add)
    } else if n == 3 && t[0] == 's' && t[1] == 'u' && t[2] == 'b' {
        proof {
            assert(t@ =~= mnemonic_of(Prim::Sub));
        }
        Some(Prim::Sub)
    } else if n == 3 && t[0] == 'm' && t[1] == 'u' && t[2] == 'l' {
        proof {
            assert(t@ =~= mnemonic_of(Prim::Mul));
        }
        Some(Prim::Mul)
    } else if n == 3 && t[0] == 'n' && t[1] == 'e' && t[2] == 'g' {
        proof {
            assert(t@ =~= mnemonic_of(Prim::Neg));
        }
        Some(Prim::Neg)
    } else if n == 3 && t[0] == 'd' && t[1] == 'u' && t[2] == 'p' {
        proof {
            assert(t@ =~= mnemonic_of(Prim::Dup));
        }
        Some(Prim::Dup)
    } else if n == 4 && t[0] == 'f' && t[1] == 'l' && t[2] == 'i' && t[3] == 'p' {
        proof {
            assert(t@ =~= mnemonic_of(Prim::Flip));
        }
        Some(Prim::Flip)
    } else if n == 3 && t[0] == 'p' && t[1] == 'o' && t[2] == 'p' {
        proof {
            assert(t@ =~= mnemonic_of(Prim::Pop));
        }
        Some(Prim::Pop)
    } else if n == 3 && t[0] == 'l' && t[1] == 'e' && t[2] == 'n' {
        proof {
            assert(t@ =~= mnemonic_of(Prim::Len));
        }
        Some(Prim::Len)
    } else if n == 5 && t[0] == 'r' && t[1] == 'a' && t[2] == 'n' && t[3] == 'g' && t[4] == 'e' {
        proof {
            assert(t@ =~= mnemonic_of(Prim::Range));
        }
        Some(Prim::Range)
    } else {
        proof {
            assert(t@ != mnemonic_of(Prim::Add));
            assert(t@ != mnemonic_of(Prim::Sub));
            assert(t@ != mnemonic_of(Prim::Mul));
            assert(t@ != mnemonic_of(Prim::Neg));
            assert(t@ != mnemonic_of(Prim::Dup));
            assert(t@ != mnemonic_of(Prim::Flip));
            assert(t@ != mnemonic_of(Prim::Pop));
            assert(t@ != mnemonic_of(Prim::Len));
            assert(t@ != mnemonic_of(Prim::Range));
        }
        None
    }
}

/// The builtin a name token resolves to: an identifier through its mnemonic,
/// a glyph through the glyph table; any other kind resolves to nothing.
pub open spec fn resolve_tok(t: TokView) -> Option<Prim> {
    if t.kind == TokKind::Ident {
        mnemonic_prim(t.text)
    } else if t.kind == TokKind::Glyph && t.text.len() == 1 {
        glyph_prim(t.text[0])
    } else {
        None
    }
}

} // verus!
