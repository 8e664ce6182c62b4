//! Lexical analysis: classifying source text into tokens.
//!
//! A token is a kind together with the exact slice of source text it covers,
//! so that concatenating the texts of the tokens of a source string gives the
//! string back. Identifier, number and blank tokens are maximal runs of their
//! character class; glyphs and brackets are single characters; strings run
//! from a quote to the matching quote; comments run from `#` to the end of
//! the line.

use vstd::prelude::*;

verus! {

/// The kind of a lexical token.
#[derive(Clone, Copy, PartialEq, Eq, Structural)]
pub enum TokKind {
    /// A run of ASCII letters: a mnemonic or other identifier.
    Ident,
    /// A single symbolic glyph naming a builtin.
    Glyph,
    /// A run of ASCII digits: a numeric literal.
    Num,
    /// A quoted string literal, quotes included in the text.
    Str,
    /// The opening bracket of an array literal.
    Open,
    /// The closing bracket of an array literal.
    Close,
    /// A run of blank characters.
    Space,
    /// A comment from `#` to the end of its line, newline excluded.
    Comment,
}

/// A lexical token: its kind and its exact source text.
pub struct Token {
    pub kind: TokKind,
    pub text: Vec<char>,
}

/// The mathematical image of a token: a kind and a sequence of characters.
pub struct TokView {
    pub kind: TokKind,
    pub text: Seq<char>,
}

impl View for Token {
    type V = TokView;

    open spec fn view(&self) -> TokView {
        TokView { kind: self.kind, text: self.text@ }
    }
}

impl DeepView for Token {
    type V = TokView;

    open spec fn deep_view(&self) -> TokView {
        self@
    }
}

/// What went wrong while scanning.
#[derive(Clone, Copy, PartialEq, Eq, Structural)]
pub enum LexErrKind {
    /// A string literal was opened but never closed on its line.
    UnterminatedStr,
    /// A character that belongs to no token class.
    BadChar,
}

/// A scanning failure: its kind and the character offset of the token start
/// where it was detected.
#[derive(Clone, Copy, PartialEq, Eq, Structural)]
pub struct LexErr {
    pub kind: LexErrKind,
    pub at: usize,
}

/// The character classes whose tokens are maximal runs.
#[derive(Clone, Copy, PartialEq, Eq, Structural)]
pub enum CharClass {
    /// ASCII letters.
    Letter,
    /// ASCII digits.
    Digit,
    /// Spaces, tabs, carriage returns and newlines.
    Blank,
    /// Characters allowed inside a string literal: anything but a quote or
    /// a newline.
    StrInner,
    /// Characters allowed inside a comment: anything but a newline.
    NonNewline,
}

/// Whether `c` is in class `k`.
pub open spec fn in_class(c: char, k: CharClass) -> bool {
    match k {
        CharClass::Letter => (97 <= c as u32 && c as u32 <= 122) || (65 <= c as u32 && c as u32
            <= 90),
        CharClass::Digit => 48 <= c as u32 && c as u32 <= 57,
        CharClass::Blank => c == ' ' || c == '\t' || c == '\n' || c == '\r',
        CharClass::StrInner => c != '"' && c != '\n',
        CharClass::NonNewline => c != '\n',
    }
}

/// Executable twin of [`in_class`].
pub fn class_has(c: char, k: CharClass) -> (b: bool)
    ensures
        b == in_class(c, k),
{
    let u = c as u32;
    match k {
        CharClass::Letter => (97 <= u && u <= 122) || (65 <= u && u <= 90),
        CharClass::Digit => 48 <= u && u <= 57,
        CharClass::Blank => c == ' ' || c == '\t' || c == '\n' || c == '\r',
        CharClass::StrInner => c != '"' && c != '\n',
        CharClass::NonNewline => c != '\n',
    }
}

/// The glyph characters of the builtin table.
pub open spec fn is_glyph(c: char) -> bool {
    c == '+' || c == '-' || c == '\u{00d7}' || c == '\u{00af}' || c == '.' || c == ':' || c
        == '\u{25cc}' || c == '\u{29fb}' || c == '\u{21e1}'
}

/// Executable twin of [`is_glyph`].
pub fn glyph_char(c: char) -> (b: bool)
    ensures
        b == is_glyph(c),
{
    c == '+' || c == '-' || c == '\u{00d7}' || c == '\u{00af}' || c == '.' || c == ':' || c
        == '\u{25cc}' || c == '\u{29fb}' || c == '\u{21e1}'
}

/// The length of the longest prefix of `s` all of whose characters are in
/// class `k`.
pub open spec fn run_len(s: Seq<char>, k: CharClass) -> nat
    decreases s.len(),
{
    if s.len() == 0 || !in_class(s[0], k) {
        0
    } else {
        (1 + run_len(s.drop_first(), k)) as nat
    }
}

/// `run_len` is exactly the first index out of class, or the length.
pub proof fn lemma_run_len_char(s: Seq<char>, k: CharClass, n: nat)
    requires
        n <= s.len(),
        forall|i: int| 0 <= i < n ==> in_class(#[trigger] s[i], k),
        n < s.len() ==> !in_class(s[n as int], k),
    ensures
        run_len(s, k) == n,
    decreases s.len(),
{
    if s.len() == 0 {
    } else if n == 0 {
    } else {
        assert(in_class(s[0], k));
        lemma_run_len_char(s.drop_first(), k, (n - 1) as nat);
    }
}

/// A run never reaches past the end of the text.
pub proof fn lemma_run_len_le(s: Seq<char>, k: CharClass)
    ensures
        run_len(s, k) <= s.len(),
        forall|i: int| 0 <= i < run_len(s, k) ==> in_class(#[trigger] s[i], k),
        run_len(s, k) < s.len() ==> !in_class(s[run_len(s, k) as int], k),
    decreases s.len(),
{
    if s.len() == 0 || !in_class(s[0], k) {
    } else {
        lemma_run_len_le(s.drop_first(), k);
        assert forall|i: int| 0 <= i < run_len(s, k) implies in_class(#[trigger] s[i], k) by {
            if i > 0 {
                assert(in_class(s.drop_first()[i - 1], k));
            }
        }
    }
}

/// First index at or after `from` whose character is out of class `k`, or the
/// length of the text.
fn scan(s: &Vec<char>, from: usize, k: CharClass) -> (j: usize)
    requires
        from <= s@.len(),
    ensures
        from <= j <= s@.len(),
        j - from == run_len(s@.subrange(from as int, s@.len() as int), k),
{
    let mut j: usize = from;
    while j < s.len() && class_has(s[j], k)
        invariant
            from <= j <= s@.len(),
            forall|i: int| from <= i < j ==> in_class(#[trigger] s@[i], k),
        decreases s@.len() - j,
    {
        j = j + 1;
    }
    proof {
        let suf = s@.subrange(from as int, s@.len() as int);
        assert(forall|i: int| 0 <= i < j - from ==> in_class(#[trigger] suf[i], k));
        if j < s@.len() {
            assert(suf[j - from] == s@[j as int]);
        }
        lemma_run_len_char(suf, k, (j - from) as nat);
    }
    j
}

/// The first token of a non-empty text: its view and the number of characters
/// it covers, or the failure it starts with.
pub open spec fn lex1(s: Seq<char>) -> Result<(TokView, int), LexErrKind>
    recommends
        s.len() > 0,
{
    let c = s[0];
    if in_class(c, CharClass::Letter) {
        let n = run_len(s, CharClass::Letter) as int;
        Ok((TokView { kind: TokKind::Ident, text: s.subrange(0, n) }, n))
    } else if in_class(c, CharClass::Digit) {
        let n = run_len(s, CharClass::Digit) as int;
        Ok((TokView { kind: TokKind::Num, text: s.subrange(0, n) }, n))
    } else if in_class(c, CharClass::Blank) {
        let n = run_len(s, CharClass::Blank) as int;
        Ok((TokView { kind: TokKind::Space, text: s.subrange(0, n) }, n))
    } else if is_glyph(c) {
        Ok((TokView { kind: TokKind::Glyph, text: s.subrange(0, 1) }, 1))
    } else if c == '[' {
        Ok((TokView { kind: TokKind::Open, text: s.subrange(0, 1) }, 1))
    } else if c == ']' {
        Ok((TokView { kind: TokKind::Close, text: s.subrange(0, 1) }, 1))
    } else if c == '"' {
        let j = run_len(s.drop_first(), CharClass::StrInner) as int;
        if j + 1 < s.len() && s[j + 1] == '"' {
            Ok((TokView { kind: TokKind::Str, text: s.subrange(0, j + 2) }, j + 2))
        } else {
            Err(LexErrKind::UnterminatedStr)
        }
    } else if c == '#' {
        let j = run_len(s.drop_first(), CharClass::NonNewline) as int;
        Ok((TokView { kind: TokKind::Comment, text: s.subrange(0, j + 1) }, j + 1))
    } else {
        Err(LexErrKind::BadChar)
    }
}

/// The token classification of a whole text: the sequence of its tokens, or
/// the kind and character offset of the first failure.
pub open spec fn spec_lex(s: Seq<char>) -> Result<Seq<TokView>, (LexErrKind, int)>
    decreases s.len(),
{
    if s.len() == 0 {
        Ok(Seq::empty())
    } else {
        match lex1(s) {
            Ok((t, n)) => {
                if 0 < n <= s.len() {
                    match spec_lex(s.subrange(n, s.len() as int)) {
                        Ok(ts) => Ok(seq![t] + ts),
                        Err((k, p)) => Err((k, p + n)),
                    }
                } else {
                    Err((LexErrKind::BadChar, 0))
                }
            },
            Err(k) => Err((k, 0)),
        }
    }
}

/// Splices the tokens of a scanned prefix before the outcome of scanning the
/// rest of the text at offset `at`.
pub open spec fn lex_compose(
    pre: Seq<TokView>,
    at: int,
    r: Result<Seq<TokView>, (LexErrKind, int)>,
) -> Result<Seq<TokView>, (LexErrKind, int)> {
    match r {
        Ok(ts) => Ok(pre + ts),
        Err((k, p)) => Err((k, p + at)),
    }
}

/// Scans the first token starting at offset `i` of `s`.
fn lex_one(s: &Vec<char>, i: usize) -> (r: Result<(Token, usize), LexErr>)
    requires
        i < s@.len(),
    ensures
        match r {
            Ok((t, n)) => lex1(s@.subrange(i as int, s@.len() as int)) == Ok::<
                (TokView, int),
                LexErrKind,
            >((t@, n as int)) && i + n <= s@.len() && n >= 1,
            Err(e) => e.at == i && lex1(s@.subrange(i as int, s@.len() as int)) == Err::<
                (TokView, int),
                LexErrKind,
            >(e.kind),
        },
{
    let ghost suf = s@.subrange(i as int, s@.len() as int);
    let slen = s.len();
    let c = s[i];
    assert(suf[0] == c);
    if class_has(c, CharClass::Letter) {
        let j = scan(s, i, CharClass::Letter);
        let t = copy_range(s, i, j);
        proof {
            assert(s@.subrange(i as int, j as int) =~= suf.subrange(0, j - i));
            assert(suf.subrange(i - i, s@.len() - i) =~= suf);
        }
        Ok((Token { kind: TokKind::Ident, text: t }, j - i))
    } else if class_has(c, CharClass::Digit) {
        let j = scan(s, i, CharClass::Digit);
        let t = copy_range(s, i, j);
        proof {
            assert(s@.subrange(i as int, j as int) =~= suf.subrange(0, j - i));
        }
        Ok((Token { kind: TokKind::Num, text: t }, j - i))
    } else if class_has(c, CharClass::Blank) {
        let j = scan(s, i, CharClass::Blank);
        let t = copy_range(s, i, j);
        proof {
            assert(s@.subrange(i as int, j as int) =~= suf.subrange(0, j - i));
        }
        Ok((Token { kind: TokKind::Space, text: t }, j - i))
    } else if glyph_char(c) {
        let t = copy_range(s, i, i + 1);
        proof {
            assert(s@.subrange(i as int, i + 1) =~= suf.subrange(0, 1));
        }
        Ok((Token { kind: TokKind::Glyph, text: t }, 1))
    } else if c == '[' {
        let t = copy_range(s, i, i + 1);
        proof {
            assert(s@.subrange(i as int, i + 1) =~= suf.subrange(0, 1));
        }
        Ok((Token { kind: TokKind::Open, text: t }, 1))
    } else if c == ']' {
        let t = copy_range(s, i, i + 1);
        proof {
            assert(s@.subrange(i as int, i + 1) =~= suf.subrange(0, 1));
        }
        Ok((Token { kind: TokKind::Close, text: t }, 1))
    } else if c == '"' {
        let j = scan(s, i + 1, CharClass::StrInner);
        proof {
            assert(s@.subrange(i + 1, s@.len() as int) =~= suf.drop_first());
        }
        if j < slen && s[j] == '"' {
            let t = copy_range(s, i, j + 1);
            proof {
                assert(suf[j - i] == s@[j as int]);
                assert(s@.subrange(i as int, j + 1) =~= suf.subrange(0, j + 1 - i));
            }
            Ok((Token { kind: TokKind::Str, text: t }, j + 1 - i))
        } else {
            proof {
                if j < slen {
                    assert(suf[j - i] == s@[j as int]);
                }
            }
            Err(LexErr { kind: LexErrKind::UnterminatedStr, at: i })
        }
    } else if c == '#' {
        let j = scan(s, i + 1, CharClass::NonNewline);
        let t = copy_range(s, i, j);
        proof {
            assert(s@.subrange(i + 1, s@.len() as int) =~= suf.drop_first());
            assert(s@.subrange(i as int, j as int) =~= suf.subrange(0, j - i));
        }
        Ok((Token { kind: TokKind::Comment, text: t }, j - i))
    } else {
        Err(LexErr { kind: LexErrKind::BadChar, at: i })
    }
}

/// Copies the characters of `s` from `from` (inclusive) to `to` (exclusive).
pub(crate) fn copy_range(s: &Vec<char>, from: usize, to: usize) -> (r: Vec<char>)
    requires
        from <= to <= s@.len(),
    ensures
        r@ == s@.subrange(from as int, to as int),
{
    let mut r: Vec<char> = Vec::new();
    let mut i: usize = from;
    while i < to
        invariant
            from <= i <= to <= s@.len(),
            r@ == s@.subrange(from as int, i as int),
        decreases to - i,
    {
        r.push(s[i]);
        proof {
            assert(r@ =~= s@.subrange(from as int, i + 1));
        }
        i = i + 1;
    }
    r
}

/// Scans a whole text into its tokens, or reports the first failure with the
/// offset of the token start where it was detected.
pub fn lex_chars(s: &Vec<char>) -> (r: Result<Vec<Token>, LexErr>)
    ensures
        match r {
            Ok(ts) => spec_lex(s@) == Ok::<Seq<TokView>, (LexErrKind, int)>(ts.deep_view()),
            Err(e) => spec_lex(s@) == Err::<Seq<TokView>, (LexErrKind, int)>(
                (e.kind, e.at as int),
            ),
        },
{
    let mut acc: Vec<Token> = Vec::new();
    let mut i: usize = 0;
    proof {
        assert(s@.subrange(0, s@.len() as int) =~= s@);
        assert(acc.deep_view() =~= Seq::<TokView>::empty());
        match spec_lex(s@) {
            Ok(ts) => {
                assert(Seq::<TokView>::empty() + ts =~= ts);
            },
            Err(e) => {},
        }
    }
    while i < s.len()
        invariant
            i <= s@.len(),
            spec_lex(s@) == lex_compose(
                acc.deep_view(),
                i as int,
                spec_lex(s@.subrange(i as int, s@.len() as int)),
            ),
        decreases s@.len() - i,
    {
        let ghost suf = s@.subrange(i as int, s@.len() as int);
        match lex_one(s, i) {
            Ok((t, n)) => {
                let ghost acc0 = acc.deep_view();
                acc.push(t);
                proof {
                    assert(acc.deep_view() =~= acc0.push(t@));
                    assert(suf.subrange(n as int, suf.len() as int) =~= s@.subrange(
                        i + n,
                        s@.len() as int,
                    ));
                    assert(spec_lex(suf) == lex_compose(
                        seq![t@],
                        n as int,
                        spec_lex(s@.subrange(i + n, s@.len() as int)),
                    ));
                    match spec_lex(s@.subrange(i + n, s@.len() as int)) {
                        Ok(ts) => {
                            assert(acc0 + (seq![t@] + ts) =~= acc0.push(t@) + ts);
                        },
                        Err((k, p)) => {},
                    }
                }
                i = i + n;
            },
            Err(e) => {
                proof {
                    assert(spec_lex(suf) == Err::<Seq<TokView>, (LexErrKind, int)>((e.kind, 0)));
                }
                return Err(e);
            },
        }
    }
    proof {
        assert(s@.subrange(i as int, s@.len() as int) =~= Seq::<char>::empty());
        assert(spec_lex(s@.subrange(i as int, s@.len() as int)) == Ok::<
            Seq<TokView>,
            (LexErrKind, int),
        >(Seq::empty()));
        assert(acc.deep_view() + Seq::<TokView>::empty() =~= acc.deep_view());
    }
    Ok(acc)
}

} // verus!
