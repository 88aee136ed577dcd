//! The lexer: turns the source text into a sequence of tokens with
//! source positions.
//!
//! The mathematical content is [`next_token`], which gives the next
//! token, its position, and the state of the cursor after it; the
//! executable [`Lexer::get_token`] realizes it exactly.

use vstd::prelude::*;

verus! {

/// The tokens: keywords, punctuation, integer constants, identifiers,
/// and end-of-input.
#[derive(Debug, PartialEq)]
pub enum Token {
    DoSym,
    ElseSym,
    IfSym,
    WhileSym,
    Lbra,
    Rbra,
    Lpar,
    Rpar,
    Plus,
    Minus,
    Less,
    Semi,
    Equal,
    Int(isize),
    Id(String),
    Eoi,
}

/// The mathematical shape of a [`Token`]: the same tag with the
/// identifier name as a character sequence.
pub enum Tok {
    DoSym,
    ElseSym,
    IfSym,
    WhileSym,
    Lbra,
    Rbra,
    Lpar,
    Rpar,
    Plus,
    Minus,
    Less,
    Semi,
    Equal,
    Int(isize),
    Id(Seq<char>),
    Eoi,
}

impl View for Token {
    type V = Tok;

    open spec fn view(&self) -> Tok {
        match self {
            Token::DoSym => Tok::DoSym,
            Token::ElseSym => Tok::ElseSym,
            Token::IfSym => Tok::IfSym,
            Token::WhileSym => Tok::WhileSym,
            Token::Lbra => Tok::Lbra,
            Token::Rbra => Tok::Rbra,
            Token::Lpar => Tok::Lpar,
            Token::Rpar => Tok::Rpar,
            Token::Plus => Tok::Plus,
            Token::Minus => Tok::Minus,
            Token::Less => Tok::Less,
            Token::Semi => Tok::Semi,
            Token::Equal => Tok::Equal,
            Token::Int(v) => Tok::Int(*v),
            Token::Id(s) => Tok::Id(s@),
            Token::Eoi => Tok::Eoi,
        }
    }
}

/// A 1-based (line, column) source position, used to report where an
/// error was found.
#[derive(Debug, Clone, Copy, Default, PartialEq, Eq, Structural)]
pub struct SourcePosition {
    pub line: usize,
    pub col: usize,
}

/// What went wrong.  The first two kinds are lexical (found while
/// tokenizing); the others are syntactic (found while parsing).
#[derive(Debug, Clone, Copy, PartialEq, Eq, Structural)]
pub enum ErrorKind {
    /// A character that no token can start with.
    IllegalToken,
    /// An integer literal that exceeds the machine integer range.
    IntegerOverflow,
    /// `(` was expected.
    ExpectedLparen,
    /// `)` was expected.
    ExpectedRparen,
    /// `while` was expected.
    ExpectedWhile,
    /// `;` was expected.
    ExpectedSemi,
    /// The program text ended (or continued) where it must not.
    UnexpectedEnd,
}

/// A lexical or syntax error: its kind and where it was found.
/// The first such error ends the compilation of the program.
#[derive(Debug, Clone, Copy, PartialEq, Eq, Structural)]
pub struct SyntaxError {
    pub pos: SourcePosition,
    pub kind: ErrorKind,
}

/// The cursor state of the lexer: character index, line, column.
pub struct LexSt {
    pub i: int,
    pub line: usize,
    pub col: usize,
}

/// What pulling one token gives: the token with its position and the
/// cursor after it, or a lexical error with its position.
pub enum LexOut {
    Tok(SourcePosition, Tok, LexSt),
    Fail(SourcePosition, ErrorKind),
}

/// The whitespace the lexer skips: spaces and newlines.
pub open spec fn is_ws(c: char) -> bool {
    c == ' ' || c == '\n'
}

pub open spec fn is_digit(c: char) -> bool {
    '0' <= c && c <= '9'
}

/// The characters an identifier continues with.
pub open spec fn is_id_char(c: char) -> bool {
    ('a' <= c && c <= 'z') || c == '_'
}

/// One more, except at the machine limit: positions saturate there
/// rather than wrap.
pub open spec fn spec_bump(x: usize) -> usize {
    if x < usize::MAX {
        (x + 1) as usize
    } else {
        x
    }
}

/// Skip whitespace from index `i`, tracking line and column.
pub open spec fn skip_ws(cs: Seq<char>, i: int, line: usize, col: usize) -> LexSt
    decreases cs.len() - i,
{
    if 0 <= i < cs.len() && is_ws(cs[i]) {
        if cs[i] == '\n' {
            skip_ws(cs, i + 1, spec_bump(line), 1)
        } else {
            skip_ws(cs, i + 1, line, spec_bump(col))
        }
    } else {
        LexSt { i, line, col }
    }
}

/// Scan a maximal run of decimal digits starting at `i`, accumulating
/// the value; a value that leaves the machine integer range is an
/// error (rather than a silent wrap).
pub open spec fn scan_int(cs: Seq<char>, i: int, acc: isize, col: usize) -> Result<
    (isize, int, usize),
    (),
>
    decreases cs.len() - i,
{
    if 0 <= i < cs.len() && is_digit(cs[i]) {
        let d = cs[i] as u32 - '0' as u32;
        if acc * 10 + d > isize::MAX {
            Err(())
        } else {
            scan_int(cs, i + 1, (acc * 10 + d) as isize, spec_bump(col))
        }
    } else {
        Ok((acc, i, col))
    }
}

/// Scan past a maximal run of identifier characters starting at `i`.
pub open spec fn scan_id(cs: Seq<char>, i: int, col: usize) -> (int, usize)
    decreases cs.len() - i,
{
    if 0 <= i < cs.len() && is_id_char(cs[i]) {
        scan_id(cs, i + 1, spec_bump(col))
    } else {
        (i, col)
    }
}

/// A scanned word is one of the four keywords or an identifier.
pub open spec fn keyword_or_id(name: Seq<char>) -> Tok {
    if name.len() == 2 && name[0] == 'd' && name[1] == 'o' {
        Tok::DoSym
    } else if name.len() == 4 && name[0] == 'e' && name[1] == 'l' && name[2] == 's' && name[3]
        == 'e' {
        Tok::ElseSym
    } else if name.len() == 2 && name[0] == 'i' && name[1] == 'f' {
        Tok::IfSym
    } else if name.len() == 5 && name[0] == 'w' && name[1] == 'h' && name[2] == 'i' && name[3]
        == 'l' && name[4] == 'e' {
        Tok::WhileSym
    } else {
        Tok::Id(name)
    }
}

/// The next token of `cs` from cursor `(i, line, col)`: skip
/// whitespace, then read one token.  At end of input the token is
/// `Eoi` and the cursor does not move, so pulling past the end keeps
/// yielding `Eoi`.
pub open spec fn next_token(cs: Seq<char>, i: int, line: usize, col: usize) -> LexOut {
    let st = skip_ws(cs, i, line, col);
    let p = SourcePosition { line: st.line, col: st.col };
    if !(0 <= st.i < cs.len()) {
        LexOut::Tok(p, Tok::Eoi, st)
    } else {
        let c = cs[st.i];
        let one = LexSt { i: st.i + 1, line: st.line, col: spec_bump(st.col) };
        if c == '{' {
            LexOut::Tok(p, Tok::Lbra, one)
        } else if c == '}' {
            LexOut::Tok(p, Tok::Rbra, one)
        } else if c == '(' {
            LexOut::Tok(p, Tok::Lpar, one)
        } else if c == ')' {
            LexOut::Tok(p, Tok::Rpar, one)
        } else if c == '+' {
            LexOut::Tok(p, Tok::Plus, one)
        } else if c == '-' {
            LexOut::Tok(p, Tok::Minus, one)
        } else if c == '<' {
            LexOut::Tok(p, Tok::Less, one)
        } else if c == ';' {
            LexOut::Tok(p, Tok::Semi, one)
        } else if c == '=' {
            LexOut::Tok(p, Tok::Equal, one)
        } else if is_digit(c) {
            match scan_int(cs, st.i, 0, st.col) {
                Err(()) => LexOut::Fail(p, ErrorKind::IntegerOverflow),
                Ok((v, j, col2)) => LexOut::Tok(
                    p,
                    Tok::Int(v),
                    LexSt { i: j, line: st.line, col: col2 },
                ),
            }
        } else if 'a' <= c && c <= 'z' {
            let (j, col2) = scan_id(cs, st.i, st.col);
            LexOut::Tok(
                p,
                keyword_or_id(cs.subrange(st.i, j)),
                LexSt { i: j, line: st.line, col: col2 },
            )
        } else {
            LexOut::Fail(p, ErrorKind::IllegalToken)
        }
    }
}

/// The whole token sequence of `cs` from the given cursor, ending with
/// the `Eoi` token, or the first lexical error.
pub open spec fn spec_tokens(cs: Seq<char>, i: int, line: usize, col: usize) -> Result<
    Seq<(SourcePosition, Tok)>,
    SyntaxError,
>
    decreases cs.len() - i,
{
    match next_token(cs, i, line, col) {
        LexOut::Fail(p, k) => Err(SyntaxError { pos: p, kind: k }),
        LexOut::Tok(p, t, st) => if t is Eoi {
            Ok(seq![(p, t)])
        } else if i < st.i && st.i <= cs.len() {
            match spec_tokens(cs, st.i, st.line, st.col) {
                Err(e) => Err(e),
                Ok(rest) => Ok(seq![(p, t)] + rest),
            }
        } else {
            // Reading a token other than `Eoi` always advances the
            // cursor; this branch keeps the definition well-founded.
            Err(SyntaxError { pos: p, kind: ErrorKind::UnexpectedEnd })
        },
    }
}

/// The token sequence of a whole source text.
pub open spec fn spec_tokens_of(cs: Seq<char>) -> Result<
    Seq<(SourcePosition, Tok)>,
    SyntaxError,
> {
    spec_tokens(cs, 0, 1, 1)
}

/// The positioned-token views of a positioned-token vector.
pub open spec fn toks_view(v: Seq<(SourcePosition, Token)>) -> Seq<(SourcePosition, Tok)> {
    v.map_values(|pt: (SourcePosition, Token)| (pt.0, pt.1@))
}

/// Viewing a token vector keeps its length and views each element.
pub proof fn lemma_toks_view_index(v: Seq<(SourcePosition, Token)>, i: int)
    ensures
        toks_view(v).len() == v.len(),
        0 <= i < v.len() ==> toks_view(v)[i] == (v[i].0, v[i].1@),
{
}

/// The `Lexer` is initialized with the source text and hands out one
/// token per [`Lexer::get_token`] call.
pub struct Lexer<'a> {
    /// The source text.
    pub src: &'a str,
    /// The character index of the current (not yet consumed) character.
    pub idx: usize,
    /// The line of the current character, 1-based.
    pub line: usize,
    /// The column of the current character, 1-based.
    pub col: usize,
}

impl<'a> Lexer<'a> {
    /// The cursor never leaves the source text (whose length, as for
    /// any real text in memory, fits the machine).
    pub open spec fn wf(self) -> bool {
        self.idx <= self.src@.len() && self.src@.len() <= usize::MAX
    }

    pub open spec fn st(self) -> LexSt {
        LexSt { i: self.idx as int, line: self.line, col: self.col }
    }

    /// A lexer at the start of `src`, at position (1, 1).
    pub fn new(src: &'a str) -> (l: Lexer<'a>)
        ensures
            l.src@ == src@,
            l.idx == 0,
            l.line == 1,
            l.col == 1,
            l.wf(),
    {
        // Measuring the text once witnesses that its length fits the
        // machine, which `wf` records.
        let n = src.unicode_len();
        proof {
            assert(n as nat == src@.len());
        }
        Lexer { src, idx: 0, line: 1, col: 1 }
    }

    /// One more, saturating at the machine limit as [`spec_bump`] says.
    fn bump(x: usize) -> (r: usize)
        ensures
            r == spec_bump(x),
    {
        if x < usize::MAX {
            x + 1
        } else {
            x
        }
    }

    /// The current character, with end-of-input read as `'\0'` (which
    /// never occurs as a real token character).
    fn ch(&self) -> (c: char)
        requires
            self.wf(),
        ensures
            c == spec_ch(self.src@, self.idx as int),
    {
        if self.idx < self.src.unicode_len() {
            self.src.get_char(self.idx)
        } else {
            '\0'
        }
    }

    /// Consume the current character, advancing the position: a
    /// newline starts the next line, anything else moves one column.
    fn next_ch(&mut self)
        requires
            old(self).wf(),
            old(self).idx < old(self).src@.len(),
        ensures
            final(self).wf(),
            final(self).src@ == old(self).src@,
            final(self).idx == old(self).idx + 1,
            old(self).src@[old(self).idx as int] == '\n' ==> final(self).line == spec_bump(
                old(self).line,
            ) && final(self).col == 1,
            old(self).src@[old(self).idx as int] != '\n' ==> final(self).line == old(self).line
                && final(self).col == spec_bump(old(self).col),
    {
        let c = self.src.get_char(self.idx);
        self.idx = self.idx + 1;
        if c == '\n' {
            self.line = Self::bump(self.line);
            self.col = 1;
        } else {
            self.col = Self::bump(self.col);
        }
    }

    /// Pull the next token, per [`next_token`]: its source position and
    /// the token itself, or the lexical error that was found.
    #[verifier::rlimit(100)]
    #[verifier::spinoff_prover]
    pub fn get_token(&mut self) -> (r: Result<(SourcePosition, Token), SyntaxError>)
        requires
            old(self).wf(),
        ensures
            final(self).wf(),
            final(self).src@ == old(self).src@,
            match r {
                Ok(pt) => next_token(
                    old(self).src@,
                    old(self).idx as int,
                    old(self).line,
                    old(self).col,
                ) == LexOut::Tok(pt.0, pt.1@, final(self).st()),
                Err(e) => next_token(
                    old(self).src@,
                    old(self).idx as int,
                    old(self).line,
                    old(self).col,
                ) == LexOut::Fail(e.pos, e.kind),
            },
    {
        let ghost cs = self.src@;
        let ghost i0 = self.idx as int;
        let ghost l0 = self.line;
        let ghost c0 = self.col;
        while self.ch() == ' ' || self.ch() == '\n'
            invariant
                self.wf(),
                self.src@ == cs,
                skip_ws(cs, i0, l0, c0) == skip_ws(cs, self.idx as int, self.line, self.col),
            decreases cs.len() - self.idx,
        {
            self.next_ch();
        }
        proof {
            assert(skip_ws(cs, i0, l0, c0) == self.st());
        }
        let ghost tl = self.line;
        let pos = SourcePosition { line: self.line, col: self.col };
        if self.idx >= self.src.unicode_len() {
            return Ok((pos, Token::Eoi));
        }
        let c = self.src.get_char(self.idx);
        if c == '{' {
            self.next_ch();
            Ok((pos, Token::Lbra))
        } else if c == '}' {
            self.next_ch();
            Ok((pos, Token::Rbra))
        } else if c == '(' {
            self.next_ch();
            Ok((pos, Token::Lpar))
        } else if c == ')' {
            self.next_ch();
            Ok((pos, Token::Rpar))
        } else if c == '+' {
            self.next_ch();
            Ok((pos, Token::Plus))
        } else if c == '-' {
            self.next_ch();
            Ok((pos, Token::Minus))
        } else if c == '<' {
            self.next_ch();
            Ok((pos, Token::Less))
        } else if c == ';' {
            self.next_ch();
            Ok((pos, Token::Semi))
        } else if c == '=' {
            self.next_ch();
            Ok((pos, Token::Equal))
        } else if '0' <= c && c <= '9' {
            let ghost j0 = self.idx as int;
            let ghost sc0 = self.col;
            let mut acc: isize = 0;
            while '0' <= self.ch() && self.ch() <= '9'
                invariant
                    self.wf(),
                    self.src@ == cs,
                    cs == old(self).src@,
                    self.line == tl,
                    0 <= acc,
                    skip_ws(cs, old(self).idx as int, old(self).line, old(self).col) == (LexSt {
                        i: j0,
                        line: tl,
                        col: sc0,
                    }),
                    pos == (SourcePosition { line: tl, col: sc0 }),
                    0 <= j0 < cs.len(),
                    is_digit(cs[j0]),
                    scan_int(cs, j0, 0, sc0) == scan_int(cs, self.idx as int, acc, self.col),
                decreases cs.len() - self.idx,
            {
                let d = self.ch() as u32 - '0' as u32;
                let wide: i128 = acc as i128 * 10 + d as i128;
                if wide > isize::MAX as i128 {
                    return Err(SyntaxError { pos, kind: ErrorKind::IntegerOverflow });
                }
                acc = wide as isize;
                self.next_ch();
            }
            Ok((pos, Token::Int(acc)))
        } else if 'a' <= c && c <= 'z' {
            let start = self.idx;
            let ghost sc0 = self.col;
            while ('a' <= self.ch() && self.ch() <= 'z') || self.ch() == '_'
                invariant
                    self.wf(),
                    self.src@ == cs,
                    self.line == tl,
                    start <= self.idx,
                    scan_id(cs, start as int, sc0) == scan_id(cs, self.idx as int, self.col),
                decreases cs.len() - self.idx,
            {
                self.next_ch();
            }
            let name = self.src.substring_char(start, self.idx);
            Ok((pos, Self::keyword_or_id_token(name)))
        } else {
            Err(SyntaxError { pos, kind: ErrorKind::IllegalToken })
        }
    }

    /// The token a scanned word stands for, per [`keyword_or_id`].
    fn keyword_or_id_token(name: &str) -> (t: Token)
        ensures
            t@ == keyword_or_id(name@),
    {
        let n = name.unicode_len();
        if n == 2 && name.get_char(0) == 'd' && name.get_char(1) == 'o' {
            Token::DoSym
        } else if n == 4 && name.get_char(0) == 'e' && name.get_char(1) == 'l' && name.get_char(2)
            == 's' && name.get_char(3) == 'e' {
            Token::ElseSym
        } else if n == 2 && name.get_char(0) == 'i' && name.get_char(1) == 'f' {
            Token::IfSym
        } else if n == 5 && name.get_char(0) == 'w' && name.get_char(1) == 'h' && name.get_char(2)
            == 'i' && name.get_char(3) == 'l' && name.get_char(4) == 'e' {
            Token::WhileSym
        } else {
            Token::Id(String::from_str(name))
        }
    }
}

/// Tokenize a whole source text: every token up to and including the
/// final `Eoi`, each with its source position, or the first lexical
/// error.
pub fn tokenize(src: &str) -> (r: Result<Vec<(SourcePosition, Token)>, SyntaxError>)
    ensures
        match r {
            Ok(v) => spec_tokens_of(src@) == Ok::<Seq<(SourcePosition, Tok)>, SyntaxError>(
                toks_view(v@),
            ),
            Err(e) => spec_tokens_of(src@) == Err::<Seq<(SourcePosition, Tok)>, SyntaxError>(e),
        },
{
    let mut lex = Lexer::new(src);
    let mut out: Vec<(SourcePosition, Token)> = Vec::new();
    proof {
        assert(toks_view(out@) =~= Seq::<(SourcePosition, Tok)>::empty());
        assert forall|r2: Seq<(SourcePosition, Tok)>|
            #[trigger] (toks_view(out@) + r2) =~= r2 by {}
    }
    loop
        invariant
            lex.wf(),
            lex.src@ == src@,
            ({
                let cur = spec_tokens(src@, lex.idx as int, lex.line, lex.col);
                match cur {
                    Ok(rest) => spec_tokens_of(src@) == Ok::<
                        Seq<(SourcePosition, Tok)>,
                        SyntaxError,
                    >(toks_view(out@) + rest),
                    Err(e) => spec_tokens_of(src@) == Err::<
                        Seq<(SourcePosition, Tok)>,
                        SyntaxError,
                    >(e),
                }
            }),
        decreases src@.len() - lex.idx,
    {
        let prev = lex.idx;
        let ghost pl = lex.line;
        let ghost pc = lex.col;
        match lex.get_token() {
            Err(e) => {
                return Err(e);
            },
            Ok((p, t)) => {
                let is_eoi = matches!(t, Token::Eoi);
                let ghost tv = t@;
                let ghost out0 = out@;
                out.push((p, t));
                proof {
                    assert(toks_view(out@) =~= toks_view(out0) + seq![(p, tv)]);
                    assert forall|r2: Seq<(SourcePosition, Tok)>|
                        #[trigger] ((toks_view(out0) + seq![(p, tv)]) + r2) =~= toks_view(out0)
                            + (seq![(p, tv)] + r2) by {}
                }
                if is_eoi {
                    return Ok(out);
                }
                if lex.idx <= prev {
                    // A token other than `Eoi` always moves the cursor;
                    // this mirrors the guard in `spec_tokens`.
                    return Err(SyntaxError { pos: p, kind: ErrorKind::UnexpectedEnd });
                }
            },
        }
    }
}

/// The current character of a cursor, with `'\0'` past the end.
pub open spec fn spec_ch(cs: Seq<char>, i: int) -> char {
    if 0 <= i < cs.len() {
        cs[i]
    } else {
        '\0'
    }
}

} // verus!
