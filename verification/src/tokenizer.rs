use vstd::prelude::*;
use crate::token::{CompileError, ErrorKind, Location, Token, TokenKind};

verus! {

// --- byte classification ---------------------------------------------------

/// ASCII whitespace: space, tab, newline, form feed, carriage return.
pub open spec fn is_space(b: u8) -> bool {
    b == 32 || b == 9 || b == 10 || b == 12 || b == 13
}

/// An ASCII decimal digit.
pub open spec fn is_digit(b: u8) -> bool {
    48 <= b <= 57
}

/// A byte that may stand in an identifier: any printable ASCII byte that is
/// not a delimiter. Identifiers run maximally up to the next delimiter or
/// whitespace, so symbolic names such as `+`, `-`, `<=` and `not=` are
/// ordinary identifiers.
pub open spec fn is_word_byte(b: u8) -> bool {
    // printable, and none of ( ) | ' " #
    33 <= b <= 126 && b != 40 && b != 41 && b != 124 && b != 39 && b != 34 && b != 35
}

fn space(b: u8) -> (r: bool)
    ensures
        r == is_space(b),
{
    b == 32 || b == 9 || b == 10 || b == 12 || b == 13
}

fn digit(b: u8) -> (r: bool)
    ensures
        r == is_digit(b),
{
    48 <= b && b <= 57
}

fn word_byte(b: u8) -> (r: bool)
    ensures
        r == is_word_byte(b),
{
    // printable, and none of ( ) | ' " #
    33 <= b && b <= 126 && b != 40 && b != 41 && b != 124 && b != 39 && b != 34 && b != 35
}

// --- the lexer's specification ---------------------------------------------

/// The line after consuming the byte at `off`: a newline starts a new line.
pub open spec fn next_line(src: Seq<u8>, off: int, line: int) -> int {
    if src[off] == 10 {
        line + 1
    } else {
        line
    }
}

/// The 0-based column after consuming the byte at `off`.
pub open spec fn next_col(src: Seq<u8>, off: int, col: int) -> int {
    if src[off] == 10 {
        0
    } else {
        col + 1
    }
}

/// Where whitespace skipping ends: at a position, or failing at end of
/// input inside an unterminated comment.
pub ghost enum SkipOut {
    At { off: int, line: int, col: int },
    Fail { line: int, col: int },
}

/// Skip whitespace and `#`-to-end-of-line comments, tracking line and
/// column. Inside a comment every byte up to and including the newline is
/// consumed; end of input inside a comment fails.
pub open spec fn skip_ws(src: Seq<u8>, off: int, line: int, col: int, in_comment: bool) -> SkipOut
    decreases src.len() - off,
{
    if off < 0 || off >= src.len() {
        if in_comment {
            SkipOut::Fail { line, col }
        } else {
            SkipOut::At { off, line, col }
        }
    } else {
        let b = src[off];
        if in_comment {
            skip_ws(src, off + 1, next_line(src, off, line), next_col(src, off, col), b != 10)
        } else if b == 35 {
            skip_ws(src, off + 1, next_line(src, off, line), next_col(src, off, col), true)
        } else if is_space(b) {
            skip_ws(src, off + 1, next_line(src, off, line), next_col(src, off, col), false)
        } else {
            SkipOut::At { off, line, col }
        }
    }
}

/// Scan a quoted literal after its opening quote, consuming up to and
/// including the closing quote. A backslash makes the following byte
/// ordinary. End of input before the closing quote fails.
pub open spec fn scan_quoted(
    src: Seq<u8>,
    off: int,
    line: int,
    col: int,
    quote: u8,
    escaped: bool,
) -> SkipOut
    decreases src.len() - off,
{
    if off < 0 || off >= src.len() {
        SkipOut::Fail { line, col }
    } else {
        let b = src[off];
        let off2 = off + 1;
        let line2 = next_line(src, off, line);
        let col2 = next_col(src, off, col);
        if escaped {
            scan_quoted(src, off2, line2, col2, quote, false)
        } else if b == quote {
            SkipOut::At { off: off2, line: line2, col: col2 }
        } else if b == 92 {
            scan_quoted(src, off2, line2, col2, quote, true)
        } else {
            scan_quoted(src, off2, line2, col2, quote, false)
        }
    }
}

/// The end of the maximal digit run starting at `off`.
pub open spec fn scan_digits_end(src: Seq<u8>, off: int) -> int
    decreases src.len() - off,
{
    if 0 <= off < src.len() && is_digit(src[off]) {
        scan_digits_end(src, off + 1)
    } else {
        off
    }
}

/// The end of the maximal identifier run starting at `off`.
pub open spec fn scan_word_end(src: Seq<u8>, off: int) -> int
    decreases src.len() - off,
{
    if 0 <= off < src.len() && is_word_byte(src[off]) {
        scan_word_end(src, off + 1)
    } else {
        off
    }
}

/// A digit run stays inside the buffer and never moves backwards.
pub proof fn lemma_scan_digits_end_bounds(src: Seq<u8>, off: int)
    requires
        0 <= off <= src.len(),
    ensures
        off <= scan_digits_end(src, off) <= src.len(),
    decreases src.len() - off,
{
    if off < src.len() && is_digit(src[off]) {
        lemma_scan_digits_end_bounds(src, off + 1);
    }
}

/// An identifier run stays inside the buffer and never moves backwards.
pub proof fn lemma_scan_word_end_bounds(src: Seq<u8>, off: int)
    requires
        0 <= off <= src.len(),
    ensures
        off <= scan_word_end(src, off) <= src.len(),
    decreases src.len() - off,
{
    if off < src.len() && is_word_byte(src[off]) {
        lemma_scan_word_end_bounds(src, off + 1);
    }
}

/// Map reserved spellings to their keyword kinds; everything else is an
/// identifier.
pub open spec fn word_kind(text: Seq<u8>) -> TokenKind {
    if text == seq![110u8, 105u8, 108u8] {  // nil
        TokenKind::Nil
    } else if text == seq![116u8, 114u8, 117u8, 101u8] {  // true
        TokenKind::True
    } else if text == seq![102u8, 97u8, 108u8, 115u8, 101u8] {  // false
        TokenKind::False
    } else if text == seq![105u8, 102u8] {  // if
        TokenKind::If
    } else if text == seq![108u8, 101u8, 116u8] {  // let
        TokenKind::Let
    } else {
        TokenKind::Ident
    }
}

/// One step of the lexer: the next token, end of input, or a located error.
pub ghost enum LexStep {
    /// A token: its kind, raw text, starting line and column, and the lexer
    /// state just past it.
    Tok {
        kind: TokenKind,
        text: Seq<u8>,
        line: int,
        col: int,
        off2: int,
        line2: int,
        col2: int,
    },
    /// End of input, with the state after the final whitespace.
    Eof { off: int, line: int, col: int },
    Fail { kind: ErrorKind, line: int, col: int },
}

/// The kind of a one-byte punctuation token, if the byte is punctuation.
pub open spec fn punct_kind(b: u8) -> Option<TokenKind> {
    if b == 40 {
        Some(TokenKind::LParen)
    } else if b == 41 {
        Some(TokenKind::RParen)
    } else if b == 124 {
        Some(TokenKind::Pipe)
    } else {
        None
    }
}

/// What the lexer produces next from the given state: skip whitespace and
/// comments, then classify by the first byte. A `-` directly followed by a
/// digit starts an integer; otherwise it is an ordinary identifier byte.
pub open spec fn lex_next(src: Seq<u8>, off: int, line: int, col: int) -> LexStep {
    match skip_ws(src, off, line, col, false) {
        SkipOut::Fail { line: l, col: c } => LexStep::Fail {
            kind: ErrorKind::UnexpectedEof,
            line: l,
            col: c,
        },
        SkipOut::At { off: o, line: l, col: c } => {
            if o >= src.len() {
                LexStep::Eof { off: o, line: l, col: c }
            } else {
                let b = src[o];
                if punct_kind(b) is Some {
                    LexStep::Tok {
                        kind: punct_kind(b)->Some_0,
                        text: src.subrange(o, o + 1),
                        line: l,
                        col: c,
                        off2: o + 1,
                        line2: l,
                        col2: c + 1,
                    }
                } else if b == 39 || b == 34 {  // ' or "
                    match scan_quoted(src, o + 1, l, c + 1, b, false) {
                        SkipOut::At { off: e, line: l2, col: c2 } => LexStep::Tok {
                            kind: if b == 39 {
                                TokenKind::Char
                            } else {
                                TokenKind::Str
                            },
                            text: src.subrange(o, e),
                            line: l,
                            col: c,
                            off2: e,
                            line2: l2,
                            col2: c2,
                        },
                        SkipOut::Fail { line: l2, col: c2 } => LexStep::Fail {
                            kind: ErrorKind::UnexpectedEof,
                            line: l2,
                            col: c2,
                        },
                    }
                } else if is_digit(b) || (b == 45 && o + 1 < src.len() && is_digit(src[o + 1])) {  // digit, or - then digit
                    let d = if b == 45 {
                        o + 1
                    } else {
                        o
                    };
                    let e = scan_digits_end(src, d);
                    LexStep::Tok {
                        kind: TokenKind::Int,
                        text: src.subrange(o, e),
                        line: l,
                        col: c,
                        off2: e,
                        line2: l,
                        col2: c + (e - o),
                    }
                } else if is_word_byte(b) {
                    let e = scan_word_end(src, o);
                    LexStep::Tok {
                        kind: word_kind(src.subrange(o, e)),
                        text: src.subrange(o, e),
                        line: l,
                        col: c,
                        off2: e,
                        line2: l,
                        col2: c + (e - o),
                    }
                } else {
                    LexStep::Fail { kind: ErrorKind::UnexpectedCharacter, line: l, col: c }
                }
            }
        },
    }
}

/// A token as the specification sees it.
pub ghost struct SpecToken {
    pub kind: TokenKind,
    pub text: Seq<u8>,
    pub line: int,
    pub col: int,
}

/// The specification-level reading of an executable token.
pub open spec fn tok_view(t: Token) -> SpecToken {
    SpecToken {
        kind: t.kind,
        text: t.text@,
        line: t.location.line as int,
        col: t.location.column as int,
    }
}

/// The whole result of lexing: the token sequence, or the first error.
pub ghost enum LexResult {
    Toks(Seq<SpecToken>),
    Fail { kind: ErrorKind, line: int, col: int },
}

/// Prefix a token sequence onto a lexing result.
pub open spec fn prepend_toks(pre: Seq<SpecToken>, r: LexResult) -> LexResult {
    match r {
        LexResult::Toks(s) => LexResult::Toks(pre + s),
        LexResult::Fail { kind, line, col } => r,
    }
}

/// Every token the lexer produces from the given state. The inner bounds
/// test can never fail (`lex_next` always moves forward); it only justifies
/// the recursion.
pub open spec fn lex_from(src: Seq<u8>, off: int, line: int, col: int) -> LexResult
    decreases src.len() - off,
{
    match lex_next(src, off, line, col) {
        LexStep::Fail { kind, line: l, col: c } => LexResult::Fail { kind, line: l, col: c },
        LexStep::Eof { .. } => LexResult::Toks(Seq::empty()),
        LexStep::Tok { kind, text, line: tl, col: tc, off2, line2, col2 } => {
            let t = SpecToken { kind, text, line: tl, col: tc };
            if off < off2 <= src.len() {
                prepend_toks(seq![t], lex_from(src, off2, line2, col2))
            } else {
                LexResult::Fail { kind: ErrorKind::UnexpectedEof, line: line2, col: col2 }
            }
        },
    }
}

// --- the executable lexer --------------------------------------------------

/// A single-pass, non-restartable lexer over a source buffer.
pub struct Tokens<'a> {
    pub src: &'a [u8],
    pub offset: usize,
    pub line: usize,
    pub column: usize,
}

impl<'a> Tokens<'a> {
    /// The state stays inside the buffer and its line and column stay small
    /// enough that stepping cannot overflow.
    pub open spec fn wf(self) -> bool {
        &&& self.src@.len() + 2 <= usize::MAX
        &&& self.offset <= self.src@.len()
        &&& 1 <= self.line
        &&& self.line <= self.offset + 1
        &&& self.column <= self.offset
    }

    /// A fresh lexer at the start of the buffer: line 1, column 0.
    pub fn new(src: &'a [u8]) -> (t: Tokens<'a>)
        requires
            src@.len() + 2 <= usize::MAX,
        ensures
            t.wf(),
            t.src@ == src@,
            t.offset == 0,
            t.line == 1,
            t.column == 0,
    {
        Tokens { src, offset: 0, line: 1, column: 0 }
    }

    /// Consume one byte, updating line and column.
    fn step(&mut self)
        requires
            old(self).wf(),
            old(self).offset < old(self).src@.len(),
        ensures
            final(self).wf(),
            final(self).src == old(self).src,
            final(self).offset == old(self).offset + 1,
            final(self).line as int == next_line(
                old(self).src@,
                old(self).offset as int,
                old(self).line as int,
            ),
            final(self).column as int == next_col(
                old(self).src@,
                old(self).offset as int,
                old(self).column as int,
            ),
    {
        let b = self.src[self.offset];
        if b == 10 {
            self.line = self.line + 1;
            self.column = 0;
        } else {
            self.column = self.column + 1;
        }
        self.offset = self.offset + 1;
    }

    /// The located error for the lexer's current position.
    fn fail_here(&self, kind: ErrorKind) -> (e: CompileError)
        ensures
            e == (CompileError { kind, line: self.line, column: self.column }),
    {
        CompileError { kind, line: self.line, column: self.column }
    }

    /// Produce the next token, `None` at end of input, or the first error.
    /// The result and the new state are exactly what `lex_next` says.
    pub fn next_token(&mut self) -> (r: Result<Option<Token>, CompileError>)
        requires
            old(self).wf(),
        ensures
            final(self).wf(),
            final(self).src@ == old(self).src@,
            old(self).offset <= final(self).offset,
            match r {
                Result::Err(e) => lex_next(
                    old(self).src@,
                    old(self).offset as int,
                    old(self).line as int,
                    old(self).column as int,
                ) == (LexStep::Fail {
                    kind: e.kind,
                    line: e.line as int,
                    col: e.column as int,
                }),
                Result::Ok(opt) => match opt {
                    Option::None => lex_next(
                        old(self).src@,
                        old(self).offset as int,
                        old(self).line as int,
                        old(self).column as int,
                    ) == (LexStep::Eof {
                        off: final(self).offset as int,
                        line: final(self).line as int,
                        col: final(self).column as int,
                    }),
                    Option::Some(t) => {
                        &&& old(self).offset < final(self).offset
                        &&& lex_next(
                            old(self).src@,
                            old(self).offset as int,
                            old(self).line as int,
                            old(self).column as int,
                        ) == (LexStep::Tok {
                            kind: t.kind,
                            text: t.text@,
                            line: t.location.line as int,
                            col: t.location.column as int,
                            off2: final(self).offset as int,
                            line2: final(self).line as int,
                            col2: final(self).column as int,
                        })
                    },
                },
            },
    {
        let ghost src = self.src@;
        let ghost o0 = self.offset as int;
        let ghost l0 = self.line as int;
        let ghost c0 = self.column as int;

        // Skip whitespace and comments, mirroring `skip_ws`.
        let mut in_comment = false;
        loop
            invariant
                self.wf(),
                self.src@ == src,
                src == old(self).src@,
                o0 == old(self).offset as int,
                l0 == old(self).line as int,
                c0 == old(self).column as int,
                o0 <= self.offset,
                skip_ws(src, o0, l0, c0, false) == skip_ws(
                    src,
                    self.offset as int,
                    self.line as int,
                    self.column as int,
                    in_comment,
                ),
            ensures
                self.wf(),
                self.src@ == src,
                o0 <= self.offset,
                skip_ws(src, o0, l0, c0, false) == (SkipOut::At {
                    off: self.offset as int,
                    line: self.line as int,
                    col: self.column as int,
                }),
            decreases src.len() - self.offset,
        {
            if self.offset >= self.src.len() {
                if in_comment {
                    return Err(self.fail_here(ErrorKind::UnexpectedEof));
                }
                break;
            }
            let b = self.src[self.offset];
            if in_comment {
                self.step();
                in_comment = b != 10;  // a newline ends the comment
            } else if b == 35 {  // # starts a comment
                self.step();
                in_comment = true;
            } else if space(b) {
                self.step();
            } else {
                break;
            }
        }

        if self.offset >= self.src.len() {
            return Ok(None);
        }

        let start = self.offset;
        let tok_loc = Location { line: self.line, column: self.column };
        let b = self.src[start];

        // Punctuation.
        let punct: Option<TokenKind> = if b == 40 {
            Some(TokenKind::LParen)
        } else if b == 41 {
            Some(TokenKind::RParen)
        } else if b == 124 {
            Some(TokenKind::Pipe)
        } else {
            None
        };
        if let Some(kind) = punct {
            self.step();
            let mut text: Vec<u8> = Vec::new();
            text.push(b);
            proof {
                assert(text@ =~= src.subrange(start as int, start + 1));
            }
            return Ok(Some(Token { kind, text, location: tok_loc }));
        }

        // Quoted literals: ' or ".
        if b == 39 || b == 34 {
            let kind = if b == 39 {
                TokenKind::Char
            } else {
                TokenKind::Str
            };
            self.step();
            let ghost oq = self.offset as int;
            let ghost lq = self.line as int;
            let ghost cq = self.column as int;
            let mut escaped = false;
            loop
                invariant_except_break
                    scan_quoted(src, oq, lq, cq, b, false) == scan_quoted(
                        src,
                        self.offset as int,
                        self.line as int,
                        self.column as int,
                        b,
                        escaped,
                    ),
                invariant
                    self.wf(),
                    self.src@ == src,
                    src == old(self).src@,
                    o0 == old(self).offset as int,
                    l0 == old(self).line as int,
                    c0 == old(self).column as int,
                    o0 <= oq <= self.offset,
                    start < src.len(),
                    src[start as int] == b,
                    b == 39 || b == 34,
                    oq == start + 1,
                    lq == tok_loc.line as int,
                    cq == tok_loc.column + 1,
                    skip_ws(src, o0, l0, c0, false) == (SkipOut::At {
                        off: start as int,
                        line: tok_loc.line as int,
                        col: tok_loc.column as int,
                    }),
                ensures
                    self.wf(),
                    self.src@ == src,
                    o0 <= oq <= self.offset,
                    scan_quoted(src, oq, lq, cq, b, false) == (SkipOut::At {
                        off: self.offset as int,
                        line: self.line as int,
                        col: self.column as int,
                    }),
                decreases src.len() - self.offset,
            {
                if self.offset >= self.src.len() {
                    return Err(self.fail_here(ErrorKind::UnexpectedEof));
                }
                let c = self.src[self.offset];
                self.step();
                if escaped {
                    escaped = false;
                } else if c == b {
                    break;  // the closing quote
                } else if c == 92 {  // backslash
                    escaped = true;
                }
            }
            let text = crate::tokenizer::copy_range(self.src, start, self.offset);
            return Ok(Some(Token { kind, text, location: tok_loc }));
        }

        // Integers: a digit, or `-` directly followed by a digit.
        let minus_int = b == 45 && start + 1 < self.src.len() && digit(self.src[start + 1]);
        if digit(b) || minus_int {
            if minus_int {
                self.step();
            }
            let ghost d0 = self.offset as int;
            loop
                invariant
                    self.wf(),
                    self.src@ == src,
                    d0 <= self.offset,
                    self.line == tok_loc.line,
                    self.column as int == tok_loc.column + (self.offset - start),
                    scan_digits_end(src, d0) == scan_digits_end(src, self.offset as int),
                ensures
                    self.wf(),
                    self.src@ == src,
                    d0 <= self.offset,
                    self.line == tok_loc.line,
                    self.column as int == tok_loc.column + (self.offset - start),
                    scan_digits_end(src, d0) == self.offset as int,
                decreases src.len() - self.offset,
            {
                if self.offset >= self.src.len() {
                    break;
                }
                let c = self.src[self.offset];
                if !digit(c) {
                    break;
                }
                self.step();
            }
            proof {
                lemma_scan_digits_end_bounds(src, d0 + 1);
                assert(scan_digits_end(src, d0) == scan_digits_end(src, d0 + 1));
            }
            let text = crate::tokenizer::copy_range(self.src, start, self.offset);
            return Ok(Some(Token { kind: TokenKind::Int, text, location: tok_loc }));
        }

        // Identifiers and keywords.
        if word_byte(b) {
            let ghost w0 = self.offset as int;
            loop
                invariant
                    self.wf(),
                    self.src@ == src,
                    w0 <= self.offset,
                    self.line == tok_loc.line,
                    self.column as int == tok_loc.column + (self.offset - start),
                    scan_word_end(src, w0) == scan_word_end(src, self.offset as int),
                ensures
                    self.wf(),
                    self.src@ == src,
                    w0 <= self.offset,
                    self.line == tok_loc.line,
                    self.column as int == tok_loc.column + (self.offset - start),
                    scan_word_end(src, w0) == self.offset as int,
                decreases src.len() - self.offset,
            {
                if self.offset >= self.src.len() {
                    break;
                }
                let c = self.src[self.offset];
                if !word_byte(c) {
                    break;
                }
                self.step();
            }
            proof {
                lemma_scan_word_end_bounds(src, w0 + 1);
                assert(scan_word_end(src, w0) == scan_word_end(src, w0 + 1));
            }
            let text = crate::tokenizer::copy_range(self.src, start, self.offset);
            let kind = crate::tokenizer::word_kind_of(&text);
            return Ok(Some(Token { kind, text, location: tok_loc }));
        }

        Err(self.fail_here(ErrorKind::UnexpectedCharacter))
    }
}

/// Copy the bytes of `src[start..end]` into an owned vector.
pub(crate) fn copy_range(src: &[u8], start: usize, end: usize) -> (r: Vec<u8>)
    requires
        start <= end <= src@.len(),
    ensures
        r@ == src@.subrange(start as int, end as int),
{
    let mut r: Vec<u8> = Vec::new();
    let mut i = start;
    while i < end
        invariant
            start <= i <= end <= src@.len(),
            r@ == src@.subrange(start as int, i as int),
        decreases end - i,
    {
        r.push(src[i]);
        proof {
            assert(r@ =~= src@.subrange(start as int, i + 1));
        }
        i = i + 1;
    }
    r
}

/// Classify a finished identifier run against the reserved spellings.
fn word_kind_of(text: &Vec<u8>) -> (k: TokenKind)
    ensures
        k == word_kind(text@),
{
    let n = text.len();
    if n == 3 && text[0] == 110 && text[1] == 105 && text[2] == 108 {
        proof {
            assert(text@ =~= seq![110u8, 105u8, 108u8]);
        }
        TokenKind::Nil
    } else if n == 4 && text[0] == 116 && text[1] == 114 && text[2] == 117 && text[3] == 101 {
        proof {
            assert(text@ =~= seq![116u8, 114u8, 117u8, 101u8]);
        }
        TokenKind::True
    } else if n == 5 && text[0] == 102 && text[1] == 97 && text[2] == 108 && text[3] == 115
        && text[4] == 101 {
        proof {
            assert(text@ =~= seq![102u8, 97u8, 108u8, 115u8, 101u8]);
        }
        TokenKind::False
    } else if n == 2 && text[0] == 105 && text[1] == 102 {
        proof {
            assert(text@ =~= seq![105u8, 102u8]);
        }
        TokenKind::If
    } else if n == 3 && text[0] == 108 && text[1] == 101 && text[2] == 116 {
        proof {
            assert(text@ =~= seq![108u8, 101u8, 116u8]);
        }
        TokenKind::Let
    } else {
        proof {
            if text@ == seq![110u8, 105u8, 108u8] {
                assert(text@.len() == 3 && text@[0] == 110 && text@[1] == 105 && text@[2] == 108);
            }
            if text@ == seq![116u8, 114u8, 117u8, 101u8] {
                assert(text@.len() == 4 && text@[0] == 116 && text@[1] == 114 && text@[2] == 117
                    && text@[3] == 101);
            }
            if text@ == seq![102u8, 97u8, 108u8, 115u8, 101u8] {
                assert(text@.len() == 5 && text@[0] == 102 && text@[1] == 97 && text@[2] == 108
                    && text@[3] == 115 && text@[4] == 101);
            }
            if text@ == seq![105u8, 102u8] {
                assert(text@.len() == 2 && text@[0] == 105 && text@[1] == 102);
            }
            if text@ == seq![108u8, 101u8, 116u8] {
                assert(text@.len() == 3 && text@[0] == 108 && text@[1] == 101 && text@[2] == 116);
            }
        }
        TokenKind::Ident
    }
}

/// Lex a whole buffer eagerly: all tokens in order, or the first error,
/// exactly as `lex_from` says starting at line 1, column 0.
pub fn tokenize(src: &[u8]) -> (r: Result<Vec<Token>, CompileError>)
    requires
        src@.len() + 2 <= usize::MAX,
    ensures
        match r {
            Result::Ok(toks) => lex_from(src@, 0, 1, 0) == LexResult::Toks(
                toks@.map_values(|t: Token| tok_view(t)),
            ),
            Result::Err(e) => lex_from(src@, 0, 1, 0) == (LexResult::Fail {
                kind: e.kind,
                line: e.line as int,
                col: e.column as int,
            }),
        },
{
    let mut toks: Vec<Token> = Vec::new();
    let mut tz = Tokens::new(src);
    loop
        invariant
            tz.wf(),
            tz.src@ == src@,
            lex_from(src@, 0, 1, 0) == prepend_toks(
                toks@.map_values(|t: Token| tok_view(t)),
                lex_from(src@, tz.offset as int, tz.line as int, tz.column as int),
            ),
        decreases src@.len() - tz.offset,
    {
        let ghost pre = toks@.map_values(|t: Token| tok_view(t));
        let ghost o1 = tz.offset as int;
        let ghost l1 = tz.line as int;
        let ghost c1 = tz.column as int;
        match tz.next_token() {
            Err(e) => {
                proof {
                    assert(lex_from(src@, o1, l1, c1) == (LexResult::Fail {
                        kind: e.kind,
                        line: e.line as int,
                        col: e.column as int,
                    }));
                }
                return Err(e);
            },
            Ok(None) => {
                proof {
                    assert(lex_from(src@, o1, l1, c1) == LexResult::Toks(Seq::<SpecToken>::empty()));
                    assert(pre + Seq::<SpecToken>::empty() =~= pre);
                }
                return Ok(toks);
            },
            Ok(Some(t)) => {
                let ghost tv = tok_view(t);
                proof {
                    let o2 = tz.offset as int;
                    let l2 = tz.line as int;
                    let c2 = tz.column as int;
                    assert(lex_from(src@, o1, l1, c1) == prepend_toks(
                        seq![tv],
                        lex_from(src@, o2, l2, c2),
                    ));
                    assert(pre + seq![tv] =~= (toks@.push(t)).map_values(|u: Token| tok_view(u)));
                    match lex_from(src@, o2, l2, c2) {
                        LexResult::Toks(rest) => {
                            assert(pre + (seq![tv] + rest) =~= (pre + seq![tv]) + rest);
                        },
                        LexResult::Fail { .. } => {},
                    }
                }
                toks.push(t);
            },
        }
    }
}

} // verus!
