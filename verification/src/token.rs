use vstd::prelude::*;

verus! {

/// The classification of one token produced by the lexer.
///
/// Reserved spellings (`nil`, `true`, `false`, `if`, `let`) get their own
/// kinds; every other identifier run is an `Ident`, so symbolic names such
/// as `+`, `-`, `<=` and `not=` are ordinary identifiers.
#[derive(Clone, Copy, Debug, PartialEq, Eq, Structural)]
pub enum TokenKind {
    Nil,
    True,
    False,
    If,
    Let,
    LParen,
    RParen,
    Pipe,
    Int,
    Str,
    Char,
    Ident,
}

/// A source position: 1-based line, 0-based column.
///
/// Columns are load-bearing: the compiler delimits blocks by the column of
/// the block's first token.
#[derive(Clone, Copy, Debug, PartialEq, Eq, Structural)]
pub struct Location {
    pub line: usize,
    pub column: usize,
}

/// The user-facing, located, recoverable error class: lexical and syntactic
/// faults that abort one compilation and nothing else.
#[derive(Clone, Copy, Debug, PartialEq, Eq, Structural)]
pub enum ErrorKind {
    UnexpectedCharacter,
    UnexpectedEof,
    UnexpectedToken,
    UnresolvedIdentifier,
    MalformedInt,
    MalformedChar,
    MalformedString,
    TrailingInput,
}

/// A located compile-time error.
#[derive(Clone, Copy, Debug, PartialEq, Eq, Structural)]
pub struct CompileError {
    pub kind: ErrorKind,
    pub line: usize,
    pub column: usize,
}

impl Location {
    /// Attach this location to an error kind.
    pub fn error(&self, kind: ErrorKind) -> (e: CompileError)
        ensures
            e == (CompileError { kind, line: self.line, column: self.column }),
    {
        CompileError { kind, line: self.line, column: self.column }
    }
}

/// One lexed token: its kind, its raw source bytes (quotes included for
/// quoted literals), and where it starts.
#[derive(Debug)]
pub struct Token {
    pub kind: TokenKind,
    pub text: Vec<u8>,
    pub location: Location,
}

/// Relies on String::from_utf8_lossy: on valid UTF-8 input it returns
/// exactly the input's characters.
#[verifier::external_body]
fn bytes_to_string_lossy(b: &Vec<u8>) -> (r: String)
    ensures
        vstd::utf8::valid_utf8(b@) ==> vstd::utf8::encode_utf8(r@) == b@,
{
    String::from_utf8_lossy(b).into_owned()
}

impl Token {
    /// The token's raw text as bytes.
    pub fn as_bytes(&self) -> (r: &[u8])
        ensures
            r@ == self.text@,
    {
        self.text.as_slice()
    }

    /// The token's raw text, decoded as UTF-8 for diagnostics.
    pub fn as_str(&self) -> (r: String)
        ensures
            vstd::utf8::valid_utf8(self.text@) ==> vstd::utf8::encode_utf8(r@) == self.text@,
    {
        bytes_to_string_lossy(&self.text)
    }

    /// The error reported when this token appears where it cannot stand.
    pub fn unexpected(&self) -> (e: CompileError)
        ensures
            e == (CompileError {
                kind: ErrorKind::UnexpectedToken,
                line: self.location.line,
                column: self.location.column,
            }),
    {
        self.location.error(ErrorKind::UnexpectedToken)
    }
}

} // verus!
