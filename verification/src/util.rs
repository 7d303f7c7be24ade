//! Positions, diagnostics and the text helpers that the other modules share.

use vstd::prelude::*;
use vstd::string::*;

verus! {

/// `String::push` of the standard library: appends one character to the end
/// of the string and leaves the characters before it as they were.
pub assume_specification[ String::push ](s: &mut String, ch: char)
    ensures
        final(s)@ == old(s)@.push(ch),
;

/// A specialized result type for compiler operations.
pub type CompilerResult<T> = Result<T, CompilerError>;

/// A position in a program: a line number that starts at 1.
#[derive(Clone, Copy, Debug)]
pub struct Position {
    pub line: usize,
}

impl Position {
    /// The position of the first line.
    pub fn new() -> (p: Self)
        ensures
            p.line == 1,
    {
        Position { line: 1 }
    }

    /// Moves to the next line.
    pub fn inc_line(&mut self)
        requires
            old(self).line < usize::MAX,
        ensures
            final(self).line == old(self).line + 1,
    {
        self.line = self.line + 1;
    }

    /// The text `line N`.
    pub open spec fn text(self) -> Seq<char> {
        "line "@ + decimal(self.line as nat)
    }

    /// Renders the position as `line N`.
    pub fn to_string(&self) -> (s: String)
        ensures
            s@ == self.text(),
    {
        let mut s = String::from_str("line ");
        push_decimal(&mut s, self.line);
        s
    }
}

impl Default for Position {
    fn default() -> (p: Self)
        ensures
            p.line == 1,
    {
        Position { line: 1 }
    }
}

/// The mathematical content of a [`CompilerError`].
pub struct ErrorView {
    pub pos: Position,
    pub message: Seq<char>,
}

/// The error type for compiler operations: a position and a message.
#[derive(Debug)]
pub struct CompilerError {
    pub pos: Position,
    pub message: String,
}

impl View for CompilerError {
    type V = ErrorView;

    open spec fn view(&self) -> ErrorView {
        ErrorView { pos: self.pos, message: self.message@ }
    }
}

impl ErrorView {
    /// The text `line N: message`.
    pub open spec fn text(self) -> Seq<char> {
        self.pos.text() + ": "@ + self.message
    }
}

impl CompilerError {
    /// Creates a new `CompilerError` from the given message and a [`Position`].
    pub fn new(message: String, pos: Position) -> (e: Self)
        ensures
            e@ == (ErrorView { pos, message: message@ }),
    {
        CompilerError { pos, message }
    }

    /// Renders the error as `line N: message`.
    pub fn to_string(&self) -> (s: String)
        ensures
            s@ == self@.text(),
    {
        let mut s = self.pos.to_string();
        s.append(": ");
        s.append(self.message.as_str());
        s
    }
}

/// Builds the error result for `message` at `pos`.
pub fn compiler_error<T>(pos: Position, message: String) -> (r: CompilerResult<T>)
    ensures
        r is Err,
        r->Err_0@ == (ErrorView { pos, message: message@ }),
{
    Err(CompilerError::new(message, pos))
}

/// The character of a decimal digit.
pub open spec fn digit_char(d: nat) -> char
    recommends
        d < 10,
{
    (48u8 + d as u8) as char
}

/// The decimal notation of `n`, without leading zeros.
pub open spec fn decimal(n: nat) -> Seq<char>
    decreases n,
{
    if n < 10 {
        seq![digit_char(n)]
    } else {
        decimal(n / 10).push(digit_char(n % 10))
    }
}

/// Appends the decimal notation of `n` to `s`.
pub fn push_decimal(s: &mut String, n: usize)
    ensures
        final(s)@ == old(s)@ + decimal(n as nat),
    decreases n,
{
    if n >= 10 {
        push_decimal(s, n / 10);
    }
    let d: u8 = (n % 10) as u8;
    s.push((48u8 + d) as char);
    proof {
        assert(((48u8 + d) as char) == digit_char((n % 10) as nat));
        assert(s@ =~= old(s)@ + decimal(n as nat));
    }
}

} // verus!
