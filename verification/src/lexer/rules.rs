//! The lexical rules, as functions on a sequence of characters.
//!
//! Every function here reads the program from an index on and says where the
//! piece it describes ends; [`lex_token`] puts them together into the step
//! that yields one token.

use vstd::prelude::*;
use crate::token::{TokenKindView, TokenView};
use crate::util::{ErrorView, Position};

verus! {

/// The state of a lexer: the program, how far it has been read, the current
/// line, and whether the lexer has stopped.
pub struct LexerView {
    pub program: Seq<char>,
    pub index: int,
    pub pos: Position,
    pub done: bool,
}

/// The outcome of one step: the state after it, and the token or the error.
pub struct LexStep {
    pub next: LexerView,
    pub result: Result<TokenView, ErrorView>,
}

/// The classes of characters that are consumed in runs.
#[derive(Clone, Copy, Debug)]
pub enum CharClass {
    /// `_`, a letter or a digit.
    Word,
    /// A decimal digit.
    Digit,
    /// Anything but a line feed.
    NotNewline,
}

pub open spec fn is_ascii(c: char) -> bool {
    (c as u32) < 128
}

/// ASCII whitespace: space, tab, line feed, form feed, carriage return.
pub open spec fn is_space(c: char) -> bool {
    c == ' ' || c == '\t' || c == '\n' || c == '\x0C' || c == '\r'
}

pub open spec fn is_letter(c: char) -> bool {
    ('a' <= c && c <= 'z') || ('A' <= c && c <= 'Z')
}

pub open spec fn is_digit(c: char) -> bool {
    '0' <= c && c <= '9'
}

pub open spec fn is_word_start(c: char) -> bool {
    c == '_' || is_letter(c)
}

pub open spec fn is_word_char(c: char) -> bool {
    c == '_' || is_letter(c) || is_digit(c)
}

impl CharClass {
    pub open spec fn holds(self, c: char) -> bool {
        match self {
            CharClass::Word => is_word_char(c),
            CharClass::Digit => is_digit(c),
            CharClass::NotNewline => c != '\n',
        }
    }
}

/// The value of a hexadecimal digit, in either case.
pub open spec fn hex_value(c: char) -> Option<u8> {
    if '0' <= c && c <= '9' {
        Some((c as u8 - 48) as u8)
    } else if 'a' <= c && c <= 'f' {
        Some((c as u8 - 87) as u8)
    } else if 'A' <= c && c <= 'F' {
        Some((c as u8 - 55) as u8)
    } else {
        None
    }
}

/// The line after `pos`. The count stops at the largest number of the
/// machine.
pub open spec fn next_line(pos: Position) -> Position {
    if pos.line < usize::MAX {
        Position { line: (pos.line + 1) as usize }
    } else {
        pos
    }
}

/// The first index from `i` on whose character is not in `class`, or the
/// length of the program.
pub open spec fn run_end(s: Seq<char>, i: int, class: CharClass) -> int
    decreases s.len() - i,
{
    if 0 <= i < s.len() && class.holds(s[i]) {
        run_end(s, i + 1, class)
    } else {
        i
    }
}

pub proof fn lemma_run_end_bounds(s: Seq<char>, i: int, class: CharClass)
    requires
        0 <= i <= s.len(),
    ensures
        i <= run_end(s, i, class) <= s.len(),
    decreases s.len() - i,
{
    if i < s.len() && class.holds(s[i]) {
        lemma_run_end_bounds(s, i + 1, class);
    }
}

/// The number that the decimal digits `digits` denote.
pub open spec fn digits_value(digits: Seq<char>) -> nat
    decreases digits.len(),
{
    if digits.len() == 0 {
        0
    } else {
        digits_value(digits.drop_last()) * 10 + (digits.last() as u8 - 48) as nat
    }
}

/// Where a block comment ends.
pub struct BlockEnd {
    /// Whether every opened comment was closed.
    pub closed: bool,
    /// The index after the comment.
    pub index: int,
    /// The line at that index.
    pub pos: Position,
}

/// Reads the inside of a block comment from `i` on, `depth` comments being
/// open. `#[` opens one more, `]#` closes one.
pub open spec fn block_end(s: Seq<char>, i: int, depth: nat, pos: Position) -> BlockEnd
    decreases s.len() - i,
{
    if !(0 <= i < s.len()) {
        BlockEnd { closed: false, index: i, pos }
    } else if s[i] == '\n' {
        block_end(s, i + 1, depth, next_line(pos))
    } else if s[i] == ']' && i + 1 < s.len() && s[i + 1] == '#' {
        if depth <= 1 {
            BlockEnd { closed: true, index: i + 2, pos }
        } else {
            block_end(s, i + 2, (depth - 1) as nat, pos)
        }
    } else if s[i] == '#' && i + 1 < s.len() && s[i + 1] == '[' {
        block_end(s, i + 2, depth + 1, pos)
    } else {
        block_end(s, i + 1, depth, pos)
    }
}

pub proof fn lemma_block_end_bounds(s: Seq<char>, i: int, depth: nat, pos: Position)
    requires
        0 <= i <= s.len(),
    ensures
        i <= block_end(s, i, depth, pos).index <= s.len(),
    decreases s.len() - i,
{
    if !(0 <= i < s.len()) {
    } else if s[i] == '\n' {
        lemma_block_end_bounds(s, i + 1, depth, next_line(pos));
    } else if s[i] == ']' && i + 1 < s.len() && s[i + 1] == '#' {
        if depth > 1 {
            lemma_block_end_bounds(s, i + 2, (depth - 1) as nat, pos);
        }
    } else if s[i] == '#' && i + 1 < s.len() && s[i + 1] == '[' {
        lemma_block_end_bounds(s, i + 2, depth + 1, pos);
    } else {
        lemma_block_end_bounds(s, i + 1, depth, pos);
    }
}

/// The token kind of a word: a keyword, a type name or an identifier.
pub open spec fn word_kind(word: Seq<char>) -> TokenKindView {
    if word == "if"@ {
        TokenKindView::If
    } else if word == "else"@ {
        TokenKindView::Else
    } else if word == "while"@ {
        TokenKindView::While
    } else if word == "repeat"@ {
        TokenKindView::Repeat
    } else if word == "return"@ {
        TokenKindView::Return
    } else if word == "inline"@ {
        TokenKindView::Inline
    } else if word == "void"@ || word == "int"@ {
        TokenKindView::Type(word)
    } else if word == "and"@ {
        TokenKindView::And
    } else if word == "or"@ {
        TokenKindView::Or
    } else if word == "not"@ {
        TokenKindView::Not
    } else if word == "true"@ {
        TokenKindView::True
    } else if word == "false"@ {
        TokenKindView::False
    } else {
        TokenKindView::Identifier(word)
    }
}

/// One character of a char or string literal: the byte it denotes or the
/// message of the error, and the state after it.
pub struct CharStep {
    pub result: Result<u8, Seq<char>>,
    pub index: int,
    pub pos: Position,
}

/// The byte that the escape sequence `\e` denotes, for the one-letter
/// escapes.
pub open spec fn simple_escape(e: char) -> Option<u8> {
    if e == 'a' {
        Some(0x07u8)
    } else if e == 'b' {
        Some(0x08u8)
    } else if e == 'f' {
        Some(0x0Cu8)
    } else if e == 'n' {
        Some(0x0Au8)
    } else if e == 'r' {
        Some(0x0Du8)
    } else if e == 't' {
        Some(0x09u8)
    } else if e == 'v' {
        Some(0x0Bu8)
    } else if e == '\'' {
        Some(0x27u8)
    } else if e == '"' {
        Some(0x22u8)
    } else if e == '\\' {
        Some(0x5Cu8)
    } else {
        None
    }
}

pub open spec fn invalid_escape(e: char) -> Seq<char> {
    "invalid escape sequence: '\\"@ + seq![e] + "'"@
}

pub open spec fn not_ascii(c: char) -> Seq<char> {
    "expected ASCII character, got '"@ + seq![c] + "'"@
}

/// Reads the character of a literal that starts at `i`: an escape sequence,
/// or one ASCII character, which stands for itself. A line feed counts as a
/// new line.
pub open spec fn literal_char(s: Seq<char>, i: int, pos: Position) -> CharStep
    recommends
        0 <= i < s.len(),
{
    let c = s[i];
    if c == '\\' {
        if i + 1 >= s.len() {
            CharStep { result: Err("unterminated escape sequence"@), index: i + 1, pos }
        } else {
            let e = s[i + 1];
            if simple_escape(e) is Some {
                CharStep { result: Ok(simple_escape(e)->Some_0), index: i + 2, pos }
            } else if e == 'x' && i + 3 < s.len() && hex_value(s[i + 2]) is Some && hex_value(
                s[i + 3],
            ) is Some {
                CharStep {
                    result: Ok(
                        (hex_value(s[i + 2])->Some_0 * 16 + hex_value(s[i + 3])->Some_0) as u8,
                    ),
                    index: i + 4,
                    pos,
                }
            } else {
                CharStep { result: Err(invalid_escape(e)), index: i + 2, pos }
            }
        }
    } else if !is_ascii(c) {
        CharStep { result: Err(not_ascii(c)), index: i + 1, pos }
    } else {
        CharStep {
            result: Ok(c as u8),
            index: i + 1,
            pos: if c == '\n' {
                next_line(pos)
            } else {
                pos
            },
        }
    }
}

/// The step that yields the token `kind` and leaves the lexer at `i`.
pub open spec fn emit(s: Seq<char>, i: int, pos: Position, kind: TokenKindView) -> LexStep {
    LexStep {
        next: LexerView { program: s, index: i, pos, done: false },
        result: Ok(TokenView { kind, pos }),
    }
}

/// The step that fails with `message` and stops the lexer.
pub open spec fn fail(s: Seq<char>, pos: Position, message: Seq<char>) -> LexStep {
    LexStep {
        next: LexerView { program: s, index: s.len() as int, pos, done: true },
        result: Err(ErrorView { pos, message }),
    }
}

/// The step at the end of the program: the end-of-file token, after which the
/// lexer has stopped.
pub open spec fn finish(s: Seq<char>, pos: Position) -> LexStep {
    LexStep {
        next: LexerView { program: s, index: s.len() as int, pos, done: true },
        result: Ok(TokenView { kind: TokenKindView::Eof, pos }),
    }
}

/// A char literal, the opening quote of which ends before `i`.
pub open spec fn lex_char_literal(s: Seq<char>, i: int, pos: Position) -> LexStep {
    if !(0 <= i < s.len()) {
        fail(s, pos, "unterminated char literal"@)
    } else if s[i] == '\'' || s[i] == '\n' {
        fail(s, pos, "invalid char literal"@)
    } else {
        let step = literal_char(s, i, pos);
        match step.result {
            Err(message) => fail(s, step.pos, message),
            Ok(value) => if step.index < s.len() && s[step.index] == '\'' {
                emit(s, step.index + 1, step.pos, TokenKindView::CharLiteral(value))
            } else {
                fail(s, step.pos, "unterminated char literal"@)
            },
        }
    }
}

/// A string literal from `i` on, whose bytes up to there are `bytes`.
pub open spec fn lex_string_literal(s: Seq<char>, i: int, pos: Position, bytes: Seq<u8>) -> LexStep
    decreases s.len() - i,
{
    if !(0 <= i < s.len()) {
        fail(s, pos, "unterminated string literal"@)
    } else if s[i] == '"' {
        emit(s, i + 1, pos, TokenKindView::StringLiteral(bytes))
    } else {
        let step = literal_char(s, i, pos);
        match step.result {
            Err(message) => fail(s, step.pos, message),
            Ok(value) => lex_string_literal(s, step.index, step.pos, bytes.push(value)),
        }
    }
}

/// The kind of the operator that starts with `c`, by whether `=` follows it.
/// `None` for a character that starts no operator of this form.
pub open spec fn operator_kind(c: char, with_eq: bool) -> Option<TokenKindView> {
    if c == '=' {
        Some(if with_eq { TokenKindView::EqEq } else { TokenKindView::Eq })
    } else if c == '+' {
        Some(if with_eq { TokenKindView::PlusEq } else { TokenKindView::Plus })
    } else if c == '-' {
        Some(if with_eq { TokenKindView::MinusEq } else { TokenKindView::Minus })
    } else if c == '*' {
        Some(if with_eq { TokenKindView::StarEq } else { TokenKindView::Star })
    } else if c == '/' {
        Some(if with_eq { TokenKindView::SlashEq } else { TokenKindView::Slash })
    } else if c == '%' {
        Some(if with_eq { TokenKindView::PercentEq } else { TokenKindView::Percent })
    } else if c == '>' {
        Some(if with_eq { TokenKindView::GreaterEq } else { TokenKindView::Greater })
    } else if c == '<' {
        Some(if with_eq { TokenKindView::LessEq } else { TokenKindView::Less })
    } else {
        None
    }
}

/// The kind of the separator `c`.
pub open spec fn separator_kind(c: char) -> Option<TokenKindView> {
    if c == '(' {
        Some(TokenKindView::LeftParen)
    } else if c == ')' {
        Some(TokenKindView::RightParen)
    } else if c == '{' {
        Some(TokenKindView::LeftBrace)
    } else if c == '}' {
        Some(TokenKindView::RightBrace)
    } else if c == ',' {
        Some(TokenKindView::Comma)
    } else if c == ';' {
        Some(TokenKindView::Semicolon)
    } else {
        None
    }
}

/// The token that starts at `i` with a character that is neither whitespace
/// nor the start of a comment.
pub open spec fn lex_token_at(s: Seq<char>, i: int, pos: Position) -> LexStep
    recommends
        0 <= i < s.len(),
{
    let c = s[i];
    if is_word_start(c) {
        let j = run_end(s, i + 1, CharClass::Word);
        emit(s, j, pos, word_kind(s.subrange(i, j)))
    } else if is_digit(c) {
        let j = run_end(s, i + 1, CharClass::Digit);
        if digits_value(s.subrange(i, j)) <= 255 {
            emit(s, j, pos, TokenKindView::IntLiteral(digits_value(s.subrange(i, j)) as u8))
        } else {
            fail(s, pos, "integer literal too big: "@ + s.subrange(i, j))
        }
    } else if c == '\'' {
        lex_char_literal(s, i + 1, pos)
    } else if c == '"' {
        lex_string_literal(s, i + 1, pos, Seq::empty())
    } else if separator_kind(c) is Some {
        emit(s, i + 1, pos, separator_kind(c)->Some_0)
    } else if operator_kind(c, false) is Some {
        if i + 1 < s.len() && s[i + 1] == '=' {
            emit(s, i + 2, pos, operator_kind(c, true)->Some_0)
        } else {
            emit(s, i + 1, pos, operator_kind(c, false)->Some_0)
        }
    } else if c == '!' {
        if i + 1 < s.len() && s[i + 1] == '=' {
            emit(s, i + 2, pos, TokenKindView::NotEq)
        } else {
            fail(s, pos, "unexpected character, expected `!=`"@)
        }
    } else {
        fail(s, pos, "invalid token"@)
    }
}

/// The step of a lexer that stands at `i`: skips whitespace and comments,
/// counting lines, and reads the token that follows.
pub open spec fn lex_from(s: Seq<char>, i: int, pos: Position) -> LexStep
    decreases s.len() - i,
{
    if !(0 <= i < s.len()) {
        finish(s, pos)
    } else if s[i] == '\n' {
        lex_from(s, i + 1, next_line(pos))
    } else if is_space(s[i]) {
        lex_from(s, i + 1, pos)
    } else if s[i] == '#' {
        if i + 1 < s.len() && s[i + 1] == '[' {
            let end = block_end(s, i + 2, 1, pos);
            if end.closed {
                proof {
                    lemma_block_end_bounds(s, i + 2, 1, pos);
                }
                lex_from(s, end.index, end.pos)
            } else {
                fail(s, end.pos, "unterminated block comment"@)
            }
        } else {
            proof {
                lemma_run_end_bounds(s, i + 1, CharClass::NotNewline);
            }
            lex_from(s, run_end(s, i + 1, CharClass::NotNewline), pos)
        }
    } else {
        lex_token_at(s, i, pos)
    }
}

/// One step of the lexer: the next token or an error. A lexer that has
/// stopped yields end-of-file tokens.
pub open spec fn lex_token(v: LexerView) -> LexStep {
    if v.done {
        LexStep { next: v, result: Ok(TokenView { kind: TokenKindView::Eof, pos: v.pos }) }
    } else {
        lex_from(v.program, v.index, v.pos)
    }
}

/// The state of a lexer that has read nothing of `s` yet.
pub open spec fn start(s: Seq<char>) -> LexerView {
    LexerView { program: s, index: 0, pos: Position { line: 1 }, done: false }
}

/// A string literal stops the lexer or leaves it further on, inside the
/// program.
pub proof fn lemma_string_literal_advances(s: Seq<char>, i: int, pos: Position, bytes: Seq<u8>)
    requires
        0 <= i <= s.len(),
    ensures
        ({
            let step = lex_string_literal(s, i, pos, bytes);
            &&& step.next.program == s
            &&& (step.next.done || step.result is Ok)
            &&& (step.next.done && step.next.index == s.len()) || (i < step.next.index
                <= s.len())
        }),
    decreases s.len() - i,
{
    if 0 <= i < s.len() && s[i] != '"' {
        let step = literal_char(s, i, pos);
        if step.result is Ok {
            lemma_string_literal_advances(s, step.index, step.pos, bytes.push(step.result->Ok_0));
        }
    }
}

/// A step from inside the program stops the lexer or leaves it further on,
/// inside the program. An error stops it.
pub proof fn lemma_lex_from_advances(s: Seq<char>, i: int, pos: Position)
    requires
        0 <= i <= s.len(),
    ensures
        ({
            let step = lex_from(s, i, pos);
            &&& step.next.program == s
            &&& (step.next.done || step.result is Ok)
            &&& (step.next.done && step.next.index == s.len()) || (i < step.next.index
                <= s.len())
        }),
    decreases s.len() - i,
{
    if !(0 <= i < s.len()) {
    } else if s[i] == '\n' {
        lemma_lex_from_advances(s, i + 1, next_line(pos));
    } else if is_space(s[i]) {
        lemma_lex_from_advances(s, i + 1, pos);
    } else if s[i] == '#' {
        if i + 1 < s.len() && s[i + 1] == '[' {
            let end = block_end(s, i + 2, 1, pos);
            lemma_block_end_bounds(s, i + 2, 1, pos);
            if end.closed {
                lemma_lex_from_advances(s, end.index, end.pos);
            }
        } else {
            lemma_run_end_bounds(s, i + 1, CharClass::NotNewline);
            lemma_lex_from_advances(s, run_end(s, i + 1, CharClass::NotNewline), pos);
        }
    } else {
        lemma_run_end_bounds(s, i + 1, CharClass::Word);
        lemma_run_end_bounds(s, i + 1, CharClass::Digit);
        lemma_string_literal_advances(s, i + 1, pos, Seq::empty());
    }
}

/// The tokens that a lexer in state `v` yields until it stops, after
/// `tokens`; or the first error.
pub open spec fn lex_all(v: LexerView, tokens: Seq<TokenView>) -> Result<Seq<TokenView>, ErrorView>
    decreases 2 * (v.program.len() - v.index) + (if v.done { 0int } else { 1int }),
{
    if v.done || !(0 <= v.index <= v.program.len()) {
        Ok(tokens)
    } else {
        let step = lex_token(v);
        match step.result {
            Err(error) => Err(error),
            Ok(token) => {
                proof {
                    lemma_lex_from_advances(v.program, v.index, v.pos);
                }
                lex_all(step.next, tokens.push(token))
            },
        }
    }
}

/// The tokens of the program `s`, the last of which is the end-of-file
/// token; or the first lexical error.
pub open spec fn tokens_of(s: Seq<char>) -> Result<Seq<TokenView>, ErrorView> {
    lex_all(start(s), Seq::empty())
}

/// Where lexing succeeds from a state that has not stopped, the tokens end
/// with the end-of-file token, and no token before it is one.
pub proof fn lemma_lex_all_ends_with_eof(v: LexerView, tokens: Seq<TokenView>)
    requires
        0 <= v.index <= v.program.len(),
        lex_all(v, tokens) is Ok,
        v.done ==> tokens.len() > 0 && tokens.last().kind == TokenKindView::Eof,
    ensures
        lex_all(v, tokens)->Ok_0.len() > 0,
        lex_all(v, tokens)->Ok_0.last().kind == TokenKindView::Eof,
    decreases 2 * (v.program.len() - v.index) + (if v.done { 0int } else { 1int }),
{
    if !v.done {
        let step = lex_token(v);
        lemma_lex_from_advances(v.program, v.index, v.pos);
        lemma_stops_with_eof(v.program, v.index, v.pos);
        let token = step.result->Ok_0;
        assert(tokens.push(token).last() == token);
        lemma_lex_all_ends_with_eof(step.next, tokens.push(token));
    }
}

/// A step that succeeds stops the lexer exactly where its token is the
/// end-of-file token.
pub proof fn lemma_stops_with_eof(s: Seq<char>, i: int, pos: Position)
    requires
        0 <= i <= s.len(),
        lex_from(s, i, pos).result is Ok,
    ensures
        lex_from(s, i, pos).next.done == (lex_from(s, i, pos).result->Ok_0.kind
            == TokenKindView::Eof),
    decreases s.len() - i,
{
    if !(0 <= i < s.len()) {
    } else if s[i] == '\n' {
        lemma_stops_with_eof(s, i + 1, next_line(pos));
    } else if is_space(s[i]) {
        lemma_stops_with_eof(s, i + 1, pos);
    } else if s[i] == '#' {
        if i + 1 < s.len() && s[i + 1] == '[' {
            let end = block_end(s, i + 2, 1, pos);
            lemma_block_end_bounds(s, i + 2, 1, pos);
            if end.closed {
                lemma_stops_with_eof(s, end.index, end.pos);
            }
        } else {
            lemma_run_end_bounds(s, i + 1, CharClass::NotNewline);
            lemma_stops_with_eof(s, run_end(s, i + 1, CharClass::NotNewline), pos);
        }
    } else if s[i] == '"' {
        lemma_string_literal_not_eof(s, i + 1, pos, Seq::empty());
    }
}

proof fn lemma_string_literal_not_eof(s: Seq<char>, i: int, pos: Position, bytes: Seq<u8>)
    requires
        0 <= i <= s.len(),
        lex_string_literal(s, i, pos, bytes).result is Ok,
    ensures
        !lex_string_literal(s, i, pos, bytes).next.done,
        lex_string_literal(s, i, pos, bytes).result->Ok_0.kind is StringLiteral,
    decreases s.len() - i,
{
    if 0 <= i < s.len() && s[i] != '"' {
        let step = literal_char(s, i, pos);
        if step.result is Ok {
            lemma_string_literal_not_eof(s, step.index, step.pos, bytes.push(step.result->Ok_0));
        }
    }
}

/// The tokens of a program that is one literal on the first line: the
/// literal and the end of file.
pub open spec fn one_literal(kind: TokenKindView) -> Seq<TokenView> {
    seq![
        TokenView { kind, pos: Position { line: 1 } },
        TokenView { kind: TokenKindView::Eof, pos: Position { line: 1 } },
    ]
}

/// A string literal of one ASCII character other than `"`, `\` and the line
/// feed lexes to the byte of that character.
pub proof fn lemma_string_literal_round_trip(c: char)
    requires
        is_ascii(c),
        c != '"',
        c != '\\',
        c != '\n',
    ensures
        tokens_of(seq!['"', c, '"']) == Ok::<Seq<TokenView>, ErrorView>(
            one_literal(TokenKindView::StringLiteral(seq![c as u8])),
        ),
{
    let s = seq!['"', c, '"'];
    let pos = Position { line: 1 };
    let kind = TokenKindView::StringLiteral(seq![c as u8]);
    reveal_with_fuel(lex_string_literal, 3);
    reveal_with_fuel(lex_all, 3);
    assert(Seq::<u8>::empty().push(c as u8) =~= seq![c as u8]);
    assert(lex_string_literal(s, 1, pos, Seq::empty()) == emit(s, 3, pos, kind));
    assert(lex_from(s, 0, pos) == emit(s, 3, pos, kind));
    assert(lex_from(s, 3, pos) == finish(s, pos));
    let first = TokenView { kind, pos };
    let last = TokenView { kind: TokenKindView::Eof, pos };
    assert(Seq::<TokenView>::empty().push(first).push(last) =~= one_literal(kind));
}

/// A char literal of one ASCII character other than `'`, `\` and the line
/// feed lexes to the byte of that character.
pub proof fn lemma_char_literal_round_trip(c: char)
    requires
        is_ascii(c),
        c != '\'',
        c != '\\',
        c != '\n',
    ensures
        tokens_of(seq!['\'', c, '\'']) == Ok::<Seq<TokenView>, ErrorView>(
            one_literal(TokenKindView::CharLiteral(c as u8)),
        ),
{
    let s = seq!['\'', c, '\''];
    let pos = Position { line: 1 };
    let kind = TokenKindView::CharLiteral(c as u8);
    reveal_with_fuel(lex_all, 3);
    assert(lex_char_literal(s, 1, pos) == emit(s, 3, pos, kind));
    assert(lex_from(s, 0, pos) == emit(s, 3, pos, kind));
    assert(lex_from(s, 3, pos) == finish(s, pos));
    let first = TokenView { kind, pos };
    let last = TokenView { kind: TokenKindView::Eof, pos };
    assert(Seq::<TokenView>::empty().push(first).push(last) =~= one_literal(kind));
}

} // verus!
