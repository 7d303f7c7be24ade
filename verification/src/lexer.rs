//! The lexer.

pub mod rules;

use vstd::prelude::*;
use vstd::string::*;
use crate::lexer::rules::{
    block_end, digits_value, lemma_run_end_bounds, lex_from, lex_token, literal_char, run_end,
    start, CharClass, LexStep, LexerView,
};
use crate::token::{token_views, Token, TokenKind, TokenKindView, TokenView};
use crate::util::{CompilerError, CompilerResult, ErrorView, Position};

verus! {

/// The characters of `program`, in order.
pub fn chars_of(program: &str) -> (v: Vec<char>)
    ensures
        v@ == program@,
{
    broadcast use vstd::string::group_string_axioms;

    let mut v: Vec<char> = Vec::new();
    for c in it: program.chars()
        invariant
            it.seq() == program@,
            v@ == it.seq().take(it.index() as int),
    {
        v.push(c);
        proof {
            assert(v@ =~= it.seq().take(it.index() + 1));
        }
    }
    proof {
        assert(v@ =~= program@);
    }
    v
}

/// What a lexing result holds: the token's view or the error's.
pub open spec fn result_view(r: CompilerResult<Token>) -> Result<TokenView, ErrorView> {
    match r {
        Ok(token) => Ok(token@),
        Err(error) => Err(error@),
    }
}

/// The step that leaves a lexer in the state `next` with the result `r`.
pub open spec fn step_of(next: LexerView, r: CompilerResult<Token>) -> LexStep {
    LexStep { next, result: result_view(r) }
}

/// A type containing the lexer state.
pub struct Lexer {
    /// The input program.
    program: Vec<char>,
    /// The index of the next character.
    index: usize,
    /// The current [`Position`].
    pos: Position,
    /// Whether the lexer is done.
    done: bool,
}

impl View for Lexer {
    type V = LexerView;

    closed spec fn view(&self) -> LexerView {
        LexerView {
            program: self.program@,
            index: self.index as int,
            pos: self.pos,
            done: self.done,
        }
    }
}

fn class_holds(class: CharClass, c: char) -> (r: bool)
    ensures
        r == class.holds(c),
{
    match class {
        CharClass::Word => c == '_' || ('a' <= c && c <= 'z') || ('A' <= c && c <= 'Z') || ('0'
            <= c && c <= '9'),
        CharClass::Digit => '0' <= c && c <= '9',
        CharClass::NotNewline => c != '\n',
    }
}

fn hex_digit_value(c: char) -> (r: Option<u8>)
    ensures
        r == rules::hex_value(c),
        r is Some ==> r->Some_0 < 16,
{
    if '0' <= c && c <= '9' {
        Some(c as u8 - 48)
    } else if 'a' <= c && c <= 'f' {
        Some(c as u8 - 87)
    } else if 'A' <= c && c <= 'F' {
        Some(c as u8 - 55)
    } else {
        None
    }
}

fn escape_value(e: char) -> (r: Option<u8>)
    ensures
        r == rules::simple_escape(e),
{
    if e == 'a' {
        Some(0x07)
    } else if e == 'b' {
        Some(0x08)
    } else if e == 'f' {
        Some(0x0C)
    } else if e == 'n' {
        Some(0x0A)
    } else if e == 'r' {
        Some(0x0D)
    } else if e == 't' {
        Some(0x09)
    } else if e == 'v' {
        Some(0x0B)
    } else if e == '\'' {
        Some(0x27)
    } else if e == '"' {
        Some(0x22)
    } else if e == '\\' {
        Some(0x5C)
    } else {
        None
    }
}

fn is_word(word: &String, keyword: &str) -> (r: bool)
    ensures
        r == (word@ == keyword@),
{
    *word == String::from_str(keyword)
}

fn word_token(word: String) -> (kind: TokenKind)
    ensures
        kind@ == rules::word_kind(word@),
{
    if is_word(&word, "if") {
        TokenKind::If
    } else if is_word(&word, "else") {
        TokenKind::Else
    } else if is_word(&word, "while") {
        TokenKind::While
    } else if is_word(&word, "repeat") {
        TokenKind::Repeat
    } else if is_word(&word, "return") {
        TokenKind::Return
    } else if is_word(&word, "inline") {
        TokenKind::Inline
    } else if is_word(&word, "void") || is_word(&word, "int") {
        TokenKind::Type(word)
    } else if is_word(&word, "and") {
        TokenKind::And
    } else if is_word(&word, "or") {
        TokenKind::Or
    } else if is_word(&word, "not") {
        TokenKind::Not
    } else if is_word(&word, "true") {
        TokenKind::True
    } else if is_word(&word, "false") {
        TokenKind::False
    } else {
        TokenKind::Identifier(word)
    }
}

fn separator_token(c: char) -> (r: Option<TokenKind>)
    ensures
        r is Some == rules::separator_kind(c) is Some,
        r is Some ==> r->Some_0@ == rules::separator_kind(c)->Some_0,
{
    if c == '(' {
        Some(TokenKind::LeftParen)
    } else if c == ')' {
        Some(TokenKind::RightParen)
    } else if c == '{' {
        Some(TokenKind::LeftBrace)
    } else if c == '}' {
        Some(TokenKind::RightBrace)
    } else if c == ',' {
        Some(TokenKind::Comma)
    } else if c == ';' {
        Some(TokenKind::Semicolon)
    } else {
        None
    }
}

fn operator_token(c: char, with_eq: bool) -> (r: Option<TokenKind>)
    ensures
        r is Some == rules::operator_kind(c, with_eq) is Some,
        r is Some ==> r->Some_0@ == rules::operator_kind(c, with_eq)->Some_0,
{
    if c == '=' {
        Some(if with_eq { TokenKind::EqEq } else { TokenKind::Eq })
    } else if c == '+' {
        Some(if with_eq { TokenKind::PlusEq } else { TokenKind::Plus })
    } else if c == '-' {
        Some(if with_eq { TokenKind::MinusEq } else { TokenKind::Minus })
    } else if c == '*' {
        Some(if with_eq { TokenKind::StarEq } else { TokenKind::Star })
    } else if c == '/' {
        Some(if with_eq { TokenKind::SlashEq } else { TokenKind::Slash })
    } else if c == '%' {
        Some(if with_eq { TokenKind::PercentEq } else { TokenKind::Percent })
    } else if c == '>' {
        Some(if with_eq { TokenKind::GreaterEq } else { TokenKind::Greater })
    } else if c == '<' {
        Some(if with_eq { TokenKind::LessEq } else { TokenKind::Less })
    } else {
        None
    }
}

proof fn lemma_run_end_holds(s: Seq<char>, i: int, class: CharClass, k: int)
    requires
        0 <= i <= k < run_end(s, i, class),
    ensures
        k < s.len(),
        class.holds(s[k]),
    decreases s.len() - i,
{
    if 0 <= i < s.len() && class.holds(s[i]) {
        if k > i {
            lemma_run_end_holds(s, i + 1, class, k);
        }
    }
}

impl Lexer {
    /// The invariant of a lexer: it stands inside its program.
    pub closed spec fn wf(&self) -> bool {
        self.index <= self.program.len()
    }

    /// Moves to the next line.
    fn new_line(&mut self)
        ensures
            final(self).program == old(self).program,
            final(self).index == old(self).index,
            final(self).done == old(self).done,
            final(self).pos == rules::next_line(old(self).pos),
    {
        if self.pos.line < usize::MAX {
            self.pos.inc_line();
        }
    }

    /// Creates a new lexer, which stands at the start of `program`, on line 1.
    pub fn new(program: &str) -> (lexer: Self)
        ensures
            lexer.wf(),
            lexer@ == start(program@),
    {
        Lexer { program: chars_of(program), index: 0, pos: Position::new(), done: false }
    }

    /// Whether the lexer has stopped: after an error, or after the first
    /// end-of-file token.
    pub fn is_done(&self) -> (done: bool)
        ensures
            done == self@.done,
    {
        self.done
    }

    /// Returns the next `char` without consuming it.
    fn peek(&self) -> (r: Option<char>)
        requires
            self.wf(),
        ensures
            r == if self.index < self.program.len() {
                Some(self.program@[self.index as int])
            } else {
                None
            },
    {
        if self.index < self.program.len() {
            Some(self.program[self.index])
        } else {
            None
        }
    }

    /// Consumes and returns the next `char`.
    fn next(&mut self) -> (r: Option<char>)
        requires
            old(self).index <= old(self).program.len(),
        ensures
            final(self).program == old(self).program,
            final(self).pos == old(self).pos,
            final(self).done == old(self).done,
            old(self).index < old(self).program.len() ==> r == Some(
                old(self).program@[old(self).index as int],
            ) && final(self).index == old(self).index + 1,
            old(self).index >= old(self).program.len() ==> r is None && final(self).index == old(
                self,
            ).index,
    {
        if self.index < self.program.len() {
            let c = self.program[self.index];
            self.index = self.index + 1;
            Some(c)
        } else {
            None
        }
    }

    /// Creates a [`Token`] of kind `kind` at the current position.
    fn token(&self, kind: TokenKind) -> (r: CompilerResult<Token>)
        ensures
            result_view(r) == Ok::<TokenView, ErrorView>(TokenView { kind: kind@, pos: self.pos }),
    {
        Ok(Token { kind, pos: self.pos })
    }

    /// Creates a [`CompilerError`] from the message `message`, and stops the
    /// lexer.
    fn error(&mut self, message: String) -> (r: CompilerResult<Token>)
        requires
            old(self).wf(),
        ensures
            final(self).wf(),
            step_of(final(self)@, r) == rules::fail(
                old(self).program@,
                old(self).pos,
                message@,
            ),
    {
        self.done = true;
        self.index = self.program.len();
        Err(CompilerError::new(message, self.pos))
    }

    /// Consumes `char`s while they are in `class`.
    /// Returns the index of the next `char` after the last consumed one.
    fn consume_while(&mut self, class: CharClass) -> (end: usize)
        requires
            old(self).index <= old(self).program.len(),
        ensures
            final(self).program == old(self).program,
            final(self).pos == old(self).pos,
            final(self).done == old(self).done,
            final(self).index == end,
            end == run_end(old(self).program@, old(self).index as int, class),
            old(self).index <= end <= old(self).program.len(),
    {
        while self.index < self.program.len() && class_holds(class, self.program[self.index])
            invariant
                self.index <= self.program.len(),
                self.program == old(self).program,
                self.pos == old(self).pos,
                self.done == old(self).done,
                old(self).index <= self.index,
                run_end(self.program@, self.index as int, class) == run_end(
                    old(self).program@,
                    old(self).index as int,
                    class,
                ),
            decreases self.program.len() - self.index,
        {
            self.index = self.index + 1;
        }
        self.index
    }

    /// Consumes the next `char` if it is equal to `c`.
    /// Returns `true` if the `char` was consumed.
    fn matches(&mut self, c: char) -> (r: bool)
        requires
            old(self).index <= old(self).program.len(),
        ensures
            final(self).program == old(self).program,
            final(self).pos == old(self).pos,
            final(self).done == old(self).done,
            r == (old(self).index < old(self).program.len() && old(self).program@[old(
                self,
            ).index as int] == c),
            final(self).index == if r {
                old(self).index + 1
            } else {
                old(self).index as int
            },
    {
        if self.index < self.program.len() && self.program[self.index] == c {
            self.index = self.index + 1;
            true
        } else {
            false
        }
    }

    /// The characters of the program from `from` up to `to`, as a string.
    fn lexeme(&self, from: usize, to: usize) -> (s: String)
        requires
            from <= to <= self.program.len(),
        ensures
            s@ == self.program@.subrange(from as int, to as int),
    {
        let mut s = String::new();
        let mut k: usize = from;
        while k < to
            invariant
                from <= k <= to <= self.program.len(),
                s@ == self.program@.subrange(from as int, k as int),
            decreases to - k,
        {
            s.push(self.program[k]);
            proof {
                assert(s@ =~= self.program@.subrange(from as int, k + 1));
            }
            k = k + 1;
        }
        s
    }

    /// The number that the digits from `from` up to `to` denote, or 256 where
    /// it is greater than 255.
    fn number(&self, from: usize, to: usize) -> (n: usize)
        requires
            from <= to <= self.program.len(),
            forall|k: int| from <= k < to ==> rules::is_digit(#[trigger] self.program@[k]),
        ensures
            n <= 256,
            n == if digits_value(self.program@.subrange(from as int, to as int)) <= 255 {
                digits_value(self.program@.subrange(from as int, to as int))
            } else {
                256
            },
    {
        let mut n: usize = 0;
        let mut k: usize = from;
        proof {
            assert(self.program@.subrange(from as int, from as int) =~= Seq::<char>::empty());
        }
        while k < to
            invariant
                from <= k <= to <= self.program.len(),
                forall|j: int| from <= j < to ==> rules::is_digit(#[trigger] self.program@[j]),
                n <= 256,
                n == if digits_value(self.program@.subrange(from as int, k as int)) <= 255 {
                    digits_value(self.program@.subrange(from as int, k as int))
                } else {
                    256
                },
            decreases to - k,
        {
            let c = self.program[k];
            let d: usize = (c as u8 - 48) as usize;
            proof {
                let next = self.program@.subrange(from as int, k + 1);
                assert(next.drop_last() =~= self.program@.subrange(from as int, k as int));
                assert(next.last() == c);
                assert(rules::is_digit(self.program@[k as int]));
            }
            n = if n * 10 + d > 255 {
                256
            } else {
                n * 10 + d
            };
            k = k + 1;
        }
        n
    }

    /// Consumes a `char` in a char or string literal, the first character
    /// `c` of which has been consumed.
    fn consume_char(&mut self, c: char) -> (r: Result<u8, CompilerError>)
        requires
            old(self).wf(),
            old(self).index >= 1,
            old(self).program@[old(self).index - 1] == c,
        ensures
            final(self).wf(),
            final(self).program == old(self).program,
            ({
                let step = literal_char(old(self).program@, old(self).index - 1, old(self).pos);
                match r {
                    Ok(value) => {
                        &&& step.result == Ok::<u8, Seq<char>>(value)
                        &&& final(self).index == step.index
                        &&& final(self).pos == step.pos
                        &&& final(self).done == old(self).done
                    },
                    Err(error) => {
                        &&& step.result is Err
                        &&& final(self)@ == rules::fail(
                            old(self).program@,
                            step.pos,
                            step.result->Err_0,
                        ).next
                        &&& error@ == (ErrorView { pos: step.pos, message: step.result->Err_0 })
                    },
                }
            }),
    {
        if c == '\\' {
            match self.next() {
                Some(escape) => {
                    match escape_value(escape) {
                        Some(value) => {
                            return Ok(value);
                        },
                        None => {},
                    }
                    if escape == 'x' {
                        let a = match self.next() {
                            Some(x) => hex_digit_value(x),
                            None => None,
                        };
                        let b = match self.next() {
                            Some(x) => hex_digit_value(x),
                            None => None,
                        };
                        match (a, b) {
                            (Some(a), Some(b)) => {
                                return Ok(a * 16 + b);
                            },
                            _ => {},
                        }
                    }
                    let mut message = String::from_str("invalid escape sequence: '\\");
                    message.push(escape);
                    message.append("'");
                    proof {
                        assert(message@ =~= rules::invalid_escape(escape));
                    }
                    self.done = true;
                    self.index = self.program.len();
                    Err(CompilerError::new(message, self.pos))
                },
                None => {
                    self.done = true;
                    self.index = self.program.len();
                    Err(
                        CompilerError::new(
                            String::from_str("unterminated escape sequence"),
                            self.pos,
                        ),
                    )
                },
            }
        } else if (c as u32) >= 128 {
            let mut message = String::from_str("expected ASCII character, got '");
            message.push(c);
            message.append("'");
            proof {
                assert(message@ =~= rules::not_ascii(c));
            }
            self.done = true;
            self.index = self.program.len();
            Err(CompilerError::new(message, self.pos))
        } else {
            if c == '\n' {
                self.new_line();
            }
            Ok(c as u8)
        }
    }

    /// Skips a block comment, the opening `#[` of which has been consumed.
    /// Returns whether the comment was closed.
    fn skip_block_comment(&mut self) -> (closed: bool)
        requires
            old(self).wf(),
        ensures
            final(self).wf(),
            final(self).program == old(self).program,
            final(self).done == old(self).done,
            final(self).index >= old(self).index,
            ({
                let end = block_end(old(self).program@, old(self).index as int, 1, old(self).pos);
                &&& closed == end.closed
                &&& final(self).index == end.index
                &&& final(self).pos == end.pos
            }),
    {
        let mut depth: usize = 1;
        loop
            invariant
                self.wf(),
                self.program == old(self).program,
                self.done == old(self).done,
                1 <= depth <= self.index + 1,
                old(self).index <= self.index,
                block_end(self.program@, self.index as int, depth as nat, self.pos) == block_end(
                    old(self).program@,
                    old(self).index as int,
                    1,
                    old(self).pos,
                ),
            decreases self.program.len() - self.index,
        {
            match self.next() {
                None => {
                    return false;
                },
                Some(c) => {
                    if c == '\n' {
                        self.new_line();
                    } else if c == ']' && self.matches('#') {
                        depth = depth - 1;
                        if depth == 0 {
                            return true;
                        }
                    } else if c == '#' && self.matches('[') {
                        depth = depth + 1;
                    }
                },
            }
        }
    }

    /// Reads the token that starts with `c`, which has been consumed and is
    /// neither whitespace nor the start of a comment.
    fn token_at(&mut self, c: char) -> (r: CompilerResult<Token>)
        requires
            old(self).wf(),
            !old(self).done,
            old(self).index >= 1,
            old(self).program@[old(self).index - 1] == c,
        ensures
            final(self).wf(),
            step_of(final(self)@, r) == rules::lex_token_at(
                old(self).program@,
                old(self).index - 1,
                old(self).pos,
            ),
    {
        let first: usize = self.index - 1;
        if c == '_' || ('a' <= c && c <= 'z') || ('A' <= c && c <= 'Z') {
            let end = self.consume_while(CharClass::Word);
            let word = self.lexeme(first, end);
            self.token(word_token(word))
        } else if '0' <= c && c <= '9' {
            let end = self.consume_while(CharClass::Digit);
            proof {
                assert forall|k: int| first <= k < end implies rules::is_digit(
                    #[trigger] self.program@[k],
                ) by {
                    if k > first {
                        lemma_run_end_holds(self.program@, first + 1, CharClass::Digit, k);
                    }
                }
            }
            let value = self.number(first, end);
            if value <= 255 {
                self.token(TokenKind::IntLiteral(value as u8))
            } else {
                let mut message = String::from_str("integer literal too big: ");
                let digits = self.lexeme(first, end);
                message.append(digits.as_str());
                self.error(message)
            }
        } else if c == '\'' {
            self.char_literal()
        } else if c == '"' {
            self.string_literal()
        } else {
            match separator_token(c) {
                Some(kind) => {
                    return self.token(kind);
                },
                None => {},
            }
            match operator_token(c, false) {
                Some(kind) => {
                    if self.matches('=') {
                        match operator_token(c, true) {
                            Some(kind_eq) => {
                                return self.token(kind_eq);
                            },
                            None => {},
                        }
                    }
                    return self.token(kind);
                },
                None => {},
            }
            if c == '!' {
                if self.matches('=') {
                    self.token(TokenKind::NotEq)
                } else {
                    self.error(String::from_str("unexpected character, expected `!=`"))
                }
            } else {
                self.error(String::from_str("invalid token"))
            }
        }
    }

    /// Reads a char literal, the opening quote of which has been consumed.
    fn char_literal(&mut self) -> (r: CompilerResult<Token>)
        requires
            old(self).wf(),
            !old(self).done,
        ensures
            final(self).wf(),
            step_of(final(self)@, r) == rules::lex_char_literal(
                old(self).program@,
                old(self).index as int,
                old(self).pos,
            ),
    {
        match self.next() {
            Some(c) => {
                if c == '\'' || c == '\n' {
                    return self.error(String::from_str("invalid char literal"));
                }
                let value = match self.consume_char(c) {
                    Ok(value) => value,
                    Err(error) => {
                        return Err(error);
                    },
                };
                match self.next() {
                    Some(quote) => {
                        if quote == '\'' {
                            return self.token(TokenKind::CharLiteral(value));
                        }
                    },
                    None => {},
                }
            },
            None => {},
        }
        self.error(String::from_str("unterminated char literal"))
    }

    /// Reads a string literal, the opening quote of which has been consumed.
    fn string_literal(&mut self) -> (r: CompilerResult<Token>)
        requires
            old(self).wf(),
            !old(self).done,
        ensures
            final(self).wf(),
            step_of(final(self)@, r) == rules::lex_string_literal(
                old(self).program@,
                old(self).index as int,
                old(self).pos,
                Seq::empty(),
            ),
    {
        let mut buffer: Vec<u8> = Vec::new();
        loop
            invariant
                self.wf(),
                !self.done,
                self.program == old(self).program,
                rules::lex_string_literal(
                    self.program@,
                    self.index as int,
                    self.pos,
                    buffer@,
                ) == rules::lex_string_literal(
                    old(self).program@,
                    old(self).index as int,
                    old(self).pos,
                    Seq::empty(),
                ),
            decreases self.program.len() - self.index,
        {
            match self.next() {
                Some(c) => {
                    if c == '"' {
                        return self.token(TokenKind::StringLiteral(buffer));
                    }
                    match self.consume_char(c) {
                        Ok(value) => {
                            buffer.push(value);
                        },
                        Err(error) => {
                            return Err(error);
                        },
                    }
                },
                None => {
                    return self.error(String::from_str("unterminated string literal"));
                },
            }
        }
    }

    /// Returns the next [`Token`] or a [`CompilerError`].
    pub fn next_token(&mut self) -> (r: CompilerResult<Token>)
        requires
            old(self).wf(),
        ensures
            final(self).wf(),
            final(self)@ == lex_token(old(self)@).next,
            result_view(r) == lex_token(old(self)@).result,
    {
        // short-circuit if the lexer is already done
        if self.done {
            return self.token(TokenKind::Eof);
        }
        // consume characters until a token (or an error) is returned

        loop
            invariant
                self.wf(),
                !self.done,
                !old(self).done,
                self.program == old(self).program,
                lex_from(self.program@, self.index as int, self.pos) == lex_from(
                    old(self).program@,
                    old(self).index as int,
                    old(self).pos,
                ),
            decreases self.program.len() - self.index,
        {
            match self.next() {
                None => {
                    // no more characters left
                    self.done = true;
                    return self.token(TokenKind::Eof);
                },
                Some(c) => {
                    if c == '\n' {
                        self.new_line();
                    } else if c == ' ' || c == '\t' || c == '\x0C' || c == '\r' {
                    } else if c == '#' {
                        if self.matches('[') {
                            if !self.skip_block_comment() {
                                return self.error(String::from_str("unterminated block comment"));
                            }
                        } else {
                            self.consume_while(CharClass::NotNewline);
                        }
                    } else {
                        return self.token_at(c);
                    }
                },
            }
        }
    }
}

/// An iterator over a [`Lexer`]: it yields the lexer's tokens up to and
/// with the end-of-file token, or up to and with the first error.
pub struct TokenStream(pub Lexer);

impl Lexer {
    /// Turns the lexer into the stream of its tokens.
    pub fn into_iter(self) -> (stream: TokenStream)
        ensures
            stream.0 == self,
    {
        TokenStream(self)
    }
}

impl TokenStream {
    /// The next token or error; `None` once the lexer has stopped.
    pub fn next(&mut self) -> (r: Option<CompilerResult<Token>>)
        requires
            old(self).0.wf(),
        ensures
            final(self).0.wf(),
            old(self).0@.done ==> r is None && final(self).0@ == old(self).0@,
            !old(self).0@.done ==> r is Some && step_of(final(self).0@, r->Some_0) == lex_token(
                old(self).0@,
            ),
    {
        if self.0.is_done() {
            None
        } else {
            Some(self.0.next_token())
        }
    }
}

/// The tokens of `program`, the last of which is the end-of-file token, or
/// the first lexical error.
pub fn tokenize(program: &str) -> (r: CompilerResult<Vec<Token>>)
    ensures
        match r {
            Ok(tokens) => rules::tokens_of(program@) == Ok::<Seq<TokenView>, ErrorView>(
                token_views(tokens@),
            ) && tokens@.len() > 0 && tokens@.last().kind@ == TokenKindView::Eof,
            Err(error) => rules::tokens_of(program@) == Err::<Seq<TokenView>, ErrorView>(error@),
        },
{
    let mut lexer = Lexer::new(program);
    let mut tokens: Vec<Token> = Vec::new();
    proof {
        assert(token_views(tokens@) =~= Seq::empty());
    }
    while !lexer.is_done()
        invariant
            lexer.wf(),
            lexer@.program == program@,
            rules::lex_all(lexer@, token_views(tokens@)) == rules::tokens_of(program@),
        decreases 2 * (lexer@.program.len() - lexer@.index) + (if lexer@.done { 0int } else { 1int }),
    {
        proof {
            rules::lemma_lex_from_advances(lexer@.program, lexer@.index, lexer@.pos);
        }
        let ghost before = token_views(tokens@);
        match lexer.next_token() {
            Ok(token) => {
                tokens.push(token);
                proof {
                    assert(token_views(tokens@) =~= before.push(token@));
                }
            },
            Err(error) => {
                return Err(error);
            },
        }
    }
    proof {
        rules::lemma_lex_all_ends_with_eof(start(program@), Seq::empty());
        let views = token_views(tokens@);
        assert(views.last() == tokens@.last()@);
    }
    Ok(tokens)
}

} // verus!
