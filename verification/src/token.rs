//! Types for the tokens.

use vstd::prelude::*;
use vstd::string::*;
use crate::util::{decimal, push_decimal, Position};

verus! {

/// An enum representing the different kinds of tokens.
#[derive(Debug)]
pub enum TokenKind {
    /// An identifier.
    Identifier(String),
    /// A type name (`void` or `int`).
    Type(String),
    /// An integer literal.
    IntLiteral(u8),
    /// An ASCII character literal.
    CharLiteral(u8),
    /// An ASCII string literal.
    StringLiteral(Vec<u8>),
    /// `if`
    If,
    /// `else`
    Else,
    /// `while`
    While,
    /// `repeat`
    Repeat,
    /// `return`
    Return,
    /// `inline`
    Inline,
    /// `and`
    And,
    /// `or`
    Or,
    /// `not`
    Not,
    /// `true`
    True,
    /// `false`
    False,
    /// `(`
    LeftParen,
    /// `)`
    RightParen,
    /// `{`
    LeftBrace,
    /// `}`
    RightBrace,
    /// `,`
    Comma,
    /// `;`
    Semicolon,
    /// `+`
    Plus,
    /// `-`
    Minus,
    /// `*`
    Star,
    /// `/`
    Slash,
    /// `%`
    Percent,
    /// `=`
    Eq,
    /// `+=`
    PlusEq,
    /// `-=`
    MinusEq,
    /// `*=`
    StarEq,
    /// `/=`
    SlashEq,
    /// `%=`
    PercentEq,
    /// `==`
    EqEq,
    /// `!=`
    NotEq,
    /// `>`
    Greater,
    /// `>=`
    GreaterEq,
    /// `<`
    Less,
    /// `<=`
    LessEq,
    /// End of file.
    Eof,
}

/// The mathematical content of a [`TokenKind`].
pub enum TokenKindView {
    Identifier(Seq<char>),
    Type(Seq<char>),
    IntLiteral(u8),
    CharLiteral(u8),
    StringLiteral(Seq<u8>),
    If,
    Else,
    While,
    Repeat,
    Return,
    Inline,
    And,
    Or,
    Not,
    True,
    False,
    LeftParen,
    RightParen,
    LeftBrace,
    RightBrace,
    Comma,
    Semicolon,
    Plus,
    Minus,
    Star,
    Slash,
    Percent,
    Eq,
    PlusEq,
    MinusEq,
    StarEq,
    SlashEq,
    PercentEq,
    EqEq,
    NotEq,
    Greater,
    GreaterEq,
    Less,
    LessEq,
    Eof,
}

impl View for TokenKind {
    type V = TokenKindView;

    open spec fn view(&self) -> TokenKindView {
        match self {
            TokenKind::Identifier(name) => TokenKindView::Identifier(name@),
            TokenKind::Type(name) => TokenKindView::Type(name@),
            TokenKind::IntLiteral(value) => TokenKindView::IntLiteral(*value),
            TokenKind::CharLiteral(value) => TokenKindView::CharLiteral(*value),
            TokenKind::StringLiteral(value) => TokenKindView::StringLiteral(value@),
            TokenKind::If => TokenKindView::If,
            TokenKind::Else => TokenKindView::Else,
            TokenKind::While => TokenKindView::While,
            TokenKind::Repeat => TokenKindView::Repeat,
            TokenKind::Return => TokenKindView::Return,
            TokenKind::Inline => TokenKindView::Inline,
            TokenKind::And => TokenKindView::And,
            TokenKind::Or => TokenKindView::Or,
            TokenKind::Not => TokenKindView::Not,
            TokenKind::True => TokenKindView::True,
            TokenKind::False => TokenKindView::False,
            TokenKind::LeftParen => TokenKindView::LeftParen,
            TokenKind::RightParen => TokenKindView::RightParen,
            TokenKind::LeftBrace => TokenKindView::LeftBrace,
            TokenKind::RightBrace => TokenKindView::RightBrace,
            TokenKind::Comma => TokenKindView::Comma,
            TokenKind::Semicolon => TokenKindView::Semicolon,
            TokenKind::Plus => TokenKindView::Plus,
            TokenKind::Minus => TokenKindView::Minus,
            TokenKind::Star => TokenKindView::Star,
            TokenKind::Slash => TokenKindView::Slash,
            TokenKind::Percent => TokenKindView::Percent,
            TokenKind::Eq => TokenKindView::Eq,
            TokenKind::PlusEq => TokenKindView::PlusEq,
            TokenKind::MinusEq => TokenKindView::MinusEq,
            TokenKind::StarEq => TokenKindView::StarEq,
            TokenKind::SlashEq => TokenKindView::SlashEq,
            TokenKind::PercentEq => TokenKindView::PercentEq,
            TokenKind::EqEq => TokenKindView::EqEq,
            TokenKind::NotEq => TokenKindView::NotEq,
            TokenKind::Greater => TokenKindView::Greater,
            TokenKind::GreaterEq => TokenKindView::GreaterEq,
            TokenKind::Less => TokenKindView::Less,
            TokenKind::LessEq => TokenKindView::LessEq,
            TokenKind::Eof => TokenKindView::Eof,
        }
    }
}

/// A token.
#[derive(Debug)]
pub struct Token {
    /// The kind of token.
    pub kind: TokenKind,
    /// The position of the token.
    pub pos: Position,
}

/// The mathematical content of a [`Token`].
pub struct TokenView {
    pub kind: TokenKindView,
    pub pos: Position,
}

impl View for Token {
    type V = TokenView;

    open spec fn view(&self) -> TokenView {
        TokenView { kind: self.kind@, pos: self.pos }
    }
}

/// The views of the tokens of `tokens`, in order.
pub open spec fn token_views(tokens: Seq<Token>) -> Seq<TokenView> {
    Seq::new(tokens.len(), |i: int| tokens[i]@)
}

/// The upper-case hexadecimal digit of `d`.
pub open spec fn hex_digit(d: u8) -> char
    recommends
        d < 16,
{
    if d < 10 {
        (48u8 + d) as char
    } else {
        (55u8 + d) as char
    }
}

/// How the byte `c` of a literal is shown in a message: as its escape
/// sequence where it has one, as itself where it is printable, and else as
/// `\xHH`.
pub open spec fn char_text(c: u8) -> Seq<char> {
    if c == 0x07 {
        seq!['\\', 'a']
    } else if c == 0x08 {
        seq!['\\', 'b']
    } else if c == 0x0C {
        seq!['\\', 'f']
    } else if c == 0x0A {
        seq!['\\', 'n']
    } else if c == 0x0D {
        seq!['\\', 'r']
    } else if c == 0x09 {
        seq!['\\', 't']
    } else if c == 0x0B {
        seq!['\\', 'v']
    } else if c == 0x27 {
        seq!['\\', '\'']
    } else if c == 0x22 {
        seq!['\\', '"']
    } else if c == 0x5C {
        seq!['\\', '\\']
    } else if 0x20 <= c <= 0x7E {
        seq![c as char]
    } else {
        seq!['\\', 'x', hex_digit(c / 16), hex_digit(c % 16)]
    }
}

/// The bytes of a literal as they are shown in a message.
pub open spec fn bytes_text(v: Seq<u8>) -> Seq<char>
    decreases v.len(),
{
    if v.len() == 0 {
        Seq::empty()
    } else {
        bytes_text(v.drop_last()) + char_text(v.last())
    }
}

fn push_hex_digit(s: &mut String, d: u8)
    requires
        d < 16,
    ensures
        final(s)@ == old(s)@.push(hex_digit(d)),
{
    if d < 10 {
        s.push((48u8 + d) as char);
    } else {
        s.push((55u8 + d) as char);
    }
}

/// Appends to `s` the byte `c` as it is shown in a message.
pub fn fmt_char(s: &mut String, c: u8)
    ensures
        final(s)@ == old(s)@ + char_text(c),
{
    if c == 0x07 {
        s.push('\\');
        s.push('a');
    } else if c == 0x08 {
        s.push('\\');
        s.push('b');
    } else if c == 0x0C {
        s.push('\\');
        s.push('f');
    } else if c == 0x0A {
        s.push('\\');
        s.push('n');
    } else if c == 0x0D {
        s.push('\\');
        s.push('r');
    } else if c == 0x09 {
        s.push('\\');
        s.push('t');
    } else if c == 0x0B {
        s.push('\\');
        s.push('v');
    } else if c == 0x27 {
        s.push('\\');
        s.push('\'');
    } else if c == 0x22 {
        s.push('\\');
        s.push('"');
    } else if c == 0x5C {
        s.push('\\');
        s.push('\\');
    } else if 0x20 <= c && c <= 0x7E {
        s.push(c as char);
    } else {
        s.push('\\');
        s.push('x');
        push_hex_digit(s, c / 16);
        push_hex_digit(s, c % 16);
    }
    proof {
        assert(s@ =~= old(s)@ + char_text(c));
    }
}

fn bytes_eq(a: &Vec<u8>, b: &Vec<u8>) -> (r: bool)
    ensures
        r == (a@ == b@),
{
    if a.len() != b.len() {
        return false;
    }
    let mut i: usize = 0;
    while i < a.len()
        invariant
            a.len() == b.len(),
            i <= a.len(),
            forall|k: int| 0 <= k < i ==> a@[k] == b@[k],
        decreases a.len() - i,
    {
        if a[i] != b[i] {
            return false;
        }
        i = i + 1;
    }
    proof {
        assert(a@ =~= b@);
    }
    true
}

impl TokenKindView {
    /// How the token kind is named in a message.
    pub open spec fn text(self) -> Seq<char> {
        match self {
            TokenKindView::Identifier(name) => "identifier `"@ + name + "`"@,
            TokenKindView::Type(name) => "type `"@ + name + "`"@,
            TokenKindView::IntLiteral(value) => "integer literal `"@ + decimal(value as nat) + "`"@,
            TokenKindView::CharLiteral(value) => "char literal `'"@ + char_text(value) + "'`"@,
            TokenKindView::StringLiteral(value) => "string literal `\""@ + bytes_text(value)
                + "\"`"@,
            TokenKindView::If => "keyword `if`"@,
            TokenKindView::Else => "keyword `else`"@,
            TokenKindView::While => "keyword `while`"@,
            TokenKindView::Repeat => "keyword `repeat`"@,
            TokenKindView::Return => "keyword `return`"@,
            TokenKindView::Inline => "keyword `inline`"@,
            TokenKindView::And => "keyword `and`"@,
            TokenKindView::Or => "keyword `or`"@,
            TokenKindView::Not => "keyword `not`"@,
            TokenKindView::True => "keyword `true`"@,
            TokenKindView::False => "keyword `false`"@,
            TokenKindView::LeftParen => "`(`"@,
            TokenKindView::RightParen => "`)`"@,
            TokenKindView::LeftBrace => "`{`"@,
            TokenKindView::RightBrace => "`}`"@,
            TokenKindView::Comma => "`,`"@,
            TokenKindView::Semicolon => "`;`"@,
            TokenKindView::Plus => "`+`"@,
            TokenKindView::Minus => "`-`"@,
            TokenKindView::Star => "`*`"@,
            TokenKindView::Slash => "`/`"@,
            TokenKindView::Percent => "`%`"@,
            TokenKindView::Eq => "`=`"@,
            TokenKindView::PlusEq => "`+=`"@,
            TokenKindView::MinusEq => "`-=`"@,
            TokenKindView::StarEq => "`*=`"@,
            TokenKindView::SlashEq => "`/=`"@,
            TokenKindView::PercentEq => "`%=`"@,
            TokenKindView::EqEq => "`==`"@,
            TokenKindView::NotEq => "`!=`"@,
            TokenKindView::Greater => "`>`"@,
            TokenKindView::GreaterEq => "`>=`"@,
            TokenKindView::Less => "`<`"@,
            TokenKindView::LessEq => "`<=`"@,
            TokenKindView::Eof => "end of file"@,
        }
    }
}

impl TokenKind {
    /// Names the token kind as it appears in a message.
    pub fn to_string(&self) -> (s: String)
        ensures
            s@ == self@.text(),
    {
        match self {
            TokenKind::Identifier(name) => {
                let mut s = String::from_str("identifier `");
                s.append(name.as_str());
                s.append("`");
                s
            },
            TokenKind::Type(name) => {
                let mut s = String::from_str("type `");
                s.append(name.as_str());
                s.append("`");
                s
            },
            TokenKind::IntLiteral(value) => {
                let mut s = String::from_str("integer literal `");
                push_decimal(&mut s, *value as usize);
                s.append("`");
                s
            },
            TokenKind::CharLiteral(value) => {
                let mut s = String::from_str("char literal `'");
                fmt_char(&mut s, *value);
                s.append("'`");
                s
            },
            TokenKind::StringLiteral(value) => {
                let mut s = String::from_str("string literal `\"");
                let mut i: usize = 0;
                while i < value.len()
                    invariant
                        i <= value.len(),
                        s@ == "string literal `\""@ + bytes_text(value@.take(i as int)),
                    decreases value.len() - i,
                {
                    fmt_char(&mut s, value[i]);
                    proof {
                        assert(value@.take(i + 1).drop_last() =~= value@.take(i as int));
                        assert(s@ =~= "string literal `\""@ + bytes_text(value@.take(i + 1)));
                    }
                    i = i + 1;
                }
                proof {
                    assert(value@.take(i as int) =~= value@);
                }
                s.append("\"`");
                s
            },
            TokenKind::If => String::from_str("keyword `if`"),
            TokenKind::Else => String::from_str("keyword `else`"),
            TokenKind::While => String::from_str("keyword `while`"),
            TokenKind::Repeat => String::from_str("keyword `repeat`"),
            TokenKind::Return => String::from_str("keyword `return`"),
            TokenKind::Inline => String::from_str("keyword `inline`"),
            TokenKind::And => String::from_str("keyword `and`"),
            TokenKind::Or => String::from_str("keyword `or`"),
            TokenKind::Not => String::from_str("keyword `not`"),
            TokenKind::True => String::from_str("keyword `true`"),
            TokenKind::False => String::from_str("keyword `false`"),
            TokenKind::LeftParen => String::from_str("`(`"),
            TokenKind::RightParen => String::from_str("`)`"),
            TokenKind::LeftBrace => String::from_str("`{`"),
            TokenKind::RightBrace => String::from_str("`}`"),
            TokenKind::Comma => String::from_str("`,`"),
            TokenKind::Semicolon => String::from_str("`;`"),
            TokenKind::Plus => String::from_str("`+`"),
            TokenKind::Minus => String::from_str("`-`"),
            TokenKind::Star => String::from_str("`*`"),
            TokenKind::Slash => String::from_str("`/`"),
            TokenKind::Percent => String::from_str("`%`"),
            TokenKind::Eq => String::from_str("`=`"),
            TokenKind::PlusEq => String::from_str("`+=`"),
            TokenKind::MinusEq => String::from_str("`-=`"),
            TokenKind::StarEq => String::from_str("`*=`"),
            TokenKind::SlashEq => String::from_str("`/=`"),
            TokenKind::PercentEq => String::from_str("`%=`"),
            TokenKind::EqEq => String::from_str("`==`"),
            TokenKind::NotEq => String::from_str("`!=`"),
            TokenKind::Greater => String::from_str("`>`"),
            TokenKind::GreaterEq => String::from_str("`>=`"),
            TokenKind::Less => String::from_str("`<`"),
            TokenKind::LessEq => String::from_str("`<=`"),
            TokenKind::Eof => String::from_str("end of file"),
        }
    }
}

fn copy_bytes(v: &Vec<u8>) -> (copy: Vec<u8>)
    ensures
        copy@ == v@,
{
    let mut copy: Vec<u8> = Vec::new();
    let mut i: usize = 0;
    while i < v.len()
        invariant
            i <= v.len(),
            copy@ == v@.take(i as int),
        decreases v.len() - i,
    {
        copy.push(v[i]);
        proof {
            assert(copy@ =~= v@.take(i + 1));
        }
        i = i + 1;
    }
    proof {
        assert(v@.take(i as int) =~= v@);
    }
    copy
}

impl TokenKind {
    /// A copy of the token kind.
    pub fn duplicate(&self) -> (copy: Self)
        ensures
            copy@ == self@,
    {
        match self {
            TokenKind::Identifier(name) => TokenKind::Identifier(name.clone()),
            TokenKind::Type(name) => TokenKind::Type(name.clone()),
            TokenKind::IntLiteral(value) => TokenKind::IntLiteral(*value),
            TokenKind::CharLiteral(value) => TokenKind::CharLiteral(*value),
            TokenKind::StringLiteral(value) => TokenKind::StringLiteral(copy_bytes(value)),
            TokenKind::If => TokenKind::If,
            TokenKind::Else => TokenKind::Else,
            TokenKind::While => TokenKind::While,
            TokenKind::Repeat => TokenKind::Repeat,
            TokenKind::Return => TokenKind::Return,
            TokenKind::Inline => TokenKind::Inline,
            TokenKind::And => TokenKind::And,
            TokenKind::Or => TokenKind::Or,
            TokenKind::Not => TokenKind::Not,
            TokenKind::True => TokenKind::True,
            TokenKind::False => TokenKind::False,
            TokenKind::LeftParen => TokenKind::LeftParen,
            TokenKind::RightParen => TokenKind::RightParen,
            TokenKind::LeftBrace => TokenKind::LeftBrace,
            TokenKind::RightBrace => TokenKind::RightBrace,
            TokenKind::Comma => TokenKind::Comma,
            TokenKind::Semicolon => TokenKind::Semicolon,
            TokenKind::Plus => TokenKind::Plus,
            TokenKind::Minus => TokenKind::Minus,
            TokenKind::Star => TokenKind::Star,
            TokenKind::Slash => TokenKind::Slash,
            TokenKind::Percent => TokenKind::Percent,
            TokenKind::Eq => TokenKind::Eq,
            TokenKind::PlusEq => TokenKind::PlusEq,
            TokenKind::MinusEq => TokenKind::MinusEq,
            TokenKind::StarEq => TokenKind::StarEq,
            TokenKind::SlashEq => TokenKind::SlashEq,
            TokenKind::PercentEq => TokenKind::PercentEq,
            TokenKind::EqEq => TokenKind::EqEq,
            TokenKind::NotEq => TokenKind::NotEq,
            TokenKind::Greater => TokenKind::Greater,
            TokenKind::GreaterEq => TokenKind::GreaterEq,
            TokenKind::Less => TokenKind::Less,
            TokenKind::LessEq => TokenKind::LessEq,
            TokenKind::Eof => TokenKind::Eof,
        }
    }
}

impl Token {
    /// A copy of the token.
    pub fn duplicate(&self) -> (copy: Self)
        ensures
            copy@ == self@,
    {
        Token { kind: self.kind.duplicate(), pos: self.pos }
    }
}

impl PartialEq for TokenKind {
    /// Two kinds are equal where they are the same variant with the same
    /// content.
    fn eq(&self, other: &Self) -> (r: bool) {
        match self {
            TokenKind::Identifier(a) => match other {
                TokenKind::Identifier(b) => *a == *b,
                _ => false,
            },
            TokenKind::Type(a) => match other {
                TokenKind::Type(b) => *a == *b,
                _ => false,
            },
            TokenKind::IntLiteral(a) => match other {
                TokenKind::IntLiteral(b) => *a == *b,
                _ => false,
            },
            TokenKind::CharLiteral(a) => match other {
                TokenKind::CharLiteral(b) => *a == *b,
                _ => false,
            },
            TokenKind::StringLiteral(a) => match other {
                TokenKind::StringLiteral(b) => bytes_eq(a, b),
                _ => false,
            },
            TokenKind::If => matches!(other, TokenKind::If),
            TokenKind::Else => matches!(other, TokenKind::Else),
            TokenKind::While => matches!(other, TokenKind::While),
            TokenKind::Repeat => matches!(other, TokenKind::Repeat),
            TokenKind::Return => matches!(other, TokenKind::Return),
            TokenKind::Inline => matches!(other, TokenKind::Inline),
            TokenKind::And => matches!(other, TokenKind::And),
            TokenKind::Or => matches!(other, TokenKind::Or),
            TokenKind::Not => matches!(other, TokenKind::Not),
            TokenKind::True => matches!(other, TokenKind::True),
            TokenKind::False => matches!(other, TokenKind::False),
            TokenKind::LeftParen => matches!(other, TokenKind::LeftParen),
            TokenKind::RightParen => matches!(other, TokenKind::RightParen),
            TokenKind::LeftBrace => matches!(other, TokenKind::LeftBrace),
            TokenKind::RightBrace => matches!(other, TokenKind::RightBrace),
            TokenKind::Comma => matches!(other, TokenKind::Comma),
            TokenKind::Semicolon => matches!(other, TokenKind::Semicolon),
            TokenKind::Plus => matches!(other, TokenKind::Plus),
            TokenKind::Minus => matches!(other, TokenKind::Minus),
            TokenKind::Star => matches!(other, TokenKind::Star),
            TokenKind::Slash => matches!(other, TokenKind::Slash),
            TokenKind::Percent => matches!(other, TokenKind::Percent),
            TokenKind::Eq => matches!(other, TokenKind::Eq),
            TokenKind::PlusEq => matches!(other, TokenKind::PlusEq),
            TokenKind::MinusEq => matches!(other, TokenKind::MinusEq),
            TokenKind::StarEq => matches!(other, TokenKind::StarEq),
            TokenKind::SlashEq => matches!(other, TokenKind::SlashEq),
            TokenKind::PercentEq => matches!(other, TokenKind::PercentEq),
            TokenKind::EqEq => matches!(other, TokenKind::EqEq),
            TokenKind::NotEq => matches!(other, TokenKind::NotEq),
            TokenKind::Greater => matches!(other, TokenKind::Greater),
            TokenKind::GreaterEq => matches!(other, TokenKind::GreaterEq),
            TokenKind::Less => matches!(other, TokenKind::Less),
            TokenKind::LessEq => matches!(other, TokenKind::LessEq),
            TokenKind::Eof => matches!(other, TokenKind::Eof),
        }
    }
}

impl vstd::std_specs::cmp::PartialEqSpecImpl for TokenKind {
    open spec fn obeys_eq_spec() -> bool {
        true
    }

    open spec fn eq_spec(&self, other: &Self) -> bool {
        self@ == other@
    }
}

impl PartialEq for Token {
    /// Two tokens are equal where their kinds are: the position does not
    /// count.
    fn eq(&self, other: &Self) -> (r: bool) {
        self.kind == other.kind
    }
}

impl vstd::std_specs::cmp::PartialEqSpecImpl for Token {
    open spec fn obeys_eq_spec() -> bool {
        true
    }

    open spec fn eq_spec(&self, other: &Self) -> bool {
        self.kind@ == other.kind@
    }
}

} // verus!
