use transpeter::ast::sexp::Sexp;
use transpeter::ast::{BinaryOpKind, UnaryOpKind};
use transpeter::lexer::{tokenize, Lexer};
use transpeter::parser::Parser;
use transpeter::token::TokenKind;
use transpeter::util::{CompilerError, Position};

#[test]
fn hex_escape_in_char_literal() {
    let tokens = tokenize("'\\xAB'").unwrap();
    assert_eq!(tokens.len(), 2);
    assert_eq!(tokens[0].kind, TokenKind::CharLiteral(0xAB));
    assert_eq!(tokens[1].kind, TokenKind::Eof);
    assert!(tokenize("'\\xG1'").is_err());
}

#[test]
fn literal_round_trip() {
    for byte in 0u8..128 {
        let c = byte as char;
        if c != '"' && c != '\\' {
            let tokens = tokenize(&format!("\"{}\"", c)).unwrap();
            assert_eq!(tokens[0].kind, TokenKind::StringLiteral(vec![byte]));
        }
        if c != '\'' && c != '\\' && c != '\n' {
            let tokens = tokenize(&format!("'{}'", c)).unwrap();
            assert_eq!(tokens[0].kind, TokenKind::CharLiteral(byte));
            assert_eq!(tokens[0].pos.line, 1);
        }
    }
}

#[test]
fn positions_count_lines() {
    let tokens = tokenize("a\nb # c\n#[ d\n\n ]# e \"x\ny\" f").unwrap();
    let lines: Vec<usize> = tokens.iter().map(|t| t.pos.line).collect();
    assert_eq!(lines, [1, 2, 5, 6, 6, 6]);
    let mut position = Position::default();
    assert_eq!(position.line, 1);
    position.inc_line();
    assert_eq!(position.line, 2);
    assert_eq!(position.to_string(), "line 2");
    assert_eq!(Position::new().to_string(), "line 1");
}

#[test]
fn lexer_yields_end_of_file_after_it_has_stopped() {
    let mut lexer = Lexer::new("a $ b");
    assert_eq!(lexer.next_token().unwrap().kind, TokenKind::Identifier("a".to_string()));
    assert!(!lexer.is_done());
    assert!(lexer.next_token().is_err());
    assert!(lexer.is_done());
    assert_eq!(lexer.next_token().unwrap().kind, TokenKind::Eof);
    let mut stream = Lexer::new("").into_iter();
    assert_eq!(stream.next().unwrap().unwrap().kind, TokenKind::Eof);
    assert!(stream.next().is_none());
}

#[test]
fn error_text() {
    let error = CompilerError::new("something".to_string(), Position { line: 120 });
    assert_eq!(error.to_string(), "line 120: something");
    assert_eq!(error.message, "something");
    assert_eq!(error.pos.line, 120);
}

#[test]
fn token_kinds_as_text() {
    assert_eq!(TokenKind::Identifier("ab".to_string()).to_string(), "identifier `ab`");
    assert_eq!(TokenKind::Type("int".to_string()).to_string(), "type `int`");
    assert_eq!(TokenKind::IntLiteral(205).to_string(), "integer literal `205`");
    assert_eq!(TokenKind::CharLiteral(b'a').to_string(), "char literal `'a'`");
    assert_eq!(TokenKind::CharLiteral(b' ').to_string(), "char literal `' '`");
    assert_eq!(TokenKind::CharLiteral(b'\'').to_string(), "char literal `'\\''`");
    assert_eq!(
        TokenKind::StringLiteral(vec![7, 8, 12, 10, 13, 9, 11, 39, 34, 92, 0, 0x1F, 0x7F, 0xAB, b'~'])
            .to_string(),
        "string literal `\"\\a\\b\\f\\n\\r\\t\\v\\'\\\"\\\\\\x00\\x1F\\x7F\\xAB~\"`"
    );
    assert_eq!(TokenKind::If.to_string(), "keyword `if`");
    assert_eq!(TokenKind::False.to_string(), "keyword `false`");
    assert_eq!(TokenKind::LeftBrace.to_string(), "`{`");
    assert_eq!(TokenKind::PercentEq.to_string(), "`%=`");
    assert_eq!(TokenKind::Eof.to_string(), "end of file");
    assert_eq!(TokenKind::Plus.duplicate(), TokenKind::Plus);
    assert_ne!(TokenKind::CharLiteral(1), TokenKind::IntLiteral(1));
    assert_ne!(TokenKind::CharLiteral(1), TokenKind::CharLiteral(2));
}

#[test]
fn operators_as_text() {
    assert_eq!(BinaryOpKind::GreaterEq.to_string(), ">=");
    assert_eq!(BinaryOpKind::And.to_string(), "and");
    assert_eq!(UnaryOpKind::Not.to_string(), "not");
}

fn sexp(input: &str) -> String {
    let expr = Parser::new(tokenize(input).unwrap()).parse_expr().unwrap();
    Sexp::from_expr(expr).to_string()
}

#[test]
fn precedence_of_every_pair_of_levels() {
    let levels: [(&str, u8); 13] = [
        ("or", 1), ("and", 2), ("==", 4), ("!=", 4), ("<", 4), ("<=", 4), (">", 4), (">=", 4),
        ("+", 5), ("-", 5), ("*", 6), ("/", 6), ("%", 6),
    ];
    for (first, p) in levels {
        for (second, q) in levels {
            let expected = if p >= q {
                format!("({} ({} a b) c)", second, first)
            } else {
                format!("({} a ({} b c))", first, second)
            };
            assert_eq!(sexp(&format!("a {} b {} c", first, second)), expected);
        }
    }
    assert_eq!(sexp("-a * b"), "(* (- a) b)");
    assert_eq!(sexp("not a == b"), "(not (== a b))");
    assert_eq!(sexp("f(a + 1, g()) * (2 - 'a')"), "(* (f (+ a 1) (g)) (- 2 97))");
}

#[test]
fn pretty_printed_program() {
    let source = "int f(int a) { return -a; }\nint x = f(1 + 2);\nif (x) { x *= 2; } else inline \"+.\";\nwhile (0) repeat (1) f(x,);\n";
    let ast = transpeter::parse_source(source, "demo").unwrap();
    let expected = "\
Program
  name: demo
  items:
    Function
      name: f
      return type: int
      parameters:
        Declaration
          type: int
          name: a
      statements:
        Return
          Unary
            operator: -
            right:
              Var a
    Declaration
      type: int
      name: x
      init:
        Call
          name: f
          arguments:
            Binary
              left:
                Int 1
              operator: +
              right:
                Int 2
    If
      condition:
        Var x
      then statement:
        Block
          Assign
            name: x
            operator: *=
            expression:
            Int 2
      else statement:
        Inline
          +.
    While
      condition:
        Int 0
      statement:
        Repeat
          expression:
            Int 1
          statement:
            Call
              name: f
              arguments:
                Var x
";
    assert_eq!(transpeter::ast::pretty_print::pretty_print_ast(&ast), expected);
}
