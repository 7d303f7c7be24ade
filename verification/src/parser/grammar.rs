//! The grammar, as functions from a sequence of tokens and an index to the
//! syntax tree that starts there and the index after it.
//!
//! Behind the last token the sequence counts as end of file. A loop of the
//! grammar goes on only where the piece before it has consumed a token.

use vstd::prelude::*;
use crate::ast::{
    AssignOp, AssignOpKind, BinaryOp, BinaryOpKind, DeclarationView, ExprView, ItemView, NameView,
    StatementView, UnaryOp, UnaryOpKind,
};
use crate::token::{TokenKindView, TokenView};
use crate::util::{ErrorView, Position};

verus! {

/// What a piece of the grammar yields: the tree or the error, and the index
/// of the token after the piece.
pub struct Parsed<T> {
    pub result: Result<T, ErrorView>,
    pub next: int,
}

/// The token at `i`; behind the last token, an end-of-file token.
pub open spec fn at(tokens: Seq<TokenView>, i: int) -> TokenView {
    if 0 <= i < tokens.len() {
        tokens[i]
    } else {
        TokenView { kind: TokenKindView::Eof, pos: Position { line: 0 } }
    }
}

pub open spec fn done<T>(value: T, next: int) -> Parsed<T> {
    Parsed { result: Ok(value), next }
}

pub open spec fn fail<T>(error: ErrorView, next: int) -> Parsed<T> {
    Parsed { result: Err(error), next }
}

/// The result of a loop whose last piece consumed no token. No piece of this
/// grammar succeeds without consuming one, so it does not occur.
pub open spec fn stuck<T>(next: int) -> Parsed<T> {
    Parsed { result: Err(ErrorView { pos: Position { line: 0 }, message: Seq::empty() }), next }
}

/// The error for a `token` that stands where `what` was expected.
pub open spec fn expected(what: Seq<char>, token: TokenView) -> ErrorView {
    ErrorView { pos: token.pos, message: "expected "@ + what + ", got "@ + token.kind.text() }
}

/// The binary operator of a token, with its left and right binding power.
pub open spec fn binary_bp(kind: TokenKindView) -> Option<(BinaryOpKind, u8, u8)> {
    match kind {
        TokenKindView::Plus => Some((BinaryOpKind::Plus, 9u8, 10u8)),
        TokenKindView::Minus => Some((BinaryOpKind::Minus, 9u8, 10u8)),
        TokenKindView::Star => Some((BinaryOpKind::Star, 11u8, 12u8)),
        TokenKindView::Slash => Some((BinaryOpKind::Slash, 11u8, 12u8)),
        TokenKindView::Percent => Some((BinaryOpKind::Percent, 11u8, 12u8)),
        TokenKindView::EqEq => Some((BinaryOpKind::EqEq, 7u8, 8u8)),
        TokenKindView::NotEq => Some((BinaryOpKind::NotEq, 7u8, 8u8)),
        TokenKindView::Greater => Some((BinaryOpKind::Greater, 7u8, 8u8)),
        TokenKindView::GreaterEq => Some((BinaryOpKind::GreaterEq, 7u8, 8u8)),
        TokenKindView::Less => Some((BinaryOpKind::Less, 7u8, 8u8)),
        TokenKindView::LessEq => Some((BinaryOpKind::LessEq, 7u8, 8u8)),
        TokenKindView::And => Some((BinaryOpKind::And, 3u8, 4u8)),
        TokenKindView::Or => Some((BinaryOpKind::Or, 1u8, 2u8)),
        _ => None,
    }
}

/// The prefix operator of a token, with its right binding power.
pub open spec fn unary_bp(kind: TokenKindView) -> Option<(UnaryOpKind, u8)> {
    match kind {
        TokenKindView::Plus => Some((UnaryOpKind::Plus, 13u8)),
        TokenKindView::Minus => Some((UnaryOpKind::Minus, 13u8)),
        TokenKindView::Not => Some((UnaryOpKind::Not, 5u8)),
        _ => None,
    }
}

/// The assignment operator of a token.
pub open spec fn assign_op(kind: TokenKindView) -> Option<AssignOpKind> {
    match kind {
        TokenKindView::Eq => Some(AssignOpKind::Eq),
        TokenKindView::PlusEq => Some(AssignOpKind::PlusEq),
        TokenKindView::MinusEq => Some(AssignOpKind::MinusEq),
        TokenKindView::StarEq => Some(AssignOpKind::StarEq),
        TokenKindView::SlashEq => Some(AssignOpKind::SlashEq),
        TokenKindView::PercentEq => Some(AssignOpKind::PercentEq),
        _ => None,
    }
}

/// The token at `i`, which has to be of kind `kind`.
pub open spec fn expect(tokens: Seq<TokenView>, i: int, kind: TokenKindView) -> Parsed<TokenView> {
    let token = at(tokens, i);
    if token.kind == kind {
        done(token, i + 1)
    } else {
        fail(expected(kind.text(), token), i + 1)
    }
}

pub open spec fn expect_identifier(tokens: Seq<TokenView>, i: int) -> Parsed<NameView> {
    let token = at(tokens, i);
    match token.kind {
        TokenKindView::Identifier(name) => done(NameView { pos: token.pos, name }, i + 1),
        _ => fail(expected("identifier"@, token), i + 1),
    }
}

pub open spec fn expect_type(tokens: Seq<TokenView>, i: int) -> Parsed<NameView> {
    let token = at(tokens, i);
    match token.kind {
        TokenKindView::Type(name) => done(NameView { pos: token.pos, name }, i + 1),
        _ => fail(expected("type"@, token), i + 1),
    }
}

/// A declaration without initializer: a type and an identifier.
pub open spec fn parse_declaration(tokens: Seq<TokenView>, i: int) -> Parsed<DeclarationView> {
    let type_ = expect_type(tokens, i);
    match type_.result {
        Err(error) => fail(error, type_.next),
        Ok(kind_name) => {
            let name = expect_identifier(tokens, i + 1);
            match name.result {
                Err(error) => fail(error, name.next),
                Ok(name) => done(DeclarationView { type_: kind_name, name, init: None }, i + 2),
            }
        },
    }
}

/// The parameters of a function after `(`: declarations with commas between
/// them, one comma allowed after the last, up to and with `)`.
pub open spec fn parameter_list(
    tokens: Seq<TokenView>,
    i: int,
    params: Seq<DeclarationView>,
) -> Parsed<Seq<DeclarationView>>
    decreases tokens.len() - i,
{
    if at(tokens, i).kind == TokenKindView::RightParen {
        done(params, i + 1)
    } else {
        let decl = parse_declaration(tokens, i);
        match decl.result {
            Err(error) => fail(error, decl.next),
            Ok(param) => if at(tokens, i + 2).kind == TokenKindView::Comma {
                parameter_list(tokens, i + 3, params.push(param))
            } else {
                let close = expect(tokens, i + 2, TokenKindView::RightParen);
                match close.result {
                    Err(error) => fail(error, close.next),
                    Ok(_) => done(params.push(param), close.next),
                }
            },
        }
    }
}

/// A primary expression: a call, a variable, an expression in parentheses,
/// or a literal. `true` is the number 1 and `false` the number 0.
pub open spec fn parse_primary(tokens: Seq<TokenView>, i: int) -> Parsed<ExprView>
    decreases tokens.len() - i, 0int,
{
    let token = at(tokens, i);
    match token.kind {
        TokenKindView::Identifier(name) => {
            let name = NameView { pos: token.pos, name };
            if at(tokens, i + 1).kind == TokenKindView::LeftParen {
                let args = argument_list(tokens, i + 2, Seq::empty());
                match args.result {
                    Err(error) => fail(error, args.next),
                    Ok(args_v) => done(ExprView::Call { name, args: args_v }, args.next),
                }
            } else {
                done(ExprView::Var { name }, i + 1)
            }
        },
        TokenKindView::LeftParen => {
            let inner = parse_expr_bp(tokens, i + 1, 0);
            match inner.result {
                Err(error) => fail(error, inner.next),
                Ok(expr) => {
                    let close = expect(tokens, inner.next, TokenKindView::RightParen);
                    match close.result {
                        Err(error) => fail(error, close.next),
                        Ok(_) => done(expr, close.next),
                    }
                },
            }
        },
        TokenKindView::IntLiteral(value) => done(ExprView::Int { pos: token.pos, value }, i + 1),
        TokenKindView::CharLiteral(value) => done(ExprView::Int { pos: token.pos, value }, i + 1),
        TokenKindView::True => done(ExprView::Int { pos: token.pos, value: 1 }, i + 1),
        TokenKindView::False => done(ExprView::Int { pos: token.pos, value: 0 }, i + 1),
        _ => fail(expected("expression"@, token), i + 1),
    }
}

/// The binary operators that follow the operand `lhs` and bind at least as
/// tightly as `min_bp`, each with its right operand, nested to the left.
pub open spec fn infix_loop(tokens: Seq<TokenView>, i: int, lhs: ExprView, min_bp: u8) -> Parsed<
    ExprView,
>
    decreases tokens.len() - i, 1int,
{
    let token = at(tokens, i);
    match binary_bp(token.kind) {
        Some((kind, l_bp, r_bp)) => if l_bp < min_bp {
            done(lhs, i)
        } else {
            let rhs = parse_expr_bp(tokens, i + 1, r_bp);
            match rhs.result {
                Err(error) => fail(error, rhs.next),
                Ok(right) => if i < rhs.next <= tokens.len() {
                    infix_loop(
                        tokens,
                        rhs.next,
                        ExprView::Binary {
                            left: Box::new(lhs),
                            op: BinaryOp { pos: token.pos, kind },
                            right: Box::new(right),
                        },
                        min_bp,
                    )
                } else {
                    stuck(rhs.next)
                },
            }
        },
        None => done(lhs, i),
    }
}

/// An expression whose operators bind at least as tightly as `min_bp`.
pub open spec fn parse_expr_bp(tokens: Seq<TokenView>, i: int, min_bp: u8) -> Parsed<ExprView>
    decreases tokens.len() - i, 2int,
{
    let token = at(tokens, i);
    let lhs = match unary_bp(token.kind) {
        Some((kind, r_bp)) => {
            let operand = parse_expr_bp(tokens, i + 1, r_bp);
            match operand.result {
                Err(error) => fail(error, operand.next),
                Ok(right) => done(
                    ExprView::Unary { op: UnaryOp { pos: token.pos, kind }, right: Box::new(right) },
                    operand.next,
                ),
            }
        },
        None => parse_primary(tokens, i),
    };
    match lhs.result {
        Err(error) => fail(error, lhs.next),
        Ok(left) => if i < lhs.next <= tokens.len() {
            infix_loop(tokens, lhs.next, left, min_bp)
        } else {
            stuck(lhs.next)
        },
    }
}

/// An expression.
pub open spec fn parse_expr(tokens: Seq<TokenView>, i: int) -> Parsed<ExprView> {
    parse_expr_bp(tokens, i, 0)
}

/// The arguments of a call after `(`: expressions with commas between them,
/// one comma allowed after the last, up to and with `)`.
pub open spec fn argument_list(tokens: Seq<TokenView>, i: int, args: Seq<ExprView>) -> Parsed<
    Seq<ExprView>,
>
    decreases tokens.len() - i, 3int,
{
    if at(tokens, i).kind == TokenKindView::RightParen {
        done(args, i + 1)
    } else {
        let arg = parse_expr_bp(tokens, i, 0);
        match arg.result {
            Err(error) => fail(error, arg.next),
            Ok(expr) => if at(tokens, arg.next).kind == TokenKindView::Comma {
                if i < arg.next {
                    argument_list(tokens, arg.next + 1, args.push(expr))
                } else {
                    stuck(arg.next)
                }
            } else {
                let close = expect(tokens, arg.next, TokenKindView::RightParen);
                match close.result {
                    Err(error) => fail(error, close.next),
                    Ok(_) => done(args.push(expr), close.next),
                }
            },
        }
    }
}

/// What is wrong with the brackets of inline code read from `i` on, `depth`
/// loops being open: a `]` that closes nothing, or a `[` that is not closed.
pub open spec fn bracket_error(code: Seq<u8>, i: int, depth: nat) -> Option<Seq<char>>
    decreases code.len() - i,
{
    if !(0 <= i < code.len()) {
        if depth > 0 {
            Some("missing ']' in inline code"@)
        } else {
            None
        }
    } else if code[i] == 0x5B {
        bracket_error(code, i + 1, depth + 1)
    } else if code[i] == 0x5D {
        if depth == 0 {
            Some("unexpected ']' in inline code"@)
        } else {
            bracket_error(code, i + 1, (depth - 1) as nat)
        }
    } else {
        bracket_error(code, i + 1, depth)
    }
}

/// An expression in parentheses, as it follows `if`, `while` and `repeat`.
pub open spec fn parse_condition(tokens: Seq<TokenView>, i: int) -> Parsed<ExprView> {
    let open = expect(tokens, i, TokenKindView::LeftParen);
    match open.result {
        Err(error) => fail(error, open.next),
        Ok(_) => {
            let cond = parse_expr(tokens, i + 1);
            match cond.result {
                Err(error) => fail(error, cond.next),
                Ok(expr) => {
                    let close = expect(tokens, cond.next, TokenKindView::RightParen);
                    match close.result {
                        Err(error) => fail(error, close.next),
                        Ok(_) => done(expr, close.next),
                    }
                },
            }
        },
    }
}

/// A declaration as a statement: with an optional initializer, up to and
/// with `;`.
pub open spec fn parse_declaration_statement(tokens: Seq<TokenView>, i: int) -> Parsed<
    StatementView,
> {
    let decl = parse_declaration(tokens, i);
    match decl.result {
        Err(error) => fail(error, decl.next),
        Ok(plain) => if at(tokens, i + 2).kind == TokenKindView::Eq {
            let init = parse_expr(tokens, i + 3);
            match init.result {
                Err(error) => fail(error, init.next),
                Ok(expr) => {
                    let end = expect(tokens, init.next, TokenKindView::Semicolon);
                    match end.result {
                        Err(error) => fail(error, end.next),
                        Ok(_) => done(
                            StatementView::Declaration(
                                DeclarationView {
                                    type_: plain.type_,
                                    name: plain.name,
                                    init: Some(expr),
                                },
                            ),
                            end.next,
                        ),
                    }
                },
            }
        } else {
            let end = expect(tokens, i + 2, TokenKindView::Semicolon);
            match end.result {
                Err(error) => fail(error, end.next),
                Ok(_) => done(StatementView::Declaration(plain), end.next),
            }
        },
    }
}

/// A call or an assignment, which starts with the identifier at `i`.
pub open spec fn parse_call_or_assignment(tokens: Seq<TokenView>, i: int) -> Parsed<StatementView> {
    let first = at(tokens, i);
    let name = NameView { pos: first.pos, name: first.kind->Identifier_0 };
    if at(tokens, i + 1).kind == TokenKindView::LeftParen {
        let args = argument_list(tokens, i + 2, Seq::empty());
        match args.result {
            Err(error) => fail(error, args.next),
            Ok(args_v) => {
                let end = expect(tokens, args.next, TokenKindView::Semicolon);
                match end.result {
                    Err(error) => fail(error, end.next),
                    Ok(_) => done(StatementView::Call { name, args: args_v }, end.next),
                }
            },
        }
    } else {
        let token = at(tokens, i + 1);
        match assign_op(token.kind) {
            None => fail(expected("function call or assignment"@, token), i + 2),
            Some(kind) => {
                let value = parse_expr(tokens, i + 2);
                match value.result {
                    Err(error) => fail(error, value.next),
                    Ok(expr) => {
                        let end = expect(tokens, value.next, TokenKindView::Semicolon);
                        match end.result {
                            Err(error) => fail(error, end.next),
                            Ok(_) => done(
                                StatementView::Assign {
                                    name,
                                    op: AssignOp { pos: token.pos, kind },
                                    expr,
                                },
                                end.next,
                            ),
                        }
                    },
                }
            },
        }
    }
}

/// `return` with its expression, or `inline` with its code, at `i`.
pub open spec fn parse_return_or_inline(tokens: Seq<TokenView>, i: int) -> Parsed<StatementView> {
    let pos = at(tokens, i).pos;
    if at(tokens, i).kind == TokenKindView::Return {
        let value = parse_expr(tokens, i + 1);
        match value.result {
            Err(error) => fail(error, value.next),
            Ok(expr) => {
                let end = expect(tokens, value.next, TokenKindView::Semicolon);
                match end.result {
                    Err(error) => fail(error, end.next),
                    Ok(_) => done(StatementView::Return { pos, expr }, end.next),
                }
            },
        }
    } else {
        let token = at(tokens, i + 1);
        match token.kind {
            TokenKindView::StringLiteral(code) => {
                let end = expect(tokens, i + 2, TokenKindView::Semicolon);
                match end.result {
                    Err(error) => fail(error, end.next),
                    Ok(_) => match bracket_error(code, 0, 0) {
                        Some(message) => fail(ErrorView { pos, message }, end.next),
                        None => done(StatementView::Inline { pos, code }, end.next),
                    },
                }
            },
            _ => fail(expected("string literal"@, token), i + 2),
        }
    }
}

/// The statements of a block after `{`, up to and with `}`. A block may
/// hold declarations.
pub open spec fn block_items(tokens: Seq<TokenView>, i: int, stmts: Seq<StatementView>) -> Parsed<
    Seq<StatementView>,
>
    decreases tokens.len() - i, 6int,
{
    let kind = at(tokens, i).kind;
    if kind == TokenKindView::RightBrace || kind == TokenKindView::Eof {
        let close = expect(tokens, i, TokenKindView::RightBrace);
        match close.result {
            Err(error) => fail(error, close.next),
            Ok(_) => done(stmts, close.next),
        }
    } else {
        let stmt = parse_statement(tokens, i);
        match stmt.result {
            Err(error) => fail(error, stmt.next),
            Ok(stmt_v) => if i < stmt.next <= tokens.len() {
                block_items(tokens, stmt.next, stmts.push(stmt_v))
            } else {
                stuck(stmt.next)
            },
        }
    }
}

/// A block: statements and declarations in braces.
pub open spec fn parse_block(tokens: Seq<TokenView>, i: int) -> Parsed<Seq<StatementView>>
    decreases tokens.len() - i, 3int,
{
    let open = expect(tokens, i, TokenKindView::LeftBrace);
    match open.result {
        Err(error) => fail(error, open.next),
        Ok(_) => block_items(tokens, i + 1, Seq::empty()),
    }
}

/// A statement as it stands in a block or at the top of a program: a
/// declaration, or a statement as it may follow `if`, `while` or `repeat`.
pub open spec fn parse_statement(tokens: Seq<TokenView>, i: int) -> Parsed<StatementView>
    decreases tokens.len() - i, 5int,
{
    if at(tokens, i).kind is Type {
        parse_declaration_statement(tokens, i)
    } else {
        parse_nested_statement(tokens, i)
    }
}

/// A statement as it may follow `if`, `while` or `repeat`: anything but a
/// declaration.
pub open spec fn parse_nested_statement(tokens: Seq<TokenView>, i: int) -> Parsed<StatementView>
    decreases tokens.len() - i, 4int,
{
    let token = at(tokens, i);
    let pos = token.pos;
    match token.kind {
        TokenKindView::LeftBrace => {
            let block = parse_block(tokens, i);
            match block.result {
                Err(error) => fail(error, block.next),
                Ok(stmts) => done(StatementView::Block(stmts), block.next),
            }
        },
        TokenKindView::If => {
            let cond = parse_condition(tokens, i + 1);
            match cond.result {
                Err(error) => fail(error, cond.next),
                Ok(condition) => if !(i < cond.next <= tokens.len()) {
                    stuck(cond.next)
                } else {
                    let then = parse_nested_statement(tokens, cond.next);
                    match then.result {
                        Err(error) => fail(error, then.next),
                        Ok(then_v) => if at(tokens, then.next).kind == TokenKindView::Else {
                            if !(i < then.next) {
                                stuck(then.next)
                            } else {
                                let other = parse_nested_statement(tokens, then.next + 1);
                                match other.result {
                                    Err(error) => fail(error, other.next),
                                    Ok(else_v) => done(
                                        StatementView::If {
                                            pos,
                                            condition,
                                            then_statement: Box::new(then_v),
                                            else_statement: Some(Box::new(else_v)),
                                        },
                                        other.next,
                                    ),
                                }
                            }
                        } else {
                            done(
                                StatementView::If {
                                    pos,
                                    condition,
                                    then_statement: Box::new(then_v),
                                    else_statement: None,
                                },
                                then.next,
                            )
                        },
                    }
                },
            }
        },
        TokenKindView::While => {
            let cond = parse_condition(tokens, i + 1);
            match cond.result {
                Err(error) => fail(error, cond.next),
                Ok(condition) => if !(i < cond.next <= tokens.len()) {
                    stuck(cond.next)
                } else {
                    let body = parse_nested_statement(tokens, cond.next);
                    match body.result {
                        Err(error) => fail(error, body.next),
                        Ok(body_v) => done(
                            StatementView::While { pos, condition, statement: Box::new(body_v) },
                            body.next,
                        ),
                    }
                },
            }
        },
        TokenKindView::Repeat => {
            let count = parse_condition(tokens, i + 1);
            match count.result {
                Err(error) => fail(error, count.next),
                Ok(expr) => if !(i < count.next <= tokens.len()) {
                    stuck(count.next)
                } else {
                    let body = parse_nested_statement(tokens, count.next);
                    match body.result {
                        Err(error) => fail(error, body.next),
                        Ok(body_v) => done(
                            StatementView::Repeat { pos, expr, statement: Box::new(body_v) },
                            body.next,
                        ),
                    }
                },
            }
        },
        TokenKindView::Return => parse_return_or_inline(tokens, i),
        TokenKindView::Inline => parse_return_or_inline(tokens, i),
        TokenKindView::Identifier(_) => parse_call_or_assignment(tokens, i),
        _ => fail(expected("statement"@, token), i + 1),
    }
}

/// An item that starts with a type: a function definition, or a declaration
/// with or without initializer.
pub open spec fn parse_typed_item(tokens: Seq<TokenView>, i: int) -> Parsed<ItemView> {
    let decl = parse_declaration(tokens, i);
    match decl.result {
        Err(error) => fail(error, decl.next),
        Ok(plain) => {
            let token = at(tokens, i + 2);
            if token.kind == TokenKindView::LeftParen {
                let params = parameter_list(tokens, i + 3, Seq::empty());
                match params.result {
                    Err(error) => fail(error, params.next),
                    Ok(parameters) => {
                        let body = parse_block(tokens, params.next);
                        match body.result {
                            Err(error) => fail(error, body.next),
                            Ok(statements) => done(
                                ItemView::Function {
                                    name: plain.name,
                                    return_type: plain.type_,
                                    parameters,
                                    statements,
                                },
                                body.next,
                            ),
                        }
                    },
                }
            } else if token.kind == TokenKindView::Eq || token.kind == TokenKindView::Semicolon {
                let stmt = parse_declaration_statement(tokens, i);
                match stmt.result {
                    Err(error) => fail(error, stmt.next),
                    Ok(stmt_v) => done(ItemView::Statement(stmt_v), stmt.next),
                }
            } else {
                fail(expected("function definition or declaration"@, token), i + 3)
            }
        },
    }
}

/// An item: one that starts with a type, or a statement.
#[verifier::opaque]
pub open spec fn parse_item(tokens: Seq<TokenView>, i: int) -> Parsed<ItemView> {
    if at(tokens, i).kind is Type {
        parse_typed_item(tokens, i)
    } else {
        let stmt = parse_nested_statement(tokens, i);
        match stmt.result {
            Err(error) => fail(error, stmt.next),
            Ok(stmt_v) => done(ItemView::Statement(stmt_v), stmt.next),
        }
    }
}

/// The items of a program from `i` up to the end of file.
pub open spec fn program_items(tokens: Seq<TokenView>, i: int, items: Seq<ItemView>) -> Parsed<
    Seq<ItemView>,
>
    decreases tokens.len() - i,
{
    if at(tokens, i).kind == TokenKindView::Eof {
        done(items, i)
    } else {
        let item = parse_item(tokens, i);
        match item.result {
            Err(error) => fail(error, item.next),
            Ok(item_v) => if i < item.next <= tokens.len() {
                program_items(tokens, item.next, items.push(item_v))
            } else {
                stuck(item.next)
            },
        }
    }
}

/// The items of the program that `tokens` spell, or the first syntax error.
pub open spec fn parse_items(tokens: Seq<TokenView>) -> Result<Seq<ItemView>, ErrorView> {
    program_items(tokens, 0, Seq::empty()).result
}

} // verus!
