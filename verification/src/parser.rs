//! The parser.

pub mod grammar;
pub mod precedence;

use vstd::prelude::*;
use vstd::string::*;
use crate::ast::shape::{
    args_size, expr_size, in_block, item_shaped, item_size, items_size, lemma_args_size_push,
    lemma_items_size_push, lemma_stmts_size_push, nestable, shaped, stmt_size, stmts_size,
};
use crate::ast::{
    declaration_views, expr_views, item_views, lemma_expr_views, lemma_statement_views,
    statement_views, AssignOp, AssignOpKind, BinaryOp, BinaryOpKind, Declaration, Expr, Ident,
    Item, Program, Statement, Type, UnaryOp, UnaryOpKind,
};
use crate::parser::grammar::{at, Parsed};
use crate::token::{token_views, Token, TokenKind, TokenKindView, TokenView};
use crate::util::{CompilerError, CompilerResult, ErrorView, Position};

verus! {

/// Whether an end-of-file token stands at `i` or behind it.
pub open spec fn eof_ahead(tokens: Seq<TokenView>, i: int) -> bool
    decreases tokens.len() - i,
{
    0 <= i < tokens.len() && (tokens[i].kind == TokenKindView::Eof || eof_ahead(tokens, i + 1))
}

fn binary_bp(op: &TokenKind) -> (r: Option<(BinaryOpKind, (u8, u8))>)
    ensures
        match r {
            Some((kind, (l_bp, r_bp))) => grammar::binary_bp(op@) == Some((kind, l_bp, r_bp)),
            None => grammar::binary_bp(op@) is None,
        },
{
    match op {
        TokenKind::Plus => Some((BinaryOpKind::Plus, (9, 10))),
        TokenKind::Minus => Some((BinaryOpKind::Minus, (9, 10))),
        TokenKind::Star => Some((BinaryOpKind::Star, (11, 12))),
        TokenKind::Slash => Some((BinaryOpKind::Slash, (11, 12))),
        TokenKind::Percent => Some((BinaryOpKind::Percent, (11, 12))),
        TokenKind::EqEq => Some((BinaryOpKind::EqEq, (7, 8))),
        TokenKind::NotEq => Some((BinaryOpKind::NotEq, (7, 8))),
        TokenKind::Greater => Some((BinaryOpKind::Greater, (7, 8))),
        TokenKind::GreaterEq => Some((BinaryOpKind::GreaterEq, (7, 8))),
        TokenKind::Less => Some((BinaryOpKind::Less, (7, 8))),
        TokenKind::LessEq => Some((BinaryOpKind::LessEq, (7, 8))),
        TokenKind::And => Some((BinaryOpKind::And, (3, 4))),
        TokenKind::Or => Some((BinaryOpKind::Or, (1, 2))),
        _ => None,
    }
}

fn unary_bp(op: &TokenKind) -> (r: Option<(UnaryOpKind, u8)>)
    ensures
        r == grammar::unary_bp(op@),
{
    match op {
        TokenKind::Plus => Some((UnaryOpKind::Plus, 13)),
        TokenKind::Minus => Some((UnaryOpKind::Minus, 13)),
        TokenKind::Not => Some((UnaryOpKind::Not, 5)),
        _ => None,
    }
}

fn assign_kind(op: &TokenKind) -> (r: Option<AssignOpKind>)
    ensures
        r == grammar::assign_op(op@),
{
    match op {
        TokenKind::Eq => Some(AssignOpKind::Eq),
        TokenKind::PlusEq => Some(AssignOpKind::PlusEq),
        TokenKind::MinusEq => Some(AssignOpKind::MinusEq),
        TokenKind::StarEq => Some(AssignOpKind::StarEq),
        TokenKind::SlashEq => Some(AssignOpKind::SlashEq),
        TokenKind::PercentEq => Some(AssignOpKind::PercentEq),
        _ => None,
    }
}

/// The error for a `token` that stands where `what` was expected.
fn expected(what: &str, token: &Token) -> (error: CompilerError)
    ensures
        error@ == grammar::expected(what@, token@),
{
    let mut message = String::from_str("expected ");
    message.append(what);
    message.append(", got ");
    let got = token.kind.to_string();
    message.append(got.as_str());
    CompilerError::new(message, token.pos)
}

/// The message for brackets of inline code that do not match, if any.
fn check_brackets(code: &Vec<u8>) -> (r: Option<String>)
    ensures
        match r {
            Some(message) => grammar::bracket_error(code@, 0, 0) == Some(message@),
            None => grammar::bracket_error(code@, 0, 0) is None,
        },
{
    let mut count: usize = 0;
    let mut i: usize = 0;
    while i < code.len()
        invariant
            i <= code.len(),
            count <= i,
            grammar::bracket_error(code@, i as int, count as nat) == grammar::bracket_error(
                code@,
                0,
                0,
            ),
        decreases code.len() - i,
    {
        let c = code[i];
        if c == 0x5B {
            count = count + 1;
        } else if c == 0x5D {
            if count == 0 {
                return Some(String::from_str("unexpected ']' in inline code"));
            } else {
                count = count - 1;
            }
        }
        i = i + 1;
    }
    if count > 0 {
        Some(String::from_str("missing ']' in inline code"))
    } else {
        None
    }
}

/// The parser state: the tokens and the index of the next one.
pub struct Parser {
    tokens: Vec<Token>,
    index: usize,
}

/// `parsed` has succeeded with `value` and has led the parser from `before`
/// to `after`, past at least one token.
pub open spec fn yields<T>(parsed: Parsed<T>, before: Parser, after: Parser, value: T) -> bool {
    &&& parsed.result == Ok::<T, ErrorView>(value)
    &&& after.tokens() == before.tokens()
    &&& after.index() == parsed.next
    &&& before.index() < after.index()
    &&& after.wf()
}

/// `parsed` has failed with `error`.
pub open spec fn fails<T>(parsed: Parsed<T>, error: ErrorView) -> bool {
    parsed.result == Err::<T, ErrorView>(error)
}

impl Parser {
    /// The tokens of the parser.
    pub closed spec fn tokens(&self) -> Seq<TokenView> {
        token_views(self.tokens@)
    }

    /// The index of the next token.
    pub closed spec fn index(&self) -> int {
        self.index as int
    }

    /// The invariant of a parser: an end-of-file token lies ahead.
    pub closed spec fn wf(&self) -> bool {
        eof_ahead(token_views(self.tokens@), self.index as int)
    }

    /// Creates a new `Parser` from the tokens of a program.
    pub fn new(tokens: Vec<Token>) -> (parser: Self)
        ensures
            parser.tokens() == token_views(tokens@),
            parser.index() == 0,
            parser.wf() == eof_ahead(token_views(tokens@), 0),
    {
        Parser { tokens, index: 0 }
    }

    /// Consumes and returns the next `Token`.
    fn next(&mut self) -> (token: Token)
        requires
            old(self).wf(),
        ensures
            final(self).tokens == old(self).tokens,
            final(self).index == old(self).index + 1,
            final(self).index <= final(self).tokens.len(),
            token@ == at(old(self).tokens(), old(self).index()),
            token@.kind != TokenKindView::Eof ==> final(self).wf(),
    {
        proof {
            assert(eof_ahead(token_views(self.tokens@), self.index as int));
            assert(self.index < self.tokens.len());
        }
        let token = self.tokens[self.index].duplicate();
        self.index = self.index + 1;
        token
    }

    /// Returns the next `Token` without consuming it.
    fn peek(&self) -> (token: &Token)
        requires
            self.wf(),
        ensures
            token@ == at(self.tokens(), self.index()),
            self.index < self.tokens.len(),
    {
        &self.tokens[self.index]
    }

    /// Consumes the next token, which has to be of kind `tk`.
    fn expect(&mut self, tk: &TokenKind) -> (r: CompilerResult<Token>)
        requires
            old(self).wf(),
            tk@ != TokenKindView::Eof,
        ensures
            match r {
                Ok(token) => yields(
                    grammar::expect(old(self).tokens(), old(self).index(), tk@),
                    *old(self),
                    *final(self),
                    token@,
                ),
                Err(error) => fails(
                    grammar::expect(old(self).tokens(), old(self).index(), tk@),
                    error@,
                ),
            },
    {
        let token = self.next();
        if token.kind == *tk {
            Ok(token)
        } else {
            let what = tk.to_string();
            Err(expected(what.as_str(), &token))
        }
    }

    fn expect_identifier(&mut self) -> (r: CompilerResult<Ident>)
        requires
            old(self).wf(),
        ensures
            match r {
                Ok(name) => yields(
                    grammar::expect_identifier(old(self).tokens(), old(self).index()),
                    *old(self),
                    *final(self),
                    name@,
                ),
                Err(error) => fails(
                    grammar::expect_identifier(old(self).tokens(), old(self).index()),
                    error@,
                ),
            },
    {
        let token = self.next();
        let pos = token.pos;
        match token.kind {
            TokenKind::Identifier(name) => Ok(Ident { pos, name }),
            kind => Err(expected("identifier", &Token { kind, pos })),
        }
    }

    fn expect_type(&mut self) -> (r: CompilerResult<Type>)
        requires
            old(self).wf(),
        ensures
            match r {
                Ok(name) => yields(
                    grammar::expect_type(old(self).tokens(), old(self).index()),
                    *old(self),
                    *final(self),
                    name@,
                ),
                Err(error) => fails(
                    grammar::expect_type(old(self).tokens(), old(self).index()),
                    error@,
                ),
            },
    {
        let token = self.next();
        let pos = token.pos;
        match token.kind {
            TokenKind::Type(name) => Ok(Type { pos, name }),
            kind => Err(expected("type", &Token { kind, pos })),
        }
    }

    /// Consumes the next token if it is of kind `tk`.
    fn optional(&mut self, tk: &TokenKind) -> (r: bool)
        requires
            old(self).wf(),
            tk@ != TokenKindView::Eof,
        ensures
            final(self).tokens == old(self).tokens,
            final(self).wf(),
            r == (at(old(self).tokens(), old(self).index()).kind == tk@),
            final(self).index == if r {
                old(self).index + 1
            } else {
                old(self).index as int
            },
    {
        if self.peek().kind == *tk {
            self.next();
            true
        } else {
            false
        }
    }

    /// Parses a declaration without initializer: a type and an identifier.
    pub fn parse_declaration(&mut self) -> (r: CompilerResult<Declaration>)
        requires
            old(self).wf(),
        ensures
            match r {
                Ok(decl) => yields(
                    grammar::parse_declaration(old(self).tokens(), old(self).index()),
                    *old(self),
                    *final(self),
                    decl@,
                ),
                Err(error) => fails(
                    grammar::parse_declaration(old(self).tokens(), old(self).index()),
                    error@,
                ),
            },
    {
        let type_ = match self.expect_type() {
            Ok(type_) => type_,
            Err(error) => {
                return Err(error);
            },
        };
        let name = match self.expect_identifier() {
            Ok(name) => name,
            Err(error) => {
                return Err(error);
            },
        };
        Ok(Declaration { type_, name, init: None })
    }

    /// Parses the parameters of a function, the `(` before which has been
    /// consumed, up to and with `)`.
    fn parse_parameters(&mut self) -> (r: CompilerResult<Vec<Declaration>>)
        requires
            old(self).wf(),
        ensures
            match r {
                Ok(params) => params.len() <= final(self).index() - old(self).index() && yields(
                    grammar::parameter_list(old(self).tokens(), old(self).index(), Seq::empty()),
                    *old(self),
                    *final(self),
                    declaration_views(params@),
                ),
                Err(error) => fails(
                    grammar::parameter_list(old(self).tokens(), old(self).index(), Seq::empty()),
                    error@,
                ),
            },
    {
        let mut elems: Vec<Declaration> = Vec::new();
        proof {
            assert(declaration_views(elems@) =~= Seq::empty());
        }
        loop
            invariant
                self.wf(),
                self.tokens() == old(self).tokens(),
                old(self).index <= self.index,
                elems.len() <= self.index - old(self).index,
                grammar::parameter_list(self.tokens(), self.index(), declaration_views(elems@))
                    == grammar::parameter_list(
                    old(self).tokens(),
                    old(self).index(),
                    Seq::empty(),
                ),
            decreases self.tokens().len() - self.index(),
        {
            if matches!(self.peek().kind, TokenKind::RightParen) {
                self.next();
                return Ok(elems);
            }
            let ghost before = declaration_views(elems@);
            match self.parse_declaration() {
                Ok(decl) => {
                    elems.push(decl);
                    proof {
                        assert(declaration_views(elems@) =~= before.push(decl@));
                    }
                },
                Err(error) => {
                    return Err(error);
                },
            }
            if !self.optional(&TokenKind::Comma) {
                match self.expect(&TokenKind::RightParen) {
                    Ok(_) => {
                        return Ok(elems);
                    },
                    Err(error) => {
                        return Err(error);
                    },
                }
            }
        }
    }

    /// Parses the arguments of a call, the `(` before which has been
    /// consumed, up to and with `)`.
    fn parse_list(&mut self) -> (r: CompilerResult<Vec<Expr>>)
        requires
            old(self).wf(),
        ensures
            match r {
                Ok(args) => args_size(expr_views(args@), 0) <= final(self).index() - old(self).index() && yields(
                    grammar::argument_list(old(self).tokens(), old(self).index(), Seq::empty()),
                    *old(self),
                    *final(self),
                    expr_views(args@),
                ),
                Err(error) => fails(
                    grammar::argument_list(old(self).tokens(), old(self).index(), Seq::empty()),
                    error@,
                ),
            },
        decreases old(self).tokens().len() - old(self).index(), 3int,
    {
        let mut elems: Vec<Expr> = Vec::new();
        loop
            invariant
                self.wf(),
                self.tokens() == old(self).tokens(),
                old(self).index <= self.index,
                args_size(expr_views(elems@), 0) <= self.index - old(self).index,
                grammar::argument_list(self.tokens(), self.index(), expr_views(elems@))
                    == grammar::argument_list(
                    old(self).tokens(),
                    old(self).index(),
                    Seq::empty(),
                ),
            decreases self.tokens().len() - self.index(),
        {
            if matches!(self.peek().kind, TokenKind::RightParen) {
                self.next();
                return Ok(elems);
            }
            match self.parse_expr_bp(0) {
                Ok(expr) => {
                    proof {
                        assert(elems@.push(expr).drop_last() =~= elems@);
                        lemma_expr_views(elems@);
                        lemma_args_size_push(expr_views(elems@), expr@, 0);
                    }
                    elems.push(expr);
                },
                Err(error) => {
                    return Err(error);
                },
            }
            if !self.optional(&TokenKind::Comma) {
                match self.expect(&TokenKind::RightParen) {
                    Ok(_) => {
                        return Ok(elems);
                    },
                    Err(error) => {
                        return Err(error);
                    },
                }
            }
        }
    }

    /// Parses an expression.
    pub fn parse_expr(&mut self) -> (r: CompilerResult<Expr>)
        requires
            old(self).wf(),
        ensures
            match r {
                Ok(expr) => expr_size(expr@) <= final(self).index() - old(self).index() && yields(
                    grammar::parse_expr(old(self).tokens(), old(self).index()),
                    *old(self),
                    *final(self),
                    expr@,
                ),
                Err(error) => fails(
                    grammar::parse_expr(old(self).tokens(), old(self).index()),
                    error@,
                ),
            },
    {
        self.parse_expr_bp(0)
    }

    /// Parses an expression whose operators bind at least as tightly as
    /// `min_bp`.
    fn parse_expr_bp(&mut self, min_bp: u8) -> (r: CompilerResult<Expr>)
        requires
            old(self).wf(),
        ensures
            match r {
                Ok(expr) => expr_size(expr@) <= final(self).index() - old(self).index() && yields(
                    grammar::parse_expr_bp(old(self).tokens(), old(self).index(), min_bp),
                    *old(self),
                    *final(self),
                    expr@,
                ),
                Err(error) => fails(
                    grammar::parse_expr_bp(old(self).tokens(), old(self).index(), min_bp),
                    error@,
                ),
            },
        decreases old(self).tokens().len() - old(self).index(), 2int,
    {
        // prefix operators
        let mut lhs = match unary_bp(&self.peek().kind) {
            Some((kind, r_bp)) => {
                let token = self.next();
                match self.parse_expr_bp(r_bp) {
                    Ok(expr) => Expr::Unary {
                        op: UnaryOp { pos: token.pos, kind },
                        right: Box::new(expr),
                    },
                    Err(error) => {
                        return Err(error);
                    },
                }
            },
            None => match self.parse_primary() {
                Ok(expr) => expr,
                Err(error) => {
                    return Err(error);
                },
            },
        };
        // infix operators
        loop
            invariant
                self.wf(),
                self.tokens() == old(self).tokens(),
                old(self).index < self.index,
                expr_size(lhs@) <= self.index - old(self).index,
                grammar::infix_loop(self.tokens(), self.index(), lhs@, min_bp)
                    == grammar::parse_expr_bp(old(self).tokens(), old(self).index(), min_bp),
            decreases self.tokens().len() - self.index(),
        {
            match binary_bp(&self.peek().kind) {
                Some((kind, (l_bp, r_bp))) => {
                    if l_bp < min_bp {
                        return Ok(lhs);
                    }
                    let op_token = self.next();
                    match self.parse_expr_bp(r_bp) {
                        Ok(rhs) => {
                            lhs = Expr::Binary {
                                left: Box::new(lhs),
                                op: BinaryOp { pos: op_token.pos, kind },
                                right: Box::new(rhs),
                            };
                        },
                        Err(error) => {
                            return Err(error);
                        },
                    }
                },
                None => {
                    return Ok(lhs);
                },
            }
        }
    }

    /// Parses a primary expression.
    fn parse_primary(&mut self) -> (r: CompilerResult<Expr>)
        requires
            old(self).wf(),
        ensures
            match r {
                Ok(expr) => expr_size(expr@) <= final(self).index() - old(self).index() && yields(
                    grammar::parse_primary(old(self).tokens(), old(self).index()),
                    *old(self),
                    *final(self),
                    expr@,
                ),
                Err(error) => fails(
                    grammar::parse_primary(old(self).tokens(), old(self).index()),
                    error@,
                ),
            },
        decreases old(self).tokens().len() - old(self).index(), 0int,
    {
        let token = self.next();
        let pos = token.pos;
        match token.kind {
            TokenKind::Identifier(name) => {
                let name = Ident { pos, name };
                if self.optional(&TokenKind::LeftParen) {
                    // function call
                    match self.parse_list() {
                        Ok(args) => Ok(Expr::Call { name, args }),
                        Err(error) => Err(error),
                    }
                } else {
                    // variable
                    Ok(Expr::Var { name })
                }
            },
            TokenKind::LeftParen => {
                let expr = match self.parse_expr_bp(0) {
                    Ok(expr) => expr,
                    Err(error) => {
                        return Err(error);
                    },
                };
                match self.expect(&TokenKind::RightParen) {
                    Ok(_) => Ok(expr),
                    Err(error) => Err(error),
                }
            },
            TokenKind::IntLiteral(value) => Ok(Expr::Int { pos, value }),
            TokenKind::CharLiteral(value) => Ok(Expr::Int { pos, value }),
            TokenKind::True => Ok(Expr::Int { pos, value: 1 }),
            TokenKind::False => Ok(Expr::Int { pos, value: 0 }),
            kind => Err(expected("expression", &Token { kind, pos })),
        }
    }

    /// Parses an expression in parentheses.
    fn parse_condition(&mut self) -> (r: CompilerResult<Expr>)
        requires
            old(self).wf(),
        ensures
            match r {
                Ok(expr) => expr_size(expr@) + 2 <= final(self).index() - old(self).index() && yields(
                    grammar::parse_condition(old(self).tokens(), old(self).index()),
                    *old(self),
                    *final(self),
                    expr@,
                ),
                Err(error) => fails(
                    grammar::parse_condition(old(self).tokens(), old(self).index()),
                    error@,
                ),
            },
    {
        match self.expect(&TokenKind::LeftParen) {
            Ok(_) => {},
            Err(error) => {
                return Err(error);
            },
        }
        let expr = match self.parse_expr() {
            Ok(expr) => expr,
            Err(error) => {
                return Err(error);
            },
        };
        match self.expect(&TokenKind::RightParen) {
            Ok(_) => Ok(expr),
            Err(error) => Err(error),
        }
    }

    /// Parses what follows the type and the name of the declaration `decl`:
    /// an optional initializer and `;`.
    fn finish_declaration(&mut self, decl: Declaration) -> (r: CompilerResult<Statement>)
        requires
            old(self).wf(),
            old(self).index() >= 2,
            grammar::parse_declaration(old(self).tokens(), old(self).index() - 2).result == Ok::<
                crate::ast::DeclarationView,
                ErrorView,
            >(decl@),
        ensures
            match r {
                Ok(stmt) => stmt@ is Declaration && stmt_size(stmt@) <= final(self).index() - old(self).index() + 2 && yields(
                    grammar::parse_declaration_statement(
                        old(self).tokens(),
                        old(self).index() - 2,
                    ),
                    *old(self),
                    *final(self),
                    stmt@,
                ),
                Err(error) => fails(
                    grammar::parse_declaration_statement(
                        old(self).tokens(),
                        old(self).index() - 2,
                    ),
                    error@,
                ),
            },
    {
        let mut decl = decl;
        if self.optional(&TokenKind::Eq) {
            match self.parse_expr() {
                Ok(expr) => {
                    decl.init = Some(expr);
                },
                Err(error) => {
                    return Err(error);
                },
            }
        }
        match self.expect(&TokenKind::Semicolon) {
            Ok(_) => Ok(Statement::Declaration(decl)),
            Err(error) => Err(error),
        }
    }

    /// Parses a block: statements and declarations in braces.
    fn parse_block(&mut self) -> (r: CompilerResult<Vec<Statement>>)
        requires
            old(self).wf(),
        ensures
            match r {
                Ok(stmts) => stmts_size(statement_views(stmts@), 0) + 1 <= final(self).index() - old(self).index() && (forall|k: int|
                    0 <= k < statement_views(stmts@).len() ==> in_block(
                        #[trigger] statement_views(stmts@)[k],
                    )) && yields(
                    grammar::parse_block(old(self).tokens(), old(self).index()),
                    *old(self),
                    *final(self),
                    statement_views(stmts@),
                ),
                Err(error) => fails(
                    grammar::parse_block(old(self).tokens(), old(self).index()),
                    error@,
                ),
            },
        decreases old(self).tokens().len() - old(self).index(), 3int,
    {
        match self.expect(&TokenKind::LeftBrace) {
            Ok(_) => {},
            Err(error) => {
                return Err(error);
            },
        }
        let mut statements: Vec<Statement> = Vec::new();
        loop
            invariant
                self.wf(),
                self.tokens() == old(self).tokens(),
                old(self).index < self.index,
                stmts_size(statement_views(statements@), 0) + 1 <= self.index - old(self).index,
                forall|k: int|
                    0 <= k < statement_views(statements@).len() ==> in_block(
                        #[trigger] statement_views(statements@)[k],
                    ),
                grammar::block_items(self.tokens(), self.index(), statement_views(statements@))
                    == grammar::parse_block(old(self).tokens(), old(self).index()),
            decreases self.tokens().len() - self.index(),
        {
            if matches!(self.peek().kind, TokenKind::RightBrace | TokenKind::Eof) {
                match self.expect(&TokenKind::RightBrace) {
                    Ok(_) => {
                        return Ok(statements);
                    },
                    Err(error) => {
                        return Err(error);
                    },
                }
            }
            match self.parse_statement() {
                Ok(stmt) => {
                    proof {
                        assert(statements@.push(stmt).drop_last() =~= statements@);
                        lemma_statement_views(statements@);
                        lemma_statement_views(statements@.push(stmt));
                        lemma_stmts_size_push(statement_views(statements@), stmt@, 0);
                    }
                    statements.push(stmt);
                },
                Err(error) => {
                    return Err(error);
                },
            }
        }
    }

    /// Parses a statement as it stands in a block or at the top of a program:
    /// a declaration, or a statement as it may follow `if`, `while` or
    /// `repeat`.
    pub fn parse_statement(&mut self) -> (r: CompilerResult<Statement>)
        requires
            old(self).wf(),
        ensures
            match r {
                Ok(stmt) => in_block(stmt@) && stmt_size(stmt@) <= final(self).index() - old(self).index() && yields(
                    grammar::parse_statement(old(self).tokens(), old(self).index()),
                    *old(self),
                    *final(self),
                    stmt@,
                ),
                Err(error) => fails(
                    grammar::parse_statement(old(self).tokens(), old(self).index()),
                    error@,
                ),
            },
        decreases old(self).tokens().len() - old(self).index(), 6int,
    {
        if matches!(self.peek().kind, TokenKind::Type(_)) {
            match self.parse_declaration() {
                Ok(decl) => self.finish_declaration(decl),
                Err(error) => Err(error),
            }
        } else {
            self.parse_nested_statement()
        }
    }

    /// Parses a call or an assignment, which starts with an identifier.
    fn parse_call_or_assignment(&mut self) -> (r: CompilerResult<Statement>)
        requires
            old(self).wf(),
            at(old(self).tokens(), old(self).index()).kind is Identifier,
        ensures
            match r {
                Ok(stmt) => nestable(stmt@) && stmt_size(stmt@) <= final(self).index() - old(self).index() && yields(
                    grammar::parse_call_or_assignment(old(self).tokens(), old(self).index()),
                    *old(self),
                    *final(self),
                    stmt@,
                ),
                Err(error) => fails(
                    grammar::parse_call_or_assignment(old(self).tokens(), old(self).index()),
                    error@,
                ),
            },
    {
        let name = match self.expect_identifier() {
            Ok(name) => name,
            Err(error) => {
                return Err(error);
            },
        };
        if self.optional(&TokenKind::LeftParen) {
            // function call
            let args = match self.parse_list() {
                Ok(args) => args,
                Err(error) => {
                    return Err(error);
                },
            };
            match self.expect(&TokenKind::Semicolon) {
                Ok(_) => Ok(Statement::Call { name, args }),
                Err(error) => Err(error),
            }
        } else {
            // assignment
            let token = self.next();
            let pos = token.pos;
            let kind = match assign_kind(&token.kind) {
                Some(kind) => kind,
                None => {
                    return Err(expected("function call or assignment", &token));
                },
            };
            let op = AssignOp { pos, kind };
            let expr = match self.parse_expr() {
                Ok(expr) => expr,
                Err(error) => {
                    return Err(error);
                },
            };
            match self.expect(&TokenKind::Semicolon) {
                Ok(_) => Ok(Statement::Assign { name, op, expr }),
                Err(error) => Err(error),
            }
        }
    }

    /// Parses `return` with its expression or `inline` with its code.
    fn parse_return_or_inline(&mut self) -> (r: CompilerResult<Statement>)
        requires
            old(self).wf(),
            at(old(self).tokens(), old(self).index()).kind == TokenKindView::Return || at(
                old(self).tokens(),
                old(self).index(),
            ).kind == TokenKindView::Inline,
        ensures
            match r {
                Ok(stmt) => nestable(stmt@) && stmt_size(stmt@) <= final(self).index() - old(self).index() && yields(
                    grammar::parse_return_or_inline(old(self).tokens(), old(self).index()),
                    *old(self),
                    *final(self),
                    stmt@,
                ),
                Err(error) => fails(
                    grammar::parse_return_or_inline(old(self).tokens(), old(self).index()),
                    error@,
                ),
            },
    {
        let first = self.next();
        let pos = first.pos;
        if matches!(first.kind, TokenKind::Return) {
            let expr = match self.parse_expr() {
                Ok(expr) => expr,
                Err(error) => {
                    return Err(error);
                },
            };
            match self.expect(&TokenKind::Semicolon) {
                Ok(_) => Ok(Statement::Return { pos, expr }),
                Err(error) => Err(error),
            }
        } else {
            let token = self.next();
            let token_pos = token.pos;
            match token.kind {
                TokenKind::StringLiteral(code) => {
                    match self.expect(&TokenKind::Semicolon) {
                        Ok(_) => {},
                        Err(error) => {
                            return Err(error);
                        },
                    }
                    // check if `code` is valid brainfuck
                    match check_brackets(&code) {
                        Some(message) => Err(CompilerError::new(message, pos)),
                        None => Ok(Statement::Inline { pos, code }),
                    }
                },
                kind => Err(expected("string literal", &Token { kind, pos: token_pos })),
            }
        }
    }

    /// Parses an `if` statement, with or without `else`.
    fn parse_if(&mut self) -> (r: CompilerResult<Statement>)
        requires
            old(self).wf(),
            at(old(self).tokens(), old(self).index()).kind == TokenKindView::If,
        ensures
            match r {
                Ok(stmt) => nestable(stmt@) && stmt_size(stmt@) <= final(self).index() - old(
                    self,
                ).index() && yields(
                    grammar::parse_nested_statement(old(self).tokens(), old(self).index()),
                    *old(self),
                    *final(self),
                    stmt@,
                ),
                Err(error) => fails(
                    grammar::parse_nested_statement(old(self).tokens(), old(self).index()),
                    error@,
                ),
            },
        decreases old(self).tokens().len() - old(self).index(), 4int,
    {
        let pos = self.peek().pos;
        self.next();
        let condition = match self.parse_condition() {
            Ok(expr) => expr,
            Err(error) => {
                return Err(error);
            },
        };
        let then_statement = match self.parse_nested_statement() {
            Ok(stmt) => Box::new(stmt),
            Err(error) => {
                return Err(error);
            },
        };
        let else_statement = if self.optional(&TokenKind::Else) {
            match self.parse_nested_statement() {
                Ok(stmt) => Some(Box::new(stmt)),
                Err(error) => {
                    return Err(error);
                },
            }
        } else {
            None
        };
        Ok(Statement::If { pos, condition, then_statement, else_statement })
    }

    /// Parses a `while` or a `repeat` statement.
    fn parse_loop(&mut self) -> (r: CompilerResult<Statement>)
        requires
            old(self).wf(),
            at(old(self).tokens(), old(self).index()).kind == TokenKindView::While || at(
                old(self).tokens(),
                old(self).index(),
            ).kind == TokenKindView::Repeat,
        ensures
            match r {
                Ok(stmt) => nestable(stmt@) && stmt_size(stmt@) <= final(self).index() - old(
                    self,
                ).index() && yields(
                    grammar::parse_nested_statement(old(self).tokens(), old(self).index()),
                    *old(self),
                    *final(self),
                    stmt@,
                ),
                Err(error) => fails(
                    grammar::parse_nested_statement(old(self).tokens(), old(self).index()),
                    error@,
                ),
            },
        decreases old(self).tokens().len() - old(self).index(), 4int,
    {
        let first = self.next();
        let pos = first.pos;
        let expr = match self.parse_condition() {
            Ok(expr) => expr,
            Err(error) => {
                return Err(error);
            },
        };
        let statement = match self.parse_nested_statement() {
            Ok(stmt) => Box::new(stmt),
            Err(error) => {
                return Err(error);
            },
        };
        if matches!(first.kind, TokenKind::While) {
            Ok(Statement::While { pos, condition: expr, statement })
        } else {
            Ok(Statement::Repeat { pos, expr, statement })
        }
    }

    /// Parses a statement as it may follow `if`, `while` or `repeat`:
    /// anything but a declaration.
    fn parse_nested_statement(&mut self) -> (r: CompilerResult<Statement>)
        requires
            old(self).wf(),
        ensures
            match r {
                Ok(stmt) => nestable(stmt@) && stmt_size(stmt@) <= final(self).index() - old(
                    self,
                ).index() && yields(
                    grammar::parse_nested_statement(old(self).tokens(), old(self).index()),
                    *old(self),
                    *final(self),
                    stmt@,
                ),
                Err(error) => fails(
                    grammar::parse_nested_statement(old(self).tokens(), old(self).index()),
                    error@,
                ),
            },
        decreases old(self).tokens().len() - old(self).index(), 5int,
    {
        if matches!(self.peek().kind, TokenKind::LeftBrace) {
            match self.parse_block() {
                Ok(stmts) => Ok(Statement::Block(stmts)),
                Err(error) => Err(error),
            }
        } else if matches!(self.peek().kind, TokenKind::If) {
            self.parse_if()
        } else if matches!(self.peek().kind, TokenKind::While | TokenKind::Repeat) {
            self.parse_loop()
        } else if matches!(self.peek().kind, TokenKind::Return | TokenKind::Inline) {
            self.parse_return_or_inline()
        } else if matches!(self.peek().kind, TokenKind::Identifier(_)) {
            self.parse_call_or_assignment()
        } else {
            let token = self.next();
            Err(expected("statement", &token))
        }
    }

    /// Parses an item that starts with a type: a function definition, or a
    /// declaration with or without initializer.
    fn parse_typed_item(&mut self) -> (r: CompilerResult<Item>)
        requires
            old(self).wf(),
        ensures
            match r {
                Ok(item) => item_shaped(item@) && item_size(item@) <= final(self).index() - old(self).index() && yields(
                    grammar::parse_typed_item(old(self).tokens(), old(self).index()),
                    *old(self),
                    *final(self),
                    item@,
                ),
                Err(error) => fails(
                    grammar::parse_typed_item(old(self).tokens(), old(self).index()),
                    error@,
                ),
            },
    {
        let decl = match self.parse_declaration() {
            Ok(decl) => decl,
            Err(error) => {
                return Err(error);
            },
        };
        if matches!(self.peek().kind, TokenKind::LeftParen) {
            // function definition
            self.next();
            let parameters = match self.parse_parameters() {
                Ok(parameters) => parameters,
                Err(error) => {
                    return Err(error);
                },
            };
            let statements = match self.parse_block() {
                Ok(statements) => statements,
                Err(error) => {
                    return Err(error);
                },
            };
            Ok(Item::Function { name: decl.name, return_type: decl.type_, parameters, statements })
        } else if matches!(self.peek().kind, TokenKind::Eq | TokenKind::Semicolon) {
            match self.finish_declaration(decl) {
                Ok(stmt) => Ok(Item::Statement(stmt)),
                Err(error) => Err(error),
            }
        } else {
            let token = self.next();
            Err(expected("function definition or declaration", &token))
        }
    }

    /// Parses an item: a function definition, a declaration or a statement.
    fn parse_item(&mut self) -> (r: CompilerResult<Item>)
        requires
            old(self).wf(),
        ensures
            match r {
                Ok(item) => item_shaped(item@) && item_size(item@) <= final(self).index() - old(self).index() && yields(
                    grammar::parse_item(old(self).tokens(), old(self).index()),
                    *old(self),
                    *final(self),
                    item@,
                ),
                Err(error) => fails(
                    grammar::parse_item(old(self).tokens(), old(self).index()),
                    error@,
                ),
            },
    {
        reveal(grammar::parse_item);
        if matches!(self.peek().kind, TokenKind::Type(_)) {
            self.parse_typed_item()
        } else {
            match self.parse_nested_statement() {
                Ok(stmt) => Ok(Item::Statement(stmt)),
                Err(error) => Err(error),
            }
        }
    }

    /// Parses the items of a program up to the end of file, and names the
    /// program `name`.
    pub fn parse_program(&mut self, name: &str) -> (r: CompilerResult<Program>)
        requires
            old(self).wf(),
        ensures
            match r {
                Ok(program) => {
                    &&& final(self).tokens() == old(self).tokens()
                    &&& program@.well_formed()
                    &&& program@.name == name@
                    &&& grammar::program_items(
                        old(self).tokens(),
                        old(self).index(),
                        Seq::empty(),
                    ).result == Ok::<Seq<crate::ast::ItemView>, ErrorView>(program@.items)
                    &&& final(self).wf()
                },
                Err(error) => fails(
                    grammar::program_items(old(self).tokens(), old(self).index(), Seq::empty()),
                    error@,
                ),
            },
    {
        let mut items: Vec<Item> = Vec::new();
        proof {
            assert(item_views(items@) =~= Seq::empty());
        }
        loop
            invariant
                self.wf(),
                self.tokens() == old(self).tokens(),
                old(self).index <= self.index,
                shaped(item_views(items@)),
                items_size(item_views(items@), 0) <= self.index - old(self).index,
                grammar::program_items(self.tokens(), self.index(), item_views(items@))
                    == grammar::program_items(old(self).tokens(), old(self).index(), Seq::empty()),
            decreases self.tokens().len() - self.index(),
        {
            let ghost before = item_views(items@);
            if matches!(self.peek().kind, TokenKind::Eof) {
                return Ok(Program { name: String::from_str(name), items });
            }
            let parsed = self.parse_item();
            match parsed {
                Ok(item) => {
                    items.push(item);
                    proof {
                        assert(item_views(items@) =~= before.push(item@));
                        lemma_items_size_push(before, item@, 0);
                    }
                },
                Err(error) => {
                    return Err(error);
                },
            }
        }
    }
}

/// Parses the program that `tokens` spell, and names it `program_name`.
pub fn parse_program(tokens: Vec<Token>, program_name: &str) -> (r: CompilerResult<Program>)
    requires
        eof_ahead(token_views(tokens@), 0),
    ensures
        match r {
            Ok(program) => {
                &&& program@.well_formed()
                &&& program@.name == program_name@
                &&& grammar::parse_items(token_views(tokens@)) == Ok::<
                    Seq<crate::ast::ItemView>,
                    ErrorView,
                >(program@.items)
            },
            Err(error) => grammar::parse_items(token_views(tokens@)) == Err::<
                Seq<crate::ast::ItemView>,
                ErrorView,
            >(error@),
        },
{
    let mut parser = Parser::new(tokens);
    parser.parse_program(program_name)
}

} // verus!
