//! A compiler from a small C-like language to Brainfuck, with a Brainfuck
//! interpreter.

pub mod ast;
pub mod brainfuck;
pub mod code_gen;
pub mod lexer;
pub mod parser;
pub mod token;
pub mod util;

use vstd::prelude::*;
use vstd::string::*;
use crate::code_gen::rules::{Compiled, Table};
use crate::code_gen::{compiled_view, generate_code, table_view, Program};
use crate::lexer::tokenize;
use crate::parser::parse_program;
use crate::util::{CompilerError, CompilerResult, ErrorView, Position};

verus! {

/// The standard library: it is compiled before a program, which can call its
/// functions.
pub const STD: &'static str =
    "# The standard library.

# Writes the character `c`.
void put_char(int c) {
    inline \"<.>\";
}

# Reads a character. At the end of the input it is 255.
int get_char() {
    int c;
    inline \"<,>\";
    return c;
}

# Writes `n` as a decimal number.
void put_int(int n) {
    if (n >= 100) {
        put_char('0' + n / 100);
    }
    if (n >= 10) {
        put_char('0' + n / 10 % 10);
    }
    put_char('0' + n % 10);
}

# Writes `n` as a decimal number and ends the line.
void println(int n) {
    put_int(n);
    put_char('\\n');
}
";

/// Options passed to [`compile`].
#[derive(Clone, Copy, Debug, Default)]
pub struct CompilerOptions {
    /// Print debug output.
    pub debug: bool,
    /// Optimize the generated code.
    pub optimize: bool,
    /// Run the program.
    pub run: bool,
    /// Compile without the standard library.
    pub no_std: bool,
}

/// What the program `source` compiles to where it can call the functions of
/// `std`: the first error of the lexer, of the parser or of the generator,
/// or the functions and the code, optimized where `optimize` is set.
pub open spec fn compiled_from(source: Seq<char>, std: Table, optimize: bool) -> Result<
    Compiled,
    ErrorView,
> {
    match lexer::rules::tokens_of(source) {
        Err(error) => Err(error),
        Ok(tokens) => match parser::grammar::parse_items(tokens) {
            Err(error) => Err(error),
            Ok(items) => match code_gen::rules::compile(items, std) {
                Err(error) => Err(error),
                Ok(compiled) => Ok(
                    if optimize {
                        code_gen::rules::optimized_program(compiled)
                    } else {
                        compiled
                    },
                ),
            },
        },
    }
}

/// Whether every piece of inline code of the program `source` has matching
/// brackets and, outside of its loops, moves the head as often to the left
/// as to the right.
pub open spec fn inline_balanced(source: Seq<char>) -> bool {
    match lexer::rules::tokens_of(source) {
        Err(_) => true,
        Ok(tokens) => match parser::grammar::parse_items(tokens) {
            Err(_) => true,
            Ok(items) => code_gen::balance::inlines_pass(items),
        },
    }
}

/// Whether every piece of inline code of the program `source` is balanced
/// and holds: wherever a run of it ends, it has left the head where it found
/// it, and the cells left of the variables that it can see as they were.
pub open spec fn inline_sound(source: Seq<char>) -> bool {
    match lexer::rules::tokens_of(source) {
        Err(_) => true,
        Ok(tokens) => match parser::grammar::parse_items(tokens) {
            Err(_) => true,
            Ok(items) => code_gen::balance::inlines_pass(items) && code_gen::frames::items_within(
                items,
                0,
                0,
            ),
        },
    }
}

/// Parses `input` to the syntax tree of a program named `name`: the tokens
/// of the lexer go to the parser.
pub fn parse_source(input: &str, name: &str) -> (r: CompilerResult<ast::Program>)
    ensures
        match r {
            Ok(program) => {
                &&& program@.name == name@
                &&& program@.well_formed()
                &&& lexer::rules::tokens_of(input@) is Ok
                &&& parser::grammar::parse_items(lexer::rules::tokens_of(input@)->Ok_0) == Ok::<
                    Seq<ast::ItemView>,
                    ErrorView,
                >(program@.items)
            },
            Err(error) => match lexer::rules::tokens_of(input@) {
                Err(first) => error@ == first,
                Ok(tokens) => parser::grammar::parse_items(tokens) == Err::<
                    Seq<ast::ItemView>,
                    ErrorView,
                >(error@),
            },
        },
{
    let tokens = match tokenize(input) {
        Ok(tokens) => tokens,
        Err(error) => {
            return Err(error);
        },
    };
    proof {
        let views = token::token_views(tokens@);
        assert(views[views.len() - 1].kind == token::TokenKindView::Eof);
        lemma_eof_ahead(views, 0);
    }
    parse_program(tokens, name)
}

/// Compiles `input` to a [`Program`] named `name`, which can call the
/// functions of `std`.
pub fn compile_source(input: &str, name: &str, std: Option<Program>, optimize: bool) -> (r:
    CompilerResult<Program>)
    ensures
        r is Ok && code_gen::rules::distinct(code_gen::std_table(std))
            ==> code_gen::rules::distinct(table_view(r->Ok_0.functions@)),
        r is Ok && inline_balanced(input@) && code_gen::balance::table_passes(
            code_gen::std_table(std),
        ) ==> code_gen::balanced(r->Ok_0),
        r is Ok && inline_sound(input@) && code_gen::balance::table_passes(
            code_gen::std_table(std),
        ) && code_gen::discipline::table_proper(code_gen::std_table(std))
            ==> code_gen::disciplined(r->Ok_0),
        match r {
            Ok(program) => program.name@ == name@ && compiled_from(
                input@,
                code_gen::std_table(std),
                optimize,
            ) == Ok::<Compiled, ErrorView>(compiled_view(program)),
            Err(error) => compiled_from(input@, code_gen::std_table(std), optimize) == Err::<
                Compiled,
                ErrorView,
            >(error@),
        },
{
    let ast = match parse_source(input, name) {
        Ok(ast) => ast,
        Err(error) => {
            return Err(error);
        },
    };
    generate_code(ast, std, optimize)
}

/// An end-of-file token at the end of `tokens` lies ahead of every index.
pub proof fn lemma_eof_ahead(tokens: Seq<token::TokenView>, i: int)
    requires
        0 <= i < tokens.len(),
        tokens[tokens.len() - 1].kind == token::TokenKindView::Eof,
    ensures
        parser::eof_ahead(tokens, i),
    decreases tokens.len() - i,
{
    if i < tokens.len() - 1 {
        lemma_eof_ahead(tokens, i + 1);
    }
}

/// The functions that a program compiled with `no_std` can call: none, or
/// those of the standard library; or the error in the standard library.
pub open spec fn std_functions(no_std: bool) -> Result<Table, ErrorView> {
    if no_std {
        Ok(Seq::empty())
    } else {
        match compiled_from(STD@, Seq::empty(), false) {
            Ok(compiled) => Ok(compiled.functions),
            Err(error) => Err(error),
        }
    }
}

/// What the program with the items `items` compiles to under the options
/// `options`: the error in the standard library, if there is one, or the
/// first error of the generator, or the functions and the code.
pub open spec fn compiled_items(items: Seq<ast::ItemView>, options: CompilerOptions) -> Result<
    Compiled,
    ErrorView,
> {
    match std_functions(options.no_std) {
        Err(error) => Err(error),
        Ok(table) => match code_gen::rules::compile(items, table) {
            Err(error) => Err(error),
            Ok(compiled) => Ok(
                if options.optimize {
                    code_gen::rules::optimized_program(compiled)
                } else {
                    compiled
                },
            ),
        },
    }
}

/// What the program `source` compiles to under the options `options`: the
/// first error of the lexer or of the parser, or what its items compile to.
pub open spec fn compiled(source: Seq<char>, options: CompilerOptions) -> Result<
    Compiled,
    ErrorView,
> {
    match lexer::rules::tokens_of(source) {
        Err(error) => Err(error),
        Ok(tokens) => match parser::grammar::parse_items(tokens) {
            Err(error) => Err(error),
            Ok(items) => compiled_items(items, options),
        },
    }
}

/// Compiles the syntax tree `ast` to a [`Program`] of its name. Unless
/// `options.no_std` is set, the standard library is compiled first, without
/// optimization, and the program can call its functions. The code of the
/// program is balanced and keeps the tape discipline where its inline code
/// and that of the standard library do.
pub fn compile_ast(ast: ast::Program, options: CompilerOptions) -> (r: CompilerResult<Program>)
    requires
        ast@.well_formed(),
    ensures
        r is Ok ==> code_gen::rules::distinct(table_view(r->Ok_0.functions@)),
        r is Ok && code_gen::balance::inlines_pass(ast@.items) && (options.no_std
            || inline_balanced(STD@)) ==> code_gen::balanced(r->Ok_0),
        r is Ok && code_gen::balance::inlines_pass(ast@.items)
            && code_gen::frames::items_within(ast@.items, 0, 0) && (options.no_std
            || inline_sound(STD@)) ==> code_gen::disciplined(r->Ok_0),
        match r {
            Ok(program) => program.name@ == ast@.name && compiled_items(ast@.items, options)
                == Ok::<Compiled, ErrorView>(compiled_view(program)),
            Err(error) => compiled_items(ast@.items, options) == Err::<Compiled, ErrorView>(
                error@,
            ),
        },
{
    let std = if options.no_std {
        proof {
            assert(code_gen::std_table(None) =~= Seq::empty());
            assert(code_gen::balance::table_passes(Seq::empty()));
            assert(code_gen::discipline::table_proper(Seq::empty()));
        }
        None
    } else {
        match compile_source(STD, "std", None, false) {
            Ok(program) => Some(program),
            Err(error) => {
                return Err(error);
            },
        }
    };
    generate_code(ast, std, options.optimize)
}

/// Compiles `input` to a [`Program`] named `name`: the input is parsed, and
/// the syntax tree compiled as [`compile_ast`] does.
pub fn compile(input: &str, name: &str, options: CompilerOptions) -> (r: CompilerResult<Program>)
    ensures
        r is Ok ==> code_gen::rules::distinct(table_view(r->Ok_0.functions@)),
        r is Ok && inline_balanced(input@) && (options.no_std || inline_balanced(STD@))
            ==> code_gen::balanced(r->Ok_0),
        r is Ok && inline_sound(input@) && (options.no_std || inline_sound(STD@))
            ==> code_gen::disciplined(r->Ok_0),
        match r {
            Ok(program) => program.name@ == name@ && compiled(input@, options) == Ok::<
                Compiled,
                ErrorView,
            >(compiled_view(program)),
            Err(error) => compiled(input@, options) == Err::<Compiled, ErrorView>(error@),
        },
{
    let ast = match parse_source(input, name) {
        Ok(ast) => ast,
        Err(error) => {
            return Err(error);
        },
    };
    compile_ast(ast, options)
}

} // verus!
