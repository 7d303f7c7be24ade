use transpeter::brainfuck::{Event, Machine};
use transpeter::code_gen::optimizations::optimize_code;
use transpeter::code_gen::{CodeGen, Program};
use transpeter::util::CompilerError;
use transpeter::lexer::tokenize;
use transpeter::parser::Parser;
use transpeter::{compile, CompilerOptions};

fn options(optimize: bool, no_std: bool) -> CompilerOptions {
    CompilerOptions { debug: false, optimize, run: false, no_std }
}

fn build(source: &str, optimize: bool, no_std: bool) -> Result<Program, CompilerError> {
    compile(source, "test", options(optimize, no_std))
}

fn message(source: &str, no_std: bool) -> String {
    build(source, false, no_std).unwrap_err().to_string()
}

/// Runs `code` on `input` and returns the machine and what it wrote.
fn run_machine(code: &str, input: &[u8]) -> (Machine, Vec<u8>) {
    let mut machine = Machine::new(code).expect("unmatched brackets");
    let mut output = Vec::new();
    let mut next = 0;
    let mut rounds = 0;
    loop {
        match machine.run(1_000_000) {
            Event::Output(byte) => output.push(byte),
            Event::Input => {
                let byte = if next < input.len() { input[next] } else { 255 };
                next += 1;
                assert!(machine.input(byte));
            }
            Event::Halted => break,
            Event::Fault => panic!("the head left the tape"),
            Event::Paused => {
                rounds += 1;
                assert!(rounds < 200, "the program does not halt");
            }
        }
    }
    (machine, output)
}

fn run(code: &str, input: &[u8]) -> Vec<u8> {
    run_machine(code, input).1
}

fn output_of(source: &str, input: &[u8]) -> Vec<u8> {
    let plain = build(source, false, false).unwrap();
    let optimized = build(source, true, false).unwrap();
    let out = run(&plain.code, input);
    assert_eq!(out, run(&optimized.code, input), "the optimizer changed the output");
    out
}

#[test]
fn put_int_of_a_variable() {
    assert_eq!(output_of("int a = 42; put_int(a);", b""), b"42");
}

#[test]
fn put_int_of_each_number_of_digits() {
    assert_eq!(output_of("put_int(0);", b""), b"0");
    assert_eq!(output_of("put_int(7);", b""), b"7");
    assert_eq!(output_of("put_int(10);", b""), b"10");
    assert_eq!(output_of("put_int(99);", b""), b"99");
    assert_eq!(output_of("put_int(100);", b""), b"100");
    assert_eq!(output_of("put_int(255);", b""), b"255");
    assert_eq!(output_of("println(205);", b""), b"205\n");
}

#[test]
fn function_without_return() {
    assert!(build("void f() {}", false, true).is_ok());
    assert_eq!(
        message("int f() {}", true),
        "line 1: function `f` has no `return` statement"
    );
}

#[test]
fn function_defined_twice() {
    assert_eq!(
        message("void f(){} void f(){}", true),
        "line 1: function `f` is defined multiple times"
    );
}

#[test]
fn recursive_function() {
    assert_eq!(
        message("int f(int a){ return f(1); } ", true),
        "line 1: recursive function `f`"
    );
}

#[test]
fn repeat_counts_down() {
    assert_eq!(
        output_of("int x; x = 5; repeat(3){ x -= 1; } put_int(x);", b""),
        b"2"
    );
}

#[test]
fn inline_code_is_emitted_verbatim() {
    let program = build("inline \"+++.\";", false, true).unwrap();
    assert_eq!(program.code, "+++.");
    assert_eq!(run(&program.code, b""), [3]);
    assert_eq!(
        message("inline \"[\";", true),
        "line 1: missing ']' in inline code"
    );
    assert_eq!(
        message("inline \"]\";", true),
        "line 1: unexpected ']' in inline code"
    );
}

const STDLIB: &str = r#"
int c = get_char();
put_char(c);
put_int(42);
"#;

#[test]
fn stdlib() {
    assert!(compile(
        STDLIB,
        "stdlib_test",
        CompilerOptions {
            debug: false,
            optimize: false,
            run: false,
            no_std: false,
        },
    )
    .is_ok(),);
}

#[test]
fn no_stdlib() {
    assert!(compile(
        STDLIB,
        "no_stdlib_test",
        CompilerOptions {
            debug: false,
            optimize: false,
            run: false,
            no_std: true,
        },
    )
    .is_err(),);
}

#[test]
fn stdlib_echoes_its_input() {
    assert_eq!(output_of(STDLIB, b"x"), b"x42");
    assert_eq!(output_of(STDLIB, b""), [255, b'4', b'2']);
}

const EXAMPLE: &str = r#"
void println(int x) {
    inline "<.>";
}

void assert(int condition) {
    if (not condition) {
        while (true) {} # error
    }
}

# this is a comment
void main() {
    int x = 42;
    int y = 12;
    if (x == y and y == x) {
        int wtf = x + y;
        println(wtf);
    } else {
        println(x * y);
    }
    inline "blub +-><";
    repeat (x) {
        println(x);
    }
    while (not x <= y) {
        x -= 1 + 3 / 4 * 1;
    }
    assert(x == y);
}

main();
"#;

#[test]
fn example_with_its_own_println() {
    let program = compile(
        EXAMPLE,
        "example",
        CompilerOptions {
            debug: false,
            optimize: false,
            run: true,
            no_std: true,
        },
    )
    .unwrap();
    assert_eq!(program.name, "example");
    let mut expected = vec![(42u32 * 12 % 256) as u8];
    expected.extend(std::iter::repeat(42u8).take(42));
    assert_eq!(run(&program.code, b""), expected);
    let optimized = build(EXAMPLE, true, true).unwrap();
    assert_eq!(run(&optimized.code, b""), expected);
}

#[test]
fn example_clashes_with_the_standard_library() {
    assert_eq!(
        message(EXAMPLE, false),
        "line 2: function `println` is defined multiple times"
    );
}

fn eval(expr: &str) -> u8 {
    let source = format!("put_char({});", expr);
    let out = output_of(&source, b"");
    assert_eq!(out.len(), 1);
    out[0]
}

const SAMPLES: [u8; 12] = [0, 1, 2, 3, 7, 10, 100, 127, 128, 200, 254, 255];

fn check_binary(op: &str, f: impl Fn(u8, u8) -> Option<u8>) {
    for a in SAMPLES {
        for b in SAMPLES {
            if let Some(expected) = f(a, b) {
                assert_eq!(
                    eval(&format!("{} {} {}", a, op, b)),
                    expected,
                    "{} {} {}",
                    a,
                    op,
                    b
                );
            }
        }
    }
}

#[test]
fn addition_and_subtraction_wrap() {
    check_binary("+", |a, b| Some(a.wrapping_add(b)));
    check_binary("-", |a, b| Some(a.wrapping_sub(b)));
}

#[test]
fn multiplication_wraps() {
    check_binary("*", |a, b| Some(a.wrapping_mul(b)));
}

#[test]
fn division_and_modulo() {
    check_binary("/", |a, b| if b == 0 { None } else { Some(a / b) });
    check_binary("%", |a, b| if b == 0 { None } else { Some(a % b) });
}

#[test]
fn comparisons_are_unsigned_booleans() {
    check_binary("==", |a, b| Some((a == b) as u8));
    check_binary("!=", |a, b| Some((a != b) as u8));
    check_binary("<", |a, b| Some((a < b) as u8));
    check_binary("<=", |a, b| Some((a <= b) as u8));
    check_binary(">", |a, b| Some((a > b) as u8));
    check_binary(">=", |a, b| Some((a >= b) as u8));
}

#[test]
fn logical_operators() {
    check_binary("and", |a, b| Some((a != 0 && b != 0) as u8));
    check_binary("or", |a, b| Some((a != 0 || b != 0) as u8));
}

#[test]
fn unary_operators() {
    for a in SAMPLES {
        assert_eq!(eval(&format!("+{}", a)), a);
        assert_eq!(eval(&format!("-{}", a)), a.wrapping_neg());
        assert_eq!(eval(&format!("not {}", a)), (a == 0) as u8);
    }
}

fn check_assign(op: &str, f: impl Fn(u8, u8) -> Option<u8>) {
    for a in SAMPLES {
        for b in SAMPLES {
            if let Some(expected) = f(a, b) {
                let source = format!(
                    "int pad = 9; int x = {}; int y = 5; {{ int z = 1; x {} {}; }} put_char(x); put_char(pad); put_char(y);",
                    a, op, b
                );
                assert_eq!(
                    output_of(&source, b""),
                    [expected, 9, 5],
                    "{} {} {}",
                    a,
                    op,
                    b
                );
            }
        }
    }
}

#[test]
fn compound_assignments() {
    check_assign("=", |_, b| Some(b));
    check_assign("+=", |a, b| Some(a.wrapping_add(b)));
    check_assign("-=", |a, b| Some(a.wrapping_sub(b)));
    check_assign("*=", |a, b| Some(a.wrapping_mul(b)));
    check_assign("/=", |a, b| if b == 0 { None } else { Some(a / b) });
    check_assign("%=", |a, b| if b == 0 { None } else { Some(a % b) });
}

fn value_of(expr: &str) -> (Machine, u8) {
    let program = build(&format!("int x = {};", expr), false, true).unwrap();
    let (machine, _) = run_machine(&program.code, b"");
    // at its end the program leaves its scope: the head is back on the value
    assert_eq!(machine.head(), 0, "{}", expr);
    let value = machine.cell(0).unwrap();
    (machine, value)
}

#[test]
fn expression_leaves_its_value_under_the_head() {
    assert_eq!(value_of("3 * (4 + 5) - 6 / 2 % 4").1, 24);
    assert_eq!(value_of("-(17 % 5) * 3 == 250").1, 1);
    assert_eq!(value_of("200 + 100").1, 44);
    assert_eq!(value_of("not (1 < 2) or 7 >= 7 and 3 != 3").1, 0);
}

#[test]
fn expression_leaves_the_tape_clean() {
    for (expr, expected) in [
        ("200 + 100", 44),
        ("not (1 < 2) or 7 >= 7 and 3 != 3", 0),
        ("(1 <= 0) + (5 > 4) + (6 == 6) - -1", 3),
        ("-(5 - 7) + +2", 4),
        ("(3 < 4 and 4 > 3) != (1 or 0)", 0),
        ("3 * (4 + 5) - 6 / 2 % 4", 24),
        ("1 * 1", 1),
        ("7 / 2", 3),
        ("7 % 2", 1),
        ("0 / 2", 0),
        ("0 % 3", 0),
        ("255 * 255 / 7 % 100", 0),
    ] {
        let (machine, value) = value_of(expr);
        assert_eq!(value, expected, "{}", expr);
        for cell in 1..64 {
            assert_eq!(machine.cell(cell), Some(0), "{}: cell {}", expr, cell);
        }
    }
}

#[test]
fn assignment_leaves_the_tape_clean() {
    for op in ["=", "+=", "-=", "*=", "/=", "%="] {
        let source = format!("int x = 200; int y = 9; x {} 7;", op);
        let program = build(&source, false, true).unwrap();
        let (machine, _) = run_machine(&program.code, b"");
        assert_eq!(machine.head(), 0);
        assert_eq!(machine.cell(1), Some(9));
        for cell in 2..64 {
            assert_eq!(machine.cell(cell), Some(0), "{}: cell {}", op, cell);
        }
    }
}

fn net_moves_at_top(code: &str) -> i64 {
    let mut depth = 0;
    let mut net = 0;
    for c in code.chars() {
        match c {
            '[' => depth += 1,
            ']' => depth -= 1,
            '>' if depth == 0 => net += 1,
            '<' if depth == 0 => net -= 1,
            _ => {}
        }
    }
    assert_eq!(depth, 0);
    net
}

#[test]
fn scopes_are_balanced() {
    let source = "
int f(int a, int b) { int c = a * b; { int d = c; c = d + 1; } return c; }
void g() { if (f(1, 2)) { int x; repeat (3) { x += 1; } } else put_int(f(2, 3)); }
g();
{ int y = 3; while (y) { y -= 1; put_int(y); } }
f(4, 5);
";
    for optimize in [false, true] {
        let program = build(source, optimize, false).unwrap();
        assert_eq!(net_moves_at_top(&program.code), 0);
        for (_, function) in &program.functions {
            assert_eq!(net_moves_at_top(&function.code), 0);
        }
    }
    // at its end a program leaves the cells of its top-level declarations
    for optimize in [false, true] {
        let program = build("int a; int b = 2; { int c; }", optimize, true).unwrap();
        assert_eq!(net_moves_at_top(&program.code), 0);
        let program = build("int a;", optimize, true).unwrap();
        assert_eq!(net_moves_at_top(&program.code), 0);
    }
    assert_eq!(build("int a;", false, true).unwrap().code, "><");
    assert_eq!(build("int a;", true, true).unwrap().code, "");
    assert_eq!(
        build("int a; int b = 2; { int c; }", false, true).unwrap().code,
        ">[-]++>><<<"
    );
}

#[test]
fn functions_are_listed_with_arity() {
    let program = build("int f(int a, int b) { return a; } void g() {}", false, true).unwrap();
    assert_eq!(program.functions.len(), 2);
    assert_eq!(program.functions[0].0, "f");
    assert_eq!(program.functions[0].1.arity, 2);
    assert!(!program.functions[0].1.void);
    assert_eq!(program.functions[1].0, "g");
    assert_eq!(program.functions[1].1.arity, 0);
    assert!(program.functions[1].1.void);
    assert_eq!(program.functions[1].1.code, "");
    assert_eq!(program.code, "");
}

#[test]
fn generated_code_for_small_programs() {
    assert_eq!(build("int a = 3;", false, true).unwrap().code, "[-]+++><");
    assert_eq!(
        build("int a; a = 1 + 2;", false, true).unwrap().code,
        ">[-]+>[-]++[-<+>]<<[-]>[-<+>]<"
    );
    assert_eq!(
        build("int f(int a) { return a; }", false, true).unwrap().functions[0].1.code,
        ">[-]>[-]<<[->+>+<<]>>[-<<+>>]<<[-]>[-<+>]<"
    );
    assert_eq!(
        build("if (1) inline \".\";", false, true).unwrap().code,
        "[-]+[.[-]]"
    );
    assert_eq!(
        build("if (0) inline \".\"; else inline \",\";", false, true).unwrap().code,
        "[-]+>[-][.<->[-]]<[,[-]]"
    );
    assert_eq!(
        build("while (2) inline \".\";", false, true).unwrap().code,
        "[-]++[.[-]++]"
    );
    assert_eq!(
        build("repeat (2) inline \".\";", false, true).unwrap().code,
        "[-]++[>.<-]"
    );
}

#[test]
fn return_ends_the_function_body() {
    let program = build("int f() { return 1; return 2; f(); }", false, true).unwrap();
    assert_eq!(program.functions[0].1.code, "[-]+");
}

#[test]
fn semantic_errors() {
    assert_eq!(
        message("void f(void a) {}", true),
        "line 1: parameter `a` has type `void`"
    );
    assert_eq!(
        message("void f(int a,\nint a) {}", true),
        "line 2: parameter `a` is declared multiple times"
    );
    assert_eq!(message("void a;", true), "line 1: variable `a` has type `void`");
    assert_eq!(
        message("int a;\n\nint a;", true),
        "line 3: parameter `a` is declared multiple times"
    );
    assert!(build("int a; { int a; }", false, true).is_ok());
    assert_eq!(message("a = 1;", true), "line 1: undeclared variable `a`");
    assert_eq!(message("int b = a;", true), "line 1: undeclared variable `a`");
    assert_eq!(
        message("{ int a; }\na += 1;", true),
        "line 2: undeclared variable `a`"
    );
    assert_eq!(message("f();", true), "line 1: undefined function `f`");
    assert_eq!(
        message("void f(int a) {}\nf();", true),
        "line 2: expected 0 arguments, got 1"
    );
    assert_eq!(
        message("void f() {}\nint a = f();", true),
        "line 2: function `f` has return type void"
    );
    assert_eq!(
        message("void f() { return 1; }", true),
        "line 1: unexpected `return` statement in function returning `void`"
    );
    assert_eq!(message("return 1;", true), "line 1: invalid `return` statement");
    assert_eq!(
        message("int f() { { return 1; } }", true),
        "line 1: invalid `return` statement"
    );
    assert_eq!(
        message("int g;\nvoid f() { g = 1; }", true),
        "line 2: undeclared variable `g`"
    );
}

#[test]
fn syntax_errors() {
    assert_eq!(message("int a", true), "line 1: expected function definition or declaration, got end of file");
    assert_eq!(message("a = 1", true), "line 1: expected `;`, got end of file");
    assert_eq!(message("if (1) int a;", true), "line 1: expected statement, got type `int`");
    assert_eq!(message("f(1;", true), "line 1: expected `)`, got `;`");
    assert_eq!(message("\n\n+", true), "line 3: expected statement, got `+`");
    assert_eq!(message("a 1;", true), "line 1: expected function call or assignment, got integer literal `1`");
    assert_eq!(message("inline 'a';", true), "line 1: expected string literal, got char literal `'a'`");
    assert_eq!(message("a = \"\\n\\x01z\";", true), "line 1: expected expression, got string literal `\"\\n\\x01z\"`");
}

#[test]
fn lexical_errors() {
    assert_eq!(message("#[ open", true), "line 1: unterminated block comment");
    assert_eq!(message("\n'a", true), "line 2: unterminated char literal");
    assert_eq!(message("''", true), "line 1: invalid char literal");
    assert_eq!(message("\"abc\n", true), "line 2: unterminated string literal");
    assert_eq!(message("'\\q'", true), "line 1: invalid escape sequence: '\\q'");
    assert_eq!(message("'\\xG1'", true), "line 1: invalid escape sequence: '\\x'");
    assert_eq!(message("'\\", true), "line 1: unterminated escape sequence");
    assert_eq!(message("'\u{e9}'", true), "line 1: expected ASCII character, got '\u{e9}'");
    assert_eq!(message("256", true), "line 1: integer literal too big: 256");
    assert_eq!(message("!", true), "line 1: unexpected character, expected `!=`");
    assert_eq!(message("$", true), "line 1: invalid token");
}

#[test]
fn optimizer_simplifies() {
    let optimize = |code: &str| {
        let mut code = code.to_string();
        optimize_code(&mut code);
        code
    };
    assert_eq!(optimize("><"), "");
    assert_eq!(optimize("<>"), "");
    assert_eq!(optimize("+-"), "");
    assert_eq!(optimize("-+"), "");
    assert_eq!(optimize("[-][+]"), "[-]");
    assert_eq!(optimize("[-]+-[+]."), "[-].");
    assert_eq!(optimize("+>><+<-<-"), "+>+<-<-");
    assert_eq!(optimize("+>><<-"), "");
    assert_eq!(optimize("a+b+c-d>e"), "+>");
    assert_eq!(optimize("[[->+<][.]]"), "[[->+<]]");
    assert_eq!(optimize(",.[>+<-]"), ",.[>+<-]");
    assert_eq!(optimize(&"+".repeat(128)), "-".repeat(128));
    assert_eq!(optimize(&"+".repeat(255)), "-");
    assert_eq!(optimize(&"+".repeat(256)), "");
    assert_eq!(optimize(&"-".repeat(129)), "+".repeat(127));
    assert_eq!(optimize(&">".repeat(300)), ">".repeat(300));
}

#[test]
fn hello_world() {
    const HELLO: &str = "++++++++++[>+>+++>+++++++>++++++++++<<<<-]>>>++.>+.+++++++..+++.<<++.>+++++++++++++++.>.+++.------.--------.<<+.<.";
    assert_eq!(run(HELLO, b""), b"Hello World!\n");
}

#[test]
fn machine_rejects_unmatched_brackets() {
    assert!(Machine::new("[").is_none());
    assert!(Machine::new("]").is_none());
    assert!(Machine::new("[]]").is_none());
    assert!(Machine::new("[[]").is_none());
    assert!(Machine::new("[a[b]c]").is_some());
}

#[test]
fn machine_events() {
    let mut machine = Machine::new("-.,.<").unwrap();
    assert_eq!(machine.run(1), Event::Paused);
    assert_eq!(machine.cell(0), Some(255));
    assert!(!machine.input(1));
    assert_eq!(machine.run(10), Event::Output(255));
    assert_eq!(machine.run(10), Event::Input);
    assert_eq!(machine.run(10), Event::Input);
    assert!(machine.input(65));
    assert_eq!(machine.run(10), Event::Output(65));
    assert_eq!(machine.run(10), Event::Fault);
    assert_eq!(machine.head(), 0);
    assert_eq!(machine.cell(30_000), None);
    let mut machine = Machine::new("+[]").unwrap();
    assert_eq!(machine.run(1000), Event::Paused);
    let mut machine = Machine::new("").unwrap();
    assert_eq!(machine.run(0), Event::Paused);
    assert_eq!(machine.run(1), Event::Halted);
}


#[test]
fn machine_is_driven_with_input() {
    const HELLO: &str = "++++++++++[>+>+++>+++++++>++++++++++<<<<-]>>>++.>+.+++++++..+++.<<++.>+++++++++++++++.>.+++.------.--------.<<+.<.";
    let mut machine = Machine::new(HELLO).unwrap();
    let (output, event) = machine.execute(&Vec::new(), 10_000);
    assert_eq!(output, b"Hello World!\n");
    assert_eq!(event, Event::Halted);
    let mut machine = Machine::new(HELLO).unwrap();
    let (output, event) = machine.execute(&Vec::new(), 100);
    assert_eq!(output, b"");
    assert_eq!(event, Event::Paused);
    let (rest, event) = machine.execute(&Vec::new(), 10_000);
    assert_eq!(rest, b"Hello World!\n");
    assert_eq!(event, Event::Halted);
    // an echo of two bytes and of the end of the input
    let mut machine = Machine::new(",.,.,.").unwrap();
    assert_eq!(machine.execute(&vec![7, 8], 100), (vec![7, 8, 255], Event::Halted));
    let mut machine = Machine::new("+.<").unwrap();
    assert_eq!(machine.execute(&Vec::new(), 100), (vec![1], Event::Fault));
}

#[test]
fn execute_agrees_with_single_steps() {
    let program = build("int a = get_char(); int b = get_char(); put_int(a * b % 7); put_char(a - b);", false, false).unwrap();
    let by_events = run(&program.code, &[200, 30]);
    let mut machine = Machine::new(&program.code).unwrap();
    let (output, event) = machine.execute(&vec![200, 30], 100_000_000);
    assert_eq!(event, Event::Halted);
    assert_eq!(output, by_events);
    assert_eq!(output, [b'0', 170]);
}

#[test]
#[should_panic]
fn invalid_left_bracket() {
    Machine::new("[").expect("unmatched '['");
}

#[test]
#[should_panic]
fn invalid_right_bracket() {
    Machine::new("]").expect("unmatched ']'");
}

#[test]
fn if_runs_one_branch() {
    assert_eq!(output_of("if (1) put_char('a');", b""), b"a");
    assert_eq!(output_of("if (0) put_char('a');", b""), b"");
    assert_eq!(output_of("if (200) put_char('a'); else put_char('b');", b""), b"a");
    assert_eq!(output_of("if (0) put_char('a'); else put_char('b');", b""), b"b");
    assert_eq!(
        output_of(
            "int x = 3; if (x == 3) { x += 1; put_int(x); } else { put_int(0); } put_int(x);",
            b""
        ),
        b"44"
    );
}

#[test]
fn while_runs_until_the_condition_is_zero() {
    assert_eq!(
        output_of("int x = 3; while (x) { put_int(x); x -= 1; } put_int(x);", b""),
        b"3210"
    );
    assert_eq!(output_of("int x = 0; while (x) { put_int(x); } put_int(7);", b""), b"7");
    assert_eq!(
        output_of("int x = 0; while (x < 250) { x += 100; } put_int(x);", b""),
        b"252"
    );
}

#[test]
fn repeat_evaluates_its_count_once() {
    assert_eq!(output_of("int x = 2; repeat (x) { x += 1; put_int(x); }", b""), b"34");
    assert_eq!(output_of("repeat (0) put_char('a');", b""), b"");
    assert_eq!(output_of("repeat (3) put_char('a');", b""), b"aaa");
}

#[test]
fn calls_are_operands() {
    let source = "int twice(int a) { return a * 2; }
int sum(int a, int b) { return a + b; }
int x = 5;
put_int(twice(3) + sum(x, twice(x)) * 2);
x *= sum(twice(x), 1);
put_char(' ');
put_int(x);
put_char(' ');
put_int(twice(100) / sum(1, 2) < sum(x, x));";
    assert_eq!(output_of(source, b""), b"36 55 1");
}

#[test]
fn function_names_are_distinct() {
    let program = build("void f() {} int g(int a) { return a; } f();", false, false).unwrap();
    for (i, (name, _)) in program.functions.iter().enumerate() {
        for (other, _) in program.functions.iter().skip(i + 1) {
            assert_ne!(name, other);
        }
    }
    let names: Vec<&str> = program.functions.iter().map(|(name, _)| name.as_str()).collect();
    assert!(names.contains(&"f"));
    assert!(names.contains(&"g"));
    assert!(names.contains(&"put_int"));
}

#[test]
fn generator_keeps_its_state_on_an_error() {
    let mut generator = CodeGen::new();
    let expr = Parser::new(tokenize("1 + 2").unwrap()).parse_expr().unwrap();
    generator.generate_expr(&expr).unwrap();
    let code = generator.code.clone();
    assert_eq!(code, "[-]+>[-]++[-<+>]<");
    assert_eq!(generator.stack_ptr, 0);

    let expr = Parser::new(tokenize("missing").unwrap()).parse_expr().unwrap();
    let error = generator.generate_expr(&expr).unwrap_err();
    assert_eq!(error.to_string(), "line 1: undeclared variable `missing`");
    assert_eq!(generator.code, code);
    assert_eq!(generator.stack_ptr, 0);
    assert!(generator.functions.is_empty());

    let expr = Parser::new(tokenize("missing(1)").unwrap()).parse_expr().unwrap();
    assert!(generator.generate_expr(&expr).is_err());
    assert_eq!(generator.code, code);
    assert_eq!(generator.stack_ptr, 0);

    let stmt = Parser::new(tokenize("return 1;").unwrap()).parse_statement().unwrap();
    let error = generator.generate_statement(&stmt).unwrap_err();
    assert_eq!(error.to_string(), "line 1: invalid `return` statement");
    assert_eq!(generator.code, code);
    assert!(generator.functions.is_empty());
}

#[test]
fn call_leaves_its_arguments_on_the_tape() {
    // the code of a function ends with one `<` for each parameter and local:
    // it moves the head back and leaves their cells as they are
    let source = "int sum(int a, int b) { return a + b; } int x = sum(1, 2);";
    let program = build(source, false, true).unwrap();
    let (machine, _) = run_machine(&program.code, b"");
    assert_eq!(machine.head(), 0);
    assert_eq!(machine.cell(0), Some(3));
    assert_eq!(machine.cell(1), Some(2));
    for cell in 2..64 {
        assert_eq!(machine.cell(cell), Some(0), "cell {}", cell);
    }
}

#[test]
fn quotient_and_remainder_by_zero_end() {
    // the language gives them no meaning; the code counts a divisor of
    // zero as 256 and ends
    for a in [0u8, 1, 7, 128, 255] {
        assert_eq!(eval(&format!("{} / 0", a)), 0);
        assert_eq!(eval(&format!("{} % 0", a)), a);
        let source = format!("int x = {}; int y = x; x /= 0; y %= 0; put_char(x); put_char(y);", a);
        assert_eq!(output_of(&source, b""), [0, a]);
    }
}

#[test]
fn program_leaves_the_head_where_it_began() {
    let sources = [
        "int a = 3; int b = a * 2; { int c = b; b = c + a; } put_int(b);",
        "int f(int a, int b) { int c = a; while (c) { c -= 1; b += 2; } return b; }
int x = f(3, 4); if (x == 10) { repeat (2) { x /= 0; } } else { x = f(x, f(1, 1)); }",
        "void g(int n) { if (n) put_int(n); else { int m = n + 1; put_int(m); } }
int i = 3; while (i) { g(i); i -= 1; } g(0);",
        "int c = get_char(); put_char(c); println(c % 10);",
    ];
    for source in sources {
        for optimize in [false, true] {
            let program = build(source, optimize, false).unwrap();
            let (machine, _) = run_machine(&program.code, b"a");
            assert_eq!(machine.head(), 0, "{}", source);
        }
    }
}

#[test]
fn call_of_a_function_of_one_parameter_leaves_the_tape_clean() {
    let source = "int twice(int a) { return a * 2; }
int seven() { return 7; }
int x = twice(3) + seven() * twice(twice(1));";
    for optimize in [false, true] {
        let program = build(source, optimize, true).unwrap();
        let (machine, _) = run_machine(&program.code, b"");
        assert_eq!(machine.head(), 0);
        assert_eq!(machine.cell(0), Some(34));
        for cell in 1..64 {
            assert_eq!(machine.cell(cell), Some(0), "cell {}", cell);
        }
    }
}
