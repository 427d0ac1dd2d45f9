use arith_compiler::ast::{ArithmeticError, Ast, CompileError, Operator, SimulationError, Source};
use arith_compiler::generator::CodeGeneration;
use arith_compiler::optimizer::Optimizer;
use arith_compiler::parser::{Parser, Token};
use arith_compiler::{ArchSim, Compiler};

fn imm(n: i32) -> Ast {
    Ast::Value(Source::Imm, n)
}

fn arg(n: i32) -> Ast {
    Ast::Value(Source::Arg, n)
}

fn add(a: Ast, b: Ast) -> Ast {
    Ast::binop(Operator::Add, a, b)
}

fn sub(a: Ast, b: Ast) -> Ast {
    Ast::binop(Operator::Sub, a, b)
}

fn mul(a: Ast, b: Ast) -> Ast {
    Ast::binop(Operator::Mul, a, b)
}

fn div(a: Ast, b: Ast) -> Ast {
    Ast::binop(Operator::Div, a, b)
}

fn run_source(prog: &str, args: Vec<i32>) -> Result<i32, SimulationError> {
    let mut compiler = Compiler::new();
    let code = compiler.compile(prog).expect("compiles");
    ArchSim::simulate(&code, args)
}

fn has_foldable(t: &Ast) -> bool {
    match t {
        Ast::Value(_, _) => false,
        Ast::BinOp(_, l, r) => {
            let both = matches!(**l, Ast::Value(Source::Imm, _)) && matches!(**r, Ast::Value(Source::Imm, _));
            both || has_foldable(l) || has_foldable(r)
        }
    }
}

#[test]
fn generate_code() {
    let ast = div(sub(add(mul(imm(6), arg(0)), mul(imm(5), arg(1))), mul(imm(3), arg(2))), imm(8));

    let code = ast.generate_code();

    assert_eq!(ArchSim::simulate(&code, vec![4, 0, 0]), Ok(3), "prog(4,0,0) == 3");
    assert_eq!(ArchSim::simulate(&code, vec![4, 8, 0]), Ok(8), "prog(4,8,0) == 8");
    assert_eq!(ArchSim::simulate(&code, vec![4, 8, 16]), Ok(2), "prog(4,8,6) == 2");
}

#[test]
fn order_of_operations() {
    let prog = "[ x y z ] x - y - z + 10 / 5 / 2 - 7 / 1 / 7";

    let mut compiler = Compiler::new();
    let code = compiler.compile(prog).expect("compiles");

    assert!(!code.is_empty(), "No code was produced");
    assert_eq!(ArchSim::simulate(&code, vec![5, 4, 1]), Ok(0), "{} @ [5,4,1]", prog);
}

#[test]
fn optimize() {
    let ast = div(
        sub(add(mul(mul(imm(2), imm(3)), arg(0)), mul(imm(5), arg(1))), mul(imm(3), arg(2))),
        add(add(imm(1), imm(3)), mul(imm(2), imm(2))),
    );
    let expected = div(sub(add(mul(imm(6), arg(0)), mul(imm(5), arg(1))), mul(imm(3), arg(2))), imm(8));

    let mut optimizer = Optimizer::default();
    let actual = optimizer.optimize(ast);

    assert_eq!(actual, Ok(expected), "Optimize");
}

#[test]
fn parse() {
    let prog = "[ x y z ] ( 2*3*x + 5*y - 3*z ) / (1 + 3 + 2*2)";
    let expected = div(
        sub(add(mul(mul(imm(2), imm(3)), arg(0)), mul(imm(5), arg(1))), mul(imm(3), arg(2))),
        add(add(imm(1), imm(3)), mul(imm(2), imm(2))),
    );

    let mut parser = Parser::default();
    let actual = parser.parse(prog);

    assert_eq!(actual, Ok(expected), "Parse");
}

#[test]
fn precedence_of_products() {
    assert_eq!(run_source("[ ] 2+3*4", vec![]), Ok(14));
    assert_eq!(run_source("[ ] (2+3)*4", vec![]), Ok(20));
}

#[test]
fn subtraction_and_division_keep_operand_order() {
    assert_eq!(run_source("[ a b ] a - b", vec![10, 3]), Ok(7));
    assert_eq!(run_source("[ a b ] a / b", vec![10, 3]), Ok(3));
    assert_eq!(run_source("[ a b ] (a + 0 * b) - b", vec![10, 3]), Ok(7));
    assert_eq!(run_source("[ a b ] (a * b) / (b - 1)", vec![10, 3]), Ok(15));
}

#[test]
fn division_truncates_toward_zero() {
    assert_eq!(run_source("[ a b ] a / b", vec![-7, 2]), Ok(-3));
    assert_eq!(run_source("[ a b ] a / b", vec![7, -2]), Ok(-3));
    assert_eq!(run_source("[ ] (0 - 7) / 2", vec![]), Ok(-3));
}

#[test]
fn constant_folding_leaves_no_constant_pair() {
    let mut parser = Parser::default();
    let tree = parser.parse("[ x ] 2*3*x + 5*2 - 3*1").expect("parses");
    let mut optimizer = Optimizer::default();
    let folded = optimizer.optimize(tree).expect("folds");
    assert!(!has_foldable(&folded));
    assert_eq!(folded, sub(add(mul(imm(6), arg(0)), imm(10)), imm(3)));
    assert_eq!(run_source("[ x ] 2*3*x + 5*2 - 3*1", vec![2]), Ok(19));
}

#[test]
fn folding_keeps_literal_results() {
    let prog = "[ ] (7 - 10) * 4 / (1 + 1)";
    let mut parser = Parser::default();
    let tree = parser.parse(prog).expect("parses");
    let plain = tree.generate_code();
    let mut optimizer = Optimizer::default();
    let folded = optimizer.optimize(tree).expect("folds");
    assert_eq!(folded, imm(-6));
    assert_eq!(folded.generate_code(), "IM -6");
    assert_eq!(ArchSim::simulate(&plain, vec![]), Ok(-6));
    assert_eq!(run_source(prog, vec![]), Ok(-6));
}

#[test]
fn repeated_simulation_gives_same_result() {
    let mut compiler = Compiler::new();
    let code = compiler.compile("[ a b ] a * b - 4").expect("compiles");
    let first = ArchSim::simulate(&code, vec![6, 7]);
    let second = ArchSim::simulate(&code, vec![6, 7]);
    assert_eq!(first, Ok(38));
    assert_eq!(first, second);
}

#[test]
fn division_by_zero_at_run_time() {
    let code = String::from("IM 0\nSW\nIM 5\nDI");
    assert_eq!(ArchSim::simulate(&code, vec![]), Err(SimulationError::Arithmetic(ArithmeticError::DivisionByZero)));
    assert_eq!(run_source("[ x ] 5 / x", vec![0]), Err(SimulationError::Arithmetic(ArithmeticError::DivisionByZero)));
}

#[test]
fn division_by_zero_at_fold_time() {
    let mut compiler = Compiler::new();
    assert_eq!(compiler.compile("[ ] 1 / (2 - 2)"), Err(CompileError::Arithmetic(ArithmeticError::DivisionByZero)));
}

#[test]
fn overflow_fails() {
    let mut compiler = Compiler::new();
    assert_eq!(compiler.compile("[ ] 2147483647 + 1"), Err(CompileError::Arithmetic(ArithmeticError::Overflow)));
    assert_eq!(run_source("[ a ] a * 2", vec![2147483647]), Err(SimulationError::Arithmetic(ArithmeticError::Overflow)));
}

#[test]
fn mismatched_parentheses_fail_to_parse() {
    let mut compiler = Compiler::new();
    assert_eq!(compiler.compile("[ ] (2 + 3"), Err(CompileError::MalformedProgram));
    assert_eq!(compiler.compile("[ ] (2 + 3))"), Err(CompileError::MalformedProgram));
    assert_eq!(compiler.compile("[ ] (2 + 3]"), Err(CompileError::MalformedProgram));
}

#[test]
fn other_parse_failures() {
    let mut compiler = Compiler::new();
    assert_eq!(compiler.compile("2 + 3"), Err(CompileError::MalformedProgram));
    assert_eq!(compiler.compile("[ ] 2 +"), Err(CompileError::MalformedProgram));
    assert_eq!(compiler.compile("[ ]"), Err(CompileError::MalformedProgram));
}

#[test]
fn lexing_failures() {
    let mut compiler = Compiler::new();
    assert_eq!(compiler.compile("[ ] 2 % 3"), Err(CompileError::InvalidCharacter));
    assert_eq!(compiler.compile("[ ] 2147483648"), Err(CompileError::LiteralOutOfRange));
    assert_eq!(run_source("[ ] 2147483647", vec![]), Ok(2147483647));
}

#[test]
fn names_are_numbered_by_first_occurrence() {
    let mut parser = Parser::default();
    parser.program = "[ b a ] a + b + c + a";
    let tokens = parser.tokenize().expect("lexes");
    assert_eq!(
        tokens,
        vec![
            Token::OpenBracket,
            Token::Var(0),
            Token::Var(1),
            Token::ClosedBracket,
            Token::Var(1),
            Token::Plus,
            Token::Var(0),
            Token::Plus,
            Token::Var(2),
            Token::Plus,
            Token::Var(1),
        ]
    );
    assert_eq!(parser.tokens, tokens);
}

#[test]
fn numbers_and_symbols_lex() {
    let mut parser = Parser::default();
    parser.program = "[]( 12*3)/-";
    let tokens = parser.tokenize().expect("lexes");
    assert_eq!(
        tokens,
        vec![
            Token::OpenBracket,
            Token::ClosedBracket,
            Token::OpenParen,
            Token::Num(12),
            Token::Star,
            Token::Num(3),
            Token::ClosedParen,
            Token::Slash,
            Token::Dash,
        ]
    );
}

#[test]
fn machine_failures() {
    assert_eq!(ArchSim::simulate(&String::from("PO"), vec![]), Err(SimulationError::StackUnderflow));
    assert_eq!(ArchSim::simulate(&String::from("AR 3"), vec![1, 2]), Err(SimulationError::ArgumentIndexOutOfRange));
    assert_eq!(ArchSim::simulate(&String::from("AR -1"), vec![1, 2]), Err(SimulationError::ArgumentIndexOutOfRange));
    assert_eq!(ArchSim::simulate(&String::from("XX"), vec![]), Err(SimulationError::MalformedInstruction));
    assert_eq!(ArchSim::simulate(&String::from("IM"), vec![]), Err(SimulationError::MalformedInstruction));
    assert_eq!(ArchSim::simulate(&String::from("IM 2147483648"), vec![]), Err(SimulationError::MalformedInstruction));
}

#[test]
fn machine_runs_text() {
    assert_eq!(ArchSim::simulate(&String::new(), vec![]), Ok(0));
    assert_eq!(ArchSim::simulate(&String::from("IM -2147483648\n"), vec![]), Ok(-2147483648));
    assert_eq!(ArchSim::simulate(&String::from("IM 4\nPU\nIM 9\nSW\nPO\nSU"), vec![]), Ok(-5));
    assert_eq!(ArchSim::simulate(&String::from("AR 1\nSW\nAR 0\nMU"), vec![3, 5]), Ok(15));
}

#[test]
fn generated_text_layout() {
    assert_eq!(div(arg(0), imm(2)).generate_code(), "IM 2\nSW\nAR 0\nDI");
    assert_eq!(sub(add(arg(0), arg(1)), imm(2)).generate_code(), "AR 1\nSW\nAR 0\nAD\nSW\nIM 2\nSW\nSU");
    assert_eq!(
        mul(add(arg(0), arg(1)), sub(arg(2), imm(1))).generate_code(),
        "AR 1\nSW\nAR 0\nAD\nPU\nIM 1\nSW\nAR 2\nSU\nSW\nPO\nMU"
    );
    assert_eq!(Operator::Div.generate_code(), "DI");
    assert_eq!(Source::Arg.generate_code(), "AR");
}

#[test]
fn compiler_keeps_assembly() {
    let mut compiler = Compiler::new();
    let code = compiler.compile("[ ] 1 + 2").expect("compiles");
    assert_eq!(code, "IM 3");
    assert_eq!(compiler.assembly, "IM 3");
}

#[test]
fn tree_text() {
    let t = div(sub(arg(0), imm(-4)), imm(2));
    assert_eq!(t.to_text(), "(/ (- arg[0] imm[-4]) imm[2])");
    assert_eq!(Operator::Mul.symbol(), "*");
    assert_eq!(Source::Imm.name(), "imm");
    assert_eq!(Ast::default(), imm(0));
}

#[test]
fn optimizer_keeps_both_trees() {
    let mut optimizer = Optimizer::default();
    let folded = optimizer.optimize(add(imm(1), mul(imm(2), arg(0)))).expect("folds");
    assert_eq!(folded, add(imm(1), mul(imm(2), arg(0))));
    let folded = optimizer.optimize(add(imm(1), mul(imm(2), imm(3)))).expect("folds");
    assert_eq!(folded, imm(7));
    assert_eq!(optimizer.original, add(imm(1), mul(imm(2), imm(3))));
    assert_eq!(optimizer.optimized, imm(7));
    assert_eq!(
        optimizer.describe(),
        "Optimizer state:\noriginal: (+ imm[1] (* imm[2] imm[3]))\noptimized: imm[7]"
    );
}

#[test]
fn compiler_state_text() {
    let mut compiler = Compiler::new();
    compiler.compile("[ x ] x+1*2").expect("compiles");
    assert_eq!(
        compiler.parser.describe(),
        "Parser state:\nprogram: [ x ] x+1*2\ntokens: [OpenBracket, Var(0), ClosedBracket, Var(0), Plus, Num(1), Star, Num(2)]\nast: (+ arg[0] (* imm[1] imm[2]))"
    );
    let text = compiler.describe();
    assert!(text.starts_with("Compiler\n\nParser state:\n"));
    assert!(text.contains("\n\nOptimizer state:\noriginal: (+ arg[0] (* imm[1] imm[2]))\noptimized: (+ arg[0] imm[2])"));
    assert!(text.ends_with("\n\nassembly:\nIM 2\nSW\nAR 0\nAD"));
}

#[test]
fn first_failing_line_gives_the_error() {
    assert_eq!(ArchSim::simulate(&String::from("PO\nXX"), vec![]), Err(SimulationError::StackUnderflow));
    assert_eq!(
        ArchSim::simulate(&String::from("IM 5\nDI\nXX"), vec![]),
        Err(SimulationError::Arithmetic(ArithmeticError::DivisionByZero))
    );
    assert_eq!(ArchSim::simulate(&String::from("IM 5\nXX\nPO"), vec![]), Err(SimulationError::MalformedInstruction));
    assert_eq!(ArchSim::simulate(&String::from("AR 2\nIM"), vec![1]), Err(SimulationError::ArgumentIndexOutOfRange));
    assert_eq!(ArchSim::simulate(&String::from("PO extra"), vec![]), Err(SimulationError::MalformedInstruction));
}

#[test]
fn any_white_space_separates_tokens() {
    assert_eq!(run_source("[ a\u{c}b ]\ta\u{b}-\r\nb\u{a0}*\u{3000}2", vec![9, 3]), Ok(3));
    let mut compiler = Compiler::new();
    assert_eq!(compiler.compile("[ ] 2 \u{200b} 3"), Err(CompileError::InvalidCharacter));
}

#[test]
fn trees_clone_and_print() {
    let t = mul(arg(1), add(imm(2), imm(3)));
    let c = t.clone();
    assert_eq!(c, t);
    let compiler = Compiler::new();
    assert!(format!("{:?}", compiler).contains("Optimizer"));
    assert_eq!(
        compiler.describe(),
        "Compiler\n\nParser state:\nprogram: \ntokens: []\nast: imm[0]\n\nOptimizer state:\noriginal: imm[0]\noptimized: imm[0]\n\nassembly:\n"
    );
}
