pub mod assembly;
pub mod ast;
pub mod generator;
pub mod machine;
pub mod optimizer;
pub mod parser;

use vstd::prelude::*;
use vstd::string::*;
use crate::assembly::{lemma_decode_program_text, lemma_run_lines_decoded, program_text, run_lines, run_text};
use crate::ast::{eval, Ast, CompileError, SimulationError, Source};
use crate::generator::{gen, lemma_generated_code_computes, CodeGeneration};
use crate::machine::initial_state;
use crate::optimizer::{fold, lemma_fold_preserves_eval, Optimizer};
use crate::parser::{parse_program, Parser};

verus! {

/// What running a program text against `args` gives.
/// Lines run in order; the first line that is malformed or whose execution fails gives
/// the error.
pub open spec fn simulation(text: Seq<char>, args: Seq<i32>) -> Result<i32, SimulationError> {
    match run_lines(text, initial_state(), args) {
        Ok(st) => Ok(st.r0),
        Err(e) => Err(e),
    }
}

/// The program text that a source text compiles to: parsed, folded, then generated.
pub open spec fn compilation(s: Seq<char>) -> Result<Seq<char>, CompileError> {
    match parse_program(s) {
        Err(e) => Err(e),
        Ok(t) => match fold(t) {
            Err(e) => Err(CompileError::Arithmetic(e)),
            Ok(u) => Ok(program_text(gen(u))),
        },
    }
}

/// Source-to-program-text compiler that keeps the stages of its last run.
#[derive(Debug)]
pub struct Compiler<'a> {
    pub parser: Parser<'a>,
    pub optimizer: Optimizer,
    pub assembly: String,
}

/// A compiler that has compiled nothing yet.
pub open spec fn is_fresh(c: Compiler) -> bool {
    &&& c.parser.program@.len() == 0
    &&& c.parser.tokens@.len() == 0
    &&& c.parser.current == 0
    &&& c.parser.ast == Ast::Value(Source::Imm, 0)
    &&& c.optimizer.original == Ast::Value(Source::Imm, 0)
    &&& c.optimizer.optimized == Ast::Value(Source::Imm, 0)
    &&& c.assembly@.len() == 0
}

impl<'a> Default for Compiler<'a> {
    fn default() -> (r: Self)
        ensures
            is_fresh(r),
    {
        Compiler { parser: Parser::default(), optimizer: Optimizer::default(), assembly: String::new() }
    }
}

impl<'a> Compiler<'a> {
    pub fn new() -> (r: Self)
        ensures
            is_fresh(r),
    {
        Self::default()
    }

    /// Compiles `program` to the text of its instruction sequence.
    pub fn compile(&mut self, program: &'a str) -> (r: Result<String, CompileError>)
        ensures
            match compilation(program@) {
                Ok(text) => r matches Ok(c) && c@ == text && final(self).assembly@ == text,
                Err(e) => r == Err::<String, CompileError>(e),
            },
    {
        let tree = match self.parser.parse(program) {
            Ok(t) => t,
            Err(e) => return Err(e),
        };
        let folded = match self.optimizer.optimize(tree) {
            Ok(u) => u,
            Err(e) => return Err(e),
        };
        self.assembly = folded.generate_code();
        Ok(self.assembly.clone())
    }

    /// The state of each stage of the last run.
    pub fn describe(&self) -> (r: String)
        ensures
            r@ == "Compiler\n\n"@ + self.parser.describe_text() + "\n\n"@
                + self.optimizer.describe_text() + "\n\nassembly:\n"@ + self.assembly@,
    {
        let mut out = String::from_str("Compiler\n\n");
        out.append(self.parser.describe().as_str());
        out.append("\n\n");
        out.append(self.optimizer.describe().as_str());
        out.append("\n\nassembly:\n");
        out.append(self.assembly.as_str());
        out
    }
}

/// Simulator of the two-register stack machine.
pub struct ArchSim {}

impl ArchSim {
    /// Reads the program text `assembly` and runs it with the argument vector `argv`.
    /// The result depends on these two inputs alone.
    pub fn simulate(assembly: &String, argv: Vec<i32>) -> (r: Result<i32, SimulationError>)
        ensures
            r == simulation(assembly@, argv@),
    {
        run_text(assembly.as_str(), &argv)
    }
}

/// The text generated for a tree, read back and run, gives the tree's value.
pub proof fn lemma_generated_text_computes(t: Ast, args: Seq<i32>)
    ensures
        simulation(program_text(gen(t)), args) == eval(t, args),
{
    lemma_decode_program_text(gen(t));
    lemma_run_lines_decoded(program_text(gen(t)), initial_state(), args);
    lemma_generated_code_computes(t, args);
}

/// Folding constants before generating code never changes what the code computes,
/// for any argument vector; where folding fails, evaluation fails as well.
pub proof fn lemma_optimized_text_computes(t: Ast, args: Seq<i32>)
    ensures
        match fold(t) {
            Ok(u) => simulation(program_text(gen(u)), args) == eval(t, args),
            Err(_) => eval(t, args) is Err,
        },
{
    lemma_fold_preserves_eval(t, args);
    if let Ok(u) = fold(t) {
        lemma_generated_text_computes(u, args);
    }
}

/// A compiled source text, run against `args`, computes the value of the parsed tree.
pub proof fn lemma_compiled_source_computes(s: Seq<char>, args: Seq<i32>)
    ensures
        compilation(s) matches Ok(text) ==> parse_program(s) matches Ok(t) && simulation(
            text,
            args,
        ) == eval(t, args),
{
    if let Ok(t) = parse_program(s) {
        lemma_optimized_text_computes(t, args);
    }
}

} // verus!
