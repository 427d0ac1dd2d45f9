use vstd::prelude::*;
use vstd::string::*;
use crate::assembly::{int_text, push_int};

verus! {

/// Binary operators of the expression language.
#[derive(Clone, Copy, Debug, PartialEq, Eq, Structural)]
pub enum Operator {
    Add,
    Sub,
    Mul,
    Div,
}

/// Where the integer of a leaf comes from: a parameter index or a constant.
#[derive(Clone, Copy, Debug, PartialEq, Eq, Structural)]
pub enum Source {
    Arg,
    Imm,
}

/// Expression tree.
#[derive(Debug, PartialEq, Eq)]
pub enum Ast {
    BinOp(Operator, Box<Ast>, Box<Ast>),
    Value(Source, i32),
}

/// Failures of the integer arithmetic shared by constant folding and the machine.
#[derive(Clone, Copy, Debug, PartialEq, Eq, Structural)]
pub enum ArithmeticError {
    DivisionByZero,
    Overflow,
}

/// Failures of evaluating a tree or running a program.
#[derive(Clone, Copy, Debug, PartialEq, Eq, Structural)]
pub enum SimulationError {
    Arithmetic(ArithmeticError),
    StackUnderflow,
    ArgumentIndexOutOfRange,
    MalformedInstruction,
}

/// Division rounding toward zero.
pub open spec fn trunc_div(a: int, b: int) -> int {
    let q = abs(a) / abs(b);
    if (a < 0) != (b < 0) {
        -q
    } else {
        q
    }
}

pub open spec fn abs(a: int) -> int {
    if a < 0 {
        -a
    } else {
        a
    }
}

pub open spec fn in_i32(v: int) -> bool {
    i32::MIN <= v <= i32::MAX
}

/// The mathematical result of `op` on two integers (division truncates; unspecified for zero).
pub open spec fn op_value(op: Operator, a: int, b: int) -> int {
    match op {
        Operator::Add => a + b,
        Operator::Sub => a - b,
        Operator::Mul => a * b,
        Operator::Div => trunc_div(a, b),
    }
}

/// 32-bit arithmetic that fails on a zero divisor and on results outside the type.
pub open spec fn apply(op: Operator, a: i32, b: i32) -> Result<i32, ArithmeticError> {
    if op == Operator::Div && b == 0 {
        Err(ArithmeticError::DivisionByZero)
    } else if in_i32(op_value(op, a as int, b as int)) {
        Ok(op_value(op, a as int, b as int) as i32)
    } else {
        Err(ArithmeticError::Overflow)
    }
}

/// Value of a leaf under the argument vector `args`.
pub open spec fn leaf_value(src: Source, v: i32, args: Seq<i32>) -> Result<i32, SimulationError> {
    match src {
        Source::Imm => Ok(v),
        Source::Arg => if 0 <= v < args.len() {
            Ok(args[v as int])
        } else {
            Err(SimulationError::ArgumentIndexOutOfRange)
        },
    }
}

pub open spec fn is_leaf(t: Ast) -> bool {
    t is Value
}

/// Value of a tree under `args`. Operands are computed in the order the generated
/// code runs them: the left one first, unless it is a leaf, which is read last.
pub open spec fn eval(t: Ast, args: Seq<i32>) -> Result<i32, SimulationError>
    decreases t,
{
    match t {
        Ast::Value(src, v) => leaf_value(src, v, args),
        Ast::BinOp(op, l, r) => {
            let (first, second) = if is_leaf(*l) {
                (eval(*r, args), eval(*l, args))
            } else {
                (eval(*l, args), eval(*r, args))
            };
            match first {
                Err(e) => Err(e),
                Ok(x) => match second {
                    Err(e) => Err(e),
                    Ok(y) => {
                        let (a, b) = if is_leaf(*l) { (y, x) } else { (x, y) };
                        match apply(op, a, b) {
                            Ok(v) => Ok(v),
                            Err(e) => Err(SimulationError::Arithmetic(e)),
                        }
                    },
                },
            }
        },
    }
}

/// Executes `op` on two 32-bit integers.
pub fn apply_op(op: Operator, a: i32, b: i32) -> (r: Result<i32, ArithmeticError>)
    ensures
        r == apply(op, a, b),
{
    match op {
        Operator::Add => match a.checked_add(b) {
            Some(v) => Ok(v),
            None => Err(ArithmeticError::Overflow),
        },
        Operator::Sub => match a.checked_sub(b) {
            Some(v) => Ok(v),
            None => Err(ArithmeticError::Overflow),
        },
        Operator::Mul => match a.checked_mul(b) {
            Some(v) => Ok(v),
            None => Err(ArithmeticError::Overflow),
        },
        Operator::Div => {
            if b == 0 {
                Err(ArithmeticError::DivisionByZero)
            } else {
                match a.checked_div(b) {
                    Some(v) => Ok(v),
                    None => Err(ArithmeticError::Overflow),
                }
            }
        },
    }
}

impl Ast {
    pub fn binop(op: Operator, a: Self, b: Self) -> (r: Self)
        ensures
            r == Ast::BinOp(op, Box::new(a), Box::new(b)),
    {
        Self::BinOp(op, Box::new(a), Box::new(b))
    }

    /// A deep copy.
    pub fn copy(&self) -> (r: Self)
        ensures
            r == *self,
        decreases self,
    {
        match self {
            Ast::Value(src, v) => Ast::Value(*src, *v),
            Ast::BinOp(op, l, r) => Ast::BinOp(*op, Box::new(l.copy()), Box::new(r.copy())),
        }
    }
}

impl Clone for Ast {
    fn clone(&self) -> (r: Self)
        ensures
            r == *self,
    {
        self.copy()
    }
}

impl Default for Ast {
    fn default() -> (r: Self)
        ensures
            r == Ast::Value(Source::Imm, 0),
    {
        Ast::Value(Source::Imm, 0)
    }
}

} // verus!

verus! {

/// Failures of compiling source text.
#[derive(Clone, Copy, Debug, PartialEq, Eq, Structural)]
pub enum CompileError {
    /// A character that no token starts with.
    InvalidCharacter,
    /// A number literal that does not fit in 32 bits.
    LiteralOutOfRange,
    /// More distinct names than a 32-bit index can number.
    TooManyNames,
    /// No closing bracket, an unexpected or missing token, or unbalanced parentheses.
    MalformedProgram,
    /// Constant folding met a failing operation.
    Arithmetic(ArithmeticError),
}

} // verus!

verus! {

pub open spec fn source_name(s: Source) -> Seq<char> {
    match s {
        Source::Arg => seq!['a', 'r', 'g'],
        Source::Imm => seq!['i', 'm', 'm'],
    }
}

pub open spec fn operator_symbol(op: Operator) -> Seq<char> {
    match op {
        Operator::Add => seq!['+'],
        Operator::Sub => seq!['-'],
        Operator::Mul => seq!['*'],
        Operator::Div => seq!['/'],
    }
}

/// Prefix notation of a tree: `imm[3]`, `arg[0]`, `(+ imm[3] arg[0])`.
pub open spec fn ast_text(t: Ast) -> Seq<char>
    decreases t,
{
    match t {
        Ast::Value(src, v) => source_name(src) + seq!['['] + int_text(v as int) + seq![']'],
        Ast::BinOp(op, l, r) => seq!['('] + operator_symbol(op) + seq![' '] + ast_text(*l) + seq![
            ' ',
        ] + ast_text(*r) + seq![')'],
    }
}

impl Source {
    /// `arg` or `imm`.
    pub fn name(&self) -> (r: &'static str)
        ensures
            r@ == source_name(*self),
    {
        proof {
            reveal_strlit("arg");
            reveal_strlit("imm");
        }
        match self {
            Source::Arg => "arg",
            Source::Imm => "imm",
        }
    }
}

impl Operator {
    /// The operator's sign.
    pub fn symbol(&self) -> (r: &'static str)
        ensures
            r@ == operator_symbol(*self),
    {
        proof {
            reveal_strlit("+");
            reveal_strlit("-");
            reveal_strlit("*");
            reveal_strlit("/");
        }
        match self {
            Operator::Add => "+",
            Operator::Sub => "-",
            Operator::Mul => "*",
            Operator::Div => "/",
        }
    }
}

impl Ast {
    fn push_text(&self, out: &mut String)
        ensures
            final(out)@ == old(out)@ + ast_text(*self),
        decreases self,
    {
        proof {
            reveal_strlit("[");
            reveal_strlit("]");
            reveal_strlit("(");
            reveal_strlit(")");
            reveal_strlit(" ");
        }
        match self {
            Ast::Value(src, v) => {
                out.append(src.name());
                out.append("[");
                push_int(out, *v);
                out.append("]");
            },
            Ast::BinOp(op, l, r) => {
                out.append("(");
                out.append(op.symbol());
                out.append(" ");
                l.push_text(out);
                out.append(" ");
                r.push_text(out);
                out.append(")");
            },
        }
        assert(final(out)@ =~= old(out)@ + ast_text(*self));
    }

    /// The tree in prefix notation.
    pub fn to_text(&self) -> (r: String)
        ensures
            r@ == ast_text(*self),
    {
        let mut out = String::new();
        self.push_text(&mut out);
        assert(out@ =~= ast_text(*self));
        out
    }
}

} // verus!
