use vstd::prelude::*;
use crate::ast::{apply, apply_op, leaf_value, Operator, SimulationError, Source};

verus! {

/// One instruction of the two-register stack machine.
#[derive(Clone, Copy, Debug, PartialEq, Eq, Structural)]
pub enum Instruction {
    LoadImmediate(i32),
    LoadArgument(i32),
    Swap,
    Push,
    Pop,
    Add,
    Subtract,
    Multiply,
    Divide,
}

/// Registers and stack of the machine.
pub struct State {
    pub r0: i32,
    pub r1: i32,
    pub stack: Seq<i32>,
}

pub open spec fn initial_state() -> State {
    State { r0: 0, r1: 0, stack: Seq::empty() }
}

/// The instruction that combines `r0` and `r1` with `op`.
pub open spec fn op_instruction(op: Operator) -> Instruction {
    match op {
        Operator::Add => Instruction::Add,
        Operator::Sub => Instruction::Subtract,
        Operator::Mul => Instruction::Multiply,
        Operator::Div => Instruction::Divide,
    }
}

pub open spec fn combine(op: Operator, s: State) -> Result<State, SimulationError> {
    match apply(op, s.r0, s.r1) {
        Ok(v) => Ok(State { r0: v, ..s }),
        Err(e) => Err(SimulationError::Arithmetic(e)),
    }
}

/// Effect of one instruction.
pub open spec fn step(ins: Instruction, s: State, args: Seq<i32>) -> Result<State, SimulationError> {
    match ins {
        Instruction::LoadImmediate(n) => Ok(State { r0: n, ..s }),
        Instruction::LoadArgument(i) => match leaf_value(Source::Arg, i, args) {
            Ok(v) => Ok(State { r0: v, ..s }),
            Err(e) => Err(e),
        },
        Instruction::Swap => Ok(State { r0: s.r1, r1: s.r0, ..s }),
        Instruction::Push => Ok(State { stack: s.stack.push(s.r0), ..s }),
        Instruction::Pop => if s.stack.len() == 0 {
            Err(SimulationError::StackUnderflow)
        } else {
            Ok(State { r0: s.stack.last(), stack: s.stack.drop_last(), ..s })
        },
        Instruction::Add => combine(Operator::Add, s),
        Instruction::Subtract => combine(Operator::Sub, s),
        Instruction::Multiply => combine(Operator::Mul, s),
        Instruction::Divide => combine(Operator::Div, s),
    }
}

/// Effect of a whole instruction sequence, run in order, stopping at the first failure.
pub open spec fn steps(p: Seq<Instruction>, s: State, args: Seq<i32>) -> Result<State, SimulationError>
    decreases p.len(),
{
    if p.len() == 0 {
        Ok(s)
    } else {
        match step(p[0], s, args) {
            Ok(s2) => steps(p.drop_first(), s2, args),
            Err(e) => Err(e),
        }
    }
}

/// Result of running `p` from the initial state: the final `r0`.
pub open spec fn run_spec(p: Seq<Instruction>, args: Seq<i32>) -> Result<i32, SimulationError> {
    match steps(p, initial_state(), args) {
        Ok(s) => Ok(s.r0),
        Err(e) => Err(e),
    }
}

/// Running two sequences one after the other is running their concatenation.
pub proof fn lemma_steps_append(a: Seq<Instruction>, b: Seq<Instruction>, s: State, args: Seq<i32>)
    ensures
        steps(a + b, s, args) == match steps(a, s, args) {
            Ok(s2) => steps(b, s2, args),
            Err(e) => Err(e),
        },
    decreases a.len(),
{
    if a.len() == 0 {
        assert(a + b =~= b);
    } else {
        assert((a + b).drop_first() =~= a.drop_first() + b);
        assert((a + b)[0] == a[0]);
        match step(a[0], s, args) {
            Ok(s2) => lemma_steps_append(a.drop_first(), b, s2, args),
            Err(e) => {},
        }
    }
}

/// Executes one instruction on the registers `r0`, `r1` and `stack`; gives the new registers.
pub fn execute(ins: Instruction, r0: i32, r1: i32, stack: &mut Vec<i32>, args: &Vec<i32>) -> (r:
    Result<(i32, i32), SimulationError>)
    ensures
        match step(ins, State { r0, r1, stack: old(stack)@ }, args@) {
            Ok(s) => r == Ok::<(i32, i32), SimulationError>((s.r0, s.r1)) && final(stack)@
                == s.stack,
            Err(e) => r == Err::<(i32, i32), SimulationError>(e),
        },
{
    let op = match ins {
        Instruction::LoadImmediate(v) => {
            return Ok((v, r1));
        },
        Instruction::LoadArgument(k) => {
            if k < 0 || k as usize >= args.len() {
                return Err(SimulationError::ArgumentIndexOutOfRange);
            }
            return Ok((args[k as usize], r1));
        },
        Instruction::Swap => {
            return Ok((r1, r0));
        },
        Instruction::Push => {
            stack.push(r0);
            return Ok((r0, r1));
        },
        Instruction::Pop => {
            return match stack.pop() {
                Some(v) => Ok((v, r1)),
                None => Err(SimulationError::StackUnderflow),
            };
        },
        Instruction::Add => Operator::Add,
        Instruction::Subtract => Operator::Sub,
        Instruction::Multiply => Operator::Mul,
        Instruction::Divide => Operator::Div,
    };
    match apply_op(op, r0, r1) {
        Ok(v) => Ok((v, r1)),
        Err(e) => Err(SimulationError::Arithmetic(e)),
    }
}

/// Runs `program` against the argument vector `args`.
pub fn run(program: &Vec<Instruction>, args: &Vec<i32>) -> (r: Result<i32, SimulationError>)
    ensures
        r == run_spec(program@, args@),
{
    let mut r0: i32 = 0;
    let mut r1: i32 = 0;
    let mut stack: Vec<i32> = Vec::new();
    let n = program.len();
    let mut i: usize = 0;
    assert(program@.subrange(0, n as int) =~= program@);
    assert(stack@ =~= Seq::<i32>::empty());
    while i < n
        invariant
            n == program@.len(),
            i <= n,
            run_spec(program@, args@) == match steps(
                program@.subrange(i as int, n as int),
                State { r0, r1, stack: stack@ },
                args@,
            ) {
                Ok(s) => Ok(s.r0),
                Err(e) => Err(e),
            },
        decreases n - i,
    {
        let ghost rest = program@.subrange(i as int, n as int);
        assert(rest.drop_first() =~= program@.subrange(i + 1, n as int));
        assert(rest[0] == program@[i as int]);
        match execute(program[i], r0, r1, &mut stack, args) {
            Ok((a, b)) => {
                r0 = a;
                r1 = b;
            },
            Err(e) => {
                return Err(e);
            },
        }
        i = i + 1;
    }
    assert(program@.subrange(n as int, n as int).len() == 0);
    Ok(r0)
}

} // verus!
