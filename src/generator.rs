use vstd::prelude::*;
use crate::ast::{apply, eval, is_leaf, leaf_value, Ast, Operator, SimulationError, Source};
use vstd::string::*;
use crate::assembly::{mnemonic, mnemonic_str, program_text, program_to_text};
use crate::machine::{
    initial_state, lemma_steps_append, op_instruction, run_spec, step, steps, Instruction, State,
};

verus! {

/// The instruction that loads a leaf into `r0`.
pub open spec fn load_instruction(src: Source, v: i32) -> Instruction {
    match src {
        Source::Imm => Instruction::LoadImmediate(v),
        Source::Arg => Instruction::LoadArgument(v),
    }
}

/// Code for a tree: it leaves the tree's value in `r0` and the stack as it found it.
/// A leaf left operand is loaded after its right sibling, a leaf right operand after
/// its left sibling; only when both operands are subtrees is the stack used.
pub open spec fn gen(t: Ast) -> Seq<Instruction>
    decreases t,
{
    match t {
        Ast::Value(src, v) => seq![load_instruction(src, v)],
        Ast::BinOp(op, l, r) => if is_leaf(*l) {
            gen(*r) + seq![Instruction::Swap] + gen(*l) + seq![op_instruction(op)]
        } else if is_leaf(*r) {
            gen(*l) + seq![Instruction::Swap] + gen(*r) + (if op == Operator::Sub || op
                == Operator::Div {
                seq![Instruction::Swap]
            } else {
                Seq::empty()
            }) + seq![op_instruction(op)]
        } else {
            gen(*l) + seq![Instruction::Push] + gen(*r) + seq![
                Instruction::Swap,
                Instruction::Pop,
                op_instruction(op),
            ]
        },
    }
}

/// What running the code of `t` from state `s` does.
pub open spec fn gen_effect(t: Ast, s: State, args: Seq<i32>) -> bool {
    match eval(t, args) {
        Ok(v) => steps(gen(t), s, args) matches Ok(s2) && s2.r0 == v && s2.stack == s.stack && (
        is_leaf(t) ==> s2.r1 == s.r1),
        Err(e) => steps(gen(t), s, args) == Err::<State, SimulationError>(e),
    }
}

proof fn lemma_single(i: Instruction, s: State, args: Seq<i32>)
    ensures
        steps(seq![i], s, args) == step(i, s, args),
{
    assert(seq![i].drop_first() =~= Seq::<Instruction>::empty());
    assert(seq![i][0] == i);
    if let Ok(s2) = step(i, s, args) {
        assert(steps(Seq::<Instruction>::empty(), s2, args) == Ok::<State, SimulationError>(s2));
    }
}

proof fn lemma_apply_commutes(op: Operator, a: i32, b: i32)
    requires
        op == Operator::Add || op == Operator::Mul,
    ensures
        apply(op, a, b) == apply(op, b, a),
{
    assert(a as int * b as int == b as int * a as int) by (nonlinear_arith);
}

proof fn lemma_left_leaf(op: Operator, l: Ast, r: Ast, s: State, args: Seq<i32>)
    requires
        is_leaf(l),
        forall|s0: State| #[trigger] gen_effect(l, s0, args),
        forall|s0: State| #[trigger] gen_effect(r, s0, args),
    ensures
        gen_effect(Ast::BinOp(op, Box::new(l), Box::new(r)), s, args),
{
    let t = Ast::BinOp(op, Box::new(l), Box::new(r));
    let oi = seq![op_instruction(op)];
    let sw = seq![Instruction::Swap];
    assert(gen(t) == gen(r) + sw + gen(l) + oi);
    assert(gen_effect(r, s, args));
    lemma_steps_append(gen(r) + sw + gen(l), oi, s, args);
    lemma_steps_append(gen(r) + sw, gen(l), s, args);
    lemma_steps_append(gen(r), sw, s, args);
    if let Ok(s1) = steps(gen(r), s, args) {
        lemma_single(Instruction::Swap, s1, args);
        let s2 = State { r0: s1.r1, r1: s1.r0, ..s1 };
        assert(gen_effect(l, s2, args));
        if let Ok(s3) = steps(gen(l), s2, args) {
            lemma_single(op_instruction(op), s3, args);
        }
    }
}

proof fn lemma_right_leaf(op: Operator, l: Ast, r: Ast, s: State, args: Seq<i32>)
    requires
        !is_leaf(l),
        is_leaf(r),
        forall|s0: State| #[trigger] gen_effect(l, s0, args),
        forall|s0: State| #[trigger] gen_effect(r, s0, args),
    ensures
        gen_effect(Ast::BinOp(op, Box::new(l), Box::new(r)), s, args),
{
    let t = Ast::BinOp(op, Box::new(l), Box::new(r));
    let oi = seq![op_instruction(op)];
    let sw = seq![Instruction::Swap];
    let extra = if op == Operator::Sub || op == Operator::Div {
        sw
    } else {
        Seq::empty()
    };
    assert(gen(t) == gen(l) + sw + gen(r) + extra + oi);
    assert(gen_effect(l, s, args));
    lemma_steps_append(gen(l) + sw + gen(r) + extra, oi, s, args);
    lemma_steps_append(gen(l) + sw + gen(r), extra, s, args);
    lemma_steps_append(gen(l) + sw, gen(r), s, args);
    lemma_steps_append(gen(l), sw, s, args);
    if let Ok(s1) = steps(gen(l), s, args) {
        lemma_single(Instruction::Swap, s1, args);
        let s2 = State { r0: s1.r1, r1: s1.r0, ..s1 };
        assert(gen_effect(r, s2, args));
        if let Ok(s3) = steps(gen(r), s2, args) {
            if op == Operator::Sub || op == Operator::Div {
                lemma_single(Instruction::Swap, s3, args);
                let s4 = State { r0: s3.r1, r1: s3.r0, ..s3 };
                lemma_single(op_instruction(op), s4, args);
            } else {
                assert(steps(extra, s3, args) == Ok::<State, SimulationError>(s3));
                lemma_single(op_instruction(op), s3, args);
                lemma_apply_commutes(op, s3.r0, s3.r1);
            }
        }
    }
}

proof fn lemma_no_leaf(op: Operator, l: Ast, r: Ast, s: State, args: Seq<i32>)
    requires
        !is_leaf(l),
        !is_leaf(r),
        forall|s0: State| #[trigger] gen_effect(l, s0, args),
        forall|s0: State| #[trigger] gen_effect(r, s0, args),
    ensures
        gen_effect(Ast::BinOp(op, Box::new(l), Box::new(r)), s, args),
{
    let t = Ast::BinOp(op, Box::new(l), Box::new(r));
    let oi = seq![op_instruction(op)];
    let tail = seq![Instruction::Swap, Instruction::Pop, op_instruction(op)];
    let pu = seq![Instruction::Push];
    assert(gen(t) == gen(l) + pu + gen(r) + tail);
    assert(gen_effect(l, s, args));
    lemma_steps_append(gen(l) + pu + gen(r), tail, s, args);
    lemma_steps_append(gen(l) + pu, gen(r), s, args);
    lemma_steps_append(gen(l), pu, s, args);
    if let Ok(s1) = steps(gen(l), s, args) {
        lemma_single(Instruction::Push, s1, args);
        let s2 = State { stack: s1.stack.push(s1.r0), ..s1 };
        assert(gen_effect(r, s2, args));
        if let Ok(s3) = steps(gen(r), s2, args) {
            let s4 = State { r0: s3.r1, r1: s3.r0, ..s3 };
            let s5 = State { r0: s4.stack.last(), stack: s4.stack.drop_last(), ..s4 };
            assert(s5.stack =~= s.stack);
            assert(tail.drop_first() =~= seq![Instruction::Pop, op_instruction(op)]);
            assert(tail.drop_first().drop_first() =~= oi);
            assert(steps(tail, s3, args) == steps(tail.drop_first(), s4, args));
            assert(steps(tail.drop_first(), s4, args) == steps(oi, s5, args));
            lemma_single(op_instruction(op), s5, args);
        }
    }
}

/// The code of a tree computes the tree's value, whatever state it starts from.
pub proof fn lemma_gen_effect(t: Ast, args: Seq<i32>)
    ensures
        forall|s: State| #[trigger] gen_effect(t, s, args),
    decreases t,
{
    match t {
        Ast::Value(src, v) => {
            assert forall|s: State| #[trigger] gen_effect(t, s, args) by {
                lemma_single(load_instruction(src, v), s, args);
                assert(gen(t) == seq![load_instruction(src, v)]);
            }
        },
        Ast::BinOp(op, l, r) => {
            lemma_gen_effect(*l, args);
            lemma_gen_effect(*r, args);
            assert forall|s: State| #[trigger] gen_effect(t, s, args) by {
                if is_leaf(*l) {
                    lemma_left_leaf(op, *l, *r, s, args);
                } else if is_leaf(*r) {
                    lemma_right_leaf(op, *l, *r, s, args);
                } else {
                    lemma_no_leaf(op, *l, *r, s, args);
                }
            }
        },
    }
}

/// Running the code generated for a tree gives exactly the tree's value, or the
/// failure its evaluation meets.
pub proof fn lemma_generated_code_computes(t: Ast, args: Seq<i32>)
    ensures
        run_spec(gen(t), args) == eval(t, args),
{
    lemma_gen_effect(t, args);
    assert(gen_effect(t, initial_state(), args));
}

fn load(src: Source, v: i32) -> (r: Instruction)
    ensures
        r == load_instruction(src, v),
{
    match src {
        Source::Imm => Instruction::LoadImmediate(v),
        Source::Arg => Instruction::LoadArgument(v),
    }
}

fn operation(op: Operator) -> (r: Instruction)
    ensures
        r == op_instruction(op),
{
    match op {
        Operator::Add => Instruction::Add,
        Operator::Sub => Instruction::Subtract,
        Operator::Mul => Instruction::Multiply,
        Operator::Div => Instruction::Divide,
    }
}

/// Appends the code of `t` to `out`.
pub fn emit(t: &Ast, out: &mut Vec<Instruction>)
    ensures
        final(out)@ == old(out)@ + gen(*t),
    decreases t,
{
    match t {
        Ast::Value(src, v) => {
            out.push(load(*src, *v));
        },
        Ast::BinOp(op, l, r) => {
            let ghost o = out@;
            let leaf_left = match &**l {
                Ast::Value(_, _) => true,
                _ => false,
            };
            let leaf_right = match &**r {
                Ast::Value(_, _) => true,
                _ => false,
            };
            if leaf_left {
                emit(r, out);
                out.push(Instruction::Swap);
                emit(l, out);
                out.push(operation(*op));
                assert(out@ =~= o + gen(*t));
            } else if leaf_right {
                emit(l, out);
                out.push(Instruction::Swap);
                emit(r, out);
                if *op == Operator::Sub || *op == Operator::Div {
                    out.push(Instruction::Swap);
                }
                out.push(operation(*op));
                assert(out@ =~= o + gen(*t));
            } else {
                emit(l, out);
                out.push(Instruction::Push);
                emit(r, out);
                out.push(Instruction::Swap);
                out.push(Instruction::Pop);
                out.push(operation(*op));
                assert(out@ =~= o + gen(*t));
            }
        },
    }
}

/// The instruction sequence of a tree.
pub fn generate(t: &Ast) -> (r: Vec<Instruction>)
    ensures
        r@ == gen(*t),
{
    let mut out: Vec<Instruction> = Vec::new();
    emit(t, &mut out);
    assert(out@ =~= gen(*t));
    out
}

} // verus!

verus! {

/// Things that have a text in the machine's instruction language.
pub trait CodeGeneration {
    spec fn code(&self) -> Seq<char>;

    fn generate_code(&self) -> (r: String)
        ensures
            r@ == self.code(),
    ;
}

impl CodeGeneration for Ast {
    /// The program text of the tree's instruction sequence.
    open spec fn code(&self) -> Seq<char> {
        program_text(gen(*self))
    }

    fn generate_code(&self) -> (r: String) {
        program_to_text(&generate(self))
    }
}

impl CodeGeneration for Operator {
    /// The mnemonic of the instruction that applies the operator.
    open spec fn code(&self) -> Seq<char> {
        mnemonic(op_instruction(*self))
    }

    fn generate_code(&self) -> (r: String) {
        String::from_str(mnemonic_str(operation(*self)))
    }
}

impl CodeGeneration for Source {
    /// The mnemonic of the instruction that loads such a leaf.
    open spec fn code(&self) -> Seq<char> {
        mnemonic(load_instruction(*self, 0))
    }

    fn generate_code(&self) -> (r: String) {
        String::from_str(mnemonic_str(load(*self, 0)))
    }
}

} // verus!
