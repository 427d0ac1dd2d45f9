use vstd::prelude::*;
use vstd::string::*;
use crate::ast::{ast_text, apply, apply_op, eval, is_leaf, ArithmeticError, Ast, CompileError, Source};

verus! {

/// Bottom-up constant folding: an operation whose two folded operands are constants
/// becomes the constant it computes.
pub open spec fn fold(t: Ast) -> Result<Ast, ArithmeticError>
    decreases t,
{
    match t {
        Ast::Value(_, _) => Ok(t),
        Ast::BinOp(op, l, r) => match fold(*l) {
            Err(e) => Err(e),
            Ok(l2) => match fold(*r) {
                Err(e) => Err(e),
                Ok(r2) => match (l2, r2) {
                    (Ast::Value(Source::Imm, a), Ast::Value(Source::Imm, b)) => match apply(
                        op,
                        a,
                        b,
                    ) {
                        Ok(v) => Ok(Ast::Value(Source::Imm, v)),
                        Err(e) => Err(e),
                    },
                    _ => Ok(Ast::BinOp(op, Box::new(l2), Box::new(r2))),
                },
            },
        },
    }
}

pub open spec fn is_imm(t: Ast) -> bool {
    t matches Ast::Value(Source::Imm, _)
}

/// No operation anywhere in the tree has two constant operands.
pub open spec fn fully_folded(t: Ast) -> bool
    decreases t,
{
    match t {
        Ast::Value(_, _) => true,
        Ast::BinOp(_, l, r) => !(is_imm(*l) && is_imm(*r)) && fully_folded(*l) && fully_folded(
            *r,
        ),
    }
}

/// Folding leaves no operation with two constant operands, and a leaf only where
/// there was one or where the result is a constant.
pub proof fn lemma_fold_folded(t: Ast)
    ensures
        fold(t) matches Ok(u) ==> fully_folded(u) && (is_leaf(u) && !is_leaf(t) ==> is_imm(u)),
    decreases t,
{
    if let Ast::BinOp(op, l, r) = t {
        lemma_fold_folded(*l);
        lemma_fold_folded(*r);
    }
}

/// A tree without foldable operations is left as it is.
pub proof fn lemma_fold_fixed(t: Ast)
    requires
        fully_folded(t),
    ensures
        fold(t) == Ok::<Ast, ArithmeticError>(t),
    decreases t,
{
    if let Ast::BinOp(op, l, r) = t {
        lemma_fold_fixed(*l);
        lemma_fold_fixed(*r);
    }
}

/// Folding twice is folding once.
pub proof fn lemma_fold_idempotent(t: Ast)
    ensures
        fold(t) matches Ok(u) ==> fold(u) == Ok::<Ast, ArithmeticError>(u),
{
    lemma_fold_folded(t);
    if let Ok(u) = fold(t) {
        lemma_fold_fixed(u);
    }
}

/// Folding never changes a tree's value under any argument vector, and a tree whose
/// folding fails fails under every argument vector.
pub proof fn lemma_fold_preserves_eval(t: Ast, args: Seq<i32>)
    ensures
        match fold(t) {
            Ok(u) => eval(u, args) == eval(t, args),
            Err(_) => eval(t, args) is Err,
        },
    decreases t,
{
    if let Ast::BinOp(op, l, r) = t {
        lemma_fold_preserves_eval(*l, args);
        lemma_fold_preserves_eval(*r, args);
        lemma_fold_folded(*l);
        lemma_fold_folded(*r);
    }
}

/// Constant folder that keeps the last tree it was given and what it made of it.
#[derive(Debug)]
pub struct Optimizer {
    pub original: Ast,
    pub optimized: Ast,
}

impl Default for Optimizer {
    fn default() -> (r: Self)
        ensures
            r.original == Ast::Value(Source::Imm, 0),
            r.optimized == Ast::Value(Source::Imm, 0),
    {
        Optimizer { original: Ast::Value(Source::Imm, 0), optimized: Ast::Value(Source::Imm, 0) }
    }
}

impl Optimizer {
    /// Folds the constants of `ast`; a failing constant operation fails the whole call.
    pub fn optimize(&mut self, ast: Ast) -> (r: Result<Ast, CompileError>)
        ensures
            match fold(ast) {
                Ok(u) => r == Ok::<Ast, CompileError>(u) && final(self).original == ast
                    && final(self).optimized == u,
                Err(e) => r == Err::<Ast, CompileError>(CompileError::Arithmetic(e)),
            },
            r matches Ok(u) ==> fully_folded(u),
    {
        proof {
            lemma_fold_folded(ast);
        }
        self.original = ast.copy();
        match Self::optimize_recursion(ast) {
            Ok(u) => {
                self.optimized = u.copy();
                Ok(u)
            },
            Err(e) => Err(CompileError::Arithmetic(e)),
        }
    }

    pub open spec fn describe_text(&self) -> Seq<char> {
        "Optimizer state:\noriginal: "@ + ast_text(self.original) + "\noptimized: "@ + ast_text(
            self.optimized,
        )
    }

    /// The last tree given and what folding made of it, in prefix notation.
    pub fn describe(&self) -> (r: String)
        ensures
            r@ == self.describe_text(),
    {
        let mut out = String::from_str("Optimizer state:\noriginal: ");
        out.append(self.original.to_text().as_str());
        out.append("\noptimized: ");
        out.append(self.optimized.to_text().as_str());
        out
    }

    /// Folds the constants of `ast`, children first.
    fn optimize_recursion(ast: Ast) -> (r: Result<Ast, ArithmeticError>)
        ensures
            r == fold(ast),
        decreases ast,
    {
        match ast {
            Ast::Value(src, v) => Ok(Ast::Value(src, v)),
            Ast::BinOp(op, left, right) => {
                let l = match Self::optimize_recursion(*left) {
                    Ok(x) => x,
                    Err(e) => return Err(e),
                };
                let r = match Self::optimize_recursion(*right) {
                    Ok(x) => x,
                    Err(e) => return Err(e),
                };
                if let Ast::Value(Source::Imm, a) = l {
                    if let Ast::Value(Source::Imm, b) = r {
                        return match apply_op(op, a, b) {
                            Ok(v) => Ok(Ast::Value(Source::Imm, v)),
                            Err(e) => Err(e),
                        };
                    }
                }
                Ok(Ast::binop(op, l, r))
            },
        }
    }
}

} // verus!
