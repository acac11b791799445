//! The syntax tree, generic over how a called function is referenced: by
//! name before linking, by [`FunctionId`](crate::library::FunctionId) after.

use vstd::prelude::*;

verus! {

/// A value produced by a literal, passed as an argument or returned by a call.
#[derive(Clone, Copy, PartialEq, Eq, Structural, Debug)]
pub enum Value {
    Unit,
    Bool(bool),
    Int(i64),
}

/// An expression whose calls reference functions by `F`.
#[allow(inconsistent_fields)]
#[derive(Debug)]
pub enum Expression<F> {
    Variable { name: String },
    Literal { value: Value },
    Call { name: F, args: Vec<Expression<F>> },
}

/// A statement whose calls reference functions by `F`.
#[derive(Debug)]
pub enum Statement<F> {
    Pass,
    Expression(Expression<F>),
    If { condition: Expression<F>, then_block: Vec<Statement<F>>, else_block: Vec<Statement<F>> },
}

/// The body of a function: statements to interpret, or an implementation
/// that the host provides.
#[derive(Debug)]
pub enum Body<F> {
    Local(Vec<Statement<F>>),
    External,
}

/// A named function with its parameter names and body.
#[derive(Debug)]
pub struct Function<F> {
    pub name: String,
    pub args: Vec<String>,
    pub body: Body<F>,
}

/// An ordered collection of functions, referencing each other by name.
#[derive(Debug)]
pub struct Module {
    pub functions: Vec<Function<String>>,
}

impl Module {
    pub fn new(functions: Vec<Function<String>>) -> (r: Module)
        ensures
            r.functions == functions,
    {
        Module { functions }
    }

    /// The functions, in declaration order.
    pub fn functions(&self) -> (r: &Vec<Function<String>>)
        ensures
            r == &self.functions,
    {
        &self.functions
    }
}

impl<F> Function<F> {
    /// The name that calls refer to before linking.
    pub fn name(&self) -> (r: &String)
        ensures
            r == &self.name,
    {
        &self.name
    }
}

/// An expression is worth expanding when it is a call.
pub open spec fn expression_has_call<F>(e: Expression<F>) -> bool {
    e is Call
}

/// A statement is worth expanding when it holds a call somewhere inside it.
pub open spec fn statement_has_call<F>(s: Statement<F>) -> bool
    decreases s, 0int,
{
    match s {
        Statement::Pass => false,
        Statement::Expression(e) => expression_has_call(e),
        Statement::If { condition, then_block, else_block } => {
            expression_has_call(condition) || prefix_has_call(then_block@, then_block.len() as int)
                || prefix_has_call(else_block@, else_block.len() as int)
        },
    }
}

/// Whether one of the first `n` statements of `stmts` holds a call.
pub open spec fn prefix_has_call<F>(stmts: Seq<Statement<F>>, n: int) -> bool
    decreases stmts, n,
{
    if n <= 0 || n > stmts.len() {
        false
    } else {
        prefix_has_call(stmts, n - 1) || statement_has_call(stmts[n - 1])
    }
}

/// A sequence of statements is worth expanding when one of them is.
pub open spec fn block_has_call<F>(stmts: Seq<Statement<F>>) -> bool {
    prefix_has_call(stmts, stmts.len() as int)
}

proof fn lemma_prefix_has_call_grows<F>(stmts: Seq<Statement<F>>, k: int, n: int)
    requires
        prefix_has_call(stmts, k),
        k <= n <= stmts.len(),
    ensures
        prefix_has_call(stmts, n),
    decreases n - k,
{
    if k < n {
        lemma_prefix_has_call_grows(stmts, k, n - 1);
    }
}

/// Whether `expression` is a call, worth showing expanded.
pub fn expression_is_expandable<F>(expression: &Expression<F>) -> (r: bool)
    ensures
        r == expression_has_call(*expression),
{
    match expression {
        Expression::Call { .. } => true,
        _ => false,
    }
}

/// Whether `stmt` holds a call anywhere inside it, worth showing expanded.
pub fn statement_is_expandable<F>(stmt: &Statement<F>) -> (r: bool)
    ensures
        r == statement_has_call(*stmt),
    decreases stmt,
{
    match stmt {
        Statement::Pass => false,
        Statement::Expression(e) => expression_is_expandable(e),
        Statement::If { condition, then_block, else_block } => {
            expression_is_expandable(condition) || block_is_expandable(then_block)
                || block_is_expandable(else_block)
        },
    }
}

fn block_is_expandable<F>(stmts: &Vec<Statement<F>>) -> (r: bool)
    ensures
        r == block_has_call(stmts@),
    decreases stmts,
{
    let mut i: usize = 0;
    while i < stmts.len()
        invariant
            i <= stmts.len(),
            !prefix_has_call(stmts@, i as int),
        decreases stmts.len() - i,
    {
        if statement_is_expandable(&stmts[i]) {
            proof {
                lemma_prefix_has_call_grows(stmts@, i + 1, stmts@.len() as int);
            }
            return true;
        }
        i = i + 1;
    }
    false
}

/// Whether any of `stmts` holds a call.
pub fn is_expandable<F>(stmts: &[Statement<F>]) -> (r: bool)
    ensures
        r == block_has_call(stmts@),
{
    let mut i: usize = 0;
    while i < stmts.len()
        invariant
            i <= stmts@.len(),
            !prefix_has_call(stmts@, i as int),
        decreases stmts@.len() - i,
    {
        if statement_is_expandable(&stmts[i]) {
            proof {
                lemma_prefix_has_call_grows(stmts@, i + 1, stmts@.len() as int);
            }
            return true;
        }
        i = i + 1;
    }
    false
}

} // verus!
