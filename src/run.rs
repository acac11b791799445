//! The interpreter: runs a [`Library`] from its entry point and records the
//! state of every call path it reaches in a [`RunTracer`].

use crate::library::{
    args_ids_below, block_ids_below, expression_ids_below, statement_ids_below, FunctionId,
    Library,
};
use crate::syntax_tree::{Body, Expression, Statement, Value};
pub use crate::tracer::{state_of, CallStack, RunState, RunTracer, StackFrame};
use tokio::sync::watch::Sender;
use vstd::prelude::*;

verus! {

/// Why evaluation of interpreted code failed.
#[derive(Clone, Copy, PartialEq, Eq, Structural, Debug)]
pub enum RuntimeError {
    /// A variable that is not a parameter of the running function.
    UnboundVariable,
    /// A branch condition that is not a boolean.
    NotABoolean,
    /// A call whose number of arguments differs from the callee's number of
    /// parameters.
    ArityMismatch,
    /// Calls nested deeper than [`MAX_CALL_DEPTH`].
    DepthExceeded,
    /// The host reported that an external function failed.
    ExternalFailed,
}

/// How deep calls may nest in one run.
pub const MAX_CALL_DEPTH: usize = 200;

/// The implementation of the functions whose body is `External`.
pub trait Host {
    /// What calling external function `id` with `args` produces.
    spec fn outcome(&self, id: FunctionId, args: Seq<Value>) -> Result<Value, RuntimeError>;

    fn call_external(&self, id: FunctionId, args: &Vec<Value>) -> (r: Result<Value, RuntimeError>)
        ensures
            r == self.outcome(id, args@),
    ;
}

/// A host whose external functions return `Unit`, except those listed, which
/// fail.
pub struct FixedHost {
    pub failing: Vec<FunctionId>,
}

impl FixedHost {
    pub fn new(failing: Vec<FunctionId>) -> (r: FixedHost)
        ensures
            r.failing == failing,
    {
        FixedHost { failing }
    }
}

impl Host for FixedHost {
    open spec fn outcome(&self, id: FunctionId, args: Seq<Value>) -> Result<Value, RuntimeError> {
        if self.failing@.contains(id) {
            Err(RuntimeError::ExternalFailed)
        } else {
            Ok(Value::Unit)
        }
    }

    fn call_external(&self, id: FunctionId, args: &Vec<Value>) -> (r: Result<Value, RuntimeError>) {
        let mut i: usize = 0;
        while i < self.failing.len()
            invariant
                i <= self.failing.len(),
                forall|j: int| 0 <= j < i ==> self.failing@[j] != id,
            decreases self.failing.len() - i,
        {
            if self.failing[i] == id {
                return Err(RuntimeError::ExternalFailed);
            }
            i = i + 1;
        }
        Ok(Value::Unit)
    }
}

/// tokio's single-slot, last-value-wins channel sender, carried as an opaque
/// value.
#[verifier::external_type_specification]
#[verifier::external_body]
#[verifier::reject_recursive_types(T)]
pub struct ExSender<T>(Sender<T>);

/// Relies on tokio's `watch::Sender::send_replace`: makes `snapshot` the
/// channel's latest value, whether or not any receiver is left, and returns
/// without waiting on one.
#[verifier::external_body]
fn publish(sink: &Sender<RunTracer>, snapshot: RunTracer) {
    sink.send_replace(snapshot);
}

/// The value of parameter `name`: the first of `params`, from position `j`,
/// with that name.
pub open spec fn variable_value(params: Seq<String>, values: Seq<Value>, name: Seq<char>, j: int) -> Option<Value>
    decreases params.len() - j,
{
    if j < 0 || j >= params.len() || j >= values.len() {
        None
    } else if params[j]@ == name {
        Some(values[j])
    } else {
        variable_value(params, values, name, j + 1)
    }
}

/// Evaluating `e` at `stack`, in a function whose parameters `params` are
/// bound to `values`, with calls nested at most `depth` deeper: the trace
/// that results from `trace`, and the value or the error.
pub open spec fn eval_expression<H: Host>(
    lib: Library,
    host: H,
    params: Seq<String>,
    values: Seq<Value>,
    e: Expression<FunctionId>,
    stack: Seq<StackFrame>,
    trace: Map<Seq<StackFrame>, RunState>,
    depth: nat,
) -> (Map<Seq<StackFrame>, RunState>, Result<Value, RuntimeError>)
    decreases depth, e, 0int,
{
    match e {
        Expression::Variable { name } => (
            trace,
            match variable_value(params, values, name@, 0) {
                Some(v) => Ok(v),
                None => Err(RuntimeError::UnboundVariable),
            },
        ),
        Expression::Literal { value } => (trace, Ok(value)),
        Expression::Call { name, args } => eval_call(
            lib,
            host,
            params,
            values,
            name,
            args@,
            stack,
            trace,
            depth,
        ),
    }
}

/// Calling `callee` with `args`: each argument is evaluated under its own
/// `Argument` frame, then the callee runs under a `Function` frame that is
/// `Running` meanwhile and `Successful` or `Failed` after.
pub open spec fn eval_call<H: Host>(
    lib: Library,
    host: H,
    params: Seq<String>,
    values: Seq<Value>,
    callee: FunctionId,
    args: Seq<Expression<FunctionId>>,
    stack: Seq<StackFrame>,
    trace: Map<Seq<StackFrame>, RunState>,
    depth: nat,
) -> (Map<Seq<StackFrame>, RunState>, Result<Value, RuntimeError>)
    decreases depth, args, args.len() + 1,
{
    let (evaluated, r) = eval_args(
        lib,
        host,
        params,
        values,
        args,
        0,
        stack,
        trace,
        Seq::empty(),
        depth,
    );
    match r {
        Err(err) => (evaluated, Err(err)),
        Ok(arg_values) => {
            let path = stack.push(StackFrame::Function(callee));
            let running = evaluated.insert(path, RunState::Running);
            let (after, outcome) = if depth == 0 {
                (running, Err(RuntimeError::DepthExceeded))
            } else {
                let f = lib.spec_functions()[callee.spec_index() as int];
                match f.body {
                    Body::Local(stmts) => if f.args.len() != arg_values.len() {
                        (running, Err(RuntimeError::ArityMismatch))
                    } else {
                        let (ran, r2) = exec_block(
                            lib,
                            host,
                            f.args@,
                            arg_values,
                            stmts@,
                            0,
                            path,
                            running,
                            (depth - 1) as nat,
                        );
                        (
                            ran,
                            match r2 {
                                Ok(_) => Ok(Value::Unit),
                                Err(err) => Err(err),
                            },
                        )
                    },
                    Body::External => (running, host.outcome(callee, arg_values)),
                }
            };
            match outcome {
                Ok(v) => (after.insert(path, RunState::Successful), Ok(v)),
                Err(err) => (after.insert(path, RunState::Failed), Err(err)),
            }
        },
    }
}

/// Evaluating `args` from position `i` on, after `done` were evaluated; an
/// argument that fails marks its own path `Failed` and stops the rest.
pub open spec fn eval_args<H: Host>(
    lib: Library,
    host: H,
    params: Seq<String>,
    values: Seq<Value>,
    args: Seq<Expression<FunctionId>>,
    i: int,
    stack: Seq<StackFrame>,
    trace: Map<Seq<StackFrame>, RunState>,
    done: Seq<Value>,
    depth: nat,
) -> (Map<Seq<StackFrame>, RunState>, Result<Seq<Value>, RuntimeError>)
    decreases depth, args, args.len() - i,
{
    if i < 0 || i >= args.len() {
        (trace, Ok(done))
    } else {
        let path = stack.push(StackFrame::Argument(i as usize));
        let (t, r) = eval_expression(lib, host, params, values, args[i], path, trace, depth);
        match r {
            Err(err) => (t.insert(path, RunState::Failed), Err(err)),
            Ok(v) => eval_args(
                lib,
                host,
                params,
                values,
                args,
                i + 1,
                stack,
                t,
                done.push(v),
                depth,
            ),
        }
    }
}

/// Executing `s`, whose own path is `path`. A branch is `Running` while its
/// condition is evaluated, then `PredicateSuccessful` with the condition's
/// value; a statement that fails marks its path `Failed`.
pub open spec fn exec_statement<H: Host>(
    lib: Library,
    host: H,
    params: Seq<String>,
    values: Seq<Value>,
    s: Statement<FunctionId>,
    path: Seq<StackFrame>,
    trace: Map<Seq<StackFrame>, RunState>,
    depth: nat,
) -> (Map<Seq<StackFrame>, RunState>, Result<(), RuntimeError>)
    decreases depth, s, 0int,
{
    match s {
        Statement::Pass => (trace, Ok(())),
        Statement::Expression(e) => {
            let (t, r) = eval_expression(lib, host, params, values, e, path, trace, depth);
            match r {
                Ok(_) => (t, Ok(())),
                Err(err) => (t.insert(path, RunState::Failed), Err(err)),
            }
        },
        Statement::If { condition, then_block, else_block } => {
            let running = trace.insert(path, RunState::Running);
            let (t, r) = eval_expression(
                lib,
                host,
                params,
                values,
                condition,
                path,
                running,
                depth,
            );
            match r {
                Ok(Value::Bool(b)) => {
                    let decided = t.insert(path, RunState::PredicateSuccessful(b));
                    let (t2, r2) = if b {
                        exec_block(lib, host, params, values, then_block@, 0, path, decided, depth)
                    } else {
                        exec_block(lib, host, params, values, else_block@, 0, path, decided, depth)
                    };
                    match r2 {
                        Ok(_) => (t2, Ok(())),
                        Err(err) => (t2.insert(path, RunState::Failed), Err(err)),
                    }
                },
                Ok(_) => (t.insert(path, RunState::Failed), Err(RuntimeError::NotABoolean)),
                Err(err) => (t.insert(path, RunState::Failed), Err(err)),
            }
        },
    }
}

/// Executing `stmts` from position `i` on, each under its own `Statement`
/// frame below `stack`, up to the first that fails.
pub open spec fn exec_block<H: Host>(
    lib: Library,
    host: H,
    params: Seq<String>,
    values: Seq<Value>,
    stmts: Seq<Statement<FunctionId>>,
    i: int,
    stack: Seq<StackFrame>,
    trace: Map<Seq<StackFrame>, RunState>,
    depth: nat,
) -> (Map<Seq<StackFrame>, RunState>, Result<(), RuntimeError>)
    decreases depth, stmts, stmts.len() - i,
{
    if i < 0 || i >= stmts.len() {
        (trace, Ok(()))
    } else {
        let path = stack.push(StackFrame::Statement(i as usize));
        let (t, r) = exec_statement(lib, host, params, values, stmts[i], path, trace, depth);
        match r {
            Err(err) => (t, Err(err)),
            Ok(_) => exec_block(lib, host, params, values, stmts, i + 1, stack, t, depth),
        }
    }
}

/// The trace of one run of `lib`: a call of its `main` without arguments
/// from the empty path, or nothing when it has no `main`.
pub open spec fn run_trace<H: Host>(lib: Library, host: H) -> Map<Seq<StackFrame>, RunState> {
    match lib.spec_main_id() {
        Some(id) => eval_call(
            lib,
            host,
            Seq::empty(),
            Seq::empty(),
            id,
            Seq::empty(),
            Seq::empty(),
            Map::empty(),
            MAX_CALL_DEPTH as nat,
        ).0,
        None => Map::empty(),
    }
}

proof fn lemma_arg_ids_below(args: Seq<Expression<FunctionId>>, n: nat, k: int, i: int)
    requires
        args_ids_below(args, n, k),
        0 <= i < k <= args.len(),
    ensures
        expression_ids_below(args[i], n),
    decreases k,
{
    if i < k - 1 {
        lemma_arg_ids_below(args, n, k - 1, i);
    }
}

proof fn lemma_statement_ids_below(stmts: Seq<Statement<FunctionId>>, n: nat, k: int, i: int)
    requires
        block_ids_below(stmts, n, k),
        0 <= i < k <= stmts.len(),
    ensures
        statement_ids_below(stmts[i], n),
    decreases k,
{
    if i < k - 1 {
        lemma_statement_ids_below(stmts, n, k - 1, i);
    }
}

/// Record `state` for `path` and publish the result.
fn mark(tracer: &mut RunTracer, sink: &Sender<RunTracer>, path: &CallStack, state: RunState)
    ensures
        final(tracer)@ == old(tracer)@.insert(path@, state),
{
    tracer.set_status(path, state);
    publish(sink, tracer.snapshot());
}

fn variable_lookup(params: &Vec<String>, values: &Vec<Value>, name: &String) -> (r: Option<Value>)
    ensures
        r == variable_value(params@, values@, name@, 0),
{
    let mut j: usize = 0;
    while j < params.len() && j < values.len()
        invariant
            j <= params.len(),
            variable_value(params@, values@, name@, 0) == variable_value(
                params@,
                values@,
                name@,
                j as int,
            ),
        decreases params.len() - j,
    {
        if params[j] == *name {
            return Some(values[j]);
        }
        j = j + 1;
    }
    None
}

impl Library {
    /// Run the function called "main" once, from a fresh trace, and return
    /// the final trace. Each change of the trace is published to `sink` as
    /// it happens. Without a "main" nothing runs and the trace stays empty.
    pub fn run<H: Host>(&self, host: &H, sink: &Sender<RunTracer>) -> (r: RunTracer)
        ensures
            self.wf(),
            r@ == run_trace(*self, *host),
    {
        let mut tracer = RunTracer::new();
        let mut stack = CallStack::new();
        let main = self.main_id();
        if let Some(main_id) = main {
            let no_params: Vec<String> = Vec::new();
            let no_values: Vec<Value> = Vec::new();
            let no_args: Vec<Expression<FunctionId>> = Vec::new();
            assert(no_params@ =~= Seq::<String>::empty());
            assert(no_values@ =~= Seq::<Value>::empty());
            assert(no_args@ =~= Seq::<Expression<FunctionId>>::empty());
            let _ = self.run_call(
                host,
                &no_params,
                &no_values,
                main_id,
                &no_args,
                &mut stack,
                &mut tracer,
                sink,
                MAX_CALL_DEPTH,
            );
        }
        tracer
    }

    fn run_expression<H: Host>(
        &self,
        host: &H,
        params: &Vec<String>,
        values: &Vec<Value>,
        e: &Expression<FunctionId>,
        stack: &mut CallStack,
        tracer: &mut RunTracer,
        sink: &Sender<RunTracer>,
        depth: usize,
    ) -> (r: Result<Value, RuntimeError>)
        requires
            self.wf(),
            expression_ids_below(*e, self.spec_functions().len()),
        ensures
            final(stack)@ == old(stack)@,
            (final(tracer)@, r) == eval_expression(
                *self,
                *host,
                params@,
                values@,
                *e,
                old(stack)@,
                old(tracer)@,
                depth as nat,
            ),
        decreases depth, e,
    {
        match e {
            Expression::Variable { name } => match variable_lookup(params, values, name) {
                Some(v) => Ok(v),
                None => Err(RuntimeError::UnboundVariable),
            },
            Expression::Literal { value } => Ok(*value),
            Expression::Call { name, args } => self.run_call(
                host,
                params,
                values,
                *name,
                args,
                stack,
                tracer,
                sink,
                depth,
            ),
        }
    }

    fn run_call<H: Host>(
        &self,
        host: &H,
        params: &Vec<String>,
        values: &Vec<Value>,
        callee: FunctionId,
        args: &Vec<Expression<FunctionId>>,
        stack: &mut CallStack,
        tracer: &mut RunTracer,
        sink: &Sender<RunTracer>,
        depth: usize,
    ) -> (r: Result<Value, RuntimeError>)
        requires
            self.wf(),
            callee.spec_index() < self.spec_functions().len(),
            args_ids_below(args@, self.spec_functions().len(), args.len() as int),
        ensures
            final(stack)@ == old(stack)@,
            (final(tracer)@, r) == eval_call(
                *self,
                *host,
                params@,
                values@,
                callee,
                args@,
                old(stack)@,
                old(tracer)@,
                depth as nat,
            ),
        decreases depth, args,
    {
        let ghost stack0 = stack@;
        let ghost trace0 = tracer@;
        let mut arg_values: Vec<Value> = Vec::new();
        let mut i: usize = 0;
        while i < args.len()
            invariant
                self.wf(),
                args_ids_below(args@, self.spec_functions().len(), args.len() as int),
                i <= args.len(),
                stack@ == stack0,
                stack0 == old(stack)@,
                trace0 == old(tracer)@,
                eval_args(
                    *self,
                    *host,
                    params@,
                    values@,
                    args@,
                    0,
                    stack0,
                    trace0,
                    Seq::empty(),
                    depth as nat,
                ) == eval_args(
                    *self,
                    *host,
                    params@,
                    values@,
                    args@,
                    i as int,
                    stack0,
                    tracer@,
                    arg_values@,
                    depth as nat,
                ),
            decreases args.len() - i,
        {
            proof {
                lemma_arg_ids_below(args@, self.spec_functions().len(), args.len() as int, i as int);
            }
            stack.push(StackFrame::Argument(i));
            let r = self.run_expression(host, params, values, &args[i], stack, tracer, sink, depth);
            match r {
                Err(err) => {
                    mark(tracer, sink, stack, RunState::Failed);
                    stack.pop();
                    assert(stack@ =~= stack0);
                    return Err(err);
                },
                Ok(v) => {
                    stack.pop();
                    assert(stack@ =~= stack0);
                    arg_values.push(v);
                },
            }
            i = i + 1;
        }
        stack.push(StackFrame::Function(callee));
        mark(tracer, sink, stack, RunState::Running);
        let outcome: Result<Value, RuntimeError> = if depth == 0 {
            Err(RuntimeError::DepthExceeded)
        } else {
            let f = self.lookup(callee);
            assert(function_ids_below_at(*self, callee.spec_index() as int));
            match &f.body {
                Body::Local(stmts) => {
                    if f.args.len() != arg_values.len() {
                        Err(RuntimeError::ArityMismatch)
                    } else {
                        match self.run_block(
                            host,
                            &f.args,
                            &arg_values,
                            stmts,
                            stack,
                            tracer,
                            sink,
                            depth - 1,
                        ) {
                            Ok(()) => Ok(Value::Unit),
                            Err(err) => Err(err),
                        }
                    }
                },
                Body::External => host.call_external(callee, &arg_values),
            }
        };
        match outcome {
            Ok(v) => {
                mark(tracer, sink, stack, RunState::Successful);
                stack.pop();
                assert(stack@ =~= stack0);
                Ok(v)
            },
            Err(err) => {
                mark(tracer, sink, stack, RunState::Failed);
                stack.pop();
                assert(stack@ =~= stack0);
                Err(err)
            },
        }
    }

    fn run_statement<H: Host>(
        &self,
        host: &H,
        params: &Vec<String>,
        values: &Vec<Value>,
        s: &Statement<FunctionId>,
        stack: &mut CallStack,
        tracer: &mut RunTracer,
        sink: &Sender<RunTracer>,
        depth: usize,
    ) -> (r: Result<(), RuntimeError>)
        requires
            self.wf(),
            statement_ids_below(*s, self.spec_functions().len()),
        ensures
            final(stack)@ == old(stack)@,
            (final(tracer)@, r) == exec_statement(
                *self,
                *host,
                params@,
                values@,
                *s,
                old(stack)@,
                old(tracer)@,
                depth as nat,
            ),
        decreases depth, s,
    {
        match s {
            Statement::Pass => Ok(()),
            Statement::Expression(e) => match self.run_expression(
                host,
                params,
                values,
                e,
                stack,
                tracer,
                sink,
                depth,
            ) {
                Ok(_) => Ok(()),
                Err(err) => {
                    mark(tracer, sink, stack, RunState::Failed);
                    Err(err)
                },
            },
            Statement::If { condition, then_block, else_block } => {
                mark(tracer, sink, stack, RunState::Running);
                match self.run_expression(
                    host,
                    params,
                    values,
                    condition,
                    stack,
                    tracer,
                    sink,
                    depth,
                ) {
                    Ok(Value::Bool(b)) => {
                        mark(tracer, sink, stack, RunState::PredicateSuccessful(b));
                        let r = if b {
                            self.run_block(host, params, values, then_block, stack, tracer, sink, depth)
                        } else {
                            self.run_block(host, params, values, else_block, stack, tracer, sink, depth)
                        };
                        match r {
                            Ok(()) => Ok(()),
                            Err(err) => {
                                mark(tracer, sink, stack, RunState::Failed);
                                Err(err)
                            },
                        }
                    },
                    Ok(_) => {
                        mark(tracer, sink, stack, RunState::Failed);
                        Err(RuntimeError::NotABoolean)
                    },
                    Err(err) => {
                        mark(tracer, sink, stack, RunState::Failed);
                        Err(err)
                    },
                }
            },
        }
    }

    fn run_block<H: Host>(
        &self,
        host: &H,
        params: &Vec<String>,
        values: &Vec<Value>,
        stmts: &Vec<Statement<FunctionId>>,
        stack: &mut CallStack,
        tracer: &mut RunTracer,
        sink: &Sender<RunTracer>,
        depth: usize,
    ) -> (r: Result<(), RuntimeError>)
        requires
            self.wf(),
            block_ids_below(stmts@, self.spec_functions().len(), stmts.len() as int),
        ensures
            final(stack)@ == old(stack)@,
            (final(tracer)@, r) == exec_block(
                *self,
                *host,
                params@,
                values@,
                stmts@,
                0,
                old(stack)@,
                old(tracer)@,
                depth as nat,
            ),
        decreases depth, stmts,
    {
        let ghost stack0 = stack@;
        let ghost trace0 = tracer@;
        let mut i: usize = 0;
        while i < stmts.len()
            invariant
                self.wf(),
                block_ids_below(stmts@, self.spec_functions().len(), stmts.len() as int),
                i <= stmts.len(),
                stack@ == stack0,
                stack0 == old(stack)@,
                trace0 == old(tracer)@,
                exec_block(
                    *self,
                    *host,
                    params@,
                    values@,
                    stmts@,
                    0,
                    stack0,
                    trace0,
                    depth as nat,
                ) == exec_block(
                    *self,
                    *host,
                    params@,
                    values@,
                    stmts@,
                    i as int,
                    stack0,
                    tracer@,
                    depth as nat,
                ),
            decreases stmts.len() - i,
        {
            proof {
                lemma_statement_ids_below(stmts@, self.spec_functions().len(), stmts.len() as int, i as int);
            }
            stack.push(StackFrame::Statement(i));
            let r = self.run_statement(host, params, values, &stmts[i], stack, tracer, sink, depth);
            stack.pop();
            assert(stack@ =~= stack0);
            if let Err(err) = r {
                return Err(err);
            }
            i = i + 1;
        }
        Ok(())
    }
}

/// The calls inside function `i` of `lib` hold valid ids.
pub open spec fn function_ids_below_at(lib: Library, i: int) -> bool {
    crate::library::function_ids_below(lib.spec_functions()[i], lib.spec_functions().len())
}

/// A library without a function called "main" runs nothing: its trace stays
/// empty.
pub proof fn run_without_main_is_empty<H: Host>(lib: Library, host: H)
    requires
        lib.spec_main_id() is None,
    ensures
        run_trace(lib, host) == Map::<Seq<StackFrame>, RunState>::empty(),
{
}

/// A statement that fails marks its own path `Failed`.
pub proof fn failed_statement_is_marked<H: Host>(
    lib: Library,
    host: H,
    params: Seq<String>,
    values: Seq<Value>,
    s: Statement<FunctionId>,
    path: Seq<StackFrame>,
    trace: Map<Seq<StackFrame>, RunState>,
    depth: nat,
)
    ensures
        exec_statement(lib, host, params, values, s, path, trace, depth).1 is Err ==> state_of(
            exec_statement(lib, host, params, values, s, path, trace, depth).0,
            path,
        ) == RunState::Failed,
{
}

/// Arguments that fail do so at one of them, whose path is marked `Failed`.
pub proof fn failed_args_mark_argument<H: Host>(
    lib: Library,
    host: H,
    params: Seq<String>,
    values: Seq<Value>,
    args: Seq<Expression<FunctionId>>,
    i: int,
    stack: Seq<StackFrame>,
    trace: Map<Seq<StackFrame>, RunState>,
    done: Seq<Value>,
    depth: nat,
)
    ensures
        eval_args(lib, host, params, values, args, i, stack, trace, done, depth).1 is Err ==> exists|
            j: int,
        |
            i <= j < args.len() && state_of(
                eval_args(lib, host, params, values, args, i, stack, trace, done, depth).0,
                #[trigger] stack.push(StackFrame::Argument(j as usize)),
            ) == RunState::Failed,
    decreases args.len() - i,
{
    if 0 <= i < args.len() {
        let path = stack.push(StackFrame::Argument(i as usize));
        let (t, r) = eval_expression(lib, host, params, values, args[i], path, trace, depth);
        if let Ok(v) = r {
            failed_args_mark_argument(
                lib,
                host,
                params,
                values,
                args,
                i + 1,
                stack,
                t,
                done.push(v),
                depth,
            );
        }
    }
}

/// A call that fails marks `Failed` the path of the called function, or,
/// when it failed before the callee started, that of an argument.
pub proof fn failed_call_is_marked<H: Host>(
    lib: Library,
    host: H,
    params: Seq<String>,
    values: Seq<Value>,
    callee: FunctionId,
    args: Seq<Expression<FunctionId>>,
    stack: Seq<StackFrame>,
    trace: Map<Seq<StackFrame>, RunState>,
    depth: nat,
)
    ensures
        ({
            let (t, r) = eval_call(lib, host, params, values, callee, args, stack, trace, depth);
            r is Err ==> state_of(t, stack.push(StackFrame::Function(callee))) == RunState::Failed
                || exists|j: int|
                0 <= j < args.len() && state_of(
                    t,
                    #[trigger] stack.push(StackFrame::Argument(j as usize)),
                ) == RunState::Failed
        }),
{
    failed_args_mark_argument(
        lib,
        host,
        params,
        values,
        args,
        0,
        stack,
        trace,
        Seq::empty(),
        depth,
    );
}

/// Going from `before` to `after` changed the state of no path outside those
/// that extend `p`.
pub open spec fn changes_only_below(
    before: Map<Seq<StackFrame>, RunState>,
    after: Map<Seq<StackFrame>, RunState>,
    p: Seq<StackFrame>,
) -> bool {
    forall|k: Seq<StackFrame>| !p.is_prefix_of(k) ==> #[trigger] state_of(after, k) == state_of(before, k)
}

proof fn lemma_prefix_trans(p: Seq<StackFrame>, q: Seq<StackFrame>, k: Seq<StackFrame>)
    requires
        p.is_prefix_of(q),
        q.is_prefix_of(k),
    ensures
        p.is_prefix_of(k),
{
    assert(k.subrange(0, p.len() as int) =~= k.subrange(0, q.len() as int).subrange(0, p.len() as int));
}

proof fn lemma_push_extends(p: Seq<StackFrame>, f: StackFrame)
    ensures
        p.is_prefix_of(p.push(f)),
{
    assert(p =~= p.push(f).subrange(0, p.len() as int));
}

/// Changes below `q`, which extends `p`, are changes below `p`.
proof fn lemma_widen(
    a: Map<Seq<StackFrame>, RunState>,
    b: Map<Seq<StackFrame>, RunState>,
    q: Seq<StackFrame>,
    p: Seq<StackFrame>,
)
    requires
        changes_only_below(a, b, q),
        p.is_prefix_of(q),
    ensures
        changes_only_below(a, b, p),
{
    assert forall|k: Seq<StackFrame>| !p.is_prefix_of(k) implies #[trigger] state_of(b, k) == state_of(a, k) by {
        if q.is_prefix_of(k) {
            lemma_prefix_trans(p, q, k);
        }
    }
}

proof fn lemma_insert_below(
    a: Map<Seq<StackFrame>, RunState>,
    q: Seq<StackFrame>,
    v: RunState,
    p: Seq<StackFrame>,
)
    requires
        p.is_prefix_of(q),
    ensures
        changes_only_below(a, a.insert(q, v), p),
{
    assert forall|k: Seq<StackFrame>| !p.is_prefix_of(k) implies #[trigger] state_of(a.insert(q, v), k) == state_of(a, k) by {
        assert(k != q);
    }
}

proof fn lemma_expression_local<H: Host>(
    lib: Library,
    host: H,
    params: Seq<String>,
    values: Seq<Value>,
    e: Expression<FunctionId>,
    stack: Seq<StackFrame>,
    trace: Map<Seq<StackFrame>, RunState>,
    depth: nat,
)
    ensures
        changes_only_below(
            trace,
            eval_expression(lib, host, params, values, e, stack, trace, depth).0,
            stack,
        ),
    decreases depth, e, 0int,
{
    if let Expression::Call { name, args } = e {
        lemma_call_local(lib, host, params, values, name, args@, stack, trace, depth);
    }
}

proof fn lemma_call_local<H: Host>(
    lib: Library,
    host: H,
    params: Seq<String>,
    values: Seq<Value>,
    callee: FunctionId,
    args: Seq<Expression<FunctionId>>,
    stack: Seq<StackFrame>,
    trace: Map<Seq<StackFrame>, RunState>,
    depth: nat,
)
    ensures
        changes_only_below(
            trace,
            eval_call(lib, host, params, values, callee, args, stack, trace, depth).0,
            stack,
        ),
    decreases depth, args, args.len() + 1,
{
    lemma_args_local(lib, host, params, values, args, 0, stack, trace, Seq::empty(), depth);
    let (evaluated, r) = eval_args(
        lib,
        host,
        params,
        values,
        args,
        0,
        stack,
        trace,
        Seq::empty(),
        depth,
    );
    if let Ok(arg_values) = r {
        let path = stack.push(StackFrame::Function(callee));
        lemma_push_extends(stack, StackFrame::Function(callee));
        let running = evaluated.insert(path, RunState::Running);
        lemma_insert_below(evaluated, path, RunState::Running, stack);
        if depth > 0 {
            let f = lib.spec_functions()[callee.spec_index() as int];
            if let Body::Local(stmts) = f.body {
                if f.args.len() == arg_values.len() {
                    lemma_block_local(
                        lib,
                        host,
                        f.args@,
                        arg_values,
                        stmts@,
                        0,
                        path,
                        running,
                        (depth - 1) as nat,
                    );
                    let ran = exec_block(
                        lib,
                        host,
                        f.args@,
                        arg_values,
                        stmts@,
                        0,
                        path,
                        running,
                        (depth - 1) as nat,
                    ).0;
                    lemma_widen(running, ran, path, stack);
                    lemma_insert_below(ran, path, RunState::Successful, stack);
                    lemma_insert_below(ran, path, RunState::Failed, stack);
                }
            }
        }
        lemma_insert_below(running, path, RunState::Successful, stack);
        lemma_insert_below(running, path, RunState::Failed, stack);
    }
}

proof fn lemma_args_local<H: Host>(
    lib: Library,
    host: H,
    params: Seq<String>,
    values: Seq<Value>,
    args: Seq<Expression<FunctionId>>,
    i: int,
    stack: Seq<StackFrame>,
    trace: Map<Seq<StackFrame>, RunState>,
    done: Seq<Value>,
    depth: nat,
)
    ensures
        changes_only_below(
            trace,
            eval_args(lib, host, params, values, args, i, stack, trace, done, depth).0,
            stack,
        ),
    decreases depth, args, args.len() - i,
{
    if 0 <= i < args.len() {
        let path = stack.push(StackFrame::Argument(i as usize));
        lemma_push_extends(stack, StackFrame::Argument(i as usize));
        lemma_expression_local(lib, host, params, values, args[i], path, trace, depth);
        let (t, r) = eval_expression(lib, host, params, values, args[i], path, trace, depth);
        lemma_widen(trace, t, path, stack);
        match r {
            Err(_) => {
                lemma_insert_below(t, path, RunState::Failed, stack);
            },
            Ok(v) => {
                lemma_args_local(
                    lib,
                    host,
                    params,
                    values,
                    args,
                    i + 1,
                    stack,
                    t,
                    done.push(v),
                    depth,
                );
            },
        }
    }
}

proof fn lemma_statement_local<H: Host>(
    lib: Library,
    host: H,
    params: Seq<String>,
    values: Seq<Value>,
    s: Statement<FunctionId>,
    path: Seq<StackFrame>,
    trace: Map<Seq<StackFrame>, RunState>,
    depth: nat,
)
    ensures
        changes_only_below(
            trace,
            exec_statement(lib, host, params, values, s, path, trace, depth).0,
            path,
        ),
    decreases depth, s, 0int,
{
    assert(path.is_prefix_of(path)) by {
        assert(path =~= path.subrange(0, path.len() as int));
    }
    match s {
        Statement::Pass => {},
        Statement::Expression(e) => {
            lemma_expression_local(lib, host, params, values, e, path, trace, depth);
            let t = eval_expression(lib, host, params, values, e, path, trace, depth).0;
            lemma_insert_below(t, path, RunState::Failed, path);
        },
        Statement::If { condition, then_block, else_block } => {
            let running = trace.insert(path, RunState::Running);
            lemma_insert_below(trace, path, RunState::Running, path);
            lemma_expression_local(lib, host, params, values, condition, path, running, depth);
            let (t, r) = eval_expression(
                lib,
                host,
                params,
                values,
                condition,
                path,
                running,
                depth,
            );
            lemma_insert_below(t, path, RunState::Failed, path);
            if let Ok(Value::Bool(b)) = r {
                let decided = t.insert(path, RunState::PredicateSuccessful(b));
                lemma_insert_below(t, path, RunState::PredicateSuccessful(b), path);
                let stmts = if b {
                    then_block@
                } else {
                    else_block@
                };
                if b {
                    lemma_block_local(lib, host, params, values, then_block@, 0, path, decided, depth);
                } else {
                    lemma_block_local(lib, host, params, values, else_block@, 0, path, decided, depth);
                }
                let t2 = exec_block(lib, host, params, values, stmts, 0, path, decided, depth).0;
                lemma_insert_below(t2, path, RunState::Failed, path);
            }
        },
    }
}

proof fn lemma_block_local<H: Host>(
    lib: Library,
    host: H,
    params: Seq<String>,
    values: Seq<Value>,
    stmts: Seq<Statement<FunctionId>>,
    i: int,
    stack: Seq<StackFrame>,
    trace: Map<Seq<StackFrame>, RunState>,
    depth: nat,
)
    ensures
        changes_only_below(
            trace,
            exec_block(lib, host, params, values, stmts, i, stack, trace, depth).0,
            stack,
        ),
    decreases depth, stmts, stmts.len() - i,
{
    if 0 <= i < stmts.len() {
        let path = stack.push(StackFrame::Statement(i as usize));
        lemma_push_extends(stack, StackFrame::Statement(i as usize));
        lemma_statement_local(lib, host, params, values, stmts[i], path, trace, depth);
        let (t, r) = exec_statement(lib, host, params, values, stmts[i], path, trace, depth);
        lemma_widen(trace, t, path, stack);
        if r is Ok {
            lemma_block_local(lib, host, params, values, stmts, i + 1, stack, t, depth);
        }
    }
}

/// `q` lies below the `k`-th statement under `stack`, so not below the `i`-th
/// when the two differ.
proof fn lemma_distinct_statements(stack: Seq<StackFrame>, i: int, k: int, q: Seq<StackFrame>)
    requires
        0 <= i <= usize::MAX,
        0 <= k <= usize::MAX,
        i != k,
        stack.push(StackFrame::Statement(k as usize)).is_prefix_of(q),
    ensures
        !stack.push(StackFrame::Statement(i as usize)).is_prefix_of(q),
{
    let pk = stack.push(StackFrame::Statement(k as usize));
    assert(q[stack.len() as int] == pk[stack.len() as int]);
}

/// A block that fails does so at one statement, whose path is marked
/// `Failed`; no later statement of the block runs, so every path below one
/// keeps the state it had before the block.
pub proof fn failed_block_stops<H: Host>(
    lib: Library,
    host: H,
    params: Seq<String>,
    values: Seq<Value>,
    stmts: Seq<Statement<FunctionId>>,
    i: int,
    stack: Seq<StackFrame>,
    trace: Map<Seq<StackFrame>, RunState>,
    depth: nat,
)
    requires
        0 <= i,
        stmts.len() <= usize::MAX,
    ensures
        ({
            let (t, r) = exec_block(lib, host, params, values, stmts, i, stack, trace, depth);
            r is Err ==> exists|j: int|
                i <= j < stmts.len() && state_of(
                    t,
                    #[trigger] stack.push(StackFrame::Statement(j as usize)),
                ) == RunState::Failed && forall|k: int, q: Seq<StackFrame>|
                    j < k < stmts.len() && #[trigger] stack.push(
                        StackFrame::Statement(k as usize),
                    ).is_prefix_of(q) ==> #[trigger] state_of(t, q) == state_of(trace, q)
        }),
    decreases stmts.len() - i,
{
    if i < stmts.len() {
        let path = stack.push(StackFrame::Statement(i as usize));
        let (t1, r1) = exec_statement(lib, host, params, values, stmts[i], path, trace, depth);
        failed_statement_is_marked(lib, host, params, values, stmts[i], path, trace, depth);
        lemma_statement_local(lib, host, params, values, stmts[i], path, trace, depth);
        let (t, r) = exec_block(lib, host, params, values, stmts, i, stack, trace, depth);
        if r1 is Err {
            assert forall|k: int, q: Seq<StackFrame>|
                i < k < stmts.len() && #[trigger] stack.push(
                    StackFrame::Statement(k as usize),
                ).is_prefix_of(q) implies #[trigger] state_of(t, q) == state_of(trace, q) by {
                lemma_distinct_statements(stack, i, k, q);
            }
            assert(state_of(t, stack.push(StackFrame::Statement(i as usize))) == RunState::Failed);
        } else {
            failed_block_stops(lib, host, params, values, stmts, i + 1, stack, t1, depth);
            if r is Err {
                let j = choose|j: int|
                    i + 1 <= j < stmts.len() && state_of(
                        t,
                        #[trigger] stack.push(StackFrame::Statement(j as usize)),
                    ) == RunState::Failed && forall|k: int, q: Seq<StackFrame>|
                        j < k < stmts.len() && #[trigger] stack.push(
                            StackFrame::Statement(k as usize),
                        ).is_prefix_of(q) ==> #[trigger] state_of(t, q) == state_of(t1, q);
                assert forall|k: int, q: Seq<StackFrame>|
                    j < k < stmts.len() && #[trigger] stack.push(
                        StackFrame::Statement(k as usize),
                    ).is_prefix_of(q) implies #[trigger] state_of(t, q) == state_of(trace, q) by {
                    lemma_distinct_statements(stack, i, k, q);
                    assert(state_of(t, q) == state_of(t1, q));
                }
            }
        }
    }
}

} // verus!
