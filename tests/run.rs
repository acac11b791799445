use serpent_automation::library::{FunctionId, Library};
use serpent_automation::run::{CallStack, FixedHost, RunState, RunTracer, StackFrame};
use serpent_automation::syntax_tree::{Body, Expression, Function, Module, Statement, Value};
use tokio::sync::watch;

fn call(name: &str, args: Vec<Expression<String>>) -> Expression<String> {
    Expression::Call { name: name.to_string(), args }
}

fn call_stmt(name: &str) -> Statement<String> {
    Statement::Expression(call(name, Vec::new()))
}

fn local(name: &str, body: Vec<Statement<String>>) -> Function<String> {
    Function { name: name.to_string(), args: Vec::new(), body: Body::Local(body) }
}

fn external(name: &str) -> Function<String> {
    Function { name: name.to_string(), args: Vec::new(), body: Body::External }
}

fn path(frames: &[StackFrame]) -> CallStack {
    let mut stack = CallStack::new();
    for frame in frames {
        stack.push(*frame);
    }
    stack
}

fn search(lib: &Library, stmts: &[Statement<FunctionId>], name: &str) -> Option<FunctionId> {
    for stmt in stmts {
        let found = match stmt {
            Statement::Pass => None,
            Statement::Expression(e) => search_expr(lib, e, name),
            Statement::If { condition, then_block, else_block } => search_expr(lib, condition, name)
                .or_else(|| search(lib, then_block, name))
                .or_else(|| search(lib, else_block, name)),
        };
        if found.is_some() {
            return found;
        }
    }
    None
}

fn search_expr(lib: &Library, e: &Expression<FunctionId>, name: &str) -> Option<FunctionId> {
    match e {
        Expression::Call { name: id, args } => {
            if lib.lookup(*id).name == name {
                return Some(*id);
            }
            args.iter().find_map(|a| search_expr(lib, a, name))
        }
        _ => None,
    }
}

/// The id of the function named `name`, found through the calls of `main`.
fn id_of(lib: &Library, name: &str) -> FunctionId {
    let main_id = lib.main_id().unwrap();
    if name == "main" {
        return main_id;
    }
    match &lib.lookup(main_id).body {
        Body::Local(stmts) => search(lib, stmts, name).expect("called from main"),
        Body::External => panic!("external main"),
    }
}

fn run(lib: &Library, host: &FixedHost) -> RunTracer {
    let (sink, _receiver) = watch::channel(RunTracer::new());
    lib.run(host, &sink)
}

#[test]
fn run_without_main_leaves_trace_empty() {
    let lib = Library::link(Module::new(vec![local("f", vec![call_stmt("f")])])).unwrap();
    assert!(lib.main_id().is_none());
    let (sink, receiver) = watch::channel(RunTracer::new());
    let trace = lib.run(&FixedHost::new(Vec::new()), &sink);
    assert_eq!(trace.len(), 0);
    assert_eq!(receiver.borrow().len(), 0);
}

#[test]
fn run_marks_calls_successful() {
    let lib = Library::link(Module::new(vec![
        local("main", vec![call_stmt("f")]),
        local("f", vec![Statement::Pass]),
    ]))
    .unwrap();
    let main = id_of(&lib, "main");
    let f = id_of(&lib, "f");
    let trace = run(&lib, &FixedHost::new(Vec::new()));
    assert_eq!(trace.status(&path(&[StackFrame::Function(main)])), RunState::Successful);
    assert_eq!(
        trace.status(&path(&[StackFrame::Function(main), StackFrame::Statement(0), StackFrame::Function(f)])),
        RunState::Successful
    );
    assert_eq!(trace.len(), 2);
}

#[test]
fn run_records_branch_and_skips_other_side() {
    let lib = Library::link(Module::new(vec![
        local(
            "main",
            vec![Statement::If {
                condition: Expression::Literal { value: Value::Bool(true) },
                then_block: vec![call_stmt("g")],
                else_block: vec![call_stmt("h")],
            }],
        ),
        local("g", vec![Statement::Pass]),
        local("h", vec![Statement::Pass, Statement::Pass]),
    ]))
    .unwrap();
    let main = id_of(&lib, "main");
    let g = id_of(&lib, "g");
    let h = id_of(&lib, "h");
    let trace = run(&lib, &FixedHost::new(Vec::new()));
    let branch = [StackFrame::Function(main), StackFrame::Statement(0)];
    assert_eq!(trace.status(&path(&branch)), RunState::PredicateSuccessful(true));
    let taken = [StackFrame::Function(main), StackFrame::Statement(0), StackFrame::Statement(0), StackFrame::Function(g)];
    assert_eq!(trace.status(&path(&taken)), RunState::Successful);
    let skipped = [StackFrame::Function(main), StackFrame::Statement(0), StackFrame::Statement(0), StackFrame::Function(h)];
    assert_eq!(trace.status(&path(&skipped)), RunState::NotRun);
    for (stack, _) in trace.entries() {
        assert!(!stack.frames().contains(&StackFrame::Function(h)));
    }
    assert_eq!(trace.len(), 3);
}

#[test]
fn run_false_condition_takes_else() {
    let lib = Library::link(Module::new(vec![
        local(
            "main",
            vec![Statement::If {
                condition: Expression::Literal { value: Value::Bool(false) },
                then_block: vec![call_stmt("g")],
                else_block: vec![Statement::Pass, call_stmt("h")],
            }],
        ),
        local("g", vec![Statement::Pass]),
        local("h", vec![Statement::Pass]),
    ]))
    .unwrap();
    let main = id_of(&lib, "main");
    let h = id_of(&lib, "h");
    let trace = run(&lib, &FixedHost::new(Vec::new()));
    let branch = [StackFrame::Function(main), StackFrame::Statement(0)];
    assert_eq!(trace.status(&path(&branch)), RunState::PredicateSuccessful(false));
    let taken = [StackFrame::Function(main), StackFrame::Statement(0), StackFrame::Statement(1), StackFrame::Function(h)];
    assert_eq!(trace.status(&path(&taken)), RunState::Successful);
}

#[test]
fn runtime_error_fails_ancestors_and_stops_block() {
    let lib = Library::link(Module::new(vec![
        local("main", vec![call_stmt("f"), call_stmt("g")]),
        local("f", vec![call_stmt("broken")]),
        local("g", vec![Statement::Pass]),
        external("broken"),
    ]))
    .unwrap();
    let main = id_of(&lib, "main");
    let f = id_of(&lib, "f");
    let g = id_of(&lib, "g");
    let broken = match &lib.lookup(f).body {
        Body::Local(stmts) => match &stmts[0] {
            Statement::Expression(Expression::Call { name, .. }) => *name,
            _ => panic!("not a call"),
        },
        Body::External => panic!("external"),
    };
    let trace = run(&lib, &FixedHost::new(vec![broken]));
    let m = StackFrame::Function(main);
    let s0 = StackFrame::Statement(0);
    assert_eq!(trace.status(&path(&[m])), RunState::Failed);
    assert_eq!(trace.status(&path(&[m, s0])), RunState::Failed);
    assert_eq!(trace.status(&path(&[m, s0, StackFrame::Function(f)])), RunState::Failed);
    assert_eq!(trace.status(&path(&[m, s0, StackFrame::Function(f), s0])), RunState::Failed);
    assert_eq!(
        trace.status(&path(&[m, s0, StackFrame::Function(f), s0, StackFrame::Function(broken)])),
        RunState::Failed
    );
    assert_eq!(trace.status(&path(&[m, StackFrame::Statement(1)])), RunState::NotRun);
    assert_eq!(
        trace.status(&path(&[m, StackFrame::Statement(1), StackFrame::Function(g)])),
        RunState::NotRun
    );
    assert_eq!(trace.len(), 5);
}

#[test]
fn external_call_that_succeeds() {
    let lib = Library::link(Module::new(vec![local("main", vec![call_stmt("lamp")]), external("lamp")])).unwrap();
    let main = id_of(&lib, "main");
    let lamp = id_of(&lib, "lamp");
    let trace = run(&lib, &FixedHost::new(Vec::new()));
    let at = [StackFrame::Function(main), StackFrame::Statement(0), StackFrame::Function(lamp)];
    assert_eq!(trace.status(&path(&at)), RunState::Successful);
}

#[test]
fn failing_argument_is_marked() {
    let lib = Library::link(Module::new(vec![
        local("main", vec![Statement::Expression(call("f", vec![Expression::Variable { name: "x".to_string() }]))]),
        Function { name: "f".to_string(), args: vec!["x".to_string()], body: Body::Local(vec![Statement::Pass]) },
    ]))
    .unwrap();
    let main = id_of(&lib, "main");
    let f = id_of(&lib, "f");
    let trace = run(&lib, &FixedHost::new(Vec::new()));
    let m = StackFrame::Function(main);
    let s0 = StackFrame::Statement(0);
    assert_eq!(trace.status(&path(&[m, s0, StackFrame::Argument(0)])), RunState::Failed);
    assert_eq!(trace.status(&path(&[m, s0, StackFrame::Function(f)])), RunState::NotRun);
    assert_eq!(trace.status(&path(&[m, s0])), RunState::Failed);
    assert_eq!(trace.status(&path(&[m])), RunState::Failed);
}

#[test]
fn parameter_decides_branch() {
    let lib = Library::link(Module::new(vec![
        local(
            "main",
            vec![Statement::Expression(call("check", vec![Expression::Literal { value: Value::Bool(true) }]))],
        ),
        Function {
            name: "check".to_string(),
            args: vec!["flag".to_string()],
            body: Body::Local(vec![Statement::If {
                condition: Expression::Variable { name: "flag".to_string() },
                then_block: vec![Statement::Pass],
                else_block: Vec::new(),
            }]),
        },
    ]))
    .unwrap();
    let main = id_of(&lib, "main");
    let check = id_of(&lib, "check");
    let trace = run(&lib, &FixedHost::new(Vec::new()));
    let at = [StackFrame::Function(main), StackFrame::Statement(0), StackFrame::Function(check), StackFrame::Statement(0)];
    assert_eq!(trace.status(&path(&at)), RunState::PredicateSuccessful(true));
    assert_eq!(trace.status(&path(&at[..3])), RunState::Successful);
}

#[test]
fn condition_that_is_not_boolean_fails() {
    let lib = Library::link(Module::new(vec![local(
        "main",
        vec![Statement::If {
            condition: Expression::Literal { value: Value::Int(1) },
            then_block: Vec::new(),
            else_block: Vec::new(),
        }],
    )]))
    .unwrap();
    let main = id_of(&lib, "main");
    let trace = run(&lib, &FixedHost::new(Vec::new()));
    assert_eq!(trace.status(&path(&[StackFrame::Function(main), StackFrame::Statement(0)])), RunState::Failed);
    assert_eq!(trace.status(&path(&[StackFrame::Function(main)])), RunState::Failed);
}

#[test]
fn wrong_number_of_arguments_fails_the_call() {
    let lib = Library::link(Module::new(vec![
        local("main", vec![call_stmt("two")]),
        Function {
            name: "two".to_string(),
            args: vec!["a".to_string(), "b".to_string()],
            body: Body::Local(vec![Statement::Pass]),
        },
    ]))
    .unwrap();
    let main = id_of(&lib, "main");
    let two = id_of(&lib, "two");
    let trace = run(&lib, &FixedHost::new(Vec::new()));
    let at = [StackFrame::Function(main), StackFrame::Statement(0), StackFrame::Function(two)];
    assert_eq!(trace.status(&path(&at)), RunState::Failed);
}

#[test]
fn endless_recursion_stops_at_depth_limit() {
    let lib = Library::link(Module::new(vec![local("main", vec![call_stmt("main")])])).unwrap();
    let main = id_of(&lib, "main");
    let trace = run(&lib, &FixedHost::new(Vec::new()));
    assert_eq!(trace.status(&path(&[StackFrame::Function(main)])), RunState::Failed);
    let mut frames = vec![StackFrame::Function(main)];
    for _ in 0..serpent_automation::run::MAX_CALL_DEPTH {
        frames.push(StackFrame::Statement(0));
        frames.push(StackFrame::Function(main));
    }
    assert_eq!(trace.status(&path(&frames)), RunState::Failed);
    frames.push(StackFrame::Statement(0));
    frames.push(StackFrame::Function(main));
    assert_eq!(trace.status(&path(&frames)), RunState::NotRun);
}

#[test]
fn published_snapshot_matches_final_trace() {
    let lib = Library::link(Module::new(vec![
        local("main", vec![call_stmt("f"), call_stmt("f")]),
        local("f", vec![Statement::Pass]),
    ]))
    .unwrap();
    let (sink, receiver) = watch::channel(RunTracer::new());
    let trace = lib.run(&FixedHost::new(Vec::new()), &sink);
    let published = receiver.borrow();
    assert_eq!(published.len(), 3);
    for (stack, state) in trace.entries() {
        assert_eq!(published.status(&stack), state);
    }
}

#[test]
fn status_is_stable_between_updates() {
    let mut tracer = RunTracer::new();
    let stack = path(&[StackFrame::Argument(2)]);
    assert_eq!(tracer.status(&stack), RunState::NotRun);
    tracer.set_status(&stack, RunState::Running);
    let first = tracer.status(&stack);
    let second = tracer.status(&stack);
    assert_eq!(first, second);
    assert_eq!(first, RunState::Running);
    tracer.set_status(&stack, RunState::Successful);
    assert_eq!(tracer.status(&stack), RunState::Successful);
    assert_eq!(tracer.len(), 1);
}

#[test]
fn different_points_have_different_paths() {
    let a = path(&[StackFrame::Statement(0), StackFrame::Argument(1)]);
    let b = path(&[StackFrame::Statement(0), StackFrame::Statement(1)]);
    let c = path(&[StackFrame::Statement(0)]);
    assert!(!a.same_path(&b));
    assert!(!a.same_path(&c));
    assert!(a.same_path(&a.duplicate()));
    let mut tracer = RunTracer::new();
    tracer.set_status(&a, RunState::Failed);
    assert_eq!(tracer.status(&b), RunState::NotRun);
    assert_eq!(tracer.status(&c), RunState::NotRun);
    let mut popped = a.duplicate();
    assert_eq!(popped.pop(), Some(StackFrame::Argument(1)));
    assert!(popped.same_path(&c));
}

#[test]
fn snapshot_copies_every_entry() {
    let mut tracer = RunTracer::new();
    tracer.set_status(&path(&[StackFrame::Statement(3)]), RunState::PredicateSuccessful(false));
    tracer.set_status(&path(&[]), RunState::Running);
    let copy = tracer.snapshot();
    assert_eq!(copy.len(), 2);
    assert_eq!(copy.status(&path(&[StackFrame::Statement(3)])), RunState::PredicateSuccessful(false));
    assert_eq!(copy.status(&path(&[])), RunState::Running);
}
