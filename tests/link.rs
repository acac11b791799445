use serpent_automation::library::{FunctionId, Library};
use serpent_automation::syntax_tree::{
    expression_is_expandable, is_expandable, statement_is_expandable, Body, Expression, Function, Module, Statement, Value,
};

fn call(name: &str, args: Vec<Expression<String>>) -> Expression<String> {
    Expression::Call { name: name.to_string(), args }
}

fn local(name: &str, body: Vec<Statement<String>>) -> Function<String> {
    Function { name: name.to_string(), args: Vec::new(), body: Body::Local(body) }
}

fn first_callee(f: &Function<FunctionId>) -> FunctionId {
    match &f.body {
        Body::Local(stmts) => match &stmts[0] {
            Statement::Expression(Expression::Call { name, .. }) => *name,
            other => panic!("not a call: {:?}", other),
        },
        Body::External => panic!("external body"),
    }
}

#[test]
fn link_resolves_every_call() {
    let module = Module::new(vec![
        local("main", vec![Statement::Expression(call("f", vec![call("g", Vec::new())]))]),
        local("f", vec![Statement::Pass]),
        local("g", vec![Statement::Pass]),
    ]);
    let lib = Library::link(module).expect("links");
    let main_id = lib.main_id().expect("has main");
    let main = lib.lookup(main_id);
    assert_eq!(main.name(), "main");
    let f_id = first_callee(main);
    assert_eq!(lib.lookup(f_id).name, "f");
    match &main.body {
        Body::Local(stmts) => match &stmts[0] {
            Statement::Expression(Expression::Call { args, .. }) => match &args[0] {
                Expression::Call { name, args } => {
                    assert!(args.is_empty());
                    assert_eq!(lib.lookup(*name).name, "g");
                }
                other => panic!("not a call: {:?}", other),
            },
            other => panic!("not a call: {:?}", other),
        },
        Body::External => panic!("external body"),
    }
    assert_eq!(lib.main().map(|f| f.name.clone()), Some("main".to_string()));
}

#[test]
fn link_reports_undeclared_name() {
    let module = Module::new(vec![local("main", vec![Statement::Expression(call("missing", Vec::new()))])]);
    let err = Library::link(module).err().expect("link fails");
    assert_eq!(err.name, "missing");
}

#[test]
fn link_reports_undeclared_name_in_branch_and_argument() {
    let module = Module::new(vec![
        local(
            "main",
            vec![Statement::If {
                condition: Expression::Literal { value: Value::Bool(true) },
                then_block: vec![Statement::Pass],
                else_block: vec![Statement::Expression(call("main", vec![call("nowhere", Vec::new())]))],
            }],
        ),
    ]);
    let err = Library::link(module).err().expect("link fails");
    assert_eq!(err.name, "nowhere");
}

#[test]
fn module_without_main_has_no_main_id() {
    let module = Module::new(vec![local("helper", vec![Statement::Pass])]);
    let lib = Library::link(module).expect("links");
    assert!(lib.main_id().is_none());
    assert!(lib.main().is_none());
}

#[test]
fn last_declaration_of_a_name_wins() {
    let module = Module::new(vec![
        local("main", vec![Statement::Expression(call("f", Vec::new()))]),
        local("f", vec![Statement::Pass]),
        local("f", vec![Statement::Pass, Statement::Pass]),
    ]);
    let lib = Library::link(module).expect("links");
    let f_id = first_callee(lib.lookup(lib.main_id().unwrap()));
    match &lib.lookup(f_id).body {
        Body::Local(stmts) => assert_eq!(stmts.len(), 2),
        Body::External => panic!("external body"),
    }
}

#[test]
fn parameters_and_names_are_kept() {
    let module = Module::new(vec![
        Function {
            name: "main".to_string(),
            args: vec!["x".to_string(), "y".to_string()],
            body: Body::Local(vec![Statement::Expression(Expression::Variable { name: "y".to_string() })]),
        },
        Function { name: "host".to_string(), args: Vec::new(), body: Body::External },
    ]);
    let lib = Library::link(module).expect("links");
    let main = lib.main().unwrap();
    assert_eq!(main.args, vec!["x".to_string(), "y".to_string()]);
    match &main.body {
        Body::Local(stmts) => match &stmts[0] {
            Statement::Expression(Expression::Variable { name }) => assert_eq!(name, "y"),
            other => panic!("unexpected {:?}", other),
        },
        Body::External => panic!("external body"),
    }
}

#[test]
fn expandable_only_with_a_call() {
    let module = Module::new(vec![
        local(
            "main",
            vec![
                Statement::Pass,
                Statement::Expression(Expression::Literal { value: Value::Int(3) }),
                Statement::If {
                    condition: Expression::Variable { name: "c".to_string() },
                    then_block: vec![Statement::Pass],
                    else_block: vec![Statement::Expression(call("f", Vec::new()))],
                },
                Statement::Expression(call("f", Vec::new())),
            ],
        ),
        local("f", vec![Statement::Pass]),
    ]);
    let lib = Library::link(module).expect("links");
    match &lib.main().unwrap().body {
        Body::Local(stmts) => {
            assert!(!statement_is_expandable(&stmts[0]));
            assert!(!statement_is_expandable(&stmts[1]));
            assert!(statement_is_expandable(&stmts[2]));
            assert!(statement_is_expandable(&stmts[3]));
            assert!(!is_expandable(&stmts[0..2]));
            assert!(is_expandable(&stmts[1..3]));
            assert!(!is_expandable::<FunctionId>(&[]));
        }
        Body::External => panic!("external body"),
    }
}

#[test]
fn branch_without_call_is_not_expandable() {
    let stmt: Statement<FunctionId> = Statement::If {
        condition: Expression::Literal { value: Value::Bool(false) },
        then_block: vec![Statement::Pass],
        else_block: Vec::new(),
    };
    assert!(!statement_is_expandable(&stmt));
}

#[test]
fn call_expression_is_expandable() {
    let e: Expression<String> = call("f", Vec::new());
    assert!(expression_is_expandable(&e));
    let v: Expression<String> = Expression::Variable { name: "x".to_string() };
    assert!(!expression_is_expandable(&v));
}
