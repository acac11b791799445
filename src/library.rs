//! Linking: resolving the function names of a [`Module`] to dense ids, and
//! the immutable [`Library`] that results.

use crate::syntax_tree::{Body, Expression, Function, Module, Statement};
use vstd::prelude::*;

verus! {

/// An id for a function that is fast to lookup.
#[derive(Clone, Copy, PartialEq, Eq, Structural, Hash, Debug)]
pub struct FunctionId(usize);

impl FunctionId {
    /// The position of the function in the library that issued this id.
    pub closed spec fn spec_index(self) -> nat {
        self.0 as nat
    }

    /// The id of the function at position `index`.
    pub fn from_index(index: usize) -> (r: FunctionId)
        ensures
            r.spec_index() == index,
    {
        FunctionId(index)
    }

    /// The position of the function in the library that issued this id.
    pub fn index(&self) -> (r: usize)
        ensures
            r == self.spec_index(),
    {
        self.0
    }
}

/// A call to a function name that the module does not declare.
#[derive(Debug)]
pub struct LinkError {
    pub name: String,
}

/// The linked functions of a module, indexed by [`FunctionId`], and the id
/// of the function named `main` if there is one.
pub struct Library {
    main_id: Option<FunctionId>,
    lookup_map: Vec<Function<FunctionId>>,
}

impl Library {
    /// The linked functions, in declaration order.
    pub closed spec fn spec_functions(&self) -> Seq<Function<FunctionId>> {
        self.lookup_map@
    }

    pub closed spec fn spec_main_id(&self) -> Option<FunctionId> {
        self.main_id
    }

    /// Every id that the library hands out, or that a call inside one of its
    /// functions holds, is a valid index into it.
    pub open spec fn wf(&self) -> bool {
        &&& forall|i: int|
            0 <= i < self.spec_functions().len() ==> #[trigger] function_ids_below(
                self.spec_functions()[i],
                self.spec_functions().len(),
            )
        &&& match self.spec_main_id() {
            Some(id) => id.spec_index() < self.spec_functions().len(),
            None => true,
        }
    }

    #[verifier::type_invariant]
    closed spec fn inv(&self) -> bool {
        self.wf()
    }

    /// Translate every called name of `module` to the [`FunctionId`] of the
    /// last function declared with that name.
    ///
    /// Fails with the name of a called function that the module does not
    /// declare; no library is built then.
    pub fn link(module: Module) -> (r: Result<Library, LinkError>)
        ensures
            r is Ok <==> module_resolves(module.functions@),
            match r {
                Ok(lib) => {
                    &&& lib.wf()
                    &&& lib.spec_functions().len() == module.functions.len()
                    &&& forall|i: int|
                        0 <= i < module.functions.len() ==> #[trigger] function_linked(
                            module.functions@[i],
                            lib.spec_functions()[i],
                            module.functions@,
                        )
                    &&& match lib.spec_main_id() {
                        Some(id) => id.spec_index() == resolve(module.functions@, "main"@),
                        None => resolve(module.functions@, "main"@) < 0,
                    }
                },
                Err(err) => module_calls_undeclared(module.functions@, err.name@),
            },
    {
        let fns = &module.functions;
        let main_name = "main".to_owned();
        let main_id = resolve_name(fns, &main_name);
        let mut lookup_map: Vec<Function<FunctionId>> = Vec::new();
        let mut i: usize = 0;
        while i < fns.len()
            invariant
                i <= fns.len(),
                fns@ == module.functions@,
                lookup_map.len() == i,
                forall|j: int|
                    0 <= j < i ==> #[trigger] function_linked(fns@[j], lookup_map@[j], fns@)
                        && function_ids_below(lookup_map@[j], fns@.len()),
                forall|j: int, n: Seq<char>|
                    0 <= j < i ==> !#[trigger] function_calls_undeclared(fns@[j], fns@, n),
            decreases fns.len() - i,
        {
            match link_function(&fns[i], fns) {
                Ok(f) => lookup_map.push(f),
                Err(err) => {
                    assert(function_calls_undeclared(fns@[i as int], fns@, err.name@));
                    assert(module_calls_undeclared(fns@, err.name@));
                    return Err(err);
                },
            }
            i = i + 1;
        }
        assert forall|n: Seq<char>| !#[trigger] module_calls_undeclared(fns@, n) by {
            assert forall|j: int| 0 <= j < fns.len() implies !#[trigger] function_calls_undeclared(
                fns@[j],
                fns@,
                n,
            ) by {}
        }
        assert forall|j: int| 0 <= j < lookup_map@.len() implies #[trigger] function_ids_below(
            lookup_map@[j],
            lookup_map@.len(),
        ) by {
            assert(function_linked(fns@[j], lookup_map@[j], fns@));
        }
        let lib = Library { main_id, lookup_map };
        Ok(lib)
    }

    /// The function with id `id`.
    ///
    /// Any [`FunctionId`] in the result is valid to look up in this library.
    pub fn lookup(&self, id: FunctionId) -> (r: &Function<FunctionId>)
        requires
            id.spec_index() < self.spec_functions().len(),
        ensures
            *r == self.spec_functions()[id.spec_index() as int],
    {
        &self.lookup_map[id.0]
    }

    /// The function called "main", if there is one.
    pub fn main(&self) -> (r: Option<&Function<FunctionId>>)
        ensures
            match self.spec_main_id() {
                Some(id) => r == Some(&self.spec_functions()[id.spec_index() as int]),
                None => r is None,
            },
    {
        proof {
            use_type_invariant(self);
        }
        match self.main_id {
            Some(id) => Some(self.lookup(id)),
            None => None,
        }
    }

    /// The id of the function called "main", if there is one.
    pub fn main_id(&self) -> (r: Option<FunctionId>)
        ensures
            r == self.spec_main_id(),
            self.wf(),
    {
        proof {
            use_type_invariant(self);
        }
        self.main_id
    }
}

/// Linking either fails before any library exists or yields one in which
/// every id held by a call, in any of its functions, is one that `lookup`
/// accepts.
pub proof fn linked_call_ids_are_valid(lib: Library, i: int)
    requires
        lib.wf(),
        0 <= i < lib.spec_functions().len(),
    ensures
        function_ids_below(lib.spec_functions()[i], lib.spec_functions().len()),
{
}

/// Position of the last function of `fns` named `name`, or -1 when there is
/// none: the last declaration of a name wins.
pub open spec fn resolve(fns: Seq<Function<String>>, name: Seq<char>) -> int
    decreases fns.len(),
{
    if fns.len() == 0 {
        -1
    } else if fns.last().name@ == name {
        fns.len() - 1
    } else {
        resolve(fns.drop_last(), name)
    }
}

/// `dst` is `src` with every called name replaced by the id it resolves to.
pub open spec fn expression_linked(
    src: Expression<String>,
    dst: Expression<FunctionId>,
    fns: Seq<Function<String>>,
) -> bool
    decreases src, 0int,
{
    match src {
        Expression::Variable { name } => dst == Expression::<FunctionId>::Variable { name },
        Expression::Literal { value } => dst == Expression::<FunctionId>::Literal { value },
        Expression::Call { name, args } => match dst {
            Expression::Call { name: id, args: linked_args } => {
                &&& resolve(fns, name@) >= 0
                &&& id.spec_index() == resolve(fns, name@)
                &&& linked_args.len() == args.len()
                &&& args_linked(args@, linked_args@, fns, args.len() as int)
            },
            _ => false,
        },
    }
}

/// The first `n` expressions of `dsts` are those of `srcs`, linked.
pub open spec fn args_linked(
    srcs: Seq<Expression<String>>,
    dsts: Seq<Expression<FunctionId>>,
    fns: Seq<Function<String>>,
    n: int,
) -> bool
    decreases srcs, n,
{
    if n <= 0 || n > srcs.len() {
        true
    } else {
        args_linked(srcs, dsts, fns, n - 1) && expression_linked(srcs[n - 1], dsts[n - 1], fns)
    }
}

/// `dst` is `src` with every called name replaced by the id it resolves to.
pub open spec fn statement_linked(
    src: Statement<String>,
    dst: Statement<FunctionId>,
    fns: Seq<Function<String>>,
) -> bool
    decreases src, 0int,
{
    match src {
        Statement::Pass => dst is Pass,
        Statement::Expression(e) => match dst {
            Statement::Expression(d) => expression_linked(e, d, fns),
            _ => false,
        },
        Statement::If { condition, then_block, else_block } => match dst {
            Statement::If {
                condition: linked_condition,
                then_block: linked_then,
                else_block: linked_else,
            } => {
                &&& expression_linked(condition, linked_condition, fns)
                &&& linked_then.len() == then_block.len()
                &&& block_linked(then_block@, linked_then@, fns, then_block.len() as int)
                &&& linked_else.len() == else_block.len()
                &&& block_linked(else_block@, linked_else@, fns, else_block.len() as int)
            },
            _ => false,
        },
    }
}

/// The first `n` statements of `dsts` are those of `srcs`, linked.
pub open spec fn block_linked(
    srcs: Seq<Statement<String>>,
    dsts: Seq<Statement<FunctionId>>,
    fns: Seq<Function<String>>,
    n: int,
) -> bool
    decreases srcs, n,
{
    if n <= 0 || n > srcs.len() {
        true
    } else {
        block_linked(srcs, dsts, fns, n - 1) && statement_linked(srcs[n - 1], dsts[n - 1], fns)
    }
}

/// `dst` is `src` with the same name and parameters, and its body linked.
pub open spec fn function_linked(
    src: Function<String>,
    dst: Function<FunctionId>,
    fns: Seq<Function<String>>,
) -> bool {
    &&& dst.name == src.name
    &&& dst.args@ == src.args@
    &&& match (src.body, dst.body) {
        (Body::Local(stmts), Body::Local(linked)) => linked.len() == stmts.len() && block_linked(
            stmts@,
            linked@,
            fns,
            stmts.len() as int,
        ),
        (Body::External, Body::External) => true,
        _ => false,
    }
}

/// `name` is called in `e` and no function of `fns` is named so.
pub open spec fn expression_calls_undeclared(
    e: Expression<String>,
    fns: Seq<Function<String>>,
    name: Seq<char>,
) -> bool
    decreases e, 0int,
{
    match e {
        Expression::Call { name: callee, args } => (callee@ == name && resolve(fns, name) < 0)
            || args_call_undeclared(args@, fns, name, args.len() as int),
        _ => false,
    }
}

/// `name` is undeclared and called in one of the first `n` expressions.
pub open spec fn args_call_undeclared(
    args: Seq<Expression<String>>,
    fns: Seq<Function<String>>,
    name: Seq<char>,
    n: int,
) -> bool
    decreases args, n,
{
    if n <= 0 || n > args.len() {
        false
    } else {
        args_call_undeclared(args, fns, name, n - 1) || expression_calls_undeclared(
            args[n - 1],
            fns,
            name,
        )
    }
}

/// `name` is called in `s` and no function of `fns` is named so.
pub open spec fn statement_calls_undeclared(
    s: Statement<String>,
    fns: Seq<Function<String>>,
    name: Seq<char>,
) -> bool
    decreases s, 0int,
{
    match s {
        Statement::Pass => false,
        Statement::Expression(e) => expression_calls_undeclared(e, fns, name),
        Statement::If { condition, then_block, else_block } => expression_calls_undeclared(
            condition,
            fns,
            name,
        ) || block_calls_undeclared(then_block@, fns, name, then_block.len() as int)
            || block_calls_undeclared(else_block@, fns, name, else_block.len() as int),
    }
}

/// `name` is undeclared and called in one of the first `n` statements.
pub open spec fn block_calls_undeclared(
    stmts: Seq<Statement<String>>,
    fns: Seq<Function<String>>,
    name: Seq<char>,
    n: int,
) -> bool
    decreases stmts, n,
{
    if n <= 0 || n > stmts.len() {
        false
    } else {
        block_calls_undeclared(stmts, fns, name, n - 1) || statement_calls_undeclared(
            stmts[n - 1],
            fns,
            name,
        )
    }
}

/// `name` is undeclared and called in the body of `f`.
pub open spec fn function_calls_undeclared(
    f: Function<String>,
    fns: Seq<Function<String>>,
    name: Seq<char>,
) -> bool {
    match f.body {
        Body::Local(stmts) => block_calls_undeclared(stmts@, fns, name, stmts.len() as int),
        Body::External => false,
    }
}

/// `name` is called somewhere in the module and no function is named so.
pub open spec fn module_calls_undeclared(fns: Seq<Function<String>>, name: Seq<char>) -> bool {
    exists|i: int| 0 <= i < fns.len() && #[trigger] function_calls_undeclared(fns[i], fns, name)
}

/// Every name called in the module is declared in it.
pub open spec fn module_resolves(fns: Seq<Function<String>>) -> bool {
    forall|name: Seq<char>| !#[trigger] module_calls_undeclared(fns, name)
}

/// Every id called in `e` is below `n`.
pub open spec fn expression_ids_below(e: Expression<FunctionId>, n: nat) -> bool
    decreases e, 0int,
{
    match e {
        Expression::Call { name, args } => name.spec_index() < n && args_ids_below(
            args@,
            n,
            args.len() as int,
        ),
        _ => true,
    }
}

/// Every id called in the first `k` expressions is below `n`.
pub open spec fn args_ids_below(args: Seq<Expression<FunctionId>>, n: nat, k: int) -> bool
    decreases args, k,
{
    if k <= 0 || k > args.len() {
        true
    } else {
        args_ids_below(args, n, k - 1) && expression_ids_below(args[k - 1], n)
    }
}

/// Every id called in `s` is below `n`.
pub open spec fn statement_ids_below(s: Statement<FunctionId>, n: nat) -> bool
    decreases s, 0int,
{
    match s {
        Statement::Pass => true,
        Statement::Expression(e) => expression_ids_below(e, n),
        Statement::If { condition, then_block, else_block } => {
            &&& expression_ids_below(condition, n)
            &&& block_ids_below(then_block@, n, then_block.len() as int)
            &&& block_ids_below(else_block@, n, else_block.len() as int)
        },
    }
}

/// Every id called in the first `k` statements is below `n`.
pub open spec fn block_ids_below(stmts: Seq<Statement<FunctionId>>, n: nat, k: int) -> bool
    decreases stmts, k,
{
    if k <= 0 || k > stmts.len() {
        true
    } else {
        block_ids_below(stmts, n, k - 1) && statement_ids_below(stmts[k - 1], n)
    }
}

/// Every id called in the body of `f` is below `n`.
pub open spec fn function_ids_below(f: Function<FunctionId>, n: nat) -> bool {
    match f.body {
        Body::Local(stmts) => block_ids_below(stmts@, n, stmts.len() as int),
        Body::External => true,
    }
}

proof fn lemma_args_linked(
    srcs: Seq<Expression<String>>,
    dsts: Seq<Expression<FunctionId>>,
    fns: Seq<Function<String>>,
    n: int,
)
    requires
        n <= srcs.len(),
        n <= dsts.len(),
        forall|j: int| 0 <= j < n ==> #[trigger] expression_linked(srcs[j], dsts[j], fns),
    ensures
        args_linked(srcs, dsts, fns, n),
    decreases n,
{
    if n > 0 {
        lemma_args_linked(srcs, dsts, fns, n - 1);
        assert(expression_linked(srcs[n - 1], dsts[n - 1], fns));
    }
}

proof fn lemma_block_linked(
    srcs: Seq<Statement<String>>,
    dsts: Seq<Statement<FunctionId>>,
    fns: Seq<Function<String>>,
    n: int,
)
    requires
        n <= srcs.len(),
        n <= dsts.len(),
        forall|j: int| 0 <= j < n ==> #[trigger] statement_linked(srcs[j], dsts[j], fns),
    ensures
        block_linked(srcs, dsts, fns, n),
    decreases n,
{
    if n > 0 {
        lemma_block_linked(srcs, dsts, fns, n - 1);
        assert(statement_linked(srcs[n - 1], dsts[n - 1], fns));
    }
}

proof fn lemma_args_ids_below(args: Seq<Expression<FunctionId>>, n: nat, k: int)
    requires
        k <= args.len(),
        forall|j: int| 0 <= j < k ==> #[trigger] expression_ids_below(args[j], n),
    ensures
        args_ids_below(args, n, k),
    decreases k,
{
    if k > 0 {
        lemma_args_ids_below(args, n, k - 1);
        assert(expression_ids_below(args[k - 1], n));
    }
}

proof fn lemma_block_ids_below(stmts: Seq<Statement<FunctionId>>, n: nat, k: int)
    requires
        k <= stmts.len(),
        forall|j: int| 0 <= j < k ==> #[trigger] statement_ids_below(stmts[j], n),
    ensures
        block_ids_below(stmts, n, k),
    decreases k,
{
    if k > 0 {
        lemma_block_ids_below(stmts, n, k - 1);
        assert(statement_ids_below(stmts[k - 1], n));
    }
}

proof fn lemma_args_declared(
    args: Seq<Expression<String>>,
    fns: Seq<Function<String>>,
    name: Seq<char>,
    n: int,
)
    requires
        n <= args.len(),
        forall|j: int|
            0 <= j < n ==> !#[trigger] expression_calls_undeclared(args[j], fns, name),
    ensures
        !args_call_undeclared(args, fns, name, n),
    decreases n,
{
    if n > 0 {
        lemma_args_declared(args, fns, name, n - 1);
        assert(!expression_calls_undeclared(args[n - 1], fns, name));
    }
}

proof fn lemma_block_declared(
    stmts: Seq<Statement<String>>,
    fns: Seq<Function<String>>,
    name: Seq<char>,
    n: int,
)
    requires
        n <= stmts.len(),
        forall|j: int|
            0 <= j < n ==> !#[trigger] statement_calls_undeclared(stmts[j], fns, name),
    ensures
        !block_calls_undeclared(stmts, fns, name, n),
    decreases n,
{
    if n > 0 {
        lemma_block_declared(stmts, fns, name, n - 1);
        assert(!statement_calls_undeclared(stmts[n - 1], fns, name));
    }
}

proof fn lemma_args_undeclared_grows(
    args: Seq<Expression<String>>,
    fns: Seq<Function<String>>,
    name: Seq<char>,
    k: int,
    n: int,
)
    requires
        args_call_undeclared(args, fns, name, k),
        k <= n <= args.len(),
    ensures
        args_call_undeclared(args, fns, name, n),
    decreases n - k,
{
    if k < n {
        lemma_args_undeclared_grows(args, fns, name, k, n - 1);
    }
}

proof fn lemma_block_undeclared_grows(
    stmts: Seq<Statement<String>>,
    fns: Seq<Function<String>>,
    name: Seq<char>,
    k: int,
    n: int,
)
    requires
        block_calls_undeclared(stmts, fns, name, k),
        k <= n <= stmts.len(),
    ensures
        block_calls_undeclared(stmts, fns, name, n),
    decreases n - k,
{
    if k < n {
        lemma_block_undeclared_grows(stmts, fns, name, k, n - 1);
    }
}

/// The id of the last function of `fns` named `name`.
fn resolve_name(fns: &Vec<Function<String>>, name: &String) -> (r: Option<FunctionId>)
    ensures
        match r {
            Some(id) => {
                &&& resolve(fns@, name@) >= 0
                &&& id.spec_index() == resolve(fns@, name@)
                &&& id.spec_index() < fns.len()
            },
            None => resolve(fns@, name@) < 0,
        },
{
    let mut i: usize = fns.len();
    assert(fns@.subrange(0, i as int) =~= fns@);
    while i > 0
        invariant
            i <= fns.len(),
            resolve(fns@, name@) == resolve(fns@.subrange(0, i as int), name@),
        decreases i,
    {
        let ghost prefix = fns@.subrange(0, i as int);
        assert(prefix.drop_last() =~= fns@.subrange(0, i - 1));
        if fns[i - 1].name == *name {
            return Some(FunctionId(i - 1));
        }
        i = i - 1;
    }
    None
}

fn clone_names(names: &Vec<String>) -> (r: Vec<String>)
    ensures
        r@ == names@,
{
    let mut out: Vec<String> = Vec::new();
    let mut i: usize = 0;
    while i < names.len()
        invariant
            i <= names.len(),
            out@ == names@.subrange(0, i as int),
        decreases names.len() - i,
    {
        out.push(names[i].clone());
        i = i + 1;
    }
    assert(out@ =~= names@);
    out
}

fn link_expression(e: &Expression<String>, fns: &Vec<Function<String>>) -> (r: Result<
    Expression<FunctionId>,
    LinkError,
>)
    ensures
        match r {
            Ok(d) => {
                &&& expression_linked(*e, d, fns@)
                &&& expression_ids_below(d, fns@.len())
                &&& forall|n: Seq<char>| !#[trigger] expression_calls_undeclared(*e, fns@, n)
            },
            Err(err) => expression_calls_undeclared(*e, fns@, err.name@),
        },
    decreases e,
{
    match e {
        Expression::Variable { name } => Ok(Expression::Variable { name: name.clone() }),
        Expression::Literal { value } => Ok(Expression::Literal { value: *value }),
        Expression::Call { name, args } => match resolve_name(fns, name) {
            None => Err(LinkError { name: name.clone() }),
            Some(id) => match link_args(args, fns) {
                Ok(linked_args) => {
                    let d = Expression::Call { name: id, args: linked_args };
                    proof {
                        assert forall|n: Seq<char>|
                            !#[trigger] expression_calls_undeclared(*e, fns@, n) by {
                            assert(!args_call_undeclared(args@, fns@, n, args.len() as int));
                        }
                        assert(expression_linked(*e, d, fns@));
                        assert(expression_ids_below(d, fns@.len()));
                    }
                    Ok(d)
                },
                Err(err) => Err(err),
            },
        },
    }
}

fn link_args(args: &Vec<Expression<String>>, fns: &Vec<Function<String>>) -> (r: Result<
    Vec<Expression<FunctionId>>,
    LinkError,
>)
    ensures
        match r {
            Ok(d) => {
                &&& d.len() == args.len()
                &&& args_linked(args@, d@, fns@, args.len() as int)
                &&& args_ids_below(d@, fns@.len(), args.len() as int)
                &&& forall|n: Seq<char>|
                    !#[trigger] args_call_undeclared(args@, fns@, n, args.len() as int)
            },
            Err(err) => args_call_undeclared(args@, fns@, err.name@, args.len() as int),
        },
    decreases args,
{
    let mut out: Vec<Expression<FunctionId>> = Vec::new();
    let mut i: usize = 0;
    while i < args.len()
        invariant
            i <= args.len(),
            out.len() == i,
            forall|j: int|
                0 <= j < i ==> #[trigger] expression_linked(args@[j], out@[j], fns@)
                    && expression_ids_below(out@[j], fns@.len()),
            forall|j: int, n: Seq<char>|
                0 <= j < i ==> !#[trigger] expression_calls_undeclared(args@[j], fns@, n),
        decreases args.len() - i,
    {
        match link_expression(&args[i], fns) {
            Ok(d) => out.push(d),
            Err(err) => {
                proof {
                    lemma_args_undeclared_grows(args@, fns@, err.name@, i + 1, args.len() as int);
                }
                return Err(err);
            },
        }
        i = i + 1;
    }
    proof {
        lemma_args_linked(args@, out@, fns@, args.len() as int);
        assert forall|j: int| 0 <= j < args.len() implies #[trigger] expression_ids_below(
            out@[j],
            fns@.len(),
        ) by {
            assert(expression_linked(args@[j], out@[j], fns@));
        }
        lemma_args_ids_below(out@, fns@.len(), args.len() as int);
        assert forall|n: Seq<char>|
            !#[trigger] args_call_undeclared(args@, fns@, n, args.len() as int) by {
            lemma_args_declared(args@, fns@, n, args.len() as int);
        }
    }
    Ok(out)
}

fn link_statement(s: &Statement<String>, fns: &Vec<Function<String>>) -> (r: Result<
    Statement<FunctionId>,
    LinkError,
>)
    ensures
        match r {
            Ok(d) => {
                &&& statement_linked(*s, d, fns@)
                &&& statement_ids_below(d, fns@.len())
                &&& forall|n: Seq<char>| !#[trigger] statement_calls_undeclared(*s, fns@, n)
            },
            Err(err) => statement_calls_undeclared(*s, fns@, err.name@),
        },
    decreases s,
{
    match s {
        Statement::Pass => Ok(Statement::Pass),
        Statement::Expression(e) => match link_expression(e, fns) {
            Ok(d) => {
                proof {
                    assert forall|n: Seq<char>|
                        !#[trigger] statement_calls_undeclared(*s, fns@, n) by {
                        assert(!expression_calls_undeclared(*e, fns@, n));
                    }
                }
                Ok(Statement::Expression(d))
            },
            Err(err) => Err(err),
        },
        Statement::If { condition, then_block, else_block } => {
            let linked_condition = match link_expression(condition, fns) {
                Ok(d) => d,
                Err(err) => return Err(err),
            };
            let linked_then = match link_block(then_block, fns) {
                Ok(d) => d,
                Err(err) => return Err(err),
            };
            let linked_else = match link_block(else_block, fns) {
                Ok(d) => d,
                Err(err) => return Err(err),
            };
            let d = Statement::If {
                condition: linked_condition,
                then_block: linked_then,
                else_block: linked_else,
            };
            proof {
                assert forall|n: Seq<char>| !#[trigger] statement_calls_undeclared(*s, fns@, n) by {
                    assert(!expression_calls_undeclared(*condition, fns@, n));
                    assert(!block_calls_undeclared(then_block@, fns@, n, then_block.len() as int));
                    assert(!block_calls_undeclared(else_block@, fns@, n, else_block.len() as int));
                }
            }
            Ok(d)
        },
    }
}

fn link_block(stmts: &Vec<Statement<String>>, fns: &Vec<Function<String>>) -> (r: Result<
    Vec<Statement<FunctionId>>,
    LinkError,
>)
    ensures
        match r {
            Ok(d) => {
                &&& d.len() == stmts.len()
                &&& block_linked(stmts@, d@, fns@, stmts.len() as int)
                &&& block_ids_below(d@, fns@.len(), stmts.len() as int)
                &&& forall|n: Seq<char>|
                    !#[trigger] block_calls_undeclared(stmts@, fns@, n, stmts.len() as int)
            },
            Err(err) => block_calls_undeclared(stmts@, fns@, err.name@, stmts.len() as int),
        },
    decreases stmts,
{
    let mut out: Vec<Statement<FunctionId>> = Vec::new();
    let mut i: usize = 0;
    while i < stmts.len()
        invariant
            i <= stmts.len(),
            out.len() == i,
            forall|j: int|
                0 <= j < i ==> #[trigger] statement_linked(stmts@[j], out@[j], fns@)
                    && statement_ids_below(out@[j], fns@.len()),
            forall|j: int, n: Seq<char>|
                0 <= j < i ==> !#[trigger] statement_calls_undeclared(stmts@[j], fns@, n),
        decreases stmts.len() - i,
    {
        match link_statement(&stmts[i], fns) {
            Ok(d) => out.push(d),
            Err(err) => {
                proof {
                    lemma_block_undeclared_grows(
                        stmts@,
                        fns@,
                        err.name@,
                        i + 1,
                        stmts.len() as int,
                    );
                }
                return Err(err);
            },
        }
        i = i + 1;
    }
    proof {
        lemma_block_linked(stmts@, out@, fns@, stmts.len() as int);
        assert forall|j: int| 0 <= j < stmts.len() implies #[trigger] statement_ids_below(
            out@[j],
            fns@.len(),
        ) by {
            assert(statement_linked(stmts@[j], out@[j], fns@));
        }
        lemma_block_ids_below(out@, fns@.len(), stmts.len() as int);
        assert forall|n: Seq<char>|
            !#[trigger] block_calls_undeclared(stmts@, fns@, n, stmts.len() as int) by {
            lemma_block_declared(stmts@, fns@, n, stmts.len() as int);
        }
    }
    Ok(out)
}

fn link_function(f: &Function<String>, fns: &Vec<Function<String>>) -> (r: Result<
    Function<FunctionId>,
    LinkError,
>)
    ensures
        match r {
            Ok(d) => {
                &&& function_linked(*f, d, fns@)
                &&& function_ids_below(d, fns@.len())
                &&& forall|n: Seq<char>| !#[trigger] function_calls_undeclared(*f, fns@, n)
            },
            Err(err) => function_calls_undeclared(*f, fns@, err.name@),
        },
{
    let body = match &f.body {
        Body::Local(stmts) => match link_block(stmts, fns) {
            Ok(d) => Body::Local(d),
            Err(err) => return Err(err),
        },
        Body::External => Body::External,
    };
    Ok(Function { name: f.name.clone(), args: clone_names(&f.args), body })
}

} // verus!
