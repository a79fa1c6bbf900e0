use crate::ast::ExpressionView;
use crate::ast::StatementView;
use crate::eval::bind_parameters;
use crate::eval::builtin_result;
use crate::eval::call_function_spec;
use crate::eval::eval_expression_spec;
use crate::eval::eval_expressions_spec;
use crate::eval::eval_statement_spec;
use crate::eval::eval_statements_spec;
use crate::eval::eval_statements_with_inner_env_spec;
use crate::object::environment::EnvironmentView;
use crate::object::BuiltinFunction;
use crate::object::ObjectView;
use vstd::prelude::*;

verus! {

/// Whether `after` still holds every scope of `before` as it was.
pub open spec fn scopes_kept(before: EnvironmentView, after: EnvironmentView) -> bool {
    &&& before.scopes.len() <= after.scopes.len()
    &&& forall|i: int| 0 <= i < before.scopes.len() ==> after.scopes[i] == before.scopes[i]
}

/// Whether `after` still holds every scope of `before` as it was, but for
/// the bindings of the scope `changed`.
pub open spec fn scopes_kept_but(
    before: EnvironmentView,
    after: EnvironmentView,
    changed: nat,
) -> bool {
    &&& before.scopes.len() <= after.scopes.len()
    &&& forall|i: int|
        0 <= i < before.scopes.len() && i != changed ==> after.scopes[i] == before.scopes[i]
    &&& changed < before.scopes.len() ==> after.scopes[changed as int].outer
        == before.scopes[changed as int].outer && after.scopes[changed as int].closure
        == before.scopes[changed as int].closure
}

/// What a name is bound to, seen from a scope, depends on that scope and on
/// older ones only.
pub proof fn lemma_lookup_reads_older_scopes(
    a: EnvironmentView,
    b: EnvironmentView,
    scope: nat,
    name: Seq<char>,
)
    requires
        scope < a.scopes.len(),
        scope < b.scopes.len(),
        forall|i: int| 0 <= i <= scope ==> a.scopes[i] == b.scopes[i],
    ensures
        a.lookup(scope, name) == b.lookup(scope, name),
    decreases scope,
{
    if !a.scopes[scope as int].bindings.contains_key(name) {
        match a.scopes[scope as int].outer {
            Some(outer) => {
                if outer < scope {
                    lemma_lookup_reads_older_scopes(a, b, outer, name);
                }
            },
            None => {},
        }
    }
}

/// Binding parameters changes the bindings of the scope of the call only.
pub proof fn lemma_parameters_keep_other_scopes(
    env: EnvironmentView,
    scope: nat,
    names: Seq<Seq<char>>,
    values: Seq<ObjectView>,
    n: nat,
)
    requires
        scope < env.scopes.len(),
    ensures
        scopes_kept_but(env, bind_parameters(env, scope, names, values, n), scope),
        bind_parameters(env, scope, names, values, n).scopes.len() == env.scopes.len(),
    decreases n,
{
    if !(n == 0 || n > names.len() || n > values.len()) {
        lemma_parameters_keep_other_scopes(env, scope, names, values, (n - 1) as nat);
    }
}

/// A built-in function changes no scope.
pub proof fn lemma_builtin_keeps_scopes(
    builtin: BuiltinFunction,
    arguments: Seq<ObjectView>,
    env: EnvironmentView,
)
    ensures
        scopes_kept(env, builtin_result(builtin, arguments, env).1),
{
}

/// Evaluating an expression leaves every scope that was there as it was:
/// what an expression binds, it binds in scopes that it makes.
pub proof fn lemma_expression_keeps_scopes(
    e: ExpressionView,
    scope: nat,
    env: EnvironmentView,
    depth: nat,
)
    requires
        scope < env.scopes.len(),
    ensures
        scopes_kept(env, eval_expression_spec(e, scope, env, depth).1),
    decreases depth, e, 0nat,
{
    match e {
        ExpressionView::Prefix { operator, right } => {
            lemma_expression_keeps_scopes(*right, scope, env, depth);
        },
        ExpressionView::Infix { left, operator, right } => {
            lemma_expression_keeps_scopes(*left, scope, env, depth);
            let (first, env1) = eval_expression_spec(*left, scope, env, depth);
            if first is Ok {
                lemma_expression_keeps_scopes(*right, scope, env1, depth);
            }
        },
        ExpressionView::If { condition, consequence, alternative } => {
            lemma_expression_keeps_scopes(*condition, scope, env, depth);
            let (tested, env1) = eval_expression_spec(*condition, scope, env, depth);
            match tested {
                Ok(ObjectView::Boolean(holds)) => {
                    if holds {
                        lemma_inner_env_keeps_scopes(consequence, scope, env1, depth);
                    } else {
                        match alternative {
                            Some(block) => {
                                lemma_inner_env_keeps_scopes(block, scope, env1, depth);
                            },
                            None => {},
                        }
                    }
                },
                _ => {},
            }
        },
        ExpressionView::CallExpression { left, arguments } => {
            lemma_expression_keeps_scopes(*left, scope, env, depth);
            let (callee, env1) = eval_expression_spec(*left, scope, env, depth);
            match callee {
                Ok(called) => {
                    lemma_expressions_keep_scopes(arguments, 0, Seq::empty(), scope, env1, depth);
                    let (values, env2) = eval_expressions_spec(
                        arguments,
                        0,
                        Seq::empty(),
                        scope,
                        env1,
                        depth,
                    );
                    match values {
                        Ok(given) => match called {
                            ObjectView::Function { parameter_names, body, env: captured } => {
                                if depth > 0 {
                                    lemma_call_keeps_scopes(
                                        given,
                                        parameter_names,
                                        body,
                                        captured,
                                        env2,
                                        (depth - 1) as nat,
                                    );
                                }
                            },
                            ObjectView::BuiltinFunction(builtin) => {
                                lemma_builtin_keeps_scopes(builtin, given, env2);
                            },
                            _ => {},
                        },
                        Err(_) => {},
                    }
                },
                Err(_) => {},
            }
        },
        ExpressionView::Block { statements } => {
            lemma_inner_env_keeps_scopes(statements, scope, env, depth);
        },
        _ => {},
    }
}

/// Evaluating a list of expressions leaves every scope that was there as it
/// was.
pub proof fn lemma_expressions_keep_scopes(
    es: Seq<ExpressionView>,
    from: nat,
    done: Seq<ObjectView>,
    scope: nat,
    env: EnvironmentView,
    depth: nat,
)
    requires
        scope < env.scopes.len(),
    ensures
        scopes_kept(env, eval_expressions_spec(es, from, done, scope, env, depth).1),
    decreases depth, es, es.len() - from,
{
    if from < es.len() {
        lemma_expression_keeps_scopes(es[from as int], scope, env, depth);
        let (result, env1) = eval_expression_spec(es[from as int], scope, env, depth);
        match result {
            Ok(value) => {
                lemma_expressions_keep_scopes(es, from + 1, done.push(value), scope, env1, depth);
            },
            Err(_) => {},
        }
    }
}

/// A call leaves every scope that was there as it was: the parameters and
/// what the body binds stand in the scope of the call.
pub proof fn lemma_call_keeps_scopes(
    arguments: Seq<ObjectView>,
    parameter_names: Seq<Seq<char>>,
    body: Seq<StatementView>,
    parent: nat,
    env: EnvironmentView,
    depth: nat,
)
    ensures
        scopes_kept(env, call_function_spec(arguments, parameter_names, body, parent, env, depth).1),
    decreases depth, body, body.len() + 2,
{
    if arguments.len() == parameter_names.len() && parent < env.scopes.len() {
        let call_scope = env.scopes.len();
        lemma_parameters_keep_other_scopes(
            env.enclose(parent),
            call_scope,
            parameter_names,
            arguments,
            parameter_names.len(),
        );
        let entered = bind_parameters(
            env.enclose(parent),
            call_scope,
            parameter_names,
            arguments,
            parameter_names.len(),
        );
        lemma_statements_keep_other_scopes(body, 0, None, call_scope, entered, depth);
    }
}

/// Evaluating statements in a scope leaves every other scope that was there
/// as it was.
pub proof fn lemma_statements_keep_other_scopes(
    ss: Seq<StatementView>,
    from: nat,
    last: Option<ObjectView>,
    scope: nat,
    env: EnvironmentView,
    depth: nat,
)
    requires
        scope < env.scopes.len(),
    ensures
        scopes_kept_but(env, eval_statements_spec(ss, from, last, scope, env, depth).1, scope),
    decreases depth, ss, ss.len() - from,
{
    if from < ss.len() {
        lemma_statement_keeps_other_scopes(ss[from as int], scope, env, depth);
        let (result, env1) = eval_statement_spec(ss[from as int], scope, env, depth);
        match result {
            Ok(Some(ObjectView::ReturnValue(value))) => {},
            Ok(value) => {
                lemma_statements_keep_other_scopes(ss, from + 1, value, scope, env1, depth);
            },
            Err(_) => {},
        }
    }
}

/// Evaluating statements in a new scope leaves every scope that was there
/// as it was.
pub proof fn lemma_inner_env_keeps_scopes(
    ss: Seq<StatementView>,
    scope: nat,
    env: EnvironmentView,
    depth: nat,
)
    requires
        scope < env.scopes.len(),
    ensures
        scopes_kept(env, eval_statements_with_inner_env_spec(ss, scope, env, depth).1),
    decreases depth, ss, ss.len() + 1,
{
    lemma_statements_keep_other_scopes(ss, 0, None, env.scopes.len(), env.enclose(scope), depth);
}

/// Evaluating a statement in a scope leaves every other scope that was there
/// as it was: `let` binds in the scope of the statement only.
pub proof fn lemma_statement_keeps_other_scopes(
    s: StatementView,
    scope: nat,
    env: EnvironmentView,
    depth: nat,
)
    requires
        scope < env.scopes.len(),
    ensures
        scopes_kept_but(env, eval_statement_spec(s, scope, env, depth).1, scope),
    decreases depth, s, 0nat,
{
    match s {
        StatementView::Expression { expression } => {
            lemma_expression_keeps_scopes(expression, scope, env, depth);
        },
        StatementView::Return { value } => {
            lemma_expression_keeps_scopes(value, scope, env, depth);
        },
        StatementView::Let { name, right } => {
            lemma_expression_keeps_scopes(right, scope, env, depth);
        },
    }
}

/// A statement in an inner scope does not change what a name is bound to in
/// an outer scope: seen from any older scope, every name stands for what it
/// stood for before the statement, also where the statement binds that name
/// anew.
pub proof fn lemma_inner_scope_leaves_outer_bindings(
    s: StatementView,
    inner: nat,
    env: EnvironmentView,
    depth: nat,
    outer: nat,
    name: Seq<char>,
)
    requires
        outer < inner < env.scopes.len(),
    ensures
        eval_statement_spec(s, inner, env, depth).1.lookup(outer, name) == env.lookup(outer, name),
{
    lemma_statement_keeps_other_scopes(s, inner, env, depth);
    lemma_lookup_reads_older_scopes(eval_statement_spec(s, inner, env, depth).1, env, outer, name);
}

/// A block or a branch of an `if`, and a call, do not change what a name is
/// bound to in any scope that was there: whatever an expression binds, seen
/// from a scope that was there before, every name stands for what it stood
/// for.
pub proof fn lemma_expression_leaves_bindings(
    e: ExpressionView,
    scope: nat,
    env: EnvironmentView,
    depth: nat,
    seen_from: nat,
    name: Seq<char>,
)
    requires
        scope < env.scopes.len(),
        seen_from < env.scopes.len(),
    ensures
        eval_expression_spec(e, scope, env, depth).1.lookup(seen_from, name) == env.lookup(
            seen_from,
            name,
        ),
{
    lemma_expression_keeps_scopes(e, scope, env, depth);
    lemma_lookup_reads_older_scopes(eval_expression_spec(e, scope, env, depth).1, env, seen_from, name);
}

} // verus!
