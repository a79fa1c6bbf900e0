use crate::ast::ExpressionView;
use crate::ast::StatementView;
use crate::eval::bind_parameters;
use crate::eval::builtin_result;
use crate::eval::call_function_spec;
use crate::eval::eval_expression_spec;
use crate::eval::eval_expressions_spec;
use crate::eval::eval_program_spec;
use crate::eval::eval_statement_spec;
use crate::eval::eval_statements_spec;
use crate::eval::eval_statements_with_inner_env_spec;
use crate::eval::read_from_env_spec;
use crate::eval::MAX_CALL_DEPTH;
use crate::logic::infix_result;
use crate::logic::prefix_result;
use crate::logic::InfixOperator;
use crate::logic::PrefixOperator;
use crate::object::environment::EnvironmentView;
use crate::object::environment::ScopeView;
use crate::object::BuiltinFunction;
use crate::object::ObjectView;
use crate::scoping::lemma_expression_keeps_scopes;
use vstd::prelude::*;

verus! {

/// The number of scopes of closures among the first `n` scopes.
pub open spec fn closure_scopes(scopes: Seq<ScopeView>, n: nat) -> nat
    decreases n,
{
    if n == 0 || n > scopes.len() {
        0
    } else {
        closure_scopes(scopes, (n - 1) as nat) + if scopes[n - 1].closure {
            1nat
        } else {
            0nat
        }
    }
}

/// Whether the environment holds what a value needs: the scope of a closure
/// is a scope of the environment, made for a closure.
pub open spec fn held(v: ObjectView, env: EnvironmentView) -> bool
    decreases v,
{
    match v {
        ObjectView::Function { env: scope, .. } => scope < env.scopes.len()
            && env.scopes[scope as int].closure,
        ObjectView::ReturnValue(inner) => held(*inner, env),
        _ => true,
    }
}

/// Whether the environment holds what each value of a list needs.
pub open spec fn all_held(vs: Seq<ObjectView>, env: EnvironmentView) -> bool {
    forall|i: int| 0 <= i < vs.len() ==> held(#[trigger] vs[i], env)
}

/// Whether the environment holds what a value needs, if there is a value.
pub open spec fn held_if_any(v: Option<ObjectView>, env: EnvironmentView) -> bool {
    match v {
        Some(value) => held(value, env),
        None => true,
    }
}

/// What holds of an environment in which closures keep their scopes: it
/// holds what each value bound in it needs, and it has made as many
/// closures as it has scopes of closures.
pub open spec fn keeps_closures(env: EnvironmentView) -> bool {
    &&& env.closures == closure_scopes(env.scopes, env.scopes.len())
    &&& forall|i: int, name: Seq<char>|
        0 <= i < env.scopes.len() && #[trigger] env.scopes[i].bindings.contains_key(name) ==> held(
            env.scopes[i].bindings[name],
            env,
        )
}

/// Whether `after` has the scopes of `before`, each for a closure or not as
/// before.
pub open spec fn tags_kept(before: EnvironmentView, after: EnvironmentView) -> bool {
    &&& before.scopes.len() <= after.scopes.len()
    &&& forall|i: int|
        0 <= i < before.scopes.len() ==> (#[trigger] after.scopes[i]).closure
            == before.scopes[i].closure
}

/// The count of closure scopes among the first scopes depends on those
/// scopes only.
pub proof fn lemma_count_agrees(a: Seq<ScopeView>, b: Seq<ScopeView>, n: nat)
    requires
        n <= a.len(),
        n <= b.len(),
        forall|i: int| 0 <= i < n ==> (#[trigger] a[i]).closure == b[i].closure,
    ensures
        closure_scopes(a, n) == closure_scopes(b, n),
    decreases n,
{
    if n > 0 {
        lemma_count_agrees(a, b, (n - 1) as nat);
        assert(a[n - 1].closure == b[n - 1].closure);
    }
}

/// Where the count of closure scopes does not grow between two positions,
/// no scope between them is the scope of a closure.
pub proof fn lemma_no_closure_between(scopes: Seq<ScopeView>, m: nat, n: nat, k: int)
    requires
        m <= k < n <= scopes.len(),
        closure_scopes(scopes, m) == closure_scopes(scopes, n),
    ensures
        !scopes[k].closure,
    decreases n - m,
{
    lemma_count_grows(scopes, m, (n - 1) as nat);
    lemma_count_grows(scopes, m, k as nat);
    lemma_count_grows(scopes, (k + 1) as nat, n);
    if k < n - 1 {
        lemma_count_grows(scopes, (n - 1) as nat, n);
        lemma_no_closure_between(scopes, m, (n - 1) as nat, k);
    }
}

/// The count of closure scopes grows with the number of scopes counted.
pub proof fn lemma_count_grows(scopes: Seq<ScopeView>, m: nat, n: nat)
    requires
        m <= n <= scopes.len(),
    ensures
        closure_scopes(scopes, m) <= closure_scopes(scopes, n),
    decreases n - m,
{
    if m < n {
        lemma_count_grows(scopes, m, (n - 1) as nat);
    }
}

/// What is held stays held where the scopes stay.
pub proof fn lemma_held_later(v: ObjectView, before: EnvironmentView, after: EnvironmentView)
    requires
        held(v, before),
        tags_kept(before, after),
    ensures
        held(v, after),
    decreases v,
{
    match v {
        ObjectView::ReturnValue(inner) => {
            lemma_held_later(*inner, before, after);
        },
        ObjectView::Function { env: scope, .. } => {
            assert(after.scopes[scope as int].closure == before.scopes[scope as int].closure);
        },
        _ => {},
    }
}

/// What is held in an environment is held in one with the same closure
/// scopes among no fewer scopes.
pub proof fn lemma_all_held_later(
    vs: Seq<ObjectView>,
    before: EnvironmentView,
    after: EnvironmentView,
)
    requires
        all_held(vs, before),
        tags_kept(before, after),
    ensures
        all_held(vs, after),
{
    assert forall|i: int| 0 <= i < vs.len() implies held(#[trigger] vs[i], after) by {
        lemma_held_later(vs[i], before, after);
    }
}

/// Closures keep their scopes where the scopes stay and the bindings are
/// those of before, but for one scope in which a held value is bound.
pub proof fn lemma_bind_keeps(env: EnvironmentView, scope: nat, name: Seq<char>, v: ObjectView)
    requires
        keeps_closures(env),
        scope < env.scopes.len(),
        held(v, env),
    ensures
        keeps_closures(env.bind(scope, name, v)),
        tags_kept(env, env.bind(scope, name, v)),
{
    let after = env.bind(scope, name, v);
    assert(tags_kept(env, after));
    lemma_count_agrees(env.scopes, after.scopes, env.scopes.len());
    lemma_held_later(v, env, after);
    assert forall|i: int, other: Seq<char>|
        0 <= i < after.scopes.len() && #[trigger] after.scopes[i].bindings.contains_key(
            other,
        ) implies held(after.scopes[i].bindings[other], after) by {
        if i == scope && other == name {
        } else {
            assert(env.scopes[i].bindings.contains_key(other));
            lemma_held_later(env.scopes[i].bindings[other], env, after);
        }
    }
}

/// Closures keep their scopes where a scope is made.
pub proof fn lemma_enclose_keeps(env: EnvironmentView, outer: nat)
    requires
        keeps_closures(env),
    ensures
        keeps_closures(env.enclose(outer)),
        keeps_closures(env.enclose_closure(outer)),
        tags_kept(env, env.enclose(outer)),
        tags_kept(env, env.enclose_closure(outer)),
{
    let plain = env.enclose(outer);
    let closure = env.enclose_closure(outer);
    assert(tags_kept(env, plain));
    assert(tags_kept(env, closure));
    lemma_count_agrees(env.scopes, plain.scopes, env.scopes.len());
    lemma_count_agrees(env.scopes, closure.scopes, env.scopes.len());
    assert forall|i: int, name: Seq<char>|
        0 <= i < plain.scopes.len() && #[trigger] plain.scopes[i].bindings.contains_key(
            name,
        ) implies held(plain.scopes[i].bindings[name], plain) by {
        assert(env.scopes[i].bindings.contains_key(name));
        lemma_held_later(env.scopes[i].bindings[name], env, plain);
    }
    assert forall|i: int, name: Seq<char>|
        0 <= i < closure.scopes.len() && #[trigger] closure.scopes[i].bindings.contains_key(
            name,
        ) implies held(closure.scopes[i].bindings[name], closure) by {
        assert(env.scopes[i].bindings.contains_key(name));
        lemma_held_later(env.scopes[i].bindings[name], env, closure);
    }
}

/// Closures keep their scopes where a line is printed.
pub proof fn lemma_emit_keeps(env: EnvironmentView, line: Seq<char>)
    requires
        keeps_closures(env),
    ensures
        keeps_closures(env.emit(line)),
        tags_kept(env, env.emit(line)),
{
    let after = env.emit(line);
    assert(tags_kept(env, after));
    assert forall|i: int, name: Seq<char>|
        0 <= i < after.scopes.len() && #[trigger] after.scopes[i].bindings.contains_key(
            name,
        ) implies held(after.scopes[i].bindings[name], after) by {
        assert(env.scopes[i].bindings.contains_key(name));
        lemma_held_later(env.scopes[i].bindings[name], env, after);
    }
}

/// Closures keep their scopes where the scopes of a block or a call are
/// given up: the scopes go only where no closure was made since the mark,
/// and then no closure has one of them.
pub proof fn lemma_release_keeps(start: EnvironmentView, end: EnvironmentView)
    requires
        keeps_closures(start),
        keeps_closures(end),
        tags_kept(start, end),
    ensures
        keeps_closures(end.released(start.scopes.len(), start.closures)),
        tags_kept(start, end.released(start.scopes.len(), start.closures)),
        forall|v: ObjectView| #[trigger]
            held(v, end) ==> held(v, end.released(start.scopes.len(), start.closures)),
{
    let mark = start.scopes.len();
    let left = end.released(mark, start.closures);
    if end.closures == start.closures {
        lemma_count_agrees(start.scopes, end.scopes, mark);
        lemma_count_agrees(end.scopes, left.scopes, mark);
        assert forall|v: ObjectView| #[trigger] held(v, end) implies held(v, left) by {
            lemma_held_after_release(start, end, v);
        }
        assert forall|i: int, name: Seq<char>|
            0 <= i < left.scopes.len() && #[trigger] left.scopes[i].bindings.contains_key(
                name,
            ) implies held(left.scopes[i].bindings[name], left) by {
            assert(end.scopes[i].bindings.contains_key(name));
            assert(held(end.scopes[i].bindings[name], end));
        }
    }
}

/// What is held before scopes are given up is held after.
pub proof fn lemma_held_after_release(start: EnvironmentView, end: EnvironmentView, v: ObjectView)
    requires
        keeps_closures(start),
        keeps_closures(end),
        tags_kept(start, end),
        end.closures == start.closures,
        held(v, end),
    ensures
        held(v, end.released(start.scopes.len(), start.closures)),
    decreases v,
{
    let mark = start.scopes.len();
    match v {
        ObjectView::ReturnValue(inner) => {
            lemma_held_after_release(start, end, *inner);
        },
        ObjectView::Function { env: scope, .. } => {
            lemma_count_agrees(start.scopes, end.scopes, mark);
            if scope >= mark {
                lemma_no_closure_between(end.scopes, mark, end.scopes.len(), scope as int);
            }
        },
        _ => {},
    }
}

/// What a name is bound to, seen from a scope, is held.
pub proof fn lemma_lookup_is_held(env: EnvironmentView, scope: nat, name: Seq<char>)
    requires
        keeps_closures(env),
    ensures
        env.lookup(scope, name) matches Some(v) ==> held(v, env),
    decreases scope,
{
    if scope < env.scopes.len() {
        if env.scopes[scope as int].bindings.contains_key(name) {
        } else {
            match env.scopes[scope as int].outer {
                Some(outer) => {
                    if outer < scope {
                        lemma_lookup_is_held(env, outer, name);
                    }
                },
                None => {},
            }
        }
    }
}

/// What an operator yields needs nothing of the environment.
pub proof fn lemma_operators_yield_scalars(
    left: ObjectView,
    right: ObjectView,
    prefix: PrefixOperator,
    infix: InfixOperator,
    env: EnvironmentView,
)
    ensures
        prefix_result(left, prefix) matches Ok(v) ==> held(v, env),
        infix_result(left, infix, right) matches Ok(v) ==> held(v, env),
{
}

/// Closures keep their scopes where parameters are bound to held values.
pub proof fn lemma_parameters_keep(
    env: EnvironmentView,
    scope: nat,
    names: Seq<Seq<char>>,
    values: Seq<ObjectView>,
    n: nat,
)
    requires
        keeps_closures(env),
        scope < env.scopes.len(),
        all_held(values, env),
    ensures
        keeps_closures(bind_parameters(env, scope, names, values, n)),
        tags_kept(env, bind_parameters(env, scope, names, values, n)),
        bind_parameters(env, scope, names, values, n).scopes.len() == env.scopes.len(),
        bind_parameters(env, scope, names, values, n).closures == env.closures,
    decreases n,
{
    if !(n == 0 || n > names.len() || n > values.len()) {
        lemma_parameters_keep(env, scope, names, values, (n - 1) as nat);
        let before = bind_parameters(env, scope, names, values, (n - 1) as nat);
        lemma_held_later(values[n - 1], env, before);
        lemma_bind_keeps(before, scope, names[n - 1], values[n - 1]);
    }
}

/// Closures keep their scopes through the evaluation of an expression, and
/// the environment holds what the value of the expression needs.
pub proof fn lemma_expression_holds(
    e: ExpressionView,
    scope: nat,
    env: EnvironmentView,
    depth: nat,
)
    requires
        keeps_closures(env),
        scope < env.scopes.len(),
    ensures
        keeps_closures(eval_expression_spec(e, scope, env, depth).1),
        tags_kept(env, eval_expression_spec(e, scope, env, depth).1),
        eval_expression_spec(e, scope, env, depth).0 matches Ok(v) ==> held(
            v,
            eval_expression_spec(e, scope, env, depth).1,
        ),
    decreases depth, e, 0nat,
{
    lemma_expression_keeps_scopes(e, scope, env, depth);
    match e {
        ExpressionView::Identifier { value } => {
            lemma_lookup_is_held(env, scope, value);
            assert(eval_expression_spec(e, scope, env, depth).0 == read_from_env_spec(
                env,
                scope,
                value,
            ));
        },
        ExpressionView::Prefix { operator, right } => {
            lemma_expression_holds(*right, scope, env, depth);
            let (operand, env1) = eval_expression_spec(*right, scope, env, depth);
            if operand is Ok {
                lemma_operators_yield_scalars(
                    operand->Ok_0,
                    operand->Ok_0,
                    operator,
                    InfixOperator::Plus,
                    env1,
                );
            }
        },
        ExpressionView::Infix { left, operator, right } => {
            lemma_expression_holds(*left, scope, env, depth);
            let (first, env1) = eval_expression_spec(*left, scope, env, depth);
            if first is Ok {
                lemma_expression_holds(*right, scope, env1, depth);
                let (second, env2) = eval_expression_spec(*right, scope, env1, depth);
                if second is Ok {
                    lemma_operators_yield_scalars(
                        first->Ok_0,
                        second->Ok_0,
                        PrefixOperator::Bang,
                        operator,
                        env2,
                    );
                }
            }
        },
        ExpressionView::If { condition, consequence, alternative } => {
            lemma_expression_holds(*condition, scope, env, depth);
            let (tested, env1) = eval_expression_spec(*condition, scope, env, depth);
            match tested {
                Ok(ObjectView::Boolean(holds)) => {
                    if holds {
                        lemma_inner_env_holds(consequence, scope, env1, depth);
                    } else {
                        match alternative {
                            Some(block) => {
                                lemma_inner_env_holds(block, scope, env1, depth);
                            },
                            None => {},
                        }
                    }
                },
                _ => {},
            }
        },
        ExpressionView::FnLiteral { param_names, body } => {
            lemma_enclose_keeps(env, scope);
        },
        ExpressionView::CallExpression { left, arguments } => {
            lemma_expression_holds(*left, scope, env, depth);
            let (callee, env1) = eval_expression_spec(*left, scope, env, depth);
            match callee {
                Ok(called) => {
                    lemma_expressions_hold(arguments, 0, Seq::empty(), scope, env1, depth);
                    let (values, env2) = eval_expressions_spec(
                        arguments,
                        0,
                        Seq::empty(),
                        scope,
                        env1,
                        depth,
                    );
                    match values {
                        Ok(given) => match called {
                            ObjectView::Function { parameter_names, body, env: captured } => {
                                if depth > 0 {
                                    lemma_call_holds(
                                        given,
                                        parameter_names,
                                        body,
                                        captured,
                                        env2,
                                        (depth - 1) as nat,
                                    );
                                }
                            },
                            ObjectView::BuiltinFunction(builtin) => {
                                lemma_builtin_holds(builtin, given, env2);
                            },
                            _ => {},
                        },
                        Err(_) => {},
                    }
                },
                Err(_) => {},
            }
        },
        ExpressionView::Block { statements } => {
            lemma_inner_env_holds(statements, scope, env, depth);
        },
        _ => {},
    }
}

/// Closures keep their scopes through a built-in function, whose value
/// needs nothing of the environment.
pub proof fn lemma_builtin_holds(
    builtin: BuiltinFunction,
    arguments: Seq<ObjectView>,
    env: EnvironmentView,
)
    requires
        keeps_closures(env),
    ensures
        keeps_closures(builtin_result(builtin, arguments, env).1),
        tags_kept(env, builtin_result(builtin, arguments, env).1),
        builtin_result(builtin, arguments, env).0 matches Ok(v) ==> held(
            v,
            builtin_result(builtin, arguments, env).1,
        ),
{
    if arguments.len() == 1 {
        lemma_emit_keeps(env, arguments[0].display());
    }
}

/// Closures keep their scopes through the evaluation of a list of
/// expressions, and the environment holds what their values need.
pub proof fn lemma_expressions_hold(
    es: Seq<ExpressionView>,
    from: nat,
    done: Seq<ObjectView>,
    scope: nat,
    env: EnvironmentView,
    depth: nat,
)
    requires
        keeps_closures(env),
        scope < env.scopes.len(),
        all_held(done, env),
    ensures
        keeps_closures(eval_expressions_spec(es, from, done, scope, env, depth).1),
        tags_kept(env, eval_expressions_spec(es, from, done, scope, env, depth).1),
        eval_expressions_spec(es, from, done, scope, env, depth).0 matches Ok(vs) ==> all_held(
            vs,
            eval_expressions_spec(es, from, done, scope, env, depth).1,
        ),
    decreases depth, es, es.len() - from,
{
    if from < es.len() {
        lemma_expression_holds(es[from as int], scope, env, depth);
        let (result, env1) = eval_expression_spec(es[from as int], scope, env, depth);
        match result {
            Ok(value) => {
                lemma_all_held_later(done, env, env1);
                let more = done.push(value);
                assert forall|i: int| 0 <= i < more.len() implies held(
                    #[trigger] more[i],
                    env1,
                ) by {
                    if i < done.len() {
                        assert(more[i] == done[i]);
                    }
                }
                lemma_expressions_hold(es, from + 1, more, scope, env1, depth);
            },
            Err(_) => {},
        }
    }
}

/// Closures keep their scopes through a call, and the environment holds what
/// the value of the call needs.
pub proof fn lemma_call_holds(
    arguments: Seq<ObjectView>,
    parameter_names: Seq<Seq<char>>,
    body: Seq<StatementView>,
    parent: nat,
    env: EnvironmentView,
    depth: nat,
)
    requires
        keeps_closures(env),
        all_held(arguments, env),
    ensures
        keeps_closures(
            call_function_spec(arguments, parameter_names, body, parent, env, depth).1,
        ),
        tags_kept(
            env,
            call_function_spec(arguments, parameter_names, body, parent, env, depth).1,
        ),
        call_function_spec(arguments, parameter_names, body, parent, env, depth).0 matches Ok(
            v,
        ) ==> held(v, call_function_spec(arguments, parameter_names, body, parent, env, depth).1),
    decreases depth, body, body.len() + 2,
{
    if arguments.len() == parameter_names.len() && parent < env.scopes.len() {
        let call_scope = env.scopes.len();
        let opened = env.enclose(parent);
        lemma_enclose_keeps(env, parent);
        lemma_all_held_later(arguments, env, opened);
        lemma_parameters_keep(opened, call_scope, parameter_names, arguments, parameter_names.len());
        let entered = bind_parameters(
            opened,
            call_scope,
            parameter_names,
            arguments,
            parameter_names.len(),
        );
        lemma_statements_hold(body, 0, None, call_scope, entered, depth);
        let (result, env1) = eval_statements_spec(body, 0, None, call_scope, entered, depth);
        assert(tags_kept(env, env1));
        lemma_release_keeps(env, env1);
    }
}

/// Closures keep their scopes through the evaluation of statements, and the
/// environment holds what their value needs.
pub proof fn lemma_statements_hold(
    ss: Seq<StatementView>,
    from: nat,
    last: Option<ObjectView>,
    scope: nat,
    env: EnvironmentView,
    depth: nat,
)
    requires
        keeps_closures(env),
        scope < env.scopes.len(),
        held_if_any(last, env),
    ensures
        keeps_closures(eval_statements_spec(ss, from, last, scope, env, depth).1),
        tags_kept(env, eval_statements_spec(ss, from, last, scope, env, depth).1),
        eval_statements_spec(ss, from, last, scope, env, depth).0 matches Ok(v) ==> held_if_any(
            v,
            eval_statements_spec(ss, from, last, scope, env, depth).1,
        ),
    decreases depth, ss, ss.len() - from,
{
    if from < ss.len() {
        lemma_statement_holds(ss[from as int], scope, env, depth);
        let (result, env1) = eval_statement_spec(ss[from as int], scope, env, depth);
        match result {
            Ok(Some(ObjectView::ReturnValue(value))) => {},
            Ok(value) => {
                lemma_statements_hold(ss, from + 1, value, scope, env1, depth);
            },
            Err(_) => {},
        }
    }
}

/// Closures keep their scopes through a block, and the environment holds
/// what the value of the block needs.
pub proof fn lemma_inner_env_holds(
    ss: Seq<StatementView>,
    scope: nat,
    env: EnvironmentView,
    depth: nat,
)
    requires
        keeps_closures(env),
        scope < env.scopes.len(),
    ensures
        keeps_closures(eval_statements_with_inner_env_spec(ss, scope, env, depth).1),
        tags_kept(env, eval_statements_with_inner_env_spec(ss, scope, env, depth).1),
        eval_statements_with_inner_env_spec(ss, scope, env, depth).0 matches Ok(v)
            ==> held_if_any(v, eval_statements_with_inner_env_spec(ss, scope, env, depth).1),
    decreases depth, ss, ss.len() + 1,
{
    let opened = env.enclose(scope);
    lemma_enclose_keeps(env, scope);
    lemma_statements_hold(ss, 0, None, env.scopes.len(), opened, depth);
    let (result, env1) = eval_statements_spec(ss, 0, None, env.scopes.len(), opened, depth);
    assert(tags_kept(env, env1));
    lemma_release_keeps(env, env1);
}

/// Closures keep their scopes through a statement, and the environment
/// holds what the value of the statement needs.
pub proof fn lemma_statement_holds(
    s: StatementView,
    scope: nat,
    env: EnvironmentView,
    depth: nat,
)
    requires
        keeps_closures(env),
        scope < env.scopes.len(),
    ensures
        keeps_closures(eval_statement_spec(s, scope, env, depth).1),
        tags_kept(env, eval_statement_spec(s, scope, env, depth).1),
        eval_statement_spec(s, scope, env, depth).0 matches Ok(v) ==> held_if_any(
            v,
            eval_statement_spec(s, scope, env, depth).1,
        ),
    decreases depth, s, 0nat,
{
    match s {
        StatementView::Expression { expression } => {
            lemma_expression_holds(expression, scope, env, depth);
        },
        StatementView::Return { value } => {
            lemma_expression_holds(value, scope, env, depth);
        },
        StatementView::Let { name, right } => {
            lemma_expression_holds(right, scope, env, depth);
            let (result, env1) = eval_expression_spec(right, scope, env, depth);
            match result {
                Ok(value) => {
                    lemma_bind_keeps(env1, scope, name, value);
                },
                Err(_) => {},
            }
        },
    }
}

/// A closure keeps its scope alive: through every program, the environment
/// holds the scope of each closure that a name is bound to and of the
/// closure that the program yields, though the scopes of blocks and calls
/// are given up at their end. A new environment is one of which this holds.
pub proof fn lemma_closures_keep_their_scopes(program: Seq<StatementView>, env: EnvironmentView)
    requires
        keeps_closures(env),
        env.scopes.len() >= 1,
    ensures
        keeps_closures(EnvironmentView::fresh()),
        keeps_closures(eval_program_spec(program, env).1),
        eval_program_spec(program, env).0 matches Ok(Some(v)) ==> held(
            v,
            eval_program_spec(program, env).1,
        ),
{
    lemma_statements_hold(program, 0, None, 0, env, MAX_CALL_DEPTH as nat);
    let fresh = EnvironmentView::fresh();
    assert(closure_scopes(fresh.scopes, 1) == 0) by {
        assert(closure_scopes(fresh.scopes, 0) == 0);
    }
}

} // verus!
