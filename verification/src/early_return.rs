use crate::ast::ExpressionView;
use crate::ast::StatementView;
use crate::eval::bind_parameters;
use crate::eval::call_function_spec;
use crate::eval::eval_expression_spec;
use crate::eval::eval_statement_spec;
use crate::eval::eval_statements_spec;
use crate::eval::eval_statements_with_inner_env_spec;
use crate::eval::Evaluated;
use crate::eval::EvaluatedBlock;
use crate::object::environment::EnvironmentView;
use crate::object::ObjectView;
use vstd::prelude::*;

verus! {

/// A `return` of `value` inside `levels` blocks, one inside the other.
pub open spec fn nested_return(value: ExpressionView, levels: nat) -> StatementView
    decreases levels,
{
    if levels == 0 {
        StatementView::Return { value }
    } else {
        StatementView::Expression {
            expression: ExpressionView::Block {
                statements: seq![nested_return(value, (levels - 1) as nat)],
            },
        }
    }
}

/// The environment after `levels` scopes are made from `scope` inwards, each
/// inside the one before.
pub open spec fn nested_scopes(env: EnvironmentView, scope: nat, levels: nat) -> EnvironmentView
    decreases levels,
{
    if levels == 0 {
        env
    } else {
        nested_scopes(env.enclose(scope), env.scopes.len(), (levels - 1) as nat)
    }
}

/// The innermost of `levels` scopes made from `scope` inwards.
pub open spec fn innermost_scope(env: EnvironmentView, scope: nat, levels: nat) -> nat {
    if levels == 0 {
        scope
    } else {
        (env.scopes.len() + levels - 1) as nat
    }
}

/// What `return` makes of the value of its expression: it carries the value;
/// an error stays an error.
pub open spec fn carried(evaluated: Evaluated) -> EvaluatedBlock {
    match evaluated.0 {
        Ok(value) => (Ok(Some(ObjectView::ReturnValue(Box::new(value)))), evaluated.1),
        Err(message) => (Err(message), evaluated.1),
    }
}

/// Behind a statement that yields a carried return value no statement is
/// evaluated: the list yields what that statement yields.
pub proof fn lemma_return_ends_statements(
    ss: Seq<StatementView>,
    from: nat,
    last: Option<ObjectView>,
    scope: nat,
    env: EnvironmentView,
    depth: nat,
)
    requires
        from < ss.len(),
        eval_statement_spec(ss[from as int], scope, env, depth).0 matches Ok(
            Some(ObjectView::ReturnValue(_)),
        ),
    ensures
        eval_statements_spec(ss, from, last, scope, env, depth) == eval_statement_spec(
            ss[from as int],
            scope,
            env,
            depth,
        ),
{
}

/// A block hands a carried return value on as it is, as an expression and
/// as an expression statement.
pub proof fn lemma_block_passes_return(
    ss: Seq<StatementView>,
    scope: nat,
    env: EnvironmentView,
    depth: nat,
)
    requires
        eval_statements_with_inner_env_spec(ss, scope, env, depth).0 matches Ok(
            Some(ObjectView::ReturnValue(_)),
        ),
    ensures
        eval_statement_spec(
            StatementView::Expression { expression: ExpressionView::Block { statements: ss } },
            scope,
            env,
            depth,
        ) == eval_statements_with_inner_env_spec(ss, scope, env, depth),
{
}

/// An `if` hands on, as it is, a carried return value from the branch it
/// takes.
pub proof fn lemma_if_passes_return(
    condition: ExpressionView,
    consequence: Seq<StatementView>,
    alternative: Option<Seq<StatementView>>,
    scope: nat,
    env: EnvironmentView,
    depth: nat,
)
    requires
        eval_expression_spec(condition, scope, env, depth).0 matches Ok(ObjectView::Boolean(_)),
        ({
            let (tested, env1) = eval_expression_spec(condition, scope, env, depth);
            let taken = if tested->Ok_0->Boolean_0 {
                Some(consequence)
            } else {
                alternative
            };
            taken is Some && eval_statements_with_inner_env_spec(
                taken->0,
                scope,
                env1,
                depth,
            ).0 matches Ok(Some(ObjectView::ReturnValue(_)))
        }),
    ensures
        ({
            let (tested, env1) = eval_expression_spec(condition, scope, env, depth);
            let taken = if tested->Ok_0->Boolean_0 {
                consequence
            } else {
                alternative->0
            };
            eval_statement_spec(
                StatementView::Expression {
                    expression: ExpressionView::If {
                        condition: Box::new(condition),
                        consequence,
                        alternative,
                    },
                },
                scope,
                env,
                depth,
            ) == eval_statements_with_inner_env_spec(taken, scope, env1, depth)
        }),
{
}

/// A `return` inside blocks, however deep, yields the value of its
/// expression as a carried return value: the value that the expression has
/// in the innermost scope, once the scopes of the blocks are made.
pub proof fn lemma_nested_return_is_carried(
    value: ExpressionView,
    levels: nat,
    scope: nat,
    env: EnvironmentView,
    depth: nat,
)
    ensures
        eval_statement_spec(nested_return(value, levels), scope, env, depth).0 == carried(
            eval_expression_spec(
                value,
                innermost_scope(env, scope, levels),
                nested_scopes(env, scope, levels),
                depth,
            ),
        ).0,
    decreases levels,
{
    if levels > 0 {
        let inner = nested_return(value, (levels - 1) as nat);
        let ss = seq![inner];
        let opened = env.enclose(scope);
        lemma_nested_return_is_carried(value, (levels - 1) as nat, env.scopes.len(), opened, depth);
        assert(ss[0] == inner);
        assert(innermost_scope(opened, env.scopes.len(), (levels - 1) as nat) == innermost_scope(
            env,
            scope,
            levels,
        ));
        assert(nested_scopes(opened, env.scopes.len(), (levels - 1) as nat) == nested_scopes(
            env,
            scope,
            levels,
        ));
        let inner_result = eval_statement_spec(inner, env.scopes.len(), opened, depth);
        lemma_single_statement(inner, env.scopes.len(), opened, depth);
        let in_block = eval_statements_with_inner_env_spec(ss, scope, env, depth);
        assert(in_block.0 == inner_result.0);
        lemma_block_statement(ss, scope, env, depth);
    }
}

/// A list of one statement that yields a carried return value or an error
/// yields what the statement yields.
pub proof fn lemma_single_statement(s: StatementView, scope: nat, env: EnvironmentView, depth: nat)
    requires
        eval_statement_spec(s, scope, env, depth).0 is Err || eval_statement_spec(
            s,
            scope,
            env,
            depth,
        ).0 matches Ok(Some(ObjectView::ReturnValue(_))),
    ensures
        eval_statements_spec(seq![s], 0, None, scope, env, depth) == eval_statement_spec(
            s,
            scope,
            env,
            depth,
        ),
{
    assert(seq![s][0] == s);
}

/// A block as an expression statement yields what its statements yield,
/// where that is a carried return value or an error.
pub proof fn lemma_block_statement(
    ss: Seq<StatementView>,
    scope: nat,
    env: EnvironmentView,
    depth: nat,
)
    requires
        eval_statements_with_inner_env_spec(ss, scope, env, depth).0 is Err
            || eval_statements_with_inner_env_spec(ss, scope, env, depth).0 matches Ok(
            Some(ObjectView::ReturnValue(_)),
        ),
    ensures
        eval_statement_spec(
            StatementView::Expression { expression: ExpressionView::Block { statements: ss } },
            scope,
            env,
            depth,
        ).0 == eval_statements_with_inner_env_spec(ss, scope, env, depth).0,
{
}

/// A `return` inside blocks, however deep, that stands first in the body of
/// a function ends the call with the value of its expression, whatever
/// statements follow it in the body.
pub proof fn lemma_nested_return_ends_call(
    value: ExpressionView,
    levels: nat,
    rest: Seq<StatementView>,
    arguments: Seq<ObjectView>,
    parameter_names: Seq<Seq<char>>,
    parent: nat,
    env: EnvironmentView,
    depth: nat,
)
    requires
        arguments.len() == parameter_names.len(),
        parent < env.scopes.len(),
    ensures
        ({
            let body = seq![nested_return(value, levels)] + rest;
            let call_scope = env.scopes.len();
            let entered = bind_parameters(
                env.enclose(parent),
                call_scope,
                parameter_names,
                arguments,
                parameter_names.len(),
            );
            call_function_spec(arguments, parameter_names, body, parent, env, depth).0
                == eval_expression_spec(
                value,
                innermost_scope(entered, call_scope, levels),
                nested_scopes(entered, call_scope, levels),
                depth,
            ).0
        }),
{
    let body = seq![nested_return(value, levels)] + rest;
    let call_scope = env.scopes.len();
    let entered = bind_parameters(
        env.enclose(parent),
        call_scope,
        parameter_names,
        arguments,
        parameter_names.len(),
    );
    let first = nested_return(value, levels);
    assert(body[0] == first);
    lemma_nested_return_is_carried(value, levels, call_scope, entered, depth);
    let found = eval_statement_spec(first, call_scope, entered, depth);
    assert(eval_statements_spec(body, 0, None, call_scope, entered, depth) == found);
}

} // verus!
