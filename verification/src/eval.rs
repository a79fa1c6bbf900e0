use crate::ast::Expression;
use crate::ast::ExpressionView;
use crate::ast::Program;
use crate::ast::Statement;
use crate::ast::StatementView;
use crate::ast::BlockStatement;
use crate::ast::statements_view;
use crate::ast::expressions_view;
use crate::ast::texts_view;
use crate::logic::eval_infix;
use crate::logic::eval_prefix;
use crate::logic::infix_result;
use crate::logic::prefix_result;
use crate::object::copy_texts;
use crate::object::environment::Environment;
use crate::object::environment::EnvironmentView;
use crate::object::objects_view;
use crate::object::share;
use crate::object::BuiltinFunction;
use crate::object::Object;
use crate::object::ObjectView;
use crate::text::count_to_string;
use crate::text::decimal;
use crate::text::same_text;
use std::rc::Rc;
use vstd::prelude::*;
use vstd::string::*;
use vstd::utf8::encode_utf8;

verus! {

/// An error of the evaluator: its message.
#[derive(Debug)]
pub enum EvalError {
    Misc(String),
}

impl View for EvalError {
    type V = Seq<char>;

    open spec fn view(&self) -> Seq<char> {
        match self {
            EvalError::Misc(message) => message@,
        }
    }
}

/// How deep calls may nest in a program that `eval_program` runs: as deep as
/// the machine can count. A caller that wants a closer bound hands one to
/// `eval_statements`.
pub const MAX_CALL_DEPTH: usize = usize::MAX;

/// A value or the message of an error, and the environment that evaluation
/// leaves behind.
pub type Evaluated = (Result<ObjectView, Seq<char>>, EnvironmentView);

/// The value of a list of statements, if it has one, or the message of an
/// error, and the environment that evaluation leaves behind.
pub type EvaluatedBlock = (Result<Option<ObjectView>, Seq<char>>, EnvironmentView);

/// The values of a list of expressions or the message of an error, and the
/// environment that evaluation leaves behind.
pub type EvaluatedList = (Result<Seq<ObjectView>, Seq<char>>, EnvironmentView);

/// The message for an identifier that neither a scope nor the table of
/// built-in functions knows.
pub open spec fn unbound_message(name: Seq<char>) -> Seq<char> {
    "The identifier '"@ + name + "' has not been bound"@
}

/// The message for a condition that is no boolean.
pub open spec fn condition_message(condition: ObjectView) -> Seq<char> {
    "The condition in an if statement must be a bool. Got "@ + condition.kind_name()
}

/// The message for a call of a value that is no function.
pub open spec fn not_callable_message(callee: ObjectView) -> Seq<char> {
    "Cannot call "@ + callee.display()
}

/// The message for a call with another number of arguments than the
/// function has parameters.
pub open spec fn arity_message(expected: nat, got: nat) -> Seq<char> {
    "Expected "@ + decimal(expected as int) + " args, got "@ + decimal(got as int)
}

/// The message for a call that would nest deeper than calls may nest.
pub open spec fn depth_message() -> Seq<char> {
    "Maximum call depth exceeded"@
}

/// The message for a closure whose scope the environment does not hold.
pub open spec fn lost_scope_message() -> Seq<char> {
    "The scope of the function is not in this environment"@
}

/// The built-in function of a name, if there is one.
pub open spec fn builtin_named(name: Seq<char>) -> Option<BuiltinFunction> {
    if name == "len"@ {
        Some(BuiltinFunction::Len)
    } else if name == "print"@ {
        Some(BuiltinFunction::Print)
    } else {
        None
    }
}

/// What a built-in function yields. `len` takes one string and yields the
/// number of bytes of its UTF-8 form. `print` takes one value, prints how it
/// is displayed as a line, and yields null.
pub open spec fn builtin_result(
    builtin: BuiltinFunction,
    arguments: Seq<ObjectView>,
    env: EnvironmentView,
) -> Evaluated {
    match builtin {
        BuiltinFunction::Len => if arguments.len() != 1 {
            (Err("len takes exactly 1 argument"@), env)
        } else {
            match arguments[0] {
                ObjectView::String(text) => if encode_utf8(text).len() <= i64::MAX {
                    (Ok(ObjectView::Integer(encode_utf8(text).len() as i64)), env)
                } else {
                    (Err("The string is too long"@), env)
                },
                _ => (Err("Only strings can be passed to len"@), env),
            }
        },
        BuiltinFunction::Print => if arguments.len() != 1 {
            (Err("print takes exactly 1 argument"@), env)
        } else {
            (Ok(ObjectView::Null), env.emit(arguments[0].display()))
        },
    }
}

/// What an identifier stands for, seen from a scope: what the scopes bind it
/// to, else the built-in function of that name, else an error.
pub open spec fn read_from_env_spec(env: EnvironmentView, scope: nat, name: Seq<char>) -> Result<
    ObjectView,
    Seq<char>,
> {
    match env.lookup(scope, name) {
        Some(value) => Ok(value),
        None => match builtin_named(name) {
            Some(builtin) => Ok(ObjectView::BuiltinFunction(builtin)),
            None => Err(unbound_message(name)),
        },
    }
}

/// The environment after the first `n` parameters are bound, in order, to
/// the arguments at their positions.
pub open spec fn bind_parameters(
    env: EnvironmentView,
    scope: nat,
    names: Seq<Seq<char>>,
    values: Seq<ObjectView>,
    n: nat,
) -> EnvironmentView
    decreases n,
{
    if n == 0 || n > names.len() || n > values.len() {
        env
    } else {
        bind_parameters(env, scope, names, values, (n - 1) as nat).bind(
            scope,
            names[n - 1],
            values[n - 1],
        )
    }
}

/// The value that a call hands to its caller: what `return` carried, else the
/// value of the last statement, else null.
pub open spec fn call_value(result: Option<ObjectView>) -> ObjectView {
    match result {
        Some(ObjectView::ReturnValue(value)) => *value,
        Some(value) => value,
        None => ObjectView::Null,
    }
}

/// The value of a block where it stands as an expression.
pub open spec fn block_value(result: Option<ObjectView>) -> ObjectView {
    match result {
        Some(value) => value,
        None => ObjectView::Null,
    }
}

/// The value of an expression in a scope. `depth` is how deep calls may
/// still nest.
pub open spec fn eval_expression_spec(
    e: ExpressionView,
    scope: nat,
    env: EnvironmentView,
    depth: nat,
) -> Evaluated
    decreases depth, e, 0nat,
{
    match e {
        ExpressionView::IntegerLiteral { value } => (Ok(ObjectView::Integer(value)), env),
        ExpressionView::Boolean { value } => (Ok(ObjectView::Boolean(value)), env),
        ExpressionView::StringLiteral { value } => (Ok(ObjectView::String(value)), env),
        ExpressionView::Identifier { value } => (read_from_env_spec(env, scope, value), env),
        ExpressionView::Prefix { operator, right } => {
            let (operand, env1) = eval_expression_spec(*right, scope, env, depth);
            match operand {
                Ok(value) => (prefix_result(value, operator), env1),
                Err(message) => (Err(message), env1),
            }
        },
        ExpressionView::Infix { left, operator, right } => {
            let (first, env1) = eval_expression_spec(*left, scope, env, depth);
            match first {
                Ok(left_value) => {
                    let (second, env2) = eval_expression_spec(*right, scope, env1, depth);
                    match second {
                        Ok(right_value) => (infix_result(left_value, operator, right_value), env2),
                        Err(message) => (Err(message), env2),
                    }
                },
                Err(message) => (Err(message), env1),
            }
        },
        ExpressionView::If { condition, consequence, alternative } => {
            let (tested, env1) = eval_expression_spec(*condition, scope, env, depth);
            match tested {
                Ok(ObjectView::Boolean(holds)) => {
                    let block = if holds {
                        consequence
                    } else {
                        match alternative {
                            Some(block) => block,
                            None => Seq::empty(),
                        }
                    };
                    if holds || alternative is Some {
                        let (result, env2) = eval_statements_with_inner_env_spec(
                            block,
                            scope,
                            env1,
                            depth,
                        );
                        match result {
                            Ok(value) => (Ok(block_value(value)), env2),
                            Err(message) => (Err(message), env2),
                        }
                    } else {
                        (Ok(ObjectView::Null), env1)
                    }
                },
                Ok(other) => (Err(condition_message(other)), env1),
                Err(message) => (Err(message), env1),
            }
        },
        ExpressionView::FnLiteral { param_names, body } => (
            Ok(
                ObjectView::Function {
                    parameter_names: param_names,
                    body,
                    env: env.scopes.len(),
                },
            ),
            env.enclose_closure(scope),
        ),
        ExpressionView::CallExpression { left, arguments } => {
            let (callee, env1) = eval_expression_spec(*left, scope, env, depth);
            match callee {
                Ok(called) => {
                    let (values, env2) = eval_expressions_spec(
                        arguments,
                        0,
                        Seq::empty(),
                        scope,
                        env1,
                        depth,
                    );
                    match values {
                        Ok(given) => match called {
                            ObjectView::Function { parameter_names, body, env: captured } => {
                                if depth == 0 {
                                    (Err(depth_message()), env2)
                                } else {
                                    call_function_spec(
                                        given,
                                        parameter_names,
                                        body,
                                        captured,
                                        env2,
                                        (depth - 1) as nat,
                                    )
                                }
                            },
                            ObjectView::BuiltinFunction(builtin) => builtin_result(
                                builtin,
                                given,
                                env2,
                            ),
                            _ => (Err(not_callable_message(called)), env2),
                        },
                        Err(message) => (Err(message), env2),
                    }
                },
                Err(message) => (Err(message), env1),
            }
        },
        ExpressionView::Block { statements } => {
            let (result, env1) = eval_statements_with_inner_env_spec(statements, scope, env, depth);
            match result {
                Ok(value) => (Ok(block_value(value)), env1),
                Err(message) => (Err(message), env1),
            }
        },
    }
}

/// The values of the expressions from position `from` on, evaluated from left
/// to right, behind the values `done` of those before.
pub open spec fn eval_expressions_spec(
    es: Seq<ExpressionView>,
    from: nat,
    done: Seq<ObjectView>,
    scope: nat,
    env: EnvironmentView,
    depth: nat,
) -> EvaluatedList
    decreases depth, es, es.len() - from,
{
    if from >= es.len() {
        (Ok(done), env)
    } else {
        let (result, env1) = eval_expression_spec(es[from as int], scope, env, depth);
        match result {
            Ok(value) => eval_expressions_spec(es, from + 1, done.push(value), scope, env1, depth),
            Err(message) => (Err(message), env1),
        }
    }
}

/// What a call of a closure yields: an error where the number of arguments
/// is not that of the parameters; else the value of the body in a new scope
/// inside the captured one, with the parameters bound to the arguments. At
/// the end the scopes made for the call are given up, unless a closure was
/// made. `depth` is how deep calls may nest inside the body.
pub open spec fn call_function_spec(
    arguments: Seq<ObjectView>,
    parameter_names: Seq<Seq<char>>,
    body: Seq<StatementView>,
    parent: nat,
    env: EnvironmentView,
    depth: nat,
) -> Evaluated
    decreases depth, body, body.len() + 2,
{
    if arguments.len() != parameter_names.len() {
        (Err(arity_message(parameter_names.len(), arguments.len())), env)
    } else if parent >= env.scopes.len() {
        (Err(lost_scope_message()), env)
    } else {
        let call_scope = env.scopes.len();
        let entered = bind_parameters(
            env.enclose(parent),
            call_scope,
            parameter_names,
            arguments,
            parameter_names.len(),
        );
        let (result, env1) = eval_statements_spec(body, 0, None, call_scope, entered, depth);
        let left = env1.released(env.scopes.len(), env.closures);
        match result {
            Ok(value) => (Ok(call_value(value)), left),
            Err(message) => (Err(message), left),
        }
    }
}

/// The value of the statements from position `from` on, where `last` is the
/// value of the statement before. Evaluation stops behind the first
/// statement that yields a carried return value, and yields it.
pub open spec fn eval_statements_spec(
    ss: Seq<StatementView>,
    from: nat,
    last: Option<ObjectView>,
    scope: nat,
    env: EnvironmentView,
    depth: nat,
) -> EvaluatedBlock
    decreases depth, ss, ss.len() - from,
{
    if from >= ss.len() {
        (Ok(last), env)
    } else {
        let (result, env1) = eval_statement_spec(ss[from as int], scope, env, depth);
        match result {
            Ok(Some(ObjectView::ReturnValue(value))) => (
                Ok(Some(ObjectView::ReturnValue(value))),
                env1,
            ),
            Ok(value) => eval_statements_spec(ss, from + 1, value, scope, env1, depth),
            Err(message) => (Err(message), env1),
        }
    }
}

/// The value of a list of statements in a new scope inside `scope`. At the
/// end the scopes made for it are given up, unless a closure was made.
pub open spec fn eval_statements_with_inner_env_spec(
    ss: Seq<StatementView>,
    scope: nat,
    env: EnvironmentView,
    depth: nat,
) -> EvaluatedBlock
    decreases depth, ss, ss.len() + 1,
{
    let (result, env1) = eval_statements_spec(
        ss,
        0,
        None,
        env.scopes.len(),
        env.enclose(scope),
        depth,
    );
    (result, env1.released(env.scopes.len(), env.closures))
}

/// The value of a statement. An expression statement has the value of its
/// expression; `return` carries the value of its expression; `let` binds a
/// name in the scope and has no value.
pub open spec fn eval_statement_spec(
    s: StatementView,
    scope: nat,
    env: EnvironmentView,
    depth: nat,
) -> EvaluatedBlock
    decreases depth, s, 0nat,
{
    match s {
        StatementView::Expression { expression } => {
            let (result, env1) = eval_expression_spec(expression, scope, env, depth);
            match result {
                Ok(value) => (Ok(Some(value)), env1),
                Err(message) => (Err(message), env1),
            }
        },
        StatementView::Return { value } => {
            let (result, env1) = eval_expression_spec(value, scope, env, depth);
            match result {
                Ok(carried) => (Ok(Some(ObjectView::ReturnValue(Box::new(carried)))), env1),
                Err(message) => (Err(message), env1),
            }
        },
        StatementView::Let { name, right } => {
            let (result, env1) = eval_expression_spec(right, scope, env, depth);
            match result {
                Ok(value) => (Ok(None), env1.bind(scope, name, value)),
                Err(message) => (Err(message), env1),
            }
        },
    }
}

/// The value of a program in the root scope: that of its statements, without
/// the wrapper of a carried return value.
pub open spec fn eval_program_spec(program: Seq<StatementView>, env: EnvironmentView) -> EvaluatedBlock {
    let (result, env1) = eval_statements_spec(program, 0, None, 0, env, MAX_CALL_DEPTH as nat);
    match result {
        Ok(Some(ObjectView::ReturnValue(value))) => (Ok(Some(*value)), env1),
        Ok(value) => (Ok(value), env1),
        Err(message) => (Err(message), env1),
    }
}

/// The content of what evaluating an expression returns.
pub open spec fn value_view(result: Result<Rc<Object>, String>) -> Result<ObjectView, Seq<char>> {
    match result {
        Ok(object) => Ok(object@),
        Err(message) => Err(message@),
    }
}

/// The content of a value that may be absent.
pub open spec fn content_of(object: Option<Rc<Object>>) -> Option<ObjectView> {
    match object {
        Some(object) => Some(object@),
        None => None,
    }
}

/// The content of what evaluating statements returns.
pub open spec fn optional_view(result: Result<Option<Rc<Object>>, String>) -> Result<
    Option<ObjectView>,
    Seq<char>,
> {
    match result {
        Ok(Some(object)) => Ok(Some(object@)),
        Ok(None) => Ok(None),
        Err(message) => Err(message@),
    }
}

/// The content of what evaluating a list of expressions returns.
pub open spec fn list_view(result: Result<Vec<Rc<Object>>, String>) -> Result<
    Seq<ObjectView>,
    Seq<char>,
> {
    match result {
        Ok(objects) => Ok(objects_view(objects@)),
        Err(message) => Err(message@),
    }
}

/// The content of what running a program returns.
pub open spec fn program_view(result: Result<Option<Rc<Object>>, EvalError>) -> Result<
    Option<ObjectView>,
    Seq<char>,
> {
    match result {
        Ok(Some(object)) => Ok(Some(object@)),
        Ok(None) => Ok(None),
        Err(error) => Err(error@),
    }
}

/// Looks a name up in the table of built-in functions.
pub fn get_builtin_fn(name: &str) -> (builtin: Option<BuiltinFunction>)
    ensures
        builtin == builtin_named(name@),
{
    if same_text(name, "len") {
        Some(BuiltinFunction::Len)
    } else if same_text(name, "print") {
        Some(BuiltinFunction::Print)
    } else {
        None
    }
}

impl BuiltinFunction {
    /// Calls the built-in function on evaluated arguments.
    pub fn run<'a>(&self, arguments: &Vec<Rc<Object<'a>>>, env: &mut Environment<'a>) -> (result:
        Result<Rc<Object<'a>>, String>)
        requires
            old(env).wf(),
        ensures
            final(env).wf(),
            (value_view(result), final(env)@) == builtin_result(
                *self,
                objects_view(arguments@),
                old(env)@,
            ),
    {
        match self {
            BuiltinFunction::Len => {
                if arguments.len() != 1 {
                    return Err(String::from_str("len takes exactly 1 argument"));
                }
                match &*arguments[0] {
                    Object::String(string) => {
                        let length = string.as_str().as_bytes().len();
                        if length as u64 <= 0x7fff_ffff_ffff_ffffu64 {
                            Ok(Rc::new(Object::Integer(length as i64)))
                        } else {
                            Err(String::from_str("The string is too long"))
                        }
                    },
                    _ => Err(String::from_str("Only strings can be passed to len")),
                }
            },
            BuiltinFunction::Print => {
                if arguments.len() != 1 {
                    return Err(String::from_str("print takes exactly 1 argument"));
                }
                let line = arguments[0].to_string();
                env.emit(line);
                Ok(Rc::new(Object::Null))
            },
        }
    }
}

fn unbound_error(name: &str) -> (message: String)
    ensures
        message@ == unbound_message(name@),
{
    let mut message = String::from_str("The identifier '");
    message.append(name);
    message.append("' has not been bound");
    assert(message@ =~= unbound_message(name@));
    message
}

fn condition_error(condition: &Object) -> (message: String)
    ensures
        message@ == condition_message(condition@),
{
    let mut message = String::from_str("The condition in an if statement must be a bool. Got ");
    message.append(condition.kind_name().as_str());
    message
}

fn not_callable_error(callee: &Object) -> (message: String)
    ensures
        message@ == not_callable_message(callee@),
{
    let mut message = String::from_str("Cannot call ");
    message.append(callee.to_string().as_str());
    message
}

fn arity_error(expected: usize, got: usize) -> (message: String)
    ensures
        message@ == arity_message(expected as nat, got as nat),
{
    let mut message = String::from_str("Expected ");
    message.append(count_to_string(expected).as_str());
    message.append(" args, got ");
    message.append(count_to_string(got).as_str());
    assert(message@ =~= arity_message(expected as nat, got as nat));
    message
}

/// What an identifier stands for, seen from a scope.
pub fn read_from_env<'a>(env: &Environment<'a>, scope: usize, identifier: &str) -> (result: Result<
    Rc<Object<'a>>,
    String,
>)
    requires
        env.wf(),
        scope < env@.scopes.len(),
    ensures
        value_view(result) == read_from_env_spec(env@, scope as nat, identifier@),
{
    match env.get(scope, identifier) {
        Some(object) => Ok(object),
        None => match get_builtin_fn(identifier) {
            Some(builtin) => Ok(Rc::new(Object::BuiltinFunction(builtin))),
            None => Err(unbound_error(identifier)),
        },
    }
}

/// Evaluates an expression in a scope of the environment. `depth` is how
/// deep calls may still nest.
pub fn eval_expression<'a>(
    expression: &'a Expression,
    scope: usize,
    env: &mut Environment<'a>,
    depth: usize,
) -> (result: Result<Rc<Object<'a>>, String>)
    requires
        old(env).wf(),
        scope < old(env)@.scopes.len(),
    ensures
        final(env).wf(),
        final(env)@.scopes.len() >= old(env)@.scopes.len(),
        (value_view(result), final(env)@) == eval_expression_spec(
            expression@,
            scope as nat,
            old(env)@,
            depth as nat,
        ),
    decreases depth, expression, 0nat,
{
    match expression {
        Expression::IntegerLiteral { value } => Ok(Rc::new(Object::Integer(*value))),
        Expression::Infix { left, operator, right } => {
            let left_value = eval_expression(left, scope, env, depth)?;
            let right_value = eval_expression(right, scope, env, depth)?;
            match eval_infix(left_value, operator, right_value) {
                Ok(object) => Ok(Rc::new(object)),
                Err(message) => Err(message),
            }
        },
        Expression::Boolean { value } => Ok(Rc::new(Object::Boolean(*value))),
        Expression::Prefix { operator, right } => {
            let operand = eval_expression(right, scope, env, depth)?;
            match eval_prefix(operand, operator) {
                Ok(object) => Ok(Rc::new(object)),
                Err(message) => Err(message),
            }
        },
        Expression::If { condition, consequence, alternative } => {
            let tested = eval_expression(condition, scope, env, depth)?;
            let holds = match &*tested {
                Object::Boolean(value) => *value,
                _ => {
                    return Err(condition_error(&*tested));
                },
            };
            let evaluated_block = if holds {
                eval_statements_with_inner_env(&consequence.statements, scope, env, depth)
            } else {
                match alternative {
                    Some(block) => eval_statements_with_inner_env(
                        &block.statements,
                        scope,
                        env,
                        depth,
                    ),
                    None => Ok(None),
                }
            };
            match evaluated_block {
                Ok(Some(object)) => Ok(object),
                Ok(None) => Ok(Rc::new(Object::Null)),
                Err(message) => Err(message),
            }
        },
        Expression::Identifier { value } => read_from_env(env, scope, value.as_str()),
        Expression::FnLiteral { param_names, body } => {
            let own = env.new_closure_scope(scope);
            Ok(Rc::new(Object::Function { body, parameter_names: copy_texts(param_names), env: own }))
        },
        Expression::CallExpression { left, arguments } => {
            let left_evaluated = eval_expression(left, scope, env, depth)?;
            let evaluated_arguments = eval_expressions(arguments, scope, env, depth)?;
            match &*left_evaluated {
                Object::Function { parameter_names, body, env: captured } => {
                    if depth == 0 {
                        Err(String::from_str("Maximum call depth exceeded"))
                    } else {
                        call_function(
                            evaluated_arguments,
                            parameter_names,
                            body,
                            *captured,
                            env,
                            depth - 1,
                        )
                    }
                },
                Object::BuiltinFunction(builtin) => builtin.run(&evaluated_arguments, env),
                _ => Err(not_callable_error(&*left_evaluated)),
            }
        },
        Expression::StringLiteral { value } => Ok(Rc::new(Object::String(value.clone()))),
        Expression::Block { statements } => {
            match eval_statements_with_inner_env(statements, scope, env, depth) {
                Ok(Some(object)) => Ok(object),
                Ok(None) => Ok(Rc::new(Object::Null)),
                Err(message) => Err(message),
            }
        },
    }
}

/// Evaluates a list of expressions from left to right.
#[verifier::loop_isolation(false)]
pub fn eval_expressions<'a>(
    expressions: &'a Vec<Expression>,
    scope: usize,
    env: &mut Environment<'a>,
    depth: usize,
) -> (result: Result<Vec<Rc<Object<'a>>>, String>)
    requires
        old(env).wf(),
        scope < old(env)@.scopes.len(),
    ensures
        final(env).wf(),
        final(env)@.scopes.len() >= old(env)@.scopes.len(),
        (list_view(result), final(env)@) == eval_expressions_spec(
            expressions_view(*expressions),
            0,
            Seq::empty(),
            scope as nat,
            old(env)@,
            depth as nat,
        ),
    decreases depth, expressions, 1nat,
{
    let ghost es = expressions_view(*expressions);
    let mut results: Vec<Rc<Object<'a>>> = Vec::new();
    let mut i: usize = 0;
    assert(objects_view(results@) =~= Seq::empty());
    while i < expressions.len()
        invariant
            i <= expressions.len(),
            env.wf(),
            scope < env@.scopes.len(),
            env@.scopes.len() >= old(env)@.scopes.len(),
            eval_expressions_spec(
                es,
                i as nat,
                objects_view(results@),
                scope as nat,
                env@,
                depth as nat,
            ) == eval_expressions_spec(es, 0, Seq::empty(), scope as nat, old(env)@, depth as nat),
        decreases expressions.len() - i,
    {
        let ghost done = objects_view(results@);
        assert(es[i as int] == expressions[i as int]@);
        match eval_expression(&expressions[i], scope, env, depth) {
            Ok(object) => {
                results.push(object);
                assert(objects_view(results@) =~= done.push(object@));
            },
            Err(message) => {
                return Err(message);
            },
        }
        i = i + 1;
    }
    Ok(results)
}

/// Calls a closure: binds its parameters to the arguments in a new scope
/// inside the captured one and evaluates its body there. `depth` is how deep
/// calls may nest inside the body.
#[verifier::loop_isolation(false)]
pub fn call_function<'a>(
    args: Vec<Rc<Object<'a>>>,
    expected_param_names: &Vec<String>,
    body: &'a BlockStatement,
    parent_env: usize,
    env: &mut Environment<'a>,
    depth: usize,
) -> (result: Result<Rc<Object<'a>>, String>)
    requires
        old(env).wf(),
    ensures
        final(env).wf(),
        final(env)@.scopes.len() >= old(env)@.scopes.len(),
        (value_view(result), final(env)@) == call_function_spec(
            objects_view(args@),
            texts_view(*expected_param_names),
            body@,
            parent_env as nat,
            old(env)@,
            depth as nat,
        ),
    decreases depth, body, 2nat,
{
    if args.len() != expected_param_names.len() {
        return Err(arity_error(expected_param_names.len(), args.len()));
    }
    if parent_env >= env.scope_count() {
        return Err(String::from_str("The scope of the function is not in this environment"));
    }
    let ghost names = texts_view(*expected_param_names);
    let ghost values = objects_view(args@);
    let mark = env.scope_count();
    let since = env.closure_count();
    proof {
        env.lemma_has_root();
    }
    let call_env = env.new_enclosed(parent_env);
    let ghost entered = env@;
    let mut i: usize = 0;
    while i < args.len()
        invariant
            i <= args.len(),
            args.len() == expected_param_names.len(),
            env.wf(),
            call_env < env@.scopes.len(),
            env@.scopes.len() == entered.scopes.len(),
            env@ == bind_parameters(entered, call_env as nat, names, values, i as nat),
        decreases args.len() - i,
    {
        env.set(call_env, expected_param_names[i].as_str(), share(&args[i]));
        i = i + 1;
    }
    let result = eval_statements(&body.statements, call_env, env, depth);
    env.release(mark, since);
    match result {
        Ok(Some(object)) => {
            match &*object {
                Object::ReturnValue(value) => Ok(share(value)),
                _ => Ok(object),
            }
        },
        Ok(None) => Ok(Rc::new(Object::Null)),
        Err(message) => Err(message),
    }
}

/// Evaluates statements in order, in the given scope, up to the first that
/// yields a carried return value.
#[verifier::loop_isolation(false)]
pub fn eval_statements<'a>(
    statements: &'a Vec<Statement>,
    scope: usize,
    env: &mut Environment<'a>,
    depth: usize,
) -> (result: Result<Option<Rc<Object<'a>>>, String>)
    requires
        old(env).wf(),
        scope < old(env)@.scopes.len(),
    ensures
        final(env).wf(),
        final(env)@.scopes.len() >= old(env)@.scopes.len(),
        (optional_view(result), final(env)@) == eval_statements_spec(
            statements_view(*statements),
            0,
            None,
            scope as nat,
            old(env)@,
            depth as nat,
        ),
    decreases depth, statements, 1nat,
{
    let ghost ss = statements_view(*statements);
    let mut result: Option<Rc<Object<'a>>> = None;
    let mut i: usize = 0;
    while i < statements.len()
        invariant
            i <= statements.len(),
            env.wf(),
            scope < env@.scopes.len(),
            env@.scopes.len() >= old(env)@.scopes.len(),
            eval_statements_spec(
                ss,
                i as nat,
                content_of(result),
                scope as nat,
                env@,
                depth as nat,
            ) == eval_statements_spec(ss, 0, None, scope as nat, old(env)@, depth as nat),
        decreases statements.len() - i,
    {
        assert(ss[i as int] == statements[i as int]@);
        match eval_statement(&statements[i], scope, env, depth) {
            Ok(value) => {
                result = value;
            },
            Err(message) => {
                return Err(message);
            },
        }
        let returned = match &result {
            Some(evaluated_statement) => match &**evaluated_statement {
                Object::ReturnValue(_) => true,
                _ => false,
            },
            None => false,
        };
        if returned {
            return Ok(result);
        }
        i = i + 1;
    }
    Ok(result)
}

/// Evaluates statements in a new scope inside the given one.
pub fn eval_statements_with_inner_env<'a>(
    statements: &'a Vec<Statement>,
    parent_env: usize,
    env: &mut Environment<'a>,
    depth: usize,
) -> (result: Result<Option<Rc<Object<'a>>>, String>)
    requires
        old(env).wf(),
        parent_env < old(env)@.scopes.len(),
    ensures
        final(env).wf(),
        final(env)@.scopes.len() >= old(env)@.scopes.len(),
        (optional_view(result), final(env)@) == eval_statements_with_inner_env_spec(
            statements_view(*statements),
            parent_env as nat,
            old(env)@,
            depth as nat,
        ),
    decreases depth, statements, 2nat,
{
    let mark = env.scope_count();
    let since = env.closure_count();
    proof {
        env.lemma_has_root();
    }
    let inner_env = env.new_enclosed(parent_env);
    let result = eval_statements(statements, inner_env, env, depth);
    env.release(mark, since);
    result
}

/// Evaluates one statement in the given scope.
pub fn eval_statement<'a>(
    statement: &'a Statement,
    scope: usize,
    env: &mut Environment<'a>,
    depth: usize,
) -> (result: Result<Option<Rc<Object<'a>>>, String>)
    requires
        old(env).wf(),
        scope < old(env)@.scopes.len(),
    ensures
        final(env).wf(),
        final(env)@.scopes.len() >= old(env)@.scopes.len(),
        (optional_view(result), final(env)@) == eval_statement_spec(
            statement@,
            scope as nat,
            old(env)@,
            depth as nat,
        ),
    decreases depth, statement, 0nat,
{
    match statement {
        Statement::Expression { expression } => {
            match eval_expression(expression, scope, env, depth) {
                Ok(object) => Ok(Some(object)),
                Err(message) => Err(message),
            }
        },
        Statement::Return { value } => {
            match eval_expression(value, scope, env, depth) {
                Ok(contained_value) => Ok(Some(Rc::new(Object::ReturnValue(contained_value)))),
                Err(message) => Err(message),
            }
        },
        Statement::Let { name, right } => {
            match eval_expression(right, scope, env, depth) {
                Ok(right_obj) => {
                    env.set(scope, name.as_str(), right_obj);
                    Ok(None)
                },
                Err(message) => Err(message),
            }
        },
    }
}

/// Runs a program in the root scope of the environment, with calls nesting
/// at most `MAX_CALL_DEPTH` deep. Returns the value of the last statement
/// evaluated, without the wrapper of a carried return value; `None` where
/// that statement has no value or the program is empty.
pub fn eval_program<'a>(program: &'a Program, env: &mut Environment<'a>) -> (result: Result<
    Option<Rc<Object<'a>>>,
    EvalError,
>)
    requires
        old(env).wf(),
    ensures
        final(env).wf(),
        (program_view(result), final(env)@) == eval_program_spec(program@, old(env)@),
{
    proof {
        env.lemma_has_root();
    }
    match eval_statements(&program.statements, Environment::ROOT, env, MAX_CALL_DEPTH) {
        Ok(Some(object)) => {
            match &*object {
                Object::ReturnValue(value) => Ok(Some(share(value))),
                _ => Ok(Some(object)),
            }
        },
        Ok(None) => Ok(None),
        Err(message) => Err(EvalError::Misc(message)),
    }
}

} // verus!
