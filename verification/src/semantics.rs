//! What evaluation means, as mathematics.
//!
//! An environment is a map from names to values. Evaluating a tree in an
//! environment gives a value or an error, and the environment that is left
//! behind: `let` statements add to it. The evaluator computes exactly the
//! functions defined here.
//!
//! Evaluation of a program that calls functions need not end. The
//! definitions therefore carry a budget `depth`, the number of function
//! calls that may still be nested; a call that would go deeper is an error.

use vstd::prelude::*;

use crate::ast::{AstNodeView, ExpressionView, StatementView};
use crate::builtin::{apply_builtin_spec, builtin_named};
use crate::evaluator::{EvalError, ObjectView};
use crate::token::TokenView;

verus! {

/// The outcome of evaluating a tree: a value or an error, and the
/// environment left behind.
pub ghost struct Evaluated<T> {
    pub result: Result<T, EvalError>,
    pub env: Map<Seq<char>, ObjectView>,
}

/// The outcome of an evaluation that gave `value`.
pub open spec fn evaluated<T>(value: T, env: Map<Seq<char>, ObjectView>) -> Evaluated<T> {
    Evaluated { result: Ok(value), env }
}

/// The outcome of an evaluation that stopped with `error`.
pub open spec fn stopped<T>(error: EvalError, env: Map<Seq<char>, ObjectView>) -> Evaluated<T> {
    Evaluated { result: Err(error), env }
}

/// The integer `value` as an object, where it fits 32 bits.
pub open spec fn checked_integer(value: int) -> Result<ObjectView, EvalError> {
    if i32::MIN <= value <= i32::MAX {
        Ok(ObjectView::Integer(value))
    } else {
        Err(EvalError::IntegerOverflow)
    }
}

/// The quotient of `a` by `b`, rounded toward zero.
pub open spec fn truncated_quotient(a: int, b: int) -> int
    recommends
        b != 0,
{
    if a >= 0 && b > 0 {
        a / b
    } else if a < 0 && b < 0 {
        (-a) / (-b)
    } else if a < 0 {
        -((-a) / b)
    } else {
        -(a / (-b))
    }
}

/// Whether a value counts as true in a condition: the boolean `true` and
/// every integer but zero do.
pub open spec fn is_truthy_spec(value: ObjectView) -> bool {
    match value {
        ObjectView::Integer(i) => i != 0,
        ObjectView::Boolean(b) => b,
        _ => false,
    }
}

/// `!` applied to `right`: the negation of a boolean, `true` for null, and
/// null for everything else.
pub open spec fn eval_bang_spec(right: ObjectView) -> ObjectView {
    match right {
        ObjectView::Boolean(value) => ObjectView::Boolean(!value),
        ObjectView::Null => ObjectView::Boolean(true),
        _ => ObjectView::Null,
    }
}

/// Unary `-` applied to `right`: the negation of an integer, and null for
/// everything else.
pub open spec fn eval_minus_prefix_spec(right: ObjectView) -> Result<ObjectView, EvalError> {
    match right {
        ObjectView::Integer(value) => checked_integer(-value),
        _ => Ok(ObjectView::Null),
    }
}

/// A unary operator applied to `right`. A token that is no unary operator
/// gives null.
pub open spec fn eval_prefix_spec(operator: TokenView, right: ObjectView) -> Result<
    ObjectView,
    EvalError,
> {
    match operator {
        TokenView::Bang => Ok(eval_bang_spec(right)),
        TokenView::Minus => eval_minus_prefix_spec(right),
        _ => Ok(ObjectView::Null),
    }
}

/// A binary operator applied to `left` and `right`. Unless both are
/// integers the result is null. `+ - * /` give integers, with division
/// rounded toward zero; `== != < >` give booleans; a token that is no binary
/// operator gives null. Division by zero and a result outside 32 bits are
/// errors.
pub open spec fn eval_infix_spec(left: ObjectView, right: ObjectView, operator: TokenView) -> Result<
    ObjectView,
    EvalError,
> {
    match (left, right) {
        (ObjectView::Integer(a), ObjectView::Integer(b)) => match operator {
            TokenView::Plus => checked_integer(a + b),
            TokenView::Minus => checked_integer(a - b),
            TokenView::Asterisk => checked_integer(a * b),
            TokenView::Slash => if b == 0 {
                Err(EvalError::DivisionByZero)
            } else {
                checked_integer(truncated_quotient(a, b))
            },
            TokenView::Equals => Ok(ObjectView::Boolean(a == b)),
            TokenView::NotEquals => Ok(ObjectView::Boolean(a != b)),
            TokenView::LessThan => Ok(ObjectView::Boolean(a < b)),
            TokenView::GreaterThan => Ok(ObjectView::Boolean(a > b)),
            _ => Ok(ObjectView::Null),
        },
        _ => Ok(ObjectView::Null),
    }
}

/// What a name stands for: a built-in function where it names one, else
/// the value bound to it in the environment. A name that is neither is an
/// error.
pub open spec fn eval_identifier_spec(name: Seq<char>, env: Map<Seq<char>, ObjectView>) -> Result<
    ObjectView,
    EvalError,
> {
    match builtin_named(name) {
        Some(function) => Ok(ObjectView::Builtin(function)),
        None => if env.contains_key(name) {
            Ok(env[name])
        } else {
            Err(EvalError::UnboundIdentifier)
        },
    }
}

/// The environment in which the body of a function runs, as far as the
/// first `count` parameters go: the function's own scope with each
/// parameter, in order, bound to the argument in the same place. A
/// parameter that is no identifier, and one without an argument, are errors;
/// arguments beyond the parameters are ignored.
pub open spec fn bind_parameters_spec(
    parameters: Seq<TokenView>,
    arguments: Seq<ObjectView>,
    scope: Map<Seq<char>, ObjectView>,
    count: nat,
) -> Result<Map<Seq<char>, ObjectView>, EvalError>
    decreases count,
{
    if count == 0 || count > parameters.len() {
        Ok(scope)
    } else {
        match bind_parameters_spec(parameters, arguments, scope, (count - 1) as nat) {
            Err(error) => Err(error),
            Ok(bound) => match parameters[count - 1] {
                TokenView::Identifier(name) => if count - 1 < arguments.len() {
                    Ok(bound.insert(name, arguments[count - 1]))
                } else {
                    Err(EvalError::MissingArgument)
                },
                _ => Err(EvalError::InvalidParameter),
            },
        }
    }
}

/// The value a function call gives for what its body evaluated to: a
/// return signal ends at the call and hands over the value it carries.
pub open spec fn unwrap_return_spec(value: ObjectView) -> ObjectView {
    match value {
        ObjectView::Return(inner) => *inner,
        _ => value,
    }
}

/// The value and effect of a node.
pub open spec fn eval_node_spec(
    node: AstNodeView,
    env: Map<Seq<char>, ObjectView>,
    depth: nat,
) -> Evaluated<ObjectView>
    decreases depth, node, 0nat,
{
    match node {
        AstNodeView::Program { statements } => eval_block_statement_spec(
            statements,
            0,
            ObjectView::Null,
            env,
            depth,
        ),
        AstNodeView::Statement(statement) => eval_statement_spec(statement, env, depth),
        AstNodeView::Expression(expression) => eval_expression_spec(expression, env, depth),
    }
}

/// The value and effect of the nodes of a program or block from position
/// `from` on, where `last` is the value of the node before them: the nodes
/// are evaluated in order, and the value of the last one evaluated is the
/// result. A return signal stops the evaluation and is itself the result.
/// Without any node the result is null.
pub open spec fn eval_block_statement_spec(
    nodes: Seq<AstNodeView>,
    from: nat,
    last: ObjectView,
    env: Map<Seq<char>, ObjectView>,
    depth: nat,
) -> Evaluated<ObjectView>
    decreases depth, nodes, nodes.len() - from,
{
    if from >= nodes.len() {
        evaluated(last, env)
    } else {
        let node = eval_node_spec(nodes[from as int], env, depth);
        match node.result {
            Err(error) => stopped(error, node.env),
            Ok(value) => if value is Return {
                evaluated(value, node.env)
            } else {
                eval_block_statement_spec(nodes, from + 1, value, node.env, depth)
            },
        }
    }
}

/// The value and effect of a statement. `return` wraps the value of its
/// expression into a return signal. `let` binds the value of its expression
/// to its name and has that value as its own.
pub open spec fn eval_statement_spec(
    statement: StatementView,
    env: Map<Seq<char>, ObjectView>,
    depth: nat,
) -> Evaluated<ObjectView>
    decreases depth, statement, 0nat,
{
    match statement {
        StatementView::ReturnStatement(expression) => {
            let value = eval_expression_spec(expression, env, depth);
            match value.result {
                Err(error) => stopped(error, value.env),
                Ok(object) => evaluated(ObjectView::Return(Box::new(object)), value.env),
            }
        },
        StatementView::LetStatement { name, value } => match name {
            ExpressionView::Identifier(target) => {
                let bound = eval_expression_spec(value, env, depth);
                match bound.result {
                    Err(error) => stopped(error, bound.env),
                    Ok(object) => evaluated(object, bound.env.insert(target, object)),
                }
            },
            _ => stopped(EvalError::InvalidLetTarget, env),
        },
    }
}

/// The values and effect of the expressions of a list from position `from`
/// on, evaluated from left to right and appended to `done`.
pub open spec fn eval_expressions_spec(
    items: Seq<ExpressionView>,
    from: nat,
    done: Seq<ObjectView>,
    env: Map<Seq<char>, ObjectView>,
    depth: nat,
) -> Evaluated<Seq<ObjectView>>
    decreases depth, items, items.len() - from,
{
    if from >= items.len() {
        evaluated(done, env)
    } else {
        let item = eval_expression_spec(items[from as int], env, depth);
        match item.result {
            Err(error) => stopped(error, item.env),
            Ok(value) => eval_expressions_spec(items, from + 1, done.push(value), item.env, depth),
        }
    }
}

/// The value and effect of calling a function with the given parameters,
/// body and scope on the argument expressions `arguments`: the arguments
/// are evaluated from left to right in the caller's environment; the body
/// runs in the function's scope extended by the parameters; then the
/// caller's environment is back in place.
pub open spec fn eval_function_call_spec(
    parameters: Seq<TokenView>,
    arguments: Seq<ExpressionView>,
    body: Seq<AstNodeView>,
    scope: Map<Seq<char>, ObjectView>,
    env: Map<Seq<char>, ObjectView>,
    depth: nat,
) -> Evaluated<ObjectView>
    decreases depth, arguments, arguments.len() + 1,
{
    let values = eval_expressions_spec(arguments, 0, Seq::empty(), env, depth);
    match values.result {
        Err(error) => stopped(error, values.env),
        Ok(objects) => match bind_parameters_spec(parameters, objects, scope, parameters.len()) {
            Err(error) => stopped(error, values.env),
            Ok(bound) => if depth == 0 {
                stopped(EvalError::CallDepthExceeded, values.env)
            } else {
                let outcome = eval_block_statement_spec(
                    body,
                    0,
                    ObjectView::Null,
                    bound,
                    (depth - 1) as nat,
                );
                match outcome.result {
                    Err(error) => stopped(error, values.env),
                    Ok(value) => evaluated(unwrap_return_spec(value), values.env),
                }
            },
        },
    }
}

/// The value and effect of an expression.
pub open spec fn eval_expression_spec(
    expression: ExpressionView,
    env: Map<Seq<char>, ObjectView>,
    depth: nat,
) -> Evaluated<ObjectView>
    decreases depth, expression, 0nat,
{
    match expression {
        ExpressionView::Int(value) => evaluated(ObjectView::Integer(value), env),
        ExpressionView::Boolean(value) => evaluated(ObjectView::Boolean(value), env),
        ExpressionView::String(text) => evaluated(ObjectView::String(text), env),
        ExpressionView::Identifier(name) => Evaluated {
            result: eval_identifier_spec(name, env),
            env,
        },
        ExpressionView::Array(items) => {
            let values = eval_expressions_spec(items, 0, Seq::empty(), env, depth);
            match values.result {
                Err(error) => stopped(error, values.env),
                Ok(objects) => evaluated(ObjectView::Array(objects), values.env),
            }
        },
        ExpressionView::Prefix { operator, right } => {
            let operand = eval_expression_spec(*right, env, depth);
            match operand.result {
                Err(error) => stopped(error, operand.env),
                Ok(value) => Evaluated {
                    result: eval_prefix_spec(operator, value),
                    env: operand.env,
                },
            }
        },
        ExpressionView::Infix { operator, left, right } => {
            let first = eval_expression_spec(*left, env, depth);
            match first.result {
                Err(error) => stopped(error, first.env),
                Ok(left_value) => {
                    let second = eval_expression_spec(*right, first.env, depth);
                    match second.result {
                        Err(error) => stopped(error, second.env),
                        Ok(right_value) => Evaluated {
                            result: eval_infix_spec(left_value, right_value, operator),
                            env: second.env,
                        },
                    }
                },
            }
        },
        ExpressionView::IfExpression { condition, consequence, alternative } => {
            let test = eval_expression_spec(*condition, env, depth);
            match test.result {
                Err(error) => stopped(error, test.env),
                Ok(value) => if is_truthy_spec(value) {
                    eval_block_statement_spec(consequence, 0, ObjectView::Null, test.env, depth)
                } else {
                    match alternative {
                        Some(block) => eval_block_statement_spec(
                            block,
                            0,
                            ObjectView::Null,
                            test.env,
                            depth,
                        ),
                        None => evaluated(ObjectView::Null, test.env),
                    }
                },
            }
        },
        ExpressionView::FunctionExpression { parameters, body } => evaluated(
            ObjectView::Function { parameters, body, scope: Map::empty() },
            env,
        ),
        ExpressionView::CallExpression { function, arguments } => {
            let callee = eval_expression_spec(*function, env, depth);
            match callee.result {
                Err(error) => stopped(error, callee.env),
                Ok(ObjectView::Builtin(builtin)) => {
                    let values = eval_expressions_spec(
                        arguments,
                        0,
                        Seq::empty(),
                        callee.env,
                        depth,
                    );
                    match values.result {
                        Err(error) => stopped(error, values.env),
                        Ok(objects) => Evaluated {
                            result: apply_builtin_spec(builtin, objects),
                            env: values.env,
                        },
                    }
                },
                Ok(ObjectView::Function { parameters, body, scope }) => eval_function_call_spec(
                    parameters,
                    arguments,
                    body,
                    scope,
                    callee.env,
                    depth,
                ),
                Ok(_) => stopped(EvalError::NotCallable, callee.env),
            }
        },
    }
}

} // verus!
