//! The evaluator: runtime values, the environment that names them, and the
//! tree walk that computes them.

use vstd::prelude::*;
use vstd::string::*;

use crate::ast::{
    duplicate_tokens, expressions_view, nodes_view, tokens_view, AstNode, AstNodeView,
    BlockStatement, Expression, Statement,
};
use crate::builtin::{apply_builtin, lookup_builtin, BuiltinFunction};
use crate::semantics::{
    bind_parameters_spec, eval_bang_spec, eval_block_statement_spec, eval_expression_spec,
    eval_expressions_spec, eval_function_call_spec, eval_identifier_spec, eval_infix_spec,
    eval_minus_prefix_spec, eval_node_spec, eval_prefix_spec, eval_statement_spec,
    is_truthy_spec, unwrap_return_spec, Evaluated,
};
use crate::text::{integer_text, push_integer};
use crate::token::{Token, TokenView};

verus! {

/// Why an evaluation stopped without a value.
#[derive(Debug, Clone, Copy, PartialEq, Eq, Structural)]
pub enum EvalError {
    /// A name that is neither a built-in function nor bound in the
    /// environment.
    UnboundIdentifier,
    /// A call of a value that is neither a function nor a built-in.
    NotCallable,
    /// A built-in function called without the argument it needs, or with one
    /// of the wrong kind.
    WrongArgumentType,
    /// A function called with fewer arguments than it has parameters.
    MissingArgument,
    /// A parameter of a function that is no identifier.
    InvalidParameter,
    /// A `let` statement whose target is no identifier.
    InvalidLetTarget,
    /// A division by zero.
    DivisionByZero,
    /// An arithmetic result outside the 32-bit signed integers.
    IntegerOverflow,
    /// More nested function calls than the evaluator allows.
    CallDepthExceeded,
}

/// A runtime value.
#[derive(Debug, PartialEq)]
pub enum Object {
    Integer(i32),
    Boolean(bool),
    String(String),
    Array(Vec<Object>),
    Return(Box<Object>),
    Builtin(BuiltinFunction),
    Null,
    Function { parameters: Vec<Token>, body: Box<BlockStatement>, scope: Environment },
}

/// A mapping from names to values. A later binding of a name hides an
/// earlier one.
#[derive(Debug, PartialEq)]
pub struct Environment {
    /// The bindings in the order in which they were made.
    pub bindings: Vec<(String, Object)>,
}

/// The model of an [`Object`].
pub ghost enum ObjectView {
    Integer(int),
    Boolean(bool),
    String(Seq<char>),
    Array(Seq<ObjectView>),
    Return(Box<ObjectView>),
    Builtin(BuiltinFunction),
    Null,
    Function {
        parameters: Seq<TokenView>,
        body: Seq<AstNodeView>,
        scope: Map<Seq<char>, ObjectView>,
    },
}

/// The model of an object.
pub open spec fn object_view(o: Object) -> ObjectView
    decreases o, 0nat,
{
    match o {
        Object::Integer(value) => ObjectView::Integer(value as int),
        Object::Boolean(value) => ObjectView::Boolean(value),
        Object::String(text) => ObjectView::String(text@),
        Object::Array(items) => ObjectView::Array(objects_view(items@)),
        Object::Return(value) => ObjectView::Return(Box::new(object_view(*value))),
        Object::Builtin(function) => ObjectView::Builtin(function),
        Object::Null => ObjectView::Null,
        Object::Function { parameters, body, scope } => ObjectView::Function {
            parameters: tokens_view(parameters@),
            body: nodes_view(body.statements@),
            scope: bindings_view(scope.bindings@, scope.bindings@.len()),
        },
    }
}

/// The models of a list of objects, in order.
pub open spec fn objects_view(items: Seq<Object>) -> Seq<ObjectView>
    decreases items, 0nat,
{
    Seq::new(
        items.len(),
        |i: int|
            if 0 <= i < items.len() {
                object_view(items[i])
            } else {
                ObjectView::Null
            },
    )
}

/// The mapping that the first `count` of a list of bindings make: each
/// binding, in order, sets the value of its name.
pub open spec fn bindings_view(bindings: Seq<(String, Object)>, count: nat) -> Map<
    Seq<char>,
    ObjectView,
>
    decreases bindings, count,
{
    if count == 0 || count > bindings.len() {
        Map::empty()
    } else {
        bindings_view(bindings, (count - 1) as nat).insert(
            bindings[count - 1].0@,
            object_view(bindings[count - 1].1),
        )
    }
}

impl View for Object {
    type V = ObjectView;

    open spec fn view(&self) -> ObjectView {
        object_view(*self)
    }
}

impl View for Environment {
    type V = Map<Seq<char>, ObjectView>;

    open spec fn view(&self) -> Map<Seq<char>, ObjectView> {
        bindings_view(self.bindings@, self.bindings@.len())
    }
}

/// The model of the outcome of an evaluation.
pub open spec fn result_view(result: Result<Object, EvalError>) -> Result<ObjectView, EvalError> {
    match result {
        Ok(value) => Ok(value@),
        Err(error) => Err(error),
    }
}

/// How a value is shown to the user.
pub open spec fn inspect_spec(o: ObjectView) -> Seq<char>
    decreases o, 0nat,
{
    match o {
        ObjectView::Integer(value) => integer_text(value),
        ObjectView::Boolean(value) => if value {
            "true"@
        } else {
            "false"@
        },
        ObjectView::String(text) => text,
        ObjectView::Return(value) => inspect_spec(*value),
        ObjectView::Function { .. } => "function"@,
        ObjectView::Builtin(_) => "null"@,
        ObjectView::Null => "null"@,
        ObjectView::Array(items) => "["@ + inspect_items_spec(items, items.len()) + "]"@,
    }
}

/// How the first `count` values of a list are shown: one after the other,
/// separated by a comma and a space.
pub open spec fn inspect_items_spec(items: Seq<ObjectView>, count: nat) -> Seq<char>
    decreases items, count,
{
    if count == 0 || count > items.len() {
        Seq::empty()
    } else if count == 1 {
        inspect_spec(items[0])
    } else {
        inspect_items_spec(items, (count - 1) as nat) + ", "@ + inspect_spec(items[count - 1])
    }
}

impl EvalError {
    /// A sentence that says what went wrong.
    pub fn message(&self) -> (message: String)
        ensures
            message@ == self.message_spec(),
    {
        match self {
            EvalError::UnboundIdentifier => String::from_str("identifier not found"),
            EvalError::NotCallable => String::from_str("value is not callable"),
            EvalError::WrongArgumentType => String::from_str("wrong argument type"),
            EvalError::MissingArgument => String::from_str("missing argument"),
            EvalError::InvalidParameter => String::from_str("parameter is not an identifier"),
            EvalError::InvalidLetTarget => String::from_str("let target is not an identifier"),
            EvalError::DivisionByZero => String::from_str("division by zero"),
            EvalError::IntegerOverflow => String::from_str("integer overflow"),
            EvalError::CallDepthExceeded => String::from_str("call depth exceeded"),
        }
    }

    /// The sentence that `message` returns.
    pub open spec fn message_spec(self) -> Seq<char> {
        match self {
            EvalError::UnboundIdentifier => "identifier not found"@,
            EvalError::NotCallable => "value is not callable"@,
            EvalError::WrongArgumentType => "wrong argument type"@,
            EvalError::MissingArgument => "missing argument"@,
            EvalError::InvalidParameter => "parameter is not an identifier"@,
            EvalError::InvalidLetTarget => "let target is not an identifier"@,
            EvalError::DivisionByZero => "division by zero"@,
            EvalError::IntegerOverflow => "integer overflow"@,
            EvalError::CallDepthExceeded => "call depth exceeded"@,
        }
    }
}

/// Appending one object to a list appends its model to the models.
pub proof fn lemma_objects_view_push(items: Seq<Object>, item: Object)
    ensures
        objects_view(items.push(item)) == objects_view(items).push(item@),
{
    assert(objects_view(items.push(item)) =~= objects_view(items).push(item@));
}

/// The mapping that the first `count` bindings make depends on nothing but
/// the names and the models of the values of those bindings.
pub proof fn lemma_bindings_view_agree(
    a: Seq<(String, Object)>,
    b: Seq<(String, Object)>,
    count: nat,
)
    requires
        count <= a.len(),
        count <= b.len(),
        forall|j: int| 0 <= j < count ==> a[j].0@ == b[j].0@ && a[j].1@ == b[j].1@,
    ensures
        bindings_view(a, count) == bindings_view(b, count),
    decreases count,
{
    if count > 0 {
        lemma_bindings_view_agree(a, b, (count - 1) as nat);
    }
}

/// A further binding sets the value of its name and leaves every other name
/// as it was.
pub proof fn lemma_bindings_view_push(bindings: Seq<(String, Object)>, name: String, value: Object)
    ensures
        bindings_view(bindings.push((name, value)), bindings.len() + 1) == bindings_view(
            bindings,
            bindings.len(),
        ).insert(name@, value@),
{
    lemma_bindings_view_agree(bindings.push((name, value)), bindings, bindings.len());
}

impl Object {
    /// A copy of this object, with the same model.
    pub fn duplicate(&self) -> (copy: Object)
        ensures
            copy@ == self@,
        decreases self,
    {
        match self {
            Object::Integer(value) => Object::Integer(*value),
            Object::Boolean(value) => Object::Boolean(*value),
            Object::String(text) => Object::String(text.clone()),
            Object::Array(items) => Object::Array(duplicate_objects(items)),
            Object::Return(value) => Object::Return(Box::new(value.duplicate())),
            Object::Builtin(function) => Object::Builtin(*function),
            Object::Null => Object::Null,
            Object::Function { parameters, body, scope } => Object::Function {
                parameters: duplicate_tokens(parameters),
                body: Box::new(body.duplicate()),
                scope: scope.duplicate(),
            },
        }
    }

    /// This value as the text in which it is shown to the user.
    pub fn inspect(&self) -> (text: String)
        ensures
            text@ == inspect_spec(self@),
        decreases self,
    {
        match self {
            Object::Integer(value) => {
                let mut text = String::new();
                push_integer(&mut text, *value);
                assert(text@ =~= integer_text(*value as int));
                text
            },
            Object::Boolean(value) => {
                if *value {
                    String::from_str("true")
                } else {
                    String::from_str("false")
                }
            },
            Object::String(value) => value.clone(),
            Object::Return(value) => value.inspect(),
            Object::Function { .. } => String::from_str("function"),
            Object::Builtin(_) => String::from_str("null"),
            Object::Null => String::from_str("null"),
            Object::Array(items) => {
                let mut text = String::from_str("[");
                let inner = inspect_items(items);
                text.append(inner.as_str());
                text.append("]");
                text
            },
        }
    }

    /// Whether this value counts as true in a condition.
    pub fn is_truthy(&self) -> (truthy: bool)
        ensures
            truthy == is_truthy_spec(self@),
    {
        match self {
            Object::Integer(value) => *value != 0,
            Object::Boolean(value) => *value,
            _ => false,
        }
    }
}

/// The values of a list as they are shown to the user, separated by a comma
/// and a space.
pub fn inspect_items(items: &Vec<Object>) -> (text: String)
    ensures
        text@ == inspect_items_spec(objects_view(items@), items@.len()),
    decreases items,
{
    let mut text = String::new();
    let mut i: usize = 0;
    while i < items.len()
        invariant
            i <= items.len(),
            text@ == inspect_items_spec(objects_view(items@), i as nat),
        decreases items.len() - i,
    {
        assert(objects_view(items@)[i as int] == items[i as int]@);
        if i > 0 {
            text.append(", ");
        }
        let item = items[i].inspect();
        text.append(item.as_str());
        assert(text@ =~= inspect_items_spec(objects_view(items@), (i + 1) as nat));
        i += 1;
    }
    text
}

/// A copy of a list of objects.
pub fn duplicate_objects(items: &Vec<Object>) -> (copy: Vec<Object>)
    ensures
        objects_view(copy@) == objects_view(items@),
    decreases items,
{
    let mut copy: Vec<Object> = Vec::new();
    let mut i: usize = 0;
    while i < items.len()
        invariant
            i <= items.len(),
            objects_view(copy@) == objects_view(items@.take(i as int)),
        decreases items.len() - i,
    {
        proof {
            assert(items@.take(i + 1) =~= items@.take(i as int).push(items[i as int]));
            lemma_objects_view_push(items@.take(i as int), items[i as int]);
        }
        let item = items[i].duplicate();
        proof {
            lemma_objects_view_push(copy@, item);
        }
        copy.push(item);
        i += 1;
    }
    assert(items@.take(items.len() as int) =~= items@);
    copy
}

impl Environment {
    /// An environment without bindings.
    pub fn new() -> (env: Environment)
        ensures
            env@ == Map::<Seq<char>, ObjectView>::empty(),
    {
        Environment { bindings: Vec::new() }
    }

    /// The value bound to `name`, if the name is bound.
    pub fn get(&self, name: &String) -> (value: Option<&Object>)
        ensures
            match value {
                Some(object) => self@.contains_key(name@) && self@[name@] == object@,
                None => !self@.contains_key(name@),
            },
    {
        let mut i: usize = self.bindings.len();
        while i > 0
            invariant
                i <= self.bindings.len(),
                self@.contains_key(name@) == bindings_view(self.bindings@, i as nat).contains_key(
                    name@,
                ),
                self@.contains_key(name@) ==> self@[name@] == bindings_view(
                    self.bindings@,
                    i as nat,
                )[name@],
            decreases i,
        {
            i -= 1;
            if self.bindings[i].0 == *name {
                return Some(&self.bindings[i].1);
            }
        }
        None
    }

    /// Binds `name` to `value`. An earlier binding of the name is hidden.
    pub fn insert(&mut self, name: String, value: Object)
        ensures
            final(self)@ == old(self)@.insert(name@, value@),
    {
        proof {
            lemma_bindings_view_push(self.bindings@, name, value);
        }
        self.bindings.push((name, value));
    }

    /// A copy of this environment, with the same model.
    pub fn duplicate(&self) -> (copy: Environment)
        ensures
            copy@ == self@,
        decreases self,
    {
        let mut bindings: Vec<(String, Object)> = Vec::new();
        let mut i: usize = 0;
        while i < self.bindings.len()
            invariant
                i <= self.bindings.len(),
                bindings.len() == i,
                forall|j: int|
                    0 <= j < i ==> bindings[j].0@ == self.bindings[j].0@ && bindings[j].1@
                        == self.bindings[j].1@,
            decreases self.bindings.len() - i,
        {
            let name = self.bindings[i].0.clone();
            let value = self.bindings[i].1.duplicate();
            bindings.push((name, value));
            i += 1;
        }
        proof {
            lemma_bindings_view_agree(bindings@, self.bindings@, bindings@.len());
        }
        Environment { bindings }
    }
}

/// The greatest number of function calls that may be nested in one
/// evaluation.
pub const MAX_CALL_DEPTH: usize = 128;

/// The model of what an evaluation returned and left behind.
pub open spec fn outcome(
    result: Result<Object, EvalError>,
    env: Map<Seq<char>, ObjectView>,
) -> Evaluated<ObjectView> {
    Evaluated { result: result_view(result), env }
}

/// The integer `value` as an object, or the error that it does not fit 32
/// bits where the checked operation that computed it found so.
fn integer_or_overflow(value: Option<i32>) -> (result: Result<Object, EvalError>)
    ensures
        result_view(result) == match value {
            Some(v) => Ok::<ObjectView, EvalError>(ObjectView::Integer(v as int)),
            None => Err::<ObjectView, EvalError>(EvalError::IntegerOverflow),
        },
{
    match value {
        Some(v) => Ok(Object::Integer(v)),
        None => Err(EvalError::IntegerOverflow),
    }
}

/// The value a function call gives for what its body evaluated to.
fn unwrap_return(value: Object) -> (inner: Object)
    ensures
        inner@ == unwrap_return_spec(value@),
{
    match value {
        Object::Return(inner) => *inner,
        other => other,
    }
}

/// A tree-walking evaluator with the environment of its top level.
#[derive(Debug)]
pub struct Evaluator {
    context: Environment,
}

impl View for Evaluator {
    type V = Map<Seq<char>, ObjectView>;

    closed spec fn view(&self) -> Map<Seq<char>, ObjectView> {
        self.context@
    }
}

impl Evaluator {
    /// An evaluator in whose environment nothing is bound.
    pub fn new() -> (evaluator: Evaluator)
        ensures
            evaluator@ == Map::<Seq<char>, ObjectView>::empty(),
    {
        Evaluator { context: Environment::new() }
    }

    /// Evaluates `node` in the evaluator's environment, with at most
    /// `MAX_CALL_DEPTH` function calls nested.
    pub fn eval(&mut self, node: AstNode) -> (result: Result<Object, EvalError>)
        ensures
            outcome(result, final(self)@) == eval_node_spec(
                node@,
                old(self)@,
                MAX_CALL_DEPTH as nat,
            ),
    {
        self.eval_node(&node, MAX_CALL_DEPTH)
    }

    /// Evaluates `node` with at most `depth` function calls nested.
    pub fn eval_node(&mut self, node: &AstNode, depth: usize) -> (result: Result<
        Object,
        EvalError,
    >)
        ensures
            outcome(result, final(self)@) == eval_node_spec(node@, old(self)@, depth as nat),
        decreases depth, node, 0nat,
    {
        match node {
            AstNode::Program { statements } => self.eval_program(statements, depth),
            AstNode::Statement(statement) => self.eval_statement(statement, depth),
            AstNode::Expression(expression) => self.eval_expression(expression, depth),
        }
    }

    /// Evaluates the statements of a program in order.
    fn eval_program(&mut self, statements: &Vec<AstNode>, depth: usize) -> (result: Result<
        Object,
        EvalError,
    >)
        ensures
            outcome(result, final(self)@) == eval_block_statement_spec(
                nodes_view(statements@),
                0,
                ObjectView::Null,
                old(self)@,
                depth as nat,
            ),
        decreases depth, statements, statements.len() + 1,
    {
        self.eval_block_statement(statements, depth)
    }

    /// Evaluates the statements of a block in order. A return signal stops
    /// the evaluation and is handed on as it is.
    fn eval_block_statement(&mut self, statements: &Vec<AstNode>, depth: usize) -> (result:
        Result<Object, EvalError>)
        ensures
            outcome(result, final(self)@) == eval_block_statement_spec(
                nodes_view(statements@),
                0,
                ObjectView::Null,
                old(self)@,
                depth as nat,
            ),
        decreases depth, statements, statements.len(),
    {
        let mut result = Object::Null;
        let mut i: usize = 0;
        while i < statements.len()
            invariant
                i <= statements.len(),
                eval_block_statement_spec(
                    nodes_view(statements@),
                    i as nat,
                    result@,
                    self@,
                    depth as nat,
                ) == eval_block_statement_spec(
                    nodes_view(statements@),
                    0,
                    ObjectView::Null,
                    old(self)@,
                    depth as nat,
                ),
            decreases statements.len() - i,
        {
            assert(nodes_view(statements@)[i as int] == statements[i as int]@);
            result = self.eval_node(&statements[i], depth)?;
            if let Object::Return(_) = result {
                return Ok(result);
            }
            i += 1;
        }
        Ok(result)
    }

    /// Evaluates a statement.
    fn eval_statement(&mut self, statement: &Statement, depth: usize) -> (result: Result<
        Object,
        EvalError,
    >)
        ensures
            outcome(result, final(self)@) == eval_statement_spec(
                statement@,
                old(self)@,
                depth as nat,
            ),
        decreases depth, statement, 0nat,
    {
        match statement {
            Statement::ReturnStatement(value) => {
                let object = self.eval_expression(value, depth)?;
                Ok(Object::Return(Box::new(object)))
            },
            Statement::LetStatement { name, value } => {
                let target = match &**name {
                    Expression::Identifier(target) => target.clone(),
                    _ => {
                        return Err(EvalError::InvalidLetTarget);
                    },
                };
                let object = self.eval_expression(value, depth)?;
                self.context.insert(target, object.duplicate());
                Ok(object)
            },
        }
    }

    /// Evaluates the expressions of a list from left to right.
    fn eval_expressions(&mut self, expressions: &Vec<Expression>, depth: usize) -> (result:
        Result<Vec<Object>, EvalError>)
        ensures
            (Evaluated {
                result: match result {
                    Ok(values) => Ok::<Seq<ObjectView>, EvalError>(objects_view(values@)),
                    Err(error) => Err::<Seq<ObjectView>, EvalError>(error),
                },
                env: final(self)@,
            }) == eval_expressions_spec(
                expressions_view(expressions@),
                0,
                Seq::empty(),
                old(self)@,
                depth as nat,
            ),
        decreases depth, expressions, expressions.len(),
    {
        let mut values: Vec<Object> = Vec::new();
        let mut i: usize = 0;
        assert(objects_view(values@) =~= Seq::<ObjectView>::empty());
        while i < expressions.len()
            invariant
                i <= expressions.len(),
                eval_expressions_spec(
                    expressions_view(expressions@),
                    i as nat,
                    objects_view(values@),
                    self@,
                    depth as nat,
                ) == eval_expressions_spec(
                    expressions_view(expressions@),
                    0,
                    Seq::empty(),
                    old(self)@,
                    depth as nat,
                ),
            decreases expressions.len() - i,
        {
            assert(expressions_view(expressions@)[i as int] == expressions[i as int]@);
            let value = self.eval_expression(&expressions[i], depth)?;
            proof {
                lemma_objects_view_push(values@, value);
            }
            values.push(value);
            i += 1;
        }
        Ok(values)
    }

    /// What `name` stands for: a built-in function, or the value bound to
    /// the name in the environment.
    fn eval_identifier(&self, name: &String) -> (result: Result<Object, EvalError>)
        ensures
            result_view(result) == eval_identifier_spec(name@, self@),
    {
        if let Some(function) = lookup_builtin(name.as_str()) {
            return Ok(Object::Builtin(function));
        }
        match self.context.get(name) {
            Some(object) => Ok(object.duplicate()),
            None => Err(EvalError::UnboundIdentifier),
        }
    }

    /// Calls a function: evaluates the arguments, binds them to the
    /// parameters in the function's scope, runs the body in that scope, and
    /// puts the caller's environment back in place.
    fn eval_function_call(
        &mut self,
        parameters: &Vec<Token>,
        arguments: &Vec<Expression>,
        body: &BlockStatement,
        scope: Environment,
        depth: usize,
    ) -> (result: Result<Object, EvalError>)
        ensures
            outcome(result, final(self)@) == eval_function_call_spec(
                tokens_view(parameters@),
                expressions_view(arguments@),
                body@,
                scope@,
                old(self)@,
                depth as nat,
            ),
        decreases depth, arguments, arguments.len() + 1,
    {
        let values = self.eval_expressions(arguments, depth)?;
        let mut scope = bind_parameters(parameters, &values, scope)?;
        if depth == 0 {
            return Err(EvalError::CallDepthExceeded);
        }
        core::mem::swap(&mut self.context, &mut scope);
        let result = self.eval_block_statement(&body.statements, depth - 1);
        core::mem::swap(&mut self.context, &mut scope);
        match result {
            Ok(value) => Ok(unwrap_return(value)),
            Err(error) => Err(error),
        }
    }

    /// Evaluates an expression.
    fn eval_expression(&mut self, expression: &Expression, depth: usize) -> (result: Result<
        Object,
        EvalError,
    >)
        ensures
            outcome(result, final(self)@) == eval_expression_spec(
                expression@,
                old(self)@,
                depth as nat,
            ),
        decreases depth, expression, 0nat,
    {
        match expression {
            Expression::Array(elements) => {
                let values = self.eval_expressions(elements, depth)?;
                Ok(Object::Array(values))
            },
            Expression::Int(value) => Ok(Object::Integer(*value)),
            Expression::Boolean(value) => Ok(Object::Boolean(*value)),
            Expression::String(text) => Ok(Object::String(text.clone())),
            Expression::Prefix { operator, right } => {
                let operand = self.eval_expression(right, depth)?;
                eval_prefix_expression(operator, operand)
            },
            Expression::Infix { operator, left, right } => {
                let left_value = self.eval_expression(left, depth)?;
                let right_value = self.eval_expression(right, depth)?;
                eval_infix_expression(left_value, right_value, operator)
            },
            Expression::IfExpression { condition, consequence, alternative } => {
                let test = self.eval_expression(condition, depth)?;
                if test.is_truthy() {
                    return self.eval_block_statement(&consequence.statements, depth);
                }
                if let Some(block) = alternative {
                    return self.eval_block_statement(&block.statements, depth);
                }
                Ok(Object::Null)
            },
            Expression::Identifier(name) => self.eval_identifier(name),
            Expression::FunctionExpression { parameters, body } => {
                let scope = Environment::new();
                Ok(
                    Object::Function {
                        parameters: duplicate_tokens(parameters),
                        body: Box::new(body.duplicate()),
                        scope,
                    },
                )
            },
            Expression::CallExpression { function, arguments } => {
                let callee = self.eval_expression(function, depth)?;
                match callee {
                    Object::Builtin(builtin) => {
                        let values = self.eval_expressions(arguments, depth)?;
                        apply_builtin(builtin, &values)
                    },
                    Object::Function { parameters, body, scope } => self.eval_function_call(
                        &parameters,
                        arguments,
                        &body,
                        scope,
                        depth,
                    ),
                    _ => Err(EvalError::NotCallable),
                }
            },
        }
    }
}

/// Binds each parameter, in order, to the argument in the same place, on
/// top of `scope`.
pub fn bind_parameters(parameters: &Vec<Token>, arguments: &Vec<Object>, scope: Environment) -> (result:
    Result<Environment, EvalError>)
    ensures
        match result {
            Ok(bound) => bind_parameters_spec(
                tokens_view(parameters@),
                objects_view(arguments@),
                scope@,
                parameters@.len(),
            ) == Ok::<Map<Seq<char>, ObjectView>, EvalError>(bound@),
            Err(error) => bind_parameters_spec(
                tokens_view(parameters@),
                objects_view(arguments@),
                scope@,
                parameters@.len(),
            ) == Err::<Map<Seq<char>, ObjectView>, EvalError>(error),
        },
{
    let mut bound = scope;
    let mut i: usize = 0;
    while i < parameters.len()
        invariant
            i <= parameters.len(),
            bind_parameters_spec(
                tokens_view(parameters@),
                objects_view(arguments@),
                scope@,
                i as nat,
            ) == Ok::<Map<Seq<char>, ObjectView>, EvalError>(bound@),
        decreases parameters.len() - i,
    {
        assert(tokens_view(parameters@)[i as int] == parameters[i as int]@);
        match &parameters[i] {
            Token::Identifier(name) => {
                if i < arguments.len() {
                    assert(objects_view(arguments@)[i as int] == arguments[i as int]@);
                    bound.insert(name.clone(), arguments[i].duplicate());
                } else {
                    proof {
                        lemma_bind_parameters_error(
                            tokens_view(parameters@),
                            objects_view(arguments@),
                            scope@,
                            (i + 1) as nat,
                            parameters@.len(),
                        );
                    }
                    return Err(EvalError::MissingArgument);
                }
            },
            _ => {
                proof {
                    lemma_bind_parameters_error(
                        tokens_view(parameters@),
                        objects_view(arguments@),
                        scope@,
                        (i + 1) as nat,
                        parameters@.len(),
                    );
                }
                return Err(EvalError::InvalidParameter);
            },
        }
        i += 1;
    }
    Ok(bound)
}

/// Once binding fails at some parameter, it fails in the same way however
/// many parameters follow.
pub proof fn lemma_bind_parameters_error(
    parameters: Seq<TokenView>,
    arguments: Seq<ObjectView>,
    scope: Map<Seq<char>, ObjectView>,
    count: nat,
    more: nat,
)
    requires
        count <= more <= parameters.len(),
        bind_parameters_spec(parameters, arguments, scope, count) is Err,
    ensures
        bind_parameters_spec(parameters, arguments, scope, more) == bind_parameters_spec(
            parameters,
            arguments,
            scope,
            count,
        ),
    decreases more - count,
{
    if count < more {
        lemma_bind_parameters_error(parameters, arguments, scope, count, (more - 1) as nat);
    }
}

/// Applies `!` to `right`.
pub fn eval_bang_expression(right: Object) -> (result: Object)
    ensures
        result@ == eval_bang_spec(right@),
{
    match right {
        Object::Boolean(value) => Object::Boolean(!value),
        Object::Null => Object::Boolean(true),
        _ => Object::Null,
    }
}

/// Applies unary `-` to `right`.
pub fn eval_minus_prefix_expression(right: Object) -> (result: Result<Object, EvalError>)
    ensures
        result_view(result) == eval_minus_prefix_spec(right@),
{
    match right {
        Object::Integer(value) => integer_or_overflow(0i32.checked_sub(value)),
        _ => Ok(Object::Null),
    }
}

/// Applies the unary operator `operator` to `right`.
pub fn eval_prefix_expression(operator: &Token, right: Object) -> (result: Result<
    Object,
    EvalError,
>)
    ensures
        result_view(result) == eval_prefix_spec(operator@, right@),
{
    match operator {
        Token::Bang => Ok(eval_bang_expression(right)),
        Token::Minus => eval_minus_prefix_expression(right),
        _ => Ok(Object::Null),
    }
}

/// Applies the binary operator `operator` to `left` and `right`.
pub fn eval_infix_expression(left: Object, right: Object, operator: &Token) -> (result: Result<
    Object,
    EvalError,
>)
    ensures
        result_view(result) == eval_infix_spec(left@, right@, operator@),
{
    let left_int = match left {
        Object::Integer(value) => value,
        _ => {
            return Ok(Object::Null);
        },
    };
    let right_int = match right {
        Object::Integer(value) => value,
        _ => {
            return Ok(Object::Null);
        },
    };
    match operator {
        Token::Plus => integer_or_overflow(left_int.checked_add(right_int)),
        Token::Minus => integer_or_overflow(left_int.checked_sub(right_int)),
        Token::Asterisk => integer_or_overflow(left_int.checked_mul(right_int)),
        Token::Slash => {
            if right_int == 0 {
                Err(EvalError::DivisionByZero)
            } else {
                integer_or_overflow(left_int.checked_div(right_int))
            }
        },
        Token::Equals => Ok(Object::Boolean(left_int == right_int)),
        Token::NotEquals => Ok(Object::Boolean(left_int != right_int)),
        Token::LessThan => Ok(Object::Boolean(left_int < right_int)),
        Token::GreaterThan => Ok(Object::Boolean(left_int > right_int)),
        _ => Ok(Object::Null),
    }
}

impl Clone for Object {
    fn clone(&self) -> (copy: Object)
        ensures
            copy@ == self@,
    {
        self.duplicate()
    }
}

impl Clone for Environment {
    fn clone(&self) -> (copy: Environment)
        ensures
            copy@ == self@,
    {
        self.duplicate()
    }
}

} // verus!
