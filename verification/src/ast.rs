//! The abstract syntax tree that the parser builds and the evaluator walks.
//!
//! Each tree type has a mathematical model, its view, in which text is a
//! sequence of characters, a list is a sequence and an integer is unbounded.
//! Contracts elsewhere in the library speak of trees through these views.

use vstd::prelude::*;

use crate::token::{Token, TokenView};

verus! {

/// An expression of the language.
#[derive(Debug, PartialEq, Eq)]
pub enum Expression {
    Int(i32),
    Identifier(String),
    Boolean(bool),
    String(String),
    Array(Vec<Expression>),
    Prefix { operator: Token, right: Box<Expression> },
    Infix { operator: Token, left: Box<Expression>, right: Box<Expression> },
    IfExpression {
        condition: Box<Expression>,
        consequence: Box<BlockStatement>,
        alternative: Option<BlockStatement>,
    },
    FunctionExpression { parameters: Vec<Token>, body: Box<BlockStatement> },
    CallExpression { function: Box<Expression>, arguments: Vec<Expression> },
}

/// The statements between a pair of braces, in order.
#[derive(Debug, PartialEq, Eq)]
pub struct BlockStatement {
    pub statements: Vec<AstNode>,
}

/// A statement of the language.
#[derive(Debug, PartialEq, Eq)]
pub enum Statement {
    ReturnStatement(Box<Expression>),
    LetStatement { name: Box<Expression>, value: Box<Expression> },
}

/// What the evaluator consumes: a statement, an expression, or a whole program.
#[derive(Debug, PartialEq, Eq)]
pub enum AstNode {
    Statement(Box<Statement>),
    Expression(Box<Expression>),
    Program { statements: Vec<AstNode> },
}

/// The model of an [`Expression`].
pub ghost enum ExpressionView {
    Int(int),
    Identifier(Seq<char>),
    Boolean(bool),
    String(Seq<char>),
    Array(Seq<ExpressionView>),
    Prefix { operator: TokenView, right: Box<ExpressionView> },
    Infix { operator: TokenView, left: Box<ExpressionView>, right: Box<ExpressionView> },
    IfExpression {
        condition: Box<ExpressionView>,
        consequence: Seq<AstNodeView>,
        alternative: Option<Seq<AstNodeView>>,
    },
    FunctionExpression { parameters: Seq<TokenView>, body: Seq<AstNodeView> },
    CallExpression { function: Box<ExpressionView>, arguments: Seq<ExpressionView> },
}

/// The model of a [`Statement`].
pub ghost enum StatementView {
    ReturnStatement(ExpressionView),
    LetStatement { name: ExpressionView, value: ExpressionView },
}

/// The model of an [`AstNode`]. A block is modelled as the sequence of the
/// models of its statements.
pub ghost enum AstNodeView {
    Statement(StatementView),
    Expression(ExpressionView),
    Program { statements: Seq<AstNodeView> },
}

/// The models of a list of tokens, in order.
pub open spec fn tokens_view(tokens: Seq<Token>) -> Seq<TokenView> {
    tokens.map_values(|t: Token| t@)
}

/// The model of an expression.
pub open spec fn expression_view(e: Expression) -> ExpressionView
    decreases e,
{
    match e {
        Expression::Int(value) => ExpressionView::Int(value as int),
        Expression::Identifier(name) => ExpressionView::Identifier(name@),
        Expression::Boolean(value) => ExpressionView::Boolean(value),
        Expression::String(text) => ExpressionView::String(text@),
        Expression::Array(items) => ExpressionView::Array(expressions_view(items@)),
        Expression::Prefix { operator, right } => ExpressionView::Prefix {
            operator: operator@,
            right: Box::new(expression_view(*right)),
        },
        Expression::Infix { operator, left, right } => ExpressionView::Infix {
            operator: operator@,
            left: Box::new(expression_view(*left)),
            right: Box::new(expression_view(*right)),
        },
        Expression::IfExpression { condition, consequence, alternative } => {
            ExpressionView::IfExpression {
                condition: Box::new(expression_view(*condition)),
                consequence: nodes_view(consequence.statements@),
                alternative: match alternative {
                    Some(block) => Some(nodes_view(block.statements@)),
                    None => None,
                },
            }
        },
        Expression::FunctionExpression { parameters, body } => ExpressionView::FunctionExpression {
            parameters: tokens_view(parameters@),
            body: nodes_view(body.statements@),
        },
        Expression::CallExpression { function, arguments } => ExpressionView::CallExpression {
            function: Box::new(expression_view(*function)),
            arguments: expressions_view(arguments@),
        },
    }
}

/// The models of a list of expressions, in order.
pub open spec fn expressions_view(items: Seq<Expression>) -> Seq<ExpressionView>
    decreases items,
{
    Seq::new(
        items.len(),
        |i: int|
            if 0 <= i < items.len() {
                expression_view(items[i])
            } else {
                ExpressionView::Boolean(false)
            },
    )
}

/// The model of a statement.
pub open spec fn statement_view(s: Statement) -> StatementView
    decreases s,
{
    match s {
        Statement::ReturnStatement(value) => StatementView::ReturnStatement(
            expression_view(*value),
        ),
        Statement::LetStatement { name, value } => StatementView::LetStatement {
            name: expression_view(*name),
            value: expression_view(*value),
        },
    }
}

/// The model of a node.
pub open spec fn node_view(n: AstNode) -> AstNodeView
    decreases n,
{
    match n {
        AstNode::Statement(statement) => AstNodeView::Statement(statement_view(*statement)),
        AstNode::Expression(expression) => AstNodeView::Expression(expression_view(*expression)),
        AstNode::Program { statements } => AstNodeView::Program {
            statements: nodes_view(statements@),
        },
    }
}

/// The models of a list of nodes, in order.
pub open spec fn nodes_view(items: Seq<AstNode>) -> Seq<AstNodeView>
    decreases items,
{
    Seq::new(
        items.len(),
        |i: int|
            if 0 <= i < items.len() {
                node_view(items[i])
            } else {
                AstNodeView::Expression(ExpressionView::Boolean(false))
            },
    )
}

impl View for Expression {
    type V = ExpressionView;

    open spec fn view(&self) -> ExpressionView {
        expression_view(*self)
    }
}

impl View for Statement {
    type V = StatementView;

    open spec fn view(&self) -> StatementView {
        statement_view(*self)
    }
}

impl View for AstNode {
    type V = AstNodeView;

    open spec fn view(&self) -> AstNodeView {
        node_view(*self)
    }
}

impl View for BlockStatement {
    type V = Seq<AstNodeView>;

    open spec fn view(&self) -> Seq<AstNodeView> {
        nodes_view(self.statements@)
    }
}

/// Appending one item to a list appends its model to the models.
pub proof fn lemma_expressions_view_push(items: Seq<Expression>, item: Expression)
    ensures
        expressions_view(items.push(item)) == expressions_view(items).push(item@),
{
    assert(expressions_view(items.push(item)) =~= expressions_view(items).push(item@));
}

/// Appending one node to a list appends its model to the models.
pub proof fn lemma_nodes_view_push(items: Seq<AstNode>, item: AstNode)
    ensures
        nodes_view(items.push(item)) == nodes_view(items).push(item@),
{
    assert(nodes_view(items.push(item)) =~= nodes_view(items).push(item@));
}

/// Appending one token to a list appends its model to the models.
pub proof fn lemma_tokens_view_push(items: Seq<Token>, item: Token)
    ensures
        tokens_view(items.push(item)) == tokens_view(items).push(item@),
{
    assert(tokens_view(items.push(item)) =~= tokens_view(items).push(item@));
}

/// A copy of a list of tokens.
pub fn duplicate_tokens(tokens: &Vec<Token>) -> (copy: Vec<Token>)
    ensures
        tokens_view(copy@) == tokens_view(tokens@),
{
    let mut copy: Vec<Token> = Vec::new();
    let mut i: usize = 0;
    while i < tokens.len()
        invariant
            i <= tokens.len(),
            tokens_view(copy@) == tokens_view(tokens@.take(i as int)),
        decreases tokens.len() - i,
    {
        proof {
            lemma_tokens_view_push(copy@, tokens[i as int]);
            assert(tokens@.take(i + 1) =~= tokens@.take(i as int).push(tokens[i as int]));
            lemma_tokens_view_push(tokens@.take(i as int), tokens[i as int]);
        }
        let token = tokens[i].duplicate();
        proof {
            lemma_tokens_view_push(copy@, token);
        }
        copy.push(token);
        i += 1;
    }
    assert(tokens@.take(tokens.len() as int) =~= tokens@);
    copy
}

impl Expression {
    /// A copy of this expression, with the same model.
    pub fn duplicate(&self) -> (copy: Expression)
        ensures
            copy@ == self@,
        decreases self,
    {
        match self {
            Expression::Int(value) => Expression::Int(*value),
            Expression::Identifier(name) => Expression::Identifier(name.clone()),
            Expression::Boolean(value) => Expression::Boolean(*value),
            Expression::String(text) => Expression::String(text.clone()),
            Expression::Array(items) => Expression::Array(duplicate_expressions(items)),
            Expression::Prefix { operator, right } => Expression::Prefix {
                operator: operator.duplicate(),
                right: Box::new(right.duplicate()),
            },
            Expression::Infix { operator, left, right } => Expression::Infix {
                operator: operator.duplicate(),
                left: Box::new(left.duplicate()),
                right: Box::new(right.duplicate()),
            },
            Expression::IfExpression { condition, consequence, alternative } => {
                Expression::IfExpression {
                    condition: Box::new(condition.duplicate()),
                    consequence: Box::new(consequence.duplicate()),
                    alternative: match alternative {
                        Some(block) => Some(block.duplicate()),
                        None => None,
                    },
                }
            },
            Expression::FunctionExpression { parameters, body } => Expression::FunctionExpression {
                parameters: duplicate_tokens(parameters),
                body: Box::new(body.duplicate()),
            },
            Expression::CallExpression { function, arguments } => Expression::CallExpression {
                function: Box::new(function.duplicate()),
                arguments: duplicate_expressions(arguments),
            },
        }
    }
}

/// A copy of a list of expressions.
pub fn duplicate_expressions(items: &Vec<Expression>) -> (copy: Vec<Expression>)
    ensures
        expressions_view(copy@) == expressions_view(items@),
    decreases items,
{
    let mut copy: Vec<Expression> = Vec::new();
    let mut i: usize = 0;
    while i < items.len()
        invariant
            i <= items.len(),
            expressions_view(copy@) == expressions_view(items@.take(i as int)),
        decreases items.len() - i,
    {
        proof {
            assert(items@.take(i + 1) =~= items@.take(i as int).push(items[i as int]));
            lemma_expressions_view_push(items@.take(i as int), items[i as int]);
        }
        let item = items[i].duplicate();
        proof {
            lemma_expressions_view_push(copy@, item);
        }
        copy.push(item);
        i += 1;
    }
    assert(items@.take(items.len() as int) =~= items@);
    copy
}

impl Statement {
    /// A copy of this statement, with the same model.
    pub fn duplicate(&self) -> (copy: Statement)
        ensures
            copy@ == self@,
        decreases self,
    {
        match self {
            Statement::ReturnStatement(value) => Statement::ReturnStatement(
                Box::new(value.duplicate()),
            ),
            Statement::LetStatement { name, value } => Statement::LetStatement {
                name: Box::new(name.duplicate()),
                value: Box::new(value.duplicate()),
            },
        }
    }
}

impl AstNode {
    /// A copy of this node, with the same model.
    pub fn duplicate(&self) -> (copy: AstNode)
        ensures
            copy@ == self@,
        decreases self,
    {
        match self {
            AstNode::Statement(statement) => AstNode::Statement(Box::new(statement.duplicate())),
            AstNode::Expression(expression) => AstNode::Expression(
                Box::new(expression.duplicate()),
            ),
            AstNode::Program { statements } => AstNode::Program {
                statements: duplicate_nodes(statements),
            },
        }
    }
}

/// A copy of a list of nodes.
pub fn duplicate_nodes(items: &Vec<AstNode>) -> (copy: Vec<AstNode>)
    ensures
        nodes_view(copy@) == nodes_view(items@),
    decreases items,
{
    let mut copy: Vec<AstNode> = Vec::new();
    let mut i: usize = 0;
    while i < items.len()
        invariant
            i <= items.len(),
            nodes_view(copy@) == nodes_view(items@.take(i as int)),
        decreases items.len() - i,
    {
        proof {
            assert(items@.take(i + 1) =~= items@.take(i as int).push(items[i as int]));
            lemma_nodes_view_push(items@.take(i as int), items[i as int]);
        }
        let item = items[i].duplicate();
        proof {
            lemma_nodes_view_push(copy@, item);
        }
        copy.push(item);
        i += 1;
    }
    assert(items@.take(items.len() as int) =~= items@);
    copy
}

impl BlockStatement {
    /// A copy of this block, with the same model.
    pub fn duplicate(&self) -> (copy: BlockStatement)
        ensures
            copy@ == self@,
        decreases self,
    {
        BlockStatement { statements: duplicate_nodes(&self.statements) }
    }
}

impl Clone for Expression {
    fn clone(&self) -> (copy: Expression)
        ensures
            copy@ == self@,
    {
        self.duplicate()
    }
}

impl Clone for Statement {
    fn clone(&self) -> (copy: Statement)
        ensures
            copy@ == self@,
    {
        self.duplicate()
    }
}

impl Clone for AstNode {
    fn clone(&self) -> (copy: AstNode)
        ensures
            copy@ == self@,
    {
        self.duplicate()
    }
}

impl Clone for BlockStatement {
    fn clone(&self) -> (copy: BlockStatement)
        ensures
            copy@ == self@,
    {
        self.duplicate()
    }
}

} // verus!
