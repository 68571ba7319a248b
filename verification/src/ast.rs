//! The abstract syntax tree.

use vstd::prelude::*;

verus! {

/// The operators that take one operand.
#[derive(Clone, Copy, Debug, PartialEq, Eq)]
pub enum UnaryOperator {
    /// `-`
    Negation,
    /// `~`
    Complement,
    /// `!`
    LogicalNeg,
}

/// The operators that take two operands. `Multiply` and `Divide` are
/// reserved: the builder folds additive operators only.
#[derive(Clone, Copy, Debug, PartialEq, Eq)]
pub enum BinaryOperator {
    Add,
    Subtract,
    Multiply,
    Divide,
}

/// A node of the abstract syntax tree. Each node owns its children.
#[allow(inconsistent_fields)]
#[derive(Debug, PartialEq, Eq)]
pub enum ASTNode {
    /// An integer literal.
    Integer(i16),
    /// `return <expression>;`
    ReturnStatement(Box<ASTNode>),
    /// Either a literal, or a unary operator applied to an expression.
    Factor {
        literal: Option<Box<ASTNode>>,
        operator: Option<UnaryOperator>,
        expression: Option<Box<ASTNode>>,
    },
    /// A factor. `operator` and `rhs` are reserved for multiplicative
    /// operators and always absent.
    Term { lhs: Box<ASTNode>, operator: Option<BinaryOperator>, rhs: Option<Box<ASTNode>> },
    /// `lhs operator rhs`, where `lhs` holds everything to the left: a chain
    /// of additive operators leans to the left.
    Expression { lhs: Box<ASTNode>, operator: Option<BinaryOperator>, rhs: Option<Box<ASTNode>> },
    /// A function, with its statements in source order.
    Function { return_type: String, identifier: String, statements: Vec<ASTNode> },
}

/// The mathematical model of an `ASTNode`.
#[allow(inconsistent_fields)]
pub enum Ast {
    Integer(i16),
    ReturnStatement(Box<Ast>),
    Factor {
        literal: Option<Box<Ast>>,
        operator: Option<UnaryOperator>,
        expression: Option<Box<Ast>>,
    },
    Term { lhs: Box<Ast>, operator: Option<BinaryOperator>, rhs: Option<Box<Ast>> },
    Expression { lhs: Box<Ast>, operator: Option<BinaryOperator>, rhs: Option<Box<Ast>> },
    Function { return_type: Seq<char>, identifier: Seq<char>, statements: Seq<Ast> },
}

/// The model of an optional child.
pub open spec fn ast_of_child(child: Option<Box<ASTNode>>) -> Option<Box<Ast>>
    decreases child, 0nat,
{
    match child {
        Some(node) => Some(Box::new(ast_of(*node))),
        None => None,
    }
}

/// The model of a node.
pub open spec fn ast_of(node: ASTNode) -> Ast
    decreases node, 1nat,
{
    match node {
        ASTNode::Integer(value) => Ast::Integer(value),
        ASTNode::ReturnStatement(expression) => Ast::ReturnStatement(Box::new(ast_of(*expression))),
        ASTNode::Factor { literal, operator, expression } => Ast::Factor {
            literal: ast_of_child(literal),
            operator,
            expression: ast_of_child(expression),
        },
        ASTNode::Term { lhs, operator, rhs } => Ast::Term {
            lhs: Box::new(ast_of(*lhs)),
            operator,
            rhs: ast_of_child(rhs),
        },
        ASTNode::Expression { lhs, operator, rhs } => Ast::Expression {
            lhs: Box::new(ast_of(*lhs)),
            operator,
            rhs: ast_of_child(rhs),
        },
        ASTNode::Function { return_type, identifier, statements } => Ast::Function {
            return_type: return_type@,
            identifier: identifier@,
            statements: Seq::new(
                statements.len() as nat,
                |i: int|
                    if 0 <= i < statements.len() {
                        ast_of(statements[i])
                    } else {
                        arbitrary()
                    },
            ),
        },
    }
}

impl View for ASTNode {
    type V = Ast;

    open spec fn view(&self) -> Ast {
        ast_of(*self)
    }
}

/// A copy of an optional child.
fn clone_child(child: &Option<Box<ASTNode>>) -> (res: Option<Box<ASTNode>>)
    ensures
        ast_of_child(res) == ast_of_child(*child),
    decreases child, 0nat,
{
    match child {
        Some(node) => Some(Box::new((&**node).clone())),
        None => None,
    }
}

impl Clone for ASTNode {
    /// A copy with the same model.
    fn clone(&self) -> (res: Self)
        ensures
            res@ == self@,
        decreases self, 1nat,
    {
        match self {
            ASTNode::Integer(value) => ASTNode::Integer(*value),
            ASTNode::ReturnStatement(expression) => ASTNode::ReturnStatement(
                Box::new((&**expression).clone()),
            ),
            ASTNode::Factor { literal, operator, expression } => ASTNode::Factor {
                literal: clone_child(literal),
                operator: *operator,
                expression: clone_child(expression),
            },
            ASTNode::Term { lhs, operator, rhs } => ASTNode::Term {
                lhs: Box::new((&**lhs).clone()),
                operator: *operator,
                rhs: clone_child(rhs),
            },
            ASTNode::Expression { lhs, operator, rhs } => ASTNode::Expression {
                lhs: Box::new((&**lhs).clone()),
                operator: *operator,
                rhs: clone_child(rhs),
            },
            ASTNode::Function { return_type, identifier, statements } => {
                let res = ASTNode::Function {
                    return_type: return_type.clone(),
                    identifier: identifier.clone(),
                    statements: clone_run(statements),
                };
                assert(res@->statements =~= self@->statements);
                res
            },
        }
    }
}

/// A copy of a run of nodes.
fn clone_run(nodes: &Vec<ASTNode>) -> (res: Vec<ASTNode>)
    ensures
        res.len() == nodes.len(),
        forall|j: int| 0 <= j < nodes.len() ==> res[j]@ == nodes[j]@,
    decreases nodes, 0nat,
{
    let mut copies: Vec<ASTNode> = Vec::new();
    let mut i: usize = 0;
    while i < nodes.len()
        invariant
            i <= nodes.len(),
            copies.len() == i,
            forall|j: int| 0 <= j < i ==> copies[j]@ == nodes[j]@,
        decreases nodes.len() - i,
    {
        copies.push(nodes[i].clone());
        i = i + 1;
    }
    copies
}

/// The models of a run of nodes.
pub open spec fn ast_seq(nodes: Seq<ASTNode>) -> Seq<Ast> {
    Seq::new(nodes.len(), |i: int| nodes[i]@)
}

impl Ast {
    /// The shape that every tree of the builder has. A factor holds exactly
    /// one of its two payloads: a literal, or an operator with its operand.
    /// A term holds a factor and nothing else. An expression has an operator
    /// exactly when it has a right-hand side.
    pub open spec fn well_formed(self) -> bool
        decreases self,
    {
        match self {
            Ast::Integer(_) => true,
            Ast::ReturnStatement(expression) => expression.well_formed(),
            Ast::Factor { literal, operator, expression } => match literal {
                Some(value) => *value is Integer && operator is None && expression is None,
                None => operator is Some && match expression {
                    Some(operand) => operand.well_formed(),
                    None => false,
                },
            },
            Ast::Term { lhs, operator, rhs } => {
                &&& *lhs is Factor
                &&& lhs.well_formed()
                &&& operator is None
                &&& rhs is None
            },
            Ast::Expression { lhs, operator, rhs } => {
                &&& lhs.well_formed()
                &&& (operator is Some <==> rhs is Some)
                &&& match rhs {
                    Some(operand) => operand.well_formed(),
                    None => true,
                }
            },
            Ast::Function { return_type, identifier, statements } => forall|i: int|
                0 <= i < statements.len() ==> (#[trigger] statements[i]) is ReturnStatement
                    && statements[i].well_formed(),
        }
    }
}

} // verus!
