use vstd::prelude::*;

use crate::lexer::token::Token;

verus! {

#[derive(Debug, Clone, Copy, PartialEq, Eq, Structural)]
pub struct Literal {
    pub token: Token,
}

#[derive(Debug, Clone, Copy, PartialEq, Eq, Structural)]
pub struct Binary {
    pub left: usize,
    pub operator: Token,
    pub right: usize,
}

#[derive(Debug, Clone, Copy, PartialEq, Eq, Structural)]
pub struct Unary {
    pub operator: Token,
    pub right: usize,
}

#[derive(Debug, Clone, Copy, PartialEq, Eq, Structural)]
pub struct VariableDefinition {
    pub identifier: Token,
    pub expression: usize,
}

#[derive(Debug, Clone, Copy, PartialEq, Eq, Structural)]
pub enum ExpressionNode {
    Unary(Unary),
    Binary(Binary),
    Literal(Literal),
    Grouping(usize),
    Variable(Token),
}

#[derive(Debug, Clone, Copy, PartialEq, Eq, Structural)]
pub enum StatementNode {
    Expression(ExpressionNode),
    VariableDefinition(VariableDefinition),
    Print(usize),
}

/// One statement: a flat arena of nodes, whose children are indices into the
/// same arena, and the index of the top-level node.
#[derive(Debug)]
pub struct Statement {
    pub tree: Vec<StatementNode>,
    pub root_index: usize,
}

/// The indices of the children of a node, left to right.
pub open spec fn children(node: StatementNode) -> Seq<int> {
    match node {
        StatementNode::Expression(ExpressionNode::Unary(u)) => seq![u.right as int],
        StatementNode::Expression(ExpressionNode::Binary(b)) => seq![b.left as int, b.right as int],
        StatementNode::Expression(ExpressionNode::Literal(_)) => seq![],
        StatementNode::Expression(ExpressionNode::Grouping(i)) => seq![i as int],
        StatementNode::Expression(ExpressionNode::Variable(_)) => seq![],
        StatementNode::VariableDefinition(d) => seq![d.expression as int],
        StatementNode::Print(i) => seq![i as int],
    }
}

/// Every node refers only to nodes that were emitted before it.
pub open spec fn arena_well_formed(nodes: Seq<StatementNode>) -> bool {
    forall|i: int, k: int|
        0 <= i < nodes.len() && 0 <= k < children(nodes[i]).len() ==> 0 <= #[trigger] children(
            nodes[i],
        )[k] < i
}

impl Statement {
    pub open spec fn view_pair(&self) -> (Seq<StatementNode>, int) {
        (self.tree@, self.root_index as int)
    }

    pub open spec fn well_formed(&self) -> bool {
        &&& arena_well_formed(self.tree@)
        &&& self.root_index < self.tree@.len()
    }

    pub fn new() -> (r: Self)
        ensures
            r.tree@ == Seq::<StatementNode>::empty(),
            r.root_index == 0,
    {
        Self { tree: Vec::new(), root_index: 0 }
    }
}

impl Default for Statement {
    fn default() -> (r: Self)
        ensures
            r.tree@ == Seq::<StatementNode>::empty(),
            r.root_index == 0,
    {
        Self::new()
    }
}

/// One handler for each kind of node. Each handler promises the predicate
/// of its kind, which relates the visitor before the call, the fields it was
/// handed, the result and the visitor after the call.
pub trait StatementVisitor<T>: Sized {
    spec fn literal_handled(&self, literal: Literal, r: T, after: Self) -> bool;

    spec fn binary_handled(&self, binary: Binary, r: T, after: Self) -> bool;

    spec fn grouping_handled(&self, index: usize, r: T, after: Self) -> bool;

    spec fn unary_handled(&self, unary: Unary, r: T, after: Self) -> bool;

    spec fn variable_handled(&self, variable: Token, r: T, after: Self) -> bool;

    spec fn definition_handled(&self, declaration: VariableDefinition, r: T, after: Self) -> bool;

    spec fn print_handled(&self, expression: usize, r: T, after: Self) -> bool;

    fn handle_literal_expression(&mut self, literal: &Literal) -> (r: T)
        ensures
            old(self).literal_handled(*literal, r, *final(self)),
    ;

    fn handle_binary_expression(&mut self, binary: &Binary) -> (r: T)
        ensures
            old(self).binary_handled(*binary, r, *final(self)),
    ;

    fn handle_grouping_expression(&mut self, index: usize) -> (r: T)
        ensures
            old(self).grouping_handled(index, r, *final(self)),
    ;

    fn handle_unary_expression(&mut self, unary: &Unary) -> (r: T)
        ensures
            old(self).unary_handled(*unary, r, *final(self)),
    ;

    fn handle_variable_expression(&mut self, variable: &Token) -> (r: T)
        ensures
            old(self).variable_handled(*variable, r, *final(self)),
    ;

    fn handle_variable_definition_statement(&mut self, declaration: &VariableDefinition) -> (r: T)
        ensures
            old(self).definition_handled(*declaration, r, *final(self)),
    ;

    fn handle_print_statement(&mut self, expression: usize) -> (r: T)
        ensures
            old(self).print_handled(expression, r, *final(self)),
    ;
}

impl StatementNode {
    /// Hands the node's fields to the visitor's handler for its kind and
    /// returns what that handler returns.
    pub fn visit<T, V: StatementVisitor<T>>(&self, visitor: &mut V) -> (r: T)
        ensures
            match *self {
                StatementNode::Expression(ExpressionNode::Unary(u)) => old(visitor).unary_handled(u, r, *final(visitor)),
                StatementNode::Expression(ExpressionNode::Literal(l)) => old(visitor).literal_handled(l, r, *final(visitor)),
                StatementNode::Expression(ExpressionNode::Grouping(i)) => old(visitor).grouping_handled(i, r, *final(visitor)),
                StatementNode::Expression(ExpressionNode::Binary(b)) => old(visitor).binary_handled(b, r, *final(visitor)),
                StatementNode::Expression(ExpressionNode::Variable(t)) => old(visitor).variable_handled(t, r, *final(visitor)),
                StatementNode::VariableDefinition(d) => old(visitor).definition_handled(d, r, *final(visitor)),
                StatementNode::Print(i) => old(visitor).print_handled(i, r, *final(visitor)),
            },
    {
        match self {
            StatementNode::Expression(node) => match node {
                ExpressionNode::Unary(expr) => visitor.handle_unary_expression(expr),
                ExpressionNode::Literal(expr) => visitor.handle_literal_expression(expr),
                ExpressionNode::Grouping(expr) => visitor.handle_grouping_expression(*expr),
                ExpressionNode::Binary(expr) => visitor.handle_binary_expression(expr),
                ExpressionNode::Variable(token) => visitor.handle_variable_expression(token),
            },
            StatementNode::VariableDefinition(definition) => {
                visitor.handle_variable_definition_statement(definition)
            },
            StatementNode::Print(expr) => visitor.handle_print_statement(*expr),
        }
    }
}

} // verus!
