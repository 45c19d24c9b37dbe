use vstd::prelude::*;

use crate::lexer::token::Token;

use super::tree::{
    Binary, ExpressionNode, Literal, Statement, StatementNode, Unary, VariableDefinition,
};

verus! {

/// Builds a list of statements, appending nodes to the last one.
pub struct StatementListBuilder {
    pub statements: Vec<Statement>,
}

impl Default for StatementListBuilder {
    fn default() -> (r: Self)
        ensures
            r.statements@ == Seq::<Statement>::empty(),
    {
        Self::new()
    }
}

impl StatementListBuilder {
    /// The arena of the statement under construction.
    pub open spec fn current(&self) -> Seq<StatementNode> {
        self.statements@.last().tree@
    }

    /// `self` is `old` with `node` appended to the last statement's arena.
    pub open spec fn appended(&self, old: &Self, node: StatementNode) -> bool {
        &&& self.statements@.len() == old.statements@.len()
        &&& self.statements@.drop_last() == old.statements@.drop_last()
        &&& self.current() == old.current().push(node)
        &&& self.statements@.last().root_index == old.statements@.last().root_index
    }

    pub fn new() -> (r: Self)
        ensures
            r.statements@ == Seq::<Statement>::empty(),
    {
        StatementListBuilder { statements: Vec::new() }
    }

    /// Opens a new, empty statement.
    pub fn start_statement(&mut self)
        ensures
            final(self).statements@.len() == old(self).statements@.len() + 1,
            final(self).statements@.drop_last() == old(self).statements@,
            final(self).current() == Seq::<StatementNode>::empty(),
            final(self).statements@.last().root_index == 0,
    {
        self.statements.push(Statement::new());
        assert(self.statements@.drop_last() =~= old(self).statements@);
    }

    /// Records the root of the statement under construction.
    pub fn end_statement(&mut self, root_index: usize)
        requires
            old(self).statements@.len() > 0,
        ensures
            final(self).statements@.len() == old(self).statements@.len(),
            final(self).statements@.drop_last() == old(self).statements@.drop_last(),
            final(self).current() == old(self).current(),
            final(self).statements@.last().root_index == root_index,
    {
        let mut current = self.statements.pop().unwrap();
        current.root_index = root_index;
        self.statements.push(current);
        assert(self.statements@.drop_last() =~= old(self).statements@.drop_last());
    }

    pub fn add_variable_definition(&mut self, identifier: Token, expression: usize) -> (r: usize)
        requires
            old(self).statements@.len() > 0,
        ensures
            final(self).appended(
                old(self),
                StatementNode::VariableDefinition(VariableDefinition { identifier, expression }),
            ),
            r == old(self).current().len(),
    {
        let variable_definition = VariableDefinition { identifier, expression };
        let statement_node = StatementNode::VariableDefinition(variable_definition);
        self.add_node(statement_node)
    }

    pub fn add_print_statement(&mut self, expression: usize) -> (r: usize)
        requires
            old(self).statements@.len() > 0,
        ensures
            final(self).appended(old(self), StatementNode::Print(expression)),
            r == old(self).current().len(),
    {
        let statement_node = StatementNode::Print(expression);
        self.add_node(statement_node)
    }

    pub fn add_binary(&mut self, left: usize, operator: Token, right: usize) -> (r: usize)
        requires
            old(self).statements@.len() > 0,
        ensures
            final(self).appended(
                old(self),
                StatementNode::Expression(ExpressionNode::Binary(Binary { left, operator, right })),
            ),
            r == old(self).current().len(),
    {
        let binary = Binary { left, operator, right };
        let expression_node = ExpressionNode::Binary(binary);
        let node = StatementNode::Expression(expression_node);
        self.add_node(node)
    }

    pub fn add_unary(&mut self, operator: Token, right: usize) -> (r: usize)
        requires
            old(self).statements@.len() > 0,
        ensures
            final(self).appended(
                old(self),
                StatementNode::Expression(ExpressionNode::Unary(Unary { operator, right })),
            ),
            r == old(self).current().len(),
    {
        let unary = Unary { operator, right };
        let expression_node = ExpressionNode::Unary(unary);
        let node = StatementNode::Expression(expression_node);
        self.add_node(node)
    }

    pub fn add_literal(&mut self, token: Token) -> (r: usize)
        requires
            old(self).statements@.len() > 0,
        ensures
            final(self).appended(
                old(self),
                StatementNode::Expression(ExpressionNode::Literal(Literal { token })),
            ),
            r == old(self).current().len(),
    {
        let literal = Literal { token };
        let expression_node = ExpressionNode::Literal(literal);
        let node = StatementNode::Expression(expression_node);
        self.add_node(node)
    }

    pub fn add_variable(&mut self, token: Token) -> (r: usize)
        requires
            old(self).statements@.len() > 0,
        ensures
            final(self).appended(
                old(self),
                StatementNode::Expression(ExpressionNode::Variable(token)),
            ),
            r == old(self).current().len(),
    {
        let expression_node = ExpressionNode::Variable(token);
        let node = StatementNode::Expression(expression_node);
        self.add_node(node)
    }

    pub fn add_grouping(&mut self, index: usize) -> (r: usize)
        requires
            old(self).statements@.len() > 0,
        ensures
            final(self).appended(
                old(self),
                StatementNode::Expression(ExpressionNode::Grouping(index)),
            ),
            r == old(self).current().len(),
    {
        let grouping_node = ExpressionNode::Grouping(index);
        let node = StatementNode::Expression(grouping_node);
        self.add_node(node)
    }

    fn add_node(&mut self, node: StatementNode) -> (r: usize)
        requires
            old(self).statements@.len() > 0,
        ensures
            final(self).appended(old(self), node),
            r == old(self).current().len(),
    {
        let mut current = self.statements.pop().unwrap();
        let index = current.tree.len();
        current.tree.push(node);
        self.statements.push(current);
        assert(self.statements@.drop_last() =~= old(self).statements@.drop_last());
        index
    }
}

} // verus!
