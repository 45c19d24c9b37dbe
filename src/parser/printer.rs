use vstd::prelude::*;

use crate::error::Error;
use crate::lexer::lexeme;
use crate::lexer::token::Token;

use super::tree::{
    children, Binary, ExpressionNode, Literal, Statement, StatementNode, Unary, VariableDefinition,
};

verus! {

pub open spec fn token_text(src: Seq<char>, t: Token) -> Result<Seq<char>, Error> {
    if t.offset <= t.end && t.end <= src.len() {
        Ok(src.subrange(t.offset as int, t.end as int))
    } else {
        Err(Error::InternalError)
    }
}

/// The label that a node's rendering starts with: the operator, the
/// defined name, `group` or `print`; for a leaf, its whole text.
pub open spec fn node_label(node: StatementNode, src: Seq<char>) -> Result<Seq<char>, Error> {
    match node {
        StatementNode::Expression(ExpressionNode::Literal(l)) => token_text(src, l.token),
        StatementNode::Expression(ExpressionNode::Variable(t)) => token_text(src, t),
        StatementNode::Expression(ExpressionNode::Binary(b)) => token_text(src, b.operator),
        StatementNode::Expression(ExpressionNode::Unary(u)) => token_text(src, u.operator),
        StatementNode::Expression(ExpressionNode::Grouping(_)) => Ok(seq!['g', 'r', 'o', 'u', 'p']),
        StatementNode::VariableDefinition(d) => token_text(src, d.identifier),
        StatementNode::Print(_) => Ok(seq!['p', 'r', 'i', 'n', 't']),
    }
}

pub open spec fn is_leaf(node: StatementNode) -> bool {
    node matches StatementNode::Expression(ExpressionNode::Literal(_))
        || node matches StatementNode::Expression(ExpressionNode::Variable(_))
}

/// The prefix rendering of the node at `i`: a leaf is its text, any other
/// node is `(label child ...)`.
pub open spec fn render(nodes: Seq<StatementNode>, i: int, src: Seq<char>) -> Result<Seq<char>, Error>
    decreases i, 3int,
{
    if i < 0 || i >= nodes.len() {
        Err(Error::InternalError)
    } else if is_leaf(nodes[i]) {
        node_label(nodes[i], src)
    } else {
        match node_label(nodes[i], src) {
            Err(e) => Err(e),
            Ok(label) => match render_children(nodes, children(nodes[i]), i, src) {
                Err(e) => Err(e),
                Ok(rest) => Ok(seq!['('] + label + rest + seq![')']),
            },
        }
    }
}

/// Each child's rendering after a space, in order.
pub open spec fn render_children(
    nodes: Seq<StatementNode>,
    kids: Seq<int>,
    bound: int,
    src: Seq<char>,
) -> Result<Seq<char>, Error>
    decreases bound, kids.len(),
{
    if kids.len() == 0 {
        Ok(seq![])
    } else {
        match render_children(nodes, kids.drop_last(), bound, src) {
            Err(e) => Err(e),
            Ok(prefix) => {
                if 0 <= kids.last() < bound {
                    match render(nodes, kids.last(), src) {
                        Err(e) => Err(e),
                        Ok(t) => Ok(prefix + seq![' '] + t),
                    }
                } else {
                    Err(Error::InternalError)
                }
            },
        }
    }
}

proof fn lemma_children_fail(
    nodes: Seq<StatementNode>,
    kids: Seq<int>,
    k: int,
    bound: int,
    src: Seq<char>,
)
    requires
        0 <= k <= kids.len(),
        render_children(nodes, kids.subrange(0, k), bound, src) is Err,
    ensures
        render_children(nodes, kids, bound, src) == render_children(nodes, kids.subrange(0, k), bound, src),
    decreases kids.len() - k,
{
    if k < kids.len() {
        assert(kids.subrange(0, k + 1).drop_last() =~= kids.subrange(0, k));
        lemma_children_fail(nodes, kids, k + 1, bound, src);
    } else {
        assert(kids.subrange(0, k) =~= kids);
    }
}

/// Renders a statement's tree as nested prefix expressions.
struct DebugPrinter<'a> {
    tree: &'a Statement,
    source: &'a str,
}

impl<'a> DebugPrinter<'a> {
    spec fn nodes(&self) -> Seq<StatementNode> {
        self.tree.tree@
    }

    spec fn text(&self) -> Seq<char> {
        self.source@
    }

    fn debug_print(&self) -> (r: Result<String, Error>)
        ensures
            match render(self.nodes(), self.tree.root_index as int, self.text()) {
                Ok(s) => r matches Ok(t) && t@ == s,
                Err(e) => r == Err::<String, Error>(e),
            },
    {
        let mut out = String::new();
        match self.visit(self.tree.root_index, &mut out) {
            Ok(()) => Ok(out),
            Err(e) => Err(e),
        }
    }

    /// Appends the rendering of the node at `index` to `out`.
    fn visit(&self, index: usize, out: &mut String) -> (r: Result<(), Error>)
        ensures
            match render(self.nodes(), index as int, self.text()) {
                Ok(s) => r is Ok && final(out)@ == old(out)@ + s,
                Err(e) => r == Err::<(), Error>(e),
            },
        decreases index, 3int,
    {
        if index >= self.tree.tree.len() {
            return Err(Error::InternalError);
        }
        let node = self.tree.tree[index];
        match node {
            StatementNode::Expression(ExpressionNode::Literal(l)) => self.handle_literal_expression(&l, out),
            StatementNode::Expression(ExpressionNode::Variable(t)) => self.handle_variable_expression(&t, out),
            StatementNode::Expression(ExpressionNode::Binary(b)) => self.handle_binary_expression(index, &b, out),
            StatementNode::Expression(ExpressionNode::Unary(u)) => self.handle_unary_expression(index, &u, out),
            StatementNode::Expression(ExpressionNode::Grouping(j)) => self.handle_grouping_expression(index, j, out),
            StatementNode::VariableDefinition(d) => self.handle_variable_definition_statement(index, &d, out),
            StatementNode::Print(j) => self.handle_print_statement(index, j, out),
        }
    }

    /// Appends `(name`, each child after a space, and `)`.
    fn print_node(&self, index: usize, name: &str, expressions: &[usize], out: &mut String) -> (r: Result<(), Error>)
        requires
            index < self.nodes().len(),
            !is_leaf(self.nodes()[index as int]),
            node_label(self.nodes()[index as int], self.text()) == Ok::<Seq<char>, Error>(name@),
            expressions@.map_values(|k: usize| k as int) == children(self.nodes()[index as int]),
        ensures
            match render(self.nodes(), index as int, self.text()) {
                Ok(s) => r is Ok && final(out)@ == old(out)@ + s,
                Err(e) => r == Err::<(), Error>(e),
            },
        decreases index, 1int,
    {
        let ghost kids = children(self.nodes()[index as int]);
        let ghost start = out@;
        proof {
            reveal_strlit("(");
            reveal_strlit(" ");
            reveal_strlit(")");
            assert("("@ =~= seq!['(']);
            assert(" "@ =~= seq![' ']);
            assert(")"@ =~= seq![')']);
        }
        out.append("(");
        out.append(name);
        let mut k: usize = 0;
        while k < expressions.len()
            invariant
                k <= expressions@.len(),
                expressions@.map_values(|k: usize| k as int) == kids,
                kids == children(self.nodes()[index as int]),
                index < self.nodes().len(),
                !is_leaf(self.nodes()[index as int]),
                node_label(self.nodes()[index as int], self.text()) == Ok::<Seq<char>, Error>(name@),
                " "@ == seq![' '],
                render_children(self.nodes(), kids.subrange(0, k as int), index as int, self.text()) matches Ok(p)
                    && out@ == start + seq!['('] + name@ + p,
            decreases expressions@.len() - k,
        {
            let child = expressions[k];
            let ghost sub = kids.subrange(0, k + 1);
            proof {
                assert(sub.drop_last() =~= kids.subrange(0, k as int));
                assert(sub.last() == child as int);
            }
            if child >= index {
                proof {
                    assert(render_children(self.nodes(), sub, index as int, self.text()) is Err);
                    lemma_children_fail(self.nodes(), kids, k + 1, index as int, self.text());
                }
                return Err(Error::InternalError);
            }
            let ghost mid = out@;
            out.append(" ");
            assert(out@ == mid + seq![' ']);
            let ghost mid2 = out@;
            match self.visit(child, out) {
                Ok(()) => {},
                Err(e) => {
                    proof {
                        assert(render_children(self.nodes(), sub, index as int, self.text()) == Err::<Seq<char>, Error>(e));
                        lemma_children_fail(self.nodes(), kids, k + 1, index as int, self.text());
                    }
                    return Err(e);
                },
            }
            proof {
                let p = render_children(self.nodes(), kids.subrange(0, k as int), index as int, self.text())->Ok_0;
                let t = render(self.nodes(), child as int, self.text())->Ok_0;
                assert(mid == start + seq!['('] + name@ + p);
                assert(out@ == mid2 + t);
                assert(out@ =~= start + seq!['('] + name@ + (p + seq![' '] + t));
            }
            k += 1;
        }
        proof {
            assert(kids.subrange(0, kids.len() as int) =~= kids);
        }
        out.append(")");
        proof {
            let p = render_children(self.nodes(), kids, index as int, self.text())->Ok_0;
            assert(out@ =~= start + (seq!['('] + name@ + p + seq![')']));
        }
        Ok(())
    }

    /// The text of a token's span.
    fn get_token_value(&self, token: &Token) -> (r: Result<&'a str, Error>)
        ensures
            match token_text(self.text(), *token) {
                Ok(s) => r matches Ok(t) && t@ == s,
                Err(e) => r == Err::<&'a str, Error>(e),
            },
    {
        if token.offset <= token.end && token.end <= self.source.unicode_len() {
            Ok(lexeme(self.source, token))
        } else {
            Err(Error::InternalError)
        }
    }

    fn handle_literal_expression(&self, literal: &Literal, out: &mut String) -> (r: Result<(), Error>)
        ensures
            match token_text(self.text(), literal.token) {
                Ok(s) => r is Ok && final(out)@ == old(out)@ + s,
                Err(e) => r == Err::<(), Error>(e),
            },
    {
        match self.get_token_value(&literal.token) {
            Ok(text) => {
                out.append(text);
                Ok(())
            },
            Err(e) => Err(e),
        }
    }

    fn handle_variable_expression(&self, variable: &Token, out: &mut String) -> (r: Result<(), Error>)
        ensures
            match token_text(self.text(), *variable) {
                Ok(s) => r is Ok && final(out)@ == old(out)@ + s,
                Err(e) => r == Err::<(), Error>(e),
            },
    {
        match self.get_token_value(variable) {
            Ok(text) => {
                out.append(text);
                Ok(())
            },
            Err(e) => Err(e),
        }
    }

    fn handle_binary_expression(&self, index: usize, binary: &Binary, out: &mut String) -> (r: Result<(), Error>)
        requires
            index < self.nodes().len(),
            self.nodes()[index as int] == StatementNode::Expression(ExpressionNode::Binary(*binary)),
        ensures
            match render(self.nodes(), index as int, self.text()) {
                Ok(s) => r is Ok && final(out)@ == old(out)@ + s,
                Err(e) => r == Err::<(), Error>(e),
            },
        decreases index, 2int,
    {
        let operator_value = match self.get_token_value(&binary.operator) {
            Ok(t) => t,
            Err(e) => return Err(e),
        };
        let kids = [binary.left, binary.right];
        assert(kids@.map_values(|k: usize| k as int) =~= children(self.nodes()[index as int]));
        self.print_node(index, operator_value, &kids, out)
    }

    fn handle_grouping_expression(&self, index: usize, inner: usize, out: &mut String) -> (r: Result<(), Error>)
        requires
            index < self.nodes().len(),
            self.nodes()[index as int] == StatementNode::Expression(ExpressionNode::Grouping(inner)),
        ensures
            match render(self.nodes(), index as int, self.text()) {
                Ok(s) => r is Ok && final(out)@ == old(out)@ + s,
                Err(e) => r == Err::<(), Error>(e),
            },
        decreases index, 2int,
    {
        proof {
            reveal_strlit("group");
            assert("group"@ =~= seq!['g', 'r', 'o', 'u', 'p']);
        }
        let kids = [inner];
        assert(kids@.map_values(|k: usize| k as int) =~= children(self.nodes()[index as int]));
        self.print_node(index, "group", &kids, out)
    }

    fn handle_unary_expression(&self, index: usize, unary: &Unary, out: &mut String) -> (r: Result<(), Error>)
        requires
            index < self.nodes().len(),
            self.nodes()[index as int] == StatementNode::Expression(ExpressionNode::Unary(*unary)),
        ensures
            match render(self.nodes(), index as int, self.text()) {
                Ok(s) => r is Ok && final(out)@ == old(out)@ + s,
                Err(e) => r == Err::<(), Error>(e),
            },
        decreases index, 2int,
    {
        let operator_value = match self.get_token_value(&unary.operator) {
            Ok(t) => t,
            Err(e) => return Err(e),
        };
        let kids = [unary.right];
        assert(kids@.map_values(|k: usize| k as int) =~= children(self.nodes()[index as int]));
        self.print_node(index, operator_value, &kids, out)
    }

    fn handle_variable_definition_statement(
        &self,
        index: usize,
        declaration: &VariableDefinition,
        out: &mut String,
    ) -> (r: Result<(), Error>)
        requires
            index < self.nodes().len(),
            self.nodes()[index as int] == StatementNode::VariableDefinition(*declaration),
        ensures
            match render(self.nodes(), index as int, self.text()) {
                Ok(s) => r is Ok && final(out)@ == old(out)@ + s,
                Err(e) => r == Err::<(), Error>(e),
            },
        decreases index, 2int,
    {
        let variable_name = match self.get_token_value(&declaration.identifier) {
            Ok(t) => t,
            Err(e) => return Err(e),
        };
        let kids = [declaration.expression];
        assert(kids@.map_values(|k: usize| k as int) =~= children(self.nodes()[index as int]));
        self.print_node(index, variable_name, &kids, out)
    }

    fn handle_print_statement(&self, index: usize, expression: usize, out: &mut String) -> (r: Result<(), Error>)
        requires
            index < self.nodes().len(),
            self.nodes()[index as int] == StatementNode::Print(expression),
        ensures
            match render(self.nodes(), index as int, self.text()) {
                Ok(s) => r is Ok && final(out)@ == old(out)@ + s,
                Err(e) => r == Err::<(), Error>(e),
            },
        decreases index, 2int,
    {
        proof {
            reveal_strlit("print");
            assert("print"@ =~= seq!['p', 'r', 'i', 'n', 't']);
        }
        let kids = [expression];
        assert(kids@.map_values(|k: usize| k as int) =~= children(self.nodes()[index as int]));
        self.print_node(index, "print", &kids, out)
    }
}

/// A diagnostic rendering of a statement as nested prefix expressions, such
/// as `(+ 1 2)`, `(group (+ 1 2))` or `(name (+ 1 2))` for a definition.
pub trait DebugPrint {
    spec fn rendering(&self, source: Seq<char>) -> Result<Seq<char>, Error>;

    fn debug_print(&self, source: &str) -> (r: Result<String, Error>)
        ensures
            match self.rendering(source@) {
                Ok(s) => r matches Ok(t) && t@ == s,
                Err(e) => r == Err::<String, Error>(e),
            },
    ;
}

impl DebugPrint for Statement {
    open spec fn rendering(&self, source: Seq<char>) -> Result<Seq<char>, Error> {
        render(self.tree@, self.root_index as int, source)
    }

    fn debug_print(&self, source: &str) -> (r: Result<String, Error>) {
        let printer = DebugPrinter { tree: self, source };
        printer.debug_print()
    }
}

} // verus!
