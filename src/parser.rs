pub mod builder;
pub mod printer;
pub mod rules;
pub mod tree;

use vstd::prelude::*;

use self::builder::StatementListBuilder;
use self::rules::{
    comparison_kind, equality_kind, factor_kind, is_comparison_token, is_equality_token,
    is_factor_token, is_primary_token, is_term_token, is_unary_token, primary_kind, term_kind,
    unary_kind,
};
use self::tree::{
    arena_well_formed, children, Binary, ExpressionNode, Literal, Statement, StatementNode, Unary,
    VariableDefinition,
};

use crate::cursor::{item_or_end, Cursor, ToCursor};
use crate::error::Error;
use crate::lexer::token::{Token, TokenKind};

verus! {

/// The token at `p`, or the terminator token past the end.
pub open spec fn token_at(ts: Seq<Token>, p: int) -> Token {
    item_or_end(ts, p, Token { kind: TokenKind::NoToken, offset: 0, end: 0 })
}

/// The operators of a binary precedence level: 5 equality, 4 comparison,
/// 3 term, 2 factor.
pub open spec fn level_operator(level: nat, kind: TokenKind) -> bool {
    if level == 5 {
        equality_kind(kind)
    } else if level == 4 {
        comparison_kind(kind)
    } else if level == 3 {
        term_kind(kind)
    } else {
        factor_kind(kind)
    }
}

pub open spec fn binary_node(left: int, operator: Token, right: int) -> StatementNode {
    StatementNode::Expression(
        ExpressionNode::Binary(Binary { left: left as usize, operator, right: right as usize }),
    )
}

pub open spec fn unary_node(operator: Token, right: int) -> StatementNode {
    StatementNode::Expression(ExpressionNode::Unary(Unary { operator, right: right as usize }))
}

/// What parsing an expression leaves: the next position, the arena, and the
/// index of the expression's node.
pub type Parsed = Result<(int, Seq<StatementNode>, int), Error>;

/// Parses, from position `p` and with the arena `n` built so far, one
/// expression at a precedence level: 5 equality (the whole expression),
/// 4 comparison, 3 term, 2 factor, 1 unary, 0 primary.
pub open spec fn parse_level(ts: Seq<Token>, p: int, n: Seq<StatementNode>, level: nat) -> Parsed
    decreases ts.len() - p, level,
{
    if p < 0 || p > ts.len() {
        Err(Error::InternalError)
    } else if level == 0 {
        if p < ts.len() && primary_kind(ts[p].kind) {
            Ok(
                (
                    p + 1,
                    n.push(StatementNode::Expression(ExpressionNode::Literal(Literal { token: ts[p] }))),
                    n.len() as int,
                ),
            )
        } else if p < ts.len() && ts[p].kind == TokenKind::LeftParen {
            match parse_level(ts, p + 1, n, 5) {
                Err(e) => Err(e),
                Ok((p2, n2, e)) => {
                    if token_at(ts, p2).kind == TokenKind::RightParen {
                        Ok(
                            (
                                p2 + 1,
                                n2.push(StatementNode::Expression(ExpressionNode::Grouping(e as usize))),
                                n2.len() as int,
                            ),
                        )
                    } else {
                        Err(Error::UnexpectedToken)
                    }
                },
            }
        } else if p < ts.len() && ts[p].kind == TokenKind::Identifier {
            Ok(
                (
                    p + 1,
                    n.push(StatementNode::Expression(ExpressionNode::Variable(ts[p]))),
                    n.len() as int,
                ),
            )
        } else {
            Err(Error::UnexpectedToken)
        }
    } else if level == 1 {
        if p < ts.len() && unary_kind(ts[p].kind) {
            match parse_level(ts, p + 1, n, 1) {
                Err(e) => Err(e),
                Ok((p2, n2, r)) => Ok((p2, n2.push(unary_node(ts[p], r)), n2.len() as int)),
            }
        } else {
            parse_level(ts, p, n, 0)
        }
    } else {
        match parse_level(ts, p, n, (level - 1) as nat) {
            Err(e) => Err(e),
            Ok((p1, n1, left)) => {
                if p < p1 <= ts.len() {
                    parse_operands(ts, p1, n1, left, level)
                } else {
                    Err(Error::InternalError)
                }
            },
        }
    }
}

/// Folds `left` with each further operator of the level and its operand,
/// left to right.
pub open spec fn parse_operands(
    ts: Seq<Token>,
    p: int,
    n: Seq<StatementNode>,
    left: int,
    level: nat,
) -> Parsed
    decreases ts.len() - p, level,
{
    if 2 <= level && 0 <= p < ts.len() && level_operator(level, ts[p].kind) {
        match parse_level(ts, p + 1, n, (level - 1) as nat) {
            Err(e) => Err(e),
            Ok((p2, n2, right)) => {
                if p < p2 <= ts.len() {
                    parse_operands(
                        ts,
                        p2,
                        n2.push(binary_node(left, ts[p], right)),
                        n2.len() as int,
                        level,
                    )
                } else {
                    Err(Error::InternalError)
                }
            },
        }
    } else {
        Ok((p, n, left))
    }
}

/// Requires a semicolon at `p` after an expression, and appends `node` when
/// it is given.
pub open spec fn finish_statement(
    ts: Seq<Token>,
    parsed: Parsed,
    wrap: Option<StatementNode>,
) -> Parsed {
    match parsed {
        Err(e) => Err(e),
        Ok((p1, n1, e)) => {
            if token_at(ts, p1).kind != TokenKind::Semicolon {
                Err(Error::UnexpectedToken)
            } else {
                match wrap {
                    Some(node) => Ok((p1 + 1, n1.push(node), n1.len() as int)),
                    None => Ok((p1 + 1, n1, e)),
                }
            }
        },
    }
}

/// Parses one statement at `p`: its end, its arena and its root.
pub open spec fn parse_statement(ts: Seq<Token>, p: int) -> Parsed {
    if 0 <= p < ts.len() && ts[p].kind == TokenKind::Var {
        let name = token_at(ts, p + 1);
        if name.kind != TokenKind::Identifier || token_at(ts, p + 2).kind != TokenKind::Equal {
            Err(Error::UnexpectedToken)
        } else {
            let parsed = parse_level(ts, p + 3, seq![], 5);
            finish_statement(
                ts,
                parsed,
                Some(
                    StatementNode::VariableDefinition(
                        VariableDefinition {
                            identifier: name,
                            expression: parsed->Ok_0.2 as usize,
                        },
                    ),
                ),
            )
        }
    } else if 0 <= p < ts.len() && ts[p].kind == TokenKind::Print {
        let parsed = parse_level(ts, p + 1, seq![], 5);
        finish_statement(ts, parsed, Some(StatementNode::Print(parsed->Ok_0.2 as usize)))
    } else {
        finish_statement(ts, parse_level(ts, p, seq![], 5), None)
    }
}

/// The statements of the tokens from `p` on, each as its arena and root.
pub open spec fn parse_statements(ts: Seq<Token>, p: int) -> Result<
    Seq<(Seq<StatementNode>, int)>,
    Error,
>
    decreases ts.len() - p,
{
    if p < 0 || p >= ts.len() {
        Ok(seq![])
    } else {
        match parse_statement(ts, p) {
            Err(e) => Err(e),
            Ok((p1, n1, root)) => {
                if p < p1 <= ts.len() {
                    match parse_statements(ts, p1) {
                        Err(e) => Err(e),
                        Ok(rest) => Ok(seq![(n1, root)] + rest),
                    }
                } else {
                    Err(Error::InternalError)
                }
            },
        }
    }
}

/// The statements of a whole token sequence.
pub open spec fn parse_tokens(ts: Seq<Token>) -> Result<Seq<(Seq<StatementNode>, int)>, Error> {
    parse_statements(ts, 0)
}

pub open spec fn views(v: Seq<Statement>) -> Seq<(Seq<StatementNode>, int)> {
    v.map_values(|s: Statement| s.view_pair())
}

/// An exec result that agrees with the spec result `spec`, given the
/// position and arena that the exec code ended with.
pub open spec fn agrees(r: Result<usize, Error>, p: int, n: Seq<StatementNode>, spec: Parsed) -> bool {
    match spec {
        Ok((p1, n1, i)) => r is Ok && r->Ok_0 as int == i && p == p1 && n == n1,
        Err(e) => r == Err::<usize, Error>(e),
    }
}

fn is_var_kind(kind: TokenKind) -> (r: bool)
    ensures
        r == (kind == TokenKind::Var),
{
    kind == TokenKind::Var
}

fn is_print_kind(kind: TokenKind) -> (r: bool)
    ensures
        r == (kind == TokenKind::Print),
{
    kind == TokenKind::Print
}

fn is_left_paren_kind(kind: TokenKind) -> (r: bool)
    ensures
        r == (kind == TokenKind::LeftParen),
{
    kind == TokenKind::LeftParen
}

fn is_identifier_kind(kind: TokenKind) -> (r: bool)
    ensures
        r == (kind == TokenKind::Identifier),
{
    kind == TokenKind::Identifier
}

struct RecursiveDescentParser {
    cursor: Cursor<Token>,
    builder: StatementListBuilder,
}

impl RecursiveDescentParser {
    spec fn tokens(&self) -> Seq<Token> {
        self.cursor.items()
    }

    spec fn pos(&self) -> int {
        self.cursor.position()
    }

    spec fn nodes(&self) -> Seq<StatementNode> {
        self.builder.current()
    }

    spec fn wf(&self) -> bool {
        &&& self.cursor.wf()
        &&& self.cursor.terminator() == Token { kind: TokenKind::NoToken, offset: 0, end: 0 }
    }

    /// Only the arena of the statement under construction has changed.
    spec fn same_but_current(&self, old: &Self) -> bool {
        &&& self.wf()
        &&& self.tokens() == old.tokens()
        &&& self.builder.statements@.len() == old.builder.statements@.len()
        &&& self.builder.statements@.drop_last() == old.builder.statements@.drop_last()
        &&& self.builder.statements@.last().root_index == old.builder.statements@.last().root_index
    }

    fn new(tokens: Vec<Token>) -> (r: RecursiveDescentParser)
        ensures
            r.wf(),
            r.tokens() == tokens@,
            r.pos() == 0,
            r.builder.statements@ == Seq::<Statement>::empty(),
    {
        RecursiveDescentParser {
            cursor: tokens.to_cursor(Token::from_kind(TokenKind::NoToken)),
            builder: StatementListBuilder::new(),
        }
    }

    fn parse(self) -> (r: Result<Vec<Statement>, Error>)
        requires
            self.wf(),
            self.pos() == 0,
            self.builder.statements@ == Seq::<Statement>::empty(),
        ensures
            match r {
                Ok(v) => parse_tokens(self.tokens()) == Ok::<Seq<(Seq<StatementNode>, int)>, Error>(
                    views(v@),
                ),
                Err(e) => parse_tokens(self.tokens()) == Err::<Seq<(Seq<StatementNode>, int)>, Error>(e),
            },
    {
        let ghost ts = self.tokens();
        let mut parser = self;
        loop
            invariant
                parser.wf(),
                parser.tokens() == ts,
                ts == self.tokens(),
                match parse_statements(ts, parser.pos()) {
                    Ok(rest) => parse_tokens(ts) == Ok::<Seq<(Seq<StatementNode>, int)>, Error>(
                        views(parser.builder.statements@) + rest,
                    ),
                    Err(e) => parse_tokens(ts) == Err::<Seq<(Seq<StatementNode>, int)>, Error>(e),
                },
            decreases ts.len() - parser.pos(),
        {
            if parser.cursor.is_at_end() {
                assert(views(parser.builder.statements@) + seq![] =~= views(parser.builder.statements@));
                return Ok(parser.builder.statements);
            }
            let ghost before = parser.builder.statements@;
            let ghost p = parser.pos();
            match parser.statement() {
                Ok(()) => {},
                Err(e) => {
                    return Err(e);
                },
            }
            proof {
                let st = parser.builder.statements@.last();
                assert(parser.builder.statements@ =~= before.push(st));
                assert(views(before.push(st)) =~= views(before).push(st.view_pair()));
                if let Ok(rest) = parse_statements(ts, parser.pos()) {
                    assert(views(before) + (seq![st.view_pair()] + rest) =~= views(before).push(
                        st.view_pair(),
                    ) + rest);
                }
            }
        }
    }

    /// `self` ended one statement after `old`, as the spec result says.
    spec fn statement_agrees(&self, old: &Self, r: Result<(), Error>, spec: Parsed) -> bool {
        match spec {
            Ok((p1, n1, root)) => {
                &&& r is Ok
                &&& self.pos() == p1
                &&& old.pos() < p1 <= old.tokens().len()
                &&& self.builder.statements@.len() == old.builder.statements@.len() + 1
                &&& self.builder.statements@.drop_last() == old.builder.statements@
                &&& self.builder.statements@.last().view_pair() == (n1, root)
            },
            Err(e) => r == Err::<(), Error>(e),
        }
    }

    fn statement(&mut self) -> (r: Result<(), Error>)
        requires
            old(self).wf(),
            old(self).pos() < old(self).tokens().len(),
        ensures
            final(self).wf(),
            final(self).tokens() == old(self).tokens(),
            final(self).statement_agrees(
                old(self),
                r,
                parse_statement(old(self).tokens(), old(self).pos()),
            ),
    {
        if self.matches(is_var_kind).is_some() {
            self.variable_definition_statement()
        } else if self.matches(is_print_kind).is_some() {
            self.print_statement()
        } else {
            self.expression_statement()
        }
    }

    fn variable_definition_statement(&mut self) -> (r: Result<(), Error>)
        requires
            old(self).wf(),
            1 <= old(self).pos() <= old(self).tokens().len(),
            old(self).tokens()[old(self).pos() - 1].kind == TokenKind::Var,
        ensures
            final(self).wf(),
            final(self).tokens() == old(self).tokens(),
            final(self).statement_agrees(
                old(self),
                r,
                parse_statement(old(self).tokens(), old(self).pos() - 1),
            ),
    {
        let name = match self.expect(TokenKind::Identifier) {
            Ok(t) => t,
            Err(e) => return Err(e),
        };
        match self.expect(TokenKind::Equal) {
            Ok(_) => {},
            Err(e) => return Err(e),
        }
        self.builder.start_statement();
        let expression = match self.expression() {
            Ok(e) => e,
            Err(e) => return Err(e),
        };
        let variable_definition = self.builder.add_variable_definition(name, expression);
        self.builder.end_statement(variable_definition);
        match self.expect(TokenKind::Semicolon) {
            Ok(_) => Ok(()),
            Err(e) => Err(e),
        }
    }

    fn print_statement(&mut self) -> (r: Result<(), Error>)
        requires
            old(self).wf(),
            1 <= old(self).pos() <= old(self).tokens().len(),
            old(self).tokens()[old(self).pos() - 1].kind == TokenKind::Print,
        ensures
            final(self).wf(),
            final(self).tokens() == old(self).tokens(),
            final(self).statement_agrees(
                old(self),
                r,
                parse_statement(old(self).tokens(), old(self).pos() - 1),
            ),
    {
        self.builder.start_statement();
        let expression = match self.expression() {
            Ok(e) => e,
            Err(e) => return Err(e),
        };
        let print_statement = self.builder.add_print_statement(expression);
        self.builder.end_statement(print_statement);
        match self.expect(TokenKind::Semicolon) {
            Ok(_) => Ok(()),
            Err(e) => Err(e),
        }
    }

    fn expression_statement(&mut self) -> (r: Result<(), Error>)
        requires
            old(self).wf(),
            old(self).pos() < old(self).tokens().len(),
            old(self).tokens()[old(self).pos()].kind != TokenKind::Var,
            old(self).tokens()[old(self).pos()].kind != TokenKind::Print,
        ensures
            final(self).wf(),
            final(self).tokens() == old(self).tokens(),
            final(self).statement_agrees(
                old(self),
                r,
                parse_statement(old(self).tokens(), old(self).pos()),
            ),
    {
        self.builder.start_statement();
        let root_index = match self.expression() {
            Ok(e) => e,
            Err(e) => return Err(e),
        };
        self.builder.end_statement(root_index);
        match self.expect(TokenKind::Semicolon) {
            Ok(_) => Ok(()),
            Err(e) => Err(e),
        }
    }

    fn expression(&mut self) -> (r: Result<usize, Error>)
        requires
            old(self).wf(),
            old(self).builder.statements@.len() > 0,
        ensures
            final(self).same_but_current(old(self)),
            agrees(
                r,
                final(self).pos(),
                final(self).nodes(),
                parse_level(old(self).tokens(), old(self).pos(), old(self).nodes(), 5),
            ),
            r is Ok ==> old(self).pos() < final(self).pos() <= old(self).tokens().len(),
        decreases old(self).tokens().len() - old(self).pos(), 6nat,
    {
        self.equality()
    }

    fn equality(&mut self) -> (r: Result<usize, Error>)
        requires
            old(self).wf(),
            old(self).builder.statements@.len() > 0,
        ensures
            final(self).same_but_current(old(self)),
            agrees(
                r,
                final(self).pos(),
                final(self).nodes(),
                parse_level(old(self).tokens(), old(self).pos(), old(self).nodes(), 5),
            ),
            r is Ok ==> old(self).pos() < final(self).pos() <= old(self).tokens().len(),
        decreases old(self).tokens().len() - old(self).pos(), 5nat,
    {
        let ghost ts = self.tokens();
        let ghost p0 = self.pos();
        let ghost n0 = self.nodes();
        let mut left = match self.comparison() {
            Ok(l) => l,
            Err(e) => return Err(e),
        };
        loop
            invariant
                self.same_but_current(old(self)),
                self.builder.statements@.len() > 0,
                ts == self.tokens(),
                p0 == old(self).pos(),
                n0 == old(self).nodes(),
                p0 < self.pos() <= ts.len(),
                parse_level(ts, p0, n0, 5) == parse_operands(ts, self.pos(), self.nodes(), left as int, 5),
            decreases ts.len() - self.pos(),
        {
            let ghost p = self.pos();
            let ghost n = self.nodes();
            match self.matches(is_equality_token) {
                None => {
                    return Ok(left);
                },
                Some(operator) => {
                    let right = match self.comparison() {
                        Ok(r) => r,
                        Err(e) => return Err(e),
                    };
                    left = self.builder.add_binary(left, operator, right);
                },
            }
        }
    }

    fn comparison(&mut self) -> (r: Result<usize, Error>)
        requires
            old(self).wf(),
            old(self).builder.statements@.len() > 0,
        ensures
            final(self).same_but_current(old(self)),
            agrees(
                r,
                final(self).pos(),
                final(self).nodes(),
                parse_level(old(self).tokens(), old(self).pos(), old(self).nodes(), 4),
            ),
            r is Ok ==> old(self).pos() < final(self).pos() <= old(self).tokens().len(),
        decreases old(self).tokens().len() - old(self).pos(), 4nat,
    {
        let ghost ts = self.tokens();
        let ghost p0 = self.pos();
        let ghost n0 = self.nodes();
        let mut left = match self.term() {
            Ok(l) => l,
            Err(e) => return Err(e),
        };
        loop
            invariant
                self.same_but_current(old(self)),
                self.builder.statements@.len() > 0,
                ts == self.tokens(),
                p0 == old(self).pos(),
                n0 == old(self).nodes(),
                p0 < self.pos() <= ts.len(),
                parse_level(ts, p0, n0, 4) == parse_operands(ts, self.pos(), self.nodes(), left as int, 4),
            decreases ts.len() - self.pos(),
        {
            let ghost p = self.pos();
            let ghost n = self.nodes();
            match self.matches(is_comparison_token) {
                None => {
                    return Ok(left);
                },
                Some(operator) => {
                    let right = match self.term() {
                        Ok(r) => r,
                        Err(e) => return Err(e),
                    };
                    left = self.builder.add_binary(left, operator, right);
                },
            }
        }
    }

    fn term(&mut self) -> (r: Result<usize, Error>)
        requires
            old(self).wf(),
            old(self).builder.statements@.len() > 0,
        ensures
            final(self).same_but_current(old(self)),
            agrees(
                r,
                final(self).pos(),
                final(self).nodes(),
                parse_level(old(self).tokens(), old(self).pos(), old(self).nodes(), 3),
            ),
            r is Ok ==> old(self).pos() < final(self).pos() <= old(self).tokens().len(),
        decreases old(self).tokens().len() - old(self).pos(), 3nat,
    {
        let ghost ts = self.tokens();
        let ghost p0 = self.pos();
        let ghost n0 = self.nodes();
        let mut left = match self.factor() {
            Ok(l) => l,
            Err(e) => return Err(e),
        };
        loop
            invariant
                self.same_but_current(old(self)),
                self.builder.statements@.len() > 0,
                ts == self.tokens(),
                p0 == old(self).pos(),
                n0 == old(self).nodes(),
                p0 < self.pos() <= ts.len(),
                parse_level(ts, p0, n0, 3) == parse_operands(ts, self.pos(), self.nodes(), left as int, 3),
            decreases ts.len() - self.pos(),
        {
            let ghost p = self.pos();
            let ghost n = self.nodes();
            match self.matches(is_term_token) {
                None => {
                    return Ok(left);
                },
                Some(operator) => {
                    let right = match self.factor() {
                        Ok(r) => r,
                        Err(e) => return Err(e),
                    };
                    left = self.builder.add_binary(left, operator, right);
                },
            }
        }
    }

    fn factor(&mut self) -> (r: Result<usize, Error>)
        requires
            old(self).wf(),
            old(self).builder.statements@.len() > 0,
        ensures
            final(self).same_but_current(old(self)),
            agrees(
                r,
                final(self).pos(),
                final(self).nodes(),
                parse_level(old(self).tokens(), old(self).pos(), old(self).nodes(), 2),
            ),
            r is Ok ==> old(self).pos() < final(self).pos() <= old(self).tokens().len(),
        decreases old(self).tokens().len() - old(self).pos(), 2nat,
    {
        let ghost ts = self.tokens();
        let ghost p0 = self.pos();
        let ghost n0 = self.nodes();
        let mut left = match self.unary() {
            Ok(l) => l,
            Err(e) => return Err(e),
        };
        loop
            invariant
                self.same_but_current(old(self)),
                self.builder.statements@.len() > 0,
                ts == self.tokens(),
                p0 == old(self).pos(),
                n0 == old(self).nodes(),
                p0 < self.pos() <= ts.len(),
                parse_level(ts, p0, n0, 2) == parse_operands(ts, self.pos(), self.nodes(), left as int, 2),
            decreases ts.len() - self.pos(),
        {
            let ghost p = self.pos();
            let ghost n = self.nodes();
            match self.matches(is_factor_token) {
                None => {
                    return Ok(left);
                },
                Some(operator) => {
                    let right = match self.unary() {
                        Ok(r) => r,
                        Err(e) => return Err(e),
                    };
                    left = self.builder.add_binary(left, operator, right);
                },
            }
        }
    }

    fn unary(&mut self) -> (r: Result<usize, Error>)
        requires
            old(self).wf(),
            old(self).builder.statements@.len() > 0,
        ensures
            final(self).same_but_current(old(self)),
            agrees(
                r,
                final(self).pos(),
                final(self).nodes(),
                parse_level(old(self).tokens(), old(self).pos(), old(self).nodes(), 1),
            ),
            r is Ok ==> old(self).pos() < final(self).pos() <= old(self).tokens().len(),
        decreases old(self).tokens().len() - old(self).pos(), 1nat,
    {
        if let Some(operator) = self.matches(is_unary_token) {
            let right = match self.unary() {
                Ok(r) => r,
                Err(e) => return Err(e),
            };
            Ok(self.builder.add_unary(operator, right))
        } else {
            self.primary()
        }
    }

    fn primary(&mut self) -> (r: Result<usize, Error>)
        requires
            old(self).wf(),
            old(self).builder.statements@.len() > 0,
        ensures
            final(self).same_but_current(old(self)),
            agrees(
                r,
                final(self).pos(),
                final(self).nodes(),
                parse_level(old(self).tokens(), old(self).pos(), old(self).nodes(), 0),
            ),
            r is Ok ==> old(self).pos() < final(self).pos() <= old(self).tokens().len(),
        decreases old(self).tokens().len() - old(self).pos(), 0nat,
    {
        if let Some(token) = self.matches(is_primary_token) {
            Ok(self.builder.add_literal(token))
        } else if self.matches(is_left_paren_kind).is_some() {
            let expression = match self.expression() {
                Ok(e) => e,
                Err(e) => return Err(e),
            };
            match self.expect(TokenKind::RightParen) {
                Ok(_) => Ok(self.builder.add_grouping(expression)),
                Err(e) => Err(e),
            }
        } else if let Some(token) = self.matches(is_identifier_kind) {
            Ok(self.builder.add_variable(token))
        } else {
            Err(Error::UnexpectedToken)
        }
    }

    /// Consumes the next token when `rule` accepts its kind.
    fn matches<F: Fn(TokenKind) -> bool>(&mut self, rule: F) -> (r: Option<Token>)
        requires
            old(self).wf(),
            forall|k: TokenKind| #[trigger] rule.requires((k,)),
        ensures
            final(self).wf(),
            final(self).tokens() == old(self).tokens(),
            final(self).builder == old(self).builder,
            match r {
                Some(t) => {
                    &&& t == old(self).cursor.ahead(0)
                    &&& rule.ensures((t.kind,), true)
                    &&& final(self).pos() == if old(self).pos() < old(self).tokens().len() {
                        old(self).pos() + 1
                    } else {
                        old(self).pos()
                    }
                },
                None => {
                    &&& rule.ensures((old(self).cursor.ahead(0).kind,), false)
                    &&& final(self).pos() == old(self).pos()
                },
            },
    {
        let next = self.cursor.peek(0);
        if rule(next.kind) {
            Some(self.cursor.next_or_end())
        } else {
            None
        }
    }

    /// Consumes the next token, which must be of `kind`.
    fn expect(&mut self, kind: TokenKind) -> (r: Result<Token, Error>)
        requires
            old(self).wf(),
        ensures
            final(self).wf(),
            final(self).tokens() == old(self).tokens(),
            final(self).builder == old(self).builder,
            final(self).pos() == if old(self).pos() < old(self).tokens().len() {
                old(self).pos() + 1
            } else {
                old(self).pos()
            },
            old(self).cursor.ahead(0).kind == kind ==> r == Ok::<Token, Error>(old(self).cursor.ahead(0)),
            old(self).cursor.ahead(0).kind != kind ==> r == Err::<Token, Error>(Error::UnexpectedToken),
    {
        let next_token = self.cursor.next_or_end();
        if kind == next_token.kind {
            Ok(next_token)
        } else {
            Err(Error::UnexpectedToken)
        }
    }
}

/// Parses a token sequence into its statements.
pub fn parse(tokens: Vec<Token>) -> (r: Result<Vec<Statement>, Error>)
    ensures
        match r {
            Ok(v) => parse_tokens(tokens@) == Ok::<Seq<(Seq<StatementNode>, int)>, Error>(views(v@)),
            Err(e) => parse_tokens(tokens@) == Err::<Seq<(Seq<StatementNode>, int)>, Error>(e),
        },
{
    let parser = RecursiveDescentParser::new(tokens);
    parser.parse()
}

/// `n1` starts with the nodes of `n`.
pub open spec fn is_prefix(n: Seq<StatementNode>, n1: Seq<StatementNode>) -> bool {
    n.len() <= n1.len() && forall|k: int| 0 <= k < n.len() ==> #[trigger] n1[k] == n[k]
}

proof fn lemma_push_well_formed(n: Seq<StatementNode>, node: StatementNode)
    requires
        arena_well_formed(n),
        forall|k: int| 0 <= k < children(node).len() ==> 0 <= #[trigger] children(node)[k] < n.len(),
    ensures
        arena_well_formed(n.push(node)),
{
    assert forall|i: int, k: int|
        0 <= i < n.push(node).len() && 0 <= k < children(n.push(node)[i]).len() implies 0
            <= #[trigger] children(n.push(node)[i])[k] < i by {
        if i < n.len() {
            assert(n.push(node)[i] == n[i]);
        }
    }
}

/// What a successful parse from arena `n` leaves: a well-formed arena that
/// extends `n` by at most one node per token consumed, and an index in it.
pub open spec fn grows_well_formed(
    ts: Seq<Token>,
    p: int,
    n: Seq<StatementNode>,
    r: Parsed,
    lo: int,
) -> bool {
    r matches Ok((p1, n1, i)) ==> {
        &&& arena_well_formed(n1)
        &&& is_prefix(n, n1)
        &&& lo <= i < n1.len()
        &&& n1.len() - n.len() <= p1 - p
        &&& p < p1 <= ts.len()
    }
}

proof fn lemma_level_well_formed(ts: Seq<Token>, p: int, n: Seq<StatementNode>, level: nat)
    requires
        arena_well_formed(n),
        n.len() <= p,
        ts.len() <= usize::MAX,
        level <= 5,
    ensures
        grows_well_formed(ts, p, n, parse_level(ts, p, n, level), n.len() as int),
    decreases ts.len() - p, level,
{
    if p < 0 || p > ts.len() {
    } else if level == 0 {
        if p < ts.len() && primary_kind(ts[p].kind) {
            lemma_push_well_formed(n, StatementNode::Expression(ExpressionNode::Literal(Literal { token: ts[p] })));
        } else if p < ts.len() && ts[p].kind == TokenKind::LeftParen {
            lemma_level_well_formed(ts, p + 1, n, 5);
            if let Ok((p2, n2, e)) = parse_level(ts, p + 1, n, 5) {
                if token_at(ts, p2).kind == TokenKind::RightParen {
                    let node = StatementNode::Expression(ExpressionNode::Grouping(e as usize));
                    lemma_push_well_formed(n2, node);
                }
            }
        } else if p < ts.len() && ts[p].kind == TokenKind::Identifier {
            lemma_push_well_formed(n, StatementNode::Expression(ExpressionNode::Variable(ts[p])));
        }
    } else if level == 1 {
        if p < ts.len() && unary_kind(ts[p].kind) {
            lemma_level_well_formed(ts, p + 1, n, 1);
            if let Ok((p2, n2, r)) = parse_level(ts, p + 1, n, 1) {
                let node = unary_node(ts[p], r);
                lemma_push_well_formed(n2, node);
            }
        } else {
            lemma_level_well_formed(ts, p, n, 0);
        }
    } else {
        lemma_level_well_formed(ts, p, n, (level - 1) as nat);
        if let Ok((p1, n1, left)) = parse_level(ts, p, n, (level - 1) as nat) {
            lemma_operands_well_formed(ts, p1, n1, left, level, n.len() as int);
            let r = parse_operands(ts, p1, n1, left, level);
            if let Ok((p3, n3, i)) = r {
            }
        }
    }
}

proof fn lemma_operands_well_formed(
    ts: Seq<Token>,
    p: int,
    n: Seq<StatementNode>,
    left: int,
    level: nat,
    lo: int,
)
    requires
        arena_well_formed(n),
        0 <= lo <= left < n.len(),
        n.len() <= p <= ts.len(),
        ts.len() <= usize::MAX,
        2 <= level <= 5,
    ensures
        parse_operands(ts, p, n, left, level) matches Ok((p1, n1, i)) ==> {
            &&& arena_well_formed(n1)
            &&& is_prefix(n, n1)
            &&& lo <= i < n1.len()
            &&& n1.len() - n.len() <= p1 - p
            &&& p <= p1 <= ts.len()
        },
    decreases ts.len() - p, level,
{
    if 2 <= level && 0 <= p < ts.len() && level_operator(level, ts[p].kind) {
        lemma_level_well_formed(ts, p + 1, n, (level - 1) as nat);
        if let Ok((p2, n2, right)) = parse_level(ts, p + 1, n, (level - 1) as nat) {
            if p < p2 <= ts.len() {
                let node = binary_node(left, ts[p], right);
                assert(n2[left] == n[left]);
                lemma_push_well_formed(n2, node);
                let n3 = n2.push(node);
                lemma_operands_well_formed(ts, p2, n3, n2.len() as int, level, lo);
                if let Ok((p4, n4, i)) = parse_operands(ts, p2, n3, n2.len() as int, level) {
                }
            }
        }
    }
}

proof fn lemma_statement_well_formed(ts: Seq<Token>, p: int)
    requires
        0 <= p < ts.len(),
        ts.len() <= usize::MAX,
    ensures
        parse_statement(ts, p) matches Ok((p1, n1, root)) ==> arena_well_formed(n1) && 0 <= root
            < n1.len(),
{
    let empty = Seq::<StatementNode>::empty();
    if ts[p].kind == TokenKind::Var {
        lemma_level_well_formed(ts, p + 3, empty, 5);
        if let Ok((p1, n1, e)) = parse_level(ts, p + 3, empty, 5) {
            let node = StatementNode::VariableDefinition(
                VariableDefinition { identifier: token_at(ts, p + 1), expression: e as usize },
            );
            lemma_push_well_formed(n1, node);
        }
    } else if ts[p].kind == TokenKind::Print {
        lemma_level_well_formed(ts, p + 1, empty, 5);
        if let Ok((p1, n1, e)) = parse_level(ts, p + 1, empty, 5) {
            lemma_push_well_formed(n1, StatementNode::Print(e as usize));
        }
    } else {
        lemma_level_well_formed(ts, p, empty, 5);
    }
}

/// Each statement's arena is well formed and holds its root.
pub open spec fn all_well_formed(stmts: Seq<(Seq<StatementNode>, int)>) -> bool {
    forall|k: int|
        0 <= k < stmts.len() ==> arena_well_formed(#[trigger] stmts[k].0) && 0 <= stmts[k].1
            < stmts[k].0.len()
}

proof fn lemma_statements_well_formed(ts: Seq<Token>, p: int)
    requires
        0 <= p,
        ts.len() <= usize::MAX,
        parse_statements(ts, p) is Ok,
    ensures
        all_well_formed(parse_statements(ts, p)->Ok_0),
    decreases ts.len() - p,
{
    if p < ts.len() {
        lemma_statement_well_formed(ts, p);
        if let Ok((p1, n1, root)) = parse_statement(ts, p) {
            if p < p1 <= ts.len() {
                lemma_statements_well_formed(ts, p1);
                let rest = parse_statements(ts, p1)->Ok_0;
                let all = seq![(n1, root)] + rest;
                assert(parse_statements(ts, p)->Ok_0 == all);
                assert forall|k: int| 0 <= k < all.len() implies arena_well_formed(#[trigger] all[k].0) && 0
                    <= all[k].1 < all[k].0.len() by {
                    if k > 0 {
                        assert(all[k] == rest[k - 1]);
                    }
                }
            }
        }
    }
}

/// Every statement that parsing yields has a well-formed arena: each node
/// refers only to nodes emitted before it, and the root lies in the arena.
pub proof fn lemma_parsed_statements_well_formed(ts: Seq<Token>)
    requires
        ts.len() <= usize::MAX,
        parse_tokens(ts) is Ok,
    ensures
        all_well_formed(parse_tokens(ts)->Ok_0),
{
    lemma_statements_well_formed(ts, 0);
}

} // verus!
