use minilang::error::Error;
use minilang::lexer::token::{Token, TokenKind};
use minilang::lexer::tokenize;
use minilang::parser::builder::StatementListBuilder;
use minilang::parser::printer::DebugPrint;
use minilang::parser::rules::{
    is_comparison_token, is_equality_token, is_factor_token, is_primary_token, is_term_token,
    is_unary_token,
};
use minilang::parser::tree::{ExpressionNode, Statement, StatementNode};
use minilang::parser::parse;

fn parse_source(source: &str) -> Result<Vec<Statement>, Error> {
    parse(tokenize(source)?)
}

#[test]
fn should_parse_binary_expression() {
    let source = "1 + 2;";

    let tokens = tokenize(source).unwrap();
    let statements = parse(tokens).unwrap();

    assert_eq!(statements.len(), 1);

    let root = statements[0].tree.get(statements[0].root_index);

    assert!(matches!(
        root,
        Some(StatementNode::Expression(ExpressionNode::Binary(_)))
    ))
}

#[test]
fn should_parse_unary_expression() {
    let source = "-2;";

    let tokens = tokenize(source).unwrap();
    let statements = parse(tokens).unwrap();

    assert_eq!(statements.len(), 1);

    let root = statements[0].tree.get(statements[0].root_index);

    assert!(matches!(
        root,
        Some(StatementNode::Expression(ExpressionNode::Unary(_)))
    ))
}

#[test]
fn should_parse_literal_expression() {
    let source = "12341231;";

    let tokens = tokenize(source).unwrap();
    let statements = parse(tokens).unwrap();

    assert_eq!(statements.len(), 1);

    let root = statements[0].tree.get(statements[0].root_index);

    assert!(matches!(
        root,
        Some(StatementNode::Expression(ExpressionNode::Literal(_)))
    ))
}

#[test]
fn should_parse_grouping_expression() {
    let source = "(12341231 + 123);";

    let tokens = tokenize(source).unwrap();
    let statements = parse(tokens).unwrap();

    assert_eq!(statements.len(), 1);

    let root = statements[0].tree.get(statements[0].root_index);

    assert!(matches!(
        root,
        Some(StatementNode::Expression(ExpressionNode::Grouping(_)))
    ))
}

#[test]
fn should_parse_variable_expression() {
    let source = "asdasdsad;";

    let tokens = tokenize(source).unwrap();
    let statements = parse(tokens).unwrap();

    assert_eq!(statements.len(), 1);

    let root = statements[0].tree.get(statements[0].root_index);

    assert!(matches!(
        root,
        Some(StatementNode::Expression(ExpressionNode::Variable(_)))
    ))
}

#[test]
fn should_parse_variable_definition_statement() {
    let source = "var b = 123;";

    let tokens = tokenize(source).unwrap();
    let statements = parse(tokens).unwrap();

    assert_eq!(statements.len(), 1);

    let root = statements[0].tree.get(statements[0].root_index);

    assert!(matches!(root, Some(StatementNode::VariableDefinition(_))))
}

#[test]
fn should_parse_print_statement() {
    let source = "print 123;";

    let tokens = tokenize(source).unwrap();
    let statements = parse(tokens).unwrap();

    assert_eq!(statements.len(), 1);

    let root = statements[0].tree.get(statements[0].root_index);

    assert!(matches!(root, Some(StatementNode::Print(_))))
}

#[test]
fn unclosed_grouping_fails() {
    assert_eq!(parse_source("(1 + 2").unwrap_err(), Error::UnexpectedToken);
    assert_eq!(parse_source("(1 + 2;").unwrap_err(), Error::UnexpectedToken);
}

#[test]
fn missing_pieces_fail() {
    assert_eq!(parse_source("1 + 2").unwrap_err(), Error::UnexpectedToken);
    assert_eq!(parse_source("var = 1;").unwrap_err(), Error::UnexpectedToken);
    assert_eq!(parse_source("var a 1;").unwrap_err(), Error::UnexpectedToken);
    assert_eq!(parse_source("1 + ;").unwrap_err(), Error::UnexpectedToken);
    assert_eq!(parse_source("print;").unwrap_err(), Error::UnexpectedToken);
    assert_eq!(parse_source("1; 2").unwrap_err(), Error::UnexpectedToken);
    assert_eq!(parse_source("").unwrap().len(), 0);
}

fn render(source: &str) -> Vec<String> {
    parse_source(source)
        .unwrap()
        .iter()
        .map(|s| s.debug_print(source).unwrap())
        .collect()
}

#[test]
fn precedence_and_associativity() {
    assert_eq!(render("1 + 2 * 3;"), vec!["(+ 1 (* 2 3))"]);
    assert_eq!(render("1 - 2 - 3;"), vec!["(- (- 1 2) 3)"]);
    assert_eq!(render("1 < 2 == 3 >= 4;"), vec!["(== (< 1 2) (>= 3 4))"]);
    assert_eq!(render("!!-x / (y);"), vec!["(/ (! (! (- x))) (group y))"]);
    assert_eq!(render("a != b;"), vec!["(!= a b)"]);
}

#[test]
fn statements_render_in_prefix_form() {
    assert_eq!(render("(1 + 2);"), vec!["(group (+ 1 2))"]);
    assert_eq!(render("var a = 1 + 2;"), vec!["(a (+ 1 2))"]);
    assert_eq!(render("print \"hi\"; true;"), vec!["(print \"hi\")", "true"]);
}

#[test]
fn arenas_refer_backwards() {
    let statements = parse_source("var x = (1 + 2) * -3 == 4;").unwrap();
    let statement = &statements[0];
    assert_eq!(statement.root_index, statement.tree.len() - 1);
    for (i, node) in statement.tree.iter().enumerate() {
        let kids: Vec<usize> = match node {
            StatementNode::Expression(ExpressionNode::Binary(b)) => vec![b.left, b.right],
            StatementNode::Expression(ExpressionNode::Unary(u)) => vec![u.right],
            StatementNode::Expression(ExpressionNode::Grouping(g)) => vec![*g],
            StatementNode::VariableDefinition(d) => vec![d.expression],
            StatementNode::Print(p) => vec![*p],
            _ => vec![],
        };
        assert!(kids.iter().all(|k| *k < i));
    }
}

#[test]
fn builder_appends_to_the_open_statement() {
    let mut builder = StatementListBuilder::new();
    builder.start_statement();
    let one = Token { kind: TokenKind::Number, offset: 0, end: 1 };
    let plus = Token { kind: TokenKind::Plus, offset: 2, end: 3 };
    let a = builder.add_literal(one);
    let b = builder.add_variable(one);
    let c = builder.add_binary(a, plus, b);
    let d = builder.add_grouping(c);
    let e = builder.add_unary(plus, d);
    let f = builder.add_print_statement(e);
    let g = builder.add_variable_definition(one, f);
    builder.end_statement(g);
    assert_eq!((a, b, c, d, e, f, g), (0, 1, 2, 3, 4, 5, 6));
    assert_eq!(builder.statements.len(), 1);
    assert_eq!(builder.statements[0].root_index, 6);
    assert_eq!(builder.statements[0].tree.len(), 7);
    let empty = Statement::new();
    assert_eq!(empty.tree.len(), 0);
    assert_eq!(empty.root_index, 0);
}

#[test]
fn operator_rules() {
    assert!(is_equality_token(TokenKind::EqualEqual) && is_equality_token(TokenKind::BangEqual));
    assert!(!is_equality_token(TokenKind::Equal));
    assert!(is_comparison_token(TokenKind::LessEqual) && !is_comparison_token(TokenKind::Plus));
    assert!(is_term_token(TokenKind::Minus) && !is_term_token(TokenKind::Star));
    assert!(is_factor_token(TokenKind::Star) && !is_factor_token(TokenKind::Minus));
    assert!(is_unary_token(TokenKind::Bang) && !is_unary_token(TokenKind::Plus));
    assert!(is_primary_token(TokenKind::String) && !is_primary_token(TokenKind::Identifier));
}
