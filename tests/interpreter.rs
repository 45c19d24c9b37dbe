use minilang::error::Error;
use minilang::interpreter::{Number, Object, ProgramContext, StatementInterpreter};
use minilang::lexer::token::{Token, TokenKind};
use minilang::lexer::tokenize;
use minilang::parser::parse;
use minilang::parser::tree::{ExpressionNode, Literal, Statement, StatementNode};

#[derive(Clone, Copy, Debug, PartialEq)]
struct F32(f32);

impl Number for F32 {
    fn parse_literal(text: &str) -> Option<Self> {
        text.parse::<f32>().ok().map(F32)
    }

    fn add(self, other: Self) -> Self {
        F32(self.0 + other.0)
    }

    fn subtract(self, other: Self) -> Self {
        F32(self.0 - other.0)
    }

    fn multiply(self, other: Self) -> Self {
        F32(self.0 * other.0)
    }

    fn divide(self, other: Self) -> Self {
        F32(self.0 / other.0)
    }

    fn negate(self) -> Self {
        F32(-self.0)
    }

    fn greater(self, other: Self) -> bool {
        self.0 > other.0
    }

    fn greater_equal(self, other: Self) -> bool {
        self.0 >= other.0
    }

    fn less(self, other: Self) -> bool {
        self.0 < other.0
    }

    fn less_equal(self, other: Self) -> bool {
        self.0 <= other.0
    }

    fn equals(self, other: Self) -> bool {
        self.0 == other.0
    }
}

/// Evaluates the single statement of `source` in `context`.
fn eval_in(context: &mut ProgramContext<F32>, source: &str) -> Result<Object<F32>, Error> {
    let statements = parse(tokenize(source)?)?;
    assert_eq!(statements.len(), 1);
    let mut out = Vec::new();
    StatementInterpreter::new(&statements[0], source).interpret(context, &mut out)
}

fn eval(source: &str) -> Result<Object<F32>, Error> {
    eval_in(&mut ProgramContext::new(), source)
}

fn number(r: Result<Object<F32>, Error>) -> f32 {
    match r {
        Ok(Object::Number(F32(x))) => x,
        other => panic!("not a number: {:?}", other),
    }
}

fn boolean(r: Result<Object<F32>, Error>) -> bool {
    match r {
        Ok(Object::Boolean(b)) => b,
        other => panic!("not a boolean: {:?}", other),
    }
}

#[test]
fn addition_evaluates_to_three() {
    let statements = parse(tokenize("1 + 2;").unwrap()).unwrap();
    assert!(matches!(
        statements[0].tree.get(statements[0].root_index),
        Some(StatementNode::Expression(ExpressionNode::Binary(_)))
    ));
    assert_eq!(number(eval("1 + 2;")), 3.0);
}

#[test]
fn negation_evaluates_to_minus_two() {
    assert_eq!(number(eval("-2;")), -2.0);
}

#[test]
fn arithmetic_and_comparison() {
    assert_eq!(number(eval("2 * (3 + 4) - 10 / 4;")), 11.5);
    assert_eq!(number(eval("0.5 + 0.25;")), 0.75);
    assert!(boolean(eval("3 > 2;")));
    assert!(!boolean(eval("3 >= 4;")));
    assert!(boolean(eval("1 < 1.5;")));
    assert!(boolean(eval("2 <= 2;")));
    assert!(boolean(eval("1 != 2;")));
}

#[test]
fn strings_concatenate_and_compare() {
    match eval("\"ab\" + \"cd\";") {
        Ok(Object::String(s)) => assert_eq!(s, "abcd"),
        other => panic!("{:?}", other),
    }
    assert!(boolean(eval("\"ab\" == \"ab\";")));
    assert!(boolean(eval("\"ab\" != \"ba\";")));
    assert!(boolean(eval("true == true;")));
    assert!(!boolean(eval("true == false;")));
}

#[test]
fn definition_then_lookup() {
    let mut context = ProgramContext::new();
    assert!(matches!(eval_in(&mut context, "var b = 123;"), Ok(Object::Nil)));
    assert_eq!(number(eval_in(&mut context, "b;")), 123.0);
    assert!(matches!(eval_in(&mut context, "var b = \"x\";"), Ok(Object::Nil)));
    match eval_in(&mut context, "b;") {
        Ok(Object::String(s)) => assert_eq!(s, "x"),
        other => panic!("{:?}", other),
    }
    assert!(matches!(eval_in(&mut context, "c;"), Err(Error::UndeclaredVariable)));
}

#[test]
fn print_collects_values() {
    let mut context: ProgramContext<F32> = ProgramContext::new();
    let mut out = Vec::new();
    assert_eq!(context.interpret("print 1 == 1;", &mut out), Ok(()));
    assert_eq!(out.len(), 1);
    assert!(matches!(out[0], Object::Boolean(true)));
    assert_eq!(format!("{:?}", out[0]), "Boolean(true)");
}

#[test]
fn mismatched_equality_is_a_type_error() {
    let mut context: ProgramContext<F32> = ProgramContext::new();
    let mut out = Vec::new();
    assert_eq!(context.interpret("print \"a\" == 1;", &mut out), Err(Error::TypeError));
    assert!(out.is_empty());
    assert!(matches!(eval("true == 1;"), Err(Error::TypeError)));
}

#[test]
fn negation_uses_truthiness() {
    assert!(!boolean(eval("!0;")));
    assert!(!boolean(eval("!1;")));
    assert!(!boolean(eval("!\"\";")));
    assert!(boolean(eval("!false;")));
    assert!(!boolean(eval("!true;")));
    assert!(boolean(eval("!!0;")));
}

#[test]
fn type_errors() {
    assert!(matches!(eval("-\"a\";"), Err(Error::TypeError)));
    assert!(matches!(eval("1 + \"a\";"), Err(Error::TypeError)));
    assert!(matches!(eval("true - 1;"), Err(Error::TypeError)));
    assert!(matches!(eval("\"a\" < \"b\";"), Err(Error::TypeError)));
}

#[test]
fn invalid_number_literal() {
    // U+0663 is a digit of another script: it starts a number token, but no
    // float reads it.
    assert!(matches!(eval("\u{663};"), Err(Error::InvalidNumberLiteral)));
}

#[test]
fn malformed_trees_are_internal_errors() {
    let mut context: ProgramContext<F32> = ProgramContext::new();
    let mut out = Vec::new();
    let empty = Statement::new();
    assert!(matches!(
        StatementInterpreter::new(&empty, "").interpret(&mut context, &mut out),
        Err(Error::InternalError)
    ));
    let forward = Statement {
        tree: vec![StatementNode::Expression(ExpressionNode::Grouping(0))],
        root_index: 0,
    };
    assert!(matches!(
        StatementInterpreter::new(&forward, "").interpret(&mut context, &mut out),
        Err(Error::InternalError)
    ));
    let semicolon = Statement {
        tree: vec![StatementNode::Expression(ExpressionNode::Literal(Literal {
            token: Token { kind: TokenKind::Semicolon, offset: 0, end: 1 },
        }))],
        root_index: 0,
    };
    assert!(matches!(
        StatementInterpreter::new(&semicolon, ";").interpret(&mut context, &mut out),
        Err(Error::InternalError)
    ));
}

#[test]
fn a_session_keeps_its_bindings() {
    let mut context: ProgramContext<F32> = ProgramContext::new();
    let mut out = Vec::new();
    assert_eq!(context.interpret("var a = 1; var b = a + 1;", &mut out), Ok(()));
    assert_eq!(context.interpret("print a + b; print \"done\";", &mut out), Ok(()));
    assert_eq!(out.len(), 2);
    assert!(matches!(out[0], Object::Number(F32(x)) if x == 3.0));
    assert!(matches!(&out[1], Object::String(s) if s == "done"));
    // The first statement runs before the second one fails.
    assert_eq!(context.interpret("var c = 5; print d;", &mut out), Err(Error::UndeclaredVariable));
    assert_eq!(context.interpret("print c;", &mut out), Ok(()));
    assert!(matches!(out[2], Object::Number(F32(x)) if x == 5.0));
    // A parse error runs nothing.
    assert_eq!(context.interpret("var e = 1; (", &mut out), Err(Error::UnexpectedToken));
    assert_eq!(context.interpret("e;", &mut out), Err(Error::UndeclaredVariable));
    assert_eq!(context.interpret("\"open", &mut out), Err(Error::UnterminatedString));
}

#[test]
fn context_bindings() {
    let mut context: ProgramContext<F32> = ProgramContext::new();
    assert!(matches!(context.lookup_variable("x"), Err(Error::UndeclaredVariable)));
    context.add_variable("x", &Object::Number(F32(2.0)));
    context.add_variable("x", &Object::Boolean(false));
    assert!(matches!(context.lookup_variable("x"), Ok(Object::Boolean(false))));
}

#[test]
fn value_coercions() {
    let n: Object<F32> = Object::Number(F32(4.0));
    let s: Object<F32> = Object::String("s".to_string());
    assert_eq!(n.number(), Ok(F32(4.0)));
    assert_eq!(s.number().unwrap_err(), Error::TypeError);
    assert!(n.boolean() && s.boolean() && Object::<F32>::Nil.boolean());
    assert!(!Object::<F32>::Boolean(false).boolean());
    assert_eq!(Object::<F32>::Nil.equals(&Object::Nil), Err(Error::TypeError));
    assert_eq!(s.equals(&s.duplicate()), Ok(true));
}
