use vstd::prelude::*;

use crate::error::Error;
use crate::lexer::lex;
use crate::lexer::lexeme;
use crate::lexer::token::{spells, Token, TokenKind};
use crate::lexer::tokenize;
use crate::parser::tree::{
    Binary, ExpressionNode, Literal, Statement, StatementNode, Unary, VariableDefinition,
};
use crate::parser::{parse, parse_tokens, views};

verus! {

/// The numbers of the language. The host supplies them and their
/// arithmetic; evaluation is stated over what these operations return.
pub trait Number: Copy + Sized {
    /// The number that the text of a literal denotes, if any.
    fn parse_literal(text: &str) -> Option<Self>;

    fn add(self, other: Self) -> Self;

    fn subtract(self, other: Self) -> Self;

    fn multiply(self, other: Self) -> Self;

    fn divide(self, other: Self) -> Self;

    fn negate(self) -> Self;

    fn greater(self, other: Self) -> bool;

    fn greater_equal(self, other: Self) -> bool;

    fn less(self, other: Self) -> bool;

    fn less_equal(self, other: Self) -> bool;

    fn equals(self, other: Self) -> bool;
}

/// The host's arithmetic is a function of its arguments: each operation
/// gives equal results on equal arguments, and reading a literal depends on
/// its characters alone.
pub open spec fn functional<N: Number>() -> bool {
    &&& forall|t1: &str, t2: &str, a: Option<N>, b: Option<N>|
        t1@ == t2@ && #[trigger] call_ensures(N::parse_literal, (t1,), a) && #[trigger] call_ensures(
            N::parse_literal,
            (t2,),
            b,
        ) ==> a == b
    &&& forall|x: N, y: N, a: N, b: N|
        #[trigger] call_ensures(N::add, (x, y), a) && #[trigger] call_ensures(N::add, (x, y), b) ==> a == b
    &&& forall|x: N, y: N, a: N, b: N|
        #[trigger] call_ensures(N::subtract, (x, y), a) && #[trigger] call_ensures(N::subtract, (x, y), b) ==> a == b
    &&& forall|x: N, y: N, a: N, b: N|
        #[trigger] call_ensures(N::multiply, (x, y), a) && #[trigger] call_ensures(N::multiply, (x, y), b) ==> a == b
    &&& forall|x: N, y: N, a: N, b: N|
        #[trigger] call_ensures(N::divide, (x, y), a) && #[trigger] call_ensures(N::divide, (x, y), b) ==> a == b
    &&& forall|x: N, a: N, b: N|
        #[trigger] call_ensures(N::negate, (x,), a) && #[trigger] call_ensures(N::negate, (x,), b) ==> a == b
    &&& forall|x: N, y: N, a: bool, b: bool|
        #[trigger] call_ensures(N::greater, (x, y), a) && #[trigger] call_ensures(N::greater, (x, y), b) ==> a == b
    &&& forall|x: N, y: N, a: bool, b: bool|
        #[trigger] call_ensures(N::greater_equal, (x, y), a) && #[trigger] call_ensures(N::greater_equal, (x, y), b) ==> a == b
    &&& forall|x: N, y: N, a: bool, b: bool|
        #[trigger] call_ensures(N::less, (x, y), a) && #[trigger] call_ensures(N::less, (x, y), b) ==> a == b
    &&& forall|x: N, y: N, a: bool, b: bool|
        #[trigger] call_ensures(N::less_equal, (x, y), a) && #[trigger] call_ensures(N::less_equal, (x, y), b) ==> a == b
    &&& forall|x: N, y: N, a: bool, b: bool|
        #[trigger] call_ensures(N::equals, (x, y), a) && #[trigger] call_ensures(N::equals, (x, y), b) ==> a == b
}

/// Reading some text with these characters gives `o`.
pub open spec fn reads_as<N: Number>(text: Seq<char>, o: Option<N>) -> bool {
    exists|t: &str| t@ == text && #[trigger] call_ensures(N::parse_literal, (t,), o)
}

/// The number that the host reads from a literal's text.
pub open spec fn denoted<N: Number>(text: Seq<char>) -> Option<N> {
    choose|o: Option<N>| reads_as::<N>(text, o)
}

pub open spec fn sum<N: Number>(x: N, y: N) -> N {
    choose|z: N| call_ensures(N::add, (x, y), z)
}

pub open spec fn difference<N: Number>(x: N, y: N) -> N {
    choose|z: N| call_ensures(N::subtract, (x, y), z)
}

pub open spec fn product<N: Number>(x: N, y: N) -> N {
    choose|z: N| call_ensures(N::multiply, (x, y), z)
}

pub open spec fn quotient<N: Number>(x: N, y: N) -> N {
    choose|z: N| call_ensures(N::divide, (x, y), z)
}

pub open spec fn negation<N: Number>(x: N) -> N {
    choose|z: N| call_ensures(N::negate, (x,), z)
}

pub open spec fn is_greater<N: Number>(x: N, y: N) -> bool {
    choose|z: bool| call_ensures(N::greater, (x, y), z)
}

pub open spec fn is_greater_equal<N: Number>(x: N, y: N) -> bool {
    choose|z: bool| call_ensures(N::greater_equal, (x, y), z)
}

pub open spec fn is_less<N: Number>(x: N, y: N) -> bool {
    choose|z: bool| call_ensures(N::less, (x, y), z)
}

pub open spec fn is_less_equal<N: Number>(x: N, y: N) -> bool {
    choose|z: bool| call_ensures(N::less_equal, (x, y), z)
}

pub open spec fn is_same<N: Number>(x: N, y: N) -> bool {
    choose|z: bool| call_ensures(N::equals, (x, y), z)
}

/// A runtime value.
#[derive(Debug)]
pub enum Object<N> {
    String(String),
    Boolean(bool),
    Number(N),
    /// What a definition or a print statement yields.
    Nil,
}

/// The mathematical content of a runtime value.
pub enum Value<N> {
    Str(Seq<char>),
    Bool(bool),
    Num(N),
    Nil,
}

impl<N> View for Object<N> {
    type V = Value<N>;

    open spec fn view(&self) -> Value<N> {
        match self {
            Object::String(s) => Value::Str(s@),
            Object::Boolean(b) => Value::Bool(*b),
            Object::Number(n) => Value::Num(*n),
            Object::Nil => Value::Nil,
        }
    }
}

/// Truthiness: a Boolean is its own truth value, every other value is true.
pub open spec fn truthy<N>(v: Value<N>) -> bool {
    match v {
        Value::Bool(b) => b,
        _ => true,
    }
}

/// Equality of two values of the same comparable variant; a type error
/// otherwise.
pub open spec fn equal_values<N: Number>(a: Value<N>, b: Value<N>) -> Result<bool, Error> {
    match (a, b) {
        (Value::Num(x), Value::Num(y)) => Ok(is_same::<N>(x, y)),
        (Value::Str(x), Value::Str(y)) => Ok(x == y),
        (Value::Bool(x), Value::Bool(y)) => Ok(x == y),
        _ => Err(Error::TypeError),
    }
}

impl<N: Number> Object<N> {
    /// A copy of the value.
    pub fn duplicate(&self) -> (r: Self)
        ensures
            r@ == self@,
    {
        match self {
            Object::String(s) => Object::String(s.clone()),
            Object::Boolean(b) => Object::Boolean(*b),
            Object::Number(n) => Object::Number(*n),
            Object::Nil => Object::Nil,
        }
    }

    /// Numeric coercion: the number of a Number, a type error for the rest.
    pub fn number(&self) -> (r: Result<N, Error>)
        ensures
            match self@ {
                Value::Num(n) => r == Ok::<N, Error>(n),
                _ => r == Err::<N, Error>(Error::TypeError),
            },
    {
        match self {
            Object::Number(value) => Ok(*value),
            _ => Err(Error::TypeError),
        }
    }

    /// Truthiness coercion.
    pub fn boolean(&self) -> (r: bool)
        ensures
            r == truthy(self@),
    {
        match self {
            Object::Boolean(value) => *value,
            _ => true,
        }
    }

    /// Equality of two values of the same variant; a type error across
    /// variants or between two `Nil`s.
    pub fn equals(&self, rhs: &Object<N>) -> (r: Result<bool, Error>)
        ensures
            !(self@ is Num && rhs@ is Num) ==> r == equal_values(self@, rhs@),
            functional::<N>() ==> r == equal_values(self@, rhs@),
    {
        match (self, rhs) {
            (Object::Number(lhs), Object::Number(rhs)) => Ok(lhs.equals(*rhs)),
            (Object::String(lhs), Object::String(rhs)) => Ok(spells(lhs.as_str(), rhs.as_str())),
            (Object::Boolean(lhs), Object::Boolean(rhs)) => Ok(*lhs == *rhs),
            _ => Err(Error::TypeError),
        }
    }
}

pub open spec fn values<N>(objects: Seq<Object<N>>) -> Seq<Value<N>> {
    objects.map_values(|o: Object<N>| o@)
}

/// The view of an exec result.
pub open spec fn result_view<N>(r: Result<Object<N>, Error>) -> Result<Value<N>, Error> {
    match r {
        Ok(o) => Ok(o@),
        Err(e) => Err(e),
    }
}

/// The bindings of a frame's entries: a later entry overrides an earlier one.
pub open spec fn bindings<N>(vs: Seq<(String, Object<N>)>) -> Map<Seq<char>, Value<N>>
    decreases vs.len(),
{
    if vs.len() == 0 {
        Map::empty()
    } else {
        bindings(vs.drop_last()).insert(vs.last().0@, vs.last().1@)
    }
}

pub open spec fn keys_unique<N>(vs: Seq<(String, Object<N>)>) -> bool {
    forall|i: int, j: int| 0 <= i < j < vs.len() ==> #[trigger] vs[i].0@ != #[trigger] vs[j].0@
}

proof fn lemma_bound<N>(vs: Seq<(String, Object<N>)>, i: int)
    requires
        keys_unique(vs),
        0 <= i < vs.len(),
    ensures
        bindings(vs).contains_key(vs[i].0@),
        bindings(vs)[vs[i].0@] == vs[i].1@,
    decreases vs.len(),
{
    if i < vs.len() - 1 {
        assert(vs.drop_last()[i] == vs[i]);
        lemma_bound(vs.drop_last(), i);
        assert(vs[i].0@ != vs[vs.len() - 1].0@);
    }
}

proof fn lemma_unbound<N>(vs: Seq<(String, Object<N>)>, k: Seq<char>)
    requires
        forall|i: int| 0 <= i < vs.len() ==> #[trigger] vs[i].0@ != k,
    ensures
        !bindings(vs).contains_key(k),
    decreases vs.len(),
{
    if vs.len() > 0 {
        assert forall|i: int| 0 <= i < vs.drop_last().len() implies #[trigger] vs.drop_last()[i].0@ != k by {
            assert(vs.drop_last()[i] == vs[i]);
        }
        lemma_unbound(vs.drop_last(), k);
        assert(vs[vs.len() - 1].0@ != k);
    }
}

proof fn lemma_rebind<N>(vs: Seq<(String, Object<N>)>, i: int, key: String, v: Object<N>)
    requires
        keys_unique(vs),
        0 <= i < vs.len(),
        vs[i].0@ == key@,
    ensures
        bindings(vs.update(i, (key, v))) == bindings(vs).insert(key@, v@),
    decreases vs.len(),
{
    let ws = vs.update(i, (key, v));
    if i == vs.len() - 1 {
        assert(ws.drop_last() =~= vs.drop_last());
        assert(bindings(ws) =~= bindings(vs).insert(key@, v@));
    } else {
        assert(ws.drop_last() =~= vs.drop_last().update(i, (key, v)));
        assert(vs.drop_last()[i] == vs[i]);
        assert forall|a: int, b: int| 0 <= a < b < vs.drop_last().len() implies #[trigger] vs.drop_last()[a].0@
            != #[trigger] vs.drop_last()[b].0@ by {
            assert(vs.drop_last()[a] == vs[a]);
            assert(vs.drop_last()[b] == vs[b]);
        }
        lemma_rebind(vs.drop_last(), i, key, v);
        assert(vs[i].0@ != vs[vs.len() - 1].0@);
        assert(bindings(ws) =~= bindings(vs).insert(key@, v@));
    }
}

/// One scope's bindings, each name at most once.
struct Frame<N> {
    pub variables: Vec<(String, Object<N>)>,
}

impl<N: Number> Frame<N> {
    spec fn wf(&self) -> bool {
        keys_unique(self.variables@)
    }

    spec fn bound(&self) -> Map<Seq<char>, Value<N>> {
        bindings(self.variables@)
    }

    /// The entry that binds `name`, if any.
    fn find(&self, name: &str) -> (r: Option<usize>)
        requires
            self.wf(),
        ensures
            match r {
                Some(i) => i < self.variables@.len() && self.variables@[i as int].0@ == name@,
                None => forall|i: int| 0 <= i < self.variables@.len() ==> #[trigger] self.variables@[i].0@ != name@,
            },
    {
        let mut i: usize = 0;
        while i < self.variables.len()
            invariant
                i <= self.variables@.len(),
                forall|j: int| 0 <= j < i ==> #[trigger] self.variables@[j].0@ != name@,
            decreases self.variables@.len() - i,
        {
            if spells(self.variables[i].0.as_str(), name) {
                return Some(i);
            }
            i += 1;
        }
        None
    }

    fn insert(&mut self, name: &str, value: Object<N>)
        requires
            old(self).wf(),
        ensures
            final(self).wf(),
            final(self).bound() == old(self).bound().insert(name@, value@),
    {
        let key = String::from_str(name);
        match self.find(name) {
            Some(i) => {
                proof {
                    lemma_rebind(self.variables@, i as int, key, value);
                }
                self.variables.set(i, (key, value));
                assert forall|a: int, b: int| 0 <= a < b < self.variables@.len() implies #[trigger] self.variables@[a].0@
                    != #[trigger] self.variables@[b].0@ by {
                    assert(old(self).variables@[a].0@ != old(self).variables@[b].0@);
                }
            },
            None => {
                self.variables.push((key, value));
                assert(self.variables@.drop_last() =~= old(self).variables@);
            },
        }
    }

    fn get(&self, name: &str) -> (r: Option<Object<N>>)
        requires
            self.wf(),
        ensures
            match r {
                Some(v) => self.bound().contains_key(name@) && self.bound()[name@] == v@,
                None => !self.bound().contains_key(name@),
            },
    {
        match self.find(name) {
            Some(i) => {
                proof {
                    lemma_bound(self.variables@, i as int);
                }
                Some(self.variables[i].1.duplicate())
            },
            None => {
                proof {
                    lemma_unbound(self.variables@, name@);
                }
                None
            },
        }
    }
}

/// The state that lasts across inputs: a stack of frames, of which the last
/// one is current. One frame is made at construction; nothing in the grammar
/// pushes or pops another yet.
pub struct ProgramContext<N> {
    stack_frames: Vec<Frame<N>>,
}

impl<N: Number> Default for ProgramContext<N> {
    fn default() -> (r: Self)
        ensures
            r.wf(),
            r.frames() == seq![Map::<Seq<char>, Value<N>>::empty()],
    {
        Self::new()
    }
}

impl<N: Number> ProgramContext<N> {
    pub closed spec fn wf(&self) -> bool {
        &&& self.stack_frames@.len() > 0
        &&& forall|i: int| 0 <= i < self.stack_frames@.len() ==> #[trigger] self.stack_frames@[i].wf()
    }

    /// The bindings of each frame, outermost first.
    pub closed spec fn frames(&self) -> Seq<Map<Seq<char>, Value<N>>> {
        self.stack_frames@.map_values(|f: Frame<N>| f.bound())
    }

    /// A well-formed context has at least one frame.
    pub proof fn lemma_has_frame(&self)
        requires
            self.wf(),
        ensures
            self.frames().len() > 0,
    {
    }

    /// The bindings of the current frame.
    pub open spec fn variables(&self) -> Map<Seq<char>, Value<N>> {
        self.frames().last()
    }

    pub fn new() -> (r: Self)
        ensures
            r.wf(),
            r.frames() == seq![Map::<Seq<char>, Value<N>>::empty()],
    {
        let frame = Frame { variables: Vec::new() };
        let r = Self { stack_frames: vec![frame] };
        assert(r.frames() =~= seq![Map::<Seq<char>, Value<N>>::empty()]);
        r
    }

    /// Binds `name` to a copy of `value` in the current frame.
    pub fn add_variable(&mut self, name: &str, value: &Object<N>)
        requires
            old(self).wf(),
        ensures
            final(self).wf(),
            final(self).frames().len() == old(self).frames().len(),
            final(self).frames() == old(self).frames().drop_last().push(
                old(self).variables().insert(name@, value@),
            ),
    {
        let mut frame = self.stack_frames.pop().unwrap();
        frame.insert(name, value.duplicate());
        self.stack_frames.push(frame);
        proof {
            assert(self.stack_frames@.drop_last() =~= old(self).stack_frames@.drop_last());
            assert(self.frames() =~= old(self).frames().drop_last().push(
                old(self).variables().insert(name@, value@),
            ));
            assert forall|i: int| 0 <= i < self.stack_frames@.len() implies #[trigger] self.stack_frames@[i].wf() by {
                if i < self.stack_frames@.len() - 1 {
                    assert(self.stack_frames@[i] == old(self).stack_frames@[i]);
                }
            }
        }
    }

    /// The value bound to `name` in the current frame.
    pub fn lookup_variable(&self, name: &str) -> (r: Result<Object<N>, Error>)
        requires
            self.wf(),
        ensures
            self.variables().contains_key(name@) ==> (r matches Ok(v) && v@ == self.variables()[name@]),
            !self.variables().contains_key(name@) ==> r == Err::<Object<N>, Error>(Error::UndeclaredVariable),
    {
        let last = self.stack_frames.len() - 1;
        match self.stack_frames[last].get(name) {
            Some(v) => Ok(v),
            None => Err(Error::UndeclaredVariable),
        }
    }
}


/// The text of a token's span.
pub open spec fn text_of(src: Seq<char>, t: Token) -> Seq<char> {
    src.subrange(t.offset as int, t.end as int)
}

pub open spec fn span_ok(src: Seq<char>, t: Token) -> bool {
    t.offset <= t.end <= src.len()
}

/// The value of a literal token: a string without its quotes, the number
/// that the host reads from the text, or a boolean.
pub open spec fn literal_result<N: Number>(src: Seq<char>, t: Token) -> Result<Value<N>, Error> {
    if t.kind == TokenKind::String {
        if t.offset + 2 <= t.end && t.end <= src.len() {
            Ok(Value::Str(src.subrange(t.offset + 1, t.end - 1)))
        } else {
            Err(Error::InternalError)
        }
    } else if t.kind == TokenKind::Number {
        if span_ok(src, t) {
            match denoted::<N>(text_of(src, t)) {
                Some(x) => Ok(Value::Num(x)),
                None => Err(Error::InvalidNumberLiteral),
            }
        } else {
            Err(Error::InternalError)
        }
    } else if t.kind == TokenKind::True {
        Ok(Value::Bool(true))
    } else if t.kind == TokenKind::False {
        Ok(Value::Bool(false))
    } else {
        Err(Error::InternalError)
    }
}

/// The value of a unary operator on `v`.
pub open spec fn unary_result<N: Number>(op: TokenKind, v: Value<N>) -> Result<Value<N>, Error> {
    if op == TokenKind::Minus {
        match v {
            Value::Num(a) => Ok(Value::Num(negation::<N>(a))),
            _ => Err(Error::TypeError),
        }
    } else if op == TokenKind::Bang {
        Ok(Value::Bool(!truthy(v)))
    } else {
        Err(Error::InternalError)
    }
}

/// The value of `+`: concatenation of two strings, or the sum of two numbers.
pub open spec fn addition_result<N: Number>(a: Value<N>, b: Value<N>) -> Result<Value<N>, Error> {
    match (a, b) {
        (Value::Str(x), Value::Str(y)) => Ok(Value::Str(x + y)),
        (Value::Num(x), Value::Num(y)) => Ok(Value::Num(sum::<N>(x, y))),
        _ => Err(Error::TypeError),
    }
}

/// The value of an operator that takes two numbers.
pub open spec fn numeric_result<N: Number>(op: TokenKind, x: N, y: N) -> Value<N> {
    if op == TokenKind::Greater {
        Value::Bool(is_greater::<N>(x, y))
    } else if op == TokenKind::GreaterEqual {
        Value::Bool(is_greater_equal::<N>(x, y))
    } else if op == TokenKind::Less {
        Value::Bool(is_less::<N>(x, y))
    } else if op == TokenKind::LessEqual {
        Value::Bool(is_less_equal::<N>(x, y))
    } else if op == TokenKind::Minus {
        Value::Num(difference::<N>(x, y))
    } else if op == TokenKind::Slash {
        Value::Num(quotient::<N>(x, y))
    } else {
        Value::Num(product::<N>(x, y))
    }
}

pub open spec fn numeric_operator(op: TokenKind) -> bool {
    op == TokenKind::Greater || op == TokenKind::GreaterEqual || op == TokenKind::Less || op
        == TokenKind::LessEqual || op == TokenKind::Minus || op == TokenKind::Slash || op
        == TokenKind::Star
}

/// The value of a binary operator on `a` and `b`.
pub open spec fn binary_result<N: Number>(op: TokenKind, a: Value<N>, b: Value<N>) -> Result<Value<N>, Error> {
    if op == TokenKind::Plus {
        addition_result(a, b)
    } else if op == TokenKind::EqualEqual || op == TokenKind::BangEqual {
        match equal_values(a, b) {
            Ok(same) => Ok(Value::Bool(same != (op == TokenKind::BangEqual))),
            Err(e) => Err(e),
        }
    } else if numeric_operator(op) {
        match (a, b) {
            (Value::Num(x), Value::Num(y)) => Ok(numeric_result(op, x, y)),
            _ => Err(Error::TypeError),
        }
    } else {
        Err(Error::InternalError)
    }
}

/// The value of the expression node at `i` under bindings `env`: children
/// first, left before right, and the first error wins. A child index that
/// is not below its parent's is an internal error.
pub open spec fn eval<N: Number>(
    nodes: Seq<StatementNode>,
    i: int,
    src: Seq<char>,
    env: Map<Seq<char>, Value<N>>,
) -> Result<Value<N>, Error>
    decreases i,
{
    if i < 0 || i >= nodes.len() {
        Err(Error::InternalError)
    } else {
        match nodes[i] {
            StatementNode::Expression(ExpressionNode::Literal(l)) => literal_result(src, l.token),
            StatementNode::Expression(ExpressionNode::Grouping(j)) => {
                if j < i {
                    eval(nodes, j as int, src, env)
                } else {
                    Err(Error::InternalError)
                }
            },
            StatementNode::Expression(ExpressionNode::Unary(u)) => {
                if u.right < i {
                    match eval(nodes, u.right as int, src, env) {
                        Err(e) => Err(e),
                        Ok(v) => unary_result(u.operator.kind, v),
                    }
                } else {
                    Err(Error::InternalError)
                }
            },
            StatementNode::Expression(ExpressionNode::Binary(b)) => {
                if b.left < i && b.right < i {
                    match eval(nodes, b.left as int, src, env) {
                        Err(e) => Err(e),
                        Ok(v) => match eval(nodes, b.right as int, src, env) {
                            Err(e) => Err(e),
                            Ok(w) => binary_result(b.operator.kind, v, w),
                        },
                    }
                } else {
                    Err(Error::InternalError)
                }
            },
            StatementNode::Expression(ExpressionNode::Variable(t)) => {
                if !span_ok(src, t) {
                    Err(Error::InternalError)
                } else if env.contains_key(text_of(src, t)) {
                    Ok(env[text_of(src, t)])
                } else {
                    Err(Error::UndeclaredVariable)
                }
            },
            _ => Err(Error::InternalError),
        }
    }
}

/// Whether applying `op` to `a` and `b` calls the host's arithmetic.
pub open spec fn binary_calls_host<N>(op: TokenKind, a: Value<N>, b: Value<N>) -> bool {
    a is Num && b is Num && (op == TokenKind::Plus || op == TokenKind::EqualEqual || op
        == TokenKind::BangEqual || numeric_operator(op))
}

/// Whether evaluating the node at `i` calls the host: to read a number
/// literal, or to apply an operator to numbers. Where it does not, the
/// value of the node does not depend on the host at all.
pub open spec fn calls_host<N: Number>(
    nodes: Seq<StatementNode>,
    i: int,
    src: Seq<char>,
    env: Map<Seq<char>, Value<N>>,
) -> bool
    decreases i,
{
    if i < 0 || i >= nodes.len() {
        false
    } else {
        match nodes[i] {
            StatementNode::Expression(ExpressionNode::Literal(l)) => l.token.kind == TokenKind::Number
                && span_ok(src, l.token),
            StatementNode::Expression(ExpressionNode::Grouping(j)) => j < i && calls_host(
                nodes,
                j as int,
                src,
                env,
            ),
            StatementNode::Expression(ExpressionNode::Unary(u)) => u.right < i && (calls_host(
                nodes,
                u.right as int,
                src,
                env,
            ) || (u.operator.kind == TokenKind::Minus && eval(nodes, u.right as int, src, env) matches Ok(
                Value::Num(_),
            ))),
            StatementNode::Expression(ExpressionNode::Binary(b)) => b.left < i && b.right < i && (
            calls_host(nodes, b.left as int, src, env) || (eval(nodes, b.left as int, src, env) is Ok
                && (calls_host(nodes, b.right as int, src, env) || (eval(
                nodes,
                b.right as int,
                src,
                env,
            ) is Ok && binary_calls_host(
                b.operator.kind,
                eval(nodes, b.left as int, src, env)->Ok_0,
                eval(nodes, b.right as int, src, env)->Ok_0,
            ))))),
            _ => false,
        }
    }
}

/// Whether running the statement calls the host.
pub open spec fn execute_calls_host<N: Number>(
    nodes: Seq<StatementNode>,
    root: int,
    src: Seq<char>,
    env: Map<Seq<char>, Value<N>>,
) -> bool {
    if root < 0 || root >= nodes.len() {
        false
    } else {
        match nodes[root] {
            StatementNode::VariableDefinition(d) => d.expression < root && span_ok(src, d.identifier)
                && calls_host(nodes, d.expression as int, src, env),
            StatementNode::Print(j) => j < root && calls_host(nodes, j as int, src, env),
            StatementNode::Expression(_) => calls_host(nodes, root, src, env),
        }
    }
}

/// Whether running the first `k` statements calls the host.
pub open spec fn run_calls_host<N: Number>(
    stmts: Seq<(Seq<StatementNode>, int)>,
    k: int,
    src: Seq<char>,
    env: Map<Seq<char>, Value<N>>,
) -> bool
    decreases k,
{
    if k <= 0 {
        false
    } else {
        run_calls_host(stmts, k - 1, src, env) || (run(stmts, k - 1, src, env).0 is Ok
            && execute_calls_host(
            stmts[k - 1].0,
            stmts[k - 1].1,
            src,
            run(stmts, k - 1, src, env).1,
        ))
    }
}

/// Whether tokenizing, parsing and running a source text calls the host.
pub open spec fn interpret_calls_host<N: Number>(src: Seq<char>, env: Map<Seq<char>, Value<N>>) -> bool {
    match lex(src) {
        Err(_) => false,
        Ok(ts) => match parse_tokens(ts) {
            Err(_) => false,
            Ok(stmts) => run_calls_host(stmts, stmts.len() as int, src, env),
        },
    }
}

/// Running one statement from bindings `env`: its result, the bindings it
/// leaves, and the values it prints.
pub open spec fn execute<N: Number>(
    nodes: Seq<StatementNode>,
    root: int,
    src: Seq<char>,
    env: Map<Seq<char>, Value<N>>,
) -> (Result<Value<N>, Error>, Map<Seq<char>, Value<N>>, Seq<Value<N>>) {
    if root < 0 || root >= nodes.len() {
        (Err(Error::InternalError), env, seq![])
    } else {
        match nodes[root] {
            StatementNode::VariableDefinition(d) => {
                if d.expression >= root || !span_ok(src, d.identifier) {
                    (Err(Error::InternalError), env, seq![])
                } else {
                    match eval(nodes, d.expression as int, src, env) {
                        Err(e) => (Err(e), env, seq![]),
                        Ok(v) => (Ok(Value::Nil), env.insert(text_of(src, d.identifier), v), seq![]),
                    }
                }
            },
            StatementNode::Print(j) => {
                if j >= root {
                    (Err(Error::InternalError), env, seq![])
                } else {
                    match eval(nodes, j as int, src, env) {
                        Err(e) => (Err(e), env, seq![]),
                        Ok(v) => (Ok(Value::Nil), env, seq![v]),
                    }
                }
            },
            StatementNode::Expression(_) => (eval(nodes, root, src, env), env, seq![]),
        }
    }
}

/// Running the first `k` statements in order, stopping at the first error.
pub open spec fn run<N: Number>(
    stmts: Seq<(Seq<StatementNode>, int)>,
    k: int,
    src: Seq<char>,
    env: Map<Seq<char>, Value<N>>,
) -> (Result<(), Error>, Map<Seq<char>, Value<N>>, Seq<Value<N>>)
    decreases k,
{
    if k <= 0 {
        (Ok(()), env, seq![])
    } else {
        let (r0, env0, printed0) = run(stmts, k - 1, src, env);
        if r0 is Err {
            (r0, env0, printed0)
        } else {
            let (r1, env1, printed1) = execute(stmts[k - 1].0, stmts[k - 1].1, src, env0);
            (
                match r1 {
                    Ok(_) => Ok(()),
                    Err(e) => Err(e),
                },
                env1,
                printed0 + printed1,
            )
        }
    }
}

/// Tokenizing, parsing and running a whole source text from bindings `env`.
pub open spec fn interpret_source<N: Number>(src: Seq<char>, env: Map<Seq<char>, Value<N>>) -> (
    Result<(), Error>,
    Map<Seq<char>, Value<N>>,
    Seq<Value<N>>,
) {
    match lex(src) {
        Err(e) => (Err(e), env, seq![]),
        Ok(ts) => match parse_tokens(ts) {
            Err(e) => (Err(e), env, seq![]),
            Ok(stmts) => run(stmts, stmts.len() as int, src, env),
        },
    }
}

/// Evaluates one statement against a program context.
pub struct StatementInterpreter<'a> {
    tree: &'a Statement,
    source: &'a str,
}

impl<'a> StatementInterpreter<'a> {
    pub closed spec fn nodes(&self) -> Seq<StatementNode> {
        self.tree.tree@
    }

    pub closed spec fn root(&self) -> int {
        self.tree.root_index as int
    }

    pub closed spec fn text(&self) -> Seq<char> {
        self.source@
    }

    pub fn new(tree: &'a Statement, source: &'a str) -> (r: StatementInterpreter<'a>)
        ensures
            r.nodes() == tree.tree@,
            r.root() == tree.root_index,
            r.text() == source@,
    {
        StatementInterpreter { tree, source }
    }

    /// Runs the statement: binds a name, prints into `out`, or evaluates.
    pub fn interpret<N: Number>(
        &self,
        context: &mut ProgramContext<N>,
        out: &mut Vec<Object<N>>,
    ) -> (r: Result<Object<N>, Error>)
        requires
            old(context).wf(),
        ensures
            final(context).wf(),
            final(context).frames().len() == old(context).frames().len(),
            functional::<N>() || !execute_calls_host(self.nodes(), self.root(), self.text(), old(context).variables()) ==> ({
                let (r2, env2, printed) = execute(
                    self.nodes(),
                    self.root(),
                    self.text(),
                    old(context).variables(),
                );
                &&& result_view(r) == r2
                &&& final(context).frames() == old(context).frames().drop_last().push(env2)
                &&& values(final(out)@) == values(old(out)@) + printed
            }),
    {
        proof {
            assert(old(context).frames() =~= old(context).frames().drop_last().push(old(context).variables()));
            assert(values(old(out)@) =~= values(old(out)@) + Seq::<Value<N>>::empty());
        }
        let root = self.tree.root_index;
        if root >= self.tree.tree.len() {
            return Err(Error::InternalError);
        }
        let node = self.tree.tree[root];
        match node {
            StatementNode::VariableDefinition(d) => self.handle_variable_definition_statement(context, root, &d),
            StatementNode::Print(j) => self.handle_print_statement(context, out, root, j),
            StatementNode::Expression(_) => self.evaluate(context, root),
        }
    }

    /// Evaluates the expression node at `index`.
    fn evaluate<N: Number>(&self, context: &ProgramContext<N>, index: usize) -> (r: Result<Object<N>, Error>)
        requires
            context.wf(),
        ensures
            functional::<N>() || !calls_host(self.nodes(), index as int, self.text(), context.variables())
                ==> result_view(r) == eval(self.nodes(), index as int, self.text(), context.variables()),
        decreases index, 1nat,
    {
        if index >= self.tree.tree.len() {
            return Err(Error::InternalError);
        }
        let node = self.tree.tree[index];
        match node {
            StatementNode::Expression(ExpressionNode::Literal(l)) => self.handle_literal_expression(&l),
            StatementNode::Expression(ExpressionNode::Binary(b)) => self.handle_binary_expression(context, index, &b),
            StatementNode::Expression(ExpressionNode::Grouping(j)) => self.handle_grouping_expression(context, index, j),
            StatementNode::Expression(ExpressionNode::Unary(u)) => self.handle_unary_expression(context, index, &u),
            StatementNode::Expression(ExpressionNode::Variable(t)) => self.handle_variable_expression(context, &t),
            _ => Err(Error::InternalError),
        }
    }

    /// The text of a token's span.
    fn get_token_value(&self, token: &Token) -> (r: Result<&'a str, Error>)
        ensures
            span_ok(self.text(), *token) ==> (r matches Ok(t) && t@ == text_of(self.text(), *token)),
            !span_ok(self.text(), *token) ==> r == Err::<&'a str, Error>(Error::InternalError),
    {
        if token.offset <= token.end && token.end <= self.source.unicode_len() {
            Ok(lexeme(self.source, token))
        } else {
            Err(Error::InternalError)
        }
    }

    /// The text of a string literal's span without its two quotes.
    fn get_token_string_value(&self, token: &Token) -> (r: Result<&'a str, Error>)
        ensures
            (token.offset + 2 <= token.end && token.end <= self.text().len()) ==> (r matches Ok(t) && t@
                == self.text().subrange(token.offset + 1, token.end - 1)),
            !(token.offset + 2 <= token.end && token.end <= self.text().len()) ==> r == Err::<&'a str, Error>(Error::InternalError),
    {
        if token.offset < token.end && token.end - token.offset >= 2 && token.end <= self.source.unicode_len() {
            Ok(self.source.substring_char(token.offset + 1, token.end - 1))
        } else {
            Err(Error::InternalError)
        }
    }

    fn evaluate_binary_addition<N: Number>(&self, left: &Object<N>, right: &Object<N>) -> (r: Result<Object<N>, Error>)
        ensures
            functional::<N>() || !(left@ is Num && right@ is Num) ==> result_view(r) == addition_result(left@, right@),
    {
        match (left, right) {
            (Object::String(lhs), Object::String(rhs)) => {
                let mut result = lhs.clone();
                result.append(rhs.as_str());
                Ok(Object::String(result))
            },
            (Object::Number(lhs), Object::Number(rhs)) => Ok(Object::Number(lhs.add(*rhs))),
            _ => Err(Error::TypeError),
        }
    }

    fn handle_literal_expression<N: Number>(&self, literal: &Literal) -> (r: Result<Object<N>, Error>)
        ensures
            functional::<N>() || !(literal.token.kind == TokenKind::Number && span_ok(self.text(), literal.token))
                ==> result_view(r) == literal_result::<N>(self.text(), literal.token),
    {
        if literal.token.kind == TokenKind::String {
            match self.get_token_string_value(&literal.token) {
                Ok(value) => Ok(Object::String(String::from_str(value))),
                Err(e) => Err(e),
            }
        } else if literal.token.kind == TokenKind::Number {
            match self.get_token_value(&literal.token) {
                Ok(value) => {
                    let parsed = N::parse_literal(value);
                    proof {
                        if functional::<N>() {
                            assert(reads_as::<N>(value@, parsed));
                            let o = denoted::<N>(value@);
                            let t = choose|t: &str| t@ == value@ && #[trigger] call_ensures(N::parse_literal, (t,), o);
                            assert(call_ensures(N::parse_literal, (t,), o));
                            assert(o == parsed);
                        }
                    }
                    match parsed {
                        Some(n) => Ok(Object::Number(n)),
                        None => Err(Error::InvalidNumberLiteral),
                    }
                },
                Err(e) => Err(e),
            }
        } else if literal.token.kind == TokenKind::True {
            Ok(Object::Boolean(true))
        } else if literal.token.kind == TokenKind::False {
            Ok(Object::Boolean(false))
        } else {
            Err(Error::InternalError)
        }
    }

    fn handle_binary_expression<N: Number>(
        &self,
        context: &ProgramContext<N>,
        index: usize,
        binary: &Binary,
    ) -> (r: Result<Object<N>, Error>)
        requires
            context.wf(),
            index < self.nodes().len(),
            self.nodes()[index as int] == StatementNode::Expression(ExpressionNode::Binary(*binary)),
        ensures
            functional::<N>() || !calls_host(self.nodes(), index as int, self.text(), context.variables())
                ==> result_view(r) == eval(self.nodes(), index as int, self.text(), context.variables()),
        decreases index, 0nat,
    {
        if binary.left >= index || binary.right >= index {
            return Err(Error::InternalError);
        }
        let left = match self.evaluate(context, binary.left) {
            Ok(v) => v,
            Err(e) => return Err(e),
        };
        let right = match self.evaluate(context, binary.right) {
            Ok(v) => v,
            Err(e) => return Err(e),
        };
        match binary.operator.kind {
            TokenKind::Plus => self.evaluate_binary_addition(&left, &right),
            TokenKind::Greater => match (left.number(), right.number()) {
                (Ok(x), Ok(y)) => Ok(Object::Boolean(x.greater(y))),
                _ => Err(Error::TypeError),
            },
            TokenKind::GreaterEqual => match (left.number(), right.number()) {
                (Ok(x), Ok(y)) => Ok(Object::Boolean(x.greater_equal(y))),
                _ => Err(Error::TypeError),
            },
            TokenKind::Less => match (left.number(), right.number()) {
                (Ok(x), Ok(y)) => Ok(Object::Boolean(x.less(y))),
                _ => Err(Error::TypeError),
            },
            TokenKind::LessEqual => match (left.number(), right.number()) {
                (Ok(x), Ok(y)) => Ok(Object::Boolean(x.less_equal(y))),
                _ => Err(Error::TypeError),
            },
            TokenKind::BangEqual => match left.equals(&right) {
                Ok(b) => Ok(Object::Boolean(!b)),
                Err(e) => Err(e),
            },
            TokenKind::EqualEqual => match left.equals(&right) {
                Ok(b) => Ok(Object::Boolean(b)),
                Err(e) => Err(e),
            },
            TokenKind::Minus => match (left.number(), right.number()) {
                (Ok(x), Ok(y)) => Ok(Object::Number(x.subtract(y))),
                _ => Err(Error::TypeError),
            },
            TokenKind::Slash => match (left.number(), right.number()) {
                (Ok(x), Ok(y)) => Ok(Object::Number(x.divide(y))),
                _ => Err(Error::TypeError),
            },
            TokenKind::Star => match (left.number(), right.number()) {
                (Ok(x), Ok(y)) => Ok(Object::Number(x.multiply(y))),
                _ => Err(Error::TypeError),
            },
            _ => Err(Error::InternalError),
        }
    }

    fn handle_grouping_expression<N: Number>(
        &self,
        context: &ProgramContext<N>,
        index: usize,
        inner: usize,
    ) -> (r: Result<Object<N>, Error>)
        requires
            context.wf(),
            index < self.nodes().len(),
            self.nodes()[index as int] == StatementNode::Expression(ExpressionNode::Grouping(inner)),
        ensures
            functional::<N>() || !calls_host(self.nodes(), index as int, self.text(), context.variables())
                ==> result_view(r) == eval(self.nodes(), index as int, self.text(), context.variables()),
        decreases index, 0nat,
    {
        if inner >= index {
            return Err(Error::InternalError);
        }
        self.evaluate(context, inner)
    }

    fn handle_unary_expression<N: Number>(
        &self,
        context: &ProgramContext<N>,
        index: usize,
        unary: &Unary,
    ) -> (r: Result<Object<N>, Error>)
        requires
            context.wf(),
            index < self.nodes().len(),
            self.nodes()[index as int] == StatementNode::Expression(ExpressionNode::Unary(*unary)),
        ensures
            functional::<N>() || !calls_host(self.nodes(), index as int, self.text(), context.variables())
                ==> result_view(r) == eval(self.nodes(), index as int, self.text(), context.variables()),
        decreases index, 0nat,
    {
        if unary.right >= index {
            return Err(Error::InternalError);
        }
        let right = match self.evaluate(context, unary.right) {
            Ok(v) => v,
            Err(e) => return Err(e),
        };
        match unary.operator.kind {
            TokenKind::Minus => match right.number() {
                Ok(n) => Ok(Object::Number(n.negate())),
                Err(e) => Err(e),
            },
            TokenKind::Bang => Ok(Object::Boolean(!right.boolean())),
            _ => Err(Error::InternalError),
        }
    }

    fn handle_variable_expression<N: Number>(&self, context: &ProgramContext<N>, variable: &Token) -> (r: Result<Object<N>, Error>)
        requires
            context.wf(),
        ensures
            result_view(r) == eval(
                seq![StatementNode::Expression(ExpressionNode::Variable(*variable))],
                0,
                self.text(),
                context.variables(),
            ),
    {
        match self.get_token_value(variable) {
            Ok(name) => context.lookup_variable(name),
            Err(e) => Err(e),
        }
    }

    fn handle_variable_definition_statement<N: Number>(
        &self,
        context: &mut ProgramContext<N>,
        index: usize,
        declaration: &VariableDefinition,
    ) -> (r: Result<Object<N>, Error>)
        requires
            old(context).wf(),
            index == self.root(),
            index < self.nodes().len(),
            self.nodes()[index as int] == StatementNode::VariableDefinition(*declaration),
        ensures
            final(context).wf(),
            final(context).frames().len() == old(context).frames().len(),
            functional::<N>() || !execute_calls_host(self.nodes(), self.root(), self.text(), old(context).variables()) ==> ({
                let (r2, env2, printed) = execute(
                    self.nodes(),
                    self.root(),
                    self.text(),
                    old(context).variables(),
                );
                &&& result_view(r) == r2
                &&& final(context).frames() == old(context).frames().drop_last().push(env2)
                &&& printed == Seq::<Value<N>>::empty()
            }),
    {
        proof {
            assert(old(context).frames() =~= old(context).frames().drop_last().push(old(context).variables()));
        }
        if declaration.expression >= index {
            return Err(Error::InternalError);
        }
        let name = match self.get_token_value(&declaration.identifier) {
            Ok(n) => n,
            Err(e) => return Err(e),
        };
        match self.evaluate(context, declaration.expression) {
            Ok(v) => {
                context.add_variable(name, &v);
                Ok(Object::Nil)
            },
            Err(e) => Err(e),
        }
    }

    fn handle_print_statement<N: Number>(
        &self,
        context: &mut ProgramContext<N>,
        out: &mut Vec<Object<N>>,
        index: usize,
        expression: usize,
    ) -> (r: Result<Object<N>, Error>)
        requires
            old(context).wf(),
            index == self.root(),
            index < self.nodes().len(),
            self.nodes()[index as int] == StatementNode::Print(expression),
        ensures
            *final(context) == *old(context),
            functional::<N>() || !execute_calls_host(self.nodes(), self.root(), self.text(), old(context).variables()) ==> ({
                let (r2, env2, printed) = execute(
                    self.nodes(),
                    self.root(),
                    self.text(),
                    old(context).variables(),
                );
                &&& result_view(r) == r2
                &&& env2 == old(context).variables()
                &&& values(final(out)@) == values(old(out)@) + printed
            }),
    {
        proof {
            assert(values(old(out)@) =~= values(old(out)@) + Seq::<Value<N>>::empty());
        }
        if expression >= index {
            return Err(Error::InternalError);
        }
        match self.evaluate(context, expression) {
            Ok(v) => {
                let ghost printed = seq![v@];
                out.push(v);
                assert(values(out@) =~= values(old(out)@) + printed);
                Ok(Object::Nil)
            },
            Err(e) => Err(e),
        }
    }
}

impl<N: Number> ProgramContext<N> {
    /// Tokenizes, parses and runs `source` statement by statement, appending
    /// what each print statement prints to `out`. Parsing completes before
    /// anything runs; a statement that fails stops the run, and the effects
    /// of the statements before it stay.
    pub fn interpret(&mut self, source: &str, out: &mut Vec<Object<N>>) -> (r: Result<(), Error>)
        requires
            old(self).wf(),
        ensures
            final(self).wf(),
            final(self).frames().len() == old(self).frames().len(),
            match lex(source@) {
                Err(e) => r == Err::<(), Error>(e) && *final(self) == *old(self) && final(out)@ == old(out)@,
                Ok(ts) => match parse_tokens(ts) {
                    Err(e) => r == Err::<(), Error>(e) && *final(self) == *old(self) && final(out)@ == old(out)@,
                    Ok(_) => true,
                },
            },
            functional::<N>() || !interpret_calls_host(source@, old(self).variables()) ==> ({
                let (r2, env2, printed) = interpret_source(source@, old(self).variables());
                &&& r == r2
                &&& final(self).frames() == old(self).frames().drop_last().push(env2)
                &&& values(final(out)@) == values(old(out)@) + printed
            }),
    {
        proof {
            assert(old(self).frames() =~= old(self).frames().drop_last().push(old(self).variables()));
            assert(values(old(out)@) =~= values(old(out)@) + Seq::<Value<N>>::empty());
        }
        let tokens = match tokenize(source) {
            Ok(t) => t,
            Err(e) => return Err(e),
        };
        let statements = match parse(tokens) {
            Ok(s) => s,
            Err(e) => return Err(e),
        };
        let ghost stmts = views(statements@);
        let ghost env0 = old(self).variables();
        let ghost out0 = values(old(out)@);
        let mut i: usize = 0;
        while i < statements.len()
            invariant
                self.wf(),
                self.frames().len() == old(self).frames().len(),
                i <= statements@.len(),
                stmts == views(statements@),
                stmts.len() == statements@.len(),
                env0 == old(self).variables(),
                out0 == values(old(out)@),
                functional::<N>() || !run_calls_host(stmts, i as int, source@, env0) ==> {
                    &&& run(stmts, i as int, source@, env0).0 == Ok::<(), Error>(())
                    &&& self.frames() == old(self).frames().drop_last().push(run(stmts, i as int, source@, env0).1)
                    &&& values(out@) == out0 + run(stmts, i as int, source@, env0).2
                },
                parse_tokens(lex(source@)->Ok_0) == Ok::<Seq<(Seq<StatementNode>, int)>, Error>(stmts),
                lex(source@) is Ok,
            decreases statements@.len() - i,
        {
            let ghost before = run(stmts, i as int, source@, env0);
            let ghost out_before = values(out@);
            let interpreter = StatementInterpreter::new(&statements[i], source);
            let result = interpreter.interpret(self, out);
            proof {
                if functional::<N>() || !run_calls_host(stmts, i + 1, source@, env0) {
                    assert(stmts[i as int] == statements@[i as int].view_pair());
                    assert(self.frames().drop_last() =~= old(self).frames().drop_last());
                    assert(values(out@) =~= out0 + run(stmts, i + 1, source@, env0).2);
                }
            }
            match result {
                Ok(_) => {},
                Err(e) => {
                    proof {
                        if functional::<N>() || !run_calls_host(stmts, i + 1, source@, env0) {
                            lemma_run_stops(stmts, i as int + 1, stmts.len() as int, source@, env0);
                        } else {
                            lemma_run_calls_host_grows(stmts, i as int + 1, stmts.len() as int, source@, env0);
                        }
                    }
                    return Err(e);
                },
            }
            i += 1;
        }
        Ok(())
    }
}

/// A run that has called the host has called it for every longer run too.
proof fn lemma_run_calls_host_grows<N: Number>(
    stmts: Seq<(Seq<StatementNode>, int)>,
    k: int,
    m: int,
    src: Seq<char>,
    env: Map<Seq<char>, Value<N>>,
)
    requires
        0 <= k <= m,
        run_calls_host(stmts, k, src, env),
    ensures
        run_calls_host(stmts, m, src, env),
    decreases m - k,
{
    if k < m {
        lemma_run_calls_host_grows(stmts, k, m - 1, src, env);
    }
}

/// Once a run has failed, running further statements changes nothing.
proof fn lemma_run_stops<N: Number>(
    stmts: Seq<(Seq<StatementNode>, int)>,
    k: int,
    m: int,
    src: Seq<char>,
    env: Map<Seq<char>, Value<N>>,
)
    requires
        0 <= k <= m,
        run(stmts, k, src, env).0 is Err,
    ensures
        run(stmts, m, src, env) == run(stmts, k, src, env),
        run_calls_host(stmts, m, src, env) == run_calls_host(stmts, k, src, env),
    decreases m - k,
{
    if k < m {
        lemma_run_stops(stmts, k, m - 1, src, env);
    }
}

/// Logical negation goes through truthiness: `!` of a String, a Number or
/// Nil is false, and `!` of a Boolean is its negation.
pub proof fn lemma_negation_truthiness<N: Number>(v: Value<N>)
    ensures
        !(v is Bool) ==> unary_result(TokenKind::Bang, v) == Ok::<Value<N>, Error>(Value::Bool(false)),
        v == Value::<N>::Bool(false) ==> unary_result(TokenKind::Bang, v) == Ok::<Value<N>, Error>(
            Value::Bool(true),
        ),
        v == Value::<N>::Bool(true) ==> unary_result(TokenKind::Bang, v) == Ok::<Value<N>, Error>(
            Value::Bool(false),
        ),
{
}

pub open spec fn same_comparable_variant<N>(a: Value<N>, b: Value<N>) -> bool {
    ||| (a is Num && b is Num)
    ||| (a is Str && b is Str)
    ||| (a is Bool && b is Bool)
}

/// `==` and `!=` on values of different variants, or on Nil, are type
/// errors, never a silent false.
pub proof fn lemma_equality_needs_same_variant<N: Number>(a: Value<N>, b: Value<N>)
    requires
        !same_comparable_variant(a, b),
    ensures
        binary_result(TokenKind::EqualEqual, a, b) == Err::<Value<N>, Error>(Error::TypeError),
        binary_result(TokenKind::BangEqual, a, b) == Err::<Value<N>, Error>(Error::TypeError),
{
}

/// A definition binds its name to the value of its expression: reading the
/// same name afterwards yields that value. Reading a name that has no
/// binding fails with `UndeclaredVariable`.
pub proof fn lemma_define_then_read<N: Number>(
    def_nodes: Seq<StatementNode>,
    def_root: int,
    def_src: Seq<char>,
    read_nodes: Seq<StatementNode>,
    read_root: int,
    read_src: Seq<char>,
    env: Map<Seq<char>, Value<N>>,
)
    requires
        0 <= def_root < def_nodes.len(),
        def_nodes[def_root] is VariableDefinition,
        0 <= read_root < read_nodes.len(),
        read_nodes[read_root] matches StatementNode::Expression(ExpressionNode::Variable(t))
            && span_ok(read_src, t) && text_of(read_src, t) == text_of(
            def_src,
            def_nodes[def_root]->VariableDefinition_0.identifier,
        ),
    ensures
        execute(def_nodes, def_root, def_src, env).0 is Ok ==> eval(
            read_nodes,
            read_root,
            read_src,
            execute(def_nodes, def_root, def_src, env).1,
        ) == Ok::<Value<N>, Error>(
            eval(def_nodes, def_nodes[def_root]->VariableDefinition_0.expression as int, def_src, env)->Ok_0,
        ),
        !env.contains_key(text_of(def_src, def_nodes[def_root]->VariableDefinition_0.identifier))
            ==> eval(read_nodes, read_root, read_src, env) == Err::<Value<N>, Error>(Error::UndeclaredVariable),
{
}

/// In any statement, `!` of an operand that evaluates to a String, a Number
/// or Nil evaluates to false, and `!` of an operand that evaluates to a
/// Boolean evaluates to its negation.
pub proof fn lemma_not_node<N: Number>(
    nodes: Seq<StatementNode>,
    i: int,
    src: Seq<char>,
    env: Map<Seq<char>, Value<N>>,
)
    requires
        0 <= i < nodes.len(),
        nodes[i] matches StatementNode::Expression(ExpressionNode::Unary(u)) && u.operator.kind
            == TokenKind::Bang && u.right < i,
        eval(nodes, nodes[i]->Expression_0->Unary_0.right as int, src, env) is Ok,
    ensures
        ({
            let v = eval(nodes, nodes[i]->Expression_0->Unary_0.right as int, src, env)->Ok_0;
            &&& !(v is Bool) ==> eval(nodes, i, src, env) == Ok::<Value<N>, Error>(Value::Bool(false))
            &&& v is Bool ==> eval(nodes, i, src, env) == Ok::<Value<N>, Error>(Value::Bool(!(v->Bool_0)))
        }),
{
}

} // verus!
