use vstd::prelude::*;
use crate::lex::{copy_chars, same_chars, Tok, TokenKind};
use crate::parser::{parse, tree_of_text, tree_of_tokens, Node, ParseError, SyntaxFault, Tree};
use crate::stack::Stack;
use crate::value::{Dec, DecTerm, Val, ValueKind};

verus! {

broadcast use vstd::std_specs::vec::axiom_vec_index_decreases;

/// Why an expression tree could not be evaluated.
#[derive(Debug, PartialEq)]
pub enum EvalError {
    /// An operand of arithmetic is neither an integer nor a decimal.
    TypeMismatch,
    /// A divisor is zero.
    DivisionByZero,
    /// A name that was never assigned.
    UndefinedVariable(Vec<char>),
    /// The left side of `=` is not a name.
    AssignToNonIdentifier,
    /// An operator that arithmetic does not know.
    UnexpectedOperation,
    /// An operator node with neither one nor two children.
    MalformedNode,
    /// A node with children whose tag is no operator.
    UnexpectedNode,
    /// An integer result that does not fit in an `i64`.
    Overflow,
}

/// The mathematical model of an evaluation error.
pub enum EvalFault {
    TypeMismatch,
    DivisionByZero,
    UndefinedVariable(Seq<char>),
    AssignToNonIdentifier,
    UnexpectedOperation,
    MalformedNode,
    UnexpectedNode,
    Overflow,
}

impl View for EvalError {
    type V = EvalFault;

    open spec fn view(&self) -> EvalFault {
        match self {
            EvalError::TypeMismatch => EvalFault::TypeMismatch,
            EvalError::DivisionByZero => EvalFault::DivisionByZero,
            EvalError::UndefinedVariable(n) => EvalFault::UndefinedVariable(n@),
            EvalError::AssignToNonIdentifier => EvalFault::AssignToNonIdentifier,
            EvalError::UnexpectedOperation => EvalFault::UnexpectedOperation,
            EvalError::MalformedNode => EvalFault::MalformedNode,
            EvalError::UnexpectedNode => EvalFault::UnexpectedNode,
            EvalError::Overflow => EvalFault::Overflow,
        }
    }
}

pub type Env = Map<Seq<char>, Val>;

pub type Outcome = Result<Val, EvalFault>;

pub open spec fn outcome(r: Result<ValueKind, EvalError>) -> Outcome {
    match r {
        Ok(v) => Ok(v@),
        Err(e) => Err(e@),
    }
}

pub open spec fn abs(x: int) -> int {
    if x < 0 {
        -x
    } else {
        x
    }
}

/// `a / b` as Rust computes it on integers: rounded toward zero.
pub open spec fn trunc_div(a: int, b: int) -> int {
    if (a < 0) == (b < 0) {
        abs(a) / abs(b)
    } else {
        -(abs(a) / abs(b))
    }
}

/// `a % b` as Rust computes it on integers: it takes the sign of `a`.
pub open spec fn trunc_rem(a: int, b: int) -> int {
    if a < 0 {
        -(abs(a) % abs(b))
    } else {
        abs(a) % abs(b)
    }
}

pub open spec fn fits_i64(x: int) -> bool {
    i64::MIN <= x <= i64::MAX
}

/// An integer result, or `Overflow` when it does not fit.
pub open spec fn int_result(x: int) -> Outcome {
    if fits_i64(x) {
        Ok(Val::Integer(x as i64))
    } else {
        Err(EvalFault::Overflow)
    }
}

/// Integer division: an integer when `b` divides `a`, else the decimal `a / b`.
pub open spec fn int_division(a: i64, b: i64) -> Outcome {
    if b == 0 {
        Err(EvalFault::DivisionByZero)
    } else if trunc_rem(a as int, b as int) != 0 {
        Ok(
            Val::Decimal(
                DecTerm::Div(
                    Box::new(DecTerm::FromInteger(a)),
                    Box::new(DecTerm::FromInteger(b)),
                ),
            ),
        )
    } else {
        int_result(trunc_div(a as int, b as int))
    }
}

pub open spec fn zero_digit(c: char) -> bool {
    c == '0' || c == '.'
}

pub open spec fn zeros_only(t: Seq<char>) -> bool {
    forall|i: int| 0 <= i < t.len() ==> #[trigger] zero_digit(t[i])
}

/// Whether a decimal is zero as written: the integer 0, or a literal made of
/// zeros and the point.
pub open spec fn written_zero(d: DecTerm) -> bool {
    match d {
        DecTerm::FromInteger(n) => n == 0,
        DecTerm::Literal(t) => zeros_only(t),
        _ => false,
    }
}

pub open spec fn as_decimal(v: Val) -> DecTerm {
    match v {
        Val::Integer(n) => DecTerm::FromInteger(n),
        Val::Decimal(d) => d,
        _ => DecTerm::FromInteger(0),
    }
}

pub open spec fn is_number(v: Val) -> bool {
    v is Integer || v is Decimal
}

/// Arithmetic on two resolved operands. Two integers stay integers (but see
/// `int_division`); with a decimal on either side the result is a decimal.
/// A decimal divisor that is zero as written is refused here; one that only
/// computes to zero is found where decimals are carried out.
pub open spec fn arith(l: Val, r: Val, op: Tok) -> Outcome {
    if !is_number(l) || !is_number(r) {
        Err(EvalFault::TypeMismatch)
    } else if l is Integer && r is Integer {
        let a = l->Integer_0;
        let b = r->Integer_0;
        match op {
            Tok::Plus => int_result(a + b),
            Tok::Minus => int_result(a - b),
            Tok::Asterisk => int_result(a * b),
            Tok::ForwardSlash => int_division(a, b),
            Tok::IsEquals => Ok(Val::Boolean(a == b)),
            _ => Err(EvalFault::UnexpectedOperation),
        }
    } else {
        let x = Box::new(as_decimal(l));
        let y = Box::new(as_decimal(r));
        match op {
            Tok::Plus => Ok(Val::Decimal(DecTerm::Add(x, y))),
            Tok::Minus => Ok(Val::Decimal(DecTerm::Sub(x, y))),
            Tok::Asterisk => Ok(Val::Decimal(DecTerm::Mul(x, y))),
            Tok::ForwardSlash => if written_zero(*y) {
                Err(EvalFault::DivisionByZero)
            } else {
                Ok(Val::Decimal(DecTerm::Div(x, y)))
            },
            Tok::IsEquals => Ok(Val::DecimalEquals(*x, *y)),
            _ => Err(EvalFault::UnexpectedOperation),
        }
    }
}

/// A name replaced by its value in `env`.
pub open spec fn resolve(v: Val, env: Env) -> Outcome {
    match v {
        Val::Identifier(n) => if env.contains_key(n) {
            Ok(env[n])
        } else {
            Err(EvalFault::UndefinedVariable(n))
        },
        _ => Ok(v),
    }
}

/// Arithmetic after both operands are resolved, the left one first.
pub open spec fn number_op(l: Val, r: Val, op: Tok, env: Env) -> Outcome {
    match resolve(l, env) {
        Err(e) => Err(e),
        Ok(x) => match resolve(r, env) {
            Err(e) => Err(e),
            Ok(y) => arith(x, y, op),
        },
    }
}

/// `l = r`: binds the name `l` to the resolved `r`, which is also the result.
pub open spec fn assign(l: Val, r: Val, env: Env) -> (Outcome, Env) {
    match l {
        Val::Identifier(n) => match resolve(r, env) {
            Err(e) => (Err(e), env),
            Ok(v) => (Ok(v), env.insert(n, v)),
        },
        _ => (Err(EvalFault::AssignToNonIdentifier), env),
    }
}

/// The value of a leaf.
pub open spec fn literal(t: Tok) -> Val {
    match t {
        Tok::Integer(n) => Val::Integer(n),
        Tok::Decimal(d) => Val::Decimal(DecTerm::Literal(d)),
        Tok::Identifier(n) => Val::Identifier(n),
        Tok::Boolean(b) => Val::Boolean(b),
        Tok::QuotedString(s) => Val::Str(s),
        _ => Val::Null,
    }
}

pub open spec fn is_operator(t: Tok) -> bool {
    t is Plus || t is Minus || t is Asterisk || t is ForwardSlash || t is Assign || t is IsEquals
        || t is NotEquals
}

/// Evaluates a tree against `env`: the outcome, and the environment after it.
/// A leaf's name is left unresolved; operators resolve their operands.
pub open spec fn eval(n: Tree, env: Env) -> (Outcome, Env)
    decreases n,
{
    if n.children.len() == 0 {
        (Ok(literal(n.entry)), env)
    } else if !is_operator(n.entry) {
        (Err(EvalFault::UnexpectedNode), env)
    } else if n.children.len() == 1 {
        let (r, e1) = eval(n.children[0], env);
        match r {
            Err(e) => (Err(e), e1),
            Ok(v) => if n.entry is Minus {
                (number_op(v, Val::Integer(-1i64), Tok::Asterisk, e1), e1)
            } else {
                (Ok(v), e1)
            },
        }
    } else if n.children.len() == 2 {
        let (rl, e1) = eval(n.children[0], env);
        match rl {
            Err(e) => (Err(e), e1),
            Ok(l) => {
                let (rr, e2) = eval(n.children[1], e1);
                match rr {
                    Err(e) => (Err(e), e2),
                    Ok(r) => if n.entry is Assign {
                        assign(l, r, e2)
                    } else {
                        (number_op(l, r, n.entry, e2), e2)
                    },
                }
            },
        }
    } else {
        (Err(EvalFault::MalformedNode), env)
    }
}

/// The bindings in order, as names and values.
pub open spec fn pairs(v: Seq<(Vec<char>, ValueKind)>) -> Seq<(Seq<char>, Val)> {
    v.map_values(|p: (Vec<char>, ValueKind)| (p.0@, p.1@))
}

/// The value bound last to `name` in `b`.
pub open spec fn lookup(b: Seq<(Seq<char>, Val)>, name: Seq<char>) -> Option<Val>
    decreases b.len(),
{
    if b.len() == 0 {
        None
    } else if b.last().0 == name {
        Some(b.last().1)
    } else {
        lookup(b.drop_last(), name)
    }
}

pub open spec fn distinct_names(b: Seq<(Seq<char>, Val)>) -> bool {
    forall|i: int, j: int| 0 <= i < j < b.len() ==> b[i].0 != b[j].0
}

proof fn lemma_lookup_at(b: Seq<(Seq<char>, Val)>, name: Seq<char>, i: int)
    requires
        distinct_names(b),
        0 <= i < b.len(),
        b[i].0 == name,
    ensures
        lookup(b, name) == Some(b[i].1),
    decreases b.len(),
{
    if i < b.len() - 1 {
        assert(b.last().0 != name);
        lemma_lookup_at(b.drop_last(), name, i);
    }
}

proof fn lemma_lookup_absent(b: Seq<(Seq<char>, Val)>, name: Seq<char>)
    requires
        forall|i: int| 0 <= i < b.len() ==> b[i].0 != name,
    ensures
        lookup(b, name) is None,
    decreases b.len(),
{
    if b.len() > 0 {
        lemma_lookup_absent(b.drop_last(), name);
    }
}

/// What `lookup` gives for every name, as a map.
pub open spec fn as_env(b: Seq<(Seq<char>, Val)>) -> Env {
    Map::new(|k: Seq<char>| lookup(b, k) is Some, |k: Seq<char>| lookup(b, k)->Some_0)
}

proof fn lemma_lookup_agrees(
    b: Seq<(Seq<char>, Val)>,
    c: Seq<(Seq<char>, Val)>,
    name: Seq<char>,
    v: Val,
    k: Seq<char>,
)
    requires
        distinct_names(b),
        distinct_names(c),
        exists|i: int| 0 <= i < c.len() && c[i] == (name, v),
        forall|j: int|
            0 <= j < c.len() && c[j].0 != name ==> exists|i: int|
                0 <= i < b.len() && b[i] == #[trigger] c[j],
        forall|i: int|
            0 <= i < b.len() && b[i].0 != name ==> exists|j: int|
                0 <= j < c.len() && c[j] == #[trigger] b[i],
    ensures
        lookup(c, k) == if k == name {
            Some(v)
        } else {
            lookup(b, k)
        },
{
    if k == name {
        let i = choose|i: int| 0 <= i < c.len() && c[i] == (name, v);
        lemma_lookup_at(c, name, i);
    } else if exists|i: int| 0 <= i < b.len() && b[i].0 == k {
        let i = choose|i: int| 0 <= i < b.len() && b[i].0 == k;
        lemma_lookup_at(b, k, i);
        let j = choose|j: int| 0 <= j < c.len() && c[j] == b[i];
        lemma_lookup_at(c, k, j);
    } else {
        lemma_lookup_absent(b, k);
        if exists|j: int| 0 <= j < c.len() && c[j].0 == k {
            let j = choose|j: int| 0 <= j < c.len() && c[j].0 == k;
            let i = choose|i: int| 0 <= i < b.len() && b[i] == c[j];
            assert(b[i].0 == k);
        }
        lemma_lookup_absent(c, k);
    }
}

/// The state that successive evaluations share: the variables, and a
/// bounded stack of values.
pub struct State {
    stack: Stack<ValueKind>,
    variables: Vec<(Vec<char>, ValueKind)>,
}

pub const STACK_CAPACITY: usize = 200;

impl State {
    /// The variables, each name with its value.
    pub closed spec fn vars(&self) -> Env {
        as_env(pairs(self.variables@))
    }

    /// The stack, bottom first.
    pub closed spec fn stack_items(&self) -> Seq<ValueKind> {
        self.stack@
    }

    pub closed spec fn wf(&self) -> bool {
        &&& distinct_names(pairs(self.variables@))
        &&& self.stack.wf()
        &&& self.stack.capacity() == STACK_CAPACITY
    }

    /// A state with an empty stack and one variable, `NULL`, bound to 0.
    pub fn new() -> (r: State)
        ensures
            r.wf(),
            r.vars() == Map::<Seq<char>, Val>::empty().insert(
                seq!['N', 'U', 'L', 'L'],
                Val::Integer(0),
            ),
            r.stack_items().len() == 0,
    {
        let mut r = State { stack: Stack::with_capacity(STACK_CAPACITY), variables: Vec::new() };
        proof {
            assert(pairs(r.variables@) =~= Seq::empty());
            assert(r.vars() =~= Map::<Seq<char>, Val>::empty());
        }
        let null_name = vec!['N', 'U', 'L', 'L'];
        assert(null_name@ =~= seq!['N', 'U', 'L', 'L']);
        r.set_var(null_name, ValueKind::Integer(0));
        r
    }

    /// The bindings, in the order their names were first assigned.
    pub closed spec fn bindings(&self) -> Seq<(Seq<char>, Val)> {
        pairs(self.variables@)
    }

    pub proof fn lemma_vars_are_bindings(&self)
        ensures
            self.vars() == as_env(self.bindings()),
    {
    }

    /// The number of variables.
    pub fn variable_count(&self) -> (r: usize)
        ensures
            r == self.bindings().len(),
    {
        self.variables.len()
    }

    /// The `i`-th binding: a name and its value.
    pub fn variable(&self, i: usize) -> (r: &(Vec<char>, ValueKind))
        requires
            i < self.bindings().len(),
        ensures
            (r.0@, r.1@) == self.bindings()[i as int],
    {
        &self.variables[i]
    }

    /// The index of the binding of `name`, or the number of bindings.
    fn find_var(&self, name: &Vec<char>) -> (r: usize)
        ensures
            r <= self.bindings().len(),
            r < self.bindings().len() ==> self.bindings()[r as int].0 == name@,
            forall|j: int| 0 <= j < r ==> self.bindings()[j].0 != name@,
    {
        let mut i: usize = 0;
        while i < self.variables.len()
            invariant
                i <= self.variables@.len(),
                forall|j: int| 0 <= j < i ==> pairs(self.variables@)[j].0 != name@,
            decreases self.variables@.len() - i,
        {
            if same_chars(&self.variables[i].0, name) {
                return i;
            }
            i = i + 1;
        }
        i
    }

    /// The value bound to `name`.
    pub fn get_var(&self, name: &Vec<char>) -> (r: Option<ValueKind>)
        requires
            self.wf(),
        ensures
            match r {
                Some(v) => self.vars().contains_key(name@) && self.vars()[name@] == v@,
                None => !self.vars().contains_key(name@),
            },
    {
        let i = self.find_var(name);
        if i < self.variables.len() {
            proof {
                lemma_lookup_at(pairs(self.variables@), name@, i as int);
            }
            Some(self.variables[i].1.copy())
        } else {
            proof {
                lemma_lookup_absent(pairs(self.variables@), name@);
            }
            None
        }
    }

    /// Binds `name` to `value`, in place of any earlier value.
    pub fn set_var(&mut self, name: Vec<char>, value: ValueKind)
        requires
            old(self).wf(),
        ensures
            final(self).wf(),
            final(self).vars() == old(self).vars().insert(name@, value@),
            final(self).stack_items() == old(self).stack_items(),
    {
        let ghost b = pairs(self.variables@);
        let ghost entry = (name@, value@);
        let i = self.find_var(&name);
        if i < self.variables.len() {
            self.variables.set(i, (name, value));
        } else {
            self.variables.push((name, value));
        }
        proof {
            let c = pairs(self.variables@);
            if i < b.len() {
                assert(c =~= b.update(i as int, entry));
                assert(c[i as int] == entry);
                assert forall|j: int| 0 <= j < c.len() && c[j].0 != name@ implies exists|k: int|
                    0 <= k < b.len() && b[k] == #[trigger] c[j] by {
                    assert(b[j] == c[j]);
                }
                assert forall|k: int| 0 <= k < b.len() && b[k].0 != name@ implies exists|j: int|
                    0 <= j < c.len() && c[j] == #[trigger] b[k] by {
                    assert(b[k] == c[k]);
                }
            } else {
                assert(c =~= b.push(entry));
                assert(c[b.len() as int] == entry);
                assert forall|j: int| 0 <= j < c.len() && c[j].0 != name@ implies exists|k: int|
                    0 <= k < b.len() && b[k] == #[trigger] c[j] by {
                    assert(b[j] == c[j]);
                }
                assert forall|k: int| 0 <= k < b.len() && b[k].0 != name@ implies exists|j: int|
                    0 <= j < c.len() && c[j] == #[trigger] b[k] by {
                    assert(b[k] == c[k]);
                }
            }
            assert forall|x: int, y: int| 0 <= x < y < c.len() implies c[x].0 != c[y].0 by {
                if i < b.len() {
                    if x != i && y != i {
                        assert(c[x] == b[x] && c[y] == b[y]);
                    } else if x == i {
                        assert(c[y] == b[y]);
                    } else {
                        assert(c[x] == b[x]);
                    }
                } else if y < b.len() {
                    assert(c[x] == b[x] && c[y] == b[y]);
                } else {
                    assert(c[x] == b[x]);
                }
            }
            assert(distinct_names(c));
            assert forall|k: Seq<char>| #[trigger] lookup(c, k) == (if k == name@ {
                Some(value@)
            } else {
                lookup(b, k)
            }) by {
                lemma_lookup_agrees(b, c, name@, value@, k);
            }
            assert(self.vars() =~= old(self).vars().insert(name@, value@));
        }
    }
}

impl State {
    /// Pushes a value unless the stack is full.
    pub fn push_stack(&mut self, item: ValueKind)
        requires
            old(self).wf(),
        ensures
            final(self).wf(),
            final(self).vars() == old(self).vars(),
            old(self).stack_items().len() < STACK_CAPACITY ==> final(self).stack_items()
                == old(self).stack_items().push(item),
            old(self).stack_items().len() >= STACK_CAPACITY ==> final(self).stack_items()
                == old(self).stack_items(),
    {
        self.stack.push(item);
    }

    /// Drops the top value, if any.
    pub fn pop_stack(&mut self)
        requires
            old(self).wf(),
        ensures
            final(self).wf(),
            final(self).vars() == old(self).vars(),
            final(self).stack_items() == if old(self).stack_items().len() == 0 {
                old(self).stack_items()
            } else {
                old(self).stack_items().drop_last()
            },
    {
        self.stack.pop();
    }

    pub fn size_stack(&self) -> (r: usize)
        ensures
            r == self.stack_items().len(),
    {
        self.stack.size()
    }

    pub fn peek_stack(&self) -> (r: Option<&ValueKind>)
        ensures
            self.stack_items().len() == 0 ==> r.is_none(),
            self.stack_items().len() > 0 ==> r == Some(&self.stack_items().last()),
    {
        self.stack.peek()
    }
}

/// The value of a leaf node.
fn visit_alone_node(node: &Node) -> (r: ValueKind)
    ensures
        r@ == literal(node.entry@),
{
    match &node.entry {
        TokenKind::Integer(n) => ValueKind::Integer(*n),
        TokenKind::Decimal(d) => ValueKind::Decimal(Dec::Literal(copy_chars(d))),
        TokenKind::Identifier(n) => ValueKind::Identifier(copy_chars(n)),
        TokenKind::Boolean(b) => ValueKind::Boolean(*b),
        TokenKind::QuotedString(t) => ValueKind::Str(copy_chars(t)),
        _ => ValueKind::Null,
    }
}

fn magnitude(x: i64) -> (r: u64)
    ensures
        r as int == abs(x as int),
{
    if x < 0 {
        (0i128 - x as i128) as u64
    } else {
        x as u64
    }
}

fn int_value(x: i128) -> (r: Result<ValueKind, EvalError>)
    ensures
        outcome(r) == int_result(x as int),
{
    if x < i64::MIN as i128 || x > i64::MAX as i128 {
        Err(EvalError::Overflow)
    } else {
        Ok(ValueKind::Integer(x as i64))
    }
}

fn checked_value(x: Option<i64>) -> (r: Result<ValueKind, EvalError>)
    ensures
        match x {
            Some(n) => r == Ok::<ValueKind, EvalError>(ValueKind::Integer(n)),
            None => r == Err::<ValueKind, EvalError>(EvalError::Overflow),
        },
{
    match x {
        Some(n) => Ok(ValueKind::Integer(n)),
        None => Err(EvalError::Overflow),
    }
}

/// Divides two integers: an integer when the division is exact, else a decimal.
pub fn divide_integers(a: i64, b: i64) -> (r: Result<ValueKind, EvalError>)
    ensures
        outcome(r) == int_division(a, b),
{
    if b == 0 {
        return Err(EvalError::DivisionByZero);
    }
    let ua = magnitude(a);
    let ub = magnitude(b);
    if ua % ub != 0 {
        assert(trunc_rem(a as int, b as int) != 0);
        let x = Dec::FromInteger(a);
        let y = Dec::FromInteger(b);
        assert(x@ == DecTerm::FromInteger(a));
        assert(y@ == DecTerm::FromInteger(b));
        let r = ValueKind::Decimal(Dec::Div(Box::new(x), Box::new(y)));
        assert(r@ == Val::Decimal(
            DecTerm::Div(Box::new(DecTerm::FromInteger(a)), Box::new(DecTerm::FromInteger(b))),
        ));
        return Ok(r);
    }
    let q = (ua / ub) as i128;
    if (a < 0) == (b < 0) {
        int_value(q)
    } else {
        int_value(0 - q)
    }
}

fn written_zero_exec(d: &Dec) -> (r: bool)
    ensures
        r == written_zero(d@),
{
    match d {
        Dec::FromInteger(n) => *n == 0,
        Dec::Literal(t) => {
            assert(d@ == DecTerm::Literal(t@));
            let mut i: usize = 0;
            while i < t.len()
                invariant
                    d@ == DecTerm::Literal(t@),
                    i <= t@.len(),
                    forall|j: int| 0 <= j < i ==> #[trigger] zero_digit(t@[j]),
                decreases t@.len() - i,
            {
                let c = t[i];
                if c != '0' && c != '.' {
                    assert(!zero_digit(t@[i as int]));
                    assert(!zeros_only(t@));
                    return false;
                }
                i = i + 1;
            }
            assert(zeros_only(t@));
            true
        },
        _ => false,
    }
}

fn to_decimal(v: &ValueKind) -> (r: Dec)
    ensures
        r@ == as_decimal(v@),
{
    match v {
        ValueKind::Integer(n) => Dec::FromInteger(*n),
        ValueKind::Decimal(d) => d.copy(),
        _ => Dec::FromInteger(0),
    }
}

/// Arithmetic on two resolved operands.
pub fn do_self(lhs: &ValueKind, rhs: &ValueKind, op: &TokenKind) -> (r: Result<ValueKind, EvalError>)
    ensures
        outcome(r) == arith(lhs@, rhs@, op@),
{
    let l_num = match lhs {
        ValueKind::Integer(_) | ValueKind::Decimal(_) => true,
        _ => false,
    };
    let r_num = match rhs {
        ValueKind::Integer(_) | ValueKind::Decimal(_) => true,
        _ => false,
    };
    if !l_num || !r_num {
        return Err(EvalError::TypeMismatch);
    }
    if let (ValueKind::Integer(a), ValueKind::Integer(b)) = (lhs, rhs) {
        let (a, b) = (*a, *b);
        return match op {
            TokenKind::Plus => checked_value(a.checked_add(b)),
            TokenKind::Minus => checked_value(a.checked_sub(b)),
            TokenKind::Asterisk => checked_value(a.checked_mul(b)),
            TokenKind::ForwardSlash => divide_integers(a, b),
            TokenKind::IsEquals => Ok(ValueKind::Boolean(a == b)),
            _ => Err(EvalError::UnexpectedOperation),
        };
    }
    let x = to_decimal(lhs);
    let y = to_decimal(rhs);
    match op {
        TokenKind::Plus => Ok(ValueKind::Decimal(Dec::Add(Box::new(x), Box::new(y)))),
        TokenKind::Minus => Ok(ValueKind::Decimal(Dec::Sub(Box::new(x), Box::new(y)))),
        TokenKind::Asterisk => Ok(ValueKind::Decimal(Dec::Mul(Box::new(x), Box::new(y)))),
        TokenKind::ForwardSlash => if written_zero_exec(&y) {
            Err(EvalError::DivisionByZero)
        } else {
            Ok(ValueKind::Decimal(Dec::Div(Box::new(x), Box::new(y))))
        },
        TokenKind::IsEquals => Ok(ValueKind::DecimalEquals(x, y)),
        _ => Err(EvalError::UnexpectedOperation),
    }
}

/// `v`, with a name replaced by its value.
fn get_var(v: ValueKind, state: &State) -> (r: Result<ValueKind, EvalError>)
    requires
        state.wf(),
    ensures
        outcome(r) == resolve(v@, state.vars()),
{
    match v {
        ValueKind::Identifier(name) => match state.get_var(&name) {
            Some(x) => Ok(x),
            None => Err(EvalError::UndefinedVariable(name)),
        },
        _ => Ok(v),
    }
}

/// Arithmetic after both operands are resolved, the left one first.
fn do_number_node(lhs: ValueKind, rhs: ValueKind, op: &TokenKind, state: &State) -> (r: Result<
    ValueKind,
    EvalError,
>)
    requires
        state.wf(),
    ensures
        outcome(r) == number_op(lhs@, rhs@, op@, state.vars()),
{
    let x = get_var(lhs, state)?;
    let y = get_var(rhs, state)?;
    do_self(&x, &y, op)
}

/// `lhs = rhs`: binds the name `lhs` to the resolved `rhs`, and returns it.
fn do_assign_node(lhs: ValueKind, rhs: ValueKind, state: &mut State) -> (r: Result<
    ValueKind,
    EvalError,
>)
    requires
        old(state).wf(),
    ensures
        final(state).wf(),
        (outcome(r), final(state).vars()) == assign(lhs@, rhs@, old(state).vars()),
        final(state).stack_items() == old(state).stack_items(),
{
    match lhs {
        ValueKind::Identifier(name) => {
            let v = get_var(rhs, state)?;
            let stored = v.copy();
            state.set_var(name, stored);
            Ok(v)
        },
        _ => Err(EvalError::AssignToNonIdentifier),
    }
}

fn is_operator_token(t: &TokenKind) -> (r: bool)
    ensures
        r == is_operator(t@),
{
    match t {
        TokenKind::Plus | TokenKind::Minus | TokenKind::Asterisk | TokenKind::ForwardSlash
        | TokenKind::Assign | TokenKind::IsEquals | TokenKind::NotEquals => true,
        _ => false,
    }
}

/// Evaluates a node against the variables of `state`.
pub fn visit_node(node: &Node, state: &mut State) -> (r: Result<ValueKind, EvalError>)
    requires
        old(state).wf(),
    ensures
        final(state).wf(),
        (outcome(r), final(state).vars()) == eval(node@, old(state).vars()),
        final(state).stack_items() == old(state).stack_items(),
    decreases node, 2nat,
{
    proof {
        node.lemma_view();
    }
    let n = node.children.len();
    if n == 0 {
        return Ok(visit_alone_node(node));
    }
    if !is_operator_token(&node.entry) {
        return Err(EvalError::UnexpectedNode);
    }
    if n == 1 {
        visit_unaryop_node(node, state)
    } else if n == 2 {
        visit_binop_node(node, state)
    } else {
        Err(EvalError::MalformedNode)
    }
}

fn visit_binop_node(node: &Node, state: &mut State) -> (r: Result<ValueKind, EvalError>)
    requires
        old(state).wf(),
        node.children@.len() == 2,
        is_operator(node.entry@),
    ensures
        final(state).wf(),
        (outcome(r), final(state).vars()) == eval(node@, old(state).vars()),
        final(state).stack_items() == old(state).stack_items(),
    decreases node, 1nat,
{
    proof {
        node.lemma_view();
    }
    let lhs = visit_node(&node.children[0], state)?;
    let rhs = visit_node(&node.children[1], state)?;
    if let TokenKind::Assign = node.entry {
        return do_assign_node(lhs, rhs, state);
    }
    do_number_node(lhs, rhs, &node.entry, state)
}

fn visit_unaryop_node(node: &Node, state: &mut State) -> (r: Result<ValueKind, EvalError>)
    requires
        old(state).wf(),
        node.children@.len() == 1,
        is_operator(node.entry@),
    ensures
        final(state).wf(),
        (outcome(r), final(state).vars()) == eval(node@, old(state).vars()),
        final(state).stack_items() == old(state).stack_items(),
    decreases node, 1nat,
{
    proof {
        node.lemma_view();
    }
    let v = visit_node(&node.children[0], state)?;
    if let TokenKind::Minus = node.entry {
        do_number_node(v, ValueKind::Integer(-1), &TokenKind::Asterisk, state)
    } else {
        Ok(v)
    }
}

/// Why a line could not be interpreted.
#[derive(Debug, PartialEq)]
pub enum InterpretError {
    Parse(ParseError),
    Eval(EvalError),
}

/// The mathematical model of an interpretation error.
pub enum LineFault {
    Parse(SyntaxFault),
    Eval(EvalFault),
}

impl View for InterpretError {
    type V = LineFault;

    open spec fn view(&self) -> LineFault {
        match self {
            InterpretError::Parse(e) => LineFault::Parse(e@),
            InterpretError::Eval(e) => LineFault::Eval(e@),
        }
    }
}

/// The value of a parsed line against `env`: the tree is evaluated, and a
/// bare name that comes out is looked up.
pub open spec fn run_tree(t: Tree, env: Env) -> (Result<Val, LineFault>, Env) {
    let (r, e1) = eval(t, env);
    match r {
        Err(e) => (Err(LineFault::Eval(e)), e1),
        Ok(v) => match resolve(v, e1) {
            Err(e) => (Err(LineFault::Eval(e)), e1),
            Ok(x) => (Ok(x), e1),
        },
    }
}

/// The value of a line given as tokens.
pub open spec fn run_tokens(t: Seq<Tok>, env: Env) -> (Result<Val, LineFault>, Env) {
    match tree_of_tokens(t) {
        Err(e) => (Err(LineFault::Parse(e)), env),
        Ok(n) => run_tree(n, env),
    }
}

/// The value of a line of text.
pub open spec fn run_text(s: Seq<char>, env: Env) -> (Result<Val, LineFault>, Env) {
    match tree_of_text(s) {
        Err(e) => (Err(LineFault::Parse(e)), env),
        Ok(n) => run_tree(n, env),
    }
}

pub open spec fn line_outcome(r: Result<ValueKind, InterpretError>) -> Result<Val, LineFault> {
    match r {
        Ok(v) => Ok(v@),
        Err(e) => Err(e@),
    }
}

/// Interprets one line: parses it, evaluates it against the variables of
/// `main_state`, and gives its value.
pub fn interpret(src: &str, main_state: &mut State) -> (r: Result<ValueKind, InterpretError>)
    requires
        old(main_state).wf(),
    ensures
        final(main_state).wf(),
        (line_outcome(r), final(main_state).vars()) == run_text(src@, old(main_state).vars()),
        final(main_state).stack_items() == old(main_state).stack_items(),
{
    let tree = match parse(src) {
        Ok(t) => t,
        Err(e) => {
            return Err(InterpretError::Parse(e));
        },
    };
    let v = match visit_node(&tree, main_state) {
        Ok(v) => v,
        Err(e) => {
            return Err(InterpretError::Eval(e));
        },
    };
    match get_var(v, main_state) {
        Ok(x) => Ok(x),
        Err(e) => Err(InterpretError::Eval(e)),
    }
}

} // verus!
