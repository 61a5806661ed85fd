//! The tree-walking interpreter: executes statements and evaluates
//! expressions as [`crate::semantics`] describes.

use vstd::prelude::*;
use crate::token::{Token, Literal, Object, ObjectView};
use crate::token::token_type::TokenType;
use crate::expression::{Expr, ExprView};
use crate::statement::{Stmt, StmtView};
use crate::environment::{Environment, Store, StoreView};
use crate::numbers::{ArithOp, Numbers, NumberOps, negate, equal, less, less_equal};
use crate::semantics;
use crate::semantics::{RuntimeError, Fault, Halt, State, FunctionView};
use crate::treewalk::scanner::tokens_view;
use crate::chars::chars_of;

verus! {

/// A function value: its parameters and body, where the program declares
/// them, and the environment it was declared in.
pub struct FunctionValue<'a> {
    pub parameters: &'a Vec<Token>,
    pub body: &'a Vec<Box<Stmt>>,
    pub closure: Environment,
}

impl<'a> View for FunctionValue<'a> {
    type V = FunctionView;

    open spec fn view(&self) -> FunctionView {
        FunctionView {
            params: tokens_view(self.parameters@),
            body: crate::statement::stmts_view(self.body@),
            closure: self.closure@,
        }
    }
}

/// The state of a run: variables, function values, and what was printed.
pub struct Interpreter<'a> {
    pub store: Store,
    pub functions: Vec<FunctionValue<'a>>,
    pub output: Vec<Object>,
}

impl<'a> View for Interpreter<'a> {
    type V = State;

    open spec fn view(&self) -> State {
        State {
            store: self.store@,
            functions: self.functions@.map_values(|f: FunctionValue<'a>| f@),
            output: self.output@.map_values(|o: Object| o@),
        }
    }
}

pub open spec fn result_view(r: Result<Object, Halt>) -> Result<ObjectView, Halt> {
    match r {
        Ok(o) => Ok(o@),
        Err(h) => Err(h),
    }
}

/// `!x`.
fn unary_bang(right: Object) -> (r: Object)
    ensures
        r@ == semantics::bang(right@),
{
    match right {
        Object::Nil => Object::Bool(false),
        Object::Bool(value) => Object::Bool(!value),
        _ => Object::Bool(true),
    }
}

/// `-x`.
fn unary_minus(right: Object) -> (r: Result<Object, RuntimeError>)
    ensures
        match semantics::minus(right@) {
            Ok(v) => r is Ok && r->Ok_0@ == v,
            Err(e) => r == Err::<Object, RuntimeError>(e),
        },
{
    match right {
        Object::Number(number) => Ok(Object::Number(negate(number))),
        _ => Err(RuntimeError::NegateNonNumber),
    }
}

/// The truth of a condition; `None` for anything but a boolean.
fn truthiness(object: &Object, Ghost(strict): Ghost<bool>) -> (r: Option<bool>)
    requires
        strict ==> semantics::truth(object@) is Some,
    ensures
        r == semantics::truth(object@),
{
    match object {
        Object::Bool(truthiness) => Some(*truthiness),
        _ => None,
    }
}

/// `l + r` on strings.
fn concat(l: &String, r: &String) -> (s: String)
    ensures
        s@ == l@ + r@,
{
    let mut s = l.clone();
    s.append(r.as_str());
    s
}

/// Whether `l` comes before `r` in lexicographic order.
fn string_less(l: &String, r: &String) -> (b: bool)
    ensures
        b == semantics::seq_lt(l@, r@),
{
    let a = chars_of(l.as_str());
    let b = chars_of(r.as_str());
    let mut i: usize = 0;
    assert(a@.skip(0) =~= a@);
    assert(b@.skip(0) =~= b@);
    while i < a.len() && i < b.len()
        invariant
            a@ == l@,
            b@ == r@,
            i <= a@.len(),
            i <= b@.len(),
            semantics::seq_lt(a@, b@) == semantics::seq_lt(a@.skip(i as int), b@.skip(i as int)),
        decreases a.len() - i,
    {
        assert(a@.skip(i as int)[0] == a@[i as int]);
        assert(b@.skip(i as int)[0] == b@[i as int]);
        if a[i] != b[i] {
            assert(semantics::seq_lt(a@.skip(i as int), b@.skip(i as int)) == (a@[i as int] < b@[i as int]));
            return a[i] < b[i];
        }
        proof {
            assert(a@.skip(i as int).drop_first() =~= a@.skip(i + 1));
            assert(b@.skip(i as int).drop_first() =~= b@.skip(i + 1));
        }
        i = i + 1;
    }
    assert(a@.skip(i as int).len() == 0 || b@.skip(i as int).len() == 0);
    i < b.len()
}

fn longer(l: &String, r: &String) -> (b: bool)
    ensures
        b == semantics::seq_lt(r@, l@),
{
    string_less(r, l)
}

fn longer_equal(l: &String, r: &String) -> (b: bool)
    ensures
        b == !semantics::seq_lt(l@, r@),
{
    !string_less(l, r)
}

fn shorter(l: &String, r: &String) -> (b: bool)
    ensures
        b == semantics::seq_lt(l@, r@),
{
    string_less(l, r)
}

fn shorter_equal(l: &String, r: &String) -> (b: bool)
    ensures
        b == !semantics::seq_lt(r@, l@),
{
    !string_less(r, l)
}

fn greater(l: u64, r: u64) -> (b: bool)
    ensures
        b == crate::numbers::num_lt(r, l),
{
    less(r, l)
}

fn greater_equal(l: u64, r: u64) -> (b: bool)
    ensures
        b == crate::numbers::num_le(r, l),
{
    less_equal(r, l)
}

/// An arithmetic operator on two numbers, or `+` on two strings.
fn binary_arithmetic<P: Fn(&str) -> u64, A: Fn(ArithOp, u64, u64) -> u64>(
    op: ArithOp,
    strings: bool,
    left: Object,
    right: Object,
    ops: &NumberOps<P, A>,
    Ghost(nums): Ghost<Numbers>,
) -> (r: Result<Object, RuntimeError>)
    requires
        ops.implements(nums),
    ensures
        match (left@, right@) {
            (ObjectView::Number(a), ObjectView::Number(b)) => r is Ok && r->Ok_0@ == ObjectView::Number((nums.arith)(op, a, b)),
            (ObjectView::String(a), ObjectView::String(b)) => if strings {
                r is Ok && r->Ok_0@ == ObjectView::String(a + b)
            } else {
                r == Err::<Object, RuntimeError>(RuntimeError::OperandTypes)
            },
            _ => r == Err::<Object, RuntimeError>(RuntimeError::OperandTypes),
        },
{
    match (left, right) {
        (Object::Number(l), Object::Number(r)) => Ok(Object::Number(ops.apply(op, l, r, Ghost(nums)))),
        (Object::String(l), Object::String(r)) => if strings {
            Ok(Object::String(concat(&l, &r)))
        } else {
            Err(RuntimeError::OperandTypes)
        },
        _ => Err(RuntimeError::OperandTypes),
    }
}

/// An ordering operator on two numbers or two strings.
fn binary_compare(t: TokenType, left: Object, right: Object) -> (r: Result<Object, RuntimeError>)
    ensures
        match semantics::compare(t, left@, right@) {
            Ok(v) => r is Ok && r->Ok_0@ == v,
            Err(e) => r == Err::<Object, RuntimeError>(e),
        },
{
    match (left, right) {
        (Object::Number(l), Object::Number(r)) => Ok(Object::Bool(
            if t == TokenType::Greater { greater(l, r) }
            else if t == TokenType::GreaterEqual { greater_equal(l, r) }
            else if t == TokenType::Less { less(l, r) }
            else { less_equal(l, r) },
        )),
        (Object::String(l), Object::String(r)) => Ok(Object::Bool(
            if t == TokenType::Greater { longer(&l, &r) }
            else if t == TokenType::GreaterEqual { longer_equal(&l, &r) }
            else if t == TokenType::Less { shorter(&l, &r) }
            else { shorter_equal(&l, &r) },
        )),
        _ => Err(RuntimeError::OperandTypes),
    }
}

/// `l == r`.
fn binary_equal_equal(left: Object, right: Object) -> (r: Result<Object, RuntimeError>)
    ensures
        match semantics::equal_values(left@, right@) {
            Ok(b) => r is Ok && r->Ok_0@ == ObjectView::Bool(b),
            Err(e) => r == Err::<Object, RuntimeError>(e),
        },
{
    match (left, right) {
        (Object::Number(left), Object::Number(right)) => Ok(Object::Bool(equal(left, right))),
        (Object::String(left), Object::String(right)) => Ok(Object::Bool(left == right)),
        (Object::Bool(left), Object::Bool(right)) => Ok(Object::Bool(left == right)),
        (Object::Nil, Object::Nil) => Ok(Object::Bool(true)),
        (Object::NoValue, Object::NoValue) => Ok(Object::Bool(true)),
        _ => Err(RuntimeError::EqualityTypes),
    }
}

/// `l != r`.
fn binary_bang_equal(left: Object, right: Object) -> (r: Result<Object, RuntimeError>)
    ensures
        match semantics::equal_values(left@, right@) {
            Ok(b) => r is Ok && r->Ok_0@ == ObjectView::Bool(!b),
            Err(e) => r == Err::<Object, RuntimeError>(e),
        },
{
    match binary_equal_equal(left, right) {
        Ok(Object::Bool(result)) => Ok(Object::Bool(!result)),
        Ok(_) => Ok(Object::NoValue),
        Err(e) => Err(e),
    }
}

fn arith_of(t: TokenType) -> (op: ArithOp)
    ensures
        op == semantics::arith_op(t),
{
    match t {
        TokenType::Minus => ArithOp::Minus,
        TokenType::Slash => ArithOp::Slash,
        TokenType::Star => ArithOp::Star,
        _ => ArithOp::Plus,
    }
}

/// The value of a binary operator applied to two values.
fn binary<P: Fn(&str) -> u64, A: Fn(ArithOp, u64, u64) -> u64>(
    t: TokenType,
    left: Object,
    right: Object,
    ops: &NumberOps<P, A>,
    Ghost(nums): Ghost<Numbers>,
) -> (r: Result<Object, RuntimeError>)
    requires
        ops.implements(nums),
    ensures
        match semantics::binary_value(t, left@, right@, nums) {
            Ok(v) => r is Ok && r->Ok_0@ == v,
            Err(e) => r == Err::<Object, RuntimeError>(e),
        },
{
    match t {
        TokenType::Minus | TokenType::Slash | TokenType::Star | TokenType::Plus => {
            binary_arithmetic(arith_of(t), t == TokenType::Plus, left, right, ops, Ghost(nums))
        },
        TokenType::Greater | TokenType::GreaterEqual | TokenType::Less | TokenType::LessEqual => {
            binary_compare(t, left, right)
        },
        TokenType::EqualEqual => binary_equal_equal(left, right),
        TokenType::BangEqual => binary_bang_equal(left, right),
        _ => Err(RuntimeError::BinaryOperator),
    }
}

/// Whether a loop body is a block with a `break` statement in it.
fn should_exit(statement: &Stmt) -> (b: bool)
    ensures
        b == semantics::should_exit(statement@),
{
    match statement {
        Stmt::Block(statements) => {
            proof { crate::statement::lemma_stmts_view_len(statements@); }
            let ghost sv = crate::statement::stmts_view(statements@);
            let mut found = false;
            let mut i: usize = 0;
            while i < statements.len()
                invariant
                    i <= statements@.len(),
                    sv.len() == statements@.len(),
                    sv == crate::statement::stmts_view(statements@),
                    found == exists|j: int| 0 <= j < i && sv[j] == StmtView::Break,
                decreases statements.len() - i,
            {
                proof { crate::statement::lemma_stmts_view_index(statements@, i as int); }
                if let Stmt::Break = *statements[i] {
                    assert(sv[i as int] == StmtView::Break);
                    found = true;
                }
                i = i + 1;
            }
            assert(found == sv.contains(StmtView::Break));
            found
        },
        _ => false,
    }
}

/// The value of a literal.
fn literal_object<P: Fn(&str) -> u64, A: Fn(ArithOp, u64, u64) -> u64>(
    literal: &Literal,
    ops: &NumberOps<P, A>,
    Ghost(nums): Ghost<Numbers>,
) -> (o: Object)
    requires
        ops.implements(nums),
    ensures
        o@ == semantics::literal_value(literal@, nums),
{
    match literal {
        Literal::Nil => Object::Nil,
        Literal::Bool(b) => Object::Bool(*b),
        Literal::Number(text) => Object::Number(ops.parse_number(text.as_str(), Ghost(nums))),
        Literal::Str(s) => Object::String(s.clone()),
    }
}

/// A new environment for a call of a function declared in `env`: the
/// global scope and a new scope that binds each parameter to its argument.
fn bind_parameters(parameters: &Vec<Token>, arguments: Vec<Object>, env: &Environment, store: &mut Store) -> (r: Environment)
    requires
        old(store).scope_count < usize::MAX,
    ensures
        r@ == seq![env@[0], old(store).scope_count],
        final(store)@ == semantics::bind_params(
            StoreView { scope_count: old(store)@.scope_count + 1, ..old(store)@ },
            old(store).scope_count,
            tokens_view(parameters@),
            arguments@.map_values(|o: Object| o@),
            0,
        ),
{
    let env = Environment::new_from_globals(env, store);
    let ghost scope = env@.last();
    let ghost params = tokens_view(parameters@);
    let ghost args = arguments@.map_values(|o: Object| o@);
    let ghost start = store@;
    let mut i: usize = 0;
    while i < parameters.len() && i < arguments.len()
        invariant
            i <= parameters@.len(),
            params == tokens_view(parameters@),
            args == arguments@.map_values(|o: Object| o@),
            scope == env@.last(),
            semantics::bind_params(start, scope, params, args, 0)
                == semantics::bind_params(store@, scope, params, args, i as int),
        decreases parameters.len() - i,
    {
        env.define(store, parameters[i].lexeme.clone(), arguments[i].duplicate());
        i = i + 1;
    }
    env
}

pub open spec fn values_view(v: Seq<Object>) -> Seq<ObjectView> {
    v.map_values(|o: Object| o@)
}

/// Evaluates an expression.
fn evaluate<'a, P: Fn(&str) -> u64, A: Fn(ArithOp, u64, u64) -> u64>(
    expression: &'a Expr,
    env: &Environment,
    it: &mut Interpreter<'a>,
    fuel: u64,
    ops: &NumberOps<P, A>,
    Ghost(nums): Ghost<Numbers>,
    Ghost(strict): Ghost<bool>,
) -> (r: Result<Object, Halt>)
    requires
        ops.implements(nums),
        strict ==> !semantics::panicked(semantics::eval(expression@, env@, old(it)@, fuel as nat, nums)),
    ensures
        (final(it)@, result_view(r)) == semantics::eval(expression@, env@, old(it)@, fuel as nat, nums),
    decreases fuel, semantics::expr_size(expression@), 1int,
{
    match expression {
        Expr::Literal(l) => Ok(literal_object(l, ops, Ghost(nums))),
        Expr::Grouping(inner) => evaluate(inner, env, it, fuel, ops, Ghost(nums), Ghost(strict)),
        Expr::Unary(token, operand) => {
            let right = match evaluate(operand, env, it, fuel, ops, Ghost(nums), Ghost(strict)) {
                Ok(v) => v,
                Err(h) => return Err(h),
            };
            match token.type_of {
                TokenType::Bang => Ok(unary_bang(right)),
                TokenType::Minus => match unary_minus(right) {
                    Ok(n) => Ok(n),
                    Err(e) => Err(Halt::Error(e)),
                },
                _ => Err(Halt::Error(RuntimeError::UnaryOperator)),
            }
        },
        Expr::Logical(left, token, right) => {
            let left = match evaluate(left, env, it, fuel, ops, Ghost(nums), Ghost(strict)) {
                Ok(v) => v,
                Err(h) => return Err(h),
            };
            let truth = match truthiness(&left, Ghost(strict)) {
                Some(b) => b,
                None => return Err(Halt::Panic(Fault::NotTrueOrFalse)),
            };
            match token.type_of {
                TokenType::Or => if truth { Ok(left) } else { evaluate(right, env, it, fuel, ops, Ghost(nums), Ghost(strict)) },
                TokenType::And => if truth { evaluate(right, env, it, fuel, ops, Ghost(nums), Ghost(strict)) } else { Ok(left) },
                _ => Err(Halt::Error(RuntimeError::LogicalOperator)),
            }
        },
        Expr::Binary(left, token, right) => {
            let left = match evaluate(left, env, it, fuel, ops, Ghost(nums), Ghost(strict)) {
                Ok(v) => v,
                Err(h) => return Err(h),
            };
            let right = match evaluate(right, env, it, fuel, ops, Ghost(nums), Ghost(strict)) {
                Ok(v) => v,
                Err(h) => return Err(h),
            };
            match binary(token.type_of, left, right, ops, Ghost(nums)) {
                Ok(v) => Ok(v),
                Err(e) => Err(Halt::Error(e)),
            }
        },
        Expr::Variable(token) => match env.lookup(&it.store, &token.lexeme) {
            None => Err(Halt::Panic(Fault::UndefinedVariable)),
            Some(Object::NoValue) => Err(Halt::Panic(Fault::NilVariable)),
            Some(v) => Ok(v),
        },
        Expr::Assign(token, value) => {
            let object = match evaluate(value, env, it, fuel, ops, Ghost(nums), Ghost(strict)) {
                Ok(v) => v,
                Err(h) => return Err(h),
            };
            if env.try_assign(&mut it.store, token.lexeme.clone(), object) {
                Ok(Object::NoValue)
            } else {
                Err(Halt::Panic(Fault::AssignUndefined))
            }
        },
        Expr::Call(_, _, _) => call(expression, env, it, fuel, ops, Ghost(nums), Ghost(strict)),
        Expr::Empty => Ok(Object::Nil),
    }
}

/// Evaluates a call: the callee, then the arguments, then the body of the
/// function in a new environment.
fn call<'a, P: Fn(&str) -> u64, A: Fn(ArithOp, u64, u64) -> u64>(
    expression: &'a Expr,
    env: &Environment,
    it: &mut Interpreter<'a>,
    fuel: u64,
    ops: &NumberOps<P, A>,
    Ghost(nums): Ghost<Numbers>,
    Ghost(strict): Ghost<bool>,
) -> (r: Result<Object, Halt>)
    requires
        ops.implements(nums),
        strict ==> !semantics::panicked(semantics::eval(expression@, env@, old(it)@, fuel as nat, nums)),
        expression is Call,
    ensures
        (final(it)@, result_view(r)) == semantics::eval(expression@, env@, old(it)@, fuel as nat, nums),
    decreases fuel, semantics::expr_size(expression@), 0int,
{
    let Expr::Call(callee, _, arguments) = expression else { return Err(Halt::Exhausted) };
    let callee = match evaluate(callee, env, it, fuel, ops, Ghost(nums), Ghost(strict)) {
        Ok(v) => v,
        Err(h) => return Err(h),
    };
    let id = match callee {
        Object::Function(id) => id,
        _ => return Err(Halt::Panic(Fault::NotCallable)),
    };
    if id >= it.functions.len() {
        return Err(Halt::Panic(Fault::NotCallable));
    }
    let parameters = it.functions[id].parameters;
    let body = it.functions[id].body;
    let closure = it.functions[id].closure.duplicate();
    let ghost st1 = it@;
    let ghost f = it@.functions[id as int];
    let ghost full = semantics::eval(expression@, env@, old(it)@, fuel as nat, nums);
    let ghost args = crate::expression::exprs_view(arguments@);
    proof { crate::expression::lemma_exprs_view_len(arguments@); }
    let mut values: Vec<Object> = Vec::new();
    assert(values_view(values@) =~= Seq::<ObjectView>::empty());
    let mut i: usize = 0;
    while i < arguments.len()
        invariant
            ops.implements(nums),
            args == crate::expression::exprs_view(arguments@),
            args.len() == arguments@.len(),
            i <= arguments@.len(),
            semantics::exprs_size(args) < semantics::expr_size(expression@),
            full == semantics::eval(expression@, env@, old(it)@, fuel as nat, nums),
            strict ==> !semantics::panicked(full),
            full == semantics::finish_call(f,
                semantics::eval_args(args, i as int, values_view(values@), env@, it@, fuel as nat, nums), fuel as nat, nums),
        decreases arguments.len() - i,
    {
        proof {
            crate::expression::lemma_exprs_view_index(arguments@, i as int);
            semantics::lemma_exprs_size(args, i as int);
        }
        let ghost before = values@;
        let ghost sti = it@;
        assert(semantics::eval_args(args, i as int, values_view(before), env@, sti, fuel as nat, nums) == {
            let (st1, r) = semantics::eval(args[i as int], env@, sti, fuel as nat, nums);
            match r {
                Err(Halt::Error(err)) => (st1, Err(Halt::Panic(Fault::ArgumentError(err)))),
                Err(h) => (st1, Err(h)),
                Ok(v) => semantics::eval_args(args, i + 1, values_view(before).push(v), env@, st1, fuel as nat, nums),
            }
        });
        match evaluate(&arguments[i], env, it, fuel, ops, Ghost(nums), Ghost(strict)) {
            Ok(v) => {
                values.push(v);
                proof { assert(values_view(values@) =~= values_view(before).push(values@.last()@)); }
            },
            Err(Halt::Error(e)) => {
                let h = Halt::Panic(Fault::ArgumentError(e));
                assert(semantics::finish_call(f, (it@, Err(h)), fuel as nat, nums) == (it@, Err::<ObjectView, Halt>(h)));
                return Err(h);
            },
            Err(h) => {
                assert(semantics::finish_call(f, (it@, Err(h)), fuel as nat, nums) == (it@, Err::<ObjectView, Halt>(h)));
                return Err(h);
            },
        }
        i = i + 1;
    }
    if parameters.len() != values.len() {
        return Err(Halt::Error(RuntimeError::Arity));
    }
    if fuel == 0 || it.store.scope_count == usize::MAX {
        return Err(Halt::Exhausted);
    }
    let function_env = bind_parameters(parameters, values, &closure, &mut it.store);
    execute_block(body, &function_env, it, fuel - 1, ops, Ghost(nums), Ghost(strict))
}

/// Executes a block: its statements, in a new scope inside `parent_env`.
fn execute_block<'a, P: Fn(&str) -> u64, A: Fn(ArithOp, u64, u64) -> u64>(
    statements: &'a Vec<Box<Stmt>>,
    parent_env: &Environment,
    it: &mut Interpreter<'a>,
    fuel: u64,
    ops: &NumberOps<P, A>,
    Ghost(nums): Ghost<Numbers>,
    Ghost(strict): Ghost<bool>,
) -> (r: Result<Object, Halt>)
    requires
        ops.implements(nums),
        strict ==> !semantics::panicked(semantics::execute_block(
            crate::statement::stmts_view(statements@), parent_env@, old(it)@, fuel as nat, nums)),
    ensures
        (final(it)@, result_view(r)) == semantics::execute_block(
            crate::statement::stmts_view(statements@), parent_env@, old(it)@, fuel as nat, nums),
    decreases fuel, semantics::stmts_size(crate::statement::stmts_view(statements@)), statements@.len() + 3,
{
    if it.store.scope_count == usize::MAX {
        return Err(Halt::Exhausted);
    }
    let ghost sv = crate::statement::stmts_view(statements@);
    let ghost full = semantics::execute_block(sv, parent_env@, old(it)@, fuel as nat, nums);
    let ghost st0 = it@;
    let env = Environment::new_child(parent_env, &mut it.store);
    assert(it@ == semantics::fresh_scope(st0));
    proof { crate::statement::lemma_stmts_view_len(statements@); }
    let mut i: usize = 0;
    while i < statements.len()
        invariant
            ops.implements(nums),
            sv == crate::statement::stmts_view(statements@),
            sv.len() == statements@.len(),
            i <= statements@.len(),
            full == semantics::execute_block(sv, parent_env@, old(it)@, fuel as nat, nums),
            full == semantics::run_block(sv, i as int, env@, it@, fuel as nat, nums),
            strict ==> !semantics::panicked(full),
        decreases statements.len() - i,
    {
        proof {
            crate::statement::lemma_stmts_view_index(statements@, i as int);
            semantics::lemma_stmts_size(sv, i as int);
        }
        if let Stmt::Break = *statements[i] {
            assert(sv[i as int] == StmtView::Break);
            return Ok(Object::Nil);
        }
        let ghost sti = it@;
        assert(semantics::run_block(sv, i as int, env@, sti, fuel as nat, nums) == {
            let (st1, r) = semantics::execute(sv[i as int], env@, sti, fuel as nat, false, nums);
            match r {
                Err(h) => (st1, Err(h)),
                Ok(ObjectView::Nil) => semantics::run_block(sv, i + 1, env@, st1, fuel as nat, nums),
                Ok(v) => (st1, Ok(v)),
            }
        });
        match execute(&statements[i], &env, it, fuel, false, ops, Ghost(nums), Ghost(strict)) {
            Err(h) => return Err(h),
            Ok(Object::Nil) => {},
            Ok(v) => return Ok(v),
        }
        i = i + 1;
    }
    Ok(Object::Nil)
}

/// Runs a loop (after its condition was evaluated once).
fn exec_while<'a, P: Fn(&str) -> u64, A: Fn(ArithOp, u64, u64) -> u64>(
    cond: &'a Expr,
    body: &'a Stmt,
    env: &Environment,
    it: &mut Interpreter<'a>,
    fuel: u64,
    ops: &NumberOps<P, A>,
    Ghost(nums): Ghost<Numbers>,
    Ghost(strict): Ghost<bool>,
) -> (r: Result<Object, Halt>)
    requires
        ops.implements(nums),
        strict ==> !semantics::panicked(semantics::while_loop(cond@, body@, env@, old(it)@, fuel as nat, nums)),
    ensures
        (final(it)@, result_view(r)) == semantics::while_loop(cond@, body@, env@, old(it)@, fuel as nat, nums),
    decreases fuel, semantics::stmt_size(body@), 1int,
{
    let ghost full = semantics::while_loop(cond@, body@, env@, it@, fuel as nat, nums);
    let mut f = fuel;
    loop
        invariant
            ops.implements(nums),
            f <= fuel,
            full == semantics::while_loop(cond@, body@, env@, old(it)@, fuel as nat, nums),
            full == semantics::while_loop(cond@, body@, env@, it@, f as nat, nums),
            strict ==> !semantics::panicked(full),
        decreases f,
    {
        if f == 0 {
            return Err(Halt::Exhausted);
        }
        let condition = match evaluate(cond, env, it, f - 1, ops, Ghost(nums), Ghost(strict)) {
            Ok(v) => v,
            Err(h) => return Err(h),
        };
        match truthiness(&condition, Ghost(strict)) {
            None => return Err(Halt::Panic(Fault::NotTrueOrFalse)),
            Some(false) => return Ok(Object::Nil),
            Some(true) => {},
        }
        let object = match execute(body, env, it, f - 1, false, ops, Ghost(nums), Ghost(strict)) {
            Ok(v) => v,
            Err(h) => return Err(h),
        };
        if should_exit(body) {
            return Ok(Object::Nil);
        }
        match object {
            Object::Nil => {},
            _ => return Ok(object),
        }
        f = f - 1;
    }
}

/// Executes a statement.
fn execute<'a, P: Fn(&str) -> u64, A: Fn(ArithOp, u64, u64) -> u64>(
    statement: &'a Stmt,
    env: &Environment,
    it: &mut Interpreter<'a>,
    fuel: u64,
    is_repl: bool,
    ops: &NumberOps<P, A>,
    Ghost(nums): Ghost<Numbers>,
    Ghost(strict): Ghost<bool>,
) -> (r: Result<Object, Halt>)
    requires
        ops.implements(nums),
        strict ==> !semantics::panicked(semantics::execute(statement@, env@, old(it)@, fuel as nat, is_repl, nums)),
    ensures
        (final(it)@, result_view(r)) == semantics::execute(statement@, env@, old(it)@, fuel as nat, is_repl, nums),
    decreases fuel, semantics::stmt_size(statement@), 2int,
{
    match statement {
        Stmt::Expr(expr) => {
            let object = match evaluate(expr, env, it, fuel, ops, Ghost(nums), Ghost(strict)) {
                Ok(v) => v,
                Err(h) => return Err(h),
            };
            if is_repl {
                let ghost before = it@;
                it.output.push(object);
                assert(it@.output =~= before.output.push(it.output@.last()@));
                assert(it@.functions =~= before.functions);
            }
            Ok(Object::Nil)
        },
        Stmt::Print(expr) => {
            let object = match evaluate(expr, env, it, fuel, ops, Ghost(nums), Ghost(strict)) {
                Ok(v) => v,
                Err(h) => return Err(h),
            };
            let ghost before = it@;
            it.output.push(object);
            assert(it@.output =~= before.output.push(it.output@.last()@));
            assert(it@.functions =~= before.functions);
            Ok(Object::Nil)
        },
        Stmt::Var(token, expr) => {
            let object = match evaluate(expr, env, it, fuel, ops, Ghost(nums), Ghost(strict)) {
                Ok(v) => v,
                Err(h) => return Err(h),
            };
            env.define(&mut it.store, token.lexeme.clone(), object);
            Ok(Object::Nil)
        },
        Stmt::Block(block) => execute_block(block, env, it, fuel, ops, Ghost(nums), Ghost(strict)),
        Stmt::If(cond, then_branch, else_branch) => {
            let object = match evaluate(cond, env, it, fuel, ops, Ghost(nums), Ghost(strict)) {
                Ok(v) => v,
                Err(h) => return Err(h),
            };
            match object {
                Object::Bool(true) => execute(then_branch, env, it, fuel, false, ops, Ghost(nums), Ghost(strict)),
                Object::Bool(false) => execute(else_branch, env, it, fuel, false, ops, Ghost(nums), Ghost(strict)),
                _ => Err(Halt::Panic(Fault::NonBooleanCondition)),
            }
        },
        Stmt::While(cond, body) => {
            match evaluate(cond, env, it, fuel, ops, Ghost(nums), Ghost(strict)) {
                Ok(_) => {},
                Err(h) => return Err(h),
            }
            exec_while(cond, body, env, it, fuel, ops, Ghost(nums), Ghost(strict))
        },
        Stmt::Function(name, parameters, body) => {
            if it.store.scope_count == usize::MAX {
                return Err(Halt::Exhausted);
            }
            let ghost st0 = it@;
            let closure = Environment::new_child(env, &mut it.store);
            let id = it.functions.len();
            let ghost st1 = it@;
            assert(st1 == semantics::fresh_scope(st0));
            let fv = FunctionValue { parameters, body, closure };
            it.functions.push(fv);
            assert(it@.functions =~= st1.functions.push(fv@));
            env.define(&mut it.store, name.lexeme.clone(), Object::Function(id));
            Ok(Object::Nil)
        },
        Stmt::Break => Ok(Object::Nil),
        Stmt::Return(_, expr) => evaluate(expr, env, it, fuel, ops, Ghost(nums), Ghost(strict)),
    }
}

/// The fuel a program runs with: how deep calls and how many loop
/// iterations may go.
pub const FUEL: u64 = 0xffff_ffff_ffff_ffffu64;

pub open spec fn program_view(v: Seq<Stmt>) -> Seq<StmtView> {
    v.map_values(|s: Stmt| s@)
}

/// Runs a program: each statement in turn in the global environment, up
/// to the first that halts. Returns what the program printed and how it
/// ended.
pub fn run<P: Fn(&str) -> u64, A: Fn(ArithOp, u64, u64) -> u64>(
    statements: &Vec<Stmt>,
    is_repl: bool,
    ops: &NumberOps<P, A>,
) -> (r: (Vec<Object>, Result<(), Halt>))
    requires
        exists|nums: Numbers| ops.implements(nums),
    ensures
        ({
            let (st, res) = semantics::interpret_spec(program_view(statements@), is_repl, FUEL as nat, ops.numbers());
            &&& values_view(r.0@) == st.output
            &&& r.1 == res
        }),
{
    execute_program(statements, is_repl, ops, Ghost(false))
}

/// Running a program. With `strict`, the program must not fault (as where
/// the run panics on a fault); without, the fault is returned.
fn execute_program<P: Fn(&str) -> u64, A: Fn(ArithOp, u64, u64) -> u64>(
    statements: &Vec<Stmt>,
    is_repl: bool,
    ops: &NumberOps<P, A>,
    Ghost(strict): Ghost<bool>,
) -> (r: (Vec<Object>, Result<(), Halt>))
    requires
        exists|nums: Numbers| ops.implements(nums),
        strict ==> !(semantics::interpret_spec(program_view(statements@), is_repl, FUEL as nat, ops.numbers()).1
            matches Err(Halt::Panic(_))),
    ensures
        ({
            let (st, res) = semantics::interpret_spec(program_view(statements@), is_repl, FUEL as nat, ops.numbers());
            &&& values_view(r.0@) == st.output
            &&& r.1 == res
        }),
{
    let ghost nums = ops.numbers();
    let mut it = Interpreter { store: Store::new(), functions: Vec::new(), output: Vec::new() };
    let environment = Environment::new_root(&mut it.store);
    let ghost sv = program_view(statements@);
    let ghost full = semantics::interpret_spec(sv, is_repl, FUEL as nat, nums);
    assert(it@.functions =~= Seq::<FunctionView>::empty());
    assert(it@.output =~= Seq::<ObjectView>::empty());
    assert(it@.store.bindings =~= Seq::<crate::environment::BindingView>::empty());
    assert(it@ == semantics::initial_state());
    let mut i: usize = 0;
    while i < statements.len()
        invariant
            ops.implements(nums),
            sv == program_view(statements@),
            i <= statements@.len(),
            environment@ == seq![0usize],
            nums == ops.numbers(),
            full == semantics::interpret_spec(sv, is_repl, FUEL as nat, nums),
            full == semantics::run_program(sv, i as int, environment@, it@, FUEL as nat, is_repl, nums),
            strict ==> !(full.1 matches Err(Halt::Panic(_))),
        decreases statements.len() - i,
    {
        let ghost sti = it@;
        assert(semantics::run_program(sv, i as int, environment@, sti, FUEL as nat, is_repl, nums) == {
            let (st1, r) = semantics::execute(sv[i as int], environment@, sti, FUEL as nat, is_repl, nums);
            match r {
                Err(h) => (st1, Err(h)),
                Ok(_) => semantics::run_program(sv, i + 1, environment@, st1, FUEL as nat, is_repl, nums),
            }
        });
        match execute(&statements[i], &environment, &mut it, FUEL, is_repl, ops, Ghost(nums), Ghost(strict)) {
            Ok(_) => {},
            Err(h) => {
                return (it.output, Err(h));
            },
        }
        i = i + 1;
    }
    (it.output, Ok(()))
}

/// Whether running the program ends in a fault (a panic) or exhausts
/// the interpreter's resources.
pub open spec fn aborts(statements: Seq<Stmt>, is_repl: bool, nums: Numbers) -> bool {
    let (st, res) = semantics::interpret_spec(program_view(statements), is_repl, FUEL as nat, nums);
    res matches Err(h) && !(h is Error)
}

/// Runs a program that does not abort: appends what it printed to
/// `output`, and returns the message of the error it ended with, if any.
pub fn interpret<P: Fn(&str) -> u64, A: Fn(ArithOp, u64, u64) -> u64>(
    statements: Vec<Stmt>,
    is_repl: bool,
    ops: &NumberOps<P, A>,
    output: &mut Vec<Object>,
) -> (r: Result<(), &'static str>)
    requires
        exists|nums: Numbers| ops.implements(nums),
        !aborts(statements@, is_repl, ops.numbers()),
    ensures
        ({
            let (st, res) = semantics::interpret_spec(program_view(statements@), is_repl, FUEL as nat, ops.numbers());
            &&& values_view(final(output)@) == values_view(old(output)@) + st.output
            &&& r is Ok <==> res is Ok
            &&& r matches Err(m) ==> res matches Err(Halt::Error(e)) && m@ == e.describe()
        }),
{
    let (printed, result) = execute_program(&statements, is_repl, ops, Ghost(true));
    let mut printed = printed;
    let ghost before = output@;
    let ghost p = printed@;
    output.append(&mut printed);
    assert(values_view(output@) =~= values_view(before) + values_view(p));
    match result {
        Ok(()) => Ok(()),
        Err(Halt::Error(e)) => Err(e.message()),
        Err(_) => Err("the run aborted"),
    }
}

} // verus!
