//! What running a program does, as spec functions: the value of each
//! operator, and the evaluation of expressions and execution of statements
//! against a [`State`]. Evaluation is bounded by `fuel`, which each call and
//! each loop iteration uses up; with none left it stops as `Exhausted`.

use vstd::prelude::*;
use crate::token::{TokenView, LiteralView, ObjectView};
use crate::token::token_type::TokenType;
use crate::expression::ExprView;
use crate::statement::StmtView;
use crate::environment::{StoreView, lookup, store_define, store_assign};
use crate::numbers::{Numbers, ArithOp, neg, num_eq, num_lt, num_le};

verus! {

/// An error a program's run ends with.
#[derive(Debug, Clone, Copy, PartialEq, Eq, Structural)]
pub enum RuntimeError {
    UnaryOperator,
    LogicalOperator,
    BinaryOperator,
    Arity,
    NegateNonNumber,
    OperandTypes,
    EqualityTypes,
}

impl RuntimeError {
    /// The text of [`Self::message`].
    pub open spec fn describe(self) -> Seq<char> {
        match self {
            RuntimeError::UnaryOperator => "Could not match unary operator"@,
            RuntimeError::LogicalOperator => "Conditional did not evaluate to true or false"@,
            RuntimeError::BinaryOperator => "Could not match binary operator"@,
            RuntimeError::Arity => "Arguments do not match Parameter arity"@,
            RuntimeError::NegateNonNumber => "Cannot perform -/1 on a non-number"@,
            RuntimeError::OperandTypes => "Couldn't perform binary arithmetic because types didn't match/weren't supported"@,
            RuntimeError::EqualityTypes => "Cannot perform ==/2 on a non-number or non-string"@,
        }
    }

    pub fn message(&self) -> (r: &'static str)
        ensures
            r@ == self.describe(),
    {
        match self {
            RuntimeError::UnaryOperator => "Could not match unary operator",
            RuntimeError::LogicalOperator => "Conditional did not evaluate to true or false",
            RuntimeError::BinaryOperator => "Could not match binary operator",
            RuntimeError::Arity => "Arguments do not match Parameter arity",
            RuntimeError::NegateNonNumber => "Cannot perform -/1 on a non-number",
            RuntimeError::OperandTypes => "Couldn't perform binary arithmetic because types didn't match/weren't supported",
            RuntimeError::EqualityTypes => "Cannot perform ==/2 on a non-number or non-string",
        }
    }
}

/// A fault that aborts the run (a panic of the program that runs it).
#[derive(Debug, Clone, Copy, PartialEq, Eq, Structural)]
pub enum Fault {
    UndefinedVariable,
    NilVariable,
    AssignUndefined,
    NonBooleanCondition,
    NotTrueOrFalse,
    NotCallable,
    ArgumentError(RuntimeError),
}

impl Fault {
    /// The text of [`Self::message`].
    pub open spec fn describe(self) -> Seq<char> {
        match self {
            Fault::UndefinedVariable => "Get: Undefined Variable!"@,
            Fault::NilVariable => "Variable is nil"@,
            Fault::AssignUndefined => "Assign: Undefined Variable!"@,
            Fault::NonBooleanCondition => "Conditional did not evaluate to true or false"@,
            Fault::NotTrueOrFalse => "Object was not true or false"@,
            Fault::NotCallable => "Couldn't map callee to function"@,
            Fault::ArgumentError(e) => e.describe(),
        }
    }

    pub fn message(&self) -> (r: &'static str)
        ensures
            r@ == self.describe(),
    {
        match self {
            Fault::UndefinedVariable => "Get: Undefined Variable!",
            Fault::NilVariable => "Variable is nil",
            Fault::AssignUndefined => "Assign: Undefined Variable!",
            Fault::NonBooleanCondition => "Conditional did not evaluate to true or false",
            Fault::NotTrueOrFalse => "Object was not true or false",
            Fault::NotCallable => "Couldn't map callee to function",
            Fault::ArgumentError(e) => e.message(),
        }
    }
}

/// Why evaluation stopped short of a value.
#[derive(Debug, Clone, Copy, PartialEq, Eq, Structural)]
pub enum Halt {
    Error(RuntimeError),
    Panic(Fault),
    Exhausted,
}

/// A function value: its parameters, its body, and the environment it was
/// declared in.
pub struct FunctionView {
    pub params: Seq<TokenView>,
    pub body: Seq<StmtView>,
    pub closure: Seq<usize>,
}

/// The state of a run: the variables, the function values, and what the
/// program printed.
pub struct State {
    pub store: StoreView,
    pub functions: Seq<FunctionView>,
    pub output: Seq<ObjectView>,
}

pub type Outcome = (State, Result<ObjectView, Halt>);

/// Whether evaluation ended in a fault (where the interpreter panics).
pub open spec fn panicked(o: Outcome) -> bool {
    o.1 matches Err(Halt::Panic(_))
}

pub open spec fn literal_value(l: LiteralView, nums: Numbers) -> ObjectView {
    match l {
        LiteralView::Nil => ObjectView::Nil,
        LiteralView::Bool(b) => ObjectView::Bool(b),
        LiteralView::Number(text) => ObjectView::Number((nums.parse)(text)),
        LiteralView::Str(s) => ObjectView::String(s),
    }
}

/// `!x`: `nil` is false, a boolean is negated, anything else is true.
pub open spec fn bang(o: ObjectView) -> ObjectView {
    match o {
        ObjectView::Nil => ObjectView::Bool(false),
        ObjectView::Bool(b) => ObjectView::Bool(!b),
        _ => ObjectView::Bool(true),
    }
}

/// `-x`, defined on numbers only.
pub open spec fn minus(o: ObjectView) -> Result<ObjectView, RuntimeError> {
    match o {
        ObjectView::Number(n) => Ok(ObjectView::Number(neg(n))),
        _ => Err(RuntimeError::NegateNonNumber),
    }
}

/// The truth of a condition: booleans only.
pub open spec fn truth(o: ObjectView) -> Option<bool> {
    match o {
        ObjectView::Bool(b) => Some(b),
        _ => None,
    }
}

/// Lexicographic order of strings (by character, as by code point).
pub open spec fn seq_lt(a: Seq<char>, b: Seq<char>) -> bool
    decreases a.len(),
{
    if a.len() == 0 {
        b.len() > 0
    } else if b.len() == 0 {
        false
    } else if a[0] != b[0] {
        a[0] < b[0]
    } else {
        seq_lt(a.drop_first(), b.drop_first())
    }
}

/// `l == r`: defined on two numbers, two strings, two booleans, two nils,
/// or two assignment results.
pub open spec fn equal_values(l: ObjectView, r: ObjectView) -> Result<bool, RuntimeError> {
    match (l, r) {
        (ObjectView::Number(a), ObjectView::Number(b)) => Ok(num_eq(a, b)),
        (ObjectView::String(a), ObjectView::String(b)) => Ok(a == b),
        (ObjectView::Bool(a), ObjectView::Bool(b)) => Ok(a == b),
        (ObjectView::Nil, ObjectView::Nil) => Ok(true),
        (ObjectView::NoValue, ObjectView::NoValue) => Ok(true),
        _ => Err(RuntimeError::EqualityTypes),
    }
}

pub open spec fn arith_op(t: TokenType) -> ArithOp {
    if t == TokenType::Minus {
        ArithOp::Minus
    } else if t == TokenType::Slash {
        ArithOp::Slash
    } else if t == TokenType::Star {
        ArithOp::Star
    } else {
        ArithOp::Plus
    }
}

/// An ordering operator on two numbers or two strings.
pub open spec fn compare(t: TokenType, l: ObjectView, r: ObjectView) -> Result<ObjectView, RuntimeError> {
    match (l, r) {
        (ObjectView::Number(a), ObjectView::Number(b)) => Ok(ObjectView::Bool(
            if t == TokenType::Greater { num_lt(b, a) }
            else if t == TokenType::GreaterEqual { num_le(b, a) }
            else if t == TokenType::Less { num_lt(a, b) }
            else { num_le(a, b) },
        )),
        (ObjectView::String(a), ObjectView::String(b)) => Ok(ObjectView::Bool(
            if t == TokenType::Greater { seq_lt(b, a) }
            else if t == TokenType::GreaterEqual { !seq_lt(a, b) }
            else if t == TokenType::Less { seq_lt(a, b) }
            else { !seq_lt(b, a) },
        )),
        _ => Err(RuntimeError::OperandTypes),
    }
}

/// The value of a binary operator applied to two values.
pub open spec fn binary_value(t: TokenType, l: ObjectView, r: ObjectView, nums: Numbers) -> Result<ObjectView, RuntimeError> {
    if t == TokenType::Minus || t == TokenType::Slash || t == TokenType::Star || t == TokenType::Plus {
        match (l, r) {
            (ObjectView::Number(a), ObjectView::Number(b)) => Ok(ObjectView::Number((nums.arith)(arith_op(t), a, b))),
            (ObjectView::String(a), ObjectView::String(b)) => if t == TokenType::Plus {
                Ok(ObjectView::String(a + b))
            } else {
                Err(RuntimeError::OperandTypes)
            },
            _ => Err(RuntimeError::OperandTypes),
        }
    } else if t == TokenType::Greater || t == TokenType::GreaterEqual || t == TokenType::Less || t == TokenType::LessEqual {
        compare(t, l, r)
    } else if t == TokenType::EqualEqual {
        match equal_values(l, r) {
            Ok(b) => Ok(ObjectView::Bool(b)),
            Err(e) => Err(e),
        }
    } else if t == TokenType::BangEqual {
        match equal_values(l, r) {
            Ok(b) => Ok(ObjectView::Bool(!b)),
            Err(e) => Err(e),
        }
    } else {
        Err(RuntimeError::BinaryOperator)
    }
}

/// Whether a loop body is a block with a `break` statement in it.
pub open spec fn should_exit(body: StmtView) -> bool {
    match body {
        StmtView::Block(stmts) => stmts.contains(StmtView::Break),
        _ => false,
    }
}

/// The store after binding each parameter name to its argument, in order.
pub open spec fn bind_params(store: StoreView, scope: usize, params: Seq<TokenView>, args: Seq<ObjectView>, i: int) -> StoreView
    decreases params.len() - i,
{
    if i < 0 || i >= params.len() || i >= args.len() {
        store
    } else {
        bind_params(store_define(store, scope, params[i].lexeme, args[i]), scope, params, args, i + 1)
    }
}

pub open spec fn with_store(st: State, store: StoreView) -> State {
    State { store, ..st }
}

pub open spec fn fresh_scope(st: State) -> State {
    with_store(st, StoreView { scope_count: st.store.scope_count + 1, ..st.store })
}

pub open spec fn can_allocate(st: State) -> bool {
    st.store.scope_count < usize::MAX
}

/// The number of nodes of an expression: what evaluation recurs on.
pub open spec fn expr_size(e: ExprView) -> nat
    decreases e, 0int,
{
    match e {
        ExprView::Assign(_, v) => 1 + expr_size(*v),
        ExprView::Binary(l, _, r) => 1 + expr_size(*l) + expr_size(*r),
        ExprView::Call(c, _, args) => 1 + expr_size(*c) + exprs_size(args),
        ExprView::Logical(l, _, r) => 1 + expr_size(*l) + expr_size(*r),
        ExprView::Unary(_, v) => 1 + expr_size(*v),
        ExprView::Grouping(v) => 1 + expr_size(*v),
        _ => 1,
    }
}

pub open spec fn exprs_size(s: Seq<ExprView>) -> nat
    decreases s, 1int,
{
    if s.len() == 0 {
        0
    } else {
        exprs_size(s.drop_last()) + expr_size(s.last())
    }
}

pub proof fn lemma_exprs_size(s: Seq<ExprView>, i: int)
    requires
        0 <= i < s.len(),
    ensures
        expr_size(s[i]) <= exprs_size(s),
    decreases s.len(),
{
    if i < s.len() - 1 {
        lemma_exprs_size(s.drop_last(), i);
    }
}

/// The number of nodes of a statement that execution recurs on (a
/// function declaration's body is not executed where it stands).
pub open spec fn stmt_size(s: StmtView) -> nat
    decreases s, 0int,
{
    match s {
        StmtView::Block(stmts) => 1 + stmts_size(stmts),
        StmtView::Expr(e) => 1 + expr_size(e),
        StmtView::Print(e) => 1 + expr_size(e),
        StmtView::Return(_, e) => 1 + expr_size(e),
        StmtView::Var(_, e) => 1 + expr_size(e),
        StmtView::If(c, t, e) => 1 + expr_size(c) + stmt_size(*t) + stmt_size(*e),
        StmtView::While(c, b) => 1 + expr_size(c) + stmt_size(*b),
        _ => 1,
    }
}

pub open spec fn stmts_size(s: Seq<StmtView>) -> nat
    decreases s, 1int,
{
    if s.len() == 0 {
        0
    } else {
        stmts_size(s.drop_last()) + stmt_size(s.last())
    }
}

pub proof fn lemma_stmts_size(s: Seq<StmtView>, i: int)
    requires
        0 <= i < s.len(),
    ensures
        stmt_size(s[i]) <= stmts_size(s),
    decreases s.len(),
{
    if i < s.len() - 1 {
        lemma_stmts_size(s.drop_last(), i);
    }
}

/// Evaluating an expression.
pub open spec fn eval(e: ExprView, env: Seq<usize>, st: State, fuel: nat, nums: Numbers) -> Outcome
    decreases fuel, expr_size(e), 0int,
{
    match e {
        ExprView::Literal(l) => (st, Ok(literal_value(l, nums))),
        ExprView::Grouping(inner) => eval(*inner, env, st, fuel, nums),
        ExprView::Unary(t, operand) => {
            let (st1, r) = eval(*operand, env, st, fuel, nums);
            match r {
                Err(h) => (st1, Err(h)),
                Ok(v) => if t.type_of == TokenType::Bang {
                    (st1, Ok(bang(v)))
                } else if t.type_of == TokenType::Minus {
                    match minus(v) {
                        Ok(n) => (st1, Ok(n)),
                        Err(err) => (st1, Err(Halt::Error(err))),
                    }
                } else {
                    (st1, Err(Halt::Error(RuntimeError::UnaryOperator)))
                },
            }
        },
        ExprView::Logical(left, t, right) => {
            let (st1, r) = eval(*left, env, st, fuel, nums);
            match r {
                Err(h) => (st1, Err(h)),
                Ok(l) => match truth(l) {
                    None => (st1, Err(Halt::Panic(Fault::NotTrueOrFalse))),
                    Some(b) => if t.type_of == TokenType::Or {
                        if b { (st1, Ok(l)) } else { eval(*right, env, st1, fuel, nums) }
                    } else if t.type_of == TokenType::And {
                        if b { eval(*right, env, st1, fuel, nums) } else { (st1, Ok(l)) }
                    } else {
                        (st1, Err(Halt::Error(RuntimeError::LogicalOperator)))
                    },
                },
            }
        },
        ExprView::Binary(left, t, right) => {
            let (st1, rl) = eval(*left, env, st, fuel, nums);
            match rl {
                Err(h) => (st1, Err(h)),
                Ok(l) => {
                    let (st2, rr) = eval(*right, env, st1, fuel, nums);
                    match rr {
                        Err(h) => (st2, Err(h)),
                        Ok(r) => match binary_value(t.type_of, l, r, nums) {
                            Ok(v) => (st2, Ok(v)),
                            Err(err) => (st2, Err(Halt::Error(err))),
                        },
                    }
                },
            }
        },
        ExprView::Variable(t) => match lookup(st.store, env, t.lexeme) {
            None => (st, Err(Halt::Panic(Fault::UndefinedVariable))),
            Some(ObjectView::NoValue) => (st, Err(Halt::Panic(Fault::NilVariable))),
            Some(v) => (st, Ok(v)),
        },
        ExprView::Assign(t, value) => {
            let (st1, r) = eval(*value, env, st, fuel, nums);
            match r {
                Err(h) => (st1, Err(h)),
                Ok(v) => match store_assign(st1.store, env, t.lexeme, v) {
                    None => (st1, Err(Halt::Panic(Fault::AssignUndefined))),
                    Some(store) => (with_store(st1, store), Ok(ObjectView::NoValue)),
                },
            }
        },
        ExprView::Call(callee, t, args) => {
            let (st1, rc) = eval(*callee, env, st, fuel, nums);
            match rc {
                Err(h) => (st1, Err(h)),
                Ok(ObjectView::Function(id)) => if id < st1.functions.len() {
                    finish_call(
                        st1.functions[id as int],
                        eval_args(args, 0, Seq::empty(), env, st1, fuel, nums),
                        fuel,
                        nums,
                    )
                } else {
                    (st1, Err(Halt::Panic(Fault::NotCallable)))
                },
                Ok(_) => (st1, Err(Halt::Panic(Fault::NotCallable))),
            }
        },
        ExprView::Empty => (st, Ok(ObjectView::Nil)),
    }
}

/// The rest of a call of `f`, once its arguments are evaluated: the body
/// runs in the global scope and a new scope that binds the parameters.
pub open spec fn finish_call(f: FunctionView, args: (State, Result<Seq<ObjectView>, Halt>), fuel: nat, nums: Numbers) -> Outcome
    decreases fuel, 0nat, 0int,
{
    let (st2, ra) = args;
    match ra {
        Err(h) => (st2, Err(h)),
        Ok(vals) => if f.params.len() != vals.len() {
            (st2, Err(Halt::Error(RuntimeError::Arity)))
        } else if fuel == 0 || !can_allocate(st2) {
            (st2, Err(Halt::Exhausted))
        } else {
            let scope = st2.store.scope_count as usize;
            let st3 = fresh_scope(st2);
            let st4 = with_store(st3, bind_params(st3.store, scope, f.params, vals, 0));
            execute_block(f.body, seq![f.closure[0], scope], st4, (fuel - 1) as nat, nums)
        },
    }
}

/// Evaluating the arguments from the `i`-th on, after the values `acc`; an
/// error in an argument aborts the run.
pub open spec fn eval_args(args: Seq<ExprView>, i: int, acc: Seq<ObjectView>, env: Seq<usize>, st: State, fuel: nat, nums: Numbers) -> (State, Result<Seq<ObjectView>, Halt>)
    decreases fuel, exprs_size(args), args.len() - i,
{
    if i < 0 || i >= args.len() {
        (st, Ok(acc))
    } else {
        proof { lemma_exprs_size(args, i); }
        let (st1, r) = eval(args[i], env, st, fuel, nums);
        match r {
            Err(Halt::Error(err)) => (st1, Err(Halt::Panic(Fault::ArgumentError(err)))),
            Err(h) => (st1, Err(h)),
            Ok(v) => eval_args(args, i + 1, acc.push(v), env, st1, fuel, nums),
        }
    }
}

/// Executing a block: its statements, in a new scope inside `env`.
pub open spec fn execute_block(stmts: Seq<StmtView>, env: Seq<usize>, st: State, fuel: nat, nums: Numbers) -> Outcome
    decreases fuel, stmts_size(stmts), stmts.len() + 1,
{
    if !can_allocate(st) {
        (st, Err(Halt::Exhausted))
    } else {
        let scope = st.store.scope_count as usize;
        run_block(stmts, 0, env.push(scope), fresh_scope(st), fuel, nums)
    }
}

/// Executing the statements of a block from the `i`-th on: up to a `break`,
/// or the first that gives a value other than `nil`, which is the block's.
pub open spec fn run_block(stmts: Seq<StmtView>, i: int, env: Seq<usize>, st: State, fuel: nat, nums: Numbers) -> Outcome
    decreases fuel, stmts_size(stmts), stmts.len() - i,
{
    if i < 0 || i >= stmts.len() || stmts[i] == StmtView::Break {
        (st, Ok(ObjectView::Nil))
    } else {
        proof { lemma_stmts_size(stmts, i); }
        let (st1, r) = execute(stmts[i], env, st, fuel, false, nums);
        match r {
            Err(h) => (st1, Err(h)),
            Ok(ObjectView::Nil) => run_block(stmts, i + 1, env, st1, fuel, nums),
            Ok(v) => (st1, Ok(v)),
        }
    }
}

/// Running a loop: while the condition is true, the body; a body that is
/// a block with a `break` in it runs at most once, and a body that gives a
/// value other than `nil` ends the loop with that value.
pub open spec fn while_loop(cond: ExprView, body: StmtView, env: Seq<usize>, st: State, fuel: nat, nums: Numbers) -> Outcome
    decreases fuel, stmt_size(body), 1int,
{
    if fuel == 0 {
        (st, Err(Halt::Exhausted))
    } else {
        let (st1, rc) = eval(cond, env, st, (fuel - 1) as nat, nums);
        match rc {
            Err(h) => (st1, Err(h)),
            Ok(c) => match truth(c) {
                None => (st1, Err(Halt::Panic(Fault::NotTrueOrFalse))),
                Some(false) => (st1, Ok(ObjectView::Nil)),
                Some(true) => {
                    let (st2, rb) = execute(body, env, st1, (fuel - 1) as nat, false, nums);
                    match rb {
                        Err(h) => (st2, Err(h)),
                        Ok(v) => if should_exit(body) {
                            (st2, Ok(ObjectView::Nil))
                        } else if v != ObjectView::Nil {
                            (st2, Ok(v))
                        } else {
                            while_loop(cond, body, env, st2, (fuel - 1) as nat, nums)
                        },
                    }
                },
            },
        }
    }
}

/// Executing a statement; its value is `nil` but for a `return`, and for
/// a block, `if` or loop whose body gives another value. In the REPL an
/// expression statement prints its value.
pub open spec fn execute(s: StmtView, env: Seq<usize>, st: State, fuel: nat, is_repl: bool, nums: Numbers) -> Outcome
    decreases fuel, stmt_size(s), 0int,
{
    match s {
        StmtView::Expr(e) => {
            let (st1, r) = eval(e, env, st, fuel, nums);
            match r {
                Err(h) => (st1, Err(h)),
                Ok(v) => if is_repl {
                    (State { output: st1.output.push(v), ..st1 }, Ok(ObjectView::Nil))
                } else {
                    (st1, Ok(ObjectView::Nil))
                },
            }
        },
        StmtView::Print(e) => {
            let (st1, r) = eval(e, env, st, fuel, nums);
            match r {
                Err(h) => (st1, Err(h)),
                Ok(v) => (State { output: st1.output.push(v), ..st1 }, Ok(ObjectView::Nil)),
            }
        },
        StmtView::Var(t, e) => {
            let (st1, r) = eval(e, env, st, fuel, nums);
            match r {
                Err(h) => (st1, Err(h)),
                Ok(v) => (with_store(st1, store_define(st1.store, env.last(), t.lexeme, v)), Ok(ObjectView::Nil)),
            }
        },
        StmtView::Block(stmts) => execute_block(stmts, env, st, fuel, nums),
        StmtView::If(c, then_branch, else_branch) => {
            let (st1, r) = eval(c, env, st, fuel, nums);
            match r {
                Err(h) => (st1, Err(h)),
                Ok(ObjectView::Bool(true)) => execute(*then_branch, env, st1, fuel, false, nums),
                Ok(ObjectView::Bool(false)) => execute(*else_branch, env, st1, fuel, false, nums),
                Ok(_) => (st1, Err(Halt::Panic(Fault::NonBooleanCondition))),
            }
        },
        StmtView::While(c, body) => {
            // The condition is evaluated once before the loop starts.
            let (st1, r) = eval(c, env, st, fuel, nums);
            match r {
                Err(h) => (st1, Err(h)),
                Ok(_) => while_loop(c, *body, env, st1, fuel, nums),
            }
        },
        StmtView::Function(name, params, body) => if !can_allocate(st) {
            (st, Err(Halt::Exhausted))
        } else {
            let closure = env.push(st.store.scope_count as usize);
            let st1 = fresh_scope(st);
            let id = st1.functions.len();
            let st2 = State { functions: st1.functions.push(FunctionView { params, body, closure }), ..st1 };
            (with_store(st2, store_define(st2.store, env.last(), name.lexeme, ObjectView::Function(id as usize))), Ok(ObjectView::Nil))
        },
        StmtView::Break => (st, Ok(ObjectView::Nil)),
        StmtView::Return(_, e) => eval(e, env, st, fuel, nums),
    }
}

/// Running a program's statements from the `i`-th on, each in the global
/// environment `env`, up to the first that halts.
pub open spec fn run_program(stmts: Seq<StmtView>, i: int, env: Seq<usize>, st: State, fuel: nat, is_repl: bool, nums: Numbers) -> (State, Result<(), Halt>)
    decreases stmts.len() - i,
{
    if i < 0 || i >= stmts.len() {
        (st, Ok(()))
    } else {
        let (st1, r) = execute(stmts[i], env, st, fuel, is_repl, nums);
        match r {
            Err(h) => (st1, Err(h)),
            Ok(_) => run_program(stmts, i + 1, env, st1, fuel, is_repl, nums),
        }
    }
}

/// The initial state: one global scope, no functions, nothing printed.
pub open spec fn initial_state() -> State {
    State {
        store: StoreView { bindings: Seq::empty(), scope_count: 1 },
        functions: Seq::empty(),
        output: Seq::empty(),
    }
}

/// Running a program from the initial state, in the global environment,
/// with `fuel`: the final state (what was printed among it) and how it
/// ended.
pub open spec fn interpret_spec(stmts: Seq<StmtView>, is_repl: bool, fuel: nat, nums: Numbers) -> (State, Result<(), Halt>) {
    run_program(stmts, 0, seq![0usize], initial_state(), fuel, is_repl, nums)
}

} // verus!
