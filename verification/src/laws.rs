//! Properties that hold across the library's operations.

use vstd::prelude::*;
use crate::token::{ObjectView, bare_token};
use crate::token::token_type::TokenType;
use crate::environment::{
    StoreView, BindingView, lookup, scope_get, store_define, store_assign, find_binding,
    defining_scope, lemma_find_binding,
};
use crate::numbers::{neg, num_eq, num_lt, num_le, is_nan, order_key};
use crate::semantics::{binary_value, bang, equal_values, eval, execute, State, Halt, Fault, literal_value, minus, compare, seq_lt};
use crate::token::LiteralView;
use crate::token::TokenView;
use crate::expression::ExprView;
use crate::statement::StmtView;
use crate::treewalk::scanner::{scan_from, scan_source, newline_count, plain, lemma_step_newlines};
use crate::numbers::Numbers;
use crate::semantics::{bind_params, while_loop, should_exit, run_block};
use crate::numbers::ArithOp;
use crate::grammar::peek;
use crate::scanner::simple_token_type;
use crate::treewalk::scanner::{operator_type, number_text, identifier_text, string_body};
use crate::chars::{is_decimal_digit, alphanumeric};

verus! {

// ----- variables -----

/// Once `name` is defined in an environment's innermost scope, looking it
/// up in that environment gives the value defined.
pub proof fn law_define_then_lookup(store: StoreView, env: Seq<usize>, name: Seq<char>, value: ObjectView)
    requires
        env.len() > 0,
    ensures
        lookup(store_define(store, env.last(), name, value), env, name) == Some(value),
{
    lemma_define_scope_get(store, env.last(), name, value, env.last(), name);
}

/// Defining `name` in a scope changes no other variable of any scope.
pub proof fn law_define_leaves_others(store: StoreView, scope: usize, name: Seq<char>, value: ObjectView,
    env: Seq<usize>, other: Seq<char>)
    requires
        other != name,
    ensures
        lookup(store_define(store, scope, name, value), env, other) == lookup(store, env, other),
    decreases env.len(),
{
    if env.len() > 0 {
        lemma_define_scope_get(store, scope, name, value, env.last(), other);
        law_define_leaves_others(store, scope, name, value, env.drop_last(), other);
    }
}

/// Defining `name` in one scope does not change it in another.
pub proof fn law_define_scoped(store: StoreView, scope: usize, name: Seq<char>, value: ObjectView,
    other_scope: usize)
    requires
        other_scope != scope,
    ensures
        scope_get(store_define(store, scope, name, value), other_scope, name) == scope_get(store, other_scope, name),
{
    lemma_define_scope_get(store, scope, name, value, other_scope, name);
}

/// After an assignment succeeds, looking the variable up gives the value
/// assigned.
pub proof fn law_assign_then_lookup(store: StoreView, env: Seq<usize>, name: Seq<char>, value: ObjectView)
    requires
        store_assign(store, env, name, value) is Some,
    ensures
        lookup(store_assign(store, env, name, value)->0, env, name) == Some(value),
{
    lemma_assign_lookup(store, env, name, value);
}

/// An assignment succeeds exactly when the variable can be looked up.
pub proof fn law_assign_needs_definition(store: StoreView, env: Seq<usize>, name: Seq<char>, value: ObjectView)
    ensures
        (store_assign(store, env, name, value) is Some) == (lookup(store, env, name) is Some),
    decreases env.len(),
{
    if env.len() > 0 {
        law_assign_needs_definition(store, env.drop_last(), name, value);
    }
}

/// A new scope hides nothing: an environment with one more scope, in
/// which nothing is bound yet, sees every variable the same.
pub proof fn law_child_sees_parent(store: StoreView, env: Seq<usize>, fresh: usize, name: Seq<char>)
    requires
        forall|k: int| 0 <= k < store.bindings.len() ==> #[trigger] store.bindings[k].scope != fresh,
    ensures
        lookup(store, env.push(fresh), name) == lookup(store, env, name),
{
    let s = fresh;
    lemma_find_absent(store.bindings, s, name, 0);
    assert(env.push(s).drop_last() =~= env);
}

/// A function's environment (the globals and a scope in which nothing is
/// bound yet) sees a variable exactly as the global scope binds it.
pub proof fn law_call_sees_globals(store: StoreView, globals: usize, fresh: usize, name: Seq<char>)
    requires
        forall|k: int| 0 <= k < store.bindings.len() ==> #[trigger] store.bindings[k].scope != fresh,
    ensures
        lookup(store, seq![globals, fresh], name) == scope_get(store, globals, name),
{
    let s = fresh;
    lemma_find_absent(store.bindings, s, name, 0);
    assert(seq![globals, s].drop_last() =~= seq![globals]);
    assert(seq![globals].drop_last() =~= Seq::<usize>::empty());
    assert(seq![globals, s].last() == s);
    assert(seq![globals].last() == globals);
    assert(lookup(store, Seq::<usize>::empty(), name) is None);
    assert(lookup(store, seq![globals], name) == scope_get(store, globals, name));
}

proof fn lemma_find_absent(bs: Seq<BindingView>, scope: usize, name: Seq<char>, j: int)
    requires
        forall|k: int| 0 <= k < bs.len() ==> #[trigger] bs[k].scope != scope,
    ensures
        find_binding(bs, scope, name, j) is None,
    decreases bs.len() - j,
{
    if 0 <= j < bs.len() {
        assert(bs[j].scope != scope);
        lemma_find_absent(bs, scope, name, j + 1);
    }
}

proof fn lemma_find_update_other(bs: Seq<BindingView>, k: int, b: BindingView, scope: usize, name: Seq<char>, j: int)
    requires
        0 <= k < bs.len(),
        0 <= j,
        bs[k].scope == b.scope && bs[k].name == b.name,
    ensures
        find_binding(bs.update(k, b), scope, name, j) == find_binding(bs, scope, name, j),
    decreases bs.len() - j,
{
    if j < bs.len() {
        lemma_find_update_other(bs, k, b, scope, name, j + 1);
    }
}

proof fn lemma_find_push(bs: Seq<BindingView>, b: BindingView, scope: usize, name: Seq<char>, j: int)
    requires
        0 <= j,
    ensures
        find_binding(bs.push(b), scope, name, j) == match find_binding(bs, scope, name, j) {
            Some(k) => Some(k),
            None => if j <= bs.len() && b.scope == scope && b.name == name { Some(bs.len() as int) } else { None },
        },
    decreases bs.len() + 1 - j,
{
    if j < bs.len() {
        assert(bs.push(b)[j] == bs[j]);
        lemma_find_push(bs, b, scope, name, j + 1);
    } else if j == bs.len() {
        assert(bs.push(b)[j] == b);
        assert(find_binding(bs.push(b), scope, name, j + 1) is None);
    }
}

/// How a definition changes what a scope binds.
proof fn lemma_define_scope_get(store: StoreView, scope: usize, name: Seq<char>, value: ObjectView,
    s2: usize, n2: Seq<char>)
    ensures
        scope_get(store_define(store, scope, name, value), s2, n2)
            == if s2 == scope && n2 == name { Some(value) } else { scope_get(store, s2, n2) },
{
    let bs = store.bindings;
    let b = BindingView { scope, name, value };
    lemma_find_binding(bs, scope, name, 0);
    lemma_find_binding(bs, s2, n2, 0);
    match find_binding(bs, scope, name, 0) {
        Some(k) => {
            lemma_find_update_other(bs, k, b, s2, n2, 0);
            lemma_find_binding(bs.update(k, b), s2, n2, 0);
            if s2 == scope && n2 == name {
            } else {
                match find_binding(bs, s2, n2, 0) {
                    Some(j) => { assert(j != k); },
                    None => {},
                }
            }
        },
        None => {
            lemma_find_push(bs, b, s2, n2, 0);
            if s2 == scope && n2 == name {
                assert(bs.push(b)[bs.len() as int] == b);
            }
        },
    }
}

proof fn lemma_assign_lookup(store: StoreView, env: Seq<usize>, name: Seq<char>, value: ObjectView)
    requires
        defining_scope(store, env, name) is Some,
    ensures
        lookup(store_define(store, defining_scope(store, env, name)->0, name, value), env, name) == Some(value),
    decreases env.len(),
{
    let s = defining_scope(store, env, name)->0;
    lemma_define_scope_get(store, s, name, value, env.last(), name);
    if scope_get(store, env.last(), name) is None {
        lemma_assign_lookup(store, env.drop_last(), name, value);
        if env.last() == s {
            // the innermost scope does not bind `name`, so it is not `s`
            lemma_defining_in(store, env.drop_last(), name);
        }
    }
}

proof fn lemma_defining_in(store: StoreView, env: Seq<usize>, name: Seq<char>)
    requires
        defining_scope(store, env, name) is Some,
    ensures
        scope_get(store, defining_scope(store, env, name)->0, name) is Some,
    decreases env.len(),
{
    if scope_get(store, env.last(), name) is None {
        lemma_defining_in(store, env.drop_last(), name);
    }
}

// ----- programs -----

/// What a variable reads after `var name = e;`: the value of `e` (reading
/// the value of an assignment is a fault).
pub proof fn law_var_then_read(t: TokenView, e: ExprView, env: Seq<usize>, st: State, fuel: nat,
    is_repl: bool, later_fuel: nat, nums: Numbers)
    requires
        env.len() > 0,
        execute(StmtView::Var(t, e), env, st, fuel, is_repl, nums).1 is Ok,
    ensures
        ({
            let st2 = execute(StmtView::Var(t, e), env, st, fuel, is_repl, nums).0;
            let v = eval(e, env, st, fuel, nums).1->Ok_0;
            eval(ExprView::Variable(t), env, st2, later_fuel, nums) == (st2, if v == ObjectView::NoValue {
                Err::<ObjectView, Halt>(Halt::Panic(Fault::NilVariable))
            } else {
                Ok::<ObjectView, Halt>(v)
            })
        }),
{
    let (st1, r) = eval(e, env, st, fuel, nums);
    law_define_then_lookup(st1.store, env, t.lexeme, r->Ok_0);
}

/// What a variable reads after an assignment `name = e` succeeds: the
/// value of `e` (reading the value of an assignment is a fault).
pub proof fn law_assign_then_read(t: TokenView, e: ExprView, env: Seq<usize>, st: State, fuel: nat,
    later_fuel: nat, nums: Numbers)
    requires
        eval(ExprView::Assign(t, Box::new(e)), env, st, fuel, nums).1 is Ok,
    ensures
        ({
            let st2 = eval(ExprView::Assign(t, Box::new(e)), env, st, fuel, nums).0;
            let v = eval(e, env, st, fuel, nums).1->Ok_0;
            eval(ExprView::Variable(t), env, st2, later_fuel, nums) == (st2, if v == ObjectView::NoValue {
                Err::<ObjectView, Halt>(Halt::Panic(Fault::NilVariable))
            } else {
                Ok::<ObjectView, Halt>(v)
            })
        }),
{
    let (st1, r) = eval(e, env, st, fuel, nums);
    law_assign_then_lookup(st1.store, env, t.lexeme, r->Ok_0);
}

/// Assigning a variable that no scope of the environment binds is a fault,
/// and changes nothing.
pub proof fn law_assign_undefined(t: TokenView, e: ExprView, env: Seq<usize>, st: State, fuel: nat, nums: Numbers)
    requires
        eval(e, env, st, fuel, nums).1 is Ok,
        lookup(eval(e, env, st, fuel, nums).0.store, env, t.lexeme) is None,
    ensures
        eval(ExprView::Assign(t, Box::new(e)), env, st, fuel, nums)
            == (eval(e, env, st, fuel, nums).0, Err::<ObjectView, Halt>(Halt::Panic(Fault::AssignUndefined))),
{
    let (st1, r) = eval(e, env, st, fuel, nums);
    law_assign_needs_definition(st1.store, env, t.lexeme, r->Ok_0);
}

/// A literal evaluates to its value and an empty expression to `nil`,
/// neither changing the state; a grouping evaluates as what it groups.
pub proof fn law_eval_simple(l: LiteralView, e: ExprView, env: Seq<usize>, st: State, fuel: nat, nums: Numbers)
    ensures
        eval(ExprView::Literal(l), env, st, fuel, nums) == (st, Ok::<ObjectView, Halt>(literal_value(l, nums))),
        eval(ExprView::Empty, env, st, fuel, nums) == (st, Ok::<ObjectView, Halt>(ObjectView::Nil)),
        eval(ExprView::Grouping(Box::new(e)), env, st, fuel, nums) == eval(e, env, st, fuel, nums),
{
}

/// `or` and `and` short-circuit: when the left operand decides, it is the
/// value and the right operand is not evaluated; otherwise the value is the
/// right operand's.
pub proof fn law_short_circuit(left: ExprView, op: TokenView, right: ExprView, env: Seq<usize>, st: State,
    fuel: nat, nums: Numbers, b: bool)
    requires
        op.type_of == TokenType::Or || op.type_of == TokenType::And,
        eval(left, env, st, fuel, nums).1 == Ok::<ObjectView, Halt>(ObjectView::Bool(b)),
    ensures
        ({
            let st1 = eval(left, env, st, fuel, nums).0;
            let r = eval(ExprView::Logical(Box::new(left), op, Box::new(right)), env, st, fuel, nums);
            if (op.type_of == TokenType::Or) == b {
                r == (st1, Ok::<ObjectView, Halt>(ObjectView::Bool(b)))
            } else {
                r == eval(right, env, st1, fuel, nums)
            }
        }),
{
}

/// An `if` runs the branch its condition selects and not the other; a
/// condition that is not a boolean is a fault.
pub proof fn law_if_branches(c: ExprView, th: StmtView, el: StmtView, env: Seq<usize>, st: State, fuel: nat,
    is_repl: bool, nums: Numbers)
    requires
        eval(c, env, st, fuel, nums).1 is Ok,
    ensures
        ({
            let (st1, r) = eval(c, env, st, fuel, nums);
            let out = execute(StmtView::If(c, Box::new(th), Box::new(el)), env, st, fuel, is_repl, nums);
            match r->Ok_0 {
                ObjectView::Bool(true) => out == execute(th, env, st1, fuel, false, nums),
                ObjectView::Bool(false) => out == execute(el, env, st1, fuel, false, nums),
                _ => out == (st1, Err::<ObjectView, Halt>(Halt::Panic(Fault::NonBooleanCondition))),
            }
        }),
{
}

/// Calling a function binds its parameters in order: with as many
/// arguments as parameters, all named differently, the i-th parameter is
/// bound, in the call's scope, to the i-th argument, and no other scope
/// changes.
pub proof fn law_parameters_bound_in_order(store: StoreView, scope: usize, params: Seq<TokenView>,
    args: Seq<ObjectView>)
    requires
        params.len() == args.len(),
        forall|i: int, j: int| 0 <= i < j < params.len() ==> #[trigger] params[i].lexeme != #[trigger] params[j].lexeme,
    ensures
        forall|i: int| 0 <= i < params.len()
            ==> scope_get(bind_params(store, scope, params, args, 0), scope, #[trigger] params[i].lexeme) == Some(args[i]),
        forall|s2: usize, n: Seq<char>| s2 != scope
            ==> #[trigger] scope_get(bind_params(store, scope, params, args, 0), s2, n) == scope_get(store, s2, n),
{
    lemma_bind_params(store, scope, params, args, 0);
}

proof fn lemma_bind_params(store: StoreView, scope: usize, params: Seq<TokenView>, args: Seq<ObjectView>, k: int)
    requires
        0 <= k <= params.len(),
        params.len() == args.len(),
        forall|i: int, j: int| 0 <= i < j < params.len() ==> #[trigger] params[i].lexeme != #[trigger] params[j].lexeme,
    ensures
        forall|i: int| k <= i < params.len()
            ==> scope_get(bind_params(store, scope, params, args, k), scope, #[trigger] params[i].lexeme) == Some(args[i]),
        forall|s2: usize, n: Seq<char>| (s2 != scope || forall|j: int| k <= j < params.len() ==> params[j].lexeme != n)
            ==> #[trigger] scope_get(bind_params(store, scope, params, args, k), s2, n) == scope_get(store, s2, n),
    decreases params.len() - k,
{
    if k < params.len() {
        let store1 = store_define(store, scope, params[k].lexeme, args[k]);
        lemma_bind_params(store1, scope, params, args, k + 1);
        assert(bind_params(store, scope, params, args, k) == bind_params(store1, scope, params, args, k + 1));
        let res = bind_params(store1, scope, params, args, k + 1);
        assert forall|i: int| k <= i < params.len()
            implies scope_get(res, scope, #[trigger] params[i].lexeme) == Some(args[i]) by {
            if i == k {
                assert forall|j: int| k + 1 <= j < params.len() implies params[j].lexeme != params[k].lexeme by {
                    assert(params[k].lexeme != params[j].lexeme);
                }
                lemma_define_scope_get(store, scope, params[k].lexeme, args[k], scope, params[k].lexeme);
            }
        }
        assert forall|s2: usize, n: Seq<char>| (s2 != scope || forall|j: int| k <= j < params.len() ==> params[j].lexeme != n)
            implies #[trigger] scope_get(res, s2, n) == scope_get(store, s2, n) by {
            lemma_define_scope_get(store, scope, params[k].lexeme, args[k], s2, n);
            if s2 == scope {
                assert(params[k].lexeme != n);
            }
        }
    }
}

/// A loop whose body gives a value other than `nil` (a `return` inside it)
/// ends with that value at once: the condition is not evaluated again.
/// (A body that is a block with a `break` ends the loop with `nil`.)
pub proof fn law_loop_stops_at_value(cond: ExprView, body: StmtView, env: Seq<usize>, st: State, fuel: nat,
    nums: Numbers)
    requires
        fuel > 0,
        eval(cond, env, st, (fuel - 1) as nat, nums).1 == Ok::<ObjectView, Halt>(ObjectView::Bool(true)),
        execute(body, env, eval(cond, env, st, (fuel - 1) as nat, nums).0, (fuel - 1) as nat, false, nums).1 matches Ok(v)
            && v != ObjectView::Nil,
    ensures
        while_loop(cond, body, env, st, fuel, nums) == if should_exit(body) {
            (execute(body, env, eval(cond, env, st, (fuel - 1) as nat, nums).0, (fuel - 1) as nat, false, nums).0,
                Ok::<ObjectView, Halt>(ObjectView::Nil))
        } else {
            execute(body, env, eval(cond, env, st, (fuel - 1) as nat, nums).0, (fuel - 1) as nat, false, nums)
        },
{
}

/// A loop whose condition is false ends with `nil`, and runs the body not
/// at all.
pub proof fn law_loop_false_condition(cond: ExprView, body: StmtView, env: Seq<usize>, st: State, fuel: nat,
    nums: Numbers)
    requires
        fuel > 0,
        eval(cond, env, st, (fuel - 1) as nat, nums).1 == Ok::<ObjectView, Halt>(ObjectView::Bool(false)),
    ensures
        while_loop(cond, body, env, st, fuel, nums)
            == (eval(cond, env, st, (fuel - 1) as nat, nums).0, Ok::<ObjectView, Halt>(ObjectView::Nil)),
{
}

/// A block stops at the first statement that gives a value other than
/// `nil` (a `return`), with that value, and runs nothing after it.
pub proof fn law_block_stops_at_value(stmts: Seq<StmtView>, i: int, env: Seq<usize>, st: State, fuel: nat,
    nums: Numbers)
    requires
        0 <= i < stmts.len(),
        stmts[i] != StmtView::Break,
        execute(stmts[i], env, st, fuel, false, nums).1 matches Ok(v) && v != ObjectView::Nil,
    ensures
        run_block(stmts, i, env, st, fuel, nums) == execute(stmts[i], env, st, fuel, false, nums),
{
}

/// A block stops at a `break`, with `nil`, and runs nothing after it.
pub proof fn law_block_stops_at_break(stmts: Seq<StmtView>, i: int, env: Seq<usize>, st: State, fuel: nat,
    nums: Numbers)
    requires
        0 <= i < stmts.len(),
        stmts[i] == StmtView::Break,
    ensures
        run_block(stmts, i, env, st, fuel, nums) == (st, Ok::<ObjectView, Halt>(ObjectView::Nil)),
{
}

/// `print e` adds the value of `e` at the end of the output, and changes
/// nothing else that evaluating `e` did not.
pub proof fn law_print_appends(e: ExprView, env: Seq<usize>, st: State, fuel: nat, is_repl: bool, nums: Numbers)
    requires
        eval(e, env, st, fuel, nums).1 is Ok,
    ensures
        ({
            let (st1, r) = eval(e, env, st, fuel, nums);
            let (st2, r2) = execute(StmtView::Print(e), env, st, fuel, is_repl, nums);
            &&& st2.output == st1.output.push(r->Ok_0)
            &&& st2.store == st1.store
            &&& st2.functions == st1.functions
            &&& r2 == Ok::<ObjectView, Halt>(ObjectView::Nil)
        }),
{
}

/// Each arithmetic operator on two numbers computes its own operation;
/// on two strings `+` concatenates them and the others fail.
pub proof fn law_arithmetic_operators(a: u64, b: u64, x: Seq<char>, y: Seq<char>, nums: Numbers)
    ensures
        binary_value(TokenType::Plus, ObjectView::Number(a), ObjectView::Number(b), nums)
            == Ok::<ObjectView, crate::semantics::RuntimeError>(ObjectView::Number((nums.arith)(ArithOp::Plus, a, b))),
        binary_value(TokenType::Minus, ObjectView::Number(a), ObjectView::Number(b), nums)
            == Ok::<ObjectView, crate::semantics::RuntimeError>(ObjectView::Number((nums.arith)(ArithOp::Minus, a, b))),
        binary_value(TokenType::Star, ObjectView::Number(a), ObjectView::Number(b), nums)
            == Ok::<ObjectView, crate::semantics::RuntimeError>(ObjectView::Number((nums.arith)(ArithOp::Star, a, b))),
        binary_value(TokenType::Slash, ObjectView::Number(a), ObjectView::Number(b), nums)
            == Ok::<ObjectView, crate::semantics::RuntimeError>(ObjectView::Number((nums.arith)(ArithOp::Slash, a, b))),
        binary_value(TokenType::Plus, ObjectView::String(x), ObjectView::String(y), nums)
            == Ok::<ObjectView, crate::semantics::RuntimeError>(ObjectView::String(x + y)),
        binary_value(TokenType::Minus, ObjectView::String(x), ObjectView::String(y), nums)
            == Err::<ObjectView, crate::semantics::RuntimeError>(crate::semantics::RuntimeError::OperandTypes),
{
}

// ----- parsing precedence -----

/// A product takes only `*` and `/` as its operators: before any other token it
/// ends, with the operand it has.
pub proof fn law_product_operators(left: ExprView, s: Seq<TokenView>)
    requires
        peek(s).type_of != TokenType::Star && peek(s).type_of != TokenType::Slash,
    ensures
        crate::grammar::multiplication_rest(left, s) == Ok::<(ExprView, Seq<TokenView>), crate::grammar::ParseError>((left, s)),
{
    crate::grammar::unfold_multiplication_rest(left, s);
    let ops: Seq<TokenType> = seq![TokenType::Star, TokenType::Slash];
    assert(!ops.contains(peek(s).type_of)) by {
        if ops.contains(peek(s).type_of) {
            let i = choose|i: int| 0 <= i < ops.len() && ops[i] == peek(s).type_of;
            assert(i == 0 || i == 1);
        }
    }
}

/// `*` and `/` join unary operands: after the left operand of a product, such an operator and
/// one of unary operands followed by no further such operator make one node.
pub proof fn law_product_operands(left: ExprView, s: Seq<TokenView>, right: ExprView, r: Seq<TokenView>)
    requires
        s.len() > 0,
        s.last().type_of == TokenType::Star || s.last().type_of == TokenType::Slash,
        crate::grammar::unary(s.drop_last()) == Ok::<(ExprView, Seq<TokenView>), crate::grammar::ParseError>((right, r)),
        r.len() < s.len(),
        peek(r).type_of != TokenType::Star && peek(r).type_of != TokenType::Slash,
    ensures
        crate::grammar::multiplication_rest(left, s) == Ok::<(ExprView, Seq<TokenView>), crate::grammar::ParseError>((crate::grammar::binary(left, s.last(), right), r)),
{
    crate::grammar::unfold_multiplication_rest(left, s);
    let ops: Seq<TokenType> = seq![TokenType::Star, TokenType::Slash];
    assert(ops.contains(s.last().type_of)) by {
        assert(ops[0] == TokenType::Star); assert(ops[1] == TokenType::Slash);
    }
    law_product_operators(crate::grammar::binary(left, s.last(), right), r);
}

/// A sum takes only `+` and `-` as its operators: before any other token it
/// ends, with the operand it has.
pub proof fn law_sum_operators(left: ExprView, s: Seq<TokenView>)
    requires
        peek(s).type_of != TokenType::Plus && peek(s).type_of != TokenType::Minus,
    ensures
        crate::grammar::addition_rest(left, s) == Ok::<(ExprView, Seq<TokenView>), crate::grammar::ParseError>((left, s)),
{
    crate::grammar::unfold_addition_rest(left, s);
    let ops: Seq<TokenType> = seq![TokenType::Plus, TokenType::Minus];
    assert(!ops.contains(peek(s).type_of)) by {
        if ops.contains(peek(s).type_of) {
            let i = choose|i: int| 0 <= i < ops.len() && ops[i] == peek(s).type_of;
            assert(i == 0 || i == 1);
        }
    }
}

/// `+` and `-` join products: after the left operand of a sum, such an operator and
/// one of products followed by no further such operator make one node.
pub proof fn law_sum_operands(left: ExprView, s: Seq<TokenView>, right: ExprView, r: Seq<TokenView>)
    requires
        s.len() > 0,
        s.last().type_of == TokenType::Plus || s.last().type_of == TokenType::Minus,
        crate::grammar::multiplication(s.drop_last()) == Ok::<(ExprView, Seq<TokenView>), crate::grammar::ParseError>((right, r)),
        r.len() < s.len(),
        peek(r).type_of != TokenType::Plus && peek(r).type_of != TokenType::Minus,
    ensures
        crate::grammar::addition_rest(left, s) == Ok::<(ExprView, Seq<TokenView>), crate::grammar::ParseError>((crate::grammar::binary(left, s.last(), right), r)),
{
    crate::grammar::unfold_addition_rest(left, s);
    let ops: Seq<TokenType> = seq![TokenType::Plus, TokenType::Minus];
    assert(ops.contains(s.last().type_of)) by {
        assert(ops[0] == TokenType::Plus); assert(ops[1] == TokenType::Minus);
    }
    law_sum_operators(crate::grammar::binary(left, s.last(), right), r);
}

/// A comparison takes only `<`, `<=`, `>` and `>=` as its operators: before any other token it
/// ends, with the operand it has.
pub proof fn law_comparison_operators(left: ExprView, s: Seq<TokenView>)
    requires
        peek(s).type_of != TokenType::Less && peek(s).type_of != TokenType::LessEqual && peek(s).type_of != TokenType::Greater && peek(s).type_of != TokenType::GreaterEqual,
    ensures
        crate::grammar::comparison_rest(left, s) == Ok::<(ExprView, Seq<TokenView>), crate::grammar::ParseError>((left, s)),
{
    crate::grammar::unfold_comparison_rest(left, s);
    let ops: Seq<TokenType> = seq![TokenType::Less, TokenType::LessEqual, TokenType::Greater, TokenType::GreaterEqual];
    assert(!ops.contains(peek(s).type_of)) by {
        if ops.contains(peek(s).type_of) {
            let i = choose|i: int| 0 <= i < ops.len() && ops[i] == peek(s).type_of;
            assert(i == 0 || i == 1 || i == 2 || i == 3);
        }
    }
}

/// `<`, `<=`, `>` and `>=` join sums: after the left operand of a comparison, such an operator and
/// one of sums followed by no further such operator make one node.
pub proof fn law_comparison_operands(left: ExprView, s: Seq<TokenView>, right: ExprView, r: Seq<TokenView>)
    requires
        s.len() > 0,
        s.last().type_of == TokenType::Less || s.last().type_of == TokenType::LessEqual || s.last().type_of == TokenType::Greater || s.last().type_of == TokenType::GreaterEqual,
        crate::grammar::addition(s.drop_last()) == Ok::<(ExprView, Seq<TokenView>), crate::grammar::ParseError>((right, r)),
        r.len() < s.len(),
        peek(r).type_of != TokenType::Less && peek(r).type_of != TokenType::LessEqual && peek(r).type_of != TokenType::Greater && peek(r).type_of != TokenType::GreaterEqual,
    ensures
        crate::grammar::comparison_rest(left, s) == Ok::<(ExprView, Seq<TokenView>), crate::grammar::ParseError>((crate::grammar::binary(left, s.last(), right), r)),
{
    crate::grammar::unfold_comparison_rest(left, s);
    let ops: Seq<TokenType> = seq![TokenType::Less, TokenType::LessEqual, TokenType::Greater, TokenType::GreaterEqual];
    assert(ops.contains(s.last().type_of)) by {
        assert(ops[0] == TokenType::Less); assert(ops[1] == TokenType::LessEqual); assert(ops[2] == TokenType::Greater); assert(ops[3] == TokenType::GreaterEqual);
    }
    law_comparison_operators(crate::grammar::binary(left, s.last(), right), r);
}

/// An equality takes only `==` and `!=` as its operators: before any other token it
/// ends, with the operand it has.
pub proof fn law_equality_operators(left: ExprView, s: Seq<TokenView>)
    requires
        peek(s).type_of != TokenType::BangEqual && peek(s).type_of != TokenType::EqualEqual,
    ensures
        crate::grammar::equality_rest(left, s) == Ok::<(ExprView, Seq<TokenView>), crate::grammar::ParseError>((left, s)),
{
    crate::grammar::unfold_equality_rest(left, s);
    let ops: Seq<TokenType> = seq![TokenType::BangEqual, TokenType::EqualEqual];
    assert(!ops.contains(peek(s).type_of)) by {
        if ops.contains(peek(s).type_of) {
            let i = choose|i: int| 0 <= i < ops.len() && ops[i] == peek(s).type_of;
            assert(i == 0 || i == 1);
        }
    }
}

/// `==` and `!=` join comparisons: after the left operand of an equality, such an operator and
/// one of comparisons followed by no further such operator make one node.
pub proof fn law_equality_operands(left: ExprView, s: Seq<TokenView>, right: ExprView, r: Seq<TokenView>)
    requires
        s.len() > 0,
        s.last().type_of == TokenType::BangEqual || s.last().type_of == TokenType::EqualEqual,
        crate::grammar::comparison(s.drop_last()) == Ok::<(ExprView, Seq<TokenView>), crate::grammar::ParseError>((right, r)),
        r.len() < s.len(),
        peek(r).type_of != TokenType::BangEqual && peek(r).type_of != TokenType::EqualEqual,
    ensures
        crate::grammar::equality_rest(left, s) == Ok::<(ExprView, Seq<TokenView>), crate::grammar::ParseError>((crate::grammar::binary(left, s.last(), right), r)),
{
    crate::grammar::unfold_equality_rest(left, s);
    let ops: Seq<TokenType> = seq![TokenType::BangEqual, TokenType::EqualEqual];
    assert(ops.contains(s.last().type_of)) by {
        assert(ops[0] == TokenType::BangEqual); assert(ops[1] == TokenType::EqualEqual);
    }
    law_equality_operators(crate::grammar::binary(left, s.last(), right), r);
}

/// A conjunction takes only `and` as its operator: before any other token it
/// ends, with the operand it has.
pub proof fn law_conjunction_operators(left: ExprView, s: Seq<TokenView>)
    requires
        peek(s).type_of != TokenType::And,
    ensures
        crate::grammar::and_rest(left, s) == Ok::<(ExprView, Seq<TokenView>), crate::grammar::ParseError>((left, s)),
{
    crate::grammar::unfold_and_rest(left, s);
    let ops: Seq<TokenType> = seq![TokenType::And];
    assert(!ops.contains(peek(s).type_of)) by {
        if ops.contains(peek(s).type_of) {
            let i = choose|i: int| 0 <= i < ops.len() && ops[i] == peek(s).type_of;
            assert(i == 0);
        }
    }
}

/// `and` joins equalities: after the left operand of a conjunction, such an operator and
/// one of equalities followed by no further such operator make one node.
pub proof fn law_conjunction_operands(left: ExprView, s: Seq<TokenView>, right: ExprView, r: Seq<TokenView>)
    requires
        s.len() > 0,
        s.last().type_of == TokenType::And,
        crate::grammar::equality(s.drop_last()) == Ok::<(ExprView, Seq<TokenView>), crate::grammar::ParseError>((right, r)),
        r.len() < s.len(),
        peek(r).type_of != TokenType::And,
    ensures
        crate::grammar::and_rest(left, s) == Ok::<(ExprView, Seq<TokenView>), crate::grammar::ParseError>((crate::grammar::logical(left, s.last(), right), r)),
{
    crate::grammar::unfold_and_rest(left, s);
    let ops: Seq<TokenType> = seq![TokenType::And];
    assert(ops.contains(s.last().type_of)) by {
        assert(ops[0] == TokenType::And);
    }
    law_conjunction_operators(crate::grammar::logical(left, s.last(), right), r);
}

/// A disjunction takes only `or` as its operator: before any other token it
/// ends, with the operand it has.
pub proof fn law_disjunction_operators(left: ExprView, s: Seq<TokenView>)
    requires
        peek(s).type_of != TokenType::Or,
    ensures
        crate::grammar::or_rest(left, s) == Ok::<(ExprView, Seq<TokenView>), crate::grammar::ParseError>((left, s)),
{
    crate::grammar::unfold_or_rest(left, s);
    let ops: Seq<TokenType> = seq![TokenType::Or];
    assert(!ops.contains(peek(s).type_of)) by {
        if ops.contains(peek(s).type_of) {
            let i = choose|i: int| 0 <= i < ops.len() && ops[i] == peek(s).type_of;
            assert(i == 0);
        }
    }
}

/// `or` joins conjunctions: after the left operand of a disjunction, such an operator and
/// one of conjunctions followed by no further such operator make one node.
pub proof fn law_disjunction_operands(left: ExprView, s: Seq<TokenView>, right: ExprView, r: Seq<TokenView>)
    requires
        s.len() > 0,
        s.last().type_of == TokenType::Or,
        crate::grammar::and_expr(s.drop_last()) == Ok::<(ExprView, Seq<TokenView>), crate::grammar::ParseError>((right, r)),
        r.len() < s.len(),
        peek(r).type_of != TokenType::Or,
    ensures
        crate::grammar::or_rest(left, s) == Ok::<(ExprView, Seq<TokenView>), crate::grammar::ParseError>((crate::grammar::logical(left, s.last(), right), r)),
{
    crate::grammar::unfold_or_rest(left, s);
    let ops: Seq<TokenType> = seq![TokenType::Or];
    assert(ops.contains(s.last().type_of)) by {
        assert(ops[0] == TokenType::Or);
    }
    law_disjunction_operators(crate::grammar::logical(left, s.last(), right), r);
}

// ----- literals and names -----

/// A number's text is digits with at most one dot in all (counting the
/// `dots` read before it), taken from the front of the input, and as long
/// as it can be: what follows is no digit, nor a dot where none was read.
pub proof fn law_number_text(rest: Seq<char>, dots: nat)
    requires
        dots <= 1,
    ensures
        ({
            let (t, after) = number_text(rest, dots);
            &&& rest == t + after
            &&& forall|i: int| 0 <= i < t.len() ==> is_decimal_digit(#[trigger] t[i]) || t[i] == '.'
            &&& forall|i: int, j: int| 0 <= i < t.len() && 0 <= j < t.len() && #[trigger] t[i] == '.'
                && #[trigger] t[j] == '.' ==> i == j && dots == 0
            &&& after.len() > 0 ==> !is_decimal_digit(after[0])
                && (after[0] == '.' ==> dots == 1 || exists|i: int| 0 <= i < t.len() && #[trigger] t[i] == '.')
        }),
    decreases rest.len(),
{
    if rest.len() > 0 {
        let c = rest[0];
        if is_decimal_digit(c) || (c == '.' && dots == 0) {
            let d2: nat = if c == '.' { 1 } else { dots };
            law_number_text(rest.drop_first(), d2);
            let (t1, after) = number_text(rest.drop_first(), d2);
            let t = seq![c] + t1;
            assert(number_text(rest, dots) == (t, after));
            assert(rest.drop_first() == t1 + after);
            assert(rest =~= seq![c] + rest.drop_first());
            assert(seq![c] + (t1 + after) =~= t + after);
            assert forall|i: int| 0 < i < t.len() implies #[trigger] t[i] == t1[i - 1] by {}
            assert(t[0] == c);
            if after.len() > 0 && after[0] == '.' && d2 == 1 && c == '.' {
                assert(t[0] == '.');
            }
            if after.len() > 0 && after[0] == '.' && d2 == 0 {
                let i = choose|i: int| 0 <= i < t1.len() && #[trigger] t1[i] == '.';
                assert(t[i + 1] == '.');
            }
        } else {
            assert(number_text(rest, dots) == (Seq::<char>::empty(), rest));
            assert(rest =~= Seq::<char>::empty() + rest);
        }
    } else {
        assert(rest =~= Seq::<char>::empty() + rest);
    }
}

/// A name's text is the alphanumeric characters at the front of the input,
/// as many as there are: what follows is not alphanumeric.
pub proof fn law_identifier_text(rest: Seq<char>)
    ensures
        ({
            let (t, after) = identifier_text(rest);
            &&& rest == t + after
            &&& forall|i: int| 0 <= i < t.len() ==> alphanumeric(#[trigger] t[i])
            &&& after.len() > 0 ==> !alphanumeric(after[0])
        }),
    decreases rest.len(),
{
    if rest.len() > 0 && alphanumeric(rest[0]) {
        law_identifier_text(rest.drop_first());
        let (t1, after) = identifier_text(rest.drop_first());
        let t = seq![rest[0]] + t1;
        assert(rest.drop_first() == t1 + after);
        assert(rest =~= seq![rest[0]] + rest.drop_first());
        assert(seq![rest[0]] + (t1 + after) =~= t + after);
        assert forall|i: int| 0 < i < t.len() implies #[trigger] t[i] == t1[i - 1] by {}
    } else {
        assert(rest =~= Seq::<char>::empty() + rest);
    }
}

/// A string's contents are everything up to the first quote, which ends
/// it; without a closing quote, the rest of the input.
pub proof fn law_string_body(rest: Seq<char>)
    ensures
        ({
            let (body, after) = string_body(rest);
            &&& forall|i: int| 0 <= i < body.len() ==> #[trigger] body[i] != '"'
            &&& if body.len() < rest.len() {
                rest == body + seq!['"'] + after
            } else {
                body == rest && after.len() == 0
            }
        }),
    decreases rest.len(),
{
    if rest.len() > 0 {
        if rest[0] == '"' {
            assert(rest =~= Seq::<char>::empty() + seq!['"'] + rest.drop_first());
        } else {
            law_string_body(rest.drop_first());
            let (b1, after) = string_body(rest.drop_first());
            let body = seq![rest[0]] + b1;
            assert forall|i: int| 0 < i < body.len() implies #[trigger] body[i] == b1[i - 1] by {}
            if b1.len() < rest.drop_first().len() {
                assert(rest.drop_first() == b1 + seq!['"'] + after);
                assert(rest =~= seq![rest[0]] + rest.drop_first());
                assert(seq![rest[0]] + (b1 + seq!['"'] + after) =~= body + seq!['"'] + after);
            } else {
                assert(body =~= rest);
            }
        }
    }
}

// ----- the two scanners -----

/// The first scanner makes the same token as the full scanner from every
/// punctuation or operator character, but for the braces, which it swaps.
pub proof fn law_simple_scanner_agrees(c: char, next: char)
    ensures
        simple_token_type(c, next) == operator_type(if c == '{' { '}' } else if c == '}' { '{' } else { c }, next),
{
}

// ----- operators -----

/// On numbers that are not NaN, `<`, `<=`, `>` and `>=` follow their
/// positions on the number line; in particular `x <= x` and `x >= x`.
pub proof fn law_number_comparisons(a: u64, b: u64, nums: Numbers)
    requires
        !is_nan(a),
        !is_nan(b),
    ensures
        binary_value(TokenType::Less, ObjectView::Number(a), ObjectView::Number(b), nums)
            == Ok::<ObjectView, crate::semantics::RuntimeError>(ObjectView::Bool(order_key(a) < order_key(b))),
        binary_value(TokenType::LessEqual, ObjectView::Number(a), ObjectView::Number(b), nums)
            == Ok::<ObjectView, crate::semantics::RuntimeError>(ObjectView::Bool(order_key(a) <= order_key(b))),
        binary_value(TokenType::Greater, ObjectView::Number(a), ObjectView::Number(b), nums)
            == Ok::<ObjectView, crate::semantics::RuntimeError>(ObjectView::Bool(order_key(a) > order_key(b))),
        binary_value(TokenType::GreaterEqual, ObjectView::Number(a), ObjectView::Number(b), nums)
            == Ok::<ObjectView, crate::semantics::RuntimeError>(ObjectView::Bool(order_key(a) >= order_key(b))),
        binary_value(TokenType::LessEqual, ObjectView::Number(a), ObjectView::Number(a), nums)
            == Ok::<ObjectView, crate::semantics::RuntimeError>(ObjectView::Bool(true)),
        binary_value(TokenType::GreaterEqual, ObjectView::Number(a), ObjectView::Number(a), nums)
            == Ok::<ObjectView, crate::semantics::RuntimeError>(ObjectView::Bool(true)),
{
}


/// Negating a number twice gives it back; negating anything else fails.
pub proof fn law_minus_twice(o: ObjectView)
    ensures
        o is Number ==> minus(o) is Ok && minus(minus(o)->Ok_0) == Ok::<ObjectView, crate::semantics::RuntimeError>(o),
        !(o is Number) ==> minus(o) == Err::<ObjectView, crate::semantics::RuntimeError>(crate::semantics::RuntimeError::NegateNonNumber),
{
    if let ObjectView::Number(n) = o {
        law_negation_involutive(n);
    }
}

/// Strings are ordered lexicographically: of two strings exactly one is
/// less than the other, unless they are equal.
pub proof fn law_string_order_total(a: Seq<char>, b: Seq<char>)
    ensures
        (seq_lt(a, b) as int) + (seq_lt(b, a) as int) + ((a == b) as int) == 1,
    decreases a.len(),
{
    if a.len() > 0 && b.len() > 0 && a[0] == b[0] {
        law_string_order_total(a.drop_first(), b.drop_first());
        if a.drop_first() == b.drop_first() {
            assert(a =~= seq![a[0]] + a.drop_first());
            assert(b =~= seq![b[0]] + b.drop_first());
        } else {
            assert(a != b) by {
                if a == b {
                    assert(a.drop_first() == b.drop_first());
                }
            }
        }
    } else if a.len() > 0 && b.len() > 0 {
        assert(a != b) by {
            if a == b {
                assert(a[0] == b[0]);
            }
        }
    } else if a.len() == 0 && b.len() == 0 {
        assert(a =~= b);
    } else {
        assert(a.len() != b.len());
    }
}

/// A string is less than every longer string that it begins, and strings
/// that differ first at some character are ordered as those characters.
pub proof fn law_string_order_prefix(a: Seq<char>, b: Seq<char>, c: char, d: char)
    ensures
        seq_lt(a, a + b) == (b.len() > 0),
        c != d ==> seq_lt(a + seq![c] + b, a + seq![d] + b) == (c < d),
    decreases a.len(),
{
    if a.len() == 0 {
        assert(a + b =~= b);
        assert(a + seq![c] + b =~= seq![c] + b);
        assert(a + seq![d] + b =~= seq![d] + b);
        assert((seq![c] + b)[0] == c);
        assert((seq![d] + b)[0] == d);
    } else {
        law_string_order_prefix(a.drop_first(), b, c, d);
        assert((a + b).drop_first() =~= a.drop_first() + b);
        assert((a + b)[0] == a[0]);
        assert((a + seq![c] + b).drop_first() =~= a.drop_first() + seq![c] + b);
        assert((a + seq![d] + b).drop_first() =~= a.drop_first() + seq![d] + b);
        assert((a + seq![c] + b)[0] == a[0]);
        assert((a + seq![d] + b)[0] == a[0]);
    }
}

/// On strings, `a > b` is `b < a`, `a >= b` is not `a < b`, and `a <= b`
/// is not `a > b`.
pub proof fn law_string_comparisons(a: Seq<char>, b: Seq<char>)
    ensures
        compare(TokenType::Greater, ObjectView::String(a), ObjectView::String(b))
            == compare(TokenType::Less, ObjectView::String(b), ObjectView::String(a)),
        compare(TokenType::GreaterEqual, ObjectView::String(a), ObjectView::String(b))
            == Ok::<ObjectView, crate::semantics::RuntimeError>(ObjectView::Bool(!seq_lt(a, b))),
        compare(TokenType::LessEqual, ObjectView::String(a), ObjectView::String(b))
            == Ok::<ObjectView, crate::semantics::RuntimeError>(ObjectView::Bool(!seq_lt(b, a))),
{
}

/// `!=` gives a boolean whenever it gives a value.
pub proof fn law_bang_equal_boolean(l: ObjectView, r: ObjectView, nums: Numbers)
    ensures
        binary_value(TokenType::BangEqual, l, r, nums) matches Ok(v) ==> v is Bool,
{
}


/// `!=` gives the negation of `==`, and fails where `==` fails.
pub proof fn law_bang_equal_negates(l: ObjectView, r: ObjectView, nums: Numbers)
    ensures
        binary_value(TokenType::BangEqual, l, r, nums) == match binary_value(TokenType::EqualEqual, l, r, nums) {
            Ok(ObjectView::Bool(b)) => Ok(ObjectView::Bool(!b)),
            other => other,
        },
{
}

/// `==` is symmetric.
pub proof fn law_equality_symmetric(l: ObjectView, r: ObjectView)
    ensures
        equal_values(l, r) == equal_values(r, l),
{
}

/// A string, boolean or `nil` equals itself; a number does unless it is
/// NaN.
pub proof fn law_equality_reflexive(v: ObjectView)
    ensures
        match v {
            ObjectView::Number(n) => equal_values(v, v) == Ok::<bool, crate::semantics::RuntimeError>(!is_nan(n)),
            ObjectView::String(_) | ObjectView::Bool(_) | ObjectView::Nil | ObjectView::NoValue
                => equal_values(v, v) == Ok::<bool, crate::semantics::RuntimeError>(true),
            ObjectView::Function(_) => equal_values(v, v) is Err,
        },
{
}

/// `!` negates a boolean; `!nil` is false and `!` of any other value is
/// true.
pub proof fn law_bang_values(b: bool, o: ObjectView)
    ensures
        bang(ObjectView::Bool(b)) == ObjectView::Bool(!b),
        bang(ObjectView::Nil) == ObjectView::Bool(false),
        !(o is Bool) && !(o is Nil) ==> bang(o) == ObjectView::Bool(true),
{
}

/// Two booleans, or two strings, are equal exactly when they are the same;
/// two numbers that are not NaN exactly when they stand at the same
/// position on the number line.
pub proof fn law_equality_exact(a: bool, b: bool, x: Seq<char>, y: Seq<char>, m: u64, n: u64)
    ensures
        equal_values(ObjectView::Bool(a), ObjectView::Bool(b)) == Ok::<bool, crate::semantics::RuntimeError>(a == b),
        equal_values(ObjectView::String(x), ObjectView::String(y)) == Ok::<bool, crate::semantics::RuntimeError>(x == y),
        !is_nan(m) && !is_nan(n) ==> equal_values(ObjectView::Number(m), ObjectView::Number(n))
            == Ok::<bool, crate::semantics::RuntimeError>(order_key(m) == order_key(n)),
{
}

/// `!!x` is `x` for a boolean `x`.
pub proof fn law_double_bang(b: bool)
    ensures
        bang(bang(ObjectView::Bool(b))) == ObjectView::Bool(b),
{
}

/// Negating a number twice gives it back.
pub proof fn law_negation_involutive(n: u64)
    ensures
        neg(neg(n)) == n,
{
    assert(n ^ 0x8000_0000_0000_0000u64 ^ 0x8000_0000_0000_0000u64 == n) by (bit_vector);
}

/// Negation mirrors a number about zero: it keeps NaN as NaN, and moves
/// any other number to the opposite position on the number line.
pub proof fn law_negation_mirrors(n: u64)
    ensures
        is_nan(neg(n)) == is_nan(n),
        !is_nan(n) ==> order_key(neg(n)) == -order_key(n),
{
    let m = neg(n);
    assert(m == n ^ 0x8000_0000_0000_0000u64);
    assert((m & 0x7fff_ffff_ffff_ffffu64) == (n & 0x7fff_ffff_ffff_ffffu64)) by (bit_vector)
        requires m == n ^ 0x8000_0000_0000_0000u64;
    assert(((m & 0x8000_0000_0000_0000u64) != 0) == ((n & 0x8000_0000_0000_0000u64) == 0)) by (bit_vector)
        requires m == n ^ 0x8000_0000_0000_0000u64;
    assert((m & 0x7ff0_0000_0000_0000u64) == (n & 0x7ff0_0000_0000_0000u64)) by (bit_vector)
        requires m == n ^ 0x8000_0000_0000_0000u64;
    assert((m & 0x000f_ffff_ffff_ffffu64) == (n & 0x000f_ffff_ffff_ffffu64)) by (bit_vector)
        requires m == n ^ 0x8000_0000_0000_0000u64;
}

/// `<=` is `<` or `==`, and `<` is not `>=`, on numbers that are not NaN.
pub proof fn law_number_order(a: u64, b: u64)
    requires
        !is_nan(a),
        !is_nan(b),
    ensures
        num_le(a, b) == (num_lt(a, b) || num_eq(a, b)),
        num_lt(a, b) == !num_le(b, a),
{
}

/// NaN is neither equal to, less than nor greater than any number.
pub proof fn law_nan_unordered(a: u64, b: u64)
    requires
        is_nan(a),
    ensures
        !num_eq(a, b) && !num_eq(b, a) && !num_lt(a, b) && !num_lt(b, a) && !num_le(a, b) && !num_le(b, a),
{
}

/// The two zeros are equal.
pub proof fn law_zeros_equal()
    ensures
        num_eq(0u64, 0x8000_0000_0000_0000u64),
{
    assert(0u64 & 0x7ff0_0000_0000_0000u64 == 0u64) by (bit_vector);
    assert(0x8000_0000_0000_0000u64 & 0x7ff0_0000_0000_0000u64 == 0u64) by (bit_vector);
    assert(0u64 & 0x7fff_ffff_ffff_ffffu64 == 0u64) by (bit_vector);
    assert(0x8000_0000_0000_0000u64 & 0x7fff_ffff_ffff_ffffu64 == 0u64) by (bit_vector);
    assert(0u64 & 0x8000_0000_0000_0000u64 == 0u64) by (bit_vector);
    assert(0x8000_0000_0000_0000u64 & 0x8000_0000_0000_0000u64 != 0u64) by (bit_vector);
}

// ----- scanning -----

/// Scanning always ends with an `Eof` token, and it is the only one.
pub proof fn law_scan_ends_with_eof(source: Seq<char>)
    ensures
        scan_source(source).len() > 0,
        scan_source(source).last().type_of == TokenType::Eof,
        forall|i: int| 0 <= i < scan_source(source).len() - 1 ==> #[trigger] scan_source(source)[i].type_of != TokenType::Eof,
{
    lemma_no_eof(source, 1);
}

proof fn lemma_no_eof(rest: Seq<char>, line: u32)
    ensures
        forall|i: int| 0 <= i < scan_from(rest, line).0.len() ==> #[trigger] scan_from(rest, line).0[i].type_of != TokenType::Eof,
    decreases rest.len(),
{
    if rest.len() > 0 {
        let step = crate::treewalk::scanner::scan_one(rest[0], rest.drop_first(), line);
        let after = if step.1.len() < rest.len() { step.1 } else { Seq::empty() };
        lemma_no_eof(after, step.2);
        crate::treewalk::scanner::lemma_keyword_not_eof(rest, line);
    }
}

/// Tokens come in the order of their lines: each token's line is at
/// least 1 and no less than the line of any token before it.
pub proof fn law_scan_lines_ordered(source: Seq<char>)
    requires
        newline_count(source) < u32::MAX,
    ensures
        forall|i: int| 0 <= i < scan_source(source).len() ==> #[trigger] scan_source(source)[i].line >= 1,
        forall|i: int, j: int| 0 <= i < j < scan_source(source).len()
            ==> #[trigger] scan_source(source)[i].line <= #[trigger] scan_source(source)[j].line,
{
    lemma_lines(source, 1);
    let (ts, es, l) = scan_from(source, 1);
    assert forall|i: int, j: int| 0 <= i < j < ts.push(bare_token(TokenType::Eof, l)).len()
        implies #[trigger] ts.push(bare_token(TokenType::Eof, l))[i].line <= #[trigger] ts.push(bare_token(TokenType::Eof, l))[j].line by {
        if j < ts.len() {
            assert(ts[i].line <= ts[j].line);
        } else {
            assert(ts[i].line <= l);
        }
    }
}

proof fn lemma_lines(rest: Seq<char>, line: u32)
    requires
        line + newline_count(rest) <= u32::MAX,
    ensures
        ({
            let (ts, es, l) = scan_from(rest, line);
            &&& line <= l
            &&& forall|i: int| 0 <= i < ts.len() ==> line <= #[trigger] ts[i].line <= l
            &&& forall|i: int, j: int| 0 <= i < j < ts.len() ==> #[trigger] ts[i].line <= #[trigger] ts[j].line
        }),
    decreases rest.len(),
{
    if rest.len() > 0 {
        let step = crate::treewalk::scanner::scan_one(rest[0], rest.drop_first(), line);
        let after = if step.1.len() < rest.len() { step.1 } else { Seq::empty() };
        lemma_step_newlines(rest, line);
        assert(step.0 matches Some(t) ==> t.line == line);
        lemma_lines(after, step.2);
        let (ts, es, l) = scan_from(after, step.2);
        match step.0 {
            Some(t) => {
                let all = seq![t] + ts;
                assert forall|i: int| 0 <= i < all.len() implies line <= #[trigger] all[i].line <= l by {
                    if i > 0 {
                        assert(all[i] == ts[i - 1]);
                    }
                }
                assert forall|i: int, j: int| 0 <= i < j < all.len() implies #[trigger] all[i].line <= #[trigger] all[j].line by {
                    assert(all[j] == ts[j - 1]);
                    if i > 0 {
                        assert(all[i] == ts[i - 1]);
                    }
                }
            },
            None => {},
        }
    }
}

/// In text with no string or comment (no quote and no slash), every
/// newline counts: the `Eof` token stands on line 1 plus the number of
/// newlines.
pub proof fn law_scan_eof_line(source: Seq<char>)
    requires
        plain(source),
        newline_count(source) < u32::MAX,
    ensures
        scan_source(source).last() == bare_token(TokenType::Eof, (1 + newline_count(source)) as u32),
{
    lemma_plain_lines(source, 1);
}

proof fn lemma_plain_lines(rest: Seq<char>, line: u32)
    requires
        plain(rest),
        line + newline_count(rest) <= u32::MAX,
    ensures
        scan_from(rest, line).2 == line + newline_count(rest),
    decreases rest.len(),
{
    if rest.len() > 0 {
        let step = crate::treewalk::scanner::scan_one(rest[0], rest.drop_first(), line);
        lemma_step_newlines(rest, line);
        lemma_plain_lines(step.1, step.2);
    }
}

/// White space before a program does not change its tokens.
pub proof fn law_leading_space(source: Seq<char>)
    ensures
        scan_source(seq![' '] + source) == scan_source(source),
{
    assert((seq![' '] + source).drop_first() =~= source);
    assert((seq![' '] + source)[0] == ' ');
}

} // verus!
