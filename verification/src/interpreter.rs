//! The tree-walking interpreter, verified against the big-step semantics of
//! `semantics`.
//!
//! Each evaluation method's contract says: feed the semantics this
//! interpreter's state, the clock readings this call drew (recorded in
//! `clock_log`) followed by any further stream, and a fuel bound, and it
//! yields exactly the state and outcome the method produced. Fuel bounds the
//! depth of function calls and the total iterations of each loop; callers
//! pick it, and exhaustion is reported as its own outcome, distinct from the
//! language's runtime errors.
use vstd::prelude::*;
use crate::ast::spec_expr_view;
use crate::ast::spec_stmt_view;
use crate::ast::spec_stmts_view;
use crate::ast::Expr;
use crate::ast::LoxFunctionNode;
use crate::ast::SpecExpr;
use crate::ast::SpecStmt;
use crate::ast::Stmt;
use crate::environment::arena_wf;
use crate::environment::env_assign;
use crate::environment::env_define;
use crate::environment::env_get;
use crate::environment::push_scope;
use crate::environment::spec_assign;
use crate::environment::spec_lookup;
use crate::environment::spec_scopes;
use crate::environment::Environment;
use crate::environment::SpecScope;
use crate::native_functions::global_env;
use crate::native_functions::now_millis;
use crate::numbers::add_bits;
use crate::numbers::bits_of_u64;
use crate::numbers::div_bits;
use crate::numbers::eq_bits;
use crate::numbers::ge_bits;
use crate::numbers::gt_bits;
use crate::numbers::le_bits;
use crate::numbers::lt_bits;
use crate::numbers::mul_bits;
use crate::numbers::neg_bits;
use crate::numbers::sub_bits;
use crate::runtime_error::arity_message;
use crate::runtime_error::msg_not_callable;
use crate::runtime_error::msg_operand_number;
use crate::runtime_error::msg_operands_numbers;
use crate::runtime_error::msg_operands_numbers_or_strings;
use crate::runtime_error::msg_top_level_return;
use crate::runtime_error::RuntimeError;
use crate::runtime_error::SpecRuntimeError;
use crate::semantics::eval_expr;
use crate::semantics::eval_exprs;
use crate::semantics::exec_stmt;
use crate::semantics::exec_stmts;
use crate::semantics::expr_size;
use crate::semantics::exprs_size;
use crate::semantics::spec_apply_binary;
use crate::semantics::spec_apply_unary;
use crate::semantics::spec_arity;
use crate::semantics::spec_interpret;
use crate::semantics::spec_invoke;
use crate::semantics::spec_literal_value;
use crate::semantics::spec_param_bindings;
use crate::semantics::stmt_size;
use crate::semantics::stmts_size;
use crate::semantics::SpecEval;
use crate::semantics::SpecEvalList;
use crate::semantics::SpecExec;
use crate::semantics::SpecState;
use crate::token::Literal;
use crate::token::Token;
use crate::token::TokenType;
use crate::value::LoxCallable;
use crate::value::LoxFunction;
use crate::value::NativeKind;
use crate::value::SpecCallable;
use crate::value::SpecValue;
use crate::value::Value;
use vstd::string::StringExecFns;

verus! {

/// Abnormal completion: a runtime error of the program, or the interpreter's
/// fuel bound ran out.
pub enum Failure {
    Error(RuntimeError),
    Exhausted,
}

/// Normal completion of a statement: it fell through, or a `return` is
/// unwinding with its keyword token and value. The return signal is expected
/// control flow, not an error; the function-call boundary consumes it.
pub enum Control {
    Completed,
    Returned(Token, Value),
}

/// The interpreter: the scope arena, the indices of the global and current
/// scopes, the values printed so far, and the clock readings drawn so far.
pub struct Interpreter {
    pub globals: usize,
    pub environment: usize,
    pub scopes: Vec<Environment>,
    pub output: Vec<Value>,
    pub clock_log: Vec<u64>,
}

/// Views of a list of runtime values.
pub open spec fn spec_values(v: Seq<Value>) -> Seq<SpecValue> {
    Seq::new(v.len(), |i: int| v[i]@)
}

/// A value is meaningful in an arena of `n` scopes: if it is a declared
/// function, the scope it captured exists.
pub open spec fn value_ok(v: SpecValue, n: int) -> bool {
    match v {
        SpecValue::Callable(SpecCallable::Function(f)) => 0 <= f.closure < n,
        _ => true,
    }
}

pub open spec fn values_ok(vs: Seq<SpecValue>, n: int) -> bool {
    forall|i: int| 0 <= i < vs.len() ==> value_ok(#[trigger] vs[i], n)
}

/// Every value bound in a scope is meaningful.
pub open spec fn scope_ok(sc: SpecScope, n: int) -> bool {
    forall|name: Seq<char>| #[trigger]
        sc.bindings.dom().contains(name) ==> value_ok(sc.bindings[name], n)
}

pub open spec fn scopes_ok(ss: Seq<SpecScope>, n: int) -> bool {
    forall|i: int| 0 <= i < ss.len() ==> scope_ok(#[trigger] ss[i], n)
}

/// The clock readings a stretch of execution drew: the log's new suffix.
pub open spec fn drawn(pre: Interpreter, post: Interpreter) -> Seq<u64> {
    post.clock_log@.skip(pre.clock_log@.len() as int)
}

impl Interpreter {
    /// The interpreter's invariant: the arena is well formed, the global
    /// scope is the first one, the current scope exists, and every stored
    /// closure points at an existing scope.
    pub open spec fn inv(&self) -> bool {
        &&& arena_wf(self.scopes@)
        &&& self.scopes@.len() >= 1
        &&& self.globals == 0
        &&& (self.environment as int) < self.scopes@.len()
        &&& scopes_ok(spec_scopes(self.scopes@), self.scopes@.len() as int)
    }

    /// The semantics' state for this interpreter, given the readings the
    /// clock has yet to produce.
    pub open spec fn st(&self, clock: Seq<u64>) -> SpecState {
        SpecState {
            scopes: spec_scopes(self.scopes@),
            output: spec_values(self.output@),
            clock,
        }
    }
}

/// What every evaluation step preserves: the invariant, the current scope,
/// the identity of the global scope, the log already drawn, and every scope
/// already allocated (scopes are only added, never removed).
pub open spec fn frames(pre: Interpreter, post: Interpreter) -> bool {
    &&& post.inv()
    &&& post.environment == pre.environment
    &&& post.globals == pre.globals
    &&& pre.clock_log@.is_prefix_of(post.clock_log@)
    &&& pre.scopes@.len() <= post.scopes@.len()
}

/// The semantic outcome an expression result stands for.
pub open spec fn eval_result(post: Interpreter, rest: Seq<u64>, r: Result<Value, Failure>) -> SpecEval {
    match r {
        Result::Ok(v) => SpecEval::Val(post.st(rest), v@),
        Result::Err(Failure::Error(e)) => SpecEval::Fail(post.st(rest), e@),
        Result::Err(Failure::Exhausted) => SpecEval::Out,
    }
}

/// The method turned `pre` into `post` and `r` exactly as `eval_expr` says.
pub open spec fn eval_post(
    pre: Interpreter,
    post: Interpreter,
    e: SpecExpr,
    fuel: nat,
    r: Result<Value, Failure>,
) -> bool {
    forall|rest: Seq<u64>|
        #![trigger eval_expr(pre.st(drawn(pre, post) + rest), pre.environment as int, e, fuel)]
        eval_expr(pre.st(drawn(pre, post) + rest), pre.environment as int, e, fuel)
            == eval_result(post, rest, r)
}

/// The semantic outcome a statement result stands for.
pub open spec fn exec_result(post: Interpreter, rest: Seq<u64>, r: Result<Control, Failure>) -> SpecExec {
    match r {
        Result::Ok(Control::Completed) => SpecExec::Done(post.st(rest)),
        Result::Ok(Control::Returned(k, v)) => SpecExec::Ret(post.st(rest), k@, v@),
        Result::Err(Failure::Error(e)) => SpecExec::Fail(post.st(rest), e@),
        Result::Err(Failure::Exhausted) => SpecExec::Out,
    }
}

/// The method turned `pre` into `post` and `r` exactly as `exec_stmt` says.
pub open spec fn exec_post(
    pre: Interpreter,
    post: Interpreter,
    s: SpecStmt,
    fuel: nat,
    r: Result<Control, Failure>,
) -> bool {
    forall|rest: Seq<u64>|
        #![trigger exec_stmt(pre.st(drawn(pre, post) + rest), pre.environment as int, s, fuel)]
        exec_stmt(pre.st(drawn(pre, post) + rest), pre.environment as int, s, fuel)
            == exec_result(post, rest, r)
}

/// As `exec_post`, for a statement list run in the scope at `env`.
pub open spec fn block_post(
    pre: Interpreter,
    post: Interpreter,
    env: int,
    ss: Seq<SpecStmt>,
    fuel: nat,
    r: Result<Control, Failure>,
) -> bool {
    forall|rest: Seq<u64>|
        #![trigger exec_stmts(pre.st(drawn(pre, post) + rest), env, ss, fuel)]
        exec_stmts(pre.st(drawn(pre, post) + rest), env, ss, fuel) == exec_result(post, rest, r)
}

/// As `eval_post`, for invoking an already-evaluated callable.
pub open spec fn invoke_post(
    pre: Interpreter,
    post: Interpreter,
    c: SpecCallable,
    args: Seq<SpecValue>,
    paren: crate::token::SpecToken,
    fuel: nat,
    r: Result<Value, Failure>,
) -> bool {
    forall|rest: Seq<u64>|
        #![trigger spec_invoke(pre.st(drawn(pre, post) + rest), c, args, paren, fuel)]
        spec_invoke(pre.st(drawn(pre, post) + rest), c, args, paren, fuel)
            == eval_result(post, rest, r)
}

/// A returned value points at an existing scope.
pub open spec fn result_value_ok(r: Result<Value, Failure>, n: int) -> bool {
    match r {
        Result::Ok(v) => value_ok(v@, n),
        Result::Err(_) => true,
    }
}

/// A return signal's value points at an existing scope.
pub open spec fn control_value_ok(r: Result<Control, Failure>, n: int) -> bool {
    match r {
        Result::Ok(Control::Returned(_, v)) => value_ok(v@, n),
        _ => true,
    }
}

/// Drawing in two stretches is drawing their concatenation.
proof fn lemma_drawn_chain(a: Interpreter, b: Interpreter, c: Interpreter)
    requires
        a.clock_log@.is_prefix_of(b.clock_log@),
        b.clock_log@.is_prefix_of(c.clock_log@),
    ensures
        drawn(a, c) == drawn(a, b) + drawn(b, c),
        a.clock_log@.is_prefix_of(c.clock_log@),
{
    assert(drawn(a, c) =~= drawn(a, b) + drawn(b, c));
}

/// A value found by chained lookup in well-formed scopes is meaningful.
proof fn lemma_lookup_ok(ss: Seq<SpecScope>, env: int, name: Seq<char>, n: int)
    requires
        scopes_ok(ss, n),
    ensures
        match spec_lookup(ss, env, name) {
            Option::Some(v) => value_ok(v, n),
            Option::None => true,
        },
    decreases env,
{
    if 0 <= env < ss.len() {
        let sc = ss[env];
        if sc.bindings.dom().contains(name) {
        } else {
            match sc.enclosing {
                Option::Some(p) => {
                    if 0 <= p < env {
                        lemma_lookup_ok(ss, p, name, n);
                    }
                },
                Option::None => {},
            }
        }
    }
}

/// Inserting a meaningful value keeps a scope well formed.
proof fn lemma_scope_ok_insert(sc: SpecScope, name: Seq<char>, v: SpecValue, n: int)
    requires
        scope_ok(sc, n),
        value_ok(v, n),
    ensures
        scope_ok(
            SpecScope { bindings: sc.bindings.insert(name, v), enclosing: sc.enclosing },
            n,
        ),
{
    let sc2 = SpecScope { bindings: sc.bindings.insert(name, v), enclosing: sc.enclosing };
    assert forall|k: Seq<char>| #[trigger]
        sc2.bindings.dom().contains(k) implies value_ok(sc2.bindings[k], n) by {
        if k == name {
        } else {
            assert(sc.bindings.dom().contains(k));
        }
    }
}

/// Chained assignment of a meaningful value keeps every scope well formed
/// and touches no scope's enclosing link or the arena's length.
proof fn lemma_assign_ok(ss: Seq<SpecScope>, env: int, name: Seq<char>, v: SpecValue, n: int)
    requires
        scopes_ok(ss, n),
        value_ok(v, n),
    ensures
        match spec_assign(ss, env, name, v) {
            Option::Some(ss2) => {
                &&& scopes_ok(ss2, n)
                &&& ss2.len() == ss.len()
                &&& forall|i: int|
                    0 <= i < ss.len() ==> (#[trigger] ss2[i]).enclosing == ss[i].enclosing
            },
            Option::None => true,
        },
    decreases env,
{
    if 0 <= env < ss.len() {
        let sc = ss[env];
        if sc.bindings.dom().contains(name) {
            lemma_scope_ok_insert(sc, name, v, n);
            let ss2 = ss.update(
                env,
                SpecScope { bindings: sc.bindings.insert(name, v), enclosing: sc.enclosing },
            );
            assert forall|i: int| 0 <= i < ss2.len() implies scope_ok(#[trigger] ss2[i], n) by {
                if i != env {
                    assert(ss2[i] == ss[i]);
                }
            }
        } else {
            match sc.enclosing {
                Option::Some(p) => {
                    if 0 <= p < env {
                        lemma_assign_ok(ss, p, name, v, n);
                    }
                },
                Option::None => {},
            }
        }
    }
}

/// Scopes well formed for a small arena are well formed for a grown one.
proof fn lemma_scopes_ok_grow(ss: Seq<SpecScope>, n: int, m: int)
    requires
        scopes_ok(ss, n),
        n <= m,
    ensures
        scopes_ok(ss, m),
{
    assert forall|i: int| 0 <= i < ss.len() implies scope_ok(#[trigger] ss[i], m) by {
        assert(scope_ok(ss[i], n));
        assert forall|k: Seq<char>| #[trigger]
            ss[i].bindings.dom().contains(k) implies value_ok(ss[i].bindings[k], m) by {
            assert(value_ok(ss[i].bindings[k], n));
        }
    }
}


/// One statement of a list ran: the list-sequencing equation either
/// advances past it, or finishes on a return, error or exhaustion.
proof fn lemma_stmts_seq_step(
    pre: Interpreter,
    c0: Interpreter,
    post: Interpreter,
    env: int,
    ss: Seq<SpecStmt>,
    i: int,
    fuel: nat,
    step: Result<Control, Failure>,
)
    requires
        0 <= i < ss.len(),
        env == c0.environment as int,
        pre.clock_log@.is_prefix_of(c0.clock_log@),
        c0.clock_log@.is_prefix_of(post.clock_log@),
        forall|rest: Seq<u64>|
            #![trigger exec_stmts(pre.st(drawn(pre, c0) + rest), env, ss, fuel)]
            exec_stmts(pre.st(drawn(pre, c0) + rest), env, ss, fuel)
                == exec_stmts(c0.st(rest), env, ss.skip(i), fuel),
        exec_post(c0, post, ss[i], fuel, step),
    ensures
        forall|rest: Seq<u64>|
            #![trigger exec_stmts(pre.st(drawn(pre, post) + rest), env, ss, fuel)]
            exec_stmts(pre.st(drawn(pre, post) + rest), env, ss, fuel) == (
            match step {
                Result::Ok(Control::Completed) => exec_stmts(
                    post.st(rest),
                    env,
                    ss.skip(i + 1),
                    fuel,
                ),
                _ => exec_result(post, rest, step),
            }),
{
    assert forall|rest: Seq<u64>|
        exec_stmts(pre.st(drawn(pre, post) + rest), env, ss, fuel) == (
        match step {
            Result::Ok(Control::Completed) => exec_stmts(
                post.st(rest),
                env,
                ss.skip(i + 1),
                fuel,
            ),
            _ => exec_result(post, rest, step),
        }) by {
        lemma_drawn_chain(pre, c0, post);
        assert(exec_stmt(c0.st(drawn(c0, post) + rest), c0.environment as int, ss[i], fuel)
            == exec_result(post, rest, step));
        assert(ss.skip(i)[0] == ss[i]);
        assert(ss.skip(i).drop_first() =~= ss.skip(i + 1));
        assert(exec_stmts(
            pre.st(drawn(pre, c0) + (drawn(c0, post) + rest)),
            env,
            ss,
            fuel,
        ) == exec_stmts(c0.st(drawn(c0, post) + rest), env, ss.skip(i), fuel));
        assert(drawn(pre, c0) + (drawn(c0, post) + rest) =~= drawn(pre, post) + rest);
    }
}

/// `while` stopped before running its body: the condition failed to
/// evaluate, or it was falsy.
proof fn lemma_while_exit(
    pre: Interpreter,
    c0: Interpreter,
    c1: Interpreter,
    cond: SpecExpr,
    body: SpecStmt,
    fuel: nat,
    fuel_left: nat,
    sub: Result<Value, Failure>,
)
    requires
        c0.environment == pre.environment,
        pre.clock_log@.is_prefix_of(c0.clock_log@),
        c0.clock_log@.is_prefix_of(c1.clock_log@),
        forall|rest: Seq<u64>|
            #![trigger exec_stmt(pre.st(drawn(pre, c0) + rest), pre.environment as int, SpecStmt::While { condition: Box::new(cond), body: Box::new(body) }, fuel)]
            exec_stmt(
                pre.st(drawn(pre, c0) + rest),
                pre.environment as int,
                SpecStmt::While { condition: Box::new(cond), body: Box::new(body) },
                fuel,
            ) == exec_stmt(
                c0.st(rest),
                pre.environment as int,
                SpecStmt::While { condition: Box::new(cond), body: Box::new(body) },
                fuel_left,
            ),
        eval_post(c0, c1, cond, fuel_left, sub),
        match sub {
            Result::Ok(v) => !crate::value::spec_truthy(v@),
            Result::Err(_) => true,
        },
    ensures
        exec_post(
            pre,
            c1,
            SpecStmt::While { condition: Box::new(cond), body: Box::new(body) },
            fuel,
            (match sub {
                Result::Ok(_) => Result::Ok(Control::Completed),
                Result::Err(f) => Result::Err(f),
            }),
        ),
{
    let w = SpecStmt::While { condition: Box::new(cond), body: Box::new(body) };
    let r: Result<Control, Failure> = match sub {
        Result::Ok(_) => Result::Ok(Control::Completed),
        Result::Err(f) => Result::Err(f),
    };
    assert forall|rest: Seq<u64>|
        exec_stmt(pre.st(drawn(pre, c1) + rest), pre.environment as int, w, fuel) == exec_result(
            c1,
            rest,
            r,
        ) by {
        lemma_drawn_chain(pre, c0, c1);
        assert(exec_stmt(
            pre.st(drawn(pre, c0) + (drawn(c0, c1) + rest)),
            pre.environment as int,
            w,
            fuel,
        ) == exec_stmt(c0.st(drawn(c0, c1) + rest), pre.environment as int, w, fuel_left));
        assert(drawn(pre, c0) + (drawn(c0, c1) + rest) =~= drawn(pre, c1) + rest);
        assert(eval_expr(c0.st(drawn(c0, c1) + rest), c0.environment as int, cond, fuel_left)
            == eval_result(c1, rest, sub));
    }
}

/// `while` ran its body once: the loop either goes round again with one
/// unit of fuel fewer, runs out of fuel, or finishes the way the body did.
proof fn lemma_while_iter(
    pre: Interpreter,
    c0: Interpreter,
    c1: Interpreter,
    post: Interpreter,
    cond: SpecExpr,
    body: SpecStmt,
    fuel: nat,
    fuel_left: nat,
    cond_v: Value,
    step: Result<Control, Failure>,
)
    requires
        c0.environment == pre.environment,
        c1.environment == pre.environment,
        pre.clock_log@.is_prefix_of(c0.clock_log@),
        c0.clock_log@.is_prefix_of(c1.clock_log@),
        c1.clock_log@.is_prefix_of(post.clock_log@),
        forall|rest: Seq<u64>|
            #![trigger exec_stmt(pre.st(drawn(pre, c0) + rest), pre.environment as int, SpecStmt::While { condition: Box::new(cond), body: Box::new(body) }, fuel)]
            exec_stmt(
                pre.st(drawn(pre, c0) + rest),
                pre.environment as int,
                SpecStmt::While { condition: Box::new(cond), body: Box::new(body) },
                fuel,
            ) == exec_stmt(
                c0.st(rest),
                pre.environment as int,
                SpecStmt::While { condition: Box::new(cond), body: Box::new(body) },
                fuel_left,
            ),
        eval_post(c0, c1, cond, fuel_left, Result::Ok(cond_v)),
        crate::value::spec_truthy(cond_v@),
        exec_post(c1, post, body, fuel_left, step),
    ensures
        forall|rest: Seq<u64>|
            #![trigger exec_stmt(pre.st(drawn(pre, post) + rest), pre.environment as int, SpecStmt::While { condition: Box::new(cond), body: Box::new(body) }, fuel)]
            exec_stmt(
                pre.st(drawn(pre, post) + rest),
                pre.environment as int,
                SpecStmt::While { condition: Box::new(cond), body: Box::new(body) },
                fuel,
            ) == (match step {
                Result::Ok(Control::Completed) => if fuel_left == 0 {
                    SpecExec::Out
                } else {
                    exec_stmt(
                        post.st(rest),
                        pre.environment as int,
                        SpecStmt::While { condition: Box::new(cond), body: Box::new(body) },
                        (fuel_left - 1) as nat,
                    )
                },
                _ => exec_result(post, rest, step),
            }),
{
    let w = SpecStmt::While { condition: Box::new(cond), body: Box::new(body) };
    assert forall|rest: Seq<u64>|
        exec_stmt(pre.st(drawn(pre, post) + rest), pre.environment as int, w, fuel) == (
        match step {
            Result::Ok(Control::Completed) => if fuel_left == 0 {
                SpecExec::Out
            } else {
                exec_stmt(post.st(rest), pre.environment as int, w, (fuel_left - 1) as nat)
            },
            _ => exec_result(post, rest, step),
        }) by {
        lemma_drawn_chain(c0, c1, post);
        lemma_drawn_chain(pre, c0, post);
        assert(exec_stmt(
            pre.st(drawn(pre, c0) + (drawn(c0, post) + rest)),
            pre.environment as int,
            w,
            fuel,
        ) == exec_stmt(c0.st(drawn(c0, post) + rest), pre.environment as int, w, fuel_left));
        assert(drawn(pre, c0) + (drawn(c0, post) + rest) =~= drawn(pre, post) + rest);
        assert(eval_expr(
            c0.st(drawn(c0, c1) + (drawn(c1, post) + rest)),
            c0.environment as int,
            cond,
            fuel_left,
        ) == eval_result(c1, drawn(c1, post) + rest, Result::<Value, Failure>::Ok(cond_v)));
        assert(drawn(c0, c1) + (drawn(c1, post) + rest) =~= drawn(c0, post) + rest);
        assert(exec_stmt(c1.st(drawn(c1, post) + rest), c1.environment as int, body, fuel_left)
            == exec_result(post, rest, step));
    }
}

/// One argument of a call evaluated: the left-to-right equation advances.
proof fn lemma_call_arg_step(
    mid1: Interpreter,
    c0: Interpreter,
    post: Interpreter,
    es: Seq<SpecExpr>,
    i: int,
    fuel: nat,
    args: Seq<Value>,
    v: Value,
)
    requires
        0 <= i < es.len(),
        args.len() == i,
        c0.environment == mid1.environment,
        mid1.clock_log@.is_prefix_of(c0.clock_log@),
        c0.clock_log@.is_prefix_of(post.clock_log@),
        forall|rest: Seq<u64>|
            #![trigger eval_exprs(mid1.st(drawn(mid1, c0) + rest), mid1.environment as int, es, fuel)]
            eval_exprs(mid1.st(drawn(mid1, c0) + rest), mid1.environment as int, es, fuel)
                == list_append(
                spec_values(args),
                eval_exprs(c0.st(rest), mid1.environment as int, es.skip(i), fuel),
            ),
        eval_post(c0, post, es[i], fuel, Result::Ok(v)),
    ensures
        forall|rest: Seq<u64>|
            #![trigger eval_exprs(mid1.st(drawn(mid1, post) + rest), mid1.environment as int, es, fuel)]
            eval_exprs(mid1.st(drawn(mid1, post) + rest), mid1.environment as int, es, fuel)
                == list_append(
                spec_values(args.push(v)),
                eval_exprs(post.st(rest), mid1.environment as int, es.skip(i + 1), fuel),
            ),
{
    assert forall|rest: Seq<u64>|
        eval_exprs(mid1.st(drawn(mid1, post) + rest), mid1.environment as int, es, fuel)
            == list_append(
            spec_values(args.push(v)),
            eval_exprs(post.st(rest), mid1.environment as int, es.skip(i + 1), fuel),
        ) by {
        lemma_drawn_chain(mid1, c0, post);
        assert(eval_expr(c0.st(drawn(c0, post) + rest), c0.environment as int, es[i], fuel)
            == eval_result(post, rest, Result::<Value, Failure>::Ok(v)));
        assert(es.skip(i)[0] == es[i]);
        assert(es.skip(i).drop_first() =~= es.skip(i + 1));
        assert(eval_exprs(
            mid1.st(drawn(mid1, c0) + (drawn(c0, post) + rest)),
            mid1.environment as int,
            es,
            fuel,
        ) == list_append(
            spec_values(args),
            eval_exprs(c0.st(drawn(c0, post) + rest), mid1.environment as int, es.skip(i), fuel),
        ));
        assert(drawn(mid1, c0) + (drawn(c0, post) + rest) =~= drawn(mid1, post) + rest);
        assert(spec_values(args.push(v)) =~= spec_values(args).push(v@));
        let r2 = eval_exprs(post.st(rest), mid1.environment as int, es.skip(i + 1), fuel);
        match r2 {
            SpecEvalList::Vals(st2, ws) => {
                assert(spec_values(args).push(v@) + ws =~= spec_values(args) + (seq![v@] + ws));
            },
            _ => {},
        }
    }
}

/// An argument failed to evaluate: the whole call fails the same way.
proof fn lemma_call_arg_fail(
    pre: Interpreter,
    mid1: Interpreter,
    c0: Interpreter,
    post: Interpreter,
    callee: SpecExpr,
    paren: crate::token::SpecToken,
    es: Seq<SpecExpr>,
    i: int,
    fuel: nat,
    callee_value: Value,
    args: Seq<Value>,
    f_res: Result<Value, Failure>,
)
    requires
        0 <= i < es.len(),
        args.len() == i,
        mid1.environment == pre.environment,
        c0.environment == pre.environment,
        pre.clock_log@.is_prefix_of(mid1.clock_log@),
        mid1.clock_log@.is_prefix_of(c0.clock_log@),
        c0.clock_log@.is_prefix_of(post.clock_log@),
        eval_post(pre, mid1, callee, fuel, Result::Ok(callee_value)),
        callee_value@ is Callable,
        forall|rest: Seq<u64>|
            #![trigger eval_exprs(mid1.st(drawn(mid1, c0) + rest), mid1.environment as int, es, fuel)]
            eval_exprs(mid1.st(drawn(mid1, c0) + rest), mid1.environment as int, es, fuel)
                == list_append(
                spec_values(args),
                eval_exprs(c0.st(rest), mid1.environment as int, es.skip(i), fuel),
            ),
        eval_post(c0, post, es[i], fuel, f_res),
        f_res is Err,
    ensures
        eval_post(
            pre,
            post,
            SpecExpr::Call { callee: Box::new(callee), paren, arguments: es },
            fuel,
            f_res,
        ),
{
    let ce = SpecExpr::Call { callee: Box::new(callee), paren, arguments: es };
    assert forall|rest: Seq<u64>|
        eval_expr(pre.st(drawn(pre, post) + rest), pre.environment as int, ce, fuel)
            == eval_result(post, rest, f_res) by {
        lemma_drawn_chain(mid1, c0, post);
        lemma_drawn_chain(pre, mid1, post);
        assert(eval_expr(
            pre.st(drawn(pre, mid1) + (drawn(mid1, post) + rest)),
            pre.environment as int,
            callee,
            fuel,
        ) == eval_result(
            mid1,
            drawn(mid1, post) + rest,
            Result::<Value, Failure>::Ok(callee_value),
        ));
        assert(drawn(pre, mid1) + (drawn(mid1, post) + rest) =~= drawn(pre, post) + rest);
        assert(eval_exprs(
            mid1.st(drawn(mid1, c0) + (drawn(c0, post) + rest)),
            mid1.environment as int,
            es,
            fuel,
        ) == list_append(
            spec_values(args),
            eval_exprs(c0.st(drawn(c0, post) + rest), mid1.environment as int, es.skip(i), fuel),
        ));
        assert(drawn(mid1, c0) + (drawn(c0, post) + rest) =~= drawn(mid1, post) + rest);
        assert(eval_expr(c0.st(drawn(c0, post) + rest), c0.environment as int, es[i], fuel)
            == eval_result(post, rest, f_res));
        assert(es.skip(i)[0] == es[i]);
    }
}

/// Callee and arguments evaluated, callable invoked: the call's result.
proof fn lemma_call_finish(
    pre: Interpreter,
    mid1: Interpreter,
    mid2: Interpreter,
    post: Interpreter,
    callee: SpecExpr,
    paren: crate::token::SpecToken,
    es: Seq<SpecExpr>,
    fuel: nat,
    callee_value: Value,
    cb: SpecCallable,
    args: Seq<Value>,
    r: Result<Value, Failure>,
)
    requires
        mid1.environment == pre.environment,
        mid2.environment == pre.environment,
        pre.clock_log@.is_prefix_of(mid1.clock_log@),
        mid1.clock_log@.is_prefix_of(mid2.clock_log@),
        mid2.clock_log@.is_prefix_of(post.clock_log@),
        eval_post(pre, mid1, callee, fuel, Result::Ok(callee_value)),
        callee_value@ == SpecValue::Callable(cb),
        forall|rest: Seq<u64>|
            #![trigger eval_exprs(mid1.st(drawn(mid1, mid2) + rest), mid1.environment as int, es, fuel)]
            eval_exprs(mid1.st(drawn(mid1, mid2) + rest), mid1.environment as int, es, fuel)
                == list_append(
                spec_values(args),
                eval_exprs(mid2.st(rest), mid1.environment as int, es.skip(es.len() as int), fuel),
            ),
        invoke_post(mid2, post, cb, spec_values(args), paren, fuel, r),
    ensures
        eval_post(
            pre,
            post,
            SpecExpr::Call { callee: Box::new(callee), paren, arguments: es },
            fuel,
            r,
        ),
{
    let ce = SpecExpr::Call { callee: Box::new(callee), paren, arguments: es };
    assert(es.skip(es.len() as int) =~= Seq::<SpecExpr>::empty());
    assert forall|rest: Seq<u64>|
        eval_expr(pre.st(drawn(pre, post) + rest), pre.environment as int, ce, fuel)
            == eval_result(post, rest, r) by {
        lemma_drawn_chain(mid1, mid2, post);
        lemma_drawn_chain(pre, mid1, post);
        assert(eval_expr(
            pre.st(drawn(pre, mid1) + (drawn(mid1, post) + rest)),
            pre.environment as int,
            callee,
            fuel,
        ) == eval_result(
            mid1,
            drawn(mid1, post) + rest,
            Result::<Value, Failure>::Ok(callee_value),
        ));
        assert(drawn(pre, mid1) + (drawn(mid1, post) + rest) =~= drawn(pre, post) + rest);
        assert(eval_exprs(
            mid1.st(drawn(mid1, mid2) + (drawn(mid2, post) + rest)),
            mid1.environment as int,
            es,
            fuel,
        ) == list_append(
            spec_values(args),
            eval_exprs(
                mid2.st(drawn(mid2, post) + rest),
                mid1.environment as int,
                es.skip(es.len() as int),
                fuel,
            ),
        ));
        assert(drawn(mid1, mid2) + (drawn(mid2, post) + rest) =~= drawn(mid1, post) + rest);
        assert(spec_values(args) + Seq::<SpecValue>::empty() =~= spec_values(args));
        assert(spec_invoke(mid2.st(drawn(mid2, post) + rest), cb, spec_values(args), paren, fuel)
            == eval_result(post, rest, r));
    }
}

impl LoxCallable {
    /// How many arguments this callable expects.
    pub fn arity(&self) -> (r: usize)
        ensures
            r as nat == spec_arity(self@),
    {
        match self {
            LoxCallable::Function(f) => f.declaration.params.len(),
            LoxCallable::NativeFunction(f) => f.params.len(),
        }
    }
}

impl Interpreter {
    /// A fresh interpreter: one scope — the global one, with the native
    /// functions installed — nothing printed, nothing drawn from the clock.
    pub fn new() -> (r: Interpreter)
        ensures
            r.inv(),
            r.environment == 0,
            r.globals == 0,
            r.scopes@.len() == 1,
            spec_scopes(r.scopes@) == seq![
                SpecScope {
                    bindings: Map::<Seq<char>, SpecValue>::empty().insert(
                        "clock"@,
                        crate::native_functions::spec_clock_native(),
                    ),
                    enclosing: Option::<int>::None,
                },
            ],
            r.output@.len() == 0,
            r.clock_log@.len() == 0,
    {
        let globals_scope = global_env();
        let mut scopes: Vec<Environment> = Vec::new();
        scopes.push(globals_scope);
        let r = Interpreter {
            globals: 0,
            environment: 0,
            scopes,
            output: Vec::new(),
            clock_log: Vec::new(),
        };
        proof {
            assert(spec_scopes(r.scopes@) =~= seq![
                SpecScope {
                    bindings: Map::<Seq<char>, SpecValue>::empty().insert(
                        "clock"@,
                        crate::native_functions::spec_clock_native(),
                    ),
                    enclosing: Option::<int>::None,
                },
            ]);
            assert forall|i: int|
                0 <= i < spec_scopes(r.scopes@).len() implies scope_ok(
                #[trigger] spec_scopes(r.scopes@)[i],
                1,
            ) by {
                let sc = spec_scopes(r.scopes@)[0];
                assert forall|k: Seq<char>| #[trigger]
                    sc.bindings.dom().contains(k) implies value_ok(sc.bindings[k], 1) by {
                    assert(sc.bindings[k] == crate::native_functions::spec_clock_native());
                }
            }
        }
        r
    }

    /// A number operand is required; anything else is the unary operand
    /// type error, charged to the operator token.
    pub fn check_number_operand(operator: &Token, operand: &Value) -> (r: Result<(), RuntimeError>)
        ensures
            match r {
                Result::Ok(()) => operand@ is Num,
                Result::Err(e) => !(operand@ is Num) && e@ == (SpecRuntimeError {
                    token: operator@,
                    message: msg_operand_number(),
                }),
            },
    {
        if let Value::Num(_) = operand {
            return Result::Ok(());
        }
        Result::Err(RuntimeError::new(operator.clone(), String::from_str("Operand must be a number.")))
    }

    /// Two number operands are required; anything else is the binary operand
    /// type error, charged to the operator token.
    pub fn check_number_operands(operator: &Token, left: &Value, right: &Value) -> (r: Result<
        (),
        RuntimeError,
    >)
        ensures
            match r {
                Result::Ok(()) => left@ is Num && right@ is Num,
                Result::Err(e) => !(left@ is Num && right@ is Num) && e@ == (SpecRuntimeError {
                    token: operator@,
                    message: msg_operands_numbers(),
                }),
            },
    {
        if let (Value::Num(_), Value::Num(_)) = (left, right) {
            return Result::Ok(());
        }
        Result::Err(RuntimeError::new(operator.clone(), String::from_str("Operands must be numbers.")))
    }

    /// A literal evaluates to its embedded value.
    pub fn visit_literal_expr(&mut self, value: &Literal) -> (r: Result<Value, Failure>)
        requires
            old(self).inv(),
        ensures
            frames(*old(self), *final(self)),
            *final(self) == *old(self),
            result_value_ok(r, final(self).scopes@.len() as int),
            forall|fuel: nat|
                eval_post(*old(self), *final(self), SpecExpr::Literal { value: value@ }, fuel, r),
    {
        let v = match value {
            Literal::Num(b) => Value::Num(*b),
            Literal::Str(s) => Value::Str(s.clone()),
            Literal::Bool(b) => Value::Bool(*b),
            Literal::Nil => Value::Nil,
        };
        proof {
            assert forall|fuel: nat|
                eval_post(
                    *old(self),
                    *self,
                    SpecExpr::Literal { value: value@ },
                    fuel,
                    Result::<Value, Failure>::Ok(v),
                ) by {
                assert forall|rest: Seq<u64>|
                    eval_expr(
                        old(self).st(drawn(*old(self), *self) + rest),
                        old(self).environment as int,
                        SpecExpr::Literal { value: value@ },
                        fuel,
                    ) == eval_result(*self, rest, Result::<Value, Failure>::Ok(v)) by {
                    assert(drawn(*old(self), *self) + rest =~= rest);
                    assert(v@ == spec_literal_value(value@));
                }
            }
        }
        Result::Ok(v)
    }

    /// A variable evaluates to its binding, found by chained lookup.
    pub fn visit_variable_expr(&mut self, name: &Token) -> (r: Result<Value, Failure>)
        requires
            old(self).inv(),
        ensures
            frames(*old(self), *final(self)),
            *final(self) == *old(self),
            result_value_ok(r, final(self).scopes@.len() as int),
            forall|fuel: nat|
                eval_post(*old(self), *final(self), SpecExpr::Variable { name: name@ }, fuel, r),
    {
        let looked = env_get(&self.scopes, self.environment, name);
        let r: Result<Value, Failure> = match looked {
            Result::Ok(v) => Result::Ok(v),
            Result::Err(e) => Result::Err(Failure::Error(e)),
        };
        proof {
            lemma_lookup_ok(
                spec_scopes(self.scopes@),
                self.environment as int,
                name@.lexeme,
                self.scopes@.len() as int,
            );
            assert forall|fuel: nat|
                eval_post(*old(self), *self, SpecExpr::Variable { name: name@ }, fuel, r) by {
                assert forall|rest: Seq<u64>|
                    eval_expr(
                        old(self).st(drawn(*old(self), *self) + rest),
                        old(self).environment as int,
                        SpecExpr::Variable { name: name@ },
                        fuel,
                    ) == eval_result(*self, rest, r) by {
                    assert(drawn(*old(self), *self) + rest =~= rest);
                }
            }
        }
        r
    }
}

/// Prefixing a value list onto a list-evaluation outcome.
pub open spec fn list_append(vs: Seq<SpecValue>, r: SpecEvalList) -> SpecEvalList {
    match r {
        SpecEvalList::Vals(st, ws) => SpecEvalList::Vals(st, vs + ws),
        other => other,
    }
}

/// Framing composes across two stretches of execution.
proof fn lemma_frames_trans(a: Interpreter, b: Interpreter, c: Interpreter)
    requires
        frames(a, b),
        frames(b, c),
    ensures
        frames(a, c),
{
    assert(a.clock_log@ =~= c.clock_log@.subrange(0, a.clock_log@.len() as int));
}

impl Interpreter {
    /// Evaluate an expression to a value, in the current scope.
    #[verifier::loop_isolation(false)]
    pub fn evaluate(&mut self, e: &Expr, fuel: u64) -> (r: Result<Value, Failure>)
        requires
            old(self).inv(),
        ensures
            frames(*old(self), *final(self)),
            result_value_ok(r, final(self).scopes@.len() as int),
            eval_post(*old(self), *final(self), e@, fuel as nat, r),
        decreases fuel, expr_size(e@), 1nat,
    {
        match e {
            Expr::Literal { value } => self.visit_literal_expr(value),
            Expr::Grouping { expression } => self.visit_grouping_expr(expression, fuel),
            Expr::Unary { operator, right } => self.visit_unary_expr(operator, right, fuel),
            Expr::Binary { left, operator, right } => self.visit_binary_expr(
                left,
                operator,
                right,
                fuel,
            ),
            Expr::Logical { left, operator, right } => self.visit_logical_expr(
                left,
                operator,
                right,
                fuel,
            ),
            Expr::Variable { name } => self.visit_variable_expr(name),
            Expr::Assign { name, value } => self.visit_assign_expr(name, value, fuel),
            Expr::Call { callee, paren, arguments } => self.visit_call_expr(
                callee,
                paren,
                arguments,
                fuel,
            ),
        }
    }

    /// A grouping has no effect of its own: it evaluates its inner
    /// expression.
    #[verifier::loop_isolation(false)]
    pub fn visit_grouping_expr(&mut self, expression: &Expr, fuel: u64) -> (r: Result<
        Value,
        Failure,
    >)
        requires
            old(self).inv(),
        ensures
            frames(*old(self), *final(self)),
            result_value_ok(r, final(self).scopes@.len() as int),
            eval_post(
                *old(self),
                *final(self),
                SpecExpr::Grouping { expression: Box::new(expression@) },
                fuel as nat,
                r,
            ),
        decreases fuel, 1nat + expr_size(expression@), 0nat,
    {
        let ghost pre = *self;
        let ghost se = SpecExpr::Grouping { expression: Box::new(expression@) };
        let r = self.evaluate(expression, fuel);
        proof {
            assert forall|rest: Seq<u64>|
                eval_expr(pre.st(drawn(pre, *self) + rest), pre.environment as int, se, fuel as nat)
                    == eval_result(*self, rest, r) by {
                assert(eval_expr(
                    pre.st(drawn(pre, *self) + rest),
                    pre.environment as int,
                    expression@,
                    fuel as nat,
                ) == eval_result(*self, rest, r));
            }
        }
        r
    }

    /// Unary `-` negates a number operand; unary `!` returns the logical
    /// complement of the operand's truthiness.
    #[verifier::rlimit(10)]
    #[verifier::spinoff_prover]
    #[verifier::loop_isolation(false)]
    pub fn visit_unary_expr(&mut self, operator: &Token, right: &Expr, fuel: u64) -> (r: Result<
        Value,
        Failure,
    >)
        requires
            old(self).inv(),
        ensures
            frames(*old(self), *final(self)),
            result_value_ok(r, final(self).scopes@.len() as int),
            eval_post(
                *old(self),
                *final(self),
                SpecExpr::Unary { operator: operator@, right: Box::new(right@) },
                fuel as nat,
                r,
            ),
        decreases fuel, 1nat + expr_size(right@), 0nat,
    {
        let ghost pre = *self;
        let ghost se = SpecExpr::Unary { operator: operator@, right: Box::new(right@) };
        let sub = self.evaluate(right, fuel);
        let right_value = match sub {
            Result::Ok(v) => v,
            Result::Err(f) => {
                let r = Result::<Value, Failure>::Err(f);
                proof {
                    assert forall|rest: Seq<u64>|
                        eval_expr(
                            pre.st(drawn(pre, *self) + rest),
                            pre.environment as int,
                            se,
                            fuel as nat,
                        ) == eval_result(*self, rest, r) by {
                        assert(eval_expr(
                            pre.st(drawn(pre, *self) + rest),
                            pre.environment as int,
                            right@,
                            fuel as nat,
                        ) == eval_result(*self, rest, r));
                    }
                }
                return r;
            },
        };
        let applied: Result<Value, RuntimeError> = if operator.token_type == TokenType::Minus {
            match Self::check_number_operand(operator, &right_value) {
                Result::Ok(()) => match &right_value {
                    Value::Num(b) => Result::Ok(Value::Num(neg_bits(*b))),
                    _ => Result::Err(
                        RuntimeError::new(
                            operator.clone(),
                            String::from_str("Operand must be a number."),
                        ),
                    ),
                },
                Result::Err(e) => Result::Err(e),
            }
        } else if operator.token_type == TokenType::Bang {
            Result::Ok(Value::Bool(!right_value.is_truthy()))
        } else {
            Result::Err(
                RuntimeError::new(operator.clone(), String::from_str("Operand must be a number.")),
            )
        };
        proof {
            assert(match applied {
                Result::Ok(v) => spec_apply_unary(operator@, right_value@)
                    == Result::<SpecValue, SpecRuntimeError>::Ok(v@),
                Result::Err(e) => spec_apply_unary(operator@, right_value@)
                    == Result::<SpecValue, SpecRuntimeError>::Err(e@),
            });
        }
        let r: Result<Value, Failure> = match applied {
            Result::Ok(v) => Result::Ok(v),
            Result::Err(e) => Result::Err(Failure::Error(e)),
        };
        proof {
            assert forall|rest: Seq<u64>|
                eval_expr(pre.st(drawn(pre, *self) + rest), pre.environment as int, se, fuel as nat)
                    == eval_result(*self, rest, r) by {
                assert(eval_expr(
                    pre.st(drawn(pre, *self) + rest),
                    pre.environment as int,
                    right@,
                    fuel as nat,
                ) == eval_result(*self, rest, Result::<Value, Failure>::Ok(right_value)));
            }
        }
        r
    }

    /// Arithmetic, comparison and equality on two evaluated operands; `+`
    /// also concatenates two strings.
    #[verifier::rlimit(10)]
    #[verifier::spinoff_prover]
    #[verifier::loop_isolation(false)]
    pub fn visit_binary_expr(
        &mut self,
        left: &Expr,
        operator: &Token,
        right: &Expr,
        fuel: u64,
    ) -> (r: Result<Value, Failure>)
        requires
            old(self).inv(),
        ensures
            frames(*old(self), *final(self)),
            result_value_ok(r, final(self).scopes@.len() as int),
            eval_post(
                *old(self),
                *final(self),
                SpecExpr::Binary {
                    left: Box::new(left@),
                    operator: operator@,
                    right: Box::new(right@),
                },
                fuel as nat,
                r,
            ),
        decreases fuel, 1nat + expr_size(left@) + expr_size(right@), 0nat,
    {
        let ghost pre = *self;
        let ghost se = SpecExpr::Binary {
            left: Box::new(left@),
            operator: operator@,
            right: Box::new(right@),
        };
        let sub_left = self.evaluate(left, fuel);
        let ghost mid = *self;
        let left_value = match sub_left {
            Result::Ok(v) => v,
            Result::Err(f) => {
                let r = Result::<Value, Failure>::Err(f);
                proof {
                    assert forall|rest: Seq<u64>|
                        eval_expr(
                            pre.st(drawn(pre, *self) + rest),
                            pre.environment as int,
                            se,
                            fuel as nat,
                        ) == eval_result(*self, rest, r) by {
                        assert(eval_expr(
                            pre.st(drawn(pre, *self) + rest),
                            pre.environment as int,
                            left@,
                            fuel as nat,
                        ) == eval_result(*self, rest, r));
                    }
                }
                return r;
            },
        };
        let sub_right = self.evaluate(right, fuel);
        proof {
            lemma_frames_trans(pre, mid, *self);
        }
        let right_value = match sub_right {
            Result::Ok(v) => v,
            Result::Err(f) => {
                let r = Result::<Value, Failure>::Err(f);
                proof {
                    assert forall|rest: Seq<u64>|
                        eval_expr(
                            pre.st(drawn(pre, *self) + rest),
                            pre.environment as int,
                            se,
                            fuel as nat,
                        ) == eval_result(*self, rest, r) by {
                        lemma_drawn_chain(pre, mid, *self);
                        assert(eval_expr(
                            pre.st(drawn(pre, mid) + (drawn(mid, *self) + rest)),
                            pre.environment as int,
                            left@,
                            fuel as nat,
                        ) == eval_result(mid, drawn(mid, *self) + rest, Result::<Value, Failure>::Ok(left_value)));
                        assert(drawn(pre, mid) + (drawn(mid, *self) + rest) =~= drawn(pre, *self)
                            + rest);
                        assert(eval_expr(
                            mid.st(drawn(mid, *self) + rest),
                            mid.environment as int,
                            right@,
                            fuel as nat,
                        ) == eval_result(*self, rest, r));
                    }
                }
                return r;
            },
        };
        let applied: Result<Value, RuntimeError> = if operator.token_type == TokenType::Plus {
            match (left_value, right_value) {
                (Value::Num(a), Value::Num(b)) => Result::Ok(Value::Num(add_bits(a, b))),
                (Value::Str(a), Value::Str(b)) => Result::Ok(Value::Str(a.concat(b.as_str()))),
                _ => Result::Err(
                    RuntimeError::new(
                        operator.clone(),
                        String::from_str("Operands must be two numbers or two strings."),
                    ),
                ),
            }
        } else {
            match Self::check_number_operands(operator, &left_value, &right_value) {
                Result::Err(e) => Result::Err(e),
                Result::Ok(()) => match (left_value, right_value) {
                    (Value::Num(a), Value::Num(b)) => {
                        if operator.token_type == TokenType::Minus {
                            Result::Ok(Value::Num(sub_bits(a, b)))
                        } else if operator.token_type == TokenType::Star {
                            Result::Ok(Value::Num(mul_bits(a, b)))
                        } else if operator.token_type == TokenType::Slash {
                            Result::Ok(Value::Num(div_bits(a, b)))
                        } else if operator.token_type == TokenType::Greater {
                            Result::Ok(Value::Bool(gt_bits(a, b)))
                        } else if operator.token_type == TokenType::GreaterEqual {
                            Result::Ok(Value::Bool(ge_bits(a, b)))
                        } else if operator.token_type == TokenType::Less {
                            Result::Ok(Value::Bool(lt_bits(a, b)))
                        } else if operator.token_type == TokenType::LessEqual {
                            Result::Ok(Value::Bool(le_bits(a, b)))
                        } else if operator.token_type == TokenType::EqualEqual {
                            Result::Ok(Value::Bool(eq_bits(a, b)))
                        } else if operator.token_type == TokenType::BangEqual {
                            Result::Ok(Value::Bool(!eq_bits(a, b)))
                        } else {
                            Result::Err(
                                RuntimeError::new(
                                    operator.clone(),
                                    String::from_str("Operands must be numbers."),
                                ),
                            )
                        }
                    },
                    _ => Result::Err(
                        RuntimeError::new(
                            operator.clone(),
                            String::from_str("Operands must be numbers."),
                        ),
                    ),
                },
            }
        };
        proof {
            assert(match applied {
                Result::Ok(v) => spec_apply_binary(operator@, left_value@, right_value@)
                    == Result::<SpecValue, SpecRuntimeError>::Ok(v@),
                Result::Err(e) => spec_apply_binary(operator@, left_value@, right_value@)
                    == Result::<SpecValue, SpecRuntimeError>::Err(e@),
            });
        }
        let r: Result<Value, Failure> = match applied {
            Result::Ok(v) => Result::Ok(v),
            Result::Err(e) => Result::Err(Failure::Error(e)),
        };
        proof {
            assert forall|rest: Seq<u64>|
                eval_expr(pre.st(drawn(pre, *self) + rest), pre.environment as int, se, fuel as nat)
                    == eval_result(*self, rest, r) by {
                lemma_drawn_chain(pre, mid, *self);
                assert(eval_expr(
                    pre.st(drawn(pre, mid) + (drawn(mid, *self) + rest)),
                    pre.environment as int,
                    left@,
                    fuel as nat,
                ) == eval_result(mid, drawn(mid, *self) + rest, Result::<Value, Failure>::Ok(left_value)));
                assert(drawn(pre, mid) + (drawn(mid, *self) + rest) =~= drawn(pre, *self) + rest);
                assert(eval_expr(
                    mid.st(drawn(mid, *self) + rest),
                    mid.environment as int,
                    right@,
                    fuel as nat,
                ) == eval_result(*self, rest, Result::<Value, Failure>::Ok(right_value)));
            }
        }
        r
    }

    /// `and` and `or` short-circuit, and return the deciding operand's value
    /// itself rather than a boolean.
    #[verifier::rlimit(10)]
    #[verifier::spinoff_prover]
    #[verifier::loop_isolation(false)]
    pub fn visit_logical_expr(
        &mut self,
        left: &Expr,
        operator: &Token,
        right: &Expr,
        fuel: u64,
    ) -> (r: Result<Value, Failure>)
        requires
            old(self).inv(),
        ensures
            frames(*old(self), *final(self)),
            result_value_ok(r, final(self).scopes@.len() as int),
            eval_post(
                *old(self),
                *final(self),
                SpecExpr::Logical {
                    left: Box::new(left@),
                    operator: operator@,
                    right: Box::new(right@),
                },
                fuel as nat,
                r,
            ),
        decreases fuel, 1nat + expr_size(left@) + expr_size(right@), 0nat,
    {
        let ghost pre = *self;
        let ghost se = SpecExpr::Logical {
            left: Box::new(left@),
            operator: operator@,
            right: Box::new(right@),
        };
        let sub_left = self.evaluate(left, fuel);
        let ghost mid = *self;
        let left_value = match sub_left {
            Result::Ok(v) => v,
            Result::Err(f) => {
                let r = Result::<Value, Failure>::Err(f);
                proof {
                    assert forall|rest: Seq<u64>|
                        eval_expr(
                            pre.st(drawn(pre, *self) + rest),
                            pre.environment as int,
                            se,
                            fuel as nat,
                        ) == eval_result(*self, rest, r) by {
                        assert(eval_expr(
                            pre.st(drawn(pre, *self) + rest),
                            pre.environment as int,
                            left@,
                            fuel as nat,
                        ) == eval_result(*self, rest, r));
                    }
                }
                return r;
            },
        };
        let take_left = if operator.token_type == TokenType::Or {
            left_value.is_truthy()
        } else {
            !left_value.is_truthy()
        };
        if take_left {
            let r = Result::<Value, Failure>::Ok(left_value);
            proof {
                assert forall|rest: Seq<u64>|
                    eval_expr(pre.st(drawn(pre, *self) + rest), pre.environment as int, se, fuel as nat)
                        == eval_result(*self, rest, r) by {
                    assert(eval_expr(
                        pre.st(drawn(pre, *self) + rest),
                        pre.environment as int,
                        left@,
                        fuel as nat,
                    ) == eval_result(*self, rest, r));
                }
            }
            return r;
        }
        let r = self.evaluate(right, fuel);
        proof {
            lemma_frames_trans(pre, mid, *self);
            assert forall|rest: Seq<u64>|
                eval_expr(pre.st(drawn(pre, *self) + rest), pre.environment as int, se, fuel as nat)
                    == eval_result(*self, rest, r) by {
                lemma_drawn_chain(pre, mid, *self);
                assert(eval_expr(
                    pre.st(drawn(pre, mid) + (drawn(mid, *self) + rest)),
                    pre.environment as int,
                    left@,
                    fuel as nat,
                ) == eval_result(mid, drawn(mid, *self) + rest, Result::<Value, Failure>::Ok(left_value)));
                assert(drawn(pre, mid) + (drawn(mid, *self) + rest) =~= drawn(pre, *self) + rest);
                assert(eval_expr(
                    mid.st(drawn(mid, *self) + rest),
                    mid.environment as int,
                    right@,
                    fuel as nat,
                ) == eval_result(*self, rest, r));
            }
        }
        r
    }

    /// Assignment evaluates its right-hand side, mutates the existing
    /// binding nearest in the chain, and yields the assigned value. It never
    /// creates a binding.
    #[verifier::rlimit(10)]
    #[verifier::spinoff_prover]
    #[verifier::loop_isolation(false)]
    pub fn visit_assign_expr(&mut self, name: &Token, value: &Expr, fuel: u64) -> (r: Result<
        Value,
        Failure,
    >)
        requires
            old(self).inv(),
        ensures
            frames(*old(self), *final(self)),
            result_value_ok(r, final(self).scopes@.len() as int),
            eval_post(
                *old(self),
                *final(self),
                SpecExpr::Assign { name: name@, value: Box::new(value@) },
                fuel as nat,
                r,
            ),
        decreases fuel, 1nat + expr_size(value@), 0nat,
    {
        let ghost pre = *self;
        let ghost se = SpecExpr::Assign { name: name@, value: Box::new(value@) };
        let sub = self.evaluate(value, fuel);
        let ghost mid = *self;
        let v = match sub {
            Result::Ok(v) => v,
            Result::Err(f) => {
                let r = Result::<Value, Failure>::Err(f);
                proof {
                    assert forall|rest: Seq<u64>|
                        eval_expr(
                            pre.st(drawn(pre, *self) + rest),
                            pre.environment as int,
                            se,
                            fuel as nat,
                        ) == eval_result(*self, rest, r) by {
                        assert(eval_expr(
                            pre.st(drawn(pre, *self) + rest),
                            pre.environment as int,
                            value@,
                            fuel as nat,
                        ) == eval_result(*self, rest, r));
                    }
                }
                return r;
            },
        };
        let assigned = env_assign(&mut self.scopes, self.environment, name, v.clone());
        let r: Result<Value, Failure> = match assigned {
            Result::Ok(()) => {
                proof {
                    lemma_assign_ok(
                        spec_scopes(mid.scopes@),
                        mid.environment as int,
                        name@.lexeme,
                        v@,
                        mid.scopes@.len() as int,
                    );
                }
                Result::Ok(v)
            },
            Result::Err(e) => Result::Err(Failure::Error(e)),
        };
        proof {
            assert forall|rest: Seq<u64>|
                eval_expr(pre.st(drawn(pre, *self) + rest), pre.environment as int, se, fuel as nat)
                    == eval_result(*self, rest, r) by {
                assert(eval_expr(
                    pre.st(drawn(pre, *self) + rest),
                    pre.environment as int,
                    value@,
                    fuel as nat,
                ) == eval_result(mid, rest, Result::<Value, Failure>::Ok(v)));
            }
        }
        r
    }

    /// A call evaluates its callee — which must be a function — then its
    /// arguments left to right, and invokes with an exact arity match.
    #[verifier::rlimit(20)]
    #[verifier::spinoff_prover]
    #[verifier::loop_isolation(false)]
    pub fn visit_call_expr(
        &mut self,
        callee: &Expr,
        paren: &Token,
        arguments: &Vec<Expr>,
        fuel: u64,
    ) -> (r: Result<Value, Failure>)
        requires
            old(self).inv(),
        ensures
            frames(*old(self), *final(self)),
            result_value_ok(r, final(self).scopes@.len() as int),
            eval_post(
                *old(self),
                *final(self),
                SpecExpr::Call {
                    callee: Box::new(callee@),
                    paren: paren@,
                    arguments: crate::ast::spec_exprs_view(arguments@),
                },
                fuel as nat,
                r,
            ),
        decreases fuel, 1nat + expr_size(callee@) + exprs_size(crate::ast::spec_exprs_view(arguments@)), 0nat,
    {
        let ghost pre = *self;
        let ghost es = crate::ast::spec_exprs_view(arguments@);
        let ghost se = SpecExpr::Call {
            callee: Box::new(callee@),
            paren: paren@,
            arguments: es,
        };
        proof {
            crate::ast::lemma_exprs_view(arguments@);
        }
        let sub_callee = self.evaluate(callee, fuel);
        let ghost mid1 = *self;
        let callee_value = match sub_callee {
            Result::Ok(v) => v,
            Result::Err(f) => {
                let r = Result::<Value, Failure>::Err(f);
                proof {
                    assert forall|rest: Seq<u64>|
                        eval_expr(
                            pre.st(drawn(pre, *self) + rest),
                            pre.environment as int,
                            se,
                            fuel as nat,
                        ) == eval_result(*self, rest, r) by {
                        assert(eval_expr(
                            pre.st(drawn(pre, *self) + rest),
                            pre.environment as int,
                            callee@,
                            fuel as nat,
                        ) == eval_result(*self, rest, r));
                    }
                }
                return r;
            },
        };
        let ghost g_callee_v = callee_value;
        let function = match callee_value {
            Value::Callable(c) => c,
            _ => {
                let r = Result::<Value, Failure>::Err(
                    Failure::Error(
                        RuntimeError::new(
                            paren.clone(),
                            String::from_str("Can only call functions."),
                        ),
                    ),
                );
                proof {
                    assert forall|rest: Seq<u64>|
                        eval_expr(
                            pre.st(drawn(pre, *self) + rest),
                            pre.environment as int,
                            se,
                            fuel as nat,
                        ) == eval_result(*self, rest, r) by {
                        assert(eval_expr(
                            pre.st(drawn(pre, *self) + rest),
                            pre.environment as int,
                            callee@,
                            fuel as nat,
                        ) == eval_result(*self, rest, Result::<Value, Failure>::Ok(g_callee_v)));
                    }
                }
                return r;
            },
        };
        // evaluate the arguments left to right
        let mut args: Vec<Value> = Vec::new();
        let mut i: usize = 0;
        proof {
            assert(es.skip(0) =~= es);
            assert forall|rest: Seq<u64>|
                eval_exprs(
                    mid1.st(drawn(mid1, *self) + rest),
                    mid1.environment as int,
                    es,
                    fuel as nat,
                ) == list_append(
                    spec_values(args@),
                    eval_exprs(self.st(rest), mid1.environment as int, es.skip(0), fuel as nat),
                ) by {
                assert(drawn(mid1, *self) + rest =~= rest);
                assert(spec_values(args@) =~= Seq::<SpecValue>::empty());
                let r2 = eval_exprs(self.st(rest), mid1.environment as int, es.skip(0), fuel as nat);
                match r2 {
                    SpecEvalList::Vals(st2, ws) => {
                        assert(Seq::<SpecValue>::empty() + ws =~= ws);
                    },
                    _ => {},
                }
            }
        }
        while i < arguments.len()
            invariant
                i <= arguments.len(),
                args@.len() == i as int,
                self.inv(),
                frames(mid1, *self),
                values_ok(spec_values(args@), self.scopes@.len() as int),
                forall|rest: Seq<u64>|
                    #![trigger eval_exprs(mid1.st(drawn(mid1, *self) + rest), mid1.environment as int, es, fuel as nat)]
                    eval_exprs(
                        mid1.st(drawn(mid1, *self) + rest),
                        mid1.environment as int,
                        es,
                        fuel as nat,
                    ) == list_append(
                        spec_values(args@),
                        eval_exprs(
                            self.st(rest),
                            mid1.environment as int,
                            es.skip(i as int),
                            fuel as nat,
                        ),
                    ),
            decreases arguments.len() - i,
        {
            let ghost c0 = *self;
            proof {
                crate::semantics::lemma_exprs_size_elem(es, i as int);
            }
            let sub = self.evaluate(&arguments[i], fuel);
            let ghost g_sub = sub;
            match sub {
                Result::Ok(v) => {
                    proof {
                        lemma_frames_trans(mid1, c0, *self);
                        assert(es[i as int] == spec_expr_view(arguments@[i as int]));
                        lemma_call_arg_step(mid1, c0, *self, es, i as int, fuel as nat, args@, v);
                        assert forall|k: int|
                            0 <= k < args@.push(v).len() implies value_ok(
                            #[trigger] spec_values(args@.push(v))[k],
                            self.scopes@.len() as int,
                        ) by {
                            if k < args@.len() {
                                assert(spec_values(args@.push(v))[k] == spec_values(args@)[k]);
                                assert(value_ok(spec_values(args@)[k], c0.scopes@.len() as int));
                            }
                        }
                    }
                    args.push(v);
                    i = i + 1;
                },
                Result::Err(f) => {
                    proof {
                        lemma_frames_trans(pre, mid1, c0);
                        lemma_frames_trans(pre, c0, *self);
                        assert(es[i as int] == spec_expr_view(arguments@[i as int]));
                        lemma_call_arg_fail(
                            pre,
                            mid1,
                            c0,
                            *self,
                            callee@,
                            paren@,
                            es,
                            i as int,
                            fuel as nat,
                            g_callee_v,
                            args@,
                            g_sub,
                        );
                    }
                    return Result::Err(f);
                },
            }
        }
        let ghost mid2 = *self;
        let ghost g_args = args@;
        // invoke
        let r = function.call(self, args, paren, fuel);
        proof {
            lemma_frames_trans(pre, mid1, mid2);
            lemma_frames_trans(pre, mid2, *self);
            lemma_call_finish(
                pre,
                mid1,
                mid2,
                *self,
                callee@,
                paren@,
                es,
                fuel as nat,
                g_callee_v,
                function@,
                g_args,
                r,
            );
        }
        r
    }
}

impl LoxCallable {
    /// Invoke this callable. The argument count must match the arity
    /// exactly. A declared function's body runs in a fresh scope enclosing
    /// the scope captured at the function's definition, with each parameter
    /// bound to its argument; `return` gives the call's value and falling
    /// off the end gives nil. A native function is dispatched to the host.
    #[verifier::rlimit(10)]
    #[verifier::spinoff_prover]
    #[verifier::loop_isolation(false)]
    pub fn call(
        &self,
        interpreter: &mut Interpreter,
        arguments: Vec<Value>,
        paren: &Token,
        fuel: u64,
    ) -> (r: Result<Value, Failure>)
        requires
            old(interpreter).inv(),
            value_ok(
                SpecValue::Callable(self@),
                old(interpreter).scopes@.len() as int,
            ),
            values_ok(spec_values(arguments@), old(interpreter).scopes@.len() as int),
        ensures
            frames(*old(interpreter), *final(interpreter)),
            result_value_ok(r, final(interpreter).scopes@.len() as int),
            invoke_post(
                *old(interpreter),
                *final(interpreter),
                self@,
                spec_values(arguments@),
                paren@,
                fuel as nat,
                r,
            ),
        decreases fuel, 0nat, 0nat,
    {
        let ghost pre = *interpreter;
        let arity = self.arity();
        if arguments.len() != arity {
            let message = arity_message(arity as u64, arguments.len() as u64);
            let r = Result::<Value, Failure>::Err(
                Failure::Error(RuntimeError::new(paren.clone(), message)),
            );
            proof {
                assert forall|rest: Seq<u64>|
                    spec_invoke(
                        pre.st(drawn(pre, *interpreter) + rest),
                        self@,
                        spec_values(arguments@),
                        paren@,
                        fuel as nat,
                    ) == eval_result(*interpreter, rest, r) by {
                    assert(drawn(pre, *interpreter) + rest =~= rest);
                    assert(spec_values(arguments@).len() == arguments@.len());
                }
            }
            return r;
        }
        match self {
            LoxCallable::Function(f) => {
                if fuel == 0 {
                    let r = Result::<Value, Failure>::Err(Failure::Exhausted);
                    proof {
                        assert forall|rest: Seq<u64>|
                            spec_invoke(
                                pre.st(drawn(pre, *interpreter) + rest),
                                self@,
                                spec_values(arguments@),
                                paren@,
                                fuel as nat,
                            ) == eval_result(*interpreter, rest, r) by {
                            assert(spec_values(arguments@).len() == arguments@.len());
                        }
                    }
                    return r;
                }
                let child = push_scope(&mut interpreter.scopes, f.closure);
                proof {
                    lemma_scopes_ok_grow(
                        spec_scopes(pre.scopes@),
                        pre.scopes@.len() as int,
                        interpreter.scopes@.len() as int,
                    );
                    assert forall|k: int|
                        0 <= k < spec_scopes(interpreter.scopes@).len() implies scope_ok(
                        #[trigger] spec_scopes(interpreter.scopes@)[k],
                        interpreter.scopes@.len() as int,
                    ) by {
                        if k < pre.scopes@.len() {
                            assert(spec_scopes(interpreter.scopes@)[k] == spec_scopes(
                                pre.scopes@,
                            )[k]);
                        } else {
                            assert(spec_scopes(interpreter.scopes@)[k].bindings =~= Map::<
                                Seq<char>,
                                SpecValue,
                            >::empty());
                        }
                    }
                }
                let n = f.declaration.params.len();
                let ghost params_view = crate::ast::spec_tokens_view(f.declaration.params@);
                let ghost args_view = spec_values(arguments@);
                let mut j: usize = 0;
                proof {
                    assert(params_view.take(0) =~= Seq::<crate::token::SpecToken>::empty());
                    assert(args_view.take(0) =~= Seq::<SpecValue>::empty());
                }
                while j < n
                    invariant
                        j <= n,
                        n == f.declaration.params@.len(),
                        n == arguments@.len(),
                        interpreter.scopes@.len() == pre.scopes@.len() + 1,
                        child as int == pre.scopes@.len(),
                        arena_wf(interpreter.scopes@),
                        scopes_ok(
                            spec_scopes(interpreter.scopes@),
                            interpreter.scopes@.len() as int,
                        ),
                        interpreter.environment == pre.environment,
                        interpreter.globals == pre.globals,
                        interpreter.output@ == pre.output@,
                        interpreter.clock_log@ == pre.clock_log@,
                        spec_scopes(interpreter.scopes@) =~= spec_scopes(pre.scopes@).push(
                            SpecScope {
                                bindings: spec_param_bindings(
                                    params_view.take(j as int),
                                    args_view.take(j as int),
                                ),
                                enclosing: Option::Some(f.closure as int),
                            },
                        ),
                    decreases n - j,
                {
                    let ghost before = spec_scopes(interpreter.scopes@);
                    env_define(
                        &mut interpreter.scopes,
                        child,
                        f.declaration.params[j].lexeme.clone(),
                        arguments[j].clone(),
                    );
                    proof {
                        assert(params_view.take(j as int + 1).drop_last() =~= params_view.take(
                            j as int,
                        ));
                        assert(args_view.take(j as int + 1).drop_last() =~= args_view.take(
                            j as int,
                        ));
                        assert(params_view.take(j as int + 1).last() == params_view[j as int]);
                        assert(args_view.take(j as int + 1).last() == args_view[j as int]);
                        assert(params_view[j as int].lexeme == f.declaration.params@[j as int]@.lexeme);
                        assert(args_view[j as int] == arguments@[j as int]@);
                        assert(spec_scopes(interpreter.scopes@) =~= spec_scopes(pre.scopes@).push(
                            SpecScope {
                                bindings: spec_param_bindings(
                                    params_view.take(j as int + 1),
                                    args_view.take(j as int + 1),
                                ),
                                enclosing: Option::Some(f.closure as int),
                            },
                        ));
                        assert forall|k: int|
                            0 <= k < spec_scopes(interpreter.scopes@).len() implies scope_ok(
                            #[trigger] spec_scopes(interpreter.scopes@)[k],
                            interpreter.scopes@.len() as int,
                        ) by {
                            if k != child as int {
                                assert(spec_scopes(interpreter.scopes@)[k] == before[k]);
                                assert(scope_ok(before[k], interpreter.scopes@.len() as int));
                            } else {
                                assert(value_ok(
                                    args_view[j as int],
                                    interpreter.scopes@.len() as int,
                                ));
                                lemma_scope_ok_insert(
                                    SpecScope {
                                        bindings: spec_param_bindings(
                                            params_view.take(j as int),
                                            args_view.take(j as int),
                                        ),
                                        enclosing: Option::Some(f.closure as int),
                                    },
                                    params_view[j as int].lexeme,
                                    args_view[j as int],
                                    interpreter.scopes@.len() as int,
                                );
                            }
                        }
                    }
                    j = j + 1;
                }
                proof {
                    assert(params_view.take(n as int) =~= params_view);
                    assert(args_view.take(n as int) =~= args_view);
                }
                let ghost mid = *interpreter;
                let result = interpreter.execute_block(&f.declaration.body, child, fuel - 1);
                let r: Result<Value, Failure> = match result {
                    Result::Ok(Control::Completed) => Result::Ok(Value::Nil),
                    Result::Ok(Control::Returned(_keyword, v)) => Result::Ok(v),
                    Result::Err(fail) => Result::Err(fail),
                };
                proof {
                    lemma_frames_trans(pre, mid, *interpreter);
                    assert forall|rest: Seq<u64>|
                        spec_invoke(
                            pre.st(drawn(pre, *interpreter) + rest),
                            self@,
                            spec_values(arguments@),
                            paren@,
                            fuel as nat,
                        ) == eval_result(*interpreter, rest, r) by {
                        assert(spec_values(arguments@).len() == arguments@.len());
                        assert(drawn(pre, mid) =~= Seq::<u64>::empty());
                        assert(drawn(pre, *interpreter) =~= drawn(mid, *interpreter));
                        let st0 = pre.st(drawn(pre, *interpreter) + rest);
                        assert(st0.scopes.push(
                            SpecScope {
                                bindings: spec_param_bindings(params_view, args_view),
                                enclosing: Option::Some(f.closure as int),
                            },
                        ) =~= spec_scopes(mid.scopes@));
                        assert(exec_stmts(
                            mid.st(drawn(mid, *interpreter) + rest),
                            child as int,
                            spec_stmts_view(f.declaration.body@),
                            (fuel - 1) as nat,
                        ) == exec_result(*interpreter, rest, result));
                        assert(mid.st(drawn(mid, *interpreter) + rest) == SpecState {
                            scopes: spec_scopes(mid.scopes@),
                            output: spec_values(mid.output@),
                            clock: drawn(mid, *interpreter) + rest,
                        });
                    }
                }
                r
            },
            LoxCallable::NativeFunction(native) => {
                match native.kind {
                    NativeKind::Clock => {
                        let millis = now_millis();
                        interpreter.clock_log.push(millis);
                        let value = Value::Num(div_bits(bits_of_u64(millis), bits_of_u64(1000)));
                        let r = Result::<Value, Failure>::Ok(value);
                        proof {
                            assert(pre.clock_log@.is_prefix_of(interpreter.clock_log@)) by {
                                assert(interpreter.clock_log@.subrange(
                                    0,
                                    pre.clock_log@.len() as int,
                                ) =~= pre.clock_log@);
                            }
                            assert forall|rest: Seq<u64>|
                                spec_invoke(
                                    pre.st(drawn(pre, *interpreter) + rest),
                                    self@,
                                    spec_values(arguments@),
                                    paren@,
                                    fuel as nat,
                                ) == eval_result(*interpreter, rest, r) by {
                                assert(spec_values(arguments@).len() == arguments@.len());
                                assert(drawn(pre, *interpreter) =~= seq![millis]);
                                assert((seq![millis] + rest)[0] == millis);
                                assert((seq![millis] + rest).len() > 0);
                                assert((seq![millis] + rest).drop_first() =~= rest);
                            }
                        }
                        r
                    },
                }
            },
        }
    }
}

impl Interpreter {
    /// Execute one statement for effect, in the current scope.
    #[verifier::loop_isolation(false)]
    pub fn execute(&mut self, s: &Stmt, fuel: u64) -> (r: Result<Control, Failure>)
        requires
            old(self).inv(),
        ensures
            frames(*old(self), *final(self)),
            control_value_ok(r, final(self).scopes@.len() as int),
            exec_post(*old(self), *final(self), s@, fuel as nat, r),
        decreases fuel, stmt_size(s@), 1nat,
    {
        match s {
            Stmt::Expression { expression } => self.visit_expression_stmt(expression, fuel),
            Stmt::Print { expression } => self.visit_print_stmt(expression, fuel),
            Stmt::Return { keyword, value } => self.visit_return_stmt(keyword, value, fuel),
            Stmt::Var { name, initializer } => {
                let init: Option<&Expr> = match initializer {
                    Option::Some(b) => Option::Some(&**b),
                    Option::None => Option::None,
                };
                self.visit_var_stmt(name, init, fuel)
            },
            Stmt::Block { statements } => self.visit_block_stmt(statements, fuel),
            Stmt::If { condition, then_branch, else_branch } => {
                let els: Option<&Stmt> = match else_branch {
                    Option::Some(b) => Option::Some(&**b),
                    Option::None => Option::None,
                };
                self.visit_if_stmt(condition, then_branch, els, fuel)
            },
            Stmt::While { condition, body } => self.visit_while_stmt(condition, body, fuel),
            Stmt::Function { function } => self.visit_function_stmt(function),
        }
    }

    /// An expression statement evaluates its expression and discards the
    /// value.
    #[verifier::loop_isolation(false)]
    pub fn visit_expression_stmt(&mut self, expression: &Expr, fuel: u64) -> (r: Result<
        Control,
        Failure,
    >)
        requires
            old(self).inv(),
        ensures
            frames(*old(self), *final(self)),
            control_value_ok(r, final(self).scopes@.len() as int),
            exec_post(
                *old(self),
                *final(self),
                SpecStmt::Expression { expression: Box::new(expression@) },
                fuel as nat,
                r,
            ),
        decreases fuel, 1nat + expr_size(expression@), 0nat,
    {
        let ghost pre = *self;
        let ghost ss = SpecStmt::Expression { expression: Box::new(expression@) };
        let sub = self.evaluate(expression, fuel);
        let r: Result<Control, Failure> = match sub {
            Result::Ok(_) => Result::Ok(Control::Completed),
            Result::Err(f) => Result::Err(f),
        };
        proof {
            assert forall|rest: Seq<u64>|
                exec_stmt(pre.st(drawn(pre, *self) + rest), pre.environment as int, ss, fuel as nat)
                    == exec_result(*self, rest, r) by {
                assert(eval_expr(
                    pre.st(drawn(pre, *self) + rest),
                    pre.environment as int,
                    expression@,
                    fuel as nat,
                ) == eval_result(*self, rest, sub));
            }
        }
        r
    }

    /// `print` evaluates its expression and appends the value to the
    /// program's output.
    #[verifier::rlimit(10)]
    #[verifier::spinoff_prover]
    #[verifier::loop_isolation(false)]
    pub fn visit_print_stmt(&mut self, expression: &Expr, fuel: u64) -> (r: Result<
        Control,
        Failure,
    >)
        requires
            old(self).inv(),
        ensures
            frames(*old(self), *final(self)),
            control_value_ok(r, final(self).scopes@.len() as int),
            exec_post(
                *old(self),
                *final(self),
                SpecStmt::Print { expression: Box::new(expression@) },
                fuel as nat,
                r,
            ),
        decreases fuel, 1nat + expr_size(expression@), 0nat,
    {
        let ghost pre = *self;
        let ghost ss = SpecStmt::Print { expression: Box::new(expression@) };
        let sub = self.evaluate(expression, fuel);
        let ghost mid = *self;
        let r: Result<Control, Failure> = match sub {
            Result::Ok(v) => {
                self.output.push(v);
                Result::Ok(Control::Completed)
            },
            Result::Err(f) => Result::Err(f),
        };
        proof {
            assert forall|rest: Seq<u64>|
                exec_stmt(pre.st(drawn(pre, *self) + rest), pre.environment as int, ss, fuel as nat)
                    == exec_result(*self, rest, r) by {
                assert(eval_expr(
                    pre.st(drawn(pre, *self) + rest),
                    pre.environment as int,
                    expression@,
                    fuel as nat,
                ) == eval_result(mid, rest, sub));
                if let Result::Ok(v) = sub {
                    assert(spec_values(self.output@) =~= spec_values(mid.output@).push(v@));
                }
            }
        }
        r
    }

    /// `return` evaluates its value and raises the return signal with it.
    #[verifier::loop_isolation(false)]
    pub fn visit_return_stmt(&mut self, keyword: &Token, value: &Expr, fuel: u64) -> (r: Result<
        Control,
        Failure,
    >)
        requires
            old(self).inv(),
        ensures
            frames(*old(self), *final(self)),
            control_value_ok(r, final(self).scopes@.len() as int),
            exec_post(
                *old(self),
                *final(self),
                SpecStmt::Return { keyword: keyword@, value: Box::new(value@) },
                fuel as nat,
                r,
            ),
        decreases fuel, 1nat + expr_size(value@), 0nat,
    {
        let ghost pre = *self;
        let ghost ss = SpecStmt::Return { keyword: keyword@, value: Box::new(value@) };
        let sub = self.evaluate(value, fuel);
        let r: Result<Control, Failure> = match sub {
            Result::Ok(v) => Result::Ok(Control::Returned(keyword.clone(), v)),
            Result::Err(f) => Result::Err(f),
        };
        proof {
            assert forall|rest: Seq<u64>|
                exec_stmt(pre.st(drawn(pre, *self) + rest), pre.environment as int, ss, fuel as nat)
                    == exec_result(*self, rest, r) by {
                assert(eval_expr(
                    pre.st(drawn(pre, *self) + rest),
                    pre.environment as int,
                    value@,
                    fuel as nat,
                ) == eval_result(*self, rest, sub));
            }
        }
        r
    }

    /// `var` evaluates the initializer — nil when there is none — and
    /// defines the name in the current scope. Re-declaring a name shadows
    /// or replaces; it is never an error.
    #[verifier::rlimit(10)]
    #[verifier::spinoff_prover]
    #[verifier::loop_isolation(false)]
    pub fn visit_var_stmt(&mut self, name: &Token, initializer: Option<&Expr>, fuel: u64) -> (r:
        Result<Control, Failure>)
        requires
            old(self).inv(),
        ensures
            frames(*old(self), *final(self)),
            control_value_ok(r, final(self).scopes@.len() as int),
            exec_post(
                *old(self),
                *final(self),
                SpecStmt::Var {
                    name: name@,
                    initializer: match initializer {
                        Option::Some(e) => Option::Some(Box::new(e@)),
                        Option::None => Option::None,
                    },
                },
                fuel as nat,
                r,
            ),
        decreases fuel, 1nat + (match initializer {
            Option::Some(e) => expr_size(e@),
            Option::None => 0nat,
        }), 0nat,
    {
        let ghost pre = *self;
        let ghost ss = SpecStmt::Var {
            name: name@,
            initializer: match initializer {
                Option::Some(e) => Option::Some(Box::new(e@)),
                Option::None => Option::None,
            },
        };
        let sub: Result<Value, Failure> = match initializer {
            Option::Some(e) => self.evaluate(e, fuel),
            Option::None => Result::Ok(Value::Nil),
        };
        let ghost mid = *self;
        let v = match sub {
            Result::Ok(v) => v,
            Result::Err(f) => {
                let r = Result::<Control, Failure>::Err(f);
                proof {
                    assert forall|rest: Seq<u64>|
                        exec_stmt(
                            pre.st(drawn(pre, *self) + rest),
                            pre.environment as int,
                            ss,
                            fuel as nat,
                        ) == exec_result(*self, rest, r) by {
                        if let Option::Some(e) = initializer {
                            assert(eval_expr(
                                pre.st(drawn(pre, *self) + rest),
                                pre.environment as int,
                                e@,
                                fuel as nat,
                            ) == eval_result(*self, rest, sub));
                        }
                    }
                }
                return r;
            },
        };
        let ghost stored = v@;
        env_define(&mut self.scopes, self.environment, name.lexeme.clone(), v);
        proof {
            let n = self.scopes@.len() as int;
            assert forall|k: int|
                0 <= k < spec_scopes(self.scopes@).len() implies scope_ok(
                #[trigger] spec_scopes(self.scopes@)[k],
                n,
            ) by {
                if k != pre.environment as int {
                    assert(spec_scopes(self.scopes@)[k] == spec_scopes(mid.scopes@)[k]);
                } else {
                    lemma_scope_ok_insert(
                        spec_scopes(mid.scopes@)[k],
                        name@.lexeme,
                        stored,
                        n,
                    );
                }
            }
        }
        let r = Result::<Control, Failure>::Ok(Control::Completed);
        proof {
            assert forall|rest: Seq<u64>|
                exec_stmt(pre.st(drawn(pre, *self) + rest), pre.environment as int, ss, fuel as nat)
                    == exec_result(*self, rest, r) by {
                if let Option::Some(e) = initializer {
                    assert(eval_expr(
                        pre.st(drawn(pre, *self) + rest),
                        pre.environment as int,
                        e@,
                        fuel as nat,
                    ) == eval_result(mid, rest, sub));
                } else {
                    assert(drawn(pre, *self) + rest =~= rest);
                }
            }
        }
        r
    }

    /// A block executes its statements in a fresh scope enclosing the
    /// current one; the current scope is restored afterwards on every path.
    #[verifier::loop_isolation(false)]
    pub fn visit_block_stmt(&mut self, statements: &Vec<Stmt>, fuel: u64) -> (r: Result<
        Control,
        Failure,
    >)
        requires
            old(self).inv(),
        ensures
            frames(*old(self), *final(self)),
            control_value_ok(r, final(self).scopes@.len() as int),
            exec_post(
                *old(self),
                *final(self),
                SpecStmt::Block { statements: spec_stmts_view(statements@) },
                fuel as nat,
                r,
            ),
        decreases fuel, 1nat + stmts_size(spec_stmts_view(statements@)), 0nat,
    {
        let ghost pre = *self;
        let ghost ss = SpecStmt::Block { statements: spec_stmts_view(statements@) };
        let child = push_scope(&mut self.scopes, self.environment);
        proof {
            lemma_scopes_ok_grow(
                spec_scopes(pre.scopes@),
                pre.scopes@.len() as int,
                self.scopes@.len() as int,
            );
            assert forall|k: int|
                0 <= k < spec_scopes(self.scopes@).len() implies scope_ok(
                #[trigger] spec_scopes(self.scopes@)[k],
                self.scopes@.len() as int,
            ) by {
                if k < pre.scopes@.len() {
                    assert(spec_scopes(self.scopes@)[k] == spec_scopes(pre.scopes@)[k]);
                } else {
                    assert(spec_scopes(self.scopes@)[k].bindings =~= Map::<
                        Seq<char>,
                        SpecValue,
                    >::empty());
                }
            }
        }
        let ghost mid = *self;
        let r = self.execute_block(statements, child, fuel);
        proof {
            lemma_frames_trans(pre, mid, *self);
            assert forall|rest: Seq<u64>|
                exec_stmt(pre.st(drawn(pre, *self) + rest), pre.environment as int, ss, fuel as nat)
                    == exec_result(*self, rest, r) by {
                assert(drawn(pre, mid) =~= Seq::<u64>::empty());
                assert(drawn(pre, *self) =~= drawn(mid, *self));
                let st0 = pre.st(drawn(pre, *self) + rest);
                assert(st0.scopes.push(
                    SpecScope {
                        bindings: Map::empty(),
                        enclosing: Option::Some(pre.environment as int),
                    },
                ) =~= spec_scopes(mid.scopes@));
                assert(exec_stmts(
                    mid.st(drawn(mid, *self) + rest),
                    child as int,
                    spec_stmts_view(statements@),
                    fuel as nat,
                ) == exec_result(*self, rest, r));
            }
        }
        r
    }

    /// `if` evaluates the condition under truthiness and executes exactly
    /// one branch.
    #[verifier::rlimit(10)]
    #[verifier::spinoff_prover]
    #[verifier::loop_isolation(false)]
    pub fn visit_if_stmt(
        &mut self,
        condition: &Expr,
        then_branch: &Stmt,
        else_branch: Option<&Stmt>,
        fuel: u64,
    ) -> (r: Result<Control, Failure>)
        requires
            old(self).inv(),
        ensures
            frames(*old(self), *final(self)),
            control_value_ok(r, final(self).scopes@.len() as int),
            exec_post(
                *old(self),
                *final(self),
                SpecStmt::If {
                    condition: Box::new(condition@),
                    then_branch: Box::new(then_branch@),
                    else_branch: match else_branch {
                        Option::Some(s) => Option::Some(Box::new(s@)),
                        Option::None => Option::None,
                    },
                },
                fuel as nat,
                r,
            ),
        decreases fuel, 1nat + expr_size(condition@) + stmt_size(then_branch@) + (
        match else_branch {
            Option::Some(s) => stmt_size(s@),
            Option::None => 0nat,
        }), 0nat,
    {
        let ghost pre = *self;
        let ghost ss = SpecStmt::If {
            condition: Box::new(condition@),
            then_branch: Box::new(then_branch@),
            else_branch: match else_branch {
                Option::Some(s) => Option::Some(Box::new(s@)),
                Option::None => Option::None,
            },
        };
        let sub = self.evaluate(condition, fuel);
        let ghost mid = *self;
        let cond_value = match sub {
            Result::Ok(v) => v,
            Result::Err(f) => {
                let r = Result::<Control, Failure>::Err(f);
                proof {
                    assert forall|rest: Seq<u64>|
                        exec_stmt(
                            pre.st(drawn(pre, *self) + rest),
                            pre.environment as int,
                            ss,
                            fuel as nat,
                        ) == exec_result(*self, rest, r) by {
                        assert(eval_expr(
                            pre.st(drawn(pre, *self) + rest),
                            pre.environment as int,
                            condition@,
                            fuel as nat,
                        ) == eval_result(*self, rest, sub));
                    }
                }
                return r;
            },
        };
        let r: Result<Control, Failure> = if cond_value.is_truthy() {
            self.execute(then_branch, fuel)
        } else {
            match else_branch {
                Option::Some(els) => self.execute(els, fuel),
                Option::None => Result::Ok(Control::Completed),
            }
        };
        proof {
            lemma_frames_trans(pre, mid, *self);
            assert forall|rest: Seq<u64>|
                exec_stmt(pre.st(drawn(pre, *self) + rest), pre.environment as int, ss, fuel as nat)
                    == exec_result(*self, rest, r) by {
                lemma_drawn_chain(pre, mid, *self);
                assert(eval_expr(
                    pre.st(drawn(pre, mid) + (drawn(mid, *self) + rest)),
                    pre.environment as int,
                    condition@,
                    fuel as nat,
                ) == eval_result(mid, drawn(mid, *self) + rest, Result::<Value, Failure>::Ok(cond_value)));
                assert(drawn(pre, mid) + (drawn(mid, *self) + rest) =~= drawn(pre, *self) + rest);
                if crate::value::spec_truthy(cond_value@) {
                    assert(exec_stmt(
                        mid.st(drawn(mid, *self) + rest),
                        mid.environment as int,
                        then_branch@,
                        fuel as nat,
                    ) == exec_result(*self, rest, r));
                } else {
                    if let Option::Some(els) = else_branch {
                        assert(exec_stmt(
                            mid.st(drawn(mid, *self) + rest),
                            mid.environment as int,
                            els@,
                            fuel as nat,
                        ) == exec_result(*self, rest, r));
                    }
                }
            }
        }
        r
    }

    /// `while` re-evaluates the condition before each iteration and stops
    /// when it is falsy. Each iteration consumes one unit of fuel.
    #[verifier::rlimit(20)]
    #[verifier::spinoff_prover]
    #[verifier::loop_isolation(false)]
    pub fn visit_while_stmt(&mut self, condition: &Expr, body: &Stmt, fuel: u64) -> (r: Result<
        Control,
        Failure,
    >)
        requires
            old(self).inv(),
        ensures
            frames(*old(self), *final(self)),
            control_value_ok(r, final(self).scopes@.len() as int),
            exec_post(
                *old(self),
                *final(self),
                SpecStmt::While { condition: Box::new(condition@), body: Box::new(body@) },
                fuel as nat,
                r,
            ),
        decreases fuel, 1nat + expr_size(condition@) + stmt_size(body@), 0nat,
    {
        let ghost pre = *self;
        let ghost w = SpecStmt::While { condition: Box::new(condition@), body: Box::new(body@) };
        let mut fuel_left = fuel;
        proof {
            assert forall|rest: Seq<u64>|
                exec_stmt(pre.st(drawn(pre, *self) + rest), pre.environment as int, w, fuel as nat)
                    == exec_stmt(self.st(rest), pre.environment as int, w, fuel_left as nat) by {
                assert(drawn(pre, *self) + rest =~= rest);
            }
        }
        loop
            invariant
                self.inv(),
                frames(pre, *self),
                fuel_left <= fuel,
                forall|rest: Seq<u64>|
                    #![trigger exec_stmt(pre.st(drawn(pre, *self) + rest), pre.environment as int, w, fuel as nat)]
                    exec_stmt(
                        pre.st(drawn(pre, *self) + rest),
                        pre.environment as int,
                        w,
                        fuel as nat,
                    ) == exec_stmt(self.st(rest), pre.environment as int, w, fuel_left as nat),
            decreases fuel_left,
        {
            let ghost c0 = *self;
            let sub = self.evaluate(condition, fuel_left);
            let ghost c1 = *self;
            let ghost g_sub = sub;
            let cond_value = match sub {
                Result::Ok(v) => v,
                Result::Err(f) => {
                    proof {
                        lemma_frames_trans(pre, c0, *self);
                        lemma_while_exit(
                            pre,
                            c0,
                            c1,
                            condition@,
                            body@,
                            fuel as nat,
                            fuel_left as nat,
                            g_sub,
                        );
                    }
                    return Result::Err(f);
                },
            };
            if !cond_value.is_truthy() {
                proof {
                    lemma_frames_trans(pre, c0, *self);
                    lemma_while_exit(
                        pre,
                        c0,
                        c1,
                        condition@,
                        body@,
                        fuel as nat,
                        fuel_left as nat,
                        g_sub,
                    );
                }
                return Result::Ok(Control::Completed);
            }
            let step = self.execute(body, fuel_left);
            let ghost g_step = step;
            proof {
                lemma_frames_trans(pre, c0, c1);
                lemma_frames_trans(pre, c1, *self);
                lemma_while_iter(
                    pre,
                    c0,
                    c1,
                    *self,
                    condition@,
                    body@,
                    fuel as nat,
                    fuel_left as nat,
                    cond_value,
                    g_step,
                );
            }
            match step {
                Result::Ok(Control::Completed) => {
                    if fuel_left == 0 {
                        return Result::Err(Failure::Exhausted);
                    }
                    fuel_left = fuel_left - 1;
                },
                Result::Ok(Control::Returned(keyword, v)) => {
                    return Result::Ok(Control::Returned(keyword, v));
                },
                Result::Err(f) => {
                    return Result::Err(f);
                },
            }
        }
    }

    /// A function declaration creates a function value capturing the
    /// current scope as its closure, and defines it under the function's
    /// name in the current scope.
    #[verifier::loop_isolation(false)]
    pub fn visit_function_stmt(&mut self, function: &LoxFunctionNode) -> (r: Result<
        Control,
        Failure,
    >)
        requires
            old(self).inv(),
        ensures
            frames(*old(self), *final(self)),
            control_value_ok(r, final(self).scopes@.len() as int),
            forall|fuel: nat|
                exec_post(
                    *old(self),
                    *final(self),
                    SpecStmt::Function { function: function@ },
                    fuel,
                    r,
                ),
    {
        let ghost pre = *self;
        let fun_value = Value::Callable(
            Box::new(
                LoxCallable::Function(
                    LoxFunction::new(Box::new(function.clone()), self.environment),
                ),
            ),
        );
        let ghost stored = fun_value@;
        env_define(
            &mut self.scopes,
            self.environment,
            function.name.lexeme.clone(),
            fun_value,
        );
        proof {
            let n = self.scopes@.len() as int;
            assert forall|k: int|
                0 <= k < spec_scopes(self.scopes@).len() implies scope_ok(
                #[trigger] spec_scopes(self.scopes@)[k],
                n,
            ) by {
                if k != pre.environment as int {
                    assert(spec_scopes(self.scopes@)[k] == spec_scopes(pre.scopes@)[k]);
                } else {
                    lemma_scope_ok_insert(
                        spec_scopes(pre.scopes@)[k],
                        function@.name.lexeme,
                        stored,
                        n,
                    );
                }
            }
        }
        let r = Result::<Control, Failure>::Ok(Control::Completed);
        proof {
            assert forall|fuel: nat|
                exec_post(*old(self), *self, SpecStmt::Function { function: function@ }, fuel, r)
                by {
                assert forall|rest: Seq<u64>|
                    exec_stmt(
                        pre.st(drawn(pre, *self) + rest),
                        pre.environment as int,
                        SpecStmt::Function { function: function@ },
                        fuel,
                    ) == exec_result(*self, rest, r) by {
                    assert(drawn(pre, *self) + rest =~= rest);
                }
            }
        }
        r
    }

    /// Run a statement list in the scope at `environment`, restoring the
    /// previously current scope on every exit path.
    #[verifier::rlimit(20)]
    #[verifier::spinoff_prover]
    #[verifier::loop_isolation(false)]
    pub fn execute_block(&mut self, statements: &Vec<Stmt>, environment: usize, fuel: u64) -> (r:
        Result<Control, Failure>)
        requires
            old(self).inv(),
            environment < old(self).scopes@.len(),
        ensures
            frames(*old(self), *final(self)),
            control_value_ok(r, final(self).scopes@.len() as int),
            block_post(
                *old(self),
                *final(self),
                environment as int,
                spec_stmts_view(statements@),
                fuel as nat,
                r,
            ),
        decreases fuel, stmts_size(spec_stmts_view(statements@)), 2nat,
    {
        let ghost pre = *self;
        let ghost ss = spec_stmts_view(statements@);
        proof {
            crate::ast::lemma_stmts_view(statements@);
        }
        let previous = self.environment;
        self.environment = environment;
        let n = statements.len();
        let mut i: usize = 0;
        proof {
            assert(ss.skip(0) =~= ss);
            assert forall|rest: Seq<u64>|
                exec_stmts(pre.st(drawn(pre, *self) + rest), environment as int, ss, fuel as nat)
                    == exec_stmts(self.st(rest), environment as int, ss.skip(0), fuel as nat) by {
                assert(drawn(pre, *self) + rest =~= rest);
            }
        }
        while i < n
            invariant
                i <= n,
                n == statements@.len(),
                self.inv(),
                self.environment == environment,
                self.globals == pre.globals,
                pre.clock_log@.is_prefix_of(self.clock_log@),
                pre.scopes@.len() <= self.scopes@.len(),
                forall|rest: Seq<u64>|
                    #![trigger exec_stmts(pre.st(drawn(pre, *self) + rest), environment as int, ss, fuel as nat)]
                    exec_stmts(
                        pre.st(drawn(pre, *self) + rest),
                        environment as int,
                        ss,
                        fuel as nat,
                    ) == exec_stmts(
                        self.st(rest),
                        environment as int,
                        ss.skip(i as int),
                        fuel as nat,
                    ),
            decreases n - i,
        {
            let ghost c0 = *self;
            proof {
                crate::semantics::lemma_stmts_size_elem(ss, i as int);
            }
            let step = self.execute(&statements[i], fuel);
            let ghost g_step = step;
            proof {
                assert(ss[i as int] == spec_stmt_view(statements@[i as int]));
                lemma_stmts_seq_step(
                    pre,
                    c0,
                    *self,
                    environment as int,
                    ss,
                    i as int,
                    fuel as nat,
                    g_step,
                );
            }
            match step {
                Result::Ok(Control::Completed) => {
                    i = i + 1;
                },
                Result::Ok(Control::Returned(keyword, v)) => {
                    self.environment = previous;
                    return Result::Ok(Control::Returned(keyword, v));
                },
                Result::Err(f) => {
                    self.environment = previous;
                    return Result::Err(f);
                },
            }
        }
        self.environment = previous;
        let r = Result::<Control, Failure>::Ok(Control::Completed);
        proof {
            assert(ss.skip(n as int) =~= Seq::<SpecStmt>::empty());
            assert forall|rest: Seq<u64>|
                exec_stmts(pre.st(drawn(pre, *self) + rest), environment as int, ss, fuel as nat)
                    == exec_result(*self, rest, r) by {
                assert(exec_stmts(
                    self.st(rest),
                    environment as int,
                    ss.skip(n as int),
                    fuel as nat,
                ) == SpecExec::Done(self.st(rest)));
            }
        }
        r
    }

    /// Run a whole program: its top-level statements, in order, in the
    /// global scope, stopping at the first runtime error. A `return` at top
    /// level has no call frame to return to and is reported as a runtime
    /// error at its keyword.
    #[verifier::rlimit(20)]
    #[verifier::spinoff_prover]
    #[verifier::loop_isolation(false)]
    pub fn interpret(&mut self, statements: &Vec<Stmt>, fuel: u64) -> (r: Result<(), Failure>)
        requires
            old(self).inv(),
            old(self).environment == 0,
        ensures
            frames(*old(self), *final(self)),
            final(self).environment == 0,
            forall|rest: Seq<u64>|
                #![trigger spec_interpret(old(self).st(drawn(*old(self), *final(self)) + rest), spec_stmts_view(statements@), fuel as nat)]
                spec_interpret(
                    old(self).st(drawn(*old(self), *final(self)) + rest),
                    spec_stmts_view(statements@),
                    fuel as nat,
                ) == (match r {
                    Result::Ok(()) => SpecExec::Done(final(self).st(rest)),
                    Result::Err(Failure::Error(e)) => SpecExec::Fail(final(self).st(rest), e@),
                    Result::Err(Failure::Exhausted) => SpecExec::Out,
                }),
    {
        let ghost pre = *self;
        let ghost ss = spec_stmts_view(statements@);
        proof {
            crate::ast::lemma_stmts_view(statements@);
        }
        let n = statements.len();
        let mut i: usize = 0;
        proof {
            assert(ss.skip(0) =~= ss);
            assert forall|rest: Seq<u64>|
                exec_stmts(pre.st(drawn(pre, *self) + rest), 0, ss, fuel as nat) == exec_stmts(
                    self.st(rest),
                    0,
                    ss.skip(0),
                    fuel as nat,
                ) by {
                assert(drawn(pre, *self) + rest =~= rest);
            }
        }
        while i < n
            invariant
                i <= n,
                n == statements@.len(),
                self.inv(),
                self.environment == 0,
                self.globals == pre.globals,
                pre.clock_log@.is_prefix_of(self.clock_log@),
                pre.scopes@.len() <= self.scopes@.len(),
                forall|rest: Seq<u64>|
                    #![trigger exec_stmts(pre.st(drawn(pre, *self) + rest), 0, ss, fuel as nat)]
                    exec_stmts(pre.st(drawn(pre, *self) + rest), 0, ss, fuel as nat) == exec_stmts(
                        self.st(rest),
                        0,
                        ss.skip(i as int),
                        fuel as nat,
                    ),
            decreases n - i,
        {
            let ghost c0 = *self;
            let step = self.execute(&statements[i], fuel);
            let ghost g_step = step;
            proof {
                assert(ss[i as int] == spec_stmt_view(statements@[i as int]));
                lemma_stmts_seq_step(pre, c0, *self, 0, ss, i as int, fuel as nat, g_step);
            }
            match step {
                Result::Ok(Control::Completed) => {
                    i = i + 1;
                },
                Result::Ok(Control::Returned(keyword, _v)) => {
                    let error = RuntimeError::new(
                        keyword,
                        String::from_str("Cannot return from top-level code."),
                    );
                    return Result::Err(Failure::Error(error));
                },
                Result::Err(f) => {
                    return Result::Err(f);
                },
            }
        }
        let r = Result::<(), Failure>::Ok(());
        proof {
            assert(ss.skip(n as int) =~= Seq::<SpecStmt>::empty());
            assert forall|rest: Seq<u64>|
                spec_interpret(pre.st(drawn(pre, *self) + rest), ss, fuel as nat) == SpecExec::Done(
                    self.st(rest),
                ) by {
                assert(exec_stmts(self.st(rest), 0, ss.skip(n as int), fuel as nat)
                    == SpecExec::Done(self.st(rest)));
            }
        }
        r
    }
}

} // verus!
