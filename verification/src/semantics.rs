//! The language's big-step semantics, as specification functions.
//!
//! Evaluation is deterministic once two things are fixed: a fuel bound and a
//! stream of clock readings. Fuel bounds the depth of function calls and the
//! total number of loop iterations; a real interpreter has such a bound in
//! the shape of its call stack, and the executable interpreter takes it as
//! an explicit argument. The clock stream resolves the one non-deterministic
//! operation, the `clock` native: each call consumes the next reading. The
//! executable interpreter records the readings it drew, and its contracts
//! say that the semantics, fed exactly those readings, produces exactly the
//! interpreter's result.
use vstd::prelude::*;
use crate::ast::SpecExpr;
use crate::ast::SpecStmt;
use crate::environment::spec_assign;
use crate::environment::spec_lookup;
use crate::environment::SpecScope;
use crate::numbers::num_add;
use crate::numbers::num_div;
use crate::numbers::num_eq;
use crate::numbers::num_ge;
use crate::numbers::num_gt;
use crate::numbers::num_le;
use crate::numbers::num_lt;
use crate::numbers::num_mul;
use crate::numbers::num_neg;
use crate::numbers::num_of_u64;
use crate::numbers::num_sub;
use crate::runtime_error::msg_arity;
use crate::runtime_error::msg_not_callable;
use crate::runtime_error::msg_operand_number;
use crate::runtime_error::msg_operands_numbers;
use crate::runtime_error::msg_operands_numbers_or_strings;
use crate::runtime_error::msg_top_level_return;
use crate::runtime_error::msg_undefined_variable;
use crate::runtime_error::SpecRuntimeError;
use crate::token::SpecLiteral;
use crate::token::SpecToken;
use crate::token::TokenType;
use crate::value::NativeKind;
use crate::value::SpecCallable;
use crate::value::SpecValue;
use crate::value::spec_truthy;

verus! {

/// Everything evaluation can read or change: the scope arena, the output of
/// `print` statements so far, and the clock readings not yet consumed.
pub struct SpecState {
    pub scopes: Seq<SpecScope>,
    pub output: Seq<SpecValue>,
    pub clock: Seq<u64>,
}

/// Outcome of evaluating an expression.
pub enum SpecEval {
    /// The expression produced a value.
    Val(SpecState, SpecValue),
    /// A runtime error; execution of the program stops here.
    Fail(SpecState, SpecRuntimeError),
    /// The fuel bound (or the clock stream) was exhausted.
    Out,
}

/// Outcome of evaluating a list of expressions left to right.
pub enum SpecEvalList {
    Vals(SpecState, Seq<SpecValue>),
    Fail(SpecState, SpecRuntimeError),
    Out,
}

/// Outcome of executing a statement. A `return` statement unwinds block,
/// `if` and `while` execution as `Ret` — carrying its keyword token and its
/// value — until a function-call boundary converts it into the call's
/// result. It is expected control flow, distinct from `Fail`.
pub enum SpecExec {
    Done(SpecState),
    Ret(SpecState, SpecToken, SpecValue),
    Fail(SpecState, SpecRuntimeError),
    Out,
}

/// The value of a literal expression.
pub open spec fn spec_literal_value(l: SpecLiteral) -> SpecValue {
    match l {
        SpecLiteral::Num(b) => SpecValue::Num(b),
        SpecLiteral::Str(s) => SpecValue::Str(s),
        SpecLiteral::Bool(b) => SpecValue::Bool(b),
        SpecLiteral::Nil => SpecValue::Nil,
    }
}

/// The unary operators. `-` requires a number; `!` applies truthiness and
/// negates. (The parser only builds unary nodes for these two operators; on
/// any other token the operand-type error is returned.)
pub open spec fn spec_apply_unary(op: SpecToken, v: SpecValue) -> Result<
    SpecValue,
    SpecRuntimeError,
> {
    if op.token_type == TokenType::Minus {
        match v {
            SpecValue::Num(b) => Result::Ok(SpecValue::Num(num_neg(b))),
            _ => Result::Err(SpecRuntimeError { token: op, message: msg_operand_number() }),
        }
    } else if op.token_type == TokenType::Bang {
        Result::Ok(SpecValue::Bool(!spec_truthy(v)))
    } else {
        Result::Err(SpecRuntimeError { token: op, message: msg_operand_number() })
    }
}

/// The binary operators, on already-evaluated operands.
///
/// `+` adds two numbers or concatenates two strings; `-`, `*`, `/` and the
/// comparisons require two numbers. Equality and inequality also require two
/// numbers here — comparing strings, booleans or mixed types is an operand
/// type error, not `false`. (The parser only builds binary nodes for the
/// tokens matched below; any other token gets the two-number error.)
pub open spec fn spec_apply_binary(op: SpecToken, l: SpecValue, r: SpecValue) -> Result<
    SpecValue,
    SpecRuntimeError,
> {
    if op.token_type == TokenType::Plus {
        match (l, r) {
            (SpecValue::Num(a), SpecValue::Num(b)) => Result::Ok(SpecValue::Num(num_add(a, b))),
            (SpecValue::Str(a), SpecValue::Str(b)) => Result::Ok(SpecValue::Str(a + b)),
            _ => Result::Err(
                SpecRuntimeError { token: op, message: msg_operands_numbers_or_strings() },
            ),
        }
    } else {
        match (l, r) {
            (SpecValue::Num(a), SpecValue::Num(b)) => {
                if op.token_type == TokenType::Minus {
                    Result::Ok(SpecValue::Num(num_sub(a, b)))
                } else if op.token_type == TokenType::Star {
                    Result::Ok(SpecValue::Num(num_mul(a, b)))
                } else if op.token_type == TokenType::Slash {
                    Result::Ok(SpecValue::Num(num_div(a, b)))
                } else if op.token_type == TokenType::Greater {
                    Result::Ok(SpecValue::Bool(num_gt(a, b)))
                } else if op.token_type == TokenType::GreaterEqual {
                    Result::Ok(SpecValue::Bool(num_ge(a, b)))
                } else if op.token_type == TokenType::Less {
                    Result::Ok(SpecValue::Bool(num_lt(a, b)))
                } else if op.token_type == TokenType::LessEqual {
                    Result::Ok(SpecValue::Bool(num_le(a, b)))
                } else if op.token_type == TokenType::EqualEqual {
                    Result::Ok(SpecValue::Bool(num_eq(a, b)))
                } else if op.token_type == TokenType::BangEqual {
                    Result::Ok(SpecValue::Bool(!num_eq(a, b)))
                } else {
                    Result::Err(
                        SpecRuntimeError { token: op, message: msg_operands_numbers() },
                    )
                }
            },
            _ => Result::Err(SpecRuntimeError { token: op, message: msg_operands_numbers() }),
        }
    }
}

/// How many arguments a callable expects.
pub open spec fn spec_arity(c: SpecCallable) -> nat {
    match c {
        SpecCallable::Function(f) => f.declaration.params.len(),
        SpecCallable::NativeFunction(f) => f.params.len(),
    }
}

/// The bindings of a fresh call scope: each parameter name bound to the
/// corresponding argument, in order.
pub open spec fn spec_param_bindings(params: Seq<SpecToken>, args: Seq<SpecValue>) -> Map<
    Seq<char>,
    SpecValue,
>
    decreases params,
{
    if params.len() == 0 {
        Map::empty()
    } else {
        spec_param_bindings(params.drop_last(), args.drop_last()).insert(
            params.last().lexeme,
            args.last(),
        )
    }
}

/// The size measures used (with fuel) to ground the recursion of the
/// semantics: every node counts itself and its children.
pub open spec fn expr_size(e: SpecExpr) -> nat
    decreases e,
{
    match e {
        SpecExpr::Literal { .. } => 1,
        SpecExpr::Grouping { expression } => 1 + expr_size(*expression),
        SpecExpr::Unary { right, .. } => 1 + expr_size(*right),
        SpecExpr::Binary { left, right, .. } => 1 + expr_size(*left) + expr_size(*right),
        SpecExpr::Logical { left, right, .. } => 1 + expr_size(*left) + expr_size(*right),
        SpecExpr::Variable { .. } => 1,
        SpecExpr::Assign { value, .. } => 1 + expr_size(*value),
        SpecExpr::Call { callee, arguments, .. } => 1 + expr_size(*callee) + exprs_size(arguments),
    }
}

pub open spec fn exprs_size(s: Seq<SpecExpr>) -> nat
    decreases s,
{
    if s.len() == 0 {
        0
    } else {
        1 + expr_size(s[0]) + exprs_size(s.drop_first())
    }
}

pub open spec fn stmt_size(s: SpecStmt) -> nat
    decreases s,
{
    match s {
        SpecStmt::Expression { expression } => 1 + expr_size(*expression),
        SpecStmt::Print { expression } => 1 + expr_size(*expression),
        SpecStmt::Return { value, .. } => 1 + expr_size(*value),
        SpecStmt::Var { initializer, .. } => 1 + match initializer {
            Option::Some(e) => expr_size(*e),
            Option::None => 0,
        },
        SpecStmt::Block { statements } => 1 + stmts_size(statements),
        SpecStmt::If { condition, then_branch, else_branch } => 1 + expr_size(*condition)
            + stmt_size(*then_branch) + match else_branch {
            Option::Some(s) => stmt_size(*s),
            Option::None => 0,
        },
        SpecStmt::While { condition, body } => 1 + expr_size(*condition) + stmt_size(*body),
        SpecStmt::Function { .. } => 1,
    }
}

pub open spec fn stmts_size(s: Seq<SpecStmt>) -> nat
    decreases s,
{
    if s.len() == 0 {
        0
    } else {
        1 + stmt_size(s[0]) + stmts_size(s.drop_first())
    }
}

/// Evaluate one expression in the scope at index `env`.
pub open spec fn eval_expr(st: SpecState, env: int, e: SpecExpr, fuel: nat) -> SpecEval
    decreases fuel, expr_size(e), 0nat,
{
    match e {
        SpecExpr::Literal { value } => SpecEval::Val(st, spec_literal_value(value)),
        SpecExpr::Grouping { expression } => eval_expr(st, env, *expression, fuel),
        SpecExpr::Unary { operator, right } => match eval_expr(st, env, *right, fuel) {
            SpecEval::Val(st1, v) => match spec_apply_unary(operator, v) {
                Result::Ok(r) => SpecEval::Val(st1, r),
                Result::Err(e) => SpecEval::Fail(st1, e),
            },
            other => other,
        },
        SpecExpr::Binary { left, operator, right } => match eval_expr(st, env, *left, fuel) {
            SpecEval::Val(st1, lv) => match eval_expr(st1, env, *right, fuel) {
                SpecEval::Val(st2, rv) => match spec_apply_binary(operator, lv, rv) {
                    Result::Ok(r) => SpecEval::Val(st2, r),
                    Result::Err(e) => SpecEval::Fail(st2, e),
                },
                other => other,
            },
            other => other,
        },
        SpecExpr::Logical { left, operator, right } => match eval_expr(st, env, *left, fuel) {
            SpecEval::Val(st1, lv) => {
                if operator.token_type == TokenType::Or {
                    if spec_truthy(lv) {
                        SpecEval::Val(st1, lv)
                    } else {
                        eval_expr(st1, env, *right, fuel)
                    }
                } else {
                    if !spec_truthy(lv) {
                        SpecEval::Val(st1, lv)
                    } else {
                        eval_expr(st1, env, *right, fuel)
                    }
                }
            },
            other => other,
        },
        SpecExpr::Variable { name } => match spec_lookup(st.scopes, env, name.lexeme) {
            Option::Some(v) => SpecEval::Val(st, v),
            Option::None => SpecEval::Fail(
                st,
                SpecRuntimeError { token: name, message: msg_undefined_variable(name.lexeme) },
            ),
        },
        SpecExpr::Assign { name, value } => match eval_expr(st, env, *value, fuel) {
            SpecEval::Val(st1, v) => match spec_assign(st1.scopes, env, name.lexeme, v) {
                Option::Some(scopes2) => SpecEval::Val(
                    SpecState { scopes: scopes2, output: st1.output, clock: st1.clock },
                    v,
                ),
                Option::None => SpecEval::Fail(
                    st1,
                    SpecRuntimeError { token: name, message: msg_undefined_variable(name.lexeme) },
                ),
            },
            other => other,
        },
        SpecExpr::Call { callee, paren, arguments } => match eval_expr(st, env, *callee, fuel) {
            SpecEval::Val(st1, cv) => match cv {
                SpecValue::Callable(c) => match eval_exprs(st1, env, arguments, fuel) {
                    SpecEvalList::Vals(st2, args) => spec_invoke(st2, c, args, paren, fuel),
                    SpecEvalList::Fail(st2, e) => SpecEval::Fail(st2, e),
                    SpecEvalList::Out => SpecEval::Out,
                },
                _ => SpecEval::Fail(
                    st1,
                    SpecRuntimeError { token: paren, message: msg_not_callable() },
                ),
            },
            other => other,
        },
    }
}

/// Evaluate a list of expressions left to right.
pub open spec fn eval_exprs(st: SpecState, env: int, es: Seq<SpecExpr>, fuel: nat) -> SpecEvalList
    decreases fuel, exprs_size(es), 1nat,
{
    if es.len() == 0 {
        SpecEvalList::Vals(st, Seq::empty())
    } else {
        match eval_expr(st, env, es[0], fuel) {
            SpecEval::Val(st1, v) => match eval_exprs(st1, env, es.drop_first(), fuel) {
                SpecEvalList::Vals(st2, vs) => SpecEvalList::Vals(st2, seq![v] + vs),
                other => other,
            },
            SpecEval::Fail(st1, e) => SpecEvalList::Fail(st1, e),
            SpecEval::Out => SpecEvalList::Out,
        }
    }
}

/// Invoke an already-evaluated callable on already-evaluated arguments.
///
/// The argument count must match the callable's arity exactly. A declared
/// function runs its body in a fresh scope that encloses the scope captured
/// at its definition — not the caller's — with each parameter bound to its
/// argument; a `return` gives the call's value, and falling off the end
/// gives nil. The `clock` native consumes the next clock reading and returns
/// it, converted from milliseconds to seconds.
pub open spec fn spec_invoke(
    st: SpecState,
    c: SpecCallable,
    args: Seq<SpecValue>,
    paren: SpecToken,
    fuel: nat,
) -> SpecEval
    decreases fuel, 0nat, 0nat,
{
    if args.len() != spec_arity(c) {
        SpecEval::Fail(
            st,
            SpecRuntimeError { token: paren, message: msg_arity(spec_arity(c), args.len()) },
        )
    } else {
        match c {
            SpecCallable::Function(f) => {
                if fuel == 0 {
                    SpecEval::Out
                } else {
                    let callee_scope = SpecScope {
                        bindings: spec_param_bindings(f.declaration.params, args),
                        enclosing: Option::Some(f.closure),
                    };
                    let st1 = SpecState {
                        scopes: st.scopes.push(callee_scope),
                        output: st.output,
                        clock: st.clock,
                    };
                    match exec_stmts(
                        st1,
                        st.scopes.len() as int,
                        f.declaration.body,
                        (fuel - 1) as nat,
                    ) {
                        SpecExec::Done(st2) => SpecEval::Val(st2, SpecValue::Nil),
                        SpecExec::Ret(st2, _, v) => SpecEval::Val(st2, v),
                        SpecExec::Fail(st2, e) => SpecEval::Fail(st2, e),
                        SpecExec::Out => SpecEval::Out,
                    }
                }
            },
            SpecCallable::NativeFunction(f) => match f.kind {
                NativeKind::Clock => {
                    if st.clock.len() == 0 {
                        SpecEval::Out
                    } else {
                        SpecEval::Val(
                            SpecState {
                                scopes: st.scopes,
                                output: st.output,
                                clock: st.clock.drop_first(),
                            },
                            SpecValue::Num(num_div(num_of_u64(st.clock[0]), num_of_u64(1000))),
                        )
                    }
                },
            },
        }
    }
}

/// Execute one statement in the scope at index `env`.
pub open spec fn exec_stmt(st: SpecState, env: int, s: SpecStmt, fuel: nat) -> SpecExec
    decreases fuel, stmt_size(s), 0nat,
{
    match s {
        SpecStmt::Expression { expression } => match eval_expr(st, env, *expression, fuel) {
            SpecEval::Val(st1, _) => SpecExec::Done(st1),
            SpecEval::Fail(st1, e) => SpecExec::Fail(st1, e),
            SpecEval::Out => SpecExec::Out,
        },
        SpecStmt::Print { expression } => match eval_expr(st, env, *expression, fuel) {
            SpecEval::Val(st1, v) => SpecExec::Done(
                SpecState { scopes: st1.scopes, output: st1.output.push(v), clock: st1.clock },
            ),
            SpecEval::Fail(st1, e) => SpecExec::Fail(st1, e),
            SpecEval::Out => SpecExec::Out,
        },
        SpecStmt::Return { keyword, value } => match eval_expr(st, env, *value, fuel) {
            SpecEval::Val(st1, v) => SpecExec::Ret(st1, keyword, v),
            SpecEval::Fail(st1, e) => SpecExec::Fail(st1, e),
            SpecEval::Out => SpecExec::Out,
        },
        SpecStmt::Var { name, initializer } => {
            let init = match initializer {
                Option::Some(e) => eval_expr(st, env, *e, fuel),
                Option::None => SpecEval::Val(st, SpecValue::Nil),
            };
            match init {
                SpecEval::Val(st1, v) => {
                    if 0 <= env < st1.scopes.len() {
                        let sc = st1.scopes[env];
                        SpecExec::Done(
                            SpecState {
                                scopes: st1.scopes.update(
                                    env,
                                    SpecScope {
                                        bindings: sc.bindings.insert(name.lexeme, v),
                                        enclosing: sc.enclosing,
                                    },
                                ),
                                output: st1.output,
                                clock: st1.clock,
                            },
                        )
                    } else {
                        SpecExec::Done(st1)
                    }
                },
                SpecEval::Fail(st1, e) => SpecExec::Fail(st1, e),
                SpecEval::Out => SpecExec::Out,
            }
        },
        SpecStmt::Block { statements } => {
            let child = SpecScope {
                bindings: Map::empty(),
                enclosing: Option::Some(env),
            };
            let st1 = SpecState {
                scopes: st.scopes.push(child),
                output: st.output,
                clock: st.clock,
            };
            exec_stmts(st1, st.scopes.len() as int, statements, fuel)
        },
        SpecStmt::If { condition, then_branch, else_branch } => match eval_expr(
            st,
            env,
            *condition,
            fuel,
        ) {
            SpecEval::Val(st1, v) => {
                if spec_truthy(v) {
                    exec_stmt(st1, env, *then_branch, fuel)
                } else {
                    match else_branch {
                        Option::Some(els) => exec_stmt(st1, env, *els, fuel),
                        Option::None => SpecExec::Done(st1),
                    }
                }
            },
            SpecEval::Fail(st1, e) => SpecExec::Fail(st1, e),
            SpecEval::Out => SpecExec::Out,
        },
        SpecStmt::While { condition, body } => match eval_expr(st, env, *condition, fuel) {
            SpecEval::Val(st1, v) => {
                if !spec_truthy(v) {
                    SpecExec::Done(st1)
                } else {
                    match exec_stmt(st1, env, *body, fuel) {
                        SpecExec::Done(st2) => {
                            if fuel == 0 {
                                SpecExec::Out
                            } else {
                                exec_stmt(st2, env, s, (fuel - 1) as nat)
                            }
                        },
                        other => other,
                    }
                }
            },
            SpecEval::Fail(st1, e) => SpecExec::Fail(st1, e),
            SpecEval::Out => SpecExec::Out,
        },
        SpecStmt::Function { function } => {
            let v = SpecValue::Callable(
                SpecCallable::Function(
                    crate::value::SpecLoxFunction { declaration: function, closure: env },
                ),
            );
            if 0 <= env < st.scopes.len() {
                let sc = st.scopes[env];
                SpecExec::Done(
                    SpecState {
                        scopes: st.scopes.update(
                            env,
                            SpecScope {
                                bindings: sc.bindings.insert(function.name.lexeme, v),
                                enclosing: sc.enclosing,
                            },
                        ),
                        output: st.output,
                        clock: st.clock,
                    },
                )
            } else {
                SpecExec::Done(st)
            }
        },
    }
}

/// Execute a list of statements in order, stopping at the first `return`,
/// error, or exhaustion.
pub open spec fn exec_stmts(st: SpecState, env: int, ss: Seq<SpecStmt>, fuel: nat) -> SpecExec
    decreases fuel, stmts_size(ss), 1nat,
{
    if ss.len() == 0 {
        SpecExec::Done(st)
    } else {
        match exec_stmt(st, env, ss[0], fuel) {
            SpecExec::Done(st1) => exec_stmts(st1, env, ss.drop_first(), fuel),
            other => other,
        }
    }
}

/// Run a whole program: its top-level statements in the global scope. A
/// `return` that reaches top level has no call frame to return to and is a
/// fatal runtime error at its keyword token.
pub open spec fn spec_interpret(st: SpecState, ss: Seq<SpecStmt>, fuel: nat) -> SpecExec {
    match exec_stmts(st, 0, ss, fuel) {
        SpecExec::Ret(st1, keyword, _) => SpecExec::Fail(
            st1,
            SpecRuntimeError { token: keyword, message: msg_top_level_return() },
        ),
        other => other,
    }
}

/// Each element of a list weighs strictly less than the list.
pub proof fn lemma_exprs_size_elem(s: Seq<SpecExpr>, i: int)
    requires
        0 <= i < s.len(),
    ensures
        expr_size(s[i]) < exprs_size(s),
    decreases s.len(),
{
    if i == 0 {
    } else {
        lemma_exprs_size_elem(s.drop_first(), i - 1);
        assert(s.drop_first()[i - 1] == s[i]);
    }
}

/// Each element of a list weighs strictly less than the list.
pub proof fn lemma_stmts_size_elem(s: Seq<SpecStmt>, i: int)
    requires
        0 <= i < s.len(),
    ensures
        stmt_size(s[i]) < stmts_size(s),
    decreases s.len(),
{
    if i == 0 {
    } else {
        lemma_stmts_size_elem(s.drop_first(), i - 1);
        assert(s.drop_first()[i - 1] == s[i]);
    }
}

} // verus!
