//! General laws of the language, stated once over the semantics and proved.
use vstd::prelude::*;
use crate::environment::spec_assign;
use crate::environment::spec_lookup;
use crate::environment::SpecScope;
use crate::numbers::num_add;
use crate::runtime_error::msg_arity;
use crate::runtime_error::SpecRuntimeError;
use crate::semantics::spec_apply_binary;
use crate::semantics::spec_arity;
use crate::semantics::spec_invoke;
use crate::semantics::SpecEval;
use crate::semantics::SpecState;
use crate::token::SpecToken;
use crate::token::TokenType;
use crate::value::spec_truthy;
use crate::value::SpecCallable;
use crate::value::SpecValue;

verus! {

/// Truthiness: `nil` and `false` are the only falsy values; the number zero
/// and the empty string are truthy, like every other value.
pub proof fn lemma_truthiness(bits: u64, text: Seq<char>, c: SpecCallable)
    ensures
        !spec_truthy(SpecValue::Nil),
        !spec_truthy(SpecValue::Bool(false)),
        spec_truthy(SpecValue::Bool(true)),
        spec_truthy(SpecValue::Num(bits)),
        spec_truthy(SpecValue::Str(text)),
        spec_truthy(SpecValue::Callable(c)),
{
}

/// Assignment to a name that no scope in the chain binds fails, and it
/// never creates a binding: a successful assignment leaves the arena the
/// same length, with the same names bound in every scope.
pub proof fn lemma_undeclared_assignment_fails(
    scopes: Seq<SpecScope>,
    env: int,
    name: Seq<char>,
    value: SpecValue,
)
    ensures
        spec_lookup(scopes, env, name) is None ==> spec_assign(scopes, env, name, value) is None,
        match spec_assign(scopes, env, name, value) {
            Option::Some(ss2) => {
                &&& ss2.len() == scopes.len()
                &&& forall|i: int, n2: Seq<char>|
                    0 <= i < scopes.len() ==> ((#[trigger] ss2[i].bindings.dom().contains(n2))
                        <==> scopes[i].bindings.dom().contains(n2))
            },
            Option::None => true,
        },
    decreases env,
{
    if 0 <= env < scopes.len() {
        let sc = scopes[env];
        if sc.bindings.dom().contains(name) {
            let ss2 = scopes.update(
                env,
                SpecScope { bindings: sc.bindings.insert(name, value), enclosing: sc.enclosing },
            );
            assert forall|i: int, n2: Seq<char>|
                0 <= i < scopes.len() implies ((#[trigger] ss2[i].bindings.dom().contains(n2))
                <==> scopes[i].bindings.dom().contains(n2)) by {
                if i != env {
                    assert(ss2[i] == scopes[i]);
                }
            }
        } else {
            match sc.enclosing {
                Option::Some(p) => {
                    if 0 <= p < env {
                        lemma_undeclared_assignment_fails(scopes, p, name, value);
                    }
                },
                Option::None => {},
            }
        }
    }
}

/// Calling with the wrong number of arguments is a runtime error whose
/// message names both the expected and the actual counts, charged to the
/// call's closing parenthesis.
pub proof fn lemma_arity_mismatch(
    st: SpecState,
    c: SpecCallable,
    args: Seq<SpecValue>,
    paren: SpecToken,
    fuel: nat,
)
    requires
        args.len() != spec_arity(c),
    ensures
        spec_invoke(st, c, args, paren, fuel) == SpecEval::Fail(
            st,
            SpecRuntimeError { token: paren, message: msg_arity(spec_arity(c), args.len()) },
        ),
{
}

/// `+` adds two numbers, concatenates two strings, and is a type error on
/// every other combination of operands.
pub proof fn lemma_plus(op: SpecToken, l: SpecValue, r: SpecValue)
    requires
        op.token_type == TokenType::Plus,
    ensures
        forall|a: u64, b: u64|
            spec_apply_binary(op, SpecValue::Num(a), SpecValue::Num(b)) == Result::<
                SpecValue,
                SpecRuntimeError,
            >::Ok(SpecValue::Num(#[trigger] num_add(a, b))),
        forall|a: Seq<char>, b: Seq<char>|
            spec_apply_binary(op, SpecValue::Str(a), SpecValue::Str(b)) == Result::<
                SpecValue,
                SpecRuntimeError,
            >::Ok(SpecValue::Str(#[trigger] (a + b))),
        !(l is Num && r is Num) && !(l is Str && r is Str) ==> spec_apply_binary(op, l, r)
            == Result::<SpecValue, SpecRuntimeError>::Err(
            SpecRuntimeError {
                token: op,
                message: crate::runtime_error::msg_operands_numbers_or_strings(),
            },
        ),
{
}

/// Shadowing: declaring a name in a fresh inner scope hides the outer
/// binding for lookups that start inside, while lookups that start at the
/// outer scope still see the outer binding.
pub proof fn lemma_shadowing(
    scopes: Seq<SpecScope>,
    env: int,
    name: Seq<char>,
    inner: SpecValue,
)
    requires
        0 <= env < scopes.len(),
        forall|i: int|
            0 <= i < scopes.len() ==> match (#[trigger] scopes[i]).enclosing {
                Option::Some(p) => 0 <= p < i,
                Option::None => true,
            },
    ensures
        ({
            let child = scopes.len() as int;
            let grown = scopes.push(
                SpecScope {
                    bindings: Map::<Seq<char>, SpecValue>::empty().insert(name, inner),
                    enclosing: Option::Some(env),
                },
            );
            &&& spec_lookup(grown, child, name) == Option::Some(inner)
            &&& spec_lookup(grown, env, name) == spec_lookup(scopes, env, name)
        }),
{
    let child = scopes.len() as int;
    let grown = scopes.push(
        SpecScope {
            bindings: Map::<Seq<char>, SpecValue>::empty().insert(name, inner),
            enclosing: Option::Some(env),
        },
    );
    lemma_lookup_frame(scopes, grown, env, name);
}

/// Lookups that start at a scope consult only that scope and its ancestors,
/// all at smaller indices; growing or changing the arena above them changes
/// nothing.
proof fn lemma_lookup_frame(scopes: Seq<SpecScope>, grown: Seq<SpecScope>, env: int, name: Seq<char>)
    requires
        0 <= env < scopes.len(),
        scopes.len() <= grown.len(),
        forall|i: int| 0 <= i <= env ==> (#[trigger] grown[i]) == scopes[i],
        forall|i: int|
            0 <= i < scopes.len() ==> match (#[trigger] scopes[i]).enclosing {
                Option::Some(p) => 0 <= p < i,
                Option::None => true,
            },
    ensures
        spec_lookup(grown, env, name) == spec_lookup(scopes, env, name),
    decreases env,
{
    let sc = scopes[env];
    if !sc.bindings.dom().contains(name) {
        match sc.enclosing {
            Option::Some(p) => {
                if 0 <= p < env {
                    lemma_lookup_frame(scopes, grown, p, name);
                }
            },
            Option::None => {},
        }
    }
}

} // verus!
