//! The host-provided functions installed into the global scope, and the one
//! outside reading they need: the wall clock.
use vstd::prelude::*;
use vstd::string::StringExecFns;
use crate::environment::spec_bindings;
use crate::environment::Environment;
use crate::environment::SpecScope;
use crate::value::LoxCallable;
use crate::value::LoxNativeFunction;
use crate::value::NativeKind;
use crate::value::SpecCallable;
use crate::value::SpecNativeFunction;
use crate::value::SpecValue;
use crate::value::Value;

verus! {

/// The value installed under the name `clock`: a native function of no
/// parameters.
pub open spec fn spec_clock_native() -> SpecValue {
    SpecValue::Callable(
        SpecCallable::NativeFunction(
            SpecNativeFunction { name: "clock"@, params: Seq::empty(), kind: NativeKind::Clock },
        ),
    )
}

/// Relies on `std::time::SystemTime::now` and `Duration::as_millis`:
/// milliseconds since the Unix epoch, truncated to 64 bits. The reading
/// depends on the wall clock, so nothing is promised of it.
#[verifier::external_body]
pub(crate) fn now_millis() -> u64 {
    match std::time::SystemTime::now().duration_since(std::time::UNIX_EPOCH) {
        Result::Ok(d) => d.as_millis() as u64,
        Result::Err(_) => 0,
    }
}

/// The bindings every interpreter starts with: the `clock` native function.
pub fn globals() -> (r: Vec<(String, Value)>)
    ensures
        crate::environment::scope_keys_unique(r@),
        spec_bindings(r@) == Map::<Seq<char>, SpecValue>::empty().insert(
            "clock"@,
            spec_clock_native(),
        ),
{
    let clock_function = Value::Callable(
        Box::new(
            LoxCallable::NativeFunction(
                LoxNativeFunction {
                    name: String::from_str("clock"),
                    params: Vec::new(),
                    kind: NativeKind::Clock,
                },
            ),
        ),
    );
    let mut r: Vec<(String, Value)> = Vec::new();
    r.push((String::from_str("clock"), clock_function));
    proof {
        assert(r@.drop_last() =~= Seq::<(String, Value)>::empty());
        assert(crate::ast::spec_tokens_view(Seq::<crate::token::Token>::empty()) =~= Seq::<
            crate::token::SpecToken,
        >::empty());
        assert(r@.last().1@ == spec_clock_native());
        assert(spec_bindings(Seq::<(String, Value)>::empty())
            == Map::<Seq<char>, SpecValue>::empty());
        assert(spec_bindings(r@) =~=Map::<Seq<char>, SpecValue>::empty().insert(
            "clock"@,
            spec_clock_native(),
        ));
    }
    r
}

/// The global scope, with the native functions installed.
pub fn global_env() -> (r: Environment)
    ensures
        r.wf(),
        r@ == (SpecScope {
            bindings: Map::<Seq<char>, SpecValue>::empty().insert("clock"@, spec_clock_native()),
            enclosing: Option::<int>::None,
        }),
{
    Environment { values: globals(), enclosing: Option::None }
}

} // verus!
