//! The scope chain: an arena of scope records, each mapping names to values
//! and holding the index of its enclosing scope.
//!
//! Scopes are arena-allocated so that several closures can keep the same
//! enclosing scope alive and observe each other's assignments to it. A scope
//! is never removed; its index is stable for the life of the interpreter.
use vstd::prelude::*;
use crate::runtime_error::msg_undefined_variable;
use crate::runtime_error::undefined_variable_message;
use crate::runtime_error::RuntimeError;
use crate::runtime_error::SpecRuntimeError;
use crate::token::Token;
use crate::value::SpecValue;
use crate::value::Value;

verus! {

/// One scope record: its own bindings and the index of the enclosing scope
/// in the arena (`None` only for the global scope).
pub struct Environment {
    pub values: Vec<(String, Value)>,
    pub enclosing: Option<usize>,
}

/// Mathematical view of one scope.
pub struct SpecScope {
    pub bindings: Map<Seq<char>, SpecValue>,
    pub enclosing: Option<int>,
}

/// The bindings of an association list, later entries shadowing earlier ones.
pub open spec fn spec_bindings(s: Seq<(String, Value)>) -> Map<Seq<char>, SpecValue>
    decreases s,
{
    if s.len() == 0 {
        Map::empty()
    } else {
        spec_bindings(s.drop_last()).insert(s.last().0@, s.last().1@)
    }
}

/// Each name occurs at most once in a scope's association list.
pub open spec fn scope_keys_unique(s: Seq<(String, Value)>) -> bool {
    forall|i: int, j: int| 0 <= i < j < s.len() ==> (#[trigger] s[i]).0@ != (#[trigger] s[j]).0@
}

impl View for Environment {
    type V = SpecScope;

    open spec fn view(&self) -> SpecScope {
        SpecScope {
            bindings: spec_bindings(self.values@),
            enclosing: match self.enclosing {
                Option::Some(p) => Option::Some(p as int),
                Option::None => Option::None,
            },
        }
    }
}

impl Environment {
    /// The representation keeps each name at most once.
    pub open spec fn wf(&self) -> bool {
        scope_keys_unique(self.values@)
    }

    /// A fresh scope with no bindings and no enclosing scope: the shape of
    /// the global scope.
    pub fn new() -> (r: Environment)
        ensures
            r@ == (SpecScope { bindings: Map::<Seq<char>, SpecValue>::empty(), enclosing: Option::None }),
            r.wf(),
    {
        Environment { values: Vec::new(), enclosing: Option::None }
    }

    /// A fresh scope with no bindings, enclosed by the scope at `parent`.
    pub fn new_enclosing(parent: usize) -> (r: Environment)
        ensures
            r@ == (SpecScope {
                bindings: Map::<Seq<char>, SpecValue>::empty(),
                enclosing: Option::Some(parent as int),
            }),
            r.wf(),
    {
        Environment { values: Vec::new(), enclosing: Option::Some(parent) }
    }
}

/// Views of every scope in the arena.
pub open spec fn spec_scopes(v: Seq<Environment>) -> Seq<SpecScope> {
    Seq::new(v.len(), |i: int| v[i]@)
}

/// Every scope's enclosing index points strictly earlier in the arena (so
/// chains always lead to the global scope), and every scope's representation
/// is well formed.
pub open spec fn arena_wf(v: Seq<Environment>) -> bool {
    forall|i: int|
        0 <= i < v.len() ==> (#[trigger] v[i]).wf() && match v[i]@.enclosing {
            Option::Some(p) => 0 <= p < i,
            Option::None => true,
        }
}

/// Chained lookup: the value of `name` in the scope at `env`, or in the
/// nearest enclosing scope that binds it.
pub open spec fn spec_lookup(scopes: Seq<SpecScope>, env: int, name: Seq<char>) -> Option<
    SpecValue,
>
    decreases env,
{
    if 0 <= env < scopes.len() {
        let sc = scopes[env];
        if sc.bindings.dom().contains(name) {
            Option::Some(sc.bindings[name])
        } else {
            match sc.enclosing {
                Option::Some(p) => if 0 <= p < env {
                    spec_lookup(scopes, p, name)
                } else {
                    Option::None
                },
                Option::None => Option::None,
            }
        }
    } else {
        Option::None
    }
}

/// Chained assignment: the arena after mutating the binding for `name` in
/// the nearest scope (starting at `env`) that already has one, or `None`
/// when no scope in the chain binds `name`.
pub open spec fn spec_assign(
    scopes: Seq<SpecScope>,
    env: int,
    name: Seq<char>,
    value: SpecValue,
) -> Option<Seq<SpecScope>>
    decreases env,
{
    if 0 <= env < scopes.len() {
        let sc = scopes[env];
        if sc.bindings.dom().contains(name) {
            Option::Some(
                scopes.update(
                    env,
                    SpecScope { bindings: sc.bindings.insert(name, value), enclosing: sc.enclosing },
                ),
            )
        } else {
            match sc.enclosing {
                Option::Some(p) => if 0 <= p < env {
                    spec_assign(scopes, p, name, value)
                } else {
                    Option::None
                },
                Option::None => Option::None,
            }
        }
    } else {
        Option::None
    }
}

/// An entry present in a duplicate-free association list is what the
/// bindings map holds for its name.
proof fn lemma_assoc_found(s: Seq<(String, Value)>, i: int)
    requires
        scope_keys_unique(s),
        0 <= i < s.len(),
    ensures
        spec_bindings(s).dom().contains(s[i].0@),
        spec_bindings(s)[s[i].0@] == s[i].1@,
    decreases s.len(),
{
    if i == s.len() - 1 {
    } else {
        assert(s.drop_last()[i] == s[i]);
        assert(scope_keys_unique(s.drop_last())) by {
            assert(forall|a: int, b: int|
                0 <= a < b < s.drop_last().len() ==> s.drop_last()[a] == s[a]
                    && s.drop_last()[b] == s[b]);
        }
        lemma_assoc_found(s.drop_last(), i);
        assert(s[i].0@ != s.last().0@);
    }
}

/// A name on which every entry of an association list disagrees is not in
/// the bindings map.
proof fn lemma_assoc_absent(s: Seq<(String, Value)>, name: Seq<char>)
    requires
        forall|i: int| 0 <= i < s.len() ==> (#[trigger] s[i]).0@ != name,
    ensures
        !spec_bindings(s).dom().contains(name),
    decreases s.len(),
{
    if s.len() > 0 {
        assert(forall|i: int|
            0 <= i < s.drop_last().len() ==> (#[trigger] s.drop_last()[i]) == s[i]);
        lemma_assoc_absent(s.drop_last(), name);
        assert(s.last() == s[s.len() - 1]);
    }
}

/// Replacing the entry that holds a name rewrites exactly that name's value
/// in the bindings map.
proof fn lemma_assoc_update(s: Seq<(String, Value)>, i: int, p: (String, Value))
    requires
        scope_keys_unique(s),
        0 <= i < s.len(),
        s[i].0@ == p.0@,
    ensures
        spec_bindings(s.update(i, p)) == spec_bindings(s).insert(p.0@, p.1@),
    decreases s.len(),
{
    let s2 = s.update(i, p);
    if i == s.len() - 1 {
        assert(s2.drop_last() =~= s.drop_last());
        assert(s2.last() == p);
        assert(spec_bindings(s2) =~= spec_bindings(s).insert(p.0@, p.1@));
    } else {
        assert(scope_keys_unique(s.drop_last())) by {
            assert(forall|a: int, b: int|
                0 <= a < b < s.drop_last().len() ==> s.drop_last()[a] == s[a]
                    && s.drop_last()[b] == s[b]);
        }
        assert(s.drop_last()[i] == s[i]);
        lemma_assoc_update(s.drop_last(), i, p);
        assert(s2.drop_last() =~= s.drop_last().update(i, p));
        assert(s2.last() == s.last());
        // the two inserts touch different keys, so they commute
        assert(s[i].0@ != s.last().0@);
        assert(spec_bindings(s2) =~= spec_bindings(s).insert(p.0@, p.1@));
    }
}

/// Appending a fresh name extends the bindings map at exactly that name.
proof fn lemma_assoc_push(s: Seq<(String, Value)>, p: (String, Value))
    ensures
        spec_bindings(s.push(p)) == spec_bindings(s).insert(p.0@, p.1@),
{
    assert(s.push(p).drop_last() =~= s);
    assert(s.push(p).last() == p);
}

/// Insert or overwrite `name` in the scope at `env` itself. Shadowing an
/// enclosing scope's binding, or re-declaring a name already bound in this
/// very scope, is permitted and never an error.
#[verifier::loop_isolation(false)]
pub fn env_define(scopes: &mut Vec<Environment>, env: usize, name: String, value: Value)
    requires
        arena_wf(old(scopes)@),
        env < old(scopes)@.len(),
    ensures
        arena_wf(final(scopes)@),
        final(scopes)@.len() == old(scopes)@.len(),
        spec_scopes(final(scopes)@) == spec_scopes(old(scopes)@).update(
            env as int,
            SpecScope {
                bindings: spec_scopes(old(scopes)@)[env as int].bindings.insert(name@, value@),
                enclosing: spec_scopes(old(scopes)@)[env as int].enclosing,
            },
        ),
{
    let ghost old_scopes = scopes@;
    let sc = &mut scopes[env];
    let ghost old_values = sc.values@;
    let n = sc.values.len();
    let mut j: usize = 0;
    let mut found: bool = false;
    while j < n && !found
        invariant
            n == sc.values@.len(),
            j <= n,
            sc.values@ == old_values,
            !found ==> forall|k: int| 0 <= k < j as int ==> (#[trigger] old_values[k]).0@ != name@,
            found ==> j < n && old_values[j as int].0@ == name@,
        decreases n - j + (if found { 0int } else { 1int }),
    {
        if sc.values[j].0 == name {
            found = true;
        } else {
            j = j + 1;
        }
    }
    if found {
        proof {
            assert(scope_keys_unique(old_values));
            lemma_assoc_update(old_values, j as int, (name, value));
        }
        let slot = &mut sc.values[j];
        *slot = (name, value);
        proof {
            assert(scope_keys_unique(sc.values@)) by {
                assert(forall|a: int|
                    0 <= a < sc.values@.len() && a != j as int ==> sc.values@[a] == old_values[a]);
            }
        }
    } else {
        proof {
            lemma_assoc_push(old_values, (name, value));
            lemma_assoc_absent(old_values, name@);
        }
        sc.values.push((name, value));
        proof {
            assert(scope_keys_unique(sc.values@)) by {
                assert(forall|a: int|
                    0 <= a < old_values.len() ==> sc.values@[a] == old_values[a]);
            }
        }
    }
    proof {
        assert(spec_scopes(scopes@) =~= spec_scopes(old_scopes).update(
            env as int,
            SpecScope {
                bindings: spec_bindings(old_values).insert(name@, value@),
                enclosing: scopes@[env as int]@.enclosing,
            },
        ));
        assert(forall|i: int|
            0 <= i < scopes@.len() && i != env as int ==> scopes@[i] == old_scopes[i]);
    }
}

/// Look `name` up along the scope chain, innermost first. Fails with an
/// undefined-variable error carrying the name's token when no scope in the
/// chain binds it.
#[verifier::loop_isolation(false)]
pub fn env_get(scopes: &Vec<Environment>, env: usize, name: &Token) -> (r: Result<
    Value,
    RuntimeError,
>)
    requires
        arena_wf(scopes@),
        env < scopes@.len(),
    ensures
        match r {
            Result::Ok(v) => spec_lookup(spec_scopes(scopes@), env as int, name@.lexeme)
                == Option::Some(v@),
            Result::Err(e) => spec_lookup(spec_scopes(scopes@), env as int, name@.lexeme)
                == Option::<SpecValue>::None && e@ == (SpecRuntimeError {
                token: name@,
                message: msg_undefined_variable(name@.lexeme),
            }),
        },
{
    let mut cur: usize = env;
    loop
        invariant
            arena_wf(scopes@),
            cur < scopes@.len(),
            spec_lookup(spec_scopes(scopes@), cur as int, name@.lexeme) == spec_lookup(
                spec_scopes(scopes@),
                env as int,
                name@.lexeme,
            ),
        decreases cur,
    {
        let sc = &scopes[cur];
        let n = sc.values.len();
        let mut j: usize = 0;
        while j < n
            invariant
                n == sc.values@.len(),
                j <= n,
                forall|k: int| 0 <= k < j as int ==> (#[trigger] sc.values@[k]).0@ != name@.lexeme,
            decreases n - j,
        {
            if sc.values[j].0 == name.lexeme {
                proof {
                    assert(sc.wf());
                    lemma_assoc_found(sc.values@, j as int);
                    assert(spec_scopes(scopes@)[cur as int] == sc@);
                }
                return Result::Ok(sc.values[j].1.clone());
            }
            j = j + 1;
        }
        proof {
            lemma_assoc_absent(sc.values@, name@.lexeme);
            assert(spec_scopes(scopes@)[cur as int] == sc@);
        }
        match sc.enclosing {
            Option::Some(p) => {
                cur = p;
            },
            Option::None => {
                return Result::Err(
                    RuntimeError::new(name.clone(), undefined_variable_message(&name.lexeme)),
                );
            },
        }
    }
}

/// Mutate the binding for `name` in the nearest scope of the chain that
/// already has one. Never creates a binding: assigning to a name no scope
/// binds is an undefined-variable error, and the arena is left unchanged.
#[verifier::loop_isolation(false)]
pub fn env_assign(scopes: &mut Vec<Environment>, env: usize, name: &Token, value: Value) -> (r:
    Result<(), RuntimeError>)
    requires
        arena_wf(old(scopes)@),
        env < old(scopes)@.len(),
    ensures
        arena_wf(final(scopes)@),
        final(scopes)@.len() == old(scopes)@.len(),
        match r {
            Result::Ok(()) => spec_assign(
                spec_scopes(old(scopes)@),
                env as int,
                name@.lexeme,
                value@,
            ) == Option::Some(spec_scopes(final(scopes)@)),
            Result::Err(e) => {
                &&& spec_assign(spec_scopes(old(scopes)@), env as int, name@.lexeme, value@)
                    == Option::<Seq<SpecScope>>::None
                &&& final(scopes)@ == old(scopes)@
                &&& e@ == (SpecRuntimeError {
                    token: name@,
                    message: msg_undefined_variable(name@.lexeme),
                })
            },
        },
{
    let ghost old_scopes = scopes@;
    let mut cur: usize = env;
    loop
        invariant
            scopes@ == old_scopes,
            arena_wf(scopes@),
            cur < scopes@.len(),
            spec_assign(spec_scopes(scopes@), cur as int, name@.lexeme, value@) == spec_assign(
                spec_scopes(scopes@),
                env as int,
                name@.lexeme,
                value@,
            ),
        decreases cur,
    {
        let sc = &scopes[cur];
        let n = sc.values.len();
        let mut j: usize = 0;
        let mut found: bool = false;
        while j < n && !found
            invariant
                n == sc.values@.len(),
                j <= n,
                !found ==> forall|k: int|
                    0 <= k < j as int ==> (#[trigger] sc.values@[k]).0@ != name@.lexeme,
                found ==> j < n && sc.values@[j as int].0@ == name@.lexeme,
            decreases n - j + (if found { 0int } else { 1int }),
        {
            if sc.values[j].0 == name.lexeme {
                found = true;
            } else {
                j = j + 1;
            }
        }
        if found {
            proof {
                assert(spec_scopes(scopes@)[cur as int] == scopes@[cur as int]@);
                assert(scopes@[cur as int].wf());
                lemma_assoc_found(scopes@[cur as int].values@, j as int);
            }
            let ghost old_values = scopes@[cur as int].values@;
            let sc_mut = &mut scopes[cur];
            let slot = &mut sc_mut.values[j];
            let ghost stored_name = slot.0@;
            *slot = (slot.0.clone(), value);
            proof {
                assert(sc_mut.values@ =~= old_values.update(
                    j as int,
                    (sc_mut.values@[j as int].0, value),
                ));
                assert(sc_mut.values@[j as int].0@ == stored_name);
                assert(stored_name == name@.lexeme);
                lemma_assoc_update(
                    old_values,
                    j as int,
                    sc_mut.values@[j as int],
                );
                assert(scope_keys_unique(sc_mut.values@)) by {
                    assert(forall|a: int|
                        0 <= a < sc_mut.values@.len() && a != j as int ==> sc_mut.values@[a]
                            == old_values[a]);
                }
                assert(spec_scopes(scopes@) =~= spec_scopes(old_scopes).update(
                    cur as int,
                    SpecScope {
                        bindings: spec_bindings(old_values).insert(name@.lexeme, value@),
                        enclosing: spec_scopes(old_scopes)[cur as int].enclosing,
                    },
                ));
                assert(forall|i: int|
                    0 <= i < scopes@.len() && i != cur as int ==> scopes@[i] == old_scopes[i]);
            }
            return Result::Ok(());
        }
        proof {
            lemma_assoc_absent(sc.values@, name@.lexeme);
            assert(spec_scopes(scopes@)[cur as int] == sc@);
        }
        match sc.enclosing {
            Option::Some(p) => {
                cur = p;
            },
            Option::None => {
                return Result::Err(
                    RuntimeError::new(name.clone(), undefined_variable_message(&name.lexeme)),
                );
            },
        }
    }
}

/// Append a fresh scope enclosing `parent` to the arena; its index is
/// returned.
#[verifier::loop_isolation(false)]
pub fn push_scope(scopes: &mut Vec<Environment>, parent: usize) -> (r: usize)
    requires
        arena_wf(old(scopes)@),
        parent < old(scopes)@.len(),
    ensures
        arena_wf(final(scopes)@),
        r == old(scopes)@.len(),
        final(scopes)@.len() == old(scopes)@.len() + 1,
        spec_scopes(final(scopes)@) == spec_scopes(old(scopes)@).push(
            SpecScope {
                bindings: Map::<Seq<char>, SpecValue>::empty(),
                enclosing: Option::Some(parent as int),
            },
        ),
{
    let r = scopes.len();
    scopes.push(Environment::new_enclosing(parent));
    proof {
        assert(spec_scopes(scopes@) =~= spec_scopes(old(scopes)@).push(
            SpecScope {
                bindings: Map::<Seq<char>, SpecValue>::empty(),
                enclosing: Option::Some(parent as int),
            },
        ));
        assert(forall|i: int|
            0 <= i < old(scopes)@.len() ==> scopes@[i] == old(scopes)@[i]);
    }
    r
}

} // verus!
