//! The runtime value domain: numbers, strings, booleans, nil and callables,
//! with the language's truthiness rule.
use vstd::prelude::*;
use crate::ast::LoxFunctionNode;
use crate::ast::SpecFun;
use crate::token::SpecToken;
use crate::token::Token;

verus! {

/// Which host-provided function a native callable stands for.
#[derive(Clone, Copy, PartialEq, Eq, Structural, Debug)]
pub enum NativeKind {
    /// Seconds since the Unix epoch, as a number.
    Clock,
}

/// A function defined by the program: its declaration and the scope that was
/// current at its definition site (an index into the interpreter's scope
/// arena), which the function body's scope will enclose.
pub struct LoxFunction {
    pub declaration: Box<LoxFunctionNode>,
    pub closure: usize,
}

/// A host-provided function: its name, parameter list, and which host
/// behaviour it invokes.
pub struct LoxNativeFunction {
    pub name: String,
    pub params: Vec<Token>,
    pub kind: NativeKind,
}

/// Anything a call expression can invoke.
pub enum LoxCallable {
    Function(LoxFunction),
    NativeFunction(LoxNativeFunction),
}

/// A runtime value. Numbers are IEEE-754 doubles carried as bit patterns.
pub enum Value {
    Num(u64),
    Str(String),
    Bool(bool),
    Nil,
    Callable(Box<LoxCallable>),
}

/// Mathematical view of a `LoxFunction`.
pub struct SpecLoxFunction {
    pub declaration: SpecFun,
    pub closure: int,
}

/// Mathematical view of a `LoxNativeFunction`.
pub struct SpecNativeFunction {
    pub name: Seq<char>,
    pub params: Seq<SpecToken>,
    pub kind: NativeKind,
}

/// Mathematical view of a `LoxCallable`.
pub enum SpecCallable {
    Function(SpecLoxFunction),
    NativeFunction(SpecNativeFunction),
}

/// Mathematical view of a `Value`.
pub enum SpecValue {
    Num(u64),
    Str(Seq<char>),
    Bool(bool),
    Nil,
    Callable(SpecCallable),
}

impl View for LoxFunction {
    type V = SpecLoxFunction;

    open spec fn view(&self) -> SpecLoxFunction {
        SpecLoxFunction { declaration: self.declaration@, closure: self.closure as int }
    }
}

impl View for LoxNativeFunction {
    type V = SpecNativeFunction;

    open spec fn view(&self) -> SpecNativeFunction {
        SpecNativeFunction {
            name: self.name@,
            params: crate::ast::spec_tokens_view(self.params@),
            kind: self.kind,
        }
    }
}

impl View for LoxCallable {
    type V = SpecCallable;

    open spec fn view(&self) -> SpecCallable {
        match self {
            LoxCallable::Function(f) => SpecCallable::Function(f@),
            LoxCallable::NativeFunction(f) => SpecCallable::NativeFunction(f@),
        }
    }
}

impl View for Value {
    type V = SpecValue;

    open spec fn view(&self) -> SpecValue {
        match self {
            Value::Num(b) => SpecValue::Num(*b),
            Value::Str(s) => SpecValue::Str(s@),
            Value::Bool(b) => SpecValue::Bool(*b),
            Value::Nil => SpecValue::Nil,
            Value::Callable(c) => SpecValue::Callable(c@),
        }
    }
}

impl LoxFunction {
    /// Pair a function declaration with the scope captured at its definition.
    pub fn new(declaration: Box<LoxFunctionNode>, closure: usize) -> (r: LoxFunction)
        ensures
            r@ == (SpecLoxFunction { declaration: declaration@, closure: closure as int }),
    {
        LoxFunction { declaration, closure }
    }
}

impl Clone for LoxFunction {
    fn clone(&self) -> (r: LoxFunction)
        ensures
            r@ == self@,
    {
        LoxFunction {
            declaration: Box::new((*self.declaration).clone()),
            closure: self.closure,
        }
    }
}

impl Clone for LoxNativeFunction {
    fn clone(&self) -> (r: LoxNativeFunction)
        ensures
            r@ == self@,
    {
        let mut cloned_params: Vec<Token> = Vec::new();
        let mut i: usize = 0;
        while i < self.params.len()
            invariant
                i <= self.params.len(),
                cloned_params@.len() == i as int,
                forall|j: int|
                    0 <= j < i as int ==> #[trigger] cloned_params@[j]@ == self.params@[j]@,
            decreases self.params.len() - i,
        {
            cloned_params.push(self.params[i].clone());
            i = i + 1;
        }
        proof {
            assert(crate::ast::spec_tokens_view(cloned_params@) =~= crate::ast::spec_tokens_view(
                self.params@,
            ));
        }
        LoxNativeFunction { name: self.name.clone(), params: cloned_params, kind: self.kind }
    }
}

impl Clone for LoxCallable {
    fn clone(&self) -> (r: LoxCallable)
        ensures
            r@ == self@,
    {
        match self {
            LoxCallable::Function(f) => LoxCallable::Function(f.clone()),
            LoxCallable::NativeFunction(f) => LoxCallable::NativeFunction(f.clone()),
        }
    }
}

impl Clone for Value {
    fn clone(&self) -> (r: Value)
        ensures
            r@ == self@,
    {
        match self {
            Value::Num(b) => Value::Num(*b),
            Value::Str(s) => Value::Str(s.clone()),
            Value::Bool(b) => Value::Bool(*b),
            Value::Nil => Value::Nil,
            Value::Callable(c) => Value::Callable(Box::new((**c).clone())),
        }
    }
}

/// The language's truthiness rule: `nil` and `false` are falsy; every other
/// value — including the number zero and the empty string — is truthy.
pub open spec fn spec_truthy(v: SpecValue) -> bool {
    match v {
        SpecValue::Nil => false,
        SpecValue::Bool(b) => b,
        _ => true,
    }
}

impl Value {
    /// Coerce a value to a boolean for conditional contexts.
    pub fn is_truthy(&self) -> (r: bool)
        ensures
            r == spec_truthy(self@),
    {
        match self {
            Value::Nil => false,
            Value::Bool(b) => *b,
            _ => true,
        }
    }
}

} // verus!
