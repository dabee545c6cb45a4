//! Runtime errors: a failing operation's source token and its message.
use vstd::prelude::*;
use vstd::string::StringExecFns;
use crate::token::SpecToken;
use crate::token::Token;

verus! {

/// Read access to a runtime error's parts.
pub trait RuntimeErrorTrait {
    fn token(&self) -> &Token;

    fn message(&self) -> &str;
}

/// A well-formed program performed an invalid operation: the token the
/// failure is charged to (for line reporting) and a message.
pub struct RuntimeError {
    pub token: Token,
    pub message: String,
}

/// Mathematical view of a `RuntimeError`.
pub struct SpecRuntimeError {
    pub token: SpecToken,
    pub message: Seq<char>,
}

impl View for RuntimeError {
    type V = SpecRuntimeError;

    open spec fn view(&self) -> SpecRuntimeError {
        SpecRuntimeError { token: self.token@, message: self.message@ }
    }
}

impl RuntimeError {
    pub fn new(token: Token, message: String) -> (r: RuntimeError)
        ensures
            r@ == (SpecRuntimeError { token: token@, message: message@ }),
    {
        RuntimeError { token, message }
    }
}

impl RuntimeErrorTrait for RuntimeError {
    fn token(&self) -> &Token {
        &self.token
    }

    fn message(&self) -> &str {
        self.message.as_str()
    }
}

impl Clone for RuntimeError {
    fn clone(&self) -> (r: RuntimeError)
        ensures
            r@ == self@,
    {
        RuntimeError { token: self.token.clone(), message: self.message.clone() }
    }
}

pub open spec fn msg_operand_number() -> Seq<char> {
    "Operand must be a number."@
}

pub open spec fn msg_operands_numbers() -> Seq<char> {
    "Operands must be numbers."@
}

pub open spec fn msg_operands_numbers_or_strings() -> Seq<char> {
    "Operands must be two numbers or two strings."@
}

pub open spec fn msg_not_callable() -> Seq<char> {
    "Can only call functions."@
}

pub open spec fn msg_top_level_return() -> Seq<char> {
    "Cannot return from top-level code."@
}

/// The decimal digit characters.
pub open spec fn spec_digit_char(d: nat) -> char {
    if d == 0 {
        '0'
    } else if d == 1 {
        '1'
    } else if d == 2 {
        '2'
    } else if d == 3 {
        '3'
    } else if d == 4 {
        '4'
    } else if d == 5 {
        '5'
    } else if d == 6 {
        '6'
    } else if d == 7 {
        '7'
    } else if d == 8 {
        '8'
    } else {
        '9'
    }
}

/// The usual decimal rendering of a natural number, most significant digit
/// first, no leading zeros (except for zero itself).
pub open spec fn spec_dec_digits(n: nat) -> Seq<char>
    decreases n,
{
    if n < 10 {
        seq![spec_digit_char(n)]
    } else {
        spec_dec_digits(n / 10).push(spec_digit_char(n % 10))
    }
}

/// The message of an arity-mismatch error names the expected and the actual
/// argument counts.
pub open spec fn msg_arity(expected: nat, got: nat) -> Seq<char> {
    "Expected "@ + spec_dec_digits(expected) + " arguments but got "@ + spec_dec_digits(got)
        + "."@
}

/// The message of an undefined-variable error names the variable.
pub open spec fn msg_undefined_variable(name: Seq<char>) -> Seq<char> {
    "Undefined variable '"@ + name + "'."@
}

fn digit_str(d: u64) -> (r: &'static str)
    requires
        d < 10,
    ensures
        r@ == seq![spec_digit_char(d as nat)],
{
    proof {
        reveal_strlit("0");
        reveal_strlit("1");
        reveal_strlit("2");
        reveal_strlit("3");
        reveal_strlit("4");
        reveal_strlit("5");
        reveal_strlit("6");
        reveal_strlit("7");
        reveal_strlit("8");
        reveal_strlit("9");
    }
    let r: &'static str = if d == 0 {
        "0"
    } else if d == 1 {
        "1"
    } else if d == 2 {
        "2"
    } else if d == 3 {
        "3"
    } else if d == 4 {
        "4"
    } else if d == 5 {
        "5"
    } else if d == 6 {
        "6"
    } else if d == 7 {
        "7"
    } else if d == 8 {
        "8"
    } else {
        "9"
    };
    proof {
        assert(r@ =~= seq![spec_digit_char(d as nat)]);
    }
    r
}

/// Render an unsigned integer in decimal.
pub fn u64_dec(n: u64) -> (s: String)
    ensures
        s@ == spec_dec_digits(n as nat),
    decreases n,
{
    if n < 10 {
        let s = String::from_str(digit_str(n));
        s
    } else {
        let mut s = u64_dec(n / 10);
        s.append(digit_str(n % 10));
        proof {
            assert(s@ =~= spec_dec_digits(n as nat));
        }
        s
    }
}

/// Build the arity-mismatch message for the given counts.
pub fn arity_message(expected: u64, got: u64) -> (s: String)
    ensures
        s@ == msg_arity(expected as nat, got as nat),
{
    let mut s = String::from_str("Expected ");
    s.append(u64_dec(expected).as_str());
    s.append(" arguments but got ");
    s.append(u64_dec(got).as_str());
    s.append(".");
    proof {
        assert(s@ =~= msg_arity(expected as nat, got as nat));
    }
    s
}

/// Build the undefined-variable message for the given name.
pub fn undefined_variable_message(name: &String) -> (s: String)
    ensures
        s@ == msg_undefined_variable(name@),
{
    let mut s = String::from_str("Undefined variable '");
    s.append(name.as_str());
    s.append("'.");
    proof {
        assert(s@ =~= msg_undefined_variable(name@));
    }
    s
}

} // verus!
