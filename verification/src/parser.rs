//! The recursive-descent parser: from the scanner's token stream to a list
//! of statements, with precedence climbing for expressions and panic-mode
//! recovery at statement boundaries.
//!
//! The grammar is stated twice: once as specification functions
//! (`spec_primary` up to `spec_parse_program`), which say for every cursor
//! position what is parsed, where the cursor ends up, and which diagnostics
//! are recorded; and once as executable methods, each proved to return
//! exactly what its specification function says.
use vstd::prelude::*;
use vstd::string::StringExecFns;
use crate::ast::Expr;
use crate::ast::LoxFunctionNode;
use crate::ast::SpecExpr;
use crate::ast::SpecFun;
use crate::ast::SpecStmt;
use crate::ast::Stmt;
use crate::token::Literal;
use crate::token::SpecLiteral;
use crate::token::SpecToken;
use crate::token::Token;
use crate::token::TokenType;

verus! {

/// Raised inside the parser when the current statement cannot be parsed;
/// the diagnostic itself is recorded on the parser before this is thrown.
pub struct ParseError;

/// One recorded syntax diagnostic: the offending token and a message.
pub struct SyntaxError {
    pub token: Token,
    pub message: String,
}

/// Mathematical view of one diagnostic.
#[verifier::ext_equal]
pub struct SpecSyntaxError {
    pub token: SpecToken,
    pub message: Seq<char>,
}

impl View for SyntaxError {
    type V = SpecSyntaxError;

    open spec fn view(&self) -> SpecSyntaxError {
        SpecSyntaxError { token: self.token@, message: self.message@ }
    }
}

impl Clone for SyntaxError {
    fn clone(&self) -> (r: SyntaxError)
        ensures
            r@ == self@,
    {
        SyntaxError { token: self.token.clone(), message: self.message.clone() }
    }
}

/// Views of a list of diagnostics.
pub open spec fn errs_view(s: Seq<SyntaxError>) -> Seq<SpecSyntaxError> {
    Seq::new(s.len(), |i: int| s[i]@)
}

/// A single diagnostic, charged to the given token.
pub open spec fn spec_err1(t: SpecToken, message: Seq<char>) -> Seq<SpecSyntaxError> {
    seq![SpecSyntaxError { token: t, message }]
}

/// A scanner hands the parser a stream with exactly one end-of-input marker,
/// at the end.
pub open spec fn tokens_wf(ts: Seq<SpecToken>) -> bool {
    &&& ts.len() >= 1
    &&& ts.last().token_type == TokenType::Eof
    &&& forall|i: int| 0 <= i < ts.len() - 1 ==> (#[trigger] ts[i]).token_type != TokenType::Eof
}

/// The parser consumes the token stream once, left to right.
pub struct Parser {
    pub tokens: Vec<Token>,
    pub current: usize,
    pub errors: Vec<SyntaxError>,
}

/// Outcome of one specification-level parsing function: the parsed value
/// and the cursor's position after it, or the position where parsing
/// stopped; either way, the diagnostics this stretch recorded, in order.
#[verifier::ext_equal]
pub enum SpecParse<T> {
    Parsed { v: T, pos: int, errs: Seq<SpecSyntaxError> },
    Failed { pos: int, errs: Seq<SpecSyntaxError> },
}

/// Outcome of parsing one declaration with recovery: the statement if it
/// parsed, the cursor after it (past the synchronization point on an
/// error), and the diagnostics recorded.
#[verifier::ext_equal]
pub struct SpecDecl {
    pub v: Option<SpecStmt>,
    pub pos: int,
    pub errs: Seq<SpecSyntaxError>,
}

/// Outcome of parsing a whole program: the source-order statements of the
/// declarations that parsed, the final cursor, and all diagnostics.
#[verifier::ext_equal]
pub struct SpecProgram {
    pub stmts: Seq<SpecStmt>,
    pub pos: int,
    pub errs: Seq<SpecSyntaxError>,
}

/// The desugaring of a `for` loop header and body into existing constructs:
/// the increment (if any) is appended to the body in a block; the condition
/// (`true` if omitted) and that body become a `while`; an initializer (if
/// any) wraps the `while` in a block. The interpreter never sees a `for`.
pub open spec fn spec_desugar_for(
    initializer: Option<SpecStmt>,
    condition: Option<SpecExpr>,
    increment: Option<SpecExpr>,
    body: SpecStmt,
) -> SpecStmt {
    let with_increment = match increment {
        Option::Some(inc) => SpecStmt::Block {
            statements: seq![body, SpecStmt::Expression { expression: Box::new(inc) }],
        },
        Option::None => body,
    };
    let cond = match condition {
        Option::Some(c) => c,
        Option::None => SpecExpr::Literal { value: SpecLiteral::Bool(true) },
    };
    let looped = SpecStmt::While {
        condition: Box::new(cond),
        body: Box::new(with_increment),
    };
    match initializer {
        Option::Some(init) => SpecStmt::Block { statements: seq![init, looped] },
        Option::None => looped,
    }
}

/// The tokens on which panic-mode recovery stops: one that begins a new
/// statement.
pub open spec fn starts_statement(t: TokenType) -> bool {
    ||| t == TokenType::Class
    ||| t == TokenType::Fun
    ||| t == TokenType::Var
    ||| t == TokenType::For
    ||| t == TokenType::If
    ||| t == TokenType::While
    ||| t == TokenType::Print
    ||| t == TokenType::Return
}

/// Where the scan inside synchronization stops: at end of input, just past
/// a `;`, or before a token that starts a statement.
pub open spec fn spec_sync_scan(ts: Seq<SpecToken>, pos: int) -> int
    decreases ts.len() - pos,
{
    if !(0 <= pos < ts.len()) {
        pos
    } else if ts[pos].token_type == TokenType::Eof {
        pos
    } else if ts[pos - 1].token_type == TokenType::Semicolon {
        pos
    } else if starts_statement(ts[pos].token_type) {
        pos
    } else {
        spec_sync_scan(ts, pos + 1)
    }
}

/// Where synchronization leaves the cursor: one token is discarded, then
/// tokens are discarded up to the next statement boundary.
pub open spec fn spec_synchronize(ts: Seq<SpecToken>, pos: int) -> int {
    if !(0 <= pos < ts.len()) {
        pos
    } else if ts[pos].token_type == TokenType::Eof {
        spec_sync_scan(ts, pos)
    } else {
        spec_sync_scan(ts, pos + 1)
    }
}

// The specification grammar. Each function takes the token stream and a
// cursor position; positions outside the stream parse nothing (the
// executable parser's cursor always sits on a token). Recursions at
// positions returned by sub-parses are guarded by the cursor bounds the
// executable parser maintains; the guards' else-branches are unreachable
// from it.

/// Literals, variables, and parenthesized groupings.
pub open spec fn spec_primary(ts: Seq<SpecToken>, pos: int) -> SpecParse<SpecExpr>
    decreases ts.len() - pos, 3nat,
{
    if !(0 <= pos < ts.len()) {
        SpecParse::Failed { pos, errs: Seq::empty() }
    } else {
        let t = ts[pos];
        if t.token_type == TokenType::False {
            SpecParse::Parsed {
                v: SpecExpr::Literal { value: SpecLiteral::Bool(false) },
                pos: pos + 1,
                errs: Seq::empty(),
            }
        } else if t.token_type == TokenType::True {
            SpecParse::Parsed {
                v: SpecExpr::Literal { value: SpecLiteral::Bool(true) },
                pos: pos + 1,
                errs: Seq::empty(),
            }
        } else if t.token_type == TokenType::Nil {
            SpecParse::Parsed {
                v: SpecExpr::Literal { value: SpecLiteral::Nil },
                pos: pos + 1,
                errs: Seq::empty(),
            }
        } else if t.token_type == TokenType::Number || t.token_type == TokenType::StringLit {
            let lit = match t.literal {
                Option::Some(l) => l,
                Option::None => SpecLiteral::Nil,
            };
            SpecParse::Parsed {
                v: SpecExpr::Literal { value: lit },
                pos: pos + 1,
                errs: Seq::empty(),
            }
        } else if t.token_type == TokenType::Identifier {
            SpecParse::Parsed {
                v: SpecExpr::Variable { name: t },
                pos: pos + 1,
                errs: Seq::empty(),
            }
        } else if t.token_type == TokenType::LeftParen {
            match spec_expression(ts, pos + 1) {
                SpecParse::Parsed { v: e, pos: p1, errs: e1 } => {
                    if p1 < ts.len() && ts[p1].token_type == TokenType::RightParen {
                        SpecParse::Parsed {
                            v: SpecExpr::Grouping { expression: Box::new(e) },
                            pos: p1 + 1,
                            errs: e1,
                        }
                    } else {
                        SpecParse::Failed {
                            pos: p1,
                            errs: e1 + spec_err1(ts[p1], "Expect ')' after expression."@),
                        }
                    }
                },
                SpecParse::Failed { pos: p, errs: e } => SpecParse::Failed { pos: p, errs: e },
            }
        } else {
            SpecParse::Failed { pos, errs: spec_err1(t, "Expect expression."@) }
        }
    }
}

/// The arguments of a call after its first one has begun: the cap
/// diagnostic is recorded (non-fatally) from the 256th onwards, and the
/// closing `)` token is kept in the call node for runtime error positions.
pub open spec fn spec_args_tail(
    ts: Seq<SpecToken>,
    callee: SpecExpr,
    acc: Seq<SpecExpr>,
    pos: int,
    errs: Seq<SpecSyntaxError>,
) -> SpecParse<SpecExpr>
    decreases ts.len() - pos, 35nat,
{
    if !(0 <= pos < ts.len()) {
        SpecParse::Failed { pos, errs }
    } else {
        let cap = if acc.len() >= 255 {
            errs + spec_err1(ts[pos], "Cannot have more than 255 arguments."@)
        } else {
            errs
        };
        match spec_expression(ts, pos) {
            SpecParse::Parsed { v: e, pos: p1, errs: e1 } => {
                let acc2 = acc.push(e);
                if p1 < ts.len() && ts[p1].token_type == TokenType::Comma {
                    if pos < p1 {
                        spec_args_tail(ts, callee, acc2, p1 + 1, cap + e1)
                    } else {
                        SpecParse::Failed { pos: p1, errs: cap + e1 }
                    }
                } else if p1 < ts.len() && ts[p1].token_type == TokenType::RightParen {
                    SpecParse::Parsed {
                        v: SpecExpr::Call { callee: Box::new(callee), paren: ts[p1], arguments: acc2 },
                        pos: p1 + 1,
                        errs: cap + e1,
                    }
                } else {
                    SpecParse::Failed {
                        pos: p1,
                        errs: cap + e1 + spec_err1(ts[p1], "Expect ')' after arguments."@),
                    }
                }
            },
            SpecParse::Failed { pos: p, errs: e1 } => SpecParse::Failed {
                pos: p,
                errs: cap + e1,
            },
        }
    }
}

/// A call's arguments, from just after its `(`.
pub open spec fn spec_finish_call(
    ts: Seq<SpecToken>,
    callee: SpecExpr,
    pos: int,
    errs: Seq<SpecSyntaxError>,
) -> SpecParse<SpecExpr>
    decreases ts.len() - pos, 36nat,
{
    if !(0 <= pos < ts.len()) {
        SpecParse::Failed { pos, errs }
    } else if ts[pos].token_type == TokenType::RightParen {
        SpecParse::Parsed {
            v: SpecExpr::Call { callee: Box::new(callee), paren: ts[pos], arguments: Seq::empty() },
            pos: pos + 1,
            errs,
        }
    } else {
        spec_args_tail(ts, callee, Seq::empty(), pos, errs)
    }
}

/// Zero or more `(...)` call suffixes after a primary expression.
pub open spec fn spec_call_tail(
    ts: Seq<SpecToken>,
    callee: SpecExpr,
    pos: int,
    errs: Seq<SpecSyntaxError>,
) -> SpecParse<SpecExpr>
    decreases ts.len() - pos, 6nat,
{
    if !(0 <= pos < ts.len()) {
        SpecParse::Parsed { v: callee, pos, errs }
    } else if ts[pos].token_type == TokenType::LeftParen {
        match spec_finish_call(ts, callee, pos + 1, Seq::empty()) {
            SpecParse::Parsed { v: e, pos: p1, errs: e1 } => {
                if pos < p1 && p1 <= ts.len() {
                    spec_call_tail(ts, e, p1, errs + e1)
                } else {
                    SpecParse::Failed { pos: p1, errs: errs + e1 }
                }
            },
            SpecParse::Failed { pos: p, errs: e1 } => SpecParse::Failed {
                pos: p,
                errs: errs + e1,
            },
        }
    } else {
        SpecParse::Parsed { v: callee, pos, errs }
    }
}

/// A primary expression followed by any number of call suffixes.
pub open spec fn spec_call(ts: Seq<SpecToken>, pos: int) -> SpecParse<SpecExpr>
    decreases ts.len() - pos, 4nat,
{
    if !(0 <= pos < ts.len()) {
        SpecParse::Failed { pos, errs: Seq::empty() }
    } else {
        match spec_primary(ts, pos) {
            SpecParse::Parsed { v, pos: p1, errs: e1 } => {
                if pos < p1 && p1 <= ts.len() {
                    spec_call_tail(ts, v, p1, e1)
                } else {
                    SpecParse::Failed { pos: p1, errs: e1 }
                }
            },
            SpecParse::Failed { pos: p, errs: e } => SpecParse::Failed { pos: p, errs: e },
        }
    }
}

/// Prefix `!` and `-`, right-associative.
pub open spec fn spec_unary(ts: Seq<SpecToken>, pos: int) -> SpecParse<SpecExpr>
    decreases ts.len() - pos, 5nat,
{
    if !(0 <= pos < ts.len()) {
        SpecParse::Failed { pos, errs: Seq::empty() }
    } else if ts[pos].token_type == TokenType::Bang || ts[pos].token_type == TokenType::Minus {
        match spec_unary(ts, pos + 1) {
            SpecParse::Parsed { v, pos: p1, errs: e1 } => SpecParse::Parsed {
                v: SpecExpr::Unary { operator: ts[pos], right: Box::new(v) },
                pos: p1,
                errs: e1,
            },
            SpecParse::Failed { pos: p, errs: e } => SpecParse::Failed { pos: p, errs: e },
        }
    } else {
        spec_call(ts, pos)
    }
}

/// The remaining `op operand` steps of a left-associative binary level:
/// each step wraps the accumulated expression as the new left operand.
pub open spec fn spec_binary_tail(
    ts: Seq<SpecToken>,
    ops: Seq<TokenType>,
    logical: bool,
    rank: nat,
    acc: SpecExpr,
    pos: int,
    errs: Seq<SpecSyntaxError>,
) -> SpecParse<SpecExpr>
    decreases ts.len() - pos, 20nat + rank + rank,
{
    if !(0 <= pos < ts.len()) {
        SpecParse::Parsed { v: acc, pos, errs }
    } else if ops.contains(ts[pos].token_type) && ts[pos].token_type != TokenType::Eof {
        let operand = if rank == 0 {
            spec_unary(ts, pos + 1)
        } else {
            spec_binary_level(
                ts,
                below_ops((rank - 1) as nat),
                (rank - 1) as nat >= 4,
                (rank - 1) as nat,
                pos + 1,
            )
        };
        match operand {
            SpecParse::Parsed { v: right, pos: p1, errs: e1 } => {
                let joined = if logical {
                    SpecExpr::Logical {
                        left: Box::new(acc),
                        operator: ts[pos],
                        right: Box::new(right),
                    }
                } else {
                    SpecExpr::Binary {
                        left: Box::new(acc),
                        operator: ts[pos],
                        right: Box::new(right),
                    }
                };
                if pos < p1 && p1 <= ts.len() {
                    spec_binary_tail(ts, ops, logical, rank, joined, p1, errs + e1)
                } else {
                    SpecParse::Failed { pos: p1, errs: errs + e1 }
                }
            },
            SpecParse::Failed { pos: p, errs: e1 } => SpecParse::Failed {
                pos: p,
                errs: errs + e1,
            },
        }
    } else {
        SpecParse::Parsed { v: acc, pos, errs }
    }
}

/// One left-associative binary precedence level: the next-tighter level,
/// then any number of `op operand` steps with operators from `ops`. The
/// `rank` selects that next level, tightest first: 0 is `unary`, then
/// factor, term, comparison, equality, `and`, `or`.
pub open spec fn spec_binary_level(
    ts: Seq<SpecToken>,
    ops: Seq<TokenType>,
    logical: bool,
    rank: nat,
    pos: int,
) -> SpecParse<SpecExpr>
    decreases ts.len() - pos, 21nat + rank + rank,
{
    if !(0 <= pos < ts.len()) {
        SpecParse::Failed { pos, errs: Seq::empty() }
    } else {
        let operand = if rank == 0 {
            spec_unary(ts, pos)
        } else {
            spec_binary_level(
                ts,
                below_ops((rank - 1) as nat),
                (rank - 1) as nat >= 4,
                (rank - 1) as nat,
                pos,
            )
        };
        match operand {
            SpecParse::Parsed { v, pos: p1, errs: e1 } => {
                if pos < p1 && p1 <= ts.len() {
                    spec_binary_tail(ts, ops, logical, rank, v, p1, e1)
                } else {
                    SpecParse::Failed { pos: p1, errs: e1 }
                }
            },
            SpecParse::Failed { pos: p, errs: e } => SpecParse::Failed { pos: p, errs: e },
        }
    }
}

/// The operator set of each binary level, tightest first.
pub open spec fn below_ops(rank: nat) -> Seq<TokenType> {
    if rank == 0 {
        seq![TokenType::Slash, TokenType::Star]
    } else if rank == 1 {
        seq![TokenType::Minus, TokenType::Plus]
    } else if rank == 2 {
        seq![
            TokenType::Greater,
            TokenType::GreaterEqual,
            TokenType::Less,
            TokenType::LessEqual,
        ]
    } else if rank == 3 {
        seq![TokenType::BangEqual, TokenType::EqualEqual]
    } else if rank == 4 {
        seq![TokenType::And]
    } else {
        seq![TokenType::Or]
    }
}

/// `*` and `/`.
pub open spec fn spec_factor(ts: Seq<SpecToken>, pos: int) -> SpecParse<SpecExpr>
    decreases ts.len() - pos, 22nat,
{
    spec_binary_level(ts, below_ops(0), false, 0, pos)
}

/// `+` and `-`.
pub open spec fn spec_term(ts: Seq<SpecToken>, pos: int) -> SpecParse<SpecExpr>
    decreases ts.len() - pos, 24nat,
{
    spec_binary_level(ts, below_ops(1), false, 1, pos)
}

/// `>`, `>=`, `<`, `<=`.
pub open spec fn spec_comparison(ts: Seq<SpecToken>, pos: int) -> SpecParse<SpecExpr>
    decreases ts.len() - pos, 26nat,
{
    spec_binary_level(ts, below_ops(2), false, 2, pos)
}

/// `==` and `!=`.
pub open spec fn spec_equality(ts: Seq<SpecToken>, pos: int) -> SpecParse<SpecExpr>
    decreases ts.len() - pos, 28nat,
{
    spec_binary_level(ts, below_ops(3), false, 3, pos)
}

/// `and`, short-circuiting.
pub open spec fn spec_and(ts: Seq<SpecToken>, pos: int) -> SpecParse<SpecExpr>
    decreases ts.len() - pos, 30nat,
{
    spec_binary_level(ts, below_ops(4), true, 4, pos)
}

/// `or`, short-circuiting.
pub open spec fn spec_or(ts: Seq<SpecToken>, pos: int) -> SpecParse<SpecExpr>
    decreases ts.len() - pos, 32nat,
{
    spec_binary_level(ts, below_ops(5), true, 5, pos)
}

/// Assignment: right-associative, and only a bare variable reference is a
/// legal target; any other shape is "Invalid assignment target." at the
/// `=` token, reported after the right-hand side has been parsed.
pub open spec fn spec_assignment(ts: Seq<SpecToken>, pos: int) -> SpecParse<SpecExpr>
    decreases ts.len() - pos, 33nat,
{
    if !(0 <= pos < ts.len()) {
        SpecParse::Failed { pos, errs: Seq::empty() }
    } else {
        match spec_or(ts, pos) {
            SpecParse::Parsed { v: target, pos: p1, errs: e1 } => {
                if pos <= p1 && p1 < ts.len() && ts[p1].token_type == TokenType::Equal {
                    match spec_assignment(ts, p1 + 1) {
                        SpecParse::Parsed { v: value, pos: p2, errs: e2 } => match target {
                            SpecExpr::Variable { name } => SpecParse::Parsed {
                                v: SpecExpr::Assign { name, value: Box::new(value) },
                                pos: p2,
                                errs: e1 + e2,
                            },
                            _ => SpecParse::Failed {
                                pos: p2,
                                errs: e1 + e2 + spec_err1(
                                    ts[p1],
                                    "Invalid assignment target."@,
                                ),
                            },
                        },
                        SpecParse::Failed { pos: p, errs: e2 } => SpecParse::Failed {
                            pos: p,
                            errs: e1 + e2,
                        },
                    }
                } else {
                    SpecParse::Parsed { v: target, pos: p1, errs: e1 }
                }
            },
            SpecParse::Failed { pos: p, errs: e } => SpecParse::Failed { pos: p, errs: e },
        }
    }
}

/// An expression: assignment has the lowest precedence.
pub open spec fn spec_expression(ts: Seq<SpecToken>, pos: int) -> SpecParse<SpecExpr>
    decreases ts.len() - pos, 34nat,
{
    if !(0 <= pos < ts.len()) {
        SpecParse::Failed { pos, errs: Seq::empty() }
    } else {
        spec_assignment(ts, pos)
    }
}

/// An expression followed by a mandatory `;`.
pub open spec fn spec_expression_statement(ts: Seq<SpecToken>, pos: int) -> SpecParse<SpecStmt>
    decreases ts.len() - pos, 37nat,
{
    if !(0 <= pos < ts.len()) {
        SpecParse::Failed { pos, errs: Seq::empty() }
    } else {
        match spec_expression(ts, pos) {
            SpecParse::Parsed { v: e, pos: p1, errs: e1 } => {
                if p1 < ts.len() && ts[p1].token_type == TokenType::Semicolon {
                    SpecParse::Parsed {
                        v: SpecStmt::Expression { expression: Box::new(e) },
                        pos: p1 + 1,
                        errs: e1,
                    }
                } else {
                    SpecParse::Failed {
                        pos: p1,
                        errs: e1 + spec_err1(ts[p1], "Expect ';' after expression."@),
                    }
                }
            },
            SpecParse::Failed { pos: p, errs: e } => SpecParse::Failed { pos: p, errs: e },
        }
    }
}

/// `print` expression `;` (from just after the keyword).
pub open spec fn spec_print_statement(ts: Seq<SpecToken>, pos: int) -> SpecParse<SpecStmt>
    decreases ts.len() - pos, 37nat,
{
    if !(0 <= pos < ts.len()) {
        SpecParse::Failed { pos, errs: Seq::empty() }
    } else {
        match spec_expression(ts, pos) {
            SpecParse::Parsed { v: e, pos: p1, errs: e1 } => {
                if p1 < ts.len() && ts[p1].token_type == TokenType::Semicolon {
                    SpecParse::Parsed {
                        v: SpecStmt::Print { expression: Box::new(e) },
                        pos: p1 + 1,
                        errs: e1,
                    }
                } else {
                    SpecParse::Failed {
                        pos: p1,
                        errs: e1 + spec_err1(ts[p1], "Expect ';' after value."@),
                    }
                }
            },
            SpecParse::Failed { pos: p, errs: e } => SpecParse::Failed { pos: p, errs: e },
        }
    }
}

/// `return` with an optional value, defaulting to the nil literal, then
/// `;` (from just after the keyword, which the statement keeps).
pub open spec fn spec_return_statement(ts: Seq<SpecToken>, pos: int) -> SpecParse<SpecStmt>
    decreases ts.len() - pos, 37nat,
{
    if !(0 <= pos < ts.len()) {
        SpecParse::Failed { pos, errs: Seq::empty() }
    } else {
        let keyword = ts[pos - 1];
        if ts[pos].token_type == TokenType::Semicolon {
            SpecParse::Parsed {
                v: SpecStmt::Return {
                    keyword,
                    value: Box::new(SpecExpr::Literal { value: SpecLiteral::Nil }),
                },
                pos: pos + 1,
                errs: Seq::empty(),
            }
        } else {
            match spec_expression(ts, pos) {
                SpecParse::Parsed { v: e, pos: p1, errs: e1 } => {
                    if p1 < ts.len() && ts[p1].token_type == TokenType::Semicolon {
                        SpecParse::Parsed {
                            v: SpecStmt::Return { keyword, value: Box::new(e) },
                            pos: p1 + 1,
                            errs: e1,
                        }
                    } else {
                        SpecParse::Failed {
                            pos: p1,
                            errs: e1 + spec_err1(ts[p1], "Expect ';' after return value."@),
                        }
                    }
                },
                SpecParse::Failed { pos: p, errs: e } => SpecParse::Failed { pos: p, errs: e },
            }
        }
    }
}

/// `var` name, optional `=` initializer, `;` (from just after `var`).
pub open spec fn spec_var_declaration(ts: Seq<SpecToken>, pos: int) -> SpecParse<SpecStmt>
    decreases ts.len() - pos, 37nat,
{
    if !(0 <= pos < ts.len()) {
        SpecParse::Failed { pos, errs: Seq::empty() }
    } else if ts[pos].token_type != TokenType::Identifier {
        SpecParse::Failed { pos, errs: spec_err1(ts[pos], "Expect variable name."@) }
    } else {
        let name = ts[pos];
        let p1: int = pos + 1;
        if p1 < ts.len() && ts[p1].token_type == TokenType::Equal {
            match spec_expression(ts, p1 + 1) {
                SpecParse::Parsed { v: e, pos: p2, errs: e1 } => {
                    if p2 < ts.len() && ts[p2].token_type == TokenType::Semicolon {
                        SpecParse::Parsed {
                            v: SpecStmt::Var {
                                name,
                                initializer: Option::Some(Box::new(e)),
                            },
                            pos: p2 + 1,
                            errs: e1,
                        }
                    } else {
                        SpecParse::Failed {
                            pos: p2,
                            errs: e1 + spec_err1(
                                ts[p2],
                                "Expect ';' after variable declaration."@,
                            ),
                        }
                    }
                },
                SpecParse::Failed { pos: p, errs: e } => SpecParse::Failed { pos: p, errs: e },
            }
        } else if p1 < ts.len() && ts[p1].token_type == TokenType::Semicolon {
            SpecParse::Parsed {
                v: SpecStmt::Var { name, initializer: Option::None },
                pos: p1 + 1,
                errs: Seq::empty(),
            }
        } else {
            SpecParse::Failed {
                pos: p1,
                errs: spec_err1(ts[p1], "Expect ';' after variable declaration."@),
            }
        }
    }
}

/// `while` `(` condition `)` body (from just after the keyword).
pub open spec fn spec_while_statement(ts: Seq<SpecToken>, pos: int) -> SpecParse<SpecStmt>
    decreases ts.len() - pos, 37nat,
{
    if !(0 <= pos < ts.len()) {
        SpecParse::Failed { pos, errs: Seq::empty() }
    } else if ts[pos].token_type != TokenType::LeftParen {
        SpecParse::Failed { pos, errs: spec_err1(ts[pos], "Expect '(' after 'while'."@) }
    } else {
        match spec_expression(ts, pos + 1) {
            SpecParse::Parsed { v: cond, pos: p1, errs: e1 } => {
                if p1 < ts.len() && ts[p1].token_type == TokenType::RightParen {
                    if pos < p1 {
                        match spec_statement(ts, p1 + 1) {
                            SpecParse::Parsed { v: body, pos: p2, errs: e2 } => SpecParse::Parsed {
                                v: SpecStmt::While {
                                    condition: Box::new(cond),
                                    body: Box::new(body),
                                },
                                pos: p2,
                                errs: e1 + e2,
                            },
                            SpecParse::Failed { pos: p, errs: e2 } => SpecParse::Failed {
                                pos: p,
                                errs: e1 + e2,
                            },
                        }
                    } else {
                        SpecParse::Failed { pos: p1, errs: e1 }
                    }
                } else {
                    SpecParse::Failed {
                        pos: p1,
                        errs: e1 + spec_err1(ts[p1], "Expect ')' after condition."@),
                    }
                }
            },
            SpecParse::Failed { pos: p, errs: e } => SpecParse::Failed { pos: p, errs: e },
        }
    }
}

/// `if` `(` condition `)` then-branch, with an optional `else` branch that
/// binds to the nearest `if` (from just after the keyword).
pub open spec fn spec_if_statement(ts: Seq<SpecToken>, pos: int) -> SpecParse<SpecStmt>
    decreases ts.len() - pos, 37nat,
{
    if !(0 <= pos < ts.len()) {
        SpecParse::Failed { pos, errs: Seq::empty() }
    } else if ts[pos].token_type != TokenType::LeftParen {
        SpecParse::Failed { pos, errs: spec_err1(ts[pos], "Expect '(' after 'if'."@) }
    } else {
        match spec_expression(ts, pos + 1) {
            SpecParse::Parsed { v: cond, pos: p1, errs: e1 } => {
                if p1 < ts.len() && ts[p1].token_type == TokenType::RightParen {
                    if pos < p1 {
                        match spec_statement(ts, p1 + 1) {
                            SpecParse::Parsed { v: then_b, pos: p2, errs: e2 } => {
                                if p2 < ts.len() && ts[p2].token_type == TokenType::Else {
                                    if p1 < p2 {
                                        match spec_statement(ts, p2 + 1) {
                                            SpecParse::Parsed {
                                                v: else_b,
                                                pos: p3,
                                                errs: e3,
                                            } => SpecParse::Parsed {
                                                v: SpecStmt::If {
                                                    condition: Box::new(cond),
                                                    then_branch: Box::new(then_b),
                                                    else_branch: Option::Some(Box::new(else_b)),
                                                },
                                                pos: p3,
                                                errs: e1 + e2 + e3,
                                            },
                                            SpecParse::Failed { pos: p, errs: e3 } => SpecParse::Failed {
                                                pos: p,
                                                errs: e1 + e2 + e3,
                                            },
                                        }
                                    } else {
                                        SpecParse::Failed { pos: p2, errs: e1 + e2 }
                                    }
                                } else {
                                    SpecParse::Parsed {
                                        v: SpecStmt::If {
                                            condition: Box::new(cond),
                                            then_branch: Box::new(then_b),
                                            else_branch: Option::None,
                                        },
                                        pos: p2,
                                        errs: e1 + e2,
                                    }
                                }
                            },
                            SpecParse::Failed { pos: p, errs: e2 } => SpecParse::Failed {
                                pos: p,
                                errs: e1 + e2,
                            },
                        }
                    } else {
                        SpecParse::Failed { pos: p1, errs: e1 }
                    }
                } else {
                    SpecParse::Failed {
                        pos: p1,
                        errs: e1 + spec_err1(ts[p1], "Expect ')' after if condition."@),
                    }
                }
            },
            SpecParse::Failed { pos: p, errs: e } => SpecParse::Failed { pos: p, errs: e },
        }
    }
}

/// A `for` loop (from just after the keyword): header clauses, body, and
/// the parse-time desugaring into `var`/expression initializer, `while`
/// and appended increment.
pub open spec fn spec_for_statement(ts: Seq<SpecToken>, pos: int) -> SpecParse<SpecStmt>
    decreases ts.len() - pos, 37nat,
{
    if !(0 <= pos < ts.len()) {
        SpecParse::Failed { pos, errs: Seq::empty() }
    } else if ts[pos].token_type != TokenType::LeftParen {
        SpecParse::Failed { pos, errs: spec_err1(ts[pos], "Expect '(' after 'for'."@) }
    } else {
        let p1: int = pos + 1;
        let init_part: SpecParse<Option<SpecStmt>> = if p1 < ts.len() && ts[p1].token_type
            == TokenType::Semicolon {
            SpecParse::Parsed { v: Option::None, pos: p1 + 1, errs: Seq::empty() }
        } else if p1 < ts.len() && ts[p1].token_type == TokenType::Var {
            match spec_var_declaration(ts, p1 + 1) {
                SpecParse::Parsed { v: s, pos: p, errs: e } => SpecParse::Parsed {
                    v: Option::Some(s),
                    pos: p,
                    errs: e,
                },
                SpecParse::Failed { pos: p, errs: e } => SpecParse::Failed { pos: p, errs: e },
            }
        } else if p1 < ts.len() {
            match spec_expression_statement(ts, p1) {
                SpecParse::Parsed { v: s, pos: p, errs: e } => SpecParse::Parsed {
                    v: Option::Some(s),
                    pos: p,
                    errs: e,
                },
                SpecParse::Failed { pos: p, errs: e } => SpecParse::Failed { pos: p, errs: e },
            }
        } else {
            SpecParse::Failed { pos: p1, errs: Seq::empty() }
        };
        match init_part {
            SpecParse::Failed { pos: p, errs: e } => SpecParse::Failed { pos: p, errs: e },
            SpecParse::Parsed { v: initializer, pos: p2, errs: e2 } => {
                if !(pos < p2 && p2 < ts.len()) {
                    SpecParse::Failed { pos: p2, errs: e2 }
                } else {
                    let cond_part: SpecParse<Option<SpecExpr>> = if ts[p2].token_type
                        != TokenType::Semicolon {
                        match spec_expression(ts, p2) {
                            SpecParse::Parsed { v: c, pos: p, errs: e } => SpecParse::Parsed {
                                v: Option::Some(c),
                                pos: p,
                                errs: e,
                            },
                            SpecParse::Failed { pos: p, errs: e } => SpecParse::Failed {
                                pos: p,
                                errs: e,
                            },
                        }
                    } else {
                        SpecParse::Parsed { v: Option::None, pos: p2, errs: Seq::empty() }
                    };
                    match cond_part {
                        SpecParse::Failed { pos: p, errs: e } => SpecParse::Failed {
                            pos: p,
                            errs: e2 + e,
                        },
                        SpecParse::Parsed { v: condition, pos: p3, errs: e3 } => {
                            if !(pos < p3 && p3 < ts.len() && ts[p3].token_type
                                == TokenType::Semicolon) {
                                SpecParse::Failed {
                                    pos: p3,
                                    errs: e2 + e3 + spec_err1(
                                        ts[p3],
                                        "Expect ';' after loop condition."@,
                                    ),
                                }
                            } else {
                                let p4: int = p3 + 1;
                                let inc_part: SpecParse<Option<SpecExpr>> = if p4 < ts.len()
                                    && ts[p4].token_type != TokenType::RightParen {
                                    match spec_expression(ts, p4) {
                                        SpecParse::Parsed { v: c, pos: p, errs: e } => SpecParse::Parsed {
                                            v: Option::Some(c),
                                            pos: p,
                                            errs: e,
                                        },
                                        SpecParse::Failed { pos: p, errs: e } => SpecParse::Failed {
                                            pos: p,
                                            errs: e,
                                        },
                                    }
                                } else {
                                    SpecParse::Parsed {
                                        v: Option::None,
                                        pos: p4,
                                        errs: Seq::empty(),
                                    }
                                };
                                match inc_part {
                                    SpecParse::Failed { pos: p, errs: e } => SpecParse::Failed {
                                        pos: p,
                                        errs: e2 + e3 + e,
                                    },
                                    SpecParse::Parsed { v: increment, pos: p5, errs: e5 } => {
                                        if !(p5 < ts.len() && ts[p5].token_type
                                            == TokenType::RightParen) {
                                            SpecParse::Failed {
                                                pos: p5,
                                                errs: e2 + e3 + e5 + spec_err1(
                                                    ts[p5],
                                                    "Expect ')' after for clauses."@,
                                                ),
                                            }
                                        } else if !(pos < p5) {
                                            SpecParse::Failed { pos: p5, errs: e2 + e3 + e5 }
                                        } else {
                                            match spec_statement(ts, p5 + 1) {
                                                SpecParse::Parsed {
                                                    v: body,
                                                    pos: p6,
                                                    errs: e6,
                                                } => SpecParse::Parsed {
                                                    v: spec_desugar_for(
                                                        initializer,
                                                        condition,
                                                        increment,
                                                        body,
                                                    ),
                                                    pos: p6,
                                                    errs: e2 + e3 + e5 + e6,
                                                },
                                                SpecParse::Failed { pos: p, errs: e6 } => SpecParse::Failed {
                                                    pos: p,
                                                    errs: e2 + e3 + e5 + e6,
                                                },
                                            }
                                        }
                                    },
                                }
                            }
                        },
                    }
                }
            },
        }
    }
}

/// The statements of a block, up to and including the closing `}`.
pub open spec fn spec_block_tail(
    ts: Seq<SpecToken>,
    acc: Seq<SpecStmt>,
    pos: int,
    errs: Seq<SpecSyntaxError>,
) -> SpecParse<Seq<SpecStmt>>
    decreases ts.len() - pos, 40nat,
{
    if !(0 <= pos < ts.len()) {
        SpecParse::Failed { pos, errs }
    } else if ts[pos].token_type == TokenType::RightBrace {
        SpecParse::Parsed { v: acc, pos: pos + 1, errs }
    } else if ts[pos].token_type == TokenType::Eof {
        SpecParse::Failed {
            pos,
            errs: errs + spec_err1(ts[pos], "Expect '}' after block."@),
        }
    } else {
        let d = spec_declaration(ts, pos);
        if pos < d.pos && d.pos <= ts.len() {
            spec_block_tail(
                ts,
                match d.v {
                    Option::Some(s) => acc.push(s),
                    Option::None => acc,
                },
                d.pos,
                errs + d.errs,
            )
        } else {
            SpecParse::Failed { pos: d.pos, errs: errs + d.errs }
        }
    }
}

/// A block's contents (from just after its `{`).
pub open spec fn spec_block(ts: Seq<SpecToken>, pos: int) -> SpecParse<Seq<SpecStmt>>
    decreases ts.len() - pos, 41nat,
{
    spec_block_tail(ts, Seq::empty(), pos, Seq::empty())
}

/// A function declaration's parameters, one or more, comma-separated; the
/// cap diagnostic is recorded (non-fatally) from the 256th onwards.
pub open spec fn spec_params_tail(
    ts: Seq<SpecToken>,
    acc: Seq<SpecToken>,
    pos: int,
    errs: Seq<SpecSyntaxError>,
) -> SpecParse<Seq<SpecToken>>
    decreases ts.len() - pos, 7nat,
{
    if !(0 <= pos < ts.len()) {
        SpecParse::Failed { pos, errs }
    } else {
        let cap = if acc.len() >= 255 {
            errs + spec_err1(ts[pos], "Cannot have more than 255 parameters."@)
        } else {
            errs
        };
        if ts[pos].token_type == TokenType::Identifier {
            let acc2 = acc.push(ts[pos]);
            let p1: int = pos + 1;
            if p1 < ts.len() && ts[p1].token_type == TokenType::Comma {
                spec_params_tail(ts, acc2, p1 + 1, cap)
            } else {
                SpecParse::Parsed { v: acc2, pos: p1, errs: cap }
            }
        } else {
            SpecParse::Failed { pos, errs: cap + spec_err1(ts[pos], "Expect parameter name."@) }
        }
    }
}

/// A function declaration (from just after `fun`): name, parenthesized
/// parameters, and a block body.
pub open spec fn spec_function(ts: Seq<SpecToken>, pos: int) -> SpecParse<SpecStmt>
    decreases ts.len() - pos, 37nat,
{
    if !(0 <= pos < ts.len()) {
        SpecParse::Failed { pos, errs: Seq::empty() }
    } else if ts[pos].token_type != TokenType::Identifier {
        SpecParse::Failed { pos, errs: spec_err1(ts[pos], "Expect function name."@) }
    } else {
        let name = ts[pos];
        let p1: int = pos + 1;
        if !(p1 < ts.len() && ts[p1].token_type == TokenType::LeftParen) {
            SpecParse::Failed {
                pos: p1,
                errs: spec_err1(ts[p1], "Expect '(' after function name."@),
            }
        } else {
            let p2: int = p1 + 1;
            let params_part: SpecParse<Seq<SpecToken>> = if p2 < ts.len() && ts[p2].token_type
                == TokenType::RightParen {
                SpecParse::Parsed { v: Seq::empty(), pos: p2, errs: Seq::empty() }
            } else if p2 < ts.len() {
                spec_params_tail(ts, Seq::empty(), p2, Seq::empty())
            } else {
                SpecParse::Failed { pos: p2, errs: Seq::empty() }
            };
            match params_part {
                SpecParse::Failed { pos: p, errs: e } => SpecParse::Failed { pos: p, errs: e },
                SpecParse::Parsed { v: params, pos: p3, errs: e3 } => {
                    if !(p3 < ts.len() && ts[p3].token_type == TokenType::RightParen) {
                        SpecParse::Failed {
                            pos: p3,
                            errs: e3 + spec_err1(ts[p3], "Expect ')' after parameters."@),
                        }
                    } else if !(p3 + 1 < ts.len() && ts[p3 + 1].token_type
                        == TokenType::LeftBrace) {
                        SpecParse::Failed {
                            pos: p3 + 1,
                            errs: e3 + spec_err1(ts[p3 + 1], "Expect '{' before function body."@),
                        }
                    } else if !(pos < p3 + 2) {
                        SpecParse::Failed { pos: p3 + 2, errs: e3 }
                    } else {
                        match spec_block(ts, p3 + 2) {
                            SpecParse::Parsed { v: body, pos: p4, errs: e4 } => SpecParse::Parsed {
                                v: SpecStmt::Function {
                                    function: SpecFun { name, params, body },
                                },
                                pos: p4,
                                errs: e3 + e4,
                            },
                            SpecParse::Failed { pos: p, errs: e4 } => SpecParse::Failed {
                                pos: p,
                                errs: e3 + e4,
                            },
                        }
                    }
                },
            }
        }
    }
}

/// Statement dispatch on the leading keyword; everything else is an
/// expression statement.
pub open spec fn spec_statement(ts: Seq<SpecToken>, pos: int) -> SpecParse<SpecStmt>
    decreases ts.len() - pos, 38nat,
{
    if !(0 <= pos < ts.len()) {
        SpecParse::Failed { pos, errs: Seq::empty() }
    } else {
        let t = ts[pos].token_type;
        if t == TokenType::If {
            spec_if_statement(ts, pos + 1)
        } else if t == TokenType::Print {
            spec_print_statement(ts, pos + 1)
        } else if t == TokenType::Return {
            spec_return_statement(ts, pos + 1)
        } else if t == TokenType::LeftBrace {
            match spec_block(ts, pos + 1) {
                SpecParse::Parsed { v: statements, pos: p, errs: e } => SpecParse::Parsed {
                    v: SpecStmt::Block { statements },
                    pos: p,
                    errs: e,
                },
                SpecParse::Failed { pos: p, errs: e } => SpecParse::Failed { pos: p, errs: e },
            }
        } else if t == TokenType::While {
            spec_while_statement(ts, pos + 1)
        } else if t == TokenType::For {
            spec_for_statement(ts, pos + 1)
        } else {
            spec_expression_statement(ts, pos)
        }
    }
}

/// One declaration with panic-mode recovery: on a syntax error the
/// diagnostics of the failed attempt are kept, the cursor synchronizes to
/// the next statement boundary, and no statement is produced.
pub open spec fn spec_declaration(ts: Seq<SpecToken>, pos: int) -> SpecDecl
    decreases ts.len() - pos, 39nat,
{
    if !(0 <= pos < ts.len()) {
        SpecDecl { v: Option::None, pos, errs: Seq::empty() }
    } else if ts[pos].token_type == TokenType::Var {
        match spec_var_declaration(ts, pos + 1) {
            SpecParse::Parsed { v, pos: p, errs: e } => SpecDecl {
                v: Option::Some(v),
                pos: p,
                errs: e,
            },
            SpecParse::Failed { pos: p, errs: e } => SpecDecl {
                v: Option::None,
                pos: spec_synchronize(ts, p),
                errs: e,
            },
        }
    } else if ts[pos].token_type == TokenType::Fun {
        match spec_function(ts, pos + 1) {
            SpecParse::Parsed { v, pos: p, errs: e } => SpecDecl {
                v: Option::Some(v),
                pos: p,
                errs: e,
            },
            SpecParse::Failed { pos: p, errs: e } => SpecDecl {
                v: Option::None,
                pos: spec_synchronize(ts, p),
                errs: e,
            },
        }
    } else {
        match spec_statement(ts, pos) {
            SpecParse::Parsed { v, pos: p, errs: e } => SpecDecl {
                v: Option::Some(v),
                pos: p,
                errs: e,
            },
            SpecParse::Failed { pos: p, errs: e } => SpecDecl {
                v: Option::None,
                pos: spec_synchronize(ts, p),
                errs: e,
            },
        }
    }
}

/// A whole program: declarations until end of input, in source order, the
/// broken ones reported and skipped.
pub open spec fn spec_parse_program(ts: Seq<SpecToken>, pos: int) -> SpecProgram
    decreases ts.len() - pos, 42nat,
{
    if !(0 <= pos < ts.len()) {
        SpecProgram { stmts: Seq::empty(), pos, errs: Seq::empty() }
    } else if ts[pos].token_type == TokenType::Eof {
        SpecProgram { stmts: Seq::empty(), pos, errs: Seq::empty() }
    } else {
        let d = spec_declaration(ts, pos);
        if pos < d.pos && d.pos <= ts.len() {
            let rest = spec_parse_program(ts, d.pos);
            SpecProgram {
                stmts: (match d.v {
                    Option::Some(s) => seq![s],
                    Option::None => Seq::empty(),
                }) + rest.stmts,
                pos: rest.pos,
                errs: d.errs + rest.errs,
            }
        } else {
            SpecProgram { stmts: Seq::empty(), pos: d.pos, errs: d.errs }
        }
    }
}

/// The diagnostics a stretch of parsing appended.
pub open spec fn appended_errs(pre: Parser, post: Parser) -> Seq<SpecSyntaxError> {
    errs_view(post.errors@).skip(pre.errors@.len() as int)
}

/// Earlier diagnostics are never dropped or rewritten.
pub open spec fn keeps_errs(pre: Parser, post: Parser) -> bool {
    errs_view(pre.errors@).is_prefix_of(errs_view(post.errors@))
}

/// The specification outcome an expression-parsing method's return stands
/// for: its node view and final cursor, with the appended diagnostics.
pub open spec fn expr_result(pre: Parser, post: Parser, r: Result<Expr, ParseError>) -> SpecParse<
    SpecExpr,
> {
    match r {
        Result::Ok(e) => SpecParse::Parsed {
            v: e@,
            pos: post.current as int,
            errs: appended_errs(pre, post),
        },
        Result::Err(_) => SpecParse::Failed {
            pos: post.current as int,
            errs: appended_errs(pre, post),
        },
    }
}

/// As `expr_result`, for statement-parsing methods.
pub open spec fn stmt_result(pre: Parser, post: Parser, r: Result<Stmt, ParseError>) -> SpecParse<
    SpecStmt,
> {
    match r {
        Result::Ok(s) => SpecParse::Parsed {
            v: s@,
            pos: post.current as int,
            errs: appended_errs(pre, post),
        },
        Result::Err(_) => SpecParse::Failed {
            pos: post.current as int,
            errs: appended_errs(pre, post),
        },
    }
}

/// As `expr_result`, for `block`.
pub open spec fn stmts_result(pre: Parser, post: Parser, r: Result<Vec<Stmt>, ParseError>) -> SpecParse<
    Seq<SpecStmt>,
> {
    match r {
        Result::Ok(v) => SpecParse::Parsed {
            v: crate::ast::spec_stmts_view(v@),
            pos: post.current as int,
            errs: appended_errs(pre, post),
        },
        Result::Err(_) => SpecParse::Failed {
            pos: post.current as int,
            errs: appended_errs(pre, post),
        },
    }
}

/// Appending diagnostics composes across two stretches of parsing.
proof fn lemma_errs_chain(a: Parser, b: Parser, c: Parser)
    requires
        keeps_errs(a, b),
        keeps_errs(b, c),
    ensures
        keeps_errs(a, c),
        appended_errs(a, c) == appended_errs(a, b) + appended_errs(b, c),
{
    assert(errs_view(a.errors@).is_prefix_of(errs_view(c.errors@))) by {
        assert(errs_view(a.errors@) =~= errs_view(c.errors@).subrange(
            0,
            a.errors@.len() as int,
        ));
    }
    assert(appended_errs(a, c) =~= appended_errs(a, b) + appended_errs(b, c));
}


/// One program step: a declaration parsed (or recovered) and the cursor
/// advanced, so the program's parse decomposes around it.
proof fn lemma_program_step(ts: Seq<SpecToken>, p: int, d: SpecDecl)
    requires
        0 <= p < ts.len(),
        ts[p].token_type != TokenType::Eof,
        d == spec_declaration(ts, p),
        p < d.pos <= ts.len(),
    ensures
        spec_parse_program(ts, p).stmts == (match d.v {
            Option::Some(st) => seq![st],
            Option::None => Seq::<SpecStmt>::empty(),
        }) + spec_parse_program(ts, d.pos).stmts,
        spec_parse_program(ts, p).pos == spec_parse_program(ts, d.pos).pos,
        spec_parse_program(ts, p).errs == d.errs + spec_parse_program(ts, d.pos).errs,
{
}

/// One argument step whose expression failed: the whole argument list
/// fails with the cap diagnostic (if any) and the expression's.
proof fn lemma_args_expr_failed(
    ts: Seq<SpecToken>,
    callee: SpecExpr,
    acc: Seq<SpecExpr>,
    pos: int,
    errs: Seq<SpecSyntaxError>,
    pf: int,
    ef: Seq<SpecSyntaxError>,
)
    requires
        0 <= pos < ts.len(),
        spec_expression(ts, pos) == (SpecParse::Failed::<SpecExpr> { pos: pf, errs: ef }),
    ensures
        spec_args_tail(ts, callee, acc, pos, errs) == (SpecParse::Failed::<SpecExpr> {
            pos: pf,
            errs: (if acc.len() >= 255 {
                errs + spec_err1(ts[pos], "Cannot have more than 255 arguments."@)
            } else {
                errs
            }) + ef,
        }),
{
}

/// One argument step followed by a comma: the argument list goes on.
proof fn lemma_args_comma(
    ts: Seq<SpecToken>,
    callee: SpecExpr,
    acc: Seq<SpecExpr>,
    pos: int,
    errs: Seq<SpecSyntaxError>,
    v: SpecExpr,
    p1: int,
    ed: Seq<SpecSyntaxError>,
)
    requires
        0 <= pos < ts.len(),
        spec_expression(ts, pos) == (SpecParse::Parsed::<SpecExpr> { v, pos: p1, errs: ed }),
        pos < p1 < ts.len(),
        ts[p1].token_type == TokenType::Comma,
    ensures
        spec_args_tail(ts, callee, acc, pos, errs) == spec_args_tail(
            ts,
            callee,
            acc.push(v),
            p1 + 1,
            (if acc.len() >= 255 {
                errs + spec_err1(ts[pos], "Cannot have more than 255 arguments."@)
            } else {
                errs
            }) + ed,
        ),
{
}

/// The last argument, followed by the closing `)`: the call node.
proof fn lemma_args_done(
    ts: Seq<SpecToken>,
    callee: SpecExpr,
    acc: Seq<SpecExpr>,
    pos: int,
    errs: Seq<SpecSyntaxError>,
    v: SpecExpr,
    p1: int,
    ed: Seq<SpecSyntaxError>,
)
    requires
        0 <= pos < ts.len(),
        spec_expression(ts, pos) == (SpecParse::Parsed::<SpecExpr> { v, pos: p1, errs: ed }),
        p1 < ts.len(),
        ts[p1].token_type != TokenType::Comma,
        ts[p1].token_type == TokenType::RightParen,
    ensures
        spec_args_tail(ts, callee, acc, pos, errs) == (SpecParse::Parsed::<SpecExpr> {
            v: SpecExpr::Call {
                callee: Box::new(callee),
                paren: ts[p1],
                arguments: acc.push(v),
            },
            pos: p1 + 1,
            errs: (if acc.len() >= 255 {
                errs + spec_err1(ts[pos], "Cannot have more than 255 arguments."@)
            } else {
                errs
            }) + ed,
        }),
{
}

/// The last argument with no closing `)`: the list fails there.
proof fn lemma_args_unclosed(
    ts: Seq<SpecToken>,
    callee: SpecExpr,
    acc: Seq<SpecExpr>,
    pos: int,
    errs: Seq<SpecSyntaxError>,
    v: SpecExpr,
    p1: int,
    ed: Seq<SpecSyntaxError>,
)
    requires
        0 <= pos < ts.len(),
        spec_expression(ts, pos) == (SpecParse::Parsed::<SpecExpr> { v, pos: p1, errs: ed }),
        !(p1 < ts.len() && ts[p1].token_type == TokenType::Comma),
        !(p1 < ts.len() && ts[p1].token_type == TokenType::RightParen),
    ensures
        spec_args_tail(ts, callee, acc, pos, errs) == (SpecParse::Failed::<SpecExpr> {
            pos: p1,
            errs: (if acc.len() >= 255 {
                errs + spec_err1(ts[pos], "Cannot have more than 255 arguments."@)
            } else {
                errs
            }) + ed + spec_err1(ts[p1], "Expect ')' after arguments."@),
        }),
{
}

/// Build the desugared form of a `for` loop from its parsed parts.
pub fn desugar_for(
    initializer: Option<Stmt>,
    condition: Option<Expr>,
    increment: Option<Expr>,
    body: Stmt,
) -> (r: Stmt)
    ensures
        r@ == spec_desugar_for(
            match initializer {
                Option::Some(s) => Option::Some(s@),
                Option::None => Option::None,
            },
            match condition {
                Option::Some(c) => Option::Some(c@),
                Option::None => Option::None,
            },
            match increment {
                Option::Some(c) => Option::Some(c@),
                Option::None => Option::None,
            },
            body@,
        ),
{
    let ghost g_init = match initializer {
        Option::Some(ref s) => Option::Some(s@),
        Option::None => Option::<SpecStmt>::None,
    };
    let ghost g_cond = match condition {
        Option::Some(ref c) => Option::Some(c@),
        Option::None => Option::<SpecExpr>::None,
    };
    let ghost g_inc = match increment {
        Option::Some(ref c) => Option::Some(c@),
        Option::None => Option::<SpecExpr>::None,
    };
    let ghost g_body = body@;
    let with_increment: Stmt = match increment {
        Option::Some(inc) => {
            let ghost g_i = inc@;
            let mut stmts: Vec<Stmt> = Vec::new();
            stmts.push(body);
            stmts.push(Stmt::Expression { expression: Box::new(inc) });
            proof {
                crate::ast::lemma_stmts_view(stmts@);
                assert(crate::ast::spec_stmts_view(stmts@) =~= seq![
                    g_body,
                    SpecStmt::Expression { expression: Box::new(g_i) },
                ]);
            }
            Stmt::Block { statements: stmts }
        },
        Option::None => body,
    };
    let ghost g_with = with_increment@;
    let cond: Expr = match condition {
        Option::Some(c) => c,
        Option::None => Expr::Literal { value: Literal::Bool(true) },
    };
    let ghost g_c = cond@;
    let looped = Stmt::While { condition: Box::new(cond), body: Box::new(with_increment) };
    let ghost g_loop = looped@;
    let r: Stmt = match initializer {
        Option::Some(init) => {
            let mut stmts: Vec<Stmt> = Vec::new();
            let ghost g_looped = looped@;
            let ghost g_in = init@;
            stmts.push(init);
            stmts.push(looped);
            proof {
                crate::ast::lemma_stmts_view(stmts@);
                assert(crate::ast::spec_stmts_view(stmts@) =~= seq![g_in, g_looped]);
            }
            Stmt::Block { statements: stmts }
        },
        Option::None => looped,
    };
    proof {
        let s_with = match g_inc {
            Option::Some(inc) => SpecStmt::Block {
                statements: seq![g_body, SpecStmt::Expression { expression: Box::new(inc) }],
            },
            Option::None => g_body,
        };
        let s_cond = match g_cond {
            Option::Some(c) => c,
            Option::None => SpecExpr::Literal { value: SpecLiteral::Bool(true) },
        };
        assert(g_with =~~= s_with);
        assert(g_c =~~= s_cond);
        assert(g_loop == (SpecStmt::While {
            condition: Box::new(g_c),
            body: Box::new(g_with),
        }));
        assert(g_loop =~~= (SpecStmt::While {
            condition: Box::new(s_cond),
            body: Box::new(s_with),
        }));
        assert(r@ =~~= spec_desugar_for(g_init, g_cond, g_inc, g_body));
    }
    r
}

impl Parser {
    /// The parser's invariant: the stream is well formed and the cursor is
    /// on a token (at worst the end-of-input marker).
    pub open spec fn ok(&self) -> bool {
        &&& tokens_wf(self.ts())
        &&& (self.current as int) < self.tokens@.len()
    }

    /// The stream's view, which the specification grammar reads.
    pub open spec fn ts(&self) -> Seq<SpecToken> {
        crate::ast::spec_tokens_view(self.tokens@)
    }

    /// The token stream is never modified.
    pub open spec fn same_tokens(&self, other: &Parser) -> bool {
        self.tokens@ == other.tokens@
    }

    /// The cursor's token has this type.
    pub open spec fn spec_peek_type(&self) -> TokenType {
        self.tokens@[self.current as int]@.token_type
    }

    /// The cursor sits on the end-of-input marker.
    pub open spec fn spec_at_end(&self) -> bool {
        self.spec_peek_type() == TokenType::Eof
    }

    pub fn new(tokens: Vec<Token>) -> (r: Parser)
        requires
            tokens_wf(crate::ast::spec_tokens_view(tokens@)),
        ensures
            r.ok(),
            r.current == 0,
            r.tokens@ == tokens@,
            r.errors@.len() == 0,
    {
        Parser { tokens, current: 0, errors: Vec::new() }
    }

    /// The token under the cursor.
    fn peek(&self) -> (r: Token)
        requires
            self.ok(),
        ensures
            r@ == self.ts()[self.current as int],
    {
        self.tokens[self.current].clone()
    }

    /// The token just consumed.
    fn previous(&self) -> (r: Token)
        requires
            self.ok(),
            self.current >= 1,
        ensures
            r@ == self.ts()[self.current as int - 1],
    {
        self.tokens[self.current - 1].clone()
    }

    /// Whether the whole stream has been consumed.
    fn is_at_end(&self) -> (r: bool)
        requires
            self.ok(),
        ensures
            r == self.spec_at_end(),
    {
        self.peek().token_type == TokenType::Eof
    }

    /// Consume and return the cursor's token; the end-of-input marker is
    /// never consumed.
    fn advance(&mut self) -> (r: Token)
        requires
            old(self).ok(),
        ensures
            final(self).ok(),
            final(self).same_tokens(old(self)),
            final(self).errors@ == old(self).errors@,
            !old(self).spec_at_end() ==> final(self).current == old(self).current + 1,
            old(self).spec_at_end() ==> final(self).current == old(self).current,
            r@ == old(self).ts()[old(self).current as int],
    {
        let ghost pre = *self;
        let n = self.tokens.len();
        let r = self.peek();
        if !self.is_at_end() {
            proof {
                assert(self.current < n);
                assert(self.ts()[self.current as int].token_type != TokenType::Eof);
                assert(self.current as int != self.tokens@.len() - 1);
            }
            self.current = self.current + 1;
        }
        r
    }

    /// Whether the cursor's token has this type; false at end of input.
    fn check(&self, token_type: TokenType) -> (r: bool)
        requires
            self.ok(),
        ensures
            r == (!self.spec_at_end() && self.spec_peek_type() == token_type),
    {
        if self.is_at_end() {
            return false;
        }
        self.peek().token_type == token_type
    }

    /// If the cursor's token has one of these types, consume it.
    #[verifier::loop_isolation(false)]
    fn match_token(&mut self, types: &[TokenType]) -> (r: bool)
        requires
            old(self).ok(),
        ensures
            final(self).ok(),
            final(self).same_tokens(old(self)),
            final(self).errors@ == old(self).errors@,
            r == (!old(self).spec_at_end() && (exists|k: int|
                0 <= k < types@.len() && old(self).spec_peek_type() == types@[k])),
            r ==> final(self).current == old(self).current + 1,
            !r ==> *final(self) == *old(self),
    {
        let ghost pre = *self;
        let n = types.len();
        let mut k: usize = 0;
        while k < n
            invariant
                self.ok(),
                k <= n,
                n == types@.len(),
                *self == pre,
                !pre.spec_at_end() ==> forall|j: int|
                    0 <= j < k as int ==> pre.spec_peek_type() != types@[j],
            decreases n - k,
        {
            if self.check(types[k]) {
                proof {
                    assert(pre.spec_peek_type() == types@[k as int]);
                }
                self.advance();
                return true;
            }
            k = k + 1;
        }
        false
    }

    /// Record a diagnostic against a token; parsing of the surrounding
    /// statement is then abandoned and resynchronized by the caller.
    fn error(&mut self, token: Token, message: &str) -> (r: ParseError)
        requires
            old(self).ok(),
        ensures
            final(self).ok(),
            final(self).same_tokens(old(self)),
            final(self).current == old(self).current,
            final(self).errors@.len() == old(self).errors@.len() + 1,
            errs_view(final(self).errors@) == errs_view(old(self).errors@).push(
                SpecSyntaxError { token: token@, message: message@ },
            ),
    {
        let mut message_string = String::new();
        message_string.append(message);
        let ghost t = token@;
        self.errors.push(SyntaxError { token, message: message_string });
        proof {
            assert(errs_view(self.errors@) =~= errs_view(old(self).errors@).push(
                SpecSyntaxError { token: t, message: message@ },
            ));
        }
        ParseError
    }

    /// Consume a token of the given type, or record the given diagnostic
    /// against the cursor's token without consuming anything.
    fn consume(&mut self, token_type: TokenType, message: &str) -> (r: Result<Token, ParseError>)
        requires
            old(self).ok(),
        ensures
            final(self).ok(),
            final(self).same_tokens(old(self)),
            old(self).current <= final(self).current,
            final(self).current <= old(self).current + 1,
            match r {
                Result::Ok(t) => {
                    &&& !old(self).spec_at_end()
                    &&& old(self).spec_peek_type() == token_type
                    &&& final(self).current == old(self).current + 1
                    &&& final(self).errors@ == old(self).errors@
                    &&& t@ == old(self).ts()[old(self).current as int]
                },
                Result::Err(_) => {
                    &&& !(!old(self).spec_at_end() && old(self).spec_peek_type() == token_type)
                    &&& final(self).current == old(self).current
                    &&& errs_view(final(self).errors@) == errs_view(old(self).errors@).push(
                        SpecSyntaxError {
                            token: old(self).ts()[old(self).current as int],
                            message: message@,
                        },
                    )
                },
            },
    {
        if self.check(token_type) {
            return Result::Ok(self.advance());
        }
        let t = self.peek();
        Result::Err(self.error(t, message))
    }

    /// After an error, discard one token, then discard up to the next
    /// statement boundary: just past a `;`, or before a keyword that starts
    /// a statement.
    #[verifier::loop_isolation(false)]
    fn synchronize(&mut self)
        requires
            old(self).ok(),
        ensures
            final(self).ok(),
            final(self).same_tokens(old(self)),
            final(self).errors@ == old(self).errors@,
            old(self).current <= final(self).current,
            !old(self).spec_at_end() ==> final(self).current > old(self).current,
            final(self).current as int == spec_synchronize(old(self).ts(), old(self).current as int),
        decreases old(self).tokens@.len(),
    {
        let ghost ts = old(self).ts();
        self.advance();
        while !self.is_at_end()
            invariant
                self.ok(),
                self.same_tokens(old(self)),
                self.errors@ == old(self).errors@,
                old(self).current <= self.current,
                !old(self).spec_at_end() ==> self.current > old(self).current,
                spec_synchronize(ts, old(self).current as int) == spec_sync_scan(
                    ts,
                    self.current as int,
                ),
            decreases self.tokens@.len() - self.current,
        {
            if self.previous().token_type == TokenType::Semicolon {
                return;
            }
            let next = self.peek().token_type;
            if next == TokenType::Class || next == TokenType::Fun || next == TokenType::Var
                || next == TokenType::For || next == TokenType::If || next == TokenType::While
                || next == TokenType::Print || next == TokenType::Return {
                return;
            }
            self.advance();
        }
    }

    /// `*` and `/`, left-associative; bind tighter than `+` and `-`.
    #[verifier::loop_isolation(false)]
    fn factor(&mut self) -> (r: Result<Expr, ParseError>)
        requires
            old(self).ok(),
        ensures
            final(self).ok(),
            final(self).same_tokens(old(self)),
            old(self).current <= final(self).current,
            old(self).errors@.len() <= final(self).errors@.len(),
            keeps_errs(*old(self), *final(self)),
            r is Ok ==> final(self).current > old(self).current,
            spec_factor(old(self).ts(), old(self).current as int) == expr_result(
                *old(self),
                *final(self),
                r,
            ),
        decreases old(self).tokens@.len() - old(self).current, 10nat,
    {
        let ghost pre = *self;
        let ghost ts = pre.ts();
        let ghost pos0 = pre.current as int;
        proof {
            assert(spec_factor(ts, pos0) == spec_binary_level(ts, below_ops(0), false, 0, pos0));
        }
        let sub = self.unary();
        let ghost c1 = *self;
        let mut expr = match sub {
            Result::Ok(e) => e,
            Result::Err(e) => {
                proof {
                    
                }
                return Result::Err(e);
            },
        };
        proof {
            
        }
        let operator_types: &[TokenType] = &[TokenType::Slash, TokenType::Star];
        proof {
            assert(operator_types@ =~= below_ops(0));
        }
        loop
            invariant
                self.ok(),
                self.same_tokens(&pre),
                pre.current < self.current,
                pre.errors@.len() <= self.errors@.len(),
                keeps_errs(pre, *self),
                spec_factor(ts, pos0) == spec_binary_tail(
                    ts,
                    below_ops(0),
                    false,
                    0,
                    expr@,
                    self.current as int,
                    appended_errs(pre, *self),
                ),
            decreases self.tokens@.len() - self.current,
        {
            let ghost c0 = *self;
            if !self.match_token(operator_types) {
                proof {
                    if !c0.spec_at_end() {
                        assert(forall|k: int|
                            0 <= k < operator_types@.len() ==> c0.spec_peek_type()
                                != operator_types@[k]);
                        assert(!below_ops(0).contains(ts[c0.current as int].token_type));
                    }
                }
                break;
            }
            let operator = self.previous();
            let ghost cm = *self;
            let sub2 = self.unary();
            let ghost c2 = *self;
            proof {
                assert(below_ops(0).contains(ts[c0.current as int].token_type));
                lemma_errs_chain(pre, c0, c2);
                assert(appended_errs(c0, c2) == appended_errs(cm, c2));
                
            }
            let right = match sub2 {
                Result::Ok(e2) => e2,
                Result::Err(e2) => {
                    return Result::Err(e2);
                },
            };
            expr = Expr::Binary { left: Box::new(expr), operator, right: Box::new(right) };
        }
        Result::Ok(expr)
    }


    /// `+` and `-`, left-associative.
    #[verifier::loop_isolation(false)]
    fn term(&mut self) -> (r: Result<Expr, ParseError>)
        requires
            old(self).ok(),
        ensures
            final(self).ok(),
            final(self).same_tokens(old(self)),
            old(self).current <= final(self).current,
            old(self).errors@.len() <= final(self).errors@.len(),
            keeps_errs(*old(self), *final(self)),
            r is Ok ==> final(self).current > old(self).current,
            spec_term(old(self).ts(), old(self).current as int) == expr_result(
                *old(self),
                *final(self),
                r,
            ),
        decreases old(self).tokens@.len() - old(self).current, 11nat,
    {
        let ghost pre = *self;
        let ghost ts = pre.ts();
        let ghost pos0 = pre.current as int;
        proof {
            assert(spec_term(ts, pos0) == spec_binary_level(ts, below_ops(1), false, 1, pos0));
        }
        let sub = self.factor();
        let ghost c1 = *self;
        let mut expr = match sub {
            Result::Ok(e) => e,
            Result::Err(e) => {
                proof {
                    assert(spec_binary_level(ts, below_ops(0), false, 0, pos0) == spec_factor(ts, pos0));
                }
                return Result::Err(e);
            },
        };
        proof {
            assert(spec_binary_level(ts, below_ops(0), false, 0, pos0) == spec_factor(ts, pos0));
        }
        let operator_types: &[TokenType] = &[TokenType::Minus, TokenType::Plus];
        proof {
            assert(operator_types@ =~= below_ops(1));
        }
        loop
            invariant
                self.ok(),
                self.same_tokens(&pre),
                pre.current < self.current,
                pre.errors@.len() <= self.errors@.len(),
                keeps_errs(pre, *self),
                spec_term(ts, pos0) == spec_binary_tail(
                    ts,
                    below_ops(1),
                    false,
                    1,
                    expr@,
                    self.current as int,
                    appended_errs(pre, *self),
                ),
            decreases self.tokens@.len() - self.current,
        {
            let ghost c0 = *self;
            if !self.match_token(operator_types) {
                proof {
                    if !c0.spec_at_end() {
                        assert(forall|k: int|
                            0 <= k < operator_types@.len() ==> c0.spec_peek_type()
                                != operator_types@[k]);
                        assert(!below_ops(1).contains(ts[c0.current as int].token_type));
                    }
                }
                break;
            }
            let operator = self.previous();
            let ghost cm = *self;
            let sub2 = self.factor();
            let ghost c2 = *self;
            proof {
                assert(below_ops(1).contains(ts[c0.current as int].token_type));
                lemma_errs_chain(pre, c0, c2);
                assert(appended_errs(c0, c2) == appended_errs(cm, c2));
                assert(spec_binary_level(ts, below_ops(0), false, 0, cm.current as int) == spec_factor(ts, cm.current as int));
            }
            let right = match sub2 {
                Result::Ok(e2) => e2,
                Result::Err(e2) => {
                    return Result::Err(e2);
                },
            };
            expr = Expr::Binary { left: Box::new(expr), operator, right: Box::new(right) };
        }
        Result::Ok(expr)
    }


    /// `>`, `>=`, `<`, `<=`, left-associative.
    #[verifier::loop_isolation(false)]
    fn comparison(&mut self) -> (r: Result<Expr, ParseError>)
        requires
            old(self).ok(),
        ensures
            final(self).ok(),
            final(self).same_tokens(old(self)),
            old(self).current <= final(self).current,
            old(self).errors@.len() <= final(self).errors@.len(),
            keeps_errs(*old(self), *final(self)),
            r is Ok ==> final(self).current > old(self).current,
            spec_comparison(old(self).ts(), old(self).current as int) == expr_result(
                *old(self),
                *final(self),
                r,
            ),
        decreases old(self).tokens@.len() - old(self).current, 12nat,
    {
        let ghost pre = *self;
        let ghost ts = pre.ts();
        let ghost pos0 = pre.current as int;
        proof {
            assert(spec_comparison(ts, pos0) == spec_binary_level(ts, below_ops(2), false, 2, pos0));
        }
        let sub = self.term();
        let ghost c1 = *self;
        let mut expr = match sub {
            Result::Ok(e) => e,
            Result::Err(e) => {
                proof {
                    assert(spec_binary_level(ts, below_ops(1), false, 1, pos0) == spec_term(ts, pos0));
                }
                return Result::Err(e);
            },
        };
        proof {
            assert(spec_binary_level(ts, below_ops(1), false, 1, pos0) == spec_term(ts, pos0));
        }
        let operator_types: &[TokenType] = &[TokenType::Greater, TokenType::GreaterEqual, TokenType::Less, TokenType::LessEqual];
        proof {
            assert(operator_types@ =~= below_ops(2));
        }
        loop
            invariant
                self.ok(),
                self.same_tokens(&pre),
                pre.current < self.current,
                pre.errors@.len() <= self.errors@.len(),
                keeps_errs(pre, *self),
                spec_comparison(ts, pos0) == spec_binary_tail(
                    ts,
                    below_ops(2),
                    false,
                    2,
                    expr@,
                    self.current as int,
                    appended_errs(pre, *self),
                ),
            decreases self.tokens@.len() - self.current,
        {
            let ghost c0 = *self;
            if !self.match_token(operator_types) {
                proof {
                    if !c0.spec_at_end() {
                        assert(forall|k: int|
                            0 <= k < operator_types@.len() ==> c0.spec_peek_type()
                                != operator_types@[k]);
                        assert(!below_ops(2).contains(ts[c0.current as int].token_type));
                    }
                }
                break;
            }
            let operator = self.previous();
            let ghost cm = *self;
            let sub2 = self.term();
            let ghost c2 = *self;
            proof {
                assert(below_ops(2).contains(ts[c0.current as int].token_type));
                lemma_errs_chain(pre, c0, c2);
                assert(appended_errs(c0, c2) == appended_errs(cm, c2));
                assert(spec_binary_level(ts, below_ops(1), false, 1, cm.current as int) == spec_term(ts, cm.current as int));
            }
            let right = match sub2 {
                Result::Ok(e2) => e2,
                Result::Err(e2) => {
                    return Result::Err(e2);
                },
            };
            expr = Expr::Binary { left: Box::new(expr), operator, right: Box::new(right) };
        }
        Result::Ok(expr)
    }


    /// `==` and `!=`, left-associative.
    #[verifier::loop_isolation(false)]
    fn equality(&mut self) -> (r: Result<Expr, ParseError>)
        requires
            old(self).ok(),
        ensures
            final(self).ok(),
            final(self).same_tokens(old(self)),
            old(self).current <= final(self).current,
            old(self).errors@.len() <= final(self).errors@.len(),
            keeps_errs(*old(self), *final(self)),
            r is Ok ==> final(self).current > old(self).current,
            spec_equality(old(self).ts(), old(self).current as int) == expr_result(
                *old(self),
                *final(self),
                r,
            ),
        decreases old(self).tokens@.len() - old(self).current, 13nat,
    {
        let ghost pre = *self;
        let ghost ts = pre.ts();
        let ghost pos0 = pre.current as int;
        proof {
            assert(spec_equality(ts, pos0) == spec_binary_level(ts, below_ops(3), false, 3, pos0));
        }
        let sub = self.comparison();
        let ghost c1 = *self;
        let mut expr = match sub {
            Result::Ok(e) => e,
            Result::Err(e) => {
                proof {
                    assert(spec_binary_level(ts, below_ops(2), false, 2, pos0) == spec_comparison(ts, pos0));
                }
                return Result::Err(e);
            },
        };
        proof {
            assert(spec_binary_level(ts, below_ops(2), false, 2, pos0) == spec_comparison(ts, pos0));
        }
        let operator_types: &[TokenType] = &[TokenType::BangEqual, TokenType::EqualEqual];
        proof {
            assert(operator_types@ =~= below_ops(3));
        }
        loop
            invariant
                self.ok(),
                self.same_tokens(&pre),
                pre.current < self.current,
                pre.errors@.len() <= self.errors@.len(),
                keeps_errs(pre, *self),
                spec_equality(ts, pos0) == spec_binary_tail(
                    ts,
                    below_ops(3),
                    false,
                    3,
                    expr@,
                    self.current as int,
                    appended_errs(pre, *self),
                ),
            decreases self.tokens@.len() - self.current,
        {
            let ghost c0 = *self;
            if !self.match_token(operator_types) {
                proof {
                    if !c0.spec_at_end() {
                        assert(forall|k: int|
                            0 <= k < operator_types@.len() ==> c0.spec_peek_type()
                                != operator_types@[k]);
                        assert(!below_ops(3).contains(ts[c0.current as int].token_type));
                    }
                }
                break;
            }
            let operator = self.previous();
            let ghost cm = *self;
            let sub2 = self.comparison();
            let ghost c2 = *self;
            proof {
                assert(below_ops(3).contains(ts[c0.current as int].token_type));
                lemma_errs_chain(pre, c0, c2);
                assert(appended_errs(c0, c2) == appended_errs(cm, c2));
                assert(spec_binary_level(ts, below_ops(2), false, 2, cm.current as int) == spec_comparison(ts, cm.current as int));
            }
            let right = match sub2 {
                Result::Ok(e2) => e2,
                Result::Err(e2) => {
                    return Result::Err(e2);
                },
            };
            expr = Expr::Binary { left: Box::new(expr), operator, right: Box::new(right) };
        }
        Result::Ok(expr)
    }


    /// `and`, short-circuiting, left-associative; binds tighter than `or`.
    #[verifier::loop_isolation(false)]
    fn and(&mut self) -> (r: Result<Expr, ParseError>)
        requires
            old(self).ok(),
        ensures
            final(self).ok(),
            final(self).same_tokens(old(self)),
            old(self).current <= final(self).current,
            old(self).errors@.len() <= final(self).errors@.len(),
            keeps_errs(*old(self), *final(self)),
            r is Ok ==> final(self).current > old(self).current,
            spec_and(old(self).ts(), old(self).current as int) == expr_result(
                *old(self),
                *final(self),
                r,
            ),
        decreases old(self).tokens@.len() - old(self).current, 14nat,
    {
        let ghost pre = *self;
        let ghost ts = pre.ts();
        let ghost pos0 = pre.current as int;
        proof {
            assert(spec_and(ts, pos0) == spec_binary_level(ts, below_ops(4), true, 4, pos0));
        }
        let sub = self.equality();
        let ghost c1 = *self;
        let mut expr = match sub {
            Result::Ok(e) => e,
            Result::Err(e) => {
                proof {
                    assert(spec_binary_level(ts, below_ops(3), false, 3, pos0) == spec_equality(ts, pos0));
                }
                return Result::Err(e);
            },
        };
        proof {
            assert(spec_binary_level(ts, below_ops(3), false, 3, pos0) == spec_equality(ts, pos0));
        }
        let operator_types: &[TokenType] = &[TokenType::And];
        proof {
            assert(operator_types@ =~= below_ops(4));
        }
        loop
            invariant
                self.ok(),
                self.same_tokens(&pre),
                pre.current < self.current,
                pre.errors@.len() <= self.errors@.len(),
                keeps_errs(pre, *self),
                spec_and(ts, pos0) == spec_binary_tail(
                    ts,
                    below_ops(4),
                    true,
                    4,
                    expr@,
                    self.current as int,
                    appended_errs(pre, *self),
                ),
            decreases self.tokens@.len() - self.current,
        {
            let ghost c0 = *self;
            if !self.match_token(operator_types) {
                proof {
                    if !c0.spec_at_end() {
                        assert(forall|k: int|
                            0 <= k < operator_types@.len() ==> c0.spec_peek_type()
                                != operator_types@[k]);
                        assert(!below_ops(4).contains(ts[c0.current as int].token_type));
                    }
                }
                break;
            }
            let operator = self.previous();
            let ghost cm = *self;
            let sub2 = self.equality();
            let ghost c2 = *self;
            proof {
                assert(below_ops(4).contains(ts[c0.current as int].token_type));
                lemma_errs_chain(pre, c0, c2);
                assert(appended_errs(c0, c2) == appended_errs(cm, c2));
                assert(spec_binary_level(ts, below_ops(3), false, 3, cm.current as int) == spec_equality(ts, cm.current as int));
            }
            let right = match sub2 {
                Result::Ok(e2) => e2,
                Result::Err(e2) => {
                    return Result::Err(e2);
                },
            };
            expr = Expr::Logical { left: Box::new(expr), operator, right: Box::new(right) };
        }
        Result::Ok(expr)
    }


    /// `or`, short-circuiting, left-associative.
    #[verifier::loop_isolation(false)]
    fn or(&mut self) -> (r: Result<Expr, ParseError>)
        requires
            old(self).ok(),
        ensures
            final(self).ok(),
            final(self).same_tokens(old(self)),
            old(self).current <= final(self).current,
            old(self).errors@.len() <= final(self).errors@.len(),
            keeps_errs(*old(self), *final(self)),
            r is Ok ==> final(self).current > old(self).current,
            spec_or(old(self).ts(), old(self).current as int) == expr_result(
                *old(self),
                *final(self),
                r,
            ),
        decreases old(self).tokens@.len() - old(self).current, 15nat,
    {
        let ghost pre = *self;
        let ghost ts = pre.ts();
        let ghost pos0 = pre.current as int;
        proof {
            assert(spec_or(ts, pos0) == spec_binary_level(ts, below_ops(5), true, 5, pos0));
        }
        let sub = self.and();
        let ghost c1 = *self;
        let mut expr = match sub {
            Result::Ok(e) => e,
            Result::Err(e) => {
                proof {
                    assert(spec_binary_level(ts, below_ops(4), true, 4, pos0) == spec_and(ts, pos0));
                }
                return Result::Err(e);
            },
        };
        proof {
            assert(spec_binary_level(ts, below_ops(4), true, 4, pos0) == spec_and(ts, pos0));
        }
        let operator_types: &[TokenType] = &[TokenType::Or];
        proof {
            assert(operator_types@ =~= below_ops(5));
        }
        loop
            invariant
                self.ok(),
                self.same_tokens(&pre),
                pre.current < self.current,
                pre.errors@.len() <= self.errors@.len(),
                keeps_errs(pre, *self),
                spec_or(ts, pos0) == spec_binary_tail(
                    ts,
                    below_ops(5),
                    true,
                    5,
                    expr@,
                    self.current as int,
                    appended_errs(pre, *self),
                ),
            decreases self.tokens@.len() - self.current,
        {
            let ghost c0 = *self;
            if !self.match_token(operator_types) {
                proof {
                    if !c0.spec_at_end() {
                        assert(forall|k: int|
                            0 <= k < operator_types@.len() ==> c0.spec_peek_type()
                                != operator_types@[k]);
                        assert(!below_ops(5).contains(ts[c0.current as int].token_type));
                    }
                }
                break;
            }
            let operator = self.previous();
            let ghost cm = *self;
            let sub2 = self.and();
            let ghost c2 = *self;
            proof {
                assert(below_ops(5).contains(ts[c0.current as int].token_type));
                lemma_errs_chain(pre, c0, c2);
                assert(appended_errs(c0, c2) == appended_errs(cm, c2));
                assert(spec_binary_level(ts, below_ops(4), true, 4, cm.current as int) == spec_and(ts, cm.current as int));
            }
            let right = match sub2 {
                Result::Ok(e2) => e2,
                Result::Err(e2) => {
                    return Result::Err(e2);
                },
            };
            expr = Expr::Logical { left: Box::new(expr), operator, right: Box::new(right) };
        }
        Result::Ok(expr)
    }

    /// Prefix `!` and `-`, right-associative.
    #[verifier::rlimit(100)]
    #[verifier::spinoff_prover]
    fn unary(&mut self) -> (r: Result<Expr, ParseError>)
        requires
            old(self).ok(),
        ensures
            final(self).ok(),
            final(self).same_tokens(old(self)),
            old(self).current <= final(self).current,
            old(self).errors@.len() <= final(self).errors@.len(),
            keeps_errs(*old(self), *final(self)),
            r is Ok ==> final(self).current > old(self).current,
            spec_unary(old(self).ts(), old(self).current as int) == expr_result(
                *old(self),
                *final(self),
                r,
            ),
        decreases old(self).tokens@.len() - old(self).current, 9nat,
    {
        let ghost pre = *self;
        let ghost ts = pre.ts();
        let ghost pos0 = pre.current as int;
        let unary_types: &[TokenType] = &[TokenType::Bang, TokenType::Minus];
        if self.match_token(unary_types) {
            proof {
                assert(ts[pos0].token_type == TokenType::Bang || ts[pos0].token_type
                    == TokenType::Minus);
            }
            let operator = self.previous();
            let ghost cm = *self;
            let sub = self.unary();
            let right = match sub {
                Result::Ok(e) => e,
                Result::Err(e) => {
                    proof {
                        lemma_errs_chain(pre, cm, *self);
                        assert(appended_errs(pre, cm) =~= Seq::<SpecSyntaxError>::empty());
                        assert(appended_errs(pre, *self) =~= appended_errs(cm, *self));
                    }
                    return Result::Err(e);
                },
            };
            proof {
                lemma_errs_chain(pre, cm, *self);
                assert(appended_errs(pre, cm) =~= Seq::<SpecSyntaxError>::empty());
                assert(appended_errs(pre, *self) =~= appended_errs(cm, *self));
            }
            return Result::Ok(Expr::Unary { operator, right: Box::new(right) });
        }
        proof {
            if !pre.spec_at_end() {
                assert(ts[pos0].token_type != TokenType::Bang && ts[pos0].token_type
                    != TokenType::Minus);
            }
        }
        self.call()
    }

    /// A primary expression followed by any number of call suffixes.
    #[verifier::rlimit(100)]
    #[verifier::spinoff_prover]
    #[verifier::loop_isolation(false)]
    fn call(&mut self) -> (r: Result<Expr, ParseError>)
        requires
            old(self).ok(),
        ensures
            final(self).ok(),
            final(self).same_tokens(old(self)),
            old(self).current <= final(self).current,
            old(self).errors@.len() <= final(self).errors@.len(),
            keeps_errs(*old(self), *final(self)),
            r is Ok ==> final(self).current > old(self).current,
            spec_call(old(self).ts(), old(self).current as int) == expr_result(
                *old(self),
                *final(self),
                r,
            ),
        decreases old(self).tokens@.len() - old(self).current, 8nat,
    {
        let ghost pre = *self;
        let ghost ts = pre.ts();
        let ghost pos0 = pre.current as int;
        let sub = self.primary();
        let mut expr = match sub {
            Result::Ok(e) => e,
            Result::Err(e) => {
                return Result::Err(e);
            },
        };
        let lparen_types: &[TokenType] = &[TokenType::LeftParen];
        loop
            invariant
                self.ok(),
                self.same_tokens(&pre),
                pre.current < self.current,
                pre.errors@.len() <= self.errors@.len(),
                keeps_errs(pre, *self),
                spec_call(ts, pos0) == spec_call_tail(
                    ts,
                    expr@,
                    self.current as int,
                    appended_errs(pre, *self),
                ),
            decreases self.tokens@.len() - self.current,
        {
            let ghost c0 = *self;
            if !self.match_token(lparen_types) {
                proof {
                    if !c0.spec_at_end() {
                        assert(ts[c0.current as int].token_type != TokenType::LeftParen);
                    }
                }
                break;
            }
            proof {
                assert(ts[c0.current as int].token_type == TokenType::LeftParen);
            }
            let ghost cm = *self;
            let ghost g_callee = expr@;
            let sub2 = self.finish_call(expr);
            let ghost c2 = *self;
            proof {
                lemma_errs_chain(pre, c0, c2);
                assert(appended_errs(c0, c2) == appended_errs(cm, c2));
            }
            match sub2 {
                Result::Ok(e2) => {
                    expr = e2;
                },
                Result::Err(e2) => {
                    return Result::Err(e2);
                },
            }
        }
        Result::Ok(expr)
    }

    /// The arguments of a call, after its `(`: at most 255 of them (more
    /// are reported, non-fatally), then the closing `)`, whose token the
    /// call node keeps for runtime error positions.
    #[verifier::rlimit(100)]
    #[verifier::spinoff_prover]
    #[verifier::loop_isolation(false)]
    fn finish_call(&mut self, callee: Expr) -> (r: Result<Expr, ParseError>)
        requires
            old(self).ok(),
        ensures
            final(self).ok(),
            final(self).same_tokens(old(self)),
            old(self).current <= final(self).current,
            old(self).errors@.len() <= final(self).errors@.len(),
            keeps_errs(*old(self), *final(self)),
            spec_finish_call(
                old(self).ts(),
                callee@,
                old(self).current as int,
                Seq::empty(),
            ) == expr_result(*old(self), *final(self), r),
        decreases old(self).tokens@.len() - old(self).current, 18nat,
    {
        let ghost pre = *self;
        let ghost ts = pre.ts();
        let ghost pos0 = pre.current as int;
        let ghost g_callee = callee@;
        let mut arguments: Vec<Expr> = Vec::new();
        if self.check(TokenType::RightParen) {
            let paren = match self.consume(TokenType::RightParen, "Expect ')' after arguments.") {
                Result::Ok(t) => t,
                Result::Err(e2) => {
                    proof {
                        assert(false);
                    }
                    return Result::Err(e2);
                },
            };
            proof {
                crate::ast::lemma_exprs_view(arguments@);
                assert(crate::ast::spec_exprs_view(arguments@) =~= Seq::<SpecExpr>::empty());
                assert(appended_errs(pre, *self) =~= Seq::<SpecSyntaxError>::empty());
            }
            return Result::Ok(Expr::Call { callee: Box::new(callee), paren, arguments });
        }
        proof {
            crate::ast::lemma_exprs_view(arguments@);
            assert(crate::ast::spec_exprs_view(arguments@) =~= Seq::<SpecExpr>::empty());
            assert(appended_errs(pre, *self) =~= Seq::<SpecSyntaxError>::empty());
        }
        let comma_types: &[TokenType] = &[TokenType::Comma];
        loop
            invariant
                self.ok(),
                self.same_tokens(&pre),
                pre.current <= self.current,
                pre.errors@.len() <= self.errors@.len(),
                keeps_errs(pre, *self),
                spec_finish_call(ts, g_callee, pos0, Seq::empty()) == spec_args_tail(
                    ts,
                    g_callee,
                    crate::ast::spec_exprs_view(arguments@),
                    self.current as int,
                    appended_errs(pre, *self),
                ),
            decreases self.tokens@.len() - self.current,
        {
            let ghost c0 = *self;
            let ghost v0 = arguments@;
            let ghost acc0 = crate::ast::spec_exprs_view(arguments@);
            if arguments.len() >= 255 {
                let t = self.peek();
                self.error(t, "Cannot have more than 255 arguments.");
            }
            let ghost ca = *self;
            proof {
                crate::ast::lemma_exprs_view(v0);
                lemma_errs_chain(pre, c0, ca);
                if acc0.len() >= 255 {
                    assert(appended_errs(c0, ca) =~= spec_err1(
                        ts[c0.current as int],
                        "Cannot have more than 255 arguments."@,
                    ));
                } else {
                    assert(appended_errs(c0, ca) =~= Seq::<SpecSyntaxError>::empty());
                }
            }
            let sub = self.expression();
            let ghost c2 = *self;
            proof {
                lemma_errs_chain(pre, ca, c2);
            }
            let e = match sub {
                Result::Ok(e) => e,
                Result::Err(e2) => {
                    proof {
                        lemma_args_expr_failed(
                            ts,
                            g_callee,
                            acc0,
                            c0.current as int,
                            appended_errs(pre, c0),
                            c2.current as int,
                            appended_errs(ca, c2),
                        );
                        assert((if acc0.len() >= 255 {
                            appended_errs(pre, c0) + spec_err1(
                                ts[c0.current as int],
                                "Cannot have more than 255 arguments."@,
                            )
                        } else {
                            appended_errs(pre, c0)
                        }) + appended_errs(ca, c2) =~= appended_errs(pre, c2));
                    }
                    return Result::Err(e2);
                },
            };
            let ghost g_e = e@;
            arguments.push(e);
            proof {
                crate::ast::lemma_exprs_view(v0);
                crate::ast::lemma_exprs_view(arguments@);
                assert(crate::ast::spec_exprs_view(arguments@) =~= acc0.push(g_e));
            }
            let ghost c3 = *self;
            if !self.match_token(comma_types) {
                proof {
                    if !c3.spec_at_end() {
                        assert(ts[c3.current as int].token_type != TokenType::Comma);
                    }
                }
                let paren = match self.consume(TokenType::RightParen, "Expect ')' after arguments.") {
                    Result::Ok(t) => t,
                    Result::Err(e2) => {
                        proof {
                            lemma_args_unclosed(
                                ts,
                                g_callee,
                                acc0,
                                c0.current as int,
                                appended_errs(pre, c0),
                                g_e,
                                c3.current as int,
                                appended_errs(ca, c3),
                            );
                            lemma_errs_chain(pre, c3, *self);
                            assert(appended_errs(c3, *self) =~= spec_err1(
                                ts[c3.current as int],
                                "Expect ')' after arguments."@,
                            ));
                            assert((if acc0.len() >= 255 {
                                appended_errs(pre, c0) + spec_err1(
                                    ts[c0.current as int],
                                    "Cannot have more than 255 arguments."@,
                                )
                            } else {
                                appended_errs(pre, c0)
                            }) + appended_errs(ca, c3) + spec_err1(
                                ts[c3.current as int],
                                "Expect ')' after arguments."@,
                            ) =~= appended_errs(pre, *self));
                        }
                        return Result::Err(e2);
                    },
                };
                proof {
                    lemma_args_done(
                        ts,
                        g_callee,
                        acc0,
                        c0.current as int,
                        appended_errs(pre, c0),
                        g_e,
                        c3.current as int,
                        appended_errs(ca, c3),
                    );
                    lemma_errs_chain(pre, c3, *self);
                    assert(appended_errs(c3, *self) =~= Seq::<SpecSyntaxError>::empty());
                    assert((if acc0.len() >= 255 {
                        appended_errs(pre, c0) + spec_err1(
                            ts[c0.current as int],
                            "Cannot have more than 255 arguments."@,
                        )
                    } else {
                        appended_errs(pre, c0)
                    }) + appended_errs(ca, c3) =~= appended_errs(pre, *self));
                }
                return Result::Ok(Expr::Call { callee: Box::new(callee), paren, arguments });
            }
            proof {
                assert(ts[c3.current as int].token_type == TokenType::Comma);
                lemma_args_comma(
                    ts,
                    g_callee,
                    acc0,
                    c0.current as int,
                    appended_errs(pre, c0),
                    g_e,
                    c3.current as int,
                    appended_errs(ca, c3),
                );
                lemma_errs_chain(pre, c3, *self);
                assert(appended_errs(c3, *self) =~= Seq::<SpecSyntaxError>::empty());
                assert((if acc0.len() >= 255 {
                    appended_errs(pre, c0) + spec_err1(
                        ts[c0.current as int],
                        "Cannot have more than 255 arguments."@,
                    )
                } else {
                    appended_errs(pre, c0)
                }) + appended_errs(ca, c3) =~= appended_errs(pre, *self));
            }
        }
    }

    /// Literals, variables, and parenthesized groupings.
    #[verifier::rlimit(100)]
    #[verifier::spinoff_prover]
    fn primary(&mut self) -> (r: Result<Expr, ParseError>)
        requires
            old(self).ok(),
        ensures
            final(self).ok(),
            final(self).same_tokens(old(self)),
            old(self).current <= final(self).current,
            old(self).errors@.len() <= final(self).errors@.len(),
            keeps_errs(*old(self), *final(self)),
            r is Ok ==> final(self).current > old(self).current,
            spec_primary(old(self).ts(), old(self).current as int) == expr_result(
                *old(self),
                *final(self),
                r,
            ),
        decreases old(self).tokens@.len() - old(self).current, 7nat,
    {
        let ghost pre = *self;
        let ghost ts = pre.ts();
        let ghost pos0 = pre.current as int;
        let false_types: &[TokenType] = &[TokenType::False];
        if self.match_token(false_types) {
            proof {
                assert(appended_errs(pre, *self) =~= Seq::<SpecSyntaxError>::empty());
            }
            return Result::Ok(Expr::Literal { value: Literal::Bool(false) });
        }
        let true_types: &[TokenType] = &[TokenType::True];
        if self.match_token(true_types) {
            proof {
                assert(appended_errs(pre, *self) =~= Seq::<SpecSyntaxError>::empty());
            }
            return Result::Ok(Expr::Literal { value: Literal::Bool(true) });
        }
        let nil_types: &[TokenType] = &[TokenType::Nil];
        if self.match_token(nil_types) {
            proof {
                assert(appended_errs(pre, *self) =~= Seq::<SpecSyntaxError>::empty());
            }
            return Result::Ok(Expr::Literal { value: Literal::Nil });
        }
        let literal_types: &[TokenType] = &[TokenType::Number, TokenType::StringLit];
        if self.match_token(literal_types) {
            proof {
                assert(ts[pos0].token_type == TokenType::Number || ts[pos0].token_type
                    == TokenType::StringLit);
                assert(appended_errs(pre, *self) =~= Seq::<SpecSyntaxError>::empty());
            }
            let prev = self.previous();
            return match prev.literal {
                Option::Some(l) => Result::Ok(Expr::Literal { value: l }),
                Option::None => Result::Ok(Expr::Literal { value: Literal::Nil }),
            };
        }
        let identifier_types: &[TokenType] = &[TokenType::Identifier];
        if self.match_token(identifier_types) {
            proof {
                assert(appended_errs(pre, *self) =~= Seq::<SpecSyntaxError>::empty());
            }
            return Result::Ok(Expr::Variable { name: self.previous() });
        }
        let lparen_types: &[TokenType] = &[TokenType::LeftParen];
        if self.match_token(lparen_types) {
            let ghost cm = *self;
            let sub = self.expression();
            let ghost c1 = *self;
            proof {
                lemma_errs_chain(pre, cm, c1);
                assert(appended_errs(pre, cm) =~= Seq::<SpecSyntaxError>::empty());
                assert(appended_errs(pre, c1) =~= appended_errs(cm, c1));
            }
            let expr = match sub {
                Result::Ok(e) => e,
                Result::Err(e) => {
                    return Result::Err(e);
                },
            };
            return match self.consume(TokenType::RightParen, "Expect ')' after expression.") {
                Result::Ok(_) => {
                    proof {
                        lemma_errs_chain(pre, c1, *self);
                        assert(appended_errs(c1, *self) =~= Seq::<SpecSyntaxError>::empty());
                    }
                    Result::Ok(Expr::Grouping { expression: Box::new(expr) })
                },
                Result::Err(e) => {
                    proof {
                        lemma_errs_chain(pre, c1, *self);
                        assert(appended_errs(c1, *self) =~= spec_err1(
                            ts[c1.current as int],
                            "Expect ')' after expression."@,
                        ));
                    }
                    Result::Err(e)
                },
            };
        }
        let t = self.peek();
        let ghost c5 = *self;
        let e = self.error(t, "Expect expression.");
        proof {
            if !pre.spec_at_end() {
                assert(ts[pos0].token_type != TokenType::False);
                assert(ts[pos0].token_type != TokenType::True);
                assert(ts[pos0].token_type != TokenType::Nil);
                assert(ts[pos0].token_type != TokenType::Number);
                assert(ts[pos0].token_type != TokenType::StringLit);
                assert(ts[pos0].token_type != TokenType::Identifier);
                assert(ts[pos0].token_type != TokenType::LeftParen);
            }
            assert(appended_errs(pre, *self) =~= spec_err1(ts[pos0], "Expect expression."@));
        }
        Result::Err(e)
    }

    /// Assignment is right-associative, and only a bare variable reference
    /// is a legal target; any other shape is "Invalid assignment target."
    #[verifier::rlimit(100)]
    #[verifier::spinoff_prover]
    fn assignment(&mut self) -> (r: Result<Expr, ParseError>)
        requires
            old(self).ok(),
        ensures
            final(self).ok(),
            final(self).same_tokens(old(self)),
            old(self).current <= final(self).current,
            old(self).errors@.len() <= final(self).errors@.len(),
            keeps_errs(*old(self), *final(self)),
            r is Ok ==> final(self).current > old(self).current,
            spec_assignment(old(self).ts(), old(self).current as int) == expr_result(
                *old(self),
                *final(self),
                r,
            ),
        decreases old(self).tokens@.len() - old(self).current, 16nat,
    {
        let ghost pre = *self;
        let ghost ts = pre.ts();
        let ghost pos0 = pre.current as int;
        let sub = self.or();
        let ghost c1 = *self;
        let expr = match sub {
            Result::Ok(e) => e,
            Result::Err(e) => {
                return Result::Err(e);
            },
        };
        let equal_types: &[TokenType] = &[TokenType::Equal];
        if self.match_token(equal_types) {
            proof {
                assert(ts[c1.current as int].token_type == TokenType::Equal);
            }
            let equals = self.previous();
            let ghost cm = *self;
            let sub2 = self.assignment();
            let ghost c2 = *self;
            proof {
                lemma_errs_chain(pre, c1, c2);
                assert(appended_errs(c1, c2) == appended_errs(cm, c2));
            }
            let value = match sub2 {
                Result::Ok(v) => v,
                Result::Err(e) => {
                    return Result::Err(e);
                },
            };
            if let Expr::Variable { name } = expr {
                return Result::Ok(Expr::Assign { name, value: Box::new(value) });
            }
            let e = self.error(equals, "Invalid assignment target.");
            proof {
                lemma_errs_chain(pre, c2, *self);
                assert(appended_errs(c2, *self) =~= spec_err1(
                    ts[c1.current as int],
                    "Invalid assignment target."@,
                ));
            }
            return Result::Err(e);
        }
        proof {
            if !c1.spec_at_end() {
                assert(ts[c1.current as int].token_type != TokenType::Equal);
            }
        }
        Result::Ok(expr)
    }

    /// An expression: assignment has the lowest precedence.
    fn expression(&mut self) -> (r: Result<Expr, ParseError>)
        requires
            old(self).ok(),
        ensures
            final(self).ok(),
            final(self).same_tokens(old(self)),
            old(self).current <= final(self).current,
            old(self).errors@.len() <= final(self).errors@.len(),
            keeps_errs(*old(self), *final(self)),
            r is Ok ==> final(self).current > old(self).current,
            spec_expression(old(self).ts(), old(self).current as int) == expr_result(
                *old(self),
                *final(self),
                r,
            ),
        decreases old(self).tokens@.len() - old(self).current, 17nat,
    {
        self.assignment()
    }

    /// An expression followed by a mandatory `;`.
    #[verifier::rlimit(100)]
    #[verifier::spinoff_prover]
    fn expression_statement(&mut self) -> (r: Result<Stmt, ParseError>)
        requires
            old(self).ok(),
        ensures
            final(self).ok(),
            final(self).same_tokens(old(self)),
            old(self).current <= final(self).current,
            old(self).errors@.len() <= final(self).errors@.len(),
            keeps_errs(*old(self), *final(self)),
            r is Ok ==> final(self).current > old(self).current,
            spec_expression_statement(old(self).ts(), old(self).current as int) == stmt_result(
                *old(self),
                *final(self),
                r,
            ),
        decreases old(self).tokens@.len() - old(self).current, 18nat,
    {
        let ghost pre = *self;
        let ghost ts = pre.ts();
        let sub = self.expression();
        let ghost c1 = *self;
        let expr = match sub {
            Result::Ok(e) => e,
            Result::Err(e) => {
                return Result::Err(e);
            },
        };
        match self.consume(TokenType::Semicolon, "Expect ';' after expression.") {
            Result::Ok(_) => {
                proof {
                    lemma_errs_chain(pre, c1, *self);
                    assert(appended_errs(c1, *self) =~= Seq::<SpecSyntaxError>::empty());
                }
                Result::Ok(Stmt::Expression { expression: Box::new(expr) })
            },
            Result::Err(e) => {
                proof {
                    lemma_errs_chain(pre, c1, *self);
                    assert(appended_errs(c1, *self) =~= spec_err1(
                        ts[c1.current as int],
                        "Expect ';' after expression."@,
                    ));
                }
                Result::Err(e)
            },
        }
    }

    /// `print` expression `;`.
    #[verifier::rlimit(100)]
    #[verifier::spinoff_prover]
    fn print_statement(&mut self) -> (r: Result<Stmt, ParseError>)
        requires
            old(self).ok(),
        ensures
            final(self).ok(),
            final(self).same_tokens(old(self)),
            old(self).current <= final(self).current,
            old(self).errors@.len() <= final(self).errors@.len(),
            keeps_errs(*old(self), *final(self)),
            spec_print_statement(old(self).ts(), old(self).current as int) == stmt_result(
                *old(self),
                *final(self),
                r,
            ),
        decreases old(self).tokens@.len() - old(self).current, 18nat,
    {
        let ghost pre = *self;
        let ghost ts = pre.ts();
        let sub = self.expression();
        let ghost c1 = *self;
        let value = match sub {
            Result::Ok(e) => e,
            Result::Err(e) => {
                return Result::Err(e);
            },
        };
        match self.consume(TokenType::Semicolon, "Expect ';' after value.") {
            Result::Ok(_) => {
                proof {
                    lemma_errs_chain(pre, c1, *self);
                    assert(appended_errs(c1, *self) =~= Seq::<SpecSyntaxError>::empty());
                }
                Result::Ok(Stmt::Print { expression: Box::new(value) })
            },
            Result::Err(e) => {
                proof {
                    lemma_errs_chain(pre, c1, *self);
                    assert(appended_errs(c1, *self) =~= spec_err1(
                        ts[c1.current as int],
                        "Expect ';' after value."@,
                    ));
                }
                Result::Err(e)
            },
        }
    }

    /// `return` with an optional value, defaulting to the nil literal, then
    /// `;`. The statement keeps the `return` keyword for error positions.
    #[verifier::rlimit(100)]
    #[verifier::spinoff_prover]
    fn return_statement(&mut self) -> (r: Result<Stmt, ParseError>)
        requires
            old(self).ok(),
            old(self).current >= 1,
        ensures
            final(self).ok(),
            final(self).same_tokens(old(self)),
            old(self).current <= final(self).current,
            old(self).errors@.len() <= final(self).errors@.len(),
            keeps_errs(*old(self), *final(self)),
            spec_return_statement(old(self).ts(), old(self).current as int) == stmt_result(
                *old(self),
                *final(self),
                r,
            ),
        decreases old(self).tokens@.len() - old(self).current, 18nat,
    {
        let ghost pre = *self;
        let ghost ts = pre.ts();
        let keyword = self.previous();
        let mut value = Expr::Literal { value: Literal::Nil };
        if self.check(TokenType::Semicolon) {
            match self.consume(TokenType::Semicolon, "Expect ';' after return value.") {
                Result::Ok(_) => {
                    proof {
                        assert(appended_errs(pre, *self) =~= Seq::<SpecSyntaxError>::empty());
                    }
                    return Result::Ok(Stmt::Return { keyword, value: Box::new(value) });
                },
                Result::Err(e) => {
                    proof {
                        assert(false);
                    }
                    return Result::Err(e);
                },
            }
        }
        let sub = self.expression();
        let ghost c1 = *self;
        match sub {
            Result::Ok(e) => {
                value = e;
            },
            Result::Err(e) => {
                return Result::Err(e);
            },
        }
        match self.consume(TokenType::Semicolon, "Expect ';' after return value.") {
            Result::Ok(_) => {
                proof {
                    lemma_errs_chain(pre, c1, *self);
                    assert(appended_errs(c1, *self) =~= Seq::<SpecSyntaxError>::empty());
                }
                Result::Ok(Stmt::Return { keyword, value: Box::new(value) })
            },
            Result::Err(e) => {
                proof {
                    lemma_errs_chain(pre, c1, *self);
                    assert(appended_errs(c1, *self) =~= spec_err1(
                        ts[c1.current as int],
                        "Expect ';' after return value."@,
                    ));
                }
                Result::Err(e)
            },
        }
    }

    /// `var` name, optional `=` initializer, `;`.
    #[verifier::rlimit(100)]
    #[verifier::spinoff_prover]
    fn var_declaration(&mut self) -> (r: Result<Stmt, ParseError>)
        requires
            old(self).ok(),
        ensures
            final(self).ok(),
            final(self).same_tokens(old(self)),
            old(self).current <= final(self).current,
            old(self).errors@.len() <= final(self).errors@.len(),
            keeps_errs(*old(self), *final(self)),
            spec_var_declaration(old(self).ts(), old(self).current as int) == stmt_result(
                *old(self),
                *final(self),
                r,
            ),
        decreases old(self).tokens@.len() - old(self).current, 18nat,
    {
        let ghost pre = *self;
        let ghost ts = pre.ts();
        let ghost pos0 = pre.current as int;
        let name = match self.consume(TokenType::Identifier, "Expect variable name.") {
            Result::Ok(t) => t,
            Result::Err(e) => {
                proof {
                    assert(appended_errs(pre, *self) =~= spec_err1(
                        ts[pos0],
                        "Expect variable name."@,
                    ));
                }
                return Result::Err(e);
            },
        };
        let mut initializer: Option<Box<Expr>> = Option::None;
        let equal_types: &[TokenType] = &[TokenType::Equal];
        let ghost c1 = *self;
        if self.match_token(equal_types) {
            proof {
                assert(ts[c1.current as int].token_type == TokenType::Equal);
            }
            let ghost cm = *self;
            let sub = self.expression();
            let ghost c2 = *self;
            proof {
                lemma_errs_chain(pre, cm, c2);
                assert(appended_errs(pre, cm) =~= Seq::<SpecSyntaxError>::empty());
                assert(appended_errs(pre, c2) =~= appended_errs(cm, c2));
            }
            match sub {
                Result::Ok(e) => {
                    initializer = Option::Some(Box::new(e));
                },
                Result::Err(e) => {
                    return Result::Err(e);
                },
            }
            let ghost c3 = *self;
            return match self.consume(TokenType::Semicolon, "Expect ';' after variable declaration.") {
                Result::Ok(_) => {
                    proof {
                        lemma_errs_chain(pre, c3, *self);
                        assert(appended_errs(c3, *self) =~= Seq::<SpecSyntaxError>::empty());
                    }
                    Result::Ok(Stmt::Var { name, initializer })
                },
                Result::Err(e) => {
                    proof {
                        lemma_errs_chain(pre, c3, *self);
                        assert(appended_errs(c3, *self) =~= spec_err1(
                            ts[c3.current as int],
                            "Expect ';' after variable declaration."@,
                        ));
                    }
                    Result::Err(e)
                },
            };
        }
        proof {
            if !c1.spec_at_end() {
                assert(ts[c1.current as int].token_type != TokenType::Equal);
            }
        }
        match self.consume(TokenType::Semicolon, "Expect ';' after variable declaration.") {
            Result::Ok(_) => {
                proof {
                    assert(appended_errs(pre, *self) =~= Seq::<SpecSyntaxError>::empty());
                }
                Result::Ok(Stmt::Var { name, initializer })
            },
            Result::Err(e) => {
                proof {
                    assert(appended_errs(pre, *self) =~= spec_err1(
                        ts[c1.current as int],
                        "Expect ';' after variable declaration."@,
                    ));
                }
                Result::Err(e)
            },
        }
    }

    /// `while` `(` condition `)` body.
    #[verifier::rlimit(100)]
    #[verifier::spinoff_prover]
    fn while_statement(&mut self) -> (r: Result<Stmt, ParseError>)
        requires
            old(self).ok(),
        ensures
            final(self).ok(),
            final(self).same_tokens(old(self)),
            old(self).current <= final(self).current,
            old(self).errors@.len() <= final(self).errors@.len(),
            keeps_errs(*old(self), *final(self)),
            spec_while_statement(old(self).ts(), old(self).current as int) == stmt_result(
                *old(self),
                *final(self),
                r,
            ),
        decreases old(self).tokens@.len() - old(self).current, 18nat,
    {
        let ghost pre = *self;
        let ghost ts = pre.ts();
        let ghost pos0 = pre.current as int;
        match self.consume(TokenType::LeftParen, "Expect '(' after 'while'.") {
            Result::Ok(_) => (),
            Result::Err(e) => {
                proof {
                    assert(appended_errs(pre, *self) =~= spec_err1(
                        ts[pos0],
                        "Expect '(' after 'while'."@,
                    ));
                }
                return Result::Err(e);
            },
        }
        let ghost cm = *self;
        let sub = self.expression();
        let ghost c1 = *self;
        proof {
            lemma_errs_chain(pre, cm, c1);
            assert(appended_errs(pre, cm) =~= Seq::<SpecSyntaxError>::empty());
            assert(appended_errs(pre, c1) =~= appended_errs(cm, c1));
        }
        let condition = match sub {
            Result::Ok(e) => e,
            Result::Err(e) => {
                return Result::Err(e);
            },
        };
        match self.consume(TokenType::RightParen, "Expect ')' after condition.") {
            Result::Ok(_) => (),
            Result::Err(e) => {
                proof {
                    lemma_errs_chain(pre, c1, *self);
                    assert(appended_errs(c1, *self) =~= spec_err1(
                        ts[c1.current as int],
                        "Expect ')' after condition."@,
                    ));
                }
                return Result::Err(e);
            },
        }
        let ghost c2 = *self;
        let sub2 = self.statement();
        let ghost c3 = *self;
        proof {
            lemma_errs_chain(pre, c1, c3);
            assert(appended_errs(c1, c3) =~= appended_errs(c2, c3));
        }
        match sub2 {
            Result::Ok(body) => Result::Ok(
                Stmt::While { condition: Box::new(condition), body: Box::new(body) },
            ),
            Result::Err(e) => Result::Err(e),
        }
    }

    /// `if` `(` condition `)` then-branch, with an optional `else` branch
    /// bound to the nearest `if`.
    #[verifier::rlimit(100)]
    #[verifier::spinoff_prover]
    fn if_statement(&mut self) -> (r: Result<Stmt, ParseError>)
        requires
            old(self).ok(),
        ensures
            final(self).ok(),
            final(self).same_tokens(old(self)),
            old(self).current <= final(self).current,
            old(self).errors@.len() <= final(self).errors@.len(),
            keeps_errs(*old(self), *final(self)),
            spec_if_statement(old(self).ts(), old(self).current as int) == stmt_result(
                *old(self),
                *final(self),
                r,
            ),
        decreases old(self).tokens@.len() - old(self).current, 18nat,
    {
        let ghost pre = *self;
        let ghost ts = pre.ts();
        let ghost pos0 = pre.current as int;
        match self.consume(TokenType::LeftParen, "Expect '(' after 'if'.") {
            Result::Ok(_) => (),
            Result::Err(e) => {
                proof {
                    assert(appended_errs(pre, *self) =~= spec_err1(
                        ts[pos0],
                        "Expect '(' after 'if'."@,
                    ));
                }
                return Result::Err(e);
            },
        }
        let ghost cm = *self;
        let sub = self.expression();
        let ghost c1 = *self;
        proof {
            lemma_errs_chain(pre, cm, c1);
            assert(appended_errs(pre, cm) =~= Seq::<SpecSyntaxError>::empty());
            assert(appended_errs(pre, c1) =~= appended_errs(cm, c1));
        }
        let condition = match sub {
            Result::Ok(e) => e,
            Result::Err(e) => {
                return Result::Err(e);
            },
        };
        match self.consume(TokenType::RightParen, "Expect ')' after if condition.") {
            Result::Ok(_) => (),
            Result::Err(e) => {
                proof {
                    lemma_errs_chain(pre, c1, *self);
                    assert(appended_errs(c1, *self) =~= spec_err1(
                        ts[c1.current as int],
                        "Expect ')' after if condition."@,
                    ));
                }
                return Result::Err(e);
            },
        }
        let ghost c2 = *self;
        let sub2 = self.statement();
        let ghost c3 = *self;
        proof {
            lemma_errs_chain(pre, c1, c3);
            assert(appended_errs(c1, c3) =~= appended_errs(c2, c3));
        }
        let then_branch = match sub2 {
            Result::Ok(s) => s,
            Result::Err(e) => {
                return Result::Err(e);
            },
        };
        let else_types: &[TokenType] = &[TokenType::Else];
        let else_branch: Option<Box<Stmt>> = if self.match_token(else_types) {
            proof {
                assert(ts[c3.current as int].token_type == TokenType::Else);
            }
            let ghost ce = *self;
            let sub3 = self.statement();
            let ghost c4 = *self;
            proof {
                lemma_errs_chain(pre, c3, c4);
                assert(appended_errs(c3, c4) =~= appended_errs(ce, c4));
            }
            match sub3 {
                Result::Ok(s) => Option::Some(Box::new(s)),
                Result::Err(e) => {
                    return Result::Err(e);
                },
            }
        } else {
            proof {
                if !c3.spec_at_end() {
                    assert(ts[c3.current as int].token_type != TokenType::Else);
                }
            }
            Option::None
        };
        Result::Ok(
            Stmt::If {
                condition: Box::new(condition),
                then_branch: Box::new(then_branch),
                else_branch,
            },
        )
    }

    /// `for` is desugared at parse time: header clauses and body are parsed,
    /// then combined by `desugar_for`; the interpreter never sees a `for`.
    #[verifier::rlimit(100)]
    #[verifier::spinoff_prover]
    fn for_statement(&mut self) -> (r: Result<Stmt, ParseError>)
        requires
            old(self).ok(),
        ensures
            final(self).ok(),
            final(self).same_tokens(old(self)),
            old(self).current <= final(self).current,
            old(self).errors@.len() <= final(self).errors@.len(),
            keeps_errs(*old(self), *final(self)),
            spec_for_statement(old(self).ts(), old(self).current as int) == stmt_result(
                *old(self),
                *final(self),
                r,
            ),
        decreases old(self).tokens@.len() - old(self).current, 18nat,
    {
        let ghost pre = *self;
        let ghost ts = pre.ts();
        let ghost pos0 = pre.current as int;
        match self.consume(TokenType::LeftParen, "Expect '(' after 'for'.") {
            Result::Ok(_) => (),
            Result::Err(e) => {
                proof {
                    assert(appended_errs(pre, *self) =~= spec_err1(
                        ts[pos0],
                        "Expect '(' after 'for'."@,
                    ));
                }
                return Result::Err(e);
            },
        }
        let ghost c0 = *self;
        let semicolon_types: &[TokenType] = &[TokenType::Semicolon];
        let var_types: &[TokenType] = &[TokenType::Var];
        let initializer: Option<Stmt> = if self.match_token(semicolon_types) {
            proof {
                assert(ts[c0.current as int].token_type == TokenType::Semicolon);
            }
            Option::None
        } else if self.match_token(var_types) {
            proof {
                assert(ts[c0.current as int].token_type == TokenType::Var);
            }
            let ghost cv = *self;
            match self.var_declaration() {
                Result::Ok(s) => {
                    proof {
                        lemma_errs_chain(pre, cv, *self);
                        assert(appended_errs(pre, cv) =~= Seq::<SpecSyntaxError>::empty());
                        assert(appended_errs(pre, *self) =~= appended_errs(cv, *self));
                    }
                    Option::Some(s)
                },
                Result::Err(e) => {
                    proof {
                        lemma_errs_chain(pre, cv, *self);
                        assert(appended_errs(pre, cv) =~= Seq::<SpecSyntaxError>::empty());
                        assert(appended_errs(pre, *self) =~= appended_errs(cv, *self));
                    }
                    return Result::Err(e);
                },
            }
        } else {
            proof {
                if !c0.spec_at_end() {
                    assert(ts[c0.current as int].token_type != TokenType::Semicolon);
                    assert(ts[c0.current as int].token_type != TokenType::Var);
                }
            }
            match self.expression_statement() {
                Result::Ok(s) => Option::Some(s),
                Result::Err(e) => {
                    return Result::Err(e);
                },
            }
        };
        let ghost c2 = *self;
        let condition: Option<Expr> = if !self.check(TokenType::Semicolon) {
            let sub = self.expression();
            let ghost cc = *self;
            proof {
                lemma_errs_chain(pre, c2, cc);
            }
            match sub {
                Result::Ok(e) => Option::Some(e),
                Result::Err(e) => {
                    return Result::Err(e);
                },
            }
        } else {
            Option::None
        };
        let ghost c3 = *self;
        proof {
            lemma_errs_chain(pre, c2, c3);
        }
        match self.consume(TokenType::Semicolon, "Expect ';' after loop condition.") {
            Result::Ok(_) => (),
            Result::Err(e) => {
                proof {
                    lemma_errs_chain(pre, c3, *self);
                    assert(appended_errs(c3, *self) =~= spec_err1(
                        ts[c3.current as int],
                        "Expect ';' after loop condition."@,
                    ));
                }
                return Result::Err(e);
            },
        }
        let ghost c4 = *self;
        let increment: Option<Expr> = if !self.check(TokenType::RightParen) {
            let sub = self.expression();
            let ghost ci = *self;
            proof {
                lemma_errs_chain(pre, c4, ci);
            }
            match sub {
                Result::Ok(e) => Option::Some(e),
                Result::Err(e) => {
                    return Result::Err(e);
                },
            }
        } else {
            Option::None
        };
        let ghost c5 = *self;
        proof {
            lemma_errs_chain(pre, c4, c5);
        }
        match self.consume(TokenType::RightParen, "Expect ')' after for clauses.") {
            Result::Ok(_) => (),
            Result::Err(e) => {
                proof {
                    lemma_errs_chain(pre, c5, *self);
                    assert(appended_errs(c5, *self) =~= spec_err1(
                        ts[c5.current as int],
                        "Expect ')' after for clauses."@,
                    ));
                }
                return Result::Err(e);
            },
        }
        let ghost c6 = *self;
        let sub_body = self.statement();
        let ghost c7 = *self;
        proof {
            lemma_errs_chain(pre, c5, c7);
            assert(appended_errs(c5, c7) =~= appended_errs(c6, c7));
        }
        let body = match sub_body {
            Result::Ok(s) => s,
            Result::Err(e) => {
                return Result::Err(e);
            },
        };
        Result::Ok(desugar_for(initializer, condition, increment, body))
    }

    /// The statements of a block, up to the closing `}`.
    #[verifier::rlimit(100)]
    #[verifier::spinoff_prover]
    #[verifier::loop_isolation(false)]
    fn block(&mut self) -> (r: Result<Vec<Stmt>, ParseError>)
        requires
            old(self).ok(),
        ensures
            final(self).ok(),
            final(self).same_tokens(old(self)),
            old(self).current <= final(self).current,
            old(self).errors@.len() <= final(self).errors@.len(),
            keeps_errs(*old(self), *final(self)),
            spec_block(old(self).ts(), old(self).current as int) == stmts_result(
                *old(self),
                *final(self),
                r,
            ),
        decreases old(self).tokens@.len() - old(self).current, 23nat,
    {
        let ghost pre = *self;
        let ghost ts = pre.ts();
        let ghost pos0 = pre.current as int;
        let mut statements: Vec<Stmt> = Vec::new();
        proof {
            crate::ast::lemma_stmts_view(statements@);
            assert(crate::ast::spec_stmts_view(statements@) =~= Seq::<SpecStmt>::empty());
            assert(appended_errs(pre, *self) =~= Seq::<SpecSyntaxError>::empty());
        }
        while !self.check(TokenType::RightBrace) && !self.is_at_end()
            invariant
                self.ok(),
                self.same_tokens(&pre),
                pre.current <= self.current,
                pre.errors@.len() <= self.errors@.len(),
                keeps_errs(pre, *self),
                spec_block(ts, pos0) == spec_block_tail(
                    ts,
                    crate::ast::spec_stmts_view(statements@),
                    self.current as int,
                    appended_errs(pre, *self),
                ),
            decreases self.tokens@.len() - self.current,
        {
            let ghost c0 = *self;
            let ghost v0 = statements@;
            let ghost acc0 = crate::ast::spec_stmts_view(statements@);
            match self.declaration() {
                Option::Some(stmt) => {
                    let ghost g_s = stmt@;
                    statements.push(stmt);
                    proof {
                        crate::ast::lemma_stmts_view(v0);
                        crate::ast::lemma_stmts_view(statements@);
                        assert(crate::ast::spec_stmts_view(statements@) =~= acc0.push(g_s));
                        lemma_errs_chain(pre, c0, *self);
                    }
                },
                Option::None => {
                    proof {
                        lemma_errs_chain(pre, c0, *self);
                    }
                },
            }
        }
        let ghost cend = *self;
        match self.consume(TokenType::RightBrace, "Expect '}' after block.") {
            Result::Ok(_) => {
                proof {
                    lemma_errs_chain(pre, cend, *self);
                    assert(appended_errs(cend, *self) =~= Seq::<SpecSyntaxError>::empty());
                    assert(appended_errs(pre, *self) =~= appended_errs(pre, cend));
                }
                Result::Ok(statements)
            },
            Result::Err(e) => {
                proof {
                    assert(cend.spec_at_end());
                    lemma_errs_chain(pre, cend, *self);
                    assert(appended_errs(cend, *self) =~= spec_err1(
                        ts[cend.current as int],
                        "Expect '}' after block."@,
                    ));
                }
                Result::Err(e)
            },
        }
    }

    /// A function declaration: name, parenthesized parameters (at most 255;
    /// more are reported, non-fatally), and a block body.
    #[verifier::rlimit(100)]
    #[verifier::spinoff_prover]
    #[verifier::loop_isolation(false)]
    fn function(&mut self) -> (r: Result<Stmt, ParseError>)
        requires
            old(self).ok(),
        ensures
            final(self).ok(),
            final(self).same_tokens(old(self)),
            old(self).current <= final(self).current,
            old(self).errors@.len() <= final(self).errors@.len(),
            keeps_errs(*old(self), *final(self)),
            spec_function(old(self).ts(), old(self).current as int) == stmt_result(
                *old(self),
                *final(self),
                r,
            ),
        decreases old(self).tokens@.len() - old(self).current, 21nat,
    {
        let ghost pre = *self;
        let ghost ts = pre.ts();
        let ghost pos0 = pre.current as int;
        let name = match self.consume(TokenType::Identifier, "Expect function name.") {
            Result::Ok(t) => t,
            Result::Err(e) => {
                proof {
                    assert(appended_errs(pre, *self) =~= spec_err1(
                        ts[pos0],
                        "Expect function name."@,
                    ));
                }
                return Result::Err(e);
            },
        };
        let ghost c1 = *self;
        match self.consume(TokenType::LeftParen, "Expect '(' after function name.") {
            Result::Ok(_) => (),
            Result::Err(e) => {
                proof {
                    assert(appended_errs(pre, *self) =~= spec_err1(
                        ts[c1.current as int],
                        "Expect '(' after function name."@,
                    ));
                }
                return Result::Err(e);
            },
        }
        let ghost c2 = *self;
        let mut params: Vec<Token> = Vec::new();
        let ghost mut g_params: SpecParse<Seq<SpecToken>> = SpecParse::Failed {
            pos: 0,
            errs: Seq::empty(),
        };
        if self.check(TokenType::RightParen) {
            proof {
                g_params = SpecParse::Parsed {
                    v: Seq::empty(),
                    pos: c2.current as int,
                    errs: Seq::empty(),
                };
                assert(crate::ast::spec_tokens_view(params@) =~= Seq::<SpecToken>::empty());
                assert(appended_errs(c2, *self) =~= Seq::<SpecSyntaxError>::empty());
            }
        } else {
            proof {
                assert(crate::ast::spec_tokens_view(params@) =~= Seq::<SpecToken>::empty());
                assert(appended_errs(c2, *self) =~= Seq::<SpecSyntaxError>::empty());
            }
            let comma_types: &[TokenType] = &[TokenType::Comma];
            loop
                invariant
                    self.ok(),
                    self.same_tokens(&pre),
                    c2.current <= self.current,
                    pre.errors@.len() <= c2.errors@.len(),
                    c2.errors@.len() <= self.errors@.len(),
                    keeps_errs(pre, c2),
                    keeps_errs(c2, *self),
                    spec_params_tail(ts, Seq::empty(), c2.current as int, Seq::empty())
                        == spec_params_tail(
                        ts,
                        crate::ast::spec_tokens_view(params@),
                        self.current as int,
                        appended_errs(c2, *self),
                    ),
                decreases self.tokens@.len() - self.current,
            {
                let ghost p0 = *self;
                let ghost acc0 = crate::ast::spec_tokens_view(params@);
                if params.len() >= 255 {
                    let t = self.peek();
                    self.error(t, "Cannot have more than 255 parameters.");
                }
                let ghost pa = *self;
                proof {
                    lemma_errs_chain(c2, p0, pa);
                    if params@.len() >= 255 {
                        assert(appended_errs(p0, pa) =~= spec_err1(
                            ts[p0.current as int],
                            "Cannot have more than 255 parameters."@,
                        ));
                    } else {
                        assert(appended_errs(p0, pa) =~= Seq::<SpecSyntaxError>::empty());
                    }
                }
                let param = match self.consume(TokenType::Identifier, "Expect parameter name.") {
                    Result::Ok(t) => t,
                    Result::Err(e) => {
                        proof {
                            lemma_errs_chain(c2, pa, *self);
                            assert(appended_errs(pa, *self) =~= spec_err1(
                                ts[p0.current as int],
                                "Expect parameter name."@,
                            ));
                            assert(appended_errs(c2, *self) =~= appended_errs(c2, p0)
                                + appended_errs(p0, pa) + spec_err1(
                                ts[p0.current as int],
                                "Expect parameter name."@,
                            ));
                            assert(spec_params_tail(ts, Seq::empty(), c2.current as int, Seq::empty())
                                == (SpecParse::Failed::<Seq<SpecToken>> {
                                pos: self.current as int,
                                errs: appended_errs(c2, *self),
                            }));
                            lemma_errs_chain(pre, c2, *self);
                            assert(appended_errs(pre, c2) =~= Seq::<SpecSyntaxError>::empty());
                            assert(appended_errs(pre, *self) =~= appended_errs(c2, *self));
                        }
                        return Result::Err(e);
                    },
                };
                let ghost g_p = param@;
                params.push(param);
                proof {
                    assert(crate::ast::spec_tokens_view(params@) =~= acc0.push(g_p));
                }
                let ghost pb = *self;
                if !self.match_token(comma_types) {
                    proof {
                        if !pb.spec_at_end() {
                            assert(ts[pb.current as int].token_type != TokenType::Comma);
                        }
                        lemma_errs_chain(c2, pa, pb);
                        assert(appended_errs(c2, *self) =~= appended_errs(c2, p0)
                            + appended_errs(p0, pa));
                        assert(spec_params_tail(ts, Seq::empty(), c2.current as int, Seq::empty())
                            == (SpecParse::Parsed::<Seq<SpecToken>> {
                            v: crate::ast::spec_tokens_view(params@),
                            pos: self.current as int,
                            errs: appended_errs(c2, *self),
                        }));
                        g_params = SpecParse::Parsed {
                            v: crate::ast::spec_tokens_view(params@),
                            pos: self.current as int,
                            errs: appended_errs(c2, *self),
                        };
                    }
                    break;
                }
                proof {
                    assert(ts[pb.current as int].token_type == TokenType::Comma);
                    lemma_errs_chain(c2, pa, pb);
                    lemma_errs_chain(c2, pb, *self);
                }
            }
        }
        let ghost c3 = *self;
        proof {
            if c2.spec_at_end() {
                assert(ts[c2.current as int].token_type != TokenType::RightParen);
            }
            assert(g_params == (SpecParse::Parsed::<Seq<SpecToken>> {
                v: crate::ast::spec_tokens_view(params@),
                pos: c3.current as int,
                errs: appended_errs(c2, c3),
            }));
        }
        match self.consume(TokenType::RightParen, "Expect ')' after parameters.") {
            Result::Ok(_) => (),
            Result::Err(e) => {
                proof {
                    lemma_errs_chain(pre, c3, *self);
                    assert(appended_errs(c3, *self) =~= spec_err1(
                        ts[c3.current as int],
                        "Expect ')' after parameters."@,
                    ));
                    lemma_errs_chain(pre, c2, c3);
                    assert(appended_errs(pre, c2) =~= Seq::<SpecSyntaxError>::empty());
                }
                return Result::Err(e);
            },
        }
        let ghost c4 = *self;
        match self.consume(TokenType::LeftBrace, "Expect '{' before function body.") {
            Result::Ok(_) => (),
            Result::Err(e) => {
                proof {
                    lemma_errs_chain(pre, c4, *self);
                    assert(appended_errs(c4, *self) =~= spec_err1(
                        ts[c4.current as int],
                        "Expect '{' before function body."@,
                    ));
                    lemma_errs_chain(pre, c2, c4);
                    assert(appended_errs(pre, c2) =~= Seq::<SpecSyntaxError>::empty());
                    assert(appended_errs(c2, c4) =~= appended_errs(c2, c3));
                }
                return Result::Err(e);
            },
        }
        let ghost c5 = *self;
        let sub_body = self.block();
        let ghost c6 = *self;
        proof {
            lemma_errs_chain(pre, c2, c5);
            assert(appended_errs(pre, c2) =~= Seq::<SpecSyntaxError>::empty());
            assert(appended_errs(c2, c5) =~= appended_errs(c2, c3));
            lemma_errs_chain(pre, c5, c6);
            assert(appended_errs(pre, c6) =~= appended_errs(c2, c3) + appended_errs(c5, c6));
        }
        match sub_body {
            Result::Ok(body) => {
                proof {
                    assert(spec_function(ts, pos0) == (SpecParse::Parsed::<SpecStmt> {
                        v: SpecStmt::Function {
                            function: SpecFun {
                                name: ts[pos0],
                                params: crate::ast::spec_tokens_view(params@),
                                body: crate::ast::spec_stmts_view(body@),
                            },
                        },
                        pos: c6.current as int,
                        errs: appended_errs(c2, c3) + appended_errs(c5, c6),
                    }));
                }
                let ghost g_n = name@;
                let ghost g_p = crate::ast::spec_tokens_view(params@);
                let ghost g_b = crate::ast::spec_stmts_view(body@);
                let fnode = LoxFunctionNode { name, params, body };
                proof {
                    assert(fnode@ == (SpecFun { name: g_n, params: g_p, body: g_b }));
                }
                let ghost g_f = fnode@;
                let node = Stmt::Function { function: Box::new(fnode) };
                proof {
                    assert(node@ == (SpecStmt::Function { function: g_f }));
                }
                Result::Ok(node)
            },
            Result::Err(e) => {
                proof {
                    assert(spec_function(ts, pos0) == (SpecParse::Failed::<SpecStmt> {
                        pos: c6.current as int,
                        errs: appended_errs(pre, c6),
                    }));
                }
                Result::Err(e)
            },
        }
    }

    /// Statement dispatch on the leading keyword; everything else is an
    /// expression statement.
    #[verifier::rlimit(100)]
    #[verifier::spinoff_prover]
    fn statement(&mut self) -> (r: Result<Stmt, ParseError>)
        requires
            old(self).ok(),
        ensures
            final(self).ok(),
            final(self).same_tokens(old(self)),
            old(self).current <= final(self).current,
            old(self).errors@.len() <= final(self).errors@.len(),
            keeps_errs(*old(self), *final(self)),
            r is Ok ==> final(self).current > old(self).current,
            spec_statement(old(self).ts(), old(self).current as int) == stmt_result(
                *old(self),
                *final(self),
                r,
            ),
        decreases old(self).tokens@.len() - old(self).current, 19nat,
    {
        let ghost pre = *self;
        let ghost ts = pre.ts();
        let ghost pos0 = pre.current as int;
        let if_types: &[TokenType] = &[TokenType::If];
        if self.match_token(if_types) {
            proof {
                assert(ts[pos0].token_type == TokenType::If);
            }
            return self.if_statement();
        }
        let print_types: &[TokenType] = &[TokenType::Print];
        if self.match_token(print_types) {
            proof {
                assert(ts[pos0].token_type == TokenType::Print);
            }
            return self.print_statement();
        }
        let return_types: &[TokenType] = &[TokenType::Return];
        if self.match_token(return_types) {
            proof {
                assert(ts[pos0].token_type == TokenType::Return);
            }
            return self.return_statement();
        }
        let brace_types: &[TokenType] = &[TokenType::LeftBrace];
        if self.match_token(brace_types) {
            proof {
                assert(ts[pos0].token_type == TokenType::LeftBrace);
            }
            return match self.block() {
                Result::Ok(statements) => Result::Ok(Stmt::Block { statements }),
                Result::Err(e) => Result::Err(e),
            };
        }
        let while_types: &[TokenType] = &[TokenType::While];
        if self.match_token(while_types) {
            proof {
                assert(ts[pos0].token_type == TokenType::While);
            }
            return self.while_statement();
        }
        let for_types: &[TokenType] = &[TokenType::For];
        if self.match_token(for_types) {
            proof {
                assert(ts[pos0].token_type == TokenType::For);
            }
            return self.for_statement();
        }
        proof {
            if !pre.spec_at_end() {
                assert(ts[pos0].token_type != TokenType::If);
                assert(ts[pos0].token_type != TokenType::Print);
                assert(ts[pos0].token_type != TokenType::Return);
                assert(ts[pos0].token_type != TokenType::LeftBrace);
                assert(ts[pos0].token_type != TokenType::While);
                assert(ts[pos0].token_type != TokenType::For);
            }
        }
        self.expression_statement()
    }

    /// Parse one declaration; on a syntax error, keep its diagnostics,
    /// resynchronize at the next statement boundary, and yield nothing, so
    /// the following declarations still parse.
    #[verifier::rlimit(100)]
    #[verifier::spinoff_prover]
    fn declaration(&mut self) -> (r: Option<Stmt>)
        requires
            old(self).ok(),
            !old(self).spec_at_end(),
        ensures
            final(self).ok(),
            final(self).same_tokens(old(self)),
            final(self).current > old(self).current,
            old(self).errors@.len() <= final(self).errors@.len(),
            keeps_errs(*old(self), *final(self)),
            spec_declaration(old(self).ts(), old(self).current as int) == (SpecDecl {
                v: match r {
                    Option::Some(s) => Option::Some(s@),
                    Option::None => Option::None,
                },
                pos: final(self).current as int,
                errs: appended_errs(*old(self), *final(self)),
            }),
        decreases old(self).tokens@.len() - old(self).current, 22nat,
    {
        let ghost pre = *self;
        let ghost ts = pre.ts();
        let ghost pos0 = pre.current as int;
        let var_types: &[TokenType] = &[TokenType::Var];
        if self.match_token(var_types) {
            proof {
                assert(ts[pos0].token_type == TokenType::Var);
            }
            let ghost cm = *self;
            let sub = self.var_declaration();
            let ghost c1 = *self;
            proof {
                lemma_errs_chain(pre, cm, c1);
                assert(appended_errs(pre, cm) =~= Seq::<SpecSyntaxError>::empty());
                assert(appended_errs(pre, c1) =~= appended_errs(cm, c1));
            }
            match sub {
                Result::Ok(stmt) => {
                    return Option::Some(stmt);
                },
                Result::Err(_) => {
                    self.synchronize();
                    proof {
                        lemma_errs_chain(pre, c1, *self);
                        assert(appended_errs(c1, *self) =~= Seq::<SpecSyntaxError>::empty());
                        assert(appended_errs(pre, *self) =~= appended_errs(pre, c1));
                    }
                    return Option::None;
                },
            }
        }
        let fun_types: &[TokenType] = &[TokenType::Fun];
        if self.match_token(fun_types) {
            proof {
                assert(ts[pos0].token_type == TokenType::Fun);
            }
            let ghost cm = *self;
            let sub = self.function();
            let ghost c1 = *self;
            proof {
                lemma_errs_chain(pre, cm, c1);
                assert(appended_errs(pre, cm) =~= Seq::<SpecSyntaxError>::empty());
                assert(appended_errs(pre, c1) =~= appended_errs(cm, c1));
            }
            match sub {
                Result::Ok(stmt) => {
                    return Option::Some(stmt);
                },
                Result::Err(_) => {
                    self.synchronize();
                    proof {
                        lemma_errs_chain(pre, c1, *self);
                        assert(appended_errs(c1, *self) =~= Seq::<SpecSyntaxError>::empty());
                        assert(appended_errs(pre, *self) =~= appended_errs(pre, c1));
                    }
                    return Option::None;
                },
            }
        }
        proof {
            assert(ts[pos0].token_type != TokenType::Var);
            assert(ts[pos0].token_type != TokenType::Fun);
        }
        let sub = self.statement();
        let ghost c1 = *self;
        match sub {
            Result::Ok(stmt) => Option::Some(stmt),
            Result::Err(_) => {
                proof {
                    if self.current == pre.current {
                        assert(!self.spec_at_end());
                    }
                }
                self.synchronize();
                proof {
                    lemma_errs_chain(pre, c1, *self);
                    assert(appended_errs(c1, *self) =~= Seq::<SpecSyntaxError>::empty());
                    assert(appended_errs(pre, *self) =~= appended_errs(pre, c1));
                }
                Option::None
            },
        }
    }

    /// Parse the whole stream: the source-order statements of every
    /// declaration that parses; the broken ones are reported, skipped past
    /// their next statement boundary, and the rest of the stream is still
    /// parsed. A program with any recorded diagnostic must not be executed.
    #[verifier::rlimit(100)]
    #[verifier::spinoff_prover]
    #[verifier::loop_isolation(false)]
    pub fn parse(&mut self) -> (r: Vec<Stmt>)
        requires
            old(self).ok(),
        ensures
            final(self).ok(),
            final(self).same_tokens(old(self)),
            old(self).errors@.len() <= final(self).errors@.len(),
            keeps_errs(*old(self), *final(self)),
            spec_parse_program(old(self).ts(), old(self).current as int) == (SpecProgram {
                stmts: crate::ast::spec_stmts_view(r@),
                pos: final(self).current as int,
                errs: appended_errs(*old(self), *final(self)),
            }),
    {
        let ghost pre = *self;
        let ghost ts = pre.ts();
        let ghost pos0 = pre.current as int;
        let mut statements: Vec<Stmt> = Vec::new();
        proof {
            crate::ast::lemma_stmts_view(statements@);
            assert(crate::ast::spec_stmts_view(statements@) =~= Seq::<SpecStmt>::empty());
            assert(appended_errs(pre, *self) =~= Seq::<SpecSyntaxError>::empty());
            assert(Seq::<SpecStmt>::empty() + spec_parse_program(ts, pos0).stmts
                =~= spec_parse_program(ts, pos0).stmts);
            assert(Seq::<SpecSyntaxError>::empty() + spec_parse_program(ts, pos0).errs
                =~= spec_parse_program(ts, pos0).errs);
        }
        while !self.is_at_end()
            invariant
                self.ok(),
                self.same_tokens(&pre),
                pre.current <= self.current,
                pre.errors@.len() <= self.errors@.len(),
                keeps_errs(pre, *self),
                spec_parse_program(ts, pos0).stmts == crate::ast::spec_stmts_view(statements@)
                    + spec_parse_program(ts, self.current as int).stmts,
                spec_parse_program(ts, pos0).pos == spec_parse_program(
                    ts,
                    self.current as int,
                ).pos,
                spec_parse_program(ts, pos0).errs == appended_errs(pre, *self)
                    + spec_parse_program(ts, self.current as int).errs,
            decreases self.tokens@.len() - self.current,
        {
            let ghost c0 = *self;
            let ghost v0 = statements@;
            let ghost acc0 = crate::ast::spec_stmts_view(statements@);
            let ghost d0 = spec_declaration(ts, c0.current as int);
            match self.declaration() {
                Option::Some(stmt) => {
                    let ghost g_s = stmt@;
                    statements.push(stmt);
                    proof {
                        crate::ast::lemma_stmts_view(v0);
                        crate::ast::lemma_stmts_view(statements@);
                        assert(crate::ast::spec_stmts_view(statements@) =~= acc0.push(g_s));
                        lemma_errs_chain(pre, c0, *self);
                        lemma_program_step(ts, c0.current as int, d0);
                        assert(acc0 + (seq![g_s] + spec_parse_program(
                            ts,
                            self.current as int,
                        ).stmts) =~= acc0.push(g_s) + spec_parse_program(
                            ts,
                            self.current as int,
                        ).stmts);
                        assert(appended_errs(pre, c0) + (appended_errs(c0, *self)
                            + spec_parse_program(ts, self.current as int).errs) =~= appended_errs(
                            pre,
                            *self,
                        ) + spec_parse_program(ts, self.current as int).errs);
                    }
                },
                Option::None => {
                    proof {
                        lemma_errs_chain(pre, c0, *self);
                        lemma_program_step(ts, c0.current as int, d0);
                        assert(acc0 + (Seq::<SpecStmt>::empty() + spec_parse_program(
                            ts,
                            self.current as int,
                        ).stmts) =~= acc0 + spec_parse_program(ts, self.current as int).stmts);
                        assert(appended_errs(pre, c0) + (appended_errs(c0, *self)
                            + spec_parse_program(ts, self.current as int).errs) =~= appended_errs(
                            pre,
                            *self,
                        ) + spec_parse_program(ts, self.current as int).errs);
                    }
                },
            }
        }
        proof {
            assert(crate::ast::spec_stmts_view(statements@) + Seq::<SpecStmt>::empty()
                =~= crate::ast::spec_stmts_view(statements@));
            assert(appended_errs(pre, *self) + Seq::<SpecSyntaxError>::empty() =~= appended_errs(
                pre,
                *self,
            ));
        }
        statements
    }
}

} // verus!
