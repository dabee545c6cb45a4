//! The abstract syntax tree: expressions, statements, and their
//! mathematical views.
use vstd::prelude::*;
use crate::token::Literal;
use crate::token::SpecLiteral;
use crate::token::SpecToken;
use crate::token::Token;

verus! {

/// An expression node. Each node owns its sub-expressions exclusively.
pub enum Expr {
    Literal { value: Literal },
    Grouping { expression: Box<Expr> },
    Unary { operator: Token, right: Box<Expr> },
    Binary { left: Box<Expr>, operator: Token, right: Box<Expr> },
    Logical { left: Box<Expr>, operator: Token, right: Box<Expr> },
    Variable { name: Token },
    Assign { name: Token, value: Box<Expr> },
    Call { callee: Box<Expr>, paren: Token, arguments: Vec<Expr> },
}

/// A statement node.
pub enum Stmt {
    Expression { expression: Box<Expr> },
    Print { expression: Box<Expr> },
    Return { keyword: Token, value: Box<Expr> },
    Var { name: Token, initializer: Option<Box<Expr>> },
    Block { statements: Vec<Stmt> },
    If { condition: Box<Expr>, then_branch: Box<Stmt>, else_branch: Option<Box<Stmt>> },
    While { condition: Box<Expr>, body: Box<Stmt> },
    Function { function: Box<LoxFunctionNode> },
}

/// A function declaration: its name, parameter list and body.
pub struct LoxFunctionNode {
    pub name: Token,
    pub params: Vec<Token>,
    pub body: Vec<Stmt>,
}

/// Mathematical view of an `Expr`.
#[verifier::ext_equal]
pub enum SpecExpr {
    Literal { value: SpecLiteral },
    Grouping { expression: Box<SpecExpr> },
    Unary { operator: SpecToken, right: Box<SpecExpr> },
    Binary { left: Box<SpecExpr>, operator: SpecToken, right: Box<SpecExpr> },
    Logical { left: Box<SpecExpr>, operator: SpecToken, right: Box<SpecExpr> },
    Variable { name: SpecToken },
    Assign { name: SpecToken, value: Box<SpecExpr> },
    Call { callee: Box<SpecExpr>, paren: SpecToken, arguments: Seq<SpecExpr> },
}

/// Mathematical view of a `Stmt`.
#[verifier::ext_equal]
pub enum SpecStmt {
    Expression { expression: Box<SpecExpr> },
    Print { expression: Box<SpecExpr> },
    Return { keyword: SpecToken, value: Box<SpecExpr> },
    Var { name: SpecToken, initializer: Option<Box<SpecExpr>> },
    Block { statements: Seq<SpecStmt> },
    If { condition: Box<SpecExpr>, then_branch: Box<SpecStmt>, else_branch: Option<Box<SpecStmt>> },
    While { condition: Box<SpecExpr>, body: Box<SpecStmt> },
    Function { function: SpecFun },
}

/// Mathematical view of a `LoxFunctionNode`.
#[verifier::ext_equal]
pub struct SpecFun {
    pub name: SpecToken,
    pub params: Seq<SpecToken>,
    pub body: Seq<SpecStmt>,
}

/// View of a parameter list.
pub open spec fn spec_tokens_view(s: Seq<Token>) -> Seq<SpecToken> {
    Seq::new(s.len(), |i: int| s[i]@)
}

pub open spec fn spec_expr_view(e: Expr) -> SpecExpr
    decreases e,
{
    match e {
        Expr::Literal { value } => SpecExpr::Literal { value: value@ },
        Expr::Grouping { expression } => SpecExpr::Grouping {
            expression: Box::new(spec_expr_view(*expression)),
        },
        Expr::Unary { operator, right } => SpecExpr::Unary {
            operator: operator@,
            right: Box::new(spec_expr_view(*right)),
        },
        Expr::Binary { left, operator, right } => SpecExpr::Binary {
            left: Box::new(spec_expr_view(*left)),
            operator: operator@,
            right: Box::new(spec_expr_view(*right)),
        },
        Expr::Logical { left, operator, right } => SpecExpr::Logical {
            left: Box::new(spec_expr_view(*left)),
            operator: operator@,
            right: Box::new(spec_expr_view(*right)),
        },
        Expr::Variable { name } => SpecExpr::Variable { name: name@ },
        Expr::Assign { name, value } => SpecExpr::Assign {
            name: name@,
            value: Box::new(spec_expr_view(*value)),
        },
        Expr::Call { callee, paren, arguments } => SpecExpr::Call {
            callee: Box::new(spec_expr_view(*callee)),
            paren: paren@,
            arguments: spec_exprs_view(arguments@),
        },
    }
}

/// View of a list of expressions, such as a call's arguments.
pub open spec fn spec_exprs_view(s: Seq<Expr>) -> Seq<SpecExpr>
    decreases s,
{
    if s.len() == 0 {
        Seq::empty()
    } else {
        seq![spec_expr_view(s[0])] + spec_exprs_view(s.drop_first())
    }
}

pub open spec fn spec_stmt_view(s: Stmt) -> SpecStmt
    decreases s,
{
    match s {
        Stmt::Expression { expression } => SpecStmt::Expression {
            expression: Box::new(spec_expr_view(*expression)),
        },
        Stmt::Print { expression } => SpecStmt::Print {
            expression: Box::new(spec_expr_view(*expression)),
        },
        Stmt::Return { keyword, value } => SpecStmt::Return {
            keyword: keyword@,
            value: Box::new(spec_expr_view(*value)),
        },
        Stmt::Var { name, initializer } => SpecStmt::Var {
            name: name@,
            initializer: match initializer {
                Option::Some(e) => Option::Some(Box::new(spec_expr_view(*e))),
                Option::None => Option::None,
            },
        },
        Stmt::Block { statements } => SpecStmt::Block {
            statements: spec_stmts_view(statements@),
        },
        Stmt::If { condition, then_branch, else_branch } => SpecStmt::If {
            condition: Box::new(spec_expr_view(*condition)),
            then_branch: Box::new(spec_stmt_view(*then_branch)),
            else_branch: match else_branch {
                Option::Some(s) => Option::Some(Box::new(spec_stmt_view(*s))),
                Option::None => Option::None,
            },
        },
        Stmt::While { condition, body } => SpecStmt::While {
            condition: Box::new(spec_expr_view(*condition)),
            body: Box::new(spec_stmt_view(*body)),
        },
        Stmt::Function { function } => SpecStmt::Function { function: spec_fun_view(*function) },
    }
}

/// View of a list of statements, such as a block's contents or a whole program.
pub open spec fn spec_stmts_view(s: Seq<Stmt>) -> Seq<SpecStmt>
    decreases s,
{
    if s.len() == 0 {
        Seq::empty()
    } else {
        seq![spec_stmt_view(s[0])] + spec_stmts_view(s.drop_first())
    }
}

pub open spec fn spec_fun_view(f: LoxFunctionNode) -> SpecFun
    decreases f,
{
    SpecFun {
        name: f.name@,
        params: spec_tokens_view(f.params@),
        body: spec_stmts_view(f.body@),
    }
}

/// A list of expressions views elementwise.
pub broadcast proof fn lemma_exprs_view(s: Seq<Expr>)
    ensures
        (#[trigger] spec_exprs_view(s)).len() == s.len(),
        forall|i: int| 0 <= i < s.len() ==> #[trigger] spec_exprs_view(s)[i] == spec_expr_view(
            s[i],
        ),
    decreases s.len(),
{
    if s.len() > 0 {
        lemma_exprs_view(s.drop_first());
        assert forall|i: int| 0 <= i < s.len() implies #[trigger] spec_exprs_view(s)[i]
            == spec_expr_view(s[i]) by {
            if i > 0 {
                assert(spec_exprs_view(s)[i] == spec_exprs_view(s.drop_first())[i - 1]);
                assert(s.drop_first()[i - 1] == s[i]);
            }
        }
    }
}

/// A list of statements views elementwise.
pub broadcast proof fn lemma_stmts_view(s: Seq<Stmt>)
    ensures
        (#[trigger] spec_stmts_view(s)).len() == s.len(),
        forall|i: int| 0 <= i < s.len() ==> #[trigger] spec_stmts_view(s)[i] == spec_stmt_view(
            s[i],
        ),
    decreases s.len(),
{
    if s.len() > 0 {
        lemma_stmts_view(s.drop_first());
        assert forall|i: int| 0 <= i < s.len() implies #[trigger] spec_stmts_view(s)[i]
            == spec_stmt_view(s[i]) by {
            if i > 0 {
                assert(spec_stmts_view(s)[i] == spec_stmts_view(s.drop_first())[i - 1]);
                assert(s.drop_first()[i - 1] == s[i]);
            }
        }
    }
}

impl View for Expr {
    type V = SpecExpr;

    open spec fn view(&self) -> SpecExpr {
        spec_expr_view(*self)
    }
}

impl View for Stmt {
    type V = SpecStmt;

    open spec fn view(&self) -> SpecStmt {
        spec_stmt_view(*self)
    }
}

impl View for LoxFunctionNode {
    type V = SpecFun;

    open spec fn view(&self) -> SpecFun {
        spec_fun_view(*self)
    }
}

impl Clone for Expr {
    #[verifier::loop_isolation(false)]
    fn clone(&self) -> (r: Expr)
        ensures
            r@ == self@,
        decreases *self,
    {
        match self {
            Expr::Literal { value } => Expr::Literal { value: value.clone() },
            Expr::Grouping { expression } => Expr::Grouping {
                expression: Box::new((**expression).clone()),
            },
            Expr::Unary { operator, right } => Expr::Unary {
                operator: operator.clone(),
                right: Box::new((**right).clone()),
            },
            Expr::Binary { left, operator, right } => Expr::Binary {
                left: Box::new((**left).clone()),
                operator: operator.clone(),
                right: Box::new((**right).clone()),
            },
            Expr::Logical { left, operator, right } => Expr::Logical {
                left: Box::new((**left).clone()),
                operator: operator.clone(),
                right: Box::new((**right).clone()),
            },
            Expr::Variable { name } => Expr::Variable { name: name.clone() },
            Expr::Assign { name, value } => Expr::Assign {
                name: name.clone(),
                value: Box::new((**value).clone()),
            },
            Expr::Call { callee, paren, arguments } => {
                let cloned_callee = Box::new((**callee).clone());
                let cloned_paren = paren.clone();
                let mut cloned_args: Vec<Expr> = Vec::new();
                let mut i: usize = 0;
                while i < arguments.len()
                    invariant
                        i <= arguments.len(),
                        cloned_args@.len() == i as int,
                        forall|j: int|
                            0 <= j < i as int ==> #[trigger] spec_expr_view(cloned_args@[j])
                                == spec_expr_view(arguments@[j]),
                    decreases arguments.len() - i,
                {
                    proof {
                        vstd::std_specs::vec::axiom_vec_index_decreases(*arguments, i as int);
                        assert(decreases_to!(*self => *arguments));
                    }
                    cloned_args.push(arguments[i].clone());
                    i = i + 1;
                }
                proof {
                    lemma_exprs_view(cloned_args@);
                    lemma_exprs_view(arguments@);
                    assert(spec_exprs_view(cloned_args@) =~= spec_exprs_view(arguments@));
                }
                Expr::Call { callee: cloned_callee, paren: cloned_paren, arguments: cloned_args }
            },
        }
    }
}

impl Clone for Stmt {
    #[verifier::loop_isolation(false)]
    fn clone(&self) -> (r: Stmt)
        ensures
            r@ == self@,
        decreases *self,
    {
        match self {
            Stmt::Expression { expression } => Stmt::Expression {
                expression: Box::new((**expression).clone()),
            },
            Stmt::Print { expression } => Stmt::Print {
                expression: Box::new((**expression).clone()),
            },
            Stmt::Return { keyword, value } => Stmt::Return {
                keyword: keyword.clone(),
                value: Box::new((**value).clone()),
            },
            Stmt::Var { name, initializer } => Stmt::Var {
                name: name.clone(),
                initializer: match initializer {
                    Option::Some(e) => Option::Some(Box::new((**e).clone())),
                    Option::None => Option::None,
                },
            },
            Stmt::Block { statements } => {
                let mut cloned: Vec<Stmt> = Vec::new();
                let mut i: usize = 0;
                while i < statements.len()
                    invariant
                        i <= statements.len(),
                        cloned@.len() == i as int,
                        forall|j: int|
                            0 <= j < i as int ==> #[trigger] spec_stmt_view(cloned@[j])
                                == spec_stmt_view(statements@[j]),
                    decreases statements.len() - i,
                {
                    proof {
                        vstd::std_specs::vec::axiom_vec_index_decreases(*statements, i as int);
                        assert(decreases_to!(*self => *statements));
                    }
                    cloned.push(statements[i].clone());
                    i = i + 1;
                }
                proof {
                    lemma_stmts_view(cloned@);
                    lemma_stmts_view(statements@);
                    assert(spec_stmts_view(cloned@) =~= spec_stmts_view(statements@));
                }
                Stmt::Block { statements: cloned }
            },
            Stmt::If { condition, then_branch, else_branch } => Stmt::If {
                condition: Box::new((**condition).clone()),
                then_branch: Box::new((**then_branch).clone()),
                else_branch: match else_branch {
                    Option::Some(s) => Option::Some(Box::new((**s).clone())),
                    Option::None => Option::None,
                },
            },
            Stmt::While { condition, body } => Stmt::While {
                condition: Box::new((**condition).clone()),
                body: Box::new((**body).clone()),
            },
            Stmt::Function { function } => Stmt::Function {
                function: Box::new((**function).clone()),
            },
        }
    }
}

impl Clone for LoxFunctionNode {
    #[verifier::loop_isolation(false)]
    fn clone(&self) -> (r: LoxFunctionNode)
        ensures
            r@ == self@,
        decreases *self,
    {
        let cloned_name = self.name.clone();
        let mut cloned_params: Vec<Token> = Vec::new();
        let mut i: usize = 0;
        while i < self.params.len()
            invariant
                i <= self.params.len(),
                cloned_params@.len() == i as int,
                forall|j: int|
                    0 <= j < i as int ==> #[trigger] cloned_params@[j]@ == self.params@[j]@,
            decreases self.params.len() - i,
        {
            cloned_params.push(self.params[i].clone());
            i = i + 1;
        }
        let mut cloned_body: Vec<Stmt> = Vec::new();
        let mut k: usize = 0;
        while k < self.body.len()
            invariant
                k <= self.body.len(),
                cloned_body@.len() == k as int,
                forall|j: int|
                    0 <= j < k as int ==> #[trigger] spec_stmt_view(cloned_body@[j])
                        == spec_stmt_view(self.body@[j]),
            decreases self.body.len() - k,
        {
            proof {
                vstd::std_specs::vec::axiom_vec_index_decreases(self.body, k as int);
                assert(decreases_to!(*self => self.body));
            }
            cloned_body.push(self.body[k].clone());
            k = k + 1;
        }
        proof {
            assert(spec_tokens_view(cloned_params@) =~= spec_tokens_view(self.params@));
            lemma_stmts_view(cloned_body@);
            lemma_stmts_view(self.body@);
            assert(spec_stmts_view(cloned_body@) =~= spec_stmts_view(self.body@));
        }
        LoxFunctionNode { name: cloned_name, params: cloned_params, body: cloned_body }
    }
}

} // verus!
