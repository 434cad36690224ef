//! The syntax tree, and for each of its types the mathematical value that
//! the contracts speak of.

use crate::error::{Error, ErrorView};
use crate::token::TokenKind;
use vstd::prelude::*;

verus! {

/// A type reference with its generic arguments, such as `List<Int>`.
#[derive(Debug, PartialEq, Eq)]
pub struct Type {
    pub name: String,
    pub generics: Vec<Type>,
}

/// A literal. A float keeps the text it was written with.
#[derive(Debug, PartialEq, Eq)]
pub enum Lit {
    Int(usize),
    Float(String),
    Str(String),
}

/// An expression. Every node owns its operands.
#[derive(Debug, PartialEq, Eq)]
pub enum Expr {
    Literal(Lit),
    Ident(String),
    FnCall { name: String, args: Vec<Expr> },
    PrefixOp { op: TokenKind, operand: Box<Expr> },
    InfixOp { op: TokenKind, lhs: Box<Expr>, rhs: Box<Expr> },
    PostfixOp { op: TokenKind, operand: Box<Expr> },
}

/// A statement. One that could not be made out is an `Error`, which
/// carries the diagnostic.
#[derive(Debug, PartialEq, Eq)]
pub enum Stmt {
    Let { var_name: String, value: Expr },
    Assignment { var_name: String, value: Expr },
    IfStmt { condition: Expr, body: Vec<Stmt>, else_branch: Option<Box<Stmt>> },
    Block { stmts: Vec<Stmt> },
    Error(Error),
}

/// A top-level item. One that could not be made out is an `Error`,
/// which carries the diagnostic.
#[derive(Debug, PartialEq, Eq)]
#[allow(inconsistent_fields)]
pub enum Item {
    Struct { name: Type, members: Vec<(String, Type)> },
    Function { name: String, parameters: Vec<(String, Type)>, body: Vec<Stmt> },
    Error(Error),
}

/// The mathematical value of a [`Type`].
pub struct TypeView {
    pub name: Seq<char>,
    pub generics: Seq<TypeView>,
}

/// The mathematical value of a [`Lit`].
pub enum LitView {
    Int(nat),
    Float(Seq<char>),
    Str(Seq<char>),
}

/// The mathematical value of an [`Expr`].
pub enum ExprView {
    Literal(LitView),
    Ident(Seq<char>),
    FnCall { name: Seq<char>, args: Seq<ExprView> },
    PrefixOp { op: TokenKind, operand: Box<ExprView> },
    InfixOp { op: TokenKind, lhs: Box<ExprView>, rhs: Box<ExprView> },
    PostfixOp { op: TokenKind, operand: Box<ExprView> },
}

/// The mathematical value of a [`Stmt`].
pub enum StmtView {
    Let { var_name: Seq<char>, value: ExprView },
    Assignment { var_name: Seq<char>, value: ExprView },
    IfStmt { condition: ExprView, body: Seq<StmtView>, else_branch: Option<Box<StmtView>> },
    Block { stmts: Seq<StmtView> },
    Error(ErrorView),
}

/// The mathematical value of an [`Item`].
#[allow(inconsistent_fields)]
pub enum ItemView {
    Struct { name: TypeView, members: Seq<(Seq<char>, TypeView)> },
    Function { name: Seq<char>, parameters: Seq<(Seq<char>, TypeView)>, body: Seq<StmtView> },
    Error(ErrorView),
}

/// The value of a type: its name, and the values of its arguments.
pub open spec fn type_view(t: Type) -> TypeView
    decreases t,
{
    TypeView {
        name: t.name@,
        generics: Seq::new(
            t.generics@.len(),
            |i: int|
                if 0 <= i < t.generics@.len() {
                    type_view(t.generics@[i])
                } else {
                    arbitrary()
                },
        ),
    }
}

/// The value of an expression: the values of its parts.
pub open spec fn expr_view(e: Expr) -> ExprView
    decreases e,
{
    match e {
        Expr::Literal(lit) => ExprView::Literal(lit@),
        Expr::Ident(name) => ExprView::Ident(name@),
        Expr::FnCall { name, args } => ExprView::FnCall {
            name: name@,
            args: Seq::new(
                args@.len(),
                |i: int|
                    if 0 <= i < args@.len() {
                        expr_view(args@[i])
                    } else {
                        arbitrary()
                    },
            ),
        },
        Expr::PrefixOp { op, operand } => ExprView::PrefixOp {
            op,
            operand: Box::new(expr_view(*operand)),
        },
        Expr::InfixOp { op, lhs, rhs } => ExprView::InfixOp {
            op,
            lhs: Box::new(expr_view(*lhs)),
            rhs: Box::new(expr_view(*rhs)),
        },
        Expr::PostfixOp { op, operand } => ExprView::PostfixOp {
            op,
            operand: Box::new(expr_view(*operand)),
        },
    }
}

/// The value of a statement: the values of its parts.
pub open spec fn stmt_view(s: Stmt) -> StmtView
    decreases s,
{
    match s {
        Stmt::Let { var_name, value } => StmtView::Let { var_name: var_name@, value: value@ },
        Stmt::Assignment { var_name, value } => StmtView::Assignment {
            var_name: var_name@,
            value: value@,
        },
        Stmt::IfStmt { condition, body, else_branch } => StmtView::IfStmt {
            condition: condition@,
            body: Seq::new(
                body@.len(),
                |i: int|
                    if 0 <= i < body@.len() {
                        stmt_view(body@[i])
                    } else {
                        arbitrary()
                    },
            ),
            else_branch: match else_branch {
                Some(stmt) => Some(Box::new(stmt_view(*stmt))),
                None => None,
            },
        },
        Stmt::Block { stmts } => StmtView::Block {
            stmts: Seq::new(
                stmts@.len(),
                |i: int|
                    if 0 <= i < stmts@.len() {
                        stmt_view(stmts@[i])
                    } else {
                        arbitrary()
                    },
            ),
        },
        Stmt::Error(error) => StmtView::Error(error@),
    }
}

impl View for Type {
    type V = TypeView;

    open spec fn view(&self) -> TypeView {
        type_view(*self)
    }
}

impl View for Lit {
    type V = LitView;

    open spec fn view(&self) -> LitView {
        match self {
            Lit::Int(value) => LitView::Int(*value as nat),
            Lit::Float(text) => LitView::Float(text@),
            Lit::Str(text) => LitView::Str(text@),
        }
    }
}

impl View for Expr {
    type V = ExprView;

    open spec fn view(&self) -> ExprView {
        expr_view(*self)
    }
}

impl View for Stmt {
    type V = StmtView;

    open spec fn view(&self) -> StmtView {
        stmt_view(*self)
    }
}

/// The values of a list of types.
pub open spec fn types_view(types: Seq<Type>) -> Seq<TypeView> {
    Seq::new(types.len(), |i: int| types[i]@)
}

/// The values of a list of expressions.
pub open spec fn exprs_view(exprs: Seq<Expr>) -> Seq<ExprView> {
    Seq::new(exprs.len(), |i: int| exprs[i]@)
}

/// The values of a list of statements.
pub open spec fn stmts_view(stmts: Seq<Stmt>) -> Seq<StmtView> {
    Seq::new(stmts.len(), |i: int| stmts[i]@)
}

/// The values of a list of fields or parameters: a name and a type each.
pub open spec fn fields_view(fields: Seq<(String, Type)>) -> Seq<(Seq<char>, TypeView)> {
    Seq::new(fields.len(), |i: int| (fields[i].0@, fields[i].1@))
}

/// The values of a list of items.
pub open spec fn items_view(items: Seq<Item>) -> Seq<ItemView> {
    Seq::new(items.len(), |i: int| items[i]@)
}

/// The values of a list of diagnostics.
pub open spec fn errors_view(errors: Seq<Error>) -> Seq<ErrorView> {
    Seq::new(errors.len(), |i: int| errors[i]@)
}

impl View for Item {
    type V = ItemView;

    open spec fn view(&self) -> ItemView {
        match self {
            Item::Struct { name, members } => ItemView::Struct {
                name: name@,
                members: fields_view(members@),
            },
            Item::Function { name, parameters, body } => ItemView::Function {
                name: name@,
                parameters: fields_view(parameters@),
                body: stmts_view(body@),
            },
            Item::Error(error) => ItemView::Error(error@),
        }
    }
}

/// The value of a type is its name and the values of its arguments.
pub proof fn lemma_type_view(t: Type)
    ensures
        t@ == (TypeView { name: t.name@, generics: types_view(t.generics@) }),
{
    assert(t@.generics =~= types_view(t.generics@));
}

/// The value of a call is its name and the values of its arguments.
pub proof fn lemma_call_view(name: String, args: Vec<Expr>)
    ensures
        (Expr::FnCall { name, args })@ == (ExprView::FnCall {
            name: name@,
            args: exprs_view(args@),
        }),
{
    assert((Expr::FnCall { name, args })@->FnCall_args =~= exprs_view(args@));
}

/// The value of a block is the values of its statements.
pub proof fn lemma_block_view(stmts: Vec<Stmt>)
    ensures
        (Stmt::Block { stmts })@ == (StmtView::Block { stmts: stmts_view(stmts@) }),
{
    assert((Stmt::Block { stmts })@->Block_stmts =~= stmts_view(stmts@));
}

/// The value of an `if` is the values of its parts.
pub proof fn lemma_if_view(condition: Expr, body: Vec<Stmt>, else_branch: Option<Box<Stmt>>)
    ensures
        (Stmt::IfStmt { condition, body, else_branch })@ == (StmtView::IfStmt {
            condition: condition@,
            body: stmts_view(body@),
            else_branch: match else_branch {
                Some(stmt) => Some(Box::new(stmt@)),
                None => None,
            },
        }),
{
    assert((Stmt::IfStmt { condition, body, else_branch })@->IfStmt_body =~= stmts_view(body@));
}

impl Clone for Type {
    fn clone(&self) -> (copy: Self)
        ensures
            copy@ == self@,
        decreases self,
    {
        let mut generics: Vec<Type> = Vec::new();
        let mut i: usize = 0;
        while i < self.generics.len()
            invariant
                i <= self.generics.len(),
                generics@.len() == i,
                forall|k: int| 0 <= k < i ==> generics@[k]@ == self.generics@[k]@,
            decreases self.generics.len() - i,
        {
            let copy = self.generics[i].clone();
            generics.push(copy);
            i = i + 1;
        }
        let copy = Type { name: self.name.clone(), generics };
        proof {
            lemma_type_view(copy);
            lemma_type_view(*self);
            assert(types_view(copy.generics@) =~= types_view(self.generics@));
        }
        copy
    }
}

impl Clone for Lit {
    fn clone(&self) -> (copy: Self)
        ensures
            copy@ == self@,
    {
        match self {
            Lit::Int(value) => Lit::Int(*value),
            Lit::Float(text) => Lit::Float(text.clone()),
            Lit::Str(text) => Lit::Str(text.clone()),
        }
    }
}

/// Copies a list of expressions.
fn clone_exprs(exprs: &Vec<Expr>) -> (copies: Vec<Expr>)
    ensures
        exprs_view(copies@) == exprs_view(exprs@),
    decreases exprs,
{
    let mut copies: Vec<Expr> = Vec::new();
    let mut i: usize = 0;
    while i < exprs.len()
        invariant
            i <= exprs.len(),
            copies@.len() == i,
            forall|k: int| 0 <= k < i ==> copies@[k]@ == exprs@[k]@,
        decreases exprs.len() - i,
    {
        let copy = exprs[i].clone();
        copies.push(copy);
        i = i + 1;
    }
    assert(exprs_view(copies@) =~= exprs_view(exprs@));
    copies
}

impl Clone for Expr {
    fn clone(&self) -> (copy: Self)
        ensures
            copy@ == self@,
        decreases self,
    {
        match self {
            Expr::Literal(lit) => Expr::Literal(lit.clone()),
            Expr::Ident(name) => Expr::Ident(name.clone()),
            Expr::FnCall { name, args } => {
                let copies = clone_exprs(args);
                let name = name.clone();
                proof {
                    lemma_call_view(name, copies);
                    lemma_call_view(name, *args);
                }
                Expr::FnCall { name, args: copies }
            },
            Expr::PrefixOp { op, operand } => Expr::PrefixOp {
                op: *op,
                operand: Box::new((**operand).clone()),
            },
            Expr::InfixOp { op, lhs, rhs } => Expr::InfixOp {
                op: *op,
                lhs: Box::new((**lhs).clone()),
                rhs: Box::new((**rhs).clone()),
            },
            Expr::PostfixOp { op, operand } => Expr::PostfixOp {
                op: *op,
                operand: Box::new((**operand).clone()),
            },
        }
    }
}

/// Copies a list of statements.
fn clone_stmts(stmts: &Vec<Stmt>) -> (copies: Vec<Stmt>)
    ensures
        stmts_view(copies@) == stmts_view(stmts@),
    decreases stmts,
{
    let mut copies: Vec<Stmt> = Vec::new();
    let mut i: usize = 0;
    while i < stmts.len()
        invariant
            i <= stmts.len(),
            copies@.len() == i,
            forall|k: int| 0 <= k < i ==> copies@[k]@ == stmts@[k]@,
        decreases stmts.len() - i,
    {
        let copy = stmts[i].clone();
        copies.push(copy);
        i = i + 1;
    }
    assert(stmts_view(copies@) =~= stmts_view(stmts@));
    copies
}

impl Clone for Stmt {
    fn clone(&self) -> (copy: Self)
        ensures
            copy@ == self@,
        decreases self,
    {
        match self {
            Stmt::Let { var_name, value } => Stmt::Let {
                var_name: var_name.clone(),
                value: value.clone(),
            },
            Stmt::Assignment { var_name, value } => Stmt::Assignment {
                var_name: var_name.clone(),
                value: value.clone(),
            },
            Stmt::IfStmt { condition, body, else_branch } => {
                let condition_copy = condition.clone();
                let body_copy = clone_stmts(body);
                let branch_copy = match else_branch {
                    Some(branch) => Some(Box::new((**branch).clone())),
                    None => None,
                };
                proof {
                    lemma_if_view(condition_copy, body_copy, branch_copy);
                    lemma_if_view(*condition, *body, *else_branch);
                }
                Stmt::IfStmt {
                    condition: condition_copy,
                    body: body_copy,
                    else_branch: branch_copy,
                }
            },
            Stmt::Block { stmts } => {
                let copies = clone_stmts(stmts);
                proof {
                    lemma_block_view(copies);
                    lemma_block_view(*stmts);
                }
                Stmt::Block { stmts: copies }
            },
            Stmt::Error(error) => Stmt::Error(error.clone()),
        }
    }
}

/// Copies a list of parameters or members.
fn clone_fields(fields: &Vec<(String, Type)>) -> (copies: Vec<(String, Type)>)
    ensures
        fields_view(copies@) == fields_view(fields@),
{
    let mut copies: Vec<(String, Type)> = Vec::new();
    let mut i: usize = 0;
    while i < fields.len()
        invariant
            i <= fields.len(),
            copies@.len() == i,
            forall|k: int|
                0 <= k < i ==> copies@[k].0@ == fields@[k].0@ && copies@[k].1@ == fields@[k].1@,
        decreases fields.len() - i,
    {
        let name = fields[i].0.clone();
        let ty = fields[i].1.clone();
        copies.push((name, ty));
        i = i + 1;
    }
    assert(fields_view(copies@) =~= fields_view(fields@));
    copies
}

impl Clone for Item {
    fn clone(&self) -> (copy: Self)
        ensures
            copy@ == self@,
    {
        match self {
            Item::Struct { name, members } => Item::Struct {
                name: name.clone(),
                members: clone_fields(members),
            },
            Item::Function { name, parameters, body } => Item::Function {
                name: name.clone(),
                parameters: clone_fields(parameters),
                body: clone_stmts(body),
            },
            Item::Error(error) => Item::Error(error.clone()),
        }
    }
}

} // verus!
