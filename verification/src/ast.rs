//! The type-annotated abstract syntax tree the compiler consumes.
//!
//! The upstream lexer, parser and type checker produce this tree; every
//! expression node carries its resolved static type, and the compiler
//! trusts the annotations completely. The `*_height` functions at the end
//! measure tree size; they order the mutual recursion of the compiler and
//! of its mathematical model.

use vstd::prelude::*;

use crate::interner::Symbol;
use crate::pos::Spanned;

verus! {

/// A resolved static type, as far as instruction selection needs it.
#[derive(Debug)]
pub enum Ty {
    Int,
    Float,
    Bool,
    Str,
    Nil,
    Void,
    Array(Box<Ty>),
    Class(Symbol),
}

/// A literal constant.
#[derive(Debug)]
pub enum Literal {
    False(bool),
    True(bool),
    Nil,
    Int(i64),
    /// A floating-point literal, carried as its raw bit pattern.
    Float(u64),
    Str(String),
}

/// A binary operator.
#[derive(Debug, Clone, Copy, PartialEq, Eq, Structural)]
pub enum Op {
    Plus,
    Minus,
    Star,
    Slash,
    Modulo,
    Exponential,
    LessThan,
    LessThanEqual,
    GreaterThan,
    GreaterThanEqual,
    EqualEqual,
    BangEqual,
    And,
    Or,
}

/// An assignment operator: plain or compound.
#[derive(Debug, Clone, Copy, PartialEq, Eq, Structural)]
pub enum AssignOperator {
    Equal,
    PlusEqual,
    MinusEqual,
    StarEqual,
    SlashEqual,
}

/// A unary operator.
#[derive(Debug, Clone, Copy, PartialEq, Eq, Structural)]
pub enum UnaryOp {
    Bang,
    Minus,
}

/// An expression together with its resolved static type.
#[derive(Debug)]
pub struct TypedExpression {
    pub expr: Spanned<Expression>,
    pub ty: Ty,
}

/// A statement; blocks of the body hang off it.
#[derive(Debug)]
pub struct TypedStatement {
    pub statement: Spanned<Statement>,
}

/// One property of a class-instance literal.
#[derive(Debug)]
pub struct Property {
    pub name: Symbol,
    pub expr: Spanned<TypedExpression>,
}

/// One arm of a pattern match. A wildcard arm (`is_all`) matches
/// unconditionally and carries no pattern.
#[derive(Debug)]
pub struct MatchArm {
    pub is_all: bool,
    pub pattern: Option<Spanned<TypedExpression>>,
    pub body: Spanned<TypedStatement>,
}

/// An expression.
#[derive(Debug)]
pub enum Expression {
    /// Plain or compound assignment to a resolved identifier.
    Assign(Symbol, AssignOperator, Box<Spanned<TypedExpression>>),
    /// An array literal.
    Array(Vec<Spanned<TypedExpression>>),
    /// Indexing a string or an array.
    Index(Box<Spanned<TypedExpression>>, Box<Spanned<TypedExpression>>),
    /// A literal constant.
    Literal(Literal),
    /// A binary operation, including short-circuit `and` / `or`.
    Binary(Box<Spanned<TypedExpression>>, Op, Box<Spanned<TypedExpression>>),
    /// An explicit cast to the given type.
    Cast(Box<Spanned<TypedExpression>>, Ty),
    /// A call of a named function, native or user-defined.
    Call(Symbol, Vec<Spanned<TypedExpression>>),
    /// A class-instance literal.
    ClassLiteral { symbol: Symbol, properties: Vec<Spanned<Property>> },
    /// A method call on an instance value.
    InstanceMethodCall {
        method_name: Symbol,
        instance: Box<Spanned<TypedExpression>>,
        params: Vec<Spanned<TypedExpression>>,
    },
    /// A method call on a class itself.
    StaticMethodCall {
        class_name: Symbol,
        method_name: Symbol,
        params: Vec<Spanned<TypedExpression>>,
    },
    /// Reading a property of an instance.
    GetProperty { property_name: Symbol, property: Box<Spanned<TypedExpression>> },
    /// Reading a bound method of an instance.
    GetMethod { method_name: Symbol, method: Box<Spanned<TypedExpression>> },
    /// A parenthesised expression.
    Grouping(Box<Spanned<TypedExpression>>),
    /// A pattern match over equality of the scrutinee with each arm.
    Match { cond: Box<Spanned<TypedExpression>>, arms: Spanned<Vec<Spanned<MatchArm>>> },
    /// `cond ? if_true : if_false`.
    Ternary(
        Box<Spanned<TypedExpression>>,
        Box<Spanned<TypedExpression>>,
        Box<Spanned<TypedExpression>>,
    ),
    /// A unary operation.
    Unary(UnaryOp, Box<Spanned<TypedExpression>>),
    /// Reading a resolved identifier of the given type.
    Var(Symbol, Ty),
    /// An enum variant without payload.
    VariantNoData { enum_name: Spanned<Symbol>, tag: u32 },
    /// An enum variant with payload.
    VariantWithData { enum_name: Spanned<Symbol>, tag: u32, inner: Box<Spanned<TypedExpression>> },
    /// A closure: an independent nested function.
    Closure(Box<Function>),
    /// Writing a property of an instance.
    SetProperty(Symbol, Box<Spanned<TypedExpression>>, Box<Spanned<TypedExpression>>),
}

/// A statement.
#[derive(Debug)]
pub enum Statement {
    /// A braced block opening one lexical scope.
    Block(Vec<Spanned<TypedStatement>>),
    Break,
    Continue,
    /// An expression evaluated for effect.
    Expr(Spanned<TypedExpression>),
    Print(Spanned<TypedExpression>),
    Return(Spanned<TypedExpression>),
    If {
        cond: Spanned<TypedExpression>,
        then: Box<Spanned<TypedStatement>>,
        otherwise: Option<Box<Spanned<TypedStatement>>>,
    },
    /// A local declaration, with or without initialiser.
    Let { ident: Symbol, ty: Option<Ty>, expr: Option<Spanned<TypedExpression>> },
    While(Spanned<TypedExpression>, Box<Spanned<TypedStatement>>),
}

/// One declared parameter of a function.
#[derive(Debug)]
pub struct FunctionParam {
    pub name: Symbol,
}

/// A function declaration: top-level function, method, or closure.
#[derive(Debug)]
pub struct Function {
    pub name: Symbol,
    pub params: Vec<FunctionParam>,
    pub body: Spanned<TypedStatement>,
}

/// A class declaration with an optional superclass.
#[derive(Debug)]
pub struct Class {
    pub name: Symbol,
    pub superclass: Option<Spanned<Symbol>>,
    pub methods: Vec<Function>,
}

/// A whole program: top-level functions and classes, in source order.
#[derive(Debug)]
pub struct Program {
    pub functions: Vec<Function>,
    pub classes: Vec<Class>,
}

/// The height of a statement; always at least 1.
pub open spec fn stmt_height(s: Spanned<TypedStatement>) -> nat
    decreases s,
{
    1 + match s.value.statement.value {
        Statement::Block(children) => stmts_height(children@),
        Statement::Break => 0,
        Statement::Continue => 0,
        Statement::Expr(e) => expr_height(e),
        Statement::Print(e) => expr_height(e),
        Statement::Return(e) => expr_height(e),
        Statement::If { cond, then, otherwise } => expr_height(cond) + stmt_height(*then) + (
        match otherwise {
            Some(o) => stmt_height(*o),
            None => 0,
        }),
        Statement::Let { ident: _, ty: _, expr } => match expr {
            Some(e) => expr_height(e),
            None => 0,
        },
        Statement::While(cond, body) => expr_height(cond) + stmt_height(*body),
    }
}

/// The height of a statement list; always at least 1.
pub open spec fn stmts_height(ss: Seq<Spanned<TypedStatement>>) -> nat
    decreases ss,
{
    if ss.len() == 0 {
        1
    } else {
        stmt_height(ss[0]) + stmts_height(ss.subrange(1, ss.len() as int))
    }
}

/// The height of an expression; always at least 1.
pub open spec fn expr_height(e: Spanned<TypedExpression>) -> nat
    decreases e,
{
    1 + match e.value.expr.value {
        Expression::Assign(_, _, rhs) => expr_height(*rhs),
        Expression::Array(items) => exprs_height(items@),
        Expression::Index(target, index) => expr_height(*target) + expr_height(*index),
        Expression::Literal(_) => 0,
        Expression::Binary(lhs, _, rhs) => expr_height(*lhs) + expr_height(*rhs),
        Expression::Cast(from, _) => expr_height(*from),
        Expression::Call(_, args) => exprs_height(args@),
        Expression::ClassLiteral { symbol: _, properties } => props_height(properties@),
        Expression::InstanceMethodCall { method_name: _, instance, params } => expr_height(
            *instance,
        ) + exprs_height(params@),
        Expression::StaticMethodCall { class_name: _, method_name: _, params } => exprs_height(
            params@,
        ),
        Expression::GetProperty { property_name: _, property } => expr_height(*property),
        Expression::GetMethod { method_name: _, method } => expr_height(*method),
        Expression::Grouping(inner) => expr_height(*inner),
        Expression::Match { cond, arms } => expr_height(*cond) + arms_height(arms.value@),
        Expression::Ternary(cond, if_true, if_false) => expr_height(*cond) + expr_height(*if_true)
            + expr_height(*if_false),
        Expression::Unary(_, inner) => expr_height(*inner),
        Expression::Var(_, _) => 0,
        Expression::VariantNoData { .. } => 0,
        Expression::VariantWithData { enum_name: _, tag: _, inner } => expr_height(*inner),
        Expression::Closure(func) => fn_height(*func),
        Expression::SetProperty(_, instance, value) => expr_height(*instance) + expr_height(*value),
    }
}

/// The height of an expression list; always at least 1.
pub open spec fn exprs_height(es: Seq<Spanned<TypedExpression>>) -> nat
    decreases es,
{
    if es.len() == 0 {
        1
    } else {
        expr_height(es[0]) + exprs_height(es.subrange(1, es.len() as int))
    }
}

/// The height of one match arm; always at least 1.
pub open spec fn arm_height(arm: Spanned<MatchArm>) -> nat
    decreases arm,
{
    1 + (match arm.value.pattern {
        Some(p) => expr_height(p),
        None => 0,
    }) + stmt_height(arm.value.body)
}

/// The height of a match-arm list; always at least 1.
pub open spec fn arms_height(arms: Seq<Spanned<MatchArm>>) -> nat
    decreases arms,
{
    if arms.len() == 0 {
        1
    } else {
        arm_height(arms[0]) + arms_height(arms.subrange(1, arms.len() as int))
    }
}

/// The height of a property list; always at least 1.
pub open spec fn props_height(ps: Seq<Spanned<Property>>) -> nat
    decreases ps,
{
    if ps.len() == 0 {
        1
    } else {
        1 + expr_height(ps[0].value.expr) + props_height(ps.subrange(1, ps.len() as int))
    }
}

/// The height of a function declaration; always at least 2.
pub open spec fn fn_height(f: Function) -> nat
    decreases f,
{
    1 + stmt_height(f.body)
}

/// A statement height is at least 1.
pub proof fn lemma_stmt_height_pos(s: Spanned<TypedStatement>)
    ensures
        stmt_height(s) >= 1,
{
}

/// An expression height is at least 1.
pub proof fn lemma_expr_height_pos(e: Spanned<TypedExpression>)
    ensures
        expr_height(e) >= 1,
{
}

/// An arm height is at least 1.
pub proof fn lemma_arm_height_pos(arm: Spanned<MatchArm>)
    ensures
        arm_height(arm) >= 1,
{
}

/// An arm's pattern and body sit strictly below the arm's height.
pub proof fn lemma_arm_height_parts(arm: Spanned<MatchArm>)
    ensures
        stmt_height(arm.value.body) < arm_height(arm),
        arm.value.pattern matches Some(p) ==> expr_height(p) < arm_height(arm),
{
}

/// Dropping the last expression strictly lowers a list's height.
pub proof fn lemma_exprs_height_drop_last(es: Seq<Spanned<TypedExpression>>)
    requires
        es.len() > 0,
    ensures
        exprs_height(es.drop_last()) < exprs_height(es),
    decreases es.len(),
{
    let rest = es.subrange(1, es.len() as int);
    assert(exprs_height(es) == expr_height(es[0]) + exprs_height(rest));
    if es.len() == 1 {
        assert(es.drop_last() =~= Seq::<Spanned<TypedExpression>>::empty());
        lemma_expr_height_pos(es[0]);
    } else {
        lemma_exprs_height_drop_last(rest);
        assert(es.drop_last().subrange(1, es.len() - 1) =~= rest.drop_last());
        assert(es.drop_last()[0] == es[0]);
        assert(exprs_height(es.drop_last()) == expr_height(es[0]) + exprs_height(
            rest.drop_last(),
        ));
    }
}

/// Dropping the last property strictly lowers a list's height.
pub proof fn lemma_props_height_drop_last(ps: Seq<Spanned<Property>>)
    requires
        ps.len() > 0,
    ensures
        props_height(ps.drop_last()) < props_height(ps),
    decreases ps.len(),
{
    let rest = ps.subrange(1, ps.len() as int);
    assert(props_height(ps) == 1 + expr_height(ps[0].value.expr) + props_height(rest));
    if ps.len() == 1 {
        assert(ps.drop_last() =~= Seq::<Spanned<Property>>::empty());
    } else {
        lemma_props_height_drop_last(rest);
        assert(ps.drop_last().subrange(1, ps.len() - 1) =~= rest.drop_last());
        assert(ps.drop_last()[0] == ps[0]);
        assert(props_height(ps.drop_last()) == 1 + expr_height(ps[0].value.expr) + props_height(
            rest.drop_last(),
        ));
    }
}

/// A statement-list height is at least 1.
pub proof fn lemma_stmts_height_pos(ss: Seq<Spanned<TypedStatement>>)
    ensures
        stmts_height(ss) >= 1,
{
    if ss.len() != 0 {
        assert(stmts_height(ss) == stmt_height(ss[0]) + stmts_height(
            ss.subrange(1, ss.len() as int),
        ));
    }
}

/// An expression-list height is at least 1.
pub proof fn lemma_exprs_height_pos(es: Seq<Spanned<TypedExpression>>)
    ensures
        exprs_height(es) >= 1,
{
    if es.len() != 0 {
        assert(exprs_height(es) == expr_height(es[0]) + exprs_height(
            es.subrange(1, es.len() as int),
        ));
    }
}

/// An arm-list height is at least 1.
pub proof fn lemma_arms_height_pos(arms: Seq<Spanned<MatchArm>>)
    ensures
        arms_height(arms) >= 1,
{
    if arms.len() != 0 {
        assert(arms_height(arms) == arm_height(arms[0]) + arms_height(
            arms.subrange(1, arms.len() as int),
        ));
    }
}

/// A property-list height is at least 1.
pub proof fn lemma_props_height_pos(ps: Seq<Spanned<Property>>)
    ensures
        props_height(ps) >= 1,
{
}

/// Every statement of a list sits strictly below the list's height.
pub proof fn lemma_stmts_height_elem(ss: Seq<Spanned<TypedStatement>>, i: int)
    requires
        0 <= i < ss.len(),
    ensures
        stmt_height(ss[i]) < stmts_height(ss),
    decreases ss.len(),
{
    let rest = ss.subrange(1, ss.len() as int);
    assert(stmts_height(ss) == stmt_height(ss[0]) + stmts_height(rest));
    if i == 0 {
        lemma_stmts_height_pos(rest);
    } else {
        lemma_stmts_height_elem(rest, i - 1);
        assert(rest[i - 1] == ss[i]);
    }
}

/// Every expression of a list sits strictly below the list's height.
pub proof fn lemma_exprs_height_elem(es: Seq<Spanned<TypedExpression>>, i: int)
    requires
        0 <= i < es.len(),
    ensures
        expr_height(es[i]) < exprs_height(es),
    decreases es.len(),
{
    let rest = es.subrange(1, es.len() as int);
    assert(exprs_height(es) == expr_height(es[0]) + exprs_height(rest));
    if i == 0 {
        lemma_exprs_height_pos(rest);
    } else {
        lemma_exprs_height_elem(rest, i - 1);
        assert(rest[i - 1] == es[i]);
    }
}

/// Every arm of a list sits strictly below the list's height.
pub proof fn lemma_arms_height_elem(arms: Seq<Spanned<MatchArm>>, i: int)
    requires
        0 <= i < arms.len(),
    ensures
        arm_height(arms[i]) < arms_height(arms),
    decreases arms.len(),
{
    let rest = arms.subrange(1, arms.len() as int);
    assert(arms_height(arms) == arm_height(arms[0]) + arms_height(rest));
    if i == 0 {
        lemma_arms_height_pos(rest);
    } else {
        lemma_arms_height_elem(rest, i - 1);
        assert(rest[i - 1] == arms[i]);
    }
}

/// Every property of a list sits strictly below the list's height.
pub proof fn lemma_props_height_elem(ps: Seq<Spanned<Property>>, i: int)
    requires
        0 <= i < ps.len(),
    ensures
        expr_height(ps[i].value.expr) < props_height(ps),
    decreases ps.len(),
{
    let rest = ps.subrange(1, ps.len() as int);
    assert(props_height(ps) == 1 + expr_height(ps[0].value.expr) + props_height(rest));
    if i == 0 {
    } else {
        lemma_props_height_elem(rest, i - 1);
        assert(rest[i - 1] == ps[i]);
    }
}

} // verus!
