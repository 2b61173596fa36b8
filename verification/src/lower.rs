//! The mathematical model of the whole lowering pass.
//!
//! Every function here is specification-only: it maps a compiler state and
//! a piece of the tree to the exact state the pass leaves behind. The
//! executable compiler ([`crate::builder`], [`crate::assemble`]) is proved
//! to return precisely these values, so the model is the single place that
//! says what the emitted bytecode is.
//!
//! An [`Outcome`] distinguishes three ends: `Done` (the construct
//! compiled), `Failed` (a reportable error was recorded and compilation of
//! the unit aborts), and `Fault` (an upstream contract was violated: a
//! type annotation, resolution or structure the type checker must never
//! hand the compiler; the executable compiler excludes these inputs by
//! precondition, as the pass would otherwise abort the process).

use vstd::prelude::*;

use crate::artifact::{assoc_contains, assoc_lookup, ClassModel, FunModel};
use crate::ast::{
    arms_height, expr_height, exprs_height, fn_height, lemma_arm_height_parts,
    lemma_arm_height_pos, lemma_arms_height_elem, lemma_arms_height_pos, lemma_expr_height_pos,
    lemma_exprs_height_drop_last, lemma_exprs_height_elem, lemma_exprs_height_pos,
    lemma_props_height_drop_last, lemma_props_height_elem, lemma_props_height_pos,
    lemma_stmt_height_pos, lemma_stmts_height_elem, lemma_stmts_height_pos, props_height,
    stmt_height, stmts_height, AssignOperator, Class, Expression, Function, FunctionParam, Literal,
    MatchArm, Op, Program, Property, Statement, Ty, TypedExpression, TypedStatement, UnaryOp,
};
use crate::chunk::ChunkModel;
use crate::heap::ObjModel;
use crate::interner::{is_native_name, Symbol};
use crate::opcode;
use crate::pos::{Span, Spanned};
use crate::report::DiagModel;
use crate::scope::{scope_exit, scope_lookup, ScopeEntry};
use crate::value::Value;

verus! {

/// The innermost active loop: where it starts and where its exit jump's
/// placeholder sits. At most one is tracked; an inner loop overwrites the
/// descriptor of the loop enclosing it.
#[derive(Debug, Clone, Copy, PartialEq, Eq, Structural)]
pub struct LoopDescription {
    /// The chunk offset of the first condition instruction.
    pub start: usize,
    /// The patch point of the loop's exit jump.
    pub end: usize,
}

/// The state a [`crate::builder::Builder`] carries: one function's chunk
/// under construction, its scope resolver, its flat parameter map, the
/// loop descriptor, the slot counter and the current source line.
pub struct BState {
    pub code: Seq<u8>,
    pub lines: Seq<u32>,
    pub constants: Seq<Value>,
    pub locals: Seq<ScopeEntry>,
    pub params: Seq<(Symbol, usize)>,
    pub slots: u32,
    pub line: u32,
    pub cur_loop: Option<LoopDescription>,
}

/// The whole state one compilation step can touch: the builder state plus
/// the two collaborators shared across units, the diagnostics sink and the
/// heap-allocation list.
pub struct CState {
    pub b: BState,
    pub diags: Seq<DiagModel>,
    pub objs: Seq<ObjModel>,
}

/// How lowering one construct ended.
pub enum Outcome {
    /// Compiled; this is the state afterwards.
    Done(CState),
    /// A compile error was reported; the unit aborts in this state.
    Failed(CState),
    /// An upstream contract violation; excluded by precondition.
    Fault,
}

/// How lowering one function unit ended: the shared collaborators after
/// the unit, and on success its artifact.
pub enum FnOutcome {
    Done(Seq<DiagModel>, Seq<ObjModel>, FunModel),
    Failed(Seq<DiagModel>, Seq<ObjModel>),
    Fault,
}

/// How lowering one class ended.
pub enum ClassOutcome {
    Done(Seq<DiagModel>, Seq<ObjModel>, ClassModel),
    Failed(Seq<DiagModel>, Seq<ObjModel>),
    Fault,
}

/// How lowering a match-arm list ended: on success, also the collected
/// end-jump patch points, in arm order.
pub enum ArmsOutcome {
    Done(CState, Seq<int>),
    Failed(CState),
    Fault,
}

/// The state with the builder part replaced.
pub open spec fn with_b(st: CState, b: BState) -> CState {
    CState { b: b, diags: st.diags, objs: st.objs }
}

/// A value truncated to its low byte, as every one-byte operand is.
pub open spec fn low8(n: int) -> u8 {
    (n % 256) as u8
}

/// The high byte of a two-byte big-endian operand.
pub open spec fn high8(n: int) -> u8 {
    ((n / 256) % 256) as u8
}

/// One byte appended to the chunk, tagged with the current line.
pub open spec fn sp_emit_byte(b: BState, byte: u8) -> BState {
    BState { code: b.code.push(byte), lines: b.lines.push(b.line), ..b }
}

/// Two bytes appended in order.
pub open spec fn sp_emit_bytes(b: BState, byte1: u8, byte2: u8) -> BState {
    sp_emit_byte(sp_emit_byte(b, byte1), byte2)
}

/// The line counter advanced to a span's first line, never backwards.
pub open spec fn sp_set_span(b: BState, span: Span) -> BState {
    if span.start.line > b.line {
        BState { line: span.start.line, ..b }
    } else {
        b
    }
}

/// A jump opcode emitted with a two-byte placeholder; the second
/// component is the placeholder's offset, the patch point.
pub open spec fn sp_emit_jump(b: BState, byte: u8) -> (BState, int) {
    (sp_emit_bytes(sp_emit_byte(b, byte), 0xff, 0xff), b.code.len() + 1 as int)
}

/// The placeholder at `offset` resolved: the distance from just past the
/// placeholder to the current end of the chunk, written big-endian.
pub open spec fn sp_patch_jump(b: BState, offset: int) -> BState {
    let dist = b.code.len() - offset - 2;
    BState { code: b.code.update(offset, high8(dist)).update(offset + 1, low8(dist)), ..b }
}

/// The backward jump: a `LOOP` opcode whose two-byte big-endian distance
/// runs from just past its own operand bytes back to `loop_start`.
pub open spec fn sp_emit_loop(b: BState, loop_start: int) -> BState {
    let b1 = sp_emit_byte(b, opcode::LOOP);
    let dist = b1.code.len() - loop_start + 2;
    sp_emit_bytes(b1, high8(dist), low8(dist))
}

/// A value appended to the constant pool. Past 255 entries the pool is
/// over capacity: the error is reported against `span` and the second
/// component is `None`; otherwise it is the new entry's index, which
/// always fits in one byte.
pub open spec fn sp_make_constant(st: CState, value: Value, span: Span) -> (CState, Option<u8>) {
    let index = st.b.constants.len();
    let b1 = BState { constants: st.b.constants.push(value), ..st.b };
    if index >= 255 {
        (
            CState {
                b: b1,
                diags: st.diags.push(
                    DiagModel { message: "too many constants in one chunk"@, span },
                ),
                objs: st.objs,
            },
            None,
        )
    } else {
        (with_b(st, b1), Some(index as u8))
    }
}

/// A constant inserted and its load instruction emitted.
pub open spec fn sp_constant(st: CState, value: Value, span: Span) -> Outcome {
    let (st1, index) = sp_make_constant(st, value, span);
    match index {
        Some(i) => Outcome::Done(with_b(st1, sp_emit_bytes(st1.b, opcode::CONSTANT, i))),
        None => Outcome::Failed(st1),
    }
}

/// The instruction pair for a binary operator, selected by the statically
/// known result type and (for ordering comparisons) the left operand's
/// type: the opcode to emit, and whether a `NOT` follows it. `None` is a
/// combination the type checker never produces.
pub open spec fn binary_selection(result_ty: Ty, lhs_ty: Ty, op: Op) -> Option<(u8, bool)> {
    match (result_ty, op) {
        (Ty::Int, Op::Plus) => Some((opcode::ADD, false)),
        (Ty::Float, Op::Plus) => Some((opcode::ADDF, false)),
        (Ty::Str, Op::Plus) => Some((opcode::CONCAT, false)),
        (Ty::Int, Op::Minus) => Some((opcode::SUB, false)),
        (Ty::Float, Op::Minus) => Some((opcode::SUBF, false)),
        (Ty::Int, Op::Slash) => Some((opcode::DIV, false)),
        (Ty::Float, Op::Slash) => Some((opcode::DIVF, false)),
        (Ty::Int, Op::Star) => Some((opcode::MUL, false)),
        (Ty::Float, Op::Star) => Some((opcode::MULF, false)),
        (Ty::Bool, Op::LessThan) => match lhs_ty {
            Ty::Int => Some((opcode::LESS, false)),
            Ty::Float => Some((opcode::LESSF, false)),
            _ => None,
        },
        (Ty::Bool, Op::LessThanEqual) => match lhs_ty {
            Ty::Int => Some((opcode::LESS, true)),
            Ty::Float => Some((opcode::LESSF, true)),
            _ => None,
        },
        (Ty::Bool, Op::GreaterThan) => match lhs_ty {
            Ty::Int => Some((opcode::GREATER, false)),
            Ty::Float => Some((opcode::GREATERF, false)),
            _ => None,
        },
        (Ty::Bool, Op::GreaterThanEqual) => match lhs_ty {
            Ty::Int => Some((opcode::GREATER, true)),
            Ty::Float => Some((opcode::GREATERF, true)),
            _ => None,
        },
        (_, Op::EqualEqual) => Some((opcode::EQUAL, false)),
        (_, Op::BangEqual) => Some((opcode::EQUAL, true)),
        _ => None,
    }
}

/// The arithmetic opcode a compound assignment applies, selected by the
/// right-hand side's static type.
pub open spec fn compound_selection(op: AssignOperator, rhs_ty: Ty) -> Option<u8> {
    match (op, rhs_ty) {
        (AssignOperator::PlusEqual, Ty::Int) => Some(opcode::ADD),
        (AssignOperator::PlusEqual, Ty::Float) => Some(opcode::ADDF),
        (AssignOperator::MinusEqual, Ty::Int) => Some(opcode::SUB),
        (AssignOperator::MinusEqual, Ty::Float) => Some(opcode::SUBF),
        (AssignOperator::StarEqual, Ty::Int) => Some(opcode::MUL),
        (AssignOperator::StarEqual, Ty::Float) => Some(opcode::MULF),
        (AssignOperator::SlashEqual, Ty::Int) => Some(opcode::DIV),
        (AssignOperator::SlashEqual, Ty::Float) => Some(opcode::DIVF),
        _ => None,
    }
}

/// The cast opcode for a source/destination type pair; only the fixed set
/// of pairs is permitted.
pub open spec fn cast_selection(from_ty: Ty, to_ty: Ty) -> Option<u8> {
    match (from_ty, to_ty) {
        (Ty::Int, Ty::Float) => Some(opcode::INT2FLOAT),
        (Ty::Float, Ty::Int) => Some(opcode::FLOAT2INT),
        (Ty::Bool, Ty::Int) => Some(opcode::BOOL2INT),
        (Ty::Int, Ty::Str) => Some(opcode::INT2STR),
        (Ty::Float, Ty::Str) => Some(opcode::FLOAT2STR),
        _ => None,
    }
}

/// The unary opcode, by the operand's static type for negation.
pub open spec fn unary_selection(op: UnaryOp, operand_ty: Ty) -> Option<u8> {
    match op {
        UnaryOp::Bang => Some(opcode::NOT),
        UnaryOp::Minus => match operand_ty {
            Ty::Int => Some(opcode::NEGATE),
            Ty::Float => Some(opcode::NEGATEF),
            _ => None,
        },
    }
}

/// The flat parameter map of a function: each declared parameter bound to
/// its position.
pub open spec fn param_map(params: Seq<FunctionParam>) -> Seq<(Symbol, usize)> {
    Seq::new(params.len(), |i: int| (params[i].name, i as usize))
}

/// The builder state a fresh unit starts from.
pub open spec fn initial_bstate(params: Seq<(Symbol, usize)>) -> BState {
    BState {
        code: Seq::empty(),
        lines: Seq::empty(),
        constants: Seq::empty(),
        locals: Seq::empty(),
        params: params,
        slots: 0,
        line: 0,
        cur_loop: None,
    }
}

/// Each patch point resolved, in insertion order.
pub open spec fn sp_patch_list(b: BState, jumps: Seq<int>) -> BState
    decreases jumps.len(),
{
    if jumps.len() == 0 {
        b
    } else {
        sp_patch_list(sp_patch_jump(b, jumps[0]), jumps.subrange(1, jumps.len() as int))
    }
}

/// The property name tags of a class-instance literal, one byte each, in
/// reverse property order.
pub open spec fn sp_tag_bytes_rev(b: BState, ps: Seq<Spanned<Property>>) -> BState
    decreases ps.len(),
{
    if ps.len() == 0 {
        b
    } else {
        sp_tag_bytes_rev(sp_emit_byte(b, low8(ps.last().value.name as int)), ps.drop_last())
    }
}

/// Lowers one statement, starting by advancing the line counter to its
/// span.
pub open spec fn sp_stmt(names: Seq<Seq<char>>, st0: CState, stmt: Spanned<TypedStatement>) -> Outcome
    decreases stmt_height(stmt),
{
    let st = with_b(st0, sp_set_span(st0.b, stmt.span));
    match stmt.value.statement.value {
        Statement::Block(statements) => {
            proof {
                lemma_stmts_height_pos(statements@);
            }
            let entered = with_b(st, BState { locals: st.b.locals.push(None), ..st.b });
            match sp_stmt_list(names, entered, statements@) {
                Outcome::Done(st1) => Outcome::Done(
                    with_b(st1, BState { locals: scope_exit(st1.b.locals), ..st1.b }),
                ),
                Outcome::Failed(st1) => Outcome::Failed(
                    with_b(st1, BState { locals: scope_exit(st1.b.locals), ..st1.b }),
                ),
                Outcome::Fault => Outcome::Fault,
            }
        },
        Statement::Break => match st.b.cur_loop {
            None => Outcome::Fault,
            Some(description) => Outcome::Done(
                with_b(st, sp_emit_bytes(st.b, opcode::JUMP, low8(description.end as int))),
            ),
        },
        Statement::Continue => match st.b.cur_loop {
            None => Outcome::Fault,
            Some(description) => Outcome::Done(
                with_b(st, sp_emit_bytes(st.b, opcode::JUMP, low8(description.start as int))),
            ),
        },
        Statement::Expr(e) => sp_expr(names, st, e),
        Statement::Print(e) => match sp_expr(names, st, e) {
            Outcome::Done(st1) => Outcome::Done(with_b(st1, sp_emit_byte(st1.b, opcode::PRINT))),
            other => other,
        },
        Statement::Return(e) => match sp_expr(names, st, e) {
            Outcome::Done(st1) => Outcome::Done(with_b(st1, sp_emit_byte(st1.b, opcode::RETURN))),
            other => other,
        },
        Statement::If { cond, then, otherwise: None } => match sp_expr(names, st, cond) {
            Outcome::Done(st1) => {
                let (b2, false_label) = sp_emit_jump(st1.b, opcode::JUMPNOT);
                let b3 = sp_emit_byte(b2, opcode::POP);
                match sp_stmt(names, with_b(st1, b3), *then) {
                    Outcome::Done(st2) => {
                        let b4 = sp_patch_jump(st2.b, false_label);
                        Outcome::Done(with_b(st2, sp_emit_byte(b4, opcode::POP)))
                    },
                    other => other,
                }
            },
            other => other,
        },
        Statement::If { cond, then, otherwise: Some(otherwise) } => match sp_expr(names, st, cond) {
            Outcome::Done(st1) => {
                let (b2, false_label) = sp_emit_jump(st1.b, opcode::JUMPNOT);
                let b3 = sp_emit_byte(b2, opcode::POP);
                match sp_stmt(names, with_b(st1, b3), *then) {
                    Outcome::Done(st2) => {
                        let (b4, end_label) = sp_emit_jump(st2.b, opcode::JUMP);
                        let b5 = sp_patch_jump(b4, false_label);
                        let b6 = sp_emit_byte(b5, opcode::POP);
                        match sp_stmt(names, with_b(st2, b6), *otherwise) {
                            Outcome::Done(st3) => Outcome::Done(
                                with_b(st3, sp_patch_jump(st3.b, end_label)),
                            ),
                            other => other,
                        }
                    },
                    other => other,
                }
            },
            other => other,
        },
        Statement::Let { ident, ty: _, expr } => {
            let after = match expr {
                Some(e) => sp_expr(names, st, e),
                None => sp_constant(st, Value::Nil, stmt.span),
            };
            match after {
                Outcome::Done(st1) => {
                    if st1.b.slots == u32::MAX {
                        Outcome::Fault
                    } else {
                        let slot = st1.b.slots;
                        let b2 = BState {
                            slots: (st1.b.slots + 1) as u32,
                            locals: st1.b.locals.push(Some((ident, slot as usize))),
                            ..st1.b
                        };
                        Outcome::Done(
                            with_b(st1, sp_emit_bytes(b2, opcode::SETLOCAL, low8(slot as int))),
                        )
                    }
                },
                other => other,
            }
        },
        Statement::While(cond, body) => {
            let start_label = st.b.code.len() as int;
            match sp_expr(names, st, cond) {
                Outcome::Done(st1) => {
                    let (b2, out) = sp_emit_jump(st1.b, opcode::JUMPNOT);
                    let b3 = BState {
                        cur_loop: Some(
                            LoopDescription { start: start_label as usize, end: out as usize },
                        ),
                        ..b2
                    };
                    let b4 = sp_emit_byte(b3, opcode::POP);
                    match sp_stmt(names, with_b(st1, b4), *body) {
                        Outcome::Done(st2) => {
                            let b5 = sp_emit_loop(st2.b, start_label);
                            let b6 = sp_patch_jump(b5, out);
                            Outcome::Done(with_b(st2, sp_emit_byte(b6, opcode::POP)))
                        },
                        other => other,
                    }
                },
                other => other,
            }
        },
    }
}

/// Lowers a statement list in order, stopping at the first failure.
pub open spec fn sp_stmt_list(
    names: Seq<Seq<char>>,
    st: CState,
    rest: Seq<Spanned<TypedStatement>>,
) -> Outcome
    decreases stmts_height(rest),
{
    if rest.len() == 0 {
        Outcome::Done(st)
    } else {
        proof {
            lemma_stmts_height_elem(rest, 0);
            lemma_stmt_height_pos(rest[0]);
        }
        match sp_stmt(names, st, rest[0]) {
            Outcome::Done(st1) => sp_stmt_list(names, st1, rest.subrange(1, rest.len() as int)),
            other => other,
        }
    }
}

/// Lowers one expression, starting by advancing the line counter to its
/// span.
pub open spec fn sp_expr(names: Seq<Seq<char>>, st0: CState, e: Spanned<TypedExpression>) -> Outcome
    decreases expr_height(e),
{
    let st = with_b(st0, sp_set_span(st0.b, e.span));
    match e.value.expr.value {
        Expression::Assign(ident, op, rhs) => match op {
            AssignOperator::Equal => {
                let pos_opt = match scope_lookup(st.b.locals, ident) {
                    Some(pos) => Some(pos),
                    None => assoc_lookup(st.b.params, ident),
                };
                match pos_opt {
                    None => Outcome::Fault,
                    Some(pos) => match sp_expr(names, st, *rhs) {
                        Outcome::Done(st1) => Outcome::Done(
                            with_b(
                                st1,
                                sp_emit_bytes(st1.b, opcode::SETLOCAL, low8(pos as int)),
                            ),
                        ),
                        other => other,
                    },
                }
            },
            _ => match scope_lookup(st.b.locals, ident) {
                None => Outcome::Fault,
                Some(pos) => match compound_selection(op, rhs.value.ty) {
                    None => Outcome::Fault,
                    Some(selected) => {
                        let b1 = sp_emit_bytes(st.b, opcode::GETLOCAL, low8(pos as int));
                        match sp_expr(names, with_b(st, b1), *rhs) {
                            Outcome::Done(st1) => Outcome::Done(
                                with_b(
                                    st1,
                                    sp_emit_bytes(
                                        sp_emit_byte(st1.b, selected),
                                        opcode::SETLOCAL,
                                        low8(pos as int),
                                    ),
                                ),
                            ),
                            other => other,
                        }
                    },
                },
            },
        },
        Expression::Array(items) => {
            proof {
                lemma_exprs_height_pos(items@);
            }
            match sp_exprs_rev(names, st, items@) {
                Outcome::Done(st1) => Outcome::Done(
                    with_b(st1, sp_emit_bytes(st1.b, opcode::ARRAY, low8(items@.len() as int))),
                ),
                other => other,
            }
        },
        Expression::Index(target, index) => {
            let selected = match e.value.ty {
                Ty::Str => Some(opcode::INDEXSTRING),
                Ty::Array(_) => Some(opcode::INDEXARRAY),
                _ => None,
            };
            match selected {
                None => Outcome::Fault,
                Some(opc) => match sp_expr(names, st, *target) {
                    Outcome::Done(st1) => match sp_expr(names, st1, *index) {
                        Outcome::Done(st2) => Outcome::Done(
                            with_b(st2, sp_emit_byte(st2.b, opc)),
                        ),
                        other => other,
                    },
                    other => other,
                },
            }
        },
        Expression::Literal(lit) => match lit {
            Literal::False(_) => Outcome::Done(with_b(st, sp_emit_byte(st.b, opcode::FALSE))),
            Literal::True(_) => Outcome::Done(with_b(st, sp_emit_byte(st.b, opcode::TRUE))),
            Literal::Nil => Outcome::Done(with_b(st, sp_emit_byte(st.b, opcode::NIL))),
            Literal::Int(n) => sp_constant(st, Value::Int(n), e.value.expr.span),
            Literal::Float(bits) => sp_constant(st, Value::Float(bits), e.value.expr.span),
            Literal::Str(s) => {
                let index = st.objs.len() as usize;
                let st1 = CState { b: st.b, diags: st.diags, objs: st.objs.push(ObjModel::Str(s@)) };
                sp_constant(st1, Value::Obj(index), e.value.expr.span)
            },
        },
        Expression::Binary(lhs, op, rhs) => {
            if op == Op::And {
                proof {
                    lemma_expr_height_pos(*lhs);
                    lemma_expr_height_pos(*rhs);
                }
                sp_and(names, st, *lhs, *rhs)
            } else if op == Op::Or {
                proof {
                    lemma_expr_height_pos(*lhs);
                    lemma_expr_height_pos(*rhs);
                }
                sp_or(names, st, *lhs, *rhs)
            } else {
                match sp_expr(names, st, *lhs) {
                    Outcome::Done(st1) => match sp_expr(names, st1, *rhs) {
                        Outcome::Done(st2) => match binary_selection(
                            e.value.ty,
                            lhs.value.ty,
                            op,
                        ) {
                            None => Outcome::Fault,
                            Some(selected) => Outcome::Done(
                                with_b(
                                    st2,
                                    if selected.1 {
                                        sp_emit_bytes(st2.b, selected.0, opcode::NOT)
                                    } else {
                                        sp_emit_byte(st2.b, selected.0)
                                    },
                                ),
                            ),
                        },
                        other => other,
                    },
                    other => other,
                }
            }
        },
        Expression::Cast(from, to_ty) => match sp_expr(names, st, *from) {
            Outcome::Done(st1) => match cast_selection(from.value.ty, to_ty) {
                None => Outcome::Fault,
                Some(opc) => Outcome::Done(with_b(st1, sp_emit_byte(st1.b, opc))),
            },
            other => other,
        },
        Expression::Call(callee, args) => {
            proof {
                lemma_exprs_height_pos(args@);
            }
            match sp_expr_list(names, st, args@) {
                Outcome::Done(st1) => {
                    if callee as int >= names.len() {
                        Outcome::Fault
                    } else if is_native_name(names[callee as int]) {
                        Outcome::Done(
                            with_b(
                                st1,
                                sp_emit_bytes(st1.b, opcode::CALLNATIVE, low8(callee as int)),
                            ),
                        )
                    } else {
                        Outcome::Done(
                            with_b(
                                st1,
                                sp_emit_byte(
                                    sp_emit_bytes(st1.b, opcode::CALL, low8(callee as int)),
                                    low8(args@.len() as int),
                                ),
                            ),
                        )
                    }
                },
                other => other,
            }
        },
        Expression::ClassLiteral { symbol, properties } => {
            proof {
                lemma_props_height_pos(properties@);
            }
            match sp_props_rev(names, st, properties@) {
                Outcome::Done(st1) => {
                    let b2 = sp_emit_bytes(st1.b, opcode::CLASSINSTANCE, low8(symbol as int));
                    let b3 = sp_emit_byte(b2, low8(properties@.len() as int));
                    Outcome::Done(with_b(st1, sp_tag_bytes_rev(b3, properties@)))
                },
                other => other,
            }
        },
        Expression::InstanceMethodCall { method_name, instance, params } => {
            proof {
                lemma_expr_height_pos(*instance);
                lemma_exprs_height_pos(params@);
            }
            match sp_expr_list(names, st, params@) {
                Outcome::Done(st1) => match sp_expr(names, st1, *instance) {
                    Outcome::Done(st2) => {
                        let b3 = sp_emit_byte(st2.b, opcode::CALLINSTANCEMETHOD);
                        Outcome::Done(
                            with_b(
                                st2,
                                sp_emit_bytes(
                                    b3,
                                    low8(method_name as int),
                                    low8(params@.len() as int),
                                ),
                            ),
                        )
                    },
                    other => other,
                },
                other => other,
            }
        },
        Expression::StaticMethodCall { class_name, method_name, params } => {
            proof {
                lemma_exprs_height_pos(params@);
            }
            match sp_expr_list(names, st, params@) {
                Outcome::Done(st1) => {
                    let b2 = sp_emit_byte(st1.b, opcode::CALLSTATICMETHOD);
                    let b3 = sp_emit_bytes(b2, low8(class_name as int), low8(method_name as int));
                    Outcome::Done(with_b(st1, sp_emit_byte(b3, low8(params@.len() as int))))
                },
                other => other,
            }
        },
        Expression::GetProperty { property_name, property } => match sp_expr(names, st, *property) {
            Outcome::Done(st1) => Outcome::Done(
                with_b(st1, sp_emit_bytes(st1.b, opcode::GETPROPERTY, low8(property_name as int))),
            ),
            other => other,
        },
        Expression::GetMethod { method_name, method } => match sp_expr(names, st, *method) {
            Outcome::Done(st1) => Outcome::Done(
                with_b(st1, sp_emit_bytes(st1.b, opcode::GETMETHOD, low8(method_name as int))),
            ),
            other => other,
        },
        Expression::Grouping(inner) => sp_expr(names, st, *inner),
        Expression::Match { cond, arms } => {
            proof {
                lemma_expr_height_pos(*cond);
                lemma_arms_height_pos(arms.value@);
            }
            match sp_expr(names, st, *cond) {
                Outcome::Done(st1) => match sp_arms(names, st1, *cond, arms.value@, Seq::<int>::empty()) {
                    ArmsOutcome::Done(st2, jumps) => Outcome::Done(
                        with_b(st2, sp_patch_list(st2.b, jumps)),
                    ),
                    ArmsOutcome::Failed(st2) => Outcome::Failed(st2),
                    ArmsOutcome::Fault => Outcome::Fault,
                },
                other => other,
            }
        },
        Expression::Ternary(cond, if_true, if_false) => match sp_expr(names, st, *cond) {
            Outcome::Done(st1) => {
                let (b2, false_label) = sp_emit_jump(st1.b, opcode::JUMPNOT);
                match sp_expr(names, with_b(st1, b2), *if_true) {
                    Outcome::Done(st2) => {
                        let (b3, end_label) = sp_emit_jump(st2.b, opcode::JUMP);
                        let b4 = sp_patch_jump(b3, false_label);
                        match sp_expr(names, with_b(st2, b4), *if_false) {
                            Outcome::Done(st3) => Outcome::Done(
                                with_b(st3, sp_patch_jump(st3.b, end_label)),
                            ),
                            other => other,
                        }
                    },
                    other => other,
                }
            },
            other => other,
        },
        Expression::Unary(op, inner) => match sp_expr(names, st, *inner) {
            Outcome::Done(st1) => match unary_selection(op, inner.value.ty) {
                None => Outcome::Fault,
                Some(opc) => Outcome::Done(with_b(st1, sp_emit_byte(st1.b, opc))),
            },
            other => other,
        },
        Expression::Var(ident, _) => match scope_lookup(st.b.locals, ident) {
            Some(pos) => Outcome::Done(
                with_b(st, sp_emit_bytes(st.b, opcode::GETLOCAL, low8(pos as int))),
            ),
            None => match assoc_lookup(st.b.params, ident) {
                Some(offset) => Outcome::Done(
                    with_b(st, sp_emit_bytes(st.b, opcode::GETPARAM, low8(offset as int))),
                ),
                None => Outcome::Failed(
                    CState {
                        b: st.b,
                        diags: st.diags.push(
                            DiagModel { message: "Undefined variable"@, span: e.span },
                        ),
                        objs: st.objs,
                    },
                ),
            },
        },
        Expression::VariantNoData { enum_name, tag } => {
            let b1 = sp_emit_byte(st.b, opcode::ENUM);
            Outcome::Done(
                with_b(st, sp_emit_bytes(b1, low8(enum_name.value as int), low8(tag as int))),
            )
        },
        Expression::VariantWithData { enum_name, tag, inner } => {
            let b1 = sp_emit_byte(st.b, opcode::ENUM);
            let b2 = sp_emit_bytes(b1, low8(enum_name.value as int), low8(tag as int));
            sp_expr(names, with_b(st, b2), *inner)
        },
        Expression::Closure(func) => {
            proof {
                lemma_stmt_height_pos(func.body);
            }
            match sp_function(names, st.diags, st.objs, *func) {
                FnOutcome::Done(diags1, objs1, fm) => {
                    let index = objs1.len() as usize;
                    let st1 = CState {
                        b: st.b,
                        diags: diags1,
                        objs: objs1.push(
                            ObjModel::Function { arity: fm.params.len() as usize, function: fm },
                        ),
                    };
                    sp_constant(st1, Value::Obj(index), e.span)
                },
                FnOutcome::Failed(diags1, objs1) => Outcome::Failed(
                    CState { b: st.b, diags: diags1, objs: objs1 },
                ),
                FnOutcome::Fault => Outcome::Fault,
            }
        },
        Expression::SetProperty(property, instance, value) => match sp_expr(names, st, *value) {
            Outcome::Done(st1) => match sp_expr(names, st1, *instance) {
                Outcome::Done(st2) => Outcome::Done(
                    with_b(st2, sp_emit_bytes(st2.b, opcode::SETPROPERTY, low8(property as int))),
                ),
                other => other,
            },
            other => other,
        },
    }
}

/// Lowers an expression list left to right, stopping at the first
/// failure.
pub open spec fn sp_expr_list(
    names: Seq<Seq<char>>,
    st: CState,
    rest: Seq<Spanned<TypedExpression>>,
) -> Outcome
    decreases exprs_height(rest),
{
    if rest.len() == 0 {
        Outcome::Done(st)
    } else {
        proof {
            lemma_exprs_height_elem(rest, 0);
            lemma_expr_height_pos(rest[0]);
        }
        match sp_expr(names, st, rest[0]) {
            Outcome::Done(st1) => sp_expr_list(names, st1, rest.subrange(1, rest.len() as int)),
            other => other,
        }
    }
}

/// Lowers an expression list right to left (array items are pushed in
/// reverse so the machine pops them in order).
pub open spec fn sp_exprs_rev(
    names: Seq<Seq<char>>,
    st: CState,
    rest: Seq<Spanned<TypedExpression>>,
) -> Outcome
    decreases exprs_height(rest),
{
    if rest.len() == 0 {
        Outcome::Done(st)
    } else {
        proof {
            lemma_exprs_height_elem(rest, rest.len() - 1);
            lemma_exprs_height_drop_last(rest);
        }
        match sp_expr(names, st, rest.last()) {
            Outcome::Done(st1) => sp_exprs_rev(names, st1, rest.drop_last()),
            other => other,
        }
    }
}

/// Lowers class-literal property values right to left.
pub open spec fn sp_props_rev(
    names: Seq<Seq<char>>,
    st: CState,
    rest: Seq<Spanned<Property>>,
) -> Outcome
    decreases props_height(rest),
{
    if rest.len() == 0 {
        Outcome::Done(st)
    } else {
        proof {
            lemma_props_height_elem(rest, rest.len() - 1);
            lemma_props_height_drop_last(rest);
        }
        match sp_expr(names, st, rest.last().value.expr) {
            Outcome::Done(st1) => sp_props_rev(names, st1, rest.drop_last()),
            other => other,
        }
    }
}

/// Short-circuit `and`: the left operand, a `JUMPNOT` over the right
/// operand, the right operand, and the jump patched to land after it. No
/// extra pop: whichever operand decided the result stays on the stack.
pub open spec fn sp_and(
    names: Seq<Seq<char>>,
    st: CState,
    lhs: Spanned<TypedExpression>,
    rhs: Spanned<TypedExpression>,
) -> Outcome
    decreases expr_height(lhs) + expr_height(rhs),
{
    proof {
        lemma_expr_height_pos(lhs);
        lemma_expr_height_pos(rhs);
    }
    match sp_expr(names, st, lhs) {
        Outcome::Done(st1) => {
            let (b2, false_label) = sp_emit_jump(st1.b, opcode::JUMPNOT);
            match sp_expr(names, with_b(st1, b2), rhs) {
                Outcome::Done(st2) => Outcome::Done(
                    with_b(st2, sp_patch_jump(st2.b, false_label)),
                ),
                other => other,
            }
        },
        other => other,
    }
}

/// Short-circuit `or`: the mirror of `and` with `JUMPIF`, and one extra
/// `POP` after the patch to balance stack depth between the two paths.
pub open spec fn sp_or(
    names: Seq<Seq<char>>,
    st: CState,
    lhs: Spanned<TypedExpression>,
    rhs: Spanned<TypedExpression>,
) -> Outcome
    decreases expr_height(lhs) + expr_height(rhs),
{
    proof {
        lemma_expr_height_pos(lhs);
        lemma_expr_height_pos(rhs);
    }
    match sp_expr(names, st, lhs) {
        Outcome::Done(st1) => {
            let (b2, else_label) = sp_emit_jump(st1.b, opcode::JUMPIF);
            match sp_expr(names, with_b(st1, b2), rhs) {
                Outcome::Done(st2) => {
                    let b3 = sp_patch_jump(st2.b, else_label);
                    Outcome::Done(with_b(st2, sp_emit_byte(b3, opcode::POP)))
                },
                other => other,
            }
        },
        other => other,
    }
}

/// Lowers match arms left to right. The scrutinee is re-evaluated for
/// every non-wildcard arm and compared with `EQUAL`; a failed comparison
/// skips the arm's body. Every arm records an end-jump patch point, and
/// `jumps` accumulates them in arm order.
pub open spec fn sp_arms(
    names: Seq<Seq<char>>,
    st: CState,
    cond: Spanned<TypedExpression>,
    arms: Seq<Spanned<MatchArm>>,
    jumps: Seq<int>,
) -> ArmsOutcome
    decreases arms_height(arms) + expr_height(cond),
{
    if arms.len() == 0 {
        ArmsOutcome::Done(st, jumps)
    } else {
        proof {
            lemma_arms_height_elem(arms, 0);
            lemma_arm_height_pos(arms[0]);
            lemma_arm_height_parts(arms[0]);
            lemma_expr_height_pos(cond);
        }
        let arm = arms[0];
        let rest = arms.subrange(1, arms.len() as int);
        if arm.value.is_all {
            match sp_stmt(names, st, arm.value.body) {
                Outcome::Done(st1) => {
                    let (b2, jump) = sp_emit_jump(st1.b, opcode::JUMP);
                    sp_arms(names, with_b(st1, b2), cond, rest, jumps.push(jump))
                },
                Outcome::Failed(st1) => ArmsOutcome::Failed(st1),
                Outcome::Fault => ArmsOutcome::Fault,
            }
        } else {
            match arm.value.pattern {
                None => ArmsOutcome::Fault,
                Some(pattern) => match sp_expr(names, st, pattern) {
                    Outcome::Done(st1) => match sp_expr(names, st1, cond) {
                        Outcome::Done(st2) => {
                            let b3 = sp_emit_byte(st2.b, opcode::EQUAL);
                            let (b4, offset) = sp_emit_jump(b3, opcode::JUMPNOT);
                            match sp_stmt(names, with_b(st2, b4), arm.value.body) {
                                Outcome::Done(st3) => {
                                    let (b5, jump) = sp_emit_jump(st3.b, opcode::JUMP);
                                    let b6 = sp_patch_jump(b5, offset);
                                    sp_arms(names, with_b(st3, b6), cond, rest, jumps.push(jump))
                                },
                                Outcome::Failed(st3) => ArmsOutcome::Failed(st3),
                                Outcome::Fault => ArmsOutcome::Fault,
                            }
                        },
                        Outcome::Failed(st2) => ArmsOutcome::Failed(st2),
                        Outcome::Fault => ArmsOutcome::Fault,
                    },
                    Outcome::Failed(st1) => ArmsOutcome::Failed(st1),
                    Outcome::Fault => ArmsOutcome::Fault,
                },
            }
        }
    }
}

/// Lowers one function declaration as an independent unit: fresh chunk,
/// fresh scope resolver, fresh slot counter, the parameter map built from
/// the declaration; only the diagnostics sink and the allocation list are
/// shared with the enclosing compilation.
pub open spec fn sp_function(
    names: Seq<Seq<char>>,
    diags: Seq<DiagModel>,
    objs: Seq<ObjModel>,
    func: Function,
) -> FnOutcome
    decreases fn_height(func),
{
    proof {
        lemma_stmt_height_pos(func.body);
    }
    let params = param_map(func.params@);
    let st0 = CState { b: initial_bstate(params), diags, objs };
    match sp_stmt(names, st0, func.body) {
        Outcome::Done(st1) => FnOutcome::Done(
            st1.diags,
            st1.objs,
            FunModel {
                name: func.name,
                params,
                body: ChunkModel {
                    code: st1.b.code,
                    lines: st1.b.lines,
                    constants: st1.b.constants,
                },
            },
        ),
        Outcome::Failed(st1) => FnOutcome::Failed(st1.diags, st1.objs),
        Outcome::Fault => FnOutcome::Fault,
    }
}

/// Lowers the methods of a class in order, accumulating the method table.
pub open spec fn sp_methods(
    names: Seq<Seq<char>>,
    diags: Seq<DiagModel>,
    objs: Seq<ObjModel>,
    rest: Seq<Function>,
    acc: Seq<(Symbol, FunModel)>,
) -> ClassOutcomeAcc
    decreases rest.len(),
{
    if rest.len() == 0 {
        ClassOutcomeAcc::Done(diags, objs, acc)
    } else {
        match sp_function(names, diags, objs, rest[0]) {
            FnOutcome::Done(diags1, objs1, fm) => sp_methods(
                names,
                diags1,
                objs1,
                rest.subrange(1, rest.len() as int),
                acc.push((rest[0].name, fm)),
            ),
            FnOutcome::Failed(diags1, objs1) => ClassOutcomeAcc::Failed(diags1, objs1),
            FnOutcome::Fault => ClassOutcomeAcc::Fault,
        }
    }
}

/// How lowering a method list ended.
pub enum ClassOutcomeAcc {
    Done(Seq<DiagModel>, Seq<ObjModel>, Seq<(Symbol, FunModel)>),
    Failed(Seq<DiagModel>, Seq<ObjModel>),
    Fault,
}

/// Lowers one class: each method compiled as an independent function.
pub open spec fn sp_class(
    names: Seq<Seq<char>>,
    diags: Seq<DiagModel>,
    objs: Seq<ObjModel>,
    class: Class,
) -> ClassOutcome {
    match sp_methods(names, diags, objs, class.methods@, Seq::empty()) {
        ClassOutcomeAcc::Done(diags1, objs1, methods) => ClassOutcome::Done(
            diags1,
            objs1,
            ClassModel { name: class.name, methods },
        ),
        ClassOutcomeAcc::Failed(diags1, objs1) => ClassOutcome::Failed(diags1, objs1),
        ClassOutcomeAcc::Fault => ClassOutcome::Fault,
    }
}

/// The single-inheritance method-table merge: every superclass entry whose
/// name the subclass does not already bind is appended, so the subclass's
/// own definitions win on collision. Entries are taken from the most
/// recent superclass entry backwards, so lookups through the merged table
/// agree with lookups through the superclass for inherited names.
pub open spec fn merge_methods(
    own: Seq<(Symbol, FunModel)>,
    superclass: Seq<(Symbol, FunModel)>,
) -> Seq<(Symbol, FunModel)>
    decreases superclass.len(),
{
    if superclass.len() == 0 {
        own
    } else {
        let entry = superclass.last();
        if assoc_contains(own, entry.0) {
            merge_methods(own, superclass.drop_last())
        } else {
            merge_methods(own.push(entry), superclass.drop_last())
        }
    }
}

/// How lowering the whole program ended.
pub enum ProgramOutcome {
    Done(Seq<DiagModel>, Seq<ObjModel>, Seq<(Symbol, FunModel)>, Seq<(Symbol, ClassModel)>),
    Failed(Seq<DiagModel>, Seq<ObjModel>),
    Fault,
}

/// Lowers the top-level functions in source order.
pub open spec fn sp_functions(
    names: Seq<Seq<char>>,
    diags: Seq<DiagModel>,
    objs: Seq<ObjModel>,
    rest: Seq<Function>,
    acc: Seq<(Symbol, FunModel)>,
) -> ClassOutcomeAcc
    decreases rest.len(),
{
    if rest.len() == 0 {
        ClassOutcomeAcc::Done(diags, objs, acc)
    } else {
        match sp_function(names, diags, objs, rest[0]) {
            FnOutcome::Done(diags1, objs1, fm) => sp_functions(
                names,
                diags1,
                objs1,
                rest.subrange(1, rest.len() as int),
                acc.push((rest[0].name, fm)),
            ),
            FnOutcome::Failed(diags1, objs1) => ClassOutcomeAcc::Failed(diags1, objs1),
            FnOutcome::Fault => ClassOutcomeAcc::Fault,
        }
    }
}

/// Lowers the classes in source order. A class naming a superclass that
/// is not already in the table (superclasses must be declared first) is
/// an upstream contract violation. The compiled class's table is merged
/// with its superclass's: subclass definitions win, inherited methods are
/// copied once, at compile time.
pub open spec fn sp_classes(
    names: Seq<Seq<char>>,
    diags: Seq<DiagModel>,
    objs: Seq<ObjModel>,
    rest: Seq<Class>,
    acc: Seq<(Symbol, ClassModel)>,
) -> ClassesOutcomeAcc
    decreases rest.len(),
{
    if rest.len() == 0 {
        ClassesOutcomeAcc::Done(diags, objs, acc)
    } else {
        match sp_class(names, diags, objs, rest[0]) {
            ClassOutcome::Done(diags1, objs1, compiled) => {
                let merged = match rest[0].superclass {
                    None => Some(compiled.methods),
                    Some(superclass) => match assoc_lookup(acc, superclass.value) {
                        Some(super_model) => Some(
                            merge_methods(compiled.methods, super_model.methods),
                        ),
                        None => None,
                    },
                };
                match merged {
                    None => ClassesOutcomeAcc::Fault,
                    Some(methods) => sp_classes(
                        names,
                        diags1,
                        objs1,
                        rest.subrange(1, rest.len() as int),
                        acc.push(
                            (rest[0].name, ClassModel { name: compiled.name, methods }),
                        ),
                    ),
                }
            },
            ClassOutcome::Failed(diags1, objs1) => ClassesOutcomeAcc::Failed(diags1, objs1),
            ClassOutcome::Fault => ClassesOutcomeAcc::Fault,
        }
    }
}

/// How lowering a class list ended.
pub enum ClassesOutcomeAcc {
    Done(Seq<DiagModel>, Seq<ObjModel>, Seq<(Symbol, ClassModel)>),
    Failed(Seq<DiagModel>, Seq<ObjModel>),
    Fault,
}

/// Lowers a whole program: functions first, then classes, against a fresh
/// allocation list.
pub open spec fn sp_program(
    names: Seq<Seq<char>>,
    diags: Seq<DiagModel>,
    program: Program,
) -> ProgramOutcome {
    match sp_functions(names, diags, Seq::empty(), program.functions@, Seq::empty()) {
        ClassOutcomeAcc::Done(diags1, objs1, functions) => {
            match sp_classes(names, diags1, objs1, program.classes@, Seq::empty()) {
                ClassesOutcomeAcc::Done(diags2, objs2, classes) => ProgramOutcome::Done(
                    diags2,
                    objs2,
                    functions,
                    classes,
                ),
                ClassesOutcomeAcc::Failed(diags2, objs2) => ProgramOutcome::Failed(diags2, objs2),
                ClassesOutcomeAcc::Fault => ProgramOutcome::Fault,
            }
        },
        ClassOutcomeAcc::Failed(diags1, objs1) => ProgramOutcome::Failed(diags1, objs1),
        ClassOutcomeAcc::Fault => ProgramOutcome::Fault,
    }
}

} // verus!
