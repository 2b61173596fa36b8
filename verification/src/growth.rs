//! The pass only appends: lowering a construct leaves every byte,
//! constant, diagnostic and heap object that existed before it untouched.
//!
//! Jump patching writes into the chunk, but only at placeholder offsets
//! created within the same construct, never below the point where the
//! construct began; these lemmas make that precise. The executable
//! compiler leans on them to discharge the patching preconditions, and
//! the laws lean on them to pin down the layout of compiled control flow.

use vstd::prelude::*;

use crate::ast::{
    arms_height, expr_height, exprs_height, fn_height, props_height, stmt_height,
    stmts_height, Expression, Function, Literal, MatchArm, Property, Statement, TypedExpression, TypedStatement,
};
use crate::heap::ObjModel;
use crate::lower::{
    initial_bstate, param_map, sp_and, sp_arms, sp_constant, sp_emit_byte,
    sp_emit_bytes, sp_emit_jump, sp_emit_loop, sp_expr, sp_expr_list, sp_exprs_rev, sp_function,
    sp_make_constant, sp_or, sp_patch_jump, sp_patch_list, sp_props_rev,
    sp_set_span, sp_stmt, sp_stmt_list, sp_tag_bytes_rev, with_b, ArmsOutcome, BState, CState,
    FnOutcome, Outcome,
};
use crate::pos::{Span, Spanned};
use crate::report::DiagModel;
use crate::value::Value;

verus! {

/// `a` is an unchanged initial segment of `b`.
pub open spec fn seq_prefix_of<T>(a: Seq<T>, b: Seq<T>) -> bool {
    a.len() <= b.len() && b.subrange(0, a.len() as int) == a
}

/// The builder after a construct extends the builder before it: the chunk
/// and the line table only grew and agree on the old region, the constant
/// pool only grew, the parameter map is untouched, the slot counter never
/// moves backwards, and a well-formed line table (one entry per byte)
/// stays well-formed.
pub open spec fn builder_grows(pre: BState, post: BState) -> bool {
    &&& seq_prefix_of(pre.code, post.code)
    &&& seq_prefix_of(pre.lines, post.lines)
    &&& seq_prefix_of(pre.constants, post.constants)
    &&& post.params == pre.params
    &&& pre.slots <= post.slots
    &&& pre.code.len() == pre.lines.len() ==> post.code.len() == post.lines.len()
}

/// The whole state after a construct extends the state before it.
pub open spec fn state_grows(pre: CState, post: CState) -> bool {
    &&& builder_grows(pre.b, post.b)
    &&& seq_prefix_of(pre.diags, post.diags)
    &&& seq_prefix_of(pre.objs, post.objs)
}

/// Both non-fault ends of an outcome extend the input state.
pub open spec fn outcome_grows(pre: CState, outcome: Outcome) -> bool {
    match outcome {
        Outcome::Done(post) => state_grows(pre, post),
        Outcome::Failed(post) => state_grows(pre, post),
        Outcome::Fault => true,
    }
}

pub proof fn lemma_prefix_refl<T>(a: Seq<T>)
    ensures
        seq_prefix_of(a, a),
{
    assert(a.subrange(0, a.len() as int) =~= a);
}

pub proof fn lemma_prefix_trans<T>(a: Seq<T>, b: Seq<T>, c: Seq<T>)
    requires
        seq_prefix_of(a, b),
        seq_prefix_of(b, c),
    ensures
        seq_prefix_of(a, c),
{
    assert(c.subrange(0, a.len() as int) =~= b.subrange(0, a.len() as int));
    assert(b.subrange(0, a.len() as int) =~= a);
}

pub proof fn lemma_prefix_push<T>(a: Seq<T>, b: Seq<T>, x: T)
    requires
        seq_prefix_of(a, b),
    ensures
        seq_prefix_of(a, b.push(x)),
{
    assert(b.push(x).subrange(0, a.len() as int) =~= b.subrange(0, a.len() as int));
}

pub proof fn lemma_prefix_update<T>(a: Seq<T>, b: Seq<T>, i: int, x: T)
    requires
        seq_prefix_of(a, b),
        a.len() <= i < b.len(),
    ensures
        seq_prefix_of(a, b.update(i, x)),
{
    assert(b.update(i, x).subrange(0, a.len() as int) =~= b.subrange(0, a.len() as int));
}

/// An index inside the preserved initial segment reads the old value.
pub proof fn lemma_prefix_index<T>(a: Seq<T>, b: Seq<T>, i: int)
    requires
        seq_prefix_of(a, b),
        0 <= i < a.len(),
    ensures
        b[i] == a[i],
{
    assert(b.subrange(0, a.len() as int)[i] == b[i]);
}

pub proof fn lemma_grows_refl(b: BState)
    ensures
        builder_grows(b, b),
{
    lemma_prefix_refl(b.code);
    lemma_prefix_refl(b.lines);
    lemma_prefix_refl(b.constants);
}

pub proof fn lemma_state_grows_refl(st: CState)
    ensures
        state_grows(st, st),
{
    lemma_grows_refl(st.b);
    lemma_prefix_refl(st.diags);
    lemma_prefix_refl(st.objs);
}

pub proof fn lemma_grows_trans(a: BState, b: BState, c: BState)
    requires
        builder_grows(a, b),
        builder_grows(b, c),
    ensures
        builder_grows(a, c),
{
    lemma_prefix_trans(a.code, b.code, c.code);
    lemma_prefix_trans(a.lines, b.lines, c.lines);
    lemma_prefix_trans(a.constants, b.constants, c.constants);
}

pub proof fn lemma_state_grows_trans(a: CState, b: CState, c: CState)
    requires
        state_grows(a, b),
        state_grows(b, c),
    ensures
        state_grows(a, c),
{
    lemma_grows_trans(a.b, b.b, c.b);
    lemma_prefix_trans(a.diags, b.diags, c.diags);
    lemma_prefix_trans(a.objs, b.objs, c.objs);
}

/// Replacing the builder part with an extension of it extends the state.
pub proof fn lemma_state_grows_with_b(st: CState, b: BState)
    requires
        builder_grows(st.b, b),
    ensures
        state_grows(st, with_b(st, b)),
{
    lemma_prefix_refl(st.diags);
    lemma_prefix_refl(st.objs);
}

/// Emitting a byte onto a grown builder keeps it grown.
pub proof fn lemma_grows_emit_byte(pre: BState, b: BState, byte: u8)
    requires
        builder_grows(pre, b),
    ensures
        builder_grows(pre, sp_emit_byte(b, byte)),
{
    lemma_prefix_push(pre.code, b.code, byte);
    lemma_prefix_push(pre.lines, b.lines, b.line);
}

pub proof fn lemma_grows_emit_bytes(pre: BState, b: BState, byte1: u8, byte2: u8)
    requires
        builder_grows(pre, b),
    ensures
        builder_grows(pre, sp_emit_bytes(b, byte1, byte2)),
{
    lemma_grows_emit_byte(pre, b, byte1);
    lemma_grows_emit_byte(pre, sp_emit_byte(b, byte1), byte2);
}

/// Advancing the line counter changes no buffer.
pub proof fn lemma_grows_set_span(pre: BState, b: BState, span: Span)
    requires
        builder_grows(pre, b),
    ensures
        builder_grows(pre, sp_set_span(b, span)),
{
}

/// An emitted jump only appends, and its patch point sits wholly above
/// everything already emitted.
pub proof fn lemma_grows_emit_jump(pre: BState, b: BState, byte: u8)
    requires
        builder_grows(pre, b),
    ensures
        builder_grows(pre, sp_emit_jump(b, byte).0),
        sp_emit_jump(b, byte).1 == b.code.len() + 1,
        sp_emit_jump(b, byte).0.code.len() == b.code.len() + 3,
{
    lemma_grows_emit_byte(pre, b, byte);
    lemma_grows_emit_byte(pre, sp_emit_byte(b, byte), 0xff);
    lemma_grows_emit_byte(pre, sp_emit_byte(sp_emit_byte(b, byte), 0xff), 0xff);
}

/// The backward jump only appends.
pub proof fn lemma_grows_emit_loop(pre: BState, b: BState, loop_start: int)
    requires
        builder_grows(pre, b),
    ensures
        builder_grows(pre, sp_emit_loop(b, loop_start)),
        sp_emit_loop(b, loop_start).code.len() == b.code.len() + 3,
{
    let b1 = sp_emit_byte(b, crate::opcode::LOOP);
    let dist = b1.code.len() - loop_start + 2;
    lemma_grows_emit_byte(pre, b, crate::opcode::LOOP);
    lemma_grows_emit_bytes(pre, b1, crate::lower::high8(dist), crate::lower::low8(dist));
}

/// Patching a placeholder that sits at or above the old region leaves the
/// old region intact.
pub proof fn lemma_grows_patch(pre: BState, b: BState, offset: int)
    requires
        builder_grows(pre, b),
        offset >= pre.code.len(),
        offset + 2 <= b.code.len(),
    ensures
        builder_grows(pre, sp_patch_jump(b, offset)),
        sp_patch_jump(b, offset).code.len() == b.code.len(),
{
    let dist = b.code.len() - offset - 2;
    lemma_prefix_update(pre.code, b.code, offset, crate::lower::high8(dist));
    lemma_prefix_update(
        pre.code,
        b.code.update(offset, crate::lower::high8(dist)),
        offset + 1,
        crate::lower::low8(dist),
    );
}

/// Inserting a constant only appends, to the pool and possibly to the
/// diagnostics.
pub proof fn lemma_grows_make_constant(pre: CState, st: CState, value: Value, span: Span)
    requires
        state_grows(pre, st),
    ensures
        state_grows(pre, sp_make_constant(st, value, span).0),
{
    lemma_prefix_push(pre.b.constants, st.b.constants, value);
    if st.b.constants.len() >= 255 {
        lemma_prefix_push(
            pre.diags,
            st.diags,
            DiagModel { message: "too many constants in one chunk"@, span },
        );
    }
}

/// Emitting a constant-load only appends.
pub proof fn lemma_grows_constant(pre: CState, st: CState, value: Value, span: Span)
    requires
        state_grows(pre, st),
    ensures
        outcome_grows(pre, sp_constant(st, value, span)),
{
    lemma_grows_make_constant(pre, st, value, span);
    let (st1, index) = sp_make_constant(st, value, span);
    match index {
        Some(i) => {
            lemma_grows_emit_bytes(pre.b, st1.b, crate::opcode::CONSTANT, i);
        },
        None => {},
    }
}

/// Patching a list of placeholders, all at or above the old region and all
/// within the chunk, leaves the old region intact and the length alone.
pub proof fn lemma_grows_patch_list(pre: BState, b: BState, jumps: Seq<int>)
    requires
        builder_grows(pre, b),
        forall|k: int|
            0 <= k < jumps.len() ==> pre.code.len() <= #[trigger] jumps[k] && jumps[k] + 2
                <= b.code.len(),
    ensures
        builder_grows(pre, sp_patch_list(b, jumps)),
        sp_patch_list(b, jumps).code.len() == b.code.len(),
    decreases jumps.len(),
{
    if jumps.len() == 0 {
    } else {
        lemma_grows_patch(pre, b, jumps[0]);
        lemma_grows_patch_list(pre, sp_patch_jump(b, jumps[0]), jumps.subrange(1, jumps.len() as int));
    }
}

/// The reversed property-tag bytes only append.
pub proof fn lemma_grows_tag_bytes_rev(pre: BState, b: BState, ps: Seq<Spanned<Property>>)
    requires
        builder_grows(pre, b),
    ensures
        builder_grows(pre, sp_tag_bytes_rev(b, ps)),
    decreases ps.len(),
{
    if ps.len() == 0 {
    } else {
        lemma_grows_emit_byte(pre, b, crate::lower::low8(ps.last().value.name as int));
        lemma_grows_tag_bytes_rev(
            pre,
            sp_emit_byte(b, crate::lower::low8(ps.last().value.name as int)),
            ps.drop_last(),
        );
    }
}

/// Lowering a statement only appends to the state it starts from.
#[verifier::rlimit(100)]
#[verifier::spinoff_prover]
pub proof fn lemma_sp_stmt_grows(names: Seq<Seq<char>>, st0: CState, stmt: Spanned<TypedStatement>)
    ensures
        outcome_grows(st0, sp_stmt(names, st0, stmt)),
    decreases stmt_height(stmt), 2nat,
{
    lemma_state_grows_refl(st0);
    let st = with_b(st0, sp_set_span(st0.b, stmt.span));
    lemma_grows_set_span(st0.b, st0.b, stmt.span);
    assert(state_grows(st0, st));
    match stmt.value.statement.value {
        Statement::Block(statements) => {
            let entered = with_b(st, BState { locals: st.b.locals.push(None), ..st.b });
            assert(state_grows(st0, entered));
            lemma_sp_stmt_list_grows(names, entered, statements@);
            match sp_stmt_list(names, entered, statements@) {
                Outcome::Done(st1) => {
                    lemma_state_grows_trans(st0, entered, st1);
                },
                Outcome::Failed(st1) => {
                    lemma_state_grows_trans(st0, entered, st1);
                },
                Outcome::Fault => {},
            }
        },
        Statement::Break => {
            match st.b.cur_loop {
                None => {},
                Some(description) => {
                    lemma_grows_emit_bytes(
                        st0.b,
                        st.b,
                        crate::opcode::JUMP,
                        crate::lower::low8(description.end as int),
                    );
                },
            }
        },
        Statement::Continue => {
            match st.b.cur_loop {
                None => {},
                Some(description) => {
                    lemma_grows_emit_bytes(
                        st0.b,
                        st.b,
                        crate::opcode::JUMP,
                        crate::lower::low8(description.start as int),
                    );
                },
            }
        },
        Statement::Expr(e) => {
            lemma_sp_expr_grows(names, st, e);
            lemma_outcome_trans(st0, st, sp_expr(names, st, e));
        },
        Statement::Print(e) => {
            lemma_sp_expr_grows(names, st, e);
            match sp_expr(names, st, e) {
                Outcome::Done(st1) => {
                    lemma_state_grows_trans(st0, st, st1);
                    lemma_grows_emit_byte(st0.b, st1.b, crate::opcode::PRINT);
                },
                Outcome::Failed(st1) => {
                    lemma_state_grows_trans(st0, st, st1);
                },
                Outcome::Fault => {},
            }
        },
        Statement::Return(e) => {
            lemma_sp_expr_grows(names, st, e);
            match sp_expr(names, st, e) {
                Outcome::Done(st1) => {
                    lemma_state_grows_trans(st0, st, st1);
                    lemma_grows_emit_byte(st0.b, st1.b, crate::opcode::RETURN);
                },
                Outcome::Failed(st1) => {
                    lemma_state_grows_trans(st0, st, st1);
                },
                Outcome::Fault => {},
            }
        },
        Statement::If { cond, then, otherwise: None } => {
            lemma_sp_expr_grows(names, st, cond);
            match sp_expr(names, st, cond) {
                Outcome::Done(st1) => {
                    lemma_state_grows_trans(st0, st, st1);
                    let (b2, false_label) = sp_emit_jump(st1.b, crate::opcode::JUMPNOT);
                    lemma_grows_refl(st1.b);
                    lemma_grows_emit_jump(st1.b, st1.b, crate::opcode::JUMPNOT);
                    let b3 = sp_emit_byte(b2, crate::opcode::POP);
                    lemma_grows_emit_byte(st1.b, b2, crate::opcode::POP);
                    let mid = with_b(st1, b3);
                    lemma_state_grows_with_b(st1, b3);
                    lemma_state_grows_trans(st0, st1, mid);
                    lemma_sp_stmt_grows(names, mid, *then);
                    match sp_stmt(names, mid, *then) {
                        Outcome::Done(st2) => {
                            lemma_state_grows_trans(st0, mid, st2);
                            lemma_grows_trans(st1.b, b3, st2.b);
                            lemma_grows_patch(st1.b, st2.b, false_label);
                            lemma_grows_trans(st0.b, st1.b, sp_patch_jump(st2.b, false_label));
                            lemma_grows_emit_byte(
                                st0.b,
                                sp_patch_jump(st2.b, false_label),
                                crate::opcode::POP,
                            );
                        },
                        Outcome::Failed(st2) => {
                            lemma_state_grows_trans(st0, mid, st2);
                        },
                        Outcome::Fault => {},
                    }
                },
                Outcome::Failed(st1) => {
                    lemma_state_grows_trans(st0, st, st1);
                },
                Outcome::Fault => {},
            }
        },
        Statement::If { cond, then, otherwise: Some(otherwise) } => {
            lemma_sp_expr_grows(names, st, cond);
            match sp_expr(names, st, cond) {
                Outcome::Done(st1) => {
                    lemma_state_grows_trans(st0, st, st1);
                    let (b2, false_label) = sp_emit_jump(st1.b, crate::opcode::JUMPNOT);
                    lemma_grows_refl(st1.b);
                    lemma_grows_emit_jump(st1.b, st1.b, crate::opcode::JUMPNOT);
                    let b3 = sp_emit_byte(b2, crate::opcode::POP);
                    lemma_grows_emit_byte(st1.b, b2, crate::opcode::POP);
                    let mid = with_b(st1, b3);
                    lemma_state_grows_with_b(st1, b3);
                    lemma_state_grows_trans(st0, st1, mid);
                    lemma_sp_stmt_grows(names, mid, *then);
                    match sp_stmt(names, mid, *then) {
                        Outcome::Done(st2) => {
                            lemma_state_grows_trans(st0, mid, st2);
                            lemma_grows_trans(st1.b, b3, st2.b);
                            let (b4, end_label) = sp_emit_jump(st2.b, crate::opcode::JUMP);
                            lemma_grows_emit_jump(st1.b, st2.b, crate::opcode::JUMP);
                            lemma_grows_patch(st1.b, b4, false_label);
                            let b5 = sp_patch_jump(b4, false_label);
                            lemma_grows_emit_byte(st1.b, b5, crate::opcode::POP);
                            let b6 = sp_emit_byte(b5, crate::opcode::POP);
                            let mid2 = with_b(st2, b6);
                            lemma_grows_trans(st0.b, st1.b, b6);
                            assert(state_grows(st0, mid2));
                            lemma_sp_stmt_grows(names, mid2, *otherwise);
                            match sp_stmt(names, mid2, *otherwise) {
                                Outcome::Done(st3) => {
                                    lemma_state_grows_trans(st0, mid2, st3);
                                    lemma_grows_trans(st1.b, b6, st3.b);
                                    lemma_grows_patch(st1.b, st3.b, end_label);
                                    lemma_grows_trans(
                                        st0.b,
                                        st1.b,
                                        sp_patch_jump(st3.b, end_label),
                                    );
                                },
                                Outcome::Failed(st3) => {
                                    lemma_state_grows_trans(st0, mid2, st3);
                                },
                                Outcome::Fault => {},
                            }
                        },
                        Outcome::Failed(st2) => {
                            lemma_state_grows_trans(st0, mid, st2);
                        },
                        Outcome::Fault => {},
                    }
                },
                Outcome::Failed(st1) => {
                    lemma_state_grows_trans(st0, st, st1);
                },
                Outcome::Fault => {},
            }
        },
        Statement::Let { ident, ty: _, expr } => {
            let after = match expr {
                Some(e) => {
                    lemma_sp_expr_grows(names, st, e);
                    sp_expr(names, st, e)
                },
                None => {
                    lemma_grows_constant(st, st, Value::Nil, stmt.span);
                    sp_constant(st, Value::Nil, stmt.span)
                },
            };
            lemma_outcome_trans(st0, st, after);
            match after {
                Outcome::Done(st1) => {
                    if st1.b.slots == u32::MAX {
                    } else {
                        let slot = st1.b.slots;
                        let b2 = BState {
                            slots: (st1.b.slots + 1) as u32,
                            locals: st1.b.locals.push(Some((ident, slot as usize))),
                            ..st1.b
                        };
                        lemma_grows_refl(st1.b);
                        assert(builder_grows(st1.b, b2));
                        lemma_grows_emit_bytes(
                            st1.b,
                            b2,
                            crate::opcode::SETLOCAL,
                            crate::lower::low8(slot as int),
                        );
                        lemma_grows_trans(
                            st0.b,
                            st1.b,
                            sp_emit_bytes(
                                b2,
                                crate::opcode::SETLOCAL,
                                crate::lower::low8(slot as int),
                            ),
                        );
                    }
                },
                _ => {},
            }
        },
        Statement::While(cond, body) => {
            let start_label = st.b.code.len() as int;
            lemma_sp_expr_grows(names, st, cond);
            match sp_expr(names, st, cond) {
                Outcome::Done(st1) => {
                    lemma_state_grows_trans(st0, st, st1);
                    let (b2, out) = sp_emit_jump(st1.b, crate::opcode::JUMPNOT);
                    lemma_grows_refl(st1.b);
                    lemma_grows_emit_jump(st1.b, st1.b, crate::opcode::JUMPNOT);
                    let b3 = BState {
                        cur_loop: Some(
                            crate::lower::LoopDescription {
                                start: start_label as usize,
                                end: out as usize,
                            },
                        ),
                        ..b2
                    };
                    assert(builder_grows(st1.b, b3));
                    let b4 = sp_emit_byte(b3, crate::opcode::POP);
                    lemma_grows_emit_byte(st1.b, b3, crate::opcode::POP);
                    let mid = with_b(st1, b4);
                    lemma_state_grows_with_b(st1, b4);
                    lemma_state_grows_trans(st0, st1, mid);
                    lemma_sp_stmt_grows(names, mid, *body);
                    match sp_stmt(names, mid, *body) {
                        Outcome::Done(st2) => {
                            lemma_state_grows_trans(st0, mid, st2);
                            lemma_grows_trans(st1.b, b4, st2.b);
                            let b5 = sp_emit_loop(st2.b, start_label);
                            lemma_grows_emit_loop(st1.b, st2.b, start_label);
                            lemma_grows_patch(st1.b, b5, out);
                            let b6 = sp_patch_jump(b5, out);
                            lemma_grows_emit_byte(st1.b, b6, crate::opcode::POP);
                            lemma_grows_trans(st0.b, st1.b, sp_emit_byte(b6, crate::opcode::POP));
                        },
                        Outcome::Failed(st2) => {
                            lemma_state_grows_trans(st0, mid, st2);
                        },
                        Outcome::Fault => {},
                    }
                },
                Outcome::Failed(st1) => {
                    lemma_state_grows_trans(st0, st, st1);
                },
                Outcome::Fault => {},
            }
        },
    }
}

/// An outcome that extends `mid` extends anything `mid` extends.
pub proof fn lemma_outcome_trans(pre: CState, mid: CState, outcome: Outcome)
    requires
        state_grows(pre, mid),
        outcome_grows(mid, outcome),
    ensures
        outcome_grows(pre, outcome),
{
    match outcome {
        Outcome::Done(st) => lemma_state_grows_trans(pre, mid, st),
        Outcome::Failed(st) => lemma_state_grows_trans(pre, mid, st),
        Outcome::Fault => {},
    }
}

/// Lowering a statement list only appends.
pub proof fn lemma_sp_stmt_list_grows(
    names: Seq<Seq<char>>,
    st: CState,
    rest: Seq<Spanned<TypedStatement>>,
)
    ensures
        outcome_grows(st, sp_stmt_list(names, st, rest)),
    decreases stmts_height(rest), 2nat,
{
    lemma_state_grows_refl(st);
    if rest.len() == 0 {
    } else {
        proof_stmts_bounds(rest);
        lemma_sp_stmt_grows(names, st, rest[0]);
        match sp_stmt(names, st, rest[0]) {
            Outcome::Done(st1) => {
                lemma_sp_stmt_list_grows(names, st1, rest.subrange(1, rest.len() as int));
                lemma_outcome_trans(
                    st,
                    st1,
                    sp_stmt_list(names, st1, rest.subrange(1, rest.len() as int)),
                );
            },
            _ => {},
        }
    }
}

/// The height facts a statement-list step needs.
proof fn proof_stmts_bounds(rest: Seq<Spanned<TypedStatement>>)
    requires
        rest.len() > 0,
    ensures
        stmt_height(rest[0]) < stmts_height(rest),
        stmts_height(rest.subrange(1, rest.len() as int)) < stmts_height(rest),
{
    crate::ast::lemma_stmts_height_elem(rest, 0);
    crate::ast::lemma_stmt_height_pos(rest[0]);
}

/// The height facts an expression-list step needs.
proof fn proof_exprs_bounds(rest: Seq<Spanned<TypedExpression>>)
    requires
        rest.len() > 0,
    ensures
        expr_height(rest[0]) < exprs_height(rest),
        expr_height(rest.last()) < exprs_height(rest),
        exprs_height(rest.subrange(1, rest.len() as int)) < exprs_height(rest),
        exprs_height(rest.drop_last()) < exprs_height(rest),
{
    crate::ast::lemma_exprs_height_elem(rest, 0);
    crate::ast::lemma_exprs_height_elem(rest, rest.len() - 1);
    crate::ast::lemma_expr_height_pos(rest[0]);
    crate::ast::lemma_exprs_height_drop_last(rest);
}

/// Lowering an expression only appends.
#[verifier::rlimit(100)]
#[verifier::spinoff_prover]
pub proof fn lemma_sp_expr_grows(names: Seq<Seq<char>>, st0: CState, e: Spanned<TypedExpression>)
    ensures
        outcome_grows(st0, sp_expr(names, st0, e)),
    decreases expr_height(e), 2nat,
{
    lemma_state_grows_refl(st0);
    let st = with_b(st0, sp_set_span(st0.b, e.span));
    lemma_grows_set_span(st0.b, st0.b, e.span);
    assert(state_grows(st0, st));
    match e.value.expr.value {
        Expression::Assign(ident, op, rhs) => {
            match op {
                crate::ast::AssignOperator::Equal => {
                    lemma_sp_expr_grows(names, st, *rhs);
                    match sp_expr(names, st, *rhs) {
                        Outcome::Done(st1) => {
                            lemma_state_grows_trans(st0, st, st1);
                            assert forall|byte: u8|
                                builder_grows(
                                    st0.b,
                                    sp_emit_bytes(st1.b, crate::opcode::SETLOCAL, byte),
                                ) by {
                                lemma_grows_emit_bytes(st0.b, st1.b, crate::opcode::SETLOCAL, byte);
                            }
                        },
                        Outcome::Failed(st1) => {
                            lemma_state_grows_trans(st0, st, st1);
                        },
                        Outcome::Fault => {},
                    }
                },
                _ => {
                    match crate::scope::scope_lookup(st.b.locals, ident) {
                        None => {},
                        Some(pos) => {
                            let b1 = sp_emit_bytes(
                                st.b,
                                crate::opcode::GETLOCAL,
                                crate::lower::low8(pos as int),
                            );
                            lemma_grows_refl(st.b);
                            lemma_grows_emit_bytes(
                                st.b,
                                st.b,
                                crate::opcode::GETLOCAL,
                                crate::lower::low8(pos as int),
                            );
                            let mid = with_b(st, b1);
                            lemma_state_grows_with_b(st, b1);
                            lemma_state_grows_trans(st0, st, mid);
                            lemma_sp_expr_grows(names, mid, *rhs);
                            match sp_expr(names, mid, *rhs) {
                                Outcome::Done(st1) => {
                                    lemma_state_grows_trans(st0, mid, st1);
                                    match crate::lower::compound_selection(op, rhs.value.ty) {
                                        Some(selected) => {
                                            lemma_grows_emit_byte(st0.b, st1.b, selected);
                                            lemma_grows_emit_bytes(
                                                st0.b,
                                                sp_emit_byte(st1.b, selected),
                                                crate::opcode::SETLOCAL,
                                                crate::lower::low8(pos as int),
                                            );
                                        },
                                        None => {},
                                    }
                                },
                                Outcome::Failed(st1) => {
                                    lemma_state_grows_trans(st0, mid, st1);
                                },
                                Outcome::Fault => {},
                            }
                        },
                    }
                },
            }
        },
        Expression::Array(items) => {
            lemma_sp_exprs_rev_grows(names, st, items@);
            match sp_exprs_rev(names, st, items@) {
                Outcome::Done(st1) => {
                    lemma_state_grows_trans(st0, st, st1);
                    lemma_grows_emit_bytes(
                        st0.b,
                        st1.b,
                        crate::opcode::ARRAY,
                        crate::lower::low8(items@.len() as int),
                    );
                },
                Outcome::Failed(st1) => {
                    lemma_state_grows_trans(st0, st, st1);
                },
                Outcome::Fault => {},
            }
        },
        Expression::Index(target, index) => {
            lemma_sp_expr_grows(names, st, *target);
            match sp_expr(names, st, *target) {
                Outcome::Done(st1) => {
                    lemma_state_grows_trans(st0, st, st1);
                    lemma_sp_expr_grows(names, st1, *index);
                    match sp_expr(names, st1, *index) {
                        Outcome::Done(st2) => {
                            lemma_state_grows_trans(st0, st1, st2);
                            lemma_grows_emit_byte(st0.b, st2.b, crate::opcode::INDEXSTRING);
                            lemma_grows_emit_byte(st0.b, st2.b, crate::opcode::INDEXARRAY);
                        },
                        Outcome::Failed(st2) => {
                            lemma_state_grows_trans(st0, st1, st2);
                        },
                        Outcome::Fault => {},
                    }
                },
                Outcome::Failed(st1) => {
                    lemma_state_grows_trans(st0, st, st1);
                },
                Outcome::Fault => {},
            }
        },
        Expression::Literal(lit) => {
            match lit {
                Literal::False(_) => {
                    lemma_grows_emit_byte(st0.b, st.b, crate::opcode::FALSE);
                },
                Literal::True(_) => {
                    lemma_grows_emit_byte(st0.b, st.b, crate::opcode::TRUE);
                },
                Literal::Nil => {
                    lemma_grows_emit_byte(st0.b, st.b, crate::opcode::NIL);
                },
                Literal::Int(n) => {
                    lemma_grows_constant(st0, st, Value::Int(n), e.value.expr.span);
                },
                Literal::Float(bits) => {
                    lemma_grows_constant(st0, st, Value::Float(bits), e.value.expr.span);
                },
                Literal::Str(s) => {
                    let index = st.objs.len() as usize;
                    let st1 = CState {
                        b: st.b,
                        diags: st.diags,
                        objs: st.objs.push(ObjModel::Str(s@)),
                    };
                    lemma_prefix_push(st0.objs, st.objs, ObjModel::Str(s@));
                    assert(state_grows(st0, st1));
                    lemma_grows_constant(st0, st1, Value::Obj(index), e.value.expr.span);
                },
            }
        },
        Expression::Binary(lhs, op, rhs) => {
            if op == crate::ast::Op::And {
                lemma_sp_and_grows(names, st, *lhs, *rhs);
                lemma_outcome_trans(st0, st, sp_and(names, st, *lhs, *rhs));
            } else if op == crate::ast::Op::Or {
                lemma_sp_or_grows(names, st, *lhs, *rhs);
                lemma_outcome_trans(st0, st, sp_or(names, st, *lhs, *rhs));
            } else {
                lemma_sp_expr_grows(names, st, *lhs);
                match sp_expr(names, st, *lhs) {
                    Outcome::Done(st1) => {
                        lemma_state_grows_trans(st0, st, st1);
                        lemma_sp_expr_grows(names, st1, *rhs);
                        match sp_expr(names, st1, *rhs) {
                            Outcome::Done(st2) => {
                                lemma_state_grows_trans(st0, st1, st2);
                                match crate::lower::binary_selection(e.value.ty, lhs.value.ty, op) {
                                    Some(selected) => {
                                        lemma_grows_emit_byte(st0.b, st2.b, selected.0);
                                        lemma_grows_emit_bytes(
                                            st0.b,
                                            st2.b,
                                            selected.0,
                                            crate::opcode::NOT,
                                        );
                                    },
                                    None => {},
                                }
                            },
                            Outcome::Failed(st2) => {
                                lemma_state_grows_trans(st0, st1, st2);
                            },
                            Outcome::Fault => {},
                        }
                    },
                    Outcome::Failed(st1) => {
                        lemma_state_grows_trans(st0, st, st1);
                    },
                    Outcome::Fault => {},
                }
            }
        },
        Expression::Cast(from, _) => {
            lemma_sp_expr_grows(names, st, *from);
            match sp_expr(names, st, *from) {
                Outcome::Done(st1) => {
                    lemma_state_grows_trans(st0, st, st1);
                    assert forall|opc: u8| builder_grows(st0.b, sp_emit_byte(st1.b, opc)) by {
                        lemma_grows_emit_byte(st0.b, st1.b, opc);
                    }
                },
                Outcome::Failed(st1) => {
                    lemma_state_grows_trans(st0, st, st1);
                },
                Outcome::Fault => {},
            }
        },
        Expression::Call(callee, args) => {
            lemma_sp_expr_list_grows(names, st, args@);
            match sp_expr_list(names, st, args@) {
                Outcome::Done(st1) => {
                    lemma_state_grows_trans(st0, st, st1);
                    lemma_grows_emit_bytes(
                        st0.b,
                        st1.b,
                        crate::opcode::CALLNATIVE,
                        crate::lower::low8(callee as int),
                    );
                    lemma_grows_emit_bytes(
                        st0.b,
                        st1.b,
                        crate::opcode::CALL,
                        crate::lower::low8(callee as int),
                    );
                    lemma_grows_emit_byte(
                        st0.b,
                        sp_emit_bytes(st1.b, crate::opcode::CALL, crate::lower::low8(callee as int)),
                        crate::lower::low8(args@.len() as int),
                    );
                },
                Outcome::Failed(st1) => {
                    lemma_state_grows_trans(st0, st, st1);
                },
                Outcome::Fault => {},
            }
        },
        Expression::ClassLiteral { symbol, properties } => {
            lemma_sp_props_rev_grows(names, st, properties@);
            match sp_props_rev(names, st, properties@) {
                Outcome::Done(st1) => {
                    lemma_state_grows_trans(st0, st, st1);
                    let b2 = sp_emit_bytes(
                        st1.b,
                        crate::opcode::CLASSINSTANCE,
                        crate::lower::low8(symbol as int),
                    );
                    lemma_grows_emit_bytes(
                        st0.b,
                        st1.b,
                        crate::opcode::CLASSINSTANCE,
                        crate::lower::low8(symbol as int),
                    );
                    let b3 = sp_emit_byte(b2, crate::lower::low8(properties@.len() as int));
                    lemma_grows_emit_byte(st0.b, b2, crate::lower::low8(properties@.len() as int));
                    lemma_grows_tag_bytes_rev(st0.b, b3, properties@);
                },
                Outcome::Failed(st1) => {
                    lemma_state_grows_trans(st0, st, st1);
                },
                Outcome::Fault => {},
            }
        },
        Expression::InstanceMethodCall { method_name, instance, params } => {
            lemma_sp_expr_list_grows(names, st, params@);
            match sp_expr_list(names, st, params@) {
                Outcome::Done(st1) => {
                    lemma_state_grows_trans(st0, st, st1);
                    lemma_sp_expr_grows(names, st1, *instance);
                    match sp_expr(names, st1, *instance) {
                        Outcome::Done(st2) => {
                            lemma_state_grows_trans(st0, st1, st2);
                            let b3 = sp_emit_byte(st2.b, crate::opcode::CALLINSTANCEMETHOD);
                            lemma_grows_emit_byte(st0.b, st2.b, crate::opcode::CALLINSTANCEMETHOD);
                            lemma_grows_emit_bytes(
                                st0.b,
                                b3,
                                crate::lower::low8(method_name as int),
                                crate::lower::low8(params@.len() as int),
                            );
                        },
                        Outcome::Failed(st2) => {
                            lemma_state_grows_trans(st0, st1, st2);
                        },
                        Outcome::Fault => {},
                    }
                },
                Outcome::Failed(st1) => {
                    lemma_state_grows_trans(st0, st, st1);
                },
                Outcome::Fault => {},
            }
        },
        Expression::StaticMethodCall { class_name, method_name, params } => {
            lemma_sp_expr_list_grows(names, st, params@);
            match sp_expr_list(names, st, params@) {
                Outcome::Done(st1) => {
                    lemma_state_grows_trans(st0, st, st1);
                    let b2 = sp_emit_byte(st1.b, crate::opcode::CALLSTATICMETHOD);
                    lemma_grows_emit_byte(st0.b, st1.b, crate::opcode::CALLSTATICMETHOD);
                    let b3 = sp_emit_bytes(
                        b2,
                        crate::lower::low8(class_name as int),
                        crate::lower::low8(method_name as int),
                    );
                    lemma_grows_emit_bytes(
                        st0.b,
                        b2,
                        crate::lower::low8(class_name as int),
                        crate::lower::low8(method_name as int),
                    );
                    lemma_grows_emit_byte(st0.b, b3, crate::lower::low8(params@.len() as int));
                },
                Outcome::Failed(st1) => {
                    lemma_state_grows_trans(st0, st, st1);
                },
                Outcome::Fault => {},
            }
        },
        Expression::GetProperty { property_name, property } => {
            lemma_sp_expr_grows(names, st, *property);
            match sp_expr(names, st, *property) {
                Outcome::Done(st1) => {
                    lemma_state_grows_trans(st0, st, st1);
                    lemma_grows_emit_bytes(
                        st0.b,
                        st1.b,
                        crate::opcode::GETPROPERTY,
                        crate::lower::low8(property_name as int),
                    );
                },
                Outcome::Failed(st1) => {
                    lemma_state_grows_trans(st0, st, st1);
                },
                Outcome::Fault => {},
            }
        },
        Expression::GetMethod { method_name, method } => {
            lemma_sp_expr_grows(names, st, *method);
            match sp_expr(names, st, *method) {
                Outcome::Done(st1) => {
                    lemma_state_grows_trans(st0, st, st1);
                    lemma_grows_emit_bytes(
                        st0.b,
                        st1.b,
                        crate::opcode::GETMETHOD,
                        crate::lower::low8(method_name as int),
                    );
                },
                Outcome::Failed(st1) => {
                    lemma_state_grows_trans(st0, st, st1);
                },
                Outcome::Fault => {},
            }
        },
        Expression::Grouping(inner) => {
            lemma_sp_expr_grows(names, st, *inner);
            lemma_outcome_trans(st0, st, sp_expr(names, st, *inner));
        },
        Expression::Match { cond, arms } => {
            lemma_sp_expr_grows(names, st, *cond);
            match sp_expr(names, st, *cond) {
                Outcome::Done(st1) => {
                    lemma_state_grows_trans(st0, st, st1);
                    lemma_sp_arms_grows(names, st1, *cond, arms.value@, Seq::<int>::empty());
                    lemma_sp_arms_jumps(names, st1, *cond, arms.value@, Seq::<int>::empty());
                    match sp_arms(names, st1, *cond, arms.value@, Seq::<int>::empty()) {
                        ArmsOutcome::Done(st2, jumps) => {
                            lemma_state_grows_trans(st0, st1, st2);
                            lemma_grows_patch_list(st1.b, st2.b, jumps);
                            lemma_grows_trans(st0.b, st1.b, sp_patch_list(st2.b, jumps));
                        },
                        ArmsOutcome::Failed(st2) => {
                            lemma_state_grows_trans(st0, st1, st2);
                        },
                        ArmsOutcome::Fault => {},
                    }
                },
                Outcome::Failed(st1) => {
                    lemma_state_grows_trans(st0, st, st1);
                },
                Outcome::Fault => {},
            }
        },
        Expression::Ternary(cond, if_true, if_false) => {
            lemma_sp_expr_grows(names, st, *cond);
            match sp_expr(names, st, *cond) {
                Outcome::Done(st1) => {
                    lemma_state_grows_trans(st0, st, st1);
                    let (b2, false_label) = sp_emit_jump(st1.b, crate::opcode::JUMPNOT);
                    lemma_grows_refl(st1.b);
                    lemma_grows_emit_jump(st1.b, st1.b, crate::opcode::JUMPNOT);
                    let mid = with_b(st1, b2);
                    lemma_state_grows_with_b(st1, b2);
                    lemma_state_grows_trans(st0, st1, mid);
                    lemma_sp_expr_grows(names, mid, *if_true);
                    match sp_expr(names, mid, *if_true) {
                        Outcome::Done(st2) => {
                            lemma_state_grows_trans(st0, mid, st2);
                            lemma_grows_trans(st1.b, b2, st2.b);
                            let (b3, end_label) = sp_emit_jump(st2.b, crate::opcode::JUMP);
                            lemma_grows_emit_jump(st1.b, st2.b, crate::opcode::JUMP);
                            lemma_grows_patch(st1.b, b3, false_label);
                            let b4 = sp_patch_jump(b3, false_label);
                            let mid2 = with_b(st2, b4);
                            lemma_grows_trans(st0.b, st1.b, b4);
                            assert(state_grows(st0, mid2));
                            lemma_sp_expr_grows(names, mid2, *if_false);
                            match sp_expr(names, mid2, *if_false) {
                                Outcome::Done(st3) => {
                                    lemma_state_grows_trans(st0, mid2, st3);
                                    lemma_grows_trans(st1.b, b4, st3.b);
                                    lemma_grows_patch(st1.b, st3.b, end_label);
                                    lemma_grows_trans(
                                        st0.b,
                                        st1.b,
                                        sp_patch_jump(st3.b, end_label),
                                    );
                                },
                                Outcome::Failed(st3) => {
                                    lemma_state_grows_trans(st0, mid2, st3);
                                },
                                Outcome::Fault => {},
                            }
                        },
                        Outcome::Failed(st2) => {
                            lemma_state_grows_trans(st0, mid, st2);
                        },
                        Outcome::Fault => {},
                    }
                },
                Outcome::Failed(st1) => {
                    lemma_state_grows_trans(st0, st, st1);
                },
                Outcome::Fault => {},
            }
        },
        Expression::Unary(_, inner) => {
            lemma_sp_expr_grows(names, st, *inner);
            match sp_expr(names, st, *inner) {
                Outcome::Done(st1) => {
                    lemma_state_grows_trans(st0, st, st1);
                    assert forall|opc: u8| builder_grows(st0.b, sp_emit_byte(st1.b, opc)) by {
                        lemma_grows_emit_byte(st0.b, st1.b, opc);
                    }
                },
                Outcome::Failed(st1) => {
                    lemma_state_grows_trans(st0, st, st1);
                },
                Outcome::Fault => {},
            }
        },
        Expression::Var(ident, _) => {
            match crate::scope::scope_lookup(st.b.locals, ident) {
                Some(pos) => {
                    lemma_grows_emit_bytes(
                        st0.b,
                        st.b,
                        crate::opcode::GETLOCAL,
                        crate::lower::low8(pos as int),
                    );
                },
                None => {
                    match crate::artifact::assoc_lookup(st.b.params, ident) {
                        Some(offset) => {
                            lemma_grows_emit_bytes(
                                st0.b,
                                st.b,
                                crate::opcode::GETPARAM,
                                crate::lower::low8(offset as int),
                            );
                        },
                        None => {
                            lemma_prefix_push(
                                st0.diags,
                                st.diags,
                                DiagModel { message: "Undefined variable"@, span: e.span },
                            );
                        },
                    }
                },
            }
        },
        Expression::VariantNoData { enum_name, tag } => {
            let b1 = sp_emit_byte(st.b, crate::opcode::ENUM);
            lemma_grows_emit_byte(st0.b, st.b, crate::opcode::ENUM);
            lemma_grows_emit_bytes(
                st0.b,
                b1,
                crate::lower::low8(enum_name.value as int),
                crate::lower::low8(tag as int),
            );
        },
        Expression::VariantWithData { enum_name, tag, inner } => {
            let b1 = sp_emit_byte(st.b, crate::opcode::ENUM);
            lemma_grows_emit_byte(st0.b, st.b, crate::opcode::ENUM);
            let b2 = sp_emit_bytes(
                b1,
                crate::lower::low8(enum_name.value as int),
                crate::lower::low8(tag as int),
            );
            lemma_grows_emit_bytes(
                st0.b,
                b1,
                crate::lower::low8(enum_name.value as int),
                crate::lower::low8(tag as int),
            );
            let mid = with_b(st, b2);
            lemma_state_grows_with_b(st, b2);
            lemma_state_grows_trans(st0, st, mid);
            lemma_sp_expr_grows(names, mid, *inner);
            lemma_outcome_trans(st0, mid, sp_expr(names, mid, *inner));
        },
        Expression::Closure(func) => {
            lemma_sp_function_grows(names, st.diags, st.objs, *func);
            match sp_function(names, st.diags, st.objs, *func) {
                FnOutcome::Done(diags1, objs1, fm) => {
                    let index = objs1.len() as usize;
                    let st1 = CState {
                        b: st.b,
                        diags: diags1,
                        objs: objs1.push(
                            ObjModel::Function { arity: fm.params.len() as usize, function: fm },
                        ),
                    };
                    lemma_prefix_trans(
                        st0.diags,
                        st.diags,
                        diags1,
                    );
                    lemma_prefix_trans(st0.objs, st.objs, objs1);
                    lemma_prefix_push(
                        st0.objs,
                        objs1,
                        ObjModel::Function { arity: fm.params.len() as usize, function: fm },
                    );
                    assert(state_grows(st0, st1));
                    lemma_grows_constant(st0, st1, Value::Obj(index), e.span);
                },
                FnOutcome::Failed(diags1, objs1) => {
                    lemma_prefix_trans(st0.diags, st.diags, diags1);
                    lemma_prefix_trans(st0.objs, st.objs, objs1);
                },
                FnOutcome::Fault => {},
            }
        },
        Expression::SetProperty(property, instance, value) => {
            lemma_sp_expr_grows(names, st, *value);
            match sp_expr(names, st, *value) {
                Outcome::Done(st1) => {
                    lemma_state_grows_trans(st0, st, st1);
                    lemma_sp_expr_grows(names, st1, *instance);
                    match sp_expr(names, st1, *instance) {
                        Outcome::Done(st2) => {
                            lemma_state_grows_trans(st0, st1, st2);
                            lemma_grows_emit_bytes(
                                st0.b,
                                st2.b,
                                crate::opcode::SETPROPERTY,
                                crate::lower::low8(property as int),
                            );
                        },
                        Outcome::Failed(st2) => {
                            lemma_state_grows_trans(st0, st1, st2);
                        },
                        Outcome::Fault => {},
                    }
                },
                Outcome::Failed(st1) => {
                    lemma_state_grows_trans(st0, st, st1);
                },
                Outcome::Fault => {},
            }
        },
    }
}

/// Lowering an expression list left to right only appends.
pub proof fn lemma_sp_expr_list_grows(
    names: Seq<Seq<char>>,
    st: CState,
    rest: Seq<Spanned<TypedExpression>>,
)
    ensures
        outcome_grows(st, sp_expr_list(names, st, rest)),
    decreases exprs_height(rest), 2nat,
{
    lemma_state_grows_refl(st);
    if rest.len() == 0 {
    } else {
        proof_exprs_bounds(rest);
        lemma_sp_expr_grows(names, st, rest[0]);
        match sp_expr(names, st, rest[0]) {
            Outcome::Done(st1) => {
                lemma_sp_expr_list_grows(names, st1, rest.subrange(1, rest.len() as int));
                lemma_outcome_trans(
                    st,
                    st1,
                    sp_expr_list(names, st1, rest.subrange(1, rest.len() as int)),
                );
            },
            _ => {},
        }
    }
}

/// Lowering an expression list right to left only appends.
pub proof fn lemma_sp_exprs_rev_grows(
    names: Seq<Seq<char>>,
    st: CState,
    rest: Seq<Spanned<TypedExpression>>,
)
    ensures
        outcome_grows(st, sp_exprs_rev(names, st, rest)),
    decreases exprs_height(rest), 2nat,
{
    lemma_state_grows_refl(st);
    if rest.len() == 0 {
    } else {
        proof_exprs_bounds(rest);
        lemma_sp_expr_grows(names, st, rest.last());
        match sp_expr(names, st, rest.last()) {
            Outcome::Done(st1) => {
                lemma_sp_exprs_rev_grows(names, st1, rest.drop_last());
                lemma_outcome_trans(st, st1, sp_exprs_rev(names, st1, rest.drop_last()));
            },
            _ => {},
        }
    }
}

/// Lowering property values right to left only appends.
pub proof fn lemma_sp_props_rev_grows(
    names: Seq<Seq<char>>,
    st: CState,
    rest: Seq<Spanned<Property>>,
)
    ensures
        outcome_grows(st, sp_props_rev(names, st, rest)),
    decreases props_height(rest), 2nat,
{
    lemma_state_grows_refl(st);
    if rest.len() == 0 {
    } else {
        crate::ast::lemma_props_height_elem(rest, rest.len() - 1);
        crate::ast::lemma_props_height_drop_last(rest);
        lemma_sp_expr_grows(names, st, rest.last().value.expr);
        match sp_expr(names, st, rest.last().value.expr) {
            Outcome::Done(st1) => {
                lemma_sp_props_rev_grows(names, st1, rest.drop_last());
                lemma_outcome_trans(st, st1, sp_props_rev(names, st1, rest.drop_last()));
            },
            _ => {},
        }
    }
}

/// Short-circuit `and` only appends.
pub proof fn lemma_sp_and_grows(
    names: Seq<Seq<char>>,
    st: CState,
    lhs: Spanned<TypedExpression>,
    rhs: Spanned<TypedExpression>,
)
    ensures
        outcome_grows(st, sp_and(names, st, lhs, rhs)),
    decreases expr_height(lhs) + expr_height(rhs), 2nat,
{
    crate::ast::lemma_expr_height_pos(lhs);
    crate::ast::lemma_expr_height_pos(rhs);
    lemma_sp_expr_grows(names, st, lhs);
    match sp_expr(names, st, lhs) {
        Outcome::Done(st1) => {
            let (b2, false_label) = sp_emit_jump(st1.b, crate::opcode::JUMPNOT);
            lemma_grows_refl(st1.b);
            lemma_grows_emit_jump(st1.b, st1.b, crate::opcode::JUMPNOT);
            let mid = with_b(st1, b2);
            lemma_state_grows_with_b(st1, b2);
            lemma_state_grows_trans(st, st1, mid);
            lemma_sp_expr_grows(names, mid, rhs);
            match sp_expr(names, mid, rhs) {
                Outcome::Done(st2) => {
                    lemma_state_grows_trans(st, mid, st2);
                    lemma_grows_trans(st1.b, b2, st2.b);
                    lemma_grows_patch(st1.b, st2.b, false_label);
                    lemma_grows_trans(st.b, st1.b, sp_patch_jump(st2.b, false_label));
                },
                Outcome::Failed(st2) => {
                    lemma_state_grows_trans(st, mid, st2);
                },
                Outcome::Fault => {},
            }
        },
        _ => {},
    }
}

/// Short-circuit `or` only appends.
pub proof fn lemma_sp_or_grows(
    names: Seq<Seq<char>>,
    st: CState,
    lhs: Spanned<TypedExpression>,
    rhs: Spanned<TypedExpression>,
)
    ensures
        outcome_grows(st, sp_or(names, st, lhs, rhs)),
    decreases expr_height(lhs) + expr_height(rhs), 2nat,
{
    crate::ast::lemma_expr_height_pos(lhs);
    crate::ast::lemma_expr_height_pos(rhs);
    lemma_sp_expr_grows(names, st, lhs);
    match sp_expr(names, st, lhs) {
        Outcome::Done(st1) => {
            let (b2, else_label) = sp_emit_jump(st1.b, crate::opcode::JUMPIF);
            lemma_grows_refl(st1.b);
            lemma_grows_emit_jump(st1.b, st1.b, crate::opcode::JUMPIF);
            let mid = with_b(st1, b2);
            lemma_state_grows_with_b(st1, b2);
            lemma_state_grows_trans(st, st1, mid);
            lemma_sp_expr_grows(names, mid, rhs);
            match sp_expr(names, mid, rhs) {
                Outcome::Done(st2) => {
                    lemma_state_grows_trans(st, mid, st2);
                    lemma_grows_trans(st1.b, b2, st2.b);
                    lemma_grows_patch(st1.b, st2.b, else_label);
                    let b3 = sp_patch_jump(st2.b, else_label);
                    lemma_grows_emit_byte(st1.b, b3, crate::opcode::POP);
                    lemma_grows_trans(st.b, st1.b, sp_emit_byte(b3, crate::opcode::POP));
                },
                Outcome::Failed(st2) => {
                    lemma_state_grows_trans(st, mid, st2);
                },
                Outcome::Fault => {},
            }
        },
        _ => {},
    }
}

/// Lowering match arms only appends.
#[verifier::rlimit(100)]
#[verifier::spinoff_prover]
pub proof fn lemma_sp_arms_grows(
    names: Seq<Seq<char>>,
    st: CState,
    cond: Spanned<TypedExpression>,
    arms: Seq<Spanned<MatchArm>>,
    jumps: Seq<int>,
)
    ensures
        match sp_arms(names, st, cond, arms, jumps) {
            ArmsOutcome::Done(st2, _) => state_grows(st, st2),
            ArmsOutcome::Failed(st2) => state_grows(st, st2),
            ArmsOutcome::Fault => true,
        },
    decreases arms_height(arms) + expr_height(cond), 2nat,
{
    lemma_state_grows_refl(st);
    if arms.len() == 0 {
    } else {
        crate::ast::lemma_arms_height_elem(arms, 0);
        crate::ast::lemma_arm_height_pos(arms[0]);
        crate::ast::lemma_arm_height_parts(arms[0]);
        crate::ast::lemma_expr_height_pos(cond);
        let arm = arms[0];
        let rest = arms.subrange(1, arms.len() as int);
        if arm.value.is_all {
            lemma_sp_stmt_grows(names, st, arm.value.body);
            match sp_stmt(names, st, arm.value.body) {
                Outcome::Done(st1) => {
                    let (b2, jump) = sp_emit_jump(st1.b, crate::opcode::JUMP);
                    lemma_grows_refl(st1.b);
                    lemma_grows_emit_jump(st1.b, st1.b, crate::opcode::JUMP);
                    let mid = with_b(st1, b2);
                    lemma_state_grows_with_b(st1, b2);
                    lemma_state_grows_trans(st, st1, mid);
                    lemma_sp_arms_grows(names, mid, cond, rest, jumps.push(jump));
                    match sp_arms(names, mid, cond, rest, jumps.push(jump)) {
                        ArmsOutcome::Done(st2, _) => {
                            lemma_state_grows_trans(st, mid, st2);
                        },
                        ArmsOutcome::Failed(st2) => {
                            lemma_state_grows_trans(st, mid, st2);
                        },
                        ArmsOutcome::Fault => {},
                    }
                },
                Outcome::Failed(_) => {},
                Outcome::Fault => {},
            }
        } else {
            match arm.value.pattern {
                None => {},
                Some(pattern) => {
                    lemma_sp_expr_grows(names, st, pattern);
                    match sp_expr(names, st, pattern) {
                        Outcome::Done(st1) => {
                            lemma_sp_expr_grows(names, st1, cond);
                            match sp_expr(names, st1, cond) {
                                Outcome::Done(st2) => {
                                    lemma_state_grows_trans(st, st1, st2);
                                    let b3 = sp_emit_byte(st2.b, crate::opcode::EQUAL);
                                    lemma_grows_refl(st2.b);
                                    lemma_grows_emit_byte(st2.b, st2.b, crate::opcode::EQUAL);
                                    let (b4, offset) = sp_emit_jump(b3, crate::opcode::JUMPNOT);
                                    lemma_grows_emit_jump(st2.b, b3, crate::opcode::JUMPNOT);
                                    let mid = with_b(st2, b4);
                                    lemma_state_grows_with_b(st2, b4);
                                    lemma_state_grows_trans(st, st2, mid);
                                    lemma_sp_stmt_grows(names, mid, arm.value.body);
                                    match sp_stmt(names, mid, arm.value.body) {
                                        Outcome::Done(st3) => {
                                            lemma_state_grows_trans(st, mid, st3);
                                            lemma_grows_trans(st2.b, b4, st3.b);
                                            let (b5, jump) = sp_emit_jump(
                                                st3.b,
                                                crate::opcode::JUMP,
                                            );
                                            lemma_grows_emit_jump(st2.b, st3.b, crate::opcode::JUMP);
                                            lemma_grows_patch(st2.b, b5, offset);
                                            let b6 = sp_patch_jump(b5, offset);
                                            let mid2 = with_b(st3, b6);
                                            lemma_grows_trans(st.b, st2.b, b6);
                                            assert(state_grows(st, mid2));
                                            lemma_sp_arms_grows(
                                                names,
                                                mid2,
                                                cond,
                                                rest,
                                                jumps.push(jump),
                                            );
                                            match sp_arms(names, mid2, cond, rest, jumps.push(jump)) {
                                                ArmsOutcome::Done(st4, _) => {
                                                    lemma_state_grows_trans(st, mid2, st4);
                                                },
                                                ArmsOutcome::Failed(st4) => {
                                                    lemma_state_grows_trans(st, mid2, st4);
                                                },
                                                ArmsOutcome::Fault => {},
                                            }
                                        },
                                        Outcome::Failed(st3) => {
                                            lemma_state_grows_trans(st, mid, st3);
                                        },
                                        Outcome::Fault => {},
                                    }
                                },
                                Outcome::Failed(st2) => {
                                    lemma_state_grows_trans(st, st1, st2);
                                },
                                Outcome::Fault => {},
                            }
                        },
                        Outcome::Failed(_) => {},
                        Outcome::Fault => {},
                    }
                },
            }
        }
    }
}

/// The patch points match arms collect: the input list is kept, and every
/// point added lies above the state the arms started from and wholly
/// inside the chunk they finish with.
#[verifier::rlimit(100)]
#[verifier::spinoff_prover]
pub proof fn lemma_sp_arms_jumps(
    names: Seq<Seq<char>>,
    st: CState,
    cond: Spanned<TypedExpression>,
    arms: Seq<Spanned<MatchArm>>,
    jumps: Seq<int>,
)
    ensures
        match sp_arms(names, st, cond, arms, jumps) {
            ArmsOutcome::Done(st2, jumps2) => seq_prefix_of(jumps, jumps2) && forall|k: int|
                jumps.len() <= k < jumps2.len() ==> st.b.code.len() + 1 <= #[trigger] jumps2[k]
                    && jumps2[k] + 2 <= st2.b.code.len(),
            _ => true,
        },
    decreases arms_height(arms) + expr_height(cond), 2nat,
{
    if arms.len() == 0 {
        lemma_prefix_refl(jumps);
    } else {
        crate::ast::lemma_arms_height_elem(arms, 0);
        crate::ast::lemma_arm_height_pos(arms[0]);
        crate::ast::lemma_arm_height_parts(arms[0]);
        crate::ast::lemma_expr_height_pos(cond);
        let arm = arms[0];
        let rest = arms.subrange(1, arms.len() as int);
        if arm.value.is_all {
            lemma_sp_stmt_grows(names, st, arm.value.body);
            match sp_stmt(names, st, arm.value.body) {
                Outcome::Done(st1) => {
                    let (b2, jump) = sp_emit_jump(st1.b, crate::opcode::JUMP);
                    let mid = with_b(st1, b2);
                    lemma_sp_arms_grows(names, mid, cond, rest, jumps.push(jump));
                    lemma_sp_arms_jumps(names, mid, cond, rest, jumps.push(jump));
                    match sp_arms(names, mid, cond, rest, jumps.push(jump)) {
                        ArmsOutcome::Done(st2, jumps2) => {
                            lemma_prefix_refl(jumps);
                            lemma_prefix_push(jumps, jumps, jump);
                            lemma_prefix_trans(jumps, jumps.push(jump), jumps2);
                            assert(jumps2.subrange(0, jumps.len() as int + 1)[jumps.len() as int]
                                == jumps2[jumps.len() as int]);
                            assert(jumps2[jumps.len() as int] == jump);
                        },
                        _ => {},
                    }
                },
                _ => {},
            }
        } else {
            match arm.value.pattern {
                None => {},
                Some(pattern) => {
                    lemma_sp_expr_grows(names, st, pattern);
                    match sp_expr(names, st, pattern) {
                        Outcome::Done(st1) => {
                            lemma_sp_expr_grows(names, st1, cond);
                            match sp_expr(names, st1, cond) {
                                Outcome::Done(st2) => {
                                    let b3 = sp_emit_byte(st2.b, crate::opcode::EQUAL);
                                    let (b4, offset) = sp_emit_jump(b3, crate::opcode::JUMPNOT);
                                    let mid = with_b(st2, b4);
                                    lemma_sp_stmt_grows(names, mid, arm.value.body);
                                    match sp_stmt(names, mid, arm.value.body) {
                                        Outcome::Done(st3) => {
                                            let (b5, jump) = sp_emit_jump(
                                                st3.b,
                                                crate::opcode::JUMP,
                                            );
                                            let b6 = sp_patch_jump(b5, offset);
                                            let mid2 = with_b(st3, b6);
                                            lemma_sp_arms_grows(
                                                names,
                                                mid2,
                                                cond,
                                                rest,
                                                jumps.push(jump),
                                            );
                                            lemma_sp_arms_jumps(
                                                names,
                                                mid2,
                                                cond,
                                                rest,
                                                jumps.push(jump),
                                            );
                                            match sp_arms(names, mid2, cond, rest, jumps.push(jump)) {
                                                ArmsOutcome::Done(st4, jumps2) => {
                                                    lemma_prefix_refl(jumps);
                                                    lemma_prefix_push(jumps, jumps, jump);
                                                    lemma_prefix_trans(
                                                        jumps,
                                                        jumps.push(jump),
                                                        jumps2,
                                                    );
                                                    assert(jumps2.subrange(
                                                        0,
                                                        jumps.len() as int + 1,
                                                    )[jumps.len() as int] == jumps2[jumps.len() as int]);
                                                    assert(jumps2[jumps.len() as int] == jump);
                                                },
                                                _ => {},
                                            }
                                        },
                                        _ => {},
                                    }
                                },
                                _ => {},
                            }
                        },
                        _ => {},
                    }
                },
            }
        }
    }
}

/// Lowering a function unit only appends to the shared collaborators.
pub proof fn lemma_sp_function_grows(
    names: Seq<Seq<char>>,
    diags: Seq<DiagModel>,
    objs: Seq<ObjModel>,
    func: Function,
)
    ensures
        match sp_function(names, diags, objs, func) {
            FnOutcome::Done(diags1, objs1, _) => seq_prefix_of(diags, diags1) && seq_prefix_of(
                objs,
                objs1,
            ),
            FnOutcome::Failed(diags1, objs1) => seq_prefix_of(diags, diags1) && seq_prefix_of(
                objs,
                objs1,
            ),
            FnOutcome::Fault => true,
        },
    decreases fn_height(func), 2nat,
{
    crate::ast::lemma_stmt_height_pos(func.body);
    let params = param_map(func.params@);
    let st0 = CState { b: initial_bstate(params), diags, objs };
    lemma_sp_stmt_grows(names, st0, func.body);
}

} // verus!
