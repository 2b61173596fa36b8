//! The laws of the lowering pass, stated against the model in
//! [`crate::lower`] and proved once and for all.
//!
//! A small single-instruction step model of the execution engine
//! ([`vm_step`]) covers just enough of the instruction set to state the
//! laws that speak about running the emitted code: constant loads and the
//! jump family.

use vstd::prelude::*;

use crate::artifact::{assoc_contains, assoc_lookup, FunModel};
use crate::ast::{Expression, Literal, Op, Statement, TypedExpression, TypedStatement};
use crate::heap::ObjModel;
use crate::interner::Symbol;
use crate::lower::{
    compound_selection, high8, low8, merge_methods, sp_constant, sp_emit_byte,
    sp_emit_bytes, sp_emit_jump, sp_expr, sp_make_constant, sp_patch_jump, sp_set_span, sp_stmt,
    sp_stmt_list, with_b, BState, CState, Outcome,
};
use crate::scope::scope_exit;
use crate::opcode;
use crate::pos::{Span, Spanned};
use crate::report::DiagModel;
use crate::value::Value;

verus! {

/// Law: inserting a constant succeeds exactly while the pool holds fewer
/// than 255 entries; past that it is a hard compile error, reported with
/// the span of the constant that triggered it, and the index of every
/// successful insertion fits in one byte.
pub proof fn lemma_constant_pool_capacity(st: CState, value: Value, span: Span)
    ensures
        sp_constant(st, value, span) is Done <==> st.b.constants.len() < 255,
        sp_constant(st, value, span) is Failed <==> st.b.constants.len() >= 255,
        sp_constant(st, value, span) matches Outcome::Failed(st1) ==> st1.diags == st.diags.push(
            DiagModel { message: "too many constants in one chunk"@, span },
        ),
        sp_make_constant(st, value, span).1 matches Some(index) ==> index == st.b.constants.len(),
{
}

/// Law: an arithmetic binary expression whose statically known result type
/// is integer lowers to the integer opcode variant, and one whose result
/// type is float lowers to the float variant, for each of the four
/// operators.
pub proof fn lemma_arithmetic_selects_by_representation(
    names: Seq<Seq<char>>,
    st: CState,
    e: Spanned<TypedExpression>,
    lhs: Box<Spanned<TypedExpression>>,
    op: Op,
    rhs: Box<Spanned<TypedExpression>>,
)
    requires
        e.value.expr.value == Expression::Binary(lhs, op, rhs),
        op == Op::Plus || op == Op::Minus || op == Op::Star || op == Op::Slash,
    ensures
        sp_expr(names, st, e) matches Outcome::Done(st1) ==> {
            &&& e.value.ty is Int ==> st1.b.code.last() == (match op {
                Op::Plus => opcode::ADD,
                Op::Minus => opcode::SUB,
                Op::Star => opcode::MUL,
                _ => opcode::DIV,
            })
            &&& e.value.ty is Float ==> st1.b.code.last() == (match op {
                Op::Plus => opcode::ADDF,
                Op::Minus => opcode::SUBF,
                Op::Star => opcode::MULF,
                _ => opcode::DIVF,
            })
        },
{
}

/// Law: a compound assignment is a read-modify-write of one slot,
/// resolved through the local scope only: it reads the slot with
/// `GETLOCAL`, compiles the right-hand side, applies the opcode selected
/// by the right-hand side's static type — the integer variant when it is
/// integer-typed, the float variant when float-typed — and writes the
/// very same slot back with `SETLOCAL`.
pub proof fn lemma_compound_assignment_selects_by_representation(
    names: Seq<Seq<char>>,
    st: CState,
    e: Spanned<TypedExpression>,
    ident: Symbol,
    op: crate::ast::AssignOperator,
    rhs: Box<Spanned<TypedExpression>>,
)
    requires
        e.value.expr.value == Expression::Assign(ident, op, rhs),
        !(op is Equal),
    ensures
        sp_expr(names, st, e) matches Outcome::Done(st1) ==> {
            &&& compound_selection(op, rhs.value.ty) matches Some(selected) ==> {
                &&& st1.b.code.len() >= 3
                &&& st1.b.code[st1.b.code.len() - 3] == selected
                &&& st1.b.code[st1.b.code.len() - 2] == opcode::SETLOCAL
            }
            &&& rhs.value.ty is Int ==> st1.b.code[st1.b.code.len() - 3] == (match op {
                crate::ast::AssignOperator::PlusEqual => opcode::ADD,
                crate::ast::AssignOperator::MinusEqual => opcode::SUB,
                crate::ast::AssignOperator::StarEqual => opcode::MUL,
                _ => opcode::DIV,
            })
            &&& rhs.value.ty is Float ==> st1.b.code[st1.b.code.len() - 3] == (match op {
                crate::ast::AssignOperator::PlusEqual => opcode::ADDF,
                crate::ast::AssignOperator::MinusEqual => opcode::SUBF,
                crate::ast::AssignOperator::StarEqual => opcode::MULF,
                _ => opcode::DIVF,
            })
            &&& crate::scope::scope_lookup(st.b.locals, ident) matches Some(pos) && (
            compound_selection(op, rhs.value.ty) matches Some(selected) && ({
                let stv = with_b(st, sp_set_span(st.b, e.span));
                let mid = with_b(
                    stv,
                    sp_emit_bytes(stv.b, opcode::GETLOCAL, low8(pos as int)),
                );
                &&& st1.b.code[st.b.code.len() as int] == opcode::GETLOCAL
                &&& st1.b.code[st.b.code.len() as int + 1] == low8(pos as int)
                &&& st1.b.code.last() == low8(pos as int)
                &&& sp_expr(names, mid, *rhs) matches Outcome::Done(st2) && st1.b.code
                    == st2.b.code.push(selected).push(opcode::SETLOCAL).push(low8(pos as int))
            }))
        },
{
    match sp_expr(names, st, e) {
        Outcome::Done(st1) => {
            let stv = with_b(st, sp_set_span(st.b, e.span));
            match crate::scope::scope_lookup(stv.b.locals, ident) {
                Some(pos) => {
                    match compound_selection(op, rhs.value.ty) {
                        Some(selected) => {
                            let b1 = sp_emit_bytes(
                                stv.b,
                                opcode::GETLOCAL,
                                low8(pos as int),
                            );
                            let mid = with_b(stv, b1);
                            match sp_expr(names, mid, *rhs) {
                                Outcome::Done(st2) => {
                                    crate::growth::lemma_sp_expr_grows(names, mid, *rhs);
                                    assert(b1.code[st.b.code.len() as int] == opcode::GETLOCAL);
                                    assert(b1.code[st.b.code.len() as int + 1] == low8(
                                        pos as int,
                                    ));
                                    crate::growth::lemma_prefix_index(
                                        b1.code,
                                        st2.b.code,
                                        st.b.code.len() as int,
                                    );
                                    crate::growth::lemma_prefix_index(
                                        b1.code,
                                        st2.b.code,
                                        st.b.code.len() as int + 1,
                                    );
                                },
                                _ => {
                                    assert(false);
                                },
                            }
                        },
                        None => {
                            assert(false);
                        },
                    }
                },
                None => {
                    assert(false);
                },
            }
        },
        _ => {},
    }
}

/// Law: `a <= b` and `a >= b` always lower to the strict comparison
/// opcode (by the left operand's representation) immediately followed by
/// the logical-not opcode — never to a dedicated opcode. Equality's
/// negated form lowers the same way through the one representation-
/// agnostic `EQUAL`.
pub proof fn lemma_lax_comparison_is_strict_plus_not(
    names: Seq<Seq<char>>,
    st: CState,
    e: Spanned<TypedExpression>,
    lhs: Box<Spanned<TypedExpression>>,
    op: Op,
    rhs: Box<Spanned<TypedExpression>>,
)
    requires
        e.value.expr.value == Expression::Binary(lhs, op, rhs),
        op == Op::LessThanEqual || op == Op::GreaterThanEqual || op == Op::BangEqual,
    ensures
        sp_expr(names, st, e) matches Outcome::Done(st1) ==> {
            &&& st1.b.code.len() >= 2
            &&& st1.b.code.last() == opcode::NOT
            &&& op == Op::BangEqual ==> st1.b.code[st1.b.code.len() - 2] == opcode::EQUAL
            &&& op == Op::LessThanEqual && lhs.value.ty is Int ==> st1.b.code[st1.b.code.len()
                - 2] == opcode::LESS
            &&& op == Op::LessThanEqual && lhs.value.ty is Float ==> st1.b.code[st1.b.code.len()
                - 2] == opcode::LESSF
            &&& op == Op::GreaterThanEqual && lhs.value.ty is Int ==> st1.b.code[st1.b.code.len()
                - 2] == opcode::GREATER
            &&& op == Op::GreaterThanEqual && lhs.value.ty is Float ==> st1.b.code[st1.b.code.len()
                - 2] == opcode::GREATERF
        },
{
}

/// Law: the slot counter is never reclaimed: however a statement ends —
/// compiled, or aborted by a reported error — the counter is at least
/// what it was before, so a slot handed out once is never handed out
/// again, even after the scope that owned it has closed.
pub proof fn lemma_slot_counter_never_reclaimed(
    names: Seq<Seq<char>>,
    st: CState,
    s: Spanned<TypedStatement>,
)
    ensures
        sp_stmt(names, st, s) matches Outcome::Done(st1) ==> st.b.slots <= st1.b.slots,
        sp_stmt(names, st, s) matches Outcome::Failed(st1) ==> st.b.slots <= st1.b.slots,
{
    crate::growth::lemma_sp_stmt_grows(names, st, s);
}

/// Law: the single-inheritance method-table merge resolves lookups at
/// compile time: a name the subclass defines answers with the subclass's
/// entry, and any other name answers exactly as the superclass's compiled
/// table does — so no inheritance chain is ever walked at call time.
pub proof fn lemma_inheritance_resolved_at_compile_time(
    own: Seq<(Symbol, FunModel)>,
    superclass: Seq<(Symbol, FunModel)>,
    name: Symbol,
)
    ensures
        assoc_contains(own, name) ==> assoc_lookup(merge_methods(own, superclass), name)
            == assoc_lookup(own, name),
        !assoc_contains(own, name) ==> assoc_lookup(merge_methods(own, superclass), name)
            == assoc_lookup(superclass, name),
    decreases superclass.len(),
{
    if superclass.len() == 0 {
    } else {
        let entry = superclass.last();
        let rest = superclass.drop_last();
        if assoc_contains(own, entry.0) {
            lemma_inheritance_resolved_at_compile_time(own, rest, name);
            if name == entry.0 {
            } else {
                assert(assoc_lookup(superclass, name) == assoc_lookup(rest, name));
            }
        } else {
            let grown = own.push(entry);
            lemma_inheritance_resolved_at_compile_time(grown, rest, name);
            assert(grown.drop_last() =~= own);
            assert(grown.last() == entry);
            if name == entry.0 {
                assert(assoc_lookup(grown, name) == Some(entry.1));
                assert(assoc_lookup(superclass, name) == Some(entry.1));
            } else {
                assert(assoc_lookup(grown, name) == assoc_lookup(own, name));
                assert(assoc_lookup(superclass, name) == assoc_lookup(rest, name));
            }
        }
    }
}

/// One step of the execution engine, for the instruction subset the laws
/// speak about: constant loads, the stack pushes and pops, and the jump
/// family. `None` is an instruction outside the subset or a fault.
pub struct VmState {
    /// The instruction pointer: an offset into the chunk.
    pub ip: int,
    /// The evaluation stack.
    pub stack: Seq<Value>,
}

/// The engine's notion of truth: everything but `false` and nil.
pub open spec fn truthy(v: Value) -> bool {
    v != Value::Bool(false) && v != Value::Nil
}

/// The two-byte big-endian operand at `ip`.
pub open spec fn operand16(code: Seq<u8>, ip: int) -> int {
    code[ip] * 256 + code[ip + 1]
}

/// One instruction executed at `s.ip`.
pub open spec fn vm_step(code: Seq<u8>, constants: Seq<Value>, s: VmState) -> Option<VmState> {
    if !(0 <= s.ip < code.len()) {
        None
    } else {
        let op = code[s.ip];
        if op == opcode::TRUE {
            Some(VmState { ip: s.ip + 1, stack: s.stack.push(Value::Bool(true)) })
        } else if op == opcode::FALSE {
            Some(VmState { ip: s.ip + 1, stack: s.stack.push(Value::Bool(false)) })
        } else if op == opcode::NIL {
            Some(VmState { ip: s.ip + 1, stack: s.stack.push(Value::Nil) })
        } else if op == opcode::CONSTANT {
            if s.ip + 1 < code.len() && code[s.ip + 1] < constants.len() {
                Some(
                    VmState {
                        ip: s.ip + 2,
                        stack: s.stack.push(constants[code[s.ip + 1] as int]),
                    },
                )
            } else {
                None
            }
        } else if op == opcode::POP {
            if s.stack.len() == 0 {
                None
            } else {
                Some(VmState { ip: s.ip + 1, stack: s.stack.drop_last() })
            }
        } else if op == opcode::JUMP {
            if s.ip + 3 <= code.len() {
                Some(VmState { ip: s.ip + 3 + operand16(code, s.ip + 1), stack: s.stack })
            } else {
                None
            }
        } else if op == opcode::JUMPNOT {
            if s.ip + 3 <= code.len() && s.stack.len() > 0 {
                if truthy(s.stack.last()) {
                    Some(VmState { ip: s.ip + 3, stack: s.stack })
                } else {
                    Some(
                        VmState { ip: s.ip + 3 + operand16(code, s.ip + 1), stack: s.stack },
                    )
                }
            } else {
                None
            }
        } else if op == opcode::JUMPIF {
            if s.ip + 3 <= code.len() && s.stack.len() > 0 {
                if truthy(s.stack.last()) {
                    Some(
                        VmState { ip: s.ip + 3 + operand16(code, s.ip + 1), stack: s.stack },
                    )
                } else {
                    Some(VmState { ip: s.ip + 3, stack: s.stack })
                }
            } else {
                None
            }
        } else if op == opcode::LOOP {
            if s.ip + 3 <= code.len() {
                Some(VmState { ip: s.ip + 3 - operand16(code, s.ip + 1), stack: s.stack })
            } else {
                None
            }
        } else {
            None
        }
    }
}

/// `n` instructions executed in sequence.
pub open spec fn vm_steps(n: nat, code: Seq<u8>, constants: Seq<Value>, s: VmState) -> Option<
    VmState,
>
    decreases n,
{
    if n == 0 {
        Some(s)
    } else {
        match vm_step(code, constants, s) {
            Some(s1) => vm_steps((n - 1) as nat, code, constants, s1),
            None => None,
        }
    }
}

/// One successful step is one step of the sequence.
proof fn lemma_one_step(code: Seq<u8>, constants: Seq<Value>, s: VmState, s1: VmState)
    requires
        vm_step(code, constants, s) == Some(s1),
    ensures
        vm_steps(1, code, constants, s) == Some(s1),
{
    assert(vm_steps(0, code, constants, s1) == Some(s1));
}

/// The value a literal denotes; a string literal denotes the next heap
/// object, allocated for it on the list held before the compile.
pub open spec fn literal_value(lit: Literal, objs_before: Seq<ObjModel>) -> Value {
    match lit {
        Literal::False(_) => Value::Bool(false),
        Literal::True(_) => Value::Bool(true),
        Literal::Nil => Value::Nil,
        Literal::Int(n) => Value::Int(n),
        Literal::Float(bits) => Value::Float(bits),
        Literal::Str(_) => Value::Obj(objs_before.len() as usize),
    }
}

/// Law: compiling any literal (with room left in the constant pool) and
/// executing the one resulting instruction pushes a value equal to the
/// literal: booleans and nil directly, numbers through the constant pool,
/// and a string through a heap object equal to the literal's text.
pub proof fn lemma_literal_round_trip(
    names: Seq<Seq<char>>,
    st: CState,
    e: Spanned<TypedExpression>,
    lit: Literal,
    stack: Seq<Value>,
)
    requires
        e.value.expr.value == Expression::Literal(lit),
        st.b.constants.len() < 255,
    ensures
        sp_expr(names, st, e) is Done,
        sp_expr(names, st, e) matches Outcome::Done(st1) ==> vm_steps(
            1,
            st1.b.code,
            st1.b.constants,
            VmState { ip: st.b.code.len() as int, stack },
        ) == Some(
            VmState {
                ip: st1.b.code.len() as int,
                stack: stack.push(literal_value(lit, st.objs)),
            },
        ),
        sp_expr(names, st, e) matches Outcome::Done(st1) ==> (lit matches Literal::Str(s)
            ==> st1.objs == st.objs.push(ObjModel::Str(s@))),
        sp_expr(names, st, e) matches Outcome::Done(st1) ==> {
            match lit {
                Literal::False(_) => st1.b.code == st.b.code.push(opcode::FALSE)
                    && st1.b.constants == st.b.constants,
                Literal::True(_) => st1.b.code == st.b.code.push(opcode::TRUE)
                    && st1.b.constants == st.b.constants,
                Literal::Nil => st1.b.code == st.b.code.push(opcode::NIL) && st1.b.constants
                    == st.b.constants,
                _ => st1.b.code == st.b.code.push(opcode::CONSTANT).push(
                    st.b.constants.len() as u8,
                ) && st1.b.constants == st.b.constants.push(literal_value(lit, st.objs)),
            }
        },
{
    let stv = with_b(st, sp_set_span(st.b, e.span));
    match sp_expr(names, st, e) {
        Outcome::Done(st1) => {
            let entry = VmState { ip: st.b.code.len() as int, stack };
            match lit {
                Literal::False(_) => {
                    let target = VmState {
                        ip: st1.b.code.len() as int,
                        stack: stack.push(Value::Bool(false)),
                    };
                    assert(st1.b.code[entry.ip] == opcode::FALSE);
                    assert(vm_step(st1.b.code, st1.b.constants, entry) == Some(target));
                    lemma_one_step(st1.b.code, st1.b.constants, entry, target);
                },
                Literal::True(_) => {
                    let target = VmState {
                        ip: st1.b.code.len() as int,
                        stack: stack.push(Value::Bool(true)),
                    };
                    assert(st1.b.code[entry.ip] == opcode::TRUE);
                    assert(vm_step(st1.b.code, st1.b.constants, entry) == Some(target));
                    lemma_one_step(st1.b.code, st1.b.constants, entry, target);
                },
                Literal::Nil => {
                    let target = VmState {
                        ip: st1.b.code.len() as int,
                        stack: stack.push(Value::Nil),
                    };
                    assert(st1.b.code[entry.ip] == opcode::NIL);
                    assert(vm_step(st1.b.code, st1.b.constants, entry) == Some(target));
                    lemma_one_step(st1.b.code, st1.b.constants, entry, target);
                },
                Literal::Int(n) => {
                    lemma_constant_round_trip(stv, Value::Int(n), e.value.expr.span, stack);
                },
                Literal::Float(bits) => {
                    lemma_constant_round_trip(stv, Value::Float(bits), e.value.expr.span, stack);
                },
                Literal::Str(s) => {
                    let st2 = CState {
                        b: stv.b,
                        diags: stv.diags,
                        objs: stv.objs.push(ObjModel::Str(s@)),
                    };
                    lemma_constant_round_trip(
                        st2,
                        Value::Obj(st.objs.len() as usize),
                        e.value.expr.span,
                        stack,
                    );
                },
            }
        },
        _ => {},
    }
}

/// Loading a freshly inserted constant pushes exactly that value.
proof fn lemma_constant_round_trip(st: CState, value: Value, span: Span, stack: Seq<Value>)
    requires
        st.b.constants.len() < 255,
    ensures
        sp_constant(st, value, span) is Done,
        sp_constant(st, value, span) matches Outcome::Done(st1) ==> vm_steps(
            1,
            st1.b.code,
            st1.b.constants,
            VmState { ip: st.b.code.len() as int, stack },
        ) == Some(VmState { ip: st1.b.code.len() as int, stack: stack.push(value) }),
{
    match sp_constant(st, value, span) {
        Outcome::Done(st1) => {
            let index = st.b.constants.len();
            assert(st1.b.code == st.b.code.push(opcode::CONSTANT).push((index as u8)));
            assert(st1.b.code[st.b.code.len() as int] == opcode::CONSTANT);
            assert(st1.b.code[st.b.code.len() as int + 1] == index as u8);
            assert(st1.b.constants == st.b.constants.push(value));
            assert(st1.b.constants[index as int] == value);
            let entry = VmState { ip: st.b.code.len() as int, stack };
            let target = VmState { ip: st.b.code.len() as int + 2, stack: stack.push(value) };
            assert(vm_step(st1.b.code, st1.b.constants, entry) == Some(target));
            lemma_one_step(st1.b.code, st1.b.constants, entry, target);
        },
        _ => {},
    }
}


/// Law: two sibling blocks, each declaring one local, consume two
/// distinct slot numbers — the counter is never reclaimed when a scope
/// ends, even though both bindings are popped and the resolver finishes
/// exactly as it started.
pub proof fn lemma_sibling_scopes_use_distinct_slots(
    names: Seq<Seq<char>>,
    st: CState,
    s: Spanned<TypedStatement>,
    first: Spanned<TypedStatement>,
    second: Spanned<TypedStatement>,
)
    requires
        s.value.statement.value matches Statement::Block(blocks) && blocks@ =~= seq![
            first,
            second,
        ],
        first.value.statement.value matches Statement::Block(inner) && inner@.len() == 1 && (
        inner@[0].value.statement.value matches Statement::Let { ident: _, ty: _, expr: None }),
        second.value.statement.value matches Statement::Block(inner) && inner@.len() == 1 && (
        inner@[0].value.statement.value matches Statement::Let { ident: _, ty: _, expr: None }),
        st.b.constants.len() + 2 <= 255,
        st.b.slots + 2 <= u32::MAX,
    ensures
        sp_stmt(names, st, s) is Done,
        sp_stmt(names, st, s) matches Outcome::Done(st1) ==> {
            &&& st1.b.slots == st.b.slots + 2
            &&& st1.b.code.len() == st.b.code.len() + 8
            &&& st1.b.code[st.b.code.len() as int + 3] == low8(st.b.slots as int)
            &&& st1.b.code[st.b.code.len() as int + 7] == low8(st.b.slots + 1)
            &&& st1.b.locals == st.b.locals
        },
{
    let blocks = s.value.statement.value->Block_0;
    let stv = with_b(st, sp_set_span(st.b, s.span));
    let entered = with_b(stv, BState { locals: stv.b.locals.push(None), ..stv.b });
    assert(blocks@[0] == first);
    assert(blocks@[1] == second);
    let o1 = sp_stmt(names, entered, first);
    lemma_single_let_block(names, entered, first);
    match o1 {
        Outcome::Done(m1) => {
            assert(blocks@.subrange(1, 2)[0] == second);
            assert(blocks@.subrange(1, 2).subrange(1, 1) =~= Seq::<
                Spanned<TypedStatement>,
            >::empty());
            lemma_single_let_block(names, m1, second);
            let o2 = sp_stmt(names, m1, second);
            match o2 {
                Outcome::Done(m2) => {
                    assert(sp_stmt_list(names, m2, blocks@.subrange(1, 2).subrange(1, 1))
                        == Outcome::Done(m2));
                    assert(sp_stmt_list(names, m1, blocks@.subrange(1, 2)) == Outcome::Done(m2));
                    assert(sp_stmt_list(names, entered, blocks@) == Outcome::Done(m2));
                    assert(m2.b.locals == stv.b.locals.push(None));
                    assert(scope_exit(stv.b.locals.push(None)) =~= stv.b.locals);
                },
                _ => {
                    assert(false);
                },
            }
        },
        _ => {
            assert(false);
        },
    }
}

/// One block holding one uninitialised declaration: it compiles, emits
/// nil's load and a store to the freshly counted slot, and leaves the
/// resolver as it found it while the counter moves on.
proof fn lemma_single_let_block(names: Seq<Seq<char>>, st: CState, s: Spanned<TypedStatement>)
    requires
        s.value.statement.value matches Statement::Block(inner) && inner@.len() == 1 && (
        inner@[0].value.statement.value matches Statement::Let { ident: _, ty: _, expr: None }),
        st.b.constants.len() < 255,
        st.b.slots < u32::MAX,
    ensures
        sp_stmt(names, st, s) matches Outcome::Done(st1) && {
            &&& st1.b.slots == st.b.slots + 1
            &&& st1.b.code == st.b.code.push(opcode::CONSTANT).push(
                st.b.constants.len() as u8,
            ).push(opcode::SETLOCAL).push(low8(st.b.slots as int))
            &&& st1.b.constants == st.b.constants.push(Value::Nil)
            &&& st1.b.locals == st.b.locals
            &&& st1.diags == st.diags
            &&& st1.objs == st.objs
        },
{
    let inner = s.value.statement.value->Block_0;
    let stv = with_b(st, sp_set_span(st.b, s.span));
    let entered = with_b(stv, BState { locals: stv.b.locals.push(None), ..stv.b });
    let child = inner@[0];
    let stc = with_b(entered, sp_set_span(entered.b, child.span));
    let after = sp_constant(stc, Value::Nil, child.span);
    assert(after is Done);
    match after {
        Outcome::Done(stk) => {
            let ident = match child.value.statement.value {
                Statement::Let { ident, ty: _, expr: _ } => ident,
                _ => 0,
            };
            let slot = stk.b.slots;
            let b2 = BState {
                slots: (stk.b.slots + 1) as u32,
                locals: stk.b.locals.push(Some((ident, slot as usize))),
                ..stk.b
            };
            let done = with_b(stk, sp_emit_bytes(b2, opcode::SETLOCAL, low8(slot as int)));
            assert(sp_stmt(names, stc, child) == Outcome::Done(done));
            assert(sp_stmt(names, entered, child) == Outcome::Done(done));
            assert(inner@.subrange(1, 1) =~= Seq::<Spanned<TypedStatement>>::empty());
            assert(sp_stmt_list(names, done, inner@.subrange(1, 1)) == Outcome::Done(done));
            assert(inner@.subrange(0, 1)[0] == child);
            assert(sp_stmt_list(names, entered, inner@) == Outcome::Done(done));
            let popped = scope_exit(done.b.locals);
            assert(done.b.locals == stv.b.locals.push(None).push(Some((ident, slot as usize))));
            assert(done.b.locals.drop_last() =~= stv.b.locals.push(None));
            assert(stv.b.locals.push(None).drop_last() =~= stv.b.locals);
            assert(scope_exit(stv.b.locals.push(None)) == stv.b.locals.push(None).drop_last());
            assert(popped =~= stv.b.locals);
            assert(sp_stmt(names, st, s) == Outcome::Done(
                with_b(done, BState { locals: popped, ..done.b }),
            ));
        },
        _ => {
            assert(false);
        },
    }
}

/// Law: `break` and `continue` do not go through the
/// backpatched two-byte protocol; each writes a `JUMP` whose single
/// operand is the raw stored descriptor position truncated to one byte —
/// the loop's exit patch point for `break`, the loop's start for
/// `continue`.
pub proof fn lemma_break_continue_write_raw_positions(
    names: Seq<Seq<char>>,
    st: CState,
    s: Spanned<TypedStatement>,
)
    requires
        s.value.statement.value is Break || s.value.statement.value is Continue,
    ensures
        st.b.cur_loop is None ==> sp_stmt(names, st, s) is Fault,
        st.b.cur_loop matches Some(description) ==> sp_stmt(names, st, s) matches Outcome::Done(
            st1,
        ) && st1.b.code == st.b.code.push(opcode::JUMP).push(
            low8(
                if s.value.statement.value is Break {
                    description.end as int
                } else {
                    description.start as int
                },
            ),
        ),
{
}

/// Law: a while loop compiles so that the exit jump's patched target is
/// the single trailing `POP`: the condition value is discarded exactly
/// once on the normal exit path, and the backward jump's distance leads
/// from just past its own operands back exactly to the loop's first
/// condition instruction.
pub proof fn lemma_while_loop_layout(
    names: Seq<Seq<char>>,
    st: CState,
    s: Spanned<TypedStatement>,
    cond: Spanned<TypedExpression>,
    body: Box<Spanned<TypedStatement>>,
)
    requires
        s.value.statement.value == Statement::While(cond, body),
    ensures
        sp_stmt(names, st, s) matches Outcome::Done(stf) ==> ({
            let stv = with_b(st, sp_set_span(st.b, s.span));
            let start = stv.b.code.len() as int;
            sp_expr(names, stv, cond) matches Outcome::Done(st1) && ({
                let (b2, out) = sp_emit_jump(st1.b, opcode::JUMPNOT);
                let b3 = BState {
                    cur_loop: Some(
                        crate::lower::LoopDescription {
                            start: start as usize,
                            end: out as usize,
                        },
                    ),
                    ..b2
                };
                let mid = with_b(st1, sp_emit_byte(b3, opcode::POP));
                sp_stmt(names, mid, *body) matches Outcome::Done(st2) && ({
                    let exit_distance = st2.b.code.len() - st1.b.code.len();
                    let back_distance = st2.b.code.len() + 3 - start;
                    &&& stf.b.code.len() == st2.b.code.len() + 4
                    &&& stf.b.code[st2.b.code.len() as int] == opcode::LOOP
                    &&& stf.b.code.last() == opcode::POP
                    // the exit jump's placeholder holds the distance whose
                    // target is exactly the final POP
                    &&& stf.b.code[out] == high8(exit_distance)
                    &&& stf.b.code[out + 1] == low8(exit_distance)
                    &&& out + 2 + exit_distance == st2.b.code.len() + 3
                    // the backward jump's operands lead back to the start
                    &&& stf.b.code[st2.b.code.len() as int + 1] == high8(back_distance)
                    &&& stf.b.code[st2.b.code.len() as int + 2] == low8(back_distance)
                    &&& (st2.b.code.len() + 3) - back_distance == start
                })
            })
        }),
{
    let stv = with_b(st, sp_set_span(st.b, s.span));
    let start = stv.b.code.len() as int;
    match sp_stmt(names, st, s) {
        Outcome::Done(stf) => {
            match sp_expr(names, stv, cond) {
                Outcome::Done(st1) => {
                    crate::growth::lemma_sp_expr_grows(names, stv, cond);
                    let (b2, out) = sp_emit_jump(st1.b, opcode::JUMPNOT);
                    let b3 = BState {
                        cur_loop: Some(
                            crate::lower::LoopDescription {
                                start: start as usize,
                                end: out as usize,
                            },
                        ),
                        ..b2
                    };
                    let mid = with_b(st1, sp_emit_byte(b3, opcode::POP));
                    match sp_stmt(names, mid, *body) {
                        Outcome::Done(st2) => {
                            crate::growth::lemma_sp_stmt_grows(names, mid, *body);
                            let b5 = crate::lower::sp_emit_loop(st2.b, start);
                            let b6 = sp_patch_jump(b5, out);
                            assert(stf == with_b(st2, sp_emit_byte(b6, opcode::POP)));
                            let back_distance = st2.b.code.len() + 3 - start;
                            assert(b5.code =~= st2.b.code.push(opcode::LOOP).push(
                                high8(back_distance),
                            ).push(low8(back_distance)));
                            let exit_distance = st2.b.code.len() - st1.b.code.len();
                            assert(b5.code.len() - out - 2 == exit_distance);
                            assert(b6.code[out] == high8(exit_distance));
                            assert(b6.code[out + 1] == low8(exit_distance));
                            assert(b6.code[st2.b.code.len() as int] == opcode::LOOP);
                            assert(b6.code[st2.b.code.len() as int + 1] == high8(back_distance));
                            assert(b6.code[st2.b.code.len() as int + 2] == low8(back_distance));
                        },
                        Outcome::Failed(_) => {
                            assert(false);
                        },
                        Outcome::Fault => {
                            assert(false);
                        },
                    }
                },
                Outcome::Failed(_) => {
                    assert(false);
                },
                Outcome::Fault => {
                    assert(false);
                },
            }
        },
        _ => {},
    }
}


/// Law: `if (false) { A } else { B }` compiles so that the false-branch
/// jump's patched target lands exactly at the first instruction of the
/// else branch's prologue, and executing the compiled code from its first
/// instruction reaches the else branch in three steps — the false
/// condition, the taken jump, one pop — with the entry stack restored.
/// The three instruction pointers visited (the condition, the jump, the
/// prologue pop) all lie outside the then-branch's region, so control
/// never enters A.
/// Law: a conditional with an else branch lowers to the condition, a
/// `JUMPNOT` with a patched placeholder, the then-branch behind its
/// condition-discarding `POP`, a `JUMP` with a patched placeholder, and
/// the else branch behind its own `POP`. The first patched target lands
/// exactly on the else prologue's `POP` (the first instruction of the
/// else branch), the second exactly at the end of the whole construct,
/// and each placeholder is written once, after its target region exists.
#[verifier::rlimit(100)]
#[verifier::spinoff_prover]
pub proof fn lemma_if_else_layout(
    names: Seq<Seq<char>>,
    st: CState,
    s: Spanned<TypedStatement>,
    cond: Spanned<TypedExpression>,
    then_branch: Box<Spanned<TypedStatement>>,
    else_branch: Box<Spanned<TypedStatement>>,
)
    requires
        s.value.statement.value == (Statement::If {
            cond,
            then: then_branch,
            otherwise: Some(else_branch),
        }),
    ensures
        sp_stmt(names, st, s) matches Outcome::Done(stf) ==> ({
            let stv = with_b(st, sp_set_span(st.b, s.span));
            sp_expr(names, stv, cond) matches Outcome::Done(st1) && ({
                let (b2, false_label) = sp_emit_jump(st1.b, opcode::JUMPNOT);
                let mid = with_b(st1, sp_emit_byte(b2, opcode::POP));
                sp_stmt(names, mid, *then_branch) matches Outcome::Done(st2) && ({
                    let (b4, end_label) = sp_emit_jump(st2.b, opcode::JUMP);
                    let b6 = sp_emit_byte(sp_patch_jump(b4, false_label), opcode::POP);
                    let mid2 = with_b(st2, b6);
                    sp_stmt(names, mid2, *else_branch) matches Outcome::Done(st3) && ({
                        let first_distance = st2.b.code.len() - st1.b.code.len();
                        let second_distance = st3.b.code.len() - st2.b.code.len() - 3;
                        &&& stf.b.code.len() == st3.b.code.len()
                        &&& stf.b.code[st1.b.code.len() as int] == opcode::JUMPNOT
                        &&& stf.b.code[st1.b.code.len() as int + 3] == opcode::POP
                        &&& stf.b.code[st2.b.code.len() as int] == opcode::JUMP
                        &&& stf.b.code[st2.b.code.len() as int + 3] == opcode::POP
                        &&& stf.b.code[false_label] == high8(first_distance)
                        &&& stf.b.code[false_label + 1] == low8(first_distance)
                        &&& false_label + 2 + first_distance == st2.b.code.len() + 3
                        &&& stf.b.code[end_label] == high8(second_distance)
                        &&& stf.b.code[end_label + 1] == low8(second_distance)
                        &&& end_label + 2 + second_distance == st3.b.code.len()
                    })
                })
            })
        }),
{
    match sp_stmt(names, st, s) {
        Outcome::Done(stf) => {
            let stv = with_b(st, sp_set_span(st.b, s.span));
            match sp_expr(names, stv, cond) {
                Outcome::Done(st1) => {
                    let (b2, false_label) = sp_emit_jump(st1.b, opcode::JUMPNOT);
                    let b3 = sp_emit_byte(b2, opcode::POP);
                    let mid = with_b(st1, b3);
                    match sp_stmt(names, mid, *then_branch) {
                        Outcome::Done(st2) => {
                            crate::growth::lemma_sp_stmt_grows(names, mid, *then_branch);
                            let (b4, end_label) = sp_emit_jump(st2.b, opcode::JUMP);
                            let b5 = sp_patch_jump(b4, false_label);
                            let b6 = sp_emit_byte(b5, opcode::POP);
                            let mid2 = with_b(st2, b6);
                            match sp_stmt(names, mid2, *else_branch) {
                                Outcome::Done(st3) => {
                                    crate::growth::lemma_sp_stmt_grows(
                                        names,
                                        mid2,
                                        *else_branch,
                                    );
                                    assert(stf == with_b(
                                        st3,
                                        sp_patch_jump(st3.b, end_label),
                                    ));
                                    let first_distance = st2.b.code.len() - st1.b.code.len();
                                    assert(b4.code.len() - false_label - 2 == first_distance);
                                    assert(b3.code[st1.b.code.len() as int] == opcode::JUMPNOT);
                                    assert(b3.code[st1.b.code.len() as int + 3] == opcode::POP);
                                    crate::growth::lemma_prefix_index(
                                        b3.code,
                                        st2.b.code,
                                        st1.b.code.len() as int,
                                    );
                                    crate::growth::lemma_prefix_index(
                                        b3.code,
                                        st2.b.code,
                                        st1.b.code.len() as int + 3,
                                    );
                                    assert(b6.code[st1.b.code.len() as int] == opcode::JUMPNOT);
                                    assert(b6.code[st1.b.code.len() as int + 3] == opcode::POP);
                                    assert(b6.code[false_label] == high8(first_distance));
                                    assert(b6.code[false_label + 1] == low8(first_distance));
                                    assert(b6.code[st2.b.code.len() as int] == opcode::JUMP);
                                    assert(b6.code[st2.b.code.len() as int + 3] == opcode::POP);
                                    crate::growth::lemma_prefix_index(
                                        b6.code,
                                        st3.b.code,
                                        st1.b.code.len() as int,
                                    );
                                    crate::growth::lemma_prefix_index(
                                        b6.code,
                                        st3.b.code,
                                        st1.b.code.len() as int + 3,
                                    );
                                    crate::growth::lemma_prefix_index(
                                        b6.code,
                                        st3.b.code,
                                        false_label,
                                    );
                                    crate::growth::lemma_prefix_index(
                                        b6.code,
                                        st3.b.code,
                                        false_label + 1,
                                    );
                                    crate::growth::lemma_prefix_index(
                                        b6.code,
                                        st3.b.code,
                                        st2.b.code.len() as int,
                                    );
                                    crate::growth::lemma_prefix_index(
                                        b6.code,
                                        st3.b.code,
                                        st2.b.code.len() as int + 3,
                                    );
                                },
                                Outcome::Failed(_) => {
                                    assert(false);
                                },
                                Outcome::Fault => {
                                    assert(false);
                                },
                            }
                        },
                        Outcome::Failed(_) => {
                            assert(false);
                        },
                        Outcome::Fault => {
                            assert(false);
                        },
                    }
                },
                Outcome::Failed(_) => {
                    assert(false);
                },
                Outcome::Fault => {
                    assert(false);
                },
            }
        },
        _ => {},
    }
}

/// A patched two-byte operand reads back as the distance it encodes.
proof fn lemma_operand_encodes_distance(code: Seq<u8>, at: int, d: int)
    requires
        0 <= d <= 0xffff,
        0 <= at,
        at + 2 <= code.len(),
        code[at] == high8(d),
        code[at + 1] == low8(d),
    ensures
        operand16(code, at) == d,
{
    assert(high8(d) == d / 256) by (nonlinear_arith)
        requires
            0 <= d <= 0xffff,
    ;
    assert(d == (d / 256) * 256 + d % 256);
}

/// A false value, a `JUMPNOT` whose operand reaches `target`, and the pop
/// at `target`: three steps land just past the pop with the entry stack.
proof fn lemma_false_jump_trace(
    code: Seq<u8>,
    constants: Seq<Value>,
    entry: int,
    target: int,
    stack: Seq<Value>,
)
    requires
        0 <= entry,
        entry + 4 <= code.len(),
        code[entry] == opcode::FALSE,
        code[entry + 1] == opcode::JUMPNOT,
        operand16(code, entry + 2) == target - (entry + 4),
        entry + 4 <= target < code.len(),
        code[target] == opcode::POP,
    ensures
        vm_steps(3, code, constants, VmState { ip: entry, stack }) == Some(
            VmState { ip: target + 1, stack },
        ),
{
    let s0 = VmState { ip: entry, stack };
    let s1 = VmState { ip: entry + 1, stack: stack.push(Value::Bool(false)) };
    let s2 = VmState { ip: target, stack: stack.push(Value::Bool(false)) };
    let s3 = VmState { ip: target + 1, stack };
    assert(vm_step(code, constants, s0) == Some(s1));
    assert(!truthy(s1.stack.last()));
    assert(vm_step(code, constants, s1) == Some(s2));
    assert(s2.stack.drop_last() =~= stack);
    assert(vm_step(code, constants, s2) == Some(s3));
    assert(vm_steps(0, code, constants, s3) == Some(s3));
    assert(vm_steps(1, code, constants, s2) == Some(s3));
    assert(vm_steps(2, code, constants, s1) == Some(s3));
    assert(vm_steps(3, code, constants, s0) == Some(s3));
}

#[verifier::rlimit(100)]
#[verifier::spinoff_prover]
pub proof fn lemma_if_false_reaches_exactly_the_else_branch(
    names: Seq<Seq<char>>,
    st: CState,
    s: Spanned<TypedStatement>,
    cond: Spanned<TypedExpression>,
    then_branch: Box<Spanned<TypedStatement>>,
    else_branch: Box<Spanned<TypedStatement>>,
    stack: Seq<Value>,
)
    requires
        s.value.statement.value == (Statement::If {
            cond,
            then: then_branch,
            otherwise: Some(else_branch),
        }),
        cond.value.expr.value matches Expression::Literal(lit) && lit is False,
    ensures
        sp_stmt(names, st, s) matches Outcome::Done(stf) ==> ({
            let stv = with_b(st, sp_set_span(st.b, s.span));
            let entry = st.b.code.len() as int;
            sp_expr(names, stv, cond) matches Outcome::Done(st1) && ({
                let (b2, false_label) = sp_emit_jump(st1.b, opcode::JUMPNOT);
                let mid = with_b(st1, sp_emit_byte(b2, opcode::POP));
                sp_stmt(names, mid, *then_branch) matches Outcome::Done(st2) && ({
                    let then_start = st1.b.code.len() as int + 4;
                    let then_end = st2.b.code.len() as int;
                    let else_prologue = st2.b.code.len() as int + 3;
                    let distance = st2.b.code.len() - st1.b.code.len();
                    &&& st1.b.code.len() == entry + 1
                    &&& stf.b.code[entry] == opcode::FALSE
                    &&& stf.b.code[entry + 1] == opcode::JUMPNOT
                    &&& stf.b.code[else_prologue] == opcode::POP
                    &&& false_label + 2 + distance == else_prologue
                    &&& entry + 1 < then_start
                    &&& then_end <= else_prologue
                    &&& distance <= 0xffff ==> vm_steps(
                        3,
                        stf.b.code,
                        stf.b.constants,
                        VmState { ip: entry, stack },
                    ) == Some(VmState { ip: else_prologue + 1, stack })
                })
            })
        }),
{
    let stv = with_b(st, sp_set_span(st.b, s.span));
    let entry = st.b.code.len() as int;
    match sp_stmt(names, st, s) {
        Outcome::Done(stf) => {
            let stvc = with_b(stv, sp_set_span(stv.b, cond.span));
            assert(sp_expr(names, stv, cond) == Outcome::Done(
                with_b(stvc, sp_emit_byte(stvc.b, opcode::FALSE)),
            ));
            let st1 = with_b(stvc, sp_emit_byte(stvc.b, opcode::FALSE));
            let (b2, false_label) = sp_emit_jump(st1.b, opcode::JUMPNOT);
            let b3 = sp_emit_byte(b2, opcode::POP);
            let mid = with_b(st1, b3);
            match sp_stmt(names, mid, *then_branch) {
                Outcome::Done(st2) => {
                    crate::growth::lemma_sp_stmt_grows(names, mid, *then_branch);
                    let (b4, end_label) = sp_emit_jump(st2.b, opcode::JUMP);
                    let b5 = sp_patch_jump(b4, false_label);
                    let b6 = sp_emit_byte(b5, opcode::POP);
                    let mid2 = with_b(st2, b6);
                    match sp_stmt(names, mid2, *else_branch) {
                        Outcome::Done(st3) => {
                            crate::growth::lemma_sp_stmt_grows(names, mid2, *else_branch);
                            assert(stf == with_b(st3, sp_patch_jump(st3.b, end_label)));
                            let distance = st2.b.code.len() - st1.b.code.len();
                            let else_prologue = st2.b.code.len() as int + 3;
                            // the byte layout up to the then-branch, after
                            // the false-branch patch
                            assert(b4.code.len() - false_label - 2 == distance);
                            assert(b3.code[entry] == opcode::FALSE);
                            assert(b3.code[entry + 1] == opcode::JUMPNOT);
                            crate::growth::lemma_prefix_index(b3.code, st2.b.code, entry);
                            crate::growth::lemma_prefix_index(b3.code, st2.b.code, entry + 1);
                            assert(b5.code[entry] == opcode::FALSE);
                            assert(b5.code[entry + 1] == opcode::JUMPNOT);
                            assert(b5.code[false_label] == high8(distance));
                            assert(b5.code[false_label + 1] == low8(distance));
                            assert(b6.code[else_prologue] == opcode::POP);
                            // the else compile and the final patch leave
                            // those bytes alone
                            assert(st3.b.code.len() >= mid2.b.code.len());
                            crate::growth::lemma_prefix_index(b6.code, st3.b.code, entry);
                            crate::growth::lemma_prefix_index(b6.code, st3.b.code, entry + 1);
                            crate::growth::lemma_prefix_index(b6.code, st3.b.code, false_label);
                            crate::growth::lemma_prefix_index(
                                b6.code,
                                st3.b.code,
                                false_label + 1,
                            );
                            crate::growth::lemma_prefix_index(b6.code, st3.b.code, else_prologue);
                            assert(st3.b.code[entry] == opcode::FALSE);
                            assert(st3.b.code[entry + 1] == opcode::JUMPNOT);
                            assert(st3.b.code[false_label] == high8(distance));
                            assert(st3.b.code[false_label + 1] == low8(distance));
                            assert(st3.b.code[else_prologue] == opcode::POP);
                            assert(end_label == st2.b.code.len() + 1);
                            assert(stf.b.code[entry] == opcode::FALSE);
                            assert(stf.b.code[entry + 1] == opcode::JUMPNOT);
                            assert(stf.b.code[false_label] == high8(distance));
                            assert(stf.b.code[false_label + 1] == low8(distance));
                            assert(stf.b.code[else_prologue] == opcode::POP);
                            if distance <= 0xffff {
                                assert(stf.b.code.len() >= else_prologue + 1);
                                lemma_operand_encodes_distance(stf.b.code, entry + 2, distance);
                                lemma_false_jump_trace(
                                    stf.b.code,
                                    stf.b.constants,
                                    entry,
                                    else_prologue,
                                    stack,
                                );
                            }
                        },
                        Outcome::Failed(_) => {
                            assert(false);
                        },
                        Outcome::Fault => {
                            assert(false);
                        },
                    }
                },
                Outcome::Failed(_) => {
                    assert(false);
                },
                Outcome::Fault => {
                    assert(false);
                },
            }
        },
        _ => {},
    }
}

} // verus!
