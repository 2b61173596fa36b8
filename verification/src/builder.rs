//! The executable compiler for one unit: the code emitter and the
//! statement/expression lowering.
//!
//! Every method's contract ties it to the lowering model in
//! [`crate::lower`]: the method returns `Ok` exactly when the model says
//! the construct compiles, `Err` exactly when the model says a reported
//! error aborts the unit, and the builder, the diagnostics sink and the
//! allocation list finish in precisely the model's state. Inputs the model
//! calls a `Fault` (upstream contract violations) are excluded by
//! precondition.

use vstd::prelude::*;

use crate::artifact::assoc_lookup;
use crate::ast::{
    arms_height, expr_height, exprs_height, lemma_arm_height_parts,
    lemma_arm_height_pos, lemma_arms_height_elem, lemma_arms_height_pos, lemma_expr_height_pos,
    lemma_exprs_height_elem, lemma_props_height_elem, lemma_stmt_height_pos, lemma_stmts_height_elem, props_height, stmt_height, stmts_height,
    AssignOperator, Expression, Literal, MatchArm, Op, Property, Statement, Ty, TypedExpression,
    TypedStatement, UnaryOp,
};
use crate::chunk::Chunk;
use crate::growth::{
    lemma_sp_expr_grows, lemma_sp_stmt_grows,
    };
use crate::heap::{Allocations, HeapObject};
use crate::interner::{is_native, Interner, Symbol};
use crate::lower::{
    binary_selection, cast_selection, compound_selection, initial_bstate, sp_and, sp_arms,
    sp_constant, sp_emit_byte, sp_emit_bytes, sp_emit_jump, sp_emit_loop, sp_expr, sp_expr_list,
    sp_exprs_rev, sp_make_constant, sp_or, sp_patch_jump, sp_patch_list, sp_props_rev, sp_set_span,
    sp_stmt, sp_stmt_list, sp_tag_bytes_rev, unary_selection, with_b, BState, CState,
    LoopDescription, Outcome,
};
use crate::opcode;
use crate::pos::{Span, Spanned};
use crate::report::Reporter;
use crate::scope::{StackedMap};
use crate::value::Value;

verus! {

/// The compiler state and its two collaborators, bundled for the model.
pub open spec fn st_of(
    b: BState,
    diags: Seq<crate::report::DiagModel>,
    objs: Seq<crate::heap::ObjModel>,
) -> CState {
    CState { b, diags, objs }
}

/// A patch-point list as the model carries it.
pub open spec fn as_ints(jumps: Seq<usize>) -> Seq<int> {
    Seq::new(jumps.len(), |i: int| jumps[i] as int)
}

/// The compiler for one unit: the chunk under construction, the scope
/// resolver for its locals, the flat parameter map, the innermost loop
/// descriptor, the never-reclaimed slot counter, and the current source
/// line.
pub struct Builder {
    pub chunk: Chunk,
    pub locals: StackedMap,
    pub params: Vec<(Symbol, usize)>,
    pub current_loop: Option<LoopDescription>,
    pub slots: u32,
    pub line: u32,
}

impl View for Builder {
    type V = BState;

    open spec fn view(&self) -> BState {
        BState {
            code: self.chunk@.code,
            lines: self.chunk@.lines,
            constants: self.chunk@.constants,
            locals: self.locals@,
            params: self.params@,
            slots: self.slots,
            line: self.line,
            cur_loop: self.current_loop,
        }
    }
}

impl Builder {
    /// A fresh unit: empty chunk, empty scope, slot counter at zero, the
    /// given parameter map.
    pub fn new(params: Vec<(Symbol, usize)>) -> (builder: Builder)
        ensures
            builder@ == initial_bstate(params@),
    {
        let builder = Builder {
            chunk: Chunk::new(),
            locals: StackedMap::new(),
            params,
            current_loop: None,
            slots: 0,
            line: 0,
        };
        builder
    }

    /// Appends one instruction byte, tagged with the current line.
    pub fn emit_byte(&mut self, byte: u8)
        ensures
            final(self)@ == sp_emit_byte(old(self)@, byte),
    {
        let line = self.line;
        self.chunk.write(byte, line);
    }

    /// Appends two instruction bytes in order.
    pub fn emit_bytes(&mut self, byte1: u8, byte2: u8)
        ensures
            final(self)@ == sp_emit_bytes(old(self)@, byte1, byte2),
    {
        self.emit_byte(byte1);
        self.emit_byte(byte2);
    }

    /// Hands out the next local slot. The counter is never reclaimed when
    /// a scope ends: sibling scopes consume distinct slots.
    pub fn new_slot(&mut self) -> (slot: u32)
        requires
            old(self)@.slots < u32::MAX,
        ensures
            slot == old(self)@.slots,
            final(self)@ == (BState { slots: (old(self)@.slots + 1) as u32, ..old(self)@ }),
    {
        let slot = self.slots;
        self.slots = self.slots + 1;
        slot
    }

    /// Resolves a forward jump: writes the big-endian distance from just
    /// past the placeholder to the current end of the chunk into the two
    /// placeholder bytes. Each patch point is patched exactly once, after
    /// the jump's target region has been fully emitted.
    pub fn patch_jump(&mut self, offset: usize)
        requires
            offset + 2 <= old(self)@.code.len(),
        ensures
            final(self)@ == sp_patch_jump(old(self)@, offset as int),
    {
        let jump = self.chunk.code.len() - offset - 2;
        self.chunk.code[offset] = ((jump / 256) % 256) as u8;
        self.chunk.code[offset + 1] = (jump % 256) as u8;
    }

    /// Emits a jump opcode with a two-byte placeholder and returns the
    /// placeholder's offset for later patching. This is the only correct
    /// forward-jump path.
    pub fn emit_jump(&mut self, byte: u8) -> (offset: usize)
        ensures
            final(self)@ == sp_emit_jump(old(self)@, byte).0,
            offset as int == sp_emit_jump(old(self)@, byte).1,
            offset + 2 == final(self)@.code.len(),
    {
        self.emit_byte(byte);
        self.emit_bytes(0xff, 0xff);
        self.chunk.code.len() - 2
    }

    /// Emits the backward jump: a `LOOP` opcode with a two-byte big-endian
    /// distance back to `loop_start`. The only backward-jump path,
    /// structurally distinct from the forward jumps.
    pub fn emit_loop(&mut self, loop_start: usize)
        requires
            loop_start <= old(self)@.code.len(),
        ensures
            final(self)@ == sp_emit_loop(old(self)@, loop_start as int),
    {
        self.emit_byte(opcode::LOOP);
        // u128 so the distance arithmetic cannot overflow on any chunk
        // the address space can hold.
        let offset = (self.chunk.code.len() as u128) - (loop_start as u128) + 2;
        self.emit_bytes(((offset / 256) % 256) as u8, (offset % 256) as u8);
    }

    /// Inserts a value into the constant pool and returns its one-byte
    /// index. Past 255 entries the pool is over capacity: the error is
    /// reported against `span` and the unit aborts.
    pub fn make_constant(&mut self, value: Value, span: Span, reporter: &mut Reporter) -> (r:
        Result<u8, ()>)
        ensures
            ({
                let (st1, index) = sp_make_constant(
                    st_of(old(self)@, old(reporter)@, Seq::empty()),
                    value,
                    span,
                );
                &&& final(self)@ == st1.b
                &&& final(reporter)@ == st1.diags
                &&& r == match index {
                    Some(i) => Result::<u8, ()>::Ok(i),
                    None => Result::<u8, ()>::Err(()),
                }
            }),
    {
        let index = self.chunk.add_constant(value);
        if index >= 255 {
            reporter.error("too many constants in one chunk", span);
            Err(())
        } else {
            Ok(index as u8)
        }
    }

    /// Inserts a constant and emits its load instruction.
    pub fn emit_constant(&mut self, constant: Value, span: Span, reporter: &mut Reporter) -> (r:
        Result<(), ()>)
        ensures
            ({
                let outcome = sp_constant(st_of(old(self)@, old(reporter)@, Seq::empty()), constant, span);
                match r {
                    Ok(()) => outcome == Outcome::Done(
                        st_of(final(self)@, final(reporter)@, Seq::empty()),
                    ),
                    Err(()) => outcome == Outcome::Failed(
                        st_of(final(self)@, final(reporter)@, Seq::empty()),
                    ),
                }
            }),
    {
        let value = self.make_constant(constant, span, reporter)?;
        self.emit_bytes(opcode::CONSTANT, value);
        Ok(())
    }

    /// Advances the line counter to a span's first line, never backwards.
    pub fn set_span(&mut self, span: Span)
        ensures
            final(self)@ == sp_set_span(old(self)@, span),
    {
        if span.start.line > self.line {
            self.line = span.start.line;
        }
    }

    /// Resolves an identifier through the flat parameter map.
    fn get_param(&self, key: Symbol) -> (r: Option<usize>)
        ensures
            r == assoc_lookup(self@.params, key),
    {
        let mut i = self.params.len();
        proof {
            assert(self@.params.subrange(0, i as int) =~= self@.params);
        }
        while i > 0
            invariant
                i <= self@.params.len(),
                assoc_lookup(self@.params, key) == assoc_lookup(
                    self@.params.subrange(0, i as int),
                    key,
                ),
            decreases i,
        {
            i = i - 1;
            proof {
                assert(self@.params.subrange(0, i + 1).drop_last() =~= self@.params.subrange(
                    0,
                    i as int,
                ));
                assert(self@.params.subrange(0, i + 1).last() == self@.params[i as int]);
            }
            if self.params[i].0 == key {
                return Some(self.params[i].1);
            }
        }
        None
    }

    /// Lowers one statement into the chunk. Returns `Err` exactly when a
    /// compile error was reported; the builder, sink and allocation list
    /// end in precisely the state the lowering model gives.
    pub fn compile_statement(
        &mut self,
        statement: &Spanned<TypedStatement>,
        symbols: &Interner,
        reporter: &mut Reporter,
        objects: &mut Allocations,
    ) -> (r: Result<(), ()>)
        requires
            !(sp_stmt(
                symbols@,
                st_of(old(self)@, old(reporter)@, old(objects)@),
                *statement,
            ) is Fault),
        ensures
            ({
                let outcome = sp_stmt(
                    symbols@,
                    st_of(old(self)@, old(reporter)@, old(objects)@),
                    *statement,
                );
                match r {
                    Ok(()) => outcome == Outcome::Done(
                        st_of(final(self)@, final(reporter)@, final(objects)@),
                    ),
                    Err(()) => outcome == Outcome::Failed(
                        st_of(final(self)@, final(reporter)@, final(objects)@),
                    ),
                }
            }),
        decreases stmt_height(*statement), 1nat,
    {
        match &statement.value.statement.value {
            Statement::Block(_) => self.compile_block(statement, symbols, reporter, objects),
            Statement::Break => {
                self.set_span(statement.span);
                match self.current_loop {
                    Some(description) => {
                        self.emit_bytes(opcode::JUMP, (description.end % 256) as u8);
                        Ok(())
                    },
                    None => {
                        proof {
                            assert(false);
                        }
                        Err(())
                    },
                }
            },
            Statement::Continue => {
                self.set_span(statement.span);
                match self.current_loop {
                    Some(description) => {
                        self.emit_bytes(opcode::JUMP, (description.start % 256) as u8);
                        Ok(())
                    },
                    None => {
                        proof {
                            assert(false);
                        }
                        Err(())
                    },
                }
            },
            Statement::Expr(expr) => {
                proof {
                    lemma_expr_height_pos(*expr);
                }
                self.set_span(statement.span);
                self.compile_expression(expr, symbols, reporter, objects)?;
                Ok(())
            },
            Statement::Print(expr) => {
                proof {
                    lemma_expr_height_pos(*expr);
                }
                self.set_span(statement.span);
                self.compile_expression(expr, symbols, reporter, objects)?;
                self.emit_byte(opcode::PRINT);
                Ok(())
            },
            Statement::Return(expr) => {
                proof {
                    lemma_expr_height_pos(*expr);
                }
                self.set_span(statement.span);
                self.compile_expression(expr, symbols, reporter, objects)?;
                self.emit_byte(opcode::RETURN);
                Ok(())
            },
            Statement::If { .. } => self.compile_if(statement, symbols, reporter, objects),
            Statement::Let { .. } => self.compile_let(statement, symbols, reporter, objects),
            Statement::While(_, _) => self.compile_while(statement, symbols, reporter, objects),
        }
    }

    /// A braced block: enter a scope, compile the children in order, leave
    /// the scope — one matched enter/exit pair around the body, on the
    /// error path as much as on success.
    #[verifier::loop_isolation(false)]
    #[verifier::rlimit(100)]
    #[verifier::spinoff_prover]
    fn compile_block(
        &mut self,
        statement: &Spanned<TypedStatement>,
        symbols: &Interner,
        reporter: &mut Reporter,
        objects: &mut Allocations,
    ) -> (r: Result<(), ()>)
        requires
            !(sp_stmt(
                symbols@,
                st_of(old(self)@, old(reporter)@, old(objects)@),
                *statement,
            ) is Fault),
            statement.value.statement.value is Block,
        ensures
            ({
                let outcome = sp_stmt(
                    symbols@,
                    st_of(old(self)@, old(reporter)@, old(objects)@),
                    *statement,
                );
                match r {
                    Ok(()) => outcome == Outcome::Done(
                        st_of(final(self)@, final(reporter)@, final(objects)@),
                    ),
                    Err(()) => outcome == Outcome::Failed(
                        st_of(final(self)@, final(reporter)@, final(objects)@),
                    ),
                }
            }),
        decreases stmt_height(*statement), 0nat,
    {
        let ghost orig = st_of(old(self)@, old(reporter)@, old(objects)@);
        self.set_span(statement.span);
        let ghost st = with_b(orig, sp_set_span(orig.b, statement.span));
        match &statement.value.statement.value {
            Statement::Block(statements) => {
                self.locals.begin_scope();
                let ghost entered = with_b(st, BState { locals: st.b.locals.push(None), ..st.b });
                let ghost all = statements@;
                let mut i: usize = 0;
                proof {
                    assert(all.subrange(0, all.len() as int) =~= all);
                }
                while i < statements.len()
                    invariant
                        i <= statements.len(),
                        all == statements@,
                        stmts_height(all) < stmt_height(*statement),
                        sp_stmt_list(symbols@, entered, all) == sp_stmt_list(
                            symbols@,
                            st_of(self@, reporter@, objects@),
                            all.subrange(i as int, all.len() as int),
                        ),
                        !(sp_stmt_list(symbols@, entered, all) is Fault),
                    decreases statements.len() - i,
                {
                    let ghost rest = all.subrange(i as int, all.len() as int);
                    proof {
                        lemma_stmts_height_elem(all, i as int);
                        assert(rest[0] == all[i as int]);
                        assert(rest.subrange(1, rest.len() as int) =~= all.subrange(
                            i + 1,
                            all.len() as int,
                        ));
                    }
                    let res = self.compile_statement(&statements[i], symbols, reporter, objects);
                    if res.is_err() {
                        self.locals.end_scope();
                        return Err(());
                    }
                    i = i + 1;
                }
                proof {
                    assert(all.subrange(statements.len() as int, all.len() as int)
                        =~= Seq::<Spanned<TypedStatement>>::empty());
                }
                self.locals.end_scope();
                Ok(())
            },
            _ => {
                proof {
                    assert(false);
                }
                Err(())
            },
        }
    }

    /// A conditional: the condition, a `JUMPNOT` over the then-branch, and
    /// with an else-branch a `JUMP` over it; the condition value is
    /// discarded once on each path.
    #[verifier::rlimit(100)]
    #[verifier::spinoff_prover]
    fn compile_if(
        &mut self,
        statement: &Spanned<TypedStatement>,
        symbols: &Interner,
        reporter: &mut Reporter,
        objects: &mut Allocations,
    ) -> (r: Result<(), ()>)
        requires
            !(sp_stmt(
                symbols@,
                st_of(old(self)@, old(reporter)@, old(objects)@),
                *statement,
            ) is Fault),
            statement.value.statement.value is If,
        ensures
            ({
                let outcome = sp_stmt(
                    symbols@,
                    st_of(old(self)@, old(reporter)@, old(objects)@),
                    *statement,
                );
                match r {
                    Ok(()) => outcome == Outcome::Done(
                        st_of(final(self)@, final(reporter)@, final(objects)@),
                    ),
                    Err(()) => outcome == Outcome::Failed(
                        st_of(final(self)@, final(reporter)@, final(objects)@),
                    ),
                }
            }),
        decreases stmt_height(*statement), 0nat,
    {
        self.set_span(statement.span);
        match &statement.value.statement.value {
            Statement::If { cond, then, otherwise } => {
                match otherwise {
                    None => {
                        proof {
                            lemma_expr_height_pos(*cond);
                            lemma_stmt_height_pos(**then);
                        }
                        self.compile_expression(cond, symbols, reporter, objects)?;
                        let false_label = self.emit_jump(opcode::JUMPNOT);
                        self.emit_byte(opcode::POP);
                        let ghost mid = st_of(self@, reporter@, objects@);
                        proof {
                            lemma_sp_stmt_grows(symbols@, mid, **then);
                        }
                        self.compile_statement(then, symbols, reporter, objects)?;
                        self.patch_jump(false_label);
                        self.emit_byte(opcode::POP);
                        Ok(())
                    },
                    Some(otherwise) => {
                        proof {
                            lemma_expr_height_pos(*cond);
                            lemma_stmt_height_pos(**then);
                            lemma_stmt_height_pos(**otherwise);
                        }
                        self.compile_expression(cond, symbols, reporter, objects)?;
                        let false_label = self.emit_jump(opcode::JUMPNOT);
                        self.emit_byte(opcode::POP);
                        let ghost mid = st_of(self@, reporter@, objects@);
                        proof {
                            lemma_sp_stmt_grows(symbols@, mid, **then);
                        }
                        self.compile_statement(then, symbols, reporter, objects)?;
                        let end_label = self.emit_jump(opcode::JUMP);
                        self.patch_jump(false_label);
                        self.emit_byte(opcode::POP);
                        let ghost mid2 = st_of(self@, reporter@, objects@);
                        proof {
                            lemma_sp_stmt_grows(symbols@, mid2, **otherwise);
                        }
                        self.compile_statement(otherwise, symbols, reporter, objects)?;
                        self.patch_jump(end_label);
                        Ok(())
                    },
                }
            },
            _ => {
                proof {
                    assert(false);
                }
                Err(())
            },
        }
    }

    /// A local declaration: the initialiser (or a nil constant), a fresh
    /// never-reclaimed slot, the binding in the current scope, and a
    /// `SETLOCAL` with the slot truncated to one byte.
    #[verifier::rlimit(100)]
    #[verifier::spinoff_prover]
    fn compile_let(
        &mut self,
        statement: &Spanned<TypedStatement>,
        symbols: &Interner,
        reporter: &mut Reporter,
        objects: &mut Allocations,
    ) -> (r: Result<(), ()>)
        requires
            !(sp_stmt(
                symbols@,
                st_of(old(self)@, old(reporter)@, old(objects)@),
                *statement,
            ) is Fault),
            statement.value.statement.value is Let,
        ensures
            ({
                let outcome = sp_stmt(
                    symbols@,
                    st_of(old(self)@, old(reporter)@, old(objects)@),
                    *statement,
                );
                match r {
                    Ok(()) => outcome == Outcome::Done(
                        st_of(final(self)@, final(reporter)@, final(objects)@),
                    ),
                    Err(()) => outcome == Outcome::Failed(
                        st_of(final(self)@, final(reporter)@, final(objects)@),
                    ),
                }
            }),
        decreases stmt_height(*statement), 0nat,
    {
        self.set_span(statement.span);
        match &statement.value.statement.value {
            Statement::Let { ident, ty: _, expr } => {
                match expr {
                    Some(e) => {
                        proof {
                            lemma_expr_height_pos(*e);
                        }
                        self.compile_expression(e, symbols, reporter, objects)?;
                    },
                    None => {
                        let res = self.emit_constant(Value::nil(), statement.span, reporter);
                        if res.is_err() {
                            return Err(());
                        }
                    },
                }
                let slot = self.new_slot();
                self.locals.insert(*ident, slot as usize);
                self.emit_bytes(opcode::SETLOCAL, (slot % 256) as u8);
                Ok(())
            },
            _ => {
                proof {
                    assert(false);
                }
                Err(())
            },
        }
    }

    /// A while loop: condition, exit jump, loop descriptor, body, backward
    /// jump to the start, exit patched, condition discarded.
    #[verifier::rlimit(100)]
    #[verifier::spinoff_prover]
    fn compile_while(
        &mut self,
        statement: &Spanned<TypedStatement>,
        symbols: &Interner,
        reporter: &mut Reporter,
        objects: &mut Allocations,
    ) -> (r: Result<(), ()>)
        requires
            !(sp_stmt(
                symbols@,
                st_of(old(self)@, old(reporter)@, old(objects)@),
                *statement,
            ) is Fault),
            statement.value.statement.value is While,
        ensures
            ({
                let outcome = sp_stmt(
                    symbols@,
                    st_of(old(self)@, old(reporter)@, old(objects)@),
                    *statement,
                );
                match r {
                    Ok(()) => outcome == Outcome::Done(
                        st_of(final(self)@, final(reporter)@, final(objects)@),
                    ),
                    Err(()) => outcome == Outcome::Failed(
                        st_of(final(self)@, final(reporter)@, final(objects)@),
                    ),
                }
            }),
        decreases stmt_height(*statement), 0nat,
    {
        let ghost orig = st_of(old(self)@, old(reporter)@, old(objects)@);
        self.set_span(statement.span);
        let ghost st = with_b(orig, sp_set_span(orig.b, statement.span));
        match &statement.value.statement.value {
            Statement::While(cond, body) => {
                proof {
                    lemma_expr_height_pos(*cond);
                    lemma_stmt_height_pos(**body);
                    lemma_sp_expr_grows(symbols@, st, *cond);
                }
                let start_label = self.chunk.code.len();
                self.compile_expression(cond, symbols, reporter, objects)?;
                let out = self.emit_jump(opcode::JUMPNOT);
                self.current_loop = Some(LoopDescription { start: start_label, end: out });
                self.emit_byte(opcode::POP);
                let ghost mid = st_of(self@, reporter@, objects@);
                proof {
                    lemma_sp_stmt_grows(symbols@, mid, **body);
                }
                self.compile_statement(body, symbols, reporter, objects)?;
                self.emit_loop(start_label);
                self.patch_jump(out);
                self.emit_byte(opcode::POP);
                Ok(())
            },
            _ => {
                proof {
                    assert(false);
                }
                Err(())
            },
        }
    }

    /// Lowers one expression into the chunk, selecting instructions by the
    /// statically known types on the tree. Returns `Err` exactly when a
    /// compile error was reported; the final state is precisely what the
    /// lowering model gives.
    pub fn compile_expression(
        &mut self,
        expr: &Spanned<TypedExpression>,
        symbols: &Interner,
        reporter: &mut Reporter,
        objects: &mut Allocations,
    ) -> (r: Result<(), ()>)
        requires
            !(sp_expr(symbols@, st_of(old(self)@, old(reporter)@, old(objects)@), *expr) is Fault),
        ensures
            ({
                let outcome = sp_expr(
                    symbols@,
                    st_of(old(self)@, old(reporter)@, old(objects)@),
                    *expr,
                );
                match r {
                    Ok(()) => outcome == Outcome::Done(
                        st_of(final(self)@, final(reporter)@, final(objects)@),
                    ),
                    Err(()) => outcome == Outcome::Failed(
                        st_of(final(self)@, final(reporter)@, final(objects)@),
                    ),
                }
            }),
        decreases expr_height(*expr), 1nat,
    {
        match &expr.value.expr.value {
            Expression::Assign(_, _, _) => self.compile_assign(expr, symbols, reporter, objects),
            Expression::Array(_) => self.compile_array(expr, symbols, reporter, objects),
            Expression::Index(_, _) => self.compile_index(expr, symbols, reporter, objects),
            Expression::Literal(_) => self.compile_literal(expr, symbols, reporter, objects),
            Expression::Binary(_, _, _) => self.compile_binary(expr, symbols, reporter, objects),
            Expression::Cast(_, _) => self.compile_cast(expr, symbols, reporter, objects),
            Expression::Call(_, _) => self.compile_call(expr, symbols, reporter, objects),
            Expression::ClassLiteral { .. } => self.compile_class_literal(
                expr,
                symbols,
                reporter,
                objects,
            ),
            Expression::InstanceMethodCall { .. } => self.compile_instance_method_call(
                expr,
                symbols,
                reporter,
                objects,
            ),
            Expression::StaticMethodCall { .. } => self.compile_static_method_call(
                expr,
                symbols,
                reporter,
                objects,
            ),
            Expression::GetProperty { .. } => self.compile_get_property(
                expr,
                symbols,
                reporter,
                objects,
            ),
            Expression::GetMethod { .. } => self.compile_get_method(
                expr,
                symbols,
                reporter,
                objects,
            ),
            Expression::Grouping(inner) => {
                proof {
                    lemma_expr_height_pos(**inner);
                }
                self.set_span(expr.span);
                self.compile_expression(inner, symbols, reporter, objects)?;
                Ok(())
            },
            Expression::Match { .. } => self.compile_match(expr, symbols, reporter, objects),
            Expression::Ternary(_, _, _) => self.compile_ternary(expr, symbols, reporter, objects),
            Expression::Unary(_, _) => self.compile_unary(expr, symbols, reporter, objects),
            Expression::Var(_, _) => self.compile_var(expr, symbols, reporter, objects),
            Expression::VariantNoData { enum_name, tag } => {
                self.set_span(expr.span);
                self.emit_byte(opcode::ENUM);
                self.emit_bytes((enum_name.value % 256) as u8, (*tag % 256) as u8);
                Ok(())
            },
            Expression::VariantWithData { .. } => self.compile_variant_with_data(
                expr,
                symbols,
                reporter,
                objects,
            ),
            Expression::Closure(_) => self.compile_closure(expr, symbols, reporter, objects),
            Expression::SetProperty(_, _, _) => self.compile_set_property(
                expr,
                symbols,
                reporter,
                objects,
            ),
        }
    }

    /// Plain or compound assignment. Plain assignment resolves through the
    /// local scope and then the parameter map; compound assignment
    /// consults only the local scope, reads the slot, applies the
    /// arithmetic opcode selected by the right-hand side's static type,
    /// and writes the same slot back.
    #[verifier::rlimit(100)]
    #[verifier::spinoff_prover]
    fn compile_assign(
        &mut self,
        expr: &Spanned<TypedExpression>,
        symbols: &Interner,
        reporter: &mut Reporter,
        objects: &mut Allocations,
    ) -> (r: Result<(), ()>)
        requires
            !(sp_expr(symbols@, st_of(old(self)@, old(reporter)@, old(objects)@), *expr) is Fault),
            expr.value.expr.value is Assign,
        ensures
            ({
                let outcome = sp_expr(
                    symbols@,
                    st_of(old(self)@, old(reporter)@, old(objects)@),
                    *expr,
                );
                match r {
                    Ok(()) => outcome == Outcome::Done(
                        st_of(final(self)@, final(reporter)@, final(objects)@),
                    ),
                    Err(()) => outcome == Outcome::Failed(
                        st_of(final(self)@, final(reporter)@, final(objects)@),
                    ),
                }
            }),
        decreases expr_height(*expr), 0nat,
    {
        self.set_span(expr.span);
        match &expr.value.expr.value {
            Expression::Assign(ident, op, rhs) => {
                proof {
                    lemma_expr_height_pos(**rhs);
                }
                match op {
                    AssignOperator::Equal => {
                        let pos_opt = match self.locals.get(*ident) {
                            Some(pos) => Some(pos),
                            None => self.get_param(*ident),
                        };
                        match pos_opt {
                            Some(pos) => {
                                self.compile_expression(rhs, symbols, reporter, objects)?;
                                self.emit_bytes(opcode::SETLOCAL, (pos % 256) as u8);
                                Ok(())
                            },
                            None => {
                                proof {
                                    assert(false);
                                }
                                Err(())
                            },
                        }
                    },
                    _ => {
                        match self.locals.get(*ident) {
                            Some(pos) => {
                                let selected = match select_compound(*op, &rhs.value.ty) {
                                    Some(selected) => selected,
                                    None => {
                                        proof {
                                            assert(false);
                                        }
                                        return Err(());
                                    },
                                };
                                self.emit_bytes(opcode::GETLOCAL, (pos % 256) as u8);
                                self.compile_expression(rhs, symbols, reporter, objects)?;
                                self.emit_byte(selected);
                                self.emit_bytes(opcode::SETLOCAL, (pos % 256) as u8);
                                Ok(())
                            },
                            None => {
                                proof {
                                    assert(false);
                                }
                                Err(())
                            },
                        }
                    },
                }
            },
            _ => {
                proof {
                    assert(false);
                }
                Err(())
            },
        }
    }

    /// An array literal: the items compiled in reverse (they are popped in
    /// order), then `ARRAY` with the item count.
    #[verifier::loop_isolation(false)]
    #[verifier::rlimit(100)]
    #[verifier::spinoff_prover]
    fn compile_array(
        &mut self,
        expr: &Spanned<TypedExpression>,
        symbols: &Interner,
        reporter: &mut Reporter,
        objects: &mut Allocations,
    ) -> (r: Result<(), ()>)
        requires
            !(sp_expr(symbols@, st_of(old(self)@, old(reporter)@, old(objects)@), *expr) is Fault),
            expr.value.expr.value is Array,
        ensures
            ({
                let outcome = sp_expr(
                    symbols@,
                    st_of(old(self)@, old(reporter)@, old(objects)@),
                    *expr,
                );
                match r {
                    Ok(()) => outcome == Outcome::Done(
                        st_of(final(self)@, final(reporter)@, final(objects)@),
                    ),
                    Err(()) => outcome == Outcome::Failed(
                        st_of(final(self)@, final(reporter)@, final(objects)@),
                    ),
                }
            }),
        decreases expr_height(*expr), 0nat,
    {
        let ghost orig = st_of(old(self)@, old(reporter)@, old(objects)@);
        self.set_span(expr.span);
        let ghost st = with_b(orig, sp_set_span(orig.b, expr.span));
        match &expr.value.expr.value {
            Expression::Array(items) => {
                let ghost all = items@;
                let mut i = items.len();
                proof {
                    assert(all.subrange(0, i as int) =~= all);
                }
                while i > 0
                    invariant
                        i <= items.len(),
                        all == items@,
                        exprs_height(all) < expr_height(*expr),
                        sp_exprs_rev(symbols@, st, all) == sp_exprs_rev(
                            symbols@,
                            st_of(self@, reporter@, objects@),
                            all.subrange(0, i as int),
                        ),
                        !(sp_exprs_rev(symbols@, st, all) is Fault),
                    decreases i,
                {
                    let ghost prefix = all.subrange(0, i as int);
                    proof {
                        lemma_exprs_height_elem(all, i - 1);
                        assert(prefix.last() == all[i - 1]);
                        assert(prefix.drop_last() =~= all.subrange(0, i - 1));
                    }
                    i = i - 1;
                    let res = self.compile_expression(&items[i], symbols, reporter, objects);
                    if res.is_err() {
                        return Err(());
                    }
                }
                proof {
                    assert(all.subrange(0, 0) =~= Seq::<Spanned<TypedExpression>>::empty());
                }
                self.emit_bytes(opcode::ARRAY, (items.len() % 256) as u8);
                Ok(())
            },
            _ => {
                proof {
                    assert(false);
                }
                Err(())
            },
        }
    }

    /// Indexing: the opcode is selected by the result's static type,
    /// string or array.
    #[verifier::rlimit(100)]
    #[verifier::spinoff_prover]
    fn compile_index(
        &mut self,
        expr: &Spanned<TypedExpression>,
        symbols: &Interner,
        reporter: &mut Reporter,
        objects: &mut Allocations,
    ) -> (r: Result<(), ()>)
        requires
            !(sp_expr(symbols@, st_of(old(self)@, old(reporter)@, old(objects)@), *expr) is Fault),
            expr.value.expr.value is Index,
        ensures
            ({
                let outcome = sp_expr(
                    symbols@,
                    st_of(old(self)@, old(reporter)@, old(objects)@),
                    *expr,
                );
                match r {
                    Ok(()) => outcome == Outcome::Done(
                        st_of(final(self)@, final(reporter)@, final(objects)@),
                    ),
                    Err(()) => outcome == Outcome::Failed(
                        st_of(final(self)@, final(reporter)@, final(objects)@),
                    ),
                }
            }),
        decreases expr_height(*expr), 0nat,
    {
        self.set_span(expr.span);
        match &expr.value.expr.value {
            Expression::Index(target, index) => {
                proof {
                    lemma_expr_height_pos(**target);
                    lemma_expr_height_pos(**index);
                }
                let selected = match &expr.value.ty {
                    Ty::Str => opcode::INDEXSTRING,
                    Ty::Array(_) => opcode::INDEXARRAY,
                    _ => {
                        proof {
                            assert(false);
                        }
                        return Err(());
                    },
                };
                self.compile_expression(target, symbols, reporter, objects)?;
                self.compile_expression(index, symbols, reporter, objects)?;
                self.emit_byte(selected);
                Ok(())
            },
            _ => {
                proof {
                    assert(false);
                }
                Err(())
            },
        }
    }

    /// A literal: booleans and nil are single opcodes; integers, floats
    /// and strings go through the constant pool, a string first becoming a
    /// heap object on the allocation list.
    #[verifier::rlimit(100)]
    #[verifier::spinoff_prover]
    fn compile_literal(
        &mut self,
        expr: &Spanned<TypedExpression>,
        symbols: &Interner,
        reporter: &mut Reporter,
        objects: &mut Allocations,
    ) -> (r: Result<(), ()>)
        requires
            !(sp_expr(symbols@, st_of(old(self)@, old(reporter)@, old(objects)@), *expr) is Fault),
            expr.value.expr.value is Literal,
        ensures
            ({
                let outcome = sp_expr(
                    symbols@,
                    st_of(old(self)@, old(reporter)@, old(objects)@),
                    *expr,
                );
                match r {
                    Ok(()) => outcome == Outcome::Done(
                        st_of(final(self)@, final(reporter)@, final(objects)@),
                    ),
                    Err(()) => outcome == Outcome::Failed(
                        st_of(final(self)@, final(reporter)@, final(objects)@),
                    ),
                }
            }),
        decreases expr_height(*expr), 0nat,
    {
        self.set_span(expr.span);
        match &expr.value.expr.value {
            Expression::Literal(literal) => {
                match literal {
                    Literal::False(_) => {
                        self.emit_byte(opcode::FALSE);
                        Ok(())
                    },
                    Literal::True(_) => {
                        self.emit_byte(opcode::TRUE);
                        Ok(())
                    },
                    Literal::Nil => {
                        self.emit_byte(opcode::NIL);
                        Ok(())
                    },
                    Literal::Int(n) => {
                        let res = self.emit_constant(
                            Value::integer(*n),
                            expr.value.expr.span,
                            reporter,
                        );
                        if res.is_err() {
                            return Err(());
                        }
                        Ok(())
                    },
                    Literal::Float(bits) => {
                        let res = self.emit_constant(
                            Value::float(*bits),
                            expr.value.expr.span,
                            reporter,
                        );
                        if res.is_err() {
                            return Err(());
                        }
                        Ok(())
                    },
                    Literal::Str(string) => {
                        let object = objects.append(HeapObject::Str(string.clone()));
                        let res = self.emit_constant(
                            Value::object(object),
                            expr.value.expr.span,
                            reporter,
                        );
                        if res.is_err() {
                            return Err(());
                        }
                        Ok(())
                    },
                }
            },
            _ => {
                proof {
                    assert(false);
                }
                Err(())
            },
        }
    }

    /// A binary operation: `and` / `or` short-circuit; everything else
    /// compiles both operands and selects the opcode by the statically
    /// known types. `<=` and `>=` lower to the strict comparison followed
    /// by `NOT`, never to a dedicated opcode; `==` and `!=` use the one
    /// representation-agnostic `EQUAL`.
    #[verifier::rlimit(100)]
    #[verifier::spinoff_prover]
    fn compile_binary(
        &mut self,
        expr: &Spanned<TypedExpression>,
        symbols: &Interner,
        reporter: &mut Reporter,
        objects: &mut Allocations,
    ) -> (r: Result<(), ()>)
        requires
            !(sp_expr(symbols@, st_of(old(self)@, old(reporter)@, old(objects)@), *expr) is Fault),
            expr.value.expr.value is Binary,
        ensures
            ({
                let outcome = sp_expr(
                    symbols@,
                    st_of(old(self)@, old(reporter)@, old(objects)@),
                    *expr,
                );
                match r {
                    Ok(()) => outcome == Outcome::Done(
                        st_of(final(self)@, final(reporter)@, final(objects)@),
                    ),
                    Err(()) => outcome == Outcome::Failed(
                        st_of(final(self)@, final(reporter)@, final(objects)@),
                    ),
                }
            }),
        decreases expr_height(*expr), 0nat,
    {
        self.set_span(expr.span);
        match &expr.value.expr.value {
            Expression::Binary(lhs, op, rhs) => {
                proof {
                    lemma_expr_height_pos(**lhs);
                    lemma_expr_height_pos(**rhs);
                }
                if *op == Op::And {
                    self.compile_and(lhs, rhs, symbols, reporter, objects)?;
                    Ok(())
                } else if *op == Op::Or {
                    self.compile_or(lhs, rhs, symbols, reporter, objects)?;
                    Ok(())
                } else {
                    self.compile_expression(lhs, symbols, reporter, objects)?;
                    self.compile_expression(rhs, symbols, reporter, objects)?;
                    match select_binary(&expr.value.ty, &lhs.value.ty, *op) {
                        Some((selected, negate)) => {
                            if negate {
                                self.emit_bytes(selected, opcode::NOT);
                            } else {
                                self.emit_byte(selected);
                            }
                            Ok(())
                        },
                        None => {
                            proof {
                                assert(false);
                            }
                            Err(())
                        },
                    }
                }
            },
            _ => {
                proof {
                    assert(false);
                }
                Err(())
            },
        }
    }

    /// An explicit cast: permitted only for the fixed set of type pairs.
    #[verifier::rlimit(100)]
    #[verifier::spinoff_prover]
    fn compile_cast(
        &mut self,
        expr: &Spanned<TypedExpression>,
        symbols: &Interner,
        reporter: &mut Reporter,
        objects: &mut Allocations,
    ) -> (r: Result<(), ()>)
        requires
            !(sp_expr(symbols@, st_of(old(self)@, old(reporter)@, old(objects)@), *expr) is Fault),
            expr.value.expr.value is Cast,
        ensures
            ({
                let outcome = sp_expr(
                    symbols@,
                    st_of(old(self)@, old(reporter)@, old(objects)@),
                    *expr,
                );
                match r {
                    Ok(()) => outcome == Outcome::Done(
                        st_of(final(self)@, final(reporter)@, final(objects)@),
                    ),
                    Err(()) => outcome == Outcome::Failed(
                        st_of(final(self)@, final(reporter)@, final(objects)@),
                    ),
                }
            }),
        decreases expr_height(*expr), 0nat,
    {
        self.set_span(expr.span);
        match &expr.value.expr.value {
            Expression::Cast(from, to_ty) => {
                proof {
                    lemma_expr_height_pos(**from);
                }
                self.compile_expression(from, symbols, reporter, objects)?;
                match select_cast(&from.value.ty, to_ty) {
                    Some(selected) => {
                        self.emit_byte(selected);
                        Ok(())
                    },
                    None => {
                        proof {
                            assert(false);
                        }
                        Err(())
                    },
                }
            },
            _ => {
                proof {
                    assert(false);
                }
                Err(())
            },
        }
    }

    /// A call: arguments pushed left to right, then `CALLNATIVE` for the
    /// fixed set of native-function names and `CALL` with the argument
    /// count for every other callee.
    #[verifier::loop_isolation(false)]
    #[verifier::rlimit(100)]
    #[verifier::spinoff_prover]
    fn compile_call(
        &mut self,
        expr: &Spanned<TypedExpression>,
        symbols: &Interner,
        reporter: &mut Reporter,
        objects: &mut Allocations,
    ) -> (r: Result<(), ()>)
        requires
            !(sp_expr(symbols@, st_of(old(self)@, old(reporter)@, old(objects)@), *expr) is Fault),
            expr.value.expr.value is Call,
        ensures
            ({
                let outcome = sp_expr(
                    symbols@,
                    st_of(old(self)@, old(reporter)@, old(objects)@),
                    *expr,
                );
                match r {
                    Ok(()) => outcome == Outcome::Done(
                        st_of(final(self)@, final(reporter)@, final(objects)@),
                    ),
                    Err(()) => outcome == Outcome::Failed(
                        st_of(final(self)@, final(reporter)@, final(objects)@),
                    ),
                }
            }),
        decreases expr_height(*expr), 0nat,
    {
        let ghost orig = st_of(old(self)@, old(reporter)@, old(objects)@);
        self.set_span(expr.span);
        let ghost st = with_b(orig, sp_set_span(orig.b, expr.span));
        match &expr.value.expr.value {
            Expression::Call(callee, args) => {
                let ghost all = args@;
                let mut i: usize = 0;
                proof {
                    assert(all.subrange(0, all.len() as int) =~= all);
                }
                while i < args.len()
                    invariant
                        i <= args.len(),
                        all == args@,
                        exprs_height(all) < expr_height(*expr),
                        sp_expr_list(symbols@, st, all) == sp_expr_list(
                            symbols@,
                            st_of(self@, reporter@, objects@),
                            all.subrange(i as int, all.len() as int),
                        ),
                        !(sp_expr_list(symbols@, st, all) is Fault),
                    decreases args.len() - i,
                {
                    let ghost rest = all.subrange(i as int, all.len() as int);
                    proof {
                        lemma_exprs_height_elem(all, i as int);
                        assert(rest[0] == all[i as int]);
                        assert(rest.subrange(1, rest.len() as int) =~= all.subrange(
                            i + 1,
                            all.len() as int,
                        ));
                    }
                    let res = self.compile_expression(&args[i], symbols, reporter, objects);
                    if res.is_err() {
                        return Err(());
                    }
                    i = i + 1;
                }
                proof {
                    assert(all.subrange(args.len() as int, all.len() as int)
                        =~= Seq::<Spanned<TypedExpression>>::empty());
                }
                let name = symbols.name(*callee);
                if is_native(name) {
                    self.emit_bytes(opcode::CALLNATIVE, (*callee % 256) as u8);
                } else {
                    self.emit_bytes(opcode::CALL, (*callee % 256) as u8);
                    self.emit_byte((args.len() % 256) as u8);
                }
                Ok(())
            },
            _ => {
                proof {
                    assert(false);
                }
                Err(())
            },
        }
    }

    /// A class-instance literal: property values pushed in reverse, then
    /// the construction instruction with the class tag and property count,
    /// then the property name tags in reverse order.
    #[verifier::loop_isolation(false)]
    #[verifier::rlimit(100)]
    #[verifier::spinoff_prover]
    fn compile_class_literal(
        &mut self,
        expr: &Spanned<TypedExpression>,
        symbols: &Interner,
        reporter: &mut Reporter,
        objects: &mut Allocations,
    ) -> (r: Result<(), ()>)
        requires
            !(sp_expr(symbols@, st_of(old(self)@, old(reporter)@, old(objects)@), *expr) is Fault),
            expr.value.expr.value is ClassLiteral,
        ensures
            ({
                let outcome = sp_expr(
                    symbols@,
                    st_of(old(self)@, old(reporter)@, old(objects)@),
                    *expr,
                );
                match r {
                    Ok(()) => outcome == Outcome::Done(
                        st_of(final(self)@, final(reporter)@, final(objects)@),
                    ),
                    Err(()) => outcome == Outcome::Failed(
                        st_of(final(self)@, final(reporter)@, final(objects)@),
                    ),
                }
            }),
        decreases expr_height(*expr), 0nat,
    {
        let ghost orig = st_of(old(self)@, old(reporter)@, old(objects)@);
        self.set_span(expr.span);
        let ghost st = with_b(orig, sp_set_span(orig.b, expr.span));
        match &expr.value.expr.value {
            Expression::ClassLiteral { symbol, properties } => {
                let ghost all = properties@;
                let mut i = properties.len();
                proof {
                    assert(all.subrange(0, i as int) =~= all);
                }
                while i > 0
                    invariant
                        i <= properties.len(),
                        all == properties@,
                        props_height(all) < expr_height(*expr),
                        sp_props_rev(symbols@, st, all) == sp_props_rev(
                            symbols@,
                            st_of(self@, reporter@, objects@),
                            all.subrange(0, i as int),
                        ),
                        !(sp_props_rev(symbols@, st, all) is Fault),
                    decreases i,
                {
                    let ghost prefix = all.subrange(0, i as int);
                    proof {
                        lemma_props_height_elem(all, i - 1);
                        assert(prefix.last() == all[i - 1]);
                        assert(prefix.drop_last() =~= all.subrange(0, i - 1));
                    }
                    i = i - 1;
                    let res = self.compile_expression(
                        &properties[i].value.expr,
                        symbols,
                        reporter,
                        objects,
                    );
                    if res.is_err() {
                        return Err(());
                    }
                }
                proof {
                    assert(all.subrange(0, 0) =~= Seq::<Spanned<Property>>::empty());
                }
                self.emit_bytes(opcode::CLASSINSTANCE, (*symbol % 256) as u8);
                self.emit_byte((properties.len() % 256) as u8);
                let ghost before_tags = self@;
                let ghost diags_here = reporter@;
                let ghost objs_here = objects@;
                let mut j = properties.len();
                proof {
                    assert(all.subrange(0, j as int) =~= all);
                }
                while j > 0
                    invariant
                        j <= properties.len(),
                        all == properties@,
                        sp_tag_bytes_rev(before_tags, all) == sp_tag_bytes_rev(
                            self@,
                            all.subrange(0, j as int),
                        ),
                        reporter@ == diags_here,
                        objects@ == objs_here,
                    decreases j,
                {
                    let ghost prefix = all.subrange(0, j as int);
                    proof {
                        assert(prefix.last() == all[j - 1]);
                        assert(prefix.drop_last() =~= all.subrange(0, j - 1));
                    }
                    j = j - 1;
                    self.emit_byte((properties[j].value.name % 256) as u8);
                }
                proof {
                    assert(all.subrange(0, 0) =~= Seq::<Spanned<Property>>::empty());
                }
                Ok(())
            },
            _ => {
                proof {
                    assert(false);
                }
                Err(())
            },
        }
    }

    /// An instance method call: arguments, then the receiver, then the
    /// dispatch instruction with the method tag and argument count.
    #[verifier::loop_isolation(false)]
    #[verifier::rlimit(100)]
    #[verifier::spinoff_prover]
    fn compile_instance_method_call(
        &mut self,
        expr: &Spanned<TypedExpression>,
        symbols: &Interner,
        reporter: &mut Reporter,
        objects: &mut Allocations,
    ) -> (r: Result<(), ()>)
        requires
            !(sp_expr(symbols@, st_of(old(self)@, old(reporter)@, old(objects)@), *expr) is Fault),
            expr.value.expr.value is InstanceMethodCall,
        ensures
            ({
                let outcome = sp_expr(
                    symbols@,
                    st_of(old(self)@, old(reporter)@, old(objects)@),
                    *expr,
                );
                match r {
                    Ok(()) => outcome == Outcome::Done(
                        st_of(final(self)@, final(reporter)@, final(objects)@),
                    ),
                    Err(()) => outcome == Outcome::Failed(
                        st_of(final(self)@, final(reporter)@, final(objects)@),
                    ),
                }
            }),
        decreases expr_height(*expr), 0nat,
    {
        let ghost orig = st_of(old(self)@, old(reporter)@, old(objects)@);
        self.set_span(expr.span);
        let ghost st = with_b(orig, sp_set_span(orig.b, expr.span));
        match &expr.value.expr.value {
            Expression::InstanceMethodCall { method_name, instance, params } => {
                proof {
                    lemma_expr_height_pos(**instance);
                }
                let ghost all = params@;
                let mut i: usize = 0;
                proof {
                    assert(all.subrange(0, all.len() as int) =~= all);
                }
                while i < params.len()
                    invariant
                        i <= params.len(),
                        all == params@,
                        exprs_height(all) < expr_height(*expr),
                        sp_expr_list(symbols@, st, all) == sp_expr_list(
                            symbols@,
                            st_of(self@, reporter@, objects@),
                            all.subrange(i as int, all.len() as int),
                        ),
                        !(sp_expr_list(symbols@, st, all) is Fault),
                    decreases params.len() - i,
                {
                    let ghost rest = all.subrange(i as int, all.len() as int);
                    proof {
                        lemma_exprs_height_elem(all, i as int);
                        assert(rest[0] == all[i as int]);
                        assert(rest.subrange(1, rest.len() as int) =~= all.subrange(
                            i + 1,
                            all.len() as int,
                        ));
                    }
                    let res = self.compile_expression(&params[i], symbols, reporter, objects);
                    if res.is_err() {
                        return Err(());
                    }
                    i = i + 1;
                }
                proof {
                    assert(all.subrange(params.len() as int, all.len() as int)
                        =~= Seq::<Spanned<TypedExpression>>::empty());
                }
                self.compile_expression(instance, symbols, reporter, objects)?;
                self.emit_byte(opcode::CALLINSTANCEMETHOD);
                self.emit_bytes((*method_name % 256) as u8, (params.len() % 256) as u8);
                Ok(())
            },
            _ => {
                proof {
                    assert(false);
                }
                Err(())
            },
        }
    }

    /// A static method call: arguments, then the dispatch instruction with
    /// the class tag, the method tag and the argument count.
    #[verifier::loop_isolation(false)]
    #[verifier::rlimit(100)]
    #[verifier::spinoff_prover]
    fn compile_static_method_call(
        &mut self,
        expr: &Spanned<TypedExpression>,
        symbols: &Interner,
        reporter: &mut Reporter,
        objects: &mut Allocations,
    ) -> (r: Result<(), ()>)
        requires
            !(sp_expr(symbols@, st_of(old(self)@, old(reporter)@, old(objects)@), *expr) is Fault),
            expr.value.expr.value is StaticMethodCall,
        ensures
            ({
                let outcome = sp_expr(
                    symbols@,
                    st_of(old(self)@, old(reporter)@, old(objects)@),
                    *expr,
                );
                match r {
                    Ok(()) => outcome == Outcome::Done(
                        st_of(final(self)@, final(reporter)@, final(objects)@),
                    ),
                    Err(()) => outcome == Outcome::Failed(
                        st_of(final(self)@, final(reporter)@, final(objects)@),
                    ),
                }
            }),
        decreases expr_height(*expr), 0nat,
    {
        let ghost orig = st_of(old(self)@, old(reporter)@, old(objects)@);
        self.set_span(expr.span);
        let ghost st = with_b(orig, sp_set_span(orig.b, expr.span));
        match &expr.value.expr.value {
            Expression::StaticMethodCall { class_name, method_name, params } => {
                let ghost all = params@;
                let mut i: usize = 0;
                proof {
                    assert(all.subrange(0, all.len() as int) =~= all);
                }
                while i < params.len()
                    invariant
                        i <= params.len(),
                        all == params@,
                        exprs_height(all) < expr_height(*expr),
                        sp_expr_list(symbols@, st, all) == sp_expr_list(
                            symbols@,
                            st_of(self@, reporter@, objects@),
                            all.subrange(i as int, all.len() as int),
                        ),
                        !(sp_expr_list(symbols@, st, all) is Fault),
                    decreases params.len() - i,
                {
                    let ghost rest = all.subrange(i as int, all.len() as int);
                    proof {
                        lemma_exprs_height_elem(all, i as int);
                        assert(rest[0] == all[i as int]);
                        assert(rest.subrange(1, rest.len() as int) =~= all.subrange(
                            i + 1,
                            all.len() as int,
                        ));
                    }
                    let res = self.compile_expression(&params[i], symbols, reporter, objects);
                    if res.is_err() {
                        return Err(());
                    }
                    i = i + 1;
                }
                proof {
                    assert(all.subrange(params.len() as int, all.len() as int)
                        =~= Seq::<Spanned<TypedExpression>>::empty());
                }
                self.emit_byte(opcode::CALLSTATICMETHOD);
                self.emit_bytes((*class_name % 256) as u8, (*method_name % 256) as u8);
                self.emit_byte((params.len() % 256) as u8);
                Ok(())
            },
            _ => {
                proof {
                    assert(false);
                }
                Err(())
            },
        }
    }

    /// Reading a property of an already-compiled target: one opcode with
    /// the property name tag.
    #[verifier::rlimit(100)]
    #[verifier::spinoff_prover]
    fn compile_get_property(
        &mut self,
        expr: &Spanned<TypedExpression>,
        symbols: &Interner,
        reporter: &mut Reporter,
        objects: &mut Allocations,
    ) -> (r: Result<(), ()>)
        requires
            !(sp_expr(symbols@, st_of(old(self)@, old(reporter)@, old(objects)@), *expr) is Fault),
            expr.value.expr.value is GetProperty,
        ensures
            ({
                let outcome = sp_expr(
                    symbols@,
                    st_of(old(self)@, old(reporter)@, old(objects)@),
                    *expr,
                );
                match r {
                    Ok(()) => outcome == Outcome::Done(
                        st_of(final(self)@, final(reporter)@, final(objects)@),
                    ),
                    Err(()) => outcome == Outcome::Failed(
                        st_of(final(self)@, final(reporter)@, final(objects)@),
                    ),
                }
            }),
        decreases expr_height(*expr), 0nat,
    {
        self.set_span(expr.span);
        match &expr.value.expr.value {
            Expression::GetProperty { property_name, property } => {
                proof {
                    lemma_expr_height_pos(**property);
                }
                self.compile_expression(property, symbols, reporter, objects)?;
                self.emit_bytes(opcode::GETPROPERTY, (*property_name % 256) as u8);
                Ok(())
            },
            _ => {
                proof {
                    assert(false);
                }
                Err(())
            },
        }
    }

    /// Reading a bound method of an already-compiled target: one opcode
    /// with the method name tag.
    #[verifier::rlimit(100)]
    #[verifier::spinoff_prover]
    fn compile_get_method(
        &mut self,
        expr: &Spanned<TypedExpression>,
        symbols: &Interner,
        reporter: &mut Reporter,
        objects: &mut Allocations,
    ) -> (r: Result<(), ()>)
        requires
            !(sp_expr(symbols@, st_of(old(self)@, old(reporter)@, old(objects)@), *expr) is Fault),
            expr.value.expr.value is GetMethod,
        ensures
            ({
                let outcome = sp_expr(
                    symbols@,
                    st_of(old(self)@, old(reporter)@, old(objects)@),
                    *expr,
                );
                match r {
                    Ok(()) => outcome == Outcome::Done(
                        st_of(final(self)@, final(reporter)@, final(objects)@),
                    ),
                    Err(()) => outcome == Outcome::Failed(
                        st_of(final(self)@, final(reporter)@, final(objects)@),
                    ),
                }
            }),
        decreases expr_height(*expr), 0nat,
    {
        self.set_span(expr.span);
        match &expr.value.expr.value {
            Expression::GetMethod { method_name, method } => {
                proof {
                    lemma_expr_height_pos(**method);
                }
                self.compile_expression(method, symbols, reporter, objects)?;
                self.emit_bytes(opcode::GETMETHOD, (*method_name % 256) as u8);
                Ok(())
            },
            _ => {
                proof {
                    assert(false);
                }
                Err(())
            },
        }
    }

    /// A pattern match: the scrutinee once, then each arm in order. A
    /// non-wildcard arm re-evaluates the scrutinee, compares with `EQUAL`
    /// and conditionally skips its body; every arm records an end-jump
    /// patch point, and all of them are patched once every arm has been
    /// compiled, in arm order.
    #[verifier::loop_isolation(false)]
    #[verifier::rlimit(100)]
    #[verifier::spinoff_prover]
    fn compile_match(
        &mut self,
        expr: &Spanned<TypedExpression>,
        symbols: &Interner,
        reporter: &mut Reporter,
        objects: &mut Allocations,
    ) -> (r: Result<(), ()>)
        requires
            !(sp_expr(symbols@, st_of(old(self)@, old(reporter)@, old(objects)@), *expr) is Fault),
            expr.value.expr.value is Match,
        ensures
            ({
                let outcome = sp_expr(
                    symbols@,
                    st_of(old(self)@, old(reporter)@, old(objects)@),
                    *expr,
                );
                match r {
                    Ok(()) => outcome == Outcome::Done(
                        st_of(final(self)@, final(reporter)@, final(objects)@),
                    ),
                    Err(()) => outcome == Outcome::Failed(
                        st_of(final(self)@, final(reporter)@, final(objects)@),
                    ),
                }
            }),
        decreases expr_height(*expr), 0nat,
    {
        self.set_span(expr.span);
        match &expr.value.expr.value {
            Expression::Match { cond, arms } => {
                proof {
                    lemma_expr_height_pos(**cond);
                    lemma_arms_height_pos(arms.value@);
                }
                self.compile_expression(cond, symbols, reporter, objects)?;
                let ghost st1 = st_of(self@, reporter@, objects@);
                let ghost all = arms.value@;
                let mut jumps: Vec<usize> = Vec::new();
                let mut i: usize = 0;
                proof {
                    assert(all.subrange(0, all.len() as int) =~= all);
                    assert(as_ints(jumps@) =~= Seq::<int>::empty());
                }
                while i < arms.value.len()
                    invariant
                        i <= arms.value.len(),
                        all == arms.value@,
                        arms_height(all) + expr_height(**cond) < expr_height(*expr),
                        sp_arms(symbols@, st1, **cond, all, Seq::<int>::empty()) == sp_arms(
                            symbols@,
                            st_of(self@, reporter@, objects@),
                            **cond,
                            all.subrange(i as int, all.len() as int),
                            as_ints(jumps@),
                        ),
                        !(sp_arms(symbols@, st1, **cond, all, Seq::<int>::empty()) is Fault),
                        forall|k: int|
                            0 <= k < jumps@.len() ==> #[trigger] jumps@[k] + 2 <= self@.code.len(),
                    decreases arms.value.len() - i,
                {
                    let ghost cur = st_of(self@, reporter@, objects@);
                    let ghost rest = all.subrange(i as int, all.len() as int);
                    let ghost jumps_in = as_ints(jumps@);
                    proof {
                        lemma_arms_height_elem(all, i as int);
                        lemma_arm_height_pos(all[i as int]);
                        lemma_arm_height_parts(all[i as int]);
                        lemma_expr_height_pos(**cond);
                        assert(rest[0] == all[i as int]);
                        assert(rest.subrange(1, rest.len() as int) =~= all.subrange(
                            i + 1,
                            all.len() as int,
                        ));
                    }
                    let arm = &arms.value[i];
                    if arm.value.is_all {
                        let ghost mid0 = st_of(self@, reporter@, objects@);
                        proof {
                            lemma_sp_stmt_grows(symbols@, mid0, arm.value.body);
                        }
                        let res = self.compile_statement(&arm.value.body, symbols, reporter, objects);
                        if res.is_err() {
                            return Err(());
                        }
                        let jump = self.emit_jump(opcode::JUMP);
                        jumps.push(jump);
                        proof {
                            assert(as_ints(jumps@) =~= jumps_in.push(jump as int));
                        }
                    } else {
                        match &arm.value.pattern {
                            Some(pattern) => {
                                proof {
                                    lemma_sp_expr_grows(symbols@, cur, *pattern);
                                }
                                let res = self.compile_expression(
                                    pattern,
                                    symbols,
                                    reporter,
                                    objects,
                                );
                                if res.is_err() {
                                    return Err(());
                                }
                                let ghost after_pattern = st_of(self@, reporter@, objects@);
                                proof {
                                    lemma_sp_expr_grows(symbols@, after_pattern, **cond);
                                }
                                let res2 = self.compile_expression(cond, symbols, reporter, objects);
                                if res2.is_err() {
                                    return Err(());
                                }
                                self.emit_byte(opcode::EQUAL);
                                let offset = self.emit_jump(opcode::JUMPNOT);
                                let ghost mid = st_of(self@, reporter@, objects@);
                                proof {
                                    lemma_sp_stmt_grows(symbols@, mid, arm.value.body);
                                }
                                let res3 = self.compile_statement(
                                    &arm.value.body,
                                    symbols,
                                    reporter,
                                    objects,
                                );
                                if res3.is_err() {
                                    return Err(());
                                }
                                let jump = self.emit_jump(opcode::JUMP);
                                jumps.push(jump);
                                self.patch_jump(offset);
                                proof {
                                    assert(as_ints(jumps@) =~= jumps_in.push(jump as int));
                                }
                            },
                            None => {
                                proof {
                                    assert(false);
                                }
                                return Err(());
                            },
                        }
                    }
                    i = i + 1;
                }
                proof {
                    assert(all.subrange(arms.value.len() as int, all.len() as int)
                        =~= Seq::<Spanned<MatchArm>>::empty());
                }
                let ghost done_state = st_of(self@, reporter@, objects@);
                let ghost all_jumps = as_ints(jumps@);
                let mut j: usize = 0;
                proof {
                    assert(all_jumps.subrange(0, all_jumps.len() as int) =~= all_jumps);
                }
                while j < jumps.len()
                    invariant
                        j <= jumps.len(),
                        all_jumps == as_ints(jumps@),
                        self@.code.len() == done_state.b.code.len(),
                        reporter@ == done_state.diags,
                        objects@ == done_state.objs,
                        forall|k: int|
                            0 <= k < jumps@.len() ==> #[trigger] jumps@[k] + 2
                                <= done_state.b.code.len(),
                        sp_patch_list(done_state.b, all_jumps) == sp_patch_list(
                            self@,
                            all_jumps.subrange(j as int, all_jumps.len() as int),
                        ),
                    decreases jumps.len() - j,
                {
                    let ghost rest = all_jumps.subrange(j as int, all_jumps.len() as int);
                    proof {
                        assert(rest[0] == all_jumps[j as int]);
                        assert(rest.subrange(1, rest.len() as int) =~= all_jumps.subrange(
                            j + 1,
                            all_jumps.len() as int,
                        ));
                    }
                    let offset = jumps[j];
                    self.patch_jump(offset);
                    j = j + 1;
                }
                proof {
                    assert(all_jumps.subrange(jumps.len() as int, all_jumps.len() as int)
                        =~= Seq::<int>::empty());
                }
                Ok(())
            },
            _ => {
                proof {
                    assert(false);
                }
                Err(())
            },
        }
    }

    /// A ternary: condition, `JUMPNOT` over the true branch, `JUMP` over
    /// the false branch, both patched.
    #[verifier::rlimit(100)]
    #[verifier::spinoff_prover]
    fn compile_ternary(
        &mut self,
        expr: &Spanned<TypedExpression>,
        symbols: &Interner,
        reporter: &mut Reporter,
        objects: &mut Allocations,
    ) -> (r: Result<(), ()>)
        requires
            !(sp_expr(symbols@, st_of(old(self)@, old(reporter)@, old(objects)@), *expr) is Fault),
            expr.value.expr.value is Ternary,
        ensures
            ({
                let outcome = sp_expr(
                    symbols@,
                    st_of(old(self)@, old(reporter)@, old(objects)@),
                    *expr,
                );
                match r {
                    Ok(()) => outcome == Outcome::Done(
                        st_of(final(self)@, final(reporter)@, final(objects)@),
                    ),
                    Err(()) => outcome == Outcome::Failed(
                        st_of(final(self)@, final(reporter)@, final(objects)@),
                    ),
                }
            }),
        decreases expr_height(*expr), 0nat,
    {
        self.set_span(expr.span);
        match &expr.value.expr.value {
            Expression::Ternary(cond, if_true, if_false) => {
                proof {
                    lemma_expr_height_pos(**cond);
                    lemma_expr_height_pos(**if_true);
                    lemma_expr_height_pos(**if_false);
                }
                self.compile_expression(cond, symbols, reporter, objects)?;
                let false_label = self.emit_jump(opcode::JUMPNOT);
                let ghost mid = st_of(self@, reporter@, objects@);
                proof {
                    lemma_sp_expr_grows(symbols@, mid, **if_true);
                }
                self.compile_expression(if_true, symbols, reporter, objects)?;
                let end_label = self.emit_jump(opcode::JUMP);
                self.patch_jump(false_label);
                let ghost mid2 = st_of(self@, reporter@, objects@);
                proof {
                    lemma_sp_expr_grows(symbols@, mid2, **if_false);
                }
                self.compile_expression(if_false, symbols, reporter, objects)?;
                self.patch_jump(end_label);
                Ok(())
            },
            _ => {
                proof {
                    assert(false);
                }
                Err(())
            },
        }
    }

    /// A unary operation: the operand, then `NOT` or the negation opcode
    /// selected by the operand's static type.
    #[verifier::rlimit(100)]
    #[verifier::spinoff_prover]
    fn compile_unary(
        &mut self,
        expr: &Spanned<TypedExpression>,
        symbols: &Interner,
        reporter: &mut Reporter,
        objects: &mut Allocations,
    ) -> (r: Result<(), ()>)
        requires
            !(sp_expr(symbols@, st_of(old(self)@, old(reporter)@, old(objects)@), *expr) is Fault),
            expr.value.expr.value is Unary,
        ensures
            ({
                let outcome = sp_expr(
                    symbols@,
                    st_of(old(self)@, old(reporter)@, old(objects)@),
                    *expr,
                );
                match r {
                    Ok(()) => outcome == Outcome::Done(
                        st_of(final(self)@, final(reporter)@, final(objects)@),
                    ),
                    Err(()) => outcome == Outcome::Failed(
                        st_of(final(self)@, final(reporter)@, final(objects)@),
                    ),
                }
            }),
        decreases expr_height(*expr), 0nat,
    {
        self.set_span(expr.span);
        match &expr.value.expr.value {
            Expression::Unary(op, inner) => {
                proof {
                    lemma_expr_height_pos(**inner);
                }
                self.compile_expression(inner, symbols, reporter, objects)?;
                match select_unary(*op, &inner.value.ty) {
                    Some(selected) => {
                        self.emit_byte(selected);
                        Ok(())
                    },
                    None => {
                        proof {
                            assert(false);
                        }
                        Err(())
                    },
                }
            },
            _ => {
                proof {
                    assert(false);
                }
                Err(())
            },
        }
    }

    /// A variable read: the local scope first, then the parameter map;
    /// failing both is the one resolution error the compiler itself
    /// reports.
    #[verifier::rlimit(100)]
    #[verifier::spinoff_prover]
    fn compile_var(
        &mut self,
        expr: &Spanned<TypedExpression>,
        symbols: &Interner,
        reporter: &mut Reporter,
        objects: &mut Allocations,
    ) -> (r: Result<(), ()>)
        requires
            !(sp_expr(symbols@, st_of(old(self)@, old(reporter)@, old(objects)@), *expr) is Fault),
            expr.value.expr.value is Var,
        ensures
            ({
                let outcome = sp_expr(
                    symbols@,
                    st_of(old(self)@, old(reporter)@, old(objects)@),
                    *expr,
                );
                match r {
                    Ok(()) => outcome == Outcome::Done(
                        st_of(final(self)@, final(reporter)@, final(objects)@),
                    ),
                    Err(()) => outcome == Outcome::Failed(
                        st_of(final(self)@, final(reporter)@, final(objects)@),
                    ),
                }
            }),
        decreases expr_height(*expr), 0nat,
    {
        self.set_span(expr.span);
        match &expr.value.expr.value {
            Expression::Var(ident, _) => {
                match self.locals.get(*ident) {
                    Some(pos) => {
                        self.emit_bytes(opcode::GETLOCAL, (pos % 256) as u8);
                        Ok(())
                    },
                    None => {
                        match self.get_param(*ident) {
                            Some(offset) => {
                                self.emit_bytes(opcode::GETPARAM, (offset % 256) as u8);
                                Ok(())
                            },
                            None => {
                                reporter.error("Undefined variable", expr.span);
                                Err(())
                            },
                        }
                    },
                }
            },
            _ => {
                proof {
                    assert(false);
                }
                Err(())
            },
        }
    }

    /// An enum variant with payload: the `ENUM` instruction with the enum
    /// and variant tags, then the payload expression.
    #[verifier::rlimit(100)]
    #[verifier::spinoff_prover]
    fn compile_variant_with_data(
        &mut self,
        expr: &Spanned<TypedExpression>,
        symbols: &Interner,
        reporter: &mut Reporter,
        objects: &mut Allocations,
    ) -> (r: Result<(), ()>)
        requires
            !(sp_expr(symbols@, st_of(old(self)@, old(reporter)@, old(objects)@), *expr) is Fault),
            expr.value.expr.value is VariantWithData,
        ensures
            ({
                let outcome = sp_expr(
                    symbols@,
                    st_of(old(self)@, old(reporter)@, old(objects)@),
                    *expr,
                );
                match r {
                    Ok(()) => outcome == Outcome::Done(
                        st_of(final(self)@, final(reporter)@, final(objects)@),
                    ),
                    Err(()) => outcome == Outcome::Failed(
                        st_of(final(self)@, final(reporter)@, final(objects)@),
                    ),
                }
            }),
        decreases expr_height(*expr), 0nat,
    {
        self.set_span(expr.span);
        match &expr.value.expr.value {
            Expression::VariantWithData { enum_name, tag, inner } => {
                proof {
                    lemma_expr_height_pos(**inner);
                }
                self.emit_byte(opcode::ENUM);
                self.emit_bytes((enum_name.value % 256) as u8, (*tag % 256) as u8);
                self.compile_expression(inner, symbols, reporter, objects)?;
                Ok(())
            },
            _ => {
                proof {
                    assert(false);
                }
                Err(())
            },
        }
    }

    /// A closure: an independent nested unit with its own chunk, parameter
    /// map and scope, wrapped as a callable heap object and loaded as a
    /// constant of the enclosing unit. No variable capture is modelled.
    #[verifier::rlimit(100)]
    #[verifier::spinoff_prover]
    fn compile_closure(
        &mut self,
        expr: &Spanned<TypedExpression>,
        symbols: &Interner,
        reporter: &mut Reporter,
        objects: &mut Allocations,
    ) -> (r: Result<(), ()>)
        requires
            !(sp_expr(symbols@, st_of(old(self)@, old(reporter)@, old(objects)@), *expr) is Fault),
            expr.value.expr.value is Closure,
        ensures
            ({
                let outcome = sp_expr(
                    symbols@,
                    st_of(old(self)@, old(reporter)@, old(objects)@),
                    *expr,
                );
                match r {
                    Ok(()) => outcome == Outcome::Done(
                        st_of(final(self)@, final(reporter)@, final(objects)@),
                    ),
                    Err(()) => outcome == Outcome::Failed(
                        st_of(final(self)@, final(reporter)@, final(objects)@),
                    ),
                }
            }),
        decreases expr_height(*expr), 0nat,
    {
        self.set_span(expr.span);
        match &expr.value.expr.value {
            Expression::Closure(func) => {
                proof {
                    lemma_stmt_height_pos(func.body);
                }
                let closure = crate::assemble::compile_function(func, symbols, reporter, objects)?;
                let arity = closure.params.len();
                let object = objects.append(HeapObject::Function { arity, function: closure });
                let res = self.emit_constant(Value::object(object), expr.span, reporter);
                if res.is_err() {
                    return Err(());
                }
                Ok(())
            },
            _ => {
                proof {
                    assert(false);
                }
                Err(())
            },
        }
    }

    /// Writing a property: the value, the instance, then one opcode with
    /// the property name tag.
    #[verifier::rlimit(100)]
    #[verifier::spinoff_prover]
    fn compile_set_property(
        &mut self,
        expr: &Spanned<TypedExpression>,
        symbols: &Interner,
        reporter: &mut Reporter,
        objects: &mut Allocations,
    ) -> (r: Result<(), ()>)
        requires
            !(sp_expr(symbols@, st_of(old(self)@, old(reporter)@, old(objects)@), *expr) is Fault),
            expr.value.expr.value is SetProperty,
        ensures
            ({
                let outcome = sp_expr(
                    symbols@,
                    st_of(old(self)@, old(reporter)@, old(objects)@),
                    *expr,
                );
                match r {
                    Ok(()) => outcome == Outcome::Done(
                        st_of(final(self)@, final(reporter)@, final(objects)@),
                    ),
                    Err(()) => outcome == Outcome::Failed(
                        st_of(final(self)@, final(reporter)@, final(objects)@),
                    ),
                }
            }),
        decreases expr_height(*expr), 0nat,
    {
        self.set_span(expr.span);
        match &expr.value.expr.value {
            Expression::SetProperty(property, instance, value) => {
                proof {
                    lemma_expr_height_pos(**instance);
                    lemma_expr_height_pos(**value);
                }
                self.compile_expression(value, symbols, reporter, objects)?;
                self.compile_expression(instance, symbols, reporter, objects)?;
                self.emit_bytes(opcode::SETPROPERTY, (*property % 256) as u8);
                Ok(())
            },
            _ => {
                proof {
                    assert(false);
                }
                Err(())
            },
        }
    }

    /// Short-circuit `and`: a false left operand jumps over the right one,
    /// leaving whichever operand decided the result on the stack.
    #[verifier::rlimit(100)]
    #[verifier::spinoff_prover]
    fn compile_and(
        &mut self,
        lhs: &Spanned<TypedExpression>,
        rhs: &Spanned<TypedExpression>,
        symbols: &Interner,
        reporter: &mut Reporter,
        objects: &mut Allocations,
    ) -> (r: Result<(), ()>)
        requires
            !(sp_and(
                symbols@,
                st_of(old(self)@, old(reporter)@, old(objects)@),
                *lhs,
                *rhs,
            ) is Fault),
        ensures
            ({
                let outcome = sp_and(
                    symbols@,
                    st_of(old(self)@, old(reporter)@, old(objects)@),
                    *lhs,
                    *rhs,
                );
                match r {
                    Ok(()) => outcome == Outcome::Done(
                        st_of(final(self)@, final(reporter)@, final(objects)@),
                    ),
                    Err(()) => outcome == Outcome::Failed(
                        st_of(final(self)@, final(reporter)@, final(objects)@),
                    ),
                }
            }),
        decreases expr_height(*lhs) + expr_height(*rhs), 0nat,
    {
        proof {
            lemma_expr_height_pos(*lhs);
            lemma_expr_height_pos(*rhs);
        }
        self.compile_expression(lhs, symbols, reporter, objects)?;
        let false_label = self.emit_jump(opcode::JUMPNOT);
        let ghost mid = st_of(self@, reporter@, objects@);
        proof {
            lemma_sp_expr_grows(symbols@, mid, *rhs);
        }
        self.compile_expression(rhs, symbols, reporter, objects)?;
        self.patch_jump(false_label);
        Ok(())
    }

    /// Short-circuit `or`: the mirror with `JUMPIF`, plus one extra `POP`
    /// after the right operand to balance stack depth between the paths.
    #[verifier::rlimit(100)]
    #[verifier::spinoff_prover]
    fn compile_or(
        &mut self,
        lhs: &Spanned<TypedExpression>,
        rhs: &Spanned<TypedExpression>,
        symbols: &Interner,
        reporter: &mut Reporter,
        objects: &mut Allocations,
    ) -> (r: Result<(), ()>)
        requires
            !(sp_or(
                symbols@,
                st_of(old(self)@, old(reporter)@, old(objects)@),
                *lhs,
                *rhs,
            ) is Fault),
        ensures
            ({
                let outcome = sp_or(
                    symbols@,
                    st_of(old(self)@, old(reporter)@, old(objects)@),
                    *lhs,
                    *rhs,
                );
                match r {
                    Ok(()) => outcome == Outcome::Done(
                        st_of(final(self)@, final(reporter)@, final(objects)@),
                    ),
                    Err(()) => outcome == Outcome::Failed(
                        st_of(final(self)@, final(reporter)@, final(objects)@),
                    ),
                }
            }),
        decreases expr_height(*lhs) + expr_height(*rhs), 0nat,
    {
        proof {
            lemma_expr_height_pos(*lhs);
            lemma_expr_height_pos(*rhs);
        }
        self.compile_expression(lhs, symbols, reporter, objects)?;
        let else_label = self.emit_jump(opcode::JUMPIF);
        let ghost mid = st_of(self@, reporter@, objects@);
        proof {
            lemma_sp_expr_grows(symbols@, mid, *rhs);
        }
        self.compile_expression(rhs, symbols, reporter, objects)?;
        self.patch_jump(else_label);
        self.emit_byte(opcode::POP);
        Ok(())
    }
}

/// The executable instruction-selection table for binary operators;
/// returns the opcode and whether a `NOT` follows.
pub fn select_binary(result_ty: &Ty, lhs_ty: &Ty, op: Op) -> (r: Option<(u8, bool)>)
    ensures
        r == binary_selection(*result_ty, *lhs_ty, op),
{
    match (result_ty, op) {
        (Ty::Int, Op::Plus) => Some((opcode::ADD, false)),
        (Ty::Float, Op::Plus) => Some((opcode::ADDF, false)),
        (Ty::Str, Op::Plus) => Some((opcode::CONCAT, false)),
        (Ty::Int, Op::Minus) => Some((opcode::SUB, false)),
        (Ty::Float, Op::Minus) => Some((opcode::SUBF, false)),
        (Ty::Int, Op::Slash) => Some((opcode::DIV, false)),
        (Ty::Float, Op::Slash) => Some((opcode::DIVF, false)),
        (Ty::Int, Op::Star) => Some((opcode::MUL, false)),
        (Ty::Float, Op::Star) => Some((opcode::MULF, false)),
        (Ty::Bool, Op::LessThan) => match lhs_ty {
            Ty::Int => Some((opcode::LESS, false)),
            Ty::Float => Some((opcode::LESSF, false)),
            _ => None,
        },
        (Ty::Bool, Op::LessThanEqual) => match lhs_ty {
            Ty::Int => Some((opcode::LESS, true)),
            Ty::Float => Some((opcode::LESSF, true)),
            _ => None,
        },
        (Ty::Bool, Op::GreaterThan) => match lhs_ty {
            Ty::Int => Some((opcode::GREATER, false)),
            Ty::Float => Some((opcode::GREATERF, false)),
            _ => None,
        },
        (Ty::Bool, Op::GreaterThanEqual) => match lhs_ty {
            Ty::Int => Some((opcode::GREATER, true)),
            Ty::Float => Some((opcode::GREATERF, true)),
            _ => None,
        },
        (_, Op::EqualEqual) => Some((opcode::EQUAL, false)),
        (_, Op::BangEqual) => Some((opcode::EQUAL, true)),
        _ => None,
    }
}

/// The executable selection table for compound assignment.
pub fn select_compound(op: AssignOperator, rhs_ty: &Ty) -> (r: Option<u8>)
    ensures
        r == compound_selection(op, *rhs_ty),
{
    match (op, rhs_ty) {
        (AssignOperator::PlusEqual, Ty::Int) => Some(opcode::ADD),
        (AssignOperator::PlusEqual, Ty::Float) => Some(opcode::ADDF),
        (AssignOperator::MinusEqual, Ty::Int) => Some(opcode::SUB),
        (AssignOperator::MinusEqual, Ty::Float) => Some(opcode::SUBF),
        (AssignOperator::StarEqual, Ty::Int) => Some(opcode::MUL),
        (AssignOperator::StarEqual, Ty::Float) => Some(opcode::MULF),
        (AssignOperator::SlashEqual, Ty::Int) => Some(opcode::DIV),
        (AssignOperator::SlashEqual, Ty::Float) => Some(opcode::DIVF),
        _ => None,
    }
}

/// The executable selection table for the permitted casts.
pub fn select_cast(from_ty: &Ty, to_ty: &Ty) -> (r: Option<u8>)
    ensures
        r == cast_selection(*from_ty, *to_ty),
{
    match (from_ty, to_ty) {
        (Ty::Int, Ty::Float) => Some(opcode::INT2FLOAT),
        (Ty::Float, Ty::Int) => Some(opcode::FLOAT2INT),
        (Ty::Bool, Ty::Int) => Some(opcode::BOOL2INT),
        (Ty::Int, Ty::Str) => Some(opcode::INT2STR),
        (Ty::Float, Ty::Str) => Some(opcode::FLOAT2STR),
        _ => None,
    }
}

/// The executable selection table for unary operators.
pub fn select_unary(op: UnaryOp, operand_ty: &Ty) -> (r: Option<u8>)
    ensures
        r == unary_selection(op, *operand_ty),
{
    match op {
        UnaryOp::Bang => Some(opcode::NOT),
        UnaryOp::Minus => match operand_ty {
            Ty::Int => Some(opcode::NEGATE),
            Ty::Float => Some(opcode::NEGATEF),
            _ => None,
        },
    }
}

} // verus!
