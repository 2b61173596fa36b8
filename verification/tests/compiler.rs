use bytecodegen::assemble::{compile, compile_class, compile_function};
use bytecodegen::ast::{
    AssignOperator, Class, Expression, Function, FunctionParam, Literal, MatchArm, Op, Program,
    Property, Statement, Ty, TypedExpression, TypedStatement, UnaryOp,
};
use bytecodegen::builder::Builder;
use bytecodegen::heap::{Allocations, HeapObject};
use bytecodegen::interner::{is_native, Interner, Symbol};
use bytecodegen::opcode;
use bytecodegen::pos::{Position, Span, Spanned};
use bytecodegen::report::Reporter;
use bytecodegen::scope::StackedMap;
use bytecodegen::value::Value;

fn span(line: u32) -> Span {
    Span {
        start: Position { line, column: 1 },
        end: Position { line, column: 2 },
    }
}

fn expr(e: Expression, ty: Ty) -> Spanned<TypedExpression> {
    Spanned {
        span: span(1),
        value: TypedExpression {
            expr: Spanned { span: span(1), value: e },
            ty,
        },
    }
}

fn int_lit(n: i64) -> Spanned<TypedExpression> {
    expr(Expression::Literal(Literal::Int(n)), Ty::Int)
}

fn float_lit(bits: u64) -> Spanned<TypedExpression> {
    expr(Expression::Literal(Literal::Float(bits)), Ty::Float)
}

fn bool_lit(b: bool) -> Spanned<TypedExpression> {
    if b {
        expr(Expression::Literal(Literal::True(true)), Ty::Bool)
    } else {
        expr(Expression::Literal(Literal::False(false)), Ty::Bool)
    }
}

fn stmt(s: Statement) -> Spanned<TypedStatement> {
    Spanned {
        span: span(1),
        value: TypedStatement {
            statement: Spanned { span: span(1), value: s },
        },
    }
}

fn expr_stmt(e: Spanned<TypedExpression>) -> Spanned<TypedStatement> {
    stmt(Statement::Expr(e))
}

fn binary(lhs: Spanned<TypedExpression>, op: Op, rhs: Spanned<TypedExpression>, ty: Ty) -> Spanned<TypedExpression> {
    expr(Expression::Binary(Box::new(lhs), op, Box::new(rhs)), ty)
}

fn function_of(body: Vec<Spanned<TypedStatement>>) -> Function {
    Function {
        name: 0,
        params: Vec::new(),
        body: stmt(Statement::Block(body)),
    }
}

fn compile_body(body: Vec<Spanned<TypedStatement>>) -> bytecodegen::artifact::FunctionArtifact {
    let symbols = Interner::new();
    let mut reporter = Reporter::new();
    let mut objects = Allocations::new();
    compile_function(&function_of(body), &symbols, &mut reporter, &mut objects)
        .expect("compilation should succeed")
}

#[test]
fn literal_constants_round_trip() {
    // Compiling a literal yields one load instruction whose constant
    // equals the literal.
    let artifact = compile_body(vec![expr_stmt(int_lit(42))]);
    assert_eq!(artifact.body.code, vec![opcode::CONSTANT, 0]);
    assert_eq!(artifact.body.constants, vec![Value::Int(42)]);

    let artifact = compile_body(vec![expr_stmt(float_lit(123u64))]);
    assert_eq!(artifact.body.code, vec![opcode::CONSTANT, 0]);
    assert_eq!(artifact.body.constants, vec![Value::Float(123)]);

    let artifact = compile_body(vec![expr_stmt(bool_lit(true))]);
    assert_eq!(artifact.body.code, vec![opcode::TRUE]);
    let artifact = compile_body(vec![expr_stmt(bool_lit(false))]);
    assert_eq!(artifact.body.code, vec![opcode::FALSE]);

    let artifact = compile_body(vec![expr_stmt(expr(
        Expression::Literal(Literal::Nil),
        Ty::Nil,
    ))]);
    assert_eq!(artifact.body.code, vec![opcode::NIL]);
}

#[test]
fn string_literal_goes_through_the_heap() {
    let symbols = Interner::new();
    let mut reporter = Reporter::new();
    let mut objects = Allocations::new();
    let body = vec![expr_stmt(expr(
        Expression::Literal(Literal::Str(String::from("hello"))),
        Ty::Str,
    ))];
    let artifact =
        compile_function(&function_of(body), &symbols, &mut reporter, &mut objects).unwrap();
    assert_eq!(artifact.body.code, vec![opcode::CONSTANT, 0]);
    assert_eq!(artifact.body.constants, vec![Value::Obj(0)]);
    assert_eq!(objects.len(), 1);
    match objects.get(0) {
        HeapObject::Str(s) => assert_eq!(s, "hello"),
        _ => panic!("expected a string object"),
    }
}

#[test]
fn integer_arithmetic_selects_integer_opcodes() {
    let cases = [
        (Op::Plus, opcode::ADD),
        (Op::Minus, opcode::SUB),
        (Op::Star, opcode::MUL),
        (Op::Slash, opcode::DIV),
    ];
    for (op, expected) in cases {
        let artifact = compile_body(vec![expr_stmt(binary(int_lit(1), op, int_lit(2), Ty::Int))]);
        assert_eq!(*artifact.body.code.last().unwrap(), expected);
    }
}

#[test]
fn float_arithmetic_selects_float_opcodes() {
    let cases = [
        (Op::Plus, opcode::ADDF),
        (Op::Minus, opcode::SUBF),
        (Op::Star, opcode::MULF),
        (Op::Slash, opcode::DIVF),
    ];
    for (op, expected) in cases {
        let artifact = compile_body(vec![expr_stmt(binary(
            float_lit(1),
            op,
            float_lit(2),
            Ty::Float,
        ))]);
        assert_eq!(*artifact.body.code.last().unwrap(), expected);
    }
}

#[test]
fn compound_assignment_selects_by_rhs_type() {
    // let x = 1; x += 2  (integer) uses ADD; the float form uses ADDF.
    let let_x = stmt(Statement::Let {
        ident: 7,
        ty: None,
        expr: Some(int_lit(1)),
    });
    let plus_eq = expr_stmt(expr(
        Expression::Assign(7, AssignOperator::PlusEqual, Box::new(int_lit(2))),
        Ty::Int,
    ));
    let artifact = compile_body(vec![let_x, plus_eq]);
    let code = &artifact.body.code;
    // ... GETLOCAL x, CONSTANT k, ADD, SETLOCAL x
    assert_eq!(code[code.len() - 3], opcode::ADD);
    assert_eq!(code[code.len() - 2], opcode::SETLOCAL);
    assert_eq!(code[code.len() - 7], opcode::GETLOCAL);
}

#[test]
fn lax_comparisons_lower_to_strict_plus_not() {
    // a <= b is LESS then NOT; a >= b is GREATER then NOT; never a
    // dedicated opcode.
    let artifact = compile_body(vec![expr_stmt(binary(
        int_lit(1),
        Op::LessThanEqual,
        int_lit(2),
        Ty::Bool,
    ))]);
    let code = &artifact.body.code;
    assert_eq!(code[code.len() - 2], opcode::LESS);
    assert_eq!(code[code.len() - 1], opcode::NOT);

    let artifact = compile_body(vec![expr_stmt(binary(
        float_lit(1),
        Op::GreaterThanEqual,
        float_lit(2),
        Ty::Bool,
    ))]);
    let code = &artifact.body.code;
    assert_eq!(code[code.len() - 2], opcode::GREATERF);
    assert_eq!(code[code.len() - 1], opcode::NOT);

    let artifact = compile_body(vec![expr_stmt(binary(
        int_lit(1),
        Op::BangEqual,
        int_lit(2),
        Ty::Bool,
    ))]);
    let code = &artifact.body.code;
    assert_eq!(code[code.len() - 2], opcode::EQUAL);
    assert_eq!(code[code.len() - 1], opcode::NOT);
}

#[test]
fn sibling_scopes_use_distinct_slots() {
    // { let x = 1; } { let y = 2; } — the two locals get different,
    // never-reclaimed slot numbers.
    let block_x = stmt(Statement::Block(vec![stmt(Statement::Let {
        ident: 1,
        ty: None,
        expr: Some(int_lit(1)),
    })]));
    let block_y = stmt(Statement::Block(vec![stmt(Statement::Let {
        ident: 2,
        ty: None,
        expr: Some(int_lit(2)),
    })]));
    let artifact = compile_body(vec![block_x, block_y]);
    let code = &artifact.body.code;
    // CONSTANT 0, SETLOCAL 0, CONSTANT 1, SETLOCAL 1
    assert_eq!(
        code.as_slice(),
        &[opcode::CONSTANT, 0, opcode::SETLOCAL, 0, opcode::CONSTANT, 1, opcode::SETLOCAL, 1]
    );
}

#[test]
fn if_false_reaches_exactly_the_else_branch() {
    // if (false) { 1 } else { 2 }: the JUMPNOT distance lands exactly at
    // the POP that begins the else branch.
    let body = stmt(Statement::If {
        cond: bool_lit(false),
        then: Box::new(expr_stmt(int_lit(1))),
        otherwise: Some(Box::new(expr_stmt(int_lit(2)))),
    });
    let artifact = compile_body(vec![body]);
    let code = &artifact.body.code;
    assert_eq!(code[0], opcode::FALSE);
    assert_eq!(code[1], opcode::JUMPNOT);
    let dist = ((code[2] as usize) << 8) | code[3] as usize;
    let target = 4 + dist;
    // then branch: POP, CONSTANT 0, JUMP hi lo; else prologue starts after.
    assert_eq!(code[4], opcode::POP);
    assert_eq!(code[5], opcode::CONSTANT);
    assert_eq!(code[7], opcode::JUMP);
    assert_eq!(target, 10, "the false-branch target is the else prologue");
    assert_eq!(code[target], opcode::POP);
    assert_eq!(code[target + 1], opcode::CONSTANT);
    // The skip jump after the then branch lands at the end of the chunk.
    let skip = ((code[8] as usize) << 8) | code[9] as usize;
    assert_eq!(10 + skip, code.len());
}

#[test]
fn while_loop_layout_and_break_encoding() {
    // while (true) { break; }: JUMPNOT exits to the final POP; the break
    // writes the raw stored patch-point position truncated to one byte.
    let body = stmt(Statement::While(
        bool_lit(true),
        Box::new(stmt(Statement::Block(vec![stmt(Statement::Break)]))),
    ));
    let artifact = compile_body(vec![body]);
    let code = &artifact.body.code;
    assert_eq!(code[0], opcode::TRUE);
    assert_eq!(code[1], opcode::JUMPNOT);
    let exit = ((code[2] as usize) << 8) | code[3] as usize;
    assert_eq!(code[4], opcode::POP);
    // break: JUMP with the raw patch-point offset (2) as its one operand.
    assert_eq!(code[5], opcode::JUMP);
    assert_eq!(code[6], 2);
    assert_eq!(code[7], opcode::LOOP);
    let back = ((code[8] as usize) << 8) | code[9] as usize;
    assert_eq!(10 - back, 0, "the backward jump returns to the loop start");
    // The loop exit lands at the final POP, so the condition value is
    // popped exactly once on the normal exit path.
    assert_eq!(4 + exit, code.len() - 1);
    assert_eq!(code[code.len() - 1], opcode::POP);
}

#[test]
fn too_many_constants_is_reported_with_the_span() {
    // 256 distinct literal constants in one function: the 256th insert
    // overflows the pool and reports the offending constant's span.
    let mut body = Vec::new();
    for i in 0..256 {
        body.push(expr_stmt(int_lit(i)));
    }
    let symbols = Interner::new();
    let mut reporter = Reporter::new();
    let mut objects = Allocations::new();
    let result = compile_function(&function_of(body), &symbols, &mut reporter, &mut objects);
    assert!(result.is_err());
    assert_eq!(reporter.len(), 1);
    let diagnostic = reporter.get(0);
    assert_eq!(diagnostic.message, "too many constants in one chunk");
    assert_eq!(diagnostic.span, span(1));
}

#[test]
fn two_hundred_fifty_five_constants_fit() {
    let mut body = Vec::new();
    for i in 0..255 {
        body.push(expr_stmt(int_lit(i)));
    }
    let symbols = Interner::new();
    let mut reporter = Reporter::new();
    let mut objects = Allocations::new();
    let result = compile_function(&function_of(body), &symbols, &mut reporter, &mut objects);
    assert!(result.is_ok());
    assert_eq!(reporter.len(), 0);
}

#[test]
fn undefined_variable_is_reported() {
    let body = vec![expr_stmt(expr(Expression::Var(9, Ty::Int), Ty::Int))];
    let symbols = Interner::new();
    let mut reporter = Reporter::new();
    let mut objects = Allocations::new();
    let result = compile_function(&function_of(body), &symbols, &mut reporter, &mut objects);
    assert!(result.is_err());
    assert_eq!(reporter.len(), 1);
    assert_eq!(reporter.get(0).message, "Undefined variable");
}

#[test]
fn parameters_read_through_getparam() {
    let func = Function {
        name: 0,
        params: vec![FunctionParam { name: 3 }],
        body: stmt(Statement::Block(vec![expr_stmt(expr(
            Expression::Var(3, Ty::Int),
            Ty::Int,
        ))])),
    };
    let symbols = Interner::new();
    let mut reporter = Reporter::new();
    let mut objects = Allocations::new();
    let artifact = compile_function(&func, &symbols, &mut reporter, &mut objects).unwrap();
    assert_eq!(artifact.body.code, vec![opcode::GETPARAM, 0]);
    assert_eq!(artifact.params, vec![(3, 0)]);
}

#[test]
fn native_calls_use_the_native_opcode() {
    let mut symbols = Interner::new();
    let clock = symbols.intern(String::from("clock"));
    let mut reporter = Reporter::new();
    let mut objects = Allocations::new();
    let body = vec![expr_stmt(expr(
        Expression::Call(clock, Vec::new()),
        Ty::Float,
    ))];
    let artifact =
        compile_function(&function_of(body), &symbols, &mut reporter, &mut objects).unwrap();
    assert_eq!(artifact.body.code, vec![opcode::CALLNATIVE, clock as u8]);
}

#[test]
fn user_calls_carry_the_argument_count() {
    let mut symbols = Interner::new();
    let callee = symbols.intern(String::from("helper"));
    let mut reporter = Reporter::new();
    let mut objects = Allocations::new();
    let body = vec![expr_stmt(expr(
        Expression::Call(callee, vec![int_lit(1), int_lit(2)]),
        Ty::Int,
    ))];
    let artifact =
        compile_function(&function_of(body), &symbols, &mut reporter, &mut objects).unwrap();
    let code = &artifact.body.code;
    assert_eq!(
        &code[code.len() - 3..],
        &[opcode::CALL, callee as u8, 2u8]
    );
}

#[test]
fn native_name_set_is_closed() {
    assert!(is_native(&String::from("clock")));
    assert!(is_native(&String::from("random")));
    assert!(is_native(&String::from("read")));
    assert!(is_native(&String::from("fopen")));
    assert!(!is_native(&String::from("print")));
}

#[test]
fn and_emits_no_extra_pop_but_or_does() {
    let and = compile_body(vec![expr_stmt(binary(
        bool_lit(true),
        Op::And,
        bool_lit(false),
        Ty::Bool,
    ))]);
    // TRUE, JUMPNOT d d, FALSE
    assert_eq!(
        and.body.code.as_slice(),
        &[opcode::TRUE, opcode::JUMPNOT, 0, 1, opcode::FALSE]
    );
    let or = compile_body(vec![expr_stmt(binary(
        bool_lit(true),
        Op::Or,
        bool_lit(false),
        Ty::Bool,
    ))]);
    // TRUE, JUMPIF d d, FALSE, POP — the extra pop balances the paths.
    assert_eq!(
        or.body.code.as_slice(),
        &[opcode::TRUE, opcode::JUMPIF, 0, 1, opcode::FALSE, opcode::POP]
    );
}

#[test]
fn casts_use_the_fixed_pairs() {
    let cast = expr(
        Expression::Cast(Box::new(int_lit(1)), Ty::Float),
        Ty::Float,
    );
    let artifact = compile_body(vec![expr_stmt(cast)]);
    assert_eq!(*artifact.body.code.last().unwrap(), opcode::INT2FLOAT);
}

#[test]
fn unary_negation_selects_by_operand_type() {
    let neg = expr(Expression::Unary(UnaryOp::Minus, Box::new(int_lit(1))), Ty::Int);
    let artifact = compile_body(vec![expr_stmt(neg)]);
    assert_eq!(*artifact.body.code.last().unwrap(), opcode::NEGATE);

    let negf = expr(
        Expression::Unary(UnaryOp::Minus, Box::new(float_lit(1))),
        Ty::Float,
    );
    let artifact = compile_body(vec![expr_stmt(negf)]);
    assert_eq!(*artifact.body.code.last().unwrap(), opcode::NEGATEF);

    let not = expr(Expression::Unary(UnaryOp::Bang, Box::new(bool_lit(true))), Ty::Bool);
    let artifact = compile_body(vec![expr_stmt(not)]);
    assert_eq!(*artifact.body.code.last().unwrap(), opcode::NOT);
}

#[test]
fn scope_resolver_shadows_and_restores() {
    let mut map = StackedMap::new();
    map.insert(1, 0);
    map.begin_scope();
    map.insert(1, 1);
    assert_eq!(map.get(1), Some(1));
    map.end_scope();
    assert_eq!(map.get(1), Some(0));
    assert_eq!(map.get(2), None);
}

#[test]
fn chunk_tracks_lines_per_byte() {
    let mut builder = Builder::new(Vec::new());
    builder.set_span(span(3));
    builder.emit_byte(opcode::NIL);
    builder.set_span(span(5));
    builder.emit_byte(opcode::POP);
    // Line information answers "what line produced byte i".
    assert_eq!(builder.chunk.lines, vec![3, 5]);
    // The line counter never moves backwards.
    builder.set_span(span(2));
    builder.emit_byte(opcode::POP);
    assert_eq!(builder.chunk.lines, vec![3, 5, 5]);
}

#[test]
fn match_compiles_arms_in_order() {
    // match c { 1 => {}, _ => {} } over an integer scrutinee.
    let arm1 = Spanned {
        span: span(1),
        value: MatchArm {
            is_all: false,
            pattern: Some(int_lit(1)),
            body: stmt(Statement::Block(Vec::new())),
        },
    };
    let arm2 = Spanned {
        span: span(1),
        value: MatchArm {
            is_all: true,
            pattern: None,
            body: stmt(Statement::Block(Vec::new())),
        },
    };
    let scrutinee = int_lit(0);
    let m = expr(
        Expression::Match {
            cond: Box::new(scrutinee),
            arms: Spanned { span: span(1), value: vec![arm1, arm2] },
        },
        Ty::Int,
    );
    let artifact = compile_body(vec![expr_stmt(m)]);
    let code = &artifact.body.code;
    // scrutinee, pattern, scrutinee again, EQUAL, JUMPNOT over the arm.
    assert_eq!(code[0], opcode::CONSTANT);
    assert_eq!(code[2], opcode::CONSTANT);
    assert_eq!(code[4], opcode::CONSTANT);
    assert_eq!(code[6], opcode::EQUAL);
    assert_eq!(code[7], opcode::JUMPNOT);
}

#[test]
fn classes_inherit_unoverridden_methods_at_compile_time() {
    // Superclass S { m, n }, subclass C { n } with superclass S: C's table
    // binds m to S's compiled body and keeps its own n.
    let method = |name: Symbol, literal: i64| Function {
        name,
        params: Vec::new(),
        body: stmt(Statement::Block(vec![expr_stmt(int_lit(literal))])),
    };
    let program = Program {
        functions: Vec::new(),
        classes: vec![
            Class {
                name: 10,
                superclass: None,
                methods: vec![method(1, 100), method(2, 200)],
            },
            Class {
                name: 11,
                superclass: Some(Spanned { span: span(1), value: 10 }),
                methods: vec![method(2, 999)],
            },
        ],
    };
    let symbols = Interner::new();
    let mut reporter = Reporter::new();
    let (artifact, _objects) = compile(&program, &symbols, &mut reporter).unwrap();
    let superclass = artifact.class(10).unwrap();
    let subclass = artifact.class(11).unwrap();
    // m (symbol 1) resolves in the subclass to the superclass's body.
    let inherited = subclass.method(1).expect("inherited method is present");
    let from_superclass = superclass.method(1).unwrap();
    assert_eq!(inherited.body.code, from_superclass.body.code);
    assert_eq!(inherited.body.constants, from_superclass.body.constants);
    // n (symbol 2) keeps the subclass's own definition.
    let own = subclass.method(2).unwrap();
    assert_eq!(own.body.constants, vec![Value::Int(999)]);
    let super_n = superclass.method(2).unwrap();
    assert_eq!(super_n.body.constants, vec![Value::Int(200)]);
}

#[test]
fn class_instance_literal_layout() {
    // C { a: 1, b: 2 }: values pushed in reverse, then the construction
    // instruction, the property count, and the name tags in reverse.
    let lit = expr(
        Expression::ClassLiteral {
            symbol: 4,
            properties: vec![
                Spanned {
                    span: span(1),
                    value: Property { name: 8, expr: int_lit(1) },
                },
                Spanned {
                    span: span(1),
                    value: Property { name: 9, expr: int_lit(2) },
                },
            ],
        },
        Ty::Class(4),
    );
    let artifact = compile_body(vec![expr_stmt(lit)]);
    let code = &artifact.body.code;
    // b's value first (reverse), then a's.
    assert_eq!(artifact.body.constants, vec![Value::Int(2), Value::Int(1)]);
    assert_eq!(
        code.as_slice(),
        &[
            opcode::CONSTANT,
            0,
            opcode::CONSTANT,
            1,
            opcode::CLASSINSTANCE,
            4,
            2,
            9,
            8
        ]
    );
}

#[test]
fn closures_compile_as_independent_units() {
    let closure_fn = Function {
        name: 20,
        params: vec![FunctionParam { name: 21 }],
        body: stmt(Statement::Block(vec![stmt(Statement::Return(expr(
            Expression::Var(21, Ty::Int),
            Ty::Int,
        )))])),
    };
    let closure = expr(Expression::Closure(Box::new(closure_fn)), Ty::Int);
    let symbols = Interner::new();
    let mut reporter = Reporter::new();
    let mut objects = Allocations::new();
    let artifact = compile_function(
        &function_of(vec![expr_stmt(closure)]),
        &symbols,
        &mut reporter,
        &mut objects,
    )
    .unwrap();
    // The enclosing unit loads the closure object as a constant.
    assert_eq!(artifact.body.code, vec![opcode::CONSTANT, 0]);
    assert_eq!(artifact.body.constants, vec![Value::Obj(0)]);
    match objects.get(0) {
        HeapObject::Function { arity, function } => {
            assert_eq!(*arity, 1);
            assert_eq!(function.name, 20);
            // The nested unit reads its parameter, not a local.
            assert_eq!(function.body.code, vec![opcode::GETPARAM, 0, opcode::RETURN]);
        }
        _ => panic!("expected a function object"),
    }
}

#[test]
fn programs_compile_functions_then_classes() {
    let main_fn = Function {
        name: 30,
        params: Vec::new(),
        body: stmt(Statement::Block(vec![stmt(Statement::Print(int_lit(7)))])),
    };
    let program = Program { functions: vec![main_fn], classes: Vec::new() };
    let symbols = Interner::new();
    let mut reporter = Reporter::new();
    let (artifact, _objects) = compile(&program, &symbols, &mut reporter).unwrap();
    let main = artifact.function(30).unwrap();
    assert_eq!(main.body.code, vec![opcode::CONSTANT, 0, opcode::PRINT]);
    assert!(artifact.function(31).is_none());
    assert!(artifact.class(30).is_none());
}

#[test]
fn compile_class_compiles_each_method() {
    let class = Class {
        name: 40,
        superclass: None,
        methods: vec![Function {
            name: 41,
            params: Vec::new(),
            body: stmt(Statement::Block(vec![stmt(Statement::Return(int_lit(5)))])),
        }],
    };
    let symbols = Interner::new();
    let mut reporter = Reporter::new();
    let mut objects = Allocations::new();
    let artifact = compile_class(&class, &symbols, &mut reporter, &mut objects).unwrap();
    assert_eq!(artifact.name, 40);
    let m = artifact.method(41).unwrap();
    assert_eq!(m.body.code, vec![opcode::CONSTANT, 0, opcode::RETURN]);
}

#[test]
fn plain_assignment_reaches_parameters_but_stores_as_local() {
    // Reading a parameter uses GETPARAM, but plain `=` assignment to it
    // resolves through the parameter map and still stores with SETLOCAL.
    let func = Function {
        name: 0,
        params: vec![FunctionParam { name: 3 }],
        body: stmt(Statement::Block(vec![expr_stmt(expr(
            Expression::Assign(3, AssignOperator::Equal, Box::new(int_lit(9))),
            Ty::Int,
        ))])),
    };
    let symbols = Interner::new();
    let mut reporter = Reporter::new();
    let mut objects = Allocations::new();
    let artifact = compile_function(&func, &symbols, &mut reporter, &mut objects).unwrap();
    assert_eq!(
        artifact.body.code,
        vec![opcode::CONSTANT, 0, opcode::SETLOCAL, 0]
    );
}

#[test]
fn compound_assignment_float_variant() {
    let let_x = stmt(Statement::Let {
        ident: 7,
        ty: None,
        expr: Some(float_lit(10)),
    });
    let star_eq = expr_stmt(expr(
        Expression::Assign(7, AssignOperator::StarEqual, Box::new(float_lit(20))),
        Ty::Float,
    ));
    let artifact = compile_body(vec![let_x, star_eq]);
    let code = &artifact.body.code;
    assert_eq!(code[code.len() - 3], opcode::MULF);
    assert_eq!(code[code.len() - 2], opcode::SETLOCAL);
}

#[test]
fn duplicate_method_names_resolve_to_the_latest() {
    let method = |name: Symbol, literal: i64| Function {
        name,
        params: Vec::new(),
        body: stmt(Statement::Block(vec![stmt(Statement::Return(int_lit(literal)))])),
    };
    let class = Class {
        name: 50,
        superclass: None,
        methods: vec![method(5, 1), method(5, 2)],
    };
    let symbols = Interner::new();
    let mut reporter = Reporter::new();
    let mut objects = Allocations::new();
    let artifact = compile_class(&class, &symbols, &mut reporter, &mut objects).unwrap();
    let m = artifact.method(5).unwrap();
    assert_eq!(m.body.constants, vec![Value::Int(2)]);
}

#[test]
fn ternary_patches_both_jumps() {
    let t = expr(
        Expression::Ternary(
            Box::new(bool_lit(true)),
            Box::new(int_lit(1)),
            Box::new(int_lit(2)),
        ),
        Ty::Int,
    );
    let artifact = compile_body(vec![expr_stmt(t)]);
    let code = &artifact.body.code;
    // TRUE, JUMPNOT d d, CONSTANT 0, JUMP e e, CONSTANT 1
    assert_eq!(code[0], opcode::TRUE);
    assert_eq!(code[1], opcode::JUMPNOT);
    let skip_true = ((code[2] as usize) << 8) | code[3] as usize;
    // the false-branch target is the first instruction of the false branch
    assert_eq!(4 + skip_true, 9);
    assert_eq!(code[4], opcode::CONSTANT);
    assert_eq!(code[6], opcode::JUMP);
    let skip_false = ((code[7] as usize) << 8) | code[8] as usize;
    assert_eq!(9 + skip_false, code.len());
    assert_eq!(code[9], opcode::CONSTANT);
}

#[test]
fn arrays_push_items_in_reverse_and_index_by_type() {
    let arr = expr(
        Expression::Array(vec![int_lit(1), int_lit(2)]),
        Ty::Array(Box::new(Ty::Int)),
    );
    let artifact = compile_body(vec![expr_stmt(arr)]);
    // the second item's constant is inserted first
    assert_eq!(artifact.body.constants, vec![Value::Int(2), Value::Int(1)]);
    assert_eq!(
        artifact.body.code,
        vec![opcode::CONSTANT, 0, opcode::CONSTANT, 1, opcode::ARRAY, 2]
    );

    // the indexing opcode is dispatched on the index node's own
    // annotation: an array annotation selects INDEXARRAY, a string one
    // INDEXSTRING
    let indexed = expr(
        Expression::Index(
            Box::new(expr(
                Expression::Array(vec![int_lit(5)]),
                Ty::Array(Box::new(Ty::Int)),
            )),
            Box::new(int_lit(0)),
        ),
        Ty::Array(Box::new(Ty::Int)),
    );
    let artifact = compile_body(vec![expr_stmt(indexed)]);
    assert_eq!(*artifact.body.code.last().unwrap(), opcode::INDEXARRAY);
}

#[test]
fn equality_is_representation_agnostic() {
    let eq = compile_body(vec![expr_stmt(binary(
        int_lit(1),
        Op::EqualEqual,
        int_lit(2),
        Ty::Bool,
    ))]);
    assert_eq!(*eq.body.code.last().unwrap(), opcode::EQUAL);
    let eqf = compile_body(vec![expr_stmt(binary(
        float_lit(1),
        Op::EqualEqual,
        float_lit(2),
        Ty::Bool,
    ))]);
    assert_eq!(*eqf.body.code.last().unwrap(), opcode::EQUAL);
}

#[test]
fn string_concatenation_has_its_own_opcode() {
    let s = |text: &str| {
        expr(
            Expression::Literal(Literal::Str(String::from(text))),
            Ty::Str,
        )
    };
    let cat = compile_body(vec![expr_stmt(binary(s("a"), Op::Plus, s("b"), Ty::Str))]);
    assert_eq!(*cat.body.code.last().unwrap(), opcode::CONCAT);
}

#[test]
fn failed_block_still_closes_its_scope() {
    // A block whose child fails still leaves through its scope exit: the
    // boundary marker and the inner binding are popped, while the slot
    // counter keeps counting.
    let block = stmt(Statement::Block(vec![
        stmt(Statement::Let {
            ident: 1,
            ty: None,
            expr: Some(int_lit(7)),
        }),
        expr_stmt(expr(Expression::Var(99, Ty::Int), Ty::Int)),
    ]));
    let symbols = Interner::new();
    let mut reporter = Reporter::new();
    let mut objects = Allocations::new();
    let mut builder = Builder::new(Vec::new());
    let result = builder.compile_statement(&block, &symbols, &mut reporter, &mut objects);
    assert!(result.is_err());
    assert_eq!(reporter.len(), 1);
    assert_eq!(builder.locals.get(1), None);
    assert_eq!(builder.slots, 1);
}

#[test]
fn emit_loop_admits_the_chunk_start_and_end()  {
    // A backward jump from the very beginning of a chunk: the distance
    // spans the three bytes of the LOOP instruction itself.
    let mut builder = Builder::new(Vec::new());
    builder.emit_loop(0);
    assert_eq!(builder.chunk.code, vec![opcode::LOOP, 0, 3]);

    // And from the current end of a non-empty chunk.
    let mut builder = Builder::new(Vec::new());
    builder.emit_byte(opcode::NIL);
    builder.emit_byte(opcode::POP);
    let here = builder.chunk.code.len();
    builder.emit_loop(here);
    assert_eq!(
        builder.chunk.code,
        vec![opcode::NIL, opcode::POP, opcode::LOOP, 0, 3]
    );
}
