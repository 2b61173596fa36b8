//! The unit assembler: whole functions, classes with their
//! single-inheritance method-table merge, and the final program artifact.
//!
//! Each function compiles independently into a [`FunctionArtifact`]; each
//! class compiles its methods and then, if it names a superclass, copies
//! every superclass method it does not override — once, at compile time,
//! so the execution engine never walks an inheritance chain. The program
//! compiles functions first and classes second, in source order, against a
//! fresh allocation list; every step is proved equal to the lowering
//! model.

use vstd::prelude::*;

use crate::artifact::{
    assoc_contains, assoc_lookup, classes_model, table_model, ClassArtifact, FunctionArtifact,
    ProgramArtifact,
};
use crate::ast::{fn_height, lemma_stmt_height_pos, Class, Function, Program};
use crate::builder::{st_of, Builder};
use crate::heap::Allocations;
use crate::interner::{Interner, Symbol};
use crate::lower::{
    merge_methods, param_map, sp_class, sp_classes, sp_function, sp_functions,
    sp_methods, sp_program, ClassOutcome, FnOutcome,
    ProgramOutcome,
};
use crate::report::Reporter;

verus! {

/// Compiles one function declaration as an independent unit: a fresh
/// builder, the parameter map built from the declaration, and the shared
/// diagnostics sink and allocation list threaded through.
#[verifier::loop_isolation(false)]
#[verifier::rlimit(100)]
#[verifier::spinoff_prover]
pub fn compile_function(
    func: &Function,
    symbols: &Interner,
    reporter: &mut Reporter,
    objects: &mut Allocations,
) -> (r: Result<FunctionArtifact, ()>)
    requires
        !(sp_function(symbols@, old(reporter)@, old(objects)@, *func) is Fault),
    ensures
        ({
            let outcome = sp_function(symbols@, old(reporter)@, old(objects)@, *func);
            match r {
                Ok(artifact) => outcome == FnOutcome::Done(
                    final(reporter)@,
                    final(objects)@,
                    artifact@,
                ),
                Err(()) => outcome == FnOutcome::Failed(final(reporter)@, final(objects)@),
            }
        }),
    decreases fn_height(*func),
{
    proof {
        lemma_stmt_height_pos(func.body);
    }
    let mut params: Vec<(Symbol, usize)> = Vec::new();
    let mut i: usize = 0;
    while i < func.params.len()
        invariant
            i <= func.params@.len(),
            params@.len() == i,
            forall|k: int| 0 <= k < i ==> params@[k] == (func.params@[k].name, k as usize),
        decreases func.params@.len() - i,
    {
        params.push((func.params[i].name, i));
        i = i + 1;
    }
    proof {
        assert(params@ =~= param_map(func.params@));
    }
    let mut builder = Builder::new(params);
    let ghost st0 = st_of(builder@, reporter@, objects@);
    proof {
        crate::growth::lemma_sp_stmt_grows(symbols@, st0, func.body);
    }
    let res = builder.compile_statement(&func.body, symbols, reporter, objects);
    if res.is_err() {
        return Err(());
    }
    Ok(FunctionArtifact { name: func.name, params: builder.params, body: builder.chunk })
}

/// Whether a method table already binds `key`.
fn methods_contains(methods: &Vec<(Symbol, FunctionArtifact)>, key: Symbol) -> (r: bool)
    ensures
        r == assoc_contains(table_model(methods@), key),
{
    let mut i = methods.len();
    proof {
        assert(table_model(methods@).subrange(0, i as int) =~= table_model(methods@));
    }
    while i > 0
        invariant
            i <= methods@.len(),
            assoc_lookup(table_model(methods@), key) == assoc_lookup(
                table_model(methods@).subrange(0, i as int),
                key,
            ),
        decreases i,
    {
        i = i - 1;
        proof {
            assert(table_model(methods@).subrange(0, i + 1).drop_last() =~= table_model(
                methods@,
            ).subrange(0, i as int));
            assert(table_model(methods@).subrange(0, i + 1).last() == table_model(
                methods@,
            )[i as int]);
        }
        if methods[i].0 == key {
            return true;
        }
    }
    false
}

/// The single-inheritance merge: every superclass method whose name the
/// subclass does not already bind is copied into the subclass's table, so
/// subclass definitions win on collision and the merged table answers
/// inherited names exactly as the superclass does.
#[verifier::loop_isolation(false)]
#[verifier::rlimit(100)]
pub fn inherit_methods(
    methods: &mut Vec<(Symbol, FunctionArtifact)>,
    superclass: &Vec<(Symbol, FunctionArtifact)>,
)
    ensures
        table_model(final(methods)@) == merge_methods(
            table_model(old(methods)@),
            table_model(superclass@),
        ),
{
    let ghost sup = table_model(superclass@);
    let mut i = superclass.len();
    proof {
        assert(sup.subrange(0, i as int) =~= sup);
    }
    while i > 0
        invariant
            i <= superclass@.len(),
            sup == table_model(superclass@),
            merge_methods(table_model(old(methods)@), sup) == merge_methods(
                table_model(methods@),
                sup.subrange(0, i as int),
            ),
        decreases i,
    {
        let ghost prefix = sup.subrange(0, i as int);
        proof {
            assert(prefix.last() == sup[i - 1]);
            assert(prefix.drop_last() =~= sup.subrange(0, i - 1));
        }
        i = i - 1;
        let name = superclass[i].0;
        if !methods_contains(methods, name) {
            let ghost before = table_model(methods@);
            methods.push((name, superclass[i].1.duplicate()));
            proof {
                assert(table_model(methods@) =~= before.push(sup[i as int]));
            }
        }
    }
    proof {
        assert(sup.subrange(0, 0) =~= Seq::<(Symbol, crate::artifact::FunModel)>::empty());
    }
}

/// Compiles one class: each method as an independent function, collected
/// into the class's own method table in declaration order.
#[verifier::loop_isolation(false)]
#[verifier::rlimit(100)]
#[verifier::spinoff_prover]
pub fn compile_class(
    class: &Class,
    symbols: &Interner,
    reporter: &mut Reporter,
    objects: &mut Allocations,
) -> (r: Result<ClassArtifact, ()>)
    requires
        !(sp_class(symbols@, old(reporter)@, old(objects)@, *class) is Fault),
    ensures
        ({
            let outcome = sp_class(symbols@, old(reporter)@, old(objects)@, *class);
            match r {
                Ok(artifact) => outcome == ClassOutcome::Done(
                    final(reporter)@,
                    final(objects)@,
                    artifact@,
                ),
                Err(()) => outcome == ClassOutcome::Failed(final(reporter)@, final(objects)@),
            }
        }),
{
    let ghost diags0 = reporter@;
    let ghost objs0 = objects@;
    let ghost all = class.methods@;
    let mut methods: Vec<(Symbol, FunctionArtifact)> = Vec::new();
    let mut i: usize = 0;
    proof {
        assert(all.subrange(0, all.len() as int) =~= all);
        assert(table_model(methods@) =~= Seq::<(Symbol, crate::artifact::FunModel)>::empty());
    }
    while i < class.methods.len()
        invariant
            i <= class.methods@.len(),
            all == class.methods@,
            sp_methods(symbols@, diags0, objs0, all, Seq::empty()) == sp_methods(
                symbols@,
                reporter@,
                objects@,
                all.subrange(i as int, all.len() as int),
                table_model(methods@),
            ),
            !(sp_methods(symbols@, diags0, objs0, all, Seq::empty()) is Fault),
        decreases class.methods@.len() - i,
    {
        let ghost rest = all.subrange(i as int, all.len() as int);
        let ghost acc = table_model(methods@);
        proof {
            assert(rest[0] == all[i as int]);
            assert(rest.subrange(1, rest.len() as int) =~= all.subrange(i + 1, all.len() as int));
        }
        let res = compile_function(&class.methods[i], symbols, reporter, objects);
        match res {
            Ok(artifact) => {
                let ghost artifact_model = artifact@;
                let name = class.methods[i].name;
                methods.push((name, artifact));
                proof {
                    assert(table_model(methods@) =~= acc.push((all[i as int].name, artifact_model)));
                }
            },
            Err(()) => {
                return Err(());
            },
        }
        i = i + 1;
    }
    proof {
        assert(all.subrange(class.methods.len() as int, all.len() as int) =~= Seq::<
            Function,
        >::empty());
    }
    Ok(ClassArtifact { name: class.name, methods })
}

/// Resolves a class name in the table built so far; the most recent entry
/// wins.
fn class_lookup<'a>(classes: &'a Vec<(Symbol, ClassArtifact)>, key: Symbol) -> (r: Option<
    &'a ClassArtifact,
>)
    ensures
        match r {
            Some(c) => assoc_lookup(classes_model(classes@), key) == Some(c@),
            None => assoc_lookup(classes_model(classes@), key) is None,
        },
{
    let mut i = classes.len();
    proof {
        assert(classes_model(classes@).subrange(0, i as int) =~= classes_model(classes@));
    }
    while i > 0
        invariant
            i <= classes@.len(),
            assoc_lookup(classes_model(classes@), key) == assoc_lookup(
                classes_model(classes@).subrange(0, i as int),
                key,
            ),
        decreases i,
    {
        i = i - 1;
        proof {
            assert(classes_model(classes@).subrange(0, i + 1).drop_last() =~= classes_model(
                classes@,
            ).subrange(0, i as int));
            assert(classes_model(classes@).subrange(0, i + 1).last() == classes_model(
                classes@,
            )[i as int]);
        }
        if classes[i].0 == key {
            return Some(&classes[i].1);
        }
    }
    None
}

/// Compiles a whole program: every top-level function, then every class in
/// source order (a superclass must be declared before its subclasses), and
/// assembles the final artifact together with the allocation list of every
/// heap constant the pass created.
#[verifier::loop_isolation(false)]
#[verifier::rlimit(100)]
#[verifier::spinoff_prover]
pub fn compile(ast: &Program, symbols: &Interner, reporter: &mut Reporter) -> (r: Result<
    (ProgramArtifact, Allocations),
    (),
>)
    requires
        !(sp_program(symbols@, old(reporter)@, *ast) is Fault),
    ensures
        ({
            let outcome = sp_program(symbols@, old(reporter)@, *ast);
            match r {
                Ok(pair) => outcome == ProgramOutcome::Done(
                    final(reporter)@,
                    pair.1@,
                    pair.0@.functions,
                    pair.0@.classes,
                ),
                Err(()) => outcome is Failed && outcome->Failed_0 == final(reporter)@,
            }
        }),
{
    let ghost diags0 = reporter@;
    let mut objects = Allocations::new();
    let ghost all_funcs = ast.functions@;
    let mut funcs: Vec<(Symbol, FunctionArtifact)> = Vec::new();
    let mut i: usize = 0;
    proof {
        assert(all_funcs.subrange(0, all_funcs.len() as int) =~= all_funcs);
        assert(table_model(funcs@) =~= Seq::<(Symbol, crate::artifact::FunModel)>::empty());
        assert(objects@ =~= Seq::<crate::heap::ObjModel>::empty());
    }
    while i < ast.functions.len()
        invariant
            i <= ast.functions@.len(),
            all_funcs == ast.functions@,
            sp_functions(symbols@, diags0, Seq::empty(), all_funcs, Seq::empty()) == sp_functions(
                symbols@,
                reporter@,
                objects@,
                all_funcs.subrange(i as int, all_funcs.len() as int),
                table_model(funcs@),
            ),
            !(sp_functions(symbols@, diags0, Seq::empty(), all_funcs, Seq::empty()) is Fault),
        decreases ast.functions@.len() - i,
    {
        let ghost rest = all_funcs.subrange(i as int, all_funcs.len() as int);
        let ghost acc = table_model(funcs@);
        proof {
            assert(rest[0] == all_funcs[i as int]);
            assert(rest.subrange(1, rest.len() as int) =~= all_funcs.subrange(
                i + 1,
                all_funcs.len() as int,
            ));
        }
        let res = compile_function(&ast.functions[i], symbols, reporter, &mut objects);
        match res {
            Ok(artifact) => {
                let ghost artifact_model = artifact@;
                let name = ast.functions[i].name;
                funcs.push((name, artifact));
                proof {
                    assert(table_model(funcs@) =~= acc.push(
                        (all_funcs[i as int].name, artifact_model),
                    ));
                }
            },
            Err(()) => {
                return Err(());
            },
        }
        i = i + 1;
    }
    proof {
        assert(all_funcs.subrange(ast.functions.len() as int, all_funcs.len() as int) =~= Seq::<
            Function,
        >::empty());
    }
    let ghost diags1 = reporter@;
    let ghost objs1 = objects@;
    let ghost all_classes = ast.classes@;
    let mut classes: Vec<(Symbol, ClassArtifact)> = Vec::new();
    let mut j: usize = 0;
    proof {
        assert(all_classes.subrange(0, all_classes.len() as int) =~= all_classes);
        assert(classes_model(classes@) =~= Seq::<(Symbol, crate::artifact::ClassModel)>::empty());
    }
    while j < ast.classes.len()
        invariant
            j <= ast.classes@.len(),
            all_classes == ast.classes@,
            sp_classes(symbols@, diags1, objs1, all_classes, Seq::empty()) == sp_classes(
                symbols@,
                reporter@,
                objects@,
                all_classes.subrange(j as int, all_classes.len() as int),
                classes_model(classes@),
            ),
            !(sp_classes(symbols@, diags1, objs1, all_classes, Seq::empty()) is Fault),
        decreases ast.classes@.len() - j,
    {
        let ghost rest = all_classes.subrange(j as int, all_classes.len() as int);
        let ghost acc = classes_model(classes@);
        proof {
            assert(rest[0] == all_classes[j as int]);
            assert(rest.subrange(1, rest.len() as int) =~= all_classes.subrange(
                j + 1,
                all_classes.len() as int,
            ));
        }
        let res = compile_class(&ast.classes[j], symbols, reporter, &mut objects);
        match res {
            Ok(compiled) => {
                let mut compiled = compiled;
                match &ast.classes[j].superclass {
                    None => {},
                    Some(superclass) => {
                        match class_lookup(&classes, superclass.value) {
                            Some(super_artifact) => {
                                inherit_methods(&mut compiled.methods, &super_artifact.methods);
                            },
                            None => {
                                proof {
                                    assert(false);
                                }
                                return Err(());
                            },
                        }
                    },
                }
                let ghost compiled_model = compiled@;
                let name = ast.classes[j].name;
                classes.push((name, compiled));
                proof {
                    assert(classes_model(classes@) =~= acc.push(
                        (all_classes[j as int].name, compiled_model),
                    ));
                }
            },
            Err(()) => {
                return Err(());
            },
        }
        j = j + 1;
    }
    proof {
        assert(all_classes.subrange(ast.classes.len() as int, all_classes.len() as int) =~= Seq::<
            Class,
        >::empty());
    }
    Ok((ProgramArtifact { functions: funcs, classes }, objects))
}

} // verus!
