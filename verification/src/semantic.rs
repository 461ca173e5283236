//! The semantic analyzer: validates declarations, references, arities and
//! types over a whole program, accumulating every diagnostic in one pass
//! rather than stopping at the first.
//!
//! Pass 1 registers every function signature in the global scope (and checks
//! each parameter list pairwise for duplicates) before pass 2 analyzes any
//! body, so forward references resolve. Pass 2 walks each body in a fresh
//! scope holding the parameters and the locals declared so far.
//!
//! The specification mirrors the two passes as functions from the syntax
//! tree to the exact diagnostic sequence; `analyze` returns `Ok` precisely
//! when that sequence is empty.

use vstd::prelude::*;

use crate::ast::{Expr, Function, Program, Stmt, Type};
use crate::symbol::{FunctionSig, FunctionSigV, ScopeV, Symbol, SymbolTable, SymbolV};
use crate::text::{dec_nat, push_dec_u64, str_eq};

verus! {

broadcast use crate::symbol::SymbolTable::lemma_wf_view;

/// A diagnostic. All are collected; none aborts the pass.
#[derive(Debug)]
pub enum SemanticError {
    DuplicateFunction { name: String },
    DuplicateParam { func: String, name: String },
    DuplicateVariable { func: String, name: String },
    UndeclaredVariable { func: String, name: String },
    WrongArgCount { func: String, name: String, expected: usize, found: usize },
    TypeMismatch { func: String, expected: Type, found: Type },
    ReturnTypeMismatch { func: String, expected: Type, found: Type },
}

/// The mathematical value of a [`SemanticError`].
pub enum ErrV {
    DuplicateFunction { name: Seq<char> },
    DuplicateParam { func: Seq<char>, name: Seq<char> },
    DuplicateVariable { func: Seq<char>, name: Seq<char> },
    UndeclaredVariable { func: Seq<char>, name: Seq<char> },
    WrongArgCount { func: Seq<char>, name: Seq<char>, expected: int, found: int },
    TypeMismatch { func: Seq<char>, expected: Type, found: Type },
    ReturnTypeMismatch { func: Seq<char>, expected: Type, found: Type },
}

impl View for SemanticError {
    type V = ErrV;

    open spec fn view(&self) -> ErrV {
        match self {
            SemanticError::DuplicateFunction { name } => ErrV::DuplicateFunction { name: name@ },
            SemanticError::DuplicateParam { func, name } => ErrV::DuplicateParam {
                func: func@,
                name: name@,
            },
            SemanticError::DuplicateVariable { func, name } => ErrV::DuplicateVariable {
                func: func@,
                name: name@,
            },
            SemanticError::UndeclaredVariable { func, name } => ErrV::UndeclaredVariable {
                func: func@,
                name: name@,
            },
            SemanticError::WrongArgCount { func, name, expected, found } => ErrV::WrongArgCount {
                func: func@,
                name: name@,
                expected: *expected as int,
                found: *found as int,
            },
            SemanticError::TypeMismatch { func, expected, found } => ErrV::TypeMismatch {
                func: func@,
                expected: *expected,
                found: *found,
            },
            SemanticError::ReturnTypeMismatch { func, expected, found } => ErrV::ReturnTypeMismatch {
                func: func@,
                expected: *expected,
                found: *found,
            },
        }
    }
}

/// The views of a sequence of diagnostics, in order.
pub open spec fn errs_view(s: Seq<SemanticError>) -> Seq<ErrV> {
    s.map_values(|e: SemanticError| e@)
}

/// A result that accumulates diagnostics instead of stopping at the first.
pub type SemResult<T> = Result<T, Vec<SemanticError>>;

/// Appends one diagnostic.
fn push_err(errors: &mut Vec<SemanticError>, e: SemanticError)
    ensures
        errs_view(final(errors)@) == errs_view(old(errors)@).push(e@),
{
    let ghost prev = errors@;
    errors.push(e);
    proof {
        assert(errs_view(errors@) =~= errs_view(prev).push(errors@.last()@));
    }
}

/// The declared parameter types of a function, in order.
pub open spec fn param_types(params: Seq<(Type, String)>) -> Seq<Type> {
    params.map_values(|p: (Type, String)| p.0)
}

/// The signature a function registers in the global scope.
pub open spec fn sig_of(f: Function) -> FunctionSigV {
    FunctionSigV { name: f.name@, return_type: f.return_type, params_types: param_types(f.params@) }
}

/// Duplicate-parameter diagnostics from comparing parameter `i` against
/// parameters `i+1 .. j`.
pub open spec fn dup_param_inner(params: Seq<(Type, String)>, fname: Seq<char>, i: int, j: int) -> Seq<
    ErrV,
>
    decreases j,
{
    if i < 0 || j <= i + 1 {
        Seq::empty()
    } else {
        dup_param_inner(params, fname, i, j - 1) + if params[i].1@ == params[j - 1].1@ {
            seq![ErrV::DuplicateParam { func: fname, name: params[i].1@ }]
        } else {
            Seq::empty()
        }
    }
}

/// Duplicate-parameter diagnostics from comparing each of the first `i`
/// parameters against every later one, in scan order.
pub open spec fn dup_param_outer(params: Seq<(Type, String)>, fname: Seq<char>, i: int) -> Seq<ErrV>
    decreases i,
{
    if i <= 0 {
        Seq::empty()
    } else {
        dup_param_outer(params, fname, i - 1) + dup_param_inner(params, fname, i - 1,
            params.len() as int)
    }
}

/// All duplicate-parameter diagnostics of one function.
pub open spec fn dup_param_errs(f: Function) -> Seq<ErrV> {
    dup_param_outer(f.params@, f.name@, f.params@.len() as int)
}

/// Pass 1 over a function list: the global scope contents (function
/// signatures, first declaration wins) and the diagnostics, in order.
pub open spec fn pass1_spec(funs: Seq<Function>) -> (Map<Seq<char>, SymbolV>, Seq<ErrV>)
    decreases funs,
{
    if funs.len() == 0 {
        (Map::empty(), Seq::empty())
    } else {
        let (g, e) = pass1_spec(funs.drop_last());
        let f = funs.last();
        let e1 = e + dup_param_errs(f);
        if g.contains_key(f.name@) {
            (g, e1.push(ErrV::DuplicateFunction { name: f.name@ }))
        } else {
            (g.insert(f.name@, SymbolV::Function(sig_of(f))), e1)
        }
    }
}

/// The parameter scope of a function body: each parameter under its name,
/// the first occurrence of a repeated name winning.
pub open spec fn declare_params_spec(params: Seq<(Type, String)>) -> Map<Seq<char>, SymbolV>
    decreases params,
{
    if params.len() == 0 {
        Map::empty()
    } else {
        let m = declare_params_spec(params.drop_last());
        let p = params.last();
        if m.contains_key(p.1@) {
            m
        } else {
            m.insert(p.1@, SymbolV::Param { name: p.1@, ty: p.0 })
        }
    }
}

/// Lexical resolution against the analyzer's two live scopes: the current
/// function scope first, then the global scope.
pub open spec fn model_lookup(
    gsym: Map<Seq<char>, SymbolV>,
    locals: Map<Seq<char>, SymbolV>,
    n: Seq<char>,
) -> Option<SymbolV> {
    if locals.contains_key(n) {
        Some(locals[n])
    } else if gsym.contains_key(n) {
        Some(gsym[n])
    } else {
        None
    }
}

/// The signature bound to `n` in the global scope, if `n` names a function.
pub open spec fn model_global_sig(gsym: Map<Seq<char>, SymbolV>, n: Seq<char>) -> Option<
    FunctionSigV,
> {
    if gsym.contains_key(n) {
        match gsym[n] {
            SymbolV::Function(sig) => Some(sig),
            _ => None,
        }
    } else {
        None
    }
}

/// Best-effort type inference: `None` is "unknown", never an error by
/// itself. Unary expressions, string literals, and names or calls that do
/// not resolve stay unknown; a binary expression has the common type of its
/// operands if they agree.
pub open spec fn expr_type_spec(
    e: Expr,
    gsym: Map<Seq<char>, SymbolV>,
    locals: Map<Seq<char>, SymbolV>,
) -> Option<Type>
    decreases e,
{
    match e {
        Expr::Number(_) => Some(Type::Int),
        Expr::FloatNumber(_) => Some(Type::Float),
        Expr::CharLiteral(_) => Some(Type::Char),
        Expr::StringLiteral(_) => None,
        Expr::Ident(name) => match model_lookup(gsym, locals, name@) {
            Some(SymbolV::Variable { name: _, ty }) => Some(ty),
            Some(SymbolV::Param { name: _, ty }) => Some(ty),
            _ => None,
        },
        Expr::Unary { .. } => None,
        Expr::Binary { op: _, left, right } => {
            let l = expr_type_spec(*left, gsym, locals);
            let r = expr_type_spec(*right, gsym, locals);
            if l == r {
                l
            } else {
                None
            }
        },
        Expr::Assign { name, value } => {
            match model_lookup(gsym, locals, name@) {
                Some(SymbolV::Variable { name: _, ty }) => Some(ty),
                _ => expr_type_spec(*value, gsym, locals),
            }
        },
        Expr::Call { name, args: _ } => match model_global_sig(gsym, name@) {
            Some(sig) => Some(sig.return_type),
            None => None,
        },
    }
}

/// The diagnostics of one expression: identifiers and assignment targets
/// must resolve; call arguments are analyzed left to right; a call to a
/// known function with a non-empty parameter list must match its arity;
/// calls to unknown names pass without an arity check.
pub open spec fn analyze_expr_spec(
    e: Expr,
    gsym: Map<Seq<char>, SymbolV>,
    locals: Map<Seq<char>, SymbolV>,
    fname: Seq<char>,
) -> Seq<ErrV>
    decreases e,
{
    match e {
        Expr::Number(_) => Seq::empty(),
        Expr::FloatNumber(_) => Seq::empty(),
        Expr::CharLiteral(_) => Seq::empty(),
        Expr::StringLiteral(_) => Seq::empty(),
        Expr::Ident(name) => if model_lookup(gsym, locals, name@) is None {
            seq![ErrV::UndeclaredVariable { func: fname, name: name@ }]
        } else {
            Seq::empty()
        },
        Expr::Unary { op: _, expr } => analyze_expr_spec(*expr, gsym, locals, fname),
        Expr::Binary { op: _, left, right } => analyze_expr_spec(*left, gsym, locals, fname)
            + analyze_expr_spec(*right, gsym, locals, fname),
        Expr::Assign { name, value } => (if model_lookup(gsym, locals, name@) is None {
            seq![ErrV::UndeclaredVariable { func: fname, name: name@ }]
        } else {
            Seq::empty()
        }) + analyze_expr_spec(*value, gsym, locals, fname),
        Expr::Call { name, args } => analyze_args_spec(args@, gsym, locals, fname) + match
            model_global_sig(gsym, name@) {
            Some(sig) => if sig.params_types.len() != 0 && sig.params_types.len() != args@.len() {
                seq![
                    ErrV::WrongArgCount {
                        func: fname,
                        name: name@,
                        expected: sig.params_types.len() as int,
                        found: args@.len() as int,
                    },
                ]
            } else {
                Seq::empty()
            },
            None => Seq::empty(),
        },
    }
}

/// The diagnostics of a call's arguments, left to right.
pub open spec fn analyze_args_spec(
    args: Seq<Expr>,
    gsym: Map<Seq<char>, SymbolV>,
    locals: Map<Seq<char>, SymbolV>,
    fname: Seq<char>,
) -> Seq<ErrV>
    decreases args,
{
    if args.len() == 0 {
        Seq::empty()
    } else {
        analyze_args_spec(args.drop_last(), gsym, locals, fname) + analyze_expr_spec(args.last(),
            gsym, locals, fname)
    }
}

/// One statement's diagnostics and the function scope after it. A variable
/// declaration that collides reports the collision and skips its
/// initializer; a successful one analyzes the initializer in the scope that
/// already holds the new name, then compares the inferred type against the
/// declared one. A return compares its expression's inferred type against
/// the enclosing function's declared return type.
pub open spec fn analyze_stmt_spec(
    s: Stmt,
    gsym: Map<Seq<char>, SymbolV>,
    locals: Map<Seq<char>, SymbolV>,
    fname: Seq<char>,
) -> (Seq<ErrV>, Map<Seq<char>, SymbolV>) {
    match s {
        Stmt::VarDecl { ty, name, value } => {
            if locals.contains_key(name@) {
                (seq![ErrV::DuplicateVariable { func: fname, name: name@ }], locals)
            } else {
                let locals1 = locals.insert(name@, SymbolV::Variable { name: name@, ty });
                let errs = analyze_expr_spec(value, gsym, locals1, fname);
                let type_errs = match expr_type_spec(value, gsym, locals1) {
                    Some(vt) => if vt != ty {
                        seq![ErrV::TypeMismatch { func: fname, expected: ty, found: vt }]
                    } else {
                        Seq::empty()
                    },
                    None => Seq::empty(),
                };
                (errs + type_errs, locals1)
            }
        },
        Stmt::ExprStmt(e) => (analyze_expr_spec(e, gsym, locals, fname), locals),
        Stmt::Return(e) => {
            let errs = analyze_expr_spec(e, gsym, locals, fname);
            let type_errs = match model_global_sig(gsym, fname) {
                Some(sig) => match expr_type_spec(e, gsym, locals) {
                    Some(rt) => if rt != sig.return_type {
                        seq![
                            ErrV::ReturnTypeMismatch {
                                func: fname,
                                expected: sig.return_type,
                                found: rt,
                            },
                        ]
                    } else {
                        Seq::empty()
                    },
                    None => Seq::empty(),
                },
                None => Seq::empty(),
            };
            (errs + type_errs, locals)
        },
    }
}

/// The diagnostics of a statement list, threading the function scope.
pub open spec fn analyze_stmts_spec(
    stmts: Seq<Stmt>,
    gsym: Map<Seq<char>, SymbolV>,
    locals: Map<Seq<char>, SymbolV>,
    fname: Seq<char>,
) -> (Seq<ErrV>, Map<Seq<char>, SymbolV>)
    decreases stmts,
{
    if stmts.len() == 0 {
        (Seq::empty(), locals)
    } else {
        let (e, m) = analyze_stmts_spec(stmts.drop_last(), gsym, locals, fname);
        let (e2, m2) = analyze_stmt_spec(stmts.last(), gsym, m, fname);
        (e + e2, m2)
    }
}

/// Pass 2 diagnostics of one function: its body analyzed in a fresh scope
/// holding its parameters. Parameter collisions were already reported by
/// pass 1 and are not reported again.
pub open spec fn pass2_fn_spec(f: Function, gsym: Map<Seq<char>, SymbolV>) -> Seq<ErrV> {
    analyze_stmts_spec(f.body.stmts@, gsym, declare_params_spec(f.params@), f.name@).0
}

/// Pass 2 diagnostics of a function list, in order.
pub open spec fn pass2_spec(funs: Seq<Function>, gsym: Map<Seq<char>, SymbolV>) -> Seq<ErrV>
    decreases funs,
{
    if funs.len() == 0 {
        Seq::empty()
    } else {
        pass2_spec(funs.drop_last(), gsym) + pass2_fn_spec(funs.last(), gsym)
    }
}

/// Every diagnostic of a program, in the order the analyzer reports them:
/// all of pass 1, then pass 2 over the completed global scope.
pub open spec fn sem_errors(p: Program) -> Seq<ErrV> {
    let (gsym, e1) = pass1_spec(p.functions@);
    e1 + pass2_spec(p.functions@, gsym)
}

/// Analyzes one expression, appending its diagnostics.
#[verifier::loop_isolation(false)]
fn analyze_expr(e: &Expr, symbols: &SymbolTable, errors: &mut Vec<SemanticError>, func_name: &str)
    requires
        symbols.wf(),
        0 < symbols@.current < symbols@.scopes.len(),
        symbols@.scopes[symbols@.current].parent == Some(0int),
    ensures
        errs_view(final(errors)@) == errs_view(old(errors)@) + analyze_expr_spec(*e,
            symbols@.scopes[0].symbols, symbols@.scopes[symbols@.current].symbols, func_name@),
    decreases *e,
{
    let ghost gsym = symbols@.scopes[0].symbols;
    let ghost locals = symbols@.scopes[symbols@.current].symbols;
    let ghost pre = errs_view(errors@);
    match e {
        Expr::Number(_) => {
            proof {
                assert(errs_view(errors@) =~= pre + Seq::<ErrV>::empty());
            }
        },
        Expr::FloatNumber(_) => {
            proof {
                assert(errs_view(errors@) =~= pre + Seq::<ErrV>::empty());
            }
        },
        Expr::CharLiteral(_) => {
            proof {
                assert(errs_view(errors@) =~= pre + Seq::<ErrV>::empty());
            }
        },
        Expr::StringLiteral(_) => {
            proof {
                assert(errs_view(errors@) =~= pre + Seq::<ErrV>::empty());
            }
        },
        Expr::Ident(name) => {
            proof {
                lemma_ctx_lookup(symbols@, name@);
            }
            if symbols.lookup(name.as_str()).is_none() {
                push_err(errors, SemanticError::UndeclaredVariable {
                    func: func_name.to_owned(),
                    name: name.clone(),
                });
                proof {
                    assert(errs_view(errors@) =~= pre + analyze_expr_spec(*e, gsym, locals,
                        func_name@));
                }
            } else {
                proof {
                    assert(errs_view(errors@) =~= pre + Seq::<ErrV>::empty());
                }
            }
        },
        Expr::Unary { op: _, expr } => {
            analyze_expr(expr, symbols, errors, func_name);
        },
        Expr::Binary { op: _, left, right } => {
            analyze_expr(left, symbols, errors, func_name);
            analyze_expr(right, symbols, errors, func_name);
            proof {
                assert(errs_view(errors@) =~= pre + (analyze_expr_spec(**left, gsym, locals,
                    func_name@) + analyze_expr_spec(**right, gsym, locals, func_name@)));
            }
        },
        Expr::Assign { name, value } => {
            proof {
                lemma_ctx_lookup(symbols@, name@);
            }
            let ghost head: Seq<ErrV> = if model_lookup(gsym, locals, name@) is None {
                seq![ErrV::UndeclaredVariable { func: func_name@, name: name@ }]
            } else {
                Seq::empty()
            };
            if symbols.lookup(name.as_str()).is_none() {
                push_err(errors, SemanticError::UndeclaredVariable {
                    func: func_name.to_owned(),
                    name: name.clone(),
                });
                proof {
                    assert(errs_view(errors@) =~= pre + head);
                }
            } else {
                proof {
                    assert(errs_view(errors@) =~= pre + head);
                }
            }
            analyze_expr(value, symbols, errors, func_name);
            proof {
                assert(errs_view(errors@) =~= pre + (head + analyze_expr_spec(**value, gsym,
                    locals, func_name@)));
            }
        },
        Expr::Call { name, args } => {
            let n = args.len();
            let mut i: usize = 0;
            while i < n
                invariant
                    n == args@.len(),
                    i <= n,
                    symbols.wf(),
                    0 < symbols@.current < symbols@.scopes.len(),
                    symbols@.scopes[symbols@.current].parent == Some(0int),
                    gsym == symbols@.scopes[0].symbols,
                    locals == symbols@.scopes[symbols@.current].symbols,
                    errs_view(errors@) == pre + analyze_args_spec(args@.take(i as int), gsym,
                        locals, func_name@),
                decreases n - i,
            {
                proof {
                    assert(decreases_to!(*e => *args));
                    assert(decreases_to!(*args => args@));
                    assert(decreases_to!(args@ => args@[i as int]));
                    assert(decreases_to!(*e => args@[i as int]));
                }
                analyze_expr(&args[i], symbols, errors, func_name);
                proof {
                    assert(args@.take(i + 1).drop_last() =~= args@.take(i as int));
                    assert(args@.take(i + 1).last() == args@[i as int]);
                    assert(errs_view(errors@) =~= pre + analyze_args_spec(args@.take(i + 1), gsym,
                        locals, func_name@));
                }
                i += 1;
            }
            proof {
                assert(args@.take(n as int) =~= args@);
            }
            match symbols.find_global_function(name.as_str()) {
                Some(sig) => {
                    let expected = sig.params_types.len();
                    if expected != 0 && expected != args.len() {
                        push_err(errors, SemanticError::WrongArgCount {
                            func: func_name.to_owned(),
                            name: name.clone(),
                            expected,
                            found: args.len(),
                        });
                        proof {
                            assert(errs_view(errors@) =~= pre + analyze_expr_spec(*e, gsym, locals,
                                func_name@));
                        }
                    } else {
                        proof {
                            assert(errs_view(errors@) =~= pre + analyze_expr_spec(*e, gsym, locals,
                                func_name@));
                        }
                    }
                },
                None => {
                    proof {
                        assert(errs_view(errors@) =~= pre + analyze_expr_spec(*e, gsym, locals,
                            func_name@));
                    }
                },
            }
        },
    }
}

/// The two live scopes of the analyzer see exactly what the table resolves:
/// the current scope first, then the global scope.
proof fn lemma_ctx_lookup(tv: crate::symbol::SymbolTableV, n: Seq<char>)
    requires
        SymbolTable::wf_view(tv),
        0 < tv.current,
        tv.scopes[tv.current].parent == Some(0int),
    ensures
        crate::symbol::lookup_from(tv.scopes, tv.current, n) == model_lookup(tv.scopes[0].symbols,
            tv.scopes[tv.current].symbols, n),
{
    assert(crate::symbol::lookup_from(tv.scopes, 0, n) == if tv.scopes[0].symbols.contains_key(n) {
        Some(tv.scopes[0].symbols[n])
    } else {
        Option::<SymbolV>::None
    });
}

/// Infers one expression's type where possible.
fn expr_type(e: &Expr, symbols: &SymbolTable) -> (r: Option<Type>)
    requires
        symbols.wf(),
        0 < symbols@.current < symbols@.scopes.len(),
        symbols@.scopes[symbols@.current].parent == Some(0int),
    ensures
        r == expr_type_spec(*e, symbols@.scopes[0].symbols,
            symbols@.scopes[symbols@.current].symbols),
    decreases *e,
{
    match e {
        Expr::Number(_) => Some(Type::Int),
        Expr::FloatNumber(_) => Some(Type::Float),
        Expr::CharLiteral(_) => Some(Type::Char),
        Expr::StringLiteral(_) => None,
        Expr::Ident(name) => {
            proof {
                lemma_ctx_lookup(symbols@, name@);
            }
            match symbols.lookup(name.as_str()) {
                Some(sym) => match sym {
                    Symbol::Variable { name: _, ty } => Some(*ty),
                    Symbol::Param { name: _, ty } => Some(*ty),
                    Symbol::Function(_) => None,
                },
                None => None,
            }
        },
        Expr::Unary { .. } => None,
        Expr::Binary { op: _, left, right } => {
            let l = expr_type(left, symbols);
            let r = expr_type(right, symbols);
            match (l, r) {
                (Some(a), Some(b)) => if a == b {
                    Some(a)
                } else {
                    None
                },
                _ => None,
            }
        },
        Expr::Assign { name, value } => {
            proof {
                lemma_ctx_lookup(symbols@, name@);
            }
            let target = symbols.lookup(name.as_str());
            match target {
                Some(Symbol::Variable { name: _, ty }) => Some(*ty),
                _ => expr_type(value, symbols),
            }
        },
        Expr::Call { name, args: _ } => {
            match symbols.find_global_function(name.as_str()) {
                Some(sig) => Some(sig.return_type),
                None => None,
            }
        },
    }
}

/// Analyzes one statement, appending its diagnostics and growing the
/// current scope on a successful declaration.
fn analyze_stmt(
    stmt: &Stmt,
    symbols: &mut SymbolTable,
    errors: &mut Vec<SemanticError>,
    func_name: &str,
)
    requires
        old(symbols).wf(),
        0 < old(symbols)@.current < old(symbols)@.scopes.len(),
        old(symbols)@.scopes[old(symbols)@.current].parent == Some(0int),
    ensures
        final(symbols).wf(),
        final(symbols)@.current == old(symbols)@.current,
        ({
            let (errs, locals1) = analyze_stmt_spec(*stmt, old(symbols)@.scopes[0].symbols,
                old(symbols)@.scopes[old(symbols)@.current].symbols, func_name@);
            &&& final(symbols)@.scopes == old(symbols)@.scopes.update(old(symbols)@.current, ScopeV {
                symbols: locals1,
                parent: Some(0int),
            })
            &&& errs_view(final(errors)@) == errs_view(old(errors)@) + errs
        }),
{
    let ghost gsym = symbols@.scopes[0].symbols;
    let ghost locals = symbols@.scopes[symbols@.current].symbols;
    let ghost pre = errs_view(errors@);
    match stmt {
        Stmt::VarDecl { ty, name, value } => {
            match symbols.declare_local_var(name.as_str(), *ty) {
                Err(_) => {
                    push_err(errors, SemanticError::DuplicateVariable {
                        func: func_name.to_owned(),
                        name: name.clone(),
                    });
                    proof {
                        assert(errs_view(errors@) =~= pre + analyze_stmt_spec(*stmt, gsym, locals,
                            func_name@).0);
                        assert(final(symbols)@.scopes =~= old(symbols)@.scopes.update(
                            old(symbols)@.current, ScopeV {
                                symbols: locals,
                                parent: Some(0int),
                            }));
                    }
                },
                Ok(()) => {
                    analyze_expr(value, symbols, errors, func_name);
                    let inferred = expr_type(value, symbols);
                    if let Some(vt) = inferred {
                        if vt != *ty {
                            push_err(errors, SemanticError::TypeMismatch {
                                func: func_name.to_owned(),
                                expected: *ty,
                                found: vt,
                            });
                        }
                    }
                    proof {
                        let (errs, locals1) = analyze_stmt_spec(*stmt, gsym, locals, func_name@);
                        assert(errs_view(errors@) =~= pre + errs);
                    }
                },
            }
        },
        Stmt::ExprStmt(e) => {
            analyze_expr(e, symbols, errors, func_name);
            proof {
                assert(final(symbols)@.scopes =~= old(symbols)@.scopes.update(
                    old(symbols)@.current, ScopeV { symbols: locals, parent: Some(0int) }));
            }
        },
        Stmt::Return(e) => {
            analyze_expr(e, symbols, errors, func_name);
            match symbols.find_global_function(func_name) {
                Some(sig) => {
                    let inferred = expr_type(e, symbols);
                    if let Some(rt) = inferred {
                        if rt != sig.return_type {
                            push_err(errors, SemanticError::ReturnTypeMismatch {
                                func: func_name.to_owned(),
                                expected: sig.return_type,
                                found: rt,
                            });
                        }
                    }
                },
                None => {},
            }
            proof {
                let (errs, locals1) = analyze_stmt_spec(*stmt, gsym, locals, func_name@);
                assert(errs_view(errors@) =~= pre + errs);
                assert(final(symbols)@.scopes =~= old(symbols)@.scopes.update(
                    old(symbols)@.current, ScopeV { symbols: locals, parent: Some(0int) }));
            }
        },
    }
}

/// Analyzes a whole program: pass 1 registers every signature and checks
/// parameter lists; pass 2 analyzes every body. Returns `Ok` exactly when
/// no diagnostic arises, else the full ordered diagnostic list.
pub fn analyze(program: &Program) -> (r: SemResult<()>)
    ensures
        match r {
            Ok(()) => sem_errors(*program).len() == 0,
            Err(errs) => errs_view(errs@) == sem_errors(*program) && errs@.len() > 0,
        },
{
    let mut errors: Vec<SemanticError> = Vec::new();
    let mut symbols = SymbolTable::new();
    let nf = program.functions.len();
    let ghost funs = program.functions@;

    // Pass 1: duplicate-parameter checks and signature registration.
    let mut fi: usize = 0;
    while fi < nf
        invariant
            nf == funs.len(),
            funs == program.functions@,
            fi <= nf,
            symbols.wf(),
            symbols@.current == 0,
            symbols@.scopes.len() == 1,
            symbols@.scopes[0].parent is None,
            symbols@.scopes[0].symbols == pass1_spec(funs.take(fi as int)).0,
            errs_view(errors@) == pass1_spec(funs.take(fi as int)).1,
        decreases nf - fi,
    {
        let func = &program.functions[fi];
        let ghost pre = errs_view(errors@);
        let np = func.params.len();
        let mut i: usize = 0;
        while i < np
            invariant
                np == func.params@.len(),
                i <= np,
                errs_view(errors@) == pre + dup_param_outer(func.params@, func.name@, i as int),
            decreases np - i,
        {
            let mut j: usize = i + 1;
            while j < np
                invariant
                    np == func.params@.len(),
                    i < j <= np,
                    i < np,
                    errs_view(errors@) == pre + dup_param_outer(func.params@, func.name@, i as int)
                        + dup_param_inner(func.params@, func.name@, i as int, j as int),
                decreases np - j,
            {
                if str_eq(func.params[i].1.as_str(), func.params[j].1.as_str()) {
                    push_err(&mut errors, SemanticError::DuplicateParam {
                        func: func.name.clone(),
                        name: func.params[i].1.clone(),
                    });
                }
                proof {
                    assert(errs_view(errors@) =~= pre + dup_param_outer(func.params@, func.name@,
                        i as int) + dup_param_inner(func.params@, func.name@, i as int, j + 1));
                }
                j += 1;
            }
            proof {
                assert(errs_view(errors@) =~= pre + dup_param_outer(func.params@, func.name@, i
                    + 1));
            }
            i += 1;
        }

        let mut params_types: Vec<Type> = Vec::new();
        let mut pi: usize = 0;
        while pi < np
            invariant
                np == func.params@.len(),
                pi <= np,
                params_types@.len() == pi,
                forall|k: int| 0 <= k < pi ==> params_types@[k] == func.params@[k].0,
            decreases np - pi,
        {
            params_types.push(func.params[pi].0);
            pi += 1;
        }
        let sig = FunctionSig {
            name: func.name.clone(),
            return_type: func.return_type,
            params_types,
        };
        proof {
            assert(sig@.params_types =~= param_types(func.params@));
            assert(sig@ == sig_of(funs[fi as int]));
        }
        match symbols.declare_global_function(sig) {
            Err(_) => {
                push_err(&mut errors, SemanticError::DuplicateFunction { name: func.name.clone() });
            },
            Ok(()) => {},
        }
        proof {
            assert(funs.take(fi + 1).drop_last() =~= funs.take(fi as int));
            assert(funs.take(fi + 1).last() == funs[fi as int]);
        }
        fi += 1;
    }
    proof {
        assert(funs.take(nf as int) =~= funs);
    }
    let ghost gsym = pass1_spec(funs).0;
    let ghost pass1_errs = pass1_spec(funs).1;

    // Pass 2: analyze each body in a fresh scope over the full global scope.
    let mut fi2: usize = 0;
    while fi2 < nf
        invariant
            nf == funs.len(),
            funs == program.functions@,
            fi2 <= nf,
            symbols.wf(),
            symbols@.current == 0,
            0 < symbols@.scopes.len(),
            symbols@.scopes[0].parent is None,
            symbols@.scopes[0].symbols == gsym,
            errs_view(errors@) == pass1_errs + pass2_spec(funs.take(fi2 as int), gsym),
        decreases nf - fi2,
    {
        let func = &program.functions[fi2];
        let ghost pre = errs_view(errors@);
        symbols.enter_scope();
        let np = func.params.len();
        let mut pi: usize = 0;
        while pi < np
            invariant
                np == func.params@.len(),
                pi <= np,
                symbols.wf(),
                0 < symbols@.current < symbols@.scopes.len(),
                symbols@.scopes[symbols@.current].parent == Some(0int),
                symbols@.scopes[0].symbols == gsym,
                symbols@.scopes[symbols@.current].symbols == declare_params_spec(func.params@.take(
                    pi as int)),
                errs_view(errors@) == pre,
            decreases np - pi,
        {
            let _ = symbols.declare_param(func.params[pi].1.as_str(), func.params[pi].0);
            proof {
                assert(func.params@.take(pi + 1).drop_last() =~= func.params@.take(pi as int));
                assert(func.params@.take(pi + 1).last() == func.params@[pi as int]);
            }
            pi += 1;
        }
        proof {
            assert(func.params@.take(np as int) =~= func.params@);
        }
        let ns = func.body.stmts.len();
        let mut si: usize = 0;
        while si < ns
            invariant
                ns == func.body.stmts@.len(),
                si <= ns,
                symbols.wf(),
                0 < symbols@.current < symbols@.scopes.len(),
                symbols@.scopes[symbols@.current].parent == Some(0int),
                symbols@.scopes[0].symbols == gsym,
                ({
                    let (errs, locals1) = analyze_stmts_spec(func.body.stmts@.take(si as int),
                        gsym, declare_params_spec(func.params@), func.name@);
                    &&& symbols@.scopes[symbols@.current].symbols == locals1
                    &&& errs_view(errors@) == pre + errs
                }),
            decreases ns - si,
        {
            analyze_stmt(&func.body.stmts[si], &mut symbols, &mut errors, func.name.as_str());
            proof {
                assert(func.body.stmts@.take(si + 1).drop_last() =~= func.body.stmts@.take(
                    si as int));
                assert(func.body.stmts@.take(si + 1).last() == func.body.stmts@[si as int]);
            }
            si += 1;
        }
        proof {
            assert(func.body.stmts@.take(ns as int) =~= func.body.stmts@);
        }
        symbols.leave_scope();
        proof {
            assert(funs.take(fi2 + 1).drop_last() =~= funs.take(fi2 as int));
            assert(funs.take(fi2 + 1).last() == funs[fi2 as int]);
            assert(errs_view(errors@) =~= pass1_errs + pass2_spec(funs.take(fi2 + 1), gsym));
        }
        fi2 += 1;
    }
    proof {
        assert(funs.take(nf as int) =~= funs);
    }

    if errors.is_empty() {
        proof {
            assert(errs_view(errors@) =~= sem_errors(*program));
            assert(sem_errors(*program).len() == 0);
        }
        Ok(())
    } else {
        proof {
            assert(errs_view(errors@) =~= sem_errors(*program));
        }
        Err(errors)
    }
}

/// The printed name of a type in diagnostics.
pub open spec fn type_text(t: Type) -> Seq<char> {
    match t {
        Type::Int => "Int"@,
        Type::Float => "Float"@,
        Type::Char => "Char"@,
        Type::Void => "Void"@,
    }
}

/// The one-line human-readable message of a diagnostic.
pub open spec fn err_text(e: ErrV) -> Seq<char> {
    match e {
        ErrV::DuplicateFunction { name } => "Duplicate function '"@ + name + "'."@,
        ErrV::DuplicateParam { func, name } => "Duplicate parameter '"@ + name
            + "' in function '"@ + func + "'."@,
        ErrV::DuplicateVariable { func, name } => "Duplicate variable '"@ + name
            + "' in function '"@ + func + "'."@,
        ErrV::UndeclaredVariable { func, name } => "Undeclared variable '"@ + name
            + "' in function '"@ + func + "'."@,
        ErrV::WrongArgCount { func, name, expected, found } => "Wrong argument count for call to '"@
            + name + "' in function '"@ + func + "': expected "@ + dec_nat(expected as nat)
            + ", found "@ + dec_nat(found as nat) + "."@,
        ErrV::TypeMismatch { func, expected, found } => "Type mismatch in function '"@ + func
            + "': expected "@ + type_text(expected) + ", found "@ + type_text(found) + "."@,
        ErrV::ReturnTypeMismatch { func, expected, found } => "Return type mismatch in function '"@
            + func + "': expected "@ + type_text(expected) + ", found "@ + type_text(found)
            + "."@,
    }
}

/// Appends the printed name of a type.
fn push_type_text(out: &mut String, t: Type)
    ensures
        final(out)@ == old(out)@ + type_text(t),
{
    match t {
        Type::Int => out.append("Int"),
        Type::Float => out.append("Float"),
        Type::Char => out.append("Char"),
        Type::Void => out.append("Void"),
    }
}

impl SemanticError {
    /// This diagnostic's one-line human-readable message.
    pub fn to_text(&self) -> (r: String)
        ensures
            r@ == err_text(self@),
    {
        let mut out = String::new();
        match self {
            SemanticError::DuplicateFunction { name } => {
                out.append("Duplicate function '");
                out.append(name.as_str());
                out.append("'.");
            },
            SemanticError::DuplicateParam { func, name } => {
                out.append("Duplicate parameter '");
                out.append(name.as_str());
                out.append("' in function '");
                out.append(func.as_str());
                out.append("'.");
            },
            SemanticError::DuplicateVariable { func, name } => {
                out.append("Duplicate variable '");
                out.append(name.as_str());
                out.append("' in function '");
                out.append(func.as_str());
                out.append("'.");
            },
            SemanticError::UndeclaredVariable { func, name } => {
                out.append("Undeclared variable '");
                out.append(name.as_str());
                out.append("' in function '");
                out.append(func.as_str());
                out.append("'.");
            },
            SemanticError::WrongArgCount { func, name, expected, found } => {
                out.append("Wrong argument count for call to '");
                out.append(name.as_str());
                out.append("' in function '");
                out.append(func.as_str());
                out.append("': expected ");
                push_dec_u64(&mut out, *expected as u64);
                out.append(", found ");
                push_dec_u64(&mut out, *found as u64);
                out.append(".");
            },
            SemanticError::TypeMismatch { func, expected, found } => {
                out.append("Type mismatch in function '");
                out.append(func.as_str());
                out.append("': expected ");
                push_type_text(&mut out, *expected);
                out.append(", found ");
                push_type_text(&mut out, *found);
                out.append(".");
            },
            SemanticError::ReturnTypeMismatch { func, expected, found } => {
                out.append("Return type mismatch in function '");
                out.append(func.as_str());
                out.append("': expected ");
                push_type_text(&mut out, *expected);
                out.append(", found ");
                push_type_text(&mut out, *found);
                out.append(".");
            },
        }
        proof {
            assert(out@ =~= err_text(self@));
        }
        out
    }
}

// ---------------------------------------------------------------------
// Laws of the analysis
// ---------------------------------------------------------------------

/// Matching one duplicate-parameter diagnostic exactly.
pub open spec fn dup_param_pred(func: Seq<char>, name: Seq<char>) -> spec_fn(ErrV) -> bool {
    |e: ErrV| e == (ErrV::DuplicateParam { func, name })
}

proof fn lemma_dup_param_inner_attribution(
    params: Seq<(Type, String)>,
    fname: Seq<char>,
    i: int,
    j: int,
)
    ensures
        forall|k: int|
            0 <= k < dup_param_inner(params, fname, i, j).len() ==> ((#[trigger] dup_param_inner(
                params, fname, i, j)[k]) matches ErrV::DuplicateParam { func, name } && func
                == fname && name == params[i].1@),
    decreases j,
{
    if !(i < 0 || j <= i + 1) {
        lemma_dup_param_inner_attribution(params, fname, i, j - 1);
    }
}

proof fn lemma_dup_param_outer_attribution(params: Seq<(Type, String)>, fname: Seq<char>, i: int)
    ensures
        forall|k: int|
            0 <= k < dup_param_outer(params, fname, i).len() ==> ((#[trigger] dup_param_outer(
                params, fname, i)[k]) matches ErrV::DuplicateParam { func, name: _ } && func
                == fname),
    decreases i,
{
    if i > 0 {
        lemma_dup_param_outer_attribution(params, fname, i - 1);
        lemma_dup_param_inner_attribution(params, fname, i - 1, params.len() as int);
        assert forall|k: int|
            0 <= k < dup_param_outer(params, fname, i).len() implies (#[trigger] dup_param_outer(
            params, fname, i)[k]) matches ErrV::DuplicateParam { func, name: _ } && func
            == fname by {
            let a = dup_param_outer(params, fname, i - 1);
            let b = dup_param_inner(params, fname, i - 1, params.len() as int);
            if k < a.len() {
                assert((a + b)[k] == a[k]);
            } else {
                assert((a + b)[k] == b[k - a.len()]);
            }
        }
    }
}

/// Exactly-two-occurrence hypothesis for a parameter name.
pub open spec fn occurs_exactly_twice(
    params: Seq<(Type, String)>,
    n: Seq<char>,
    i0: int,
    j0: int,
) -> bool {
    &&& 0 <= i0 < j0 < params.len()
    &&& params[i0].1@ == n
    &&& params[j0].1@ == n
    &&& forall|k: int| 0 <= k < params.len() && (#[trigger] params[k]).1@ == n ==> k == i0 || k == j0
}

proof fn lemma_dup_param_inner_count(
    params: Seq<(Type, String)>,
    fname: Seq<char>,
    n: Seq<char>,
    i0: int,
    j0: int,
    i: int,
    j: int,
)
    requires
        occurs_exactly_twice(params, n, i0, j0),
        0 <= i,
        j <= params.len(),
    ensures
        dup_param_inner(params, fname, i, j).filter(dup_param_pred(fname, n)).len() == if i == i0
            && j > j0 {
            1int
        } else {
            0int
        },
    decreases j,
{
    reveal_with_fuel(Seq::filter, 3);
    let pred = dup_param_pred(fname, n);
    if i < 0 || j <= i + 1 {
        assert(dup_param_inner(params, fname, i, j) =~= Seq::<ErrV>::empty());
        assert(Seq::<ErrV>::empty().filter(pred) =~= Seq::<ErrV>::empty());
    } else {
        lemma_dup_param_inner_count(params, fname, n, i0, j0, i, j - 1);
        let a = dup_param_inner(params, fname, i, j - 1);
        let b: Seq<ErrV> = if params[i].1@ == params[j - 1].1@ {
            seq![ErrV::DuplicateParam { func: fname, name: params[i].1@ }]
        } else {
            Seq::empty()
        };
        Seq::filter_distributes_over_add(a, b, pred);
        if params[i].1@ == params[j - 1].1@ {
            let e = ErrV::DuplicateParam { func: fname, name: params[i].1@ };
            assert(b =~= Seq::<ErrV>::empty().push(e));
            assert(Seq::<ErrV>::empty().filter(pred) =~= Seq::<ErrV>::empty());
            if pred(e) {
                assert(params[i].1@ == n);
                assert(i == i0 || i == j0);
                assert(params[j - 1].1@ == n);
                assert(j - 1 == i0 || j - 1 == j0);
                assert(i == i0 && j - 1 == j0);
                assert(b.filter(pred) =~= Seq::<ErrV>::empty().push(e));
            } else {
                assert(b.filter(pred) =~= Seq::<ErrV>::empty());
                assert(!(params[i].1@ == n && j - 1 == j0));
            }
        } else {
            assert(b.filter(pred) =~= Seq::<ErrV>::empty());
            if i == i0 && j - 1 == j0 {
                assert(params[i].1@ == params[j - 1].1@);
            }
        }
    }
}

proof fn lemma_dup_param_outer_count(
    params: Seq<(Type, String)>,
    fname: Seq<char>,
    n: Seq<char>,
    i0: int,
    j0: int,
    i: int,
)
    requires
        occurs_exactly_twice(params, n, i0, j0),
        0 <= i <= params.len(),
    ensures
        dup_param_outer(params, fname, i).filter(dup_param_pred(fname, n)).len() == if i > i0 {
            1int
        } else {
            0int
        },
    decreases i,
{
    reveal_with_fuel(Seq::filter, 3);
    let pred = dup_param_pred(fname, n);
    if i <= 0 {
        assert(dup_param_outer(params, fname, i) =~= Seq::<ErrV>::empty());
        assert(Seq::<ErrV>::empty().filter(pred) =~= Seq::<ErrV>::empty());
    } else {
        lemma_dup_param_outer_count(params, fname, n, i0, j0, i - 1);
        lemma_dup_param_inner_count(params, fname, n, i0, j0, i - 1, params.len() as int);
        Seq::filter_distributes_over_add(dup_param_outer(params, fname, i - 1), dup_param_inner(
            params, fname, i - 1, params.len() as int), pred);
        if i - 1 == i0 {
            assert(j0 < params.len());
        }
    }
}

proof fn lemma_filter_none_matches(errs: Seq<ErrV>, pred: spec_fn(ErrV) -> bool)
    requires
        forall|k: int| 0 <= k < errs.len() ==> !pred(#[trigger] errs[k]),
    ensures
        errs.filter(pred).len() == 0,
{
    errs.lemma_all_neg_filter_empty(pred);
}

proof fn lemma_pass1_no_match_when_absent(funs: Seq<Function>, fname: Seq<char>, n: Seq<char>)
    requires
        forall|g: int| 0 <= g < funs.len() ==> (#[trigger] funs[g]).name@ != fname,
    ensures
        pass1_spec(funs).1.filter(dup_param_pred(fname, n)).len() == 0,
    decreases funs,
{
    reveal_with_fuel(Seq::filter, 3);
    let pred = dup_param_pred(fname, n);
    if funs.len() == 0 {
        assert(Seq::<ErrV>::empty().filter(pred) =~= Seq::<ErrV>::empty());
    } else {
        lemma_pass1_no_match_when_absent(funs.drop_last(), fname, n);
        let f = funs.last();
        let (g, e) = pass1_spec(funs.drop_last());
        let d = dup_param_errs(f);
        lemma_dup_param_outer_attribution(f.params@, f.name@, f.params@.len() as int);
        lemma_filter_none_matches(d, pred);
        Seq::filter_distributes_over_add(e, d, pred);
        if g.contains_key(f.name@) {
            let extra = ErrV::DuplicateFunction { name: f.name@ };
            assert((e + d).push(extra) =~= e + d.push(extra));
            Seq::filter_distributes_over_add(e, d.push(extra), pred);
            assert(d.push(extra).filter(pred).len() == 0) by {
                lemma_filter_none_matches(d.push(extra), pred);
            }
        }
    }
}

proof fn lemma_pass1_count(
    funs: Seq<Function>,
    fi: int,
    n: Seq<char>,
    i0: int,
    j0: int,
)
    requires
        0 <= fi < funs.len(),
        occurs_exactly_twice(funs[fi].params@, n, i0, j0),
        forall|g: int|
            0 <= g < funs.len() && g != fi ==> (#[trigger] funs[g]).name@ != funs[fi].name@,
    ensures
        pass1_spec(funs).1.filter(dup_param_pred(funs[fi].name@, n)).len() == 1,
    decreases funs,
{
    reveal_with_fuel(Seq::filter, 3);
    let fname = funs[fi].name@;
    let pred = dup_param_pred(fname, n);
    let f = funs.last();
    let (g, e) = pass1_spec(funs.drop_last());
    let d = dup_param_errs(f);
    if fi == funs.len() - 1 {
        assert(forall|h: int|
            0 <= h < funs.drop_last().len() ==> (#[trigger] funs.drop_last()[h]).name@ != fname);
        lemma_pass1_no_match_when_absent(funs.drop_last(), fname, n);
        lemma_dup_param_outer_count(f.params@, fname, n, i0, j0, f.params@.len() as int);
        assert(d.filter(pred).len() == 1);
    } else {
        assert(funs.drop_last()[fi] == funs[fi]);
        lemma_pass1_count(funs.drop_last(), fi, n, i0, j0);
        lemma_dup_param_outer_attribution(f.params@, f.name@, f.params@.len() as int);
        lemma_filter_none_matches(d, pred);
    }
    Seq::filter_distributes_over_add(e, d, pred);
    if g.contains_key(f.name@) {
        let extra = ErrV::DuplicateFunction { name: f.name@ };
        assert((e + d).push(extra) =~= e + (d.push(extra)));
        Seq::filter_distributes_over_add(e, d.push(extra), pred);
        assert(d.push(extra).filter(pred).len() == d.filter(pred).len()) by {
            assert(d.push(extra).drop_last() =~= d);
            reveal_with_fuel(Seq::filter, 2);
        }
    }
}

proof fn lemma_expr_no_dup_param(
    e: Expr,
    gsym: Map<Seq<char>, SymbolV>,
    locals: Map<Seq<char>, SymbolV>,
    fname: Seq<char>,
)
    ensures
        forall|k: int|
            0 <= k < analyze_expr_spec(e, gsym, locals, fname).len() ==> !((
            #[trigger] analyze_expr_spec(e, gsym, locals, fname)[k]) is DuplicateParam),
    decreases e,
{
    match e {
        Expr::Unary { op: _, expr } => {
            lemma_expr_no_dup_param(*expr, gsym, locals, fname);
        },
        Expr::Binary { op: _, left, right } => {
            lemma_expr_no_dup_param(*left, gsym, locals, fname);
            lemma_expr_no_dup_param(*right, gsym, locals, fname);
        },
        Expr::Assign { name: _, value } => {
            lemma_expr_no_dup_param(*value, gsym, locals, fname);
        },
        Expr::Call { name: _, args } => {
            lemma_args_no_dup_param(args@, gsym, locals, fname);
        },
        _ => {},
    }
}

proof fn lemma_args_no_dup_param(
    args: Seq<Expr>,
    gsym: Map<Seq<char>, SymbolV>,
    locals: Map<Seq<char>, SymbolV>,
    fname: Seq<char>,
)
    ensures
        forall|k: int|
            0 <= k < analyze_args_spec(args, gsym, locals, fname).len() ==> !((
            #[trigger] analyze_args_spec(args, gsym, locals, fname)[k]) is DuplicateParam),
    decreases args,
{
    if args.len() > 0 {
        lemma_args_no_dup_param(args.drop_last(), gsym, locals, fname);
        lemma_expr_no_dup_param(args.last(), gsym, locals, fname);
    }
}

proof fn lemma_stmts_no_dup_param(
    stmts: Seq<Stmt>,
    gsym: Map<Seq<char>, SymbolV>,
    locals: Map<Seq<char>, SymbolV>,
    fname: Seq<char>,
)
    ensures
        forall|k: int|
            0 <= k < analyze_stmts_spec(stmts, gsym, locals, fname).0.len() ==> !((
            #[trigger] analyze_stmts_spec(stmts, gsym, locals, fname).0[k]) is DuplicateParam),
    decreases stmts,
{
    if stmts.len() > 0 {
        lemma_stmts_no_dup_param(stmts.drop_last(), gsym, locals, fname);
        let (e1, m) = analyze_stmts_spec(stmts.drop_last(), gsym, locals, fname);
        let s = stmts.last();
        match s {
            Stmt::VarDecl { ty: _, name: _, value } => {
                if !m.contains_key(s->VarDecl_name@) {
                    let m1 = m.insert(s->VarDecl_name@, SymbolV::Variable {
                        name: s->VarDecl_name@,
                        ty: s->VarDecl_ty,
                    });
                    lemma_expr_no_dup_param(value, gsym, m1, fname);
                }
            },
            Stmt::ExprStmt(e) => {
                lemma_expr_no_dup_param(e, gsym, m, fname);
            },
            Stmt::Return(e) => {
                lemma_expr_no_dup_param(e, gsym, m, fname);
            },
        }
    }
}

proof fn lemma_pass2_no_dup_param(
    funs: Seq<Function>,
    gsym: Map<Seq<char>, SymbolV>,
    fname: Seq<char>,
    n: Seq<char>,
)
    ensures
        pass2_spec(funs, gsym).filter(dup_param_pred(fname, n)).len() == 0,
    decreases funs,
{
    reveal_with_fuel(Seq::filter, 3);
    let pred = dup_param_pred(fname, n);
    if funs.len() == 0 {
        assert(Seq::<ErrV>::empty().filter(pred) =~= Seq::<ErrV>::empty());
    } else {
        lemma_pass2_no_dup_param(funs.drop_last(), gsym, fname, n);
        let f = funs.last();
        lemma_stmts_no_dup_param(f.body.stmts@, gsym, declare_params_spec(f.params@), f.name@);
        lemma_filter_none_matches(pass2_fn_spec(f, gsym), pred);
        Seq::filter_distributes_over_add(pass2_spec(funs.drop_last(), gsym), pass2_fn_spec(f,
            gsym), pred);
    }
}

/// Declaring the same parameter name twice in a function yields exactly one
/// duplicate-parameter diagnostic attributed to it: one from pass 1's
/// pairwise check, none from pass 2. Stated for a function whose name no
/// other function shares, so that attribution by name is unambiguous.
pub proof fn lemma_duplicate_param_reported_once(
    p: Program,
    fi: int,
    n: Seq<char>,
    i0: int,
    j0: int,
)
    requires
        0 <= fi < p.functions@.len(),
        occurs_exactly_twice(p.functions@[fi].params@, n, i0, j0),
        forall|g: int|
            0 <= g < p.functions@.len() && g != fi ==> (#[trigger] p.functions@[g]).name@
                != p.functions@[fi].name@,
    ensures
        sem_errors(p).filter(dup_param_pred(p.functions@[fi].name@, n)).len() == 1,
{
    let fname = p.functions@[fi].name@;
    let pred = dup_param_pred(fname, n);
    let (gsym, e1) = pass1_spec(p.functions@);
    lemma_pass1_count(p.functions@, fi, n, i0, j0);
    lemma_pass2_no_dup_param(p.functions@, gsym, fname, n);
    Seq::filter_distributes_over_add(e1, pass2_spec(p.functions@, gsym), pred);
}

/// A call to a known function with a non-empty parameter list and the wrong
/// number of arguments yields exactly one wrong-argument-count diagnostic,
/// carrying the declared and the supplied count, after the arguments' own
/// diagnostics. A call to `g(a, b)` invoked with one argument is the
/// instance with expected 2 and found 1.
pub proof fn lemma_call_arity_checked(
    e: Expr,
    sig: FunctionSigV,
    gsym: Map<Seq<char>, SymbolV>,
    locals: Map<Seq<char>, SymbolV>,
    fname: Seq<char>,
)
    requires
        e is Call,
        model_global_sig(gsym, e->Call_name@) == Some(sig),
        sig.params_types.len() != 0,
        sig.params_types.len() != e->Call_args@.len(),
    ensures
        analyze_expr_spec(e, gsym, locals, fname) == analyze_args_spec(e->Call_args@, gsym, locals,
            fname) + seq![
            ErrV::WrongArgCount {
                func: fname,
                name: e->Call_name@,
                expected: sig.params_types.len() as int,
                found: e->Call_args@.len() as int,
            },
        ],
{
}

/// A return whose expression has a known inferred type different from the
/// enclosing function's declared return type yields exactly one
/// return-type-mismatch diagnostic, carrying both types, after the
/// expression's own diagnostics; the scope is unchanged.
pub proof fn lemma_return_type_checked(
    s: Stmt,
    sig: FunctionSigV,
    gsym: Map<Seq<char>, SymbolV>,
    locals: Map<Seq<char>, SymbolV>,
    fname: Seq<char>,
    rt: Type,
)
    requires
        s is Return,
        model_global_sig(gsym, fname) == Some(sig),
        expr_type_spec(s->Return_0, gsym, locals) == Some(rt),
        rt != sig.return_type,
    ensures
        analyze_stmt_spec(s, gsym, locals, fname).0 == analyze_expr_spec(s->Return_0, gsym, locals,
            fname) + seq![
            ErrV::ReturnTypeMismatch { func: fname, expected: sig.return_type, found: rt },
        ],
        analyze_stmt_spec(s, gsym, locals, fname).1 == locals,
{
}

} // verus!
