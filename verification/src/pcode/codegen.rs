//! The code generator: syntax tree to p-code.
//!
//! It handles `INTEGER`/`BOOLEAN` variables and constants, arithmetic,
//! comparisons and logic, assignments, `IF`/`WHILE`/`REPEAT`/`FOR`,
//! compound statements, the program body, calls of the procedures and
//! functions declared directly in the program (value and `VAR`
//! parameters, recursion, function results), and `WriteLn` with no
//! argument, one `INTEGER`/`BOOLEAN` argument or one string literal.
//!
//! Global variables may also be one-dimensional arrays of `INTEGER` or
//! `BOOLEAN` (one word per element; `a[i]` is read and written through
//! its address: that of `a`, plus `i`, minus the low bound), and
//! `STRING[n]` (a word for the length, then one word per character),
//! which can be assigned a string literal and written by `WriteLn`.
//!
//! Anything else (`CASE`, units, records, pointers, `REAL`, `CHAR`,
//! local or parameter arrays and strings, the other built-in procedures,
//! `WriteLn` with several arguments) is reported as a diagnostic instead
//! of generated, and then the whole generation fails.
//!
//! Routines are declared only at the program's level, so a routine body
//! is at lexical level 1 and every call is a `CPG`. A routine's
//! activation record holds, from low to high addresses: the five words of
//! the mark stack, its local variables and the hidden limits of its `FOR`
//! loops (`DATASIZE` words), its parameters (a `VAR` parameter holds an
//! address) and, for a function, its result. The caller pushes the
//! arguments in order; the body ends with `RPU b` where `b` is `DATASIZE`
//! plus the parameter words, which leaves only a function's result.
//!
//! Forward jumps are emitted with a placeholder target and patched once
//! the target is known; a call of a routine whose body is not generated
//! yet is patched when that body starts.

use vstd::prelude::*;

use crate::ast::{
    BinOp, Block, ConstDecl, Diagnostic, Expr, ForDirection, FuncDecl, Identifier, Literal,
    ParamDecl, ProcDecl, Program, Severity, Span, Statement, TypeExpr, UnOp, VarDecl,
};
use crate::lexer::token::{lower_char, lower_text};
use crate::pcode::builtin::{
    BUILTIN_WRITELN_BOOL, BUILTIN_WRITELN_INT, BUILTIN_WRITELN_NONE, BUILTIN_WRITELN_STRING,
    BUILTIN_WRITELN_STRVAR, KERNEL_SEGMENT,
};
use crate::pcode::gen_spec::{
    resolve_all,
    bodies, entries, main_base, main_env, main_state, program_code, program_ok, final_state, routine_metas, routine_env, routine_return_kind,
    routine_body_span, lemma_find_routine_from,
    decls_ok, routine_table,
    fits, n_routines, routine_body, routine_name, routine_params, routine_spec, routine_vars,
    routine_is_func,
    address_code, args_code, args_ok, exprs_code, exprs_ok, assoc, assoc_upto, binop_code, bool_word, cop, expr_code,
    expr_ok, find_routine, find_routine_from, fits_word, ident_code, ident_ok, infer_kind_spec,
    key_of, ldc, load_code, stmt_ok, stmt_gen, stmts_ok, stmts_gen, for_temps_stmt, for_temps_stmts,
    fjp, ujp, consts_of, globals_of, global_words, arrays_of, array_shape, resolve_array_spec, indexed_array,
    element_address_code, ArraySlot, StrSlot, strings_of, string_len_of, resolve_string_spec, string_arg,
    string_store_code, chars_store_code, chars_fit, locals_of, params_of, value_kind_of, writeln_ok, writeln_gen, is_writeln, is_unsupported_builtin, for_head_code, for_test_code,
    for_step_code, lookup_kind_spec, resolve, resolve_var_spec, store_code, temp_var,
    uop, var_arg_ok, ConstValue, Env, FrameSlot, GenState, ResolvedVar, RoutineSpec, SInstr, ScopeSpec,
    ValueKind, VarSlot,
};
use crate::pcode::ir::{Instruction, PCodeModule, RoutineMeta};
use crate::pcode::opcode::{Address, CodeAddress, ConfirmedOp, Level, Opcode, UnconfirmedOp};
use crate::pcode::text::pool_view;
use crate::strings::{decimal, nat_digits, push_str, string_push};

verus! {

/// Whether `d` is an error at `span` with message `m`.
pub open spec fn error_at(d: Diagnostic, span: Span, m: Seq<char>) -> bool {
    &&& d.span == span
    &&& d.severity == Severity::Error
    &&& d.message@ == m
    &&& d.code is None
}

/// `ds` begins with `old`: no diagnostic was taken back or changed.
pub open spec fn keeps(ds: Seq<Diagnostic>, old: Seq<Diagnostic>) -> bool {
    &&& old.len() <= ds.len()
    &&& forall|i: int| 0 <= i < old.len() ==> #[trigger] ds[i] == old[i]
}

proof fn lemma_keeps_trans(a: Seq<Diagnostic>, b: Seq<Diagnostic>, c: Seq<Diagnostic>)
    requires
        keeps(b, a),
        keeps(c, b),
    ensures
        keeps(c, a),
{
    assert forall|i: int| 0 <= i < a.len() implies #[trigger] c[i] == a[i] by {
        assert(c[i] == b[i]);
    }
}

/// `ds` is `old` with one error added, at `span` with message `m`.
pub open spec fn one_error_added(ds: Seq<Diagnostic>, old: Seq<Diagnostic>, span: Span, m: Seq<char>) -> bool {
    &&& ds.len() == old.len() + 1
    &&& ds.drop_last() == old
    &&& error_at(ds.last(), span, m)
}

/// The error for an integer constant outside a 16-bit word.
#[verifier::opaque]
pub open spec fn int_overflow_text(v: int) -> Seq<char> {
    "integer constant "@ + decimal(v) + " does not fit in a 16-bit p-machine word (-32768..=32767)"@
}

/// The error for real division.
#[verifier::opaque]
pub open spec fn real_division_text() -> Seq<char> {
    "real division ('/') is out of scope for this step's minimal codegen (only INTEGER/BOOLEAN are supported)"@
}

/// The error for a name on its own in an expression that is none of a
/// variable, a constant that fits a word, and a function without
/// parameters.
#[verifier::opaque]
pub open spec fn ident_error_text(env: Env, id: Identifier) -> Seq<char> {
    let key = key_of(id);
    match assoc(env.consts, key) {
        Some(ConstValue::Int(v)) => int_overflow_text(v as int),
        _ => match find_routine(env.routines, key) {
            Some(k) => if env.routines[k].is_func {
                "Function '"@ + id.name@ + "' expects "@ + nat_digits(env.routines[k].params.len())
                    + " argument(s), found 0"@
            } else {
                "'"@ + id.name@ + "' is a procedure; procedures cannot be used in an expression"@
            },
            None => "'"@ + id.name@ + if resolve_string_spec(env, key) is Some {
                "' is a STRING[n] variable; only assigning it a string literal and writing it with WriteLn are supported in this step's minimal codegen"@
            } else if resolve_array_spec(env, key) is Some {
                "' is an array; whole-array values are out of scope for this step's minimal codegen (only indexed elements are supported)"@
            } else {
                "' is not a known constant or variable in this scope"@
            },
        },
    }
}

/// The error for a `CASE` statement.
#[verifier::opaque]
pub open spec fn case_text() -> Seq<char> {
    "CASE statements are out of scope for this step's minimal codegen"@
}

/// The error for an assignment to the function `name` outside its body.
#[verifier::opaque]
pub open spec fn function_assignment_text(name: Seq<char>) -> Seq<char> {
    "Cannot assign to function '"@ + name + "' outside of its own body"@
}

/// The error for an assignment to the procedure `name`.
#[verifier::opaque]
pub open spec fn procedure_assignment_text(name: Seq<char>) -> Seq<char> {
    "Cannot assign to procedure '"@ + name + "'"@
}

/// The error for an assignment to the array `name` as a whole.
#[verifier::opaque]
pub open spec fn whole_array_assignment_text(name: Seq<char>) -> Seq<char> {
    "whole-array assignment to '"@ + name
        + "' is out of scope for this step's minimal codegen (only indexed elements can be assigned)"@
}

/// The error for an assignment to a name that is nothing in scope.
#[verifier::opaque]
pub open spec fn unknown_target_text(name: Seq<char>) -> Seq<char> {
    "'"@ + name + "' is not a known variable in this scope"@
}

/// The error for assigning the `STRING[n]` variable `name` anything but a
/// string literal.
#[verifier::opaque]
pub open spec fn string_assignment_text(name: Seq<char>) -> Seq<char> {
    "assigning anything but a string literal to the STRING[n] variable '"@ + name
        + "' is out of scope for this step's minimal codegen"@
}

/// The error for an assignment target that is neither a name nor an
/// element of a global array.
#[verifier::opaque]
pub open spec fn lvalue_text() -> Seq<char> {
    "assignment targets other than a simple variable or an element of a global array (record/pointer lvalues) are out of scope for this step's minimal codegen"@
}

/// The error an assignment `target := value` reports before anything
/// else, where its target settles it; `None` when the target is one that
/// can be assigned.
pub open spec fn assignment_error(env: Env, target: Expr, value: Expr) -> Option<(Span, Seq<char>)> {
    match target {
        Expr::Identifier(id) => {
            let key = key_of(id);
            if env.scope matches Some(sc) && sc.is_function && sc.function_name == key {
                None
            } else if resolve_var_spec(env, key) is Some {
                None
            } else if resolve_string_spec(env, key) is Some {
                if value is StringLiteral {
                    None
                } else {
                    Some((value.spec_span(), string_assignment_text(id.name@)))
                }
            } else {
                match find_routine(env.routines, key) {
                    Some(k) => if env.routines[k].is_func {
                        Some((id.span, function_assignment_text(id.name@)))
                    } else {
                        Some((id.span, procedure_assignment_text(id.name@)))
                    },
                    None => if resolve_array_spec(env, key) is Some {
                        Some((id.span, whole_array_assignment_text(id.name@)))
                    } else {
                        Some((id.span, unknown_target_text(id.name@)))
                    },
                }
            }
        },
        Expr::IndexAccess { array, .. } => if indexed_array(env, *array) is Some {
            None
        } else {
            Some((target.spec_span(), lvalue_text()))
        },
        _ => Some((target.spec_span(), lvalue_text())),
    }
}

/// The error for a program that uses other units.
#[verifier::opaque]
pub open spec fn uses_text() -> Seq<char> {
    "cross-unit code generation ('USES') is out of scope for this step's minimal codegen"@
}

/// The error for a program with `TYPE` declarations.
#[verifier::opaque]
pub open spec fn type_decls_text() -> Seq<char> {
    "TYPE declarations are out of scope for this step's minimal codegen (only built-in INTEGER/BOOLEAN variables are supported)"@
}

/// The error for `WriteLn` with more than one argument.
#[verifier::opaque]
pub open spec fn writeln_many_text() -> Seq<char> {
    "WriteLn with more than one argument is out of scope for this step's minimal codegen (only 0 or 1 argument(s) are supported)"@
}

/// The error for a call of a built-in procedure other than `WriteLn`.
#[verifier::opaque]
pub open spec fn builtin_call_text(name: Seq<char>) -> Seq<char> {
    "built-in procedure '"@ + name + "' is out of scope for this step's minimal codegen"@
}

/// The error for a function called as a statement.
#[verifier::opaque]
pub open spec fn function_statement_text(name: Seq<char>) -> Seq<char> {
    "'"@ + name + "' is a function; a function cannot be called as a statement (its return value would be discarded)"@
}

/// The error for a call of a procedure that is not declared.
#[verifier::opaque]
pub open spec fn undefined_procedure_text(name: Seq<char>) -> Seq<char> {
    "Undefined procedure '"@ + name + "'"@
}

/// The error a procedure call reports before anything else, where the
/// called name and the number of arguments settle it; `None` otherwise.
pub open spec fn proc_call_error(env: Env, name: Identifier, args: Seq<Expr>, span: Span) -> Option<(Span, Seq<char>)> {
    let key = key_of(name);
    if is_writeln(key) {
        if args.len() > 1 {
            Some((span, writeln_many_text()))
        } else {
            None
        }
    } else if is_unsupported_builtin(key) {
        Some((span, builtin_call_text(name.name@)))
    } else {
        match find_routine(env.routines, key) {
            Some(k) => if env.routines[k].is_func {
                Some((name.span, function_statement_text(name.name@)))
            } else {
                None
            },
            None => Some((name.span, undefined_procedure_text(name.name@))),
        }
    }
}

/// The error for an expression form that is not supported.
#[verifier::opaque]
pub open spec fn unsupported_text(what: Seq<char>) -> Seq<char> {
    what + " are out of scope for this step's minimal codegen"@
}

/// The first error that generating `e` reports, where it is settled
/// without a function call: the first unsupported part, in the order the
/// code is generated; `None` when `e` is supported or its first error
/// comes from a function call.
#[verifier::opaque]
pub open spec fn expr_first_error(env: Env, e: Expr) -> Option<(Span, Seq<char>)>
    decreases e,
{
    match e {
        Expr::IntLiteral(v, sp) => if fits_word(v as int) {
            None
        } else {
            Some((sp, int_overflow_text(v as int)))
        },
        Expr::HexIntLiteral(v, sp) => if fits_word(v as int) {
            None
        } else {
            Some((sp, int_overflow_text(v as int)))
        },
        Expr::BoolLiteral(..) => None,
        Expr::Identifier(id) => if ident_ok(env, id) {
            None
        } else {
            Some((id.span, ident_error_text(env, id)))
        },
        Expr::BinaryOp { op, lhs, rhs, span } => if !expr_ok(env, *lhs) {
            expr_first_error(env, *lhs)
        } else if !expr_ok(env, *rhs) {
            expr_first_error(env, *rhs)
        } else if op == BinOp::Div {
            Some((span, real_division_text()))
        } else {
            None
        },
        Expr::UnaryOp { operand, .. } => expr_first_error(env, *operand),
        Expr::Paren(inner, _) => expr_first_error(env, *inner),
        Expr::FuncCall { .. } => None,
        Expr::RealLiteral(_, sp) => Some((sp, unsupported_text("REAL literals"@))),
        Expr::StringLiteral(_, sp) => Some((sp, unsupported_text("STRING literals"@))),
        Expr::NilLiteral(sp) => Some((sp, unsupported_text("NIL / pointer values"@))),
        Expr::IndexAccess { array, index, span } => if indexed_array(env, *array) is Some {
            expr_first_error(env, *index)
        } else {
            Some((span, unsupported_text("array indexing"@)))
        },
        Expr::FieldAccess { span, .. } => Some((span, unsupported_text("record field access"@))),
        Expr::Deref { span, .. } => Some((span, unsupported_text("pointer dereference"@))),
    }
}

/// Whether, with no error before, generating `e` reports `err` first.
pub closed spec fn reports_first(g: CodeGenerator, err: Option<(Span, Seq<char>)>) -> bool {
    err matches Some(e) ==> g.diagnostics@.len() > 0 && error_at(g.diagnostics@[0], e.0, e.1)
}

/// For an assignment to a target that can be assigned, the first error of
/// the expressions it generates: the index of an array element, then the
/// value; `None` otherwise.
pub open spec fn assignment_value_error(env: Env, target: Expr, value: Expr) -> Option<(Span, Seq<char>)> {
    match target {
        Expr::Identifier(id) => {
            let key = key_of(id);
            if (env.scope matches Some(sc) && sc.is_function && sc.function_name == key) || resolve_var_spec(env, key) is Some {
                expr_first_error(env, value)
            } else {
                None
            }
        },
        Expr::IndexAccess { array, index, .. } => if indexed_array(env, *array) is Some {
            if !expr_ok(env, *index) {
                expr_first_error(env, *index)
            } else {
                expr_first_error(env, value)
            }
        } else {
            None
        },
        _ => None,
    }
}

/// Whether `ds` are errors at the places and with the messages of `es`,
/// in order.
pub open spec fn errors_are(ds: Seq<Diagnostic>, es: Seq<(Span, Seq<char>)>) -> bool {
    &&& ds.len() == es.len()
    &&& forall|i: int| 0 <= i < ds.len() ==> #[trigger] error_at(ds[i], es[i].0, es[i].1)
}

/// The error for a constant that is neither `INTEGER` nor `BOOLEAN`.
#[verifier::opaque]
pub open spec fn const_text(name: Seq<char>) -> Seq<char> {
    "CONST '"@ + name + "': only INTEGER/BOOLEAN constants are supported by this step's minimal codegen"@
}

/// The errors of constant declarations: one for each constant that is
/// neither `INTEGER` nor `BOOLEAN`, at its value.
pub open spec fn const_errors(decls: Seq<ConstDecl>) -> Seq<(Span, Seq<char>)>
    decreases decls.len(),
{
    if decls.len() == 0 {
        Seq::empty()
    } else {
        let rest = const_errors(decls.drop_last());
        let d = decls.last();
        match d.value {
            Literal::Real(_, sp) => rest.push((sp, const_text(d.name.name@))),
            Literal::Str(_, sp) => rest.push((sp, const_text(d.name.name@))),
            _ => rest,
        }
    }
}

/// The errors of global variable declarations: one for each declaration of
/// a type that is not supported, at its type.
pub open spec fn var_errors(decls: Seq<VarDecl>) -> Seq<(Span, Seq<char>)>
    decreases decls.len(),
{
    if decls.len() == 0 {
        Seq::empty()
    } else {
        let rest = var_errors(decls.drop_last());
        let d = decls.last();
        if var_type_ok(d.ty) {
            rest
        } else {
            rest.push((d.ty.spec_span(), unsupported_var_text(d.ty)))
        }
    }
}

/// The error for a local `STRING[n]` variable.
#[verifier::opaque]
pub open spec fn local_string_text() -> Seq<char> {
    "STRING[n] local variables are out of scope for this step's minimal codegen (only global STRING[n] variables are supported)"@
}

/// The error for a local variable or a parameter of type `ty`, which is
/// not supported: `what` names which.
pub open spec fn type_error_text(what: Seq<char>, ty: TypeExpr) -> Seq<char> {
    what + "'"@ + type_description(ty) + "'"@
        + " is out of scope for this step's minimal codegen (only INTEGER/BOOLEAN are supported)"@
}

/// The errors of a routine's local variable declarations: one for each
/// declaration of a type other than `INTEGER` and `BOOLEAN`, at its type.
pub open spec fn local_errors(decls: Seq<VarDecl>) -> Seq<(Span, Seq<char>)>
    decreases decls.len(),
{
    if decls.len() == 0 {
        Seq::empty()
    } else {
        let rest = local_errors(decls.drop_last());
        let d = decls.last();
        if value_kind_of(d.ty) is Some {
            rest
        } else {
            rest.push((d.ty.spec_span(), if d.ty is StringN { local_string_text() } else { type_error_text("local VAR type "@, d.ty) }))
        }
    }
}

/// The errors of a routine's parameters: one for each parameter of a type
/// other than `INTEGER` and `BOOLEAN`, at its type.
pub open spec fn param_errors(ps: Seq<ParamDecl>) -> Seq<(Span, Seq<char>)>
    decreases ps.len(),
{
    if ps.len() == 0 {
        Seq::empty()
    } else {
        let rest = param_errors(ps.drop_last());
        let d = ps.last();
        if value_kind_of(d.ty) is Some {
            rest
        } else {
            rest.push((d.ty.spec_span(), type_error_text("parameter type "@, d.ty)))
        }
    }
}

/// The error for a second routine of the same name.
#[verifier::opaque]
pub open spec fn duplicate_text(name: Seq<char>) -> Seq<char> {
    "'"@ + name + "' is already declared"@
}

/// The errors registering routine `k` gives: its unsupported result type
/// (a function's); then, for a second routine of a name already taken,
/// that error, else the errors of its local variables and parameters.
pub open spec fn routine_errors(p: Program, k: int) -> Seq<(Span, Seq<char>)> {
    let name = routine_name(p, k);
    (if routine_is_func(p, k) && routine_return_kind(p, k) is None {
        let t = p.func_decls@[k - p.proc_decls@.len()].return_type;
        seq![(t.spec_span(), type_error_text("FUNCTION return type "@, t))]
    } else {
        Seq::empty()
    }) + if exists|j: int| 0 <= j < k && #[trigger] key_of(routine_name(p, j)) == key_of(name) {
        seq![(name.span, duplicate_text(name.name@))]
    } else {
        local_errors(routine_vars(p, k)) + param_errors(routine_params(p, k))
    }
}

/// The errors registering the first `n` routines gives, in order.
pub open spec fn reg_errors(p: Program, n: int) -> Seq<(Span, Seq<char>)>
    decreases n,
{
    if n <= 0 {
        Seq::empty()
    } else {
        reg_errors(p, n - 1) + routine_errors(p, n - 1)
    }
}

/// The errors a program's own declarations give, before any routine: its
/// `USES`, its `TYPE` declarations, its constants, its variables.
pub open spec fn head_errors(p: Program) -> Seq<(Span, Seq<char>)> {
    (if p.uses@.len() > 0 { seq![(p.span, uses_text())] } else { Seq::empty() })
        + (if p.type_decls@.len() > 0 { seq![(p.span, type_decls_text())] } else { Seq::empty() })
        + const_errors(p.const_decls@) + var_errors(p.var_decls@)
}

/// The errors of a program's declarations, in the order they are
/// reported: its own, then each routine's.
pub open spec fn decl_errors(p: Program) -> Seq<(Span, Seq<char>)> {
    head_errors(p) + reg_errors(p, n_routines(p))
}

proof fn lemma_errors_concat(ds: Seq<Diagnostic>, n: int, a: Seq<(Span, Seq<char>)>, b: Seq<(Span, Seq<char>)>)
    requires
        0 <= n <= ds.len(),
        errors_are(ds.take(n), a),
        errors_are(ds.skip(n), b),
    ensures
        errors_are(ds, a + b),
{
    assert forall|i: int| 0 <= i < ds.len() implies #[trigger] error_at(ds[i], (a + b)[i].0, (a + b)[i].1) by {
        if i < n {
            assert(ds.take(n)[i] == ds[i]);
        } else {
            assert(ds.skip(n)[i - n] == ds[i]);
        }
    }
}

/// The first error that generating `s` reports, where the statement alone
/// settles it: a `CASE` statement, an assignment whose target cannot be
/// assigned or whose expressions report one, a call of a name that cannot
/// be called as a procedure, or an `IF` or `WHILE` whose condition reports
/// one; `None` otherwise.
#[verifier::opaque]
pub open spec fn stmt_first_error(env: Env, s: Statement) -> Option<(Span, Seq<char>)> {
    match s {
        Statement::Case { span, .. } => Some((span, case_text())),
        Statement::Assignment { target, value, .. } => match assignment_error(env, target, value) {
            Some(e) => Some(e),
            None => assignment_value_error(env, target, value),
        },
        Statement::If { cond, .. } => expr_first_error(env, cond),
        Statement::While { cond, .. } => expr_first_error(env, cond),
        Statement::ProcCall { name, args, span } => proc_call_error(env, name, args@, span),
        _ => None,
    }
}

/// Whether the first statement of `ss` that is not supported is one
/// whose first error is `e`.
pub open spec fn first_unsupported_reports(env: Env, base: int, st: GenState, ss: Seq<Statement>, e: (Span, Seq<char>)) -> bool {
    exists|j: int| 0 <= j < ss.len() && stmts_ok(env, base, st, ss.take(j)) && #[trigger] stmt_first_error(env, ss[j]) == Some(e)
}

/// What the code generator knows of a routine.
struct RoutineInfo {
    /// The routine's name in ASCII lower case.
    key: String,
    /// The routine's first instruction, once its body has started.
    entry: CodeAddress,
    entry_known: bool,
    params: Vec<FrameSlot>,
    is_func: bool,
    return_address: Option<Address>,
    return_kind: ValueKind,
    /// Words of local variables and `FOR` temporaries.
    data_size: u16,
    /// Words of declared local variables; the temporaries follow them.
    declared_local_words: u16,
    /// The names of the routine's body: locals, then parameters.
    locals: Vec<(String, FrameSlot)>,
}

/// The routine whose body is being generated.
struct LocalScope {
    is_function: bool,
    function_name: String,
    return_address: Option<Address>,
    locals: Vec<(String, FrameSlot)>,
    /// The next temporary's offset in the activation record.
    next_temp_address: u16,
}

pub open spec fn names_view<V>(s: Seq<(String, V)>) -> Seq<(Seq<char>, V)> {
    s.map_values(|e: (String, V)| (e.0@, e.1))
}

impl RoutineInfo {
    spec fn spec(&self) -> RoutineSpec {
        RoutineSpec {
            key: self.key@,
            params: self.params@,
            is_func: self.is_func,
            return_address: self.return_address,
            return_kind: self.return_kind,
            data_size: self.data_size,
            declared_local_words: self.declared_local_words,
            locals: names_view(self.locals@),
        }
    }
}

impl LocalScope {
    spec fn spec(&self) -> ScopeSpec {
        ScopeSpec {
            is_function: self.is_function,
            function_name: self.function_name@,
            return_address: self.return_address,
            locals: names_view(self.locals@),
        }
    }
}

/// Whether a symbolic instruction calls routine `k`.
pub open spec fn calls(c: SInstr, k: int) -> bool {
    match c {
        SInstr::Call(j, _) => j == k,
        _ => false,
    }
}

/// The code generator. Each [`CodeGenerator::generate`] starts afresh,
/// so one generator can be used again.
pub struct CodeGenerator {
    instructions: Vec<Instruction>,
    /// The instructions with their calls left symbolic.
    code: Ghost<Seq<SInstr>>,
    diagnostics: Vec<Diagnostic>,
    vars: Vec<(String, VarSlot)>,
    arrays: Vec<(String, ArraySlot)>,
    strings: Vec<(String, StrSlot)>,
    consts: Vec<(String, ConstValue)>,
    next_address: u16,
    routines: Vec<RoutineInfo>,
    /// Calls not patched yet: the callee's index and the call's index.
    pending_calls: Vec<(usize, usize)>,
    current_scope: Option<LocalScope>,
    string_pool: Vec<String>,
}

impl CodeGenerator {
    pub closed spec fn routines_view(&self) -> Seq<RoutineSpec> {
        self.routines@.map_values(|r: RoutineInfo| r.spec())
    }

    /// The names in scope.
    pub closed spec fn env(&self) -> Env {
        Env {
            vars: names_view(self.vars@),
            arrays: names_view(self.arrays@),
            strings: names_view(self.strings@),
            consts: names_view(self.consts@),
            routines: self.routines_view(),
            scope: match self.current_scope {
                Some(sc) => Some(sc.spec()),
                None => None,
            },
        }
    }

    /// The next temporary and the string pool.
    pub closed spec fn gstate(&self) -> GenState {
        GenState {
            temp: match self.current_scope {
                Some(sc) => sc.next_temp_address as int,
                None => self.next_address as int,
            },
            pool: pool_view(self.string_pool@),
        }
    }

    /// The entry of each routine so far; zero for those whose body has
    /// not started.
    pub closed spec fn cur_entries(&self) -> Seq<CodeAddress> {
        Seq::new(
            self.routines.len() as nat,
            |k: int|
                if self.routines@[k].entry_known {
                    self.routines@[k].entry
                } else {
                    CodeAddress(0)
                },
        )
    }

    pub closed spec fn inv(&self) -> bool {
        &&& self.instructions@.len() == self.code@.len()
        &&& forall|i: int| 0 <= i < self.code@.len() ==> #[trigger] self.instructions@[i] == resolve(self.code@[i], self.cur_entries())
        &&& forall|i: int, k: int| 0 <= i < self.code@.len() && #[trigger] calls(self.code@[i], k) ==> 0 <= k < self.routines.len()
        &&& forall|j: int| 0 <= j < self.pending_calls.len() ==> {
            let (k, i) = #[trigger] self.pending_calls@[j];
            &&& k < self.routines.len()
            &&& i < self.code@.len()
            &&& calls(self.code@[i as int], k as int)
            &&& !self.routines@[k as int].entry_known
        }
        &&& forall|i: int, k: int| 0 <= i < self.code@.len() && #[trigger] calls(self.code@[i], k) && !self.routines@[k].entry_known
            ==> self.pending_calls@.contains((k as usize, i as usize))
        &&& self.current_scope matches Some(sc) ==> (sc.is_function ==> sc.return_address is Some)
        &&& forall|i: int| 0 <= i < self.diagnostics@.len() ==> (#[trigger] self.diagnostics@[i]).severity == Severity::Error
    }

    /// The instructions only grew: the first `old.len()` are as they were;
/// so did the diagnostics.
    pub closed spec fn extends_code(&self, old: &CodeGenerator) -> bool {
        &&& old.code@.len() <= self.code@.len()
        &&& forall|i: int| 0 <= i < old.code@.len() ==> #[trigger] self.code@[i] == old.code@[i]
        &&& self.routines.len() == old.routines.len()
        &&& self.routines_view() == old.routines_view()
        &&& forall|k: int| 0 <= k < self.routines.len() ==> #[trigger] self.routines@[k].entry_known
            == old.routines@[k].entry_known && self.routines@[k].entry == old.routines@[k].entry
        &&& (self.current_scope is Some <==> old.current_scope is Some)
        &&& old.current_scope is Some ==> self.next_address == old.next_address
        &&& old.diagnostics@.len() <= self.diagnostics@.len()
        &&& forall|i: int| 0 <= i < old.diagnostics@.len() ==> #[trigger] self.diagnostics@[i] == old.diagnostics@[i]
    }

    /// What generating `c` leaves, from `old`: the code grew (and the
    /// routines are as they were); with no error before, the code grew by
    /// exactly `c` and no error was raised when `ok`, and an error was
    /// raised when not. Errors are never taken back.
    pub closed spec fn generated(&self, old: CodeGenerator, ok: bool, c: Seq<SInstr>) -> bool {
        &&& self.inv()
        &&& self.extends_code(&old)
        &&& self.diagnostics@.len() >= old.diagnostics@.len()
        &&& (old.diagnostics@.len() == 0 && ok) ==> (self.diagnostics@.len() == 0 && self.code@ == old.code@ + c)
        &&& (old.diagnostics@.len() == 0 && !ok) ==> self.diagnostics@.len() > 0
    }

    /// What generating a statement leaves: as `generated`; the names in
    /// scope unchanged; with no error, the state `r.1`; at most `temps`
    /// more temporaries.
    pub closed spec fn stmt_done(&self, old: CodeGenerator, ok: bool, r: (Seq<SInstr>, GenState), temps: nat) -> bool {
        &&& self.generated(old, ok, r.0)
        &&& self.env() == old.env()
        &&& (old.clean() && ok) ==> self.gstate() == r.1
        &&& old.gstate().temp <= self.gstate().temp <= old.gstate().temp + temps
    }

    /// Whether no error has been raised.
    pub closed spec fn clean(&self) -> bool {
        self.diagnostics@.len() == 0
    }

    /// Nothing generated, registered or declared yet.
    pub closed spec fn is_fresh(&self) -> bool {
        &&& self.instructions@.len() == 0
        &&& self.code@.len() == 0
        &&& self.diagnostics@.len() == 0
        &&& self.vars@.len() == 0
        &&& self.arrays@.len() == 0
        &&& self.strings@.len() == 0
        &&& self.consts@.len() == 0
        &&& self.next_address == 0
        &&& self.routines@.len() == 0
        &&& self.pending_calls@.len() == 0
        &&& self.current_scope is None
        &&& self.string_pool@.len() == 0
    }

    /// A fresh generator.
    pub fn new() -> (g: CodeGenerator)
        ensures
            g.inv(),
            g.is_fresh(),
    {
        CodeGenerator {
            instructions: Vec::new(),
            code: Ghost(Seq::empty()),
            diagnostics: Vec::new(),
            vars: Vec::new(),
            arrays: Vec::new(),
            strings: Vec::new(),
            consts: Vec::new(),
            next_address: 0,
            routines: Vec::new(),
            pending_calls: Vec::new(),
            current_scope: None,
            string_pool: Vec::new(),
        }
    }

    fn error(&mut self, span: Span, message: String)
        requires
            old(self).inv(),
        ensures
            final(self).inv(),
            final(self).vars == old(self).vars,
            final(self).arrays == old(self).arrays,
            final(self).strings == old(self).strings,
            final(self).consts == old(self).consts,
            final(self).next_address == old(self).next_address,
            final(self).routines == old(self).routines,
            final(self).pending_calls == old(self).pending_calls,
            final(self).current_scope == old(self).current_scope,
            final(self).string_pool == old(self).string_pool,
            final(self).instructions == old(self).instructions,
            final(self).diagnostics@.len() == old(self).diagnostics@.len() + 1,
            one_error_added(final(self).diagnostics@, old(self).diagnostics@, span, message@),
            final(self).code == old(self).code,
            final(self).env() == old(self).env(),
            final(self).gstate() == old(self).gstate(),
            final(self).extends_code(old(self)),
    {
        self.diagnostics.push(Diagnostic::new(span, Severity::Error, message));
        proof {
            assert(self.diagnostics@.drop_last() =~= old(self).diagnostics@);
            assert(self.code@.subrange(0, self.code@.len() as int) =~= self.code@);
        }
    }

    /// The index the next instruction gets.
    fn here(&self) -> (r: CodeAddress)
        ensures
            r == CodeAddress(self.instructions@.len() as u32),
    {
        CodeAddress(self.instructions.len() as u32)
    }

    /// Appends an instruction; returns its index.
    fn emit(&mut self, opcode: Opcode, span: Span) -> (r: usize)
        requires
            old(self).inv(),
        ensures
            final(self).inv(),
            r == old(self).code@.len(),
            final(self).code@ == old(self).code@.push(SInstr::Op(opcode, span)),
            final(self).diagnostics == old(self).diagnostics,
            final(self).env() == old(self).env(),
            final(self).gstate() == old(self).gstate(),
            final(self).extends_code(old(self)),
    {
        self.instructions.push(Instruction { opcode, span });
        self.code = Ghost(self.code@.push(SInstr::Op(opcode, span)));
        proof {
            assert forall|i: int, k: int| 0 <= i < self.code@.len() && #[trigger] calls(self.code@[i], k)
                && !self.routines@[k].entry_known implies self.pending_calls@.contains((k as usize, i as usize)) by {
                assert(i < old(self).code@.len());
                assert(self.code@[i] == old(self).code@[i]);
            }
            assert forall|i: int| 0 <= i < self.code@.len() implies #[trigger] self.instructions@[i] == resolve(self.code@[i], self.cur_entries()) by {
                if i < old(self).code@.len() {
                    assert(self.code@[i] == old(self).code@[i]);
                }
            }
            assert forall|i: int, k: int| 0 <= i < self.code@.len() && #[trigger] calls(self.code@[i], k) implies 0 <= k < self.routines.len() by {
                assert(i < old(self).code@.len());
                assert(self.code@[i] == old(self).code@[i]);
            }
            assert(self.code@.subrange(0, old(self).code@.len() as int) =~= old(self).code@);
        }
        self.instructions.len() - 1
    }

    fn emit_u(&mut self, op: UnconfirmedOp, span: Span)
        requires
            old(self).inv(),
        ensures
            final(self).inv(),
            final(self).code@ == old(self).code@.push(uop(op, span)),
            final(self).diagnostics == old(self).diagnostics,
            final(self).env() == old(self).env(),
            final(self).gstate() == old(self).gstate(),
            final(self).extends_code(old(self)),
    {
        self.emit(Opcode::Unconfirmed(op), span);
    }

    fn emit_c(&mut self, op: ConfirmedOp, span: Span)
        requires
            old(self).inv(),
        ensures
            final(self).inv(),
            final(self).code@ == old(self).code@.push(cop(op, span)),
            final(self).diagnostics == old(self).diagnostics,
            final(self).env() == old(self).env(),
            final(self).gstate() == old(self).gstate(),
            final(self).extends_code(old(self)),
    {
        self.emit(Opcode::Confirmed(op), span);
    }

    /// Appends a call of routine `k`: to its entry if its body has
    /// started, else to a placeholder patched when it starts.
    fn emit_call(&mut self, k: usize, span: Span)
        requires
            old(self).inv(),
            k < old(self).routines.len(),
        ensures
            final(self).inv(),
            final(self).code@ == old(self).code@.push(SInstr::Call(k as int, span)),
            final(self).diagnostics == old(self).diagnostics,
            final(self).env() == old(self).env(),
            final(self).gstate() == old(self).gstate(),
            final(self).extends_code(old(self)),
    {
        let ghost old_pending = self.pending_calls@;
        let idx = self.instructions.len();
        if self.routines[k].entry_known {
            let entry = self.routines[k].entry;
            self.instructions.push(Instruction { opcode: Opcode::Confirmed(ConfirmedOp::Cpg(entry)), span });
        } else {
            self.instructions.push(Instruction { opcode: Opcode::Confirmed(ConfirmedOp::Cpg(CodeAddress(0))), span });
            self.pending_calls.push((k, idx));
        }
        self.code = Ghost(self.code@.push(SInstr::Call(k as int, span)));
        proof {
            assert forall|i: int, j: int| 0 <= i < self.code@.len() && #[trigger] calls(self.code@[i], j)
                && !self.routines@[j].entry_known implies self.pending_calls@.contains((j as usize, i as usize)) by {
                if i < old(self).code@.len() {
                    assert(self.code@[i] == old(self).code@[i]);
                    let w = choose|w: int| 0 <= w < old_pending.len() && old_pending[w] == (j as usize, i as usize);
                    assert(self.pending_calls@[w] == (j as usize, i as usize));
                } else {
                    assert(self.pending_calls@.last() == (k, idx));
                }
            }
            assert forall|i: int| 0 <= i < self.code@.len() implies #[trigger] self.instructions@[i] == resolve(self.code@[i], self.cur_entries()) by {
                if i < old(self).code@.len() {
                    assert(self.code@[i] == old(self).code@[i]);
                }
            }
            assert forall|i: int, j: int| 0 <= i < self.code@.len() && #[trigger] calls(self.code@[i], j) implies 0 <= j < self.routines.len() by {
                if i < old(self).code@.len() {
                    assert(self.code@[i] == old(self).code@[i]);
                }
            }
            assert forall|w: int| 0 <= w < self.pending_calls.len() implies {
                let (kk, i) = #[trigger] self.pending_calls@[w];
                &&& kk < self.routines.len()
                &&& i < self.code@.len()
                &&& calls(self.code@[i as int], kk as int)
                &&& !self.routines@[kk as int].entry_known
            } by {
                if w < old_pending.len() {
                    let (kk, i) = old_pending[w];
                    assert(self.code@[i as int] == old(self).code@[i as int]);
                }
            }
            assert(self.code@.subrange(0, old(self).code@.len() as int) =~= old(self).code@);
        }
    }

    /// Sets the target of the jump at `idx`.
    fn patch_jump(&mut self, idx: usize, target: CodeAddress)
        requires
            old(self).inv(),
            idx < old(self).code@.len(),
            old(self).code@[idx as int] matches SInstr::Op(o, _) && o.spec_jump_target() is Some,
        ensures
            final(self).inv(),
            final(self).code@ == old(self).code@.update(
                idx as int,
                match old(self).code@[idx as int] {
                    SInstr::Op(o, sp) => SInstr::Op(o.spec_with_target(target), sp),
                    SInstr::Call(k, sp) => SInstr::Call(k, sp),
                },
            ),
            final(self).diagnostics == old(self).diagnostics,
            final(self).env() == old(self).env(),
            final(self).gstate() == old(self).gstate(),
            final(self).routines == old(self).routines,
            final(self).current_scope == old(self).current_scope,
            final(self).next_address == old(self).next_address,
    {
        self.instructions[idx].opcode.set_jump_target(target);
        let ghost new_c = match self.code@[idx as int] {
            SInstr::Op(o, sp) => SInstr::Op(o.spec_with_target(target), sp),
            SInstr::Call(k, sp) => SInstr::Call(k, sp),
        };
        self.code = Ghost(self.code@.update(idx as int, new_c));
        proof {
            assert forall|i: int| 0 <= i < self.code@.len() implies #[trigger] self.instructions@[i] == resolve(self.code@[i], self.cur_entries()) by {
                if i != idx {
                    assert(self.code@[i] == old(self).code@[i]);
                }
            }
            assert forall|i: int, j: int| 0 <= i < self.code@.len() && #[trigger] calls(self.code@[i], j) implies 0 <= j < self.routines.len() by {
                assert(i != idx);
                assert(self.code@[i] == old(self).code@[i]);
            }
            assert forall|i: int, j: int| 0 <= i < self.code@.len() && #[trigger] calls(self.code@[i], j)
                && !self.routines@[j].entry_known implies self.pending_calls@.contains((j as usize, i as usize)) by {
                assert(i != idx);
                assert(self.code@[i] == old(self).code@[i]);
            }
            assert forall|w: int| 0 <= w < self.pending_calls.len() implies {
                let (kk, i) = #[trigger] self.pending_calls@[w];
                &&& kk < self.routines.len()
                &&& i < self.code@.len()
                &&& calls(self.code@[i as int], kk as int)
                &&& !self.routines@[kk as int].entry_known
            } by {
                let (kk, i) = self.pending_calls@[w];
                assert(i != idx);
            }
        }
    }
}

/// Growing the code twice grows it.
#[verifier::spinoff_prover]
proof fn lemma_extends_trans(a: &CodeGenerator, b: &CodeGenerator, c: &CodeGenerator)
    requires
        b.extends_code(a),
        c.extends_code(b),
    ensures
        c.extends_code(a),
{
    assert forall|i: int| 0 <= i < a.code@.len() implies #[trigger] c.code@[i] == a.code@[i] by {
        assert(c.code@[i] == b.code@[i]);
    }
    assert forall|i: int| 0 <= i < a.diagnostics@.len() implies #[trigger] c.diagnostics@[i] == a.diagnostics@[i] by {
        assert(c.diagnostics@[i] == b.diagnostics@[i]);
    }
    assert forall|k: int| 0 <= k < c.routines.len() implies #[trigger] c.routines@[k].entry_known
        == a.routines@[k].entry_known && c.routines@[k].entry == a.routines@[k].entry by {
        assert(c.routines@[k].entry_known == b.routines@[k].entry_known);
    }
}

proof fn lemma_gen_seq(
    a: &CodeGenerator,
    b: &CodeGenerator,
    c: &CodeGenerator,
    ok1: bool,
    c1: Seq<SInstr>,
    ok2: bool,
    c2: Seq<SInstr>,
)
    requires
        b.generated(*a, ok1, c1),
        c.generated(*b, ok2, c2),
    ensures
        c.generated(*a, ok1 && ok2, c1 + c2),
{
    lemma_extends_trans(a, b, c);
    if a.diagnostics@.len() == 0 && ok1 && ok2 {
        assert(c.code@ =~= a.code@ + (c1 + c2));
    }
}

proof fn lemma_gen_exact(a: &CodeGenerator, b: &CodeGenerator, c1: Seq<SInstr>)
    requires
        b.inv(),
        b.extends_code(a),
        b.diagnostics == a.diagnostics,
        b.code@ =~= a.code@ + c1,
    ensures
        b.generated(*a, true, c1),
{
}

proof fn lemma_gen_failed(a: &CodeGenerator, b: &CodeGenerator, c1: Seq<SInstr>)
    requires
        b.inv(),
        b.extends_code(a),
        b.diagnostics@.len() > a.diagnostics@.len(),
    ensures
        b.generated(*a, false, c1),
{
}

proof fn lemma_gen_then_exact(
    a: &CodeGenerator,
    b: &CodeGenerator,
    c: &CodeGenerator,
    ok1: bool,
    c1: Seq<SInstr>,
    c2: Seq<SInstr>,
)
    requires
        b.generated(*a, ok1, c1),
        c.inv(),
        c.extends_code(b),
        c.diagnostics == b.diagnostics,
        c.code@ =~= b.code@ + c2,
    ensures
        c.generated(*a, ok1, c1 + c2),
{
    lemma_gen_seq(a, b, c, ok1, c1, true, c2);
}

/// Patching an instruction emitted after `a` keeps the code grown from
/// `a`.
#[verifier::spinoff_prover]
proof fn lemma_patch_extends(a: &CodeGenerator, b: &CodeGenerator, c: &CodeGenerator, idx: int)
    requires
        b.extends_code(a),
        idx >= a.code@.len(),
        c.code@.len() == b.code@.len(),
        forall|i: int| 0 <= i < c.code@.len() && i != idx ==> c.code@[i] == b.code@[i],
        c.routines == b.routines,
        c.current_scope == b.current_scope,
        c.next_address == b.next_address,
        c.diagnostics == b.diagnostics,
    ensures
        c.extends_code(a),
{
    assert forall|i: int| 0 <= i < a.diagnostics@.len() implies #[trigger] c.diagnostics@[i] == a.diagnostics@[i] by {
        assert(c.diagnostics@[i] == b.diagnostics@[i]);
    }
    assert forall|i: int| 0 <= i < a.code@.len() implies #[trigger] c.code@[i] == a.code@[i] by {
        assert(c.code@[i] == b.code@[i]);
    }
    assert(c.routines@ == b.routines@);
    assert forall|k: int| 0 <= k < c.routines.len() implies #[trigger] c.routines@[k].entry_known
        == a.routines@[k].entry_known && c.routines@[k].entry == a.routines@[k].entry by {
        assert(c.routines@[k] == b.routines@[k]);
        assert(b.routines@[k].entry_known == a.routines@[k].entry_known);
    }
}

/// The `FOR` temporaries of a prefix of statements are among those of a
/// longer prefix.
proof fn lemma_for_temps_prefix(ss: Seq<Statement>, i: int, n: int)
    requires
        0 <= i <= n <= ss.len(),
    ensures
        for_temps_stmts(ss.take(i)) <= for_temps_stmts(ss.take(n)),
    decreases n - i,
{
    if i < n {
        lemma_for_temps_prefix(ss, i, n - 1);
        assert(ss.take(n).drop_last() =~= ss.take(n - 1));
    }
}

/// Generating the statements of a sequence one after the other.
proof fn lemma_stmts_step(
    a: &CodeGenerator,
    b: &CodeGenerator,
    c: &CodeGenerator,
    env: Env,
    base: int,
    st: GenState,
    ss: Seq<Statement>,
    i: int,
)
    requires
        0 <= i < ss.len(),
        env == a.env(),
        base == a.code@.len(),
        st == a.gstate(),
        b.stmt_done(*a, stmts_ok(env, base, st, ss.take(i)), stmts_gen(env, base, st, ss.take(i)), for_temps_stmts(ss.take(i))),
        c.stmt_done(
            *b,
            stmt_ok(env, b.code@.len() as int, b.gstate(), ss[i]),
            stmt_gen(env, b.code@.len() as int, b.gstate(), ss[i]),
            for_temps_stmt(ss[i]),
        ),
    ensures
        c.stmt_done(*a, stmts_ok(env, base, st, ss.take(i + 1)), stmts_gen(env, base, st, ss.take(i + 1)), for_temps_stmts(ss.take(i + 1))),
{
    let t = ss.take(i + 1);
    assert(t.drop_last() =~= ss.take(i));
    assert(t.last() == ss[i]);
    lemma_extends_trans(a, b, c);
    let (c1, st1) = stmts_gen(env, base, st, ss.take(i));
    if a.clean() && stmts_ok(env, base, st, ss.take(i)) {
        assert(b.code@.len() == base + c1.len());
        if stmt_ok(env, b.code@.len() as int, b.gstate(), ss[i]) {
            let c2 = stmt_gen(env, b.code@.len() as int, b.gstate(), ss[i]).0;
            assert(c.code@ =~= a.code@ + (c1 + c2));
        }
    }
}

/// `name` in ASCII lower case: names are compared that way.
pub(crate) fn normalize(name: &String) -> (r: String)
    ensures
        r@ == lower_text(name@),
{
    let mut r = String::new();
    let mut i: usize = 0;
    let ghost cs = name@;
    let chars = crate::strings::chars_of(name.as_str());
    while i < chars.len()
        invariant
            chars@ == cs,
            i <= chars.len(),
            r@ == lower_text(cs).take(i as int),
        decreases chars.len() - i,
    {
        crate::strings::string_push(&mut r, lower_char(chars[i]));
        i = i + 1;
        proof {
            assert(r@ =~= lower_text(cs).take(i as int));
        }
    }
    proof {
        assert(lower_text(cs).take(i as int) =~= lower_text(cs));
    }
    r
}

/// The value of the last entry named `key`.
fn lookup<V: Copy>(s: &Vec<(String, V)>, key: &String) -> (r: Option<V>)
    ensures
        r == assoc(names_view(s@), key@),
{
    let mut i = s.len();
    while i > 0
        invariant
            i <= s.len(),
            assoc(names_view(s@), key@) == assoc_upto(names_view(s@), key@, i as int),
        decreases i,
    {
        i = i - 1;
        if s[i].0 == *key {
            return Some(s[i].1);
        }
    }
    None
}

impl CodeGenerator {
    /// The index of the routine named `key`.
    fn find_routine_index(&self, key: &String) -> (r: Option<usize>)
        ensures
            match r {
                Some(k) => find_routine(self.routines_view(), key@) == Some(k as int) && k < self.routines.len(),
                None => find_routine(self.routines_view(), key@) is None,
            },
    {
        let mut i: usize = 0;
        while i < self.routines.len()
            invariant
                i <= self.routines.len(),
                find_routine(self.routines_view(), key@) == find_routine_from(self.routines_view(), key@, i as int),
            decreases self.routines.len() - i,
        {
            if self.routines[i].key == *key {
                return Some(i);
            }
            i = i + 1;
        }
        None
    }

    /// A name resolved in the current scope: locals and parameters first,
    /// then global variables.
    fn resolve_var(&self, key: &String) -> (r: Option<ResolvedVar>)
        ensures
            r == resolve_var_spec(self.env(), key@),
    {
        if let Some(scope) = &self.current_scope {
            if let Some(slot) = lookup(&scope.locals, key) {
                return Some(ResolvedVar { level: Level(0), address: slot.address, by_ref: slot.by_ref });
            }
        }
        if let Some(slot) = lookup(&self.vars, key) {
            let level = if self.current_scope.is_some() {
                Level(1)
            } else {
                Level(0)
            };
            return Some(ResolvedVar { level, address: slot.address, by_ref: false });
        }
        None
    }

    /// An array named by `key`, unless a local or parameter of that name
    /// hides it.
    fn resolve_array(&self, key: &String) -> (r: Option<(Level, ArraySlot)>)
        ensures
            r == resolve_array_spec(self.env(), key@),
    {
        if let Some(scope) = &self.current_scope {
            if lookup(&scope.locals, key).is_some() {
                return None;
            }
        }
        match lookup(&self.arrays, key) {
            Some(a) => {
                let level = if self.current_scope.is_some() {
                    Level(1)
                } else {
                    Level(0)
                };
                Some((level, a))
            },
            None => None,
        }
    }

    /// A `STRING[n]` variable named by `key`, unless a local or parameter
    /// of that name hides it.
    fn resolve_string(&self, key: &String) -> (r: Option<(Level, StrSlot)>)
        ensures
            r == resolve_string_spec(self.env(), key@),
    {
        if let Some(scope) = &self.current_scope {
            if lookup(&scope.locals, key).is_some() {
                return None;
            }
        }
        match lookup(&self.strings, key) {
            Some(v) => {
                let level = if self.current_scope.is_some() {
                    Level(1)
                } else {
                    Level(0)
                };
                Some((level, v))
            },
            None => None,
        }
    }

    /// Stores a string literal into a `STRING[n]` variable: its length,
    /// then one character per word. A literal longer than `n`, or with a
    /// character whose code does not fit a word, is an error.
    fn gen_string_store(&mut self, level: Level, v: StrSlot, text: &String, span: Span)
        requires
            old(self).inv(),
        ensures
            final(self).generated(
                *old(self),
                text@.len() <= v.max_len && chars_fit(text@),
                string_store_code(level, v, text@, span),
            ),
            final(self).env() == old(self).env(),
            final(self).gstate() == old(self).gstate(),
    {
        let chars = crate::strings::chars_of(text.as_str());
        let len = chars.len();
        if len > v.max_len as usize {
            let mut m = "a string literal of length ".to_owned();
            crate::strings::push_digits(&mut m, len as u64);
            push_str(&mut m, " does not fit in a 'STRING[");
            crate::strings::push_digits(&mut m, v.max_len as u64);
            push_str(&mut m, "]' variable");
            self.error(span, m);
            return;
        }
        if !chars_fit_words(&chars) {
            self.error(span, "a string literal character whose code does not fit in a 16-bit p-machine word is out of scope for this step's minimal codegen".to_owned());
            return;
        }
        let ghost env = self.env();
        self.emit_u(UnconfirmedOp::Ldc(len as i16), span);
        let ghost s1 = *self;
        self.emit_u(UnconfirmedOp::Str(level, v.address), span);
        proof {
            lemma_extends_trans(old(self), &s1, self);
            assert(self.code@ =~= old(self).code@ + seq![ldc(text@.len() as int, span), uop(UnconfirmedOp::Str(level, v.address), span)]);
        }
        let ghost s2 = *self;
        let mut i: usize = 0;
        while i < len
            invariant
                i <= len,
                len == chars@.len(),
                len <= v.max_len,
                chars@ == text@,
                chars_fit(text@),
                self.inv(),
                self.extends_code(&s2),
                self.diagnostics == s2.diagnostics,
                self.env() == s2.env(),
                self.gstate() == s2.gstate(),
                self.code@ == s2.code@ + chars_store_code(level, v.address.0 + 1, text@.take(i as int), span),
            decreases len - i,
        {
            let c = chars[i] as u32;
            let addr: u32 = v.address.0 as u32 + 1 + i as u32;
            let ghost before = *self;
            self.emit_u(UnconfirmedOp::Ldc(c as i16), span);
            let ghost mid = *self;
            self.emit_u(UnconfirmedOp::Str(level, Address(addr as u16)), span);
            proof {
                lemma_extends_trans(&before, &mid, self);
                lemma_extends_trans(&s2, &before, self);
                let t = text@.take(i + 1);
                assert(t.drop_last() =~= text@.take(i as int));
                assert(t.last() == text@[i as int]);
                assert(c == text@[i as int] as u32);
                assert(ldc((t.last() as u32) as int, span) == uop(UnconfirmedOp::Ldc(c as i16), span));
                assert(v.address.0 + 1 + t.len() - 1 == addr);
                assert(self.code@ =~= s2.code@ + chars_store_code(level, v.address.0 + 1, t, span));
            }
            i = i + 1;
        }
        proof {
            assert(text@.take(i as int) =~= text@);
            lemma_extends_trans(old(self), &s2, self);
            assert(self.code@ =~= old(self).code@ + string_store_code(level, v, text@, span));
        }
    }

    /// The array that `arr` names, for `arr[i]`.
    fn indexed(&self, arr: &Expr) -> (r: Option<(Level, ArraySlot)>)
        ensures
            r == indexed_array(self.env(), *arr),
    {
        match arr {
            Expr::Identifier(id) => self.resolve_array(&normalize(&id.name)),
            _ => None,
        }
    }

    /// The kind of a name: a local, a global variable, a constant or a
    /// function without parameters.
    fn lookup_kind(&self, key: &String) -> (r: Option<ValueKind>)
        ensures
            r == lookup_kind_spec(self.env(), key@),
    {
        if let Some(scope) = &self.current_scope {
            if let Some(slot) = lookup(&scope.locals, key) {
                return Some(slot.kind);
            }
        }
        if let Some(slot) = lookup(&self.vars, key) {
            return Some(slot.kind);
        }
        if let Some(value) = lookup(&self.consts, key) {
            return match value {
                ConstValue::Int(_) => Some(ValueKind::Int),
                ConstValue::Bool(_) => Some(ValueKind::Bool),
            };
        }
        if let Some(k) = self.find_routine_index(key) {
            if self.routines[k].is_func && self.routines[k].params.len() == 0 {
                return Some(self.routines[k].return_kind);
            }
        }
        None
    }

    /// The kind of an expression, as far as `WriteLn` needs it; `None`
    /// for what is neither `INTEGER` nor `BOOLEAN` or is not supported.
    fn infer_expr_kind(&self, expr: &Expr) -> (r: Option<ValueKind>)
        ensures
            r == infer_kind_spec(self.env(), *expr),
        decreases expr,
    {
        match expr {
            Expr::IntLiteral(..) | Expr::HexIntLiteral(..) => Some(ValueKind::Int),
            Expr::BoolLiteral(..) => Some(ValueKind::Bool),
            Expr::Identifier(ident) => self.lookup_kind(&normalize(&ident.name)),
            Expr::BinaryOp { op, .. } => match op {
                BinOp::Add | BinOp::Sub | BinOp::Mul | BinOp::IntDiv | BinOp::Mod => Some(ValueKind::Int),
                BinOp::Div => None,
                _ => Some(ValueKind::Bool),
            },
            Expr::UnaryOp { op, .. } => match op {
                UnOp::Neg => Some(ValueKind::Int),
                UnOp::Not => Some(ValueKind::Bool),
            },
            Expr::Paren(inner, _) => self.infer_expr_kind(inner),
            Expr::IndexAccess { array, .. } => match self.indexed(array) {
                Some((_, a)) => Some(a.kind),
                None => None,
            },
            Expr::FuncCall { name, .. } => match self.find_routine_index(&normalize(&name.name)) {
                Some(k) => if self.routines[k].is_func {
                    Some(self.routines[k].return_kind)
                } else {
                    None
                },
                None => None,
            },
            _ => None,
        }
    }

    /// A temporary word: in the activation record of the routine being
    /// generated, else in the global data area.
    fn alloc_temp(&mut self) -> (r: ResolvedVar)
        requires
            old(self).inv(),
            old(self).gstate().temp < 65535,
        ensures
            final(self).inv(),
            r == temp_var(old(self).gstate()),
            final(self).gstate() == (GenState { temp: old(self).gstate().temp + 1, pool: old(self).gstate().pool }),
            final(self).code == old(self).code,
            final(self).diagnostics == old(self).diagnostics,
            final(self).env() == old(self).env(),
            final(self).extends_code(old(self)),
    {
        proof {
            assert(self.code@.subrange(0, self.code@.len() as int) =~= self.code@);
        }
        match &mut self.current_scope {
            Some(scope) => {
                let address = Address(scope.next_temp_address);
                scope.next_temp_address = scope.next_temp_address + 1;
                ResolvedVar { level: Level(0), address, by_ref: false }
            },
            None => {
                let address = Address(self.next_address);
                self.next_address = self.next_address + 1;
                ResolvedVar { level: Level(0), address, by_ref: false }
            },
        }
    }

    /// Pushes the value of a variable.
    fn gen_load_resolved(&mut self, r: ResolvedVar, span: Span)
        requires
            old(self).inv(),
        ensures
            final(self).inv(),
            final(self).code@ == old(self).code@ + load_code(r, span),
            final(self).diagnostics == old(self).diagnostics,
            final(self).env() == old(self).env(),
            final(self).gstate() == old(self).gstate(),
            final(self).extends_code(old(self)),
    {
        self.emit_u(UnconfirmedOp::Lod(r.level, r.address), span);
        if r.by_ref {
            let ghost mid = *self;
            self.emit_u(UnconfirmedOp::Ind, span);
            proof {
                lemma_extends_trans(old(self), &mid, self);
            }
        }
        proof {
            assert(self.code@ =~= old(self).code@ + load_code(r, span));
        }
    }

    /// What a store emits before the value: the address of a `VAR`
    /// parameter's variable.
    fn gen_store_prefix(&mut self, r: ResolvedVar, span: Span)
        requires
            old(self).inv(),
        ensures
            final(self).inv(),
            final(self).code@ == old(self).code@ + (if r.by_ref {
                seq![uop(UnconfirmedOp::Lod(r.level, r.address), span)]
            } else {
                Seq::empty()
            }),
            final(self).diagnostics == old(self).diagnostics,
            final(self).env() == old(self).env(),
            final(self).gstate() == old(self).gstate(),
            final(self).extends_code(old(self)),
    {
        if r.by_ref {
            self.emit_u(UnconfirmedOp::Lod(r.level, r.address), span);
        }
        proof {
            assert(self.code@ =~= old(self).code@ + (if r.by_ref {
                seq![uop(UnconfirmedOp::Lod(r.level, r.address), span)]
            } else {
                Seq::empty()
            }));
        }
    }

    /// What a store emits after the value: `STI` through the address, or
    /// `STR` into the variable.
    fn gen_store_suffix(&mut self, r: ResolvedVar, span: Span)
        requires
            old(self).inv(),
        ensures
            final(self).inv(),
            final(self).code@ == old(self).code@.push(
                if r.by_ref {
                    uop(UnconfirmedOp::Sti, span)
                } else {
                    uop(UnconfirmedOp::Str(r.level, r.address), span)
                },
            ),
            final(self).diagnostics == old(self).diagnostics,
            final(self).env() == old(self).env(),
            final(self).gstate() == old(self).gstate(),
            final(self).extends_code(old(self)),
    {
        if r.by_ref {
            self.emit_u(UnconfirmedOp::Sti, span);
        } else {
            self.emit_u(UnconfirmedOp::Str(r.level, r.address), span);
        }
    }

    /// Pushes the address of a variable, for a `VAR` argument.
    fn gen_address_of_resolved(&mut self, r: ResolvedVar, span: Span)
        requires
            old(self).inv(),
        ensures
            final(self).inv(),
            final(self).code@ == old(self).code@ + address_code(r, span),
            final(self).diagnostics == old(self).diagnostics,
            final(self).env() == old(self).env(),
            final(self).gstate() == old(self).gstate(),
            final(self).extends_code(old(self)),
    {
        if r.by_ref {
            self.emit_u(UnconfirmedOp::Lod(r.level, r.address), span);
        } else {
            self.emit_u(UnconfirmedOp::Lda(r.level, r.address), span);
        }
        proof {
            assert(self.code@ =~= old(self).code@ + address_code(r, span));
        }
    }

    /// Pushes an integer constant; one that does not fit a 16-bit word is
    /// an error (and `LDC 0` stands in).
    fn emit_ldc_int(&mut self, value: i64, span: Span)
        requires
            old(self).inv(),
        ensures
            final(self).inv(),
            fits_word(value as int) ==> final(self).code@ == old(self).code@.push(ldc(value as int, span))
                && final(self).diagnostics == old(self).diagnostics,
            !fits_word(value as int) ==> final(self).diagnostics@.len() > old(self).diagnostics@.len()
                && final(self).code@ == old(self).code@.push(ldc(0, span))
                && one_error_added(final(self).diagnostics@, old(self).diagnostics@, span, int_overflow_text(value as int)),
            final(self).diagnostics@.len() >= old(self).diagnostics@.len(),
            final(self).env() == old(self).env(),
            final(self).gstate() == old(self).gstate(),
            final(self).extends_code(old(self)),
    {
        reveal(int_overflow_text);
        if -32768 <= value && value <= 32767 {
            self.emit_u(UnconfirmedOp::Ldc(value as i16), span);
        } else {
            let mut m = "integer constant ".to_owned();
            crate::strings::push_decimal(&mut m, value);
            push_str(&mut m, " does not fit in a 16-bit p-machine word (-32768..=32767)");
            self.error(span, m);
            let ghost mid = *self;
            self.emit_u(UnconfirmedOp::Ldc(0), span);
            proof {
                lemma_extends_trans(old(self), &mid, self);
            }
        }
    }

    /// The opcodes of a binary operator; real division is an error.
    #[verifier::spinoff_prover]
    fn emit_binop(&mut self, op: BinOp, span: Span)
        requires
            old(self).inv(),
        ensures
            final(self).inv(),
            op != BinOp::Div ==> final(self).code@ == old(self).code@ + binop_code(op, span)
                && final(self).diagnostics == old(self).diagnostics,
            op == BinOp::Div ==> final(self).diagnostics@.len() > old(self).diagnostics@.len()
                && final(self).code@ == old(self).code@.push(ldc(0, span))
                && one_error_added(final(self).diagnostics@, old(self).diagnostics@, span, real_division_text()),
            final(self).diagnostics@.len() >= old(self).diagnostics@.len(),
            final(self).env() == old(self).env(),
            final(self).gstate() == old(self).gstate(),
            final(self).extends_code(old(self)),
    {
        reveal(real_division_text);
        let (opcode, negate) = match op {
            BinOp::Div => {
                self.error(
                    span,
                    "real division ('/') is out of scope for this step's minimal codegen (only INTEGER/BOOLEAN are supported)".to_owned(),
                );
                let ghost mid = *self;
                self.emit_u(UnconfirmedOp::Ldc(0), span);
                proof {
                    lemma_extends_trans(old(self), &mid, self);
                }
                return;
            },
            BinOp::Add => (UnconfirmedOp::Adi, false),
            BinOp::Sub => (UnconfirmedOp::Sbi, false),
            BinOp::Mul => (UnconfirmedOp::Mpi, false),
            BinOp::IntDiv => (UnconfirmedOp::Dvi, false),
            BinOp::Mod => (UnconfirmedOp::Mod, false),
            BinOp::Eq => (UnconfirmedOp::Equ, false),
            BinOp::NotEq => (UnconfirmedOp::Neq, false),
            BinOp::Lt => (UnconfirmedOp::Geq, true),
            BinOp::Gt => (UnconfirmedOp::Leq, true),
            BinOp::LtEq => (UnconfirmedOp::Leq, false),
            BinOp::GtEq => (UnconfirmedOp::Geq, false),
            BinOp::And => (UnconfirmedOp::And, false),
            BinOp::Or => (UnconfirmedOp::Ior, false),
        };
        self.emit_u(opcode, span);
        if negate {
            let ghost mid = *self;
            self.emit_u(UnconfirmedOp::Not, span);
            proof {
                lemma_extends_trans(old(self), &mid, self);
            }
        }
        proof {
            assert(self.code@ =~= old(self).code@ + binop_code(op, span));
        }
    }

    /// Adds a string to the pool; returns its index. The same string
    /// twice gets two entries.
    fn intern_string(&mut self, value: String) -> (r: usize)
        requires
            old(self).inv(),
        ensures
            final(self).inv(),
            r == old(self).gstate().pool.len(),
            final(self).gstate() == (GenState { temp: old(self).gstate().temp, pool: old(self).gstate().pool.push(value@) }),
            final(self).code == old(self).code,
            final(self).diagnostics == old(self).diagnostics,
            final(self).env() == old(self).env(),
            final(self).extends_code(old(self)),
    {
        let index = self.string_pool.len();
        self.string_pool.push(value);
        proof {
            assert(pool_view(self.string_pool@) =~= pool_view(old(self).string_pool@).push(value@));
            assert(self.code@.subrange(0, self.code@.len() as int) =~= self.code@);
        }
        index
    }
}

impl CodeGenerator {
    /// Reports an expression the code generator does not support, and
    /// pushes `LDC 0` in its place.
    fn unsupported_expr(&mut self, span: Span, what: &str)
        requires
            old(self).inv(),
        ensures
            final(self).generated(*old(self), false, Seq::empty()),
            final(self).env() == old(self).env(),
            final(self).gstate() == old(self).gstate(),
            one_error_added(final(self).diagnostics@, old(self).diagnostics@, span, unsupported_text(what@)),
    {
        reveal(unsupported_text);
        let mut m = what.to_owned();
        push_str(&mut m, " are out of scope for this step's minimal codegen");
        self.error(span, m);
        let ghost mid = *self;
        self.emit_u(UnconfirmedOp::Ldc(0), span);
        proof {
            lemma_extends_trans(old(self), &mid, self);
        }
    }

    /// Pushes the value of an expression.
    fn gen_expr(&mut self, expr: &Expr)
        requires
            old(self).inv(),
        ensures
            final(self).generated(*old(self), expr_ok(old(self).env(), *expr), expr_code(old(self).env(), *expr)),
            final(self).env() == old(self).env(),
            final(self).gstate() == old(self).gstate(),
            old(self).clean() ==> reports_first(*final(self), expr_first_error(old(self).env(), *expr)),
        decreases expr, 3nat,
    {
        reveal(expr_first_error);
        let ghost env = self.env();
        match expr {
            Expr::IntLiteral(value, span) | Expr::HexIntLiteral(value, span) => {
                self.emit_ldc_int(*value, *span);
                proof {
                    if fits_word(*value as int) {
                        lemma_gen_exact(old(self), self, expr_code(env, *expr));
                    }
                }
            },
            Expr::BoolLiteral(value, span) => {
                self.emit_u(UnconfirmedOp::Ldc(if *value { 1 } else { 0 }), *span);
                proof {
                    assert(self.code@ =~= old(self).code@ + expr_code(env, *expr));
                }
            },
            Expr::Identifier(ident) => self.gen_identifier_load(ident),
            Expr::BinaryOp { op, lhs, rhs, span } => {
                self.gen_expr(lhs);
                let ghost s1 = *self;
                self.gen_expr(rhs);
                let ghost s2 = *self;
                self.emit_binop(*op, *span);
                proof {
                    lemma_gen_seq(old(self), &s1, &s2, expr_ok(env, **lhs), expr_code(env, **lhs), expr_ok(env, **rhs), expr_code(env, **rhs));
                    if *op != BinOp::Div {
                        lemma_gen_exact(&s2, self, binop_code(*op, *span));
                    } else {
                        lemma_gen_failed(&s2, self, binop_code(*op, *span));
                    }
                    lemma_gen_seq(old(self), &s2, self, expr_ok(env, **lhs) && expr_ok(env, **rhs), expr_code(env, **lhs) + expr_code(env, **rhs), *op != BinOp::Div, binop_code(*op, *span));
                    if old(self).clean() {
                        lemma_extends_trans(&s1, &s2, self);
                        if s1.diagnostics@.len() > 0 {
                            assert(self.diagnostics@[0] == s1.diagnostics@[0]);
                        }
                        if s2.diagnostics@.len() > 0 {
                            assert(self.diagnostics@[0] == s2.diagnostics@[0]);
                        }
                    }
                }
            },
            Expr::UnaryOp { op, operand, span } => {
                self.gen_expr(operand);
                let ghost s1 = *self;
                let opcode = match op {
                    UnOp::Neg => UnconfirmedOp::Ngi,
                    UnOp::Not => UnconfirmedOp::Not,
                };
                self.emit_u(opcode, *span);
                proof {
                    lemma_gen_exact(&s1, self, seq![uop(opcode, *span)]);
                    lemma_gen_seq(old(self), &s1, self, expr_ok(env, **operand), expr_code(env, **operand), true, seq![uop(opcode, *span)]);
                    if s1.diagnostics@.len() > 0 {
                        assert(self.diagnostics@[0] == s1.diagnostics@[0]);
                    }
                }
            },
            Expr::Paren(inner, _) => self.gen_expr(inner),
            Expr::FuncCall { name, args, span } => self.gen_func_call(name, args, *span),
            Expr::RealLiteral(_, span) => self.unsupported_expr(*span, "REAL literals"),
            Expr::StringLiteral(_, span) => self.unsupported_expr(*span, "STRING literals"),
            Expr::NilLiteral(span) => self.unsupported_expr(*span, "NIL / pointer values"),
            Expr::IndexAccess { array, index, span } => match self.indexed(array) {
                Some((level, a)) => {
                    self.gen_element_address(level, a, index, *span);
                    let ghost s1 = *self;
                    self.emit_u(UnconfirmedOp::Ind, *span);
                    proof {
                        lemma_gen_then_exact(
                            old(self),
                            &s1,
                            self,
                            expr_ok(env, **index),
                            element_address_code(level, a, expr_code(env, **index), *span),
                            seq![uop(UnconfirmedOp::Ind, *span)],
                        );
                    }
                },
                None => self.unsupported_expr(*span, "array indexing"),
            },
            Expr::FieldAccess { span, .. } => self.unsupported_expr(*span, "record field access"),
            Expr::Deref { span, .. } => self.unsupported_expr(*span, "pointer dereference"),
        }
    }

    /// Pushes the address of element `index` of array `a`: its address,
    /// plus the index, minus the low bound.
    fn gen_element_address(&mut self, level: Level, a: ArraySlot, index: &Expr, span: Span)
        requires
            old(self).inv(),
        ensures
            final(self).generated(
                *old(self),
                expr_ok(old(self).env(), *index),
                element_address_code(level, a, expr_code(old(self).env(), *index), span),
            ),
            final(self).env() == old(self).env(),
            final(self).gstate() == old(self).gstate(),
            old(self).clean() ==> reports_first(*final(self), expr_first_error(old(self).env(), *index)),
        decreases index, 4nat,
    {
        let ghost env = self.env();
        self.emit_u(UnconfirmedOp::Lda(level, a.address), span);
        let ghost s1 = *self;
        self.gen_expr(index);
        let ghost s2 = *self;
        self.emit_u(UnconfirmedOp::Ldc(a.low), span);
        let ghost s3 = *self;
        self.emit_u(UnconfirmedOp::Sbi, span);
        let ghost s4 = *self;
        self.emit_u(UnconfirmedOp::Adi, span);
        proof {
            let pre = seq![uop(UnconfirmedOp::Lda(level, a.address), span)];
            let post = seq![ldc(a.low as int, span), uop(UnconfirmedOp::Sbi, span), uop(UnconfirmedOp::Adi, span)];
            assert((a.low as int) as i16 == a.low);
            assert(old(self).code@.push(uop(UnconfirmedOp::Lda(level, a.address), span)) =~= old(self).code@ + pre);
            lemma_gen_exact(old(self), &s1, pre);
            lemma_gen_seq(old(self), &s1, &s2, true, pre, expr_ok(env, *index), expr_code(env, *index));
            lemma_extends_trans(&s2, &s3, &s4);
            lemma_extends_trans(&s2, &s4, self);
            assert(self.code@ =~= s2.code@ + post);
            lemma_gen_then_exact(old(self), &s2, self, expr_ok(env, *index), pre + expr_code(env, *index), post);
            assert(pre + expr_code(env, *index) + post =~= element_address_code(level, a, expr_code(env, *index), span));
            if s2.diagnostics@.len() > 0 {
                assert(self.diagnostics@[0] == s2.diagnostics@[0]);
            }
        }
    }

    /// A name on its own in an expression: a variable, a constant, or a
    /// function without parameters, which is called (the Pascal way of
    /// calling a function without arguments).
    fn gen_identifier_load(&mut self, ident: &Identifier)
        requires
            old(self).inv(),
        ensures
            final(self).generated(*old(self), ident_ok(old(self).env(), *ident), ident_code(old(self).env(), *ident)),
            !ident_ok(old(self).env(), *ident) ==> final(self).code@ == old(self).code@.push(ldc(0, ident.span))
                && one_error_added(final(self).diagnostics@, old(self).diagnostics@, ident.span, ident_error_text(old(self).env(), *ident)),
            final(self).env() == old(self).env(),
            final(self).gstate() == old(self).gstate(),
    {
        reveal(ident_error_text);
        let ghost env = self.env();
        let key = normalize(&ident.name);
        if let Some(resolved) = self.resolve_var(&key) {
            self.gen_load_resolved(resolved, ident.span);
            return;
        }
        if let Some(value) = lookup(&self.consts, &key) {
            match value {
                ConstValue::Int(v) => {
                    self.emit_ldc_int(v, ident.span);
                    proof {
                        if fits_word(v as int) {
                            lemma_gen_exact(old(self), self, ident_code(env, *ident));
                        }
                    }
                },
                ConstValue::Bool(b) => {
                    self.emit_u(UnconfirmedOp::Ldc(if b { 1 } else { 0 }), ident.span);
                    proof {
                        assert(self.code@ =~= old(self).code@ + ident_code(env, *ident));
                    }
                },
            }
            return;
        }
        if let Some(k) = self.find_routine_index(&key) {
            if self.routines[k].is_func {
                if self.routines[k].params.len() == 0 {
                    self.emit_call(k, ident.span);
                    proof {
                        assert(self.code@ =~= old(self).code@ + ident_code(env, *ident));
                    }
                } else {
                    let mut m = "Function '".to_owned();
                    push_str(&mut m, ident.name.as_str());
                    push_str(&mut m, "' expects ");
                    crate::strings::push_digits(&mut m, self.routines[k].params.len() as u64);
                    push_str(&mut m, " argument(s), found 0");
                    self.error(ident.span, m);
                    let ghost mid = *self;
                    self.emit_u(UnconfirmedOp::Ldc(0), ident.span);
                    proof {
                        lemma_extends_trans(old(self), &mid, self);
                    }
                }
            } else {
                let mut m = "'".to_owned();
                push_str(&mut m, ident.name.as_str());
                push_str(&mut m, "' is a procedure; procedures cannot be used in an expression");
                self.error(ident.span, m);
                let ghost mid = *self;
                self.emit_u(UnconfirmedOp::Ldc(0), ident.span);
                proof {
                    lemma_extends_trans(old(self), &mid, self);
                }
            }
            return;
        }
        let mut m = "'".to_owned();
        push_str(&mut m, ident.name.as_str());
        if self.resolve_string(&key).is_some() {
            push_str(
                &mut m,
                "' is a STRING[n] variable; only assigning it a string literal and writing it with WriteLn are supported in this step's minimal codegen",
            );
        } else if self.resolve_array(&key).is_some() {
            push_str(
                &mut m,
                "' is an array; whole-array values are out of scope for this step's minimal codegen (only indexed elements are supported)",
            );
        } else {
            push_str(&mut m, "' is not a known constant or variable in this scope");
        }
        self.error(ident.span, m);
        let ghost mid = *self;
        self.emit_u(UnconfirmedOp::Ldc(0), ident.span);
        proof {
            lemma_extends_trans(old(self), &mid, self);
        }
    }

    /// A function call in an expression: the arguments, then `CPG`; the
    /// result word is left on the stack.
    fn gen_func_call(&mut self, name: &Identifier, args: &Vec<Expr>, span: Span)
        requires
            old(self).inv(),
        ensures
            final(self).generated(
                *old(self),
                match find_routine(old(self).env().routines, key_of(*name)) {
                    Some(k) => old(self).env().routines[k].is_func && args_ok(old(self).env(), old(self).env().routines[k].params, args@),
                    None => false,
                },
                match find_routine(old(self).env().routines, key_of(*name)) {
                    Some(k) => args_code(old(self).env(), old(self).env().routines[k].params, args@, span) + seq![SInstr::Call(k, span)],
                    None => Seq::empty(),
                },
            ),
            final(self).env() == old(self).env(),
            final(self).gstate() == old(self).gstate(),
        decreases args, 2nat,
    {
        let ghost env = self.env();
        let key = normalize(&name.name);
        match self.find_routine_index(&key) {
            Some(k) => {
                if self.routines[k].is_func {
                    let params = self.routines[k].params.clone();
                    self.gen_call_args(&params, args, name, span);
                    let ghost s1 = *self;
                    self.emit_call(k, span);
                    proof {
                        lemma_gen_exact(&s1, self, seq![SInstr::Call(k as int, span)]);
                        lemma_gen_seq(old(self), &s1, self, args_ok(env, params@, args@), args_code(env, params@, args@, span), true, seq![SInstr::Call(k as int, span)]);
                    }
                } else {
                    let mut m = "'".to_owned();
                    push_str(&mut m, name.name.as_str());
                    push_str(&mut m, "' is a procedure; procedures cannot be used in an expression");
                    self.error(name.span, m);
                    let ghost mid = *self;
                    self.gen_args_anyway(args);
                    let ghost mid2 = *self;
                    self.emit_u(UnconfirmedOp::Ldc(0), span);
                    proof {
                        lemma_extends_trans(old(self), &mid, &mid2);
                        lemma_extends_trans(old(self), &mid2, self);
                    }
                }
            },
            None => {
                let mut m = "Undefined identifier '".to_owned();
                push_str(&mut m, name.name.as_str());
                push_str(&mut m, "'");
                self.error(name.span, m);
                let ghost mid = *self;
                self.gen_args_anyway(args);
                let ghost mid2 = *self;
                self.emit_u(UnconfirmedOp::Ldc(0), span);
                proof {
                    lemma_extends_trans(old(self), &mid, &mid2);
                    lemma_extends_trans(old(self), &mid2, self);
                }
            },
        }
    }

    /// Generates the arguments of a call that is already in error, so
    /// that their own errors are reported too.
    fn gen_args_anyway(&mut self, args: &Vec<Expr>)
        requires
            old(self).inv(),
        ensures
            final(self).generated(*old(self), exprs_ok(old(self).env(), args@), exprs_code(old(self).env(), args@)),
            final(self).env() == old(self).env(),
            final(self).gstate() == old(self).gstate(),
        decreases args, 0nat,
    {
        let ghost env = self.env();
        proof {
            lemma_gen_exact(&*self, &*self, Seq::empty());
        }
        let mut i: usize = 0;
        while i < args.len()
            invariant
                i <= args.len(),
                env == old(self).env(),
                self.generated(*old(self), exprs_ok(env, args@.take(i as int)), exprs_code(env, args@.take(i as int))),
                self.env() == old(self).env(),
                self.gstate() == old(self).gstate(),
            decreases args.len() - i,
        {
            let ghost before = *self;
            proof {
                assert(decreases_to!(args => args@[i as int]));
            }
            self.gen_expr(&args[i]);
            proof {
                lemma_gen_seq(
                    old(self),
                    &before,
                    self,
                    exprs_ok(env, args@.take(i as int)),
                    exprs_code(env, args@.take(i as int)),
                    expr_ok(env, args@[i as int]),
                    expr_code(env, args@[i as int]),
                );
                let next = args@.take(i + 1);
                assert(next.drop_last() =~= args@.take(i as int));
                assert(next.last() == args@[i as int]);
            }
            i = i + 1;
        }
        proof {
            assert(args@.take(i as int) =~= args@);
        }
    }

    /// The arguments of a call, in order: the address of the variable for
    /// a `VAR` parameter, the value otherwise. A count that does not
    /// match the parameters is an error.
    fn gen_call_args(&mut self, params: &Vec<FrameSlot>, args: &Vec<Expr>, callee: &Identifier, span: Span)
        requires
            old(self).inv(),
        ensures
            final(self).generated(*old(self), args_ok(old(self).env(), params@, args@), args_code(old(self).env(), params@, args@, span)),
            final(self).env() == old(self).env(),
            final(self).gstate() == old(self).gstate(),
        decreases args, 1nat,
    {
        let ghost env = self.env();
        if args.len() != params.len() {
            let mut m = "'".to_owned();
            push_str(&mut m, callee.name.as_str());
            push_str(&mut m, "' expects ");
            crate::strings::push_digits(&mut m, params.len() as u64);
            push_str(&mut m, " argument(s), found ");
            crate::strings::push_digits(&mut m, args.len() as u64);
            self.error(span, m);
            let ghost mid = *self;
            self.gen_args_anyway(args);
            proof {
                lemma_extends_trans(old(self), &mid, self);
            }
            return;
        }
        let mut i: usize = 0;
        proof {
            assert(self.code@ =~= old(self).code@ + args_code(env, params@.take(0), args@.take(0), span));
            assert(forall|j: int| 0 <= j < old(self).code@.len() ==> #[trigger] self.code@[j] == old(self).code@[j]);
        }
        while i < args.len()
            invariant
                i <= args.len(),
                args.len() == params.len(),
                env == old(self).env(),
                self.generated(*old(self), args_ok(env, params@.take(i as int), args@.take(i as int)), args_code(env, params@.take(i as int), args@.take(i as int), span)),
                self.env() == old(self).env(),
                self.gstate() == old(self).gstate(),
            decreases args.len() - i,
        {
            let ghost before = *self;
            let ghost p = params@[i as int];
            let ghost a = args@[i as int];
            proof {
                assert(decreases_to!(args => args@[i as int]));
                assert(params@.take(i + 1).drop_last() =~= params@.take(i as int));
                assert(args@.take(i + 1).drop_last() =~= args@.take(i as int));
            }
            if params[i].by_ref {
                self.gen_var_arg(&args[i], span);
            } else {
                self.gen_expr(&args[i]);
            }
            proof {
                let c1 = args_code(env, params@.take(i as int), args@.take(i as int), span);
                let c2 = if p.by_ref {
                    match a {
                        Expr::Identifier(id) => match resolve_var_spec(env, key_of(id)) {
                            Some(r) => address_code(r, span),
                            None => Seq::empty(),
                        },
                        _ => Seq::empty(),
                    }
                } else {
                    expr_code(env, a)
                };
                let ok2 = if p.by_ref { var_arg_ok(env, a) } else { expr_ok(env, a) };
                lemma_gen_seq(old(self), &before, self, args_ok(env, params@.take(i as int), args@.take(i as int)), c1, ok2, c2);
            }
            i = i + 1;
        }
        proof {
            assert(params@.take(i as int) =~= params@);
            assert(args@.take(i as int) =~= args@);
        }
    }

    /// A `VAR` argument: the address of a variable.
    fn gen_var_arg(&mut self, arg: &Expr, span: Span)
        requires
            old(self).inv(),
        ensures
            final(self).generated(
                *old(self),
                var_arg_ok(old(self).env(), *arg),
                match *arg {
                    Expr::Identifier(id) => match resolve_var_spec(old(self).env(), key_of(id)) {
                        Some(r) => address_code(r, span),
                        None => Seq::empty(),
                    },
                    _ => Seq::empty(),
                },
            ),
            final(self).env() == old(self).env(),
            final(self).gstate() == old(self).gstate(),
        decreases arg, 4nat,
    {
        match arg {
            Expr::Identifier(ident) => {
                let key = normalize(&ident.name);
                match self.resolve_var(&key) {
                    Some(resolved) => self.gen_address_of_resolved(resolved, span),
                    None => {
                        let mut m = "'".to_owned();
                        push_str(&mut m, ident.name.as_str());
                        push_str(&mut m, "' is not a known variable in this scope");
                        self.error(ident.span, m);
                        let ghost mid = *self;
                        self.emit_u(UnconfirmedOp::Ldc(0), span);
                        proof {
                            lemma_extends_trans(old(self), &mid, self);
                        }
                    },
                }
            },
            _ => {
                self.error(
                    arg.span(),
                    "cannot pass an expression as a VAR argument (only a simple variable reference is supported by this step's minimal codegen)".to_owned(),
                );
                let ghost mid = *self;
                self.gen_expr(arg);
                proof {
                    lemma_extends_trans(old(self), &mid, self);
                }
            },
        }
    }
}

impl CodeGenerator {
    /// Statements in sequence.
    fn gen_stmts(&mut self, ss: &Vec<Statement>)
        requires
            old(self).inv(),
            old(self).gstate().temp + for_temps_stmts(ss@) <= 65535,
        ensures
            final(self).stmt_done(
                *old(self),
                stmts_ok(old(self).env(), old(self).code@.len() as int, old(self).gstate(), ss@),
                stmts_gen(old(self).env(), old(self).code@.len() as int, old(self).gstate(), ss@),
                for_temps_stmts(ss@),
            ),
            forall|e: (Span, Seq<char>)| old(self).clean() && #[trigger] first_unsupported_reports(old(self).env(), old(self).code@.len() as int, old(self).gstate(), ss@, e)
                ==> final(self).diagnostics@.len() > 0 && error_at(final(self).diagnostics@[0], e.0, e.1),
        decreases ss, 0nat,
    {
        let ghost env = self.env();
        let ghost base = self.code@.len() as int;
        let ghost st = self.gstate();
        let mut i: usize = 0;
        proof {
            assert(ss@.take(0) =~= Seq::<Statement>::empty());
            assert(self.code@ =~= old(self).code@ + Seq::<SInstr>::empty());
        }
        while i < ss.len()
            invariant
                i <= ss.len(),
                env == old(self).env(),
                base == old(self).code@.len(),
                st == old(self).gstate(),
                old(self).gstate().temp + for_temps_stmts(ss@) <= 65535,
                self.stmt_done(
                    *old(self),
                    stmts_ok(env, base, st, ss@.take(i as int)),
                    stmts_gen(env, base, st, ss@.take(i as int)),
                    for_temps_stmts(ss@.take(i as int)),
                ),
                forall|e: (Span, Seq<char>)| old(self).clean() && #[trigger] first_unsupported_reports(env, base, st, ss@.take(i as int), e)
                    ==> self.diagnostics@.len() > 0 && error_at(self.diagnostics@[0], e.0, e.1),
            decreases ss.len() - i,
        {
            let ghost before = *self;
            proof {
                lemma_for_temps_prefix(ss@, i + 1, ss.len() as int);
                assert(ss@.take(ss.len() as int) =~= ss@);
                assert(ss@.take(i + 1).drop_last() =~= ss@.take(i as int));
                assert(decreases_to!(ss => ss@[i as int]));
            }
            self.gen_stmt(&ss[i]);
            proof {
                lemma_stmts_step(old(self), &before, self, env, base, st, ss@, i as int);
                assert forall|e: (Span, Seq<char>)| old(self).clean() && #[trigger] first_unsupported_reports(env, base, st, ss@.take(i + 1), e)
                    implies self.diagnostics@.len() > 0 && error_at(self.diagnostics@[0], e.0, e.1) by {
                    let j = choose|j: int| 0 <= j < ss@.take(i + 1).len() && stmts_ok(env, base, st, ss@.take(i + 1).take(j))
                        && #[trigger] stmt_first_error(env, ss@.take(i + 1)[j]) == Some(e);
                    assert(ss@.take(i + 1).take(j) =~= ss@.take(j));
                    if j < i {
                        assert(ss@.take(i as int).take(j) =~= ss@.take(j));
                        assert(stmt_first_error(env, ss@.take(i as int)[j]) == Some(e));
                        assert(first_unsupported_reports(env, base, st, ss@.take(i as int), e));
                        assert(error_at(before.diagnostics@[0], e.0, e.1));
                        assert(self.diagnostics@[0] == before.diagnostics@[0]);
                    } else {
                        assert(j == i);
                        assert(ss@.take(i + 1)[j] == ss@[i as int]);
                        assert(before.clean());
                        assert(stmt_first_error(env, ss@[i as int]) == Some(e));
                    }
                }
            }
            i = i + 1;
        }
        proof {
            assert(ss@.take(i as int) =~= ss@);
            assert forall|e: (Span, Seq<char>)| old(self).clean() && #[trigger] first_unsupported_reports(env, base, st, ss@, e)
                implies self.diagnostics@.len() > 0 && error_at(self.diagnostics@[0], e.0, e.1) by {
                assert(first_unsupported_reports(env, base, st, ss@.take(i as int), e));
            }
        }
    }

    /// One statement.
    fn gen_stmt(&mut self, stmt: &Statement)
        requires
            old(self).inv(),
            old(self).gstate().temp + for_temps_stmt(*stmt) <= 65535,
        ensures
            final(self).stmt_done(
                *old(self),
                stmt_ok(old(self).env(), old(self).code@.len() as int, old(self).gstate(), *stmt),
                stmt_gen(old(self).env(), old(self).code@.len() as int, old(self).gstate(), *stmt),
                for_temps_stmt(*stmt),
            ),
            match *stmt {
                Statement::Case { span, .. } => final(self).code == old(self).code
                    && one_error_added(final(self).diagnostics@, old(self).diagnostics@, span, case_text()),
                _ => true,
            },
            old(self).clean() ==> match stmt_first_error(old(self).env(), *stmt) {
                Some(e) => final(self).diagnostics@.len() > 0 && error_at(final(self).diagnostics@[0], e.0, e.1),
                None => true,
            },
        decreases stmt, 1nat,
    {
        reveal(case_text);
        reveal(stmt_first_error);
        match stmt {
            Statement::Assignment { .. } => self.gen_assignment(stmt),
            Statement::If { .. } => self.gen_if(stmt),
            Statement::While { .. } => self.gen_while(stmt),
            Statement::For { .. } => self.gen_for(stmt),
            Statement::Repeat { .. } => self.gen_repeat(stmt),
            Statement::Compound(block) => {
                proof {
                    assert(decreases_to!(stmt => block.statements));
                }
                self.gen_stmts(&block.statements)
            },
            Statement::CompilerDirective { .. } => {
                // A compiler directive has no meaning at run time.
                proof {
                    assert(self.code@ =~= old(self).code@ + Seq::<SInstr>::empty());
                }
            },
            Statement::Case { span, .. } => {
                self.error(*span, "CASE statements are out of scope for this step's minimal codegen".to_owned());
            },
            Statement::ProcCall { .. } => self.gen_proc_call(stmt),
        }
    }

    /// `target := value`. In a function's body, an assignment to the
    /// function's own name sets its result.
    fn gen_assignment(&mut self, stmt: &Statement)
        requires
            old(self).inv(),
            stmt is Assignment,
        ensures
            final(self).stmt_done(
                *old(self),
                stmt_ok(old(self).env(), old(self).code@.len() as int, old(self).gstate(), *stmt),
                stmt_gen(old(self).env(), old(self).code@.len() as int, old(self).gstate(), *stmt),
                for_temps_stmt(*stmt),
            ),
            match *stmt {
                Statement::Assignment { target, value, .. } => match assignment_error(old(self).env(), target, value) {
                    Some(e) => final(self).diagnostics@.len() > old(self).diagnostics@.len()
                        && error_at(final(self).diagnostics@[old(self).diagnostics@.len() as int], e.0, e.1),
                    None => true,
                },
                _ => true,
            },
            old(self).clean() ==> reports_first(
                *final(self),
                match *stmt {
                    Statement::Assignment { target, value, .. } => assignment_value_error(old(self).env(), target, value),
                    _ => None,
                },
            ),
    {
        reveal(function_assignment_text);
        reveal(procedure_assignment_text);
        reveal(whole_array_assignment_text);
        reveal(unknown_target_text);
        reveal(string_assignment_text);
        reveal(lvalue_text);
        let ghost env = self.env();
        if let Statement::Assignment { target, value, span } = stmt {
            let ident = match target {
                Expr::Identifier(ident) => ident,
                Expr::IndexAccess { array, index, .. } => {
                    match self.indexed(array) {
                        Some((level, a)) => {
                            self.gen_element_address(level, a, index, *span);
                            let ghost s1 = *self;
                            self.gen_expr(value);
                            let ghost s2 = *self;
                            self.emit_u(UnconfirmedOp::Sti, *span);
                            proof {
                                lemma_extends_trans(&s1, &s2, self);
                                if s1.diagnostics@.len() > 0 {
                                    assert(self.diagnostics@[0] == s1.diagnostics@[0]);
                                }
                                if s2.diagnostics@.len() > 0 {
                                    assert(self.diagnostics@[0] == s2.diagnostics@[0]);
                                }
                                let c1 = element_address_code(level, a, expr_code(env, **index), *span);
                                lemma_gen_seq(old(self), &s1, &s2, expr_ok(env, **index), c1, expr_ok(env, *value), expr_code(env, *value));
                                lemma_gen_then_exact(
                                    old(self),
                                    &s2,
                                    self,
                                    expr_ok(env, **index) && expr_ok(env, *value),
                                    c1 + expr_code(env, *value),
                                    seq![uop(UnconfirmedOp::Sti, *span)],
                                );
                            }
                        },
                        None => {
                            self.error(
                                target.span(),
                                "assignment targets other than a simple variable or an element of a global array (record/pointer lvalues) are out of scope for this step's minimal codegen".to_owned(),
                            );
                        },
                    }
                    return;
                },
                _ => {
                    self.error(
                        target.span(),
                        "assignment targets other than a simple variable or an element of a global array (record/pointer lvalues) are out of scope for this step's minimal codegen".to_owned(),
                    );
                    return;
                },
            };
            let key = normalize(&ident.name);
            let sets_result = match &self.current_scope {
                Some(scope) => scope.is_function && scope.function_name == key,
                None => false,
            };
            if sets_result {
                let return_address = match &self.current_scope {
                    Some(scope) => match scope.return_address {
                        Some(a) => a,
                        None => Address(0),
                    },
                    None => Address(0),
                };
                self.gen_expr(value);
                let ghost s1 = *self;
                self.emit_u(UnconfirmedOp::Str(Level(0), return_address), *span);
                proof {
                    lemma_gen_then_exact(old(self), &s1, self, expr_ok(env, *value), expr_code(env, *value), seq![uop(UnconfirmedOp::Str(Level(0), return_address), *span)]);
                    if s1.diagnostics@.len() > 0 {
                        assert(self.diagnostics@[0] == s1.diagnostics@[0]);
                    }
                }
                return;
            }
            match self.resolve_var(&key) {
                Some(resolved) => {
                    self.gen_store_prefix(resolved, *span);
                    let ghost s1 = *self;
                    self.gen_expr(value);
                    let ghost s2 = *self;
                    self.gen_store_suffix(resolved, *span);
                    proof {
                        lemma_extends_trans(&s1, &s2, self);
                        if s2.diagnostics@.len() > 0 {
                            assert(self.diagnostics@[0] == s2.diagnostics@[0]);
                        }
                        let pre = if resolved.by_ref {
                            seq![uop(UnconfirmedOp::Lod(resolved.level, resolved.address), *span)]
                        } else {
                            Seq::empty()
                        };
                        let post = seq![if resolved.by_ref {
                            uop(UnconfirmedOp::Sti, *span)
                        } else {
                            uop(UnconfirmedOp::Str(resolved.level, resolved.address), *span)
                        }];
                        lemma_gen_exact(old(self), &s1, pre);
                        lemma_gen_seq(old(self), &s1, &s2, true, pre, expr_ok(env, *value), expr_code(env, *value));
                        lemma_gen_then_exact(old(self), &s2, self, expr_ok(env, *value), pre + expr_code(env, *value), post);
                        assert(pre + expr_code(env, *value) + post =~= store_code(resolved, *span, expr_code(env, *value)));
                    }
                },
                None => {
                    if let Some((level, v)) = self.resolve_string(&key) {
                        match value {
                            Expr::StringLiteral(text, _) => {
                                self.gen_string_store(level, v, text, *span);
                            },
                            _ => {
                                let mut m = "assigning anything but a string literal to the STRING[n] variable '".to_owned();
                                push_str(&mut m, ident.name.as_str());
                                push_str(&mut m, "' is out of scope for this step's minimal codegen");
                                self.error(value.span(), m);
                            },
                        }
                        return;
                    }
                    let mut m = "'".to_owned();
                    let is_array = self.resolve_array(&key).is_some();
                    match self.find_routine_index(&key) {
                        Some(k) => {
                            if self.routines[k].is_func {
                                m = "Cannot assign to function '".to_owned();
                                push_str(&mut m, ident.name.as_str());
                                push_str(&mut m, "' outside of its own body");
                            } else {
                                m = "Cannot assign to procedure '".to_owned();
                                push_str(&mut m, ident.name.as_str());
                                push_str(&mut m, "'");
                            }
                        },
                        None => {
                            if is_array {
                                m = "whole-array assignment to '".to_owned();
                                push_str(&mut m, ident.name.as_str());
                                push_str(
                                    &mut m,
                                    "' is out of scope for this step's minimal codegen (only indexed elements can be assigned)",
                                );
                            } else {
                                push_str(&mut m, ident.name.as_str());
                                push_str(&mut m, "' is not a known variable in this scope");
                            }
                        },
                    }
                    self.error(ident.span, m);
                    let ghost mid = *self;
                    self.gen_expr(value);
                    proof {
                        lemma_extends_trans(old(self), &mid, self);
                        let n = old(self).diagnostics@.len() as int;
                        assert(self.diagnostics@[n] == mid.diagnostics@[n]);
                    }
                },
            }
        }
    }

    /// `IF cond THEN a ELSE b`: the condition, `FJP` to the else branch
    /// (or past the then branch), the then branch, `UJP` past the else
    /// branch, the else branch.
    #[verifier::rlimit(60)]
    #[verifier::spinoff_prover]
    fn gen_if(&mut self, stmt: &Statement)
        requires
            old(self).inv(),
            stmt is If,
            old(self).gstate().temp + for_temps_stmt(*stmt) <= 65535,
        ensures
            final(self).stmt_done(
                *old(self),
                stmt_ok(old(self).env(), old(self).code@.len() as int, old(self).gstate(), *stmt),
                stmt_gen(old(self).env(), old(self).code@.len() as int, old(self).gstate(), *stmt),
                for_temps_stmt(*stmt),
            ),
            old(self).clean() ==> reports_first(
                *final(self),
                match *stmt {
                    Statement::If { cond, .. } => expr_first_error(old(self).env(), cond),
                    _ => None,
                },
            ),
        decreases stmt, 0nat,
    {
        let ghost env = self.env();
        let ghost base = self.code@.len() as int;
        let ghost st = self.gstate();
        if let Statement::If { cond, then_branch, else_branch, span } = stmt {
            self.gen_expr(cond);
            let ghost s1 = *self;
            let fjp0 = Opcode::Unconfirmed(UnconfirmedOp::Fjp(CodeAddress(0)));
            let skip_then = self.emit(fjp0, *span);
            let ghost s2 = *self;
            self.gen_stmt(then_branch);
            let ghost s3 = *self;
            proof {
                lemma_extends_trans(&s1, &s2, &s3);
                lemma_extends_trans(old(self), &s1, &s2);
                lemma_extends_trans(old(self), &s2, &s3);
            }
            let ghost c = expr_code(env, *cond);
            let ghost okc = expr_ok(env, *cond);
            let ghost then_base = base + c.len() + 1;
            let ghost (ct, st1) = stmt_gen(env, then_base, st, **then_branch);
            let ghost okt = stmt_ok(env, then_base, st, **then_branch);
            match else_branch {
                Some(e) => {
                    let ujp0 = Opcode::Unconfirmed(UnconfirmedOp::Ujp(CodeAddress(0)));
                    let skip_else = self.emit(ujp0, *span);
                    let ghost s4 = *self;
                    proof {
                        lemma_extends_trans(&s2, &s3, &s4);
                        lemma_extends_trans(old(self), &s3, &s4);
                    }
                    let h = self.here();
                    self.patch_jump(skip_then, h);
                    let ghost s5 = *self;
                    proof {
                        lemma_patch_extends(old(self), &s4, &s5, skip_then as int);
                    }
                    self.gen_stmt(e);
                    let ghost s6 = *self;
                    proof {
                        lemma_extends_trans(old(self), &s5, &s6);
                    }
                    let h2 = self.here();
                    self.patch_jump(skip_else, h2);
                    proof {
                        lemma_patch_extends(old(self), &s6, self, skip_else as int);
                        lemma_extends_trans(&s1, &s3, &s4);
                        lemma_patch_extends(&s1, &s4, &s5, skip_then as int);
                        lemma_extends_trans(&s1, &s5, &s6);
                        lemma_patch_extends(&s1, &s6, self, skip_else as int);
                        if s1.diagnostics@.len() > 0 {
                            assert(self.diagnostics@[0] == s1.diagnostics@[0]);
                        }
                        let else_base = then_base + ct.len() + 1;
                        let (ce, st2) = stmt_gen(env, else_base, st1, **e);
                        let oke = stmt_ok(env, else_base, st1, **e);
                        if old(self).clean() && okc {
                            assert(s1.code@ == old(self).code@ + c);
                            assert(s2.code@.len() == then_base);
                            if okt {
                                assert(s3.code@ == s2.code@ + ct);
                                assert(s4.code@.len() == else_base);
                                assert(s5.code@ =~= old(self).code@ + c + seq![fjp(else_base, *span)] + ct + seq![SInstr::Op(ujp0, *span)]);
                                if oke {
                                    assert(s6.code@ == s5.code@ + ce);
                                    assert(self.code@ =~= old(self).code@ + (c + seq![fjp(else_base, *span)] + ct + seq![ujp(else_base + ce.len(), *span)] + ce));
                                }
                            }
                        }
                    }
                },
                None => {
                    let h = self.here();
                    self.patch_jump(skip_then, h);
                    proof {
                        lemma_patch_extends(old(self), &s3, self, skip_then as int);
                        lemma_patch_extends(&s1, &s3, self, skip_then as int);
                        if s1.diagnostics@.len() > 0 {
                            assert(self.diagnostics@[0] == s1.diagnostics@[0]);
                        }
                        if old(self).clean() && okc {
                            assert(s1.code@ == old(self).code@ + c);
                            assert(s2.code@.len() == then_base);
                            if okt {
                                assert(s3.code@ == s2.code@ + ct);
                                assert(self.code@ =~= old(self).code@ + (c + seq![fjp(then_base + ct.len(), *span)] + ct));
                            }
                        }
                    }
                },
            }
        }
    }
}

impl CodeGenerator {
    /// `WHILE cond DO body`: the condition, `FJP` past the loop, the body,
    /// `UJP` back to the condition.
    fn gen_while(&mut self, stmt: &Statement)
        requires
            old(self).inv(),
            stmt is While,
            old(self).gstate().temp + for_temps_stmt(*stmt) <= 65535,
        ensures
            final(self).stmt_done(
                *old(self),
                stmt_ok(old(self).env(), old(self).code@.len() as int, old(self).gstate(), *stmt),
                stmt_gen(old(self).env(), old(self).code@.len() as int, old(self).gstate(), *stmt),
                for_temps_stmt(*stmt),
            ),
            old(self).clean() ==> reports_first(
                *final(self),
                match *stmt {
                    Statement::While { cond, .. } => expr_first_error(old(self).env(), cond),
                    _ => None,
                },
            ),
        decreases stmt, 0nat,
    {
        let ghost env = self.env();
        let ghost base = self.code@.len() as int;
        let ghost st = self.gstate();
        if let Statement::While { cond, body, span } = stmt {
            let loop_start = self.here();
            self.gen_expr(cond);
            let ghost s1 = *self;
            let fjp0 = Opcode::Unconfirmed(UnconfirmedOp::Fjp(CodeAddress(0)));
            let exit_loop = self.emit(fjp0, *span);
            let ghost s2 = *self;
            self.gen_stmt(body);
            let ghost s3 = *self;
            self.emit_u(UnconfirmedOp::Ujp(loop_start), *span);
            let ghost s4 = *self;
            proof {
                lemma_extends_trans(&s1, &s2, &s3);
                lemma_extends_trans(&s2, &s3, &s4);
                lemma_extends_trans(old(self), &s1, &s2);
                lemma_extends_trans(old(self), &s2, &s3);
                lemma_extends_trans(old(self), &s3, &s4);
            }
            let h = self.here();
            self.patch_jump(exit_loop, h);
            proof {
                lemma_patch_extends(old(self), &s4, self, exit_loop as int);
                lemma_extends_trans(&s1, &s3, &s4);
                lemma_patch_extends(&s1, &s4, self, exit_loop as int);
                if s1.diagnostics@.len() > 0 {
                    assert(self.diagnostics@[0] == s1.diagnostics@[0]);
                }
                let c = expr_code(env, *cond);
                let body_base = base + c.len() + 1;
                let (cb, st1) = stmt_gen(env, body_base, st, **body);
                if old(self).clean() && expr_ok(env, *cond) {
                    assert(s1.code@ == old(self).code@ + c);
                    assert(s2.code@.len() == body_base);
                    if stmt_ok(env, body_base, st, **body) {
                        assert(s3.code@ == s2.code@ + cb);
                        assert(self.code@ =~= old(self).code@ + (c + seq![fjp(body_base + cb.len() + 1, *span)] + cb + seq![ujp(base, *span)]));
                    }
                }
            }
        }
    }

    /// `REPEAT body UNTIL cond`: the body, the condition, `FJP` back to the
    /// body.
    fn gen_repeat(&mut self, stmt: &Statement)
        requires
            old(self).inv(),
            stmt is Repeat,
            old(self).gstate().temp + for_temps_stmt(*stmt) <= 65535,
        ensures
            final(self).stmt_done(
                *old(self),
                stmt_ok(old(self).env(), old(self).code@.len() as int, old(self).gstate(), *stmt),
                stmt_gen(old(self).env(), old(self).code@.len() as int, old(self).gstate(), *stmt),
                for_temps_stmt(*stmt),
            ),
        decreases stmt, 0nat,
    {
        let ghost env = self.env();
        let ghost base = self.code@.len() as int;
        let ghost st = self.gstate();
        if let Statement::Repeat { body, until_cond, span } = stmt {
            let loop_start = self.here();
            proof {
                assert(decreases_to!(stmt => body));
            }
            self.gen_stmts(body);
            let ghost s1 = *self;
            self.gen_expr(until_cond);
            let ghost s2 = *self;
            self.emit_u(UnconfirmedOp::Fjp(loop_start), *span);
            proof {
                let (cb, st1) = stmts_gen(env, base, st, body@);
                let c = expr_code(env, *until_cond);
                lemma_gen_seq(old(self), &s1, &s2, stmts_ok(env, base, st, body@), cb, expr_ok(env, *until_cond), c);
                lemma_gen_then_exact(old(self), &s2, self, stmts_ok(env, base, st, body@) && expr_ok(env, *until_cond), cb + c, seq![fjp(base, *span)]);
            }
        }
    }

    /// `FOR v := a TO b DO body` (or `DOWNTO`): `v := a`; the limit `b`,
    /// evaluated once, into a hidden temporary; the test `v <= limit` (or
    /// `>=`), `FJP` past the loop, the body, `v := v + 1` (or `- 1`),
    /// `UJP` back to the test.
    #[verifier::rlimit(100)]
    #[verifier::spinoff_prover]
    fn gen_for(&mut self, stmt: &Statement)
        requires
            old(self).inv(),
            stmt is For,
            old(self).gstate().temp + for_temps_stmt(*stmt) <= 65535,
        ensures
            final(self).stmt_done(
                *old(self),
                stmt_ok(old(self).env(), old(self).code@.len() as int, old(self).gstate(), *stmt),
                stmt_gen(old(self).env(), old(self).code@.len() as int, old(self).gstate(), *stmt),
                for_temps_stmt(*stmt),
            ),
        decreases stmt, 0nat,
    {
        let ghost env = self.env();
        let ghost base = self.code@.len() as int;
        let ghost st = self.gstate();
        if let Statement::For { var, start, end, direction, body, span } = stmt {
            let key = normalize(&var.name);
            let resolved = match self.resolve_var(&key) {
                Some(r) => r,
                None => {
                    let mut m = "'".to_owned();
                    push_str(&mut m, var.name.as_str());
                    push_str(&mut m, "' is not a known variable in this scope");
                    self.error(var.span, m);
                    return;
                },
            };
            let ghost r = resolved;
            let ghost pre = if r.by_ref {
                seq![uop(UnconfirmedOp::Lod(r.level, r.address), *span)]
            } else {
                Seq::empty()
            };
            let ghost post = seq![if r.by_ref {
                uop(UnconfirmedOp::Sti, *span)
            } else {
                uop(UnconfirmedOp::Str(r.level, r.address), *span)
            }];
            // v := start
            self.gen_store_prefix(resolved, *span);
            let ghost a1 = *self;
            self.gen_expr(start);
            let ghost a2 = *self;
            self.gen_store_suffix(resolved, *span);
            let ghost a3 = *self;
            proof {
                lemma_gen_exact(old(self), &a1, pre);
                lemma_gen_seq(old(self), &a1, &a2, true, pre, expr_ok(env, *start), expr_code(env, *start));
                lemma_gen_then_exact(old(self), &a2, &a3, expr_ok(env, *start), pre + expr_code(env, *start), post);
                assert(pre + expr_code(env, *start) + post =~= store_code(r, *span, expr_code(env, *start)));
            }
            // the limit, into a temporary
            let limit = self.alloc_temp();
            let ghost a4 = *self;
            let ghost lpre = if limit.by_ref {
                seq![uop(UnconfirmedOp::Lod(limit.level, limit.address), *span)]
            } else {
                Seq::empty()
            };
            let ghost lpost = seq![if limit.by_ref {
                uop(UnconfirmedOp::Sti, *span)
            } else {
                uop(UnconfirmedOp::Str(limit.level, limit.address), *span)
            }];
            self.gen_store_prefix(limit, *span);
            let ghost a5 = *self;
            self.gen_expr(end);
            let ghost a6 = *self;
            self.gen_store_suffix(limit, *span);
            let ghost a7 = *self;
            let ghost head = for_head_code(env, st, r, *start, *end, *span);
            proof {
                lemma_gen_then_exact(old(self), &a3, &a4, expr_ok(env, *start), store_code(r, *span, expr_code(env, *start)), Seq::empty());
                lemma_gen_then_exact(old(self), &a4, &a5, expr_ok(env, *start), store_code(r, *span, expr_code(env, *start)) + Seq::empty(), lpre);
                lemma_gen_seq(old(self), &a5, &a6, expr_ok(env, *start), store_code(r, *span, expr_code(env, *start)) + Seq::empty() + lpre, expr_ok(env, *end), expr_code(env, *end));
                lemma_gen_then_exact(old(self), &a6, &a7, expr_ok(env, *start) && expr_ok(env, *end), store_code(r, *span, expr_code(env, *start)) + Seq::empty() + lpre + expr_code(env, *end), lpost);
                assert(store_code(r, *span, expr_code(env, *start)) + Seq::empty() + lpre + expr_code(env, *end) + lpost =~= head);
            }
            // the test
            let loop_start = self.here();
            self.gen_load_resolved(resolved, *span);
            let ghost t1 = *self;
            self.gen_load_resolved(limit, *span);
            let ghost t2 = *self;
            let test_op = match direction {
                ForDirection::To => UnconfirmedOp::Leq,
                ForDirection::DownTo => UnconfirmedOp::Geq,
            };
            self.emit_u(test_op, *span);
            let ghost a8 = *self;
            proof {
                lemma_extends_trans(&a7, &t1, &t2);
                lemma_extends_trans(&a7, &t2, &a8);
            }
            let ghost test = for_test_code(r, limit, *direction, *span);
            proof {
                lemma_gen_then_exact(old(self), &a7, &a8, expr_ok(env, *start) && expr_ok(env, *end), head, test);
            }
            let fjp0 = Opcode::Unconfirmed(UnconfirmedOp::Fjp(CodeAddress(0)));
            let exit_loop = self.emit(fjp0, *span);
            let ghost a9 = *self;
            proof {
                lemma_gen_then_exact(old(self), &a8, &a9, expr_ok(env, *start) && expr_ok(env, *end), head + test, seq![SInstr::Op(fjp0, *span)]);
            }
            // the body
            self.gen_stmt(body);
            let ghost a10 = *self;
            // the step
            self.gen_store_prefix(resolved, *span);
            let ghost u1 = *self;
            self.gen_load_resolved(resolved, *span);
            let ghost u2 = *self;
            self.emit_u(UnconfirmedOp::Ldc(1), *span);
            let ghost u3 = *self;
            let step_op = match direction {
                ForDirection::To => UnconfirmedOp::Adi,
                ForDirection::DownTo => UnconfirmedOp::Sbi,
            };
            self.emit_u(step_op, *span);
            let ghost u4 = *self;
            self.gen_store_suffix(resolved, *span);
            let ghost a11 = *self;
            proof {
                lemma_extends_trans(&a10, &u1, &u2);
                lemma_extends_trans(&a10, &u2, &u3);
                lemma_extends_trans(&a10, &u3, &u4);
                lemma_extends_trans(&a10, &u4, &a11);
            }
            let ghost step = for_step_code(r, *direction, *span);
            proof {
                assert(a11.code@ =~= a10.code@ + step);
            }
            self.emit_u(UnconfirmedOp::Ujp(loop_start), *span);
            let ghost a12 = *self;
            proof {
                lemma_extends_trans(&a10, &a11, &a12);
            }
            let h = self.here();
            self.patch_jump(exit_loop, h);
            proof {
                let ok_head = expr_ok(env, *start) && expr_ok(env, *end);
                let body_base = base + head.len() + test.len() + 1;
                let st1 = GenState { temp: st.temp + 1, pool: st.pool };
                let (cb, st2) = stmt_gen(env, a9.code@.len() as int, a9.gstate(), **body);
                lemma_extends_trans(old(self), &a9, &a10);
                lemma_extends_trans(old(self), &a10, &a12);
                lemma_extends_trans(&a9, &a10, &a12);
                lemma_patch_extends(old(self), &a12, self, exit_loop as int);
                assert(a9.gstate() == st1);
                if old(self).clean() && ok_head {
                    assert(a9.code@ == old(self).code@ + (head + test + seq![SInstr::Op(fjp0, *span)]));
                    assert(a9.code@.len() == body_base);
                    if stmt_ok(env, body_base, st1, **body) {
                        assert(a10.code@ == a9.code@ + cb);
                        assert(self.code@ =~= old(self).code@ + (head + test + seq![fjp(body_base + cb.len() + step.len() + 1, *span)] + cb + step
                            + seq![ujp(base + head.len(), *span)]));
                    }
                }
            }
        }
    }

    /// A procedure call statement: `WriteLn`, another built-in procedure
    /// (not supported), or a procedure of the program.
    fn gen_proc_call(&mut self, stmt: &Statement)
        requires
            old(self).inv(),
            stmt is ProcCall,
        ensures
            final(self).stmt_done(
                *old(self),
                stmt_ok(old(self).env(), old(self).code@.len() as int, old(self).gstate(), *stmt),
                stmt_gen(old(self).env(), old(self).code@.len() as int, old(self).gstate(), *stmt),
                for_temps_stmt(*stmt),
            ),
            match *stmt {
                Statement::ProcCall { name, args, span } => match proc_call_error(old(self).env(), name, args@, span) {
                    Some(e) => final(self).diagnostics@.len() > old(self).diagnostics@.len()
                        && error_at(final(self).diagnostics@[old(self).diagnostics@.len() as int], e.0, e.1),
                    None => true,
                },
                _ => true,
            },
    {
        reveal(builtin_call_text);
        reveal(function_statement_text);
        reveal(undefined_procedure_text);
        let ghost env = self.env();
        if let Statement::ProcCall { name, args, span } = stmt {
            let key = normalize(&name.name);
            if key == "writeln".to_owned() {
                self.gen_writeln_call(args, *span);
                return;
            }
            if key == "write".to_owned() || key == "read".to_owned() || key == "readln".to_owned()
                || key == "new".to_owned() || key == "dispose".to_owned() {
                let mut m = "built-in procedure '".to_owned();
                push_str(&mut m, name.name.as_str());
                push_str(&mut m, "' is out of scope for this step's minimal codegen");
                self.error(*span, m);
                let ghost mid = *self;
                self.gen_args_anyway(args);
                proof {
                    lemma_extends_trans(old(self), &mid, self);
                    let n = old(self).diagnostics@.len() as int;
                    assert(self.diagnostics@[n] == mid.diagnostics@[n]);
                }
                return;
            }
            match self.find_routine_index(&key) {
                Some(k) => {
                    if !self.routines[k].is_func {
                        let params = self.routines[k].params.clone();
                        self.gen_call_args(&params, args, name, *span);
                        let ghost s1 = *self;
                        self.emit_call(k, *span);
                        proof {
                            lemma_gen_then_exact(old(self), &s1, self, args_ok(env, params@, args@), args_code(env, params@, args@, *span), seq![SInstr::Call(k as int, *span)]);
                        }
                    } else {
                        let mut m = "'".to_owned();
                        push_str(&mut m, name.name.as_str());
                        push_str(&mut m, "' is a function; a function cannot be called as a statement (its return value would be discarded)");
                        self.error(name.span, m);
                        let ghost mid = *self;
                        self.gen_args_anyway(args);
                        proof {
                            lemma_extends_trans(old(self), &mid, self);
                            let n = old(self).diagnostics@.len() as int;
                            assert(self.diagnostics@[n] == mid.diagnostics@[n]);
                        }
                    }
                },
                None => {
                    let mut m = "Undefined procedure '".to_owned();
                    push_str(&mut m, name.name.as_str());
                    push_str(&mut m, "'");
                    self.error(name.span, m);
                    let ghost mid = *self;
                    self.gen_args_anyway(args);
                    proof {
                        lemma_extends_trans(old(self), &mid, self);
                        let n = old(self).diagnostics@.len() as int;
                        assert(self.diagnostics@[n] == mid.diagnostics@[n]);
                    }
                },
            }
        }
    }

    /// `WriteLn` through a simplified KERNEL call: no argument prints a
    /// newline; a string literal is added to the string pool and its index
    /// pushed; an `INTEGER` or `BOOLEAN` value is pushed and printed by
    /// kind. Other arguments, and more than one, are not supported.
    fn gen_writeln_call(&mut self, args: &Vec<Expr>, span: Span)
        requires
            old(self).inv(),
        ensures
            final(self).stmt_done(
                *old(self),
                writeln_ok(old(self).env(), old(self).gstate(), args@),
                writeln_gen(old(self).env(), old(self).gstate(), args@, span),
                0,
            ),
            args.len() > 1 ==> final(self).diagnostics@.len() > old(self).diagnostics@.len()
                && error_at(final(self).diagnostics@[old(self).diagnostics@.len() as int], span, writeln_many_text()),
    {
        reveal(writeln_many_text);
        let ghost env = self.env();
        let ghost st = self.gstate();
        if args.len() == 0 {
            self.emit_c(ConfirmedOp::Cxg(KERNEL_SEGMENT, BUILTIN_WRITELN_NONE), span);
            proof {
                assert(self.code@ =~= old(self).code@ + writeln_gen(env, st, args@, span).0);
            }
            return;
        }
        if args.len() > 1 {
            self.error(
                span,
                "WriteLn with more than one argument is out of scope for this step's minimal codegen (only 0 or 1 argument(s) are supported)".to_owned(),
            );
            let ghost mid = *self;
            self.gen_args_anyway(args);
            proof {
                lemma_extends_trans(old(self), &mid, self);
                let n = old(self).diagnostics@.len() as int;
                assert(self.diagnostics@[n] == mid.diagnostics@[n]);
            }
            return;
        }
        match &args[0] {
            Expr::StringLiteral(value, str_span) => {
                let index = self.intern_string(value.clone());
                let ghost s1 = *self;
                if index <= 32767 {
                    self.emit_u(UnconfirmedOp::Ldc(index as i16), *str_span);
                } else {
                    let mut m = "integer constant ".to_owned();
                    crate::strings::push_digits(&mut m, index as u64);
                    push_str(&mut m, " does not fit in a 16-bit p-machine word (-32768..=32767)");
                    self.error(*str_span, m);
                    let ghost m1 = *self;
                    self.emit_u(UnconfirmedOp::Ldc(0), *str_span);
                    proof {
                        lemma_extends_trans(&s1, &m1, self);
                    }
                }
                let ghost s2 = *self;
                self.emit_c(ConfirmedOp::Cxg(KERNEL_SEGMENT, BUILTIN_WRITELN_STRING), span);
                proof {
                    lemma_extends_trans(old(self), &s1, &s2);
                    lemma_extends_trans(old(self), &s2, self);
                    if index <= 32767 {
                        assert(self.code@ =~= old(self).code@ + writeln_gen(env, st, args@, span).0);
                    }
                }
            },
            arg => {
                let string_var = match arg {
                    Expr::Identifier(id) => self.resolve_string(&normalize(&id.name)),
                    _ => None,
                };
                if let Some((level, v)) = string_var {
                    self.emit_u(UnconfirmedOp::Lda(level, v.address), span);
                    let ghost s1 = *self;
                    self.emit_c(ConfirmedOp::Cxg(KERNEL_SEGMENT, BUILTIN_WRITELN_STRVAR), span);
                    proof {
                        lemma_extends_trans(old(self), &s1, self);
                        assert(self.code@ =~= old(self).code@ + writeln_gen(env, st, args@, span).0);
                    }
                    return;
                }
                let kind = self.infer_expr_kind(arg);
                self.gen_expr(arg);
                let ghost s1 = *self;
                let proc = match kind {
                    Some(ValueKind::Int) => BUILTIN_WRITELN_INT,
                    Some(ValueKind::Bool) => BUILTIN_WRITELN_BOOL,
                    None => {
                        self.error(
                            arg.span(),
                            "WriteLn only supports INTEGER/BOOLEAN/string literal arguments in this step's minimal codegen".to_owned(),
                        );
                        BUILTIN_WRITELN_INT
                    },
                };
                let ghost s2 = *self;
                self.emit_c(ConfirmedOp::Cxg(KERNEL_SEGMENT, proc), span);
                proof {
                    lemma_extends_trans(old(self), &s1, &s2);
                    lemma_extends_trans(old(self), &s2, self);
                    if kind is Some {
                        lemma_gen_then_exact(old(self), &s1, self, expr_ok(env, *arg), expr_code(env, *arg), seq![cop(ConfirmedOp::Cxg(KERNEL_SEGMENT, proc), span)]);
                    }
                }
            },
        }
    }
}

/// The number of `FOR` loops in a statement.
fn count_for_temps_stmt(stmt: &Statement) -> (r: u16)
    requires
        for_temps_stmt(*stmt) <= 65535,
    ensures
        r == for_temps_stmt(*stmt),
    decreases stmt, 1nat,
{
    match stmt {
        Statement::For { body, .. } => 1 + count_for_temps_stmt(body),
        Statement::If { then_branch, else_branch, .. } => {
            let t = count_for_temps_stmt(then_branch);
            match else_branch {
                Some(e) => t + count_for_temps_stmt(e),
                None => t,
            }
        },
        Statement::While { body, .. } => count_for_temps_stmt(body),
        Statement::Repeat { body, .. } => {
            proof {
                assert(decreases_to!(stmt => body));
            }
            count_for_temps_stmts(body)
        },
        Statement::Compound(block) => {
            proof {
                assert(decreases_to!(stmt => block.statements));
            }
            count_for_temps_stmts(&block.statements)
        },
        _ => 0,
    }
}

/// The number of `FOR` loops in a sequence of statements.
fn count_for_temps_stmts(ss: &Vec<Statement>) -> (r: u16)
    requires
        for_temps_stmts(ss@) <= 65535,
    ensures
        r == for_temps_stmts(ss@),
    decreases ss, 0nat,
{
    let mut total: u16 = 0;
    let mut i: usize = 0;
    while i < ss.len()
        invariant
            i <= ss.len(),
            for_temps_stmts(ss@) <= 65535,
            total == for_temps_stmts(ss@.take(i as int)),
        decreases ss.len() - i,
    {
        proof {
            lemma_for_temps_prefix(ss@, i + 1, ss.len() as int);
            assert(ss@.take(ss.len() as int) =~= ss@);
            assert(ss@.take(i + 1).drop_last() =~= ss@.take(i as int));
            assert(decreases_to!(ss => ss@[i as int]));
        }
        total = total + count_for_temps_stmt(&ss[i]);
        i = i + 1;
    }
    proof {
        assert(ss@.take(i as int) =~= ss@);
    }
    total
}

/// The kind of a declared type, if it is supported.
pub(crate) fn value_kind_of_type(ty: &TypeExpr) -> (r: Option<ValueKind>)
    ensures
        r == value_kind_of(*ty),
{
    match ty {
        TypeExpr::Integer(_) => Some(ValueKind::Int),
        TypeExpr::Boolean(_) => Some(ValueKind::Bool),
        _ => None,
    }
}

/// How a diagnostic names a type.
fn describe_type(ty: &TypeExpr) -> (r: &'static str)
    ensures
        r@ == type_description(*ty),
{
    match ty {
        TypeExpr::Integer(_) => "INTEGER",
        TypeExpr::Real(_) => "REAL",
        TypeExpr::Boolean(_) => "BOOLEAN",
        TypeExpr::Char(_) => "CHAR",
        TypeExpr::StringN(..) => "STRING[n]",
        TypeExpr::Named(_) => "<named type>",
        TypeExpr::Array { .. } => "ARRAY",
        TypeExpr::Subrange { .. } => "<subrange>",
        TypeExpr::Record { .. } => "RECORD",
        TypeExpr::Pointer(..) => "<pointer>",
    }
}

/// How a diagnostic names a type.
pub open spec fn type_description(ty: TypeExpr) -> Seq<char> {
    match ty {
        TypeExpr::Integer(_) => "INTEGER"@,
        TypeExpr::Real(_) => "REAL"@,
        TypeExpr::Boolean(_) => "BOOLEAN"@,
        TypeExpr::Char(_) => "CHAR"@,
        TypeExpr::StringN(..) => "STRING[n]"@,
        TypeExpr::Named(_) => "<named type>"@,
        TypeExpr::Array { .. } => "ARRAY"@,
        TypeExpr::Subrange { .. } => "<subrange>"@,
        TypeExpr::Record { .. } => "RECORD"@,
        TypeExpr::Pointer(..) => "<pointer>"@,
    }
}

/// `"{before}'{ty}'{after}"`: a message about an unsupported type.
fn type_message(before: &str, ty: &TypeExpr, after: &str) -> (m: String)
    ensures
        m@ == before@ + "'"@ + type_description(*ty) + "'"@ + after@,
{
    let mut m = before.to_owned();
    push_str(&mut m, "'");
    push_str(&mut m, describe_type(ty));
    push_str(&mut m, "'");
    push_str(&mut m, after);
    m
}

impl CodeGenerator {
    /// Records the `INTEGER`/`BOOLEAN` constants; others are errors.
    fn declare_consts(&mut self, decls: &Vec<ConstDecl>)
        requires
            old(self).inv(),
        ensures
            final(self).inv(),
            names_view(final(self).consts@) == names_view(old(self).consts@) + consts_of(decls@),
            final(self).code == old(self).code,
            final(self).instructions == old(self).instructions,
            final(self).routines == old(self).routines,
            final(self).pending_calls == old(self).pending_calls,
            final(self).current_scope == old(self).current_scope,
            final(self).string_pool == old(self).string_pool,
            final(self).vars == old(self).vars,
            final(self).arrays == old(self).arrays,
            final(self).strings == old(self).strings,
            final(self).next_address == old(self).next_address,
            errors_are(final(self).diagnostics@.skip(old(self).diagnostics@.len() as int), const_errors(decls@)),
            keeps(final(self).diagnostics@, old(self).diagnostics@),
            final(self).diagnostics@.len() >= old(self).diagnostics@.len(),
            (forall|i: int| 0 <= i < decls@.len() ==> (#[trigger] decls@[i]).value is Int || decls@[i].value is Bool)
                ==> final(self).diagnostics@.len() == old(self).diagnostics@.len(),
            !(forall|i: int| 0 <= i < decls@.len() ==> (#[trigger] decls@[i]).value is Int || decls@[i].value is Bool)
                ==> final(self).diagnostics@.len() > old(self).diagnostics@.len(),
    {
        let mut i: usize = 0;
        while i < decls.len()
            invariant
                i <= decls.len(),
                self.inv(),
                names_view(self.consts@) == names_view(old(self).consts@) + consts_of(decls@.take(i as int)),
                self.code == old(self).code,
                self.instructions == old(self).instructions,
                self.routines == old(self).routines,
                self.pending_calls == old(self).pending_calls,
                self.current_scope == old(self).current_scope,
                self.string_pool == old(self).string_pool,
                self.vars == old(self).vars,
                self.arrays == old(self).arrays,
                self.strings == old(self).strings,
                self.next_address == old(self).next_address,
                errors_are(self.diagnostics@.skip(old(self).diagnostics@.len() as int), const_errors(decls@.take(i as int))),
                keeps(self.diagnostics@, old(self).diagnostics@),
                self.diagnostics@.len() >= old(self).diagnostics@.len(),
                (forall|j: int| 0 <= j < i ==> (#[trigger] decls@[j]).value is Int || decls@[j].value is Bool)
                    ==> self.diagnostics@.len() == old(self).diagnostics@.len(),
                !(forall|j: int| 0 <= j < i ==> (#[trigger] decls@[j]).value is Int || decls@[j].value is Bool)
                    ==> self.diagnostics@.len() > old(self).diagnostics@.len(),
            decreases decls.len() - i,
        {
            let decl = &decls[i];
            let ghost before = names_view(self.consts@);
            proof {
                assert(decls@.take(i + 1).drop_last() =~= decls@.take(i as int));
            }
            match &decl.value {
                Literal::Int(v, _) => {
                    self.consts.push((normalize(&decl.name.name), ConstValue::Int(*v)));
                    proof {
                        assert(names_view(self.consts@) =~= before.push((key_of(decl.name), ConstValue::Int(*v))));
                    }
                },
                Literal::Bool(b, _) => {
                    self.consts.push((normalize(&decl.name.name), ConstValue::Bool(*b)));
                    proof {
                        assert(names_view(self.consts@) =~= before.push((key_of(decl.name), ConstValue::Bool(*b))));
                    }
                },
                Literal::Real(_, span) | Literal::Str(_, span) => {
                    let mut m = "CONST '".to_owned();
                    push_str(&mut m, decl.name.name.as_str());
                    push_str(&mut m, "': only INTEGER/BOOLEAN constants are supported by this step's minimal codegen");
                    let ghost before_d = self.diagnostics@;
                    self.diagnostics.push(Diagnostic::new(*span, Severity::Error, m));
                    proof {
                        reveal(const_text);
                        let n = old(self).diagnostics@.len() as int;
                        assert(self.diagnostics@.skip(n) =~= before_d.skip(n).push(self.diagnostics@.last()));
                    }
                },
            }
            proof {
                let n = old(self).diagnostics@.len() as int;
                assert(decls@.take(i + 1).last() == decls@[i as int]);
                let es = const_errors(decls@.take(i + 1));
                assert(es == const_errors(decls@.take(i as int)) || es == const_errors(decls@.take(i as int)).push(es.last()));
            }
            proof {
                if !(forall|j: int| 0 <= j < i + 1 ==> (#[trigger] decls@[j]).value is Int || decls@[j].value is Bool) {
                    if forall|j: int| 0 <= j < i ==> (#[trigger] decls@[j]).value is Int || decls@[j].value is Bool {
                        assert(!(decls@[i as int].value is Int || decls@[i as int].value is Bool));
                    }
                }
            }
            i = i + 1;
        }
        proof {
            assert(decls@.take(i as int) =~= decls@);
        }
    }

    /// Gives each global variable of a supported type its words of the
    /// global data area, in order: one for an `INTEGER` or `BOOLEAN`
    /// variable, one per element for an array; others are errors.
    fn declare_vars(&mut self, decls: &Vec<VarDecl>)
        requires
            old(self).inv(),
            old(self).vars@.len() == 0,
            old(self).arrays@.len() == 0,
            old(self).strings@.len() == 0,
            old(self).next_address == 0,
            global_words(decls@) <= 65535,
        ensures
            final(self).inv(),
            names_view(final(self).vars@) == globals_of(decls@),
            names_view(final(self).arrays@) == arrays_of(decls@),
            names_view(final(self).strings@) == strings_of(decls@),
            final(self).next_address == global_words(decls@),
            final(self).code == old(self).code,
            final(self).instructions == old(self).instructions,
            final(self).routines == old(self).routines,
            final(self).pending_calls == old(self).pending_calls,
            final(self).current_scope == old(self).current_scope,
            final(self).string_pool == old(self).string_pool,
            final(self).consts == old(self).consts,
            errors_are(final(self).diagnostics@.skip(old(self).diagnostics@.len() as int), var_errors(decls@)),
            keeps(final(self).diagnostics@, old(self).diagnostics@),
            final(self).diagnostics@.len() >= old(self).diagnostics@.len(),
            (forall|i: int| 0 <= i < decls@.len() ==> var_type_ok((#[trigger] decls@[i]).ty))
                ==> final(self).diagnostics@.len() == old(self).diagnostics@.len(),
            !(forall|i: int| 0 <= i < decls@.len() ==> var_type_ok((#[trigger] decls@[i]).ty))
                ==> final(self).diagnostics@.len() > old(self).diagnostics@.len(),
    {
        let mut i: usize = 0;
        proof {
            lemma_global_words_prefix(decls@, 0, decls@.len() as int);
            assert(decls@.take(decls@.len() as int) =~= decls@);
            assert(names_view(self.vars@) =~= globals_of(decls@.take(0)));
            assert(names_view(self.arrays@) =~= arrays_of(decls@.take(0)));
            assert(names_view(self.strings@) =~= strings_of(decls@.take(0)));
        }
        while i < decls.len()
            invariant
                i <= decls.len(),
                self.inv(),
                global_words(decls@) <= 65535,
                names_view(self.vars@) == globals_of(decls@.take(i as int)),
                names_view(self.arrays@) == arrays_of(decls@.take(i as int)),
                names_view(self.strings@) == strings_of(decls@.take(i as int)),
                self.next_address == global_words(decls@.take(i as int)),
                self.code == old(self).code,
                self.instructions == old(self).instructions,
                self.routines == old(self).routines,
                self.pending_calls == old(self).pending_calls,
                self.current_scope == old(self).current_scope,
                self.string_pool == old(self).string_pool,
                self.consts == old(self).consts,
                errors_are(self.diagnostics@.skip(old(self).diagnostics@.len() as int), var_errors(decls@.take(i as int))),
                keeps(self.diagnostics@, old(self).diagnostics@),
                self.diagnostics@.len() >= old(self).diagnostics@.len(),
                (forall|j: int| 0 <= j < i ==> var_type_ok((#[trigger] decls@[j]).ty))
                    ==> self.diagnostics@.len() == old(self).diagnostics@.len(),
                !(forall|j: int| 0 <= j < i ==> var_type_ok((#[trigger] decls@[j]).ty))
                    ==> self.diagnostics@.len() > old(self).diagnostics@.len(),
            decreases decls.len() - i,
        {
            let decl = &decls[i];
            let ghost prev = globals_of(decls@.take(i as int));
            let ghost prev_arrays = arrays_of(decls@.take(i as int));
            let ghost words = global_words(decls@.take(i as int));
            proof {
                lemma_globals_step(decls@, i as int);
                lemma_global_words_prefix(decls@, i + 1, decls@.len() as int);
                assert(decls@.take(decls@.len() as int) =~= decls@);
            }
            match value_kind_of_type(&decl.ty) {
                Some(kind) => {
                    self.push_globals(&decl.names, kind);
                },
                None => match array_shape_of(&decl.ty) {
                    Some((low, len, kind)) => {
                        proof {
                            assert((low as int) as i16 == low && (len as int) as u16 == len);
                        }
                        self.push_arrays(&decl.names, low, len, kind);
                    },
                    None => match string_len_of_type(&decl.ty) {
                        Some(n) => {
                            self.push_strings(&decl.names, n);
                        },
                        None => {
                            let m = unsupported_var_message(&decl.ty);
                            let ghost before_d = self.diagnostics@;
                            self.diagnostics.push(Diagnostic::new(decl.ty.span(), Severity::Error, m));
                            proof {
                                let n = old(self).diagnostics@.len() as int;
                                assert(self.diagnostics@.skip(n) =~= before_d.skip(n).push(self.diagnostics@.last()));
                            }
                        },
                    },
                },
            }
            proof {
                assert(decls@.take(i + 1).drop_last() =~= decls@.take(i as int));
                assert(decls@.take(i + 1).last() == decls@[i as int]);
                if !(forall|j: int| 0 <= j < i + 1 ==> var_type_ok((#[trigger] decls@[j]).ty)) {
                    if forall|j: int| 0 <= j < i ==> var_type_ok((#[trigger] decls@[j]).ty) {
                        assert(!var_type_ok(decls@[i as int].ty));
                    }
                }
            }
            i = i + 1;
        }
        proof {
            assert(decls@.take(i as int) =~= decls@);
        }
    }
}

/// The globals of one more declaration.
proof fn lemma_globals_step(decls: Seq<VarDecl>, i: int)
    requires
        0 <= i < decls.len(),
    ensures
        ({
            let t = decls.take(i + 1);
            let u = decls.take(i);
            let d = decls[i];
            let words = global_words(u);
            match value_kind_of(d.ty) {
                Some(kind) => {
                    &&& globals_of(t) == globals_of(u) + global_row(d.names@, words, kind)
                    &&& arrays_of(t) == arrays_of(u)
                    &&& strings_of(t) == strings_of(u)
                    &&& global_words(t) == words + d.names@.len()
                },
                None => match array_shape(d.ty) {
                    Some((low, len, kind)) => {
                        &&& globals_of(t) == globals_of(u)
                        &&& arrays_of(t) == arrays_of(u) + array_row(d.names@, words, low as i16, len as u16, kind)
                        &&& strings_of(t) == strings_of(u)
                        &&& global_words(t) == words + d.names@.len() * len
                    },
                    None => match string_len_of(d.ty) {
                        Some(n) => {
                            &&& globals_of(t) == globals_of(u)
                            &&& arrays_of(t) == arrays_of(u)
                            &&& strings_of(t) == strings_of(u) + string_row(d.names@, words, n as u16)
                            &&& global_words(t) == words + d.names@.len() * (1 + n)
                        },
                        None => {
                            &&& globals_of(t) == globals_of(u)
                            &&& arrays_of(t) == arrays_of(u)
                            &&& strings_of(t) == strings_of(u)
                            &&& global_words(t) == words
                        },
                    },
                },
            }
        }),
{
    let t = decls.take(i + 1);
    let u = decls.take(i);
    let d = decls[i];
    assert(t.drop_last() =~= u);
    assert(t.last() == d);
    let words = global_words(u);
    match value_kind_of(d.ty) {
        Some(kind) => {
            assert(globals_of(t) =~= globals_of(u) + global_row(d.names@, words, kind));
        },
        None => match array_shape(d.ty) {
            Some((low, len, kind)) => {
                assert(1 <= len <= 32767);
                assert(arrays_of(t) =~= arrays_of(u) + array_row(d.names@, words, low as i16, len as u16, kind));
            },
            None => match string_len_of(d.ty) {
                Some(n) => {
                    assert(strings_of(t) =~= strings_of(u) + string_row(d.names@, words, n as u16));
                },
                None => {},
            },
        },
    }
}

/// Whether a global variable's type is supported: `INTEGER`, `BOOLEAN`,
/// an array of one dimension of them, or `STRING[n]`.
pub open spec fn var_type_ok(ty: TypeExpr) -> bool {
    value_kind_of(ty) is Some || array_shape(ty) is Some || string_len_of(ty) is Some
}

/// The shape of a supported array type: its low bound, its number of
/// elements and their kind.
pub(crate) fn array_shape_of(ty: &TypeExpr) -> (r: Option<(i16, u16, ValueKind)>)
    ensures
        match r {
            Some((low, len, kind)) => array_shape(*ty) == Some((low as int, len as int, kind)),
            None => array_shape(*ty) is None,
        },
{
    match ty {
        TypeExpr::Array { index_type, element_type, .. } => match &**index_type {
            TypeExpr::Subrange { low: Literal::Int(lo, _), high: Literal::Int(hi, _), .. } => match value_kind_of_type(
                element_type,
            ) {
                Some(kind) => {
                    let lo = *lo;
                    let hi = *hi;
                    if -32768 <= lo && lo <= 32767 && -32768 <= hi && hi <= 32767 && lo <= hi && hi - lo + 1 <= 32767 {
                        Some((lo as i16, (hi - lo + 1) as u16, kind))
                    } else {
                        None
                    }
                },
                None => None,
            },
            _ => None,
        },
        _ => None,
    }
}

/// Whether each character's code fits a word.
fn chars_fit_words(chars: &Vec<char>) -> (r: bool)
    ensures
        r == chars_fit(chars@),
{
    let mut k: usize = 0;
    while k < chars.len()
        invariant
            k <= chars.len(),
            forall|i: int| 0 <= i < k ==> (#[trigger] chars@[i] as u32) <= 32767,
        decreases chars.len() - k,
    {
        if chars[k] as u32 > 32767 {
            return false;
        }
        k = k + 1;
    }
    true
}

/// The maximum length of a supported `STRING[n]` type.
pub(crate) fn string_len_of_type(ty: &TypeExpr) -> (r: Option<u16>)
    ensures
        match r {
            Some(n) => string_len_of(*ty) == Some(n as int),
            None => string_len_of(*ty) is None,
        },
{
    match ty {
        TypeExpr::StringN(n, _) => if 1 <= *n && *n <= 32766 {
            Some(*n as u16)
        } else {
            None
        },
        _ => None,
    }
}

/// The slots of the `STRING[n]` variables of one declaration, from word
/// `base`, `1 + n` words each.
pub open spec fn string_row(names: Seq<Identifier>, base: int, n: u16) -> Seq<(Seq<char>, StrSlot)> {
    names.map(|idx: int, name: Identifier| (key_of(name), StrSlot { address: Address((base + idx * (1 + n)) as u16), max_len: n }))
}

/// The error for a global variable of type `ty` when that type is not
/// supported: which restriction of arrays it breaks, or the type's name.
#[verifier::opaque]
pub open spec fn unsupported_var_text(ty: TypeExpr) -> Seq<char> {
    match ty {
        TypeExpr::Array { index_type, element_type, .. } => {
            if *element_type is Array {
                "multi-dimensional arrays are out of scope for this step's minimal codegen (only one-dimensional arrays of INTEGER/BOOLEAN are supported)"@
            } else if value_kind_of(*element_type) is None {
                "array element type "@ + "'"@ + type_description(*element_type) + "'"@
                    + " is out of scope for this step's minimal codegen (only INTEGER/BOOLEAN are supported)"@
            } else {
                match *index_type {
                    TypeExpr::Subrange { low: Literal::Int(lo, _), high: Literal::Int(hi, _), .. } => {
                        let count = hi - lo + 1;
                        if count > 32767 {
                            "arrays with too many elements for the p-machine's 16-bit words are out of scope for this step's minimal codegen (at most 32767 are supported)"@
                        } else if count < 1 {
                            "arrays without elements are out of scope for this step's minimal codegen"@
                        } else {
                            "array bounds outside -32768..=32767 are out of scope for this step's minimal codegen"@
                        }
                    },
                    _ => "array index types other than an integer subrange are out of scope for this step's minimal codegen"@,
                }
            }
        },
        _ => "VAR type "@ + "'"@ + type_description(ty) + "'"@
            + " is out of scope for this step's minimal codegen (only INTEGER/BOOLEAN are supported)"@,
    }
}

/// The error for a global variable of a type that is not supported.
fn unsupported_var_message(ty: &TypeExpr) -> (m: String)
    ensures
        m@ == unsupported_var_text(*ty),
{
    reveal(unsupported_var_text);
    match ty {
        TypeExpr::Array { index_type, element_type, .. } => {
            if matches!(**element_type, TypeExpr::Array { .. }) {
                "multi-dimensional arrays are out of scope for this step's minimal codegen (only one-dimensional arrays of INTEGER/BOOLEAN are supported)".to_owned()
            } else if value_kind_of_type(element_type).is_none() {
                type_message(
                    "array element type ",
                    element_type,
                    " is out of scope for this step's minimal codegen (only INTEGER/BOOLEAN are supported)",
                )
            } else {
                match &**index_type {
                    TypeExpr::Subrange { low: Literal::Int(lo, _), high: Literal::Int(hi, _), .. } => {
                        let count: i128 = (*hi as i128) - (*lo as i128) + 1;
                        if count > 32767 {
                            "arrays with too many elements for the p-machine's 16-bit words are out of scope for this step's minimal codegen (at most 32767 are supported)".to_owned()
                        } else if count < 1 {
                            "arrays without elements are out of scope for this step's minimal codegen".to_owned()
                        } else {
                            "array bounds outside -32768..=32767 are out of scope for this step's minimal codegen".to_owned()
                        }
                    },
                    _ => "array index types other than an integer subrange are out of scope for this step's minimal codegen".to_owned(),
                }
            }
        },
        _ => type_message("VAR type ", ty, " is out of scope for this step's minimal codegen (only INTEGER/BOOLEAN are supported)"),
    }
}

/// The slots of the arrays of one declaration, from word `base`, `len`
/// words each.
pub open spec fn array_row(names: Seq<Identifier>, base: int, low: i16, len: u16, kind: ValueKind) -> Seq<(Seq<char>, ArraySlot)> {
    names.map(
        |idx: int, n: Identifier| (key_of(n), ArraySlot { address: Address((base + idx * len) as u16), low, len, kind }),
    )
}

impl CodeGenerator {
    /// Gives each name the next `1 + n` words of the global data area.
    fn push_strings(&mut self, names: &Vec<Identifier>, n: u16)
        requires
            old(self).inv(),
            n <= 32766,
            old(self).next_address + names@.len() * (1 + n) <= 65535,
        ensures
            final(self).inv(),
            names_view(final(self).strings@) == names_view(old(self).strings@) + string_row(
                names@,
                old(self).next_address as int,
                n,
            ),
            final(self).next_address == old(self).next_address + names@.len() * (1 + n),
            final(self).vars == old(self).vars,
            final(self).arrays == old(self).arrays,
            final(self).code == old(self).code,
            final(self).instructions == old(self).instructions,
            final(self).routines == old(self).routines,
            final(self).pending_calls == old(self).pending_calls,
            final(self).current_scope == old(self).current_scope,
            final(self).string_pool == old(self).string_pool,
            final(self).consts == old(self).consts,
            final(self).diagnostics == old(self).diagnostics,
    {
        let ghost prev = names_view(self.strings@);
        let ghost base = self.next_address as int;
        let ghost row = string_row(names@, base, n);
        let ghost total = names@.len() * (1 + n);
        let width: u16 = 1 + n;
        let mut j: usize = 0;
        proof {
            assert(names_view(self.strings@) =~= prev + row.take(0));
        }
        while j < names.len()
            invariant
                j <= names.len(),
                self.inv(),
                width == 1 + n,
                base == old(self).next_address,
                prev == names_view(old(self).strings@),
                row == string_row(names@, base, n),
                total == names@.len() * (1 + n),
                base + total <= 65535,
                names_view(self.strings@) == prev + row.take(j as int),
                self.next_address == base + j * (1 + n),
                self.vars == old(self).vars,
                self.arrays == old(self).arrays,
                self.code == old(self).code,
                self.instructions == old(self).instructions,
                self.routines == old(self).routines,
                self.pending_calls == old(self).pending_calls,
                self.current_scope == old(self).current_scope,
                self.string_pool == old(self).string_pool,
                self.consts == old(self).consts,
                self.diagnostics == old(self).diagnostics,
            decreases names.len() - j,
        {
            proof {
                assert((j + 1) * (1 + n) <= names@.len() * (1 + n)) by (nonlinear_arith)
                    requires
                        j + 1 <= names@.len(),
                ;
                assert((j + 1) * (1 + n) == j * (1 + n) + (1 + n)) by (nonlinear_arith);
            }
            let address = Address(self.next_address);
            self.next_address = self.next_address + width;
            let key = normalize(&names[j].name);
            let ghost v0 = self.strings@;
            let slot = StrSlot { address, max_len: n };
            self.strings.push((key, slot));
            proof {
                assert(row[j as int] == (key_of(names@[j as int]), slot));
                assert(names_view(self.strings@) =~= names_view(v0).push((key@, slot)));
                assert(names_view(self.strings@) =~= prev + row.take(j + 1));
            }
            j = j + 1;
        }
        proof {
            assert(row.take(j as int) =~= row);
        }
    }

    /// Gives each name the next `len` words of the global data area.
    fn push_arrays(&mut self, names: &Vec<Identifier>, low: i16, len: u16, kind: ValueKind)
        requires
            old(self).inv(),
            old(self).next_address + names@.len() * len <= 65535,
        ensures
            final(self).inv(),
            names_view(final(self).arrays@) == names_view(old(self).arrays@) + array_row(
                names@,
                old(self).next_address as int,
                low,
                len,
                kind,
            ),
            final(self).next_address == old(self).next_address + names@.len() * len,
            final(self).vars == old(self).vars,
            final(self).strings == old(self).strings,
            final(self).code == old(self).code,
            final(self).instructions == old(self).instructions,
            final(self).routines == old(self).routines,
            final(self).pending_calls == old(self).pending_calls,
            final(self).current_scope == old(self).current_scope,
            final(self).string_pool == old(self).string_pool,
            final(self).consts == old(self).consts,
            final(self).diagnostics == old(self).diagnostics,
    {
        let ghost prev = names_view(self.arrays@);
        let ghost base = self.next_address as int;
        let ghost row = array_row(names@, base, low, len, kind);
        let ghost total = names@.len() * len;
        let mut j: usize = 0;
        proof {
            assert(names_view(self.arrays@) =~= prev + row.take(0));
        }
        while j < names.len()
            invariant
                j <= names.len(),
                self.inv(),
                base == old(self).next_address,
                prev == names_view(old(self).arrays@),
                row == array_row(names@, base, low, len, kind),
                total == names@.len() * len,
                base + total <= 65535,
                names_view(self.arrays@) == prev + row.take(j as int),
                self.next_address == base + j * len,
                self.vars == old(self).vars,
                self.strings == old(self).strings,
                self.code == old(self).code,
                self.instructions == old(self).instructions,
                self.routines == old(self).routines,
                self.pending_calls == old(self).pending_calls,
                self.current_scope == old(self).current_scope,
                self.string_pool == old(self).string_pool,
                self.consts == old(self).consts,
                self.diagnostics == old(self).diagnostics,
            decreases names.len() - j,
        {
            proof {
                assert((j + 1) * len <= names@.len() * len) by (nonlinear_arith)
                    requires
                        j + 1 <= names@.len(),
                ;
                assert((j + 1) * len == j * len + len) by (nonlinear_arith);
            }
            let address = Address(self.next_address);
            self.next_address = self.next_address + len;
            let key = normalize(&names[j].name);
            let ghost v0 = self.arrays@;
            let slot = ArraySlot { address, low, len, kind };
            self.arrays.push((key, slot));
            proof {
                assert(row[j as int] == (key_of(names@[j as int]), slot));
                assert(names_view(self.arrays@) =~= names_view(v0).push((key@, slot)));
                assert(names_view(self.arrays@) =~= prev + row.take(j + 1));
            }
            j = j + 1;
        }
        proof {
            assert(row.take(j as int) =~= row);
        }
    }
}

/// The global slots of the names of one declaration, from word `base`.
pub open spec fn global_row(names: Seq<Identifier>, base: int, kind: ValueKind) -> Seq<(Seq<char>, VarSlot)> {
    names.map(|idx: int, n: Identifier| (key_of(n), VarSlot { address: Address((base + idx) as u16), kind }))
}

impl CodeGenerator {
    /// Gives each name the next word of the global data area.
    fn push_globals(&mut self, names: &Vec<Identifier>, kind: ValueKind)
        requires
            old(self).inv(),
            old(self).next_address + names@.len() <= 65535,
        ensures
            final(self).inv(),
            names_view(final(self).vars@) == names_view(old(self).vars@) + global_row(names@, old(self).next_address as int, kind),
            final(self).next_address == old(self).next_address + names@.len(),
            final(self).arrays == old(self).arrays,
            final(self).strings == old(self).strings,
            final(self).strings == old(self).strings,
            final(self).code == old(self).code,
            final(self).instructions == old(self).instructions,
            final(self).routines == old(self).routines,
            final(self).pending_calls == old(self).pending_calls,
            final(self).current_scope == old(self).current_scope,
            final(self).string_pool == old(self).string_pool,
            final(self).consts == old(self).consts,
            final(self).diagnostics == old(self).diagnostics,
    {
        let ghost prev = names_view(self.vars@);
        let ghost base = self.next_address as int;
        let ghost row = global_row(names@, base, kind);
        let mut j: usize = 0;
        proof {
            assert(names_view(self.vars@) =~= prev + row.take(0));
        }
        while j < names.len()
            invariant
                j <= names.len(),
                self.inv(),
                base == old(self).next_address,
                prev == names_view(old(self).vars@),
                row == global_row(names@, base, kind),
                base + names@.len() <= 65535,
                names_view(self.vars@) == prev + row.take(j as int),
                self.next_address == base + j,
                self.arrays == old(self).arrays,
                self.strings == old(self).strings,
                self.strings == old(self).strings,
                self.code == old(self).code,
                self.instructions == old(self).instructions,
                self.routines == old(self).routines,
                self.pending_calls == old(self).pending_calls,
                self.current_scope == old(self).current_scope,
                self.string_pool == old(self).string_pool,
                self.consts == old(self).consts,
                self.diagnostics == old(self).diagnostics,
            decreases names.len() - j,
        {
            let address = Address(self.next_address);
            self.next_address = self.next_address + 1;
            let key = normalize(&names[j].name);
            let ghost v0 = self.vars@;
            self.vars.push((key, VarSlot { address, kind }));
            proof {
                assert(row[j as int] == (key_of(names@[j as int]), VarSlot { address, kind }));
                assert(names_view(self.vars@) =~= names_view(v0).push((key@, VarSlot { address, kind })));
                assert(names_view(self.vars@) =~= prev + row.take(j + 1));
            }
            j = j + 1;
        }
        proof {
            assert(row.take(j as int) =~= row);
        }
    }
}

/// The global words of a prefix of the declarations are at most those of
/// a longer prefix, and never negative.
proof fn lemma_global_words_prefix(decls: Seq<VarDecl>, i: int, n: int)
    requires
        0 <= i <= n <= decls.len(),
    ensures
        0 <= global_words(decls.take(i)) <= global_words(decls.take(n)),
    decreases n,
{
    if n > 0 {
        let t = decls.take(n);
        assert(t.drop_last() =~= decls.take(n - 1));
        let d = t.last();
        match array_shape(d.ty) {
            Some((_, len, _)) => {
                assert(array_shape(d.ty) matches Some((_, l, _)) && l >= 1);
                assert(d.names@.len() * len >= 0) by (nonlinear_arith)
                    requires
                        len >= 1,
                ;
            },
            None => {},
        }
        match string_len_of(d.ty) {
            Some(m) => {
                assert(d.names@.len() * (1 + m) >= 0) by (nonlinear_arith)
                    requires
                        m >= 1,
                ;
            },
            None => {},
        }
        if i < n {
            lemma_global_words_prefix(decls, i, n - 1);
        } else {
            lemma_global_words_prefix(decls, n - 1, n - 1);
        }
    }
}

/// The local slots of the names of one declaration, after `count`
/// locals.
pub open spec fn local_row(names: Seq<Identifier>, count: int, kind: ValueKind) -> Seq<(Seq<char>, FrameSlot)> {
    names.map(
        |idx: int, n: Identifier| (key_of(n), FrameSlot { address: Address((5 + count + idx) as u16), by_ref: false, kind }),
    )
}

proof fn lemma_locals_prefix(decls: Seq<VarDecl>, i: int, n: int)
    requires
        0 <= i <= n <= decls.len(),
    ensures
        locals_of(decls.take(i)).len() <= locals_of(decls.take(n)).len(),
    decreases n - i,
{
    if i < n {
        lemma_locals_prefix(decls, i, n - 1);
        assert(decls.take(n).drop_last() =~= decls.take(n - 1));
    }
}

proof fn lemma_params_prefix(ps: Seq<ParamDecl>, base: int, i: int, n: int)
    requires
        0 <= i <= n <= ps.len(),
    ensures
        params_of(ps.take(i), base).len() <= params_of(ps.take(n), base).len(),
        params_of(ps.take(n), base).len() <= n,
    decreases n,
{
    if n > 0 {
        assert(ps.take(n).drop_last() =~= ps.take(n - 1));
        if i < n {
            lemma_params_prefix(ps, base, i, n - 1);
        } else {
            lemma_params_prefix(ps, base, n - 1, n - 1);
        }
    }
}

/// Appends each name with the next local slot.
fn push_locals(locals: &mut Vec<(String, FrameSlot)>, names: &Vec<Identifier>, kind: ValueKind)
    requires
        5 + old(locals)@.len() + names@.len() <= 65535,
    ensures
        names_view(final(locals)@) == names_view(old(locals)@) + local_row(names@, old(locals)@.len() as int, kind),
{
    let ghost prev = names_view(locals@);
    let ghost count = locals@.len() as int;
    let ghost row = local_row(names@, count, kind);
    let base = locals.len();
    let mut j: usize = 0;
    proof {
        assert(names_view(locals@) =~= prev + row.take(0));
    }
    while j < names.len()
        invariant
            j <= names.len(),
            count == old(locals)@.len(),
            base == count,
            prev == names_view(old(locals)@),
            row == local_row(names@, count, kind),
            5 + count + names@.len() <= 65535,
            names_view(locals@) == prev + row.take(j as int),
            locals@.len() == count + j,
        decreases names.len() - j,
    {
        let address = Address((5 + base + j) as u16);
        let key = normalize(&names[j].name);
        let ghost v0 = locals@;
        locals.push((key, FrameSlot { address, by_ref: false, kind }));
        proof {
            assert(row[j as int] == (key_of(names@[j as int]), FrameSlot { address, by_ref: false, kind }));
            assert(names_view(locals@) =~= names_view(v0).push((key@, FrameSlot { address, by_ref: false, kind })));
            assert(names_view(locals@) =~= prev + row.take(j + 1));
        }
        j = j + 1;
    }
    proof {
        assert(row.take(j as int) =~= row);
    }
}

/// A copy of a list of names and slots.
fn clone_names(v: &Vec<(String, FrameSlot)>) -> (r: Vec<(String, FrameSlot)>)
    ensures
        names_view(r@) == names_view(v@),
{
    let mut r: Vec<(String, FrameSlot)> = Vec::new();
    let mut i: usize = 0;
    while i < v.len()
        invariant
            i <= v.len(),
            names_view(r@) == names_view(v@).take(i as int),
        decreases v.len() - i,
    {
        let ghost r0 = r@;
        r.push((v[i].0.clone(), v[i].1));
        proof {
            assert(names_view(r@) =~= names_view(r0).push((v@[i as int].0@, v@[i as int].1)));
            assert(names_view(r@) =~= names_view(v@).take(i + 1));
        }
        i = i + 1;
    }
    proof {
        assert(names_view(v@).take(i as int) =~= names_view(v@));
    }
    r
}

impl CodeGenerator {
    /// Gives each local variable of a supported type the next word of the
    /// activation record, from offset 5; others are errors. Returns the
    /// locals and their number.
    #[verifier::spinoff_prover]
    fn build_locals(&mut self, decls: &Vec<VarDecl>) -> (r: (Vec<(String, FrameSlot)>, u16))
        requires
            old(self).inv(),
            5 + locals_of(decls@).len() <= 65535,
        ensures
            final(self).inv(),
            names_view(r.0@) == locals_of(decls@),
            r.1 == locals_of(decls@).len(),
            final(self).code == old(self).code,
            final(self).instructions == old(self).instructions,
            final(self).routines == old(self).routines,
            final(self).pending_calls == old(self).pending_calls,
            final(self).current_scope == old(self).current_scope,
            final(self).string_pool == old(self).string_pool,
            final(self).vars == old(self).vars,
            final(self).arrays == old(self).arrays,
            final(self).strings == old(self).strings,
            final(self).consts == old(self).consts,
            final(self).next_address == old(self).next_address,
            errors_are(final(self).diagnostics@.skip(old(self).diagnostics@.len() as int), local_errors(decls@)),
            keeps(final(self).diagnostics@, old(self).diagnostics@),
            final(self).diagnostics@.len() >= old(self).diagnostics@.len(),
            (forall|i: int| 0 <= i < decls@.len() ==> value_kind_of((#[trigger] decls@[i]).ty) is Some)
                ==> final(self).diagnostics@.len() == old(self).diagnostics@.len(),
            !(forall|i: int| 0 <= i < decls@.len() ==> value_kind_of((#[trigger] decls@[i]).ty) is Some)
                ==> final(self).diagnostics@.len() > old(self).diagnostics@.len(),
    {
        let mut locals: Vec<(String, FrameSlot)> = Vec::new();
        let mut i: usize = 0;
        proof {
            assert(names_view(locals@) =~= locals_of(decls@.take(0)));
        }
        while i < decls.len()
            invariant
                i <= decls.len(),
                self.inv(),
                5 + locals_of(decls@).len() <= 65535,
                names_view(locals@) == locals_of(decls@.take(i as int)),
                self.code == old(self).code,
                self.instructions == old(self).instructions,
                self.routines == old(self).routines,
                self.pending_calls == old(self).pending_calls,
                self.current_scope == old(self).current_scope,
                self.string_pool == old(self).string_pool,
                self.vars == old(self).vars,
                self.arrays == old(self).arrays,
                self.strings == old(self).strings,
                self.consts == old(self).consts,
                self.next_address == old(self).next_address,
                errors_are(self.diagnostics@.skip(old(self).diagnostics@.len() as int), local_errors(decls@.take(i as int))),
                keeps(self.diagnostics@, old(self).diagnostics@),
                self.diagnostics@.len() >= old(self).diagnostics@.len(),
                (forall|j: int| 0 <= j < i ==> value_kind_of((#[trigger] decls@[j]).ty) is Some)
                    ==> self.diagnostics@.len() == old(self).diagnostics@.len(),
                !(forall|j: int| 0 <= j < i ==> value_kind_of((#[trigger] decls@[j]).ty) is Some)
                    ==> self.diagnostics@.len() > old(self).diagnostics@.len(),
            decreases decls.len() - i,
        {
            let decl = &decls[i];
            let ghost prev = locals_of(decls@.take(i as int));
            proof {
                assert(decls@.take(i + 1).drop_last() =~= decls@.take(i as int));
                lemma_locals_prefix(decls@, i + 1, decls@.len() as int);
                assert(decls@.take(decls@.len() as int) =~= decls@);
            }
            match value_kind_of_type(&decl.ty) {
                Some(kind) => {
                    proof {
                        assert(locals_of(decls@.take(i + 1)) == prev + local_row(decl.names@, prev.len() as int, kind));
                    }
                    push_locals(&mut locals, &decl.names, kind);
                },
                None => {
                    let m = if matches!(decl.ty, TypeExpr::StringN(..)) {
                        "STRING[n] local variables are out of scope for this step's minimal codegen (only global STRING[n] variables are supported)".to_owned()
                    } else {
                        type_message("local VAR type ", &decl.ty, " is out of scope for this step's minimal codegen (only INTEGER/BOOLEAN are supported)")
                    };
                    let ghost before_d = self.diagnostics@;
                    self.diagnostics.push(Diagnostic::new(decl.ty.span(), Severity::Error, m));
                    proof {
                        reveal(local_string_text);
                        let n = old(self).diagnostics@.len() as int;
                        assert(self.diagnostics@.skip(n) =~= before_d.skip(n).push(self.diagnostics@.last()));
                    }
                },
            }
            proof {
                assert(decls@.take(i + 1).last() == decls@[i as int]);
                if !(forall|j: int| 0 <= j < i + 1 ==> value_kind_of((#[trigger] decls@[j]).ty) is Some) {
                    if forall|j: int| 0 <= j < i ==> value_kind_of((#[trigger] decls@[j]).ty) is Some {
                        assert(value_kind_of(decls@[i as int].ty) is None);
                    }
                }
            }
            i = i + 1;
        }
        proof {
            assert(decls@.take(i as int) =~= decls@);
        }
        let count = locals.len() as u16;
        (locals, count)
    }

    /// Gives each parameter of a supported type the next word from
    /// `param_base`; others are errors.
    fn build_params(&mut self, params: &Vec<ParamDecl>, param_base: u16) -> (r: Vec<(String, FrameSlot)>)
        requires
            old(self).inv(),
            param_base + params@.len() <= 65535,
        ensures
            final(self).inv(),
            names_view(r@) == params_of(params@, param_base as int),
            final(self).code == old(self).code,
            final(self).instructions == old(self).instructions,
            final(self).routines == old(self).routines,
            final(self).pending_calls == old(self).pending_calls,
            final(self).current_scope == old(self).current_scope,
            final(self).string_pool == old(self).string_pool,
            final(self).vars == old(self).vars,
            final(self).arrays == old(self).arrays,
            final(self).strings == old(self).strings,
            final(self).consts == old(self).consts,
            final(self).next_address == old(self).next_address,
            errors_are(final(self).diagnostics@.skip(old(self).diagnostics@.len() as int), param_errors(params@)),
            keeps(final(self).diagnostics@, old(self).diagnostics@),
            final(self).diagnostics@.len() >= old(self).diagnostics@.len(),
            (forall|i: int| 0 <= i < params@.len() ==> value_kind_of((#[trigger] params@[i]).ty) is Some)
                ==> final(self).diagnostics@.len() == old(self).diagnostics@.len(),
            !(forall|i: int| 0 <= i < params@.len() ==> value_kind_of((#[trigger] params@[i]).ty) is Some)
                ==> final(self).diagnostics@.len() > old(self).diagnostics@.len(),
    {
        let mut result: Vec<(String, FrameSlot)> = Vec::new();
        let mut i: usize = 0;
        proof {
            assert(names_view(result@) =~= params_of(params@.take(0), param_base as int));
        }
        while i < params.len()
            invariant
                i <= params.len(),
                self.inv(),
                param_base + params@.len() <= 65535,
                names_view(result@) == params_of(params@.take(i as int), param_base as int),
                self.code == old(self).code,
                self.instructions == old(self).instructions,
                self.routines == old(self).routines,
                self.pending_calls == old(self).pending_calls,
                self.current_scope == old(self).current_scope,
                self.string_pool == old(self).string_pool,
                self.vars == old(self).vars,
                self.arrays == old(self).arrays,
                self.strings == old(self).strings,
                self.consts == old(self).consts,
                self.next_address == old(self).next_address,
                errors_are(self.diagnostics@.skip(old(self).diagnostics@.len() as int), param_errors(params@.take(i as int))),
                keeps(self.diagnostics@, old(self).diagnostics@),
                self.diagnostics@.len() >= old(self).diagnostics@.len(),
                (forall|j: int| 0 <= j < i ==> value_kind_of((#[trigger] params@[j]).ty) is Some)
                    ==> self.diagnostics@.len() == old(self).diagnostics@.len(),
                !(forall|j: int| 0 <= j < i ==> value_kind_of((#[trigger] params@[j]).ty) is Some)
                    ==> self.diagnostics@.len() > old(self).diagnostics@.len(),
            decreases params.len() - i,
        {
            let p = &params[i];
            proof {
                assert(params@.take(i + 1).drop_last() =~= params@.take(i as int));
                lemma_params_prefix(params@, param_base as int, i as int, i as int);
            }
            match value_kind_of_type(&p.ty) {
                Some(kind) => {
                    let slot = FrameSlot { address: Address(param_base + result.len() as u16), by_ref: p.by_ref, kind };
                    let key = normalize(&p.name.name);
                    let ghost r0 = result@;
                    result.push((key, slot));
                    proof {
                        assert(names_view(result@) =~= names_view(r0).push((key@, slot)));
                    }
                },
                None => {
                    let m = type_message("parameter type ", &p.ty, " is out of scope for this step's minimal codegen (only INTEGER/BOOLEAN are supported)");
                    let ghost before_d = self.diagnostics@;
                    self.diagnostics.push(Diagnostic::new(p.ty.span(), Severity::Error, m));
                    proof {
                        let n = old(self).diagnostics@.len() as int;
                        assert(self.diagnostics@.skip(n) =~= before_d.skip(n).push(self.diagnostics@.last()));
                    }
                },
            }
            proof {
                assert(params@.take(i + 1).last() == params@[i as int]);
                if !(forall|j: int| 0 <= j < i + 1 ==> value_kind_of((#[trigger] params@[j]).ty) is Some) {
                    if forall|j: int| 0 <= j < i ==> value_kind_of((#[trigger] params@[j]).ty) is Some {
                        assert(value_kind_of(params@[i as int].ty) is None);
                    }
                }
            }
            i = i + 1;
        }
        proof {
            assert(params@.take(i as int) =~= params@);
        }
        result
    }
}

/// The local variables and parameters of routine `k` are all of
/// supported types.
pub open spec fn routine_kinds_ok(p: Program, k: int) -> bool {
    &&& forall|i: int| 0 <= i < routine_vars(p, k).len() ==> value_kind_of((#[trigger] routine_vars(p, k)[i]).ty) is Some
    &&& forall|i: int| 0 <= i < routine_params(p, k).len() ==> value_kind_of((#[trigger] routine_params(p, k)[i]).ty) is Some
}

impl CodeGenerator {
    /// Registers routine `k` of `p`: its activation record and the names
    /// of its body. A second routine of the same name is an error and is
    /// not registered.
    #[verifier::rlimit(40)]
    fn register_routine(
        &mut self,
        name: &Identifier,
        params: &Vec<ParamDecl>,
        var_decls: &Vec<VarDecl>,
        body: &Block,
        is_func: bool,
        return_kind: ValueKind,
        Ghost(p): Ghost<Program>,
        Ghost(k): Ghost<int>,
    )
        requires
            old(self).inv(),
            0 <= k < n_routines(p),
            fits(p),
            *name == routine_name(p, k),
            params@ == routine_params(p, k),
            var_decls@ == routine_vars(p, k),
            body.statements@ == routine_body(p, k),
            is_func == routine_is_func(p, k),
            return_kind == routine_spec(p, k).return_kind,
        ensures
            final(self).inv(),
            final(self).code == old(self).code,
            final(self).instructions == old(self).instructions,
            final(self).pending_calls == old(self).pending_calls,
            final(self).current_scope == old(self).current_scope,
            final(self).string_pool == old(self).string_pool,
            final(self).vars == old(self).vars,
            final(self).arrays == old(self).arrays,
            final(self).strings == old(self).strings,
            final(self).consts == old(self).consts,
            final(self).next_address == old(self).next_address,
            keeps(final(self).diagnostics@, old(self).diagnostics@),
            final(self).diagnostics@.len() >= old(self).diagnostics@.len(),
            find_routine(old(self).routines_view(), key_of(*name)) is Some ==> one_error_added(
                final(self).diagnostics@,
                old(self).diagnostics@,
                name.span,
                duplicate_text(name.name@),
            ),
            find_routine(old(self).routines_view(), key_of(*name)) is None ==> errors_are(
                final(self).diagnostics@.skip(old(self).diagnostics@.len() as int),
                local_errors(var_decls@) + param_errors(params@),
            ),
            find_routine(old(self).routines_view(), key_of(*name)) is Some ==> final(self).routines == old(self).routines
                && final(self).diagnostics@.len() > old(self).diagnostics@.len(),
            find_routine(old(self).routines_view(), key_of(*name)) is None ==> {
                &&& final(self).routines_view() == old(self).routines_view().push(routine_spec(p, k))
                &&& final(self).routines.len() == old(self).routines.len() + 1
                &&& forall|j: int| 0 <= j < old(self).routines.len() ==> #[trigger] final(self).routines@[j] == old(self).routines@[j]
                &&& !final(self).routines@[old(self).routines.len() as int].entry_known
                &&& routine_kinds_ok(p, k) ==> final(self).diagnostics@.len() == old(self).diagnostics@.len()
                &&& !routine_kinds_ok(p, k) ==> final(self).diagnostics@.len() > old(self).diagnostics@.len()
            },
    {
        let key = normalize(&name.name);
        if self.find_routine_index(&key).is_some() {
            let mut m = "'".to_owned();
            push_str(&mut m, name.name.as_str());
            push_str(&mut m, "' is already declared");
            self.diagnostics.push(Diagnostic::new(name.span, Severity::Error, m));
            proof {
                reveal(duplicate_text);
                assert(self.diagnostics@.drop_last() =~= old(self).diagnostics@);
            }
            return;
        }
        proof {
            assert(6 + locals_of(routine_vars(p, k)).len() + for_temps_stmts(routine_body(p, k)) + routine_params(p, k).len() <= 65535);
        }
        let (mut locals, declared) = self.build_locals(var_decls);
        let ghost d0 = self.diagnostics@.len();
        let temps = count_for_temps_stmts(&body.statements);
        let data_size = declared + temps;
        let param_base = 5 + data_size;
        let ghost after_locals = self.diagnostics@;
        let pairs = self.build_params(params, param_base);
        let ghost ps = params_of(params@, param_base as int);
        proof {
            lemma_keeps_trans(old(self).diagnostics@, after_locals, self.diagnostics@);
            let n0 = old(self).diagnostics@.len() as int;
            let all = self.diagnostics@.skip(n0);
            let m = after_locals.len() - n0;
            assert(all.take(m) =~= after_locals.skip(n0));
            assert(all.skip(m) =~= self.diagnostics@.skip(after_locals.len() as int));
            lemma_errors_concat(all, m, local_errors(var_decls@), param_errors(params@));
            lemma_params_prefix(params@, param_base as int, params@.len() as int, params@.len() as int);
            assert(params@.take(params@.len() as int) =~= params@);
        }
        let ghost lv = names_view(locals@);
        let mut slots: Vec<FrameSlot> = Vec::new();
        let mut j: usize = 0;
        proof {
            assert(slots@ =~= ps.take(0).map_values(|e: (Seq<char>, FrameSlot)| e.1));
            assert(names_view(locals@) =~= lv + ps.take(0));
        }
        while j < pairs.len()
            invariant
                j <= pairs.len(),
                names_view(pairs@) == ps,
                slots@ == ps.take(j as int).map_values(|e: (Seq<char>, FrameSlot)| e.1),
                names_view(locals@) == lv + ps.take(j as int),
            decreases pairs.len() - j,
        {
            let ghost l0 = locals@;
            slots.push(pairs[j].1);
            locals.push((pairs[j].0.clone(), pairs[j].1));
            proof {
                assert(names_view(locals@) =~= names_view(l0).push((pairs@[j as int].0@, pairs@[j as int].1)));
                assert(names_view(locals@) =~= lv + ps.take(j + 1));
                assert(slots@ =~= ps.take(j + 1).map_values(|e: (Seq<char>, FrameSlot)| e.1));
            }
            j = j + 1;
        }
        proof {
            assert(ps.take(j as int) =~= ps);
        }
        let return_address = if is_func {
            Some(Address(param_base + slots.len() as u16))
        } else {
            None
        };
        let info = RoutineInfo {
            key,
            entry: CodeAddress(0),
            entry_known: false,
            params: slots,
            is_func,
            return_address,
            return_kind,
            data_size,
            declared_local_words: declared,
            locals,
        };
        proof {
            let r = routine_spec(p, k);
            assert(info.spec().params =~= r.params);
            assert(info.spec().locals =~= r.locals);
            assert(info.spec() == r);
        }
        let ghost old_routines = self.routines@;
        self.routines.push(info);
        proof {
            assert(self.routines_view() =~= old(self).routines_view().push(routine_spec(p, k)));
            assert forall|i: int| 0 <= i < self.code@.len() implies #[trigger] self.instructions@[i] == resolve(self.code@[i], self.cur_entries()) by {
                assert(old(self).instructions@[i] == resolve(self.code@[i], old(self).cur_entries()));
                match self.code@[i] {
                    SInstr::Call(kk, _) => {
                        assert(calls(self.code@[i], kk));
                        assert(self.routines@[kk] == old_routines[kk]);
                    },
                    _ => {},
                }
            }
            assert forall|i: int, kk: int| 0 <= i < self.code@.len() && #[trigger] calls(self.code@[i], kk)
                && !self.routines@[kk].entry_known implies self.pending_calls@.contains((kk as usize, i as usize)) by {
                assert(self.routines@[kk] == old_routines[kk]);
            }
            assert forall|w: int| 0 <= w < self.pending_calls.len() implies {
                let (kk, i) = #[trigger] self.pending_calls@[w];
                &&& kk < self.routines.len()
                &&& i < self.code@.len()
                &&& calls(self.code@[i as int], kk as int)
                &&& !self.routines@[kk as int].entry_known
            } by {
                let (kk, i) = self.pending_calls@[w];
                assert(self.routines@[kk as int] == old_routines[kk as int]);
            }
            if routine_kinds_ok(p, k) {
                assert(forall|i: int| 0 <= i < var_decls@.len() ==> value_kind_of((#[trigger] var_decls@[i]).ty) is Some);
            } else {
                if forall|i: int| 0 <= i < var_decls@.len() ==> value_kind_of((#[trigger] var_decls@[i]).ty) is Some {
                    assert(!(forall|i: int| 0 <= i < params@.len() ==> value_kind_of((#[trigger] params@[i]).ty) is Some));
                }
            }
        }
    }
}

/// Every registered routine is routine `s` of `p` for some `s`.
pub open spec fn registered_from(rs: Seq<RoutineSpec>, p: Program) -> bool {
    forall|j: int| 0 <= j < rs.len() ==> exists|s: int| 0 <= s < n_routines(p) && #[trigger] rs[j] == routine_spec(p, s)
}

/// With distinct names, looking a routine up by its name finds it.
proof fn lemma_find_own_routine(p: Program, k: int, i: int)
    requires
        decls_ok(p),
        0 <= i <= k < n_routines(p),
    ensures
        find_routine_from(routine_table(p), key_of(routine_name(p, k)), i) == Some(k),
    decreases k - i,
{
    if i < k {
        assert(key_of(routine_name(p, i)) != key_of(routine_name(p, k)));
        lemma_find_own_routine(p, k, i + 1);
    }
}

impl CodeGenerator {
    /// Starts the body of routine `j`: its entry is the next instruction,
    /// and the calls to it emitted so far are patched. (A routine whose
    /// body has started already, which happens only after an error, is
    /// left as it is.)
    fn begin_routine_body(&mut self, j: usize)
        requires
            old(self).inv(),
            j < old(self).routines.len(),
        ensures
            final(self).inv(),
            final(self).code == old(self).code,
            final(self).diagnostics == old(self).diagnostics,
            final(self).env() == old(self).env(),
            final(self).gstate() == old(self).gstate(),
            final(self).routines_view() == old(self).routines_view(),
            final(self).routines.len() == old(self).routines.len(),
            final(self).current_scope == old(self).current_scope,
            final(self).vars == old(self).vars,
            final(self).arrays == old(self).arrays,
            final(self).strings == old(self).strings,
            final(self).consts == old(self).consts,
            final(self).next_address == old(self).next_address,
            final(self).string_pool == old(self).string_pool,
            final(self).routines@[j as int].entry_known,
            !old(self).routines@[j as int].entry_known ==> final(self).routines@[j as int].entry == CodeAddress(old(self).code@.len() as u32),
            forall|jj: int| 0 <= jj < final(self).routines.len() && (jj != j || old(self).routines@[jj].entry_known)
                ==> #[trigger] final(self).routines@[jj] == old(self).routines@[jj],
    {
        if self.routines[j].entry_known {
            return;
        }
        let entry = self.here();
        let ghost old_instr = self.instructions@;
        let ghost pend = self.pending_calls@;
        let mut rest: Vec<(usize, usize)> = Vec::new();
        let mut w: usize = 0;
        while w < self.pending_calls.len()
            invariant
                w <= self.pending_calls.len(),
                self.instructions@.len() == self.code@.len(),
                old_instr.len() == self.code@.len(),
                self.code == old(self).code,
                self.routines == old(self).routines,
                self.pending_calls@ == pend,
                self.diagnostics == old(self).diagnostics,
                self.vars == old(self).vars,
                self.arrays == old(self).arrays,
                self.strings == old(self).strings,
                self.consts == old(self).consts,
                self.next_address == old(self).next_address,
                self.current_scope == old(self).current_scope,
                self.string_pool == old(self).string_pool,
                old(self).inv(),
                old_instr == old(self).instructions@,
                pend == old(self).pending_calls@,
                j < self.routines.len(),
                forall|i: int| 0 <= i < self.code@.len() ==> #[trigger] self.instructions@[i] == old_instr[i] || (calls(self.code@[i], j as int)
                    && self.instructions@[i] == Instruction { opcode: Opcode::Confirmed(ConfirmedOp::Cpg(entry)), span: old_instr[i].span }),
                forall|w2: int| 0 <= w2 < w && (#[trigger] pend[w2]).0 == j ==> self.instructions@[pend[w2].1 as int] == (Instruction {
                    opcode: Opcode::Confirmed(ConfirmedOp::Cpg(entry)),
                    span: old_instr[pend[w2].1 as int].span,
                }),
                forall|x: int| 0 <= x < rest@.len() ==> (#[trigger] rest@[x]).0 != j && pend.contains(rest@[x]),
                forall|w2: int| 0 <= w2 < w && (#[trigger] pend[w2]).0 != j ==> rest@.contains(pend[w2]),
            decreases self.pending_calls.len() - w,
        {
            let (kk, i) = self.pending_calls[w];
            proof {
                assert(pend[w as int] == (kk, i));
            }
            if kk == j {
                let ghost before = self.instructions@;
                self.instructions[i].opcode = Opcode::Confirmed(ConfirmedOp::Cpg(entry));
                proof {
                    assert(calls(self.code@[i as int], j as int));
                    assert forall|i2: int| 0 <= i2 < self.code@.len() implies #[trigger] self.instructions@[i2] == old_instr[i2] || (calls(self.code@[i2], j as int)
                        && self.instructions@[i2] == Instruction { opcode: Opcode::Confirmed(ConfirmedOp::Cpg(entry)), span: old_instr[i2].span }) by {
                        if i2 != i {
                            assert(self.instructions@[i2] == before[i2]);
                        } else {
                            assert(before[i2] == old_instr[i2] || before[i2].span == old_instr[i2].span);
                        }
                    }
                    assert forall|w2: int| 0 <= w2 < w + 1 && (#[trigger] pend[w2]).0 == j implies self.instructions@[pend[w2].1 as int] == (Instruction {
                        opcode: Opcode::Confirmed(ConfirmedOp::Cpg(entry)),
                        span: old_instr[pend[w2].1 as int].span,
                    }) by {
                        if pend[w2].1 != i {
                            assert(self.instructions@[pend[w2].1 as int] == before[pend[w2].1 as int]);
                        } else {
                            let c = self.code@[i as int];
                            assert(old_instr[i as int] == resolve(c, old(self).cur_entries()));
                        }
                    }
                }
            } else {
                let ghost r0 = rest@;
                rest.push((kk, i));
                proof {
                    assert forall|w2: int| 0 <= w2 < w + 1 && (#[trigger] pend[w2]).0 != j implies rest@.contains(pend[w2]) by {
                        if w2 < w {
                            let x = choose|x: int| 0 <= x < r0.len() && r0[x] == pend[w2];
                            assert(rest@[x] == pend[w2]);
                        } else {
                            assert(rest@[r0.len() as int] == pend[w2]);
                        }
                    }
                    assert forall|x: int| 0 <= x < rest@.len() implies (#[trigger] rest@[x]).0 != j && pend.contains(rest@[x]) by {
                        if x < r0.len() {
                            assert(rest@[x] == r0[x]);
                        } else {
                            assert(pend[w as int] == rest@[x]);
                        }
                    }
                }
            }
            w = w + 1;
        }
        self.pending_calls = rest;
        let ghost old_routines = self.routines@;
        self.routines[j].entry = entry;
        self.routines[j].entry_known = true;
        proof {
            assert(self.routines_view() =~= old(self).routines_view());
            assert forall|jj: int| 0 <= jj < self.routines.len() && jj != j implies #[trigger] self.routines@[jj] == old_routines[jj] by {}
            assert forall|i: int| 0 <= i < self.code@.len() implies #[trigger] self.instructions@[i] == resolve(self.code@[i], self.cur_entries()) by {
                assert(old_instr[i] == resolve(self.code@[i], old(self).cur_entries()));
                match self.code@[i] {
                    SInstr::Call(kk, sp) => {
                        assert(calls(self.code@[i], kk));
                        assert(0 <= kk < self.routines.len());
                        if kk == j {
                            assert(!old_routines[kk].entry_known);
                            assert(old(self).pending_calls@.contains((kk as usize, i as usize)));
                            let w2 = choose|w2: int| 0 <= w2 < pend.len() && pend[w2] == (kk as usize, i as usize);
                            assert(pend[w2].0 == j);
                            assert(i < self.instructions@.len());
                            assert(self.instructions@.len() == self.instructions.len());
                            assert(i <= usize::MAX);
                            assert((i as usize) as int == i);
                            assert(pend[w2].1 == i as usize);
                            assert(pend[w2].1 as int == i);
                            assert(self.instructions@[pend[w2].1 as int] == (Instruction {
                                opcode: Opcode::Confirmed(ConfirmedOp::Cpg(entry)),
                                span: old_instr[pend[w2].1 as int].span,
                            }));
                            assert(self.cur_entries()[kk] == entry);
                            assert(old_instr[i].span == sp);
                            assert(self.instructions@[i] == resolve(self.code@[i], self.cur_entries()));
                        } else {
                            assert(self.routines@[kk] == old_routines[kk]);
                            assert(!calls(self.code@[i], j as int));
                            assert(self.instructions@[i] == old_instr[i]);
                            assert(self.cur_entries()[kk] == old(self).cur_entries()[kk]);
                            assert(self.instructions@[i] == resolve(self.code@[i], self.cur_entries()));
                        }
                    },
                    _ => {
                        assert(!calls(self.code@[i], j as int));
                        assert(self.instructions@[i] == old_instr[i]);
                        assert(self.instructions@[i] == resolve(self.code@[i], self.cur_entries()));
                    },
                }
            }
            assert forall|i: int, kk: int| 0 <= i < self.code@.len() && #[trigger] calls(self.code@[i], kk)
                && !self.routines@[kk].entry_known implies self.pending_calls@.contains((kk as usize, i as usize)) by {
                assert(kk != j);
                assert(self.routines@[kk] == old_routines[kk]);
                assert(pend.contains((kk as usize, i as usize)));
                let w2 = choose|w2: int| 0 <= w2 < pend.len() && pend[w2] == (kk as usize, i as usize);
                assert(pend[w2].0 != j);
            }
            assert forall|x: int| 0 <= x < self.pending_calls.len() implies {
                let (kk, i) = #[trigger] self.pending_calls@[x];
                &&& kk < self.routines.len()
                &&& i < self.code@.len()
                &&& calls(self.code@[i as int], kk as int)
                &&& !self.routines@[kk as int].entry_known
            } by {
                let (kk, i) = self.pending_calls@[x];
                let w2 = choose|w2: int| 0 <= w2 < pend.len() && pend[w2] == self.pending_calls@[x];
                assert(old(self).pending_calls@[w2] == (kk, i));
                assert(self.routines@[kk as int] == old_routines[kk as int]);
            }
        }
    }
}

/// The names of a routine's body, from the names at the program's level.
pub open spec fn body_env(outer: Env, r: RoutineSpec) -> Env {
    Env {
        vars: outer.vars,
        arrays: outer.arrays,
        strings: outer.strings,
        consts: outer.consts,
        routines: outer.routines,
        scope: Some(
            ScopeSpec {
                is_function: r.is_func,
                function_name: r.key,
                return_address: r.return_address,
                locals: r.locals,
            },
        ),
    }
}

impl CodeGenerator {
    /// The body of routine `k` of `p`, in the activation record of the
    /// first routine of its name: its entry is set (and the calls to it
    /// patched), then its statements, then `RPU`.
    #[verifier::rlimit(40)]
    fn gen_routine_body(&mut self, name: &Identifier, body: &Block, Ghost(p): Ghost<Program>, Ghost(k): Ghost<int>)
        requires
            old(self).inv(),
            old(self).current_scope is None,
            0 <= k < n_routines(p),
            fits(p),
            *name == routine_name(p, k),
            body.statements@ == routine_body(p, k),
            body.span == routine_body_span(p, k),
            registered_from(old(self).routines_view(), p),
        ensures
            final(self).inv(),
            final(self).current_scope is None,
            final(self).env().vars == old(self).env().vars,
            final(self).env().arrays == old(self).env().arrays,
            final(self).env().strings == old(self).env().strings,
            final(self).env().consts == old(self).env().consts,
            final(self).next_address == old(self).next_address,
            final(self).routines_view() == old(self).routines_view(),
            final(self).routines.len() == old(self).routines.len(),
            old(self).code@.len() <= final(self).code@.len(),
            forall|i: int| 0 <= i < old(self).code@.len() ==> #[trigger] final(self).code@[i] == old(self).code@[i],
            keeps(final(self).diagnostics@, old(self).diagnostics@),
            final(self).diagnostics@.len() >= old(self).diagnostics@.len(),
            forall|jj: int| 0 <= jj < final(self).routines.len() && old(self).routines@[jj].entry_known
                ==> (#[trigger] final(self).routines@[jj]).entry_known && final(self).routines@[jj].entry == old(self).routines@[jj].entry,
            (old(self).clean() && decls_ok(p) && old(self).routines_view() == routine_table(p) && !old(self).routines@[k].entry_known) ==> {
                let r = routine_spec(p, k);
                let env = body_env(old(self).env(), r);
                let st = GenState { temp: 5 + r.declared_local_words, pool: old(self).gstate().pool };
                let base = old(self).code@.len() as int;
                let (bc, st1) = stmts_gen(env, base, st, routine_body(p, k));
                &&& final(self).routines@[k].entry_known
                &&& final(self).routines@[k].entry == CodeAddress(base as u32)
                &&& forall|jj: int| 0 <= jj < final(self).routines.len() && jj != k ==> (#[trigger] final(self).routines@[jj]).entry_known
                    == old(self).routines@[jj].entry_known && final(self).routines@[jj].entry == old(self).routines@[jj].entry
                &&& stmts_ok(env, base, st, routine_body(p, k)) ==> final(self).clean() && final(self).code@ == old(self).code@ + bc
                    + seq![cop(ConfirmedOp::Rpu((r.data_size + r.params.len()) as u16), body.span)] && final(self).gstate().pool == st1.pool
                &&& !stmts_ok(env, base, st, routine_body(p, k)) ==> final(self).diagnostics@.len() > 0
                &&& forall|e: (Span, Seq<char>)| #[trigger] first_unsupported_reports(env, base, st, routine_body(p, k), e)
                    ==> final(self).diagnostics@.len() > 0 && error_at(final(self).diagnostics@[0], e.0, e.1)
            },
    {
        let key = normalize(&name.name);
        let j = match self.find_routine_index(&key) {
            Some(j) => j,
            None => {
                proof {
                    if old(self).clean() && decls_ok(p) && old(self).routines_view() == routine_table(p) {
                        lemma_find_own_routine(p, k, 0);
                    }
                }
                return;
            },
        };
        let ghost s0 = *self;
        let ghost src = choose|s: int| 0 <= s < n_routines(p) && #[trigger] self.routines_view()[j as int] == routine_spec(p, s);
        proof {
            assert(self.routines_view()[j as int] == self.routines@[j as int].spec());
            lemma_find_routine_from(self.routines_view(), key@, 0);
            assert(key_of(routine_name(p, src)) == key_of(routine_name(p, k)));
            assert(5 + locals_of(routine_vars(p, src)).len() + for_temps_stmts(routine_body(p, k)) <= 65535);
            assert(6 + locals_of(routine_vars(p, src)).len() + for_temps_stmts(routine_body(p, src)) + routine_params(p, src).len() <= 65535);
            let pb = (5 + locals_of(routine_vars(p, src)).len() + for_temps_stmts(routine_body(p, src))) as int;
            lemma_params_prefix(routine_params(p, src), pb, routine_params(p, src).len() as int, routine_params(p, src).len() as int);
            assert(routine_params(p, src).take(routine_params(p, src).len() as int) =~= routine_params(p, src));
            if old(self).clean() && decls_ok(p) && old(self).routines_view() == routine_table(p) {
                lemma_find_own_routine(p, k, 0);
                assert(j == k);
            }
        }
        self.begin_routine_body(j);
        let ghost s1 = *self;
        let is_function = self.routines[j].is_func;
        let return_address = self.routines[j].return_address;
        let locals = clone_names(&self.routines[j].locals);
        let next_temp_address = 5 + self.routines[j].declared_local_words;
        self.current_scope = Some(LocalScope { is_function, function_name: key, return_address, locals, next_temp_address });
        let ghost s2 = *self;
        proof {
            assert(self.routines_view()[j as int] == routine_spec(p, src));
            assert(self.inv());
        }
        self.gen_stmts(&body.statements);
        let ghost s3 = *self;
        let b = self.routines[j].data_size + self.routines[j].params.len() as u16;
        self.emit_c(ConfirmedOp::Rpu(b), body.span);
        let ghost s4 = *self;
        self.current_scope = None;
        proof {
            assert(self.routines_view() == s4.routines_view());
            assert(self.inv());
            lemma_extends_trans(&s2, &s3, &s4);
            assert(s2.routines == s1.routines);
            assert forall|jj: int| 0 <= jj < self.routines.len() implies (#[trigger] self.routines@[jj]).entry_known
                == s1.routines@[jj].entry_known && self.routines@[jj].entry == s1.routines@[jj].entry by {
                assert(s4.routines@[jj].entry_known == s2.routines@[jj].entry_known);
            }
            assert forall|jj: int| 0 <= jj < self.routines.len() && old(self).routines@[jj].entry_known
                implies (#[trigger] self.routines@[jj]).entry_known && self.routines@[jj].entry == old(self).routines@[jj].entry by {
                assert(s1.routines@[jj] == old(self).routines@[jj]);
            }
            let r = routine_spec(p, k);
            if old(self).clean() && decls_ok(p) && old(self).routines_view() == routine_table(p) && !old(self).routines@[k].entry_known {
                let env = body_env(old(self).env(), r);
                assert(s2.env() == env);
                let st = GenState { temp: 5 + r.declared_local_words, pool: old(self).gstate().pool };
                assert(s2.gstate() == st);
                let base = old(self).code@.len() as int;
                if stmts_ok(env, base, st, routine_body(p, k)) {
                    assert(self.code@ =~= old(self).code@ + stmts_gen(env, base, st, routine_body(p, k)).0
                        + seq![cop(ConfirmedOp::Rpu((r.data_size + r.params.len()) as u16), body.span)]);
                }
                assert forall|e: (Span, Seq<char>)| #[trigger] first_unsupported_reports(env, base, st, routine_body(p, k), e)
                    implies self.diagnostics@.len() > 0 && error_at(self.diagnostics@[0], e.0, e.1) by {
                    assert(s2.clean());
                    assert(s2.code@.len() == base);
                    assert(first_unsupported_reports(s2.env(), s2.code@.len() as int, s2.gstate(), body.statements@, e));
                    assert(self.diagnostics@[0] == s3.diagnostics@[0]);
                }
            }
        }
    }
}

/// The program declares no `USES` or `TYPE`, only `INTEGER`/`BOOLEAN`
/// constants and global variables.
pub open spec fn decls_head_ok(p: Program) -> bool {
    &&& p.uses@.len() == 0
    &&& p.type_decls@.len() == 0
    &&& forall|i: int| 0 <= i < p.const_decls@.len() ==> (#[trigger] p.const_decls@[i]).value is Int
        || p.const_decls@[i].value is Bool
    &&& forall|i: int| 0 <= i < p.var_decls@.len() ==> var_type_ok((#[trigger] p.var_decls@[i]).ty)
}

/// The first `k` routines are supported and have distinct names.
pub open spec fn routines_ok_upto(p: Program, k: int) -> bool {
    &&& forall|i: int| 0 <= i < k ==> #[trigger] routine_kinds_ok(p, i) && routine_return_kind(p, i) is Some
    &&& forall|i: int, j: int| 0 <= i < j < k ==> key_of(#[trigger] routine_name(p, i)) != key_of(#[trigger] routine_name(p, j))
}

proof fn lemma_decls_ok_parts(p: Program)
    ensures
        decls_ok(p) <==> decls_head_ok(p) && routines_ok_upto(p, n_routines(p)),
{
    if decls_ok(p) {
        assert forall|i: int| 0 <= i < n_routines(p) implies #[trigger] routine_kinds_ok(p, i) && routine_return_kind(p, i) is Some by {
            assert forall|x: int| 0 <= x < routine_vars(p, i).len() implies value_kind_of((#[trigger] routine_vars(p, i)[x]).ty) is Some by {}
            assert forall|x: int| 0 <= x < routine_params(p, i).len() implies value_kind_of((#[trigger] routine_params(p, i)[x]).ty) is Some by {}
        }
    }
    if decls_head_ok(p) && routines_ok_upto(p, n_routines(p)) {
        assert forall|k: int, i: int| 0 <= k < n_routines(p) && 0 <= i < routine_vars(p, k).len()
            implies value_kind_of((#[trigger] routine_vars(p, k)[i]).ty) is Some by {
            assert(routine_kinds_ok(p, k));
        }
        assert forall|k: int, i: int| 0 <= k < n_routines(p) && 0 <= i < routine_params(p, k).len()
            implies value_kind_of((#[trigger] routine_params(p, k)[i]).ty) is Some by {
            assert(routine_kinds_ok(p, k));
        }
        assert forall|k: int| 0 <= k < n_routines(p) implies (#[trigger] routine_return_kind(p, k)) is Some by {
            assert(routine_kinds_ok(p, k));
        }
    }
}

/// A lookup by name finds nothing exactly when no routine has the name.
proof fn lemma_find_routine_none(rs: Seq<RoutineSpec>, key: Seq<char>, i: int)
    requires
        0 <= i <= rs.len(),
    ensures
        find_routine_from(rs, key, i) is None <==> forall|j: int| i <= j < rs.len() ==> #[trigger] rs[j].key != key,
    decreases rs.len() - i,
{
    if i < rs.len() {
        lemma_find_routine_none(rs, key, i + 1);
    }
}

/// Each routine body adds code: the entries grow strictly.
proof fn lemma_bodies_grow(p: Program, i: int, k: int)
    requires
        0 <= i < k,
    ensures
        bodies(p, i).0.len() < bodies(p, k).0.len(),
    decreases k - i,
{
    if i + 1 < k {
        lemma_bodies_grow(p, i, k - 1);
    }
}

/// Sorts the routine table by entry address, keeping the order of equal
/// entries; a table already in order is left as it is.
fn sort_by_entry(v: Vec<RoutineMeta>) -> (r: Vec<RoutineMeta>)
    ensures
        r@.len() == v@.len(),
        forall|i: int, j: int| 0 <= i < j < r@.len() ==> (#[trigger] r@[i]).entry.0 <= (#[trigger] r@[j]).entry.0,
        (forall|i: int, j: int| 0 <= i < j < v@.len() ==> (#[trigger] v@[i]).entry.0 <= (#[trigger] v@[j]).entry.0) ==> r@ == v@,
{
    let mut r: Vec<RoutineMeta> = Vec::new();
    let mut i: usize = 0;
    while i < v.len()
        invariant
            i <= v.len(),
            r@.len() == i,
            forall|a: int, b: int| 0 <= a < b < r@.len() ==> (#[trigger] r@[a]).entry.0 <= (#[trigger] r@[b]).entry.0,
            (forall|a: int, b: int| 0 <= a < b < v@.len() ==> (#[trigger] v@[a]).entry.0 <= (#[trigger] v@[b]).entry.0) ==> r@ == v@.take(i as int),
        decreases v.len() - i,
    {
        let x = v[i];
        let mut pos = r.len();
        while pos > 0 && r[pos - 1].entry.0 > x.entry.0
            invariant
                pos <= r@.len(),
                r@.len() == i,
                forall|a: int, b: int| 0 <= a < b < r@.len() ==> (#[trigger] r@[a]).entry.0 <= (#[trigger] r@[b]).entry.0,
                forall|a: int| pos <= a < r@.len() ==> (#[trigger] r@[a]).entry.0 > x.entry.0,
            decreases pos,
        {
            pos = pos - 1;
        }
        let ghost r0 = r@;
        proof {
            if (forall|a: int, b: int| 0 <= a < b < v@.len() ==> (#[trigger] v@[a]).entry.0 <= (#[trigger] v@[b]).entry.0) {
                if pos < r0.len() {
                    assert(r0[r0.len() - 1] == v@[i - 1]);
                    assert(v@[i - 1].entry.0 <= v@[i as int].entry.0);
                }
            }
        }
        r.insert(pos, x);
        proof {
            assert forall|a: int, b: int| 0 <= a < b < r@.len() implies (#[trigger] r@[a]).entry.0 <= (#[trigger] r@[b]).entry.0 by {
                if a < pos && b == pos {
                    assert(r0[pos - 1].entry.0 <= x.entry.0);
                    if a < pos - 1 {
                        assert(r0[a].entry.0 <= r0[pos - 1].entry.0);
                    }
                } else if a == pos && b > pos {
                    assert(r@[b] == r0[b - 1]);
                } else if a < pos && b > pos {
                    assert(r@[b] == r0[b - 1]);
                } else if a > pos {
                    assert(r@[a] == r0[a - 1]);
                    assert(r@[b] == r0[b - 1]);
                }
            }
            if (forall|a: int, b: int| 0 <= a < b < v@.len() ==> (#[trigger] v@[a]).entry.0 <= (#[trigger] v@[b]).entry.0) {
                assert(pos == r0.len());
                assert(r@ =~= v@.take(i + 1));
            }
        }
        i = i + 1;
    }
    proof {
        if (forall|a: int, b: int| 0 <= a < b < v@.len() ==> (#[trigger] v@[a]).entry.0 <= (#[trigger] v@[b]).entry.0) {
            assert(v@.take(i as int) =~= v@);
        }
    }
    r
}

/// What registering the first `k` routines leaves.
pub closed spec fn registered_upto(g: CodeGenerator, old: CodeGenerator, p: Program, k: int) -> bool {
    &&& g.inv()
    &&& g.code == old.code
    &&& g.instructions == old.instructions
    &&& g.pending_calls == old.pending_calls
    &&& g.current_scope == old.current_scope
    &&& g.string_pool == old.string_pool
    &&& g.vars == old.vars
    &&& g.arrays == old.arrays
    &&& g.strings == old.strings
    &&& g.consts == old.consts
    &&& g.next_address == old.next_address
    &&& g.diagnostics@.len() >= old.diagnostics@.len()
    &&& keeps(g.diagnostics@, old.diagnostics@)
    &&& errors_are(g.diagnostics@.skip(old.diagnostics@.len() as int), reg_errors(p, k))
    &&& forall|key: Seq<char>| #[trigger] find_routine(g.routines_view(), key) is Some
        <==> exists|j: int| 0 <= j < k && #[trigger] key_of(routine_name(p, j)) == key
    &&& registered_from(g.routines_view(), p)
    &&& forall|j: int| 0 <= j < g.routines.len() ==> !(#[trigger] g.routines@[j]).entry_known
    &&& old.clean() ==> (g.clean() <==> routines_ok_upto(p, k))
    &&& (old.clean() && routines_ok_upto(p, k)) ==> g.routines_view() == routine_table(p).take(k)
}

/// The errors of one more registered routine.
proof fn lemma_register_errors(
    p: Program,
    k: int,
    start: Seq<Diagnostic>,
    before: Seq<Diagnostic>,
    mid: Seq<Diagnostic>,
    after: Seq<Diagnostic>,
    dup: bool,
)
    requires
        0 <= k,
        start.len() <= before.len() <= mid.len() <= after.len(),
        errors_are(before.skip(start.len() as int), reg_errors(p, k)),
        errors_are(mid.skip(before.len() as int), routine_errors(p, k).take(mid.len() - before.len())),
        keeps(after, mid),
        keeps(mid, before),
        dup <==> exists|j: int| 0 <= j < k && #[trigger] key_of(routine_name(p, j)) == key_of(routine_name(p, k)),
        mid.len() - before.len() == (if routine_is_func(p, k) && routine_return_kind(p, k) is None { 1int } else { 0 }),
        dup ==> one_error_added(after, mid, routine_name(p, k).span, duplicate_text(routine_name(p, k).name@)),
        !dup ==> errors_are(after.skip(mid.len() as int), local_errors(routine_vars(p, k)) + param_errors(routine_params(p, k))),
    ensures
        errors_are(after.skip(start.len() as int), reg_errors(p, k + 1)),
{
    let rt = mid.len() - before.len();
    let tail = if dup {
        seq![(routine_name(p, k).span, duplicate_text(routine_name(p, k).name@))]
    } else {
        local_errors(routine_vars(p, k)) + param_errors(routine_params(p, k))
    };
    assert(routine_errors(p, k) == routine_errors(p, k).take(rt) + tail);
    if dup {
        assert(after.skip(mid.len() as int) =~= seq![after.last()]);
    }
    let x = after.skip(before.len() as int);
    assert(x.take(rt) =~= mid.skip(before.len() as int)) by {
        assert forall|i: int| 0 <= i < rt implies #[trigger] x.take(rt)[i] == mid.skip(before.len() as int)[i] by {
            assert(after[before.len() + i] == mid[before.len() + i]);
        }
    }
    assert(x.skip(rt) =~= after.skip(mid.len() as int));
    lemma_errors_concat(x, rt, routine_errors(p, k).take(rt), tail);
    let y = after.skip(start.len() as int);
    let m = before.len() - start.len();
    assert(y.take(m) =~= before.skip(start.len() as int)) by {
        assert forall|i: int| 0 <= i < m implies #[trigger] y.take(m)[i] == before.skip(start.len() as int)[i] by {
            assert(after[start.len() + i] == mid[start.len() + i]);
            assert(mid[start.len() + i] == before[start.len() + i]);
        }
    }
    assert(y.skip(m) =~= x);
    lemma_errors_concat(y, m, reg_errors(p, k), routine_errors(p, k));
}

impl CodeGenerator {
    /// Registers routine `k` of the program: procedure `which`, or
    /// function `which`; a function of an unsupported result type is an
    /// error.
    #[verifier::rlimit(40)]
    #[verifier::spinoff_prover]
    fn register_step(&mut self, program: &Program, which: usize, is_func: bool, Ghost(k): Ghost<int>, Ghost(start): Ghost<CodeGenerator>)
        requires
            fits(*program),
            0 <= k < n_routines(*program),
            is_func ==> k == program.proc_decls@.len() + which && which < program.func_decls@.len(),
            !is_func ==> k == which && which < program.proc_decls@.len(),
            registered_upto(*old(self), start, *program, k),
        ensures
            registered_upto(*final(self), start, *program, k + 1),
    {
        let ghost p = *program;
        let ghost before = *self;
        let ghost was_ok = start.clean() && routines_ok_upto(p, k);
        let ghost key = key_of(routine_name(p, k));
        proof {
            if was_ok {
                lemma_find_routine_none(self.routines_view(), key, 0);
                assert forall|j: int| 0 <= j < self.routines_view().len() implies (#[trigger] self.routines_view()[j]).key == key_of(routine_name(p, j)) by {
                    assert(self.routines_view()[j] == routine_table(p).take(k)[j]);
                }
            }
        }
        let ghost mut mid = *self;
        if !is_func {
            let decl = &program.proc_decls[which];
            self.register_routine(&decl.name, &decl.params, &decl.var_decls, &decl.body, false, ValueKind::Int, Ghost(p), Ghost(k));
        } else {
            let decl = &program.func_decls[which];
            let return_kind = match value_kind_of_type(&decl.return_type) {
                Some(kind) => kind,
                None => {
                    let m = type_message("FUNCTION return type ", &decl.return_type, " is out of scope for this step's minimal codegen (only INTEGER/BOOLEAN are supported)");
                    self.diagnostics.push(Diagnostic::new(decl.return_type.span(), Severity::Error, m));
                    ValueKind::Int
                },
            };
            proof {
                mid = *self;
            }
            self.register_routine(&decl.name, &decl.params, &decl.var_decls, &decl.body, true, return_kind, Ghost(p), Ghost(k));
        }
        proof {
            lemma_register_errors(p, k, start.diagnostics@, before.diagnostics@, mid.diagnostics@, self.diagnostics@,
                find_routine(before.routines_view(), key) is Some);
            lemma_find_routine_none(before.routines_view(), key, 0);
            assert forall|key2: Seq<char>| #[trigger] find_routine(self.routines_view(), key2) is Some
                <==> exists|j: int| 0 <= j < k + 1 && #[trigger] key_of(routine_name(p, j)) == key2 by {
                lemma_find_routine_none(before.routines_view(), key2, 0);
                lemma_find_routine_none(self.routines_view(), key2, 0);
                if find_routine(before.routines_view(), key) is None {
                    assert(self.routines_view() == before.routines_view().push(routine_spec(p, k)));
                    assert(routine_spec(p, k).key == key);
                    if key2 == key {
                        assert(self.routines_view()[before.routines_view().len() as int].key == key2);
                    }
                    if find_routine(before.routines_view(), key2) is Some {
                        let jj = choose|jj: int| 0 <= jj < before.routines_view().len() && before.routines_view()[jj].key == key2;
                        assert(self.routines_view()[jj] == before.routines_view()[jj]);
                    }
                    if exists|j: int| 0 <= j < k + 1 && #[trigger] key_of(routine_name(p, j)) == key2 {
                        if key2 != key {
                            let j = choose|j: int| 0 <= j < k + 1 && #[trigger] key_of(routine_name(p, j)) == key2;
                            assert(j < k);
                            assert(exists|j: int| 0 <= j < k && #[trigger] key_of(routine_name(p, j)) == key2);
                        }
                    }
                } else {
                    assert(self.routines == before.routines);
                    assert(exists|j: int| 0 <= j < k && #[trigger] key_of(routine_name(p, j)) == key);
                    if exists|j: int| 0 <= j < k + 1 && #[trigger] key_of(routine_name(p, j)) == key2 {
                        let j = choose|j: int| 0 <= j < k + 1 && #[trigger] key_of(routine_name(p, j)) == key2;
                        if j == k {
                            assert(key2 == key);
                        } else {
                            assert(exists|j: int| 0 <= j < k && #[trigger] key_of(routine_name(p, j)) == key2);
                        }
                    }
                }
            }
            lemma_keeps_trans(start.diagnostics@, before.diagnostics@, self.diagnostics@);
            let b = before.routines_view();
            let found = find_routine(b, key);
            assert forall|j: int| 0 <= j < self.routines.len() implies !(#[trigger] self.routines@[j]).entry_known by {
                if j < before.routines.len() {
                    assert(self.routines@[j] == before.routines@[j]);
                }
            }
            assert forall|j: int| 0 <= j < self.routines_view().len() implies exists|s: int| 0 <= s < n_routines(p) && #[trigger] self.routines_view()[j] == routine_spec(p, s) by {
                if j < b.len() {
                    assert(self.routines_view()[j] == b[j]);
                } else {
                    assert(self.routines_view()[j] == routine_spec(p, k));
                }
            }
            if was_ok {
                if found is Some {
                    let j = choose|j: int| 0 <= j < b.len() && #[trigger] b[j].key == key;
                    assert(b[j].key == key_of(routine_name(p, j)));
                    assert(!routines_ok_upto(p, k + 1));
                } else {
                    assert forall|i: int, j: int| 0 <= i < j < k + 1 implies key_of(#[trigger] routine_name(p, i)) != key_of(#[trigger] routine_name(p, j)) by {
                        if j == k {
                            assert(b[i].key == key_of(routine_name(p, i)));
                        }
                    }
                    assert(self.routines_view() =~= routine_table(p).take(k + 1));
                    if routine_kinds_ok(p, k) && routine_return_kind(p, k) is Some {
                        assert forall|i: int| 0 <= i < k + 1 implies #[trigger] routine_kinds_ok(p, i) && routine_return_kind(p, i) is Some by {
                            if i < k {
                                assert(routine_kinds_ok(p, i));
                            }
                        }
                        assert(routines_ok_upto(p, k + 1));
                    } else {
                        assert(!routines_ok_upto(p, k + 1));
                    }
                }
            } else if start.clean() {
                assert(!routines_ok_upto(p, k + 1));
            }
        }
    }

    /// Registers the program's procedures, then its functions.
    fn register_all(&mut self, program: &Program)
        requires
            old(self).inv(),
            fits(*program),
            old(self).routines.len() == 0,
            old(self).current_scope is None,
        ensures
            registered_upto(*final(self), *old(self), *program, n_routines(*program)),
            (old(self).clean() && routines_ok_upto(*program, n_routines(*program))) ==> final(self).routines_view()
                == routine_table(*program),
    {
        let ghost start = *self;
        let ghost p = *program;
        proof {
            assert(self.routines_view() =~= routine_table(p).take(0));
        }
        let mut i: usize = 0;
        while i < program.proc_decls.len()
            invariant
                i <= program.proc_decls@.len(),
                p == *program,
                start == *old(self),
                fits(p),
                registered_upto(*self, start, p, i as int),
            decreases program.proc_decls.len() - i,
        {
            self.register_step(program, i, false, Ghost(i as int), Ghost(start));
            i = i + 1;
        }
        let mut j: usize = 0;
        while j < program.func_decls.len()
            invariant
                j <= program.func_decls@.len(),
                p == *program,
                start == *old(self),
                fits(p),
                registered_upto(*self, start, p, p.proc_decls@.len() + j),
            decreases program.func_decls.len() - j,
        {
            self.register_step(program, j, true, Ghost(p.proc_decls@.len() + j), Ghost(start));
            j = j + 1;
        }
        proof {
            assert(routine_table(p).take(n_routines(p)) =~= routine_table(p));
        }
    }
}

/// Code generation of the routine bodies starts from the program's names,
/// no code, an empty string pool and no error.
pub closed spec fn bodies_start(g: CodeGenerator, p: Program) -> bool {
    &&& g.clean()
    &&& decls_ok(p)
    &&& g.env() == main_env(p)
    &&& g.code@.len() == 0
    &&& g.gstate().pool.len() == 0
    &&& forall|i: int| 0 <= i < g.routines.len() ==> !(#[trigger] g.routines@[i]).entry_known
}

/// What generating the first `k` routine bodies leaves.
/// Whether one of the first `n` routine bodies, the first that is not
/// supported, reports `e` first (its first unsupported statement settling
/// it).
pub open spec fn body_reports(p: Program, n: int, e: (Span, Seq<char>)) -> bool {
    exists|j: int| 0 <= j < n && bodies(p, j).2 && #[trigger] first_unsupported_reports(
        routine_env(p, j),
        bodies(p, j).0.len() as int,
        GenState { temp: 5 + routine_spec(p, j).declared_local_words, pool: bodies(p, j).1 },
        routine_body(p, j),
        e,
    )
}

pub closed spec fn bodies_upto(g: CodeGenerator, start: CodeGenerator, p: Program, k: int) -> bool {
    &&& g.inv()
    &&& g.current_scope is None
    &&& g.env().vars == start.env().vars
    &&& g.env().arrays == start.env().arrays
    &&& g.env().strings == start.env().strings
    &&& g.env().consts == start.env().consts
    &&& g.next_address == start.next_address
    &&& g.routines_view() == start.routines_view()
    &&& g.routines.len() == start.routines.len()
    &&& g.diagnostics@.len() >= start.diagnostics@.len()
    &&& keeps(g.diagnostics@, start.diagnostics@)
    &&& registered_from(g.routines_view(), p)
    &&& bodies_start(start, p) ==> {
        &&& (g.clean() <==> bodies(p, k).2)
        &&& forall|e: (Span, Seq<char>)| #[trigger] body_reports(p, k, e)
            ==> g.diagnostics@.len() > 0 && error_at(g.diagnostics@[0], e.0, e.1)
        &&& g.clean() ==> {
            &&& g.code@ == bodies(p, k).0
            &&& g.gstate().pool == bodies(p, k).1
            &&& forall|i: int| 0 <= i < k ==> (#[trigger] g.routines@[i]).entry_known && g.routines@[i].entry
                == CodeAddress(bodies(p, i).0.len() as u32)
            &&& forall|i: int| k <= i < g.routines.len() ==> !(#[trigger] g.routines@[i]).entry_known
        }
    }
}

impl CodeGenerator {
    /// Generates the body of routine `k`: procedure or function `which`.
    #[verifier::rlimit(40)]
    fn body_step(&mut self, program: &Program, which: usize, is_func: bool, Ghost(k): Ghost<int>, Ghost(start): Ghost<CodeGenerator>)
        requires
            fits(*program),
            0 <= k < n_routines(*program),
            is_func ==> k == program.proc_decls@.len() + which && which < program.func_decls@.len(),
            !is_func ==> k == which && which < program.proc_decls@.len(),
            bodies_upto(*old(self), start, *program, k),
            bodies_start(start, *program) ==> start.routines.len() == n_routines(*program) && start.routines_view() == routine_table(*program),
        ensures
            bodies_upto(*final(self), start, *program, k + 1),
    {
        let ghost p = *program;
        let ghost before = *self;
        if !is_func {
            let decl = &program.proc_decls[which];
            self.gen_routine_body(&decl.name, &decl.body, Ghost(p), Ghost(k));
        } else {
            let decl = &program.func_decls[which];
            self.gen_routine_body(&decl.name, &decl.body, Ghost(p), Ghost(k));
        }
        proof {
            lemma_keeps_trans(start.diagnostics@, before.diagnostics@, self.diagnostics@);
            if bodies_start(start, p) {
                if before.clean() {
                    assert(before.env() == main_env(p));
                    assert(body_env(before.env(), routine_spec(p, k)) == routine_env(p, k));
                    assert(before.code@.len() == bodies(p, k).0.len());
                }
                assert forall|e: (Span, Seq<char>)| #[trigger] body_reports(p, k + 1, e)
                    implies self.diagnostics@.len() > 0 && error_at(self.diagnostics@[0], e.0, e.1) by {
                    let j = choose|j: int| 0 <= j < k + 1 && bodies(p, j).2 && #[trigger] first_unsupported_reports(
                        routine_env(p, j),
                        bodies(p, j).0.len() as int,
                        GenState { temp: 5 + routine_spec(p, j).declared_local_words, pool: bodies(p, j).1 },
                        routine_body(p, j),
                        e,
                    );
                    if j < k {
                        assert(body_reports(p, k, e));
                        assert(self.diagnostics@[0] == before.diagnostics@[0]);
                    } else {
                        assert(before.clean());
                        assert(before.gstate().pool == bodies(p, k).1);
                    }
                }
                if self.clean() {
                    assert forall|i: int| 0 <= i < k + 1 implies (#[trigger] self.routines@[i]).entry_known && self.routines@[i].entry
                        == CodeAddress(bodies(p, i).0.len() as u32) by {
                        if i < k {
                            assert(before.routines@[i].entry_known);
                        }
                    }
                    assert forall|i: int| k + 1 <= i < self.routines.len() implies !(#[trigger] self.routines@[i]).entry_known by {
                        assert(!before.routines@[i].entry_known);
                    }
                }
            }
        }
    }

    /// Generates the bodies of the procedures, then of the functions.
    fn gen_bodies(&mut self, program: &Program)
        requires
            old(self).inv(),
            fits(*program),
            old(self).current_scope is None,
            registered_from(old(self).routines_view(), *program),
            bodies_start(*old(self), *program) ==> old(self).routines.len() == n_routines(*program)
                && old(self).routines_view() == routine_table(*program),
        ensures
            bodies_upto(*final(self), *old(self), *program, n_routines(*program)),
    {
        let ghost start = *self;
        let ghost p = *program;
        proof {
            if bodies_start(start, p) {
                assert(self.code@ =~= bodies(p, 0).0);
                assert(self.gstate().pool =~= bodies(p, 0).1);
            }
        }
        let mut i: usize = 0;
        while i < program.proc_decls.len()
            invariant
                i <= program.proc_decls@.len(),
                p == *program,
                start == *old(self),
                fits(p),
                bodies_start(start, p) ==> start.routines.len() == n_routines(p) && start.routines_view() == routine_table(p),
                bodies_upto(*self, start, p, i as int),
            decreases program.proc_decls.len() - i,
        {
            self.body_step(program, i, false, Ghost(i as int), Ghost(start));
            i = i + 1;
        }
        let mut j: usize = 0;
        while j < program.func_decls.len()
            invariant
                j <= program.func_decls@.len(),
                p == *program,
                start == *old(self),
                fits(p),
                bodies_start(start, p) ==> start.routines.len() == n_routines(p) && start.routines_view() == routine_table(p),
                bodies_upto(*self, start, p, p.proc_decls@.len() + j),
            decreases program.func_decls.len() - j,
        {
            self.body_step(program, j, true, Ghost(p.proc_decls@.len() + j), Ghost(start));
            j = j + 1;
        }
    }
}

impl CodeGenerator {
    /// The routine table: each routine's entry, parameter count, data size
    /// and whether it is a function, in the order of registration.
    fn routine_metas_out(&self) -> (r: Vec<RoutineMeta>)
        ensures
            r@.len() == self.routines@.len(),
            forall|k: int| 0 <= k < r@.len() ==> #[trigger] r@[k] == (RoutineMeta {
                entry: self.routines@[k].entry,
                param_count: self.routines@[k].params@.len() as u16,
                data_size: self.routines@[k].data_size,
                is_func: self.routines@[k].is_func,
            }),
    {
        let mut r: Vec<RoutineMeta> = Vec::new();
        let mut k: usize = 0;
        while k < self.routines.len()
            invariant
                k <= self.routines@.len(),
                r@.len() == k,
                forall|j: int| 0 <= j < k ==> #[trigger] r@[j] == (RoutineMeta {
                    entry: self.routines@[j].entry,
                    param_count: self.routines@[j].params@.len() as u16,
                    data_size: self.routines@[j].data_size,
                    is_func: self.routines@[j].is_func,
                }),
            decreases self.routines.len() - k,
        {
            let info = &self.routines[k];
            r.push(RoutineMeta {
                entry: info.entry,
                param_count: info.params.len() as u16,
                data_size: info.data_size,
                is_func: info.is_func,
            });
            k = k + 1;
        }
        r
    }

    /// Generates the p-code of a program: the routine bodies, one after the
    /// other from instruction 0, then the program body and `STP`. What the
    /// code generator does not support is reported instead, and then the
    /// result is the diagnostics.
    #[verifier::rlimit(60)]
    pub fn generate(&mut self, program: &Program) -> (r: Result<PCodeModule, Vec<Diagnostic>>)
        requires
            fits(*program),
        ensures
            r is Ok <==> program_ok(*program),
            r matches Ok(m) ==> {
                &&& m.instructions@ == resolve_all(program_code(*program), entries(*program))
                &&& m.global_data_words == final_state(*program).temp
                &&& m.entry == CodeAddress(main_base(*program) as u32)
                &&& pool_view(m.string_pool@) == final_state(*program).pool
                &&& forall|i: int, j: int| 0 <= i < j < m.routines@.len() ==> (#[trigger] m.routines@[i]).entry.0
                    <= (#[trigger] m.routines@[j]).entry.0
                &&& main_base(*program) <= u32::MAX ==> m.routines@ == routine_metas(*program)
            },
            r matches Err(ds) ==> ds@.len() > 0 && forall|i: int| 0 <= i < ds@.len() ==> (#[trigger] ds@[i]).severity
                == Severity::Error,
            r matches Err(ds) ==> ds@.len() >= decl_errors(*program).len()
                && errors_are(ds@.take(decl_errors(*program).len() as int), decl_errors(*program)),
            decl_errors(*program).len() > 0 ==> r is Err,
            program.uses.len() > 0 ==> (r matches Err(ds) && error_at(ds@[0], program.span, uses_text())),
            program.uses.len() == 0 && program.type_decls.len() > 0 ==> (r matches Err(ds)
                && error_at(ds@[0], program.span, type_decls_text())),
            forall|e: (Span, Seq<char>)| decls_ok(*program) && #[trigger] body_reports(*program, n_routines(*program), e)
                ==> (r matches Err(ds) && error_at(ds@[0], e.0, e.1)),
            forall|e: (Span, Seq<char>)| decls_ok(*program) && bodies(*program, n_routines(*program)).2
                && #[trigger] first_unsupported_reports(main_env(*program), main_base(*program), main_state(*program), program.body.statements@, e)
                ==> (r matches Err(ds) && error_at(ds@[0], e.0, e.1)),
    {
        reveal(uses_text);
        reveal(type_decls_text);
        *self = CodeGenerator::new();
        let ghost p = *program;
        if program.uses.len() > 0 {
            self.error(program.span, "cross-unit code generation ('USES') is out of scope for this step's minimal codegen".to_owned());
        }
        if program.type_decls.len() > 0 {
            self.error(
                program.span,
                "TYPE declarations are out of scope for this step's minimal codegen (only built-in INTEGER/BOOLEAN variables are supported)".to_owned(),
            );
        }
        let ghost s0 = *self;
        let ghost h0 = (if p.uses@.len() > 0 { seq![(p.span, uses_text())] } else { Seq::empty() })
            + (if p.type_decls@.len() > 0 { seq![(p.span, type_decls_text())] } else { Seq::empty() });
        proof {
            assert(errors_are(s0.diagnostics@, h0)) by {
                if p.uses@.len() > 0 {
                    assert(s0.diagnostics@.len() >= 1);
                }
            }
            if program.uses.len() > 0 {
                assert(s0.diagnostics@.len() > 0 && error_at(s0.diagnostics@[0], program.span, uses_text()));
            } else if program.type_decls.len() > 0 {
                assert(s0.diagnostics@.len() > 0 && error_at(s0.diagnostics@[0], program.span, type_decls_text()));
            }
        }
        self.declare_consts(&program.const_decls);
        let ghost s1 = *self;
        proof {
            lemma_global_words_prefix(p.var_decls@, p.var_decls@.len() as int, p.var_decls@.len() as int);
            assert(p.var_decls@.take(p.var_decls@.len() as int) =~= p.var_decls@);
        }
        self.declare_vars(&program.var_decls);
        let ghost sa = *self;
        proof {
            lemma_errors_concat(s1.diagnostics@, s0.diagnostics@.len() as int, h0, const_errors(p.const_decls@));
            lemma_errors_concat(sa.diagnostics@, s1.diagnostics@.len() as int, h0 + const_errors(p.const_decls@), var_errors(p.var_decls@));
            assert(h0 + const_errors(p.const_decls@) + var_errors(p.var_decls@) =~= head_errors(p));
            assert(names_view(s0.consts@) =~= Seq::<(Seq<char>, ConstValue)>::empty());
            assert(names_view(self.consts@) =~= consts_of(p.const_decls@));
            assert(sa.clean() <==> decls_head_ok(p));
        }
        self.register_all(program);
        let ghost sb = *self;
        proof {
            lemma_errors_concat(sb.diagnostics@, sa.diagnostics@.len() as int, head_errors(p), reg_errors(p, n_routines(p)));
            lemma_decls_ok_parts(p);
            assert(sb.clean() <==> decls_ok(p));
            if bodies_start(sb, p) {
                assert(sa.clean());
                assert(routines_ok_upto(p, n_routines(p)));
                assert(sb.routines_view() == routine_table(p));
                assert(sb.routines_view().len() == sb.routines@.len());
            }
            if sb.clean() {
                assert(sb.env() == main_env(p));
                assert(sb.code@.len() == 0);
                assert(pool_view(sb.string_pool@) =~= Seq::<Seq<char>>::empty());
                assert(bodies_start(sb, p));
            }
        }
        self.gen_bodies(program);
        let ghost sc = *self;
        let entry = self.here();
        proof {
            assert(self.gstate().temp == global_words(p.var_decls@));
            if sc.clean() {
                assert(sb.clean());
                assert(bodies_start(sb, p));
                assert(sc.env() == main_env(p));
                assert(sc.gstate() == main_state(p));
                assert(sc.code@.len() == main_base(p));
            }
        }
        self.gen_stmts(&program.body.statements);
        let ghost sd = *self;
        self.emit_u(UnconfirmedOp::Stp, program.span);
        proof {
            lemma_extends_trans(&sc, &sd, self);
            lemma_keeps_trans(s0.diagnostics@, s1.diagnostics@, sa.diagnostics@);
            lemma_keeps_trans(s0.diagnostics@, sa.diagnostics@, sb.diagnostics@);
            lemma_keeps_trans(s0.diagnostics@, sb.diagnostics@, sc.diagnostics@);
            assert(keeps(self.diagnostics@, sc.diagnostics@));
            lemma_keeps_trans(s0.diagnostics@, sc.diagnostics@, self.diagnostics@);
            if s0.diagnostics@.len() > 0 {
                assert(self.diagnostics@[0] == s0.diagnostics@[0]);
            }
            assert forall|e: (Span, Seq<char>)| decls_ok(p) && #[trigger] body_reports(p, n_routines(p), e)
                implies self.diagnostics@.len() > 0 && error_at(self.diagnostics@[0], e.0, e.1) by {
                assert(sb.clean());
                assert(bodies_start(sb, p));
                assert(error_at(sc.diagnostics@[0], e.0, e.1));
                assert(self.diagnostics@[0] == sc.diagnostics@[0]);
            }
            assert forall|e: (Span, Seq<char>)| decls_ok(p) && bodies(p, n_routines(p)).2
                && #[trigger] first_unsupported_reports(main_env(p), main_base(p), main_state(p), p.body.statements@, e)
                implies self.diagnostics@.len() > 0 && error_at(self.diagnostics@[0], e.0, e.1) by {
                assert(sb.clean());
                assert(bodies_start(sb, p));
                assert(sc.clean());
                assert(sc.env() == main_env(p));
                assert(sc.gstate() == main_state(p));
                assert(sc.code@.len() == main_base(p));
                assert(error_at(sd.diagnostics@[0], e.0, e.1));
                assert(self.diagnostics@[0] == sd.diagnostics@[0]);
            }
            if sb.clean() {
                assert(bodies_start(sb, p));
            }
            if self.clean() {
                assert(sd.clean() && sc.clean() && sb.clean());
                assert(program_ok(p));
                assert(self.code@ =~= program_code(p));
                assert(self.gstate() == final_state(p));
            }
            if program_ok(p) {
                assert(sb.clean());
                assert(bodies_start(sb, p));
                assert(sc.clean());
                assert(self.clean());
            }
        }
        if self.diagnostics.len() == 0 {
            let metas = self.routine_metas_out();
            proof {
                assert(bodies_start(sb, p));
                assert(self.routines@.len() == n_routines(p));
                assert forall|k: int| 0 <= k < n_routines(p) implies #[trigger] metas@[k] == routine_metas(p)[k] by {
                    assert(self.routines@[k].entry_known == sc.routines@[k].entry_known);
                    assert(self.routines_view()[k] == routine_spec(p, k));
                }
                assert(metas@ =~= routine_metas(p));
                if main_base(p) <= u32::MAX {
                    assert forall|i: int, j: int| 0 <= i < j < metas@.len() implies (#[trigger] metas@[i]).entry.0 <= (#[trigger] metas@[j]).entry.0 by {
                        lemma_bodies_grow(p, i, j);
                        lemma_bodies_grow(p, j, n_routines(p));
                    }
                }
                assert(self.cur_entries() =~= entries(p));
                assert(self.instructions@ =~= resolve_all(program_code(p), entries(p)));
            }
            let routines = sort_by_entry(metas);
            let mut instructions: Vec<Instruction> = Vec::new();
            std::mem::swap(&mut instructions, &mut self.instructions);
            let mut string_pool: Vec<String> = Vec::new();
            std::mem::swap(&mut string_pool, &mut self.string_pool);
            Ok(PCodeModule { instructions, global_data_words: self.next_address, routines, entry, string_pool })
        } else {
            let mut diagnostics: Vec<Diagnostic> = Vec::new();
            std::mem::swap(&mut diagnostics, &mut self.diagnostics);
            Err(diagnostics)
        }
    }
}

} // verus!
