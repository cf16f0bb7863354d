//! What the code generator produces, stated over the syntax tree.
//!
//! Code is stated with calls left symbolic (`SInstr::Call` names the
//! callee by its index in the routine table); [`resolve`] turns it into
//! instructions once the routines' entry addresses are known.
//!
//! A construct the code generator does not support makes the whole
//! generation fail; the `*_ok` predicates say when that does not happen,
//! the `*_gen` / `*_code` functions what code is produced then.

use vstd::prelude::*;

use crate::ast::{BinOp, Expr, ForDirection, Identifier, Literal, ParamDecl, Program, Span, Statement, TypeExpr, UnOp, VarDecl};
use crate::lexer::token::lower_text;
use crate::pcode::builtin::{
    BUILTIN_WRITELN_BOOL, BUILTIN_WRITELN_INT, BUILTIN_WRITELN_NONE, BUILTIN_WRITELN_STRING,
    BUILTIN_WRITELN_STRVAR, KERNEL_SEGMENT,
};
use crate::pcode::ir::{Instruction, RoutineMeta};
use crate::pcode::opcode::{Address, CodeAddress, ConfirmedOp, Level, Opcode, UnconfirmedOp};

verus! {

/// The two kinds of value the code generator supports.
#[derive(Debug, Clone, Copy, PartialEq, Eq, Structural)]
pub enum ValueKind {
    Int,
    Bool,
}

/// A global variable: its word in the global data area and its kind.
#[derive(Debug, Clone, Copy, PartialEq, Eq, Structural)]
pub struct VarSlot {
    pub address: Address,
    pub kind: ValueKind,
}

/// A global array variable of one dimension: its first word, the low
/// bound of its index, its number of elements and their kind. Element
/// `i` is at word `address + (i - low)`.
#[derive(Debug, Clone, Copy, PartialEq, Eq, Structural)]
pub struct ArraySlot {
    pub address: Address,
    pub low: i16,
    pub len: u16,
    pub kind: ValueKind,
}

/// A global `STRING[n]` variable: its first word, which holds the length,
/// and its maximum length `n`; the characters follow, one per word.
#[derive(Debug, Clone, Copy, PartialEq, Eq, Structural)]
pub struct StrSlot {
    pub address: Address,
    pub max_len: u16,
}

/// The value of a `CONST` declaration.
#[derive(Debug, Clone, Copy, PartialEq, Eq, Structural)]
pub enum ConstValue {
    Int(i64),
    Bool(bool),
}

/// A local variable or parameter: its offset in the activation record;
/// `by_ref` when the slot holds the address of the caller's variable
/// (`VAR` parameter).
#[derive(Debug, Clone, Copy, PartialEq, Eq, Structural)]
pub struct FrameSlot {
    pub address: Address,
    pub by_ref: bool,
    pub kind: ValueKind,
}

/// Where a name refers to: how many static links up, the offset there,
/// and whether the word there is an address to go through.
#[derive(Debug, Clone, Copy, PartialEq, Eq, Structural)]
pub struct ResolvedVar {
    pub level: Level,
    pub address: Address,
    pub by_ref: bool,
}

/// An instruction with a call not yet bound to an address.
pub enum SInstr {
    Op(Opcode, Span),
    /// `CPG` to the routine with this index in the routine table.
    Call(int, Span),
}

/// What the code generator knows of a routine while generating code.
pub struct RoutineSpec {
    /// The routine's name in ASCII lower case.
    pub key: Seq<char>,
    pub params: Seq<FrameSlot>,
    pub is_func: bool,
    pub return_address: Option<Address>,
    pub return_kind: ValueKind,
    pub data_size: u16,
    pub declared_local_words: u16,
    /// Local variables then parameters; a later entry hides an earlier
    /// one of the same name.
    pub locals: Seq<(Seq<char>, FrameSlot)>,
}

/// The routine whose body is being generated.
pub struct ScopeSpec {
    pub is_function: bool,
    pub function_name: Seq<char>,
    pub return_address: Option<Address>,
    pub locals: Seq<(Seq<char>, FrameSlot)>,
}

/// The names in scope.
pub struct Env {
    pub vars: Seq<(Seq<char>, VarSlot)>,
    pub arrays: Seq<(Seq<char>, ArraySlot)>,
    pub strings: Seq<(Seq<char>, StrSlot)>,
    pub consts: Seq<(Seq<char>, ConstValue)>,
    pub routines: Seq<RoutineSpec>,
    pub scope: Option<ScopeSpec>,
}

/// What code generation changes besides the code: the next temporary's
/// address and the string pool.
pub struct GenState {
    pub temp: int,
    pub pool: Seq<Seq<char>>,
}

/// Names are compared in ASCII lower case.
pub open spec fn key_of(id: Identifier) -> Seq<char> {
    lower_text(id.name@)
}

/// The value of the last of the first `n` entries named `key`.
pub open spec fn assoc_upto<V>(s: Seq<(Seq<char>, V)>, key: Seq<char>, n: int) -> Option<V>
    decreases n,
{
    if n <= 0 || n > s.len() {
        None
    } else if s[n - 1].0 == key {
        Some(s[n - 1].1)
    } else {
        assoc_upto(s, key, n - 1)
    }
}

/// The value of the last entry named `key`.
pub open spec fn assoc<V>(s: Seq<(Seq<char>, V)>, key: Seq<char>) -> Option<V> {
    assoc_upto(s, key, s.len() as int)
}

/// The index of the first routine at or after `i` named `key`.
pub open spec fn find_routine_from(rs: Seq<RoutineSpec>, key: Seq<char>, i: int) -> Option<int>
    decreases rs.len() - i,
{
    if i < 0 || i >= rs.len() {
        None
    } else if rs[i].key == key {
        Some(i)
    } else {
        find_routine_from(rs, key, i + 1)
    }
}

pub open spec fn find_routine(rs: Seq<RoutineSpec>, key: Seq<char>) -> Option<int> {
    find_routine_from(rs, key, 0)
}

pub proof fn lemma_find_routine_from(rs: Seq<RoutineSpec>, key: Seq<char>, i: int)
    requires
        0 <= i,
    ensures
        find_routine_from(rs, key, i) matches Some(k) ==> i <= k < rs.len() && rs[k].key == key,
    decreases rs.len() - i,
{
    if i < rs.len() && rs[i].key != key {
        lemma_find_routine_from(rs, key, i + 1);
    }
}

pub open spec fn value_kind_of(ty: TypeExpr) -> Option<ValueKind> {
    match ty {
        TypeExpr::Integer(_) => Some(ValueKind::Int),
        TypeExpr::Boolean(_) => Some(ValueKind::Bool),
        _ => None,
    }
}

/// The shape of a supported array type: `ARRAY [lo..hi] OF T` with
/// integer bounds that fit a word, 1 to 32767 elements and `T` either
/// `INTEGER` or `BOOLEAN`; the low bound, the number of elements and
/// their kind.
pub open spec fn array_shape(ty: TypeExpr) -> Option<(int, int, ValueKind)> {
    match ty {
        TypeExpr::Array { index_type, element_type, .. } => match *index_type {
            TypeExpr::Subrange { low: Literal::Int(lo, _), high: Literal::Int(hi, _), .. } => match value_kind_of(
                *element_type,
            ) {
                Some(kind) => if fits_word(lo as int) && fits_word(hi as int) && 1 <= hi - lo + 1 <= 32767 {
                    Some((lo as int, hi - lo + 1, kind))
                } else {
                    None
                },
                None => None,
            },
            _ => None,
        },
        _ => None,
    }
}

/// The maximum length of a supported `STRING[n]` type: 1 to 32766.
pub open spec fn string_len_of(ty: TypeExpr) -> Option<int> {
    match ty {
        TypeExpr::StringN(n, _) => if 1 <= n <= 32766 {
            Some(n as int)
        } else {
            None
        },
        _ => None,
    }
}

/// A `STRING[n]` variable named by `key`, unless a local or parameter of
/// that name hides it: how many static links up it is, and its slot.
pub open spec fn resolve_string_spec(env: Env, key: Seq<char>) -> Option<(Level, StrSlot)> {
    let local = match env.scope {
        Some(sc) => assoc(sc.locals, key),
        None => None,
    };
    match local {
        Some(_) => None,
        None => match assoc(env.strings, key) {
            Some(v) => Some(
                (
                    if env.scope is Some {
                        Level(1)
                    } else {
                        Level(0)
                    },
                    v,
                ),
            ),
            None => None,
        },
    }
}

/// Whether each character's code fits a word.
pub open spec fn chars_fit(text: Seq<char>) -> bool {
    forall|i: int| 0 <= i < text.len() ==> (#[trigger] text[i] as u32) <= 32767
}

/// Stores the characters of `text`, one per word, from word `first` on.
pub open spec fn chars_store_code(level: Level, first: int, text: Seq<char>, sp: Span) -> Seq<SInstr>
    decreases text.len(),
{
    if text.len() == 0 {
        Seq::empty()
    } else {
        chars_store_code(level, first, text.drop_last(), sp) + seq![
            ldc((text.last() as u32) as int, sp),
            uop(UnconfirmedOp::Str(level, Address((first + text.len() - 1) as u16)), sp),
        ]
    }
}

/// Stores a string literal into a `STRING[n]` variable: its length into
/// the first word, then its characters.
pub open spec fn string_store_code(level: Level, v: StrSlot, text: Seq<char>, sp: Span) -> Seq<SInstr> {
    seq![ldc(text.len() as int, sp), uop(UnconfirmedOp::Str(level, v.address), sp)] + chars_store_code(
        level,
        v.address.0 + 1,
        text,
        sp,
    )
}

/// An array named by `key`, unless a local or parameter of that name
/// hides it: how many static links up it is, and its slot.
pub open spec fn resolve_array_spec(env: Env, key: Seq<char>) -> Option<(Level, ArraySlot)> {
    let local = match env.scope {
        Some(sc) => assoc(sc.locals, key),
        None => None,
    };
    match local {
        Some(_) => None,
        None => match assoc(env.arrays, key) {
            Some(a) => Some(
                (
                    if env.scope is Some {
                        Level(1)
                    } else {
                        Level(0)
                    },
                    a,
                ),
            ),
            None => None,
        },
    }
}

/// The array element `arr[index]` as an expression or a target: the array
/// variable `arr`, when it names an array.
pub open spec fn indexed_array(env: Env, arr: Expr) -> Option<(Level, ArraySlot)> {
    match arr {
        Expr::Identifier(id) => resolve_array_spec(env, key_of(id)),
        _ => None,
    }
}

/// Pushes the address of element `index` of an array: the address of
/// the array, the index, minus the low bound.
pub open spec fn element_address_code(level: Level, a: ArraySlot, index: Seq<SInstr>, sp: Span) -> Seq<SInstr> {
    seq![uop(UnconfirmedOp::Lda(level, a.address), sp)] + index + seq![
        ldc(a.low as int, sp),
        uop(UnconfirmedOp::Sbi, sp),
        uop(UnconfirmedOp::Adi, sp),
    ]
}

/// A name resolved in the current scope: locals and parameters first,
/// then global variables (one static link up from a routine body).
pub open spec fn resolve_var_spec(env: Env, key: Seq<char>) -> Option<ResolvedVar> {
    let local = match env.scope {
        Some(sc) => assoc(sc.locals, key),
        None => None,
    };
    match local {
        Some(slot) => Some(ResolvedVar { level: Level(0), address: slot.address, by_ref: slot.by_ref }),
        None => match assoc(env.vars, key) {
            Some(v) => Some(
                ResolvedVar {
                    level: if env.scope is Some {
                        Level(1)
                    } else {
                        Level(0)
                    },
                    address: v.address,
                    by_ref: false,
                },
            ),
            None => None,
        },
    }
}

/// The kind of a name, looked up as `resolve_var_spec` does, then among
/// constants, then as a function without parameters.
pub open spec fn lookup_kind_spec(env: Env, key: Seq<char>) -> Option<ValueKind> {
    let local = match env.scope {
        Some(sc) => assoc(sc.locals, key),
        None => None,
    };
    match local {
        Some(slot) => Some(slot.kind),
        None => match assoc(env.vars, key) {
            Some(v) => Some(v.kind),
            None => match assoc(env.consts, key) {
                Some(ConstValue::Int(_)) => Some(ValueKind::Int),
                Some(ConstValue::Bool(_)) => Some(ValueKind::Bool),
                None => match find_routine(env.routines, key) {
                    Some(k) => if env.routines[k].is_func && env.routines[k].params.len() == 0 {
                        Some(env.routines[k].return_kind)
                    } else {
                        None
                    },
                    None => None,
                },
            },
        },
    }
}

/// The kind of an expression, as far as `WriteLn` needs it.
pub open spec fn infer_kind_spec(env: Env, e: Expr) -> Option<ValueKind>
    decreases e,
{
    match e {
        Expr::IntLiteral(..) => Some(ValueKind::Int),
        Expr::HexIntLiteral(..) => Some(ValueKind::Int),
        Expr::BoolLiteral(..) => Some(ValueKind::Bool),
        Expr::Identifier(id) => lookup_kind_spec(env, key_of(id)),
        Expr::BinaryOp { op, .. } => match op {
            BinOp::Add | BinOp::Sub | BinOp::Mul | BinOp::IntDiv | BinOp::Mod => Some(ValueKind::Int),
            BinOp::Div => None,
            _ => Some(ValueKind::Bool),
        },
        Expr::UnaryOp { op, .. } => match op {
            UnOp::Neg => Some(ValueKind::Int),
            UnOp::Not => Some(ValueKind::Bool),
        },
        Expr::Paren(inner, _) => infer_kind_spec(env, *inner),
        Expr::IndexAccess { array, .. } => match indexed_array(env, *array) {
            Some((_, a)) => Some(a.kind),
            None => None,
        },
        Expr::FuncCall { name, .. } => match find_routine(env.routines, key_of(name)) {
            Some(k) => if env.routines[k].is_func {
                Some(env.routines[k].return_kind)
            } else {
                None
            },
            None => None,
        },
        _ => None,
    }
}

pub open spec fn uop(o: UnconfirmedOp, sp: Span) -> SInstr {
    SInstr::Op(Opcode::Unconfirmed(o), sp)
}

pub open spec fn cop(o: ConfirmedOp, sp: Span) -> SInstr {
    SInstr::Op(Opcode::Confirmed(o), sp)
}

/// Whether a value fits in a 16-bit p-machine word.
pub open spec fn fits_word(v: int) -> bool {
    -32768 <= v <= 32767
}

pub open spec fn ldc(v: int, sp: Span) -> SInstr {
    uop(UnconfirmedOp::Ldc(v as i16), sp)
}

pub open spec fn bool_word(b: bool) -> int {
    if b {
        1
    } else {
        0
    }
}

/// Pushes the value of a variable (through the address for a `VAR`
/// parameter).
pub open spec fn load_code(r: ResolvedVar, sp: Span) -> Seq<SInstr> {
    seq![uop(UnconfirmedOp::Lod(r.level, r.address), sp)] + if r.by_ref {
        seq![uop(UnconfirmedOp::Ind, sp)]
    } else {
        Seq::empty()
    }
}

/// Stores the value that `value` pushes into a variable; for a `VAR`
/// parameter the address is pushed first and `STI` stores through it.
pub open spec fn store_code(r: ResolvedVar, sp: Span, value: Seq<SInstr>) -> Seq<SInstr> {
    if r.by_ref {
        seq![uop(UnconfirmedOp::Lod(r.level, r.address), sp)] + value + seq![uop(UnconfirmedOp::Sti, sp)]
    } else {
        value + seq![uop(UnconfirmedOp::Str(r.level, r.address), sp)]
    }
}

/// Pushes the address of a variable, for a `VAR` argument: a `VAR`
/// parameter passes on the address it holds.
pub open spec fn address_code(r: ResolvedVar, sp: Span) -> Seq<SInstr> {
    if r.by_ref {
        seq![uop(UnconfirmedOp::Lod(r.level, r.address), sp)]
    } else {
        seq![uop(UnconfirmedOp::Lda(r.level, r.address), sp)]
    }
}

/// The opcodes of a binary operator. There is no `<` or `>` opcode:
/// `a < b` is `NOT (a >= b)` and `a > b` is `NOT (a <= b)`. Real
/// division is not supported.
pub open spec fn binop_code(op: BinOp, sp: Span) -> Seq<SInstr> {
    match op {
        BinOp::Add => seq![uop(UnconfirmedOp::Adi, sp)],
        BinOp::Sub => seq![uop(UnconfirmedOp::Sbi, sp)],
        BinOp::Mul => seq![uop(UnconfirmedOp::Mpi, sp)],
        BinOp::IntDiv => seq![uop(UnconfirmedOp::Dvi, sp)],
        BinOp::Mod => seq![uop(UnconfirmedOp::Mod, sp)],
        BinOp::Eq => seq![uop(UnconfirmedOp::Equ, sp)],
        BinOp::NotEq => seq![uop(UnconfirmedOp::Neq, sp)],
        BinOp::Lt => seq![uop(UnconfirmedOp::Geq, sp), uop(UnconfirmedOp::Not, sp)],
        BinOp::Gt => seq![uop(UnconfirmedOp::Leq, sp), uop(UnconfirmedOp::Not, sp)],
        BinOp::LtEq => seq![uop(UnconfirmedOp::Leq, sp)],
        BinOp::GtEq => seq![uop(UnconfirmedOp::Geq, sp)],
        BinOp::And => seq![uop(UnconfirmedOp::And, sp)],
        BinOp::Or => seq![uop(UnconfirmedOp::Ior, sp)],
        BinOp::Div => Seq::empty(),
    }
}

/// A name on its own in an expression: a variable, a constant that fits
/// a word, or a function without parameters (called).
pub open spec fn ident_ok(env: Env, id: Identifier) -> bool {
    let key = key_of(id);
    match resolve_var_spec(env, key) {
        Some(_) => true,
        None => match assoc(env.consts, key) {
            Some(ConstValue::Int(v)) => fits_word(v as int),
            Some(ConstValue::Bool(_)) => true,
            None => match find_routine(env.routines, key) {
                Some(k) => env.routines[k].is_func && env.routines[k].params.len() == 0,
                None => false,
            },
        },
    }
}

pub open spec fn ident_code(env: Env, id: Identifier) -> Seq<SInstr> {
    let key = key_of(id);
    match resolve_var_spec(env, key) {
        Some(r) => load_code(r, id.span),
        None => match assoc(env.consts, key) {
            Some(ConstValue::Int(v)) => seq![ldc(v as int, id.span)],
            Some(ConstValue::Bool(b)) => seq![ldc(bool_word(b), id.span)],
            None => match find_routine(env.routines, key) {
                Some(k) => seq![SInstr::Call(k, id.span)],
                None => Seq::empty(),
            },
        },
    }
}

/// Whether an expression is within what the code generator supports.
pub open spec fn expr_ok(env: Env, e: Expr) -> bool
    decreases e, 0nat,
{
    match e {
        Expr::IntLiteral(v, _) => fits_word(v as int),
        Expr::HexIntLiteral(v, _) => fits_word(v as int),
        Expr::BoolLiteral(..) => true,
        Expr::Identifier(id) => ident_ok(env, id),
        Expr::BinaryOp { op, lhs, rhs, .. } => expr_ok(env, *lhs) && expr_ok(env, *rhs) && op != BinOp::Div,
        Expr::UnaryOp { operand, .. } => expr_ok(env, *operand),
        Expr::Paren(inner, _) => expr_ok(env, *inner),
        Expr::FuncCall { name, args, .. } => match find_routine(env.routines, key_of(name)) {
            Some(k) => env.routines[k].is_func && args_ok(env, env.routines[k].params, args@),
            None => false,
        },
        Expr::IndexAccess { array, index, .. } => indexed_array(env, *array) is Some && expr_ok(env, *index),
        _ => false,
    }
}

/// The code of a supported expression, in postorder: operands first.
pub open spec fn expr_code(env: Env, e: Expr) -> Seq<SInstr>
    decreases e, 0nat,
{
    match e {
        Expr::IntLiteral(v, sp) => seq![ldc(v as int, sp)],
        Expr::HexIntLiteral(v, sp) => seq![ldc(v as int, sp)],
        Expr::BoolLiteral(b, sp) => seq![ldc(bool_word(b), sp)],
        Expr::Identifier(id) => ident_code(env, id),
        Expr::BinaryOp { op, lhs, rhs, span } => expr_code(env, *lhs) + expr_code(env, *rhs)
            + binop_code(op, span),
        Expr::UnaryOp { op, operand, span } => expr_code(env, *operand) + seq![
            uop(
                match op {
                    UnOp::Neg => UnconfirmedOp::Ngi,
                    UnOp::Not => UnconfirmedOp::Not,
                },
                span,
            ),
        ],
        Expr::Paren(inner, _) => expr_code(env, *inner),
        Expr::FuncCall { name, args, span } => match find_routine(env.routines, key_of(name)) {
            Some(k) => args_code(env, env.routines[k].params, args@, span) + seq![SInstr::Call(k, span)],
            None => Seq::empty(),
        },
        Expr::IndexAccess { array, index, span } => match indexed_array(env, *array) {
            Some((level, a)) => element_address_code(level, a, expr_code(env, *index), span) + seq![
                uop(UnconfirmedOp::Ind, span),
            ],
            None => Seq::empty(),
        },
        _ => Seq::empty(),
    }
}

/// A `VAR` argument must be a variable.
pub open spec fn var_arg_ok(env: Env, a: Expr) -> bool {
    match a {
        Expr::Identifier(id) => resolve_var_spec(env, key_of(id)) is Some,
        _ => false,
    }
}

/// As many arguments as parameters, each supported: a variable for a
/// `VAR` parameter, a supported expression otherwise.
pub open spec fn args_ok(env: Env, params: Seq<FrameSlot>, args: Seq<Expr>) -> bool
    decreases args, 1nat,
{
    if args.len() != params.len() {
        false
    } else if args.len() == 0 {
        true
    } else {
        args_ok(env, params.drop_last(), args.drop_last()) && if params.last().by_ref {
            var_arg_ok(env, args.last())
        } else {
            expr_ok(env, args.last())
        }
    }
}

/// The arguments pushed in order: an address for a `VAR` parameter, a
/// value otherwise.
pub open spec fn args_code(env: Env, params: Seq<FrameSlot>, args: Seq<Expr>, sp: Span) -> Seq<SInstr>
    decreases args, 1nat,
{
    if args.len() == 0 || params.len() == 0 {
        Seq::empty()
    } else {
        args_code(env, params.drop_last(), args.drop_last(), sp) + if params.last().by_ref {
            match args.last() {
                Expr::Identifier(id) => match resolve_var_spec(env, key_of(id)) {
                    Some(r) => address_code(r, sp),
                    None => Seq::empty(),
                },
                _ => Seq::empty(),
            }
        } else {
            expr_code(env, args.last())
        }
    }
}

/// Whether each of `args` is a supported expression.
pub open spec fn exprs_ok(env: Env, args: Seq<Expr>) -> bool
    decreases args.len(),
{
    if args.len() == 0 {
        true
    } else {
        exprs_ok(env, args.drop_last()) && expr_ok(env, args.last())
    }
}

/// The values of `args`, pushed in order.
pub open spec fn exprs_code(env: Env, args: Seq<Expr>) -> Seq<SInstr>
    decreases args.len(),
{
    if args.len() == 0 {
        Seq::empty()
    } else {
        exprs_code(env, args.drop_last()) + expr_code(env, args.last())
    }
}

/// A jump whose target is instruction `t`.
pub open spec fn fjp(t: int, sp: Span) -> SInstr {
    uop(UnconfirmedOp::Fjp(CodeAddress(t as u32)), sp)
}

pub open spec fn ujp(t: int, sp: Span) -> SInstr {
    uop(UnconfirmedOp::Ujp(CodeAddress(t as u32)), sp)
}

pub open spec fn is_writeln(key: Seq<char>) -> bool {
    key == "writeln"@
}

/// The built-in procedures other than `WriteLn`, which are not supported.
pub open spec fn is_unsupported_builtin(key: Seq<char>) -> bool {
    key == "write"@ || key == "read"@ || key == "readln"@ || key == "new"@ || key == "dispose"@
}

/// Whether a statement is supported, generated at instruction `base` in
/// state `st`.
pub open spec fn stmt_ok(env: Env, base: int, st: GenState, s: Statement) -> bool
    decreases s, 0nat,
{
    match s {
        Statement::Assignment { target, value, .. } => match target {
            Expr::Identifier(id) => {
                let key = key_of(id);
                let sets_result = match env.scope {
                    Some(sc) => sc.is_function && sc.function_name == key,
                    None => false,
                };
                if sets_result || resolve_var_spec(env, key) is Some {
                    expr_ok(env, value)
                } else {
                    match resolve_string_spec(env, key) {
                        Some((_, v)) => match value {
                            Expr::StringLiteral(text, _) => text@.len() <= v.max_len && chars_fit(text@),
                            _ => false,
                        },
                        None => false,
                    }
                }
            },
            Expr::IndexAccess { array, index, .. } => indexed_array(env, *array) is Some && expr_ok(env, *index)
                && expr_ok(env, value),
            _ => false,
        },
        Statement::If { cond, then_branch, else_branch, span } => {
            let c = expr_code(env, cond);
            let then_base = base + c.len() + 1;
            let (ct, st1) = stmt_gen(env, then_base, st, *then_branch);
            expr_ok(env, cond) && stmt_ok(env, then_base, st, *then_branch) && match else_branch {
                Some(e) => stmt_ok(env, then_base + ct.len() + 1, st1, *e),
                None => true,
            }
        },
        Statement::While { cond, body, .. } => {
            let c = expr_code(env, cond);
            expr_ok(env, cond) && stmt_ok(env, base + c.len() + 1, st, *body)
        },
        Statement::For { var, start, end, direction, body, span } => match resolve_var_spec(env, key_of(var)) {
            Some(r) => {
                let head = for_head_code(env, st, r, start, end, span);
                let test = for_test_code(r, temp_var(st), direction, span);
                let st1 = GenState { temp: st.temp + 1, pool: st.pool };
                expr_ok(env, start) && expr_ok(env, end) && stmt_ok(env, base + head.len() + test.len() + 1, st1, *body)
            },
            None => false,
        },
        Statement::Repeat { body, until_cond, .. } => stmts_ok(env, base, st, body@) && expr_ok(
            env,
            until_cond,
        ),
        Statement::Compound(block) => stmts_ok(env, base, st, block.statements@),
        Statement::CompilerDirective { .. } => true,
        Statement::Case { .. } => false,
        Statement::ProcCall { name, args, .. } => {
            let key = key_of(name);
            if is_writeln(key) {
                writeln_ok(env, st, args@)
            } else if is_unsupported_builtin(key) {
                false
            } else {
                match find_routine(env.routines, key) {
                    Some(k) => !env.routines[k].is_func && args_ok(env, env.routines[k].params, args@),
                    None => false,
                }
            }
        },
    }
}

/// `WriteLn` takes no argument, a string literal (whose pool index must
/// fit a word) or one `INTEGER`/`BOOLEAN` expression.
pub open spec fn writeln_ok(env: Env, st: GenState, args: Seq<Expr>) -> bool {
    if args.len() == 0 {
        true
    } else if args.len() == 1 {
        match args[0] {
            Expr::StringLiteral(..) => fits_word(st.pool.len() as int),
            _ => string_arg(env, args[0]) is Some || (expr_ok(env, args[0]) && infer_kind_spec(env, args[0]) is Some),
        }
    } else {
        false
    }
}

pub open spec fn writeln_gen(env: Env, st: GenState, args: Seq<Expr>, span: Span) -> (Seq<SInstr>, GenState) {
    if args.len() == 0 {
        (seq![cop(ConfirmedOp::Cxg(KERNEL_SEGMENT, BUILTIN_WRITELN_NONE), span)], st)
    } else {
        match args[0] {
            Expr::StringLiteral(v, sp) => (
                seq![
                    ldc(st.pool.len() as int, sp),
                    cop(ConfirmedOp::Cxg(KERNEL_SEGMENT, BUILTIN_WRITELN_STRING), span),
                ],
                GenState { temp: st.temp, pool: st.pool.push(v@) },
            ),
            _ => match string_arg(env, args[0]) {
                Some((level, v)) => (
                    seq![
                        uop(UnconfirmedOp::Lda(level, v.address), span),
                        cop(ConfirmedOp::Cxg(KERNEL_SEGMENT, BUILTIN_WRITELN_STRVAR), span),
                    ],
                    st,
                ),
                None => (
                    expr_code(env, args[0]) + seq![
                        cop(
                            ConfirmedOp::Cxg(
                                KERNEL_SEGMENT,
                                if infer_kind_spec(env, args[0]) == Some(ValueKind::Bool) {
                                    BUILTIN_WRITELN_BOOL
                                } else {
                                    BUILTIN_WRITELN_INT
                                },
                            ),
                            span,
                        ),
                    ],
                    st,
                ),
            },
        }
    }
}

/// The `STRING[n]` variable that an argument of `WriteLn` names, if any.
pub open spec fn string_arg(env: Env, e: Expr) -> Option<(Level, StrSlot)> {
    match e {
        Expr::Identifier(id) => resolve_string_spec(env, key_of(id)),
        _ => None,
    }
}

/// The hidden temporary of a `FOR` loop: the next temporary word.
pub open spec fn temp_var(st: GenState) -> ResolvedVar {
    ResolvedVar { level: Level(0), address: Address(st.temp as u16), by_ref: false }
}

pub open spec fn for_test_code(r: ResolvedVar, limit: ResolvedVar, direction: ForDirection, span: Span) -> Seq<SInstr> {
    load_code(r, span) + load_code(limit, span) + seq![
        uop(
            match direction {
                ForDirection::To => UnconfirmedOp::Leq,
                ForDirection::DownTo => UnconfirmedOp::Geq,
            },
            span,
        ),
    ]
}

pub open spec fn for_step_code(r: ResolvedVar, direction: ForDirection, span: Span) -> Seq<SInstr> {
    store_code(
        r,
        span,
        load_code(r, span) + seq![
            uop(UnconfirmedOp::Ldc(1), span),
            uop(
                match direction {
                    ForDirection::To => UnconfirmedOp::Adi,
                    ForDirection::DownTo => UnconfirmedOp::Sbi,
                },
                span,
            ),
        ],
    )
}

/// The code of a `FOR` loop up to its test, which starts at `loop_start`.
pub open spec fn for_head_code(env: Env, st: GenState, r: ResolvedVar, start: Expr, end: Expr, span: Span) -> Seq<SInstr> {
    store_code(r, span, expr_code(env, start)) + store_code(temp_var(st), span, expr_code(env, end))
}

/// The code of a supported statement generated at instruction `base` in
/// state `st`, and the state after it.
pub open spec fn stmt_gen(env: Env, base: int, st: GenState, s: Statement) -> (Seq<SInstr>, GenState)
    decreases s, 0nat,
{
    match s {
        Statement::Assignment { target, value, span } => match target {
            Expr::Identifier(id) => {
                let key = key_of(id);
                let v = expr_code(env, value);
                match env.scope {
                    Some(sc) if sc.is_function && sc.function_name == key => (
                        v + seq![uop(UnconfirmedOp::Str(Level(0), sc.return_address.unwrap()), span)],
                        st,
                    ),
                    _ => match resolve_var_spec(env, key) {
                        Some(r) => (store_code(r, span, v), st),
                        None => match (resolve_string_spec(env, key), value) {
                            (Some((level, sv)), Expr::StringLiteral(text, _)) => (string_store_code(level, sv, text@, span), st),
                            _ => (Seq::empty(), st),
                        },
                    },
                }
            },
            Expr::IndexAccess { array, index, .. } => match indexed_array(env, *array) {
                Some((level, a)) => (
                    element_address_code(level, a, expr_code(env, *index), span) + expr_code(env, value) + seq![
                        uop(UnconfirmedOp::Sti, span),
                    ],
                    st,
                ),
                None => (Seq::empty(), st),
            },
            _ => (Seq::empty(), st),
        },
        Statement::If { cond, then_branch, else_branch, span } => {
            let c = expr_code(env, cond);
            let then_base = base + c.len() + 1;
            let (ct, st1) = stmt_gen(env, then_base, st, *then_branch);
            match else_branch {
                Some(e) => {
                    let else_base = then_base + ct.len() + 1;
                    let (ce, st2) = stmt_gen(env, else_base, st1, *e);
                    (
                        c + seq![fjp(else_base, span)] + ct + seq![ujp(else_base + ce.len(), span)]
                            + ce,
                        st2,
                    )
                },
                None => (c + seq![fjp(then_base + ct.len(), span)] + ct, st1),
            }
        },
        Statement::While { cond, body, span } => {
            let c = expr_code(env, cond);
            let body_base = base + c.len() + 1;
            let (cb, st1) = stmt_gen(env, body_base, st, *body);
            (
                c + seq![fjp(body_base + cb.len() + 1, span)] + cb + seq![ujp(base, span)],
                st1,
            )
        },
        Statement::For { var, start, end, direction, body, span } => match resolve_var_spec(env, key_of(var)) {
            Some(r) => {
                let head = for_head_code(env, st, r, start, end, span);
                let limit = temp_var(st);
                let loop_start = base + head.len();
                let test = for_test_code(r, limit, direction, span);
                let body_base = loop_start + test.len() + 1;
                let st1 = GenState { temp: st.temp + 1, pool: st.pool };
                let (cb, st2) = stmt_gen(env, body_base, st1, *body);
                let step = for_step_code(r, direction, span);
                (
                    head + test + seq![fjp(body_base + cb.len() + step.len() + 1, span)] + cb + step
                        + seq![ujp(loop_start, span)],
                    st2,
                )
            },
            None => (Seq::empty(), st),
        },
        Statement::Repeat { body, until_cond, span } => {
            let (cb, st1) = stmts_gen(env, base, st, body@);
            (cb + expr_code(env, until_cond) + seq![fjp(base, span)], st1)
        },
        Statement::Compound(block) => stmts_gen(env, base, st, block.statements@),
        Statement::ProcCall { name, args, span } => {
            let key = key_of(name);
            if is_writeln(key) {
                writeln_gen(env, st, args@, span)
            } else {
                match find_routine(env.routines, key) {
                    Some(k) => (
                        args_code(env, env.routines[k].params, args@, span) + seq![SInstr::Call(k, span)],
                        st,
                    ),
                    None => (Seq::empty(), st),
                }
            }
        },
        _ => (Seq::empty(), st),
    }
}

/// Statements in sequence.
pub open spec fn stmts_ok(env: Env, base: int, st: GenState, ss: Seq<Statement>) -> bool
    decreases ss, 1nat,
{
    if ss.len() == 0 {
        true
    } else {
        let (c, st1) = stmts_gen(env, base, st, ss.drop_last());
        stmts_ok(env, base, st, ss.drop_last()) && stmt_ok(env, base + c.len(), st1, ss.last())
    }
}

pub open spec fn stmts_gen(env: Env, base: int, st: GenState, ss: Seq<Statement>) -> (Seq<SInstr>, GenState)
    decreases ss, 1nat,
{
    if ss.len() == 0 {
        (Seq::empty(), st)
    } else {
        let (c, st1) = stmts_gen(env, base, st, ss.drop_last());
        let (c2, st2) = stmt_gen(env, base + c.len(), st1, ss.last());
        (c + c2, st2)
    }
}

/// The number of `FOR` loops in a statement, each of which needs a
/// temporary word (the branches of a `CASE`, which is not supported, are
/// not counted).
pub open spec fn for_temps_stmt(s: Statement) -> nat
    decreases s, 0nat,
{
    match s {
        Statement::For { body, .. } => 1 + for_temps_stmt(*body),
        Statement::If { then_branch, else_branch, .. } => for_temps_stmt(*then_branch) + match else_branch {
            Some(e) => for_temps_stmt(*e),
            None => 0,
        },
        Statement::While { body, .. } => for_temps_stmt(*body),
        Statement::Repeat { body, .. } => for_temps_stmts(body@),
        Statement::Compound(block) => for_temps_stmts(block.statements@),
        _ => 0,
    }
}

pub open spec fn for_temps_stmts(ss: Seq<Statement>) -> nat
    decreases ss, 1nat,
{
    if ss.len() == 0 {
        0
    } else {
        for_temps_stmts(ss.drop_last()) + for_temps_stmt(ss.last())
    }
}

/// Binds the calls of symbolic code to the routines' entry addresses.
pub open spec fn resolve(c: SInstr, entries: Seq<CodeAddress>) -> Instruction {
    match c {
        SInstr::Op(o, sp) => Instruction { opcode: o, span: sp },
        SInstr::Call(k, sp) => Instruction { opcode: Opcode::Confirmed(ConfirmedOp::Cpg(entries[k])), span: sp },
    }
}

pub open spec fn resolve_all(cs: Seq<SInstr>, entries: Seq<CodeAddress>) -> Seq<Instruction> {
    cs.map_values(|c: SInstr| resolve(c, entries))
}

/// The number of routines of a program: its procedures, then its
/// functions, are registered in that order.
pub open spec fn n_routines(p: Program) -> int {
    (p.proc_decls@.len() + p.func_decls@.len()) as int
}

pub open spec fn routine_is_func(p: Program, k: int) -> bool {
    k >= p.proc_decls@.len()
}

pub open spec fn routine_name(p: Program, k: int) -> Identifier {
    if routine_is_func(p, k) {
        p.func_decls@[k - p.proc_decls@.len()].name
    } else {
        p.proc_decls@[k].name
    }
}

pub open spec fn routine_params(p: Program, k: int) -> Seq<ParamDecl> {
    if routine_is_func(p, k) {
        p.func_decls@[k - p.proc_decls@.len()].params@
    } else {
        p.proc_decls@[k].params@
    }
}

pub open spec fn routine_vars(p: Program, k: int) -> Seq<VarDecl> {
    if routine_is_func(p, k) {
        p.func_decls@[k - p.proc_decls@.len()].var_decls@
    } else {
        p.proc_decls@[k].var_decls@
    }
}

pub open spec fn routine_body(p: Program, k: int) -> Seq<Statement> {
    if routine_is_func(p, k) {
        p.func_decls@[k - p.proc_decls@.len()].body.statements@
    } else {
        p.proc_decls@[k].body.statements@
    }
}

pub open spec fn routine_body_span(p: Program, k: int) -> Span {
    if routine_is_func(p, k) {
        p.func_decls@[k - p.proc_decls@.len()].body.span
    } else {
        p.proc_decls@[k].body.span
    }
}

/// The kind a function returns; a procedure has none (`Int` stands in).
pub open spec fn routine_return_kind(p: Program, k: int) -> Option<ValueKind> {
    if routine_is_func(p, k) {
        value_kind_of(p.func_decls@[k - p.proc_decls@.len()].return_type)
    } else {
        Some(ValueKind::Int)
    }
}

/// The words of the global data area that variable declarations take:
/// one per name of an `INTEGER` or `BOOLEAN` declaration, one per element
/// and name of a supported array declaration.
pub open spec fn global_words(decls: Seq<VarDecl>) -> int
    decreases decls.len(),
{
    if decls.len() == 0 {
        0
    } else {
        let d = decls.last();
        global_words(decls.drop_last()) + match value_kind_of(d.ty) {
            Some(_) => d.names@.len() as int,
            None => match array_shape(d.ty) {
                Some((_, len, _)) => d.names@.len() * len,
                None => match string_len_of(d.ty) {
                    Some(n) => d.names@.len() * (1 + n),
                    None => 0,
                },
            },
        }
    }
}

/// Global variables: each name of a supported `INTEGER` or `BOOLEAN`
/// declaration gets the next word of the global data area, from 0.
pub open spec fn globals_of(decls: Seq<VarDecl>) -> Seq<(Seq<char>, VarSlot)>
    decreases decls.len(),
{
    if decls.len() == 0 {
        Seq::empty()
    } else {
        let prev = globals_of(decls.drop_last());
        let base = global_words(decls.drop_last());
        let d = decls.last();
        match value_kind_of(d.ty) {
            Some(kind) => prev + d.names@.map(
                |i: int, n: Identifier| (key_of(n), VarSlot { address: Address((base + i) as u16), kind }),
            ),
            None => prev,
        }
    }
}

/// Global `STRING[n]` variables: each name of a supported declaration gets
/// the next `1 + n` words of the global data area.
pub open spec fn strings_of(decls: Seq<VarDecl>) -> Seq<(Seq<char>, StrSlot)>
    decreases decls.len(),
{
    if decls.len() == 0 {
        Seq::empty()
    } else {
        let prev = strings_of(decls.drop_last());
        let base = global_words(decls.drop_last());
        let d = decls.last();
        match (value_kind_of(d.ty), array_shape(d.ty), string_len_of(d.ty)) {
            (None, None, Some(n)) => prev + d.names@.map(
                |i: int, name: Identifier|
                    (key_of(name), StrSlot { address: Address((base + i * (1 + n)) as u16), max_len: n as u16 }),
            ),
            _ => prev,
        }
    }
}

/// Global arrays: each name of a supported array declaration gets the
/// next words of the global data area, one per element.
pub open spec fn arrays_of(decls: Seq<VarDecl>) -> Seq<(Seq<char>, ArraySlot)>
    decreases decls.len(),
{
    if decls.len() == 0 {
        Seq::empty()
    } else {
        let prev = arrays_of(decls.drop_last());
        let base = global_words(decls.drop_last());
        let d = decls.last();
        match value_kind_of(d.ty) {
            Some(_) => prev,
            None => match array_shape(d.ty) {
                Some((low, len, kind)) => prev + d.names@.map(
                    |i: int, n: Identifier|
                        (
                            key_of(n),
                            ArraySlot { address: Address((base + i * len) as u16), low: low as i16, len: len as u16, kind },
                        ),
                ),
                None => prev,
            },
        }
    }
}

/// Local variables: each name of a supported declaration gets the next
/// word of the activation record, from offset 5 (past the mark stack).
pub open spec fn locals_of(decls: Seq<VarDecl>) -> Seq<(Seq<char>, FrameSlot)>
    decreases decls.len(),
{
    if decls.len() == 0 {
        Seq::empty()
    } else {
        let prev = locals_of(decls.drop_last());
        let d = decls.last();
        match value_kind_of(d.ty) {
            Some(kind) => prev + d.names@.map(
                |i: int, n: Identifier|
                    (key_of(n), FrameSlot { address: Address((5 + prev.len() + i) as u16), by_ref: false, kind }),
            ),
            None => prev,
        }
    }
}

/// Parameters: each supported one gets the next word from `base`.
pub open spec fn params_of(ps: Seq<ParamDecl>, base: int) -> Seq<(Seq<char>, FrameSlot)>
    decreases ps.len(),
{
    if ps.len() == 0 {
        Seq::empty()
    } else {
        let prev = params_of(ps.drop_last(), base);
        let p = ps.last();
        match value_kind_of(p.ty) {
            Some(kind) => prev.push(
                (key_of(p.name), FrameSlot { address: Address((base + prev.len()) as u16), by_ref: p.by_ref, kind }),
            ),
            None => prev,
        }
    }
}

/// The constants of supported (`INTEGER`/`BOOLEAN`) declarations.
pub open spec fn consts_of(decls: Seq<crate::ast::ConstDecl>) -> Seq<(Seq<char>, ConstValue)>
    decreases decls.len(),
{
    if decls.len() == 0 {
        Seq::empty()
    } else {
        let prev = consts_of(decls.drop_last());
        let d = decls.last();
        match d.value {
            Literal::Int(v, _) => prev.push((key_of(d.name), ConstValue::Int(v))),
            Literal::Bool(b, _) => prev.push((key_of(d.name), ConstValue::Bool(b))),
            _ => prev,
        }
    }
}

/// The activation record of routine `k`: local variables from offset 5,
/// then the temporaries of its `FOR` loops (`data_size` words in all),
/// then the parameters, then a function's result.
pub open spec fn routine_spec(p: Program, k: int) -> RoutineSpec {
    let locals = locals_of(routine_vars(p, k));
    let data_size = locals.len() + for_temps_stmts(routine_body(p, k));
    let param_base = 5 + data_size;
    let ps = params_of(routine_params(p, k), param_base as int);
    RoutineSpec {
        key: key_of(routine_name(p, k)),
        params: ps.map_values(|e: (Seq<char>, FrameSlot)| e.1),
        is_func: routine_is_func(p, k),
        return_address: if routine_is_func(p, k) {
            Some(Address((param_base + ps.len()) as u16))
        } else {
            None
        },
        return_kind: match routine_return_kind(p, k) {
            Some(kind) => kind,
            None => ValueKind::Int,
        },
        data_size: data_size as u16,
        declared_local_words: locals.len() as u16,
        locals: locals + ps,
    }
}

pub open spec fn routine_table(p: Program) -> Seq<RoutineSpec> {
    Seq::new(n_routines(p) as nat, |k: int| routine_spec(p, k))
}

/// The names of the program body.
pub open spec fn main_env(p: Program) -> Env {
    Env {
        vars: globals_of(p.var_decls@),
        arrays: arrays_of(p.var_decls@),
        strings: strings_of(p.var_decls@),
        consts: consts_of(p.const_decls@),
        routines: routine_table(p),
        scope: None,
    }
}

/// The names of the body of routine `k`.
pub open spec fn routine_env(p: Program, k: int) -> Env {
    let r = routine_spec(p, k);
    Env {
        vars: globals_of(p.var_decls@),
        arrays: arrays_of(p.var_decls@),
        strings: strings_of(p.var_decls@),
        consts: consts_of(p.const_decls@),
        routines: routine_table(p),
        scope: Some(
            ScopeSpec {
                is_function: r.is_func,
                function_name: r.key,
                return_address: r.return_address,
                locals: r.locals,
            },
        ),
    }
}

/// Every declaration is supported: no `USES` or `TYPE`, only
/// `INTEGER`/`BOOLEAN` constants, variables, parameters and results,
/// global arrays of one dimension of them and global `STRING[n]`
/// variables, and no two routines of the same name.
pub open spec fn decls_ok(p: Program) -> bool {
    &&& p.uses@.len() == 0
    &&& p.type_decls@.len() == 0
    &&& forall|i: int| 0 <= i < p.const_decls@.len() ==> (#[trigger] p.const_decls@[i]).value is Int
        || p.const_decls@[i].value is Bool
    &&& forall|i: int| 0 <= i < p.var_decls@.len() ==> value_kind_of((#[trigger] p.var_decls@[i]).ty) is Some
        || array_shape(p.var_decls@[i].ty) is Some || string_len_of(p.var_decls@[i].ty) is Some
    &&& forall|k: int, i: int| 0 <= k < n_routines(p) && 0 <= i < routine_vars(p, k).len()
        ==> value_kind_of((#[trigger] routine_vars(p, k)[i]).ty) is Some
    &&& forall|k: int, i: int| 0 <= k < n_routines(p) && 0 <= i < routine_params(p, k).len()
        ==> value_kind_of((#[trigger] routine_params(p, k)[i]).ty) is Some
    &&& forall|k: int| 0 <= k < n_routines(p) ==> (#[trigger] routine_return_kind(p, k)) is Some
    &&& forall|j: int, k: int| 0 <= j < k < n_routines(p) ==> key_of(#[trigger] routine_name(p, j))
        != key_of(#[trigger] routine_name(p, k))
}

/// The bodies of the first `n` routines, one after the other from
/// instruction 0, each closed by `RPU`: their code, the string pool
/// after them, and whether all are supported.
pub open spec fn bodies(p: Program, n: int) -> (Seq<SInstr>, Seq<Seq<char>>, bool)
    decreases n,
{
    if n <= 0 {
        (Seq::empty(), Seq::empty(), true)
    } else {
        let (c, pool, ok) = bodies(p, n - 1);
        let k = n - 1;
        let r = routine_spec(p, k);
        let env = routine_env(p, k);
        let st = GenState { temp: 5 + r.declared_local_words, pool };
        let (bc, st1) = stmts_gen(env, c.len() as int, st, routine_body(p, k));
        (
            c + bc + seq![cop(ConfirmedOp::Rpu((r.data_size + r.params.len()) as u16), routine_body_span(p, k))],
            st1.pool,
            ok && stmts_ok(env, c.len() as int, st, routine_body(p, k)),
        )
    }
}

/// The entry address of each routine.
pub open spec fn entries(p: Program) -> Seq<CodeAddress> {
    Seq::new(n_routines(p) as nat, |k: int| CodeAddress(bodies(p, k).0.len() as u32))
}

/// Where the program body starts: after all routine bodies.
pub open spec fn main_base(p: Program) -> int {
    bodies(p, n_routines(p)).0.len() as int
}

pub open spec fn main_state(p: Program) -> GenState {
    GenState { temp: global_words(p.var_decls@), pool: bodies(p, n_routines(p)).1 }
}

/// The whole code: the routine bodies, the program body, then `STP`.
pub open spec fn program_code(p: Program) -> Seq<SInstr> {
    bodies(p, n_routines(p)).0 + stmts_gen(main_env(p), main_base(p), main_state(p), p.body.statements@).0
        + seq![uop(UnconfirmedOp::Stp, p.span)]
}

/// The program state after its body: the global data words and the
/// string pool.
pub open spec fn final_state(p: Program) -> GenState {
    stmts_gen(main_env(p), main_base(p), main_state(p), p.body.statements@).1
}

/// Whether code generation succeeds.
pub open spec fn program_ok(p: Program) -> bool {
    &&& decls_ok(p)
    &&& bodies(p, n_routines(p)).2
    &&& stmts_ok(main_env(p), main_base(p), main_state(p), p.body.statements@)
}

/// The routine table of the module: entry, parameter count, data size and
/// whether it is a function, for each routine.
pub open spec fn routine_metas(p: Program) -> Seq<RoutineMeta> {
    Seq::new(
        n_routines(p) as nat,
        |k: int|
            RoutineMeta {
                entry: entries(p)[k],
                param_count: routine_spec(p, k).params.len() as u16,
                data_size: routine_spec(p, k).data_size,
                is_func: routine_spec(p, k).is_func,
            },
    )
}

/// The sizes stay within the 16-bit words the p-machine addresses: the
/// global data area, and each activation record (locals, `FOR`
/// temporaries, parameters and result); a routine's body is generated in
/// the record of the first routine of its name.
pub open spec fn fits(p: Program) -> bool {
    &&& global_words(p.var_decls@) + for_temps_stmts(p.body.statements@) <= 65535
    &&& forall|k: int| 0 <= k < n_routines(p) ==> 6 + locals_of(routine_vars(p, k)).len()
        + for_temps_stmts(#[trigger] routine_body(p, k)) + routine_params(p, k).len() <= 65535
    &&& forall|j: int, k: int| 0 <= j < n_routines(p) && 0 <= k < n_routines(p)
        && key_of(#[trigger] routine_name(p, j)) == key_of(#[trigger] routine_name(p, k))
        ==> 5 + locals_of(routine_vars(p, j)).len() + for_temps_stmts(routine_body(p, k)) <= 65535
}

} // verus!
