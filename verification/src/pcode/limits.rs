//! Whether a program's data fits the 16-bit addresses of the p-machine,
//! decided before code is generated for it.

use vstd::prelude::*;

use crate::ast::{Identifier, ParamDecl, Program, Statement, VarDecl};
use crate::lexer::token::eq_ignore_ascii_case;
use crate::pcode::codegen::{array_shape_of, normalize, string_len_of_type, value_kind_of_type};
use crate::pcode::gen_spec::{
    fits, for_temps_stmt, for_temps_stmts, global_words, key_of, locals_of, n_routines, routine_body,
    routine_name, routine_params, routine_vars,
};
use crate::strings::chars_of;

verus! {

/// A count, or 65536 for any count from there up.
pub open spec fn capped(n: int) -> int {
    if n < 65536 {
        n
    } else {
        65536
    }
}

fn cap_add(a: u32, b: u32) -> (r: u32)
    requires
        a <= 65536,
        b <= 65536,
    ensures
        r == capped(a + b),
{
    if a + b < 65536 {
        a + b
    } else {
        65536
    }
}

fn cap_len(n: usize) -> (r: u32)
    ensures
        r == capped(n as int),
{
    if n < 65536 {
        n as u32
    } else {
        65536
    }
}

/// The `FOR` loops of a statement, counted up to 65536.
fn temps_stmt_capped(stmt: &Statement) -> (r: u32)
    ensures
        r == capped(for_temps_stmt(*stmt) as int),
    decreases stmt, 1nat,
{
    match stmt {
        Statement::For { body, .. } => {
            let b = temps_stmt_capped(body);
            cap_add(1, b)
        },
        Statement::If { then_branch, else_branch, .. } => {
            let t = temps_stmt_capped(then_branch);
            match else_branch {
                Some(e) => {
                    let f = temps_stmt_capped(e);
                    cap_add(t, f)
                },
                None => t,
            }
        },
        Statement::While { body, .. } => temps_stmt_capped(body),
        Statement::Repeat { body, .. } => {
            proof {
                assert(decreases_to!(stmt => body));
            }
            temps_stmts_capped(body)
        },
        Statement::Compound(block) => {
            proof {
                assert(decreases_to!(stmt => block.statements));
            }
            temps_stmts_capped(&block.statements)
        },
        _ => 0,
    }
}

/// The `FOR` loops of a sequence of statements, counted up to 65536.
fn temps_stmts_capped(ss: &Vec<Statement>) -> (r: u32)
    ensures
        r == capped(for_temps_stmts(ss@) as int),
    decreases ss, 0nat,
{
    let mut total: u32 = 0;
    let mut i: usize = 0;
    proof {
        assert(ss@.take(0) =~= Seq::<Statement>::empty());
    }
    while i < ss.len()
        invariant
            i <= ss.len(),
            total == capped(for_temps_stmts(ss@.take(i as int)) as int),
        decreases ss.len() - i,
    {
        proof {
            assert(ss@.take(i + 1).drop_last() =~= ss@.take(i as int));
            assert(decreases_to!(ss => ss@[i as int]));
        }
        let t = temps_stmt_capped(&ss[i]);
        total = cap_add(total, t);
        i = i + 1;
    }
    proof {
        assert(ss@.take(i as int) =~= ss@);
    }
    total
}

/// The words that a routine's local variable declarations take, counted
/// up to 65536.
fn local_words_capped(decls: &Vec<VarDecl>) -> (r: u32)
    ensures
        r == capped(locals_of(decls@).len() as int),
{
    proof {
        assert(decls@.take(0) =~= Seq::<VarDecl>::empty());
    }
    let mut total: u32 = 0;
    let mut i: usize = 0;
    while i < decls.len()
        invariant
            i <= decls.len(),
            total == capped(locals_of(decls@.take(i as int)).len() as int),
        decreases decls.len() - i,
    {
        proof {
            assert(decls@.take(i + 1).drop_last() =~= decls@.take(i as int));
        }
        let d = &decls[i];
        if value_kind_of_type(&d.ty).is_some() {
            let n = cap_len(d.names.len());
            total = cap_add(total, n);
        }
        i = i + 1;
    }
    proof {
        assert(decls@.take(i as int) =~= decls@);
    }
    total
}

/// `n` words `len` times over, counted up to 65536.
fn cap_product(n: usize, len: u16) -> (r: u32)
    ensures
        r == capped(n * len),
{
    proof {
        assert(n * len <= 0xffff_ffff_ffff_ffff * 0xffff) by (nonlinear_arith)
            requires
                n <= 0xffff_ffff_ffff_ffff,
                len <= 0xffff,
        ;
        assert(n * len >= 0) by (nonlinear_arith);
    }
    let product: u128 = (n as u128) * (len as u128);
    if product < 65536 {
        product as u32
    } else {
        65536
    }
}

/// The words of the global data area that the variable declarations of a
/// program take, counted up to 65536.
fn global_words_capped(decls: &Vec<VarDecl>) -> (r: u32)
    ensures
        r == capped(global_words(decls@)),
{
    proof {
        assert(decls@.take(0) =~= Seq::<VarDecl>::empty());
    }
    let mut total: u32 = 0;
    let mut i: usize = 0;
    while i < decls.len()
        invariant
            i <= decls.len(),
            total == capped(global_words(decls@.take(i as int))),
            global_words(decls@.take(i as int)) >= 0,
        decreases decls.len() - i,
    {
        proof {
            assert(decls@.take(i + 1).drop_last() =~= decls@.take(i as int));
        }
        let d = &decls[i];
        if value_kind_of_type(&d.ty).is_some() {
            let n = cap_len(d.names.len());
            total = cap_add(total, n);
        } else {
            match array_shape_of(&d.ty) {
                Some((_, len, _)) => {
                    let w = cap_product(d.names.len(), len);
                    total = cap_add(total, w);
                },
                None => match string_len_of_type(&d.ty) {
                    Some(n) => {
                        let w = cap_product(d.names.len(), 1 + n);
                        total = cap_add(total, w);
                    },
                    None => {},
                },
            }
        }
        i = i + 1;
    }
    proof {
        assert(decls@.take(i as int) =~= decls@);
    }
    total
}

fn routine_vars_of(p: &Program, k: u128) -> (r: &Vec<VarDecl>)
    requires
        k < n_routines(*p),
    ensures
        r@ == routine_vars(*p, k as int),
{
    let np = p.proc_decls.len();
    if k < np as u128 {
        let i = k as usize;
        assert(i as int == k as int);
        &p.proc_decls[i].var_decls
    } else {
        let d: u128 = k - np as u128;
        assert(d < p.func_decls.len());
        let i = d as usize;
        assert(i as int == d as int);
        &p.func_decls[i].var_decls
    }
}

fn routine_body_of(p: &Program, k: u128) -> (r: &Vec<Statement>)
    requires
        k < n_routines(*p),
    ensures
        r@ == routine_body(*p, k as int),
{
    let np = p.proc_decls.len();
    if k < np as u128 {
        let i = k as usize;
        assert(i as int == k as int);
        &p.proc_decls[i].body.statements
    } else {
        let d: u128 = k - np as u128;
        assert(d < p.func_decls.len());
        let i = d as usize;
        assert(i as int == d as int);
        &p.func_decls[i].body.statements
    }
}

fn routine_params_of(p: &Program, k: u128) -> (r: &Vec<ParamDecl>)
    requires
        k < n_routines(*p),
    ensures
        r@ == routine_params(*p, k as int),
{
    let np = p.proc_decls.len();
    if k < np as u128 {
        let i = k as usize;
        assert(i as int == k as int);
        &p.proc_decls[i].params
    } else {
        let d: u128 = k - np as u128;
        assert(d < p.func_decls.len());
        let i = d as usize;
        assert(i as int == d as int);
        &p.func_decls[i].params
    }
}

fn routine_name_of(p: &Program, k: u128) -> (r: &Identifier)
    requires
        k < n_routines(*p),
    ensures
        *r == routine_name(*p, k as int),
{
    let np = p.proc_decls.len();
    if k < np as u128 {
        let i = k as usize;
        assert(i as int == k as int);
        &p.proc_decls[i].name
    } else {
        let d: u128 = k - np as u128;
        assert(d < p.func_decls.len());
        let i = d as usize;
        assert(i as int == d as int);
        &p.func_decls[i].name
    }
}

/// Whether code can be generated for `p` within the p-machine's 16-bit
/// addresses: the global data area, and each routine's activation
/// record, counted as the code generator lays them out.
pub fn program_fits(p: &Program) -> (r: bool)
    ensures
        r == fits(*p),
{
    let g = global_words_capped(&p.var_decls);
    let t = temps_stmts_capped(&p.body.statements);
    if cap_add(g, t) > 65535 {
        return false;
    }
    let n: u128 = p.proc_decls.len() as u128 + p.func_decls.len() as u128;
    let mut k: u128 = 0;
    while k < n
        invariant
            n == n_routines(*p),
            k <= n,
            forall|i: int| 0 <= i < k ==> 6 + locals_of(routine_vars(*p, i)).len()
                + for_temps_stmts(#[trigger] routine_body(*p, i)) + routine_params(*p, i).len() <= 65535,
        decreases n - k,
    {
        let l = local_words_capped(routine_vars_of(p, k));
        let b = temps_stmts_capped(routine_body_of(p, k));
        let a = cap_len(routine_params_of(p, k).len());
        if cap_add(cap_add(cap_add(6, l), b), a) > 65535 {
            return false;
        }
        k = k + 1;
    }
    let mut j: u128 = 0;
    while j < n
        invariant
            n == n_routines(*p),
            j <= n,
            forall|jj: int, kk: int| 0 <= jj < j && 0 <= kk < n_routines(*p)
                && key_of(#[trigger] routine_name(*p, jj)) == key_of(#[trigger] routine_name(*p, kk))
                ==> 5 + locals_of(routine_vars(*p, jj)).len() + for_temps_stmts(routine_body(*p, kk)) <= 65535,
        decreases n - j,
    {
        let l = local_words_capped(routine_vars_of(p, j));
        let name_j = chars_of(routine_name_of(p, j).name.as_str());
        let mut k: u128 = 0;
        while k < n
            invariant
                n == n_routines(*p),
                j < n,
                k <= n,
                l == capped(locals_of(routine_vars(*p, j as int)).len() as int),
                name_j@ == routine_name(*p, j as int).name@,
                forall|kk: int| 0 <= kk < k && key_of(routine_name(*p, j as int)) == key_of(
                    #[trigger] routine_name(*p, kk),
                ) ==> 5 + locals_of(routine_vars(*p, j as int)).len() + for_temps_stmts(routine_body(*p, kk))
                    <= 65535,
            decreases n - k,
        {
            let key_k = normalize(&routine_name_of(p, k).name);
            if eq_ignore_ascii_case(&name_j, key_k.as_str()) {
                let b = temps_stmts_capped(routine_body_of(p, k));
                if cap_add(cap_add(5, l), b) > 65535 {
                    return false;
                }
            }
            k = k + 1;
        }
        j = j + 1;
    }
    true
}

} // verus!
