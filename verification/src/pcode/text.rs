//! The text form of p-code: one mnemonic line per instruction, like a
//! disassembly listing.

use vstd::prelude::*;

use crate::pcode::ir::{Instruction, PCodeModule, RoutineMeta};
use crate::pcode::opcode::{ConfirmedOp, Opcode, UnconfirmedOp};
use crate::strings::{decimal, digit_count, lemma_decimal_injective, lemma_decimal_shape, push_decimal, push_digits, push_str, string_push};

verus! {

pub open spec fn dec(v: int) -> Seq<char> {
    decimal(v)
}

/// The mnemonic of a confirmed opcode with its operands.
pub open spec fn confirmed_text(op: ConfirmedOp) -> Seq<char> {
    match op {
        ConfirmedOp::Cpl(t) => "CPL "@ + dec(t.0 as int),
        ConfirmedOp::Cpg(t) => "CPG "@ + dec(t.0 as int),
        ConfirmedOp::Cpi(db, t) => "CPI "@ + dec(db as int) + ","@ + dec(t.0 as int),
        ConfirmedOp::Scpi1(t) => "SCPI1 "@ + dec(t.0 as int),
        ConfirmedOp::Scpi2(t) => "SCPI2 "@ + dec(t.0 as int),
        ConfirmedOp::Rpu(b) => "RPU "@ + dec(b as int),
        ConfirmedOp::Cxg(seg, p) => "CXG "@ + dec(seg as int) + ","@ + dec(p as int),
    }
}

/// The mnemonic of an unconfirmed opcode with its operands.
pub open spec fn unconfirmed_text(op: UnconfirmedOp) -> Seq<char> {
    match op {
        UnconfirmedOp::Ldc(v) => "LDC "@ + dec(v as int),
        UnconfirmedOp::Lod(l, a) => "LOD "@ + dec(l.0 as int) + ","@ + dec(a.0 as int),
        UnconfirmedOp::Str(l, a) => "STR "@ + dec(l.0 as int) + ","@ + dec(a.0 as int),
        UnconfirmedOp::Lda(l, a) => "LDA "@ + dec(l.0 as int) + ","@ + dec(a.0 as int),
        UnconfirmedOp::Ind => "IND"@,
        UnconfirmedOp::Sti => "STI"@,
        UnconfirmedOp::Adi => "ADI"@,
        UnconfirmedOp::Sbi => "SBI"@,
        UnconfirmedOp::Mpi => "MPI"@,
        UnconfirmedOp::Dvi => "DVI"@,
        UnconfirmedOp::Mod => "MOD"@,
        UnconfirmedOp::Ngi => "NGI"@,
        UnconfirmedOp::Equ => "EQU"@,
        UnconfirmedOp::Neq => "NEQ"@,
        UnconfirmedOp::Leq => "LEQ"@,
        UnconfirmedOp::Geq => "GEQ"@,
        UnconfirmedOp::And => "AND"@,
        UnconfirmedOp::Ior => "IOR"@,
        UnconfirmedOp::Not => "NOT"@,
        UnconfirmedOp::Ujp(t) => "UJP "@ + dec(t.0 as int),
        UnconfirmedOp::Fjp(t) => "FJP "@ + dec(t.0 as int),
        UnconfirmedOp::Stp => "STP"@,
    }
}

pub open spec fn opcode_text(op: Opcode) -> Seq<char> {
    match op {
        Opcode::Confirmed(c) => confirmed_text(c),
        Opcode::Unconfirmed(u) => unconfirmed_text(u),
    }
}

/// `n` spaces.
pub open spec fn spaces(n: nat) -> Seq<char> {
    Seq::new(n, |i: int| ' ')
}

/// The decimal text of `i`, right-aligned in five columns.
pub open spec fn index_column(i: nat) -> Seq<char> {
    let d = dec(i as int);
    if d.len() < 5 {
        spaces((5 - d.len()) as nat) + d
    } else {
        d
    }
}

/// The listing lines of the instructions, `index: mnemonic` each.
pub open spec fn instruction_lines(code: Seq<Instruction>) -> Seq<char>
    decreases code.len(),
{
    if code.len() == 0 {
        Seq::empty()
    } else {
        instruction_lines(code.drop_last()) + index_column((code.len() - 1) as nat) + ": "@
            + opcode_text(code.last().opcode) + seq!['\n']
    }
}

pub open spec fn bool_text(b: bool) -> Seq<char> {
    if b {
        "true"@
    } else {
        "false"@
    }
}

pub open spec fn routine_lines(routines: Seq<RoutineMeta>) -> Seq<char>
    decreases routines.len(),
{
    if routines.len() == 0 {
        Seq::empty()
    } else {
        let r = routines.last();
        routine_lines(routines.drop_last()) + ";   entry="@ + dec(r.entry.0 as int) + " params="@
            + dec(r.param_count as int) + " data_size="@ + dec(r.data_size as int) + " is_func="@
            + bool_text(r.is_func) + seq!['\n']
    }
}

pub open spec fn pool_lines(pool: Seq<Seq<char>>) -> Seq<char>
    decreases pool.len(),
{
    if pool.len() == 0 {
        Seq::empty()
    } else {
        pool_lines(pool.drop_last()) + ";   ["@ + dec((pool.len() - 1) as int) + "] "@ + debug_text(pool.last())
            + seq!['\n']
    }
}

/// The whole listing: the instructions, then the routine table and the
/// string pool when they are not empty.
pub open spec fn module_text(
    code: Seq<Instruction>,
    routines: Seq<RoutineMeta>,
    pool: Seq<Seq<char>>,
) -> Seq<char> {
    instruction_lines(code) + (if routines.len() == 0 {
        Seq::empty()
    } else {
        "; routines (entry, params, data_size, is_func):\n"@ + routine_lines(routines)
    }) + (if pool.len() == 0 {
        Seq::empty()
    } else {
        "; string pool:\n"@ + pool_lines(pool)
    })
}

fn push_confirmed(s: &mut String, op: &ConfirmedOp)
    ensures
        final(s)@ == old(s)@ + confirmed_text(*op),
{
    let ghost start = s@;
    match op {
        ConfirmedOp::Cpl(t) => {
            push_str(s, "CPL ");
            push_decimal(s, t.0 as i64);
        },
        ConfirmedOp::Cpg(t) => {
            push_str(s, "CPG ");
            push_decimal(s, t.0 as i64);
        },
        ConfirmedOp::Cpi(db, t) => {
            push_str(s, "CPI ");
            push_decimal(s, *db as i64);
            push_str(s, ",");
            push_decimal(s, t.0 as i64);
        },
        ConfirmedOp::Scpi1(t) => {
            push_str(s, "SCPI1 ");
            push_decimal(s, t.0 as i64);
        },
        ConfirmedOp::Scpi2(t) => {
            push_str(s, "SCPI2 ");
            push_decimal(s, t.0 as i64);
        },
        ConfirmedOp::Rpu(b) => {
            push_str(s, "RPU ");
            push_decimal(s, *b as i64);
        },
        ConfirmedOp::Cxg(seg, p) => {
            push_str(s, "CXG ");
            push_decimal(s, *seg as i64);
            push_str(s, ",");
            push_decimal(s, *p as i64);
        },
    }
    proof {
        assert(s@ =~= start + confirmed_text(*op));
    }
}

fn push_level_addr(s: &mut String, name: &str, l: u8, a: u16)
    ensures
        final(s)@ == old(s)@ + name@ + dec(l as int) + ","@ + dec(a as int),
{
    let ghost start = s@;
    push_str(s, name);
    push_decimal(s, l as i64);
    push_str(s, ",");
    push_decimal(s, a as i64);
    proof {
        assert(s@ =~= start + name@ + dec(l as int) + ","@ + dec(a as int));
    }
}

fn push_unconfirmed(s: &mut String, op: &UnconfirmedOp)
    ensures
        final(s)@ == old(s)@ + unconfirmed_text(*op),
{
    let ghost start = s@;
    match op {
        UnconfirmedOp::Ldc(v) => {
            push_str(s, "LDC ");
            push_decimal(s, *v as i64);
        },
        UnconfirmedOp::Lod(l, a) => push_level_addr(s, "LOD ", l.0, a.0),
        UnconfirmedOp::Str(l, a) => push_level_addr(s, "STR ", l.0, a.0),
        UnconfirmedOp::Lda(l, a) => push_level_addr(s, "LDA ", l.0, a.0),
        UnconfirmedOp::Ind => push_str(s, "IND"),
        UnconfirmedOp::Sti => push_str(s, "STI"),
        UnconfirmedOp::Adi => push_str(s, "ADI"),
        UnconfirmedOp::Sbi => push_str(s, "SBI"),
        UnconfirmedOp::Mpi => push_str(s, "MPI"),
        UnconfirmedOp::Dvi => push_str(s, "DVI"),
        UnconfirmedOp::Mod => push_str(s, "MOD"),
        UnconfirmedOp::Ngi => push_str(s, "NGI"),
        UnconfirmedOp::Equ => push_str(s, "EQU"),
        UnconfirmedOp::Neq => push_str(s, "NEQ"),
        UnconfirmedOp::Leq => push_str(s, "LEQ"),
        UnconfirmedOp::Geq => push_str(s, "GEQ"),
        UnconfirmedOp::And => push_str(s, "AND"),
        UnconfirmedOp::Ior => push_str(s, "IOR"),
        UnconfirmedOp::Not => push_str(s, "NOT"),
        UnconfirmedOp::Ujp(t) => {
            push_str(s, "UJP ");
            push_decimal(s, t.0 as i64);
        },
        UnconfirmedOp::Fjp(t) => {
            push_str(s, "FJP ");
            push_decimal(s, t.0 as i64);
        },
        UnconfirmedOp::Stp => push_str(s, "STP"),
    }
    proof {
        assert(s@ =~= start + unconfirmed_text(*op));
    }
}

/// The mnemonic text of an opcode.
pub fn format_opcode(opcode: &Opcode) -> (r: String)
    ensures
        r@ == opcode_text(*opcode),
{
    let mut s = String::new();
    match opcode {
        Opcode::Confirmed(op) => push_confirmed(&mut s, op),
        Opcode::Unconfirmed(op) => push_unconfirmed(&mut s, op),
    }
    proof {
        assert(s@ =~= opcode_text(*opcode));
    }
    s
}

/// The mnemonic text of an instruction.
pub fn format_instruction(instruction: &Instruction) -> (r: String)
    ensures
        r@ == opcode_text(instruction.opcode),
{
    format_opcode(&instruction.opcode)
}

/// The mnemonic text of a confirmed opcode.
pub fn format_confirmed(op: &ConfirmedOp) -> (r: String)
    ensures
        r@ == confirmed_text(*op),
{
    let mut s = String::new();
    push_confirmed(&mut s, op);
    proof {
        assert(s@ =~= confirmed_text(*op));
    }
    s
}

/// The mnemonic text of an unconfirmed opcode.
pub fn format_unconfirmed(op: &UnconfirmedOp) -> (r: String)
    ensures
        r@ == unconfirmed_text(*op),
{
    let mut s = String::new();
    push_unconfirmed(&mut s, op);
    proof {
        assert(s@ =~= unconfirmed_text(*op));
    }
    s
}

fn push_index_column(s: &mut String, i: usize)
    ensures
        final(s)@ == old(s)@ + index_column(i as nat),
{
    let ghost start = s@;
    let n = digit_count(i as u64);
    if n < 5 {
        let mut k: u64 = 0;
        while k < 5 - n
            invariant
                n < 5,
                k <= 5 - n,
                s@ == start + spaces(k as nat),
            decreases 5 - n - k,
        {
            string_push(s, ' ');
            k = k + 1;
            proof {
                assert(spaces(k as nat) =~= spaces((k - 1) as nat).push(' '));
            }
        }
    }
    push_digits(s, i as u64);
    proof {
        assert(s@ =~= start + index_column(i as nat));
    }
}

/// `String`'s `Debug` text: the string in double quotes, with the
/// characters that `char::escape_debug` escapes written as escapes.
pub uninterp spec fn debug_text(s: Seq<char>) -> Seq<char>;

/// `format!("{:?}", s)`, std's `Debug` formatting of a string slice.
/// Its result is a function of `s` alone, named `debug_text`.
#[verifier::external_body]
fn debug_quote(s: &str) -> (r: String)
    ensures
        r@ == debug_text(s@),
{
    format!("{:?}", s)
}

/// The text of each string of the pool.
pub open spec fn pool_view(pool: Seq<String>) -> Seq<Seq<char>> {
    pool.map_values(|t: String| t@)
}

fn push_opcode(s: &mut String, opcode: &Opcode)
    ensures
        final(s)@ == old(s)@ + opcode_text(*opcode),
{
    match opcode {
        Opcode::Confirmed(op) => push_confirmed(s, op),
        Opcode::Unconfirmed(op) => push_unconfirmed(s, op),
    }
}

fn push_bool(s: &mut String, b: bool)
    ensures
        final(s)@ == old(s)@ + bool_text(b),
{
    if b {
        push_str(s, "true");
    } else {
        push_str(s, "false");
    }
}

fn push_routine_line(s: &mut String, r: &RoutineMeta)
    ensures
        final(s)@ == old(s)@ + ";   entry="@ + dec(r.entry.0 as int) + " params="@ + dec(
            r.param_count as int,
        ) + " data_size="@ + dec(r.data_size as int) + " is_func="@ + bool_text(r.is_func)
            + seq!['\n'],
{
    let ghost start = s@;
    push_str(s, ";   entry=");
    push_digits(s, r.entry.0 as u64);
    push_str(s, " params=");
    push_digits(s, r.param_count as u64);
    push_str(s, " data_size=");
    push_digits(s, r.data_size as u64);
    push_str(s, " is_func=");
    push_bool(s, r.is_func);
    string_push(s, '\n');
    proof {
        assert(s@ =~= start + ";   entry="@ + dec(r.entry.0 as int) + " params="@ + dec(
            r.param_count as int,
        ) + " data_size="@ + dec(r.data_size as int) + " is_func="@ + bool_text(r.is_func)
            + seq!['\n']);
    }
}

impl PCodeModule {
    /// The listing of the module: one `index: mnemonic` line per
    /// instruction, the index right-aligned in five columns; then, when
    /// there are any, the routine table and the string pool, each under a
    /// comment header.
    pub fn to_text(&self) -> (r: String)
        ensures
            r@ == module_text(self.instructions@, self.routines@, pool_view(self.string_pool@)),
    {
        let mut s = String::new();
        let mut i: usize = 0;
        while i < self.instructions.len()
            invariant
                i <= self.instructions.len(),
                s@ == instruction_lines(self.instructions@.take(i as int)),
            decreases self.instructions.len() - i,
        {
            let ghost before = s@;
            push_index_column(&mut s, i);
            push_str(&mut s, ": ");
            push_opcode(&mut s, &self.instructions[i].opcode);
            string_push(&mut s, '\n');
            proof {
                let t = self.instructions@.take(i + 1);
                assert(t.drop_last() =~= self.instructions@.take(i as int));
                assert(s@ =~= instruction_lines(t));
            }
            i = i + 1;
        }
        proof {
            assert(self.instructions@.take(i as int) =~= self.instructions@);
        }
        let ghost code_text = s@;
        if self.routines.len() > 0 {
            push_str(&mut s, "; routines (entry, params, data_size, is_func):\n");
            let ghost header = s@;
            let mut j: usize = 0;
            while j < self.routines.len()
                invariant
                    j <= self.routines.len(),
                    s@ == header + routine_lines(self.routines@.take(j as int)),
                decreases self.routines.len() - j,
            {
                push_routine_line(&mut s, &self.routines[j]);
                proof {
                    let t = self.routines@.take(j + 1);
                    assert(t.drop_last() =~= self.routines@.take(j as int));
                    assert(s@ =~= header + routine_lines(t));
                }
                j = j + 1;
            }
            proof {
                assert(self.routines@.take(j as int) =~= self.routines@);
            }
        }
        let ghost routine_text = s@;
        let ghost pool = pool_view(self.string_pool@);
        if self.string_pool.len() > 0 {
            push_str(&mut s, "; string pool:\n");
            let ghost header = s@;
            let mut j: usize = 0;
            while j < self.string_pool.len()
                invariant
                    j <= self.string_pool.len(),
                    pool == pool_view(self.string_pool@),
                    s@ == header + pool_lines(pool.take(j as int)),
                decreases self.string_pool.len() - j,
            {
                push_str(&mut s, ";   [");
                push_digits(&mut s, j as u64);
                push_str(&mut s, "] ");
                let q = debug_quote(self.string_pool[j].as_str());
                push_str(&mut s, q.as_str());
                string_push(&mut s, '\n');
                proof {
                    let t = pool.take(j + 1);
                    assert(t.drop_last() =~= pool.take(j as int));
                    assert(t.last() == self.string_pool@[j as int]@);
                    assert(s@ =~= header + pool_lines(t));
                }
                j = j + 1;
            }
            proof {
                assert(pool.take(j as int) =~= pool);
            }
        }
        proof {
            assert(s@ =~= module_text(self.instructions@, self.routines@, pool));
        }
        s
    }
}


/// Whether an unconfirmed opcode has no operand.
pub open spec fn operand_free(op: UnconfirmedOp) -> bool {
    !(op is Ldc || op is Lod || op is Str || op is Lda || op is Ujp || op is Fjp)
}

/// Each operand-free opcode's mnemonic, as its three letters.
proof fn lemma_mnemonic_letters(op: UnconfirmedOp)
    requires
        operand_free(op),
    ensures
        unconfirmed_text(op).len() == 3,
        ({
            let t = unconfirmed_text(op);
            let k = (t[0], t[1], t[2]);
            &&& (op is Ind <==> k == ('I', 'N', 'D'))
            &&& (op is Sti <==> k == ('S', 'T', 'I'))
            &&& (op is Adi <==> k == ('A', 'D', 'I'))
            &&& (op is Sbi <==> k == ('S', 'B', 'I'))
            &&& (op is Mpi <==> k == ('M', 'P', 'I'))
            &&& (op is Dvi <==> k == ('D', 'V', 'I'))
            &&& (op is Mod <==> k == ('M', 'O', 'D'))
            &&& (op is Ngi <==> k == ('N', 'G', 'I'))
            &&& (op is Equ <==> k == ('E', 'Q', 'U'))
            &&& (op is Neq <==> k == ('N', 'E', 'Q'))
            &&& (op is Leq <==> k == ('L', 'E', 'Q'))
            &&& (op is Geq <==> k == ('G', 'E', 'Q'))
            &&& (op is And <==> k == ('A', 'N', 'D'))
            &&& (op is Ior <==> k == ('I', 'O', 'R'))
            &&& (op is Not <==> k == ('N', 'O', 'T'))
            &&& (op is Stp <==> k == ('S', 'T', 'P'))
        }),
        forall|i: int| 0 <= i < 3 ==> 'A' <= #[trigger] unconfirmed_text(op)[i] <= 'Z',
{
    match op {
        UnconfirmedOp::Ind => {
            reveal_strlit("IND");
            assert(unconfirmed_text(op) =~= seq!['I', 'N', 'D']);
        },
        UnconfirmedOp::Sti => {
            reveal_strlit("STI");
            assert(unconfirmed_text(op) =~= seq!['S', 'T', 'I']);
        },
        UnconfirmedOp::Adi => {
            reveal_strlit("ADI");
            assert(unconfirmed_text(op) =~= seq!['A', 'D', 'I']);
        },
        UnconfirmedOp::Sbi => {
            reveal_strlit("SBI");
            assert(unconfirmed_text(op) =~= seq!['S', 'B', 'I']);
        },
        UnconfirmedOp::Mpi => {
            reveal_strlit("MPI");
            assert(unconfirmed_text(op) =~= seq!['M', 'P', 'I']);
        },
        UnconfirmedOp::Dvi => {
            reveal_strlit("DVI");
            assert(unconfirmed_text(op) =~= seq!['D', 'V', 'I']);
        },
        UnconfirmedOp::Mod => {
            reveal_strlit("MOD");
            assert(unconfirmed_text(op) =~= seq!['M', 'O', 'D']);
        },
        UnconfirmedOp::Ngi => {
            reveal_strlit("NGI");
            assert(unconfirmed_text(op) =~= seq!['N', 'G', 'I']);
        },
        UnconfirmedOp::Equ => {
            reveal_strlit("EQU");
            assert(unconfirmed_text(op) =~= seq!['E', 'Q', 'U']);
        },
        UnconfirmedOp::Neq => {
            reveal_strlit("NEQ");
            assert(unconfirmed_text(op) =~= seq!['N', 'E', 'Q']);
        },
        UnconfirmedOp::Leq => {
            reveal_strlit("LEQ");
            assert(unconfirmed_text(op) =~= seq!['L', 'E', 'Q']);
        },
        UnconfirmedOp::Geq => {
            reveal_strlit("GEQ");
            assert(unconfirmed_text(op) =~= seq!['G', 'E', 'Q']);
        },
        UnconfirmedOp::And => {
            reveal_strlit("AND");
            assert(unconfirmed_text(op) =~= seq!['A', 'N', 'D']);
        },
        UnconfirmedOp::Ior => {
            reveal_strlit("IOR");
            assert(unconfirmed_text(op) =~= seq!['I', 'O', 'R']);
        },
        UnconfirmedOp::Not => {
            reveal_strlit("NOT");
            assert(unconfirmed_text(op) =~= seq!['N', 'O', 'T']);
        },
        UnconfirmedOp::Stp => {
            reveal_strlit("STP");
            assert(unconfirmed_text(op) =~= seq!['S', 'T', 'P']);
        },
        _ => {},
    }
}

/// The operand-free opcodes are told apart by their text: two of them
/// with the same mnemonic are the same opcode, and each mnemonic is three
/// upper-case letters.
pub proof fn lemma_operand_free_mnemonics_are_distinct(op1: UnconfirmedOp, op2: UnconfirmedOp)
    requires
        operand_free(op1),
        operand_free(op2),
    ensures
        unconfirmed_text(op1) == unconfirmed_text(op2) ==> op1 == op2,
        unconfirmed_text(op1).len() == 3,
        forall|i: int| 0 <= i < 3 ==> 'A' <= #[trigger] unconfirmed_text(op1)[i] <= 'Z',
{
    lemma_mnemonic_letters(op1);
    lemma_mnemonic_letters(op2);
}


/// Which of the opcode kinds `op` is, by a number.
pub open spec fn kind_index(op: Opcode) -> int {
    match op {
        Opcode::Unconfirmed(UnconfirmedOp::Ldc(v)) => 0,
        Opcode::Unconfirmed(UnconfirmedOp::Lod(l, a)) => 1,
        Opcode::Unconfirmed(UnconfirmedOp::Str(l, a)) => 2,
        Opcode::Unconfirmed(UnconfirmedOp::Lda(l, a)) => 3,
        Opcode::Unconfirmed(UnconfirmedOp::Ind) => 4,
        Opcode::Unconfirmed(UnconfirmedOp::Sti) => 5,
        Opcode::Unconfirmed(UnconfirmedOp::Adi) => 6,
        Opcode::Unconfirmed(UnconfirmedOp::Sbi) => 7,
        Opcode::Unconfirmed(UnconfirmedOp::Mpi) => 8,
        Opcode::Unconfirmed(UnconfirmedOp::Dvi) => 9,
        Opcode::Unconfirmed(UnconfirmedOp::Mod) => 10,
        Opcode::Unconfirmed(UnconfirmedOp::Ngi) => 11,
        Opcode::Unconfirmed(UnconfirmedOp::Equ) => 12,
        Opcode::Unconfirmed(UnconfirmedOp::Neq) => 13,
        Opcode::Unconfirmed(UnconfirmedOp::Leq) => 14,
        Opcode::Unconfirmed(UnconfirmedOp::Geq) => 15,
        Opcode::Unconfirmed(UnconfirmedOp::And) => 16,
        Opcode::Unconfirmed(UnconfirmedOp::Ior) => 17,
        Opcode::Unconfirmed(UnconfirmedOp::Not) => 18,
        Opcode::Unconfirmed(UnconfirmedOp::Ujp(t)) => 19,
        Opcode::Unconfirmed(UnconfirmedOp::Fjp(t)) => 20,
        Opcode::Unconfirmed(UnconfirmedOp::Stp) => 21,
        Opcode::Confirmed(ConfirmedOp::Cpl(t)) => 22,
        Opcode::Confirmed(ConfirmedOp::Cpg(t)) => 23,
        Opcode::Confirmed(ConfirmedOp::Cpi(db, t)) => 24,
        Opcode::Confirmed(ConfirmedOp::Scpi1(t)) => 25,
        Opcode::Confirmed(ConfirmedOp::Scpi2(t)) => 26,
        Opcode::Confirmed(ConfirmedOp::Rpu(b)) => 27,
        Opcode::Confirmed(ConfirmedOp::Cxg(seg, p)) => 28,
    }
}

/// The number of operands of `op`.
pub open spec fn operand_count(op: Opcode) -> int {
    match op {
        Opcode::Unconfirmed(UnconfirmedOp::Ldc(v)) => 1,
        Opcode::Unconfirmed(UnconfirmedOp::Lod(l, a)) => 2,
        Opcode::Unconfirmed(UnconfirmedOp::Str(l, a)) => 2,
        Opcode::Unconfirmed(UnconfirmedOp::Lda(l, a)) => 2,
        Opcode::Unconfirmed(UnconfirmedOp::Ind) => 0,
        Opcode::Unconfirmed(UnconfirmedOp::Sti) => 0,
        Opcode::Unconfirmed(UnconfirmedOp::Adi) => 0,
        Opcode::Unconfirmed(UnconfirmedOp::Sbi) => 0,
        Opcode::Unconfirmed(UnconfirmedOp::Mpi) => 0,
        Opcode::Unconfirmed(UnconfirmedOp::Dvi) => 0,
        Opcode::Unconfirmed(UnconfirmedOp::Mod) => 0,
        Opcode::Unconfirmed(UnconfirmedOp::Ngi) => 0,
        Opcode::Unconfirmed(UnconfirmedOp::Equ) => 0,
        Opcode::Unconfirmed(UnconfirmedOp::Neq) => 0,
        Opcode::Unconfirmed(UnconfirmedOp::Leq) => 0,
        Opcode::Unconfirmed(UnconfirmedOp::Geq) => 0,
        Opcode::Unconfirmed(UnconfirmedOp::And) => 0,
        Opcode::Unconfirmed(UnconfirmedOp::Ior) => 0,
        Opcode::Unconfirmed(UnconfirmedOp::Not) => 0,
        Opcode::Unconfirmed(UnconfirmedOp::Ujp(t)) => 1,
        Opcode::Unconfirmed(UnconfirmedOp::Fjp(t)) => 1,
        Opcode::Unconfirmed(UnconfirmedOp::Stp) => 0,
        Opcode::Confirmed(ConfirmedOp::Cpl(t)) => 1,
        Opcode::Confirmed(ConfirmedOp::Cpg(t)) => 1,
        Opcode::Confirmed(ConfirmedOp::Cpi(db, t)) => 2,
        Opcode::Confirmed(ConfirmedOp::Scpi1(t)) => 1,
        Opcode::Confirmed(ConfirmedOp::Scpi2(t)) => 1,
        Opcode::Confirmed(ConfirmedOp::Rpu(b)) => 1,
        Opcode::Confirmed(ConfirmedOp::Cxg(seg, p)) => 2,
    }
}

/// The first operand of `op`, as an integer (0 when it has none).
pub open spec fn first_operand(op: Opcode) -> int {
    match op {
        Opcode::Unconfirmed(UnconfirmedOp::Ldc(v)) => v as int,
        Opcode::Unconfirmed(UnconfirmedOp::Lod(l, a)) => l.0 as int,
        Opcode::Unconfirmed(UnconfirmedOp::Str(l, a)) => l.0 as int,
        Opcode::Unconfirmed(UnconfirmedOp::Lda(l, a)) => l.0 as int,
        Opcode::Unconfirmed(UnconfirmedOp::Ind) => 0,
        Opcode::Unconfirmed(UnconfirmedOp::Sti) => 0,
        Opcode::Unconfirmed(UnconfirmedOp::Adi) => 0,
        Opcode::Unconfirmed(UnconfirmedOp::Sbi) => 0,
        Opcode::Unconfirmed(UnconfirmedOp::Mpi) => 0,
        Opcode::Unconfirmed(UnconfirmedOp::Dvi) => 0,
        Opcode::Unconfirmed(UnconfirmedOp::Mod) => 0,
        Opcode::Unconfirmed(UnconfirmedOp::Ngi) => 0,
        Opcode::Unconfirmed(UnconfirmedOp::Equ) => 0,
        Opcode::Unconfirmed(UnconfirmedOp::Neq) => 0,
        Opcode::Unconfirmed(UnconfirmedOp::Leq) => 0,
        Opcode::Unconfirmed(UnconfirmedOp::Geq) => 0,
        Opcode::Unconfirmed(UnconfirmedOp::And) => 0,
        Opcode::Unconfirmed(UnconfirmedOp::Ior) => 0,
        Opcode::Unconfirmed(UnconfirmedOp::Not) => 0,
        Opcode::Unconfirmed(UnconfirmedOp::Ujp(t)) => t.0 as int,
        Opcode::Unconfirmed(UnconfirmedOp::Fjp(t)) => t.0 as int,
        Opcode::Unconfirmed(UnconfirmedOp::Stp) => 0,
        Opcode::Confirmed(ConfirmedOp::Cpl(t)) => t.0 as int,
        Opcode::Confirmed(ConfirmedOp::Cpg(t)) => t.0 as int,
        Opcode::Confirmed(ConfirmedOp::Cpi(db, t)) => db as int,
        Opcode::Confirmed(ConfirmedOp::Scpi1(t)) => t.0 as int,
        Opcode::Confirmed(ConfirmedOp::Scpi2(t)) => t.0 as int,
        Opcode::Confirmed(ConfirmedOp::Rpu(b)) => b as int,
        Opcode::Confirmed(ConfirmedOp::Cxg(seg, p)) => seg as int,
    }
}

/// The second operand of `op`, as an integer (0 when it has none).
pub open spec fn second_operand(op: Opcode) -> int {
    match op {
        Opcode::Unconfirmed(UnconfirmedOp::Ldc(v)) => 0,
        Opcode::Unconfirmed(UnconfirmedOp::Lod(l, a)) => a.0 as int,
        Opcode::Unconfirmed(UnconfirmedOp::Str(l, a)) => a.0 as int,
        Opcode::Unconfirmed(UnconfirmedOp::Lda(l, a)) => a.0 as int,
        Opcode::Unconfirmed(UnconfirmedOp::Ind) => 0,
        Opcode::Unconfirmed(UnconfirmedOp::Sti) => 0,
        Opcode::Unconfirmed(UnconfirmedOp::Adi) => 0,
        Opcode::Unconfirmed(UnconfirmedOp::Sbi) => 0,
        Opcode::Unconfirmed(UnconfirmedOp::Mpi) => 0,
        Opcode::Unconfirmed(UnconfirmedOp::Dvi) => 0,
        Opcode::Unconfirmed(UnconfirmedOp::Mod) => 0,
        Opcode::Unconfirmed(UnconfirmedOp::Ngi) => 0,
        Opcode::Unconfirmed(UnconfirmedOp::Equ) => 0,
        Opcode::Unconfirmed(UnconfirmedOp::Neq) => 0,
        Opcode::Unconfirmed(UnconfirmedOp::Leq) => 0,
        Opcode::Unconfirmed(UnconfirmedOp::Geq) => 0,
        Opcode::Unconfirmed(UnconfirmedOp::And) => 0,
        Opcode::Unconfirmed(UnconfirmedOp::Ior) => 0,
        Opcode::Unconfirmed(UnconfirmedOp::Not) => 0,
        Opcode::Unconfirmed(UnconfirmedOp::Ujp(t)) => 0,
        Opcode::Unconfirmed(UnconfirmedOp::Fjp(t)) => 0,
        Opcode::Unconfirmed(UnconfirmedOp::Stp) => 0,
        Opcode::Confirmed(ConfirmedOp::Cpl(t)) => 0,
        Opcode::Confirmed(ConfirmedOp::Cpg(t)) => 0,
        Opcode::Confirmed(ConfirmedOp::Cpi(db, t)) => t.0 as int,
        Opcode::Confirmed(ConfirmedOp::Scpi1(t)) => 0,
        Opcode::Confirmed(ConfirmedOp::Scpi2(t)) => 0,
        Opcode::Confirmed(ConfirmedOp::Rpu(b)) => 0,
        Opcode::Confirmed(ConfirmedOp::Cxg(seg, p)) => p as int,
    }
}

/// The mnemonic that begins the text of `op`, with the space before its
/// operands when it has any.
pub open spec fn mnemonic_of(op: Opcode) -> Seq<char> {
    match op {
        Opcode::Unconfirmed(UnconfirmedOp::Ldc(v)) => "LDC "@,
        Opcode::Unconfirmed(UnconfirmedOp::Lod(l, a)) => "LOD "@,
        Opcode::Unconfirmed(UnconfirmedOp::Str(l, a)) => "STR "@,
        Opcode::Unconfirmed(UnconfirmedOp::Lda(l, a)) => "LDA "@,
        Opcode::Unconfirmed(UnconfirmedOp::Ind) => "IND"@,
        Opcode::Unconfirmed(UnconfirmedOp::Sti) => "STI"@,
        Opcode::Unconfirmed(UnconfirmedOp::Adi) => "ADI"@,
        Opcode::Unconfirmed(UnconfirmedOp::Sbi) => "SBI"@,
        Opcode::Unconfirmed(UnconfirmedOp::Mpi) => "MPI"@,
        Opcode::Unconfirmed(UnconfirmedOp::Dvi) => "DVI"@,
        Opcode::Unconfirmed(UnconfirmedOp::Mod) => "MOD"@,
        Opcode::Unconfirmed(UnconfirmedOp::Ngi) => "NGI"@,
        Opcode::Unconfirmed(UnconfirmedOp::Equ) => "EQU"@,
        Opcode::Unconfirmed(UnconfirmedOp::Neq) => "NEQ"@,
        Opcode::Unconfirmed(UnconfirmedOp::Leq) => "LEQ"@,
        Opcode::Unconfirmed(UnconfirmedOp::Geq) => "GEQ"@,
        Opcode::Unconfirmed(UnconfirmedOp::And) => "AND"@,
        Opcode::Unconfirmed(UnconfirmedOp::Ior) => "IOR"@,
        Opcode::Unconfirmed(UnconfirmedOp::Not) => "NOT"@,
        Opcode::Unconfirmed(UnconfirmedOp::Ujp(t)) => "UJP "@,
        Opcode::Unconfirmed(UnconfirmedOp::Fjp(t)) => "FJP "@,
        Opcode::Unconfirmed(UnconfirmedOp::Stp) => "STP"@,
        Opcode::Confirmed(ConfirmedOp::Cpl(t)) => "CPL "@,
        Opcode::Confirmed(ConfirmedOp::Cpg(t)) => "CPG "@,
        Opcode::Confirmed(ConfirmedOp::Cpi(db, t)) => "CPI "@,
        Opcode::Confirmed(ConfirmedOp::Scpi1(t)) => "SCPI1 "@,
        Opcode::Confirmed(ConfirmedOp::Scpi2(t)) => "SCPI2 "@,
        Opcode::Confirmed(ConfirmedOp::Rpu(b)) => "RPU "@,
        Opcode::Confirmed(ConfirmedOp::Cxg(seg, p)) => "CXG "@,
    }
}

/// The operands of `op` as its text writes them.
pub open spec fn operands_of(op: Opcode) -> Seq<char> {
    if operand_count(op) == 0 {
        Seq::empty()
    } else if operand_count(op) == 1 {
        dec(first_operand(op))
    } else {
        dec(first_operand(op)) + seq![','] + dec(second_operand(op))
    }
}

/// The characters of a text that tell the opcode kinds apart.
pub open spec fn kind_key(t: Seq<char>) -> (char, char, char, char) {
    (t[0], t[1], t[2], if t.len() > 4 && t[0] == 'S' && t[1] == 'C' { t[4] } else { ' ' })
}

/// The opcode kind that a key names.
pub open spec fn kind_of_key(k: (char, char, char, char)) -> int {
    if k == ('L', 'D', 'C', ' ') {
        0
    } else
    if k == ('L', 'O', 'D', ' ') {
        1
    } else
    if k == ('S', 'T', 'R', ' ') {
        2
    } else
    if k == ('L', 'D', 'A', ' ') {
        3
    } else
    if k == ('I', 'N', 'D', ' ') {
        4
    } else
    if k == ('S', 'T', 'I', ' ') {
        5
    } else
    if k == ('A', 'D', 'I', ' ') {
        6
    } else
    if k == ('S', 'B', 'I', ' ') {
        7
    } else
    if k == ('M', 'P', 'I', ' ') {
        8
    } else
    if k == ('D', 'V', 'I', ' ') {
        9
    } else
    if k == ('M', 'O', 'D', ' ') {
        10
    } else
    if k == ('N', 'G', 'I', ' ') {
        11
    } else
    if k == ('E', 'Q', 'U', ' ') {
        12
    } else
    if k == ('N', 'E', 'Q', ' ') {
        13
    } else
    if k == ('L', 'E', 'Q', ' ') {
        14
    } else
    if k == ('G', 'E', 'Q', ' ') {
        15
    } else
    if k == ('A', 'N', 'D', ' ') {
        16
    } else
    if k == ('I', 'O', 'R', ' ') {
        17
    } else
    if k == ('N', 'O', 'T', ' ') {
        18
    } else
    if k == ('U', 'J', 'P', ' ') {
        19
    } else
    if k == ('F', 'J', 'P', ' ') {
        20
    } else
    if k == ('S', 'T', 'P', ' ') {
        21
    } else
    if k == ('C', 'P', 'L', ' ') {
        22
    } else
    if k == ('C', 'P', 'G', ' ') {
        23
    } else
    if k == ('C', 'P', 'I', ' ') {
        24
    } else
    if k == ('S', 'C', 'P', '1') {
        25
    } else
    if k == ('S', 'C', 'P', '2') {
        26
    } else
    if k == ('R', 'P', 'U', ' ') {
        27
    } else
    if k == ('C', 'X', 'G', ' ') {
        28
    } else {
        -1
    }
}

/// The text of an opcode is its mnemonic, then its operands; the
/// mnemonic's leading characters tell the opcode's kind.
proof fn lemma_text_shape(op: Opcode)
    ensures
        opcode_text(op) == mnemonic_of(op) + operands_of(op),
        mnemonic_of(op).len() >= 3,
        operand_count(op) > 0 ==> mnemonic_of(op).len() >= 4,
        kind_of_key(kind_key(opcode_text(op))) == kind_index(op),
{
    reveal_strlit(",");
    lemma_decimal_shape(first_operand(op));
    match op {
        Opcode::Unconfirmed(UnconfirmedOp::Ldc(v)) => {
            reveal_strlit("LDC ");
            assert(mnemonic_of(op) =~= seq!['L', 'D', 'C', ' ']);
            assert(opcode_text(op) =~= mnemonic_of(op) + operands_of(op));
        },
        Opcode::Unconfirmed(UnconfirmedOp::Lod(l, a)) => {
            reveal_strlit("LOD ");
            assert(mnemonic_of(op) =~= seq!['L', 'O', 'D', ' ']);
            assert(opcode_text(op) =~= mnemonic_of(op) + operands_of(op));
        },
        Opcode::Unconfirmed(UnconfirmedOp::Str(l, a)) => {
            reveal_strlit("STR ");
            assert(mnemonic_of(op) =~= seq!['S', 'T', 'R', ' ']);
            assert(opcode_text(op) =~= mnemonic_of(op) + operands_of(op));
        },
        Opcode::Unconfirmed(UnconfirmedOp::Lda(l, a)) => {
            reveal_strlit("LDA ");
            assert(mnemonic_of(op) =~= seq!['L', 'D', 'A', ' ']);
            assert(opcode_text(op) =~= mnemonic_of(op) + operands_of(op));
        },
        Opcode::Unconfirmed(UnconfirmedOp::Ind) => {
            reveal_strlit("IND");
            assert(mnemonic_of(op) =~= seq!['I', 'N', 'D']);
            assert(opcode_text(op) =~= mnemonic_of(op) + operands_of(op));
        },
        Opcode::Unconfirmed(UnconfirmedOp::Sti) => {
            reveal_strlit("STI");
            assert(mnemonic_of(op) =~= seq!['S', 'T', 'I']);
            assert(opcode_text(op) =~= mnemonic_of(op) + operands_of(op));
        },
        Opcode::Unconfirmed(UnconfirmedOp::Adi) => {
            reveal_strlit("ADI");
            assert(mnemonic_of(op) =~= seq!['A', 'D', 'I']);
            assert(opcode_text(op) =~= mnemonic_of(op) + operands_of(op));
        },
        Opcode::Unconfirmed(UnconfirmedOp::Sbi) => {
            reveal_strlit("SBI");
            assert(mnemonic_of(op) =~= seq!['S', 'B', 'I']);
            assert(opcode_text(op) =~= mnemonic_of(op) + operands_of(op));
        },
        Opcode::Unconfirmed(UnconfirmedOp::Mpi) => {
            reveal_strlit("MPI");
            assert(mnemonic_of(op) =~= seq!['M', 'P', 'I']);
            assert(opcode_text(op) =~= mnemonic_of(op) + operands_of(op));
        },
        Opcode::Unconfirmed(UnconfirmedOp::Dvi) => {
            reveal_strlit("DVI");
            assert(mnemonic_of(op) =~= seq!['D', 'V', 'I']);
            assert(opcode_text(op) =~= mnemonic_of(op) + operands_of(op));
        },
        Opcode::Unconfirmed(UnconfirmedOp::Mod) => {
            reveal_strlit("MOD");
            assert(mnemonic_of(op) =~= seq!['M', 'O', 'D']);
            assert(opcode_text(op) =~= mnemonic_of(op) + operands_of(op));
        },
        Opcode::Unconfirmed(UnconfirmedOp::Ngi) => {
            reveal_strlit("NGI");
            assert(mnemonic_of(op) =~= seq!['N', 'G', 'I']);
            assert(opcode_text(op) =~= mnemonic_of(op) + operands_of(op));
        },
        Opcode::Unconfirmed(UnconfirmedOp::Equ) => {
            reveal_strlit("EQU");
            assert(mnemonic_of(op) =~= seq!['E', 'Q', 'U']);
            assert(opcode_text(op) =~= mnemonic_of(op) + operands_of(op));
        },
        Opcode::Unconfirmed(UnconfirmedOp::Neq) => {
            reveal_strlit("NEQ");
            assert(mnemonic_of(op) =~= seq!['N', 'E', 'Q']);
            assert(opcode_text(op) =~= mnemonic_of(op) + operands_of(op));
        },
        Opcode::Unconfirmed(UnconfirmedOp::Leq) => {
            reveal_strlit("LEQ");
            assert(mnemonic_of(op) =~= seq!['L', 'E', 'Q']);
            assert(opcode_text(op) =~= mnemonic_of(op) + operands_of(op));
        },
        Opcode::Unconfirmed(UnconfirmedOp::Geq) => {
            reveal_strlit("GEQ");
            assert(mnemonic_of(op) =~= seq!['G', 'E', 'Q']);
            assert(opcode_text(op) =~= mnemonic_of(op) + operands_of(op));
        },
        Opcode::Unconfirmed(UnconfirmedOp::And) => {
            reveal_strlit("AND");
            assert(mnemonic_of(op) =~= seq!['A', 'N', 'D']);
            assert(opcode_text(op) =~= mnemonic_of(op) + operands_of(op));
        },
        Opcode::Unconfirmed(UnconfirmedOp::Ior) => {
            reveal_strlit("IOR");
            assert(mnemonic_of(op) =~= seq!['I', 'O', 'R']);
            assert(opcode_text(op) =~= mnemonic_of(op) + operands_of(op));
        },
        Opcode::Unconfirmed(UnconfirmedOp::Not) => {
            reveal_strlit("NOT");
            assert(mnemonic_of(op) =~= seq!['N', 'O', 'T']);
            assert(opcode_text(op) =~= mnemonic_of(op) + operands_of(op));
        },
        Opcode::Unconfirmed(UnconfirmedOp::Ujp(t)) => {
            reveal_strlit("UJP ");
            assert(mnemonic_of(op) =~= seq!['U', 'J', 'P', ' ']);
            assert(opcode_text(op) =~= mnemonic_of(op) + operands_of(op));
        },
        Opcode::Unconfirmed(UnconfirmedOp::Fjp(t)) => {
            reveal_strlit("FJP ");
            assert(mnemonic_of(op) =~= seq!['F', 'J', 'P', ' ']);
            assert(opcode_text(op) =~= mnemonic_of(op) + operands_of(op));
        },
        Opcode::Unconfirmed(UnconfirmedOp::Stp) => {
            reveal_strlit("STP");
            assert(mnemonic_of(op) =~= seq!['S', 'T', 'P']);
            assert(opcode_text(op) =~= mnemonic_of(op) + operands_of(op));
        },
        Opcode::Confirmed(ConfirmedOp::Cpl(t)) => {
            reveal_strlit("CPL ");
            assert(mnemonic_of(op) =~= seq!['C', 'P', 'L', ' ']);
            assert(opcode_text(op) =~= mnemonic_of(op) + operands_of(op));
        },
        Opcode::Confirmed(ConfirmedOp::Cpg(t)) => {
            reveal_strlit("CPG ");
            assert(mnemonic_of(op) =~= seq!['C', 'P', 'G', ' ']);
            assert(opcode_text(op) =~= mnemonic_of(op) + operands_of(op));
        },
        Opcode::Confirmed(ConfirmedOp::Cpi(db, t)) => {
            reveal_strlit("CPI ");
            assert(mnemonic_of(op) =~= seq!['C', 'P', 'I', ' ']);
            assert(opcode_text(op) =~= mnemonic_of(op) + operands_of(op));
        },
        Opcode::Confirmed(ConfirmedOp::Scpi1(t)) => {
            reveal_strlit("SCPI1 ");
            assert(mnemonic_of(op) =~= seq!['S', 'C', 'P', 'I', '1', ' ']);
            assert(opcode_text(op) =~= mnemonic_of(op) + operands_of(op));
        },
        Opcode::Confirmed(ConfirmedOp::Scpi2(t)) => {
            reveal_strlit("SCPI2 ");
            assert(mnemonic_of(op) =~= seq!['S', 'C', 'P', 'I', '2', ' ']);
            assert(opcode_text(op) =~= mnemonic_of(op) + operands_of(op));
        },
        Opcode::Confirmed(ConfirmedOp::Rpu(b)) => {
            reveal_strlit("RPU ");
            assert(mnemonic_of(op) =~= seq!['R', 'P', 'U', ' ']);
            assert(opcode_text(op) =~= mnemonic_of(op) + operands_of(op));
        },
        Opcode::Confirmed(ConfirmedOp::Cxg(seg, p)) => {
            reveal_strlit("CXG ");
            assert(mnemonic_of(op) =~= seq!['C', 'X', 'G', ' ']);
            assert(opcode_text(op) =~= mnemonic_of(op) + operands_of(op));
        },
    }
}

/// Two opcodes of one kind with the same operands are the same.
proof fn lemma_kind_and_operands_decide(op1: Opcode, op2: Opcode)
    requires
        kind_index(op1) == kind_index(op2),
        first_operand(op1) == first_operand(op2),
        second_operand(op1) == second_operand(op2),
    ensures
        op1 == op2,
        mnemonic_of(op1) == mnemonic_of(op2),
{
}

/// Two opcodes of one kind have the same mnemonic and operand count.
proof fn lemma_kind_decides_mnemonic(op1: Opcode, op2: Opcode)
    requires
        kind_index(op1) == kind_index(op2),
    ensures
        mnemonic_of(op1) == mnemonic_of(op2),
        operand_count(op1) == operand_count(op2),
{
}

/// Operand texts are read back the way they were written.
proof fn lemma_operands_decide(op1: Opcode, op2: Opcode)
    requires
        operand_count(op1) == operand_count(op2),
        operands_of(op1) == operands_of(op2),
    ensures
        first_operand(op1) == first_operand(op2) || operand_count(op1) == 0,
        second_operand(op1) == second_operand(op2) || operand_count(op1) <= 1,
{
    if operand_count(op1) == 1 {
        lemma_decimal_injective(first_operand(op1), first_operand(op2));
    } else if operand_count(op1) == 2 {
        let x1 = dec(first_operand(op1));
        let x2 = dec(first_operand(op2));
        let y1 = dec(second_operand(op1));
        let y2 = dec(second_operand(op2));
        lemma_decimal_shape(first_operand(op1));
        lemma_decimal_shape(first_operand(op2));
        let t = operands_of(op1);
        assert(t == x1 + seq![','] + y1);
        assert(t == x2 + seq![','] + y2);
        if x1.len() < x2.len() {
            assert(t[x1.len() as int] == ',');
            assert(t[x1.len() as int] == x2[x1.len() as int]);
        } else if x2.len() < x1.len() {
            assert(t[x2.len() as int] == ',');
            assert(t[x2.len() as int] == x1[x2.len() as int]);
        }
        assert(x1 =~= t.take(x1.len() as int));
        assert(x2 =~= t.take(x2.len() as int));
        assert(y1 =~= t.skip(x1.len() as int + 1));
        assert(y2 =~= t.skip(x2.len() as int + 1));
        lemma_decimal_injective(first_operand(op1), first_operand(op2));
        lemma_decimal_injective(second_operand(op1), second_operand(op2));
    }
}

/// Different opcodes have different texts: the text of an instruction
/// names exactly one opcode, operands included.
pub proof fn lemma_opcode_text_is_injective(op1: Opcode, op2: Opcode)
    ensures
        opcode_text(op1) == opcode_text(op2) ==> op1 == op2,
{
    if opcode_text(op1) == opcode_text(op2) {
        lemma_text_shape(op1);
        lemma_text_shape(op2);
        lemma_kind_decides_mnemonic(op1, op2);
        let m = mnemonic_of(op1);
        assert(operands_of(op1) =~= opcode_text(op1).skip(m.len() as int));
        assert(operands_of(op2) =~= opcode_text(op2).skip(m.len() as int));
        lemma_operands_decide(op1, op2);
        lemma_kind_and_operands_decide(op1, op2);
    }
}

} // verus!
