//! [`PMachine`]: fetch, decode and execute.
//!
//! # Memory model
//!
//! A single word stack holds the global data area (`0..global_data_words`)
//! followed by activation records and expression temporaries. The mark
//! stack control word of an activation record is not stored on the stack:
//! [`FrameRecord`] keeps its base, static link, dynamic link and return
//! address. `Address(a)` with `a >= 5` in a frame is `stack[base + a - 5]`.
//!
//! # Calling convention
//!
//! The caller pushes the arguments. A call takes them off, reserves the
//! callee's `data_size` local words (zero) at `base`, puts the arguments
//! back above them, and for a function one result word (zero) above that.
//! `RPU b` removes the `b` words starting at `base`, leaving the result.
//!
//! # Semantics
//!
//! [`step_spec`] is the small-step semantics of one instruction over
//! [`MachineState`]; [`PMachine::step`] is proved to implement it and
//! [`PMachine::run`] to iterate it.

use vstd::prelude::*;

use crate::pcode::{
    CodeAddress, ConfirmedOp, Instruction, Opcode, PCodeModule, RoutineMeta, UnconfirmedOp,
    Address, Level, BUILTIN_WRITELN_BOOL, BUILTIN_WRITELN_INT, BUILTIN_WRITELN_NONE,
    BUILTIN_WRITELN_STRING, BUILTIN_WRITELN_STRVAR, KERNEL_SEGMENT,
};
use crate::pmachine::error::{RuntimeError, RuntimeErrorView};
use crate::pmachine::word::{add16, div16, mul16, neg16, rem16, sub16, trunc_div, trunc_rem, wrap16};
use crate::strings::{decimal, push_decimal, push_str, string_push};

verus! {

/// One activation record's bookkeeping (the counterpart of its mark stack
/// control word).
#[derive(Debug, Clone, Copy, PartialEq, Eq)]
pub struct FrameRecord {
    /// Stack index that `Address(5)` of this frame denotes.
    pub base: usize,
    /// Index in the frame list of the lexically enclosing frame; `None`
    /// is the global scope.
    pub static_link: Option<usize>,
    /// Index of the caller's frame; `None` when the caller was the program
    /// body.
    pub dynamic_link: Option<usize>,
    /// Instruction to resume at after the return.
    pub return_ipc: usize,
}

/// Where a level reference lands.
#[derive(Debug, Clone, Copy, PartialEq, Eq)]
pub enum Storage {
    Global,
    Frame(usize),
}

/// The mutable part of the machine, as mathematical values.
pub struct MachineState {
    pub stack: Seq<i16>,
    pub frames: Seq<FrameRecord>,
    /// The current frame; `None` while the program body runs.
    pub mp: Option<usize>,
    pub ipc: int,
    /// The low eight bits of the entry address of the routine last called
    /// (a debugging aid).
    pub curproc: u8,
    pub halted: bool,
    /// Everything `WriteLn` has printed.
    pub output: Seq<char>,
    /// The number of words at the bottom of the stack that hold the global
    /// data area, which no instruction pops.
    pub floor: nat,
}

/// The loaded program, which no instruction changes.
pub struct Image {
    pub code: Seq<Instruction>,
    pub routines: Seq<RoutineMeta>,
    pub pool: Seq<Seq<char>>,
    pub global_data_words: u16,
}

/// A state, and the error that stopped the instruction if any.
pub struct StepOutcome {
    pub state: MachineState,
    pub error: Option<RuntimeErrorView>,
}

pub open spec fn ok(s: MachineState) -> StepOutcome {
    StepOutcome { state: s, error: None }
}

pub open spec fn fail(s: MachineState, e: RuntimeErrorView) -> StepOutcome {
    StepOutcome { state: s, error: Some(e) }
}

pub open spec fn push_spec(s: MachineState, v: i16) -> MachineState {
    MachineState { stack: s.stack.push(v), ..s }
}

pub open spec fn bool_word(b: bool) -> i16 {
    if b {
        1
    } else {
        0
    }
}

/// Pops the top word; `None` when only the global data area is left.
pub open spec fn pop_spec(s: MachineState) -> Option<(i16, MachineState)> {
    if s.stack.len() <= s.floor {
        None
    } else {
        Some((s.stack.last(), MachineState { stack: s.stack.drop_last(), ..s }))
    }
}

/// Pops `b` then `a`, returning `(a, b)`; on underflow, the state reached.
pub open spec fn pop2_spec(s: MachineState) -> Result<(i16, i16, MachineState), MachineState> {
    match pop_spec(s) {
        None => Err(s),
        Some((b, s1)) => match pop_spec(s1) {
            None => Err(s1),
            Some((a, s2)) => Ok((a, b, s2)),
        },
    }
}

/// Follows `hops` static links from the frame `cur` (the global scope
/// absorbs further hops).
pub open spec fn walk_static_spec(frames: Seq<FrameRecord>, cur: Option<usize>, hops: nat) -> Option<usize>
    decreases hops,
{
    if hops == 0 {
        cur
    } else {
        match cur {
            None => None,
            Some(f) => walk_static_spec(frames, frames[f as int].static_link, (hops - 1) as nat),
        }
    }
}

/// Where `level` static links from frame `cur` lead.
pub open spec fn walk_frames(frames: Seq<FrameRecord>, cur: usize, hops: nat) -> Storage
    decreases hops,
{
    if hops == 0 {
        Storage::Frame(cur)
    } else {
        match frames[cur as int].static_link {
            Some(parent) => walk_frames(frames, parent, (hops - 1) as nat),
            None => Storage::Global,
        }
    }
}

pub open spec fn resolve_spec(s: MachineState, level: Level) -> Result<Storage, RuntimeErrorView> {
    match s.mp {
        None => if level.0 == 0 {
            Ok(Storage::Global)
        } else {
            Err(RuntimeErrorView::NoActiveFrame)
        },
        Some(start) => Ok(walk_frames(s.frames, start, level.0 as nat)),
    }
}

/// The stack index that `addr` denotes in `storage`.
pub open spec fn addr_index_spec(s: MachineState, storage: Storage, addr: Address) -> Result<int, RuntimeErrorView> {
    match storage {
        Storage::Global => Ok(addr.0 as int),
        Storage::Frame(f) => if addr.0 < 5 {
            Err(RuntimeErrorView::AddressOutOfRange)
        } else if s.frames[f as int].base + (addr.0 - 5) > usize::MAX {
            Err(RuntimeErrorView::AddressOutOfRange)
        } else {
            Ok(s.frames[f as int].base + (addr.0 - 5))
        },
    }
}

pub open spec fn slot_index_spec(s: MachineState, level: Level, addr: Address) -> Result<int, RuntimeErrorView> {
    match resolve_spec(s, level) {
        Err(e) => Err(e),
        Ok(storage) => addr_index_spec(s, storage, addr),
    }
}

/// The routine a call to `entry` runs: the last table entry with that
/// entry address.
pub open spec fn lookup_routine(routines: Seq<RoutineMeta>, entry: u32) -> Option<RoutineMeta>
    decreases routines.len(),
{
    if routines.len() == 0 {
        None
    } else if routines.last().entry.0 == entry {
        Some(routines.last())
    } else {
        lookup_routine(routines.drop_last(), entry)
    }
}

/// `CPL`/`CPG`/`CPI`/`SCPI1`/`SCPI2` with the given new static link.
pub open spec fn call_spec(img: Image, s: MachineState, target: CodeAddress, static_link: Option<usize>) -> StepOutcome {
    match lookup_routine(img.routines, target.0) {
        None => fail(s, RuntimeErrorView::UnknownRoutine),
        Some(meta) => if s.stack.len() < s.floor + meta.param_count {
            fail(s, RuntimeErrorView::StackUnderflow)
        } else {
            let base = s.stack.len() - meta.param_count;
            let args = s.stack.subrange(base, s.stack.len() as int);
            let locals = Seq::new(meta.data_size as nat, |i: int| 0i16);
            let result_slot = if meta.is_func { seq![0i16] } else { Seq::<i16>::empty() };
            ok(MachineState {
                stack: s.stack.subrange(0, base) + locals + args + result_slot,
                frames: s.frames.push(FrameRecord {
                    base: base as usize,
                    static_link,
                    dynamic_link: s.mp,
                    return_ipc: s.ipc as usize,
                }),
                mp: Some(s.frames.len() as usize),
                ipc: target.0 as int,
                curproc: target.0 as u8,
                ..s
            })
        },
    }
}

/// `RPU b`. The activation record is given up first, so it is gone when
/// the words to remove are not there.
pub open spec fn rpu_spec(s: MachineState, b: u16) -> StepOutcome {
    match s.mp {
        None => fail(s, RuntimeErrorView::NoActiveFrame),
        Some(_) => {
            let frame = s.frames.last();
            let remove_end = frame.base + b;
            let popped = MachineState { frames: s.frames.drop_last(), mp: frame.dynamic_link, ..s };
            if remove_end > usize::MAX {
                fail(popped, RuntimeErrorView::AddressOutOfRange)
            } else if remove_end > s.stack.len() {
                fail(popped, RuntimeErrorView::StackUnderflow)
            } else {
                ok(MachineState {
                    stack: s.stack.subrange(0, frame.base as int) + s.stack.subrange(remove_end, s.stack.len() as int),
                    frames: s.frames.drop_last(),
                    mp: frame.dynamic_link,
                    ipc: frame.return_ipc as int,
                    ..s
                })
            }
        },
    }
}

/// The character a `STRING[n]` word holds: the ASCII character with that
/// code, or U+FFFD for any other value.
pub open spec fn word_char(w: i16) -> char {
    if 0 <= w <= 127 {
        (w as u8) as char
    } else {
        '\u{FFFD}'
    }
}

/// The mnemonic text `CXG seg,proc`.
pub open spec fn cxg_text(seg: u8, p: u8) -> Seq<char> {
    "CXG "@ + decimal(seg as int) + ","@ + decimal(p as int)
}

pub open spec fn print_line(s: MachineState, text: Seq<char>) -> MachineState {
    MachineState { output: s.output + text + seq!['\n'], ..s }
}

/// `CXG seg, proc`: the simplified KERNEL calls behind `WriteLn`.
pub open spec fn cxg_spec(img: Image, s: MachineState, seg: u8, p: u8) -> StepOutcome {
    if seg != KERNEL_SEGMENT {
        fail(s, RuntimeErrorView::UnimplementedOpcode(cxg_text(seg, p)))
    } else if p == BUILTIN_WRITELN_INT {
        match pop_spec(s) {
            None => fail(s, RuntimeErrorView::StackUnderflow),
            Some((v, s1)) => ok(print_line(s1, decimal(v as int))),
        }
    } else if p == BUILTIN_WRITELN_BOOL {
        match pop_spec(s) {
            None => fail(s, RuntimeErrorView::StackUnderflow),
            Some((v, s1)) => ok(print_line(s1, if v != 0 { "true"@ } else { "false"@ })),
        }
    } else if p == BUILTIN_WRITELN_NONE {
        ok(print_line(s, Seq::empty()))
    } else if p == BUILTIN_WRITELN_STRING {
        match pop_spec(s) {
            None => fail(s, RuntimeErrorView::StackUnderflow),
            Some((i, s1)) => if i < 0 || i >= img.pool.len() {
                fail(s1, RuntimeErrorView::AddressOutOfRange)
            } else {
                ok(print_line(s1, img.pool[i as int]))
            },
        }
    } else if p == BUILTIN_WRITELN_STRVAR {
        match pop_spec(s) {
            None => fail(s, RuntimeErrorView::StackUnderflow),
            Some((a, s1)) => if a < 0 || a >= s1.stack.len() {
                fail(s1, RuntimeErrorView::AddressOutOfRange)
            } else {
                let n = s1.stack[a as int];
                if n < 0 || a + 1 + n > s1.stack.len() {
                    fail(s1, RuntimeErrorView::AddressOutOfRange)
                } else {
                    ok(print_line(s1, s1.stack.subrange(a + 1, a + 1 + n).map_values(|w: i16| word_char(w))))
                }
            },
        }
    } else {
        fail(s, RuntimeErrorView::UnimplementedOpcode(cxg_text(seg, p)))
    }
}

pub open spec fn confirmed_spec(img: Image, s: MachineState, op: ConfirmedOp) -> StepOutcome {
    match op {
        ConfirmedOp::Cpl(t) => call_spec(img, s, t, s.mp),
        ConfirmedOp::Cpg(t) => call_spec(img, s, t, None),
        ConfirmedOp::Cpi(db, t) => call_spec(img, s, t, walk_static_spec(s.frames, s.mp, db as nat)),
        ConfirmedOp::Scpi1(t) => call_spec(img, s, t, walk_static_spec(s.frames, s.mp, 1)),
        ConfirmedOp::Scpi2(t) => call_spec(img, s, t, walk_static_spec(s.frames, s.mp, 2)),
        ConfirmedOp::Rpu(b) => rpu_spec(s, b),
        ConfirmedOp::Cxg(seg, p) => cxg_spec(img, s, seg, p),
    }
}

/// A binary operation on the two top words (`a` below `b`).
pub open spec fn binop_spec(s: MachineState, f: spec_fn(i16, i16) -> i16) -> StepOutcome {
    match pop2_spec(s) {
        Err(s1) => fail(s1, RuntimeErrorView::StackUnderflow),
        Ok((a, b, s2)) => ok(push_spec(s2, f(a, b))),
    }
}

pub open spec fn unconfirmed_spec(img: Image, s: MachineState, op: UnconfirmedOp) -> StepOutcome {
    match op {
        UnconfirmedOp::Ldc(v) => ok(push_spec(s, v)),
        UnconfirmedOp::Lod(l, a) => match slot_index_spec(s, l, a) {
            Err(e) => fail(s, e),
            Ok(idx) => if idx >= s.stack.len() {
                fail(s, RuntimeErrorView::AddressOutOfRange)
            } else {
                ok(push_spec(s, s.stack[idx]))
            },
        },
        UnconfirmedOp::Str(l, a) => match pop_spec(s) {
            None => fail(s, RuntimeErrorView::StackUnderflow),
            Some((v, s1)) => match slot_index_spec(s1, l, a) {
                Err(e) => fail(s1, e),
                Ok(idx) => if idx >= s1.stack.len() {
                    fail(s1, RuntimeErrorView::AddressOutOfRange)
                } else {
                    ok(MachineState { stack: s1.stack.update(idx, v), ..s1 })
                },
            },
        },
        UnconfirmedOp::Lda(l, a) => match slot_index_spec(s, l, a) {
            Err(e) => fail(s, e),
            Ok(idx) => if idx > 32767 {
                fail(s, RuntimeErrorView::AddressOutOfRange)
            } else {
                ok(push_spec(s, idx as i16))
            },
        },
        UnconfirmedOp::Ind => match pop_spec(s) {
            None => fail(s, RuntimeErrorView::StackUnderflow),
            Some((a, s1)) => if a < 0 || a >= s1.stack.len() {
                fail(s1, RuntimeErrorView::AddressOutOfRange)
            } else {
                ok(push_spec(s1, s1.stack[a as int]))
            },
        },
        UnconfirmedOp::Sti => match pop2_spec(s) {
            Err(s1) => fail(s1, RuntimeErrorView::StackUnderflow),
            Ok((a, v, s2)) => if a < 0 || a >= s2.stack.len() {
                fail(s2, RuntimeErrorView::AddressOutOfRange)
            } else {
                ok(MachineState { stack: s2.stack.update(a as int, v), ..s2 })
            },
        },
        UnconfirmedOp::Adi => binop_spec(s, |a: i16, b: i16| wrap16(a + b) as i16),
        UnconfirmedOp::Sbi => binop_spec(s, |a: i16, b: i16| wrap16(a - b) as i16),
        UnconfirmedOp::Mpi => binop_spec(s, |a: i16, b: i16| wrap16(a * b) as i16),
        UnconfirmedOp::Dvi => match pop2_spec(s) {
            Err(s1) => fail(s1, RuntimeErrorView::StackUnderflow),
            Ok((a, b, s2)) => if b == 0 {
                fail(s2, RuntimeErrorView::DivisionByZero)
            } else {
                ok(push_spec(s2, wrap16(trunc_div(a as int, b as int)) as i16))
            },
        },
        UnconfirmedOp::Mod => match pop2_spec(s) {
            Err(s1) => fail(s1, RuntimeErrorView::StackUnderflow),
            Ok((a, b, s2)) => if b == 0 {
                fail(s2, RuntimeErrorView::DivisionByZero)
            } else {
                ok(push_spec(s2, wrap16(trunc_rem(a as int, b as int)) as i16))
            },
        },
        UnconfirmedOp::Ngi => match pop_spec(s) {
            None => fail(s, RuntimeErrorView::StackUnderflow),
            Some((a, s1)) => ok(push_spec(s1, wrap16(-a) as i16)),
        },
        UnconfirmedOp::Equ => binop_spec(s, |a: i16, b: i16| bool_word(a == b)),
        UnconfirmedOp::Neq => binop_spec(s, |a: i16, b: i16| bool_word(a != b)),
        UnconfirmedOp::Leq => binop_spec(s, |a: i16, b: i16| bool_word(a <= b)),
        UnconfirmedOp::Geq => binop_spec(s, |a: i16, b: i16| bool_word(a >= b)),
        UnconfirmedOp::And => binop_spec(s, |a: i16, b: i16| bool_word(a != 0 && b != 0)),
        UnconfirmedOp::Ior => binop_spec(s, |a: i16, b: i16| bool_word(a != 0 || b != 0)),
        UnconfirmedOp::Not => match pop_spec(s) {
            None => fail(s, RuntimeErrorView::StackUnderflow),
            Some((a, s1)) => ok(push_spec(s1, bool_word(a == 0))),
        },
        UnconfirmedOp::Ujp(t) => ok(MachineState { ipc: t.0 as int, ..s }),
        UnconfirmedOp::Fjp(t) => match pop_spec(s) {
            None => fail(s, RuntimeErrorView::StackUnderflow),
            Some((c, s1)) => if c == 0 {
                ok(MachineState { ipc: t.0 as int, ..s1 })
            } else {
                ok(s1)
            },
        },
        UnconfirmedOp::Stp => ok(MachineState { halted: true, ..s }),
    }
}

pub open spec fn execute_spec(img: Image, s: MachineState, op: Opcode) -> StepOutcome {
    match op {
        Opcode::Confirmed(c) => confirmed_spec(img, s, c),
        Opcode::Unconfirmed(u) => unconfirmed_spec(img, s, u),
    }
}

/// One instruction: nothing on a halted machine; otherwise fetch the
/// instruction at the IPC, advance the IPC, and execute it.
#[verifier::opaque]
pub open spec fn step_spec(img: Image, s: MachineState) -> StepOutcome {
    if s.halted {
        ok(s)
    } else if s.ipc >= img.code.len() {
        fail(s, RuntimeErrorView::IpcOutOfBounds)
    } else {
        execute_spec(img, MachineState { ipc: s.ipc + 1, ..s }, img.code[s.ipc].opcode)
    }
}

/// At most `fuel` instructions, stopping at a halt or at the first error.
#[verifier::opaque]
pub open spec fn run_spec(img: Image, s: MachineState, fuel: nat) -> StepOutcome
    decreases fuel,
{
    if fuel == 0 || s.halted {
        ok(s)
    } else {
        let o = step_spec(img, s);
        if o.error is Some {
            o
        } else {
            run_spec(img, o.state, (fuel - 1) as nat)
        }
    }
}

/// The frame list is a chain: each frame's caller is the frame below it,
/// its static link points further down, and the current frame is the top.
pub open spec fn frames_wf(frames: Seq<FrameRecord>, mp: Option<usize>) -> bool {
    &&& mp == (if frames.len() == 0 { None } else { Some((frames.len() - 1) as usize) })
    &&& forall|i: int| 0 <= i < frames.len() ==> {
        &&& (#[trigger] frames[i]).dynamic_link == (if i == 0 { None } else { Some((i - 1) as usize) })
        &&& frames[i].static_link matches Some(p) ==> p < i
    }
}

pub open spec fn error_of(r: Result<(), RuntimeError>) -> Option<RuntimeErrorView> {
    match r {
        Ok(()) => None,
        Err(e) => Some(e@),
    }
}

/// The p-machine.
pub struct PMachine {
    stack: Vec<i16>,
    frames: Vec<FrameRecord>,
    mp: Option<usize>,
    ipc: usize,
    curproc: u8,
    code: Vec<Instruction>,
    routine_table: Vec<RoutineMeta>,
    string_pool: Vec<String>,
    global_data_words: u16,
    halted: bool,
    output: String,
}

impl PMachine {
    /// The mutable state.
    pub closed spec fn state(&self) -> MachineState {
        MachineState {
            stack: self.stack@,
            frames: self.frames@,
            mp: self.mp,
            ipc: self.ipc as int,
            curproc: self.curproc,
            halted: self.halted,
            output: self.output@,
            floor: self.global_data_words as nat,
        }
    }

    /// The loaded program.
    pub closed spec fn image(&self) -> Image {
        Image {
            code: self.code@,
            routines: self.routine_table@,
            pool: self.string_pool@.map_values(|s: String| s@),
            global_data_words: self.global_data_words,
        }
    }

    /// The machine's invariant: the frame list is a well-formed chain.
    pub closed spec fn wf(&self) -> bool {
        &&& frames_wf(self.frames@, self.mp)
        &&& self.stack@.len() >= self.global_data_words
        &&& forall|i: int| 0 <= i < self.frames@.len() ==> (#[trigger] self.frames@[i]).base >= self.global_data_words
    }

    /// Loads a module: the global data area is zeroed, no frame is active,
    /// execution starts at the module's entry.
    pub fn new(module: PCodeModule) -> (m: PMachine)
        ensures
            m.wf(),
            m.state().stack == Seq::new(module.global_data_words as nat, |i: int| 0i16),
            m.state().frames.len() == 0,
            m.state().mp is None,
            m.state().ipc == module.entry.0,
            m.state().curproc == 0,
            !m.state().halted,
            m.state().output.len() == 0,
            m.state().floor == module.global_data_words,
            m.image().code == module.instructions@,
            m.image().routines == module.routines@,
            m.image().pool == module.string_pool@.map_values(|s: String| s@),
            m.image().global_data_words == module.global_data_words,
    {
        let PCodeModule { instructions, global_data_words, routines, entry, string_pool } = module;
        let stack: Vec<i16> = vec![0i16; global_data_words as usize];
        proof {
            assert(stack@ =~= Seq::new(global_data_words as nat, |i: int| 0i16));
        }
        PMachine {
            stack,
            frames: Vec::new(),
            mp: None,
            ipc: entry.0 as usize,
            curproc: 0,
            code: instructions,
            routine_table: routines,
            string_pool,
            global_data_words,
            halted: false,
            output: String::new(),
        }
    }

    /// Whether the machine has halted.
    pub fn is_halted(&self) -> (r: bool)
        ensures
            r == self.state().halted,
    {
        self.halted
    }

    /// The stack height.
    pub fn sp(&self) -> (r: usize)
        ensures
            r == self.state().stack.len(),
    {
        self.stack.len()
    }

    /// The instruction pointer.
    pub fn ipc(&self) -> (r: usize)
        ensures
            r == self.state().ipc,
    {
        self.ipc
    }

    /// The number of active activation records.
    pub fn call_depth(&self) -> (r: usize)
        ensures
            r == self.state().frames.len(),
    {
        self.frames.len()
    }

    /// The number of words of global data.
    pub fn global_data_words(&self) -> (r: u16)
        ensures
            r == self.image().global_data_words,
    {
        self.global_data_words
    }

    /// The current value of global word `addr`; `None` past the global
    /// data area.
    pub fn global(&self, addr: u16) -> (r: Option<i16>)
        ensures
            r == (if addr < self.image().global_data_words && addr < self.state().stack.len() {
                Some(self.state().stack[addr as int])
            } else {
                None
            }),
    {
        if addr >= self.global_data_words {
            return None;
        }
        if (addr as usize) < self.stack.len() {
            Some(self.stack[addr as usize])
        } else {
            None
        }
    }

    /// The global data area: its words at the bottom of the stack, which
    /// stay there whatever happens, a run error included.
    pub fn globals(&self) -> (r: &[i16])
        requires
            self.wf(),
        ensures
            r@ == self.state().stack.take(self.image().global_data_words as int),
            r@.len() == self.image().global_data_words,
    {
        let r = vstd::slice::slice_subrange(self.stack.as_slice(), 0, self.global_data_words as usize);
        proof {
            assert(r@ =~= self.state().stack.take(self.global_data_words as int));
        }
        r
    }

    /// Everything `WriteLn` has printed so far.
    pub fn output(&self) -> (r: &str)
        ensures
            r@ == self.state().output,
    {
        self.output.as_str()
    }

    /// Hands out what `WriteLn` has printed so far and clears it.
    pub fn take_output(&mut self) -> (r: String)
        requires
            old(self).wf(),
        ensures
            final(self).wf(),
            r@ == old(self).state().output,
            final(self).state() == (MachineState { output: Seq::empty(), ..old(self).state() }),
            final(self).image() == old(self).image(),
    {
        let mut out = String::new();
        std::mem::swap(&mut self.output, &mut out);
        out
    }

    /// Runs until the machine halts or an instruction fails (at most
    /// `u64::MAX` instructions).
    pub fn run(&mut self) -> (r: Result<(), RuntimeError>)
        requires
            old(self).wf(),
        ensures
            final(self).wf(),
            final(self).image() == old(self).image(),
            final(self).state() == run_spec(old(self).image(), old(self).state(), u64::MAX as nat).state,
            error_of(r) == run_spec(old(self).image(), old(self).state(), u64::MAX as nat).error,
    {
        let mut remaining: u64 = u64::MAX;
        let ghost start = self.state();
        let ghost img = self.image();
        proof {
            reveal_with_fuel(run_spec, 1);
        }
        while remaining > 0 && !self.halted
            invariant
                self.wf(),
                self.image() == img,
                img == old(self).image(),
                start == old(self).state(),
                run_spec(img, start, u64::MAX as nat) == run_spec(img, self.state(), remaining as nat),
            decreases remaining,
        {
            let ghost before = self.state();
            let r = self.step();
            proof {
                reveal_with_fuel(run_spec, 1);
                assert(run_spec(img, before, remaining as nat) == (if step_spec(img, before).error is Some {
                    step_spec(img, before)
                } else {
                    run_spec(img, step_spec(img, before).state, (remaining - 1) as nat)
                }));
            }
            if r.is_err() {
                return r;
            }
            remaining = remaining - 1;
        }
        proof {
            reveal_with_fuel(run_spec, 1);
        }
        Ok(())
    }

    /// Executes one instruction; does nothing once halted.
    pub fn step(&mut self) -> (r: Result<(), RuntimeError>)
        requires
            old(self).wf(),
        ensures
            final(self).wf(),
            final(self).image() == old(self).image(),
            final(self).state() == step_spec(old(self).image(), old(self).state()).state,
            error_of(r) == step_spec(old(self).image(), old(self).state()).error,
    {
        reveal(step_spec);
        if self.halted {
            return Ok(());
        }
        if self.ipc >= self.code.len() {
            return Err(RuntimeError::IpcOutOfBounds);
        }
        let instr = self.code[self.ipc];
        self.ipc = self.ipc + 1;
        self.execute(instr.opcode)
    }

    fn execute(&mut self, opcode: Opcode) -> (r: Result<(), RuntimeError>)
        requires
            old(self).wf(),
        ensures
            final(self).wf(),
            final(self).image() == old(self).image(),
            final(self).state() == execute_spec(old(self).image(), old(self).state(), opcode).state,
            error_of(r) == execute_spec(old(self).image(), old(self).state(), opcode).error,
    {
        match opcode {
            Opcode::Confirmed(op) => self.execute_confirmed(op),
            Opcode::Unconfirmed(op) => self.execute_unconfirmed(op),
        }
    }

    fn execute_confirmed(&mut self, op: ConfirmedOp) -> (r: Result<(), RuntimeError>)
        requires
            old(self).wf(),
        ensures
            final(self).wf(),
            final(self).image() == old(self).image(),
            final(self).state() == confirmed_spec(old(self).image(), old(self).state(), op).state,
            error_of(r) == confirmed_spec(old(self).image(), old(self).state(), op).error,
    {
        match op {
            ConfirmedOp::Cpl(target) => {
                let static_link = self.mp;
                self.call(target, static_link)
            },
            ConfirmedOp::Cpg(target) => self.call(target, None),
            ConfirmedOp::Cpi(db, target) => {
                let static_link = self.walk_static(self.mp, db as u16);
                self.call(target, static_link)
            },
            ConfirmedOp::Scpi1(target) => {
                let static_link = self.walk_static(self.mp, 1);
                self.call(target, static_link)
            },
            ConfirmedOp::Scpi2(target) => {
                let static_link = self.walk_static(self.mp, 2);
                self.call(target, static_link)
            },
            ConfirmedOp::Rpu(b) => self.exec_rpu(b),
            ConfirmedOp::Cxg(seg, p) => self.call_kernel(seg, p),
        }
    }

    /// Follows `hops` static links from `start`.
    fn walk_static(&self, start: Option<usize>, hops: u16) -> (r: Option<usize>)
        requires
            self.wf(),
            start matches Some(f) ==> f < self.frames@.len(),
        ensures
            r == walk_static_spec(self.frames@, start, hops as nat),
            r matches Some(f) ==> f < self.frames@.len(),
    {
        let mut cur = start;
        let mut remaining = hops;
        while remaining > 0
            invariant
                self.wf(),
                cur matches Some(f) ==> f < self.frames@.len(),
                walk_static_spec(self.frames@, cur, remaining as nat) == walk_static_spec(self.frames@, start, hops as nat),
            decreases remaining,
        {
            match cur {
                Some(frame) => {
                    cur = self.frames[frame].static_link;
                    remaining = remaining - 1;
                },
                None => return None,
            }
        }
        cur
    }

    /// The routine whose entry is `entry` (the last one listed).
    fn lookup(&self, entry: u32) -> (r: Option<RoutineMeta>)
        ensures
            r == lookup_routine(self.routine_table@, entry),
    {
        let mut i = self.routine_table.len();
        proof {
            assert(self.routine_table@.subrange(0, i as int) =~= self.routine_table@);
        }
        while i > 0
            invariant
                i <= self.routine_table@.len(),
                lookup_routine(self.routine_table@, entry) == lookup_routine(self.routine_table@.subrange(0, i as int), entry),
            decreases i,
        {
            let meta = self.routine_table[i - 1];
            proof {
                let pre = self.routine_table@.subrange(0, i as int);
                assert(pre.last() == meta);
                assert(pre.drop_last() =~= self.routine_table@.subrange(0, i - 1));
            }
            if meta.entry.0 == entry {
                return Some(meta);
            }
            i = i - 1;
        }
        None
    }

    fn call(&mut self, target: CodeAddress, static_link: Option<usize>) -> (r: Result<(), RuntimeError>)
        requires
            old(self).wf(),
            static_link matches Some(f) ==> f < old(self).frames@.len(),
        ensures
            final(self).wf(),
            final(self).image() == old(self).image(),
            final(self).state() == call_spec(old(self).image(), old(self).state(), target, static_link).state,
            error_of(r) == call_spec(old(self).image(), old(self).state(), target, static_link).error,
    {
        let meta = match self.lookup(target.0) {
            Some(m) => m,
            None => return Err(RuntimeError::UnknownRoutine),
        };
        let param_count = meta.param_count as usize;
        if self.stack.len() - (self.global_data_words as usize) < param_count {
            return Err(RuntimeError::StackUnderflow);
        }
        let ghost old_stack = self.stack@;
        let args_start = self.stack.len() - param_count;
        let args: Vec<i16> = self.stack.split_off(args_start);
        let base = self.stack.len();
        let locals: Vec<i16> = vec![0i16; meta.data_size as usize];
        let mut locals = locals;
        self.stack.append(&mut locals);
        let mut args = args;
        self.stack.append(&mut args);
        if meta.is_func {
            self.stack.push(0);
        }
        proof {
            let locals_spec = Seq::new(meta.data_size as nat, |i: int| 0i16);
            let result_slot = if meta.is_func { seq![0i16] } else { Seq::<i16>::empty() };
            assert(self.stack@ =~= old_stack.subrange(0, base as int) + locals_spec
                + old_stack.subrange(base as int, old_stack.len() as int) + result_slot);
        }
        let ghost old_frames = self.frames@;
        self.frames.push(FrameRecord {
            base,
            static_link,
            dynamic_link: self.mp,
            return_ipc: self.ipc,
        });
        self.mp = Some(self.frames.len() - 1);
        self.curproc = target.0 as u8;
        self.ipc = target.0 as usize;
        proof {
            assert forall|i: int| 0 <= i < self.frames@.len() implies {
                &&& (#[trigger] self.frames@[i]).dynamic_link == (if i == 0 { None } else { Some((i - 1) as usize) })
                &&& self.frames@[i].static_link matches Some(p) ==> p < i
            } by {
                if i < old_frames.len() {
                    assert(self.frames@[i] == old_frames[i]);
                }
            }
        }
        Ok(())
    }

    /// `RPU b`: returns from the current routine.
    fn exec_rpu(&mut self, b: u16) -> (r: Result<(), RuntimeError>)
        requires
            old(self).wf(),
        ensures
            final(self).wf(),
            final(self).image() == old(self).image(),
            final(self).state() == rpu_spec(old(self).state(), b).state,
            error_of(r) == rpu_spec(old(self).state(), b).error,
    {
        if self.mp.is_none() {
            return Err(RuntimeError::NoActiveFrame);
        }
        let frame = self.frames[self.frames.len() - 1];
        let ghost old_stack = self.stack@;
        let ghost old_frames = self.frames@;
        self.frames.pop();
        self.mp = frame.dynamic_link;
        proof {
            assert(self.frames@ =~= old_frames.drop_last());
            assert(old_frames[old_frames.len() - 1] == frame);
            assert forall|i: int| 0 <= i < self.frames@.len() implies {
                &&& (#[trigger] self.frames@[i]).dynamic_link == (if i == 0 { None } else { Some((i - 1) as usize) })
                &&& self.frames@[i].static_link matches Some(p) ==> p < i
            } by {
                assert(self.frames@[i] == old_frames[i]);
            }
            assert forall|i: int| 0 <= i < self.frames@.len() implies (#[trigger] self.frames@[i]).base >= self.global_data_words by {
                assert(self.frames@[i] == old_frames[i]);
            }
        }
        let remove_end = match frame.base.checked_add(b as usize) {
            Some(e) => e,
            None => return Err(RuntimeError::AddressOutOfRange),
        };
        if remove_end > self.stack.len() {
            return Err(RuntimeError::StackUnderflow);
        }
        let mut leftover: Vec<i16> = self.stack.split_off(remove_end);
        self.stack.truncate(frame.base);
        self.stack.append(&mut leftover);
        self.mp = frame.dynamic_link;
        self.ipc = frame.return_ipc;
        proof {
            assert(self.stack@ =~= old_stack.subrange(0, frame.base as int)
                + old_stack.subrange(remove_end as int, old_stack.len() as int));
            assert(self.frames@ =~= old_frames.drop_last());
            assert(old_frames[old_frames.len() - 1] == frame);
            assert forall|i: int| 0 <= i < self.frames@.len() implies {
                &&& (#[trigger] self.frames@[i]).dynamic_link == (if i == 0 { None } else { Some((i - 1) as usize) })
                &&& self.frames@[i].static_link matches Some(p) ==> p < i
            } by {
                assert(self.frames@[i] == old_frames[i]);
            }
        }
        Ok(())
    }

    /// Where `level` static links from the current frame lead.
    fn resolve(&self, level: Level) -> (r: Result<Storage, RuntimeError>)
        requires
            self.wf(),
        ensures
            match r {
                Ok(st) => resolve_spec(self.state(), level) == Ok::<Storage, RuntimeErrorView>(st)
                    && (st matches Storage::Frame(f) ==> f < self.frames@.len()),
                Err(e) => resolve_spec(self.state(), level) == Err::<Storage, RuntimeErrorView>(e@),
            },
    {
        match self.mp {
            None => {
                if level.0 == 0 {
                    Ok(Storage::Global)
                } else {
                    Err(RuntimeError::NoActiveFrame)
                }
            },
            Some(start) => {
                let mut cur = start;
                let mut hops = level.0;
                loop
                    invariant
                        self.wf(),
                        cur < self.frames@.len(),
                        self.mp == Some(start),
                        walk_frames(self.frames@, cur, hops as nat) == walk_frames(self.frames@, start, level.0 as nat),
                    decreases hops,
                {
                    if hops == 0 {
                        proof {
                            assert(walk_frames(self.frames@, cur, hops as nat) == Storage::Frame(cur));
                        }
                        return Ok(Storage::Frame(cur));
                    }
                    match self.frames[cur].static_link {
                        Some(parent) => {
                            proof {
                                assert(walk_frames(self.frames@, cur, hops as nat)
                                    == walk_frames(self.frames@, parent, (hops - 1) as nat));
                                assert(self.frames@[cur as int].static_link matches Some(p) ==> p < cur);
                            }
                            cur = parent;
                            hops = hops - 1;
                        },
                        None => {
                            proof {
                                assert(walk_frames(self.frames@, cur, hops as nat) == Storage::Global);
                            }
                            return Ok(Storage::Global);
                        },
                    }
                }
            },
        }
    }

    /// The stack index of `addr` at `level`.
    fn slot_index(&self, level: Level, addr: Address) -> (r: Result<usize, RuntimeError>)
        requires
            self.wf(),
        ensures
            match r {
                Ok(i) => slot_index_spec(self.state(), level, addr) == Ok::<int, RuntimeErrorView>(i as int),
                Err(e) => slot_index_spec(self.state(), level, addr) == Err::<int, RuntimeErrorView>(e@),
            },
    {
        let storage = match self.resolve(level) {
            Ok(s) => s,
            Err(e) => return Err(e),
        };
        match storage {
            Storage::Global => Ok(addr.0 as usize),
            Storage::Frame(f) => {
                if addr.0 < 5 {
                    return Err(RuntimeError::AddressOutOfRange);
                }
                let offset = (addr.0 - 5) as usize;
                match self.frames[f].base.checked_add(offset) {
                    Some(i) => Ok(i),
                    None => Err(RuntimeError::AddressOutOfRange),
                }
            },
        }
    }

    fn push(&mut self, value: i16)
        ensures
            final(self).state() == push_spec(old(self).state(), value),
            final(self).image() == old(self).image(),
            final(self).frames@ == old(self).frames@,
            final(self).mp == old(self).mp,
    {
        self.stack.push(value);
    }

    fn pop(&mut self) -> (r: Result<i16, RuntimeError>)
        ensures
            final(self).image() == old(self).image(),
            final(self).frames@ == old(self).frames@,
            final(self).mp == old(self).mp,
            match pop_spec(old(self).state()) {
                None => r matches Err(e) && e@ == RuntimeErrorView::StackUnderflow
                    && final(self).state() == old(self).state(),
                Some((v, s1)) => r == Ok::<i16, RuntimeError>(v) && final(self).state() == s1,
            },
    {
        if self.stack.len() <= self.global_data_words as usize {
            return Err(RuntimeError::StackUnderflow);
        }
        match self.stack.pop() {
            Some(v) => Ok(v),
            None => Err(RuntimeError::StackUnderflow),
        }
    }

    fn pop2(&mut self) -> (r: Result<(i16, i16), RuntimeError>)
        ensures
            final(self).image() == old(self).image(),
            final(self).frames@ == old(self).frames@,
            final(self).mp == old(self).mp,
            match pop2_spec(old(self).state()) {
                Err(s1) => r matches Err(e) && e@ == RuntimeErrorView::StackUnderflow
                    && final(self).state() == s1,
                Ok((a, b, s2)) => r == Ok::<(i16, i16), RuntimeError>((a, b)) && final(self).state() == s2,
            },
    {
        let b = match self.pop() {
            Ok(v) => v,
            Err(e) => return Err(e),
        };
        let a = match self.pop() {
            Ok(v) => v,
            Err(e) => return Err(e),
        };
        Ok((a, b))
    }

    fn execute_unconfirmed(&mut self, op: UnconfirmedOp) -> (r: Result<(), RuntimeError>)
        requires
            old(self).wf(),
        ensures
            final(self).wf(),
            final(self).image() == old(self).image(),
            final(self).state() == unconfirmed_spec(old(self).image(), old(self).state(), op).state,
            error_of(r) == unconfirmed_spec(old(self).image(), old(self).state(), op).error,
    {
        match op {
            UnconfirmedOp::Ldc(value) => {
                self.push(value);
                Ok(())
            },
            UnconfirmedOp::Lod(level, addr) => {
                let idx = match self.slot_index(level, addr) {
                    Ok(i) => i,
                    Err(e) => return Err(e),
                };
                if idx >= self.stack.len() {
                    return Err(RuntimeError::AddressOutOfRange);
                }
                let value = self.stack[idx];
                self.push(value);
                Ok(())
            },
            UnconfirmedOp::Str(level, addr) => {
                let value = match self.pop() {
                    Ok(v) => v,
                    Err(e) => return Err(e),
                };
                let idx = match self.slot_index(level, addr) {
                    Ok(i) => i,
                    Err(e) => return Err(e),
                };
                if idx >= self.stack.len() {
                    return Err(RuntimeError::AddressOutOfRange);
                }
                self.stack.set(idx, value);
                Ok(())
            },
            UnconfirmedOp::Lda(level, addr) => {
                let idx = match self.slot_index(level, addr) {
                    Ok(i) => i,
                    Err(e) => return Err(e),
                };
                if idx > 32767 {
                    return Err(RuntimeError::AddressOutOfRange);
                }
                self.push(idx as i16);
                Ok(())
            },
            UnconfirmedOp::Ind => {
                let addr = match self.pop() {
                    Ok(v) => v,
                    Err(e) => return Err(e),
                };
                if addr < 0 || addr as usize >= self.stack.len() {
                    return Err(RuntimeError::AddressOutOfRange);
                }
                let value = self.stack[addr as usize];
                self.push(value);
                Ok(())
            },
            UnconfirmedOp::Sti => {
                let (addr, value) = match self.pop2() {
                    Ok(p) => p,
                    Err(e) => return Err(e),
                };
                if addr < 0 || addr as usize >= self.stack.len() {
                    return Err(RuntimeError::AddressOutOfRange);
                }
                self.stack.set(addr as usize, value);
                Ok(())
            },
            UnconfirmedOp::Adi => {
                let (a, b) = match self.pop2() {
                    Ok(p) => p,
                    Err(e) => return Err(e),
                };
                self.push(add16(a, b));
                Ok(())
            },
            UnconfirmedOp::Sbi => {
                let (a, b) = match self.pop2() {
                    Ok(p) => p,
                    Err(e) => return Err(e),
                };
                self.push(sub16(a, b));
                Ok(())
            },
            UnconfirmedOp::Mpi => {
                let (a, b) = match self.pop2() {
                    Ok(p) => p,
                    Err(e) => return Err(e),
                };
                self.push(mul16(a, b));
                Ok(())
            },
            UnconfirmedOp::Dvi => {
                let (a, b) = match self.pop2() {
                    Ok(p) => p,
                    Err(e) => return Err(e),
                };
                if b == 0 {
                    return Err(RuntimeError::DivisionByZero);
                }
                self.push(div16(a, b));
                Ok(())
            },
            UnconfirmedOp::Mod => {
                let (a, b) = match self.pop2() {
                    Ok(p) => p,
                    Err(e) => return Err(e),
                };
                if b == 0 {
                    return Err(RuntimeError::DivisionByZero);
                }
                self.push(rem16(a, b));
                Ok(())
            },
            UnconfirmedOp::Ngi => {
                let a = match self.pop() {
                    Ok(v) => v,
                    Err(e) => return Err(e),
                };
                self.push(neg16(a));
                Ok(())
            },
            UnconfirmedOp::Equ => self.compare(op),
            UnconfirmedOp::Neq => self.compare(op),
            UnconfirmedOp::Leq => self.compare(op),
            UnconfirmedOp::Geq => self.compare(op),
            UnconfirmedOp::And => self.compare(op),
            UnconfirmedOp::Ior => self.compare(op),
            UnconfirmedOp::Not => {
                let a = match self.pop() {
                    Ok(v) => v,
                    Err(e) => return Err(e),
                };
                self.push(if a == 0 { 1 } else { 0 });
                Ok(())
            },
            UnconfirmedOp::Ujp(target) => {
                self.ipc = target.0 as usize;
                Ok(())
            },
            UnconfirmedOp::Fjp(target) => {
                let cond = match self.pop() {
                    Ok(v) => v,
                    Err(e) => return Err(e),
                };
                if cond == 0 {
                    self.ipc = target.0 as usize;
                }
                Ok(())
            },
            UnconfirmedOp::Stp => {
                self.halted = true;
                Ok(())
            },
        }
    }

    /// The comparisons and the boolean `AND`/`IOR`.
    fn compare(&mut self, op: UnconfirmedOp) -> (r: Result<(), RuntimeError>)
        requires
            old(self).wf(),
            op is Equ || op is Neq || op is Leq || op is Geq || op is And || op is Ior,
        ensures
            final(self).wf(),
            final(self).image() == old(self).image(),
            final(self).state() == unconfirmed_spec(old(self).image(), old(self).state(), op).state,
            error_of(r) == unconfirmed_spec(old(self).image(), old(self).state(), op).error,
    {
        let (a, b) = match self.pop2() {
            Ok(p) => p,
            Err(e) => return Err(e),
        };
        let result = match op {
            UnconfirmedOp::Equ => a == b,
            UnconfirmedOp::Neq => a != b,
            UnconfirmedOp::Leq => a <= b,
            UnconfirmedOp::Geq => a >= b,
            UnconfirmedOp::And => a != 0 && b != 0,
            _ => a != 0 || b != 0,
        };
        self.push(if result { 1 } else { 0 });
        Ok(())
    }

    /// Prints `text` and a newline.
    fn print_line(&mut self, text: &str)
        ensures
            final(self).state() == print_line(old(self).state(), text@),
            final(self).image() == old(self).image(),
            final(self).frames@ == old(self).frames@,
            final(self).mp == old(self).mp,
    {
        let ghost before = self.output@;
        push_str(&mut self.output, text);
        string_push(&mut self.output, '\n');
        proof {
            assert(self.output@ =~= before + text@ + seq!['\n']);
        }
    }

    /// `CXG seg, proc`: the KERNEL calls behind `WriteLn`.
    fn call_kernel(&mut self, seg: u8, p: u8) -> (r: Result<(), RuntimeError>)
        requires
            old(self).wf(),
        ensures
            final(self).wf(),
            final(self).image() == old(self).image(),
            final(self).state() == cxg_spec(old(self).image(), old(self).state(), seg, p).state,
            error_of(r) == cxg_spec(old(self).image(), old(self).state(), seg, p).error,
    {
        if seg != KERNEL_SEGMENT || p < BUILTIN_WRITELN_INT || p > BUILTIN_WRITELN_STRVAR {
            let mut text = String::new();
            push_str(&mut text, "CXG ");
            push_decimal(&mut text, seg as i64);
            push_str(&mut text, ",");
            push_decimal(&mut text, p as i64);
            proof {
                reveal_strlit("CXG ");
                reveal_strlit(",");
                assert(text@ =~= cxg_text(seg, p));
            }
            return Err(RuntimeError::UnimplementedOpcode(text));
        }
        if p == BUILTIN_WRITELN_NONE {
            self.print_line("");
            proof {
                reveal_strlit("");
            }
            return Ok(());
        }
        let v = match self.pop() {
            Ok(v) => v,
            Err(e) => return Err(e),
        };
        if p == BUILTIN_WRITELN_INT {
            let ghost s1 = self.state();
            let mut text = String::new();
            push_decimal(&mut text, v as i64);
            self.print_line(text.as_str());
            proof {
                assert(text@ =~= decimal(v as int));
            }
            Ok(())
        } else if p == BUILTIN_WRITELN_BOOL {
            if v != 0 {
                self.print_line("true");
            } else {
                self.print_line("false");
            }
            Ok(())
        } else if p == BUILTIN_WRITELN_STRING {
            if v < 0 || v as usize >= self.string_pool.len() {
                return Err(RuntimeError::AddressOutOfRange);
            }
            let ghost pool_view = self.image().pool;
            let mut text = String::new();
            push_str(&mut text, self.string_pool[v as usize].as_str());
            proof {
                assert(pool_view[v as int] == self.string_pool@[v as int]@);
                assert(text@ =~= pool_view[v as int]);
            }
            self.print_line(text.as_str());
            Ok(())
        } else {
            if v < 0 || v as usize >= self.stack.len() {
                return Err(RuntimeError::AddressOutOfRange);
            }
            let a = v as usize;
            let n = self.stack[a];
            if n < 0 || (n as usize) > self.stack.len() - a - 1 {
                return Err(RuntimeError::AddressOutOfRange);
            }
            let mut text = String::new();
            let mut k: usize = 0;
            let count = n as usize;
            while k < count
                invariant
                    k <= count,
                    count == n,
                    a + 1 + count <= self.stack@.len(),
                    self.stack@.len() <= usize::MAX,
                    text@ == self.stack@.subrange(a + 1, a + 1 + k).map_values(|w: i16| word_char(w)),
                decreases count - k,
            {
                let w = self.stack[a + 1 + k];
                let c: char = if 0 <= w && w <= 127 { (w as u8) as char } else { '\u{FFFD}' };
                string_push(&mut text, c);
                k = k + 1;
                proof {
                    assert(self.stack@.subrange(a + 1, a + 1 + k).map_values(|w: i16| word_char(w))
                        =~= self.stack@.subrange(a + 1, a + 1 + (k - 1)).map_values(|w: i16| word_char(w)).push(c));
                }
            }
            self.print_line(text.as_str());
            Ok(())
        }
    }
}


} // verus!
