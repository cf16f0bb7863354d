use wasd::ast::Span;
use wasd::pcode::{Address, CodeAddress, ConfirmedOp, Instruction, Level, Opcode, PCodeModule, RoutineMeta, UnconfirmedOp};
use wasd::pmachine::{PMachine, RuntimeError};

fn module(global_words: u16, ops: &[UnconfirmedOp]) -> PCodeModule {
    PCodeModule {
        instructions: ops
            .iter()
            .map(|op| Instruction { opcode: Opcode::Unconfirmed(*op), span: Span::new(0, 1) })
            .collect(),
        global_data_words: global_words,
        routines: Vec::new(),
        entry: CodeAddress(0),
        string_pool: Vec::new(),
    }
}

#[test]
fn globals_survive_an_underflow() {
    let mut vm = PMachine::new(module(
        1,
        &[UnconfirmedOp::Ldc(4), UnconfirmedOp::Str(Level(0), Address(0)), UnconfirmedOp::Adi, UnconfirmedOp::Stp],
    ));
    assert_eq!(vm.run(), Err(RuntimeError::StackUnderflow));
    assert_eq!(vm.globals(), &[4]);
    assert_eq!(vm.sp(), 1);
}

#[test]
fn globals_after_a_division_by_zero_are_the_whole_area() {
    let mut vm = PMachine::new(module(
        2,
        &[
            UnconfirmedOp::Ldc(7),
            UnconfirmedOp::Str(Level(0), Address(1)),
            UnconfirmedOp::Ldc(1),
            UnconfirmedOp::Ldc(0),
            UnconfirmedOp::Dvi,
            UnconfirmedOp::Stp,
        ],
    ));
    assert_eq!(vm.run(), Err(RuntimeError::DivisionByZero));
    assert_eq!(vm.globals(), &[0, 7]);
}

#[test]
fn load_through_an_address_equals_a_direct_load() {
    let mut direct = PMachine::new(module(
        3,
        &[
            UnconfirmedOp::Ldc(5),
            UnconfirmedOp::Str(Level(0), Address(2)),
            UnconfirmedOp::Lod(Level(0), Address(2)),
            UnconfirmedOp::Str(Level(0), Address(0)),
            UnconfirmedOp::Stp,
        ],
    ));
    let mut indirect = PMachine::new(module(
        3,
        &[
            UnconfirmedOp::Ldc(5),
            UnconfirmedOp::Str(Level(0), Address(2)),
            UnconfirmedOp::Lda(Level(0), Address(2)),
            UnconfirmedOp::Ind,
            UnconfirmedOp::Str(Level(0), Address(0)),
            UnconfirmedOp::Stp,
        ],
    ));
    direct.run().unwrap();
    indirect.run().unwrap();
    assert_eq!(direct.globals(), &[5, 0, 5]);
    assert_eq!(indirect.globals(), &[5, 0, 5]);
    assert_eq!(direct.sp(), indirect.sp());
}

#[test]
fn store_through_an_address_equals_a_direct_store() {
    let mut direct = PMachine::new(module(2, &[UnconfirmedOp::Ldc(9), UnconfirmedOp::Str(Level(0), Address(1)), UnconfirmedOp::Stp]));
    let mut indirect = PMachine::new(module(
        2,
        &[UnconfirmedOp::Lda(Level(0), Address(1)), UnconfirmedOp::Ldc(9), UnconfirmedOp::Sti, UnconfirmedOp::Stp],
    ));
    direct.run().unwrap();
    indirect.run().unwrap();
    assert_eq!(direct.globals(), &[0, 9]);
    assert_eq!(indirect.globals(), &[0, 9]);
}

#[test]
fn a_failed_return_gives_up_the_activation_record() {
    let instr = |opcode: Opcode| Instruction { opcode, span: Span::new(0, 1) };
    let module = PCodeModule {
        instructions: vec![
            instr(Opcode::Confirmed(ConfirmedOp::Cpg(CodeAddress(2)))),
            instr(Opcode::Unconfirmed(UnconfirmedOp::Stp)),
            instr(Opcode::Confirmed(ConfirmedOp::Rpu(5))),
        ],
        global_data_words: 0,
        routines: vec![RoutineMeta { entry: CodeAddress(2), param_count: 0, data_size: 0, is_func: false }],
        entry: CodeAddress(0),
        string_pool: Vec::new(),
    };
    let mut vm = PMachine::new(module);
    vm.step().unwrap();
    assert_eq!(vm.call_depth(), 1);
    assert_eq!(vm.step(), Err(RuntimeError::StackUnderflow));
    assert_eq!(vm.call_depth(), 0);
}
