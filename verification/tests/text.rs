use wasd::ast::Span;
use wasd::pcode::text::{format_instruction, format_opcode};
use wasd::pcode::{
    Address, CodeAddress, ConfirmedOp, Instruction, Level, Opcode, PCodeModule, RoutineMeta, UnconfirmedOp,
};

fn instr(opcode: UnconfirmedOp) -> Instruction {
    Instruction { opcode: Opcode::Unconfirmed(opcode), span: Span::new(0, 1) }
}

fn confirmed_instr(opcode: ConfirmedOp) -> Instruction {
    Instruction { opcode: Opcode::Confirmed(opcode), span: Span::new(0, 1) }
}

#[test]
fn renders_one_instruction_per_line_with_an_index_prefix() {
    let module = PCodeModule {
        instructions: vec![
            instr(UnconfirmedOp::Ldc(1)),
            instr(UnconfirmedOp::Ldc(2)),
            instr(UnconfirmedOp::Adi),
            instr(UnconfirmedOp::Str(Level(0), Address(0))),
            instr(UnconfirmedOp::Stp),
        ],
        global_data_words: 1,
        routines: Vec::new(),
        entry: CodeAddress(0),
        string_pool: Vec::new(),
    };

    let text = module.to_text();
    let lines: Vec<_> = text.lines().collect();
    assert_eq!(lines, vec!["    0: LDC 1", "    1: LDC 2", "    2: ADI", "    3: STR 0,0", "    4: STP",]);
}

#[test]
fn renders_jump_targets_as_instruction_indices() {
    let module = PCodeModule {
        instructions: vec![instr(UnconfirmedOp::Fjp(CodeAddress(2))), instr(UnconfirmedOp::Ujp(CodeAddress(0)))],
        global_data_words: 0,
        routines: Vec::new(),
        entry: CodeAddress(0),
        string_pool: Vec::new(),
    };

    let text = module.to_text();
    assert!(text.contains("FJP 2"));
    assert!(text.contains("UJP 0"));
}

#[test]
fn renders_call_and_return_instructions() {
    let module = PCodeModule {
        instructions: vec![confirmed_instr(ConfirmedOp::Cpg(CodeAddress(3))), confirmed_instr(ConfirmedOp::Rpu(2))],
        global_data_words: 0,
        routines: Vec::new(),
        entry: CodeAddress(0),
        string_pool: Vec::new(),
    };

    let text = module.to_text();
    assert!(text.contains("CPG 3"));
    assert!(text.contains("RPU 2"));
}

#[test]
fn renders_the_routine_table_and_the_string_pool_after_the_code() {
    let module = PCodeModule {
        instructions: vec![instr(UnconfirmedOp::Stp)],
        global_data_words: 0,
        routines: vec![RoutineMeta { entry: CodeAddress(12), param_count: 2, data_size: 3, is_func: true }],
        entry: CodeAddress(0),
        string_pool: vec!["a\"b".to_string()],
    };

    let text = module.to_text();
    let lines: Vec<_> = text.lines().collect();
    assert_eq!(
        lines,
        vec![
            "    0: STP",
            "; routines (entry, params, data_size, is_func):",
            ";   entry=12 params=2 data_size=3 is_func=true",
            "; string pool:",
            ";   [0] \"a\\\"b\"",
        ]
    );
}

#[test]
fn formats_operands_of_every_kind_of_instruction() {
    assert_eq!(format_opcode(&Opcode::Unconfirmed(UnconfirmedOp::Ldc(-7))), "LDC -7");
    assert_eq!(format_opcode(&Opcode::Unconfirmed(UnconfirmedOp::Lod(Level(1), Address(6)))), "LOD 1,6");
    assert_eq!(format_opcode(&Opcode::Unconfirmed(UnconfirmedOp::Lda(Level(0), Address(2)))), "LDA 0,2");
    assert_eq!(format_opcode(&Opcode::Confirmed(ConfirmedOp::Cxg(1, 4))), "CXG 1,4");
    assert_eq!(format_opcode(&Opcode::Confirmed(ConfirmedOp::Cpi(2, CodeAddress(9)))), "CPI 2,9");
    assert_eq!(format_instruction(&instr(UnconfirmedOp::Ngi)), "NGI");
}
