use wasd::ast::Program;
use wasd::lexer::Lexer;
use wasd::parser::Parser;
use wasd::pcode::codegen::CodeGenerator;
use wasd::pcode::{ConfirmedOp, Opcode, PCodeModule};
use wasd::pmachine::PMachine;

fn parse_program(source: &str) -> Program {
    let mut lexer = Lexer::new(source);
    let (tokens, lex_diags) = lexer.tokenize();
    assert!(lex_diags.is_empty(), "lexer diagnostics: {lex_diags:?}");

    let mut parser = Parser::new(tokens);
    let (program, parse_diags) = parser.parse_program();
    assert!(parse_diags.is_empty(), "parser diagnostics: {parse_diags:?}");
    program.expect("source should parse into a Program")
}

fn compile(source: &str) -> PCodeModule {
    let program = parse_program(source);
    CodeGenerator::new().generate(&program).expect("codegen should succeed")
}
fn first_call(module: &PCodeModule) -> (usize, u16) {
    let (index, target) = module
        .instructions
        .iter()
        .enumerate()
        .find_map(|(i, instr)| match instr.opcode {
            Opcode::Confirmed(ConfirmedOp::Cpg(target)) => Some((i, target)),
            _ => None,
        })
        .expect("source should contain at least one CPG instruction");
    let param_count = module
        .routines
        .iter()
        .find(|r| r.entry == target)
        .expect("call target must have routine metadata")
        .param_count;
    (index, param_count)
}

///
fn sp_around_first_call(module: PCodeModule) -> (usize, usize) {
    let (call_index, param_count) = first_call(&module);
    let mut vm = PMachine::new(module);

    while vm.ipc() != call_index {
        vm.step().expect("should not fail before reaching the call");
    }
    let sp_before = vm.sp() - param_count as usize;

    vm.step().expect("the call itself should not fail");

    while vm.ipc() != call_index + 1 {
        vm.step()
            .expect("should not fail while executing the callee's body");
    }
    let sp_after = vm.sp();

    (sp_before, sp_after)
}

#[test]
fn no_arg_procedure_call_restores_sp_exactly() {
    let module = compile(
        r#"
        PROGRAM P;
        PROCEDURE Foo;
        BEGIN
        END;
        BEGIN
            Foo
        END.
        "#,
    );

    let (before, after) = sp_around_first_call(module);
    assert_eq!(before, after, "a PROCEDURE call must leave SP unchanged");
}

#[test]
fn value_parameter_procedure_call_restores_sp_exactly() {
    let module = compile(
        r#"
        PROGRAM P;
        VAR result: INTEGER;
        PROCEDURE Double(n: INTEGER);
        BEGIN
            result := n + n
        END;
        BEGIN
            Double(21)
        END.
        "#,
    );

    let (before, after) = sp_around_first_call(module);
    assert_eq!(before, after, "a PROCEDURE call must leave SP unchanged");
}

#[test]
fn var_parameter_procedure_call_restores_sp_exactly() {
    let module = compile(
        r#"
        PROGRAM P;
        VAR x: INTEGER;
        PROCEDURE Inc(VAR n: INTEGER);
        BEGIN
            n := n + 1
        END;
        BEGIN
            Inc(x)
        END.
        "#,
    );

    let (before, after) = sp_around_first_call(module);
    assert_eq!(before, after, "a PROCEDURE call must leave SP unchanged");
}

#[test]
fn function_call_leaves_exactly_one_return_value_word() {
    let module = compile(
        r#"
        PROGRAM P;
        VAR result: INTEGER;
        FUNCTION Square(n: INTEGER): INTEGER;
        BEGIN
            Square := n * n
        END;
        BEGIN
            result := Square(5)
        END.
        "#,
    );

    let (before, after) = sp_around_first_call(module);
    assert_eq!(
        after,
        before + 1,
        "a FUNCTION call must leave exactly the return value on the stack"
    );
}

#[test]
fn repeated_procedure_calls_each_restore_sp() {
    let module = compile(
        r#"
        PROGRAM P;
        VAR x: INTEGER;
        PROCEDURE Inc(VAR n: INTEGER);
        BEGIN
            n := n + 1
        END;
        BEGIN
            x := 0;
            Inc(x);
            Inc(x);
            Inc(x)
        END.
        "#,
    );

    let mut vm = PMachine::new(module);
    let sp_at_start = vm.sp();
    vm.run().expect("program should run without error");
    assert_eq!(vm.sp(), sp_at_start);
    assert_eq!(vm.global(0), Some(3));
}

#[test]
fn recursive_calls_leave_sp_balanced_after_the_program_completes() {
    let module = compile(
        r#"
        PROGRAM P;
        VAR result: INTEGER;
        FUNCTION Fact(n: INTEGER): INTEGER;
        BEGIN
            IF n <= 1 THEN
                Fact := 1
            ELSE
                Fact := n * Fact(n - 1)
        END;
        BEGIN
            result := Fact(7)
        END.
        "#,
    );

    let mut vm = PMachine::new(module);
    let sp_at_start = vm.sp();
    vm.run().expect("program should run without error");
    assert_eq!(vm.sp(), sp_at_start, "no leftover frames or temporaries");
    assert_eq!(vm.call_depth(), 0, "all activation records must be popped");
    assert_eq!(vm.global(0), Some(5040));
}
