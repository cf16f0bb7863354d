use wasd::ast::Program;
use wasd::lexer::Lexer;
use wasd::parser::Parser;
use wasd::pcode::codegen::CodeGenerator;
use wasd::pcode::{
    Address, CodeAddress, ConfirmedOp, Level, Opcode, PCodeModule, UnconfirmedOp, BUILTIN_WRITELN_BOOL,
    BUILTIN_WRITELN_INT, BUILTIN_WRITELN_NONE, BUILTIN_WRITELN_STRING, BUILTIN_WRITELN_STRVAR, KERNEL_SEGMENT,
};

fn parse_program(source: &str) -> Program {
    let mut lexer = Lexer::new(source);
    let (tokens, lex_diags) = lexer.tokenize();
    assert!(lex_diags.is_empty(), "lexer diagnostics: {lex_diags:?}");

    let mut parser = Parser::new(tokens);
    let (program, parse_diags) = parser.parse_program();
    assert!(
        parse_diags.is_empty(),
        "parser diagnostics: {parse_diags:?}"
    );
    program.expect("source should parse into a Program")
}

fn opcodes(module: &PCodeModule) -> Vec<Opcode> {
    module.instructions.iter().map(|i| i.opcode).collect()
}

fn op(o: UnconfirmedOp) -> Opcode {
    Opcode::Unconfirmed(o)
}

fn cop(o: ConfirmedOp) -> Opcode {
    Opcode::Confirmed(o)
}

#[test]
fn simple_assignment_generates_expected_instructions() {
    let program = parse_program(
        r#"
        PROGRAM P;
        VAR x: INTEGER;
        BEGIN
            x := 1 + 2
        END.
        "#,
    );

    let module = CodeGenerator::new()
        .generate(&program)
        .expect("codegen should succeed");

    assert_eq!(
        opcodes(&module),
        vec![
            op(UnconfirmedOp::Ldc(1)),
            op(UnconfirmedOp::Ldc(2)),
            op(UnconfirmedOp::Adi),
            op(UnconfirmedOp::Str(Level(0), Address(0))),
            op(UnconfirmedOp::Stp),
        ]
    );
    assert_eq!(module.global_data_words, 1);
}

#[test]
fn if_then_else_generates_fjp_and_ujp_with_correctly_patched_targets() {
    let program = parse_program(
        r#"
        PROGRAM P;
        VAR x: INTEGER;
        BEGIN
            IF x > 0 THEN
                x := 1
            ELSE
                x := 2
        END.
        "#,
    );

    let module = CodeGenerator::new()
        .generate(&program)
        .expect("codegen should succeed");

    assert_eq!(
        opcodes(&module),
        vec![
            op(UnconfirmedOp::Lod(Level(0), Address(0))), // x
            op(UnconfirmedOp::Ldc(0)),
            // `x > 0` = `NOT (x <= 0)` (LEQI + NOT; `>` doesn't exist as an
            op(UnconfirmedOp::Leq),
            op(UnconfirmedOp::Not),
            op(UnconfirmedOp::Fjp(CodeAddress(8))), // -> else branch (index 8)
            op(UnconfirmedOp::Ldc(1)),
            op(UnconfirmedOp::Str(Level(0), Address(0))),
            op(UnconfirmedOp::Ujp(CodeAddress(10))), // -> past else branch (STP)
            op(UnconfirmedOp::Ldc(2)),
            op(UnconfirmedOp::Str(Level(0), Address(0))),
            op(UnconfirmedOp::Stp),
        ]
    );
}

#[test]
fn if_then_without_else_only_emits_a_single_forward_jump() {
    let program = parse_program(
        r#"
        PROGRAM P;
        VAR x: INTEGER;
        BEGIN
            IF x > 0 THEN
                x := 1
        END.
        "#,
    );

    let module = CodeGenerator::new()
        .generate(&program)
        .expect("codegen should succeed");

    assert_eq!(
        opcodes(&module),
        vec![
            op(UnconfirmedOp::Lod(Level(0), Address(0))),
            op(UnconfirmedOp::Ldc(0)),
            op(UnconfirmedOp::Leq), // `x > 0` = NOT (x <= 0)
            op(UnconfirmedOp::Not),
            op(UnconfirmedOp::Fjp(CodeAddress(7))), // -> STP, right after THEN body
            op(UnconfirmedOp::Ldc(1)),
            op(UnconfirmedOp::Str(Level(0), Address(0))),
            op(UnconfirmedOp::Stp),
        ]
    );
}

#[test]
fn while_loop_generates_backward_and_forward_jumps() {
    let program = parse_program(
        r#"
        PROGRAM P;
        VAR x: INTEGER;
        BEGIN
            WHILE x > 0 DO
                x := x - 1
        END.
        "#,
    );

    let module = CodeGenerator::new()
        .generate(&program)
        .expect("codegen should succeed");

    assert_eq!(
        opcodes(&module),
        vec![
            op(UnconfirmedOp::Lod(Level(0), Address(0))), // loop start (index 0)
            op(UnconfirmedOp::Ldc(0)),
            op(UnconfirmedOp::Leq), // `x > 0` = NOT (x <= 0)
            op(UnconfirmedOp::Not),
            op(UnconfirmedOp::Fjp(CodeAddress(10))), // -> STP, past the loop
            op(UnconfirmedOp::Lod(Level(0), Address(0))),
            op(UnconfirmedOp::Ldc(1)),
            op(UnconfirmedOp::Sbi),
            op(UnconfirmedOp::Str(Level(0), Address(0))),
            op(UnconfirmedOp::Ujp(CodeAddress(0))), // -> back to loop start
            op(UnconfirmedOp::Stp),
        ]
    );
}

///
#[test]
fn for_loop_generates_init_test_body_and_increment() {
    let program = parse_program(
        r#"
        PROGRAM P;
        VAR i: INTEGER;
        BEGIN
            FOR i := 1 TO 10 DO
                i := i
        END.
        "#,
    );

    let module = CodeGenerator::new()
        .generate(&program)
        .expect("codegen should succeed");

    assert_eq!(
        opcodes(&module),
        vec![
            op(UnconfirmedOp::Ldc(1)),
            op(UnconfirmedOp::Str(Level(0), Address(0))), // i := 1
            op(UnconfirmedOp::Ldc(10)),
            op(UnconfirmedOp::Str(Level(0), Address(1))), // hidden limit := 10
            op(UnconfirmedOp::Lod(Level(0), Address(0))), // loop start (index 4)
            op(UnconfirmedOp::Lod(Level(0), Address(1))),
            op(UnconfirmedOp::Leq),                       // i <= limit
            op(UnconfirmedOp::Fjp(CodeAddress(15))),      // -> STP, past the loop
            op(UnconfirmedOp::Lod(Level(0), Address(0))), // body: i := i
            op(UnconfirmedOp::Str(Level(0), Address(0))),
            op(UnconfirmedOp::Lod(Level(0), Address(0))),
            op(UnconfirmedOp::Ldc(1)),
            op(UnconfirmedOp::Adi), // i + 1
            op(UnconfirmedOp::Str(Level(0), Address(0))),
            op(UnconfirmedOp::Ujp(CodeAddress(4))), // -> back to loop start
            op(UnconfirmedOp::Stp),
        ]
    );
    assert_eq!(module.global_data_words, 2, "i and the hidden limit temp");
}

#[test]
fn for_downto_uses_geq_and_sbi() {
    let program = parse_program(
        r#"
        PROGRAM P;
        VAR i: INTEGER;
        BEGIN
            FOR i := 10 DOWNTO 1 DO
                i := i
        END.
        "#,
    );

    let module = CodeGenerator::new()
        .generate(&program)
        .expect("codegen should succeed");
    let ops = opcodes(&module);

    assert!(ops.contains(&op(UnconfirmedOp::Geq)));
    assert!(ops.contains(&op(UnconfirmedOp::Sbi)));
    assert!(!ops.contains(&op(UnconfirmedOp::Leq)));
    assert!(!ops.contains(&op(UnconfirmedOp::Adi)));
}

#[test]
fn nested_if_inside_while_resolves_labels_independently() {
    let program = parse_program(
        r#"
        PROGRAM P;
        VAR x: INTEGER;
        BEGIN
            IF x > 0 THEN
                WHILE x > 0 DO
                    x := x - 1
        END.
        "#,
    );

    let module = CodeGenerator::new()
        .generate(&program)
        .expect("codegen should succeed");

    assert_eq!(
        opcodes(&module),
        vec![
            op(UnconfirmedOp::Lod(Level(0), Address(0))), // outer IF condition (index 0)
            op(UnconfirmedOp::Ldc(0)),
            op(UnconfirmedOp::Leq), // `x > 0` = NOT (x <= 0)
            op(UnconfirmedOp::Not),
            op(UnconfirmedOp::Fjp(CodeAddress(15))), // outer IF -> STP
            op(UnconfirmedOp::Lod(Level(0), Address(0))), // inner WHILE condition (loop start, index 5)
            op(UnconfirmedOp::Ldc(0)),
            op(UnconfirmedOp::Leq), // `x > 0` = NOT (x <= 0)
            op(UnconfirmedOp::Not),
            op(UnconfirmedOp::Fjp(CodeAddress(15))), // inner WHILE -> STP
            op(UnconfirmedOp::Lod(Level(0), Address(0))),
            op(UnconfirmedOp::Ldc(1)),
            op(UnconfirmedOp::Sbi),
            op(UnconfirmedOp::Str(Level(0), Address(0))),
            op(UnconfirmedOp::Ujp(CodeAddress(5))), // inner WHILE -> back to loop start
            op(UnconfirmedOp::Stp),
        ]
    );
}

#[test]
fn repeat_until_generates_a_single_backward_conditional_jump() {
    let program = parse_program(
        r#"
        PROGRAM P;
        VAR x: INTEGER;
        BEGIN
            REPEAT
                x := x - 1
            UNTIL x = 0
        END.
        "#,
    );

    let module = CodeGenerator::new()
        .generate(&program)
        .expect("codegen should succeed");

    assert_eq!(
        opcodes(&module),
        vec![
            op(UnconfirmedOp::Lod(Level(0), Address(0))), // loop start (index 0): body
            op(UnconfirmedOp::Ldc(1)),
            op(UnconfirmedOp::Sbi),
            op(UnconfirmedOp::Str(Level(0), Address(0))),
            op(UnconfirmedOp::Lod(Level(0), Address(0))), // UNTIL x = 0
            op(UnconfirmedOp::Ldc(0)),
            op(UnconfirmedOp::Equ),
            op(UnconfirmedOp::Fjp(CodeAddress(0))), // false -> back to loop start
            op(UnconfirmedOp::Stp),
        ]
    );
}

///
#[test]
fn no_arg_procedure_call_generates_cpg_and_rpu() {
    let program = parse_program(
        r#"
        PROGRAM P;
        PROCEDURE Foo;
        BEGIN
        END;
        BEGIN
            Foo
        END.
        "#,
    );

    let module = CodeGenerator::new()
        .generate(&program)
        .expect("codegen should succeed");

    assert_eq!(
        opcodes(&module),
        vec![
            cop(ConfirmedOp::Rpu(0)),              // Foo's body (entry = 0)
            cop(ConfirmedOp::Cpg(CodeAddress(0))), // Foo() call
            op(UnconfirmedOp::Stp),
        ]
    );
}

#[test]
fn procedure_call_with_value_parameter_pushes_the_evaluated_value() {
    let program = parse_program(
        r#"
        PROGRAM P;
        VAR result: INTEGER;
        PROCEDURE Double(n: INTEGER);
        BEGIN
            result := n + n
        END;
        BEGIN
            Double(21)
        END.
        "#,
    );

    let module = CodeGenerator::new()
        .generate(&program)
        .expect("codegen should succeed");

    assert_eq!(
        opcodes(&module),
        vec![
            // Double's body (entry = 0): result := n + n
            op(UnconfirmedOp::Lod(Level(0), Address(5))), // n (own frame, level 0)
            op(UnconfirmedOp::Lod(Level(0), Address(5))), // n
            op(UnconfirmedOp::Adi),
            op(UnconfirmedOp::Str(Level(1), Address(0))), // result (global, level 1)
            cop(ConfirmedOp::Rpu(1)),
            // Double(21) call
            op(UnconfirmedOp::Ldc(21)),
            cop(ConfirmedOp::Cpg(CodeAddress(0))),
            op(UnconfirmedOp::Stp),
        ]
    );
}

#[test]
fn procedure_call_with_var_parameter_pushes_the_address_of_the_argument() {
    let program = parse_program(
        r#"
        PROGRAM P;
        VAR x: INTEGER;
        PROCEDURE Inc(VAR n: INTEGER);
        BEGIN
            n := n + 1
        END;
        BEGIN
            Inc(x)
        END.
        "#,
    );

    let module = CodeGenerator::new()
        .generate(&program)
        .expect("codegen should succeed");

    assert_eq!(
        opcodes(&module),
        vec![
            // Inc's body (entry = 0): n := n + 1 (n is a VAR parameter)
            op(UnconfirmedOp::Lod(Level(0), Address(5))), // n's slot holds an address
            op(UnconfirmedOp::Lod(Level(0), Address(5))), // ... read it again to dereference
            op(UnconfirmedOp::Ind),                       // ... and load the referenced value
            op(UnconfirmedOp::Ldc(1)),
            op(UnconfirmedOp::Adi),
            op(UnconfirmedOp::Sti), // store through the address pushed first
            cop(ConfirmedOp::Rpu(1)),
            // Inc(x) call: the caller pushes the ADDRESS of x, not its value
            op(UnconfirmedOp::Lda(Level(0), Address(0))),
            cop(ConfirmedOp::Cpg(CodeAddress(0))),
            op(UnconfirmedOp::Stp),
        ]
    );
}

#[test]
fn function_call_stores_and_returns_its_return_value() {
    let program = parse_program(
        r#"
        PROGRAM P;
        VAR result: INTEGER;
        FUNCTION Square(n: INTEGER): INTEGER;
        BEGIN
            Square := n * n
        END;
        BEGIN
            result := Square(5)
        END.
        "#,
    );

    let module = CodeGenerator::new()
        .generate(&program)
        .expect("codegen should succeed");

    assert_eq!(
        opcodes(&module),
        vec![
            // Square's body (entry = 0): Square := n * n
            op(UnconfirmedOp::Lod(Level(0), Address(5))), // n
            op(UnconfirmedOp::Lod(Level(0), Address(5))), // n
            op(UnconfirmedOp::Mpi),
            op(UnconfirmedOp::Str(Level(0), Address(6))), // return value slot (5 + data_size(0) + 1 param)
            cop(ConfirmedOp::Rpu(1)),
            // result := Square(5)
            op(UnconfirmedOp::Ldc(5)),
            cop(ConfirmedOp::Cpg(CodeAddress(0))),
            op(UnconfirmedOp::Str(Level(0), Address(0))), // result
            op(UnconfirmedOp::Stp),
        ]
    );
}

#[test]
fn recursive_function_call_uses_cpg_targeting_its_own_entry() {
    let program = parse_program(
        r#"
        PROGRAM P;
        FUNCTION Fact(n: INTEGER): INTEGER;
        BEGIN
            IF n <= 1 THEN
                Fact := 1
            ELSE
                Fact := n * Fact(n - 1)
        END;
        BEGIN
        END.
        "#,
    );

    let module = CodeGenerator::new()
        .generate(&program)
        .expect("codegen should succeed");
    let ops = opcodes(&module);

    assert!(
        ops.contains(&cop(ConfirmedOp::Cpg(CodeAddress(0)))),
        "expected a recursive CPG(0) call, got {ops:?}"
    );
    assert!(ops
        .iter()
        .any(|o| matches!(o, Opcode::Unconfirmed(UnconfirmedOp::Fjp(_)))));
    assert!(ops
        .iter()
        .any(|o| matches!(o, Opcode::Unconfirmed(UnconfirmedOp::Ujp(_)))));
    assert!(matches!(
        ops[ops.len() - 2],
        Opcode::Confirmed(ConfirmedOp::Rpu(_))
    ));
    assert_eq!(ops[ops.len() - 1], op(UnconfirmedOp::Stp));
}

#[test]
fn local_and_global_variable_references_use_different_levels() {
    let program = parse_program(
        r#"
        PROGRAM P;
        VAR g: INTEGER;
        PROCEDURE UseBoth(n: INTEGER);
        VAR local: INTEGER;
        BEGIN
            local := n;
            g := local
        END;
        BEGIN
        END.
        "#,
    );

    let module = CodeGenerator::new()
        .generate(&program)
        .expect("codegen should succeed");

    assert_eq!(
        opcodes(&module),
        vec![
            op(UnconfirmedOp::Lod(Level(0), Address(6))), // n (own frame)
            op(UnconfirmedOp::Str(Level(0), Address(5))), // local := n (own frame)
            op(UnconfirmedOp::Lod(Level(0), Address(5))), // local (own frame)
            op(UnconfirmedOp::Str(Level(1), Address(0))), // g := local (one level up: global)
            cop(ConfirmedOp::Rpu(2)),
            op(UnconfirmedOp::Stp),
        ]
    );
}

#[test]
fn procedure_with_unsupported_parameter_type_is_reported_as_an_error_without_panicking() {
    let program = parse_program(
        r#"
        PROGRAM P;
        PROCEDURE Foo(arr: ARRAY [1..10] OF INTEGER);
        BEGIN
        END;
        BEGIN
        END.
        "#,
    );

    let result = CodeGenerator::new().generate(&program);
    let diagnostics =
        result.expect_err("unsupported parameter types must be rejected, not codegen'd");
    assert!(
        diagnostics.iter().any(|d| d.message.contains("ARRAY")),
        "diagnostics: {diagnostics:?}"
    );
}

#[test]
fn case_statements_are_reported_as_an_error_without_panicking() {
    let program = parse_program(
        r#"
        PROGRAM P;
        VAR x: INTEGER;
        BEGIN
            CASE x OF
                1: x := 1;
                2: x := 2
            END
        END.
        "#,
    );

    let result = CodeGenerator::new().generate(&program);
    let diagnostics = result.expect_err("CASE statements must be rejected, not codegen'd");
    assert!(
        diagnostics.iter().any(|d| d.message.contains("CASE")),
        "diagnostics: {diagnostics:?}"
    );
}

#[test]
fn record_typed_variables_are_reported_as_an_error_without_panicking() {
    let program = parse_program(
        r#"
        PROGRAM P;
        VAR r: RECORD x: INTEGER END;
        BEGIN
        END.
        "#,
    );

    let result = CodeGenerator::new().generate(&program);
    let diagnostics = result.expect_err("record VARs must be rejected, not codegen'd");
    assert!(
        diagnostics.iter().any(|d| d.message.contains("RECORD")),
        "diagnostics: {diagnostics:?}"
    );
}

#[test]
fn writeln_with_integer_argument_emits_cxg_writeln_int() {
    let program = parse_program(
        r#"
        PROGRAM P;
        VAR x: INTEGER;
        BEGIN
            x := 42;
            WriteLn(x)
        END.
        "#,
    );

    let module = CodeGenerator::new()
        .generate(&program)
        .expect("codegen should succeed");

    assert_eq!(
        opcodes(&module),
        vec![
            op(UnconfirmedOp::Ldc(42)),
            op(UnconfirmedOp::Str(Level(0), Address(0))),
            op(UnconfirmedOp::Lod(Level(0), Address(0))),
            cop(ConfirmedOp::Cxg(KERNEL_SEGMENT, BUILTIN_WRITELN_INT)),
            op(UnconfirmedOp::Stp),
        ]
    );
}

#[test]
fn writeln_with_boolean_argument_emits_cxg_writeln_bool() {
    let program = parse_program(
        r#"
        PROGRAM P;
        VAR flag: BOOLEAN;
        BEGIN
            flag := TRUE;
            WriteLn(flag)
        END.
        "#,
    );

    let module = CodeGenerator::new()
        .generate(&program)
        .expect("codegen should succeed");
    let ops = opcodes(&module);

    assert!(
        ops.contains(&cop(ConfirmedOp::Cxg(KERNEL_SEGMENT, BUILTIN_WRITELN_BOOL))),
        "expected a WriteLn(BOOLEAN) call, got {ops:?}"
    );
}

#[test]
fn writeln_with_no_arguments_emits_cxg_writeln_none() {
    let program = parse_program(
        r#"
        PROGRAM P;
        BEGIN
            WriteLn
        END.
        "#,
    );

    let module = CodeGenerator::new()
        .generate(&program)
        .expect("codegen should succeed");

    assert_eq!(
        opcodes(&module),
        vec![
            cop(ConfirmedOp::Cxg(KERNEL_SEGMENT, BUILTIN_WRITELN_NONE)),
            op(UnconfirmedOp::Stp),
        ]
    );
}

#[test]
fn writeln_with_string_literal_interns_it_and_emits_cxg_writeln_string() {
    let program = parse_program(
        r#"
        PROGRAM P;
        BEGIN
            WriteLn('Hello, world!')
        END.
        "#,
    );

    let module = CodeGenerator::new()
        .generate(&program)
        .expect("codegen should succeed");

    assert_eq!(module.string_pool, vec!["Hello, world!".to_string()]);
    assert_eq!(
        opcodes(&module),
        vec![
            op(UnconfirmedOp::Ldc(0)), // index 0 into string_pool
            cop(ConfirmedOp::Cxg(KERNEL_SEGMENT, BUILTIN_WRITELN_STRING)),
            op(UnconfirmedOp::Stp),
        ]
    );
}

#[test]
fn multiple_distinct_string_literals_get_distinct_pool_indices() {
    let program = parse_program(
        r#"
        PROGRAM P;
        BEGIN
            WriteLn('first');
            WriteLn('second')
        END.
        "#,
    );

    let module = CodeGenerator::new()
        .generate(&program)
        .expect("codegen should succeed");

    assert_eq!(
        module.string_pool,
        vec!["first".to_string(), "second".to_string()]
    );
    assert_eq!(
        opcodes(&module),
        vec![
            op(UnconfirmedOp::Ldc(0)),
            cop(ConfirmedOp::Cxg(KERNEL_SEGMENT, BUILTIN_WRITELN_STRING)),
            op(UnconfirmedOp::Ldc(1)),
            cop(ConfirmedOp::Cxg(KERNEL_SEGMENT, BUILTIN_WRITELN_STRING)),
            op(UnconfirmedOp::Stp),
        ]
    );
}

#[test]
fn writeln_with_multiple_arguments_is_reported_as_an_error_without_panicking() {
    let program = parse_program(
        r#"
        PROGRAM P;
        VAR a, b: INTEGER;
        BEGIN
            WriteLn(a, b)
        END.
        "#,
    );

    let result = CodeGenerator::new().generate(&program);
    let diagnostics = result.expect_err("multi-argument WriteLn must be rejected, not codegen'd");
    assert!(
        diagnostics.iter().any(|d| d.message.contains("WriteLn")),
        "diagnostics: {diagnostics:?}"
    );
}

#[test]
fn less_than_and_greater_than_are_synthesized_from_geqi_leqi_and_not() {
    let program = parse_program(
        r#"
        PROGRAM P;
        VAR a, b, x, y: INTEGER;
        BEGIN
            IF a < b THEN
                x := 1;
            IF a > b THEN
                y := 1
        END.
        "#,
    );

    let module = CodeGenerator::new()
        .generate(&program)
        .expect("codegen should succeed");
    let ops = opcodes(&module);

    // `a < b` -> GEQI + NOT (in that order, adjacent).
    let geq_not = ops
        .windows(2)
        .any(|w| w == [op(UnconfirmedOp::Geq), op(UnconfirmedOp::Not)]);
    assert!(
        geq_not,
        "expected GEQI immediately followed by NOT for `<`, got {ops:?}"
    );
    // `a > b` -> LEQI + NOT (in that order, adjacent).
    let leq_not = ops
        .windows(2)
        .any(|w| w == [op(UnconfirmedOp::Leq), op(UnconfirmedOp::Not)]);
    assert!(
        leq_not,
        "expected LEQI immediately followed by NOT for `>`, got {ops:?}"
    );
}

#[test]
fn global_array_variable_reserves_high_minus_low_plus_one_words() {
    let program = parse_program(
        r#"
        PROGRAM P;
        VAR a: ARRAY [1..10] OF INTEGER;
        VAR b: ARRAY [5..7] OF INTEGER;
        VAR c, d: ARRAY [0..2] OF BOOLEAN;
        BEGIN
        END.
        "#,
    );

    let module = CodeGenerator::new()
        .generate(&program)
        .expect("codegen should succeed");
    assert_eq!(module.global_data_words, 19);
}

#[test]
fn array_index_load_generates_lda_ldc_sbi_adi_ind() {
    let program = parse_program(
        r#"
        PROGRAM P;
        VAR arr: ARRAY [1..10] OF INTEGER;
        VAR i, x: INTEGER;
        BEGIN
            x := arr[i]
        END.
        "#,
    );

    let module = CodeGenerator::new()
        .generate(&program)
        .expect("codegen should succeed");
    assert_eq!(
        opcodes(&module),
        vec![
            op(UnconfirmedOp::Lda(Level(0), Address(0))),
            op(UnconfirmedOp::Lod(Level(0), Address(10))),
            op(UnconfirmedOp::Ldc(1)),
            op(UnconfirmedOp::Sbi),
            op(UnconfirmedOp::Adi),
            op(UnconfirmedOp::Ind),
            op(UnconfirmedOp::Str(Level(0), Address(11))),
            op(UnconfirmedOp::Stp),
        ]
    );
}

#[test]
fn array_index_store_generates_lda_ldc_sbi_adi_sti() {
    let program = parse_program(
        r#"
        PROGRAM P;
        VAR arr: ARRAY [1..10] OF INTEGER;
        VAR i, x: INTEGER;
        BEGIN
            arr[i] := x
        END.
        "#,
    );

    let module = CodeGenerator::new()
        .generate(&program)
        .expect("codegen should succeed");

    assert_eq!(
        opcodes(&module),
        vec![
            op(UnconfirmedOp::Lda(Level(0), Address(0))),
            op(UnconfirmedOp::Lod(Level(0), Address(10))),
            op(UnconfirmedOp::Ldc(1)),
            op(UnconfirmedOp::Sbi),
            op(UnconfirmedOp::Adi),
            op(UnconfirmedOp::Lod(Level(0), Address(11))),
            op(UnconfirmedOp::Sti),
            op(UnconfirmedOp::Stp),
        ]
    );
}

#[test]
fn array_index_uses_the_declared_low_bound_as_is() {
    let program = parse_program(
        r#"
        PROGRAM P;
        VAR arr: ARRAY [5..7] OF INTEGER;
        BEGIN
            arr[5] := 42
        END.
        "#,
    );

    let module = CodeGenerator::new()
        .generate(&program)
        .expect("codegen should succeed");

    assert_eq!(
        opcodes(&module),
        vec![
            op(UnconfirmedOp::Lda(Level(0), Address(0))),
            op(UnconfirmedOp::Ldc(5)),
            op(UnconfirmedOp::Ldc(5)),
            op(UnconfirmedOp::Sbi),
            op(UnconfirmedOp::Adi),
            op(UnconfirmedOp::Ldc(42)),
            op(UnconfirmedOp::Sti),
            op(UnconfirmedOp::Stp),
        ]
    );
}

#[test]
fn writeln_with_array_element_emits_cxg_writeln_int() {
    let program = parse_program(
        r#"
        PROGRAM P;
        VAR arr: ARRAY [1..3] OF INTEGER;
        BEGIN
            WriteLn(arr[1])
        END.
        "#,
    );

    let module = CodeGenerator::new()
        .generate(&program)
        .expect("codegen should succeed");

    assert!(
        module
            .instructions
            .iter()
            .any(|i| i.opcode == cop(ConfirmedOp::Cxg(KERNEL_SEGMENT, BUILTIN_WRITELN_INT))),
        "expected a WriteLn(INTEGER) call: {:?}",
        opcodes(&module)
    );
}

#[test]
fn boolean_array_element_supports_writeln_bool() {
    let program = parse_program(
        r#"
        PROGRAM P;
        VAR flags: ARRAY [1..3] OF BOOLEAN;
        BEGIN
            flags[1] := TRUE;
            WriteLn(flags[1])
        END.
        "#,
    );

    let module = CodeGenerator::new()
        .generate(&program)
        .expect("codegen should succeed");

    assert!(
        module
            .instructions
            .iter()
            .any(|i| i.opcode == cop(ConfirmedOp::Cxg(KERNEL_SEGMENT, BUILTIN_WRITELN_BOOL))),
        "expected a WriteLn(BOOLEAN) call: {:?}",
        opcodes(&module)
    );
}

#[test]
fn bare_array_reference_as_a_value_is_reported_as_an_error_without_panicking() {
    let program = parse_program(
        r#"
        PROGRAM P;
        VAR arr: ARRAY [1..3] OF INTEGER;
        VAR x: INTEGER;
        BEGIN
            WriteLn(arr)
        END.
        "#,
    );

    let result = CodeGenerator::new().generate(&program);
    let diagnostics = result.expect_err("a bare array reference must be rejected");
    assert!(
        diagnostics.iter().any(|d| d.message.contains("array")),
        "diagnostics: {diagnostics:?}"
    );
}

#[test]
fn whole_array_assignment_is_reported_as_an_error_without_panicking() {
    let program = parse_program(
        r#"
        PROGRAM P;
        VAR a: ARRAY [1..3] OF INTEGER;
        VAR b: ARRAY [1..3] OF INTEGER;
        BEGIN
            a := b
        END.
        "#,
    );

    let result = CodeGenerator::new().generate(&program);
    let diagnostics = result.expect_err("whole-array assignment must be rejected");
    assert!(
        diagnostics
            .iter()
            .any(|d| d.message.contains("whole-array")),
        "diagnostics: {diagnostics:?}"
    );
}

#[test]
fn local_array_variable_is_reported_as_an_error_without_panicking() {
    let program = parse_program(
        r#"
        PROGRAM P;
        PROCEDURE Foo;
        VAR arr: ARRAY [1..3] OF INTEGER;
        BEGIN
        END;
        BEGIN
        END.
        "#,
    );

    let result = CodeGenerator::new().generate(&program);
    let diagnostics = result.expect_err("local array VARs must be rejected, not codegen'd");
    assert!(
        diagnostics.iter().any(|d| d.message.contains("ARRAY")),
        "diagnostics: {diagnostics:?}"
    );
}

#[test]
fn multi_dimensional_array_variable_is_reported_as_an_error_without_panicking() {
    let program = parse_program(
        r#"
        PROGRAM P;
        VAR grid: ARRAY [1..3] OF ARRAY [1..3] OF INTEGER;
        BEGIN
        END.
        "#,
    );

    let result = CodeGenerator::new().generate(&program);
    let diagnostics = result.expect_err("multi-dimensional arrays must be rejected");
    assert!(
        diagnostics
            .iter()
            .any(|d| d.message.contains("multi-dimensional")),
        "diagnostics: {diagnostics:?}"
    );
}

#[test]
fn array_of_unsupported_element_type_is_reported_as_an_error_without_panicking() {
    let program = parse_program(
        r#"
        PROGRAM P;
        VAR letters: ARRAY [1..3] OF CHAR;
        BEGIN
        END.
        "#,
    );

    let result = CodeGenerator::new().generate(&program);
    let diagnostics = result.expect_err("arrays of unsupported element types must be rejected");
    assert!(
        diagnostics
            .iter()
            .any(|d| d.message.contains("array element type")),
        "diagnostics: {diagnostics:?}"
    );
}

#[test]
fn array_with_too_many_elements_is_reported_as_an_error_without_panicking() {
    let program = parse_program(
        r#"
        PROGRAM P;
        VAR huge: ARRAY [1..70000] OF INTEGER;
        BEGIN
        END.
        "#,
    );

    let result = CodeGenerator::new().generate(&program);
    let diagnostics = result.expect_err("oversized arrays must be rejected, not codegen'd");
    assert!(
        diagnostics
            .iter()
            .any(|d| d.message.contains("too many elements")),
        "diagnostics: {diagnostics:?}"
    );
}

#[test]
fn string_n_variable_reserves_one_plus_max_len_words() {
    let program = parse_program(
        r#"
        PROGRAM P;
        VAR s: STRING[5];
        BEGIN
        END.
        "#,
    );

    let module = CodeGenerator::new()
        .generate(&program)
        .expect("codegen should succeed");

    assert_eq!(module.global_data_words, 6);
}

#[test]
fn string_literal_assignment_generates_length_and_char_stores() {
    let program = parse_program(
        r#"
        PROGRAM P;
        VAR s: STRING[5];
        BEGIN
            s := 'Hi'
        END.
        "#,
    );

    let module = CodeGenerator::new()
        .generate(&program)
        .expect("codegen should succeed");

    assert_eq!(
        opcodes(&module),
        vec![
            op(UnconfirmedOp::Ldc(2)),
            op(UnconfirmedOp::Str(Level(0), Address(0))),
            op(UnconfirmedOp::Ldc('H' as i16)),
            op(UnconfirmedOp::Str(Level(0), Address(1))),
            op(UnconfirmedOp::Ldc('i' as i16)),
            op(UnconfirmedOp::Str(Level(0), Address(2))),
            op(UnconfirmedOp::Stp),
        ]
    );
}

#[test]
fn writeln_with_string_n_variable_emits_lda_and_cxg_writeln_strvar() {
    let program = parse_program(
        r#"
        PROGRAM P;
        VAR s: STRING[80];
        BEGIN
            s := 'Hello, world!';
            WriteLn(s)
        END.
        "#,
    );

    let module = CodeGenerator::new()
        .generate(&program)
        .expect("codegen should succeed");
    let ops = opcodes(&module);

    assert!(
        ops.contains(&op(UnconfirmedOp::Lda(Level(0), Address(0)))),
        "expected LDA of the string variable's address, got {ops:?}"
    );
    assert!(
        ops.contains(&cop(ConfirmedOp::Cxg(
            KERNEL_SEGMENT,
            BUILTIN_WRITELN_STRVAR
        ))),
        "expected a WriteLn(STRING[n]) call, got {ops:?}"
    );

    let lda_then_cxg = ops.windows(2).any(|w| {
        w == [
            op(UnconfirmedOp::Lda(Level(0), Address(0))),
            cop(ConfirmedOp::Cxg(KERNEL_SEGMENT, BUILTIN_WRITELN_STRVAR)),
        ]
    });
    assert!(
        lda_then_cxg,
        "expected LDA immediately followed by CXG WRITELN_STRVAR, got {ops:?}"
    );
}

#[test]
fn string_literal_longer_than_max_len_is_reported_as_an_error_without_panicking() {
    let program = parse_program(
        r#"
        PROGRAM P;
        VAR s: STRING[4];
        BEGIN
            s := 'Hello'
        END.
        "#,
    );

    let result = CodeGenerator::new().generate(&program);
    let diagnostics =
        result.expect_err("a string literal longer than the declared max length must be rejected");
    assert!(
        diagnostics.iter().any(|d| d.message.contains("STRING[4]")),
        "diagnostics: {diagnostics:?}"
    );
}

#[test]
fn string_n_local_variable_is_reported_as_an_error_without_panicking() {
    let program = parse_program(
        r#"
        PROGRAM P;
        PROCEDURE Greet;
        VAR s: STRING[10];
        BEGIN
        END;
        BEGIN
            Greet
        END.
        "#,
    );

    let result = CodeGenerator::new().generate(&program);
    let diagnostics =
        result.expect_err("STRING[n] local variables must be rejected, not codegen'd");
    assert!(
        diagnostics
            .iter()
            .any(|d| d.message.contains("STRING[n] local variables")),
        "diagnostics: {diagnostics:?}"
    );
}

fn only_error(source: &str) -> wasd::ast::Diagnostic {
    let program = parse_program(source);
    let mut diagnostics = CodeGenerator::new().generate(&program).expect_err("generation must fail");
    assert_eq!(diagnostics.len(), 1, "diagnostics: {diagnostics:?}");
    diagnostics.remove(0)
}

#[test]
fn real_division_is_one_error() {
    let d = only_error("PROGRAM P; VAR x: INTEGER; BEGIN x := 1 / 2 END.");
    assert!(d.message.starts_with("real division ('/')"));
}

#[test]
fn a_procedure_name_in_an_expression_is_one_error() {
    let d = only_error("PROGRAM P; VAR x: INTEGER; PROCEDURE Q; BEGIN END; BEGIN x := Q END.");
    assert_eq!(d.message, "'Q' is a procedure; procedures cannot be used in an expression");
}

#[test]
fn a_function_that_needs_arguments_named_alone_is_one_error() {
    let d = only_error(
        "PROGRAM P; VAR x: INTEGER; FUNCTION F(a: INTEGER): INTEGER; BEGIN F := a END; BEGIN x := F END.",
    );
    assert_eq!(d.message, "Function 'F' expects 1 argument(s), found 0");
}

#[test]
fn an_unknown_name_in_an_expression_is_one_error() {
    let d = only_error("PROGRAM P; VAR x: INTEGER; BEGIN x := y END.");
    assert_eq!(d.message, "'y' is not a known constant or variable in this scope");
}

#[test]
fn assigning_to_a_function_outside_its_body_is_reported() {
    let d = only_error(
        "PROGRAM P; FUNCTION F: INTEGER; BEGIN F := 1 END; BEGIN F := 2 END.",
    );
    assert_eq!(d.message, "Cannot assign to function 'F' outside of its own body");
}

#[test]
fn a_case_statement_is_reported_with_its_own_message() {
    let d = only_error("PROGRAM P; VAR x: INTEGER; BEGIN CASE x OF 1: x := 1 END END.");
    assert_eq!(d.message, "CASE statements are out of scope for this step's minimal codegen");
}

#[test]
fn type_declarations_are_the_first_error_reported() {
    let program = parse_program("PROGRAM P; TYPE T = INTEGER; VAR x: INTEGER; BEGIN CASE x OF 1: x := 1 END END.");
    let diagnostics = CodeGenerator::new().generate(&program).expect_err("generation must fail");
    assert!(diagnostics[0].message.starts_with("TYPE declarations are out of scope"));
}

#[test]
fn the_first_unsupported_statement_gives_the_first_error() {
    let program = parse_program(
        "PROGRAM P; VAR x: INTEGER; FUNCTION F: INTEGER; BEGIN F := 1 END; BEGIN x := 1; F := 2; CASE x OF 1: x := 1 END END.",
    );
    let diagnostics = CodeGenerator::new().generate(&program).expect_err("generation must fail");
    assert_eq!(diagnostics[0].message, "Cannot assign to function 'F' outside of its own body");
    assert_eq!(diagnostics.len(), 2);
}

#[test]
fn calling_an_undeclared_procedure_is_the_first_error() {
    let program = parse_program("PROGRAM P; VAR x: INTEGER; BEGIN x := 1; Foo(x); CASE x OF 1: x := 1 END END.");
    let diagnostics = CodeGenerator::new().generate(&program).expect_err("generation must fail");
    assert_eq!(diagnostics[0].message, "Undefined procedure 'Foo'");
}

#[test]
fn an_unsupported_built_in_call_is_the_first_error() {
    let program = parse_program("PROGRAM P; VAR x: INTEGER; BEGIN Write(x); y := 1 END.");
    let diagnostics = CodeGenerator::new().generate(&program).expect_err("generation must fail");
    assert_eq!(diagnostics[0].message, "built-in procedure 'Write' is out of scope for this step's minimal codegen");
    assert_eq!(diagnostics[1].message, "'y' is not a known variable in this scope");
}

#[test]
fn the_first_error_of_an_assigned_value_comes_first() {
    let program = parse_program("PROGRAM P; VAR x: INTEGER; BEGIN x := 1; x := (y + 70000) / 2; CASE x OF 1: x := 1 END END.");
    let diagnostics = CodeGenerator::new().generate(&program).expect_err("generation must fail");
    assert_eq!(diagnostics[0].message, "'y' is not a known constant or variable in this scope");
    assert!(diagnostics[1].message.starts_with("integer constant 70000 does not fit"));
    assert!(diagnostics[2].message.starts_with("real division"));
}

#[test]
fn the_first_error_of_a_condition_comes_first() {
    let program = parse_program("PROGRAM P; VAR x: INTEGER; BEGIN WHILE z DO x := 1; IF 1.5 THEN x := 2 END.");
    let diagnostics = CodeGenerator::new().generate(&program).expect_err("generation must fail");
    assert_eq!(diagnostics[0].message, "'z' is not a known constant or variable in this scope");
    assert_eq!(diagnostics[1].message, "REAL literals are out of scope for this step's minimal codegen");
}

#[test]
fn declaration_errors_come_first_and_in_order() {
    let program = parse_program(
        "PROGRAM P; CONST c = 'x'; VAR r: REAL; PROCEDURE Q(a: CHAR); VAR s: STRING[3]; BEGIN END; PROCEDURE q; BEGIN END; FUNCTION F: REAL; BEGIN END; BEGIN CASE 1 OF 1: END END.",
    );
    let diagnostics = CodeGenerator::new().generate(&program).expect_err("generation must fail");
    let messages: Vec<&str> = diagnostics.iter().map(|d| d.message.as_str()).collect();
    assert_eq!(messages[0], "CONST 'c': only INTEGER/BOOLEAN constants are supported by this step's minimal codegen");
    assert_eq!(messages[1], "VAR type 'REAL' is out of scope for this step's minimal codegen (only INTEGER/BOOLEAN are supported)");
    assert_eq!(messages[2], "STRING[n] local variables are out of scope for this step's minimal codegen (only global STRING[n] variables are supported)");
    assert_eq!(messages[3], "parameter type 'CHAR' is out of scope for this step's minimal codegen (only INTEGER/BOOLEAN are supported)");
    assert_eq!(messages[4], "'q' is already declared");
    assert_eq!(messages[5], "FUNCTION return type 'REAL' is out of scope for this step's minimal codegen (only INTEGER/BOOLEAN are supported)");
}

#[test]
fn a_routine_body_reports_before_the_program_body() {
    let program = parse_program(
        "PROGRAM P; VAR x: INTEGER; PROCEDURE Q; BEGIN x := 1; Foo END; BEGIN CASE x OF 1: x := 1 END END.",
    );
    let diagnostics = CodeGenerator::new().generate(&program).expect_err("generation must fail");
    assert_eq!(diagnostics[0].message, "Undefined procedure 'Foo'");
    assert_eq!(diagnostics[1].message, "CASE statements are out of scope for this step's minimal codegen");
}
