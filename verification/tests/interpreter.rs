use wasd::ast::Program;
use wasd::lexer::Lexer;
use wasd::parser::Parser;
use wasd::pcode::codegen::CodeGenerator;
use wasd::pcode::PCodeModule;
use wasd::pmachine::{PMachine, RuntimeError};

fn parse_program(source: &str) -> Program {
    let mut lexer = Lexer::new(source);
    let (tokens, lex_diags) = lexer.tokenize();
    assert!(lex_diags.is_empty(), "lexer diagnostics: {lex_diags:?}");

    let mut parser = Parser::new(tokens);
    let (program, parse_diags) = parser.parse_program();
    assert!(parse_diags.is_empty(), "parser diagnostics: {parse_diags:?}");
    program.expect("source should parse into a Program")
}

fn compile(source: &str) -> PCodeModule {
    let program = parse_program(source);
    CodeGenerator::new().generate(&program).expect("codegen should succeed")
}



#[test]
fn arithmetic_expression_computes_the_correct_value() {
    let module = compile(
        r#"
        PROGRAM P;
        VAR x: INTEGER;
        BEGIN
            x := 1 + 2 * 3
        END.
        "#,
    );

    let mut vm = PMachine::new(module);
    vm.run().expect("program should run without error");

    assert_eq!(vm.global(0), Some(7));
    assert!(vm.is_halted());
}

#[test]
fn if_then_else_branches_correctly() {
    for (initial, expected) in [(5, 1), (-5, 2)] {
        let module = compile(&format!(
            r#"
            PROGRAM P;
            VAR x: INTEGER;
            BEGIN
                x := {initial};
                IF x > 0 THEN
                    x := 1
                ELSE
                    x := 2
            END.
            "#
        ));

        let mut vm = PMachine::new(module);
        vm.run().expect("program should run without error");
        assert_eq!(vm.global(0), Some(expected), "initial x = {initial}");
    }
}

#[test]
fn while_loop_counts_down_to_zero() {
    let module = compile(
        r#"
        PROGRAM P;
        VAR x: INTEGER;
        BEGIN
            x := 5;
            WHILE x > 0 DO
                x := x - 1
        END.
        "#,
    );

    let mut vm = PMachine::new(module);
    vm.run().expect("program should run without error");
    assert_eq!(vm.global(0), Some(0));
}

#[test]
fn for_loop_sums_one_to_five() {
    let module = compile(
        r#"
        PROGRAM P;
        VAR i, sum: INTEGER;
        BEGIN
            sum := 0;
            FOR i := 1 TO 5 DO
                sum := sum + i
        END.
        "#,
    );

    let mut vm = PMachine::new(module);
    vm.run().expect("program should run without error");
    assert_eq!(vm.global(1), Some(15), "sum of 1..=5");
    assert_eq!(vm.global(0), Some(6), "i should be 6 after the loop exits");
}

#[test]
fn repeat_until_counts_down_to_zero() {
    let module = compile(
        r#"
        PROGRAM P;
        VAR x: INTEGER;
        BEGIN
            x := 5;
            REPEAT
                x := x - 1
            UNTIL x = 0
        END.
        "#,
    );

    let mut vm = PMachine::new(module);
    vm.run().expect("program should run without error");
    assert_eq!(vm.global(0), Some(0));
}

#[test]
fn var_parameter_mutation_is_visible_to_the_caller() {
    let module = compile(
        r#"
        PROGRAM P;
        VAR x: INTEGER;
        PROCEDURE Inc(VAR n: INTEGER);
        BEGIN
            n := n + 1
        END;
        BEGIN
            x := 5;
            Inc(x)
        END.
        "#,
    );

    let mut vm = PMachine::new(module);
    vm.run().expect("program should run without error");
    assert_eq!(vm.global(0), Some(6));
}

#[test]
fn var_parameter_works_across_repeated_calls() {
    let module = compile(
        r#"
        PROGRAM P;
        VAR x, i: INTEGER;
        PROCEDURE Inc(VAR n: INTEGER);
        BEGIN
            n := n + 1
        END;
        BEGIN
            x := 0;
            FOR i := 1 TO 10 DO
                Inc(x)
        END.
        "#,
    );

    let mut vm = PMachine::new(module);
    vm.run().expect("program should run without error");
    assert_eq!(vm.global(0), Some(10));
}

#[test]
fn function_return_value_is_used_by_the_caller() {
    let module = compile(
        r#"
        PROGRAM P;
        VAR result: INTEGER;
        FUNCTION Square(n: INTEGER): INTEGER;
        BEGIN
            Square := n * n
        END;
        BEGIN
            result := Square(5)
        END.
        "#,
    );

    let mut vm = PMachine::new(module);
    vm.run().expect("program should run without error");
    assert_eq!(vm.global(0), Some(25));
}

#[test]
fn recursive_function_computes_factorial() {
    let module = compile(
        r#"
        PROGRAM P;
        VAR result: INTEGER;
        FUNCTION Fact(n: INTEGER): INTEGER;
        BEGIN
            IF n <= 1 THEN
                Fact := 1
            ELSE
                Fact := n * Fact(n - 1)
        END;
        BEGIN
            result := Fact(6)
        END.
        "#,
    );

    let mut vm = PMachine::new(module);
    vm.run().expect("program should run without error");
    assert_eq!(vm.global(0), Some(720));
}

#[test]
fn recursive_function_computes_fibonacci() {
    let module = compile(
        r#"
        PROGRAM P;
        VAR result: INTEGER;
        FUNCTION Fib(n: INTEGER): INTEGER;
        BEGIN
            IF n <= 1 THEN
                Fib := n
            ELSE
                Fib := Fib(n - 1) + Fib(n - 2)
        END;
        BEGIN
            result := Fib(10)
        END.
        "#,
    );

    let mut vm = PMachine::new(module);
    vm.run().expect("program should run without error");
    assert_eq!(vm.global(0), Some(55));
}

#[test]
fn division_by_zero_is_a_runtime_error() {
    let module = compile(
        r#"
        PROGRAM P;
        VAR x, y: INTEGER;
        BEGIN
            y := 0;
            x := 1 DIV y
        END.
        "#,
    );

    let mut vm = PMachine::new(module);
    let err = vm
        .run()
        .expect_err("division by zero must be a runtime error");
    assert_eq!(err, RuntimeError::DivisionByZero);
}

#[test]
fn modulo_by_zero_is_a_runtime_error() {
    let module = compile(
        r#"
        PROGRAM P;
        VAR x, y: INTEGER;
        BEGIN
            y := 0;
            x := 1 MOD y
        END.
        "#,
    );

    let mut vm = PMachine::new(module);
    let err = vm
        .run()
        .expect_err("modulo by zero must be a runtime error");
    assert_eq!(err, RuntimeError::DivisionByZero);
}

#[test]
fn nested_control_structures_execute_correctly() {
    let module = compile(
        r#"
        PROGRAM P;
        VAR x: INTEGER;
        BEGIN
            x := 3;
            IF x > 0 THEN
                WHILE x > 0 DO
                    x := x - 1
        END.
        "#,
    );

    let mut vm = PMachine::new(module);
    vm.run().expect("program should run without error");
    assert_eq!(vm.global(0), Some(0));
}

#[test]
fn writeln_prints_an_integer_value() {
    let module = compile(
        r#"
        PROGRAM P;
        VAR x: INTEGER;
        BEGIN
            x := 42;
            WriteLn(x)
        END.
        "#,
    );

    let mut vm = PMachine::new(module);
    vm.run().expect("program should run without error");
    assert_eq!(vm.output(), "42\n");
}

#[test]
fn writeln_prints_a_boolean_value() {
    for (flag, expected) in [("TRUE", "true\n"), ("FALSE", "false\n")] {
        let module = compile(&format!(
            r#"
            PROGRAM P;
            VAR flag: BOOLEAN;
            BEGIN
                flag := {flag};
                WriteLn(flag)
            END.
            "#
        ));

        let mut vm = PMachine::new(module);
        vm.run().expect("program should run without error");
        assert_eq!(vm.output(), expected, "flag = {flag}");
    }
}

#[test]
fn writeln_with_no_arguments_prints_only_a_newline() {
    let module = compile(
        r#"
        PROGRAM P;
        BEGIN
            WriteLn
        END.
        "#,
    );

    let mut vm = PMachine::new(module);
    vm.run().expect("program should run without error");
    assert_eq!(vm.output(), "\n");
}

#[test]
fn multiple_writeln_calls_print_in_order() {
    let module = compile(
        r#"
        PROGRAM P;
        BEGIN
            WriteLn(1);
            WriteLn(2);
            WriteLn(3)
        END.
        "#,
    );

    let mut vm = PMachine::new(module);
    vm.run().expect("program should run without error");
    assert_eq!(vm.output(), "1\n2\n3\n");
}

#[test]
fn writeln_prints_a_string_literal() {
    let module = compile(
        r#"
        PROGRAM P;
        BEGIN
            WriteLn('Hello, world!')
        END.
        "#,
    );

    let mut vm = PMachine::new(module);
    vm.run().expect("program should run without error");
    assert_eq!(vm.output(), "Hello, world!\n");
}

#[test]
fn multiple_distinct_string_literals_print_in_order() {
    let module = compile(
        r#"
        PROGRAM P;
        BEGIN
            WriteLn('first');
            WriteLn('second');
            WriteLn('third')
        END.
        "#,
    );

    let mut vm = PMachine::new(module);
    vm.run().expect("program should run without error");
    assert_eq!(vm.output(), "first\nsecond\nthird\n");
}

#[test]
fn writeln_works_from_inside_a_procedure_body() {
    let module = compile(
        r#"
        PROGRAM P;
        VAR result: INTEGER;

        PROCEDURE ShowDouble(n: INTEGER);
        VAR doubled: INTEGER;
        BEGIN
            doubled := n * 2;
            WriteLn(doubled)
        END;

        BEGIN
            result := 21;
            ShowDouble(result);
            WriteLn(result)
        END.
        "#,
    );

    let mut vm = PMachine::new(module);
    vm.run().expect("program should run without error");
    assert_eq!(vm.output(), "42\n21\n");
    assert_eq!(vm.global(0), Some(21));
}

#[test]
fn array_element_write_then_read_round_trips() {
    let module = compile(
        r#"
        PROGRAM P;
        VAR arr: ARRAY [1..10] OF INTEGER;
        VAR x: INTEGER;
        BEGIN
            arr[3] := 123;
            x := arr[3]
        END.
        "#,
    );

    let mut vm = PMachine::new(module);
    vm.run().expect("program should run without error");
    assert_eq!(vm.global(2), Some(123));
    assert_eq!(vm.global(10), Some(123));
    assert!(vm.is_halted());
}

#[test]
fn for_loop_fills_array_and_a_second_loop_sums_it() {
    let module = compile(
        r#"
        PROGRAM P;
        VAR arr: ARRAY [1..5] OF INTEGER;
        VAR i, total: INTEGER;
        BEGIN
            FOR i := 1 TO 5 DO
                arr[i] := i * i;
            total := 0;
            FOR i := 1 TO 5 DO
                total := total + arr[i]
        END.
        "#,
    );

    let mut vm = PMachine::new(module);
    vm.run().expect("program should run without error");
    assert_eq!(vm.globals()[0..5], [1, 4, 9, 16, 25]);
    assert_eq!(vm.global(6), Some(55));
    assert!(vm.is_halted());
}

#[test]
fn array_with_non_default_low_bound_indexes_correctly() {
    let module = compile(
        r#"
        PROGRAM P;
        VAR arr: ARRAY [5..7] OF INTEGER;
        BEGIN
            arr[5] := 50;
            arr[6] := 60;
            arr[7] := 70
        END.
        "#,
    );

    let mut vm = PMachine::new(module);
    vm.run().expect("program should run without error");

    assert_eq!(vm.globals()[0..3], [50, 60, 70]);
    assert!(vm.is_halted());
}

#[test]
fn boolean_array_element_write_then_writeln() {
    let module = compile(
        r#"
        PROGRAM P;
        VAR flags: ARRAY [1..3] OF BOOLEAN;
        BEGIN
            flags[1] := TRUE;
            flags[2] := FALSE;
            flags[3] := TRUE;
            WriteLn(flags[1]);
            WriteLn(flags[2]);
            WriteLn(flags[3])
        END.
        "#,
    );

        let mut vm = PMachine::new(module);
    vm.run().expect("program should run without error");
    assert_eq!(vm.output(), "true\nfalse\ntrue\n");
    assert!(vm.is_halted());
}

#[test]
fn array_index_can_be_a_runtime_computed_expression() {
    let module = compile(
        r#"
        PROGRAM P;
        VAR arr: ARRAY [1..5] OF INTEGER;
        VAR i, j: INTEGER;
        BEGIN
            FOR i := 1 TO 5 DO
                arr[i] := i * 10;
            j := 6;
            FOR i := 1 TO 5 DO
            BEGIN
                j := j - 1;
                WriteLn(arr[j])
            END
        END.
        "#,
    );

        let mut vm = PMachine::new(module);
    vm.run().expect("program should run without error");
    assert_eq!(vm.output(), "50\n40\n30\n20\n10\n");
    assert!(vm.is_halted());
}

#[test]
fn string_n_variable_assignment_and_writeln_prints_the_assigned_value() {
    let module = compile(
        r#"
        PROGRAM StringTest;
        VAR
            greeting: STRING[80];
        BEGIN
            greeting := 'Hello, world!';
            WriteLn(greeting)
        END.
        "#,
    );

    let mut vm = PMachine::new(module);
    vm.run().expect("program should run without error");
    assert_eq!(vm.output(), "Hello, world!\n");

    assert_eq!(vm.global(0), Some(13));
    assert_eq!(vm.global(1), Some('H' as i16));
}

#[test]
fn multiple_string_n_variables_do_not_interfere_with_each_other() {
    let module = compile(
        r#"
        PROGRAM P;
        VAR
            a: STRING[5];
            b: STRING[10];
        BEGIN
            a := 'Hi';
            b := 'World';
            WriteLn(a);
            WriteLn(b)
        END.
        "#,
    );

    let mut vm = PMachine::new(module);
    vm.run().expect("program should run without error");
    assert_eq!(vm.output(), "Hi\nWorld\n");
}
