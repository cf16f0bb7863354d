use wasd::ast::{Dialect, Severity, Span};
use wasd::driver::compile::{compile, CompileOptions};
use wasd::driver::emit::{compile_to_pcode, exit_code_for};
use wasd::driver::run::run;
use wasd::driver::sort::sort_diagnostics;
use wasd::ast::Diagnostic;

#[test]
fn compiles_a_valid_program_end_to_end() {
    let source = r#"
        PROGRAM Hello;
        VAR
            answer: INTEGER;
        BEGIN
            answer := 42;
            WriteLn(answer)
        END.
    "#;

    let result = compile(source, &CompileOptions::default(), Vec::new());

    assert!(result.program.is_some());
    assert!(result.unit.is_none());
    assert!(result.diagnostics.is_empty(), "expected no diagnostics, got {:?}", result.diagnostics);
}

#[test]
fn compile_to_pcode_generates_a_module_for_a_minimal_scope_program() {
    let source = r#"
        PROGRAM Sum;
        VAR
            total: INTEGER;
        BEGIN
            total := 0;
            IF total = 0 THEN
                total := 1
        END.
    "#;

    let result = compile_to_pcode(source, &CompileOptions::default(), Vec::new());

    assert!(result.diagnostics.is_empty(), "expected no diagnostics, got {:?}", result.diagnostics);
    let pcode = result.pcode.expect("pcode should have been generated");
    assert!(!pcode.instructions.is_empty());
}

#[test]
fn compile_to_pcode_generates_a_module_for_a_program_with_procedures_and_functions() {
    let source = r#"
        PROGRAM Procedures;
        VAR
            result: INTEGER;

        FUNCTION Factorial(n: INTEGER): INTEGER;
        BEGIN
            IF n <= 1 THEN
                Factorial := 1
            ELSE
                Factorial := n * Factorial(n - 1)
        END;

        PROCEDURE Increment(VAR value: INTEGER);
        BEGIN
            value := value + 1
        END;

        BEGIN
            result := Factorial(5);
            Increment(result)
        END.
    "#;

    let result = compile_to_pcode(source, &CompileOptions::default(), Vec::new());

    assert!(result.diagnostics.is_empty(), "expected no diagnostics, got {:?}", result.diagnostics);
    let pcode = result.pcode.expect("pcode should have been generated");
    let text = pcode.to_text();
    assert!(text.contains("CPG"), "expected a CPG call, got:\n{text}");
    assert!(text.contains("RPU"), "expected an RPU return, got:\n{text}");
    assert!(text.contains("LDA"), "expected an LDA (VAR arg address), got:\n{text}");
}

#[test]
fn compile_to_pcode_reports_out_of_scope_constructs_without_generating_pcode() {
    let source = r#"
        PROGRAM UsesCase;
        VAR
            answer: INTEGER;
        BEGIN
            answer := 42;
            CASE answer OF
                42: answer := 1
            END
        END.
    "#;

    let result = compile_to_pcode(source, &CompileOptions::default(), Vec::new());

    assert!(result.pcode.is_none());
    assert!(result.diagnostics.iter().any(|d| d.severity == Severity::Error));
}

#[test]
fn accepts_unit_declarations_when_ucsd_dialect_is_requested() {
    let source = r#"
        UNIT MathUtils;
        INTERFACE
        IMPLEMENTATION
        END.
    "#;

    let options = CompileOptions::new(Dialect::Ucsd);
    let result = compile(source, &options, Vec::new());

    assert!(result.unit.is_some());
    assert!(result.diagnostics.is_empty(), "expected no diagnostics under UCSD dialect, got {:?}", result.diagnostics);
}

#[test]
fn recursive_functions_and_local_procedures_type_check_cleanly() {
    let source = r#"
        PROGRAM Procedures;
        VAR
            result: INTEGER;

        FUNCTION Factorial(n: INTEGER): INTEGER;
        BEGIN
            IF n <= 1 THEN
                Factorial := 1
            ELSE
                Factorial := n * Factorial(n - 1)
        END;

        BEGIN
            result := Factorial(5);
            WriteLn(result)
        END.
    "#;

    let result = compile(source, &CompileOptions::default(), Vec::new());

    assert!(result.program.is_some());
    assert!(result.diagnostics.is_empty(), "expected no diagnostics, got {:?}", result.diagnostics);
}

#[test]
fn empty_source_compiles_to_neither_program_nor_unit() {
    let result = compile("  { nothing here }  ", &CompileOptions::default(), Vec::new());
    assert!(result.program.is_none());
    assert!(result.unit.is_none());
    assert_eq!(result.diagnostics.len(), 1);
    assert_eq!(result.diagnostics[0].message, "expected 'PROGRAM', found end of input");
}

#[test]
fn diagnostics_come_back_in_source_order() {
    let source = "PROGRAM P; VAR x: INTEGER; BEGIN x := @ 1; x := ; END.";
    let result = compile(source, &CompileOptions::default(), Vec::new());
    assert!(result.diagnostics.len() >= 2);
    for pair in result.diagnostics.windows(2) {
        assert!(pair[0].span.start <= pair[1].span.start, "{:?}", result.diagnostics);
    }
}

#[test]
fn sorting_diagnostics_is_stable() {
    let d = |start: u32, m: &str| Diagnostic::new(Span::new(start, start + 1), Severity::Error, m.to_string());
    let sorted = sort_diagnostics(vec![d(5, "a"), d(1, "b"), d(5, "c"), d(0, "d"), d(1, "e")]);
    let messages: Vec<&str> = sorted.iter().map(|d| d.message.as_str()).collect();
    assert_eq!(messages, vec!["d", "b", "e", "a", "c"]);
}

#[test]
fn a_unit_gets_no_pcode_and_an_error() {
    let source = "UNIT M; INTERFACE IMPLEMENTATION END.";
    let result = compile_to_pcode(source, &CompileOptions::new(Dialect::Ucsd), Vec::new());
    assert!(result.pcode.is_none());
    assert!(result.unit.is_some());
    assert_eq!(result.diagnostics.len(), 1);
    assert!(result.diagnostics[0].message.contains("UNIT"));
}

#[test]
fn compile_options_keep_the_source_path() {
    let options = CompileOptions::new(Dialect::Ucsd).with_source_path("prog.pas".to_string());
    assert_eq!(options.dialect, Dialect::Ucsd);
    assert_eq!(options.source_path.as_deref(), Some("prog.pas"));
    assert_eq!(CompileOptions::default().dialect, Dialect::Iso7185);
    assert!(CompileOptions::default().source_path.is_none());
}

#[test]
fn run_executes_a_program_and_reports_its_globals_and_output() {
    let source = r#"
        PROGRAM P;
        VAR x, y: INTEGER;
        BEGIN
            x := 6 * 7;
            y := x DIV 2;
            WriteLn(x)
        END.
    "#;
    let result = run(source, &CompileOptions::default(), Vec::new());
    assert!(result.executed);
    assert!(result.runtime_error.is_none());
    assert_eq!(result.globals, vec![42, 21]);
    assert_eq!(result.output, "42\n");
}

#[test]
fn run_reports_a_runtime_error() {
    let source = "PROGRAM P; VAR x: INTEGER; BEGIN x := 0; x := 1 DIV x END.";
    let result = run(source, &CompileOptions::default(), Vec::new());
    assert!(result.executed);
    assert!(result.runtime_error.is_some());
}

#[test]
fn run_does_not_execute_a_program_with_errors() {
    let result = run("PROGRAM P; BEGIN x := END.", &CompileOptions::default(), Vec::new());
    assert!(!result.executed);
    assert!(result.runtime_error.is_none());
    assert!(result.globals.is_empty());
    assert!(result.output.is_empty());
    assert!(!result.diagnostics.is_empty());
}

#[test]
fn semantic_diagnostics_are_merged_in_source_order() {
    let source = "PROGRAM P; VAR x: INTEGER; BEGIN x := 1 END.";
    let late = Diagnostic::new(Span::new(33, 39), Severity::Error, "late".to_owned());
    let early = Diagnostic::new(Span::new(0, 7), Severity::Warning, "early".to_owned());
    let result = compile(source, &CompileOptions::default(), vec![late, early]);
    assert!(result.program.is_some());
    let messages: Vec<&str> = result.diagnostics.iter().map(|d| d.message.as_str()).collect();
    assert_eq!(messages, vec!["early", "late"]);
}

#[test]
fn semantic_diagnostics_are_dropped_when_there_is_no_tree() {
    let d = Diagnostic::new(Span::new(0, 1), Severity::Error, "semantic".to_owned());
    let result = compile("   ", &CompileOptions::default(), vec![d]);
    assert!(result.program.is_none() && result.unit.is_none());
    assert!(result.diagnostics.iter().all(|d| d.message != "semantic"));
}

#[test]
fn a_semantic_error_stops_code_generation() {
    let source = "PROGRAM P; VAR x: INTEGER; BEGIN x := 1 END.";
    let d = Diagnostic::new(Span::new(33, 39), Severity::Error, "type mismatch".to_owned());
    let result = compile_to_pcode(source, &CompileOptions::default(), vec![d]);
    assert!(result.pcode.is_none());
    assert_eq!(result.diagnostics.len(), 1);
    assert_eq!(result.diagnostics[0].message, "type mismatch");
}

#[test]
fn exit_code_is_one_exactly_when_an_error_was_reported() {
    let warning = Diagnostic::new(Span::new(0, 1), Severity::Warning, "w".to_owned());
    let error = Diagnostic::new(Span::new(0, 1), Severity::Error, "e".to_owned());
    assert_eq!(exit_code_for(&Vec::new()), 0);
    assert_eq!(exit_code_for(&vec![warning.clone()]), 0);
    assert_eq!(exit_code_for(&vec![warning, error]), 1);
}
