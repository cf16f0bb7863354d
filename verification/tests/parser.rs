use wasd::ast::{
    BinOp, CompilationUnit, Diagnostic, Expr, ForDirection, Literal, Program, Statement, TypeExpr,
};
use wasd::lexer::Lexer;
use wasd::parser::Parser;

fn parse_source(source: &str) -> (Option<Program>, Vec<Diagnostic>) {
    let (tokens, lex_diags) = Lexer::new(source).tokenize();
    assert!(
        lex_diags.is_empty(),
        "unexpected lexer diagnostics for {source:?}: {lex_diags:?}"
    );
    Parser::new(tokens).parse_program()
}

#[test]
fn parses_minimal_program() {
    let (program, diags) = parse_source("PROGRAM Foo; BEGIN END.");
    assert!(diags.is_empty(), "unexpected diagnostics: {diags:?}");
    let program = program.expect("should parse a Program");
    assert_eq!(program.name.name, "Foo");
    assert!(program.const_decls.is_empty());
    assert!(program.var_decls.is_empty());
    assert!(program.body.statements.is_empty());
}

#[test]
fn parses_var_and_const_sections() {
    let src = r#"
        PROGRAM Foo;
        CONST
            MaxScore = 100;
            Ratio = 3.25;
        VAR
            x, y: INTEGER;
            flag: BOOLEAN;
        BEGIN
        END.
    "#;
    let (program, diags) = parse_source(src);
    assert!(diags.is_empty(), "unexpected diagnostics: {diags:?}");
    let program = program.expect("should parse a Program");

    assert_eq!(program.const_decls.len(), 2);
    assert_eq!(program.const_decls[0].name.name, "MaxScore");
    match &program.const_decls[0].value {
        Literal::Int(v, _) => assert_eq!(*v, 100),
        other => panic!("expected Int literal, got {other:?}"),
    }
    match &program.const_decls[1].value {
        Literal::Real(v, _) => assert_eq!(v.parse::<f64>().unwrap(), 3.25),
        other => panic!("expected Real literal, got {other:?}"),
    }

    assert_eq!(program.var_decls.len(), 2);
    let names: Vec<&str> = program.var_decls[0]
        .names
        .iter()
        .map(|i| i.name.as_str())
        .collect();
    assert_eq!(names, vec!["x", "y"]);
    assert!(matches!(program.var_decls[0].ty, TypeExpr::Integer(_)));
    assert!(matches!(program.var_decls[1].ty, TypeExpr::Boolean(_)));
}

#[test]
fn dangling_else_binds_to_nearest_if() {
    let src = r#"
        PROGRAM Foo;
        VAR x: INTEGER;
        BEGIN
            IF x THEN
                IF x THEN
                    x := 1
                ELSE
                    x := 2
        END.
    "#;
    let (program, diags) = parse_source(src);
    assert!(diags.is_empty(), "unexpected diagnostics: {diags:?}");
    let program = program.expect("should parse a Program");

    match &program.body.statements[0] {
        Statement::If {
            then_branch,
            else_branch,
            ..
        } => {
            assert!(else_branch.is_none(), "outer IF should have no ELSE");
            match then_branch.as_ref() {
                Statement::If {
                    else_branch: inner_else,
                    ..
                } => {
                    assert!(inner_else.is_some(), "ELSE should bind to the inner IF");
                }
                other => panic!("expected nested IF, got {other:?}"),
            }
        }
        other => panic!("expected IF statement, got {other:?}"),
    }
}

#[test]
fn parses_nested_while_inside_if() {
    let src = r#"
        PROGRAM Foo;
        VAR x: INTEGER;
        BEGIN
            IF x THEN
                WHILE x DO
                    x := x - 1
        END.
    "#;
    let (program, diags) = parse_source(src);
    assert!(diags.is_empty(), "unexpected diagnostics: {diags:?}");
    let program = program.expect("should parse a Program");

    match &program.body.statements[0] {
        Statement::If { then_branch, .. } => {
            assert!(matches!(then_branch.as_ref(), Statement::While { .. }));
        }
        other => panic!("expected IF statement, got {other:?}"),
    }
}

#[test]
fn respects_additive_and_multiplicative_precedence() {
    let (program, diags) = parse_source("PROGRAM Foo; VAR x: INTEGER; BEGIN x := 1 + 2 * 3 END.");
    assert!(diags.is_empty(), "unexpected diagnostics: {diags:?}");
    let program = program.expect("should parse a Program");

    match &program.body.statements[0] {
        Statement::Assignment { value, .. } => match value {
            Expr::BinaryOp {
                op: BinOp::Add,
                lhs,
                rhs,
                ..
            } => {
                assert!(matches!(lhs.as_ref(), Expr::IntLiteral(1, _)));
                match rhs.as_ref() {
                    Expr::BinaryOp {
                        op: BinOp::Mul,
                        lhs,
                        rhs,
                        ..
                    } => {
                        assert!(matches!(lhs.as_ref(), Expr::IntLiteral(2, _)));
                        assert!(matches!(rhs.as_ref(), Expr::IntLiteral(3, _)));
                    }
                    other => panic!("expected multiplication on the rhs, got {other:?}"),
                }
            }
            other => panic!("expected addition at the top, got {other:?}"),
        },
        other => panic!("expected an assignment statement, got {other:?}"),
    }
}

#[test]
fn and_binds_tighter_than_or() {
    let (program, diags) =
        parse_source("PROGRAM Foo; VAR a, b, c: BOOLEAN; BEGIN a := a AND b OR c END.");
    assert!(diags.is_empty(), "unexpected diagnostics: {diags:?}");
    let program = program.expect("should parse a Program");

    match &program.body.statements[0] {
        Statement::Assignment { value, .. } => match value {
            Expr::BinaryOp {
                op: BinOp::Or,
                lhs,
                rhs,
                ..
            } => {
                assert!(matches!(rhs.as_ref(), Expr::Identifier(id) if id.name == "c"));
                assert!(matches!(
                    lhs.as_ref(),
                    Expr::BinaryOp {
                        op: BinOp::And,
                        ..
                    }
                ));
            }
            other => panic!("expected OR at the top, got {other:?}"),
        },
        other => panic!("expected an assignment statement, got {other:?}"),
    }
}

#[test]
fn recovers_from_syntax_error_and_continues_parsing() {
    let src = r#"
        PROGRAM Foo;
        VAR x: INTEGER;
        BEGIN
            x := ;
            x := 42
        END.
    "#;
    let (program, diags) = parse_source(src);
    assert!(!diags.is_empty(), "expected at least one diagnostic");
    let program = program.expect("parser should still produce a Program despite the error");

    assert_eq!(program.body.statements.len(), 2);
    match &program.body.statements[1] {
        Statement::Assignment { value, .. } => {
            assert!(matches!(value, Expr::IntLiteral(42, _)));
        }
        other => panic!("expected the recovered assignment, got {other:?}"),
    }
}

#[test]
fn reports_diagnostic_for_unsupported_goto_statement_without_panicking() {
    let src = r#"
        PROGRAM Foo;
        VAR x: INTEGER;
        BEGIN
            GOTO 1;
            x := 1
        END.
    "#;
    let (program, diags) = parse_source(src);
    assert!(!diags.is_empty(), "expected at least one diagnostic for GOTO");
    let program = program.expect("parser should still produce a Program despite the error");
    assert_eq!(program.body.statements.len(), 1);
    match &program.body.statements[0] {
        Statement::Assignment { value, .. } => {
            assert!(matches!(value, Expr::IntLiteral(1, _)));
        }
        other => panic!("expected the recovered assignment, got {other:?}"),
    }
}

#[test]
fn does_not_hang_on_stray_until_token() {
    let src = r#"
        PROGRAM Foo;
        VAR x: INTEGER;
        BEGIN
            UNTIL x = 1;
            x := 1
        END.
    "#;
    let (program, diags) = parse_source(src);
    assert!(!diags.is_empty(), "expected at least one diagnostic for the stray UNTIL");
    assert!(
        program.is_some(),
        "parser should still produce a Program despite the error"
    );
}

#[test]
fn parses_for_to_statement() {
    let src = r#"
        PROGRAM Foo;
        VAR i, x: INTEGER;
        BEGIN
            FOR i := 1 TO 10 DO
                x := i
        END.
    "#;
    let (program, diags) = parse_source(src);
    assert!(diags.is_empty(), "unexpected diagnostics: {diags:?}");
    let program = program.expect("should parse a Program");

    match &program.body.statements[0] {
        Statement::For {
            var,
            start,
            end,
            direction,
            body,
            ..
        } => {
            assert_eq!(var.name, "i");
            assert!(matches!(start, Expr::IntLiteral(1, _)));
            assert!(matches!(end, Expr::IntLiteral(10, _)));
            assert_eq!(*direction, ForDirection::To);
            assert!(matches!(body.as_ref(), Statement::Assignment { .. }));
        }
        other => panic!("expected a For statement, got {other:?}"),
    }
}

#[test]
fn parses_for_downto_statement() {
    let (program, diags) = parse_source(
        "PROGRAM Foo; VAR i: INTEGER; BEGIN FOR i := 10 DOWNTO 1 DO i := i END.",
    );
    assert!(diags.is_empty(), "unexpected diagnostics: {diags:?}");
    let program = program.expect("should parse a Program");

    match &program.body.statements[0] {
        Statement::For { direction, .. } => {
            assert_eq!(*direction, ForDirection::DownTo);
        }
        other => panic!("expected a For statement, got {other:?}"),
    }
}

#[test]
fn parses_for_with_compound_body() {
    let src = r#"
        PROGRAM Foo;
        VAR i, sum: INTEGER;
        BEGIN
            sum := 0;
            FOR i := 1 TO 10 DO
            BEGIN
                sum := sum + i
            END
        END.
    "#;
    let (program, diags) = parse_source(src);
    assert!(diags.is_empty(), "unexpected diagnostics: {diags:?}");
    let program = program.expect("should parse a Program");

    match &program.body.statements[1] {
        Statement::For { body, .. } => {
            assert!(matches!(body.as_ref(), Statement::Compound(_)));
        }
        other => panic!("expected a For statement, got {other:?}"),
    }
}

#[test]
fn parses_repeat_until_with_multiple_statements() {
    let src = r#"
        PROGRAM Foo;
        VAR i: INTEGER;
        BEGIN
            i := 0;
            REPEAT
                i := i + 1;
                i := i + 1
            UNTIL i >= 10
        END.
    "#;
    let (program, diags) = parse_source(src);
    assert!(diags.is_empty(), "unexpected diagnostics: {diags:?}");
    let program = program.expect("should parse a Program");

    match &program.body.statements[1] {
        Statement::Repeat { body, until_cond, .. } => {
            assert_eq!(body.len(), 2);
            assert!(matches!(
                until_cond,
                Expr::BinaryOp {
                    op: BinOp::GtEq,
                    ..
                }
            ));
        }
        other => panic!("expected a Repeat statement, got {other:?}"),
    }
}

#[test]
fn parses_repeat_until_with_single_statement() {
    let (program, diags) =
        parse_source("PROGRAM Foo; VAR i: INTEGER; BEGIN i := 0; REPEAT i := i + 1 UNTIL i = 1 END.");
    assert!(diags.is_empty(), "unexpected diagnostics: {diags:?}");
    let program = program.expect("should parse a Program");

    match &program.body.statements[1] {
        Statement::Repeat { body, .. } => {
            assert_eq!(body.len(), 1);
        }
        other => panic!("expected a Repeat statement, got {other:?}"),
    }
}

#[test]
fn parses_case_statement_with_multiple_branches() {
    let src = r#"
        PROGRAM Foo;
        VAR x, y: INTEGER;
        BEGIN
            CASE x OF
                1, 2: y := 1;
                3: y := 2
            END
        END.
    "#;
    let (program, diags) = parse_source(src);
    assert!(diags.is_empty(), "unexpected diagnostics: {diags:?}");
    let program = program.expect("should parse a Program");

    match &program.body.statements[0] {
        Statement::Case { selector, branches, .. } => {
            assert!(matches!(selector, Expr::Identifier(id) if id.name == "x"));
            assert_eq!(branches.len(), 2);
            assert_eq!(branches[0].labels.len(), 2);
            match &branches[0].labels[0] {
                Literal::Int(v, _) => assert_eq!(*v, 1),
                other => panic!("expected an Int literal, got {other:?}"),
            }
            match &branches[0].labels[1] {
                Literal::Int(v, _) => assert_eq!(*v, 2),
                other => panic!("expected an Int literal, got {other:?}"),
            }
            assert_eq!(branches[1].labels.len(), 1);
            assert!(matches!(branches[0].body, Statement::Assignment { .. }));
        }
        other => panic!("expected a Case statement, got {other:?}"),
    }
}

#[test]
fn parses_case_statement_with_trailing_semicolon() {
    let (program, diags) = parse_source(
        "PROGRAM Foo; VAR x: INTEGER; BEGIN CASE x OF 1: x := 1; END END.",
    );
    assert!(diags.is_empty(), "unexpected diagnostics: {diags:?}");
    let program = program.expect("should parse a Program");

    match &program.body.statements[0] {
        Statement::Case { branches, .. } => {
            assert_eq!(branches.len(), 1);
        }
        other => panic!("expected a Case statement, got {other:?}"),
    }
}

#[test]
fn integration_lexes_and_parses_procedure_calls() {
    let src = r#"
        PROGRAM Greet;
        VAR name: INTEGER;
        BEGIN
            name := 1;
            WriteLn(name);
            WriteLn
        END.
    "#;
    let (program, diags) = parse_source(src);
    assert!(diags.is_empty(), "unexpected diagnostics: {diags:?}");
    let program = program.expect("should parse a Program");

    assert_eq!(program.body.statements.len(), 3);
    match &program.body.statements[1] {
        Statement::ProcCall { name, args, .. } => {
            assert_eq!(name.name, "WriteLn");
            assert_eq!(args.len(), 1);
        }
        other => panic!("expected a ProcCall, got {other:?}"),
    }
    match &program.body.statements[2] {
        Statement::ProcCall { name, args, .. } => {
            assert_eq!(name.name, "WriteLn");
            assert!(args.is_empty());
        }
        other => panic!("expected an argument-less ProcCall, got {other:?}"),
    }
}

#[test]
fn parses_procedure_decl_with_var_param() {
    let src = r#"
        PROGRAM Foo;
        PROCEDURE Swap(VAR a, b: INTEGER; c: BOOLEAN);
        VAR tmp: INTEGER;
        BEGIN
            tmp := a;
            a := b;
            b := tmp
        END;
        BEGIN
        END.
    "#;
    let (program, diags) = parse_source(src);
    assert!(diags.is_empty(), "unexpected diagnostics: {diags:?}");
    let program = program.expect("should parse a Program");

    assert_eq!(program.proc_decls.len(), 1);
    let proc = &program.proc_decls[0];
    assert_eq!(proc.name.name, "Swap");
    assert_eq!(proc.params.len(), 3);
    assert_eq!(proc.params[0].name.name, "a");
    assert!(proc.params[0].by_ref);
    assert!(matches!(proc.params[0].ty, TypeExpr::Integer(_)));
    assert_eq!(proc.params[1].name.name, "b");
    assert!(proc.params[1].by_ref);
    assert_eq!(proc.params[2].name.name, "c");
    assert!(!proc.params[2].by_ref);
    assert!(matches!(proc.params[2].ty, TypeExpr::Boolean(_)));
    assert_eq!(proc.var_decls.len(), 1);
    assert_eq!(proc.body.statements.len(), 3);
}

#[test]
fn parses_function_decl_with_return_type_and_self_assignment() {
    let src = r#"
        PROGRAM Foo;
        FUNCTION Square(x: INTEGER): INTEGER;
        BEGIN
            Square := x * x
        END;
        BEGIN
        END.
    "#;
    let (program, diags) = parse_source(src);
    assert!(diags.is_empty(), "unexpected diagnostics: {diags:?}");
    let program = program.expect("should parse a Program");

    assert_eq!(program.func_decls.len(), 1);
    let func = &program.func_decls[0];
    assert_eq!(func.name.name, "Square");
    assert_eq!(func.params.len(), 1);
    assert_eq!(func.params[0].name.name, "x");
    assert!(matches!(func.return_type, TypeExpr::Integer(_)));
    assert_eq!(func.body.statements.len(), 1);
    match &func.body.statements[0] {
        Statement::Assignment { target, value, .. } => {
            assert!(matches!(target, Expr::Identifier(id) if id.name == "Square"));
            assert!(matches!(
                value,
                Expr::BinaryOp {
                    op: BinOp::Mul,
                    ..
                }
            ));
        }
        other => panic!("expected an Assignment, got {other:?}"),
    }
}

#[test]
fn parses_function_call_expression() {
    let (program, diags) = parse_source(
        "PROGRAM Foo; VAR x: INTEGER; BEGIN x := Add(1, 2) END.",
    );
    assert!(diags.is_empty(), "unexpected diagnostics: {diags:?}");
    let program = program.expect("should parse a Program");

    match &program.body.statements[0] {
        Statement::Assignment { value, .. } => match value {
            Expr::FuncCall { name, args, .. } => {
                assert_eq!(name.name, "Add");
                assert_eq!(args.len(), 2);
            }
            other => panic!("expected a FuncCall, got {other:?}"),
        },
        other => panic!("expected an Assignment, got {other:?}"),
    }
}

#[test]
fn niladic_function_call_without_parens_parses_as_identifier() {
    let (program, diags) =
        parse_source("PROGRAM Foo; VAR x: INTEGER; BEGIN x := GetAnswer END.");
    assert!(diags.is_empty(), "unexpected diagnostics: {diags:?}");
    let program = program.expect("should parse a Program");

    match &program.body.statements[0] {
        Statement::Assignment { value, .. } => {
            assert!(matches!(value, Expr::Identifier(id) if id.name == "GetAnswer"));
        }
        other => panic!("expected an Assignment, got {other:?}"),
    }
}

#[test]
fn parses_recursive_function_call_in_body() {
    let src = r#"
        PROGRAM Foo;
        FUNCTION Fact(n: INTEGER): INTEGER;
        BEGIN
            IF n <= 1 THEN
                Fact := 1
            ELSE
                Fact := n * Fact(n - 1)
        END;
        BEGIN
        END.
    "#;
    let (program, diags) = parse_source(src);
    assert!(diags.is_empty(), "unexpected diagnostics: {diags:?}");
    let program = program.expect("should parse a Program");
    assert_eq!(program.func_decls.len(), 1);
}

// ------------------------------------------------------------------
// ------------------------------------------------------------------

fn parse_unit_source(source: &str) -> (Option<CompilationUnit>, Vec<Diagnostic>) {
    let (tokens, lex_diags) = Lexer::new(source).tokenize();
    assert!(
        lex_diags.is_empty(),
        "unexpected lexer diagnostics for {source:?}: {lex_diags:?}"
    );
    Parser::new(tokens).parse_compilation_unit()
}

#[test]
fn parse_compilation_unit_dispatches_to_program() {
    let (unit, diags) = parse_unit_source("PROGRAM Foo; BEGIN END.");
    assert!(diags.is_empty(), "unexpected diagnostics: {diags:?}");
    match unit {
        Some(CompilationUnit::Program(program)) => {
            assert_eq!(program.name.name, "Foo");
        }
        other => panic!("expected a Program, got {other:?}"),
    }
}

#[test]
fn parses_unit_with_interface_and_implementation() {
    let src = r#"
        UNIT Greetings;

        INTERFACE

        USES Crt;

        CONST Greeting = 'H';

        PROCEDURE Hello;
        FUNCTION Add(a, b: INTEGER): INTEGER;

        IMPLEMENTATION

        PROCEDURE Hello;
        BEGIN
        END;

        FUNCTION Add(a, b: INTEGER): INTEGER;
        BEGIN
            Add := a + b
        END;

        END.
    "#;
    let (unit, diags) = parse_unit_source(src);
    assert!(diags.is_empty(), "unexpected diagnostics: {diags:?}");
    let unit = match unit {
        Some(CompilationUnit::Unit(unit)) => unit,
        other => panic!("expected a Unit, got {other:?}"),
    };

    assert_eq!(unit.name.name, "Greetings");
    assert_eq!(unit.interface.uses.len(), 1);
    assert_eq!(unit.interface.uses[0].name, "Crt");
    assert_eq!(unit.interface.const_decls.len(), 1);
    assert_eq!(unit.interface.proc_signatures.len(), 1);
    assert_eq!(unit.interface.proc_signatures[0].name.name, "Hello");
    assert_eq!(unit.interface.func_signatures.len(), 1);
    assert_eq!(unit.interface.func_signatures[0].name.name, "Add");

    assert_eq!(unit.implementation.proc_decls.len(), 1);
    assert_eq!(unit.implementation.proc_decls[0].name.name, "Hello");
    assert_eq!(unit.implementation.func_decls.len(), 1);
    assert_eq!(unit.implementation.func_decls[0].name.name, "Add");
}

#[test]
fn parses_program_with_uses_clause() {
    let (program, diags) = parse_source("PROGRAM Foo; USES Crt, Sysutils; BEGIN END.");
    assert!(diags.is_empty(), "unexpected diagnostics: {diags:?}");
    let program = program.expect("should parse a Program");
    assert_eq!(program.uses.len(), 2);
    assert_eq!(program.uses[0].name, "Crt");
    assert_eq!(program.uses[1].name, "Sysutils");
}

#[test]
fn parses_case_statement_with_otherwise_clause() {
    let (program, diags) = parse_source(
        "PROGRAM Foo; VAR x, y: INTEGER; BEGIN CASE x OF 1: y := 1 OTHERWISE y := 2 END END.",
    );
    assert!(diags.is_empty(), "unexpected diagnostics: {diags:?}");
    let program = program.expect("should parse a Program");

    match &program.body.statements[0] {
        Statement::Case {
            branches,
            otherwise,
            ..
        } => {
            assert_eq!(branches.len(), 1);
            match otherwise.as_deref() {
                Some(Statement::Assignment { target, .. }) => {
                    assert!(matches!(target, Expr::Identifier(id) if id.name == "y"));
                }
                other => panic!("expected an OTHERWISE assignment, got {other:?}"),
            }
        }
        other => panic!("expected a Case statement, got {other:?}"),
    }
}

#[test]
fn case_statement_without_otherwise_has_none() {
    let (program, diags) = parse_source(
        "PROGRAM Foo; VAR x: INTEGER; BEGIN CASE x OF 1: x := 1 END END.",
    );
    assert!(diags.is_empty(), "unexpected diagnostics: {diags:?}");
    let program = program.expect("should parse a Program");

    match &program.body.statements[0] {
        Statement::Case { otherwise, .. } => assert!(otherwise.is_none()),
        other => panic!("expected a Case statement, got {other:?}"),
    }
}

#[test]
fn parses_hex_literal_expression() {
    let (program, diags) =
        parse_source("PROGRAM Foo; VAR x: INTEGER; BEGIN x := $FF END.");
    assert!(diags.is_empty(), "unexpected diagnostics: {diags:?}");
    let program = program.expect("should parse a Program");

    match &program.body.statements[0] {
        Statement::Assignment { value, .. } => {
            assert!(matches!(value, Expr::HexIntLiteral(0xFF, _)));
        }
        other => panic!("expected an Assignment, got {other:?}"),
    }
}

#[test]
fn parses_string_n_type() {
    let (program, diags) = parse_source("PROGRAM Foo; VAR s: STRING[10]; BEGIN END.");
    assert!(diags.is_empty(), "unexpected diagnostics: {diags:?}");
    let program = program.expect("should parse a Program");

    assert_eq!(program.var_decls.len(), 1);
    assert!(matches!(program.var_decls[0].ty, TypeExpr::StringN(10, _)));
}

#[test]
fn parses_compiler_directive_statement() {
    let (program, diags) =
        parse_source("PROGRAM Foo; BEGIN (*$I foo.pas*) END.");
    assert!(diags.is_empty(), "unexpected diagnostics: {diags:?}");
    let program = program.expect("should parse a Program");

    assert_eq!(program.body.statements.len(), 1);
    match &program.body.statements[0] {
        Statement::CompilerDirective { name, args, .. } => {
            assert_eq!(name, "I");
            assert_eq!(args, "foo.pas");
        }
        other => panic!("expected a CompilerDirective statement, got {other:?}"),
    }
}

// ------------------------------------------------------------------
// ------------------------------------------------------------------

#[test]
fn parses_array_type() {
    let (program, diags) =
        parse_source("PROGRAM Foo; VAR a: ARRAY [1..10] OF INTEGER; BEGIN END.");
    assert!(diags.is_empty(), "unexpected diagnostics: {diags:?}");
    let program = program.expect("should parse a Program");

    match &program.var_decls[0].ty {
        TypeExpr::Array {
            index_type,
            element_type,
            packed,
            ..
        } => {
            assert!(!packed);
            assert!(matches!(
                index_type.as_ref(),
                TypeExpr::Subrange {
                    low: Literal::Int(1, _),
                    high: Literal::Int(10, _),
                    ..
                }
            ));
            assert!(matches!(element_type.as_ref(), TypeExpr::Integer(_)));
        }
        other => panic!("expected an Array type, got {other:?}"),
    }
}

#[test]
fn parses_packed_array_type() {
    let (program, diags) =
        parse_source("PROGRAM Foo; VAR a: PACKED ARRAY [0..255] OF CHAR; BEGIN END.");
    assert!(diags.is_empty(), "unexpected diagnostics: {diags:?}");
    let program = program.expect("should parse a Program");

    match &program.var_decls[0].ty {
        TypeExpr::Array { packed, .. } => assert!(*packed),
        other => panic!("expected an Array type, got {other:?}"),
    }
}

#[test]
fn multi_dimensional_array_desugars_to_nested_array() {
    let (program, diags) =
        parse_source("PROGRAM Foo; VAR a: ARRAY [1..10, 1..20] OF INTEGER; BEGIN END.");
    assert!(diags.is_empty(), "unexpected diagnostics: {diags:?}");
    let program = program.expect("should parse a Program");

    match &program.var_decls[0].ty {
        TypeExpr::Array {
            index_type,
            element_type,
            ..
        } => {
            assert!(matches!(
                index_type.as_ref(),
                TypeExpr::Subrange {
                    low: Literal::Int(1, _),
                    high: Literal::Int(10, _),
                    ..
                }
            ));
            match element_type.as_ref() {
                TypeExpr::Array {
                    index_type,
                    element_type,
                    ..
                } => {
                    assert!(matches!(
                        index_type.as_ref(),
                        TypeExpr::Subrange {
                            low: Literal::Int(1, _),
                            high: Literal::Int(20, _),
                            ..
                        }
                    ));
                    assert!(matches!(element_type.as_ref(), TypeExpr::Integer(_)));
                }
                other => panic!("expected a nested Array type, got {other:?}"),
            }
        }
        other => panic!("expected an Array type, got {other:?}"),
    }
}

#[test]
fn parses_index_access_expression_and_multi_index() {
    let (program, diags) = parse_source(
        "PROGRAM Foo; VAR a: ARRAY [1..10, 1..10] OF INTEGER; x: INTEGER; BEGIN x := a[1, 2] END.",
    );
    assert!(diags.is_empty(), "unexpected diagnostics: {diags:?}");
    let program = program.expect("should parse a Program");

    match &program.body.statements[0] {
        Statement::Assignment { value, .. } => match value {
            Expr::IndexAccess { array, index, .. } => {
                assert!(matches!(index.as_ref(), Expr::IntLiteral(2, _)));
                match array.as_ref() {
                    Expr::IndexAccess { array, index, .. } => {
                        assert!(matches!(index.as_ref(), Expr::IntLiteral(1, _)));
                        assert!(matches!(array.as_ref(), Expr::Identifier(id) if id.name == "a"));
                    }
                    other => panic!("expected a nested IndexAccess, got {other:?}"),
                }
            }
            other => panic!("expected an IndexAccess, got {other:?}"),
        },
        other => panic!("expected an Assignment, got {other:?}"),
    }
}

#[test]
fn parses_assignment_to_array_element() {
    let (program, diags) =
        parse_source("PROGRAM Foo; VAR a: ARRAY [1..10] OF INTEGER; BEGIN a[1] := 42 END.");
    assert!(diags.is_empty(), "unexpected diagnostics: {diags:?}");
    let program = program.expect("should parse a Program");

    match &program.body.statements[0] {
        Statement::Assignment { target, value, .. } => {
            assert!(matches!(target, Expr::IndexAccess { .. }));
            assert!(matches!(value, Expr::IntLiteral(42, _)));
        }
        other => panic!("expected an Assignment, got {other:?}"),
    }
}

#[test]
fn parses_record_type_and_field_access() {
    let src = r#"
        PROGRAM Foo;
        TYPE
            Point = RECORD x, y: INTEGER END;
        VAR
            p: Point;
            n: INTEGER;
        BEGIN
            p.x := 1;
            n := p.y
        END.
    "#;
    let (program, diags) = parse_source(src);
    assert!(diags.is_empty(), "unexpected diagnostics: {diags:?}");
    let program = program.expect("should parse a Program");

    assert_eq!(program.type_decls.len(), 1);
    assert_eq!(program.type_decls[0].name.name, "Point");
    match &program.type_decls[0].ty {
        TypeExpr::Record { fields, packed, .. } => {
            assert!(!packed);
            assert_eq!(fields.len(), 1);
            assert_eq!(fields[0].names.len(), 2);
        }
        other => panic!("expected a Record type, got {other:?}"),
    }

    match &program.body.statements[0] {
        Statement::Assignment { target, .. } => match target {
            Expr::FieldAccess { record, field, .. } => {
                assert_eq!(field.name, "x");
                assert!(matches!(record.as_ref(), Expr::Identifier(id) if id.name == "p"));
            }
            other => panic!("expected a FieldAccess, got {other:?}"),
        },
        other => panic!("expected an Assignment, got {other:?}"),
    }
}

#[test]
fn parses_pointer_type_with_forward_reference() {
    let src = r#"
        PROGRAM Foo;
        TYPE
            PNode = ^Node;
            Node = RECORD
                value: INTEGER;
                next: PNode
            END;
        VAR
            head: PNode;
        BEGIN
            head := NIL
        END.
    "#;
    let (program, diags) = parse_source(src);
    assert!(diags.is_empty(), "unexpected diagnostics: {diags:?}");
    let program = program.expect("should parse a Program");

    assert_eq!(program.type_decls.len(), 2);
    match &program.type_decls[0].ty {
        TypeExpr::Pointer(inner, _) => {
            assert!(matches!(inner.as_ref(), TypeExpr::Named(id) if id.name == "Node"));
        }
        other => panic!("expected a Pointer type, got {other:?}"),
    }

    match &program.body.statements[0] {
        Statement::Assignment { value, .. } => {
            assert!(matches!(value, Expr::NilLiteral(_)));
        }
        other => panic!("expected an Assignment, got {other:?}"),
    }
}

#[test]
fn parses_deref_and_deref_field_access() {
    let src = r#"
        PROGRAM Foo;
        TYPE
            Node = RECORD value: INTEGER END;
            PNode = ^Node;
        VAR
            p: PNode;
            n: INTEGER;
        BEGIN
            p^.value := 1;
            n := p^.value
        END.
    "#;
    let (program, diags) = parse_source(src);
    assert!(diags.is_empty(), "unexpected diagnostics: {diags:?}");
    let program = program.expect("should parse a Program");

    match &program.body.statements[0] {
        Statement::Assignment { target, .. } => match target {
            Expr::FieldAccess { record, field, .. } => {
                assert_eq!(field.name, "value");
                assert!(matches!(record.as_ref(), Expr::Deref { .. }));
            }
            other => panic!("expected a FieldAccess over a Deref, got {other:?}"),
        },
        other => panic!("expected an Assignment, got {other:?}"),
    }
}


#[test]
fn reserved_words_are_described_in_upper_case_however_spelled() {
    for word in ["Begin", "downto", "IMPLEMENTATION", "oThErWiSe"] {
        let chars: Vec<char> = word.chars().collect();
        let kind = wasd::lexer::token::lookup_keyword(&chars).expect("a reserved word");
        assert_eq!(wasd::parser::describe::describe(&kind), format!("'{}'", word.to_ascii_uppercase()));
    }
}
