use wasd::ast::{
    BinOp, Block, ConstDecl, Expr, Identifier, Literal, Program, Span, Statement, TypeExpr, UnOp, VarDecl,
};

fn ident(name: &str, s: Span) -> Identifier {
    Identifier::new(name.to_string(), s)
}

#[test]
fn builds_minimal_program() {
    let program_span = Span::new(0, 21);
    let name_span = Span::new(8, 11);
    let body_span = Span::new(13, 21);

    let program = Program {
        name: ident("Foo", name_span),
        uses: vec![],
        const_decls: vec![],
        type_decls: vec![],
        var_decls: vec![],
        proc_decls: vec![],
        func_decls: vec![],
        body: Block { statements: vec![], span: body_span },
        span: program_span,
    };

    assert_eq!(program.name.name, "Foo");
    assert_eq!(program.name.span, name_span);
    assert!(program.const_decls.is_empty());
    assert!(program.var_decls.is_empty());
    assert!(program.body.statements.is_empty());
    assert_eq!(program.span, program_span);
}

#[test]
fn builds_program_with_var_and_const_decls() {
    let s = Span::new(0, 1);

    let var_decl = VarDecl { names: vec![ident("x", s), ident("y", s)], ty: TypeExpr::Integer(s), span: s };
    let const_decl = ConstDecl { name: ident("MaxScore", s), value: Literal::Real("3.5".to_string(), s), span: s };

    let program = Program {
        name: ident("Foo", s),
        uses: vec![],
        const_decls: vec![const_decl.clone()],
        type_decls: vec![],
        var_decls: vec![var_decl.clone()],
        proc_decls: vec![],
        func_decls: vec![],
        body: Block { statements: vec![], span: s },
        span: s,
    };

    assert_eq!(program.var_decls[0].names.len(), 2);
    assert_eq!(program.var_decls[0].ty, TypeExpr::Integer(s));
    assert_eq!(program.const_decls[0].value, Literal::Real("3.5".to_string(), s));
    assert_eq!(var_decl.ty.span(), s);
    assert_eq!(const_decl.value.span(), s);
}

#[test]
fn nodes_carry_spans() {
    let decl_span = Span::new(5, 20);
    let var_decl = VarDecl {
        names: vec![Identifier::new("x".to_string(), Span::new(5, 6))],
        ty: TypeExpr::Boolean(Span::new(8, 15)),
        span: decl_span,
    };
    assert_eq!(var_decl.span, decl_span);
    assert_eq!(var_decl.names[0].span, Span::new(5, 6));
    assert_eq!(var_decl.ty.span(), Span::new(8, 15));

    let stmt = Statement::ProcCall {
        name: Identifier::new("WriteLn".to_string(), Span::new(0, 7)),
        args: vec![Expr::Identifier(Identifier::new("x".to_string(), Span::new(8, 9)))],
        span: Span::new(0, 10),
    };
    assert_eq!(stmt.span(), Span::new(0, 10));
}

#[test]
fn every_expr_variant_reports_its_span() {
    let s = Span::new(0, 1);
    assert_eq!(Expr::IntLiteral(1, s).span(), s);
    assert_eq!(Expr::RealLiteral("1.0".to_string(), s).span(), s);
    assert_eq!(Expr::StringLiteral("a".into(), s).span(), s);
    assert_eq!(Expr::BoolLiteral(true, s).span(), s);
    assert_eq!(Expr::Identifier(Identifier::new("x".to_string(), s)).span(), s);
    assert_eq!(Expr::Paren(Box::new(Expr::IntLiteral(1, s)), s).span(), s);

    let bin = Expr::BinaryOp {
        op: BinOp::Add,
        lhs: Box::new(Expr::IntLiteral(1, s)),
        rhs: Box::new(Expr::IntLiteral(2, s)),
        span: s,
    };
    assert_eq!(bin.span(), s);

    let un = Expr::UnaryOp { op: UnOp::Neg, operand: Box::new(Expr::IntLiteral(1, s)), span: s };
    assert_eq!(un.span(), s);
}

#[test]
fn literal_converts_into_matching_expr_variant() {
    let s = Span::new(0, 1);
    assert_eq!(Expr::from_literal(Literal::Int(42, s)), Expr::IntLiteral(42, s));
    assert_eq!(Expr::from_literal(Literal::Str("hi".into(), s)), Expr::StringLiteral("hi".into(), s));
}

fn assign_x(s: Span) -> Statement {
    Statement::Assignment { target: Expr::Identifier(ident("x", s)), value: Expr::IntLiteral(1, s), span: s }
}

fn while_running(s: Span) -> Statement {
    Statement::While { cond: Expr::Identifier(ident("running", s)), body: Box::new(assign_x(s)), span: s }
}

#[test]
fn builds_nested_if_and_while_statement_tree() {
    let s = Span::new(0, 1);

    let inner_assign = assign_x(s);
    let while_stmt = while_running(s);

    let if_stmt = Statement::If {
        cond: Expr::Identifier(ident("cond", s)),
        then_branch: Box::new(while_running(s)),
        else_branch: Some(Box::new(assign_x(s))),
        span: s,
    };

    match &if_stmt {
        Statement::If { then_branch, else_branch, .. } => {
            assert_eq!(**then_branch, while_stmt);
            assert_eq!(else_branch.as_deref(), Some(&inner_assign));
        },
        _ => panic!("expected Statement::If"),
    }
    assert_eq!(if_stmt.span(), s);
}

#[test]
fn compound_span_comes_from_block() {
    let block_span = Span::new(0, 10);
    let block = Block { statements: vec![], span: block_span };
    assert_eq!(Statement::Compound(block).span(), block_span);
}
