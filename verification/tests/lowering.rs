use yinglong::ir::{Circuit, Dir, Expr, Lit, Module, Port, PosInfo, Primop, RawStmt, Stmt, StmtGroup, Type, TypeBind, When};
use yinglong::lower::{lower_bind, lower_expr, lower_stmt, Construct, GenVerilog, LowerError};

fn uport(name: &str, dir: Dir, w: Option<u64>) -> Port {
    Port { pos: None, dir, bind: TypeBind(name.to_string(), Type::Uint(w)) }
}

fn stmt(raw: RawStmt) -> Stmt {
    Stmt { raw_stmt: raw, pos: None }
}

fn add_circuit() -> Circuit {
    let body = StmtGroup(vec![stmt(RawStmt::Node(
        "c".to_string(),
        Expr::Primop(
            Primop::Add,
            vec![Expr::Ref("a".to_string()), Expr::Ref("b".to_string())],
        ),
    ))]);
    Circuit {
        pos: None,
        id: "Top".to_string(),
        modules: vec![Module {
            pos: None,
            id: "add".to_string(),
            ports: vec![
                uport("a", Dir::Input, Some(32)),
                uport("b", Dir::Input, Some(32)),
                uport("c", Dir::Output, Some(32)),
            ],
            stmts: body,
        }],
    }
}

#[test]
fn end_to_end_add_module() {
    let c = add_circuit();
    let out = c.gen_verilog(&GenVerilog()).unwrap();
    assert_eq!(
        out,
        "module add(\n\tinput [31:0]\ta,\n\tinput [31:0]\tb,\n\toutput [31:0]\tc\n);\n\tassign c = a + b;\nendmodule"
    );
}

#[test]
fn lowering_is_deterministic() {
    let c = add_circuit();
    let first = c.gen_verilog(&GenVerilog()).unwrap();
    let second = c.gen_verilog(&GenVerilog()).unwrap();
    assert_eq!(first, second);
}

#[test]
fn bracket_convention_is_width_minus_one() {
    let b = TypeBind("x".to_string(), Type::Uint(Some(32)));
    assert_eq!(lower_bind(&b).unwrap(), "[31:0]\tx");
    let b2 = TypeBind("y".to_string(), Type::Uint(Some(2)));
    assert_eq!(lower_bind(&b2).unwrap(), "[1:0]\ty");
}

#[test]
fn narrow_and_degenerate_binds() {
    let one = TypeBind("x".to_string(), Type::Uint(Some(1)));
    assert_eq!(lower_bind(&one).unwrap(), "x");
    let zero = TypeBind("z".to_string(), Type::Uint(Some(0)));
    assert_eq!(lower_bind(&zero).unwrap(), "");
    let clock = TypeBind("clk".to_string(), Type::Clock);
    assert_eq!(lower_bind(&clock).unwrap(), "clk");
}

#[test]
fn unresolved_bind_is_fatal_precondition() {
    let b = TypeBind("x".to_string(), Type::Uint(None));
    assert_eq!(lower_bind(&b), Err(LowerError::FatalPrecondition));
}

#[test]
fn reg_def_is_unsupported() {
    let s = stmt(RawStmt::RegDef(
        TypeBind("r".to_string(), Type::Uint(Some(8))),
        Expr::Ref("a".to_string()),
        None,
    ));
    assert_eq!(
        lower_stmt(&s),
        Err(LowerError::Unsupported(Construct::RegDef))
    );
}

#[test]
fn mem_def_is_unsupported() {
    let s = stmt(RawStmt::MemDef(TypeBind("m".to_string(), Type::Uint(Some(8)))));
    assert_eq!(
        lower_stmt(&s),
        Err(LowerError::Unsupported(Construct::MemDef))
    );
}

#[test]
fn sub_field_is_unsupported() {
    let e = Expr::SubField(Box::new(Expr::Ref("a".to_string())), "f".to_string());
    assert_eq!(
        lower_expr(&e),
        Err(LowerError::Unsupported(Construct::SubField))
    );
    let i = Expr::SubIndex(Box::new(Expr::Ref("a".to_string())), 3);
    assert_eq!(
        lower_expr(&i),
        Err(LowerError::Unsupported(Construct::SubIndex))
    );
}

#[test]
fn last_connect_wins() {
    let body = StmtGroup(vec![
        stmt(RawStmt::Connect("c".to_string(), Expr::Ref("a".to_string()))),
        stmt(RawStmt::Connect("c".to_string(), Expr::Ref("b".to_string()))),
    ]);
    let c = Circuit {
        pos: None,
        id: "Top".to_string(),
        modules: vec![Module {
            pos: None,
            id: "pick".to_string(),
            ports: vec![
                uport("a", Dir::Input, Some(4)),
                uport("b", Dir::Input, Some(4)),
                uport("c", Dir::Output, Some(4)),
            ],
            stmts: body,
        }],
    };
    let out = c.gen_verilog(&GenVerilog()).unwrap();
    assert!(out.contains("\tassign c = b;\n"));
    assert!(!out.contains("assign c = a;"));
}

#[test]
fn literal_and_operator_rendering() {
    let lit = Expr::Literal(Lit { ty: Type::Uint(Some(8)), value: 255 });
    assert_eq!(lower_expr(&lit).unwrap(), "8'd255");
    let slit = Expr::Literal(Lit { ty: Type::Sint(Some(4)), value: 3 });
    assert_eq!(lower_expr(&slit).unwrap(), "4'sd3");
    let cat = Expr::Primop(
        Primop::Cat,
        vec![Expr::Ref("a".to_string()), Expr::Ref("b".to_string())],
    );
    assert_eq!(lower_expr(&cat).unwrap(), "{a, b}");
    let not = Expr::Primop(Primop::Not, vec![Expr::Ref("a".to_string())]);
    assert_eq!(lower_expr(&not).unwrap(), "~a");
    let orr = Expr::Primop(Primop::Orr, vec![Expr::Ref("a".to_string())]);
    assert_eq!(lower_expr(&orr).unwrap(), "|a");
    let mux = Expr::Mux(
        Box::new(Expr::Ref("s".to_string())),
        Box::new(Expr::Ref("a".to_string())),
        Box::new(Expr::Ref("b".to_string())),
    );
    assert_eq!(lower_expr(&mux).unwrap(), "(s) ? a : b");
    let bits = Expr::Primop(
        Primop::Bits,
        vec![
            Expr::Ref("a".to_string()),
            Expr::Literal(Lit { ty: Type::Uint(Some(4)), value: 7 }),
            Expr::Literal(Lit { ty: Type::Uint(Some(4)), value: 0 }),
        ],
    );
    assert_eq!(lower_expr(&bits).unwrap(), "a[7:0]");
    let shl = Expr::Primop(
        Primop::Shl,
        vec![
            Expr::Ref("a".to_string()),
            Expr::Literal(Lit { ty: Type::Uint(Some(4)), value: 2 }),
        ],
    );
    assert_eq!(lower_expr(&shl).unwrap(), "a << 4'd2");
}

#[test]
fn wrong_arity_is_fatal_precondition() {
    let bad = Expr::Primop(Primop::Add, vec![Expr::Ref("a".to_string())]);
    assert_eq!(lower_expr(&bad), Err(LowerError::FatalPrecondition));
}

#[test]
fn head_and_tail_are_unsupported() {
    let h = Expr::Primop(
        Primop::Head,
        vec![
            Expr::Ref("a".to_string()),
            Expr::Literal(Lit { ty: Type::Uint(Some(4)), value: 2 }),
        ],
    );
    assert_eq!(lower_expr(&h), Err(LowerError::Unsupported(Construct::Head)));
    let t = Expr::Primop(
        Primop::Tail,
        vec![
            Expr::Ref("a".to_string()),
            Expr::Literal(Lit { ty: Type::Uint(Some(4)), value: 2 }),
        ],
    );
    assert_eq!(lower_expr(&t), Err(LowerError::Unsupported(Construct::Tail)));
}

#[test]
fn position_info_is_carried_through() {
    let s = Stmt {
        raw_stmt: RawStmt::Node("n".to_string(), Expr::Ref("a".to_string())),
        pos: Some(PosInfo { file: "f.fir".to_string(), line: 3, col: 7 }),
    };
    assert_eq!(lower_stmt(&s).unwrap(), "\tassign n = a;\t@[\"f.fir\":3:7]\n");
}

#[test]
fn when_lowers_condition_and_branches() {
    let w = When {
        cond: Expr::Ref("s".to_string()),
        then_body: StmtGroup(vec![stmt(RawStmt::Connect(
            "c".to_string(),
            Expr::Ref("a".to_string()),
        ))]),
        else_body: Some(StmtGroup(vec![stmt(RawStmt::Connect(
            "c".to_string(),
            Expr::Ref("b".to_string()),
        ))])),
    };
    let s = stmt(RawStmt::When(Box::new(w)));
    assert_eq!(
        lower_stmt(&s).unwrap(),
        "\tif (s)\n\tassign c = a;\n\telse\n\tassign c = b;\n\tend\n"
    );
}

#[test]
fn two_modules_are_separated_by_blank_line() {
    let mk = |name: &str| Module {
        pos: None,
        id: name.to_string(),
        ports: vec![uport("a", Dir::Input, Some(1))],
        stmts: StmtGroup(vec![]),
    };
    let c = Circuit {
        pos: None,
        id: "Top".to_string(),
        modules: vec![mk("m1"), mk("m2")],
    };
    let out = c.gen_verilog(&GenVerilog()).unwrap();
    assert_eq!(
        out,
        "module m1(\n\tinput a\n);\nendmodule\n\nmodule m2(\n\tinput a\n);\nendmodule"
    );
}

#[test]
fn zero_and_max_literals_render_in_decimal() {
    let zero = Expr::Literal(Lit { ty: Type::Uint(Some(1)), value: 0 });
    assert_eq!(lower_expr(&zero).unwrap(), "1'd0");
    let max = Expr::Literal(Lit { ty: Type::Uint(Some(64)), value: u64::MAX });
    assert_eq!(lower_expr(&max).unwrap(), "64'd18446744073709551615");
}

#[test]
fn checked_circuit_lowers_to_full_module_text() {
    let inner_then = StmtGroup(vec![stmt(RawStmt::Connect(
        "w".to_string(),
        Expr::Ref("a".to_string()),
    ))]);
    let inner_else = StmtGroup(vec![stmt(RawStmt::Connect(
        "w".to_string(),
        Expr::Literal(Lit { ty: Type::Uint(Some(8)), value: 0 }),
    ))]);
    let body = StmtGroup(vec![
        stmt(RawStmt::WireDef(TypeBind("w".to_string(), Type::Uint(Some(8))))),
        stmt(RawStmt::When(Box::new(When {
            cond: Expr::Ref("s".to_string()),
            then_body: inner_then,
            else_body: Some(inner_else),
        }))),
        stmt(RawStmt::Connect("c".to_string(), Expr::Ref("w".to_string()))),
    ]);
    let c = Circuit {
        pos: None,
        id: "Top".to_string(),
        modules: vec![Module {
            pos: None,
            id: "m".to_string(),
            ports: vec![
                uport("a", Dir::Input, Some(8)),
                uport("s", Dir::Input, Some(1)),
                uport("c", Dir::Output, Some(8)),
            ],
            stmts: body,
        }],
    };
    let (_, diags) = yinglong::infer::infer(&c);
    assert!(diags.is_empty(), "unexpected diagnostics: {:?}", diags);
    let out = c.gen_verilog(&GenVerilog()).unwrap();
    assert_eq!(
        out,
        "module m(\n\tinput [7:0]\ta,\n\tinput s,\n\toutput [7:0]\tc\n);\n\
         \twire [7:0]\tw;\n\
         \tif (s)\n\tassign w = a;\n\telse\n\tassign w = 8'd0;\n\tend\n\
         \tassign c = w;\n\
         endmodule"
    );
}
