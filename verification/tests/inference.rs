use yinglong::infer::{infer, lookup, DeclarationError, Diagnostic, TypeError};
use yinglong::ir::{Circuit, Dir, Expr, Lit, Module, Port, Primop, RawStmt, Stmt, StmtGroup, Type, TypeBind};
use yinglong::lower::{lower_expr, Construct, LowerError};

fn uport(name: &str, dir: Dir, w: Option<u64>) -> Port {
    Port { pos: None, dir, bind: TypeBind(name.to_string(), Type::Uint(w)) }
}

fn stmt(raw: RawStmt) -> Stmt {
    Stmt { raw_stmt: raw, pos: None }
}

fn one_module(ports: Vec<Port>, body: Vec<Stmt>) -> Circuit {
    Circuit {
        pos: None,
        id: "Top".to_string(),
        modules: vec![Module {
            pos: None,
            id: "m".to_string(),
            ports,
            stmts: StmtGroup(body),
        }],
    }
}

fn env_type(c: &Circuit, name: &str) -> Option<Type> {
    let (env, _) = infer(c);
    lookup(&env.modules[0].binds, &name.to_string())
}

#[test]
fn add_of_two_32_bit_operands_infers_33_bits() {
    let c = one_module(
        vec![
            uport("a", Dir::Input, Some(32)),
            uport("b", Dir::Input, Some(32)),
            uport("c", Dir::Output, None),
        ],
        vec![stmt(RawStmt::Node(
            "c".to_string(),
            Expr::Primop(
                Primop::Add,
                vec![Expr::Ref("a".to_string()), Expr::Ref("b".to_string())],
            ),
        ))],
    );
    let (env, diags) = infer(&c);
    assert!(diags.is_empty(), "unexpected diagnostics: {:?}", diags);
    assert_eq!(
        lookup(&env.modules[0].binds, &"c".to_string()),
        Some(Type::Uint(Some(33)))
    );
}

#[test]
fn explicit_output_width_needs_no_inference() {
    let c = one_module(
        vec![
            uport("a", Dir::Input, Some(32)),
            uport("b", Dir::Input, Some(32)),
            uport("c", Dir::Output, Some(32)),
        ],
        vec![stmt(RawStmt::Node(
            "c".to_string(),
            Expr::Primop(
                Primop::Add,
                vec![Expr::Ref("a".to_string()), Expr::Ref("b".to_string())],
            ),
        ))],
    );
    let (env, diags) = infer(&c);
    assert!(diags.is_empty(), "unexpected diagnostics: {:?}", diags);
    assert_eq!(
        lookup(&env.modules[0].binds, &"c".to_string()),
        Some(Type::Uint(Some(32)))
    );
}

#[test]
fn all_undeclared_references_are_reported() {
    let c = one_module(
        vec![uport("w", Dir::Output, Some(4))],
        vec![
            stmt(RawStmt::Connect("w".to_string(), Expr::Ref("u1".to_string()))),
            stmt(RawStmt::Connect("w".to_string(), Expr::Ref("u2".to_string()))),
            stmt(RawStmt::Connect("w".to_string(), Expr::Ref("u3".to_string()))),
        ],
    );
    let (_, diags) = infer(&c);
    assert_eq!(diags.len(), 3);
    for (d, want) in diags.iter().zip(["u1", "u2", "u3"]) {
        assert_eq!(
            *d,
            Diagnostic::Decl(DeclarationError::Undeclared(want.to_string()))
        );
    }
}

#[test]
fn duplicate_declaration_is_reported() {
    let c = one_module(
        vec![uport("a", Dir::Input, Some(4))],
        vec![
            stmt(RawStmt::WireDef(TypeBind("x".to_string(), Type::Uint(Some(4))))),
            stmt(RawStmt::WireDef(TypeBind("x".to_string(), Type::Uint(Some(8))))),
        ],
    );
    let (_, diags) = infer(&c);
    assert_eq!(
        diags,
        vec![Diagnostic::Decl(DeclarationError::Duplicate("x".to_string()))]
    );
}

#[test]
fn register_width_mismatch_is_reported() {
    let c = one_module(
        vec![uport("a", Dir::Input, Some(16))],
        vec![stmt(RawStmt::RegDef(
            TypeBind("r".to_string(), Type::Uint(Some(8))),
            Expr::Ref("a".to_string()),
            None,
        ))],
    );
    let (_, diags) = infer(&c);
    assert_eq!(
        diags,
        vec![Diagnostic::Ty(TypeError::WidthMismatch("r".to_string(), 8, 16))]
    );
}

#[test]
fn undriven_unknown_width_is_reported() {
    let c = one_module(
        vec![uport("a", Dir::Input, Some(4))],
        vec![stmt(RawStmt::WireDef(TypeBind("w".to_string(), Type::Uint(None))))],
    );
    let (_, diags) = infer(&c);
    assert_eq!(
        diags,
        vec![Diagnostic::Ty(TypeError::UnresolvedWidth("w".to_string()))]
    );
}

#[test]
fn undeclared_connect_destination_is_reported() {
    let c = one_module(
        vec![uport("a", Dir::Input, Some(4))],
        vec![stmt(RawStmt::Connect("nope".to_string(), Expr::Ref("a".to_string())))],
    );
    let (_, diags) = infer(&c);
    assert_eq!(
        diags,
        vec![Diagnostic::Decl(DeclarationError::Undeclared("nope".to_string()))]
    );
}

#[test]
fn width_algebra_exact_values() {
    let ops = |op: Primop| {
        one_module(
            vec![
                uport("a", Dir::Input, Some(8)),
                uport("b", Dir::Input, Some(16)),
            ],
            vec![stmt(RawStmt::Node(
                "n".to_string(),
                Expr::Primop(op, vec![Expr::Ref("a".to_string()), Expr::Ref("b".to_string())]),
            ))],
        )
    };
    assert_eq!(env_type(&ops(Primop::Add), "n"), Some(Type::Uint(Some(17))));
    assert_eq!(env_type(&ops(Primop::Sub), "n"), Some(Type::Uint(Some(17))));
    assert_eq!(env_type(&ops(Primop::Mul), "n"), Some(Type::Uint(Some(24))));
    assert_eq!(env_type(&ops(Primop::Div), "n"), Some(Type::Uint(Some(8))));
    assert_eq!(env_type(&ops(Primop::Mod), "n"), Some(Type::Uint(Some(8))));
    assert_eq!(env_type(&ops(Primop::Lt), "n"), Some(Type::Uint(Some(1))));
    assert_eq!(env_type(&ops(Primop::Eq), "n"), Some(Type::Uint(Some(1))));
    assert_eq!(env_type(&ops(Primop::And), "n"), Some(Type::Uint(Some(16))));
    assert_eq!(env_type(&ops(Primop::Cat), "n"), Some(Type::Uint(Some(24))));
}

#[test]
fn unary_and_static_parameter_widths() {
    let un = |op: Primop, extra: Vec<Expr>| {
        let mut args = vec![Expr::Ref("a".to_string())];
        args.extend(extra);
        one_module(
            vec![uport("a", Dir::Input, Some(8))],
            vec![stmt(RawStmt::Node("n".to_string(), Expr::Primop(op, args)))],
        )
    };
    let lit = |v: u64| Expr::Literal(Lit { ty: Type::Uint(Some(4)), value: v });
    assert_eq!(env_type(&un(Primop::Not, vec![]), "n"), Some(Type::Uint(Some(8))));
    assert_eq!(env_type(&un(Primop::Neg, vec![]), "n"), Some(Type::Sint(Some(9))));
    assert_eq!(env_type(&un(Primop::Andr, vec![]), "n"), Some(Type::Uint(Some(1))));
    assert_eq!(env_type(&un(Primop::AsSInt, vec![]), "n"), Some(Type::Sint(Some(8))));
    assert_eq!(env_type(&un(Primop::Shl, vec![lit(4)]), "n"), Some(Type::Uint(Some(12))));
    assert_eq!(env_type(&un(Primop::Shr, vec![lit(4)]), "n"), Some(Type::Uint(Some(4))));
    assert_eq!(env_type(&un(Primop::Shr, vec![lit(12)]), "n"), Some(Type::Uint(Some(1))));
    assert_eq!(env_type(&un(Primop::Pad, vec![lit(12)]), "n"), Some(Type::Uint(Some(12))));
    assert_eq!(env_type(&un(Primop::Pad, vec![lit(4)]), "n"), Some(Type::Uint(Some(8))));
    assert_eq!(
        env_type(&un(Primop::Bits, vec![lit(7), lit(1)]), "n"),
        Some(Type::Uint(Some(7)))
    );
}

#[test]
fn declarations_inside_when_join_the_flat_namespace() {
    let inner = StmtGroup(vec![stmt(RawStmt::Node(
        "n".to_string(),
        Expr::Ref("a".to_string()),
    ))]);
    let w = yinglong::ir::When {
        cond: Expr::Ref("s".to_string()),
        then_body: inner,
        else_body: None,
    };
    let c = one_module(
        vec![
            uport("a", Dir::Input, Some(4)),
            uport("s", Dir::Input, Some(1)),
        ],
        vec![
            stmt(RawStmt::When(Box::new(w))),
            stmt(RawStmt::Connect("n".to_string(), Expr::Ref("a".to_string()))),
        ],
    );
    let (env, diags) = infer(&c);
    assert!(diags.is_empty(), "unexpected diagnostics: {:?}", diags);
    assert_eq!(
        lookup(&env.modules[0].binds, &"n".to_string()),
        Some(Type::Uint(Some(4)))
    );
}

#[test]
fn forward_reference_is_undeclared() {
    let c = one_module(
        vec![uport("a", Dir::Input, Some(4))],
        vec![
            stmt(RawStmt::Node("x".to_string(), Expr::Ref("y".to_string()))),
            stmt(RawStmt::Node("y".to_string(), Expr::Ref("a".to_string()))),
        ],
    );
    let (_, diags) = infer(&c);
    assert!(diags.contains(&Diagnostic::Decl(DeclarationError::Undeclared("y".to_string()))));
}

#[test]
fn environment_is_scoped_per_module() {
    let mk = |name: &str, w: u64| Module {
        pos: None,
        id: name.to_string(),
        ports: vec![uport("p", Dir::Input, Some(w))],
        stmts: StmtGroup(vec![]),
    };
    let c = Circuit {
        pos: None,
        id: "Top".to_string(),
        modules: vec![mk("m1", 4), mk("m2", 8)],
    };
    let (env, diags) = infer(&c);
    assert!(diags.is_empty());
    assert_eq!(env.modules.len(), 2);
    assert_eq!(env.modules[0].id, "m1");
    assert_eq!(env.modules[1].id, "m2");
    assert_eq!(
        lookup(&env.modules[0].binds, &"p".to_string()),
        Some(Type::Uint(Some(4)))
    );
    assert_eq!(
        lookup(&env.modules[1].binds, &"p".to_string()),
        Some(Type::Uint(Some(8)))
    );
}

#[test]
fn every_supported_operator_also_lowers() {
    fn args_for(op: Primop) -> Vec<Expr> {
        let a = Expr::Ref("a".to_string());
        let b = Expr::Ref("b".to_string());
        let lit = |v: u64| Expr::Literal(Lit { ty: Type::Uint(Some(4)), value: v });
        match op {
            Primop::AsUInt
            | Primop::AsSInt
            | Primop::AsClock
            | Primop::Cvt
            | Primop::Neg
            | Primop::Not
            | Primop::Andr
            | Primop::Orr
            | Primop::Xorr => vec![a],
            Primop::Pad => vec![a, lit(12)],
            Primop::Shl | Primop::Shr | Primop::Head | Primop::Tail => vec![a, lit(2)],
            Primop::Bits => vec![a, lit(3), lit(1)],
            _ => vec![a, b],
        }
    }
    let all = vec![
        Primop::Add,
        Primop::Sub,
        Primop::Mul,
        Primop::Div,
        Primop::Mod,
        Primop::Lt,
        Primop::Leq,
        Primop::Gt,
        Primop::Geq,
        Primop::Eq,
        Primop::Neq,
        Primop::Pad,
        Primop::AsUInt,
        Primop::AsSInt,
        Primop::AsClock,
        Primop::Shl,
        Primop::Shr,
        Primop::Dshl,
        Primop::Dshr,
        Primop::Cvt,
        Primop::Neg,
        Primop::Not,
        Primop::And,
        Primop::Or,
        Primop::Xor,
        Primop::Andr,
        Primop::Orr,
        Primop::Xorr,
        Primop::Cat,
        Primop::Bits,
        Primop::Head,
        Primop::Tail,
    ];
    for op in all {
        let c = one_module(
            vec![
                uport("a", Dir::Input, Some(8)),
                uport("b", Dir::Input, Some(8)),
            ],
            vec![stmt(RawStmt::Node("n".to_string(), Expr::Primop(op, args_for(op))))],
        );
        let (env, diags) = infer(&c);
        assert!(diags.is_empty(), "{:?}: {:?}", op, diags);
        assert!(lookup(&env.modules[0].binds, &"n".to_string()).is_some());
        let lowered = lower_expr(&Expr::Primop(op, args_for(op)));
        match op {
            Primop::Head => assert_eq!(lowered, Err(LowerError::Unsupported(Construct::Head))),
            Primop::Tail => assert_eq!(lowered, Err(LowerError::Unsupported(Construct::Tail))),
            _ => assert!(lowered.is_ok(), "{:?}: {:?}", op, lowered),
        }
    }
}
