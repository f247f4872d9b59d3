use vstd::prelude::*;
use crate::ir::{Circuit, Expr, Module, Port, Primop, RawStmt, Stmt, Type, TypeBind};
use crate::ir::{expr_size, exprs_size, lemma_expr_size_pos, lemma_exprs_size_pos};
use crate::ir::{lemma_expr_size_mem, lemma_exprs_size_skip, lemma_stmt_size_mem};
use crate::ir::{lemma_stmts_size_pos, lemma_stmts_size_skip, stmt_size, stmts_size};
use crate::ir::{lit_value, spec_lit_value};
use crate::lower::spec_lower_primop;

verus! {

/// A reference to a name with no declaration in scope, or a second
/// declaration of a name in the same scope.
#[derive(PartialEq, Eq, Debug)]
pub enum DeclarationError {
    Undeclared(String),
    Duplicate(String),
}

/// A declared width that conflicts with the width its binding expression
/// implies, or a width that no constraint determines.
#[derive(PartialEq, Eq, Debug)]
pub enum TypeError {
    WidthMismatch(String, u64, u64),
    UnresolvedWidth(String),
}

/// One reported inference error. The engine accumulates every
/// independently discoverable error instead of stopping at the first.
#[derive(PartialEq, Eq, Debug)]
pub enum Diagnostic {
    Decl(DeclarationError),
    Ty(TypeError),
}

/// The typed bindings of one module, in declaration order.
#[derive(Debug)]
pub struct ModuleEnv {
    pub id: String,
    pub binds: Vec<TypeBind>,
}

/// The inference result: every declared identifier of every module,
/// scoped per module, mapped to its type — each width concrete whenever
/// the run reported no diagnostics.
#[derive(Debug)]
pub struct Environment {
    pub modules: Vec<ModuleEnv>,
}

/// First-match lookup of a name among the bindings of one module.
pub open spec fn spec_lookup(env: Seq<TypeBind>, name: Seq<char>) -> Option<Type>
    decreases env.len(),
{
    if env.len() == 0 {
        None
    } else if env[0].0@ == name {
        Some(env[0].1)
    } else {
        spec_lookup(env.drop_first(), name)
    }
}

pub open spec fn spec_declared(env: Seq<TypeBind>, name: Seq<char>) -> bool {
    spec_lookup(env, name) is Some
}

/// The same kind of type with the given width; a clock keeps its type.
pub open spec fn spec_with_width(t: Type, w: u64) -> Type {
    match t {
        Type::Uint(_) => Type::Uint(Some(w)),
        Type::Sint(_) => Type::Sint(Some(w)),
        Type::Clock => Type::Clock,
    }
}

/// A bit-vector type (a clock is not one).
pub open spec fn spec_bits_type(t: Type) -> bool {
    t is Uint || t is Sint
}

/// Guard for a binary operator: two resolved bit-vector operands.
pub open spec fn spec_bin_ok(ts: Seq<Type>) -> bool {
    ts.len() == 2 && spec_bits_type(ts[0]) && spec_bits_type(ts[1]) && ts[0].is_resolved()
        && ts[1].is_resolved()
}

/// Guard for a unary operator: one resolved bit-vector operand.
pub open spec fn spec_un_ok(ts: Seq<Type>) -> bool {
    ts.len() == 1 && spec_bits_type(ts[0]) && ts[0].is_resolved()
}

pub open spec fn spec_w(t: Type) -> int {
    t.spec_resolved_width()->Some_0 as int
}

pub open spec fn spec_sign2(ts: Seq<Type>) -> bool {
    ts[0] is Sint || ts[1] is Sint
}

pub open spec fn spec_mk(signed: bool, w: int) -> Type {
    if signed {
        Type::Sint(Some(w as u64))
    } else {
        Type::Uint(Some(w as u64))
    }
}

pub open spec fn spec_lit_at(lits: Seq<Option<u64>>, i: int) -> Option<u64> {
    if 0 <= i < lits.len() {
        lits[i]
    } else {
        None
    }
}

/// The width algebra: the result type of a primitive operator applied to
/// operands of the given types, where `lits` holds the value of each
/// operand that is a literal (the static parameters of the shifting,
/// padding and slicing operators). `None` when the operator's rule does
/// not determine a resolved result. The dynamic shifts keep the left
/// operand's width, matching the width of the Verilog shift the lowering
/// engine emits.
pub open spec fn spec_op_type(op: Primop, ts: Seq<Type>, lits: Seq<Option<u64>>) -> Option<
    Type,
> {
    let u64max = 0xffff_ffff_ffff_ffffint;
    if op is Add || op is Sub {
        if spec_bin_ok(ts) {
            let m = if spec_w(ts[0]) >= spec_w(ts[1]) {
                spec_w(ts[0])
            } else {
                spec_w(ts[1])
            };
            if m + 1 <= u64max {
                Some(spec_mk(spec_sign2(ts), m + 1))
            } else {
                None
            }
        } else {
            None
        }
    } else if op is Mul {
        if spec_bin_ok(ts) && spec_w(ts[0]) + spec_w(ts[1]) <= u64max {
            Some(spec_mk(spec_sign2(ts), spec_w(ts[0]) + spec_w(ts[1])))
        } else {
            None
        }
    } else if op is Div {
        if spec_bin_ok(ts) {
            Some(spec_mk(spec_sign2(ts), spec_w(ts[0])))
        } else {
            None
        }
    } else if op is Mod {
        if spec_bin_ok(ts) {
            let m = if spec_w(ts[0]) <= spec_w(ts[1]) {
                spec_w(ts[0])
            } else {
                spec_w(ts[1])
            };
            Some(spec_mk(spec_sign2(ts), m))
        } else {
            None
        }
    } else if op is Lt || op is Leq || op is Gt || op is Geq || op is Eq || op is Neq {
        if spec_bin_ok(ts) {
            Some(Type::Uint(Some(1u64)))
        } else {
            None
        }
    } else if op is And || op is Or || op is Xor {
        if spec_bin_ok(ts) {
            let m = if spec_w(ts[0]) >= spec_w(ts[1]) {
                spec_w(ts[0])
            } else {
                spec_w(ts[1])
            };
            Some(Type::Uint(Some(m as u64)))
        } else {
            None
        }
    } else if op is Andr || op is Orr || op is Xorr {
        if spec_un_ok(ts) {
            Some(Type::Uint(Some(1u64)))
        } else {
            None
        }
    } else if op is Not {
        if spec_un_ok(ts) {
            Some(Type::Uint(Some(spec_w(ts[0]) as u64)))
        } else {
            None
        }
    } else if op is Neg {
        if spec_un_ok(ts) && spec_w(ts[0]) + 1 <= u64max {
            Some(Type::Sint(Some((spec_w(ts[0]) + 1) as u64)))
        } else {
            None
        }
    } else if op is Cvt {
        if spec_un_ok(ts) {
            if ts[0] is Sint {
                Some(Type::Sint(Some(spec_w(ts[0]) as u64)))
            } else if spec_w(ts[0]) + 1 <= u64max {
                Some(Type::Sint(Some((spec_w(ts[0]) + 1) as u64)))
            } else {
                None
            }
        } else {
            None
        }
    } else if op is AsUInt {
        if ts.len() == 1 && ts[0].is_resolved() {
            Some(Type::Uint(Some(spec_w(ts[0]) as u64)))
        } else {
            None
        }
    } else if op is AsSInt {
        if ts.len() == 1 && ts[0].is_resolved() {
            Some(Type::Sint(Some(spec_w(ts[0]) as u64)))
        } else {
            None
        }
    } else if op is AsClock {
        if ts.len() == 1 && ts[0].is_resolved() {
            Some(Type::Clock)
        } else {
            None
        }
    } else if op is Cat {
        if spec_bin_ok(ts) && spec_w(ts[0]) + spec_w(ts[1]) <= u64max {
            Some(Type::Uint(Some((spec_w(ts[0]) + spec_w(ts[1])) as u64)))
        } else {
            None
        }
    } else if op is Shl {
        if ts.len() == 2 && spec_un_ok(ts.take(1)) && spec_lit_at(lits, 1) is Some && spec_w(
            ts[0],
        ) + spec_lit_at(lits, 1)->Some_0 <= u64max {
            Some(spec_with_width(ts[0], (spec_w(ts[0]) + spec_lit_at(lits, 1)->Some_0) as u64))
        } else {
            None
        }
    } else if op is Shr {
        if ts.len() == 2 && spec_un_ok(ts.take(1)) && spec_lit_at(lits, 1) is Some {
            let n = spec_lit_at(lits, 1)->Some_0 as int;
            let w = if n >= spec_w(ts[0]) {
                1int
            } else {
                spec_w(ts[0]) - n
            };
            Some(spec_with_width(ts[0], w as u64))
        } else {
            None
        }
    } else if op is Dshl || op is Dshr {
        if ts.len() == 2 && spec_un_ok(ts.take(1)) && ts[1] is Uint && ts[1].is_resolved() {
            Some(spec_with_width(ts[0], spec_w(ts[0]) as u64))
        } else {
            None
        }
    } else if op is Pad {
        if ts.len() == 2 && spec_un_ok(ts.take(1)) && spec_lit_at(lits, 1) is Some {
            let n = spec_lit_at(lits, 1)->Some_0 as int;
            let w = if n >= spec_w(ts[0]) {
                n
            } else {
                spec_w(ts[0])
            };
            Some(spec_with_width(ts[0], w as u64))
        } else {
            None
        }
    } else if op is Head {
        if ts.len() == 2 && spec_un_ok(ts.take(1)) && spec_lit_at(lits, 1) is Some
            && spec_lit_at(lits, 1)->Some_0 <= spec_w(ts[0]) {
            Some(Type::Uint(Some(spec_lit_at(lits, 1)->Some_0)))
        } else {
            None
        }
    } else if op is Tail {
        if ts.len() == 2 && spec_un_ok(ts.take(1)) && spec_lit_at(lits, 1) is Some
            && spec_lit_at(lits, 1)->Some_0 <= spec_w(ts[0]) {
            Some(Type::Uint(Some((spec_w(ts[0]) - spec_lit_at(lits, 1)->Some_0) as u64)))
        } else {
            None
        }
    } else {
        // Bits
        if ts.len() == 3 && spec_un_ok(ts.take(1)) && spec_lit_at(lits, 1) is Some
            && spec_lit_at(lits, 2) is Some {
            let hi = spec_lit_at(lits, 1)->Some_0 as int;
            let lo = spec_lit_at(lits, 2)->Some_0 as int;
            if lo <= hi < spec_w(ts[0]) {
                Some(Type::Uint(Some((hi - lo + 1) as u64)))
            } else {
                None
            }
        } else {
            None
        }
    }
}

/// The literal values of a list of operands.
pub open spec fn spec_lits_of(es: Seq<Expr>) -> Seq<Option<u64>> {
    es.map_values(|x: Expr| spec_lit_value(x))
}

/// The type of an expression under an environment, together with the
/// diagnostics its inference reports. `None` means the type could not be
/// resolved; every unresolvable reference is reported.
pub open spec fn spec_infer_expr(e: Expr, env: Seq<TypeBind>) -> (Option<Type>, Seq<
    Diagnostic,
>)
    decreases expr_size(e), 1nat,
        via spec_infer_expr_dec
{
    match e {
        Expr::Literal(l) => if l.ty.is_resolved() {
            (Some(l.ty), Seq::<Diagnostic>::empty())
        } else {
            (None, Seq::<Diagnostic>::empty())
        },
        Expr::Ref(id) => match spec_lookup(env, id@) {
            Some(t) => (Some(t), Seq::<Diagnostic>::empty()),
            None => (
                None,
                seq![Diagnostic::Decl(DeclarationError::Undeclared(id))],
            ),
        },
        Expr::SubField(b, _) => (None, spec_infer_expr(*b, env).1),
        Expr::SubIndex(b, _) => (None, spec_infer_expr(*b, env).1),
        Expr::SubAccess(a, b) => (
            None,
            spec_infer_expr(*a, env).1 + spec_infer_expr(*b, env).1,
        ),
        Expr::Mux(c, t, f) => {
            let rc = spec_infer_expr(*c, env);
            let rt = spec_infer_expr(*t, env);
            let rf = spec_infer_expr(*f, env);
            let d = rc.1 + rt.1 + rf.1;
            if rc.0 is Some && rt.0 is Some && rf.0 is Some && spec_bits_type(rt.0->Some_0)
                && spec_bits_type(rf.0->Some_0) && rt.0->Some_0.is_resolved()
                && rf.0->Some_0.is_resolved() {
                let wt = spec_w(rt.0->Some_0);
                let wf = spec_w(rf.0->Some_0);
                let m = if wt >= wf {
                    wt
                } else {
                    wf
                };
                (Some(spec_with_width(rt.0->Some_0, m as u64)), d)
            } else {
                (None, d)
            }
        },
        Expr::Primop(op, ps) => {
            let ro = spec_infer_operands(ps@, env);
            match ro.0 {
                Some(ts) => (spec_op_type(op, ts, spec_lits_of(ps@)), ro.1),
                None => (None, ro.1),
            }
        },
    }
}

/// The types of all operands (`None` if any is unresolved) and the
/// concatenation of every operand's diagnostics: one bad operand never
/// hides another's report.
pub open spec fn spec_infer_operands(es: Seq<Expr>, env: Seq<TypeBind>) -> (
    Option<Seq<Type>>,
    Seq<Diagnostic>,
)
    decreases exprs_size(es), 0nat,
        via spec_infer_operands_dec
{
    if es.len() == 0 {
        (Some(Seq::<Type>::empty()), Seq::<Diagnostic>::empty())
    } else {
        let r0 = spec_infer_expr(es[0], env);
        let rr = spec_infer_operands(es.drop_first(), env);
        let ty = if r0.0 is Some && rr.0 is Some {
            Some(seq![r0.0->Some_0] + rr.0->Some_0)
        } else {
            None
        };
        (ty, r0.1 + rr.1)
    }
}

#[via_fn]
proof fn spec_infer_expr_dec(e: Expr, env: Seq<TypeBind>) {
    match e {
        Expr::Primop(op, ps) => {
            assert(exprs_size(ps@) < expr_size(e));
        },
        _ => {},
    }
}

#[via_fn]
proof fn spec_infer_operands_dec(es: Seq<Expr>, env: Seq<TypeBind>) {
    if es.len() != 0 {
        lemma_expr_size_mem(es, 0);
        lemma_exprs_size_pos(es.drop_first());
        assert(exprs_size(es) == expr_size(es[0]) + exprs_size(es.drop_first()));
    }
}

/// Declares one binding: a duplicate name is reported and the first
/// declaration kept; otherwise the binding enters the environment as
/// declared, its width possibly still pending inference.
pub open spec fn spec_declare(b: TypeBind, env: Seq<TypeBind>) -> (Seq<TypeBind>, Seq<
    Diagnostic,
>) {
    if spec_declared(env, b.0@) {
        (env, seq![Diagnostic::Decl(DeclarationError::Duplicate(b.0))])
    } else {
        (env.push(b), Seq::<Diagnostic>::empty())
    }
}

/// Replaces the type of the first binding of the given name, if any.
pub open spec fn spec_update(env: Seq<TypeBind>, name: Seq<char>, t: Type) -> Seq<TypeBind>
    decreases env.len(),
{
    if env.len() == 0 {
        env
    } else if env[0].0@ == name {
        seq![TypeBind(env[0].0, t)] + env.drop_first()
    } else {
        seq![env[0]] + spec_update(env.drop_first(), name, t)
    }
}

/// The environment after a `Node` or `Inst` assignment to `n` whose
/// expression has type `rt`: a fresh name becomes a new binding with the
/// expression's type; a pending name (declared, width still unknown)
/// receives its width from the expression; a name that is already
/// resolved is simply driven and keeps its declared type.
pub open spec fn spec_assign_env(n: String, rt: Option<Type>, env: Seq<TypeBind>) -> Seq<
    TypeBind,
> {
    match spec_lookup(env, n@) {
        Some(t) => if t.is_resolved() {
            env
        } else {
            match rt {
                Some(te) => match te.spec_resolved_width() {
                    Option::Some(tw) => spec_update(env, n@, spec_with_width(t, tw)),
                    Option::None => env,
                },
                None => env,
            }
        },
        None => match rt {
            Some(te) => env.push(TypeBind(n, te)),
            None => env,
        },
    }
}

/// The one extra report such an assignment can add: a binding whose
/// expression yields no type at all. A binding whose width is merely
/// still unknown stays pending and is left to the final sweep.
pub open spec fn spec_assign_extra(n: String, rt: Option<Type>, env: Seq<TypeBind>) -> Seq<
    Diagnostic,
> {
    match spec_lookup(env, n@) {
        Some(t) => if t.is_resolved() {
            Seq::<Diagnostic>::empty()
        } else if rt is None {
            seq![Diagnostic::Ty(TypeError::UnresolvedWidth(n))]
        } else {
            Seq::<Diagnostic>::empty()
        },
        None => if rt is None {
            seq![Diagnostic::Ty(TypeError::UnresolvedWidth(n))]
        } else {
            Seq::<Diagnostic>::empty()
        },
    }
}

/// The final sweep over a module's finished environment: one report for
/// every binding whose width no constraint ever determined.
pub open spec fn spec_pending_diags(env: Seq<TypeBind>) -> Seq<Diagnostic>
    decreases env.len(),
{
    if env.len() == 0 {
        Seq::<Diagnostic>::empty()
    } else if env[0].1.is_resolved() {
        spec_pending_diags(env.drop_first())
    } else {
        seq![Diagnostic::Ty(TypeError::UnresolvedWidth(env[0].0))] + spec_pending_diags(
            env.drop_first(),
        )
    }
}

/// The environment and diagnostics after one statement. Declarations are
/// processed in order; a reference to a later declaration is undeclared
/// at its point of use, which keeps the engine to a single linear pass.
pub open spec fn spec_infer_stmt(s: Stmt, env: Seq<TypeBind>) -> (Seq<TypeBind>, Seq<
    Diagnostic,
>)
    decreases stmt_size(s), 1nat,
        via spec_infer_stmt_dec
{
    match s.raw_stmt {
        RawStmt::WireDef(b) => spec_declare(b, env),
        RawStmt::MemDef(b) => spec_declare(b, env),
        RawStmt::Node(n, v) => {
            let r = spec_infer_expr(v, env);
            (spec_assign_env(n, r.0, env), r.1 + spec_assign_extra(n, r.0, env))
        },
        RawStmt::Inst(n, v) => {
            let r = spec_infer_expr(v, env);
            (spec_assign_env(n, r.0, env), r.1 + spec_assign_extra(n, r.0, env))
        },
        RawStmt::RegDef(b, next, cond) => {
            let r = spec_infer_expr(next, env);
            let dc = match cond {
                Option::Some(ce) => spec_infer_expr(ce, env).1,
                Option::None => Seq::<Diagnostic>::empty(),
            };
            let d = r.1 + dc;
            if spec_declared(env, b.0@) {
                (env, d + seq![Diagnostic::Decl(DeclarationError::Duplicate(b.0))])
            } else if b.1.is_resolved() {
                match r.0 {
                    Some(t) => match t.spec_resolved_width() {
                        Option::Some(tw) => if Some(tw) != b.1.spec_resolved_width() {
                            (
                                env.push(b),
                                d + seq![
                                    Diagnostic::Ty(
                                        TypeError::WidthMismatch(
                                            b.0,
                                            b.1.spec_resolved_width()->Some_0,
                                            tw,
                                        ),
                                    )
                                ],
                            )
                        } else {
                            (env.push(b), d)
                        },
                        Option::None => (env.push(b), d),
                    },
                    None => (env.push(b), d),
                }
            } else {
                match r.0 {
                    Some(t) => match t.spec_resolved_width() {
                        Option::Some(tw) => (env.push(TypeBind(b.0, spec_with_width(b.1, tw))), d),
                        Option::None => (env.push(b), d),
                    },
                    None => (env.push(b), d),
                }
            }
        },
        RawStmt::Connect(dst, src) => {
            let d1 = if spec_declared(env, dst@) {
                Seq::<Diagnostic>::empty()
            } else {
                seq![Diagnostic::Decl(DeclarationError::Undeclared(dst))]
            };
            (env, d1 + spec_infer_expr(src, env).1)
        },
        RawStmt::When(w) => {
            let dc = spec_infer_expr(w.cond, env).1;
            let rt = spec_infer_stmts(w.then_body.0@, env);
            let re = match w.else_body {
                Option::Some(g) => spec_infer_stmts(g.0@, rt.0),
                Option::None => (rt.0, Seq::<Diagnostic>::empty()),
            };
            (re.0, dc + rt.1 + re.1)
        },
        RawStmt::StmtGroup(sg) => spec_infer_stmts(sg.0@, env),
    }
}

/// Statements processed left to right, diagnostics concatenated.
pub open spec fn spec_infer_stmts(ss: Seq<Stmt>, env: Seq<TypeBind>) -> (Seq<TypeBind>, Seq<
    Diagnostic,
>)
    decreases stmts_size(ss), 0nat,
        via spec_infer_stmts_dec
{
    if ss.len() == 0 {
        (env, Seq::<Diagnostic>::empty())
    } else {
        let r0 = spec_infer_stmt(ss[0], env);
        let rr = spec_infer_stmts(ss.drop_first(), r0.0);
        (rr.0, r0.1 + rr.1)
    }
}

#[via_fn]
proof fn spec_infer_stmt_dec(s: Stmt, env: Seq<TypeBind>) {
    match s.raw_stmt {
        RawStmt::StmtGroup(sg) => {
            assert(stmts_size(sg.0@) < stmt_size(s));
        },
        RawStmt::When(w) => {
            assert(stmts_size(w.then_body.0@) < stmt_size(s));
            match w.else_body {
                Option::Some(eg) => {
                    assert(stmts_size(eg.0@) < stmt_size(s));
                },
                Option::None => {},
            }
        },
        _ => {},
    }
}

#[via_fn]
proof fn spec_infer_stmts_dec(ss: Seq<Stmt>, env: Seq<TypeBind>) {
    if ss.len() != 0 {
        lemma_stmt_size_mem(ss, 0);
        lemma_stmts_size_pos(ss.drop_first());
        assert(stmts_size(ss) == stmt_size(ss[0]) + stmts_size(ss.drop_first()));
    }
}

/// Ports seed the environment in declaration order, under the same
/// declaration rule as any other binding.
pub open spec fn spec_seed_ports(ps: Seq<Port>, env: Seq<TypeBind>) -> (Seq<TypeBind>, Seq<
    Diagnostic,
>)
    decreases ps.len(),
{
    if ps.len() == 0 {
        (env, Seq::<Diagnostic>::empty())
    } else {
        let r0 = spec_declare(ps[0].bind, env);
        let rr = spec_seed_ports(ps.drop_first(), r0.0);
        (rr.0, r0.1 + rr.1)
    }
}

/// The inference result of one module: ports first, then the body, then
/// one final sweep that reports every binding still without a width.
pub open spec fn spec_infer_module(m: Module) -> (Seq<TypeBind>, Seq<Diagnostic>) {
    let rp = spec_seed_ports(m.ports@, Seq::<TypeBind>::empty());
    let rb = spec_infer_stmts(m.stmts.0@, rp.0);
    (rb.0, rp.1 + rb.1 + spec_pending_diags(rb.0))
}

/// All diagnostics of a circuit: each module's report, in module order.
pub open spec fn spec_circuit_diags(ms: Seq<Module>) -> Seq<Diagnostic>
    decreases ms.len(),
{
    if ms.len() == 0 {
        Seq::<Diagnostic>::empty()
    } else {
        spec_infer_module(ms[0]).1 + spec_circuit_diags(ms.drop_first())
    }
}

fn lookup_from(env: &Vec<TypeBind>, name: &String, i: usize) -> (r: Option<Type>)
    requires
        i <= env@.len(),
    ensures
        r == spec_lookup(env@.skip(i as int), name@),
    decreases env@.len() - i,
{
    if i == env.len() {
        proof {
            assert(env@.skip(i as int) =~= Seq::<TypeBind>::empty());
        }
        None
    } else {
        proof {
            assert(env@.skip(i as int)[0] == env@[i as int]);
            assert(env@.skip(i as int).drop_first() =~= env@.skip(i as int + 1));
        }
        if env[i].0 == *name {
            Some(env[i].1)
        } else {
            lookup_from(env, name, i + 1)
        }
    }
}

/// First-match lookup of a name among a module's bindings.
pub fn lookup(env: &Vec<TypeBind>, name: &String) -> (r: Option<Type>)
    ensures
        r == spec_lookup(env@, name@),
{
    let r = lookup_from(env, name, 0);
    proof {
        assert(env@.skip(0) =~= env@);
    }
    r
}

fn declared(env: &Vec<TypeBind>, name: &String) -> (r: bool)
    ensures
        r == spec_declared(env@, name@),
{
    lookup(env, name).is_some()
}

fn with_width(t: &Type, w: u64) -> (r: Type)
    ensures
        r == spec_with_width(*t, w),
{
    match t {
        Type::Uint(_) => Type::Uint(Some(w)),
        Type::Sint(_) => Type::Sint(Some(w)),
        Type::Clock => Type::Clock,
    }
}

fn bits_res(t: &Type) -> (r: bool)
    ensures
        r == (spec_bits_type(*t) && t.is_resolved()),
{
    match t {
        Type::Uint(w) => w.is_some(),
        Type::Sint(w) => w.is_some(),
        Type::Clock => false,
    }
}

fn w_of(t: &Type) -> (r: u64)
    requires
        t.is_resolved(),
    ensures
        r as int == spec_w(*t),
{
    match t.resolved_width() {
        Some(w) => w,
        None => {
            proof {
                assert(false);
            }
            0
        },
    }
}

/// Executable form of the width algebra.
#[verifier::rlimit(60)]
fn op_type(op: &Primop, ts: &Vec<Type>, lits: &Vec<Option<u64>>) -> (r: Option<Type>)
    ensures
        r == spec_op_type(*op, ts@, lits@),
{
    proof {
        if ts@.len() >= 1 {
            assert(ts@.take(1).len() == 1);
            assert(ts@.take(1)[0] == ts@[0]);
        }
    }
    let l1: Option<u64> = if lits.len() > 1 {
        lits[1]
    } else {
        None
    };
    let l2: Option<u64> = if lits.len() > 2 {
        lits[2]
    } else {
        None
    };
    if matches!(op, Primop::Add | Primop::Sub) {
        if ts.len() == 2 && bits_res(&ts[0]) && bits_res(&ts[1]) {
            let w0 = w_of(&ts[0]);
            let w1 = w_of(&ts[1]);
            let m = if w0 >= w1 {
                w0
            } else {
                w1
            };
            if m < u64::MAX {
                if matches!(ts[0], Type::Sint(_)) || matches!(ts[1], Type::Sint(_)) {
                    Some(Type::Sint(Some(m + 1)))
                } else {
                    Some(Type::Uint(Some(m + 1)))
                }
            } else {
                None
            }
        } else {
            None
        }
    } else if matches!(op, Primop::Mul) {
        if ts.len() == 2 && bits_res(&ts[0]) && bits_res(&ts[1]) {
            let w0 = w_of(&ts[0]);
            let w1 = w_of(&ts[1]);
            if w0 <= u64::MAX - w1 {
                if matches!(ts[0], Type::Sint(_)) || matches!(ts[1], Type::Sint(_)) {
                    Some(Type::Sint(Some(w0 + w1)))
                } else {
                    Some(Type::Uint(Some(w0 + w1)))
                }
            } else {
                None
            }
        } else {
            None
        }
    } else if matches!(op, Primop::Div) {
        if ts.len() == 2 && bits_res(&ts[0]) && bits_res(&ts[1]) {
            let w0 = w_of(&ts[0]);
            if matches!(ts[0], Type::Sint(_)) || matches!(ts[1], Type::Sint(_)) {
                Some(Type::Sint(Some(w0)))
            } else {
                Some(Type::Uint(Some(w0)))
            }
        } else {
            None
        }
    } else if matches!(op, Primop::Mod) {
        if ts.len() == 2 && bits_res(&ts[0]) && bits_res(&ts[1]) {
            let w0 = w_of(&ts[0]);
            let w1 = w_of(&ts[1]);
            let m = if w0 <= w1 {
                w0
            } else {
                w1
            };
            if matches!(ts[0], Type::Sint(_)) || matches!(ts[1], Type::Sint(_)) {
                Some(Type::Sint(Some(m)))
            } else {
                Some(Type::Uint(Some(m)))
            }
        } else {
            None
        }
    } else if matches!(
        op,
        Primop::Lt | Primop::Leq | Primop::Gt | Primop::Geq | Primop::Eq | Primop::Neq
    ) {
        if ts.len() == 2 && bits_res(&ts[0]) && bits_res(&ts[1]) {
            Some(Type::Uint(Some(1)))
        } else {
            None
        }
    } else if matches!(op, Primop::And | Primop::Or | Primop::Xor) {
        if ts.len() == 2 && bits_res(&ts[0]) && bits_res(&ts[1]) {
            let w0 = w_of(&ts[0]);
            let w1 = w_of(&ts[1]);
            let m = if w0 >= w1 {
                w0
            } else {
                w1
            };
            Some(Type::Uint(Some(m)))
        } else {
            None
        }
    } else if matches!(op, Primop::Andr | Primop::Orr | Primop::Xorr) {
        if ts.len() == 1 && bits_res(&ts[0]) {
            Some(Type::Uint(Some(1)))
        } else {
            None
        }
    } else if matches!(op, Primop::Not) {
        if ts.len() == 1 && bits_res(&ts[0]) {
            Some(Type::Uint(Some(w_of(&ts[0]))))
        } else {
            None
        }
    } else if matches!(op, Primop::Neg) {
        if ts.len() == 1 && bits_res(&ts[0]) {
            let w0 = w_of(&ts[0]);
            if w0 < u64::MAX {
                Some(Type::Sint(Some(w0 + 1)))
            } else {
                None
            }
        } else {
            None
        }
    } else if matches!(op, Primop::Cvt) {
        if ts.len() == 1 && bits_res(&ts[0]) {
            let w0 = w_of(&ts[0]);
            if matches!(ts[0], Type::Sint(_)) {
                Some(Type::Sint(Some(w0)))
            } else if w0 < u64::MAX {
                Some(Type::Sint(Some(w0 + 1)))
            } else {
                None
            }
        } else {
            None
        }
    } else if matches!(op, Primop::AsUInt) {
        if ts.len() == 1 && ts[0].resolved_width().is_some() {
            Some(Type::Uint(Some(w_of(&ts[0]))))
        } else {
            None
        }
    } else if matches!(op, Primop::AsSInt) {
        if ts.len() == 1 && ts[0].resolved_width().is_some() {
            Some(Type::Sint(Some(w_of(&ts[0]))))
        } else {
            None
        }
    } else if matches!(op, Primop::AsClock) {
        if ts.len() == 1 && ts[0].resolved_width().is_some() {
            Some(Type::Clock)
        } else {
            None
        }
    } else if matches!(op, Primop::Cat) {
        if ts.len() == 2 && bits_res(&ts[0]) && bits_res(&ts[1]) {
            let w0 = w_of(&ts[0]);
            let w1 = w_of(&ts[1]);
            if w0 <= u64::MAX - w1 {
                Some(Type::Uint(Some(w0 + w1)))
            } else {
                None
            }
        } else {
            None
        }
    } else if matches!(op, Primop::Shl) {
        if ts.len() == 2 && bits_res(&ts[0]) {
            match l1 {
                Some(n) => {
                    let w0 = w_of(&ts[0]);
                    if w0 <= u64::MAX - n {
                        Some(with_width(&ts[0], w0 + n))
                    } else {
                        None
                    }
                },
                None => None,
            }
        } else {
            None
        }
    } else if matches!(op, Primop::Shr) {
        if ts.len() == 2 && bits_res(&ts[0]) {
            match l1 {
                Some(n) => {
                    let w0 = w_of(&ts[0]);
                    let w = if n >= w0 {
                        1
                    } else {
                        w0 - n
                    };
                    Some(with_width(&ts[0], w))
                },
                None => None,
            }
        } else {
            None
        }
    } else if matches!(op, Primop::Dshl | Primop::Dshr) {
        if ts.len() == 2 && bits_res(&ts[0]) && matches!(ts[1], Type::Uint(Some(_))) {
            Some(with_width(&ts[0], w_of(&ts[0])))
        } else {
            None
        }
    } else if matches!(op, Primop::Pad) {
        if ts.len() == 2 && bits_res(&ts[0]) {
            match l1 {
                Some(n) => {
                    let w0 = w_of(&ts[0]);
                    let w = if n >= w0 {
                        n
                    } else {
                        w0
                    };
                    Some(with_width(&ts[0], w))
                },
                None => None,
            }
        } else {
            None
        }
    } else if matches!(op, Primop::Head) {
        if ts.len() == 2 && bits_res(&ts[0]) {
            match l1 {
                Some(n) => {
                    let w0 = w_of(&ts[0]);
                    if n <= w0 {
                        Some(Type::Uint(Some(n)))
                    } else {
                        None
                    }
                },
                None => None,
            }
        } else {
            None
        }
    } else if matches!(op, Primop::Tail) {
        if ts.len() == 2 && bits_res(&ts[0]) {
            match l1 {
                Some(n) => {
                    let w0 = w_of(&ts[0]);
                    if n <= w0 {
                        Some(Type::Uint(Some(w0 - n)))
                    } else {
                        None
                    }
                },
                None => None,
            }
        } else {
            None
        }
    } else {
        if ts.len() == 3 && bits_res(&ts[0]) {
            match (l1, l2) {
                (Some(hi), Some(lo)) => {
                    let w0 = w_of(&ts[0]);
                    if lo <= hi && hi < w0 {
                        Some(Type::Uint(Some(hi - lo + 1)))
                    } else {
                        None
                    }
                },
                _ => None,
            }
        } else {
            None
        }
    }
}

/// Infers an expression's type, appending every diagnostic it finds.
fn infer_expr(e: &Expr, env: &Vec<TypeBind>, diags: &mut Vec<Diagnostic>) -> (r: Option<Type>)
    ensures
        r == spec_infer_expr(*e, env@).0,
        final(diags)@ == old(diags)@ + spec_infer_expr(*e, env@).1,
    decreases expr_size(*e), 1nat,
{
    match e {
        Expr::Literal(l) => {
            proof {
                assert(old(diags)@ + Seq::<Diagnostic>::empty() =~= old(diags)@);
            }
            if l.ty.resolved_width().is_some() {
                Some(l.ty)
            } else {
                None
            }
        },
        Expr::Ref(id) => {
            match lookup(env, id) {
                Some(t) => {
                    proof {
                        assert(old(diags)@ + Seq::<Diagnostic>::empty() =~= old(diags)@);
                    }
                    Some(t)
                },
                None => {
                    let d = Diagnostic::Decl(DeclarationError::Undeclared(id.clone()));
                    proof {
                        assert(old(diags)@.push(d) =~= old(diags)@ + seq![d]);
                    }
                    diags.push(d);
                    None
                },
            }
        },
        Expr::SubField(b, _) => {
            let _ = infer_expr(&**b, env, diags);
            None
        },
        Expr::SubIndex(b, _) => {
            let _ = infer_expr(&**b, env, diags);
            None
        },
        Expr::SubAccess(a, b) => {
            let _ = infer_expr(&**a, env, diags);
            let _ = infer_expr(&**b, env, diags);
            proof {
                assert(final(diags)@ =~= old(diags)@ + spec_infer_expr(*e, env@).1);
            }
            None
        },
        Expr::Mux(c, t, f) => {
            let rc = infer_expr(&**c, env, diags);
            let rt = infer_expr(&**t, env, diags);
            let rf = infer_expr(&**f, env, diags);
            proof {
                assert(final(diags)@ =~= old(diags)@ + spec_infer_expr(*e, env@).1);
            }
            match (rc, rt, rf) {
                (Some(_tc), Some(tv), Some(fv)) => {
                    if bits_res(&tv) && bits_res(&fv) {
                        let wt = w_of(&tv);
                        let wf = w_of(&fv);
                        let m = if wt >= wf {
                            wt
                        } else {
                            wf
                        };
                        Some(with_width(&tv, m))
                    } else {
                        None
                    }
                },
                _ => None,
            }
        },
        Expr::Primop(op, ps) => {
            proof {
                assert(ps@.skip(0) =~= ps@);
            }
            let ro = match infer_operands_from(ps, 0, env, diags) {
                Some(v) => v,
                None => {
                    return None;
                },
            };
            let mut lits: Vec<Option<u64>> = Vec::new();
            let mut j: usize = 0;
            while j < ps.len()
                invariant
                    j <= ps@.len(),
                    lits@.len() == j,
                    forall|k: int| 0 <= k < j ==> lits@[k] == spec_lit_value(ps@[k]),
                decreases ps@.len() - j,
            {
                lits.push(lit_value(&ps[j]));
                j = j + 1;
            }
            proof {
                assert(lits@ =~= spec_lits_of(ps@));
            }
            op_type(op, &ro, &lits)
        },
    }
}

/// Infers the types of the operand list starting at `i`, appending every
/// operand's diagnostics whether or not an earlier operand failed.
fn infer_operands_from(
    ps: &Vec<Expr>,
    i: usize,
    env: &Vec<TypeBind>,
    diags: &mut Vec<Diagnostic>,
) -> (r: Option<Vec<Type>>)
    requires
        i <= ps@.len(),
    ensures
        (match r {
            Some(v) => spec_infer_operands(ps@.skip(i as int), env@).0 == Some(v@),
            None => spec_infer_operands(ps@.skip(i as int), env@).0 is None,
        }),
        final(diags)@ == old(diags)@ + spec_infer_operands(ps@.skip(i as int), env@).1,
    decreases exprs_size(ps@.skip(i as int)), 0nat,
{
    if i == ps.len() {
        proof {
            assert(ps@.skip(i as int) =~= Seq::<Expr>::empty());
            assert(old(diags)@ + Seq::<Diagnostic>::empty() =~= old(diags)@);
        }
        Some(Vec::new())
    } else {
        proof {
            lemma_exprs_size_skip(ps@, i as int);
            lemma_expr_size_pos(ps@[i as int]);
            lemma_exprs_size_pos(ps@.skip(i as int + 1));
            assert(ps@.skip(i as int)[0] == ps@[i as int]);
            assert(ps@.skip(i as int).drop_first() =~= ps@.skip(i as int + 1));
        }
        let r0 = infer_expr(&ps[i], env, diags);
        let rr = infer_operands_from(ps, i + 1, env, diags);
        proof {
            assert(final(diags)@ =~= old(diags)@ + spec_infer_operands(
                ps@.skip(i as int),
                env@,
            ).1);
        }
        match (r0, rr) {
            (Some(t), Some(v)) => {
                let ghost v_snap = v@;
                let mut out = v;
                out.insert(0, t);
                proof {
                    assert(out@ =~= seq![t] + v_snap);
                }
                Some(out)
            },
            _ => None,
        }
    }
}

/// Declares one binding, as `spec_declare` describes.
fn declare(b: &TypeBind, env: Vec<TypeBind>, diags: &mut Vec<Diagnostic>) -> (r: Vec<TypeBind>)
    ensures
        r@ == spec_declare(*b, env@).0,
        final(diags)@ == old(diags)@ + spec_declare(*b, env@).1,
{
    let mut env = env;
    if declared(&env, &b.0) {
        let d = Diagnostic::Decl(DeclarationError::Duplicate(b.0.clone()));
        proof {
            assert(old(diags)@.push(d) =~= old(diags)@ + seq![d]);
        }
        diags.push(d);
        env
    } else {
        proof {
            assert(old(diags)@ + Seq::<Diagnostic>::empty() =~= old(diags)@);
        }
        env.push(b.dup());
        env
    }
}

/// How `spec_update` acts when the name sits first at index `i`.
proof fn lemma_update_found(env: Seq<TypeBind>, name: Seq<char>, t: Type, i: int)
    requires
        0 <= i < env.len(),
        env[i].0@ == name,
        forall|k: int| 0 <= k < i ==> (#[trigger] env[k]).0@ != name,
    ensures
        spec_update(env, name, t) == env.update(i, TypeBind(env[i].0, t)),
    decreases i,
{
    if i == 0 {
        assert(spec_update(env, name, t) =~= env.update(0, TypeBind(env[0].0, t)));
    } else {
        assert(env[0].0@ != name);
        assert forall|k: int| 0 <= k < i - 1 implies (#[trigger] env.drop_first()[k]).0@
            != name by {
            assert(env.drop_first()[k] == env[k + 1]);
        }
        assert(env.drop_first()[i - 1] == env[i]);
        lemma_update_found(env.drop_first(), name, t, i - 1);
        assert(spec_update(env, name, t) =~= env.update(i, TypeBind(env[i].0, t)));
    }
}

/// `spec_update` of an undeclared name leaves the environment unchanged.
proof fn lemma_update_absent(env: Seq<TypeBind>, name: Seq<char>, t: Type)
    requires
        forall|k: int| 0 <= k < env.len() ==> (#[trigger] env[k]).0@ != name,
    ensures
        spec_update(env, name, t) == env,
    decreases env.len(),
{
    if env.len() != 0 {
        assert forall|k: int| 0 <= k < env.drop_first().len() implies (
        #[trigger] env.drop_first()[k]).0@ != name by {
            assert(env.drop_first()[k] == env[k + 1]);
        }
        lemma_update_absent(env.drop_first(), name, t);
        assert(spec_update(env, name, t) =~= env);
    }
}

/// Replaces the type of the first binding called `name`, if any.
#[verifier::loop_isolation(false)]
fn update_binding(env: Vec<TypeBind>, name: &String, t: Type) -> (r: Vec<TypeBind>)
    ensures
        r@ == spec_update(env@, name@, t),
{
    let ghost orig = env@;
    let mut env = env;
    let mut i: usize = 0;
    while i < env.len()
        invariant
            i <= env@.len(),
            env@ == orig,
            forall|k: int| 0 <= k < i ==> (#[trigger] env@[k]).0@ != name@,
        decreases env@.len() - i,
    {
        if env[i].0 == *name {
            let nb = TypeBind(env[i].0.clone(), t);
            proof {
                lemma_update_found(orig, name@, t, i as int);
            }
            env.set(i, nb);
            return env;
        }
        i = i + 1;
    }
    proof {
        lemma_update_absent(orig, name@, t);
    }
    env
}

/// Applies a `Node` or `Inst` assignment to the environment.
fn bind_assign(
    n: &String,
    rt: Option<Type>,
    env: Vec<TypeBind>,
    diags: &mut Vec<Diagnostic>,
) -> (out: Vec<TypeBind>)
    ensures
        out@ == spec_assign_env(*n, rt, env@),
        final(diags)@ == old(diags)@ + spec_assign_extra(*n, rt, env@),
{
    proof {
        assert(old(diags)@ + Seq::<Diagnostic>::empty() =~= old(diags)@);
    }
    let mut env = env;
    match lookup(&env, n) {
        Some(t) => {
            if t.resolved_width().is_some() {
                env
            } else {
                match rt {
                    Some(te) => match te.resolved_width() {
                        Some(tw) => {
                            let nt = with_width(&t, tw);
                            update_binding(env, n, nt)
                        },
                        None => env,
                    },
                    None => {
                        push_diag(
                            diags,
                            Diagnostic::Ty(TypeError::UnresolvedWidth(n.clone())),
                        );
                        env
                    },
                }
            }
        },
        None => match rt {
            Some(te) => {
                env.push(TypeBind(n.clone(), te));
                env
            },
            None => {
                push_diag(diags, Diagnostic::Ty(TypeError::UnresolvedWidth(n.clone())));
                env
            },
        },
    }
}

/// Pushes one diagnostic, keeping the appended-report shape.
fn push_diag(diags: &mut Vec<Diagnostic>, d: Diagnostic)
    ensures
        final(diags)@ == old(diags)@ + seq![d],
{
    proof {
        assert(old(diags)@.push(d) =~= old(diags)@ + seq![d]);
    }
    diags.push(d);
}

/// Processes one statement: extends the environment with whatever the
/// statement declares and appends every diagnostic it produces.
fn infer_stmt(s: &Stmt, env: Vec<TypeBind>, diags: &mut Vec<Diagnostic>) -> (r: Vec<TypeBind>)
    ensures
        r@ == spec_infer_stmt(*s, env@).0,
        final(diags)@ == old(diags)@ + spec_infer_stmt(*s, env@).1,
    decreases stmt_size(*s), 1nat,
{
    let mut env = env;
    match &s.raw_stmt {
        RawStmt::WireDef(b) => declare(b, env, diags),
        RawStmt::MemDef(b) => declare(b, env, diags),
        RawStmt::Node(n, v) => {
            let r = infer_expr(v, &env, diags);
            let out = bind_assign(n, r, env, diags);
            proof {
                assert(final(diags)@ =~= old(diags)@ + spec_infer_stmt(*s, env@).1);
            }
            out
        },
        RawStmt::Inst(n, v) => {
            let r = infer_expr(v, &env, diags);
            let out = bind_assign(n, r, env, diags);
            proof {
                assert(final(diags)@ =~= old(diags)@ + spec_infer_stmt(*s, env@).1);
            }
            out
        },
        RawStmt::RegDef(b, next, cond) => {
            let r = infer_expr(next, &env, diags);
            match cond {
                Option::Some(ce) => {
                    let _ = infer_expr(ce, &env, diags);
                },
                Option::None => {
                    proof {
                        assert(final(diags)@ + Seq::<Diagnostic>::empty() =~= final(diags)@);
                    }
                },
            }
            if declared(&env, &b.0) {
                push_diag(diags, Diagnostic::Decl(DeclarationError::Duplicate(b.0.clone())));
                proof {
                    assert(final(diags)@ =~= old(diags)@ + spec_infer_stmt(*s, env@).1);
                }
                env
            } else if b.1.resolved_width().is_some() {
                match r {
                    Some(t) => {
                        match t.resolved_width() {
                            Some(iw) => {
                                let dw = w_of(&b.1);
                                if iw != dw {
                                    push_diag(
                                        diags,
                                        Diagnostic::Ty(
                                            TypeError::WidthMismatch(b.0.clone(), dw, iw),
                                        ),
                                    );
                                    proof {
                                        assert(final(diags)@ =~= old(diags)@ + spec_infer_stmt(
                                            *s,
                                            env@,
                                        ).1);
                                    }
                                } else {
                                    proof {
                                        assert(final(diags)@ =~= old(diags)@ + spec_infer_stmt(
                                            *s,
                                            env@,
                                        ).1);
                                    }
                                }
                            },
                            None => {
                                proof {
                                    assert(final(diags)@ =~= old(diags)@ + spec_infer_stmt(
                                        *s,
                                        env@,
                                    ).1);
                                }
                            },
                        }
                        env.push(b.dup());
                        env
                    },
                    None => {
                        proof {
                            assert(final(diags)@ =~= old(diags)@ + spec_infer_stmt(
                                *s,
                                env@,
                            ).1);
                        }
                        env.push(b.dup());
                        env
                    },
                }
            } else {
                let tw = match r {
                    Some(t) => t.resolved_width(),
                    None => None,
                };
                proof {
                    assert(final(diags)@ =~= old(diags)@ + spec_infer_stmt(*s, env@).1);
                }
                match tw {
                    Some(iw) => {
                        env.push(TypeBind(b.0.clone(), with_width(&b.1, iw)));
                        env
                    },
                    None => {
                        env.push(b.dup());
                        env
                    },
                }
            }
        },
        RawStmt::Connect(dst, src) => {
            if !declared(&env, dst) {
                push_diag(
                    diags,
                    Diagnostic::Decl(DeclarationError::Undeclared(dst.clone())),
                );
            }
            let _ = infer_expr(src, &env, diags);
            proof {
                assert(final(diags)@ =~= old(diags)@ + spec_infer_stmt(*s, env@).1);
            }
            env
        },
        RawStmt::When(w) => {
            let _ = infer_expr(&w.cond, &env, diags);
            proof {
                assert(w.then_body.0@.skip(0) =~= w.then_body.0@);
            }
            let env1 = infer_stmts_from(&w.then_body.0, 0, env, diags);
            let env2 = match &w.else_body {
                Option::Some(g) => {
                    proof {
                        assert(g.0@.skip(0) =~= g.0@);
                    }
                    infer_stmts_from(&g.0, 0, env1, diags)
                },
                Option::None => env1,
            };
            proof {
                assert(final(diags)@ =~= old(diags)@ + spec_infer_stmt(*s, env@).1);
            }
            env2
        },
        RawStmt::StmtGroup(sg) => {
            proof {
                assert(sg.0@.skip(0) =~= sg.0@);
            }
            infer_stmts_from(&sg.0, 0, env, diags)
        },
    }
}

/// Processes the statements of one scope from `i` on, in order.
fn infer_stmts_from(
    v: &Vec<Stmt>,
    i: usize,
    env: Vec<TypeBind>,
    diags: &mut Vec<Diagnostic>,
) -> (r: Vec<TypeBind>)
    requires
        i <= v@.len(),
    ensures
        r@ == spec_infer_stmts(v@.skip(i as int), env@).0,
        final(diags)@ == old(diags)@ + spec_infer_stmts(v@.skip(i as int), env@).1,
    decreases stmts_size(v@.skip(i as int)), 0nat,
{
    if i == v.len() {
        proof {
            assert(v@.skip(i as int) =~= Seq::<Stmt>::empty());
            assert(old(diags)@ + Seq::<Diagnostic>::empty() =~= old(diags)@);
        }
        env
    } else {
        proof {
            lemma_stmts_size_skip(v@, i as int);
            lemma_stmts_size_pos(v@.skip(i as int + 1));
            assert(v@.skip(i as int)[0] == v@[i as int]);
            assert(v@.skip(i as int).drop_first() =~= v@.skip(i as int + 1));
        }
        let env1 = infer_stmt(&v[i], env, diags);
        let env2 = infer_stmts_from(v, i + 1, env1, diags);
        proof {
            assert(final(diags)@ =~= old(diags)@ + spec_infer_stmts(
                v@.skip(i as int),
                env@,
            ).1);
        }
        env2
    }
}

/// Seeds the environment with the module's ports, in declaration order.
fn seed_ports_from(
    ps: &Vec<Port>,
    i: usize,
    env: Vec<TypeBind>,
    diags: &mut Vec<Diagnostic>,
) -> (r: Vec<TypeBind>)
    requires
        i <= ps@.len(),
    ensures
        r@ == spec_seed_ports(ps@.skip(i as int), env@).0,
        final(diags)@ == old(diags)@ + spec_seed_ports(ps@.skip(i as int), env@).1,
    decreases ps@.len() - i,
{
    if i == ps.len() {
        proof {
            assert(ps@.skip(i as int) =~= Seq::<Port>::empty());
            assert(old(diags)@ + Seq::<Diagnostic>::empty() =~= old(diags)@);
        }
        env
    } else {
        proof {
            assert(ps@.skip(i as int)[0] == ps@[i as int]);
            assert(ps@.skip(i as int).drop_first() =~= ps@.skip(i as int + 1));
        }
        let env1 = declare(&ps[i].bind, env, diags);
        let env2 = seed_ports_from(ps, i + 1, env1, diags);
        proof {
            assert(final(diags)@ =~= old(diags)@ + spec_seed_ports(
                ps@.skip(i as int),
                env@,
            ).1);
        }
        env2
    }
}

/// Runs inference over one module.
pub fn infer_module(m: &Module) -> (r: (Vec<TypeBind>, Vec<Diagnostic>))
    ensures
        r.0@ == spec_infer_module(*m).0,
        r.1@ == spec_infer_module(*m).1,
{
    let mut diags: Vec<Diagnostic> = Vec::new();
    proof {
        assert(m.ports@.skip(0) =~= m.ports@);
        assert(m.stmts.0@.skip(0) =~= m.stmts.0@);
    }
    let seeded = seed_ports_from(&m.ports, 0, Vec::new(), &mut diags);
    let env = infer_stmts_from(&m.stmts.0, 0, seeded, &mut diags);
    proof {
        assert(env@.skip(0) =~= env@);
    }
    sweep_pending(&env, 0, &mut diags);
    proof {
        assert(diags@ =~= spec_infer_module(*m).1);
    }
    (env, diags)
}

/// Reports every binding of a finished environment that still has no
/// concrete width.
fn sweep_pending(env: &Vec<TypeBind>, i: usize, diags: &mut Vec<Diagnostic>)
    requires
        i <= env@.len(),
    ensures
        final(diags)@ == old(diags)@ + spec_pending_diags(env@.skip(i as int)),
    decreases env@.len() - i,
{
    if i == env.len() {
        proof {
            assert(env@.skip(i as int) =~= Seq::<TypeBind>::empty());
            assert(old(diags)@ + Seq::<Diagnostic>::empty() =~= old(diags)@);
        }
    } else {
        proof {
            assert(env@.skip(i as int)[0] == env@[i as int]);
            assert(env@.skip(i as int).drop_first() =~= env@.skip(i as int + 1));
        }
        if !env[i].1.resolved_width().is_some() {
            push_diag(diags, Diagnostic::Ty(TypeError::UnresolvedWidth(env[i].0.clone())));
        }
        sweep_pending(env, i + 1, diags);
        proof {
            assert(final(diags)@ =~= old(diags)@ + spec_pending_diags(env@.skip(i as int)));
        }
    }
}

proof fn lemma_circuit_diags_snoc(ms: Seq<Module>, i: int)
    requires
        0 <= i < ms.len(),
    ensures
        spec_circuit_diags(ms.take(i + 1)) == spec_circuit_diags(ms.take(i))
            + spec_infer_module(ms[i]).1,
    decreases i,
{
    if i == 0 {
        assert(ms.take(1)[0] == ms[0]);
        assert(ms.take(1).drop_first() =~= ms.take(0));
        assert(spec_circuit_diags(ms.take(0)) =~= Seq::<Diagnostic>::empty());
        assert(Seq::<Diagnostic>::empty() + spec_infer_module(ms[0]).1 =~= spec_infer_module(
            ms[0],
        ).1);
    } else {
        lemma_circuit_diags_snoc(ms.drop_first(), i - 1);
        assert(ms.take(i + 1)[0] == ms[0]);
        assert(ms.take(i + 1).drop_first() =~= ms.drop_first().take(i));
        assert(ms.take(i)[0] == ms[0]);
        assert(ms.take(i).drop_first() =~= ms.drop_first().take(i - 1));
        assert(ms.drop_first()[i - 1] == ms[i]);
        assert(spec_infer_module(ms[0]).1 + (spec_circuit_diags(ms.drop_first().take(i - 1))
            + spec_infer_module(ms[i]).1) =~= (spec_infer_module(ms[0]).1 + spec_circuit_diags(
            ms.drop_first().take(i - 1),
        )) + spec_infer_module(ms[i]).1);
    }
}

/// The type/width inference engine's public contract: one run returns
/// the per-module environments and the complete list of diagnostics, in
/// program order. The engine walks on past every error — it never stops
/// at the first — and a run without diagnostics leaves every binding
/// with a concrete width (`lemma_inference_soundness`).
pub fn infer(c: &Circuit) -> (r: (Environment, Vec<Diagnostic>))
    ensures
        r.0.modules@.len() == c.modules@.len(),
        forall|i: int|
            0 <= i < c.modules@.len() ==> (#[trigger] r.0.modules@[i]).id == c.modules@[i].id
                && r.0.modules@[i].binds@ == spec_infer_module(c.modules@[i]).0,
        r.1@ == spec_circuit_diags(c.modules@),
{
    let mut envs: Vec<ModuleEnv> = Vec::new();
    let mut diags: Vec<Diagnostic> = Vec::new();
    let mut i: usize = 0;
    while i < c.modules.len()
        invariant
            i <= c.modules@.len(),
            envs@.len() == i,
            forall|k: int|
                0 <= k < i ==> (#[trigger] envs@[k]).id == c.modules@[k].id && envs@[k].binds@
                    == spec_infer_module(c.modules@[k]).0,
            diags@ == spec_circuit_diags(c.modules@.take(i as int)),
        decreases c.modules@.len() - i,
    {
        let m = &c.modules[i];
        let (env_b, mut mdiags) = infer_module(m);
        proof {
            lemma_circuit_diags_snoc(c.modules@, i as int);
        }
        diags.append(&mut mdiags);
        envs.push(ModuleEnv { id: m.id.clone(), binds: env_b });
        i = i + 1;
    }
    proof {
        assert(c.modules@.take(c.modules@.len() as int) =~= c.modules@);
    }
    (Environment { modules: envs }, diags)
}

/// Every binding of the environment carries a concrete width.
pub open spec fn env_resolved(env: Seq<TypeBind>) -> bool {
    forall|i: int| 0 <= i < env.len() ==> (#[trigger] env[i]).1.is_resolved()
}

/// The names a statement declares, in order.
pub open spec fn stmt_names(s: Stmt) -> Seq<Seq<char>>
    decreases stmt_size(s), 1nat,
        via stmt_names_dec
{
    match s.raw_stmt {
        RawStmt::WireDef(b) => seq![b.0@],
        RawStmt::MemDef(b) => seq![b.0@],
        RawStmt::RegDef(b, _, _) => seq![b.0@],
        RawStmt::Node(n, _) => seq![n@],
        RawStmt::Inst(n, _) => seq![n@],
        RawStmt::Connect(_, _) => Seq::<Seq<char>>::empty(),
        RawStmt::When(w) => stmts_names(w.then_body.0@) + (match w.else_body {
            Option::Some(g) => stmts_names(g.0@),
            Option::None => Seq::<Seq<char>>::empty(),
        }),
        RawStmt::StmtGroup(sg) => stmts_names(sg.0@),
    }
}

pub open spec fn stmts_names(ss: Seq<Stmt>) -> Seq<Seq<char>>
    decreases stmts_size(ss), 0nat,
        via stmts_names_dec
{
    if ss.len() == 0 {
        Seq::<Seq<char>>::empty()
    } else {
        stmt_names(ss[0]) + stmts_names(ss.drop_first())
    }
}

#[via_fn]
proof fn stmt_names_dec(s: Stmt) {
    match s.raw_stmt {
        RawStmt::StmtGroup(sg) => {
            assert(stmts_size(sg.0@) < stmt_size(s));
        },
        RawStmt::When(w) => {
            assert(stmts_size(w.then_body.0@) < stmt_size(s));
            match w.else_body {
                Option::Some(eg) => {
                    assert(stmts_size(eg.0@) < stmt_size(s));
                },
                Option::None => {},
            }
        },
        _ => {},
    }
}

#[via_fn]
proof fn stmts_names_dec(ss: Seq<Stmt>) {
    if ss.len() != 0 {
        lemma_stmt_size_mem(ss, 0);
        lemma_stmts_size_pos(ss.drop_first());
        assert(stmts_size(ss) == stmt_size(ss[0]) + stmts_size(ss.drop_first()));
    }
}

/// The names of a module's ports.
pub open spec fn port_names(ps: Seq<Port>) -> Seq<Seq<char>> {
    ps.map_values(|p: Port| p.bind.0@)
}

/// Every name a module declares: its ports, then its body's bindings.
pub open spec fn module_names(m: Module) -> Seq<Seq<char>> {
    port_names(m.ports@) + stmts_names(m.stmts.0@)
}

/// How a lookup behaves after one more binding is declared: earlier
/// declarations are never shadowed.
proof fn lemma_lookup_push(env: Seq<TypeBind>, b: TypeBind, n: Seq<char>)
    ensures
        spec_lookup(env.push(b), n) == (if spec_declared(env, n) {
            spec_lookup(env, n)
        } else if b.0@ == n {
            Some(b.1)
        } else {
            None::<Type>
        }),
    decreases env.len(),
{
    if env.len() == 0 {
        assert(env.push(b) =~= seq![b]);
        assert(seq![b][0] == b);
        assert(seq![b].drop_first() =~= Seq::<TypeBind>::empty());
        assert(spec_lookup(Seq::<TypeBind>::empty(), n) is None);
        assert(spec_lookup(env, n) is None);
    } else {
        assert(env.push(b)[0] == env[0]);
        assert(env.push(b).drop_first() =~= env.drop_first().push(b));
        lemma_lookup_push(env.drop_first(), b, n);
        if env[0].0@ == n {
            assert(spec_lookup(env, n) == Some(env[0].1));
            assert(spec_lookup(env.push(b), n) == Some(env[0].1));
        } else {
            assert(spec_lookup(env, n) == spec_lookup(env.drop_first(), n));
            assert(spec_lookup(env.push(b), n) == spec_lookup(env.drop_first().push(b), n));
        }
    }
}

/// How a lookup behaves after the first binding of `name` is retyped.
proof fn lemma_lookup_update(env: Seq<TypeBind>, name: Seq<char>, t: Type, n: Seq<char>)
    ensures
        spec_lookup(spec_update(env, name, t), n) == (if n == name && spec_declared(env, name) {
            Some(t)
        } else {
            spec_lookup(env, n)
        }),
    decreases env.len(),
{
    if env.len() == 0 {
    } else if env[0].0@ == name {
        let u = seq![TypeBind(env[0].0, t)] + env.drop_first();
        assert(u[0] == TypeBind(env[0].0, t));
        assert(u.drop_first() =~= env.drop_first());
        if n != name {
            assert(spec_lookup(env, n) == spec_lookup(env.drop_first(), n));
        }
    } else {
        let u = seq![env[0]] + spec_update(env.drop_first(), name, t);
        assert(u[0] == env[0]);
        assert(u.drop_first() =~= spec_update(env.drop_first(), name, t));
        lemma_lookup_update(env.drop_first(), name, t, n);
        if env[0].0@ == n {
            assert(spec_lookup(env, n) == Some(env[0].1));
            assert(spec_lookup(u, n) == Some(env[0].1));
        } else {
            assert(spec_lookup(env, n) == spec_lookup(env.drop_first(), n));
            assert(spec_lookup(u, n) == spec_lookup(spec_update(env.drop_first(), name, t), n));
        }
    }
}

/// A sweep with nothing to report means every binding is resolved.
proof fn lemma_sweep_empty(env: Seq<TypeBind>)
    requires
        spec_pending_diags(env).len() == 0,
    ensures
        env_resolved(env),
    decreases env.len(),
{
    if env.len() != 0 {
        lemma_sweep_empty(env.drop_first());
        assert forall|i: int| 0 <= i < env.len() implies (#[trigger] env[i]).1.is_resolved() by {
            if i > 0 {
                assert(env.drop_first()[i - 1] == env[i]);
            }
        }
    }
}

proof fn lemma_declared_assign_monotone(nm: String, rt: Option<Type>, env: Seq<TypeBind>, n: Seq<char>)
    requires
        spec_declared(env, n),
    ensures
        spec_declared(spec_assign_env(nm, rt, env), n),
{
    match spec_lookup(env, nm@) {
        Some(t) => {
            if !t.is_resolved() {
                match rt {
                    Some(te) => match te.spec_resolved_width() {
                        Option::Some(tw) => {
                            lemma_lookup_update(env, nm@, spec_with_width(t, tw), n);
                        },
                        Option::None => {},
                    },
                    None => {},
                }
            }
        },
        None => {
            match rt {
                Some(te) => {
                    lemma_lookup_push(env, TypeBind(nm, te), n);
                },
                None => {},
            }
        },
    }
}

proof fn lemma_declared_stmt_monotone(s: Stmt, env: Seq<TypeBind>, n: Seq<char>)
    requires
        spec_declared(env, n),
    ensures
        spec_declared(spec_infer_stmt(s, env).0, n),
    decreases stmt_size(s), 1nat,
{
    match s.raw_stmt {
        RawStmt::WireDef(b) => {
            lemma_lookup_push(env, b, n);
        },
        RawStmt::MemDef(b) => {
            lemma_lookup_push(env, b, n);
        },
        RawStmt::Node(nm, v) => {
            let r = spec_infer_expr(v, env);
            lemma_declared_assign_monotone(nm, r.0, env, n);
        },
        RawStmt::Inst(nm, v) => {
            let r = spec_infer_expr(v, env);
            lemma_declared_assign_monotone(nm, r.0, env, n);
        },
        RawStmt::RegDef(b, next, _) => {
            let r = spec_infer_expr(next, env);
            if !spec_declared(env, b.0@) {
                if b.1.is_resolved() {
                    lemma_lookup_push(env, b, n);
                } else {
                    match r.0 {
                        Some(t) => match t.spec_resolved_width() {
                            Option::Some(tw) => {
                                lemma_lookup_push(env, TypeBind(b.0, spec_with_width(b.1, tw)), n);
                            },
                            Option::None => {
                                lemma_lookup_push(env, b, n);
                            },
                        },
                        None => {
                            lemma_lookup_push(env, b, n);
                        },
                    }
                }
            }
        },
        RawStmt::Connect(_, _) => {},
        RawStmt::When(w) => {
            lemma_declared_stmts_monotone(w.then_body.0@, env, n);
            let rt = spec_infer_stmts(w.then_body.0@, env);
            match w.else_body {
                Option::Some(g) => {
                    lemma_declared_stmts_monotone(g.0@, rt.0, n);
                },
                Option::None => {},
            }
        },
        RawStmt::StmtGroup(sg) => {
            lemma_declared_stmts_monotone(sg.0@, env, n);
        },
    }
}

proof fn lemma_declared_stmts_monotone(ss: Seq<Stmt>, env: Seq<TypeBind>, n: Seq<char>)
    requires
        spec_declared(env, n),
    ensures
        spec_declared(spec_infer_stmts(ss, env).0, n),
    decreases stmts_size(ss), 0nat,
{
    if ss.len() != 0 {
        lemma_stmt_size_mem(ss, 0);
        lemma_stmts_size_pos(ss.drop_first());
        lemma_declared_stmt_monotone(ss[0], env, n);
        lemma_declared_stmts_monotone(ss.drop_first(), spec_infer_stmt(ss[0], env).0, n);
    }
}

/// Totality of one statement: a diagnostic-free run declares every name
/// the statement introduces.
proof fn lemma_stmt_total(s: Stmt, env: Seq<TypeBind>)
    requires
        spec_infer_stmt(s, env).1.len() == 0,
    ensures
        forall|k: int|
            0 <= k < stmt_names(s).len() ==> spec_declared(
                spec_infer_stmt(s, env).0,
                #[trigger] stmt_names(s)[k],
            ),
    decreases stmt_size(s), 1nat,
{
    match s.raw_stmt {
        RawStmt::WireDef(b) => {
            lemma_lookup_push(env, b, b.0@);
            assert(stmt_names(s) =~= seq![b.0@]);
            assert(spec_declared(spec_infer_stmt(s, env).0, b.0@));
        },
        RawStmt::MemDef(b) => {
            lemma_lookup_push(env, b, b.0@);
            assert(stmt_names(s) =~= seq![b.0@]);
            assert(spec_declared(spec_infer_stmt(s, env).0, b.0@));
        },
        RawStmt::Node(nm, v) => {
            let r = spec_infer_expr(v, env);
            if spec_declared(env, nm@) {
                lemma_declared_assign_monotone(nm, r.0, env, nm@);
            } else if r.0 is Some {
                lemma_lookup_push(env, TypeBind(nm, r.0->Some_0), nm@);
            }
            assert(stmt_names(s) =~= seq![nm@]);
            assert(spec_declared(spec_infer_stmt(s, env).0, nm@));
        },
        RawStmt::Inst(nm, v) => {
            let r = spec_infer_expr(v, env);
            if spec_declared(env, nm@) {
                lemma_declared_assign_monotone(nm, r.0, env, nm@);
            } else if r.0 is Some {
                lemma_lookup_push(env, TypeBind(nm, r.0->Some_0), nm@);
            }
            assert(stmt_names(s) =~= seq![nm@]);
            assert(spec_declared(spec_infer_stmt(s, env).0, nm@));
        },
        RawStmt::RegDef(b, next, _) => {
            let r = spec_infer_expr(next, env);
            if !spec_declared(env, b.0@) {
                if b.1.is_resolved() {
                    lemma_lookup_push(env, b, b.0@);
                } else {
                    match r.0 {
                        Some(t) => match t.spec_resolved_width() {
                            Option::Some(tw) => {
                                lemma_lookup_push(
                                    env,
                                    TypeBind(b.0, spec_with_width(b.1, tw)),
                                    b.0@,
                                );
                            },
                            Option::None => {
                                lemma_lookup_push(env, b, b.0@);
                            },
                        },
                        None => {
                            lemma_lookup_push(env, b, b.0@);
                        },
                    }
                }
            }
            assert(stmt_names(s) =~= seq![b.0@]);
            assert(spec_declared(spec_infer_stmt(s, env).0, b.0@));
        },
        RawStmt::Connect(_, _) => {},
        RawStmt::When(w) => {
            let rt = spec_infer_stmts(w.then_body.0@, env);
            lemma_stmts_total(w.then_body.0@, env);
            let tn = stmts_names(w.then_body.0@);
            match w.else_body {
                Option::Some(g) => {
                    lemma_stmts_total(g.0@, rt.0);
                    assert forall|k: int| 0 <= k < tn.len() implies spec_declared(
                        spec_infer_stmt(s, env).0,
                        tn[k],
                    ) by {
                        lemma_declared_stmts_monotone(g.0@, rt.0, tn[k]);
                    }
                    assert forall|k: int|
                        0 <= k < stmt_names(s).len() implies spec_declared(
                        spec_infer_stmt(s, env).0,
                        #[trigger] stmt_names(s)[k],
                    ) by {
                        if k < tn.len() {
                            assert(stmt_names(s)[k] == tn[k]);
                        } else {
                            assert(stmt_names(s)[k] == stmts_names(g.0@)[k - tn.len()]);
                        }
                    }
                },
                Option::None => {
                    assert(stmt_names(s) =~= tn);
                    assert forall|k: int|
                        0 <= k < stmt_names(s).len() implies spec_declared(
                        spec_infer_stmt(s, env).0,
                        #[trigger] stmt_names(s)[k],
                    ) by {
                        assert(stmt_names(s)[k] == tn[k]);
                        assert(spec_declared(rt.0, tn[k]));
                    }
                },
            }
        },
        RawStmt::StmtGroup(sg) => {
            lemma_stmts_total(sg.0@, env);
            assert forall|k: int|
                0 <= k < stmt_names(s).len() implies spec_declared(
                spec_infer_stmt(s, env).0,
                #[trigger] stmt_names(s)[k],
            ) by {
                assert(stmt_names(s)[k] == stmts_names(sg.0@)[k]);
            }
        },
    }
}

proof fn lemma_stmts_total(ss: Seq<Stmt>, env: Seq<TypeBind>)
    requires
        spec_infer_stmts(ss, env).1.len() == 0,
    ensures
        forall|k: int|
            0 <= k < stmts_names(ss).len() ==> spec_declared(
                spec_infer_stmts(ss, env).0,
                #[trigger] stmts_names(ss)[k],
            ),
    decreases stmts_size(ss), 0nat,
{
    if ss.len() != 0 {
        lemma_stmt_size_mem(ss, 0);
        lemma_stmts_size_pos(ss.drop_first());
        let r0 = spec_infer_stmt(ss[0], env);
        let rr = spec_infer_stmts(ss.drop_first(), r0.0);
        lemma_stmt_total(ss[0], env);
        lemma_stmts_total(ss.drop_first(), r0.0);
        let n0 = stmt_names(ss[0]);
        assert forall|k: int| 0 <= k < stmts_names(ss).len() implies spec_declared(
            spec_infer_stmts(ss, env).0,
            #[trigger] stmts_names(ss)[k],
        ) by {
            if k < n0.len() {
                assert(stmts_names(ss)[k] == n0[k]);
                lemma_declared_stmts_monotone(ss.drop_first(), r0.0, n0[k]);
            } else {
                assert(stmts_names(ss)[k] == stmts_names(ss.drop_first())[k - n0.len()]);
            }
        }
    }
}

proof fn lemma_seed_total(ps: Seq<Port>, env: Seq<TypeBind>)
    requires
        spec_seed_ports(ps, env).1.len() == 0,
    ensures
        forall|k: int|
            0 <= k < ps.len() ==> spec_declared(
                spec_seed_ports(ps, env).0,
                #[trigger] port_names(ps)[k],
            ),
    decreases ps.len(),
{
    if ps.len() != 0 {
        let b = ps[0].bind;
        let r0 = spec_declare(b, env);
        lemma_seed_total(ps.drop_first(), r0.0);
        if !spec_declared(env, b.0@) {
            lemma_lookup_push(env, b, b.0@);
        }
        assert forall|k: int| 0 <= k < ps.len() implies spec_declared(
            spec_seed_ports(ps, env).0,
            #[trigger] port_names(ps)[k],
        ) by {
            if k == 0 {
                assert(port_names(ps)[0] == b.0@);
                lemma_declared_seed_monotone(ps.drop_first(), r0.0, b.0@);
            } else {
                assert(port_names(ps)[k] == port_names(ps.drop_first())[k - 1]);
            }
        }
    }
}

proof fn lemma_declared_seed_monotone(ps: Seq<Port>, env: Seq<TypeBind>, n: Seq<char>)
    requires
        spec_declared(env, n),
    ensures
        spec_declared(spec_seed_ports(ps, env).0, n),
    decreases ps.len(),
{
    if ps.len() != 0 {
        let b = ps[0].bind;
        if !spec_declared(env, b.0@) {
            lemma_lookup_push(env, b, n);
        }
        lemma_declared_seed_monotone(ps.drop_first(), spec_declare(b, env).0, n);
    }
}

/// Soundness of inference: when a module's run reports no diagnostics,
/// the environment it returns binds every name the module declares —
/// every port and every binding introduced anywhere in its body — and
/// each of them to a type with a concrete (and, being unsigned,
/// non-negative) width.
pub proof fn lemma_inference_soundness(m: Module)
    ensures
        spec_infer_module(m).1.len() == 0 ==> env_resolved(spec_infer_module(m).0),
        spec_infer_module(m).1.len() == 0 ==> forall|k: int|
            0 <= k < module_names(m).len() ==> spec_declared(
                spec_infer_module(m).0,
                #[trigger] module_names(m)[k],
            ),
{
    let rp = spec_seed_ports(m.ports@, Seq::<TypeBind>::empty());
    let rb = spec_infer_stmts(m.stmts.0@, rp.0);
    if spec_infer_module(m).1.len() == 0 {
        assert(rp.1.len() == 0 && rb.1.len() == 0 && spec_pending_diags(rb.0).len() == 0);
        lemma_sweep_empty(rb.0);
        lemma_seed_total(m.ports@, Seq::<TypeBind>::empty());
        lemma_stmts_total(m.stmts.0@, rp.0);
        let pn = port_names(m.ports@);
        assert forall|k: int| 0 <= k < module_names(m).len() implies spec_declared(
            spec_infer_module(m).0,
            #[trigger] module_names(m)[k],
        ) by {
            if k < pn.len() {
                assert(module_names(m)[k] == pn[k]);
                lemma_declared_stmts_monotone(m.stmts.0@, rp.0, pn[k]);
            } else {
                assert(module_names(m)[k] == stmts_names(m.stmts.0@)[k - pn.len()]);
            }
        }
    }
}

/// Diagnostics accumulate: a scope's report is the first statement's
/// report followed by the report of the remaining statements, evaluated
/// in the updated environment — one failing statement never suppresses
/// the diagnostics of the statements after it.
pub proof fn lemma_diagnostics_accumulate(ss: Seq<Stmt>, env: Seq<TypeBind>)
    requires
        ss.len() > 0,
    ensures
        spec_infer_stmts(ss, env).1 == spec_infer_stmt(ss[0], env).1 + spec_infer_stmts(
            ss.drop_first(),
            spec_infer_stmt(ss[0], env).0,
        ).1,
{
}

/// The width algebra and the lowering engine's operator table stay in
/// lock-step: every operator application the width algebra accepts is
/// one the lowering engine renders, for every operator except `Head`
/// and `Tail`, whose slice rendering needs the operand's width and is
/// deliberately left an unsupported construct.
pub proof fn lemma_rule_tables_agree(
    op: Primop,
    ps: Seq<Expr>,
    ts: Seq<Type>,
    texts: Seq<Seq<char>>,
)
    requires
        !(op is Head),
        !(op is Tail),
        spec_op_type(op, ts, spec_lits_of(ps)) is Some,
        ts.len() == ps.len(),
        texts.len() == ps.len(),
    ensures
        spec_lower_primop(op, ps, texts) is Ok,
{
    let lits = spec_lits_of(ps);
    if ps.len() >= 2 {
        assert(lits[1] == spec_lit_value(ps[1]));
    }
    if ps.len() >= 3 {
        assert(lits[2] == spec_lit_value(ps[2]));
    }
}

/// Diagnostics accumulate across modules as well: a circuit's report is
/// the first module's report followed by the rest's.
pub proof fn lemma_module_diagnostics_accumulate(ms: Seq<Module>)
    requires
        ms.len() > 0,
    ensures
        spec_circuit_diags(ms) == spec_infer_module(ms[0]).1 + spec_circuit_diags(
            ms.drop_first(),
        ),
{
}

} // verus!
