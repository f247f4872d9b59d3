use vstd::prelude::*;
use vstd::string::StringExecFns;
use crate::ir::{Circuit, Dir, Expr, Lit, Module, PosInfo, Port, Primop, RawStmt, Stmt, StmtGroup, TypeBind};
use crate::ir::{expr_size, exprs_size, lemma_expr_size_mem, lemma_exprs_size_pos};
use crate::ir::{lemma_stmt_size_mem, lemma_stmts_size_pos, stmt_size, stmts_size};
use crate::ir::{lemma_expr_size_pos, lemma_exprs_size_skip, lemma_stmts_size_skip};
use crate::ir::{lit_value, spec_lit_value};
use rayon::iter::{IntoParallelRefIterator, ParallelIterator};
use crate::text::{dec_seq, dec_string};

verus! {

/// The IR variants whose lowering rule is not defined for this core.
#[derive(Clone, Copy, PartialEq, Eq, Structural, Debug)]
pub enum Construct {
    RegDef,
    MemDef,
    SubField,
    SubIndex,
    SubAccess,
    Head,
    Tail,
}

/// Lowering failures: an unsupported construct, or a circuit handed over
/// without the type check having resolved every width and arity first.
#[derive(Clone, Copy, PartialEq, Eq, Structural, Debug)]
pub enum LowerError {
    Unsupported(Construct),
    FatalPrecondition,
}

/// The pass configuration of the Verilog lowering engine. Lowering is a
/// pure function of the circuit, so the configuration carries no state.
pub struct GenVerilog();

/// The abstract value of a lowering result: the text it produced, or the
/// error it stopped on.
pub open spec fn res_view(r: Result<String, LowerError>) -> Result<Seq<char>, LowerError> {
    match r {
        Ok(s) => Ok(s@),
        Err(e) => Err(e),
    }
}

pub open spec fn opt_str_view(r: Option<&str>) -> Option<Seq<char>> {
    match r {
        Some(s) => Some(s@),
        None => None,
    }
}

/// The rendering of a name/type binding: nothing for a zero-width signal,
/// a bare name for one bit, and a `[w-1:0]` range for wider signals. The
/// inclusive high index is one less than the width; `[w:0]` would declare
/// one extra bit.
pub open spec fn spec_lower_bind(b: TypeBind) -> Result<Seq<char>, LowerError> {
    match b.1.spec_resolved_width() {
        Option::None => Err(LowerError::FatalPrecondition),
        Option::Some(w) => if w == 0 {
            Ok(Seq::<char>::empty())
        } else if w == 1 {
            Ok(b.0@)
        } else {
            Ok("["@ + dec_seq((w - 1) as nat) + ":0]\t"@ + b.0@)
        },
    }
}

pub open spec fn spec_lower_dir(d: Dir) -> Seq<char> {
    match d {
        Dir::Input => "input"@,
        Dir::Output => "output"@,
    }
}

/// A port line: a tab, the direction keyword, a space, and the binding.
pub open spec fn spec_lower_port(p: Port) -> Result<Seq<char>, LowerError> {
    match spec_lower_bind(p.bind) {
        Ok(b) => Ok("\t"@ + spec_lower_dir(p.dir) + " "@ + b),
        Err(e) => Err(e),
    }
}

/// Port lines joined by `,\n`, stopping at the first failing port.
pub open spec fn spec_lower_ports(ps: Seq<Port>) -> Result<Seq<char>, LowerError>
    decreases ps.len(),
{
    if ps.len() == 0 {
        Ok(Seq::<char>::empty())
    } else if ps.len() == 1 {
        spec_lower_port(ps[0])
    } else {
        match (spec_lower_port(ps[0]), spec_lower_ports(ps.drop_first())) {
            (Ok(a), Ok(b)) => Ok(a + ",\n"@ + b),
            (Err(e), _) => Err(e),
            (_, Err(e)) => Err(e),
        }
    }
}

/// The source-location comment appended to a statement line, or nothing.
pub open spec fn spec_pos_suffix(p: Option<PosInfo>) -> Seq<char> {
    match p {
        Option::None => Seq::<char>::empty(),
        Option::Some(pi) => "\t@[\""@ + pi.file@ + "\":"@ + dec_seq(pi.line as nat) + ":"@
            + dec_seq(pi.col as nat) + "]"@,
    }
}

/// The Verilog infix symbol of a binary operator, if it has one. The
/// static and dynamic shifts share the shift symbols: the amount operand
/// is rendered like any other expression.
pub open spec fn spec_infix_sym(op: Primop) -> Option<Seq<char>> {
    match op {
        Primop::Add => Some("+"@),
        Primop::Sub => Some("-"@),
        Primop::Mul => Some("*"@),
        Primop::Div => Some("/"@),
        Primop::Mod => Some("%"@),
        Primop::Lt => Some("<"@),
        Primop::Leq => Some("<="@),
        Primop::Gt => Some(">"@),
        Primop::Geq => Some(">="@),
        Primop::Eq => Some("=="@),
        Primop::Neq => Some("!="@),
        Primop::Shl => Some("<<"@),
        Primop::Shr => Some(">>"@),
        Primop::Dshl => Some("<<"@),
        Primop::Dshr => Some(">>"@),
        Primop::And => Some("&"@),
        Primop::Or => Some("|"@),
        Primop::Xor => Some("^"@),
        _ => None,
    }
}

/// The Verilog prefix symbol of a unary operator, if it has one; the
/// reductions apply their symbol to the whole operand.
pub open spec fn spec_prefix_sym(op: Primop) -> Option<Seq<char>> {
    match op {
        Primop::Not => Some("~"@),
        Primop::Neg => Some("-"@),
        Primop::Andr => Some("&"@),
        Primop::Orr => Some("|"@),
        Primop::Xorr => Some("^"@),
        _ => None,
    }
}

/// The reinterpretation casts and `Pad` keep the operand's bit pattern:
/// they lower to the operand's own text.
pub open spec fn spec_is_cast(op: Primop) -> bool {
    op is AsUInt || op is AsSInt || op is AsClock || op is Cvt
}

/// A literal renders as `<width>'d<value>` (signed: `'sd`).
pub open spec fn spec_lower_lit(l: Lit) -> Result<Seq<char>, LowerError> {
    match l.ty.spec_resolved_width() {
        Option::None => Err(LowerError::FatalPrecondition),
        Option::Some(w) => Ok(
            dec_seq(w as nat) + (if l.ty.spec_is_signed() {
                "'sd"@
            } else {
                "'d"@
            }) + dec_seq(l.value as nat),
        ),
    }
}

/// The text of an expression, or the error that stops its lowering.
/// Aggregate accesses are unsupported here; an operator applied to the
/// wrong number of operands means the circuit was never type checked.
pub open spec fn spec_lower_expr(e: Expr) -> Result<Seq<char>, LowerError>
    decreases expr_size(e), 1nat,
        via spec_lower_expr_dec
{
    match e {
        Expr::Literal(l) => spec_lower_lit(l),
        Expr::Ref(id) => Ok(id@),
        Expr::SubField(_, _) => Err(LowerError::Unsupported(Construct::SubField)),
        Expr::SubIndex(_, _) => Err(LowerError::Unsupported(Construct::SubIndex)),
        Expr::SubAccess(_, _) => Err(LowerError::Unsupported(Construct::SubAccess)),
        Expr::Mux(c, t, f) => match (spec_lower_expr(*c), spec_lower_expr(*t), spec_lower_expr(
            *f,
        )) {
            (Ok(a), Ok(b), Ok(d)) => Ok("("@ + a + ") ? "@ + b + " : "@ + d),
            (Err(er), _, _) => Err(er),
            (_, Err(er), _) => Err(er),
            (_, _, Err(er)) => Err(er),
        },
        Expr::Primop(op, ps) => match spec_lower_operands(ps@) {
            Err(er) => Err(er),
            Ok(ts) => spec_lower_primop(op, ps@, ts),
        },
    }
}

/// The texts of all operands, first failure first.
pub open spec fn spec_lower_operands(es: Seq<Expr>) -> Result<Seq<Seq<char>>, LowerError>
    decreases exprs_size(es), 0nat,
        via spec_lower_operands_dec
{
    if es.len() == 0 {
        Ok(Seq::<Seq<char>>::empty())
    } else {
        match (spec_lower_expr(es[0]), spec_lower_operands(es.drop_first())) {
            (Ok(a), Ok(b)) => Ok(seq![a] + b),
            (Err(er), _) => Err(er),
            (_, Err(er)) => Err(er),
        }
    }
}

#[via_fn]
proof fn spec_lower_expr_dec(e: Expr) {
    match e {
        Expr::Primop(op, ps) => {
            assert(exprs_size(ps@) < expr_size(e));
        },
        _ => {},
    }
}

#[via_fn]
proof fn spec_lower_operands_dec(es: Seq<Expr>) {
    if es.len() != 0 {
        lemma_expr_size_mem(es, 0);
        lemma_exprs_size_pos(es.drop_first());
        assert(exprs_size(es) == expr_size(es[0]) + exprs_size(es.drop_first()));
    }
}

/// The form an operator gives to its already-lowered operands.
pub open spec fn spec_lower_primop(op: Primop, ps: Seq<Expr>, ts: Seq<Seq<char>>) -> Result<
    Seq<char>,
    LowerError,
> {
    if spec_infix_sym(op) is Some {
        if ts.len() != 2 {
            Err(LowerError::FatalPrecondition)
        } else {
            Ok(ts[0] + " "@ + spec_infix_sym(op)->Some_0 + " "@ + ts[1])
        }
    } else if spec_prefix_sym(op) is Some {
        if ts.len() != 1 {
            Err(LowerError::FatalPrecondition)
        } else {
            Ok(spec_prefix_sym(op)->Some_0 + ts[0])
        }
    } else if spec_is_cast(op) {
        if ts.len() != 1 {
            Err(LowerError::FatalPrecondition)
        } else {
            Ok(ts[0])
        }
    } else if op is Pad {
        if ts.len() != 2 {
            Err(LowerError::FatalPrecondition)
        } else {
            Ok(ts[0])
        }
    } else if op is Cat {
        if ts.len() != 2 {
            Err(LowerError::FatalPrecondition)
        } else {
            Ok("{"@ + ts[0] + ", "@ + ts[1] + "}"@)
        }
    } else if op is Bits {
        if ts.len() != 3 {
            Err(LowerError::FatalPrecondition)
        } else {
            match (spec_lit_value(ps[1]), spec_lit_value(ps[2])) {
                (Some(hi), Some(lo)) => Ok(
                    ts[0] + "["@ + dec_seq(hi as nat) + ":"@ + dec_seq(lo as nat) + "]"@,
                ),
                _ => Err(LowerError::FatalPrecondition),
            }
        }
    } else if op is Head {
        Err(LowerError::Unsupported(Construct::Head))
    } else {
        Err(LowerError::Unsupported(Construct::Tail))
    }
}

/// The destination a statement drives, if it is an assignment.
pub open spec fn spec_assign_target(s: Stmt) -> Option<Seq<char>> {
    match s.raw_stmt {
        RawStmt::Node(name, _) => Some(name@),
        RawStmt::Inst(name, _) => Some(name@),
        RawStmt::Connect(name, _) => Some(name@),
        _ => None,
    }
}

/// Whether a later statement of the same scope drives the same
/// destination as the first one; if so the first is not emitted
/// (last-statement-wins).
pub open spec fn spec_overridden(ss: Seq<Stmt>) -> bool {
    &&& ss.len() > 0
    &&& spec_assign_target(ss[0]) is Some
    &&& exists|j: int|
        1 <= j < ss.len() && #[trigger] spec_assign_target(ss[j]) == spec_assign_target(ss[0])
}

/// The lowering of one scope: statements in declaration order, each
/// suppressed when a later statement of the same scope overrides it.
pub open spec fn spec_lower_stmts(ss: Seq<Stmt>) -> Result<Seq<char>, LowerError>
    decreases stmts_size(ss), 0nat,
        via spec_lower_stmts_dec
{
    if ss.len() == 0 {
        Ok(Seq::<char>::empty())
    } else {
        let head = if spec_overridden(ss) {
            Ok(Seq::<char>::empty())
        } else {
            spec_lower_stmt(ss[0])
        };
        match (head, spec_lower_stmts(ss.drop_first())) {
            (Ok(a), Ok(b)) => Ok(a + b),
            (Err(er), _) => Err(er),
            (_, Err(er)) => Err(er),
        }
    }
}

/// The lowering of a single statement, its source location appended.
pub open spec fn spec_lower_stmt(s: Stmt) -> Result<Seq<char>, LowerError>
    decreases stmt_size(s), 1nat,
        via spec_lower_stmt_dec
{
    match s.raw_stmt {
        RawStmt::StmtGroup(sg) => spec_lower_stmts(sg.0@),
        RawStmt::WireDef(b) => match spec_lower_bind(b) {
            Ok(t) => Ok("\twire "@ + t + ";"@ + spec_pos_suffix(s.pos) + "\n"@),
            Err(er) => Err(er),
        },
        RawStmt::RegDef(_, _, _) => Err(LowerError::Unsupported(Construct::RegDef)),
        RawStmt::MemDef(_) => Err(LowerError::Unsupported(Construct::MemDef)),
        RawStmt::Inst(name, value) => match spec_lower_expr(value) {
            Ok(t) => Ok(
                "\tassign "@ + name@ + " = "@ + t + ";"@ + spec_pos_suffix(s.pos) + "\n"@,
            ),
            Err(er) => Err(er),
        },
        RawStmt::Node(name, value) => match spec_lower_expr(value) {
            Ok(t) => Ok(
                "\tassign "@ + name@ + " = "@ + t + ";"@ + spec_pos_suffix(s.pos) + "\n"@,
            ),
            Err(er) => Err(er),
        },
        RawStmt::Connect(name, value) => match spec_lower_expr(value) {
            Ok(t) => Ok(
                "\tassign "@ + name@ + " = "@ + t + ";"@ + spec_pos_suffix(s.pos) + "\n"@,
            ),
            Err(er) => Err(er),
        },
        RawStmt::When(w) => {
            let cond = spec_lower_expr(w.cond);
            let tbody = spec_lower_stmts(w.then_body.0@);
            match (cond, tbody) {
                (Ok(c), Ok(t)) => match w.else_body {
                    Option::None => Ok(
                        "\tif ("@ + c + ")\n"@ + t + "\tend"@ + spec_pos_suffix(s.pos) + "\n"@,
                    ),
                    Option::Some(eg) => match spec_lower_stmts(eg.0@) {
                        Ok(et) => Ok(
                            "\tif ("@ + c + ")\n"@ + t + "\telse\n"@ + et + "\tend"@
                                + spec_pos_suffix(s.pos) + "\n"@,
                        ),
                        Err(er) => Err(er),
                    },
                },
                (Err(er), _) => Err(er),
                (_, Err(er)) => Err(er),
            }
        },
    }
}

#[via_fn]
proof fn spec_lower_stmts_dec(ss: Seq<Stmt>) {
    if ss.len() != 0 {
        lemma_stmt_size_mem(ss, 0);
        lemma_stmts_size_pos(ss.drop_first());
        assert(stmts_size(ss) == stmt_size(ss[0]) + stmts_size(ss.drop_first()));
    }
}

#[via_fn]
proof fn spec_lower_stmt_dec(s: Stmt) {
    match s.raw_stmt {
        RawStmt::StmtGroup(sg) => {
            assert(stmts_size(sg.0@) < stmt_size(s));
        },
        RawStmt::When(w) => {
            assert(stmts_size(w.then_body.0@) < stmt_size(s));
            match w.else_body {
                Option::Some(eg) => {
                    assert(stmts_size(eg.0@) < stmt_size(s));
                },
                Option::None => {},
            }
        },
        _ => {},
    }
}

/// One module block: header, port list, body, `endmodule`.
pub open spec fn spec_lower_module(m: Module) -> Result<Seq<char>, LowerError> {
    match (spec_lower_ports(m.ports@), spec_lower_stmts(m.stmts.0@)) {
        (Ok(p), Ok(b)) => Ok("module "@ + m.id@ + "(\n"@ + p + "\n);\n"@ + b + "endmodule"@),
        (Err(er), _) => Err(er),
        (_, Err(er)) => Err(er),
    }
}

/// Module blocks joined by one blank line, stopping at the first failure.
pub open spec fn spec_lower_modules(ms: Seq<Module>) -> Result<Seq<char>, LowerError>
    decreases ms.len(),
{
    if ms.len() == 0 {
        Ok(Seq::<char>::empty())
    } else if ms.len() == 1 {
        spec_lower_module(ms[0])
    } else {
        match (spec_lower_module(ms[0]), spec_lower_modules(ms.drop_first())) {
            (Ok(a), Ok(b)) => Ok(a + "\n\n"@ + b),
            (Err(er), _) => Err(er),
            (_, Err(er)) => Err(er),
        }
    }
}

/// The whole circuit's Verilog text.
pub open spec fn spec_lower_circuit(c: Circuit) -> Result<Seq<char>, LowerError> {
    spec_lower_modules(c.modules@)
}

/// The abstract values of a vector of rendered pieces.
pub open spec fn strs_view(v: Seq<String>) -> Seq<Seq<char>> {
    v.map_values(|s: String| s@)
}

/// Renders a name/type binding.
pub fn lower_bind(b: &TypeBind) -> (r: Result<String, LowerError>)
    ensures
        res_view(r) == spec_lower_bind(*b),
{
    match b.1.resolved_width() {
        Option::None => Err(LowerError::FatalPrecondition),
        Option::Some(w) => {
            if w == 0 {
                Ok(String::new())
            } else if w == 1 {
                Ok(b.0.clone())
            } else {
                let mut s = "[".to_owned();
                let digits = dec_string(w - 1);
                s.append(digits.as_str());
                s.append(":0]\t");
                s.append(b.0.as_str());
                proof {
                    assert(s@ =~= "["@ + dec_seq((w - 1) as nat) + ":0]\t"@ + b.0@);
                }
                Ok(s)
            }
        },
    }
}

/// Renders one port line.
pub fn lower_port(p: &Port) -> (r: Result<String, LowerError>)
    ensures
        res_view(r) == spec_lower_port(*p),
{
    match lower_bind(&p.bind) {
        Err(e) => Err(e),
        Ok(b) => {
            let mut s = "\t".to_owned();
            match p.dir {
                Dir::Input => s.append("input"),
                Dir::Output => s.append("output"),
            }
            s.append(" ");
            s.append(b.as_str());
            proof {
                assert(s@ =~= "\t"@ + spec_lower_dir(p.dir) + " "@ + b@);
            }
            Ok(s)
        },
    }
}

/// Relies on rayon's `par_iter`/`map`/`collect`: an indexed parallel
/// iterator collected into a `Vec` is assembled by input position
/// (rayon's `collect_into_vec` machinery), so the output holds, at every
/// index, the closure's result for the input at that same index. The
/// closure only calls the verified `lower_port`.
#[verifier::external_body]
fn par_lower_ports(ps: &Vec<Port>) -> (r: Vec<Result<String, LowerError>>)
    ensures
        r@.len() == ps@.len(),
        forall|i: int|
            0 <= i < ps@.len() ==> res_view(#[trigger] r@[i]) == spec_lower_port(ps@[i]),
{
    ps.par_iter().map(|p| lower_port(p)).collect()
}

/// Joins already rendered port lines with `,\n`, first failure first.
fn join_ports_from(
    v: &Vec<Result<String, LowerError>>,
    i: usize,
    Ghost(ps): Ghost<Seq<Port>>,
) -> (r: Result<String, LowerError>)
    requires
        v@.len() == ps.len(),
        i <= ps.len(),
        forall|k: int|
            0 <= k < ps.len() ==> res_view(#[trigger] v@[k]) == spec_lower_port(ps[k]),
    ensures
        res_view(r) == spec_lower_ports(ps.skip(i as int)),
    decreases v@.len() - i,
{
    if i == v.len() {
        proof {
            assert(ps.skip(i as int) =~= Seq::<Port>::empty());
        }
        Ok(String::new())
    } else if i + 1 == v.len() {
        proof {
            assert(ps.skip(i as int)[0] == ps[i as int]);
            assert(ps.skip(i as int).len() == 1);
        }
        match &v[i] {
            Ok(s) => Ok(s.clone()),
            Err(e) => Err(*e),
        }
    } else {
        proof {
            assert(ps.skip(i as int)[0] == ps[i as int]);
            assert(ps.skip(i as int).drop_first() =~= ps.skip(i as int + 1));
        }
        let rest = join_ports_from(v, i + 1, Ghost(ps));
        match &v[i] {
            Err(e) => Err(*e),
            Ok(s) => match rest {
                Err(e2) => Err(e2),
                Ok(rs) => {
                    let mut out = s.clone();
                    out.append(",\n");
                    out.append(rs.as_str());
                    proof {
                        assert(out@ =~= s@ + ",\n"@ + rs@);
                    }
                    Ok(out)
                },
            },
        }
    }
}

/// Renders the full port list of a module.
pub fn lower_ports(ps: &Vec<Port>) -> (r: Result<String, LowerError>)
    ensures
        res_view(r) == spec_lower_ports(ps@),
{
    let v = par_lower_ports(ps);
    let r = join_ports_from(&v, 0, Ghost(ps@));
    proof {
        assert(ps@.skip(0) =~= ps@);
    }
    r
}

/// The source-location comment of a statement, or the empty string.
pub fn pos_suffix(p: &Option<PosInfo>) -> (r: String)
    ensures
        r@ == spec_pos_suffix(*p),
{
    match p {
        Option::None => String::new(),
        Option::Some(pi) => {
            let mut s = "\t@[\"".to_owned();
            s.append(pi.file.as_str());
            s.append("\":");
            let line_d = dec_string(pi.line);
            s.append(line_d.as_str());
            s.append(":");
            let col_d = dec_string(pi.col);
            s.append(col_d.as_str());
            s.append("]");
            proof {
                assert(s@ =~= "\t@[\""@ + pi.file@ + "\":"@ + dec_seq(pi.line as nat) + ":"@
                    + dec_seq(pi.col as nat) + "]"@);
            }
            s
        },
    }
}

fn infix_sym(op: &Primop) -> (r: Option<&'static str>)
    ensures
        opt_str_view(r) == spec_infix_sym(*op),
{
    match op {
        Primop::Add => Some("+"),
        Primop::Sub => Some("-"),
        Primop::Mul => Some("*"),
        Primop::Div => Some("/"),
        Primop::Mod => Some("%"),
        Primop::Lt => Some("<"),
        Primop::Leq => Some("<="),
        Primop::Gt => Some(">"),
        Primop::Geq => Some(">="),
        Primop::Eq => Some("=="),
        Primop::Neq => Some("!="),
        Primop::Shl => Some("<<"),
        Primop::Shr => Some(">>"),
        Primop::Dshl => Some("<<"),
        Primop::Dshr => Some(">>"),
        Primop::And => Some("&"),
        Primop::Or => Some("|"),
        Primop::Xor => Some("^"),
        _ => None,
    }
}

fn prefix_sym(op: &Primop) -> (r: Option<&'static str>)
    ensures
        opt_str_view(r) == spec_prefix_sym(*op),
{
    match op {
        Primop::Not => Some("~"),
        Primop::Neg => Some("-"),
        Primop::Andr => Some("&"),
        Primop::Orr => Some("|"),
        Primop::Xorr => Some("^"),
        _ => None,
    }
}

fn is_cast(op: &Primop) -> (r: bool)
    ensures
        r == spec_is_cast(*op),
{
    matches!(op, Primop::AsUInt | Primop::AsSInt | Primop::AsClock | Primop::Cvt)
}

/// Renders a literal.
fn lower_lit(l: &Lit) -> (r: Result<String, LowerError>)
    ensures
        res_view(r) == spec_lower_lit(*l),
{
    match l.ty.resolved_width() {
        Option::None => Err(LowerError::FatalPrecondition),
        Option::Some(w) => {
            let mut s = dec_string(w);
            if l.ty.is_signed() {
                s.append("'sd");
            } else {
                s.append("'d");
            }
            let digits = dec_string(l.value);
            s.append(digits.as_str());
            Ok(s)
        },
    }
}

/// Renders an expression.
pub fn lower_expr(e: &Expr) -> (r: Result<String, LowerError>)
    ensures
        res_view(r) == spec_lower_expr(*e),
    decreases expr_size(*e), 1nat,
{
    match e {
        Expr::Literal(l) => lower_lit(l),
        Expr::Ref(id) => Ok(id.clone()),
        Expr::SubField(_, _) => Err(LowerError::Unsupported(Construct::SubField)),
        Expr::SubIndex(_, _) => Err(LowerError::Unsupported(Construct::SubIndex)),
        Expr::SubAccess(_, _) => Err(LowerError::Unsupported(Construct::SubAccess)),
        Expr::Mux(c, t, f) => {
            let ca = match lower_expr(&**c) {
                Ok(x) => x,
                Err(er) => {
                    return Err(er);
                },
            };
            let ta = match lower_expr(&**t) {
                Ok(x) => x,
                Err(er) => {
                    return Err(er);
                },
            };
            let fa = match lower_expr(&**f) {
                Ok(x) => x,
                Err(er) => {
                    return Err(er);
                },
            };
            let mut s = "(".to_owned();
            s.append(ca.as_str());
            s.append(") ? ");
            s.append(ta.as_str());
            s.append(" : ");
            s.append(fa.as_str());
            proof {
                assert(s@ =~= "("@ + ca@ + ") ? "@ + ta@ + " : "@ + fa@);
            }
            Ok(s)
        },
        Expr::Primop(op, ps) => {
            proof {
                assert(ps@.skip(0) =~= ps@);
            }
            let ts = match lower_operands_from(ps, 0) {
                Ok(v) => v,
                Err(er) => {
                    return Err(er);
                },
            };
            lower_primop(op, ps, &ts)
        },
    }
}

/// Renders every operand, or stops at the first failing one.
fn lower_operands_from(ps: &Vec<Expr>, i: usize) -> (r: Result<Vec<String>, LowerError>)
    requires
        i <= ps@.len(),
    ensures
        (match r {
            Ok(v) => spec_lower_operands(ps@.skip(i as int)) == Ok::<_, LowerError>(
                strs_view(v@),
            ) && v@.len() == ps@.len() - i,
            Err(e) => spec_lower_operands(ps@.skip(i as int)) == Err::<Seq<Seq<char>>, _>(e),
        }),
    decreases exprs_size(ps@.skip(i as int)), 0nat,
{
    if i == ps.len() {
        proof {
            assert(ps@.skip(i as int) =~= Seq::<Expr>::empty());
            assert(strs_view(Seq::<String>::empty()) =~= Seq::<Seq<char>>::empty());
        }
        Ok(Vec::new())
    } else {
        proof {
            lemma_exprs_size_skip(ps@, i as int);
            lemma_expr_size_pos(ps@[i as int]);
            lemma_exprs_size_pos(ps@.skip(i as int + 1));
            assert(ps@.skip(i as int)[0] == ps@[i as int]);
            assert(ps@.skip(i as int).drop_first() =~= ps@.skip(i as int + 1));
        }
        let first = match lower_expr(&ps[i]) {
            Ok(t) => t,
            Err(er) => {
                return Err(er);
            },
        };
        let rest = match lower_operands_from(ps, i + 1) {
            Ok(v) => v,
            Err(er) => {
                return Err(er);
            },
        };
        let ghost rest_snap = rest@;
        let mut out = rest;
        out.insert(0, first);
        proof {
            assert(strs_view(out@) =~= seq![first@] + strs_view(rest_snap));
        }
        Ok(out)
    }
}

/// Applies an operator's output form to its rendered operands.
fn lower_primop(op: &Primop, ps: &Vec<Expr>, ts: &Vec<String>) -> (r: Result<String, LowerError>)
    requires
        ps@.len() == ts@.len(),
    ensures
        res_view(r) == spec_lower_primop(*op, ps@, strs_view(ts@)),
{
    if let Some(sym) = infix_sym(op) {
        if ts.len() != 2 {
            Err(LowerError::FatalPrecondition)
        } else {
            let mut s = ts[0].clone();
            s.append(" ");
            s.append(sym);
            s.append(" ");
            s.append(ts[1].as_str());
            proof {
                assert(s@ =~= ts@[0]@ + " "@ + spec_infix_sym(*op)->Some_0 + " "@ + ts@[1]@);
            }
            Ok(s)
        }
    } else if let Some(sym) = prefix_sym(op) {
        if ts.len() != 1 {
            Err(LowerError::FatalPrecondition)
        } else {
            let mut s = sym.to_owned();
            s.append(ts[0].as_str());
            proof {
                assert(s@ =~= spec_prefix_sym(*op)->Some_0 + ts@[0]@);
            }
            Ok(s)
        }
    } else if is_cast(op) {
        if ts.len() != 1 {
            Err(LowerError::FatalPrecondition)
        } else {
            Ok(ts[0].clone())
        }
    } else if matches!(op, Primop::Pad) {
        if ts.len() != 2 {
            Err(LowerError::FatalPrecondition)
        } else {
            Ok(ts[0].clone())
        }
    } else if matches!(op, Primop::Cat) {
        if ts.len() != 2 {
            Err(LowerError::FatalPrecondition)
        } else {
            let mut s = "{".to_owned();
            s.append(ts[0].as_str());
            s.append(", ");
            s.append(ts[1].as_str());
            s.append("}");
            proof {
                assert(s@ =~= "{"@ + ts@[0]@ + ", "@ + ts@[1]@ + "}"@);
            }
            Ok(s)
        }
    } else if matches!(op, Primop::Bits) {
        if ts.len() != 3 {
            Err(LowerError::FatalPrecondition)
        } else {
            let hi = lit_value(&ps[1]);
            let lo = lit_value(&ps[2]);
            match (hi, lo) {
                (Some(h), Some(l)) => {
                    let mut s = ts[0].clone();
                    s.append("[");
                    let hd = dec_string(h);
                    s.append(hd.as_str());
                    s.append(":");
                    let ld = dec_string(l);
                    s.append(ld.as_str());
                    s.append("]");
                    proof {
                        assert(s@ =~= ts@[0]@ + "["@ + dec_seq(h as nat) + ":"@ + dec_seq(
                            l as nat,
                        ) + "]"@);
                    }
                    Ok(s)
                },
                _ => Err(LowerError::FatalPrecondition),
            }
        }
    } else if matches!(op, Primop::Head) {
        Err(LowerError::Unsupported(Construct::Head))
    } else {
        Err(LowerError::Unsupported(Construct::Tail))
    }
}

/// The destination an assignment-like statement drives.
fn target_of<'a>(s: &'a Stmt) -> (r: Option<&'a String>)
    ensures
        (match r {
            Some(n) => spec_assign_target(*s) == Some(n@),
            None => spec_assign_target(*s) is None,
        }),
{
    match &s.raw_stmt {
        RawStmt::Node(name, _) => Some(name),
        RawStmt::Inst(name, _) => Some(name),
        RawStmt::Connect(name, _) => Some(name),
        _ => None,
    }
}

/// Whether a later statement of the same scope overrides statement `i`.
fn overridden_from(v: &Vec<Stmt>, i: usize) -> (r: bool)
    requires
        i < v@.len(),
    ensures
        r == spec_overridden(v@.skip(i as int)),
{
    let t0 = match target_of(&v[i]) {
        None => {
            proof {
                assert(v@.skip(i as int)[0] == v@[i as int]);
            }
            return false;
        },
        Some(n) => n,
    };
    let ghost suf = v@.skip(i as int);
    proof {
        assert(suf[0] == v@[i as int]);
    }
    let n = v.len();
    let mut j: usize = i + 1;
    while j < n
        invariant
            i < j <= v@.len(),
            n == v@.len(),
            v@.len() == suf.len() + i,
            suf == v@.skip(i as int),
            spec_assign_target(v@[i as int]) == Some(t0@),
            forall|k: int|
                i < k < j ==> #[trigger] spec_assign_target(v@[k]) != spec_assign_target(
                    v@[i as int],
                ),
        decreases v@.len() - j,
    {
        let found = match target_of(&v[j]) {
            Some(nj) => *nj == *t0,
            None => false,
        };
        if found {
            proof {
                let jj = j - i;
                assert(suf[jj as int] == v@[j as int]);
                assert(spec_assign_target(suf[jj as int]) == spec_assign_target(suf[0]));
                assert(spec_overridden(suf));
            }
            return true;
        }
        j = j + 1;
    }
    proof {
        assert forall|jj: int| 1 <= jj < suf.len() implies #[trigger] spec_assign_target(
            suf[jj],
        ) != spec_assign_target(suf[0]) by {
            assert(suf[jj] == v@[i + jj]);
        };
        assert(!spec_overridden(suf));
    }
    false
}

/// Renders the statements of one scope, starting at `i`, applying the
/// last-statement-wins rule within the scope.
fn lower_stmts_from(v: &Vec<Stmt>, i: usize) -> (r: Result<String, LowerError>)
    requires
        i <= v@.len(),
    ensures
        res_view(r) == spec_lower_stmts(v@.skip(i as int)),
    decreases stmts_size(v@.skip(i as int)), 0nat,
{
    if i == v.len() {
        proof {
            assert(v@.skip(i as int) =~= Seq::<Stmt>::empty());
        }
        return Ok(String::new());
    }
    proof {
        lemma_stmts_size_skip(v@, i as int);
        lemma_stmts_size_pos(v@.skip(i as int + 1));
        assert(v@.skip(i as int)[0] == v@[i as int]);
        assert(v@.skip(i as int).drop_first() =~= v@.skip(i as int + 1));
    }
    let over = overridden_from(v, i);
    let head = if over {
        Ok(String::new())
    } else {
        lower_stmt(&v[i])
    };
    let head_s = match head {
        Ok(h) => h,
        Err(er) => {
            return Err(er);
        },
    };
    let rest = match lower_stmts_from(v, i + 1) {
        Ok(t) => t,
        Err(er) => {
            return Err(er);
        },
    };
    let mut out = head_s;
    out.append(rest.as_str());
    Ok(out)
}

/// Renders a single statement.
pub fn lower_stmt(s: &Stmt) -> (r: Result<String, LowerError>)
    ensures
        res_view(r) == spec_lower_stmt(*s),
    decreases stmt_size(*s), 1nat,
{
    match &s.raw_stmt {
        RawStmt::StmtGroup(sg) => {
            proof {
                assert(sg.0@.skip(0) =~= sg.0@);
            }
            lower_stmts_from(&sg.0, 0)
        },
        RawStmt::WireDef(b) => {
            let bt = match lower_bind(b) {
                Ok(t) => t,
                Err(er) => {
                    return Err(er);
                },
            };
            let mut out = "\twire ".to_owned();
            out.append(bt.as_str());
            out.append(";");
            let p = pos_suffix(&s.pos);
            out.append(p.as_str());
            out.append("\n");
            proof {
                assert(out@ =~= "\twire "@ + bt@ + ";"@ + spec_pos_suffix(s.pos) + "\n"@);
            }
            Ok(out)
        },
        RawStmt::RegDef(_, _, _) => Err(LowerError::Unsupported(Construct::RegDef)),
        RawStmt::MemDef(_) => Err(LowerError::Unsupported(Construct::MemDef)),
        RawStmt::Inst(name, value) => assign_line(name, value, &s.pos),
        RawStmt::Node(name, value) => assign_line(name, value, &s.pos),
        RawStmt::Connect(name, value) => assign_line(name, value, &s.pos),
        RawStmt::When(w) => {
            let c = match lower_expr(&w.cond) {
                Ok(t) => t,
                Err(er) => {
                    return Err(er);
                },
            };
            proof {
                assert(w.then_body.0@.skip(0) =~= w.then_body.0@);
            }
            let tb = match lower_stmts_from(&w.then_body.0, 0) {
                Ok(t) => t,
                Err(er) => {
                    return Err(er);
                },
            };
            let mut out = "\tif (".to_owned();
            out.append(c.as_str());
            out.append(")\n");
            out.append(tb.as_str());
            match &w.else_body {
                Option::None => {
                    out.append("\tend");
                    let p = pos_suffix(&s.pos);
                    out.append(p.as_str());
                    out.append("\n");
                    proof {
                        assert(out@ =~= "\tif ("@ + c@ + ")\n"@ + tb@ + "\tend"@
                            + spec_pos_suffix(s.pos) + "\n"@);
                    }
                    Ok(out)
                },
                Option::Some(eg) => {
                    proof {
                        assert(eg.0@.skip(0) =~= eg.0@);
                    }
                    let et = match lower_stmts_from(&eg.0, 0) {
                        Ok(t) => t,
                        Err(er) => {
                            return Err(er);
                        },
                    };
                    out.append("\telse\n");
                    out.append(et.as_str());
                    out.append("\tend");
                    let p = pos_suffix(&s.pos);
                    out.append(p.as_str());
                    out.append("\n");
                    proof {
                        assert(out@ =~= "\tif ("@ + c@ + ")\n"@ + tb@ + "\telse\n"@ + et@
                            + "\tend"@ + spec_pos_suffix(s.pos) + "\n"@);
                    }
                    Ok(out)
                },
            }
        },
    }
}

/// Renders an `assign` line shared by `Node`, `Inst` and `Connect`.
fn assign_line(name: &String, value: &Expr, pos: &Option<PosInfo>) -> (r: Result<
    String,
    LowerError,
>)
    ensures
        (match spec_lower_expr(*value) {
            Ok(t) => res_view(r) == Ok::<Seq<char>, LowerError>(
                "\tassign "@ + name@ + " = "@ + t + ";"@ + spec_pos_suffix(*pos) + "\n"@,
            ),
            Err(er) => res_view(r) == Err::<Seq<char>, LowerError>(er),
        }),
{
    let t = match lower_expr(value) {
        Ok(t) => t,
        Err(er) => {
            return Err(er);
        },
    };
    let mut out = "\tassign ".to_owned();
    out.append(name.as_str());
    out.append(" = ");
    out.append(t.as_str());
    out.append(";");
    let p = pos_suffix(pos);
    out.append(p.as_str());
    out.append("\n");
    proof {
        assert(out@ =~= "\tassign "@ + name@ + " = "@ + t@ + ";"@ + spec_pos_suffix(*pos)
            + "\n"@);
    }
    Ok(out)
}

/// Renders one module block.
pub fn lower_module(m: &Module) -> (r: Result<String, LowerError>)
    ensures
        res_view(r) == spec_lower_module(*m),
{
    let ps = match lower_ports(&m.ports) {
        Ok(t) => t,
        Err(er) => {
            return Err(er);
        },
    };
    proof {
        assert(m.stmts.0@.skip(0) =~= m.stmts.0@);
    }
    let body = match lower_stmts_from(&m.stmts.0, 0) {
        Ok(t) => t,
        Err(er) => {
            return Err(er);
        },
    };
    let mut out = "module ".to_owned();
    out.append(m.id.as_str());
    out.append("(\n");
    out.append(ps.as_str());
    out.append("\n);\n");
    out.append(body.as_str());
    out.append("endmodule");
    proof {
        assert(out@ =~= "module "@ + m.id@ + "(\n"@ + ps@ + "\n);\n"@ + body@ + "endmodule"@);
    }
    Ok(out)
}

/// Relies on rayon's `par_iter`/`map`/`collect`: an indexed parallel
/// iterator collected into a `Vec` is assembled by input position
/// (rayon's `collect_into_vec` machinery), so the output holds, at every
/// index, the closure's result for the input at that same index. The
/// closure only calls the verified `lower_module`.
#[verifier::external_body]
fn par_lower_modules(ms: &Vec<Module>) -> (r: Vec<Result<String, LowerError>>)
    ensures
        r@.len() == ms@.len(),
        forall|i: int|
            0 <= i < ms@.len() ==> res_view(#[trigger] r@[i]) == spec_lower_module(ms@[i]),
{
    ms.par_iter().map(|m| lower_module(m)).collect()
}

/// Joins already rendered module blocks with a blank line.
fn join_modules_from(
    v: &Vec<Result<String, LowerError>>,
    i: usize,
    Ghost(ms): Ghost<Seq<Module>>,
) -> (r: Result<String, LowerError>)
    requires
        v@.len() == ms.len(),
        i <= ms.len(),
        forall|k: int|
            0 <= k < ms.len() ==> res_view(#[trigger] v@[k]) == spec_lower_module(ms[k]),
    ensures
        res_view(r) == spec_lower_modules(ms.skip(i as int)),
    decreases v@.len() - i,
{
    if i == v.len() {
        proof {
            assert(ms.skip(i as int) =~= Seq::<Module>::empty());
        }
        Ok(String::new())
    } else if i + 1 == v.len() {
        proof {
            assert(ms.skip(i as int)[0] == ms[i as int]);
            assert(ms.skip(i as int).len() == 1);
        }
        match &v[i] {
            Ok(s) => Ok(s.clone()),
            Err(e) => Err(*e),
        }
    } else {
        proof {
            assert(ms.skip(i as int)[0] == ms[i as int]);
            assert(ms.skip(i as int).drop_first() =~= ms.skip(i as int + 1));
        }
        let rest = join_modules_from(v, i + 1, Ghost(ms));
        match &v[i] {
            Err(e) => Err(*e),
            Ok(s) => match rest {
                Err(e2) => Err(e2),
                Ok(rs) => {
                    let mut out = s.clone();
                    out.append("\n\n");
                    out.append(rs.as_str());
                    proof {
                        assert(out@ =~= s@ + "\n\n"@ + rs@);
                    }
                    Ok(out)
                },
            },
        }
    }
}

/// The bracket convention: a binding of width `w > 1` renders its bit
/// range with the inclusive high index `w - 1` — never `w`, which would
/// declare one extra bit.
pub proof fn lemma_bracket_convention(b: TypeBind, w: u64)
    requires
        b.1.spec_resolved_width() == Some(w),
        w > 1,
    ensures
        spec_lower_bind(b) == Ok::<Seq<char>, LowerError>(
            "["@ + dec_seq((w - 1) as nat) + ":0]\t"@ + b.0@,
        ),
{
}

/// Determinism: any two results that satisfy the lowering contract for
/// the same circuit are identical, so the text cannot depend on the
/// schedule of the parallel map that produced it.
pub proof fn lemma_lower_deterministic(
    c: Circuit,
    r1: Result<String, LowerError>,
    r2: Result<String, LowerError>,
)
    requires
        res_view(r1) == spec_lower_circuit(c),
        res_view(r2) == spec_lower_circuit(c),
    ensures
        res_view(r1) == res_view(r2),
        r1 is Ok <==> r2 is Ok,
        r1 is Ok ==> r1->Ok_0@ == r2->Ok_0@,
{
}

/// Last-statement-wins: a scope holding two assignments to the same
/// destination lowers to the text of the second alone.
pub proof fn lemma_last_connect_wins(a: Stmt, b: Stmt)
    requires
        spec_assign_target(a) is Some,
        spec_assign_target(a) == spec_assign_target(b),
    ensures
        spec_lower_stmts(seq![a, b]) == spec_lower_stmts(seq![b]),
{
    let g = seq![a, b];
    let gb = seq![b];
    assert(spec_assign_target(g[1]) == spec_assign_target(g[0]));
    assert(spec_overridden(g));
    assert(g.drop_first() =~= gb);
    assert(gb.drop_first() =~= Seq::<Stmt>::empty());
    assert(!spec_overridden(gb));
    match spec_lower_stmt(b) {
        Ok(t) => {
            assert(t + Seq::<char>::empty() =~= t);
            assert(Seq::<char>::empty() + t =~= t);
        },
        Err(_) => {},
    }
}

/// A register or memory definition, or an aggregate access, is reported
/// as the unsupported construct it is — a recoverable value, not an
/// abort.
pub proof fn lemma_unsupported_stmt(s: Stmt)
    ensures
        s.raw_stmt is RegDef ==> spec_lower_stmt(s) == Err::<Seq<char>, LowerError>(
            LowerError::Unsupported(Construct::RegDef),
        ),
        s.raw_stmt is MemDef ==> spec_lower_stmt(s) == Err::<Seq<char>, LowerError>(
            LowerError::Unsupported(Construct::MemDef),
        ),
{
}

/// Every aggregate access expression lowers to the unsupported-construct
/// error naming its own variant.
pub proof fn lemma_unsupported_expr(e: Expr)
    ensures
        e is SubField ==> spec_lower_expr(e) == Err::<Seq<char>, LowerError>(
            LowerError::Unsupported(Construct::SubField),
        ),
        e is SubIndex ==> spec_lower_expr(e) == Err::<Seq<char>, LowerError>(
            LowerError::Unsupported(Construct::SubIndex),
        ),
        e is SubAccess ==> spec_lower_expr(e) == Err::<Seq<char>, LowerError>(
            LowerError::Unsupported(Construct::SubAccess),
        ),
{
}

impl Circuit {
    /// Lowers a type-checked circuit to structural Verilog text: module
    /// blocks in declaration order, joined by one blank line. Sibling
    /// modules are lowered in parallel and reassembled by position, so
    /// the text depends on the circuit alone.
    pub fn gen_verilog(&self, _pm: &GenVerilog) -> (r: Result<String, LowerError>)
        ensures
            res_view(r) == spec_lower_circuit(*self),
    {
        let v = par_lower_modules(&self.modules);
        let r = join_modules_from(&v, 0, Ghost(self.modules@));
        proof {
            assert(self.modules@.skip(0) =~= self.modules@);
        }
        r
    }
}

} // verus!
