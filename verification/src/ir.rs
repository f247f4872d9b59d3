use vstd::prelude::*;

verus! {

/// Direction of a module port.
#[derive(Clone, Copy, PartialEq, Eq, Structural, Debug)]
pub enum Dir {
    Input,
    Output,
}

/// A hardware value type: an unsigned or signed bit vector whose width may
/// still be unknown before inference has run, or a clock (always one bit).
#[derive(Clone, Copy, PartialEq, Eq, Structural, Debug)]
pub enum Type {
    Uint(Option<u64>),
    Sint(Option<u64>),
    Clock,
}

impl Type {
    /// The concrete bit width of this type, if it has one.
    pub open spec fn spec_resolved_width(&self) -> Option<u64> {
        match self {
            Type::Uint(w) => *w,
            Type::Sint(w) => *w,
            Type::Clock => Some(1u64),
        }
    }

    /// Executable form of `spec_resolved_width`.
    #[verifier::when_used_as_spec(spec_resolved_width)]
    pub fn resolved_width(&self) -> (r: Option<u64>)
        ensures
            r == self.spec_resolved_width(),
    {
        match self {
            Type::Uint(w) => *w,
            Type::Sint(w) => *w,
            Type::Clock => Some(1u64),
        }
    }

    /// A type is resolved once its width is concrete.
    pub open spec fn is_resolved(&self) -> bool {
        self.spec_resolved_width() is Some
    }

    /// Whether values of this type are interpreted as signed.
    pub open spec fn spec_is_signed(&self) -> bool {
        *self is Sint
    }

    /// Executable form of `spec_is_signed`.
    #[verifier::when_used_as_spec(spec_is_signed)]
    pub fn is_signed(&self) -> (r: bool)
        ensures
            r == self.spec_is_signed(),
    {
        matches!(self, Type::Sint(_))
    }
}

/// A named binding of an identifier to a type, as used by ports, wire and
/// register declarations, and the inference environment.
#[derive(Debug)]
pub struct TypeBind(pub String, pub Type);

impl TypeBind {
    /// A structurally equal copy of this binding.
    pub fn dup(&self) -> (r: TypeBind)
        ensures
            r == *self,
    {
        TypeBind(self.0.clone(), self.1)
    }
}

/// An opaque source location carried through every pass unchanged.
#[derive(Debug)]
pub struct PosInfo {
    pub file: String,
    pub line: u64,
    pub col: u64,
}

/// A literal bit-vector value with its intrinsic type.
#[derive(Clone, Copy, Debug)]
pub struct Lit {
    pub ty: Type,
    pub value: u64,
}

/// The primitive operators of the expression grammar.
#[derive(Clone, Copy, PartialEq, Eq, Structural, Debug)]
pub enum Primop {
    Add,
    Sub,
    Mul,
    Div,
    Mod,
    Lt,
    Leq,
    Gt,
    Geq,
    Eq,
    Neq,
    Pad,
    AsUInt,
    AsSInt,
    AsClock,
    Shl,
    Shr,
    Dshl,
    Dshr,
    Cvt,
    Neg,
    Not,
    And,
    Or,
    Xor,
    Andr,
    Orr,
    Xorr,
    Cat,
    Bits,
    Head,
    Tail,
}

/// A combinational expression.
#[derive(Debug)]
pub enum Expr {
    Literal(Lit),
    Ref(String),
    SubField(Box<Expr>, String),
    SubIndex(Box<Expr>, u64),
    SubAccess(Box<Expr>, Box<Expr>),
    Mux(Box<Expr>, Box<Expr>, Box<Expr>),
    Primop(Primop, Vec<Expr>),
}

/// A statement together with its optional source location.
#[derive(Debug)]
pub struct Stmt {
    pub raw_stmt: RawStmt,
    pub pos: Option<PosInfo>,
}

/// An ordered sequence of statements forming one lexical scope.
#[derive(Debug)]
pub struct StmtGroup(pub Vec<Stmt>);

/// The statement variants of the IR.
#[derive(Debug)]
pub enum RawStmt {
    WireDef(TypeBind),
    RegDef(TypeBind, Expr, Option<Expr>),
    MemDef(TypeBind),
    Inst(String, Expr),
    Node(String, Expr),
    Connect(String, Expr),
    When(Box<When>),
    StmtGroup(StmtGroup),
}

/// A conditional block: the condition gates the assignments of the branches.
#[derive(Debug)]
pub struct When {
    pub cond: Expr,
    pub then_body: StmtGroup,
    pub else_body: Option<StmtGroup>,
}

/// A module port: a direction plus a name/type binding.
#[derive(Debug)]
pub struct Port {
    pub pos: Option<PosInfo>,
    pub dir: Dir,
    pub bind: TypeBind,
}

/// The external interface of a module, in declaration order.
pub type Ports = Vec<Port>;

/// A named component: ports plus a statement body.
#[derive(Debug)]
pub struct Module {
    pub pos: Option<PosInfo>,
    pub id: String,
    pub ports: Ports,
    pub stmts: StmtGroup,
}

/// The top-level unit: an ordered sequence of modules.
#[derive(Debug)]
pub struct Circuit {
    pub pos: Option<PosInfo>,
    pub id: String,
    pub modules: Vec<Module>,
}

/// A structural size measure for expressions, used as the termination
/// measure of every walk over the expression tree.
pub open spec fn expr_size(e: Expr) -> nat
    decreases e,
{
    match e {
        Expr::Literal(_) => 1,
        Expr::Ref(_) => 1,
        Expr::SubField(b, _) => 1 + expr_size(*b),
        Expr::SubIndex(b, _) => 1 + expr_size(*b),
        Expr::SubAccess(a, b) => 1 + expr_size(*a) + expr_size(*b),
        Expr::Mux(c, t, f) => 1 + expr_size(*c) + expr_size(*t) + expr_size(*f),
        Expr::Primop(_, ps) => 1 + exprs_size(ps@),
    }
}

/// The combined size of a sequence of expressions; at least one.
pub open spec fn exprs_size(es: Seq<Expr>) -> nat
    decreases es,
{
    if es.len() == 0 {
        1
    } else {
        expr_size(es[0]) + exprs_size(es.drop_first())
    }
}

pub proof fn lemma_exprs_size_pos(es: Seq<Expr>)
    ensures
        exprs_size(es) >= 1,
    decreases es,
{
    if es.len() != 0 {
        lemma_exprs_size_pos(es.drop_first());
    }
}

/// Every element of a sequence is strictly smaller than the sequence.
pub proof fn lemma_expr_size_mem(es: Seq<Expr>, i: int)
    requires
        0 <= i < es.len(),
    ensures
        expr_size(es[i]) < exprs_size(es),
    decreases i,
{
    if i == 0 {
        lemma_exprs_size_pos(es.drop_first());
    } else {
        lemma_expr_size_mem(es.drop_first(), i - 1);
        assert(es.drop_first()[i - 1] == es[i]);
    }
}

pub proof fn lemma_expr_size_pos(e: Expr)
    ensures
        expr_size(e) >= 1,
{
}

/// The suffix of an expression sequence splits off its first element.
pub proof fn lemma_exprs_size_skip(es: Seq<Expr>, i: int)
    requires
        0 <= i < es.len(),
    ensures
        exprs_size(es.skip(i)) == expr_size(es[i]) + exprs_size(es.skip(i + 1)),
{
    assert(es.skip(i).len() != 0);
    assert(es.skip(i)[0] == es[i]);
    assert(es.skip(i).drop_first() =~= es.skip(i + 1));
}

/// A structural size measure for statements, mirroring `expr_size`.
pub open spec fn raw_stmt_size(r: RawStmt) -> nat
    decreases r,
{
    match r {
        RawStmt::When(w) => 1 + group_size(w.then_body) + opt_group_size(w.else_body),
        RawStmt::StmtGroup(sg) => 1 + group_size(sg),
        _ => 1,
    }
}

pub open spec fn stmt_size(s: Stmt) -> nat
    decreases s,
{
    1 + raw_stmt_size(s.raw_stmt)
}

pub open spec fn group_size(g: StmtGroup) -> nat
    decreases g,
{
    1 + stmts_size(g.0@)
}

pub open spec fn opt_group_size(o: Option<StmtGroup>) -> nat
    decreases o,
{
    match o {
        Option::None => 1,
        Option::Some(g) => 1 + group_size(g),
    }
}

/// The combined size of a sequence of statements; at least one.
pub open spec fn stmts_size(ss: Seq<Stmt>) -> nat
    decreases ss,
{
    if ss.len() == 0 {
        1
    } else {
        stmt_size(ss[0]) + stmts_size(ss.drop_first())
    }
}

pub proof fn lemma_stmts_size_pos(ss: Seq<Stmt>)
    ensures
        stmts_size(ss) >= 1,
    decreases ss,
{
    if ss.len() != 0 {
        lemma_stmts_size_pos(ss.drop_first());
    }
}

/// Every statement of a sequence is strictly smaller than the sequence.
pub proof fn lemma_stmt_size_mem(ss: Seq<Stmt>, i: int)
    requires
        0 <= i < ss.len(),
    ensures
        stmt_size(ss[i]) < stmts_size(ss),
    decreases i,
{
    if i == 0 {
        lemma_stmts_size_pos(ss.drop_first());
    } else {
        lemma_stmt_size_mem(ss.drop_first(), i - 1);
        assert(ss.drop_first()[i - 1] == ss[i]);
    }
}

/// The suffix of a statement sequence weighs no less than its successor
/// suffix, and strictly more than the statement it starts with.
pub proof fn lemma_stmts_size_skip(ss: Seq<Stmt>, i: int)
    requires
        0 <= i < ss.len(),
    ensures
        stmts_size(ss.skip(i)) == stmt_size(ss[i]) + stmts_size(ss.skip(i + 1)),
{
    assert(ss.skip(i).len() != 0);
    assert(ss.skip(i)[0] == ss[i]);
    assert(ss.skip(i).drop_first() =~= ss.skip(i + 1));
}

/// The value a literal operand carries, used for the static parameters
/// of the slicing and padding operators.
pub open spec fn spec_lit_value(e: Expr) -> Option<u64> {
    match e {
        Expr::Literal(l) => Some(l.value),
        _ => None,
    }
}

/// Executable form of `spec_lit_value`.
pub fn lit_value(e: &Expr) -> (r: Option<u64>)
    ensures
        r == spec_lit_value(*e),
{
    match e {
        Expr::Literal(l) => Some(l.value),
        _ => None,
    }
}

} // verus!
