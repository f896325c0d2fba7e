use vstd::prelude::*;
use crate::hyp;
use crate::hyp::parser::text_is;

verus! {

#[derive(Clone, Copy, Debug)]
pub enum GlslLocal {
    Local(u32),
}

/// A GLSL literal; a float is kept as its decimal text.
#[derive(Debug)]
pub enum GlslLit {
    Int(i64),
    Float(String),
}

#[derive(Debug)]
pub enum GlslAst {
    Undef,
    /// A function: the local it defines, whether it is exported, the locals
    /// of its parameters and its body.
    Fn { id: u32, exported: bool, args: Vec<u32>, expr: Box<GlslAst> },
    Lit { lit: GlslLit },
    Block { stmts: Vec<GlslAst> },
    Locals { locs: Vec<(String, GlslAst, u32)> },
    LocalRef { id: u32 },
    ModuleMember { abs_index: u32, local_index: u32 },
    Path { segments: Vec<String> },
    Assign { left: Box<GlslAst>, right: Box<GlslAst> },
    Field { base: Box<GlslAst>, member: String },
    Return { value: Box<GlslAst> },
    Unary { value: Box<GlslAst>, op: GlslUnop },
    Binary { left: Box<GlslAst>, op: GlslOp, right: Box<GlslAst> },
    Call { func: Box<GlslAst>, args: Vec<GlslAst> },
    If { cond: Box<GlslAst>, then_branch: Vec<GlslAst>, else_branch: Option<Box<GlslAst>> },
    While { cond: Box<GlslAst>, body: Vec<GlslAst> },
    Loop { body: Vec<GlslAst> },
}

#[derive(Debug)]
pub enum GlslType {
    Unknown,
    Void,
    Int,
    Float,
    Vec(u32),
    Mat(u32, u32),
    Sampler2D,
    Fn { ret: Box<GlslType>, args: Vec<GlslType> },
}

/// `a` and `b` are the same type (the same shape, with the same
/// argument lists).
pub open spec fn same_glsl_type(a: GlslType, b: GlslType) -> bool
    decreases a,
{
    match (a, b) {
        (GlslType::Fn { ret: x, args: xs }, GlslType::Fn { ret: y, args: ys }) => same_glsl_type(*x, *y)
            && same_glsl_types(xs@, ys@),
        (GlslType::Fn { .. }, _) => false,
        _ => a == b,
    }
}

pub open spec fn same_glsl_types(a: Seq<GlslType>, b: Seq<GlslType>) -> bool
    decreases a,
{
    a.len() == b.len() && (a.len() > 0 ==> same_glsl_types(a.drop_last(), b.drop_last())
        && same_glsl_type(a.last(), b.last()))
}

/// A copy of each type.
fn copy_glsl_types(ts: &Vec<GlslType>) -> (r: Vec<GlslType>)
    ensures
        same_glsl_types(r@, ts@),
    decreases ts,
{
    let mut v: Vec<GlslType> = Vec::new();
    let mut i: usize = 0;
    while i < ts.len()
        invariant
            i <= ts@.len(),
            same_glsl_types(v@, ts@.take(i as int)),
        decreases ts@.len() - i,
    {
        let t = ts[i].copy();
        proof {
            assert(v@.push(t).drop_last() =~= v@);
            assert(ts@.take(i + 1).drop_last() =~= ts@.take(i as int));
        }
        v.push(t);
        i = i + 1;
    }
    assert(ts@.take(i as int) =~= ts@);
    v
}

impl GlslType {
    /// A copy of the type.
    pub fn copy(&self) -> (r: GlslType)
        ensures
            same_glsl_type(r, *self),
        decreases self,
    {
        match self {
            GlslType::Unknown => GlslType::Unknown,
            GlslType::Void => GlslType::Void,
            GlslType::Int => GlslType::Int,
            GlslType::Float => GlslType::Float,
            GlslType::Vec(n) => GlslType::Vec(*n),
            GlslType::Mat(a, b) => GlslType::Mat(*a, *b),
            GlslType::Sampler2D => GlslType::Sampler2D,
            GlslType::Fn { ret, args } => {
                let v = copy_glsl_types(args);
                GlslType::Fn { ret: Box::new(ret.copy()), args: v }
            },
        }
    }
}

#[derive(Clone, Copy, Debug, PartialEq, Eq, Structural)]
pub enum GlslOp {
    Mul,
    Add,
    Sub,
    Div,
    Rem,
    MulEq,
    AddEq,
    SubEq,
    DivEq,
    RemEq,
    AndAnd,
    OrOr,
    Eq,
    Lt,
    Le,
    Ne,
    Gt,
    Ge,
}

#[derive(Clone, Copy, Debug, PartialEq, Eq, Structural)]
pub enum GlslUnop {
    Plus,
    Minus,
    Not,
    PreInc,
    PreDec,
}

#[derive(Debug)]
pub enum GlslGlobal {
    Varying(u32),
    Uniform(u32),
    Attribute(u32),
}

/// A module translated to GLSL: its items, and the locals it declares as
/// attributes, varyings and uniforms, and the members of other modules it uses.
#[derive(Debug)]
pub struct GlslModule {
    pub items: Vec<GlslAst>,
    pub exports: Vec<u32>,
    pub attributes: Vec<u32>,
    pub varyings: Vec<u32>,
    pub uniforms: Vec<u32>,
    pub used_imports: Vec<(u32, u32)>,
}

/// The GLSL unary operator written `s`.
pub open spec fn glsl_unop_of(s: Seq<char>) -> Option<GlslUnop> {
    if s == "-"@ {
        Some(GlslUnop::Minus)
    } else if s == "!"@ {
        Some(GlslUnop::Not)
    } else {
        None
    }
}

/// The GLSL binary operator written `s`.
pub open spec fn glsl_binop_of(s: Seq<char>) -> Option<GlslOp> {
    if s == "*"@ {
        Some(GlslOp::Mul)
    } else if s == "/"@ {
        Some(GlslOp::Div)
    } else if s == "+"@ {
        Some(GlslOp::Add)
    } else if s == "-"@ {
        Some(GlslOp::Sub)
    } else if s == "%"@ {
        Some(GlslOp::Rem)
    } else if s == "*="@ {
        Some(GlslOp::MulEq)
    } else if s == "/="@ {
        Some(GlslOp::DivEq)
    } else if s == "+="@ {
        Some(GlslOp::AddEq)
    } else if s == "-="@ {
        Some(GlslOp::SubEq)
    } else if s == "%="@ {
        Some(GlslOp::RemEq)
    } else if s == "&&"@ {
        Some(GlslOp::AndAnd)
    } else if s == "||"@ {
        Some(GlslOp::OrOr)
    } else if s == "=="@ {
        Some(GlslOp::Eq)
    } else if s == "<"@ {
        Some(GlslOp::Lt)
    } else if s == "<="@ {
        Some(GlslOp::Le)
    } else if s == "!="@ {
        Some(GlslOp::Ne)
    } else if s == ">"@ {
        Some(GlslOp::Gt)
    } else if s == ">="@ {
        Some(GlslOp::Ge)
    } else {
        None
    }
}

/// A Hyp operator translates to the GLSL operator written the same way,
/// binary or unary: printed, it is the operator that was read.
pub proof fn law_glsl_operator_names(s: Seq<char>)
    ensures
        glsl_binop_of(s) matches Some(op) ==> crate::glsl_bundler::binop_text(op) == s,
        glsl_unop_of(s) matches Some(op) ==> crate::glsl_bundler::unop_text(op) == s,
{
}

/// The name of a builtin in GLSL.
pub open spec fn builtin_name(b: hyp::Builtin) -> Seq<char> {
    match b {
        hyp::Builtin::Star => "*"@,
        hyp::Builtin::Vec2Ctor => "vec2"@,
        hyp::Builtin::Mat2Ctor => "mat2"@,
    }
}

/// Translates the syntax trees of a GLSL module, collecting the errors met
/// on the way (what GLSL cannot express).
pub struct GlslEnc {
    pub module: GlslModule,
    pub errors: Vec<hyp::ParseError>,
}

/// `new` has the errors, items and globals of `old` and perhaps more.
pub open spec fn glsl_more(old: GlslEnc, new: GlslEnc) -> bool {
    &&& old.errors@.len() <= new.errors@.len()
    &&& forall|i: int| 0 <= i < old.errors@.len() ==> #[trigger] new.errors@[i] == old.errors@[i]
    &&& new.module.items == old.module.items
    &&& new.module.exports == old.module.exports
    &&& new.module.attributes == old.module.attributes
    &&& new.module.varyings == old.module.varyings
    &&& new.module.uniforms == old.module.uniforms
    &&& old.module.used_imports@.len() <= new.module.used_imports@.len()
}

/// Whether the GLSL tree of `a` is `Undef`: what GLSL cannot express, an
/// operator it does not have, an application or field access of a form it
/// has no counterpart for, or a reference to a whole module.
pub open spec fn glsl_undef(a: hyp::Ast) -> bool {
    match a.data {
        hyp::AstData::ConstLit { .. } | hyp::AstData::Loop { .. } | hyp::AstData::If { .. }
        | hyp::AstData::While { .. } | hyp::AstData::Ident { .. } | hyp::AstData::Block { .. }
        | hyp::AstData::Return { .. } => false,
        hyp::AstData::App { fun, params, kind } => match kind {
            hyp::AppKind::Normal => false,
            hyp::AppKind::Unary => !(fun.data matches hyp::AstData::Ident { s } && params@.len() >= 1
                && glsl_unop_of(s@) is Some),
            hyp::AppKind::Binary => !(fun.data matches hyp::AstData::Ident { s } && params@.len() >= 2
                && (s@ == ":="@ || glsl_binop_of(s@) is Some)),
        },
        hyp::AstData::Field { member, .. } => !(member.data is Ident),
        hyp::AstData::Local { local } => local is ModuleRef,
        _ => true,
    }
}

/// `r` is the GLSL tree of the expression `a`: the node of the same kind,
/// with the same literal, name, index or operator, and the trees of its
/// parts; `x := y` is an assignment, a builtin is its GLSL name, and what
/// `glsl_undef` names is `Undef`.
pub open spec fn glsl_of(a: hyp::Ast, r: GlslAst) -> bool
    decreases a, 2nat, 0nat,
{
    if glsl_undef(a) {
        r is Undef
    } else {
        match a.data {
            hyp::AstData::ConstLit { v } => match v {
                hyp::Lit::Int(n) => r == (GlslAst::Lit { lit: GlslLit::Int(n) }),
                hyp::Lit::Float(t) => r matches GlslAst::Lit { lit: GlslLit::Float(u) } && u@ == t@,
            },
            hyp::AstData::App { fun, params, kind } => match kind {
                hyp::AppKind::Unary => r matches GlslAst::Unary { value, op } && glsl_of(params@[0], *value)
                    && glsl_unop_of(fun.data->s@) == Some(op),
                hyp::AppKind::Binary => if fun.data->s@ == ":="@ {
                    r matches GlslAst::Assign { left, right } && glsl_of(params@[0], *left) && glsl_of(
                        params@[1],
                        *right,
                    )
                } else {
                    r matches GlslAst::Binary { left, op, right } && glsl_of(params@[0], *left) && glsl_of(
                        params@[1],
                        *right,
                    ) && glsl_binop_of(fun.data->s@) == Some(op)
                },
                hyp::AppKind::Normal => r matches GlslAst::Call { func, args } && glsl_of(*fun, *func)
                    && args@.len() == params@.len() && gexprs_upto(params@, args@, params@.len()),
            },
            hyp::AstData::Loop { body } => r matches GlslAst::Loop { body: b } && gstmts_of(body.expr@, b@),
            hyp::AstData::If { cond, body, else_body } => r matches GlslAst::If {
                cond: c,
                then_branch,
                else_branch,
            } && glsl_of(*cond, *c) && gstmts_of(body.expr@, then_branch@) && match else_body {
                Some(x) => else_branch matches Some(e) && glsl_of(*x, *e),
                None => else_branch is None,
            },
            hyp::AstData::While { cond, body } => r matches GlslAst::While { cond: c, body: b } && glsl_of(
                *cond,
                *c,
            ) && gstmts_of(body.expr@, b@),
            hyp::AstData::Ident { s } => r matches GlslAst::Path { segments } && segments@.len() == 1
                && segments@[0]@ == s@,
            hyp::AstData::Field { base, member } => r matches GlslAst::Field { base: b, member: m }
                && glsl_of(*base, *b) && m@ == member.data->s@,
            hyp::AstData::Block { expr } => r matches GlslAst::Block { stmts } && gstmts_of(expr@, stmts@),
            hyp::AstData::Return { value } => r matches GlslAst::Return { value: v } && match value {
                Some(e) => glsl_of(*e, *v),
                None => *v is Undef,
            },
            hyp::AstData::Local { local } => match local {
                hyp::Local::Builtin(b) => r matches GlslAst::Path { segments } && segments@.len() == 1
                    && segments@[0]@ == builtin_name(b),
                hyp::Local::Local { index, .. } => r == (GlslAst::LocalRef { id: index }),
                hyp::Local::ModuleMember { abs_index, local_index } => r == (GlslAst::ModuleMember {
                    abs_index,
                    local_index,
                }),
                hyp::Local::ModuleRef { .. } => r is Undef,
            },
            _ => r is Undef,
        }
    }
}

/// The first `k` trees of `rs` are those of the expressions `es`.
pub open spec fn gexprs_upto(es: Seq<hyp::Ast>, rs: Seq<GlslAst>, k: nat) -> bool
    decreases es, 1nat, k,
{
    if k == 0 {
        true
    } else if k > es.len() || k > rs.len() {
        false
    } else {
        gexprs_upto(es, rs, (k - 1) as nat) && glsl_of(es[k - 1], rs[k - 1])
    }
}

/// Whether a statement gives nothing: a function, or a declaration whose
/// type could not be inferred.
pub open spec fn gstmt_dropped(a: hyp::Ast) -> bool {
    a.data is FnLocal || (a.data matches hyp::AstData::LetLocal { ty, .. } && ty is Any)
}

/// `r` is the GLSL tree of the statement `a`, if it has one: a declaration
/// of its local, with its name and the tree of its value (`Undef` without
/// one), or the tree of the expression.
pub open spec fn gstmt_of(a: hyp::Ast, r: GlslAst) -> bool
    decreases a, 3nat, 0nat,
{
    match a.data {
        hyp::AstData::LetLocal { name, init, local_index, .. } => r matches GlslAst::Locals { locs }
            && locs@.len() == 1 && locs@[0].0@ == name@ && locs@[0].2 == local_index && match init {
            Some(e) => glsl_of(*e, locs@[0].1),
            None => locs@[0].1 is Undef,
        },
        _ => glsl_of(a, r),
    }
}

/// `rs` are the trees of the first `k` statements of `ss` that are not
/// dropped, in order.
pub open spec fn gstmts_upto(ss: Seq<hyp::Ast>, rs: Seq<GlslAst>, k: nat) -> bool
    decreases ss, 1nat, k,
{
    if k == 0 {
        rs.len() == 0
    } else if k > ss.len() {
        false
    } else if gstmt_dropped(ss[k - 1]) {
        gstmts_upto(ss, rs, (k - 1) as nat)
    } else {
        rs.len() > 0 && gstmt_of(ss[k - 1], rs.last()) && gstmts_upto(ss, rs.drop_last(), (k - 1) as nat)
    }
}

/// `rs` are the trees of the statements `ss` that are not dropped.
pub open spec fn gstmts_of(ss: Seq<hyp::Ast>, rs: Seq<GlslAst>) -> bool
    decreases ss, 2nat, 0nat,
{
    gstmts_upto(ss, rs, ss.len())
}

/// The members of other modules that translating `a` records, in the
/// order it meets them.
pub open spec fn gimports(a: hyp::Ast) -> Seq<(u32, u32)>
    decreases a, 2nat, 0nat,
{
    match a.data {
        hyp::AstData::App { fun, params, kind } => match kind {
            hyp::AppKind::Normal => gimports(*fun) + gimports_upto(params@, params@.len()),
            _ => if glsl_undef(a) {
                Seq::empty()
            } else if kind is Unary {
                gimports(params@[0])
            } else {
                gimports(params@[0]) + gimports(params@[1])
            },
        },
        hyp::AstData::Loop { body } => gstmts_imports(body.expr@, body.expr@.len()),
        hyp::AstData::If { cond, body, else_body } => gimports(*cond) + gstmts_imports(
            body.expr@,
            body.expr@.len(),
        ) + match else_body {
            Some(e) => gimports(*e),
            None => Seq::empty(),
        },
        hyp::AstData::While { cond, body } => gimports(*cond) + gstmts_imports(body.expr@, body.expr@.len()),
        hyp::AstData::Field { base, .. } => gimports(*base),
        hyp::AstData::Block { expr } => gstmts_imports(expr@, expr@.len()),
        hyp::AstData::Return { value } => match value {
            Some(e) => gimports(*e),
            None => Seq::empty(),
        },
        hyp::AstData::Local { local } => match local {
            hyp::Local::ModuleMember { abs_index, local_index } => seq![(abs_index, local_index)],
            _ => Seq::empty(),
        },
        _ => Seq::empty(),
    }
}

/// The members recorded for the first `k` expressions of `es`.
pub open spec fn gimports_upto(es: Seq<hyp::Ast>, k: nat) -> Seq<(u32, u32)>
    decreases es, 1nat, k,
{
    if k == 0 || k > es.len() {
        Seq::empty()
    } else {
        gimports_upto(es, (k - 1) as nat) + gimports(es[k - 1])
    }
}

/// The members recorded for a statement.
pub open spec fn gstmt_imports(a: hyp::Ast) -> Seq<(u32, u32)>
    decreases a, 3nat, 0nat,
{
    match a.data {
        hyp::AstData::FnLocal { .. } => Seq::empty(),
        hyp::AstData::LetLocal { ty, init, .. } => if ty is Any {
            Seq::empty()
        } else {
            match init {
                Some(e) => gimports(*e),
                None => Seq::empty(),
            }
        },
        _ => gimports(a),
    }
}

/// The members recorded for the first `k` statements of `ss`.
pub open spec fn gstmts_imports(ss: Seq<hyp::Ast>, k: nat) -> Seq<(u32, u32)>
    decreases ss, 1nat, k,
{
    if k == 0 || k > ss.len() {
        Seq::empty()
    } else {
        gstmts_imports(ss, (k - 1) as nat) + gstmt_imports(ss[k - 1])
    }
}

/// `r` is the GLSL function of the module item `a`: the same local, the
/// same export, the locals of its parameters and the trees of its body.
pub open spec fn gitem_of(a: hyp::Ast, r: GlslAst) -> bool {
    &&& a.data matches hyp::AstData::FnLocal { local_index, exported, lambda, .. }
    &&& r matches GlslAst::Fn { id, exported: e, args, expr }
    &&& id == local_index && e == exported && args@ == lambda.param_locals@
    &&& (*expr matches GlslAst::Block { stmts } && gstmts_of(lambda.expr@, stmts@))
}

/// `rs` are the functions of the functions among the first `k` items of
/// `items`, in order.
pub open spec fn gitems_upto(items: Seq<hyp::Ast>, rs: Seq<GlslAst>, k: nat) -> bool
    decreases k,
{
    if k == 0 {
        rs.len() == 0
    } else if k > items.len() {
        false
    } else if items[k - 1].data is FnLocal {
        rs.len() > 0 && gitem_of(items[k - 1], rs.last()) && gitems_upto(items, rs.drop_last(), (k - 1) as nat)
    } else {
        gitems_upto(items, rs, (k - 1) as nat)
    }
}

/// The locals of the declarations among the first `k` items that carry
/// the attribute `at`, in order.
pub open spec fn globals_with(items: Seq<hyp::Ast>, at: hyp::Attr, k: nat) -> Seq<u32>
    decreases k,
{
    if k == 0 || k > items.len() {
        Seq::empty()
    } else {
        match items[k - 1].data {
            hyp::AstData::LetLocal { local_index, attr, .. } => if attr == at {
                globals_with(items, at, (k - 1) as nat).push(local_index)
            } else {
                globals_with(items, at, (k - 1) as nat)
            },
            _ => globals_with(items, at, (k - 1) as nat),
        }
    }
}

/// The members recorded for the functions among the first `k` items.
pub open spec fn gitems_imports(items: Seq<hyp::Ast>, k: nat) -> Seq<(u32, u32)>
    decreases k,
{
    if k == 0 || k > items.len() {
        Seq::empty()
    } else {
        gitems_imports(items, (k - 1) as nat) + match items[k - 1].data {
            hyp::AstData::FnLocal { lambda, .. } => gstmts_imports(lambda.expr@, lambda.expr@.len()),
            _ => Seq::empty(),
        }
    }
}

/// The error `msg` at the span of `a`.
pub open spec fn gerr_at(a: hyp::Ast, msg: &'static str) -> Seq<hyp::ParseError> {
    seq![hyp::ParseError(a.loc, msg)]
}

/// The errors that translating the expression `a` records, in the order
/// met: what GLSL cannot express, an operator it does not have, a field
/// access by something other than a name, a reference to a whole module.
pub open spec fn glsl_errs(a: hyp::Ast) -> Seq<hyp::ParseError>
    decreases a, 2nat, 0nat,
{
    match a.data {
        hyp::AstData::ConstLit { .. } | hyp::AstData::Ident { .. } => Seq::empty(),
        hyp::AstData::App { fun, params, kind } => match kind {
            hyp::AppKind::Unary => match fun.data {
                hyp::AstData::Ident { s } => if glsl_unop_of(s@) is None {
                    gerr_at(a, "unimplemented unary op")
                } else if params@.len() < 1 {
                    gerr_at(a, "unimplemented expr")
                } else {
                    glsl_errs(params@[0])
                },
                _ => gerr_at(a, "unimplemented expr"),
            },
            hyp::AppKind::Binary => match fun.data {
                hyp::AstData::Ident { s } => if params@.len() < 2 {
                    gerr_at(a, "unimplemented expr")
                } else if s@ == ":="@ || glsl_binop_of(s@) is Some {
                    glsl_errs(params@[0]) + glsl_errs(params@[1])
                } else {
                    gerr_at(a, "unimplemented binary op")
                },
                _ => gerr_at(a, "unimplemented expr"),
            },
            hyp::AppKind::Normal => glsl_errs(*fun) + gexprs_errs(params@, params@.len()),
        },
        hyp::AstData::Loop { body } => gstmts_errs(body.expr@, body.expr@.len()),
        hyp::AstData::If { cond, body, else_body } => glsl_errs(*cond) + gstmts_errs(body.expr@, body.expr@.len())
            + match else_body {
            Some(x) => glsl_errs(*x),
            None => Seq::empty(),
        },
        hyp::AstData::While { cond, body } => glsl_errs(*cond) + gstmts_errs(body.expr@, body.expr@.len()),
        hyp::AstData::Field { base, member } => glsl_errs(*base) + if member.data is Ident {
            Seq::empty()
        } else {
            gerr_at(a, "invalid field access")
        },
        hyp::AstData::Block { expr } => gstmts_errs(expr@, expr@.len()),
        hyp::AstData::Return { value } => match value {
            Some(e) => glsl_errs(*e),
            None => Seq::empty(),
        },
        hyp::AstData::Local { local } => if local is ModuleRef {
            gerr_at(a, "unimplemented local")
        } else {
            Seq::empty()
        },
        _ => gerr_at(a, "unimplemented expr"),
    }
}

/// The errors recorded for the first `k` expressions of `es`.
pub open spec fn gexprs_errs(es: Seq<hyp::Ast>, k: nat) -> Seq<hyp::ParseError>
    decreases es, 1nat, k,
{
    if k == 0 || k > es.len() {
        Seq::empty()
    } else {
        gexprs_errs(es, (k - 1) as nat) + glsl_errs(es[k - 1])
    }
}

/// The errors recorded for a statement: a function is not allowed, a
/// declaration needs a known type.
pub open spec fn gstmt_errs(a: hyp::Ast) -> Seq<hyp::ParseError>
    decreases a, 3nat, 0nat,
{
    match a.data {
        hyp::AstData::FnLocal { .. } => gerr_at(a, "function not allowed here"),
        hyp::AstData::LetLocal { ty, init, .. } => if ty is Any {
            gerr_at(a, "type of local could not be inferred")
        } else {
            match init {
                Some(e) => glsl_errs(*e),
                None => Seq::empty(),
            }
        },
        _ => glsl_errs(a),
    }
}

/// The errors recorded for the first `k` statements.
pub open spec fn gstmts_errs(ss: Seq<hyp::Ast>, k: nat) -> Seq<hyp::ParseError>
    decreases ss, 1nat, k,
{
    if k == 0 || k > ss.len() {
        Seq::empty()
    } else {
        gstmts_errs(ss, (k - 1) as nat) + gstmt_errs(ss[k - 1])
    }
}

/// The errors recorded for the first `k` module items: a declaration with
/// an attribute other than a global one, and those of the functions.
pub open spec fn gitems_errs(items: Seq<hyp::Ast>, k: nat) -> Seq<hyp::ParseError>
    decreases k,
{
    if k == 0 || k > items.len() {
        Seq::empty()
    } else {
        gitems_errs(items, (k - 1) as nat) + match items[k - 1].data {
            hyp::AstData::LetLocal { attr, .. } => if attr == hyp::Attr::Varying || attr == hyp::Attr::Attribute
                || attr == hyp::Attr::Uniform {
                Seq::empty()
            } else {
                gerr_at(items[k - 1], "unknown global attribute")
            },
            hyp::AstData::FnLocal { lambda, .. } => gstmts_errs(lambda.expr@, lambda.expr@.len()),
            _ => Seq::empty(),
        }
    }
}

/// `m` is the translation of the module made of `items`: the functions
/// among them, the locals they declare as varyings, attributes and
/// uniforms, and the members of other modules their functions use, in
/// order, and no exports.
pub open spec fn module_of(items: Seq<hyp::Ast>, m: GlslModule) -> bool {
    &&& gitems_upto(items, m.items@, items.len())
    &&& m.exports@.len() == 0
    &&& m.varyings@ == globals_with(items, hyp::Attr::Varying, items.len())
    &&& m.attributes@ == globals_with(items, hyp::Attr::Attribute, items.len())
    &&& m.uniforms@ == globals_with(items, hyp::Attr::Uniform, items.len())
    &&& m.used_imports@ == gitems_imports(items, items.len())
}

/// `gexprs_upto` reads only the first `k` trees.
proof fn lemma_gexprs_prefix(es: Seq<hyp::Ast>, a: Seq<GlslAst>, b: Seq<GlslAst>, k: nat)
    requires
        k <= a.len(),
        k <= b.len(),
        forall|j: int| 0 <= j < k ==> a[j] == b[j],
        gexprs_upto(es, a, k),
    ensures
        gexprs_upto(es, b, k),
    decreases k,
{
    if k > 0 {
        lemma_gexprs_prefix(es, a, b, (k - 1) as nat);
    }
}

impl GlslEnc {
    pub fn new() -> (r: GlslEnc)
        ensures
            r.module.items@.len() == 0,
            r.module.exports@.len() == 0,
            r.module.attributes@.len() == 0,
            r.module.varyings@.len() == 0,
            r.module.uniforms@.len() == 0,
            r.module.used_imports@.len() == 0,
            r.errors@.len() == 0,
    {
        GlslEnc {
            module: GlslModule {
                items: Vec::new(),
                exports: Vec::new(),
                varyings: Vec::new(),
                attributes: Vec::new(),
                uniforms: Vec::new(),
                used_imports: Vec::new(),
            },
            errors: Vec::new(),
        }
    }

    /// Records an error at the span of `ast`.
    pub fn add_error(&mut self, ast: &hyp::Ast, s: &'static str)
        ensures
            final(self).errors@ == old(self).errors@.push(hyp::ParseError(ast.loc, s)),
            final(self).module == old(self).module,
    {
        self.errors.push(hyp::ParseError(ast.loc, s));
    }

    /// The unary operator `op`, if GLSL has it.
    pub fn map_unop(&self, op: &hyp::Ident) -> (r: Option<GlslUnop>)
        ensures
            r == glsl_unop_of(op@),
    {
        if text_is(op, "-") {
            Some(GlslUnop::Minus)
        } else if text_is(op, "!") {
            Some(GlslUnop::Not)
        } else {
            None
        }
    }

    /// The binary operator `op`, if GLSL has it.
    pub fn map_binop(&self, op: &hyp::Ident) -> (r: Option<GlslOp>)
        ensures
            r == glsl_binop_of(op@),
    {
        if text_is(op, "*") {
            Some(GlslOp::Mul)
        } else if text_is(op, "/") {
            Some(GlslOp::Div)
        } else if text_is(op, "+") {
            Some(GlslOp::Add)
        } else if text_is(op, "-") {
            Some(GlslOp::Sub)
        } else if text_is(op, "%") {
            Some(GlslOp::Rem)
        } else if text_is(op, "*=") {
            Some(GlslOp::MulEq)
        } else if text_is(op, "/=") {
            Some(GlslOp::DivEq)
        } else if text_is(op, "+=") {
            Some(GlslOp::AddEq)
        } else if text_is(op, "-=") {
            Some(GlslOp::SubEq)
        } else if text_is(op, "%=") {
            Some(GlslOp::RemEq)
        } else if text_is(op, "&&") {
            Some(GlslOp::AndAnd)
        } else if text_is(op, "||") {
            Some(GlslOp::OrOr)
        } else if text_is(op, "==") {
            Some(GlslOp::Eq)
        } else if text_is(op, "<") {
            Some(GlslOp::Lt)
        } else if text_is(op, "<=") {
            Some(GlslOp::Le)
        } else if text_is(op, "!=") {
            Some(GlslOp::Ne)
        } else if text_is(op, ">") {
            Some(GlslOp::Gt)
        } else if text_is(op, ">=") {
            Some(GlslOp::Ge)
        } else {
            None
        }
    }

    /// Whether an expression can be assigned to: every GLSL expression is
    /// accepted here.
    pub fn check_assignable(&self, _expr: &GlslAst) -> (r: bool)
        ensures
            r,
    {
        true
    }

    /// The return type of a function type; of an unknown type, unknown.
    fn get_return_type(&self, ty: &GlslType) -> (r: GlslType)
        requires
            *ty is Fn || *ty is Unknown,
        ensures
            same_glsl_type(
                r,
                match *ty {
                    GlslType::Fn { ret, .. } => *ret,
                    _ => GlslType::Unknown,
                },
            ),
    {
        match ty {
            GlslType::Fn { ret, .. } => ret.copy(),
            _ => GlslType::Unknown,
        }
    }

    /// `to` unless it is unknown, else `from`.
    pub fn assign_unify(&self, to: GlslType, from: GlslType) -> (r: GlslType)
        ensures
            !(to is Unknown) ==> r == to,
            to is Unknown ==> r == from,
    {
        match to {
            GlslType::Unknown => from,
            _ => to,
        }
    }

    /// The name of an identifier in GLSL.
    pub fn ident_to_str(&self, ident: &hyp::Ident) -> (r: String)
        ensures
            r@ == ident@,
    {
        ident.clone()
    }
}

/// The GLSL name of a builtin.
fn builtin_str(b: hyp::Builtin) -> (r: String)
    ensures
        r@ == builtin_name(b),
{
    let mut s = String::new();
    match b {
        hyp::Builtin::Star => {
            crate::text::push_char(&mut s, '*');
            proof { reveal_strlit("*"); }
        },
        hyp::Builtin::Vec2Ctor => {
            crate::text::push_char(&mut s, 'v');
            crate::text::push_char(&mut s, 'e');
            crate::text::push_char(&mut s, 'c');
            crate::text::push_char(&mut s, '2');
            proof { reveal_strlit("vec2"); }
        },
        hyp::Builtin::Mat2Ctor => {
            crate::text::push_char(&mut s, 'm');
            crate::text::push_char(&mut s, 'a');
            crate::text::push_char(&mut s, 't');
            crate::text::push_char(&mut s, '2');
            proof { reveal_strlit("mat2"); }
        },
    }
    assert(s@ =~= builtin_name(b));
    s
}

impl GlslEnc {
    /// Translates the trees of `v`, in order.
    fn parse_exprs(&mut self, v: &Vec<hyp::Ast>) -> (r: Vec<GlslAst>)
        ensures
            glsl_more(*old(self), *final(self)),
            r@.len() == v@.len(),
            gexprs_upto(v@, r@, v@.len()),
            final(self).errors@ == old(self).errors@ + gexprs_errs(v@, v@.len()),
            final(self).module.used_imports@ == old(self).module.used_imports@ + gimports_upto(v@, v@.len()),
        decreases v, 0nat,
    {
        let mut out: Vec<GlslAst> = Vec::new();
        let mut i: usize = 0;
        while i < v.len()
            invariant
                i <= v@.len(),
                out@.len() == i,
                glsl_more(*old(self), *self),
                gexprs_upto(v@, out@, i as nat),
                self.errors@ == old(self).errors@ + gexprs_errs(v@, i as nat),
                self.module.used_imports@ == old(self).module.used_imports@ + gimports_upto(v@, i as nat),
            decreases v@.len() - i,
        {
            let e = self.parse_expr(&v[i]);
            let ghost before = out@;
            out.push(e);
            proof {
                lemma_gexprs_prefix(v@, before, out@, i as nat);
                assert(self.errors@ =~= old(self).errors@ + gexprs_errs(v@, (i + 1) as nat));
                assert(self.module.used_imports@ =~= old(self).module.used_imports@ + gimports_upto(
                    v@,
                    (i + 1) as nat,
                ));
            }
            i = i + 1;
        }
        out
    }

    /// Translates statements, dropping those that give nothing.
    pub fn parse_stmts(&mut self, v: &Vec<hyp::Ast>) -> (r: Vec<GlslAst>)
        ensures
            glsl_more(*old(self), *final(self)),
            gstmts_of(v@, r@),
            final(self).errors@ == old(self).errors@ + gstmts_errs(v@, v@.len()),
            final(self).module.used_imports@ == old(self).module.used_imports@ + gstmts_imports(v@, v@.len()),
        decreases v, 0nat,
    {
        let mut out: Vec<GlslAst> = Vec::new();
        let mut i: usize = 0;
        while i < v.len()
            invariant
                i <= v@.len(),
                glsl_more(*old(self), *self),
                gstmts_upto(v@, out@, i as nat),
                self.errors@ == old(self).errors@ + gstmts_errs(v@, i as nat),
                self.module.used_imports@ == old(self).module.used_imports@ + gstmts_imports(v@, i as nat),
            decreases v@.len() - i,
        {
            match self.parse_stmt(&v[i]) {
                Some(a) => {
                    let ghost before = out@;
                    out.push(a);
                    assert(out@.drop_last() =~= before);
                },
                None => {},
            }
            assert(self.module.used_imports@ =~= old(self).module.used_imports@ + gstmts_imports(
                v@,
                (i + 1) as nat,
            ));
            assert(self.errors@ =~= old(self).errors@ + gstmts_errs(v@, (i + 1) as nat));
            i = i + 1;
        }
        out
    }

    /// Translates an expression. An operator that GLSL has no counterpart
    /// for, or a construct with no translation, becomes `Undef` and adds an
    /// error (see `glsl_errs`): the translation goes on, and the module is
    /// reported as failed with that error instead of stopping the program.
    pub fn parse_expr(&mut self, expr: &hyp::Ast) -> (r: GlslAst)
        ensures
            glsl_more(*old(self), *final(self)),
            glsl_of(*expr, r),
            final(self).errors@ == old(self).errors@ + glsl_errs(*expr),
            final(self).module.used_imports@ == old(self).module.used_imports@ + gimports(*expr),
        decreases expr, 1nat,
    {
        match &expr.data {
            hyp::AstData::ConstLit { v } => match v {
                hyp::Lit::Int(n) => GlslAst::Lit { lit: GlslLit::Int(*n) },
                hyp::Lit::Float(t) => GlslAst::Lit { lit: GlslLit::Float(t.clone()) },
            },
            hyp::AstData::App { fun, params, kind } => match kind {
                hyp::AppKind::Unary => match &fun.data {
                    hyp::AstData::Ident { s } => {
                        match self.map_unop(s) {
                            Some(op) => {
                                if params.len() < 1 {
                                    self.add_error(expr, "unimplemented expr");
                                    return GlslAst::Undef;
                                }
                                let value = self.parse_expr(&params[0]);
                                GlslAst::Unary { value: Box::new(value), op }
                            },
                            None => {
                                self.add_error(expr, "unimplemented unary op");
                                GlslAst::Undef
                            },
                        }
                    },
                    _ => {
                        self.add_error(expr, "unimplemented expr");
                        GlslAst::Undef
                    },
                },
                hyp::AppKind::Binary => match &fun.data {
                    hyp::AstData::Ident { s } => {
                        if params.len() < 2 {
                            self.add_error(expr, "unimplemented expr");
                            return GlslAst::Undef;
                        }
                        if text_is(s, ":=") {
                            let left_ast = self.parse_expr(&params[0]);
                            self.check_assignable(&left_ast);
                            let right = self.parse_expr(&params[1]);
                            GlslAst::Assign { left: Box::new(left_ast), right: Box::new(right) }
                        } else {
                            match self.map_binop(s) {
                                Some(op) => {
                                    let left = self.parse_expr(&params[0]);
                                    let right = self.parse_expr(&params[1]);
                                    GlslAst::Binary { left: Box::new(left), op, right: Box::new(right) }
                                },
                                None => {
                                    self.add_error(expr, "unimplemented binary op");
                                    GlslAst::Undef
                                },
                            }
                        }
                    },
                    _ => {
                        self.add_error(expr, "unimplemented expr");
                        GlslAst::Undef
                    },
                },
                hyp::AppKind::Normal => {
                    let func = self.parse_expr(fun);
                    let args = self.parse_exprs(params);
                    GlslAst::Call { func: Box::new(func), args }
                },
            },
            hyp::AstData::Loop { body } => {
                let body_ast = self.parse_stmts(&body.expr);
                GlslAst::Loop { body: body_ast }
            },
            hyp::AstData::If { cond, body, else_body } => {
                let cond_ast = Box::new(self.parse_expr(cond));
                let then_ast = self.parse_stmts(&body.expr);
                let else_branch = match else_body {
                    Some(x) => Some(Box::new(self.parse_expr(x))),
                    None => None,
                };
                GlslAst::If { cond: cond_ast, then_branch: then_ast, else_branch }
            },
            hyp::AstData::While { cond, body } => {
                let cond_ast = Box::new(self.parse_expr(cond));
                let body_ast = self.parse_stmts(&body.expr);
                GlslAst::While { cond: cond_ast, body: body_ast }
            },
            hyp::AstData::Ident { s } => {
                let mut segments: Vec<String> = Vec::new();
                segments.push(self.ident_to_str(s));
                GlslAst::Path { segments }
            },
            hyp::AstData::Field { base, member } => {
                let base_ast = self.parse_expr(base);
                match &member.data {
                    hyp::AstData::Ident { s } => {
                        let member_str = self.ident_to_str(s);
                        GlslAst::Field { base: Box::new(base_ast), member: member_str }
                    },
                    _ => {
                        self.add_error(expr, "invalid field access");
                        GlslAst::Undef
                    },
                }
            },
            hyp::AstData::Block { expr: stmts } => {
                let ss = self.parse_stmts(stmts);
                GlslAst::Block { stmts: ss }
            },
            hyp::AstData::Return { value } => {
                let v = match value {
                    Some(e) => self.parse_expr(e),
                    None => GlslAst::Undef,
                };
                GlslAst::Return { value: Box::new(v) }
            },
            hyp::AstData::Local { local } => match local {
                hyp::Local::Builtin(b) => {
                    let mut segments: Vec<String> = Vec::new();
                    segments.push(builtin_str(*b));
                    GlslAst::Path { segments }
                },
                hyp::Local::Local { index, .. } => GlslAst::LocalRef { id: *index },
                hyp::Local::ModuleMember { abs_index, local_index } => {
                    self.module.used_imports.push((*abs_index, *local_index));
                    GlslAst::ModuleMember { abs_index: *abs_index, local_index: *local_index }
                },
                hyp::Local::ModuleRef { .. } => {
                    self.add_error(expr, "unimplemented local");
                    GlslAst::Undef
                },
            },
            _ => {
                self.add_error(expr, "unimplemented expr");
                GlslAst::Undef
            },
        }
    }

    /// Translates a statement: a declaration (whose type must be known),
    /// or an expression. A function is not allowed here.
    pub fn parse_stmt(&mut self, stmt: &hyp::Ast) -> (r: Option<GlslAst>)
        ensures
            glsl_more(*old(self), *final(self)),
            gstmt_dropped(*stmt) ==> r is None,
            final(self).errors@ == old(self).errors@ + gstmt_errs(*stmt),
            !gstmt_dropped(*stmt) ==> (r matches Some(a) && gstmt_of(*stmt, a)),
            final(self).module.used_imports@ == old(self).module.used_imports@ + gstmt_imports(*stmt),
        decreases stmt, 2nat,
    {
        match &stmt.data {
            hyp::AstData::FnLocal { .. } => {
                self.add_error(stmt, "function not allowed here");
                None
            },
            hyp::AstData::LetLocal { name, ty, init, local_index, .. } => {
                let name = self.ident_to_str(name);
                if ty.is_any() {
                    self.add_error(stmt, "type of local could not be inferred");
                    return None;
                }
                let value = match init {
                    Some(e) => self.parse_expr(e),
                    None => GlslAst::Undef,
                };
                let mut locs: Vec<(String, GlslAst, u32)> = Vec::new();
                locs.push((name, value, *local_index));
                Some(GlslAst::Locals { locs })
            },
            _ => Some(self.parse_expr(stmt)),
        }
    }

    /// Translates a module item: a declaration with a global attribute
    /// (`varying`, `attribute`, `uniform`) is recorded as such, a function
    /// is translated, anything else gives nothing.
    fn parse_item(&mut self, item: &hyp::Ast) -> (r: Option<GlslAst>)
        ensures
            final(self).errors@ == old(self).errors@ + gitems_errs(seq![*item], 1),
            final(self).module.items == old(self).module.items,
            final(self).module.exports == old(self).module.exports,
            item.data is FnLocal ==> (r matches Some(f) && gitem_of(*item, f)),
            !(item.data is FnLocal) ==> r is None,
            final(self).module.varyings@ == old(self).module.varyings@ + globals_with(
                seq![*item],
                hyp::Attr::Varying,
                1,
            ),
            final(self).module.attributes@ == old(self).module.attributes@ + globals_with(
                seq![*item],
                hyp::Attr::Attribute,
                1,
            ),
            final(self).module.uniforms@ == old(self).module.uniforms@ + globals_with(
                seq![*item],
                hyp::Attr::Uniform,
                1,
            ),
            final(self).module.used_imports@ == old(self).module.used_imports@ + gitems_imports(
                seq![*item],
                1,
            ),
    {
        let ghost one = seq![*item];
        proof {
            assert(globals_with(one, hyp::Attr::Varying, 0) =~= Seq::<u32>::empty());
            assert(globals_with(one, hyp::Attr::Attribute, 0) =~= Seq::<u32>::empty());
            assert(globals_with(one, hyp::Attr::Uniform, 0) =~= Seq::<u32>::empty());
            assert(gitems_imports(one, 0) =~= Seq::<(u32, u32)>::empty());
            assert(gitems_errs(one, 0) =~= Seq::<hyp::ParseError>::empty());
            assert(one[0] == *item);
        }
        let r = match &item.data {
            hyp::AstData::LetLocal { local_index, attr, .. } => {
                match attr {
                    hyp::Attr::Varying => self.module.varyings.push(*local_index),
                    hyp::Attr::Attribute => self.module.attributes.push(*local_index),
                    hyp::Attr::Uniform => self.module.uniforms.push(*local_index),
                    _ => {
                        self.add_error(item, "unknown global attribute");
                    },
                }
                None
            },
            hyp::AstData::FnLocal { lambda, local_index, exported, .. } => {
                let mut args: Vec<u32> = Vec::new();
                let mut i: usize = 0;
                while i < lambda.param_locals.len()
                    invariant
                        i <= lambda.param_locals@.len(),
                        args@ == lambda.param_locals@.take(i as int),
                    decreases lambda.param_locals@.len() - i,
                {
                    args.push(lambda.param_locals[i]);
                    assert(lambda.param_locals@.take(i + 1) =~= lambda.param_locals@.take(
                        i as int,
                    ).push(lambda.param_locals@[i as int]));
                    i = i + 1;
                }
                assert(lambda.param_locals@.take(i as int) =~= lambda.param_locals@);
                let stmts = self.parse_stmts(&lambda.expr);
                let expr = GlslAst::Block { stmts };
                Some(GlslAst::Fn { id: *local_index, exported: *exported, args, expr: Box::new(expr) })
            },
            _ => None,
        };
        proof {
            assert(self.module.varyings@ =~= old(self).module.varyings@ + globals_with(one, hyp::Attr::Varying, 1));
            assert(self.module.attributes@ =~= old(self).module.attributes@ + globals_with(
                one,
                hyp::Attr::Attribute,
                1,
            ));
            assert(self.module.uniforms@ =~= old(self).module.uniforms@ + globals_with(one, hyp::Attr::Uniform, 1));
            assert(self.module.used_imports@ =~= old(self).module.used_imports@ + gitems_imports(one, 1));
            assert(self.errors@ =~= old(self).errors@ + gitems_errs(one, 1));
        }
        r
    }

    /// Translates the items of a module.
    pub fn parse_hyp(&mut self, input: &Vec<hyp::Ast>)
        ensures
            final(self).errors@ == old(self).errors@ + gitems_errs(input@, input@.len()),
            old(self).module.items@.len() <= final(self).module.items@.len(),
            final(self).module.items@.subrange(0, old(self).module.items@.len() as int) == old(self).module.items@,
            gitems_upto(
                input@,
                final(self).module.items@.subrange(
                    old(self).module.items@.len() as int,
                    final(self).module.items@.len() as int,
                ),
                input@.len(),
            ),
            final(self).module.exports == old(self).module.exports,
            final(self).module.varyings@ == old(self).module.varyings@ + globals_with(
                input@,
                hyp::Attr::Varying,
                input@.len(),
            ),
            final(self).module.attributes@ == old(self).module.attributes@ + globals_with(
                input@,
                hyp::Attr::Attribute,
                input@.len(),
            ),
            final(self).module.uniforms@ == old(self).module.uniforms@ + globals_with(
                input@,
                hyp::Attr::Uniform,
                input@.len(),
            ),
            final(self).module.used_imports@ == old(self).module.used_imports@ + gitems_imports(
                input@,
                input@.len(),
            ),
    {
        let ghost n0 = self.module.items@.len();
        let mut i: usize = 0;
        while i < input.len()
            invariant
                i <= input@.len(),
                n0 == old(self).module.items@.len(),
                self.errors@ == old(self).errors@ + gitems_errs(input@, i as nat),
                n0 <= self.module.items@.len(),
                self.module.items@.subrange(0, n0 as int) == old(self).module.items@,
                gitems_upto(input@, self.module.items@.subrange(n0 as int, self.module.items@.len() as int), i as nat),
                self.module.exports == old(self).module.exports,
                self.module.varyings@ == old(self).module.varyings@ + globals_with(
                    input@,
                    hyp::Attr::Varying,
                    i as nat,
                ),
                self.module.attributes@ == old(self).module.attributes@ + globals_with(
                    input@,
                    hyp::Attr::Attribute,
                    i as nat,
                ),
                self.module.uniforms@ == old(self).module.uniforms@ + globals_with(
                    input@,
                    hyp::Attr::Uniform,
                    i as nat,
                ),
                self.module.used_imports@ == old(self).module.used_imports@ + gitems_imports(input@, i as nat),
            decreases input@.len() - i,
        {
            let ghost items0 = self.module.items@;
            let r = self.parse_item(&input[i]);
            proof {
                let one = seq![input@[i as int]];
                assert(globals_with(one, hyp::Attr::Varying, 0) =~= Seq::<u32>::empty());
                assert(globals_with(one, hyp::Attr::Attribute, 0) =~= Seq::<u32>::empty());
                assert(globals_with(one, hyp::Attr::Uniform, 0) =~= Seq::<u32>::empty());
                assert(gitems_imports(one, 0) =~= Seq::<(u32, u32)>::empty());
                assert(gitems_errs(one, 0) =~= Seq::<hyp::ParseError>::empty());
                assert(self.errors@ =~= old(self).errors@ + gitems_errs(input@, (i + 1) as nat));
                assert(self.module.varyings@ =~= old(self).module.varyings@ + globals_with(
                    input@,
                    hyp::Attr::Varying,
                    (i + 1) as nat,
                ));
                assert(self.module.attributes@ =~= old(self).module.attributes@ + globals_with(
                    input@,
                    hyp::Attr::Attribute,
                    (i + 1) as nat,
                ));
                assert(self.module.uniforms@ =~= old(self).module.uniforms@ + globals_with(
                    input@,
                    hyp::Attr::Uniform,
                    (i + 1) as nat,
                ));
                assert(self.module.used_imports@ =~= old(self).module.used_imports@ + gitems_imports(
                    input@,
                    (i + 1) as nat,
                ));
            }
            match r {
                Some(ast) => {
                    self.module.items.push(ast);
                    proof {
                        let tail = self.module.items@.subrange(n0 as int, self.module.items@.len() as int);
                        assert(tail.drop_last() =~= items0.subrange(n0 as int, items0.len() as int));
                        assert(self.module.items@.subrange(0, n0 as int) =~= items0.subrange(0, n0 as int));
                    }
                },
                None => {},
            }
            i = i + 1;
        }
    }
}

} // verus!
