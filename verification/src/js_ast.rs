use vstd::prelude::*;

verus! {

#[derive(Debug)]
pub enum JsLocal {
    ModuleRef(u32),
    ModuleMember(u32, String),
    Builtin(JsBuiltin),
    SelfMember(u32),
    Local(String),
}

#[derive(Clone, Copy, Debug, PartialEq, Eq, Structural)]
pub enum JsBuiltin {
    Glsl,
    Wasm,
}

/// A JavaScript literal; a float is kept as its decimal text.
#[derive(Debug)]
pub enum JsLit {
    Int(i64),
    Str(String),
    Bool(bool),
    Float(String),
}

#[derive(Clone, Copy, Debug, PartialEq, Eq, Structural)]
pub enum JsOp {
    Mul,
    Add,
    Sub,
    Div,
    Rem,
    MulEq,
    AddEq,
    SubEq,
    DivEq,
    RemEq,
    OrEq,
    AndEq,
    XorEq,
    BitOr,
    BitAnd,
    BitXor,
    AndAnd,
    OrOr,
    Shl,
    Shr,
    Lshr,
    Eq,
    Lt,
    Le,
    Ne,
    Gt,
    Ge,
}

#[derive(Clone, Copy, Debug, PartialEq, Eq, Structural)]
pub enum JsUnop {
    Plus,
    Minus,
    Not,
    BitNot,
    PreInc,
    PreDec,
}

#[derive(Debug)]
pub enum JsPattern {
    Array(Vec<JsPattern>),
    Local(u32),
}

#[derive(Debug)]
pub enum JsAst {
    Fn { index: u32, args: Vec<JsPattern>, exported: bool, expr: Box<JsAst> },
    Use { name: String, rel_index: u32 },
    Path { path: Vec<String> },
    Builtin { builtin: JsBuiltin },
    Call { func: Box<JsAst>, args: Vec<JsAst> },
    MethodCall { receiver: Box<JsAst>, method: String, args: Vec<JsAst> },
    Lit { lit: JsLit },
    Block { stmts: Vec<JsAst> },
    Global { index: u32, constant: bool, value: Box<JsAst> },
    Locals { local_indexes: Vec<u32>, values: Vec<JsAst> },
    Assign { left: Box<JsAst>, right: Box<JsAst> },
    Field { base: Box<JsAst>, member: String },
    Index { expr: Box<JsAst>, index: Box<JsAst> },
    Lambda { inputs: Vec<JsPattern>, body: Box<JsAst> },
    Return { value: Box<JsAst> },
    Unary { value: Box<JsAst>, op: JsUnop },
    Binary { left: Box<JsAst>, op: JsOp, right: Box<JsAst> },
    ModuleMember { abs_index: u32, local_index: u32 },
    ModuleRef { abs_index: u32 },
    Local { index: u32 },
    If { cond: Box<JsAst>, then_branch: Vec<JsAst>, else_branch: Option<Box<JsAst>> },
    While { cond: Box<JsAst>, body: Vec<JsAst> },
    For { pre: Box<JsAst>, cond: Box<JsAst>, post: Box<JsAst>, body: Vec<JsAst> },
    Break,
    Loop { body: Vec<JsAst> },
    Array { elems: Vec<JsAst> },
    NewObject { assignments: Vec<(String, JsAst)> },
    NewCtor { ctor: Box<JsAst>, params: Vec<JsAst> },
    Undefined,
}

/// Whether a node can stand as a JavaScript expression: statements
/// (loops, declarations, `return`, `break`, `use`, functions) cannot; an
/// `if` can when it has an else branch and a non-empty then branch made of
/// expressions, and the else branch is an expression; a block can when it
/// is non-empty and made of expressions.
pub open spec fn spec_is_expr(a: JsAst) -> bool
    decreases a,
{
    match a {
        JsAst::Loop { .. } | JsAst::Locals { .. } | JsAst::Global { .. } | JsAst::Return { .. }
        | JsAst::While { .. } | JsAst::Use { .. } | JsAst::Break | JsAst::For { .. }
        | JsAst::Fn { .. } => false,
        JsAst::If { then_branch, else_branch, .. } => match else_branch {
            Some(e) => then_branch@.len() > 0 && all_expr(then_branch@) && spec_is_expr(*e),
            None => false,
        },
        JsAst::Block { stmts } => stmts@.len() > 0 && all_expr(stmts@),
        _ => true,
    }
}

/// Every node of `s` is an expression.
pub open spec fn all_expr(s: Seq<JsAst>) -> bool
    decreases s,
{
    s.len() == 0 || (all_expr(s.drop_last()) && spec_is_expr(s.last()))
}

proof fn lemma_all_expr_take(s: Seq<JsAst>, k: int)
    requires
        0 <= k < s.len(),
    ensures
        all_expr(s.take(k + 1)) == (all_expr(s.take(k)) && spec_is_expr(s[k])),
{
    assert(s.take(k + 1).drop_last() =~= s.take(k));
}

/// Whether every node of `s` is an expression.
pub fn all_is_expr(s: &Vec<JsAst>) -> (r: bool)
    ensures
        r == all_expr(s@),
    decreases s@,
{
    let mut i: usize = 0;
    while i < s.len()
        invariant
            i <= s@.len(),
            all_expr(s@.take(i as int)),
        decreases s@.len() - i,
    {
        proof {
            lemma_all_expr_take(s@, i as int);
        }
        if !s[i].is_expr() {
            proof {
                if all_expr(s@) {
                    lemma_all_expr_prefix(s@, i as int + 1);
                }
            }
            return false;
        }
        i = i + 1;
    }
    assert(s@.take(i as int) =~= s@);
    true
}

proof fn lemma_all_expr_prefix(s: Seq<JsAst>, k: int)
    requires
        0 <= k <= s.len(),
        all_expr(s),
    ensures
        all_expr(s.take(k)),
    decreases s.len(),
{
    if k < s.len() {
        assert(s.drop_last().take(k) =~= s.take(k));
        lemma_all_expr_prefix(s.drop_last(), k);
    } else {
        assert(s.take(k) =~= s);
    }
}

impl JsAst {
    pub fn is_expr(&self) -> (r: bool)
        ensures
            r == spec_is_expr(*self),
        decreases self,
    {
        match self {
            JsAst::Loop { .. } | JsAst::Locals { .. } | JsAst::Global { .. } | JsAst::Return { .. }
            | JsAst::While { .. } | JsAst::Use { .. } | JsAst::Break | JsAst::For { .. }
            | JsAst::Fn { .. } => false,
            JsAst::If { then_branch, else_branch, .. } => match else_branch {
                Some(e) => then_branch.len() > 0 && all_is_expr(then_branch) && e.is_expr(),
                None => false,
            },
            JsAst::Block { stmts } => stmts.len() > 0 && all_is_expr(stmts),
            _ => true,
        }
    }
}

pub struct JsModule {
    pub items: Vec<JsAst>,
}

} // verus!
