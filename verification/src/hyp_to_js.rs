use vstd::prelude::*;
use crate::js_ast::{JsAst, JsLit, JsModule, JsOp, JsPattern, JsUnop};
use crate::hyp;
use crate::hyp::parser::text_is;

verus! {

/// The JavaScript unary operator written `s`.
pub open spec fn unop_of(s: Seq<char>) -> Option<JsUnop> {
    if s == "-"@ {
        Some(JsUnop::Minus)
    } else if s == "+"@ {
        Some(JsUnop::Plus)
    } else if s == "~"@ {
        Some(JsUnop::BitNot)
    } else if s == "!"@ {
        Some(JsUnop::Not)
    } else {
        None
    }
}

/// The JavaScript binary operator written `s` (`==` and `===` both being
/// strict equality).
pub open spec fn binop_of(s: Seq<char>) -> Option<JsOp> {
    if s == "*"@ {
        Some(JsOp::Mul)
    } else if s == "/"@ {
        Some(JsOp::Div)
    } else if s == "+"@ {
        Some(JsOp::Add)
    } else if s == "-"@ {
        Some(JsOp::Sub)
    } else if s == "%"@ {
        Some(JsOp::Rem)
    } else if s == "*="@ {
        Some(JsOp::MulEq)
    } else if s == "/="@ {
        Some(JsOp::DivEq)
    } else if s == "+="@ {
        Some(JsOp::AddEq)
    } else if s == "-="@ {
        Some(JsOp::SubEq)
    } else if s == "%="@ {
        Some(JsOp::RemEq)
    } else if s == "|="@ {
        Some(JsOp::OrEq)
    } else if s == "&="@ {
        Some(JsOp::AndEq)
    } else if s == "^="@ {
        Some(JsOp::XorEq)
    } else if s == "|"@ {
        Some(JsOp::BitOr)
    } else if s == "&"@ {
        Some(JsOp::BitAnd)
    } else if s == "^"@ {
        Some(JsOp::BitXor)
    } else if s == "&&"@ {
        Some(JsOp::AndAnd)
    } else if s == "||"@ {
        Some(JsOp::OrOr)
    } else if s == "<<"@ {
        Some(JsOp::Shl)
    } else if s == ">>"@ {
        Some(JsOp::Shr)
    } else if s == ">>>"@ {
        Some(JsOp::Lshr)
    } else if s == "=="@ || s == "==="@ {
        Some(JsOp::Eq)
    } else if s == "<"@ {
        Some(JsOp::Lt)
    } else if s == "<="@ {
        Some(JsOp::Le)
    } else if s == "!="@ {
        Some(JsOp::Ne)
    } else if s == ">"@ {
        Some(JsOp::Gt)
    } else if s == ">="@ {
        Some(JsOp::Ge)
    } else {
        None
    }
}

/// A Hyp unary operator translates to the JavaScript operator written the
/// same way.
pub proof fn law_js_unop_names(s: Seq<char>)
    ensures
        unop_of(s) matches Some(op) ==> crate::js_bundler::unop_text(op) == s,
{
}

/// The JavaScript spelling of the Hyp operator `s`: `==` and `!=` become
/// the strict `===` and `!==`, any other is spelled the same.
pub open spec fn js_spelling(s: Seq<char>) -> Seq<char> {
    if s == "=="@ {
        "==="@
    } else if s == "!="@ {
        "!=="@
    } else {
        s
    }
}

/// A Hyp binary operator translates to the JavaScript operator of the same
/// meaning: printed, it is the operator that was read (with `==` and `!=`
/// made strict). So no two operators of different meaning translate alike.
#[verifier::rlimit(100)]
#[verifier::spinoff_prover]
pub proof fn law_js_operator_names(s: Seq<char>)
    ensures
        binop_of(s) matches Some(op) ==> crate::js_bundler::binop_text(op) == " "@ + js_spelling(s) + " "@,
{
    reveal_strlit(" ");
    reveal_strlit(" != ");
    reveal_strlit(" !== ");
    reveal_strlit(" % ");
    reveal_strlit(" %= ");
    reveal_strlit(" & ");
    reveal_strlit(" && ");
    reveal_strlit(" &= ");
    reveal_strlit(" * ");
    reveal_strlit(" *= ");
    reveal_strlit(" + ");
    reveal_strlit(" += ");
    reveal_strlit(" - ");
    reveal_strlit(" -= ");
    reveal_strlit(" / ");
    reveal_strlit(" /= ");
    reveal_strlit(" < ");
    reveal_strlit(" << ");
    reveal_strlit(" <= ");
    reveal_strlit(" === ");
    reveal_strlit(" > ");
    reveal_strlit(" >= ");
    reveal_strlit(" >> ");
    reveal_strlit(" >>> ");
    reveal_strlit(" ^ ");
    reveal_strlit(" ^= ");
    reveal_strlit(" | ");
    reveal_strlit(" |= ");
    reveal_strlit(" || ");
    reveal_strlit("!=");
    reveal_strlit("!==");
    reveal_strlit("%");
    reveal_strlit("%=");
    reveal_strlit("&");
    reveal_strlit("&&");
    reveal_strlit("&=");
    reveal_strlit("*");
    reveal_strlit("*=");
    reveal_strlit("+");
    reveal_strlit("+=");
    reveal_strlit("-");
    reveal_strlit("-=");
    reveal_strlit("/");
    reveal_strlit("/=");
    reveal_strlit("<");
    reveal_strlit("<<");
    reveal_strlit("<=");
    reveal_strlit("==");
    reveal_strlit("===");
    reveal_strlit(">");
    reveal_strlit(">=");
    reveal_strlit(">>");
    reveal_strlit(">>>");
    reveal_strlit("^");
    reveal_strlit("^=");
    reveal_strlit("|");
    reveal_strlit("|=");
    reveal_strlit("||");
    if s == "*"@ {
        assert(s[0] == '*' && "=="@[0] == '=' && "!="@[0] == '!');
        assert(js_spelling(s) == "*"@);
        assert(" "@ + "*"@ + " "@ =~= " * "@);
    } else if s == "/"@ {
        assert(s[0] == '/' && "=="@[0] == '=' && "!="@[0] == '!');
        assert(js_spelling(s) == "/"@);
        assert(" "@ + "/"@ + " "@ =~= " / "@);
    } else if s == "+"@ {
        assert(s[0] == '+' && "=="@[0] == '=' && "!="@[0] == '!');
        assert(js_spelling(s) == "+"@);
        assert(" "@ + "+"@ + " "@ =~= " + "@);
    } else if s == "-"@ {
        assert(s[0] == '-' && "=="@[0] == '=' && "!="@[0] == '!');
        assert(js_spelling(s) == "-"@);
        assert(" "@ + "-"@ + " "@ =~= " - "@);
    } else if s == "%"@ {
        assert(s[0] == '%' && "=="@[0] == '=' && "!="@[0] == '!');
        assert(js_spelling(s) == "%"@);
        assert(" "@ + "%"@ + " "@ =~= " % "@);
    } else if s == "*="@ {
        assert(s[0] == '*' && "=="@[0] == '=' && "!="@[0] == '!');
        assert(js_spelling(s) == "*="@);
        assert(" "@ + "*="@ + " "@ =~= " *= "@);
    } else if s == "/="@ {
        assert(s[0] == '/' && "=="@[0] == '=' && "!="@[0] == '!');
        assert(js_spelling(s) == "/="@);
        assert(" "@ + "/="@ + " "@ =~= " /= "@);
    } else if s == "+="@ {
        assert(s[0] == '+' && "=="@[0] == '=' && "!="@[0] == '!');
        assert(js_spelling(s) == "+="@);
        assert(" "@ + "+="@ + " "@ =~= " += "@);
    } else if s == "-="@ {
        assert(s[0] == '-' && "=="@[0] == '=' && "!="@[0] == '!');
        assert(js_spelling(s) == "-="@);
        assert(" "@ + "-="@ + " "@ =~= " -= "@);
    } else if s == "%="@ {
        assert(s[0] == '%' && "=="@[0] == '=' && "!="@[0] == '!');
        assert(js_spelling(s) == "%="@);
        assert(" "@ + "%="@ + " "@ =~= " %= "@);
    } else if s == "|="@ {
        assert(s[0] == '|' && "=="@[0] == '=' && "!="@[0] == '!');
        assert(js_spelling(s) == "|="@);
        assert(" "@ + "|="@ + " "@ =~= " |= "@);
    } else if s == "&="@ {
        assert(s[0] == '&' && "=="@[0] == '=' && "!="@[0] == '!');
        assert(js_spelling(s) == "&="@);
        assert(" "@ + "&="@ + " "@ =~= " &= "@);
    } else if s == "^="@ {
        assert(s[0] == '^' && "=="@[0] == '=' && "!="@[0] == '!');
        assert(js_spelling(s) == "^="@);
        assert(" "@ + "^="@ + " "@ =~= " ^= "@);
    } else if s == "|"@ {
        assert(s[0] == '|' && "=="@[0] == '=' && "!="@[0] == '!');
        assert(js_spelling(s) == "|"@);
        assert(" "@ + "|"@ + " "@ =~= " | "@);
    } else if s == "&"@ {
        assert(s[0] == '&' && "=="@[0] == '=' && "!="@[0] == '!');
        assert(js_spelling(s) == "&"@);
        assert(" "@ + "&"@ + " "@ =~= " & "@);
    } else if s == "^"@ {
        assert(s[0] == '^' && "=="@[0] == '=' && "!="@[0] == '!');
        assert(js_spelling(s) == "^"@);
        assert(" "@ + "^"@ + " "@ =~= " ^ "@);
    } else if s == "&&"@ {
        assert(s[0] == '&' && "=="@[0] == '=' && "!="@[0] == '!');
        assert(js_spelling(s) == "&&"@);
        assert(" "@ + "&&"@ + " "@ =~= " && "@);
    } else if s == "||"@ {
        assert(s[0] == '|' && "=="@[0] == '=' && "!="@[0] == '!');
        assert(js_spelling(s) == "||"@);
        assert(" "@ + "||"@ + " "@ =~= " || "@);
    } else if s == "<<"@ {
        assert(s[0] == '<' && "=="@[0] == '=' && "!="@[0] == '!');
        assert(js_spelling(s) == "<<"@);
        assert(" "@ + "<<"@ + " "@ =~= " << "@);
    } else if s == ">>"@ {
        assert(s[0] == '>' && "=="@[0] == '=' && "!="@[0] == '!');
        assert(js_spelling(s) == ">>"@);
        assert(" "@ + ">>"@ + " "@ =~= " >> "@);
    } else if s == ">>>"@ {
        assert(s[0] == '>' && "=="@[0] == '=' && "!="@[0] == '!');
        assert(js_spelling(s) == ">>>"@);
        assert(" "@ + ">>>"@ + " "@ =~= " >>> "@);
    } else if s == "=="@ || s == "==="@ {
        assert(js_spelling(s) == "==="@);
        assert(" "@ + "==="@ + " "@ =~= " === "@);
    } else if s == "<"@ {
        assert(s[0] == '<' && "=="@[0] == '=' && "!="@[0] == '!');
        assert(js_spelling(s) == "<"@);
        assert(" "@ + "<"@ + " "@ =~= " < "@);
    } else if s == "<="@ {
        assert(s[0] == '<' && "=="@[0] == '=' && "!="@[0] == '!');
        assert(js_spelling(s) == "<="@);
        assert(" "@ + "<="@ + " "@ =~= " <= "@);
    } else if s == "!="@ {
        assert(js_spelling(s) == "!=="@);
        assert(" "@ + "!=="@ + " "@ =~= " !== "@);
    } else if s == ">"@ {
        assert(s[0] == '>' && "=="@[0] == '=' && "!="@[0] == '!');
        assert(js_spelling(s) == ">"@);
        assert(" "@ + ">"@ + " "@ =~= " > "@);
    } else if s == ">="@ {
        assert(s[0] == '>' && "=="@[0] == '=' && "!="@[0] == '!');
        assert(js_spelling(s) == ">="@);
        assert(" "@ + ">="@ + " "@ =~= " >= "@);
    }
}

/// The operator of a binary application: a name, or the builtin `*`.
pub open spec fn binop_data(op: hyp::AstData) -> Option<JsOp> {
    match op {
        hyp::AstData::Ident { s } => binop_of(s@),
        hyp::AstData::Local { local: hyp::Local::Builtin(hyp::Builtin::Star) } => Some(JsOp::Mul),
        _ => None,
    }
}

/// Translates the syntax trees of a module into JavaScript trees,
/// collecting the errors met on the way.
pub struct JsEnc {
    pub module: JsModule,
    pub errors: Vec<hyp::ParseError>,
}

impl JsEnc {
    pub fn new() -> (r: JsEnc)
        ensures
            r.module.items@.len() == 0,
            r.errors@.len() == 0,
    {
        JsEnc { module: JsModule { items: Vec::new() }, errors: Vec::new() }
    }

    /// Records an error at the span of `ast`.
    pub fn add_error(&mut self, ast: &hyp::Ast, s: &'static str)
        ensures
            final(self).errors@ == old(self).errors@.push(hyp::ParseError(ast.loc, s)),
            final(self).module == old(self).module,
    {
        self.errors.push(hyp::ParseError(ast.loc, s));
    }

    /// The unary operator `op`; an unknown one is an error (and reads as `-`).
    pub fn map_unop(&mut self, ast: &hyp::Ast, op: &hyp::Ident) -> (r: JsUnop)
        ensures
            unop_of(op@) matches Some(u) ==> r == u && final(self).errors == old(self).errors,
            unop_of(op@) is None ==> r == JsUnop::Minus && final(self).errors@ == old(
                self,
            ).errors@.push(hyp::ParseError(ast.loc, "unimplemented unary op")),
            final(self).module == old(self).module,
    {
        if text_is(op, "-") {
            JsUnop::Minus
        } else if text_is(op, "+") {
            JsUnop::Plus
        } else if text_is(op, "~") {
            JsUnop::BitNot
        } else if text_is(op, "!") {
            JsUnop::Not
        } else {
            self.add_error(ast, "unimplemented unary op");
            JsUnop::Minus
        }
    }

    /// The binary operator `op`; an unknown one is an error (and reads as `+`).
    pub fn map_binop(&mut self, ast: &hyp::Ast, op: &hyp::AstData) -> (r: JsOp)
        ensures
            binop_data(*op) matches Some(o) ==> r == o && final(self).errors == old(self).errors,
            binop_data(*op) is None ==> r == JsOp::Add && final(self).errors@ == old(
                self,
            ).errors@.push(hyp::ParseError(ast.loc, "unimplemented binary op")),
            final(self).module == old(self).module,
    {
        match op {
            hyp::AstData::Ident { s } => {
                if text_is(s, "*") {
                    JsOp::Mul
                } else if text_is(s, "/") {
                    JsOp::Div
                } else if text_is(s, "+") {
                    JsOp::Add
                } else if text_is(s, "-") {
                    JsOp::Sub
                } else if text_is(s, "%") {
                    JsOp::Rem
                } else if text_is(s, "*=") {
                    JsOp::MulEq
                } else if text_is(s, "/=") {
                    JsOp::DivEq
                } else if text_is(s, "+=") {
                    JsOp::AddEq
                } else if text_is(s, "-=") {
                    JsOp::SubEq
                } else if text_is(s, "%=") {
                    JsOp::RemEq
                } else if text_is(s, "|=") {
                    JsOp::OrEq
                } else if text_is(s, "&=") {
                    JsOp::AndEq
                } else if text_is(s, "^=") {
                    JsOp::XorEq
                } else if text_is(s, "|") {
                    JsOp::BitOr
                } else if text_is(s, "&") {
                    JsOp::BitAnd
                } else if text_is(s, "^") {
                    JsOp::BitXor
                } else if text_is(s, "&&") {
                    JsOp::AndAnd
                } else if text_is(s, "||") {
                    JsOp::OrOr
                } else if text_is(s, "<<") {
                    JsOp::Shl
                } else if text_is(s, ">>") {
                    JsOp::Shr
                } else if text_is(s, ">>>") {
                    JsOp::Lshr
                } else if text_is(s, "==") || text_is(s, "===") {
                    JsOp::Eq
                } else if text_is(s, "<") {
                    JsOp::Lt
                } else if text_is(s, "<=") {
                    JsOp::Le
                } else if text_is(s, "!=") {
                    JsOp::Ne
                } else if text_is(s, ">") {
                    JsOp::Gt
                } else if text_is(s, ">=") {
                    JsOp::Ge
                } else {
                    self.add_error(ast, "unimplemented binary op");
                    JsOp::Add
                }
            },
            hyp::AstData::Local { local: hyp::Local::Builtin(hyp::Builtin::Star) } => JsOp::Mul,
            _ => {
                self.add_error(ast, "unimplemented binary op");
                JsOp::Add
            },
        }
    }

    /// Whether `expr` may be assigned to: a constant global may not.
    pub fn check_assignable(&self, expr: &JsAst) -> (r: bool)
        ensures
            r == !(expr matches JsAst::Global { constant: true, .. }),
    {
        match expr {
            JsAst::Global { constant: true, .. } => false,
            _ => true,
        }
    }

    /// The name of an identifier in JavaScript.
    pub fn ident_to_str(&self, ident: &hyp::Ident) -> (r: String)
        ensures
            r@ == ident@,
    {
        ident.clone()
    }

    /// The JavaScript pattern of a pattern.
    pub fn parse_pattern(&self, pat: &hyp::Pattern) -> (r: JsPattern)
        ensures
            pat_of(*pat, r),
        decreases pat,
    {
        match pat {
            hyp::Pattern::Local(local_index) => JsPattern::Local(*local_index),
            hyp::Pattern::Array(arr) => JsPattern::Array(self.parse_patterns(arr)),
        }
    }

    fn parse_patterns(&self, arr: &Vec<hyp::Pattern>) -> (r: Vec<JsPattern>)
        ensures
            r@.len() == arr@.len(),
            pats_upto(arr@, r@, arr@.len()),
        decreases arr,
    {
        let mut out: Vec<JsPattern> = Vec::new();
        let mut i: usize = 0;
        while i < arr.len()
            invariant
                i <= arr@.len(),
                out@.len() == i,
                pats_upto(arr@, out@, i as nat),
            decreases arr@.len() - i,
        {
            let ghost before = out@;
            out.push(self.parse_pattern(&arr[i]));
            proof {
                lemma_pats_upto_extend(arr@, before, out@, i as nat);
            }
            i = i + 1;
        }
        out
    }

    fn params_patterns(&self, params: &Vec<hyp::ParamDef>) -> (r: Vec<JsPattern>)
        ensures
            params_pats(params@, r@),
    {
        let mut out: Vec<JsPattern> = Vec::new();
        let mut i: usize = 0;
        while i < params.len()
            invariant
                i <= params@.len(),
                out@.len() == i,
                forall|j: int| 0 <= j < i ==> #[trigger] pat_of(params@[j].pat, out@[j]),
            decreases params@.len() - i,
        {
            out.push(self.parse_pattern(&params[i].pat));
            i = i + 1;
        }
        out
    }
}

/// The unary operator written `s`, `-` when there is none.
pub open spec fn unop_or_minus(s: Seq<char>) -> JsUnop {
    match unop_of(s) {
        Some(u) => u,
        None => JsUnop::Minus,
    }
}

/// The binary operator of `op`, `+` when there is none.
pub open spec fn binop_or_add(op: hyp::AstData) -> JsOp {
    match binop_data(op) {
        Some(o) => o,
        None => JsOp::Add,
    }
}

/// `q` is the JavaScript pattern of `p`: the same local, or the same
/// patterns in brackets.
pub open spec fn pat_of(p: hyp::Pattern, q: JsPattern) -> bool
    decreases p, 1nat, 0nat,
{
    match p {
        hyp::Pattern::Local(i) => q == JsPattern::Local(i),
        hyp::Pattern::Array(a) => q matches JsPattern::Array(b) && b@.len() == a@.len() && pats_upto(
            a@,
            b@,
            a@.len(),
        ),
    }
}

/// The first `k` patterns of `qs` are those of `ps`.
pub open spec fn pats_upto(ps: Seq<hyp::Pattern>, qs: Seq<JsPattern>, k: nat) -> bool
    decreases ps, 0nat, k,
{
    if k == 0 {
        true
    } else if k > ps.len() || k > qs.len() {
        false
    } else {
        pats_upto(ps, qs, (k - 1) as nat) && pat_of(ps[k - 1], qs[k - 1])
    }
}

/// `qs` are the patterns of the parameters `ps`, in order.
pub open spec fn params_pats(ps: Seq<hyp::ParamDef>, qs: Seq<JsPattern>) -> bool {
    &&& qs.len() == ps.len()
    &&& forall|i: int| 0 <= i < ps.len() ==> #[trigger] pat_of(ps[i].pat, qs[i])
}

/// Whether the JavaScript tree of `a` is `undefined`: `void`, a type, a
/// statement or a builtin used as a value, or an application or field
/// access of a form that has no JavaScript counterpart.
pub open spec fn js_undef(a: hyp::Ast) -> bool {
    match a.data {
        hyp::AstData::Void | hyp::AstData::TypeDef { .. } | hyp::AstData::LetLocal { .. }
        | hyp::AstData::FnLocal { .. } | hyp::AstData::Use { .. } => true,
        hyp::AstData::App { fun, params, kind } => match kind {
            hyp::AppKind::Unary => !(fun.data is Ident && params@.len() >= 1),
            hyp::AppKind::Binary => params@.len() < 2,
            hyp::AppKind::Normal => false,
        },
        hyp::AstData::Field { member, .. } => !(member.data is Ident),
        hyp::AstData::Local { local } => local is Builtin,
        _ => false,
    }
}

/// `r` is the JavaScript tree of the expression `a`: the node of the same
/// kind, with the same literal, name, index or operator, and the trees of
/// its parts; `x := y` is an assignment, a `for` over `a..b` is a
/// counting loop on its local, and what `js_undef` names is `undefined`.
pub open spec fn js_of(a: hyp::Ast, r: JsAst) -> bool
    decreases a, 2nat, 0nat,
{
    if js_undef(a) {
        r is Undefined
    } else {
        match a.data {
            hyp::AstData::ConstLit { v } => match v {
                hyp::Lit::Int(n) => r == (JsAst::Lit { lit: JsLit::Int(n) }),
                hyp::Lit::Float(t) => r matches JsAst::Lit { lit: JsLit::Float(u) } && u@ == t@,
            },
            hyp::AstData::ConstStr { v } => r matches JsAst::Lit { lit: JsLit::Str(u) } && u@ == v@,
            hyp::AstData::Loop { body } => r matches JsAst::Loop { body: b } && stmts_of(body.expr@, b@),
            hyp::AstData::App { fun, params, kind } => match kind {
                hyp::AppKind::Unary => r matches JsAst::Unary { value, op } && js_of(params@[0], *value)
                    && op == unop_or_minus(fun.data->s@),
                hyp::AppKind::Binary => if fun.data matches hyp::AstData::Ident { s } && s@ == ":="@ {
                    r matches JsAst::Assign { left, right } && js_of(params@[0], *left) && js_of(
                        params@[1],
                        *right,
                    )
                } else {
                    r matches JsAst::Binary { left, op, right } && js_of(params@[0], *left) && js_of(
                        params@[1],
                        *right,
                    ) && op == binop_or_add(fun.data)
                },
                hyp::AppKind::Normal => r matches JsAst::Call { func, args } && js_of(*fun, *func)
                    && exprs_upto(params@, args@, params@.len()) && args@.len() == params@.len(),
            },
            hyp::AstData::NewObject { assignments } => r matches JsAst::NewObject { assignments: x }
                && x@.len() == assignments@.len() && assigns_upto(assignments@, x@, assignments@.len()),
            hyp::AstData::NewCtor { ctor, params } => r matches JsAst::NewCtor { ctor: c, params: p }
                && js_of(*ctor, *c) && p@.len() == params@.len() && exprs_upto(params@, p@, params@.len()),
            hyp::AstData::Ident { s } => r matches JsAst::Path { path } && path@.len() == 1 && path@[0]@
                == s@,
            hyp::AstData::Field { base, member } => r matches JsAst::Field { base: b, member: m } && js_of(
                *base,
                *b,
            ) && m@ == member.data->s@,
            hyp::AstData::Index { base, index } => r matches JsAst::Index { expr, index: i } && js_of(
                *base,
                *expr,
            ) && js_of(*index, *i),
            hyp::AstData::Array { elems } => r matches JsAst::Array { elems: e } && e@.len() == elems@.len()
                && exprs_upto(elems@, e@, elems@.len()),
            hyp::AstData::Lambda { lambda } => r matches JsAst::Lambda { inputs, body } && params_pats(
                lambda.params@,
                inputs@,
            ) && (*body matches JsAst::Block { stmts } && stmts_of(lambda.expr@, stmts@)),
            hyp::AstData::If { cond, body, else_body } => r matches JsAst::If {
                cond: c,
                then_branch,
                else_branch,
            } && js_of(*cond, *c) && stmts_of(body.expr@, then_branch@) && match else_body {
                Some(x) => else_branch matches Some(e) && js_of(*x, *e),
                None => else_branch is None,
            },
            hyp::AstData::For { pat, iter, body, .. } => r matches JsAst::For {
                pre,
                cond,
                post,
                body: b,
            } && stmts_of(body.expr@, b@) && (*pre matches JsAst::Locals { local_indexes, values }
                && local_indexes@ == seq![pat] && values@.len() == 1 && js_of(*iter.0, values@[0]))
                && (*cond matches JsAst::Binary { left, op, right } && *left == (JsAst::Local {
                index: pat,
            }) && op == JsOp::Lt && js_of(*iter.1, *right)) && *post == (JsAst::Unary {
                value: Box::new(JsAst::Local { index: pat }),
                op: JsUnop::PreInc,
            }),
            hyp::AstData::Block { expr } => r matches JsAst::Block { stmts } && stmts_of(expr@, stmts@),
            hyp::AstData::Break => r is Break,
            hyp::AstData::While { cond, body } => r matches JsAst::While { cond: c, body: b } && js_of(
                *cond,
                *c,
            ) && stmts_of(body.expr@, b@),
            hyp::AstData::Return { value } => r matches JsAst::Return { value: v } && match value {
                Some(e) => js_of(*e, *v),
                None => *v is Undefined,
            },
            hyp::AstData::Local { local } => match local {
                hyp::Local::ModuleRef { abs_index } => r == (JsAst::ModuleRef { abs_index }),
                hyp::Local::ModuleMember { abs_index, local_index } => r == (JsAst::ModuleMember {
                    abs_index,
                    local_index,
                }),
                hyp::Local::Local { index, .. } => r == (JsAst::Local { index }),
                hyp::Local::Builtin(_) => r is Undefined,
            },
            _ => r is Undefined,
        }
    }
}

/// The first `k` trees of `rs` are those of the expressions `es`.
pub open spec fn exprs_upto(es: Seq<hyp::Ast>, rs: Seq<JsAst>, k: nat) -> bool
    decreases es, 1nat, k,
{
    if k == 0 {
        true
    } else if k > es.len() || k > rs.len() {
        false
    } else {
        exprs_upto(es, rs, (k - 1) as nat) && js_of(es[k - 1], rs[k - 1])
    }
}

/// The first `k` fields of `rs` are those of `fields`: the same names, and
/// the trees of the values.
pub open spec fn assigns_upto(fields: Seq<(hyp::Ident, hyp::Ast)>, rs: Seq<(String, JsAst)>, k: nat) -> bool
    decreases fields, 1nat, k,
{
    if k == 0 {
        true
    } else if k > fields.len() || k > rs.len() {
        false
    } else {
        assigns_upto(fields, rs, (k - 1) as nat) && rs[k - 1].0@ == fields[k - 1].0@ && js_of(
            fields[k - 1].1,
            rs[k - 1].1,
        )
    }
}

/// Whether a statement is dropped from a translated body: it is when its
/// tree is `undefined`.
pub open spec fn stmt_dropped(a: hyp::Ast) -> bool {
    js_undef(a) && !(a.data is Use || a.data is FnLocal || a.data is LetLocal)
}

/// `r` is the JavaScript tree of the statement `a`: a `use` with its name
/// and index, a function with its patterns and body, a declaration of its
/// local with the tree of its value if it has one, else the tree of the
/// expression.
pub open spec fn stmt_of(a: hyp::Ast, r: JsAst) -> bool
    decreases a, 3nat, 0nat,
{
    match a.data {
        hyp::AstData::Use { name, rel_index } => r matches JsAst::Use { name: n, rel_index: i } && n@
            == name@ && i == rel_index,
        hyp::AstData::FnLocal { lambda, local_index, .. } => r matches JsAst::Fn { index, exported, args, expr }
            && index == local_index && !exported && params_pats(lambda.params@, args@)
            && (*expr matches JsAst::Block { stmts } && stmts_of(lambda.expr@, stmts@)),
        hyp::AstData::LetLocal { init, local_index, .. } => r matches JsAst::Locals { local_indexes, values }
            && local_indexes@ == seq![local_index] && match init {
            Some(i) => values@.len() == 1 && js_of(*i, values@[0]),
            None => values@.len() == 0,
        },
        _ => js_of(a, r),
    }
}

/// `rs` are the trees of the first `k` statements of `ss` that are not
/// dropped, in order.
pub open spec fn stmts_upto(ss: Seq<hyp::Ast>, rs: Seq<JsAst>, k: nat) -> bool
    decreases ss, 1nat, k,
{
    if k == 0 {
        rs.len() == 0
    } else if k > ss.len() {
        false
    } else if stmt_dropped(ss[k - 1]) {
        stmts_upto(ss, rs, (k - 1) as nat)
    } else {
        rs.len() > 0 && stmt_of(ss[k - 1], rs.last()) && stmts_upto(ss, rs.drop_last(), (k - 1) as nat)
    }
}

/// `rs` are the trees of the statements `ss` that are not dropped.
pub open spec fn stmts_of(ss: Seq<hyp::Ast>, rs: Seq<JsAst>) -> bool
    decreases ss, 2nat, 0nat,
{
    stmts_upto(ss, rs, ss.len())
}

/// The error `msg` at the span of `a`.
pub open spec fn err_at(a: hyp::Ast, msg: &'static str) -> Seq<hyp::ParseError> {
    seq![hyp::ParseError(a.loc, msg)]
}

/// The errors that translating the expression `a` records, in the order
/// met: an application of a form JavaScript has no counterpart for, an
/// unknown operator, a field access by something other than a name, a
/// builtin used as a value, a statement used as an expression.
pub open spec fn js_errs(a: hyp::Ast) -> Seq<hyp::ParseError>
    decreases a, 2nat, 0nat,
{
    match a.data {
        hyp::AstData::Void | hyp::AstData::TypeDef { .. } | hyp::AstData::ConstLit { .. }
        | hyp::AstData::ConstStr { .. } | hyp::AstData::Ident { .. } | hyp::AstData::Break => Seq::empty(),
        hyp::AstData::Loop { body } => stmts_errs(body.expr@, body.expr@.len()),
        hyp::AstData::App { fun, params, kind } => match kind {
            hyp::AppKind::Unary => match fun.data {
                hyp::AstData::Ident { s } => if params@.len() < 1 {
                    err_at(a, "unimplemented expr")
                } else {
                    js_errs(params@[0]) + if unop_of(s@) is None {
                        err_at(a, "unimplemented unary op")
                    } else {
                        Seq::empty()
                    }
                },
                _ => err_at(a, "unimplemented expr"),
            },
            hyp::AppKind::Binary => if params@.len() < 2 {
                err_at(a, "unimplemented expr")
            } else if fun.data matches hyp::AstData::Ident { s } && s@ == ":="@ {
                js_errs(params@[0]) + js_errs(params@[1])
            } else {
                js_errs(params@[0]) + (if binop_data(fun.data) is None {
                    err_at(a, "unimplemented binary op")
                } else {
                    Seq::empty()
                }) + js_errs(params@[1])
            },
            hyp::AppKind::Normal => js_errs(*fun) + exprs_errs(params@, params@.len()),
        },
        hyp::AstData::NewObject { assignments } => assigns_errs(assignments@, assignments@.len()),
        hyp::AstData::NewCtor { ctor, params } => js_errs(*ctor) + exprs_errs(params@, params@.len()),
        hyp::AstData::Field { base, member } => js_errs(*base) + if member.data is Ident {
            Seq::empty()
        } else {
            err_at(a, "invalid field access")
        },
        hyp::AstData::Index { base, index } => js_errs(*base) + js_errs(*index),
        hyp::AstData::Array { elems } => exprs_errs(elems@, elems@.len()),
        hyp::AstData::Lambda { lambda } => stmts_errs(lambda.expr@, lambda.expr@.len()),
        hyp::AstData::If { cond, body, else_body } => js_errs(*cond) + stmts_errs(body.expr@, body.expr@.len())
            + match else_body {
            Some(x) => js_errs(*x),
            None => Seq::empty(),
        },
        hyp::AstData::For { iter, body, .. } => stmts_errs(body.expr@, body.expr@.len()) + js_errs(*iter.0)
            + js_errs(*iter.1),
        hyp::AstData::Block { expr } => stmts_errs(expr@, expr@.len()),
        hyp::AstData::While { cond, body } => js_errs(*cond) + stmts_errs(body.expr@, body.expr@.len()),
        hyp::AstData::Return { value } => match value {
            Some(e) => js_errs(*e),
            None => Seq::empty(),
        },
        hyp::AstData::Local { local } => if local is Builtin {
            err_at(a, "builtins not implemented")
        } else {
            Seq::empty()
        },
        _ => err_at(a, "unimplemented expr"),
    }
}

/// The errors recorded for the first `k` expressions of `es`.
pub open spec fn exprs_errs(es: Seq<hyp::Ast>, k: nat) -> Seq<hyp::ParseError>
    decreases es, 1nat, k,
{
    if k == 0 || k > es.len() {
        Seq::empty()
    } else {
        exprs_errs(es, (k - 1) as nat) + js_errs(es[k - 1])
    }
}

/// The errors recorded for the values of the first `k` fields.
pub open spec fn assigns_errs(fields: Seq<(hyp::Ident, hyp::Ast)>, k: nat) -> Seq<hyp::ParseError>
    decreases fields, 1nat, k,
{
    if k == 0 || k > fields.len() {
        Seq::empty()
    } else {
        assigns_errs(fields, (k - 1) as nat) + js_errs(fields[k - 1].1)
    }
}

/// The errors recorded for a statement.
pub open spec fn stmt_errs(a: hyp::Ast) -> Seq<hyp::ParseError>
    decreases a, 3nat, 0nat,
{
    match a.data {
        hyp::AstData::Use { .. } => Seq::empty(),
        hyp::AstData::FnLocal { lambda, .. } => stmts_errs(lambda.expr@, lambda.expr@.len()),
        hyp::AstData::LetLocal { init, .. } => match init {
            Some(i) => js_errs(*i),
            None => Seq::empty(),
        },
        _ => js_errs(a),
    }
}

/// The errors recorded for the first `k` statements.
pub open spec fn stmts_errs(ss: Seq<hyp::Ast>, k: nat) -> Seq<hyp::ParseError>
    decreases ss, 1nat, k,
{
    if k == 0 || k > ss.len() {
        Seq::empty()
    } else {
        stmts_errs(ss, (k - 1) as nat) + stmt_errs(ss[k - 1])
    }
}

/// Whether a translated statement is `undefined` is decided by the
/// statement alone.
pub proof fn lemma_stmt_undefined(a: hyp::Ast, r: JsAst)
    requires
        stmt_of(a, r),
    ensures
        r is Undefined <==> stmt_dropped(a),
{
}

/// `exprs_upto` reads only the first `k` trees.
proof fn lemma_exprs_prefix(es: Seq<hyp::Ast>, a: Seq<JsAst>, b: Seq<JsAst>, k: nat)
    requires
        k <= a.len(),
        k <= b.len(),
        forall|j: int| 0 <= j < k ==> a[j] == b[j],
        exprs_upto(es, a, k),
    ensures
        exprs_upto(es, b, k),
    decreases k,
{
    if k > 0 {
        lemma_exprs_prefix(es, a, b, (k - 1) as nat);
    }
}

/// One tree more.
proof fn lemma_exprs_upto_extend(es: Seq<hyp::Ast>, before: Seq<JsAst>, after: Seq<JsAst>, i: nat)
    requires
        i < es.len(),
        before.len() == i,
        after.len() == i + 1,
        forall|j: int| 0 <= j < i ==> before[j] == after[j],
        exprs_upto(es, before, i),
        js_of(es[i as int], after[i as int]),
    ensures
        exprs_upto(es, after, i + 1),
{
    lemma_exprs_prefix(es, before, after, i);
}

/// `assigns_upto` reads only the first `k` fields.
proof fn lemma_assigns_prefix(
    fs: Seq<(hyp::Ident, hyp::Ast)>,
    a: Seq<(String, JsAst)>,
    b: Seq<(String, JsAst)>,
    k: nat,
)
    requires
        k <= a.len(),
        k <= b.len(),
        forall|j: int| 0 <= j < k ==> a[j] == b[j],
        assigns_upto(fs, a, k),
    ensures
        assigns_upto(fs, b, k),
    decreases k,
{
    if k > 0 {
        lemma_assigns_prefix(fs, a, b, (k - 1) as nat);
    }
}

/// One field more.
proof fn lemma_assigns_upto_extend(
    fs: Seq<(hyp::Ident, hyp::Ast)>,
    before: Seq<(String, JsAst)>,
    after: Seq<(String, JsAst)>,
    i: nat,
)
    requires
        i < fs.len(),
        before.len() == i,
        after.len() == i + 1,
        forall|j: int| 0 <= j < i ==> before[j] == after[j],
        assigns_upto(fs, before, i),
        after[i as int].0@ == fs[i as int].0@,
        js_of(fs[i as int].1, after[i as int].1),
    ensures
        assigns_upto(fs, after, i + 1),
{
    lemma_assigns_prefix(fs, before, after, i);
}

/// `pats_upto` reads only the first `k` patterns.
proof fn lemma_pats_prefix(ps: Seq<hyp::Pattern>, a: Seq<JsPattern>, b: Seq<JsPattern>, k: nat)
    requires
        k <= a.len(),
        k <= b.len(),
        forall|j: int| 0 <= j < k ==> a[j] == b[j],
        pats_upto(ps, a, k),
    ensures
        pats_upto(ps, b, k),
    decreases k,
{
    if k > 0 {
        lemma_pats_prefix(ps, a, b, (k - 1) as nat);
    }
}

/// One pattern more.
proof fn lemma_pats_upto_extend(ps: Seq<hyp::Pattern>, before: Seq<JsPattern>, after: Seq<JsPattern>, i: nat)
    requires
        i < ps.len(),
        before.len() == i,
        after.len() == i + 1,
        forall|j: int| 0 <= j < i ==> before[j] == after[j],
        pats_upto(ps, before, i),
        pat_of(ps[i as int], after[i as int]),
    ensures
        pats_upto(ps, after, i + 1),
{
    lemma_pats_prefix(ps, before, after, i);
}

/// `new` has the errors of `old` and perhaps more.
pub open spec fn more_errors(old: JsEnc, new: JsEnc) -> bool {
    &&& old.errors@.len() <= new.errors@.len()
    &&& forall|i: int| 0 <= i < old.errors@.len() ==> #[trigger] new.errors@[i] == old.errors@[i]
    &&& new.module == old.module
}

impl JsEnc {
    /// The JavaScript trees of `v`, in order.
    fn parse_exprs(&mut self, v: &Vec<hyp::Ast>) -> (r: Vec<JsAst>)
        ensures
            more_errors(*old(self), *final(self)),
            r@.len() == v@.len(),
            exprs_upto(v@, r@, v@.len()),
            final(self).errors@ == old(self).errors@ + exprs_errs(v@, v@.len()),
        decreases v, 0nat,
    {
        let mut out: Vec<JsAst> = Vec::new();
        let mut i: usize = 0;
        while i < v.len()
            invariant
                i <= v@.len(),
                out@.len() == i,
                more_errors(*old(self), *self),
                exprs_upto(v@, out@, i as nat),
                self.errors@ == old(self).errors@ + exprs_errs(v@, i as nat),
            decreases v@.len() - i,
        {
            let e = self.parse_expr(&v[i]);
            let ghost before = out@;
            out.push(e);
            proof {
                lemma_exprs_upto_extend(v@, before, out@, i as nat);
                assert(self.errors@ =~= old(self).errors@ + exprs_errs(v@, (i + 1) as nat));
            }
            i = i + 1;
        }
        out
    }

    /// The fields of an object, with their values translated.
    fn parse_assigns(&mut self, assignments: &Vec<(hyp::Ident, hyp::Ast)>) -> (r: Vec<(String, JsAst)>)
        ensures
            more_errors(*old(self), *final(self)),
            r@.len() == assignments@.len(),
            assigns_upto(assignments@, r@, assignments@.len()),
            final(self).errors@ == old(self).errors@ + assigns_errs(assignments@, assignments@.len()),
        decreases assignments, 0nat,
    {
        let mut out: Vec<(String, JsAst)> = Vec::new();
        let mut i: usize = 0;
        while i < assignments.len()
            invariant
                i <= assignments@.len(),
                out@.len() == i,
                more_errors(*old(self), *self),
                assigns_upto(assignments@, out@, i as nat),
                self.errors@ == old(self).errors@ + assigns_errs(assignments@, i as nat),
            decreases assignments@.len() - i,
        {
            let name = assignments[i].0.clone();
            proof {
                assert(decreases_to!(*assignments => assignments@[i as int]));
                assert(decreases_to!(assignments@[i as int] => assignments@[i as int].1));
            }
            let value = self.parse_expr(&assignments[i].1);
            let ghost before = out@;
            out.push((name, value));
            proof {
                lemma_assigns_upto_extend(assignments@, before, out@, i as nat);
                assert(self.errors@ =~= old(self).errors@ + assigns_errs(assignments@, (i + 1) as nat));
            }
            i = i + 1;
        }
        out
    }

    /// Translates an expression.
    pub fn parse_expr(&mut self, expr: &hyp::Ast) -> (r: JsAst)
        ensures
            more_errors(*old(self), *final(self)),
            js_of(*expr, r),
            final(self).errors@ == old(self).errors@ + js_errs(*expr),
        decreases expr, 1nat,
    {
        match &expr.data {
            hyp::AstData::Void | hyp::AstData::TypeDef { .. } => JsAst::Undefined,
            hyp::AstData::ConstLit { v } => match v {
                hyp::Lit::Int(n) => JsAst::Lit { lit: JsLit::Int(*n) },
                hyp::Lit::Float(t) => JsAst::Lit { lit: JsLit::Float(t.clone()) },
            },
            hyp::AstData::ConstStr { v } => JsAst::Lit { lit: JsLit::Str(v.clone()) },
            hyp::AstData::Loop { body } => {
                let body_ast = self.parse_stmts(&body.expr);
                JsAst::Loop { body: body_ast }
            },
            hyp::AstData::App { fun, params, kind } => match kind {
                hyp::AppKind::Unary => match &fun.data {
                    hyp::AstData::Ident { s } => {
                        if params.len() < 1 {
                            self.add_error(expr, "unimplemented expr");
                            return JsAst::Undefined;
                        }
                        let value = self.parse_expr(&params[0]);
                        let op = self.map_unop(expr, s);
                        JsAst::Unary { value: Box::new(value), op }
                    },
                    _ => {
                        self.add_error(expr, "unimplemented expr");
                        JsAst::Undefined
                    },
                },
                hyp::AppKind::Binary => {
                    if params.len() < 2 {
                        self.add_error(expr, "unimplemented expr");
                        return JsAst::Undefined;
                    }
                    let is_assign = match &fun.data {
                        hyp::AstData::Ident { s } => text_is(s, ":="),
                        _ => false,
                    };
                    if is_assign {
                        let left_ast = self.parse_expr(&params[0]);
                        if !self.check_assignable(&left_ast) {
                            self.add_error(expr, "cannot assign to global");
                        }
                        let right = self.parse_expr(&params[1]);
                        JsAst::Assign { left: Box::new(left_ast), right: Box::new(right) }
                    } else {
                        let left = self.parse_expr(&params[0]);
                        let op = self.map_binop(expr, &fun.data);
                        let right = self.parse_expr(&params[1]);
                        JsAst::Binary { left: Box::new(left), op, right: Box::new(right) }
                    }
                },
                hyp::AppKind::Normal => {
                    let func = self.parse_expr(fun);
                    let args = self.parse_exprs(params);
                    JsAst::Call { func: Box::new(func), args }
                },
            },
            hyp::AstData::NewObject { assignments } => {
                let out = self.parse_assigns(assignments);
                JsAst::NewObject { assignments: out }
            },
            hyp::AstData::NewCtor { ctor, params } => {
                let c = self.parse_expr(ctor);
                let ps = self.parse_exprs(params);
                JsAst::NewCtor { ctor: Box::new(c), params: ps }
            },
            hyp::AstData::Ident { s } => {
                let mut path: Vec<String> = Vec::new();
                path.push(self.ident_to_str(s));
                JsAst::Path { path }
            },
            hyp::AstData::Field { base, member } => {
                let base_ast = self.parse_expr(base);
                match &member.data {
                    hyp::AstData::Ident { s } => {
                        let member_str = self.ident_to_str(s);
                        JsAst::Field { base: Box::new(base_ast), member: member_str }
                    },
                    _ => {
                        self.add_error(expr, "invalid field access");
                        JsAst::Undefined
                    },
                }
            },
            hyp::AstData::Index { base, index } => {
                let base_ast = self.parse_expr(base);
                let index_ast = self.parse_expr(index);
                JsAst::Index { expr: Box::new(base_ast), index: Box::new(index_ast) }
            },
            hyp::AstData::Array { elems } => {
                let es = self.parse_exprs(elems);
                JsAst::Array { elems: es }
            },
            hyp::AstData::Lambda { lambda } => {
                let args = self.params_patterns(&lambda.params);
                let body_ast = self.parse_stmts(&lambda.expr);
                JsAst::Lambda { inputs: args, body: Box::new(JsAst::Block { stmts: body_ast }) }
            },
            hyp::AstData::If { cond, body, else_body } => {
                let cond_ast = Box::new(self.parse_expr(cond));
                let then_ast = self.parse_stmts(&body.expr);
                let else_branch = match else_body {
                    Some(x) => Some(Box::new(self.parse_expr(x))),
                    None => None,
                };
                JsAst::If { cond: cond_ast, then_branch: then_ast, else_branch }
            },
            hyp::AstData::For { pat, iter, body, .. } => {
                let body_ast = self.parse_stmts(&body.expr);
                let from = self.parse_expr(&iter.0);
                let mut local_indexes: Vec<u32> = Vec::new();
                local_indexes.push(*pat);
                let mut values: Vec<JsAst> = Vec::new();
                values.push(from);
                let to = self.parse_expr(&iter.1);
                JsAst::For {
                    pre: Box::new(JsAst::Locals { local_indexes, values }),
                    cond: Box::new(
                        JsAst::Binary {
                            left: Box::new(JsAst::Local { index: *pat }),
                            op: JsOp::Lt,
                            right: Box::new(to),
                        },
                    ),
                    post: Box::new(
                        JsAst::Unary { value: Box::new(JsAst::Local { index: *pat }), op: JsUnop::PreInc },
                    ),
                    body: body_ast,
                }
            },
            hyp::AstData::Block { expr: stmts } => {
                let ss = self.parse_stmts(stmts);
                JsAst::Block { stmts: ss }
            },
            hyp::AstData::Break => JsAst::Break,
            hyp::AstData::While { cond, body } => {
                let cond_ast = Box::new(self.parse_expr(cond));
                let body_ast = self.parse_stmts(&body.expr);
                JsAst::While { cond: cond_ast, body: body_ast }
            },
            hyp::AstData::Return { value } => {
                let v = match value {
                    Some(e) => self.parse_expr(e),
                    None => JsAst::Undefined,
                };
                JsAst::Return { value: Box::new(v) }
            },
            hyp::AstData::Local { local } => match local {
                hyp::Local::ModuleRef { abs_index } => JsAst::ModuleRef { abs_index: *abs_index },
                hyp::Local::ModuleMember { abs_index, local_index } => JsAst::ModuleMember {
                    abs_index: *abs_index,
                    local_index: *local_index,
                },
                hyp::Local::Builtin(_) => {
                    self.add_error(expr, "builtins not implemented");
                    JsAst::Undefined
                },
                hyp::Local::Local { index, .. } => JsAst::Local { index: *index },
            },
            _ => {
                self.add_error(expr, "unimplemented expr");
                JsAst::Undefined
            },
        }
    }

    /// Translates statements, dropping those that translate to nothing.
    pub fn parse_stmts(&mut self, stmts: &Vec<hyp::Ast>) -> (r: Vec<JsAst>)
        ensures
            more_errors(*old(self), *final(self)),
            stmts_of(stmts@, r@),
            final(self).errors@ == old(self).errors@ + stmts_errs(stmts@, stmts@.len()),
        decreases stmts, 0nat,
    {
        let mut items: Vec<JsAst> = Vec::new();
        let mut i: usize = 0;
        while i < stmts.len()
            invariant
                i <= stmts@.len(),
                more_errors(*old(self), *self),
                stmts_upto(stmts@, items@, i as nat),
                self.errors@ == old(self).errors@ + stmts_errs(stmts@, i as nat),
            decreases stmts@.len() - i,
        {
            let ast = self.parse_stmt(&stmts[i]);
            proof {
                lemma_stmt_undefined(stmts@[i as int], ast);
                assert(self.errors@ =~= old(self).errors@ + stmts_errs(stmts@, (i + 1) as nat));
            }
            match ast {
                JsAst::Undefined => {},
                _ => {
                    let ghost before = items@;
                    items.push(ast);
                    assert(items@.drop_last() =~= before);
                },
            }
            i = i + 1;
        }
        items
    }

    /// Translates a statement: `use`, a function, a declaration, or an
    /// expression.
    pub fn parse_stmt(&mut self, stmt: &hyp::Ast) -> (r: JsAst)
        ensures
            more_errors(*old(self), *final(self)),
            stmt_of(*stmt, r),
            final(self).errors@ == old(self).errors@ + stmt_errs(*stmt),
        decreases stmt, 2nat,
    {
        match &stmt.data {
            hyp::AstData::Use { name, rel_index } => {
                let name = self.ident_to_str(name);
                JsAst::Use { name, rel_index: *rel_index }
            },
            hyp::AstData::FnLocal { lambda, local_index, .. } => {
                let exported = false;
                let args = self.params_patterns(&lambda.params);
                let expr = JsAst::Block { stmts: self.parse_stmts(&lambda.expr) };
                JsAst::Fn { index: *local_index, exported, args, expr: Box::new(expr) }
            },
            hyp::AstData::LetLocal { init, local_index, .. } => {
                let mut values: Vec<JsAst> = Vec::new();
                match init {
                    Some(i) => {
                        let v = self.parse_expr(i);
                        values.push(v);
                    },
                    None => {},
                }
                let mut local_indexes: Vec<u32> = Vec::new();
                local_indexes.push(*local_index);
                JsAst::Locals { local_indexes, values }
            },
            _ => self.parse_expr(stmt),
        }
    }

    /// Translates the body of a lambda into a block.
    pub fn parse_block(&mut self, block: &hyp::AstLambda) -> (r: JsAst)
        ensures
            more_errors(*old(self), *final(self)),
            r is Block,
    {
        JsAst::Block { stmts: self.parse_stmts(&block.expr) }
    }

    /// Translates the items of a module into the module's items.
    pub fn parse_hyp(&mut self, input: &Vec<hyp::Ast>)
        ensures
            final(self).errors@ == old(self).errors@ + stmts_errs(input@, input@.len()),
            stmts_of(input@, final(self).module.items@),
    {
        let items = self.parse_stmts(input);
        self.module.items = items;
    }
}

} // verus!
