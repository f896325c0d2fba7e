use vstd::prelude::*;
use super::{Ast, AstData, AstLambda, Ident, Local, Module, ParamDef, Pattern};

verus! {

/// Whether every local the pattern binds is below `nl`.
pub fn pattern_is_ok(p: &Pattern, nl: usize) -> (r: bool)
    ensures
        r == super::pattern_ok(*p, nl as nat),
    decreases p, 1nat,
{
    match p {
        Pattern::Local(i) => (*i as usize) < nl,
        Pattern::Array(ps) => patterns_are_ok(ps, nl),
    }
}

/// Whether every pattern of `ps` is well formed (see `pattern_is_ok`).
pub fn patterns_are_ok(ps: &Vec<Pattern>, nl: usize) -> (r: bool)
    ensures
        r == super::patterns_ok(ps@, nl as nat),
    decreases ps, 0nat,
{
    let mut i: usize = 0;
    while i < ps.len()
        invariant
            i <= ps@.len(),
            super::patterns_ok(ps@.take(i as int), nl as nat),
        decreases ps@.len() - i,
    {
        assert(ps@.take(i + 1).drop_last() =~= ps@.take(i as int));
        if !pattern_is_ok(&ps[i], nl) {
            proof {
                if super::patterns_ok(ps@, nl as nat) {
                    super::lemma_patterns_each(ps@, nl as nat);
                }
            }
            return false;
        }
        i = i + 1;
    }
    assert(ps@.take(i as int) =~= ps@);
    true
}

/// Whether every parameter's pattern is well formed.
pub fn params_are_ok(ps: &Vec<ParamDef>, nl: usize) -> (r: bool)
    ensures
        r == super::params_ok(ps@, nl as nat),
{
    let mut i: usize = 0;
    while i < ps.len()
        invariant
            i <= ps@.len(),
            super::params_ok(ps@.take(i as int), nl as nat),
        decreases ps@.len() - i,
    {
        assert(ps@.take(i + 1).drop_last() =~= ps@.take(i as int));
        if !pattern_is_ok(&ps[i].pat, nl) {
            proof {
                if super::params_ok(ps@, nl as nat) {
                    super::lemma_params_each(ps@, nl as nat);
                }
            }
            return false;
        }
        i = i + 1;
    }
    assert(ps@.take(i as int) =~= ps@);
    true
}

/// Whether the lambda refers only to locals below `nl`, types below `nt`
/// and uses below `nu`.
pub fn lambda_is_ok(l: &AstLambda, nl: usize, nt: usize, nu: usize) -> (r: bool)
    ensures
        r == super::lambda_ok(*l, nl as nat, nt as nat, nu as nat),
    decreases l, 2nat,
{
    if !params_are_ok(&l.params, nl) {
        return false;
    }
    let mut i: usize = 0;
    while i < l.param_locals.len()
        invariant
            i <= l.param_locals@.len(),
            forall|j: int| 0 <= j < i ==> #[trigger] l.param_locals@[j] < nl,
        decreases l.param_locals@.len() - i,
    {
        if (l.param_locals[i] as usize) >= nl {
            return false;
        }
        i = i + 1;
    }
    asts_are_ok(&l.expr, nl, nt, nu)
}

/// Whether every tree of `s` is well formed (see `ast_is_ok`).
pub fn asts_are_ok(s: &Vec<Ast>, nl: usize, nt: usize, nu: usize) -> (r: bool)
    ensures
        r == super::asts_ok(s@, nl as nat, nt as nat, nu as nat),
    decreases s, 1nat,
{
    let mut i: usize = 0;
    while i < s.len()
        invariant
            i <= s@.len(),
            super::asts_ok(s@.take(i as int), nl as nat, nt as nat, nu as nat),
        decreases s@.len() - i,
    {
        assert(s@.take(i + 1).drop_last() =~= s@.take(i as int));
        if !ast_is_ok(&s[i], nl, nt, nu) {
            proof {
                if super::asts_ok(s@, nl as nat, nt as nat, nu as nat) {
                    super::lemma_asts_each(s@, nl as nat, nt as nat, nu as nat);
                }
            }
            return false;
        }
        i = i + 1;
    }
    assert(s@.take(i as int) =~= s@);
    true
}

/// Whether every value of `s` is well formed.
pub fn assigns_are_ok(s: &Vec<(Ident, Ast)>, nl: usize, nt: usize, nu: usize) -> (r: bool)
    ensures
        r == super::assigns_ok(s@, nl as nat, nt as nat, nu as nat),
    decreases s, 1nat,
{
    let mut i: usize = 0;
    while i < s.len()
        invariant
            i <= s@.len(),
            super::assigns_ok(s@.take(i as int), nl as nat, nt as nat, nu as nat),
        decreases s@.len() - i,
    {
        assert(s@.take(i + 1).drop_last() =~= s@.take(i as int));
        proof {
            assert(decreases_to!(*s => s@[i as int]));
            assert(decreases_to!(s@[i as int] => s@[i as int].1));
        }
        if !ast_is_ok(&s[i].1, nl, nt, nu) {
            proof {
                if super::assigns_ok(s@, nl as nat, nt as nat, nu as nat) {
                    super::lemma_assigns_each(s@, nl as nat, nt as nat, nu as nat);
                }
            }
            return false;
        }
        i = i + 1;
    }
    assert(s@.take(i as int) =~= s@);
    true
}

/// Whether the tree refers only to locals below `nl`, types below `nt`
/// and uses below `nu` (see `ast_ok`).
pub fn ast_is_ok(a: &Ast, nl: usize, nt: usize, nu: usize) -> (r: bool)
    ensures
        r == super::ast_ok(*a, nl as nat, nt as nat, nu as nat),
    decreases a, 3nat,
{
    match &a.data {
        AstData::Local { local } => match local {
            Local::Local { index, .. } => (*index as usize) < nl,
            _ => true,
        },
        AstData::App { fun, params, .. } => ast_is_ok(fun, nl, nt, nu) && asts_are_ok(params, nl, nt, nu),
        AstData::Lambda { lambda } => lambda_is_ok(lambda, nl, nt, nu),
        AstData::Block { expr } => asts_are_ok(expr, nl, nt, nu),
        AstData::TypeDef { index } => (*index as usize) < nt,
        AstData::LetLocal { init, local_index, .. } => (*local_index as usize) < nl && match init {
            Some(i) => ast_is_ok(i, nl, nt, nu),
            None => true,
        },
        AstData::FnLocal { lambda, local_index, .. } => (*local_index as usize) < nl && lambda_is_ok(
            lambda,
            nl,
            nt,
            nu,
        ),
        AstData::Field { base, member } => ast_is_ok(base, nl, nt, nu) && ast_is_ok(member, nl, nt, nu),
        AstData::For { pat, iter, body, .. } => (*pat as usize) < nl && ast_is_ok(&iter.0, nl, nt, nu)
            && ast_is_ok(&iter.1, nl, nt, nu) && lambda_is_ok(body, nl, nt, nu),
        AstData::Index { base, index } => ast_is_ok(base, nl, nt, nu) && ast_is_ok(index, nl, nt, nu),
        AstData::Array { elems } => asts_are_ok(elems, nl, nt, nu),
        AstData::If { cond, body, else_body } => ast_is_ok(cond, nl, nt, nu) && lambda_is_ok(
            body,
            nl,
            nt,
            nu,
        ) && match else_body {
            Some(e) => ast_is_ok(e, nl, nt, nu),
            None => true,
        },
        AstData::While { cond, body } => ast_is_ok(cond, nl, nt, nu) && lambda_is_ok(body, nl, nt, nu),
        AstData::Loop { body } => lambda_is_ok(body, nl, nt, nu),
        AstData::Return { value } => match value {
            Some(v) => ast_is_ok(v, nl, nt, nu),
            None => true,
        },
        AstData::Use { rel_index, .. } => (*rel_index as usize) < nu,
        AstData::NewObject { assignments } => assigns_are_ok(assignments, nl, nt, nu),
        AstData::NewCtor { ctor, params } => ast_is_ok(ctor, nl, nt, nu) && asts_are_ok(params, nl, nt, nu),
        _ => true,
    }
}

/// Whether a module refers only to what it declares, and its exports are
/// locals listed under their names (see `module_ok`).
pub fn module_is_ok(m: &Module) -> (r: bool)
    ensures
        r == super::module_ok(*m),
{
    if !lambda_is_ok(&m.lambda, m.locals.len(), m.local_types.len(), m.uses.len()) {
        return false;
    }
    if m.exports_rev.len() != m.exports.len() {
        return false;
    }
    let mut i: usize = 0;
    while i < m.exports.len()
        invariant
            i <= m.exports@.len(),
            m.exports_rev@.len() == m.exports@.len(),
            forall|j: int|
                0 <= j < i ==> #[trigger] m.exports@[j] < m.locals@.len() && m.exports_rev@[j].1
                    == m.exports@[j] && m.exports_rev@[j].0@ == m.locals@[m.exports@[j] as int].name@,
        decreases m.exports@.len() - i,
    {
        let e = m.exports[i];
        if (e as usize) >= m.locals.len() || m.exports_rev[i].1 != e {
            return false;
        }
        if !super::parser::text_is(&m.exports_rev[i].0, m.locals[e as usize].name.as_str()) {
            return false;
        }
        i = i + 1;
    }
    true
}

} // verus!
