use vstd::prelude::*;
use super::{
    Ast, AstData, AstLambda, AstType, Attr, Builtin, Ident, Language, Lit, Local, ModuleInfo,
    ParamDef, ParseError, Span,
};
use crate::conflict_tree::{ConflictTree, TreeModel};
use super::parser::text_is;

verus! {

broadcast use vstd::std_specs::vec::group_vec_axioms;

/// A name in scope: what it stands for and how often it was used.
pub struct ScopeLocal {
    pub name: Ident,
    pub local: Local,
    pub count: usize,
}

/// A type name in scope.
pub struct ScopeType {
    pub name: Ident,
    pub ty: AstType,
}

/// Resolves the names of one module: each identifier becomes the local,
/// module or builtin it names in the enclosing scopes, named types are
/// replaced by what they stand for, and the locals of each scope are
/// gathered in a conflict tree for renaming.
pub struct Resolver {
    pub scope_locals: Vec<ScopeLocal>,
    pub scope_local_list: Vec<Ident>,
    pub scope_local_types: Vec<ScopeType>,
    pub scope_local_type_list: Vec<Ident>,
    pub current_module: usize,
    pub module_infos: Vec<ModuleInfo>,
    pub debug: bool,
    pub conflict_tree_stack: Vec<ConflictTree<u32>>,
    pub errors: Vec<ParseError>,
}

/// No name is in scope twice.
pub open spec fn names_distinct(s: Seq<ScopeLocal>) -> bool {
    forall|i: int, j: int| 0 <= i < j < s.len() ==> s[i].name@ != s[j].name@
}

pub open spec fn type_names_distinct(s: Seq<ScopeType>) -> bool {
    forall|i: int, j: int| 0 <= i < j < s.len() ==> s[i].name@ != s[j].name@
}

/// A local in scope refers to a local of the module (with an inlined
/// value that refers only to declared items) or to one of `nm` modules.
pub open spec fn local_ok(l: Local, nl: nat, nt: nat, nu: nat, nm: nat) -> bool {
    match l {
        Local::Local { index, inline } => index < nl && match inline {
            Some(e) => super::ast_ok(*e, nl, nt, nu),
            None => true,
        },
        Local::ModuleRef { abs_index } => abs_index < nm,
        _ => true,
    }
}

/// `b` is a copy of `a`: the same kind of local with the same indexes or
/// builtin, and an inlined value exactly when `a` has one.
pub open spec fn copied_local(a: Local, b: Local) -> bool {
    match (a, b) {
        (Local::ModuleRef { abs_index: x }, Local::ModuleRef { abs_index: y }) => x == y,
        (Local::ModuleMember { abs_index: x, local_index: i }, Local::ModuleMember { abs_index: y, local_index: j }) => x
            == y && i == j,
        (Local::Builtin(x), Local::Builtin(y)) => x == y,
        (Local::Local { index: x, inline: p }, Local::Local { index: y, inline: q }) => x == y && (p is Some
            <==> q is Some),
        _ => false,
    }
}

/// `new` is the scope `old` after a use of the name `s`: the names and
/// their meanings stay, and the name `s` counts one use more (up to the
/// largest count).
pub open spec fn counted(old: Seq<ScopeLocal>, new: Seq<ScopeLocal>, s: Seq<char>) -> bool {
    &&& new.len() == old.len()
    &&& forall|i: int|
        0 <= i < old.len() ==> #[trigger] new[i].name == old[i].name && new[i].local == old[i].local
            && new[i].count == if old[i].name@ == s && old[i].count < usize::MAX {
            (old[i].count + 1) as usize
        } else {
            old[i].count
        }
}

/// What the name `s` stands for among the names in scope, if anything.
pub open spec fn in_scope(scope: Seq<ScopeLocal>, s: Seq<char>) -> Option<Local> {
    if exists|i: int| 0 <= i < scope.len() && #[trigger] scope[i].name@ == s {
        Some(scope[choose|i: int| 0 <= i < scope.len() && #[trigger] scope[i].name@ == s].local)
    } else {
        None
    }
}

/// The member that `base.member` names: `base` a module and `member` a
/// name that module exports.
pub open spec fn member_of(infos: Seq<ModuleInfo>, base: Ast, member: Ast) -> Option<(u32, u32)> {
    match (base.data, member.data) {
        (AstData::Local { local: Local::ModuleRef { abs_index } }, AstData::Ident { s }) => if abs_index
            < infos.len() {
            match super::rev_lookup(infos[abs_index as int].exports_rev@, s@) {
                Some(l) => Some((abs_index, l)),
                None => None,
            }
        } else {
            None
        },
        _ => None,
    }
}

/// Whether `n` is among the names of `list` from position `k` on.
pub open spec fn named_from(list: Seq<Ident>, k: int, n: Seq<char>) -> bool {
    exists|j: int| k <= j < list.len() && #[trigger] list[j]@ == n
}

/// `after` holds the names in scope of `before` except those named in
/// `list` from position `k` on, with what they stand for.
pub open spec fn scope_after_flush(before: Seq<ScopeLocal>, after: Seq<ScopeLocal>, list: Seq<Ident>, k: int) -> bool {
    &&& forall|j: int|
        0 <= j < before.len() && !named_from(list, k, #[trigger] before[j].name@) ==> after.contains(before[j])
    &&& forall|i: int|
        0 <= i < after.len() ==> before.contains(#[trigger] after[i]) && !named_from(list, k, after[i].name@)
}

/// The items that closing scopes adds to the innermost conflict tree:
/// the names of `list` from position `hi - 1` down to `lo` are taken out of
/// `scope` in turn, and each that names a local of the module (not an
/// inlined one) adds that local with its use count.
pub open spec fn flushed(scope: Seq<ScopeLocal>, list: Seq<Ident>, hi: int, lo: int) -> Seq<(u32, usize)>
    decreases hi - lo,
{
    if hi <= lo || hi > list.len() {
        Seq::empty()
    } else if exists|i: int| 0 <= i < scope.len() && #[trigger] scope[i].name@ == list[hi - 1]@ {
        let i = choose|i: int| 0 <= i < scope.len() && #[trigger] scope[i].name@ == list[hi - 1]@;
        let e = scope[i];
        (match e.local {
            Local::Local { index, inline: None } => seq![(index, e.count)],
            _ => Seq::empty(),
        }) + flushed(scope.remove(i), list, hi - 1, lo)
    } else {
        flushed(scope, list, hi - 1, lo)
    }
}

impl Resolver {
    /// The module being resolved.
    pub open spec fn cur(&self) -> ModuleInfo {
        self.module_infos@[self.current_module as int]
    }

    pub open spec fn nl(&self) -> nat {
        self.cur().locals@.len()
    }

    pub open spec fn nt(&self) -> nat {
        self.cur().local_types@.len()
    }

    pub open spec fn nu(&self) -> nat {
        self.cur().import_map@.len()
    }

    /// `a` refers only to what the module declares.
    pub open spec fn ok_ast(&self, a: Ast) -> bool {
        super::ast_ok(a, self.nl(), self.nt(), self.nu())
    }

    pub open spec fn ok_lambda(&self, l: AstLambda) -> bool {
        super::lambda_ok(l, self.nl(), self.nt(), self.nu())
    }

    /// The resolver's invariant: the module exists, there is an open
    /// scope, names in scope are distinct and refer to what exists, and the
    /// module's imports are modules.
    pub open spec fn inv(&self) -> bool {
        &&& self.current_module < self.module_infos@.len()
        &&& self.conflict_tree_stack@.len() >= 1
        &&& names_distinct(self.scope_locals@)
        &&& type_names_distinct(self.scope_local_types@)
        &&& forall|i: int|
            0 <= i < self.scope_locals@.len() ==> local_ok(
                #[trigger] self.scope_locals@[i].local,
                self.nl(),
                self.nt(),
                self.nu(),
                self.module_infos@.len(),
            )
        &&& forall|i: int|
            0 <= i < self.cur().import_map@.len() ==> #[trigger] self.cur().import_map@[i]
                < self.module_infos@.len()
    }

    /// What resolving keeps: the modules and what each declares (only the
    /// types of the current module's locals and named types change).
    pub open spec fn frame(old: Resolver, new: Resolver) -> bool {
        &&& new.current_module == old.current_module
        &&& new.debug == old.debug
        &&& new.module_infos@.len() == old.module_infos@.len()
        &&& forall|j: int|
            0 <= j < old.module_infos@.len() && j != old.current_module ==> #[trigger] new.module_infos@[j]
                == old.module_infos@[j]
        &&& new.cur().locals@.len() == old.cur().locals@.len()
        &&& new.cur().local_types@.len() == old.cur().local_types@.len()
        &&& new.cur().import_map == old.cur().import_map
        &&& new.cur().language == old.cur().language
        &&& new.cur().src == old.cur().src
        &&& new.cur().name == old.cur().name
        &&& new.cur().exports_rev == old.cur().exports_rev
        &&& forall|i: int|
            0 <= i < old.cur().locals@.len() ==> #[trigger] new.cur().locals@[i].name
                == old.cur().locals@[i].name
        &&& old.errors@.len() <= new.errors@.len()
    }

    /// A resolver for the module `current_module` among `module_infos`,
    /// with the builtins of its language in scope.
    pub fn new(current_module: usize, module_infos: Vec<ModuleInfo>, debug: bool) -> (r: Resolver)
        requires
            current_module < module_infos@.len(),
            forall|i: int|
                0 <= i < module_infos@[current_module as int].import_map@.len()
                    ==> #[trigger] module_infos@[current_module as int].import_map@[i]
                    < module_infos@.len(),
        ensures
            r.inv(),
            r.current_module == current_module,
            r.module_infos == module_infos,
            r.debug == debug,
            r.errors@.len() == 0,
            r.conflict_tree_stack@.len() == 1,
    {
        let mut res = Resolver {
            scope_locals: Vec::new(),
            scope_local_list: Vec::new(),
            scope_local_types: Vec::new(),
            scope_local_type_list: Vec::new(),
            conflict_tree_stack: Vec::new(),
            current_module,
            module_infos,
            debug,
            errors: Vec::new(),
        };
        res.conflict_tree_stack.push(ConflictTree::new());
        let lang = res.module_infos[current_module].language;
        match lang {
            Language::Js => {
                res.add_local(builtin_name_star(), Local::Builtin(Builtin::Star), Span(0, 0));
            },
            Language::Glsl => {
                res.add_local(builtin_name_vec2(), Local::Builtin(Builtin::Vec2Ctor), Span(0, 0));
                assert(res.scope_locals@[0].name@[0] != 'm');
                res.add_local(builtin_name_mat2(), Local::Builtin(Builtin::Mat2Ctor), Span(0, 0));
            },
            Language::Binary => {},
        }
        res
    }

    /// Records an error at the span of `ast`.
    pub fn add_error(&mut self, ast: &Ast, s: &'static str)
        ensures
            final(self).errors@ == old(self).errors@.push(ParseError(ast.loc, s)),
            final(self).scope_locals == old(self).scope_locals,
            final(self).scope_local_list == old(self).scope_local_list,
            final(self).scope_local_types == old(self).scope_local_types,
            final(self).scope_local_type_list == old(self).scope_local_type_list,
            final(self).current_module == old(self).current_module,
            final(self).module_infos == old(self).module_infos,
            final(self).debug == old(self).debug,
            final(self).conflict_tree_stack == old(self).conflict_tree_stack,
    {
        self.errors.push(ParseError(ast.loc, s));
    }

    /// Records an error at `loc`.
    pub fn add_error_span(&mut self, loc: Span, s: &'static str)
        ensures
            final(self).errors@ == old(self).errors@.push(ParseError(loc, s)),
            final(self).scope_locals == old(self).scope_locals,
            final(self).scope_local_list == old(self).scope_local_list,
            final(self).scope_local_types == old(self).scope_local_types,
            final(self).scope_local_type_list == old(self).scope_local_type_list,
            final(self).current_module == old(self).current_module,
            final(self).module_infos == old(self).module_infos,
            final(self).debug == old(self).debug,
            final(self).conflict_tree_stack == old(self).conflict_tree_stack,
    {
        self.errors.push(ParseError(loc, s));
    }

    /// Where the name `name` is in scope, if it is.
    fn scope_index(&self, name: &Ident) -> (r: Option<usize>)
        ensures
            match r {
                Some(i) => i < self.scope_locals@.len() && self.scope_locals@[i as int].name@
                    == name@,
                None => forall|i: int|
                    0 <= i < self.scope_locals@.len() ==> #[trigger] self.scope_locals@[i].name@
                        != name@,
            },
    {
        let mut i: usize = 0;
        while i < self.scope_locals.len()
            invariant
                i <= self.scope_locals@.len(),
                forall|j: int| 0 <= j < i ==> #[trigger] self.scope_locals@[j].name@ != name@,
            decreases self.scope_locals@.len() - i,
        {
            if self.scope_locals[i].name == *name {
                return Some(i);
            }
            i = i + 1;
        }
        None
    }

    fn scope_type_index(&self, name: &Ident) -> (r: Option<usize>)
        ensures
            match r {
                Some(i) => i < self.scope_local_types@.len() && self.scope_local_types@[i as int].name@
                    == name@,
                None => forall|i: int|
                    0 <= i < self.scope_local_types@.len() ==> #[trigger] self.scope_local_types@[i].name@
                        != name@,
            },
    {
        let mut i: usize = 0;
        while i < self.scope_local_types.len()
            invariant
                i <= self.scope_local_types@.len(),
                forall|j: int| 0 <= j < i ==> #[trigger] self.scope_local_types@[j].name@ != name@,
            decreases self.scope_local_types@.len() - i,
        {
            if self.scope_local_types[i].name == *name {
                return Some(i);
            }
            i = i + 1;
        }
        None
    }

    /// Opens a scope and gives the number of names in scope before it.
    pub fn begin_scope(&mut self) -> (r: (usize, usize))
        ensures
            r.0 == old(self).scope_local_list@.len(),
            r.1 == old(self).scope_local_type_list@.len(),
            final(self).conflict_tree_stack@.len() == old(self).conflict_tree_stack@.len() + 1,
            final(self).scope_locals == old(self).scope_locals,
            final(self).scope_local_list == old(self).scope_local_list,
            final(self).scope_local_types == old(self).scope_local_types,
            final(self).scope_local_type_list == old(self).scope_local_type_list,
            final(self).current_module == old(self).current_module,
            final(self).module_infos == old(self).module_infos,
            final(self).debug == old(self).debug,
            final(self).errors == old(self).errors,
    {
        self.conflict_tree_stack.push(ConflictTree::new());
        (self.scope_local_list.len(), self.scope_local_type_list.len())
    }

    /// Brings `name` into scope as `local`; a name already in scope is an
    /// error (shadowing is not allowed) and keeps its meaning. `local` must
    /// refer to a local, module or member that exists, since every later
    /// use of the name indexes those tables with it.
    pub fn add_local(&mut self, name: Ident, local: Local, span: Span)
        requires
            old(self).inv(),
            local_ok(
                local,
                old(self).nl(),
                old(self).nt(),
                old(self).nu(),
                old(self).module_infos@.len(),
            ),
        ensures
            final(self).inv(),
            final(self).scope_local_list@ == old(self).scope_local_list@.push(name),
            (forall|i: int|
                0 <= i < old(self).scope_locals@.len() ==> #[trigger] old(self).scope_locals@[i].name@
                    != name@) ==> final(self).errors == old(self).errors
                && final(self).scope_locals@.len() == old(self).scope_locals@.len() + 1
                && final(self).scope_locals@.last().name@ == name@
                && final(self).scope_locals@.last().local == local
                && final(self).scope_locals@.last().count == 1
                && final(self).scope_locals@.drop_last() == old(self).scope_locals@,
            (exists|i: int|
                0 <= i < old(self).scope_locals@.len() && #[trigger] old(self).scope_locals@[i].name@
                    == name@) ==> final(self).scope_locals == old(self).scope_locals
                && final(self).errors@ == old(self).errors@.push(
                ParseError(span, "not allowed to shadow this name"),
            ),
            final(self).scope_local_types == old(self).scope_local_types,
            final(self).scope_local_type_list == old(self).scope_local_type_list,
            final(self).current_module == old(self).current_module,
            final(self).module_infos == old(self).module_infos,
            final(self).debug == old(self).debug,
            final(self).conflict_tree_stack == old(self).conflict_tree_stack,
            old(self).errors@.len() <= final(self).errors@.len(),
    {
        match self.scope_index(&name) {
            Some(_) => {
                self.add_error_span(span, "not allowed to shadow this name");
            },
            None => {
                self.scope_locals.push(ScopeLocal { name: name.clone(), local, count: 1 });
            },
        }
        self.scope_local_list.push(name);
    }

    /// Brings the type name `name` into scope; a type name already in scope
    /// is an error.
    pub fn add_local_type(&mut self, name: Ident, ty: AstType, span: Span)
        requires
            old(self).inv(),
        ensures
            final(self).inv(),
            final(self).scope_local_type_list@ == old(self).scope_local_type_list@.push(name),
            (forall|i: int|
                0 <= i < old(self).scope_local_types@.len() ==> #[trigger] old(self).scope_local_types@[i].name@
                    != name@) ==> final(self).errors == old(self).errors
                && final(self).scope_local_types@.len() == old(self).scope_local_types@.len() + 1
                && final(self).scope_local_types@.drop_last() == old(self).scope_local_types@
                && final(self).scope_local_types@.last().name@ == name@
                && final(self).scope_local_types@.last().ty == ty,
            (exists|i: int|
                0 <= i < old(self).scope_local_types@.len() && #[trigger] old(self).scope_local_types@[i].name@
                    == name@) ==> final(self).scope_local_types == old(self).scope_local_types
                && final(self).errors@ == old(self).errors@.push(ParseError(span, "not allowed to shadow this name")),
            final(self).scope_locals == old(self).scope_locals,
            final(self).scope_local_list == old(self).scope_local_list,
            final(self).current_module == old(self).current_module,
            final(self).module_infos == old(self).module_infos,
            final(self).debug == old(self).debug,
            final(self).conflict_tree_stack == old(self).conflict_tree_stack,
            old(self).errors@.len() <= final(self).errors@.len(),
    {
        match self.scope_type_index(&name) {
            Some(_) => {
                self.add_error_span(span, "not allowed to shadow this name");
            },
            None => {
                self.scope_local_types.push(ScopeType { name: name.clone(), ty });
            },
        }
        self.scope_local_type_list.push(name);
    }
}

/// The name of the builtin `*`.
fn builtin_name_star() -> (r: Ident)
    ensures
        r@ == seq!['*'],
{
    let mut s = String::new();
    crate::text::push_char(&mut s, '*');
    s
}

fn builtin_name_vec2() -> (r: Ident)
    ensures
        r@ == seq!['v', 'e', 'c', '2'],
{
    let mut s = String::new();
    crate::text::push_char(&mut s, 'v');
    crate::text::push_char(&mut s, 'e');
    crate::text::push_char(&mut s, 'c');
    crate::text::push_char(&mut s, '2');
    s
}

fn builtin_name_mat2() -> (r: Ident)
    ensures
        r@ == seq!['m', 'a', 't', '2'],
{
    let mut s = String::new();
    crate::text::push_char(&mut s, 'm');
    crate::text::push_char(&mut s, 'a');
    crate::text::push_char(&mut s, 't');
    crate::text::push_char(&mut s, '2');
    s
}

/// The GLSL type a name stands for, when it names one: `float`, `int`,
/// `vec2`..`vec4` and the matrices `matNxM` (`matN` being `matNxN`).
pub open spec fn glsl_named_type(s: Seq<char>) -> Option<AstType> {
    if s == "float"@ {
        Some(AstType::F32)
    } else if s == "int"@ {
        Some(AstType::I32)
    } else if s == "vec2"@ {
        Some(AstType::Vec(Box::new(AstType::F32), 2))
    } else if s == "vec3"@ {
        Some(AstType::Vec(Box::new(AstType::F32), 3))
    } else if s == "vec4"@ {
        Some(AstType::Vec(Box::new(AstType::F32), 4))
    } else if s == "mat2"@ || s == "mat2x2"@ {
        Some(AstType::Mat(Box::new(AstType::F32), 2, 2))
    } else if s == "mat2x3"@ {
        Some(AstType::Mat(Box::new(AstType::F32), 2, 3))
    } else if s == "mat2x4"@ {
        Some(AstType::Mat(Box::new(AstType::F32), 2, 4))
    } else if s == "mat3x2"@ {
        Some(AstType::Mat(Box::new(AstType::F32), 3, 2))
    } else if s == "mat3"@ || s == "mat3x3"@ {
        Some(AstType::Mat(Box::new(AstType::F32), 3, 3))
    } else if s == "mat3x4"@ {
        Some(AstType::Mat(Box::new(AstType::F32), 3, 4))
    } else if s == "mat4x2"@ {
        Some(AstType::Mat(Box::new(AstType::F32), 4, 2))
    } else if s == "mat4x3"@ {
        Some(AstType::Mat(Box::new(AstType::F32), 4, 3))
    } else if s == "mat4"@ || s == "mat4x4"@ {
        Some(AstType::Mat(Box::new(AstType::F32), 4, 4))
    } else {
        None
    }
}

/// The GLSL type named `s`, if any.
pub fn glsl_type(s: &Ident) -> (r: Option<AstType>)
    ensures
        r == glsl_named_type(s@),
{
    if text_is(s, "float") {
        Some(AstType::F32)
    } else if text_is(s, "int") {
        Some(AstType::I32)
    } else if text_is(s, "vec2") {
        Some(AstType::Vec(Box::new(AstType::F32), 2))
    } else if text_is(s, "vec3") {
        Some(AstType::Vec(Box::new(AstType::F32), 3))
    } else if text_is(s, "vec4") {
        Some(AstType::Vec(Box::new(AstType::F32), 4))
    } else if text_is(s, "mat2") || text_is(s, "mat2x2") {
        Some(AstType::Mat(Box::new(AstType::F32), 2, 2))
    } else if text_is(s, "mat2x3") {
        Some(AstType::Mat(Box::new(AstType::F32), 2, 3))
    } else if text_is(s, "mat2x4") {
        Some(AstType::Mat(Box::new(AstType::F32), 2, 4))
    } else if text_is(s, "mat3x2") {
        Some(AstType::Mat(Box::new(AstType::F32), 3, 2))
    } else if text_is(s, "mat3") || text_is(s, "mat3x3") {
        Some(AstType::Mat(Box::new(AstType::F32), 3, 3))
    } else if text_is(s, "mat3x4") {
        Some(AstType::Mat(Box::new(AstType::F32), 3, 4))
    } else if text_is(s, "mat4x2") {
        Some(AstType::Mat(Box::new(AstType::F32), 4, 2))
    } else if text_is(s, "mat4x3") {
        Some(AstType::Mat(Box::new(AstType::F32), 4, 3))
    } else if text_is(s, "mat4") || text_is(s, "mat4x4") {
        Some(AstType::Mat(Box::new(AstType::F32), 4, 4))
    } else {
        None
    }
}

impl Resolver {
    /// What `s` names in scope, counting the use.
    pub fn find_local(&mut self, s: &Ident) -> (r: Option<Local>)
        requires
            old(self).inv(),
        ensures
            final(self).inv(),
            r is Some <==> exists|i: int|
                0 <= i < old(self).scope_locals@.len() && #[trigger] old(self).scope_locals@[i].name@
                    == s@,
            in_scope(old(self).scope_locals@, s@) matches Some(l0) ==> (r matches Some(l) && copied_local(l0, l)
                && super::same_local(l0, l)),
            counted(old(self).scope_locals@, final(self).scope_locals@, s@),
            r matches Some(l) ==> local_ok(
                l,
                old(self).nl(),
                old(self).nt(),
                old(self).nu(),
                old(self).module_infos@.len(),
            ),
            final(self).scope_locals@.len() == old(self).scope_locals@.len(),
            forall|i: int|
                0 <= i < old(self).scope_locals@.len() ==> #[trigger] final(self).scope_locals@[i].name
                    == old(self).scope_locals@[i].name && final(self).scope_locals@[i].local
                    == old(self).scope_locals@[i].local,
            final(self).scope_local_list == old(self).scope_local_list,
            final(self).scope_local_types == old(self).scope_local_types,
            final(self).scope_local_type_list == old(self).scope_local_type_list,
            final(self).current_module == old(self).current_module,
            final(self).module_infos == old(self).module_infos,
            final(self).debug == old(self).debug,
            final(self).conflict_tree_stack == old(self).conflict_tree_stack,
            final(self).errors == old(self).errors,
    {
        match self.scope_index(s) {
            Some(i) => {
                let c = self.scope_locals[i].count;
                let ghost nl = self.nl();
                let ghost nt = self.nt();
                let ghost nu = self.nu();
                let l = self.scope_locals[i].local.copy(Ghost(nl), Ghost(nt), Ghost(nu));
                if c < usize::MAX {
                    self.scope_locals[i].count = c + 1;
                }
                assert(old(self).scope_locals@[i as int].name@ == s@);
                assert forall|j: int| 0 <= j < old(self).scope_locals@.len() && j != i implies #[trigger] old(
                    self,
                ).scope_locals@[j].name@ != s@ by {
                    if j < i {
                        assert(old(self).scope_locals@[j].name@ != old(self).scope_locals@[i as int].name@);
                    } else {
                        assert(old(self).scope_locals@[i as int].name@ != old(self).scope_locals@[j].name@);
                    }
                }
                proof {
                    let j = choose|j: int|
                        0 <= j < old(self).scope_locals@.len() && #[trigger] old(self).scope_locals@[j].name@ == s@;
                    assert(j == i);
                }
                Some(l)
            },
            None => None,
        }
    }

    /// The type that the type name `s` stands for in scope.
    pub fn find_local_type(&self, s: &Ident) -> (r: Option<AstType>)
        ensures
            r is Some <==> exists|i: int|
                0 <= i < self.scope_local_types@.len() && #[trigger] self.scope_local_types@[i].name@
                    == s@,
            r matches Some(t) ==> exists|i: int|
                0 <= i < self.scope_local_types@.len() && #[trigger] self.scope_local_types@[i].name@
                    == s@ && super::same_type(t, self.scope_local_types@[i].ty),
    {
        match self.scope_type_index(s) {
            Some(i) => Some(self.scope_local_types[i].ty.copy()),
            None => None,
        }
    }

    /// Closes the scopes opened since `local_count`: each local of the
    /// current module that leaves scope (and was not inlined) goes to the
    /// innermost conflict tree with its use count.
    pub fn flush_scope_locals(&mut self, local_count: (usize, usize))
        requires
            old(self).inv(),
        ensures
            final(self).inv(),
            final(self).scope_local_list@.len() <= local_count.0 || final(self).scope_local_list@
                == old(self).scope_local_list@,
            old(self).scope_local_list@.len() <= local_count.0 ==> final(self).scope_locals == old(self).scope_locals,
            old(self).scope_local_list@.len() > local_count.0 ==> final(self).scope_local_list@ == old(
                self,
            ).scope_local_list@.take(local_count.0 as int) && scope_after_flush(
                old(self).scope_locals@,
                final(self).scope_locals@,
                old(self).scope_local_list@,
                local_count.0 as int,
            ),
            final(self).scope_local_list@.len() == if old(self).scope_local_list@.len()
                > local_count.0 {
                local_count.0 as nat
            } else {
                old(self).scope_local_list@.len()
            },
            final(self).scope_local_type_list@.len() == if old(self).scope_local_type_list@.len()
                > local_count.1 {
                local_count.1 as nat
            } else {
                old(self).scope_local_type_list@.len()
            },
            final(self).conflict_tree_stack@.len() == old(self).conflict_tree_stack@.len(),
            forall|j: int|
                0 <= j < old(self).conflict_tree_stack@.len() - 1 ==> #[trigger] final(self).conflict_tree_stack@[j]
                    == old(self).conflict_tree_stack@[j],
            final(self).conflict_tree_stack@.last()@ == (TreeModel {
                items: old(self).conflict_tree_stack@.last()@.items + flushed(
                    old(self).scope_locals@,
                    old(self).scope_local_list@,
                    old(self).scope_local_list@.len() as int,
                    local_count.0 as int,
                ),
                ..old(self).conflict_tree_stack@.last()@
            }),
            final(self).current_module == old(self).current_module,
            final(self).module_infos == old(self).module_infos,
            final(self).debug == old(self).debug,
            final(self).errors == old(self).errors,
    {
        let ghost total = flushed(
            old(self).scope_locals@,
            old(self).scope_local_list@,
            old(self).scope_local_list@.len() as int,
            local_count.0 as int,
        );
        let ghost top0 = old(self).conflict_tree_stack@.last()@;
        let ghost mut done: Seq<(u32, usize)> = Seq::empty();
        while self.scope_local_list.len() > local_count.0
            invariant
                self.inv(),
                self.conflict_tree_stack@.len() == old(self).conflict_tree_stack@.len(),
                forall|j: int|
                    0 <= j < old(self).conflict_tree_stack@.len() - 1 ==> #[trigger] self.conflict_tree_stack@[j]
                        == old(self).conflict_tree_stack@[j],
                top0 == old(self).conflict_tree_stack@.last()@,
                self.conflict_tree_stack@.last()@ == (TreeModel { items: top0.items + done, ..top0 }),
                total == flushed(
                    old(self).scope_locals@,
                    old(self).scope_local_list@,
                    old(self).scope_local_list@.len() as int,
                    local_count.0 as int,
                ),
                done + flushed(
                    self.scope_locals@,
                    old(self).scope_local_list@,
                    self.scope_local_list@.len() as int,
                    local_count.0 as int,
                ) == total,
                self.current_module == old(self).current_module,
                self.module_infos == old(self).module_infos,
                self.debug == old(self).debug,
                self.errors == old(self).errors,
                self.scope_local_type_list == old(self).scope_local_type_list,
                old(self).scope_local_list@.len() > local_count.0 ==> self.scope_local_list@.len()
                    >= local_count.0,
                old(self).scope_local_list@.len() <= local_count.0 ==> self.scope_local_list
                    == old(self).scope_local_list && self.scope_locals == old(self).scope_locals,
                self.scope_local_list@.len() <= old(self).scope_local_list@.len(),
                self.scope_local_list@ == old(self).scope_local_list@.take(self.scope_local_list@.len() as int),
                scope_after_flush(
                    old(self).scope_locals@,
                    self.scope_locals@,
                    old(self).scope_local_list@,
                    self.scope_local_list@.len() as int,
                ),
            decreases self.scope_local_list@.len(),
        {
            let ghost len0 = self.scope_local_list@.len() as int;
            let ghost sc0 = self.scope_locals@;
            let ghost l0 = self.scope_local_list@;
            assert(l0 == old(self).scope_local_list@.take(len0));
            let name = self.scope_local_list.pop().unwrap();
            assert(self.scope_local_list@ == l0.subrange(0, len0 - 1));
            assert(name == l0[len0 - 1]);
            assert(self.scope_local_list@ =~= old(self).scope_local_list@.take(self.scope_local_list@.len() as int));
            assert(name == old(self).scope_local_list@[len0 - 1]);
            match self.scope_index(&name) {
                Some(i) => {
                    let e = self.scope_locals.remove(i);
                    proof {
                        assert forall|j: int|
                            0 <= j < old(self).scope_locals@.len() && !named_from(
                                old(self).scope_local_list@,
                                len0 - 1,
                                #[trigger] old(self).scope_locals@[j].name@,
                            ) implies self.scope_locals@.contains(old(self).scope_locals@[j]) by {
                            let ej = old(self).scope_locals@[j];
                            if named_from(old(self).scope_local_list@, len0, ej.name@) {
                                let w = choose|w: int|
                                    len0 <= w < old(self).scope_local_list@.len()
                                        && #[trigger] old(self).scope_local_list@[w]@ == ej.name@;
                                assert(len0 - 1 <= w);
                            }
                            assert(sc0.contains(ej));
                            let q = choose|q: int| 0 <= q < sc0.len() && sc0[q] == ej;
                            assert(ej.name@ != name@) by {
                                if ej.name@ == name@ {
                                    assert(named_from(old(self).scope_local_list@, len0 - 1, ej.name@));
                                }
                            }
                            assert(q != i);
                            if q < i {
                                assert(self.scope_locals@[q] == ej);
                            } else {
                                assert(self.scope_locals@[q - 1] == ej);
                            }
                        }
                        assert forall|k: int| 0 <= k < self.scope_locals@.len() implies old(
                            self,
                        ).scope_locals@.contains(#[trigger] self.scope_locals@[k]) && !named_from(
                            old(self).scope_local_list@,
                            len0 - 1,
                            self.scope_locals@[k].name@,
                        ) by {
                            let q = if k < i {
                                k
                            } else {
                                k + 1
                            };
                            assert(self.scope_locals@[k] == sc0[q]);
                            assert(q != i);
                            assert(sc0[q].name@ != sc0[i as int].name@);
                            if named_from(old(self).scope_local_list@, len0 - 1, sc0[q].name@) {
                                let w = choose|w: int|
                                    len0 - 1 <= w < old(self).scope_local_list@.len()
                                        && #[trigger] old(self).scope_local_list@[w]@ == sc0[q].name@;
                                assert(w != len0 - 1);
                                assert(named_from(old(self).scope_local_list@, len0, sc0[q].name@));
                            }
                        }
                    }
                    let ghost first: Seq<(u32, usize)> = match sc0[i as int].local {
                        Local::Local { index, inline: None } => seq![(index, sc0[i as int].count)],
                        _ => Seq::empty(),
                    };
                    proof {
                        let lst = old(self).scope_local_list@;
                        let ic = choose|ic: int| 0 <= ic < sc0.len() && #[trigger] sc0[ic].name@ == lst[len0 - 1]@;
                        assert(sc0[i as int].name@ == lst[len0 - 1]@);
                        assert(ic == i);
                        assert(flushed(sc0, lst, len0, local_count.0 as int) == first + flushed(
                            sc0.remove(i as int),
                            lst,
                            len0 - 1,
                            local_count.0 as int,
                        ));
                        assert(self.scope_locals@ == sc0.remove(i as int));
                    }
                    let ghost items_before = self.conflict_tree_stack@.last()@.items;
                    match e.local {
                        Local::Local { index, inline } => {
                            if inline.is_none() {
                                let top = self.conflict_tree_stack.len() - 1;
                                self.conflict_tree_stack[top].add_item(index, e.count);
                            }
                        },
                        _ => {},
                    }
                    proof {
                        let lst = old(self).scope_local_list@;
                        assert(self.conflict_tree_stack@.last()@.items =~= items_before + first);
                        assert((done + first) + flushed(self.scope_locals@, lst, len0 - 1, local_count.0 as int)
                            =~= done + (first + flushed(self.scope_locals@, lst, len0 - 1, local_count.0 as int)));
                        done = done + first;
                        assert(self.conflict_tree_stack@.last()@.items =~= top0.items + done);
                    }
                },
                None => {
                    proof {
                        let lst = old(self).scope_local_list@;
                        assert(flushed(sc0, lst, len0, local_count.0 as int) == flushed(
                            sc0,
                            lst,
                            len0 - 1,
                            local_count.0 as int,
                        ));
                    }
                    proof {
                        assert forall|j: int|
                            0 <= j < old(self).scope_locals@.len() && !named_from(
                                old(self).scope_local_list@,
                                len0 - 1,
                                #[trigger] old(self).scope_locals@[j].name@,
                            ) implies self.scope_locals@.contains(old(self).scope_locals@[j]) by {
                            let ej = old(self).scope_locals@[j];
                            if named_from(old(self).scope_local_list@, len0, ej.name@) {
                                let w = choose|w: int|
                                    len0 <= w < old(self).scope_local_list@.len()
                                        && #[trigger] old(self).scope_local_list@[w]@ == ej.name@;
                                assert(len0 - 1 <= w);
                            }
                        }
                        assert forall|k: int| 0 <= k < self.scope_locals@.len() implies old(
                            self,
                        ).scope_locals@.contains(#[trigger] self.scope_locals@[k]) && !named_from(
                            old(self).scope_local_list@,
                            len0 - 1,
                            self.scope_locals@[k].name@,
                        ) by {
                            assert(self.scope_locals@[k].name@ != name@);
                            if named_from(old(self).scope_local_list@, len0 - 1, self.scope_locals@[k].name@) {
                                let w = choose|w: int|
                                    len0 - 1 <= w < old(self).scope_local_list@.len()
                                        && #[trigger] old(self).scope_local_list@[w]@ == self.scope_locals@[k].name@;
                                assert(w != len0 - 1);
                                assert(named_from(old(self).scope_local_list@, len0, self.scope_locals@[k].name@));
                            }
                        }
                    }
                },
            }
        }
        let ghost sl = self.scope_locals;
        let ghost ll = self.scope_local_list;
        let ghost st = self.conflict_tree_stack;
        proof {
            if old(self).scope_local_list@.len() <= local_count.0 {
                assert(done =~= Seq::<(u32, usize)>::empty());
            }
        }
        while self.scope_local_type_list.len() > local_count.1
            invariant
                self.inv(),
                self.scope_locals == sl,
                self.scope_local_list == ll,
                self.conflict_tree_stack == st,
                self.conflict_tree_stack@.len() == old(self).conflict_tree_stack@.len(),
                self.current_module == old(self).current_module,
                self.module_infos == old(self).module_infos,
                self.debug == old(self).debug,
                self.errors == old(self).errors,
                old(self).scope_local_list@.len() > local_count.0 ==> self.scope_local_list@.len()
                    == local_count.0,
                old(self).scope_local_list@.len() <= local_count.0 ==> self.scope_local_list
                    == old(self).scope_local_list,
                old(self).scope_local_type_list@.len() > local_count.1
                    ==> self.scope_local_type_list@.len() >= local_count.1,
                old(self).scope_local_type_list@.len() <= local_count.1
                    ==> self.scope_local_type_list == old(self).scope_local_type_list,
            decreases self.scope_local_type_list@.len(),
        {
            let name = self.scope_local_type_list.pop().unwrap();
            match self.scope_type_index(&name) {
                Some(i) => {
                    self.scope_local_types.remove(i);
                },
                None => {},
            }
        }
    }

    /// Closes the innermost scope, which began when `local_count` names
    /// were in scope; its conflict tree becomes a child of the one around it.
    pub fn end_scope(&mut self, local_count: (usize, usize))
        requires
            old(self).inv(),
            old(self).conflict_tree_stack@.len() >= 2,
        ensures
            final(self).inv(),
            final(self).conflict_tree_stack@.len() == old(self).conflict_tree_stack@.len() - 1,
            forall|j: int|
                0 <= j < old(self).conflict_tree_stack@.len() - 2 ==> #[trigger] final(self).conflict_tree_stack@[j]
                    == old(self).conflict_tree_stack@[j],
            final(self).conflict_tree_stack@.last()@ == ({
                let n = old(self).conflict_tree_stack@.len();
                let parent = old(self).conflict_tree_stack@[n - 2]@;
                let child = old(self).conflict_tree_stack@[n - 1]@;
                TreeModel {
                    children: parent.children.push(
                        TreeModel {
                            items: child.items + flushed(
                                old(self).scope_locals@,
                                old(self).scope_local_list@,
                                old(self).scope_local_list@.len() as int,
                                local_count.0 as int,
                            ),
                            ..child
                        },
                    ),
                    ..parent
                }
            }),
            old(self).scope_local_list@.len() > local_count.0 ==> final(self).scope_local_list@ == old(
                self,
            ).scope_local_list@.take(local_count.0 as int) && scope_after_flush(
                old(self).scope_locals@,
                final(self).scope_locals@,
                old(self).scope_local_list@,
                local_count.0 as int,
            ),
            old(self).scope_local_list@.len() <= local_count.0 ==> final(self).scope_locals == old(self).scope_locals,
            final(self).scope_local_list@.len() == if old(self).scope_local_list@.len()
                > local_count.0 {
                local_count.0 as nat
            } else {
                old(self).scope_local_list@.len()
            },
            final(self).scope_local_type_list@.len() == if old(self).scope_local_type_list@.len()
                > local_count.1 {
                local_count.1 as nat
            } else {
                old(self).scope_local_type_list@.len()
            },
            final(self).current_module == old(self).current_module,
            final(self).module_infos == old(self).module_infos,
            final(self).debug == old(self).debug,
            final(self).errors == old(self).errors,
    {
        self.flush_scope_locals(local_count);
        let child = self.conflict_tree_stack.pop().unwrap();
        let top = self.conflict_tree_stack.len() - 1;
        self.conflict_tree_stack[top].add_child(child);
    }
}

impl Resolver {
    /// Replaces the type of the current module's local `index` by `t` and
    /// gives back the type it had.
    fn swap_local_ty(&mut self, index: u32, t: AstType) -> (r: AstType)
        requires
            old(self).inv(),
            index < old(self).nl(),
        ensures
            final(self).inv(),
            Self::frame(*old(self), *final(self)),
            final(self).errors == old(self).errors,
            r == old(self).cur().locals@[index as int].ty,
            final(self).cur().locals@[index as int].ty == t,
            final(self).cur().local_types == old(self).cur().local_types,
            final(self).scope_locals == old(self).scope_locals,
            final(self).scope_local_list == old(self).scope_local_list,
            final(self).scope_local_types == old(self).scope_local_types,
            final(self).scope_local_type_list == old(self).scope_local_type_list,
            final(self).conflict_tree_stack == old(self).conflict_tree_stack,
    {
        let cur = self.current_module;
        let mut t = t;
        let mut mi = self.module_infos.remove(cur);
        let mut l = mi.locals.remove(index as usize);
        std::mem::swap(&mut t, &mut l.ty);
        mi.locals.insert(index as usize, l);
        self.module_infos.insert(cur, mi);
        proof {
            assert(self.module_infos@ =~= old(self).module_infos@.update(cur as int, mi));
        }
        t
    }

    /// Replaces the type of the current module's named type `index` by `t`
    /// and gives back the type it had.
    fn swap_type_ty(&mut self, index: u32, t: AstType) -> (r: AstType)
        requires
            old(self).inv(),
            index < old(self).nt(),
        ensures
            final(self).inv(),
            Self::frame(*old(self), *final(self)),
            final(self).errors == old(self).errors,
            r == old(self).cur().local_types@[index as int].ty,
            final(self).cur().local_types@[index as int].ty == t,
            final(self).cur().local_types@[index as int].name == old(self).cur().local_types@[index as int].name,
            final(self).cur().locals == old(self).cur().locals,
            final(self).scope_locals == old(self).scope_locals,
            final(self).scope_local_list == old(self).scope_local_list,
            final(self).scope_local_types == old(self).scope_local_types,
            final(self).scope_local_type_list == old(self).scope_local_type_list,
            final(self).conflict_tree_stack == old(self).conflict_tree_stack,
    {
        let cur = self.current_module;
        let mut t = t;
        let mut mi = self.module_infos.remove(cur);
        let mut l = mi.local_types.remove(index as usize);
        std::mem::swap(&mut t, &mut l.ty);
        mi.local_types.insert(index as usize, l);
        self.module_infos.insert(cur, mi);
        proof {
            assert(self.module_infos@ =~= old(self).module_infos@.update(cur as int, mi));
        }
        t
    }
}

impl Resolver {
    /// Resolves the type names in `ty`: a name in scope becomes the type
    /// it stands for; pointers, memory locations and fixed arrays are
    /// resolved inside; in a GLSL module a GLSL type name becomes that type.
    fn resolve_type(&mut self, ty: &mut AstType)
        requires
            old(self).inv(),
        ensures
            *final(self) == *old(self),
            *old(ty) matches AstType::Other(s) ==> ((exists|i: int|
                0 <= i < old(self).scope_local_types@.len()
                    && #[trigger] old(self).scope_local_types@[i].name@ == s@) ==> exists|i: int|
                0 <= i < old(self).scope_local_types@.len()
                    && #[trigger] old(self).scope_local_types@[i].name@ == s@ && super::same_type(
                    *final(ty),
                    old(self).scope_local_types@[i].ty,
                )),
            *old(ty) matches AstType::Other(s) ==> ((forall|i: int|
                0 <= i < old(self).scope_local_types@.len()
                    ==> #[trigger] old(self).scope_local_types@[i].name@ != s@) ==> if old(
                self,
            ).cur().language == Language::Glsl && glsl_named_type(s@) is Some {
                *final(ty) == glsl_named_type(s@).unwrap()
            } else {
                *final(ty) matches AstType::Other(t) && t@ == s@
            }),
            *old(ty) is Ptr ==> *final(ty) is Ptr,
            *old(ty) is MemLoc ==> *final(ty) is MemLoc,
            *old(ty) matches AstType::FixedArr(_, n) ==> *final(ty) matches AstType::FixedArr(_, m) && m == n,
            !(*old(ty) is Other || *old(ty) is Ptr || *old(ty) is MemLoc || *old(ty) is FixedArr) ==> *final(ty)
                == *old(ty),
        decreases *old(ty),
    {
        let mut t = AstType::NoType;
        std::mem::swap(&mut t, ty);
        match t {
            AstType::Other(s) => {
                match self.find_local_type(&s) {
                    Some(resolved) => {
                        *ty = resolved;
                    },
                    None => {
                        let cur = self.current_module;
                        if self.module_infos[cur].language == Language::Glsl {
                            match glsl_type(&s) {
                                Some(g) => {
                                    *ty = g;
                                },
                                None => {
                                    *ty = AstType::Other(s);
                                },
                            }
                        } else {
                            *ty = AstType::Other(s);
                        }
                    },
                }
            },
            AstType::Ptr(sub) => {
                let mut b = *sub;
                self.resolve_type(&mut b);
                *ty = AstType::Ptr(Box::new(b));
            },
            AstType::MemLoc(sub) => {
                let mut b = *sub;
                self.resolve_type(&mut b);
                *ty = AstType::MemLoc(Box::new(b));
            },
            AstType::FixedArr(sub, n) => {
                let mut b = *sub;
                self.resolve_type(&mut b);
                *ty = AstType::FixedArr(Box::new(b), n);
            },
            other => {
                *ty = other;
            },
        }
    }
}

/// The kind of a node.
pub open spec fn kind_of(d: AstData) -> nat {
    match d {
        AstData::ConstLit { .. } => 0,
        AstData::ConstStr { .. } => 1,
        AstData::Ident { .. } => 2,
        AstData::Local { .. } => 3,
        AstData::App { .. } => 4,
        AstData::Lambda { .. } => 5,
        AstData::Block { .. } => 6,
        AstData::TypeDef { .. } => 7,
        AstData::LetLocal { .. } => 8,
        AstData::FnLocal { .. } => 9,
        AstData::Field { .. } => 10,
        AstData::For { .. } => 11,
        AstData::Index { .. } => 12,
        AstData::Array { .. } => 13,
        AstData::If { .. } => 14,
        AstData::While { .. } => 15,
        AstData::Loop { .. } => 16,
        AstData::Break => 17,
        AstData::Return { .. } => 18,
        AstData::Use { .. } => 19,
        AstData::NewObject { .. } => 20,
        AstData::NewCtor { .. } => 21,
        AstData::Void => 22,
    }
}

/// What resolving `let name = init` at `loc` does, `has_init` saying
/// whether there is an `init`: an inlined declaration with a value
/// becomes nothing; the name comes into scope last (a name already in
/// scope is an error instead); and a local declared without a type gets
/// the type of its resolved value (`NoType` without one).
pub open spec fn let_resolved(
    old: Resolver,
    new: Resolver,
    loc: Span,
    name: Seq<char>,
    has_init: bool,
    local_index: u32,
    lattr: Attr,
    r: Ast,
) -> bool {
    let inlined = lattr == Attr::Inline && has_init;
    &&& inlined ==> r == (Ast { loc, attr: Attr::NoAttr, ty: AstType::NoType, data: AstData::Void })
    &&& new.scope_local_list@.len() > 0 && new.scope_local_list@.last()@ == name
    &&& declared(new, name, local_index, inlined) || new.errors@.last() == ParseError(
        loc,
        "not allowed to shadow this name",
    )
    &&& !inlined && old.cur().locals@[local_index as int].ty is Any ==> match r.data {
        AstData::LetLocal { init: Some(i), .. } => super::same_type(new.cur().locals@[local_index as int].ty, i.ty),
        _ => new.cur().locals@[local_index as int].ty == AstType::NoType,
    }
}

/// The name `name` is used in `s`, giving `r`: the use is counted in `t`,
/// no error is recorded, and `r` is what the name means in scope: a
/// local (of the current module, with the local's type; or a builtin, a
/// module or a module's member), a copy of the value of an inlined local,
/// or the name itself when nothing in scope has it.
pub open spec fn ident_step(s: Resolver, name: Seq<char>, t: Resolver, r: Ast) -> bool {
    &&& counted(s.scope_locals@, t.scope_locals@, name)
    &&& t.errors == s.errors
    &&& match in_scope(s.scope_locals@, name) {
        None => r.data matches AstData::Ident { s: n } && n@ == name,
        Some(Local::Local { index, inline: None }) => r.data == (AstData::Local {
            local: Local::Local { index, inline: None },
        }) && super::same_type(r.ty, s.cur().locals@[index as int].ty),
        Some(Local::Local { inline: Some(e), .. }) => super::same_ast(*e, r),
        Some(Local::Builtin(b)) => r.data == (AstData::Local { local: Local::Builtin(b) }),
        Some(Local::ModuleRef { abs_index }) => r.data == (AstData::Local {
            local: Local::ModuleRef { abs_index },
        }),
        Some(Local::ModuleMember { abs_index, local_index }) => r.data == (AstData::Local {
            local: Local::ModuleMember { abs_index, local_index },
        }),
    }
}

/// From `mid` (the value `init` resolved), `let name` declares the local
/// `k` in `t`: inlined with the value `x` when it is `@inline` and has a
/// value; after the error for an inlined declaration without a value
/// when it is `@inline` and has none. A name already in
/// scope is an error and keeps its meaning.
pub open spec fn declare_step(
    mid: Resolver,
    t: Resolver,
    name: Seq<char>,
    k: u32,
    lattr: Attr,
    init: Option<Box<Ast>>,
    x: Ast,
    loc: Span,
) -> bool {
    let inlined = lattr == Attr::Inline && init is Some;
    let no_value = lattr == Attr::Inline && init is None;
    let errs = if no_value {
        mid.errors@.push(ParseError(loc, "inline declaration without a value"))
    } else {
        mid.errors@
    };
    let local = if inlined {
        Local::Local { index: k, inline: Some(Box::new(x)) }
    } else {
        Local::Local { index: k, inline: None }
    };
    if forall|i: int| 0 <= i < mid.scope_locals@.len() ==> #[trigger] mid.scope_locals@[i].name@ != name {
        &&& t.scope_locals@.len() == mid.scope_locals@.len() + 1
        &&& t.scope_locals@.drop_last() == mid.scope_locals@
        &&& t.scope_locals@.last().name@ == name
        &&& t.scope_locals@.last().local == local
        &&& t.scope_locals@.last().count == 1
        &&& t.errors@ == errs
    } else {
        &&& t.scope_locals == mid.scope_locals
        &&& t.errors@ == errs.push(ParseError(loc, "not allowed to shadow this name"))
    }
}

/// Resolving `let name = init` (local `k`, attribute `lattr`) at `loc`
/// from `s` gives `r` and leaves `t`: the value, if any, is resolved
/// first (to `x`, leaving `mid`), then the name is declared (see
/// `declare_step`); an inlined declaration with a value gives nothing,
/// another keeps its local and its resolved value.
pub open spec fn let_step(
    s: Resolver,
    loc: Span,
    name: Seq<char>,
    init: Option<Box<Ast>>,
    k: u32,
    lattr: Attr,
    t: Resolver,
    r: Ast,
) -> bool
    decreases init, 0nat,
{
    let inlined = lattr == Attr::Inline && init is Some;
    exists|mid: Resolver, x: Ast|
        #![trigger declare_step(mid, t, name, k, lattr, init, x, loc)]
        (match init {
            None => mid == s,
            Some(e) => resolves(s, *e, mid, x),
        }) && declare_step(mid, t, name, k, lattr, init, x, loc) && (
        inlined ==> r == (Ast { loc, attr: Attr::NoAttr, ty: AstType::NoType, data: AstData::Void }))
            && (!inlined ==> (r.data matches AstData::LetLocal { init: i, local_index: li, .. } && li == k
            && (init is Some ==> i == Some(Box::new(x)))))
}

/// Resolving the tree `a` from `s` gives `r` and leaves `t`: a `@debug`
/// tree (when not debugging) gives nothing and changes nothing; any other
/// gives `resolved_node`, where a name is resolved by `ident_step`, a
/// declaration by `let_step`, and literals, strings, `break`, resolved
/// locals and nothing change no state.
pub open spec fn resolves(s: Resolver, a: Ast, t: Resolver, r: Ast) -> bool
    decreases a, 1nat,
{
    if a.attr == Attr::Debug && !s.debug {
        r == (Ast { loc: a.loc, attr: Attr::NoAttr, ty: AstType::NoType, data: AstData::Void }) && t == s
    } else {
        &&& resolved_node(s.cur().language, a, r)
        &&& match a.data {
            AstData::Ident { s: name } => ident_step(s, name@, t, r),
            AstData::ConstLit { .. } | AstData::ConstStr { .. } | AstData::Break | AstData::Local { .. }
            | AstData::Void => t == s,
            AstData::LetLocal { name, init, local_index, attr: lattr, .. } => let_step(
                s,
                a.loc,
                name@,
                init,
                local_index,
                lattr,
                t,
                r,
            ),
            _ => true,
        }
    }
}

/// Resolving the trees `items` in turn from `states[0]` gives `outs`, the
/// tree `j` leaving `states[j + 1]`.
pub open spec fn trace(states: Seq<Resolver>, items: Seq<Ast>, outs: Seq<Ast>) -> bool {
    &&& states.len() == items.len() + 1
    &&& outs.len() == items.len()
    &&& forall|j: int| 0 <= j < items.len() ==> #[trigger] resolves(states[j], items[j], states[j + 1], outs[j])
}

/// The trees of `s` that are not `Void`, in order.
pub open spec fn kept(s: Seq<Ast>) -> Seq<Ast>
    decreases s.len(),
{
    if s.len() == 0 {
        s
    } else if s.last().data is Void {
        kept(s.drop_last())
    } else {
        kept(s.drop_last()).push(s.last())
    }
}

/// The last name brought into scope is `name`, meaning the local `index`,
/// used once; inlined or not as `inline` says.
pub open spec fn declared(r: Resolver, name: Seq<char>, index: u32, inline: bool) -> bool {
    &&& r.scope_locals@.len() > 0
    &&& r.scope_locals@.last().name@ == name
    &&& r.scope_locals@.last().count == 1
    &&& r.scope_locals@.last().local matches Local::Local { index: i, inline: v } && i == index && (v is Some
        <==> inline)
}

/// What resolving keeps of a node whose kind it keeps: the declared
/// local, name and export of a function, the local of a `for`, the kind of
/// an application and the number of its arguments, of the statements of a
/// block, of the elements of an array, and the field names of an object.
pub open spec fn kept_fields(a: AstData, r: AstData) -> bool {
    match (a, r) {
        (AstData::FnLocal { name: n, local_index: l, exported: e, .. }, AstData::FnLocal {
            name: m,
            local_index: k,
            exported: f,
            ..
        }) => n@ == m@ && l == k && e == f,
        (AstData::For { name: n, pat: p, .. }, AstData::For { name: m, pat: q, .. }) => n@ == m@ && p == q,
        (AstData::App { params: p, kind: k, .. }, AstData::App { params: q, kind: j, .. }) => k == j && p@.len()
            == q@.len(),
        (AstData::Block { expr: x }, AstData::Block { expr: y }) => x@.len() == y@.len(),
        (AstData::Array { elems: x }, AstData::Array { elems: y }) => x@.len() == y@.len(),
        (AstData::NewObject { assignments: x }, AstData::NewObject { assignments: y }) => x@.len() == y@.len()
            && forall|i: int| 0 <= i < x@.len() ==> #[trigger] x@[i].0@ == y@[i].0@,
        (AstData::If { else_body: x, .. }, AstData::If { else_body: y, .. }) => (x is Some <==> y is Some),
        (AstData::Return { value: x }, AstData::Return { value: y }) => (x is Some <==> y is Some),
        _ => kind_of(a) == kind_of(r),
    }
}

/// What resolving a tree `a` (not dropped as `@debug`) in a module of
/// language `lang` gives: a name becomes what it names (see
/// `resolve_ident`); a field access stays one or becomes a module member;
/// a declaration keeps its local or, inlined, becomes `Void`; a literal
/// keeps its value and, in GLSL, gets a 32-bit type; `use`, named types,
/// strings, `break`, locals and `Void` stay as they are; any other node
/// keeps its span, attribute, kind and the fields `kept_fields` names.
pub open spec fn resolved_node(lang: Language, a: Ast, r: Ast) -> bool {
    match a.data {
        AstData::Ident { .. } => true,
        AstData::Field { .. } => r.loc == a.loc && (r.data is Field || r.data matches AstData::Local {
            local: Local::ModuleMember { .. },
        }),
        AstData::LetLocal { local_index, .. } => r.loc == a.loc && (r.data is Void || (r.data matches AstData::LetLocal {
            local_index: li,
            ..
        } && li == local_index)),
        AstData::ConstLit { v } => if lang == Language::Glsl {
            r.loc == a.loc && r.attr == a.attr && r.data == a.data && r.ty == match v {
                Lit::Int(_) => AstType::I32,
                Lit::Float(_) => AstType::F32,
            }
        } else {
            r == a
        },
        AstData::Use { .. } | AstData::TypeDef { .. } | AstData::ConstStr { .. } | AstData::Break
        | AstData::Local { .. } | AstData::Void => r == a,
        _ => r.loc == a.loc && r.attr == a.attr && kind_of(r.data) == kind_of(a.data) && kept_fields(a.data, r.data),
    }
}

/// What resolving `a` gives: `Void` for a `@debug` tree when not
/// debugging, else `resolved_node`.
pub open spec fn resolved_shape(debug: bool, lang: Language, a: Ast, r: Ast) -> bool {
    if a.attr == Attr::Debug && !debug {
        r.data is Void
    } else {
        resolved_node(lang, a, r)
    }
}

/// A resolving step: the invariant holds, the modules keep what they
/// declare, and scopes opened inside are closed again.
pub open spec fn steps(old: Resolver, new: Resolver) -> bool {
    &&& new.inv()
    &&& Resolver::frame(old, new)
    &&& new.conflict_tree_stack@.len() == old.conflict_tree_stack@.len()
}

/// The trees of `s` are not `Void`.
pub open spec fn no_void(s: Seq<Ast>) -> bool {
    forall|i: int| 0 <= i < s.len() ==> !(#[trigger] s[i].data is Void)
}

impl Resolver {
    /// Resolves the trees of `v`, in order.
    fn resolve_asts(&mut self, v: Vec<Ast>) -> (r: Vec<Ast>)
        requires
            old(self).inv(),
            old(self).ok_asts_spec(v@),
        ensures
            steps(*old(self), *final(self)),
            final(self).ok_asts_spec(r@),
            r@.len() == v@.len(),
            forall|i: int|
                0 <= i < v@.len() ==> resolved_shape(old(self).debug, old(self).cur().language, v@[i], #[trigger] r@[i]),
        decreases v, 1nat,
    {
        let ghost g = v;
        let mut rest = v;
        let mut out: Vec<Ast> = Vec::new();
        proof {
            super::lemma_asts_each(rest@, self.nl(), self.nt(), self.nu());
        }
        while rest.len() > 0
            invariant
                g == v,
                steps(*old(self), *self),
                rest@ == g@.skip(out@.len() as int),
                out@.len() <= g@.len(),
                self.ok_asts_spec(out@),
                forall|j: int| 0 <= j < g@.len() ==> self.ok_ast(#[trigger] g@[j]),
                forall|j: int|
                    0 <= j < out@.len() ==> resolved_shape(
                        old(self).debug,
                        old(self).cur().language,
                        g@[j],
                        #[trigger] out@[j],
                    ),
            decreases rest@.len(),
        {
            let ghost k = out@.len();
            let e = rest.remove(0);
            assert(e == g@[k as int]);
            assert(decreases_to!(g => g@[k as int]));
            let e2 = self.resolve_ast(e);
            proof {
                super::lemma_asts_push(out@, e2, self.nl(), self.nt(), self.nu());
                assert(rest@ =~= g@.skip(k as int + 1));
            }
            out.push(e2);
        }
        out
    }

    pub open spec fn ok_asts_spec(&self, s: Seq<Ast>) -> bool {
        super::asts_ok(s, self.nl(), self.nt(), self.nu())
    }

    /// Resolves a lambda: its parameter types, its parameters brought into
    /// the current scope, its return type and its items, dropping the items
    /// that resolve to nothing. Gives the lambda and its function type.
    fn resolve_lambda_owned(&mut self, lambda: AstLambda, span: Span) -> (r: (AstLambda, AstType))
        requires
            old(self).inv(),
            old(self).ok_lambda(lambda),
        ensures
            steps(*old(self), *final(self)),
            final(self).ok_lambda(r.0),
            no_void(r.0.expr@),
            r.0.param_locals == lambda.param_locals,
            r.0.params@.len() == lambda.params@.len(),
            r.1 is Fn,
            lambda.param_locals@.len() == 0 ==> exists|states: Seq<Resolver>, outs: Seq<Ast>|
                #[trigger] trace(states, lambda.expr@, outs) && states[0] == *old(self) && r.0.expr@ == kept(
                    outs,
                ),
        decreases lambda, 1nat,
    {
        let ghost g = lambda;
        let ghost nl = self.nl();
        let AstLambda { params, param_locals, expr, return_type } = lambda;
        let mut params_in = params;
        let mut params2: Vec<ParamDef> = Vec::new();
        let mut param_types: Vec<AstType> = Vec::new();
        proof {
            super::lemma_params_each(params_in@, nl);
        }
        while params_in.len() > 0
            invariant
                steps(*old(self), *self),
                self.nl() == nl,
                params_in@ == g.params@.skip(params2@.len() as int),
                params2@.len() <= g.params@.len(),
                param_types@.len() == params2@.len(),
                super::params_ok(params2@, nl),
                forall|j: int| 0 <= j < g.params@.len() ==> super::pattern_ok(#[trigger] g.params@[j].pat, nl),
                *self == *old(self),
            decreases params_in@.len(),
        {
            let ghost k = params2@.len();
            let p = params_in.remove(0);
            assert(p == g.params@[k as int]);
            let ParamDef { pat, ty } = p;
            let mut ty = ty;
            self.resolve_type(&mut ty);
            param_types.push(ty.copy());
            let pd = ParamDef { pat, ty };
            proof {
                assert(params2@.push(pd).drop_last() =~= params2@);
                assert(params_in@ =~= g.params@.skip(k as int + 1));
            }
            params2.push(pd);
        }
        let cur = self.current_module;
        let mut i: usize = 0;
        while i < param_locals.len()
            invariant
                steps(*old(self), *self),
                self.nl() == nl,
                i <= param_locals@.len(),
                param_locals == g.param_locals,
                forall|j: int| 0 <= j < g.param_locals@.len() ==> #[trigger] g.param_locals@[j] < nl,
                cur == self.current_module,
                g.param_locals@.len() == 0 ==> *self == *old(self),
            decreases param_locals@.len() - i,
        {
            let local_index = param_locals[i];
            assert(g.param_locals@[i as int] < nl);
            let name = self.module_infos[cur].locals[local_index as usize].name.clone();
            self.add_local(name, Local::Local { index: local_index, inline: None }, span);
            i = i + 1;
        }
        let mut rt = return_type;
        self.resolve_type(&mut rt);
        let fn_type = AstType::Fn(Box::new(rt.copy()), param_types);
        let mut rest = expr;
        let mut out: Vec<Ast> = Vec::new();
        proof {
            super::lemma_asts_each(rest@, self.nl(), self.nt(), self.nu());
        }
        let ghost taken: int = 0;
        let ghost states: Seq<Resolver> = seq![*self];
        let ghost outs: Seq<Ast> = Seq::empty();
        proof {
            assert(g.expr@.take(0) =~= Seq::<Ast>::empty());
            assert(out@ =~= kept(outs));
        }
        while rest.len() > 0
            invariant
                g == lambda,
                trace(states, g.expr@.take(taken), outs),
                states.last() == *self,
                out@ == kept(outs),
                g.param_locals@.len() == 0 ==> states[0] == *old(self),
                steps(*old(self), *self),
                self.nl() == nl,
                0 <= taken <= g.expr@.len(),
                rest@ == g.expr@.skip(taken),
                self.ok_asts_spec(out@),
                no_void(out@),
                forall|j: int| 0 <= j < g.expr@.len() ==> self.ok_ast(#[trigger] g.expr@[j]),
            decreases rest@.len(),
        {
            let e = rest.remove(0);
            assert(e == g.expr@[taken]);
            assert(decreases_to!(g.expr => g.expr@[taken]));
            let ghost before = *self;
            let e2 = self.resolve_ast(e);
            proof {
                let states0 = states;
                let outs0 = outs;
                let items0 = g.expr@.take(taken);
                states = states.push(*self);
                outs = outs.push(e2);
                let items1 = g.expr@.take(taken + 1);
                assert forall|j: int| 0 <= j < items1.len() implies #[trigger] resolves(
                    states[j],
                    items1[j],
                    states[j + 1],
                    outs[j],
                ) by {
                    if j < taken {
                        assert(states[j] == states0[j]);
                        assert(states[j + 1] == states0[j + 1]);
                        assert(items1[j] == items0[j]);
                        assert(outs[j] == outs0[j]);
                        assert(resolves(states0[j], items0[j], states0[j + 1], outs0[j]));
                    } else {
                        assert(states[j] == before);
                        assert(items1[j] == g.expr@[taken]);
                    }
                }
                assert(outs.drop_last() =~= outs0);
                assert(rest@ =~= g.expr@.skip(taken + 1));
                taken = taken + 1;
            }
            match e2.data {
                AstData::Void => {},
                _ => {
                    proof {
                        super::lemma_asts_push(out@, e2, self.nl(), self.nt(), self.nu());
                    }
                    out.push(e2);
                },
            }
        }
        let l = AstLambda { params: params2, param_locals, expr: out, return_type: rt };
        proof {
            assert(g.expr@.take(taken) =~= g.expr@);
            assert(trace(states, lambda.expr@, outs));
        }
        (l, fn_type)
    }

    /// Resolves a lambda in place and gives its function type.
    pub fn resolve_lambda(&mut self, lambda: &mut AstLambda, span: Span) -> (r: AstType)
        requires
            old(self).inv(),
            old(self).ok_lambda(*old(lambda)),
        ensures
            steps(*old(self), *final(self)),
            final(self).ok_lambda(*final(lambda)),
            no_void(final(lambda).expr@),
            r is Fn,
            old(lambda).param_locals@.len() == 0 ==> exists|states: Seq<Resolver>, outs: Seq<Ast>|
                #[trigger] trace(states, old(lambda).expr@, outs) && states[0] == *old(self)
                    && final(lambda).expr@ == kept(outs),
    {
        let mut l = AstLambda::new_empty();
        std::mem::swap(&mut l, lambda);
        let (l2, t) = self.resolve_lambda_owned(l, span);
        *lambda = l2;
        t
    }
}

impl Resolver {
    /// Resolves a declaration `let name = init`: the local's type is the
    /// declared one, resolved, or the type of `init` when none was declared;
    /// an `@inline` declaration brings its (resolved) value into scope to be
    /// copied wherever the name is used, and resolves to nothing.
    fn resolve_let(
        &mut self,
        loc: Span,
        ty: AstType,
        attr: Attr,
        name: Ident,
        init: Option<Box<Ast>>,
        local_index: u32,
        lattr: Attr,
    ) -> (r: Ast)
        requires
            old(self).inv(),
            local_index < old(self).nl(),
            init matches Some(i) ==> old(self).ok_ast(*i),
        ensures
            steps(*old(self), *final(self)),
            final(self).ok_ast(r),
            r.loc == loc,
            lattr == Attr::Inline && init is Some ==> r.data is Void,
            !(lattr == Attr::Inline && init is Some) ==> r.attr == attr && (r.data matches AstData::LetLocal {
                name: n,
                local_index: li,
                init: i,
                attr: la,
                ty: t,
            } && n@ == name@ && li == local_index && la == lattr && (i is Some <==> init is Some) && super::same_type(
                t,
                final(self).cur().locals@[local_index as int].ty,
            )),
            lattr == Attr::Inline && init is Some ==> r == (Ast {
                loc,
                attr: Attr::NoAttr,
                ty: AstType::NoType,
                data: AstData::Void,
            }),
            final(self).scope_local_list@.len() > 0 && final(self).scope_local_list@.last()@ == name@,
            declared(*final(self), name@, local_index, lattr == Attr::Inline && init is Some)
                || final(self).errors@.last() == ParseError(loc, "not allowed to shadow this name"),
            let_step(*old(self), loc, name@, init, local_index, lattr, *final(self), r),
            !(lattr == Attr::Inline && init is Some) && old(self).cur().locals@[local_index as int].ty is Any
                ==> match r.data {
                AstData::LetLocal { init: Some(i), .. } => super::same_type(
                    final(self).cur().locals@[local_index as int].ty,
                    i.ty,
                ),
                _ => final(self).cur().locals@[local_index as int].ty == AstType::NoType,
            },
        decreases init, 1nat,
    {
        let cur0 = self.current_module;
        let was_any = self.module_infos[cur0].locals[local_index as usize].ty.is_any();
        let ghost init0 = init;
        let ghost s0 = *self;
        let init2 = match init {
            Some(i) => Some(Box::new(self.resolve_ast(*i))),
            None => None,
        };
        let ghost mid = *self;
        let ghost x: Ast = if init2 is Some {
            *(init2->0)
        } else {
            vstd::pervasive::arbitrary()
        };
        let ghost inlined = lattr == Attr::Inline && init is Some;
        let ghost no_value = lattr == Attr::Inline && init is None;
        proof {
            if init0 is Some {
                assert(resolves(s0, *(init0->0), mid, x));
            } else {
                assert(mid == s0);
            }
            assert(s0 == *old(self));
        }
        let init_ty = match &init2 {
            Some(i) => i.ty.copy(),
            None => AstType::NoType,
        };
        let mut local_type = self.swap_local_ty(local_index, AstType::NoType);
        if was_any {
            local_type = init_ty;
        } else {
            self.resolve_type(&mut local_type);
        }
        let let_ty = local_type.copy();
        self.swap_local_ty(local_index, local_type);
        if lattr == Attr::Inline {
            match init2 {
                Some(i) => {
                    let ghost nm = name@;
                    self.add_local(name, Local::Local { index: local_index, inline: Some(i) }, loc);
                    let rv = Ast { loc, attr: Attr::NoAttr, ty: AstType::NoType, data: AstData::Void };
                    proof {
                        assert(declare_step(mid, *self, nm, local_index, lattr, init0, x, loc));
                        assert(inlined);
                        assert(rv == (Ast { loc, attr: Attr::NoAttr, ty: AstType::NoType, data: AstData::Void }));
                        assert(match init0 {
                            None => mid == s0,
                            Some(e) => resolves(s0, *e, mid, x),
                        });
                        assert(let_step(s0, loc, nm, init0, local_index, lattr, *self, rv));
                    }
                    return rv;
                },
                None => {
                    self.add_error_span(loc, "inline declaration without a value");
                    self.add_local(name.clone(), Local::Local { index: local_index, inline: None }, loc);
                    proof {
                        assert(declare_step(mid, *self, name@, local_index, lattr, init0, x, loc));
                    }
                    return Ast {
                        ty,
                        loc,
                        attr,
                        data: AstData::LetLocal { name, ty: let_ty, init: None, local_index, attr: lattr },
                    };
                },
            }
        }
        self.add_local(name.clone(), Local::Local { index: local_index, inline: None }, loc);
        proof {
            assert(declare_step(mid, *self, name@, local_index, lattr, init0, x, loc));
        }
        Ast {
            ty,
            loc,
            attr,
            data: AstData::LetLocal { name, ty: let_ty, init: init2, local_index, attr: lattr },
        }
    }

    /// Resolves an identifier to what it names in scope: a builtin (typed
    /// by it), a local (with the local's type; an inlined local becomes a
    /// copy of its value) or a module. A name not in scope stays as it is.
    fn resolve_ident(&mut self, ty: AstType, loc: Span, attr: Attr, s: Ident) -> (r: Ast)
        requires
            old(self).inv(),
        ensures
            steps(*old(self), *final(self)),
            final(self).errors == old(self).errors,
            final(self).module_infos == old(self).module_infos,
            counted(old(self).scope_locals@, final(self).scope_locals@, s@),
            final(self).ok_ast(r),
            in_scope(old(self).scope_locals@, s@) is None ==> r == (Ast { ty, loc, attr, data: AstData::Ident { s } }),
            in_scope(old(self).scope_locals@, s@) matches Some(l) ==> match l {
                Local::Builtin(b) => r.data == (AstData::Local { local: Local::Builtin(b) }) && r.loc == loc
                    && r.attr == attr && r.ty is Any,
                Local::Local { index, inline: None } => r.data == (AstData::Local {
                    local: Local::Local { index, inline: None },
                }) && r.loc == loc && r.attr == attr && super::same_type(
                    r.ty,
                    old(self).cur().locals@[index as int].ty,
                ),
                Local::Local { inline: Some(e), .. } => super::same_ast(*e, r),
                Local::ModuleRef { abs_index } => r == (Ast {
                    ty,
                    loc,
                    attr,
                    data: AstData::Local { local: Local::ModuleRef { abs_index } },
                }),
                Local::ModuleMember { abs_index, local_index } => r == (Ast {
                    ty,
                    loc,
                    attr,
                    data: AstData::Local { local: Local::ModuleMember { abs_index, local_index } },
                }),
            },
    {
        match self.find_local(&s) {
            Some(local) => match local {
                Local::Builtin(b) => Ast {
                    ty: b.get_type(),
                    loc,
                    attr,
                    data: AstData::Local { local: Local::Builtin(b) },
                },
                Local::Local { index, inline } => match inline {
                    Some(e) => *e,
                    None => {
                        let cur = self.current_module;
                        let t = self.module_infos[cur].locals[index as usize].ty.copy();
                        Ast {
                            ty: t,
                            loc,
                            attr,
                            data: AstData::Local { local: Local::Local { index, inline: None } },
                        }
                    },
                },
                other => Ast { ty, loc, attr, data: AstData::Local { local: other } },
            },
            None => Ast { ty, loc, attr, data: AstData::Ident { s } },
        }
    }

    /// Resolves a field access whose base is resolved: `module.name`
    /// becomes the member `name` exported by the module; any other access
    /// is kept. A member that is not a name is an error.
    fn resolve_field(&mut self, ty: AstType, loc: Span, attr: Attr, base: Ast, member: Ast) -> (r: Ast)
        requires
            old(self).inv(),
            old(self).ok_ast(base),
            old(self).ok_ast(member),
        ensures
            steps(*old(self), *final(self)),
            final(self).ok_ast(r),
            r.loc == loc,
            r.data == match member_of(old(self).module_infos@, base, member) {
                Some((a, l)) => AstData::Local { local: Local::ModuleMember { abs_index: a, local_index: l } },
                None => AstData::Field { base: Box::new(base), member: Box::new(member) },
            },
            member.data is Ident ==> final(self).errors == old(self).errors,
            !(member.data is Ident) ==> final(self).errors@ == old(self).errors@.push(
                ParseError(loc, "invalid field access"),
            ),
    {
        match &member.data {
            AstData::Ident { s } => {
                match &base.data {
                    AstData::Local { local: Local::ModuleRef { abs_index } } => {
                        let abs = *abs_index as usize;
                        if abs < self.module_infos.len() {
                            match super::exports_rev_get(&self.module_infos[abs].exports_rev, s) {
                                Some(module_local_index) => {
                                    return Ast {
                                        loc,
                                        attr: Attr::NoAttr,
                                        ty: AstType::Any,
                                        data: AstData::Local {
                                            local: Local::ModuleMember {
                                                abs_index: *abs_index,
                                                local_index: module_local_index,
                                            },
                                        },
                                    };
                                },
                                None => {},
                            }
                        }
                    },
                    _ => {},
                }
            },
            _ => {
                self.add_error_span(loc, "invalid field access");
            },
        }
        let r = Ast {
            ty,
            loc,
            attr,
            data: AstData::Field { base: Box::new(base), member: Box::new(member) },
        };
        r
    }

    /// Resolves the names of a named type and brings it into scope.
    fn resolve_typedef(&mut self, index: u32, loc: Span)
        requires
            old(self).inv(),
            index < old(self).nt(),
        ensures
            steps(*old(self), *final(self)),
            final(self).scope_local_type_list@.len() == old(self).scope_local_type_list@.len() + 1,
            final(self).scope_local_type_list@.last()@ == old(self).cur().local_types@[index as int].name@,
            (forall|i: int|
                0 <= i < old(self).scope_local_types@.len() ==> #[trigger] old(self).scope_local_types@[i].name@
                    != old(self).cur().local_types@[index as int].name@) ==> final(self).scope_local_types@.len()
                == old(self).scope_local_types@.len() + 1 && final(self).scope_local_types@.drop_last() == old(
                self,
            ).scope_local_types@ && final(self).scope_local_types@.last().name@ == old(self).cur().local_types@[index as int].name@
                && super::same_type(final(self).scope_local_types@.last().ty, final(self).cur().local_types@[index as int].ty),
            final(self).scope_locals == old(self).scope_locals,
    {
        let cur = self.current_module;
        let name = self.module_infos[cur].local_types[index as usize].name.clone();
        let mut ty = self.swap_type_ty(index, AstType::NoType);
        self.resolve_type(&mut ty);
        let ty_clone = ty.copy();
        self.swap_type_ty(index, ty);
        self.add_local_type(name, ty_clone, loc);
    }
}

impl Resolver {
    /// Resolves one tree. Its identifiers become what they name in scope,
    /// its declarations come into scope (for the rest of the enclosing
    /// block), lambdas and blocks open scopes of their own, and the types of
    /// declared locals are recorded in the module. Literals in a GLSL module
    /// get 32-bit types, applications of constructors the constructed type,
    /// and a `@debug` item resolves to nothing unless debugging.
    fn resolve_ast(&mut self, ast: Ast) -> (r: Ast)
        requires
            old(self).inv(),
            old(self).ok_ast(ast),
        ensures
            steps(*old(self), *final(self)),
            final(self).ok_ast(r),
            ast.attr == Attr::Debug && !old(self).debug ==> r == (Ast {
                loc: ast.loc,
                attr: Attr::NoAttr,
                ty: AstType::NoType,
                data: AstData::Void,
            }),
            resolved_shape(old(self).debug, old(self).cur().language, ast, r),
            resolves(*old(self), ast, *final(self), r),
            !(ast.attr == Attr::Debug && !old(self).debug) ==> (ast.data matches AstData::Ident { s }
                ==> counted(old(self).scope_locals@, final(self).scope_locals@, s@) && final(self).errors
                == old(self).errors),
            !(ast.attr == Attr::Debug && !old(self).debug) ==> (ast.data matches AstData::LetLocal {
                name,
                init,
                local_index,
                attr: lattr,
                ..
            } ==> let_resolved(*old(self), *final(self), ast.loc, name@, init is Some, local_index, lattr, r)),
            !(ast.attr == Attr::Debug && !old(self).debug) ==> (ast.data matches AstData::Ident { s } ==> match in_scope(
                old(self).scope_locals@,
                s@,
            ) {
                None => r == ast,
                Some(Local::Local { index, inline: None }) => r.data == (AstData::Local {
                    local: Local::Local { index, inline: None },
                }),
                Some(Local::Local { inline: Some(e), .. }) => super::same_ast(*e, r),
                Some(Local::Builtin(b)) => r.data == (AstData::Local { local: Local::Builtin(b) }),
                Some(Local::ModuleRef { abs_index }) => r.data == (AstData::Local {
                    local: Local::ModuleRef { abs_index },
                }),
                Some(Local::ModuleMember { abs_index, local_index }) => r.data == (AstData::Local {
                    local: Local::ModuleMember { abs_index, local_index },
                }),
            }),
            !(ast.attr == Attr::Debug && !old(self).debug) ==> (ast.data matches AstData::Use { name, rel_index }
                ==> r == ast && ((forall|i: int|
                0 <= i < old(self).scope_locals@.len() ==> #[trigger] old(self).scope_locals@[i].name@ != name@)
                ==> final(self).scope_locals@.drop_last() == old(self).scope_locals@
                && final(self).scope_locals@.len() == old(self).scope_locals@.len() + 1
                && final(self).scope_locals@.last().name@ == name@ && final(self).scope_locals@.last().local
                == (Local::ModuleRef { abs_index: old(self).cur().import_map@[rel_index as int] }))),
            !(ast.attr == Attr::Debug && !old(self).debug) && old(self).cur().language == Language::Glsl ==> (
            ast.data matches AstData::ConstLit { v } ==> r.data == ast.data && r.ty == match v {
                Lit::Int(_) => AstType::I32,
                Lit::Float(_) => AstType::F32,
            }),
        decreases ast, 2nat,
    {
        if ast.attr == Attr::Debug && !self.debug {
            return Ast { loc: ast.loc, attr: Attr::NoAttr, ty: AstType::NoType, data: AstData::Void };
        }
        match &ast.data {
            AstData::Loop { .. } | AstData::For { .. } | AstData::While { .. } | AstData::FnLocal {
                ..
            } | AstData::If { .. } | AstData::Lambda { .. } | AstData::Block { .. } => {
                return self.resolve_scoped(ast);
            },
            AstData::NewObject { .. } | AstData::NewCtor { .. } | AstData::Return { .. }
            | AstData::Array { .. } | AstData::Index { .. } | AstData::Field { .. } | AstData::App {
                ..
            } => {
                return self.resolve_compound(ast);
            },
            _ => {},
        }
        let Ast { ty, loc, attr, data } = ast;
        let cur = self.current_module;
        let glsl = self.module_infos[cur].language == Language::Glsl;
        match data {
            AstData::ConstLit { v } => {
                let ty = if glsl {
                    match &v {
                        Lit::Int(_) => AstType::I32,
                        Lit::Float(_) => AstType::F32,
                    }
                } else {
                    ty
                };
                Ast { ty, loc, attr, data: AstData::ConstLit { v } }
            },
            AstData::TypeDef { index } => {
                self.resolve_typedef(index, loc);
                Ast { ty, loc, attr, data: AstData::TypeDef { index } }
            },
            AstData::LetLocal { name, ty: let_ty, init, local_index, attr: lattr } => {
                self.resolve_let(loc, ty, attr, name, init, local_index, lattr)
            },
            AstData::Use { name, rel_index } => {
                let abs_index = self.module_infos[cur].import_map[rel_index as usize];
                self.add_local(name.clone(), Local::ModuleRef { abs_index }, loc);
                Ast { ty, loc, attr, data: AstData::Use { name, rel_index } }
            },
            AstData::Ident { s } => self.resolve_ident(ty, loc, attr, s),
            other => Ast { ty, loc, attr, data: other },
        }
    }

    /// Resolves a tree that opens a scope: a loop, a `for`, a `while`, a
    /// function, an `if`, a lambda or a block.
    fn resolve_scoped(&mut self, ast: Ast) -> (r: Ast)
        requires
            old(self).inv(),
            old(self).ok_ast(ast),
            ast.data is Loop || ast.data is For || ast.data is While || ast.data is FnLocal || ast.data is If
                || ast.data is Lambda || ast.data is Block,
        ensures
            steps(*old(self), *final(self)),
            final(self).ok_ast(r),
            resolved_node(old(self).cur().language, ast, r),
        decreases ast, 1nat,
    {
        let Ast { ty, loc, attr, data } = ast;
        match data {
            AstData::Loop { body } => {
                let lc = self.begin_scope();
                let (body, _) = self.resolve_lambda_owned(body, loc);
                self.end_scope(lc);
                Ast { ty, loc, attr, data: AstData::Loop { body } }
            },
            AstData::For { name, pat, iter, body } => {
                let lc = self.begin_scope();
                let (from, to) = iter;
                let from = self.resolve_ast(*from);
                let to = self.resolve_ast(*to);
                self.add_local(name.clone(), Local::Local { index: pat, inline: None }, loc);
                let (body, _) = self.resolve_lambda_owned(body, loc);
                self.end_scope(lc);
                Ast {
                    ty,
                    loc,
                    attr,
                    data: AstData::For { name, pat, iter: (Box::new(from), Box::new(to)), body },
                }
            },
            AstData::While { cond, body } => {
                let cond = self.resolve_ast(*cond);
                let lc = self.begin_scope();
                let (body, _) = self.resolve_lambda_owned(body, loc);
                self.end_scope(lc);
                Ast { ty, loc, attr, data: AstData::While { cond: Box::new(cond), body } }
            },
            AstData::FnLocal { name, lambda, local_index, exported } => {
                self.add_local(name.clone(), Local::Local { index: local_index, inline: None }, loc);
                let lc = self.begin_scope();
                let (lambda, fn_type) = self.resolve_lambda_owned(lambda, loc);
                self.swap_local_ty(local_index, fn_type);
                self.end_scope(lc);
                Ast { ty, loc, attr, data: AstData::FnLocal { name, lambda, local_index, exported } }
            },
            AstData::If { cond, body, else_body } => {
                let cond = self.resolve_ast(*cond);
                let lc = self.begin_scope();
                let (body, _) = self.resolve_lambda_owned(body, loc);
                self.end_scope(lc);
                let else_body = match else_body {
                    Some(e) => Some(Box::new(self.resolve_ast(*e))),
                    None => None,
                };
                Ast { ty, loc, attr, data: AstData::If { cond: Box::new(cond), body, else_body } }
            },
            AstData::Lambda { lambda } => {
                let lc = self.begin_scope();
                let (lambda, fn_type) = self.resolve_lambda_owned(lambda, loc);
                self.end_scope(lc);
                Ast { ty: fn_type, loc, attr, data: AstData::Lambda { lambda } }
            },
            AstData::Block { expr } => {
                let lc = self.begin_scope();
                let expr = self.resolve_asts(expr);
                self.end_scope(lc);
                Ast { ty, loc, attr, data: AstData::Block { expr } }
            },
            other => Ast { ty, loc, attr, data: other },
        }
    }

    /// Resolves a tree made of other trees: objects, constructor calls,
    /// `return`, arrays, indexing, field accesses and applications.
    fn resolve_compound(&mut self, ast: Ast) -> (r: Ast)
        requires
            old(self).inv(),
            old(self).ok_ast(ast),
            ast.data is NewObject || ast.data is NewCtor || ast.data is Return || ast.data is Array
                || ast.data is Index || ast.data is Field || ast.data is App,
        ensures
            steps(*old(self), *final(self)),
            final(self).ok_ast(r),
            resolved_node(old(self).cur().language, ast, r),
        decreases ast, 1nat,
    {
        let Ast { ty, loc, attr, data } = ast;
        match data {
            AstData::NewObject { assignments } => {
                let out = self.resolve_assigns(assignments);
                Ast { ty, loc, attr, data: AstData::NewObject { assignments: out } }
            },
            AstData::NewCtor { ctor, params } => {
                let ctor = self.resolve_ast(*ctor);
                let params = self.resolve_asts(params);
                Ast { ty, loc, attr, data: AstData::NewCtor { ctor: Box::new(ctor), params } }
            },
            AstData::Return { value } => {
                let value = match value {
                    Some(v) => Some(Box::new(self.resolve_ast(*v))),
                    None => None,
                };
                Ast { ty, loc, attr, data: AstData::Return { value } }
            },
            AstData::Array { elems } => {
                let elems = self.resolve_asts(elems);
                Ast { ty, loc, attr, data: AstData::Array { elems } }
            },
            AstData::Index { base, index } => {
                let base = self.resolve_ast(*base);
                let index = self.resolve_ast(*index);
                Ast { ty, loc, attr, data: AstData::Index { base: Box::new(base), index: Box::new(index) } }
            },
            AstData::Field { base, member } => {
                let base = self.resolve_ast(*base);
                self.resolve_field(ty, loc, attr, base, *member)
            },
            AstData::App { fun, params, kind } => {
                let fun = self.resolve_ast(*fun);
                let params = self.resolve_asts(params);
                let ty = match &fun.ty {
                    AstType::Ctor(ret) => ret.copy(),
                    _ => ty,
                };
                Ast { ty, loc, attr, data: AstData::App { fun: Box::new(fun), params, kind } }
            },
            other => Ast { ty, loc, attr, data: other },
        }
    }

    /// Resolves the values of object fields, in order.
    fn resolve_assigns(&mut self, v: Vec<(Ident, Ast)>) -> (r: Vec<(Ident, Ast)>)
        requires
            old(self).inv(),
            super::assigns_ok(v@, old(self).nl(), old(self).nt(), old(self).nu()),
        ensures
            steps(*old(self), *final(self)),
            super::assigns_ok(r@, final(self).nl(), final(self).nt(), final(self).nu()),
            r@.len() == v@.len(),
            forall|i: int|
                0 <= i < v@.len() ==> #[trigger] r@[i].0 == v@[i].0 && resolved_shape(
                    old(self).debug,
                    old(self).cur().language,
                    v@[i].1,
                    r@[i].1,
                ),
        decreases v, 1nat,
    {
        let ghost g = v;
        let mut rest = v;
        let mut out: Vec<(Ident, Ast)> = Vec::new();
        proof {
            super::lemma_assigns_each(rest@, self.nl(), self.nt(), self.nu());
        }
        let ghost taken: int = 0;
        while rest.len() > 0
            invariant
                g == v,
                steps(*old(self), *self),
                0 <= taken <= g@.len(),
                rest@ == g@.skip(taken),
                super::assigns_ok(out@, self.nl(), self.nt(), self.nu()),
                forall|j: int| 0 <= j < g@.len() ==> self.ok_ast(#[trigger] g@[j].1),
                out@.len() == taken,
                forall|j: int|
                    0 <= j < out@.len() ==> #[trigger] out@[j].0 == g@[j].0 && resolved_shape(
                        old(self).debug,
                        old(self).cur().language,
                        g@[j].1,
                        out@[j].1,
                    ),
            decreases rest@.len(),
        {
            let (n, value) = rest.remove(0);
            proof {
                assert(value == g@[taken].1);
                assert(n == g@[taken].0);
                assert(decreases_to!(g => g@[taken]));
                assert(decreases_to!(g@[taken] => g@[taken].1));
            }
            let ghost out0 = out@;
            let ghost t0 = taken;
            let value = self.resolve_ast(value);
            proof {
                super::lemma_assigns_push(out@, (n, value), self.nl(), self.nt(), self.nu());
                assert(rest@ =~= g@.skip(taken + 1));
                taken = taken + 1;
            }
            out.push((n, value));
            proof {
                assert forall|j: int| 0 <= j < out@.len() implies #[trigger] out@[j].0 == g@[j].0 && resolved_shape(
                    old(self).debug,
                    old(self).cur().language,
                    g@[j].1,
                    out@[j].1,
                ) by {
                    if j < t0 {
                        assert(out@[j] == out0[j]);
                    }
                }
            }
        }
        out
    }

    /// Resolves the root lambda of the module, then weighs the locals of
    /// each scope in the module's conflict tree.
    pub fn resolve(&mut self, root_lambda: &mut AstLambda)
        requires
            old(self).inv(),
            old(self).ok_lambda(*old(root_lambda)),
        ensures
            final(self).current_module == old(self).current_module,
            final(self).ok_lambda(*final(root_lambda)),
            no_void(final(root_lambda).expr@),
            final(self).module_infos@.len() == old(self).module_infos@.len(),
            forall|j: int|
                0 <= j < old(self).module_infos@.len() && j != old(self).current_module
                    ==> #[trigger] final(self).module_infos@[j] == old(self).module_infos@[j],
            final(self).cur().import_map == old(self).cur().import_map,
            final(self).cur().language == old(self).cur().language,
            final(self).cur().src == old(self).cur().src,
            final(self).cur().name == old(self).cur().name,
            final(self).cur().locals@.len() == old(self).cur().locals@.len(),
            final(self).cur().local_types@.len() == old(self).cur().local_types@.len(),
            old(self).errors@.len() <= final(self).errors@.len(),
            old(root_lambda).param_locals@.len() == 0 ==> exists|states: Seq<Resolver>, outs: Seq<Ast>|
                #[trigger] trace(states, old(root_lambda).expr@, outs) && states[0] == *old(self)
                    && final(root_lambda).expr@ == kept(outs),
    {
        self.resolve_lambda(root_lambda, Span(0, 0));
        self.flush_scope_locals((0, 0));
        let mut tree = self.conflict_tree_stack.remove(0);
        if tree.checked_value().is_some() {
            tree.compute_sum_of_max();
        } else {
            self.add_error_span(Span(0, 0), "too many uses to weigh");
        }
        let cur = self.current_module;
        let mut mi = self.module_infos.remove(cur);
        mi.conflict_tree = tree;
        self.module_infos.insert(cur, mi);
    }
}

/// What `Resolver::resolve` states of resolving the root lambda `l` from
/// `s`, leaving `t` and the lambda `l2`.
pub open spec fn resolve_post(s: Resolver, l: AstLambda, t: Resolver, l2: AstLambda) -> bool {
    &&& t.current_module == s.current_module
    &&& t.ok_lambda(l2)
    &&& no_void(l2.expr@)
    &&& t.module_infos@.len() == s.module_infos@.len()
    &&& forall|j: int|
        0 <= j < s.module_infos@.len() && j != s.current_module ==> #[trigger] t.module_infos@[j]
            == s.module_infos@[j]
    &&& t.cur().import_map == s.cur().import_map
    &&& t.cur().language == s.cur().language
    &&& t.cur().src == s.cur().src
    &&& t.cur().name == s.cur().name
    &&& t.cur().locals@.len() == s.cur().locals@.len()
    &&& t.cur().local_types@.len() == s.cur().local_types@.len()
    &&& s.errors@.len() <= t.errors@.len()
    &&& l.param_locals@.len() == 0 ==> exists|states: Seq<Resolver>, outs: Seq<Ast>|
        #[trigger] trace(states, l.expr@, outs) && states[0] == s && l2.expr@ == kept(outs)
}

} // verus!
