use vstd::prelude::*;
use crate::hyp::{Attr, Use};
use crate::hyp::parser::text_is;
use crate::glsl_bundler::{chars_of, push_range};
use crate::text::push_char;

verus! {

/// The index of the last `/` of `s` (-1 when there is none).
pub open spec fn last_slash(s: Seq<char>) -> int
    decreases s.len(),
{
    if s.len() == 0 {
        -1
    } else if s.last() == '/' {
        s.len() - 1
    } else {
        last_slash(s.drop_last())
    }
}

/// The directory of a file's path: what comes before its last `/` (the
/// root `/` itself when that is the first character), or nothing when the
/// path has no `/`.
pub open spec fn parent_text(path: Seq<char>) -> Seq<char> {
    let k = last_slash(path);
    if k < 0 {
        Seq::empty()
    } else if k == 0 {
        seq!['/']
    } else {
        path.subrange(0, k)
    }
}

/// The last `/` of a path is inside it.
pub proof fn lemma_last_slash_bound(s: Seq<char>)
    ensures
        -1 <= last_slash(s) < s.len(),
        last_slash(s) >= 0 ==> s[last_slash(s)] == '/',
    decreases s.len(),
{
    if s.len() > 0 && s.last() != '/' {
        lemma_last_slash_bound(s.drop_last());
    }
}

/// The parts of `s` between its `/`s, in order (one part when there is
/// no `/`).
pub open spec fn segs(s: Seq<char>) -> Seq<Seq<char>>
    decreases s.len(),
{
    let k = last_slash(s);
    if k < 0 {
        seq![s]
    } else {
        proof {
            lemma_last_slash_bound(s);
        }
        segs(s.take(k)) + seq![s.skip(k + 1)]
    }
}

/// The text of the parts `g` of a path (absolute when `abs`), as paths
/// compare by their components: empty parts and `.` parts are dropped,
/// but for a `.` that starts a relative path, and the parts are joined by
/// one `/` after the root `/` of an absolute path.
pub open spec fn render(abs: bool, g: Seq<Seq<char>>) -> Seq<char>
    decreases g.len(),
{
    let root: Seq<char> = if abs {
        seq!['/']
    } else {
        Seq::empty()
    };
    if g.len() == 0 {
        root
    } else {
        let r = render(abs, g.drop_last());
        let x = g.last();
        if x.len() == 0 || (x == seq!['.'] && !(g.len() == 1 && !abs)) {
            r
        } else if r.len() == root.len() {
            r + x
        } else {
            r + seq!['/'] + x
        }
    }
}

/// The text by which two paths of the same components compare equal:
/// `a//b`, `a/./b`, `a/b/` and `a/b` all give `a/b`.
#[verifier::opaque]
pub open spec fn path_key(s: Seq<char>) -> Seq<char> {
    render(s.len() > 0 && s[0] == '/', segs(s))
}

/// Reading one more character of a path: a `/` starts a new part, any
/// other character goes on the last part.
proof fn lemma_segs_push(p: Seq<char>, c: char)
    ensures
        segs(p).len() >= 1,
        c == '/' ==> segs(p.push(c)) == segs(p).push(Seq::<char>::empty()),
        c != '/' ==> segs(p.push(c)) == segs(p).drop_last().push(segs(p).last().push(c)),
    decreases p.len(),
{
    let q = p.push(c);
    lemma_last_slash_bound(p);
    if c == '/' {
        assert(last_slash(q) == p.len());
        assert(q.take(p.len() as int) =~= p);
        assert(q.skip(p.len() as int + 1) =~= Seq::<char>::empty());
    } else {
        assert(q.drop_last() =~= p);
        assert(last_slash(q) == last_slash(p));
        let k = last_slash(p);
        if k >= 0 {
            assert(q.take(k) =~= p.take(k));
            assert(q.skip(k + 1) =~= p.skip(k + 1).push(c));
        } else {
            assert(q =~= p.push(c));
        }
    }
}

/// The text by which paths compare (see `path_key`).
pub fn path_key_of(s: &String) -> (r: String)
    ensures
        r@ == path_key(s@),
{
    let cs = chars_of(s.as_str());
    let abs = cs.len() > 0 && cs[0] == '/';
    let ghost root: Seq<char> = if abs {
        seq!['/']
    } else {
        Seq::empty()
    };
    let mut out = String::new();
    if abs {
        push_char(&mut out, '/');
    }
    let mut emitted = false;
    let mut first = true;
    let mut st: usize = 0;
    let mut i: usize = 0;
    let ghost mut done: Seq<Seq<char>> = Seq::empty();
    proof {
        assert(cs@.take(0) =~= Seq::<char>::empty());
        assert(segs(cs@.take(0)) == seq![cs@.take(0)]);
        assert(cs@.subrange(0, 0) =~= Seq::<char>::empty());
        assert(out@ =~= root);
    }
    while i <= cs.len()
        invariant_except_break
            segs(cs@.take(i as int)) == done.push(cs@.subrange(st as int, i as int)),
        invariant
            i <= cs@.len(),
            st <= i,
            abs == (cs@.len() > 0 && cs@[0] == '/'),
            root == (if abs {
                seq!['/']
            } else {
                Seq::<char>::empty()
            }),
            out@ == render(abs, done),
            emitted == (render(abs, done).len() != root.len()),
            first == (done.len() == 0),
        ensures
            segs(cs@) == done,
            out@ == render(abs, done),
        decreases cs@.len() + 1 - i,
    {
        let at_end = i == cs.len();
        if at_end || cs[i] == '/' {
            let seg_len = i - st;
            let is_dot = seg_len == 1 && cs[st] == '.';
            let ghost x = cs@.subrange(st as int, i as int);
            let ghost g = done.push(x);
            proof {
                assert(g.drop_last() =~= done);
                assert(g.last() == x);
                if is_dot {
                    assert(x =~= seq!['.']);
                } else if x.len() == 1 {
                    assert(x != seq!['.']) by {
                        assert(x[0] != '.');
                    }
                }
            }
            if seg_len == 0 || (is_dot && !(first && !abs)) {
            } else {
                if emitted {
                    push_char(&mut out, '/');
                }
                push_range(&mut out, &cs, st, i);
                emitted = true;
            }
            proof {
                if !at_end {
                    lemma_segs_push(cs@.take(i as int), '/');
                    assert(cs@.take(i + 1) =~= cs@.take(i as int).push('/'));
                    assert(cs@.subrange(i + 1, i + 1) =~= Seq::<char>::empty());
                } else {
                    assert(cs@.take(i as int) =~= cs@);
                }
                done = g;
            }
            first = false;
            if at_end {
                break;
            }
            st = i + 1;
        } else {
            proof {
                lemma_segs_push(cs@.take(i as int), cs@[i as int]);
                assert(cs@.take(i + 1) =~= cs@.take(i as int).push(cs@[i as int]));
                assert(cs@.subrange(st as int, i + 1) =~= cs@.subrange(st as int, i as int).push(cs@[i as int]));
            }
        }
        i = i + 1;
    }
    proof {
        reveal(path_key);
    }
    out
}

/// The path of the module that `importer` uses as `rel`: `rel` taken from
/// the directory of `importer` (as it is when it starts with `/`), with
/// `.hyp` added when `rel` has no `.` in it.
pub open spec fn joined_path_text(importer: Seq<char>, rel: Seq<char>) -> Seq<char> {
    let base = parent_text(importer);
    let joined = if rel.len() > 0 && rel[0] == '/' {
        rel
    } else if base.len() == 0 {
        rel
    } else if base.last() == '/' {
        base + rel
    } else {
        base + seq!['/'] + rel
    };
    if rel.contains('.') {
        joined
    } else {
        joined + ".hyp"@
    }
}

proof fn lemma_last_slash(s: Seq<char>, k: int)
    requires
        -1 <= k < s.len(),
        k >= 0 ==> s[k] == '/',
        forall|i: int| k < i < s.len() ==> s[i] != '/',
    ensures
        last_slash(s) == k,
    decreases s.len(),
{
    if s.len() > 0 && s.last() != '/' {
        lemma_last_slash(s.drop_last(), k);
    }
}

/// The path of the module that `importer` uses as `rel` (see
/// `joined_path_text`), as it compares with other paths (see `path_key`).
pub open spec fn use_path_text(importer: Seq<char>, rel: Seq<char>) -> Seq<char> {
    path_key(joined_path_text(importer, rel))
}

/// The path of the module that `importer` uses as `rel` (see `use_path_text`).
pub fn use_path(importer: &String, rel: &String) -> (r: String)
    ensures
        r@ == use_path_text(importer@, rel@),
{
    let cs = chars_of(importer.as_str());
    let rs = chars_of(rel.as_str());
    let mut k: usize = cs.len();
    while k > 0 && cs[k - 1] != '/'
        invariant
            k <= cs@.len(),
            forall|i: int| k <= i < cs@.len() ==> cs@[i] != '/',
        decreases k,
    {
        k = k - 1;
    }
    proof {
        lemma_last_slash(cs@, k - 1);
    }
    let mut has_dot = false;
    let mut i: usize = 0;
    while i < rs.len()
        invariant
            i <= rs@.len(),
            has_dot <==> exists|j: int| 0 <= j < i && rs@[j] == '.',
        decreases rs@.len() - i,
    {
        if rs[i] == '.' {
            has_dot = true;
        }
        i = i + 1;
    }
    let ghost base = parent_text(cs@);
    let mut out = String::new();
    if rs.len() > 0 && rs[0] == '/' {
        push_range(&mut out, &rs, 0, rs.len());
        assert(out@ =~= rel@);
    } else if k == 0 {
        push_range(&mut out, &rs, 0, rs.len());
        assert(out@ =~= rel@);
    } else if k == 1 {
        push_char(&mut out, '/');
        push_range(&mut out, &rs, 0, rs.len());
        assert(out@ =~= base + rel@);
    } else if cs[k - 2] == '/' {
        push_range(&mut out, &cs, 0, k - 1);
        push_range(&mut out, &rs, 0, rs.len());
        assert(out@ =~= base + rel@);
    } else {
        push_range(&mut out, &cs, 0, k - 1);
        push_char(&mut out, '/');
        push_range(&mut out, &rs, 0, rs.len());
        assert(out@ =~= base + seq!['/'] + rel@);
    }
    if !has_dot {
        out.append(".hyp");
    } else {
        proof {
            let j = choose|j: int| 0 <= j < i && rs@[j] == '.';
            assert(rel@[j] == '.');
        }
    }
    proof {
        if !has_dot {
            assert(!rel@.contains('.'));
        }
        assert(out@ == joined_path_text(importer@, rel@));
    }
    path_key_of(&out)
}

/// The path `p` with attribute `a` is that of one of the first `upto`
/// uses made by the module at `importer`.
pub open spec fn from_use(p: Seq<char>, a: Attr, importer: Seq<char>, uses: Seq<Use>, upto: int) -> bool {
    exists|j: int| 0 <= j < upto && p == use_path_text(importer, uses[j].1@) && a == uses[j].0
}

/// The paths and attributes that the first `k` uses made by the module at
/// `importer` add to the modules already `found`: each used path not found
/// yet, in the order of its first use, with that use's attribute.
pub open spec fn new_entries(found: Seq<Seq<char>>, importer: Seq<char>, uses: Seq<Use>, k: nat) -> Seq<(Seq<char>, Attr)>
    decreases k,
{
    if k == 0 || k > uses.len() {
        Seq::empty()
    } else {
        let prev = new_entries(found, importer, uses, (k - 1) as nat);
        let p = use_path_text(importer, uses[k - 1].1@);
        if found.contains(p) || exists|j: int| 0 <= j < prev.len() && #[trigger] prev[j].0 == p {
            prev
        } else {
            prev.push((p, uses[k - 1].0))
        }
    }
}

/// The views of paths.
pub open spec fn path_views(paths: Seq<String>) -> Seq<Seq<char>> {
    Seq::new(paths.len(), |i: int| paths[i]@)
}

/// The modules found so far, in the order in which they are read: the
/// root first, then each module in the order its first use is met. Each
/// path is found once, whatever the number of modules that use it; the
/// modules before `read` have been handed out.
pub struct ModuleLoader {
    pub paths: Vec<String>,
    pub attrs: Vec<Attr>,
    pub read: usize,
}

impl ModuleLoader {
    /// The loader is consistent: one attribute per path, no path twice,
    /// and indexes fit in a `u32`.
    pub open spec fn wf(&self) -> bool {
        &&& self.paths@.len() == self.attrs@.len()
        &&& self.read <= self.paths@.len()
        &&& self.paths@.len() <= u32::MAX
        &&& forall|i: int, j: int|
            0 <= i < j < self.paths@.len() ==> #[trigger] self.paths@[i]@ != #[trigger] self.paths@[j]@
    }

    /// A loader that has found only the root module.
    pub fn new(root: String) -> (r: ModuleLoader)
        ensures
            r.wf(),
            path_views(r.paths@) == seq![path_key(root@)],
            r.attrs@ == seq![Attr::NoAttr],
            r.read == 0,
    {
        let mut paths: Vec<String> = Vec::new();
        let key = path_key_of(&root);
        let ghost v = key@;
        paths.push(key);
        let mut attrs: Vec<Attr> = Vec::new();
        attrs.push(Attr::NoAttr);
        let r = ModuleLoader { paths, attrs, read: 0 };
        assert(path_views(r.paths@) =~= seq![v]);
        r
    }

    /// The next module to read: its index, its attribute and its path.
    pub fn next_module(&mut self) -> (r: Option<(usize, Attr, String)>)
        requires
            old(self).wf(),
        ensures
            final(self).wf(),
            final(self).paths == old(self).paths,
            final(self).attrs == old(self).attrs,
            old(self).read < old(self).paths@.len() ==> r == Some(
                (old(self).read, old(self).attrs@[old(self).read as int], old(self).paths@[old(self).read as int]),
            ) && final(self).read == old(self).read + 1,
            old(self).read >= old(self).paths@.len() ==> r is None && final(self).read == old(self).read,
    {
        if self.read < self.paths.len() {
            let i = self.read;
            let r = (i, self.attrs[i], self.paths[i].clone());
            self.read = i + 1;
            Some(r)
        } else {
            None
        }
    }

    /// The index of the path `p`, if it has been found.
    fn find(&self, p: &String) -> (r: Option<usize>)
        ensures
            r matches Some(i) ==> i < self.paths@.len() && self.paths@[i as int]@ == p@,
            r is None ==> forall|i: int| 0 <= i < self.paths@.len() ==> #[trigger] self.paths@[i]@ != p@,
    {
        let mut i: usize = 0;
        while i < self.paths.len()
            invariant
                i <= self.paths@.len(),
                forall|j: int| 0 <= j < i ==> #[trigger] self.paths@[j]@ != p@,
            decreases self.paths@.len() - i,
        {
            if text_is(&self.paths[i], p.as_str()) {
                return Some(i);
            }
            i = i + 1;
        }
        None
    }

    /// Records the uses of the module at `importer`: each used path that
    /// was not found yet is added, with the use's attribute. Returns, for
    /// each use, the index of the module it names.
    pub fn add_uses(&mut self, importer: &String, uses: &Vec<Use>) -> (r: Vec<u32>)
        requires
            old(self).wf(),
            old(self).paths@.len() + uses@.len() <= u32::MAX,
        ensures
            final(self).wf(),
            final(self).read == old(self).read,
            final(self).paths@.len() >= old(self).paths@.len(),
            forall|i: int|
                0 <= i < old(self).paths@.len() ==> #[trigger] final(self).paths@[i] == old(self).paths@[i]
                    && final(self).attrs@[i] == old(self).attrs@[i],
            r@.len() == uses@.len(),
            ({
                let added = new_entries(path_views(old(self).paths@), importer@, uses@, uses@.len());
                &&& final(self).paths@.len() == old(self).paths@.len() + added.len()
                &&& forall|i: int|
                    0 <= i < added.len() ==> #[trigger] added[i] == (
                        final(self).paths@[old(self).paths@.len() + i]@,
                        final(self).attrs@[old(self).paths@.len() + i],
                    )
            }),
            forall|k: int|
                0 <= k < r@.len() ==> #[trigger] r@[k] < final(self).paths@.len()
                    && final(self).paths@[r@[k] as int]@ == use_path_text(importer@, uses@[k].1@),
            forall|i: int|
                old(self).paths@.len() <= i < final(self).paths@.len() ==> from_use(
                    #[trigger] final(self).paths@[i]@,
                    final(self).attrs@[i],
                    importer@,
                    uses@,
                    uses@.len() as int,
                ),
    {
        let mut r: Vec<u32> = Vec::new();
        let mut k: usize = 0;
        while k < uses.len()
            invariant
                k <= uses@.len(),
                self.wf(),
                self.read == old(self).read,
                self.paths@.len() <= old(self).paths@.len() + k,
                old(self).paths@.len() + uses@.len() <= u32::MAX,
                self.paths@.len() >= old(self).paths@.len(),
                forall|i: int|
                    0 <= i < old(self).paths@.len() ==> #[trigger] self.paths@[i] == old(self).paths@[i]
                        && self.attrs@[i] == old(self).attrs@[i],
                r@.len() == k,
                ({
                    let added = new_entries(path_views(old(self).paths@), importer@, uses@, k as nat);
                    &&& self.paths@.len() == old(self).paths@.len() + added.len()
                    &&& forall|i: int|
                        0 <= i < added.len() ==> #[trigger] added[i] == (
                            self.paths@[old(self).paths@.len() + i]@,
                            self.attrs@[old(self).paths@.len() + i],
                        )
                }),
                forall|j: int|
                    0 <= j < k ==> #[trigger] r@[j] < self.paths@.len() && self.paths@[r@[j] as int]@
                        == use_path_text(importer@, uses@[j].1@),
                forall|i: int|
                    old(self).paths@.len() <= i < self.paths@.len() ==> from_use(
                        #[trigger] self.paths@[i]@,
                        self.attrs@[i],
                        importer@,
                        uses@,
                        k as int,
                    ),
            decreases uses@.len() - k,
        {
            let p = use_path(importer, &uses[k].1);
            let ghost fv = path_views(old(self).paths@);
            let ghost added = new_entries(fv, importer@, uses@, k as nat);
            let ghost n0 = old(self).paths@.len();
            match self.find(&p) {
                Some(i) => {
                    r.push(i as u32);
                    proof {
                        if (i as int) < n0 {
                            assert(fv[i as int] == p@);
                            assert(fv.contains(p@));
                        } else {
                            let j = i - n0;
                            assert(added[j].0 == p@);
                        }
                        assert(new_entries(fv, importer@, uses@, (k + 1) as nat) == added);
                    }
                },
                None => {
                    let n = self.paths.len();
                    let ghost pv = p@;
                    let ghost old_paths = self.paths@;
                    let ghost old_attrs = self.attrs@;
                    self.paths.push(p);
                    self.attrs.push(uses[k].0);
                    r.push(n as u32);
                    proof {
                        assert(!fv.contains(pv)) by {
                            if fv.contains(pv) {
                                let q = choose|q: int| 0 <= q < fv.len() && fv[q] == pv;
                                assert(old_paths[q]@ == pv);
                            }
                        }
                        assert(!exists|j: int| 0 <= j < added.len() && #[trigger] added[j].0 == pv) by {
                            if exists|j: int| 0 <= j < added.len() && #[trigger] added[j].0 == pv {
                                let j = choose|j: int| 0 <= j < added.len() && #[trigger] added[j].0 == pv;
                                assert(old_paths[n0 + j]@ == pv);
                            }
                        }
                        let added2 = new_entries(fv, importer@, uses@, (k + 1) as nat);
                        assert(added2 == added.push((pv, uses@[k as int].0)));
                        assert forall|i: int| 0 <= i < added2.len() implies #[trigger] added2[i] == (
                            self.paths@[n0 + i]@,
                            self.attrs@[n0 + i],
                        ) by {
                            if i < added.len() {
                                assert(self.paths@[n0 + i] == old_paths[n0 + i]);
                                assert(self.attrs@[n0 + i] == old_attrs[n0 + i]);
                            }
                        }
                        assert forall|i: int| 0 <= i < old(self).paths@.len() implies #[trigger] self.paths@[i]
                            == old(self).paths@[i] && self.attrs@[i] == old(self).attrs@[i] by {
                            assert(self.paths@[i] == old_paths[i]);
                            assert(self.attrs@[i] == old_attrs[i]);
                        }
                        assert(self.paths@[n as int]@ == pv);
                        assert forall|i: int| old(self).paths@.len() <= i < self.paths@.len() implies from_use(
                            #[trigger] self.paths@[i]@,
                            self.attrs@[i],
                            importer@,
                            uses@,
                            k + 1,
                        ) by {
                            if i < n {
                                assert(self.paths@[i] == old_paths[i]);
                                assert(self.attrs@[i] == old_attrs[i]);
                                assert(from_use(old_paths[i]@, old_attrs[i], importer@, uses@, k as int));
                            } else {
                                assert(self.paths@[i]@ == use_path_text(importer@, uses@[k as int].1@));
                            }
                        }
                    }
                },
            }
            k = k + 1;
        }
        assert forall|i: int| old(self).paths@.len() <= i < self.paths@.len() implies exists|j: int|
            0 <= j < uses@.len() && #[trigger] self.paths@[i]@ == use_path_text(importer@, uses@[j].1@)
                && self.attrs@[i] == uses@[j].0 by {
            let j = choose|j: int|
                0 <= j < k && #[trigger] self.paths@[i]@ == use_path_text(importer@, uses@[j].1@)
                    && self.attrs@[i] == uses@[j].0;
        }
        r
    }
}

} // verus!
