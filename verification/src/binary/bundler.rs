use vstd::prelude::*;
use std::collections::HashMap;
use crate::hyp;
use super::BundledModules;

verus! {

broadcast use vstd::std_specs::hash::group_hash_axioms;

pub struct Bundler;

/// A byte that can stand as it is inside a JavaScript string literal: tab,
/// or a printable ASCII character other than `"` and `\`.
pub open spec fn spec_safe_for_js(b: u8) -> bool {
    b == 9 || (32 <= b <= 33) || (35 <= b <= 91) || (93 <= b <= 126)
}

pub fn safe_for_js(b: u8) -> (r: bool)
    ensures
        r == spec_safe_for_js(b),
{
    b == 9 || (b >= 32 && b <= 33) || (b >= 35 && b <= 91) || (b >= 93 && b <= 126)
}

/// Every byte of `s` is safe for JavaScript.
pub open spec fn all_safe(s: Seq<u8>) -> bool {
    forall|i: int| 0 <= i < s.len() ==> spec_safe_for_js(#[trigger] s[i])
}

/// The bundle of the binary modules among `mods` (taken in order): the two
/// buffers and the offsets map.
pub open spec fn spec_bundle(mods: Seq<hyp::ModuleInfo>) -> (Seq<u8>, Seq<u8>, Map<u32, (bool, usize)>)
    decreases mods.len(),
{
    if mods.len() == 0 {
        (Seq::empty(), Seq::empty(), Map::empty())
    } else {
        let (js, b64, offs) = spec_bundle(mods.drop_last());
        let mi = mods.last();
        let i = (mods.len() - 1) as u32;
        if mi.language == hyp::Language::Binary {
            if all_safe(mi.src@) {
                (js + mi.src@, b64, offs.insert(i, (true, js.len() as usize)))
            } else {
                (js, b64 + mi.src@, offs.insert(i, (false, b64.len() as usize)))
            }
        } else {
            (js, b64, offs)
        }
    }
}

impl Bundler {
    /// Collects the sources of the binary modules: a source made only of
    /// bytes safe for JavaScript goes to the first buffer, any other to the
    /// Base64 buffer, and each module's index is mapped to its place.
    pub fn bundle(module_infos: &mut Vec<hyp::ModuleInfo>) -> (r: BundledModules)
        requires
            old(module_infos)@.len() <= u32::MAX as nat + 1,
            spec_bundle(old(module_infos)@).0.len() <= usize::MAX,
            spec_bundle(old(module_infos)@).1.len() <= usize::MAX,
        ensures
            final(module_infos)@ == old(module_infos)@,
            r.js_safe@ == spec_bundle(old(module_infos)@).0,
            r.base64@ == spec_bundle(old(module_infos)@).1,
            r.offsets@ == spec_bundle(old(module_infos)@).2,
    {
        let mut res = BundledModules { js_safe: Vec::new(), base64: Vec::new(), offsets: HashMap::new() };
        let n = module_infos.len();
        let mut i: usize = 0;
        while i < n
            invariant
                n == module_infos@.len(),
                i <= n,
                n <= u32::MAX as nat + 1,
                module_infos@ == old(module_infos)@,
                spec_bundle(module_infos@).0.len() <= usize::MAX,
                spec_bundle(module_infos@).1.len() <= usize::MAX,
                (res.js_safe@, res.base64@, res.offsets@) == spec_bundle(module_infos@.take(i as int)),
            decreases n - i,
        {
            proof {
                assert(module_infos@.take(i as int + 1).drop_last() =~= module_infos@.take(i as int));
                lemma_bundle_prefix_len(module_infos@, i as int + 1);
            }
            let mi = &module_infos[i];
            if mi.language == hyp::Language::Binary {
                let mut all = true;
                let mut j: usize = 0;
                while j < mi.src.len()
                    invariant
                        j <= mi.src@.len(),
                        all == all_safe(mi.src@.take(j as int)),
                    decreases mi.src@.len() - j,
                {
                    let ghost pre = mi.src@.take(j as int);
                    let ghost post = mi.src@.take(j as int + 1);
                    assert(post =~= pre.push(mi.src@[j as int]));
                    assert(all_safe(post) == (all_safe(pre) && spec_safe_for_js(mi.src@[j as int]))) by {
                        if all_safe(post) {
                            assert(spec_safe_for_js(post[j as int]));
                            assert forall|t: int| 0 <= t < pre.len() implies spec_safe_for_js(#[trigger] pre[t]) by {
                                assert(post[t] == pre[t]);
                            }
                        }
                    }
                    if !safe_for_js(mi.src[j]) {
                        all = false;
                    }
                    j = j + 1;
                }
                assert(mi.src@.take(j as int) =~= mi.src@);
                if all {
                    let offset = res.js_safe.len();
                    res.js_safe.extend_from_slice(mi.src.as_slice());
                    res.offsets.insert(i as u32, (true, offset));
                } else {
                    let offset = res.base64.len();
                    res.base64.extend_from_slice(mi.src.as_slice());
                    res.offsets.insert(i as u32, (false, offset));
                }
            }
            i = i + 1;
        }
        assert(module_infos@.take(n as int) =~= module_infos@);
        res
    }
}

proof fn lemma_bundle_prefix_len(mods: Seq<hyp::ModuleInfo>, k: int)
    requires
        0 <= k <= mods.len(),
    ensures
        spec_bundle(mods.take(k)).0.len() <= spec_bundle(mods).0.len(),
        spec_bundle(mods.take(k)).1.len() <= spec_bundle(mods).1.len(),
    decreases mods.len(),
{
    if k < mods.len() {
        assert(mods.drop_last().take(k) =~= mods.take(k));
        lemma_bundle_prefix_len(mods.drop_last(), k);
    } else {
        assert(mods.take(k) =~= mods);
    }
}

/// Where module `i` of `mods` lies in the bundle: a binary module's bytes
/// are found at its recorded offset in the buffer it was put in (the first
/// only when all its bytes are safe for JavaScript); a module of another
/// language has no offset.
pub open spec fn placed(mods: Seq<hyp::ModuleInfo>, i: int) -> bool {
    let (js, b64, offs) = spec_bundle(mods);
    let src = mods[i].src@;
    if mods[i].language == hyp::Language::Binary {
        &&& offs.contains_key(i as u32)
        &&& {
            let (safe, o) = offs[i as u32];
            if safe {
                all_safe(src) && o + src.len() <= js.len() && js.subrange(o as int, o + src.len()) == src
            } else {
                o + src.len() <= b64.len() && b64.subrange(o as int, o + src.len()) == src
            }
        }
    } else {
        !offs.contains_key(i as u32)
    }
}

/// The offsets are recorded only for modules of `mods`.
proof fn lemma_bundle_keys(mods: Seq<hyp::ModuleInfo>)
    requires
        mods.len() <= u32::MAX as nat + 1,
    ensures
        forall|k: u32| #[trigger] spec_bundle(mods).2.contains_key(k) ==> k < mods.len(),
    decreases mods.len(),
{
    if mods.len() > 0 {
        lemma_bundle_keys(mods.drop_last());
        let last = (mods.len() - 1) as u32;
        assert(last as int == mods.len() - 1);
        assert forall|k: u32| #[trigger] spec_bundle(mods).2.contains_key(k) implies k < mods.len() by {
            if k != last {
                assert(spec_bundle(mods.drop_last()).2.contains_key(k));
            }
        }
    }
}

/// Every module is placed in the bundle of the modules (see `placed`):
/// the offsets find each binary module's bytes again.
pub proof fn law_bundle_offsets(mods: Seq<hyp::ModuleInfo>, i: int)
    requires
        mods.len() <= u32::MAX as nat + 1,
        spec_bundle(mods).0.len() <= usize::MAX,
        spec_bundle(mods).1.len() <= usize::MAX,
        0 <= i < mods.len(),
    ensures
        placed(mods, i),
    decreases mods.len(),
{
    let n = mods.len();
    let prev = mods.drop_last();
    lemma_bundle_prefix_len(mods, n - 1);
    assert(mods.take(n - 1) =~= prev);
    lemma_bundle_keys(prev);
    let (js0, b640, offs0) = spec_bundle(prev);
    if i < n - 1 {
        law_bundle_offsets(prev, i);
        assert(prev[i] == mods[i]);
        assert((i as u32) != ((n - 1) as u32));
        let (js, b64, offs) = spec_bundle(mods);
        if mods[i].language == hyp::Language::Binary {
            let (safe, o) = offs0[i as u32];
            let src = mods[i].src@;
            assert(offs[i as u32] == offs0[i as u32]);
            if safe {
                assert(js.subrange(o as int, o + src.len()) =~= js0.subrange(o as int, o + src.len()));
            } else {
                assert(b64.subrange(o as int, o + src.len()) =~= b640.subrange(o as int, o + src.len()));
            }
        }
    } else {
        let (js, b64, offs) = spec_bundle(mods);
        let src = mods[i].src@;
        assert(mods.last() == mods[i]);
        if mods[i].language == hyp::Language::Binary {
            if all_safe(src) {
                assert(offs == offs0.insert(i as u32, (true, js0.len() as usize)));
                assert(js == js0 + src);
                assert(js.subrange(js0.len() as int, (js0.len() + src.len()) as int) =~= src);
            } else {
                assert(offs == offs0.insert(i as u32, (false, b640.len() as usize)));
                assert(b64 == b640 + src);
                assert(b64.subrange(b640.len() as int, (b640.len() + src.len()) as int) =~= src);
            }
        }
    }
}

} // verus!
