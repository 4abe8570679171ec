//! Script caching and script file locations.

use vstd::prelude::*;

use crate::assoc::StringMap;
use crate::paths::{
    PartView, encode_parts, join, join_path, lemma_encode_injective, lemma_path_components_valid, path_components,
    path_key, valid_parts,
};
use crate::text::string_views;

verus! {

/// Cache statistics.
#[derive(Debug, Clone, Copy, PartialEq, Eq, Structural)]
pub struct CacheStats {
    /// Number of cached scripts.
    pub cached_scripts: usize,
    /// Lookups that found their script.
    pub hits: u64,
    /// Lookups that did not.
    pub misses: u64,
}

/// A counter after one more event; it wraps at the top, as an atomic
/// `fetch_add` does.
pub open spec fn bump(n: u64) -> u64 {
    if n == u64::MAX {
        0
    } else {
        (n + 1) as u64
    }
}

fn bumped(n: u64) -> (r: u64)
    ensures
        r == bump(n),
{
    if n == u64::MAX {
        0
    } else {
        n + 1
    }
}

/// Cache for compiled scripts, keyed by the components of their paths, as
/// a map keyed by `PathBuf` compares them: `a/b.rhai`, `a//b.rhai` and
/// `a/./b.rhai` are one entry. It counts the lookups that hit and that
/// missed.
pub struct ScriptCache<S> {
    /// By path key: the path as first inserted, and its script.
    scripts: StringMap<(String, S)>,
    hits: u64,
    misses: u64,
}

/// The path key of every path stored under a key is that key.
pub open spec fn keys_match<S>(m: Map<Seq<char>, (String, S)>) -> bool {
    forall|k: Seq<char>| #[trigger] m.dom().contains(k) ==> k == encode_parts(path_components(m[k].0@))
}

/// The entries of a keyed map, by the components of their paths.
pub open spec fn entries_of<S>(m: Map<Seq<char>, (String, S)>) -> Map<Seq<PartView>, S> {
    Map::new(
        |p: Seq<PartView>| valid_parts(p) && m.dom().contains(encode_parts(p)),
        |p: Seq<PartView>| m[encode_parts(p)].1,
    )
}

proof fn lemma_entries_of<S>(m: Map<Seq<char>, (String, S)>, p: Seq<PartView>)
    requires
        valid_parts(p),
    ensures
        entries_of(m).dom().contains(p) <==> m.dom().contains(encode_parts(p)),
        entries_of(m).dom().contains(p) ==> entries_of(m)[p] == m[encode_parts(p)].1,
{
}

/// A keyed map after storing `v` under the key of `path` and dropping
/// nothing else has the entries before with `v` for the components of
/// `path`.
proof fn lemma_entries_insert<S>(m: Map<Seq<char>, (String, S)>, path: Seq<char>, stored: String, v: S)
    ensures
        entries_of(m.insert(encode_parts(path_components(path)), (stored, v))) == entries_of(m).insert(
            path_components(path),
            v,
        ),
{
    let pc = path_components(path);
    let key = encode_parts(pc);
    lemma_path_components_valid(path);
    let m2 = m.insert(key, (stored, v));
    assert forall|q: Seq<PartView>| #[trigger] entries_of(m2).dom().contains(q) <==> entries_of(m).insert(
        pc,
        v,
    ).dom().contains(q) by {
        if valid_parts(q) && encode_parts(q) == key {
            lemma_encode_injective(q, pc);
        }
    }
    assert forall|q: Seq<PartView>| #[trigger] entries_of(m2).dom().contains(q) implies entries_of(m2)[q]
        == entries_of(m).insert(pc, v)[q] by {
        if encode_parts(q) == key {
            lemma_encode_injective(q, pc);
        }
    }
    assert(entries_of(m2) =~= entries_of(m).insert(pc, v));
}

proof fn lemma_entries_remove<S>(m: Map<Seq<char>, (String, S)>, path: Seq<char>)
    ensures
        entries_of(m.remove(encode_parts(path_components(path)))) == entries_of(m).remove(path_components(path)),
{
    let pc = path_components(path);
    let key = encode_parts(pc);
    lemma_path_components_valid(path);
    let m2 = m.remove(key);
    assert forall|q: Seq<PartView>| #[trigger] entries_of(m2).dom().contains(q) <==> entries_of(m).remove(
        pc,
    ).dom().contains(q) by {
        if valid_parts(q) && encode_parts(q) == key {
            lemma_encode_injective(q, pc);
        }
    }
    assert(entries_of(m2) =~= entries_of(m).remove(pc));
}

impl<S> ScriptCache<S> {
    /// Every entry is stored under the key of its path.
    #[verifier::type_invariant]
    closed spec fn keys_match_paths(&self) -> bool {
        keys_match(self.scripts@)
    }

    /// The cached scripts, by the components of their paths.
    pub closed spec fn entries(&self) -> Map<Seq<PartView>, S> {
        entries_of(self.scripts@)
    }

    /// The cached paths, each as first inserted, in the order first
    /// inserted.
    pub closed spec fn key_order(&self) -> Seq<Seq<char>> {
        self.scripts.value_order().map_values(|e: (String, S)| e.0@)
    }

    /// Lookups that found their script.
    pub closed spec fn hit_count(&self) -> u64 {
        self.hits
    }

    /// Lookups that did not.
    pub closed spec fn miss_count(&self) -> u64 {
        self.misses
    }

    /// Create a new empty cache.
    pub fn new() -> (c: Self)
        ensures
            c.entries() == Map::<Seq<PartView>, S>::empty(),
            c.hit_count() == 0,
            c.miss_count() == 0,
    {
        let c = ScriptCache { scripts: StringMap::new(), hits: 0, misses: 0 };
        assert(c.entries() =~= Map::<Seq<PartView>, S>::empty());
        c
    }

    /// Get a cached script, counting the lookup as a hit or a miss.
    pub fn get(&mut self, path: &str) -> (r: Option<&S>)
        ensures
            final(self).entries() == old(self).entries(),
            r == (if old(self).entries().dom().contains(path_components(path@)) {
                Some(&old(self).entries()[path_components(path@)])
            } else {
                None::<&S>
            }),
            old(self).entries().dom().contains(path_components(path@)) ==> final(self).hit_count() == bump(
                old(self).hit_count(),
            ) && final(self).miss_count() == old(self).miss_count(),
            !old(self).entries().dom().contains(path_components(path@)) ==> final(self).miss_count() == bump(
                old(self).miss_count(),
            ) && final(self).hit_count() == old(self).hit_count(),
    {
        proof {
            use_type_invariant(&*self);
        }
        let key = path_key(path);
        proof {
            lemma_path_components_valid(path@);
            lemma_entries_of(self.scripts@, path_components(path@));
        }
        if self.scripts.contains_key(key.as_str()) {
            self.hits = bumped(self.hits);
        } else {
            self.misses = bumped(self.misses);
        }
        match self.scripts.get(key.as_str()) {
            Some(e) => Some(&e.1),
            None => None,
        }
    }

    /// Insert a script into the cache, replacing any script cached for a
    /// path with the same components. The path first inserted is kept.
    pub fn insert(&mut self, path: String, script: S)
        ensures
            final(self).entries() == old(self).entries().insert(path_components(path@), script),
            final(self).hit_count() == old(self).hit_count(),
            final(self).miss_count() == old(self).miss_count(),
    {
        proof {
            use_type_invariant(&*self);
        }
        let key = path_key(path.as_str());
        let ghost old_map = self.scripts@;
        let ghost p = path@;
        let mut scripts: StringMap<(String, S)> = StringMap::new();
        std::mem::swap(&mut scripts, &mut self.scripts);
        let stored = match scripts.get(key.as_str()) {
            Some(e) => e.0.clone(),
            None => path,
        };
        proof {
            lemma_entries_insert(old_map, p, stored, script);
        }
        scripts.insert(key, (stored, script));
        self.scripts = scripts;
    }

    /// Remove the script cached for a path with the same components,
    /// returning it.
    pub fn remove(&mut self, path: &str) -> (r: Option<S>)
        ensures
            final(self).entries() == old(self).entries().remove(path_components(path@)),
            r == (if old(self).entries().dom().contains(path_components(path@)) {
                Some(old(self).entries()[path_components(path@)])
            } else {
                None::<S>
            }),
            final(self).hit_count() == old(self).hit_count(),
            final(self).miss_count() == old(self).miss_count(),
    {
        proof {
            use_type_invariant(&*self);
        }
        let key = path_key(path);
        let ghost old_map = self.scripts@;
        proof {
            lemma_path_components_valid(path@);
            lemma_entries_of(old_map, path_components(path@));
            lemma_entries_remove(old_map, path@);
        }
        let mut scripts: StringMap<(String, S)> = StringMap::new();
        std::mem::swap(&mut scripts, &mut self.scripts);
        let r = scripts.remove(key.as_str());
        self.scripts = scripts;
        match r {
            Some(e) => Some(e.1),
            None => None,
        }
    }

    /// Clear all cached scripts. The counters stay.
    pub fn clear(&mut self)
        ensures
            final(self).entries() == Map::<Seq<PartView>, S>::empty(),
            final(self).hit_count() == old(self).hit_count(),
            final(self).miss_count() == old(self).miss_count(),
    {
        self.scripts = StringMap::new();
        assert(self.entries() =~= Map::<Seq<PartView>, S>::empty());
    }

    /// Get cache statistics.
    pub fn stats(&self) -> (s: CacheStats)
        ensures
            s.cached_scripts == self.entries().len(),
            s.hits == self.hit_count(),
            s.misses == self.miss_count(),
    {
        proof {
            use_type_invariant(self);
        }
        let n = self.scripts.len();
        proof {
            let m = self.scripts@;
            let f = |k: Seq<char>| path_components(m[k].0@);
            assert forall|k1: Seq<char>, k2: Seq<char>|
                m.dom().contains(k1) && m.dom().contains(k2) && #[trigger] f(k1) == #[trigger] f(k2) implies k1
                == k2 by {
                assert(k1 == encode_parts(path_components(m[k1].0@)));
                assert(k2 == encode_parts(path_components(m[k2].0@)));
            }
            assert forall|p: Seq<PartView>| #[trigger] m.dom().map(f).contains(p) <==> self.entries().dom().contains(
                p,
            ) by {
                if self.entries().dom().contains(p) {
                    let k = encode_parts(p);
                    lemma_path_components_valid(m[k].0@);
                    lemma_encode_injective(f(k), p);
                    assert(m.dom().contains(k) && f(k) == p);
                }
                if m.dom().map(f).contains(p) {
                    let k = choose|k: Seq<char>| m.dom().contains(k) && f(k) == p;
                    lemma_path_components_valid(m[k].0@);
                }
            }
            assert(m.dom().map(f) =~= self.entries().dom());
            vstd::set_lib::lemma_map_size(m.dom(), self.entries().dom(), f);
        }
        CacheStats { cached_scripts: n, hits: self.hits, misses: self.misses }
    }

    /// Evict the script cached for `path` if `is_stale` says it is stale.
    /// Only that entry is looked at; the others stay as they are. Returns
    /// whether it was present and stale, and so removed.
    pub fn evict_if_stale<F: Fn(&S) -> bool>(&mut self, path: &str, is_stale: F) -> (r: bool)
        requires
            forall|s: &S| #[trigger] is_stale.requires((s,)),
        ensures
            r ==> old(self).entries().dom().contains(path_components(path@)) && is_stale.ensures(
                (&old(self).entries()[path_components(path@)],),
                true,
            ),
            old(self).entries().dom().contains(path_components(path@)) && !r ==> is_stale.ensures(
                (&old(self).entries()[path_components(path@)],),
                false,
            ),
            final(self).entries() == (if r {
                old(self).entries().remove(path_components(path@))
            } else {
                old(self).entries()
            }),
            final(self).hit_count() == old(self).hit_count(),
            final(self).miss_count() == old(self).miss_count(),
    {
        let key = path_key(path);
        proof {
            lemma_path_components_valid(path@);
            lemma_entries_of(self.scripts@, path_components(path@));
        }
        let stale = match self.scripts.get(key.as_str()) {
            Some(e) => is_stale(&e.1),
            None => false,
        };
        if stale {
            self.remove(path);
        }
        stale
    }

    /// Remove every script that `is_stale` says is stale, returning their
    /// paths, each as first inserted and each once, in the order first
    /// inserted.
    pub fn evict_stale<F: Fn(&S) -> bool>(&mut self, is_stale: F) -> (r: Vec<String>)
        requires
            forall|s: &S| #[trigger] is_stale.requires((s,)),
        ensures
            forall|i: int|
                #![trigger r@[i]]
                0 <= i < r@.len() ==> old(self).entries().dom().contains(path_components(r@[i]@)) && is_stale.ensures(
                    (&old(self).entries()[path_components(r@[i]@)],),
                    true,
                ),
            forall|p: Seq<PartView>| #[trigger] old(self).entries().dom().contains(p) ==> (final(self).entries().dom().contains(p) || exists|i: int| 0 <= i < r@.len() && path_components(r@[i]@) == p),
            forall|p: Seq<PartView>| #[trigger] final(self).entries().dom().contains(p) ==> old(self).entries().dom().contains(p) && final(self).entries()[p] == old(self).entries()[p] && is_stale.ensures(
                (&old(self).entries()[p],),
                false,
            ),
            forall|i: int|
                #![trigger r@[i]]
                0 <= i < r@.len() ==> !final(self).entries().dom().contains(path_components(r@[i]@)),
            forall|i: int, j: int|
                0 <= i < j < r@.len() ==> path_components(r@[i]@) != path_components(r@[j]@),
            exists|flags: Seq<bool>|
                flags.len() == old(self).key_order().len() && #[trigger] selected(old(self).key_order(), flags)
                    == string_views(r@),
            final(self).hit_count() == old(self).hit_count(),
            final(self).miss_count() == old(self).miss_count(),
    {
        proof {
            use_type_invariant(&*self);
        }
        let n = self.scripts.len();
        let ghost old_map = self.scripts@;
        let ghost korder = self.scripts.key_order();
        let ghost vorder = self.scripts.value_order();
        let ghost porder = self.key_order();
        assert(porder.len() == n);
        assert forall|m: int| 0 <= m < n implies #[trigger] korder[m] == encode_parts(path_components(porder[m]))
            && old_map.dom().contains(korder[m]) && old_map[korder[m]] == vorder[m] by {
            assert(porder[m] == vorder[m].0@);
            assert(old_map.dom().contains(korder[m]));
            assert(old_map[korder[m]] == vorder[m]);
            assert(keys_match(old_map));
        }
        assert(forall|a: int, b: int| 0 <= a < b < korder.len() ==> korder[a] != korder[b]);
        let mut stale_keys: Vec<String> = Vec::new();
        let mut stale: Vec<String> = Vec::new();
        let mut flags: Vec<bool> = Vec::new();
        let mut i: usize = 0;
        assert(string_views(stale_keys@) =~= selected(korder, flags@));
        assert(string_views(stale@) =~= selected(porder, flags@));
        while i < n
            invariant
                n == korder.len(),
                n == porder.len(),
                self.scripts@ == old_map,
                self.scripts.key_order() == korder,
                self.scripts.value_order() == vorder,
                forall|m: int| 0 <= m < n ==> porder[m] == vorder[m].0@,
                forall|s: &S| #[trigger] is_stale.requires((s,)),
                i <= n,
                flags@.len() == i,
                forall|j: int| 0 <= j < i ==> #[trigger] is_stale.ensures((&old_map[korder[j]].1,), flags@[j]),
                string_views(stale_keys@) == selected(korder, flags@),
                string_views(stale@) == selected(porder, flags@),
            decreases n - i,
        {
            let key = self.scripts.key_at(i);
            let entry = self.scripts.value_at(i);
            let flag = is_stale(&entry.1);
            let ghost keys_before = stale_keys@;
            let ghost stale_before = stale@;
            let ghost flags_before = flags@;
            flags.push(flag);
            if flag {
                stale_keys.push(key.clone());
                stale.push(entry.0.clone());
            }
            proof {
                assert(flags@.drop_last() =~= flags_before);
                assert forall|j: int| 0 <= j < i + 1 implies #[trigger] is_stale.ensures(
                    (&old_map[korder[j]].1,),
                    flags@[j],
                ) by {
                    if j < i {
                        assert(flags@[j] == flags_before[j]);
                    }
                }
                if flag {
                    assert(string_views(stale_keys@) =~= string_views(keys_before).push(korder[i as int]));
                    assert(string_views(stale@) =~= string_views(stale_before).push(porder[i as int]));
                }
            }
            i = i + 1;
        }
        proof {
            lemma_selected(korder, flags@);
            lemma_selected_distinct(korder, flags@);
            lemma_selected_related(korder, porder, flags@);
        }
        let mut scripts: StringMap<(String, S)> = StringMap::new();
        std::mem::swap(&mut scripts, &mut self.scripts);
        let mut j: usize = 0;
        while j < stale_keys.len()
            invariant
                j <= stale_keys@.len(),
                forall|k: Seq<char>| #[trigger] scripts@.dom().contains(k) <==> (old_map.dom().contains(k)
                    && forall|t: int| 0 <= t < j ==> stale_keys@[t]@ != k),
                forall|k: Seq<char>| #[trigger] scripts@.dom().contains(k) ==> scripts@[k] == old_map[k],
            decreases stale_keys@.len() - j,
        {
            scripts.remove(stale_keys[j].as_str());
            j = j + 1;
        }
        proof {
            assert(keys_match(old_map));
            assert forall|k: Seq<char>| #[trigger] scripts@.dom().contains(k) implies k == encode_parts(
                path_components(scripts@[k].0@),
            ) by {
                assert(old_map.dom().contains(k));
            }
        }
        self.scripts = scripts;
        proof {
            let fin = self.scripts@;
            let ksel = selected(korder, flags@);
            let psel = selected(porder, flags@);
            assert(ksel == string_views(stale_keys@));
            assert(psel == string_views(stale@));
            // Each stale key was cached, and stale.
            assert forall|t: int| 0 <= t < stale_keys@.len() implies #[trigger] old_map.dom().contains(
                stale_keys@[t]@,
            ) && is_stale.ensures((&old_map[stale_keys@[t]@].1,), true) by {
                assert(ksel[t] == stale_keys@[t]@);
                assert(ksel.contains(stale_keys@[t]@));
                let m = choose|m: int| 0 <= m < flags@.len() && flags@[m] && korder[m] == stale_keys@[t]@;
                assert(is_stale.ensures((&old_map[korder[m]].1,), flags@[m]));
            }
            // Each key left was not stale.
            assert forall|k: Seq<char>| #[trigger] fin.dom().contains(k) implies is_stale.ensures(
                (&old_map[k].1,),
                false,
            ) by {
                let m = choose|m: int| 0 <= m < korder.len() && korder[m] == k;
                if flags@[m] {
                    assert(ksel.contains(k));
                    let t = choose|t: int| 0 <= t < ksel.len() && ksel[t] == k;
                    assert(stale_keys@[t]@ == k);
                }
                assert(is_stale.ensures((&old_map[korder[m]].1,), flags@[m]));
            }
            assert forall|t: int| 0 <= t < stale@.len() implies #[trigger] stale_keys@[t]@ == encode_parts(
                path_components(stale@[t]@),
            ) by {
                assert(ksel[t] == stale_keys@[t]@);
                assert(psel[t] == stale@[t]@);
            }
            assert forall|a: int| 0 <= a < stale@.len() implies old(self).entries().dom().contains(
                path_components(#[trigger] stale@[a]@),
            ) && is_stale.ensures((&old(self).entries()[path_components(stale@[a]@)],), true) by {
                lemma_path_components_valid(stale@[a]@);
                lemma_entries_of(old_map, path_components(stale@[a]@));
                assert(stale_keys@[a]@ == encode_parts(path_components(stale@[a]@)));
            }
            assert forall|a: int| 0 <= a < stale@.len() implies !self.entries().dom().contains(
                path_components(#[trigger] stale@[a]@),
            ) by {
                lemma_path_components_valid(stale@[a]@);
                lemma_entries_of(fin, path_components(stale@[a]@));
                assert(stale_keys@[a]@ == encode_parts(path_components(stale@[a]@)));
            }
            assert forall|a: int, b: int| 0 <= a < b < stale@.len() implies path_components(stale@[a]@)
                != path_components(stale@[b]@) by {
                assert(stale_keys@[a]@ == encode_parts(path_components(stale@[a]@)));
                assert(stale_keys@[b]@ == encode_parts(path_components(stale@[b]@)));
                assert(ksel[a] == stale_keys@[a]@);
                assert(ksel[b] == stale_keys@[b]@);
            }
            assert forall|p: Seq<PartView>| #[trigger] old(self).entries().dom().contains(p) implies (
            self.entries().dom().contains(p) || exists|a: int| 0 <= a < stale@.len() && path_components(stale@[a]@)
                == p) by {
                lemma_entries_of(old_map, p);
                lemma_entries_of(fin, p);
                if !fin.dom().contains(encode_parts(p)) {
                    let t = choose|t: int| 0 <= t < stale_keys@.len() && !(stale_keys@[t]@ != encode_parts(p));
                    assert(stale_keys@[t]@ == encode_parts(path_components(stale@[t]@)));
                    lemma_path_components_valid(stale@[t]@);
                    lemma_encode_injective(p, path_components(stale@[t]@));
                }
            }
            assert forall|p: Seq<PartView>| #[trigger] self.entries().dom().contains(p) implies old(self).entries().dom().contains(p) && self.entries()[p] == old(self).entries()[p] && is_stale.ensures(
                (&old(self).entries()[p],),
                false,
            ) by {
                lemma_entries_of(old_map, p);
                lemma_entries_of(fin, p);
            }
            assert(flags@.len() == old(self).key_order().len() && selected(old(self).key_order(), flags@)
                == string_views(stale@));
        }
        stale
    }
}

/// The keys whose flag is set, in order.
pub open spec fn selected(order: Seq<Seq<char>>, flags: Seq<bool>) -> Seq<Seq<char>>
    decreases flags.len(),
{
    if flags.len() == 0 || order.len() < flags.len() {
        Seq::empty()
    } else {
        let r = selected(order, flags.drop_last());
        if flags.last() {
            r.push(order[flags.len() - 1])
        } else {
            r
        }
    }
}

proof fn lemma_selected(order: Seq<Seq<char>>, flags: Seq<bool>)
    requires
        flags.len() <= order.len(),
    ensures
        forall|x: Seq<char>| #[trigger] selected(order, flags).contains(x) <==> exists|m: int|
            0 <= m < flags.len() && flags[m] && order[m] == x,
    decreases flags.len(),
{
    if flags.len() > 0 {
        let init = flags.drop_last();
        lemma_selected(order, init);
        assert forall|x: Seq<char>| #[trigger] selected(order, flags).contains(x) <==> exists|m: int|
            0 <= m < flags.len() && flags[m] && order[m] == x by {
            let r = selected(order, init);
            if selected(order, flags).contains(x) {
                let t = choose|t: int| 0 <= t < selected(order, flags).len() && selected(order, flags)[t] == x;
                if flags.last() && t == r.len() {
                    assert(flags[flags.len() - 1] && order[flags.len() - 1] == x);
                } else {
                    assert(r[t] == x);
                    assert(r.contains(x));
                    let m = choose|m: int| 0 <= m < init.len() && init[m] && order[m] == x;
                    assert(flags[m]);
                }
            }
            if exists|m: int| 0 <= m < flags.len() && flags[m] && order[m] == x {
                let m = choose|m: int| 0 <= m < flags.len() && flags[m] && order[m] == x;
                if m == flags.len() - 1 {
                    assert(selected(order, flags)[r.len() as int] == x);
                } else {
                    assert(init[m]);
                    assert(r.contains(x));
                    let t = choose|t: int| 0 <= t < r.len() && r[t] == x;
                    assert(selected(order, flags)[t] == x);
                }
            }
        }
    }
}

/// Selecting from keys that are all different gives keys that are all
/// different.
proof fn lemma_selected_distinct(order: Seq<Seq<char>>, flags: Seq<bool>)
    requires
        flags.len() <= order.len(),
        forall|i: int, j: int| 0 <= i < j < order.len() ==> order[i] != order[j],
    ensures
        forall|i: int, j: int|
            0 <= i < j < selected(order, flags).len() ==> selected(order, flags)[i] != selected(order, flags)[j],
    decreases flags.len(),
{
    if flags.len() > 0 {
        let init = flags.drop_last();
        lemma_selected_distinct(order, init);
        lemma_selected(order, init);
        let r = selected(order, init);
        if flags.last() {
            let last = order[flags.len() - 1];
            assert forall|i: int| 0 <= i < r.len() implies r[i] != last by {
                assert(r.contains(r[i]));
                let m = choose|m: int| 0 <= m < init.len() && init[m] && order[m] == r[i];
            }
        }
    }
}

/// Selecting with the same flags from two sequences that correspond
/// position by position gives sequences that correspond position by
/// position.
proof fn lemma_selected_related(keys: Seq<Seq<char>>, paths: Seq<Seq<char>>, flags: Seq<bool>)
    requires
        keys.len() == paths.len(),
        flags.len() <= keys.len(),
        forall|m: int| 0 <= m < keys.len() ==> #[trigger] keys[m] == encode_parts(path_components(paths[m])),
    ensures
        selected(keys, flags).len() == selected(paths, flags).len(),
        forall|t: int|
            0 <= t < selected(keys, flags).len() ==> #[trigger] selected(keys, flags)[t] == encode_parts(
                path_components(selected(paths, flags)[t]),
            ),
    decreases flags.len(),
{
    if flags.len() > 0 {
        lemma_selected_related(keys, paths, flags.drop_last());
        let m = flags.len() - 1;
        assert(keys[m] == encode_parts(path_components(paths[m])));
    }
}

/// Script loader for file locations: paths are resolved against a base
/// directory.
pub struct ScriptLoader {
    base_dir: String,
}

impl ScriptLoader {
    /// The base directory.
    pub closed spec fn base_spec(&self) -> Seq<char> {
        self.base_dir@
    }

    /// Create a new script loader.
    pub fn new(base_dir: &str) -> (l: Self)
        ensures
            l.base_spec() == base_dir@,
    {
        ScriptLoader { base_dir: base_dir.to_owned() }
    }

    /// Resolve a script path relative to the base directory: an absolute
    /// path stays as it is, any other is joined to the base directory.
    pub fn resolve_path(&self, path: &str) -> (r: String)
        ensures
            r@ == join_path(self.base_spec(), path@),
    {
        join(self.base_dir.as_str(), path)
    }

    /// Get the base directory.
    pub fn base_dir(&self) -> (r: &str)
        ensures
            r@ == self.base_spec(),
    {
        self.base_dir.as_str()
    }
}

} // verus!
