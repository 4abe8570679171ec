//! Hot reload: which directories to watch, and when the scripts changed in a
//! burst of changes are reported.

use std::sync::Arc;
use vstd::prelude::*;
use vstd::string::*;

use crate::handler::share;
use crate::paths::{has_extension, path_has_extension};
use crate::text::{copy_strings, str_eq, string_views};

verus! {

/// File watcher configuration for hot-reloading scripts during development.
pub struct ScriptWatcher<E> {
    engine: Arc<E>,
    watch_dirs: Vec<String>,
    debounce_ms: u64,
}

impl<E> ScriptWatcher<E> {
    /// The engine whose cache changes invalidate.
    pub closed spec fn engine_spec(&self) -> Arc<E> {
        self.engine
    }

    /// The watched directories, in the order added.
    pub closed spec fn dirs_spec(&self) -> Seq<Seq<char>> {
        self.watch_dirs@.map_values(|d: String| d@)
    }

    /// The quiet period, in milliseconds.
    pub closed spec fn debounce_spec(&self) -> u64 {
        self.debounce_ms
    }

    /// Create a new script watcher: no directories, a 100 ms quiet period.
    pub fn new(engine: Arc<E>) -> (w: Self)
        ensures
            w.engine_spec() == engine,
            w.dirs_spec() == Seq::<Seq<char>>::empty(),
            w.debounce_spec() == 100,
    {
        let w = ScriptWatcher { engine, watch_dirs: Vec::new(), debounce_ms: 100 };
        assert(w.dirs_spec() =~= Seq::<Seq<char>>::empty());
        w
    }

    /// Add a directory to watch.
    pub fn watch(self, dir: &str) -> (w: Self)
        ensures
            w.engine_spec() == self.engine_spec(),
            w.dirs_spec() == self.dirs_spec().push(dir@),
            w.debounce_spec() == self.debounce_spec(),
    {
        let mut dirs = self.watch_dirs;
        let ghost before = dirs@;
        dirs.push(dir.to_owned());
        assert(dirs@.map_values(|d: String| d@) =~= before.map_values(|d: String| d@).push(dir@));
        ScriptWatcher { engine: self.engine, watch_dirs: dirs, debounce_ms: self.debounce_ms }
    }

    /// Set debounce duration in milliseconds.
    pub fn debounce(self, ms: u64) -> (w: Self)
        ensures
            w.engine_spec() == self.engine_spec(),
            w.dirs_spec() == self.dirs_spec(),
            w.debounce_spec() == ms,
    {
        ScriptWatcher { engine: self.engine, watch_dirs: self.watch_dirs, debounce_ms: ms }
    }

    /// The watched directories.
    pub fn watch_dirs(&self) -> (d: &Vec<String>)
        ensures
            d@.map_values(|d: String| d@) == self.dirs_spec(),
    {
        &self.watch_dirs
    }

    /// The quiet period, in milliseconds.
    pub fn debounce_ms(&self) -> (ms: u64)
        ensures
            ms == self.debounce_spec(),
    {
        self.debounce_ms
    }

    /// The engine.
    pub fn engine(&self) -> (e: &Arc<E>)
        ensures
            *e == self.engine_spec(),
    {
        &self.engine
    }
}

/// Extension for an engine to enable hot reload.
pub trait HotReloadExt: Sized {
    /// Create a watcher for this engine.
    fn watcher(self: &Arc<Self>) -> (w: ScriptWatcher<Self>)
        ensures
            w.engine_spec() == *self,
            w.dirs_spec() == Seq::<Seq<char>>::empty(),
            w.debounce_spec() == 100,
    ;
}

impl<E> HotReloadExt for E {
    fn watcher(self: &Arc<Self>) -> (w: ScriptWatcher<Self>) {
        ScriptWatcher::new(share(self))
    }
}

/// The time between two instants, in milliseconds; none when the clock has
/// not moved past `since`.
pub open spec fn elapsed(now: u64, since: u64) -> u64 {
    if now >= since {
        (now - since) as u64
    } else {
        0
    }
}

/// The extension of script files.
pub open spec fn script_extension() -> Seq<char> {
    seq!['r', 'h', 'a', 'i']
}

/// What the debouncer holds: the changed scripts not yet reported, each
/// once, in the order they first changed; when the last change came; and the
/// quiet period.
pub struct DebounceView {
    pub pending: Seq<Seq<char>>,
    pub last_event: u64,
    pub quiet_ms: u64,
}

/// The debouncer after a file changed at `now`: a script (a `.rhai` file)
/// joins the pending scripts unless it is already among them, and the quiet
/// period starts again; a change to any other file is ignored.
pub open spec fn after_change(v: DebounceView, path: Seq<char>, now: u64) -> DebounceView {
    if has_extension(path, script_extension()) {
        DebounceView {
            pending: if v.pending.contains(path) {
                v.pending
            } else {
                v.pending.push(path)
            },
            last_event: now,
            quiet_ms: v.quiet_ms,
        }
    } else {
        v
    }
}

/// Whether a tick at `now` reports: something is pending and no change has
/// come for the quiet period.
pub open spec fn tick_reports(v: DebounceView, now: u64) -> bool {
    v.pending.len() > 0 && elapsed(now, v.last_event) >= v.quiet_ms
}

/// Reports the scripts changed in a burst once the burst has gone quiet:
/// every changed script is kept until a tick comes at least the quiet period
/// after the last change, and that tick reports all of them, each once.
pub struct Debouncer {
    pending: Vec<String>,
    last_event: u64,
    quiet_ms: u64,
}

impl View for Debouncer {
    type V = DebounceView;

    closed spec fn view(&self) -> DebounceView {
        DebounceView { pending: string_views(self.pending@), last_event: self.last_event, quiet_ms: self.quiet_ms }
    }
}

impl Debouncer {
    /// The pending scripts are all different, and all `.rhai` files.
    #[verifier::type_invariant]
    closed spec fn pending_well_formed(&self) -> bool {
        &&& string_views(self.pending@).no_duplicates()
        &&& forall|i: int|
            0 <= i < self.pending@.len() ==> has_extension(#[trigger] self.pending@[i]@, script_extension())
    }

    /// A debouncer with nothing pending, started at `now`.
    pub fn new(quiet_ms: u64, now: u64) -> (d: Self)
        ensures
            d@ == (DebounceView { pending: Seq::empty(), last_event: now, quiet_ms }),
    {
        let d = Debouncer { pending: Vec::new(), last_event: now, quiet_ms };
        assert(string_views(d.pending@) =~= Seq::empty());
        d
    }

    fn holds(&self, path: &str) -> (r: bool)
        ensures
            r == self@.pending.contains(path@),
    {
        let mut i: usize = 0;
        while i < self.pending.len()
            invariant
                i <= self.pending@.len(),
                forall|j: int| 0 <= j < i ==> self.pending@[j]@ != path@,
            decreases self.pending@.len() - i,
        {
            if str_eq(self.pending[i].as_str(), path) {
                assert(string_views(self.pending@)[i as int] == path@);
                return true;
            }
            i = i + 1;
        }
        assert forall|j: int| 0 <= j < self@.pending.len() implies self@.pending[j] != path@ by {
            assert(string_views(self.pending@)[j] == self.pending@[j]@);
        }
        false
    }

    /// A file changed at `now`. A script joins the pending scripts, unless
    /// it is already among them, and the quiet period starts again; a change
    /// to any other file is ignored.
    pub fn on_change(&mut self, path: String, now: u64)
        ensures
            final(self)@ == after_change(old(self)@, path@, now),
    {
        proof {
            use_type_invariant(&*self);
        }
        if !path_has_extension(path.as_str(), "rhai") {
            proof {
                reveal_strlit("rhai");
                assert("rhai"@ =~= script_extension());
            }
            return;
        }
        proof {
            reveal_strlit("rhai");
            assert("rhai"@ =~= script_extension());
        }
        let mut pending = copy_strings(&self.pending);
        if !self.holds(path.as_str()) {
            let ghost before = pending@;
            let ghost p = path@;
            pending.push(path);
            proof {
                assert(string_views(pending@) =~= string_views(before).push(p));
                assert forall|i: int| 0 <= i < pending@.len() implies has_extension(
                    #[trigger] pending@[i]@,
                    script_extension(),
                ) by {
                    if i < before.len() {
                        assert(pending@[i] == before[i]);
                    }
                }
                assert(string_views(pending@).no_duplicates()) by {
                    assert forall|a: int, b: int|
                        0 <= a < b < string_views(pending@).len() implies string_views(pending@)[a]
                        != string_views(pending@)[b] by {
                        if b == before.len() {
                            assert(string_views(before)[a] == string_views(pending@)[a]);
                            assert(string_views(before).contains(string_views(before)[a]));
                        } else {
                            assert(string_views(before)[a] == string_views(pending@)[a]);
                            assert(string_views(before)[b] == string_views(pending@)[b]);
                        }
                    }
                }
            }
        }
        *self = Debouncer { pending, last_event: now, quiet_ms: self.quiet_ms };
    }

    /// The timer fired at `now`. Once the quiet period has passed since the
    /// last change, every pending script is reported, each once, in the order
    /// they first changed, and none stays pending; before that, nothing is
    /// reported and all stay pending.
    pub fn on_tick(&mut self, now: u64) -> (r: Vec<String>)
        ensures
            if tick_reports(old(self)@, now) {
                string_views(r@) == old(self)@.pending && final(self)@ == (DebounceView {
                    pending: Seq::empty(),
                    ..old(self)@
                })
            } else {
                r@.len() == 0 && final(self)@ == old(self)@
            },
            string_views(r@).no_duplicates(),
            forall|i: int| 0 <= i < r@.len() ==> has_extension(#[trigger] r@[i]@, script_extension()),
    {
        proof {
            use_type_invariant(&*self);
        }
        let waited = if now >= self.last_event {
            now - self.last_event
        } else {
            0
        };
        if self.pending.len() > 0 && waited >= self.quiet_ms {
            let out = copy_strings(&self.pending);
            let cleared = Debouncer { pending: Vec::new(), last_event: self.last_event, quiet_ms: self.quiet_ms };
            assert(string_views(cleared.pending@) =~= Seq::empty());
            *self = cleared;
            out
        } else {
            let out: Vec<String> = Vec::new();
            assert(string_views(out@) =~= Seq::empty());
            out
        }
    }

    /// Whether a script is pending.
    pub fn is_pending(&self) -> (r: bool)
        ensures
            r == (self@.pending.len() > 0),
    {
        self.pending.len() > 0
    }
}

} // verus!
