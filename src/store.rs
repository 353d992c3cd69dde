//! The table of in-flight sessions and the rules that open, extend and finish
//! them.
use vstd::prelude::*;

use crate::config::Config;
use crate::session::{Session, SessionView};

verus! {

broadcast use vstd::seq_lib::group_seq_properties;

/// The sessions in the table, as values.
pub open spec fn session_views(ss: Seq<Session>) -> Seq<SessionView> {
    ss.map_values(|s: Session| s@)
}

/// The value of an optional string.
pub open spec fn opt_view(o: Option<String>) -> Option<Seq<char>> {
    match o {
        Some(s) => Some(s@),
        None => None,
    }
}

/// Whether some session in `ss` belongs to the resource `k`.
pub open spec fn has_key(ss: Seq<SessionView>, k: Seq<char>) -> bool {
    exists|i: int| 0 <= i < ss.len() && #[trigger] ss[i].key == k
}

/// The position of the session of `k` in `ss`, where there is one.
pub open spec fn key_index(ss: Seq<SessionView>, k: Seq<char>) -> int {
    choose|i: int| 0 <= i < ss.len() && #[trigger] ss[i].key == k
}

/// No two sessions in `ss` belong to the same resource.
pub open spec fn keys_unique(ss: Seq<SessionView>) -> bool {
    forall|i: int, j: int|
        0 <= i < ss.len() && 0 <= j < ss.len() && #[trigger] ss[i].key == #[trigger] ss[j].key
            ==> i == j
}

/// The project label that a new session takes from the workspace root.
pub open spec fn project_of(root: Option<Seq<char>>) -> Seq<char> {
    match root {
        Some(r) => r,
        None => "unknown"@,
    }
}

/// Time since `seen` at the monotonic instant `now`, in milliseconds; zero
/// where `now` is not later.
pub open spec fn elapsed(now: int, seen: int) -> int {
    if now >= seen {
        now - seen
    } else {
        0
    }
}

/// Whether a session last seen at `seen` has been untouched for at least
/// `timeout_secs` seconds at `now`.
pub open spec fn timed_out(now: int, seen: int, timeout_secs: int) -> bool {
    elapsed(now, seen) >= 1000 * timeout_secs
}

/// The value of a [`Store`].
pub struct StoreView {
    pub root: Option<Seq<char>>,
    pub sessions: Seq<SessionView>,
    pub current: Option<Seq<char>>,
}

impl StoreView {
    /// The table's invariant: one session per resource, every interval well
    /// ordered, and the current marker naming a session in the table.
    pub open spec fn wf(self) -> bool {
        &&& keys_unique(self.sessions)
        &&& forall|i: int|
            0 <= i < self.sessions.len() ==> #[trigger] self.sessions[i].start_ts
                <= self.sessions[i].last_ts
        &&& self.current matches Some(k) ==> has_key(self.sessions, k)
    }

    /// The session of resource `k`; meaningful where `has_key(self.sessions, k)`.
    pub open spec fn session(self, k: Seq<char>) -> SessionView {
        self.sessions[key_index(self.sessions, k)]
    }

    /// The table after an activity signal on `key` at wall-clock second `ts`
    /// and monotonic instant `mono`.
    ///
    /// A resource without a session gets a fresh one that starts and ends at
    /// `ts`. An existing session keeps its identity, labels and start; its end
    /// moves to `ts`, or to its start where a wall clock that stepped back puts
    /// `ts` before the start, and it is seen at `mono`. Either way `key`
    /// becomes current.
    pub open spec fn after_activity(
        self,
        key: Seq<char>,
        entity: Seq<char>,
        ts: int,
        mono: int,
    ) -> StoreView {
        if has_key(self.sessions, key) {
            let i = key_index(self.sessions, key);
            let s = self.sessions[i];
            StoreView {
                sessions: self.sessions.update(
                    i,
                    SessionView {
                        last_ts: if ts >= s.start_ts {
                            ts
                        } else {
                            s.start_ts
                        },
                        last_seen: mono,
                        ..s
                    },
                ),
                current: Some(key),
                ..self
            }
        } else {
            StoreView {
                sessions: self.sessions.push(
                    SessionView {
                        key,
                        entity,
                        project: project_of(self.root),
                        start_ts: ts,
                        last_ts: ts,
                        last_seen: mono,
                    },
                ),
                current: Some(key),
                ..self
            }
        }
    }

    /// The table after the resource `key` is explicitly closed: its session,
    /// if any, is gone, and so is the current marker if it named `key`.
    pub open spec fn after_close(self, key: Seq<char>) -> StoreView {
        StoreView {
            sessions: if has_key(self.sessions, key) {
                self.sessions.remove(key_index(self.sessions, key))
            } else {
                self.sessions
            },
            current: if self.current == Some(key) {
                None
            } else {
                self.current
            },
            ..self
        }
    }

    /// Whether the sweep at `now` finishes `s`: the current session after
    /// `idle_secs` untouched, any other session after `grace_secs`.
    pub open spec fn finishes(self, s: SessionView, now: int, idle_secs: int, grace_secs: int) -> bool {
        if self.current == Some(s.key) {
            timed_out(now, s.last_seen, idle_secs)
        } else {
            timed_out(now, s.last_seen, grace_secs)
        }
    }

    /// Whether the sweep at `now` finishes the current session.
    pub open spec fn idle_fires(self, now: int, idle_secs: int) -> bool {
        &&& self.current matches Some(k)
        &&& has_key(self.sessions, k)
        &&& timed_out(now, self.session(k).last_seen, idle_secs)
    }

    /// The table after a sweep at `now`: the sessions that it finishes are
    /// gone, and the current marker with the current session.
    pub open spec fn after_sweep(self, now: int, idle_secs: int, grace_secs: int) -> StoreView {
        StoreView {
            sessions: self.sessions.filter(
                |s: SessionView| !self.finishes(s, now, idle_secs, grace_secs),
            ),
            current: if self.idle_fires(now, idle_secs) {
                None
            } else {
                self.current
            },
            ..self
        }
    }

    /// The sessions that a sweep at `now` finishes, in table order.
    pub open spec fn swept(self, now: int, idle_secs: int, grace_secs: int) -> Seq<SessionView> {
        self.sessions.filter(|s: SessionView| self.finishes(s, now, idle_secs, grace_secs))
    }

    /// The table after shutdown: empty, with no current resource.
    pub open spec fn drained(self) -> StoreView {
        StoreView { sessions: Seq::empty(), current: None, ..self }
    }
}

/// Within a well-formed table, the session of a key sits where that key is.
pub proof fn lemma_key_index(ss: Seq<SessionView>, i: int)
    requires
        keys_unique(ss),
        0 <= i < ss.len(),
    ensures
        has_key(ss, ss[i].key),
        key_index(ss, ss[i].key) == i,
{
    let k = ss[i].key;
    assert(has_key(ss, k));
    let j = key_index(ss, k);
    assert(ss[j].key == ss[i].key);
}

/// An activity signal keeps the table well formed.
pub proof fn lemma_activity_wf(v: StoreView, key: Seq<char>, entity: Seq<char>, ts: int, mono: int)
    requires
        v.wf(),
    ensures
        v.after_activity(key, entity, ts, mono).wf(),
{
    let old_v = v;
    let v = old_v.after_activity(key, entity, ts, mono);
    let n = v.sessions.len();
    if has_key(old_v.sessions, key) {
        let i = key_index(old_v.sessions, key);
        assert(v.sessions[i].key == key);
    } else {
        assert(v.sessions[n - 1].key == key);
    }
    assert(keys_unique(v.sessions)) by {
        assert forall|a: int, b: int|
            0 <= a < n && 0 <= b < n && #[trigger] v.sessions[a].key == #[trigger] v.sessions[b].key
                implies a == b by {
            if !has_key(old_v.sessions, key) {
                if a == n - 1 && b < n - 1 {
                    assert(old_v.sessions[b].key == key);
                }
                if b == n - 1 && a < n - 1 {
                    assert(old_v.sessions[a].key == key);
                }
            } else {
                assert(old_v.sessions[a].key == old_v.sessions[b].key);
            }
        }
    }
}

/// An explicit close keeps the table well formed, and leaves no session of
/// the closed resource.
pub proof fn lemma_close_wf(v: StoreView, key: Seq<char>)
    requires
        v.wf(),
    ensures
        v.after_close(key).wf(),
        !has_key(v.after_close(key).sessions, key),
{
    let old_v = v;
    let v = old_v.after_close(key);
    if has_key(old_v.sessions, key) {
        let i = key_index(old_v.sessions, key);
        assert forall|a: int| 0 <= a < v.sessions.len() implies #[trigger] v.sessions[a]
            == old_v.sessions[if a < i {
            a
        } else {
            a + 1
        }] by {}
        if let Some(c) = v.current {
            let j = choose|j: int| 0 <= j < old_v.sessions.len() && #[trigger] old_v.sessions[j].key == c;
            assert(j != i);
            if j < i {
                assert(v.sessions[j].key == c);
            } else {
                assert(v.sessions[j - 1].key == c);
            }
        }
        assert forall|a: int, b: int|
            0 <= a < v.sessions.len() && 0 <= b < v.sessions.len() && #[trigger] v.sessions[a].key
                == #[trigger] v.sessions[b].key implies a == b by {
            let oa = if a < i {
                a
            } else {
                a + 1
            };
            let ob = if b < i {
                b
            } else {
                b + 1
            };
            assert(old_v.sessions[oa].key == old_v.sessions[ob].key);
        }
        if has_key(v.sessions, key) {
            let a = choose|a: int| 0 <= a < v.sessions.len() && #[trigger] v.sessions[a].key == key;
            let oa = if a < i {
                a
            } else {
                a + 1
            };
            assert(old_v.sessions[oa].key == key);
        }
    }
}

/// Keeping some of the sessions of a well-formed table keeps one session per
/// resource and every interval well ordered.
pub proof fn lemma_filter_wf(ss: Seq<SessionView>, p: spec_fn(SessionView) -> bool)
    requires
        keys_unique(ss),
        forall|i: int| 0 <= i < ss.len() ==> #[trigger] ss[i].start_ts <= ss[i].last_ts,
    ensures
        keys_unique(ss.filter(p)),
        forall|i: int|
            0 <= i < ss.filter(p).len() ==> #[trigger] ss.filter(p)[i].start_ts
                <= ss.filter(p)[i].last_ts,
    decreases ss.len(),
{
    reveal(Seq::filter);
    if ss.len() > 0 {
        let rest = ss.drop_last();
        let last = ss.last();
        assert(ss =~= rest.push(last));
        assert(keys_unique(rest)) by {
            assert forall|a: int, b: int|
                0 <= a < rest.len() && 0 <= b < rest.len() && #[trigger] rest[a].key
                    == #[trigger] rest[b].key implies a == b by {
                assert(ss[a].key == ss[b].key);
            }
        }
        assert forall|i: int| 0 <= i < rest.len() implies #[trigger] rest[i].start_ts
            <= rest[i].last_ts by {
            assert(ss[i] == rest[i]);
        }
        lemma_filter_wf(rest, p);
        let fr = rest.filter(p);
        if p(last) {
            let f = fr.push(last);
            assert(ss.filter(p) == f);
            assert forall|a: int, b: int|
                0 <= a < f.len() && 0 <= b < f.len() && #[trigger] f[a].key == #[trigger] f[b].key
                    implies a == b by {
                if a == fr.len() && b < fr.len() {
                    assert(fr.contains(fr[b]));
                    rest.lemma_filter_contains_rev(p, fr[b]);
                    let j = choose|j: int| 0 <= j < rest.len() && rest[j] == fr[b];
                    assert(ss[j].key == ss[ss.len() - 1].key);
                }
                if b == fr.len() && a < fr.len() {
                    assert(fr.contains(fr[a]));
                    rest.lemma_filter_contains_rev(p, fr[a]);
                    let j = choose|j: int| 0 <= j < rest.len() && rest[j] == fr[a];
                    assert(ss[j].key == ss[ss.len() - 1].key);
                }
            }
            assert(last.start_ts <= last.last_ts) by {
                assert(ss[ss.len() - 1] == last);
            }
        }
    }
}

/// A sweep keeps the table well formed.
pub proof fn lemma_sweep_wf(v: StoreView, now: int, idle_secs: int, grace_secs: int)
    requires
        v.wf(),
    ensures
        v.after_sweep(now, idle_secs, grace_secs).wf(),
{
    let stay = |s: SessionView| !v.finishes(s, now, idle_secs, grace_secs);
    let all = v.sessions;
    lemma_filter_wf(all, stay);
    if !v.idle_fires(now, idle_secs) {
        if let Some(k) = v.current {
            let i = key_index(all, k);
            assert(stay(all[i]));
            all.lemma_filter_contains(stay, i);
            let f = all.filter(stay);
            let j = choose|j: int| 0 <= j < f.len() && f[j] == all[i];
            assert(f[j].key == k);
        }
    }
}

/// Comparing the whole seconds in `x` milliseconds with `t` is comparing `x`
/// with `1000 * t`.
proof fn lemma_whole_seconds(x: int, t: int)
    requires
        x >= 0,
        t >= 0,
    ensures
        (x / 1000 >= t) == (x >= 1000 * t),
{
    assert((x / 1000 >= t) == (x >= 1000 * t)) by (nonlinear_arith)
        requires
            x >= 0,
            t >= 0,
    ;
}

/// Whether a session last seen at `seen` has timed out at `now`.
fn is_timed_out(now: u64, seen: u64, timeout_secs: u64) -> (r: bool)
    ensures
        r == timed_out(now as int, seen as int, timeout_secs as int),
{
    let el = now.saturating_sub(seen);
    proof {
        lemma_whole_seconds(el as int, timeout_secs as int);
    }
    el / 1000 >= timeout_secs
}

/// The session table, with the workspace root that new sessions take their
/// project from and the marker of the current resource.
pub struct Store {
    pub workspace_root: Option<String>,
    pub sessions: Vec<Session>,
    pub current_key: Option<String>,
}

impl View for Store {
    type V = StoreView;

    open spec fn view(&self) -> StoreView {
        StoreView {
            root: opt_view(self.workspace_root),
            sessions: session_views(self.sessions@),
            current: opt_view(self.current_key),
        }
    }
}

impl Store {
    /// An empty table with no workspace root.
    pub fn new() -> (r: Store)
        ensures
            r@.root is None,
            r@.sessions.len() == 0,
            r@.current is None,
            r@.wf(),
    {
        Store { workspace_root: None, sessions: Vec::new(), current_key: None }
    }

    /// Records the workspace root that later sessions take as their project.
    pub fn set_workspace_root(&mut self, root: Option<String>)
        ensures
            final(self)@ == (StoreView { root: opt_view(root), ..old(self)@ }),
    {
        self.workspace_root = root;
        proof {
            assert(final(self)@.sessions == old(self)@.sessions);
        }
    }

    /// The project label for a session created now.
    pub fn project_string(&self) -> (r: String)
        ensures
            r@ == project_of(self@.root),
    {
        match &self.workspace_root {
            Some(root) => root.clone(),
            None => "unknown".to_owned(),
        }
    }

    /// Where the session of `key` is in the table.
    pub fn find(&self, key: &String) -> (r: Option<usize>)
        ensures
            match r {
                Some(i) => i < self.sessions.len() && self.sessions[i as int].key@ == key@,
                None => !has_key(self@.sessions, key@),
            },
    {
        let mut i: usize = 0;
        while i < self.sessions.len()
            invariant
                i <= self.sessions.len(),
                forall|j: int| 0 <= j < i ==> self.sessions[j].key@ != key@,
            decreases self.sessions.len() - i,
        {
            if self.sessions[i].key == *key {
                return Some(i);
            }
            i = i + 1;
        }
        proof {
            let ss = self@.sessions;
            if has_key(ss, key@) {
                let j = choose|j: int| 0 <= j < ss.len() && #[trigger] ss[j].key == key@;
                assert(self.sessions[j].key@ == key@);
            }
        }
        None
    }

    /// Handles an open, change or save of the resource `key`, labelled
    /// `entity`, at wall-clock second `now_ts` and monotonic instant
    /// `now_mono` (milliseconds).
    pub fn note_activity(&mut self, key: String, entity: String, now_ts: u64, now_mono: u64)
        requires
            old(self)@.wf(),
        ensures
            final(self)@ == old(self)@.after_activity(key@, entity@, now_ts as int, now_mono as int),
            final(self)@.wf(),
    {
        let ghost old_v = self@;
        match self.find(&key) {
            Some(i) => {
                proof {
                    lemma_key_index(old_v.sessions, i as int);
                }
                let mut s = self.sessions.remove(i);
                s.last_ts = if now_ts >= s.start_ts {
                    now_ts
                } else {
                    s.start_ts
                };
                s.last_seen = now_mono;
                self.sessions.insert(i, s);
                proof {
                    assert(self@.sessions =~= old_v.after_activity(
                        key@,
                        entity@,
                        now_ts as int,
                        now_mono as int,
                    ).sessions);
                }
            },
            None => {
                let project = self.project_string();
                self.sessions.push(
                    Session {
                        key: key.clone(),
                        entity,
                        project,
                        start_ts: now_ts,
                        last_ts: now_ts,
                        last_seen: now_mono,
                    },
                );
                proof {
                    assert(self@.sessions =~= old_v.after_activity(
                        key@,
                        entity@,
                        now_ts as int,
                        now_mono as int,
                    ).sessions);
                }
            },
        }
        self.current_key = Some(key);
        proof {
            lemma_activity_wf(old_v, key@, entity@, now_ts as int, now_mono as int);
        }
    }

    /// Handles an explicit close of the resource `key`: its session leaves
    /// the table at once and is handed back for reporting.
    pub fn close(&mut self, key: &String) -> (r: Option<Session>)
        requires
            old(self)@.wf(),
        ensures
            final(self)@ == old(self)@.after_close(key@),
            final(self)@.wf(),
            match r {
                Some(s) => has_key(old(self)@.sessions, key@) && s@ == old(self)@.session(key@),
                None => !has_key(old(self)@.sessions, key@),
            },
    {
        let ghost old_v = self@;
        let is_current = match &self.current_key {
            Some(k) => *k == *key,
            None => false,
        };
        if is_current {
            self.current_key = None;
        }
        let removed = match self.find(key) {
            Some(i) => {
                proof {
                    lemma_key_index(old_v.sessions, i as int);
                }
                let s = self.sessions.remove(i);
                proof {
                    assert(self@.sessions =~= old_v.sessions.remove(i as int));
                }
                Some(s)
            },
            None => None,
        };
        proof {
            assert(self@.sessions =~= old_v.after_close(key@).sessions);
            lemma_close_wf(old_v, key@);
        }
        removed
    }
    /// One tick of the idle/grace sweeper at monotonic instant `now_mono`
    /// (milliseconds): finishes the current session if it has been idle for
    /// the idle timeout, and every other session untouched for the switch
    /// grace, and hands the finished sessions back for reporting.
    pub fn sweep(&mut self, cfg: &Config, now_mono: u64) -> (r: Vec<Session>)
        requires
            old(self)@.wf(),
        ensures
            final(self)@ == old(self)@.after_sweep(
                now_mono as int,
                cfg.idle_timeout_secs as int,
                cfg.switch_grace_secs as int,
            ),
            final(self)@.wf(),
            session_views(r@) == old(self)@.swept(
                now_mono as int,
                cfg.idle_timeout_secs as int,
                cfg.switch_grace_secs as int,
            ),
    {
        let ghost old_v = self@;
        let ghost all = old_v.sessions;
        let ghost now = now_mono as int;
        let ghost idle = cfg.idle_timeout_secs as int;
        let ghost grace = cfg.switch_grace_secs as int;
        let ghost fin = |s: SessionView| old_v.finishes(s, now, idle, grace);
        let ghost stay = |s: SessionView| !old_v.finishes(s, now, idle, grace);
        let mut rest: Vec<Session> = Vec::new();
        std::mem::swap(&mut rest, &mut self.sessions);
        let mut kept: Vec<Session> = Vec::new();
        let mut out: Vec<Session> = Vec::new();
        let mut idle_fired = false;
        let ghost mut done: int = 0;
        proof {
            assert(session_views(rest@).subrange(0, all.len() as int) =~= session_views(rest@));
        }
        while rest.len() > 0
            invariant
                0 <= done <= all.len(),
                now == now_mono as int,
                idle == cfg.idle_timeout_secs as int,
                grace == cfg.switch_grace_secs as int,
                fin == (|s: SessionView| old_v.finishes(s, now, idle, grace)),
                stay == (|s: SessionView| !old_v.finishes(s, now, idle, grace)),
                opt_view(self.current_key) == old_v.current,
                opt_view(self.workspace_root) == old_v.root,
                session_views(rest@) == all.subrange(done, all.len() as int),
                session_views(kept@) == all.subrange(0, done).filter(stay),
                session_views(out@) == all.subrange(0, done).filter(fin),
                idle_fired == exists|j: int|
                    0 <= j < done && old_v.current == Some(#[trigger] all[j].key) && timed_out(
                        now,
                        all[j].last_seen,
                        idle,
                    ),
            decreases rest.len(),
        {
            let ghost before = rest@;
            proof {
                assert(session_views(before).len() == before.len());
                assert(done < all.len());
            }
            let s = rest.remove(0);
            let is_current = match &self.current_key {
                Some(k) => *k == s.key,
                None => false,
            };
            let limit = if is_current {
                cfg.idle_timeout_secs
            } else {
                cfg.switch_grace_secs
            };
            let ghost sv = s@;
            proof {
                assert(session_views(before)[0] == sv);
                assert(all.subrange(done, all.len() as int)[0] == all[done]);
                assert(sv == all[done]);
                assert(all.subrange(0, done + 1) =~= all.subrange(0, done).push(sv));
                all.subrange(0, done).lemma_filter_push(sv, fin);
                all.subrange(0, done).lemma_filter_push(sv, stay);
                assert forall|k: int| 0 <= k < rest@.len() implies #[trigger] session_views(rest@)[k]
                    == all[done + 1 + k] by {
                    assert(rest@[k] == before[k + 1]);
                    assert(session_views(before)[k + 1] == all.subrange(done, all.len() as int)[k + 1]);
                }
                assert(session_views(rest@) =~= all.subrange(done + 1, all.len() as int));
            }
            if is_timed_out(now_mono, s.last_seen, limit) {
                if is_current {
                    idle_fired = true;
                }
                let ghost prev = out@;
                out.push(s);
                proof {
                    assert(session_views(out@) =~= session_views(prev).push(sv));
                }
            } else {
                let ghost prev = kept@;
                kept.push(s);
                proof {
                    assert(session_views(kept@) =~= session_views(prev).push(sv));
                }
            }
            proof {
                done = done + 1;
            }
        }
        self.sessions = kept;
        if idle_fired {
            self.current_key = None;
        }
        proof {
            assert(all.subrange(0, done) =~= all);
            let v = self@;
            assert(idle_fired == old_v.idle_fires(now, idle)) by {
                if idle_fired {
                    let j = choose|j: int|
                        0 <= j < done && old_v.current == Some(#[trigger] all[j].key) && timed_out(
                            now,
                            all[j].last_seen,
                            idle,
                        );
                    lemma_key_index(all, j);
                }
                if old_v.idle_fires(now, idle) {
                    let k = old_v.current->0;
                    let i = key_index(all, k);
                    assert(old_v.current == Some(all[i].key));
                }
            }
            assert(v == old_v.after_sweep(now, idle, grace));
            lemma_sweep_wf(old_v, now, idle, grace);
        }
        out
    }

    /// Shutdown: every session leaves the table and is handed back for
    /// reporting, and no resource is current any more.
    pub fn drain(&mut self) -> (r: Vec<Session>)
        requires
            old(self)@.wf(),
        ensures
            final(self)@ == old(self)@.drained(),
            final(self)@.wf(),
            session_views(r@) == old(self)@.sessions,
    {
        let mut out: Vec<Session> = Vec::new();
        std::mem::swap(&mut out, &mut self.sessions);
        self.current_key = None;
        proof {
            assert(self@.sessions =~= Seq::<SessionView>::empty());
        }
        out
    }
}

} // verus!
