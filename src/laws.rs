//! Properties of the session rules that span several operations.
use vstd::prelude::*;

use crate::session::{reportable_sessions, Session, SessionView};
use crate::store::{
    has_key, key_index, keys_unique, lemma_activity_wf, lemma_close_wf, lemma_filter_wf,
    lemma_key_index, lemma_sweep_wf, timed_out, StoreView,
};

verus! {

broadcast use vstd::seq_lib::group_seq_properties;

/// The table after a run of activity signals on one resource; each signal is
/// a wall-clock second and a monotonic instant.
pub open spec fn after_activities(
    v: StoreView,
    key: Seq<char>,
    entity: Seq<char>,
    signals: Seq<(int, int)>,
) -> StoreView
    decreases signals.len(),
{
    if signals.len() == 0 {
        v
    } else {
        after_activities(v, key, entity, signals.drop_last()).after_activity(
            key,
            entity,
            signals.last().0,
            signals.last().1,
        )
    }
}

/// A signal on a resource without a session opens one that starts and ends
/// at the signal's time.
proof fn lemma_fresh(u: StoreView, key: Seq<char>, entity: Seq<char>, ts: int, mono: int)
    requires
        u.wf(),
        !has_key(u.sessions, key),
    ensures
        ({
            let w = u.after_activity(key, entity, ts, mono);
            &&& w.wf()
            &&& has_key(w.sessions, key)
            &&& w.session(key).start_ts == ts
            &&& w.session(key).last_ts == ts
            &&& w.session(key).entity == entity
            &&& w.current == Some(key)
        }),
{
    let w = u.after_activity(key, entity, ts, mono);
    lemma_activity_wf(u, key, entity, ts, mono);
    lemma_key_index(w.sessions, w.sessions.len() - 1);
}

/// A run of activity signals on one resource that had no session, with no
/// close between them, leaves one session of that resource, current, however
/// many signals came between: it starts at the first signal's time, ends at
/// the last signal's time where that is not before the first, and was last
/// seen at the last signal's monotonic instant.
pub proof fn law_activity_run_spans_first_to_last(
    v: StoreView,
    key: Seq<char>,
    entity: Seq<char>,
    signals: Seq<(int, int)>,
)
    requires
        v.wf(),
        !has_key(v.sessions, key),
        signals.len() > 0,
    ensures
        ({
            let w = after_activities(v, key, entity, signals);
            &&& w.wf()
            &&& has_key(w.sessions, key)
            &&& w.session(key).start_ts == signals[0].0
            &&& signals.last().0 >= signals[0].0 ==> w.session(key).last_ts == signals.last().0
            &&& w.session(key).last_seen == signals.last().1
            &&& w.session(key).entity == entity
            &&& w.current == Some(key)
        }),
    decreases signals.len(),
{
    let prev = signals.drop_last();
    let last = signals.last();
    if signals.len() == 1 {
        assert(after_activities(v, key, entity, prev) == v);
        lemma_fresh(v, key, entity, last.0, last.1);
    } else {
        law_activity_run_spans_first_to_last(v, key, entity, prev);
        let u = after_activities(v, key, entity, prev);
        let w = u.after_activity(key, entity, last.0, last.1);
        lemma_activity_wf(u, key, entity, last.0, last.1);
        let i = key_index(u.sessions, key);
        assert(w.sessions[i].key == key);
        lemma_key_index(w.sessions, i);
        assert(prev[0] == signals[0]);
    }
}

/// Switching to another resource keeps the previous resource's session in
/// the table, unchanged; only the current marker moves.
pub proof fn law_switch_keeps_previous(
    v: StoreView,
    key: Seq<char>,
    entity: Seq<char>,
    ts: int,
    mono: int,
    previous: Seq<char>,
)
    requires
        v.wf(),
        has_key(v.sessions, previous),
        previous != key,
    ensures
        ({
            let w = v.after_activity(key, entity, ts, mono);
            &&& has_key(w.sessions, previous)
            &&& w.session(previous) == v.session(previous)
            &&& w.current == Some(key)
        }),
{
    let w = v.after_activity(key, entity, ts, mono);
    lemma_activity_wf(v, key, entity, ts, mono);
    let p = key_index(v.sessions, previous);
    if has_key(v.sessions, key) {
        let i = key_index(v.sessions, key);
        assert(i != p);
    }
    assert(w.sessions[p] == v.sessions[p]);
    lemma_key_index(w.sessions, p);
}

/// A session that is not current stays in the table through a sweep, unchanged,
/// until it has been untouched for the switch grace.
pub proof fn law_background_kept_within_grace(
    v: StoreView,
    now: int,
    idle_secs: int,
    grace_secs: int,
    k: Seq<char>,
)
    requires
        v.wf(),
        has_key(v.sessions, k),
        v.current != Some(k),
        !timed_out(now, v.session(k).last_seen, grace_secs),
    ensures
        ({
            let w = v.after_sweep(now, idle_secs, grace_secs);
            &&& has_key(w.sessions, k)
            &&& w.session(k) == v.session(k)
        }),
{
    let w = v.after_sweep(now, idle_secs, grace_secs);
    let stay = |s: SessionView| !v.finishes(s, now, idle_secs, grace_secs);
    lemma_sweep_wf(v, now, idle_secs, grace_secs);
    let i = key_index(v.sessions, k);
    assert(stay(v.sessions[i]));
    v.sessions.lemma_filter_contains(stay, i);
    let j = choose|j: int| 0 <= j < w.sessions.len() && w.sessions[j] == v.sessions[i];
    lemma_key_index(w.sessions, j);
}

/// After a resource's session is closed, the next signal on it starts a fresh
/// session at that signal's time, and the table still holds one session per
/// resource.
pub proof fn law_fresh_session_after_close(
    v: StoreView,
    key: Seq<char>,
    entity: Seq<char>,
    ts: int,
    mono: int,
)
    requires
        v.wf(),
    ensures
        ({
            let w = v.after_close(key).after_activity(key, entity, ts, mono);
            &&& w.wf()
            &&& has_key(w.sessions, key)
            &&& w.session(key).start_ts == ts
            &&& w.session(key).last_ts == ts
        }),
{
    lemma_close_wf(v, key);
    lemma_fresh(v.after_close(key), key, entity, ts, mono);
}

/// After a sweep finishes a resource's session, that resource has no session
/// left, and the next signal on it starts a fresh one at that signal's time.
pub proof fn law_fresh_session_after_sweep(
    v: StoreView,
    now: int,
    idle_secs: int,
    grace_secs: int,
    key: Seq<char>,
    entity: Seq<char>,
    ts: int,
    mono: int,
)
    requires
        v.wf(),
        has_key(v.sessions, key),
        v.finishes(v.session(key), now, idle_secs, grace_secs),
    ensures
        !has_key(v.after_sweep(now, idle_secs, grace_secs).sessions, key),
        ({
            let w = v.after_sweep(now, idle_secs, grace_secs).after_activity(key, entity, ts, mono);
            &&& w.wf()
            &&& has_key(w.sessions, key)
            &&& w.session(key).start_ts == ts
            &&& w.session(key).last_ts == ts
        }),
{
    let u = v.after_sweep(now, idle_secs, grace_secs);
    let stay = |s: SessionView| !v.finishes(s, now, idle_secs, grace_secs);
    lemma_sweep_wf(v, now, idle_secs, grace_secs);
    if has_key(u.sessions, key) {
        let j = choose|j: int| 0 <= j < u.sessions.len() && #[trigger] u.sessions[j].key == key;
        let x = u.sessions[j];
        assert(stay(x));
        assert(u.sessions.contains(x));
        v.sessions.lemma_filter_contains_rev(stay, x);
        let i = choose|i: int| 0 <= i < v.sessions.len() && v.sessions[i] == x;
        lemma_key_index(v.sessions, i);
    }
    lemma_fresh(u, key, entity, ts, mono);
}

/// In one sweep the current session finishes only by the idle timeout and any
/// other session only by the switch grace; no resource is finished twice, and
/// each session of the table either finishes or stays, never both.
pub proof fn law_sweep_rules(v: StoreView, now: int, idle_secs: int, grace_secs: int)
    requires
        v.wf(),
    ensures
        ({
            let out = v.swept(now, idle_secs, grace_secs);
            let w = v.after_sweep(now, idle_secs, grace_secs);
            &&& forall|i: int|
                0 <= i < out.len() ==> if v.current == Some(#[trigger] out[i].key) {
                    timed_out(now, out[i].last_seen, idle_secs)
                } else {
                    timed_out(now, out[i].last_seen, grace_secs)
                }
            &&& keys_unique(out)
            &&& forall|i: int|
                0 <= i < v.sessions.len() ==> (out.contains(#[trigger] v.sessions[i])
                    <==> !w.sessions.contains(v.sessions[i]))
        }),
{
    let fin = |s: SessionView| v.finishes(s, now, idle_secs, grace_secs);
    let stay = |s: SessionView| !v.finishes(s, now, idle_secs, grace_secs);
    let out = v.swept(now, idle_secs, grace_secs);
    let w = v.after_sweep(now, idle_secs, grace_secs);
    assert forall|i: int| 0 <= i < out.len() implies if v.current == Some(#[trigger] out[i].key) {
        timed_out(now, out[i].last_seen, idle_secs)
    } else {
        timed_out(now, out[i].last_seen, grace_secs)
    } by {
        v.sessions.lemma_filter_pred(fin, i);
    }
    lemma_filter_wf(v.sessions, fin);
    assert forall|i: int| 0 <= i < v.sessions.len() implies (out.contains(#[trigger] v.sessions[i])
        <==> !w.sessions.contains(v.sessions[i])) by {
        let x = v.sessions[i];
        if fin(x) {
            v.sessions.lemma_filter_contains(fin, i);
            if w.sessions.contains(x) {
                let j = choose|j: int| 0 <= j < w.sessions.len() && w.sessions[j] == x;
                v.sessions.lemma_filter_pred(stay, j);
            }
        } else {
            v.sessions.lemma_filter_contains(stay, i);
            if out.contains(x) {
                let j = choose|j: int| 0 <= j < out.len() && out[j] == x;
                v.sessions.lemma_filter_pred(fin, j);
            }
        }
    }
}

/// Shutdown hands back every session of the table, one per resource, and
/// leaves the table empty with no current resource.
pub proof fn law_drain_reports_each_once(v: StoreView)
    requires
        v.wf(),
    ensures
        keys_unique(v.sessions),
        v.drained().sessions.len() == 0,
        v.drained().current is None,
        v.drained().root == v.root,
        v.drained().wf(),
{
}

/// No session shorter than the minimum is among those that are reported.
pub proof fn law_short_sessions_never_reported(ss: Seq<Session>, min_session_secs: int)
    ensures
        forall|i: int|
            0 <= i < reportable_sessions(ss, min_session_secs).len() ==> (
            #[trigger] reportable_sessions(ss, min_session_secs)[i])@.duration() >= min_session_secs,
{
    assert forall|i: int| 0 <= i < reportable_sessions(ss, min_session_secs).len() implies (
    #[trigger] reportable_sessions(ss, min_session_secs)[i])@.duration() >= min_session_secs by {
        ss.lemma_filter_pred(|s: Session| s@.reportable(min_session_secs), i);
    }
}

} // verus!
