//! One interval of engagement with a resource, and what is reported for it.
use vstd::prelude::*;

use crate::config::Config;

verus! {

/// One continuous interval of engagement with one resource.
///
/// `start_ts` and `last_ts` are wall-clock seconds, used for reporting;
/// `last_seen` is a monotonic instant in milliseconds, used only to decide
/// timeouts.
pub struct Session {
    pub key: String,
    pub entity: String,
    pub project: String,
    pub start_ts: u64,
    pub last_ts: u64,
    pub last_seen: u64,
}

/// The mathematical value of a [`Session`].
pub struct SessionView {
    pub key: Seq<char>,
    pub entity: Seq<char>,
    pub project: Seq<char>,
    pub start_ts: int,
    pub last_ts: int,
    pub last_seen: int,
}

impl View for Session {
    type V = SessionView;

    open spec fn view(&self) -> SessionView {
        SessionView {
            key: self.key@,
            entity: self.entity@,
            project: self.project@,
            start_ts: self.start_ts as int,
            last_ts: self.last_ts as int,
            last_seen: self.last_seen as int,
        }
    }
}

impl SessionView {
    /// Length of the interval, in wall-clock seconds.
    pub open spec fn duration(self) -> int {
        self.last_ts - self.start_ts
    }

    /// Whether a session of this length is worth reporting.
    pub open spec fn reportable(self, min_session_secs: int) -> bool {
        self.duration() >= min_session_secs
    }
}

/// The sessions of `ss` that are long enough to report, in order.
pub open spec fn reportable_sessions(ss: Seq<Session>, min_session_secs: int) -> Seq<Session> {
    ss.filter(|s: Session| s@.reportable(min_session_secs))
}

/// What the recorder is handed for one finished session.
pub struct Report {
    pub start_ts: u64,
    pub end_ts: u64,
    pub duration: u64,
    pub entity: String,
    pub project: String,
    pub category: String,
    pub app: String,
    pub entity_type: String,
    pub source: String,
}

/// The report that a reportable session gives under `cfg`.
pub open spec fn report_of(cfg: Config, s: SessionView, r: Report) -> bool {
    &&& r.start_ts == s.start_ts
    &&& r.end_ts == s.last_ts
    &&& r.duration == s.duration()
    &&& r.entity@ == s.entity
    &&& r.project@ == s.project
    &&& r.category@ == cfg.category@
    &&& r.app@ == cfg.app@
    &&& r.entity_type@ == cfg.entity_type@
    &&& r.source@ == cfg.source@
}

impl Session {
    /// Length of the interval, in wall-clock seconds.
    pub fn duration(&self) -> (r: u64)
        requires
            self.start_ts <= self.last_ts,
        ensures
            r == self@.duration(),
    {
        self.last_ts - self.start_ts
    }
}

/// The report for a finished session, or `None` where the session is shorter
/// than the configured minimum and is dropped without a word.
pub fn report_for(cfg: &Config, s: Session) -> (r: Option<Report>)
    requires
        s.start_ts <= s.last_ts,
    ensures
        r is None <==> !s@.reportable(cfg.min_session_secs as int),
        r matches Some(rep) ==> report_of(*cfg, s@, rep),
{
    let duration = s.duration();
    if cfg.min_session_secs > 0 && duration < cfg.min_session_secs as u64 {
        return None;
    }
    Some(Report {
        start_ts: s.start_ts,
        end_ts: s.last_ts,
        duration,
        entity: s.entity,
        project: s.project,
        category: cfg.category.clone(),
        app: cfg.app.clone(),
        entity_type: cfg.entity_type.clone(),
        source: cfg.source.clone(),
    })
}

/// The reports for a batch of finished sessions, in order: one for each
/// session that is long enough, none for the others.
pub fn reports_for(cfg: &Config, sessions: Vec<Session>) -> (r: Vec<Report>)
    requires
        forall|i: int| 0 <= i < sessions.len() ==> #[trigger] sessions[i].start_ts <= sessions[i].last_ts,
    ensures
        r.len() == reportable_sessions(sessions@, cfg.min_session_secs as int).len(),
        forall|i: int|
            0 <= i < r.len() ==> report_of(
                *cfg,
                reportable_sessions(sessions@, cfg.min_session_secs as int)[i]@,
                #[trigger] r[i],
            ),
{
    let ghost min = cfg.min_session_secs as int;
    let ghost keep = |s: Session| s@.reportable(min);
    let ghost all = sessions@;
    let mut rest = sessions;
    let mut out: Vec<Report> = Vec::new();
    let ghost mut done: int = 0;
    while rest.len() > 0
        invariant
            0 <= done <= all.len(),
            min == cfg.min_session_secs as int,
            keep == (|s: Session| s@.reportable(min)),
            rest@ == all.subrange(done, all.len() as int),
            forall|i: int| 0 <= i < all.len() ==> #[trigger] all[i].start_ts <= all[i].last_ts,
            out.len() == all.subrange(0, done).filter(keep).len(),
            forall|i: int|
                0 <= i < out.len() ==> report_of(*cfg, all.subrange(0, done).filter(keep)[i]@, #[trigger] out[i]),
        decreases rest.len(),
    {
        let s = rest.remove(0);
        proof {
            assert(s == all[done]);
            assert(all.subrange(0, done + 1) =~= all.subrange(0, done).push(s));
            assert(keep(s) == s@.reportable(min));
            all.subrange(0, done).lemma_filter_push(s, keep);
        }
        let ghost sv = s@;
        let rep = report_for(cfg, s);
        match rep {
            Some(rep) => {
                out.push(rep);
                assert(report_of(*cfg, sv, rep));
            },
            None => {},
        }
        proof {
            done = done + 1;
            assert(rest@ =~= all.subrange(done, all.len() as int));
        }
    }
    proof {
        assert(all.subrange(0, done) == all);
        assert(keep == (|s: Session| s@.reportable(cfg.min_session_secs as int)));
    }
    out
}

} // verus!
