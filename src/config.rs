//! Settings that the session rules consume as constants.
use vstd::prelude::*;

verus! {

/// Idle timeout, in seconds, when none is configured.
pub const DEFAULT_IDLE_SECS: u64 = 60;

/// Switch-grace timeout, in seconds, when none is configured.
pub const DEFAULT_GRACE_SECS: u64 = 60;

/// Shortest session, in seconds, that is reported when none is configured.
pub const DEFAULT_MIN_SESSION_SECS: i64 = 2;

/// Settings of the tracker.
pub struct Config {
    /// Program that records a finished session.
    pub recorder: String,
    /// A current session untouched for this many seconds is finished.
    pub idle_timeout_secs: u64,
    /// A background session untouched for this many seconds is finished.
    pub switch_grace_secs: u64,
    /// Sessions shorter than this many seconds are not reported.
    pub min_session_secs: i64,
    /// Fixed labels handed to the recorder with every session.
    pub category: String,
    pub app: String,
    pub entity_type: String,
    pub source: String,
}

impl Config {
    /// Builds the settings from optional overrides; each absent one takes its
    /// default.
    pub fn new(
        recorder: Option<String>,
        idle_secs: Option<u64>,
        grace_secs: Option<u64>,
        min_session_secs: Option<i64>,
    ) -> (r: Config)
        ensures
            r.recorder@ == (match recorder {
                Some(p) => p@,
                None => "skopio-cli"@,
            }),
            r.idle_timeout_secs == (match idle_secs {
                Some(n) => n,
                None => DEFAULT_IDLE_SECS,
            }),
            r.switch_grace_secs == (match grace_secs {
                Some(n) => n,
                None => DEFAULT_GRACE_SECS,
            }),
            r.min_session_secs == (match min_session_secs {
                Some(n) => n,
                None => DEFAULT_MIN_SESSION_SECS,
            }),
            r.category@ == "Coding"@,
            r.app@ == "Zed"@,
            r.entity_type@ == "File"@,
            r.source@ == "skopio-zed"@,
    {
        let recorder = match recorder {
            Some(p) => p,
            None => "skopio-cli".to_owned(),
        };
        let idle_timeout_secs = match idle_secs {
            Some(n) => n,
            None => DEFAULT_IDLE_SECS,
        };
        let switch_grace_secs = match grace_secs {
            Some(n) => n,
            None => DEFAULT_GRACE_SECS,
        };
        let min_session_secs = match min_session_secs {
            Some(n) => n,
            None => DEFAULT_MIN_SESSION_SECS,
        };
        Config {
            recorder,
            idle_timeout_secs,
            switch_grace_secs,
            min_session_secs,
            category: "Coding".to_owned(),
            app: "Zed".to_owned(),
            entity_type: "File".to_owned(),
            source: "skopio-zed".to_owned(),
        }
    }
}

} // verus!
