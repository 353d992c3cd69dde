use skopio_ls::config::Config;
use skopio_ls::resource::{
    is_file_scheme, label_or_identifier, resolve_resource, resource_label, uri_to_path_string,
    workspace_root,
};
use skopio_ls::session::{report_for, reports_for, Session};
use skopio_ls::store::Store;
use url::Url;

fn cfg(idle: u64, grace: u64, min: i64) -> Config {
    Config::new(None, Some(idle), Some(grace), Some(min))
}

fn s(text: &str) -> String {
    text.to_string()
}

fn session_of<'a>(store: &'a Store, key: &str) -> Option<&'a Session> {
    store.find(&s(key)).map(|i| &store.sessions[i])
}

#[test]
fn config_defaults() {
    let c = Config::new(None, None, None, None);
    assert_eq!(c.recorder, "skopio-cli");
    assert_eq!(c.idle_timeout_secs, 60);
    assert_eq!(c.switch_grace_secs, 60);
    assert_eq!(c.min_session_secs, 2);
    assert_eq!(c.category, "Coding");
    assert_eq!(c.app, "Zed");
    assert_eq!(c.entity_type, "File");
    assert_eq!(c.source, "skopio-zed");
}

#[test]
fn config_overrides() {
    let c = Config::new(Some(s("/bin/rec")), Some(10), Some(20), Some(-1));
    assert_eq!(c.recorder, "/bin/rec");
    assert_eq!(c.idle_timeout_secs, 10);
    assert_eq!(c.switch_grace_secs, 20);
    assert_eq!(c.min_session_secs, -1);
}

#[test]
fn first_signal_opens_session_with_project() {
    let mut st = Store::new();
    st.set_workspace_root(Some(s("/work")));
    st.note_activity(s("file:///work/a.rs"), s("/work/a.rs"), 100, 5_000);
    let a = session_of(&st, "file:///work/a.rs").unwrap();
    assert_eq!(a.entity, "/work/a.rs");
    assert_eq!(a.project, "/work");
    assert_eq!(a.start_ts, 100);
    assert_eq!(a.last_ts, 100);
    assert_eq!(a.last_seen, 5_000);
    assert_eq!(st.current_key.as_deref(), Some("file:///work/a.rs"));
}

#[test]
fn project_unknown_without_root() {
    let mut st = Store::new();
    assert_eq!(st.project_string(), "unknown");
    st.note_activity(s("a"), s("a"), 1, 1);
    assert_eq!(session_of(&st, "a").unwrap().project, "unknown");
}

#[test]
fn repeated_signals_extend_one_session() {
    let mut st = Store::new();
    for t in [3u64, 4, 9, 9, 17] {
        st.note_activity(s("a"), s("A"), t, t * 1000);
    }
    assert_eq!(st.sessions.len(), 1);
    let a = session_of(&st, "a").unwrap();
    assert_eq!(a.start_ts, 3);
    assert_eq!(a.last_ts, 17);
    assert_eq!(a.last_seen, 17_000);
}

#[test]
fn later_signal_keeps_labels() {
    let mut st = Store::new();
    st.note_activity(s("a"), s("first"), 1, 1);
    st.set_workspace_root(Some(s("/elsewhere")));
    st.note_activity(s("a"), s("second"), 2, 2);
    let a = session_of(&st, "a").unwrap();
    assert_eq!(a.entity, "first");
    assert_eq!(a.project, "unknown");
}

#[test]
fn wall_clock_step_back_does_not_shorten() {
    let mut st = Store::new();
    st.note_activity(s("a"), s("a"), 50, 1_000);
    st.note_activity(s("a"), s("a"), 40, 2_000);
    let a = session_of(&st, "a").unwrap();
    assert_eq!(a.start_ts, 50);
    assert_eq!(a.last_ts, 50);
    assert_eq!(a.last_seen, 2_000);
}

#[test]
fn end_takes_the_latest_signal_even_if_earlier() {
    let mut st = Store::new();
    st.note_activity(s("a"), s("a"), 0, 0);
    st.note_activity(s("a"), s("a"), 10, 10_000);
    st.note_activity(s("a"), s("a"), 5, 11_000);
    let a = session_of(&st, "a").unwrap();
    assert_eq!(a.start_ts, 0);
    assert_eq!(a.last_ts, 5);
    assert_eq!(a.last_seen, 11_000);

    let mut st = Store::new();
    st.note_activity(s("b"), s("b"), 10, 0);
    st.note_activity(s("b"), s("b"), 5, 1_000);
    let b = session_of(&st, "b").unwrap();
    assert_eq!(b.start_ts, 10);
    assert_eq!(b.last_ts, 10);
}

#[test]
fn switching_keeps_previous_session() {
    let mut st = Store::new();
    st.note_activity(s("a"), s("a"), 0, 0);
    st.note_activity(s("b"), s("b"), 5, 5_000);
    assert_eq!(st.sessions.len(), 2);
    assert_eq!(st.current_key.as_deref(), Some("b"));
    let a = session_of(&st, "a").unwrap();
    assert_eq!(a.start_ts, 0);
    assert_eq!(a.last_ts, 0);
}

#[test]
fn close_removes_and_clears_current() {
    let mut st = Store::new();
    st.note_activity(s("a"), s("a"), 0, 0);
    st.note_activity(s("a"), s("a"), 7, 7_000);
    let closed = st.close(&s("a")).unwrap();
    assert_eq!(closed.start_ts, 0);
    assert_eq!(closed.last_ts, 7);
    assert!(st.sessions.is_empty());
    assert!(st.current_key.is_none());
}

#[test]
fn close_background_keeps_current() {
    let mut st = Store::new();
    st.note_activity(s("a"), s("a"), 0, 0);
    st.note_activity(s("b"), s("b"), 1, 1_000);
    assert!(st.close(&s("a")).is_some());
    assert_eq!(st.current_key.as_deref(), Some("b"));
    assert_eq!(st.sessions.len(), 1);
}

#[test]
fn close_unknown_is_noop() {
    let mut st = Store::new();
    st.note_activity(s("a"), s("a"), 0, 0);
    assert!(st.close(&s("zzz")).is_none());
    assert_eq!(st.sessions.len(), 1);
    assert_eq!(st.current_key.as_deref(), Some("a"));
}

#[test]
fn fresh_session_after_close() {
    let mut st = Store::new();
    st.note_activity(s("a"), s("a"), 0, 0);
    st.note_activity(s("a"), s("a"), 30, 30_000);
    st.close(&s("a"));
    st.note_activity(s("a"), s("a"), 100, 100_000);
    let a = session_of(&st, "a").unwrap();
    assert_eq!(a.start_ts, 100);
    assert_eq!(a.last_ts, 100);
    assert_eq!(st.sessions.len(), 1);
}

#[test]
fn idle_timeout_finishes_current() {
    // idle 60 s, grace 60 s, min 2 s; A opened at 0, last touched at 10.
    let c = cfg(60, 60, 2);
    let mut st = Store::new();
    st.note_activity(s("A"), s("A"), 0, 0);
    st.note_activity(s("A"), s("A"), 10, 10_000);
    assert!(st.sweep(&c, 69_999).is_empty());
    assert_eq!(st.sessions.len(), 1);
    let out = st.sweep(&c, 70_000);
    assert_eq!(out.len(), 1);
    assert!(st.sessions.is_empty());
    assert!(st.current_key.is_none());
    let reports = reports_for(&c, out);
    assert_eq!(reports.len(), 1);
    assert_eq!(reports[0].duration, 10);
    assert_eq!(reports[0].start_ts, 0);
    assert_eq!(reports[0].end_ts, 10);
}

#[test]
fn grace_timeout_finishes_background() {
    // Grace 60 s and a longer idle timeout; A active from 0 to 5, then B.
    let c = cfg(300, 60, 2);
    let mut st = Store::new();
    st.note_activity(s("A"), s("A"), 0, 0);
    st.note_activity(s("A"), s("A"), 5, 5_000);
    st.note_activity(s("B"), s("B"), 5, 5_000);
    assert!(st.sweep(&c, 64_999).is_empty());
    let out = st.sweep(&c, 65_000);
    assert_eq!(out.len(), 1);
    assert_eq!(out[0].key, "A");
    assert_eq!(st.current_key.as_deref(), Some("B"));
    let b = session_of(&st, "B").unwrap();
    assert_eq!(b.start_ts, 5);
    assert_eq!(b.last_seen, 5_000);
    let reports = reports_for(&c, out);
    assert_eq!(reports.len(), 1);
    assert_eq!(reports[0].duration, 5);
}

#[test]
fn grace_finishes_background_while_current_stays() {
    // Idle 60 s, grace 60 s, minimum 2 s; A active from 0 to 5, then B,
    // which is touched again at 30.
    let c = cfg(60, 60, 2);
    let mut st = Store::new();
    st.note_activity(s("A"), s("A"), 0, 0);
    st.note_activity(s("A"), s("A"), 5, 5_000);
    st.note_activity(s("B"), s("B"), 5, 5_000);
    st.note_activity(s("B"), s("B"), 30, 30_000);
    assert!(st.sweep(&c, 64_999).is_empty());
    let out = st.sweep(&c, 65_000);
    assert_eq!(out.len(), 1);
    assert_eq!(out[0].key, "A");
    assert_eq!(st.current_key.as_deref(), Some("B"));
    let b = session_of(&st, "B").unwrap();
    assert_eq!(b.start_ts, 5);
    assert_eq!(b.last_ts, 30);
    assert_eq!(b.last_seen, 30_000);
    let reports = reports_for(&c, out);
    assert_eq!(reports.len(), 1);
    assert_eq!(reports[0].duration, 5);
    assert_eq!(reports[0].start_ts, 0);
    assert_eq!(reports[0].end_ts, 5);
}

#[test]
fn switched_away_untouched_session_is_too_short() {
    let c = cfg(300, 60, 2);
    let mut st = Store::new();
    st.note_activity(s("A"), s("A"), 0, 0);
    st.note_activity(s("B"), s("B"), 5, 5_000);
    let out = st.sweep(&c, 60_000);
    assert_eq!(out.len(), 1);
    assert_eq!(out[0].duration(), 0);
    assert!(reports_for(&c, out).is_empty());
}

#[test]
fn grace_counts_from_last_activity() {
    let c = cfg(60, 60, 2);
    let mut st = Store::new();
    st.note_activity(s("A"), s("A"), 0, 0);
    st.note_activity(s("B"), s("B"), 5, 5_000);
    assert!(st.sweep(&c, 59_999).is_empty());
    let out = st.sweep(&c, 60_000);
    assert_eq!(out.len(), 1);
    assert_eq!(out[0].key, "A");
    assert_eq!(st.current_key.as_deref(), Some("B"));
    assert_eq!(st.sessions.len(), 1);
}

#[test]
fn current_is_not_subject_to_grace() {
    let c = cfg(100, 10, 2);
    let mut st = Store::new();
    st.note_activity(s("A"), s("A"), 0, 0);
    assert!(st.sweep(&c, 50_000).is_empty());
    assert_eq!(st.current_key.as_deref(), Some("A"));
    let out = st.sweep(&c, 100_000);
    assert_eq!(out.len(), 1);
    assert!(st.current_key.is_none());
}

#[test]
fn sweep_finishes_each_once() {
    let c = cfg(10, 10, 0);
    let mut st = Store::new();
    st.note_activity(s("A"), s("A"), 0, 0);
    st.note_activity(s("B"), s("B"), 1, 1_000);
    st.note_activity(s("C"), s("C"), 2, 2_000);
    let out = st.sweep(&c, 100_000);
    assert_eq!(out.len(), 3);
    let mut keys: Vec<String> = out.iter().map(|x| x.key.clone()).collect();
    keys.sort();
    assert_eq!(keys, vec![s("A"), s("B"), s("C")]);
    assert!(st.sessions.is_empty());
    assert!(st.current_key.is_none());
    assert!(st.sweep(&c, 200_000).is_empty());
}

#[test]
fn monotonic_before_last_seen_counts_as_zero() {
    let c = cfg(0, 1, 0);
    let mut st = Store::new();
    st.note_activity(s("A"), s("A"), 0, 5_000);
    st.note_activity(s("B"), s("B"), 0, 5_000);
    let out = st.sweep(&c, 1_000);
    // B is current and idle 0 s finishes it at once; A needs 1 s of grace.
    assert_eq!(out.len(), 1);
    assert_eq!(out[0].key, "B");
    assert_eq!(st.sessions.len(), 1);
}

#[test]
fn short_session_closed_is_not_reported() {
    let c = cfg(60, 60, 2);
    let mut st = Store::new();
    st.note_activity(s("A"), s("A"), 0, 0);
    st.note_activity(s("A"), s("A"), 1, 1_000);
    let closed = st.close(&s("A")).unwrap();
    assert!(st.sessions.is_empty());
    assert!(report_for(&c, closed).is_none());
}

#[test]
fn open_then_close_is_not_reported() {
    let c = cfg(60, 60, 2);
    let mut st = Store::new();
    st.note_activity(s("A"), s("A"), 0, 0);
    let closed = st.close(&s("A")).unwrap();
    assert!(report_for(&c, closed).is_none());
}

#[test]
fn report_carries_all_fields() {
    let c = cfg(60, 60, 2);
    let mut st = Store::new();
    st.set_workspace_root(Some(s("/proj")));
    st.note_activity(s("k"), s("/proj/x.rs"), 1_000, 0);
    st.note_activity(s("k"), s("/proj/x.rs"), 1_002, 2_000);
    let r = report_for(&c, st.close(&s("k")).unwrap()).unwrap();
    assert_eq!(r.start_ts, 1_000);
    assert_eq!(r.end_ts, 1_002);
    assert_eq!(r.duration, 2);
    assert_eq!(r.entity, "/proj/x.rs");
    assert_eq!(r.project, "/proj");
    assert_eq!(r.category, "Coding");
    assert_eq!(r.app, "Zed");
    assert_eq!(r.entity_type, "File");
    assert_eq!(r.source, "skopio-zed");
}

#[test]
fn negative_minimum_reports_everything() {
    let c = cfg(60, 60, -5);
    let mut st = Store::new();
    st.note_activity(s("k"), s("k"), 7, 0);
    assert!(report_for(&c, st.close(&s("k")).unwrap()).is_some());
}

#[test]
fn reports_for_drops_only_short_ones() {
    let c = cfg(60, 60, 3);
    let mut st = Store::new();
    st.note_activity(s("a"), s("a"), 0, 0);
    st.note_activity(s("a"), s("a"), 2, 0);
    st.note_activity(s("b"), s("b"), 0, 0);
    st.note_activity(s("b"), s("b"), 3, 0);
    st.note_activity(s("c"), s("c"), 10, 0);
    st.note_activity(s("c"), s("c"), 20, 0);
    let reports = reports_for(&c, st.drain());
    assert_eq!(reports.len(), 2);
    assert_eq!(reports[0].entity, "b");
    assert_eq!(reports[0].duration, 3);
    assert_eq!(reports[1].entity, "c");
    assert_eq!(reports[1].duration, 10);
}

#[test]
fn drain_empties_store() {
    let mut st = Store::new();
    st.set_workspace_root(Some(s("/r")));
    st.note_activity(s("a"), s("a"), 0, 0);
    st.note_activity(s("b"), s("b"), 1, 0);
    let out = st.drain();
    assert_eq!(out.len(), 2);
    assert_eq!(out[0].key, "a");
    assert_eq!(out[1].key, "b");
    assert!(st.sessions.is_empty());
    assert!(st.current_key.is_none());
    assert_eq!(st.workspace_root.as_deref(), Some("/r"));
    assert!(st.drain().is_empty());
}

#[test]
fn file_url_label_is_its_path() {
    let u = Url::parse("file:///tmp/dir/main.rs").unwrap();
    assert_eq!(uri_to_path_string(&u), Some(s("/tmp/dir/main.rs")));
    let id = resolve_resource(&u);
    assert_eq!(id.key, "file:///tmp/dir/main.rs");
    assert_eq!(id.entity, "/tmp/dir/main.rs");
}

#[test]
fn non_file_url_label_is_raw_identifier() {
    let u = Url::parse("untitled:Untitled-1").unwrap();
    assert_eq!(uri_to_path_string(&u), None);
    let id = resolve_resource(&u);
    assert_eq!(id.key, "untitled:Untitled-1");
    assert_eq!(id.entity, "untitled:Untitled-1");
    let h = Url::parse("https://example.com/a/b").unwrap();
    assert_eq!(uri_to_path_string(&h), None);
}

#[test]
fn file_url_with_remote_host_has_no_path() {
    let u = Url::parse("file://server.example/share/x").unwrap();
    assert_eq!(uri_to_path_string(&u), None);
    assert_eq!(resolve_resource(&u).entity, "file://server.example/share/x");
}

#[test]
fn scheme_and_label_helpers() {
    assert!(is_file_scheme(&s("file")));
    assert!(!is_file_scheme(&s("files")));
    assert!(!is_file_scheme(&s("")));
    assert_eq!(label_or_identifier(s("raw"), Some(s("/p"))), "/p");
    assert_eq!(label_or_identifier(s("raw"), None), "raw");
}

#[test]
fn workspace_root_prefers_root_uri() {
    let root = Url::parse("file:///home/me/proj").unwrap();
    let folder = Url::parse("file:///home/me/other").unwrap();
    assert_eq!(workspace_root(Some(&root), Some(&folder)), Some(s("/home/me/proj")));
    assert_eq!(workspace_root(None, Some(&folder)), Some(s("/home/me/other")));
    assert_eq!(workspace_root(None, None), None);
    let remote = Url::parse("ssh://host/proj").unwrap();
    assert_eq!(workspace_root(Some(&remote), None), Some(s("ssh://host/proj")));
}

#[test]
fn resource_label_of_file_and_other_urls() {
    let f = Url::parse("file:///srv/code/lib.rs").unwrap();
    assert_eq!(resource_label(&f), "/srv/code/lib.rs");
    let o = Url::parse("zed://notes/today").unwrap();
    assert_eq!(resource_label(&o), "zed://notes/today");
}
