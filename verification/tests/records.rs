use forkd::api::{SandboxInfo, SnapshotInfo, SnapshotStatus, WorkspaceInfo, WorkspaceStatus};
use forkd::audit::{civil_from_days, format_unix_seconds_as_rfc3339, AuditEntry};
use forkd::auth::{
    auth_from_file, constant_time_eq, require_token, validate_token, AuthConfig, TokenError,
};
use forkd::config::DaemonConfig;
use forkd::state::{pid_probe, Registry};
use forkd::table::Table;

#[test]
fn rfc3339_format_epoch_zero() {
    assert_eq!(format_unix_seconds_as_rfc3339(0), "1970-01-01T00:00:00Z");
}

#[test]
fn rfc3339_format_known_timestamp() {
    assert_eq!(format_unix_seconds_as_rfc3339(1_704_067_200), "2024-01-01T00:00:00Z");
}

#[test]
fn rfc3339_at_leap_days_and_ends_of_centuries() {
    assert_eq!(format_unix_seconds_as_rfc3339(951_782_400), "2000-02-29T00:00:00Z");
    assert_eq!(format_unix_seconds_as_rfc3339(1_709_251_199), "2024-02-29T23:59:59Z");
    assert_eq!(format_unix_seconds_as_rfc3339(1_709_251_200), "2024-03-01T00:00:00Z");
    assert_eq!(format_unix_seconds_as_rfc3339(4_107_542_399), "2100-02-28T23:59:59Z");
    assert_eq!(format_unix_seconds_as_rfc3339(4_107_542_400), "2100-03-01T00:00:00Z");
    assert_eq!(format_unix_seconds_as_rfc3339(946_684_799), "1999-12-31T23:59:59Z");
    assert_eq!(format_unix_seconds_as_rfc3339(253_402_300_800), "10000-01-01T00:00:00Z");
}

#[test]
fn rfc3339_reads_the_upper_half_as_negative() {
    assert_eq!(format_unix_seconds_as_rfc3339(u64::MAX), "1969-12-31T23:59:59Z");
}

#[test]
fn days_walk_through_the_calendar() {
    let (mut y, mut m, mut d) = civil_from_days(-800_000);
    for day in -799_999..800_000i64 {
        let leap = y % 4 == 0 && (y % 100 != 0 || y % 400 == 0);
        let len = match m {
            2 => 28 + leap as u32,
            4 | 6 | 9 | 11 => 30,
            _ => 31,
        };
        if d < len {
            d += 1;
        } else {
            d = 1;
            if m == 12 {
                m = 1;
                y += 1;
            } else {
                m += 1;
            }
        }
        assert_eq!(civil_from_days(day), (y, m, d));
    }
}

#[test]
fn audit_entry_is_one_json_line() {
    let e = AuditEntry {
        ts: "1970-01-01T00:00:00Z".into(),
        method: "GET".into(),
        path: "/version".into(),
        status: 200,
        latency_us: 17,
        remote: "127.0.0.1:4".into(),
        ua: "a\nb\"c\u{1}".into(),
    };
    let line = e.line();
    assert_eq!(
        line,
        "{\"latency_us\":17,\"method\":\"GET\",\"path\":\"/version\",\"remote\":\"127.0.0.1:4\",\"status\":200,\"ts\":\"1970-01-01T00:00:00Z\",\"ua\":\"a\\nb\\\"c\\u0001\"}"
    );
    let v: serde_json::Value = serde_json::from_str(&line).unwrap();
    assert_eq!(v["ua"].as_str(), Some("a\nb\"c\u{1}"));
    assert_eq!(v.to_string(), line);
}

#[test]
fn matching_tokens_eq() {
    assert!(constant_time_eq(b"abc", b"abc"));
    assert!(constant_time_eq(b"", b""));
}

#[test]
fn different_tokens_not_eq() {
    assert!(!constant_time_eq(b"abc", b"abd"));
    assert!(!constant_time_eq(b"abc", b"abcd"));
    assert!(!constant_time_eq(b"abcd", b"abc"));
}

#[test]
fn rejects_empty_token() {
    assert!(validate_token("").is_err());
}

#[test]
fn rejects_replace_me_placeholder() {
    let err = validate_token("REPLACE_ME_WITH_32_BYTES_BASE64").expect_err("placeholder accepted");
    let msg = err.message();
    assert!(msg.contains("placeholder"), "msg was: {msg}");
}

#[test]
fn rejects_change_me_variant() {
    assert!(validate_token("CHANGE_ME_PLEASE").is_err());
}

#[test]
fn rejects_too_short_token() {
    assert!(validate_token("short").is_err());
    assert!(validate_token("123456789012345").is_err());
}

#[test]
fn accepts_realistic_token() {
    assert!(validate_token("a1b2c3d4e5f60718293a4b5c6d7e8f90").is_ok());
}

#[test]
fn token_length_counts_bytes() {
    assert_eq!(validate_token("ééééééé"), Err(TokenError::TooShort { bytes: 14 }));
    assert!(validate_token("éééééééé").is_ok());
    assert_eq!(TokenError::Empty.message(), "token is empty");
    assert_eq!(
        TokenError::TooShort { bytes: 5 }.message(),
        "token is only 5 bytes; use at least 16 bytes of high-entropy randomness"
    );
}

#[test]
fn end_to_end_auth_rejects_missing_token() {
    let cfg = auth_from_file(&Some("s3cret-test-token-1234567890".into())).unwrap();
    assert!(require_token(&cfg, "/healthz", &None).is_ok());
    let e = require_token(&cfg, "/version", &None).unwrap_err();
    assert_eq!(e.status, 401);
    assert_eq!(e.body.error, "missing bearer token");
}

#[test]
fn end_to_end_auth_accepts_valid_token() {
    let cfg = auth_from_file(&Some(" s3cret-test-token-1234567890\n".into())).unwrap();
    let good = Some("Bearer s3cret-test-token-1234567890".to_string());
    assert!(require_token(&cfg, "/version", &good).is_ok());
    let bad = Some("Bearer s3cret-test-token-1234567891".to_string());
    assert_eq!(require_token(&cfg, "/version", &bad).unwrap_err().body.error, "invalid bearer token");
    let basic = Some("Basic s3cret-test-token-1234567890".to_string());
    assert_eq!(require_token(&cfg, "/version", &basic).unwrap_err().body.error, "missing bearer token");
}

#[test]
fn without_a_token_file_everyone_gets_in() {
    let cfg = auth_from_file(&None).unwrap();
    assert_eq!(cfg, AuthConfig::open());
    assert!(require_token(&cfg, "/version", &None).is_ok());
    assert_eq!(AuthConfig::with_token("t".into()).token.as_deref(), Some("t"));
}

#[test]
fn config_defaults_and_tls_pairing() {
    let mut cfg = DaemonConfig::with_data_dir("/d/forkd");
    assert_eq!(cfg.bind, "127.0.0.1:8889");
    assert_eq!(cfg.snapshot_root, "/d/forkd/snapshots");
    assert_eq!(cfg.prewarm_scratch_dir, "/dev/shm/forkd-prewarm");
    assert_eq!(cfg.tls(), None);
    assert!(cfg.is_exposed(false));
    assert!(!cfg.is_exposed(true));
    cfg.tls_cert = Some("/c".into());
    assert_eq!(cfg.tls(), None);
    cfg.tls_key = Some("/k".into());
    assert_eq!(cfg.tls(), Some(("/c".into(), "/k".into())));
    cfg.tls_cert = None;
    assert_eq!(cfg.tls(), None);
}

fn sandbox(id: &str, pid: Option<u32>, netns: Option<&str>) -> SandboxInfo {
    SandboxInfo {
        id: id.into(),
        snapshot_tag: "py".into(),
        netns: netns.map(String::from),
        guest_addr: "10.42.0.2:8888".into(),
        created_at_unix: 1,
        pid,
        memory_limit_mib: None,
        has_branched: false,
        last_branch_memory_path: None,
        branch_count: 0,
    }
}

fn workspace(name: &str, live: Option<&str>) -> WorkspaceInfo {
    WorkspaceInfo {
        id: format!("ws-{name}"),
        name: name.into(),
        source_snapshot_tag: "py".into(),
        current_state_tag: None,
        status: WorkspaceStatus::Running,
        live_sandbox_id: live.map(String::from),
        created_at_unix: 1,
        last_active_unix: 1,
        last_branch_memory_path: None,
    }
}

#[test]
fn round_trip_persist_load() {
    let mut r = Registry::load_or_init(None);
    r.insert_sandbox(sandbox("sb-1", Some(99999999), Some("forkd-child-1")));
    let r2 = Registry::load_or_init(Some(r.snapshot()));
    assert_eq!(r2.list_sandboxes().len(), 1);
    assert_eq!(r2.list_sandboxes()[0].id, "sb-1");
}

#[test]
fn reconcile_drops_the_dead_and_marks_their_workspaces() {
    let mut r = Registry::load_or_init(None);
    r.insert_sandbox(sandbox("alive", Some(1), None));
    r.insert_sandbox(sandbox("dead", Some(2), None));
    r.insert_sandbox(sandbox("lost", Some(1), Some("forkd-child-9")));
    r.insert_sandbox(sandbox("unknown", None, Some("forkd-child-1")));
    r.insert_workspace(workspace("a", Some("alive")));
    r.insert_workspace(workspace("b", Some("dead")));
    let alive = vec![1];
    let mut unlisted = Registry::load_or_init(Some(r.snapshot()));
    assert_eq!(unlisted.reconcile(&alive, &None), 1);
    assert!(unlisted.get_sandbox("lost").is_some());
    let netns = Some(vec!["forkd-child-1".to_string()]);
    assert_eq!(r.reconcile(&alive, &netns), 2);
    let ids: Vec<String> = r.list_sandboxes().into_iter().map(|s| s.id).collect();
    assert_eq!(ids, vec!["alive", "unknown"]);
    assert_eq!(r.get_workspace("a").unwrap().status, WorkspaceStatus::Running);
    let b = r.get_workspace("b").unwrap();
    assert_eq!(b.status, WorkspaceStatus::Stale);
    assert_eq!(b.live_sandbox_id, None);
    assert_eq!(r.reconcile(&alive, &netns), 0);
    assert_eq!(pid_probe(7), "/proc/7");
}

#[test]
fn branch_marks_count_up() {
    let mut r = Registry::load_or_init(None);
    assert_eq!(r.mark_branched("sb", "/m"), None);
    r.insert_sandbox(sandbox("sb", None, None));
    assert_eq!(r.mark_branched("sb", "/m1"), Some(1));
    assert_eq!(r.mark_branched("sb", "/m2"), Some(2));
    let sb = r.get_sandbox("sb").unwrap();
    assert!(sb.has_branched);
    assert_eq!(sb.last_branch_memory_path.as_deref(), Some("/m2"));
    assert_eq!(r.counts(), (0, 1));
}

#[test]
fn registry_entries_come_and_go() {
    let mut r = Registry::load_or_init(None);
    r.insert_snapshot(SnapshotInfo {
        tag: "t".into(),
        dir: "/d".into(),
        created_at_unix: 3,
        branched_from: None,
        pause_ms: None,
        diff_ms: None,
        diff_physical_bytes: None,
        diff_logical_bytes: None,
        warning: None,
        status: SnapshotStatus::Ready,
    });
    assert_eq!(r.get_snapshot("t").unwrap().dir, "/d");
    assert_eq!(r.counts(), (1, 0));
    assert!(r.remove_snapshot("t").is_some());
    assert!(r.remove_snapshot("t").is_none());
    assert!(!r.update_workspace("w", workspace("w", None)));
    r.insert_workspace(workspace("w", None));
    assert!(r.update_workspace("w", workspace("w", Some("x"))));
    assert_eq!(r.get_workspace("w").unwrap().live_sandbox_id.as_deref(), Some("x"));
    assert!(r.remove_workspace("w").is_some());
    assert!(r.list_workspaces().is_empty());
}

#[test]
fn tables_keep_their_keys_in_order() {
    let mut t: Table<u32> = Table::new();
    for (i, k) in ["b", "a", "ba", "", "é", "z"].iter().enumerate() {
        assert_eq!(t.insert(k.to_string(), i as u32), None);
    }
    assert_eq!(t.insert("a".into(), 9), Some(1));
    assert_eq!(t.key_list(), vec!["", "a", "b", "ba", "z", "é"]);
    assert_eq!(t.get("a"), Some(&9));
    assert_eq!(t.remove("ba"), Some(2));
    assert_eq!(t.remove("ba"), None);
    assert_eq!(t.remove_all(&vec!["a".into(), "nope".into()]), 1);
    assert_eq!(t.len(), 4);
    assert!(!t.contains("a"));
}
