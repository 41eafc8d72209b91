use jade_core::models::{default_settings, SyncthingSettings};
use jade_core::cli::{
    due_keyword, effective_format, parse_absolute_due, parse_due_for_update, repeat_update, DueKeyword,
};
use jade_core::history::{summarize_payload, JsonValue};
use jade_core::install::{aur_package_info, channel_from_fetches, github_fetch, GithubFetch, InstallKind, LatestReleaseInfo};
use jade_core::models::{Error, TaskEventType};
use jade_core::output::{csv_escape, csv_escape_wiki, shell_quote, trim_edges, truncate, ListFormat};
use jade_core::store::AppliedMark;
use jade_core::models::PeerSyncSettings;
use jade_core::store::{EventPayload, TaskEvent};
use jade_core::sync::{
    bearer_authorized, listener_should_start, peer_sync_result, pulled_cursor, pushed_ack, serve_settings, should_apply_lww,
    sync_round_step, PayloadTask, PeerCursor, RoundAction, RoundEvent, SyncEventEnvelope, SyncRound,
};
use jade_core::wiki::watch::{touched_roots, WatchedRoot};
use jade_core::tasks::{DueUpdate, RepeatCronUpdate};
use jade_core::update::{next_update_step, update_status, UpdateStep};
use jade_core::wiki::index::{index_decision, indexable_entry, missing_pages, normalize_rel_path, root_label, root_upsert};
use jade_core::wiki::types::WikiEventType;

fn s(v: &str) -> JsonValue {
    JsonValue::Str(v.to_owned())
}

fn obj(entries: Vec<(&str, JsonValue)>, text: &str) -> JsonValue {
    JsonValue::Object(entries.into_iter().map(|(k, v)| (k.to_owned(), v)).collect(), text.to_owned())
}

#[test]
fn summary_of_created_event() {
    let p = obj(vec![("title", s("Write report")), ("task", obj(vec![("title", s("other"))], "{}"))], "{}");
    assert_eq!(summarize_payload(TaskEventType::Created, &p, "{}"), "created \"Write report\"");

    let spawned = obj(vec![("spawned_from", s("abc")), ("title", s("Daily"))], "{}");
    assert_eq!(
        summarize_payload(TaskEventType::Created, &spawned, "{}"),
        "created \"Daily\" (spawned from abc)"
    );

    let snapshot_only = obj(vec![("task", obj(vec![("title", s("From snapshot"))], "{}"))], "{}");
    assert_eq!(summarize_payload(TaskEventType::Created, &snapshot_only, "{}"), "created \"From snapshot\"");

    let null_title = obj(vec![("title", JsonValue::Null), ("task", obj(vec![("title", s("x"))], "{}"))], "{}");
    assert_eq!(summarize_payload(TaskEventType::Created, &null_title, "{}"), "created \"(untitled)\"");
}

#[test]
fn summary_of_deleted_event() {
    let p = obj(vec![("task", obj(vec![("title", s("Gone"))], "{}"))], "{}");
    assert_eq!(summarize_payload(TaskEventType::Deleted, &p, "{}"), "deleted \"Gone\"");
    assert_eq!(summarize_payload(TaskEventType::Deleted, &obj(vec![], "{}"), "{}"), "deleted");
}

#[test]
fn summary_of_updated_event() {
    let change = |old: JsonValue, new: JsonValue| obj(vec![("new", new), ("old", old)], "{}");
    let changes = obj(
        vec![
            ("description", change(JsonValue::Null, s("notes"))),
            ("status", change(s("inactive"), s("active"))),
            ("tags", change(JsonValue::Array(vec![s("a")]), JsonValue::Array(vec![s("a"), JsonValue::Number("1".into())]))),
        ],
        "{}",
    );
    let p = obj(vec![("changes", changes), ("task", obj(vec![], "{}"))], "{}");
    assert_eq!(
        summarize_payload(TaskEventType::Updated, &p, "{}"),
        "description: null -> notes; status: inactive -> active; tags: [a] -> [a, ?]"
    );

    // A flat field map is read when there is no `changes` object.
    let flat = obj(vec![("title", change(s("a"), s("b"))), ("task", obj(vec![], "{}")), ("n", JsonValue::Bool(true))], "{}");
    assert_eq!(summarize_payload(TaskEventType::Updated, &flat, "{}"), "title: a -> b");

    let empty = obj(vec![("changes", obj(vec![], "{}"))], "{}");
    assert_eq!(summarize_payload(TaskEventType::Updated, &empty, "{}"), "(no field changes)");

    assert_eq!(summarize_payload(TaskEventType::Updated, &s("odd"), "\"odd\""), "\"odd\"");
}

#[test]
fn due_keywords_and_absolute_times() {
    assert!(matches!(due_keyword("  Tomorrow "), DueKeyword::Tomorrow));
    assert!(matches!(due_keyword("NEXT_monday"), DueKeyword::NextMonday));
    assert!(matches!(due_keyword(" 2026-01-02 "), DueKeyword::Absolute(t) if t == "2026-01-02"));

    assert_eq!(parse_due_for_update("tomorrow"), Ok(DueUpdate::Tomorrow));
    assert_eq!(parse_due_for_update("next-monday"), Ok(DueUpdate::NextMonday));
    assert_eq!(
        parse_due_for_update(" 2024-01-02T03:04:05Z "),
        Ok(DueUpdate::At(1_704_164_645_000_000_000))
    );
    assert_eq!(parse_absolute_due("1970-01-01T00:00:01+00:00"), Ok(1_000_000_000));
    assert!(parse_absolute_due("2024-05-06").is_ok());
    assert_eq!(
        parse_absolute_due("soon"),
        Err(Error::Message(
            "invalid due date 'soon'. Use tomorrow, next-monday, RFC3339, YYYY-MM-DDTHH:MM, or YYYY-MM-DD".into()
        ))
    );
}

#[test]
fn repeat_none_clears() {
    assert!(matches!(repeat_update("NoNe"), RepeatCronUpdate::Clear));
    assert!(matches!(repeat_update("0 9 * * 1"), RepeatCronUpdate::Replace(c) if c == "0 9 * * 1"));
}

#[test]
fn json_flag_turns_plain_into_json() {
    assert_eq!(effective_format(true, ListFormat::Plain), ListFormat::Json);
    assert_eq!(effective_format(true, ListFormat::Csv), ListFormat::Csv);
    assert_eq!(effective_format(false, ListFormat::Plain), ListFormat::Plain);
}

#[test]
fn bearer_token_must_match_exactly() {
    assert!(bearer_authorized(Some("Bearer abc"), "abc"));
    assert!(!bearer_authorized(Some("Bearer abcd"), "abc"));
    assert!(!bearer_authorized(Some("bearer abc"), "abc"));
    assert!(!bearer_authorized(None, "abc"));
    assert!(!bearer_authorized(Some("Bearer "), ""));
}

#[test]
fn peer_results_report_the_first_failure() {
    let failed = peer_sync_result("p".into(), Err("down".into()), None);
    assert_eq!((failed.pulled, failed.pushed, failed.error.as_deref()), (0, 0, Some("down")));
    let push_failed = peer_sync_result("p".into(), Ok((3, 1)), Some(Err("refused".into())));
    assert_eq!((push_failed.pulled, push_failed.skipped, push_failed.pushed), (3, 1, 0));
    assert_eq!(push_failed.error.as_deref(), Some("refused"));
    let ok = peer_sync_result("p".into(), Ok((2, 0)), Some(Ok(5)));
    assert_eq!((ok.pulled, ok.pushed, ok.error), (2, 5, None));
}

#[test]
fn last_writer_wins_by_time_then_id() {
    let marks = vec![AppliedMark { task_id: 7, last_event_id: 5, last_event_at: 10 }];
    assert!(should_apply_lww(&Vec::new(), 7, 1, 0));
    assert!(should_apply_lww(&marks, 7, 1, 11));
    assert!(!should_apply_lww(&marks, 7, 9, 9));
    assert!(should_apply_lww(&marks, 7, 6, 10));
    assert!(!should_apply_lww(&marks, 7, 5, 10));
    assert!(should_apply_lww(&marks, 8, 1, 0));
}

#[test]
fn update_status_and_next_step() {
    let st = update_status("0.1.0", InstallKind::Deb, &None, &Some("0.2.0".into()), "deb", &Some("u".into()));
    assert!(st.update_available);
    assert_eq!(st.message, "Update available: 0.1.0 \u{2192} 0.2.0 via deb.");
    let same = update_status("0.2.0", InstallKind::Deb, &None, &Some("0.2.0".into()), "deb", &None);
    assert!(!same.update_available);
    assert_eq!(same.message, "Already up to date (0.2.0; channel latest 0.2.0).");
    let none = update_status("0.2.0", InstallKind::Unknown, &None, &None, "unknown", &None);
    assert_eq!(none.message, "Already up to date (0.2.0); could not resolve channel latest.");

    assert_eq!(next_update_step(true, true, true, InstallKind::Deb), UpdateStep::ReportJson);
    assert_eq!(next_update_step(false, true, false, InstallKind::Deb), UpdateStep::ReportJson);
    assert_eq!(next_update_step(true, false, true, InstallKind::Deb), UpdateStep::Done);
    assert_eq!(next_update_step(false, false, false, InstallKind::Unknown), UpdateStep::OfferInstallScript);
    assert_eq!(next_update_step(false, false, false, InstallKind::Aur), UpdateStep::Done);
    assert_eq!(next_update_step(false, true, true, InstallKind::Aur), UpdateStep::Install);
}

#[test]
fn wiki_index_decisions() {
    assert_eq!(root_label(&Some("  Notes ".into()), "/a/b", &Some("b".into())), "Notes");
    assert_eq!(root_label(&Some("   ".into()), "/a/b", &Some("b".into())), "b");
    assert_eq!(root_label(&None, "/", &None), "/");
    assert_eq!(root_upsert(Some(4), 9), (4, WikiEventType::Updated, true));
    assert_eq!(root_upsert(None, 9), (9, WikiEventType::Created, false));

    let existing = Some((3u128, "h1".to_owned()));
    assert_eq!(index_decision(&existing, "h1", 5, false, 6), (3, None));
    assert_eq!(index_decision(&existing, "h2", 5, false, 6), (3, Some(WikiEventType::Updated)));
    assert_eq!(index_decision(&None, "h", 5, false, 6), (5, Some(WikiEventType::Created)));
    assert_eq!(index_decision(&None, "h", 5, true, 6), (6, Some(WikiEventType::Created)));
}

#[test]
fn new_page_paths() {
    assert_eq!(normalize_rel_path("  \\notes\\todo "), Ok("notes/todo.md".to_owned()));
    assert_eq!(normalize_rel_path("/A.MD"), Ok("A.MD".to_owned()));
    assert_eq!(normalize_rel_path("//"), Err(Error::Message("rel_path is required".into())));
    assert_eq!(
        normalize_rel_path("../x"),
        Err(Error::Message("rel_path must not contain '..'".into()))
    );
}

#[test]
fn output_helpers() {
    assert_eq!(csv_escape("a,b"), "\"a,b\"");
    assert_eq!(csv_escape("say \"hi\""), "\"say \"\"hi\"\"\"");
    assert_eq!(csv_escape("line\rend"), "\"line\rend\"");
    assert_eq!(csv_escape_wiki("line\rend"), "line\rend");
    assert_eq!(csv_escape("plain"), "plain");
    assert_eq!(truncate("abcdef", 4), "abc\u{2026}");
    assert_eq!(truncate("abc", 3), "abc");
    assert_eq!(trim_edges("\u{2026} around \u{2026}"), "around");
    assert_eq!(shell_quote(""), "''");
    assert_eq!(shell_quote("a/b-c.d"), "a/b-c.d");
    assert_eq!(shell_quote("it's"), "'it'\\''s'");
}

#[test]
fn changes_touch_roots_by_whole_components() {
    let roots = vec![
        WatchedRoot { id: 1, enabled: true, path: "/home/a/wiki".into() },
        WatchedRoot { id: 2, enabled: true, path: "/home/a/wiki2".into() },
        WatchedRoot { id: 3, enabled: false, path: "/home/a/wiki".into() },
        WatchedRoot { id: 4, enabled: true, path: "/home/b/notes/deep".into() },
    ];
    let dirty = vec!["/home/a/wiki/page.md".to_owned(), "/home/b/notes".to_owned()];
    assert_eq!(touched_roots(&roots, &dirty), vec![1, 4]);
    assert_eq!(touched_roots(&roots, &Vec::new()), Vec::<u128>::new());
}

#[test]
fn listener_needs_a_token_when_enabled() {
    let off = PeerSyncSettings { enabled: false, bind: "0.0.0.0:7421".into(), token: String::new() };
    assert_eq!(listener_should_start(&off), Ok(false));
    let blank = PeerSyncSettings { enabled: true, bind: "0.0.0.0:7421".into(), token: "  ".into() };
    assert_eq!(listener_should_start(&blank), Err(Error::Message("peer sync token is required".into())));
    let on = PeerSyncSettings { enabled: true, bind: "0.0.0.0:7421".into(), token: "t".into() };
    assert_eq!(listener_should_start(&on), Ok(true));
}

#[test]
fn index_walk_skips_hidden_and_node_modules() {
    assert!(!indexable_entry(".git", true));
    assert!(!indexable_entry(".draft.md", false));
    assert!(!indexable_entry("node_modules", true));
    assert!(indexable_entry("node_modules", false));
    assert!(indexable_entry("notes", true));
}

#[test]
fn pages_not_seen_are_missing() {
    let pages = vec![(1u128, "a.md".to_owned()), (2, "b.md".to_owned()), (3, "c/d.md".to_owned())];
    let seen = vec!["c/d.md".to_owned(), "a.md".to_owned()];
    assert_eq!(missing_pages(&pages, &seen), vec![2]);
    assert_eq!(missing_pages(&pages, &Vec::new()), vec![1, 2, 3]);
}

#[test]
fn serve_settings_fall_back_to_stored_values() {
    let stored = PeerSyncSettings { enabled: true, bind: String::new(), token: "saved".into() };
    assert_eq!(serve_settings(None, None, &stored), ("0.0.0.0:7421".to_owned(), Some("saved".to_owned())));
    assert_eq!(
        serve_settings(Some("127.0.0.1:9".into()), Some(String::new()), &stored),
        ("127.0.0.1:9".to_owned(), Some("saved".to_owned()))
    );
    let empty = PeerSyncSettings { enabled: false, bind: "1.2.3.4:5".into(), token: String::new() };
    assert_eq!(serve_settings(None, Some("t".into()), &empty), ("1.2.3.4:5".to_owned(), Some("t".to_owned())));
    assert_eq!(serve_settings(None, None, &empty), ("1.2.3.4:5".to_owned(), None));
}

fn wire_event(seq: i64) -> SyncEventEnvelope {
    SyncEventEnvelope {
        id: seq as u128,
        task_id: 1,
        event_type: TaskEventType::Created,
        payload: "{}".into(),
        task: PayloadTask::Missing,
        origin: "peer".into(),
        created_at: 0,
        seq,
    }
}

fn log_event(seq: i64) -> TaskEvent {
    TaskEvent {
        seq,
        id: seq as u128,
        task_id: 1,
        event_type: TaskEventType::Created,
        payload: EventPayload::Received { json: "{}".into() },
        origin: "local".into(),
        created_at: 0,
    }
}

#[test]
fn cursors_move_to_the_greatest_sequence_seen() {
    assert_eq!(pulled_cursor(5, &vec![wire_event(7), wire_event(9), wire_event(8)]), 9);
    assert_eq!(pulled_cursor(12, &vec![wire_event(7)]), 12);
    assert_eq!(pulled_cursor(3, &Vec::new()), 3);
    let a = log_event(4);
    let b = log_event(6);
    assert_eq!(pushed_ack(2, &vec![&a, &b]), 6);
    assert_eq!(pushed_ack(10, &vec![&a]), 10);
}

#[test]
fn settings_defaults_and_normalization() {
    let s = default_settings();
    assert!(s.lane_visibility.inactive && s.lane_visibility.active && !s.lane_visibility.complete);
    assert!(!s.syncthing.is_configured());
    assert!(!s.peer_sync.enabled);
    let st = SyncthingSettings { address: "  ".into(), api_key: "secret".into() }.normalized();
    assert!(st.is_configured());
    assert_eq!(st.address, "http://127.0.0.1:8384");
    assert_eq!(st.api_key, "secret");
    let ps = PeerSyncSettings { enabled: true, bind: " 10.0.0.2:7421 ".into(), token: "t".into() }.normalized();
    assert_eq!(ps.bind, "10.0.0.2:7421");
}

fn cursor(id: &str, enabled: bool, pulled: i64, ack: i64) -> PeerCursor {
    PeerCursor { peer_device_id: id.into(), enabled, last_pulled_seq: pulled, last_push_ack: ack }
}

#[test]
fn sync_round_visits_enabled_peers_pull_then_push() {
    let mut round = SyncRound {
        peers: vec![cursor("a", true, 4, 9), cursor("b", false, 0, 0), cursor("c", true, 7, 1)],
        at: 0,
        pulled: None,
        results: Vec::new(),
    };
    assert_eq!(sync_round_step(&mut round, RoundEvent::Begin), RoundAction::Pull { peer: 0, after_seq: 4 });
    assert_eq!(sync_round_step(&mut round, RoundEvent::Pushed(Ok(1))), RoundAction::Finish);
    assert_eq!(round.results.len(), 0);
    assert_eq!(
        sync_round_step(&mut round, RoundEvent::Pulled(Ok((2, 1)))),
        RoundAction::Push { peer: 0, after_seq: 9 }
    );
    assert_eq!(sync_round_step(&mut round, RoundEvent::Pushed(Ok(3))), RoundAction::Pull { peer: 2, after_seq: 7 });
    assert_eq!(sync_round_step(&mut round, RoundEvent::Pulled(Err("down".into()))), RoundAction::Finish);
    assert_eq!(round.results.len(), 2);
    let a = &round.results[0];
    assert_eq!((a.peer_device_id.as_str(), a.pulled, a.skipped, a.pushed, a.error.clone()), ("a", 2, 1, 3, None));
    let c = &round.results[1];
    assert_eq!((c.peer_device_id.as_str(), c.pushed, c.error.as_deref()), ("c", 0, Some("down")));

    let mut none = SyncRound { peers: vec![cursor("x", false, 0, 0)], at: 0, pulled: None, results: Vec::new() };
    assert_eq!(sync_round_step(&mut none, RoundEvent::Begin), RoundAction::Finish);
}

fn release(v: &str) -> LatestReleaseInfo {
    LatestReleaseInfo { version: v.into(), notes: None, pub_date: None }
}

#[test]
fn fetch_failures_follow_the_install_kind() {
    assert_eq!(github_fetch(InstallKind::Aur, true), GithubFetch::Skip);
    assert_eq!(github_fetch(InstallKind::Aur, false), GithubFetch::Required);
    assert_eq!(github_fetch(InstallKind::Unknown, false), GithubFetch::Optional);
    assert_eq!(github_fetch(InstallKind::Deb, false), GithubFetch::Required);

    let aur_failed = channel_from_fetches(InstallKind::Aur, Err("AUR RPC request failed".into()), None);
    assert_eq!(aur_failed.unwrap_err(), "AUR RPC request failed");
    let gh_failed = channel_from_fetches(InstallKind::Deb, Ok(None), Some(Err("latest.json request failed".into())));
    assert_eq!(gh_failed.unwrap_err(), "latest.json request failed");
    let unknown = channel_from_fetches(InstallKind::Unknown, Ok(None), Some(Err("offline".into()))).unwrap();
    assert_eq!(unknown.channel, "unknown");
    assert!(unknown.latest.is_none());

    let aur = channel_from_fetches(InstallKind::Aur, Ok(Some(aur_package_info("jade-desktop-bin".into(), "0.3.0-2".into()))), None).unwrap();
    assert_eq!(aur.channel, "aur:jade-desktop-bin");
    assert_eq!(aur.latest.as_deref(), Some("0.3.0"));
    let deb = channel_from_fetches(InstallKind::Deb, Ok(None), Some(Ok(release("0.4.0")))).unwrap();
    assert_eq!(deb.channel, "deb");
    assert_eq!(deb.latest.as_deref(), Some("0.4.0"));
}
