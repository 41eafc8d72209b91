use jade_core::wiki::search::{classify_match, rank_hits, recent_hit, search_plan, SearchPlan, WikiMatchKind};
use jade_core::help::extract_help_path;
use jade_core::help_topics::lookup;
use jade_core::wiki::frontmatter::{
    coerce_front_matter_value, coerce_id_field, frame_markdown, header_decode_issue, yaml_syntax_issue, coerce_list_field, coerce_mapping, coerce_string_field, empty_front_matter, ensure_identity,
    first_heading, preview_scalar, repair_markdown_front_matter, repair_parsed, resolve_date_added, resolve_title,
    split_front_matter, CoerceAction, FrontMatterIssue, ParsedMarkdown, RepairPlan,
    WikiFrontMatterIssueKind, YamlValue,
};
use jade_core::wiki::syncthing::{any_found, detect_stfolder_marker, status_for_path, stfolder_candidates, stfolder_probes, FolderListing, SyncthingFolder};
use jade_core::wiki::parse::{front_matter_of, header_key, index_read, parse_markdown, render_markdown, HeaderKey};
use jade_core::wiki::index::root_path_input;
use jade_core::wiki::types::{WikiEntityType, WikiEventType};
use jade_core::wiki::watch::{is_markdown, WikiWatchState};

fn topic(args: &[&str]) -> Option<&'static str> {
    let args: Vec<String> = args.iter().map(|s| (*s).to_owned()).collect();
    let path = extract_help_path(&args)?;
    lookup(&path.join(" "))
}

#[test]
fn help_root_and_nested_topics() {
    assert!(topic(&["help"]).unwrap().contains("FEATURES"));
    let status = topic(&["tasks", "update", "status", "help"]).unwrap();
    assert!(status.contains("ALLOWED VALUES"));
    assert!(status.contains("inactive"));
    assert!(topic(&["help", "tasks", "add"]).unwrap().contains("jade tasks add"));
}

#[test]
fn resolve_date_added_prefers_date_added() {
    let mut fm = empty_front_matter();
    fm.date_added = Some("2026-08-27".into());
    fm.date = Some("2026-01-01".into());
    assert_eq!(resolve_date_added(Some(&fm)).as_deref(), Some("2026-08-27"));
}

#[test]
fn ensure_identity_fills_id() {
    let mut fm = empty_front_matter();
    ensure_identity(&mut fm, Some("From Hint"));
    assert!(fm.id.is_some());
    assert_eq!(fm.title.as_deref(), Some("From Hint"));
}

#[test]
fn split_without_front_matter() {
    let split = split_front_matter("# Hello\r\n\r\nWorld");
    assert!(split.yaml.is_none());
    assert_eq!(split.body, "# Hello\n\nWorld");
}

#[test]
fn split_with_front_matter_and_bom() {
    let split = split_front_matter("\u{feff}---\ntitle: Note\n---\n# Note\n\nBody\n");
    assert_eq!(split.yaml.as_deref(), Some("title: Note"));
    assert_eq!(split.body, "# Note\n\nBody\n");

    let unclosed = split_front_matter("---\ntitle: x\nno close");
    assert!(unclosed.yaml.is_none());
    assert_eq!(unclosed.body, "---\ntitle: x\nno close");
}

#[test]
fn string_references_wrap_as_list() {
    let value = YamlValue::Str("https://github.com/KnockOutEZ/wigolo".into());
    match coerce_list_field("references", &value) {
        CoerceAction::Replace(YamlValue::Sequence(items), issue) => {
            assert_eq!(items.len(), 1);
            assert!(matches!(&items[0], YamlValue::Str(s) if s == "https://github.com/KnockOutEZ/wigolo"));
            assert_eq!(issue.kind, WikiFrontMatterIssueKind::StringAsList);
            assert_eq!(issue.field.as_deref(), Some("references"));
            assert!(issue.repairable);
            assert_eq!(
                issue.message,
                "`references` is a single value (\"https://github.com/KnockOutEZ/wigolo\"), but Jade expects a list. It can be wrapped as a one-item list."
            );
        }
        other => panic!("unexpected {other:?}"),
    }
}

#[test]
fn list_items_are_normalized() {
    let items = vec![
        YamlValue::Str("a".into()),
        YamlValue::Number("3".into()),
        YamlValue::Mapping(vec![]),
        YamlValue::Bool(true),
    ];
    match coerce_list_field("tags", &YamlValue::Sequence(items)) {
        CoerceAction::Replace(YamlValue::Sequence(next), issue) => {
            let texts: Vec<String> = next
                .iter()
                .map(|v| match v {
                    YamlValue::Str(s) => s.clone(),
                    _ => panic!("not a string"),
                })
                .collect();
            assert_eq!(texts, vec!["a", "3", "true"]);
            assert_eq!(issue.kind, WikiFrontMatterIssueKind::ScalarAsString);
            assert_eq!(
                issue.message,
                "`tags` has 1 value(s) that aren't text. Jade can keep the text items and drop the rest."
            );
        }
        other => panic!("unexpected {other:?}"),
    }
    let clean = vec![YamlValue::Str("a".into())];
    assert!(matches!(coerce_list_field("tags", &YamlValue::Sequence(clean)), CoerceAction::Unchanged));
}

#[test]
fn scalar_fields_and_ids() {
    assert!(matches!(coerce_string_field("title", &YamlValue::Str("x".into())), CoerceAction::Unchanged));
    match coerce_string_field("date", &YamlValue::Number("2026".into())) {
        CoerceAction::Replace(YamlValue::Str(s), issue) => {
            assert_eq!(s, "2026");
            assert_eq!(issue.message, "`date` is the number 2026. Jade can store it as text.");
        }
        other => panic!("unexpected {other:?}"),
    }
    match coerce_string_field("author", &YamlValue::Sequence(vec![])) {
        CoerceAction::Remove(issue) => {
            assert_eq!(issue.kind, WikiFrontMatterIssueKind::UnsupportedType);
            assert_eq!(issue.repair_label.as_deref(), Some("Remove `author`"));
        }
        other => panic!("unexpected {other:?}"),
    }
    let good = YamlValue::Str(" 11111111-1111-1111-1111-111111111111 ".into());
    assert!(matches!(coerce_id_field(&good), CoerceAction::Unchanged));
    match coerce_id_field(&YamlValue::Str("abc".into())) {
        CoerceAction::Remove(issue) => {
            assert_eq!(issue.kind, WikiFrontMatterIssueKind::InvalidId);
            assert_eq!(
                issue.message,
                "`id` is \"abc\", which is not a UUID. Jade can drop it and assign a new one."
            );
        }
        other => panic!("unexpected {other:?}"),
    }
    match coerce_id_field(&YamlValue::Mapping(vec![])) {
        CoerceAction::Remove(issue) => assert!(issue.message.starts_with("`id` is a mapping,")),
        other => panic!("unexpected {other:?}"),
    }
}

#[test]
fn previews_are_cut_at_sixty_four() {
    assert_eq!(preview_scalar("abc"), "\"abc\"");
    let long = "x".repeat(70);
    let p = preview_scalar(&long);
    assert_eq!(p, format!("\"{}…\"", "x".repeat(63)));
}

#[test]
fn titles_and_headings() {
    assert_eq!(first_heading("intro\n  # Title  \nmore").as_deref(), Some("Title"));
    assert_eq!(first_heading("#NoSpace\n#   \n").as_deref(), None);
    let mut fm = empty_front_matter();
    fm.title = Some("  ".into());
    assert_eq!(resolve_title(Some(&fm), "# Heading\n", "stem"), "Heading");
    assert_eq!(resolve_title(None, "plain", "stem"), "stem");
}

#[test]
fn repair_plans() {
    let keep = repair_parsed(
        ParsedMarkdown { front_matter: None, body: "b".into(), had_front_matter: false, issues: vec![] },
        "a\r\nb",
    )
    .unwrap();
    assert!(matches!(keep, RepairPlan::Keep(t) if t == "a\nb"));

    let issue = FrontMatterIssue {
        kind: WikiFrontMatterIssueKind::ReadFailed,
        field: None,
        message: "x".into(),
        line: None,
        column: None,
        repairable: false,
        repair_label: None,
    };
    let refused = repair_parsed(
        ParsedMarkdown { front_matter: None, body: "b".into(), had_front_matter: true, issues: vec![issue.clone()] },
        "raw",
    );
    assert!(refused.is_err());

    let mut fixable = issue;
    fixable.repairable = true;
    let plan = repair_parsed(
        ParsedMarkdown {
            front_matter: None,
            body: "# Still here\n\nBody\n".into(),
            had_front_matter: true,
            issues: vec![fixable],
        },
        "raw",
    )
    .unwrap();
    match plan {
        RepairPlan::Rewrite { front_matter, body } => {
            assert!(front_matter.id.is_some());
            assert_eq!(front_matter.title.as_deref(), Some("Still here"));
            assert!(body.contains("Still here"));
        }
        other => panic!("unexpected {other:?}"),
    }
}

#[test]
fn entity_and_event_types() {
    assert_eq!(WikiEntityType::parse("page").unwrap(), WikiEntityType::Page);
    assert_eq!(WikiEntityType::Root.as_str(), "root");
    assert!(WikiEntityType::parse("x").is_err());
    assert_eq!(WikiEventType::parse("deleted").unwrap(), WikiEventType::Deleted);
    assert!(WikiEventType::parse("moved").is_err());
}

fn folder(path: &str) -> SyncthingFolder {
    SyncthingFolder { id: path.into(), label: path.into(), path: path.into(), paused: false }
}

#[test]
fn syncthing_status_picks_longest_folder() {
    let listing = FolderListing::Listed(vec![
        (folder("/home/a"), true),
        (folder("/home/a/notes"), true),
        (folder("/other"), false),
    ]);
    let status = status_for_path(false, &listing);
    assert!(status.under_syncthing);
    assert_eq!(status.folder.unwrap().path, "/home/a/notes");

    let failed = status_for_path(true, &FolderListing::Failed("down".into()));
    assert!(failed.under_syncthing);
    assert_eq!(failed.error.as_deref(), Some("down"));

    let none = status_for_path(false, &FolderListing::NotConfigured);
    assert!(!none.under_syncthing);
}

#[test]
fn watcher_flags_and_markdown_files() {
    let mut w = WikiWatchState::new();
    assert!(!w.take_restart());
    w.request_restart();
    assert!(w.take_restart());
    assert!(!w.take_restart());
    w.stop();
    assert!(w.stop);
    assert!(is_markdown("notes/a.md"));
    assert!(is_markdown("notes/B.MD"));
    assert!(!is_markdown("notes/a.txt"));
    assert!(!is_markdown(".md"));
}

fn key(s: &str) -> YamlValue {
    YamlValue::Str(s.to_owned())
}

fn str_of(v: &YamlValue) -> Option<&str> {
    match v {
        YamlValue::Str(s) => Some(s.as_str()),
        _ => None,
    }
}

fn entry<'a>(m: &'a [(YamlValue, YamlValue)], k: &str) -> Option<&'a YamlValue> {
    m.iter().find(|(key, _)| str_of(key) == Some(k)).map(|(_, v)| v)
}

#[test]
fn parse_without_front_matter() {
    let parsed = parse_markdown("# Hello\n\nWorld");
    assert!(!parsed.had_front_matter);
    assert!(parsed.front_matter.is_none());
    assert!(parsed.issues.is_empty());
    assert!(parsed.body.contains("Hello"));
}

#[test]
fn parse_and_roundtrip() {
    let raw = "---\nid: 11111111-1111-1111-1111-111111111111\ntitle: Note\ntags:\n  - a\n  - b\n---\n# Note\n\nBody\n";
    let parsed = parse_markdown(raw);
    assert!(parsed.had_front_matter);
    assert!(parsed.issues.is_empty());
    let fm = parsed.front_matter.unwrap();
    assert_eq!(fm.title.as_deref(), Some("Note"));
    assert_eq!(fm.tags, vec!["a".to_owned(), "b".to_owned()]);
    assert!(parsed.body.starts_with("# Note"));

    let rendered = render_markdown(fm, &parsed.body).unwrap();
    let again = parse_markdown(&rendered);
    assert_eq!(again.front_matter.unwrap().title.as_deref(), Some("Note"));
}

#[test]
fn string_references_are_coerced_and_flagged() {
    let raw =
        "---\ntitle: Wigolo\nreferences: https://github.com/KnockOutEZ/wigolo\n---\n# Wigolo\n";
    let parsed = parse_markdown(raw);
    let fm = parsed.front_matter.expect("coerced front matter");
    assert_eq!(
        fm.references,
        vec!["https://github.com/KnockOutEZ/wigolo".to_owned()]
    );
    assert_eq!(parsed.issues.len(), 1);
    assert_eq!(
        parsed.issues[0].kind,
        WikiFrontMatterIssueKind::StringAsList
    );
    assert_eq!(parsed.issues[0].field.as_deref(), Some("references"));
    assert!(parsed.issues[0].repairable);
}

#[test]
fn string_tags_are_coerced() {
    let raw = "---\ntags: rust\n---\nBody\n";
    let parsed = parse_markdown(raw);
    assert_eq!(parsed.front_matter.unwrap().tags, vec!["rust".to_owned()]);
    assert_eq!(
        parsed.issues[0].kind,
        WikiFrontMatterIssueKind::StringAsList
    );
}

#[test]
fn invalid_yaml_keeps_body_and_is_repairable() {
    let raw = "---\ntitle: [unterminated\n---\n# Still here\n\nBody\n";
    let parsed = parse_markdown(raw);
    assert!(parsed.front_matter.is_none());
    assert!(parsed.body.starts_with("# Still here"));
    assert_eq!(parsed.issues[0].kind, WikiFrontMatterIssueKind::InvalidYaml);
    assert!(parsed.issues[0].repairable);

    let repaired = repair_markdown_front_matter(raw).unwrap();
    let again = parse_markdown(&repaired);
    assert!(again.issues.is_empty());
    assert!(again.front_matter.unwrap().id.is_some());
    assert!(again.body.contains("Still here"));
}

#[test]
fn repair_wraps_string_references() {
    let raw = "---\ntitle: Wigolo\nreferences: https://github.com/KnockOutEZ/wigolo\n---\n# Wigolo\n\nNotes.\n";
    let repaired = repair_markdown_front_matter(raw).unwrap();
    let parsed = parse_markdown(&repaired);
    assert!(parsed.issues.is_empty());
    assert_eq!(
        parsed.front_matter.unwrap().references,
        vec!["https://github.com/KnockOutEZ/wigolo".to_owned()]
    );
    assert!(repaired.contains("references:\n"));
    assert!(repaired.contains("- https://github.com/KnockOutEZ/wigolo"));
}

#[test]
fn string_references_coerce_in_place() {
    let mut value = YamlValue::Mapping(vec![
        (key("title"), key("Wigolo")),
        (key("references"), key("https://github.com/KnockOutEZ/wigolo")),
    ]);
    let issues = coerce_front_matter_value(&mut value);
    let YamlValue::Mapping(m) = &value else { panic!("still a mapping") };
    match entry(m, "references") {
        Some(YamlValue::Sequence(items)) => {
            assert_eq!(items.len(), 1);
            assert_eq!(str_of(&items[0]), Some("https://github.com/KnockOutEZ/wigolo"));
        }
        other => panic!("unexpected {other:?}"),
    }
    assert_eq!(issues.len(), 1);
    assert_eq!(issues[0].kind, WikiFrontMatterIssueKind::StringAsList);
}

#[test]
fn coerce_mapping_orders_issues_and_removes_bad_fields() {
    // `id` first in the document, but coerced last; the number title becomes text;
    // the mapping-valued `summary` is removed, the last entry taking its place.
    let mut m = vec![
        (key("id"), key("not-a-uuid")),
        (key("summary"), YamlValue::Mapping(vec![])),
        (key("title"), YamlValue::Number("42".into())),
        (key("extra"), YamlValue::Bool(true)),
    ];
    let issues = coerce_mapping(&mut m);
    let fields: Vec<&str> = issues.iter().map(|i| i.field.as_deref().unwrap()).collect();
    assert_eq!(fields, vec!["title", "summary", "id"]);
    assert_eq!(issues[0].kind, WikiFrontMatterIssueKind::ScalarAsString);
    assert_eq!(issues[1].kind, WikiFrontMatterIssueKind::UnsupportedType);
    assert_eq!(issues[2].kind, WikiFrontMatterIssueKind::InvalidId);
    assert_eq!(m.len(), 2);
    assert_eq!(str_of(&m[0].0), Some("title"));
    assert_eq!(str_of(&m[0].1), Some("42"));
    assert_eq!(str_of(&m[1].0), Some("extra"));
}

#[test]
fn coerce_mapping_leaves_a_clean_header() {
    let mut m = vec![
        (key("id"), key("11111111-1111-1111-1111-111111111111")),
        (key("title"), key("Note")),
        (key("tags"), YamlValue::Sequence(vec![key("a"), key("b")])),
    ];
    let issues = coerce_mapping(&mut m);
    assert!(issues.is_empty());
    assert_eq!(m.len(), 3);
    assert_eq!(str_of(&m[1].1), Some("Note"));
}

#[test]
fn non_mapping_header_is_one_repairable_issue() {
    let mut value = YamlValue::Sequence(vec![key("a")]);
    let issues = coerce_front_matter_value(&mut value);
    assert!(matches!(value, YamlValue::Sequence(_)));
    assert_eq!(issues.len(), 1);
    assert_eq!(issues[0].kind, WikiFrontMatterIssueKind::InvalidYaml);
    assert!(issues[0].field.is_none());
    assert_eq!(
        issues[0].message,
        "Front matter must be a YAML mapping, not a list. Jade can replace it with a fresh header and keep the article body."
    );
    assert_eq!(issues[0].repair_label.as_deref(), Some("Replace with a fresh header"));
}

#[test]
fn header_issues_report_lines_from_one() {
    let issue = yaml_syntax_issue("did not find expected node content", Some((0, 7)));
    assert_eq!(issue.kind, WikiFrontMatterIssueKind::InvalidYaml);
    assert_eq!(issue.line, Some(1));
    assert_eq!(issue.column, Some(7));
    assert_eq!(
        issue.message,
        "The YAML header isn't valid YAML (did not find expected node content). Jade can replace it with a fresh header and keep the article body."
    );
    assert!(issue.repairable);
    let decode = header_decode_issue("id: invalid UUID", None);
    assert_eq!(decode.kind, WikiFrontMatterIssueKind::UnsupportedType);
    assert_eq!((decode.line, decode.column), (None, None));
    assert_eq!(
        decode.message,
        "Jade couldn't use this YAML header: id: invalid UUID. A fresh header can be written; the article body is kept."
    );
    assert_eq!(yaml_syntax_issue("x", Some((usize::MAX, 0))).line, Some(usize::MAX));
}

#[test]
fn body_match_snippet_strips_markdown_around_match() {
    let body = "See **important** [UniqueSnippetTarget](https://example.test/path) in notes.\n";
    let (kind, snippet) = classify_match("UniqueSnippetTarget", "Fmt", "fmt.md", "", body);
    assert_eq!(kind, WikiMatchKind::BodyExact);
    let snippet = snippet.expect("snippet");
    assert_eq!(snippet.matched, "UniqueSnippetTarget");
    assert!(!snippet.before.contains("**"));
    assert!(!snippet.after.contains("https://"));
    assert!(snippet.before.contains("important") || snippet.before.contains("See"));
}

#[test]
fn title_only_match_is_title_exact() {
    let (kind, snippet) = classify_match("UniqueTitleOnly", "UniqueTitleOnly", "beta.md", "", "# Heading\n\nNothing relevant.\n");
    assert_eq!(kind, WikiMatchKind::TitleExact);
    assert!(snippet.is_none());
}

#[test]
fn markdown_header_is_read_and_decoded() {
    let doc = "---\ntitle: Hello\ntags: [a, b]\nid: 6f1c2a4e-8d3b-4c5a-9e7f-0a1b2c3d4e5f\nextra: 1\n---\n# Heading\nBody text\n";
    let parsed = parse_markdown(doc);
    assert!(parsed.had_front_matter);
    assert!(parsed.issues.is_empty());
    let fm = parsed.front_matter.expect("header");
    assert_eq!(fm.title.as_deref(), Some("Hello"));
    assert_eq!(fm.tags, vec!["a".to_owned(), "b".to_owned()]);
    assert_eq!(fm.id, Some(0x6f1c2a4e_8d3b_4c5a_9e7f_0a1b2c3d4e5f));
    assert_eq!(fm.extra.len(), 1);
    assert_eq!(parsed.body, "# Heading\nBody text\n");
}

#[test]
fn markdown_without_header_and_with_blank_header() {
    let plain = parse_markdown("just text");
    assert!(!plain.had_front_matter);
    assert!(plain.front_matter.is_none());
    assert_eq!(plain.body, "just text");

    let blank = parse_markdown("---\n\n---\nbody");
    assert!(blank.had_front_matter);
    assert!(blank.issues.is_empty());
    assert!(blank.front_matter.expect("empty header").title.is_none());
}

#[test]
fn invalid_yaml_and_bad_id_are_issues() {
    let broken = parse_markdown("---\ntitle: [unclosed\n---\nbody");
    assert!(broken.front_matter.is_none());
    assert_eq!(broken.issues.len(), 1);
    assert_eq!(broken.issues[0].kind, WikiFrontMatterIssueKind::InvalidYaml);

    let not_map = parse_markdown("---\n- a\n- b\n---\nbody");
    assert!(not_map.front_matter.is_none());
    assert_eq!(not_map.issues.len(), 1);
    assert_eq!(not_map.issues[0].kind, WikiFrontMatterIssueKind::InvalidYaml);
}

#[test]
fn header_decoding_takes_known_keys() {
    let entries = vec![
        (YamlValue::Str("title".into()), YamlValue::Str("First".into())),
        (YamlValue::Str("title".into()), YamlValue::Str("Second".into())),
        (YamlValue::Str("references".into()), YamlValue::Sequence(vec![YamlValue::Str("r1".into()), YamlValue::Null])),
        (YamlValue::Str("color".into()), YamlValue::Str("blue".into())),
    ];
    let fm = front_matter_of(entries).unwrap();
    assert_eq!(fm.title.as_deref(), Some("Second"));
    assert_eq!(fm.references, vec!["r1".to_owned()]);
    assert_eq!(fm.extra.len(), 1);
    assert_eq!(fm.extra[0].0, "color");

    let bad = front_matter_of(vec![(YamlValue::Str("id".into()), YamlValue::Str("nope".into()))]);
    assert_eq!(bad.unwrap_err(), "id: invalid UUID `nope`");
    let wrong = front_matter_of(vec![(YamlValue::Str("id".into()), YamlValue::Bool(true))]);
    assert_eq!(wrong.unwrap_err(), "id: invalid type");
    assert_eq!(header_key("date_added"), HeaderKey::DateAdded);
    assert_eq!(header_key("Title"), HeaderKey::Other);
}

#[test]
fn index_read_hashes_and_reads_the_page() {
    let read = index_read(b"hello", "stem", 7);
    assert_eq!(read.content_hash, "2cf24dba5fb0a30e26e83b2ac5b9e29e1b161e5c1fa7425e73043362938b9824");
    assert_eq!(read.title, "stem");
    assert_eq!(read.page_id, 7);
    assert!(read.tags.is_empty());

    let doc = "---\ntags: [x]\n---\n# Page\nSee [[Other]] and [[Alpha|a]].\n";
    let read = index_read(doc.as_bytes(), "file", 9);
    assert_eq!(read.title, "Page");
    assert_eq!(read.tags, vec!["x".to_owned()]);
    assert_eq!(read.links, vec!["Alpha".to_owned(), "Other".to_owned()]);
    assert_eq!(read.page_id, 9);
}

#[test]
fn repair_reads_the_document_itself() {
    let text = repair_markdown_front_matter("---\ntitle: [x\n---\n# Kept\n").unwrap();
    assert!(text.starts_with("---\nid: "));
    assert!(text.contains("title: Kept\n"));
    assert!(text.ends_with("---\n# Kept\n"));
    let keep = repair_markdown_front_matter("---\ntitle: Fine\n---\r\nbody").unwrap();
    assert_eq!(keep, "---\ntitle: Fine\n---\nbody");
    assert!(repair_plans_refuse_unrepairable());
}

fn repair_plans_refuse_unrepairable() -> bool {
    let issue = FrontMatterIssue {
        kind: WikiFrontMatterIssueKind::ReadFailed,
        field: None,
        message: "x".into(),
        line: None,
        column: None,
        repairable: false,
        repair_label: None,
    };
    repair_parsed(
        ParsedMarkdown { front_matter: None, body: "b".into(), had_front_matter: true, issues: vec![issue] },
        "raw",
    )
    .is_err()
}

#[test]
fn header_renders_in_field_order() {
    let mut fm = empty_front_matter();
    fm.id = Some(0x11111111_1111_1111_1111_111111111111);
    fm.title = Some("T".into());
    fm.references = vec!["r".into()];
    fm.extra = vec![("color".into(), YamlValue::Str("blue".into()))];
    let text = render_markdown(fm, "\n\nBody").unwrap();
    assert_eq!(text, "---\nid: 11111111-1111-1111-1111-111111111111\ntitle: T\nreferences:\n- r\ncolor: blue\n---\nBody");
}

#[test]
fn stfolder_search_walks_up_to_the_root() {
    let dirs = stfolder_candidates("/a/b");
    assert_eq!(dirs, vec!["/a/b".to_owned(), "/a".to_owned(), "/".to_owned()]);
    let probes = stfolder_probes(&dirs);
    assert_eq!(probes, vec!["/a/b/.stfolder".to_owned(), "/a/.stfolder".to_owned(), "/.stfolder".to_owned()]);
}

#[test]
fn root_paths_are_trimmed_and_required() {
    assert_eq!(root_path_input("  /notes  ").unwrap(), "/notes");
    assert!(root_path_input("   ").is_err());
}

#[test]
fn documents_are_framed_with_fences() {
    assert_eq!(frame_markdown("title: X\n\n", "\n\nBody"), "---\ntitle: X\n---\nBody");
    assert_eq!(frame_markdown("title: X\n", ""), "---\ntitle: X\n---\n");
}

#[test]
fn marker_found_when_any_probe_exists() {
    assert!(!any_found(&vec![]));
    assert!(!any_found(&vec![false, false]));
    assert!(any_found(&vec![false, true, false]));
}

#[test]
fn hits_rank_by_score_then_newest() {
    let scores = vec![5, 9, 5, 9];
    let mtimes = vec![
        "2026-01-02".to_owned(),
        "2026-01-01".to_owned(),
        "2026-03-01".to_owned(),
        "2026-01-01".to_owned(),
    ];
    assert_eq!(rank_hits(&scores, &mtimes), vec![1, 3, 2, 0]);
}

#[test]
fn queries_plan_recent_match_or_nothing() {
    assert!(matches!(search_plan("   "), SearchPlan::Recent));
    assert!(matches!(search_plan("  rust  "), SearchPlan::Match(_)));
    let (kind, reason, score) = recent_hit();
    assert_eq!(kind, WikiMatchKind::Recent.as_str());
    assert_eq!(reason, WikiMatchKind::Recent.label());
    assert_eq!(score, WikiMatchKind::Recent.rank_score());
}

#[test]
fn marker_absent_under_a_missing_tree() {
    assert!(!detect_stfolder_marker("/no/such/jade/tree/for/markers"));
}
