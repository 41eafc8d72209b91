use jade_core::help::extract_help_path;
use jade_core::install::{
    appimage_download_url, deb_download_url, is_arch_family_id, is_newer_version, strip_pkgrel,
};
use jade_core::wiki::links::extract_link_targets;
use jade_core::wiki::markdown::strip_markdown_for_display;
use jade_core::wiki::search::{build_fts_match_query, strip_snippet_part};

#[test]
fn trailing_help_path() {
    let args: Vec<String> = vec![
        "tasks".into(),
        "update".into(),
        "status".into(),
        "help".into(),
    ];
    assert_eq!(
        extract_help_path(&args),
        Some(vec!["tasks".into(), "update".into(), "status".into()])
    );
}

#[test]
fn leading_help_path() {
    let args: Vec<String> = vec!["help".into(), "tasks".into(), "add".into()];
    assert_eq!(
        extract_help_path(&args),
        Some(vec!["tasks".into(), "add".into()])
    );
}

#[test]
fn help_ignores_flags() {
    let args: Vec<String> = vec![
        "--db".into(),
        "x.db".into(),
        "tasks".into(),
        "list".into(),
        "help".into(),
    ];
    assert_eq!(
        extract_help_path(&args),
        Some(vec!["tasks".into(), "list".into()])
    );
}

#[test]
fn help_after_end_of_options() {
    let args: Vec<String> = vec!["--".into(), "help".into()];
    assert_eq!(extract_help_path(&args), Some(vec![]));

    let args: Vec<String> = vec!["--".into(), "tasks".into(), "add".into(), "help".into()];
    assert_eq!(
        extract_help_path(&args),
        Some(vec!["tasks".into(), "add".into()])
    );
}

#[test]
fn strip_pkgrel_removes_numeric_suffix() {
    assert_eq!(strip_pkgrel("0.1.1-1"), "0.1.1");
    assert_eq!(strip_pkgrel("0.2.0-3"), "0.2.0");
    assert_eq!(strip_pkgrel("0.1.1"), "0.1.1");
    assert_eq!(strip_pkgrel("1.0.0-beta.1"), "1.0.0-beta.1");
}

#[test]
fn newer_version_compares_semver() {
    assert!(is_newer_version("0.1.0", "0.1.1"));
    assert!(is_newer_version("v0.1.0", "0.2.0"));
    assert!(!is_newer_version("0.1.1", "0.1.1"));
    assert!(!is_newer_version("0.2.0", "0.1.9"));
}

#[test]
fn arch_family_detection() {
    assert!(is_arch_family_id("endeavouros"));
    assert!(is_arch_family_id("arch"));
    assert!(!is_arch_family_id("ubuntu"));
}

#[test]
fn asset_urls() {
    assert!(deb_download_url("0.2.2").ends_with("Jade_0.2.2_amd64.deb"));
    assert!(appimage_download_url("v0.2.2").contains("Jade_0.2.2_amd64.AppImage"));
}

#[test]
fn extracts_wiki_and_md_links() {
    let body = "See [[Other Page|label]] and [x](notes/a.md). Skip [web](https://example.com).";
    let links = extract_link_targets(body);
    assert!(links.contains(&"Other Page".to_owned()));
    assert!(links.contains(&"notes/a.md".to_owned()));
    assert!(!links.iter().any(|l| l.contains("example.com")));
}

#[test]
fn strip_markdown_for_display_cleans_common_markup() {
    assert_eq!(
        strip_markdown_for_display("see **bold** and [link](https://x.test) here"),
        "see bold and link here"
    );
    assert_eq!(
        strip_markdown_for_display("![diagram](./a.png) next"),
        "diagram next"
    );
    assert_eq!(
        strip_markdown_for_display("# Title\n`code` and snake_case"),
        "Title code and snake_case"
    );
    assert_eq!(strip_snippet_part("…**before** match"), "…before match");
}

#[test]
fn build_fts_query_escapes_and_prefixes() {
    assert_eq!(
        build_fts_match_query("hello world").as_deref(),
        Some("\"hello\"* \"world\"*")
    );
    assert!(build_fts_match_query("   ").is_none());
    assert_eq!(
        build_fts_match_query("foo\"bar").as_deref(),
        Some("\"foobar\"*")
    );
}
