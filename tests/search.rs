use search_sessions::deep::{
    build_index_lookup, matches_all_terms, parse_rg_line, session_id_from_path,
    session_meta_from_header, SessionMetadata,
};
use search_sessions::deep_search::{search_deep_claude, search_deep_openclaw};
use search_sessions::extract::{
    extract_content_array, extract_text_claude, extract_text_openclaw, Schema,
};
use search_sessions::index_search::{rank_index_matches, search_index, LoadedIndex};
use search_sessions::dates::{format_date, format_stamp, DateStamp};
use search_sessions::json::Json;
use search_sessions::present::{
    collapse_whitespace, deep_match_label, format_project_path, prompt_preview, role_tag,
    shorten_home,
};
use search_sessions::query::{
    build_query, index_project_path, is_live_transcript, pick_project_dir, QueryError,
};
use search_sessions::scoring::{score_index_entry, IndexField, SessionIndexEntry};
use search_sessions::snippet::{ceil_char_boundary, floor_char_boundary, get_snippet};
use search_sessions::text::{contains_str, find_bytes, lex_less, truncate};

fn entry(id: &str, summary: &str, prompt: &str, branch: &str, path: &str, modified: &str) -> SessionIndexEntry {
    SessionIndexEntry {
        session_id: id.to_string(),
        first_prompt: prompt.to_string(),
        summary: summary.to_string(),
        message_count: 3,
        created: String::new(),
        modified: modified.to_string(),
        git_branch: branch.to_string(),
        project_path: path.to_string(),
    }
}

fn terms(words: &[&str]) -> Vec<String> {
    words.iter().map(|w| w.to_string()).collect()
}

fn lines(ls: &[&str]) -> Vec<String> {
    ls.iter().map(|l| l.to_string()).collect()
}

// ─── scoring ────────────────────────────────────────────────────────

#[test]
fn score_is_zero_when_a_term_matches_nothing() {
    let e = entry("s", "Kubernetes RBAC", "set up roles", "main", "/home/u/k8s", "");
    assert_eq!(score_index_entry(&e, &terms(&["kubernetes", "terraform"])), (0, None));
}

#[test]
fn score_sums_weights_of_all_matched_fields() {
    let e = entry("s", "Kubernetes RBAC", "rbac roles please", "rbac-branch", "/home/u/rbac", "");
    // rbac hits all four fields: 3 + 2 + 1 + 1
    assert_eq!(score_index_entry(&e, &terms(&["RBAC"])), (7, Some(IndexField::Summary)));
}

#[test]
fn two_terms_on_one_field_count_twice() {
    let e = entry("s", "Discussing Kubernetes RBAC configuration", "", "", "", "");
    assert_eq!(score_index_entry(&e, &terms(&["kubernetes", "rbac"])), (6, Some(IndexField::Summary)));
}

#[test]
fn best_field_prefers_branch_over_path_on_equal_weight() {
    let e = entry("s", "", "", "feature-x", "/src/alpha", "");
    assert_eq!(score_index_entry(&e, &terms(&["alpha", "feature"])), (2, Some(IndexField::GitBranch)));
    let e2 = entry("s", "", "deploy alpha", "", "/src/alpha", "");
    assert_eq!(score_index_entry(&e2, &terms(&["alpha"])), (3, Some(IndexField::FirstPrompt)));
}

#[test]
fn empty_term_list_scores_zero() {
    let e = entry("s", "x", "", "", "", "");
    assert_eq!(score_index_entry(&e, &[]), (0, None));
}

#[test]
fn field_names() {
    assert_eq!(IndexField::Summary.name(), "summary");
    assert_eq!(IndexField::FirstPrompt.name(), "firstPrompt");
    assert_eq!(IndexField::GitBranch.name(), "gitBranch");
    assert_eq!(IndexField::ProjectPath.name(), "projectPath");
}

// ─── index search ───────────────────────────────────────────────────

#[test]
fn equal_scores_rank_later_modification_first() {
    let ix = LoadedIndex {
        project_path: "/home/u/app".to_string(),
        entries: vec![
            entry("old", "deploy plan", "deploy now", "", "", "2024-01-01"),
            entry("new", "deploy plan", "deploy now", "", "", "2024-02-01"),
        ],
    };
    let r = search_index("deploy", None, &vec![ix]);
    assert_eq!(r.len(), 2);
    assert_eq!(r[0].score, 5);
    assert_eq!(r[1].score, 5);
    assert_eq!(r[0].session_id, "new");
    assert_eq!(r[1].session_id, "old");
}

#[test]
fn higher_score_ranks_first_and_misses_are_dropped() {
    let ix = LoadedIndex {
        project_path: "/home/u/app".to_string(),
        entries: vec![
            entry("a", "", "", "cache", "", "2024-05-01"),
            entry("b", "cache layer", "", "", "", "2024-01-01"),
            entry("c", "nothing here", "", "", "", "2024-09-01"),
        ],
    };
    let r = search_index("CACHE", None, &vec![ix]);
    let ids: Vec<&str> = r.iter().map(|m| m.session_id.as_str()).collect();
    assert_eq!(ids, vec!["b", "a"]);
    assert_eq!(r[0].matched_field, Some(IndexField::Summary));
    assert_eq!(r[1].matched_field, Some(IndexField::GitBranch));
}

#[test]
fn project_filter_skips_indexes_and_empty_paths_are_filled() {
    let a = LoadedIndex {
        project_path: "/work/Alpha".to_string(),
        entries: vec![entry("a1", "fix login", "", "", "", "")],
    };
    let b = LoadedIndex {
        project_path: "/work/beta".to_string(),
        entries: vec![entry("b1", "fix login", "", "", "/elsewhere", "")],
    };
    let r = search_index("login", Some("alpha"), &vec![a, b]);
    assert_eq!(r.len(), 1);
    assert_eq!(r[0].session_id, "a1");
    assert_eq!(r[0].project_path, "/work/Alpha");
}

#[test]
fn index_match_keeps_two_hundred_prompt_chars() {
    let long = "é".repeat(250);
    let ix = LoadedIndex {
        project_path: String::new(),
        entries: vec![entry("x", "topic", &long, "", "", "")],
    };
    let r = rank_index_matches(&vec![ix], &terms(&["topic"]), None);
    assert_eq!(r[0].first_prompt.chars().count(), 200);
}

// ─── text helpers ───────────────────────────────────────────────────

#[test]
fn truncate_counts_characters() {
    assert_eq!(truncate("héllo", 3), "hél");
    assert_eq!(truncate("abc", 10), "abc");
    assert_eq!(truncate("", 0), "");
}

#[test]
fn find_and_contains() {
    assert_eq!(find_bytes(b"abcabc", b"ca"), Some(2));
    assert_eq!(find_bytes(b"abc", b"x"), None);
    assert_eq!(find_bytes(b"abc", b""), Some(0));
    assert!(contains_str("hello world", "o w"));
    assert!(!contains_str("hello", "Hello"));
}

#[test]
fn bytewise_order() {
    assert!(lex_less("2024-01-01", "2024-02-01"));
    assert!(!lex_less("2024-02-01", "2024-01-01"));
    assert!(lex_less("", "a"));
    assert!(!lex_less("a", "a"));
}

#[test]
fn char_boundaries() {
    let s = "aé"; // 'é' takes bytes 1 and 2
    assert_eq!(floor_char_boundary(s, 2), 1);
    assert_eq!(ceil_char_boundary(s, 2), 3);
    assert_eq!(floor_char_boundary(s, 9), 3);
    assert_eq!(ceil_char_boundary(s, 0), 0);
}

// ─── snippets ───────────────────────────────────────────────────────

#[test]
fn snippet_windows_around_the_match() {
    let text = "0123456789 needle 0123456789";
    assert_eq!(get_snippet(text, "NEEDLE", 3), "...89 needle 01...");
    assert_eq!(get_snippet(text, "needle", 100), text);
}

#[test]
fn snippet_falls_back_to_first_term_found() {
    let text = "alpha beta gamma";
    assert_eq!(get_snippet(text, "zeta gamma", 2), "...a gamma");
}

#[test]
fn snippet_never_splits_multibyte_characters() {
    let text = "ééééé match ééééé";
    let s = get_snippet(text, "match", 3);
    assert_eq!(s, "...é match é...");
    for ctx in 0..12 {
        let s = get_snippet(text, "match", ctx);
        assert!(s.contains("match"));
        assert!(std::str::from_utf8(s.as_bytes()).is_ok());
    }
}

#[test]
fn snippet_without_match_is_a_plain_prefix() {
    let text = "x".repeat(300);
    let s = get_snippet(&text, "nothing here", 80);
    assert_eq!(s, "x".repeat(200));
    assert!(!s.starts_with("..."));
    assert_eq!(get_snippet("short", "zzz", 80), "short");
}

// ─── extraction ─────────────────────────────────────────────────────

#[test]
fn claude_record_text() {
    let rec = Json::parse(r#"{"type":"user","sessionId":"s1","message":{"content":[{"type":"text","text":"Discuss Kubernetes RBAC"}]}}"#).unwrap();
    let text = extract_text_claude(&rec);
    assert_eq!(text, "Discuss Kubernetes RBAC");
    let lowered = text.to_lowercase();
    assert!(matches_all_terms(&lowered, &terms(&["kubernetes", "rbac"])));
    assert!(!matches_all_terms(&lowered, &terms(&["kubernetes", "helm"])));
}

#[test]
fn content_blocks_join_with_spaces() {
    let c = Json::parse(r#"[{"type":"text","text":"one"},{"type":"image"},{"type":"tool_result","content":[{"a":1}]},{"text":"no type"},{"type":"text","text":"two"}]"#).unwrap();
    assert_eq!(extract_content_array(&c, Schema::Claude), r#"one [{"a":1}] two"#);
    assert_eq!(extract_content_array(&c, Schema::OpenClaw), "one two");
}

#[test]
fn content_of_other_shapes_is_its_json_text() {
    let s = Json::parse(r#""plain text""#).unwrap();
    assert_eq!(extract_content_array(&s, Schema::Claude), "plain text");
    let n = Json::parse("42").unwrap();
    assert_eq!(extract_content_array(&n, Schema::Claude), "42");
    let o = Json::parse(r#"{"k":"v"}"#).unwrap();
    assert_eq!(extract_content_array(&o, Schema::OpenClaw), r#"{"k":"v"}"#);
    assert_eq!(o.to_json_text(), r#"{"k":"v"}"#);
}

#[test]
fn missing_parts_give_empty_text() {
    let none = Json::parse(r#"{"type":"user"}"#).unwrap();
    assert_eq!(extract_text_claude(&none), "");
    let no_content = Json::parse(r#"{"message":{"role":"user"}}"#).unwrap();
    assert_eq!(extract_text_openclaw(&no_content), ("user".to_string(), String::new()));
    assert_eq!(extract_text_openclaw(&none), (String::new(), String::new()));
}

#[test]
fn openclaw_record_role_and_text() {
    let rec = Json::parse(r#"{"type":"message","message":{"role":"assistant","content":"security audit cron"}}"#).unwrap();
    assert_eq!(
        extract_text_openclaw(&rec),
        ("assistant".to_string(), "security audit cron".to_string())
    );
}

// ─── search output lines ────────────────────────────────────────────

#[test]
fn search_line_splits_at_first_two_colons() {
    let (path, rec) = parse_rg_line(r#"/p/s.jsonl:12:{"type":"user","t":"a:b"}"#).unwrap();
    assert_eq!(path, "/p/s.jsonl");
    assert_eq!(rec.get_str("t").unwrap(), "a:b");
    assert!(parse_rg_line("no colons").is_none());
    assert!(parse_rg_line("/p:1:not json").is_none());
}

#[test]
fn session_ids_from_paths() {
    assert_eq!(session_id_from_path("/a/b/abc-123.jsonl"), "abc-123");
    assert_eq!(session_id_from_path("x.tar.gz"), "x.tar");
    assert_eq!(session_id_from_path("/a/.hidden"), ".hidden");
    assert_eq!(session_id_from_path("/a/plain"), "plain");
}

// ─── deep search ────────────────────────────────────────────────────

#[test]
fn deep_search_caps_each_session_at_two() {
    let mut ls = Vec::new();
    for i in 0..5 {
        ls.push(format!(
            r#"/p/a.jsonl:{i}:{{"type":"user","sessionId":"s1","message":{{"content":"deploy step {i}"}}}}"#
        ));
    }
    ls.push(r#"/p/b.jsonl:1:{"type":"assistant","sessionId":"s2","message":{"content":"deploy done"}}"#.to_string());
    let lookup = build_index_lookup(&vec![]);
    let r = search_deep_claude(&ls, "deploy", 20, &lookup);
    let ids: Vec<&str> = r.iter().map(|m| m.session_id.as_str()).collect();
    assert_eq!(ids, vec!["s1", "s1", "s2"]);
    assert_eq!(r[0].snippet, "deploy step 0");
    assert_eq!(r[2].message_type, "assistant");
    assert_eq!(r[0].project_path, "unknown");
}

#[test]
fn deep_search_stops_at_the_limit() {
    let ls = lines(&[
        r#"/p/a.jsonl:1:{"type":"user","sessionId":"a","message":{"content":"kube"}}"#,
        r#"/p/b.jsonl:1:{"type":"user","sessionId":"b","message":{"content":"kube"}}"#,
        r#"/p/c.jsonl:1:{"type":"user","sessionId":"c","message":{"content":"kube"}}"#,
    ]);
    let r = search_deep_claude(&ls, "kube", 2, &build_index_lookup(&vec![]));
    assert_eq!(r.len(), 2);
}

#[test]
fn deep_search_claude_filters_and_enriches() {
    let ix = LoadedIndex {
        project_path: "/idx".to_string(),
        entries: vec![entry("s1", "RBAC talk", &"p".repeat(130), "", "/home/u/k8s", "")],
    };
    let lookup = build_index_lookup(&vec![ix]);
    let ls = lines(&[
        r#"/p/a.jsonl:1:{"type":"summary","sessionId":"s1","message":{"content":"Kubernetes RBAC"}}"#,
        r#"/p/a.jsonl:2:{"type":"user","sessionId":"s1","message":{"content":"Kubernetes only"}}"#,
        r#"/p/a.jsonl:3:{"type":"user","sessionId":"s1","timestamp":"2024-01-01","message":{"content":[{"type":"text","text":"Discuss Kubernetes RBAC"}]}}"#,
        r#"garbage line"#,
    ]);
    let r = search_deep_claude(&ls, "kubernetes rbac", 20, &lookup);
    assert_eq!(r.len(), 1);
    assert_eq!(r[0].snippet, "Discuss Kubernetes RBAC");
    assert_eq!(r[0].project_path, "/home/u/k8s");
    assert_eq!(r[0].timestamp, "2024-01-01");
    assert_eq!(r[0].summary.as_deref(), Some("RBAC talk"));
    assert_eq!(r[0].first_prompt.as_ref().unwrap().len(), 120);
}

#[test]
fn deep_search_openclaw_uses_header_metadata() {
    let header = r#"{"type":"session","id":"s2","cwd":"/home/user/app","timestamp":"2024-01-01T00:00:00Z"}"#;
    let meta = session_meta_from_header(header).unwrap();
    assert_eq!(meta.cwd, "/home/user/app");
    let mut sessions = SessionMetadata::new();
    sessions.insert(session_id_from_path("/s/s2.jsonl"), meta);
    let ls = lines(&[
        &format!("/s/s2.jsonl:1:{header}"),
        r#"/s/s2.jsonl:2:{"type":"message","message":{"role":"user","content":"security audit cron"}}"#,
        r#"/s/s2.jsonl:3:{"type":"message","message":{"role":"toolResult","content":"security audit"}}"#,
    ]);
    let r = search_deep_openclaw(&ls, "security audit", 20, &sessions);
    assert_eq!(r.len(), 1);
    assert_eq!(r[0].session_id, "s2");
    assert_eq!(r[0].project_path, "/home/user/app");
    assert_eq!(r[0].timestamp, "2024-01-01T00:00:00Z");
    assert_eq!(r[0].message_type, "user");
    assert_eq!(r[0].summary, None);
}

#[test]
fn openclaw_without_metadata_is_unknown() {
    let ls = lines(&[r#"/s/zz.jsonl:2:{"type":"message","timestamp":"t1","message":{"role":"assistant","content":"audit"}}"#]);
    let r = search_deep_openclaw(&ls, "audit", 20, &SessionMetadata::new());
    assert_eq!(r[0].project_path, "unknown");
    assert_eq!(r[0].timestamp, "t1");
}

#[test]
fn header_must_be_a_session_record() {
    assert!(session_meta_from_header(r#"{"type":"message"}"#).is_none());
    assert!(session_meta_from_header("not json").is_none());
    let m = session_meta_from_header(r#"{"type":"session"}"#).unwrap();
    assert_eq!(m.cwd, "");
    assert_eq!(m.timestamp, "");
}

#[test]
fn index_lookup_keeps_the_later_entry() {
    let a = LoadedIndex { project_path: String::new(), entries: vec![entry("s", "first", "", "", "", ""), entry("", "anon", "", "", "", "")] };
    let b = LoadedIndex { project_path: String::new(), entries: vec![entry("s", "second", "", "", "", "")] };
    let lookup = build_index_lookup(&vec![a, b]);
    assert_eq!(lookup.entries.len(), 2);
    assert_eq!(lookup.get("s").unwrap().summary, "second");
    assert!(lookup.get("").is_none());
}

// ─── query and storage decisions ────────────────────────────────────

#[test]
fn empty_query_is_refused() {
    assert_eq!(build_query(&vec![]), Err(QueryError::Empty));
    assert_eq!(build_query(&terms(&[""])), Err(QueryError::Empty));
    assert_eq!(build_query(&terms(&["kubernetes", "rbac"])), Ok("kubernetes rbac".to_string()));
    assert_eq!(build_query(&terms(&["", ""])), Ok(" ".to_string()));
}

#[test]
fn project_directory_choice() {
    let names = terms(&["-home-u-alpha", "-home-u-Beta", "-home-u-beta2"]);
    assert_eq!(pick_project_dir(&names, Some("BETA")), Some(1));
    assert_eq!(pick_project_dir(&names, Some("gamma")), None);
    assert_eq!(pick_project_dir(&names, None), None);
}

#[test]
fn index_project_path_falls_back_to_directory() {
    assert_eq!(index_project_path("", "-home-u-app"), "-home-u-app");
    assert_eq!(index_project_path("/home/u/app", "-home-u-app"), "/home/u/app");
}

#[test]
fn live_transcripts() {
    assert!(is_live_transcript("/s/abc.jsonl"));
    assert!(!is_live_transcript("/s/abc.deleted.2024.jsonl"));
    assert!(!is_live_transcript("/s/abc.json"));
    assert!(!is_live_transcript("/s/.jsonl"));
    assert!(!is_live_transcript("abc.jsonl.bak"));
}

// ─── presentation ───────────────────────────────────────────────────

#[test]
fn deep_labels() {
    let some = |s: &str| Some(s.to_string());
    assert_eq!(deep_match_label(&some("sum"), &some("prompt")), "sum");
    assert_eq!(deep_match_label(&some(""), &some("prompt")), "prompt");
    assert_eq!(deep_match_label(&None, &some("")), "(no summary)");
}

#[test]
fn role_tags() {
    assert_eq!(role_tag("user"), "USER");
    assert_eq!(role_tag("assistant"), "ASST");
}

#[test]
fn prompt_previews() {
    assert_eq!(prompt_preview("", Some(IndexField::Summary)), None);
    assert_eq!(prompt_preview("hello", Some(IndexField::FirstPrompt)), None);
    assert_eq!(prompt_preview("hello", Some(IndexField::Summary)), Some("hello".to_string()));
    let long = "a".repeat(150);
    assert_eq!(prompt_preview(&long, None), Some(format!("{}...", "a".repeat(100))));
}

#[test]
fn whitespace_collapses() {
    assert_eq!(collapse_whitespace("  a \n\t b  c "), "a b c");
    assert_eq!(collapse_whitespace("   "), "");
}

#[test]
fn dates_show_as_day_and_minute() {
    assert_eq!(format_date("2024-01-15T10:30:00Z"), "2024-01-15 10:30");
    assert_eq!(format_date("2024-01-15T10:30:59.123+05:00"), "2024-01-15 10:30");
    assert_eq!(format_date(""), "unknown");
    assert_eq!(format_date("not a date at all, really"), "not a date at al");
    assert_eq!(format_date("2024-02-01"), "2024-02-01");
}

#[test]
fn stamps_are_zero_padded() {
    let d = DateStamp { year: 7, month: 3, day: 9, hour: 0, minute: 5 };
    assert_eq!(format_stamp(d), "0007-03-09 00:05");
}

#[test]
fn home_is_written_as_tilde() {
    assert_eq!(shorten_home("/home/u/app", Some("/home/u")), "~/app");
    assert_eq!(shorten_home("/srv/app", Some("/home/u")), "/srv/app");
    assert_eq!(shorten_home("/home/u/app", None), "/home/u/app");
    assert_eq!(format_project_path("relative/path"), "relative/path");
}
