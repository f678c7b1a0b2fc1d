use rustbuster::dispatch::{build_paths, matched_paths, probe_path, split_lines, status_matches};

fn strings(words: &[&str]) -> Vec<String> {
    words.iter().map(|s| s.to_string()).collect()
}

#[test]
fn reports_exactly_the_ok_path() {
    let words = split_lines("admin\nlogin\nsecret");
    assert_eq!(words, strings(&["admin", "login", "secret"]));
    let paths = build_paths("http://x", &words);
    // probe stub: only the login path answers OK
    let statuses: Vec<u16> = paths
        .iter()
        .map(|p| if p == "http://x/login" { 200 } else { 404 })
        .collect();
    let hits = matched_paths(&paths, &statuses);
    assert_eq!(hits, strings(&["http://x/login"]));
}

#[test]
fn probe_path_joins_with_a_slash() {
    assert_eq!(probe_path("http://x", "admin"), "http://x/admin");
    assert_eq!(probe_path("", ""), "/");
}

#[test]
fn build_paths_keeps_wordlist_order() {
    let paths = build_paths("http://h", &strings(&["a", "b"]));
    assert_eq!(paths, strings(&["http://h/a", "http://h/b"]));
}

#[test]
fn split_lines_empty_text_has_no_lines() {
    assert_eq!(split_lines(""), strings(&[]));
}

#[test]
fn split_lines_final_newline_opens_no_line() {
    assert_eq!(split_lines("a\nb\n"), strings(&["a", "b"]));
}

#[test]
fn split_lines_strips_carriage_returns() {
    assert_eq!(split_lines("a\r\nb\r\n"), strings(&["a", "b"]));
}

#[test]
fn split_lines_keeps_empty_lines_between_feeds() {
    assert_eq!(split_lines("\n\n"), strings(&["", ""]));
    assert_eq!(split_lines("a\n\nb"), strings(&["a", "", "b"]));
}

#[test]
fn only_http_ok_matches() {
    assert!(status_matches(200));
    assert!(!status_matches(404));
    assert!(!status_matches(201));
    assert!(!status_matches(500));
}

#[test]
fn matched_paths_keeps_every_hit_in_order() {
    let paths = strings(&["p1", "p2", "p3"]);
    let hits = matched_paths(&paths, &vec![200, 404, 200]);
    assert_eq!(hits, strings(&["p1", "p3"]));
    let none = matched_paths(&paths, &vec![404, 403, 500]);
    assert_eq!(none, strings(&[]));
}
