use rustbuster::config::{parse_threads, Config, DEFAULT_THREADS};

#[test]
fn config_requires_a_url() {
    let r = Config::new(None, Some("words.txt".to_string()), Some(2));
    assert_eq!(r.err(), Some("missing URL"));
}

#[test]
fn config_requires_a_wordlist() {
    let r = Config::new(Some("http://x".to_string()), None, Some(2));
    assert_eq!(r.err(), Some("missing wordlist"));
}

#[test]
fn config_keeps_the_given_values() {
    let c = Config::new(
        Some("http://x".to_string()),
        Some("words.txt".to_string()),
        Some(9),
    )
    .unwrap();
    assert_eq!(c.url, "http://x");
    assert_eq!(c.wordlist, "words.txt");
    assert_eq!(c.threads, 9);
}

#[test]
fn config_defaults_the_thread_count() {
    let c = Config::new(
        Some("http://x".to_string()),
        Some("words.txt".to_string()),
        None,
    )
    .unwrap();
    assert_eq!(c.threads, DEFAULT_THREADS);
    assert_eq!(c.threads, 4);
}

#[test]
fn parse_threads_reads_decimal_numbers() {
    assert_eq!(parse_threads("4"), Some(4));
    assert_eq!(parse_threads("0"), Some(0));
    assert_eq!(parse_threads("128"), Some(128));
}

#[test]
fn parse_threads_rejects_non_numbers() {
    assert_eq!(parse_threads(""), None);
    assert_eq!(parse_threads("12a"), None);
    assert_eq!(parse_threads("-3"), None);
    assert_eq!(parse_threads(" 4"), None);
}

#[test]
fn parse_threads_rejects_overflow() {
    assert_eq!(parse_threads("99999999999999999999999999"), None);
}
