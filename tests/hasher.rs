use ruxgo::hasher::{digest, get_hash, is_digest_changed, is_file_changed, save_hash, store_digest, HashRecord};
use ruxgo::store::{parse_hash_store, render_hash_store, HashStoreError};

#[test]
fn digest_of_known_inputs() {
    assert_eq!(digest(b""), "d41d8cd98f00b204e9800998ecf8427e");
    assert_eq!(digest(b"abc"), "900150983cd24fb0d6963f7d28e17f72");
}

#[test]
fn digest_is_deterministic_and_change_sensitive() {
    let a = digest(b"int main() { return 0; }");
    let b = digest(b"int main() { return 0; }");
    let c = digest(b"int main() { return 1; }");
    assert_eq!(a, b);
    assert_ne!(a, c);
    assert_eq!(a.len(), 32);
}

#[test]
fn get_hash_present_and_absent() {
    let mut rec = HashRecord::new();
    assert_eq!(get_hash("a.c", &rec), None);
    rec.insert("a.c", "0123");
    assert_eq!(get_hash("a.c", &rec), Some("0123".to_string()));
    assert_eq!(get_hash("b.c", &rec), None);
}

#[test]
fn change_detection_cycle() {
    let mut rec = HashRecord::new();
    assert!(is_file_changed("src/a.c", &rec, b"v1"));
    assert_eq!(save_hash("src/a.c", &mut rec, b"v1"), None);
    assert_eq!(get_hash("src/a.c", &rec), Some(digest(b"v1")));
    assert!(!is_file_changed("src/a.c", &rec, b"v1"));
    assert!(is_file_changed("src/a.c", &rec, b"v2"));
    let replaced = save_hash("src/a.c", &mut rec, b"v2");
    assert_eq!(replaced, Some(digest(b"v1")));
    assert_eq!(get_hash("src/a.c", &rec), Some(digest(b"v2")));
    assert!(!is_file_changed("src/a.c", &rec, b"v2"));
    assert_eq!(rec.entries.len(), 1);
}

#[test]
fn unchanged_save_does_nothing() {
    let mut rec = HashRecord::new();
    save_hash("x.c", &mut rec, b"same");
    assert_eq!(save_hash("x.c", &mut rec, b"same"), None);
    assert_eq!(rec.entries.len(), 1);
}

#[test]
fn digest_comparison_by_value() {
    let mut rec = HashRecord::new();
    assert!(is_digest_changed("p", &rec, "aa"));
    assert_eq!(store_digest("p", &mut rec, "aa"), None);
    assert!(!is_digest_changed("p", &rec, "aa"));
    assert!(is_digest_changed("p", &rec, "bb"));
    assert_eq!(store_digest("p", &mut rec, "bb"), Some("aa".to_string()));
}

#[test]
fn store_round_trip() {
    let mut rec = HashRecord::new();
    save_hash("src/main.c", &mut rec, b"main");
    save_hash("src/util.cpp", &mut rec, b"util");
    let text = render_hash_store(&rec);
    assert_eq!(text.lines().count(), 2);
    let back = parse_hash_store(&text).unwrap();
    assert_eq!(back.entries.len(), 2);
    assert_eq!(get_hash("src/main.c", &back), Some(digest(b"main")));
    assert_eq!(get_hash("src/util.cpp", &back), Some(digest(b"util")));
}

#[test]
fn store_text_format() {
    let mut rec = HashRecord::new();
    rec.insert("a.c", "h1");
    assert_eq!(render_hash_store(&rec), "a.c h1\n");
}

#[test]
fn parse_store_skips_empty_lines_and_carriage_returns() {
    let rec = parse_hash_store("a.c h1\r\n\nb.c h2").unwrap();
    assert_eq!(get_hash("a.c", &rec), Some("h1".to_string()));
    assert_eq!(get_hash("b.c", &rec), Some("h2".to_string()));
    assert_eq!(rec.entries.len(), 2);
}

#[test]
fn parse_store_empty_text() {
    let rec = parse_hash_store("").unwrap();
    assert_eq!(rec.entries.len(), 0);
}

#[test]
fn parse_store_later_line_wins_and_extra_fields_ignored() {
    let rec = parse_hash_store("a.c h1\na.c h2 extra\n").unwrap();
    assert_eq!(rec.entries.len(), 1);
    assert_eq!(get_hash("a.c", &rec), Some("h2".to_string()));
}

#[test]
fn parse_store_malformed_line() {
    match parse_hash_store("a.c h1\nbroken\n") {
        Err(HashStoreError::MalformedLine { line }) => assert_eq!(line, "broken"),
        other => panic!("unexpected: {:?}", other),
    }
}

#[test]
fn digest_is_lowercase_hex() {
    let d = digest(b"some source text");
    assert!(d.chars().all(|c| c.is_ascii_digit() || ('a'..='f').contains(&c)));
}
