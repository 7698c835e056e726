use keychainctl::persist::{
    load_registry, registry_add, registry_list, registry_remove, save_registry,
};
use keychainctl::records::parse_line;
use keychainctl::registry::Registry;

fn chars(s: &str) -> Vec<char> {
    s.chars().collect()
}

#[test]
fn new_registry_is_empty() {
    let r = Registry::new();
    assert_eq!(r.len(), 0);
    assert_eq!(r.render(), "");
    assert!(!r.tracks("alice"));
    assert_eq!(r.services("alice"), Vec::<String>::new());
}

#[test]
fn insert_keeps_pairs_in_order_and_once() {
    let mut r = Registry::new();
    r.insert("bob", "zeta");
    r.insert("alice", "svc2");
    r.insert("bob", "alpha");
    r.insert("alice", "svc1");
    r.insert("alice", "svc2");
    assert_eq!(r.len(), 4);
    assert_eq!(r.render(), "alice\tsvc1\nalice\tsvc2\nbob\talpha\nbob\tzeta\n");
    assert_eq!(r.services("alice"), vec!["svc1".to_string(), "svc2".to_string()]);
    assert_eq!(r.services("bob"), vec!["alpha".to_string(), "zeta".to_string()]);
    assert!(r.tracks("alice"));
    assert!(!r.tracks("carol"));
}

#[test]
fn remove_takes_the_account_with_its_last_service() {
    let mut r = Registry::new();
    r.insert("alice", "a");
    r.insert("alice", "b");
    assert!(r.remove("alice", "a"));
    assert!(r.tracks("alice"));
    assert_eq!(r.services("alice"), vec!["b".to_string()]);
    assert!(r.remove("alice", "missing"));
    assert_eq!(r.len(), 1);
    assert!(r.remove("alice", "b"));
    assert!(!r.tracks("alice"));
    assert_eq!(r.len(), 0);
    assert!(!r.remove("alice", "b"));
    assert_eq!(r.render(), "");
}

#[test]
fn parse_line_reads_account_and_service() {
    assert_eq!(parse_line(&chars("alice\tsvc")), Some((chars("alice"), chars("svc"))));
    assert_eq!(parse_line(&chars("  alice\tsvc \r")), Some((chars("alice"), chars("svc"))));
    assert_eq!(parse_line(&chars("a\tb\tc")), Some((chars("a"), chars("b\tc"))));
    assert_eq!(parse_line(&chars("a b\t c d")), Some((chars("a b"), chars(" c d"))));
}

#[test]
fn parse_line_passes_over_what_holds_no_record() {
    assert_eq!(parse_line(&chars("")), None);
    assert_eq!(parse_line(&chars("   ")), None);
    assert_eq!(parse_line(&chars("# alice\tsvc")), None);
    assert_eq!(parse_line(&chars("  #x\ty")), None);
    assert_eq!(parse_line(&chars("no tab here")), None);
    assert_eq!(parse_line(&chars("alice\t")), None);
    assert_eq!(parse_line(&chars("\tsvc")), None);
}

#[test]
fn parse_skips_blank_comment_and_malformed_lines() {
    let r = Registry::parse("# registry\n\nalice\tsvc\nmalformed line\n  \nbob\tx\nalice\tsvc\n");
    assert_eq!(r.len(), 2);
    assert_eq!(r.render(), "alice\tsvc\nbob\tx\n");
}

#[test]
fn malformed_line_is_skipped_on_load_and_dropped_on_save() {
    let before = "alice\tone\nthis line has no tab\nalice\ttwo\n";
    let registry = load_registry(Some(before));
    assert_eq!(registry.services("alice"), vec!["one".to_string(), "two".to_string()]);
    let after = save_registry(&registry);
    assert_eq!(after, "alice\tone\nalice\ttwo\n");
    assert!(!after.contains("no tab"));
    let added = registry_add(Some(before), "bob", "svc");
    assert_eq!(added, "alice\tone\nalice\ttwo\nbob\tsvc\n");
}

#[test]
fn load_without_a_file_gives_an_empty_registry() {
    let registry = load_registry(None);
    assert_eq!(registry.len(), 0);
    assert_eq!(save_registry(&registry), "");
}

#[test]
fn save_then_load_gives_the_same_registry() {
    let mut r = Registry::new();
    r.insert("alice", "with space");
    r.insert("alice", "svc");
    r.insert("bob", "a\tb");
    let text = save_registry(&r);
    let again = load_registry(Some(&text));
    assert_eq!(save_registry(&again), text);
    assert_eq!(again.services("bob"), vec!["a\tb".to_string()]);
}

#[test]
fn registry_add_creates_and_extends_the_file() {
    assert_eq!(registry_add(None, "alice", "svc"), "alice\tsvc\n");
    assert_eq!(registry_add(Some(""), "alice", "svc"), "alice\tsvc\n");
    assert_eq!(registry_add(Some("alice\tsvc\n"), "alice", "svc"), "alice\tsvc\n");
    assert_eq!(registry_add(Some("bob\tb\n"), "alice", "svc"), "alice\tsvc\nbob\tb\n");
    assert_eq!(
        registry_add(Some("alice\tz\nalice\ta\n"), "alice", "m"),
        "alice\ta\nalice\tm\nalice\tz\n"
    );
}

#[test]
fn registry_remove_rewrites_only_for_a_known_account() {
    assert_eq!(registry_remove(None, "alice", "svc"), None);
    assert_eq!(registry_remove(Some("bob\tsvc\n"), "alice", "svc"), None);
    assert_eq!(
        registry_remove(Some("# note\nalice\ta\nalice\tb\n"), "alice", "a"),
        Some("alice\tb\n".to_string())
    );
    assert_eq!(
        registry_remove(Some("# note\nalice\ta\n"), "alice", "other"),
        Some("alice\ta\n".to_string())
    );
}

#[test]
fn add_then_remove_leaves_no_empty_account() {
    let added = registry_add(None, "alice", "svc");
    assert_eq!(registry_list(Some(&added), "alice"), vec!["svc".to_string()]);
    let removed = registry_remove(Some(&added), "alice", "svc");
    assert_eq!(removed, Some(String::new()));
    assert_eq!(registry_list(removed.as_deref(), "alice"), Vec::<String>::new());
    let kept = registry_add(Some("alice\tother\nbob\tb\n"), "alice", "svc");
    let rest = registry_remove(Some(&kept), "alice", "svc").unwrap();
    assert_eq!(rest, "alice\tother\nbob\tb\n");
    assert!(!registry_list(Some(&rest), "alice").contains(&"svc".to_string()));
}

#[test]
fn registry_list_is_sorted() {
    let text = "alice\tzeta\nbob\tx\nalice\talpha\nalice\tMid\nalice\tbeta\n";
    assert_eq!(
        registry_list(Some(text), "alice"),
        vec!["Mid".to_string(), "alpha".to_string(), "beta".to_string(), "zeta".to_string()]
    );
}

#[test]
fn registry_list_of_an_untracked_account_is_empty() {
    assert_eq!(registry_list(None, "alice"), Vec::<String>::new());
    assert_eq!(registry_list(Some("bob\tsvc\n"), "alice"), Vec::<String>::new());
    assert_eq!(registry_list(Some(""), ""), Vec::<String>::new());
}
