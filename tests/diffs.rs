use soroban_debugger::diff::{diff, DiffEntry, DiffKind};
use soroban_debugger::filter::StorageFilter;
use soroban_debugger::report::compose_report;

fn s(x: &str) -> String {
    x.to_string()
}

fn pairs(v: &[(&str, &str)]) -> Vec<(String, String)> {
    v.iter().map(|(k, x)| (s(k), s(x))).collect()
}

fn entry(k: &str, old: Option<&str>, new: Option<&str>, kind: DiffKind) -> DiffEntry {
    DiffEntry { key: s(k), old: old.map(s), new: new.map(s), kind }
}

fn filter(v: &[&str]) -> StorageFilter {
    let pats: Vec<String> = v.iter().map(|x| x.to_string()).collect();
    match StorageFilter::new(&pats) {
        Ok(f) => f,
        Err(_) => panic!("patterns should compile"),
    }
}

#[test]
fn diff_against_itself_is_unchanged() {
    let snap = pairs(&[("b", "2"), ("a", "1")]);
    let d = diff(&snap, &snap);
    assert_eq!(
        d,
        vec![
            entry("b", Some("2"), Some("2"), DiffKind::Unchanged),
            entry("a", Some("1"), Some("1"), DiffKind::Unchanged),
        ]
    );
}

#[test]
fn diff_kinds_and_order() {
    let base = pairs(&[("a", "1"), ("b", "2"), ("c", "3")]);
    let updated = pairs(&[("d", "4"), ("c", "3"), ("a", "10")]);
    let d = diff(&base, &updated);
    assert_eq!(
        d,
        vec![
            entry("a", Some("1"), Some("10"), DiffKind::Modified),
            entry("b", Some("2"), None, DiffKind::Removed),
            entry("c", Some("3"), Some("3"), DiffKind::Unchanged),
            entry("d", None, Some("4"), DiffKind::Added),
        ]
    );
}

#[test]
fn diff_of_empty_snapshots() {
    assert!(diff(&vec![], &vec![]).is_empty());
    assert_eq!(diff(&vec![], &pairs(&[("k", "v")])), vec![entry("k", None, Some("v"), DiffKind::Added)]);
}

#[test]
fn report_display_and_alerts() {
    let base = pairs(&[("balance:alice", "1"), ("admin", "x"), ("total_supply", "5")]);
    let updated = pairs(&[("balance:alice", "2"), ("total_supply", "5"), ("balance:bob", "7")]);
    let r = compose_report(&base, &updated, &filter(&["balance:*"]), &filter(&["balance:*", "admin"]));
    assert_eq!(
        r.display,
        vec![
            entry("balance:alice", Some("1"), Some("2"), DiffKind::Modified),
            entry("balance:bob", None, Some("7"), DiffKind::Added),
        ]
    );
    assert_eq!(r.alerts, r.display);
}

#[test]
fn report_empty_display_shows_all_and_empty_alert_raises_none() {
    let base = pairs(&[("a", "1")]);
    let updated = pairs(&[("a", "2"), ("b", "3")]);
    let r = compose_report(&base, &updated, &StorageFilter::empty(), &StorageFilter::empty());
    assert_eq!(r.display, diff(&base, &updated));
    assert!(r.alerts.is_empty());
}

#[test]
fn removed_keys_do_not_alert() {
    let base = pairs(&[("admin", "x")]);
    let updated = pairs(&[]);
    let r = compose_report(&base, &updated, &StorageFilter::empty(), &filter(&["admin"]));
    assert_eq!(r.display, vec![entry("admin", Some("x"), None, DiffKind::Removed)]);
    assert!(r.alerts.is_empty());
}
