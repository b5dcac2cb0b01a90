use soroban_debugger::filter::{FilterError, StorageFilter};

fn compile(v: &[&str]) -> StorageFilter {
    let pats: Vec<String> = v.iter().map(|x| x.to_string()).collect();
    match StorageFilter::new(&pats) {
        Ok(f) => f,
        Err(_) => panic!("patterns should compile"),
    }
}

#[test]
fn wildcard_prefix() {
    let f = compile(&["balance:*"]);
    assert!(f.matches("balance:alice"));
    assert!(f.matches("balance:"));
    assert!(!f.matches("total_supply"));
}

#[test]
fn regex_pattern() {
    let f = compile(&["re:^user_\\d+$"]);
    assert!(f.matches("user_42"));
    assert!(!f.matches("user_abc"));
}

#[test]
fn empty_filter_matches_nothing() {
    let f = compile(&[]);
    assert_eq!(f.len(), 0);
    assert!(!f.matches(""));
    assert!(!f.matches("anything"));
    assert!(!StorageFilter::empty().matches("balance:alice"));
}

#[test]
fn exact_pattern() {
    let f = compile(&["total_supply"]);
    assert!(f.matches("total_supply"));
    assert!(!f.matches("total_supply2"));
    assert!(!f.matches("total"));
}

#[test]
fn wildcard_is_literal_elsewhere() {
    let f = compile(&["a.b*c"]);
    assert!(f.matches("a.bXYZc"));
    assert!(f.matches("a.bc"));
    assert!(!f.matches("aXbc"));
    let g = compile(&["*mid*"]);
    assert!(g.matches("amidb"));
    assert!(g.matches("mid"));
    assert!(!g.matches("mxd"));
}

#[test]
fn any_pattern_suffices() {
    let f = compile(&["balance:*", "re:^user_\\d+$", "total_supply"]);
    assert!(f.matches("balance:bob"));
    assert!(f.matches("user_7"));
    assert!(f.matches("total_supply"));
    assert!(!f.matches("admin"));
    assert_eq!(f.len(), 3);
}

#[test]
fn bad_regex_fails_whole_compile() {
    let pats = vec!["balance:*".to_string(), "re:(unclosed".to_string()];
    match StorageFilter::new(&pats) {
        Err(FilterError::InvalidRegex { pattern, message }) => {
            assert_eq!(pattern, "re:(unclosed");
            assert!(!message.is_empty());
        }
        Ok(_) => panic!("expected an error"),
    }
}
