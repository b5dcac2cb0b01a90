use soroban_debugger::store::StorageInspector;

fn s(x: &str) -> String {
    x.to_string()
}

fn pairs(v: &[(&str, &str)]) -> Vec<(String, String)> {
    v.iter().map(|(k, x)| (s(k), s(x))).collect()
}

#[test]
fn update_keeps_position_insert_appends() {
    let mut st = StorageInspector::new();
    st.set(s("a"), s("1"));
    st.set(s("b"), s("2"));
    st.set(s("b"), s("20"));
    st.set(s("c"), s("3"));
    assert_eq!(st.snapshot(), pairs(&[("a", "1"), ("b", "20"), ("c", "3")]));
    assert_eq!(st.len(), 3);
}

#[test]
fn snapshot_is_independent() {
    let mut st = StorageInspector::new();
    st.set(s("a"), s("1"));
    st.set(s("b"), s("2"));
    let snap = st.snapshot();
    st.set(s("a"), s("100"));
    st.set(s("z"), s("9"));
    assert!(st.remove(&s("b")));
    assert_eq!(snap, pairs(&[("a", "1"), ("b", "2")]));
    assert_eq!(st.snapshot(), pairs(&[("a", "100"), ("z", "9")]));
}

#[test]
fn get_and_remove() {
    let mut st = StorageInspector::new();
    assert_eq!(st.get(&s("x")), None);
    st.set(s("x"), s("1"));
    st.set(s("y"), s("2"));
    st.set(s("w"), s("3"));
    assert_eq!(st.get(&s("x")), Some(s("1")));
    assert!(st.remove(&s("y")));
    assert!(!st.remove(&s("y")));
    assert_eq!(st.get(&s("y")), None);
    assert_eq!(st.snapshot(), pairs(&[("x", "1"), ("w", "3")]));
}

#[test]
fn set_is_idempotent() {
    let mut st = StorageInspector::new();
    st.set(s("k"), s("v"));
    st.set(s("k"), s("v"));
    assert_eq!(st.snapshot(), pairs(&[("k", "v")]));
}
