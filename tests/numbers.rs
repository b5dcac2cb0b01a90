use soroban_debugger::json::JsonValue;
use soroban_debugger::number::number_from_text;

fn fits(text: &str) -> Option<(bool, u128)> {
    match number_from_text(text) {
        JsonValue::Int { negative, magnitude } => Some((negative, magnitude)),
        _ => None,
    }
}

fn wide(text: &str) -> Option<(bool, String)> {
    match number_from_text(text) {
        JsonValue::WideInt { negative, digits } => Some((negative, digits)),
        _ => None,
    }
}

#[test]
fn small_integers() {
    assert_eq!(fits("42"), Some((false, 42)));
    assert_eq!(fits("-100"), Some((true, 100)));
    assert_eq!(fits("0"), Some((false, 0)));
}

#[test]
fn widest_and_wider_integers() {
    assert_eq!(fits("340282366920938463463374607431768211455"), Some((false, u128::MAX)));
    assert_eq!(
        wide("340282366920938463463374607431768211456"),
        Some((false, "340282366920938463463374607431768211456".to_string()))
    );
    assert_eq!(
        wide("-1000000000000000000000000000000000000000"),
        Some((true, "1000000000000000000000000000000000000000".to_string()))
    );
}

#[test]
fn other_numbers_keep_their_text() {
    for t in ["1.5", "1e3", "-", ""] {
        match number_from_text(t) {
            JsonValue::NonInteger(x) => assert_eq!(x, t),
            _ => panic!("expected a non-integer"),
        }
    }
}
