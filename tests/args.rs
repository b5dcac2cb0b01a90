use soroban_debugger::args::{parse_args, ParseError, TaggedValue, TypeTag};
use soroban_debugger::json::{JsonInteger, JsonValue, Shape};

fn s(x: &str) -> String {
    x.to_string()
}

fn num(v: i128) -> JsonValue {
    JsonValue::Int { negative: v < 0, magnitude: v.unsigned_abs() }
}

fn typed(tag: &str, value: JsonValue) -> JsonValue {
    JsonValue::Object(vec![(s("type"), JsonValue::Str(s(tag))), (s("value"), value)])
}

#[test]
fn explicit_u32() {
    let doc = JsonValue::Array(vec![typed("u32", num(42))]);
    let r = parse_args(&doc).unwrap();
    assert!(matches!(r.as_slice(), [TaggedValue::U32(42)]));
}

#[test]
fn explicit_u32_out_of_range() {
    let doc = JsonValue::Array(vec![typed("u32", num(4294967296))]);
    let r = parse_args(&doc);
    assert_eq!(
        r.err(),
        Some(ParseError::OutOfRange { tag: TypeTag::U32, value: JsonInteger::Fits { negative: false, magnitude: 4294967296 } })
    );
}

#[test]
fn explicit_i128_negative() {
    let doc = JsonValue::Array(vec![typed("i128", num(-100))]);
    let r = parse_args(&doc).unwrap();
    assert!(matches!(r.as_slice(), [TaggedValue::I128(-100)]));
}

#[test]
fn length_and_order_kept() {
    let doc = JsonValue::Array(vec![
        typed("symbol", JsonValue::Str(s("hello"))),
        JsonValue::Bool(true),
        num(7),
        JsonValue::Str(s("alice")),
    ]);
    let r = parse_args(&doc).unwrap();
    assert_eq!(r.len(), 4);
    match &r[0] {
        TaggedValue::Symbol(x) => assert_eq!(x, "hello"),
        _ => panic!("expected a symbol"),
    }
    assert!(matches!(r[1], TaggedValue::Bool(true)));
    assert!(matches!(r[2], TaggedValue::U32(7)));
    match &r[3] {
        TaggedValue::Symbol(x) => assert_eq!(x, "alice"),
        _ => panic!("expected a symbol"),
    }
}

#[test]
fn empty_array_gives_no_arguments() {
    let r = parse_args(&JsonValue::Array(vec![])).unwrap();
    assert!(r.is_empty());
}

#[test]
fn not_an_array_is_invalid() {
    assert_eq!(parse_args(&JsonValue::Bool(true)).err(), Some(ParseError::InvalidJson));
    assert_eq!(parse_args(&JsonValue::Object(vec![])).err(), Some(ParseError::InvalidJson));
}

#[test]
fn unknown_tag() {
    let doc = JsonValue::Array(vec![typed("float", num(1))]);
    assert_eq!(parse_args(&doc).err(), Some(ParseError::UnknownType(s("float"))));
}

#[test]
fn shape_mismatch() {
    let doc = JsonValue::Array(vec![typed("u64", JsonValue::Str(s("12")))]);
    assert_eq!(
        parse_args(&doc).err(),
        Some(ParseError::TypeMismatch { expected: Shape::Integer, found: Shape::String })
    );
    let doc = JsonValue::Array(vec![typed("vec", num(1))]);
    assert_eq!(
        parse_args(&doc).err(),
        Some(ParseError::TypeMismatch { expected: Shape::Array, found: Shape::Integer })
    );
}

#[test]
fn bytes_from_hex() {
    let doc = JsonValue::Array(vec![typed("bytes", JsonValue::Str(s("00ffA1")))]);
    let r = parse_args(&doc).unwrap();
    match &r[0] {
        TaggedValue::Bytes(b) => assert_eq!(b, &vec![0x00u8, 0xff, 0xa1]),
        _ => panic!("expected bytes"),
    }
}

#[test]
fn bytes_odd_or_not_hex() {
    for text in ["abc", "zz"] {
        let doc = JsonValue::Array(vec![typed("bytes", JsonValue::Str(s(text)))]);
        assert_eq!(
            parse_args(&doc).err(),
            Some(ParseError::TypeMismatch { expected: Shape::HexString, found: Shape::String })
        );
    }
}

#[test]
fn inferred_widths() {
    let doc = JsonValue::Array(vec![
        num(4294967295),
        num(4294967296),
        num(18446744073709551616),
        num(-2147483648),
        num(-2147483649),
        num(-9223372036854775809),
    ]);
    let r = parse_args(&doc).unwrap();
    assert!(matches!(r[0], TaggedValue::U32(4294967295)));
    assert!(matches!(r[1], TaggedValue::U64(4294967296)));
    assert!(matches!(r[2], TaggedValue::U128(18446744073709551616)));
    assert!(matches!(r[3], TaggedValue::I32(-2147483648)));
    assert!(matches!(r[4], TaggedValue::I64(-2147483649)));
    assert!(matches!(r[5], TaggedValue::I128(-9223372036854775809)));
}

#[test]
fn inferred_below_i128_is_out_of_range() {
    let doc = JsonValue::Array(vec![JsonValue::Int { negative: true, magnitude: u128::MAX }]);
    assert_eq!(
        parse_args(&doc).err(),
        Some(ParseError::OutOfRange { tag: TypeTag::I128, value: JsonInteger::Fits { negative: true, magnitude: u128::MAX } })
    );
}

#[test]
fn extreme_explicit_values() {
    let doc = JsonValue::Array(vec![
        typed("i128", JsonValue::Int { negative: true, magnitude: 1u128 << 127 }),
        typed("u128", JsonValue::Int { negative: false, magnitude: u128::MAX }),
        typed("i32", num(-1)),
    ]);
    let r = parse_args(&doc).unwrap();
    assert!(matches!(r[0], TaggedValue::I128(i128::MIN)));
    assert!(matches!(r[1], TaggedValue::U128(u128::MAX)));
    assert!(matches!(r[2], TaggedValue::I32(-1)));
    let doc = JsonValue::Array(vec![typed("u64", num(-1))]);
    assert_eq!(
        parse_args(&doc).err(),
        Some(ParseError::OutOfRange { tag: TypeTag::U64, value: JsonInteger::Fits { negative: true, magnitude: 1 } })
    );
}

#[test]
fn fractions_and_null_are_rejected() {
    let doc = JsonValue::Array(vec![JsonValue::NonInteger(s("1.5"))]);
    assert_eq!(
        parse_args(&doc).err(),
        Some(ParseError::TypeMismatch { expected: Shape::Integer, found: Shape::Number })
    );
    let doc = JsonValue::Array(vec![JsonValue::Null]);
    assert_eq!(
        parse_args(&doc).err(),
        Some(ParseError::TypeMismatch { expected: Shape::NonNull, found: Shape::Null })
    );
}

#[test]
fn inferred_object_and_nested_array() {
    let doc = JsonValue::Array(vec![JsonValue::Object(vec![
        (s("user"), JsonValue::Str(s("alice"))),
        (s("balance"), num(1000)),
        (s("active"), JsonValue::Bool(true)),
        (s("tags"), JsonValue::Array(vec![JsonValue::Str(s("admin")), JsonValue::Str(s("verified"))])),
    ])]);
    let r = parse_args(&doc).unwrap();
    assert_eq!(r.len(), 1);
    match &r[0] {
        TaggedValue::MapVal(entries) => {
            assert_eq!(entries.len(), 4);
            assert_eq!(entries[0].0, "user");
            assert!(matches!(&entries[0].1, TaggedValue::Symbol(x) if x == "alice"));
            assert!(matches!(entries[1].1, TaggedValue::U32(1000)));
            assert!(matches!(entries[2].1, TaggedValue::Bool(true)));
            match &entries[3].1 {
                TaggedValue::VecVal(items) => assert_eq!(items.len(), 2),
                _ => panic!("expected a vector"),
            }
        }
        _ => panic!("expected a map"),
    }
}

#[test]
fn explicit_strings_and_containers() {
    let doc = JsonValue::Array(vec![
        typed("string", JsonValue::Str(s("hi"))),
        typed("address", JsonValue::Str(s("GABC"))),
        typed("bool", JsonValue::Bool(false)),
        typed("vec", JsonValue::Array(vec![typed("u64", num(5))])),
        typed("map", JsonValue::Object(vec![(s("k"), num(-3))])),
    ]);
    let r = parse_args(&doc).unwrap();
    assert!(matches!(&r[0], TaggedValue::StringVal(x) if x == "hi"));
    assert!(matches!(&r[1], TaggedValue::Address(x) if x == "GABC"));
    assert!(matches!(r[2], TaggedValue::Bool(false)));
    match &r[3] {
        TaggedValue::VecVal(items) => assert!(matches!(items.as_slice(), [TaggedValue::U64(5)])),
        _ => panic!("expected a vector"),
    }
    match &r[4] {
        TaggedValue::MapVal(entries) => {
            assert_eq!(entries[0].0, "k");
            assert!(matches!(entries[0].1, TaggedValue::I32(-3)));
        }
        _ => panic!("expected a map"),
    }
}

#[test]
fn first_error_stops_the_list() {
    let doc = JsonValue::Array(vec![typed("nope", num(1)), typed("u32", num(-1))]);
    assert_eq!(parse_args(&doc).err(), Some(ParseError::UnknownType(s("nope"))));
}

fn wide(negative: bool, digits: &str) -> JsonValue {
    JsonValue::WideInt { negative, digits: s(digits) }
}

#[test]
fn wide_integers_are_out_of_range() {
    for tag in ["u128", "i128", "u32"] {
        let doc = JsonValue::Array(vec![typed(tag, wide(false, "340282366920938463463374607431768211456"))]);
        let expected_tag = match tag {
            "u128" => TypeTag::U128,
            "i128" => TypeTag::I128,
            _ => TypeTag::U32,
        };
        assert_eq!(
            parse_args(&doc).err(),
            Some(ParseError::OutOfRange {
                tag: expected_tag,
                value: JsonInteger::Wide { negative: false, digits: s("340282366920938463463374607431768211456") },
            })
        );
    }
    let doc = JsonValue::Array(vec![wide(true, "340282366920938463463374607431768211456")]);
    assert_eq!(
        parse_args(&doc).err(),
        Some(ParseError::OutOfRange {
            tag: TypeTag::I128,
            value: JsonInteger::Wide { negative: true, digits: s("340282366920938463463374607431768211456") },
        })
    );
}

#[test]
fn duplicate_map_keys_keep_the_first() {
    let doc = JsonValue::Array(vec![JsonValue::Object(vec![
        (s("a"), num(1)),
        (s("b"), num(2)),
        (s("a"), num(3)),
    ])]);
    let r = parse_args(&doc).unwrap();
    match &r[0] {
        TaggedValue::MapVal(entries) => {
            assert_eq!(entries.len(), 2);
            assert_eq!(entries[0].0, "a");
            assert!(matches!(entries[0].1, TaggedValue::U32(1)));
            assert_eq!(entries[1].0, "b");
        }
        _ => panic!("expected a map"),
    }
}
