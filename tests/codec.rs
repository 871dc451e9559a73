use baml_elixir::codec::{decode, encode, term_to_string};
use baml_elixir::value::{BridgeError, HostTerm, TypedValue};

fn text(s: &str) -> HostTerm {
    HostTerm::Text(s.to_string())
}

fn atom(s: &str) -> HostTerm {
    HostTerm::Atom(s.to_string())
}

#[test]
fn integer_decodes_to_int() {
    assert_eq!(decode(&HostTerm::Int(42)), Ok(TypedValue::Int(42)));
    assert_eq!(decode(&HostTerm::Int(-7)), Ok(TypedValue::Int(-7)));
}

#[test]
fn fractional_decodes_to_float() {
    let bits = 2.5f64.to_bits();
    assert_eq!(decode(&HostTerm::Float(bits)), Ok(TypedValue::Float(bits)));
}

#[test]
fn integral_float_stays_float() {
    let bits = 2.0f64.to_bits();
    assert_eq!(decode(&HostTerm::Float(bits)), Ok(TypedValue::Float(bits)));
}

#[test]
fn integer_beyond_64_bits_is_unsupported() {
    let big = (i64::MAX as i128) + 1;
    assert_eq!(decode(&HostTerm::Int(big)), Err(BridgeError::UnsupportedType));
}

#[test]
fn text_decodes_to_string() {
    assert_eq!(decode(&text("hi")), Ok(TypedValue::String("hi".to_string())));
}

#[test]
fn nil_decodes_to_null_other_atoms_fail() {
    assert_eq!(decode(&atom("nil")), Ok(TypedValue::Null));
    assert_eq!(decode(&atom("true")), Err(BridgeError::UnsupportedType));
    assert_eq!(decode(&HostTerm::Other), Err(BridgeError::UnsupportedType));
    assert_eq!(decode(&HostTerm::Tuple(vec![])), Err(BridgeError::UnsupportedType));
}

#[test]
fn list_decodes_elementwise() {
    let t = HostTerm::List(vec![HostTerm::Int(1), text("a"), atom("nil")]);
    assert_eq!(
        decode(&t),
        Ok(TypedValue::List(vec![
            TypedValue::Int(1),
            TypedValue::String("a".to_string()),
            TypedValue::Null
        ]))
    );
}

#[test]
fn list_with_bad_element_fails() {
    let t = HostTerm::List(vec![HostTerm::Int(1), HostTerm::Other]);
    assert_eq!(decode(&t), Err(BridgeError::UnsupportedType));
}

#[test]
fn symbolic_keys_decode_to_text() {
    let t = HostTerm::Dict(vec![(atom("name"), text("Ada")), (text("age"), HostTerm::Int(30))]);
    assert_eq!(
        decode(&t),
        Ok(TypedValue::Dict(vec![
            ("name".to_string(), TypedValue::String("Ada".to_string())),
            ("age".to_string(), TypedValue::Int(30)),
        ]))
    );
}

#[test]
fn keys_with_same_text_collapse() {
    let t = HostTerm::Dict(vec![(atom("a"), HostTerm::Int(1)), (text("a"), HostTerm::Int(2))]);
    assert_eq!(decode(&t), Ok(TypedValue::Dict(vec![("a".to_string(), TypedValue::Int(2))])));
}

#[test]
fn non_symbolic_key_is_invalid_arguments() {
    let t = HostTerm::Dict(vec![(HostTerm::Int(1), text("x"))]);
    assert_eq!(decode(&t), Err(BridgeError::InvalidArguments));
}

#[test]
fn term_to_string_reads_atoms_and_text() {
    assert_eq!(term_to_string(&atom("primary")), Ok("primary".to_string()));
    assert_eq!(term_to_string(&text("x")), Ok("x".to_string()));
    assert_eq!(term_to_string(&HostTerm::Int(3)), Err(BridgeError::InvalidArguments));
}

#[test]
fn encode_primitives() {
    assert_eq!(encode(&TypedValue::String("s".to_string())), Ok(text("s")));
    assert_eq!(encode(&TypedValue::Int(5)), Ok(HostTerm::Int(5)));
    assert_eq!(encode(&TypedValue::Bool(true)), Ok(atom("true")));
    assert_eq!(encode(&TypedValue::Bool(false)), Ok(atom("false")));
    assert_eq!(encode(&TypedValue::Null), Ok(atom("nil")));
}

#[test]
fn encode_record_as_tagged_map() {
    let v = TypedValue::Record(
        "User".to_string(),
        vec![
            ("name".to_string(), TypedValue::String("Ada".to_string())),
            ("age".to_string(), TypedValue::Int(30)),
        ],
    );
    assert_eq!(
        encode(&v),
        Ok(HostTerm::Dict(vec![
            (atom("__baml_class__"), text("User")),
            (atom("name"), text("Ada")),
            (atom("age"), HostTerm::Int(30)),
        ]))
    );
}

#[test]
fn encode_enum_as_tagged_map() {
    let v = TypedValue::Enum("Color".to_string(), "Red".to_string());
    assert_eq!(
        encode(&v),
        Ok(HostTerm::Dict(vec![(atom("__baml_enum__"), text("Color")), (atom("value"), text("Red"))]))
    );
}

#[test]
fn encode_media_fails() {
    assert_eq!(encode(&TypedValue::Media), Err(BridgeError::UnsupportedMedia));
    let v = TypedValue::List(vec![TypedValue::Int(1), TypedValue::Media]);
    assert_eq!(encode(&v), Err(BridgeError::UnsupportedMedia));
}

#[test]
fn round_trip_nested_value() {
    let v = TypedValue::Dict(vec![
        ("xs".to_string(), TypedValue::List(vec![TypedValue::Int(1), TypedValue::Float(1.5f64.to_bits())])),
        ("s".to_string(), TypedValue::String("t".to_string())),
        ("n".to_string(), TypedValue::Null),
    ]);
    let t = encode(&v).unwrap();
    assert_eq!(decode(&t), Ok(v));
}
