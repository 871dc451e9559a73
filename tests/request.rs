use baml_elixir::request::{
    decode_arguments, error_reply, parse_client_registry, parse_function_result, prepare_request, ClientRegistry,
    FunctionOutcome,
};
use baml_elixir::value::{BridgeError, HostTerm, TypedValue};

fn text(s: &str) -> HostTerm {
    HostTerm::Text(s.to_string())
}

fn atom(s: &str) -> HostTerm {
    HostTerm::Atom(s.to_string())
}

fn ok(t: HostTerm) -> HostTerm {
    HostTerm::Tuple(vec![atom("ok"), t])
}

fn err(s: &str) -> HostTerm {
    HostTerm::Tuple(vec![atom("error"), text(s)])
}

#[test]
fn greet_scenario() {
    let args = HostTerm::Dict(vec![(text("name"), text("Ada"))]);
    let req = prepare_request("Greet".to_string(), &args, &atom("nil")).unwrap();
    assert_eq!(req.function_name, "Greet");
    assert_eq!(req.params, vec![("name".to_string(), TypedValue::String("Ada".to_string()))]);
    assert_eq!(req.client_registry, None);
    let reply = parse_function_result(&FunctionOutcome::Parsed(TypedValue::String("Hello, Ada".to_string())));
    assert_eq!(reply, ok(text("Hello, Ada")));
}

#[test]
fn get_user_scenario() {
    let args = HostTerm::Dict(vec![(text("id"), HostTerm::Int(5))]);
    let req = prepare_request("GetUser".to_string(), &args, &atom("nil")).unwrap();
    assert_eq!(req.params, vec![("id".to_string(), TypedValue::Int(5))]);
    let user = TypedValue::Record(
        "User".to_string(),
        vec![
            ("name".to_string(), TypedValue::String("Ada".to_string())),
            ("age".to_string(), TypedValue::Int(30)),
        ],
    );
    let reply = parse_function_result(&FunctionOutcome::Parsed(user));
    assert_eq!(
        reply,
        ok(HostTerm::Dict(vec![
            (atom("__baml_class__"), text("User")),
            (atom("name"), text("Ada")),
            (atom("age"), HostTerm::Int(30)),
        ]))
    );
}

#[test]
fn malformed_arguments_scenario() {
    let r = prepare_request("Greet".to_string(), &text("not-a-map"), &atom("nil"));
    assert_eq!(r, Err(BridgeError::InvalidArguments));
    assert_eq!(error_reply(BridgeError::InvalidArguments), err("Arguments must be a map"));
}

#[test]
fn arguments_with_bad_value_fail() {
    let args = HostTerm::Dict(vec![(text("x"), HostTerm::Other)]);
    assert_eq!(decode_arguments(&args), Err(BridgeError::UnsupportedType));
}

#[test]
fn registry_primary_is_read_and_unknown_keys_ignored() {
    let reg = HostTerm::Dict(vec![(atom("other"), text("x")), (atom("primary"), text("gpt4"))]);
    assert_eq!(parse_client_registry(&reg), Ok(Some(ClientRegistry { primary: Some("gpt4".to_string()) })));
    let empty = HostTerm::Dict(vec![]);
    assert_eq!(parse_client_registry(&empty), Ok(Some(ClientRegistry { primary: None })));
}

#[test]
fn registry_must_be_nil_or_map() {
    assert_eq!(parse_client_registry(&atom("nil")), Ok(None));
    assert_eq!(parse_client_registry(&HostTerm::Int(1)), Err(BridgeError::InvalidRegistry));
    assert_eq!(parse_client_registry(&atom("other")), Err(BridgeError::InvalidRegistry));
    let bad = HostTerm::Dict(vec![(atom("primary"), HostTerm::Int(1))]);
    assert_eq!(parse_client_registry(&bad), Err(BridgeError::InvalidRegistry));
}

#[test]
fn arguments_are_checked_before_registry() {
    let r = prepare_request("F".to_string(), &HostTerm::Int(1), &HostTerm::Int(1));
    assert_eq!(r, Err(BridgeError::InvalidArguments));
    let args = HostTerm::Dict(vec![]);
    let r = prepare_request("F".to_string(), &args, &HostTerm::Int(1));
    assert_eq!(r, Err(BridgeError::InvalidRegistry));
}

#[test]
fn outcomes_without_value_are_errors() {
    assert_eq!(parse_function_result(&FunctionOutcome::NoParsedValue), err("No parsed value available"));
    assert_eq!(parse_function_result(&FunctionOutcome::ParseFailed("bad json".to_string())), err("bad json"));
    assert_eq!(parse_function_result(&FunctionOutcome::Failed("timeout".to_string())), err("timeout"));
    assert_eq!(parse_function_result(&FunctionOutcome::Parsed(TypedValue::Media)), err("Media type not yet supported"));
}

#[test]
fn every_error_has_a_message() {
    let all = [
        (BridgeError::UnsupportedType, "Unsupported type"),
        (BridgeError::InvalidArguments, "Arguments must be a map"),
        (BridgeError::InvalidRegistry, "Client registry must be nil or a map"),
        (BridgeError::RuntimeInitFailed, "Runtime could not be created"),
        (BridgeError::ExecutionFailed, "Function execution failed"),
        (BridgeError::NoParsedValue, "No parsed value available"),
        (BridgeError::UnsupportedMedia, "Media type not yet supported"),
    ];
    for (e, m) in all.iter() {
        assert_eq!(e.message(), *m);
    }
}
