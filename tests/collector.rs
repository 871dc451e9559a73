use baml_elixir::collector::{
    CollectorResource, FunctionLog, HttpRequest, LLMCall, LLMCallKind, LLMStreamCall, StreamTiming, Timing, Usage,
};
use baml_elixir::value::HostTerm;

fn text(s: &str) -> HostTerm {
    HostTerm::Text(s.to_string())
}

fn log(id: &str, input: u64, output: u64) -> FunctionLog {
    FunctionLog {
        id: id.to_string(),
        function_name: "Greet".to_string(),
        log_type: "call".to_string(),
        timing: Timing { start_time_utc_ms: 1000, duration_ms: Some(20) },
        usage: Usage { input_tokens: input, output_tokens: output },
        calls: vec![],
        raw_llm_response: None,
    }
}

#[test]
fn new_collector_is_empty() {
    let c = CollectorResource::new(Some("c".to_string()));
    assert_eq!(c.usage(), Usage { input_tokens: 0, output_tokens: 0 });
    assert!(c.last_function_log().is_none());
    assert_eq!(c.name(), Some(&"c".to_string()));
}

#[test]
fn usage_is_sum_of_recorded_calls() {
    let mut c = CollectorResource::new(None);
    c.record(log("a", 10, 5));
    c.record(log("b", 3, 7));
    c.record(log("c", 1, 1));
    assert_eq!(c.usage(), Usage { input_tokens: 14, output_tokens: 13 });
    assert_eq!(c.log_count(), 3);
    assert_eq!(c.last_function_log().map(|l| l.id.clone()), Some("c".to_string()));
}

#[test]
fn usage_saturates() {
    let mut c = CollectorResource::new(None);
    c.record(log("a", u64::MAX - 1, 0));
    c.record(log("b", 5, 0));
    assert_eq!(c.usage().input_tokens, u64::MAX);
}

#[test]
fn snapshot_is_not_changed_by_later_writes() {
    let mut c = CollectorResource::new(None);
    c.record(log("a", 1, 1));
    let snap = c.last_function_log().cloned().unwrap();
    c.record(log("b", 2, 2));
    assert_eq!(snap.id, "a");
    assert_eq!(c.last_function_log().unwrap().id, "b");
}

#[test]
fn usage_encodes_as_map() {
    let u = Usage { input_tokens: 3, output_tokens: 4 };
    assert_eq!(
        u.encode(),
        HostTerm::Dict(vec![(text("input_tokens"), HostTerm::Int(3)), (text("output_tokens"), HostTerm::Int(4))])
    );
}

#[test]
fn timing_encodes_missing_duration_as_nil() {
    let t = Timing { start_time_utc_ms: 5, duration_ms: None };
    assert_eq!(
        t.encode(),
        HostTerm::Dict(vec![
            (text("start_time_utc_ms"), HostTerm::Int(5)),
            (text("duration_ms"), HostTerm::Atom("nil".to_string())),
        ])
    );
    let s = StreamTiming { start_time_utc_ms: 5, duration_ms: Some(9) };
    assert_eq!(
        s.encode(),
        HostTerm::Dict(vec![(text("start_time_utc_ms"), HostTerm::Int(5)), (text("duration_ms"), HostTerm::Int(9))])
    );
}

#[test]
fn llm_call_encodes_request_and_default_usage() {
    let call = LLMCall {
        client_name: "gpt".to_string(),
        provider: "openai".to_string(),
        timing: Timing { start_time_utc_ms: 1, duration_ms: Some(2) },
        request: Some(HttpRequest {
            method: "POST".to_string(),
            url: "https://x".to_string(),
            headers: vec![("a".to_string(), "1".to_string())],
            body: "{}".to_string(),
        }),
        response: None,
        usage: None,
    };
    let t = LLMCallKind::Basic(call).encode();
    let nil = HostTerm::Atom("nil".to_string());
    let expected = HostTerm::Dict(vec![
        (text("client_name"), text("gpt")),
        (text("provider"), text("openai")),
        (
            text("timing"),
            HostTerm::Dict(vec![(text("start_time_utc_ms"), HostTerm::Int(1)), (text("duration_ms"), HostTerm::Int(2))]),
        ),
        (
            text("request"),
            HostTerm::Dict(vec![
                (text("method"), text("POST")),
                (text("url"), text("https://x")),
                (text("headers"), HostTerm::Dict(vec![(text("a"), text("1"))])),
                (text("body"), text("{}")),
            ]),
        ),
        (text("response"), nil),
        (
            text("usage"),
            HostTerm::Dict(vec![(text("input_tokens"), HostTerm::Int(0)), (text("output_tokens"), HostTerm::Int(0))]),
        ),
    ]);
    assert_eq!(t, expected);
}

#[test]
fn stream_call_request_has_no_body() {
    let call = LLMStreamCall {
        client_name: "c".to_string(),
        provider: "p".to_string(),
        timing: StreamTiming { start_time_utc_ms: 0, duration_ms: None },
        request: Some(HttpRequest {
            method: "GET".to_string(),
            url: "u".to_string(),
            headers: vec![],
            body: "ignored".to_string(),
        }),
        usage: Some(Usage { input_tokens: 2, output_tokens: 1 }),
    };
    match call.encode() {
        HostTerm::Dict(entries) => {
            let req = entries.iter().find(|(k, _)| *k == text("request")).map(|(_, v)| v).unwrap();
            assert_eq!(
                *req,
                HostTerm::Dict(vec![
                    (text("method"), text("GET")),
                    (text("url"), text("u")),
                    (text("headers"), HostTerm::Dict(vec![])),
                ])
            );
        }
        _ => panic!("expected a map"),
    }
}

#[test]
fn function_log_encodes_raw_response_default() {
    let l = log("id1", 1, 2);
    match l.encode() {
        HostTerm::Dict(entries) => {
            assert_eq!(entries.len(), 7);
            assert_eq!(entries[0], (text("id"), text("id1")));
            assert_eq!(entries[5], (text("calls"), HostTerm::List(vec![])));
            assert_eq!(entries[6], (text("raw_llm_response"), text("")));
        }
        _ => panic!("expected a map"),
    }
}
