use baml_elixir::request::FunctionOutcome;
use baml_elixir::schema::{describe_schema, ClassSchema, EnumSchema, FunctionSchema};
use baml_elixir::stream::{StreamAction, StreamEvent, StreamPhase, StreamSession};
use baml_elixir::value::{HostTerm, TypedValue};

fn text(s: &str) -> HostTerm {
    HostTerm::Text(s.to_string())
}

fn atom(s: &str) -> HostTerm {
    HostTerm::Atom(s.to_string())
}

fn partial(s: &str) -> StreamEvent {
    StreamEvent::Partial(FunctionOutcome::Parsed(TypedValue::String(s.to_string())))
}

fn sent(s: &str) -> StreamAction {
    StreamAction::Send(HostTerm::Tuple(vec![atom("ok"), text(s)]))
}

#[test]
fn partials_arrive_in_order() {
    let mut s = StreamSession::new();
    assert_eq!(s.step(partial("first")), sent("first"));
    assert_eq!(s.step(partial("second")), sent("second"));
    assert_eq!(s.step(partial("third")), sent("third"));
    assert_eq!(s.phase, StreamPhase::Running);
}

#[test]
fn two_partials_then_done() {
    let mut s = StreamSession::new();
    let actions: Vec<StreamAction> =
        vec![partial("a"), partial("ab"), StreamEvent::Completed].into_iter().map(|e| s.step(e)).collect();
    assert_eq!(actions, vec![sent("a"), sent("ab"), StreamAction::Reply(atom("done"))]);
    assert_eq!(s.phase, StreamPhase::Done);
}

#[test]
fn failure_on_second_partial_stops_messages() {
    let mut s = StreamSession::new();
    assert_eq!(s.step(partial("a")), sent("a"));
    assert_eq!(
        s.step(StreamEvent::Failed("boom".to_string())),
        StreamAction::Reply(HostTerm::Tuple(vec![atom("error"), text("boom")]))
    );
    assert_eq!(s.step(partial("late")), StreamAction::Nothing);
    assert_eq!(s.step(StreamEvent::Completed), StreamAction::Nothing);
    assert_eq!(s.phase, StreamPhase::Failed);
}

#[test]
fn failed_partial_encoding_is_one_error_message() {
    let mut s = StreamSession::new();
    let a = s.step(StreamEvent::Partial(FunctionOutcome::Parsed(TypedValue::Media)));
    assert_eq!(
        a,
        StreamAction::Send(HostTerm::Tuple(vec![atom("error"), text("Media type not yet supported")]))
    );
    assert_eq!(s.step(partial("next")), sent("next"));
}

#[test]
fn schema_description() {
    let classes = vec![ClassSchema {
        name: "User".to_string(),
        fields: vec![("name".to_string(), "string".to_string())],
    }];
    let enums = vec![EnumSchema { name: "Color".to_string(), variants: vec!["Red".to_string(), "Blue".to_string()] }];
    let functions = vec![FunctionSchema {
        name: "Greet".to_string(),
        params: vec![("name".to_string(), "string".to_string())],
        return_type: "string".to_string(),
    }];
    let t = describe_schema(&classes, &enums, &functions);
    let expected = HostTerm::Dict(vec![
        (atom("classes"), HostTerm::Dict(vec![(text("User"), HostTerm::Dict(vec![(text("name"), text("string"))]))])),
        (atom("enums"), HostTerm::Dict(vec![(text("Color"), HostTerm::List(vec![text("Red"), text("Blue")]))])),
        (
            atom("functions"),
            HostTerm::Dict(vec![(
                text("Greet"),
                HostTerm::Dict(vec![
                    (text("params"), HostTerm::Dict(vec![(text("name"), text("string"))])),
                    (text("return_type"), text("string")),
                ]),
            )]),
        ),
    ]);
    assert_eq!(t, expected);
}
