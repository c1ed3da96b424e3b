use rampipe::client::{
    as_conversation_result, RampipedClient, RampipedConversation, RampipedError,
};
use rampipe::connection::{Action, Connection, Event, Stage};
use rampipe::conversation::GenerationResult;
use rampipe::json::Json;
use rampipe::protocol::{
    ClientMessage, ConversationRequest, ConversationResponse, EmbedResponse, GenerateResponse,
    GrammarCompletion, SnapshotRef, StatusResponse, ToolCall, ToolSpec, WireOverflowPolicy,
    WirePenalties, WirePooling, WireSampling,
};
use std::cell::RefCell;

fn greedy() -> WireSampling<f32> {
    WireSampling::Greedy { penalties: WirePenalties::disabled(1.0, 0.0) }
}

fn reply(text: &str) -> ConversationResponse {
    ConversationResponse::Turn {
        text: text.to_string(),
        tokens_generated: 2,
        committed_tokens: 20,
        context_size: 4096,
        time_to_first_token_ms: 5,
        tool_calls: vec![ToolCall { name: "read".to_string(), arguments: Json::Null }],
        truncated_tool_call: true,
        formatted_prompt: "p".to_string(),
    }
}

fn failed(message: &str) -> ConversationResponse {
    ConversationResponse::Failed { message: message.to_string() }
}

fn open(answer: ConversationResponse) -> Result<RampipedConversation, RampipedError> {
    RampipedConversation::opened(Ok(answer))
}

#[test]
fn a_generation_is_asked_for_as_it_was_given() {
    let client = RampipedClient::new("/s");
    assert_eq!(client.socket_path(), "/s");
    let seen = RefCell::new(String::new());
    let outcome = client
        .generate(
            "/m/a.gguf",
            "hi",
            Some(16),
            Some(greedy()),
            Some("root ::= x"),
            Some("{"),
            Some(GrammarCompletion::ValidJson { prefill: "{".to_string() }),
            &|path: &str, message: &ClientMessage<f32>| {
                let ClientMessage::Generate(r) = message else {
                    panic!("a generation");
                };
                assert_eq!((path, r.model_path.as_str(), r.prompt.as_str()), ("/s", "/m/a.gguf", "hi"));
                assert_eq!(r.max_new_tokens, Some(16));
                assert!(matches!(r.sampling, Some(WireSampling::Greedy { .. })));
                assert_eq!(r.grammar.as_deref(), Some("root ::= x"));
                assert_eq!(r.assistant_prefill.as_deref(), Some("{"));
                assert!(matches!(&r.grammar_completion, Some(GrammarCompletion::ValidJson { .. })));
                *seen.borrow_mut() = path.to_string();
                Ok(GenerateResponse::Done {
                    text: "yo".to_string(),
                    tokens_generated: 1,
                    time_to_first_token_ms: 7,
                    formatted_prompt: "<hi>".to_string(),
                })
            },
        )
        .expect("an outcome");
    assert_eq!(seen.into_inner(), "/s");
    assert_eq!((outcome.text.as_str(), outcome.tokens_generated), ("yo", 1));
    assert_eq!(outcome.time_to_first_token_ms, 7);
    assert_eq!(outcome.formatted_prompt, "<hi>");
    assert!(outcome.tool_calls.is_empty());
    assert!(!outcome.truncated_tool_call);
}

#[test]
fn what_the_daemon_reports_is_an_error() {
    let client = RampipedClient::new("/s");
    let error = client
        .generate(
            "m",
            "hi",
            None,
            None,
            None,
            None,
            None,
            &|_path: &str, _message: &ClientMessage<f32>| {
                Ok(GenerateResponse::Failed { message: "no room".to_string() })
            },
        )
        .expect_err("refused");
    assert_eq!(error.message(), "rampiped reported an error: no room");
    let error = client
        .status(&|path: &str, _message: &ClientMessage<f32>| {
            Err::<StatusResponse, _>(RampipedError::Connect {
                path: path.to_string(),
                source: "refused".to_string(),
            })
        })
        .expect_err("nobody is there");
    assert_eq!(
        error.message(),
        "connecting to rampiped socket /s (is rampiped running?): refused"
    );
}

#[test]
fn every_error_says_where_it_came_from() {
    let cases = [
        (RampipedError::Encode("e".to_string()), "encoding request to rampiped: e"),
        (RampipedError::Send("e".to_string()), "sending request to rampiped: e"),
        (RampipedError::Read("e".to_string()), "reading response from rampiped: e"),
        (RampipedError::Decode("e".to_string()), "decoding response from rampiped: e"),
        (RampipedError::Remote("e".to_string()), "rampiped reported an error: e"),
    ];
    for (error, words) in cases {
        assert_eq!(error.message(), words);
    }
}

#[test]
fn texts_are_embedded_in_order() {
    let client = RampipedClient::new("/s");
    let texts = ["a".to_string(), "b".to_string()];
    let outcome = client
        .embed(
            "m",
            &texts,
            WirePooling::Cls,
            true,
            &|_path: &str, message: &ClientMessage<f32>| {
                let ClientMessage::Embed(r) = message else {
                    panic!("an embedding");
                };
                assert_eq!(r.texts, ["a", "b"]);
                assert_eq!((r.pooling, r.normalize), (WirePooling::Cls, true));
                Ok(EmbedResponse::Done { vectors: vec![vec![1.0], vec![2.0]], n_embd: 1 })
            },
        )
        .expect("vectors");
    assert_eq!((outcome.vectors, outcome.n_embd), (vec![vec![1.0f32], vec![2.0]], 1));
    let error = client
        .embed("m", &[], WirePooling::Model, false, &|_path: &str, _m: &ClientMessage<f32>| {
            Ok(EmbedResponse::Failed { message: "no".to_string() })
        })
        .expect_err("refused");
    assert_eq!(error.message(), "rampiped reported an error: no");
}

#[test]
fn a_status_is_passed_on() {
    let client = RampipedClient::new("/s");
    let status = client
        .status(&|_path: &str, message: &ClientMessage<f32>| {
            assert!(matches!(message, ClientMessage::Status));
            Ok(StatusResponse {
                pid: 7,
                exe_path: None,
                exe_modified_unix_secs: None,
                uptime_secs: 1,
                requests_served: 2,
                requests_failed: 3,
                total_tokens_generated: 4,
                resident_bytes: 5,
                gpu_free_bytes: None,
                gpu_total_bytes: None,
                models: Vec::new(),
            })
        })
        .expect("a status");
    assert_eq!((status.pid, status.resident_bytes), (7, 5));
}

#[test]
fn opening_a_conversation_sends_what_was_asked_for() {
    let conversation = RampipedConversation::open(
        "/s",
        "/m",
        4096,
        WireOverflowPolicy::Fail,
        Some(SnapshotRef { state_path: "st".to_string(), meta_path: "me".to_string() }),
        Some("be brief".to_string()),
        vec![ToolSpec::new("read", "Read", Json::Null)],
        None,
        &|path: &str, message: &ClientMessage<f32>| {
            let ClientMessage::OpenConversation(r) = message else {
                panic!("an opening");
            };
            assert_eq!((path, r.model_path.as_str(), r.n_ctx), ("/s", "/m", 4096));
            assert_eq!(r.overflow, WireOverflowPolicy::Fail);
            assert_eq!(r.restore_from.as_ref().map(|s| s.meta_path.as_str()), Some("me"));
            assert_eq!(r.system.as_deref(), Some("be brief"));
            assert_eq!(r.tools[0].function.name, "read");
            Ok(ConversationResponse::OpenedWithTools { supports_tool_calls: true })
        },
    )
    .expect("opened");
    assert!(conversation.supports_tool_calls());
    assert_eq!(conversation.turn_count(), 0);
}

#[test]
fn an_older_daemon_is_known_by_its_answer() {
    assert!(!open(ConversationResponse::Opened).expect("opened").supports_tool_calls());
    let refused = open(failed("no template")).expect_err("refused");
    assert_eq!(refused.message(), "rampiped reported an error: no template");
    for odd in [reply("?"), ConversationResponse::Snapshotted] {
        assert_eq!(
            open(odd).expect_err("odd").message(),
            "rampiped reported an error: rampiped sent an unexpected response before the \
             conversation was opened"
        );
    }
}

#[test]
fn turns_are_counted_where_they_succeed() {
    let mut conversation = open(ConversationResponse::Opened).expect("opened");
    let outcome = conversation
        .send("hi", None, Some(greedy()), None, Some("{"), None, &|m: &ConversationRequest<f32>| {
            let ConversationRequest::Turn(t) = m else {
                panic!("a turn");
            };
            assert_eq!((t.message.as_str(), t.max_new_tokens), ("hi", None));
            assert_eq!(t.assistant_prefill.as_deref(), Some("{"));
            assert!(t.tool_results.is_none());
            Ok(reply("yo"))
        })
        .expect("a reply");
    assert_eq!((outcome.text.as_str(), outcome.committed_tokens), ("yo", 20));
    assert_eq!(outcome.tool_calls.len(), 1);
    assert!(outcome.truncated_tool_call);
    assert_eq!(conversation.turn_count(), 1);

    let refused = conversation.send(
        "hi",
        None,
        None::<WireSampling<f32>>,
        None,
        None,
        None,
        &|_m: &ConversationRequest<f32>| Ok(failed("full")),
    );
    assert_eq!(refused.expect_err("full").message(), "rampiped reported an error: full");
    assert_eq!(conversation.turn_count(), 1);

    let results = ["4".to_string()];
    conversation
        .send_tool_results(
            &results,
            Some(9),
            Some(greedy()),
            None,
            None,
            &|m: &ConversationRequest<f32>| {
                let ConversationRequest::Turn(t) = m else {
                    panic!("a turn");
                };
                assert_eq!(t.tool_results.as_deref(), Some(["4".to_string()].as_slice()));
                assert_eq!(t.message, "");
                Ok(reply("ok"))
            },
        )
        .expect("a reply");
    assert_eq!(conversation.turn_count(), 2);

    let odd = conversation.send(
        "hi",
        None,
        Some(greedy()),
        None,
        None,
        None,
        &|_m: &ConversationRequest<f32>| Ok(ConversationResponse::Opened),
    );
    assert_eq!(
        odd.expect_err("odd").message(),
        "rampiped reported an error: rampiped sent an unexpected response to a conversation turn"
    );
}

#[test]
fn saving_a_conversation_is_acknowledged_or_not() {
    let mut conversation = open(ConversationResponse::Opened).expect("opened");
    let saved = conversation.snapshot("/st", "/me", &|m: &ConversationRequest<f32>| {
        let ConversationRequest::Snapshot(at) = m else {
            panic!("a snapshot");
        };
        assert_eq!((at.state_path.as_str(), at.meta_path.as_str()), ("/st", "/me"));
        Ok(ConversationResponse::Snapshotted)
    });
    assert!(saved.is_ok());
    let refused =
        conversation.snapshot("/st", "/me", &|_m: &ConversationRequest<f32>| Ok(failed("disk")));
    assert_eq!(refused.expect_err("disk").message(), "rampiped reported an error: disk");
    let odd =
        conversation.snapshot("/st", "/me", &|_m: &ConversationRequest<f32>| Ok(reply("?")));
    assert_eq!(
        odd.expect_err("odd").message(),
        "rampiped reported an error: rampiped sent an unexpected response to a snapshot request"
    );
}

#[test]
fn a_remote_reply_is_a_reply_like_any_other() {
    let mut conversation = open(ConversationResponse::Opened).expect("opened");
    let result = as_conversation_result(conversation.take_reply(Ok(reply("yo")))).expect("a reply");
    assert_eq!((result.text.as_str(), result.time_to_first_token_ms), ("yo", 5));
    assert_eq!((result.committed_tokens, result.context_size), (20, 4096));
    let refused = as_conversation_result(conversation.take_reply(Ok(failed("full"))));
    assert_eq!(
        refused.expect_err("full").message(),
        "conversation backend error: rampiped reported an error: full"
    );
}

#[test]
fn what_the_daemon_answers_reaches_the_caller() {
    let connection = |stage: Stage, tools: usize| Connection { stage, n_ctx: 9, restores: false, tools };
    let answer = |c: &mut Connection, event: Event<f32>| match c.handle(event) {
        Action::Reply { response, .. } => response,
        other => panic!("not a reply: {other:?}"),
    };
    for (tools, supports) in [(0, true), (1, true), (1, false)] {
        let opened = answer(&mut connection(Stage::Opening, tools), Event::Opened(Ok(supports)));
        let remote = open(opened).expect("opened");
        assert_eq!(remote.supports_tool_calls(), supports && tools > 0);
    }

    let mut remote = open(ConversationResponse::Opened).expect("opened");
    let mut daemon = connection(Stage::Running, 0);
    let result = GenerationResult {
        text: "t".to_string(),
        time_to_first_token_ms: 1,
        tokens_generated: 2,
        committed_tokens: 3,
        context_size: 4,
        formatted_prompt: "p".to_string(),
        tool_calls: vec![ToolCall { name: "n".to_string(), arguments: Json::Bool(true) }],
        truncated_tool_call: true,
    };
    let response = answer(&mut daemon, Event::Ran(Ok(result)));
    let got = as_conversation_result(remote.take_reply(Ok(response))).expect("a reply");
    assert_eq!((got.text.as_str(), got.formatted_prompt.as_str()), ("t", "p"));
    assert_eq!((got.time_to_first_token_ms, got.tokens_generated), (1, 2));
    assert_eq!((got.committed_tokens, got.context_size), (3, 4));
    assert_eq!(got.tool_calls, [ToolCall { name: "n".to_string(), arguments: Json::Bool(true) }]);
    assert!(got.truncated_tool_call);

    daemon.stage = Stage::Running;
    let response = answer(&mut daemon, Event::Ran(Err("gone".to_string())));
    let error = as_conversation_result(remote.take_reply(Ok(response))).expect_err("gone");
    assert_eq!(error.message(), "conversation backend error: rampiped reported an error: gone");
    assert_eq!(daemon.stage, Stage::Idle);

    daemon.stage = Stage::Saving;
    let response = answer(&mut daemon, Event::Saved(Ok(())));
    assert!(rampipe::client::read_snapshot(Ok(response)).is_ok());
    assert_eq!(daemon.stage, Stage::Closed);
}
