use rampipe::client::{RampipedConversation, RampipedError};
use rampipe::json::Json;
use rampipe::protocol::{
    ClientMessage, ConversationRequest, ConversationResponse, ConversationTurnRequest,
    OpenConversationRequest, SnapshotRef, ToolSpec, WireOverflowPolicy,
};
use rampipe::scripted::{estimate_tokens, Incoming, Said, Script, ScriptError, ScriptedDaemon, Session, Turn};
use rampipe::transcript;
use std::cell::RefCell;

fn tools() -> Vec<ToolSpec> {
    vec![ToolSpec::new(
        "read",
        "read a file",
        Json::object(vec![
            ("type".to_string(), Json::text("object")),
            ("properties".to_string(), Json::object(Vec::new())),
        ]),
    )]
}

/// A scripted daemon and the one connection to it.
struct Line {
    daemon: RefCell<ScriptedDaemon>,
    session: RefCell<Option<Session>>,
}

impl Line {
    fn to(script: Script) -> Self {
        Line { daemon: RefCell::new(ScriptedDaemon::new(script)), session: RefCell::new(None) }
    }

    fn open(
        &self,
        n_ctx: u32,
        system: Option<&str>,
        tools: Vec<ToolSpec>,
    ) -> Result<RampipedConversation, RampipedError> {
        RampipedConversation::open(
            "/tmp/rampiped.sock",
            "/nonexistent/model.gguf",
            n_ctx,
            WireOverflowPolicy::DropOldestTurns,
            None,
            system.map(str::to_string),
            tools,
            None,
            &|_socket: &str, message: &ClientMessage<f32>| {
                let ClientMessage::OpenConversation(request) = message else {
                    panic!("a conversation is opened");
                };
                let copy: ClientMessage<f32> =
                    ClientMessage::OpenConversation(OpenConversationRequest {
                        model_path: request.model_path.clone(),
                        n_ctx: request.n_ctx,
                        overflow: request.overflow,
                        restore_from: None,
                        system: request.system.clone(),
                        tools: request
                            .tools
                            .iter()
                            .map(|t| {
                                ToolSpec::new(
                                    &t.function.name,
                                    &t.function.description,
                                    t.function.parameters.clone(),
                                )
                            })
                            .collect(),
                        tool_format: None,
                    });
                let (response, session) = self.daemon.borrow_mut().open(Some(copy));
                *self.session.borrow_mut() = session;
                Ok(response)
            },
        )
    }

    fn carry(
        &self,
        request: &ConversationRequest<f32>,
    ) -> Result<ConversationResponse, RampipedError> {
        let copy: ConversationRequest<f32> = match request {
            ConversationRequest::Turn(turn) => ConversationRequest::Turn(ConversationTurnRequest {
                tool_results: turn.tool_results.clone(),
                message: turn.message.clone(),
                max_new_tokens: turn.max_new_tokens,
                sampling: turn.sampling,
                grammar: turn.grammar.clone(),
                assistant_prefill: turn.assistant_prefill.clone(),
                grammar_completion: None,
            }),
            ConversationRequest::Snapshot(at) => ConversationRequest::Snapshot(SnapshotRef {
                state_path: at.state_path.clone(),
                meta_path: at.meta_path.clone(),
            }),
        };
        let mut session = self.session.borrow_mut();
        let answer = self
            .daemon
            .borrow_mut()
            .answer(session.as_mut().expect("open"), Incoming::Request(copy));
        Ok(answer.response.expect("a response"))
    }
}

#[test]
fn the_transcript_distinguishes_the_opening_from_the_first_turn() {
    let line = Line::to(Script::new(vec![Turn::says("ok")]));
    let mut conversation =
        line.open(4096, Some("SYSTEM: the briefing"), tools()).expect("open");
    conversation
        .send("begin", None, None, None, None, None, &|request: &ConversationRequest<f32>| {
            line.carry(request)
        })
        .expect("turn");
    drop(conversation);

    let daemon = line.daemon.borrow();
    let transcript = daemon.transcript();
    assert_eq!(transcript.len(), 2, "{transcript:?}");
    assert_eq!(
        transcript[0],
        Said::Opened {
            system: Some("SYSTEM: the briefing".to_string()),
            tools: vec!["read".to_string()],
            n_ctx: 4096,
        }
    );
    assert_eq!(transcript[1], Said::Message("begin".to_string()));
    assert_eq!(daemon.system_block().as_deref(), Some("SYSTEM: the briefing"));
    assert_eq!(daemon.turns_served(), 1);
    assert_eq!(transcript[0].text(), "SYSTEM: the briefing");
    assert_eq!(transcript[1].text(), "begin");
}

#[test]
fn a_tool_result_is_not_recorded_as_a_message() {
    let line = Line::to(Script::new(vec![
        Turn::calls("read", Json::object(Vec::new())),
        Turn::says("done"),
    ]));
    let mut conversation = line.open(4096, None, tools()).expect("open");
    let first = conversation
        .send("go", None, None, None, None, None, &|request: &ConversationRequest<f32>| {
            line.carry(request)
        })
        .expect("turn");
    assert_eq!(first.tool_calls.len(), 1, "the script's call has to arrive as a call");
    assert_eq!(first.tool_calls[0].name, "read");
    conversation
        .send_tool_results(
            &["the file contents".to_string()],
            None,
            None,
            None,
            None,
            &|request: &ConversationRequest<f32>| line.carry(request),
        )
        .expect("results");
    drop(conversation);

    let transcript = line.daemon.borrow().transcript();
    assert_eq!(transcript[1], Said::Message("go".to_string()));
    assert_eq!(transcript[2], Said::ToolResults(vec!["the file contents".to_string()]));
}

#[test]
fn a_script_can_put_the_window_wherever_it_needs_it() {
    let line = Line::to(Script::new(vec![
        Turn::says("comfortable").at_context(7031, 12288),
        Turn::degenerate("I'm in the world and if I'm in the ", 40).at_context(11448, 12288),
    ]));
    let mut conversation = line.open(12288, None, Vec::new()).expect("open");

    let carry = |request: &ConversationRequest<f32>| line.carry(request);
    let healthy = conversation.send("one", None, None, None, None, None, &carry).expect("turn");
    assert_eq!((healthy.committed_tokens, healthy.context_size), (7031, 12288));
    let collapsed = conversation.send("two", None, None, None, None, None, &carry).expect("turn");
    assert_eq!(collapsed.committed_tokens, 11448);
    assert!(collapsed.text.matches("I'm in the world").count() > 30);
    assert_eq!(conversation.turn_count(), 2);
}

#[test]
fn asking_for_more_turns_than_the_script_has_is_an_error() {
    let line = Line::to(Script::new(vec![Turn::says("only one")]));
    let mut conversation = line.open(4096, None, Vec::new()).expect("open");
    let carry = |request: &ConversationRequest<f32>| line.carry(request);
    conversation
        .send("one", None, None, None, None, None, &carry)
        .expect("the first is scripted");
    let second = conversation.send("two", None, None, None, None, None, &carry);
    let error = second.expect_err("the second is not").message();
    assert!(error.contains("ran out") && error.contains("turn 2"), "{error}");
    assert_eq!(conversation.turn_count(), 1, "a failure is no exchange");
    assert_eq!(line.daemon.borrow().turns_served(), 1, "there was one to use up");
}

#[test]
fn a_script_has_run_out_once_it_is_asked_for_more() {
    let mut daemon = ScriptedDaemon::new(Script::new(vec![Turn::says("only one")]));
    let mut session = Session { committed: 0 };
    assert!(!daemon.has_run_out());
    daemon.answer(&mut session, said("one", None));
    assert!(!daemon.has_run_out());
    for _ in 0..2 {
        daemon.answer(&mut session, said("more", None));
        assert!(daemon.has_run_out());
        assert_eq!(daemon.turns_served(), 1);
    }
}

fn said(message: &str, results: Option<Vec<String>>) -> Incoming<f32> {
    Incoming::Request(ConversationRequest::Turn(ConversationTurnRequest {
        tool_results: results,
        message: message.to_string(),
        max_new_tokens: None,
        sampling: None,
        grammar: None,
        assistant_prefill: None,
        grammar_completion: None,
    }))
}

#[test]
fn a_conversation_adds_up_whatever_comes_between() {
    let mut daemon = ScriptedDaemon::new(Script::new(vec![
        Turn::says("12345678"),
        Turn::says("12"),
        Turn::says("1234"),
    ]));
    let (_, session) = daemon.open::<f32>(Some(ClientMessage::OpenConversation(
        OpenConversationRequest {
            model_path: "/m".to_string(),
            n_ctx: 64,
            overflow: WireOverflowPolicy::Fail,
            restore_from: None,
            system: Some("12345".to_string()),
            tools: Vec::new(),
            tool_format: None,
        },
    )));
    let mut session = session.expect("open");
    assert_eq!(session.committed, 2);
    let committed = |response: Option<ConversationResponse>| match response {
        Some(ConversationResponse::Turn { committed_tokens, .. }) => committed_tokens,
        other => panic!("not a turn: {other:?}"),
    };
    let first = daemon.answer(&mut session, said("1234", None));
    assert_eq!(committed(first.response), 2 + 1 + 2);
    daemon.answer::<f32>(&mut session, Incoming::Blank);
    let results = vec!["123".to_string(), "123".to_string()];
    let second = daemon.answer(&mut session, said("ignored", Some(results.clone())));
    assert_eq!(committed(second.response), 5 + 2 + 1);
    let saved = daemon.answer::<f32>(
        &mut session,
        Incoming::Request(ConversationRequest::Snapshot(SnapshotRef {
            state_path: "/s".to_string(),
            meta_path: "/m".to_string(),
        })),
    );
    assert!(!saved.goes_on);
    assert_eq!(session.committed, 8);
    assert_eq!(daemon.turns_served(), 2);
    assert_eq!(
        daemon.transcript(),
        vec![
            Said::Opened { system: Some("12345".to_string()), tools: Vec::new(), n_ctx: 64 },
            Said::Message("1234".to_string()),
            Said::ToolResults(results),
        ]
    );
}

#[test]
fn a_script_can_refuse_to_support_tool_calls() {
    let script = Script { supports_tool_calls: false, ..Script::new(vec![Turn::says("hi")]) };
    let line = Line::to(script);
    let conversation = line.open(4096, None, tools()).expect("open");
    assert!(!conversation.supports_tool_calls());
    let usable = Line::to(Script::new(Vec::new()));
    assert!(usable.open(4096, None, tools()).expect("open").supports_tool_calls());
    assert!(!usable.open(4096, None, Vec::new()).expect("open").supports_tool_calls());
}

#[test]
fn saving_a_scripted_conversation_is_acknowledged() {
    let line = Line::to(Script::new(Vec::new()));
    let mut conversation = line.open(4096, None, Vec::new()).expect("open");
    conversation
        .snapshot("/s/a.state", "/s/a.json", &|request: &ConversationRequest<f32>| {
            line.carry(request)
        })
        .expect("saved");
    assert_eq!(line.daemon.borrow().turns_served(), 0);
}

#[test]
fn only_conversations_are_served() {
    let mut daemon = ScriptedDaemon::new(Script::new(Vec::new()));
    let (response, session) = daemon.open::<f32>(Some(ClientMessage::Status));
    assert!(session.is_none());
    assert!(matches!(response, ConversationResponse::Failed { message }
        if message == "this is a scripted rampiped -- it serves conversations only"));
    assert!(daemon.open::<f32>(None).1.is_none());
    assert!(daemon.transcript().is_empty());
}

#[test]
fn blank_lines_are_passed_over_and_others_must_decode() {
    let mut daemon = ScriptedDaemon::new(Script::new(vec![Turn::says("x")]));
    let mut session = Session { committed: 0 };
    let blank = daemon.answer::<f32>(&mut session, Incoming::Blank);
    assert!(blank.response.is_none() && blank.goes_on);
    let bad = daemon.answer::<f32>(&mut session, Incoming::Undecodable("{".to_string()));
    assert!(!bad.goes_on);
    assert!(matches!(bad.response, Some(ConversationResponse::Failed { message })
        if message == "scripted rampiped could not decode: {"));
    assert_eq!(daemon.turns_served(), 0);
}

#[test]
fn replies_are_measured_where_the_script_says_nothing() {
    assert_eq!(estimate_tokens(""), 0);
    assert_eq!(estimate_tokens("a"), 1);
    assert_eq!(estimate_tokens("abcd"), 1);
    assert_eq!(estimate_tokens("abcde"), 2);
    assert_eq!(estimate_tokens("éé"), 1);

    let line = Line::to(Script::new(vec![Turn::says("12345678")]));
    let mut conversation = line.open(4096, Some("1234"), Vec::new()).expect("open");
    let reply = conversation
        .send("12345", None, None, None, None, None, &|request: &ConversationRequest<f32>| {
            line.carry(request)
        })
        .expect("turn");
    assert_eq!(reply.tokens_generated, 2);
    assert_eq!(reply.committed_tokens, 1 + 2 + 2);
    assert_eq!(reply.context_size, 12288);
}

#[test]
fn a_truncated_turn_carries_no_call() {
    let turn = Turn::truncated("<tool_call>read {");
    assert!(turn.truncated_tool_call);
    assert!(turn.tool_calls.is_empty());
    let called = Turn::calls("read", Json::object(vec![("path".to_string(), Json::text("a"))]));
    assert_eq!(called.text, "<tool_call>read {\"path\":\"a\"}</tool_call>");
    assert_eq!(called.tool_calls.len(), 1);
}

#[test]
fn an_entry_is_recorded_in_full() {
    let opened = Said::Opened {
        system: None,
        tools: vec!["read".to_string(), "write".to_string()],
        n_ctx: 4096,
    };
    assert_eq!(
        transcript::full_record(&opened),
        "===== OPENED n_ctx=4096 tools=[read, write]\n(no system block)\n"
    );
    assert_eq!(
        transcript::full_record(&Said::Message("hello\nthere".to_string())),
        "===== MESSAGE\nhello\nthere\n"
    );
    let results = Said::ToolResults(vec!["a".to_string(), "b".to_string()]);
    assert_eq!(
        transcript::full_record(&results),
        "===== TOOL RESULTS (2)\na\n----- next result -----\nb\n"
    );
    assert_eq!(
        transcript::full_transcript(&[Said::Message("x".to_string()), results]),
        "===== MESSAGE\nx\n===== TOOL RESULTS (2)\na\n----- next result -----\nb\n"
    );
}

#[test]
fn an_entry_is_shown_indented_and_clipped() {
    let opened = Said::Opened { system: Some("a\nb".to_string()), tools: Vec::new(), n_ctx: 8 };
    assert_eq!(
        transcript::render(&opened),
        "\n── opened ── n_ctx 8, tools []\n   system block: 3 chars\n   | a\n   | b"
    );
    let none = Said::Opened { system: None, tools: vec!["t".to_string()], n_ctx: 8 };
    assert_eq!(
        transcript::render(&none),
        "\n── opened ── n_ctx 8, tools [t]\n   system block: (none)"
    );
    let long: Vec<String> = (1..=14).map(|n| n.to_string()).collect();
    let shown = transcript::render(&Said::Message(long.join("\n")));
    assert!(shown.starts_with("\n── message ──\n   | 1\n   | 2\n"));
    assert!(shown.ends_with("   | 12\n   | ... (2 more lines)"), "{shown}");
    assert_eq!(
        transcript::render(&Said::ToolResults(vec!["a".to_string(), "b".to_string()])),
        "\n── tool results (2) ──\n   | a\n   | ---\n   | b"
    );
}

#[test]
fn lines_end_as_they_do_in_files() {
    assert_eq!(transcript::lines(""), Vec::<String>::new());
    assert_eq!(transcript::lines("a\r\nb\n\nc\r"), vec!["a", "b", "", "c\r"]);
    assert_eq!(transcript::lines("a\n"), vec!["a"]);
}

#[test]
fn a_missing_script_is_named() {
    let io = ScriptError::Io { path: "s.toml".to_string(), cause: "gone".to_string() };
    assert_eq!(io.message(), "reading script s.toml: gone");
    let parse = ScriptError::Parse { path: "s.toml".to_string(), cause: "odd".to_string() };
    assert_eq!(parse.message(), "parsing script s.toml: odd");
}
