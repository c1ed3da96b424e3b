use rampipe::protocol::{
    default_socket_path, generate_response, opened_response, sampling_to_wire, turn_response,
    wire_overflow_to_overflow, wire_sampling_to_sampling, ConversationResponse, GenerateResponse,
    GrammarCompletion, WireOverflowPolicy, WirePenalties, WirePooling, WireSampling,
};
use rampipe::connection::{frame, unframe};
use rampipe::conversation::{GenerationResult, Penalties, Sampling};
use rampipe::ledger::OverflowPolicy;
use rampipe::session::Pooling;

#[test]
fn default_socket_path_ends_with_the_expected_relative_layout() {
    let path = default_socket_path(Some("/home/u")).expect("HOME is given");
    assert!(path.ends_with(".rampipe/rampiped.sock"));
    assert_eq!(path, "/home/u/.rampipe/rampiped.sock");
    assert_eq!(default_socket_path(None), None);
    assert_eq!(default_socket_path(Some("/")).as_deref(), Some("/.rampipe/rampiped.sock"));
}

fn result() -> GenerationResult {
    GenerationResult {
        text: "hi".to_string(),
        time_to_first_token_ms: 12,
        tokens_generated: 3,
        committed_tokens: 40,
        context_size: 4096,
        formatted_prompt: "prompt".to_string(),
        tool_calls: Vec::new(),
        truncated_tool_call: true,
    }
}

#[test]
fn answers_carry_what_was_generated() {
    let GenerateResponse::Done { text, tokens_generated, time_to_first_token_ms, formatted_prompt } =
        generate_response(result())
    else {
        panic!("done");
    };
    assert_eq!((text.as_str(), tokens_generated, time_to_first_token_ms), ("hi", 3, 12));
    assert_eq!(formatted_prompt, "prompt");
    let ConversationResponse::Turn { committed_tokens, context_size, truncated_tool_call, .. } =
        turn_response(result())
    else {
        panic!("turn");
    };
    assert_eq!((committed_tokens, context_size, truncated_tool_call), (40, 4096, true));
}

#[test]
fn opening_says_whether_tools_work_only_where_tools_were_offered() {
    assert!(matches!(opened_response(0, true), ConversationResponse::Opened));
    assert!(matches!(
        opened_response(1, false),
        ConversationResponse::OpenedWithTools { supports_tool_calls: false }
    ));
}

#[test]
fn sampling_survives_the_wire() {
    let sampling = Sampling::Temperature {
        temperature: 7u32,
        top_k: 20,
        top_p: 9,
        min_p: 1,
        seed: 42,
        penalties: Penalties { last_n: 64, repeat: 11, freq: 2, present: 3 },
    };
    let WireSampling::Temperature { temperature, top_k, seed, penalties, .. } =
        sampling_to_wire(sampling)
    else {
        panic!("temperature");
    };
    assert_eq!((temperature, top_k, seed, penalties.last_n), (7, 20, 42, 64));
    let back = wire_sampling_to_sampling(WireSampling::Greedy {
        penalties: WirePenalties { last_n: 1, repeat: 2u32, freq: 3, present: 4 },
    });
    assert!(matches!(back, Sampling::Greedy { penalties: Penalties { last_n: 1, repeat: 2, freq: 3, present: 4 } }));
}

#[test]
fn a_message_is_a_line() {
    assert_eq!(frame("\"Status\""), "\"Status\"\n");
    assert_eq!(unframe("\"Status\"\n"), "\"Status\"");
    assert_eq!(unframe("  \t\n"), "");
}

#[test]
fn completions_end_where_the_text_is_complete() {
    let options = GrammarCompletion::ExactMatch(vec!["YES".to_string(), "NO".to_string()]);
    assert!(options.is_complete("YES"));
    assert!(!options.is_complete(" NO\n"));
    assert!(!options.is_complete("YE"));
    let json = GrammarCompletion::ValidJson { prefill: "{".to_string() };
    assert!(json.is_complete("\"a\": 1}"));
    assert!(!json.is_complete("\"a\": 1"));
    let complete = GrammarCompletion::ExactMatch(vec!["A".to_string()]).into_predicate();
    assert!(complete("A") && !complete("B"));
}

#[test]
fn policies_and_poolings_survive_the_wire() {
    assert_eq!(wire_overflow_to_overflow(WireOverflowPolicy::Fail), OverflowPolicy::Fail);
    assert_eq!(
        wire_overflow_to_overflow(WireOverflowPolicy::DropOldestTurns),
        OverflowPolicy::DropOldestTurns
    );
    let pairs = [
        (WirePooling::Model, Pooling::Model),
        (WirePooling::Mean, Pooling::Mean),
        (WirePooling::Cls, Pooling::Cls),
        (WirePooling::Last, Pooling::Last),
    ];
    for (wire, pooling) in pairs {
        assert_eq!(Pooling::from_wire(wire), pooling);
    }
}
