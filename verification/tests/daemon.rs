use rampipe::args::{
    check_rest, daemon_flags, script_flags, take_flag_value, DaemonCommand, ScriptCommand,
};
use rampipe::connection::{generate_reply, Action, Connection, Event, Stage};
use rampipe::conversation::GenerationResult;
use rampipe::daemon::{tokens_of, tokens_of_turn, DaemonState, LoadStep, RoomStep};
use rampipe::protocol::{
    ConversationRequest, ConversationResponse, ConversationTurnRequest, GenerateResponse,
    OpenConversationRequest, SnapshotRef, ToolSpec, WireOverflowPolicy,
};
use rampipe::json::Json;
use rampipe::registry::{LoadError, Mapping, Residency};

const HALF: u32 = 500_000;

fn load(state: &mut DaemonState, path: &str, bytes: usize, device_bytes: Option<u64>) {
    let handle = state
        .start_load(path, &|_path: &str, _residency: Residency| {
            Ok(Mapping {
                head: b"GGUF".to_vec(),
                len: bytes,
                map_latency_us: 1,
                prefault_latency_us: 1,
                rss_delta_bytes: None,
                resident_fraction: None,
            })
        })
        .expect("load");
    state.finish_load(handle, device_bytes);
}

fn evicted(step: RoomStep) -> Option<String> {
    match step {
        RoomStep::Proceed => None,
        RoomStep::Evicted(path) => Some(path),
    }
}

#[test]
fn a_model_that_fits_evicts_nothing() {
    let mut state = DaemonState::new(HALF);
    load(&mut state, "a", 100, None);
    // (100 + 100) of (300 + 100) is exactly half.
    assert_eq!(evicted(state.make_room_for(100, Some(300), None)), None);
    assert!(state.is_loaded("a"));
    // One byte more is not.
    assert_eq!(evicted(state.make_room_for(101, Some(300), None)).as_deref(), Some("a"));
    assert!(!state.is_loaded("a"));
}

#[test]
fn the_least_recently_used_goes_first() {
    let mut state = DaemonState::new(HALF);
    load(&mut state, "a", 100, None);
    load(&mut state, "b", 100, None);
    load(&mut state, "c", 100, None);
    assert!(state.touch("a"));
    assert!(!state.touch("unknown"));
    assert_eq!(evicted(state.make_room_for(1000, Some(0), None)).as_deref(), Some("b"));
    assert_eq!(evicted(state.make_room_for(1000, Some(0), None)).as_deref(), Some("c"));
    assert_eq!(evicted(state.make_room_for(1000, Some(0), None)).as_deref(), Some("a"));
    // Nothing is left to evict: the request is served all the same.
    assert_eq!(evicted(state.make_room_for(1000, Some(0), None)), None);
}

#[test]
fn a_model_in_a_conversation_is_not_evicted() {
    let mut state = DaemonState::new(HALF);
    load(&mut state, "a", 100, None);
    load(&mut state, "b", 100, None);
    assert!(state.pin("a"));
    assert!(!state.pin("unknown"));
    assert_eq!(evicted(state.make_room_for(1000, Some(0), None)).as_deref(), Some("b"));
    assert_eq!(evicted(state.make_room_for(1000, Some(0), None)), None);
    state.unpin("a");
    assert_eq!(evicted(state.make_room_for(1000, Some(0), None)).as_deref(), Some("a"));
}

#[test]
fn a_model_is_loaded_once_others_made_room() {
    let mut state = DaemonState::new(HALF);
    load(&mut state, "a", 100, None);
    load(&mut state, "b", 100, None);
    assert!(matches!(state.ensure_loaded("a", 100, Some(0), None), LoadStep::Ready));
    let step = state.ensure_loaded("c", 100, Some(0), None);
    assert!(matches!(step, LoadStep::Evicted(path) if path == "b"));
    assert!(state.pin("a"));
    assert!(matches!(state.ensure_loaded("c", 100, Some(0), None), LoadStep::Load));
    assert!(state.is_loaded("a"));
}

#[test]
fn device_pressure_evicts_what_holds_device_memory() {
    let mut state = DaemonState::new(HALF);
    load(&mut state, "host", 100, None);
    load(&mut state, "device", 100, Some(100));
    let id = state.choose_eviction(1000, None, Some(0)).expect("something is chosen");
    assert_eq!(state.path_for_id(id), Some("device"));
    assert_eq!(evicted(state.make_room_for(1000, None, Some(0))).as_deref(), Some("device"));
    assert!(state.is_loaded("host"));
    assert_eq!(evicted(state.make_room_for(1000, None, Some(0))), None);
    // Where memory cannot be measured, nothing is refused.
    assert_eq!(evicted(state.make_room_for(1000, None, None)), None);
}

#[test]
fn an_abandoned_load_leaves_no_session() {
    let mut state = DaemonState::new(HALF);
    let handle = state
        .start_load("a", &|_path: &str, _residency: Residency| {
            Ok(Mapping {
                head: b"GGUF".to_vec(),
                len: 8,
                map_latency_us: 1,
                prefault_latency_us: 1,
                rss_delta_bytes: None,
                resident_fraction: None,
            })
        })
        .expect("load");
    state.abandon_load(handle);
    assert!(!state.is_loaded("a"));
    let refused = state.start_load("b", &|_path: &str, _residency: Residency| {
        Err(LoadError::Io("no such file".to_string()))
    });
    assert_eq!(refused.expect_err("refused").message(), "io error loading model: no such file");
}

#[test]
fn outcomes_are_counted_once_each() {
    let mut state = DaemonState::new(HALF);
    load(&mut state, "a", 100, None);
    load(&mut state, "b", 50, None);
    state.record_outcome("a", Some(7), 1000);
    state.record_outcome("b", Some(5), 2000);
    state.record_outcome("a", Some(1), 3000);
    state.record_outcome("a", None, 4000);
    let status = state.status(42, Some("/bin/rampiped".to_string()), Some(9), 60, Some((3, 4)));
    assert_eq!((status.pid, status.uptime_secs), (42, 60));
    assert_eq!(status.exe_path.as_deref(), Some("/bin/rampiped"));
    assert_eq!(status.exe_modified_unix_secs, Some(9));
    assert_eq!((status.requests_served, status.requests_failed), (3, 1));
    assert_eq!(status.total_tokens_generated, 13);
    assert_eq!(status.resident_bytes, 150);
    assert_eq!((status.gpu_free_bytes, status.gpu_total_bytes), (Some(3), Some(4)));
    let a = status.models.iter().find(|m| m.path == "a").expect("a is listed");
    assert_eq!((a.requests_served, a.tokens_generated, a.last_used_unix_secs), (2, 8, 3000));
    let b = status.models.iter().find(|m| m.path == "b").expect("b is listed");
    assert_eq!((b.requests_served, b.tokens_generated, b.last_used_unix_secs), (1, 5, 2000));
    assert_eq!(status.models.len(), 2);
}

#[test]
fn counters_describe_the_current_residency() {
    let mut state = DaemonState::new(HALF);
    load(&mut state, "a", 100, None);
    state.record_outcome("a", Some(7), 1000);
    assert_eq!(evicted(state.make_room_for(1000, Some(0), None)).as_deref(), Some("a"));
    load(&mut state, "a", 100, None);
    let stats = state.stats_for("a");
    assert_eq!((stats.requests_served, stats.tokens_generated), (0, 0));
    assert_eq!(state.requests_served, 1);
    let gone = state.status(1, None, None, 0, None);
    assert_eq!((gone.gpu_free_bytes, gone.gpu_total_bytes), (None, None));
}

fn request(n_ctx: u32, tools: usize, restores: bool) -> OpenConversationRequest {
    OpenConversationRequest {
        model_path: "/m/a.gguf".to_string(),
        n_ctx,
        overflow: WireOverflowPolicy::DropOldestTurns,
        restore_from: if restores {
            Some(SnapshotRef { state_path: "s".to_string(), meta_path: "m".to_string() })
        } else {
            None
        },
        system: None,
        tools: (0..tools).map(|_| ToolSpec::new("read", "Read", Json::Null)).collect(),
        tool_format: None,
    }
}

fn result() -> GenerationResult {
    GenerationResult {
        text: "hello".to_string(),
        time_to_first_token_ms: 3,
        tokens_generated: 2,
        committed_tokens: 30,
        context_size: 4096,
        formatted_prompt: "p".to_string(),
        tool_calls: Vec::new(),
        truncated_tool_call: false,
    }
}

fn turn(message: &str) -> ConversationTurnRequest<f32> {
    ConversationTurnRequest {
        tool_results: None,
        message: message.to_string(),
        max_new_tokens: None,
        sampling: None,
        grammar: None,
        assistant_prefill: None,
        grammar_completion: None,
    }
}

fn failure(action: Action<f32>) -> (String, bool) {
    match action {
        Action::Reply { response: ConversationResponse::Failed { message }, counted } => {
            (message, counted)
        }
        other => panic!("not a failure: {other:?}"),
    }
}

#[test]
fn a_conversation_is_served_until_the_client_is_gone() {
    let mut connection = Connection::new(&request(4096, 1, false));
    assert_eq!(connection.stage, Stage::Loading);
    assert!(matches!(connection.handle::<f32>(Event::Loaded(Ok(()))), Action::Open));
    assert!(matches!(
        connection.handle::<f32>(Event::Opened(Ok(true))),
        Action::Reply {
            response: ConversationResponse::OpenedWithTools { supports_tool_calls: true },
            counted: false
        }
    ));
    let action = connection.handle(Event::Line(Ok(ConversationRequest::Turn(turn("hi")))));
    assert!(matches!(action, Action::Run(turn) if turn.message == "hi"));
    let Action::Reply { response, counted } = connection.handle::<f32>(Event::Ran(Ok(result())))
    else {
        panic!("a reply");
    };
    assert!(counted);
    assert_eq!(tokens_of_turn(&response), Some(2));
    assert_eq!(connection.stage, Stage::Idle);
    assert!(matches!(connection.handle::<f32>(Event::Hangup), Action::Hangup));
    assert_eq!(connection.stage, Stage::Closed);
}

#[test]
fn failures_are_answered_and_only_turns_are_counted() {
    let mut connection = Connection::new(&request(4096, 0, false));
    let refused = connection.handle(Event::Loaded(Err("loading model x: gone".to_string())));
    assert_eq!(failure(refused), ("loading model x: gone".to_string(), false));
    assert_eq!(connection.stage, Stage::Closed);

    let mut connection = Connection::new(&request(4096, 0, false));
    connection.handle::<f32>(Event::Loaded(Ok(())));
    let refused = connection.handle(Event::Opened(Err("no template".to_string())));
    assert_eq!(failure(refused), ("no template".to_string(), false));
    assert_eq!(connection.stage, Stage::Closed);

    let mut connection = Connection::new(&request(4096, 0, false));
    connection.handle::<f32>(Event::Loaded(Ok(())));
    assert!(matches!(
        connection.handle::<f32>(Event::Opened(Ok(true))),
        Action::Reply { response: ConversationResponse::Opened, counted: false }
    ));
    let refused = connection.handle(Event::Line(Err("EOF".to_string())));
    assert_eq!(failure(refused), ("decoding conversation turn: EOF".to_string(), false));
    assert_eq!(connection.stage, Stage::Idle);
    connection.handle(Event::Line(Ok(ConversationRequest::Turn(turn("hi")))));
    let refused = connection.handle(Event::Ran(Err("decode error".to_string())));
    assert_eq!(failure(refused), ("decode error".to_string(), true));
    assert_eq!(connection.stage, Stage::Idle);
}

#[test]
fn saving_ends_a_conversation_unless_it_fails() {
    let mut connection = Connection::new(&request(0, 0, true));
    assert!(matches!(connection.handle::<f32>(Event::Loaded(Ok(()))), Action::Open));
    connection.handle::<f32>(Event::Opened(Ok(false)));
    let save = || {
        Event::<f32>::Line(Ok(ConversationRequest::Snapshot(SnapshotRef {
            state_path: "/s".to_string(),
            meta_path: "/m".to_string(),
        })))
    };
    let action = connection.handle(save());
    assert!(matches!(action, Action::Save(at) if at.state_path == "/s" && at.meta_path == "/m"));
    let refused = connection.handle(Event::Saved(Err("disk full".to_string())));
    assert_eq!(failure(refused), ("disk full".to_string(), false));
    connection.handle(save());
    assert!(matches!(
        connection.handle::<f32>(Event::Saved(Ok(()))),
        Action::Reply { response: ConversationResponse::Snapshotted, counted: false }
    ));
    assert_eq!(connection.stage, Stage::Closed);
}

#[test]
fn a_context_has_to_have_a_size_unless_it_is_restored() {
    let mut connection = Connection::new(&request(0, 0, false));
    let refused = connection.handle::<f32>(Event::Loaded(Ok(())));
    assert_eq!(failure(refused), ("n_ctx must be nonzero".to_string(), false));
    assert_eq!(connection.stage, Stage::Closed);
}

#[test]
fn a_generation_is_answered_either_way() {
    let done = generate_reply(Ok(result()));
    assert_eq!(tokens_of(&done), Some(2));
    assert!(matches!(&done, GenerateResponse::Done { text, .. } if text == "hello"));
    let failed = generate_reply(Err("no".to_string()));
    assert_eq!(tokens_of(&failed), None);
    assert!(matches!(&failed, GenerateResponse::Failed { message } if message == "no"));
    assert_eq!(tokens_of_turn(&ConversationResponse::Opened), None);
}

fn words(line: &str) -> Vec<String> {
    line.split(' ').filter(|w| !w.is_empty()).map(str::to_string).collect()
}

#[test]
fn a_flag_is_taken_with_its_value() {
    let mut args = words("a --socket /s b");
    assert_eq!(take_flag_value(&mut args, "--socket"), Ok(Some("/s".to_string())));
    assert_eq!(args, words("a b"));
    assert_eq!(take_flag_value(&mut args, "--socket"), Ok(None));
    assert_eq!(args, words("a b"));
    let mut args = words("a --socket");
    assert_eq!(take_flag_value(&mut args, "--socket"), Err(()));
}

#[test]
fn the_daemons_flags_are_read() {
    let Ok(DaemonCommand::Run(flags)) = daemon_flags(words("--budget-fraction 0.5 --socket /s"))
    else {
        panic!("run");
    };
    assert_eq!(flags.socket.as_deref(), Some("/s"));
    assert_eq!(flags.budget_fraction.as_deref(), Some("0.5"));
    assert_eq!(check_rest(&flags.rest), Ok(()));
    let Ok(DaemonCommand::Run(flags)) = daemon_flags(words("x y")) else {
        panic!("run");
    };
    assert_eq!(flags.socket, None);
    assert_eq!(check_rest(&flags.rest), Err("unrecognized argument(s): x y".to_string()));
    assert!(matches!(daemon_flags(words("--socket /s -h")), Ok(DaemonCommand::Help)));
    assert!(matches!(daemon_flags(words("--help")), Ok(DaemonCommand::Help)));
    assert!(matches!(
        daemon_flags(words("--socket")),
        Err(message) if message == "--socket requires a value"
    ));
    assert!(matches!(
        daemon_flags(words("--budget-fraction")),
        Err(message) if message == "--budget-fraction requires a value"
    ));
}

#[test]
fn the_scripts_flags_are_read() {
    let Ok(ScriptCommand::Run(flags)) =
        script_flags(words("--script c.toml --transcript t --socket /s"))
    else {
        panic!("run");
    };
    assert_eq!((flags.socket.as_str(), flags.script.as_str()), ("/s", "c.toml"));
    assert_eq!(flags.transcript.as_deref(), Some("t"));
    assert!(matches!(script_flags(words("-h")), Ok(ScriptCommand::Help)));
    let refused = |line: &str| match script_flags(words(line)) {
        Err(message) => message,
        Ok(_) => panic!("refused"),
    };
    assert_eq!(refused("--script c.toml"), "--socket is required");
    assert_eq!(refused("--socket /s"), "--script is required");
    assert_eq!(refused("--socket /s --script"), "--script needs a value");
    assert_eq!(refused("--socket"), "--socket needs a value");
    assert_eq!(
        refused("--socket /s --script c.toml --transcript"),
        "--transcript needs a value"
    );
    assert_eq!(refused("--socket /s --script c.toml z"), "unrecognized argument(s): z");
}
