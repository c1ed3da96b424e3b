use rampipe::conversation::{
    check_prompt, formatted_prompt, one_shot_result, prompt_without_template,
    supports_position_shift, ChatWrap, Conversation, ConversationError, ConversationHandle,
    ConversationOptions, GenerationResult, LlamaSessionError, Penalties, RopeKind, Sampling,
};
use rampipe::generation::{
    build_chain, decode_chunked, embed_capacity, BatchEntry, Generation, Stage, Step,
};
use rampipe::json::Json;
use rampipe::ledger::{KvShift, Ledger, NoRoom, OverflowPolicy, Role, TurnBoundary};
use rampipe::protocol::{GrammarCompletion, ToolFormat, ToolSpec};
use rampipe::session::{
    context_failure, device_footprint, embed, embed_batch, resolve_placement, EmbedFailure, Fit,
    GpuLayers, Placement, Pooling,
};
use rampipe::tool_format::TurnEnd;

const CHATML: &str = "{% for m in messages %}<|im_start|>{{ m.role }}\n{{ m.content }}<|im_end|>\n{% endfor %}{% if add_generation_prompt %}<|im_start|>assistant\n{% endif %}";

fn options(overflow: OverflowPolicy, system: Option<&str>) -> ConversationOptions {
    ConversationOptions {
        n_ctx: 100,
        overflow,
        system: system.map(str::to_string),
        tools: Vec::new(),
        tool_format: None,
    }
}

fn chat(overflow: OverflowPolicy) -> Conversation {
    Conversation::open(Some(CHATML), Some(RopeKind::NeoX), 100, options(overflow, None))
        .expect("the template has spans")
}

fn generation(text: &str, tokens: usize, from: i32) -> Generation {
    Generation {
        text: text.to_string(),
        tokens: (0..tokens as i32).collect(),
        n_cur: from + tokens as i32,
        budget_used: tokens as i32,
    }
}

/// One exchange of `user` and `reply` tokens.
fn exchange(c: &mut Conversation, user: usize, reply: usize) {
    let (_, room) = c.make_room(user as i32, reply as i32);
    room.expect("there is room");
    c.record_prompt(&vec![7; user]);
    let from = c.ledger.committed_pos;
    c.record_reply("p".to_string(), None, generation("r", reply, from), 1);
}

#[test]
fn turns_are_composed_from_the_templates_spans() {
    let mut c = chat(OverflowPolicy::Fail);
    let first = c.compose_turn("hi", None);
    assert!(first.add_bos);
    assert_eq!(first.text, "<|im_start|>user\nhi<|im_end|>\n<|im_start|>assistant\n");
    exchange(&mut c, 5, 5);
    let second = c.compose_turn("more", Some("{"));
    assert!(!second.add_bos);
    assert_eq!(
        second.text,
        "<|im_end|>\n<|im_start|>user\nmore<|im_end|>\n<|im_start|>assistant\n{"
    );
    assert_eq!(c.turn_count(), 1);
    // With no markers for results, they are said as a message.
    let results = c.compose_results(&["a".to_string(), "b".to_string()]);
    assert_eq!(
        results.text,
        "<|im_end|>\n<|im_start|>user\na\nb<|im_end|>\n<|im_start|>assistant\n"
    );
}

#[test]
fn a_reply_says_how_full_the_context_is() {
    let mut c = chat(OverflowPolicy::Fail);
    c.record_prompt(&[1, 2, 3]);
    let reply = c.record_reply("p".to_string(), Some("{"), generation("}", 4, 3), 9);
    assert_eq!(reply.text, "{}");
    assert_eq!((reply.tokens_generated, reply.committed_tokens, reply.context_size), (4, 7, 100));
    assert_eq!((reply.time_to_first_token_ms, reply.formatted_prompt.as_str()), (9, "p"));
    assert!(reply.tool_calls.is_empty());
    assert!(!reply.truncated_tool_call);
    assert!(!c.supports_tool_calls());
    assert!(c.turn_end().is_none());
    assert_eq!(c.ledger.tokens, [1, 2, 3, 0, 1, 2, 3]);
}

#[test]
fn the_opening_is_protected_where_it_is_tokenised_as_a_prefix() {
    let mut c = chat(OverflowPolicy::DropOldestTurns);
    assert!(!c.protect_opening(&[1, 9], &[1, 2, 3]));
    assert_eq!(c.ledger.protected_prefix, 0);
    assert!(c.protect_opening(&[1, 2], &[1, 2, 3]));
    assert_eq!(c.ledger.protected_prefix, 2);
    exchange(&mut c, 3, 3);
    assert!(c.protect_opening(&[1], &[1, 2, 3]));
    assert_eq!(c.ledger.protected_prefix, 2);
}

#[test]
fn the_oldest_exchanges_make_room_and_the_opening_stays() {
    let mut c = chat(OverflowPolicy::DropOldestTurns);
    let user: Vec<i32> = (0..20).collect();
    c.protect_opening(&user[..5], &user);
    c.record_prompt(&user);
    c.record_reply("p".to_string(), None, generation("r", 20, 20), 1);
    exchange(&mut c, 20, 20);
    assert_eq!(c.ledger.committed_pos, 80);
    let (shifts, room) = c.make_room(10, 15);
    assert!(room.is_ok());
    assert_eq!(shifts, [KvShift { start: 5, end: 40 }]);
    assert_eq!(c.ledger.committed_pos, 45);
    assert_eq!(&c.ledger.tokens[..5], &[0, 1, 2, 3, 4]);
    assert_eq!(c.ledger.turns[0], TurnBoundary { role: Role::User, start_pos: 5, end_pos: 25 });
    assert_eq!(c.turn_count(), 1);
    assert!(c.ledger.is_consistent());
}

#[test]
fn a_turn_that_cannot_fit_is_refused() {
    let mut c = chat(OverflowPolicy::DropOldestTurns);
    exchange(&mut c, 20, 20);
    let (shifts, room) = c.make_room(90, 30);
    assert_eq!(shifts, [KvShift { start: 0, end: 40 }]);
    let error = room.expect_err("more than the whole context");
    assert!(matches!(error, LlamaSessionError::ConversationTooLargeToTrim));
    assert_eq!(
        error.message(),
        "conversation overflowed its context window but has fewer than 2 turns left to drop"
    );

    let mut c = chat(OverflowPolicy::Fail);
    exchange(&mut c, 20, 20);
    let (shifts, room) = c.make_room(30, 30);
    assert!(shifts.is_empty());
    assert_eq!(
        room.expect_err("full").message(),
        "conversation turn (60 new tokens) doesn't fit even after dropping every droppable turn: \
         committed=40, n_ctx=100"
    );
    assert_eq!(c.ledger.committed_pos, 40);
}

#[test]
fn a_cache_that_cannot_be_shifted_is_never_dropped_from() {
    for rope in [None, Some(RopeKind::MRope), Some(RopeKind::Vision)] {
        assert!(!supports_position_shift(rope));
        let dropping = options(OverflowPolicy::DropOldestTurns, None);
        let c = Conversation::open(Some(CHATML), rope, 100, dropping).expect("opens");
        assert_eq!(c.ledger.overflow, OverflowPolicy::Fail);
    }
    for rope in [RopeKind::Norm, RopeKind::NeoX] {
        assert!(supports_position_shift(Some(rope)));
    }
    assert_eq!(chat(OverflowPolicy::DropOldestTurns).ledger.overflow, OverflowPolicy::DropOldestTurns);
}

#[test]
fn a_conversation_needs_a_template_with_turns() {
    for template in [None, Some("no turns here")] {
        let error = Conversation::open(
            template,
            Some(RopeKind::Norm),
            100,
            options(OverflowPolicy::Fail, None),
        )
        .expect_err("refused");
        assert!(matches!(error, LlamaSessionError::ConversationTemplateUnavailable));
        assert!(error.message().starts_with("model has no chat template"));
    }
}

#[test]
fn a_saved_conversation_goes_on_where_it_was() {
    let mut c = Conversation::open(
        Some(CHATML),
        Some(RopeKind::Norm),
        100,
        ConversationOptions {
            n_ctx: 100,
            overflow: OverflowPolicy::DropOldestTurns,
            system: Some("be brief".to_string()),
            tools: vec![ToolSpec::new("read", "Read", Json::Null)],
            tool_format: Some(ToolFormat::Json {
                call_open: "<c>".to_string(),
                call_close: "</c>".to_string(),
                name_key: "name".to_string(),
                arguments_key: "arguments".to_string(),
            }),
        },
    )
    .expect("opens");
    c.record_prompt(&[1, 2, 3]);
    c.record_reply("p".to_string(), None, generation("r", 2, 3), 1);
    let meta = c.snapshot_meta("/m/a.gguf");
    assert_eq!((meta.n_ctx, meta.turns.len(), meta.tools.len()), (100, 2, 1));
    assert!(meta.check_model("/m/a.gguf").is_ok());
    let tokens = c.ledger.tokens.clone();
    let reopened = Conversation::restore(meta, "/m/a.gguf", Some(CHATML), 100, tokens)
        .expect("the same model");
    assert_eq!(reopened.ledger.turns, c.ledger.turns);
    assert_eq!(reopened.ledger.committed_pos, 5);
    assert_eq!(reopened.ledger.overflow, OverflowPolicy::DropOldestTurns);
    assert_eq!(reopened.ledger.protected_prefix, 0);
    assert!(reopened.ledger.is_consistent());
    assert_eq!(reopened.supports_tool_calls(), c.supports_tool_calls());
    assert_eq!(reopened.compose_turn("on", None).text, c.compose_turn("on", None).text);
}

#[test]
fn a_snapshot_of_another_model_is_refused() {
    let meta = chat(OverflowPolicy::Fail).snapshot_meta("/m/a.gguf");
    assert!(meta.check_model("/m/b.gguf").is_err());
    let error = Conversation::restore(meta, "/m/b.gguf", Some(CHATML), 100, Vec::new())
        .expect_err("another model");
    assert_eq!(
        error.message(),
        "saved conversation snapshot is for model /m/a.gguf, but this session is /m/b.gguf"
    );
    let meta = chat(OverflowPolicy::Fail).snapshot_meta("/m/a.gguf");
    assert!(matches!(
        Conversation::restore(meta, "/m/a.gguf", None, 100, Vec::new()),
        Err(LlamaSessionError::ConversationTemplateUnavailable)
    ));
}

#[test]
fn a_ledger_from_elsewhere_is_checked() {
    let mut ledger = Ledger::new(50, OverflowPolicy::Fail);
    ledger.record_turn(Role::User, &[1, 2]);
    ledger.record_turn(Role::Assistant, &[3]);
    assert!(ledger.is_consistent());
    assert_eq!(ledger.turn_count(), 1);
    ledger.turns[1].start_pos = 1;
    assert!(!ledger.is_consistent());
    ledger.turns[1].start_pos = 2;
    ledger.tokens.push(4);
    assert!(!ledger.is_consistent());
}

#[test]
fn room_that_is_there_is_used() {
    let mut ledger = Ledger::new(10, OverflowPolicy::Fail);
    ledger.record_turn(Role::User, &[1, 2]);
    let (shifts, room) = ledger.ensure_room_for(7);
    assert!(shifts.is_empty());
    assert_eq!(room, Ok(()));
    let (_, room) = ledger.ensure_room_for(8);
    assert_eq!(room, Err(NoRoom::ContextFull { committed_pos: 2, needed: 8, n_ctx: 10 }));
}

#[test]
fn prompts_are_formatted_as_well_as_can_be() {
    let never = || -> Option<String> { panic!("not asked") };
    assert_eq!(formatted_prompt(false, None, "hi", None, &never), "hi");
    assert_eq!(
        formatted_prompt(true, Some(CHATML), "hi", None, &never),
        "<|im_start|>user\nhi<|im_end|>\n<|im_start|>assistant\n"
    );
    let broken = Some("{% for %}");
    let wrap = ChatWrap { prefix: "[".to_string(), suffix: "]".to_string() };
    let applied = || Some("applied".to_string());
    let nothing = || None;
    assert_eq!(formatted_prompt(true, broken, "hi", Some(&wrap), &applied), "applied");
    assert_eq!(formatted_prompt(true, broken, "hi", Some(&wrap), &nothing), "[hi]");
    assert_eq!(formatted_prompt(true, broken, "hi", None, &nothing), "hi");
    assert_eq!(prompt_without_template(None, Some(&wrap), "x"), "[x]");
}

#[test]
fn a_prompt_must_leave_room_for_a_token() {
    assert!(check_prompt(99, 100).is_ok());
    let error = check_prompt(100, 100).expect_err("no room");
    assert_eq!(
        error.message(),
        "prompt (100 tokens) leaves no room in context size (100)"
    );
}

#[test]
fn a_one_shot_generation_holds_its_prompt_and_its_reply() {
    let r = one_shot_result(10, generation("b", 3, 10), 8192, Some("a"), "p".to_string(), 2);
    assert_eq!(r.text, "ab");
    assert_eq!((r.tokens_generated, r.committed_tokens, r.context_size), (3, 13, 8192));
    assert!(r.tool_calls.is_empty());
}

#[test]
fn prompts_are_decoded_in_batches_and_only_the_last_token_wants_logits() {
    assert!(decode_chunked(0, 5).is_empty());
    let plan = decode_chunked(1025, 3);
    assert_eq!(plan.iter().map(Vec::len).collect::<Vec<_>>(), [512, 512, 1]);
    assert_eq!(plan[0][0], BatchEntry { index: 0, pos: 3, logits: false });
    assert_eq!(plan[1][0], BatchEntry { index: 512, pos: 515, logits: false });
    assert_eq!(plan[2][0], BatchEntry { index: 1024, pos: 1027, logits: true });
    let asked = plan.iter().flatten().filter(|e| e.logits).count();
    assert_eq!(asked, 1);
}

#[test]
fn embeddings_are_bounded_and_read_every_token() {
    assert_eq!((embed_capacity(0), embed_capacity(7), embed_capacity(9000)), (1, 7, 512));
    let batch = embed_batch(5, 3);
    assert_eq!(batch.len(), 3);
    assert_eq!(batch[2], BatchEntry { index: 2, pos: 2, logits: true });
    assert!(embed_batch(2, 3).iter().all(|e| e.logits));
}

#[test]
fn samplers_are_staged_in_order() {
    assert_eq!(build_chain(true, false, false, false, false), [Stage::Greedy]);
    assert_eq!(
        build_chain(true, true, true, true, true),
        [Stage::Grammar, Stage::Penalties, Stage::Greedy]
    );
    assert_eq!(
        build_chain(false, true, true, true, true),
        [
            Stage::Grammar,
            Stage::Penalties,
            Stage::TopK,
            Stage::TopP,
            Stage::MinP,
            Stage::Temperature,
            Stage::Distribution
        ]
    );
    assert_eq!(
        build_chain(false, false, false, false, false),
        [Stage::TopK, Stage::Temperature, Stage::Distribution]
    );
}

#[test]
fn a_generation_stops_at_its_budget() {
    let mut g = Generation::start(10);
    assert!(g.wants_more(100, 2));
    assert_eq!(g.accept(1, Some("a"), None, None), Step::Decode { token: 1, pos: 10 });
    assert_eq!(g.accept(2, Some("b"), None, None), Step::Decode { token: 2, pos: 11 });
    assert!(!g.wants_more(100, 2));
    assert_eq!((g.text.as_str(), g.n_cur), ("ab", 12));
    assert!(!Generation::start(100).wants_more(100, 2));
}

#[test]
fn thinking_is_not_charged_and_cannot_end_a_generation() {
    let mut g = Generation::start(0);
    g.accept(1, Some("<think>"), None, None);
    assert_eq!(g.budget_used, 1);
    g.accept(2, Some("hm"), None, None);
    assert_eq!(g.budget_used, 1);
    // An end in the middle of a thought is fed back and leaves no text.
    assert_eq!(g.accept(3, None, None, None), Step::Decode { token: 3, pos: 2 });
    assert_eq!(g.text, "<think>hm");
    g.accept(4, Some("</think>"), None, None);
    g.accept(5, Some("yes"), None, None);
    assert_eq!(g.budget_used, 2);
    assert_eq!(g.accept(6, None, None, None), Step::Stop);
    assert_eq!(g.tokens, [1, 2, 3, 4, 5]);
}

#[test]
fn a_complete_grammar_ends_a_generation_before_the_next_sample() {
    let yes_or_no =
        GrammarCompletion::ExactMatch(vec!["YES".to_string(), "NO".to_string()]);
    let mut g = Generation::start(0);
    assert!(matches!(g.accept(1, Some("Y"), Some(&yes_or_no), None), Step::Decode { .. }));
    assert_eq!(g.accept(2, Some("ES"), Some(&yes_or_no), None), Step::Stop);
    assert_eq!((g.text.as_str(), g.tokens.as_slice()), ("YES", [1].as_slice()));
}

#[test]
fn a_turn_is_cut_where_it_stops_calling_tools() {
    let format = ToolFormat::Json {
        call_open: "<c>".to_string(),
        call_close: "</c>".to_string(),
        name_key: "name".to_string(),
        arguments_key: "arguments".to_string(),
    };
    let end = TurnEnd::of(&format);
    let mut g = Generation::start(0);
    assert!(matches!(g.accept(1, Some("<c>{}</c>"), None, Some(&end)), Step::Decode { .. }));
    assert_eq!(g.accept(2, Some("\nResult: 4"), None, Some(&end)), Step::Stop);
    assert_eq!(g.text, "<c>{}</c>");
}

#[test]
fn pooling_falls_back_to_the_mean_only_where_the_model_says_nothing() {
    let run = |pooling: Pooling| -> Result<Vec<u8>, EmbedFailure<&'static str>> {
        match pooling {
            Pooling::Mean => Ok(vec![1]),
            _ => Err(EmbedFailure::NoPooling("none")),
        }
    };
    assert!(matches!(embed(1, Pooling::Model, &run), Ok(v) if v == [1]));
    assert!(matches!(embed(1, Pooling::Cls, &run), Err(EmbedFailure::NoPooling("none"))));
    assert!(matches!(embed(0, Pooling::Cls, &run), Ok(v) if v.is_empty()));
    let broken = |_pooling: Pooling| -> Result<Vec<u8>, EmbedFailure<&'static str>> {
        Err(EmbedFailure::Other("broken"))
    };
    assert!(matches!(embed(1, Pooling::Model, &broken), Err(EmbedFailure::Other("broken"))));
    assert_eq!(Pooling::Model.explicit(), None);
    assert_eq!(Pooling::Last.explicit(), Some(Pooling::Last));
}

#[test]
fn layers_go_where_they_fit() {
    assert_eq!(GpuLayers::default(), GpuLayers::Auto);
    let never = || -> Fit { panic!("not asked") };
    assert_eq!(resolve_placement(GpuLayers::Fixed(30), &never), Some(Placement::Layers(30)));
    assert_eq!(resolve_placement(GpuLayers::Auto, &|| Fit::Fitted), Some(Placement::AsFitted));
    assert_eq!(resolve_placement(GpuLayers::Auto, &|| Fit::NoRoom), Some(Placement::Layers(0)));
    assert_eq!(resolve_placement(GpuLayers::Auto, &|| Fit::Failed), None);
    assert_eq!(device_footprint(Some(10), Some(4)), Some(6));
    assert_eq!(device_footprint(Some(4), Some(10)), Some(0));
    assert_eq!(device_footprint(None, Some(4)), None);
    assert_eq!(device_footprint(Some(4), None), None);
}

#[test]
fn an_exhausted_device_is_named() {
    let failure = context_failure("null".to_string(), 32768, Some((3 << 20, 24 << 30)));
    assert_eq!(
        failure.message(),
        "could not allocate a 32768-token context: null -- 3 MiB free of 24576 MiB on the device \
         (llama.cpp reports an exhausted device as a null pointer, so this is usually what \
         out-of-memory looks like)"
    );
    let failure = context_failure("null".to_string(), 32768, None);
    assert_eq!(failure.message(), "llama.cpp context error: null");
}

/// A conversation that only takes messages.
struct Parrot {
    turns: usize,
}

impl ConversationHandle<f32> for Parrot {
    fn send(
        &mut self,
        message: &str,
        _max_new_tokens: i32,
        _sampling: Sampling<f32>,
        _grammar: Option<&str>,
        _assistant_prefill: Option<&str>,
        _grammar_completion: Option<GrammarCompletion>,
    ) -> Result<GenerationResult, ConversationError> {
        self.turns += 1;
        Ok(one_shot_result(0, generation(message, 1, 0), 10, None, String::new(), 0))
    }

    fn turn_count(&self) -> usize {
        self.turns
    }

    fn snapshot(&mut self, _state: &str, _meta: &str) -> Result<(), ConversationError> {
        Err(ConversationError::Backend("cannot".to_string()))
    }
}

#[test]
fn a_backend_without_tools_says_so() {
    let greedy = Sampling::Greedy { penalties: Penalties::disabled(1.0f32, 0.0) };
    let mut handle: Box<dyn ConversationHandle<f32>> = Box::new(Parrot { turns: 0 });
    let reply = handle.send("hello", 5, greedy, None, None, None).expect("a reply");
    assert_eq!((reply.text.as_str(), handle.turn_count()), ("hello", 1));
    assert!(!handle.supports_tool_calls());
    let refused = handle.send_tool_results(&[], 5, greedy, None, None).expect_err("no tools");
    assert_eq!(
        refused.message(),
        "conversation backend error: this conversation backend does not support tool results"
    );
    let refused = handle.snapshot("s", "m").expect_err("cannot");
    assert_eq!(refused.message(), "conversation backend error: cannot");
    let inner = ConversationError::Llama(LlamaSessionError::ConversationTooLargeToTrim);
    assert!(inner.message().starts_with("conversation overflowed"));
}
