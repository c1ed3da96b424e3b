use rampipe::conversation::{
    Conversation, ConversationOptions, GenerationResult, LlamaSessionError, RopeKind,
};
use rampipe::ledger::{OverflowPolicy, Role};
use rampipe::one_shot::PromptRun;
use rampipe::protocol::GrammarCompletion;
use rampipe::turn::{Action, Event, Phase, TurnRun};

const CHATML: &str = "{% for m in messages %}<|im_start|>{{ m.role }}\n{{ m.content }}<|im_end|>\n{% endfor %}{% if add_generation_prompt %}<|im_start|>assistant\n{% endif %}";

fn open(n_ctx: i32, overflow: OverflowPolicy) -> Conversation {
    let options = ConversationOptions {
        n_ctx: n_ctx as u32,
        overflow,
        system: None,
        tools: Vec::new(),
        tool_format: None,
    };
    Conversation::open(Some(CHATML), Some(RopeKind::Norm), n_ctx, options).expect("opens")
}

/// A model that says what it is told to, one piece for each token, and then ends.
struct Model {
    cache: Vec<i32>,
    pieces: Vec<&'static str>,
    said: usize,
}

impl Model {
    fn new(pieces: &[&'static str]) -> Self {
        Self { cache: Vec::new(), pieces: pieces.to_vec(), said: 0 }
    }

    fn sample(&mut self) -> Event {
        let piece = self.pieces.get(self.said).map(|p| p.to_string());
        self.said += 1;
        Event::Sampled {
            token: 1000 + self.said as i32,
            piece,
            elapsed_ms: 10 * self.said as u64,
        }
    }
}

enum Outcome {
    Reply(GenerationResult),
    Refused(LlamaSessionError),
}

fn run_turn(
    c: &mut Conversation,
    model: &mut Model,
    mut run: TurnRun,
    opening: &[i32],
    turn: &[i32],
) -> Outcome {
    let mut event = Event::Tokenized { opening: opening.to_vec(), turn: turn.to_vec() };
    loop {
        event = match run.step(c, event) {
            Action::Prefill { shifts, plan } => {
                for shift in shifts {
                    model.cache.drain(shift.start as usize..shift.end as usize);
                }
                for entry in plan.iter().flatten() {
                    assert_eq!(entry.pos as usize, model.cache.len());
                    model.cache.push(turn[entry.index]);
                }
                Event::Done
            }
            Action::Refuse { shifts, error } => {
                for shift in shifts {
                    model.cache.drain(shift.start as usize..shift.end as usize);
                }
                assert_eq!(run.phase, Phase::Over);
                return Outcome::Refused(error);
            }
            Action::Sample => model.sample(),
            Action::Feed { token, pos } => {
                assert_eq!(pos as usize, model.cache.len());
                model.cache.push(token);
                Event::Done
            }
            Action::Reply(result) => return Outcome::Reply(result),
            Action::Discard { from } => {
                model.cache.truncate(from as usize);
                panic!("nothing failed");
            }
        };
    }
}

fn reply(outcome: Outcome) -> GenerationResult {
    match outcome {
        Outcome::Reply(result) => result,
        Outcome::Refused(error) => panic!("refused: {}", error.message()),
    }
}

#[test]
fn a_turn_runs_from_its_tokens_to_its_reply() {
    let mut c = open(100, OverflowPolicy::Fail);
    let mut model = Model::new(&["Hel", "lo"]);
    let run = TurnRun::message(&c, "hi", Some("> "), 10, None);
    assert_eq!(run.prompt, "<|im_start|>user\nhi<|im_end|>\n<|im_start|>assistant\n> ");
    assert!(run.add_bos);
    let result = reply(run_turn(&mut c, &mut model, run, &[1, 2], &[1, 2, 3, 4]));
    assert_eq!(result.text, "> Hello");
    assert_eq!(result.time_to_first_token_ms, 10);
    assert_eq!((result.tokens_generated, result.committed_tokens), (2, 6));
    assert_eq!(model.cache, [1, 2, 3, 4, 1001, 1002]);
    assert_eq!(c.ledger.tokens, model.cache);
    assert_eq!(c.ledger.protected_prefix, 2);
    assert_eq!(c.turn_count(), 1);
    assert_eq!(result.context_size, 100);
    let spans: Vec<(Role, i32, i32)> =
        c.ledger.turns.iter().map(|t| (t.role, t.start_pos, t.end_pos)).collect();
    assert_eq!(spans, [(Role::User, 0, 4), (Role::Assistant, 4, 6)]);
}

#[test]
fn the_cache_and_the_ledger_stay_in_step_through_eviction() {
    let mut c = open(20, OverflowPolicy::DropOldestTurns);
    let mut model = Model::new(&["a", "b"]);
    for round in 0..6 {
        model.said = 0;
        let run = TurnRun::message(&c, "more", None, 4, None);
        let tokens = [round, 70, 71];
        let result = reply(run_turn(&mut c, &mut model, run, &[0], &tokens));
        assert_eq!(result.text, "ab");
        assert_eq!(c.ledger.tokens, model.cache);
        assert!(c.ledger.is_consistent());
        assert_eq!(model.cache[0], 0, "the opening is never dropped");
    }
    assert!(c.turn_count() < 6);
}

#[test]
fn a_turn_without_room_is_refused() {
    let mut c = open(20, OverflowPolicy::Fail);
    let mut model = Model::new(&["a"]);
    let run = TurnRun::message(&c, "hi", None, 30, None);
    let Outcome::Refused(error) = run_turn(&mut c, &mut model, run, &[], &[1, 2]) else {
        panic!("refused");
    };
    assert!(matches!(
        error,
        LlamaSessionError::ConversationContextFull { committed_pos: 0, needed: 32, n_ctx: 20 }
    ));
    assert!(model.cache.is_empty());
    assert_eq!(c.turn_count(), 0);
}

#[test]
fn a_turn_ends_with_its_budget_or_its_grammar() {
    let mut c = open(100, OverflowPolicy::Fail);
    let mut model = Model::new(&["a", "b", "c", "d"]);
    let run = TurnRun::message(&c, "hi", None, 2, None);
    assert_eq!(reply(run_turn(&mut c, &mut model, run, &[], &[1])).text, "ab");
    model.said = 0;
    let run = TurnRun::message(&c, "hi", None, 0, None);
    let result = reply(run_turn(&mut c, &mut model, run, &[], &[1]));
    assert_eq!((result.text.as_str(), result.time_to_first_token_ms), ("", 0));
    model.said = 0;
    let done = GrammarCompletion::ExactMatch(vec!["abc".to_string()]);
    let run = TurnRun::results(&c, &["r".to_string()], 10, Some(done));
    assert_eq!(reply(run_turn(&mut c, &mut model, run, &[], &[1])).text, "abc");
    assert_eq!(c.ledger.tokens, model.cache);
    assert_eq!(c.turn_count(), 3);
}

#[test]
fn a_failed_turn_is_cut_off_at_the_ledgers_end() {
    let mut c = open(100, OverflowPolicy::Fail);
    let mut run = TurnRun::message(&c, "hi", None, 5, None);
    let action = run.step(&mut c, Event::Tokenized { opening: Vec::new(), turn: vec![1, 2, 3] });
    assert!(matches!(action, Action::Prefill { .. }));
    assert!(matches!(run.step(&mut c, Event::Failed), Action::Discard { from: 0 }));
    assert_eq!((run.phase, c.turn_count()), (Phase::Over, 0));
    assert!(c.ledger.tokens.is_empty());

    let mut run = TurnRun::message(&c, "hi", None, 5, None);
    run.step(&mut c, Event::Tokenized { opening: Vec::new(), turn: vec![1, 2, 3] });
    assert!(matches!(run.step(&mut c, Event::Done), Action::Sample));
    let sampled = Event::Sampled { token: 9, piece: Some("x".to_string()), elapsed_ms: 1 };
    assert!(matches!(run.step(&mut c, sampled), Action::Feed { token: 9, pos: 3 }));
    assert!(matches!(run.step(&mut c, Event::Failed), Action::Discard { from: 0 }));
    assert!(c.ledger.tokens.is_empty() && c.ledger.turns.is_empty());
    assert_eq!((c.ledger.committed_pos, c.turn_count()), (0, 0));
}

#[test]
fn a_failed_turn_is_no_part_of_an_exchange() {
    let mut c = open(100, OverflowPolicy::Fail);
    let mut model = Model::new(&["a"]);
    let run = TurnRun::message(&c, "hi", None, 5, None);
    reply(run_turn(&mut c, &mut model, run, &[], &[1, 2]));
    for _ in 0..2 {
        let mut run = TurnRun::message(&c, "fails", None, 5, None);
        run.step(&mut c, Event::Tokenized { opening: Vec::new(), turn: vec![7, 8] });
        assert!(matches!(run.step(&mut c, Event::Done), Action::Sample));
        assert_eq!(c.ledger.turns.len(), 3);
        assert!(matches!(run.step(&mut c, Event::Failed), Action::Discard { from: 3 }));
        assert_eq!(c.turn_count(), 1);
    }
    model.said = 0;
    let run = TurnRun::message(&c, "more", None, 5, None);
    reply(run_turn(&mut c, &mut model, run, &[], &[3, 4]));
    assert_eq!(c.ledger.tokens, model.cache);
    let spans: Vec<(Role, i32, i32)> =
        c.ledger.turns.iter().map(|t| (t.role, t.start_pos, t.end_pos)).collect();
    assert_eq!(
        spans,
        [
            (Role::User, 0, 2),
            (Role::Assistant, 2, 3),
            (Role::User, 3, 5),
            (Role::Assistant, 5, 6),
        ]
    );
    assert_eq!(c.turn_count(), 2);
}

fn generate(mut run: PromptRun, model: &mut Model, tokens: usize) -> Outcome {
    let mut event = Event::Tokenized { opening: Vec::new(), turn: vec![5; tokens] };
    loop {
        event = match run.step(event) {
            Action::Prefill { shifts, plan } => {
                assert!(shifts.is_empty());
                assert_eq!(plan.iter().map(Vec::len).sum::<usize>(), tokens);
                Event::Done
            }
            Action::Refuse { error, .. } => return Outcome::Refused(error),
            Action::Sample => model.sample(),
            Action::Feed { .. } => Event::Done,
            Action::Reply(result) => return Outcome::Reply(result),
            Action::Discard { .. } => panic!("nothing failed"),
        };
    }
}

#[test]
fn a_prompt_is_answered_in_a_context_of_its_own() {
    let run = PromptRun::new("P".to_string(), Some("{"), 5, None, 50);
    assert_eq!(run.prompt, "P{");
    let result = reply(generate(run, &mut Model::new(&["}"]), 49));
    assert_eq!(result.text, "{}");
    assert_eq!((result.committed_tokens, result.context_size), (50, 50));
    assert_eq!(result.formatted_prompt, "P{");
    assert!(result.tool_calls.is_empty());
    // A context that is full stops a reply.
    let run = PromptRun::new("P".to_string(), None, 5, None, 50);
    let result = reply(generate(run, &mut Model::new(&["a", "b", "c"]), 48));
    assert_eq!((result.text.as_str(), result.committed_tokens), ("ab", 50));
}

#[test]
fn a_prompt_that_fills_its_context_is_refused() {
    let run = PromptRun::new("P".to_string(), None, 5, None, 50);
    let Outcome::Refused(error) = generate(run, &mut Model::new(&[]), 50) else {
        panic!("refused");
    };
    assert!(matches!(error, LlamaSessionError::PromptTooLong { prompt_tokens: 50, n_ctx: 50 }));
    let mut run = PromptRun::new("P".to_string(), None, 5, None, 50);
    assert!(matches!(run.step(Event::Failed), Action::Discard { from: 0 }));
}
