//! One turn of a conversation, as a machine: what the model did goes in, what to ask of it next comes
//! out. The machine keeps the conversation's ledger in step with the cache that the model fills.

use vstd::prelude::*;
use crate::call_laws;
use crate::call_laws::Argument;
use crate::conversation::{Conversation, ConversationView, GenerationResult, LlamaSessionError, SessionErrorView};
use crate::generation;
use crate::generation::{BatchEntry, Generation, GenerationView, Step};
use crate::ledger;
use crate::ledger::{KvShift, LedgerView, OverflowPolicy, Role};
use crate::protocol;
use crate::protocol::{CompletionView, GrammarCompletion};
use crate::tool_format;
use crate::tool_format::{TurnEnd, TurnEndView};
use crate::tool_probe;

verus! {

/// How far a turn is.
#[derive(Debug, Clone, Copy, PartialEq, Eq, Structural)]
pub enum Phase {
    /// The tokens of the prompt are awaited.
    Tokenizing,
    /// The prompt is being given to the model.
    Prefilling,
    /// The next token is awaited.
    Sampling,
    /// A token is being fed back.
    Feeding,
    /// There is nothing more to do.
    Over,
}

/// What the model did.
#[derive(Debug)]
pub enum Event {
    /// The tokens of the turn's text, and those of the conversation's opening alone.
    Tokenized { opening: Vec<i32>, turn: Vec<i32> },
    /// What was asked for is done.
    Done,
    /// A token was sampled, this long after the turn began; `piece` is its text, or nothing for a
    /// token that ends a reply.
    Sampled { token: i32, piece: Option<String>, elapsed_ms: u64 },
    /// What was asked for failed.
    Failed,
}

/// What to ask of the model next.
#[derive(Debug)]
pub enum Action {
    /// Remove these spans from the cache, in order, and then decode the turn's tokens like this.
    Prefill { shifts: Vec<KvShift>, plan: Vec<Vec<BatchEntry>> },
    /// Remove these spans from the cache, in order: they were dropped, though it was not enough.
    Refuse { shifts: Vec<KvShift>, error: LlamaSessionError },
    /// Sample a token.
    Sample,
    /// Decode this token at this position.
    Feed { token: i32, pos: i32 },
    /// The reply is complete.
    Reply(GenerationResult),
    /// Remove everything from this position on from the cache: the turn has failed.
    Discard { from: i32 },
}

/// A turn in progress.
#[derive(Debug)]
pub struct TurnRun {
    pub phase: Phase,
    /// The text that is given to the model.
    pub prompt: String,
    /// The token that begins a sequence goes before it.
    pub add_bos: bool,
    /// What the reply is made to begin with; it ends the prompt.
    pub prefill: Option<String>,
    pub max_new_tokens: i32,
    pub completion: Option<GrammarCompletion>,
    pub end: Option<TurnEnd>,
    /// The tokens of the prompt.
    pub tokens: Vec<i32>,
    pub generation: Generation,
    pub first_token_ms: Option<u64>,
}

/// The content of a [`TurnRun`].
#[verifier::ext_equal]
pub struct TurnView {
    pub phase: Phase,
    pub prompt: Seq<char>,
    pub add_bos: bool,
    pub prefill: Option<Seq<char>>,
    pub max_new_tokens: int,
    pub completion: Option<CompletionView>,
    pub end: Option<TurnEndView>,
    pub tokens: Seq<i32>,
    pub generation: GenerationView,
    pub first_token_ms: Option<u64>,
}

impl View for TurnRun {
    type V = TurnView;

    open spec fn view(&self) -> TurnView {
        TurnView {
            phase: self.phase,
            prompt: self.prompt@,
            add_bos: self.add_bos,
            prefill: tool_probe::text_option(self.prefill),
            max_new_tokens: self.max_new_tokens as int,
            completion: match self.completion {
                Some(c) => Some(c@),
                None => None,
            },
            end: match self.end {
                Some(e) => Some(e@),
                None => None,
            },
            tokens: self.tokens@,
            generation: self.generation@,
            first_token_ms: self.first_token_ms,
        }
    }
}

/// A generation that nothing came of yet, at a position.
pub open spec fn generation_at(pos: int) -> GenerationView {
    GenerationView { text: Seq::empty(), tokens: Seq::empty(), n_cur: pos, budget_used: 0 }
}

/// When a turn is over because its tool calls are.
pub open spec fn end_of(c: ConversationView) -> Option<TurnEndView> {
    match c.tool_format {
        Some(f) => Some(
            TurnEndView {
                call_open: f.call_open(),
                closers: tool_format::closers(f.call_close()),
            },
        ),
        None => None,
    }
}

/// A turn with this text that has not begun.
pub open spec fn turn_with(
    c: ConversationView,
    prompt: Seq<char>,
    add_bos: bool,
    prefill: Option<Seq<char>>,
    max_new_tokens: int,
    completion: Option<CompletionView>,
) -> TurnView {
    TurnView {
        phase: Phase::Tokenizing,
        prompt,
        add_bos,
        prefill,
        max_new_tokens,
        completion,
        end: end_of(c),
        tokens: Seq::empty(),
        generation: generation_at(0),
        first_token_ms: None,
    }
}

/// A conversation whose opening is known to be these tokens, if the first turn begins with them.
pub open spec fn with_opening(
    c: ConversationView,
    opening: Seq<i32>,
    turn: Seq<i32>,
) -> ConversationView {
    ConversationView {
        ledger: LedgerView { protected_prefix: c.protected_by(opening, turn), ..c.ledger },
        ..c
    }
}

/// Why there was no room in a conversation for `needed` more tokens.
pub open spec fn no_room(c: ConversationView, needed: int) -> SessionErrorView {
    match c.ledger.overflow {
        OverflowPolicy::Fail => SessionErrorView::ConversationContextFull {
            committed_pos: c.ledger.committed_pos,
            needed,
            n_ctx: c.ledger.n_ctx,
        },
        OverflowPolicy::DropOldestTurns => SessionErrorView::ConversationTooLargeToTrim,
    }
}

impl TurnView {
    /// The prompt is in the cache and its reply is not complete.
    pub open spec fn prompted(self) -> bool {
        self.phase == Phase::Sampling || self.phase == Phase::Feeding
    }

    /// The conversation without a prompt that got no reply.
    pub open spec fn withdrawn(self, c: ConversationView) -> ConversationView {
        if self.prompted() {
            ConversationView { ledger: c.ledger.without_last(), ..c }
        } else {
            c
        }
    }

    /// The event is one that can happen in this phase.
    pub open spec fn expects(self, event: Event) -> bool {
        match event {
            Event::Tokenized { .. } => self.phase == Phase::Tokenizing,
            Event::Done => self.phase == Phase::Prefilling || self.phase == Phase::Feeding,
            Event::Sampled { .. } => self.phase == Phase::Sampling,
            Event::Failed => self.phase != Phase::Over,
        }
    }

    /// The turn and its conversation agree with each other.
    pub open spec fn wf(self, c: ConversationView) -> bool {
        &&& c.ledger.wf()
        &&& 0 <= c.ledger.n_ctx <= i32::MAX
        &&& i32::MIN <= self.max_new_tokens <= i32::MAX
        &&& self.phase == Phase::Prefilling ==> c.ledger.committed_pos + self.tokens.len()
            <= i32::MAX
        &&& self.prompted() ==> {
            &&& c.ledger.turns.len() > 0
            &&& c.ledger.turns.last().role == Role::User
            &&& self.generation.n_cur == c.ledger.committed_pos + self.generation.tokens.len()
            &&& self.generation.n_cur <= c.ledger.n_ctx || self.generation.tokens.len() == 0
            &&& self.generation.n_cur <= i32::MAX
        }
        &&& self.phase == Phase::Sampling ==> self.generation.wants_more(
            c.ledger.n_ctx,
            self.max_new_tokens,
        )
    }

    /// The positions that the event leads to can be counted.
    pub open spec fn countable(self, c: ConversationView, event: Event) -> bool {
        match event {
            Event::Tokenized { opening, turn } => {
                let count = turn@.len() as int;
                &&& opening@.len() <= i32::MAX
                &&& i32::MIN <= count + self.max_new_tokens <= i32::MAX
                &&& i32::MIN <= c.ledger.committed_pos + count + self.max_new_tokens <= i32::MAX
                &&& c.ledger.committed_pos + count <= i32::MAX
            },
            _ => true,
        }
    }

    /// The reply is complete: it is entered, and returned.
    pub open spec fn finishes(
        self,
        c: ConversationView,
        action: Action,
        after: TurnView,
        d: ConversationView,
    ) -> bool {
        &&& after.phase == Phase::Over
        &&& d == (ConversationView {
            ledger: c.ledger.with_turn(Role::Assistant, self.generation.tokens),
            ..c
        })
        &&& action matches Action::Reply(r) && r@ == d.reply(
            self.prompt,
            self.prefill,
            self.generation,
            match self.first_token_ms {
                Some(ms) => ms,
                None => 0,
            },
        )
    }

    /// Another token is sampled if there is room for one, else the reply is complete.
    pub open spec fn goes_on(
        self,
        c: ConversationView,
        action: Action,
        after: TurnView,
        d: ConversationView,
    ) -> bool {
        if self.generation.wants_more(c.ledger.n_ctx, self.max_new_tokens) {
            after == (TurnView { phase: Phase::Sampling, ..self }) && d == c && action is Sample
        } else {
            self.finishes(c, action, after, d)
        }
    }

    /// What is to be done when `event` happened, and what the turn and its conversation are then.
    pub open spec fn steps(
        self,
        c: ConversationView,
        event: Event,
        action: Action,
        after: TurnView,
        d: ConversationView,
    ) -> bool {
        match event {
            Event::Tokenized { opening, turn } => {
                let known = with_opening(c, opening@, turn@);
                let needed = turn@.len() + self.max_new_tokens;
                let room = ledger::room_for(known.ledger, needed);
                &&& d == (ConversationView { ledger: room.after, ..known })
                &&& if room.enough {
                    &&& after == (TurnView { phase: Phase::Prefilling, tokens: turn@, ..self })
                    &&& action matches Action::Prefill { shifts, plan } && shifts@ == room.shifts
                        && generation::is_decode_plan(
                        plan@,
                        turn@.len() as int,
                        room.after.committed_pos,
                    )
                } else {
                    &&& after == (TurnView { phase: Phase::Over, ..self })
                    &&& action matches Action::Refuse { shifts, error } && shifts@ == room.shifts
                        && error@ == no_room(known, needed)
                }
            },
            Event::Done => if self.phase == Phase::Prefilling {
                let begun = ConversationView {
                    ledger: c.ledger.with_turn(Role::User, self.tokens),
                    ..c
                };
                TurnView { generation: generation_at(begun.ledger.committed_pos), ..self }.goes_on(
                    begun,
                    action,
                    after,
                    d,
                )
            } else {
                self.goes_on(c, action, after, d)
            },
            Event::Sampled { token, piece, elapsed_ms } => {
                let s = generation::step(
                    self.generation,
                    token,
                    tool_probe::text_option(piece),
                    self.completion,
                    self.end,
                );
                let more = TurnView {
                    generation: s.after,
                    first_token_ms: Some(
                        match self.first_token_ms {
                            Some(ms) => ms,
                            None => elapsed_ms,
                        },
                    ),
                    ..self
                };
                if s.goes_on {
                    &&& after == (TurnView { phase: Phase::Feeding, ..more })
                    &&& d == c
                    &&& action == (Action::Feed { token, pos: self.generation.n_cur as i32 })
                } else {
                    more.finishes(c, action, after, d)
                }
            },
            Event::Failed => {
                &&& after == (TurnView { phase: Phase::Over, ..self })
                &&& d == self.withdrawn(c)
                &&& action == (Action::Discard { from: d.ledger.committed_pos as i32 })
            },
        }
    }
}

impl TurnRun {
    /// A turn that says `message`.
    pub fn message(
        c: &Conversation,
        message: &str,
        assistant_prefill: Option<&str>,
        max_new_tokens: i32,
        completion: Option<GrammarCompletion>,
    ) -> (r: Self)
        ensures
            r@ == turn_with(
                c@,
                c@.turn_text(message@, tool_probe::str_option(assistant_prefill)),
                c@.ledger.turns.len() == 0,
                tool_probe::str_option(assistant_prefill),
                max_new_tokens as int,
                match completion {
                    Some(c) => Some(c@),
                    None => None,
                },
            ),
    {
        let turn = c.compose_turn(message, assistant_prefill);
        let prefill: Option<String> = match assistant_prefill {
            Some(p) => Some(p.to_string()),
            None => None,
        };
        TurnRun {
            phase: Phase::Tokenizing,
            prompt: turn.text,
            add_bos: turn.add_bos,
            prefill,
            max_new_tokens,
            completion,
            end: c.turn_end(),
            tokens: Vec::new(),
            generation: Generation::start(0),
            first_token_ms: None,
        }
    }

    /// A turn that gives back the results of tool calls.
    pub fn results(
        c: &Conversation,
        results: &[String],
        max_new_tokens: i32,
        completion: Option<GrammarCompletion>,
    ) -> (r: Self)
        ensures
            r@ == turn_with(
                c@,
                c@.results_text(results@),
                c@.tool_result_spans is None && c@.ledger.turns.len() == 0,
                None,
                max_new_tokens as int,
                match completion {
                    Some(c) => Some(c@),
                    None => None,
                },
            ),
    {
        let turn = c.compose_results(results);
        TurnRun {
            phase: Phase::Tokenizing,
            prompt: turn.text,
            add_bos: turn.add_bos,
            prefill: None,
            max_new_tokens,
            completion,
            end: c.turn_end(),
            tokens: Vec::new(),
            generation: Generation::start(0),
            first_token_ms: None,
        }
    }

    /// Makes room for the turn's tokens, and has them given to the model if there is any.
    fn prefill_with(&mut self, c: &mut Conversation, opening: Vec<i32>, turn: Vec<i32>) -> (r: Action)
        requires
            old(self)@.wf(old(c)@),
            old(self)@.phase == Phase::Tokenizing,
            old(self)@.countable(old(c)@, (Event::Tokenized { opening, turn })),
        ensures
            old(self)@.steps(
                old(c)@,
                (Event::Tokenized { opening, turn }),
                r,
                final(self)@,
                final(c)@,
            ),
            final(self)@.wf(final(c)@),
    {
        let ghost start = c@;
        c.protect_opening(opening.as_slice(), turn.as_slice());
        let ghost known = with_opening(start, opening@, turn@);
        assert(c@ == known);
        let ghost needed = turn@.len() + self@.max_new_tokens;
        proof {
            ledger::law_enough_room(known.ledger, needed);
            ledger::lemma_no_more_than_before(known.ledger, needed);
        }
        let (shifts, outcome) = c.make_room(turn.len() as i32, self.max_new_tokens);
        match outcome {
            Ok(_) => {
                let plan: Vec<Vec<BatchEntry>> = generation::decode_chunked(
                    turn.len(),
                    c.ledger.committed_pos,
                );
                self.phase = Phase::Prefilling;
                self.tokens = turn;
                Action::Prefill { shifts, plan }
            },
            Err(error) => {
                self.phase = Phase::Over;
                Action::Refuse { shifts, error }
            },
        }
    }

    /// Enters the reply and returns it.
    fn finish(&mut self, c: &mut Conversation) -> (r: Action)
        requires
            old(c)@.ledger.wf(),
            0 <= old(c)@.ledger.n_ctx,
            old(c)@.ledger.committed_pos + old(self)@.generation.tokens.len() <= i32::MAX,
        ensures
            old(self)@.finishes(old(c)@, r, final(self)@, final(c)@),
            final(self)@.wf(final(c)@),
    {
        let mut reply: Generation = Generation::start(0);
        core::mem::swap(&mut reply, &mut self.generation);
        let prefill: Option<&str> = match &self.prefill {
            Some(p) => Some(p.as_str()),
            None => None,
        };
        let ms: u64 = match self.first_token_ms {
            Some(ms) => ms,
            None => 0,
        };
        self.phase = Phase::Over;
        Action::Reply(c.record_reply(self.prompt.clone(), prefill, reply, ms))
    }

    /// Asks for another token, or finishes.
    fn go_on(&mut self, c: &mut Conversation) -> (r: Action)
        requires
            old(c)@.ledger.wf(),
            0 <= old(c)@.ledger.n_ctx <= i32::MAX,
            old(self)@.generation.n_cur == old(c)@.ledger.committed_pos
                + old(self)@.generation.tokens.len(),
            old(self)@.generation.n_cur <= i32::MAX,
            old(self)@.generation.n_cur <= old(c)@.ledger.n_ctx
                || old(self)@.generation.tokens.len() == 0,
            old(c)@.ledger.turns.len() > 0,
            old(c)@.ledger.turns.last().role == Role::User,
        ensures
            old(self)@.goes_on(old(c)@, r, final(self)@, final(c)@),
            final(self)@.wf(final(c)@),
    {
        if self.generation.wants_more(c.ledger.n_ctx, self.max_new_tokens) {
            self.phase = Phase::Sampling;
            Action::Sample
        } else {
            self.finish(c)
        }
    }

    /// Takes a sampled token.
    fn take(
        &mut self,
        c: &mut Conversation,
        token: i32,
        piece: Option<String>,
        elapsed_ms: u64,
    ) -> (r: Action)
        requires
            old(self)@.wf(old(c)@),
            old(self)@.phase == Phase::Sampling,
        ensures
            old(self)@.steps(
                old(c)@,
                (Event::Sampled { token, piece, elapsed_ms }),
                r,
                final(self)@,
                final(c)@,
            ),
            final(self)@.wf(final(c)@),
    {
        if self.first_token_ms.is_none() {
            self.first_token_ms = Some(elapsed_ms);
        }
        let text: Option<&str> = match &piece {
            Some(p) => Some(p.as_str()),
            None => None,
        };
        match self.generation.accept(token, text, self.completion.as_ref(), self.end.as_ref()) {
            Step::Decode { token, pos } => {
                self.phase = Phase::Feeding;
                Action::Feed { token, pos }
            },
            Step::Stop => self.finish(c),
        }
    }

    /// Takes in what the model did and says what to ask of it next.
    pub fn step(&mut self, c: &mut Conversation, event: Event) -> (r: Action)
        requires
            old(self)@.wf(old(c)@),
            old(self)@.expects(event),
            old(self)@.countable(old(c)@, event),
        ensures
            old(self)@.steps(old(c)@, event, r, final(self)@, final(c)@),
            final(self)@.wf(final(c)@),
    {
        match event {
            Event::Tokenized { opening, turn } => self.prefill_with(c, opening, turn),
            Event::Done => {
                if self.phase == Phase::Prefilling {
                    c.record_prompt(self.tokens.as_slice());
                    self.generation = Generation::start(c.ledger.committed_pos);
                }
                self.go_on(c)
            },
            Event::Sampled { token, piece, elapsed_ms } => self.take(c, token, piece, elapsed_ms),
            Event::Failed => {
                if self.phase == Phase::Sampling || self.phase == Phase::Feeding {
                    c.withdraw_prompt();
                }
                self.phase = Phase::Over;
                Action::Discard { from: c.ledger.committed_pos }
            },
        }
    }
}

/// What the cache holds once `action` was carried out, for a turn whose prompt is `tokens`.
pub open spec fn cache_after(cache: Seq<i32>, action: Action, tokens: Seq<i32>) -> Seq<i32> {
    match action {
        Action::Prefill { shifts, .. } => ledger::after_shifts(cache, shifts@) + tokens,
        Action::Refuse { shifts, .. } => ledger::after_shifts(cache, shifts@),
        Action::Feed { token, .. } => cache.push(token),
        Action::Discard { from } => cache.take(from as int),
        _ => cache,
    }
}

/// The cache holds what the ledger has, and what the turn has added to it since.
pub open spec fn in_step(t: TurnView, c: ConversationView, cache: Seq<i32>) -> bool {
    match t.phase {
        Phase::Tokenizing | Phase::Over => cache == c.ledger.tokens,
        Phase::Prefilling => cache == c.ledger.tokens + t.tokens,
        Phase::Sampling | Phase::Feeding => cache == c.ledger.tokens + t.generation.tokens,
    }
}

/// The ledger stays in step with the cache: whatever happens, once what is asked for is carried out
/// the cache holds just what the ledger and the turn say, and once a turn is over, just what the
/// ledger says.
pub proof fn law_the_cache_stays_in_step(
    t: TurnView,
    c: ConversationView,
    event: Event,
    action: Action,
    after: TurnView,
    d: ConversationView,
    cache: Seq<i32>,
)
    requires
        t.wf(c),
        t.expects(event),
        t.countable(c, event),
        t.steps(c, event, action, after, d),
        in_step(t, c, cache),
    ensures
        in_step(after, d, cache_after(cache, action, after.tokens)),
{
    match event {
        Event::Tokenized { opening, turn } => {
            let known = with_opening(c, opening@, turn@);
            let needed = turn@.len() + t.max_new_tokens;
            ledger::law_the_cache_is_shifted_with_the_ledger(known.ledger, needed);
        },
        Event::Done => {
            assert(cache + Seq::<i32>::empty() =~= cache);
        },
        Event::Sampled { token, .. } => {
            assert(cache.push(token) =~= c.ledger.tokens + t.generation.tokens.push(token));
        },
        Event::Failed => {
            assert(cache.take(d.ledger.committed_pos) =~= d.ledger.tokens);
        },
    }
}

/// However much of what was asked for had been done when a turn failed, it is cut off in the cache
/// where the ledger ends then, and a prompt that got no reply is in neither.
pub proof fn law_a_failed_turn_is_cut_off(
    t: TurnView,
    c: ConversationView,
    action: Action,
    after: TurnView,
    d: ConversationView,
    cache: Seq<i32>,
)
    requires
        t.wf(c),
        t.steps(c, Event::Failed, action, after, d),
        c.ledger.tokens.is_prefix_of(cache),
    ensures
        in_step(after, d, cache_after(cache, action, after.tokens)),
        d == t.withdrawn(c),
{
    assert(cache.take(d.ledger.committed_pos) =~= d.ledger.tokens);
}

/// What a turn has entered into the ledger so far: nothing before its prompt is in the cache, and
/// then the prompt.
pub open spec fn entered(t: TurnView, l: LedgerView, base: LedgerView) -> bool {
    match t.phase {
        Phase::Prefilling => l == base,
        Phase::Sampling | Phase::Feeding => l == base.with_turn(Role::User, t.tokens),
        _ => false,
    }
}

/// A turn that is not refused and does not fail enters one exchange: its prompt, and the reply that
/// it returns.
pub proof fn law_a_turn_is_one_exchange(
    t: TurnView,
    c: ConversationView,
    event: Event,
    action: Action,
    after: TurnView,
    d: ConversationView,
    base: LedgerView,
)
    requires
        entered(t, c.ledger, base),
        t.expects(event),
        t.steps(c, event, action, after, d),
        event !is Failed,
    ensures
        action is Reply || entered(after, d.ledger, base),
        action matches Action::Reply(r) ==> exists|reply: Seq<i32>|
            {
                &&& #[trigger] reply.len() == r@.tokens_generated
                &&& d.ledger == base.with_turn(Role::User, t.tokens).with_turn(
                    Role::Assistant,
                    reply,
                )
                &&& r@.committed_tokens == d.ledger.committed_pos
            },
{
    if action is Reply {
        let reply = match event {
            Event::Done => if t.phase == Phase::Prefilling {
                Seq::empty()
            } else {
                t.generation.tokens
            },
            Event::Sampled { token, piece, .. } => generation::step(
                t.generation,
                token,
                tool_probe::text_option(piece),
                t.completion,
                t.end,
            ).after.tokens,
            _ => Seq::empty(),
        };
        assert(reply.len() == action->Reply_0@.tokens_generated);
    }
}

/// A turn from one end to the other: what happened, what was asked for then, and what the turn and
/// its conversation were before each of these and at the end.
pub struct Run {
    pub events: Seq<Event>,
    pub actions: Seq<Action>,
    pub turns: Seq<TurnView>,
    pub conversations: Seq<ConversationView>,
}

impl Run {
    /// The turn took in each event where it can happen.
    pub open spec fn holds(self) -> bool {
        &&& self.actions.len() == self.events.len()
        &&& self.turns.len() == self.events.len() + 1
        &&& self.conversations.len() == self.events.len() + 1
        &&& forall|i: int| 0 <= i < self.events.len() ==> #[trigger] self.stepped_at(i)
    }

    /// The turn took in the event at `i`.
    pub open spec fn stepped_at(self, i: int) -> bool {
        &&& self.turns[i].wf(self.conversations[i])
        &&& self.turns[i].expects(self.events[i])
        &&& self.turns[i].countable(self.conversations[i], self.events[i])
        &&& self.turns[i].steps(
            self.conversations[i],
            self.events[i],
            self.actions[i],
            self.turns[i + 1],
            self.conversations[i + 1],
        )
        &&& self.turns[i + 1].wf(self.conversations[i + 1])
    }

    /// The tokens of the prompt.
    pub open spec fn prompt(self) -> Seq<i32> {
        self.events[0]->turn@
    }

    /// The turn began and came to an end.
    pub open spec fn complete(self) -> bool {
        &&& self.holds()
        &&& self.events.len() > 0
        &&& self.turns[0].phase == Phase::Tokenizing
        &&& self.turns.last().phase == Phase::Over
    }

    /// The ledger once it was seen to that there is room for the prompt and the reply.
    pub open spec fn base(self) -> LedgerView {
        if self.events[0] is Tokenized {
            ledger::room_for(
                with_opening(
                    self.conversations[0],
                    self.events[0]->opening@,
                    self.prompt(),
                ).ledger,
                self.prompt().len() + self.turns[0].max_new_tokens,
            ).after
        } else {
            self.conversations[0].ledger
        }
    }
}

/// As long as a turn goes on, there was room for it, and it has entered nothing but its prompt.
proof fn lemma_a_turn_under_way(run: Run, i: int)
    requires
        run.holds(),
        run.turns[0].phase == Phase::Tokenizing,
        0 < i <= run.events.len(),
        run.turns[i].phase != Phase::Over,
    ensures
        run.events[0] is Tokenized,
        entered(run.turns[i], run.conversations[i].ledger, run.base()),
        run.turns[i].tokens == run.prompt(),
        run.conversations[i] == (ConversationView {
            ledger: run.conversations[i].ledger,
            ..run.conversations[0]
        }),
    decreases i,
{
    assert(run.stepped_at(i - 1));
    if i > 1 {
        assert(run.turns[i - 1].phase != Phase::Over);
        lemma_a_turn_under_way(run, i - 1);
    }
}

/// How a turn ends: with a reply, and then the prompt and the reply are in the ledger, behind what
/// was there once there was room for them; or without one, and then neither is.
proof fn lemma_how_a_turn_ends(run: Run) -> (reply: Seq<i32>)
    requires
        run.complete(),
    ensures
        match run.actions.last() {
            Action::Reply(r) => {
                let d = run.conversations.last();
                &&& run.events[0] is Tokenized
                &&& d == (ConversationView {
                    ledger: run.base().with_turn(Role::User, run.prompt()).with_turn(
                        Role::Assistant,
                        reply,
                    ),
                    ..run.conversations[0]
                })
                &&& d.ledger.wf()
                &&& r@.tokens_generated == reply.len()
                &&& r@.committed_tokens == d.ledger.committed_pos
                &&& r@.context_size == d.ledger.n_ctx
            },
            _ => run.conversations.last() == (ConversationView {
                ledger: run.base(),
                ..run.conversations[0]
            }),
        },
{
    let n = run.events.len() as int;
    assert(run.stepped_at(n - 1));
    if n > 1 {
        assert(run.turns[n - 1].phase != Phase::Over);
        lemma_a_turn_under_way(run, n - 1);
        lemma_base(run);
        ledger::law_withdrawing_undoes(run.base(), Role::User, run.prompt());
    }
    let t = run.turns[n - 1];
    match run.events[n - 1] {
        Event::Done => if t.phase == Phase::Prefilling {
            Seq::empty()
        } else {
            t.generation.tokens
        },
        Event::Sampled { token, piece, .. } => generation::step(
            t.generation,
            token,
            tool_probe::text_option(piece),
            t.completion,
            t.end,
        ).after.tokens,
        _ => Seq::empty(),
    }
}

/// Making room keeps the ledger in order.
proof fn lemma_base(run: Run)
    requires
        run.holds(),
        run.turns[0].phase == Phase::Tokenizing,
        run.events.len() > 0,
    ensures
        run.base().wf(),
        run.base().n_ctx == run.conversations[0].ledger.n_ctx,
        ledger::whole(run.conversations[0].ledger.turns) ==> ledger::whole(run.base().turns),
{
    assert(run.stepped_at(0));
    if run.events[0] is Tokenized {
        let known = with_opening(
            run.conversations[0],
            run.events[0]->opening@,
            run.prompt(),
        ).ledger;
        let needed = run.prompt().len() + run.turns[0].max_new_tokens;
        ledger::law_enough_room(known, needed);
        ledger::lemma_no_more_than_before(known, needed);
        if ledger::whole(run.conversations[0].ledger.turns) {
            ledger::law_exchanges_stay_whole(known, needed);
        }
    }
}

/// User and assistant take turns, whatever becomes of a turn: where there were whole exchanges only,
/// there still are. A reply completes one exchange more than making room has left, nothing else
/// completes any.
pub proof fn law_exchanges_are_completed_by_replies(run: Run)
    requires
        run.complete(),
    ensures
        ({
            let l = run.conversations[0].ledger;
            let d = run.conversations.last().ledger;
            &&& ledger::whole(l.turns) ==> ledger::whole(d.turns)
            &&& ledger::completed(d.turns) == ledger::completed(run.base().turns) + (
            if run.actions.last() is Reply {
                1int
            } else {
                0int
            })
        }),
{
    let reply = lemma_how_a_turn_ends(run);
    lemma_base(run);
    ledger::law_one_more_exchange(run.base(), run.prompt(), reply);
}

/// A whole turn, whatever happens in its course, is one exchange, if it comes to a reply: the prompt
/// and the reply go into the ledger behind what making room has left there, one behind the other;
/// where there was room, nothing is dropped for them. The reply says how full the context is then,
/// and how much of it was generated.
pub proof fn law_a_whole_turn_is_one_exchange(run: Run) -> (reply: Seq<i32>)
    requires
        run.complete(),
        run.actions.last() is Reply,
    ensures
        ({
            let l = run.conversations[0].ledger;
            let d = run.conversations.last();
            let r = run.actions.last()->Reply_0@;
            let count = d.ledger.turns.len() as int;
            let user = d.ledger.turns[count - 2];
            let assistant = d.ledger.turns[count - 1];
            &&& run.events[0] is Tokenized
            &&& d == (ConversationView {
                ledger: run.base().with_turn(Role::User, run.prompt()).with_turn(
                    Role::Assistant,
                    reply,
                ),
                ..run.conversations[0]
            })
            &&& d.ledger.wf()
            &&& count == run.base().turns.len() + 2
            &&& user.role == Role::User && assistant.role == Role::Assistant
            &&& user.start_pos == run.base().committed_pos
            &&& user.end_pos == user.start_pos + run.prompt().len()
            &&& assistant.start_pos == user.end_pos
            &&& assistant.end_pos == d.ledger.committed_pos
            &&& r.tokens_generated == reply.len() == assistant.end_pos - assistant.start_pos
            &&& r.committed_tokens == d.ledger.committed_pos == d.ledger.tokens.len()
            &&& r.context_size == l.n_ctx
            &&& ledger::whole(l.turns) ==> ledger::whole(d.ledger.turns)
            &&& l.fits(run.prompt().len() + run.turns[0].max_new_tokens) ==> {
                &&& run.base().turns == l.turns
                &&& run.base().tokens == l.tokens
                &&& ledger::completed(d.ledger.turns) == ledger::completed(l.turns) + 1
            }
        }),
{
    let reply = lemma_how_a_turn_ends(run);
    lemma_base(run);
    law_exchanges_are_completed_by_replies(run);
    reply
}

/// A turn that comes to no reply leaves no trace of itself: neither its prompt nor anything that was
/// generated is in the ledger. What was dropped to make room for it stays dropped.
pub proof fn law_a_failed_turn_leaves_no_trace(run: Run)
    requires
        run.complete(),
        run.actions.last() !is Reply,
    ensures
        run.conversations.last() == (ConversationView {
            ledger: run.base(),
            ..run.conversations[0]
        }),
        run.base().wf(),
        run.base().n_ctx == run.conversations[0].ledger.n_ctx,
{
    lemma_how_a_turn_ends(run);
    lemma_base(run);
}

/// From its opening on a conversation holds whole exchanges only, whatever became of its turns: each
/// turn begins where the one before has ended.
pub proof fn law_conversations_are_whole_exchanges(runs: Seq<Run>, k: int)
    requires
        0 <= k < runs.len(),
        forall|i: int| 0 <= i < runs.len() ==> (#[trigger] runs[i]).complete(),
        forall|i: int, j: int|
            0 <= i && j == i + 1 && j < runs.len() ==> (#[trigger] runs[j]).conversations[0] == (
            #[trigger] runs[i]).conversations.last(),
        runs[0].conversations[0].ledger.turns.len() == 0,
    ensures
        ledger::whole(runs[k].conversations.last().ledger.turns),
    decreases k,
{
    assert(runs[k].complete());
    if k > 0 {
        law_conversations_are_whole_exchanges(runs, k - 1);
        assert(runs[k].conversations[0] == runs[k - 1].conversations.last());
    }
    law_exchanges_are_completed_by_replies(runs[k]);
}

/// A turn comes to an end: every token that is fed back takes up one of the positions that are left
/// in the cache.
pub proof fn law_a_turn_comes_to_an_end(
    t: TurnView,
    c: ConversationView,
    event: Event,
    action: Action,
    after: TurnView,
    d: ConversationView,
)
    requires
        t.wf(c),
        t.expects(event),
        t.steps(c, event, action, after, d),
        action is Feed,
    ensures
        after.generation.n_cur == t.generation.n_cur + 1,
        after.generation.n_cur <= c.ledger.n_ctx,
        d == c,
{
}

/// What a turn returns is what was generated in it, behind what the reply was made to begin with: its
/// text, the tool calls that stand in that text in the conversation's format, and whether the text
/// stops inside one. It reports the text that was given to the model, and the time to the first token
/// that was sampled.
pub proof fn law_a_turn_returns_its_reply(
    t: TurnView,
    c: ConversationView,
    event: Event,
    action: Action,
    after: TurnView,
    d: ConversationView,
)
    requires
        t.wf(c),
        t.expects(event),
        t.steps(c, event, action, after, d),
        action is Reply,
    ensures
        ({
            let r = action->Reply_0@;
            let generated = match event {
                Event::Sampled { token, piece, .. } => generation::step(
                    t.generation,
                    token,
                    tool_probe::text_option(piece),
                    t.completion,
                    t.end,
                ).after.text,
                _ => if t.phase == Phase::Prefilling {
                    Seq::empty()
                } else {
                    t.generation.text
                },
            };
            &&& t.prefill is None ==> r.text == generated
            &&& t.prefill matches Some(p) ==> r.text == p + generated
            &&& c.tool_format is None ==> r.tool_calls.len() == 0 && !r.truncated_tool_call
            &&& c.tool_format matches Some(format) ==> {
                &&& r.tool_calls == tool_format::tool_calls(r.text, format)
                &&& r.truncated_tool_call == tool_format::mid_call(
                    r.text,
                    format.call_open(),
                    format.call_close(),
                )
            }
            &&& r.formatted_prompt == t.prompt
            &&& r.context_size == c.ledger.n_ctx
            &&& t.first_token_ms matches Some(ms) ==> r.time_to_first_token_ms == ms
            &&& t.first_token_ms is None && event is Sampled ==> r.time_to_first_token_ms
                == event->elapsed_ms
        }),
{
}

/// A turn that a model makes a call in and then ends: the reply holds that call.
pub proof fn law_a_turn_returns_the_call_it_holds(
    t: TurnView,
    c: ConversationView,
    event: Event,
    action: Action,
    after: TurnView,
    d: ConversationView,
    prose: Seq<char>,
    name: Seq<char>,
    args: Seq<Argument>,
)
    requires
        t.wf(c),
        t.expects(event),
        t.steps(c, event, action, after, d),
        action is Reply,
        c.tool_format is Some,
        ({
            let format = c.tool_format->0;
            let body = call_laws::written_body(format, name, args);
            &&& call_laws::marks_off(format)
            &&& call_laws::sayable(format, name, args)
            &&& format.call_open().len() > 0
            &&& format.call_close().len() > 0
            &&& call_laws::ends_at(prose, format.call_open())
            &&& call_laws::ends_at(body, format.call_close())
            &&& action->Reply_0@.text == prose + format.call_open() + body + format.call_close()
        }),
    ensures
        action->Reply_0@.tool_calls == seq![call_laws::call_with(name, args)],
{
    let format = c.tool_format->0;
    let body = call_laws::written_body(format, name, args);
    let s = prose + format.call_open() + body + format.call_close();
    call_laws::law_calls_survive_their_format(format, prose, name, args, Seq::empty());
    assert(s + Seq::<char>::empty() =~= s);
    call_laws::lemma_no_calls_in_nothing(format);
    let one = seq![call_laws::call_with(name, args)];
    assert(one + Seq::<protocol::ToolCallView>::empty() =~= one);
}

/// A turn is begun with its text, has generated nothing and ends where the conversation's format says
/// that calls do.
pub proof fn law_a_turn_begins(
    c: ConversationView,
    prompt: Seq<char>,
    add_bos: bool,
    prefill: Option<Seq<char>>,
    max_new_tokens: int,
    completion: Option<CompletionView>,
)
    ensures
        ({
            let t = turn_with(c, prompt, add_bos, prefill, max_new_tokens, completion);
            &&& t.phase == Phase::Tokenizing
            &&& t.prompt == prompt && t.add_bos == add_bos && t.prefill == prefill
            &&& t.max_new_tokens == max_new_tokens && t.completion == completion
            &&& t.tokens.len() == 0 && t.generation.text.len() == 0
            &&& t.generation.tokens.len() == 0 && t.generation.budget_used == 0
            &&& t.first_token_ms is None
            &&& t.end is Some <==> c.tool_format is Some
            &&& t.end matches Some(e) ==> e.call_open == c.tool_format->0.call_open() && e.closers
                == tool_format::closers(c.tool_format->0.call_close())
        }),
{
}

/// A turn is given to the model if there is room for it and its reply, once what may be dropped was
/// dropped; else it is refused, for the reason that the policy gives.
pub proof fn law_a_turn_is_admitted_where_there_is_room(
    t: TurnView,
    c: ConversationView,
    opening: Vec<i32>,
    turn: Vec<i32>,
    action: Action,
    after: TurnView,
    d: ConversationView,
)
    requires
        t.wf(c),
        t.phase == Phase::Tokenizing,
        t.countable(c, (Event::Tokenized { opening, turn })),
        t.steps(c, (Event::Tokenized { opening, turn }), action, after, d),
    ensures
        c.ledger.fits(turn@.len() + t.max_new_tokens) ==> action is Prefill && d.ledger.turns
            == c.ledger.turns && d.ledger.tokens == c.ledger.tokens,
        action is Prefill ==> after.phase == Phase::Prefilling && after.tokens == turn@
            && d.ledger.fits(turn@.len() + t.max_new_tokens),
        action is Prefill || action is Refuse,
        action is Refuse ==> after.phase == Phase::Over,
        action matches Action::Refuse { error, .. } ==> match c.ledger.overflow {
            OverflowPolicy::Fail => error@ matches SessionErrorView::ConversationContextFull {
                committed_pos,
                needed,
                n_ctx,
            } && committed_pos == c.ledger.committed_pos && needed == turn@.len() + t.max_new_tokens
                && n_ctx == c.ledger.n_ctx,
            OverflowPolicy::DropOldestTurns => error@ is ConversationTooLargeToTrim,
        },
        c.ledger.overflow == OverflowPolicy::Fail && !c.ledger.fits(turn@.len() + t.max_new_tokens)
            ==> action is Refuse && d.ledger.turns == c.ledger.turns && d.ledger.tokens
            == c.ledger.tokens,
{
    let known = with_opening(c, opening@, turn@);
    ledger::law_enough_room(known.ledger, turn@.len() + t.max_new_tokens);
}

/// Tokens are sampled for as long as there is room in the cache and in the reply's budget, and each
/// that does not end the reply is fed back at the next position.
pub proof fn law_tokens_are_fed_back_one_by_one(
    t: TurnView,
    c: ConversationView,
    event: Event,
    action: Action,
    after: TurnView,
    d: ConversationView,
)
    requires
        t.wf(c),
        t.expects(event),
        t.steps(c, event, action, after, d),
        event is Sampled || event is Done && t.phase == Phase::Feeding,
    ensures
        event is Done ==> (action is Sample <==> t.generation.n_cur < c.ledger.n_ctx
            && t.generation.budget_used < t.max_new_tokens),
        event is Done ==> action is Sample || action is Reply,
        event is Sampled ==> action is Feed || action is Reply,
        action matches Action::Feed { token, pos } ==> {
            &&& token == event->token
            &&& pos == t.generation.n_cur
            &&& after.generation.tokens == t.generation.tokens.push(token)
            &&& after.generation.n_cur == t.generation.n_cur + 1
            &&& after.phase == Phase::Feeding
            &&& d == c
            &&& t.first_token_ms is None ==> after.first_token_ms == Some(event->elapsed_ms)
            &&& t.first_token_ms is Some ==> after.first_token_ms == t.first_token_ms
        },
        action is Reply ==> d.ledger.turns.len() == c.ledger.turns.len() + 1,
{
}

/// The first turn of a conversation protects its opening, if it is seen to begin with it; later turns
/// change nothing in what is protected, and whatever is dropped for a turn, what is protected stays
/// in the cache.
pub proof fn law_a_turn_protects_the_opening(
    t: TurnView,
    c: ConversationView,
    opening: Vec<i32>,
    turn: Vec<i32>,
    action: Action,
    after: TurnView,
    d: ConversationView,
)
    requires
        t.wf(c),
        t.phase == Phase::Tokenizing,
        t.countable(c, (Event::Tokenized { opening, turn })),
        t.steps(c, (Event::Tokenized { opening, turn }), action, after, d),
    ensures
        c.ledger.turns.len() == 0 && c.opening.len() > 0 && opening@.is_prefix_of(turn@)
            ==> d.ledger.protected_prefix == opening@.len(),
        c.ledger.turns.len() > 0 || c.opening.len() == 0 || !opening@.is_prefix_of(turn@)
            ==> d.ledger.protected_prefix == c.ledger.protected_prefix,
        d.ledger.protected_prefix <= c.ledger.tokens.len() ==> d.ledger.tokens.take(
            d.ledger.protected_prefix,
        ) == c.ledger.tokens.take(d.ledger.protected_prefix),
{
    let known = with_opening(c, opening@, turn@);
    let needed = turn@.len() + t.max_new_tokens;
    let (a, b) = ledger::law_opening_and_newest_kept(known.ledger, needed);
    let prefix = known.ledger.protected_prefix;
    if prefix <= c.ledger.tokens.len() {
        if a == b {
            assert(c.ledger.tokens.take(a) + c.ledger.tokens.skip(b) =~= c.ledger.tokens);
        } else {
            assert(d.ledger.tokens.take(prefix) =~= c.ledger.tokens.take(prefix));
        }
    }
}

} // verus!
