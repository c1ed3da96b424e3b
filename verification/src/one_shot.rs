//! One generation without a conversation, as a machine: what the model did goes in, what to ask of it
//! next comes out.

use vstd::prelude::*;
use crate::conversation;
use crate::conversation::{ResultView, SessionErrorView};
use crate::generation;
use crate::generation::{BatchEntry, Generation, GenerationView, Step};
use crate::protocol::{CompletionView, GrammarCompletion};
use crate::tool_probe;
use crate::turn;
use crate::turn::{Action, Event, Phase};

verus! {

/// A generation in a context of its own.
#[derive(Debug)]
pub struct PromptRun {
    pub phase: Phase,
    /// The text that is given to the model.
    pub prompt: String,
    /// What the reply is made to begin with; it ends the prompt.
    pub prefill: Option<String>,
    pub max_new_tokens: i32,
    pub completion: Option<GrammarCompletion>,
    /// How many positions the cache has.
    pub n_ctx: i32,
    /// How many tokens the prompt has.
    pub prompt_tokens: usize,
    pub generation: Generation,
    pub first_token_ms: Option<u64>,
}

/// The content of a [`PromptRun`].
#[verifier::ext_equal]
pub struct PromptView {
    pub phase: Phase,
    pub prompt: Seq<char>,
    pub prefill: Option<Seq<char>>,
    pub max_new_tokens: int,
    pub completion: Option<CompletionView>,
    pub n_ctx: int,
    pub prompt_tokens: int,
    pub generation: GenerationView,
    pub first_token_ms: Option<u64>,
}

impl View for PromptRun {
    type V = PromptView;

    open spec fn view(&self) -> PromptView {
        PromptView {
            phase: self.phase,
            prompt: self.prompt@,
            prefill: tool_probe::text_option(self.prefill),
            max_new_tokens: self.max_new_tokens as int,
            completion: match self.completion {
                Some(c) => Some(c@),
                None => None,
            },
            n_ctx: self.n_ctx as int,
            prompt_tokens: self.prompt_tokens as int,
            generation: self.generation@,
            first_token_ms: self.first_token_ms,
        }
    }
}

impl PromptView {
    /// The event is one that can happen in this phase.
    pub open spec fn expects(self, event: Event) -> bool {
        match event {
            Event::Tokenized { turn, .. } => self.phase == Phase::Tokenizing && turn@.len()
                <= i32::MAX,
            Event::Done => self.phase == Phase::Prefilling || self.phase == Phase::Feeding,
            Event::Sampled { .. } => self.phase == Phase::Sampling,
            Event::Failed => self.phase != Phase::Over,
        }
    }

    /// The numbers agree with each other.
    pub open spec fn wf(self) -> bool {
        &&& self.n_ctx <= i32::MAX
        &&& self.max_new_tokens <= i32::MAX
        &&& self.phase == Phase::Prefilling || self.phase == Phase::Sampling || self.phase
            == Phase::Feeding ==> 0 <= self.prompt_tokens < self.n_ctx
        &&& self.phase == Phase::Sampling || self.phase == Phase::Feeding ==> {
            &&& self.generation.n_cur == self.prompt_tokens + self.generation.tokens.len()
            &&& self.generation.n_cur <= self.n_ctx
        }
        &&& self.phase == Phase::Sampling ==> self.generation.wants_more(
            self.n_ctx,
            self.max_new_tokens,
        )
    }

    /// What the generation came to.
    pub open spec fn result(self) -> ResultView {
        ResultView {
            text: conversation::with_prefill(self.prefill, self.generation.text),
            time_to_first_token_ms: match self.first_token_ms {
                Some(ms) => ms,
                None => 0,
            },
            tokens_generated: self.generation.tokens.len() as int,
            committed_tokens: self.prompt_tokens + self.generation.tokens.len(),
            context_size: self.n_ctx,
            formatted_prompt: self.prompt,
            tool_calls: Seq::empty(),
            truncated_tool_call: false,
        }
    }

    /// The reply is complete, and returned.
    pub open spec fn finishes(self, action: Action, after: PromptView) -> bool {
        &&& after.phase == Phase::Over
        &&& action matches Action::Reply(r) && r@ == self.result()
    }

    /// Another token is sampled if there is room for one, else the reply is complete.
    pub open spec fn goes_on(self, action: Action, after: PromptView) -> bool {
        if self.generation.wants_more(self.n_ctx, self.max_new_tokens) {
            after == (PromptView { phase: Phase::Sampling, ..self }) && action is Sample
        } else {
            self.finishes(action, after)
        }
    }

    /// What is to be done when `event` happened, and what the generation is then.
    pub open spec fn steps(self, event: Event, action: Action, after: PromptView) -> bool {
        match event {
            Event::Tokenized { turn, .. } => {
                let count = turn@.len() as int;
                if count < self.n_ctx {
                    &&& after == (PromptView {
                        phase: Phase::Prefilling,
                        prompt_tokens: count,
                        ..self
                    })
                    &&& action matches Action::Prefill { shifts, plan } && shifts@.len() == 0
                        && generation::is_decode_plan(plan@, count, 0)
                } else {
                    &&& after == (PromptView { phase: Phase::Over, ..self })
                    &&& action matches Action::Refuse { shifts, error } && shifts@.len() == 0
                        && error@ == (SessionErrorView::PromptTooLong {
                        prompt_tokens: count,
                        n_ctx: self.n_ctx,
                    })
                }
            },
            Event::Done => if self.phase == Phase::Prefilling {
                PromptView {
                    generation: turn::generation_at(self.prompt_tokens),
                    ..self
                }.goes_on(action, after)
            } else {
                self.goes_on(action, after)
            },
            Event::Sampled { token, piece, elapsed_ms } => {
                let s = generation::step(
                    self.generation,
                    token,
                    tool_probe::text_option(piece),
                    self.completion,
                    None,
                );
                let more = PromptView {
                    generation: s.after,
                    first_token_ms: Some(
                        match self.first_token_ms {
                            Some(ms) => ms,
                            None => elapsed_ms,
                        },
                    ),
                    ..self
                };
                if s.goes_on {
                    &&& after == (PromptView { phase: Phase::Feeding, ..more })
                    &&& action == (Action::Feed { token, pos: self.generation.n_cur as i32 })
                } else {
                    more.finishes(action, after)
                }
            },
            Event::Failed => {
                &&& after == (PromptView { phase: Phase::Over, ..self })
                &&& action == (Action::Discard { from: 0 })
            },
        }
    }
}

impl PromptRun {
    /// A generation for a formatted prompt, in a context of `n_ctx` positions.
    pub fn new(
        formatted: String,
        assistant_prefill: Option<&str>,
        max_new_tokens: i32,
        completion: Option<GrammarCompletion>,
        n_ctx: i32,
    ) -> (r: Self)
        ensures
            r@ == (PromptView {
                phase: Phase::Tokenizing,
                prompt: match assistant_prefill {
                    Some(p) => formatted@ + p@,
                    None => formatted@,
                },
                prefill: tool_probe::str_option(assistant_prefill),
                max_new_tokens: max_new_tokens as int,
                completion: match completion {
                    Some(c) => Some(c@),
                    None => None,
                },
                n_ctx: n_ctx as int,
                prompt_tokens: 0,
                generation: turn::generation_at(0),
                first_token_ms: None,
            }),
            r@.wf(),
    {
        let mut prompt: String = formatted;
        let prefill: Option<String> = match assistant_prefill {
            Some(p) => {
                prompt.append(p);
                Some(p.to_string())
            },
            None => None,
        };
        PromptRun {
            phase: Phase::Tokenizing,
            prompt,
            prefill,
            max_new_tokens,
            completion,
            n_ctx,
            prompt_tokens: 0,
            generation: Generation::start(0),
            first_token_ms: None,
        }
    }

    /// Returns the reply.
    fn finish(&mut self) -> (r: Action)
        requires
            0 < old(self).n_ctx,
            old(self)@.prompt_tokens + old(self)@.generation.tokens.len() <= old(self).n_ctx,
        ensures
            old(self)@.finishes(r, final(self)@),
            final(self)@.wf(),
    {
        let mut reply: Generation = Generation::start(0);
        core::mem::swap(&mut reply, &mut self.generation);
        let prefill: Option<&str> = match &self.prefill {
            Some(p) => Some(p.as_str()),
            None => None,
        };
        let ms: u64 = match self.first_token_ms {
            Some(ms) => ms,
            None => 0,
        };
        self.phase = Phase::Over;
        Action::Reply(
            conversation::one_shot_result(
                self.prompt_tokens,
                reply,
                self.n_ctx,
                prefill,
                self.prompt.clone(),
                ms,
            ),
        )
    }

    /// Asks for another token, or finishes.
    fn go_on(&mut self) -> (r: Action)
        requires
            0 <= old(self)@.prompt_tokens < old(self).n_ctx,
            old(self)@.generation.n_cur == old(self)@.prompt_tokens
                + old(self)@.generation.tokens.len(),
            old(self)@.generation.n_cur <= old(self).n_ctx,
        ensures
            old(self)@.goes_on(r, final(self)@),
            final(self)@.wf(),
    {
        if self.generation.wants_more(self.n_ctx, self.max_new_tokens) {
            self.phase = Phase::Sampling;
            Action::Sample
        } else {
            self.finish()
        }
    }

    /// Takes in what the model did and says what to ask of it next.
    pub fn step(&mut self, event: Event) -> (r: Action)
        requires
            old(self)@.wf(),
            old(self)@.expects(event),
        ensures
            old(self)@.steps(event, r, final(self)@),
            final(self)@.wf(),
    {
        match event {
            Event::Tokenized { turn, .. } => {
                match conversation::check_prompt(turn.len() as i32, self.n_ctx) {
                    Ok(_) => {
                        let plan: Vec<Vec<BatchEntry>> = generation::decode_chunked(turn.len(), 0);
                        self.phase = Phase::Prefilling;
                        self.prompt_tokens = turn.len();
                        Action::Prefill { shifts: Vec::new(), plan }
                    },
                    Err(error) => {
                        self.phase = Phase::Over;
                        Action::Refuse { shifts: Vec::new(), error }
                    },
                }
            },
            Event::Done => {
                if self.phase == Phase::Prefilling {
                    self.generation = Generation::start(self.prompt_tokens as i32);
                }
                self.go_on()
            },
            Event::Sampled { token, piece, elapsed_ms } => {
                if self.first_token_ms.is_none() {
                    self.first_token_ms = Some(elapsed_ms);
                }
                let text: Option<&str> = match &piece {
                    Some(p) => Some(p.as_str()),
                    None => None,
                };
                match self.generation.accept(token, text, self.completion.as_ref(), None) {
                    Step::Decode { token, pos } => {
                        self.phase = Phase::Feeding;
                        Action::Feed { token, pos }
                    },
                    Step::Stop => self.finish(),
                }
            },
            Event::Failed => {
                self.phase = Phase::Over;
                Action::Discard { from: 0 }
            },
        }
    }
}

/// A generation fits: whatever is sampled, its prompt and its reply together never take up more than
/// the context that it runs in, and what is returned says how much that is.
pub proof fn law_a_generation_fits_its_context(
    p: PromptView,
    event: Event,
    action: Action,
    after: PromptView,
)
    requires
        p.wf(),
        p.expects(event),
        p.steps(event, action, after),
    ensures
        action matches Action::Feed { pos, .. } ==> p.prompt_tokens <= pos < p.n_ctx,
        action matches Action::Reply(r) ==> r@.committed_tokens <= r@.context_size
            && r@.context_size == p.n_ctx && r@.committed_tokens == p.prompt_tokens
            + r@.tokens_generated,
{
}

/// A prompt that leaves room in the context is given to the model whole; one that leaves none is
/// refused, with both sizes.
pub proof fn law_a_prompt_has_to_leave_room(
    p: PromptView,
    event: Event,
    action: Action,
    after: PromptView,
)
    requires
        p.steps(event, action, after),
        event is Tokenized,
    ensures
        event->turn@.len() < p.n_ctx <==> action is Prefill,
        event->turn@.len() >= p.n_ctx <==> action is Refuse,
        action is Prefill ==> {
            &&& generation::is_decode_plan(action->plan@, event->turn@.len() as int, 0)
            &&& action->Prefill_shifts@.len() == 0
            &&& after.phase == Phase::Prefilling
            &&& after.prompt_tokens == event->turn@.len()
            &&& after.prompt == p.prompt
            &&& after.prefill == p.prefill
            &&& after.n_ctx == p.n_ctx
            &&& after.max_new_tokens == p.max_new_tokens
            &&& after.completion == p.completion
        },
        action is Refuse ==> {
            &&& action->error@ == (SessionErrorView::PromptTooLong {
                prompt_tokens: event->turn@.len() as int,
                n_ctx: p.n_ctx,
            })
            &&& action->Refuse_shifts@.len() == 0
            &&& after.phase == Phase::Over
        },
{
}

/// Tokens are sampled for as long as there is room in the context and in the reply's budget, and each
/// that does not end the reply is fed back at the next position. A failure takes everything out of
/// the cache.
pub proof fn law_a_generation_goes_on_token_by_token(
    p: PromptView,
    event: Event,
    action: Action,
    after: PromptView,
)
    requires
        p.steps(event, action, after),
        !(event is Tokenized),
    ensures
        event is Failed ==> action == (Action::Discard { from: 0 }) && after.phase == Phase::Over,
        event is Done && p.phase == Phase::Feeding ==> (action is Sample <==> p.generation.n_cur
            < p.n_ctx && p.generation.budget_used < p.max_new_tokens),
        event is Done && p.phase == Phase::Prefilling ==> (action is Sample <==> p.prompt_tokens
            < p.n_ctx && 0 < p.max_new_tokens),
        event is Done ==> action is Sample || action is Reply,
        event is Sampled ==> action is Feed || action is Reply,
        event is Done && action is Sample ==> after.phase == Phase::Sampling,
        action is Reply ==> after.phase == Phase::Over,
        action matches Action::Feed { token, pos } ==> {
            &&& token == event->token
            &&& pos == p.generation.n_cur as i32
            &&& after.generation.tokens == p.generation.tokens.push(token)
            &&& after.generation.n_cur == p.generation.n_cur + 1
            &&& after.phase == Phase::Feeding
            &&& p.first_token_ms is None ==> after.first_token_ms == Some(event->elapsed_ms)
            &&& p.first_token_ms is Some ==> after.first_token_ms == p.first_token_ms
        },
{
}

/// What is returned is the text that was generated, behind what the reply was made to begin with; it
/// counts the tokens that were generated, and what they and the prompt take up, and calls no tool.
pub proof fn law_a_generation_returns_its_text(
    p: PromptView,
    event: Event,
    action: Action,
    after: PromptView,
)
    requires
        p.steps(event, action, after),
        action is Reply,
    ensures
        ({
            let r = action->Reply_0@;
            let text = if event is Sampled {
                generation::step(
                    p.generation,
                    event->token,
                    tool_probe::text_option(event->piece),
                    p.completion,
                    None,
                ).after.text
            } else if p.phase == Phase::Prefilling {
                Seq::empty()
            } else {
                p.generation.text
            };
            &&& p.prefill is None ==> r.text == text
            &&& p.prefill matches Some(prefill) ==> r.text == prefill + text
            &&& r.formatted_prompt == p.prompt
            &&& r.context_size == p.n_ctx
            &&& r.committed_tokens == p.prompt_tokens + r.tokens_generated
            &&& event is Sampled && p.first_token_ms is None ==> r.time_to_first_token_ms
                == event->elapsed_ms
            &&& p.first_token_ms matches Some(ms) ==> r.time_to_first_token_ms == ms
            &&& event is Done && p.first_token_ms is None ==> r.time_to_first_token_ms == 0
            &&& event is Done && p.phase == Phase::Feeding ==> r.tokens_generated
                == p.generation.tokens.len()
            &&& r.tool_calls.len() == 0
            &&& !r.truncated_tool_call
        }),
{
}

/// A generation begins with its prompt, behind which stands what the reply is made to begin with.
pub proof fn law_how_one_generation_begins(
    formatted: String,
    prefill: Option<&str>,
    max_new_tokens: i32,
    completion: Option<GrammarCompletion>,
    n_ctx: i32,
    r: PromptRun,
)
    requires
        call_ensures(PromptRun::new, (formatted, prefill, max_new_tokens, completion, n_ctx), r),
    ensures
        prefill is None ==> r@.prompt == formatted@,
        prefill matches Some(p) ==> r@.prompt == formatted@ + p@ && r@.prefill == Some(p@),
        prefill is None ==> r@.prefill is None,
        r@.max_new_tokens == max_new_tokens,
        r@.n_ctx == n_ctx,
        r@.phase == Phase::Tokenizing,
        completion is None <==> r@.completion is None,
        completion matches Some(c) ==> r@.completion == Some(c@),
{
}

} // verus!
