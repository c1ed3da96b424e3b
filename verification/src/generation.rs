//! What a model is given to decode, and when its generation ends.

use vstd::prelude::*;
use crate::protocol::{CompletionView, GrammarCompletion};
use crate::text;
use crate::tool_format;
use crate::tool_format::{TurnEnd, TurnEndView};

verus! {

/// The most tokens that are decoded at once.
pub const BATCH_TOKENS: usize = 512;

/// The most tokens of a text that are embedded.
pub const EMBED_MAX_TOKENS: usize = 512;

/// One token of a batch: which of the tokens, its position in the cache, and whether the
/// probabilities of the next token are wanted after it.
#[derive(Debug, Clone, Copy, PartialEq, Eq, Structural)]
pub struct BatchEntry {
    pub index: usize,
    pub pos: i32,
    pub logits: bool,
}

/// The entry for the token `index` of `count` that go into the cache from position `n_cur` on:
/// only after the last one is something sampled.
pub open spec fn batch_entry(index: int, count: int, n_cur: int) -> BatchEntry {
    BatchEntry {
        index: index as usize,
        pos: (n_cur + index) as i32,
        logits: index == count - 1,
    }
}

/// How `count` tokens are decoded from position `n_cur` on: in batches of at most
/// [`BATCH_TOKENS`], in order, every batch but the last one full.
pub open spec fn is_decode_plan(plan: Seq<Vec<BatchEntry>>, count: int, n_cur: int) -> bool {
    &&& plan.len() == (count + BATCH_TOKENS - 1) / (BATCH_TOKENS as int)
    &&& forall|k: int|
        0 <= k < plan.len() ==> (#[trigger] plan[k])@.len() == if (k + 1) * BATCH_TOKENS <= count {
            BATCH_TOKENS as int
        } else {
            count - k * BATCH_TOKENS
        }
    &&& forall|k: int, j: int|
        0 <= k < plan.len() && 0 <= j < plan[k]@.len() ==> #[trigger] plan[k]@[j] == batch_entry(
            k * BATCH_TOKENS + j,
            count,
            n_cur,
        )
}

/// Plans how `count` tokens are decoded from position `n_cur` on.
pub fn decode_chunked(count: usize, n_cur: i32) -> (plan: Vec<Vec<BatchEntry>>)
    requires
        0 <= n_cur,
        n_cur + count <= i32::MAX,
    ensures
        is_decode_plan(plan@, count as int, n_cur as int),
{
    let mut plan: Vec<Vec<BatchEntry>> = Vec::new();
    let mut done: usize = 0;
    while done < count
        invariant
            done <= count,
            0 <= n_cur,
            n_cur + count <= i32::MAX,
            done == plan@.len() * BATCH_TOKENS || done == count,
            plan@.len() == (done + BATCH_TOKENS - 1) / (BATCH_TOKENS as int),
            forall|k: int|
                0 <= k < plan@.len() ==> (#[trigger] plan@[k])@.len() == if (k + 1) * BATCH_TOKENS
                    <= count {
                    BATCH_TOKENS as int
                } else {
                    count - k * BATCH_TOKENS
                },
            forall|k: int, j: int|
                0 <= k < plan@.len() && 0 <= j < plan@[k]@.len() ==> #[trigger] plan@[k]@[j]
                    == batch_entry(k * BATCH_TOKENS + j, count as int, n_cur as int),
        decreases count - done,
    {
        let end: usize = if count - done < BATCH_TOKENS {
            count
        } else {
            done + BATCH_TOKENS
        };
        let ghost k = plan@.len();
        let mut batch: Vec<BatchEntry> = Vec::new();
        let mut i: usize = done;
        while i < end
            invariant
                done <= i <= end <= count,
                0 <= n_cur,
                n_cur + count <= i32::MAX,
                batch@.len() == i - done,
                done == k * BATCH_TOKENS,
                forall|j: int|
                    0 <= j < batch@.len() ==> #[trigger] batch@[j] == batch_entry(
                        k * BATCH_TOKENS + j,
                        count as int,
                        n_cur as int,
                    ),
            decreases end - i,
        {
            batch.push(BatchEntry { index: i, pos: n_cur + i as i32, logits: i == count - 1 });
            i += 1;
        }
        plan.push(batch);
        done = end;
    }
    plan
}

/// How many tokens of each text are embedded in a context of `n_ctx` tokens.
pub fn embed_capacity(n_ctx: u32) -> (r: usize)
    ensures
        r == if n_ctx == 0 {
            1int
        } else if n_ctx > EMBED_MAX_TOKENS {
            EMBED_MAX_TOKENS as int
        } else {
            n_ctx as int
        },
{
    if n_ctx == 0 {
        1
    } else if n_ctx > 512 {
        EMBED_MAX_TOKENS
    } else {
        n_ctx as usize
    }
}

/// One stage of a sampler, in the order in which a sampler applies them.
#[derive(Debug, Clone, Copy, PartialEq, Eq, Structural)]
pub enum Stage {
    Grammar,
    Penalties,
    Greedy,
    TopK,
    TopP,
    MinP,
    Temperature,
    Distribution,
}

/// The stages of a sampler: what filters and reshapes the candidates comes before what picks one,
/// and a stage that is switched off is left out.
pub open spec fn stages(
    greedy: bool,
    grammar: bool,
    penalties: bool,
    top_p: bool,
    min_p: bool,
) -> Seq<Stage> {
    let none = Seq::<Stage>::empty();
    let masked = if grammar {
        seq![Stage::Grammar]
    } else {
        none
    };
    let adjusted = if penalties {
        seq![Stage::Penalties]
    } else {
        none
    };
    if greedy {
        masked + adjusted + seq![Stage::Greedy]
    } else {
        masked + adjusted + seq![Stage::TopK] + (if top_p {
            seq![Stage::TopP]
        } else {
            none
        }) + (if min_p {
            seq![Stage::MinP]
        } else {
            none
        }) + seq![Stage::Temperature, Stage::Distribution]
    }
}

/// The stages of a sampler.
pub fn build_chain(greedy: bool, grammar: bool, penalties: bool, top_p: bool, min_p: bool) -> (r: Vec<
    Stage,
>)
    ensures
        r@ == stages(greedy, grammar, penalties, top_p, min_p),
{
    let mut r: Vec<Stage> = Vec::new();
    if grammar {
        r.push(Stage::Grammar);
    }
    if penalties {
        r.push(Stage::Penalties);
    }
    if greedy {
        r.push(Stage::Greedy);
    } else {
        r.push(Stage::TopK);
        if top_p {
            r.push(Stage::TopP);
        }
        if min_p {
            r.push(Stage::MinP);
        }
        r.push(Stage::Temperature);
        r.push(Stage::Distribution);
    }
    assert(r@ =~= stages(greedy, grammar, penalties, top_p, min_p));
    r
}

/// A generation in progress.
#[derive(Debug)]
pub struct Generation {
    /// What was generated so far.
    pub text: String,
    /// The tokens that were fed back into the cache.
    pub tokens: Vec<i32>,
    /// The next position in the cache.
    pub n_cur: i32,
    /// How many tokens count towards the answer.
    pub budget_used: i32,
}

/// The content of a [`Generation`].
#[verifier::ext_equal]
pub struct GenerationView {
    pub text: Seq<char>,
    pub tokens: Seq<i32>,
    pub n_cur: int,
    pub budget_used: int,
}

impl View for Generation {
    type V = GenerationView;

    open spec fn view(&self) -> GenerationView {
        GenerationView {
            text: self.text@,
            tokens: self.tokens@,
            n_cur: self.n_cur as int,
            budget_used: self.budget_used as int,
        }
    }
}

/// A deliberation was opened in `s` and not closed.
pub open spec fn thinking(s: Seq<char>) -> bool {
    text::contains(s, "<think>"@) && !text::contains(s, "</think>"@)
}

impl GenerationView {
    /// There is room in the cache and in the answer's budget.
    pub open spec fn wants_more(self, n_ctx: int, max_new_tokens: int) -> bool {
        self.n_cur < n_ctx && self.budget_used < max_new_tokens
    }

    /// After `token` was fed back.
    pub open spec fn fed(self, token: i32) -> GenerationView {
        GenerationView { tokens: self.tokens.push(token), n_cur: self.n_cur + 1, ..self }
    }

    /// After `piece` was generated: what is generated inside a deliberation does not count
    /// towards the answer.
    pub open spec fn extended(self, piece: Seq<char>) -> GenerationView {
        GenerationView {
            text: self.text + piece,
            budget_used: self.budget_used + if thinking(self.text) {
                0int
            } else {
                1int
            },
            ..self
        }
    }
}

/// What a generation is after one token, and whether it goes on.
pub struct StepView {
    pub after: GenerationView,
    pub goes_on: bool,
}

/// Where the turn ends in `s`, if it does.
pub open spec fn cut_of(end: Option<TurnEndView>, s: Seq<char>) -> Option<int> {
    match end {
        Some(end) => tool_format::turn_cut(s, end.call_open, end.closers),
        None => None,
    }
}

/// One token of a generation; `piece` is its text, or nothing for one that ends a generation.
///
/// A generation ends with such a token, unless it comes inside a deliberation: then it is fed
/// back like any other. It ends once a grammar is complete, and where a turn is over: there the
/// text is cut.
pub open spec fn step(
    g: GenerationView,
    token: i32,
    piece: Option<Seq<char>>,
    completion: Option<CompletionView>,
    end: Option<TurnEndView>,
) -> StepView {
    match piece {
        None => if thinking(g.text) {
            StepView { after: g.fed(token), goes_on: true }
        } else {
            StepView { after: g, goes_on: false }
        },
        Some(piece) => {
            let more = g.extended(piece);
            if completion is Some && completion->0.completed_by(more.text) {
                StepView { after: more, goes_on: false }
            } else {
                match cut_of(end, more.text) {
                    Some(at) => StepView {
                        after: GenerationView { text: more.text.take(at), ..more },
                        goes_on: false,
                    },
                    None => StepView { after: more.fed(token), goes_on: true },
                }
            }
        },
    }
}

/// The content of an optional completion.
pub open spec fn completion_option(c: Option<&GrammarCompletion>) -> Option<CompletionView> {
    match c {
        Some(c) => Some(c@),
        None => None,
    }
}

/// The content of an optional turn end.
pub open spec fn end_option(e: Option<&TurnEnd>) -> Option<TurnEndView> {
    match e {
        Some(e) => Some(e@),
        None => None,
    }
}

/// What to do after a token was sampled.
#[derive(Debug, Clone, Copy, PartialEq, Eq, Structural)]
pub enum Step {
    /// The generation is over.
    Stop,
    /// Decode this token at this position, then sample again.
    Decode { token: i32, pos: i32 },
}

impl Generation {
    /// A generation that continues at position `n_cur`.
    pub fn start(n_cur: i32) -> (r: Self)
        ensures
            r@ == (GenerationView {
                text: Seq::empty(),
                tokens: Seq::empty(),
                n_cur: n_cur as int,
                budget_used: 0,
            }),
    {
        Generation { text: String::new(), tokens: Vec::new(), n_cur, budget_used: 0 }
    }

    /// Whether another token is to be sampled.
    pub fn wants_more(&self, n_ctx: i32, max_new_tokens: i32) -> (r: bool)
        ensures
            r == self@.wants_more(n_ctx as int, max_new_tokens as int),
    {
        self.n_cur < n_ctx && self.budget_used < max_new_tokens
    }

    /// Whether a deliberation was opened and not closed.
    fn is_thinking(&self) -> (r: bool)
        ensures
            r == thinking(self.text@),
    {
        let s: Vec<char> = text::chars_of(self.text.as_str());
        text::has(s.as_slice(), text::chars_of("<think>").as_slice()) && !text::has(
            s.as_slice(),
            text::chars_of("</think>").as_slice(),
        )
    }

    /// Feeds a token back.
    fn feed(&mut self, token: i32) -> (r: Step)
        requires
            old(self).n_cur < i32::MAX,
        ensures
            final(self)@ == old(self)@.fed(token),
            r == (Step::Decode { token, pos: old(self).n_cur }),
    {
        let pos: i32 = self.n_cur;
        self.n_cur = self.n_cur + 1;
        self.tokens.push(token);
        Step::Decode { token, pos }
    }

    /// Takes a sampled token; `piece` is its text, or `None` for one that ends a generation.
    pub fn accept(
        &mut self,
        token: i32,
        piece: Option<&str>,
        completion: Option<&GrammarCompletion>,
        turn_end: Option<&TurnEnd>,
    ) -> (r: Step)
        requires
            old(self).n_cur < i32::MAX,
            old(self).budget_used < i32::MAX,
        ensures
            ({
                let s = step(
                    old(self)@,
                    token,
                    crate::tool_probe::str_option(piece),
                    completion_option(completion),
                    end_option(turn_end),
                );
                &&& final(self)@ == s.after
                &&& r == if s.goes_on {
                    Step::Decode { token, pos: old(self).n_cur }
                } else {
                    Step::Stop
                }
            }),
    {
        let was_thinking: bool = self.is_thinking();
        let piece: &str = match piece {
            None => {
                if !was_thinking {
                    return Step::Stop;
                }
                return self.feed(token);
            },
            Some(piece) => piece,
        };
        self.text.append(piece);
        if !was_thinking {
            self.budget_used = self.budget_used + 1;
        }
        match completion {
            Some(completion) => {
                if completion.is_complete(self.text.as_str()) {
                    return Step::Stop;
                }
            },
            None => {},
        }
        match turn_end {
            Some(turn_end) => {
                let s: Vec<char> = text::chars_of(self.text.as_str());
                match turn_end.cut(s.as_slice()) {
                    Some(at) => {
                        self.text = text::string_of(text::head(s.as_slice(), at));
                        return Step::Stop;
                    },
                    None => {},
                }
            },
            None => {},
        }
        self.feed(token)
    }
}

/// One sampled token.
pub struct Event {
    pub token: i32,
    pub piece: Option<Seq<char>>,
}

/// What a generation becomes as `events` are sampled one after the other, for as long as there is
/// room and none of them ends it.
pub open spec fn generated(
    g: GenerationView,
    events: Seq<Event>,
    n_ctx: int,
    max_new_tokens: int,
    completion: Option<CompletionView>,
    end: Option<TurnEndView>,
) -> GenerationView
    decreases events.len(),
{
    if events.len() == 0 || !g.wants_more(n_ctx, max_new_tokens) {
        g
    } else {
        let s = step(g, events[0].token, events[0].piece, completion, end);
        if s.goes_on {
            generated(s.after, events.skip(1), n_ctx, max_new_tokens, completion, end)
        } else {
            s.after
        }
    }
}

/// A generation never goes past the end of the cache or of the answer's budget, and the tokens it
/// fed back are exactly those that the cache grew by.
pub proof fn law_generation_is_bounded(
    g: GenerationView,
    events: Seq<Event>,
    n_ctx: int,
    max_new_tokens: int,
    completion: Option<CompletionView>,
    end: Option<TurnEndView>,
)
    requires
        g.n_cur <= n_ctx,
        g.budget_used <= max_new_tokens,
    ensures
        ({
            let r = generated(g, events, n_ctx, max_new_tokens, completion, end);
            &&& g.n_cur <= r.n_cur <= n_ctx
            &&& g.budget_used <= r.budget_used <= max_new_tokens
            &&& r.tokens.len() - g.tokens.len() == r.n_cur - g.n_cur
            &&& g.tokens.is_prefix_of(r.tokens)
        }),
    decreases events.len(),
{
    if events.len() == 0 || !g.wants_more(n_ctx, max_new_tokens) {
    } else {
        let s = step(g, events[0].token, events[0].piece, completion, end);
        if s.goes_on {
            law_generation_is_bounded(
                s.after,
                events.skip(1),
                n_ctx,
                max_new_tokens,
                completion,
                end,
            );
        }
    }
}

/// What is generated inside a deliberation does not count towards the answer: however many
/// tokens are sampled there, the budget stays as it was.
pub proof fn law_thinking_is_free(
    g: GenerationView,
    token: i32,
    piece: Option<Seq<char>>,
    completion: Option<CompletionView>,
    end: Option<TurnEndView>,
)
    requires
        thinking(g.text),
    ensures
        step(g, token, piece, completion, end).after.budget_used == g.budget_used,
{
}

/// A token that ends a generation is honoured outside a deliberation and only there.
pub proof fn law_end_is_honoured_outside_thinking(
    g: GenerationView,
    token: i32,
    completion: Option<CompletionView>,
    end: Option<TurnEndView>,
)
    ensures
        step(g, token, None, completion, end).goes_on == thinking(g.text),
        step(g, token, None, completion, end).after.text == g.text,
{
}

/// A deliberation is one that was opened and not closed.
pub proof fn law_what_thinking_is(before: Seq<char>, after: Seq<char>)
    ensures
        ({
            let s = before + "<think>"@ + after;
            thinking(s) <==> !text::contains(s, "</think>"@)
        }),
        !text::contains(before, "<think>"@) ==> !thinking(before),
        !thinking(before + "</think>"@ + after),
{
    let s = before + "<think>"@ + after;
    text::law_standing_somewhere(before, "<think>"@, after, s, 0);
    text::law_standing_somewhere(before, "</think>"@, after, s, 0);
}

/// A token that ends nothing is kept: its text behind what was generated, itself in the cache, at the
/// next position. It counts towards the answer unless it is part of a deliberation.
pub proof fn law_a_piece_is_kept(
    g: GenerationView,
    token: i32,
    piece: Seq<char>,
    completion: Option<CompletionView>,
    end: Option<TurnEndView>,
)
    requires
        completion is None || !completion->0.completed_by(g.text + piece),
        end is None || tool_format::turn_cut(g.text + piece, end->0.call_open, end->0.closers) is None,
    ensures
        ({
            let s = step(g, token, Some(piece), completion, end);
            &&& s.goes_on
            &&& s.after.text == g.text + piece
            &&& s.after.tokens == g.tokens.push(token)
            &&& s.after.n_cur == g.n_cur + 1
            &&& thinking(g.text) ==> s.after.budget_used == g.budget_used
            &&& !thinking(g.text) ==> s.after.budget_used == g.budget_used + 1
        }),
{
}

/// A generation ends once its grammar is complete: all of the text is kept, and the last token is not
/// fed back.
pub proof fn law_a_complete_grammar_ends_it(
    g: GenerationView,
    token: i32,
    piece: Seq<char>,
    completion: CompletionView,
    end: Option<TurnEndView>,
)
    requires
        completion.completed_by(g.text + piece),
    ensures
        ({
            let s = step(g, token, Some(piece), Some(completion), end);
            &&& !s.goes_on
            &&& s.after.text == g.text + piece
            &&& s.after.tokens == g.tokens
            &&& s.after.n_cur == g.n_cur
        }),
{
}

/// A generation ends where the turn is over: what was written behind that is dropped, and the last
/// token is not fed back.
pub proof fn law_a_turn_that_is_over_ends_it(
    g: GenerationView,
    token: i32,
    piece: Seq<char>,
    completion: Option<CompletionView>,
    end: TurnEndView,
    at: int,
)
    requires
        completion is None || !completion->0.completed_by(g.text + piece),
        tool_format::turn_cut(g.text + piece, end.call_open, end.closers) == Some(at),
    ensures
        ({
            let s = step(g, token, Some(piece), completion, Some(end));
            &&& !s.goes_on
            &&& s.after.text == (g.text + piece).take(at)
            &&& s.after.tokens == g.tokens
            &&& s.after.n_cur == g.n_cur
        }),
{
}

/// A token that ends a reply is fed back inside a deliberation, and there alone; it adds no text and
/// counts for nothing.
pub proof fn law_an_end_adds_nothing(
    g: GenerationView,
    token: i32,
    completion: Option<CompletionView>,
    end: Option<TurnEndView>,
)
    ensures
        ({
            let s = step(g, token, None, completion, end);
            &&& s.after.text == g.text
            &&& s.after.budget_used == g.budget_used
            &&& thinking(g.text) ==> s.goes_on && s.after.tokens == g.tokens.push(token)
                && s.after.n_cur == g.n_cur + 1
            &&& !thinking(g.text) ==> !s.goes_on && s.after.tokens == g.tokens && s.after.n_cur
                == g.n_cur
        }),
{
}

/// A generation goes on while there is room in the cache and in the answer's budget, and no longer.
pub proof fn law_when_a_generation_goes_on(g: GenerationView, n_ctx: int, max_new_tokens: int)
    ensures
        g.n_cur >= n_ctx ==> !g.wants_more(n_ctx, max_new_tokens),
        g.budget_used >= max_new_tokens ==> !g.wants_more(n_ctx, max_new_tokens),
        g.n_cur < n_ctx && g.budget_used < max_new_tokens ==> g.wants_more(n_ctx, max_new_tokens),
{
}

/// A reply whose options are known is complete as soon as it is one of them; one that is to be JSON
/// as soon as it is, behind what it began with.
pub proof fn law_when_a_reply_is_complete(
    options: Seq<Seq<char>>,
    i: int,
    prefill: Seq<char>,
    s: Seq<char>,
)
    ensures
        0 <= i < options.len() ==> CompletionView::ExactMatch(options).completed_by(options[i]),
        CompletionView::ExactMatch(options).completed_by(s) ==> exists|j: int|
            0 <= j < options.len() && options[j] == s,
        (CompletionView::ValidJson { prefill }).completed_by(s) <==> crate::json::parsed(prefill + s)
            is Some,
{
}

/// A grammar masks the candidates before anything else, penalties adjust them next, and what narrows
/// them comes before what picks one. A sampler that picks the likeliest narrows nothing.
pub proof fn law_what_a_sampler_is_made_of(
    greedy: bool,
    penalties: bool,
    top_p: bool,
    min_p: bool,
)
    ensures
        stages(greedy, true, penalties, top_p, min_p) == seq![Stage::Grammar] + stages(
            greedy,
            false,
            penalties,
            top_p,
            min_p,
        ),
        stages(greedy, false, true, top_p, min_p) == seq![Stage::Penalties] + stages(
            greedy,
            false,
            false,
            top_p,
            min_p,
        ),
        stages(true, false, false, top_p, min_p) == seq![Stage::Greedy],
        stages(false, false, false, true, min_p) == seq![Stage::TopK, Stage::TopP] + stages(
            false,
            false,
            false,
            false,
            min_p,
        ).skip(1),
        stages(false, false, false, false, true) == seq![
            Stage::TopK,
            Stage::MinP,
            Stage::Temperature,
            Stage::Distribution,
        ],
        stages(false, false, false, false, false) == seq![
            Stage::TopK,
            Stage::Temperature,
            Stage::Distribution,
        ],
{
    assert(stages(greedy, true, penalties, top_p, min_p) =~= seq![Stage::Grammar] + stages(
        greedy,
        false,
        penalties,
        top_p,
        min_p,
    ));
    assert(stages(greedy, false, true, top_p, min_p) =~= seq![Stage::Penalties] + stages(
        greedy,
        false,
        false,
        top_p,
        min_p,
    ));
    assert(stages(true, false, false, top_p, min_p) =~= seq![Stage::Greedy]);
    assert(stages(false, false, false, true, min_p) =~= seq![Stage::TopK, Stage::TopP] + stages(
        false,
        false,
        false,
        false,
        min_p,
    ).skip(1));
}

/// Every token is decoded, once, in order: the `t`-th at the `t`-th position from where the cache
/// ends, and the probabilities of the next token are asked for behind the last one alone. No batch is
/// larger than may be.
pub proof fn law_every_token_is_decoded_once(
    plan: Seq<Vec<BatchEntry>>,
    count: int,
    n_cur: int,
    t: int,
)
    requires
        is_decode_plan(plan, count, n_cur),
        0 <= t < count <= i32::MAX,
        0 <= n_cur,
        n_cur + count <= i32::MAX,
    ensures
        ({
            let k = t / 512;
            let j = t % 512;
            &&& 0 <= k < plan.len() && 0 <= j < plan[k]@.len()
            &&& plan[k]@[j].index == t
            &&& plan[k]@[j].pos == n_cur + t
            &&& plan[k]@[j].logits <==> t == count - 1
        }),
        forall|k: int| 0 <= k < plan.len() ==> 0 < (#[trigger] plan[k])@.len() <= 512,
        forall|k: int, j: int|
            0 <= k < plan.len() && 0 <= j < plan[k]@.len() ==> (#[trigger] plan[k]@[j]).index == k
                * 512 + j && k * 512 + j < count,
{
    let k = t / 512;
    let j = t % 512;
    assert(k * 512 + j == t);
    assert(k < plan.len());
    assert(plan[k]@[j] == batch_entry(k * BATCH_TOKENS + j, count, n_cur));
}

/// A text is embedded in a context of its model's size, but never of more than 512 positions nor of
/// none.
pub proof fn law_how_much_is_embedded(n_ctx: u32, r: usize)
    requires
        call_ensures(embed_capacity, (n_ctx,), r),
    ensures
        1 <= r <= 512,
        r <= n_ctx || n_ctx == 0,
        1 <= n_ctx <= 512 ==> r == n_ctx,
        n_ctx >= 512 ==> r == 512,
{
}

/// A generation begins with nothing said, and goes on at the position that it is given.
pub proof fn law_how_a_generation_begins(n_cur: i32, r: Generation)
    requires
        call_ensures(Generation::start, (n_cur,), r),
    ensures
        r@.text.len() == 0,
        r@.tokens.len() == 0,
        r@.n_cur == n_cur,
        r@.budget_used == 0,
{
}

} // verus!
