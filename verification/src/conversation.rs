//! A multi-turn conversation with one model, and a single generation without one: everything but
//! the model itself.

use vstd::prelude::*;
use crate::call_laws;
use crate::call_laws::Argument;
use crate::chat_template;
use crate::conversation_template;
use crate::conversation_template::{ConversationTemplate, TemplateView, ToolSetup};
use crate::generation::{Generation, GenerationView};
use crate::json;
use crate::json::{EntryView, JsonView};
use crate::ledger;
use crate::ledger::{KvShift, Ledger, LedgerView, NoRoom, OverflowPolicy, Role, TurnBoundary};
use crate::protocol;
use crate::protocol::{GrammarCompletion, ToolCall, ToolCallView, ToolFormat, ToolFormatView, ToolSpec};
use crate::text;
use crate::tool_format;
use crate::tool_format::TurnEnd;
use crate::tool_probe;
use crate::tool_probe::{ChatCapabilities, SpansView, ToolResultSpans};

verus! {

/// How tokens that were seen recently are discouraged.
#[derive(Debug, Clone, Copy)]
pub struct Penalties<F> {
    /// How many of the most recent tokens count: none for 0, all for -1.
    pub last_n: i32,
    /// One switches it off.
    pub repeat: F,
    /// Zero switches it off.
    pub freq: F,
    /// Zero switches it off.
    pub present: F,
}

impl<F: Copy> Penalties<F> {
    /// No penalties, given the numbers one and zero.
    pub fn disabled(one: F, zero: F) -> (r: Self)
        ensures
            r == (Penalties { last_n: 0, repeat: one, freq: zero, present: zero }),
    {
        Penalties { last_n: 0, repeat: one, freq: zero, present: zero }
    }
}

/// How the next token is picked.
#[derive(Debug, Clone, Copy)]
pub enum Sampling<F> {
    /// The most likely one.
    Greedy { penalties: Penalties<F> },
    /// One drawn at random.
    Temperature {
        temperature: F,
        top_k: i32,
        /// One switches it off.
        top_p: F,
        /// Zero switches it off.
        min_p: F,
        seed: u32,
        penalties: Penalties<F>,
    },
}

/// A reply and what there is to know about it.
#[derive(Debug)]
pub struct GenerationResult {
    pub text: String,
    /// From the start of the call to the first sampled token.
    pub time_to_first_token_ms: u64,
    pub tokens_generated: usize,
    /// How much of the context window is occupied now.
    pub committed_tokens: usize,
    /// How big the context window is.
    pub context_size: usize,
    /// The text that was given to the model for this call.
    pub formatted_prompt: String,
    /// The tool calls in `text`, where tools are offered and the model's format is known.
    pub tool_calls: Vec<ToolCall>,
    /// Generation stopped part-way into a tool call.
    pub truncated_tool_call: bool,
}

/// The content of a [`GenerationResult`].
pub struct ResultView {
    pub text: Seq<char>,
    pub time_to_first_token_ms: u64,
    pub tokens_generated: int,
    pub committed_tokens: int,
    pub context_size: int,
    pub formatted_prompt: Seq<char>,
    pub tool_calls: Seq<ToolCallView>,
    pub truncated_tool_call: bool,
}

impl View for GenerationResult {
    type V = ResultView;

    open spec fn view(&self) -> ResultView {
        ResultView {
            text: self.text@,
            time_to_first_token_ms: self.time_to_first_token_ms,
            tokens_generated: self.tokens_generated as int,
            committed_tokens: self.committed_tokens as int,
            context_size: self.context_size as int,
            formatted_prompt: self.formatted_prompt@,
            tool_calls: protocol::calls_view(self.tool_calls@),
            truncated_tool_call: self.truncated_tool_call,
        }
    }
}

/// What running a model can fail with, apart from the model itself.
#[derive(Debug)]
pub enum LlamaSessionError {
    /// The prompt fills the context window.
    PromptTooLong { prompt_tokens: i32, n_ctx: i32 },
    /// There is no chat template that turns can be composed with.
    ConversationTemplateUnavailable,
    /// A turn does not fit and nothing may be dropped.
    ConversationContextFull { committed_pos: i32, needed: i32, n_ctx: i32 },
    /// A turn does not fit and there is nothing left that can be dropped.
    ConversationTooLargeToTrim,
    /// A saved conversation is of another model.
    SnapshotModelMismatch { saved: String, current: String },
}

/// The content of a [`LlamaSessionError`].
pub enum SessionErrorView {
    PromptTooLong { prompt_tokens: int, n_ctx: int },
    ConversationTemplateUnavailable,
    ConversationContextFull { committed_pos: int, needed: int, n_ctx: int },
    ConversationTooLargeToTrim,
    SnapshotModelMismatch { saved: Seq<char>, current: Seq<char> },
}

impl View for LlamaSessionError {
    type V = SessionErrorView;

    open spec fn view(&self) -> SessionErrorView {
        match *self {
            LlamaSessionError::PromptTooLong { prompt_tokens, n_ctx } => {
                SessionErrorView::PromptTooLong {
                    prompt_tokens: prompt_tokens as int,
                    n_ctx: n_ctx as int,
                }
            },
            LlamaSessionError::ConversationTemplateUnavailable => {
                SessionErrorView::ConversationTemplateUnavailable
            },
            LlamaSessionError::ConversationContextFull { committed_pos, needed, n_ctx } => {
                SessionErrorView::ConversationContextFull {
                    committed_pos: committed_pos as int,
                    needed: needed as int,
                    n_ctx: n_ctx as int,
                }
            },
            LlamaSessionError::ConversationTooLargeToTrim => {
                SessionErrorView::ConversationTooLargeToTrim
            },
            LlamaSessionError::SnapshotModelMismatch { saved, current } => {
                SessionErrorView::SnapshotModelMismatch { saved: saved@, current: current@ }
            },
        }
    }
}

impl SessionErrorView {
    /// The error in words.
    pub open spec fn message(self) -> Seq<char> {
        match self {
            SessionErrorView::PromptTooLong { prompt_tokens, n_ctx } => {
                "prompt ("@ + text::signed_decimal(prompt_tokens)
                    + " tokens) leaves no room in context size ("@ + text::signed_decimal(n_ctx)
                    + ")"@
            },
            SessionErrorView::ConversationTemplateUnavailable => {
                "model has no chat template this crate can safely reuse turn-by-turn (either no template at all, or its rendering isn't provably steady-state per turn) -- open_conversation needs one; one-shot generate() doesn't"@
            },
            SessionErrorView::ConversationContextFull { committed_pos, needed, n_ctx } => {
                "conversation turn ("@ + text::signed_decimal(needed)
                    + " new tokens) doesn't fit even after dropping every droppable turn: committed="@
                    + text::signed_decimal(committed_pos) + ", n_ctx="@ + text::signed_decimal(n_ctx)
            },
            SessionErrorView::ConversationTooLargeToTrim => {
                "conversation overflowed its context window but has fewer than 2 turns left to drop"@
            },
            SessionErrorView::SnapshotModelMismatch { saved, current } => {
                "saved conversation snapshot is for model "@ + saved + ", but this session is "@
                    + current
            },
        }
    }
}

impl LlamaSessionError {
    /// The error in words.
    pub fn message(&self) -> (r: String)
        ensures
            r@ == self@.message(),
    {
        match self {
            LlamaSessionError::PromptTooLong { prompt_tokens, n_ctx } => {
                let mut m: String = "prompt (".to_string();
                m.append(text::signed_number(*prompt_tokens).as_str());
                m.append(" tokens) leaves no room in context size (");
                m.append(text::signed_number(*n_ctx).as_str());
                m.append(")");
                m
            },
            LlamaSessionError::ConversationTemplateUnavailable => {
                "model has no chat template this crate can safely reuse turn-by-turn (either no template at all, or its rendering isn't provably steady-state per turn) -- open_conversation needs one; one-shot generate() doesn't".to_string()
            },
            LlamaSessionError::ConversationContextFull { committed_pos, needed, n_ctx } => {
                let mut m: String = "conversation turn (".to_string();
                m.append(text::signed_number(*needed).as_str());
                m.append(
                    " new tokens) doesn't fit even after dropping every droppable turn: committed=",
                );
                m.append(text::signed_number(*committed_pos).as_str());
                m.append(", n_ctx=");
                m.append(text::signed_number(*n_ctx).as_str());
                m
            },
            LlamaSessionError::ConversationTooLargeToTrim => {
                "conversation overflowed its context window but has fewer than 2 turns left to drop".to_string()
            },
            LlamaSessionError::SnapshotModelMismatch { saved, current } => {
                let mut m: String = "saved conversation snapshot is for model ".to_string();
                m.append(saved.as_str());
                m.append(", but this session is ");
                m.append(current.as_str());
                m
            },
        }
    }

    /// Why there is no room, as an error of a conversation.
    pub fn from_no_room(e: NoRoom) -> (r: Self)
        ensures
            r@ == no_room_error(e),
    {
        match e {
            NoRoom::ContextFull { committed_pos, needed, n_ctx } => {
                LlamaSessionError::ConversationContextFull { committed_pos, needed, n_ctx }
            },
            NoRoom::TooLargeToTrim => LlamaSessionError::ConversationTooLargeToTrim,
        }
    }
}

/// Why there is no room, as an error of a conversation.
pub open spec fn no_room_error(e: NoRoom) -> SessionErrorView {
    match e {
        NoRoom::ContextFull { committed_pos, needed, n_ctx } => {
            SessionErrorView::ConversationContextFull {
                committed_pos: committed_pos as int,
                needed: needed as int,
                n_ctx: n_ctx as int,
            }
        },
        NoRoom::TooLargeToTrim => SessionErrorView::ConversationTooLargeToTrim,
    }
}

/// What a conversation can fail with, whatever holds its state.
#[derive(Debug)]
pub enum ConversationError {
    /// A failure of the transport or at its other end.
    Backend(String),
    /// A failure of the model in this process.
    Llama(LlamaSessionError),
}

impl ConversationError {
    /// The error in words.
    pub open spec fn words(self) -> Seq<char> {
        match self {
            ConversationError::Backend(m) => "conversation backend error: "@ + m@,
            ConversationError::Llama(e) => e@.message(),
        }
    }

    /// The error in words.
    pub fn message(&self) -> (r: String)
        ensures
            r@ == self.words(),
    {
        match self {
            ConversationError::Backend(m) => {
                let mut out: String = "conversation backend error: ".to_string();
                out.append(m.as_str());
                out
            },
            ConversationError::Llama(e) => e.message(),
        }
    }
}

/// What every conversation can do, whatever holds its state.
pub trait ConversationHandle<F> {
    /// Sends a message and returns the reply.
    fn send(
        &mut self,
        message: &str,
        max_new_tokens: i32,
        sampling: Sampling<F>,
        grammar: Option<&str>,
        assistant_prefill: Option<&str>,
        grammar_completion: Option<GrammarCompletion>,
    ) -> Result<GenerationResult, ConversationError>;

    /// Whether tool calls in replies can be read. Where nothing else is said, they cannot.
    fn supports_tool_calls(&self) -> (r: bool)
        default_ensures
            !r,
    {
        false
    }

    /// Sends the results of tool calls and returns the reply. Where nothing else is said, that is
    /// an error.
    fn send_tool_results(
        &mut self,
        _results: &[String],
        _max_new_tokens: i32,
        _sampling: Sampling<F>,
        _grammar: Option<&str>,
        _grammar_completion: Option<GrammarCompletion>,
    ) -> (r: Result<GenerationResult, ConversationError>)
        default_ensures
            r is Err,
            r->Err_0 matches ConversationError::Backend(m) && m@
                == "this conversation backend does not support tool results"@,
    {
        Err(
            ConversationError::Backend(
                "this conversation backend does not support tool results".to_string(),
            ),
        )
    }

    /// How many exchanges there were.
    fn turn_count(&self) -> usize;

    /// Saves the conversation, which ends it.
    fn snapshot(&mut self, state_path: &str, meta_path: &str) -> Result<(), ConversationError>;
}

/// What wraps a prompt where its model's template cannot be rendered.
#[derive(Debug)]
pub struct ChatWrap {
    pub prefix: String,
    pub suffix: String,
}

/// A prompt for a model whose template could not be rendered here: as another renderer has it,
/// else wrapped, else as it is.
pub open spec fn fallback_prompt(
    applied: Option<Seq<char>>,
    wrap: Option<&ChatWrap>,
    prompt: Seq<char>,
) -> Seq<char> {
    match applied {
        Some(s) => s,
        None => match wrap {
            Some(w) => w.prefix@ + prompt + w.suffix@,
            None => prompt,
        },
    }
}

/// A prompt for a model whose template could not be rendered here.
pub fn prompt_without_template(applied: Option<String>, wrap: Option<&ChatWrap>, prompt: &str) -> (r:
    String)
    ensures
        r@ == fallback_prompt(tool_probe::text_option(applied), wrap, prompt@),
{
    match applied {
        Some(s) => s,
        None => match wrap {
            Some(w) => {
                let mut out: String = w.prefix.clone();
                out.append(prompt);
                out.append(w.suffix.as_str());
                out
            },
            None => prompt.to_string(),
        },
    }
}

/// What a template renders for one user message, open for the reply.
pub open spec fn single_turn(template: Option<&str>, prompt: Seq<char>) -> Option<Seq<char>> {
    match template {
        Some(t) => chat_template::chat_rendering(
            t@,
            JsonView::Array(seq![tool_probe::message_json("user"@, prompt)]),
            None,
            true,
        ),
        None => None,
    }
}

/// Wraps `prompt` as one user turn, open for the reply: by the model's template where it can be
/// rendered, else by what `apply` makes of it, else by `wrap`. `has_template` tells whether the
/// model has a template at all; without one the prompt stays as it is.
pub fn formatted_prompt<A: Fn() -> Option<String>>(
    has_template: bool,
    template_text: Option<&str>,
    prompt: &str,
    wrap: Option<&ChatWrap>,
    apply: &A,
) -> (r: String)
    requires
        call_requires(*apply, ()),
    ensures
        !has_template ==> r@ == prompt@,
        has_template && single_turn(template_text, prompt@) is Some ==> r@ == single_turn(
            template_text,
            prompt@,
        )->0,
        has_template && single_turn(template_text, prompt@) is None ==> exists|o: Option<String>| #[trigger]
            call_ensures(*apply, (), o) && r@ == fallback_prompt(
                tool_probe::text_option(o),
                wrap,
                prompt@,
            ),
{
    if !has_template {
        return prompt.to_string();
    }
    match template_text {
        Some(t) => match conversation_template::render_with_minijinja(t, prompt) {
            Some(rendered) => {
                return rendered;
            },
            None => {},
        },
        None => {},
    }
    let applied: Option<String> = apply();
    prompt_without_template(applied, wrap, prompt)
}

/// Whether a prompt of that many tokens leaves room for a reply.
pub fn check_prompt(prompt_tokens: i32, n_ctx: i32) -> (r: Result<(), LlamaSessionError>)
    ensures
        match r {
            Ok(_) => prompt_tokens < n_ctx,
            Err(e) => prompt_tokens >= n_ctx && e@ == (SessionErrorView::PromptTooLong {
                prompt_tokens: prompt_tokens as int,
                n_ctx: n_ctx as int,
            }),
        },
{
    if prompt_tokens >= n_ctx {
        Err(LlamaSessionError::PromptTooLong { prompt_tokens, n_ctx })
    } else {
        Ok(())
    }
}

/// A reply with what it was made to begin with.
pub open spec fn with_prefill(prefill: Option<Seq<char>>, s: Seq<char>) -> Seq<char> {
    match prefill {
        Some(p) => p + s,
        None => s,
    }
}

/// A reply with what it was made to begin with.
fn prefilled(prefill: Option<&str>, s: String) -> (r: String)
    ensures
        r@ == with_prefill(tool_probe::str_option(prefill), s@),
{
    match prefill {
        Some(p) => {
            let mut out: String = p.to_string();
            out.append(s.as_str());
            out
        },
        None => s,
    }
}

/// What a single generation without a conversation returns.
pub fn one_shot_result(
    prompt_tokens: usize,
    generation: Generation,
    n_ctx: i32,
    assistant_prefill: Option<&str>,
    formatted_prompt: String,
    time_to_first_token_ms: u64,
) -> (r: GenerationResult)
    requires
        prompt_tokens + generation@.tokens.len() <= usize::MAX,
    ensures
        r@ == (ResultView {
            text: with_prefill(tool_probe::str_option(assistant_prefill), generation@.text),
            time_to_first_token_ms,
            tokens_generated: generation@.tokens.len() as int,
            committed_tokens: prompt_tokens + generation@.tokens.len(),
            context_size: if n_ctx > 0 {
                n_ctx as int
            } else {
                0
            },
            formatted_prompt: formatted_prompt@,
            tool_calls: Seq::empty(),
            truncated_tool_call: false,
        }),
{
    let tokens_generated: usize = generation.tokens.len();
    let r = GenerationResult {
        text: prefilled(assistant_prefill, generation.text),
        time_to_first_token_ms,
        tokens_generated,
        committed_tokens: prompt_tokens + tokens_generated,
        context_size: if n_ctx > 0 {
            n_ctx as usize
        } else {
            0
        },
        formatted_prompt,
        tool_calls: Vec::new(),
        truncated_tool_call: false,
    };
    assert(r@.tool_calls =~= Seq::empty());
    r
}

/// How a model numbers the positions of its tokens.
#[derive(Debug, Clone, Copy, PartialEq, Eq, Structural)]
pub enum RopeKind {
    Norm,
    NeoX,
    MRope,
    Vision,
}

/// A model's cache can be shifted: only the kinds that are known to use one position per token.
pub open spec fn shiftable(rope: Option<RopeKind>) -> bool {
    rope == Some(RopeKind::Norm) || rope == Some(RopeKind::NeoX)
}

/// Whether a model's cache can be shifted.
pub fn supports_position_shift(rope: Option<RopeKind>) -> (r: bool)
    ensures
        r == shiftable(rope),
{
    match rope {
        Some(RopeKind::Norm) => true,
        Some(RopeKind::NeoX) => true,
        _ => false,
    }
}

/// How a conversation is to be opened.
#[derive(Debug)]
pub struct ConversationOptions {
    pub n_ctx: u32,
    pub overflow: OverflowPolicy,
    /// Instructions for the model's system block.
    pub system: Option<String>,
    /// Tools to offer; none for an empty list.
    pub tools: Vec<ToolSpec>,
    /// How the model writes a tool call, where its template does not tell.
    pub tool_format: Option<ToolFormat>,
}

/// What a saved cache does not hold of a conversation.
#[derive(Debug)]
pub struct ConversationSnapshotMeta {
    pub model_path: String,
    pub n_ctx: i32,
    pub overflow: OverflowPolicy,
    pub turns: Vec<TurnBoundary>,
    pub tools: Vec<ToolSpec>,
    pub tool_format: Option<ToolFormat>,
}

impl ConversationSnapshotMeta {
    /// Whether this was saved of a conversation with the model at `current_path`.
    pub fn check_model(&self, current_path: &str) -> (r: Result<(), LlamaSessionError>)
        ensures
            match r {
                Ok(_) => self.model_path@ == current_path@,
                Err(e) => self.model_path@ != current_path@ && e@
                    == (SessionErrorView::SnapshotModelMismatch {
                    saved: self.model_path@,
                    current: current_path@,
                }),
            },
    {
        if text::same_text(self.model_path.as_str(), current_path) {
            Ok(())
        } else {
            Err(
                LlamaSessionError::SnapshotModelMismatch {
                    saved: self.model_path.as_str().to_string(),
                    current: current_path.to_string(),
                },
            )
        }
    }
}

/// A conversation with one model.
#[derive(Debug)]
pub struct Conversation {
    pub template: ConversationTemplate,
    /// What is in the cache.
    pub ledger: Ledger,
    /// The text that opens the conversation, before the first turn's content.
    pub opening: String,
    /// System text that goes before the first message, where the template has no place for it.
    pub system_for_first_turn: Option<String>,
    pub tool_format: Option<ToolFormat>,
    pub tool_result_spans: Option<ToolResultSpans>,
    pub capabilities: ChatCapabilities,
    /// The tools that the conversation was opened with.
    pub tools: Vec<ToolSpec>,
    /// The format that the conversation was opened with.
    pub configured_tool_format: Option<ToolFormat>,
}

/// The content of a [`Conversation`].
pub struct ConversationView {
    pub template: TemplateView,
    pub ledger: LedgerView,
    pub opening: Seq<char>,
    pub system_for_first_turn: Option<Seq<char>>,
    pub tool_format: Option<ToolFormatView>,
    pub tool_result_spans: Option<SpansView>,
    pub capabilities: ChatCapabilities,
    pub tools: Seq<ToolSpec>,
    pub configured_tool_format: Option<ToolFormatView>,
}

impl View for Conversation {
    type V = ConversationView;

    open spec fn view(&self) -> ConversationView {
        ConversationView {
            template: self.template@,
            ledger: self.ledger@,
            opening: self.opening@,
            system_for_first_turn: tool_probe::text_option(self.system_for_first_turn),
            tool_format: tool_probe::format_option(self.tool_format),
            tool_result_spans: tool_probe::spans_option(self.tool_result_spans),
            capabilities: self.capabilities,
            tools: self.tools@,
            configured_tool_format: tool_probe::format_option(self.configured_tool_format),
        }
    }
}

/// The spans of a template, if there is one and it has any.
pub open spec fn spans_of_text(template: Option<&str>) -> Option<TemplateView> {
    match template {
        Some(t) => conversation_template::conversation_spans(t@),
        None => None,
    }
}

/// `meta` is what has to be saved of `c`, beside its cache, for the model at `path`.
pub open spec fn saved_as(c: ConversationView, meta: ConversationSnapshotMeta, path: Seq<char>) -> bool {
    &&& meta.model_path@ == path
    &&& meta.n_ctx == c.ledger.n_ctx
    &&& meta.overflow == c.ledger.overflow
    &&& meta.turns@ == c.ledger.turns
    &&& meta.tools@.len() == c.tools.len()
    &&& protocol::tools_json(meta.tools@) == protocol::tools_json(c.tools)
    &&& tool_probe::format_option(meta.tool_format) == c.configured_tool_format
}

impl ConversationView {
    /// A new conversation with a model whose template is `template`.
    pub open spec fn opened(
        template: Seq<char>,
        overflow: OverflowPolicy,
        n_ctx: int,
        system: Option<Seq<char>>,
        tools: Seq<ToolSpec>,
        configured: Option<ToolFormatView>,
    ) -> ConversationView {
        let spans = conversation_template::conversation_spans(template)->0;
        let setup = conversation_template::tool_setup(
            template,
            spans.first_turn_open,
            system,
            tools,
            configured,
        );
        ConversationView {
            template: spans,
            ledger: LedgerView {
                committed_pos: 0,
                n_ctx,
                turns: Seq::empty(),
                overflow,
                tokens: Seq::empty(),
                protected_prefix: 0,
            },
            opening: setup.opening,
            system_for_first_turn: setup.system_for_first_turn,
            tool_format: setup.tool_format,
            tool_result_spans: setup.tool_result_spans,
            capabilities: setup.capabilities,
            tools,
            configured_tool_format: configured,
        }
    }

    /// A saved conversation, reopened with the tokens that its cache was loaded with.
    pub open spec fn reopened(
        template: Seq<char>,
        meta: ConversationSnapshotMeta,
        n_ctx: int,
        tokens: Seq<i32>,
    ) -> ConversationView {
        let configured = tool_probe::format_option(meta.tool_format);
        ConversationView {
            ledger: LedgerView {
                committed_pos: tokens.len() as int,
                n_ctx,
                turns: meta.turns@,
                overflow: meta.overflow,
                tokens,
                protected_prefix: 0,
            },
            opening: Seq::empty(),
            system_for_first_turn: None,
            ..ConversationView::opened(
                template,
                meta.overflow,
                n_ctx,
                None,
                meta.tools@,
                configured,
            )
        }
    }

    /// The text that a message adds: what opens the conversation or closes the reply before it,
    /// the message, what opens the reply, and what the reply is made to begin with. System text
    /// that has no place of its own goes before the first message.
    pub open spec fn turn_text(self, message: Seq<char>, prefill: Option<Seq<char>>) -> Seq<char> {
        let first = self.ledger.turns.len() == 0;
        let opening = if first {
            self.opening
        } else {
            self.template.turn_transition
        };
        let folded = match self.system_for_first_turn {
            Some(system) => if first {
                system + "\n\n"@ + message
            } else {
                message
            },
            None => message,
        };
        let composed = opening + folded + self.template.generation_open;
        match prefill {
            Some(p) => composed + p,
            None => composed,
        }
    }

    /// The text that the results of tool calls add: as the template has them, or as a message where
    /// it has no place for them.
    pub open spec fn results_text(self, results: Seq<String>) -> Seq<char> {
        match self.tool_result_spans {
            Some(spans) => spans.around(results),
            None => self.turn_text(
                tool_probe::joined_parts(results, "\n"@, results.len() as int),
                None,
            ),
        }
    }

    /// How many tokens are protected, once the first turn is known to be tokenised as the opening
    /// followed by the rest.
    pub open spec fn protected_by(self, opening_tokens: Seq<i32>, user_tokens: Seq<i32>) -> int {
        if self.ledger.turns.len() == 0 && self.opening.len() > 0 && opening_tokens.is_prefix_of(
            user_tokens,
        ) {
            opening_tokens.len() as int
        } else {
            self.ledger.protected_prefix
        }
    }

    /// A finished reply to `prompt`.
    pub open spec fn reply(
        self,
        prompt: Seq<char>,
        prefill: Option<Seq<char>>,
        g: GenerationView,
        time_to_first_token_ms: u64,
    ) -> ResultView {
        let s = with_prefill(prefill, g.text);
        ResultView {
            text: s,
            time_to_first_token_ms,
            tokens_generated: g.tokens.len() as int,
            committed_tokens: self.ledger.committed_pos,
            context_size: self.ledger.n_ctx,
            formatted_prompt: prompt,
            tool_calls: match self.tool_format {
                Some(format) => tool_format::tool_calls(s, format),
                None => Seq::empty(),
            },
            truncated_tool_call: match self.tool_format {
                Some(format) => tool_format::mid_call(s, format.call_open(), format.call_close()),
                None => false,
            },
        }
    }
}

/// The text of a turn, and whether it is the first: then the token that begins a sequence goes
/// before it.
#[derive(Debug)]
pub struct TurnText {
    pub text: String,
    pub add_bos: bool,
}

impl Conversation {
    /// Opens a conversation with a model whose template, where it has one, is `template_text`,
    /// whose positions are of kind `rope`, in a context of `n_ctx` tokens. Nothing is ever dropped
    /// from a cache that cannot be shifted.
    pub fn open(
        template_text: Option<&str>,
        rope: Option<RopeKind>,
        n_ctx: i32,
        options: ConversationOptions,
    ) -> (r: Result<Self, LlamaSessionError>)
        ensures
            match r {
                Ok(c) => {
                    &&& spans_of_text(template_text) is Some
                    &&& c@ == ConversationView::opened(
                        template_text->0@,
                        if shiftable(rope) {
                            options.overflow
                        } else {
                            OverflowPolicy::Fail
                        },
                        n_ctx as int,
                        tool_probe::text_option(options.system),
                        options.tools@,
                        tool_probe::format_option(options.tool_format),
                    )
                    &&& c@.ledger.wf()
                },
                Err(e) => spans_of_text(template_text) is None && e@
                    == SessionErrorView::ConversationTemplateUnavailable,
            },
    {
        let overflow: OverflowPolicy = if supports_position_shift(rope) {
            options.overflow
        } else {
            OverflowPolicy::Fail
        };
        let template_text: &str = match template_text {
            Some(t) => t,
            None => {
                return Err(LlamaSessionError::ConversationTemplateUnavailable);
            },
        };
        let template: ConversationTemplate =
            match conversation_template::derive_conversation_template(template_text) {
            Some(t) => t,
            None => {
                return Err(LlamaSessionError::ConversationTemplateUnavailable);
            },
        };
        let system: Option<&str> = match &options.system {
            Some(s) => Some(s.as_str()),
            None => None,
        };
        let setup: ToolSetup = conversation_template::prepare_tools(
            template_text,
            &template,
            system,
            options.tools.as_slice(),
            options.tool_format.as_ref(),
        );
        Ok(
            Conversation {
                template,
                ledger: Ledger::new(n_ctx, overflow),
                opening: setup.opening,
                system_for_first_turn: setup.system_for_first_turn,
                tool_format: setup.tool_format,
                tool_result_spans: setup.tool_result_spans,
                capabilities: setup.capabilities,
                tools: options.tools,
                configured_tool_format: options.tool_format,
            },
        )
    }

    /// Reopens a saved conversation with the model at `current_path`, from what was saved and the
    /// tokens that its cache was loaded with. What the opening was is not known any more, so no
    /// part of it is protected.
    pub fn restore(
        meta: ConversationSnapshotMeta,
        current_path: &str,
        template_text: Option<&str>,
        n_ctx: i32,
        tokens: Vec<i32>,
    ) -> (r: Result<Self, LlamaSessionError>)
        requires
            tokens@.len() <= i32::MAX,
        ensures
            match r {
                Ok(c) => {
                    &&& meta.model_path@ == current_path@
                    &&& spans_of_text(template_text) is Some
                    &&& c@ == ConversationView::reopened(
                        template_text->0@,
                        meta,
                        n_ctx as int,
                        tokens@,
                    )
                },
                Err(e) => {
                    ||| meta.model_path@ != current_path@ && e@
                        == (SessionErrorView::SnapshotModelMismatch {
                        saved: meta.model_path@,
                        current: current_path@,
                    })
                    ||| meta.model_path@ == current_path@ && spans_of_text(template_text) is None
                        && e@ == SessionErrorView::ConversationTemplateUnavailable
                },
            },
    {
        match meta.check_model(current_path) {
            Ok(_) => {},
            Err(e) => {
                return Err(e);
            },
        }
        let template_text: &str = match template_text {
            Some(t) => t,
            None => {
                return Err(LlamaSessionError::ConversationTemplateUnavailable);
            },
        };
        let template: ConversationTemplate =
            match conversation_template::derive_conversation_template(template_text) {
            Some(t) => t,
            None => {
                return Err(LlamaSessionError::ConversationTemplateUnavailable);
            },
        };
        let setup: ToolSetup = conversation_template::prepare_tools(
            template_text,
            &template,
            None,
            meta.tools.as_slice(),
            meta.tool_format.as_ref(),
        );
        Ok(
            Conversation {
                template,
                ledger: Ledger {
                    committed_pos: tokens.len() as i32,
                    n_ctx,
                    turns: meta.turns,
                    overflow: meta.overflow,
                    tokens,
                    protected_prefix: 0,
                },
                opening: String::new(),
                system_for_first_turn: None,
                tool_format: setup.tool_format,
                tool_result_spans: setup.tool_result_spans,
                capabilities: setup.capabilities,
                tools: meta.tools,
                configured_tool_format: meta.tool_format,
            },
        )
    }

    /// What has to be saved beside the cache, for the model at `model_path`.
    pub fn snapshot_meta(&self, model_path: &str) -> (r: ConversationSnapshotMeta)
        ensures
            saved_as(self@, r, model_path@),
    {
        let mut turns: Vec<TurnBoundary> = Vec::new();
        let mut i: usize = 0;
        while i < self.ledger.turns.len()
            invariant
                i <= self.ledger.turns.len(),
                turns@ == self.ledger.turns@.take(i as int),
            decreases self.ledger.turns.len() - i,
        {
            turns.push(self.ledger.turns[i]);
            i += 1;
            assert(turns@ =~= self.ledger.turns@.take(i as int));
        }
        assert(turns@ =~= self.ledger.turns@);
        let tool_format: Option<ToolFormat> = match &self.configured_tool_format {
            Some(f) => Some(f.clone()),
            None => None,
        };
        ConversationSnapshotMeta {
            model_path: model_path.to_string(),
            n_ctx: self.ledger.n_ctx,
            overflow: self.ledger.overflow,
            turns,
            tools: protocol::copy_tools(self.tools.as_slice()),
            tool_format,
        }
    }

    /// How many exchanges were completed.
    pub fn turn_count(&self) -> (r: usize)
        ensures
            r == ledger::completed(self@.ledger.turns),
            ledger::alternating(self@.ledger.turns) ==> r == self@.ledger.turns.len() / 2,
    {
        self.ledger.turn_count()
    }

    /// Whether tool calls in replies are read: only where tools are offered and the model's format
    /// is known.
    pub fn supports_tool_calls(&self) -> (r: bool)
        ensures
            r == (self@.tool_format is Some),
    {
        self.tool_format.is_some()
    }

    /// What the model's template was found to accept.
    pub fn capabilities(&self) -> (r: ChatCapabilities)
        ensures
            r == self@.capabilities,
    {
        self.capabilities
    }

    /// The text that `message` adds to the conversation.
    pub fn compose_turn(&self, message: &str, assistant_prefill: Option<&str>) -> (r: TurnText)
        ensures
            r.text@ == self@.turn_text(message@, tool_probe::str_option(assistant_prefill)),
            r.add_bos == (self@.ledger.turns.len() == 0),
    {
        let first: bool = self.ledger.turns.len() == 0;
        let mut out: String = if first {
            self.opening.clone()
        } else {
            self.template.turn_transition.clone()
        };
        let mut folded: String = String::new();
        match &self.system_for_first_turn {
            Some(system) => {
                if first {
                    folded = system.clone();
                    folded.append("\n\n");
                }
            },
            None => {},
        }
        folded.append(message);
        proof {
            if !(first && self.system_for_first_turn is Some) {
                assert(folded@ =~= message@);
            }
        }
        out.append(folded.as_str());
        out.append(self.template.generation_open.as_str());
        match assistant_prefill {
            Some(p) => {
                out.append(p);
            },
            None => {},
        }
        TurnText { text: out, add_bos: first }
    }

    /// The text that tool results add to the conversation: in the template's own shape where it
    /// has one, else they are sent as one message, a line each. Never the first turn in the former
    /// case.
    pub fn compose_results(&self, results: &[String]) -> (r: TurnText)
        ensures
            r.text@ == self@.results_text(results@),
            r.add_bos == (self@.tool_result_spans is None && self@.ledger.turns.len() == 0),
    {
        match &self.tool_result_spans {
            Some(spans) => TurnText { text: spans.render(results), add_bos: false },
            None => {
                let lines: ToolResultSpans = ToolResultSpans {
                    open: String::new(),
                    separator: "\n".to_string(),
                    close: String::new(),
                };
                let message: String = lines.render(results);
                assert(message@ =~= tool_probe::joined_parts(
                    results@,
                    "\n"@,
                    results@.len() as int,
                ));
                self.compose_turn(message.as_str(), None)
            },
        }
    }

    /// Protects the opening, if the first turn is tokenised as the opening followed by the rest.
    /// Returns whether there is nothing to protect or it is protected.
    pub fn protect_opening(&mut self, opening_tokens: &[i32], user_tokens: &[i32]) -> (r: bool)
        requires
            opening_tokens@.len() <= i32::MAX,
        ensures
            final(self)@ == (ConversationView {
                ledger: LedgerView {
                    protected_prefix: old(self)@.protected_by(opening_tokens@, user_tokens@),
                    ..old(self)@.ledger
                },
                ..old(self)@
            }),
            r == (old(self)@.ledger.turns.len() > 0 || old(self)@.opening.len() == 0
                || opening_tokens@.is_prefix_of(user_tokens@)),
            old(self)@.ledger.wf() ==> final(self)@.ledger.wf(),
    {
        if self.ledger.turns.len() > 0 || self.opening.as_str().is_empty() {
            return true;
        }
        if opening_tokens.len() > user_tokens.len() {
            return false;
        }
        let mut i: usize = 0;
        while i < opening_tokens.len()
            invariant
                i <= opening_tokens.len() <= user_tokens.len(),
                *self == *old(self),
                old(self)@.ledger.turns.len() == 0,
                old(self)@.opening.len() > 0,
                forall|j: int| 0 <= j < i ==> opening_tokens@[j] == user_tokens@[j],
            decreases opening_tokens.len() - i,
        {
            if opening_tokens[i] != user_tokens[i] {
                assert(opening_tokens@[i as int] != user_tokens@.subrange(
                    0,
                    opening_tokens@.len() as int,
                )[i as int]);
                return false;
            }
            i += 1;
        }
        assert(opening_tokens@ =~= user_tokens@.subrange(0, opening_tokens@.len() as int));
        self.ledger.protected_prefix = opening_tokens.len() as i32;
        true
    }

    /// Makes room for a turn of `turn_tokens` tokens and a reply of `max_new_tokens`. Returns what
    /// to remove from the cache, in order, whether or not it was enough.
    pub fn make_room(&mut self, turn_tokens: i32, max_new_tokens: i32) -> (r: (
        Vec<KvShift>,
        Result<(), LlamaSessionError>,
    ))
        requires
            old(self)@.ledger.wf(),
            i32::MIN <= turn_tokens + max_new_tokens <= i32::MAX,
            i32::MIN <= old(self).ledger.committed_pos + turn_tokens + max_new_tokens <= i32::MAX,
        ensures
            ({
                let room = ledger::room_for(
                    old(self)@.ledger,
                    turn_tokens + max_new_tokens,
                );
                &&& final(self)@ == (ConversationView { ledger: room.after, ..old(self)@ })
                &&& final(self)@.ledger.wf()
                &&& r.0@ == room.shifts
                &&& match r.1 {
                    Ok(_) => room.enough,
                    Err(e) => !room.enough && e@ == (match old(self)@.ledger.overflow {
                        OverflowPolicy::Fail => SessionErrorView::ConversationContextFull {
                            committed_pos: old(self)@.ledger.committed_pos,
                            needed: turn_tokens + max_new_tokens,
                            n_ctx: old(self)@.ledger.n_ctx,
                        },
                        OverflowPolicy::DropOldestTurns => {
                            SessionErrorView::ConversationTooLargeToTrim
                        },
                    }),
                }
            }),
    {
        let (shifts, outcome) = self.ledger.ensure_room_for(turn_tokens + max_new_tokens);
        match outcome {
            Ok(_) => (shifts, Ok(())),
            Err(e) => (shifts, Err(LlamaSessionError::from_no_room(e))),
        }
    }

    /// Enters a turn that was given to the model.
    pub fn record_prompt(&mut self, tokens: &[i32])
        requires
            old(self)@.ledger.wf(),
            old(self).ledger.committed_pos + tokens@.len() <= i32::MAX,
        ensures
            final(self)@ == (ConversationView {
                ledger: old(self)@.ledger.with_turn(Role::User, tokens@),
                ..old(self)@
            }),
            final(self)@.ledger.wf(),
    {
        self.ledger.record_turn(Role::User, tokens);
    }

    /// Takes the newest turn out again: it was not replied to.
    pub fn withdraw_prompt(&mut self)
        requires
            old(self)@.ledger.wf(),
            old(self)@.ledger.turns.len() > 0,
        ensures
            final(self)@ == (ConversationView {
                ledger: old(self)@.ledger.without_last(),
                ..old(self)@
            }),
            final(self)@.ledger.wf(),
    {
        self.ledger.withdraw();
    }

    /// When a reply is over, by the model's format.
    pub fn turn_end(&self) -> (r: Option<TurnEnd>)
        ensures
            match self@.tool_format {
                Some(f) => r is Some && r->0@.call_open == f.call_open() && r->0@.closers
                    == tool_format::closers(f.call_close()),
                None => r is None,
            },
    {
        match &self.tool_format {
            Some(f) => Some(TurnEnd::of(f)),
            None => None,
        }
    }

    /// Enters the reply to `prompt` and returns it, with the tool calls it holds.
    pub fn record_reply(
        &mut self,
        prompt: String,
        assistant_prefill: Option<&str>,
        generation: Generation,
        time_to_first_token_ms: u64,
    ) -> (r: GenerationResult)
        requires
            old(self)@.ledger.wf(),
            old(self).ledger.n_ctx >= 0,
            old(self).ledger.committed_pos + generation@.tokens.len() <= i32::MAX,
        ensures
            final(self)@ == (ConversationView {
                ledger: old(self)@.ledger.with_turn(Role::Assistant, generation@.tokens),
                ..old(self)@
            }),
            final(self)@.ledger.wf(),
            r@ == final(self)@.reply(
                prompt@,
                tool_probe::str_option(assistant_prefill),
                generation@,
                time_to_first_token_ms,
            ),
    {
        self.ledger.record_turn(Role::Assistant, generation.tokens.as_slice());
        let tokens_generated: usize = generation.tokens.len();
        let s: String = prefilled(assistant_prefill, generation.text);
        let tool_calls: Vec<ToolCall> = match &self.tool_format {
            Some(f) => tool_format::parse_tool_calls(s.as_str(), f),
            None => {
                let none: Vec<ToolCall> = Vec::new();
                assert(protocol::calls_view(none@) =~= Seq::empty());
                none
            },
        };
        let truncated_tool_call: bool = match &self.tool_format {
            Some(f) => tool_format::ends_mid_call(s.as_str(), f),
            None => false,
        };
        GenerationResult {
            text: s,
            time_to_first_token_ms,
            tokens_generated,
            committed_tokens: self.ledger.committed_pos as usize,
            context_size: self.ledger.n_ctx as usize,
            formatted_prompt: prompt,
            tool_calls,
            truncated_tool_call,
        }
    }
}

/// A conversation begins with its opening and goes on without it: the texts of the first two turns,
/// with the reply between them, are the opening, the first message, what opens a reply, the reply,
/// what separates turns, the second message, and what opens a reply.
pub proof fn law_turns_compose(
    c: ConversationView,
    first: Seq<char>,
    first_tokens: Seq<i32>,
    reply: Seq<char>,
    reply_tokens: Seq<i32>,
    second: Seq<char>,
)
    requires
        c.ledger.turns.len() == 0,
        c.system_for_first_turn is None,
    ensures
        ({
            let later = ConversationView {
                ledger: c.ledger.with_turn(Role::User, first_tokens).with_turn(
                    Role::Assistant,
                    reply_tokens,
                ),
                ..c
            };
            c.turn_text(first, None) + reply + later.turn_text(second, None) == c.opening + first
                + c.template.generation_open + reply + c.template.turn_transition + second
                + c.template.generation_open
        }),
{
    let later = ConversationView {
        ledger: c.ledger.with_turn(Role::User, first_tokens).with_turn(
            Role::Assistant,
            reply_tokens,
        ),
        ..c
    };
    assert(c.turn_text(first, None) + reply + later.turn_text(second, None) =~= c.opening + first
        + c.template.generation_open + reply + c.template.turn_transition + second
        + c.template.generation_open);
}

/// A conversation that was opened, saved after any number of turns and reopened with the tokens
/// that were in its cache goes on as if it had never been closed: it has the same turns and tokens,
/// reads the same tool calls, and says its next turns in the same words. Only what its opening was
/// is no longer known.
pub proof fn law_saved_conversations_go_on(
    c: ConversationView,
    template: Seq<char>,
    overflow: OverflowPolicy,
    system: Option<Seq<char>>,
    meta: ConversationSnapshotMeta,
    path: Seq<char>,
)
    requires
        c.ledger.wf(),
        ({
            let new = ConversationView::opened(
                template,
                overflow,
                c.ledger.n_ctx,
                system,
                c.tools,
                c.configured_tool_format,
            );
            c == ConversationView { ledger: c.ledger, ..new }
        }),
        saved_as(c, meta, path),
    ensures
        ({
            let r = ConversationView::reopened(template, meta, c.ledger.n_ctx, c.ledger.tokens);
            &&& r.ledger == LedgerView { protected_prefix: 0, ..c.ledger }
            &&& r.ledger.wf()
            &&& r.template == c.template
            &&& r.tool_format == c.tool_format
            &&& r.tool_result_spans == c.tool_result_spans
            &&& r.capabilities == c.capabilities
            &&& r.configured_tool_format == c.configured_tool_format
            &&& c.ledger.turns.len() > 0 ==> forall|message: Seq<char>, prefill: Option<Seq<char>>|
                #[trigger]
                r.turn_text(message, prefill) == c.turn_text(message, prefill)
        }),
{
    let r = ConversationView::reopened(template, meta, c.ledger.n_ctx, c.ledger.tokens);
    assert(r.ledger =~= LedgerView { protected_prefix: 0, ..c.ledger });
}

/// No system text is lost and none is said twice: it stands in the opening, or before the first
/// message.
pub proof fn law_system_text_is_said_once(
    can: ChatCapabilities,
    default_open: Seq<char>,
    system: Seq<char>,
    has_tools: bool,
    opening: Option<Seq<char>>,
    format: Option<ToolFormatView>,
    spans: Option<SpansView>,
    configured: Option<ToolFormatView>,
)
    ensures
        ({
            let setup = conversation_template::setup_from(
                can,
                default_open,
                Some(system),
                has_tools,
                opening,
                format,
                spans,
                configured,
            );
            if can.system && opening is Some {
                setup.opening == opening->0 && setup.system_for_first_turn is None
            } else {
                setup.system_for_first_turn == Some(system)
            }
        }),
{
}

/// A conversation that offers neither a system prompt nor tools is opened by the template's own
/// span, and reads no tool calls.
pub proof fn law_plain_conversations_are_plain(
    template: Seq<char>,
    default_open: Seq<char>,
    configured: Option<ToolFormatView>,
)
    ensures
        ({
            let setup = conversation_template::tool_setup(
                template,
                default_open,
                None,
                Seq::empty(),
                configured,
            );
            &&& setup.opening == default_open
            &&& setup.system_for_first_turn is None
            &&& setup.tool_format is None
            &&& setup.tool_result_spans is None
        }),
{
}

/// The first turn says the opening, then system text that has no place of its own and a blank line,
/// then the message, then what opens the reply and what it is made to begin with.
pub proof fn law_what_the_first_turn_says(
    c: ConversationView,
    message: Seq<char>,
    prefill: Seq<char>,
)
    requires
        c.ledger.turns.len() == 0,
    ensures
        c.system_for_first_turn matches Some(system) ==> c.turn_text(message, None) == c.opening
            + system + "\n\n"@ + message + c.template.generation_open,
        c.system_for_first_turn is None ==> c.turn_text(message, None) == c.opening + message
            + c.template.generation_open,
        c.turn_text(message, Some(prefill)) == c.turn_text(message, None) + prefill,
{
    if let Some(system) = c.system_for_first_turn {
        assert(c.turn_text(message, None) =~= c.opening + system + "\n\n"@ + message
            + c.template.generation_open);
    }
}

/// Every later turn says what stands between turns, the message, what opens the reply and what it is
/// made to begin with, whatever the conversation was opened with.
pub proof fn law_what_a_later_turn_says(c: ConversationView, message: Seq<char>, prefill: Seq<char>)
    requires
        c.ledger.turns.len() > 0,
    ensures
        c.turn_text(message, None) == c.template.turn_transition + message
            + c.template.generation_open,
        c.turn_text(message, Some(prefill)) == c.turn_text(message, None) + prefill,
{
}

/// What is in the first turn: the opening in front, the message, and the system text before it that
/// has no place of its own.
proof fn lemma_what_is_in_the_first_turn(
    c: ConversationView,
    message: Seq<char>,
    prefill: Option<Seq<char>>,
)
    requires
        c.ledger.turns.len() == 0,
    ensures
        text::contains(c.turn_text(message, prefill), message),
        c.opening.is_prefix_of(c.turn_text(message, prefill)),
        c.system_for_first_turn matches Some(system) ==> text::contains(
            c.turn_text(message, prefill),
            system + "\n\n"@ + message,
        ),
{
    let said = c.turn_text(message, prefill);
    let end = c.template.generation_open + (match prefill {
        Some(p) => p,
        None => Seq::empty(),
    });
    let folded = match c.system_for_first_turn {
        Some(system) => system + "\n\n"@ + message,
        None => message,
    };
    assert(said =~= c.opening + folded + end);
    assert(c.opening =~= said.take(c.opening.len() as int));
    text::law_standing_somewhere(c.opening, folded, end, said, 0);
    match c.system_for_first_turn {
        Some(system) => {
            let before = c.opening + system + "\n\n"@;
            assert(said =~= before + message + end);
            text::law_standing_somewhere(before, message, end, said, 0);
        },
        None => {},
    }
}

/// The system text of a conversation reaches the model: it stands in what the first turn says, or
/// that begins with what the template itself renders for it.
pub proof fn law_system_text_reaches_the_model(
    template: Seq<char>,
    overflow: OverflowPolicy,
    n_ctx: int,
    system: Seq<char>,
    tools: Seq<ToolSpec>,
    configured: Option<ToolFormatView>,
    message: Seq<char>,
    prefill: Option<Seq<char>>,
)
    ensures
        ({
            let c = ConversationView::opened(
                template,
                overflow,
                n_ctx,
                Some(system),
                tools,
                configured,
            );
            let said = c.turn_text(message, prefill);
            let offered = if tools.len() > 0 && c.capabilities.tools {
                Some(protocol::tools_json(tools))
            } else {
                None
            };
            let rendered = conversation_template::opening_for(template, Some(system), offered);
            &&& text::contains(said, message)
            &&& if c.capabilities.system && rendered is Some {
                rendered->0.is_prefix_of(said)
            } else {
                text::contains(said, system + "\n\n"@ + message)
            }
        }),
{
    let c = ConversationView::opened(template, overflow, n_ctx, Some(system), tools, configured);
    lemma_what_is_in_the_first_turn(c, message, prefill);
}

/// The results of tool calls are said as the template has them: all of them, in order, between what
/// opens and what closes them. Where it has no place for them they are a message, one line each.
pub proof fn law_what_results_say(c: ConversationView, results: Seq<String>)
    ensures
        c.tool_result_spans matches Some(spans) ==> c.results_text(results) == spans.open
            + tool_probe::joined_parts(results, spans.separator, results.len() as int)
            + spans.close,
        c.tool_result_spans is None ==> c.results_text(results) == c.turn_text(
            tool_probe::joined_parts(results, "\n"@, results.len() as int),
            None,
        ),
{
}

/// The tokens of the opening are protected once the first turn is seen to begin with them; what was
/// protected before stays so in every other case.
pub proof fn law_the_opening_is_protected(
    c: ConversationView,
    opening: Seq<i32>,
    rest: Seq<i32>,
    other: Seq<i32>,
)
    ensures
        c.ledger.turns.len() == 0 && c.opening.len() > 0 ==> c.protected_by(opening, opening + rest)
            == opening.len(),
        c.ledger.turns.len() > 0 || c.opening.len() == 0 || !opening.is_prefix_of(other)
            ==> c.protected_by(opening, other) == c.ledger.protected_prefix,
{
    assert(opening =~= (opening + rest).take(opening.len() as int));
}

/// What a reply says begins with what it was made to begin with, and goes on with what was
/// generated; what it reports is what was generated and how full the context is.
pub proof fn law_a_reply_is_what_was_generated(
    c: ConversationView,
    prompt: Seq<char>,
    prefill: Seq<char>,
    g: GenerationView,
    ms: u64,
)
    ensures
        c.reply(prompt, None, g, ms).text == g.text,
        c.reply(prompt, Some(prefill), g, ms).text == prefill + g.text,
        forall|p: Option<Seq<char>>|
            {
                let r = #[trigger] c.reply(prompt, p, g, ms);
                &&& r.tokens_generated == g.tokens.len()
                &&& r.committed_tokens == c.ledger.committed_pos
                &&& r.context_size == c.ledger.n_ctx
                &&& r.formatted_prompt == prompt
                &&& r.time_to_first_token_ms == ms
            },
{
}

/// The tool calls of a reply are those that its text holds in the conversation's format, whatever
/// part of the text it was made to begin with; and it was cut off where that text reads so. Without a
/// format it has none and was not.
pub proof fn law_a_reply_carries_the_calls_it_holds(
    c: ConversationView,
    prompt: Seq<char>,
    prefill: Option<Seq<char>>,
    g: GenerationView,
    ms: u64,
)
    ensures
        ({
            let r = c.reply(prompt, prefill, g, ms);
            match c.tool_format {
                Some(format) => {
                    &&& r.tool_calls == tool_format::tool_calls(r.text, format)
                    &&& r.truncated_tool_call == tool_format::mid_call(
                        r.text,
                        format.call_open(),
                        format.call_close(),
                    )
                },
                None => r.tool_calls.len() == 0 && !r.truncated_tool_call,
            }
        }),
{
}

/// A call that a model writes reaches whoever reads the reply: whatever prose comes before it and
/// wherever what the reply was made to begin with ends, the reply holds just that call.
pub proof fn law_a_written_call_is_in_the_reply(
    c: ConversationView,
    prompt: Seq<char>,
    prefill: Seq<char>,
    g: GenerationView,
    ms: u64,
    prose: Seq<char>,
    name: Seq<char>,
    args: Seq<Argument>,
)
    requires
        c.tool_format is Some,
        ({
            let format = c.tool_format->0;
            let body = call_laws::written_body(format, name, args);
            &&& call_laws::marks_off(format)
            &&& call_laws::sayable(format, name, args)
            &&& format.call_open().len() > 0
            &&& format.call_close().len() > 0
            &&& call_laws::ends_at(prose, format.call_open())
            &&& call_laws::ends_at(body, format.call_close())
            &&& prefill + g.text == prose + format.call_open() + body + format.call_close()
        }),
    ensures
        c.reply(prompt, Some(prefill), g, ms).tool_calls == seq![
            ToolCallView {
                name,
                arguments: tool_format::arguments_of(call_laws::entries_of(args)),
            },
        ],
        prefill.len() == 0 ==> c.reply(prompt, None, g, ms).tool_calls == c.reply(
            prompt,
            Some(prefill),
            g,
            ms,
        ).tool_calls,
{
    let format = c.tool_format->0;
    let body = call_laws::written_body(format, name, args);
    let s = prose + format.call_open() + body + format.call_close();
    call_laws::law_calls_survive_their_format(format, prose, name, args, Seq::empty());
    assert(s + Seq::<char>::empty() =~= s);
    call_laws::lemma_no_calls_in_nothing(format);
    let one = seq![call_laws::call_with(name, args)];
    assert(one + Seq::<ToolCallView>::empty() =~= one);
    if prefill.len() == 0 {
        assert(prefill + g.text =~= g.text);
    }
}

/// The same of a call that is written as one JSON object.
pub proof fn law_a_json_call_is_in_the_reply(
    c: ConversationView,
    prompt: Seq<char>,
    prefill: Seq<char>,
    g: GenerationView,
    ms: u64,
    prose: Seq<char>,
    body: Seq<char>,
    name: Seq<char>,
    arguments: JsonView,
)
    requires
        c.tool_format is Some,
        c.tool_format->0 is Json,
        ({
            let format = c.tool_format->0;
            &&& format->name_key != format->arguments_key
            &&& name.len() > 0
            &&& body.len() >= 2
            &&& body[0] == '{'
            &&& body.last() == '}'
            &&& json::parsed(body) == Some(
                json::normal(
                    JsonView::Object(
                        seq![
                            EntryView { key: format->name_key, value: JsonView::Text(name) },
                            EntryView { key: format->arguments_key, value: arguments },
                        ],
                    ),
                ),
            )
            &&& format.call_open().len() > 0
            &&& format.call_close().len() > 0
            &&& call_laws::ends_at(prose, format.call_open())
            &&& call_laws::ends_at(body, format.call_close())
            &&& prefill + g.text == prose + format.call_open() + body + format.call_close()
        }),
    ensures
        c.reply(prompt, Some(prefill), g, ms).tool_calls == seq![
            ToolCallView { name, arguments: json::normal(arguments) },
        ],
{
    let format = c.tool_format->0;
    let s = prose + format.call_open() + body + format.call_close();
    call_laws::law_a_json_call_is_read_back(format, name, arguments, body);
    call_laws::law_calls_are_read_in_order(format, prose, body, Seq::empty());
    assert(s + Seq::<char>::empty() =~= s);
    call_laws::lemma_no_calls_in_nothing(format);
    let one = seq![ToolCallView { name, arguments: json::normal(arguments) }];
    assert(one + Seq::<ToolCallView>::empty() =~= one);
}

/// A reply that stops inside a call is known to: where reading its calls runs into one that is never
/// closed, it counts as cut off.
pub proof fn law_a_half_written_call_is_known(
    c: ConversationView,
    prompt: Seq<char>,
    prefill: Option<Seq<char>>,
    g: GenerationView,
    ms: u64,
)
    requires
        c.tool_format is Some,
        text::trimmed_end(c.tool_format->0.call_open()).len() > 0,
        call_laws::runs_open(
            c.reply(prompt, prefill, g, ms).text,
            c.tool_format->0.call_open(),
            c.tool_format->0.call_close(),
        ),
    ensures
        c.reply(prompt, prefill, g, ms).truncated_tool_call,
{
    call_laws::law_half_read_calls_are_noticed(
        c.reply(prompt, prefill, g, ms).text,
        c.tool_format->0.call_open(),
        c.tool_format->0.call_close(),
    );
}

/// A prompt for which there is no rendering is what another renderer makes of it, else it stands
/// between what wraps it, else as it is.
pub proof fn law_prompts_fall_back_in_order(
    applied: Seq<char>,
    wrap: &ChatWrap,
    other: Option<&ChatWrap>,
    prompt: Seq<char>,
)
    ensures
        fallback_prompt(Some(applied), other, prompt) == applied,
        fallback_prompt(None, Some(wrap), prompt) == wrap.prefix@ + prompt + wrap.suffix@,
        fallback_prompt(None, None, prompt) == prompt,
{
}

/// Only a cache that numbers its tokens one by one can be shifted.
pub proof fn law_which_caches_shift(rope: RopeKind)
    ensures
        shiftable(Some(rope)) <==> rope is Norm || rope is NeoX,
        !shiftable(None),
{
}

/// A new conversation has said nothing yet, and keeps what it was opened with.
pub proof fn law_a_conversation_begins_empty(
    template: Seq<char>,
    overflow: OverflowPolicy,
    n_ctx: int,
    system: Option<Seq<char>>,
    tools: Seq<ToolSpec>,
    configured: Option<ToolFormatView>,
)
    ensures
        ({
            let c = ConversationView::opened(
                template,
                overflow,
                n_ctx,
                system,
                tools,
                configured,
            );
            &&& c.ledger.turns.len() == 0 && c.ledger.tokens.len() == 0
            &&& c.ledger.committed_pos == 0 && c.ledger.protected_prefix == 0
            &&& c.ledger.n_ctx == n_ctx && c.ledger.overflow == overflow
            &&& c.tools == tools && c.configured_tool_format == configured
            &&& conversation_template::conversation_spans(template) == Some(c.template)
                || conversation_template::conversation_spans(template) is None
            &&& system is None ==> c.system_for_first_turn is None
            &&& tools.len() == 0 ==> c.tool_format is None && c.tool_result_spans is None
            &&& c.tool_format is Some ==> c.capabilities.tools
            &&& c.tool_result_spans is Some ==> c.capabilities.tools && c.capabilities.tool_results
        }),
{
}

/// A reopened conversation has the turns that were saved and the tokens that were loaded, and says
/// no opening again.
pub proof fn law_a_conversation_is_reopened_as_it_was(
    template: Seq<char>,
    meta: ConversationSnapshotMeta,
    n_ctx: int,
    tokens: Seq<i32>,
)
    ensures
        ({
            let c = ConversationView::reopened(template, meta, n_ctx, tokens);
            let fresh = ConversationView::opened(
                template,
                meta.overflow,
                n_ctx,
                None,
                meta.tools@,
                tool_probe::format_option(meta.tool_format),
            );
            &&& c.ledger.turns == meta.turns@
            &&& c.ledger.tokens == tokens
            &&& c.ledger.committed_pos == tokens.len()
            &&& c.ledger.n_ctx == n_ctx
            &&& c.ledger.overflow == meta.overflow
            &&& c.ledger.protected_prefix == 0
            &&& c.opening.len() == 0 && c.system_for_first_turn is None
            &&& c.template == fresh.template
            &&& c.tool_format == fresh.tool_format
            &&& c.tool_result_spans == fresh.tool_result_spans
            &&& c.capabilities == fresh.capabilities
            &&& c.tools == meta.tools@
        }),
{
}

/// A prompt is taken if it leaves room in the context, and refused, with both sizes, if it does not.
pub proof fn law_prompts_have_to_leave_room(
    prompt_tokens: i32,
    n_ctx: i32,
    r: Result<(), LlamaSessionError>,
)
    requires
        call_ensures(check_prompt, (prompt_tokens, n_ctx), r),
    ensures
        r is Ok <==> prompt_tokens + 1 <= n_ctx,
        r matches Err(e) ==> e@ == (SessionErrorView::PromptTooLong {
            prompt_tokens: prompt_tokens as int,
            n_ctx: n_ctx as int,
        }),
{
}

/// A saved conversation is reopened with its own model alone; with another, the two are told.
pub proof fn law_a_snapshot_is_for_its_model(
    meta: ConversationSnapshotMeta,
    path: &str,
    r: Result<(), LlamaSessionError>,
)
    requires
        call_ensures(ConversationSnapshotMeta::check_model, (&meta, path), r),
    ensures
        r is Ok <==> meta.model_path@ == path@,
        r matches Err(e) ==> e@ == (SessionErrorView::SnapshotModelMismatch {
            saved: meta.model_path@,
            current: path@,
        }),
{
}

/// One generation returns its text behind what it was made to begin with, what it counted, and no
/// calls.
pub proof fn law_what_one_generation_returns(
    prompt_tokens: usize,
    generation: Generation,
    n_ctx: i32,
    prefill: Option<&str>,
    prompt: String,
    ms: u64,
    r: GenerationResult,
)
    requires
        call_ensures(one_shot_result, (prompt_tokens, generation, n_ctx, prefill, prompt, ms), r),
    ensures
        prefill is None ==> r.text@ == generation@.text,
        prefill matches Some(p) ==> r.text@ == p@ + generation@.text,
        r.tokens_generated == generation@.tokens.len(),
        r.committed_tokens == prompt_tokens + r.tokens_generated,
        n_ctx >= 0 ==> r.context_size == n_ctx,
        n_ctx < 0 ==> r.context_size == 0,
        r.formatted_prompt@ == prompt@,
        r.time_to_first_token_ms == ms,
        r.tool_calls@.len() == 0,
        !r.truncated_tool_call,
{
    assert(r@.tool_calls.len() == r.tool_calls@.len());
}

/// A conversation is opened where its template can be used, with what was asked for: its policy, but
/// that nothing is dropped from a cache that cannot be shifted; its context, empty; its tools.
pub proof fn law_what_is_opened(
    template: Option<&str>,
    rope: Option<RopeKind>,
    n_ctx: i32,
    options: ConversationOptions,
    r: Result<Conversation, LlamaSessionError>,
)
    requires
        call_ensures(Conversation::open, (template, rope, n_ctx, options), r),
    ensures
        r is Ok <==> spans_of_text(template) is Some,
        r is Err ==> r->Err_0@ == SessionErrorView::ConversationTemplateUnavailable,
        r is Ok ==> {
            let c = r->Ok_0@;
            &&& c.ledger.n_ctx == n_ctx
            &&& c.ledger.turns.len() == 0
            &&& c.ledger.tokens.len() == 0
            &&& c.ledger.committed_pos == 0
            &&& c.tools == options.tools@
            &&& c.configured_tool_format == tool_probe::format_option(options.tool_format)
            &&& shiftable(rope) ==> c.ledger.overflow == options.overflow
            &&& !shiftable(rope) ==> c.ledger.overflow == OverflowPolicy::Fail
            &&& Some(c.template) == spans_of_text(template)
        },
{
}

/// A saved conversation is reopened where it is for this model and its template can be used, with the
/// turns and the policy that were saved and the tokens that were loaded.
pub proof fn law_what_is_reopened(
    meta: ConversationSnapshotMeta,
    path: &str,
    template: Option<&str>,
    n_ctx: i32,
    tokens: Vec<i32>,
    r: Result<Conversation, LlamaSessionError>,
)
    requires
        call_ensures(Conversation::restore, (meta, path, template, n_ctx, tokens), r),
    ensures
        r is Ok <==> meta.model_path@ == path@ && spans_of_text(template) is Some,
        meta.model_path@ != path@ ==> r is Err && r->Err_0@ is SnapshotModelMismatch,
        meta.model_path@ == path@ && r is Err ==> r->Err_0@
            is ConversationTemplateUnavailable,
        r is Ok ==> {
            let c = r->Ok_0@;
            &&& c.ledger.turns == meta.turns@
            &&& c.ledger.tokens == tokens@
            &&& c.ledger.committed_pos == tokens@.len()
            &&& c.ledger.overflow == meta.overflow
            &&& c.ledger.n_ctx == n_ctx
            &&& c.ledger.protected_prefix == 0
            &&& c.tools == meta.tools@
            &&& c.opening.len() == 0
            &&& c.system_for_first_turn is None
            &&& Some(c.template) == spans_of_text(template)
        },
{
}

/// What is said of a conversation when it is saved is what it takes to reopen it.
pub proof fn law_what_is_saved(c: Conversation, path: &str, meta: ConversationSnapshotMeta, i: int)
    requires
        call_ensures(Conversation::snapshot_meta, (&c, path), meta),
    ensures
        meta.model_path@ == path@,
        meta.n_ctx == c@.ledger.n_ctx,
        meta.overflow == c@.ledger.overflow,
        meta.turns@ == c@.ledger.turns,
        meta.tools@.len() == c@.tools.len(),
        0 <= i < c@.tools.len() ==> meta.tools@[i]@.json() == c@.tools[i]@.json(),
        tool_probe::format_option(meta.tool_format) == c@.configured_tool_format,
{
    if 0 <= i < c@.tools.len() {
        assert(protocol::tools_json(meta.tools@)->Array_0[i] == meta.tools@[i]@.json());
        assert(protocol::tools_json(c@.tools)->Array_0[i] == c@.tools[i]@.json());
    }
}

/// A turn is watched for its end where the model's calls can be read, by what opens and closes them.
pub proof fn law_what_ends_a_turn(c: Conversation, r: Option<TurnEnd>)
    requires
        call_ensures(Conversation::turn_end, (&c,), r),
    ensures
        r is Some <==> c@.tool_format is Some,
        r matches Some(end) ==> end@.call_open == c@.tool_format->0.call_open() && end@.closers
            == tool_format::closers(c@.tool_format->0.call_close()),
{
}

/// A turn of text begins the sequence if it is the first; one of results does only where they are
/// given as a message.
pub proof fn law_what_begins_the_sequence(
    c: Conversation,
    message: &str,
    prefill: Option<&str>,
    turn: TurnText,
    results: &[String],
    other: TurnText,
)
    requires
        call_ensures(Conversation::compose_turn, (&c, message, prefill), turn),
        call_ensures(Conversation::compose_results, (&c, results), other),
    ensures
        turn.add_bos <==> c@.ledger.turns.len() == 0,
        c@.tool_result_spans is Some ==> !other.add_bos,
        c@.tool_result_spans is None ==> other.add_bos == turn.add_bos,
{
}

/// Room is made for the turn and for the reply to it; where there is none, the error says why: what
/// was needed and what there is, where nothing may be dropped.
pub proof fn law_room_is_made_for_both(
    c: &mut Conversation,
    turn_tokens: i32,
    max_new_tokens: i32,
    r: (Vec<ledger::KvShift>, Result<(), LlamaSessionError>),
)
    requires
        call_ensures(Conversation::make_room, (c, turn_tokens, max_new_tokens), r),
        old(c)@.ledger.wf(),
    ensures
        r.1 is Ok ==> final(c)@.ledger.committed_pos + turn_tokens + max_new_tokens
            < final(c)@.ledger.n_ctx,
        old(c)@.ledger.committed_pos + turn_tokens + max_new_tokens < old(c)@.ledger.n_ctx ==> r.1
            is Ok && final(c)@ == old(c)@ && r.0@.len() == 0,
        r.1 is Err && old(c)@.ledger.overflow == OverflowPolicy::Fail ==> final(c)@ == old(c)@
            && r.1->Err_0@ == (SessionErrorView::ConversationContextFull {
            committed_pos: old(c)@.ledger.committed_pos,
            needed: turn_tokens + max_new_tokens,
            n_ctx: old(c)@.ledger.n_ctx,
        }),
        r.1 is Err && old(c)@.ledger.overflow == OverflowPolicy::DropOldestTurns ==> r.1->Err_0@
            == SessionErrorView::ConversationTooLargeToTrim,
        ledger::after_shifts(old(c)@.ledger.tokens, r.0@) == final(c)@.ledger.tokens,
        final(c)@.opening == old(c)@.opening,
        final(c)@.template == old(c)@.template,
        final(c)@.tool_format == old(c)@.tool_format,
        final(c)@.ledger.n_ctx == old(c)@.ledger.n_ctx,
{
    let needed = turn_tokens + max_new_tokens;
    ledger::law_enough_room(old(c)@.ledger, needed);
    ledger::lemma_no_more_than_before(old(c)@.ledger, needed);
    ledger::law_the_cache_is_shifted_with_the_ledger(old(c)@.ledger, needed);
    if old(c)@.ledger.fits(needed) {
        ledger::law_nothing_dropped_where_it_fits(old(c)@.ledger, needed);
    }
}

/// A reply that is recorded is one turn of the assistant more, of the tokens that were generated; and
/// what is returned says how full the context then is.
pub proof fn law_what_recording_a_reply_leaves(
    c: &mut Conversation,
    prompt: String,
    prefill: Option<&str>,
    generation: Generation,
    ms: u64,
    r: GenerationResult,
)
    requires
        call_ensures(Conversation::record_reply, (c, prompt, prefill, generation, ms), r),
    ensures
        final(c)@.ledger.tokens == old(c)@.ledger.tokens + generation@.tokens,
        final(c)@.ledger.turns.len() == old(c)@.ledger.turns.len() + 1,
        final(c)@.ledger.turns.last().role == Role::Assistant,
        r.committed_tokens == final(c)@.ledger.committed_pos,
        final(c)@.ledger.committed_pos == old(c)@.ledger.committed_pos + generation@.tokens.len(),
        r.context_size == old(c)@.ledger.n_ctx,
        r.tokens_generated == generation@.tokens.len(),
        r.time_to_first_token_ms == ms,
        r.formatted_prompt@ == prompt@,
        prefill is None ==> r.text@ == generation@.text,
        prefill matches Some(p) ==> r.text@ == p@ + generation@.text,
        final(c)@.tool_format == old(c)@.tool_format,
        final(c)@.opening == old(c)@.opening,
{
}

/// A prompt that is recorded is one turn of the user more; taking it out again undoes that.
pub proof fn law_a_withdrawn_prompt_was_never_there(
    c: &mut Conversation,
    d: &mut Conversation,
    tokens: &[i32],
)
    requires
        call_ensures(Conversation::record_prompt, (c, tokens), ()),
        call_ensures(Conversation::withdraw_prompt, (d,), ()),
        old(c)@.ledger.wf(),
    ensures
        final(c)@.ledger.tokens == old(c)@.ledger.tokens + tokens@,
        final(c)@.ledger.turns.len() == old(c)@.ledger.turns.len() + 1,
        final(c)@.ledger.turns.last().role == Role::User,
        old(d)@ == final(c)@ ==> final(d)@ == old(c)@,
{
    ledger::law_withdrawing_undoes(old(c)@.ledger, Role::User, tokens@);
}

/// Why there was no room is told with the same numbers.
pub proof fn law_why_there_was_no_room(e: NoRoom)
    ensures
        e is TooLargeToTrim <==> no_room_error(e) is ConversationTooLargeToTrim,
        e matches NoRoom::ContextFull { committed_pos, needed, n_ctx } ==> no_room_error(e) == (
        SessionErrorView::ConversationContextFull {
            committed_pos: committed_pos as int,
            needed: needed as int,
            n_ctx: n_ctx as int,
        }),
{
}

/// What a result holds is what its fields hold.
pub proof fn law_what_a_result_holds(r: GenerationResult, i: int)
    ensures
        r@.text == r.text@,
        r@.tokens_generated == r.tokens_generated,
        r@.committed_tokens == r.committed_tokens,
        r@.context_size == r.context_size,
        r@.time_to_first_token_ms == r.time_to_first_token_ms,
        r@.formatted_prompt == r.formatted_prompt@,
        r@.truncated_tool_call == r.truncated_tool_call,
        r@.tool_calls.len() == r.tool_calls@.len(),
        0 <= i < r.tool_calls@.len() ==> r@.tool_calls[i].name == r.tool_calls@[i].name@
            && r@.tool_calls[i].arguments == r.tool_calls@[i].arguments@,
{
}

/// A prompt of its own is put to the template as one message of the user's, with the reply to come;
/// without a template nothing is rendered.
pub proof fn law_how_a_prompt_is_put(template: &str, prompt: Seq<char>, messages: JsonView)
    requires
        messages is Array,
        messages->Array_0.len() == 1,
        messages->Array_0[0] == tool_probe::message_json("user"@, prompt),
    ensures
        single_turn(Some(template), prompt) == chat_template::chat_rendering(
            template@,
            messages,
            None,
            true,
        ),
        single_turn(None, prompt) is None,
        spans_of_text(None) is None,
        spans_of_text(Some(template)) == conversation_template::conversation_spans(template@),
{
    assert(messages->Array_0 =~= seq![tool_probe::message_json("user"@, prompt)]);
}

/// An error tells the numbers or the names that it is about.
pub proof fn law_session_errors_tell_their_numbers(a: int, b: int, c: int, m: Seq<char>, n: Seq<char>)
    ensures
        ({
            let long = (SessionErrorView::PromptTooLong { prompt_tokens: a, n_ctx: b }).message();
            &&& text::contains(long, text::signed_decimal(a))
            &&& text::contains(long, text::signed_decimal(b))
        }),
        ({
            let full = (SessionErrorView::ConversationContextFull {
                committed_pos: a,
                needed: b,
                n_ctx: c,
            }).message();
            &&& text::contains(full, text::signed_decimal(a))
            &&& text::contains(full, text::signed_decimal(b))
            &&& text::contains(full, text::signed_decimal(c))
        }),
        ({
            let other = (SessionErrorView::SnapshotModelMismatch { saved: m, current: n }).message();
            text::contains(other, m) && text::contains(other, n)
        }),
{
    let none = Seq::<char>::empty();
    let x = text::signed_decimal(a);
    let y = text::signed_decimal(b);
    let z = text::signed_decimal(c);
    let long = (SessionErrorView::PromptTooLong { prompt_tokens: a, n_ctx: b }).message();
    let l1 = "prompt ("@;
    let l2 = " tokens) leaves no room in context size ("@;
    assert(long =~= l1 + x + (l2 + y + ")"@));
    text::lemma_named(l1, x, l2 + y + ")"@);
    text::lemma_named(l1 + x + l2, y, ")"@);
    let full = (SessionErrorView::ConversationContextFull {
        committed_pos: a,
        needed: b,
        n_ctx: c,
    }).message();
    let f1 = "conversation turn ("@;
    let f2 = " new tokens) doesn't fit even after dropping every droppable turn: committed="@;
    let f3 = ", n_ctx="@;
    assert(full =~= f1 + y + (f2 + x + f3 + z));
    text::lemma_named(f1, y, f2 + x + f3 + z);
    assert(full =~= (f1 + y + f2) + x + (f3 + z));
    text::lemma_named(f1 + y + f2, x, f3 + z);
    text::lemma_named(f1 + y + f2 + x + f3, z, none);
    let other = (SessionErrorView::SnapshotModelMismatch { saved: m, current: n }).message();
    let s1 = "saved conversation snapshot is for model "@;
    let s2 = ", but this session is "@;
    assert(other =~= s1 + m + (s2 + n));
    text::lemma_named(s1, m, s2 + n);
    text::lemma_named(s1 + m + s2, n, none);
}

} // verus!
