//! What travels between a client and the daemon that runs the models.

use vstd::prelude::*;
use crate::json;
use crate::json::{EntryView, Json, JsonView};
use crate::conversation::{GenerationResult, Penalties, Sampling};
use crate::ledger::OverflowPolicy;
use crate::text;

verus! {

/// One tool offered to a model, in the shape that chat templates iterate over:
/// `{type: "function", function: {name, description, parameters}}`.
#[derive(Debug, PartialEq)]
pub struct ToolSpec {
    pub kind: String,
    pub function: ToolFunction,
}

/// What a tool is called, what it does, and a JSON Schema for its arguments.
#[derive(Debug, PartialEq)]
pub struct ToolFunction {
    pub name: String,
    pub description: String,
    pub parameters: Json,
}

/// The content of a [`ToolSpec`].
pub struct ToolSpecView {
    pub kind: Seq<char>,
    pub name: Seq<char>,
    pub description: Seq<char>,
    pub parameters: JsonView,
}

impl View for ToolSpec {
    type V = ToolSpecView;

    open spec fn view(&self) -> ToolSpecView {
        ToolSpecView {
            kind: self.kind@,
            name: self.function.name@,
            description: self.function.description@,
            parameters: self.function.parameters@,
        }
    }
}

impl ToolSpec {
    /// A tool of the one kind there is.
    pub fn new(name: &str, description: &str, parameters: Json) -> (r: Self)
        ensures
            r@ == (ToolSpecView {
                kind: "function"@,
                name: name@,
                description: description@,
                parameters: parameters@,
            }),
    {
        ToolSpec {
            kind: "function".to_string(),
            function: ToolFunction {
                name: name.to_string(),
                description: description.to_string(),
                parameters,
            },
        }
    }
}

impl ToolSpecView {
    /// The tool as a template sees it.
    pub open spec fn json(self) -> JsonView {
        JsonView::Object(
            seq![
                EntryView {
                    key: "function"@,
                    value: JsonView::Object(
                        seq![
                            EntryView {
                                key: "description"@,
                                value: JsonView::Text(self.description),
                            },
                            EntryView { key: "name"@, value: JsonView::Text(self.name) },
                            EntryView { key: "parameters"@, value: self.parameters },
                        ],
                    ),
                },
                EntryView { key: "type"@, value: JsonView::Text(self.kind) },
            ],
        )
    }
}

/// A list of tools as a template sees it.
pub open spec fn tools_json(tools: Seq<ToolSpec>) -> JsonView {
    JsonView::Array(Seq::new(tools.len(), |i: int| tools[i]@.json()))
}

impl ToolSpec {
    /// The tool as a template sees it.
    pub fn to_json(&self) -> (r: Json)
        ensures
            r@ == self@.json(),
    {
        let function: Vec<(String, Json)> = vec![
            ("description".to_string(), Json::text(self.function.description.as_str())),
            ("name".to_string(), Json::text(self.function.name.as_str())),
            ("parameters".to_string(), self.function.parameters.copied()),
        ];
        assert(json::entries_view(function@) =~= self@.json()->Object_0[0].value->Object_0);
        let entries: Vec<(String, Json)> = vec![
            ("function".to_string(), Json::object(function)),
            ("type".to_string(), Json::text(self.kind.as_str())),
        ];
        assert(json::entries_view(entries@) =~= self@.json()->Object_0);
        Json::object(entries)
    }
}

/// A list of tools as a template sees it.
pub fn tools_to_json(tools: &[ToolSpec]) -> (r: Json)
    ensures
        r@ == tools_json(tools@),
{
    let mut items: Vec<Json> = Vec::new();
    let mut i: usize = 0;
    while i < tools.len()
        invariant
            i <= tools.len(),
            items@.len() == i,
            forall|j: int| 0 <= j < i ==> items@[j]@ == tools@[j]@.json(),
        decreases tools.len() - i,
    {
        items.push(tools[i].to_json());
        i += 1;
    }
    assert(json::items_view(items@) =~= tools_json(tools@)->Array_0);
    Json::array(items)
}

impl Clone for ToolSpec {
    fn clone(&self) -> (r: Self)
        ensures
            r@ == self@,
    {
        ToolSpec {
            kind: self.kind.clone(),
            function: ToolFunction {
                name: self.function.name.clone(),
                description: self.function.description.clone(),
                parameters: self.function.parameters.copied(),
            },
        }
    }
}

/// The same tools again.
pub fn copy_tools(tools: &[ToolSpec]) -> (r: Vec<ToolSpec>)
    ensures
        r@.len() == tools@.len(),
        forall|i: int| 0 <= i < r@.len() ==> (#[trigger] r@[i])@ == tools@[i]@,
        tools_json(r@) == tools_json(tools@),
{
    let mut r: Vec<ToolSpec> = Vec::new();
    let mut i: usize = 0;
    while i < tools.len()
        invariant
            i <= tools.len(),
            r@.len() == i,
            forall|j: int| 0 <= j < i ==> (#[trigger] r@[j])@ == tools@[j]@,
        decreases tools.len() - i,
    {
        r.push(tools[i].clone());
        i += 1;
    }
    assert(tools_json(r@)->Array_0 =~= tools_json(tools@)->Array_0);
    r
}

/// One tool call that a model emitted, decoded out of the textual format its template uses.
#[derive(Debug, PartialEq)]
pub struct ToolCall {
    pub name: String,
    pub arguments: Json,
}

/// The content of a [`ToolCall`].
pub struct ToolCallView {
    pub name: Seq<char>,
    pub arguments: JsonView,
}

impl View for ToolCall {
    type V = ToolCallView;

    open spec fn view(&self) -> ToolCallView {
        ToolCallView { name: self.name@, arguments: self.arguments@ }
    }
}

impl Clone for ToolCall {
    fn clone(&self) -> (r: Self)
        ensures
            r@ == self@,
    {
        ToolCall { name: self.name.clone(), arguments: self.arguments.copied() }
    }
}

/// The contents of a list of calls.
pub open spec fn calls_view(calls: Seq<ToolCall>) -> Seq<ToolCallView> {
    Seq::new(calls.len(), |i: int| calls[i]@)
}

/// How a model writes a tool call: the literal text that stands around its parts.
#[derive(Debug, PartialEq)]
pub enum ToolFormat {
    /// One JSON object per call.
    Json { call_open: String, call_close: String, name_key: String, arguments_key: String },
    /// One delimited block per argument, values neither quoted nor escaped.
    Delimited {
        call_open: String,
        name_close: String,
        arg_open: String,
        arg_name_close: String,
        arg_close: String,
        call_close: String,
    },
    /// Arguments with a separator between them, string values wrapped.
    Separated {
        call_open: String,
        name_close: String,
        arg_name_close: String,
        value_open: String,
        arg_close: String,
        arg_sep: String,
        call_close: String,
    },
}

/// The content of a [`ToolFormat`].
pub enum ToolFormatView {
    Json {
        call_open: Seq<char>,
        call_close: Seq<char>,
        name_key: Seq<char>,
        arguments_key: Seq<char>,
    },
    Delimited {
        call_open: Seq<char>,
        name_close: Seq<char>,
        arg_open: Seq<char>,
        arg_name_close: Seq<char>,
        arg_close: Seq<char>,
        call_close: Seq<char>,
    },
    Separated {
        call_open: Seq<char>,
        name_close: Seq<char>,
        arg_name_close: Seq<char>,
        value_open: Seq<char>,
        arg_close: Seq<char>,
        arg_sep: Seq<char>,
        call_close: Seq<char>,
    },
}

impl ToolFormatView {
    /// The text that opens a call.
    pub open spec fn call_open(self) -> Seq<char> {
        match self {
            ToolFormatView::Json { call_open, .. } => call_open,
            ToolFormatView::Delimited { call_open, .. } => call_open,
            ToolFormatView::Separated { call_open, .. } => call_open,
        }
    }

    /// The text that closes a call.
    pub open spec fn call_close(self) -> Seq<char> {
        match self {
            ToolFormatView::Json { call_close, .. } => call_close,
            ToolFormatView::Delimited { call_close, .. } => call_close,
            ToolFormatView::Separated { call_close, .. } => call_close,
        }
    }
}

impl View for ToolFormat {
    type V = ToolFormatView;

    open spec fn view(&self) -> ToolFormatView {
        match *self {
            ToolFormat::Json { call_open, call_close, name_key, arguments_key } => {
                ToolFormatView::Json {
                    call_open: call_open@,
                    call_close: call_close@,
                    name_key: name_key@,
                    arguments_key: arguments_key@,
                }
            },
            ToolFormat::Delimited {
                call_open,
                name_close,
                arg_open,
                arg_name_close,
                arg_close,
                call_close,
            } => ToolFormatView::Delimited {
                call_open: call_open@,
                name_close: name_close@,
                arg_open: arg_open@,
                arg_name_close: arg_name_close@,
                arg_close: arg_close@,
                call_close: call_close@,
            },
            ToolFormat::Separated {
                call_open,
                name_close,
                arg_name_close,
                value_open,
                arg_close,
                arg_sep,
                call_close,
            } => ToolFormatView::Separated {
                call_open: call_open@,
                name_close: name_close@,
                arg_name_close: arg_name_close@,
                value_open: value_open@,
                arg_close: arg_close@,
                arg_sep: arg_sep@,
                call_close: call_close@,
            },
        }
    }
}

impl ToolFormat {
    /// The text that opens a call.
    pub fn call_open(&self) -> (r: &str)
        ensures
            r@ == self@.call_open(),
    {
        match self {
            ToolFormat::Json { call_open, .. } => call_open.as_str(),
            ToolFormat::Delimited { call_open, .. } => call_open.as_str(),
            ToolFormat::Separated { call_open, .. } => call_open.as_str(),
        }
    }

    /// The text that closes a call.
    pub fn call_close(&self) -> (r: &str)
        ensures
            r@ == self@.call_close(),
    {
        match self {
            ToolFormat::Json { call_close, .. } => call_close.as_str(),
            ToolFormat::Delimited { call_close, .. } => call_close.as_str(),
            ToolFormat::Separated { call_close, .. } => call_close.as_str(),
        }
    }
}

impl Clone for ToolFormat {
    fn clone(&self) -> (r: Self)
        ensures
            r@ == self@,
    {
        match self {
            ToolFormat::Json { call_open, call_close, name_key, arguments_key } => {
                ToolFormat::Json {
                    call_open: call_open.clone(),
                    call_close: call_close.clone(),
                    name_key: name_key.clone(),
                    arguments_key: arguments_key.clone(),
                }
            },
            ToolFormat::Delimited {
                call_open,
                name_close,
                arg_open,
                arg_name_close,
                arg_close,
                call_close,
            } => ToolFormat::Delimited {
                call_open: call_open.clone(),
                name_close: name_close.clone(),
                arg_open: arg_open.clone(),
                arg_name_close: arg_name_close.clone(),
                arg_close: arg_close.clone(),
                call_close: call_close.clone(),
            },
            ToolFormat::Separated {
                call_open,
                name_close,
                arg_name_close,
                value_open,
                arg_close,
                arg_sep,
                call_close,
            } => ToolFormat::Separated {
                call_open: call_open.clone(),
                name_close: name_close.clone(),
                arg_name_close: arg_name_close.clone(),
                value_open: value_open.clone(),
                arg_close: arg_close.clone(),
                arg_sep: arg_sep.clone(),
                call_close: call_close.clone(),
            },
        }
    }
}

/// When a reply that is constrained by a grammar is complete, so that generation stops before the
/// next token is sampled.
#[derive(Debug)]
pub enum GrammarCompletion {
    /// Once the text is one of the options.
    ExactMatch(Vec<String>),
    /// Once `prefill` followed by the text is a complete JSON value.
    ValidJson { prefill: String },
}

/// The content of a [`GrammarCompletion`].
pub enum CompletionView {
    ExactMatch(Seq<Seq<char>>),
    ValidJson { prefill: Seq<char> },
}

impl View for GrammarCompletion {
    type V = CompletionView;

    open spec fn view(&self) -> CompletionView {
        match *self {
            GrammarCompletion::ExactMatch(options) => CompletionView::ExactMatch(
                Seq::new(options@.len(), |i: int| options@[i]@),
            ),
            GrammarCompletion::ValidJson { prefill } => CompletionView::ValidJson {
                prefill: prefill@,
            },
        }
    }
}

impl CompletionView {
    /// `s` is a complete reply.
    pub open spec fn completed_by(self, s: Seq<char>) -> bool {
        match self {
            CompletionView::ExactMatch(options) => options.contains(s),
            CompletionView::ValidJson { prefill } => json::parsed(prefill + s) is Some,
        }
    }
}

impl GrammarCompletion {
    /// Whether `s` is a complete reply.
    pub fn is_complete(&self, s: &str) -> (r: bool)
        ensures
            r == self@.completed_by(s@),
    {
        match self {
            GrammarCompletion::ExactMatch(options) => {
                let ghost all = self@->ExactMatch_0;
                let mut i: usize = 0;
                while i < options.len()
                    invariant
                        i <= options.len(),
                        all == Seq::new(options@.len(), |i: int| options@[i]@),
                        self@ == CompletionView::ExactMatch(all),
                        forall|j: int| 0 <= j < i ==> all[j] != s@,
                    decreases options.len() - i,
                {
                    if text::same_text(options[i].as_str(), s) {
                        assert(all[i as int] == s@);
                        return true;
                    }
                    i += 1;
                }
                false
            },
            GrammarCompletion::ValidJson { prefill } => {
                let mut whole: String = prefill.clone();
                whole.append(s);
                json::parse(whole.as_str()).is_some()
            },
        }
    }

    /// The predicate that this describes.
    pub fn into_predicate(self) -> (f: impl Fn(&str) -> bool)
        ensures
            forall|s: &str| #[trigger] call_requires(f, (s,)),
            forall|s: &str, r: bool| #[trigger] call_ensures(f, (s,), r) ==> r == self@.completed_by(s@),
    {
        move |s: &str| -> (r: bool)
            ensures
                r == self@.completed_by(s@),
            { self.is_complete(s) }
    }
}

/// How tokens that were seen recently are discouraged, as it travels.
#[derive(Debug, Clone, Copy)]
pub struct WirePenalties<N> {
    pub last_n: i32,
    pub repeat: N,
    pub freq: N,
    pub present: N,
}

impl<N: Copy> WirePenalties<N> {
    /// No penalties, given the numbers one and zero.
    pub fn disabled(one: N, zero: N) -> (r: Self)
        ensures
            r == (WirePenalties { last_n: 0, repeat: one, freq: zero, present: zero }),
    {
        WirePenalties { last_n: 0, repeat: one, freq: zero, present: zero }
    }
}

/// How the next token is picked, as it travels.
#[derive(Debug, Clone, Copy)]
pub enum WireSampling<N> {
    Greedy { penalties: WirePenalties<N> },
    Temperature {
        temperature: N,
        top_k: i32,
        top_p: N,
        min_p: N,
        seed: u32,
        penalties: WirePenalties<N>,
    },
}

/// Penalties as they travel.
pub open spec fn penalties_on_wire<N>(p: Penalties<N>) -> WirePenalties<N> {
    WirePenalties { last_n: p.last_n, repeat: p.repeat, freq: p.freq, present: p.present }
}

/// Sampling as it travels.
pub open spec fn sampling_on_wire<N>(s: Sampling<N>) -> WireSampling<N> {
    match s {
        Sampling::Greedy { penalties } => WireSampling::Greedy {
            penalties: penalties_on_wire(penalties),
        },
        Sampling::Temperature { temperature, top_k, top_p, min_p, seed, penalties } => {
            WireSampling::Temperature {
                temperature,
                top_k,
                top_p,
                min_p,
                seed,
                penalties: penalties_on_wire(penalties),
            }
        },
    }
}

/// Sampling as it travels.
pub fn sampling_to_wire<N: Copy>(s: Sampling<N>) -> (r: WireSampling<N>)
    ensures
        r == sampling_on_wire(s),
{
    match s {
        Sampling::Greedy { penalties: p } => WireSampling::Greedy {
            penalties: WirePenalties {
                last_n: p.last_n,
                repeat: p.repeat,
                freq: p.freq,
                present: p.present,
            },
        },
        Sampling::Temperature { temperature, top_k, top_p, min_p, seed, penalties: p } => {
            WireSampling::Temperature {
                temperature,
                top_k,
                top_p,
                min_p,
                seed,
                penalties: WirePenalties {
                    last_n: p.last_n,
                    repeat: p.repeat,
                    freq: p.freq,
                    present: p.present,
                },
            }
        },
    }
}

/// Sampling from what travelled.
pub fn wire_sampling_to_sampling<N: Copy>(s: WireSampling<N>) -> (r: Sampling<N>)
    ensures
        sampling_on_wire(r) == s,
{
    match s {
        WireSampling::Greedy { penalties: p } => Sampling::Greedy {
            penalties: Penalties {
                last_n: p.last_n,
                repeat: p.repeat,
                freq: p.freq,
                present: p.present,
            },
        },
        WireSampling::Temperature { temperature, top_k, top_p, min_p, seed, penalties: p } => {
            Sampling::Temperature {
                temperature,
                top_k,
                top_p,
                min_p,
                seed,
                penalties: Penalties {
                    last_n: p.last_n,
                    repeat: p.repeat,
                    freq: p.freq,
                    present: p.present,
                },
            }
        },
    }
}

/// A request for one generation. Nothing under `max_new_tokens` or `sampling` stands for what the
/// model is configured for.
#[derive(Debug)]
pub struct GenerateRequest<N> {
    pub model_path: String,
    pub prompt: String,
    pub max_new_tokens: Option<i32>,
    pub sampling: Option<WireSampling<N>>,
    pub grammar: Option<String>,
    pub assistant_prefill: Option<String>,
    pub grammar_completion: Option<GrammarCompletion>,
}

/// The answer to a [`GenerateRequest`].
#[derive(Debug)]
pub enum GenerateResponse {
    Done {
        text: String,
        tokens_generated: usize,
        time_to_first_token_ms: u64,
        formatted_prompt: String,
    },
    Failed { message: String },
}

/// How the vectors of a text's tokens become one.
#[derive(Debug, Clone, Copy, PartialEq, Eq, Structural)]
pub enum WirePooling {
    /// As the model says.
    Model,
    Mean,
    Cls,
    Last,
}

/// A request to embed texts.
#[derive(Debug)]
pub struct EmbedRequest {
    pub model_path: String,
    pub texts: Vec<String>,
    pub pooling: WirePooling,
    pub normalize: bool,
}

/// The answer to an [`EmbedRequest`]: one vector per text, in the same order.
#[derive(Debug)]
pub enum EmbedResponse<N> {
    Done { vectors: Vec<Vec<N>>, n_embd: usize },
    Failed { message: String },
}

/// The first message on a connection.
#[derive(Debug)]
pub enum ClientMessage<N> {
    Generate(GenerateRequest<N>),
    OpenConversation(OpenConversationRequest),
    Status,
    Embed(EmbedRequest),
}

/// What the daemon tells about itself.
#[derive(Debug)]
pub struct StatusResponse {
    pub pid: u32,
    pub exe_path: Option<String>,
    /// When the running executable was last modified, as of its start.
    pub exe_modified_unix_secs: Option<u64>,
    pub uptime_secs: u64,
    pub requests_served: u64,
    pub requests_failed: u64,
    pub total_tokens_generated: u64,
    pub resident_bytes: usize,
    pub gpu_free_bytes: Option<u64>,
    pub gpu_total_bytes: Option<u64>,
    pub models: Vec<ModelStatus>,
}

/// What the daemon tells about a resident model.
#[derive(Debug)]
pub struct ModelStatus {
    pub path: String,
    pub requests_served: u64,
    pub tokens_generated: u64,
    pub last_used_unix_secs: u64,
}

/// What a conversation does when the next turn would not fit, as it travels.
#[derive(Debug, Clone, Copy, PartialEq, Eq, Structural)]
pub enum WireOverflowPolicy {
    Fail,
    DropOldestTurns,
}

/// The policy that travelled.
pub fn wire_overflow_to_overflow(p: WireOverflowPolicy) -> (r: OverflowPolicy)
    ensures
        r == (match p {
            WireOverflowPolicy::Fail => OverflowPolicy::Fail,
            WireOverflowPolicy::DropOldestTurns => OverflowPolicy::DropOldestTurns,
        }),
{
    match p {
        WireOverflowPolicy::Fail => OverflowPolicy::Fail,
        WireOverflowPolicy::DropOldestTurns => OverflowPolicy::DropOldestTurns,
    }
}

/// A request to open a conversation. Where it restores one, the size and the policy are those that
/// were saved.
#[derive(Debug)]
pub struct OpenConversationRequest {
    pub model_path: String,
    pub n_ctx: u32,
    pub overflow: WireOverflowPolicy,
    pub restore_from: Option<SnapshotRef>,
    pub system: Option<String>,
    pub tools: Vec<ToolSpec>,
    pub tool_format: Option<ToolFormat>,
}

/// Where a saved conversation lies.
#[derive(Debug)]
pub struct SnapshotRef {
    pub state_path: String,
    pub meta_path: String,
}

/// A message in an open conversation.
#[derive(Debug)]
pub enum ConversationRequest<N> {
    Turn(ConversationTurnRequest<N>),
    Snapshot(SnapshotRef),
}

/// One turn of a conversation: tool results where there are any, else a message.
#[derive(Debug)]
pub struct ConversationTurnRequest<N> {
    pub tool_results: Option<Vec<String>>,
    pub message: String,
    pub max_new_tokens: Option<i32>,
    pub sampling: Option<WireSampling<N>>,
    pub grammar: Option<String>,
    pub assistant_prefill: Option<String>,
    pub grammar_completion: Option<GrammarCompletion>,
}

/// An answer in a conversation.
#[derive(Debug)]
pub enum ConversationResponse {
    Opened,
    /// In place of [`ConversationResponse::Opened`] where tools were offered.
    OpenedWithTools { supports_tool_calls: bool },
    Turn {
        text: String,
        tokens_generated: usize,
        committed_tokens: usize,
        context_size: usize,
        time_to_first_token_ms: u64,
        tool_calls: Vec<ToolCall>,
        truncated_tool_call: bool,
        formatted_prompt: String,
    },
    Snapshotted,
    Failed { message: String },
}

/// What the daemon answers to a request to open a conversation that carries `tools`.
pub fn opened_response(tools: usize, supports_tool_calls: bool) -> (r: ConversationResponse)
    ensures
        r == (if tools == 0 {
            ConversationResponse::Opened
        } else {
            ConversationResponse::OpenedWithTools { supports_tool_calls }
        }),
{
    if tools == 0 {
        ConversationResponse::Opened
    } else {
        ConversationResponse::OpenedWithTools { supports_tool_calls }
    }
}

/// What the daemon answers to a turn.
pub fn turn_response(result: GenerationResult) -> (r: ConversationResponse)
    ensures
        r == (ConversationResponse::Turn {
            text: result.text,
            tokens_generated: result.tokens_generated,
            committed_tokens: result.committed_tokens,
            context_size: result.context_size,
            time_to_first_token_ms: result.time_to_first_token_ms,
            tool_calls: result.tool_calls,
            truncated_tool_call: result.truncated_tool_call,
            formatted_prompt: result.formatted_prompt,
        }),
{
    ConversationResponse::Turn {
        text: result.text,
        tokens_generated: result.tokens_generated,
        committed_tokens: result.committed_tokens,
        context_size: result.context_size,
        time_to_first_token_ms: result.time_to_first_token_ms,
        tool_calls: result.tool_calls,
        truncated_tool_call: result.truncated_tool_call,
        formatted_prompt: result.formatted_prompt,
    }
}

/// What the daemon answers to a request for one generation.
pub fn generate_response(result: GenerationResult) -> (r: GenerateResponse)
    ensures
        r == (GenerateResponse::Done {
            text: result.text,
            tokens_generated: result.tokens_generated,
            time_to_first_token_ms: result.time_to_first_token_ms,
            formatted_prompt: result.formatted_prompt,
        }),
{
    GenerateResponse::Done {
        text: result.text,
        tokens_generated: result.tokens_generated,
        time_to_first_token_ms: result.time_to_first_token_ms,
        formatted_prompt: result.formatted_prompt,
    }
}

/// `name` in the directory `dir`.
pub open spec fn path_in(dir: Seq<char>, name: Seq<char>) -> Seq<char> {
    if dir.len() == 0 {
        name
    } else if dir.last() == '/' {
        dir + name
    } else {
        dir + "/"@ + name
    }
}

/// `name` in the directory `dir`.
pub fn join_path(dir: &str, name: &str) -> (r: String)
    ensures
        r@ == path_in(dir@, name@),
{
    let cs: Vec<char> = text::chars_of(dir);
    let n: usize = cs.len();
    let mut out: String = dir.to_string();
    if n > 0 && cs[n - 1] != '/' {
        out.append("/");
    }
    out.append(name);
    proof {
        if n == 0 {
            assert(out@ =~= name@);
        }
    }
    out
}

/// A file of the daemon's own, in the home directory.
pub open spec fn daemon_file(home: Option<&str>, name: Seq<char>) -> Option<Seq<char>> {
    match home {
        Some(h) => Some(path_in(path_in(h@, ".rampipe"@), name)),
        None => None,
    }
}

/// Where the daemon's socket is when nothing says otherwise, given the home directory.
pub fn default_socket_path(home: Option<&str>) -> (r: Option<String>)
    ensures
        match r {
            Some(p) => daemon_file(home, "rampiped.sock"@) == Some(p@),
            None => daemon_file(home, "rampiped.sock"@) is None,
        },
{
    match home {
        Some(h) => Some(join_path(join_path(h, ".rampipe").as_str(), "rampiped.sock")),
        None => None,
    }
}

/// What travelled comes back as it was sent.
pub proof fn law_sampling_survives_the_wire<N>(a: Sampling<N>, b: Sampling<N>)
    requires
        sampling_on_wire(a) == sampling_on_wire(b),
    ensures
        a == b,
{
}

/// Sampling travels field by field: each number arrives where it left.
pub proof fn law_numbers_arrive_where_they_left<N>(
    temperature: N,
    top_k: i32,
    top_p: N,
    min_p: N,
    seed: u32,
    p: Penalties<N>,
)
    ensures
        ({
            let s = sampling_on_wire(
                Sampling::Temperature { temperature, top_k, top_p, min_p, seed, penalties: p },
            );
            &&& s is Temperature
            &&& s->temperature == temperature
            &&& s->top_k == top_k
            &&& s->top_p == top_p
            &&& s->min_p == min_p
            &&& s->seed == seed
            &&& s->Temperature_penalties == penalties_on_wire(p)
        }),
        sampling_on_wire(Sampling::Greedy { penalties: p }) is Greedy,
        sampling_on_wire(Sampling::Greedy { penalties: p })->Greedy_penalties == penalties_on_wire(p),
        penalties_on_wire(p).last_n == p.last_n,
        penalties_on_wire(p).repeat == p.repeat,
        penalties_on_wire(p).freq == p.freq,
        penalties_on_wire(p).present == p.present,
{
}

/// A name is put behind its directory with one slash between them: the directory's own where it ends
/// with one. In no directory it stands alone.
pub proof fn law_a_name_stands_in_its_directory(dir: Seq<char>, name: Seq<char>)
    ensures
        path_in(dir + seq!['/'], name) == dir + seq!['/'] + name,
        dir.len() > 0 && dir.last() != '/' ==> path_in(dir, name) == path_in(dir + seq!['/'], name),
        path_in(Seq::empty(), name) == name,
        daemon_file(None, name) is None,
{
    reveal_strlit("/");
    assert("/"@ =~= seq!['/']);
    assert((dir + seq!['/']).last() == '/');
}

/// The daemon's files lie in a directory of its own in the home directory, each under its name.
pub proof fn law_where_the_daemons_files_lie(home: &str, name: Seq<char>)
    requires
        home@.len() > 0,
        home@.last() != '/',
    ensures
        daemon_file(Some(home), name) == Some(home@ + "/.rampipe/"@ + name),
{
    reveal_strlit("/.rampipe/");
    reveal_strlit(".rampipe");
    reveal_strlit("/");
    assert(home@ + "/"@ + ".rampipe"@ + "/"@ + name =~= home@ + "/.rampipe/"@ + name);
}

/// A template finds of a tool what it was described by, each under its key.
pub proof fn law_what_a_template_sees_of_a_tool(tools: Seq<ToolSpec>, i: int)
    requires
        0 <= i < tools.len(),
    ensures
        tools_json(tools) is Array,
        tools_json(tools)->Array_0.len() == tools.len(),
        ({
            let tool = tools_json(tools)->Array_0[i];
            let function = tool.lookup("function"@)->0;
            &&& tool.lookup("type"@) == Some(JsonView::Text(tools[i].kind@))
            &&& tool.lookup("function"@) is Some
            &&& function.lookup("name"@) == Some(JsonView::Text(tools[i].function.name@))
            &&& function.lookup("description"@) == Some(
                JsonView::Text(tools[i].function.description@),
            )
            &&& function.lookup("parameters"@) == Some(tools[i].function.parameters@)
        }),
{
    reveal_strlit("function");
    reveal_strlit("type");
    reveal_strlit("name");
    reveal_strlit("description");
    reveal_strlit("parameters");
    let tool = tools[i]@.json();
    let function = tool->Object_0[0].value;
    assert("type"@.len() != "function"@.len());
    assert("name"@.len() != "description"@.len());
    assert("name"@.len() != "parameters"@.len());
    assert("description"@.len() != "parameters"@.len());
    json::law_what_stands_under_a_key(tool->Object_0, "function"@, 0, tool);
    json::law_what_stands_under_a_key(tool->Object_0, "type"@, 1, tool);
    json::law_what_stands_under_a_key(function->Object_0, "description"@, 0, tool);
    json::law_what_stands_under_a_key(function->Object_0, "name"@, 1, tool);
    json::law_what_stands_under_a_key(function->Object_0, "parameters"@, 2, tool);
}

/// What opens and what closes a call is what the format says, whichever it is.
pub proof fn law_what_opens_and_closes_a_call(f: ToolFormat)
    ensures
        match f {
            ToolFormat::Json { call_open, call_close, .. } => f@.call_open() == call_open@
                && f@.call_close() == call_close@,
            ToolFormat::Delimited { call_open, call_close, .. } => f@.call_open() == call_open@
                && f@.call_close() == call_close@,
            ToolFormat::Separated { call_open, call_close, .. } => f@.call_open() == call_open@
                && f@.call_close() == call_close@,
        },
{
}

/// Whoever offers tools is told whether they can be called; whoever offers none is told nothing of
/// it.
pub proof fn law_tool_support_is_told_where_tools_are_offered(
    tools: usize,
    supports_tool_calls: bool,
    r: ConversationResponse,
)
    requires
        call_ensures(opened_response, (tools, supports_tool_calls), r),
    ensures
        r is Opened <==> tools == 0,
        r is OpenedWithTools <==> tools > 0,
        r is OpenedWithTools ==> r->supports_tool_calls == supports_tool_calls,
{
}

/// The policy that travels is the policy that is followed.
pub proof fn law_the_policy_arrives(p: WireOverflowPolicy, r: OverflowPolicy)
    requires
        call_ensures(wire_overflow_to_overflow, (p,), r),
    ensures
        r is Fail <==> p is Fail,
        r is DropOldestTurns <==> p is DropOldestTurns,
{
}

/// What a generation came to is what is answered, field by field.
pub proof fn law_what_is_answered(
    result: GenerationResult,
    turn: ConversationResponse,
    one: GenerateResponse,
)
    requires
        call_ensures(turn_response, (result,), turn),
        call_ensures(generate_response, (result,), one),
    ensures
        turn is Turn,
        turn->text@ == result.text@,
        turn->tokens_generated == result.tokens_generated,
        turn->committed_tokens == result.committed_tokens,
        turn->context_size == result.context_size,
        turn->time_to_first_token_ms == result.time_to_first_token_ms,
        turn->tool_calls == result.tool_calls,
        turn->truncated_tool_call == result.truncated_tool_call,
        turn->formatted_prompt@ == result.formatted_prompt@,
        one is Done,
        one->text@ == result.text@,
        one->tokens_generated == result.tokens_generated,
        one->time_to_first_token_ms == result.time_to_first_token_ms,
        one->formatted_prompt@ == result.formatted_prompt@,
{
}

} // verus!
