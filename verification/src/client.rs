//! Talking to the daemon: what is sent, and what its answers mean. How a message travels is up to
//! the caller, who hands in a function that sends one and returns the answer.

use vstd::prelude::*;
use crate::conversation::{ConversationError, GenerationResult};
use crate::protocol::{
    ClientMessage, ConversationRequest, ConversationResponse, ConversationTurnRequest, EmbedRequest,
    EmbedResponse, GenerateRequest, GenerateResponse, GrammarCompletion, OpenConversationRequest,
    SnapshotRef, StatusResponse, ToolCall, ToolFormat, ToolSpec, WireOverflowPolicy, WirePooling,
    WireSampling,
};
use crate::text;
use crate::tool_probe;

verus! {

/// What talking to the daemon can fail with.
#[derive(Debug)]
pub enum RampipedError {
    Connect { path: String, source: String },
    Encode(String),
    Send(String),
    Read(String),
    Decode(String),
    Remote(String),
}

impl RampipedError {
    /// The error in words.
    pub open spec fn words(self) -> Seq<char> {
        match self {
            RampipedError::Connect { path, source } => "connecting to rampiped socket "@ + path@
                + " (is rampiped running?): "@ + source@,
            RampipedError::Encode(e) => "encoding request to rampiped: "@ + e@,
            RampipedError::Send(e) => "sending request to rampiped: "@ + e@,
            RampipedError::Read(e) => "reading response from rampiped: "@ + e@,
            RampipedError::Decode(e) => "decoding response from rampiped: "@ + e@,
            RampipedError::Remote(e) => "rampiped reported an error: "@ + e@,
        }
    }

    /// The error in words.
    pub fn message(&self) -> (r: String)
        ensures
            r@ == self.words(),
    {
        match self {
            RampipedError::Connect { path, source } => {
                let mut m: String = "connecting to rampiped socket ".to_string();
                m.append(path.as_str());
                m.append(" (is rampiped running?): ");
                m.append(source.as_str());
                m
            },
            RampipedError::Encode(e) => prefixed("encoding request to rampiped: ", e),
            RampipedError::Send(e) => prefixed("sending request to rampiped: ", e),
            RampipedError::Read(e) => prefixed("reading response from rampiped: ", e),
            RampipedError::Decode(e) => prefixed("decoding response from rampiped: ", e),
            RampipedError::Remote(e) => prefixed("rampiped reported an error: ", e),
        }
    }
}

/// `prefix` and then `s`.
fn prefixed(prefix: &str, s: &String) -> (r: String)
    ensures
        r@ == prefix@ + s@,
{
    let mut m: String = prefix.to_string();
    m.append(s.as_str());
    m
}

/// A reply, as the daemon reported it.
#[derive(Debug)]
pub struct GenerateOutcome {
    pub text: String,
    pub tokens_generated: usize,
    pub committed_tokens: usize,
    pub context_size: usize,
    pub time_to_first_token_ms: u64,
    pub formatted_prompt: String,
    pub tool_calls: Vec<ToolCall>,
    pub truncated_tool_call: bool,
}

/// Vectors, as the daemon reported them: one per text, in the same order.
#[derive(Debug)]
pub struct EmbedOutcome<N> {
    pub vectors: Vec<Vec<N>>,
    pub n_embd: usize,
}

/// The same text, where there is one.
fn owned(s: Option<&str>) -> (r: Option<String>)
    ensures
        tool_probe::text_option(r) == tool_probe::str_option(s),
{
    match s {
        Some(s) => Some(s.to_string()),
        None => None,
    }
}

/// The contents of a list of texts.
pub open spec fn texts_view(texts: Seq<String>) -> Seq<Seq<char>> {
    Seq::new(texts.len(), |i: int| texts[i]@)
}

/// The same texts again.
pub fn copy_texts(texts: &[String]) -> (r: Vec<String>)
    ensures
        texts_view(r@) == texts_view(texts@),
        r@ == texts@,
{
    let mut r: Vec<String> = Vec::new();
    let mut i: usize = 0;
    while i < texts.len()
        invariant
            i <= texts.len(),
            r@ == texts@.take(i as int),
        decreases texts.len() - i,
    {
        r.push(texts[i].clone());
        i += 1;
        assert(r@ =~= texts@.take(i as int));
    }
    assert(r@ =~= texts@);
    r
}

/// `m` asks for one generation with these parameters.
pub open spec fn asks_to_generate<N>(
    m: &ClientMessage<N>,
    model_path: Seq<char>,
    prompt: Seq<char>,
    max_new_tokens: Option<i32>,
    sampling: Option<WireSampling<N>>,
    grammar: Option<Seq<char>>,
    assistant_prefill: Option<Seq<char>>,
    grammar_completion: Option<GrammarCompletion>,
) -> bool {
    match *m {
        ClientMessage::Generate(request) => {
            &&& request.model_path@ == model_path
            &&& request.prompt@ == prompt
            &&& request.max_new_tokens == max_new_tokens
            &&& request.sampling == sampling
            &&& tool_probe::text_option(request.grammar) == grammar
            &&& tool_probe::text_option(request.assistant_prefill) == assistant_prefill
            &&& request.grammar_completion == grammar_completion
        },
        _ => false,
    }
}

/// `m` asks to embed these texts.
pub open spec fn asks_to_embed<N>(
    m: &ClientMessage<N>,
    model_path: Seq<char>,
    texts: Seq<String>,
    pooling: WirePooling,
    normalize: bool,
) -> bool {
    match *m {
        ClientMessage::Embed(request) => {
            &&& request.model_path@ == model_path
            &&& request.texts@ == texts
            &&& request.pooling == pooling
            &&& request.normalize == normalize
        },
        _ => false,
    }
}

/// What an answer to a request for one generation means. There are no tools in one.
pub open spec fn generation_outcome(
    response: Result<GenerateResponse, RampipedError>,
    r: Result<GenerateOutcome, RampipedError>,
) -> bool {
    match response {
        Ok(
            GenerateResponse::Done {
                text,
                tokens_generated,
                time_to_first_token_ms,
                formatted_prompt,
            },
        ) => match r {
            Ok(o) => {
                &&& o.text == text
                &&& o.tokens_generated == tokens_generated
                &&& o.time_to_first_token_ms == time_to_first_token_ms
                &&& o.formatted_prompt == formatted_prompt
                &&& o.tool_calls@.len() == 0
                &&& !o.truncated_tool_call
                &&& o.committed_tokens == 0
                &&& o.context_size == 0
            },
            Err(_) => false,
        },
        Ok(GenerateResponse::Failed { message }) => r == Err::<GenerateOutcome, RampipedError>(
            RampipedError::Remote(message),
        ),
        Err(e) => r == Err::<GenerateOutcome, RampipedError>(e),
    }
}

/// A client of the daemon at a socket.
#[derive(Debug)]
pub struct RampipedClient {
    socket_path: String,
}

impl RampipedClient {
    /// Where the daemon is.
    pub closed spec fn socket(&self) -> Seq<char> {
        self.socket_path@
    }

    /// A client for `socket_path`; nothing is connected yet.
    pub fn new(socket_path: &str) -> (r: Self)
        ensures
            r.socket() == socket_path@,
    {
        RampipedClient { socket_path: socket_path.to_string() }
    }

    /// Where the daemon is.
    pub fn socket_path(&self) -> (r: &str)
        ensures
            r@ == self.socket(),
    {
        self.socket_path.as_str()
    }

    /// Asks for one generation. The connection is closed after the answer.
    pub fn generate<
        N: Copy,
        T: Fn(&str, &ClientMessage<N>) -> Result<GenerateResponse, RampipedError>,
    >(
        &self,
        model_path: &str,
        prompt: &str,
        max_new_tokens: Option<i32>,
        sampling: Option<WireSampling<N>>,
        grammar: Option<&str>,
        assistant_prefill: Option<&str>,
        grammar_completion: Option<GrammarCompletion>,
        transport: &T,
    ) -> (r: Result<GenerateOutcome, RampipedError>)
        requires
            forall|s: &str, m: &ClientMessage<N>| call_requires(*transport, (s, m)),
        ensures
            exists|s: &str, m: &ClientMessage<N>, a: Result<GenerateResponse, RampipedError>|
                {
                    &&& #[trigger] call_ensures(*transport, (s, m), a)
                    &&& s@ == self.socket()
                    &&& asks_to_generate(
                        m,
                        model_path@,
                        prompt@,
                        max_new_tokens,
                        sampling,
                        tool_probe::str_option(grammar),
                        tool_probe::str_option(assistant_prefill),
                        grammar_completion,
                    )
                    &&& generation_outcome(a, r)
                },
    {
        let request: ClientMessage<N> = ClientMessage::Generate(
            GenerateRequest {
                model_path: model_path.to_string(),
                prompt: prompt.to_string(),
                max_new_tokens,
                sampling,
                grammar: owned(grammar),
                assistant_prefill: owned(assistant_prefill),
                grammar_completion,
            },
        );
        let answer: Result<GenerateResponse, RampipedError> = transport(
            self.socket_path.as_str(),
            &request,
        );
        read_generation(answer)
    }

    /// Asks to embed texts. The connection is closed after the answer.
    pub fn embed<
        N: Copy,
        T: Fn(&str, &ClientMessage<N>) -> Result<EmbedResponse<N>, RampipedError>,
    >(
        &self,
        model_path: &str,
        texts: &[String],
        pooling: WirePooling,
        normalize: bool,
        transport: &T,
    ) -> (r: Result<EmbedOutcome<N>, RampipedError>)
        requires
            forall|s: &str, m: &ClientMessage<N>| call_requires(*transport, (s, m)),
        ensures
            exists|s: &str, m: &ClientMessage<N>, a: Result<EmbedResponse<N>, RampipedError>|
                {
                    &&& #[trigger] call_ensures(*transport, (s, m), a)
                    &&& s@ == self.socket()
                    &&& asks_to_embed(m, model_path@, texts@, pooling, normalize)
                    &&& embedding_outcome(a, r)
                },
    {
        let request: ClientMessage<N> = ClientMessage::Embed(
            EmbedRequest {
                model_path: model_path.to_string(),
                texts: copy_texts(texts),
                pooling,
                normalize,
            },
        );
        let answer: Result<EmbedResponse<N>, RampipedError> = transport(
            self.socket_path.as_str(),
            &request,
        );
        read_embedding(answer)
    }

    /// Asks the daemon about itself.
    pub fn status<
        N: Copy,
        T: Fn(&str, &ClientMessage<N>) -> Result<StatusResponse, RampipedError>,
    >(&self, transport: &T) -> (r: Result<StatusResponse, RampipedError>)
        requires
            forall|s: &str, m: &ClientMessage<N>| call_requires(*transport, (s, m)),
        ensures
            exists|s: &str, m: &ClientMessage<N>| #[trigger]
                call_ensures(*transport, (s, m), r) && s@ == self.socket() && m is Status,
    {
        let request: ClientMessage<N> = ClientMessage::Status;
        transport(self.socket_path.as_str(), &request)
    }
}

/// What an answer to a request for one generation means.
pub fn read_generation(answer: Result<GenerateResponse, RampipedError>) -> (r: Result<
    GenerateOutcome,
    RampipedError,
>)
    ensures
        generation_outcome(answer, r),
{
    match answer {
        Ok(
            GenerateResponse::Done {
                text,
                tokens_generated,
                time_to_first_token_ms,
                formatted_prompt,
            },
        ) => Ok(
            GenerateOutcome {
                text,
                tokens_generated,
                committed_tokens: 0,
                context_size: 0,
                time_to_first_token_ms,
                formatted_prompt,
                tool_calls: Vec::new(),
                truncated_tool_call: false,
            },
        ),
        Ok(GenerateResponse::Failed { message }) => Err(RampipedError::Remote(message)),
        Err(e) => Err(e),
    }
}

/// What an answer to a request to embed means.
pub open spec fn embedding_outcome<N>(
    response: Result<EmbedResponse<N>, RampipedError>,
    r: Result<EmbedOutcome<N>, RampipedError>,
) -> bool {
    match response {
        Ok(EmbedResponse::Done { vectors, n_embd }) => r == Ok::<EmbedOutcome<N>, RampipedError>(
            EmbedOutcome { vectors, n_embd },
        ),
        Ok(EmbedResponse::Failed { message }) => r == Err::<EmbedOutcome<N>, RampipedError>(
            RampipedError::Remote(message),
        ),
        Err(e) => r == Err::<EmbedOutcome<N>, RampipedError>(e),
    }
}

/// What an answer to a request to embed means.
pub fn read_embedding<N>(answer: Result<EmbedResponse<N>, RampipedError>) -> (r: Result<
    EmbedOutcome<N>,
    RampipedError,
>)
    ensures
        embedding_outcome(answer, r),
{
    match answer {
        Ok(EmbedResponse::Done { vectors, n_embd }) => Ok(EmbedOutcome { vectors, n_embd }),
        Ok(EmbedResponse::Failed { message }) => Err(RampipedError::Remote(message)),
        Err(e) => Err(e),
    }
}

/// An open conversation with the daemon.
#[derive(Debug)]
pub struct RampipedConversation {
    supports_tool_calls: bool,
    turns: usize,
}

/// The content of a [`RampipedConversation`].
pub struct ClientConversationView {
    /// The daemon reads the tool calls in replies.
    pub supports_tool_calls: bool,
    /// How many exchanges there were.
    pub turns: int,
}

impl View for RampipedConversation {
    type V = ClientConversationView;

    closed spec fn view(&self) -> ClientConversationView {
        ClientConversationView {
            supports_tool_calls: self.supports_tool_calls,
            turns: self.turns as int,
        }
    }
}

/// What the answer to a request to open a conversation means. One that does not speak of tools
/// comes from a daemon that reads no calls.
pub open spec fn opening_outcome(
    response: Result<ConversationResponse, RampipedError>,
    r: Result<RampipedConversation, RampipedError>,
) -> bool {
    match response {
        Ok(ConversationResponse::Opened) => r is Ok && r->Ok_0@ == (ClientConversationView {
            supports_tool_calls: false,
            turns: 0,
        }),
        Ok(ConversationResponse::OpenedWithTools { supports_tool_calls }) => r is Ok && r->Ok_0@
            == (ClientConversationView { supports_tool_calls, turns: 0 }),
        Ok(ConversationResponse::Failed { message }) => r is Err && r->Err_0
            == RampipedError::Remote(message),
        Ok(_) => r is Err && unexpected(
            r->Err_0,
            "rampiped sent an unexpected response before the conversation was opened"@,
        ),
        Err(e) => r is Err && r->Err_0 == e,
    }
}

/// `e` reports an answer that was not expected.
pub open spec fn unexpected(e: RampipedError, message: Seq<char>) -> bool {
    match e {
        RampipedError::Remote(m) => m@ == message,
        _ => false,
    }
}

/// What the answer to a turn means.
pub open spec fn turn_outcome(
    response: Result<ConversationResponse, RampipedError>,
    r: Result<GenerateOutcome, RampipedError>,
) -> bool {
    match response {
        Ok(
            ConversationResponse::Turn {
                text,
                tokens_generated,
                committed_tokens,
                context_size,
                time_to_first_token_ms,
                tool_calls,
                truncated_tool_call,
                formatted_prompt,
            },
        ) => r == Ok::<GenerateOutcome, RampipedError>(
            GenerateOutcome {
                text,
                tokens_generated,
                committed_tokens,
                context_size,
                time_to_first_token_ms,
                formatted_prompt,
                tool_calls,
                truncated_tool_call,
            },
        ),
        Ok(ConversationResponse::Failed { message }) => r == Err::<GenerateOutcome, RampipedError>(
            RampipedError::Remote(message),
        ),
        Ok(_) => r is Err && unexpected(
            r->Err_0,
            "rampiped sent an unexpected response to a conversation turn"@,
        ),
        Err(e) => r == Err::<GenerateOutcome, RampipedError>(e),
    }
}

/// What the answer to a request to save a conversation means.
pub open spec fn snapshot_outcome(
    response: Result<ConversationResponse, RampipedError>,
    r: Result<(), RampipedError>,
) -> bool {
    match response {
        Ok(ConversationResponse::Snapshotted) => r is Ok,
        Ok(ConversationResponse::Failed { message }) => r is Err && r->Err_0
            == RampipedError::Remote(message),
        Ok(_) => r is Err && unexpected(
            r->Err_0,
            "rampiped sent an unexpected response to a snapshot request"@,
        ),
        Err(e) => r is Err && r->Err_0 == e,
    }
}

/// `m` asks to open a conversation like this.
pub open spec fn asks_to_open<N>(
    m: &ClientMessage<N>,
    model_path: Seq<char>,
    n_ctx: u32,
    overflow: WireOverflowPolicy,
    restore_from: Option<SnapshotRef>,
    system: Option<String>,
    tools: Vec<ToolSpec>,
    tool_format: Option<ToolFormat>,
) -> bool {
    match *m {
        ClientMessage::OpenConversation(request) => {
            &&& request.model_path@ == model_path
            &&& request.n_ctx == n_ctx
            &&& request.overflow == overflow
            &&& request.restore_from == restore_from
            &&& request.system == system
            &&& request.tools == tools
            &&& request.tool_format == tool_format
        },
        _ => false,
    }
}

/// `m` is a turn with a message, and no tool results.
pub open spec fn sends_message<N>(
    m: &ConversationRequest<N>,
    message: Seq<char>,
    max_new_tokens: Option<i32>,
    sampling: Option<WireSampling<N>>,
    grammar: Option<Seq<char>>,
    assistant_prefill: Option<Seq<char>>,
    grammar_completion: Option<GrammarCompletion>,
) -> bool {
    match *m {
        ConversationRequest::Turn(turn) => {
            &&& turn.tool_results is None
            &&& turn.message@ == message
            &&& turn.max_new_tokens == max_new_tokens
            &&& turn.sampling == sampling
            &&& tool_probe::text_option(turn.grammar) == grammar
            &&& tool_probe::text_option(turn.assistant_prefill) == assistant_prefill
            &&& turn.grammar_completion == grammar_completion
        },
        _ => false,
    }
}

/// `m` is a turn with tool results, and no message.
pub open spec fn sends_results<N>(
    m: &ConversationRequest<N>,
    results: Seq<String>,
    max_new_tokens: Option<i32>,
    sampling: Option<WireSampling<N>>,
    grammar: Option<Seq<char>>,
    grammar_completion: Option<GrammarCompletion>,
) -> bool {
    match *m {
        ConversationRequest::Turn(turn) => {
            &&& turn.tool_results matches Some(r) && r@ == results
            &&& turn.message@.len() == 0
            &&& turn.max_new_tokens == max_new_tokens
            &&& turn.sampling == sampling
            &&& tool_probe::text_option(turn.grammar) == grammar
            &&& turn.assistant_prefill is None
            &&& turn.grammar_completion == grammar_completion
        },
        _ => false,
    }
}

impl RampipedConversation {
    /// Opens a conversation with the daemon at `socket_path`.
    pub fn open<
        N: Copy,
        T: Fn(&str, &ClientMessage<N>) -> Result<ConversationResponse, RampipedError>,
    >(
        socket_path: &str,
        model_path: &str,
        n_ctx: u32,
        overflow: WireOverflowPolicy,
        restore_from: Option<SnapshotRef>,
        system: Option<String>,
        tools: Vec<ToolSpec>,
        tool_format: Option<ToolFormat>,
        transport: &T,
    ) -> (r: Result<Self, RampipedError>)
        requires
            forall|s: &str, m: &ClientMessage<N>| call_requires(*transport, (s, m)),
        ensures
            exists|s: &str, m: &ClientMessage<N>, a: Result<ConversationResponse, RampipedError>|
                {
                    &&& #[trigger] call_ensures(*transport, (s, m), a)
                    &&& s@ == socket_path@
                    &&& asks_to_open(
                        m,
                        model_path@,
                        n_ctx,
                        overflow,
                        restore_from,
                        system,
                        tools,
                        tool_format,
                    )
                    &&& opening_outcome(a, r)
                },
    {
        let request: ClientMessage<N> = ClientMessage::OpenConversation(
            OpenConversationRequest {
                model_path: model_path.to_string(),
                n_ctx,
                overflow,
                restore_from,
                system,
                tools,
                tool_format,
            },
        );
        let answer: Result<ConversationResponse, RampipedError> = transport(socket_path, &request);
        RampipedConversation::opened(answer)
    }

    /// What the answer to a request to open a conversation means.
    pub fn opened(answer: Result<ConversationResponse, RampipedError>) -> (r: Result<
        Self,
        RampipedError,
    >)
        ensures
            opening_outcome(answer, r),
    {
        match answer {
            Ok(ConversationResponse::Opened) => Ok(
                RampipedConversation { supports_tool_calls: false, turns: 0 },
            ),
            Ok(ConversationResponse::OpenedWithTools { supports_tool_calls }) => Ok(
                RampipedConversation { supports_tool_calls, turns: 0 },
            ),
            Ok(ConversationResponse::Failed { message }) => Err(RampipedError::Remote(message)),
            Ok(_) => Err(
                RampipedError::Remote(
                    "rampiped sent an unexpected response before the conversation was opened".to_string(),
                ),
            ),
            Err(e) => Err(e),
        }
    }

    /// Whether the daemon reads the tool calls in replies.
    pub fn supports_tool_calls(&self) -> (r: bool)
        ensures
            r == self@.supports_tool_calls,
    {
        self.supports_tool_calls
    }

    /// How many exchanges there were.
    pub fn turn_count(&self) -> (r: usize)
        ensures
            r == self@.turns,
    {
        self.turns
    }

    /// What the answer to a turn means; a reply counts as an exchange.
    pub fn take_reply(&mut self, answer: Result<ConversationResponse, RampipedError>) -> (r: Result<
        GenerateOutcome,
        RampipedError,
    >)
        requires
            old(self)@.turns < usize::MAX,
        ensures
            turn_outcome(answer, r),
            final(self)@ == (ClientConversationView {
                turns: if r is Ok {
                    old(self)@.turns + 1
                } else {
                    old(self)@.turns
                },
                ..old(self)@
            }),
    {
        match answer {
            Ok(
                ConversationResponse::Turn {
                    text,
                    tokens_generated,
                    committed_tokens,
                    context_size,
                    time_to_first_token_ms,
                    tool_calls,
                    truncated_tool_call,
                    formatted_prompt,
                },
            ) => {
                self.turns = self.turns + 1;
                Ok(
                    GenerateOutcome {
                        text,
                        tokens_generated,
                        committed_tokens,
                        context_size,
                        time_to_first_token_ms,
                        formatted_prompt,
                        tool_calls,
                        truncated_tool_call,
                    },
                )
            },
            Ok(ConversationResponse::Failed { message }) => Err(RampipedError::Remote(message)),
            Ok(_) => Err(
                RampipedError::Remote(
                    "rampiped sent an unexpected response to a conversation turn".to_string(),
                ),
            ),
            Err(e) => Err(e),
        }
    }

    /// One request and its answer.
    fn exchange<
        N: Copy,
        T: Fn(&ConversationRequest<N>) -> Result<ConversationResponse, RampipedError>,
    >(&mut self, turn: ConversationTurnRequest<N>, transport: &T) -> (r: Result<
        GenerateOutcome,
        RampipedError,
    >)
        requires
            old(self)@.turns < usize::MAX,
            forall|m: &ConversationRequest<N>| call_requires(*transport, (m,)),
        ensures
            exists|a: Result<ConversationResponse, RampipedError>|
                {
                    &&& #[trigger] call_ensures(
                        *transport,
                        (&ConversationRequest::Turn(turn),),
                        a,
                    )
                    &&& turn_outcome(a, r)
                },
            final(self)@ == (ClientConversationView {
                turns: if r is Ok {
                    old(self)@.turns + 1
                } else {
                    old(self)@.turns
                },
                ..old(self)@
            }),
    {
        let request: ConversationRequest<N> = ConversationRequest::Turn(turn);
        let answer: Result<ConversationResponse, RampipedError> = transport(&request);
        self.take_reply(answer)
    }

    /// Sends a message and returns the reply.
    pub fn send<
        N: Copy,
        T: Fn(&ConversationRequest<N>) -> Result<ConversationResponse, RampipedError>,
    >(
        &mut self,
        message: &str,
        max_new_tokens: Option<i32>,
        sampling: Option<WireSampling<N>>,
        grammar: Option<&str>,
        assistant_prefill: Option<&str>,
        grammar_completion: Option<GrammarCompletion>,
        transport: &T,
    ) -> (r: Result<GenerateOutcome, RampipedError>)
        requires
            old(self)@.turns < usize::MAX,
            forall|m: &ConversationRequest<N>| call_requires(*transport, (m,)),
        ensures
            exists|m: &ConversationRequest<N>, a: Result<ConversationResponse, RampipedError>|
                {
                    &&& #[trigger] call_ensures(*transport, (m,), a)
                    &&& sends_message(
                        m,
                        message@,
                        max_new_tokens,
                        sampling,
                        tool_probe::str_option(grammar),
                        tool_probe::str_option(assistant_prefill),
                        grammar_completion,
                    )
                    &&& turn_outcome(a, r)
                },
            final(self)@ == (ClientConversationView {
                turns: if r is Ok {
                    old(self)@.turns + 1
                } else {
                    old(self)@.turns
                },
                ..old(self)@
            }),
    {
        self.exchange(
            ConversationTurnRequest {
                tool_results: None,
                message: message.to_string(),
                max_new_tokens,
                sampling,
                grammar: owned(grammar),
                assistant_prefill: owned(assistant_prefill),
                grammar_completion,
            },
            transport,
        )
    }

    /// Sends the results of tool calls and returns the reply.
    pub fn send_tool_results<
        N: Copy,
        T: Fn(&ConversationRequest<N>) -> Result<ConversationResponse, RampipedError>,
    >(
        &mut self,
        results: &[String],
        max_new_tokens: Option<i32>,
        sampling: Option<WireSampling<N>>,
        grammar: Option<&str>,
        grammar_completion: Option<GrammarCompletion>,
        transport: &T,
    ) -> (r: Result<GenerateOutcome, RampipedError>)
        requires
            old(self)@.turns < usize::MAX,
            forall|m: &ConversationRequest<N>| call_requires(*transport, (m,)),
        ensures
            exists|m: &ConversationRequest<N>, a: Result<ConversationResponse, RampipedError>|
                {
                    &&& #[trigger] call_ensures(*transport, (m,), a)
                    &&& sends_results(
                        m,
                        results@,
                        max_new_tokens,
                        sampling,
                        tool_probe::str_option(grammar),
                        grammar_completion,
                    )
                    &&& turn_outcome(a, r)
                },
            final(self)@ == (ClientConversationView {
                turns: if r is Ok {
                    old(self)@.turns + 1
                } else {
                    old(self)@.turns
                },
                ..old(self)@
            }),
    {
        self.exchange(
            ConversationTurnRequest {
                tool_results: Some(copy_texts(results)),
                message: String::new(),
                max_new_tokens,
                sampling,
                grammar: owned(grammar),
                assistant_prefill: None,
                grammar_completion,
            },
            transport,
        )
    }

    /// Saves the conversation and ends it.
    pub fn snapshot<
        N: Copy,
        T: Fn(&ConversationRequest<N>) -> Result<ConversationResponse, RampipedError>,
    >(&mut self, state_path: &str, meta_path: &str, transport: &T) -> (r: Result<(), RampipedError>)
        requires
            forall|m: &ConversationRequest<N>| call_requires(*transport, (m,)),
        ensures
            exists|m: &ConversationRequest<N>, a: Result<ConversationResponse, RampipedError>|
                {
                    &&& #[trigger] call_ensures(*transport, (m,), a)
                    &&& (*m matches ConversationRequest::Snapshot(s) && s.state_path@ == state_path@
                        && s.meta_path@ == meta_path@)
                    &&& snapshot_outcome(a, r)
                },
            final(self)@ == old(self)@,
    {
        let request: ConversationRequest<N> = ConversationRequest::Snapshot(
            SnapshotRef { state_path: state_path.to_string(), meta_path: meta_path.to_string() },
        );
        let answer: Result<ConversationResponse, RampipedError> = transport(&request);
        read_snapshot(answer)
    }
}

/// What the answer to a request to save a conversation means.
pub fn read_snapshot(answer: Result<ConversationResponse, RampipedError>) -> (r: Result<
    (),
    RampipedError,
>)
    ensures
        snapshot_outcome(answer, r),
{
    match answer {
        Ok(ConversationResponse::Snapshotted) => Ok(()),
        Ok(ConversationResponse::Failed { message }) => Err(RampipedError::Remote(message)),
        Ok(_) => Err(
            RampipedError::Remote(
                "rampiped sent an unexpected response to a snapshot request".to_string(),
            ),
        ),
        Err(e) => Err(e),
    }
}

/// A reply from the daemon as any conversation has it.
pub open spec fn result_of(
    outcome: Result<GenerateOutcome, RampipedError>,
    r: Result<GenerationResult, ConversationError>,
) -> bool {
    match outcome {
        Ok(o) => r == Ok::<GenerationResult, ConversationError>(
            GenerationResult {
                text: o.text,
                time_to_first_token_ms: o.time_to_first_token_ms,
                tokens_generated: o.tokens_generated,
                committed_tokens: o.committed_tokens,
                context_size: o.context_size,
                formatted_prompt: o.formatted_prompt,
                tool_calls: o.tool_calls,
                truncated_tool_call: o.truncated_tool_call,
            },
        ),
        Err(e) => r matches Err(ConversationError::Backend(m)) && m@ == e.words(),
    }
}

/// A reply from the daemon as any conversation has it; a failure is one of the backend.
pub fn as_conversation_result(outcome: Result<GenerateOutcome, RampipedError>) -> (r: Result<
    GenerationResult,
    ConversationError,
>)
    ensures
        result_of(outcome, r),
{
    match outcome {
        Ok(o) => Ok(
            GenerationResult {
                text: o.text,
                time_to_first_token_ms: o.time_to_first_token_ms,
                tokens_generated: o.tokens_generated,
                committed_tokens: o.committed_tokens,
                context_size: o.context_size,
                formatted_prompt: o.formatted_prompt,
                tool_calls: o.tool_calls,
                truncated_tool_call: o.truncated_tool_call,
            },
        ),
        Err(e) => Err(ConversationError::Backend(e.message())),
    }
}

/// What is asked for is what was meant: a turn with a message carries it, and no results; a turn with
/// results carries them, and no message.
pub proof fn law_what_is_sent<N>(
    m: ConversationRequest<N>,
    message: Seq<char>,
    results: Seq<String>,
    max_new_tokens: Option<i32>,
    sampling: Option<WireSampling<N>>,
    grammar: Option<Seq<char>>,
    prefill: Option<Seq<char>>,
    completion: Option<GrammarCompletion>,
)
    ensures
        sends_message(
            &m,
            message,
            max_new_tokens,
            sampling,
            grammar,
            prefill,
            completion,
        ) ==> {
            &&& m is Turn
            &&& m->Turn_0.message@ == message
            &&& m->Turn_0.tool_results is None
            &&& m->Turn_0.max_new_tokens == max_new_tokens
            &&& m->Turn_0.sampling == sampling
            &&& tool_probe::text_option(m->Turn_0.grammar) == grammar
            &&& tool_probe::text_option(m->Turn_0.assistant_prefill) == prefill
            &&& m->Turn_0.grammar_completion == completion
        },
        sends_results(&m, results, max_new_tokens, sampling, grammar, completion) ==> {
            &&& m is Turn
            &&& m->Turn_0.tool_results is Some
            &&& m->Turn_0.tool_results->0@ == results
            &&& m->Turn_0.message@.len() == 0
            &&& m->Turn_0.assistant_prefill is None
            &&& m->Turn_0.max_new_tokens == max_new_tokens
            &&& m->Turn_0.sampling == sampling
            &&& tool_probe::text_option(m->Turn_0.grammar) == grammar
            &&& m->Turn_0.grammar_completion == completion
        },
{
}

/// What is asked of the daemon first is what was meant, with all that was given for it.
pub proof fn law_what_is_asked_for<N>(
    m: ClientMessage<N>,
    model_path: Seq<char>,
    prompt: Seq<char>,
    max_new_tokens: Option<i32>,
    sampling: Option<WireSampling<N>>,
    grammar: Option<Seq<char>>,
    prefill: Option<Seq<char>>,
    completion: Option<GrammarCompletion>,
    texts: Seq<String>,
    pooling: WirePooling,
    normalize: bool,
)
    ensures
        asks_to_generate(
            &m,
            model_path,
            prompt,
            max_new_tokens,
            sampling,
            grammar,
            prefill,
            completion,
        ) ==> {
            &&& m is Generate
            &&& m->Generate_0.model_path@ == model_path
            &&& m->Generate_0.prompt@ == prompt
            &&& m->Generate_0.max_new_tokens == max_new_tokens
            &&& m->Generate_0.sampling == sampling
            &&& tool_probe::text_option(m->Generate_0.grammar) == grammar
            &&& tool_probe::text_option(m->Generate_0.assistant_prefill) == prefill
            &&& m->Generate_0.grammar_completion == completion
        },
        asks_to_embed(&m, model_path, texts, pooling, normalize) ==> {
            &&& m is Embed
            &&& m->Embed_0.model_path@ == model_path
            &&& m->Embed_0.texts@ == texts
            &&& m->Embed_0.pooling == pooling
            &&& m->Embed_0.normalize == normalize
        },
{
}

/// A conversation is asked for with all that was given for it.
pub proof fn law_what_opens_a_conversation<N>(
    m: ClientMessage<N>,
    model_path: Seq<char>,
    n_ctx: u32,
    overflow: WireOverflowPolicy,
    restore_from: Option<SnapshotRef>,
    system: Option<String>,
    tools: Vec<ToolSpec>,
    tool_format: Option<ToolFormat>,
)
    requires
        asks_to_open(&m, model_path, n_ctx, overflow, restore_from, system, tools, tool_format),
    ensures
        m is OpenConversation,
        m->OpenConversation_0.model_path@ == model_path,
        m->OpenConversation_0.n_ctx == n_ctx,
        m->OpenConversation_0.overflow == overflow,
        m->OpenConversation_0.restore_from == restore_from,
        m->OpenConversation_0.system == system,
        m->OpenConversation_0.tools == tools,
        m->OpenConversation_0.tool_format == tool_format,
{
}

/// One generation comes to what was answered, and calls no tool; what was reported as wrong, and what
/// went wrong on the way, is an error and nothing else is.
pub proof fn law_what_one_generation_comes_to(
    response: Result<GenerateResponse, RampipedError>,
    r: Result<GenerateOutcome, RampipedError>,
)
    requires
        generation_outcome(response, r),
    ensures
        r is Ok <==> response is Ok && response->Ok_0 is Done,
        r is Ok ==> {
            &&& r->Ok_0.text@ == response->Ok_0->text@
            &&& r->Ok_0.tokens_generated == response->Ok_0->tokens_generated
            &&& r->Ok_0.time_to_first_token_ms == response->Ok_0->time_to_first_token_ms
            &&& r->Ok_0.formatted_prompt@ == response->Ok_0->formatted_prompt@
            &&& r->Ok_0.tool_calls@.len() == 0
            &&& !r->Ok_0.truncated_tool_call
            &&& r->Ok_0.committed_tokens == 0
            &&& r->Ok_0.context_size == 0
        },
        response is Ok && response->Ok_0 is Failed ==> r->Err_0 is Remote && r->Err_0->Remote_0@
            == response->Ok_0->message@,
        response is Err ==> r->Err_0 == response->Err_0,
{
}

/// Texts are embedded as was answered: the vectors, in order, and their size.
pub proof fn law_what_embedding_comes_to<N>(
    response: Result<EmbedResponse<N>, RampipedError>,
    r: Result<EmbedOutcome<N>, RampipedError>,
)
    requires
        embedding_outcome(response, r),
    ensures
        r is Ok <==> response is Ok && response->Ok_0 is Done,
        r is Ok ==> r->Ok_0.vectors == response->Ok_0->vectors && r->Ok_0.n_embd
            == response->Ok_0->n_embd,
        response is Ok && response->Ok_0 is Failed ==> r->Err_0 is Remote && r->Err_0->Remote_0@
            == response->Ok_0->message@,
        response is Err ==> r->Err_0 == response->Err_0,
{
}

/// An answer that is not one to what was asked is an error; so is what went wrong on the way, and it
/// is told as it is.
pub proof fn law_other_answers_are_errors(
    response: Result<ConversationResponse, RampipedError>,
    opened: Result<RampipedConversation, RampipedError>,
    turn: Result<GenerateOutcome, RampipedError>,
    saved: Result<(), RampipedError>,
)
    requires
        opening_outcome(response, opened),
        turn_outcome(response, turn),
        snapshot_outcome(response, saved),
    ensures
        opened is Ok <==> response is Ok && (response->Ok_0 is Opened || response->Ok_0
            is OpenedWithTools),
        turn is Ok <==> response is Ok && response->Ok_0 is Turn,
        saved is Ok <==> response is Ok && response->Ok_0 is Snapshotted,
        response is Err ==> opened->Err_0 == response->Err_0 && turn->Err_0 == response->Err_0
            && saved->Err_0 == response->Err_0,
        response is Ok && response->Ok_0 is Failed ==> {
            let e = RampipedError::Remote(response->Ok_0->message);
            opened->Err_0 == e && turn->Err_0 == e && saved->Err_0 == e
        },
        response is Ok ==> (opened is Err ==> opened->Err_0 is Remote) && (turn is Err
            ==> turn->Err_0 is Remote) && (saved is Err ==> saved->Err_0 is Remote),
{
}

/// Replies are counted, and failures are not; what a client knows of its conversation stays.
pub proof fn law_replies_are_counted(
    c: &mut RampipedConversation,
    answer: Result<ConversationResponse, RampipedError>,
    r: Result<GenerateOutcome, RampipedError>,
)
    requires
        call_ensures(RampipedConversation::take_reply, (c, answer), r),
    ensures
        r is Ok ==> final(c)@.turns == old(c)@.turns + 1,
        r is Err ==> final(c)@.turns == old(c)@.turns,
        final(c)@.supports_tool_calls == old(c)@.supports_tool_calls,
        r is Ok <==> answer is Ok && answer->Ok_0 is Turn,
        r is Ok ==> {
            &&& r->Ok_0.text@ == answer->Ok_0->text@
            &&& r->Ok_0.tokens_generated == answer->Ok_0->tokens_generated
            &&& r->Ok_0.committed_tokens == answer->Ok_0->committed_tokens
            &&& r->Ok_0.context_size == answer->Ok_0->context_size
            &&& r->Ok_0.tool_calls == answer->Ok_0->tool_calls
            &&& r->Ok_0.truncated_tool_call == answer->Ok_0->truncated_tool_call
            &&& r->Ok_0.formatted_prompt@ == answer->Ok_0->formatted_prompt@
            &&& r->Ok_0.time_to_first_token_ms == answer->Ok_0->time_to_first_token_ms
        },
{
}

/// An answer that was not expected is told in its words, behind whose they are.
pub proof fn law_what_is_told_of_an_unexpected_answer(e: RampipedError, message: Seq<char>)
    ensures
        unexpected(e, message) <==> e is Remote && e->Remote_0@ == message,
        unexpected(e, message) ==> {
            let told = e.words();
            told.len() > message.len() && told.skip(told.len() - message.len()) == message
        },
{
    if unexpected(e, message) {
        reveal_strlit("rampiped reported an error: ");
        assert(e.words().skip(e.words().len() - message.len()) =~= message);
    }
}

/// An error tells its cause, whatever it is, and where the daemon was looked for if it was not there.
pub proof fn law_errors_tell_their_cause(path: String, cause: String)
    ensures
        text::contains((RampipedError::Connect { path, source: cause }).words(), path@),
        text::contains((RampipedError::Connect { path, source: cause }).words(), cause@),
        text::contains(RampipedError::Encode(cause).words(), cause@),
        text::contains(RampipedError::Send(cause).words(), cause@),
        text::contains(RampipedError::Read(cause).words(), cause@),
        text::contains(RampipedError::Decode(cause).words(), cause@),
        text::contains(RampipedError::Remote(cause).words(), cause@),
{
    let none = Seq::<char>::empty();
    let lead = "connecting to rampiped socket "@;
    let link = " (is rampiped running?): "@;
    text::lemma_named(lead + path@ + link, cause@, none);
    assert((RampipedError::Connect { path, source: cause }).words() =~= lead + path@ + (link
        + cause@));
    text::lemma_named(lead, path@, link + cause@);
    text::lemma_named("encoding request to rampiped: "@, cause@, none);
    text::lemma_named("sending request to rampiped: "@, cause@, none);
    text::lemma_named("reading response from rampiped: "@, cause@, none);
    text::lemma_named("decoding response from rampiped: "@, cause@, none);
    text::lemma_named("rampiped reported an error: "@, cause@, none);
}

} // verus!
