//! A daemon that says what it is told to, and records what was said to it.

use vstd::prelude::*;
use crate::client;
use crate::json;
use crate::json::Json;
use crate::protocol::{
    ClientMessage, ConversationRequest, ConversationResponse, ConversationTurnRequest,
    OpenConversationRequest, ToolCall, ToolSpec,
};
use crate::text;
use crate::tool_probe;
use crate::tool_probe::ToolResultSpans;

verus! {

/// One reply that the daemon will give.
#[derive(Debug)]
pub struct Turn {
    pub text: String,
    /// The tool calls that come with it, whether or not `text` holds them.
    pub tool_calls: Vec<ToolCall>,
    /// The reply stops inside a tool call.
    pub truncated_tool_call: bool,
    /// How full the context is afterwards; an estimate where nothing is said.
    pub committed_tokens: Option<usize>,
    /// How big the context is; the script's where nothing is said.
    pub context_size: Option<usize>,
    /// How many tokens it took; an estimate where nothing is said.
    pub tokens_generated: Option<usize>,
}

/// `phrase`, `times` times over.
pub open spec fn repeated(phrase: Seq<char>, times: nat) -> Seq<char>
    decreases times,
{
    if times == 0 {
        Seq::empty()
    } else {
        repeated(phrase, (times - 1) as nat) + phrase
    }
}

/// Nothing but a text.
pub open spec fn plain_turn(t: Turn, s: Seq<char>) -> bool {
    &&& t.text@ == s
    &&& t.tool_calls@.len() == 0
    &&& !t.truncated_tool_call
    &&& t.committed_tokens is None
    &&& t.context_size is None
    &&& t.tokens_generated is None
}

impl Turn {
    /// A reply without tool calls.
    pub fn says(s: &str) -> (r: Self)
        ensures
            plain_turn(r, s@),
    {
        Turn {
            text: s.to_string(),
            tool_calls: Vec::new(),
            truncated_tool_call: false,
            committed_tokens: None,
            context_size: None,
            tokens_generated: None,
        }
    }

    /// A reply that calls one tool.
    pub fn calls(name: &str, arguments: Json) -> (r: Self)
        ensures
            r.text@ == "<tool_call>"@ + name@ + " "@ + json::written(json::normal(arguments@))
                + "</tool_call>"@,
            r.tool_calls@.len() == 1,
            r.tool_calls@[0].name@ == name@,
            r.tool_calls@[0].arguments@ == arguments@,
            !r.truncated_tool_call,
            r.committed_tokens is None,
            r.context_size is None,
            r.tokens_generated is None,
    {
        let mut s: String = "<tool_call>".to_string();
        s.append(name);
        s.append(" ");
        s.append(json::write(&arguments).as_str());
        s.append("</tool_call>");
        let call = ToolCall { name: name.to_string(), arguments };
        Turn {
            text: s,
            tool_calls: vec![call],
            truncated_tool_call: false,
            committed_tokens: None,
            context_size: None,
            tokens_generated: None,
        }
    }

    /// A reply that is cut off inside a tool call: there is a beginning, and no call.
    pub fn truncated(s: &str) -> (r: Self)
        ensures
            r.truncated_tool_call,
            plain_turn((Turn { truncated_tool_call: false, ..r }), s@),
    {
        let mut t: Turn = Turn::says(s);
        t.truncated_tool_call = true;
        t
    }

    /// A reply that says one thing over and over.
    pub fn degenerate(phrase: &str, times: usize) -> (r: Self)
        ensures
            plain_turn(r, repeated(phrase@, times as nat)),
    {
        let mut s: String = String::new();
        let mut i: usize = 0;
        while i < times
            invariant
                i <= times,
                s@ == repeated(phrase@, i as nat),
            decreases times - i,
        {
            s.append(phrase);
            i += 1;
        }
        Turn::says(s.as_str())
    }

    /// This reply, with the context this full afterwards.
    pub fn at_context(self, committed: usize, size: usize) -> (r: Self)
        ensures
            r == (Turn { committed_tokens: Some(committed), context_size: Some(size), ..self }),
    {
        let mut t: Turn = self;
        t.committed_tokens = Some(committed);
        t.context_size = Some(size);
        t
    }
}

/// What the daemon will say, in order.
#[derive(Debug)]
pub struct Script {
    pub turns: Vec<Turn>,
    /// How big the context is, where a reply says nothing else.
    pub context_size: usize,
    /// What a request that carries tools is told.
    pub supports_tool_calls: bool,
}

/// How big the context is, where a script says nothing else.
pub const DEFAULT_CONTEXT: usize = 12288;

impl Script {
    /// A script with the usual context, that supports tool calls.
    pub fn new(turns: Vec<Turn>) -> (r: Self)
        ensures
            r == (Script { turns, context_size: DEFAULT_CONTEXT, supports_tool_calls: true }),
    {
        Script { turns, context_size: DEFAULT_CONTEXT, supports_tool_calls: true }
    }
}

/// Why there is no script.
#[derive(Debug)]
pub enum ScriptError {
    Io { path: String, cause: String },
    Parse { path: String, cause: String },
}

impl ScriptError {
    /// The error in words.
    pub open spec fn words(self) -> Seq<char> {
        match self {
            ScriptError::Io { path, cause } => "reading script "@ + path@ + ": "@ + cause@,
            ScriptError::Parse { path, cause } => "parsing script "@ + path@ + ": "@ + cause@,
        }
    }

    /// The error in words.
    pub fn message(&self) -> (r: String)
        ensures
            r@ == self.words(),
    {
        let (verb, path, cause): (&str, &String, &String) = match self {
            ScriptError::Io { path, cause } => ("reading script ", path, cause),
            ScriptError::Parse { path, cause } => ("parsing script ", path, cause),
        };
        let mut m: String = verb.to_string();
        m.append(path.as_str());
        m.append(": ");
        m.append(cause.as_str());
        m
    }
}

/// What was said to the daemon.
#[derive(Debug, PartialEq, Eq)]
pub enum Said {
    /// A conversation was opened with this system text and these tools.
    Opened { system: Option<String>, tools: Vec<String>, n_ctx: u32 },
    /// A user's turn.
    Message(String),
    /// The results of tool calls, in call order.
    ToolResults(Vec<String>),
}

/// The content of a [`Said`].
pub enum SaidView {
    Opened { system: Option<Seq<char>>, tools: Seq<Seq<char>>, n_ctx: u32 },
    Message(Seq<char>),
    ToolResults(Seq<String>),
}

impl View for Said {
    type V = SaidView;

    open spec fn view(&self) -> SaidView {
        match *self {
            Said::Opened { system, tools, n_ctx } => SaidView::Opened {
                system: tool_probe::text_option(system),
                tools: client::texts_view(tools@),
                n_ctx,
            },
            Said::Message(s) => SaidView::Message(s@),
            Said::ToolResults(results) => SaidView::ToolResults(results@),
        }
    }
}

/// The contents of a list of entries.
pub open spec fn transcript_view(said: Seq<Said>) -> Seq<SaidView> {
    Seq::new(said.len(), |i: int| said[i]@)
}

/// `parts` with `separator` between them.
pub open spec fn joined(parts: Seq<String>, separator: Seq<char>) -> Seq<char> {
    tool_probe::joined_parts(parts, separator, parts.len() as int)
}

/// `parts` with `separator` between them.
pub fn join(parts: &[String], separator: &str) -> (r: String)
    ensures
        r@ == joined(parts@, separator@),
{
    let spans: ToolResultSpans = ToolResultSpans {
        open: String::new(),
        separator: separator.to_string(),
        close: String::new(),
    };
    let r: String = spans.render(parts);
    assert(r@ =~= joined(parts@, separator@));
    r
}

impl SaidView {
    /// The text of the entry.
    pub open spec fn words(self) -> Seq<char> {
        match self {
            SaidView::Opened { system, .. } => match system {
                Some(s) => s,
                None => Seq::empty(),
            },
            SaidView::Message(s) => s,
            SaidView::ToolResults(results) => joined(results, "\n"@),
        }
    }
}

impl Said {
    /// The text of this entry, whatever kind it is.
    pub fn text(&self) -> (r: String)
        ensures
            r@ == self@.words(),
    {
        match self {
            Said::Opened { system, .. } => match system {
                Some(s) => s.clone(),
                None => String::new(),
            },
            Said::Message(s) => s.clone(),
            Said::ToolResults(results) => join(results.as_slice(), "\n"),
        }
    }
}

impl Clone for Said {
    fn clone(&self) -> (r: Self)
        ensures
            r@ == self@,
    {
        match self {
            Said::Opened { system, tools, n_ctx } => {
                let system: Option<String> = match system {
                    Some(s) => Some(s.clone()),
                    None => None,
                };
                Said::Opened { system, tools: client::copy_texts(tools.as_slice()), n_ctx: *n_ctx }
            },
            Said::Message(s) => Said::Message(s.clone()),
            Said::ToolResults(results) => Said::ToolResults(client::copy_texts(results.as_slice())),
        }
    }
}

/// Roughly four bytes per token.
pub open spec fn estimate(s: Seq<char>) -> int {
    (text::byte_len(s) as int + 3) / 4
}

/// Roughly how many tokens a text takes.
pub fn estimate_tokens(s: &str) -> (r: usize)
    ensures
        r == estimate(s@),
{
    let n: usize = s.as_bytes().len();
    n / 4 + if n % 4 == 0 {
        0
    } else {
        1
    }
}

/// The names of tools.
pub open spec fn tool_names(tools: Seq<ToolSpec>) -> Seq<Seq<char>> {
    Seq::new(tools.len(), |i: int| tools[i].function.name@)
}

/// What opening a conversation says.
pub open spec fn opening_said(open: OpenConversationRequest) -> SaidView {
    SaidView::Opened {
        system: tool_probe::text_option(open.system),
        tools: tool_names(open.tools@),
        n_ctx: open.n_ctx,
    }
}

/// What opening a conversation says.
pub fn said_opened(open: &OpenConversationRequest) -> (r: Said)
    ensures
        r@ == opening_said(*open),
{
    let mut names: Vec<String> = Vec::new();
    let mut i: usize = 0;
    while i < open.tools.len()
        invariant
            i <= open.tools.len(),
            names@.len() == i,
            forall|j: int| 0 <= j < i ==> (#[trigger] names@[j])@ == open.tools@[j].function.name@,
        decreases open.tools.len() - i,
    {
        names.push(open.tools[i].function.name.clone());
        i += 1;
    }
    assert(client::texts_view(names@) =~= tool_names(open.tools@));
    let system: Option<String> = match &open.system {
        Some(s) => Some(s.clone()),
        None => None,
    };
    Said::Opened { system, tools: names, n_ctx: open.n_ctx }
}

/// What a turn says.
pub open spec fn turn_said<N>(turn: ConversationTurnRequest<N>) -> SaidView {
    match turn.tool_results {
        Some(results) => SaidView::ToolResults(results@),
        None => SaidView::Message(turn.message@),
    }
}

/// What a turn says.
pub fn said_turn<N>(turn: &ConversationTurnRequest<N>) -> (r: Said)
    ensures
        r@ == turn_said(*turn),
{
    match &turn.tool_results {
        Some(results) => Said::ToolResults(client::copy_texts(results.as_slice())),
        None => Said::Message(turn.message.clone()),
    }
}

/// A daemon that replays a script, without its socket.
#[derive(Debug)]
pub struct ScriptedDaemon {
    script: Script,
    transcript: Vec<Said>,
    /// How many replies were asked for, those that the script does not have among them.
    served: usize,
}

/// The content of a [`ScriptedDaemon`].
#[verifier::ext_equal]
pub struct ScriptedView {
    pub script: Script,
    pub transcript: Seq<SaidView>,
    /// How many replies were asked for, those that the script does not have among them.
    pub served: int,
}

impl View for ScriptedDaemon {
    type V = ScriptedView;

    closed spec fn view(&self) -> ScriptedView {
        ScriptedView {
            script: self.script,
            transcript: transcript_view(self.transcript@),
            served: self.served as int,
        }
    }
}

impl ScriptedView {
    /// Whoever asks for a reply has said something.
    pub open spec fn wf(self) -> bool {
        0 <= self.served <= self.transcript.len()
    }

    /// How many of the script's turns were used up.
    pub open spec fn consumed(self) -> int {
        if self.served <= self.script.turns@.len() {
            self.served
        } else {
            self.script.turns@.len() as int
        }
    }

    /// After something was said.
    pub open spec fn heard(self, said: SaidView) -> ScriptedView {
        ScriptedView { transcript: self.transcript.push(said), ..self }
    }

    /// After a turn that said something was answered.
    pub open spec fn answered(self, said: SaidView) -> ScriptedView {
        ScriptedView { served: self.served + 1, ..self.heard(said) }
    }
}

/// One connection: how full its context is by now.
#[derive(Debug)]
pub struct Session {
    pub committed: usize,
}

/// What came in on a connection after it was opened.
#[derive(Debug)]
pub enum Incoming<N> {
    /// Nothing but white space.
    Blank,
    /// Something that is no request.
    Undecodable(String),
    Request(ConversationRequest<N>),
}

/// An answer, where there is one, and whether the connection goes on.
#[derive(Debug)]
pub struct Answer {
    pub response: Option<ConversationResponse>,
    pub goes_on: bool,
}

/// How many tokens a scripted reply takes.
pub open spec fn generated_by(t: Turn) -> int {
    match t.tokens_generated {
        Some(n) => n as int,
        None => estimate(t.text@),
    }
}

/// `response` is the scripted reply `t`, in a context that holds `committed` tokens by the running
/// estimate.
pub open spec fn is_reply(
    response: ConversationResponse,
    t: Turn,
    committed: int,
    script_context: usize,
) -> bool {
    match response {
        ConversationResponse::Turn {
            text: s,
            tokens_generated,
            committed_tokens,
            context_size,
            time_to_first_token_ms,
            tool_calls,
            truncated_tool_call,
            formatted_prompt,
        } => {
            &&& s@ == t.text@
            &&& tokens_generated == generated_by(t)
            &&& committed_tokens == (match t.committed_tokens {
                Some(n) => n as int,
                None => committed,
            })
            &&& context_size == (match t.context_size {
                Some(n) => n,
                None => script_context,
            })
            &&& time_to_first_token_ms == 0
            &&& crate::protocol::calls_view(tool_calls@) == crate::protocol::calls_view(
                t.tool_calls@,
            )
            &&& truncated_tool_call == t.truncated_tool_call
            &&& formatted_prompt@.len() == 0
        },
        _ => false,
    }
}

/// `response` reports a failure in these words.
pub open spec fn fails_with(response: Option<ConversationResponse>, message: Seq<char>) -> bool {
    match response {
        Some(ConversationResponse::Failed { message: m }) => m@ == message,
        _ => false,
    }
}

/// What is said where a script has no reply left.
pub open spec fn ran_out(turns: nat, asked_for: nat) -> Seq<char> {
    "scripted rampiped ran out: the script has "@ + text::decimal(turns)
        + " turn(s) and the harness asked for turn "@ + text::decimal(asked_for)
}

impl ScriptedView {
    /// What is answered to `incoming` on a connection whose context holds `committed` tokens by the
    /// running estimate, and what the daemon and that estimate are then.
    pub open spec fn answers<N>(
        self,
        committed: int,
        incoming: Incoming<N>,
        answer: Answer,
        after: ScriptedView,
        then: int,
    ) -> bool {
        match incoming {
            Incoming::Blank => answer.response is None && answer.goes_on && after == self && then
                == committed,
            Incoming::Undecodable(line) => fails_with(
                answer.response,
                "scripted rampiped could not decode: "@ + line@,
            ) && !answer.goes_on && after == self && then == committed,
            Incoming::Request(ConversationRequest::Snapshot(_)) => answer.response == Some(
                ConversationResponse::Snapshotted,
            ) && !answer.goes_on && after == self && then == committed,
            Incoming::Request(ConversationRequest::Turn(turn)) => {
                let said = turn_said(turn);
                let heard = committed + estimate(said.words());
                &&& after == self.answered(said)
                &&& if self.served < self.script.turns@.len() {
                    let t = self.script.turns@[self.served];
                    &&& then == heard + generated_by(t)
                    &&& answer.goes_on
                    &&& answer.response is Some
                    &&& is_reply(answer.response->0, t, then, self.script.context_size)
                } else {
                    &&& then == heard
                    &&& !answer.goes_on
                    &&& fails_with(
                        answer.response,
                        ran_out(self.script.turns@.len(), (self.served + 1) as nat),
                    )
                }
            },
        }
    }
}

/// A failure.
fn failure(message: String, goes_on: bool) -> (r: Answer)
    ensures
        fails_with(r.response, message@),
        r.goes_on == goes_on,
{
    Answer { response: Some(ConversationResponse::Failed { message }), goes_on }
}

/// The same calls again.
fn copy_calls(calls: &Vec<ToolCall>) -> (r: Vec<ToolCall>)
    ensures
        crate::protocol::calls_view(r@) == crate::protocol::calls_view(calls@),
{
    let mut r: Vec<ToolCall> = Vec::new();
    let mut i: usize = 0;
    while i < calls.len()
        invariant
            i <= calls.len(),
            r@.len() == i,
            forall|j: int| 0 <= j < i ==> (#[trigger] r@[j])@ == calls@[j]@,
        decreases calls.len() - i,
    {
        r.push(calls[i].clone());
        i += 1;
    }
    assert(crate::protocol::calls_view(r@) =~= crate::protocol::calls_view(calls@));
    r
}

impl ScriptedDaemon {
    /// A daemon that nothing was said to yet.
    pub fn new(script: Script) -> (r: Self)
        ensures
            r@ == (ScriptedView { script, transcript: Seq::empty(), served: 0 }),
            r@.wf(),
    {
        let r = ScriptedDaemon { script, transcript: Vec::new(), served: 0 };
        assert(r@.transcript =~= Seq::empty());
        r
    }

    /// Everything that was said to the daemon, in order.
    pub fn transcript(&self) -> (r: Vec<Said>)
        ensures
            transcript_view(r@) == self@.transcript,
    {
        let mut r: Vec<Said> = Vec::new();
        let mut i: usize = 0;
        while i < self.transcript.len()
            invariant
                i <= self.transcript.len(),
                r@.len() == i,
                forall|j: int| 0 <= j < i ==> (#[trigger] r@[j])@ == self.transcript@[j]@,
            decreases self.transcript.len() - i,
        {
            r.push(self.transcript[i].clone());
            i += 1;
        }
        assert(transcript_view(r@) =~= transcript_view(self.transcript@));
        r
    }

    /// How many of the script's turns were used up.
    pub fn turns_served(&self) -> (r: usize)
        ensures
            r == self@.consumed(),
            r <= self@.script.turns@.len(),
    {
        if self.served <= self.script.turns.len() {
            self.served
        } else {
            self.script.turns.len()
        }
    }

    /// Whether a reply was asked for that the script does not have.
    pub fn has_run_out(&self) -> (r: bool)
        ensures
            r == (self@.served > self@.script.turns@.len()),
    {
        self.served > self.script.turns.len()
    }

    /// The system text that a conversation was opened with, if any was.
    pub fn system_block(&self) -> (r: Option<String>)
        ensures
            tool_probe::text_option(r) == first_system(self@.transcript, 0),
    {
        let mut i: usize = 0;
        while i < self.transcript.len()
            invariant
                i <= self.transcript.len(),
                self@.transcript.len() == self.transcript@.len(),
                first_system(self@.transcript, 0) == first_system(self@.transcript, i as int),
            decreases self.transcript.len() - i,
        {
            assert(self@.transcript[i as int] == self.transcript@[i as int]@);
            match &self.transcript[i] {
                Said::Opened { system, .. } => match system {
                    Some(s) => {
                        return Some(s.clone());
                    },
                    None => {},
                },
                _ => {},
            }
            i += 1;
        }
        None
    }

    /// Enters what was said.
    fn record(&mut self, said: Said)
        ensures
            final(self)@ == old(self)@.heard(said@),
    {
        let ghost before = self@;
        self.transcript.push(said);
        assert(self@.transcript =~= before.transcript.push(said@));
    }

    /// Answers the first message on a connection; `None` stands for one that is no message at all.
    /// Only conversations are served. Returns the connection where one is opened.
    pub fn open<N>(&mut self, message: Option<ClientMessage<N>>) -> (r: (
        ConversationResponse,
        Option<Session>,
    ))
        ensures
            old(self)@.wf() ==> final(self)@.wf(),
            match message {
                Some(ClientMessage::OpenConversation(open)) => {
                    &&& final(self)@ == old(self)@.heard(opening_said(open))
                    &&& r.0 == (if open.tools@.len() == 0 {
                        ConversationResponse::Opened
                    } else {
                        ConversationResponse::OpenedWithTools {
                            supports_tool_calls: old(self)@.script.supports_tool_calls,
                        }
                    })
                    &&& r.1 matches Some(s) && s.committed == estimate(opening_said(open).words())
                },
                _ => {
                    &&& final(self)@ == old(self)@
                    &&& fails_with(
                        Some(r.0),
                        "this is a scripted rampiped -- it serves conversations only"@,
                    )
                    &&& r.1 is None
                },
            },
    {
        match message {
            Some(ClientMessage::OpenConversation(open)) => {
                let said: Said = said_opened(&open);
                let committed: usize = estimate_tokens(said.text().as_str());
                self.record(said);
                let response: ConversationResponse = crate::protocol::opened_response(
                    open.tools.len(),
                    self.script.supports_tool_calls,
                );
                (response, Some(Session { committed }))
            },
            _ => (
                ConversationResponse::Failed {
                    message: "this is a scripted rampiped -- it serves conversations only".to_string(),
                },
                None,
            ),
        }
    }

    /// Answers what came in on an open connection: the next reply of the script to a turn, which is
    /// recorded; a failure, loudly, where the script has none left or the line is no request. A
    /// connection ends with a failure and once a conversation is saved.
    pub fn answer<N>(&mut self, session: &mut Session, incoming: Incoming<N>) -> (r: Answer)
        requires
            old(self)@.wf(),
            incoming matches Incoming::Request(ConversationRequest::Turn(turn)) ==> {
                let heard = old(session).committed + estimate(turn_said(turn).words());
                &&& heard <= usize::MAX
                &&& old(self)@.served < old(self)@.script.turns@.len() ==> heard + generated_by(
                    old(self)@.script.turns@[old(self)@.served],
                ) <= usize::MAX
            },
        ensures
            old(self)@.answers(
                old(session).committed as int,
                incoming,
                r,
                final(self)@,
                final(session).committed as int,
            ),
            final(self)@.wf(),
    {
        let turn: ConversationTurnRequest<N> = match incoming {
            Incoming::Blank => {
                return Answer { response: None, goes_on: true };
            },
            Incoming::Undecodable(line) => {
                let mut m: String = "scripted rampiped could not decode: ".to_string();
                m.append(line.as_str());
                return failure(m, false);
            },
            Incoming::Request(ConversationRequest::Snapshot(_)) => {
                return Answer {
                    response: Some(ConversationResponse::Snapshotted),
                    goes_on: false,
                };
            },
            Incoming::Request(ConversationRequest::Turn(turn)) => turn,
        };
        let said: Said = said_turn(&turn);
        let heard: usize = session.committed + estimate_tokens(said.text().as_str());
        self.record(said);
        session.committed = heard;
        let at: usize = self.served;
        assert(at < self@.transcript.len() == self.transcript.len());
        self.served = self.served + 1;
        if at >= self.script.turns.len() {
            let mut m: String = "scripted rampiped ran out: the script has ".to_string();
            m.append(text::number(self.script.turns.len() as u64).as_str());
            m.append(" turn(s) and the harness asked for turn ");
            m.append(text::number((at + 1) as u64).as_str());
            return failure(m, false);
        }
        let t: &Turn = &self.script.turns[at];
        let generated: usize = match t.tokens_generated {
            Some(n) => n,
            None => estimate_tokens(t.text.as_str()),
        };
        session.committed = heard + generated;
        let response = ConversationResponse::Turn {
            text: t.text.clone(),
            tokens_generated: generated,
            committed_tokens: match t.committed_tokens {
                Some(n) => n,
                None => session.committed,
            },
            context_size: match t.context_size {
                Some(n) => n,
                None => self.script.context_size,
            },
            time_to_first_token_ms: 0,
            tool_calls: copy_calls(&t.tool_calls),
            truncated_tool_call: t.truncated_tool_call,
            formatted_prompt: String::new(),
        };
        Answer { response: Some(response), goes_on: true }
    }
}

/// The system text of the first entry at or after `from` that opened a conversation with one.
pub open spec fn first_system(transcript: Seq<SaidView>, from: int) -> Option<Seq<char>>
    decreases transcript.len() - from,
{
    if from < 0 || from >= transcript.len() {
        None
    } else {
        match transcript[from] {
            SaidView::Opened { system: Some(s), .. } => Some(s),
            _ => first_system(transcript, from + 1),
        }
    }
}

/// What `v` has become once turns that said this were answered.
pub open spec fn after_turns(v: ScriptedView, said: Seq<SaidView>) -> ScriptedView
    decreases said.len(),
{
    if said.len() == 0 {
        v
    } else {
        after_turns(v, said.drop_last()).answered(said.last())
    }
}

/// A script is replayed in order, one reply for each turn, and everything that was said stands in
/// the transcript, in order, behind what stood there.
pub proof fn law_a_script_is_replayed_in_order(v: ScriptedView, said: Seq<SaidView>)
    ensures
        after_turns(v, said).served == v.served + said.len(),
        after_turns(v, said).script == v.script,
        after_turns(v, said).transcript == v.transcript + said,
    decreases said.len(),
{
    if said.len() == 0 {
        assert(v.transcript + said =~= v.transcript);
    } else {
        law_a_script_is_replayed_in_order(v, said.drop_last());
        assert(after_turns(v, said).transcript =~= v.transcript + said);
    }
}

/// The system text that a conversation is opened with is found, whatever is said afterwards.
pub proof fn law_the_system_block_is_found(
    v: ScriptedView,
    system: Seq<char>,
    tools: Seq<Seq<char>>,
    n_ctx: u32,
    said: Seq<SaidView>,
)
    requires
        v.transcript.len() == 0,
    ensures
        ({
            let opened = v.heard(SaidView::Opened { system: Some(system), tools, n_ctx });
            first_system(after_turns(opened, said).transcript, 0) == Some(system)
        }),
{
    let opened = v.heard(SaidView::Opened { system: Some(system), tools, n_ctx });
    law_a_script_is_replayed_in_order(opened, said);
    assert(after_turns(opened, said).transcript[0] == opened.transcript[0]);
}

/// A connection after it was opened: what came in, what was answered to it, and what the daemon and
/// the running estimate were before each of these and at the end.
#[verifier::reject_recursive_types(N)]
pub struct Run<N> {
    pub incoming: Seq<Incoming<N>>,
    pub answers: Seq<Answer>,
    pub daemon: Seq<ScriptedView>,
    pub committed: Seq<int>,
}

/// What the turns among `incoming` say. Nothing else says anything.
pub open spec fn said_in<N>(incoming: Seq<Incoming<N>>) -> Seq<SaidView>
    decreases incoming.len(),
{
    if incoming.len() == 0 {
        Seq::empty()
    } else {
        let before = said_in(incoming.drop_last());
        match incoming.last() {
            Incoming::Request(ConversationRequest::Turn(turn)) => before.push(turn_said(turn)),
            _ => before,
        }
    }
}

/// How many of these are replies to turns.
pub open spec fn replies_in(answers: Seq<Answer>) -> int
    decreases answers.len(),
{
    if answers.len() == 0 {
        0
    } else {
        let before = replies_in(answers.drop_last());
        if answers.last().response matches Some(ConversationResponse::Turn { .. }) {
            before + 1
        } else {
            before
        }
    }
}

/// What turns that said this add to a context: each what it said and what was generated for it, the
/// first of them by the reply at `from`.
pub open spec fn taken_up(turns: Seq<Turn>, from: int, said: Seq<SaidView>) -> int
    decreases said.len(),
{
    if said.len() == 0 {
        0
    } else {
        let at = from + said.len() - 1;
        taken_up(turns, from, said.drop_last()) + estimate(said.last().words()) + if at
            < turns.len() {
            generated_by(turns[at])
        } else {
            0
        }
    }
}

impl<N> Run<N> {
    /// Everything that came in was answered as the daemon answers.
    pub open spec fn holds(self) -> bool {
        &&& self.answers.len() == self.incoming.len()
        &&& self.daemon.len() == self.incoming.len() + 1
        &&& self.committed.len() == self.incoming.len() + 1
        &&& forall|i: int|
            0 <= i < self.incoming.len() ==> #[trigger] self.answered_at(i)
    }

    /// What came in at `i` was answered as the daemon answers.
    pub open spec fn answered_at(self, i: int) -> bool {
        self.daemon[i].answers(
            self.committed[i],
            self.incoming[i],
            self.answers[i],
            self.daemon[i + 1],
            self.committed[i + 1],
        )
    }
}

/// The transcript of a connection is its turns, in order, each as what it said, behind what stood
/// there before; saved conversations, blank lines and lines that are no request leave no trace in
/// it, and use up nothing of the script.
pub proof fn law_the_transcript_is_what_was_said<N>(run: Run<N>, n: int)
    requires
        run.holds(),
        0 <= n <= run.incoming.len(),
    ensures
        run.daemon[n] == after_turns(run.daemon[0], said_in(run.incoming.take(n))),
        run.daemon[n].transcript == run.daemon[0].transcript + said_in(run.incoming.take(n)),
        run.daemon[n].served == run.daemon[0].served + said_in(run.incoming.take(n)).len(),
        run.daemon[n].script == run.daemon[0].script,
    decreases n,
{
    let said = said_in(run.incoming.take(n));
    if n > 0 {
        law_the_transcript_is_what_was_said(run, n - 1);
        assert(run.answered_at(n - 1));
        assert(run.incoming.take(n).drop_last() =~= run.incoming.take(n - 1));
        if run.incoming[n - 1] is Request && run.incoming[n - 1]->Request_0 is Turn {
            assert(said.drop_last() =~= said_in(run.incoming.take(n - 1)));
        }
    }
    law_a_script_is_replayed_in_order(run.daemon[0], said);
}

/// The running estimate is the sum of all that was said and generated on the connection, behind what
/// was there when it was opened.
pub proof fn law_the_estimate_adds_up<N>(run: Run<N>, n: int)
    requires
        run.holds(),
        0 <= n <= run.incoming.len(),
    ensures
        run.committed[n] == run.committed[0] + taken_up(
            run.daemon[0].script.turns@,
            run.daemon[0].served,
            said_in(run.incoming.take(n)),
        ),
    decreases n,
{
    if n > 0 {
        law_the_estimate_adds_up(run, n - 1);
        law_the_transcript_is_what_was_said(run, n - 1);
        assert(run.answered_at(n - 1));
        let said = said_in(run.incoming.take(n));
        assert(run.incoming.take(n).drop_last() =~= run.incoming.take(n - 1));
        if run.incoming[n - 1] is Request && run.incoming[n - 1]->Request_0 is Turn {
            assert(said.drop_last() =~= said_in(run.incoming.take(n - 1)));
        }
    }
}

/// A conversation from its opening on: the transcript gains the opening and then the turns, and the
/// context holds the system text and all that was said and generated.
pub proof fn law_a_conversation_adds_up<N>(
    before: ScriptedView,
    open: OpenConversationRequest,
    run: Run<N>,
    n: int,
)
    requires
        run.holds(),
        run.daemon[0] == before.heard(opening_said(open)),
        run.committed[0] == estimate(opening_said(open).words()),
        0 <= n <= run.incoming.len(),
    ensures
        run.daemon[n].transcript == before.transcript + seq![opening_said(open)] + said_in(
            run.incoming.take(n),
        ),
        run.committed[n] == estimate(opening_said(open).words()) + taken_up(
            before.script.turns@,
            before.served,
            said_in(run.incoming.take(n)),
        ),
{
    law_the_transcript_is_what_was_said(run, n);
    law_the_estimate_adds_up(run, n);
    assert(before.transcript.push(opening_said(open)) =~= before.transcript
        + seq![opening_said(open)]);
}

/// The reply to a turn is the script's next, with the running estimate up to it where the script
/// says nothing else; where the script has none left, the answer says so.
pub proof fn law_turns_are_answered_by_the_script<N>(run: Run<N>, i: int)
    requires
        run.holds(),
        0 <= i < run.incoming.len(),
        run.incoming[i] matches Incoming::Request(ConversationRequest::Turn(_)),
    ensures
        ({
            let script = run.daemon[0].script;
            let said = said_in(run.incoming.take(i + 1));
            let at = run.daemon[0].served + said.len() - 1;
            if at < script.turns@.len() {
                run.answers[i].response is Some && is_reply(
                    run.answers[i].response->0,
                    script.turns@[at],
                    run.committed[0] + taken_up(script.turns@, run.daemon[0].served, said),
                    script.context_size,
                )
            } else {
                fails_with(
                    run.answers[i].response,
                    ran_out(script.turns@.len(), (at + 1) as nat),
                )
            }
        }),
{
    law_the_transcript_is_what_was_said(run, i);
    law_the_estimate_adds_up(run, i + 1);
    assert(run.answered_at(i));
    assert(run.incoming.take(i + 1).drop_last() =~= run.incoming.take(i));
}

/// As many of the script's turns are used up as replies are given, and never more than it has.
pub proof fn law_replies_use_up_the_script<N>(run: Run<N>, n: int)
    requires
        run.holds(),
        0 <= n <= run.incoming.len(),
    ensures
        run.daemon[n].consumed() == run.daemon[0].consumed() + replies_in(run.answers.take(n)),
        run.daemon[n].consumed() <= run.daemon[0].script.turns@.len(),
    decreases n,
{
    law_the_transcript_is_what_was_said(run, n);
    if n > 0 {
        law_replies_use_up_the_script(run, n - 1);
        law_the_transcript_is_what_was_said(run, n - 1);
        assert(run.answered_at(n - 1));
        assert(run.answers.take(n).drop_last() =~= run.answers.take(n - 1));
    }
}

/// A phrase that is said over and over is as often there as it was asked for.
pub proof fn law_a_phrase_is_repeated(phrase: Seq<char>, a: nat, b: nat)
    ensures
        repeated(phrase, 0).len() == 0,
        repeated(phrase, 1) == phrase,
        repeated(phrase, a + b) == repeated(phrase, a) + repeated(phrase, b),
    decreases b,
{
    assert(repeated(phrase, 1) =~= phrase) by {
        reveal_with_fuel(repeated, 2);
    }
    if b > 0 {
        law_a_phrase_is_repeated(phrase, a, (b - 1) as nat);
        assert((a + b - 1) as nat == a + (b - 1) as nat);
        assert(repeated(phrase, a + b) =~= repeated(phrase, a) + repeated(phrase, b));
    } else {
        assert(repeated(phrase, a + b) =~= repeated(phrase, a) + repeated(phrase, b));
    }
}

/// The estimate is one token for every four bytes, the last of them for what is left; so a text takes
/// none only if it is empty, and one that is longer takes no fewer.
pub proof fn law_four_bytes_are_a_token(s: Seq<char>, more: Seq<char>)
    ensures
        4 * estimate(s) - 4 < text::byte_len(s) <= 4 * estimate(s),
        estimate(s) == 0 <==> text::byte_len(s) == 0,
        estimate(s) <= estimate(s + more) <= estimate(s) + estimate(more),
{
    text::law_byte_offsets_mark_off_parts(s, more, Seq::empty());
}

/// What is said is what is in it: of an opening its system text, of a message the message, and of
/// results all of them, one to a line.
pub proof fn law_what_an_entry_says(
    system: Seq<char>,
    tools: Seq<Seq<char>>,
    n_ctx: u32,
    results: Seq<String>,
    last: String,
)
    ensures
        (SaidView::Opened { system: Some(system), tools, n_ctx }).words() == system,
        (SaidView::Opened { system: None, tools, n_ctx }).words().len() == 0,
        SaidView::Message(system).words() == system,
        SaidView::ToolResults(Seq::<String>::empty()).words().len() == 0,
        SaidView::ToolResults(seq![last]).words() == last@,
        results.len() > 0 ==> SaidView::ToolResults(results.push(last)).words()
            == SaidView::ToolResults(results).words() + seq!['\n'] + last@,
{
    reveal_strlit("\n");
    assert("\n"@ =~= seq!['\n']);
    let n = results.len() as int;
    if n > 0 {
        lemma_joined_prefix(results, last, "\n"@, n);
    }
}

proof fn lemma_joined_prefix(parts: Seq<String>, last: String, separator: Seq<char>, n: int)
    requires
        0 <= n <= parts.len(),
    ensures
        tool_probe::joined_parts(parts.push(last), separator, n) == tool_probe::joined_parts(
            parts,
            separator,
            n,
        ),
    decreases n,
{
    if n > 0 {
        lemma_joined_prefix(parts, last, separator, n - 1);
        assert(parts.push(last)[n - 1] == parts[n - 1]);
        assert(parts.push(last)[0] == parts[0]);
    }
}

/// What opens a conversation is entered with its system text, the names of its tools in order and the
/// size of its context; a turn is entered as its results where it has any, else as its message.
pub proof fn law_what_is_entered<N>(
    open: OpenConversationRequest,
    turn: ConversationTurnRequest<N>,
    i: int,
)
    ensures
        opening_said(open) is Opened,
        opening_said(open)->n_ctx == open.n_ctx,
        opening_said(open)->tools.len() == open.tools@.len(),
        0 <= i < open.tools@.len() ==> opening_said(open)->tools[i] == open.tools@[i].function.name@,
        open.system is None ==> opening_said(open)->system is None,
        open.system matches Some(s) ==> opening_said(open)->system == Some(s@),
        turn.tool_results matches Some(results) ==> turn_said(turn) == SaidView::ToolResults(
            results@,
        ),
        turn.tool_results is None ==> turn_said(turn) == SaidView::Message(turn.message@),
{
}

/// What a script's turns were used up for is each reply once, as long as there are any.
pub proof fn law_turns_are_used_up_once(v: ScriptedView, said: SaidView)
    ensures
        v.served < v.script.turns@.len() ==> v.answered(said).consumed() == v.consumed() + 1,
        v.served >= v.script.turns@.len() ==> v.answered(said).consumed() == v.script.turns@.len(),
        v.served == 0 ==> v.consumed() == 0,
        v.heard(said).consumed() == v.consumed(),
        v.heard(said).transcript.len() == v.transcript.len() + 1,
        v.heard(said).transcript.last() == said,
{
}

/// A reply says what the script has for it, and counts what the script says or else what the running
/// estimate comes to.
pub proof fn law_what_a_scripted_reply_says(
    response: ConversationResponse,
    t: Turn,
    committed: int,
    context: usize,
)
    requires
        is_reply(response, t, committed, context),
    ensures
        response is Turn,
        response->text@ == t.text@,
        response->tool_calls@.len() == t.tool_calls@.len(),
        forall|i: int|
            0 <= i < t.tool_calls@.len() ==> (#[trigger] response->tool_calls@[i])@
                == t.tool_calls@[i]@,
        response->truncated_tool_call == t.truncated_tool_call,
        t.tokens_generated matches Some(n) ==> response->tokens_generated == n,
        t.tokens_generated is None ==> response->tokens_generated == estimate(t.text@),
        t.committed_tokens matches Some(n) ==> response->committed_tokens == n,
        t.committed_tokens is None ==> response->committed_tokens == committed,
        t.context_size matches Some(n) ==> response->context_size == n,
        t.context_size is None ==> response->context_size == context,
        response->time_to_first_token_ms == 0,
        response->formatted_prompt@.len() == 0,
{
    let a = crate::protocol::calls_view(response->tool_calls@);
    let b = crate::protocol::calls_view(t.tool_calls@);
    assert(a.len() == b.len());
    assert forall|i: int| 0 <= i < t.tool_calls@.len() implies (#[trigger] response->tool_calls@[i])@
        == t.tool_calls@[i]@ by {
        assert(a[i] == b[i]);
    }
}

/// A connection goes on after a blank line and after a reply, and after nothing else; only a turn is
/// entered, and only a turn takes up anything.
pub proof fn law_when_a_connection_goes_on<N>(
    v: ScriptedView,
    committed: int,
    incoming: Incoming<N>,
    answer: Answer,
    after: ScriptedView,
    then: int,
)
    requires
        v.answers(committed, incoming, answer, after, then),
    ensures
        answer.response is None <==> incoming is Blank,
        answer.goes_on <==> incoming is Blank || answer.response is Some && answer.response->0
            is Turn,
        answer.response is Some && answer.response->0 is Turn <==> incoming is Request
            && incoming->Request_0 is Turn && v.served < v.script.turns@.len(),
        answer.response is Some && answer.response->0 is Snapshotted <==> incoming is Request
            && incoming->Request_0 is Snapshot,
        !(incoming is Request && incoming->Request_0 is Turn) ==> after == v && then == committed,
        incoming is Undecodable ==> answer.response is Some && answer.response->0 is Failed && {
            let said = answer.response->0->Failed_message@;
            let line = incoming->Undecodable_0@;
            said.len() > line.len() && said.skip(said.len() - line.len()) == line
        },
{
    if incoming is Undecodable {
        reveal_strlit("scripted rampiped could not decode: ");
        let line = incoming->Undecodable_0@;
        let said = "scripted rampiped could not decode: "@ + line;
        assert(said.skip(said.len() - line.len()) =~= line);
    }
}

/// The system text that is found is that of the first opening that has one; none where none has.
pub proof fn law_the_first_system_text_is_found(transcript: Seq<SaidView>, i: int)
    ensures
        0 <= i < transcript.len() && opens_with_system(transcript[i]) && (forall|j: int|
            0 <= j < i ==> !opens_with_system(#[trigger] transcript[j])) ==> first_system(
            transcript,
            0,
        ) == Some(transcript[i].words()),
        (forall|j: int| 0 <= j < transcript.len() ==> !opens_with_system(#[trigger] transcript[j]))
            ==> first_system(transcript, 0) is None,
{
    if 0 <= i < transcript.len() && opens_with_system(transcript[i]) && (forall|j: int|
        0 <= j < i ==> !opens_with_system(#[trigger] transcript[j])) {
        lemma_first_system(transcript, 0, i);
    }
    if forall|j: int| 0 <= j < transcript.len() ==> !opens_with_system(#[trigger] transcript[j]) {
        lemma_first_system(transcript, 0, transcript.len() as int);
    }
}

/// An entry is an opening with a system text.
pub open spec fn opens_with_system(said: SaidView) -> bool {
    said is Opened && said->system is Some
}

proof fn lemma_first_system(transcript: Seq<SaidView>, from: int, i: int)
    requires
        0 <= from <= i <= transcript.len(),
        i < transcript.len() ==> opens_with_system(transcript[i]),
        forall|j: int| from <= j < i ==> !opens_with_system(#[trigger] transcript[j]),
    ensures
        i < transcript.len() ==> first_system(transcript, from) == Some(transcript[i].words()),
        i == transcript.len() ==> first_system(transcript, from) is None,
    decreases i - from,
{
    if from < i {
        assert(!opens_with_system(transcript[from]));
        lemma_first_system(transcript, from + 1, i);
    }
}

/// A scripted reply is what it is made of: a text alone, a call alone, or the beginning of one.
pub proof fn law_what_a_script_is_made_of(
    s: &str,
    said: Turn,
    cut: Turn,
    name: &str,
    arguments: Json,
    call: Turn,
    size: usize,
    committed: usize,
    placed: Turn,
)
    requires
        call_ensures(Turn::says, (s,), said),
        call_ensures(Turn::truncated, (s,), cut),
        call_ensures(Turn::calls, (name, arguments), call),
        call_ensures(Turn::at_context, (said, committed, size), placed),
    ensures
        said.text@ == s@,
        said.tool_calls@.len() == 0,
        !said.truncated_tool_call,
        said.tokens_generated is None,
        said.committed_tokens is None,
        said.context_size is None,
        cut.text@ == s@,
        cut.tool_calls@.len() == 0,
        cut.truncated_tool_call,
        call.tool_calls@.len() == 1,
        call.tool_calls@[0].name@ == name@,
        call.tool_calls@[0].arguments@ == arguments@,
        !call.truncated_tool_call,
        placed.text@ == s@,
        placed.committed_tokens == Some(committed),
        placed.context_size == Some(size),
{
}

/// A script has its replies in order, the usual context, and supports calls.
pub proof fn law_how_a_script_begins(turns: Vec<Turn>, script: Script, daemon: ScriptedDaemon)
    requires
        call_ensures(Script::new, (turns,), script),
        call_ensures(ScriptedDaemon::new, (script,), daemon),
    ensures
        script.turns@ == turns@,
        script.context_size == 12288,
        script.supports_tool_calls,
        daemon@.script == script,
        daemon@.transcript.len() == 0,
        daemon@.served == 0,
{
}

/// Only conversations are served: one that is asked for is entered and opened, with what its system
/// text takes up; anything else is refused and leaves no trace.
pub proof fn law_only_conversations_are_served<N>(
    d: &mut ScriptedDaemon,
    message: Option<ClientMessage<N>>,
    r: (ConversationResponse, Option<Session>),
)
    requires
        call_ensures(ScriptedDaemon::open::<N>, (d, message), r),
    ensures
        r.1 is Some <==> message is Some && message->0 is OpenConversation,
        r.1 is None ==> r.0 is Failed && final(d)@ == old(d)@,
        r.1 is Some ==> {
            let open = message->0->OpenConversation_0;
            &&& final(d)@.transcript.len() == old(d)@.transcript.len() + 1
            &&& final(d)@.transcript.last() is Opened
            &&& final(d)@.served == old(d)@.served
            &&& final(d)@.script == old(d)@.script
            &&& open.tools@.len() == 0 ==> r.0 is Opened
            &&& open.tools@.len() > 0 ==> r.0 is OpenedWithTools && r.0->supports_tool_calls
                == old(d)@.script.supports_tool_calls
            &&& open.system is None ==> r.1->0.committed == 0
            &&& open.system matches Some(s) ==> r.1->0.committed == estimate(s@)
        },
{
    assert(text::byte_len(Seq::<char>::empty()) == 0) by {
        text::law_byte_offsets_mark_off_parts(Seq::empty(), Seq::empty(), Seq::empty());
        assert(Seq::<char>::empty() + Seq::<char>::empty() =~= Seq::<char>::empty());
    }
}

/// Where a script has no reply left, it is told how many it had and which was asked for.
pub proof fn law_what_is_told_of_a_script_that_ran_out(turns: nat, asked_for: nat)
    ensures
        text::contains(ran_out(turns, asked_for), text::decimal(turns)),
        ({
            let told = ran_out(turns, asked_for);
            let last = text::decimal(asked_for);
            told.len() >= last.len() && told.skip(told.len() - last.len()) == last
        }),
{
    let told = ran_out(turns, asked_for);
    let last = text::decimal(asked_for);
    let first = "scripted rampiped ran out: the script has "@;
    let middle = " turn(s) and the harness asked for turn "@;
    assert(told =~= first + text::decimal(turns) + (middle + last));
    text::law_standing_somewhere(first, text::decimal(turns), middle + last, told, 0);
    assert(told.skip(told.len() - last.len()) =~= last);
}

/// An error tells which script it was and what was wrong with it.
pub proof fn law_script_errors_tell_their_cause(path: String, cause: String)
    ensures
        text::contains((ScriptError::Io { path, cause }).words(), path@),
        text::contains((ScriptError::Io { path, cause }).words(), cause@),
        text::contains((ScriptError::Parse { path, cause }).words(), path@),
        text::contains((ScriptError::Parse { path, cause }).words(), cause@),
{
    let none = Seq::<char>::empty();
    let link = ": "@;
    text::lemma_named("reading script "@ + path@ + link, cause@, none);
    text::lemma_named("parsing script "@ + path@ + link, cause@, none);
    text::lemma_named("reading script "@, path@, link + cause@);
    text::lemma_named("parsing script "@, path@, link + cause@);
    assert((ScriptError::Io { path, cause }).words() =~= "reading script "@ + path@ + (link
        + cause@));
    assert((ScriptError::Parse { path, cause }).words() =~= "parsing script "@ + path@ + (link
        + cause@));
}

} // verus!
