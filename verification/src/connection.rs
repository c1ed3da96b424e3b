//! One connection to the daemon, as a machine: what happened goes in, what to do next comes out.

use vstd::prelude::*;
use crate::conversation::GenerationResult;
use crate::daemon;
use crate::protocol;
use crate::protocol::{
    ConversationRequest, ConversationResponse, ConversationTurnRequest, GenerateResponse,
    OpenConversationRequest, SnapshotRef,
};
use crate::text;

verus! {

/// How far a conversation's connection is.
#[derive(Debug, Clone, Copy, PartialEq, Eq, Structural)]
pub enum Stage {
    /// The model is being loaded.
    Loading,
    /// The conversation is being opened.
    Opening,
    /// The next request is awaited.
    Idle,
    /// A turn is being run.
    Running,
    /// The conversation is being saved.
    Saving,
    /// There is nothing more to do.
    Closed,
}

/// What happened on a conversation's connection.
#[derive(Debug)]
pub enum Event<N> {
    /// The model was loaded, or why not.
    Loaded(Result<(), String>),
    /// The conversation was opened, and whether tool calls can be read; or why not.
    Opened(Result<bool, String>),
    /// A line came and was decoded, or could not be.
    Line(Result<ConversationRequest<N>, String>),
    /// The client is gone.
    Hangup,
    /// A turn was run, or why not.
    Ran(Result<GenerationResult, String>),
    /// The conversation was saved, or why not.
    Saved(Result<(), String>),
}

/// What to do next on a conversation's connection.
#[derive(Debug)]
pub enum Action<N> {
    /// Open the conversation: anew, or as it was saved.
    Open,
    /// Run this turn.
    Run(ConversationTurnRequest<N>),
    /// Save the conversation here.
    Save(SnapshotRef),
    /// Answer this. Where `counted` holds, it is counted as an outcome: the tokens of a turn, or a
    /// failure.
    Reply { response: ConversationResponse, counted: bool },
    /// Nothing is to be answered.
    Hangup,
}

/// A conversation's connection.
#[derive(Debug, Clone, Copy, PartialEq, Eq, Structural)]
pub struct Connection {
    pub stage: Stage,
    pub n_ctx: u32,
    /// A saved conversation is reopened, in a context of the size that it was saved with.
    pub restores: bool,
    /// How many tools were offered.
    pub tools: usize,
}

/// The answer is a failure with this message.
pub open spec fn fails_with(response: ConversationResponse, message: Seq<char>) -> bool {
    response matches ConversationResponse::Failed { message: m } && m@ == message
}

/// A reply that is this failure, counted or not.
pub open spec fn refused<N>(action: Action<N>, message: Seq<char>, counted: bool) -> bool {
    action matches Action::Reply { response, counted: c } && fails_with(response, message) && c
        == counted
}

/// What is said of a line that cannot be decoded.
pub open spec fn undecodable(cause: Seq<char>) -> Seq<char> {
    "decoding conversation turn: "@ + cause
}

impl Connection {
    /// The event is one that can happen at this stage.
    pub open spec fn expects<N>(self, event: Event<N>) -> bool {
        match self.stage {
            Stage::Loading => event is Loaded,
            Stage::Opening => event is Opened,
            Stage::Idle => event is Line || event is Hangup,
            Stage::Running => event is Ran,
            Stage::Saving => event is Saved,
            Stage::Closed => false,
        }
    }

    /// What is to be done when `event` happened, and where the connection is then.
    pub open spec fn steps<N>(self, event: Event<N>, action: Action<N>, after: Connection) -> bool {
        &&& after == (Connection { stage: after.stage, ..self })
        &&& match event {
            Event::Loaded(Err(message)) => after.stage == Stage::Closed && refused(
                action,
                message@,
                false,
            ),
            Event::Loaded(Ok(_)) => if self.n_ctx == 0 && !self.restores {
                after.stage == Stage::Closed && refused(action, "n_ctx must be nonzero"@, false)
            } else {
                after.stage == Stage::Opening && action is Open
            },
            Event::Opened(Err(message)) => after.stage == Stage::Closed && refused(
                action,
                message@,
                false,
            ),
            Event::Opened(Ok(supports)) => {
                &&& after.stage == Stage::Idle
                &&& action == Action::<N>::Reply {
                    response: if self.tools == 0 {
                        ConversationResponse::Opened
                    } else {
                        ConversationResponse::OpenedWithTools { supports_tool_calls: supports }
                    },
                    counted: false,
                }
            },
            Event::Line(Err(cause)) => after.stage == Stage::Idle && refused(
                action,
                undecodable(cause@),
                false,
            ),
            Event::Line(Ok(ConversationRequest::Turn(turn))) => after.stage == Stage::Running
                && action == Action::<N>::Run(turn),
            Event::Line(Ok(ConversationRequest::Snapshot(at))) => after.stage == Stage::Saving
                && action == Action::<N>::Save(at),
            Event::Hangup => after.stage == Stage::Closed && action is Hangup,
            Event::Ran(Err(message)) => after.stage == Stage::Idle && refused(
                action,
                message@,
                true,
            ),
            Event::Ran(Ok(result)) => {
                &&& after.stage == Stage::Idle
                &&& action == Action::<N>::Reply {
                    response: ConversationResponse::Turn {
                        text: result.text,
                        tokens_generated: result.tokens_generated,
                        committed_tokens: result.committed_tokens,
                        context_size: result.context_size,
                        time_to_first_token_ms: result.time_to_first_token_ms,
                        tool_calls: result.tool_calls,
                        truncated_tool_call: result.truncated_tool_call,
                        formatted_prompt: result.formatted_prompt,
                    },
                    counted: true,
                }
            },
            Event::Saved(Err(message)) => after.stage == Stage::Idle && refused(
                action,
                message@,
                false,
            ),
            Event::Saved(Ok(_)) => {
                &&& after.stage == Stage::Closed
                &&& action == Action::<N>::Reply {
                    response: ConversationResponse::Snapshotted,
                    counted: false,
                }
            },
        }
    }

    /// A connection on which a conversation was asked for: the model is to be loaded first.
    pub fn new(request: &OpenConversationRequest) -> (r: Self)
        ensures
            r == (Connection {
                stage: Stage::Loading,
                n_ctx: request.n_ctx,
                restores: request.restore_from is Some,
                tools: request.tools.len(),
            }),
    {
        Connection {
            stage: Stage::Loading,
            n_ctx: request.n_ctx,
            restores: request.restore_from.is_some(),
            tools: request.tools.len(),
        }
    }

    /// Takes in what happened and says what to do next.
    pub fn handle<N>(&mut self, event: Event<N>) -> (r: Action<N>)
        requires
            old(self).expects(event),
        ensures
            old(self).steps(event, r, *final(self)),
    {
        match event {
            Event::Loaded(Err(message)) | Event::Opened(Err(message)) => {
                self.stage = Stage::Closed;
                Action::Reply { response: ConversationResponse::Failed { message }, counted: false }
            },
            Event::Loaded(Ok(_)) => {
                if self.n_ctx == 0 && !self.restores {
                    self.stage = Stage::Closed;
                    Action::Reply {
                        response: ConversationResponse::Failed {
                            message: "n_ctx must be nonzero".to_string(),
                        },
                        counted: false,
                    }
                } else {
                    self.stage = Stage::Opening;
                    Action::Open
                }
            },
            Event::Opened(Ok(supports)) => {
                self.stage = Stage::Idle;
                Action::Reply {
                    response: protocol::opened_response(self.tools, supports),
                    counted: false,
                }
            },
            Event::Line(Err(cause)) => {
                let mut message: String = "decoding conversation turn: ".to_string();
                message.append(cause.as_str());
                self.stage = Stage::Idle;
                Action::Reply { response: ConversationResponse::Failed { message }, counted: false }
            },
            Event::Line(Ok(ConversationRequest::Turn(turn))) => {
                self.stage = Stage::Running;
                Action::Run(turn)
            },
            Event::Line(Ok(ConversationRequest::Snapshot(at))) => {
                self.stage = Stage::Saving;
                Action::Save(at)
            },
            Event::Hangup => {
                self.stage = Stage::Closed;
                Action::Hangup
            },
            Event::Ran(Err(message)) => {
                self.stage = Stage::Idle;
                Action::Reply { response: ConversationResponse::Failed { message }, counted: true }
            },
            Event::Ran(Ok(result)) => {
                self.stage = Stage::Idle;
                Action::Reply { response: protocol::turn_response(result), counted: true }
            },
            Event::Saved(Err(message)) => {
                self.stage = Stage::Idle;
                Action::Reply { response: ConversationResponse::Failed { message }, counted: false }
            },
            Event::Saved(Ok(_)) => {
                self.stage = Stage::Closed;
                Action::Reply { response: ConversationResponse::Snapshotted, counted: false }
            },
        }
    }
}

/// What the daemon answers to a request for one generation that came to `result`.
pub fn generate_reply(result: Result<GenerationResult, String>) -> (r: GenerateResponse)
    ensures
        r == (match result {
            Ok(g) => GenerateResponse::Done {
                text: g.text,
                tokens_generated: g.tokens_generated,
                time_to_first_token_ms: g.time_to_first_token_ms,
                formatted_prompt: g.formatted_prompt,
            },
            Err(message) => GenerateResponse::Failed { message },
        }),
{
    match result {
        Ok(g) => protocol::generate_response(g),
        Err(message) => GenerateResponse::Failed { message },
    }
}

/// A message as it is sent: a line.
pub fn frame(message: &str) -> (r: String)
    ensures
        r@ == message@ + "\n"@,
{
    let mut r: String = message.to_string();
    r.append("\n");
    r
}

/// A message as it was sent: what a line holds between its surrounding whitespace.
pub fn unframe(line: &str) -> (r: String)
    ensures
        r@ == text::trimmed(line@),
{
    let all: Vec<char> = text::chars_of(line);
    text::string_of(text::trim(all.as_slice()))
}

/// What was framed is read back, if it is not surrounded by whitespace itself.
pub proof fn law_frames_are_read_back(message: Seq<char>)
    requires
        text::trimmed(message) == message,
    ensures
        text::trimmed(message + "\n"@) == message,
{
    reveal_strlit("\n");
    let line = message + "\n"@;
    if message.len() == 0 {
        assert(line.skip(1) =~= Seq::<char>::empty());
        reveal_with_fuel(text::trimmed_start, 2);
        assert(text::is_space(line[0]));
        assert(text::trimmed_start(line) =~= Seq::<char>::empty());
    } else {
        lemma_trimmed_ends(message);
        assert(line[0] == message[0]);
        assert(text::trimmed_start(line) == line);
        assert(line.drop_last() =~= message);
        assert(text::trimmed_start(message) == message);
    }
}

/// What is trimmed neither begins nor ends with whitespace.
proof fn lemma_trimmed_ends(s: Seq<char>)
    requires
        text::trimmed(s) == s,
        s.len() > 0,
    ensures
        !text::is_space(s[0]),
        !text::is_space(s.last()),
{
    lemma_trim_shrinks(s);
    lemma_trim_end_shrinks(text::trimmed_start(s));
}

proof fn lemma_trim_shrinks(s: Seq<char>)
    ensures
        text::trimmed_start(s).len() <= s.len(),
        s.len() > 0 && text::is_space(s[0]) ==> text::trimmed_start(s).len() < s.len(),
    decreases s.len(),
{
    if s.len() > 0 && text::is_space(s[0]) {
        lemma_trim_shrinks(s.skip(1));
    }
}

proof fn lemma_trim_end_shrinks(s: Seq<char>)
    ensures
        text::trimmed_end(s).len() <= s.len(),
        s.len() > 0 && text::is_space(s.last()) ==> text::trimmed_end(s).len() < s.len(),
    decreases s.len(),
{
    if s.len() > 0 && text::is_space(s.last()) {
        lemma_trim_end_shrinks(s.drop_last());
    }
}

/// A turn that could not be decoded touches no counter; and nothing that was answered to it ends
/// the conversation.
pub proof fn law_undecodable_turns_are_not_counted<N>(
    before: Connection,
    cause: String,
    action: Action<N>,
    after: Connection,
)
    requires
        before.stage == Stage::Idle,
        before.steps(Event::<N>::Line(Err(cause)), action, after),
    ensures
        after == before,
        action matches Action::Reply { counted, .. } && !counted,
{
}

/// What is counted as a success is exactly what was answered as a turn.
pub proof fn law_successes_are_turns<N>(
    before: Connection,
    event: Event<N>,
    action: Action<N>,
    after: Connection,
)
    requires
        before.expects(event),
        before.steps(event, action, after),
    ensures
        action matches Action::Reply { response, counted } ==> (counted <==> event is Ran) && (
        daemon::generated_in_turn(response) is Some <==> event is Ran && event->Ran_0 is Ok),
{
}

/// A closed connection was answered something or was left by its client: what parsed but failed is
/// never met with silence.
pub proof fn law_failures_are_answered<N>(
    before: Connection,
    event: Event<N>,
    action: Action<N>,
    after: Connection,
)
    requires
        before.expects(event),
        before.steps(event, action, after),
        after.stage == Stage::Closed,
    ensures
        action is Reply || event is Hangup,
{
}

/// A request for a conversation that is answered: that it is open, and then the next request is
/// awaited; or why it is not, and then there is nothing more to do.
pub open spec fn answers_opening<N>(action: Action<N>, after: Connection) -> bool {
    action matches Action::Reply { response, counted: false } && match response {
        ConversationResponse::Opened
        | ConversationResponse::OpenedWithTools { .. } => after.stage == Stage::Idle,
        ConversationResponse::Failed { .. } => after.stage == Stage::Closed,
        _ => false,
    }
}

/// A request for a conversation is always answered, and once, whatever it asked for: as soon as the
/// model was loaded or could not be, or else once the conversation was opened or could not be.
pub proof fn law_an_open_request_is_answered<N>(
    before: Connection,
    loaded: Result<(), String>,
    first: Action<N>,
    between: Connection,
    opened: Result<bool, String>,
    second: Action<N>,
    after: Connection,
)
    requires
        before.stage == Stage::Loading,
        before.steps(Event::<N>::Loaded(loaded), first, between),
        between.expects(Event::<N>::Opened(opened)) ==> between.steps(
            Event::<N>::Opened(opened),
            second,
            after,
        ),
    ensures
        between.expects(Event::<N>::Opened(opened)) ==> first is Open && answers_opening(
            second,
            after,
        ),
        !between.expects(Event::<N>::Opened(opened)) ==> answers_opening(first, between),
{
}

/// What a client asks for on an open conversation is what is done: its turn is run, its conversation
/// is saved where it says, and nothing more when it is gone. A turn that was run leaves the
/// conversation open, a conversation that was saved is over, and one that could not be is not.
pub proof fn law_requests_are_carried_out<N>(
    before: Connection,
    event: Event<N>,
    action: Action<N>,
    after: Connection,
)
    requires
        before.steps(event, action, after),
    ensures
        event is Line && event->Line_0 is Ok && event->Line_0->Ok_0 is Turn ==> action is Run
            && action->Run_0 == event->Line_0->Ok_0->Turn_0 && after.stage == Stage::Running,
        event is Line && event->Line_0 is Ok && event->Line_0->Ok_0 is Snapshot ==> action is Save
            && action->Save_0 == event->Line_0->Ok_0->Snapshot_0 && after.stage == Stage::Saving,
        event is Hangup ==> action is Hangup && after.stage == Stage::Closed,
        event is Ran ==> after.stage == Stage::Idle,
        event is Saved && event->Saved_0 is Ok ==> action is Reply && action->response
            is Snapshotted && after.stage == Stage::Closed,
        event is Saved && event->Saved_0 is Err ==> after.stage == Stage::Idle,
        after.n_ctx == before.n_ctx,
        after.restores == before.restores,
        after.tools == before.tools,
{
}

/// What went wrong is what is answered, word for word; a line that could not be decoded is answered
/// with what was wrong with it.
pub proof fn law_the_cause_is_answered<N>(
    before: Connection,
    event: Event<N>,
    action: Action<N>,
    after: Connection,
    cause: String,
)
    requires
        before.steps(event, action, after),
    ensures
        event == Event::<N>::Loaded(Err(cause)) || event == Event::<N>::Opened(Err(cause)) || event
            == Event::<N>::Ran(Err(cause)) || event == Event::<N>::Saved(Err(cause))
            ==> action is Reply && action->response is Failed
            && action->response->Failed_message@ == cause@,
        event == Event::<N>::Line(Err(cause)) ==> action is Reply && action->response is Failed && {
            let said = action->response->Failed_message@;
            &&& said.len() > cause@.len()
            &&& said.skip(said.len() - cause@.len()) == cause@
        },
{
    if event == Event::<N>::Line(Err(cause)) {
        reveal_strlit("decoding conversation turn: ");
        let said = "decoding conversation turn: "@ + cause@;
        assert(said.skip(said.len() - cause@.len()) =~= cause@);
    }
}

/// A new conversation has to have room for something; one that was saved has the room that it was
/// saved with.
pub proof fn law_a_conversation_needs_room<N>(
    before: Connection,
    done: (),
    action: Action<N>,
    after: Connection,
)
    requires
        before.steps(Event::<N>::Loaded(Ok(done)), action, after),
    ensures
        action is Open <==> before.n_ctx > 0 || before.restores,
        action is Open ==> after.stage == Stage::Opening,
        !(action is Open) ==> action is Reply && action->response is Failed && !action->counted
            && after.stage == Stage::Closed,
{
}

/// One generation is answered with what it came to, or with why it came to nothing.
pub proof fn law_a_generation_is_answered(
    result: Result<GenerationResult, String>,
    r: GenerateResponse,
)
    requires
        call_ensures(generate_reply, (result,), r),
    ensures
        r is Done <==> result is Ok,
        r is Done ==> {
            &&& r->text@ == result->Ok_0.text@
            &&& r->tokens_generated == result->Ok_0.tokens_generated
            &&& r->time_to_first_token_ms == result->Ok_0.time_to_first_token_ms
            &&& r->formatted_prompt@ == result->Ok_0.formatted_prompt@
        },
        r is Failed ==> r->message@ == result->Err_0@,
{
}

/// A connection begins with loading the model, and keeps what was asked for: the size of the context,
/// whether a conversation is reopened, and how many tools are offered.
pub proof fn law_how_a_connection_begins(request: OpenConversationRequest, r: Connection)
    requires
        call_ensures(Connection::new, (&request,), r),
    ensures
        r.stage == Stage::Loading,
        r.n_ctx == request.n_ctx,
        r.restores <==> request.restore_from is Some,
        r.tools == request.tools@.len(),
{
}

/// What is sent is what was meant: framing a message and reading the line again gives it back, if it
/// is not surrounded by white space itself; and a frame ends with its only added line feed.
pub proof fn law_what_is_framed_is_read(message: &str, line: String, sent: &str, back: String)
    requires
        call_ensures(frame, (message,), line),
        call_ensures(unframe, (sent,), back),
        sent@ == line@,
    ensures
        line@.len() == message@.len() + 1,
        line@.last() == '\n',
        line@.drop_last() == message@,
        text::trimmed(message@) == message@ ==> back@ == message@,
{
    reveal_strlit("\n");
    assert(line@.drop_last() =~= message@);
    if text::trimmed(message@) == message@ {
        law_frames_are_read_back(message@);
    }
}

} // verus!
