//! What holds of an exchange from one end to the other: what the daemon answers is what its client
//! makes of the answer.

use vstd::prelude::*;
use crate::client;
use crate::client::{ClientConversationView, GenerateOutcome, RampipedConversation, RampipedError};
use crate::connection::{Action, Connection, Event, Stage};
use crate::conversation::{ConversationError, GenerationResult};

verus! {

/// What a turn came to in the daemon reaches whoever asked for it, unchanged.
pub proof fn law_a_reply_reaches_the_caller<N>(
    result: GenerationResult,
    before: Connection,
    action: Action<N>,
    after: Connection,
    outcome: Result<GenerateOutcome, RampipedError>,
    r: Result<GenerationResult, ConversationError>,
)
    requires
        before.steps(Event::Ran(Ok(result)), action, after),
        action matches Action::Reply { response, .. } && client::turn_outcome(
            Ok(response),
            outcome,
        ),
        client::result_of(outcome, r),
    ensures
        r == Ok::<GenerationResult, ConversationError>(result),
{
}

/// Why a turn failed in the daemon reaches whoever asked for it, and the connection stays open.
pub proof fn law_a_failure_reaches_the_caller<N>(
    cause: String,
    before: Connection,
    action: Action<N>,
    after: Connection,
    outcome: Result<GenerateOutcome, RampipedError>,
    r: Result<GenerationResult, ConversationError>,
)
    requires
        before.steps(Event::Ran(Err(cause)), action, after),
        action matches Action::Reply { response, .. } && client::turn_outcome(
            Ok(response),
            outcome,
        ),
        client::result_of(outcome, r),
    ensures
        r matches Err(ConversationError::Backend(m)) && m@ == "rampiped reported an error: "@
            + cause@,
        after.stage == Stage::Idle,
{
}

/// A client that opens a conversation knows whether tool calls are read: they are where tools were
/// offered and the daemon reads them, and nowhere else.
pub proof fn law_tool_support_reaches_the_client<N>(
    supports: bool,
    before: Connection,
    action: Action<N>,
    after: Connection,
    r: Result<RampipedConversation, RampipedError>,
)
    requires
        before.steps(Event::Opened(Ok(supports)), action, after),
        action matches Action::Reply { response, .. } && client::opening_outcome(Ok(response), r),
    ensures
        r is Ok,
        r->Ok_0@ == (ClientConversationView {
            supports_tool_calls: supports && before.tools > 0,
            turns: 0,
        }),
{
}

/// A client learns that its conversation was saved, and the connection ends; and it learns why one
/// was not.
pub proof fn law_saving_is_acknowledged<N>(
    saved: Result<(), String>,
    before: Connection,
    action: Action<N>,
    after: Connection,
    r: Result<(), RampipedError>,
)
    requires
        before.steps(Event::Saved(saved), action, after),
        action matches Action::Reply { response, .. } && client::snapshot_outcome(Ok(response), r),
    ensures
        r is Ok <==> saved is Ok,
        saved is Ok ==> after.stage == Stage::Closed,
        saved matches Err(cause) ==> r->Err_0.words() == "rampiped reported an error: "@ + cause@,
{
}

} // verus!
