//! The fixed spans of text that the turns of a conversation are composed of, recovered from a
//! model's chat template, and how a system prompt and tools reach the model.

use vstd::prelude::*;
use crate::chat_template;
use crate::json::JsonView;
use crate::protocol;
use crate::protocol::{ToolFormat, ToolFormatView, ToolSpec};
use crate::text;
use crate::tool_probe;
use crate::tool_probe::{ChatCapabilities, SpansView, ToolResultSpans};

verus! {

/// The fixed text around the turns of a conversation.
#[derive(Debug)]
pub struct ConversationTemplate {
    /// What precedes the first turn's content.
    pub first_turn_open: String,
    /// What stands between a user's content and the reply.
    pub generation_open: String,
    /// What stands between a reply and the next user's content.
    pub turn_transition: String,
}

/// The content of a [`ConversationTemplate`].
pub struct TemplateView {
    pub first_turn_open: Seq<char>,
    pub generation_open: Seq<char>,
    pub turn_transition: Seq<char>,
}

impl View for ConversationTemplate {
    type V = TemplateView;

    open spec fn view(&self) -> TemplateView {
        TemplateView {
            first_turn_open: self.first_turn_open@,
            generation_open: self.generation_open@,
            turn_transition: self.turn_transition@,
        }
    }
}

/// Whether there is a template, and which.
pub open spec fn template_option(t: Option<ConversationTemplate>) -> Option<TemplateView> {
    match t {
        Some(t) => Some(t@),
        None => None,
    }
}

/// The spans around four messages, `u1`, `a1`, `u2` and `a2`, that were rendered in turn: each
/// stands there verbatim, in order, none overlapping, and the second reply follows its user's
/// message as the first does.
pub open spec fn spans_of_probe(
    rendered: Option<Seq<char>>,
    u1: Seq<char>,
    a1: Seq<char>,
    u2: Seq<char>,
    a2: Seq<char>,
) -> Option<TemplateView> {
    match rendered {
        Some(s) => match (
            text::index_of(s, u1),
            text::index_of(s, a1),
            text::index_of(s, u2),
            text::index_of(s, a2),
        ) {
            (Some(i), Some(j), Some(k), Some(l)) => {
                if i + u1.len() <= j && j + a1.len() <= k && k + u2.len() <= l && s.subrange(
                    i + u1.len(),
                    j,
                ) == s.subrange(k + u2.len(), l) {
                    Some(
                        TemplateView {
                            first_turn_open: s.take(i),
                            generation_open: s.subrange(i + u1.len(), j),
                            turn_transition: s.subrange(j + a1.len(), k),
                        },
                    )
                } else {
                    None
                }
            },
            _ => None,
        },
        None => None,
    }
}

/// The spans around four messages that were rendered in turn.
pub fn template_from_probe(rendered: &str, u1: &str, a1: &str, u2: &str, a2: &str) -> (r: Option<
    ConversationTemplate,
>)
    ensures
        template_option(r) == spans_of_probe(Some(rendered@), u1@, a1@, u2@, a2@),
{
    let all: Vec<char> = text::chars_of(rendered);
    let s: &[char] = all.as_slice();
    let n: usize = s.len();
    let u1: Vec<char> = text::chars_of(u1);
    let a1: Vec<char> = text::chars_of(a1);
    let u2: Vec<char> = text::chars_of(u2);
    let a2: Vec<char> = text::chars_of(a2);
    let i: usize = match text::find(s, u1.as_slice()) {
        Some(at) => at,
        None => {
            return None;
        },
    };
    let j: usize = match text::find(s, a1.as_slice()) {
        Some(at) => at,
        None => {
            return None;
        },
    };
    let k: usize = match text::find(s, u2.as_slice()) {
        Some(at) => at,
        None => {
            return None;
        },
    };
    let l: usize = match text::find(s, a2.as_slice()) {
        Some(at) => at,
        None => {
            return None;
        },
    };
    let generation_open: &[char] = match tool_probe::between(s, i, u1.len(), j) {
        Some(t) => t,
        None => {
            return None;
        },
    };
    let turn_transition: &[char] = match tool_probe::between(s, j, a1.len(), k) {
        Some(t) => t,
        None => {
            return None;
        },
    };
    let generation_open_2: &[char] = match tool_probe::between(s, k, u2.len(), l) {
        Some(t) => t,
        None => {
            return None;
        },
    };
    if !text::same(generation_open, generation_open_2) {
        return None;
    }
    Some(
        ConversationTemplate {
            first_turn_open: text::string_of(text::head(s, i)),
            generation_open: text::string_of(generation_open),
            turn_transition: text::string_of(turn_transition),
        },
    )
}

/// A transcript of two exchanges.
pub open spec fn exchange_transcript(
    u1: Seq<char>,
    a1: Seq<char>,
    u2: Seq<char>,
    a2: Seq<char>,
) -> JsonView {
    JsonView::Array(
        seq![
            tool_probe::message_json("user"@, u1),
            tool_probe::message_json("assistant"@, a1),
            tool_probe::message_json("user"@, u2),
            tool_probe::message_json("assistant"@, a2),
        ],
    )
}

/// The spans that a template puts around two exchanges.
pub open spec fn probed_template(
    template: Seq<char>,
    u1: Seq<char>,
    a1: Seq<char>,
    u2: Seq<char>,
    a2: Seq<char>,
) -> Option<TemplateView> {
    spans_of_probe(
        chat_template::chat_rendering(template, exchange_transcript(u1, a1, u2, a2), None, false),
        u1,
        a1,
        u2,
        a2,
    )
}

/// The spans that a template puts around two exchanges.
pub fn derive_from_probe(template_text: &str, u1: &str, a1: &str, u2: &str, a2: &str) -> (r: Option<
    ConversationTemplate,
>)
    ensures
        template_option(r) == probed_template(template_text@, u1@, a1@, u2@, a2@),
{
    let messages: [(&str, &str); 4] = [("user", u1), ("assistant", a1), ("user", u2), (
        "assistant",
        a2,
    )];
    assert(chat_template::messages_json(messages@)->Array_0 =~= exchange_transcript(
        u1@,
        a1@,
        u2@,
        a2@,
    )->Array_0);
    match chat_template::render_messages(template_text, &messages, false) {
        Some(rendered) => template_from_probe(rendered.as_str(), u1, a1, u2, a2),
        None => None,
    }
}

// Wrapped in private-use characters, and with characters that JSON and HTML escape, so that a
// template that transforms a message's content is found out.
pub const FIRST_USER_A: &'static str = "\u{E000}RPA1<&\"'>\u{E000}";

pub const FIRST_REPLY_A: &'static str = "\u{E000}RPA2<&\"'>\u{E000}";

pub const SECOND_USER_A: &'static str = "\u{E000}RPA3<&\"'>\u{E000}";

pub const SECOND_REPLY_A: &'static str = "\u{E000}RPA4<&\"'>\u{E000}";

pub const FIRST_USER_B: &'static str = "\u{E000}RPB1<&\"'>\u{E000}";

pub const FIRST_REPLY_B: &'static str = "\u{E000}RPB2<&\"'>\u{E000}";

pub const SECOND_USER_B: &'static str = "\u{E000}RPB3<&\"'>\u{E000}";

pub const SECOND_REPLY_B: &'static str = "\u{E000}RPB4<&\"'>\u{E000}";

/// Two probes agree.
pub open spec fn agreed(a: Option<TemplateView>, b: Option<TemplateView>) -> Option<TemplateView> {
    match (a, b) {
        (Some(a), Some(b)) => if a == b {
            Some(a)
        } else {
            None
        },
        _ => None,
    }
}

/// The fixed spans of a template, if it has any: two probes with different contents agree.
pub open spec fn conversation_spans(template: Seq<char>) -> Option<TemplateView> {
    agreed(
        probed_template(
            template,
            FIRST_USER_A@,
            FIRST_REPLY_A@,
            SECOND_USER_A@,
            SECOND_REPLY_A@,
        ),
        probed_template(
            template,
            FIRST_USER_B@,
            FIRST_REPLY_B@,
            SECOND_USER_B@,
            SECOND_REPLY_B@,
        ),
    )
}

/// The probe, if the other one agrees with it.
pub fn agreeing(a: ConversationTemplate, b: &ConversationTemplate) -> (r: Option<
    ConversationTemplate,
>)
    ensures
        template_option(r) == agreed(Some(a@), Some(b@)),
{
    if text::same_text(a.first_turn_open.as_str(), b.first_turn_open.as_str()) && text::same_text(
        a.generation_open.as_str(),
        b.generation_open.as_str(),
    ) && text::same_text(a.turn_transition.as_str(), b.turn_transition.as_str()) {
        Some(a)
    } else {
        None
    }
}

/// Recovers the fixed spans of a model's chat template, or `None` where it cannot be shown that
/// turns can be composed of them.
pub fn derive_conversation_template(template_text: &str) -> (r: Option<ConversationTemplate>)
    ensures
        template_option(r) == conversation_spans(template_text@),
{
    let a: ConversationTemplate = match derive_from_probe(
        template_text,
        FIRST_USER_A,
        FIRST_REPLY_A,
        SECOND_USER_A,
        SECOND_REPLY_A,
    ) {
        Some(a) => a,
        None => {
            return None;
        },
    };
    let b: ConversationTemplate = match derive_from_probe(
        template_text,
        FIRST_USER_B,
        FIRST_REPLY_B,
        SECOND_USER_B,
        SECOND_REPLY_B,
    ) {
        Some(b) => b,
        None => {
            return None;
        },
    };
    agreeing(a, &b)
}

/// Renders one user message, open for the reply.
pub fn render_with_minijinja(template_text: &str, prompt: &str) -> (r: Option<String>)
    ensures
        tool_probe::text_option(r) == chat_template::chat_rendering(
            template_text@,
            JsonView::Array(seq![tool_probe::message_json("user"@, prompt@)]),
            None,
            true,
        ),
{
    let messages: [(&str, &str); 1] = [("user", prompt)];
    assert(chat_template::messages_json(messages@)->Array_0 =~= seq![
        tool_probe::message_json("user"@, prompt@),
    ]);
    chat_template::render_messages(template_text, &messages, true)
}

/// What a template renders for a probe transcript.
pub open spec fn probe_rendering(
    template: Seq<char>,
    messages: JsonView,
    tools: Option<JsonView>,
) -> Option<Seq<char>> {
    chat_template::chat_rendering(template, messages, tools, false)
}

/// What a template can be told.
pub open spec fn capabilities_of(template: Seq<char>) -> ChatCapabilities {
    ChatCapabilities {
        system: tool_probe::in_order(
            probe_rendering(template, tool_probe::system_transcript(), None),
            tool_probe::PLAIN@,
            tool_probe::USER@,
        ),
        tools: tool_probe::tools_honoured(
            probe_rendering(
                template,
                tool_probe::user_transcript(),
                Some(JsonView::Array(seq![tool_probe::probe_tool()])),
            ),
            probe_rendering(template, tool_probe::user_transcript(), None),
        ),
        tool_results: tool_probe::in_order(
            probe_rendering(template, tool_probe::result_transcript(), None),
            tool_probe::PLAIN@,
            tool_probe::RESULT@,
        ),
    }
}

/// How a template writes a tool call.
pub open spec fn format_of(template: Seq<char>) -> Option<ToolFormatView> {
    tool_probe::format_of_renders(
        probe_rendering(template, tool_probe::plain_transcript(), None),
        probe_rendering(
            template,
            tool_probe::call_transcript(tool_probe::probe_arguments()),
            None,
        ),
        probe_rendering(
            template,
            tool_probe::call_transcript(JsonView::Object(Seq::empty())),
            None,
        ),
    )
}

/// The text that a template puts around tool results.
pub open spec fn spans_of(template: Seq<char>) -> Option<SpansView> {
    tool_probe::result_spans(
        probe_rendering(template, tool_probe::results_by_role(), None),
        probe_rendering(template, tool_probe::results_native(), None),
    )
}

/// What a template renders before the first user message's content.
pub open spec fn opening_for(
    template: Seq<char>,
    system: Option<Seq<char>>,
    tools: Option<JsonView>,
) -> Option<Seq<char>> {
    tool_probe::opening_of(
        probe_rendering(template, tool_probe::opening_transcript(system), tools),
    )
}

/// How a system prompt and tools reach a model.
#[derive(Debug)]
pub struct ToolSetup {
    /// The text that opens the conversation.
    pub opening: String,
    /// System text that could not go into the opening, for the first user turn.
    pub system_for_first_turn: Option<String>,
    /// How the model writes a tool call, where tools are offered.
    pub tool_format: Option<ToolFormat>,
    /// The text around tool results, where tools are offered.
    pub tool_result_spans: Option<ToolResultSpans>,
    /// What the template can be told.
    pub capabilities: ChatCapabilities,
}

/// The content of a [`ToolSetup`].
pub struct ToolSetupView {
    pub opening: Seq<char>,
    pub system_for_first_turn: Option<Seq<char>>,
    pub tool_format: Option<ToolFormatView>,
    pub tool_result_spans: Option<SpansView>,
    pub capabilities: ChatCapabilities,
}

impl View for ToolSetup {
    type V = ToolSetupView;

    open spec fn view(&self) -> ToolSetupView {
        ToolSetupView {
            opening: self.opening@,
            system_for_first_turn: tool_probe::text_option(self.system_for_first_turn),
            tool_format: tool_probe::format_option(self.tool_format),
            tool_result_spans: tool_probe::spans_option(self.tool_result_spans),
            capabilities: self.capabilities,
        }
    }
}

/// How a system prompt and tools reach a model whose template can be told `can`. `opening`,
/// `format` and `spans` are what its template gave for them; `default_open` opens a conversation
/// that has neither; `configured` is used where the template gave no format.
pub open spec fn setup_from(
    can: ChatCapabilities,
    default_open: Seq<char>,
    system: Option<Seq<char>>,
    has_tools: bool,
    opening: Option<Seq<char>>,
    format: Option<ToolFormatView>,
    spans: Option<SpansView>,
    configured: Option<ToolFormatView>,
) -> ToolSetupView {
    let offered = has_tools && can.tools;
    let system_block = system is Some && can.system;
    let rendered_opening = if system_block || offered {
        opening
    } else {
        None
    };
    ToolSetupView {
        opening: match rendered_opening {
            Some(o) => o,
            None => default_open,
        },
        system_for_first_turn: if system_block && rendered_opening is Some {
            None
        } else {
            system
        },
        tool_format: if offered {
            match format {
                Some(f) => Some(f),
                None => configured,
            }
        } else {
            None
        },
        tool_result_spans: if offered && can.tool_results {
            spans
        } else {
            None
        },
        capabilities: can,
    }
}

/// How a system prompt and tools reach a model, as its template says.
pub open spec fn tool_setup(
    template: Seq<char>,
    default_open: Seq<char>,
    system: Option<Seq<char>>,
    tools: Seq<ToolSpec>,
    configured: Option<ToolFormatView>,
) -> ToolSetupView {
    let can = capabilities_of(template);
    setup_from(
        can,
        default_open,
        system,
        tools.len() > 0,
        opening_for(
            template,
            if can.system {
                system
            } else {
                None
            },
            if tools.len() > 0 && can.tools {
                Some(protocol::tools_json(tools))
            } else {
                None
            },
        ),
        format_of(template),
        spans_of(template),
        configured,
    )
}

/// Whether there is a format, and which.
pub open spec fn format_ref_option(format: Option<&ToolFormat>) -> Option<ToolFormatView> {
    match format {
        Some(f) => Some(f@),
        None => None,
    }
}

/// Puts together how a system prompt and tools reach a model, from what its template was found to
/// accept and gave.
pub fn assemble_setup(
    can: ChatCapabilities,
    default_open: &str,
    system: Option<&str>,
    has_tools: bool,
    opening: Option<String>,
    format: Option<ToolFormat>,
    spans: Option<ToolResultSpans>,
    configured: Option<&ToolFormat>,
) -> (r: ToolSetup)
    ensures
        r@ == setup_from(
            can,
            default_open@,
            tool_probe::str_option(system),
            has_tools,
            tool_probe::text_option(opening),
            tool_probe::format_option(format),
            tool_probe::spans_option(spans),
            format_ref_option(configured),
        ),
{
    let offered: bool = has_tools && can.tools;
    let system_block: bool = system.is_some() && can.system;
    let rendered_opening: Option<String> = if system_block || offered {
        opening
    } else {
        None
    };
    let carried: bool = system_block && rendered_opening.is_some();
    let system_for_first_turn: Option<String> = match system {
        Some(system) => if carried {
            None
        } else {
            Some(system.to_string())
        },
        None => None,
    };
    let tool_format: Option<ToolFormat> = if offered {
        match format {
            Some(format) => Some(format),
            None => match configured {
                Some(configured) => Some(configured.clone()),
                None => None,
            },
        }
    } else {
        None
    };
    ToolSetup {
        opening: match rendered_opening {
            Some(opening) => opening,
            None => default_open.to_string(),
        },
        system_for_first_turn,
        tool_format,
        tool_result_spans: if offered && can.tool_results {
            spans
        } else {
            None
        },
        capabilities: can,
    }
}

/// Decides, once per conversation, how a system prompt and tools reach the model: by asking its
/// own template. An empty tool list is no list at all.
pub fn prepare_tools(
    template_text: &str,
    template: &ConversationTemplate,
    system: Option<&str>,
    tools: &[ToolSpec],
    configured_format: Option<&ToolFormat>,
) -> (r: ToolSetup)
    ensures
        r@ == tool_setup(
            template_text@,
            template@.first_turn_open,
            tool_probe::str_option(system),
            tools@,
            format_ref_option(configured_format),
        ),
{
    let render = chat_template::probe_renderer();
    let can: ChatCapabilities = tool_probe::derive_capabilities(template_text, &render);
    assert(can == capabilities_of(template_text@));
    let offered: Option<&[ToolSpec]> = if tools.len() > 0 && can.tools {
        Some(tools)
    } else {
        None
    };
    let system_block: Option<&str> = if can.system {
        system
    } else {
        None
    };
    let opening: Option<String> = if system_block.is_some() || offered.is_some() {
        tool_probe::render_opening(template_text, system_block, offered, &render)
    } else {
        None
    };
    let format: Option<ToolFormat> = if offered.is_some() {
        tool_probe::derive_tool_call_format(template_text, &render)
    } else {
        None
    };
    let spans: Option<ToolResultSpans> = if offered.is_some() && can.tool_results {
        tool_probe::derive_tool_result_spans(template_text, &render)
    } else {
        None
    };
    assemble_setup(
        can,
        template.first_turn_open.as_str(),
        system,
        tools.len() > 0,
        opening,
        format,
        spans,
        configured_format,
    )
}

} // verus!
