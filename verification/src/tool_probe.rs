//! Probing a chat template: rendering transcripts made of sentinels and reading off the literal
//! text that the template puts around them.

use vstd::prelude::*;
use vstd::slice::slice_subrange;
use vstd::utf8;
use crate::json;
use crate::json::{EntryView, Json, JsonView};
use crate::protocol;
use crate::protocol::{ToolFormat, ToolFormatView, ToolSpec};
use crate::text;

verus! {

// Wrapped in private-use characters, so that they occur in no template, and free of characters
// that JSON or HTML would escape.
pub const NAME: &'static str = "\u{E000}TFNAME\u{E001}";

pub const ARG1: &'static str = "\u{E000}TFARGA\u{E001}";

pub const VAL1: &'static str = "\u{E000}TFVALA\u{E001}";

pub const ARG2: &'static str = "\u{E000}TFARGB\u{E001}";

pub const VAL2: &'static str = "\u{E000}TFVALB\u{E001}";

pub const PLAIN: &'static str = "\u{E000}TFPLAIN\u{E001}";

pub const USER: &'static str = "\u{E000}TFUSER\u{E001}";

pub const RESULT: &'static str = "\u{E000}TFRESULT\u{E001}";

pub const REPLY: &'static str = "\u{E000}TFREPLY\u{E001}";

pub const RESULT2: &'static str = "\u{E000}TFRESULTB\u{E001}";

/// One entry of an object.
pub open spec fn entry(key: Seq<char>, value: JsonView) -> EntryView {
    EntryView { key, value }
}

/// A chat message.
pub open spec fn message_json(role: Seq<char>, content: Seq<char>) -> JsonView {
    JsonView::Object(
        seq![
            entry("content"@, JsonView::Text(content)),
            entry("role"@, JsonView::Text(role)),
        ],
    )
}

/// A chat message.
pub fn message(role: &str, content: &str) -> (r: Json)
    ensures
        r@ == message_json(role@, content@),
{
    let entries: Vec<(String, Json)> = vec![
        ("content".to_string(), Json::text(content)),
        ("role".to_string(), Json::text(role)),
    ];
    assert(json::entries_view(entries@) =~= message_json(role@, content@)->Object_0);
    Json::object(entries)
}

/// A transcript that puts a system message before the user's.
pub open spec fn system_transcript() -> JsonView {
    JsonView::Array(seq![message_json("system"@, PLAIN@), message_json("user"@, USER@)])
}

fn system_messages() -> (r: Json)
    ensures
        r@ == system_transcript(),
{
    let items: Vec<Json> = vec![message("system", PLAIN), message("user", USER)];
    assert(json::items_view(items@) =~= system_transcript()->Array_0);
    Json::array(items)
}

/// `render` accepts every template and transcript.
pub open spec fn total<F: Fn(&str, &Json, Option<&Json>) -> Option<String>>(render: F) -> bool {
    forall|template: &str, messages: &Json, tools: Option<&Json>|
        call_requires(render, (template, messages, tools))
}

/// The content of an optional value.
pub open spec fn json_option(j: Option<&Json>) -> Option<JsonView> {
    match j {
        Some(v) => Some(v@),
        None => None,
    }
}

/// The content of an optional text.
pub open spec fn text_option(s: Option<String>) -> Option<Seq<char>> {
    match s {
        Some(t) => Some(t@),
        None => None,
    }
}

/// `out` is something that `render` may return for `template` and a transcript.
pub open spec fn may_render<F: Fn(&str, &Json, Option<&Json>) -> Option<String>>(
    render: F,
    template: &str,
    messages: JsonView,
    tools: Option<JsonView>,
    out: Option<Seq<char>>,
) -> bool {
    exists|m: &Json, t: Option<&Json>, o: Option<String>|
        {
            &&& m@ == messages
            &&& json_option(t) == tools
            &&& text_option(o) == out
            &&& #[trigger] call_ensures(render, (template, m, t), o)
        }
}

/// `first` and then `second` stand in `s`.
pub open spec fn in_order(s: Option<Seq<char>>, first: Seq<char>, second: Seq<char>) -> bool {
    match s {
        Some(s) => match (text::index_of(s, first), text::index_of(s, second)) {
            (Some(a), Some(b)) => a < b,
            _ => false,
        },
        None => false,
    }
}

/// Whether `first` and then `second` stand in `s`.
pub fn appear_in_order(s: &str, first: &str, second: &str) -> (r: bool)
    ensures
        r == in_order(Some(s@), first@, second@),
{
    let cs: Vec<char> = text::chars_of(s);
    let a: Option<usize> = text::find(cs.as_slice(), text::chars_of(first).as_slice());
    let b: Option<usize> = text::find(cs.as_slice(), text::chars_of(second).as_slice());
    match (a, b) {
        (Some(a), Some(b)) => a < b,
        _ => false,
    }
}

fn probe_system<F: Fn(&str, &Json, Option<&Json>) -> Option<String>>(
    template_text: &str,
    render: &F,
) -> (r: bool)
    requires
        total(*render),
    ensures
        exists|out: Option<Seq<char>>| #[trigger]
            may_render(*render, template_text, system_transcript(), None, out) && r == in_order(
                out,
                PLAIN@,
                USER@,
            ),
{
    let messages: Json = system_messages();
    let out: Option<String> = render(template_text, &messages, None);
    assert(may_render(*render, template_text, system_transcript(), None, text_option(out)));
    match out {
        Some(rendered) => appear_in_order(rendered.as_str(), PLAIN, USER),
        None => false,
    }
}

/// A transcript of one user message.
pub open spec fn user_transcript() -> JsonView {
    JsonView::Array(seq![message_json("user"@, USER@)])
}

fn user_messages() -> (r: Json)
    ensures
        r@ == user_transcript(),
{
    let items: Vec<Json> = vec![message("user", USER)];
    assert(json::items_view(items@) =~= user_transcript()->Array_0);
    Json::array(items)
}

/// One tool with a sentinel for a name.
pub open spec fn probe_tool() -> JsonView {
    JsonView::Object(
        seq![
            entry(
                "function"@,
                JsonView::Object(
                    seq![
                        entry("description"@, JsonView::Text("probe"@)),
                        entry("name"@, JsonView::Text(NAME@)),
                        entry("parameters"@, probe_schema()),
                    ],
                ),
            ),
            entry("type"@, JsonView::Text("function"@)),
        ],
    )
}

/// The schema of a tool with one string argument.
pub open spec fn probe_schema() -> JsonView {
    JsonView::Object(
        seq![
            entry(
                "properties"@,
                JsonView::Object(
                    seq![
                        entry(
                            "probe_arg"@,
                            JsonView::Object(
                                seq![
                                    entry("description"@, JsonView::Text("probe"@)),
                                    entry("type"@, JsonView::Text("string"@)),
                                ],
                            ),
                        ),
                    ],
                ),
            ),
            entry("required"@, JsonView::Array(seq![JsonView::Text("probe_arg"@)])),
            entry("type"@, JsonView::Text("object"@)),
        ],
    )
}

/// An object with one entry.
fn object1(key: &str, value: Json) -> (r: Json)
    ensures
        r@ == JsonView::Object(seq![entry(key@, value@)]),
{
    let entries: Vec<(String, Json)> = vec![(key.to_string(), value)];
    assert(json::entries_view(entries@) =~= seq![entry(key@, value@)]);
    Json::object(entries)
}

/// An object with two entries.
fn object2(key: &str, value: Json, key2: &str, value2: Json) -> (r: Json)
    ensures
        r@ == JsonView::Object(seq![entry(key@, value@), entry(key2@, value2@)]),
{
    let entries: Vec<(String, Json)> = vec![(key.to_string(), value), (key2.to_string(), value2)];
    assert(json::entries_view(entries@) =~= seq![entry(key@, value@), entry(key2@, value2@)]);
    Json::object(entries)
}

/// An object with three entries.
fn object3(key: &str, value: Json, key2: &str, value2: Json, key3: &str, value3: Json) -> (r: Json)
    ensures
        r@ == JsonView::Object(
            seq![entry(key@, value@), entry(key2@, value2@), entry(key3@, value3@)],
        ),
{
    let entries: Vec<(String, Json)> = vec![
        (key.to_string(), value),
        (key2.to_string(), value2),
        (key3.to_string(), value3),
    ];
    assert(json::entries_view(entries@) =~= seq![
        entry(key@, value@),
        entry(key2@, value2@),
        entry(key3@, value3@),
    ]);
    Json::object(entries)
}

/// An array with one item.
fn array1(item: Json) -> (r: Json)
    ensures
        r@ == JsonView::Array(seq![item@]),
{
    let items: Vec<Json> = vec![item];
    assert(json::items_view(items@) =~= seq![item@]);
    Json::array(items)
}

/// An array with two items.
fn array2(item: Json, item2: Json) -> (r: Json)
    ensures
        r@ == JsonView::Array(seq![item@, item2@]),
{
    let items: Vec<Json> = vec![item, item2];
    assert(json::items_view(items@) =~= seq![item@, item2@]);
    Json::array(items)
}

fn probe_tool_list() -> (r: Json)
    ensures
        r@ == JsonView::Array(seq![probe_tool()]),
{
    let argument: Json = object2("description", Json::text("probe"), "type", Json::text("string"));
    let schema: Json = object3(
        "properties",
        object1("probe_arg", argument),
        "required",
        array1(Json::text("probe_arg")),
        "type",
        Json::text("object"),
    );
    let function: Json = object3(
        "description",
        Json::text("probe"),
        "name",
        Json::text(NAME),
        "parameters",
        schema,
    );
    array1(object2("function", function, "type", Json::text("function")))
}

/// A template honours a tool list if what it renders changes and names the tool.
pub open spec fn tools_honoured(
    with_tools: Option<Seq<char>>,
    without_tools: Option<Seq<char>>,
) -> bool {
    match (with_tools, without_tools) {
        (Some(with), Some(without)) => with != without && text::contains(with, NAME@),
        _ => false,
    }
}

/// Whether what was rendered with a tool list differs from what was rendered without one, and
/// names the tool.
pub fn shows_tools(with_tools: &str, without_tools: &str) -> (r: bool)
    ensures
        r == tools_honoured(Some(with_tools@), Some(without_tools@)),
{
    let with: Vec<char> = text::chars_of(with_tools);
    let without: Vec<char> = text::chars_of(without_tools);
    !text::same(with.as_slice(), without.as_slice()) && text::has(
        with.as_slice(),
        text::chars_of(NAME).as_slice(),
    )
}

fn probe_tools<F: Fn(&str, &Json, Option<&Json>) -> Option<String>>(
    template_text: &str,
    render: &F,
) -> (r: bool)
    requires
        total(*render),
    ensures
        exists|with: Option<Seq<char>>, without: Option<Seq<char>>|
            {
                &&& #[trigger] may_render(
                    *render,
                    template_text,
                    user_transcript(),
                    Some(JsonView::Array(seq![probe_tool()])),
                    with,
                )
                &&& (with is Some ==> may_render(
                    *render,
                    template_text,
                    user_transcript(),
                    None,
                    without,
                ))
                &&& r == #[trigger] tools_honoured(with, without)
            },
{
    let messages: Json = user_messages();
    let tools: Json = probe_tool_list();
    let with: Option<String> = render(template_text, &messages, Some(&tools));
    assert(may_render(
        *render,
        template_text,
        user_transcript(),
        Some(JsonView::Array(seq![probe_tool()])),
        text_option(with),
    )) by {
        assert(json_option(Some(&tools)) == Some(tools@));
    }
    let with_tools: String = match with {
        Some(rendered) => rendered,
        None => {
            assert(!tools_honoured(None, None));
            return false;
        },
    };
    let without: Option<String> = render(template_text, &messages, None);
    assert(may_render(*render, template_text, user_transcript(), None, text_option(without)));
    assert(text_option(with) == Some(with_tools@));
    match without {
        Some(without_tools) => {
            let r: bool = shows_tools(with_tools.as_str(), without_tools.as_str());
            assert(r == tools_honoured(text_option(with), text_option(without)));
            r
        },
        None => {
            assert(!tools_honoured(text_option(with), text_option(without)));
            false
        },
    }
}

/// A transcript that ends with a tool's result.
pub open spec fn result_transcript() -> JsonView {
    JsonView::Array(
        seq![
            message_json("user"@, USER@),
            message_json("assistant"@, PLAIN@),
            message_json("tool"@, RESULT@),
        ],
    )
}

fn result_messages() -> (r: Json)
    ensures
        r@ == result_transcript(),
{
    let items: Vec<Json> = vec![
        message("user", USER),
        message("assistant", PLAIN),
        message("tool", RESULT),
    ];
    assert(json::items_view(items@) =~= result_transcript()->Array_0);
    Json::array(items)
}

fn probe_tool_results<F: Fn(&str, &Json, Option<&Json>) -> Option<String>>(
    template_text: &str,
    render: &F,
) -> (r: bool)
    requires
        total(*render),
    ensures
        exists|out: Option<Seq<char>>| #[trigger]
            may_render(*render, template_text, result_transcript(), None, out) && r == in_order(
                out,
                PLAIN@,
                RESULT@,
            ),
{
    let messages: Json = result_messages();
    let out: Option<String> = render(template_text, &messages, None);
    assert(may_render(*render, template_text, result_transcript(), None, text_option(out)));
    match out {
        Some(rendered) => appear_in_order(rendered.as_str(), PLAIN, RESULT),
        None => false,
    }
}

/// What a model's template says it can be told.
#[derive(Debug, Clone, Copy, PartialEq, Eq, Structural)]
pub struct ChatCapabilities {
    /// A system message renders, before the user's.
    pub system: bool,
    /// A tool list renders into the prompt.
    pub tools: bool,
    /// A tool's result renders, after the message that called it.
    pub tool_results: bool,
}

/// Probes `template_text` for each of its capabilities.
pub fn derive_capabilities<F: Fn(&str, &Json, Option<&Json>) -> Option<String>>(
    template_text: &str,
    render: &F,
) -> (r: ChatCapabilities)
    requires
        total(*render),
    ensures
        exists|out: Option<Seq<char>>| #[trigger]
            may_render(*render, template_text, system_transcript(), None, out) && r.system
                == in_order(out, PLAIN@, USER@),
        exists|with: Option<Seq<char>>, without: Option<Seq<char>>|
            {
                &&& #[trigger] may_render(
                    *render,
                    template_text,
                    user_transcript(),
                    Some(JsonView::Array(seq![probe_tool()])),
                    with,
                )
                &&& (with is Some ==> may_render(
                    *render,
                    template_text,
                    user_transcript(),
                    None,
                    without,
                ))
                &&& r.tools == #[trigger] tools_honoured(with, without)
            },
        exists|out: Option<Seq<char>>| #[trigger]
            may_render(*render, template_text, result_transcript(), None, out) && r.tool_results
                == in_order(out, PLAIN@, RESULT@),
{
    ChatCapabilities {
        system: probe_system(template_text, render),
        tools: probe_tools(template_text, render),
        tool_results: probe_tool_results(template_text, render),
    }
}

/// The span in which `other` differs from `plain`: without what the two share at the beginning
/// and at the end.
pub open spec fn divergence(plain: Seq<char>, other: Seq<char>) -> Option<Seq<char>> {
    let a = utf8::encode_utf8(plain);
    let b = utf8::encode_utf8(other);
    let prefix = text::common_prefix(a, b) as int;
    let suffix = text::common_suffix(a.skip(prefix), b.skip(prefix)) as int;
    text::byte_range(other, prefix, b.len() - suffix)
}

/// The span in which `other` differs from `plain`.
pub fn diverging_region<'a>(plain: &str, other: &'a str) -> (r: Option<&'a str>)
    ensures
        match r {
            Some(s) => divergence(plain@, other@) == Some(s@),
            None => divergence(plain@, other@) is None,
        },
{
    let a: &[u8] = plain.as_bytes();
    let b: &[u8] = other.as_bytes();
    let n: usize = b.len();
    let prefix: usize = text::common_prefix_len(a, b);
    let a_rest: &[u8] = slice_subrange(a, prefix, a.len());
    let b_rest: &[u8] = slice_subrange(b, prefix, n);
    assert(a_rest@ =~= a@.skip(prefix as int));
    assert(b_rest@ =~= b@.skip(prefix as int));
    let suffix: usize = text::common_suffix_len(a_rest, b_rest);
    text::get(other, prefix, n - suffix)
}

/// The characters of `s` from index `from` up to `to`.
pub open spec fn piece(s: Seq<char>, from: int, to: int) -> Option<Seq<char>> {
    if 0 <= from <= to <= s.len() {
        Some(s.subrange(from, to))
    } else {
        None
    }
}

/// The characters of `s` that follow `n` characters at index `at`, up to `to`.
pub fn between(s: &[char], at: usize, n: usize, to: usize) -> (r: Option<&[char]>)
    requires
        at + n <= s@.len(),
    ensures
        match r {
            Some(t) => piece(s@, at + n, to as int) == Some(t@),
            None => piece(s@, at + n, to as int) is None,
        },
{
    let len: usize = s.len();
    if at + n <= to && to <= len {
        Some(slice_subrange(s, at + n, to))
    } else {
        None
    }
}

/// The first entry at or after `from` whose value is the string `s`.
pub open spec fn text_entry(entries: Seq<EntryView>, s: Seq<char>, from: int) -> Option<int>
    decreases entries.len() - from,
{
    if from < 0 || from >= entries.len() {
        None
    } else if entries[from].value == JsonView::Text(s) {
        Some(from)
    } else {
        text_entry(entries, s, from + 1)
    }
}

/// `j` is an object with a value that is the string `s`.
pub open spec fn holds_text(j: JsonView, s: Seq<char>) -> bool {
    j is Object && text_entry(j->Object_0, s, 0) is Some
}

/// The first entry at or after `from` whose value is an object that holds the string `s`.
pub open spec fn holder_entry(entries: Seq<EntryView>, s: Seq<char>, from: int) -> Option<int>
    decreases entries.len() - from,
{
    if from < 0 || from >= entries.len() {
        None
    } else if holds_text(entries[from].value, s) {
        Some(from)
    } else {
        holder_entry(entries, s, from + 1)
    }
}

/// The first entry whose value is the string `s`.
fn find_text_entry(entries: &Vec<(String, Json)>, s: &str) -> (r: Option<usize>)
    ensures
        match r {
            Some(i) => i < entries@.len() && text_entry(json::entries_view(entries@), s@, 0) == Some(
                i as int,
            ),
            None => text_entry(json::entries_view(entries@), s@, 0) is None,
        },
{
    let ghost all = json::entries_view(entries@);
    let mut i: usize = 0;
    while i < entries.len()
        invariant
            i <= entries.len(),
            all == json::entries_view(entries@),
            text_entry(all, s@, 0) == text_entry(all, s@, i as int),
        decreases entries.len() - i,
    {
        if entries[i].1.is_text(s) {
            return Some(i);
        }
        i += 1;
    }
    None
}

/// The first entry whose value is an object that holds the string `s`.
fn find_holder_entry(entries: &Vec<(String, Json)>, s: &str) -> (r: Option<usize>)
    ensures
        match r {
            Some(i) => i < entries@.len() && holder_entry(json::entries_view(entries@), s@, 0)
                == Some(i as int),
            None => holder_entry(json::entries_view(entries@), s@, 0) is None,
        },
{
    let ghost all = json::entries_view(entries@);
    let mut i: usize = 0;
    while i < entries.len()
        invariant
            i <= entries.len(),
            all == json::entries_view(entries@),
            holder_entry(all, s@, 0) == holder_entry(all, s@, i as int),
        decreases entries.len() - i,
    {
        let value: &Json = &entries[i].1;
        assert(all[i as int].value == value@);
        match value {
            Json::Object(inner) => {
                assert(value@->Object_0 =~= json::entries_view(inner@));
                if find_text_entry(inner, s).is_some() {
                    return Some(i);
                }
            },
            _ => {},
        }
        i += 1;
    }
    None
}

/// Where the outermost braces of a text stand.
pub open spec fn braces(region: Seq<char>) -> Option<(int, int)> {
    match (text::index_of(region, seq!['{']), text::last_index_of(region, seq!['}'])) {
        (Some(open), Some(close)) => if open <= close {
            Some((open, close))
        } else {
            None
        },
        _ => None,
    }
}

/// The format of a call whose payload, between the outermost braces of `region`, is `value`. The
/// keys are found by what stands under them.
pub open spec fn json_format_around(
    region: Seq<char>,
    open: int,
    close: int,
    value: Option<JsonView>,
) -> Option<ToolFormatView> {
    match value {
        Some(JsonView::Object(entries)) => match (
            text_entry(entries, NAME@, 0),
            holder_entry(entries, VAL1@, 0),
        ) {
            (Some(n), Some(a)) => Some(
                ToolFormatView::Json {
                    call_open: region.take(open),
                    call_close: region.skip(close + 1),
                    name_key: entries[n].key,
                    arguments_key: entries[a].key,
                },
            ),
            _ => None,
        },
        _ => None,
    }
}

/// The format of a call that `region` renders as one JSON object.
pub open spec fn json_format(region: Seq<char>) -> Option<ToolFormatView> {
    match braces(region) {
        Some((open, close)) => json_format_around(
            region,
            open,
            close,
            json::parsed(region.subrange(open, close + 1)),
        ),
        None => None,
    }
}

/// Whether there is a format, and which.
pub open spec fn format_option(format: Option<ToolFormat>) -> Option<ToolFormatView> {
    match format {
        Some(f) => Some(f@),
        None => None,
    }
}

/// The format of a call in `region` whose payload, from the brace at `open` to the one at
/// `close`, was read as `value`.
pub fn json_format_from(region: &[char], open: usize, close: usize, value: Option<&Json>) -> (r:
    Option<ToolFormat>)
    requires
        open <= close < region@.len(),
    ensures
        format_option(r) == json_format_around(
            region@,
            open as int,
            close as int,
            json_option(value),
        ),
{
    match value {
        Some(value) => match value {
            Json::Object(entries) => {
                assert(value@->Object_0 =~= json::entries_view(entries@));
                let n: usize = match find_text_entry(entries, NAME) {
                    Some(n) => n,
                    None => {
                        return None;
                    },
                };
                let a: usize = match find_holder_entry(entries, VAL1) {
                    Some(a) => a,
                    None => {
                        return None;
                    },
                };
                Some(
                    ToolFormat::Json {
                        call_open: text::string_of(text::head(region, open)),
                        call_close: text::string_of(text::after(region, close, 1)),
                        name_key: entries[n].0.clone(),
                        arguments_key: entries[a].0.clone(),
                    },
                )
            },
            _ => None,
        },
        None => None,
    }
}

/// The format of a call that `region` renders as one JSON object.
pub fn derive_json_format(region: &[char]) -> (r: Option<ToolFormat>)
    ensures
        format_option(r) == json_format(region@),
{
    let open_brace: Vec<char> = vec!['{'];
    let close_brace: Vec<char> = vec!['}'];
    assert(open_brace@ =~= seq!['{']);
    assert(close_brace@ =~= seq!['}']);
    let len: usize = region.len();
    let open: usize = match text::find(region, open_brace.as_slice()) {
        Some(open) => open,
        None => {
            return None;
        },
    };
    let close: usize = match text::rfind(region, close_brace.as_slice()) {
        Some(close) => close,
        None => {
            return None;
        },
    };
    if close < open {
        return None;
    }
    let payload: String = text::string_of(slice_subrange(region, open, close + 1));
    match json::parse(payload.as_str()) {
        Some(value) => json_format_from(region, open, close, Some(&value)),
        None => None,
    }
}

/// Where the sentinels of a call with two arguments stand.
pub struct Places {
    pub name: int,
    pub arg1: int,
    pub val1: int,
    pub arg2: int,
    pub val2: int,
}

/// Where the sentinels of a call with two arguments first stand in `region`, if all of them do.
pub open spec fn places(region: Seq<char>) -> Option<Places> {
    match (
        text::index_of(region, NAME@),
        text::index_of(region, ARG1@),
        text::index_of(region, VAL1@),
        text::index_of(region, ARG2@),
        text::index_of(region, VAL2@),
    ) {
        (Some(name), Some(arg1), Some(val1), Some(arg2), Some(val2)) => Some(
            Places { name, arg1, val1, arg2, val2 },
        ),
        _ => None,
    }
}

/// Where the sentinels of a call with two arguments stand.
#[derive(Debug, Clone, Copy)]
pub struct Marks {
    pub name: usize,
    pub arg1: usize,
    pub val1: usize,
    pub arg2: usize,
    pub val2: usize,
}

impl View for Marks {
    type V = Places;

    open spec fn view(&self) -> Places {
        Places {
            name: self.name as int,
            arg1: self.arg1 as int,
            val1: self.val1 as int,
            arg2: self.arg2 as int,
            val2: self.val2 as int,
        }
    }
}

/// Every sentinel fits into `region` at its place.
pub open spec fn within(p: Places, region: Seq<char>) -> bool {
    &&& p.name + NAME@.len() <= region.len()
    &&& p.arg1 + ARG1@.len() <= region.len()
    &&& p.val1 + VAL1@.len() <= region.len()
    &&& p.arg2 + ARG2@.len() <= region.len()
    &&& p.val2 + VAL2@.len() <= region.len()
}

/// Where the sentinels of a call with two arguments first stand in `region`.
pub fn find_marks(region: &[char]) -> (r: Option<Marks>)
    ensures
        match r {
            Some(m) => places(region@) == Some(m@) && within(m@, region@),
            None => places(region@) is None,
        },
{
    let name: usize = match text::find(region, text::chars_of(NAME).as_slice()) {
        Some(at) => at,
        None => {
            return None;
        },
    };
    let arg1: usize = match text::find(region, text::chars_of(ARG1).as_slice()) {
        Some(at) => at,
        None => {
            return None;
        },
    };
    let val1: usize = match text::find(region, text::chars_of(VAL1).as_slice()) {
        Some(at) => at,
        None => {
            return None;
        },
    };
    let arg2: usize = match text::find(region, text::chars_of(ARG2).as_slice()) {
        Some(at) => at,
        None => {
            return None;
        },
    };
    let val2: usize = match text::find(region, text::chars_of(VAL2).as_slice()) {
        Some(at) => at,
        None => {
            return None;
        },
    };
    Some(Marks { name, arg1, val1, arg2, val2 })
}

/// What follows the name in the rendering of a call without arguments.
pub open spec fn after_bare_name(no_args: Seq<char>) -> Option<Seq<char>> {
    match text::index_of(no_args, NAME@) {
        Some(at) => Some(no_args.skip(at + NAME@.len())),
        None => None,
    }
}

/// The format of a call that renders one delimited block per argument, from what stands between
/// the sentinels of a call with two arguments and of one with none:
///
/// - from the name to the first argument's name: `name_close`, `arg_open`;
/// - from the first value to the second argument's name: `arg_close`, `arg_open`;
/// - after the second value: `arg_close`, `call_close`;
/// - after the name of a call without arguments: `name_close`, `call_close`.
pub open spec fn delimited_format(
    region: Seq<char>,
    no_args: Seq<char>,
    p: Places,
) -> Option<ToolFormatView> {
    match (
        piece(region, p.name + NAME@.len(), p.arg1),
        piece(region, p.val1 + VAL1@.len(), p.arg2),
        after_bare_name(no_args),
        piece(region, p.arg1 + ARG1@.len(), p.val1),
        piece(region, p.arg2 + ARG2@.len(), p.val2),
    ) {
        (
            Some(name_to_arg1),
            Some(val1_to_arg2),
            Some(after_name),
            Some(arg_name_close),
            Some(arg2_to_val2),
        ) => {
            let after_val2 = region.skip(p.val2 + VAL2@.len());
            let name_close = text::shared_beginning(name_to_arg1, after_name);
            let arg_close = text::shared_beginning(val1_to_arg2, after_val2);
            match (
                text::without_prefix(name_to_arg1, name_close),
                text::without_prefix(after_val2, arg_close),
            ) {
                (Some(arg_open), Some(call_close)) => {
                    if {
                        &&& name_close.len() > 0
                        &&& arg_open.len() > 0
                        &&& arg_close.len() > 0
                        &&& arg_name_close.len() > 0
                        &&& val1_to_arg2 == arg_close + arg_open
                        &&& after_name == name_close + call_close
                        &&& arg2_to_val2 == arg_name_close
                    } {
                        Some(
                            ToolFormatView::Delimited {
                                call_open: region.take(p.name),
                                name_close,
                                arg_open,
                                arg_name_close,
                                arg_close,
                                call_close,
                            },
                        )
                    } else {
                        None
                    }
                },
                _ => None,
            }
        },
        _ => None,
    }
}

/// What follows the name in the rendering of a call without arguments.
fn find_after_bare_name(no_args: &[char]) -> (r: Option<&[char]>)
    ensures
        match r {
            Some(t) => after_bare_name(no_args@) == Some(t@),
            None => after_bare_name(no_args@) is None,
        },
{
    let name: Vec<char> = text::chars_of(NAME);
    match text::find(no_args, name.as_slice()) {
        Some(at) => Some(text::after(no_args, at, name.len())),
        None => None,
    }
}

/// The format of a call that renders one delimited block per argument.
pub fn derive_delimited_format(region: &[char], no_args: &[char], m: Marks) -> (r: Option<
    ToolFormat,
>)
    requires
        within(m@, region@),
    ensures
        format_option(r) == delimited_format(region@, no_args@, m@),
{
    let name_len: usize = text::chars_of(NAME).len();
    let arg1_len: usize = text::chars_of(ARG1).len();
    let val1_len: usize = text::chars_of(VAL1).len();
    let arg2_len: usize = text::chars_of(ARG2).len();
    let val2_len: usize = text::chars_of(VAL2).len();
    let name_to_arg1: &[char] = match between(region, m.name, name_len, m.arg1) {
        Some(t) => t,
        None => {
            return None;
        },
    };
    let val1_to_arg2: &[char] = match between(region, m.val1, val1_len, m.arg2) {
        Some(t) => t,
        None => {
            return None;
        },
    };
    let after_name: &[char] = match find_after_bare_name(no_args) {
        Some(t) => t,
        None => {
            return None;
        },
    };
    let arg_name_close: &[char] = match between(region, m.arg1, arg1_len, m.val1) {
        Some(t) => t,
        None => {
            return None;
        },
    };
    let arg2_to_val2: &[char] = match between(region, m.arg2, arg2_len, m.val2) {
        Some(t) => t,
        None => {
            return None;
        },
    };
    let after_val2: &[char] = text::after(region, m.val2, val2_len);
    let name_to_arg1_text: String = text::string_of(name_to_arg1);
    let name_close: &str = text::shared_prefix(
        name_to_arg1_text.as_str(),
        text::string_of(after_name).as_str(),
    );
    let val1_to_arg2_text: String = text::string_of(val1_to_arg2);
    let arg_close: &str = text::shared_prefix(
        val1_to_arg2_text.as_str(),
        text::string_of(after_val2).as_str(),
    );
    let name_close_chars: Vec<char> = text::chars_of(name_close);
    let arg_close_chars: Vec<char> = text::chars_of(arg_close);
    let arg_open: &[char] = match text::strip_prefix(name_to_arg1, name_close_chars.as_slice()) {
        Some(t) => t,
        None => {
            return None;
        },
    };
    let call_close: &[char] = match text::strip_prefix(after_val2, arg_close_chars.as_slice()) {
        Some(t) => t,
        None => {
            return None;
        },
    };
    if name_close_chars.len() == 0 || arg_open.len() == 0 || arg_close_chars.len() == 0
        || arg_name_close.len() == 0 {
        return None;
    }
    if !text::same(val1_to_arg2, text::joined(arg_close_chars.as_slice(), arg_open).as_slice()) {
        return None;
    }
    if !text::same(after_name, text::joined(name_close_chars.as_slice(), call_close).as_slice()) {
        return None;
    }
    if !text::same(arg2_to_val2, arg_name_close) {
        return None;
    }
    Some(
        ToolFormat::Delimited {
            call_open: text::string_of(text::head(region, m.name)),
            name_close: name_close.to_string(),
            arg_open: text::string_of(arg_open),
            arg_name_close: text::string_of(arg_name_close),
            arg_close: arg_close.to_string(),
            call_close: text::string_of(call_close),
        },
    )
}

/// The separator between a name and its value, and the wrapper that opens a string value: the
/// probes' values are strings, so the two are seen as one. What opens a value is the same text
/// that closes it.
pub open spec fn name_and_wrapper(name_to_value: Seq<char>, arg_close: Seq<char>) -> (
    Seq<char>,
    Seq<char>,
) {
    match text::without_suffix(name_to_value, arg_close) {
        Some(bare) => if arg_close.len() > 0 && bare.len() > 0 {
            (bare, arg_close)
        } else {
            (name_to_value, Seq::empty())
        },
        None => (name_to_value, Seq::empty()),
    }
}

/// The format of a call that renders a separator between arguments, from what stands between
/// the sentinels of a call with two arguments and of one with none. The call's closer is taken
/// from the latter.
pub open spec fn separated_format(
    region: Seq<char>,
    no_args: Seq<char>,
    p: Places,
) -> Option<ToolFormatView> {
    match (
        piece(region, p.name + NAME@.len(), p.arg1),
        piece(region, p.arg1 + ARG1@.len(), p.val1),
        piece(region, p.val1 + VAL1@.len(), p.arg2),
        piece(region, p.arg2 + ARG2@.len(), p.val2),
        after_bare_name(no_args),
    ) {
        (
            Some(name_close),
            Some(name_to_value),
            Some(val1_to_arg2),
            Some(arg2_to_val2),
            Some(after_name),
        ) => {
            let after_val2 = region.skip(p.val2 + VAL2@.len());
            match text::without_prefix(after_name, name_close) {
                Some(call_close) => match text::index_of(after_val2, call_close) {
                    Some(closing_at) => {
                        let arg_close = after_val2.take(closing_at);
                        match text::without_prefix(val1_to_arg2, arg_close) {
                            Some(arg_sep) => {
                                let (arg_name_close, value_open) = name_and_wrapper(
                                    name_to_value,
                                    arg_close,
                                );
                                if {
                                    &&& arg2_to_val2 == name_to_value
                                    &&& name_close.len() > 0
                                    &&& arg_name_close.len() > 0
                                    &&& arg_sep.len() > 0
                                    &&& call_close.len() > 0
                                    &&& !text::contains(arg_sep, arg_name_close)
                                    &&& !arg_sep.is_prefix_of(call_close)
                                } {
                                    Some(
                                        ToolFormatView::Separated {
                                            call_open: region.take(p.name),
                                            name_close,
                                            arg_name_close,
                                            value_open,
                                            arg_close,
                                            arg_sep,
                                            call_close,
                                        },
                                    )
                                } else {
                                    None
                                }
                            },
                            None => None,
                        }
                    },
                    None => None,
                },
                None => None,
            }
        },
        _ => None,
    }
}

/// Takes the wrapper that opens a string value back out of what stands between a name and its
/// value.
fn split_wrapper<'a>(name_to_value: &'a [char], arg_close: &'a [char]) -> (r: (
    &'a [char],
    &'a [char],
))
    ensures
        name_and_wrapper(name_to_value@, arg_close@) == (r.0@, r.1@),
{
    let len: usize = name_to_value.len();
    let none: &'a [char] = text::tail(name_to_value, len);
    assert(none@ =~= Seq::empty());
    match text::strip_suffix(name_to_value, arg_close) {
        Some(bare) => if arg_close.len() > 0 && bare.len() > 0 {
            (bare, arg_close)
        } else {
            (name_to_value, none)
        },
        None => (name_to_value, none),
    }
}

/// The format of a call that renders a separator between arguments.
pub fn derive_separated_format(region: &[char], no_args: &[char], m: Marks) -> (r: Option<
    ToolFormat,
>)
    requires
        within(m@, region@),
    ensures
        format_option(r) == separated_format(region@, no_args@, m@),
{
    let name_len: usize = text::chars_of(NAME).len();
    let arg1_len: usize = text::chars_of(ARG1).len();
    let val1_len: usize = text::chars_of(VAL1).len();
    let arg2_len: usize = text::chars_of(ARG2).len();
    let val2_len: usize = text::chars_of(VAL2).len();
    let name_close: &[char] = match between(region, m.name, name_len, m.arg1) {
        Some(t) => t,
        None => {
            return None;
        },
    };
    let name_to_value: &[char] = match between(region, m.arg1, arg1_len, m.val1) {
        Some(t) => t,
        None => {
            return None;
        },
    };
    let val1_to_arg2: &[char] = match between(region, m.val1, val1_len, m.arg2) {
        Some(t) => t,
        None => {
            return None;
        },
    };
    let arg2_to_val2: &[char] = match between(region, m.arg2, arg2_len, m.val2) {
        Some(t) => t,
        None => {
            return None;
        },
    };
    let after_name: &[char] = match find_after_bare_name(no_args) {
        Some(t) => t,
        None => {
            return None;
        },
    };
    let after_val2: &[char] = text::after(region, m.val2, val2_len);
    let call_close: &[char] = match text::strip_prefix(after_name, name_close) {
        Some(t) => t,
        None => {
            return None;
        },
    };
    let closing_at: usize = match text::find(after_val2, call_close) {
        Some(at) => at,
        None => {
            return None;
        },
    };
    let arg_close: &[char] = text::head(after_val2, closing_at);
    let arg_sep: &[char] = match text::strip_prefix(val1_to_arg2, arg_close) {
        Some(t) => t,
        None => {
            return None;
        },
    };
    if !text::same(arg2_to_val2, name_to_value) {
        return None;
    }
    let (arg_name_close, value_open) = split_wrapper(name_to_value, arg_close);
    if name_close.len() == 0 || arg_name_close.len() == 0 || arg_sep.len() == 0 || call_close.len()
        == 0 {
        return None;
    }
    if text::has(arg_sep, arg_name_close) || text::starts_with(call_close, arg_sep) {
        return None;
    }
    Some(
        ToolFormat::Separated {
            call_open: text::string_of(text::head(region, m.name)),
            name_close: text::string_of(name_close),
            arg_name_close: text::string_of(arg_name_close),
            value_open: text::string_of(value_open),
            arg_close: text::string_of(arg_close),
            arg_sep: text::string_of(arg_sep),
            call_close: text::string_of(call_close),
        },
    )
}

/// The sentinels stand in the order in which a call is written.
pub open spec fn emitted_in_order(p: Places) -> bool {
    p.name < p.arg1 < p.val1 < p.arg2 < p.val2
}

/// How a model writes a tool call, from what its template renders: a plain reply, a call with
/// two arguments and a call with none. One JSON object where the payload parses as one, else one
/// delimited block per argument, else a separator between arguments; nothing where a sentinel is
/// missing or none of the three fits.
pub open spec fn call_format(
    plain: Seq<char>,
    with_calls: Seq<char>,
    no_args: Seq<char>,
) -> Option<ToolFormatView> {
    match (divergence(plain, with_calls), divergence(plain, no_args)) {
        (Some(region), Some(no_args_region)) => match places(region) {
            Some(p) => match json_format(region) {
                Some(format) => Some(format),
                None => if emitted_in_order(p) {
                    match delimited_format(region, no_args_region, p) {
                        Some(format) => Some(format),
                        None => separated_format(region, no_args_region, p),
                    }
                } else {
                    None
                },
            },
            None => None,
        },
        _ => None,
    }
}

/// How a model writes a tool call, from what its template renders for a plain reply, for a call
/// with two arguments and for a call with none.
pub fn format_from_renders(plain: &str, with_calls: &str, no_args: &str) -> (r: Option<ToolFormat>)
    ensures
        format_option(r) == call_format(plain@, with_calls@, no_args@),
{
    let region: Vec<char> = match diverging_region(plain, with_calls) {
        Some(region) => text::chars_of(region),
        None => {
            return None;
        },
    };
    let no_args_region: Vec<char> = match diverging_region(plain, no_args) {
        Some(region) => text::chars_of(region),
        None => {
            return None;
        },
    };
    let marks: Marks = match find_marks(region.as_slice()) {
        Some(marks) => marks,
        None => {
            return None;
        },
    };
    match derive_json_format(region.as_slice()) {
        Some(format) => {
            return Some(format);
        },
        None => {},
    }
    if !(marks.name < marks.arg1 && marks.arg1 < marks.val1 && marks.val1 < marks.arg2 && marks.arg2
        < marks.val2) {
        return None;
    }
    match derive_delimited_format(region.as_slice(), no_args_region.as_slice(), marks) {
        Some(format) => Some(format),
        None => derive_separated_format(region.as_slice(), no_args_region.as_slice(), marks),
    }
}

/// A transcript with a plain reply.
pub open spec fn plain_transcript() -> JsonView {
    JsonView::Array(seq![message_json("user"@, USER@), message_json("assistant"@, PLAIN@)])
}

/// A reply that calls the probe tool with `arguments`.
pub open spec fn call_message_json(arguments: JsonView) -> JsonView {
    JsonView::Object(
        seq![
            entry("content"@, JsonView::Text(""@)),
            entry("role"@, JsonView::Text("assistant"@)),
            entry(
                "tool_calls"@,
                JsonView::Array(
                    seq![
                        JsonView::Object(
                            seq![
                                entry(
                                    "function"@,
                                    JsonView::Object(
                                        seq![
                                            entry("arguments"@, arguments),
                                            entry("name"@, JsonView::Text(NAME@)),
                                        ],
                                    ),
                                ),
                                entry("type"@, JsonView::Text("function"@)),
                            ],
                        ),
                    ],
                ),
            ),
        ],
    )
}

/// A transcript whose reply calls the probe tool with `arguments`.
pub open spec fn call_transcript(arguments: JsonView) -> JsonView {
    JsonView::Array(seq![message_json("user"@, USER@), call_message_json(arguments)])
}

/// Two arguments.
pub open spec fn probe_arguments() -> JsonView {
    JsonView::Object(
        seq![entry(ARG1@, JsonView::Text(VAL1@)), entry(ARG2@, JsonView::Text(VAL2@))],
    )
}

fn call_messages(arguments: Json) -> (r: Json)
    ensures
        r@ == call_transcript(arguments@),
{
    let function: Json = object2("arguments", arguments, "name", Json::text(NAME));
    let call: Json = object2("function", function, "type", Json::text("function"));
    let reply: Json = object3(
        "content",
        Json::text(""),
        "role",
        Json::text("assistant"),
        "tool_calls",
        array1(call),
    );
    array2(message("user", USER), reply)
}

/// Recovers how a model emits a tool call from its template, or `None` where the template renders
/// one in no shape that can be read back.
pub fn derive_tool_call_format<F: Fn(&str, &Json, Option<&Json>) -> Option<String>>(
    template_text: &str,
    render: &F,
) -> (r: Option<ToolFormat>)
    requires
        total(*render),
    ensures
        exists|
            plain: Option<Seq<char>>,
            with_calls: Option<Seq<char>>,
            no_args: Option<Seq<char>>,
        |
            {
                &&& #[trigger] may_render(
                    *render,
                    template_text,
                    plain_transcript(),
                    None,
                    plain,
                )
                &&& (plain is Some ==> may_render(
                    *render,
                    template_text,
                    call_transcript(probe_arguments()),
                    None,
                    with_calls,
                ))
                &&& (plain is Some && with_calls is Some ==> may_render(
                    *render,
                    template_text,
                    call_transcript(JsonView::Object(Seq::empty())),
                    None,
                    no_args,
                ))
                &&& format_option(r) == #[trigger] format_of_renders(plain, with_calls, no_args)
            },
{
    let plain_messages: Json = array2(message("user", USER), message("assistant", PLAIN));
    let plain: Option<String> = render(template_text, &plain_messages, None);
    assert(may_render(*render, template_text, plain_transcript(), None, text_option(plain)));
    let plain_text: String = match plain {
        Some(plain_text) => plain_text,
        None => {
            assert(format_of_renders(None, None, None) is None);
            return None;
        },
    };
    assert(text_option(plain) == Some(plain_text@));
    let two: Json = object2(ARG1, Json::text(VAL1), ARG2, Json::text(VAL2));
    let with_messages: Json = call_messages(two);
    let with_calls: Option<String> = render(template_text, &with_messages, None);
    assert(may_render(
        *render,
        template_text,
        call_transcript(probe_arguments()),
        None,
        text_option(with_calls),
    ));
    let with_calls_text: String = match with_calls {
        Some(with_calls_text) => with_calls_text,
        None => {
            assert(format_of_renders(text_option(plain), None, None) is None);
            return None;
        },
    };
    assert(text_option(with_calls) == Some(with_calls_text@));
    let nothing: Vec<(String, Json)> = Vec::new();
    assert(json::entries_view(nothing@) =~= Seq::empty());
    let no_args_messages: Json = call_messages(Json::object(nothing));
    let no_args: Option<String> = render(template_text, &no_args_messages, None);
    assert(may_render(
        *render,
        template_text,
        call_transcript(JsonView::Object(Seq::empty())),
        None,
        text_option(no_args),
    ));
    match no_args {
        Some(no_args_text) => {
            let r: Option<ToolFormat> = format_from_renders(
                plain_text.as_str(),
                with_calls_text.as_str(),
                no_args_text.as_str(),
            );
            assert(format_option(r) == format_of_renders(
                text_option(plain),
                text_option(with_calls),
                text_option(no_args),
            ));
            r
        },
        None => {
            assert(format_of_renders(text_option(plain), text_option(with_calls), None) is None);
            None
        },
    }
}

/// How a model writes a tool call, from the three renderings; nothing where one of them failed.
pub open spec fn format_of_renders(
    plain: Option<Seq<char>>,
    with_calls: Option<Seq<char>>,
    no_args: Option<Seq<char>>,
) -> Option<ToolFormatView> {
    match (plain, with_calls, no_args) {
        (Some(plain), Some(with_calls), Some(no_args)) => call_format(plain, with_calls, no_args),
        _ => None,
    }
}

/// A transcript that opens a conversation: the system message, where there is one, and a user
/// message that is a sentinel.
pub open spec fn opening_transcript(system: Option<Seq<char>>) -> JsonView {
    match system {
        Some(system) => JsonView::Array(
            seq![message_json("system"@, system), message_json("user"@, USER@)],
        ),
        None => user_transcript(),
    }
}

/// What stands before the user's message in the rendering of an opening.
pub open spec fn opening_of(rendered: Option<Seq<char>>) -> Option<Seq<char>> {
    match rendered {
        Some(s) => match text::index_of(s, USER@) {
            Some(at) => Some(s.take(at)),
            None => None,
        },
        None => None,
    }
}

/// What stands before the user's message in the rendering of an opening.
pub fn opening_from(rendered: &str) -> (r: Option<String>)
    ensures
        text_option(r) == opening_of(Some(rendered@)),
{
    let cs: Vec<char> = text::chars_of(rendered);
    match text::find(cs.as_slice(), text::chars_of(USER).as_slice()) {
        Some(at) => Some(text::string_of(text::head(cs.as_slice(), at))),
        None => None,
    }
}

/// The content of an optional text.
pub open spec fn str_option(s: Option<&str>) -> Option<Seq<char>> {
    match s {
        Some(t) => Some(t@),
        None => None,
    }
}

/// The content of an optional tool list.
pub open spec fn tools_option(tools: Option<&[ToolSpec]>) -> Option<JsonView> {
    match tools {
        Some(tools) => Some(protocol::tools_json(tools@)),
        None => None,
    }
}

/// Renders the text that opens a conversation: everything that the template emits before the
/// first user message's own content.
pub fn render_opening<F: Fn(&str, &Json, Option<&Json>) -> Option<String>>(
    template_text: &str,
    system: Option<&str>,
    tools: Option<&[ToolSpec]>,
    render: &F,
) -> (r: Option<String>)
    requires
        total(*render),
    ensures
        exists|out: Option<Seq<char>>| #[trigger]
            may_render(
                *render,
                template_text,
                opening_transcript(str_option(system)),
                tools_option(tools),
                out,
            ) && text_option(r) == opening_of(out),
{
    let messages: Json = match system {
        Some(system) => array2(message("system", system), message("user", USER)),
        None => user_messages(),
    };
    let out: Option<String> = match tools {
        Some(tools) => {
            let list: Json = protocol::tools_to_json(tools);
            let out: Option<String> = render(template_text, &messages, Some(&list));
            assert(json_option(Some(&list)) == Some(list@));
            out
        },
        None => render(template_text, &messages, None),
    };
    assert(may_render(
        *render,
        template_text,
        opening_transcript(str_option(system)),
        tools_option(tools),
        text_option(out),
    ));
    match out {
        Some(rendered) => opening_from(rendered.as_str()),
        None => None,
    }
}

/// The literal text that a template puts around a sequence of tool results.
#[derive(Debug, PartialEq, Eq)]
pub struct ToolResultSpans {
    /// Before the first result; opens the turn.
    pub open: String,
    /// Between two results.
    pub separator: String,
    /// After the last result, up to where the next reply's own content begins.
    pub close: String,
}

/// The content of a [`ToolResultSpans`].
pub struct SpansView {
    pub open: Seq<char>,
    pub separator: Seq<char>,
    pub close: Seq<char>,
}

impl View for ToolResultSpans {
    type V = SpansView;

    open spec fn view(&self) -> SpansView {
        SpansView { open: self.open@, separator: self.separator@, close: self.close@ }
    }
}

impl Clone for ToolResultSpans {
    fn clone(&self) -> (r: Self)
        ensures
            r@ == self@,
    {
        ToolResultSpans {
            open: self.open.clone(),
            separator: self.separator.clone(),
            close: self.close.clone(),
        }
    }
}

/// The first `n` of `parts` with `separator` between them.
pub open spec fn joined_parts(parts: Seq<String>, separator: Seq<char>, n: int) -> Seq<char>
    decreases n,
{
    if n <= 0 {
        Seq::empty()
    } else if n == 1 {
        parts[0]@
    } else {
        joined_parts(parts, separator, n - 1) + separator + parts[n - 1]@
    }
}

impl SpansView {
    /// `results` in the template's own shape.
    pub open spec fn around(self, results: Seq<String>) -> Seq<char> {
        self.open + joined_parts(results, self.separator, results.len() as int) + self.close
    }
}

impl ToolResultSpans {
    /// Wraps `results` in the template's own shape.
    pub fn render(&self, results: &[String]) -> (r: String)
        ensures
            r@ == self@.around(results@),
    {
        let mut out: String = self.open.clone();
        let ghost open = self.open@;
        assert(out@ =~= open + joined_parts(results@, self.separator@, 0));
        let mut i: usize = 0;
        while i < results.len()
            invariant
                i <= results.len(),
                out@ == open + joined_parts(results@, self.separator@, i as int),
            decreases results.len() - i,
        {
            let ghost before = joined_parts(results@, self.separator@, i as int);
            if i > 0 {
                out.append(self.separator.as_str());
                assert(out@ =~= open + (before + self.separator@));
            }
            out.append(results[i].as_str());
            proof {
                if i > 0 {
                    assert(out@ =~= open + (before + self.separator@ + results@[i as int]@));
                } else {
                    assert(out@ =~= open + results@[i as int]@);
                }
            }
            i += 1;
        }
        out.append(self.close.as_str());
        out
    }
}

/// The spans around two results, read between an anchor, the results and a reply that stand in
/// that order in what was rendered.
pub open spec fn spans_between(rendered: Option<Seq<char>>, anchor: Seq<char>) -> Option<SpansView> {
    match rendered {
        Some(s) => match (
            text::index_of(s, anchor),
            text::index_of(s, RESULT@),
            text::index_of(s, RESULT2@),
            text::index_of(s, REPLY@),
        ) {
            (Some(a), Some(first), Some(second), Some(reply)) => if a < first < second < reply {
                match (
                    piece(s, a + anchor.len(), first),
                    piece(s, first + RESULT@.len(), second),
                    piece(s, second + RESULT2@.len(), reply),
                ) {
                    (Some(open), Some(separator), Some(close)) => Some(
                        SpansView { open, separator, close },
                    ),
                    _ => None,
                }
            } else {
                None
            },
            _ => None,
        },
        None => None,
    }
}

/// Whether there are spans, and which.
pub open spec fn spans_option(spans: Option<ToolResultSpans>) -> Option<SpansView> {
    match spans {
        Some(s) => Some(s@),
        None => None,
    }
}

/// The spans around two results, read between an anchor, the results and a reply that stand in
/// that order in `rendered`.
pub fn spans_from(rendered: &str, anchor: &str) -> (r: Option<ToolResultSpans>)
    ensures
        spans_option(r) == spans_between(Some(rendered@), anchor@),
{
    let all: Vec<char> = text::chars_of(rendered);
    let s: &[char] = all.as_slice();
    let anchor_chars: Vec<char> = text::chars_of(anchor);
    let result_chars: Vec<char> = text::chars_of(RESULT);
    let result2_chars: Vec<char> = text::chars_of(RESULT2);
    let a: usize = match text::find(s, anchor_chars.as_slice()) {
        Some(at) => at,
        None => {
            return None;
        },
    };
    let first: usize = match text::find(s, result_chars.as_slice()) {
        Some(at) => at,
        None => {
            return None;
        },
    };
    let second: usize = match text::find(s, result2_chars.as_slice()) {
        Some(at) => at,
        None => {
            return None;
        },
    };
    let reply: usize = match text::find(s, text::chars_of(REPLY).as_slice()) {
        Some(at) => at,
        None => {
            return None;
        },
    };
    if !(a < first && first < second && second < reply) {
        return None;
    }
    let open: Option<&[char]> = between(s, a, anchor_chars.len(), first);
    let separator: Option<&[char]> = between(s, first, result_chars.len(), second);
    let close: Option<&[char]> = between(s, second, result2_chars.len(), reply);
    match (open, separator, close) {
        (Some(open), Some(separator), Some(close)) => Some(
            ToolResultSpans {
                open: text::string_of(open),
                separator: text::string_of(separator),
                close: text::string_of(close),
            },
        ),
        _ => None,
    }
}

/// A transcript with two results as messages of their own.
pub open spec fn results_by_role() -> JsonView {
    JsonView::Array(
        seq![
            message_json("user"@, USER@),
            message_json("assistant"@, PLAIN@),
            message_json("tool"@, RESULT@),
            message_json("tool"@, RESULT2@),
            message_json("assistant"@, REPLY@),
        ],
    )
}

/// One result that a reply carries, of a tool without a name.
pub open spec fn response_json(response: Seq<char>) -> JsonView {
    JsonView::Object(
        seq![entry("name"@, JsonView::Text(""@)), entry("response"@, JsonView::Text(response))],
    )
}

/// A transcript with two results carried by a reply.
pub open spec fn results_native() -> JsonView {
    JsonView::Array(
        seq![
            message_json("user"@, USER@),
            JsonView::Object(
                seq![
                    entry("content"@, JsonView::Text(""@)),
                    entry("role"@, JsonView::Text("assistant"@)),
                    entry(
                        "tool_responses"@,
                        JsonView::Array(seq![response_json(RESULT@), response_json(RESULT2@)]),
                    ),
                ],
            ),
            message_json("assistant"@, REPLY@),
        ],
    )
}

fn by_role_messages() -> (r: Json)
    ensures
        r@ == results_by_role(),
{
    let items: Vec<Json> = vec![
        message("user", USER),
        message("assistant", PLAIN),
        message("tool", RESULT),
        message("tool", RESULT2),
        message("assistant", REPLY),
    ];
    assert(json::items_view(items@) =~= results_by_role()->Array_0);
    Json::array(items)
}

fn native_messages() -> (r: Json)
    ensures
        r@ == results_native(),
{
    let responses: Json = array2(
        object2("name", Json::text(""), "response", Json::text(RESULT)),
        object2("name", Json::text(""), "response", Json::text(RESULT2)),
    );
    let carrier: Json = object3(
        "content",
        Json::text(""),
        "role",
        Json::text("assistant"),
        "tool_responses",
        responses,
    );
    let items: Vec<Json> = vec![message("user", USER), carrier, message("assistant", REPLY)];
    assert(json::items_view(items@) =~= results_native()->Array_0);
    Json::array(items)
}

fn derive_tool_result_spans_by_role<F: Fn(&str, &Json, Option<&Json>) -> Option<String>>(
    template_text: &str,
    render: &F,
) -> (r: Option<ToolResultSpans>)
    requires
        total(*render),
    ensures
        exists|out: Option<Seq<char>>| #[trigger]
            may_render(*render, template_text, results_by_role(), None, out) && spans_option(r)
                == spans_between(out, PLAIN@),
{
    let messages: Json = by_role_messages();
    let out: Option<String> = render(template_text, &messages, None);
    assert(may_render(*render, template_text, results_by_role(), None, text_option(out)));
    match out {
        Some(rendered) => spans_from(rendered.as_str(), PLAIN),
        None => None,
    }
}

fn derive_tool_result_spans_native<F: Fn(&str, &Json, Option<&Json>) -> Option<String>>(
    template_text: &str,
    render: &F,
) -> (r: Option<ToolResultSpans>)
    requires
        total(*render),
    ensures
        exists|out: Option<Seq<char>>| #[trigger]
            may_render(*render, template_text, results_native(), None, out) && spans_option(r)
                == spans_between(out, USER@),
{
    let messages: Json = native_messages();
    let out: Option<String> = render(template_text, &messages, None);
    assert(may_render(*render, template_text, results_native(), None, text_option(out)));
    match out {
        Some(rendered) => spans_from(rendered.as_str(), USER),
        None => None,
    }
}

/// The spans that two renderings give: those of results as messages of their own, else those of
/// results that a reply carries.
pub open spec fn result_spans(
    by_role: Option<Seq<char>>,
    native: Option<Seq<char>>,
) -> Option<SpansView> {
    match spans_between(by_role, PLAIN@) {
        Some(spans) => Some(spans),
        None => spans_between(native, USER@),
    }
}

/// Recovers the text around a sequence of tool results by probing with two of them.
pub fn derive_tool_result_spans<F: Fn(&str, &Json, Option<&Json>) -> Option<String>>(
    template_text: &str,
    render: &F,
) -> (r: Option<ToolResultSpans>)
    requires
        total(*render),
    ensures
        exists|by_role: Option<Seq<char>>, native: Option<Seq<char>>|
            {
                &&& #[trigger] may_render(
                    *render,
                    template_text,
                    results_by_role(),
                    None,
                    by_role,
                )
                &&& (spans_between(by_role, PLAIN@) is None ==> may_render(
                    *render,
                    template_text,
                    results_native(),
                    None,
                    native,
                ))
                &&& spans_option(r) == #[trigger] result_spans(by_role, native)
            },
{
    let by_role: Option<ToolResultSpans> = derive_tool_result_spans_by_role(template_text, render);
    let ghost first = choose|out: Option<Seq<char>>| #[trigger]
        may_render(*render, template_text, results_by_role(), None, out) && spans_option(by_role)
            == spans_between(out, PLAIN@);
    match by_role {
        Some(spans) => {
            assert(spans_option(Some(spans)) == result_spans(first, None));
            Some(spans)
        },
        None => {
            let native: Option<ToolResultSpans> = derive_tool_result_spans_native(
                template_text,
                render,
            );
            let ghost second = choose|out: Option<Seq<char>>| #[trigger]
                may_render(*render, template_text, results_native(), None, out) && spans_option(
                    native,
                ) == spans_between(out, USER@);
            assert(spans_option(native) == result_spans(first, second));
            native
        },
    }
}

/// A message is given with its role and its text.
pub proof fn law_what_a_message_says(role: Seq<char>, content: Seq<char>)
    ensures
        message_json(role, content).lookup("role"@) == Some(JsonView::Text(role)),
        message_json(role, content).lookup("content"@) == Some(JsonView::Text(content)),
{
    reveal_strlit("role");
    reveal_strlit("content");
    let entries = message_json(role, content)->Object_0;
    assert("role"@.len() != "content"@.len());
    json::law_what_stands_under_a_key(entries, "content"@, 0, JsonView::Null);
    json::law_what_stands_under_a_key(entries, "role"@, 1, JsonView::Null);
}

/// A reply that calls a tool names it and carries its arguments; it says nothing itself.
pub proof fn law_what_a_call_says(arguments: JsonView)
    ensures
        ({
            let call = call_message_json(arguments);
            let calls = call.lookup("tool_calls"@)->0;
            let function = calls->Array_0[0].lookup("function"@)->0;
            &&& call.lookup("role"@) == Some(JsonView::Text("assistant"@))
            &&& call.lookup("content"@) == Some(JsonView::Text(""@))
            &&& call.lookup("tool_calls"@) is Some
            &&& calls is Array
            &&& calls->Array_0.len() == 1
            &&& calls->Array_0[0].lookup("type"@) == Some(JsonView::Text("function"@))
            &&& calls->Array_0[0].lookup("function"@) is Some
            &&& function.lookup("name"@) == Some(JsonView::Text(NAME@))
            &&& function.lookup("arguments"@) == Some(arguments)
        }),
{
    reveal_strlit("content");
    reveal_strlit("role");
    reveal_strlit("tool_calls");
    reveal_strlit("function");
    reveal_strlit("type");
    reveal_strlit("name");
    reveal_strlit("arguments");
    assert("content"@.len() == 7 && "role"@.len() == 4 && "tool_calls"@.len() == 10);
    assert("function"@.len() == 8 && "type"@.len() == 4);
    assert("name"@.len() == 4 && "arguments"@.len() == 9);
    let call = call_message_json(arguments)->Object_0;
    json::law_what_stands_under_a_key(call, "content"@, 0, JsonView::Null);
    json::law_what_stands_under_a_key(call, "role"@, 1, JsonView::Null);
    json::law_what_stands_under_a_key(call, "tool_calls"@, 2, JsonView::Null);
    let one = call[2].value->Array_0[0]->Object_0;
    json::law_what_stands_under_a_key(one, "function"@, 0, JsonView::Null);
    json::law_what_stands_under_a_key(one, "type"@, 1, JsonView::Null);
    let function = one[0].value->Object_0;
    json::law_what_stands_under_a_key(function, "arguments"@, 0, JsonView::Null);
    json::law_what_stands_under_a_key(function, "name"@, 1, JsonView::Null);
}

/// A conversation is opened with the user's message, behind the system text where there is one.
pub proof fn law_what_opens_a_transcript(system: Option<Seq<char>>, arguments: JsonView)
    ensures
        opening_transcript(system) is Array,
        opening_transcript(system)->Array_0.last() == message_json("user"@, USER@),
        system is None ==> opening_transcript(system)->Array_0.len() == 1,
        system matches Some(s) ==> opening_transcript(system)->Array_0.len() == 2
            && opening_transcript(system)->Array_0[0] == message_json("system"@, s),
        call_transcript(arguments) is Array,
        call_transcript(arguments)->Array_0 == seq![
            message_json("user"@, USER@),
            call_message_json(arguments),
        ],
{
}

} // verus!
