//! Rendering a model's own Jinja chat template.

use vstd::prelude::*;
use crate::json;
use crate::json::{EntryView, Json, JsonView};
use crate::tool_probe;

verus! {

/// A template engine.
#[verifier::external_type_specification]
#[verifier::external_body]
pub struct ExEnvironment<'source>(minijinja::Environment<'source>);

/// A value that a template computes with.
#[verifier::external_type_specification]
#[verifier::external_body]
pub struct ExTemplateValue(minijinja::Value);

/// What went wrong in a template.
#[verifier::external_type_specification]
#[verifier::external_body]
pub struct ExTemplateError(minijinja::Error);

/// How a template engine is set up.
pub struct Setup {
    /// The first newline after a block tag is removed.
    pub trim_blocks: bool,
    /// White space before a block tag is removed.
    pub lstrip_blocks: bool,
    /// Methods that Python's strings, maps and lists have resolve.
    pub python_methods: bool,
    /// Functions that fail with their argument for a message.
    pub raising: Set<Seq<char>>,
    /// Templates by name.
    pub templates: Map<Seq<char>, Seq<char>>,
}

/// How `env` is set up.
pub uninterp spec fn setup_of(env: minijinja::Environment<'_>) -> Setup;

/// What an error of the engine tells.
pub struct Failure {
    /// Whether `minijinja::Error::kind` gives `InvalidOperation`.
    pub invalid_operation: bool,
    /// What `minijinja::Error::detail` gives.
    pub detail: Option<Seq<char>>,
}

/// What `e` tells.
pub uninterp spec fn failure_of(e: minijinja::Error) -> Failure;

/// Whether an engine so set up can compile a template with that name and source.
pub uninterp spec fn compiles(setup: Setup, name: Seq<char>, source: Seq<char>) -> bool;

/// What an engine so set up renders for its template `name` in a context, if it renders
/// anything.
pub uninterp spec fn rendered(setup: Setup, name: Seq<char>, context: JsonView) -> Option<Seq<char>>;

/// `minijinja::Environment::new`: none of what [`Setup`] speaks of is there or switched on.
#[verifier::external_body]
fn new_environment<'source>() -> (env: minijinja::Environment<'source>)
    ensures
        setup_of(env) == (Setup {
            trim_blocks: false,
            lstrip_blocks: false,
            python_methods: false,
            raising: Set::empty(),
            templates: Map::empty(),
        }),
{
    minijinja::Environment::new()
}

/// `minijinja::Environment::set_trim_blocks`, which acts on templates that are added afterwards: it
/// is called before there are any.
#[verifier::external_body]
fn set_trim_blocks(env: &mut minijinja::Environment<'_>, yes: bool)
    requires
        setup_of(*old(env)).templates == Map::<Seq<char>, Seq<char>>::empty(),
    ensures
        setup_of(*final(env)) == (Setup { trim_blocks: yes, ..setup_of(*old(env)) }),
{
    env.set_trim_blocks(yes);
}

/// `minijinja::Environment::set_lstrip_blocks`, which acts on templates that are added afterwards:
/// it is called before there are any.
#[verifier::external_body]
fn set_lstrip_blocks(env: &mut minijinja::Environment<'_>, yes: bool)
    requires
        setup_of(*old(env)).templates == Map::<Seq<char>, Seq<char>>::empty(),
    ensures
        setup_of(*final(env)) == (Setup { lstrip_blocks: yes, ..setup_of(*old(env)) }),
{
    env.set_lstrip_blocks(yes);
}

/// `minijinja::Environment::set_unknown_method_callback` with
/// `minijinja_contrib::pycompat::unknown_method_callback`.
#[verifier::external_body]
fn set_python_methods(env: &mut minijinja::Environment<'_>)
    ensures
        setup_of(*final(env)) == (Setup { python_methods: true, ..setup_of(*old(env)) }),
{
    env.set_unknown_method_callback(minijinja_contrib::pycompat::unknown_method_callback);
}

/// `minijinja::Error::new` with the kind `InvalidOperation`: the error has that kind, and `msg` for its
/// detail.
#[verifier::external_body]
fn invalid_operation(msg: String) -> (e: minijinja::Error)
    ensures
        failure_of(e) == (Failure { invalid_operation: true, detail: Some(msg@) }),
{
    minijinja::Error::new(minijinja::ErrorKind::InvalidOperation, msg)
}

/// What a template calls to reject its input: it fails, whatever the message, with an invalid
/// operation that carries the message.
pub fn raise_exception(msg: String) -> (r: Result<minijinja::Value, minijinja::Error>)
    ensures
        r matches Err(e) && failure_of(e) == (Failure { invalid_operation: true, detail: Some(msg@) }),
{
    Err(invalid_operation(msg))
}

/// `minijinja::Environment::add_function` with [`raise_exception`].
#[verifier::external_body]
fn add_raising_function<'source>(env: &mut minijinja::Environment<'source>, name: &'source str)
    ensures
        setup_of(*final(env)) == (Setup {
            raising: setup_of(*old(env)).raising.insert(name@),
            ..setup_of(*old(env))
        }),
{
    env.add_function(name, raise_exception);
}

/// `minijinja::Environment::add_template`. The template is there if, and only if, it compiles;
/// of an engine that refused one nothing is stated.
#[verifier::external_body]
fn add_template<'source>(
    env: &mut minijinja::Environment<'source>,
    name: &'source str,
    source: &'source str,
) -> (r: Result<(), minijinja::Error>)
    ensures
        r is Ok == compiles(setup_of(*old(env)), name@, source@),
        r is Ok ==> setup_of(*final(env)) == (Setup {
            templates: setup_of(*old(env)).templates.insert(name@, source@),
            ..setup_of(*old(env))
        }),
{
    env.add_template(name, source)
}

/// `minijinja::Environment::get_template` and `minijinja::Template::render` in a context that is
/// a JSON object. What comes out depends on how the engine is set up, on the name and on what
/// the context holds alone.
#[verifier::external_body]
fn render_template(env: &minijinja::Environment<'_>, name: &str, context: &serde_json::Value) -> (r:
    Option<String>)
    ensures
        tool_probe::text_option(r) == rendered(setup_of(*env), name@, json::content(*context)),
{
    env.get_template(name).ok()?.render(context).ok()
}

/// The engine that chat templates are written for, without a template.
pub open spec fn chat_setup() -> Setup {
    Setup {
        trim_blocks: true,
        lstrip_blocks: true,
        python_methods: true,
        raising: set!["raise_exception"@],
        templates: Map::empty(),
    }
}

/// The engine that chat templates are written for: block tags leave no white space behind,
/// Python's methods resolve, and `raise_exception` makes the rendering fail.
pub fn environment<'source>() -> (env: minijinja::Environment<'source>)
    ensures
        setup_of(env) == chat_setup(),
{
    let mut env: minijinja::Environment<'source> = new_environment();
    set_trim_blocks(&mut env, true);
    set_lstrip_blocks(&mut env, true);
    set_python_methods(&mut env);
    add_raising_function(&mut env, "raise_exception");
    assert(Set::<Seq<char>>::empty().insert("raise_exception"@) =~= set!["raise_exception"@]);
    env
}

/// What a chat template sees. Without tools there is no entry for them, not an empty one.
pub open spec fn context_json(
    messages: JsonView,
    tools: Option<JsonView>,
    add_generation_prompt: bool,
) -> JsonView {
    let always = seq![
        EntryView {
            key: "add_generation_prompt"@,
            value: JsonView::Bool(add_generation_prompt),
        },
        EntryView { key: "messages"@, value: messages },
    ];
    match tools {
        Some(tools) => JsonView::Object(always.push(EntryView { key: "tools"@, value: tools })),
        None => JsonView::Object(always),
    }
}

/// What a chat template renders for a transcript, if it renders anything.
pub open spec fn chat_rendering(
    template: Seq<char>,
    messages: JsonView,
    tools: Option<JsonView>,
    add_generation_prompt: bool,
) -> Option<Seq<char>> {
    if compiles(chat_setup(), "chat"@, template) {
        rendered(
            (Setup { templates: map!["chat"@ => template], ..chat_setup() }),
            "chat"@,
            json::normal(context_json(messages, tools, add_generation_prompt)),
        )
    } else {
        None
    }
}

/// Renders `template_text` for `messages`, optional `tools`, and with or without the marker after
/// which a reply is generated. `None` where the template cannot be compiled or rendered.
pub fn render_json(
    template_text: &str,
    messages: &Json,
    tools: Option<&Json>,
    add_generation_prompt: bool,
) -> (r: Option<String>)
    ensures
        tool_probe::text_option(r) == chat_rendering(
            template_text@,
            messages@,
            tool_probe::json_option(tools),
            add_generation_prompt,
        ),
{
    let mut env: minijinja::Environment<'_> = environment();
    match add_template(&mut env, "chat", template_text) {
        Ok(_) => {},
        Err(_) => {
            return None;
        },
    }
    assert(Map::<Seq<char>, Seq<char>>::empty().insert("chat"@, template_text@)
        =~= map!["chat"@ => template_text@]);
    let mut entries: Vec<(String, Json)> = vec![
        ("add_generation_prompt".to_string(), Json::Bool(add_generation_prompt)),
        ("messages".to_string(), messages.copied()),
    ];
    match tools {
        Some(tools) => {
            entries.push(("tools".to_string(), tools.copied()));
        },
        None => {},
    }
    assert(json::entries_view(entries@) =~= context_json(
        messages@,
        tool_probe::json_option(tools),
        add_generation_prompt,
    )->Object_0);
    let context: serde_json::Value = json::value_of(&Json::object(entries));
    render_template(&env, "chat", &context)
}

/// A transcript of messages that have a role and a text.
pub open spec fn messages_json(messages: Seq<(&str, &str)>) -> JsonView {
    JsonView::Array(
        Seq::new(
            messages.len(),
            |i: int| tool_probe::message_json(messages[i].0@, messages[i].1@),
        ),
    )
}

/// Renders `template_text` for messages that have a role and a text.
pub fn render_messages(
    template_text: &str,
    messages: &[(&str, &str)],
    add_generation_prompt: bool,
) -> (r: Option<String>)
    ensures
        tool_probe::text_option(r) == chat_rendering(
            template_text@,
            messages_json(messages@),
            None,
            add_generation_prompt,
        ),
{
    let mut items: Vec<Json> = Vec::new();
    let mut i: usize = 0;
    while i < messages.len()
        invariant
            i <= messages.len(),
            items@.len() == i,
            forall|j: int|
                0 <= j < i ==> items@[j]@ == tool_probe::message_json(
                    messages@[j].0@,
                    messages@[j].1@,
                ),
        decreases messages.len() - i,
    {
        items.push(tool_probe::message(messages[i].0, messages[i].1));
        i += 1;
    }
    assert(json::items_view(items@) =~= messages_json(messages@)->Array_0);
    render_json(template_text, &Json::array(items), None, add_generation_prompt)
}

/// A renderer for probe transcripts: never with the marker after which a reply is generated,
/// since a probe ends with a completed turn.
pub fn probe_renderer() -> (f: impl Fn(&str, &Json, Option<&Json>) -> Option<String>)
    ensures
        tool_probe::total(f),
        forall|template: &str, messages: &Json, tools: Option<&Json>, out: Option<String>| #[trigger]
            call_ensures(f, (template, messages, tools), out) ==> tool_probe::text_option(out)
                == chat_rendering(
                template@,
                messages@,
                tool_probe::json_option(tools),
                false,
            ),
{
    |template_text: &str, messages: &Json, tools: Option<&Json>| -> (r: Option<String>)
        ensures
            tool_probe::text_option(r) == chat_rendering(
                template_text@,
                messages@,
                tool_probe::json_option(tools),
                false,
            ),
        { render_json(template_text, messages, tools, false) }
}

/// A template that asks whether there are tools sees none where none are offered, not an empty
/// list; and sees the list, be it empty, where one is.
pub proof fn law_tools_are_absent_rather_than_empty(
    messages: JsonView,
    tools: JsonView,
    add_generation_prompt: bool,
)
    ensures
        json::normal(context_json(messages, None, add_generation_prompt)).lookup("tools"@) is None,
        json::normal(context_json(messages, Some(tools), add_generation_prompt)).lookup("tools"@)
            == Some(json::normal(tools)),
{
    reveal_strlit("add_generation_prompt");
    reveal_strlit("messages");
    reveal_strlit("tools");
    let prompt = JsonView::Bool(add_generation_prompt);
    let none = context_json(messages, None, add_generation_prompt)->Object_0;
    let some = context_json(messages, Some(tools), add_generation_prompt)->Object_0;
    reveal_with_fuel(json::normal_entries, 4);
    let first = json::entry_set(Seq::empty(), "add_generation_prompt"@, prompt);
    let second = json::entry_set(first, "messages"@, json::normal(messages));
    assert(json::normal(prompt) == prompt) by {
        reveal_with_fuel(json::normal, 2);
    }
    assert(json::normal_entries(none, 2) == second);
    assert(json::normal_entries(some, 2) == second);
    json::lemma_entry_set_in_order(Seq::empty(), "add_generation_prompt"@, prompt);
    json::lemma_entry_set_in_order(first, "messages"@, json::normal(messages));
    json::lemma_entry_set_lookup(Seq::empty(), "add_generation_prompt"@, prompt, "tools"@);
    json::lemma_entry_set_lookup(first, "messages"@, json::normal(messages), "tools"@);
    json::lemma_entry_set_lookup(second, "tools"@, json::normal(tools), "tools"@);
}

/// A template finds the messages under their name, in normal form, and whether a reply is to be
/// generated.
pub proof fn law_what_a_template_is_given(
    messages: JsonView,
    tools: Option<JsonView>,
    add_generation_prompt: bool,
)
    ensures
        ({
            let context = json::normal(context_json(messages, tools, add_generation_prompt));
            &&& context.lookup("messages"@) == Some(json::normal(messages))
            &&& context.lookup("add_generation_prompt"@) == Some(
                JsonView::Bool(add_generation_prompt),
            )
        }),
{
    reveal_strlit("add_generation_prompt");
    reveal_strlit("messages");
    reveal_strlit("tools");
    let context = context_json(messages, tools, add_generation_prompt);
    let entries = context->Object_0;
    assert("add_generation_prompt"@.len() != "messages"@.len());
    assert("tools"@.len() != "messages"@.len());
    assert("tools"@.len() != "add_generation_prompt"@.len());
    assert(entries[0].key == "add_generation_prompt"@);
    assert(entries[1].key == "messages"@);
    json::law_normal_form(entries, Seq::empty(), JsonView::Bool(add_generation_prompt), 0);
    json::law_normal_form(entries, Seq::empty(), JsonView::Bool(add_generation_prompt), 1);
}

/// Each message is given with its role and its text, in order.
pub proof fn law_messages_are_given_in_order(messages: Seq<(&str, &str)>, i: int)
    requires
        0 <= i < messages.len(),
    ensures
        messages_json(messages) is Array,
        messages_json(messages)->Array_0.len() == messages.len(),
        messages_json(messages)->Array_0[i].lookup("role"@) == Some(JsonView::Text(messages[i].0@)),
        messages_json(messages)->Array_0[i].lookup("content"@) == Some(
            JsonView::Text(messages[i].1@),
        ),
{
    tool_probe::law_what_a_message_says(messages[i].0@, messages[i].1@);
}

/// A template that compiles renders as the engine renders it, under that setup; one that does not
/// renders nothing.
pub proof fn law_what_a_template_renders(
    template: Seq<char>,
    messages: JsonView,
    tools: Option<JsonView>,
    add_generation_prompt: bool,
    setup: Setup,
)
    ensures
        !compiles(chat_setup(), "chat"@, template) ==> chat_rendering(
            template,
            messages,
            tools,
            add_generation_prompt,
        ) is None,
        compiles(chat_setup(), "chat"@, template) && setup.trim_blocks && setup.lstrip_blocks
            && setup.python_methods && setup.raising == set!["raise_exception"@] && setup.templates
            == map!["chat"@ => template] ==> chat_rendering(
            template,
            messages,
            tools,
            add_generation_prompt,
        ) == rendered(
            setup,
            "chat"@,
            json::normal(context_json(messages, tools, add_generation_prompt)),
        ),
{
}

} // verus!
