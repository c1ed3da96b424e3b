use rampipe::chat_template::{probe_renderer, raise_exception, render_json, render_messages};
use rampipe::conversation_template::{
    derive_conversation_template, prepare_tools, render_with_minijinja, template_from_probe,
};
use rampipe::json::Json;
use rampipe::protocol::ToolSpec;
use rampipe::tool_probe::derive_capabilities;

const CHATML_TEMPLATE: &str = "{% for message in messages %}<|im_start|>{{ message.role }}\n{{ message.content }}<|im_end|>\n\
                     {% endfor %}{% if add_generation_prompt %}<|im_start|>assistant\n{% endif %}";

#[test]
fn renders_a_trivial_template() {
    let rendered = render_messages(
        "{% for m in messages %}{{ m.role }}:{{ m.content }};{% endfor %}",
        &[("user", "hi")],
        false,
    )
    .expect("renders");
    assert_eq!(rendered, "user:hi;");
}

#[test]
fn a_template_raising_an_exception_fails_rather_than_panicking() {
    assert!(render_messages("{{ raise_exception('nope') }}", &[("user", "hi")], false).is_none());
}

#[test]
fn a_raised_exception_is_an_invalid_operation_with_its_message() {
    let error = raise_exception("no tools".to_string()).expect_err("raises");
    assert!(matches!(error.kind(), minijinja::ErrorKind::InvalidOperation));
    assert_eq!(error.detail(), Some("no tools"));
}

#[test]
fn tools_are_absent_rather_than_empty_when_not_supplied() {
    let template = "{% if tools is defined %}HAS{% else %}NONE{% endif %}";
    let none = Json::array(Vec::new());
    assert_eq!(render_json(template, &none, None, false).as_deref(), Some("NONE"));
    assert_eq!(
        render_json(template, &none, Some(&Json::array(Vec::new())), false).as_deref(),
        Some("HAS")
    );
}

#[test]
fn python_string_methods_resolve() {
    let rendered = render_messages(
        "{% if messages[0].content.startswith('hi') %}yes{% else %}no{% endif %}",
        &[("user", "hi there")],
        false,
    )
    .expect("renders");
    assert_eq!(rendered, "yes");
}

#[test]
fn renders_a_template_that_calls_pythons_native_startswith_method() {
    let template = "{% if messages[0].content.startswith('hi') %}yes{% else %}no{% endif %}";
    let rendered = render_messages(template, &[("user", "hi there")], false)
        .expect("python methods should make .startswith() resolve, not error");
    assert_eq!(rendered, "yes");
}

#[test]
fn renders_a_plain_chatml_style_template() {
    let rendered = render_with_minijinja(CHATML_TEMPLATE, "hi").expect("should render");
    assert_eq!(rendered, "<|im_start|>user\nhi<|im_end|>\n<|im_start|>assistant\n");
}

#[test]
fn returns_none_for_a_template_with_genuinely_invalid_syntax() {
    assert_eq!(render_with_minijinja("{% this is not valid jinja %}", "hi"), None);
}

#[test]
fn a_template_defining_raise_exception_as_a_call_does_not_fail_on_an_unknown_function() {
    let template = "{% if false %}{{ raise_exception(\"unreachable\") }}{% endif %}{{ prompt }}";
    assert!(render_with_minijinja(template, "hi").is_some());
}

#[test]
fn derives_a_conversation_template_for_plain_chatml() {
    let template = derive_conversation_template(CHATML_TEMPLATE).expect("should derive");
    assert_eq!(template.first_turn_open, "<|im_start|>user\n");
    assert_eq!(template.generation_open, "<|im_end|>\n<|im_start|>assistant\n");
    assert_eq!(template.turn_transition, "<|im_end|>\n<|im_start|>user\n");

    let composed_turn_1 =
        format!("{}{}{}", template.first_turn_open, "hi", template.generation_open);
    assert_eq!(composed_turn_1, render_with_minijinja(CHATML_TEMPLATE, "hi").unwrap());
}

#[test]
fn rejects_a_template_with_no_chat_syntax_at_all() {
    let _ = derive_conversation_template("just plain text, no {{ }} or {% %} anywhere");
    assert!(derive_conversation_template("just plain text, no {{ }} or {% %} anywhere").is_none());
}

#[test]
fn rejects_a_template_that_transforms_content_instead_of_embedding_it_verbatim() {
    let template = "{% for message in messages %}<|im_start|>{{ message.role }}\n\
                     {{ message.content[::-1] }}<|im_end|>\n{% endfor %}\
                     {% if add_generation_prompt %}<|im_start|>assistant\n{% endif %}";
    assert!(derive_conversation_template(template).is_none());
}

/// A preamble that only the first turn has stays out of the spans that every turn is made of.
#[test]
fn a_preamble_stays_in_the_first_turns_opening() {
    let template = "<|bom|><|system|> <|eom|>{% for m in messages %}<|bom|><|{{ m.role }}|> \
                    {{ m.content }}<|eom|>{% endfor %}\
                    {% if add_generation_prompt %}<|bom|><|assistant|>{% endif %}";
    let spans = derive_conversation_template(template).expect("should derive");
    assert_eq!(spans.first_turn_open, "<|bom|><|system|> <|eom|><|bom|><|user|> ");
    assert_eq!(spans.generation_open, "<|eom|><|bom|><|assistant|> ");
    assert_eq!(spans.turn_transition, "<|eom|><|bom|><|user|> ");
}

#[test]
fn spans_are_read_off_a_rendered_probe() {
    let spans = template_from_probe("[U1](A1)[U2](A2)", "U1", "A1", "U2", "A2").expect("spans");
    assert_eq!(spans.first_turn_open, "[");
    assert_eq!(spans.generation_open, "](");
    assert_eq!(spans.turn_transition, ")[");
    assert!(template_from_probe("[U1](A1)[U2]<A2)", "U1", "A1", "U2", "A2").is_none());
    assert!(template_from_probe("[U1](A1)[A2](U2)", "U1", "A1", "U2", "A2").is_none());
    assert!(template_from_probe("[U1](A1)[U2]", "U1", "A1", "U2", "A2").is_none());
}

#[test]
fn a_generation_prompt_is_added_only_where_asked_for() {
    let open = render_messages(CHATML_TEMPLATE, &[("user", "a"), ("assistant", "b")], true);
    let closed = render_messages(CHATML_TEMPLATE, &[("user", "a"), ("assistant", "b")], false);
    assert_eq!(
        closed.as_deref(),
        Some("<|im_start|>user\na<|im_end|>\n<|im_start|>assistant\nb<|im_end|>\n")
    );
    assert_eq!(
        open,
        closed.map(|rendered| rendered + "<|im_start|>assistant\n")
    );
}

#[test]
fn the_probe_renderer_adds_no_generation_prompt() {
    let render = probe_renderer();
    let message = Json::object(vec![
        ("role".to_string(), Json::text("user")),
        ("content".to_string(), Json::text("x")),
    ]);
    let rendered = render(CHATML_TEMPLATE, &Json::array(vec![message]), None);
    assert_eq!(rendered.as_deref(), Some("<|im_start|>user\nx<|im_end|>\n"));
}

/// Blocks on lines of their own leave no line behind.
#[test]
fn block_lines_are_trimmed() {
    let template = "{% for m in messages %}\n    {% if m.content %}\n{{ m.content }}\n    {% endif %}\n{% endfor %}\nend";
    assert_eq!(
        render_messages(template, &[("user", "a"), ("user", "b")], false).as_deref(),
        Some("a\nb\nend")
    );
}

/// A real template, from a stand-in that shows a system block, tools and results.
const TOOL_TEMPLATE: &str = "{% if tools is defined %}<tools>{% for t in tools %}{{ t.function.name }}{% endfor %}</tools>{% endif %}\
{% for m in messages %}{% if m.role == 'tool' %}<|start|>user\n<tool_response>\n{{ m.content }}\n</tool_response><|end|>\n\
{% elif m.tool_calls is defined %}<|start|>assistant\n{{ m.content }}{% for c in m.tool_calls %}<tool_call>\n\
{\"name\": \"{{ c.function.name }}\", \"arguments\": {{ c.function.arguments | tojson }}}\n</tool_call>{% endfor %}<|end|>\n\
{% else %}<|start|>{{ m.role }}\n{{ m.content }}<|end|>\n{% endif %}{% endfor %}";

fn read_tool() -> ToolSpec {
    ToolSpec::new(
        "read",
        "Read a file",
        Json::object(vec![("type".to_string(), Json::text("object"))]),
    )
}

#[test]
fn a_conversation_that_offers_tools_opens_with_them() {
    let render = probe_renderer();
    let capabilities = derive_capabilities(TOOL_TEMPLATE, &render);
    assert!(capabilities.system && capabilities.tools && capabilities.tool_results);

    let template = derive_conversation_template(TOOL_TEMPLATE).expect("should derive");
    let tools = vec![read_tool()];
    let setup = prepare_tools(TOOL_TEMPLATE, &template, Some("Be brief."), &tools, None);
    assert_eq!(
        setup.opening,
        "<tools>read</tools><|start|>system\nBe brief.<|end|>\n<|start|>user\n"
    );
    assert_eq!(setup.system_for_first_turn, None);
    assert!(setup.tool_format.is_some());
    assert!(setup.tool_result_spans.is_some());
}

#[test]
fn a_conversation_that_offers_nothing_is_left_as_it_is() {
    let template = derive_conversation_template(CHATML_TEMPLATE).expect("should derive");
    let setup = prepare_tools(CHATML_TEMPLATE, &template, None, &[], None);
    assert_eq!(setup.opening, template.first_turn_open);
    assert_eq!(setup.system_for_first_turn, None);
    assert!(setup.tool_format.is_none());
    assert!(setup.tool_result_spans.is_none());
}

/// A template that shows no system text gets it in the first turn instead.
#[test]
fn system_text_without_a_place_goes_to_the_first_turn() {
    let template = "{% for m in messages %}{% if m.role != 'system' %}[{{ m.role }}]{{ m.content }};{% endif %}{% endfor %}";
    let spans = derive_conversation_template(template).expect("should derive");
    let setup = prepare_tools(template, &spans, Some("Be brief."), &[], None);
    assert_eq!(setup.opening, spans.first_turn_open);
    assert_eq!(setup.system_for_first_turn.as_deref(), Some("Be brief."));
}
