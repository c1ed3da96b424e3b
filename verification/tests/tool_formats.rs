use rampipe::json::Json;
use rampipe::protocol::{ToolFormat, ToolSpec};
use rampipe::tool_format::{close_candidates, ends_mid_call, parse_tool_calls, TurnEnd};
use rampipe::tool_probe::{
    derive_capabilities, derive_tool_call_format, derive_tool_result_spans, diverging_region,
    format_from_renders, opening_from, render_opening, spans_from, ChatCapabilities,
    ToolResultSpans,
};

fn items(value: &Json) -> Option<&Vec<Json>> {
    match value {
        Json::Array(items) => Some(items),
        _ => None,
    }
}

fn entries(value: &Json) -> Option<&Vec<(String, Json)>> {
    match value {
        Json::Object(entries) => Some(entries),
        _ => None,
    }
}

fn content_of(message: &Json) -> &str {
    message.get("content").and_then(|content| content.as_str()).unwrap_or("")
}

fn push_tools(out: &mut String, tools: Option<&Json>) -> Option<()> {
    if let Some(tools) = tools {
        out.push_str("<|im_start|>system\n<tools>");
        for tool in items(tools)? {
            let function = tool.get("function").unwrap_or(tool);
            out.push_str(function.get("name")?.as_str()?);
        }
        out.push_str("</tools><|im_end|>\n");
    }
    Some(())
}

/// Calls as nested tags; results that follow each other share one user turn.
fn qwen_xml_render(_template: &str, messages: &Json, tools: Option<&Json>) -> Option<String> {
    let mut out = String::new();
    push_tools(&mut out, tools)?;
    let all = items(messages)?;
    for (index, message) in all.iter().enumerate() {
        let role = message.get("role")?.as_str()?;
        let content = content_of(message);
        let role_at =
            |i: usize| all.get(i).and_then(|m| m.get("role")).and_then(|role| role.as_str());
        match role {
            "tool" => {
                if index == 0 || role_at(index - 1) != Some("tool") {
                    out.push_str("<|im_start|>user\n");
                }
                out.push_str("<tool_response>\n");
                out.push_str(content);
                out.push_str("\n</tool_response>\n");
                if role_at(index + 1) != Some("tool") {
                    out.push_str("<|im_end|>\n");
                }
            }
            "assistant" if message.get("tool_calls").is_some() => {
                out.push_str("<|im_start|>assistant\n");
                for call in items(message.get("tool_calls")?)? {
                    let function = call.get("function").unwrap_or(call);
                    out.push_str("<tool_call>\n<function=");
                    out.push_str(function.get("name")?.as_str()?);
                    out.push_str(">\n");
                    for (key, value) in entries(function.get("arguments")?)? {
                        out.push_str("<parameter=");
                        out.push_str(key);
                        out.push_str(">\n");
                        out.push_str(value.as_str()?);
                        out.push_str("\n</parameter>\n");
                    }
                    out.push_str("</function>\n</tool_call>");
                }
                out.push_str("<|im_end|>\n");
            }
            _ => {
                out.push_str("<|im_start|>");
                out.push_str(role);
                out.push('\n');
                out.push_str(content);
                out.push_str("<|im_end|>\n");
            }
        }
    }
    Some(out)
}

/// Calls as JSON objects between tags.
fn hermes_json_render(_template: &str, messages: &Json, tools: Option<&Json>) -> Option<String> {
    let mut out = String::new();
    push_tools(&mut out, tools)?;
    for message in items(messages)? {
        let role = message.get("role")?.as_str()?;
        let content = content_of(message);
        match role {
            "tool" => {
                out.push_str("<|im_start|>tool\n");
                out.push_str(content);
                out.push_str("<|im_end|>\n");
            }
            "assistant" if message.get("tool_calls").is_some() => {
                out.push_str("<|im_start|>assistant\n");
                for call in items(message.get("tool_calls")?)? {
                    let function = call.get("function").unwrap_or(call);
                    out.push_str("<tool_call>\n");
                    let object = Json::object(vec![
                        ("name".to_string(), function.get("name")?.clone()),
                        ("arguments".to_string(), function.get("arguments")?.clone()),
                    ]);
                    out.push_str(&rampipe::json::write(&object));
                    out.push_str("\n</tool_call>");
                }
                out.push_str("<|im_end|>\n");
            }
            _ => {
                out.push_str("<|im_start|>");
                out.push_str(role);
                out.push('\n');
                out.push_str(content);
                out.push_str("<|im_end|>\n");
            }
        }
    }
    Some(out)
}

/// Neither tools nor system text.
fn plain_render(_template: &str, messages: &Json, _tools: Option<&Json>) -> Option<String> {
    let mut out = String::new();
    for message in items(messages)? {
        let role = message.get("role")?.as_str()?;
        if role == "system" || role == "tool" {
            continue;
        }
        out.push_str(content_of(message));
    }
    Some(out)
}

/// Calls on one line, arguments separated by commas and quoted by a mark of their own; the template
/// appends the opening of the result to every call.
fn gemma_render(_template: &str, messages: &Json, tools: Option<&Json>) -> Option<String> {
    let mut out = String::new();
    push_tools(&mut out, tools)?;
    for message in items(messages)? {
        let role = message.get("role")?.as_str()?;
        let content = content_of(message);
        out.push_str("<|turn>");
        out.push_str(role);
        out.push('\n');
        match message.get("tool_calls") {
            Some(calls) => {
                for call in items(calls)? {
                    let function = call.get("function").unwrap_or(call);
                    out.push_str("<|tool_call>call:");
                    out.push_str(function.get("name")?.as_str()?);
                    out.push('{');
                    for (index, (key, value)) in
                        entries(function.get("arguments")?)?.iter().enumerate()
                    {
                        if index > 0 {
                            out.push(',');
                        }
                        out.push_str(key);
                        out.push_str(":<|\"|>");
                        out.push_str(value.as_str()?);
                        out.push_str("<|\"|>");
                    }
                    out.push_str("}<tool_call|><|tool_response>");
                }
            }
            None => out.push_str(content),
        }
        out.push_str("<turn|>\n");
    }
    Some(out)
}

fn argument<'a>(arguments: &'a Json, key: &str) -> Option<&'a str> {
    arguments.get(key).and_then(|value| value.as_str())
}

#[test]
fn a_severed_second_call_is_caught_even_though_the_first_closed() {
    let format = derive_tool_call_format("", &qwen_xml_render).expect("derivable");
    let text = "<tool_call>\n<function=read>\n<parameter=path>\na.rs\n</parameter>\n</function>\n</tool_call>\n\
                <tool_call>\n<function=write>\n<parameter=path>\nb.rs\n</parameter>\n<parameter=content>\nfn b() {";
    assert!(ends_mid_call(text, &format), "the last call never closed");
}

#[test]
fn a_call_severed_mid_argument_is_reported_as_truncated() {
    let format = derive_tool_call_format("", &qwen_xml_render).expect("derivable");
    let severed = "<tool_call>\n<function=write>\n<parameter=path>\ntests/a.rs\n</parameter>\n\
                   <parameter=content>\nfn a() {\n    assert_eq!(&buffer";

    let calls = parse_tool_calls(severed, &format);
    let flagged = ends_mid_call(severed, &format);
    assert!(calls.is_empty() || flagged, "parsed {} call(s), flagged {flagged}", calls.len());
    assert!(flagged);
}

#[test]
fn derives_the_nested_xml_family() {
    let format = derive_tool_call_format("", &qwen_xml_render).expect("derivable");
    match format {
        ToolFormat::Delimited {
            call_open,
            name_close,
            arg_open,
            arg_name_close,
            arg_close,
            call_close,
        } => {
            assert_eq!(call_open, "<tool_call>\n<function=");
            assert_eq!(arg_name_close, ">\n");
            for (label, span) in [
                ("name_close", &name_close),
                ("arg_open", &arg_open),
                ("arg_close", &arg_close),
                ("call_close", &call_close),
            ] {
                assert!(!span.is_empty(), "{label} must not be empty");
            }
            assert_eq!(format!("{name_close}{arg_open}"), ">\n<parameter=");
            assert_eq!(
                format!("{arg_close}{call_close}"),
                "\n</parameter>\n</function>\n</tool_call>"
            );
        }
        other => panic!("expected Delimited, got {other:?}"),
    }
}

#[test]
fn derives_the_json_family() {
    let format = derive_tool_call_format("", &hermes_json_render).expect("derivable");
    match format {
        ToolFormat::Json { call_open, call_close, name_key, arguments_key } => {
            assert_eq!(call_open, "<tool_call>\n");
            assert_eq!(call_close, "\n</tool_call>");
            assert_eq!(name_key, "name");
            assert_eq!(arguments_key, "arguments");
        }
        other => panic!("expected Json, got {other:?}"),
    }
}

#[test]
fn xml_format_round_trips_a_real_looking_call() {
    let format = derive_tool_call_format("", &qwen_xml_render).expect("derivable");
    let emitted = "<tool_call>\n<function=read>\n<parameter=path>\nsrc/main.rs\n</parameter>\n</function>\n</tool_call>";
    let calls = parse_tool_calls(emitted, &format);
    assert_eq!(calls.len(), 1);
    assert_eq!(calls[0].name, "read");
    assert_eq!(argument(&calls[0].arguments, "path"), Some("src/main.rs"));
}

#[test]
fn json_format_round_trips_a_real_looking_call() {
    let format = derive_tool_call_format("", &hermes_json_render).expect("derivable");
    let emitted = "<tool_call>\n{\"name\":\"read\",\"arguments\":{\"path\":\"src/main.rs\"}}\n</tool_call>";
    let calls = parse_tool_calls(emitted, &format);
    assert_eq!(calls.len(), 1);
    assert_eq!(calls[0].name, "read");
    assert_eq!(argument(&calls[0].arguments, "path"), Some("src/main.rs"));
}

#[test]
fn reasoning_prose_before_a_call_is_ignored_not_rejected() {
    let format = derive_tool_call_format("", &qwen_xml_render).expect("derivable");
    let emitted = "I should look at the file first.\n<tool_call>\n<function=read>\n<parameter=path>\na.py\n</parameter>\n</function>\n</tool_call>";
    let calls = parse_tool_calls(emitted, &format);
    assert_eq!(calls.len(), 1);
    assert_eq!(calls[0].name, "read");
}

#[test]
fn several_calls_in_one_turn_are_all_recovered() {
    let format = derive_tool_call_format("", &qwen_xml_render).expect("derivable");
    let emitted = "<tool_call>\n<function=read>\n<parameter=path>\na.py\n</parameter>\n</function>\n</tool_call>\
                   <tool_call>\n<function=read>\n<parameter=path>\nb.py\n</parameter>\n</function>\n</tool_call>";
    let calls = parse_tool_calls(emitted, &format);
    assert_eq!(calls.len(), 2);
    assert_eq!(argument(&calls[1].arguments, "path"), Some("b.py"));
}

#[test]
fn a_multi_line_value_survives_verbatim() {
    let format = derive_tool_call_format("", &qwen_xml_render).expect("derivable");
    let emitted = "<tool_call>\n<function=write>\n<parameter=content>\nfn main() {\n    println!(\"<hi>\");\n}\n</parameter>\n</function>\n</tool_call>";
    let calls = parse_tool_calls(emitted, &format);
    assert_eq!(
        argument(&calls[0].arguments, "content"),
        Some("fn main() {\n    println!(\"<hi>\");\n}")
    );
}

#[test]
fn a_truncated_call_yields_what_was_generated_rather_than_nothing() {
    let format = derive_tool_call_format("", &qwen_xml_render).expect("derivable");
    let emitted = "<tool_call>\n<function=read>\n<parameter=path>\nsrc/main.rs";
    let calls = parse_tool_calls(emitted, &format);
    assert_eq!(calls.len(), 1);
    assert_eq!(argument(&calls[0].arguments, "path"), Some("src/main.rs"));
}

#[test]
fn a_reply_severed_just_inside_a_call_marker_is_not_a_final_answer() {
    let format = derive_tool_call_format("", &qwen_xml_render).expect("derivable");
    let severed = "Let me create the UI module properly:\n<tool_call>";
    assert!(parse_tool_calls(severed, &format).is_empty(), "nothing recoverable yet");
    assert!(ends_mid_call(severed, &format), "but it is plainly not finished");
}

#[test]
fn a_reply_severed_part_way_through_the_marker_is_also_caught() {
    let format = derive_tool_call_format("", &qwen_xml_render).expect("derivable");
    for severed in ["Now I will write it.\n<tool", "Now I will write it.\n<tool_call>\n<func"] {
        assert!(ends_mid_call(severed, &format), "{severed:?}");
    }
}

#[test]
fn an_ordinary_final_answer_does_not_read_as_truncated() {
    let format = derive_tool_call_format("", &qwen_xml_render).expect("derivable");
    for finished in [
        "The task is complete. All tests pass.",
        "I have created hello.txt with the content \"hello\".",
        "Done. <not a call>",
    ] {
        assert!(!ends_mid_call(finished, &format), "{finished:?}");
    }
}

#[test]
fn a_complete_call_does_not_read_as_truncated() {
    let format = derive_tool_call_format("", &qwen_xml_render).expect("derivable");
    let complete = "<tool_call>\n<function=read>\n<parameter=path>\na.py\n</parameter>\n</function>\n</tool_call>";
    assert!(!ends_mid_call(complete, &format), "{complete}");
    assert_eq!(parse_tool_calls(complete, &format).len(), 1);
    assert!(
        !ends_mid_call("I have finished the task.", &format),
        "prose is not a severed call"
    );
}

#[test]
fn truncation_detection_works_for_the_json_family_too() {
    let format = derive_tool_call_format("", &hermes_json_render).expect("derivable");
    assert!(ends_mid_call("I will read it.\n<tool_call>", &format));
    assert!(!ends_mid_call("I am finished.", &format));
}

#[test]
fn text_with_no_call_at_all_yields_no_calls() {
    let format = derive_tool_call_format("", &qwen_xml_render).expect("derivable");
    assert!(parse_tool_calls("Just an ordinary answer.", &format).is_empty());
}

#[test]
fn capabilities_are_detected_per_field() {
    let full = derive_capabilities("", &qwen_xml_render);
    assert_eq!(full, ChatCapabilities { system: true, tools: true, tool_results: true });

    let none = derive_capabilities("", &plain_render);
    assert_eq!(none, ChatCapabilities { system: false, tools: false, tool_results: false });
}

fn ignores_tools(_t: &str, messages: &Json, _tools: Option<&Json>) -> Option<String> {
    let mut out = String::new();
    for message in items(messages)? {
        out.push_str(content_of(message));
    }
    Some(out)
}

#[test]
fn a_template_that_ignores_tools_does_not_claim_to_support_them() {
    assert!(!derive_capabilities("", &ignores_tools).tools);
}

#[test]
fn an_underivable_template_returns_none_rather_than_guessing() {
    assert!(derive_tool_call_format("", &plain_render).is_none());
}

fn read_tools() -> Vec<ToolSpec> {
    let path = Json::object(vec![
        ("type".to_string(), Json::text("string")),
        ("description".to_string(), Json::text("the path")),
    ]);
    vec![ToolSpec::new(
        "read",
        "Read a file",
        Json::object(vec![
            ("type".to_string(), Json::text("object")),
            ("properties".to_string(), Json::object(vec![("path".to_string(), path)])),
            ("required".to_string(), Json::array(vec![Json::text("path")])),
        ]),
    )]
}

#[test]
fn render_opening_includes_the_system_text_and_tool_names() {
    let tools = read_tools();
    let opening = render_opening(
        "",
        Some("You are a coding agent."),
        Some(tools.as_slice()),
        &qwen_xml_render,
    )
    .expect("renders");
    assert!(opening.contains("You are a coding agent."), "{opening}");
    assert!(opening.contains("read"), "{opening}");
    assert!(opening.ends_with("<|im_start|>user\n"), "{opening}");
}

#[test]
fn tool_result_spans_wrap_the_result_and_reopen_the_assistant() {
    let spans = derive_tool_result_spans("", &qwen_xml_render).expect("derivable");
    assert_eq!(spans.open, "<|im_end|>\n<|im_start|>user\n<tool_response>\n");
    assert_eq!(spans.close, "\n</tool_response>\n<|im_end|>\n<|im_start|>assistant\n");
}

#[test]
fn several_results_each_get_their_own_element() {
    let spans = derive_tool_result_spans("", &qwen_xml_render).expect("derivable");
    assert_eq!(spans.separator, "\n</tool_response>\n<tool_response>\n");

    let rendered = spans.render(&["first".to_string(), "second".to_string()]);
    assert_eq!(rendered.matches("<tool_response>").count(), 2, "{rendered}");
    assert!(rendered.contains("first"), "{rendered}");
    assert!(rendered.contains("second"), "{rendered}");
}

#[test]
fn a_single_result_renders_unchanged() {
    let spans = derive_tool_result_spans("", &qwen_xml_render).expect("derivable");
    let rendered = spans.render(&["only".to_string()]);
    assert_eq!(rendered, format!("{}only{}", spans.open, spans.close));
    assert_eq!(rendered.matches("<tool_response>").count(), 1, "{rendered}");
}

/// The format of a template that separates arguments, as it is derived.
#[test]
fn derives_the_separated_family() {
    let format = derive_tool_call_format("", &gemma_render).expect("derivable");
    match &format {
        ToolFormat::Separated { call_open, call_close, .. } => {
            assert_eq!(call_open, "<|tool_call>call:");
            assert!(call_close.starts_with("}<tool_call|>"), "{call_close}");
        }
        other => panic!("expected Separated, got {other:?}"),
    }
}

#[test]
fn a_model_that_writes_its_own_result_ends_the_turn_there() {
    let format = derive_tool_call_format("", &gemma_render).expect("derivable");
    let end = TurnEnd::of(&format);

    let call = "<|tool_call>call:read{path:<|\"|>src/timeline.rs<|\"|>}<tool_call|>";

    assert_eq!(end.reached("<|tool_call>call:read{path:<|\"|>src/tim"), None);
    assert_eq!(end.reached(call), None);
    assert_eq!(end.reached(&format!("{call}\n")), None);

    let two = format!("{call}\n<|tool_call>call:verify{{}}<tool_call|>");
    assert_eq!(end.reached(&two), None, "a turn may hold more than one call");
    assert_eq!(
        end.reached(&format!("{call}\n<|tool")),
        None,
        "an opener half-emitted is not prose"
    );

    let invented = format!(
        "{call}\n<|channel>thought\n<channel|>Read /home/rrojo/.agent99/workspace/pcapgen/src/timeline.rs \
         (lines 111-120):\n        }})\n            .collect();"
    );
    let at = end.reached(&invented).expect("the model moved on from calling tools");
    assert_eq!(&invented[..at], call, "the turn keeps the real call and drops the rest");
}

#[test]
fn a_complete_separated_call_is_not_reported_as_cut_off() {
    let format = derive_tool_call_format("", &gemma_render).expect("derivable");
    let complete = "<|channel>thought\n<channel|><|tool_call>call:read{path:<|\"|>src/timeline.rs<|\"|>}<tool_call|>";
    assert!(!parse_tool_calls(complete, &format).is_empty());
    assert!(!ends_mid_call(complete, &format));
    let severed = "<|channel>thought\n<channel|><|tool_call>call:read{path:<|\"|>src/tim";
    assert!(ends_mid_call(severed, &format));
}

#[test]
fn a_separator_inside_a_quoted_value_does_not_end_it() {
    let format = derive_tool_call_format("", &gemma_render).expect("derivable");
    let prose = "The sort uses only `seconds`. While the test passes, \
                 the fit criterion requires microseconds, too.";
    let text = format!(
        "<|tool_call>call:comment{{comment:<|\"|>{prose}<|\"|>,file:<|\"|>src/timeline.rs<|\"|>,line:38}}<tool_call|>"
    );
    let calls = parse_tool_calls(&text, &format);
    assert_eq!(calls.len(), 1, "one call");
    assert_eq!(calls[0].name, "comment");
    assert_eq!(entries(&calls[0].arguments).expect("object").len(), 3);
    assert_eq!(argument(&calls[0].arguments, "comment"), Some(prose));
    assert_eq!(argument(&calls[0].arguments, "file"), Some("src/timeline.rs"));
    assert_eq!(argument(&calls[0].arguments, "line"), Some("38"));
}

#[test]
fn two_separated_calls_in_one_turn_stay_apart() {
    let format = derive_tool_call_format("", &gemma_render).expect("derivable");
    let text = "<|tool_call>call:read{path:<|\"|>a.rs<|\"|>,line:38}<tool_call|>\n\
                thinking out loud\n\
                <|tool_call>call:verify{}<tool_call|>";
    let calls = parse_tool_calls(text, &format);
    assert_eq!(calls.len(), 2, "{calls:?}");
    assert_eq!(calls[0].name, "read");
    assert_eq!(argument(&calls[0].arguments, "path"), Some("a.rs"));
    assert_eq!(argument(&calls[0].arguments, "line"), Some("38"));
    assert_eq!(calls[1].name, "verify");
    assert_eq!(entries(&calls[1].arguments).expect("object").len(), 0);
}

/// A renderer's own calls are read back with the format that was derived from it.
#[test]
fn every_family_reads_its_own_calls_back() {
    let content = "fn main() {\n    println!(\"<hi>\");\n}";
    let call = Json::object(vec![
        ("type".to_string(), Json::text("function")),
        (
            "function".to_string(),
            Json::object(vec![
                ("name".to_string(), Json::text("write")),
                (
                    "arguments".to_string(),
                    Json::object(vec![
                        ("path".to_string(), Json::text("src/main.rs")),
                        ("content".to_string(), Json::text(content)),
                    ]),
                ),
            ]),
        ),
    ]);
    let messages = Json::array(vec![
        Json::object(vec![
            ("role".to_string(), Json::text("user")),
            ("content".to_string(), Json::text("go")),
        ]),
        Json::object(vec![
            ("role".to_string(), Json::text("assistant")),
            ("content".to_string(), Json::text("")),
            ("tool_calls".to_string(), Json::array(vec![call])),
        ]),
    ]);
    type Render = fn(&str, &Json, Option<&Json>) -> Option<String>;
    for render in [qwen_xml_render as Render, hermes_json_render as Render, gemma_render as Render] {
        let format = derive_tool_call_format("", &render).expect("derivable");
        let rendered = render("", &messages, None).expect("renders");
        let calls = parse_tool_calls(&rendered, &format);
        assert_eq!(calls.len(), 1, "format {format:?} on {rendered:?}");
        assert_eq!(calls[0].name, "write");
        assert_eq!(argument(&calls[0].arguments, "path"), Some("src/main.rs"));
        assert_eq!(argument(&calls[0].arguments, "content"), Some(content));
        assert!(!ends_mid_call(&rendered, &format));
    }
}

#[test]
fn closers_shrink_to_whole_tags() {
    let close: Vec<char> = "}<tool_call|><|tool_response>".chars().collect();
    let candidates: Vec<String> =
        close_candidates(&close).into_iter().map(|c| c.iter().collect()).collect();
    assert_eq!(candidates, vec!["}<tool_call|><|tool_response>", "}<tool_call|>"]);
}

#[test]
fn json_bodies_that_are_no_call_are_passed_over() {
    let format = derive_tool_call_format("", &hermes_json_render).expect("derivable");
    let emitted = "<tool_call>\nnot json\n</tool_call><tool_call>\n{\"arguments\":{}}\n</tool_call>\
                   <tool_call>\n{\"name\":\"list\"}\n</tool_call>";
    let calls = parse_tool_calls(emitted, &format);
    assert_eq!(calls.len(), 1);
    assert_eq!(calls[0].name, "list");
    assert!(matches!(calls[0].arguments, Json::Null));
}

#[test]
fn the_region_of_a_difference_is_found() {
    assert_eq!(diverging_region("<<>>", "<<middle>>"), Some("middle"));
    assert_eq!(diverging_region("same", "same"), Some(""));
    assert_eq!(diverging_region("aa", "aaa"), Some("a"));
}

#[test]
fn renders_without_the_marks_yield_no_format() {
    assert!(format_from_renders("plain", "plain", "plain").is_none());
    assert!(format_from_renders("plain", "plain [a call]", "plain []").is_none());
}

#[test]
fn an_opening_without_its_mark_is_none() {
    assert_eq!(opening_from("nothing of the kind"), None);
}

#[test]
fn spans_need_both_results_in_order() {
    assert!(spans_from("nothing", "anchor").is_none());
}

#[test]
fn no_results_render_as_the_bare_spans() {
    let spans = ToolResultSpans {
        open: "(".to_string(),
        separator: ",".to_string(),
        close: ")".to_string(),
    };
    assert_eq!(spans.render(&[]), "()");
    assert_eq!(spans.render(&["a".to_string(), "b".to_string(), "c".to_string()]), "(a,b,c)");
}
