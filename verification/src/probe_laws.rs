//! What holds of spans that were read off a rendered probe: put around the probe's own sentinels
//! again, they give back what was rendered.

use vstd::prelude::*;
use vstd::utf8;
use crate::call_laws;
use crate::call_laws::Argument;
use crate::chat_template;
use crate::conversation_template;
use crate::conversation_template::TemplateView;
use crate::json;
use crate::json::{EntryView, JsonView};
use crate::protocol;
use crate::protocol::{ToolFormatView, ToolSpec};
use crate::text;
use crate::tool_format;
use crate::tool_probe;
use crate::tool_probe::{
    ChatCapabilities, Places, SpansView, ARG1, ARG2, NAME, PLAIN, REPLY, RESULT, RESULT2, USER, VAL1, VAL2,
};

verus! {

/// The probe's arguments, the values written bare where the format has nothing to wrap them in.
pub open spec fn probe_arguments(bare: bool) -> Seq<Argument> {
    seq![
        Argument { name: ARG1@, value: VAL1@, bare },
        Argument { name: ARG2@, value: VAL2@, bare },
    ]
}

proof fn lemma_assoc(x: Seq<char>, y: Seq<char>, z: Seq<char>)
    ensures
        x + (y + z) == x + y + z,
{
    assert(x + (y + z) =~= x + y + z);
}

/// Five texts put behind another one by one or all at once.
proof fn lemma_five(
    x: Seq<char>,
    a: Seq<char>,
    b: Seq<char>,
    c: Seq<char>,
    d: Seq<char>,
    e: Seq<char>,
)
    ensures
        x + (a + b + c + d + e) == x + a + b + c + d + e,
{
    lemma_assoc(x, a + b + c + d, e);
    lemma_assoc(x, a + b + c, d);
    lemma_assoc(x, a + b, c);
    lemma_assoc(x, a, b);
}

/// What is left of a text without a beginning, behind that beginning, is the text.
proof fn lemma_without_prefix(s: Seq<char>, prefix: Seq<char>)
    requires
        text::without_prefix(s, prefix) is Some,
    ensures
        s == prefix + text::without_prefix(s, prefix)->0,
{
    assert(s =~= prefix + text::without_prefix(s, prefix)->0);
}

/// The parts of a call with two arguments in delimited blocks.
proof fn lemma_two_blocks(
    args: Seq<Argument>,
    call_open: Seq<char>,
    name: Seq<char>,
    name_close: Seq<char>,
    arg_open: Seq<char>,
    arg_name_close: Seq<char>,
    arg_close: Seq<char>,
    call_close: Seq<char>,
)
    requires
        args.len() == 2,
    ensures
        call_open + (name + name_close + call_laws::blocks(
            args,
            0,
            arg_open,
            arg_name_close,
            arg_close,
        )) + call_close == call_open + name + (name_close + arg_open) + args[0].name
            + arg_name_close + args[0].value + (arg_close + arg_open) + args[1].name
            + arg_name_close + args[1].value + (arg_close + call_close),
{
    reveal_with_fuel(call_laws::blocks, 3);
    let blocks = call_laws::blocks(args, 0, arg_open, arg_name_close, arg_close);
    let one = arg_open + args[0].name + arg_name_close + args[0].value + arg_close;
    let two = arg_open + args[1].name + arg_name_close + args[1].value + arg_close;
    assert(call_laws::blocks(args, 1, arg_open, arg_name_close, arg_close) =~= two);
    assert(blocks == one + two);
    let x = call_open + name + name_close;
    lemma_assoc(call_open, name + name_close, blocks);
    lemma_assoc(call_open, name, name_close);
    lemma_assoc(x, one, two);
    lemma_five(x, arg_open, args[0].name, arg_name_close, args[0].value, arg_close);
    let y = x + one;
    lemma_five(y, arg_open, args[1].name, arg_name_close, args[1].value, arg_close);
    lemma_assoc(call_open + name, name_close, arg_open);
    lemma_assoc(
        x + arg_open + args[0].name + arg_name_close + args[0].value,
        arg_close,
        arg_open,
    );
    lemma_assoc(
        y + arg_open + args[1].name + arg_name_close + args[1].value,
        arg_close,
        call_close,
    );
}

/// The parts of a call with two arguments that are separated.
proof fn lemma_two_listed(
    args: Seq<Argument>,
    call_open: Seq<char>,
    name: Seq<char>,
    name_close: Seq<char>,
    arg_name_close: Seq<char>,
    value_open: Seq<char>,
    arg_close: Seq<char>,
    arg_sep: Seq<char>,
    call_close: Seq<char>,
)
    requires
        args.len() == 2,
        args[0].bare == args[1].bare,
        args[0].bare ==> value_open.len() == 0 && arg_close.len() == 0,
    ensures
        call_open + (name + name_close + call_laws::list(
            args,
            0,
            arg_name_close,
            value_open,
            arg_close,
            arg_sep,
        )) + call_close == call_open + name + name_close + args[0].name + (arg_name_close
            + value_open) + args[0].value + (arg_close + arg_sep) + args[1].name + (arg_name_close
            + value_open) + args[1].value + (arg_close + call_close),
{
    reveal_with_fuel(call_laws::list, 3);
    reveal_with_fuel(call_laws::from_value, 3);
    let list = call_laws::list(args, 0, arg_name_close, value_open, arg_close, arg_sep);
    let second = call_laws::list(args, 1, arg_name_close, value_open, arg_close, arg_sep);
    let v0 = call_laws::written_value(args[0], value_open, arg_close);
    let v1 = call_laws::written_value(args[1], value_open, arg_close);
    assert(v0 =~= value_open + args[0].value + arg_close);
    assert(v1 =~= value_open + args[1].value + arg_close);
    assert(list == args[0].name + arg_name_close + (v0 + arg_sep + second));
    assert(second == args[1].name + arg_name_close + v1);
    let x = call_open + name + name_close;
    lemma_assoc(call_open, name + name_close, list);
    lemma_assoc(call_open, name, name_close);
    let y = x + args[0].name + arg_name_close;
    lemma_assoc(x, args[0].name + arg_name_close, v0 + arg_sep + second);
    lemma_assoc(x, args[0].name, arg_name_close);
    lemma_assoc(y, v0 + arg_sep, second);
    lemma_assoc(y, v0, arg_sep);
    lemma_assoc(y, value_open + args[0].value, arg_close);
    lemma_assoc(y, value_open, args[0].value);
    lemma_assoc(x + args[0].name, arg_name_close, value_open);
    let z = y + value_open + args[0].value + arg_close + arg_sep;
    lemma_assoc(y + value_open + args[0].value, arg_close, arg_sep);
    lemma_assoc(z, args[1].name + arg_name_close, v1);
    lemma_assoc(z, args[1].name, arg_name_close);
    let w = z + args[1].name + arg_name_close;
    lemma_assoc(w, value_open + args[1].value, arg_close);
    lemma_assoc(w, value_open, args[1].value);
    lemma_assoc(z + args[1].name, arg_name_close, value_open);
    lemma_assoc(w + value_open + args[1].value, arg_close, call_close);
}

/// A region in which the sentinels stand in order is made of them and of what stands between them.
proof fn lemma_region_in_parts(region: Seq<char>, p: Places)
    requires
        tool_probe::places(region) == Some(p),
        p.name + NAME@.len() <= p.arg1,
        p.arg1 + ARG1@.len() <= p.val1,
        p.val1 + VAL1@.len() <= p.arg2,
        p.arg2 + ARG2@.len() <= p.val2,
    ensures
        p.val2 + VAL2@.len() <= region.len(),
        region.take(p.val2 + VAL2@.len()) == region.take(p.name) + NAME@ + region.subrange(
            p.name + NAME@.len(),
            p.arg1,
        ) + ARG1@ + region.subrange(p.arg1 + ARG1@.len(), p.val1) + VAL1@ + region.subrange(
            p.val1 + VAL1@.len(),
            p.arg2,
        ) + ARG2@ + region.subrange(p.arg2 + ARG2@.len(), p.val2) + VAL2@,
        region == region.take(p.name) + NAME@ + region.subrange(p.name + NAME@.len(), p.arg1)
            + ARG1@ + region.subrange(p.arg1 + ARG1@.len(), p.val1) + VAL1@ + region.subrange(
            p.val1 + VAL1@.len(),
            p.arg2,
        ) + ARG2@ + region.subrange(p.arg2 + ARG2@.len(), p.val2) + VAL2@ + region.skip(
            p.val2 + VAL2@.len(),
        ),
{
    text::lemma_index_from(region, NAME@, 0);
    text::lemma_index_from(region, ARG1@, 0);
    text::lemma_index_from(region, VAL1@, 0);
    text::lemma_index_from(region, ARG2@, 0);
    text::lemma_index_from(region, VAL2@, 0);
    let a = region.take(p.name) + NAME@;
    assert(a =~= region.take(p.name + NAME@.len()));
    let b = a + region.subrange(p.name + NAME@.len(), p.arg1);
    assert(b =~= region.take(p.arg1));
    let c = b + ARG1@;
    assert(c =~= region.take(p.arg1 + ARG1@.len()));
    let d = c + region.subrange(p.arg1 + ARG1@.len(), p.val1);
    assert(d =~= region.take(p.val1));
    let e = d + VAL1@;
    assert(e =~= region.take(p.val1 + VAL1@.len()));
    let f = e + region.subrange(p.val1 + VAL1@.len(), p.arg2);
    assert(f =~= region.take(p.arg2));
    let g = f + ARG2@;
    assert(g =~= region.take(p.arg2 + ARG2@.len()));
    let h = g + region.subrange(p.arg2 + ARG2@.len(), p.val2);
    assert(h =~= region.take(p.val2));
    let i = h + VAL2@;
    assert(i =~= region.take(p.val2 + VAL2@.len()));
    assert(region =~= i + region.skip(p.val2 + VAL2@.len()));
}

/// A format that was derived marks off everything that it has to: no span that a reader looks for
/// is empty.
pub proof fn law_a_derived_format_marks_off(
    plain: Seq<char>,
    with_calls: Seq<char>,
    no_args: Seq<char>,
)
    ensures
        match tool_probe::call_format(plain, with_calls, no_args) {
            Some(format) => format is Json || call_laws::marks_off(format),
            None => true,
        },
{
}

/// What holds of formats as a whole holds of every derived one: a call that a reply writes in the
/// format that was derived from its model's template is read back, name and arguments, whatever
/// prose comes before it and whatever calls come after it.
pub proof fn law_a_derived_format_reads_what_it_writes(
    plain: Seq<char>,
    with_calls: Seq<char>,
    no_args: Seq<char>,
    prose: Seq<char>,
    name: Seq<char>,
    args: Seq<Argument>,
    rest: Seq<char>,
)
    requires
        tool_probe::call_format(plain, with_calls, no_args) is Some,
        ({
            let format = tool_probe::call_format(plain, with_calls, no_args)->0;
            &&& call_laws::sayable(format, name, args)
            &&& format.call_open().len() > 0
            &&& format.call_close().len() > 0
            &&& call_laws::ends_at(prose, format.call_open())
            &&& call_laws::ends_at(
                call_laws::written_body(format, name, args),
                format.call_close(),
            )
        }),
    ensures
        ({
            let format = tool_probe::call_format(plain, with_calls, no_args)->0;
            tool_format::tool_calls(
                prose + format.call_open() + call_laws::written_body(format, name, args)
                    + format.call_close() + rest,
                format,
            ) == seq![call_laws::call_with(name, args)] + tool_format::tool_calls(rest, format)
        }),
{
    law_a_derived_format_marks_off(plain, with_calls, no_args);
    let format = tool_probe::call_format(plain, with_calls, no_args)->0;
    call_laws::law_calls_survive_their_format(format, prose, name, args, rest);
}

/// What the spans of a derived format of delimited blocks are, in terms of the region.
proof fn lemma_delimited_spans(region: Seq<char>, no_args: Seq<char>, p: Places)
    requires
        tool_probe::delimited_format(region, no_args, p) is Some,
    ensures
        p.name + NAME@.len() <= p.arg1,
        p.arg1 + ARG1@.len() <= p.val1,
        p.val1 + VAL1@.len() <= p.arg2,
        p.arg2 + ARG2@.len() <= p.val2,
        match tool_probe::delimited_format(region, no_args, p)->0 {
            ToolFormatView::Delimited {
                call_open,
                name_close,
                arg_open,
                arg_name_close,
                arg_close,
                call_close,
            } => {
                &&& call_open == region.take(p.name)
                &&& region.subrange(p.name + NAME@.len(), p.arg1) == name_close + arg_open
                &&& region.subrange(p.arg1 + ARG1@.len(), p.val1) == arg_name_close
                &&& region.subrange(p.val1 + VAL1@.len(), p.arg2) == arg_close + arg_open
                &&& region.subrange(p.arg2 + ARG2@.len(), p.val2) == arg_name_close
                &&& region.skip(p.val2 + VAL2@.len()) == arg_close + call_close
            },
            _ => false,
        },
{
    match tool_probe::delimited_format(region, no_args, p)->0 {
        ToolFormatView::Delimited { name_close, arg_close, .. } => {
            lemma_without_prefix(region.subrange(p.name + NAME@.len(), p.arg1), name_close);
            lemma_without_prefix(region.skip(p.val2 + VAL2@.len()), arg_close);
        },
        _ => {},
    }
}

/// Written in the format of delimited blocks that was derived from it, the probe's own call is what
/// the template rendered.
pub proof fn law_a_derived_delimited_format_rewrites_its_probe(
    region: Seq<char>,
    no_args: Seq<char>,
    p: Places,
)
    requires
        tool_probe::places(region) == Some(p),
        tool_probe::delimited_format(region, no_args, p) is Some,
    ensures
        ({
            let format = tool_probe::delimited_format(region, no_args, p)->0;
            region == format.call_open() + call_laws::written_body(
                format,
                NAME@,
                probe_arguments(false),
            ) + format.call_close()
        }),
{
    lemma_delimited_spans(region, no_args, p);
    lemma_region_in_parts(region, p);
    let format = tool_probe::delimited_format(region, no_args, p)->0;
    lemma_delimited_body(format, region, p);
}

/// The same, once the spans are known.
proof fn lemma_delimited_body(format: ToolFormatView, region: Seq<char>, p: Places)
    requires
        tool_probe::places(region) == Some(p),
        p.name + NAME@.len() <= p.arg1,
        p.arg1 + ARG1@.len() <= p.val1,
        p.val1 + VAL1@.len() <= p.arg2,
        p.arg2 + ARG2@.len() <= p.val2,
        match format {
            ToolFormatView::Delimited {
                call_open,
                name_close,
                arg_open,
                arg_name_close,
                arg_close,
                call_close,
            } => {
                &&& call_open == region.take(p.name)
                &&& region.subrange(p.name + NAME@.len(), p.arg1) == name_close + arg_open
                &&& region.subrange(p.arg1 + ARG1@.len(), p.val1) == arg_name_close
                &&& region.subrange(p.val1 + VAL1@.len(), p.arg2) == arg_close + arg_open
                &&& region.subrange(p.arg2 + ARG2@.len(), p.val2) == arg_name_close
                &&& region.skip(p.val2 + VAL2@.len()) == arg_close + call_close
            },
            _ => false,
        },
    ensures
        region == format.call_open() + call_laws::written_body(
            format,
            NAME@,
            probe_arguments(false),
        ) + format.call_close(),
{
    lemma_region_in_parts(region, p);
    match format {
        ToolFormatView::Delimited {
            call_open,
            name_close,
            arg_open,
            arg_name_close,
            arg_close,
            call_close,
        } => {
            lemma_two_blocks(
                probe_arguments(false),
                call_open,
                NAME@,
                name_close,
                arg_open,
                arg_name_close,
                arg_close,
                call_close,
            );
        },
        _ => {},
    }
}

/// Written in the format with separators that was derived from it, the probe's own call is what the
/// template rendered, up to whatever the template puts behind the closer; where values are closed,
/// they must be opened the same way.
#[verifier::rlimit(40)]
pub proof fn law_a_derived_separated_format_rewrites_its_probe(
    region: Seq<char>,
    no_args: Seq<char>,
    p: Places,
)
    requires
        tool_probe::places(region) == Some(p),
        tool_probe::separated_format(region, no_args, p) is Some,
        tool_probe::separated_format(region, no_args, p)->0->value_open.len() > 0
            || tool_probe::separated_format(region, no_args, p)->0->Separated_arg_close.len() == 0,
    ensures
        ({
            let format = tool_probe::separated_format(region, no_args, p)->0;
            (format.call_open() + call_laws::written_body(
                format,
                NAME@,
                probe_arguments(format->value_open.len() == 0),
            ) + format.call_close()).is_prefix_of(region)
        }),
{
    lemma_region_in_parts(region, p);
    let format = tool_probe::separated_format(region, no_args, p)->0;
    match format {
        ToolFormatView::Separated {
            call_open,
            name_close,
            arg_name_close,
            value_open,
            arg_close,
            arg_sep,
            call_close,
        } => {
            let bare = value_open.len() == 0;
            let args = probe_arguments(bare);
            let to_value = region.subrange(p.arg1 + ARG1@.len(), p.val1);
            assert(to_value =~= arg_name_close + value_open);
            let to_arg2 = region.subrange(p.val1 + VAL1@.len(), p.arg2);
            lemma_without_prefix(to_arg2, arg_close);
            let after = region.skip(p.val2 + VAL2@.len());
            text::lemma_index_from(after, call_close, 0);
            let closing_at = text::index_of(after, call_close)->0;
            let trailer = after.skip(closing_at + call_close.len());
            assert(after =~= arg_close + call_close + trailer);
            lemma_two_listed(
                args,
                call_open,
                NAME@,
                name_close,
                arg_name_close,
                value_open,
                arg_close,
                arg_sep,
                call_close,
            );
            let written = call_open + call_laws::written_body(format, NAME@, args) + call_close;
            let before = region.take(p.val2 + VAL2@.len());
            assert(region =~= before + after);
            lemma_assoc(before, arg_close + call_close, trailer);
            assert(before + (arg_close + call_close) == written);
            assert(region.take(written.len() as int) =~= written);
        },
        _ => {},
    }
}

/// Put around the probe's own two results, derived spans give back what the template rendered
/// between the turn before them and the reply behind them.
pub proof fn law_derived_result_spans_rewrite_their_probe(
    rendered: Seq<char>,
    anchor: Seq<char>,
    results: Seq<String>,
)
    requires
        tool_probe::spans_between(Some(rendered), anchor) is Some,
        results.len() == 2,
        results[0]@ == RESULT@,
        results[1]@ == RESULT2@,
    ensures
        ({
            let spans = tool_probe::spans_between(Some(rendered), anchor)->0;
            text::contains(rendered, anchor + spans.around(results) + REPLY@)
        }),
{
    let spans = tool_probe::spans_between(Some(rendered), anchor)->0;
    text::lemma_index_from(rendered, anchor, 0);
    text::lemma_index_from(rendered, RESULT@, 0);
    text::lemma_index_from(rendered, RESULT2@, 0);
    text::lemma_index_from(rendered, REPLY@, 0);
    let a = text::index_of(rendered, anchor)->0;
    let first = text::index_of(rendered, RESULT@)->0;
    let second = text::index_of(rendered, RESULT2@)->0;
    let reply = text::index_of(rendered, REPLY@)->0;
    reveal_with_fuel(tool_probe::joined_parts, 3);
    assert(spans.around(results) =~= spans.open + (RESULT@ + spans.separator + RESULT2@)
        + spans.close);
    let whole = anchor + spans.around(results) + REPLY@;
    assert(rendered.subrange(a, first) =~= anchor + spans.open);
    assert(rendered.subrange(a, second) =~= anchor + spans.open + RESULT@ + spans.separator);
    assert(rendered.subrange(a, reply) =~= anchor + spans.open + RESULT@ + spans.separator
        + RESULT2@ + spans.close);
    assert(rendered.subrange(a, reply + REPLY@.len()) =~= whole);
    assert(text::occurs_at(rendered, whole, a));
}

/// Results are put between what opens and what closes their turn, with the separator between each
/// two: one result brings no separator.
pub proof fn law_results_are_wrapped(spans: SpansView, results: Seq<String>)
    requires
        results.len() > 0,
    ensures
        results.len() == 1 ==> spans.around(results) == spans.open + results[0]@ + spans.close,
        results.len() > 1 ==> spans.around(results) == spans.open + tool_probe::joined_parts(
            results,
            spans.separator,
            results.len() - 1,
        ) + spans.separator + results.last()@ + spans.close,
{
    if results.len() > 1 {
        let before = tool_probe::joined_parts(results, spans.separator, results.len() - 1);
        assert(spans.open + (before + spans.separator + results.last()@) + spans.close
            =~= spans.open + before + spans.separator + results.last()@ + spans.close);
    }
}

/// Put around the probe's own messages, derived spans give back what the template rendered for two
/// exchanges, up to whatever it puts behind the last reply.
pub proof fn law_derived_turns_rewrite_their_probe(
    rendered: Seq<char>,
    u1: Seq<char>,
    a1: Seq<char>,
    u2: Seq<char>,
    a2: Seq<char>,
)
    requires
        conversation_template::spans_of_probe(Some(rendered), u1, a1, u2, a2) is Some,
    ensures
        ({
            let t: TemplateView = conversation_template::spans_of_probe(
                Some(rendered),
                u1,
                a1,
                u2,
                a2,
            )->0;
            (t.first_turn_open + u1 + t.generation_open + a1 + t.turn_transition + u2
                + t.generation_open + a2).is_prefix_of(rendered)
        }),
{
    let t = conversation_template::spans_of_probe(Some(rendered), u1, a1, u2, a2)->0;
    text::lemma_index_from(rendered, u1, 0);
    text::lemma_index_from(rendered, a1, 0);
    text::lemma_index_from(rendered, u2, 0);
    text::lemma_index_from(rendered, a2, 0);
    let i = text::index_of(rendered, u1)->0;
    let j = text::index_of(rendered, a1)->0;
    let k = text::index_of(rendered, u2)->0;
    let l = text::index_of(rendered, a2)->0;
    let one = t.first_turn_open + u1 + t.generation_open;
    assert(one =~= rendered.take(j));
    let two = one + a1 + t.turn_transition;
    assert(two =~= rendered.take(k));
    let three = two + u2 + t.generation_open;
    assert(three =~= rendered.take(l));
    assert(three + a2 =~= rendered.take(l + a2.len()));
}

/// What two renderings differ in is found: what the second has between the parts that they share.
pub proof fn law_what_renderings_differ_in(
    front: Seq<char>,
    a: Seq<char>,
    b: Seq<char>,
    back: Seq<char>,
)
    requires
        text::part_at_once(a + back, b + back),
        utf8::encode_utf8(a).len() == 0 || utf8::encode_utf8(b).len() == 0 || utf8::encode_utf8(
            a,
        ).last() != utf8::encode_utf8(b).last(),
    ensures
        tool_probe::divergence(front + a + back, front + b + back) == Some(b),
{
    text::lemma_shared_at_both_ends(front, a, b, back);
    text::law_byte_offsets_mark_off_parts(front, b, back);
}

/// A call without arguments is followed, behind its name, by what closes the name and the call.
proof fn lemma_after_bare_name(before: Seq<char>, after: Seq<char>)
    requires
        call_laws::ends_at(before, NAME@),
    ensures
        tool_probe::after_bare_name(before + NAME@ + after) == Some(after),
{
    call_laws::lemma_ends_at(before, NAME@, after);
}

/// The sentinels of a call stand one behind the other.
pub open spec fn one_behind_the_other(region: Seq<char>, p: Places) -> bool {
    &&& 0 <= p.name
    &&& p.name + NAME@.len() <= p.arg1
    &&& p.arg1 + ARG1@.len() <= p.val1
    &&& p.val1 + VAL1@.len() <= p.arg2
    &&& p.arg2 + ARG2@.len() <= p.val2
    &&& p.val2 + VAL2@.len() <= region.len()
}

/// A template that writes one delimited block for each argument is recognised: whatever stands around
/// the sentinels, if it is the same around both arguments and what opens an argument and what closes
/// the call can be told apart, those are the spans of the format.
pub proof fn law_delimited_blocks_are_recognised(
    region: Seq<char>,
    p: Places,
    before: Seq<char>,
    name_close: Seq<char>,
    arg_open: Seq<char>,
    arg_name_close: Seq<char>,
    arg_close: Seq<char>,
    call_close: Seq<char>,
)
    requires
        one_behind_the_other(region, p),
        region.subrange(p.name + NAME@.len(), p.arg1) == name_close + arg_open,
        region.subrange(p.arg1 + ARG1@.len(), p.val1) == arg_name_close,
        region.subrange(p.val1 + VAL1@.len(), p.arg2) == arg_close + arg_open,
        region.subrange(p.arg2 + ARG2@.len(), p.val2) == arg_name_close,
        region.skip(p.val2 + VAL2@.len()) == arg_close + call_close,
        call_laws::ends_at(before, NAME@),
        name_close.len() > 0,
        arg_open.len() > 0,
        arg_name_close.len() > 0,
        arg_close.len() > 0,
        text::part_at_once(arg_open, call_close),
    ensures
        tool_probe::delimited_format(region, before + NAME@ + (name_close + call_close), p) == Some(
            ToolFormatView::Delimited {
                call_open: region.take(p.name),
                name_close,
                arg_open,
                arg_name_close,
                arg_close,
                call_close,
            },
        ),
{
    lemma_after_bare_name(before, name_close + call_close);
    text::law_what_is_shared_at_the_beginning(name_close, arg_open, call_close);
    text::law_what_is_shared_at_the_beginning(arg_close, arg_open, call_close);
    text::law_a_beginning_is_taken_off(arg_open, name_close);
    text::law_a_beginning_is_taken_off(call_close, arg_close);
}

/// A template that writes a separator between arguments is recognised: whatever stands around the
/// sentinels, if it is the same around both arguments and values are opened as they are closed.
pub proof fn law_separated_arguments_are_recognised(
    region: Seq<char>,
    p: Places,
    before: Seq<char>,
    name_close: Seq<char>,
    arg_name_close: Seq<char>,
    arg_close: Seq<char>,
    arg_sep: Seq<char>,
    call_close: Seq<char>,
    trailer: Seq<char>,
)
    requires
        one_behind_the_other(region, p),
        region.subrange(p.name + NAME@.len(), p.arg1) == name_close,
        region.subrange(p.arg1 + ARG1@.len(), p.val1) == arg_name_close + arg_close,
        region.subrange(p.val1 + VAL1@.len(), p.arg2) == arg_close + arg_sep,
        region.subrange(p.arg2 + ARG2@.len(), p.val2) == arg_name_close + arg_close,
        region.skip(p.val2 + VAL2@.len()) == arg_close + call_close + trailer,
        call_laws::ends_at(before, NAME@),
        call_laws::ends_at(arg_close, call_close),
        name_close.len() > 0,
        arg_name_close.len() > 0,
        arg_sep.len() > 0,
        call_close.len() > 0,
        !text::contains(arg_sep, arg_name_close),
        !arg_sep.is_prefix_of(call_close),
    ensures
        tool_probe::separated_format(region, before + NAME@ + (name_close + call_close), p) == Some(
            ToolFormatView::Separated {
                call_open: region.take(p.name),
                name_close,
                arg_name_close,
                value_open: arg_close,
                arg_close,
                arg_sep,
                call_close,
            },
        ),
{
    lemma_after_bare_name(before, name_close + call_close);
    text::law_a_beginning_is_taken_off(call_close, name_close);
    call_laws::lemma_ends_at(arg_close, call_close, trailer);
    text::law_a_beginning_is_taken_off(arg_sep, arg_close);
    text::law_an_ending_is_taken_off(arg_name_close, arg_close);
    if arg_close.len() == 0 {
        assert(arg_name_close + arg_close =~= arg_name_close);
        assert(arg_close =~= Seq::empty());
    }
}

/// A template that writes a call as one JSON object is recognised: what stands before the outermost
/// braces opens a call, what stands behind them closes it, and the keys are those under which the
/// name and the arguments stand.
pub proof fn law_a_json_object_is_recognised(
    call_open: Seq<char>,
    payload: Seq<char>,
    call_close: Seq<char>,
    entries: Seq<EntryView>,
    n: int,
    a: int,
)
    requires
        payload.len() >= 2,
        payload[0] == '{',
        payload.last() == '}',
        !call_open.contains('{'),
        !call_close.contains('}'),
        json::parsed(payload) == Some(JsonView::Object(entries)),
        0 <= n < entries.len(),
        0 <= a < entries.len(),
        entries[n].value == JsonView::Text(NAME@),
        forall|i: int| 0 <= i < n ==> (#[trigger] entries[i]).value != JsonView::Text(NAME@),
        tool_probe::holds_text(entries[a].value, VAL1@),
        forall|i: int| 0 <= i < a ==> !tool_probe::holds_text((#[trigger] entries[i]).value, VAL1@),
    ensures
        tool_probe::json_format(call_open + payload + call_close) == Some(
            ToolFormatView::Json {
                call_open,
                call_close,
                name_key: entries[n].key,
                arguments_key: entries[a].key,
            },
        ),
{
    let region = call_open + payload + call_close;
    let open = call_open.len() as int;
    let close = open + payload.len() - 1;
    assert(region.subrange(open, open + 1) =~= seq!['{']);
    assert forall|j: int| j < open implies !#[trigger] text::occurs_at(region, seq!['{'], j) by {
        if text::occurs_at(region, seq!['{'], j) {
            assert(region.subrange(j, j + 1)[0] == '{');
            assert(call_open[j] == '{');
        }
    }
    text::law_first_and_last(region, seq!['{'], open);
    assert(region.subrange(close, close + 1) =~= seq!['}']);
    assert forall|j: int| close < j implies !#[trigger] text::occurs_at(region, seq!['}'], j) by {
        if text::occurs_at(region, seq!['}'], j) {
            assert(region.subrange(j, j + 1)[0] == '}');
            assert(call_close[j - close - 1] == '}');
        }
    }
    text::law_first_and_last(region, seq!['}'], close);
    assert(region.subrange(open, close + 1) =~= payload);
    assert(region.take(open) =~= call_open);
    assert(region.skip(close + 1) =~= call_close);
    lemma_text_entry(entries, NAME@, 0, n);
    lemma_holder_entry(entries, VAL1@, 0, a);
}

proof fn lemma_text_entry(entries: Seq<EntryView>, s: Seq<char>, from: int, n: int)
    requires
        0 <= from <= n < entries.len(),
        entries[n].value == JsonView::Text(s),
        forall|i: int| from <= i < n ==> (#[trigger] entries[i]).value != JsonView::Text(s),
    ensures
        tool_probe::text_entry(entries, s, from) == Some(n),
    decreases n - from,
{
    if from < n {
        lemma_text_entry(entries, s, from + 1, n);
    }
}

proof fn lemma_holder_entry(entries: Seq<EntryView>, s: Seq<char>, from: int, n: int)
    requires
        0 <= from <= n < entries.len(),
        tool_probe::holds_text(entries[n].value, s),
        forall|i: int| from <= i < n ==> !tool_probe::holds_text((#[trigger] entries[i]).value, s),
    ensures
        tool_probe::holder_entry(entries, s, from) == Some(n),
    decreases n - from,
{
    if from < n {
        lemma_holder_entry(entries, s, from + 1, n);
    }
}

/// A value holds a text if it is an object and the text stands under one of its keys.
pub proof fn law_what_holds_a_text(j: JsonView, s: Seq<char>)
    ensures
        tool_probe::holds_text(j, s) <==> j is Object && exists|i: int|
            0 <= i < j->Object_0.len() && (#[trigger] j->Object_0[i]).value == JsonView::Text(s),
{
    if j is Object {
        lemma_some_text_entry(j->Object_0, s, 0);
    }
}

proof fn lemma_some_text_entry(entries: Seq<EntryView>, s: Seq<char>, from: int)
    requires
        0 <= from,
    ensures
        tool_probe::text_entry(entries, s, from) is Some <==> exists|i: int|
            from <= i < entries.len() && (#[trigger] entries[i]).value == JsonView::Text(s),
    decreases entries.len() - from,
{
    if from < entries.len() {
        lemma_some_text_entry(entries, s, from + 1);
        if entries[from].value == JsonView::Text(s) {
        } else if tool_probe::text_entry(entries, s, from) is Some {
            let i = choose|i: int|
                from + 1 <= i < entries.len() && (#[trigger] entries[i]).value == JsonView::Text(s);
            assert(entries[i].value == JsonView::Text(s));
        }
    }
}

/// Which format a template is found to have: that of one JSON object where its calls are one, else
/// that of delimited blocks, else that of separated arguments; the last two only where the sentinels
/// were written in order. None where a sentinel is missing.
pub proof fn law_formats_are_tried_in_order(
    plain: Seq<char>,
    with_calls: Seq<char>,
    no_args: Seq<char>,
    region: Seq<char>,
    bare: Seq<char>,
    p: Places,
)
    requires
        tool_probe::divergence(plain, with_calls) == Some(region),
        tool_probe::divergence(plain, no_args) == Some(bare),
    ensures
        tool_probe::places(region) is None ==> tool_probe::call_format(plain, with_calls, no_args)
            is None,
        tool_probe::places(region) == Some(p) && tool_probe::json_format(region) is Some
            ==> tool_probe::call_format(plain, with_calls, no_args) == tool_probe::json_format(
            region,
        ),
        tool_probe::places(region) == Some(p) && tool_probe::json_format(region) is None && p.name
            < p.arg1 < p.val1 < p.arg2 < p.val2 && tool_probe::delimited_format(region, bare, p)
            is Some ==> tool_probe::call_format(plain, with_calls, no_args)
            == tool_probe::delimited_format(region, bare, p),
        tool_probe::places(region) == Some(p) && tool_probe::json_format(region) is None && p.name
            < p.arg1 < p.val1 < p.arg2 < p.val2 && tool_probe::delimited_format(region, bare, p)
            is None ==> tool_probe::call_format(plain, with_calls, no_args)
            == tool_probe::separated_format(region, bare, p),
        tool_probe::places(region) == Some(p) && tool_probe::json_format(region) is None && !(p.name
            < p.arg1 < p.val1 < p.arg2 < p.val2) ==> tool_probe::call_format(
            plain,
            with_calls,
            no_args,
        ) is None,
        tool_probe::format_of_renders(Some(plain), Some(with_calls), Some(no_args))
            == tool_probe::call_format(plain, with_calls, no_args),
        tool_probe::places(region) is Some <==> text::contains(region, NAME@) && text::contains(
            region,
            ARG1@,
        ) && text::contains(region, VAL1@) && text::contains(region, ARG2@) && text::contains(
            region,
            VAL2@,
        ),
{
    text::law_first_and_last(region, NAME@, 0);
    text::law_first_and_last(region, ARG1@, 0);
    text::law_first_and_last(region, VAL1@, 0);
    text::law_first_and_last(region, ARG2@, 0);
    text::law_first_and_last(region, VAL2@, 0);
}

/// Nothing is made of a rendering that failed.
pub proof fn law_nothing_is_made_of_a_failure(
    a: Option<Seq<char>>,
    b: Option<Seq<char>>,
    first: Seq<char>,
    second: Seq<char>,
)
    ensures
        tool_probe::format_of_renders(None, a, b) is None,
        tool_probe::format_of_renders(a, None, b) is None,
        tool_probe::format_of_renders(a, b, None) is None,
        !tool_probe::in_order(None, first, second),
        !tool_probe::tools_honoured(None, a),
        !tool_probe::tools_honoured(a, None),
        tool_probe::opening_of(None) is None,
        tool_probe::spans_between(None, first) is None,
        conversation_template::spans_of_probe(None, first, second, first, second) is None,
{
}

/// A template honours a system message or a result that it renders in its place: behind what comes
/// before it, by where each first stands.
pub proof fn law_what_stands_in_order(s: Seq<char>, first: Seq<char>, second: Seq<char>, a: int, b: int)
    ensures
        text::occurs_at(s, first, a) && (forall|j: int|
            j < a ==> !#[trigger] text::occurs_at(s, first, j)) && text::occurs_at(s, second, b) && (
        forall|j: int| j < b ==> !#[trigger] text::occurs_at(s, second, j))
            ==> (tool_probe::in_order(Some(s), first, second) <==> a < b),
        !text::contains(s, first) || !text::contains(s, second) ==> !tool_probe::in_order(
            Some(s),
            first,
            second,
        ),
{
    text::law_first_and_last(s, first, a);
    text::law_first_and_last(s, second, b);
}

/// A template honours tools if it names one that it was given and renders something else without it.
pub proof fn law_when_tools_are_honoured(before: Seq<char>, after: Seq<char>, without: Seq<char>)
    ensures
        before + NAME@ + after != without ==> tool_probe::tools_honoured(
            Some(before + NAME@ + after),
            Some(without),
        ),
        !tool_probe::tools_honoured(Some(without), Some(without)),
        !text::contains(before, NAME@) ==> !tool_probe::tools_honoured(Some(before), Some(without)),
{
    text::law_standing_somewhere(before, NAME@, after, before, 0);
}

/// What opens a conversation is all that is rendered before the first user's message.
pub proof fn law_what_opens_a_conversation(before: Seq<char>, after: Seq<char>)
    ensures
        call_laws::ends_at(before, USER@) ==> tool_probe::opening_of(Some(before + USER@ + after))
            == Some(before),
        !text::contains(before, USER@) ==> tool_probe::opening_of(Some(before)) is None,
{
    if call_laws::ends_at(before, USER@) {
        call_laws::lemma_ends_at(before, USER@, after);
    }
    text::law_first_and_last(before, USER@, 0);
}

/// What stands around two results is found, if each sentinel stands behind the one before it.
pub proof fn law_what_stands_around_results(
    s: Seq<char>,
    anchor: Seq<char>,
    a: int,
    first: int,
    second: int,
    reply: int,
)
    requires
        text::index_of(s, anchor) == Some(a),
        text::index_of(s, RESULT@) == Some(first),
        text::index_of(s, RESULT2@) == Some(second),
        text::index_of(s, REPLY@) == Some(reply),
        a + anchor.len() <= first,
        first + RESULT@.len() <= second,
        second + RESULT2@.len() <= reply,
        a < first < second < reply,
    ensures
        tool_probe::spans_between(Some(s), anchor) == Some(
            SpansView {
                open: s.subrange(a + anchor.len(), first),
                separator: s.subrange(first + RESULT@.len(), second),
                close: s.subrange(second + RESULT2@.len(), reply),
            },
        ),
{
    text::lemma_index_from(s, anchor, 0);
    text::lemma_index_from(s, RESULT@, 0);
    text::lemma_index_from(s, RESULT2@, 0);
    text::lemma_index_from(s, REPLY@, 0);
}

/// Results as messages of their own are preferred to results that a reply carries.
pub proof fn law_which_results_are_preferred(by_role: Option<Seq<char>>, native: Option<Seq<char>>)
    ensures
        tool_probe::spans_between(by_role, PLAIN@) is Some ==> tool_probe::result_spans(
            by_role,
            native,
        ) == tool_probe::spans_between(by_role, PLAIN@),
        tool_probe::spans_between(by_role, PLAIN@) is None ==> tool_probe::result_spans(
            by_role,
            native,
        ) == tool_probe::spans_between(native, USER@),
{
}

/// What stands around two exchanges is found, if each message stands behind the one before it and the
/// replies are opened alike; and not otherwise.
pub proof fn law_what_stands_around_exchanges(
    s: Seq<char>,
    u1: Seq<char>,
    a1: Seq<char>,
    u2: Seq<char>,
    a2: Seq<char>,
    i: int,
    j: int,
    k: int,
    l: int,
)
    requires
        text::index_of(s, u1) == Some(i),
        text::index_of(s, a1) == Some(j),
        text::index_of(s, u2) == Some(k),
        text::index_of(s, a2) == Some(l),
    ensures
        conversation_template::spans_of_probe(Some(s), u1, a1, u2, a2) is Some <==> i + u1.len() <= j
            && j + a1.len() <= k && k + u2.len() <= l && s.subrange(i + u1.len(), j) == s.subrange(
            k + u2.len(),
            l,
        ),
        conversation_template::spans_of_probe(Some(s), u1, a1, u2, a2) matches Some(t)
            ==> t.first_turn_open == s.take(i) && t.generation_open == s.subrange(i + u1.len(), j)
            && t.turn_transition == s.subrange(j + a1.len(), k),
{
}

/// Two probes that agree give what both gave; two that do not, or of which one failed, give nothing.
pub proof fn law_probes_have_to_agree(a: TemplateView, b: TemplateView)
    ensures
        conversation_template::agreed(Some(a), Some(a)) == Some(a),
        a != b ==> conversation_template::agreed(Some(a), Some(b)) is None,
        conversation_template::agreed(None, Some(b)) is None,
        conversation_template::agreed(Some(a), None) is None,
        conversation_template::agreed(None, None) is None,
{
}

/// Parts are put one behind the other with the separator between each two of them.
pub proof fn law_parts_are_joined(parts: Seq<String>, separator: Seq<char>, n: int)
    requires
        0 <= n <= parts.len(),
    ensures
        n == 0 ==> tool_probe::joined_parts(parts, separator, n).len() == 0,
        n == 1 ==> tool_probe::joined_parts(parts, separator, n) == parts[0]@,
        n > 1 ==> tool_probe::joined_parts(parts, separator, n) == tool_probe::joined_parts(
            parts,
            separator,
            n - 1,
        ) + separator + parts[n - 1]@,
{
}

/// What a model is offered tools with: nothing where there are none or its template ignores them;
/// else the format that its template writes, or the one that was configured where that is not known.
/// Where results have no place in it, they have none here.
pub proof fn law_how_tools_are_offered(
    can: ChatCapabilities,
    default_open: Seq<char>,
    system: Option<Seq<char>>,
    has_tools: bool,
    opening: Option<Seq<char>>,
    format: Option<ToolFormatView>,
    spans: Option<SpansView>,
    configured: Option<ToolFormatView>,
)
    ensures
        ({
            let setup = conversation_template::setup_from(
                can,
                default_open,
                system,
                has_tools,
                opening,
                format,
                spans,
                configured,
            );
            &&& !has_tools || !can.tools ==> setup.tool_format is None
                && setup.tool_result_spans is None
            &&& has_tools && can.tools && format is Some ==> setup.tool_format == format
            &&& has_tools && can.tools && format is None ==> setup.tool_format == configured
            &&& has_tools && can.tools && can.tool_results ==> setup.tool_result_spans == spans
            &&& !can.tool_results ==> setup.tool_result_spans is None
            &&& setup.capabilities == can
            &&& (has_tools && can.tools || system is Some && can.system) && opening is Some
                ==> setup.opening == opening->0
            &&& opening is None || !(has_tools && can.tools) && !(system is Some && can.system)
                ==> setup.opening == default_open
            &&& system is None ==> setup.system_for_first_turn is None
            &&& system is Some && can.system && opening is Some ==> setup.system_for_first_turn
                is None
            &&& system is Some && !(can.system && opening is Some) ==> setup.system_for_first_turn
                == system
        }),
{
}

/// What a template is asked before a conversation is opened: its opening with the system text, if it
/// honours one, and the tools, if there are any and it honours them.
pub proof fn law_what_a_template_is_asked(
    template: Seq<char>,
    default_open: Seq<char>,
    system: Option<Seq<char>>,
    tools: Seq<ToolSpec>,
    configured: Option<ToolFormatView>,
)
    ensures
        ({
            let can = conversation_template::capabilities_of(template);
            let setup = conversation_template::tool_setup(
                template,
                default_open,
                system,
                tools,
                configured,
            );
            let offered = if tools.len() > 0 && can.tools {
                Some(protocol::tools_json(tools))
            } else {
                None
            };
            &&& setup.capabilities == can
            &&& tools.len() > 0 && can.tools && conversation_template::format_of(template) is Some
                ==> setup.tool_format == conversation_template::format_of(template)
            &&& tools.len() > 0 && can.tools && conversation_template::format_of(template) is None
                ==> setup.tool_format == configured
            &&& tools.len() > 0 && can.tools && can.tool_results ==> setup.tool_result_spans
                == conversation_template::spans_of(template)
            &&& can.system && system is Some && conversation_template::opening_for(
                template,
                system,
                offered,
            ) is Some ==> setup.opening == conversation_template::opening_for(
                template,
                system,
                offered,
            )->0
            &&& tools.len() == 0 && (system is None || !can.system) ==> setup.opening == default_open
        }),
{
}

/// A format that is recognised can be read back: no text that a reader looks for is empty, and what
/// separates arguments is taken neither for what closes a name nor for what closes the call.
pub proof fn law_what_is_recognised_can_be_read(region: Seq<char>, no_args: Seq<char>, p: Places)
    ensures
        tool_probe::delimited_format(region, no_args, p) matches Some(f) ==> {
            &&& f is Delimited
            &&& f->Delimited_call_open == region.take(p.name)
            &&& f->Delimited_name_close.len() > 0
            &&& f->arg_open.len() > 0
            &&& f->Delimited_arg_name_close.len() > 0
            &&& f->Delimited_arg_close.len() > 0
        },
        tool_probe::separated_format(region, no_args, p) matches Some(f) ==> {
            &&& f is Separated
            &&& f->Separated_call_open == region.take(p.name)
            &&& f->Separated_name_close.len() > 0
            &&& f->Separated_arg_name_close.len() > 0
            &&& f->arg_sep.len() > 0
            &&& f->Separated_call_close.len() > 0
            &&& !text::contains(f->arg_sep, f->Separated_arg_name_close)
            &&& !f->arg_sep.is_prefix_of(f->Separated_call_close)
        },
        tool_probe::json_format(region) matches Some(f) ==> f is Json,
{
}

/// What a template is found to honour is what shows in what it renders: a system message that stands
/// before the user's, a tool that is named where it is offered, a result that stands behind the reply
/// that called for it.
pub proof fn law_what_shows_is_honoured(
    template: Seq<char>,
    said: Seq<char>,
    with: Seq<char>,
    without: Seq<char>,
    replied: Seq<char>,
)
    requires
        chat_template::chat_rendering(template, tool_probe::system_transcript(), None, false)
            == Some(said),
        chat_template::chat_rendering(
            template,
            tool_probe::user_transcript(),
            Some(JsonView::Array(seq![tool_probe::probe_tool()])),
            false,
        ) == Some(with),
        chat_template::chat_rendering(template, tool_probe::user_transcript(), None, false) == Some(
            without,
        ),
        chat_template::chat_rendering(template, tool_probe::result_transcript(), None, false)
            == Some(replied),
    ensures
        ({
            let can = conversation_template::capabilities_of(template);
            &&& can.system ==> text::contains(said, PLAIN@) && text::contains(said, USER@)
            &&& can.tools <==> with != without && text::contains(with, NAME@)
            &&& can.tool_results ==> text::contains(replied, PLAIN@) && text::contains(
                replied,
                RESULT@,
            )
            &&& can.system <==> tool_probe::in_order(Some(said), PLAIN@, USER@)
            &&& can.tool_results <==> tool_probe::in_order(Some(replied), PLAIN@, RESULT@)
        }),
{
    text::law_first_and_last(said, PLAIN@, 0);
    text::law_first_and_last(said, USER@, 0);
    text::law_first_and_last(replied, PLAIN@, 0);
    text::law_first_and_last(replied, RESULT@, 0);
}

/// The spans of a template are those around two exchanges, whatever is said in them: two probes that
/// say different things find the same. A template that does not render has none.
pub proof fn law_spans_do_not_depend_on_what_is_said(template: Seq<char>, t: TemplateView)
    requires
        conversation_template::conversation_spans(template) == Some(t),
    ensures
        conversation_template::probed_template(
            template,
            conversation_template::FIRST_USER_A@,
            conversation_template::FIRST_REPLY_A@,
            conversation_template::SECOND_USER_A@,
            conversation_template::SECOND_REPLY_A@,
        ) == Some(t),
        conversation_template::probed_template(
            template,
            conversation_template::FIRST_USER_B@,
            conversation_template::FIRST_REPLY_B@,
            conversation_template::SECOND_USER_B@,
            conversation_template::SECOND_REPLY_B@,
        ) == Some(t),
        conversation_template::conversation_spans(template) is Some ==> chat_template::compiles(
            chat_template::chat_setup(),
            "chat"@,
            template,
        ),
{
}

/// Two exchanges are put to a template as four messages, the user's first, with no reply to come; the
/// spans are what stands around them in what it renders.
pub proof fn law_how_exchanges_are_put(
    template: Seq<char>,
    u1: Seq<char>,
    a1: Seq<char>,
    u2: Seq<char>,
    a2: Seq<char>,
)
    ensures
        ({
            let messages = conversation_template::exchange_transcript(u1, a1, u2, a2);
            &&& messages is Array
            &&& messages->Array_0.len() == 4
            &&& messages->Array_0[0].lookup("role"@) == Some(JsonView::Text("user"@))
            &&& messages->Array_0[0].lookup("content"@) == Some(JsonView::Text(u1))
            &&& messages->Array_0[1].lookup("role"@) == Some(JsonView::Text("assistant"@))
            &&& messages->Array_0[1].lookup("content"@) == Some(JsonView::Text(a1))
            &&& messages->Array_0[2].lookup("role"@) == Some(JsonView::Text("user"@))
            &&& messages->Array_0[2].lookup("content"@) == Some(JsonView::Text(u2))
            &&& messages->Array_0[3].lookup("role"@) == Some(JsonView::Text("assistant"@))
            &&& messages->Array_0[3].lookup("content"@) == Some(JsonView::Text(a2))
            &&& chat_template::chat_rendering(template, messages, None, false) is None
                ==> conversation_template::probed_template(template, u1, a1, u2, a2) is None
            &&& conversation_template::probed_template(template, u1, a1, u2, a2) matches Some(t)
                ==> t.first_turn_open + u1 + t.generation_open + a1 + t.turn_transition + u2
                + t.generation_open + a2 == chat_template::chat_rendering(
                template,
                messages,
                None,
                false,
            )->0.take(
                (t.first_turn_open.len() + u1.len() + t.generation_open.len() + a1.len()
                    + t.turn_transition.len() + u2.len() + t.generation_open.len() + a2.len()) as int,
            )
        }),
{
    tool_probe::law_what_a_message_says("user"@, u1);
    tool_probe::law_what_a_message_says("assistant"@, a1);
    tool_probe::law_what_a_message_says("user"@, u2);
    tool_probe::law_what_a_message_says("assistant"@, a2);
    let messages = conversation_template::exchange_transcript(u1, a1, u2, a2);
    if let Some(t) = conversation_template::probed_template(template, u1, a1, u2, a2) {
        let s = chat_template::chat_rendering(template, messages, None, false)->0;
        let i = text::index_of(s, u1)->0;
        let j = text::index_of(s, a1)->0;
        let k = text::index_of(s, u2)->0;
        let l = text::index_of(s, a2)->0;
        text::law_first_and_last(s, u1, i);
        text::law_first_and_last(s, a1, j);
        text::law_first_and_last(s, u2, k);
        text::law_first_and_last(s, a2, l);
        lemma_in_eight_parts(s, u1, a1, u2, a2, i, j, k, l);
    }
}

proof fn lemma_in_eight_parts(
    s: Seq<char>,
    u1: Seq<char>,
    a1: Seq<char>,
    u2: Seq<char>,
    a2: Seq<char>,
    i: int,
    j: int,
    k: int,
    l: int,
)
    requires
        text::occurs_at(s, u1, i),
        text::occurs_at(s, a1, j),
        text::occurs_at(s, u2, k),
        text::occurs_at(s, a2, l),
        i + u1.len() <= j,
        j + a1.len() <= k,
        k + u2.len() <= l,
    ensures
        s.take(i) + u1 + s.subrange(i + u1.len(), j) + a1 + s.subrange(j + a1.len(), k) + u2
            + s.subrange(k + u2.len(), l) + a2 == s.take(l + a2.len()),
{
    assert(s.take(i) + u1 =~= s.take(i + u1.len())) by {
        assert(s.subrange(i, i + u1.len()) == u1);
        assert(s.take(i) + s.subrange(i, i + u1.len()) =~= s.take(i + u1.len()));
    }
    assert(s.take(i + u1.len()) + s.subrange(i + u1.len(), j) =~= s.take(j));
    assert(s.take(j) + a1 =~= s.take(j + a1.len())) by {
        assert(s.subrange(j, j + a1.len()) == a1);
        assert(s.take(j) + s.subrange(j, j + a1.len()) =~= s.take(j + a1.len()));
    }
    assert(s.take(j + a1.len()) + s.subrange(j + a1.len(), k) =~= s.take(k));
    assert(s.take(k) + u2 =~= s.take(k + u2.len())) by {
        assert(s.subrange(k, k + u2.len()) == u2);
        assert(s.take(k) + s.subrange(k, k + u2.len()) =~= s.take(k + u2.len()));
    }
    assert(s.take(k + u2.len()) + s.subrange(k + u2.len(), l) =~= s.take(l));
    assert(s.take(l) + a2 =~= s.take(l + a2.len())) by {
        assert(s.subrange(l, l + a2.len()) == a2);
        assert(s.take(l) + s.subrange(l, l + a2.len()) =~= s.take(l + a2.len()));
    }
}

/// How a template writes a call is found in three things that it renders: a plain reply, a call with
/// two arguments and one with none.
pub proof fn law_how_calls_are_put(
    template: Seq<char>,
    plain: Seq<char>,
    with_calls: Seq<char>,
    no_args: Seq<char>,
    arguments: JsonView,
)
    requires
        chat_template::chat_rendering(
            template,
            JsonView::Array(
                seq![
                    tool_probe::message_json("user"@, USER@),
                    tool_probe::message_json("assistant"@, PLAIN@),
                ],
            ),
            None,
            false,
        ) == Some(plain),
        arguments == JsonView::Object(
            seq![
                EntryView { key: ARG1@, value: JsonView::Text(VAL1@) },
                EntryView { key: ARG2@, value: JsonView::Text(VAL2@) },
            ],
        ),
        chat_template::chat_rendering(
            template,
            tool_probe::call_transcript(arguments),
            None,
            false,
        ) == Some(with_calls),
        chat_template::chat_rendering(
            template,
            tool_probe::call_transcript(JsonView::Object(Seq::empty())),
            None,
            false,
        ) == Some(no_args),
    ensures
        conversation_template::format_of(template) == tool_probe::call_format(
            plain,
            with_calls,
            no_args,
        ),
{
}

/// What is put around results is found in what a template renders for two of them, as messages of
/// the tool's own or carried by a reply, between a reply and the next.
pub proof fn law_how_results_are_put(template: Seq<char>)
    ensures
        ({
            let by_role = tool_probe::results_by_role();
            let native = tool_probe::results_native();
            let carried = native->Array_0[1].lookup("tool_responses"@)->0;
            &&& by_role->Array_0.len() == 5
            &&& by_role->Array_0[0] == tool_probe::message_json("user"@, USER@)
            &&& by_role->Array_0[1] == tool_probe::message_json("assistant"@, PLAIN@)
            &&& by_role->Array_0[2] == tool_probe::message_json("tool"@, RESULT@)
            &&& by_role->Array_0[3] == tool_probe::message_json("tool"@, RESULT2@)
            &&& by_role->Array_0[4] == tool_probe::message_json("assistant"@, REPLY@)
            &&& native->Array_0.len() == 3
            &&& native->Array_0[0] == by_role->Array_0[0]
            &&& native->Array_0[2] == by_role->Array_0[4]
            &&& native->Array_0[1].lookup("role"@) == Some(JsonView::Text("assistant"@))
            &&& carried->Array_0.len() == 2
            &&& carried->Array_0[0].lookup("response"@) == Some(JsonView::Text(RESULT@))
            &&& carried->Array_0[1].lookup("response"@) == Some(JsonView::Text(RESULT2@))
            &&& tool_probe::result_transcript()->Array_0 == by_role->Array_0.take(3)
            &&& tool_probe::system_transcript()->Array_0 == seq![
                tool_probe::message_json("system"@, PLAIN@),
                tool_probe::message_json("user"@, USER@),
            ]
            &&& tool_probe::user_transcript()->Array_0 == by_role->Array_0.take(1)
            &&& conversation_template::spans_of(template) == tool_probe::result_spans(
                chat_template::chat_rendering(template, by_role, None, false),
                chat_template::chat_rendering(template, native, None, false),
            )
        }),
{
    reveal_strlit("content");
    reveal_strlit("role");
    reveal_strlit("tool_responses");
    reveal_strlit("name");
    reveal_strlit("response");
    assert("content"@.len() == 7 && "role"@.len() == 4 && "tool_responses"@.len() == 14);
    assert("name"@.len() == 4 && "response"@.len() == 8);
    let by_role = tool_probe::results_by_role();
    let native = tool_probe::results_native();
    let reply = native->Array_0[1]->Object_0;
    json::law_what_stands_under_a_key(reply, "role"@, 1, JsonView::Null);
    json::law_what_stands_under_a_key(reply, "tool_responses"@, 2, JsonView::Null);
    let carried = reply[2].value->Array_0;
    json::law_what_stands_under_a_key(carried[0]->Object_0, "response"@, 1, JsonView::Null);
    json::law_what_stands_under_a_key(carried[1]->Object_0, "response"@, 1, JsonView::Null);
    assert(tool_probe::result_transcript()->Array_0 =~= by_role->Array_0.take(3));
    assert(tool_probe::user_transcript()->Array_0 =~= by_role->Array_0.take(1));
}

/// Whether a template honours tools is found out with one tool, which has a name, a description, and
/// one argument that is a text and has to be given.
pub proof fn law_what_is_offered_to_find_out(template: Seq<char>, list: JsonView)
    requires
        list is Array,
        list->Array_0.len() == 1,
        list->Array_0[0] == tool_probe::probe_tool(),
    ensures
        ({
            let user = tool_probe::user_transcript();
            conversation_template::capabilities_of(template).tools == tool_probe::tools_honoured(
                chat_template::chat_rendering(template, user, Some(list), false),
                chat_template::chat_rendering(template, user, None, false),
            )
        }),
        ({
            let function = tool_probe::probe_tool().lookup("function"@)->0;
            let schema = function.lookup("parameters"@)->0;
            let argument = schema.lookup("properties"@)->0.lookup("probe_arg"@)->0;
            &&& tool_probe::probe_tool().lookup("type"@) == Some(JsonView::Text("function"@))
            &&& function.lookup("name"@) == Some(JsonView::Text(NAME@))
            &&& function.lookup("description"@) is Some
            &&& schema.lookup("type"@) == Some(JsonView::Text("object"@))
            &&& schema.lookup("required"@) == Some(
                JsonView::Array(seq![JsonView::Text("probe_arg"@)]),
            )
            &&& argument.lookup("type"@) == Some(JsonView::Text("string"@))
        }),
{
    reveal_strlit("function");
    reveal_strlit("type");
    reveal_strlit("name");
    reveal_strlit("description");
    reveal_strlit("parameters");
    reveal_strlit("properties");
    reveal_strlit("probe_arg");
    reveal_strlit("required");
    assert("function"@.len() == 8 && "type"@.len() == 4 && "name"@.len() == 4);
    assert("description"@.len() == 11 && "parameters"@.len() == 10);
    assert("properties"@.len() == 10 && "required"@.len() == 8);
    assert(list->Array_0 =~= seq![tool_probe::probe_tool()]);
    let tool = tool_probe::probe_tool()->Object_0;
    json::law_what_stands_under_a_key(tool, "function"@, 0, JsonView::Null);
    json::law_what_stands_under_a_key(tool, "type"@, 1, JsonView::Null);
    let function = tool[0].value->Object_0;
    json::law_what_stands_under_a_key(function, "description"@, 0, JsonView::Null);
    json::law_what_stands_under_a_key(function, "name"@, 1, JsonView::Null);
    json::law_what_stands_under_a_key(function, "parameters"@, 2, JsonView::Null);
    let schema = function[2].value->Object_0;
    json::law_what_stands_under_a_key(schema, "properties"@, 0, JsonView::Null);
    json::law_what_stands_under_a_key(schema, "required"@, 1, JsonView::Null);
    json::law_what_stands_under_a_key(schema, "type"@, 2, JsonView::Null);
    let properties = schema[0].value->Object_0;
    json::law_what_stands_under_a_key(properties, "probe_arg"@, 0, JsonView::Null);
    let argument = properties[0].value->Object_0;
    json::law_what_stands_under_a_key(argument, "type"@, 1, JsonView::Null);
}

} // verus!
