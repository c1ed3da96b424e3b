//! What holds of tool calls as a whole: a call that is written in a format is read back with it,
//! a reply is cut off inside a call exactly where one is open, and a turn ends behind its calls.

use vstd::prelude::*;
use crate::json;
use crate::json::{EntryView, JsonView};
use crate::protocol::{ToolCallView, ToolFormatView};
use crate::text;
use crate::tool_format;
use crate::tool_format::{Place, ValueAndRest};

verus! {

/// An argument of a call.
pub struct Argument {
    pub name: Seq<char>,
    pub value: Seq<char>,
    /// The value is written without what wraps one, where the format lets it.
    pub bare: bool,
}

/// `closer`, put behind `s`, does not stand anywhere before: that is where `s` ends for a reader
/// who looks for `closer`.
pub open spec fn ends_at(s: Seq<char>, closer: Seq<char>) -> bool {
    text::index_of(s + closer, closer) == Some(s.len() as int)
}

/// The arguments as entries of an object.
pub open spec fn entries_of(args: Seq<Argument>) -> Seq<EntryView> {
    Seq::new(
        args.len(),
        |i: int| EntryView { key: args[i].name, value: JsonView::Text(args[i].value) },
    )
}

/// The call with that name and those arguments.
pub open spec fn call_with(name: Seq<char>, args: Seq<Argument>) -> ToolCallView {
    ToolCallView { name, arguments: tool_format::arguments_of(entries_of(args)) }
}

/// The arguments from the `from`-th on, one delimited block each.
pub open spec fn blocks(
    args: Seq<Argument>,
    from: int,
    arg_open: Seq<char>,
    arg_name_close: Seq<char>,
    arg_close: Seq<char>,
) -> Seq<char>
    decreases args.len() - from,
{
    if from < 0 || from >= args.len() {
        Seq::empty()
    } else {
        arg_open + args[from].name + arg_name_close + args[from].value + arg_close + blocks(
            args,
            from + 1,
            arg_open,
            arg_name_close,
            arg_close,
        )
    }
}

/// A value as it is written between separators.
pub open spec fn written_value(
    a: Argument,
    value_open: Seq<char>,
    arg_close: Seq<char>,
) -> Seq<char> {
    if a.bare {
        a.value
    } else {
        value_open + a.value + arg_close
    }
}

/// The arguments from the `from`-th on, with a separator between them.
pub open spec fn list(
    args: Seq<Argument>,
    from: int,
    arg_name_close: Seq<char>,
    value_open: Seq<char>,
    arg_close: Seq<char>,
    arg_sep: Seq<char>,
) -> Seq<char>
    decreases args.len() - from, 1int,
{
    if from < 0 || from >= args.len() {
        Seq::empty()
    } else {
        args[from].name + arg_name_close + from_value(
            args,
            from,
            arg_name_close,
            value_open,
            arg_close,
            arg_sep,
        )
    }
}

/// The same from the value of the `from`-th argument on.
pub open spec fn from_value(
    args: Seq<Argument>,
    from: int,
    arg_name_close: Seq<char>,
    value_open: Seq<char>,
    arg_close: Seq<char>,
    arg_sep: Seq<char>,
) -> Seq<char>
    decreases args.len() - from, 0int,
{
    if from < 0 || from >= args.len() {
        Seq::empty()
    } else if from + 1 == args.len() {
        written_value(args[from], value_open, arg_close)
    } else {
        written_value(args[from], value_open, arg_close) + arg_sep + list(
            args,
            from + 1,
            arg_name_close,
            value_open,
            arg_close,
            arg_sep,
        )
    }
}

/// What stands between the opener and the closer of a call that is written in a format of text
/// spans.
pub open spec fn written_body(
    format: ToolFormatView,
    name: Seq<char>,
    args: Seq<Argument>,
) -> Seq<char> {
    match format {
        ToolFormatView::Delimited { name_close, arg_open, arg_name_close, arg_close, .. } => name
            + name_close + blocks(args, 0, arg_open, arg_name_close, arg_close),
        ToolFormatView::Separated {
            name_close,
            arg_name_close,
            value_open,
            arg_close,
            arg_sep,
            ..
        } => name + name_close + list(args, 0, arg_name_close, value_open, arg_close, arg_sep),
        ToolFormatView::Json { .. } => Seq::empty(),
    }
}

/// The format marks off everything that it has to: no span that a reader looks for is empty.
pub open spec fn marks_off(format: ToolFormatView) -> bool {
    match format {
        ToolFormatView::Delimited { name_close, arg_open, arg_name_close, arg_close, .. } => {
            &&& name_close.len() > 0
            &&& arg_open.len() > 0
            &&& arg_name_close.len() > 0
            &&& arg_close.len() > 0
        },
        ToolFormatView::Separated { name_close, arg_name_close, arg_sep, .. } => {
            &&& name_close.len() > 0
            &&& arg_name_close.len() > 0
            &&& arg_sep.len() > 0
        },
        ToolFormatView::Json { .. } => false,
    }
}

/// `s` can be said as a name that is closed by `closer`.
pub open spec fn sayable_name(s: Seq<char>, closer: Seq<char>) -> bool {
    text::trimmed(s) == s && ends_at(s, closer)
}

/// The `i`-th value can be said between separators. A wrapped one must not hold what closes it. A
/// bare one must not hold a separator, nor look wrapped, nor be surrounded by white space.
pub open spec fn sayable_value(
    args: Seq<Argument>,
    i: int,
    arg_name_close: Seq<char>,
    value_open: Seq<char>,
    arg_close: Seq<char>,
    arg_sep: Seq<char>,
) -> bool {
    if args[i].bare {
        &&& text::trimmed(args[i].value) == args[i].value
        &&& value_open.len() > 0 ==> !value_open.is_prefix_of(
            from_value(args, i, arg_name_close, value_open, arg_close, arg_sep),
        )
        &&& if i + 1 == args.len() {
            !text::contains(args[i].value, arg_sep)
        } else {
            ends_at(args[i].value, arg_sep)
        }
    } else {
        value_open.len() > 0 && ends_at(args[i].value, arg_close)
    }
}

/// The format can say a call with that name and those arguments: nothing in it reads as the end of
/// what it stands in, and no name is surrounded by white space. Nor is a name empty, but that of
/// an argument in a block of its own.
pub open spec fn sayable(format: ToolFormatView, name: Seq<char>, args: Seq<Argument>) -> bool {
    match format {
        ToolFormatView::Delimited { name_close, arg_name_close, arg_close, .. } => {
            &&& name.len() > 0
            &&& sayable_name(name, name_close)
            &&& forall|i: int|
                0 <= i < args.len() ==> sayable_name((#[trigger] args[i]).name, arg_name_close)
                    && ends_at(args[i].value, arg_close)
        },
        ToolFormatView::Separated {
            name_close,
            arg_name_close,
            value_open,
            arg_close,
            arg_sep,
            ..
        } => {
            &&& name.len() > 0
            &&& sayable_name(name, name_close)
            &&& forall|i: int|
                0 <= i < args.len() ==> {
                    &&& (#[trigger] args[i]).name.len() > 0
                    &&& sayable_name(args[i].name, arg_name_close)
                    &&& sayable_value(args, i, arg_name_close, value_open, arg_close, arg_sep)
                }
        },
        ToolFormatView::Json { .. } => false,
    }
}

/// Whether `closer` ends `s` does not depend on what follows it.
pub proof fn lemma_ends_at(s: Seq<char>, closer: Seq<char>, rest: Seq<char>)
    requires
        ends_at(s, closer),
    ensures
        text::index_of(s + closer + rest, closer) == Some(s.len() as int),
        (s + closer + rest).take(s.len() as int) == s,
        (s + closer + rest).skip(s.len() as int + closer.len()) == rest,
{
    let short = s + closer;
    let long = s + closer + rest;
    text::lemma_index_from(short, closer, 0);
    assert(long.subrange(s.len() as int, s.len() as int + closer.len()) =~= closer);
    assert forall|j: int| 0 <= j < s.len() implies !#[trigger] text::occurs_at(long, closer, j) by {
        assert(!text::occurs_at(short, closer, j));
        assert(long.subrange(j, j + closer.len()) =~= short.subrange(j, j + closer.len()));
    }
    text::lemma_index_from_is(long, closer, 0, s.len() as int);
    assert(long.take(s.len() as int) =~= s);
    assert(long.skip(s.len() as int + closer.len()) =~= rest);
}

/// What stands first is found first.
proof fn lemma_stands_first(p: Seq<char>, rest: Seq<char>)
    ensures
        text::index_of(p + rest, p) == Some(0int),
        (p + rest).skip(p.len() as int) == rest,
{
    assert((p + rest).subrange(0, p.len() as int) =~= p);
    assert(text::occurs_at(p + rest, p, 0));
    assert((p + rest).skip(p.len() as int) =~= rest);
}

/// Nothing but the empty text stands in the empty text.
proof fn lemma_not_in_nothing(p: Seq<char>)
    requires
        p.len() > 0,
    ensures
        text::index_of(Seq::empty(), p) is None,
{
}

proof fn lemma_blocks_are_read(
    args: Seq<Argument>,
    from: int,
    arg_open: Seq<char>,
    arg_name_close: Seq<char>,
    arg_close: Seq<char>,
)
    requires
        0 <= from <= args.len(),
        arg_open.len() > 0,
        arg_name_close.len() > 0,
        arg_close.len() > 0,
        forall|i: int|
            0 <= i < args.len() ==> sayable_name((#[trigger] args[i]).name, arg_name_close)
                && ends_at(args[i].value, arg_close),
    ensures
        tool_format::delimited_pairs(
            blocks(args, from, arg_open, arg_name_close, arg_close),
            arg_open,
            arg_name_close,
            arg_close,
        ) == entries_of(args).skip(from),
    decreases args.len() - from,
{
    let s = blocks(args, from, arg_open, arg_name_close, arg_close);
    if from == args.len() {
        lemma_not_in_nothing(arg_open);
        assert(entries_of(args).skip(from) =~= Seq::empty());
    } else {
        let a = args[from];
        let next = blocks(args, from + 1, arg_open, arg_name_close, arg_close);
        let after_name = a.value + arg_close + next;
        let after_open = a.name + arg_name_close + after_name;
        assert(s =~= arg_open + after_open);
        lemma_stands_first(arg_open, after_open);
        lemma_ends_at(a.name, arg_name_close, after_name);
        lemma_ends_at(a.value, arg_close, next);
        lemma_blocks_are_read(args, from + 1, arg_open, arg_name_close, arg_close);
        let pair = EntryView { key: a.name, value: JsonView::Text(a.value) };
        assert(entries_of(args).skip(from) =~= seq![pair] + entries_of(args).skip(from + 1));
        if next.len() == 0 {
            if from + 1 < args.len() {
                assert(false);
            }
            assert(entries_of(args).skip(from + 1) =~= Seq::empty());
            assert(entries_of(args).skip(from) =~= seq![pair]);
        }
    }
}

/// How the value of one argument between separators is read.
proof fn lemma_value_is_read(
    args: Seq<Argument>,
    i: int,
    arg_name_close: Seq<char>,
    value_open: Seq<char>,
    arg_close: Seq<char>,
    arg_sep: Seq<char>,
)
    requires
        0 <= i < args.len(),
        arg_sep.len() > 0,
        sayable_value(args, i, arg_name_close, value_open, arg_close, arg_sep),
    ensures
        ({
            let s = from_value(args, i, arg_name_close, value_open, arg_close, arg_sep);
            let split = tool_format::leading_value(s, value_open, arg_close, arg_sep);
            &&& split.value == args[i].value
            &&& tool_format::after_separator(split.rest, arg_sep) == list(
                args,
                i + 1,
                arg_name_close,
                value_open,
                arg_close,
                arg_sep,
            )
        }),
{
    let s = from_value(args, i, arg_name_close, value_open, arg_close, arg_sep);
    let a = args[i];
    let more = list(args, i + 1, arg_name_close, value_open, arg_close, arg_sep);
    let tail = if i + 1 == args.len() {
        Seq::<char>::empty()
    } else {
        arg_sep + more
    };
    if i + 1 == args.len() {
        lemma_not_in_nothing(arg_sep);
        assert(more =~= Seq::empty());
    } else {
        lemma_stands_first(arg_sep, more);
    }
    if a.bare {
        if i + 1 == args.len() {
            text::lemma_index_from(a.value, arg_sep, 0);
            assert(s =~= a.value);
        } else {
            assert(s =~= a.value + arg_sep + more);
            lemma_ends_at(a.value, arg_sep, more);
            assert(s.skip(a.value.len() as int) =~= tail);
        }
    } else {
        let inner = a.value + arg_close + tail;
        assert(s =~= value_open + inner);
        lemma_stands_first(value_open, inner);
        assert(value_open.is_prefix_of(s)) by {
            assert(s.take(value_open.len() as int) =~= value_open);
        }
        lemma_ends_at(a.value, arg_close, tail);
        assert(tool_format::leading_value(s, value_open, arg_close, arg_sep) == (ValueAndRest {
            value: a.value,
            rest: tail,
        }));
    }
}

proof fn lemma_list_is_read(
    args: Seq<Argument>,
    from: int,
    arg_name_close: Seq<char>,
    value_open: Seq<char>,
    arg_close: Seq<char>,
    arg_sep: Seq<char>,
)
    requires
        0 <= from <= args.len(),
        arg_name_close.len() > 0,
        arg_sep.len() > 0,
        forall|i: int|
            0 <= i < args.len() ==> {
                &&& (#[trigger] args[i]).name.len() > 0
                &&& sayable_name(args[i].name, arg_name_close)
                &&& sayable_value(args, i, arg_name_close, value_open, arg_close, arg_sep)
            },
    ensures
        tool_format::separated_pairs(
            list(args, from, arg_name_close, value_open, arg_close, arg_sep),
            arg_name_close,
            value_open,
            arg_close,
            arg_sep,
        ) == entries_of(args).skip(from),
    decreases args.len() - from,
{
    let s = list(args, from, arg_name_close, value_open, arg_close, arg_sep);
    if from == args.len() {
        assert(entries_of(args).skip(from) =~= Seq::empty());
    } else {
        let a = args[from];
        let after_name = from_value(args, from, arg_name_close, value_open, arg_close, arg_sep);
        let more = list(args, from + 1, arg_name_close, value_open, arg_close, arg_sep);
        lemma_ends_at(a.name, arg_name_close, after_name);
        lemma_value_is_read(args, from, arg_name_close, value_open, arg_close, arg_sep);
        let pair = EntryView { key: a.name, value: JsonView::Text(a.value) };
        assert(entries_of(args).skip(from) =~= seq![pair] + entries_of(args).skip(from + 1));
        lemma_list_is_read(args, from + 1, arg_name_close, value_open, arg_close, arg_sep);
        assert(more.len() < s.len()) by {
            if from + 1 < args.len() {
                assert(after_name.len() >= more.len());
            }
        }
    }
}

/// What is written between the opener and the closer of a call is read back as that call: its name
/// and every argument, verbatim.
pub proof fn law_a_written_call_is_read_back(
    format: ToolFormatView,
    name: Seq<char>,
    args: Seq<Argument>,
)
    requires
        marks_off(format),
        sayable(format, name, args),
    ensures
        tool_format::body_call(format, written_body(format, name, args)) == Some(
            call_with(name, args),
        ),
{
    match format {
        ToolFormatView::Delimited { name_close, arg_open, arg_name_close, arg_close, .. } => {
            let rest = blocks(args, 0, arg_open, arg_name_close, arg_close);
            lemma_ends_at(name, name_close, rest);
            lemma_blocks_are_read(args, 0, arg_open, arg_name_close, arg_close);
        },
        ToolFormatView::Separated {
            name_close,
            arg_name_close,
            value_open,
            arg_close,
            arg_sep,
            ..
        } => {
            let rest = list(args, 0, arg_name_close, value_open, arg_close, arg_sep);
            lemma_ends_at(name, name_close, rest);
            lemma_list_is_read(args, 0, arg_name_close, value_open, arg_close, arg_sep);
        },
        ToolFormatView::Json { .. } => {},
    }
    assert(entries_of(args).skip(0) =~= entries_of(args));
}

proof fn lemma_first_body(
    prose: Seq<char>,
    body: Seq<char>,
    rest: Seq<char>,
    open: Seq<char>,
    close: Seq<char>,
)
    requires
        open.len() > 0,
        close.len() > 0,
        ends_at(prose, open),
        ends_at(body, close),
    ensures
        tool_format::bodies(prose + open + body + close + rest, open, close) == seq![body]
            + tool_format::bodies(rest, open, close),
{
    let s = prose + open + body + close + rest;
    let after = body + close + rest;
    assert(s =~= prose + open + after);
    lemma_ends_at(prose, open, after);
    lemma_ends_at(body, close, rest);
    assert(tool_format::closers(close)[0] == close);
    assert(tool_format::close_place(after, close) == Some(
        Place { at: body.len() as int, len: close.len() as int },
    ));
    if rest.len() == 0 {
        assert(rest =~= Seq::empty());
        lemma_not_in_nothing(open);
        assert(seq![body] + Seq::<Seq<char>>::empty() =~= seq![body]);
    }
}

/// One body more in front.
proof fn lemma_one_body_first(format: ToolFormatView, body: Seq<char>, more: Seq<Seq<char>>)
    ensures
        tool_format::body_calls(format, seq![body] + more) == (match tool_format::body_call(
            format,
            body,
        ) {
            Some(call) => seq![call],
            None => Seq::empty(),
        }) + tool_format::body_calls(format, more),
    decreases more.len(),
{
    let all = seq![body] + more;
    let first = match tool_format::body_call(format, body) {
        Some(call) => seq![call],
        None => Seq::<ToolCallView>::empty(),
    };
    if more.len() == 0 {
        assert(all.drop_last() =~= Seq::empty());
        assert(all.last() == body);
        reveal_with_fuel(tool_format::body_calls, 2);
        assert(tool_format::body_calls(format, all) =~= first);
        assert(first + Seq::<ToolCallView>::empty() =~= first);
    } else {
        lemma_one_body_first(format, body, more.drop_last());
        assert(all.drop_last() =~= seq![body] + more.drop_last());
        assert(all.last() == more.last());
        match tool_format::body_call(format, more.last()) {
            Some(call) => {
                assert((first + tool_format::body_calls(format, more.drop_last())).push(call)
                    =~= first + tool_format::body_calls(format, more.drop_last()).push(call));
            },
            None => {},
        }
    }
}

/// Calls are read one after the other: what comes before the first opener is passed over, then
/// comes the call between it and its closer, then whatever calls the rest holds.
pub proof fn law_calls_are_read_in_order(
    format: ToolFormatView,
    prose: Seq<char>,
    body: Seq<char>,
    rest: Seq<char>,
)
    requires
        format.call_open().len() > 0,
        format.call_close().len() > 0,
        ends_at(prose, format.call_open()),
        ends_at(body, format.call_close()),
    ensures
        tool_format::tool_calls(
            prose + format.call_open() + body + format.call_close() + rest,
            format,
        ) == (match tool_format::body_call(format, body) {
            Some(call) => seq![call],
            None => Seq::empty(),
        }) + tool_format::tool_calls(rest, format),
{
    lemma_first_body(prose, body, rest, format.call_open(), format.call_close());
    lemma_one_body_first(
        format,
        body,
        tool_format::bodies(rest, format.call_open(), format.call_close()),
    );
}

/// A call that a reply holds, written in the reply's format, is read back, whatever prose comes
/// before it and whatever calls come after it.
pub proof fn law_calls_survive_their_format(
    format: ToolFormatView,
    prose: Seq<char>,
    name: Seq<char>,
    args: Seq<Argument>,
    rest: Seq<char>,
)
    requires
        marks_off(format),
        sayable(format, name, args),
        format.call_open().len() > 0,
        format.call_close().len() > 0,
        ends_at(prose, format.call_open()),
        ends_at(written_body(format, name, args), format.call_close()),
    ensures
        tool_format::tool_calls(
            prose + format.call_open() + written_body(format, name, args) + format.call_close()
                + rest,
            format,
        ) == seq![call_with(name, args)] + tool_format::tool_calls(rest, format),
{
    law_a_written_call_is_read_back(format, name, args);
    law_calls_are_read_in_order(format, prose, written_body(format, name, args), rest);
}

/// A reply without an opener holds no calls.
pub proof fn law_prose_holds_no_calls(s: Seq<char>, format: ToolFormatView)
    requires
        !text::contains(s, format.call_open()),
    ensures
        tool_format::tool_calls(s, format).len() == 0,
{
    text::lemma_index_from(s, format.call_open(), 0);
}

/// There are no calls in nothing.
pub proof fn lemma_no_calls_in_nothing(format: ToolFormatView)
    requires
        format.call_open().len() > 0,
    ensures
        tool_format::tool_calls(Seq::empty(), format) == Seq::<ToolCallView>::empty(),
{
    lemma_not_in_nothing(format.call_open());
}

/// A call that is never closed runs to the end of the reply, and is read as far as it goes.
pub proof fn law_an_open_call_runs_to_the_end(
    format: ToolFormatView,
    prose: Seq<char>,
    body: Seq<char>,
)
    requires
        ends_at(prose, format.call_open()),
        tool_format::close_place(body, format.call_close()) is None,
    ensures
        tool_format::tool_calls(prose + format.call_open() + body, format) == (
        match tool_format::body_call(format, body) {
            Some(call) => seq![call],
            None => Seq::empty(),
        }),
{
    lemma_ends_at(prose, format.call_open(), body);
    lemma_one_body_first(format, body, Seq::empty());
    assert(seq![body] + Seq::<Seq<char>>::empty() =~= seq![body]);
    assert(tool_format::bodies(
        prose + format.call_open() + body,
        format.call_open(),
        format.call_close(),
    ) =~= seq![body]);
    reveal_with_fuel(tool_format::body_calls, 2);
    let first = match tool_format::body_call(format, body) {
        Some(call) => seq![call],
        None => Seq::<ToolCallView>::empty(),
    };
    assert(first + tool_format::body_calls(format, Seq::empty()) =~= first);
}

/// In an object made of arguments with different names, every argument stands under its name.
pub proof fn law_arguments_are_found(args: Seq<Argument>, i: int)
    requires
        0 <= i < args.len(),
        forall|a: int, b: int| 0 <= a < b < args.len() ==> args[a].name != args[b].name,
    ensures
        call_with(args[i].name, args).arguments.lookup(args[i].name) == Some(
            JsonView::Text(args[i].value),
        ),
{
    lemma_set_arguments(args, args.len() as int, i);
}

proof fn lemma_set_arguments(args: Seq<Argument>, n: int, i: int)
    requires
        0 <= i < args.len(),
        0 <= n <= args.len(),
        forall|a: int, b: int| 0 <= a < b < args.len() ==> args[a].name != args[b].name,
    ensures
        json::keys_in_order(json::normal_entries(entries_of(args), n)),
        i < n ==> JsonView::Object(json::normal_entries(entries_of(args), n)).lookup(args[i].name)
            == Some(JsonView::Text(args[i].value)),
    decreases n,
{
    if n > 0 {
        lemma_set_arguments(args, n - 1, i);
        let before = json::normal_entries(entries_of(args), n - 1);
        let e = entries_of(args)[n - 1];
        json::lemma_entry_set_in_order(before, e.key, json::normal(e.value));
        json::lemma_entry_set_lookup(before, e.key, json::normal(e.value), args[i].name);
    }
}

/// The closers of a call are the whole closer first, then shorter and shorter beginnings of it that
/// end a tag.
pub proof fn law_closers_shrink(close: Seq<char>, i: int)
    requires
        0 <= i < tool_format::closers(close).len(),
    ensures
        0 < tool_format::closers(close)[i].len() <= close.len(),
        tool_format::closers(close)[i].is_prefix_of(close),
        i == 0 ==> tool_format::closers(close)[i] == close,
        i > 0 ==> tool_format::closers(close)[i].last() == '>' && tool_format::closers(
            close,
        )[i].len() < tool_format::closers(close)[i - 1].len(),
{
    if i > 0 {
        lemma_tag_prefixes(close, close.len() as int, i - 1);
        assert(tool_format::closers(close)[i] == tool_format::tag_prefixes(
            close,
            close.len() as int,
        )[i - 1]);
        if i > 1 {
            lemma_tag_prefixes(close, close.len() as int, i - 2);
            assert(tool_format::closers(close)[i - 1] == tool_format::tag_prefixes(
                close,
                close.len() as int,
            )[i - 2]);
        }
    }
}

proof fn lemma_tag_prefixes(close: Seq<char>, n: int, i: int)
    requires
        0 <= i < tool_format::tag_prefixes(close, n).len(),
    ensures
        0 < tool_format::tag_prefixes(close, n)[i].len() <= n,
        tool_format::tag_prefixes(close, n)[i].len() < close.len(),
        tool_format::tag_prefixes(close, n)[i].is_prefix_of(close),
        tool_format::tag_prefixes(close, n)[i].last() == '>',
        i > 0 ==> tool_format::tag_prefixes(close, n)[i].len() < tool_format::tag_prefixes(
            close,
            n,
        )[i - 1].len(),
    decreases n,
{
    let all = tool_format::tag_prefixes(close, n);
    let fewer = tool_format::tag_prefixes(close, n - 1);
    if close[n - 1] == '>' && n < close.len() {
        if i > 0 {
            lemma_tag_prefixes(close, n - 1, i - 1);
            assert(all[i] == fewer[i - 1]);
            if i > 1 {
                assert(all[i - 1] == fewer[i - 2]);
            }
        }
    } else {
        lemma_tag_prefixes(close, n - 1, i);
    }
}

/// Whether reading the calls of `s` runs into one that is never closed.
pub open spec fn runs_open(s: Seq<char>, open: Seq<char>, close: Seq<char>) -> bool
    decreases s.len(),
{
    match text::index_of(s, open) {
        None => false,
        Some(start) => {
            let after = s.skip(start + open.len());
            match tool_format::close_place(after, close) {
                None => true,
                Some(p) => {
                    let remainder = after.skip(p.at + p.len);
                    0 < remainder.len() < s.len() && runs_open(remainder, open, close)
                },
            }
        },
    }
}

proof fn lemma_trimmed_end(s: Seq<char>)
    ensures
        text::trimmed_end(s).len() <= s.len(),
        text::trimmed_end(s) == s.take(text::trimmed_end(s).len() as int),
        forall|i: int| text::trimmed_end(s).len() <= i < s.len() ==> text::is_space(#[trigger] s[i]),
        text::trimmed_end(s).len() > 0 ==> !text::is_space(text::trimmed_end(s).last()),
    decreases s.len(),
{
    if s.len() > 0 && text::is_space(s.last()) {
        lemma_trimmed_end(s.drop_last());
        let n = text::trimmed_end(s).len() as int;
        assert(s.take(n) =~= s.drop_last().take(n));
        assert forall|i: int| n <= i < s.len() implies text::is_space(#[trigger] s[i]) by {
            if i < s.len() - 1 {
                assert(s.drop_last()[i] == s[i]);
            }
        }
    } else {
        assert(s.take(s.len() as int) =~= s);
    }
}

proof fn lemma_trimmed_end_of_two(a: Seq<char>, b: Seq<char>)
    requires
        text::trimmed_end(b).len() > 0,
    ensures
        text::trimmed_end(a + b) == a + text::trimmed_end(b),
    decreases b.len(),
{
    let s = a + b;
    if b.len() > 0 && text::is_space(b.last()) {
        assert(s.last() == b.last());
        assert(s.drop_last() =~= a + b.drop_last());
        lemma_trimmed_end_of_two(a, b.drop_last());
    } else if b.len() > 0 {
        assert(s.last() == b.last());
    }
}

/// No closer stands in a part of a text in which none stands.
proof fn lemma_no_closer_in_part(whole: Seq<char>, from: int, to: int, close: Seq<char>)
    requires
        0 <= from <= to <= whole.len(),
        tool_format::close_place(whole, close) is None,
    ensures
        tool_format::close_place(whole.subrange(from, to), close) is None,
{
    lemma_no_candidate_in_part(whole, from, to, tool_format::closers(close), 0);
}

proof fn lemma_no_candidate_in_part(
    whole: Seq<char>,
    from: int,
    to: int,
    candidates: Seq<Seq<char>>,
    k: int,
)
    requires
        0 <= from <= to <= whole.len(),
        0 <= k,
        tool_format::first_place(whole, candidates, k) is None,
    ensures
        tool_format::first_place(whole.subrange(from, to), candidates, k) is None,
    decreases candidates.len() - k,
{
    if k < candidates.len() {
        let part = whole.subrange(from, to);
        let c = candidates[k];
        text::lemma_index_from(whole, c, 0);
        text::lemma_index_from(part, c, 0);
        match text::index_of(part, c) {
            Some(i) => {
                assert(part.subrange(i, i + c.len()) =~= whole.subrange(
                    from + i,
                    from + i + c.len(),
                ));
                assert(text::occurs_at(whole, c, from + i));
            },
            None => {},
        }
        lemma_no_candidate_in_part(whole, from, to, candidates, k + 1);
    }
}

/// What makes the end of a text read as cut off makes a longer one with the same end read so.
proof fn lemma_mid_call_of_a_suffix(
    head: Seq<char>,
    rest: Seq<char>,
    open: Seq<char>,
    close: Seq<char>,
)
    requires
        tool_format::mid_call(rest, open, close),
    ensures
        tool_format::mid_call(head + rest, open, close),
{
    let t = text::trimmed_end(rest);
    let u = text::trimmed_end(head + rest);
    text::lemma_last_index_of(t, open);
    let by_opener = match text::last_index_of(t, open) {
        Some(at) => tool_format::close_place(t.skip(at + open.len()), close) is None,
        None => false,
    };
    if by_opener {
        let at = text::last_index_of(t, open)->0;
        assert(t.len() > 0);
        lemma_trimmed_end_of_two(head, rest);
        assert(u.subrange(head.len() + at, head.len() + at + open.len()) =~= t.subrange(
            at,
            at + open.len(),
        ));
        assert(text::occurs_at(u, open, head.len() + at));
        text::lemma_last_index_of(u, open);
        let last = text::last_index_of(u, open);
        assert(last is Some);
        if last->0 > head.len() + at {
            let j = last->0 - head.len();
            assert(t.subrange(j, j + open.len()) =~= u.subrange(last->0, last->0 + open.len()));
            assert(text::occurs_at(t, open, j));
        }
        assert(last->0 == head.len() + at);
        assert(u.skip(last->0 + open.len()) =~= t.skip(at + open.len()));
    } else {
        let n = choose|n: int|
            0 < n < open.len() && (#[trigger] open.take(n)).is_suffix_of(t);
        assert(t.len() > 0);
        lemma_trimmed_end_of_two(head, rest);
        assert(open.take(n).is_suffix_of(u)) by {
            assert(u.skip(u.len() - n) =~= t.skip(t.len() - n));
        }
    }
}

/// A call that was read although it is not closed is always noticed: the reply that holds it reads
/// as cut off. So a half-written call is never taken for a whole one.
pub proof fn law_half_read_calls_are_noticed(s: Seq<char>, open: Seq<char>, close: Seq<char>)
    requires
        text::trimmed_end(open).len() > 0,
        runs_open(s, open, close),
    ensures
        tool_format::mid_call(s, open, close),
    decreases s.len(),
{
    let start = text::index_of(s, open)->0;
    text::lemma_index_from(s, open, 0);
    let after = s.skip(start + open.len());
    match tool_format::close_place(after, close) {
        Some(p) => {
            let remainder = after.skip(p.at + p.len);
            law_half_read_calls_are_noticed(remainder, open, close);
            lemma_close_place_fits(after, close);
            let cut = start + open.len() + p.at + p.len;
            assert(s =~= s.take(cut) + remainder);
            lemma_mid_call_of_a_suffix(s.take(cut), remainder, open, close);
        },
        None => {
            let t = text::trimmed_end(s);
            lemma_trimmed_end(s);
            lemma_trimmed_end(open);
            let kept = text::trimmed_end(open).len() as int;
            assert(s[start + kept - 1] == open[kept - 1]) by {
                assert(s.subrange(start, start + open.len())[kept - 1] == open[kept - 1]);
            }
            assert(!text::is_space(open[kept - 1])) by {
                assert(text::trimmed_end(open).last() == open[kept - 1]);
            }
            assert(t.len() >= start + kept);
            if t.len() >= start + open.len() {
                assert(t.subrange(start, start + open.len()) =~= s.subrange(
                    start,
                    start + open.len(),
                ));
                assert(text::occurs_at(t, open, start));
                text::lemma_last_index_of(t, open);
                let at = text::last_index_of(t, open)->0;
                assert(at >= start);
                let from = at - start;
                assert(t.skip(at + open.len()) =~= after.subrange(
                    from,
                    t.len() - start - open.len(),
                ));
                lemma_no_closer_in_part(after, from, t.len() - start - open.len(), close);
            } else {
                let n = t.len() - start;
                assert(open.take(n).is_suffix_of(t)) by {
                    assert(t.skip(t.len() - n) =~= open.take(n)) by {
                        assert forall|i: int| 0 <= i < n implies t.skip(start)[i] == open.take(n)[i] by {
                            assert(s.subrange(start, start + open.len())[i] == open[i]);
                        }
                    }
                }
            }
        },
    }
}

proof fn lemma_close_place_fits(s: Seq<char>, close: Seq<char>)
    ensures
        match tool_format::close_place(s, close) {
            Some(p) => 0 <= p.at && 0 <= p.len && p.at + p.len <= s.len(),
            None => true,
        },
{
    lemma_first_place_fits(s, tool_format::closers(close), 0);
}

proof fn lemma_first_place_fits(s: Seq<char>, candidates: Seq<Seq<char>>, k: int)
    requires
        0 <= k,
    ensures
        match tool_format::first_place(s, candidates, k) {
            Some(p) => 0 <= p.at && 0 <= p.len && p.at + p.len <= s.len(),
            None => true,
        },
    decreases candidates.len() - k,
{
    if k < candidates.len() {
        text::lemma_index_from(s, candidates[k], 0);
        lemma_first_place_fits(s, candidates, k + 1);
    }
}

/// `s` ends, but for white space, in the beginning of an opener.
pub open spec fn ends_in_half_an_opener(s: Seq<char>, open: Seq<char>) -> bool {
    exists|n: int|
        0 < n < open.len() && (#[trigger] open.take(n)).is_suffix_of(text::trimmed_end(s))
}

/// A reply that stops part-way through an opener reads as cut off.
pub proof fn law_half_an_opener_is_noticed(s: Seq<char>, open: Seq<char>, close: Seq<char>)
    requires
        ends_in_half_an_opener(s, open),
    ensures
        tool_format::mid_call(s, open, close),
{
}

/// A reply whose last call is closed does not read as cut off, unless it stops part-way through
/// another opener. It need not be closed by the whole closer: a shorter one will do.
pub proof fn law_a_closed_call_is_not_cut_off(
    s: Seq<char>,
    at: int,
    open: Seq<char>,
    close: Seq<char>,
)
    requires
        text::last_index_of(text::trimmed_end(s), open) == Some(at),
        tool_format::close_place(text::trimmed_end(s).skip(at + open.len()), close) is Some,
        !ends_in_half_an_opener(s, open),
    ensures
        !tool_format::mid_call(s, open, close),
{
}

/// A reply without a call does not read as cut off, unless it stops part-way through an opener.
pub proof fn law_an_answer_is_not_cut_off(s: Seq<char>, open: Seq<char>, close: Seq<char>)
    requires
        !text::contains(text::trimmed_end(s), open),
        !ends_in_half_an_opener(s, open),
    ensures
        !tool_format::mid_call(s, open, close),
{
    text::lemma_last_index_of(text::trimmed_end(s), open);
}

proof fn lemma_last_end(s: Seq<char>, candidates: Seq<Seq<char>>, n: int)
    requires
        0 <= n <= candidates.len(),
    ensures
        match tool_format::last_end(s, candidates, n) {
            Some(e) => {
                &&& exists|k: int|
                    0 <= k < n && #[trigger] text::occurs_at(
                        s,
                        candidates[k],
                        e - candidates[k].len(),
                    )
                &&& forall|k: int, i: int|
                    0 <= k < n && #[trigger] text::occurs_at(s, candidates[k], i) ==> i
                        + candidates[k].len() <= e
            },
            None => forall|k: int, i: int|
                0 <= k < n ==> !#[trigger] text::occurs_at(s, candidates[k], i),
        },
    decreases n,
{
    if n > 0 {
        lemma_last_end(s, candidates, n - 1);
        let c = candidates[n - 1];
        text::lemma_last_index_of(s, c);
        let before = tool_format::last_end(s, candidates, n - 1);
        let now = tool_format::last_end(s, candidates, n);
        match text::last_index_of(s, c) {
            Some(at) => {
                let end = at + c.len();
                assert(text::occurs_at(s, candidates[n - 1], end - candidates[n - 1].len()));
                if before is Some && before->0 >= end {
                    let k = choose|k: int|
                        0 <= k < n - 1 && #[trigger] text::occurs_at(
                            s,
                            candidates[k],
                            before->0 - candidates[k].len(),
                        );
                    assert(text::occurs_at(s, candidates[k], now->0 - candidates[k].len()));
                }
                assert forall|k: int, i: int|
                    0 <= k < n && #[trigger] text::occurs_at(s, candidates[k], i) implies i
                    + candidates[k].len() <= now->0 by {
                    if k == n - 1 {
                        assert(i <= at);
                    } else {
                        assert(before is Some);
                    }
                }
            },
            None => {
                assert forall|i: int| !#[trigger] text::occurs_at(s, c, i) by {
                    assert(!text::contains(s, c));
                }
                if before is Some {
                    let k = choose|k: int|
                        0 <= k < n - 1 && #[trigger] text::occurs_at(
                            s,
                            candidates[k],
                            before->0 - candidates[k].len(),
                        );
                    assert(text::occurs_at(s, candidates[k], now->0 - candidates[k].len()));
                }
            },
        }
    }
}

/// A turn is cut right behind a closer, and no closer ends after it: every call that was closed is
/// kept. What is dropped is neither blank nor the beginning of another call.
pub proof fn law_a_turn_is_cut_behind_its_last_closer(
    s: Seq<char>,
    open: Seq<char>,
    candidates: Seq<Seq<char>>,
    at: int,
)
    requires
        tool_format::turn_cut(s, open, candidates) == Some(at),
    ensures
        exists|k: int|
            0 <= k < candidates.len() && #[trigger] text::occurs_at(
                s,
                candidates[k],
                at - candidates[k].len(),
            ),
        forall|k: int, i: int|
            0 <= k < candidates.len() && #[trigger] text::occurs_at(s, candidates[k], i) ==> i
                + candidates[k].len() <= at,
        ({
            let dropped = text::trimmed_start(s.skip(at));
            &&& dropped.len() > 0
            &&& !open.is_prefix_of(dropped)
            &&& !dropped.is_prefix_of(open)
        }),
{
    lemma_last_end(s, candidates, candidates.len() as int);
}

/// Once a turn is cut it is not cut again.
pub proof fn law_a_cut_turn_is_settled(
    s: Seq<char>,
    open: Seq<char>,
    candidates: Seq<Seq<char>>,
    at: int,
)
    requires
        tool_format::turn_cut(s, open, candidates) == Some(at),
    ensures
        0 <= at <= s.len(),
        tool_format::turn_cut(s.take(at), open, candidates) is None,
{
    let n = candidates.len() as int;
    lemma_last_end(s, candidates, n);
    let kept = s.take(at);
    let k = choose|k: int|
        0 <= k < n && #[trigger] text::occurs_at(s, candidates[k], at - candidates[k].len());
    assert(kept.subrange(at - candidates[k].len(), at) =~= s.subrange(
        at - candidates[k].len(),
        at,
    ));
    assert(text::occurs_at(kept, candidates[k], at - candidates[k].len()));
    lemma_last_end(kept, candidates, n);
    let end = tool_format::last_end(kept, candidates, n);
    assert(end is Some);
    let m = choose|m: int|
        0 <= m < n && #[trigger] text::occurs_at(kept, candidates[m], end->0 - candidates[m].len());
    assert(end->0 <= at);
    assert(end->0 >= at);
    assert(kept.skip(at) =~= Seq::empty());
    assert(text::trimmed_start(Seq::<char>::empty()) =~= Seq::empty());
}

/// A turn goes on while no call is closed.
pub proof fn law_a_turn_goes_on_until_a_call_closes(
    s: Seq<char>,
    open: Seq<char>,
    candidates: Seq<Seq<char>>,
)
    requires
        forall|k: int| 0 <= k < candidates.len() ==> !text::contains(s, #[trigger] candidates[k]),
    ensures
        tool_format::turn_cut(s, open, candidates) is None,
{
    lemma_last_end(s, candidates, candidates.len() as int);
    match tool_format::last_end(s, candidates, candidates.len() as int) {
        Some(e) => {
            let k = choose|k: int|
                0 <= k < candidates.len() && #[trigger] text::occurs_at(
                    s,
                    candidates[k],
                    e - candidates[k].len(),
                );
            assert(text::contains(s, candidates[k]));
        },
        None => {},
    }
}

/// A turn goes on while another call is being opened behind the last closed one, and while nothing
/// but white space follows it.
pub proof fn law_a_turn_may_hold_more_calls(
    s: Seq<char>,
    open: Seq<char>,
    candidates: Seq<Seq<char>>,
    end: int,
)
    requires
        tool_format::last_end(s, candidates, candidates.len() as int) == Some(end),
        ({
            let more = text::trimmed_start(s.skip(end));
            more.len() == 0 || open.is_prefix_of(more) || more.is_prefix_of(open)
        }),
    ensures
        tool_format::turn_cut(s, open, candidates) is None,
{
}

/// A call written as one JSON object is read back from what [`json::write`] gives for it: the name
/// under its key, the arguments under theirs.
pub proof fn law_a_json_call_is_read_back(
    format: ToolFormatView,
    name: Seq<char>,
    arguments: JsonView,
    body: Seq<char>,
)
    requires
        format is Json,
        format->name_key != format->arguments_key,
        name.len() > 0,
        body.len() >= 2,
        body[0] == '{',
        body.last() == '}',
        json::parsed(body) == Some(
            json::normal(
                JsonView::Object(
                    seq![
                        EntryView { key: format->name_key, value: JsonView::Text(name) },
                        EntryView { key: format->arguments_key, value: arguments },
                    ],
                ),
            ),
        ),
    ensures
        tool_format::body_call(format, body) == Some(
            ToolCallView { name, arguments: json::normal(arguments) },
        ),
{
    let pairs = seq![
        EntryView { key: format->name_key, value: JsonView::Text(name) },
        EntryView { key: format->arguments_key, value: arguments },
    ];
    assert(text::trimmed(body) == body);
    reveal_with_fuel(json::normal_entries, 3);
    let one = json::entry_set(Seq::empty(), format->name_key, JsonView::Text(name));
    let first = json::normal_entries(pairs, 1);
    assert(json::normal(JsonView::Text(name)) == JsonView::Text(name)) by {
        reveal_with_fuel(json::normal, 2);
    }
    assert(first == one);
    json::lemma_entry_set_in_order(Seq::empty(), format->name_key, JsonView::Text(name));
    json::lemma_entry_set_lookup(
        one,
        format->arguments_key,
        json::normal(arguments),
        format->name_key,
    );
    json::lemma_entry_set_lookup(
        one,
        format->arguments_key,
        json::normal(arguments),
        format->arguments_key,
    );
    json::lemma_entry_set_lookup(
        Seq::empty(),
        format->name_key,
        JsonView::Text(name),
        format->name_key,
    );
}

/// A turn is cut as soon as it has moved on: where a closer ends and none ends behind it, and what
/// follows, after white space, is neither an opener nor the beginning of one, that is where the turn
/// is over.
pub proof fn law_a_turn_is_cut_once_it_moves_on(
    kept: Seq<char>,
    gap: Seq<char>,
    dropped: Seq<char>,
    open: Seq<char>,
    candidates: Seq<Seq<char>>,
    k: int,
)
    requires
        open.len() > 0,
        0 <= k < candidates.len(),
        candidates[k].is_suffix_of(kept),
        forall|m: int, i: int|
            0 <= m < candidates.len() && #[trigger] text::occurs_at(
                kept + gap + dropped,
                candidates[m],
                i,
            ) ==> i + candidates[m].len() <= kept.len(),
        text::blank(gap),
        dropped.len() > 0,
        !text::is_space(dropped[0]),
        !open.is_prefix_of(dropped),
        !dropped.is_prefix_of(open),
    ensures
        tool_format::turn_cut(kept + gap + dropped, open, candidates) == Some(kept.len() as int),
{
    let s = kept + gap + dropped;
    let at = kept.len() - candidates[k].len();
    assert(s.subrange(at, at + candidates[k].len()) =~= candidates[k]) by {
        assert(kept.skip(at) =~= candidates[k]);
        assert(s.subrange(at, kept.len() as int) =~= kept.skip(at));
    }
    assert(text::occurs_at(s, candidates[k], at));
    lemma_last_end(s, candidates, candidates.len() as int);
    let end = tool_format::last_end(s, candidates, candidates.len() as int)->0;
    let m = choose|m: int|
        0 <= m < candidates.len() && #[trigger] text::occurs_at(
            s,
            candidates[m],
            end - candidates[m].len(),
        );
    assert(end == kept.len());
    assert(s.skip(end) =~= gap + dropped);
    text::law_trimming_takes_off_white_space(gap, dropped, Seq::empty());
}

/// A turn goes on for as long as another call may follow: where a closer ends and none ends behind
/// it, and white space follows, or an opener, or the beginning of one.
pub proof fn law_a_turn_waits_for_another_call(
    kept: Seq<char>,
    gap: Seq<char>,
    more: Seq<char>,
    open: Seq<char>,
    candidates: Seq<Seq<char>>,
    k: int,
)
    requires
        0 <= k < candidates.len(),
        candidates[k].is_suffix_of(kept),
        forall|m: int, i: int|
            0 <= m < candidates.len() && #[trigger] text::occurs_at(
                kept + gap + more,
                candidates[m],
                i,
            ) ==> i + candidates[m].len() <= kept.len(),
        text::blank(gap),
        more.len() == 0 || !text::is_space(more[0]),
        more.len() == 0 || open.is_prefix_of(more) || more.is_prefix_of(open),
    ensures
        tool_format::turn_cut(kept + gap + more, open, candidates) is None,
{
    let s = kept + gap + more;
    let at = kept.len() - candidates[k].len();
    assert(s.subrange(at, at + candidates[k].len()) =~= candidates[k]) by {
        assert(kept.skip(at) =~= candidates[k]);
        assert(s.subrange(at, kept.len() as int) =~= kept.skip(at));
    }
    assert(text::occurs_at(s, candidates[k], at));
    lemma_last_end(s, candidates, candidates.len() as int);
    let end = tool_format::last_end(s, candidates, candidates.len() as int)->0;
    let m = choose|m: int|
        0 <= m < candidates.len() && #[trigger] text::occurs_at(
            s,
            candidates[m],
            end - candidates[m].len(),
        );
    assert(end == kept.len());
    assert(s.skip(end) =~= gap + more);
    text::law_trimming_takes_off_white_space(gap, more, Seq::empty());
}

/// Nothing that could close a call is missing from the closers: the whole closer is one, and so is
/// each shorter beginning of it that ends a tag. Where there is no closer, nothing closes a call.
pub proof fn law_no_closer_is_missing(close: Seq<char>, n: int)
    requires
        0 < n <= close.len(),
        n == close.len() || close[n - 1] == '>',
    ensures
        exists|i: int|
            0 <= i < tool_format::closers(close).len() && #[trigger] tool_format::closers(close)[i]
                == close.take(n),
        tool_format::closers(Seq::empty()).len() == 0,
{
    let all = tool_format::closers(close);
    if n == close.len() {
        assert(close.take(n) =~= close);
        assert(all[0] == close.take(n));
    } else {
        let i = lemma_tag_prefix_is_there(close, close.len() as int, n);
        assert(all[i + 1] == tool_format::tag_prefixes(close, close.len() as int)[i]);
    }
}

proof fn lemma_tag_prefix_is_there(close: Seq<char>, m: int, n: int) -> (i: int)
    requires
        0 < n <= m <= close.len(),
        n < close.len(),
        close[n - 1] == '>',
    ensures
        0 <= i < tool_format::tag_prefixes(close, m).len(),
        tool_format::tag_prefixes(close, m)[i] == close.take(n),
    decreases m,
{
    if m == n {
        0
    } else {
        let i = lemma_tag_prefix_is_there(close, m - 1, n);
        if close[m - 1] == '>' && m < close.len() {
            assert(tool_format::tag_prefixes(close, m)[i + 1] == tool_format::tag_prefixes(
                close,
                m - 1,
            )[i]);
            i + 1
        } else {
            i
        }
    }
}

/// A call is closed by the longest closer that stands anywhere behind its opener, where that stands
/// first; it is not closed where none does.
pub proof fn law_a_call_is_closed_by_its_longest_closer(
    s: Seq<char>,
    close: Seq<char>,
    k: int,
    at: int,
)
    ensures
        ({
            let all = tool_format::closers(close);
            &&& 0 <= k < all.len() && text::occurs_at(s, all[k], at) && (forall|j: int|
                j < at ==> !#[trigger] text::occurs_at(s, all[k], j)) && (forall|j: int|
                0 <= j < k ==> !text::contains(s, #[trigger] all[j]))
                ==> tool_format::close_place(s, close) == Some(Place { at, len: all[k].len() as int })
            &&& tool_format::close_place(s, close) is None <==> forall|j: int|
                0 <= j < all.len() ==> !text::contains(s, #[trigger] all[j])
        }),
{
    let all = tool_format::closers(close);
    lemma_first_place(s, all, 0);
    if 0 <= k < all.len() && text::occurs_at(s, all[k], at) {
        assert(text::contains(s, all[k]));
        if (forall|j: int| j < at ==> !#[trigger] text::occurs_at(s, all[k], j)) && (forall|j: int|
            0 <= j < k ==> !text::contains(s, #[trigger] all[j])) {
            text::law_first_and_last(s, all[k], at);
            lemma_first_place_is(s, all, 0, k);
        }
    }
}

proof fn lemma_first_place(s: Seq<char>, all: Seq<Seq<char>>, k: int)
    requires
        0 <= k,
    ensures
        tool_format::first_place(s, all, k) is None <==> forall|j: int|
            k <= j < all.len() ==> !text::contains(s, #[trigger] all[j]),
    decreases all.len() - k,
{
    if k < all.len() {
        text::law_first_and_last(s, all[k], 0);
        lemma_first_place(s, all, k + 1);
    }
}

proof fn lemma_first_place_is(s: Seq<char>, all: Seq<Seq<char>>, from: int, k: int)
    requires
        0 <= from <= k < all.len(),
        forall|j: int| from <= j < k ==> !text::contains(s, #[trigger] all[j]),
        text::contains(s, all[k]),
    ensures
        tool_format::first_place(s, all, from) == Some(
            Place { at: text::index_of(s, all[k])->0, len: all[k].len() as int },
        ),
    decreases k - from,
{
    text::law_first_and_last(s, all[from], 0);
    if from < k {
        lemma_first_place_is(s, all, from + 1, k);
    }
}

/// A call reaches from its opener to where it is closed, however it is closed, and the next one is
/// looked for behind that.
pub proof fn law_a_call_reaches_to_its_closer(
    format: ToolFormatView,
    prose: Seq<char>,
    after: Seq<char>,
    p: Place,
)
    requires
        format.call_open().len() > 0,
        ends_at(prose, format.call_open()),
        tool_format::close_place(after, format.call_close()) == Some(p),
    ensures
        tool_format::tool_calls(prose + format.call_open() + after, format) == (
        match tool_format::body_call(format, after.take(p.at)) {
            Some(call) => seq![call],
            None => Seq::empty(),
        }) + tool_format::tool_calls(after.skip(p.at + p.len), format),
{
    let open = format.call_open();
    let close = format.call_close();
    let s = prose + open + after;
    lemma_ends_at(prose, open, after);
    lemma_close_place_fits(after, close);
    assert(s.skip(prose.len() as int + open.len()) =~= after);
    let remainder = after.skip(p.at + p.len);
    let more = tool_format::bodies(remainder, open, close);
    if remainder.len() == 0 {
        assert(remainder =~= Seq::empty());
        lemma_not_in_nothing(open);
        assert(seq![after.take(p.at)] + more =~= seq![after.take(p.at)]);
    }
    lemma_one_body_first(format, after.take(p.at), more);
}

/// A reply reads as cut off exactly where its last opener is not followed by a closer, or where it
/// stops part-way through an opener; white space at its end makes no difference.
pub proof fn law_what_reads_as_cut_off(s: Seq<char>, open: Seq<char>, close: Seq<char>, at: int)
    ensures
        ends_in_half_an_opener(s, open) ==> tool_format::mid_call(s, open, close),
        !ends_in_half_an_opener(s, open) && open.len() > 0 && text::occurs_at(
            text::trimmed_end(s),
            open,
            at,
        ) && (forall|j: int| at < j ==> !#[trigger] text::occurs_at(text::trimmed_end(s), open, j))
            ==> (tool_format::mid_call(s, open, close) <==> forall|j: int|
            0 <= j < tool_format::closers(close).len() ==> !text::contains(
                text::trimmed_end(s).skip(at + open.len()),
                #[trigger] tool_format::closers(close)[j],
            )),
        open.len() == 0 ==> !tool_format::mid_call(s, open, close),
{
    let t = text::trimmed_end(s);
    text::law_first_and_last(t, open, at);
    law_a_call_is_closed_by_its_longest_closer(t.skip(at + open.len()), close, 0, 0);
}

/// What a call says under its keys in a JSON value is what is read: a name that is a text and not
/// empty makes it a call, arguments that are not there are null.
pub proof fn law_json_calls_are_read_by_key(
    value: JsonView,
    name_key: Seq<char>,
    arguments_key: Seq<char>,
    name: Seq<char>,
)
    ensures
        value.lookup(name_key) == Some(JsonView::Text(name)) && name.len() > 0 ==> {
            &&& tool_format::json_call(value, name_key, arguments_key) is Some
            &&& tool_format::json_call(value, name_key, arguments_key)->0.name == name
            &&& value.lookup(arguments_key) matches Some(a) ==> tool_format::json_call(
                value,
                name_key,
                arguments_key,
            )->0.arguments == a
            &&& value.lookup(arguments_key) is None ==> tool_format::json_call(
                value,
                name_key,
                arguments_key,
            )->0.arguments == JsonView::Null
        },
        value.lookup(name_key) is None || !(value.lookup(name_key)->0 is Text) || (value.lookup(
            name_key,
        )->0->Text_0).len() == 0 ==> tool_format::json_call(value, name_key, arguments_key) is None,
{
}

/// A body in which the name is never closed, or whose name is blank, holds no call; and one that is
/// not JSON holds none in a format of JSON objects.
pub proof fn law_bodies_without_a_name_hold_no_call(format: ToolFormatView, body: Seq<char>)
    ensures
        match format {
            ToolFormatView::Json { name_key, arguments_key, .. } => {
                &&& json::parsed(text::trimmed(body)) is None ==> tool_format::body_call(
                    format,
                    body,
                ) is None
                &&& json::parsed(text::trimmed(body)) matches Some(value)
                    ==> tool_format::body_call(format, body) == tool_format::json_call(
                    value,
                    name_key,
                    arguments_key,
                )
            },
            ToolFormatView::Delimited { name_close, .. }
            | ToolFormatView::Separated { name_close, .. } => {
                &&& !text::contains(body, name_close) ==> tool_format::body_call(format, body)
                    is None
                &&& text::index_of(body, name_close) matches Some(end) ==> (
                tool_format::body_call(format, body) is Some <==> text::trimmed(
                    body.take(end),
                ).len() > 0)
                &&& tool_format::body_call(format, body) matches Some(call) ==> text::index_of(
                    body,
                    name_close,
                ) is Some && call.name == text::trimmed(
                    body.take(text::index_of(body, name_close)->0),
                )
            },
        },
{
    match format {
        ToolFormatView::Delimited { name_close, .. }
        | ToolFormatView::Separated { name_close, .. } => {
            text::law_first_and_last(body, name_close, 0);
        },
        _ => {},
    }
}

/// A block whose value is never closed keeps what there is of it; one whose name is never closed is
/// no argument.
pub proof fn law_half_a_block(
    name: Seq<char>,
    value: Seq<char>,
    arg_open: Seq<char>,
    arg_name_close: Seq<char>,
    arg_close: Seq<char>,
)
    requires
        arg_open.len() > 0,
        arg_name_close.len() > 0,
        arg_close.len() > 0,
    ensures
        sayable_name(name, arg_name_close) && !text::contains(value, arg_close)
            ==> tool_format::delimited_pairs(
            arg_open + name + arg_name_close + value,
            arg_open,
            arg_name_close,
            arg_close,
        ) == seq![EntryView { key: name, value: JsonView::Text(value) }],
        !text::contains(name, arg_name_close) ==> tool_format::delimited_pairs(
            arg_open + name,
            arg_open,
            arg_name_close,
            arg_close,
        ).len() == 0,
        !text::contains(value, arg_open) ==> tool_format::delimited_pairs(
            value,
            arg_open,
            arg_name_close,
            arg_close,
        ).len() == 0,
{
    text::law_first_and_last(value, arg_close, 0);
    text::law_first_and_last(value, arg_open, 0);
    text::law_first_and_last(name, arg_name_close, 0);
    let rest = name + arg_name_close + value;
    let s = arg_open + name + arg_name_close + value;
    assert(s =~= arg_open + rest);
    lemma_stands_first(arg_open, rest);
    lemma_stands_first(arg_open, name);
    assert(s.skip(arg_open.len() as int) =~= rest);
    assert((arg_open + name).skip(arg_open.len() as int) =~= name);
    if sayable_name(name, arg_name_close) {
        lemma_ends_at(name, arg_name_close, value);
        assert(rest.take(name.len() as int) =~= name);
        assert(rest.skip(name.len() as int + arg_name_close.len()) =~= value);
    }
}

/// Between separators, a value that is wrapped and never closed runs to the end, and so does the last
/// bare one; what has no name is no argument, and one whose name is blank is passed over.
pub proof fn law_half_a_list(
    name: Seq<char>,
    value: Seq<char>,
    more: Seq<char>,
    arg_name_close: Seq<char>,
    value_open: Seq<char>,
    arg_close: Seq<char>,
    arg_sep: Seq<char>,
)
    requires
        arg_name_close.len() > 0,
        arg_sep.len() > 0,
    ensures
        name.len() > 0 && sayable_name(name, arg_name_close) && value_open.len() > 0
            && !text::contains(value, arg_close) ==> tool_format::separated_pairs(
            name + arg_name_close + (value_open + value),
            arg_name_close,
            value_open,
            arg_close,
            arg_sep,
        ) == seq![EntryView { key: name, value: JsonView::Text(value) }],
        !text::contains(name, arg_name_close) ==> tool_format::separated_pairs(
            name,
            arg_name_close,
            value_open,
            arg_close,
            arg_sep,
        ).len() == 0,
        text::blank(name) && ends_at(name, arg_name_close) && ends_at(value, arg_sep) && (
        value_open.len() == 0 || !value_open.is_prefix_of(value + arg_sep + more))
            ==> tool_format::separated_pairs(
            name + arg_name_close + (value + arg_sep + more),
            arg_name_close,
            value_open,
            arg_close,
            arg_sep,
        ) == tool_format::separated_pairs(more, arg_name_close, value_open, arg_close, arg_sep),
{
    text::law_first_and_last(value, arg_close, 0);
    text::law_first_and_last(name, arg_name_close, 0);
    lemma_not_in_nothing(arg_sep);
    if name.len() > 0 && sayable_name(name, arg_name_close) && value_open.len() > 0
        && !text::contains(value, arg_close) {
        let after = value_open + value;
        let s = name + arg_name_close + after;
        lemma_ends_at(name, arg_name_close, after);
        lemma_stands_first(value_open, value);
        assert(value_open.is_prefix_of(after)) by {
            assert(after.take(value_open.len() as int) =~= value_open);
        }
        let pair = EntryView { key: name, value: JsonView::Text(value) };
        assert(tool_format::separated_pairs(
            Seq::empty(),
            arg_name_close,
            value_open,
            arg_close,
            arg_sep,
        ) =~= Seq::empty());
        assert(seq![pair] + Seq::<EntryView>::empty() =~= seq![pair]);
    }
    if text::blank(name) && ends_at(name, arg_name_close) && ends_at(value, arg_sep) && (
    value_open.len() == 0 || !value_open.is_prefix_of(value + arg_sep + more)) {
        let after = value + arg_sep + more;
        let s = name + arg_name_close + after;
        lemma_ends_at(name, arg_name_close, after);
        lemma_ends_at(value, arg_sep, more);
        text::law_trimming_takes_off_white_space(name, Seq::empty(), Seq::empty());
        assert(name + Seq::<char>::empty() + Seq::<char>::empty() =~= name);
        assert(after.skip(value.len() as int) =~= arg_sep + more);
        lemma_stands_first(arg_sep, more);
        let rest = tool_format::separated_pairs(
            more,
            arg_name_close,
            value_open,
            arg_close,
            arg_sep,
        );
        assert(Seq::<EntryView>::empty() + rest =~= rest);
    }
}

} // verus!
