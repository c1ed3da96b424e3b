//! Recovering how a model writes tool calls from its own chat template, and reading calls out of
//! what it generates.

use vstd::prelude::*;
use crate::json;
use crate::json::{EntryView, Json, JsonView};
use crate::protocol;
use crate::protocol::{ToolCall, ToolCallView, ToolFormat, ToolFormatView};
use crate::text;

verus! {

/// The proper prefixes of `close` of at most `n` characters that end a tag, longest first.
pub open spec fn tag_prefixes(close: Seq<char>, n: int) -> Seq<Seq<char>>
    decreases n,
{
    if n <= 0 || n > close.len() {
        Seq::empty()
    } else if close[n - 1] == '>' && n < close.len() {
        seq![close.take(n)] + tag_prefixes(close, n - 1)
    } else {
        tag_prefixes(close, n - 1)
    }
}

/// What may close a call: `close`, then its shorter prefixes that end a tag, longest first.
pub open spec fn closers(close: Seq<char>) -> Seq<Seq<char>> {
    if close.len() == 0 {
        Seq::empty()
    } else {
        seq![close] + tag_prefixes(close, close.len() as int)
    }
}

/// A place in a text and how many characters stand there.
pub struct Place {
    pub at: int,
    pub len: int,
}

/// The first place of the first of `candidates`, from the `k`-th on, that stands in `s`.
pub open spec fn first_place(s: Seq<char>, candidates: Seq<Seq<char>>, k: int) -> Option<Place>
    decreases candidates.len() - k,
{
    if k < 0 || k >= candidates.len() {
        None
    } else {
        match text::index_of(s, candidates[k]) {
            Some(at) => Some(Place { at, len: candidates[k].len() as int }),
            None => first_place(s, candidates, k + 1),
        }
    }
}

/// Where a call ends in `s`, and how much of `close` closed it.
pub open spec fn close_place(s: Seq<char>, close: Seq<char>) -> Option<Place> {
    first_place(s, closers(close), 0)
}

/// `close`, then its shorter prefixes that end a tag, longest first.
pub fn close_candidates(close: &[char]) -> (r: Vec<&[char]>)
    ensures
        r@.len() == closers(close@).len(),
        forall|i: int| 0 <= i < r@.len() ==> (#[trigger] r@[i])@ == closers(close@)[i],
        forall|i: int| 0 <= i < r@.len() ==> 0 < (#[trigger] r@[i])@.len() <= close@.len(),
{
    let mut r: Vec<&[char]> = Vec::new();
    if close.len() == 0 {
        return r;
    }
    r.push(text::head(close, close.len()));
    assert(close@.take(close@.len() as int) =~= close@);
    let mut n: usize = close.len();
    assert(seq![close@] + tag_prefixes(close@, n as int) == closers(close@));
    let ghost mut done: Seq<Seq<char>> = seq![close@];
    while n > 0
        invariant
            n <= close.len(),
            0 < close.len(),
            done + tag_prefixes(close@, n as int) == closers(close@),
            done.len() == r@.len(),
            forall|i: int| 0 <= i < r@.len() ==> (#[trigger] r@[i])@ == done[i],
            forall|i: int| 0 <= i < r@.len() ==> 0 < (#[trigger] r@[i])@.len() <= close@.len(),
        decreases n,
    {
        if close[n - 1] == '>' && n < close.len() {
            r.push(text::head(close, n));
            proof {
                assert(done + (seq![close@.take(n as int)] + tag_prefixes(close@, n - 1)) =~= done.push(
                    close@.take(n as int),
                ) + tag_prefixes(close@, n - 1));
                done = done.push(close@.take(n as int));
            }
        }
        n -= 1;
    }
    assert(done + tag_prefixes(close@, 0) =~= done);
    r
}

/// Where a call ends in `s`, and how much of `close` closed it. The whole closer is tried before
/// its shorter prefixes.
pub fn find_close(s: &[char], close: &[char]) -> (r: Option<(usize, usize)>)
    ensures
        match r {
            Some((at, len)) => close_place(s@, close@) == Some(Place { at: at as int, len: len as int })
                && 0 < len && at + len <= s@.len(),
            None => close_place(s@, close@) is None,
        },
{
    let candidates: Vec<&[char]> = close_candidates(close);
    let mut k: usize = 0;
    while k < candidates.len()
        invariant
            k <= candidates.len(),
            candidates@.len() == closers(close@).len(),
            forall|i: int|
                0 <= i < candidates@.len() ==> (#[trigger] candidates@[i])@ == closers(close@)[i],
            forall|i: int| 0 <= i < candidates@.len() ==> 0 < (#[trigger] candidates@[i])@.len(),
            close_place(s@, close@) == first_place(s@, closers(close@), k as int),
        decreases candidates.len() - k,
    {
        let c: &[char] = candidates[k];
        match text::find(s, c) {
            Some(at) => {
                return Some((at, c.len()));
            },
            None => {},
        }
        k += 1;
    }
    None
}

/// What stands between the opener and the closer of each call in `s`, in order. A call that is
/// never closed runs to the end.
pub open spec fn bodies(s: Seq<char>, open: Seq<char>, close: Seq<char>) -> Seq<Seq<char>>
    decreases s.len(),
{
    match text::index_of(s, open) {
        None => Seq::empty(),
        Some(start) => {
            let after = s.skip(start + open.len());
            match close_place(after, close) {
                None => seq![after],
                Some(p) => {
                    let remainder = after.skip(p.at + p.len);
                    if 0 < remainder.len() < s.len() {
                        seq![after.take(p.at)] + bodies(remainder, open, close)
                    } else {
                        seq![after.take(p.at)]
                    }
                },
            }
        },
    }
}

/// The bodies of the calls in `s`.
pub fn scan_calls<'a>(s: &'a [char], open: &[char], close: &[char]) -> (r: Vec<&'a [char]>)
    ensures
        r@.len() == bodies(s@, open@, close@).len(),
        forall|i: int| 0 <= i < r@.len() ==> (#[trigger] r@[i])@ == bodies(s@, open@, close@)[i],
{
    let mut r: Vec<&'a [char]> = Vec::new();
    let mut rest: &'a [char] = s;
    let ghost mut done: Seq<Seq<char>> = Seq::empty();
    assert(done + bodies(s@, open@, close@) =~= bodies(s@, open@, close@));
    loop
        invariant
            done + bodies(rest@, open@, close@) == bodies(s@, open@, close@),
            done.len() == r@.len(),
            forall|i: int| 0 <= i < r@.len() ==> (#[trigger] r@[i])@ == done[i],
        decreases rest@.len(),
    {
        match text::find(rest, open) {
            None => {
                assert(done + Seq::empty() =~= done);
                return r;
            },
            Some(start) => {
                let after: &'a [char] = text::after(rest, start, open.len());
                match find_close(after, close) {
                    None => {
                        r.push(after);
                        assert(done + seq![after@] =~= done.push(after@));
                        return r;
                    },
                    Some((at, len)) => {
                        let body: &'a [char] = text::head(after, at);
                        let remainder: &'a [char] = text::after(after, at, len);
                        r.push(body);
                        if remainder.len() == 0 {
                            assert(done + seq![body@] =~= done.push(body@));
                            return r;
                        }
                        proof {
                            assert(done + (seq![body@] + bodies(remainder@, open@, close@)) =~= done.push(
                                body@,
                            ) + bodies(remainder@, open@, close@));
                            done = done.push(body@);
                        }
                        rest = remainder;
                    },
                }
            },
        }
    }
}

/// The `name: value` pairs of the blocks in `rest`, one delimited block per argument. A block
/// whose name is never closed ends the list; a value that is never closed runs to the end.
pub open spec fn delimited_pairs(
    rest: Seq<char>,
    arg_open: Seq<char>,
    arg_name_close: Seq<char>,
    arg_close: Seq<char>,
) -> Seq<EntryView>
    decreases rest.len(),
{
    match text::index_of(rest, arg_open) {
        None => Seq::empty(),
        Some(start) => {
            let after_open = rest.skip(start + arg_open.len());
            match text::index_of(after_open, arg_name_close) {
                None => Seq::empty(),
                Some(name_end) => {
                    let key = text::trimmed(after_open.take(name_end));
                    let after_name = after_open.skip(name_end + arg_name_close.len());
                    match text::index_of(after_name, arg_close) {
                        None => seq![EntryView { key, value: JsonView::Text(after_name) }],
                        Some(end) => {
                            let pair = EntryView {
                                key,
                                value: JsonView::Text(after_name.take(end)),
                            };
                            let next = after_name.skip(end + arg_close.len());
                            if 0 < next.len() < rest.len() {
                                seq![pair] + delimited_pairs(
                                    next,
                                    arg_open,
                                    arg_name_close,
                                    arg_close,
                                )
                            } else {
                                seq![pair]
                            }
                        },
                    }
                },
            }
        },
    }
}

/// The object that holds `pairs`: a name that comes again replaces its earlier value.
pub open spec fn arguments_of(pairs: Seq<EntryView>) -> JsonView {
    json::normal(JsonView::Object(pairs))
}

/// Adding one more text pair to an object is setting its key.
proof fn lemma_one_more_pair(pairs: Seq<EntryView>, pair: EntryView)
    requires
        pair.value is Text,
    ensures
        json::normal_entries(pairs.push(pair), pairs.len() as int + 1) == json::entry_set(
            json::normal_entries(pairs, pairs.len() as int),
            pair.key,
            pair.value,
        ),
{
    reveal_with_fuel(json::normal, 2);
    reveal_with_fuel(json::normal_entries, 2);
    lemma_same_entries(pairs, pairs.push(pair), pairs.len() as int);
}

proof fn lemma_same_entries(a: Seq<EntryView>, b: Seq<EntryView>, n: int)
    requires
        n <= a.len(),
        n <= b.len(),
        forall|i: int| 0 <= i < n ==> a[i] == b[i],
    ensures
        json::normal_entries(a, n) == json::normal_entries(b, n),
    decreases n,
{
    if n > 0 {
        lemma_same_entries(a, b, n - 1);
    }
}

/// The arguments in `s`, one delimited block each.
pub fn read_delimited_args(
    s: &[char],
    arg_open: &[char],
    arg_name_close: &[char],
    arg_close: &[char],
) -> (r: Json)
    ensures
        r@ == arguments_of(delimited_pairs(s@, arg_open@, arg_name_close@, arg_close@)),
{
    let mut arguments: Vec<(String, Json)> = Vec::new();
    let mut rest: &[char] = s;
    let ghost mut done: Seq<EntryView> = Seq::empty();
    let ghost all = delimited_pairs(s@, arg_open@, arg_name_close@, arg_close@);
    assert(done + all =~= all);
    assert(json::entries_view(arguments@) =~= Seq::empty());
    loop
        invariant_except_break
            done + delimited_pairs(rest@, arg_open@, arg_name_close@, arg_close@) == all,
        invariant
            json::entries_view(arguments@) == json::normal_entries(done, done.len() as int),
        ensures
            done == all,
        decreases rest@.len(),
    {
        let start: usize = match text::find(rest, arg_open) {
            Some(start) => start,
            None => {
                assert(done + Seq::empty() =~= done);
                break;
            },
        };
        let after_open: &[char] = text::after(rest, start, arg_open.len());
        let name_end: usize = match text::find(after_open, arg_name_close) {
            Some(name_end) => name_end,
            None => {
                assert(done + Seq::empty() =~= done);
                break;
            },
        };
        let key: &[char] = text::trim(text::head(after_open, name_end));
        let after_name: &[char] = text::after(after_open, name_end, arg_name_close.len());
        let end: Option<usize> = text::find(after_name, arg_close);
        let value: &[char] = match end {
            Some(end) => text::head(after_name, end),
            None => after_name,
        };
        json::set_entry(&mut arguments, text::string_of(key), Json::Text(text::string_of(value)));
        let ghost pair = EntryView { key: key@, value: JsonView::Text(value@) };
        proof {
            lemma_one_more_pair(done, pair);
        }
        match end {
            None => {
                proof {
                    assert(done + seq![pair] =~= done.push(pair));
                    done = done.push(pair);
                }
                break;
            },
            Some(end) => {
                let next: &[char] = text::after(after_name, end, arg_close.len());
                if next.len() == 0 || next.len() == rest.len() {
                    proof {
                        assert(done + seq![pair] =~= done.push(pair));
                        done = done.push(pair);
                    }
                    break;
                }
                proof {
                    let more = delimited_pairs(next@, arg_open@, arg_name_close@, arg_close@);
                    assert(done + (seq![pair] + more) =~= done.push(pair) + more);
                    done = done.push(pair);
                }
                rest = next;
            },
        }
    }
    Json::object(arguments)
}

/// The next separator in `s`; an empty one is never found.
pub open spec fn separator_index(s: Seq<char>, sep: Seq<char>) -> Option<int> {
    if sep.len() == 0 {
        None
    } else {
        text::index_of(s, sep)
    }
}

/// A value and what follows it.
pub struct ValueAndRest {
    pub value: Seq<char>,
    pub rest: Seq<char>,
}

/// The value at the start of `s`. One that is wrapped runs to its closer verbatim; a bare one
/// ends at the next separator and is trimmed. Either runs to the end where its end is missing.
pub open spec fn leading_value(
    s: Seq<char>,
    value_open: Seq<char>,
    arg_close: Seq<char>,
    arg_sep: Seq<char>,
) -> ValueAndRest {
    if value_open.len() > 0 && value_open.is_prefix_of(s) {
        let inner = s.skip(value_open.len() as int);
        match text::index_of(inner, arg_close) {
            Some(end) => ValueAndRest {
                value: inner.take(end),
                rest: inner.skip(end + arg_close.len()),
            },
            None => ValueAndRest { value: inner, rest: Seq::empty() },
        }
    } else {
        match separator_index(s, arg_sep) {
            Some(end) => ValueAndRest { value: text::trimmed(s.take(end)), rest: s.skip(end) },
            None => ValueAndRest { value: text::trimmed(s), rest: Seq::empty() },
        }
    }
}

/// What follows the next separator in `s`.
pub open spec fn after_separator(s: Seq<char>, sep: Seq<char>) -> Seq<char> {
    match separator_index(s, sep) {
        Some(at) => s.skip(at + sep.len()),
        None => Seq::empty(),
    }
}

/// The `name: value` pairs of an argument block with a separator between arguments. A pair with
/// an empty name is left out; a piece without a name ends the list.
pub open spec fn separated_pairs(
    rest: Seq<char>,
    arg_name_close: Seq<char>,
    value_open: Seq<char>,
    arg_close: Seq<char>,
    arg_sep: Seq<char>,
) -> Seq<EntryView>
    decreases rest.len(),
{
    if rest.len() == 0 {
        Seq::empty()
    } else {
        match text::index_of(rest, arg_name_close) {
            None => Seq::empty(),
            Some(at) => {
                let key = text::trimmed(rest.take(at));
                let after_name = rest.skip(at + arg_name_close.len());
                let split = leading_value(after_name, value_open, arg_close, arg_sep);
                let next = after_separator(split.rest, arg_sep);
                let here = if key.len() == 0 {
                    Seq::empty()
                } else {
                    seq![EntryView { key, value: JsonView::Text(split.value) }]
                };
                if next.len() < rest.len() {
                    here + separated_pairs(next, arg_name_close, value_open, arg_close, arg_sep)
                } else {
                    here
                }
            },
        }
    }
}

/// The next separator in `s`.
pub fn find_sep(s: &[char], sep: &[char]) -> (r: Option<usize>)
    ensures
        match r {
            Some(at) => separator_index(s@, sep@) == Some(at as int) && 0 < sep@.len() && at
                + sep@.len() <= s@.len(),
            None => separator_index(s@, sep@) is None,
        },
{
    if sep.len() == 0 {
        None
    } else {
        text::find(s, sep)
    }
}

/// The value at the start of `s` and what follows it.
fn split_value<'a>(
    s: &'a [char],
    value_open: &[char],
    arg_close: &[char],
    arg_sep: &[char],
) -> (r: (&'a [char], &'a [char]))
    ensures
        leading_value(s@, value_open@, arg_close@, arg_sep@) == (ValueAndRest {
            value: r.0@,
            rest: r.1@,
        }),
        r.1@.len() <= s@.len(),
{
    let n: usize = s.len();
    if value_open.len() > 0 && text::starts_with(s, value_open) {
        let inner: &'a [char] = text::tail(s, value_open.len());
        match text::find(inner, arg_close) {
            Some(end) => (text::head(inner, end), text::after(inner, end, arg_close.len())),
            None => {
                let none: &'a [char] = text::tail(s, n);
                assert(none@ =~= Seq::empty());
                (inner, none)
            },
        }
    } else {
        match find_sep(s, arg_sep) {
            Some(end) => (text::trim(text::head(s, end)), text::tail(s, end)),
            None => {
                let none: &'a [char] = text::tail(s, n);
                assert(none@ =~= Seq::empty());
                (text::trim(s), none)
            },
        }
    }
}

/// The arguments in `s`, with a separator between them.
pub fn split_args(
    s: &[char],
    arg_name_close: &[char],
    value_open: &[char],
    arg_close: &[char],
    arg_sep: &[char],
) -> (r: Json)
    ensures
        r@ == arguments_of(
            separated_pairs(s@, arg_name_close@, value_open@, arg_close@, arg_sep@),
        ),
{
    let mut arguments: Vec<(String, Json)> = Vec::new();
    let mut rest: &[char] = s;
    let ghost mut done: Seq<EntryView> = Seq::empty();
    let ghost all = separated_pairs(s@, arg_name_close@, value_open@, arg_close@, arg_sep@);
    assert(done + all =~= all);
    assert(json::entries_view(arguments@) =~= Seq::empty());
    while rest.len() > 0
        invariant_except_break
            done + separated_pairs(rest@, arg_name_close@, value_open@, arg_close@, arg_sep@) == all,
        invariant
            json::entries_view(arguments@) == json::normal_entries(done, done.len() as int),
        ensures
            done == all,
        decreases rest@.len(),
    {
        let at: usize = match text::find(rest, arg_name_close) {
            Some(at) => at,
            None => {
                assert(done + Seq::empty() =~= done);
                break;
            },
        };
        let key: &[char] = text::trim(text::head(rest, at));
        let after_name: &[char] = text::after(rest, at, arg_name_close.len());
        let (value, remainder) = split_value(after_name, value_open, arg_close, arg_sep);
        let ghost pair = EntryView { key: key@, value: JsonView::Text(value@) };
        let ghost here = if key@.len() == 0 {
            Seq::<EntryView>::empty()
        } else {
            seq![pair]
        };
        if key.len() > 0 {
            json::set_entry(&mut arguments, text::string_of(key), Json::Text(text::string_of(value)));
            proof {
                lemma_one_more_pair(done, pair);
                assert(done + here =~= done.push(pair));
            }
        } else {
            assert(done + here =~= done);
        }
        let ghost before = done;
        proof {
            done = done + here;
        }
        match find_sep(remainder, arg_sep) {
            Some(next_at) => {
                let next: &[char] = text::after(remainder, next_at, arg_sep.len());
                proof {
                    let more = separated_pairs(
                        next@,
                        arg_name_close@,
                        value_open@,
                        arg_close@,
                        arg_sep@,
                    );
                    assert(before + (here + more) =~= done + more);
                }
                rest = next;
            },
            None => {
                proof {
                    let more = separated_pairs(
                        Seq::empty(),
                        arg_name_close@,
                        value_open@,
                        arg_close@,
                        arg_sep@,
                    );
                    assert(before + (here + more) =~= done);
                }
                break;
            },
        }
    }
    Json::object(arguments)
}

/// A call with that name and those arguments, unless the name is empty.
pub open spec fn named_call(name: Seq<char>, arguments: JsonView) -> Option<ToolCallView> {
    if name.len() == 0 {
        None
    } else {
        Some(ToolCallView { name, arguments })
    }
}

/// The call that a JSON value describes: its name is the string under `name_key`, its arguments
/// are what stands under `arguments_key`, `null` where nothing does.
pub open spec fn json_call(
    value: JsonView,
    name_key: Seq<char>,
    arguments_key: Seq<char>,
) -> Option<ToolCallView> {
    match value.lookup(name_key) {
        Some(JsonView::Text(name)) => named_call(
            name,
            match value.lookup(arguments_key) {
                Some(arguments) => arguments,
                None => JsonView::Null,
            },
        ),
        _ => None,
    }
}

/// The call that stands in a body.
pub open spec fn body_call(format: ToolFormatView, body: Seq<char>) -> Option<ToolCallView> {
    match format {
        ToolFormatView::Json { name_key, arguments_key, .. } => match json::parsed(
            text::trimmed(body),
        ) {
            Some(value) => json_call(value, name_key, arguments_key),
            None => None,
        },
        ToolFormatView::Delimited { name_close, arg_open, arg_name_close, arg_close, .. } => {
            match text::index_of(body, name_close) {
                Some(end) => named_call(
                    text::trimmed(body.take(end)),
                    arguments_of(
                        delimited_pairs(
                            body.skip(end + name_close.len()),
                            arg_open,
                            arg_name_close,
                            arg_close,
                        ),
                    ),
                ),
                None => None,
            }
        },
        ToolFormatView::Separated {
            name_close,
            arg_name_close,
            value_open,
            arg_close,
            arg_sep,
            ..
        } => match text::index_of(body, name_close) {
            Some(end) => named_call(
                text::trimmed(body.take(end)),
                arguments_of(
                    separated_pairs(
                        body.skip(end + name_close.len()),
                        arg_name_close,
                        value_open,
                        arg_close,
                        arg_sep,
                    ),
                ),
            ),
            None => None,
        },
    }
}

/// The calls that stand in `found`, bodies without one left out.
pub open spec fn body_calls(format: ToolFormatView, found: Seq<Seq<char>>) -> Seq<ToolCallView>
    decreases found.len(),
{
    if found.len() == 0 {
        Seq::empty()
    } else {
        match body_call(format, found.last()) {
            Some(call) => body_calls(format, found.drop_last()).push(call),
            None => body_calls(format, found.drop_last()),
        }
    }
}

/// The calls that a model's output holds.
pub open spec fn tool_calls(s: Seq<char>, format: ToolFormatView) -> Seq<ToolCallView> {
    body_calls(format, bodies(s, format.call_open(), format.call_close()))
}

/// Whether a call was read, and which.
pub open spec fn call_view(call: Option<ToolCall>) -> Option<ToolCallView> {
    match call {
        Some(c) => Some(c@),
        None => None,
    }
}

/// A call with that name and those arguments, unless the name is empty.
fn named(name: String, arguments: Json) -> (r: Option<ToolCall>)
    ensures
        call_view(r) == named_call(name@, arguments@),
{
    if name.as_str().is_empty() {
        None
    } else {
        Some(ToolCall { name, arguments })
    }
}

/// The call that a JSON value describes.
pub fn read_json_call(value: &Json, name_key: &str, arguments_key: &str) -> (r: Option<ToolCall>)
    ensures
        call_view(r) == json_call(value@, name_key@, arguments_key@),
{
    let name: &Json = match value.get(name_key) {
        Some(name) => name,
        None => {
            return None;
        },
    };
    let name: &str = match name.as_str() {
        Some(name) => name,
        None => {
            return None;
        },
    };
    let arguments: Json = match value.get(arguments_key) {
        Some(arguments) => arguments.copied(),
        None => Json::Null,
    };
    named(name.to_string(), arguments)
}

/// The call that stands in a body.
pub fn read_body(format: &ToolFormat, body: &[char]) -> (r: Option<ToolCall>)
    ensures
        call_view(r) == body_call(format@, body@),
{
    match format {
        ToolFormat::Json { name_key, arguments_key, .. } => {
            let payload: String = text::string_of(text::trim(body));
            match json::parse(payload.as_str()) {
                Some(value) => read_json_call(&value, name_key.as_str(), arguments_key.as_str()),
                None => None,
            }
        },
        ToolFormat::Delimited { name_close, arg_open, arg_name_close, arg_close, .. } => {
            let name_close: Vec<char> = text::chars_of(name_close.as_str());
            match text::find(body, name_close.as_slice()) {
                Some(end) => {
                    let arguments: Json = read_delimited_args(
                        text::after(body, end, name_close.len()),
                        text::chars_of(arg_open.as_str()).as_slice(),
                        text::chars_of(arg_name_close.as_str()).as_slice(),
                        text::chars_of(arg_close.as_str()).as_slice(),
                    );
                    named(text::string_of(text::trim(text::head(body, end))), arguments)
                },
                None => None,
            }
        },
        ToolFormat::Separated {
            name_close,
            arg_name_close,
            value_open,
            arg_close,
            arg_sep,
            ..
        } => {
            let name_close: Vec<char> = text::chars_of(name_close.as_str());
            match text::find(body, name_close.as_slice()) {
                Some(end) => {
                    let arguments: Json = split_args(
                        text::after(body, end, name_close.len()),
                        text::chars_of(arg_name_close.as_str()).as_slice(),
                        text::chars_of(value_open.as_str()).as_slice(),
                        text::chars_of(arg_close.as_str()).as_slice(),
                        text::chars_of(arg_sep.as_str()).as_slice(),
                    );
                    named(text::string_of(text::trim(text::head(body, end))), arguments)
                },
                None => None,
            }
        },
    }
}

/// Every tool call in `s`. Text outside a call is ignored; a call that is malformed is left out;
/// one that was cut off keeps what there is of it.
pub fn parse_tool_calls(s: &str, format: &ToolFormat) -> (r: Vec<ToolCall>)
    ensures
        protocol::calls_view(r@) == tool_calls(s@, format@),
{
    let cs: Vec<char> = text::chars_of(s);
    let open: Vec<char> = text::chars_of(format.call_open());
    let close: Vec<char> = text::chars_of(format.call_close());
    let found: Vec<&[char]> = scan_calls(cs.as_slice(), open.as_slice(), close.as_slice());
    let ghost all = bodies(s@, open@, close@);
    let mut calls: Vec<ToolCall> = Vec::new();
    let mut i: usize = 0;
    assert(protocol::calls_view(calls@) =~= body_calls(format@, all.take(0)));
    while i < found.len()
        invariant
            i <= found.len(),
            found@.len() == all.len(),
            forall|j: int| 0 <= j < found@.len() ==> (#[trigger] found@[j])@ == all[j],
            protocol::calls_view(calls@) == body_calls(format@, all.take(i as int)),
        decreases found.len() - i,
    {
        assert(all.take(i + 1).drop_last() =~= all.take(i as int));
        assert(found@[i as int]@ == all[i as int]);
        match read_body(format, found[i]) {
            Some(call) => {
                let ghost before = protocol::calls_view(calls@);
                calls.push(call);
                assert(protocol::calls_view(calls@) =~= before.push(call@));
            },
            None => {},
        }
        i += 1;
    }
    assert(all.take(i as int) =~= all);
    calls
}

/// The greatest index at which one of the first `n` of `candidates` ends in `s`.
pub open spec fn last_end(s: Seq<char>, candidates: Seq<Seq<char>>, n: int) -> Option<int>
    decreases n,
{
    if n <= 0 {
        None
    } else {
        let before = last_end(s, candidates, n - 1);
        match text::last_index_of(s, candidates[n - 1]) {
            None => before,
            Some(at) => {
                let end = at + candidates[n - 1].len();
                match before {
                    Some(b) if b >= end => before,
                    _ => Some(end),
                }
            },
        }
    }
}

/// Where a turn is over: at the end of the last closer, once what follows it is neither white
/// space alone, nor another call, nor the beginning of one.
pub open spec fn turn_cut(
    s: Seq<char>,
    call_open: Seq<char>,
    candidates: Seq<Seq<char>>,
) -> Option<int> {
    if call_open.len() == 0 {
        None
    } else {
        match last_end(s, candidates, candidates.len() as int) {
            None => None,
            Some(end) => {
                let after = text::trimmed_start(s.skip(end));
                if after.len() == 0 || call_open.is_prefix_of(after) || after.is_prefix_of(call_open) {
                    None
                } else {
                    Some(end)
                }
            },
        }
    }
}

/// When a turn is over because the model has stopped making tool calls and begun to write the
/// other side of the conversation.
#[derive(Debug)]
pub struct TurnEnd {
    call_open: String,
    closers: Vec<String>,
}

/// The content of a [`TurnEnd`].
pub struct TurnEndView {
    pub call_open: Seq<char>,
    pub closers: Seq<Seq<char>>,
}

impl View for TurnEnd {
    type V = TurnEndView;

    closed spec fn view(&self) -> TurnEndView {
        TurnEndView {
            call_open: self.call_open@,
            closers: Seq::new(self.closers@.len(), |i: int| self.closers@[i]@),
        }
    }
}

impl TurnEnd {
    /// The openers and closers of a format.
    pub fn of(format: &ToolFormat) -> (r: Self)
        ensures
            r@ == (TurnEndView {
                call_open: format@.call_open(),
                closers: closers(format@.call_close()),
            }),
    {
        let close: Vec<char> = text::chars_of(format.call_close());
        let candidates: Vec<&[char]> = close_candidates(close.as_slice());
        let mut all: Vec<String> = Vec::new();
        let mut i: usize = 0;
        while i < candidates.len()
            invariant
                i <= candidates.len(),
                all@.len() == i,
                candidates@.len() == closers(close@).len(),
                forall|j: int|
                    0 <= j < candidates@.len() ==> (#[trigger] candidates@[j])@ == closers(close@)[j],
                forall|j: int| 0 <= j < i ==> (#[trigger] all@[j])@ == closers(close@)[j],
            decreases candidates.len() - i,
        {
            assert(candidates@[i as int]@ == closers(close@)[i as int]);
            all.push(text::string_of(candidates[i]));
            i += 1;
        }
        let r = TurnEnd { call_open: format.call_open().to_string(), closers: all };
        assert(r@.closers =~= closers(close@));
        r
    }

    /// Where to cut a text, counted in characters, or `None` to keep generating.
    pub fn cut(&self, s: &[char]) -> (r: Option<usize>)
        ensures
            match r {
                Some(at) => turn_cut(s@, self@.call_open, self@.closers) == Some(at as int) && at
                    <= s@.len(),
                None => turn_cut(s@, self@.call_open, self@.closers) is None,
            },
    {
        let open: Vec<char> = text::chars_of(self.call_open.as_str());
        if open.len() == 0 {
            return None;
        }
        let len: usize = s.len();
        let mut end: Option<usize> = None;
        let mut i: usize = 0;
        while i < self.closers.len()
            invariant
                i <= self.closers.len(),
                len == s@.len(),
                self@.closers.len() == self.closers@.len(),
                match end {
                    Some(e) => last_end(s@, self@.closers, i as int) == Some(e as int) && e <= len,
                    None => last_end(s@, self@.closers, i as int) is None,
                },
            decreases self.closers.len() - i,
        {
            let closer: Vec<char> = text::chars_of(self.closers[i].as_str());
            assert(self@.closers[i as int] == closer@);
            match text::rfind(s, closer.as_slice()) {
                Some(at) => {
                    let here: usize = at + closer.len();
                    end = match end {
                        Some(e) => if e >= here {
                            Some(e)
                        } else {
                            Some(here)
                        },
                        None => Some(here),
                    };
                },
                None => {},
            }
            i += 1;
        }
        match end {
            None => None,
            Some(e) => {
                let after: &[char] = text::trim_start(text::tail(s, e));
                if after.len() == 0 || text::starts_with(after, open.as_slice())
                    || text::starts_with(open.as_slice(), after) {
                    None
                } else {
                    Some(e)
                }
            },
        }
    }

    /// The byte offset at which to cut `s` and stop, or `None` to keep generating: no call has
    /// closed yet, or one has and what follows might still become another.
    pub fn reached(&self, s: &str) -> (r: Option<usize>)
        ensures
            match turn_cut(s@, self@.call_open, self@.closers) {
                Some(at) => r is Some && r->0 == text::byte_len(s@.take(at)),
                None => r is None,
            },
    {
        let cs: Vec<char> = text::chars_of(s);
        match self.cut(cs.as_slice()) {
            Some(at) => {
                let kept: String = text::string_of(text::head(cs.as_slice(), at));
                Some(kept.as_str().as_bytes().len())
            },
            None => None,
        }
    }
}

/// `s` ends in a call that was opened and not closed, or in the beginning of an opener.
pub open spec fn mid_call(s: Seq<char>, call_open: Seq<char>, call_close: Seq<char>) -> bool {
    let trimmed = text::trimmed_end(s);
    &&& call_open.len() > 0
    &&& {
        ||| (match text::last_index_of(trimmed, call_open) {
            Some(at) => close_place(trimmed.skip(at + call_open.len()), call_close) is None,
            None => false,
        })
        ||| exists|n: int| 0 < n < call_open.len() && (#[trigger] call_open.take(n)).is_suffix_of(trimmed)
    }
}

/// Whether `s` stops part-way into a tool call, rather than because the model had nothing more
/// to say.
pub fn ends_mid_call(s: &str, format: &ToolFormat) -> (r: bool)
    ensures
        r == mid_call(s@, format@.call_open(), format@.call_close()),
{
    let open: Vec<char> = text::chars_of(format.call_open());
    let close: Vec<char> = text::chars_of(format.call_close());
    if open.len() == 0 {
        return false;
    }
    let cs: Vec<char> = text::chars_of(s);
    let trimmed: &[char] = text::trim_end(cs.as_slice());
    match text::rfind(trimmed, open.as_slice()) {
        Some(at) => {
            if find_close(text::after(trimmed, at, open.len()), close.as_slice()).is_none() {
                return true;
            }
        },
        None => {},
    }
    let mut n: usize = 1;
    while n < open.len()
        invariant
            0 < n <= open.len(),
            open@ == format@.call_open(),
            trimmed@ == text::trimmed_end(s@),
            forall|k: int| 0 < k < n ==> !(#[trigger] open@.take(k)).is_suffix_of(trimmed@),
        decreases open.len() - n,
    {
        if text::ends_with(trimmed, text::head(open.as_slice(), n)) {
            return true;
        }
        n += 1;
    }
    false
}

} // verus!
