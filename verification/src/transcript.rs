//! What was said to the scripted daemon, as text: in full for checking, and clipped for reading.

use vstd::prelude::*;
use crate::client;
use crate::scripted;
use crate::scripted::{Said, SaidView};
use crate::text;
use crate::tool_probe;

verus! {

/// How many lines of a text are shown.
pub const MAX_LINES: usize = 12;

/// A line without the carriage return that its line feed came with.
pub open spec fn without_return(line: Seq<char>) -> Seq<char> {
    if line.len() > 0 && line.last() == '\r' {
        line.drop_last()
    } else {
        line
    }
}

/// The lines of a text. What follows the last line feed is one, unless it is empty.
pub open spec fn lines_of(s: Seq<char>) -> Seq<Seq<char>>
    decreases s.len(),
{
    if s.len() == 0 {
        Seq::empty()
    } else {
        match text::index_of(s, seq!['\n']) {
            Some(i) => if 0 <= i < s.len() {
                seq![without_return(s.take(i))] + lines_of(s.skip(i + 1))
            } else {
                seq![s]
            },
            None => seq![s],
        }
    }
}

/// The first `n` lines, indented.
pub open spec fn indented_lines(lines: Seq<Seq<char>>, n: int) -> Seq<char>
    decreases n,
{
    if n <= 0 {
        Seq::empty()
    } else if n == 1 {
        "   | "@ + lines[0]
    } else {
        indented_lines(lines, n - 1) + "\n"@ + "   | "@ + lines[n - 1]
    }
}

/// A text indented, and clipped where it is long.
pub open spec fn indented(s: Seq<char>) -> Seq<char> {
    let lines = lines_of(s);
    if lines.len() <= MAX_LINES {
        indented_lines(lines, lines.len() as int)
    } else {
        indented_lines(lines, MAX_LINES as int) + "\n   | ... ("@ + text::decimal(
            (lines.len() - MAX_LINES) as nat,
        ) + " more lines)"@
    }
}

/// The texts with `separator` between them.
pub open spec fn listed(parts: Seq<Seq<char>>, separator: Seq<char>, n: int) -> Seq<char>
    decreases n,
{
    if n <= 0 {
        Seq::empty()
    } else if n == 1 {
        parts[0]
    } else {
        listed(parts, separator, n - 1) + separator + parts[n - 1]
    }
}

/// The tools that a conversation was opened with.
pub open spec fn tool_list(tools: Seq<Seq<char>>) -> Seq<char> {
    listed(tools, ", "@, tools.len() as int)
}

/// One entry, complete.
pub open spec fn record_of(said: SaidView) -> Seq<char> {
    match said {
        SaidView::Opened { system, tools, n_ctx } => "===== OPENED n_ctx="@ + text::decimal(
            n_ctx as nat,
        ) + " tools=["@ + tool_list(tools) + "]\n"@ + (match system {
            Some(s) => s,
            None => "(no system block)"@,
        }) + "\n"@,
        SaidView::Message(s) => "===== MESSAGE\n"@ + s + "\n"@,
        SaidView::ToolResults(results) => "===== TOOL RESULTS ("@ + text::decimal(results.len())
            + ")\n"@ + scripted::joined(results, "\n----- next result -----\n"@) + "\n"@,
    }
}

/// One entry, indented and clipped.
pub open spec fn shown(said: SaidView) -> Seq<char> {
    match said {
        SaidView::Opened { system, tools, n_ctx } => "\n── opened ── n_ctx "@ + text::decimal(
            n_ctx as nat,
        ) + ", tools ["@ + tool_list(tools) + "]\n   system block: "@ + (match system {
            None => "(none)"@,
            Some(s) => text::decimal(text::byte_len(s)) + " chars\n"@ + indented(s),
        }),
        SaidView::Message(s) => "\n── message ──\n"@ + indented(s),
        SaidView::ToolResults(results) => "\n── tool results ("@ + text::decimal(results.len())
            + ") ──\n"@ + indented(scripted::joined(results, "\n---\n"@)),
    }
}

proof fn lemma_joined_is_listed(parts: Seq<String>, separator: Seq<char>, n: int)
    requires
        n <= parts.len(),
    ensures
        tool_probe::joined_parts(parts, separator, n) == listed(
            client::texts_view(parts),
            separator,
            n,
        ),
    decreases n,
{
    if n > 1 {
        lemma_joined_is_listed(parts, separator, n - 1);
    }
}

/// The lines of a text.
pub fn lines(s: &str) -> (r: Vec<String>)
    ensures
        client::texts_view(r@) == lines_of(s@),
{
    let all: Vec<char> = text::chars_of(s);
    let feed: [char; 1] = ['\n'];
    let mut r: Vec<String> = Vec::new();
    let mut rest: &[char] = all.as_slice();
    assert(feed@ =~= seq!['\n']);
    assert(client::texts_view(r@) + lines_of(rest@) =~= lines_of(s@));
    while rest.len() > 0
        invariant
            feed@ == seq!['\n'],
            client::texts_view(r@) + lines_of(rest@) == lines_of(s@),
        decreases rest.len(),
    {
        let ghost before = r@;
        match text::find(rest, &feed) {
            Some(i) => {
                proof {
                    text::lemma_index_from(rest@, seq!['\n'], 0);
                }
                let ghost here = rest@;
                let line: &[char] = text::head(rest, i);
                let line: &[char] = if i > 0 && line[i - 1] == '\r' {
                    text::head(line, i - 1)
                } else {
                    line
                };
                assert(line@ =~= without_return(here.take(i as int)));
                r.push(text::string_of(line));
                rest = text::tail(rest, i + 1);
                assert(client::texts_view(r@) =~= client::texts_view(before).push(line@));
                assert(client::texts_view(r@) + lines_of(rest@) =~= client::texts_view(before)
                    + lines_of(here));
            },
            None => {
                r.push(text::string_of(rest));
                assert(client::texts_view(r@) =~= client::texts_view(before).push(rest@));
                assert(client::texts_view(r@) =~= lines_of(s@));
                return r;
            },
        }
    }
    assert(client::texts_view(r@) =~= lines_of(s@));
    r
}

/// A text indented, and clipped where it is long.
pub fn indent(s: &str) -> (r: String)
    ensures
        r@ == indented(s@),
{
    let all: Vec<String> = lines(s);
    let ghost views = client::texts_view(all@);
    let mut r: String = String::new();
    let mut i: usize = 0;
    while i < all.len() && i < MAX_LINES
        invariant
            i <= all.len(),
            i <= MAX_LINES,
            views == client::texts_view(all@),
            r@ == indented_lines(views, i as int),
        decreases all.len() - i,
    {
        let ghost before = r@;
        if i > 0 {
            r.append("\n");
        }
        r.append("   | ");
        r.append(all[i].as_str());
        assert(views[i as int] == all@[i as int]@);
        assert(r@ =~= indented_lines(views, i + 1));
        i += 1;
    }
    if all.len() > MAX_LINES {
        r.append("\n   | ... (");
        r.append(text::number((all.len() - MAX_LINES) as u64).as_str());
        r.append(" more lines)");
    }
    r
}

/// One entry, complete: nothing is clipped or indented.
pub fn full_record(said: &Said) -> (r: String)
    ensures
        r@ == record_of(said@),
{
    let mut r: String = String::new();
    match said {
        Said::Opened { system, tools, n_ctx } => {
            proof {
                lemma_joined_is_listed(tools@, ", "@, tools@.len() as int);
            }
            r.append("===== OPENED n_ctx=");
            r.append(text::number(*n_ctx as u64).as_str());
            r.append(" tools=[");
            r.append(scripted::join(tools.as_slice(), ", ").as_str());
            r.append("]\n");
            match system {
                Some(s) => {
                    r.append(s.as_str());
                },
                None => {
                    r.append("(no system block)");
                },
            }
            r.append("\n");
        },
        Said::Message(s) => {
            r.append("===== MESSAGE\n");
            r.append(s.as_str());
            r.append("\n");
        },
        Said::ToolResults(results) => {
            r.append("===== TOOL RESULTS (");
            r.append(text::number(results.len() as u64).as_str());
            r.append(")\n");
            r.append(scripted::join(results.as_slice(), "\n----- next result -----\n").as_str());
            r.append("\n");
        },
    }
    assert(r@ =~= record_of(said@));
    r
}

/// One entry, indented and clipped.
pub fn render(said: &Said) -> (r: String)
    ensures
        r@ == shown(said@),
{
    let mut r: String = String::new();
    match said {
        Said::Opened { system, tools, n_ctx } => {
            proof {
                lemma_joined_is_listed(tools@, ", "@, tools@.len() as int);
            }
            r.append("\n── opened ── n_ctx ");
            r.append(text::number(*n_ctx as u64).as_str());
            r.append(", tools [");
            r.append(scripted::join(tools.as_slice(), ", ").as_str());
            r.append("]\n   system block: ");
            match system {
                None => {
                    r.append("(none)");
                },
                Some(s) => {
                    r.append(text::number(s.as_str().as_bytes().len() as u64).as_str());
                    r.append(" chars\n");
                    r.append(indent(s.as_str()).as_str());
                },
            }
        },
        Said::Message(s) => {
            r.append("\n── message ──\n");
            r.append(indent(s.as_str()).as_str());
        },
        Said::ToolResults(results) => {
            r.append("\n── tool results (");
            r.append(text::number(results.len() as u64).as_str());
            r.append(") ──\n");
            r.append(indent(scripted::join(results.as_slice(), "\n---\n").as_str()).as_str());
        },
    }
    assert(r@ =~= shown(said@));
    r
}

/// All entries, complete.
pub fn full_transcript(said: &[Said]) -> (r: String)
    ensures
        r@ == records_of(scripted::transcript_view(said@), said@.len() as int),
{
    let mut r: String = String::new();
    let mut i: usize = 0;
    while i < said.len()
        invariant
            i <= said.len(),
            r@ == records_of(scripted::transcript_view(said@), i as int),
        decreases said.len() - i,
    {
        r.append(full_record(&said[i]).as_str());
        i += 1;
    }
    r
}

/// The first `n` entries, complete.
pub open spec fn records_of(said: Seq<SaidView>, n: int) -> Seq<char>
    decreases n,
{
    if n <= 0 {
        Seq::empty()
    } else {
        records_of(said, n - 1) + record_of(said[n - 1])
    }
}

/// A line ends at its line feed, and a carriage return before it goes with it; what no line feed
/// stands behind is a line too, as it is; and in nothing there is no line.
pub proof fn law_where_lines_end(line: Seq<char>, rest: Seq<char>)
    requires
        !line.contains('\n'),
    ensures
        line.len() > 0 ==> lines_of(line) == seq![line],
        line.len() == 0 || line.last() != '\r' ==> lines_of(line + seq!['\n'] + rest) == seq![line]
            + lines_of(rest),
        lines_of(line + seq!['\r', '\n'] + rest) == seq![line] + lines_of(rest),
        lines_of(Seq::empty()).len() == 0,
{
    lemma_line(line, rest);
    lemma_line(line + seq!['\r'], rest);
    assert(line + seq!['\r'] + seq!['\n'] + rest =~= line + seq!['\r', '\n'] + rest);
    assert(without_return(line + seq!['\r']) =~= line);
    if line.len() > 0 {
        text::law_first_and_last(line, seq!['\n'], 0);
        if text::contains(line, seq!['\n']) {
            let j = choose|j: int| text::occurs_at(line, seq!['\n'], j);
            assert(line.subrange(j, j + 1)[0] == '\n');
            assert(line[j] == '\n');
        }
    }
}

proof fn lemma_line(line: Seq<char>, rest: Seq<char>)
    requires
        !line.contains('\n'),
    ensures
        lines_of(line + seq!['\n'] + rest) == seq![without_return(line)] + lines_of(rest),
{
    let feed = seq!['\n'];
    let s = line + feed + rest;
    let i = line.len() as int;
    text::law_standing_somewhere(line, feed, rest, s, i);
    assert forall|j: int| j < i implies !#[trigger] text::occurs_at(s, feed, j) by {
        if text::occurs_at(s, feed, j) {
            assert(s.subrange(j, j + 1)[0] == '\n');
            assert(line[j] == '\n');
        }
    }
    text::law_first_and_last(s, feed, i);
    assert(s.take(i) =~= line);
    assert(s.skip(i + 1) =~= rest);
}

/// What is shown of a text is its lines, each behind a bar: all of them where they are few, else the
/// first of them and how many are left out.
pub proof fn law_what_is_shown_of_a_text(s: Seq<char>, line: Seq<char>)
    ensures
        line.len() > 0 && !line.contains('\n') ==> indented(line) == "   | "@ + line,
        s.len() == 0 ==> indented(s).len() == 0,
        lines_of(s).len() <= MAX_LINES ==> indented(s) == indented_lines(
            lines_of(s),
            lines_of(s).len() as int,
        ),
        lines_of(s).len() > MAX_LINES ==> {
            let shown = indented_lines(lines_of(s), MAX_LINES as int);
            &&& shown.is_prefix_of(indented(s))
            &&& indented(s).skip(shown.len() as int) == "\n   | ... ("@ + text::decimal(
                (lines_of(s).len() - MAX_LINES) as nat,
            ) + " more lines)"@
        },
        MAX_LINES == 12,
{
    if line.len() > 0 && !line.contains('\n') {
        law_where_lines_end(line, Seq::empty());
    }
    if lines_of(s).len() > MAX_LINES {
        let shown = indented_lines(lines_of(s), MAX_LINES as int);
        let count = text::decimal((lines_of(s).len() - MAX_LINES) as nat);
        assert(indented(s) =~= shown + ("\n   | ... ("@ + count + " more lines)"@));
        assert(indented(s).take(shown.len() as int) =~= shown);
        assert(indented(s).skip(shown.len() as int) =~= "\n   | ... ("@ + count + " more lines)"@);
    }
}

/// Lines are shown one below the other, each behind a bar.
pub proof fn law_lines_are_shown_in_order(lines: Seq<Seq<char>>, n: int)
    requires
        1 <= n < lines.len(),
    ensures
        indented_lines(lines, n + 1) == indented_lines(lines, n) + "\n   | "@ + lines[n],
        indented_lines(lines, 1) == "   | "@ + lines[0],
{
    reveal_strlit("\n");
    reveal_strlit("   | ");
    reveal_strlit("\n   | ");
    assert("\n"@ + "   | "@ =~= "\n   | "@);
    assert(indented_lines(lines, n + 1) =~= indented_lines(lines, n) + ("\n"@ + "   | "@) + lines[n]);
}

/// A record holds all that was said, whole: the message, the system text, or each result.
pub proof fn law_records_are_complete(
    s: Seq<char>,
    tools: Seq<Seq<char>>,
    n_ctx: u32,
    results: Seq<String>,
)
    ensures
        text::contains(record_of(SaidView::Message(s)), s),
        text::contains(record_of(SaidView::Opened { system: Some(s), tools, n_ctx }), s),
        text::contains(record_of(SaidView::Opened { system: Some(s), tools, n_ctx }), tool_list(tools)),
        text::contains(
            record_of(SaidView::Opened { system: Some(s), tools, n_ctx }),
            text::decimal(n_ctx as nat),
        ),
        text::contains(
            record_of(SaidView::ToolResults(results)),
            scripted::joined(results, "\n----- next result -----\n"@),
        ),
        text::contains(record_of(SaidView::ToolResults(results)), text::decimal(results.len())),
{
    text::law_standing_somewhere("===== MESSAGE\n"@, s, "\n"@, s, 0);
    let size = text::decimal(n_ctx as nat);
    let list = tool_list(tools);
    let opened = record_of(SaidView::Opened { system: Some(s), tools, n_ctx });
    let a = "===== OPENED n_ctx="@;
    text::law_standing_somewhere(a + size + " tools=["@ + list + "]\n"@, s, "\n"@, s, 0);
    assert(opened =~= (a + size + " tools=["@) + list + ("]\n"@ + s + "\n"@));
    text::law_standing_somewhere(a + size + " tools=["@, list, "]\n"@ + s + "\n"@, s, 0);
    assert(opened =~= a + size + (" tools=["@ + list + "]\n"@ + s + "\n"@));
    text::law_standing_somewhere(a, size, " tools=["@ + list + "]\n"@ + s + "\n"@, s, 0);
    let all = scripted::joined(results, "\n----- next result -----\n"@);
    let count = text::decimal(results.len());
    let b = "===== TOOL RESULTS ("@;
    text::law_standing_somewhere(b + count + ")\n"@, all, "\n"@, s, 0);
    assert(record_of(SaidView::ToolResults(results)) =~= b + count + (")\n"@ + all + "\n"@));
    text::law_standing_somewhere(b, count, ")\n"@ + all + "\n"@, s, 0);
}

/// A transcript is its records, one behind the other.
pub proof fn law_a_transcript_is_its_records(said: Seq<SaidView>, n: int)
    requires
        0 <= n < said.len(),
    ensures
        records_of(said, n + 1) == records_of(said, n) + record_of(said[n]),
        records_of(said, 0).len() == 0,
{
}

/// Names are listed with a comma between each two of them.
pub proof fn law_names_are_listed(names: Seq<Seq<char>>, separator: Seq<char>, n: int)
    requires
        0 <= n < names.len(),
    ensures
        listed(names, separator, 0).len() == 0,
        listed(names, separator, 1) == names[0],
        n > 0 ==> listed(names, separator, n + 1) == listed(names, separator, n) + separator
            + names[n],
        tool_list(names) == listed(names, seq![',', ' '], names.len() as int),
{
    reveal_strlit(", ");
    assert(", "@ =~= seq![',', ' ']);
}

/// What is shown of an entry is what was said, indented, and how much there is of it.
pub proof fn law_what_is_shown_of_an_entry(
    s: Seq<char>,
    tools: Seq<Seq<char>>,
    n_ctx: u32,
    results: Seq<String>,
)
    ensures
        text::contains(shown(SaidView::Message(s)), indented(s)),
        text::contains(shown(SaidView::Opened { system: Some(s), tools, n_ctx }), indented(s)),
        text::contains(
            shown(SaidView::Opened { system: Some(s), tools, n_ctx }),
            text::decimal(text::byte_len(s)),
        ),
        text::contains(
            shown(SaidView::Opened { system: None, tools, n_ctx }),
            tool_list(tools),
        ),
        text::contains(
            shown(SaidView::ToolResults(results)),
            indented(scripted::joined(results, "\n---\n"@)),
        ),
        text::contains(shown(SaidView::ToolResults(results)), text::decimal(results.len())),
{
    let none = Seq::<char>::empty();
    let head = "\n── message ──\n"@;
    assert(shown(SaidView::Message(s)) =~= head + indented(s) + none);
    text::law_standing_somewhere(head, indented(s), none, s, 0);
    let front = "\n── opened ── n_ctx "@ + text::decimal(n_ctx as nat) + ", tools ["@;
    let list = tool_list(tools);
    let size = text::decimal(text::byte_len(s));
    let opened = shown(SaidView::Opened { system: Some(s), tools, n_ctx });
    let before = front + list + "]\n   system block: "@;
    assert(opened =~= before + size + (" chars\n"@ + indented(s)));
    text::law_standing_somewhere(before, size, " chars\n"@ + indented(s), s, 0);
    assert(opened =~= (before + size + " chars\n"@) + indented(s) + none);
    text::law_standing_somewhere(before + size + " chars\n"@, indented(s), none, s, 0);
    let bare = shown(SaidView::Opened { system: None, tools, n_ctx });
    assert(bare =~= front + list + ("]\n   system block: "@ + "(none)"@));
    text::law_standing_somewhere(front, list, "]\n   system block: "@ + "(none)"@, s, 0);
    let all = indented(scripted::joined(results, "\n---\n"@));
    let count = text::decimal(results.len());
    let given = shown(SaidView::ToolResults(results));
    let lead = "\n── tool results ("@;
    assert(given =~= lead + count + (") ──\n"@ + all));
    text::law_standing_somewhere(lead, count, ") ──\n"@ + all, s, 0);
    assert(given =~= (lead + count + ") ──\n"@) + all + none);
    text::law_standing_somewhere(lead + count + ") ──\n"@, all, none, s, 0);
}

} // verus!
