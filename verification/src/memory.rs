//! What the kernel's accounts say of memory.

use vstd::prelude::*;
use crate::client;
use crate::text;
use crate::transcript;

verus! {

/// How big a page of memory is.
pub const PAGE_SIZE: usize = 4096;

/// How many pages a process has in memory, as the kernel's account of it says in its second word.
pub open spec fn resident_pages(statm: Seq<char>) -> Option<int> {
    match text::word(statm, 1) {
        Some(w) => match text::integer_value(w) {
            Some(pages) => if i64::MIN <= pages <= i64::MAX {
                Some(pages)
            } else {
                None
            },
            None => None,
        },
        None => None,
    }
}

/// How much memory a process takes up, as the kernel's account of it says.
pub fn resident_set(statm: &str) -> (r: Option<i64>)
    requires
        resident_pages(statm@) is Some ==> i64::MIN <= resident_pages(statm@)->0 * PAGE_SIZE
            <= i64::MAX,
    ensures
        match r {
            Some(bytes) => resident_pages(statm@) is Some && bytes == resident_pages(statm@)->0
                * PAGE_SIZE,
            None => resident_pages(statm@) is None,
        },
{
    let all: Vec<char> = text::chars_of(statm);
    match text::nth_word(all.as_slice(), 1) {
        Some(w) => match text::parse_i64(w) {
            Some(pages) => Some(pages * 4096),
            None => None,
        },
        None => None,
    }
}

/// What an account of memory says is available, in its lines from the `i`-th on: the first line about
/// that says how many kibibytes it is. Nothing where no line does, where it is no number, or where it
/// cannot be counted in bytes.
pub open spec fn available_in(lines: Seq<Seq<char>>, i: int) -> Option<int>
    decreases lines.len() - i,
{
    if i < 0 || i >= lines.len() {
        None
    } else {
        match text::without_prefix(lines[i], "MemAvailable:"@) {
            Some(rest) => match text::word(rest, 0) {
                Some(w) => match text::integer_value(w) {
                    Some(kibibytes) => if 0 <= kibibytes <= u64::MAX / 1024 {
                        Some(kibibytes * 1024)
                    } else {
                        None
                    },
                    None => None,
                },
                None => None,
            },
            None => available_in(lines, i + 1),
        }
    }
}

/// How many bytes of memory are available, as the kernel's account of memory says.
pub fn available_bytes(meminfo: &str) -> (r: Option<u64>)
    ensures
        match r {
            Some(bytes) => available_in(transcript::lines_of(meminfo@), 0) == Some(bytes as int),
            None => available_in(transcript::lines_of(meminfo@), 0) is None,
        },
{
    let all: Vec<String> = transcript::lines(meminfo);
    let label: Vec<char> = text::chars_of("MemAvailable:");
    let mut i: usize = 0;
    while i < all.len()
        invariant
            i <= all.len(),
            label@ == "MemAvailable:"@,
            client::texts_view(all@) == transcript::lines_of(meminfo@),
            available_in(transcript::lines_of(meminfo@), 0) == available_in(
                transcript::lines_of(meminfo@),
                i as int,
            ),
        decreases all.len() - i,
    {
        let line: Vec<char> = text::chars_of(all[i].as_str());
        assert(client::texts_view(all@)[i as int] == line@);
        match text::strip_prefix(line.as_slice(), label.as_slice()) {
            Some(rest) => {
                return match text::nth_word(rest, 0) {
                    Some(w) => match text::parse_i64(w) {
                        Some(kibibytes) => if 0 <= kibibytes && kibibytes as u64 <= u64::MAX / 1024 {
                            Some(kibibytes as u64 * 1024)
                        } else {
                            None
                        },
                        None => None,
                    },
                    None => None,
                };
            },
            None => {},
        }
        i += 1;
    }
    None
}

/// The second word of a process's account, where it is a number, is how many pages it has in memory,
/// whatever comes before and behind it.
pub proof fn law_the_second_word_counts_pages(
    front: Seq<char>,
    first: Seq<char>,
    gap: Seq<char>,
    n: nat,
    rest: Seq<char>,
)
    requires
        text::blank(front),
        text::blank(gap),
        gap.len() > 0,
        first.len() > 0,
        forall|i: int| 0 <= i < first.len() ==> !text::is_space(#[trigger] first[i]),
        rest.len() == 0 || text::is_space(rest[0]),
        n <= i64::MAX,
    ensures
        resident_pages(front + first + (gap + text::decimal(n) + rest)) == Some(n as int),
{
    let tail = gap + text::decimal(n) + rest;
    assert(text::is_space(tail[0])) by {
        assert(tail[0] == gap[0]);
    }
    text::law_words(front, first, tail, 0);
    lemma_digits_are_no_space(n);
    text::law_words(gap, text::decimal(n), rest, 0);
    text::law_numbers_are_read_back(n as int);
}

proof fn lemma_digits_are_no_space(n: nat)
    ensures
        text::decimal(n).len() > 0,
        forall|i: int|
            0 <= i < text::decimal(n).len() ==> !text::is_space(#[trigger] text::decimal(n)[i]),
    decreases n,
{
    if n >= 10 {
        lemma_digits_are_no_space(n / 10);
        let before = text::decimal(n / 10);
        assert forall|i: int| 0 <= i < text::decimal(n).len() implies !text::is_space(
            #[trigger] text::decimal(n)[i],
        ) by {
            if i < before.len() {
                assert(text::decimal(n)[i] == before[i]);
            }
        }
    }
}

/// The first line that says what is available says it, in kibibytes, whatever other lines there are.
pub proof fn law_the_first_line_says_what_is_available(
    lines: Seq<Seq<char>>,
    i: int,
    gap: Seq<char>,
    n: nat,
    rest: Seq<char>,
)
    requires
        0 <= i < lines.len(),
        forall|j: int| 0 <= j < i ==> !"MemAvailable:"@.is_prefix_of(#[trigger] lines[j]),
        text::blank(gap),
        rest.len() == 0 || text::is_space(rest[0]),
        lines[i] == "MemAvailable:"@ + (gap + text::decimal(n) + rest),
    ensures
        available_in(lines, 0) == if n <= u64::MAX / 1024 {
            Some((n * 1024) as int)
        } else {
            None
        },
{
    lemma_digits_are_no_space(n);
    text::law_words(gap, text::decimal(n), rest, 0);
    text::law_numbers_are_read_back(n as int);
    text::law_a_beginning_is_taken_off(gap + text::decimal(n) + rest, "MemAvailable:"@);
    lemma_available_from(lines, 0, i);
}

proof fn lemma_available_from(lines: Seq<Seq<char>>, from: int, i: int)
    requires
        0 <= from <= i < lines.len(),
        forall|j: int| from <= j < i ==> !"MemAvailable:"@.is_prefix_of(#[trigger] lines[j]),
    ensures
        available_in(lines, from) == available_in(lines, i),
    decreases i - from,
{
    if from < i {
        assert(!"MemAvailable:"@.is_prefix_of(lines[from]));
        lemma_available_from(lines, from + 1, i);
    }
}

/// Where no line says what is available, it is not known.
pub proof fn law_nothing_is_known_without_a_line(lines: Seq<Seq<char>>, i: int)
    requires
        0 <= i,
        forall|j: int| i <= j < lines.len() ==> !"MemAvailable:"@.is_prefix_of(#[trigger] lines[j]),
    ensures
        available_in(lines, i) is None,
    decreases lines.len() - i,
{
    if i < lines.len() {
        assert(!"MemAvailable:"@.is_prefix_of(lines[i]));
        law_nothing_is_known_without_a_line(lines, i + 1);
    }
}

/// What is in memory is told in bytes, by pages of 4096; nothing where it cannot be read.
pub proof fn law_pages_are_counted_in_bytes(statm: &str, r: Option<i64>)
    requires
        call_ensures(resident_set, (statm,), r),
    ensures
        r is Some <==> resident_pages(statm@) is Some,
        r is Some ==> r->0 == 4096 * resident_pages(statm@)->0,
{
}

} // verus!
