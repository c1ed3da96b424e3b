//! Text as sequences of characters: searching, trimming and slicing.
//!
//! Executable functions work on character slices; their contracts are stated over `Seq<char>`,
//! the view of `str` and `String`.

use vstd::prelude::*;
use vstd::slice::slice_subrange;
use vstd::utf8;

verus! {

/// Appends one character to a string: `String::push`.
pub assume_specification[ std::string::String::push ](s: &mut std::string::String, c: char)
    ensures
        final(s)@ == old(s)@.push(c),
;

/// `p` stands in `s` at index `i`.
pub open spec fn occurs_at(s: Seq<char>, p: Seq<char>, i: int) -> bool {
    0 <= i && i + p.len() <= s.len() && s.subrange(i, i + p.len()) == p
}

/// `p` stands somewhere in `s`.
pub open spec fn contains(s: Seq<char>, p: Seq<char>) -> bool {
    exists|i: int| occurs_at(s, p, i)
}

/// The first index at or after `from` at which `p` stands in `s`.
pub open spec fn index_from(s: Seq<char>, p: Seq<char>, from: int) -> Option<int>
    decreases s.len() - from + 1,
{
    if from < 0 || from + p.len() > s.len() {
        None
    } else if occurs_at(s, p, from) {
        Some(from)
    } else {
        index_from(s, p, from + 1)
    }
}

/// The first index at which `p` stands in `s`.
pub open spec fn index_of(s: Seq<char>, p: Seq<char>) -> Option<int> {
    index_from(s, p, 0)
}

/// The last index at or before `upto` at which `p` stands in `s`.
pub open spec fn last_index_upto(s: Seq<char>, p: Seq<char>, upto: int) -> Option<int>
    decreases upto + 1,
{
    if upto < 0 {
        None
    } else if occurs_at(s, p, upto) {
        Some(upto)
    } else {
        last_index_upto(s, p, upto - 1)
    }
}

/// The last index at which `p` stands in `s`.
pub open spec fn last_index_of(s: Seq<char>, p: Seq<char>) -> Option<int> {
    last_index_upto(s, p, s.len() - p.len())
}

/// What follows `p` in `s`, if `s` begins with it.
pub open spec fn without_prefix(s: Seq<char>, p: Seq<char>) -> Option<Seq<char>> {
    if p.is_prefix_of(s) {
        Some(s.skip(p.len() as int))
    } else {
        None
    }
}

/// What precedes `p` in `s`, if `s` ends with it.
pub open spec fn without_suffix(s: Seq<char>, p: Seq<char>) -> Option<Seq<char>> {
    if p.is_suffix_of(s) {
        Some(s.take(s.len() - p.len()))
    } else {
        None
    }
}

/// The characters with Unicode's `White_Space` property.
pub open spec fn is_space(c: char) -> bool {
    let u = c as u32;
    ||| 0x9 <= u <= 0xd
    ||| u == 0x20
    ||| u == 0x85
    ||| u == 0xa0
    ||| u == 0x1680
    ||| 0x2000 <= u <= 0x200a
    ||| u == 0x2028
    ||| u == 0x2029
    ||| u == 0x202f
    ||| u == 0x205f
    ||| u == 0x3000
}

/// `s` without its leading white space.
pub open spec fn trimmed_start(s: Seq<char>) -> Seq<char>
    decreases s.len(),
{
    if s.len() > 0 && is_space(s[0]) {
        trimmed_start(s.skip(1))
    } else {
        s
    }
}

/// `s` without its trailing white space.
pub open spec fn trimmed_end(s: Seq<char>) -> Seq<char>
    decreases s.len(),
{
    if s.len() > 0 && is_space(s.last()) {
        trimmed_end(s.drop_last())
    } else {
        s
    }
}

/// `s` without white space at either end.
pub open spec fn trimmed(s: Seq<char>) -> Seq<char> {
    trimmed_end(trimmed_start(s))
}

/// `a` comes before `b` in the order of their code points.
pub open spec fn precedes(a: Seq<char>, b: Seq<char>) -> bool
    decreases a.len(),
{
    if b.len() == 0 {
        false
    } else if a.len() == 0 {
        true
    } else if a[0] == b[0] {
        precedes(a.skip(1), b.skip(1))
    } else {
        (a[0] as u32) < (b[0] as u32)
    }
}

/// How many bytes `s` takes up as UTF-8.
pub open spec fn byte_len(s: Seq<char>) -> nat {
    utf8::encode_utf8(s).len()
}

/// What `index_from` finds is an occurrence, with none between `from` and it; where it finds
/// nothing there is none at or after `from`.
pub proof fn lemma_index_from(s: Seq<char>, p: Seq<char>, from: int)
    requires
        0 <= from,
    ensures
        match index_from(s, p, from) {
            Some(i) => from <= i && occurs_at(s, p, i) && forall|j: int|
                from <= j < i ==> !#[trigger] occurs_at(s, p, j),
            None => forall|j: int| from <= j ==> !#[trigger] occurs_at(s, p, j),
        },
    decreases s.len() - from + 1,
{
    if from + p.len() > s.len() {
    } else if occurs_at(s, p, from) {
    } else {
        lemma_index_from(s, p, from + 1);
    }
}

/// An occurrence with none before it, at or after `from`, is what `index_from` finds.
pub proof fn lemma_index_from_is(s: Seq<char>, p: Seq<char>, from: int, i: int)
    requires
        0 <= from <= i,
        occurs_at(s, p, i),
        forall|j: int| from <= j < i ==> !#[trigger] occurs_at(s, p, j),
    ensures
        index_from(s, p, from) == Some(i),
{
    lemma_index_from(s, p, from);
}

/// What `last_index_upto` finds is an occurrence, with none between it and `upto`; where it
/// finds nothing there is none at or before `upto`.
pub proof fn lemma_last_index_upto(s: Seq<char>, p: Seq<char>, upto: int)
    ensures
        match last_index_upto(s, p, upto) {
            Some(i) => i <= upto && occurs_at(s, p, i) && forall|j: int|
                i < j <= upto ==> !#[trigger] occurs_at(s, p, j),
            None => forall|j: int| j <= upto ==> !#[trigger] occurs_at(s, p, j),
        },
    decreases upto + 1,
{
    if upto < 0 {
    } else if occurs_at(s, p, upto) {
    } else {
        lemma_last_index_upto(s, p, upto - 1);
    }
}

/// What `last_index_of` finds is the last occurrence; where it finds nothing there is none.
pub proof fn lemma_last_index_of(s: Seq<char>, p: Seq<char>)
    ensures
        match last_index_of(s, p) {
            Some(i) => occurs_at(s, p, i) && forall|j: int|
                i < j ==> !#[trigger] occurs_at(s, p, j),
            None => !contains(s, p),
        },
{
    lemma_last_index_upto(s, p, s.len() - p.len());
}

/// Nothing comes before itself.
pub proof fn lemma_precedes_irreflexive(a: Seq<char>)
    ensures
        !precedes(a, a),
    decreases a.len(),
{
    if a.len() > 0 {
        lemma_precedes_irreflexive(a.skip(1));
    }
}

/// Of two different texts one comes before the other.
pub proof fn lemma_precedes_total(a: Seq<char>, b: Seq<char>)
    ensures
        a == b || precedes(a, b) || precedes(b, a),
    decreases a.len(),
{
    if a.len() > 0 && b.len() > 0 {
        utf8::char_u32_cast(a[0], a[0] as u32);
        utf8::char_u32_cast(b[0], b[0] as u32);
        if a[0] == b[0] {
            lemma_precedes_total(a.skip(1), b.skip(1));
            if a.skip(1) == b.skip(1) {
                assert(a =~= seq![a[0]] + a.skip(1));
                assert(b =~= seq![b[0]] + b.skip(1));
            }
        }
    } else if a.len() == 0 && b.len() == 0 {
        assert(a =~= b);
    }
}

/// What comes before a text comes before all that follow it.
pub proof fn lemma_precedes_transitive(a: Seq<char>, b: Seq<char>, c: Seq<char>)
    requires
        precedes(a, b),
        precedes(b, c),
    ensures
        precedes(a, c),
    decreases a.len(),
{
    if a.len() > 0 && a[0] == b[0] && b[0] == c[0] {
        lemma_precedes_transitive(a.skip(1), b.skip(1), c.skip(1));
    }
}

/// The characters of `s` as a vector.
pub fn chars_of(s: &str) -> (out: Vec<char>)
    ensures
        out@ == s@,
{
    let mut out: Vec<char> = Vec::new();
    for c in it: s.chars()
        invariant
            out@ == it.seq().take(it.index() as int),
            it.seq() == s@,
    {
        out.push(c);
    }
    out
}

/// The string made of the characters in `cs`.
pub fn string_of(cs: &[char]) -> (out: String)
    ensures
        out@ == cs@,
{
    let mut out: String = String::new();
    let mut i: usize = 0;
    while i < cs.len()
        invariant
            i <= cs.len(),
            out@ == cs@.take(i as int),
        decreases cs.len() - i,
    {
        out.push(cs[i]);
        i += 1;
    }
    out
}

/// The first `n` characters.
pub fn head(s: &[char], n: usize) -> (r: &[char])
    requires
        n <= s@.len(),
    ensures
        r@ == s@.take(n as int),
{
    slice_subrange(s, 0, n)
}

/// All but the first `n` characters.
pub fn tail(s: &[char], n: usize) -> (r: &[char])
    requires
        n <= s@.len(),
    ensures
        r@ == s@.skip(n as int),
{
    slice_subrange(s, n, s.len())
}

/// What follows the `n` characters at index `at`.
pub fn after(s: &[char], at: usize, n: usize) -> (r: &[char])
    requires
        at + n <= s@.len(),
    ensures
        r@ == s@.skip(at + n),
{
    let len: usize = s.len();
    slice_subrange(s, at + n, len)
}

/// Whether `p` stands in `s` at index `i`.
pub fn stands_at(s: &[char], p: &[char], i: usize) -> (r: bool)
    ensures
        r == occurs_at(s@, p@, i as int),
{
    if p.len() > s.len() || i > s.len() - p.len() {
        return false;
    }
    let mut k: usize = 0;
    while k < p.len()
        invariant
            k <= p.len(),
            i + p.len() <= s.len(),
            forall|j: int| 0 <= j < k ==> s@[i + j] == p@[j],
        decreases p.len() - k,
    {
        if s[i + k] != p[k] {
            assert(s@.subrange(i as int, i + p.len())[k as int] != p@[k as int]);
            return false;
        }
        k += 1;
    }
    assert(s@.subrange(i as int, i + p.len()) =~= p@);
    true
}

/// The first index at or after `from` at which `p` stands in `s`.
pub fn find_from(s: &[char], p: &[char], from: usize) -> (r: Option<usize>)
    ensures
        match r {
            Some(i) => index_from(s@, p@, from as int) == Some(i as int) && from <= i && i + p@.len()
                <= s@.len(),
            None => index_from(s@, p@, from as int) is None,
        },
{
    if p.len() > s.len() {
        return None;
    }
    let last: usize = s.len() - p.len();
    let mut i: usize = from;
    while i <= last
        invariant
            from <= i,
            last + p.len() == s.len(),
            index_from(s@, p@, from as int) == index_from(s@, p@, i as int),
        decreases last + 1 - i,
    {
        if stands_at(s, p, i) {
            return Some(i);
        }
        if i == last {
            assert(index_from(s@, p@, i + 1) is None);
            return None;
        }
        i += 1;
    }
    None
}

/// The first index at which `p` stands in `s`.
pub fn find(s: &[char], p: &[char]) -> (r: Option<usize>)
    ensures
        match r {
            Some(i) => index_of(s@, p@) == Some(i as int) && i + p@.len() <= s@.len(),
            None => index_of(s@, p@) is None,
        },
{
    find_from(s, p, 0)
}

/// The last index at which `p` stands in `s`.
pub fn rfind(s: &[char], p: &[char]) -> (r: Option<usize>)
    ensures
        match r {
            Some(i) => last_index_of(s@, p@) == Some(i as int) && i + p@.len() <= s@.len(),
            None => last_index_of(s@, p@) is None,
        },
{
    if p.len() > s.len() {
        return None;
    }
    let mut i: usize = s.len() - p.len();
    loop
        invariant
            i + p.len() <= s.len(),
            last_index_of(s@, p@) == last_index_upto(s@, p@, i as int),
        decreases i,
    {
        if stands_at(s, p, i) {
            return Some(i);
        }
        if i == 0 {
            assert(last_index_upto(s@, p@, i - 1) is None);
            return None;
        }
        i -= 1;
    }
}

/// Whether `p` stands somewhere in `s`.
pub fn has(s: &[char], p: &[char]) -> (r: bool)
    ensures
        r == contains(s@, p@),
{
    proof {
        lemma_index_from(s@, p@, 0);
    }
    find(s, p).is_some()
}

/// Whether `s` begins with `p`.
pub fn starts_with(s: &[char], p: &[char]) -> (r: bool)
    ensures
        r == p@.is_prefix_of(s@),
{
    stands_at(s, p, 0)
}

/// Whether `s` ends with `p`.
pub fn ends_with(s: &[char], p: &[char]) -> (r: bool)
    ensures
        r == p@.is_suffix_of(s@),
{
    p.len() <= s.len() && stands_at(s, p, s.len() - p.len())
}

/// Whether `a` and `b` are the same text.
pub fn same(a: &[char], b: &[char]) -> (r: bool)
    ensures
        r == (a@ == b@),
{
    let r: bool = a.len() == b.len() && stands_at(a, b, 0);
    assert(a@.subrange(0, a@.len() as int) =~= a@);
    r
}

/// Whether two strings are the same text.
pub fn same_text(a: &str, b: &str) -> (r: bool)
    ensures
        r == (a@ == b@),
{
    same(chars_of(a).as_slice(), chars_of(b).as_slice())
}

/// What follows `p` in `s`, if `s` begins with it.
pub fn strip_prefix<'a>(s: &'a [char], p: &[char]) -> (r: Option<&'a [char]>)
    ensures
        match r {
            Some(t) => without_prefix(s@, p@) == Some(t@),
            None => without_prefix(s@, p@) is None,
        },
{
    if starts_with(s, p) {
        Some(tail(s, p.len()))
    } else {
        None
    }
}

/// What precedes `p` in `s`, if `s` ends with it.
pub fn strip_suffix<'a>(s: &'a [char], p: &[char]) -> (r: Option<&'a [char]>)
    ensures
        match r {
            Some(t) => without_suffix(s@, p@) == Some(t@),
            None => without_suffix(s@, p@) is None,
        },
{
    if ends_with(s, p) {
        Some(head(s, s.len() - p.len()))
    } else {
        None
    }
}

/// Whether `c` is white space.
pub fn is_whitespace(c: char) -> (r: bool)
    ensures
        r == is_space(c),
{
    let u: u32 = c as u32;
    (0x9 <= u && u <= 0xd) || u == 0x20 || u == 0x85 || u == 0xa0 || u == 0x1680 || (0x2000 <= u
        && u <= 0x200a) || u == 0x2028 || u == 0x2029 || u == 0x202f || u == 0x205f || u == 0x3000
}

/// `s` without its leading white space.
pub fn trim_start(s: &[char]) -> (r: &[char])
    ensures
        r@ == trimmed_start(s@),
{
    let mut i: usize = 0;
    assert(s@.skip(0) =~= s@);
    while i < s.len() && is_whitespace(s[i])
        invariant
            i <= s.len(),
            trimmed_start(s@) == trimmed_start(s@.skip(i as int)),
        decreases s.len() - i,
    {
        assert(s@.skip(i as int).skip(1) =~= s@.skip(i + 1));
        i += 1;
    }
    tail(s, i)
}

/// `s` without its trailing white space.
pub fn trim_end(s: &[char]) -> (r: &[char])
    ensures
        r@ == trimmed_end(s@),
{
    let mut n: usize = s.len();
    assert(s@.take(n as int) =~= s@);
    while n > 0 && is_whitespace(s[n - 1])
        invariant
            n <= s.len(),
            trimmed_end(s@) == trimmed_end(s@.take(n as int)),
        decreases n,
    {
        assert(s@.take(n as int).drop_last() =~= s@.take(n - 1));
        n -= 1;
    }
    head(s, n)
}

/// `s` without white space at either end.
pub fn trim(s: &[char]) -> (r: &[char])
    ensures
        r@ == trimmed(s@),
{
    trim_end(trim_start(s))
}

/// Whether `a` comes before `b` in the order of their code points.
pub fn is_before(a: &[char], b: &[char]) -> (r: bool)
    ensures
        r == precedes(a@, b@),
{
    let mut i: usize = 0;
    assert(a@.skip(0) =~= a@ && b@.skip(0) =~= b@);
    while i < a.len() && i < b.len() && a[i] == b[i]
        invariant
            i <= a.len(),
            i <= b.len(),
            precedes(a@, b@) == precedes(a@.skip(i as int), b@.skip(i as int)),
        decreases a.len() - i,
    {
        assert(a@.skip(i as int).skip(1) =~= a@.skip(i + 1));
        assert(b@.skip(i as int).skip(1) =~= b@.skip(i + 1));
        i += 1;
    }
    if i >= b.len() {
        false
    } else if i >= a.len() {
        true
    } else {
        (a[i] as u32) < (b[i] as u32)
    }
}

/// Appends all of `more`.
pub fn extend(s: &mut Vec<char>, more: &[char])
    ensures
        final(s)@ == old(s)@ + more@,
{
    let mut i: usize = 0;
    assert(s@ =~= old(s)@ + more@.take(0));
    while i < more.len()
        invariant
            i <= more.len(),
            s@ == old(s)@ + more@.take(i as int),
        decreases more.len() - i,
    {
        s.push(more[i]);
        i += 1;
        assert(s@ =~= old(s)@ + more@.take(i as int));
    }
    assert(more@.take(more@.len() as int) =~= more@);
}

/// `a` followed by `b`.
pub fn joined(a: &[char], b: &[char]) -> (r: Vec<char>)
    ensures
        r@ == a@ + b@,
{
    let mut r: Vec<char> = Vec::new();
    extend(&mut r, a);
    extend(&mut r, b);
    r
}

/// How long a beginning `a` and `b` share.
pub open spec fn common_prefix(a: Seq<u8>, b: Seq<u8>) -> nat
    decreases a.len(),
{
    if a.len() > 0 && b.len() > 0 && a[0] == b[0] {
        1 + common_prefix(a.skip(1), b.skip(1))
    } else {
        0
    }
}

/// How long an ending `a` and `b` share.
pub open spec fn common_suffix(a: Seq<u8>, b: Seq<u8>) -> nat
    decreases a.len(),
{
    if a.len() > 0 && b.len() > 0 && a.last() == b.last() {
        1 + common_suffix(a.drop_last(), b.drop_last())
    } else {
        0
    }
}

/// The text between two byte offsets of `s`, unless one of them falls inside a character.
pub open spec fn byte_range(s: Seq<char>, from: int, to: int) -> Option<Seq<char>> {
    let bytes = utf8::encode_utf8(s);
    if 0 <= from <= to <= bytes.len() && utf8::is_char_boundary(bytes, from)
        && utf8::is_char_boundary(bytes, to) {
        Some(utf8::decode_utf8(bytes.subrange(from, to)))
    } else {
        None
    }
}

/// The longest beginning that `a` shares with `b` byte for byte; nothing where it would end
/// inside a character.
pub open spec fn shared_beginning(a: Seq<char>, b: Seq<char>) -> Seq<char> {
    match byte_range(a, 0, common_prefix(utf8::encode_utf8(a), utf8::encode_utf8(b)) as int) {
        Some(shared) => shared,
        None => Seq::empty(),
    }
}

/// How long a beginning `a` and `b` share.
pub fn common_prefix_len(a: &[u8], b: &[u8]) -> (r: usize)
    ensures
        r == common_prefix(a@, b@),
        r <= a@.len(),
        r <= b@.len(),
{
    let mut i: usize = 0;
    assert(a@.skip(0) =~= a@ && b@.skip(0) =~= b@);
    while i < a.len() && i < b.len() && a[i] == b[i]
        invariant
            i <= a.len(),
            i <= b.len(),
            common_prefix(a@, b@) == i + common_prefix(a@.skip(i as int), b@.skip(i as int)),
        decreases a.len() - i,
    {
        assert(a@.skip(i as int).skip(1) =~= a@.skip(i + 1));
        assert(b@.skip(i as int).skip(1) =~= b@.skip(i + 1));
        i += 1;
    }
    i
}

/// How long an ending `a` and `b` share.
pub fn common_suffix_len(a: &[u8], b: &[u8]) -> (r: usize)
    ensures
        r == common_suffix(a@, b@),
        r <= a@.len(),
        r <= b@.len(),
{
    let n: usize = a.len();
    let m: usize = b.len();
    let mut i: usize = 0;
    assert(a@.take(n as int) =~= a@ && b@.take(m as int) =~= b@);
    while i < n && i < m && a[n - i - 1] == b[m - i - 1]
        invariant
            n == a@.len(),
            m == b@.len(),
            i <= n,
            i <= m,
            common_suffix(a@, b@) == i + common_suffix(a@.take(n - i), b@.take(m - i)),
        decreases n - i,
    {
        assert(a@.take(n - i).drop_last() =~= a@.take(n - i - 1));
        assert(b@.take(m - i).drop_last() =~= b@.take(m - i - 1));
        i += 1;
    }
    i
}

/// The text between two byte offsets of `s`, unless one of them falls inside a character.
pub fn get<'a>(s: &'a str, from: usize, to: usize) -> (r: Option<&'a str>)
    ensures
        match r {
            Some(t) => byte_range(s@, from as int, to as int) == Some(t@),
            None => byte_range(s@, from as int, to as int) is None,
        },
{
    let ghost bytes = utf8::encode_utf8(s@);
    if from > to || to > s.as_bytes().len() || !s.is_char_boundary(from) || !s.is_char_boundary(
        to,
    ) {
        return None;
    }
    let (_, rest) = s.split_at(from);
    proof {
        utf8::encode_utf8_valid_utf8(s@);
        utf8::encode_utf8_valid_utf8(rest@);
        let tail = utf8::encode_utf8(rest@);
        assert(tail =~= bytes.subrange(from as int, bytes.len() as int));
        if to == bytes.len() {
            utf8::is_char_boundary_start_end_of_seq(tail);
        } else {
            assert(tail[to - from] == bytes[to as int]);
            utf8::is_char_boundary_iff_not_is_continuation_byte(bytes, to as int);
            utf8::is_char_boundary_iff_not_is_continuation_byte(tail, to - from);
        }
    }
    let (found, _) = rest.split_at(to - from);
    proof {
        assert(utf8::encode_utf8(found@) =~= bytes.subrange(from as int, to as int));
        utf8::encode_utf8_decode_utf8(found@);
    }
    Some(found)
}

/// The longest beginning that `a` shares with `b` byte for byte; nothing where it would end
/// inside a character.
pub fn shared_prefix<'a>(a: &'a str, b: &str) -> (r: &'a str)
    ensures
        r@ == shared_beginning(a@, b@),
{
    let shared: usize = common_prefix_len(a.as_bytes(), b.as_bytes());
    match get(a, 0, shared) {
        Some(r) => r,
        None => {
            proof {
                reveal_strlit("");
            }
            let r: &'static str = "";
            assert(r@ =~= Seq::empty());
            r
        },
    }
}

/// The decimal digit `d`.
pub open spec fn digit(d: nat) -> char {
    if d == 0 {
        '0'
    } else if d == 1 {
        '1'
    } else if d == 2 {
        '2'
    } else if d == 3 {
        '3'
    } else if d == 4 {
        '4'
    } else if d == 5 {
        '5'
    } else if d == 6 {
        '6'
    } else if d == 7 {
        '7'
    } else if d == 8 {
        '8'
    } else {
        '9'
    }
}

/// `n` in decimal.
pub open spec fn decimal(n: nat) -> Seq<char>
    decreases n,
{
    if n < 10 {
        seq![digit(n)]
    } else {
        decimal(n / 10).push(digit(n % 10))
    }
}

/// `n` in decimal, with a sign where it is negative.
pub open spec fn signed_decimal(n: int) -> Seq<char> {
    if n < 0 {
        seq!['-'] + decimal((-n) as nat)
    } else {
        decimal(n as nat)
    }
}

/// The decimal digit `d`.
fn digit_char(d: u64) -> (r: char)
    ensures
        r == digit(d as nat),
{
    if d == 0 {
        '0'
    } else if d == 1 {
        '1'
    } else if d == 2 {
        '2'
    } else if d == 3 {
        '3'
    } else if d == 4 {
        '4'
    } else if d == 5 {
        '5'
    } else if d == 6 {
        '6'
    } else if d == 7 {
        '7'
    } else if d == 8 {
        '8'
    } else {
        '9'
    }
}

/// `n` in decimal.
pub fn number(n: u64) -> (r: String)
    ensures
        r@ == decimal(n as nat),
    decreases n,
{
    let mut r: String = if n < 10 {
        String::new()
    } else {
        number(n / 10)
    };
    r.push(digit_char(n % 10));
    r
}

/// `n` in decimal, with a sign where it is negative.
pub fn signed_number(n: i32) -> (r: String)
    ensures
        r@ == signed_decimal(n as int),
{
    let wide: i64 = n as i64;
    if wide < 0 {
        let mut r: String = String::new();
        r.push('-');
        r.append(number((-wide) as u64).as_str());
        assert(r@ =~= signed_decimal(n as int));
        r
    } else {
        number(wide as u64)
    }
}

/// The value of a decimal digit.
pub open spec fn digit_value(c: char) -> Option<int> {
    if c == '0' {
        Some(0)
    } else if c == '1' {
        Some(1)
    } else if c == '2' {
        Some(2)
    } else if c == '3' {
        Some(3)
    } else if c == '4' {
        Some(4)
    } else if c == '5' {
        Some(5)
    } else if c == '6' {
        Some(6)
    } else if c == '7' {
        Some(7)
    } else if c == '8' {
        Some(8)
    } else if c == '9' {
        Some(9)
    } else {
        None
    }
}

/// The number that digits, at least one, stand for.
pub open spec fn digits_value(s: Seq<char>) -> Option<int>
    decreases s.len(),
{
    if s.len() == 0 {
        None
    } else {
        match digit_value(s.last()) {
            None => None,
            Some(d) => if s.len() == 1 {
                Some(d)
            } else {
                match digits_value(s.drop_last()) {
                    None => None,
                    Some(v) => Some(v * 10 + d),
                }
            },
        }
    }
}

/// The number that a text is, written in decimal, if it is one.
pub open spec fn integer_value(s: Seq<char>) -> Option<int> {
    if s.len() > 0 && s[0] == '-' {
        match digits_value(s.skip(1)) {
            Some(v) => Some(-v),
            None => None,
        }
    } else if s.len() > 0 && s[0] == '+' {
        digits_value(s.skip(1))
    } else {
        digits_value(s)
    }
}

/// The value of a decimal digit.
fn value_of_digit(c: char) -> (r: Option<i128>)
    ensures
        match r {
            Some(v) => digit_value(c) == Some(v as int) && 0 <= v <= 9,
            None => digit_value(c) is None,
        },
{
    if c == '0' {
        Some(0)
    } else if c == '1' {
        Some(1)
    } else if c == '2' {
        Some(2)
    } else if c == '3' {
        Some(3)
    } else if c == '4' {
        Some(4)
    } else if c == '5' {
        Some(5)
    } else if c == '6' {
        Some(6)
    } else if c == '7' {
        Some(7)
    } else if c == '8' {
        Some(8)
    } else if c == '9' {
        Some(9)
    } else {
        None
    }
}

/// A number that is not made smaller by further digits.
proof fn lemma_digits_value(s: Seq<char>, n: int)
    requires
        1 <= n <= s.len(),
        digits_value(s) is Some,
    ensures
        digits_value(s.take(n)) is Some,
        0 <= digits_value(s.take(n))->0 <= digits_value(s)->0,
    decreases s.len(),
{
    if n == s.len() {
        assert(s.take(n) =~= s);
        if s.len() > 1 {
            lemma_digits_value(s.drop_last(), n - 1);
        }
    } else {
        lemma_digits_value(s.drop_last(), n);
        assert(s.drop_last().take(n) =~= s.take(n));
    }
}

/// The number that digits stand for, if that is at most two to the sixty-third.
fn parse_digits(s: &[char]) -> (r: Option<i128>)
    ensures
        match r {
            Some(v) => digits_value(s@) == Some(v as int) && 0 <= v <= 0x8000_0000_0000_0000,
            None => digits_value(s@) is None || digits_value(s@)->0 > 0x8000_0000_0000_0000,
        },
{
    if s.len() == 0 {
        return None;
    }
    let mut v: i128 = 0;
    let mut i: usize = 0;
    while i < s.len()
        invariant
            i <= s.len(),
            0 <= v <= 0x8000_0000_0000_0000,
            i == 0 ==> v == 0,
            i > 0 ==> digits_value(s@.take(i as int)) == Some(v as int),
        decreases s.len() - i,
    {
        assert(s@.take(i + 1).last() == s@[i as int]);
        assert(s@.take(i + 1).drop_last() =~= s@.take(i as int));
        match value_of_digit(s[i]) {
            Some(d) => {
                v = v * 10 + d;
            },
            None => {
                proof {
                    if digits_value(s@) is Some {
                        lemma_digits_value(s@, i + 1);
                    }
                }
                return None;
            },
        }
        i += 1;
        if v > 0x8000_0000_0000_0000 {
            proof {
                if digits_value(s@) is Some {
                    lemma_digits_value(s@, i as int);
                }
            }
            return None;
        }
    }
    assert(s@.take(i as int) =~= s@);
    Some(v)
}

/// The number that a text is, if it is one and fits.
pub fn parse_i64(s: &[char]) -> (r: Option<i64>)
    ensures
        match r {
            Some(v) => integer_value(s@) == Some(v as int),
            None => match integer_value(s@) {
                Some(v) => v < i64::MIN || v > i64::MAX,
                None => true,
            },
        },
{
    if s.len() > 0 && s[0] == '-' {
        match parse_digits(tail(s, 1)) {
            Some(v) => Some((-v) as i64),
            None => None,
        }
    } else {
        let digits: &[char] = if s.len() > 0 && s[0] == '+' {
            tail(s, 1)
        } else {
            s
        };
        match parse_digits(digits) {
            Some(v) => if v <= 0x7fff_ffff_ffff_ffff {
                Some(v as i64)
            } else {
                None
            },
            None => None,
        }
    }
}

/// How many characters before the first whitespace there are.
pub open spec fn word_len(s: Seq<char>) -> int
    decreases s.len(),
{
    if s.len() == 0 || is_space(s[0]) {
        0
    } else {
        1 + word_len(s.skip(1))
    }
}

/// The word with `n` others before it.
pub open spec fn word(s: Seq<char>, n: nat) -> Option<Seq<char>>
    decreases n,
{
    let t = trimmed_start(s);
    if t.len() == 0 {
        None
    } else if n == 0 {
        Some(t.take(word_len(t)))
    } else {
        word(t.skip(word_len(t)), (n - 1) as nat)
    }
}

/// How many characters before the first whitespace there are.
fn word_length(s: &[char]) -> (r: usize)
    ensures
        r == word_len(s@),
        r <= s@.len(),
{
    let mut i: usize = 0;
    assert(s@.skip(0) =~= s@);
    while i < s.len() && !is_whitespace(s[i])
        invariant
            i <= s.len(),
            word_len(s@) == i + word_len(s@.skip(i as int)),
        decreases s.len() - i,
    {
        assert(s@.skip(i as int).skip(1) =~= s@.skip(i + 1));
        i += 1;
    }
    i
}

/// The word with `n` others before it.
pub fn nth_word(s: &[char], n: usize) -> (r: Option<&[char]>)
    ensures
        match r {
            Some(w) => word(s@, n as nat) == Some(w@),
            None => word(s@, n as nat) is None,
        },
    decreases n,
{
    let t: &[char] = trim_start(s);
    if t.len() == 0 {
        return None;
    }
    let len: usize = word_length(t);
    if n == 0 {
        Some(head(t, len))
    } else {
        nth_word(tail(t, len), n - 1)
    }
}

/// A text stands in another at an index if it is what comes behind that many characters.
pub proof fn law_standing_somewhere(before: Seq<char>, p: Seq<char>, rest: Seq<char>, s: Seq<char>, i: int)
    ensures
        occurs_at(before + p + rest, p, before.len() as int),
        contains(before + p + rest, p),
        occurs_at(s, p, i) ==> 0 <= i && s == s.take(i) + p + s.skip(i + p.len()),
{
    let all = before + p + rest;
    assert(all.subrange(before.len() as int, (before.len() + p.len()) as int) =~= p);
    assert(occurs_at(all, p, before.len() as int));
    if occurs_at(s, p, i) {
        assert forall|k: int| 0 <= k < s.len() implies s[k] == (s.take(i) + p + s.skip(
            i + p.len(),
        ))[k] by {
            if i <= k < i + p.len() {
                assert(s.subrange(i, i + p.len())[k - i] == p[k - i]);
            }
        }
        assert(s =~= s.take(i) + p + s.skip(i + p.len()));
    }
}

/// The first index of a text is that of an occurrence before which there is none, and the last index
/// that of one behind which there is none.
pub proof fn law_first_and_last(s: Seq<char>, p: Seq<char>, i: int)
    ensures
        index_of(s, p) == Some(i) <==> occurs_at(s, p, i) && forall|j: int|
            j < i ==> !#[trigger] occurs_at(s, p, j),
        last_index_of(s, p) == Some(i) <==> occurs_at(s, p, i) && forall|j: int|
            i < j ==> !#[trigger] occurs_at(s, p, j),
        index_of(s, p) is None <==> !contains(s, p),
        last_index_of(s, p) is None <==> !contains(s, p),
{
    lemma_index_from(s, p, 0);
    lemma_last_index_of(s, p);
    if occurs_at(s, p, i) {
        assert(contains(s, p));
    }
    if let Some(j) = index_of(s, p) {
        assert(contains(s, p));
        assert(occurs_at(s, p, j));
    }
    if let Some(j) = last_index_of(s, p) {
        assert(contains(s, p));
        assert(occurs_at(s, p, j));
    }
}

/// A beginning is taken off where it is there, and nowhere else.
pub proof fn law_a_beginning_is_taken_off(s: Seq<char>, p: Seq<char>)
    ensures
        without_prefix(p + s, p) == Some(s),
        without_prefix(s, p) matches Some(t) ==> s == p + t,
{
    let all = p + s;
    assert(all.take(p.len() as int) =~= p);
    assert(all.skip(p.len() as int) =~= s);
    if p.is_prefix_of(s) {
        assert(s =~= p + s.skip(p.len() as int));
    }
}

/// An ending is taken off where it is there, and nowhere else.
pub proof fn law_an_ending_is_taken_off(s: Seq<char>, p: Seq<char>)
    ensures
        without_suffix(s + p, p) == Some(s),
        without_suffix(s, p) matches Some(t) ==> s == t + p,
{
    let all = s + p;
    assert(all.take(s.len() as int) =~= s);
    assert(all.skip(s.len() as int) =~= p);
    if p.is_suffix_of(s) {
        assert(s =~= s.take(s.len() - p.len()) + p);
    }
}

/// White space is what Unicode calls so: tab, line feed, vertical tab, form feed, carriage return,
/// space, next line, and the spaces and separators beyond Latin-1.
pub proof fn law_white_space(c: char)
    ensures
        is_space(c) <==> c == '\t' || c == '\n' || c == '\u{b}' || c == '\u{c}' || c == '\r' || c == ' '
            || c == '\u{85}' || c == '\u{a0}' || c == '\u{1680}' || c == '\u{2000}' || c == '\u{2001}'
            || c == '\u{2002}' || c == '\u{2003}' || c == '\u{2004}' || c == '\u{2005}' || c
            == '\u{2006}' || c == '\u{2007}' || c == '\u{2008}' || c == '\u{2009}' || c == '\u{200a}'
            || c == '\u{2028}' || c == '\u{2029}' || c == '\u{202f}' || c == '\u{205f}' || c
            == '\u{3000}',
{
    utf8::char_u32_cast(c, c as u32);
}

/// `s` is made of white space.
pub open spec fn blank(s: Seq<char>) -> bool {
    forall|i: int| 0 <= i < s.len() ==> is_space(#[trigger] s[i])
}

/// Trimming takes off the white space at an end, all of it and nothing else.
pub proof fn law_trimming_takes_off_white_space(front: Seq<char>, body: Seq<char>, back: Seq<char>)
    requires
        blank(front),
        blank(back),
    ensures
        body.len() == 0 || !is_space(body[0]) ==> trimmed_start(front + body) == body,
        body.len() == 0 || !is_space(body.last()) ==> trimmed_end(body + back) == body,
        body.len() == 0 || !is_space(body[0]) && !is_space(body.last()) ==> trimmed(
            front + body + back,
        ) == body,
{
    if body.len() == 0 {
        assert(front + body =~= front);
        assert(body + back =~= back);
        lemma_blank_front(front, body);
        lemma_blank_back(body, back);
        let all = front + body + back;
        assert(blank(all));
        assert(all + Seq::<char>::empty() =~= all);
        lemma_blank_front(all, Seq::empty());
        assert(trimmed_start(all) =~= Seq::empty());
    } else {
        if !is_space(body[0]) {
            lemma_blank_front(front, body);
            lemma_blank_front(front, body + back);
            assert(front + body + back =~= front + (body + back));
        }
        if !is_space(body.last()) {
            lemma_blank_back(body, back);
        }
    }
}

proof fn lemma_blank_front(front: Seq<char>, body: Seq<char>)
    requires
        blank(front),
        body.len() == 0 || !is_space(body[0]),
    ensures
        trimmed_start(front + body) == body,
    decreases front.len(),
{
    if front.len() > 0 {
        assert((front + body).skip(1) =~= front.skip(1) + body);
        assert(is_space(front[0]));
        lemma_blank_front(front.skip(1), body);
    } else {
        assert(front + body =~= body);
    }
}

proof fn lemma_blank_back(body: Seq<char>, back: Seq<char>)
    requires
        blank(back),
        body.len() == 0 || !is_space(body.last()),
    ensures
        trimmed_end(body + back) == body,
    decreases back.len(),
{
    if back.len() > 0 {
        assert((body + back).drop_last() =~= body + back.drop_last());
        assert(is_space(back.last()));
        lemma_blank_back(body, back.drop_last());
    } else {
        assert(body + back =~= body);
    }
}

/// Texts are ordered by the first character in which they differ, and a beginning of a text comes
/// before it.
pub proof fn law_the_first_difference_decides(shared: Seq<char>, a: Seq<char>, b: Seq<char>)
    ensures
        a.len() > 0 && b.len() > 0 && a[0] != b[0] ==> (precedes(shared + a, shared + b) <==> (
        a[0] as u32) < (b[0] as u32)),
        b.len() > 0 ==> precedes(shared, shared + b),
        !precedes(shared + a, shared),
    decreases shared.len(),
{
    if shared.len() > 0 {
        law_the_first_difference_decides(shared.skip(1), a, b);
        assert((shared + a).skip(1) =~= shared.skip(1) + a);
        assert((shared + b).skip(1) =~= shared.skip(1) + b);
    } else {
        assert(shared + a =~= a);
        assert(shared + b =~= b);
    }
}

/// What two texts share at an end is all that agrees, up to where they differ or one of them is
/// exhausted.
pub proof fn law_shared_ends(a: Seq<u8>, b: Seq<u8>)
    ensures
        ({
            let n = common_prefix(a, b) as int;
            &&& n <= a.len() && n <= b.len()
            &&& a.take(n) == b.take(n)
            &&& n == a.len() || n == b.len() || a[n] != b[n]
        }),
        ({
            let n = common_suffix(a, b) as int;
            &&& n <= a.len() && n <= b.len()
            &&& a.skip(a.len() - n) == b.skip(b.len() - n)
            &&& n == a.len() || n == b.len() || a[a.len() - n - 1] != b[b.len() - n - 1]
        }),
    decreases a.len(),
{
    lemma_shared_front(a, b);
    lemma_shared_back(a, b);
}

proof fn lemma_shared_front(a: Seq<u8>, b: Seq<u8>)
    ensures
        ({
            let n = common_prefix(a, b) as int;
            &&& n <= a.len() && n <= b.len()
            &&& a.take(n) == b.take(n)
            &&& n == a.len() || n == b.len() || a[n] != b[n]
        }),
    decreases a.len(),
{
    let n = common_prefix(a, b) as int;
    if n > 0 {
        lemma_shared_front(a.skip(1), b.skip(1));
        assert(a.take(n) =~= seq![a[0]] + a.skip(1).take(n - 1));
        assert(b.take(n) =~= seq![b[0]] + b.skip(1).take(n - 1));
    } else {
        assert(a.take(0) =~= b.take(0));
    }
}

proof fn lemma_shared_back(a: Seq<u8>, b: Seq<u8>)
    ensures
        ({
            let n = common_suffix(a, b) as int;
            &&& n <= a.len() && n <= b.len()
            &&& a.skip(a.len() - n) == b.skip(b.len() - n)
            &&& n == a.len() || n == b.len() || a[a.len() - n - 1] != b[b.len() - n - 1]
        }),
    decreases a.len(),
{
    let n = common_suffix(a, b) as int;
    if n > 0 {
        let x = a.drop_last();
        let y = b.drop_last();
        lemma_shared_back(x, y);
        assert(a.skip(a.len() - n) =~= x.skip(x.len() - (n - 1)).push(a.last()));
        assert(b.skip(b.len() - n) =~= y.skip(y.len() - (n - 1)).push(b.last()));
    } else {
        assert(a.skip(a.len() as int) =~= b.skip(b.len() as int));
    }
}

/// One text behind another takes up the bytes of both, one behind the other.
proof fn lemma_encoded_in_parts(a: Seq<char>, b: Seq<char>)
    ensures
        utf8::encode_utf8(a + b) == utf8::encode_utf8(a) + utf8::encode_utf8(b),
        utf8::is_char_boundary(utf8::encode_utf8(a + b), utf8::encode_utf8(a).len() as int),
    decreases a.len(),
{
    let all = utf8::encode_utf8(a + b);
    utf8::encode_utf8_valid_utf8(a + b);
    if a.len() == 0 {
        assert(a + b =~= b);
        assert(utf8::encode_utf8(a) + utf8::encode_utf8(b) =~= utf8::encode_utf8(b));
        utf8::is_char_boundary_start_end_of_seq(all);
    } else {
        lemma_encoded_in_parts(a.drop_first(), b);
        assert((a + b).drop_first() =~= a.drop_first() + b);
        assert(all =~= utf8::encode_utf8(a) + utf8::encode_utf8(b));
        utf8::encode_utf8_first_scalar(a + b);
        utf8::encode_utf8_first_scalar(a);
        assert(utf8::pop_first_scalar(all) =~= utf8::encode_utf8(a.drop_first() + b));
    }
}

/// Between the byte offsets of a part of a text stands that part.
pub proof fn law_byte_offsets_mark_off_parts(a: Seq<char>, b: Seq<char>, c: Seq<char>)
    ensures
        byte_range(a + b + c, byte_len(a) as int, byte_len(a + b) as int) == Some(b),
        byte_len(a + b) == byte_len(a) + byte_len(b),
{
    lemma_encoded_in_parts(a + b, c);
    lemma_encoded_in_parts(a, b);
    lemma_encoded_in_parts(a, b + c);
    assert(a + b + c =~= a + (b + c));
    let bytes = utf8::encode_utf8(a + b + c);
    assert(bytes.subrange(byte_len(a) as int, byte_len(a + b) as int) =~= utf8::encode_utf8(b));
    utf8::encode_utf8_decode_utf8(b);
}

/// A digit is written as the character for it, and read as the number that it is.
pub proof fn law_digits(d: nat, c: char)
    ensures
        d < 10 ==> digit(d) as u32 == 0x30 + d,
        d < 10 ==> digit_value(digit(d)) == Some(d as int),
        digit_value(c) is Some <==> '0' <= c <= '9',
        digit_value(c) matches Some(v) ==> v == c as u32 - 0x30,
{
    utf8::char_u32_cast(c, c as u32);
}

/// A number is read back from what it is written as, and is written without leading zeroes.
pub proof fn law_numbers_are_read_back(n: int)
    ensures
        integer_value(signed_decimal(n)) == Some(n),
        n >= 0 ==> signed_decimal(n) == decimal(n as nat),
        n >= 10 ==> decimal(n as nat)[0] != '0',
        n < 0 ==> signed_decimal(n)[0] == '-',
{
    if n < 0 {
        lemma_decimal_is_read((-n) as nat);
        assert(signed_decimal(n).skip(1) =~= decimal((-n) as nat));
    } else {
        lemma_decimal_is_read(n as nat);
    }
}

proof fn lemma_decimal_is_read(n: nat)
    ensures
        decimal(n).len() > 0,
        digits_value(decimal(n)) == Some(n as int),
        n >= 1 ==> decimal(n)[0] != '0',
        digit_value(decimal(n)[0]) is Some,
    decreases n,
{
    if n >= 10 {
        lemma_decimal_is_read(n / 10);
        assert(decimal(n).drop_last() =~= decimal(n / 10));
        assert(decimal(n).last() == digit(n % 10));
    }
}

/// Numbers are read digit by digit, each ten times what those before it came to and itself; a sign
/// may stand before them, and nothing else may.
pub proof fn law_numbers_are_read_by_digits(s: Seq<char>, c: char)
    ensures
        integer_value(seq!['-'] + s) == (match digits_value(s) {
            Some(v) => Some(-v),
            None => None,
        }),
        integer_value(seq!['+'] + s) == digits_value(s),
        digits_value(seq![c]) == digit_value(c),
        s.len() > 0 ==> (digits_value(s.push(c)) matches Some(v) ==> digits_value(s) is Some
            && digit_value(c) is Some && v == 10 * digits_value(s)->0 + digit_value(c)->0),
        s.len() > 0 && digits_value(s) is Some && digit_value(c) is Some ==> digits_value(s.push(c))
            is Some,
        digits_value(Seq::empty()) is None,
        integer_value(s) is Some && s[0] != '-' ==> integer_value(s)->0 >= 0,
{
    assert((seq!['-'] + s).skip(1) =~= s);
    assert((seq!['+'] + s).skip(1) =~= s);
    assert(s.push(c).drop_last() =~= s);
    if integer_value(s) is Some && s[0] != '-' {
        let t = if s[0] == '+' {
            s.skip(1)
        } else {
            s
        };
        lemma_digits_value(t, t.len() as int);
        assert(t.take(t.len() as int) =~= t);
    }
}

/// The words of a text are what stands between its white space, in order.
pub proof fn law_words(gap: Seq<char>, first: Seq<char>, rest: Seq<char>, n: nat)
    requires
        blank(gap),
        forall|i: int| 0 <= i < first.len() ==> !is_space(#[trigger] first[i]),
        rest.len() == 0 || is_space(rest[0]),
    ensures
        first.len() > 0 ==> word(gap + first + rest, 0) == Some(first),
        first.len() > 0 ==> word(gap + first + rest, n + 1) == word(rest, n),
        word(gap, n) is None,
{
    law_trimming_takes_off_white_space(gap, Seq::empty(), Seq::empty());
    assert(gap + Seq::<char>::empty() =~= gap);
    if first.len() > 0 {
        law_trimming_takes_off_white_space(gap, first + rest, Seq::empty());
        assert(gap + first + rest =~= gap + (first + rest));
        lemma_word_len(first, rest);
        assert((first + rest).take(first.len() as int) =~= first);
        assert((first + rest).skip(first.len() as int) =~= rest);
    }
}

proof fn lemma_word_len(first: Seq<char>, rest: Seq<char>)
    requires
        forall|i: int| 0 <= i < first.len() ==> !is_space(#[trigger] first[i]),
        rest.len() == 0 || is_space(rest[0]),
    ensures
        word_len(first + rest) == first.len(),
    decreases first.len(),
{
    if first.len() > 0 {
        assert((first + rest).skip(1) =~= first.skip(1) + rest);
        assert(!is_space(first[0]));
        lemma_word_len(first.skip(1), rest);
    } else {
        assert(first + rest =~= rest);
    }
}

/// Two texts differ from their first byte on, or one of them is empty.
pub open spec fn part_at_once(a: Seq<char>, b: Seq<char>) -> bool {
    let x = utf8::encode_utf8(a);
    let y = utf8::encode_utf8(b);
    x.len() == 0 || y.len() == 0 || x[0] != y[0]
}

/// What two texts share at the beginning is what they begin with, up to where they part.
pub proof fn law_what_is_shared_at_the_beginning(shared: Seq<char>, a: Seq<char>, b: Seq<char>)
    requires
        part_at_once(a, b),
    ensures
        shared_beginning(shared + a, shared + b) == shared,
{
    lemma_encoded_in_parts(shared, a);
    lemma_encoded_in_parts(shared, b);
    let front = utf8::encode_utf8(shared);
    lemma_common_prefix_behind(front, utf8::encode_utf8(a), utf8::encode_utf8(b));
    law_byte_offsets_mark_off_parts(Seq::empty(), shared, a);
    assert(Seq::<char>::empty() + shared + a =~= shared + a);
    assert(Seq::<char>::empty() + shared =~= shared);
}

proof fn lemma_common_prefix_behind(front: Seq<u8>, a: Seq<u8>, b: Seq<u8>)
    ensures
        common_prefix(front + a, front + b) == front.len() + common_prefix(a, b),
    decreases front.len(),
{
    if front.len() > 0 {
        assert((front + a).skip(1) =~= front.skip(1) + a);
        assert((front + b).skip(1) =~= front.skip(1) + b);
        lemma_common_prefix_behind(front.skip(1), a, b);
    } else {
        assert(front + a =~= a);
        assert(front + b =~= b);
    }
}

proof fn lemma_common_suffix_before(a: Seq<u8>, b: Seq<u8>, back: Seq<u8>)
    ensures
        common_suffix(a + back, b + back) == back.len() + common_suffix(a, b),
    decreases back.len(),
{
    if back.len() > 0 {
        assert((a + back).drop_last() =~= a + back.drop_last());
        assert((b + back).drop_last() =~= b + back.drop_last());
        lemma_common_suffix_before(a, b, back.drop_last());
    } else {
        assert(a + back =~= a);
        assert(b + back =~= b);
    }
}

/// What two texts share at both ends takes up these bytes of the second.
pub proof fn lemma_shared_at_both_ends(
    front: Seq<char>,
    a: Seq<char>,
    b: Seq<char>,
    back: Seq<char>,
)
    requires
        part_at_once(a + back, b + back),
        utf8::encode_utf8(a).len() == 0 || utf8::encode_utf8(b).len() == 0 || utf8::encode_utf8(
            a,
        ).last() != utf8::encode_utf8(b).last(),
    ensures
        ({
            let x = utf8::encode_utf8(front + a + back);
            let y = utf8::encode_utf8(front + b + back);
            let prefix = common_prefix(x, y) as int;
            let suffix = common_suffix(x.skip(prefix), y.skip(prefix)) as int;
            &&& prefix == byte_len(front)
            &&& y.len() - suffix == byte_len(front + b)
        }),
{
    let f = utf8::encode_utf8(front);
    let p = utf8::encode_utf8(a);
    let q = utf8::encode_utf8(b);
    let e = utf8::encode_utf8(back);
    lemma_encoded_in_parts(front, a + back);
    lemma_encoded_in_parts(front, b + back);
    lemma_encoded_in_parts(a, back);
    lemma_encoded_in_parts(b, back);
    lemma_encoded_in_parts(front, b);
    assert(front + a + back =~= front + (a + back));
    assert(front + b + back =~= front + (b + back));
    let x = f + (p + e);
    let y = f + (q + e);
    lemma_common_prefix_behind(f, p + e, q + e);
    assert(x.skip(f.len() as int) =~= p + e);
    assert(y.skip(f.len() as int) =~= q + e);
    lemma_common_suffix_before(p, q, e);
}

/// What stands at the end of a text, or between two parts of it, stands in it.
pub proof fn lemma_named(before: Seq<char>, name: Seq<char>, after: Seq<char>)
    ensures
        contains(before + name, name),
        contains(before + name + after, name),
{
    law_standing_somewhere(before, name, Seq::empty(), name, 0);
    assert(before + name + Seq::<char>::empty() =~= before + name);
    law_standing_somewhere(before, name, after, name, 0);
}

} // verus!
