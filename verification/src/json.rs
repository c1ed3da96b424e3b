//! JSON values: the shape that chat templates and tool calls are exchanged in.

use vstd::prelude::*;
use crate::text;

verus! {

/// A JSON number, as `serde_json` keeps it: carried through, never looked into.
#[verifier::external_type_specification]
#[verifier::external_body]
pub struct ExNumber(serde_json::Number);

/// `serde_json::Number::clone`: the clone is the same number.
pub assume_specification[ <serde_json::Number as Clone>::clone ](n: &serde_json::Number) -> (r:
    serde_json::Number)
    ensures
        r == *n,
;

/// A JSON value. The entries of an object are in the order in which they are listed.
#[derive(Debug, PartialEq)]
pub enum Json {
    Null,
    Bool(bool),
    Number(serde_json::Number),
    Text(String),
    Array(Vec<Json>),
    Object(Vec<(String, Json)>),
}

/// The mathematical content of a [`Json`].
pub enum JsonView {
    Null,
    Bool(bool),
    Number(serde_json::Number),
    Text(Seq<char>),
    Array(Seq<JsonView>),
    Object(Seq<EntryView>),
}

/// One entry of an object.
pub struct EntryView {
    pub key: Seq<char>,
    pub value: JsonView,
}

impl View for Json {
    type V = JsonView;

    open spec fn view(&self) -> JsonView
        decreases self,
    {
        match *self {
            Json::Null => JsonView::Null,
            Json::Bool(b) => JsonView::Bool(b),
            Json::Number(n) => JsonView::Number(n),
            Json::Text(s) => JsonView::Text(s@),
            Json::Array(items) => JsonView::Array(
                Seq::new(
                    items@.len(),
                    |i: int|
                        if 0 <= i < items@.len() {
                            items@[i].view()
                        } else {
                            JsonView::Null
                        },
                ),
            ),
            Json::Object(entries) => JsonView::Object(
                Seq::new(
                    entries@.len(),
                    |i: int|
                        if 0 <= i < entries@.len() {
                            EntryView { key: entries@[i].0@, value: entries@[i].1.view() }
                        } else {
                            EntryView { key: Seq::empty(), value: JsonView::Null }
                        },
                ),
            ),
        }
    }
}

/// The contents of a list of values.
pub open spec fn items_view(items: Seq<Json>) -> Seq<JsonView> {
    Seq::new(items.len(), |i: int| items[i]@)
}

/// The contents of a list of entries.
pub open spec fn entries_view(entries: Seq<(String, Json)>) -> Seq<EntryView> {
    Seq::new(
        entries.len(),
        |i: int| EntryView { key: entries[i].0@, value: entries[i].1@ },
    )
}

/// The first entry at or after `from` with the key `key`.
pub open spec fn entry_from(entries: Seq<EntryView>, key: Seq<char>, from: int) -> Option<int>
    decreases entries.len() - from,
{
    if from < 0 || from >= entries.len() {
        None
    } else if entries[from].key == key {
        Some(from)
    } else {
        entry_from(entries, key, from + 1)
    }
}

impl JsonView {
    /// What an object holds under `key`; nothing for other values.
    pub open spec fn lookup(self, key: Seq<char>) -> Option<JsonView> {
        match self {
            JsonView::Object(entries) => match entry_from(entries, key, 0) {
                Some(i) => Some(entries[i].value),
                None => None,
            },
            _ => None,
        }
    }

    /// The text of a string value.
    pub open spec fn text(self) -> Option<Seq<char>> {
        match self {
            JsonView::Text(s) => Some(s),
            _ => None,
        }
    }
}

/// The keys of `entries` stand in order, none twice.
pub open spec fn keys_in_order(entries: Seq<EntryView>) -> bool {
    forall|i: int, j: int|
        0 <= i < j < entries.len() ==> text::precedes(#[trigger] entries[i].key, #[trigger] entries[j].key)
}

/// `entries` with `key` set to `value`: in place of what stood under `key`, else before the
/// first greater key.
pub open spec fn entry_set(entries: Seq<EntryView>, key: Seq<char>, value: JsonView) -> Seq<EntryView>
    decreases entries.len(),
{
    if entries.len() == 0 {
        seq![EntryView { key, value }]
    } else if entries[0].key == key {
        entries.update(0, EntryView { key, value })
    } else if text::precedes(key, entries[0].key) {
        seq![EntryView { key, value }] + entries
    } else {
        seq![entries[0]] + entry_set(entries.skip(1), key, value)
    }
}

/// Setting a key keeps the keys in order; every key of the result is the one set or one that
/// was there.
pub proof fn lemma_entry_set_in_order(entries: Seq<EntryView>, key: Seq<char>, value: JsonView)
    requires
        keys_in_order(entries),
    ensures
        keys_in_order(entry_set(entries, key, value)),
        forall|i: int|
            0 <= i < entry_set(entries, key, value).len() ==> {
                ||| (#[trigger] entry_set(entries, key, value)[i]).key == key
                ||| exists|j: int|
                    0 <= j < entries.len() && entries[j].key == entry_set(entries, key, value)[i].key
            },
    decreases entries.len(),
{
    let r = entry_set(entries, key, value);
    if entries.len() == 0 {
    } else if entries[0].key == key {
        assert forall|i: int| 0 <= i < r.len() implies (#[trigger] r[i]).key == key || exists|j: int|
            0 <= j < entries.len() && entries[j].key == r[i].key by {
            assert(entries[i].key == r[i].key);
        }
        assert(forall|i: int| 0 <= i < r.len() ==> r[i].key == entries[i].key);
    } else if text::precedes(key, entries[0].key) {
        assert forall|i: int, j: int| 0 <= i < j < r.len() implies text::precedes(
            #[trigger] r[i].key,
            #[trigger] r[j].key,
        ) by {
            assert(r[j] == entries[j - 1]);
            if i == 0 {
                if j > 1 {
                    text::lemma_precedes_transitive(key, entries[0].key, entries[j - 1].key);
                }
            } else {
                assert(r[i] == entries[i - 1]);
            }
        }
        assert forall|i: int| 0 <= i < r.len() implies (#[trigger] r[i]).key == key || exists|j: int|
            0 <= j < entries.len() && entries[j].key == r[i].key by {
            if i > 0 {
                assert(r[i] == entries[i - 1]);
            }
        }
    } else {
        let rest = entries.skip(1);
        assert(forall|i: int| 0 <= i < rest.len() ==> rest[i] == entries[i + 1]);
        lemma_entry_set_in_order(rest, key, value);
        let sub = entry_set(rest, key, value);
        text::lemma_precedes_total(key, entries[0].key);
        assert forall|i: int| 0 <= i < r.len() implies (#[trigger] r[i]).key == key || exists|j: int|
            0 <= j < entries.len() && entries[j].key == r[i].key by {
            if i > 0 {
                assert(r[i] == sub[i - 1]);
                if sub[i - 1].key != key {
                    let j = choose|j: int| 0 <= j < rest.len() && rest[j].key == sub[i - 1].key;
                    assert(entries[j + 1].key == r[i].key);
                }
            }
        }
        assert forall|i: int, j: int| 0 <= i < j < r.len() implies text::precedes(
            #[trigger] r[i].key,
            #[trigger] r[j].key,
        ) by {
            assert(r[j] == sub[j - 1]);
            if i == 0 {
                if sub[j - 1].key != key {
                    let k = choose|k: int| 0 <= k < rest.len() && rest[k].key == sub[j - 1].key;
                    assert(entries[k + 1].key == r[j].key);
                }
            } else {
                assert(r[i] == sub[i - 1]);
            }
        }
    }
}

/// After a key is set, it holds the value, and every other key holds what it held.
pub proof fn lemma_entry_set_lookup(
    entries: Seq<EntryView>,
    key: Seq<char>,
    value: JsonView,
    other: Seq<char>,
)
    requires
        keys_in_order(entries),
    ensures
        JsonView::Object(entry_set(entries, key, value)).lookup(other) == (if other == key {
            Some(value)
        } else {
            JsonView::Object(entries).lookup(other)
        }),
    decreases entries.len(),
{
    let r = entry_set(entries, key, value);
    if entries.len() == 0 {
        reveal_with_fuel(entry_from, 2);
    } else if entries[0].key == key {
        lemma_entry_from_same_keys(entries, r, other, 0);
        lemma_entry_from(r, other, 0);
    } else if text::precedes(key, entries[0].key) {
        lemma_entry_from_shift(r, entries, other, 0);
        if other == key {
        } else {
            assert(entry_from(r, other, 0) == entry_from(r, other, 1));
        }
        lemma_entry_from(r, other, 0);
        lemma_entry_from(entries, other, 0);
    } else {
        let rest = entries.skip(1);
        let sub = entry_set(rest, key, value);
        assert(forall|i: int| 0 <= i < rest.len() ==> rest[i] == entries[i + 1]);
        lemma_entry_set_lookup(rest, key, value, other);
        lemma_entry_from_shift(r, sub, other, 0);
        lemma_entry_from_shift(entries, rest, other, 0);
        lemma_entry_from(sub, other, 0);
        lemma_entry_from(rest, other, 0);
        assert(entry_from(r, other, 0) == (if r[0].key == other {
            Some(0int)
        } else {
            entry_from(r, other, 1)
        }));
    }
}

proof fn lemma_entry_from(entries: Seq<EntryView>, key: Seq<char>, from: int)
    requires
        0 <= from,
    ensures
        match entry_from(entries, key, from) {
            Some(i) => from <= i < entries.len() && entries[i].key == key,
            None => true,
        },
    decreases entries.len() - from,
{
    if from < entries.len() && entries[from].key != key {
        lemma_entry_from(entries, key, from + 1);
    }
}

proof fn lemma_entry_from_same_keys(
    a: Seq<EntryView>,
    b: Seq<EntryView>,
    key: Seq<char>,
    from: int,
)
    requires
        0 <= from,
        a.len() == b.len(),
        forall|i: int| 0 <= i < a.len() ==> a[i].key == b[i].key,
    ensures
        entry_from(a, key, from) == entry_from(b, key, from),
    decreases a.len() - from,
{
    if from < a.len() && a[from].key != key {
        lemma_entry_from_same_keys(a, b, key, from + 1);
    }
}

/// Searching a list past its first entry is searching the rest.
proof fn lemma_entry_from_shift(
    whole: Seq<EntryView>,
    rest: Seq<EntryView>,
    key: Seq<char>,
    from: int,
)
    requires
        0 <= from,
        whole.len() == rest.len() + 1,
        forall|i: int| 0 <= i < rest.len() ==> rest[i] == whole[i + 1],
    ensures
        entry_from(whole, key, from + 1) == (match entry_from(rest, key, from) {
            Some(i) => Some(i + 1),
            None => None,
        }),
    decreases rest.len() - from,
{
    if from < rest.len() && rest[from].key != key {
        lemma_entry_from_shift(whole, rest, key, from + 1);
    }
}

/// `items` with every value put in normal form.
pub open spec fn normal_items(items: Seq<JsonView>) -> Seq<JsonView>
    decreases items,
{
    Seq::new(
        items.len(),
        |i: int|
            if 0 <= i < items.len() {
                normal(items[i])
            } else {
                JsonView::Null
            },
    )
}

/// The first `n` of `entries`, set one after the other, every value put in normal form.
pub open spec fn normal_entries(entries: Seq<EntryView>, n: int) -> Seq<EntryView>
    decreases entries, n,
{
    if n <= 0 || n > entries.len() {
        Seq::empty()
    } else {
        entry_set(
            normal_entries(entries, n - 1),
            entries[n - 1].key,
            normal(entries[n - 1].value),
        )
    }
}

/// `j` with the keys of every object in order, each once, the last value given for a key kept.
pub open spec fn normal(j: JsonView) -> JsonView
    decreases j,
{
    match j {
        JsonView::Array(items) => JsonView::Array(normal_items(items)),
        JsonView::Object(entries) => JsonView::Object(normal_entries(entries, entries.len() as int)),
        _ => j,
    }
}

impl Json {
    /// The same value again.
    pub fn copied(&self) -> (r: Json)
        ensures
            r@ == self@,
        decreases self,
    {
        match self {
            Json::Null => Json::Null,
            Json::Bool(b) => Json::Bool(*b),
            Json::Number(n) => Json::Number(n.clone()),
            Json::Text(s) => Json::Text(s.clone()),
            Json::Array(items) => {
                let mut out: Vec<Json> = Vec::new();
                let mut i: usize = 0;
                while i < items.len()
                    invariant
                        i <= items.len(),
                        out.len() == i,
                        self matches Json::Array(v) && v == items,
                        forall|j: int| 0 <= j < i ==> out@[j]@ == items@[j]@,
                    decreases items.len() - i,
                {
                    out.push(items[i].copied());
                    i += 1;
                }
                let r = Json::Array(out);
                assert(r@->Array_0 =~= self@->Array_0);
                r
            },
            Json::Object(entries) => {
                let mut out: Vec<(String, Json)> = Vec::new();
                let mut i: usize = 0;
                while i < entries.len()
                    invariant
                        i <= entries.len(),
                        out.len() == i,
                        self matches Json::Object(v) && v == entries,
                        forall|j: int|
                            0 <= j < i ==> (#[trigger] out@[j]).0@ == entries@[j].0@ && out@[j].1@
                                == entries@[j].1@,
                    decreases entries.len() - i,
                {
                    out.push((entries[i].0.clone(), entries[i].1.copied()));
                    i += 1;
                }
                let r = Json::Object(out);
                assert(r@->Object_0 =~= self@->Object_0);
                r
            },
        }
    }

    /// A string value.
    pub fn text(s: &str) -> (r: Json)
        ensures
            r@ == JsonView::Text(s@),
    {
        Json::Text(s.to_string())
    }

    /// An array of `items`.
    pub fn array(items: Vec<Json>) -> (r: Json)
        ensures
            r@ == JsonView::Array(items_view(items@)),
    {
        let r = Json::Array(items);
        assert(r@->Array_0 =~= items_view(items@));
        r
    }

    /// An object with `entries`, in the order given.
    pub fn object(entries: Vec<(String, Json)>) -> (r: Json)
        ensures
            r@ == JsonView::Object(entries_view(entries@)),
    {
        let r = Json::Object(entries);
        assert(r@->Object_0 =~= entries_view(entries@));
        r
    }

    /// What an object holds under `key`; `None` for a value that is no object.
    pub fn get(&self, key: &str) -> (r: Option<&Json>)
        ensures
            match r {
                Some(v) => self@.lookup(key@) == Some(v@),
                None => self@.lookup(key@) is None,
            },
    {
        match self {
            Json::Object(entries) => {
                let mut i: usize = 0;
                assert(self@->Object_0 =~= entries_view(entries@));
                while i < entries.len()
                    invariant
                        i <= entries.len(),
                        self@ == JsonView::Object(entries_view(entries@)),
                        entry_from(self@->Object_0, key@, 0) == entry_from(
                            self@->Object_0,
                            key@,
                            i as int,
                        ),
                    decreases entries.len() - i,
                {
                    if text::same_text(entries[i].0.as_str(), key) {
                        return Some(&entries[i].1);
                    }
                    i += 1;
                }
                None
            },
            _ => None,
        }
    }

    /// The text of a string value.
    pub fn as_str(&self) -> (r: Option<&str>)
        ensures
            match r {
                Some(s) => self@.text() == Some(s@),
                None => self@.text() is None,
            },
    {
        match self {
            Json::Text(s) => Some(s.as_str()),
            _ => None,
        }
    }

    /// Whether this is the string `s`.
    pub fn is_text(&self, s: &str) -> (r: bool)
        ensures
            r == (self@ == JsonView::Text(s@)),
    {
        match self {
            Json::Text(t) => text::same_text(t.as_str(), s),
            _ => false,
        }
    }
}

impl Clone for Json {
    fn clone(&self) -> (r: Self)
        ensures
            r@ == self@,
    {
        self.copied()
    }
}

/// Sets `key` to `value` among entries that are kept in the order of their keys.
pub fn set_entry(entries: &mut Vec<(String, Json)>, key: String, value: Json)
    ensures
        entries_view(final(entries)@) == entry_set(entries_view(old(entries)@), key@, value@),
{
    let ghost before = entries_view(entries@);
    let k: Vec<char> = text::chars_of(key.as_str());
    let mut i: usize = 0;
    assert(before.skip(0) =~= before);
    assert(before.take(0) + entry_set(before.skip(0), key@, value@) =~= entry_set(before, key@, value@));
    while i < entries.len()
        invariant
            i <= entries.len(),
            *entries == *old(entries),
            before == entries_view(entries@),
            k@ == key@,
            before.take(i as int) + entry_set(before.skip(i as int), key@, value@) == entry_set(
                before,
                key@,
                value@,
            ),
        decreases entries.len() - i,
    {
        let here: Vec<char> = text::chars_of(entries[i].0.as_str());
        let ghost e = EntryView { key: key@, value: value@ };
        assert(before[i as int].key == here@);
        assert(before.skip(i as int)[0] == before[i as int]);
        if text::same(here.as_slice(), k.as_slice()) {
            entries.set(i, (key, value));
            proof {
                assert(entries_view(entries@) =~= before.update(i as int, e));
                assert(before.take(i as int) + before.skip(i as int).update(0, e) =~= before.update(
                    i as int,
                    e,
                ));
            }
            return;
        }
        if text::is_before(k.as_slice(), here.as_slice()) {
            entries.insert(i, (key, value));
            proof {
                assert(entries_view(entries@) =~= before.insert(i as int, e));
                assert(before.take(i as int) + (seq![e] + before.skip(i as int)) =~= before.insert(
                    i as int,
                    e,
                ));
            }
            return;
        }
        proof {
            let rest = before.skip(i as int);
            assert(rest.skip(1) =~= before.skip(i + 1));
            assert(before.take(i as int) + (seq![rest[0]] + entry_set(rest.skip(1), key@, value@))
                =~= before.take(i + 1) + entry_set(before.skip(i + 1), key@, value@));
        }
        i += 1;
    }
    let ghost e = EntryView { key: key@, value: value@ };
    entries.push((key, value));
    proof {
        assert(before.skip(i as int).len() == 0);
        assert(entries_view(entries@) =~= before.push(e));
        assert(before.take(i as int) + seq![e] =~= before.push(e));
    }
}

/// A JSON value, as `serde_json` keeps it.
#[verifier::external_type_specification]
#[verifier::external_body]
pub struct ExValue(serde_json::Value);

/// What a `serde_json` value holds.
pub uninterp spec fn content(v: serde_json::Value) -> JsonView;

/// The value that `serde_json::from_str` reads out of a text, if it reads one.
pub uninterp spec fn parsed(s: Seq<char>) -> Option<JsonView>;

/// The text that a `serde_json` value is displayed as.
pub uninterp spec fn written(j: JsonView) -> Seq<char>;

/// `serde_json::from_str` into a `serde_json::Value`. What it reads, and whether it reads
/// anything, depends on the text alone.
#[verifier::external_body]
fn value_from_str(s: &str) -> (r: Option<serde_json::Value>)
    ensures
        match r {
            Some(v) => parsed(s@) == Some(content(v)),
            None => parsed(s@) is None,
        },
{
    serde_json::from_str::<serde_json::Value>(s).ok()
}

/// The outermost layer of a `serde_json` value.
enum Layer<'a> {
    Null,
    Bool(bool),
    Number(&'a serde_json::Number),
    Text(&'a str),
    Array(&'a [serde_json::Value]),
    Object(Vec<(&'a str, &'a serde_json::Value)>),
}

/// What a layer of a value holds.
spec fn layer_content(layer: Layer) -> JsonView {
    match layer {
        Layer::Null => JsonView::Null,
        Layer::Bool(b) => JsonView::Bool(b),
        Layer::Number(n) => JsonView::Number(*n),
        Layer::Text(s) => JsonView::Text(s@),
        Layer::Array(items) => JsonView::Array(
            Seq::new(items@.len(), |i: int| content(items@[i])),
        ),
        Layer::Object(entries) => JsonView::Object(
            Seq::new(
                entries@.len(),
                |i: int| EntryView { key: entries@[i].0@, value: content(*entries@[i].1) },
            ),
        ),
    }
}

/// `serde_json::Value`'s variants told apart: the layer holds what the value holds, the entries of
/// a `serde_json::Map` in the order in which it gives them out.
#[verifier::external_body]
fn take_apart(v: &serde_json::Value) -> (r: Layer<'_>)
    ensures
        layer_content(r) == content(*v),
{
    match v {
        serde_json::Value::Null => Layer::Null,
        serde_json::Value::Bool(b) => Layer::Bool(*b),
        serde_json::Value::Number(n) => Layer::Number(n),
        serde_json::Value::String(s) => Layer::Text(s),
        serde_json::Value::Array(items) => Layer::Array(items),
        serde_json::Value::Object(entries) => Layer::Object(
            entries.iter().map(|(key, value)| (key.as_str(), value)).collect(),
        ),
    }
}

/// A JSON value with what a `serde_json` value holds.
fn json_of(v: &serde_json::Value) -> (r: Json)
    ensures
        r@ == content(*v),
    decreases content(*v),
{
    match take_apart(v) {
        Layer::Null => Json::Null,
        Layer::Bool(b) => Json::Bool(b),
        Layer::Number(n) => Json::Number(n.clone()),
        Layer::Text(s) => Json::Text(s.to_string()),
        Layer::Array(items) => {
            let mut all: Vec<Json> = Vec::new();
            let mut i: usize = 0;
            while i < items.len()
                invariant
                    i <= items.len(),
                    content(*v) == JsonView::Array(
                        Seq::new(items@.len(), |i: int| content(items@[i])),
                    ),
                    all@.len() == i,
                    forall|j: int| 0 <= j < i ==> (#[trigger] all@[j])@ == content(items@[j]),
                decreases items.len() - i,
            {
                assert(content(*v)->Array_0[i as int] == content(items@[i as int]));
                all.push(json_of(&items[i]));
                i += 1;
            }
            let r = Json::Array(all);
            assert(r@->Array_0 =~= content(*v)->Array_0);
            r
        },
        Layer::Object(entries) => {
            let mut all: Vec<(String, Json)> = Vec::new();
            let mut i: usize = 0;
            while i < entries.len()
                invariant
                    i <= entries.len(),
                    content(*v) == JsonView::Object(
                        Seq::new(
                            entries@.len(),
                            |i: int|
                                EntryView { key: entries@[i].0@, value: content(*entries@[i].1) },
                        ),
                    ),
                    all@.len() == i,
                    forall|j: int|
                        0 <= j < i ==> (#[trigger] all@[j]).0@ == entries@[j].0@ && all@[j].1@
                            == content(*entries@[j].1),
                decreases entries.len() - i,
            {
                let (key, value) = entries[i];
                assert(content(*v)->Object_0[i as int].value == content(*value));
                all.push((key.to_string(), json_of(value)));
                i += 1;
            }
            let r = Json::Object(all);
            assert(r@->Object_0 =~= content(*v)->Object_0);
            r
        },
    }
}

/// The contents of a list of values.
spec fn contents(items: Seq<serde_json::Value>) -> Seq<JsonView> {
    Seq::new(items.len(), |i: int| content(items[i]))
}

/// The first `n` of `entries`, set one after the other.
spec fn entries_set(entries: Seq<(String, serde_json::Value)>, n: int) -> Seq<EntryView>
    decreases n,
{
    if n <= 0 {
        Seq::empty()
    } else {
        entry_set(entries_set(entries, n - 1), entries[n - 1].0@, content(entries[n - 1].1))
    }
}

/// `serde_json::Value::Null`.
#[verifier::external_body]
fn null_value() -> (r: serde_json::Value)
    ensures
        content(r) == JsonView::Null,
{
    serde_json::Value::Null
}

/// `serde_json::Value::Bool`.
#[verifier::external_body]
fn bool_value(b: bool) -> (r: serde_json::Value)
    ensures
        content(r) == JsonView::Bool(b),
{
    serde_json::Value::Bool(b)
}

/// `serde_json::Value::Number`.
#[verifier::external_body]
fn number_value(n: serde_json::Number) -> (r: serde_json::Value)
    ensures
        content(r) == JsonView::Number(n),
{
    serde_json::Value::Number(n)
}

/// `serde_json::Value::String`.
#[verifier::external_body]
fn text_value(s: String) -> (r: serde_json::Value)
    ensures
        content(r) == JsonView::Text(s@),
{
    serde_json::Value::String(s)
}

/// `serde_json::Value::Array`.
#[verifier::external_body]
fn array_value(items: Vec<serde_json::Value>) -> (r: serde_json::Value)
    ensures
        content(r) == JsonView::Array(contents(items@)),
{
    serde_json::Value::Array(items)
}

/// `serde_json::Value::Object` of a `serde_json::Map` collected from entries. The map keeps its
/// keys in order, and a key that comes again replaces what stood under it.
#[verifier::external_body]
fn object_value(entries: Vec<(String, serde_json::Value)>) -> (r: serde_json::Value)
    ensures
        content(r) == JsonView::Object(entries_set(entries@, entries@.len() as int)),
{
    serde_json::Value::Object(entries.into_iter().collect())
}

proof fn lemma_same_entries_set(
    a: Seq<(String, serde_json::Value)>,
    b: Seq<(String, serde_json::Value)>,
    n: int,
)
    requires
        n <= a.len(),
        n <= b.len(),
        forall|i: int| 0 <= i < n ==> a[i] == b[i],
    ensures
        entries_set(a, n) == entries_set(b, n),
    decreases n,
{
    if n > 0 {
        lemma_same_entries_set(a, b, n - 1);
    }
}

/// A `serde_json` value with what `j` holds: the normal form of it.
pub(crate) fn value_of(j: &Json) -> (r: serde_json::Value)
    ensures
        content(r) == normal(j@),
    decreases j,
{
    match j {
        Json::Null => null_value(),
        Json::Bool(b) => bool_value(*b),
        Json::Number(n) => number_value(n.clone()),
        Json::Text(s) => text_value(s.clone()),
        Json::Array(items) => {
            let mut all: Vec<serde_json::Value> = Vec::new();
            let mut i: usize = 0;
            while i < items.len()
                invariant
                    i <= items.len(),
                    j matches Json::Array(v) && v == items,
                    all@.len() == i,
                    forall|k: int| 0 <= k < i ==> content(#[trigger] all@[k]) == normal(items@[k]@),
                decreases items.len() - i,
            {
                all.push(value_of(&items[i]));
                i += 1;
            }
            assert(contents(all@) =~= normal_items(j@->Array_0));
            array_value(all)
        },
        Json::Object(entries) => {
            let ghost views = j@->Object_0;
            let mut all: Vec<(String, serde_json::Value)> = Vec::new();
            let mut i: usize = 0;
            while i < entries.len()
                invariant
                    i <= entries.len(),
                    j matches Json::Object(v) && v == entries,
                    views == j@->Object_0,
                    all@.len() == i,
                    entries_set(all@, i as int) == normal_entries(views, i as int),
                decreases entries.len() - i,
            {
                let ghost before = all@;
                let value: serde_json::Value = value_of(&entries[i].1);
                all.push((entries[i].0.clone(), value));
                proof {
                    lemma_same_entries_set(before, all@, i as int);
                    assert(views[i as int].key == entries@[i as int].0@);
                    assert(views[i as int].value == entries@[i as int].1@);
                }
                i += 1;
            }
            object_value(all)
        },
    }
}

/// A value with nothing in it that may be read back otherwise than it was written: no number, and
/// nothing nested more than `depth` deep.
pub open spec fn plain(j: JsonView, depth: int) -> bool
    decreases j,
{
    match j {
        JsonView::Number(_) => false,
        JsonView::Array(items) => depth > 0 && forall|i: int|
            0 <= i < items.len() ==> plain(#[trigger] items[i], depth - 1),
        JsonView::Object(entries) => depth > 0 && forall|i: int|
            0 <= i < entries.len() ==> plain((#[trigger] entries[i]).value, depth - 1),
        _ => true,
    }
}

/// How deep a text may be nested to be read.
pub open spec fn max_depth() -> int {
    127
}

/// `serde_json::Value`'s `Display`. The text depends on what the value holds alone. That of an
/// object begins and ends with its braces. `serde_json::from_str` reads the same content back out
/// of it, if that is nested less deep than the 128 levels at which reading stops; of numbers this
/// is not claimed.
#[verifier::external_body]
fn value_to_string(v: &serde_json::Value) -> (r: String)
    ensures
        r@ == written(content(*v)),
        content(*v) is Object ==> r@.len() >= 2 && r@[0] == '{' && r@.last() == '}',
        plain(content(*v), max_depth()) ==> parsed(r@) == Some(content(*v)),
{
    v.to_string()
}

/// Reads a JSON value out of the whole of `s`.
pub fn parse(s: &str) -> (r: Option<Json>)
    ensures
        match r {
            Some(j) => parsed(s@) == Some(j@),
            None => parsed(s@) is None,
        },
{
    match value_from_str(s) {
        Some(v) => Some(json_of(&v)),
        None => None,
    }
}

/// Writes `j` as JSON text. An object is written between braces, and a plain value is read back as
/// it was written, in normal form.
pub fn write(j: &Json) -> (r: String)
    ensures
        r@ == written(normal(j@)),
        j@ is Object ==> r@.len() >= 2 && r@[0] == '{' && r@.last() == '}',
        plain(normal(j@), max_depth()) ==> parsed(r@) == Some(normal(j@)),
{
    value_to_string(&value_of(j))
}

/// What stands under a key is the value of the first entry with that key; nothing where no entry has
/// it, or where the value is no object.
pub proof fn law_what_stands_under_a_key(entries: Seq<EntryView>, key: Seq<char>, i: int, j: JsonView)
    ensures
        0 <= i < entries.len() && entries[i].key == key && (forall|k: int|
            0 <= k < i ==> (#[trigger] entries[k]).key != key) ==> JsonView::Object(entries).lookup(key)
            == Some(entries[i].value),
        (forall|k: int| 0 <= k < entries.len() ==> (#[trigger] entries[k]).key != key)
            ==> JsonView::Object(entries).lookup(key) is None,
        !(j is Object) ==> j.lookup(key) is None,
        j.text() is Some <==> j is Text,
        j matches JsonView::Text(s) ==> j.text() == Some(s),
{
    if forall|k: int| 0 <= k < entries.len() ==> (#[trigger] entries[k]).key != key {
        lemma_entry_from(entries, key, 0);
    }
    if 0 <= i < entries.len() && entries[i].key == key && (forall|k: int|
        0 <= k < i ==> (#[trigger] entries[k]).key != key) {
        lemma_first_entry(entries, key, 0, i);
    }
}

proof fn lemma_first_entry(entries: Seq<EntryView>, key: Seq<char>, from: int, i: int)
    requires
        0 <= from <= i < entries.len(),
        entries[i].key == key,
        forall|k: int| from <= k < i ==> (#[trigger] entries[k]).key != key,
    ensures
        entry_from(entries, key, from) == Some(i),
    decreases i - from,
{
    if from < i {
        lemma_first_entry(entries, key, from + 1, i);
    }
}

/// In normal form the keys of an object stand in order, each once, with the last value that was given
/// for it; the items of an array stand as they stood; and what is neither is as it was.
pub proof fn law_normal_form(entries: Seq<EntryView>, items: Seq<JsonView>, j: JsonView, i: int)
    ensures
        normal(JsonView::Object(entries)) is Object,
        keys_in_order(normal(JsonView::Object(entries))->Object_0),
        0 <= i < entries.len() && (forall|k: int|
            i < k < entries.len() ==> (#[trigger] entries[k]).key != entries[i].key) ==> normal(
            JsonView::Object(entries),
        ).lookup(entries[i].key) == Some(normal(entries[i].value)),
        normal(JsonView::Array(items)) is Array,
        normal(JsonView::Array(items))->Array_0.len() == items.len(),
        0 <= i < items.len() ==> normal(JsonView::Array(items))->Array_0[i] == normal(items[i]),
        !(j is Array) && !(j is Object) ==> normal(j) == j,
{
    lemma_normal_entries(entries, entries.len() as int, i);
}

proof fn lemma_normal_entries(entries: Seq<EntryView>, n: int, i: int)
    requires
        0 <= n <= entries.len(),
    ensures
        keys_in_order(normal_entries(entries, n)),
        0 <= i < n && (forall|k: int| i < k < n ==> (#[trigger] entries[k]).key != entries[i].key)
            ==> JsonView::Object(normal_entries(entries, n)).lookup(entries[i].key) == Some(
            normal(entries[i].value),
        ),
    decreases n,
{
    if n > 0 {
        lemma_normal_entries(entries, n - 1, i);
        let before = normal_entries(entries, n - 1);
        lemma_entry_set_in_order(before, entries[n - 1].key, normal(entries[n - 1].value));
        lemma_entry_set_lookup(
            before,
            entries[n - 1].key,
            normal(entries[n - 1].value),
            entries[i].key,
        );
    }
}

/// No key comes up in normal form that was not there.
pub proof fn law_no_key_is_made_up(entries: Seq<EntryView>, key: Seq<char>)
    requires
        forall|k: int| 0 <= k < entries.len() ==> (#[trigger] entries[k]).key != key,
    ensures
        normal(JsonView::Object(entries)).lookup(key) is None,
{
    lemma_no_key(entries, key, entries.len() as int);
}

proof fn lemma_no_key(entries: Seq<EntryView>, key: Seq<char>, n: int)
    requires
        0 <= n <= entries.len(),
        forall|k: int| 0 <= k < entries.len() ==> (#[trigger] entries[k]).key != key,
    ensures
        JsonView::Object(normal_entries(entries, n)).lookup(key) is None,
    decreases n,
{
    if n > 0 {
        lemma_no_key(entries, key, n - 1);
        lemma_normal_entries(entries, n - 1, 0);
        lemma_entry_set_lookup(
            normal_entries(entries, n - 1),
            entries[n - 1].key,
            normal(entries[n - 1].value),
            key,
        );
    }
}

} // verus!
