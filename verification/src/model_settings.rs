//! What is configured for a model: how to sample with it, and how much it may generate.

use vstd::prelude::*;
use crate::protocol;
use crate::protocol::{WirePenalties, WireSampling};
use crate::text;

verus! {

/// The name of the file at `path`: its last component, unless that goes up a directory. Components
/// that stay in the same directory do not count.
pub open spec fn base_name(path: Seq<char>) -> Option<Seq<char>>
    decreases path.len(),
{
    if path.len() == 0 {
        None
    } else if path.last() == '/' {
        base_name(path.drop_last())
    } else {
        match text::last_index_of(path, seq!['/']) {
            Some(at) => {
                let name = path.skip(at + 1);
                if name == seq!['.'] && 0 <= at < path.len() {
                    base_name(path.take(at))
                } else if name == seq!['.', '.'] {
                    None
                } else {
                    Some(name)
                }
            },
            None => if path == seq!['.'] || path == seq!['.', '.'] {
                None
            } else {
                Some(path)
            },
        }
    }
}

/// Whether all of `s` is `n` dots.
fn is_dots(s: &[char], n: usize) -> (r: bool)
    requires
        n == 1 || n == 2,
    ensures
        r == (s@ == if n == 1 {
            seq!['.']
        } else {
            seq!['.', '.']
        }),
{
    let dots: Vec<char> = if n == 1 {
        vec!['.']
    } else {
        vec!['.', '.']
    };
    assert(dots@ =~= if n == 1 {
        seq!['.']
    } else {
        seq!['.', '.']
    });
    text::same(s, dots.as_slice())
}

/// The name of the file at `path`.
pub fn file_name(path: &[char]) -> (r: Option<&[char]>)
    ensures
        match r {
            Some(name) => base_name(path@) == Some(name@),
            None => base_name(path@) is None,
        },
{
    let slash: Vec<char> = vec!['/'];
    assert(slash@ =~= seq!['/']);
    let mut rest: &[char] = path;
    while rest.len() > 0
        invariant
            slash@ == seq!['/'],
            base_name(rest@) == base_name(path@),
        decreases rest@.len(),
    {
        let n: usize = rest.len();
        if rest[n - 1] == '/' {
            let shorter: &[char] = text::head(rest, n - 1);
            assert(shorter@ =~= rest@.drop_last());
            rest = shorter;
        } else {
            match text::rfind(rest, slash.as_slice()) {
                Some(at) => {
                    let name: &[char] = text::after(rest, at, 1);
                    if is_dots(name, 1) {
                        rest = text::head(rest, at);
                    } else if is_dots(name, 2) {
                        return None;
                    } else {
                        return Some(name);
                    }
                },
                None => {
                    if is_dots(rest, 1) || is_dots(rest, 2) {
                        return None;
                    } else {
                        return Some(rest);
                    }
                },
            }
        }
    }
    None
}

/// What one model's card says.
#[derive(Debug)]
pub struct Entry<N> {
    /// The most likely token is taken where nothing is said.
    pub temperature: Option<N>,
    pub top_k: Option<i32>,
    pub seed: Option<u32>,
    pub repeat_penalty: N,
    pub frequency_penalty: N,
    pub presence_penalty: N,
    pub penalty_last_n: i32,
    /// How much the model may generate in one turn.
    pub max_new_tokens: Option<i32>,
    /// Where the numbers come from.
    pub note: Option<String>,
}

impl<N> Entry<N> {
    /// This entry as the daemon applies it; `one` and `zero` switch off what an entry cannot say.
    pub open spec fn on_wire(self, one: N, zero: N) -> WireSampling<N> {
        let penalties = WirePenalties {
            last_n: self.penalty_last_n,
            repeat: self.repeat_penalty,
            freq: self.frequency_penalty,
            present: self.presence_penalty,
        };
        match self.temperature {
            Some(temperature) => WireSampling::Temperature {
                temperature,
                top_k: match self.top_k {
                    Some(k) => k,
                    None => 40,
                },
                top_p: one,
                min_p: zero,
                seed: match self.seed {
                    Some(s) => s,
                    None => 0,
                },
                penalties,
            },
            None => WireSampling::Greedy { penalties },
        }
    }
}

impl<N: Copy> Entry<N> {
    /// This entry as the daemon applies it, given the numbers one and zero.
    pub fn sampling(&self, one: N, zero: N) -> (r: WireSampling<N>)
        ensures
            r == self.on_wire(one, zero),
    {
        let penalties = WirePenalties {
            last_n: self.penalty_last_n,
            repeat: self.repeat_penalty,
            freq: self.frequency_penalty,
            present: self.presence_penalty,
        };
        match self.temperature {
            Some(temperature) => WireSampling::Temperature {
                temperature,
                top_k: match self.top_k {
                    Some(k) => k,
                    None => 40,
                },
                top_p: one,
                min_p: zero,
                seed: match self.seed {
                    Some(s) => s,
                    None => 0,
                },
                penalties,
            },
            None => WireSampling::Greedy { penalties },
        }
    }
}

/// Everything that is configured for models.
#[derive(Debug)]
pub struct ModelSettings<N> {
    /// For a model that no entry matches.
    pub default: Option<Entry<N>>,
    /// By a part of the model's file name, in whatever order.
    pub models: Vec<(String, Entry<N>)>,
}

/// `a` is the better key: it is longer, or as long and later in the order of the keys.
pub open spec fn outranks(a: Seq<char>, b: Seq<char>) -> bool {
    text::byte_len(a) > text::byte_len(b) || text::byte_len(a) == text::byte_len(b)
        && text::precedes(b, a)
}

/// Of the first `n` entries whose key is a part of `name`, the one with the longest key, of those
/// that are equally long the one whose key is the last in the order of the keys.
pub open spec fn best_match<N>(models: Seq<(String, Entry<N>)>, name: Seq<char>, n: int) -> Option<
    int,
>
    decreases n,
{
    if n <= 0 {
        None
    } else {
        let before = best_match(models, name, n - 1);
        if text::contains(name, models[n - 1].0@) {
            match before {
                Some(b) => if outranks(models[b].0@, models[n - 1].0@) {
                    before
                } else {
                    Some(n - 1)
                },
                None => Some(n - 1),
            }
        } else {
            before
        }
    }
}

/// Whether `a` is the better key.
fn is_better(a: &str, b: &str) -> (r: bool)
    ensures
        r == outranks(a@, b@),
{
    let n: usize = a.as_bytes().len();
    let m: usize = b.as_bytes().len();
    n > m || n == m && text::is_before(
        text::chars_of(b).as_slice(),
        text::chars_of(a).as_slice(),
    )
}

/// What reading a settings file came to.
#[derive(Debug)]
pub enum SettingsFile<N> {
    /// There is none.
    Missing,
    /// It cannot be read.
    Unreadable(String),
    /// It cannot be understood.
    Malformed(String),
    Read(ModelSettings<N>),
}

/// Why there are no settings.
#[derive(Debug)]
pub enum SettingsError {
    Io { path: String, cause: String },
    Parse { path: String, cause: String },
}

impl SettingsError {
    /// The error in words.
    pub open spec fn words(self) -> Seq<char> {
        match self {
            SettingsError::Io { path, cause } => "reading "@ + path@ + ": "@ + cause@,
            SettingsError::Parse { path, cause } => "parsing "@ + path@ + ": "@ + cause@,
        }
    }

    /// The error in words.
    pub fn message(&self) -> (r: String)
        ensures
            r@ == self.words(),
    {
        let (verb, path, cause): (&str, &String, &String) = match self {
            SettingsError::Io { path, cause } => ("reading ", path, cause),
            SettingsError::Parse { path, cause } => ("parsing ", path, cause),
        };
        let mut m: String = verb.to_string();
        m.append(path.as_str());
        m.append(": ");
        m.append(cause.as_str());
        m
    }
}

impl<N> ModelSettings<N> {
    /// The entry for a model: the one with the longest key that is a part of its file name, else the
    /// default. There is none for a path without a file name.
    pub open spec fn entry(self, path: Seq<char>) -> Option<Entry<N>> {
        match base_name(path) {
            Some(name) => match best_match(self.models@, name, self.models@.len() as int) {
                Some(i) => Some(self.models@[i].1),
                None => self.default,
            },
            None => None,
        }
    }

    /// Where settings live when nothing says otherwise, given the home directory.
    pub fn default_path(home: Option<&str>) -> (r: Option<String>)
        ensures
            match r {
                Some(p) => protocol::daemon_file(home, "models.toml"@) == Some(p@),
                None => protocol::daemon_file(home, "models.toml"@) is None,
            },
    {
        match home {
            Some(h) => Some(
                protocol::join_path(protocol::join_path(h, ".rampipe").as_str(), "models.toml"),
            ),
            None => None,
        }
    }

    /// No settings at all.
    pub fn none() -> (r: Self)
        ensures
            r.default is None,
            r.models@.len() == 0,
    {
        ModelSettings { default: None, models: Vec::new() }
    }

    /// The settings that reading `path` came to. Where there is no such file there are none; a file
    /// that is there and cannot be read or understood is an error.
    pub fn settle(path: &str, read: SettingsFile<N>) -> (r: Result<Self, SettingsError>)
        ensures
            match read {
                SettingsFile::Missing => r is Ok && r->Ok_0.default is None
                    && r->Ok_0.models@.len() == 0,
                SettingsFile::Unreadable(cause) => r is Err && (r->Err_0 matches SettingsError::Io {
                    path: p,
                    cause: c,
                } && p@ == path@ && c == cause),
                SettingsFile::Malformed(cause) => r is Err && (
                r->Err_0 matches SettingsError::Parse { path: p, cause: c } && p@ == path@ && c
                    == cause),
                SettingsFile::Read(settings) => r == Ok::<Self, SettingsError>(settings),
            },
    {
        match read {
            SettingsFile::Missing => Ok(Self::none()),
            SettingsFile::Unreadable(cause) => Err(
                SettingsError::Io { path: path.to_string(), cause },
            ),
            SettingsFile::Malformed(cause) => Err(
                SettingsError::Parse { path: path.to_string(), cause },
            ),
            SettingsFile::Read(settings) => Ok(settings),
        }
    }

    /// The entry for a model.
    pub fn entry_for(&self, model_path: &str) -> (r: Option<&Entry<N>>)
        ensures
            match r {
                Some(e) => self.entry(model_path@) == Some(*e),
                None => self.entry(model_path@) is None,
            },
    {
        let path: Vec<char> = text::chars_of(model_path);
        let name: &[char] = match file_name(path.as_slice()) {
            Some(name) => name,
            None => {
                return None;
            },
        };
        let mut best: Option<usize> = None;
        let mut i: usize = 0;
        while i < self.models.len()
            invariant
                i <= self.models.len(),
                match best {
                    Some(b) => b < i && best_match(self.models@, name@, i as int) == Some(b as int),
                    None => best_match(self.models@, name@, i as int) is None,
                },
            decreases self.models.len() - i,
        {
            let key: &str = self.models[i].0.as_str();
            if text::has(name, text::chars_of(key).as_slice()) {
                best = match best {
                    Some(b) => {
                        if is_better(self.models[b].0.as_str(), key) {
                            Some(b)
                        } else {
                            Some(i)
                        }
                    },
                    None => Some(i),
                };
            }
            i += 1;
        }
        match best {
            Some(b) => Some(&self.models[b].1),
            None => self.default.as_ref(),
        }
    }

    /// How much a model may generate in one turn, when a caller does not say.
    pub fn max_new_tokens_for(&self, model_path: &str) -> (r: Option<i32>)
        ensures
            r == (match self.entry(model_path@) {
                Some(e) => e.max_new_tokens,
                None => None,
            }),
    {
        match self.entry_for(model_path) {
            Some(e) => e.max_new_tokens,
            None => None,
        }
    }

    /// How much a model may generate in one go: what was asked for, else what is configured.
    pub fn max_new_tokens_or_configured(&self, asked: Option<i32>, model_path: &str) -> (r: Option<
        i32,
    >)
        ensures
            r == (match asked {
                Some(n) => Some(n),
                None => match self.entry(model_path@) {
                    Some(e) => e.max_new_tokens,
                    None => None,
                },
            }),
    {
        match asked {
            Some(n) => Some(n),
            None => self.max_new_tokens_for(model_path),
        }
    }
}

impl<N: Copy> ModelSettings<N> {
    /// How to sample with a model, when a caller does not say, given the numbers one and zero.
    pub fn sampling_for(&self, model_path: &str, one: N, zero: N) -> (r: WireSampling<N>)
        ensures
            r == (match self.entry(model_path@) {
                Some(e) => e.on_wire(one, zero),
                None => WireSampling::Greedy {
                    penalties: WirePenalties {
                        last_n: 0,
                        repeat: one,
                        freq: zero,
                        present: zero,
                    },
                },
            }),
    {
        match self.entry_for(model_path) {
            Some(e) => e.sampling(one, zero),
            None => WireSampling::Greedy { penalties: WirePenalties::disabled(one, zero) },
        }
    }

    /// How to sample for a request: as it says, else as is configured.
    pub fn sampling_or_configured(
        &self,
        asked: Option<WireSampling<N>>,
        model_path: &str,
        one: N,
        zero: N,
    ) -> (r: WireSampling<N>)
        ensures
            asked is Some ==> r == asked->0,
            asked is None ==> r == (match self.entry(model_path@) {
                Some(e) => e.on_wire(one, zero),
                None => WireSampling::Greedy {
                    penalties: WirePenalties {
                        last_n: 0,
                        repeat: one,
                        freq: zero,
                        present: zero,
                    },
                },
            }),
    {
        match asked {
            Some(s) => s,
            None => self.sampling_for(model_path, one, zero),
        }
    }
}

/// The longest match wins: no entry whose key is a part of the name has a better key than the one
/// that is taken, and there is one to take as soon as any key is a part of it.
pub proof fn law_longest_match_wins<N>(models: Seq<(String, Entry<N>)>, name: Seq<char>, n: int, i: int)
    requires
        0 <= i < n <= models.len(),
        text::contains(name, models[i].0@),
    ensures
        best_match(models, name, n) is Some,
        0 <= best_match(models, name, n)->0 < n,
        text::contains(name, models[best_match(models, name, n)->0].0@),
        text::byte_len(models[i].0@) <= text::byte_len(models[best_match(models, name, n)->0].0@),
        !outranks(models[i].0@, models[best_match(models, name, n)->0].0@),
    decreases n,
{
    let key = models[i].0@;
    if i < n - 1 {
        law_longest_match_wins(models, name, n - 1, i);
        let before = models[best_match(models, name, n - 1)->0].0@;
        lemma_ranks(key, before, models[n - 1].0@);
    } else {
        lemma_best_match(models, name, n - 1);
        text::lemma_precedes_irreflexive(key);
        if best_match(models, name, n - 1) is Some {
            lemma_ranks(models[best_match(models, name, n - 1)->0].0@, key, key);
        }
    }
}

/// What order the entries are in makes no difference, as long as no two have the same key.
pub proof fn law_the_order_makes_no_difference<N>(
    models: Seq<(String, Entry<N>)>,
    others: Seq<(String, Entry<N>)>,
    name: Seq<char>,
)
    requires
        models.to_set() == others.to_set(),
        forall|i: int, j: int|
            0 <= i < models.len() && 0 <= j < models.len() && (#[trigger] models[i]).0@ == (
            #[trigger] models[j]).0@ ==> models[i] == models[j],
    ensures
        match best_match(models, name, models.len() as int) {
            Some(i) => best_match(others, name, others.len() as int) matches Some(j) && others[j]
                == models[i],
            None => best_match(others, name, others.len() as int) is None,
        },
{
    let n = models.len() as int;
    let m = others.len() as int;
    lemma_best_match(models, name, n);
    lemma_best_match(others, name, m);
    if let Some(i) = best_match(models, name, n) {
        assert(models.to_set().contains(models[i]));
        let k = choose|k: int| 0 <= k < m && others[k] == models[i];
        law_longest_match_wins(others, name, m, k);
        let j = best_match(others, name, m)->0;
        assert(others.to_set().contains(others[j]));
        let h = choose|h: int| 0 <= h < n && models[h] == others[j];
        law_longest_match_wins(models, name, n, h);
        text::lemma_precedes_total(models[i].0@, models[h].0@);
    } else if let Some(j) = best_match(others, name, m) {
        assert(others.to_set().contains(others[j]));
        let h = choose|h: int| 0 <= h < n && models[h] == others[j];
        law_longest_match_wins(models, name, n, h);
    }
}

/// A key that is not better than another is not better than one that is better than that.
proof fn lemma_ranks(a: Seq<char>, b: Seq<char>, c: Seq<char>)
    ensures
        !outranks(a, b) && !outranks(b, c) ==> !outranks(a, c),
        outranks(a, b) ==> !outranks(b, a),
{
    text::lemma_precedes_total(a, b);
    text::lemma_precedes_total(b, c);
    text::lemma_precedes_irreflexive(a);
    if text::precedes(b, a) && text::precedes(a, b) {
        text::lemma_precedes_transitive(a, b, a);
    }
    if text::precedes(c, a) {
        if text::precedes(a, b) {
            text::lemma_precedes_transitive(c, a, b);
        }
        if text::precedes(c, b) && text::precedes(b, c) {
            text::lemma_precedes_irreflexive(c);
            text::lemma_precedes_transitive(c, b, c);
        }
    }
}

proof fn lemma_best_match<N>(models: Seq<(String, Entry<N>)>, name: Seq<char>, n: int)
    requires
        n <= models.len(),
    ensures
        best_match(models, name, n) is Some ==> 0 <= best_match(models, name, n)->0 < n
            && text::contains(name, models[best_match(models, name, n)->0].0@),
    decreases n,
{
    if n > 0 {
        lemma_best_match(models, name, n - 1);
    }
}

/// How an entry samples: at its temperature, with its other numbers or what stands for them where it
/// has none, or greedily where it has no temperature.
pub proof fn law_an_entry_says_how_to_sample<N>(e: Entry<N>, one: N, zero: N)
    ensures
        e.temperature is None <==> e.on_wire(one, zero) is Greedy,
        e.on_wire(one, zero) matches WireSampling::Temperature {
            temperature,
            top_k,
            top_p,
            min_p,
            seed,
            ..
        } ==> {
            &&& e.temperature == Some(temperature)
            &&& e.top_k matches Some(k) ==> top_k == k
            &&& e.top_k is None ==> top_k == 40
            &&& e.seed matches Some(s) ==> seed == s
            &&& e.seed is None ==> seed == 0
            &&& top_p == one && min_p == zero
        },
{
}

/// The penalties of a sampling, whichever it is.
pub open spec fn penalties_of<N>(s: WireSampling<N>) -> WirePenalties<N> {
    match s {
        WireSampling::Greedy { penalties } => penalties,
        WireSampling::Temperature { penalties, .. } => penalties,
    }
}

/// An entry's penalties apply whatever its temperature: all four of its numbers reach the sampling
/// unchanged.
pub proof fn law_an_entrys_penalties_apply<N>(e: Entry<N>, one: N, zero: N)
    ensures
        penalties_of(e.on_wire(one, zero)).last_n == e.penalty_last_n,
        penalties_of(e.on_wire(one, zero)).repeat == e.repeat_penalty,
        penalties_of(e.on_wire(one, zero)).freq == e.frequency_penalty,
        penalties_of(e.on_wire(one, zero)).present == e.presence_penalty,
        e.on_wire(one, zero) matches WireSampling::Greedy { penalties } ==> penalties.last_n
            == e.penalty_last_n && penalties.repeat == e.repeat_penalty && penalties.freq
            == e.frequency_penalty && penalties.present == e.presence_penalty,
        e.on_wire(one, zero) matches WireSampling::Temperature { penalties, .. }
            ==> penalties.last_n == e.penalty_last_n && penalties.repeat == e.repeat_penalty
            && penalties.freq == e.frequency_penalty && penalties.present == e.presence_penalty,
{
}

/// Which entry a model gets: the best of those whose key is a part of its file's name, the default
/// where none is, and none at all where the path names no file.
pub proof fn law_which_entry_a_model_gets<N>(settings: ModelSettings<N>, path: Seq<char>, i: int)
    ensures
        base_name(path) is None ==> settings.entry(path) is None,
        base_name(path) matches Some(name) && (forall|j: int|
            0 <= j < settings.models@.len() ==> !text::contains(
                name,
                (#[trigger] settings.models@[j]).0@,
            )) ==> settings.entry(path) == settings.default,
        base_name(path) matches Some(name) && 0 <= i < settings.models@.len() && text::contains(
            name,
            settings.models@[i].0@,
        ) && (forall|j: int|
            0 <= j < settings.models@.len() && j != i && text::contains(
                name,
                (#[trigger] settings.models@[j]).0@,
            ) ==> outranks(settings.models@[i].0@, settings.models@[j].0@)) ==> settings.entry(path)
            == Some(settings.models@[i].1),
{
    if let Some(name) = base_name(path) {
        let models = settings.models@;
        let n = models.len() as int;
        lemma_best_match(models, name, n);
        if 0 <= i < n && text::contains(name, models[i].0@) && (forall|j: int|
            0 <= j < n && j != i && text::contains(name, (#[trigger] models[j]).0@) ==> outranks(
                models[i].0@,
                models[j].0@,
            )) {
            law_longest_match_wins(models, name, n, i);
            let b = best_match(models, name, n)->0;
            if b != i {
                assert(outranks(models[i].0@, models[b].0@));
            }
        }
    }
}

/// A longer key outranks a shorter one, and of two that are equally long the later one does.
pub proof fn law_how_keys_rank(a: Seq<char>, b: Seq<char>)
    ensures
        text::byte_len(a) > text::byte_len(b) ==> outranks(a, b) && !outranks(b, a),
        text::byte_len(a) == text::byte_len(b) && text::precedes(b, a) ==> outranks(a, b)
            && !outranks(b, a),
        a != b ==> outranks(a, b) || outranks(b, a),
        !outranks(a, a),
{
    text::lemma_precedes_total(a, b);
    text::lemma_precedes_irreflexive(a);
    lemma_ranks(a, b, a);
    lemma_ranks(b, a, b);
}

/// A name without a slash, that is neither one dot nor two, is the name of a file, whatever directory
/// it is in; slashes and single dots behind it count for nothing. Nothing else names one.
pub proof fn law_names_of_files(dir: Seq<char>, name: Seq<char>)
    ensures
        name.len() > 0 && !name.contains('/') && name != seq!['.'] && name != seq!['.', '.'] ==> {
            &&& base_name(name) == Some(name)
            &&& base_name(dir + seq!['/'] + name) == Some(name)
        },
        base_name(dir + seq!['/']) == base_name(dir),
        base_name(dir + seq!['/'] + seq!['.']) == base_name(dir),
        base_name(dir + seq!['/'] + seq!['.', '.']) is None,
        base_name(Seq::empty()) is None,
        base_name(seq!['.']) is None,
        base_name(seq!['.', '.']) is None,
{
    let slash = seq!['/'];
    assert((dir + slash).drop_last() =~= dir);
    lemma_last_slash(dir, seq!['.']);
    lemma_last_slash(dir, seq!['.', '.']);
    lemma_no_slash(seq!['.']);
    lemma_no_slash(seq!['.', '.']);
    assert(seq!['.', '.'] != seq!['.']) by {
        assert(seq!['.', '.'].len() != seq!['.'].len());
    }
    if name.len() > 0 && !name.contains('/') {
        lemma_last_slash(dir, name);
        lemma_no_slash(name);
        assert(name.last() != '/') by {
            assert(name.contains(name.last()));
        }
    }
}

proof fn lemma_no_slash(name: Seq<char>)
    requires
        !name.contains('/'),
    ensures
        text::last_index_of(name, seq!['/']) is None,
{
    text::law_first_and_last(name, seq!['/'], 0);
    assert forall|i: int| !#[trigger] text::occurs_at(name, seq!['/'], i) by {
        if text::occurs_at(name, seq!['/'], i) {
            assert(name.subrange(i, i + 1)[0] == '/');
            assert(name[i] == '/');
        }
    }
}

proof fn lemma_last_slash(dir: Seq<char>, name: Seq<char>)
    requires
        !name.contains('/'),
    ensures
        text::last_index_of(dir + seq!['/'] + name, seq!['/']) == Some(dir.len() as int),
        (dir + seq!['/'] + name).skip(dir.len() as int + 1) == name,
        (dir + seq!['/'] + name).take(dir.len() as int) == dir,
{
    let slash = seq!['/'];
    let s = dir + slash + name;
    assert(s.skip(dir.len() as int + 1) =~= name);
    assert(s.take(dir.len() as int) =~= dir);
    assert(s.subrange(dir.len() as int, dir.len() as int + 1) =~= slash);
    assert forall|j: int| dir.len() < j implies !#[trigger] text::occurs_at(s, slash, j) by {
        if text::occurs_at(s, slash, j) {
            assert(s.subrange(j, j + 1)[0] == '/');
            assert(name[j - dir.len() - 1] == '/');
        }
    }
    text::law_first_and_last(s, slash, dir.len() as int);
}

/// What was asked for comes before what is configured; what is configured is that of the model's
/// entry; and without either nothing is set.
pub proof fn law_what_was_asked_for_comes_first<N: Copy>(
    settings: ModelSettings<N>,
    asked: Option<i32>,
    path: &str,
    r: Option<i32>,
)
    requires
        call_ensures(
            ModelSettings::<N>::max_new_tokens_or_configured,
            (&settings, asked, path),
            r,
        ),
    ensures
        asked is Some ==> r == asked,
        asked is None && settings.entry(path@) is Some ==> r == settings.entry(
            path@,
        )->0.max_new_tokens,
        asked is None && settings.entry(path@) is None ==> r is None,
{
}

/// The sampling that was asked for comes before the configured one; that of the model's entry is
/// taken else; and without either the most likely token is, with no penalties.
pub proof fn law_sampling_that_was_asked_for_comes_first<N: Copy>(
    settings: ModelSettings<N>,
    asked: Option<WireSampling<N>>,
    path: &str,
    one: N,
    zero: N,
    r: WireSampling<N>,
)
    requires
        call_ensures(
            ModelSettings::<N>::sampling_or_configured,
            (&settings, asked, path, one, zero),
            r,
        ),
    ensures
        asked matches Some(s) ==> r == s,
        asked is None && settings.entry(path@) is Some ==> penalties_of(r).last_n == settings.entry(
            path@,
        )->0.penalty_last_n && (r is Greedy <==> settings.entry(path@)->0.temperature is None),
        asked is None && settings.entry(path@) is None ==> r is Greedy && penalties_of(r).last_n == 0
            && penalties_of(r).repeat == one && penalties_of(r).freq == zero && penalties_of(
            r,
        ).present == zero,
{
    if settings.entry(path@) is Some {
        law_an_entrys_penalties_apply(settings.entry(path@)->0, one, zero);
        law_an_entry_says_how_to_sample(settings.entry(path@)->0, one, zero);
    }
}

/// Settings that are not there are none at all; those that were read are what was read; and what
/// could not be read or understood is an error that names the file and the cause.
pub proof fn law_what_settings_come_to<N: Copy>(
    path: &str,
    read: SettingsFile<N>,
    r: Result<ModelSettings<N>, SettingsError>,
)
    requires
        call_ensures(ModelSettings::<N>::settle, (path, read), r),
    ensures
        r is Ok <==> read is Missing || read is Read,
        read is Missing ==> r->Ok_0.default is None && r->Ok_0.models@.len() == 0,
        read is Read ==> r->Ok_0 == read->Read_0,
        read is Unreadable ==> r->Err_0 is Io && r->Err_0->Io_path@ == path@ && r->Err_0->Io_cause@
            == read->Unreadable_0@,
        read is Malformed ==> r->Err_0 is Parse && r->Err_0->Parse_path@ == path@
            && r->Err_0->Parse_cause@ == read->Malformed_0@,
{
}

/// An error tells which file it was and what was wrong with it.
pub proof fn law_settings_errors_tell_their_cause(path: String, cause: String)
    ensures
        text::contains((SettingsError::Io { path, cause }).words(), path@),
        text::contains((SettingsError::Io { path, cause }).words(), cause@),
        text::contains((SettingsError::Parse { path, cause }).words(), path@),
        text::contains((SettingsError::Parse { path, cause }).words(), cause@),
{
    let none = Seq::<char>::empty();
    let link = ": "@;
    text::lemma_named("reading "@ + path@ + link, cause@, none);
    text::lemma_named("parsing "@ + path@ + link, cause@, none);
    text::lemma_named("reading "@, path@, link + cause@);
    text::lemma_named("parsing "@, path@, link + cause@);
    assert((SettingsError::Io { path, cause }).words() =~= "reading "@ + path@ + (link + cause@));
    assert((SettingsError::Parse { path, cause }).words() =~= "parsing "@ + path@ + (link
        + cause@));
}

} // verus!
