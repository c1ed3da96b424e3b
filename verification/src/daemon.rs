//! The daemon's own decisions: what it counts, what it tells about itself, and which model it
//! evicts to make room for another.

use vstd::prelude::*;
use crate::protocol::{ConversationResponse, GenerateResponse, ModelStatus, StatusResponse};
use crate::registry;
use crate::registry::{LoadError, Mapping, ModelHandle, ModelId, RegistryView, Residency, SwapRegistry};
use crate::text;

verus! {

/// What was counted for a model since it became resident.
#[derive(Debug, Clone, Copy, PartialEq, Eq, Structural)]
pub struct ModelStats {
    pub requests_served: u64,
    pub tokens_generated: u64,
    pub last_used_unix_secs: u64,
}

/// A loaded model.
#[derive(Debug)]
pub struct Loaded {
    pub path: String,
    pub id: ModelId,
    /// How many conversations hold it.
    pub pins: usize,
    /// Keeps it resident.
    pub handle: ModelHandle,
}

/// The daemon's state, but for the models themselves.
#[derive(Debug)]
pub struct DaemonState {
    pub registry: SwapRegistry,
    pub sessions: Vec<Loaded>,
    pub model_stats: Vec<(String, ModelStats)>,
    pub budget_ppm: u32,
    pub requests_served: u64,
    pub requests_failed: u64,
    pub total_tokens_generated: u64,
}

/// Where the counters of a path are, at or after `from`.
pub open spec fn stats_index(stats: Seq<(String, ModelStats)>, path: Seq<char>, from: int) -> Option<
    int,
>
    decreases stats.len() - from,
{
    if from < 0 || from >= stats.len() {
        None
    } else if stats[from].0@ == path {
        Some(from)
    } else {
        stats_index(stats, path, from + 1)
    }
}

/// The counters of a path; zero where nothing was counted.
pub open spec fn stats_of(stats: Seq<(String, ModelStats)>, path: Seq<char>) -> ModelStats {
    match stats_index(stats, path, 0) {
        Some(i) => stats[i].1,
        None => ModelStats { requests_served: 0, tokens_generated: 0, last_used_unix_secs: 0 },
    }
}

/// After a request to a path was served.
pub open spec fn counted(s: ModelStats, tokens: int, now: u64) -> ModelStats {
    ModelStats {
        requests_served: (s.requests_served + 1) as u64,
        tokens_generated: (s.tokens_generated + tokens) as u64,
        last_used_unix_secs: now,
    }
}

/// `after` is `before` with one outcome counted: a request to `path` that was served and generated
/// this many tokens at `now`, or one that failed.
pub open spec fn outcome_counted(
    before: DaemonState,
    after: DaemonState,
    path: Seq<char>,
    tokens_generated: Option<usize>,
    now: u64,
) -> bool {
    &&& after.registry == before.registry
    &&& after.sessions == before.sessions
    &&& after.budget_ppm == before.budget_ppm
    &&& match tokens_generated {
        Some(tokens) => {
            &&& after.requests_served == before.requests_served + 1
            &&& after.requests_failed == before.requests_failed
            &&& after.total_tokens_generated == before.total_tokens_generated + tokens
            &&& forall|p: Seq<char>| #[trigger]
                stats_of(after.model_stats@, p) == if p == path {
                    counted(stats_of(before.model_stats@, p), tokens as int, now)
                } else {
                    stats_of(before.model_stats@, p)
                }
        },
        None => {
            &&& after.requests_served == before.requests_served
            &&& after.requests_failed == before.requests_failed + 1
            &&& after.total_tokens_generated == before.total_tokens_generated
            &&& after.model_stats == before.model_stats
        },
    }
}

/// Where the session of a model is, at or after `from`.
pub open spec fn session_index(sessions: Seq<Loaded>, id: ModelId, from: int) -> Option<int>
    decreases sessions.len() - from,
{
    if from < 0 || from >= sessions.len() {
        None
    } else if sessions[from].id == id {
        Some(from)
    } else {
        session_index(sessions, id, from + 1)
    }
}

/// Where the session of a path is, at or after `from`.
pub open spec fn loaded_index(sessions: Seq<Loaded>, path: Seq<char>, from: int) -> Option<int>
    decreases sessions.len() - from,
{
    if from < 0 || from >= sessions.len() {
        None
    } else if sessions[from].path@ == path {
        Some(from)
    } else {
        loaded_index(sessions, path, from + 1)
    }
}

/// The device memory that a model takes up, where that was measured.
pub open spec fn device_bytes_of(r: RegistryView, id: ModelId) -> Option<u64> {
    match r.find_id(id) {
        Some(i) => r.residents[i].device_bytes,
        None => None,
    }
}

/// A model can be evicted if it has a session that no conversation holds and, where only device
/// memory is short, if it takes up some.
pub open spec fn evictable(
    sessions: Seq<Loaded>,
    r: RegistryView,
    id: ModelId,
    device_only: bool,
) -> bool {
    match session_index(sessions, id, 0) {
        Some(i) => sessions[i].pins == 0 && !(device_only && device_bytes_of(r, id) is None),
        None => false,
    }
}

/// The first model at or after `from`, in the order of use, that can be evicted.
pub open spec fn victim(
    sessions: Seq<Loaded>,
    r: RegistryView,
    device_only: bool,
    from: int,
) -> Option<ModelId>
    decreases r.residents.len() - from,
{
    if from < 0 || from >= r.residents.len() {
        None
    } else if evictable(sessions, r, r.residents[from].id, device_only) {
        Some(r.residents[from].id)
    } else {
        victim(sessions, r, device_only, from + 1)
    }
}

/// `after` is `before` without the model `id`, which was loaded from `path`: its session, its mapping
/// and its counters are gone.
pub open spec fn model_evicted(
    before: DaemonState,
    after: DaemonState,
    id: ModelId,
    path: Seq<char>,
) -> bool {
    let at = session_index(before.sessions@, id, 0)->0;
    &&& path == before.sessions@[at].path@
    &&& after.sessions@ == before.sessions@.remove(at)
    &&& after.registry@ == before.registry@.released(id).evicted(id)
    &&& after.registry@.resident(id) is None
    &&& stats_dropped(before.model_stats@, after.model_stats@, path)
    &&& after.budget_ppm == before.budget_ppm
    &&& after.requests_served == before.requests_served
    &&& after.requests_failed == before.requests_failed
    &&& after.total_tokens_generated == before.total_tokens_generated
}

/// `after` is `before` with the model of `path` used once more, and so the last to be evicted.
pub open spec fn model_touched(before: DaemonState, after: DaemonState, path: Seq<char>) -> bool {
    let k = before.registry@.find_path(path);
    &&& k is Some
    &&& after.registry@ == (RegistryView {
        residents: before.registry@.residents.remove(k->0).push(before.registry@.residents[k->0]),
        ..before.registry@
    })
    &&& after.sessions == before.sessions
    &&& after.model_stats == before.model_stats
    &&& after.budget_ppm == before.budget_ppm
    &&& after.requests_served == before.requests_served
    &&& after.requests_failed == before.requests_failed
    &&& after.total_tokens_generated == before.total_tokens_generated
}

/// What it takes to have a model loaded.
#[derive(Debug)]
pub enum LoadStep {
    /// It is loaded.
    Ready,
    /// The model of this path was evicted to make room; ask again.
    Evicted(String),
    /// Load it now.
    Load,
}

/// What it takes to make room for a model.
#[derive(Debug)]
pub enum RoomStep {
    /// It fits, or there is nothing that could be evicted: it is loaded anyway.
    Proceed,
    /// This model was evicted; measure again.
    Evicted(String),
}

impl DaemonState {
    /// The registry and the sessions agree: each session is of a resident model, no model has two,
    /// and exactly the models with a session, or being loaded, are held.
    pub open spec fn wf(self, loading: Option<ModelId>) -> bool {
        &&& self.registry@.wf()
        &&& forall|i: int|
            0 <= i < self.sessions@.len() ==> {
                &&& (#[trigger] self.sessions@[i]).handle@.id == self.sessions@[i].id
                &&& self.registry@.resident(self.sessions@[i].id) is Some
                &&& self.registry@.resident(self.sessions@[i].id)->0.path == self.sessions@[i].path@
            }
        &&& forall|i: int, j: int|
            0 <= i < j < self.sessions@.len() ==> (#[trigger] self.sessions@[i]).id != (
            #[trigger] self.sessions@[j]).id
        &&& forall|id: ModelId|
            (#[trigger] self.registry@.resident(id)) is Some ==> self.registry@.resident(
                id,
            )->0.handles == self.holds(id, loading)
        &&& loading is Some ==> session_index(self.sessions@, loading->0, 0) is None
            && self.registry@.resident(loading->0) is Some
    }

    /// How many handles to a model the daemon has.
    pub open spec fn holds(self, id: ModelId, loading: Option<ModelId>) -> int {
        if session_index(self.sessions@, id, 0) is Some || loading == Some(id) {
            1
        } else {
            0
        }
    }

    /// `new_bytes` more fit into the host's memory, or it is not known how much there is.
    pub open spec fn host_fits(self, new_bytes: u64, host_free: Option<u64>) -> bool {
        match host_free {
            Some(free) => registry::within_budget(
                self.registry@.total_mapped(),
                new_bytes as nat,
                free as nat,
                self.budget_ppm as nat,
            ),
            None => true,
        }
    }

    /// `new_bytes` more fit into the device's memory, or there is no device.
    pub open spec fn device_fits(self, new_bytes: u64, device_free: Option<u64>) -> bool {
        match device_free {
            Some(free) => registry::within_budget(
                self.registry@.total_device(),
                new_bytes as nat,
                free as nat,
                self.budget_ppm as nat,
            ),
            None => true,
        }
    }

    /// The model to evict for `new_bytes` more, if they do not fit and there is one.
    pub open spec fn to_evict(
        self,
        new_bytes: u64,
        host_free: Option<u64>,
        device_free: Option<u64>,
    ) -> Option<ModelId> {
        let host = self.host_fits(new_bytes, host_free);
        let device = self.device_fits(new_bytes, device_free);
        if host && device {
            None
        } else {
            victim(self.sessions@, self.registry@, host && !device, 0)
        }
    }

    /// Nothing is loaded and nothing was counted.
    pub fn new(budget_ppm: u32) -> (r: Self)
        ensures
            r.registry@.residents.len() == 0,
            r.wf(None),
            r.sessions@.len() == 0,
            r.model_stats@.len() == 0,
            r.budget_ppm == budget_ppm,
            r.requests_served == 0,
            r.requests_failed == 0,
            r.total_tokens_generated == 0,
    {
        DaemonState {
            registry: SwapRegistry::new(),
            sessions: Vec::new(),
            model_stats: Vec::new(),
            budget_ppm,
            requests_served: 0,
            requests_failed: 0,
            total_tokens_generated: 0,
        }
    }

    /// Where the counters of a path are.
    fn position_of_stats(&self, path: &str) -> (r: Option<usize>)
        ensures
            match r {
                Some(i) => stats_index(self.model_stats@, path@, 0) == Some(i as int) && i
                    < self.model_stats@.len(),
                None => stats_index(self.model_stats@, path@, 0) is None,
            },
    {
        let mut i: usize = 0;
        while i < self.model_stats.len()
            invariant
                i <= self.model_stats.len(),
                stats_index(self.model_stats@, path@, 0) == stats_index(
                    self.model_stats@,
                    path@,
                    i as int,
                ),
            decreases self.model_stats.len() - i,
        {
            if text::same_text(self.model_stats[i].0.as_str(), path) {
                return Some(i);
            }
            i += 1;
        }
        None
    }

    /// The counters of a path.
    pub fn stats_for(&self, path: &str) -> (r: ModelStats)
        ensures
            r == stats_of(self.model_stats@, path@),
    {
        match self.position_of_stats(path) {
            Some(i) => self.model_stats[i].1,
            None => ModelStats { requests_served: 0, tokens_generated: 0, last_used_unix_secs: 0 },
        }
    }

    /// Counts a request: how many tokens it generated, or that it failed.
    pub fn record_outcome(&mut self, path: &str, tokens_generated: Option<usize>, now: u64)
        requires
            tokens_generated is Some ==> {
                &&& old(self).requests_served < u64::MAX
                &&& old(self).total_tokens_generated + tokens_generated->0 <= u64::MAX
                &&& stats_of(old(self).model_stats@, path@).requests_served < u64::MAX
                &&& stats_of(old(self).model_stats@, path@).tokens_generated + tokens_generated->0
                    <= u64::MAX
            },
            tokens_generated is None ==> old(self).requests_failed < u64::MAX,
        ensures
            outcome_counted(*old(self), *final(self), path@, tokens_generated, now),
    {
        let tokens: usize = match tokens_generated {
            Some(tokens) => tokens,
            None => {
                self.requests_failed = self.requests_failed + 1;
                return;
            },
        };
        let ghost before = self.model_stats@;
        let at: Option<usize> = self.position_of_stats(path);
        let s: ModelStats = self.stats_for(path);
        self.requests_served = self.requests_served + 1;
        self.total_tokens_generated = self.total_tokens_generated + tokens as u64;
        let new = ModelStats {
            requests_served: s.requests_served + 1,
            tokens_generated: s.tokens_generated + tokens as u64,
            last_used_unix_secs: now,
        };
        match at {
            Some(i) => {
                let key: String = self.model_stats[i].0.clone();
                self.model_stats.set(i, (key, new));
                proof {
                    lemma_stats_index(before, path@, 0);
                    assert forall|p: Seq<char>| #[trigger]
                        stats_of(self.model_stats@, p) == if p == path@ {
                            new
                        } else {
                            stats_of(before, p)
                        } by {
                        lemma_same_keys(before, self.model_stats@, p, 0);
                        lemma_stats_index(before, p, 0);
                    }
                }
            },
            None => {
                self.model_stats.push((path.to_string(), new));
                proof {
                    assert forall|p: Seq<char>| #[trigger]
                        stats_of(self.model_stats@, p) == if p == path@ {
                            new
                        } else {
                            stats_of(before, p)
                        } by {
                        lemma_one_more(before, self.model_stats@, p, 0);
                        lemma_stats_index(before, p, 0);
                    }
                }
            },
        }
    }

    /// Where the session of a model is.
    fn position_of_session(&self, id: ModelId) -> (r: Option<usize>)
        ensures
            match r {
                Some(i) => session_index(self.sessions@, id, 0) == Some(i as int) && i
                    < self.sessions@.len(),
                None => session_index(self.sessions@, id, 0) is None,
            },
    {
        let mut i: usize = 0;
        while i < self.sessions.len()
            invariant
                i <= self.sessions.len(),
                session_index(self.sessions@, id, 0) == session_index(
                    self.sessions@,
                    id,
                    i as int,
                ),
            decreases self.sessions.len() - i,
        {
            if self.sessions[i].id.0 == id.0 {
                return Some(i);
            }
            i += 1;
        }
        None
    }

    /// The path of a loaded model.
    pub fn path_for_id(&self, id: ModelId) -> (r: Option<&str>)
        ensures
            match session_index(self.sessions@, id, 0) {
                Some(i) => r is Some && r->0@ == self.sessions@[i].path@,
                None => r is None,
            },
    {
        match self.position_of_session(id) {
            Some(i) => Some(self.sessions[i].path.as_str()),
            None => None,
        }
    }

    /// The model to evict for `new_bytes` more, if they do not fit and there is one: the one used
    /// longest ago that can be.
    pub fn choose_eviction(
        &self,
        new_bytes: u64,
        host_free: Option<u64>,
        device_free: Option<u64>,
    ) -> (r: Option<ModelId>)
        requires
            self.registry@.total_mapped() <= u64::MAX,
            self.registry@.total_device() <= u64::MAX,
        ensures
            r == self.to_evict(new_bytes, host_free, device_free),
    {
        let host: bool = match self.registry.fits_within_budget(
            new_bytes,
            host_free,
            self.budget_ppm,
        ) {
            Some(fits) => fits,
            None => true,
        };
        let device: bool = match device_free {
            Some(free) => self.registry.fits_within_device_budget(new_bytes, free, self.budget_ppm),
            None => true,
        };
        if host && device {
            return None;
        }
        let device_only: bool = host && !device;
        let ids: Vec<ModelId> = self.registry.resident_ids_by_lru();
        let mut i: usize = 0;
        while i < ids.len()
            invariant
                i <= ids.len(),
                ids@ == self.registry@.ids_by_lru(),
                victim(self.sessions@, self.registry@, device_only, 0) == victim(
                    self.sessions@,
                    self.registry@,
                    device_only,
                    i as int,
                ),
                self.to_evict(new_bytes, host_free, device_free) == victim(
                    self.sessions@,
                    self.registry@,
                    device_only,
                    0,
                ),
            decreases ids.len() - i,
        {
            let id: ModelId = ids[i];
            assert(self.registry@.residents[i as int].id == id);
            match self.position_of_session(id) {
                Some(s) => {
                    if self.sessions[s].pins == 0 && !(device_only && self.registry.device_bytes(
                        id,
                    ).is_none()) {
                        return Some(id);
                    }
                },
                None => {},
            }
            i += 1;
        }
        None
    }

    /// Takes one step to make room for `new_bytes` more: evicts the model used longest ago that can
    /// be, where they do not fit and there is one.
    pub fn make_room_for(
        &mut self,
        new_bytes: u64,
        host_free: Option<u64>,
        device_free: Option<u64>,
    ) -> (r: RoomStep)
        requires
            old(self).wf(None),
            old(self).registry@.total_mapped() <= u64::MAX,
            old(self).registry@.total_device() <= u64::MAX,
        ensures
            final(self).wf(None),
            match old(self).to_evict(new_bytes, host_free, device_free) {
                None => r is Proceed && *final(self) == *old(self),
                Some(id) => r matches RoomStep::Evicted(evicted) && model_evicted(
                    *old(self),
                    *final(self),
                    id,
                    evicted@,
                ),
            },
    {
        let id: ModelId = match self.choose_eviction(new_bytes, host_free, device_free) {
            Some(id) => id,
            None => {
                return RoomStep::Proceed;
            },
        };
        proof {
            lemma_victim(
                self.sessions@,
                self.registry@,
                self.host_fits(new_bytes, host_free) && !self.device_fits(new_bytes, device_free),
                0,
            );
        }
        let at: usize = match self.position_of_session(id) {
            Some(at) => at,
            None => {
                return RoomStep::Proceed;
            },
        };
        let ghost before = *self;
        proof {
            lemma_session_index(self.sessions@, id, 0);
            lemma_evicting_a_session(*self, at as int);
        }
        let session: Loaded = self.sessions.remove(at);
        match self.position_of_stats(session.path.as_str()) {
            Some(i) => {
                self.model_stats.remove(i);
            },
            None => {},
        }
        self.registry.release(session.handle);
        let _ = self.registry.evict(id);
        proof {
            lemma_without_a_session(before, *self, at as int);
        }
        RoomStep::Evicted(session.path)
    }

    /// Where the session of a path is.
    fn position_of_loaded(&self, path: &str) -> (r: Option<usize>)
        ensures
            match r {
                Some(i) => loaded_index(self.sessions@, path@, 0) == Some(i as int) && i
                    < self.sessions@.len() && self.sessions@[i as int].path@ == path@,
                None => loaded_index(self.sessions@, path@, 0) is None,
            },
    {
        let mut i: usize = 0;
        while i < self.sessions.len()
            invariant
                i <= self.sessions.len(),
                loaded_index(self.sessions@, path@, 0) == loaded_index(
                    self.sessions@,
                    path@,
                    i as int,
                ),
            decreases self.sessions.len() - i,
        {
            if text::same_text(self.sessions[i].path.as_str(), path) {
                return Some(i);
            }
            i += 1;
        }
        None
    }

    /// Whether a path is loaded.
    pub fn is_loaded(&self, path: &str) -> (r: bool)
        ensures
            r == (loaded_index(self.sessions@, path@, 0) is Some),
    {
        self.position_of_loaded(path).is_some()
    }

    /// Counts as a use of a path that is loaded, and tells whether it is.
    pub fn touch(&mut self, path: &str) -> (r: bool)
        requires
            old(self).wf(None),
        ensures
            final(self).wf(None),
            r == (loaded_index(old(self).sessions@, path@, 0) is Some),
            !r ==> *final(self) == *old(self),
            r ==> model_touched(*old(self), *final(self), path@),
    {
        let at: usize = match self.position_of_loaded(path) {
            Some(at) => at,
            None => {
                return false;
            },
        };
        let ghost before = *self;
        let ghost v = self.registry@;
        let ghost id = self.sessions@[at as int].id;
        let ghost k = v.find_id(id)->0;
        proof {
            registry::lemma_id_index(v.residents, id, 0);
            registry::lemma_first_path(v, k, 0);
            lemma_first_session(*self, at as int, 0);
            assert(v.resident(id) is Some);
            registry::law_release_undoes_a_use(v, k);
        }
        match self.registry.reuse(path) {
            Some(handle) => {
                self.registry.release(handle);
            },
            None => {},
        }
        proof {
            assert forall|other: ModelId|
                #[trigger] self.registry@.resident(other) == v.resident(other) by {
                registry::law_a_use_holds_once_more(v, k, other);
                registry::law_a_release_holds_once_less(v.touched(k), id, other);
                if other == id {
                    registry::lemma_first_id(v, k, 0);
                }
            }
            assert forall|i: int| 0 <= i < self.sessions@.len() implies {
                &&& (#[trigger] self.sessions@[i]).handle@.id == self.sessions@[i].id
                &&& self.registry@.resident(self.sessions@[i].id) is Some
                &&& self.registry@.resident(self.sessions@[i].id)->0.path == self.sessions@[i].path@
            } by {
                assert(before.sessions@[i] == self.sessions@[i]);
            }
        }
        true
    }

    /// Says what to do next to have the model of `path` loaded, a file of `new_bytes` bytes: nothing
    /// where it is loaded, which counts as a use of it; else models are evicted, one at a time, for
    /// as long as there is no room for it and one that can go; and then it is to be loaded, be there
    /// room or not.
    pub fn ensure_loaded(
        &mut self,
        path: &str,
        new_bytes: u64,
        host_free: Option<u64>,
        device_free: Option<u64>,
    ) -> (r: LoadStep)
        requires
            old(self).wf(None),
            old(self).registry@.total_mapped() <= u64::MAX,
            old(self).registry@.total_device() <= u64::MAX,
        ensures
            final(self).wf(None),
            if loaded_index(old(self).sessions@, path@, 0) is Some {
                r is Ready && model_touched(*old(self), *final(self), path@)
            } else {
                match old(self).to_evict(new_bytes, host_free, device_free) {
                    None => r is Load && *final(self) == *old(self),
                    Some(id) => r matches LoadStep::Evicted(evicted) && model_evicted(
                        *old(self),
                        *final(self),
                        id,
                        evicted@,
                    ),
                }
            },
    {
        if self.touch(path) {
            return LoadStep::Ready;
        }
        match self.make_room_for(new_bytes, host_free, device_free) {
            RoomStep::Proceed => LoadStep::Load,
            RoomStep::Evicted(evicted) => LoadStep::Evicted(evicted),
        }
    }

    /// Maps a path that is not loaded. What is given back goes to [`DaemonState::finish_load`] when
    /// the model could be loaded, and to [`DaemonState::abandon_load`] when it could not.
    pub fn start_load<M: Fn(&str, Residency) -> Result<Mapping, LoadError>>(
        &mut self,
        path: &str,
        map: &M,
    ) -> (r: Result<ModelHandle, LoadError>)
        requires
            old(self).wf(None),
            loaded_index(old(self).sessions@, path@, 0) is None,
            old(self).registry@.next_id < u64::MAX,
            call_requires(*map, (path, Residency::Lazy)),
        ensures
            match r {
                Ok(handle) => {
                    &&& final(self).wf(Some(handle@.id))
                    &&& handle@.path == path@
                    &&& final(self).registry@.resident(handle@.id)->0.path == path@
                },
                Err(_) => final(self).wf(None),
            },
            match old(self).registry@.find_path(path@) {
                Some(i) => r is Ok && r->Ok_0@ == old(self).registry@.residents[i].handle()
                    && final(self).registry@ == old(self).registry@.touched(i),
                None => exists|out: Result<Mapping, LoadError>| #[trigger]
                    call_ensures(*map, (path, Residency::Lazy), out) && registry::loaded(
                        old(self).registry@,
                        final(self).registry@,
                        path@,
                        Residency::Lazy,
                        out,
                        r,
                    ),
            },
            final(self).sessions == old(self).sessions,
            final(self).model_stats == old(self).model_stats,
            final(self).budget_ppm == old(self).budget_ppm,
            final(self).requests_served == old(self).requests_served,
            final(self).requests_failed == old(self).requests_failed,
            final(self).total_tokens_generated == old(self).total_tokens_generated,
    {
        let ghost before = *self;
        let ghost v = self.registry@;
        proof {
            registry::lemma_path_index(v.residents, path@, 0);
            assert forall|i: int| 0 <= i < v.residents.len() implies (
            #[trigger] v.residents[i]).handles < usize::MAX by {
                registry::lemma_first_id(v, i, 0);
                assert(v.resident(v.residents[i].id) is Some);
            }
        }
        let r: Result<ModelHandle, LoadError> = self.registry.load(path, Residency::Lazy, map);
        proof {
            match &r {
                Ok(handle) => {
                    let id = handle@.id;
                    lemma_session_index(self.sessions@, id, 0);
                    match v.find_path(path@) {
                        Some(k) => {
                            registry::lemma_first_id(v, k, 0);
                            assert(v.resident(id) is Some);
                            lemma_no_session(before, path@, id);
                            assert forall|other: ModelId| #[trigger]
                                self.registry@.resident(other) == if other == id {
                                    Some(v.residents[k].held_once_more())
                                } else {
                                    v.resident(other)
                                } by {
                                registry::law_a_use_holds_once_more(v, k, other);
                            }
                            lemma_loading(before, *self, id);
                        },
                        None => {
                            let out = choose|out: Result<Mapping, LoadError>| #[trigger]
                                call_ensures(*map, (path, Residency::Lazy), out)
                                    && registry::loaded(
                                    v,
                                    self.registry@,
                                    path@,
                                    Residency::Lazy,
                                    out,
                                    r,
                                );
                            let metrics = registry::metrics_of(out->Ok_0, Residency::Lazy);
                            registry::law_a_load_adds_one(v, path@, metrics, id);
                            assert forall|other: ModelId| #[trigger]
                                self.registry@.resident(other) == if other == id {
                                    Some(self.registry@.residents.last())
                                } else {
                                    v.resident(other)
                                } by {
                                registry::law_a_load_adds_one(v, path@, metrics, other);
                            }
                            match session_index(before.sessions@, id, 0) {
                                Some(i) => {
                                    assert(v.resident(before.sessions@[i].id) is Some);
                                },
                                None => {},
                            }
                            lemma_loading(before, *self, id);
                        },
                    }
                },
                Err(_) => {
                    assert(self.registry@ == v);
                    assert forall|i: int| 0 <= i < self.sessions@.len() implies {
                        &&& (#[trigger] self.sessions@[i]).handle@.id == self.sessions@[i].id
                        &&& self.registry@.resident(self.sessions@[i].id) is Some
                        &&& self.registry@.resident(self.sessions@[i].id)->0.path
                            == self.sessions@[i].path@
                    } by {
                        assert(before.sessions@[i] == self.sessions@[i]);
                    }
                },
            }
        }
        r
    }

    /// The model behind `handle` was loaded; it takes up `device_bytes` of device memory, if any.
    pub fn finish_load(&mut self, handle: ModelHandle, device_bytes: Option<u64>)
        requires
            old(self).wf(Some(handle@.id)),
            old(self).registry@.resident(handle@.id)->0.path == handle@.path,
        ensures
            final(self).wf(None),
            final(self).registry@ == (match device_bytes {
                Some(bytes) => old(self).registry@.recorded(handle@.id, bytes),
                None => old(self).registry@,
            }),
            final(self).sessions@.len() == old(self).sessions@.len() + 1,
            final(self).sessions@.drop_last() == old(self).sessions@,
            final(self).sessions@.last().path@ == handle@.path,
            final(self).sessions@.last().id == handle@.id,
            final(self).sessions@.last().pins == 0,
            final(self).sessions@.last().handle == handle,
            final(self).model_stats == old(self).model_stats,
            final(self).budget_ppm == old(self).budget_ppm,
            final(self).requests_served == old(self).requests_served,
            final(self).requests_failed == old(self).requests_failed,
            final(self).total_tokens_generated == old(self).total_tokens_generated,
    {
        let ghost before = *self;
        let ghost v = self.registry@;
        let id: ModelId = handle.id();
        match device_bytes {
            Some(bytes) => {
                self.registry.record_device_bytes(id, bytes);
            },
            None => {},
        }
        let path: String = handle.path().to_string();
        let ghost h = handle;
        self.sessions.push(Loaded { path, id, pins: 0, handle });
        proof {
            assert forall|other: ModelId| #[trigger]
                self.registry@.resident(other) is Some <==> v.resident(other) is Some by {
                if device_bytes is Some {
                    registry::law_recording_changes_one(v, id, device_bytes->0, other);
                }
            }
            assert forall|other: ModelId| (#[trigger] self.registry@.resident(other)) is Some implies {
                &&& self.registry@.resident(other)->0.handles == self.holds(other, None)
                &&& self.registry@.resident(other)->0.path == v.resident(other)->0.path
            } by {
                if device_bytes is Some {
                    registry::law_recording_changes_one(v, id, device_bytes->0, other);
                }
                assert(v.resident(other) is Some);
                lemma_session_index(before.sessions@, other, 0);
                lemma_session_index(self.sessions@, other, 0);
                match session_index(before.sessions@, other, 0) {
                    Some(i) => {
                        assert(self.sessions@[i] == before.sessions@[i]);
                    },
                    None => {
                        match session_index(self.sessions@, other, 0) {
                            Some(i) => {
                                if i < before.sessions@.len() {
                                    assert(self.sessions@[i] == before.sessions@[i]);
                                }
                            },
                            None => {
                                if other == id {
                                    assert(self.sessions@.last().id == id);
                                }
                            },
                        }
                    },
                }
            }
            lemma_session_index(before.sessions@, id, 0);
            assert forall|i: int| 0 <= i < self.sessions@.len() implies {
                &&& (#[trigger] self.sessions@[i]).handle@.id == self.sessions@[i].id
                &&& self.registry@.resident(self.sessions@[i].id) is Some
                &&& self.registry@.resident(self.sessions@[i].id)->0.path == self.sessions@[i].path@
            } by {
                if i < before.sessions@.len() {
                    assert(self.sessions@[i] == before.sessions@[i]);
                    assert(v.resident(before.sessions@[i].id) is Some);
                } else {
                    assert(v.resident(id) is Some);
                }
            }
            assert forall|i: int, j: int| 0 <= i < j < self.sessions@.len() implies (
            #[trigger] self.sessions@[i]).id != (#[trigger] self.sessions@[j]).id by {
                assert(self.sessions@[i] == before.sessions@[i]);
                if j < before.sessions@.len() {
                    assert(self.sessions@[j] == before.sessions@[j]);
                }
            }
            if device_bytes is Some {
                registry::law_recording_changes_one(v, id, device_bytes->0, id);
            }
            assert(self.sessions@.drop_last() =~= before.sessions@);
        }
    }

    /// The model behind `handle` could not be loaded.
    pub fn abandon_load(&mut self, handle: ModelHandle)
        requires
            old(self).wf(Some(handle@.id)),
        ensures
            final(self).wf(None),
            final(self).registry@ == old(self).registry@.released(handle@.id),
            final(self).sessions == old(self).sessions,
            final(self).model_stats == old(self).model_stats,
            final(self).budget_ppm == old(self).budget_ppm,
            final(self).requests_served == old(self).requests_served,
            final(self).requests_failed == old(self).requests_failed,
            final(self).total_tokens_generated == old(self).total_tokens_generated,
    {
        let ghost before = *self;
        let ghost v = self.registry@;
        let ghost id = handle@.id;
        self.registry.release(handle);
        proof {
            registry::law_a_release_holds_once_less(v, id, id);
            assert forall|other: ModelId| (#[trigger] self.registry@.resident(other)) is Some implies
                self.registry@.resident(other)->0.handles == self.holds(other, None) by {
                registry::law_a_release_holds_once_less(v, id, other);
                assert(v.resident(other) is Some);
            }
            assert forall|i: int| 0 <= i < self.sessions@.len() implies {
                &&& (#[trigger] self.sessions@[i]).handle@.id == self.sessions@[i].id
                &&& self.registry@.resident(self.sessions@[i].id) is Some
                &&& self.registry@.resident(self.sessions@[i].id)->0.path == self.sessions@[i].path@
            } by {
                assert(before.sessions@[i] == self.sessions@[i]);
                registry::law_a_release_holds_once_less(v, id, self.sessions@[i].id);
            }
        }
    }

    /// A conversation holds a path that is loaded.
    pub fn pin(&mut self, path: &str) -> (r: bool)
        requires
            old(self).wf(None),
            match loaded_index(old(self).sessions@, path@, 0) {
                Some(i) => old(self).sessions@[i].pins < usize::MAX,
                None => true,
            },
        ensures
            final(self).wf(None),
            r == (loaded_index(old(self).sessions@, path@, 0) is Some),
            match loaded_index(old(self).sessions@, path@, 0) {
                Some(i) => pinned(*old(self), *final(self), i, old(self).sessions@[i].pins + 1),
                None => *final(self) == *old(self),
            },
    {
        match self.position_of_loaded(path) {
            Some(i) => {
                let pins: usize = self.sessions[i].pins + 1;
                self.set_pins(i, pins);
                true
            },
            None => false,
        }
    }

    /// A conversation no longer holds a path.
    pub fn unpin(&mut self, path: &str)
        requires
            old(self).wf(None),
        ensures
            final(self).wf(None),
            match loaded_index(old(self).sessions@, path@, 0) {
                Some(i) => if old(self).sessions@[i].pins > 0 {
                    pinned(*old(self), *final(self), i, old(self).sessions@[i].pins - 1)
                } else {
                    *final(self) == *old(self)
                },
                None => *final(self) == *old(self),
            },
    {
        match self.position_of_loaded(path) {
            Some(i) => {
                if self.sessions[i].pins > 0 {
                    let pins: usize = self.sessions[i].pins - 1;
                    self.set_pins(i, pins);
                }
            },
            None => {},
        }
    }

    /// Sets how many conversations hold a model.
    fn set_pins(&mut self, i: usize, pins: usize)
        requires
            old(self).wf(None),
            i < old(self).sessions@.len(),
        ensures
            final(self).wf(None),
            pinned(*old(self), *final(self), i as int, pins as int),
    {
        let ghost before = *self;
        self.sessions[i].pins = pins;
        proof {
            assert forall|id: ModelId| #[trigger] self.holds(id, None) == before.holds(id, None) by {
                lemma_same_sessions(before.sessions@, self.sessions@, id, 0);
            }
            assert forall|k: int| 0 <= k < self.sessions@.len() implies {
                &&& (#[trigger] self.sessions@[k]).handle@.id == self.sessions@[k].id
                &&& self.registry@.resident(self.sessions@[k].id) is Some
                &&& self.registry@.resident(self.sessions@[k].id)->0.path == self.sessions@[k].path@
            } by {
                assert(before.sessions@[k].id == self.sessions@[k].id);
            }
            assert forall|k: int, j: int| 0 <= k < j < self.sessions@.len() implies (
            #[trigger] self.sessions@[k]).id != (#[trigger] self.sessions@[j]).id by {
                assert(before.sessions@[k].id != before.sessions@[j].id);
            }
        }
    }

    /// What the daemon tells about itself.
    pub fn status(
        &self,
        pid: u32,
        exe_path: Option<String>,
        exe_modified_unix_secs: Option<u64>,
        uptime_secs: u64,
        gpu: Option<(u64, u64)>,
    ) -> (r: StatusResponse)
        requires
            self.registry@.total_mapped() <= usize::MAX,
        ensures
            r.pid == pid,
            r.exe_path == exe_path,
            r.exe_modified_unix_secs == exe_modified_unix_secs,
            r.uptime_secs == uptime_secs,
            r.requests_served == self.requests_served,
            r.requests_failed == self.requests_failed,
            r.total_tokens_generated == self.total_tokens_generated,
            r.resident_bytes == self.registry@.total_mapped(),
            r.gpu_free_bytes == (match gpu {
                Some((free, _)) => Some(free),
                None => None,
            }),
            r.gpu_total_bytes == (match gpu {
                Some((_, total)) => Some(total),
                None => None,
            }),
            r.models@.len() == self.sessions@.len(),
            forall|i: int|
                0 <= i < r.models@.len() ==> {
                    let s = stats_of(self.model_stats@, self.sessions@[i].path@);
                    &&& (#[trigger] r.models@[i]).path@ == self.sessions@[i].path@
                    &&& r.models@[i].requests_served == s.requests_served
                    &&& r.models@[i].tokens_generated == s.tokens_generated
                    &&& r.models@[i].last_used_unix_secs == s.last_used_unix_secs
                },
    {
        let mut models: Vec<ModelStatus> = Vec::new();
        let mut i: usize = 0;
        while i < self.sessions.len()
            invariant
                i <= self.sessions.len(),
                models@.len() == i,
                forall|j: int|
                    0 <= j < i ==> {
                        let s = stats_of(self.model_stats@, self.sessions@[j].path@);
                        &&& (#[trigger] models@[j]).path@ == self.sessions@[j].path@
                        &&& models@[j].requests_served == s.requests_served
                        &&& models@[j].tokens_generated == s.tokens_generated
                        &&& models@[j].last_used_unix_secs == s.last_used_unix_secs
                    },
            decreases self.sessions.len() - i,
        {
            let path: &String = &self.sessions[i].path;
            let s: ModelStats = self.stats_for(path.as_str());
            models.push(
                ModelStatus {
                    path: path.clone(),
                    requests_served: s.requests_served,
                    tokens_generated: s.tokens_generated,
                    last_used_unix_secs: s.last_used_unix_secs,
                },
            );
            i += 1;
        }
        let (gpu_free_bytes, gpu_total_bytes): (Option<u64>, Option<u64>) = match gpu {
            Some((free, total)) => (Some(free), Some(total)),
            None => (None, None),
        };
        StatusResponse {
            pid,
            exe_path,
            exe_modified_unix_secs,
            uptime_secs,
            requests_served: self.requests_served,
            requests_failed: self.requests_failed,
            total_tokens_generated: self.total_tokens_generated,
            resident_bytes: self.registry.mapped_bytes(),
            gpu_free_bytes,
            gpu_total_bytes,
            models,
        }
    }
}

/// It was changed how many conversations hold the model at `i`, and nothing else.
pub open spec fn pinned(before: DaemonState, after: DaemonState, i: int, pins: int) -> bool {
    &&& after.sessions@ == before.sessions@.update(
        i,
        Loaded { pins: pins as usize, ..before.sessions@[i] },
    )
    &&& after.registry == before.registry
    &&& after.model_stats == before.model_stats
    &&& after.budget_ppm == before.budget_ppm
    &&& after.requests_served == before.requests_served
    &&& after.requests_failed == before.requests_failed
    &&& after.total_tokens_generated == before.total_tokens_generated
}

/// How many tokens an answer brought, if it is not a failure.
pub open spec fn generated(response: GenerateResponse) -> Option<usize> {
    match response {
        GenerateResponse::Done { tokens_generated, .. } => Some(tokens_generated),
        GenerateResponse::Failed { .. } => None,
    }
}

/// How many tokens an answer brought, if it is not a failure.
pub fn tokens_of(response: &GenerateResponse) -> (r: Option<usize>)
    ensures
        r == generated(*response),
{
    match response {
        GenerateResponse::Done { tokens_generated, .. } => Some(*tokens_generated),
        GenerateResponse::Failed { .. } => None,
    }
}

/// How many tokens a turn brought, if the answer is one.
pub open spec fn generated_in_turn(response: ConversationResponse) -> Option<usize> {
    match response {
        ConversationResponse::Turn { tokens_generated, .. } => Some(tokens_generated),
        _ => None,
    }
}

/// How many tokens a turn brought, if the answer is one.
pub fn tokens_of_turn(response: &ConversationResponse) -> (r: Option<usize>)
    ensures
        r == generated_in_turn(*response),
{
    match response {
        ConversationResponse::Turn { tokens_generated, .. } => Some(*tokens_generated),
        _ => None,
    }
}

/// The counters of a path were dropped.
pub open spec fn stats_dropped(
    before: Seq<(String, ModelStats)>,
    after: Seq<(String, ModelStats)>,
    path: Seq<char>,
) -> bool {
    match stats_index(before, path, 0) {
        Some(i) => after == before.remove(i),
        None => after == before,
    }
}

proof fn lemma_stats_index(stats: Seq<(String, ModelStats)>, path: Seq<char>, from: int)
    requires
        0 <= from,
    ensures
        match stats_index(stats, path, from) {
            Some(i) => from <= i < stats.len() && stats[i].0@ == path,
            None => true,
        },
    decreases stats.len() - from,
{
    if from < stats.len() && stats[from].0@ != path {
        lemma_stats_index(stats, path, from + 1);
    }
}

proof fn lemma_same_keys(
    a: Seq<(String, ModelStats)>,
    b: Seq<(String, ModelStats)>,
    path: Seq<char>,
    from: int,
)
    requires
        0 <= from,
        a.len() == b.len(),
        forall|i: int| 0 <= i < a.len() ==> (#[trigger] a[i]).0@ == b[i].0@,
    ensures
        stats_index(a, path, from) == stats_index(b, path, from),
    decreases a.len() - from,
{
    if from < a.len() {
        assert(a[from].0@ == b[from].0@);
        if a[from].0@ != path {
            lemma_same_keys(a, b, path, from + 1);
        }
    }
}

proof fn lemma_one_more(
    a: Seq<(String, ModelStats)>,
    b: Seq<(String, ModelStats)>,
    path: Seq<char>,
    from: int,
)
    requires
        0 <= from <= a.len(),
        b.len() == a.len() + 1,
        forall|i: int| 0 <= i < a.len() ==> a[i] == b[i],
    ensures
        stats_index(b, path, from) == (match stats_index(a, path, from) {
            Some(i) => Some(i),
            None => if b.last().0@ == path {
                Some(a.len() as int)
            } else {
                None
            },
        }),
    decreases a.len() - from,
{
    if from < a.len() {
        if a[from].0@ != path {
            lemma_one_more(a, b, path, from + 1);
        }
    } else {
        reveal_with_fuel(stats_index, 2);
    }
}

proof fn lemma_session_index(sessions: Seq<Loaded>, id: ModelId, from: int)
    requires
        0 <= from,
    ensures
        match session_index(sessions, id, from) {
            Some(i) => from <= i < sessions.len() && sessions[i].id == id,
            None => forall|i: int| from <= i < sessions.len() ==> (#[trigger] sessions[i]).id != id,
        },
    decreases sessions.len() - from,
{
    if from < sessions.len() && sessions[from].id != id {
        lemma_session_index(sessions, id, from + 1);
    }
}

proof fn lemma_same_sessions(a: Seq<Loaded>, b: Seq<Loaded>, id: ModelId, from: int)
    requires
        0 <= from,
        a.len() == b.len(),
        forall|i: int| 0 <= i < a.len() ==> (#[trigger] a[i]).id == b[i].id,
    ensures
        session_index(a, id, from) == session_index(b, id, from),
    decreases a.len() - from,
{
    if from < a.len() {
        assert(a[from].id == b[from].id);
        if a[from].id != id {
            lemma_same_sessions(a, b, id, from + 1);
        }
    }
}

proof fn lemma_first_session(d: DaemonState, i: int, from: int)
    requires
        0 <= from <= i < d.sessions@.len(),
        forall|i: int, j: int|
            0 <= i < j < d.sessions@.len() ==> (#[trigger] d.sessions@[i]).id != (
            #[trigger] d.sessions@[j]).id,
    ensures
        session_index(d.sessions@, d.sessions@[i].id, from) == Some(i),
    decreases i - from,
{
    if from < i {
        assert(d.sessions@[from].id != d.sessions@[i].id);
        lemma_first_session(d, i, from + 1);
    }
}

/// A resident model whose path has no session has none.
proof fn lemma_no_session(d: DaemonState, path: Seq<char>, id: ModelId)
    requires
        d.wf(None),
        loaded_index(d.sessions@, path, 0) is None,
        d.registry@.resident(id) is Some,
        d.registry@.resident(id)->0.path == path,
    ensures
        session_index(d.sessions@, id, 0) is None,
{
    lemma_loaded_index(d.sessions@, path, 0);
    lemma_session_index(d.sessions@, id, 0);
}

proof fn lemma_loaded_index(sessions: Seq<Loaded>, path: Seq<char>, from: int)
    requires
        0 <= from,
        loaded_index(sessions, path, from) is None,
    ensures
        forall|i: int| from <= i < sessions.len() ==> (#[trigger] sessions[i]).path@ != path,
    decreases sessions.len() - from,
{
    if from < sessions.len() {
        lemma_loaded_index(sessions, path, from + 1);
    }
}

/// What holds of the daemon when a model without a session is held once more.
proof fn lemma_loading(d: DaemonState, e: DaemonState, id: ModelId)
    requires
        d.wf(None),
        e.sessions == d.sessions,
        e.registry@.wf(),
        session_index(d.sessions@, id, 0) is None,
        e.registry@.resident(id) is Some,
        e.registry@.resident(id)->0.handles == 1,
        forall|other: ModelId|
            other != id ==> #[trigger] e.registry@.resident(other) == d.registry@.resident(other),
    ensures
        e.wf(Some(id)),
{
    lemma_session_index(d.sessions@, id, 0);
    assert forall|i: int| 0 <= i < e.sessions@.len() implies {
        &&& (#[trigger] e.sessions@[i]).handle@.id == e.sessions@[i].id
        &&& e.registry@.resident(e.sessions@[i].id) is Some
        &&& e.registry@.resident(e.sessions@[i].id)->0.path == e.sessions@[i].path@
    } by {
        assert(d.sessions@[i].id != id);
    }
    assert forall|other: ModelId| (#[trigger] e.registry@.resident(other)) is Some implies
        e.registry@.resident(other)->0.handles == e.holds(other, Some(id)) by {
        if other != id {
            assert(d.registry@.resident(other) is Some);
        }
    }
}

/// The model of a session is held once, so that it can be evicted when the session is gone.
proof fn lemma_evicting_a_session(d: DaemonState, at: int)
    requires
        d.wf(None),
        0 <= at < d.sessions@.len(),
    ensures
        d.registry@.released(d.sessions@[at].id).eviction(d.sessions@[at].id) is Ok,
        d.sessions@[at].handle@.id == d.sessions@[at].id,
{
    let v = d.registry@;
    let id = d.sessions@[at].id;
    lemma_first_session(d, at, 0);
    assert(v.resident(id) is Some);
    registry::law_a_release_holds_once_less(v, id, id);
}

/// What holds of the daemon when the session at `at` and its model are gone.
proof fn lemma_without_a_session(d: DaemonState, e: DaemonState, at: int)
    requires
        d.wf(None),
        0 <= at < d.sessions@.len(),
        e.sessions@ == d.sessions@.remove(at),
        e.registry@ == d.registry@.released(d.sessions@[at].id).evicted(d.sessions@[at].id),
    ensures
        e.wf(None),
        e.registry@.resident(d.sessions@[at].id) is None,
{
    let id = d.sessions@[at].id;
    let v = d.registry@;
    let w = v.released(id);
    lemma_evicting_a_session(d, at);
    registry::law_a_release_holds_once_less(v, id, id);
    registry::law_an_eviction_takes_one(w, id, id);
    assert forall|other: ModelId| other != id implies #[trigger] e.registry@.resident(other)
        == v.resident(other) && e.holds(other, None) == d.holds(other, None) by {
        registry::law_a_release_holds_once_less(v, id, other);
        registry::law_an_eviction_takes_one(w, id, other);
        lemma_session_index(d.sessions@, other, 0);
        lemma_session_index(e.sessions@, other, 0);
        match session_index(d.sessions@, other, 0) {
            Some(i) => {
                let j = if i < at {
                    i
                } else {
                    i - 1
                };
                assert(e.sessions@[j] == d.sessions@[i]);
            },
            None => {
                match session_index(e.sessions@, other, 0) {
                    Some(j) => {
                        let i = if j < at {
                            j
                        } else {
                            j + 1
                        };
                        assert(e.sessions@[j] == d.sessions@[i]);
                    },
                    None => {},
                }
            },
        }
    }
    assert forall|i: int| 0 <= i < e.sessions@.len() implies {
        &&& (#[trigger] e.sessions@[i]).handle@.id == e.sessions@[i].id
        &&& e.registry@.resident(e.sessions@[i].id) is Some
        &&& e.registry@.resident(e.sessions@[i].id)->0.path == e.sessions@[i].path@
    } by {
        let j = if i < at {
            i
        } else {
            i + 1
        };
        assert(e.sessions@[i] == d.sessions@[j]);
        if j < at {
            assert(d.sessions@[j].id != d.sessions@[at].id);
        } else {
            assert(d.sessions@[at].id != d.sessions@[j].id);
        }
        assert(e.registry@.resident(e.sessions@[i].id) == v.resident(d.sessions@[j].id));
    }
    assert forall|i: int, j: int| 0 <= i < j < e.sessions@.len() implies (
    #[trigger] e.sessions@[i]).id != (#[trigger] e.sessions@[j]).id by {
        let x = if i < at {
            i
        } else {
            i + 1
        };
        let y = if j < at {
            j
        } else {
            j + 1
        };
        assert(e.sessions@[i] == d.sessions@[x]);
        assert(e.sessions@[j] == d.sessions@[y]);
    }
}

proof fn lemma_victim(sessions: Seq<Loaded>, r: RegistryView, device_only: bool, from: int)
    requires
        0 <= from,
    ensures
        match victim(sessions, r, device_only, from) {
            Some(id) => evictable(sessions, r, id, device_only),
            None => true,
        },
    decreases r.residents.len() - from,
{
    if from < r.residents.len() && !evictable(
        sessions,
        r,
        r.residents[from].id,
        device_only,
    ) {
        lemma_victim(sessions, r, device_only, from + 1);
    }
}

/// What a conversation holds is never evicted; nor, where only device memory is short, what takes
/// up none of it.
pub proof fn law_held_models_are_not_chosen(
    d: DaemonState,
    new_bytes: u64,
    host_free: Option<u64>,
    device_free: Option<u64>,
)
    ensures
        match d.to_evict(new_bytes, host_free, device_free) {
            Some(id) => {
                let s = session_index(d.sessions@, id, 0);
                &&& s is Some
                &&& d.sessions@[s->0].pins == 0
                &&& d.host_fits(new_bytes, host_free) ==> device_bytes_of(d.registry@, id) is Some
            },
            None => true,
        },
{
    lemma_victim(
        d.sessions@,
        d.registry@,
        d.host_fits(new_bytes, host_free) && !d.device_fits(new_bytes, device_free),
        0,
    );
}

/// The model that is chosen is the one used longest ago of those that can be evicted.
pub proof fn law_oldest_is_chosen(
    sessions: Seq<Loaded>,
    r: RegistryView,
    device_only: bool,
    from: int,
    i: int,
)
    requires
        0 <= from <= i < r.residents.len(),
        evictable(sessions, r, r.residents[i].id, device_only),
    ensures
        exists|k: int|
            from <= k <= i && victim(sessions, r, device_only, from) == Some(
                (#[trigger] r.residents[k]).id,
            ),
    decreases i - from,
{
    if evictable(sessions, r, r.residents[from].id, device_only) {
        assert(victim(sessions, r, device_only, from) == Some(r.residents[from].id));
    } else {
        law_oldest_is_chosen(sessions, r, device_only, from + 1, i);
        let k = choose|k: int|
            from + 1 <= k <= i && victim(sessions, r, device_only, from + 1) == Some(
                (#[trigger] r.residents[k]).id,
            );
        assert(victim(sessions, r, device_only, from) == Some(r.residents[k].id));
    }
}

/// Making room comes to an end, and takes nothing from a conversation: every eviction is of one model
/// that no conversation holds, and all others stay loaded.
pub proof fn law_making_room_comes_to_an_end(
    before: DaemonState,
    after: DaemonState,
    new_bytes: u64,
    host_free: Option<u64>,
    device_free: Option<u64>,
    path: Seq<char>,
    i: int,
)
    requires
        before.to_evict(new_bytes, host_free, device_free) is Some,
        model_evicted(
            before,
            after,
            before.to_evict(new_bytes, host_free, device_free)->0,
            path,
        ),
        0 <= i < before.sessions@.len(),
    ensures
        after.sessions@.len() == before.sessions@.len() - 1,
        before.sessions@[i].pins > 0 || before.sessions@[i].id != before.to_evict(
            new_bytes,
            host_free,
            device_free,
        )->0 ==> after.sessions@.contains(before.sessions@[i]),
{
    let id = before.to_evict(new_bytes, host_free, device_free)->0;
    law_held_models_are_not_chosen(before, new_bytes, host_free, device_free);
    lemma_session_index(before.sessions@, id, 0);
    let at = session_index(before.sessions@, id, 0)->0;
    if i != at {
        let j = if i < at {
            i
        } else {
            i - 1
        };
        assert(after.sessions@[j] == before.sessions@[i]);
    }
}

/// One outcome: whose it was, what it generated if it did not fail, and when.
pub struct Outcome {
    pub path: Seq<char>,
    pub tokens: Option<usize>,
    pub now: u64,
}

/// How many of the first `n` outcomes were served.
pub open spec fn served_of(outcomes: Seq<Outcome>, n: int) -> int
    decreases n,
{
    if n <= 0 {
        0
    } else {
        served_of(outcomes, n - 1) + if outcomes[n - 1].tokens is Some {
            1int
        } else {
            0int
        }
    }
}

/// How many tokens the first `n` outcomes generated.
pub open spec fn generated_of(outcomes: Seq<Outcome>, n: int) -> int
    decreases n,
{
    if n <= 0 {
        0
    } else {
        generated_of(outcomes, n - 1) + match outcomes[n - 1].tokens {
            Some(tokens) => tokens as int,
            None => 0,
        }
    }
}

/// The counters add up: whatever is counted, in whatever order, each outcome counts once, as served
/// or as failed, and the tokens are the sum of what the served ones generated.
pub proof fn law_counters_add_up(states: Seq<DaemonState>, outcomes: Seq<Outcome>, n: int)
    requires
        0 <= n <= outcomes.len(),
        states.len() == outcomes.len() + 1,
        forall|i: int|
            0 <= i < outcomes.len() ==> outcome_counted(
                #[trigger] states[i],
                states[i + 1],
                outcomes[i].path,
                outcomes[i].tokens,
                outcomes[i].now,
            ),
    ensures
        states[n].requests_served == states[0].requests_served + served_of(outcomes, n),
        states[n].requests_failed == states[0].requests_failed + n - served_of(outcomes, n),
        states[n].total_tokens_generated == states[0].total_tokens_generated + generated_of(
            outcomes,
            n,
        ),
    decreases n,
{
    if n > 0 {
        law_counters_add_up(states, outcomes, n - 1);
        assert(outcome_counted(
            states[n - 1],
            states[n - 1 + 1],
            outcomes[n - 1].path,
            outcomes[n - 1].tokens,
            outcomes[n - 1].now,
        ));
    }
}

/// What was counted for a path is what stands first under it; nothing stands for nothing counted.
pub proof fn law_what_was_counted(stats: Seq<(String, ModelStats)>, path: Seq<char>, i: int)
    ensures
        0 <= i < stats.len() && stats[i].0@ == path && (forall|j: int|
            0 <= j < i ==> (#[trigger] stats[j]).0@ != path) ==> stats_of(stats, path) == stats[i].1,
        (forall|j: int| 0 <= j < stats.len() ==> (#[trigger] stats[j]).0@ != path) ==> {
            let s = stats_of(stats, path);
            s.requests_served == 0 && s.tokens_generated == 0 && s.last_used_unix_secs == 0
        },
{
    lemma_stats_index(stats, path, 0);
    if 0 <= i < stats.len() && stats[i].0@ == path && (forall|j: int|
        0 <= j < i ==> (#[trigger] stats[j]).0@ != path) {
        lemma_first_stats(stats, path, 0, i);
    }
}

proof fn lemma_first_stats(stats: Seq<(String, ModelStats)>, path: Seq<char>, from: int, i: int)
    requires
        0 <= from <= i < stats.len(),
        stats[i].0@ == path,
        forall|j: int| from <= j < i ==> (#[trigger] stats[j]).0@ != path,
    ensures
        stats_index(stats, path, from) == Some(i),
    decreases i - from,
{
    if from < i {
        lemma_first_stats(stats, path, from + 1, i);
    }
}

/// An outcome counts where it belongs: a request that was served counts once, with its tokens and its
/// time, for its own path alone; one that failed counts for none. What is loaded stays as it is.
pub proof fn law_an_outcome_counts_where_it_belongs(
    before: DaemonState,
    after: DaemonState,
    path: Seq<char>,
    tokens: Option<usize>,
    now: u64,
    other: Seq<char>,
)
    requires
        outcome_counted(before, after, path, tokens, now),
        tokens is Some ==> stats_of(before.model_stats@, path).requests_served < u64::MAX
            && stats_of(before.model_stats@, path).tokens_generated + tokens->0 <= u64::MAX,
    ensures
        other != path || tokens is None ==> stats_of(after.model_stats@, other) == stats_of(
            before.model_stats@,
            other,
        ),
        tokens matches Some(n) ==> {
            let s = stats_of(before.model_stats@, path);
            let t = stats_of(after.model_stats@, path);
            &&& t.requests_served == s.requests_served + 1
            &&& t.tokens_generated == s.tokens_generated + n
            &&& t.last_used_unix_secs == now
            &&& after.requests_served == before.requests_served + 1
            &&& after.requests_failed == before.requests_failed
            &&& after.total_tokens_generated == before.total_tokens_generated + n
        },
        tokens is None ==> {
            &&& after.requests_served == before.requests_served
            &&& after.requests_failed == before.requests_failed + 1
            &&& after.total_tokens_generated == before.total_tokens_generated
        },
        after.sessions@ == before.sessions@,
        after.registry@ == before.registry@,
        after.budget_ppm == before.budget_ppm,
{
}

/// What an answer counts as: its tokens if it brought any, else a failure.
pub proof fn law_what_an_answer_counts_as(
    text: String,
    n: usize,
    ms: u64,
    prompt: String,
    response: ConversationResponse,
    generated_one: GenerateResponse,
)
    ensures
        generated(
            GenerateResponse::Done {
                text,
                tokens_generated: n,
                time_to_first_token_ms: ms,
                formatted_prompt: prompt,
            },
        ) == Some(n),
        generated(generated_one) is None <==> generated_one is Failed,
        generated_in_turn(response) is Some <==> response is Turn,
        response is Turn ==> generated_in_turn(response) == Some(response->tokens_generated),
{
}

/// A model can be evicted if its session is held by no conversation; where device memory alone is
/// short, only if it takes up some of it; and never without a session.
pub proof fn law_what_can_be_evicted(
    sessions: Seq<Loaded>,
    r: RegistryView,
    i: int,
    k: int,
    id: ModelId,
    device_only: bool,
)
    requires
        r.wf(),
        0 <= k < r.residents.len(),
        forall|a: int, b: int|
            0 <= a < b < sessions.len() ==> (#[trigger] sessions[a]).id != (
            #[trigger] sessions[b]).id,
    ensures
        0 <= i < sessions.len() && sessions[i].id == r.residents[k].id ==> (evictable(
            sessions,
            r,
            sessions[i].id,
            device_only,
        ) <==> sessions[i].pins == 0 && (!device_only || r.residents[k].device_bytes is Some)),
        (forall|a: int| 0 <= a < sessions.len() ==> (#[trigger] sessions[a]).id != id)
            ==> !evictable(sessions, r, id, device_only),
{
    if 0 <= i < sessions.len() {
        lemma_the_session_of(sessions, i, 0);
    }
    lemma_session_index(sessions, id, 0);
    registry::lemma_first_id(r, k, 0);
}

proof fn lemma_the_session_of(sessions: Seq<Loaded>, i: int, from: int)
    requires
        0 <= from <= i < sessions.len(),
        forall|a: int, b: int|
            0 <= a < b < sessions.len() ==> (#[trigger] sessions[a]).id != (
            #[trigger] sessions[b]).id,
    ensures
        session_index(sessions, sessions[i].id, from) == Some(i),
    decreases i - from,
{
    if from < i {
        lemma_the_session_of(sessions, i, from + 1);
    }
}

/// Memory that is not known of does not keep a model out; memory that is, does so by the budget that
/// what is loaded and the new model share.
pub proof fn law_when_a_model_fits(d: DaemonState, new_bytes: u64, free: u64)
    ensures
        d.host_fits(new_bytes, None),
        d.device_fits(new_bytes, None),
        d.host_fits(new_bytes, Some(free)) <==> 1_000_000 * (d.registry@.total_mapped() + new_bytes)
            <= d.budget_ppm * (free + d.registry@.total_mapped()),
        d.device_fits(new_bytes, Some(free)) <==> 1_000_000 * (d.registry@.total_device()
            + new_bytes) <= d.budget_ppm * (free + d.registry@.total_device()),
{
    registry::law_the_budget_is_a_share(
        d.registry@.total_mapped(),
        new_bytes as nat,
        free as nat,
        d.budget_ppm as nat,
        0,
        0,
        0,
    );
    registry::law_the_budget_is_a_share(
        d.registry@.total_device(),
        new_bytes as nat,
        free as nat,
        d.budget_ppm as nat,
        0,
        0,
        0,
    );
}

/// Nothing is evicted for what fits; and where something does not fit and a model can be evicted, one
/// is: where the device alone is short, one that takes up some of its memory.
pub proof fn law_when_something_is_evicted(
    d: DaemonState,
    new_bytes: u64,
    host_free: Option<u64>,
    device_free: Option<u64>,
    k: int,
)
    ensures
        d.host_fits(new_bytes, host_free) && d.device_fits(new_bytes, device_free) ==> d.to_evict(
            new_bytes,
            host_free,
            device_free,
        ) is None,
        0 <= k < d.registry@.residents.len() && !d.host_fits(new_bytes, host_free) && evictable(
            d.sessions@,
            d.registry@,
            d.registry@.residents[k].id,
            false,
        ) ==> d.to_evict(new_bytes, host_free, device_free) is Some,
        0 <= k < d.registry@.residents.len() && d.host_fits(new_bytes, host_free) && !d.device_fits(
            new_bytes,
            device_free,
        ) && evictable(d.sessions@, d.registry@, d.registry@.residents[k].id, true)
            ==> d.to_evict(new_bytes, host_free, device_free) is Some,
        (forall|j: int|
            0 <= j < d.registry@.residents.len() ==> !evictable(
                d.sessions@,
                d.registry@,
                (#[trigger] d.registry@.residents[j]).id,
                d.host_fits(new_bytes, host_free),
            )) ==> d.to_evict(new_bytes, host_free, device_free) is None,
{
    let host = d.host_fits(new_bytes, host_free);
    let device_only = host && !d.device_fits(new_bytes, device_free);
    if 0 <= k < d.registry@.residents.len() && evictable(
        d.sessions@,
        d.registry@,
        d.registry@.residents[k].id,
        device_only,
    ) {
        law_oldest_is_chosen(d.sessions@, d.registry@, device_only, 0, k);
    }
    if forall|j: int|
        0 <= j < d.registry@.residents.len() ==> !evictable(
            d.sessions@,
            d.registry@,
            (#[trigger] d.registry@.residents[j]).id,
            host,
        ) {
        lemma_no_victim(d.sessions@, d.registry@, host, 0);
    }
}

proof fn lemma_no_victim(sessions: Seq<Loaded>, r: RegistryView, device_only: bool, from: int)
    requires
        0 <= from,
        forall|j: int|
            0 <= j < r.residents.len() ==> !evictable(
                sessions,
                r,
                (#[trigger] r.residents[j]).id,
                device_only,
            ),
    ensures
        victim(sessions, r, device_only, from) is None,
    decreases r.residents.len() - from,
{
    if from < r.residents.len() {
        lemma_no_victim(sessions, r, device_only, from + 1);
    }
}

/// A model that is evicted is gone, and it alone: its session, which was held by nobody else, its
/// mapping, and what was counted for it; what was counted in all stays.
pub proof fn law_what_an_eviction_takes_away(
    before: DaemonState,
    after: DaemonState,
    id: ModelId,
    path: Seq<char>,
    other: Seq<char>,
)
    requires
        model_evicted(before, after, id, path),
        session_index(before.sessions@, id, 0) is Some,
        forall|a: int, b: int|
            0 <= a < b < before.sessions@.len() ==> (#[trigger] before.sessions@[a]).id != (
            #[trigger] before.sessions@[b]).id,
    ensures
        after.sessions@.len() == before.sessions@.len() - 1,
        forall|i: int| 0 <= i < after.sessions@.len() ==> (#[trigger] after.sessions@[i]).id != id,
        after.registry@.resident(id) is None,
        other != path ==> stats_of(after.model_stats@, other) == stats_of(
            before.model_stats@,
            other,
        ),
        (forall|i: int, j: int|
            0 <= i < j < before.model_stats@.len() ==> (#[trigger] before.model_stats@[i]).0@ != (
            #[trigger] before.model_stats@[j]).0@) ==> stats_of(
            after.model_stats@,
            path,
        ).requests_served == 0,
        after.requests_served == before.requests_served,
        after.requests_failed == before.requests_failed,
        after.total_tokens_generated == before.total_tokens_generated,
        after.budget_ppm == before.budget_ppm,
{
    lemma_session_index(before.sessions@, id, 0);
    let at = session_index(before.sessions@, id, 0)->0;
    assert forall|i: int| 0 <= i < after.sessions@.len() implies (#[trigger] after.sessions@[i]).id
        != id by {
        let j = if i < at {
            i
        } else {
            i + 1
        };
        assert(after.sessions@[i] == before.sessions@[j]);
        assert(before.sessions@[at].id == id);
    }
    lemma_stats_index(before.model_stats@, path, 0);
    match stats_index(before.model_stats@, path, 0) {
        Some(k) => {
            if other != path {
                lemma_removed_stats(before.model_stats@, k, other, 0);
            }
            if forall|i: int, j: int|
                0 <= i < j < before.model_stats@.len() ==> (#[trigger] before.model_stats@[i]).0@
                    != (#[trigger] before.model_stats@[j]).0@ {
                assert forall|i: int| 0 <= i < after.model_stats@.len() implies (
                #[trigger] after.model_stats@[i]).0@ != path by {
                    let j = if i < k {
                        i
                    } else {
                        i + 1
                    };
                    assert(after.model_stats@[i] == before.model_stats@[j]);
                    assert(before.model_stats@[k].0@ == path);
                }
                law_what_was_counted(after.model_stats@, path, 0);
            }
        },
        None => {},
    }
}

proof fn lemma_removed_stats(stats: Seq<(String, ModelStats)>, k: int, other: Seq<char>, from: int)
    requires
        0 <= from <= stats.len(),
        0 <= k < stats.len(),
        stats[k].0@ != other,
    ensures
        ({
            let fewer = stats.remove(k);
            let found = stats_index(stats, other, from);
            let after = stats_index(
                fewer,
                other,
                if from <= k {
                    from
                } else {
                    from - 1
                },
            );
            &&& found is Some <==> after is Some
            &&& found is Some ==> stats[found->0].1 == fewer[after->0].1
        }),
    decreases stats.len() - from,
{
    let fewer = stats.remove(k);
    if from < stats.len() {
        if from == k {
            lemma_removed_stats(stats, k, other, from + 1);
        } else {
            let at = if from < k {
                from
            } else {
                from - 1
            };
            assert(fewer[at] == stats[from]);
            if stats[from].0@ != other {
                lemma_removed_stats(stats, k, other, from + 1);
            }
        }
    }
}

/// A model that is used is the last to be evicted from then on; the others keep their order, and
/// nothing else changes.
pub proof fn law_a_use_comes_last(before: DaemonState, after: DaemonState, path: Seq<char>, i: int)
    requires
        model_touched(before, after, path),
    ensures
        after.registry@.residents.len() == before.registry@.residents.len(),
        after.registry@.residents.last().path == path,
        ({
            let k = before.registry@.find_path(path)->0;
            &&& 0 <= i < k ==> after.registry@.residents[i] == before.registry@.residents[i]
            &&& k <= i < before.registry@.residents.len() - 1 ==> after.registry@.residents[i]
                == before.registry@.residents[i + 1]
        }),
        after.sessions@ == before.sessions@,
        after.model_stats@ == before.model_stats@,
        after.requests_served == before.requests_served,
        after.requests_failed == before.requests_failed,
        after.total_tokens_generated == before.total_tokens_generated,
{
    registry::lemma_path_index(before.registry@.residents, path, 0);
}

/// A session is found by its path or by its model wherever there is one.
pub proof fn law_sessions_are_found(sessions: Seq<Loaded>, path: Seq<char>, id: ModelId)
    ensures
        loaded_index(sessions, path, 0) is Some <==> exists|i: int|
            0 <= i < sessions.len() && (#[trigger] sessions[i]).path@ == path,
        loaded_index(sessions, path, 0) matches Some(i) ==> 0 <= i < sessions.len()
            && sessions[i].path@ == path,
        session_index(sessions, id, 0) is Some <==> exists|i: int|
            0 <= i < sessions.len() && (#[trigger] sessions[i]).id == id,
        session_index(sessions, id, 0) matches Some(i) ==> 0 <= i < sessions.len()
            && sessions[i].id == id,
{
    lemma_session_index(sessions, id, 0);
    lemma_some_loaded(sessions, path, 0);
}

proof fn lemma_some_loaded(sessions: Seq<Loaded>, path: Seq<char>, from: int)
    requires
        0 <= from,
    ensures
        match loaded_index(sessions, path, from) {
            Some(i) => from <= i < sessions.len() && sessions[i].path@ == path,
            None => forall|i: int|
                from <= i < sessions.len() ==> (#[trigger] sessions[i]).path@ != path,
        },
    decreases sessions.len() - from,
{
    if from < sessions.len() && sessions[from].path@ != path {
        lemma_some_loaded(sessions, path, from + 1);
    }
}

/// How many conversations hold a model is changed for that model alone; a conversation that takes
/// hold of a model and lets go of it again leaves everything as it was.
pub proof fn law_holding_changes_one(
    before: DaemonState,
    held: DaemonState,
    after: DaemonState,
    i: int,
    j: int,
)
    requires
        0 <= i < before.sessions@.len(),
        before.sessions@[i].pins < usize::MAX,
        pinned(before, held, i, before.sessions@[i].pins + 1),
        pinned(held, after, i, held.sessions@[i].pins - 1),
    ensures
        held.sessions@.len() == before.sessions@.len(),
        held.sessions@[i].pins == before.sessions@[i].pins + 1,
        held.sessions@[i].path == before.sessions@[i].path,
        held.sessions@[i].id == before.sessions@[i].id,
        held.sessions@[i].handle == before.sessions@[i].handle,
        0 <= j < before.sessions@.len() && j != i ==> held.sessions@[j] == before.sessions@[j],
        held.registry@ == before.registry@,
        held.model_stats@ == before.model_stats@,
        after.sessions@ == before.sessions@,
        after.registry@ == before.registry@,
        after.requests_served == before.requests_served,
        after.requests_failed == before.requests_failed,
        after.total_tokens_generated == before.total_tokens_generated,
{
    assert(after.sessions@ =~= before.sessions@);
}

/// A conversation that takes hold of a loaded model and one that lets go of it change the count of
/// that model by one, up and down, and never below none; taking hold and letting go again changes
/// nothing. What is not loaded cannot be held.
pub proof fn law_taking_hold_and_letting_go(
    d: &mut DaemonState,
    e: &mut DaemonState,
    path: &str,
    r: bool,
)
    requires
        call_ensures(DaemonState::pin, (d, path), r),
        call_ensures(DaemonState::unpin, (e, path), ()),
        old(d).wf(None),
        match loaded_index(old(d).sessions@, path@, 0) {
            Some(i) => old(d).sessions@[i].pins < usize::MAX,
            None => true,
        },
    ensures
        r <==> exists|i: int|
            0 <= i < old(d).sessions@.len() && (#[trigger] old(d).sessions@[i]).path@ == path@,
        !r ==> *final(d) == *old(d),
        r ==> {
            let i = loaded_index(old(d).sessions@, path@, 0)->0;
            &&& final(d).sessions@.len() == old(d).sessions@.len()
            &&& final(d).sessions@[i].pins == old(d).sessions@[i].pins + 1
            &&& forall|j: int|
                0 <= j < old(d).sessions@.len() && j != i ==> #[trigger] final(d).sessions@[j]
                    == old(d).sessions@[j]
        },
        loaded_index(old(e).sessions@, path@, 0) is None ==> *final(e) == *old(e),
        loaded_index(old(e).sessions@, path@, 0) matches Some(i) ==> {
            &&& final(e).sessions@.len() == old(e).sessions@.len()
            &&& final(e).sessions@[i].pins == (if old(e).sessions@[i].pins > 0 {
                old(e).sessions@[i].pins - 1
            } else {
                0
            })
        },
        r && *old(e) == *final(d) ==> final(e).sessions@ == old(d).sessions@ && final(e).registry@
            == old(d).registry@,
{
    lemma_some_loaded(old(d).sessions@, path@, 0);
    lemma_some_loaded(old(e).sessions@, path@, 0);
    if r && *old(e) == *final(d) {
        let i = loaded_index(old(d).sessions@, path@, 0)->0;
        lemma_same_paths(old(d).sessions@, final(d).sessions@, path@, 0);
        assert(final(e).sessions@ =~= old(d).sessions@);
    }
}

proof fn lemma_same_paths(a: Seq<Loaded>, b: Seq<Loaded>, path: Seq<char>, from: int)
    requires
        0 <= from,
        a.len() == b.len(),
        forall|i: int| 0 <= i < a.len() ==> (#[trigger] a[i]).path@ == b[i].path@,
    ensures
        loaded_index(a, path, from) == loaded_index(b, path, from),
    decreases a.len() - from,
{
    if from < a.len() {
        assert(a[from].path@ == b[from].path@);
        if a[from].path@ != path {
            lemma_same_paths(a, b, path, from + 1);
        }
    }
}

/// A model that was loaded has a session that nobody holds yet, behind all others, and takes up the
/// device memory that was measured.
pub proof fn law_what_a_finished_load_leaves(
    d: &mut DaemonState,
    handle: ModelHandle,
    device_bytes: Option<u64>,
)
    requires
        call_ensures(DaemonState::finish_load, (d, handle, device_bytes), ()),
        old(d).wf(Some(handle@.id)),
    ensures
        final(d).sessions@.len() == old(d).sessions@.len() + 1,
        final(d).sessions@.last().path@ == handle@.path,
        final(d).sessions@.last().id == handle@.id,
        final(d).sessions@.last().pins == 0,
        forall|i: int|
            0 <= i < old(d).sessions@.len() ==> #[trigger] final(d).sessions@[i]
                == old(d).sessions@[i],
        device_bytes matches Some(bytes) ==> device_bytes_of(final(d).registry@, handle@.id) == Some(
            bytes,
        ),
        device_bytes is None ==> final(d).registry@ == old(d).registry@,
        final(d).requests_served == old(d).requests_served,
        final(d).requests_failed == old(d).requests_failed,
        final(d).total_tokens_generated == old(d).total_tokens_generated,
        final(d).model_stats@ == old(d).model_stats@,
{
    assert forall|i: int| 0 <= i < old(d).sessions@.len() implies #[trigger] final(d).sessions@[i]
        == old(d).sessions@[i] by {
        assert(final(d).sessions@.drop_last()[i] == final(d).sessions@[i]);
    }
    if device_bytes is Some {
        registry::law_recording_changes_one(
            old(d).registry@,
            handle@.id,
            device_bytes->0,
            handle@.id,
        );
        registry::lemma_id_index(final(d).registry@.residents, handle@.id, 0);
        assert(old(d).registry@.resident(handle@.id) is Some);
    }
}

/// A load that is given up is let go of: the model can be evicted, and nothing else changes.
pub proof fn law_what_an_abandoned_load_leaves(d: &mut DaemonState, handle: ModelHandle)
    requires
        call_ensures(DaemonState::abandon_load, (d, handle), ()),
        old(d).wf(Some(handle@.id)),
    ensures
        final(d).sessions@ == old(d).sessions@,
        final(d).model_stats@ == old(d).model_stats@,
        final(d).registry@.resident(handle@.id) is Some,
        final(d).registry@.resident(handle@.id)->0.handles == old(d).registry@.resident(
            handle@.id,
        )->0.handles - 1,
        final(d).registry@.eviction(handle@.id) is Ok,
        final(d).requests_served == old(d).requests_served,
        final(d).requests_failed == old(d).requests_failed,
{
    assert(old(d).registry@.resident(handle@.id) is Some);
    registry::law_a_release_holds_once_less(old(d).registry@, handle@.id, handle@.id);
    registry::law_when_an_eviction_is_refused(final(d).registry@, handle@.id);
}

/// Having a model loaded ends with one of three things: it is there already, and used once more; one
/// model was evicted, and no other; or it is to be loaded, and nothing was changed.
pub proof fn law_what_it_takes_to_load(
    d: &mut DaemonState,
    path: &str,
    new_bytes: u64,
    host_free: Option<u64>,
    device_free: Option<u64>,
    r: LoadStep,
)
    requires
        call_ensures(
            DaemonState::ensure_loaded,
            (d, path, new_bytes, host_free, device_free),
            r,
        ),
        old(d).wf(None),
    ensures
        r is Ready <==> exists|i: int|
            0 <= i < old(d).sessions@.len() && (#[trigger] old(d).sessions@[i]).path@ == path@,
        r is Ready ==> final(d).sessions@ == old(d).sessions@
            && final(d).registry@.residents.last().path == path@,
        r is Load ==> *final(d) == *old(d),
        r is Evicted ==> final(d).sessions@.len() == old(d).sessions@.len() - 1 && !(
        old(d).host_fits(new_bytes, host_free) && old(d).device_fits(new_bytes, device_free)),
        old(d).host_fits(new_bytes, host_free) && old(d).device_fits(new_bytes, device_free)
            ==> !(r is Evicted),
{
    lemma_some_loaded(old(d).sessions@, path@, 0);
    if r is Ready {
        registry::lemma_path_index(old(d).registry@.residents, path@, 0);
    }
    if r is Evicted {
        law_held_models_are_not_chosen(*old(d), new_bytes, host_free, device_free);
        let id = old(d).to_evict(new_bytes, host_free, device_free)->0;
        lemma_session_index(old(d).sessions@, id, 0);
    }
}

/// What the daemon tells of itself is what was counted and what is loaded: one line for each loaded
/// model, with that model's own counters.
pub proof fn law_what_the_status_tells(
    d: DaemonState,
    pid: u32,
    exe_path: Option<String>,
    modified: Option<u64>,
    uptime: u64,
    gpu: Option<(u64, u64)>,
    r: StatusResponse,
    i: int,
)
    requires
        call_ensures(DaemonState::status, (&d, pid, exe_path, modified, uptime, gpu), r),
    ensures
        r.pid == pid,
        r.exe_path == exe_path,
        r.exe_modified_unix_secs == modified,
        r.uptime_secs == uptime,
        r.requests_served == d.requests_served,
        r.requests_failed == d.requests_failed,
        r.total_tokens_generated == d.total_tokens_generated,
        r.resident_bytes == d.registry@.total_mapped(),
        gpu is None ==> r.gpu_free_bytes is None && r.gpu_total_bytes is None,
        gpu matches Some((free, total)) ==> r.gpu_free_bytes == Some(free) && r.gpu_total_bytes
            == Some(total),
        r.models@.len() == d.sessions@.len(),
        0 <= i < d.sessions@.len() ==> {
            let s = stats_of(d.model_stats@, d.sessions@[i].path@);
            &&& r.models@[i].path@ == d.sessions@[i].path@
            &&& r.models@[i].requests_served == s.requests_served
            &&& r.models@[i].tokens_generated == s.tokens_generated
            &&& r.models@[i].last_used_unix_secs == s.last_used_unix_secs
        },
{
}

/// A model is known by the path of its session, and one without a session by none.
pub proof fn law_the_path_of_a_model(d: DaemonState, i: int, id: ModelId, r: Option<&str>)
    requires
        call_ensures(DaemonState::path_for_id, (&d, id), r),
        d.wf(None),
    ensures
        0 <= i < d.sessions@.len() && d.sessions@[i].id == id ==> r is Some && r->0@
            == d.sessions@[i].path@,
        (forall|j: int| 0 <= j < d.sessions@.len() ==> (#[trigger] d.sessions@[j]).id != id) ==> r
            is None,
{
    lemma_session_index(d.sessions@, id, 0);
    if 0 <= i < d.sessions@.len() {
        lemma_the_session_of(d.sessions@, i, 0);
    }
}

/// An eviction leaves every other model as it was, and gives back what the evicted one took up.
pub proof fn law_an_eviction_leaves_the_others(
    before: DaemonState,
    after: DaemonState,
    id: ModelId,
    path: Seq<char>,
    other: ModelId,
)
    requires
        before.wf(None),
        model_evicted(before, after, id, path),
        session_index(before.sessions@, id, 0) is Some,
    ensures
        other != id ==> after.registry@.resident(other) == before.registry@.resident(other),
        after.registry@.next_id == before.registry@.next_id,
        before.registry@.resident(id) is Some,
        after.registry@.total_mapped() + before.registry@.resident(id)->0.metrics.mapped_bytes
            == before.registry@.total_mapped(),
        after.registry@.total_device() + registry::on_device(before.registry@.resident(id)->0)
            == before.registry@.total_device(),
{
    let v = before.registry@;
    lemma_session_index(before.sessions@, id, 0);
    let at = session_index(before.sessions@, id, 0)->0;
    assert(v.resident(before.sessions@[at].id) is Some);
    assert(v.resident(id)->0.handles == before.holds(id, None));
    registry::law_a_release_holds_once_less(v, id, id);
    registry::law_a_release_holds_once_less(v, id, other);
    registry::law_an_eviction_takes_one(v.released(id), id, other);
    registry::law_when_an_eviction_is_refused(v.released(id), id);
    registry::law_what_an_eviction_gives_back(v.released(id), id);
    registry::law_handles_take_up_nothing(v, id);
}

} // verus!
