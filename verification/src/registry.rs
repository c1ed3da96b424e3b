//! Which models are resident in memory, who holds them, and whether another one fits.

use vstd::prelude::*;
use crate::text;

verus! {

/// How eagerly a newly mapped model's pages are brought into memory.
#[derive(Debug, Clone, Copy, PartialEq, Eq, Structural)]
pub enum Residency {
    /// On first touch.
    Lazy,
    /// Every page is touched at once.
    Prefault,
    /// The kernel is told that the pages will be needed.
    Advise,
}

/// A part of a whole.
#[derive(Debug, Clone, Copy, PartialEq, Eq, Structural)]
pub struct Fraction {
    pub part: u64,
    pub whole: u64,
}

impl Fraction {
    /// At least 99 in 100.
    pub open spec fn nearly_all(self) -> bool {
        self.part * 100 >= self.whole * 99
    }

    /// Whether this is at least 99 in 100.
    pub fn is_nearly_all(&self) -> (r: bool)
        ensures
            r == self.nearly_all(),
    {
        (self.part as u128) * 100 >= (self.whole as u128) * 99
    }
}

/// What loading a model cost and did.
#[derive(Debug, Clone, Copy, PartialEq, Eq, Structural)]
pub struct SwapMetrics {
    /// In microseconds.
    pub map_latency_us: u64,
    /// In microseconds; nothing for a model that was loaded lazily.
    pub prefault_latency_us: Option<u64>,
    pub mapped_bytes: usize,
    /// By how much the process grew.
    pub rss_delta_bytes: Option<i64>,
    /// How many of the mapping's pages were in memory.
    pub resident_fraction: Option<Fraction>,
    /// Nearly all of them were.
    pub warm: bool,
}

/// Why a model cannot be loaded.
#[derive(Debug)]
pub enum LoadError {
    Io(String),
    Empty,
    BadMagic { found: [u8; 4] },
}

/// A stable identifier for a resident model.
#[derive(Debug, Clone, Copy, PartialEq, Eq, Hash, PartialOrd, Ord, Structural)]
pub struct ModelId(pub u64);

/// Why a model cannot be evicted.
#[derive(Debug, Clone, Copy, PartialEq, Eq, Structural)]
pub enum EvictError {
    UnknownId(ModelId),
    HandleOutstanding { outstanding: usize },
}

/// A file that was mapped into memory.
#[derive(Debug)]
pub struct Mapping {
    /// The file's first bytes: four of them, or all where there are fewer.
    pub head: Vec<u8>,
    pub len: usize,
    pub map_latency_us: u64,
    /// What it took to bring the pages in, where that was asked for.
    pub prefault_latency_us: u64,
    pub rss_delta_bytes: Option<i64>,
    pub resident_fraction: Option<Fraction>,
}

impl LoadError {
    /// The error in words.
    pub open spec fn words(self) -> Seq<char> {
        match self {
            LoadError::Io(cause) => "io error loading model: "@ + cause@,
            LoadError::Empty => "file is empty"@,
            LoadError::BadMagic { found } => {
                "not a GGUF file: expected magic [71, 71, 85, 70], found ["@ + text::decimal(
                    found@[0] as nat,
                ) + ", "@ + text::decimal(found@[1] as nat) + ", "@ + text::decimal(
                    found@[2] as nat,
                ) + ", "@ + text::decimal(found@[3] as nat) + "]"@
            },
        }
    }

    /// The error in words.
    pub fn message(&self) -> (r: String)
        ensures
            r@ == self.words(),
    {
        match self {
            LoadError::Io(cause) => {
                let mut m: String = "io error loading model: ".to_string();
                m.append(cause.as_str());
                m
            },
            LoadError::Empty => "file is empty".to_string(),
            LoadError::BadMagic { found } => {
                let mut m: String =
                    "not a GGUF file: expected magic [71, 71, 85, 70], found [".to_string();
                m.append(text::number(found[0] as u64).as_str());
                m.append(", ");
                m.append(text::number(found[1] as u64).as_str());
                m.append(", ");
                m.append(text::number(found[2] as u64).as_str());
                m.append(", ");
                m.append(text::number(found[3] as u64).as_str());
                m.append("]");
                m
            },
        }
    }
}

impl EvictError {
    /// The error in words.
    pub open spec fn words(self) -> Seq<char> {
        match self {
            EvictError::UnknownId(id) => "unknown model id: ModelId("@ + text::decimal(id.0 as nat)
                + ")"@,
            EvictError::HandleOutstanding { outstanding } => text::decimal(outstanding as nat)
                + " handle(s) still outstanding, refusing to evict"@,
        }
    }

    /// The error in words.
    pub fn message(&self) -> (r: String)
        ensures
            r@ == self.words(),
    {
        match self {
            EvictError::UnknownId(id) => {
                let mut m: String = "unknown model id: ModelId(".to_string();
                m.append(text::number(id.0).as_str());
                m.append(")");
                m
            },
            EvictError::HandleOutstanding { outstanding } => {
                let mut m: String = text::number(*outstanding as u64);
                m.append(" handle(s) still outstanding, refusing to evict");
                m
            },
        }
    }
}

/// The first bytes of a model file.
pub open spec fn gguf_magic() -> Seq<u8> {
    seq![0x47u8, 0x47u8, 0x55u8, 0x46u8]
}

/// The metrics of a mapping that was made as `residency` says.
pub open spec fn metrics_of(m: Mapping, residency: Residency) -> SwapMetrics {
    SwapMetrics {
        map_latency_us: m.map_latency_us,
        prefault_latency_us: match residency {
            Residency::Lazy => None,
            _ => Some(m.prefault_latency_us),
        },
        mapped_bytes: m.len,
        rss_delta_bytes: m.rss_delta_bytes,
        resident_fraction: m.resident_fraction,
        warm: match m.resident_fraction {
            Some(f) => f.nearly_all(),
            None => false,
        },
    }
}

/// A mapped model.
#[derive(Debug)]
pub struct Resident {
    pub id: ModelId,
    pub path: String,
    pub metrics: SwapMetrics,
    /// The device memory that it takes up, where that was measured.
    pub device_bytes: Option<u64>,
    /// How many handles to it are out.
    pub handles: usize,
}

/// The content of a [`Resident`].
#[verifier::ext_equal]
pub struct ResidentView {
    pub id: ModelId,
    pub path: Seq<char>,
    pub metrics: SwapMetrics,
    pub device_bytes: Option<u64>,
    pub handles: int,
}

impl View for Resident {
    type V = ResidentView;

    open spec fn view(&self) -> ResidentView {
        ResidentView {
            id: self.id,
            path: self.path@,
            metrics: self.metrics,
            device_bytes: self.device_bytes,
            handles: self.handles as int,
        }
    }
}

/// A live reference to a mapped model: while there is one, the model cannot be evicted.
///
/// The registry counts the handles that it gave out and that were not given back. A handle has no
/// destructor, so it is given back by [`SwapRegistry::release`] alone: one that goes out of scope
/// without that keeps its model from being evicted from then on.
#[derive(Debug)]
#[must_use]
pub struct ModelHandle {
    id: ModelId,
    path: String,
    metrics: SwapMetrics,
}

/// The content of a [`ModelHandle`].
pub struct HandleView {
    pub id: ModelId,
    pub path: Seq<char>,
    pub metrics: SwapMetrics,
}

impl View for ModelHandle {
    type V = HandleView;

    closed spec fn view(&self) -> HandleView {
        HandleView { id: self.id, path: self.path@, metrics: self.metrics }
    }
}

impl ModelHandle {
    /// The identifier of the model.
    pub fn id(&self) -> (r: ModelId)
        ensures
            r == self@.id,
    {
        self.id
    }

    /// Where the model's file is.
    pub fn path(&self) -> (r: &str)
        ensures
            r@ == self@.path,
    {
        self.path.as_str()
    }

    /// What loading the model cost.
    pub fn metrics(&self) -> (r: SwapMetrics)
        ensures
            r == self@.metrics,
    {
        self.metrics
    }
}

/// The models that are resident, the one used longest ago first.
#[derive(Debug)]
pub struct SwapRegistry {
    next_id: u64,
    residents: Vec<Resident>,
}

/// The content of a [`SwapRegistry`].
#[verifier::ext_equal]
pub struct RegistryView {
    pub next_id: int,
    pub residents: Seq<ResidentView>,
}

impl View for SwapRegistry {
    type V = RegistryView;

    closed spec fn view(&self) -> RegistryView {
        RegistryView {
            next_id: self.next_id as int,
            residents: Seq::new(self.residents@.len(), |i: int| self.residents@[i]@),
        }
    }
}

/// The first resident at or after `from` with that path.
pub open spec fn path_index(residents: Seq<ResidentView>, path: Seq<char>, from: int) -> Option<int>
    decreases residents.len() - from,
{
    if from < 0 || from >= residents.len() {
        None
    } else if residents[from].path == path {
        Some(from)
    } else {
        path_index(residents, path, from + 1)
    }
}

/// The first resident at or after `from` with that identifier.
pub open spec fn id_index(residents: Seq<ResidentView>, id: ModelId, from: int) -> Option<int>
    decreases residents.len() - from,
{
    if from < 0 || from >= residents.len() {
        None
    } else if residents[from].id == id {
        Some(from)
    } else {
        id_index(residents, id, from + 1)
    }
}

/// The mapped bytes of the first `n` residents.
pub open spec fn mapped_sum(residents: Seq<ResidentView>, n: int) -> nat
    decreases n,
{
    if n <= 0 {
        0
    } else {
        mapped_sum(residents, n - 1) + residents[n - 1].metrics.mapped_bytes as nat
    }
}

/// The recorded device bytes of the first `n` residents.
pub open spec fn device_sum(residents: Seq<ResidentView>, n: int) -> nat
    decreases n,
{
    if n <= 0 {
        0
    } else {
        device_sum(residents, n - 1) + match residents[n - 1].device_bytes {
            Some(b) => b as nat,
            None => 0,
        }
    }
}

impl ResidentView {
    /// With one handle more.
    pub open spec fn held_once_more(self) -> ResidentView {
        ResidentView { handles: self.handles + 1, ..self }
    }

    /// With one handle less.
    pub open spec fn held_once_less(self) -> ResidentView {
        ResidentView { handles: self.handles - 1, ..self }
    }

    /// A handle to it.
    pub open spec fn handle(self) -> HandleView {
        HandleView { id: self.id, path: self.path, metrics: self.metrics }
    }
}

impl RegistryView {
    /// No identifier and no path is there twice, and no identifier that is still to be given out.
    pub open spec fn wf(self) -> bool {
        &&& 0 <= self.next_id <= u64::MAX
        &&& forall|i: int, j: int|
            0 <= i < j < self.residents.len() ==> (#[trigger] self.residents[i]).id != (
            #[trigger] self.residents[j]).id && self.residents[i].path != self.residents[j].path
        &&& forall|i: int|
            0 <= i < self.residents.len() ==> (#[trigger] self.residents[i]).id.0 < self.next_id
    }

    /// Where a path is resident.
    pub open spec fn find_path(self, path: Seq<char>) -> Option<int> {
        path_index(self.residents, path, 0)
    }

    /// Where a model is resident.
    pub open spec fn find_id(self, id: ModelId) -> Option<int> {
        id_index(self.residents, id, 0)
    }

    /// A resident model.
    pub open spec fn resident(self, id: ModelId) -> Option<ResidentView> {
        match self.find_id(id) {
            Some(i) => Some(self.residents[i]),
            None => None,
        }
    }

    /// The identifiers of the resident models, the one used longest ago first.
    pub open spec fn ids_by_lru(self) -> Seq<ModelId> {
        Seq::new(self.residents.len(), |i: int| self.residents[i].id)
    }

    /// After the resident at `i` was used and another handle to it was given out.
    pub open spec fn touched(self, i: int) -> RegistryView {
        RegistryView {
            residents: self.residents.remove(i).push(self.residents[i].held_once_more()),
            ..self
        }
    }

    /// After a model that was not there was loaded and a handle to it was given out.
    pub open spec fn admitted(self, path: Seq<char>, metrics: SwapMetrics) -> RegistryView {
        RegistryView {
            next_id: self.next_id + 1,
            residents: self.residents.push(
                ResidentView {
                    id: ModelId(self.next_id as u64),
                    path,
                    metrics,
                    device_bytes: None,
                    handles: 1,
                },
            ),
        }
    }

    /// After the resident at `i` was changed.
    pub open spec fn changed(self, i: int, r: ResidentView) -> RegistryView {
        RegistryView { residents: self.residents.update(i, r), ..self }
    }

    /// After another handle was made of one.
    pub open spec fn shared(self, id: ModelId) -> RegistryView {
        match self.find_id(id) {
            Some(i) => self.changed(i, self.residents[i].held_once_more()),
            None => self,
        }
    }

    /// After a handle to a model was given back.
    pub open spec fn released(self, id: ModelId) -> RegistryView {
        match self.find_id(id) {
            Some(i) => if self.residents[i].handles > 0 {
                self.changed(i, self.residents[i].held_once_less())
            } else {
                self
            },
            None => self,
        }
    }

    /// After it was recorded how much device memory a model takes up.
    pub open spec fn recorded(self, id: ModelId, bytes: u64) -> RegistryView {
        match self.find_id(id) {
            Some(i) => self.changed(
                i,
                ResidentView { device_bytes: Some(bytes), ..self.residents[i] },
            ),
            None => self,
        }
    }

    /// What an eviction answers: it is refused where the model is not resident or a handle to it is
    /// out.
    pub open spec fn eviction(self, id: ModelId) -> Result<(), EvictError> {
        match self.find_id(id) {
            None => Err(EvictError::UnknownId(id)),
            Some(i) => if self.residents[i].handles > 0 {
                Err(
                    EvictError::HandleOutstanding {
                        outstanding: self.residents[i].handles as usize,
                    },
                )
            } else {
                Ok(())
            },
        }
    }

    /// After an eviction that may have been refused.
    pub open spec fn evicted(self, id: ModelId) -> RegistryView {
        if self.eviction(id) is Ok {
            RegistryView { residents: self.residents.remove(self.find_id(id)->0), ..self }
        } else {
            self
        }
    }

    /// All that is mapped.
    pub open spec fn total_mapped(self) -> nat {
        mapped_sum(self.residents, self.residents.len() as int)
    }

    /// All the device memory that was recorded.
    pub open spec fn total_device(self) -> nat {
        device_sum(self.residents, self.residents.len() as int)
    }
}

/// `resident` bytes and `new` ones stay within `ppm` millionths of what is free and what is
/// resident.
pub open spec fn within_budget(resident: nat, new: nat, free: nat, ppm: nat) -> bool {
    (resident + new) * 1_000_000 <= (free + resident) * ppm
}

/// A path's index is the first one at which it stands; none where it stands nowhere.
pub proof fn lemma_path_index(residents: Seq<ResidentView>, path: Seq<char>, from: int)
    requires
        0 <= from,
    ensures
        match path_index(residents, path, from) {
            Some(i) => from <= i < residents.len() && residents[i].path == path,
            None => forall|i: int| from <= i < residents.len() ==> (#[trigger] residents[i]).path
                != path,
        },
    decreases residents.len() - from,
{
    if from < residents.len() && residents[from].path != path {
        lemma_path_index(residents, path, from + 1);
    }
}

/// An identifier's index is the first one at which it stands; none where it stands nowhere.
pub proof fn lemma_id_index(residents: Seq<ResidentView>, id: ModelId, from: int)
    requires
        0 <= from,
    ensures
        match id_index(residents, id, from) {
            Some(i) => from <= i < residents.len() && residents[i].id == id,
            None => forall|i: int| from <= i < residents.len() ==> (#[trigger] residents[i]).id
                != id,
        },
    decreases residents.len() - from,
{
    if from < residents.len() && residents[from].id != id {
        lemma_id_index(residents, id, from + 1);
    }
}

/// Whether the file begins as a model file does, and what it begins with where it does not.
pub fn check_magic(head: &[u8]) -> (r: Result<(), LoadError>)
    ensures
        match r {
            Ok(_) => head@.len() >= 4 && head@.take(4) == gguf_magic(),
            Err(LoadError::Empty) => head@.len() < 4,
            Err(LoadError::BadMagic { found }) => head@.len() >= 4 && head@.take(4) != gguf_magic()
                && found@ == head@.take(4),
            Err(LoadError::Io(_)) => false,
        },
{
    if head.len() < 4 {
        return Err(LoadError::Empty);
    }
    let found: [u8; 4] = [head[0], head[1], head[2], head[3]];
    assert(found@ =~= head@.take(4));
    if head[0] == 0x47 && head[1] == 0x47 && head[2] == 0x55 && head[3] == 0x46 {
        assert(head@.take(4) =~= gguf_magic());
        Ok(())
    } else {
        assert(head@.take(4)[0] != gguf_magic()[0] || head@.take(4)[1] != gguf_magic()[1]
            || head@.take(4)[2] != gguf_magic()[2] || head@.take(4)[3] != gguf_magic()[3]);
        Err(LoadError::BadMagic { found })
    }
}

/// By how much the process grew between two measurements.
pub fn rss_delta(before: Option<i64>, after: Option<i64>) -> (r: Option<i64>)
    requires
        before is Some && after is Some ==> i64::MIN <= after->0 - before->0 <= i64::MAX,
    ensures
        r == (if before is Some && after is Some {
            Some((after->0 - before->0) as i64)
        } else {
            None
        }),
{
    match (before, after) {
        (Some(before), Some(after)) => Some(after - before),
        _ => None,
    }
}

impl SwapRegistry {
    /// Nothing is resident.
    pub fn new() -> (r: Self)
        ensures
            r@.next_id == 0,
            r@.residents.len() == 0,
            r@.wf(),
    {
        SwapRegistry { next_id: 0, residents: Vec::new() }
    }

    /// Where a path is resident.
    fn position_of_path(&self, path: &str) -> (r: Option<usize>)
        ensures
            match r {
                Some(i) => self@.find_path(path@) == Some(i as int) && i < self@.residents.len(),
                None => self@.find_path(path@) is None,
            },
    {
        let mut i: usize = 0;
        while i < self.residents.len()
            invariant
                i <= self.residents.len(),
                self@.residents.len() == self.residents@.len(),
                self@.find_path(path@) == path_index(self@.residents, path@, i as int),
            decreases self.residents.len() - i,
        {
            assert(self@.residents[i as int] == self.residents@[i as int]@);
            if text::same_text(self.residents[i].path.as_str(), path) {
                return Some(i);
            }
            i += 1;
        }
        None
    }

    /// Where a model is resident.
    fn position_of_id(&self, id: ModelId) -> (r: Option<usize>)
        ensures
            match r {
                Some(i) => self@.find_id(id) == Some(i as int) && i < self@.residents.len(),
                None => self@.find_id(id) is None,
            },
    {
        let mut i: usize = 0;
        while i < self.residents.len()
            invariant
                i <= self.residents.len(),
                self@.residents.len() == self.residents@.len(),
                self@.find_id(id) == id_index(self@.residents, id, i as int),
            decreases self.residents.len() - i,
        {
            assert(self@.residents[i as int] == self.residents@[i as int]@);
            if self.residents[i].id.0 == id.0 {
                return Some(i);
            }
            i += 1;
        }
        None
    }

    /// Another handle to a model that is resident already; that counts as a use of it.
    fn touch(&mut self, i: usize) -> (r: ModelHandle)
        requires
            old(self)@.wf(),
            i < old(self)@.residents.len(),
            old(self)@.residents[i as int].handles < usize::MAX,
        ensures
            final(self)@ == old(self)@.touched(i as int),
            final(self)@.wf(),
            r@ == old(self)@.residents[i as int].handle(),
    {
        let ghost before = self@;
        assert(before.residents[i as int] == self.residents@[i as int]@);
        let mut resident: Resident = self.residents.remove(i);
        resident.handles = resident.handles + 1;
        let handle = ModelHandle {
            id: resident.id,
            path: resident.path.clone(),
            metrics: resident.metrics,
        };
        self.residents.push(resident);
        proof {
            assert(self@.residents =~= before.touched(i as int).residents);
            lemma_touched(before, i as int);
        }
        handle
    }

    /// Another handle to the model of `path`, if that is resident already.
    pub fn reuse(&mut self, path: &str) -> (r: Option<ModelHandle>)
        requires
            old(self)@.wf(),
            match old(self)@.find_path(path@) {
                Some(i) => old(self)@.residents[i].handles < usize::MAX,
                None => true,
            },
        ensures
            final(self)@.wf(),
            match old(self)@.find_path(path@) {
                Some(i) => r is Some && r->0@ == old(self)@.residents[i].handle() && final(self)@
                    == old(self)@.touched(i),
                None => r is None && final(self)@ == old(self)@,
            },
    {
        proof {
            lemma_path_index(self@.residents, path@, 0);
        }
        match self.position_of_path(path) {
            Some(i) => Some(self.touch(i)),
            None => None,
        }
    }

    /// Loads `path`. A model that is resident already is not mapped again: another handle to it is
    /// given out. Else `map` maps it, and it becomes resident if it is a model file.
    pub fn load<M: Fn(&str, Residency) -> Result<Mapping, LoadError>>(
        &mut self,
        path: &str,
        residency: Residency,
        map: &M,
    ) -> (r: Result<ModelHandle, LoadError>)
        requires
            old(self)@.wf(),
            old(self)@.next_id < u64::MAX,
            forall|i: int|
                0 <= i < old(self)@.residents.len() ==> (#[trigger] old(self)@.residents[i]).handles
                    < usize::MAX,
            call_requires(*map, (path, residency)),
        ensures
            final(self)@.wf(),
            match old(self)@.find_path(path@) {
                Some(i) => r is Ok && r->Ok_0@ == old(self)@.residents[i].handle() && final(self)@
                    == old(self)@.touched(i),
                None => exists|out: Result<Mapping, LoadError>| #[trigger]
                    call_ensures(*map, (path, residency), out) && loaded(
                        old(self)@,
                        final(self)@,
                        path@,
                        residency,
                        out,
                        r,
                    ),
            },
    {
        proof {
            lemma_path_index(self@.residents, path@, 0);
        }
        match self.reuse(path) {
            Some(handle) => {
                return Ok(handle);
            },
            None => {},
        }
        let out: Result<Mapping, LoadError> = map(path, residency);
        self.enroll(path, residency, out)
    }

    /// Makes a model resident that was not, from what mapping it gave.
    pub fn enroll(
        &mut self,
        path: &str,
        residency: Residency,
        mapped: Result<Mapping, LoadError>,
    ) -> (r: Result<ModelHandle, LoadError>)
        requires
            old(self)@.wf(),
            old(self)@.next_id < u64::MAX,
            old(self)@.find_path(path@) is None,
        ensures
            final(self)@.wf(),
            loaded(old(self)@, final(self)@, path@, residency, mapped, r),
    {
        let mapping: Mapping = match mapped {
            Ok(mapping) => mapping,
            Err(e) => {
                return Err(e);
            },
        };
        match check_magic(mapping.head.as_slice()) {
            Ok(_) => {},
            Err(e) => {
                return Err(e);
            },
        }
        let metrics = SwapMetrics {
            map_latency_us: mapping.map_latency_us,
            prefault_latency_us: match residency {
                Residency::Lazy => None,
                _ => Some(mapping.prefault_latency_us),
            },
            mapped_bytes: mapping.len,
            rss_delta_bytes: mapping.rss_delta_bytes,
            resident_fraction: mapping.resident_fraction,
            warm: match mapping.resident_fraction {
                Some(f) => f.is_nearly_all(),
                None => false,
            },
        };
        let ghost before = self@;
        let id = ModelId(self.next_id);
        self.next_id = self.next_id + 1;
        self.residents.push(
            Resident { id, path: path.to_string(), metrics, device_bytes: None, handles: 1 },
        );
        proof {
            lemma_path_index(before.residents, path@, 0);
            assert(self@.residents =~= before.admitted(path@, metrics).residents);
            assert forall|i: int, j: int| 0 <= i < j < self@.residents.len() implies (
            #[trigger] self@.residents[i]).id != (#[trigger] self@.residents[j]).id
                && self@.residents[i].path != self@.residents[j].path by {
                assert(self@.residents[i] == before.residents[i]);
                if j < before.residents.len() {
                    assert(self@.residents[j] == before.residents[j]);
                }
            }
            assert forall|i: int| 0 <= i < self@.residents.len() implies (
            #[trigger] self@.residents[i]).id.0 < self@.next_id by {
                if i < before.residents.len() {
                    assert(self@.residents[i] == before.residents[i]);
                }
            }
        }
        Ok(ModelHandle { id, path: path.to_string(), metrics })
    }

    /// Another handle to the model that `handle` is for, if it is resident.
    pub fn share(&mut self, handle: &ModelHandle) -> (r: Option<ModelHandle>)
        requires
            old(self)@.wf(),
            forall|i: int|
                0 <= i < old(self)@.residents.len() ==> (#[trigger] old(self)@.residents[i]).handles
                    < usize::MAX,
        ensures
            final(self)@.wf(),
            match old(self)@.resident(handle@.id) {
                Some(_) => r is Some && r->0@ == handle@,
                None => r is None,
            },
            final(self)@ == old(self)@.shared(handle@.id),
    {
        match self.position_of_id(handle.id) {
            Some(i) => {
                let ghost before = self@;
                assert(before.residents[i as int] == self.residents@[i as int]@);
                let held: usize = self.residents[i].handles + 1;
                self.set_handles(i, held);
                Some(
                    ModelHandle {
                        id: handle.id,
                        path: handle.path.clone(),
                        metrics: handle.metrics,
                    },
                )
            },
            None => None,
        }
    }

    /// Sets how many handles to a resident are out.
    fn set_handles(&mut self, i: usize, handles: usize)
        requires
            old(self)@.wf(),
            i < old(self)@.residents.len(),
        ensures
            final(self)@.wf(),
            final(self)@ == old(self)@.changed(
                i as int,
                ResidentView { handles: handles as int, ..old(self)@.residents[i as int] },
            ),
    {
        let ghost before = self@;
        assert(before.residents[i as int] == self.residents@[i as int]@);
        let resident: &Resident = &self.residents[i];
        let changed = Resident {
            id: resident.id,
            path: resident.path.clone(),
            metrics: resident.metrics,
            device_bytes: resident.device_bytes,
            handles,
        };
        self.residents.set(i, changed);
        proof {
            let r = ResidentView { handles: handles as int, ..before.residents[i as int] };
            assert(self@.residents =~= before.changed(i as int, r).residents);
            lemma_changed(before, i as int, r);
        }
    }

    /// Gives a handle back: it no longer keeps its model from being evicted.
    pub fn release(&mut self, handle: ModelHandle)
        requires
            old(self)@.wf(),
        ensures
            final(self)@.wf(),
            final(self)@ == old(self)@.released(handle@.id),
    {
        match self.position_of_id(handle.id) {
            Some(i) => {
                assert(self@.residents[i as int] == self.residents@[i as int]@);
                if self.residents[i].handles > 0 {
                    let held: usize = self.residents[i].handles - 1;
                    self.set_handles(i, held);
                }
            },
            None => {},
        }
    }

    /// Evicts a model, but only if no handle to it is out.
    pub fn evict(&mut self, id: ModelId) -> (r: Result<(), EvictError>)
        requires
            old(self)@.wf(),
        ensures
            final(self)@.wf(),
            r == old(self)@.eviction(id),
            final(self)@ == old(self)@.evicted(id),
    {
        match self.position_of_id(id) {
            None => Err(EvictError::UnknownId(id)),
            Some(i) => {
                assert(self@.residents[i as int] == self.residents@[i as int]@);
                let outstanding: usize = self.residents[i].handles;
                if outstanding > 0 {
                    return Err(EvictError::HandleOutstanding { outstanding });
                }
                let ghost before = self@;
                self.residents.remove(i);
                proof {
                    assert(self@.residents =~= before.residents.remove(i as int));
                    lemma_removed(before, i as int);
                }
                Ok(())
            },
        }
    }

    /// Whether a model with that identifier is resident.
    pub fn is_resident(&self, id: ModelId) -> (r: bool)
        ensures
            r == (self@.find_id(id) is Some),
    {
        self.position_of_id(id).is_some()
    }

    /// How many models are resident.
    pub fn resident_count(&self) -> (r: usize)
        ensures
            r == self@.residents.len(),
    {
        self.residents.len()
    }

    /// The bytes of a resident model's device memory, where they were measured.
    pub fn device_bytes(&self, id: ModelId) -> (r: Option<u64>)
        ensures
            r == (match self@.find_id(id) {
                Some(i) => self@.residents[i].device_bytes,
                None => None,
            }),
    {
        match self.position_of_id(id) {
            Some(i) => {
                assert(self@.residents[i as int] == self.residents@[i as int]@);
                self.residents[i].device_bytes
            },
            None => None,
        }
    }

    /// Records how much device memory a model takes up; nothing for one that is not resident any
    /// more.
    pub fn record_device_bytes(&mut self, id: ModelId, bytes: u64)
        requires
            old(self)@.wf(),
        ensures
            final(self)@.wf(),
            final(self)@ == old(self)@.recorded(id, bytes),
    {
        match self.position_of_id(id) {
            Some(i) => {
                let ghost before = self@;
                assert(before.residents[i as int] == self.residents@[i as int]@);
                let resident: &Resident = &self.residents[i];
                let changed = Resident {
                    id: resident.id,
                    path: resident.path.clone(),
                    metrics: resident.metrics,
                    device_bytes: Some(bytes),
                    handles: resident.handles,
                };
                self.residents.set(i, changed);
                proof {
                    let r = ResidentView {
                        device_bytes: Some(bytes),
                        ..before.residents[i as int]
                    };
                    assert(self@.residents =~= before.changed(i as int, r).residents);
                    lemma_changed(before, i as int, r);
                }
            },
            None => {},
        }
    }

    /// The identifiers of the resident models, the one used longest ago first.
    pub fn resident_ids_by_lru(&self) -> (r: Vec<ModelId>)
        ensures
            r@ == self@.ids_by_lru(),
    {
        let mut r: Vec<ModelId> = Vec::new();
        let mut i: usize = 0;
        while i < self.residents.len()
            invariant
                i <= self.residents.len(),
                r@.len() == i,
                self@.residents.len() == self.residents@.len(),
                forall|j: int| 0 <= j < i ==> r@[j] == self@.residents[j].id,
            decreases self.residents.len() - i,
        {
            assert(self@.residents[i as int] == self.residents@[i as int]@);
            r.push(self.residents[i].id);
            i += 1;
        }
        assert(r@ =~= self@.ids_by_lru());
        r
    }

    /// All that is mapped.
    fn mapped_total(&self) -> (r: u128)
        ensures
            r == self@.total_mapped(),
            r <= self@.residents.len() * (usize::MAX as int),
    {
        let mut sum: u128 = 0;
        let mut i: usize = 0;
        while i < self.residents.len()
            invariant
                i <= self.residents.len(),
                self@.residents.len() == self.residents@.len(),
                sum == mapped_sum(self@.residents, i as int),
                sum <= i * (usize::MAX as int),
            decreases self.residents.len() - i,
        {
            assert(self@.residents[i as int] == self.residents@[i as int]@);
            let n: usize = self.residents[i].metrics.mapped_bytes;
            proof {
                lemma_sum_fits(i as int, usize::MAX as int);
                assert((i + 1) * (usize::MAX as int) == i * (usize::MAX as int) + usize::MAX)
                    by (nonlinear_arith);
            }
            sum = sum + n as u128;
            i += 1;
        }
        sum
    }

    /// All the device memory that was recorded.
    fn device_total(&self) -> (r: u128)
        ensures
            r == self@.total_device(),
            r <= self@.residents.len() * (u64::MAX as int),
    {
        let mut sum: u128 = 0;
        let mut i: usize = 0;
        while i < self.residents.len()
            invariant
                i <= self.residents.len(),
                self@.residents.len() == self.residents@.len(),
                sum == device_sum(self@.residents, i as int),
                sum <= i * (u64::MAX as int),
            decreases self.residents.len() - i,
        {
            assert(self@.residents[i as int] == self.residents@[i as int]@);
            proof {
                lemma_sum_fits(i as int, u64::MAX as int);
                assert((i + 1) * (u64::MAX as int) == i * (u64::MAX as int) + u64::MAX)
                    by (nonlinear_arith);
            }
            match self.residents[i].device_bytes {
                Some(n) => {
                    sum = sum + n as u128;
                },
                None => {},
            }
            i += 1;
        }
        sum
    }

    /// Whether sizes and identifiers are still within what a machine word holds.
    pub fn is_countable(&self) -> (r: bool)
        ensures
            r == (self@.total_mapped() <= usize::MAX && self@.total_device() <= u64::MAX
                && self@.next_id < u64::MAX),
    {
        self.mapped_total() <= usize::MAX as u128 && self.device_total() <= u64::MAX as u128
            && self.next_id < u64::MAX
    }

    /// All that is mapped: a ceiling on what it costs, not the cost.
    pub fn mapped_bytes(&self) -> (r: usize)
        requires
            self@.total_mapped() <= usize::MAX,
        ensures
            r == self@.total_mapped(),
    {
        self.mapped_total() as usize
    }

    /// All the device memory that was recorded.
    pub fn device_resident_bytes(&self) -> (r: u64)
        requires
            self@.total_device() <= u64::MAX,
        ensures
            r == self@.total_device(),
    {
        self.device_total() as u64
    }

    /// Whether `new_bytes` more fit into `budget_ppm` millionths of the memory that is free or taken
    /// up by models. `None` where it is not known how much is free.
    pub fn fits_within_budget(&self, new_bytes: u64, free_bytes: Option<u64>, budget_ppm: u32) -> (r:
        Option<bool>)
        requires
            self@.total_mapped() <= u64::MAX,
        ensures
            r == (match free_bytes {
                Some(free) => Some(
                    within_budget(
                        self@.total_mapped(),
                        new_bytes as nat,
                        free as nat,
                        budget_ppm as nat,
                    ),
                ),
                None => None,
            }),
    {
        match free_bytes {
            Some(free) => Some(fits(self.mapped_total() as u64, new_bytes, free, budget_ppm)),
            None => None,
        }
    }

    /// Whether `new_bytes` more fit into `budget_ppm` millionths of the device memory that is free
    /// or taken up by models.
    pub fn fits_within_device_budget(&self, new_bytes: u64, free_bytes: u64, budget_ppm: u32) -> (r:
        bool)
        requires
            self@.total_device() <= u64::MAX,
        ensures
            r == within_budget(
                self@.total_device(),
                new_bytes as nat,
                free_bytes as nat,
                budget_ppm as nat,
            ),
    {
        fits(self.device_total() as u64, new_bytes, free_bytes, budget_ppm)
    }
}

impl Default for SwapRegistry {
    fn default() -> (r: Self)
        ensures
            r@.next_id == 0,
            r@.residents.len() == 0,
            r@.wf(),
    {
        SwapRegistry::new()
    }
}

/// What loading a path that was not resident did, given what mapping it gave.
pub open spec fn loaded(
    before: RegistryView,
    after: RegistryView,
    path: Seq<char>,
    residency: Residency,
    mapped: Result<Mapping, LoadError>,
    r: Result<ModelHandle, LoadError>,
) -> bool {
    match mapped {
        Err(e) => r is Err && r->Err_0 == e && after == before,
        Ok(m) => if m.head@.len() < 4 {
            r is Err && r->Err_0 is Empty && after == before
        } else if m.head@.take(4) != gguf_magic() {
            r is Err && after == before && (r->Err_0 matches LoadError::BadMagic { found } && found@
                == m.head@.take(4))
        } else {
            &&& r is Ok
            &&& after == before.admitted(path, metrics_of(m, residency))
            &&& r->Ok_0@ == after.residents.last().handle()
        },
    }
}

/// Whether `resident` bytes and `new` ones stay within the budget.
fn fits(resident: u64, new: u64, free: u64, ppm: u32) -> (r: bool)
    ensures
        r == within_budget(resident as nat, new as nat, free as nat, ppm as nat),
{
    let asked: u128 = (resident as u128 + new as u128) * 1_000_000;
    let held: u128 = free as u128 + resident as u128;
    proof {
        assert(held * (ppm as u128) <= 0x2_0000_0000_0000_0000 * 0x1_0000_0000) by (nonlinear_arith)
            requires
                held <= 0x2_0000_0000_0000_0000,
                ppm <= 0xffff_ffff,
        ;
    }
    asked <= held * (ppm as u128)
}

proof fn lemma_sum_fits(n: int, each: int)
    requires
        0 <= n <= usize::MAX,
        0 <= each <= u64::MAX,
    ensures
        n * each + each <= u128::MAX,
{
    assert(n * each + each <= 0xffff_ffff_ffff_ffff * 0xffff_ffff_ffff_ffff
        + 0xffff_ffff_ffff_ffff) by (nonlinear_arith)
        requires
            0 <= n <= 0xffff_ffff_ffff_ffff,
            0 <= each <= 0xffff_ffff_ffff_ffff,
    ;
}

/// Changing what is counted of one model leaves the registry well-formed.
pub proof fn lemma_changed(v: RegistryView, i: int, r: ResidentView)
    requires
        v.wf(),
        0 <= i < v.residents.len(),
        r.id == v.residents[i].id,
        r.path == v.residents[i].path,
    ensures
        v.changed(i, r).wf(),
{
    let w = v.changed(i, r);
    assert forall|a: int, b: int| 0 <= a < b < w.residents.len() implies (
    #[trigger] w.residents[a]).id != (#[trigger] w.residents[b]).id && w.residents[a].path
        != w.residents[b].path by {
        assert(v.residents[a].id != v.residents[b].id);
    }
    assert forall|a: int| 0 <= a < w.residents.len() implies (#[trigger] w.residents[a]).id.0
        < w.next_id by {
        assert(v.residents[a].id.0 < v.next_id);
    }
}

/// Removing one model leaves the registry well-formed.
pub proof fn lemma_removed(v: RegistryView, i: int)
    requires
        v.wf(),
        0 <= i < v.residents.len(),
    ensures
        (RegistryView { residents: v.residents.remove(i), ..v }).wf(),
{
    let rest = v.residents.remove(i);
    assert forall|a: int, b: int| 0 <= a < b < rest.len() implies (#[trigger] rest[a]).id != (
    #[trigger] rest[b]).id && rest[a].path != rest[b].path by {
        let x = if a < i {
            a
        } else {
            a + 1
        };
        let y = if b < i {
            b
        } else {
            b + 1
        };
        assert(rest[a] == v.residents[x]);
        assert(rest[b] == v.residents[y]);
    }
    assert forall|a: int| 0 <= a < rest.len() implies (#[trigger] rest[a]).id.0 < v.next_id by {
        let x = if a < i {
            a
        } else {
            a + 1
        };
        assert(rest[a] == v.residents[x]);
    }
}

/// Using one model leaves the registry well-formed.
pub proof fn lemma_touched(v: RegistryView, i: int)
    requires
        v.wf(),
        0 <= i < v.residents.len(),
    ensures
        v.touched(i).wf(),
{
    lemma_removed(v, i);
    let rest = v.residents.remove(i);
    let w = v.touched(i);
    let last = v.residents[i].held_once_more();
    assert forall|a: int| 0 <= a < rest.len() implies (#[trigger] rest[a]).id != last.id
        && rest[a].path != last.path by {
        let x = if a < i {
            a
        } else {
            a + 1
        };
        assert(rest[a] == v.residents[x]);
        if x < i {
            assert(v.residents[x].id != v.residents[i].id);
        } else {
            assert(v.residents[i].id != v.residents[x].id);
        }
    }
    assert forall|a: int, b: int| 0 <= a < b < w.residents.len() implies (
    #[trigger] w.residents[a]).id != (#[trigger] w.residents[b]).id && w.residents[a].path
        != w.residents[b].path by {
        assert(w.residents[a] == rest[a]);
        if b < rest.len() {
            assert(w.residents[b] == rest[b]);
        }
    }
    assert forall|a: int| 0 <= a < w.residents.len() implies (#[trigger] w.residents[a]).id.0
        < w.next_id by {
        if a < rest.len() {
            assert(w.residents[a] == rest[a]);
        } else {
            assert(v.residents[i].id.0 < v.next_id);
        }
    }
}

/// In a well-formed registry, a path is found where it stands.
pub proof fn lemma_first_path(v: RegistryView, i: int, from: int)
    requires
        v.wf(),
        0 <= from <= i < v.residents.len(),
    ensures
        path_index(v.residents, v.residents[i].path, from) == Some(i),
    decreases i - from,
{
    if from < i {
        assert(v.residents[from].path != v.residents[i].path);
        lemma_first_path(v, i, from + 1);
    }
}

/// In a well-formed registry, an identifier is found where it stands.
pub proof fn lemma_first_id(v: RegistryView, i: int, from: int)
    requires
        v.wf(),
        0 <= from <= i < v.residents.len(),
    ensures
        id_index(v.residents, v.residents[i].id, from) == Some(i),
    decreases i - from,
{
    if from < i {
        assert(v.residents[from].id != v.residents[i].id);
        lemma_first_id(v, i, from + 1);
    }
}

/// Two registries with the same models in some order hold the same under each identifier.
proof fn lemma_same_residents(v: RegistryView, w: RegistryView, id: ModelId)
    requires
        v.wf(),
        w.wf(),
        forall|i: int|
            0 <= i < v.residents.len() && (#[trigger] v.residents[i]).id == id ==> exists|j: int|
                0 <= j < w.residents.len() && v.residents[i] == #[trigger] w.residents[j],
        forall|i: int|
            0 <= i < w.residents.len() && (#[trigger] w.residents[i]).id == id ==> exists|j: int|
                0 <= j < v.residents.len() && w.residents[i] == #[trigger] v.residents[j],
    ensures
        v.resident(id) == w.resident(id),
{
    lemma_id_index(v.residents, id, 0);
    lemma_id_index(w.residents, id, 0);
    match v.find_id(id) {
        Some(i) => {
            let j = choose|j: int|
                0 <= j < w.residents.len() && v.residents[i] == #[trigger] w.residents[j];
            lemma_first_id(w, j, 0);
        },
        None => {
            match w.find_id(id) {
                Some(i) => {
                    let j = choose|j: int|
                        0 <= j < v.residents.len() && w.residents[i] == #[trigger] v.residents[j];
                    assert(v.residents[j].id == id);
                },
                None => {},
            }
        },
    }
}

/// A use changes only how often the model is held.
pub proof fn law_a_use_holds_once_more(v: RegistryView, i: int, id: ModelId)
    requires
        v.wf(),
        0 <= i < v.residents.len(),
    ensures
        v.touched(i).wf(),
        v.touched(i).resident(id) == if id == v.residents[i].id {
            Some(v.residents[i].held_once_more())
        } else {
            v.resident(id)
        },
{
    lemma_touched(v, i);
    let w = v.touched(i);
    let last = v.residents.len() - 1;
    if id == v.residents[i].id {
        lemma_first_id(w, last, 0);
    } else {
        assert forall|a: int|
            0 <= a < v.residents.len() && (#[trigger] v.residents[a]).id == id implies exists|j: int|
            0 <= j < w.residents.len() && v.residents[a] == #[trigger] w.residents[j] by {
            let j = if a < i {
                a
            } else {
                a - 1
            };
            assert(w.residents[j] == v.residents[a]);
        }
        assert forall|a: int|
            0 <= a < w.residents.len() && (#[trigger] w.residents[a]).id == id implies exists|j: int|
            0 <= j < v.residents.len() && w.residents[a] == #[trigger] v.residents[j] by {
            let j = if a < i {
                a
            } else {
                a + 1
            };
            assert(a < last);
            assert(w.residents[a] == v.residents[j]);
        }
        lemma_same_residents(v, w, id);
    }
}

/// What holds under each identifier after one resident was changed.
proof fn lemma_changed_resident(v: RegistryView, i: int, r: ResidentView, id: ModelId)
    requires
        v.wf(),
        0 <= i < v.residents.len(),
        r.id == v.residents[i].id,
        r.path == v.residents[i].path,
    ensures
        v.changed(i, r).wf(),
        v.changed(i, r).resident(id) == if id == r.id {
            Some(r)
        } else {
            v.resident(id)
        },
{
    lemma_changed(v, i, r);
    let w = v.changed(i, r);
    if id == r.id {
        lemma_first_id(w, i, 0);
    } else {
        assert forall|a: int|
            0 <= a < v.residents.len() && (#[trigger] v.residents[a]).id == id implies exists|j: int|
            0 <= j < w.residents.len() && v.residents[a] == #[trigger] w.residents[j] by {
            assert(w.residents[a] == v.residents[a]);
        }
        assert forall|a: int|
            0 <= a < w.residents.len() && (#[trigger] w.residents[a]).id == id implies exists|j: int|
            0 <= j < v.residents.len() && w.residents[a] == #[trigger] v.residents[j] by {
            assert(w.residents[a] == v.residents[a]);
        }
        lemma_same_residents(v, w, id);
    }
}

/// Sharing a handle changes only how often the model is held.
pub proof fn law_sharing_holds_once_more(v: RegistryView, shared: ModelId, id: ModelId)
    requires
        v.wf(),
    ensures
        v.shared(shared).wf(),
        v.shared(shared).resident(id) == (match v.resident(id) {
            Some(r) => if id == shared {
                Some(r.held_once_more())
            } else {
                Some(r)
            },
            None => None,
        }),
{
    lemma_id_index(v.residents, shared, 0);
    match v.find_id(shared) {
        Some(i) => {
            lemma_changed_resident(v, i, v.residents[i].held_once_more(), id);
        },
        None => {},
    }
}

/// A release changes only how often the model is held.
pub proof fn law_a_release_holds_once_less(v: RegistryView, released: ModelId, id: ModelId)
    requires
        v.wf(),
    ensures
        v.released(released).wf(),
        v.released(released).resident(id) == (match v.resident(id) {
            Some(r) => if id == released && r.handles > 0 {
                Some(r.held_once_less())
            } else {
                Some(r)
            },
            None => None,
        }),
{
    lemma_id_index(v.residents, released, 0);
    match v.find_id(released) {
        Some(i) => {
            if v.residents[i].handles > 0 {
                lemma_changed_resident(v, i, v.residents[i].held_once_less(), id);
            }
        },
        None => {},
    }
}

/// Recording a model's device memory changes nothing else.
pub proof fn law_recording_changes_one(v: RegistryView, recorded: ModelId, bytes: u64, id: ModelId)
    requires
        v.wf(),
    ensures
        v.recorded(recorded, bytes).wf(),
        v.recorded(recorded, bytes).resident(id) == (match v.resident(id) {
            Some(r) => if id == recorded {
                Some(ResidentView { device_bytes: Some(bytes), ..r })
            } else {
                Some(r)
            },
            None => None,
        }),
{
    lemma_id_index(v.residents, recorded, 0);
    match v.find_id(recorded) {
        Some(i) => {
            lemma_changed_resident(
                v,
                i,
                ResidentView { device_bytes: Some(bytes), ..v.residents[i] },
                id,
            );
        },
        None => {},
    }
}

/// An eviction takes one model away, or none.
pub proof fn law_an_eviction_takes_one(v: RegistryView, evicted: ModelId, id: ModelId)
    requires
        v.wf(),
    ensures
        v.evicted(evicted).wf(),
        v.evicted(evicted).resident(id) == if id == evicted && v.eviction(evicted) is Ok {
            None
        } else {
            v.resident(id)
        },
{
    lemma_id_index(v.residents, evicted, 0);
    if v.eviction(evicted) is Ok {
        let i = v.find_id(evicted)->0;
        lemma_removed(v, i);
        let w = v.evicted(evicted);
        if id == evicted {
            law_held_models_stay(v, i);
        } else {
            assert forall|a: int|
                0 <= a < v.residents.len() && (#[trigger] v.residents[a]).id == id implies exists|
                j: int,
            |
                0 <= j < w.residents.len() && v.residents[a] == #[trigger] w.residents[j] by {
                let j = if a < i {
                    a
                } else {
                    a - 1
                };
                assert(w.residents[j] == v.residents[a]);
            }
            assert forall|a: int|
                0 <= a < w.residents.len() && (#[trigger] w.residents[a]).id == id implies exists|
                j: int,
            |
                0 <= j < v.residents.len() && w.residents[a] == #[trigger] v.residents[j] by {
                let j = if a < i {
                    a
                } else {
                    a + 1
                };
                assert(w.residents[a] == v.residents[j]);
            }
            lemma_same_residents(v, w, id);
        }
    }
}

/// A model that was loaded anew is held once; nothing else changes.
pub proof fn law_a_load_adds_one(
    v: RegistryView,
    path: Seq<char>,
    metrics: SwapMetrics,
    id: ModelId,
)
    requires
        v.wf(),
        v.next_id < u64::MAX,
        v.find_path(path) is None,
    ensures
        v.admitted(path, metrics).wf(),
        v.resident(ModelId(v.next_id as u64)) is None,
        v.admitted(path, metrics).resident(id) == if id == ModelId(v.next_id as u64) {
            Some(v.admitted(path, metrics).residents.last())
        } else {
            v.resident(id)
        },
{
    law_a_path_is_mapped_once(v, path, metrics);
    lemma_id_index(v.residents, ModelId(v.next_id as u64), 0);
    let w = v.admitted(path, metrics);
    let at = v.residents.len() as int;
    if id == ModelId(v.next_id as u64) {
        lemma_first_id(w, at, 0);
    } else {
        assert forall|a: int|
            0 <= a < v.residents.len() && (#[trigger] v.residents[a]).id == id implies exists|j: int|
            0 <= j < w.residents.len() && v.residents[a] == #[trigger] w.residents[j] by {
            assert(w.residents[a] == v.residents[a]);
        }
        assert forall|a: int|
            0 <= a < w.residents.len() && (#[trigger] w.residents[a]).id == id implies exists|j: int|
            0 <= j < v.residents.len() && w.residents[a] == #[trigger] v.residents[j] by {
            assert(w.residents[a] == v.residents[a]);
        }
        lemma_same_residents(v, w, id);
    }
}

/// A path that was loaded once is found again under the same identifier, however often it is
/// loaded: it is mapped once.
pub proof fn law_a_path_is_mapped_once(v: RegistryView, path: Seq<char>, metrics: SwapMetrics)
    requires
        v.wf(),
        v.next_id < u64::MAX,
        v.find_path(path) is None,
    ensures
        ({
            let once = v.admitted(path, metrics);
            let at = v.residents.len() as int;
            let twice = once.touched(at);
            &&& once.wf()
            &&& once.find_path(path) == Some(at)
            &&& twice.wf()
            &&& twice.find_path(path) == Some(at)
            &&& twice.residents[at].id == once.residents[at].id
            &&& twice.residents[at].handles == 2
            &&& twice.residents.len() == once.residents.len()
            &&& twice.total_mapped() == once.total_mapped()
        }),
{
    let once = v.admitted(path, metrics);
    let at = v.residents.len() as int;
    lemma_path_index(v.residents, path, 0);
    assert forall|i: int, j: int| 0 <= i < j < once.residents.len() implies (
    #[trigger] once.residents[i]).id != (#[trigger] once.residents[j]).id
        && once.residents[i].path != once.residents[j].path by {
        assert(once.residents[i] == v.residents[i]);
        if j < at {
            assert(once.residents[j] == v.residents[j]);
        }
    }
    assert forall|i: int| 0 <= i < once.residents.len() implies (#[trigger] once.residents[i]).id.0
        < once.next_id by {
        if i < at {
            assert(once.residents[i] == v.residents[i]);
        }
    }
    assert(once.wf());
    lemma_first_path(once, at, 0);
    lemma_touched(once, at);
    lemma_first_path(once.touched(at), at, 0);
    law_use_maps_nothing(once, at);
}

/// A use moves a model behind all others and leaves their order as it is.
pub proof fn law_use_moves_to_the_end(v: RegistryView, i: int)
    requires
        0 <= i < v.residents.len(),
    ensures
        v.touched(i).ids_by_lru() == v.ids_by_lru().remove(i).push(v.residents[i].id),
{
    assert(v.touched(i).ids_by_lru() =~= v.ids_by_lru().remove(i).push(v.residents[i].id));
}

/// A handle that is given back at once leaves no trace but the use: the model is where
/// [`law_use_moves_to_the_end`] says, held as often as before.
pub proof fn law_release_undoes_a_use(v: RegistryView, i: int)
    requires
        v.wf(),
        0 <= i < v.residents.len(),
        v.residents[i].handles >= 0,
    ensures
        v.touched(i).wf(),
        v.touched(i).released(v.residents[i].id) == (RegistryView {
            residents: v.residents.remove(i).push(v.residents[i]),
            ..v
        }),
{
    lemma_touched(v, i);
    let w = v.touched(i);
    let last = v.residents.len() - 1;
    lemma_first_id(w, last, 0);
    assert(w.released(v.residents[i].id).residents =~= v.residents.remove(i).push(v.residents[i]));
}

/// While a handle to a model is out, an eviction is refused and changes nothing; once none is out,
/// it takes the model away, and no other.
pub proof fn law_held_models_stay(v: RegistryView, i: int)
    requires
        v.wf(),
        0 <= i < v.residents.len(),
    ensures
        v.residents[i].handles > 0 ==> v.eviction(v.residents[i].id) is Err && v.evicted(
            v.residents[i].id,
        ) == v,
        v.residents[i].handles <= 0 ==> {
            &&& v.eviction(v.residents[i].id) is Ok
            &&& v.evicted(v.residents[i].id).residents == v.residents.remove(i)
            &&& v.evicted(v.residents[i].id).find_id(v.residents[i].id) is None
            &&& v.evicted(v.residents[i].id).find_path(v.residents[i].path) is None
        },
{
    lemma_first_id(v, i, 0);
    if v.residents[i].handles <= 0 {
        let w = v.evicted(v.residents[i].id);
        assert forall|k: int| 0 <= k < w.residents.len() implies (#[trigger] w.residents[k]).id
            != v.residents[i].id && w.residents[k].path != v.residents[i].path by {
            let x = if k < i {
                k
            } else {
                k + 1
            };
            assert(w.residents[k] == v.residents[x]);
            if x < i {
                assert(v.residents[x].id != v.residents[i].id);
            } else {
                assert(v.residents[i].id != v.residents[x].id);
            }
        }
        lemma_id_index(w.residents, v.residents[i].id, 0);
        lemma_path_index(w.residents, v.residents[i].path, 0);
    }
}

proof fn lemma_mapped_sum_same(a: Seq<ResidentView>, b: Seq<ResidentView>, n: int)
    requires
        n <= a.len(),
        n <= b.len(),
        forall|j: int|
            0 <= j < n ==> (#[trigger] a[j]).metrics.mapped_bytes == b[j].metrics.mapped_bytes,
    ensures
        mapped_sum(a, n) == mapped_sum(b, n),
    decreases n,
{
    if n > 0 {
        lemma_mapped_sum_same(a, b, n - 1);
        assert(a[n - 1].metrics.mapped_bytes == b[n - 1].metrics.mapped_bytes);
    }
}

proof fn lemma_mapped_sum_without(s: Seq<ResidentView>, i: int, n: int)
    requires
        0 <= i < n <= s.len(),
    ensures
        mapped_sum(s, n) == mapped_sum(s.remove(i), n - 1) + s[i].metrics.mapped_bytes,
    decreases n,
{
    if n - 1 == i {
        lemma_mapped_sum_same(s, s.remove(i), i);
    } else {
        lemma_mapped_sum_without(s, i, n - 1);
        assert(s.remove(i)[n - 2] == s[n - 1]);
    }
}

/// A use maps nothing: what is mapped in all stays as it was.
pub proof fn law_use_maps_nothing(v: RegistryView, i: int)
    requires
        0 <= i < v.residents.len(),
    ensures
        v.touched(i).total_mapped() == v.total_mapped(),
{
    let n = v.residents.len() as int;
    lemma_mapped_sum_without(v.residents, i, n);
    let rest = v.residents.remove(i);
    lemma_mapped_sum_same(rest, v.touched(i).residents, n - 1);
}

/// The identifier that the next model gets is that of no model that is resident.
pub proof fn law_identifiers_are_fresh(v: RegistryView, path: Seq<char>, metrics: SwapMetrics)
    requires
        v.wf(),
        v.next_id < u64::MAX,
    ensures
        v.find_id(v.admitted(path, metrics).residents.last().id) is None,
{
    let id = v.admitted(path, metrics).residents.last().id;
    lemma_id_index(v.residents, id, 0);
}

/// An empty budget admits nothing at all, and less room never helps.
pub proof fn law_budgets(resident: nat, new: nat, free: nat, ppm: nat, more_free: nat)
    ensures
        new > 0 ==> !within_budget(resident, new, free, 0),
        within_budget(resident, new, free, ppm) ==> within_budget(
            resident,
            new,
            free + more_free,
            ppm,
        ),
{
    assert((free + resident) * ppm <= (free + more_free + resident) * ppm) by (nonlinear_arith);
    assert((free + resident) * 0 == 0);
}

/// The device memory that was recorded for a model, nothing where none was.
pub open spec fn on_device(r: ResidentView) -> nat {
    match r.device_bytes {
        Some(bytes) => bytes as nat,
        None => 0,
    }
}

proof fn lemma_device_sum_same(a: Seq<ResidentView>, b: Seq<ResidentView>, n: int)
    requires
        n <= a.len(),
        n <= b.len(),
        forall|j: int| 0 <= j < n ==> (#[trigger] a[j]).device_bytes == b[j].device_bytes,
    ensures
        device_sum(a, n) == device_sum(b, n),
    decreases n,
{
    if n > 0 {
        lemma_device_sum_same(a, b, n - 1);
        assert(a[n - 1].device_bytes == b[n - 1].device_bytes);
    }
}

proof fn lemma_device_sum_without(s: Seq<ResidentView>, i: int, n: int)
    requires
        0 <= i < n <= s.len(),
    ensures
        device_sum(s, n) == device_sum(s.remove(i), n - 1) + on_device(s[i]),
    decreases n,
{
    if n - 1 == i {
        lemma_device_sum_same(s, s.remove(i), i);
    } else {
        lemma_device_sum_without(s, i, n - 1);
        assert(s.remove(i)[n - 2] == s[n - 1]);
    }
}

/// What is taken up in all, of the address space and of the device, is a sum over the models: without
/// any one of them it is less by exactly what that one takes up, nothing of the device where nothing
/// was recorded; so it is at least what each takes up. Nothing is taken up where there is no model.
pub proof fn law_what_is_taken_up_is_a_sum(v: RegistryView, i: int)
    ensures
        v.residents.len() == 0 ==> v.total_device() == 0 && v.total_mapped() == 0,
        0 <= i < v.residents.len() ==> {
            let without = RegistryView { residents: v.residents.remove(i), ..v };
            &&& v.total_device() == without.total_device() + on_device(v.residents[i])
            &&& v.total_mapped() == without.total_mapped() + v.residents[i].metrics.mapped_bytes
            &&& v.total_device() >= on_device(v.residents[i])
            &&& v.total_mapped() >= v.residents[i].metrics.mapped_bytes
        },
        0 <= i < v.residents.len() && v.residents[i].device_bytes is None ==> (RegistryView {
            residents: v.residents.remove(i),
            ..v
        }).total_device() == v.total_device(),
{
    if 0 <= i < v.residents.len() {
        lemma_device_sum_without(v.residents, i, v.residents.len() as int);
        lemma_mapped_sum_without(v.residents, i, v.residents.len() as int);
    }
}

/// A use takes up nothing, whichever model it is of and whatever others were used before it.
pub proof fn law_a_use_takes_up_nothing(v: RegistryView, i: int)
    requires
        0 <= i < v.residents.len(),
    ensures
        v.touched(i).total_device() == v.total_device(),
        v.touched(i).total_mapped() == v.total_mapped(),
{
    law_use_maps_nothing(v, i);
    let n = v.residents.len() as int;
    lemma_device_sum_without(v.residents, i, n);
    let rest = v.residents.remove(i);
    lemma_device_sum_same(rest, v.touched(i).residents, n - 1);
}

/// A model that is loaded takes up what was mapped of it, and nothing of the device until that is
/// recorded.
pub proof fn law_what_a_load_takes_up(v: RegistryView, path: Seq<char>, metrics: SwapMetrics)
    ensures
        v.admitted(path, metrics).total_device() == v.total_device(),
        v.admitted(path, metrics).total_mapped() == v.total_mapped() + metrics.mapped_bytes,
        v.admitted(path, metrics).residents.last().device_bytes is None,
{
    let n = v.residents.len() as int;
    lemma_device_sum_same(v.residents, v.admitted(path, metrics).residents, n);
    lemma_mapped_sum_same(v.residents, v.admitted(path, metrics).residents, n);
}

/// What is recorded of a model takes the place of what was recorded of it before, and is counted from
/// then on; of a model that is not resident nothing is counted.
pub proof fn law_what_recording_takes_up(v: RegistryView, id: ModelId, bytes: u64)
    ensures
        v.recorded(id, bytes).total_mapped() == v.total_mapped(),
        match v.resident(id) {
            Some(r) => v.recorded(id, bytes).total_device() + on_device(r) == v.total_device()
                + bytes,
            None => v.recorded(id, bytes) == v,
        },
{
    lemma_id_index(v.residents, id, 0);
    if let Some(i) = v.find_id(id) {
        let w = v.recorded(id, bytes);
        let n = v.residents.len() as int;
        lemma_device_sum_without(v.residents, i, n);
        lemma_device_sum_without(w.residents, i, n);
        lemma_device_sum_same(v.residents.remove(i), w.residents.remove(i), n - 1);
        lemma_mapped_sum_same(v.residents, w.residents, n);
    }
}

/// An eviction gives back what the model took up, if it is not refused, and nothing if it is.
pub proof fn law_what_an_eviction_gives_back(v: RegistryView, id: ModelId)
    ensures
        v.eviction(id) is Ok ==> v.resident(id) is Some && v.evicted(id).total_device() + on_device(
            v.resident(id)->0,
        ) == v.total_device() && v.evicted(id).total_mapped()
            + v.resident(id)->0.metrics.mapped_bytes == v.total_mapped(),
        v.eviction(id) is Err ==> v.evicted(id) == v,
{
    lemma_id_index(v.residents, id, 0);
    if v.eviction(id) is Ok {
        law_what_is_taken_up_is_a_sum(v, v.find_id(id)->0);
    }
}

/// Sharing a handle or giving one back takes up nothing and gives back nothing.
pub proof fn law_handles_take_up_nothing(v: RegistryView, id: ModelId)
    ensures
        v.shared(id).total_device() == v.total_device(),
        v.shared(id).total_mapped() == v.total_mapped(),
        v.released(id).total_device() == v.total_device(),
        v.released(id).total_mapped() == v.total_mapped(),
{
    lemma_id_index(v.residents, id, 0);
    let n = v.residents.len() as int;
    lemma_device_sum_same(v.residents, v.shared(id).residents, n);
    lemma_mapped_sum_same(v.residents, v.shared(id).residents, n);
    lemma_device_sum_same(v.residents, v.released(id).residents, n);
    lemma_mapped_sum_same(v.residents, v.released(id).residents, n);
}

/// When an eviction is refused, and what it says then: of a model that is not resident that it is not
/// known, of one that is held how many handles are out.
pub proof fn law_when_an_eviction_is_refused(v: RegistryView, id: ModelId)
    ensures
        v.eviction(id) is Ok <==> v.resident(id) is Some && v.resident(id)->0.handles <= 0,
        v.resident(id) is None ==> v.eviction(id) == Err::<(), EvictError>(EvictError::UnknownId(id)),
        v.resident(id) is Some && 0 < v.resident(id)->0.handles <= usize::MAX ==> v.eviction(id)
            == Err::<(), EvictError>(
            EvictError::HandleOutstanding { outstanding: v.resident(id)->0.handles as usize },
        ),
{
}

/// The budget is a share of what is free and what models take up: a share of all of it leaves room
/// for just what is free, one part in so many of it for so many parts. What fits leaves room for
/// less, and fits into a larger share.
pub proof fn law_the_budget_is_a_share(
    resident: nat,
    new: nat,
    free: nat,
    ppm: nat,
    part: nat,
    less: nat,
    larger: nat,
)
    ensures
        within_budget(resident, new, free, 1_000_000) <==> new <= free,
        free + resident == 1_000_000 * part ==> (within_budget(resident, new, free, ppm)
            <==> resident + new <= ppm * part),
        within_budget(resident, new, free, ppm) && less <= new ==> within_budget(
            resident,
            less,
            free,
            ppm,
        ),
        within_budget(resident, new, free, ppm) && ppm <= larger ==> within_budget(
            resident,
            new,
            free,
            larger,
        ),
        within_budget(resident, new, free, ppm) <==> 1_000_000 * (resident + new) <= ppm * (free
            + resident),
{
    assert((free + resident) * ppm == ppm * (free + resident)) by (nonlinear_arith);
    assert(ppm <= larger ==> (free + resident) * ppm <= (free + resident) * larger)
        by (nonlinear_arith);
    if free + resident == 1_000_000 * part {
        assert((1_000_000 * part) * ppm == 1_000_000 * (ppm * part)) by (nonlinear_arith);
    }
}

/// What loading is said to have cost is what was measured: bringing pages in is reported where it was
/// asked for, and a mapping is warm once at most one page in a hundred is missing.
pub proof fn law_metrics_are_what_was_measured(m: Mapping, residency: Residency)
    ensures
        ({
            let r = metrics_of(m, residency);
            &&& r.map_latency_us == m.map_latency_us
            &&& r.mapped_bytes == m.len
            &&& r.rss_delta_bytes == m.rss_delta_bytes
            &&& r.resident_fraction == m.resident_fraction
            &&& r.prefault_latency_us is None <==> residency is Lazy
            &&& r.prefault_latency_us matches Some(us) ==> us == m.prefault_latency_us
            &&& m.resident_fraction is None ==> !r.warm
            &&& m.resident_fraction matches Some(f) ==> (r.warm <==> 100 * (f.whole - f.part)
                <= f.whole)
        }),
{
}

/// What is not a model file is not loaded: one that could not be mapped, one that is too short, and
/// one that does not begin as a model file does. Any other is, and the handle that is given out is for
/// it: a model of its own, used last of all, held once.
pub proof fn law_what_a_load_does(
    before: RegistryView,
    after: RegistryView,
    path: Seq<char>,
    residency: Residency,
    mapped: Result<Mapping, LoadError>,
    r: Result<ModelHandle, LoadError>,
)
    requires
        loaded(before, after, path, residency, mapped, r),
    ensures
        r is Ok <==> mapped is Ok && mapped->Ok_0.head@.len() >= 4 && mapped->Ok_0.head@[0] == 0x47
            && mapped->Ok_0.head@[1] == 0x47 && mapped->Ok_0.head@[2] == 0x55
            && mapped->Ok_0.head@[3] == 0x46,
        r is Err ==> after == before,
        mapped matches Err(e) ==> r->Err_0 == e,
        mapped matches Ok(m) && m.head@.len() < 4 ==> r->Err_0 is Empty,
        r is Err && mapped is Ok && mapped->Ok_0.head@.len() >= 4 ==> (
        r->Err_0 matches LoadError::BadMagic { found } && found@ == mapped->Ok_0.head@.take(4)),
        r matches Ok(handle) ==> {
            let last = after.residents.last();
            &&& after.residents.drop_last() == before.residents
            &&& last.path == path && last.handles == 1 && last.device_bytes is None
            &&& last.metrics.mapped_bytes == mapped->Ok_0.len
            &&& last.id == ModelId(before.next_id as u64) && after.next_id == before.next_id + 1
            &&& handle@.id == last.id && handle@.path == path && handle@.metrics == last.metrics
        },
{
    if mapped is Ok && mapped->Ok_0.head@.len() >= 4 {
        let head = mapped->Ok_0.head@;
        assert(head.take(4) == gguf_magic() <==> head[0] == 0x47 && head[1] == 0x47 && head[2] == 0x55
            && head[3] == 0x46) by {
            assert(head.take(4).len() == 4);
            if head.take(4) == gguf_magic() {
                assert(head.take(4)[0] == head[0] && head.take(4)[1] == head[1] && head.take(4)[2]
                    == head[2] && head.take(4)[3] == head[3]);
            } else if head[0] == 0x47 && head[1] == 0x47 && head[2] == 0x55 && head[3] == 0x46 {
                assert(head.take(4) =~= gguf_magic());
            }
        }
    }
    if r is Ok {
        assert(after.residents.drop_last() =~= before.residents);
    }
}

/// A file is taken for a model by its first four bytes alone; one that is shorter is empty, and one
/// that begins otherwise is told what it begins with.
pub proof fn law_a_model_is_known_by_its_beginning(
    head: &[u8],
    longer: &[u8],
    r: Result<(), LoadError>,
    s: Result<(), LoadError>,
)
    requires
        call_ensures(check_magic, (head,), r),
        call_ensures(check_magic, (longer,), s),
        head@.len() >= 4,
        longer@.take(4) == head@.take(4),
        longer@.len() >= 4,
    ensures
        r is Ok <==> s is Ok,
        r is Ok <==> head@[0] == 0x47 && head@[1] == 0x47 && head@[2] == 0x55 && head@[3] == 0x46,
        r is Err ==> r->Err_0 is BadMagic && r->Err_0->found@ == head@.take(4),
{
    let four = head@.take(4);
    assert(four.len() == 4);
    if r is Ok {
        assert(four[0] == head@[0] && four[1] == head@[1] && four[2] == head@[2] && four[3]
            == head@[3]);
    }
    if head@[0] == 0x47 && head@[1] == 0x47 && head@[2] == 0x55 && head@[3] == 0x46 {
        assert(four =~= gguf_magic());
    }
}

/// A file of fewer than four bytes is an empty one.
pub proof fn law_short_files_are_empty(head: &[u8], r: Result<(), LoadError>)
    requires
        call_ensures(check_magic, (head,), r),
    ensures
        head@.len() < 4 <==> r is Err && r->Err_0 is Empty,
{
}

/// The process grew by what it has now more than before; where one of the two is not known, nor is
/// that.
pub proof fn law_by_how_much_the_process_grew(before: i64, after: i64, r: Option<i64>)
    requires
        call_ensures(rss_delta, (Some(before), Some(after)), r),
        i64::MIN <= after - before <= i64::MAX,
    ensures
        r is Some,
        before + r->0 == after,
{
}

/// Nothing is known of the growth without both measurements.
pub proof fn law_growth_takes_two_measurements(
    before: Option<i64>,
    after: Option<i64>,
    r: Option<i64>,
)
    requires
        call_ensures(rss_delta, (before, after), r),
    ensures
        r is Some <==> before is Some && after is Some,
{
}

/// Whether there is room is told where it is known how much is free, and by the budget.
pub proof fn law_whether_there_is_room(
    v: SwapRegistry,
    new_bytes: u64,
    free: Option<u64>,
    ppm: u32,
    r: Option<bool>,
)
    requires
        call_ensures(SwapRegistry::fits_within_budget, (&v, new_bytes, free, ppm), r),
    ensures
        r is Some <==> free is Some,
        free matches Some(bytes) ==> (r == Some(true) <==> 1_000_000 * (v@.total_mapped()
            + new_bytes) <= ppm * (bytes + v@.total_mapped())),
{
    if free is Some {
        law_the_budget_is_a_share(
            v@.total_mapped(),
            new_bytes as nat,
            free->0 as nat,
            ppm as nat,
            0,
            0,
            0,
        );
    }
}

/// Nearly all is at least ninety-nine of a hundred.
pub proof fn law_what_nearly_all_is(f: Fraction, k: nat)
    ensures
        f.nearly_all() <==> 99 * f.whole <= 100 * f.part,
        f.part == f.whole ==> f.nearly_all(),
        f.whole == 100 * k && f.nearly_all() ==> f.part >= 99 * k,
        f.whole == 100 * k && f.part == 99 * k ==> f.nearly_all(),
{
}

/// An error tells its cause: what went wrong on the way, what a file begins with, which model it was
/// or how many handles to it are out.
pub proof fn law_registry_errors_tell_their_cause(
    cause: String,
    found: [u8; 4],
    id: ModelId,
    outstanding: usize,
)
    ensures
        text::contains(LoadError::Io(cause).words(), cause@),
        text::contains(
            (LoadError::BadMagic { found }).words(),
            text::decimal(found@[0] as nat) + ", "@ + text::decimal(found@[1] as nat) + ", "@
                + text::decimal(found@[2] as nat) + ", "@ + text::decimal(found@[3] as nat),
        ),
        text::contains(EvictError::UnknownId(id).words(), text::decimal(id.0 as nat)),
        text::contains(
            (EvictError::HandleOutstanding { outstanding }).words(),
            text::decimal(outstanding as nat),
        ),
{
    let none = Seq::<char>::empty();
    text::lemma_named("io error loading model: "@, cause@, none);
    text::lemma_named("unknown model id: ModelId("@, text::decimal(id.0 as nat), ")"@);
    let end = " handle(s) still outstanding, refusing to evict"@;
    text::lemma_named(none, text::decimal(outstanding as nat), end);
    assert((EvictError::HandleOutstanding { outstanding }).words() =~= none + text::decimal(
        outstanding as nat,
    ) + end);
    let lead = "not a GGUF file: expected magic [71, 71, 85, 70], found ["@;
    let bytes = text::decimal(found@[0] as nat) + ", "@ + text::decimal(found@[1] as nat) + ", "@
        + text::decimal(found@[2] as nat) + ", "@ + text::decimal(found@[3] as nat);
    assert((LoadError::BadMagic { found }).words() =~= lead + bytes + "]"@);
    text::lemma_named(lead, bytes, "]"@);
}

/// A resident model is used under its path: the handle is to that model, which is held once more and
/// is the last to be evicted; a path that is not resident gives no handle and changes nothing.
pub proof fn law_what_a_use_gives(v: &mut SwapRegistry, path: &str, k: int, r: Option<ModelHandle>)
    requires
        call_ensures(SwapRegistry::reuse, (v, path), r),
        old(v)@.wf(),
    ensures
        r is Some <==> exists|i: int|
            0 <= i < old(v)@.residents.len() && (#[trigger] old(v)@.residents[i]).path == path@,
        r is None ==> final(v)@ == old(v)@,
        0 <= k < old(v)@.residents.len() && old(v)@.residents[k].path == path@ ==> {
            &&& r->0@.id == old(v)@.residents[k].id
            &&& r->0@.path == path@
            &&& r->0@.metrics == old(v)@.residents[k].metrics
            &&& final(v)@.residents.len() == old(v)@.residents.len()
            &&& final(v)@.residents.last().id == old(v)@.residents[k].id
            &&& final(v)@.residents.last().handles == old(v)@.residents[k].handles + 1
            &&& final(v)@.next_id == old(v)@.next_id
        },
{
    lemma_path_index(old(v)@.residents, path@, 0);
    if 0 <= k < old(v)@.residents.len() && old(v)@.residents[k].path == path@ {
        lemma_first_path(old(v)@, k, 0);
    }
}

/// A handle is made of a handle while its model is resident, to the same model, which is held once
/// more; letting go of it leaves everything as it was.
pub proof fn law_what_sharing_gives(
    v: &mut SwapRegistry,
    w: &mut SwapRegistry,
    handle: ModelHandle,
    r: Option<ModelHandle>,
)
    requires
        call_ensures(SwapRegistry::share, (v, &handle), r),
        call_ensures(SwapRegistry::release, (w, handle), ()),
        old(v)@.wf(),
        old(v)@.resident(handle@.id) is Some ==> old(v)@.resident(handle@.id)->0.handles >= 0,
    ensures
        r is Some <==> old(v)@.resident(handle@.id) is Some,
        r is None ==> final(v)@ == old(v)@,
        r is Some ==> {
            &&& r->0@ == handle@
            &&& final(v)@.resident(handle@.id) is Some
            &&& final(v)@.resident(handle@.id)->0.handles == old(v)@.resident(
                handle@.id,
            )->0.handles + 1
        },
        old(w)@ == final(v)@ && r is Some ==> final(w)@ == old(v)@,
{
    let id = handle@.id;
    lemma_id_index(old(v)@.residents, id, 0);
    if let Some(i) = old(v)@.find_id(id) {
        lemma_first_id(old(v)@, i, 0);
        lemma_same_ids(old(v)@.residents, final(v)@.residents, id, 0);
        if old(w)@ == final(v)@ {
            assert(final(w)@.residents =~= old(v)@.residents);
        }
    }
}

proof fn lemma_same_ids(a: Seq<ResidentView>, b: Seq<ResidentView>, id: ModelId, from: int)
    requires
        0 <= from,
        a.len() == b.len(),
        forall|i: int| 0 <= i < a.len() ==> (#[trigger] a[i]).id == b[i].id,
    ensures
        id_index(a, id, from) == id_index(b, id, from),
    decreases a.len() - from,
{
    if from < a.len() {
        assert(a[from].id == b[from].id);
        if a[from].id != id {
            lemma_same_ids(a, b, id, from + 1);
        }
    }
}

} // verus!
