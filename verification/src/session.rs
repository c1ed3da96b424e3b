//! What is decided around a model's loading and its embeddings: where its layers go, what a failed
//! context is reported as, and how texts are pooled.

use vstd::prelude::*;
use crate::generation::{BatchEntry, EMBED_MAX_TOKENS};
use crate::protocol::WirePooling;
use crate::text;

verus! {

/// How the vectors of a text's tokens become one.
#[derive(Debug, Clone, Copy, PartialEq, Eq, Structural)]
pub enum Pooling {
    /// As the model says.
    Model,
    Mean,
    Cls,
    Last,
}

impl Pooling {
    /// The pooling that a request asks for.
    pub open spec fn of(wire: WirePooling) -> Pooling {
        match wire {
            WirePooling::Model => Pooling::Model,
            WirePooling::Mean => Pooling::Mean,
            WirePooling::Cls => Pooling::Cls,
            WirePooling::Last => Pooling::Last,
        }
    }

    /// The pooling that a request asks for.
    pub fn from_wire(wire: WirePooling) -> (r: Self)
        ensures
            r == Pooling::of(wire),
    {
        match wire {
            WirePooling::Model => Pooling::Model,
            WirePooling::Mean => Pooling::Mean,
            WirePooling::Cls => Pooling::Cls,
            WirePooling::Last => Pooling::Last,
        }
    }

    /// The pooling to ask of a context; nothing is asked where the model is to decide.
    pub fn explicit(self) -> (r: Option<Pooling>)
        ensures
            r == if self == Pooling::Model {
                None
            } else {
                Some(self)
            },
    {
        match self {
            Pooling::Model => None,
            _ => Some(self),
        }
    }
}

/// Why texts could not be embedded.
#[derive(Debug)]
pub enum EmbedFailure<E> {
    /// The model has no pooling of its own.
    NoPooling(E),
    Other(E),
}

/// A first attempt is to be repeated: the model was to decide, and has no pooling of its own.
pub open spec fn falls_back<V, E>(pooling: Pooling, r: Result<Vec<V>, EmbedFailure<E>>) -> bool {
    pooling == Pooling::Model && r is Err && r->Err_0 is NoPooling
}

/// Embeds `count` texts with `run`. No texts need no model; and where the model is to decide on
/// the pooling and has none, the mean is taken.
pub fn embed<V, E, R: Fn(Pooling) -> Result<Vec<V>, EmbedFailure<E>>>(
    count: usize,
    pooling: Pooling,
    run: &R,
) -> (r: Result<Vec<V>, EmbedFailure<E>>)
    requires
        call_requires(*run, (pooling,)),
        call_requires(*run, (Pooling::Mean,)),
    ensures
        count == 0 ==> r is Ok && r->Ok_0@.len() == 0,
        count > 0 ==> exists|first: Result<Vec<V>, EmbedFailure<E>>| #[trigger]
            call_ensures(*run, (pooling,), first) && if falls_back(pooling, first) {
                call_ensures(*run, (Pooling::Mean,), r)
            } else {
                r == first
            },
{
    if count == 0 {
        return Ok(Vec::new());
    }
    let first: Result<Vec<V>, EmbedFailure<E>> = run(pooling);
    match (pooling, &first) {
        (Pooling::Model, Err(EmbedFailure::NoPooling(_))) => run(Pooling::Mean),
        _ => first,
    }
}

/// The batch that embeds a text of `count` tokens, of which at most `capacity` are taken: every
/// position is read.
pub fn embed_batch(count: usize, capacity: usize) -> (r: Vec<BatchEntry>)
    requires
        capacity <= EMBED_MAX_TOKENS,
    ensures
        r@.len() == if count <= capacity {
            count
        } else {
            capacity
        },
        forall|i: int|
            0 <= i < r@.len() ==> #[trigger] r@[i] == (BatchEntry {
                index: i as usize,
                pos: i as i32,
                logits: true,
            }),
{
    let n: usize = if count <= capacity {
        count
    } else {
        capacity
    };
    let mut r: Vec<BatchEntry> = Vec::new();
    let mut i: usize = 0;
    while i < n
        invariant
            i <= n,
            n <= EMBED_MAX_TOKENS,
            r@.len() == i,
            forall|j: int|
                0 <= j < i ==> #[trigger] r@[j] == (BatchEntry {
                    index: j as usize,
                    pos: j as i32,
                    logits: true,
                }),
        decreases n - i,
    {
        r.push(BatchEntry { index: i, pos: i as i32, logits: true });
        i += 1;
    }
    r
}

/// How many of a model's layers go to the device.
#[derive(Debug, Clone, Copy, PartialEq, Eq, Structural)]
pub enum GpuLayers {
    /// As many as fit when it is loaded.
    Auto,
    /// This many.
    Fixed(u32),
}

impl Default for GpuLayers {
    fn default() -> (r: Self)
        ensures
            r == GpuLayers::Auto,
    {
        GpuLayers::Auto
    }
}

/// How much of each device's memory is left unused when layers are fitted into it.
pub const GPU_FIT_MARGIN_BYTES: usize = 1073741824;

/// The smallest context that fitting must leave room for.
pub const GPU_FIT_MIN_CTX: u32 = 4096;

/// What fitting a model's layers into device memory came to.
#[derive(Debug, Clone, Copy, PartialEq, Eq, Structural)]
pub enum Fit {
    /// Some allocation fits.
    Fitted,
    /// None does.
    NoRoom,
    /// It could not be found out.
    Failed,
}

/// What a model is loaded with.
#[derive(Debug, Clone, Copy, PartialEq, Eq, Structural)]
pub enum Placement {
    /// What fitting chose.
    AsFitted,
    /// This many layers on the device.
    Layers(u32),
}

/// Where a model's layers go, if that is known; `fit` is consulted only where it has to be. A model
/// that does not fit is loaded without the device.
pub open spec fn placed(layers: GpuLayers, fit: Fit) -> Option<Placement> {
    match layers {
        GpuLayers::Fixed(n) => Some(Placement::Layers(n)),
        GpuLayers::Auto => match fit {
            Fit::Fitted => Some(Placement::AsFitted),
            Fit::NoRoom => Some(Placement::Layers(0)),
            Fit::Failed => None,
        },
    }
}

/// Where a model's layers go: a fixed number to the device, or what `fit` finds.
pub fn resolve_placement<F: Fn() -> Fit>(layers: GpuLayers, fit: &F) -> (r: Option<Placement>)
    requires
        call_requires(*fit, ()),
    ensures
        match layers {
            GpuLayers::Fixed(n) => r == Some(Placement::Layers(n)),
            GpuLayers::Auto => exists|out: Fit| #[trigger]
                call_ensures(*fit, (), out) && r == placed(layers, out),
        },
{
    match layers {
        GpuLayers::Fixed(n) => Some(Placement::Layers(n)),
        GpuLayers::Auto => match fit() {
            Fit::Fitted => Some(Placement::AsFitted),
            Fit::NoRoom => Some(Placement::Layers(0)),
            Fit::Failed => None,
        },
    }
}

/// The device memory that a load took up, where it could be measured before and after.
pub fn device_footprint(free_before: Option<u64>, free_after: Option<u64>) -> (r: Option<u64>)
    ensures
        r == (match (free_before, free_after) {
            (Some(before), Some(after)) => Some(
                if before >= after {
                    (before - after) as u64
                } else {
                    0
                },
            ),
            _ => None,
        }),
{
    match (free_before, free_after) {
        (Some(before), Some(after)) => if before >= after {
            Some(before - after)
        } else {
            Some(0)
        },
        _ => None,
    }
}

/// Why there is no context.
#[derive(Debug)]
pub enum ContextError {
    /// Something else is wrong, or there is no device to report on.
    Load { cause: String },
    /// The device may be exhausted.
    Allocation { n_ctx: u32, free_mib: u64, total_mib: u64, cause: String },
}

impl ContextError {
    /// The error in words.
    pub open spec fn words(self) -> Seq<char> {
        match self {
            ContextError::Load { cause } => "llama.cpp context error: "@ + cause@,
            ContextError::Allocation { n_ctx, free_mib, total_mib, cause } => {
                "could not allocate a "@ + text::decimal(n_ctx as nat) + "-token context: "@
                    + cause@ + " -- "@ + text::decimal(free_mib as nat) + " MiB free of "@
                    + text::decimal(total_mib as nat)
                    + " MiB on the device (llama.cpp reports an exhausted device as a null pointer, so this is usually what out-of-memory looks like)"@
            },
        }
    }

    /// The error in words.
    pub fn message(&self) -> (r: String)
        ensures
            r@ == self.words(),
    {
        match self {
            ContextError::Load { cause } => {
                let mut m: String = "llama.cpp context error: ".to_string();
                m.append(cause.as_str());
                m
            },
            ContextError::Allocation { n_ctx, free_mib, total_mib, cause } => {
                let mut m: String = "could not allocate a ".to_string();
                m.append(text::number(*n_ctx as u64).as_str());
                m.append("-token context: ");
                m.append(cause.as_str());
                m.append(" -- ");
                m.append(text::number(*free_mib).as_str());
                m.append(" MiB free of ");
                m.append(text::number(*total_mib).as_str());
                m.append(
                    " MiB on the device (llama.cpp reports an exhausted device as a null pointer, so this is usually what out-of-memory looks like)",
                );
                m
            },
        }
    }
}

/// What a context of `asked` tokens that was not allocated is reported as, with what the device has
/// free and has in all, where there is one.
pub fn context_failure(cause: String, asked: u32, gpu: Option<(u64, u64)>) -> (r: ContextError)
    ensures
        r == (match gpu {
            Some((free, total)) => ContextError::Allocation {
                n_ctx: asked,
                free_mib: (free / 1048576) as u64,
                total_mib: (total / 1048576) as u64,
                cause,
            },
            None => ContextError::Load { cause },
        }),
{
    match gpu {
        Some((free, total)) => ContextError::Allocation {
            n_ctx: asked,
            free_mib: free / 1048576,
            total_mib: total / 1048576,
            cause,
        },
        None => ContextError::Load { cause },
    }
}

/// What is asked for is what is pooled by.
pub proof fn law_pooling_is_as_asked(wire: WirePooling)
    ensures
        Pooling::of(wire) is Model <==> wire is Model,
        Pooling::of(wire) is Mean <==> wire is Mean,
        Pooling::of(wire) is Cls <==> wire is Cls,
        Pooling::of(wire) is Last <==> wire is Last,
{
}

/// The mean is taken instead only where the model was to decide and cannot: never where a pooling was
/// asked for, where it worked, or where something else went wrong.
pub proof fn law_when_the_mean_is_taken<V, E>(
    pooling: Pooling,
    r: Result<Vec<V>, EmbedFailure<E>>,
    vectors: Vec<V>,
    e: E,
)
    ensures
        falls_back::<V, E>(Pooling::Model, Err(EmbedFailure::NoPooling(e))),
        !falls_back::<V, E>(pooling, Err(EmbedFailure::Other(e))),
        !falls_back::<V, E>(pooling, Ok(vectors)),
        pooling != Pooling::Model ==> !falls_back(pooling, r),
{
}

/// A fixed number of layers is kept to, whatever fits; a model of which nothing fits goes without the
/// device; and one of which it could not be found out is not placed.
pub proof fn law_where_layers_go(n: u32, fit: Fit)
    ensures
        placed(GpuLayers::Fixed(n), fit) == Some(Placement::Layers(n)),
        placed(GpuLayers::Auto, Fit::NoRoom) == Some(Placement::Layers(0)),
        placed(GpuLayers::Auto, Fit::Fitted) == Some(Placement::AsFitted),
        placed(GpuLayers::Auto, fit) is None <==> fit is Failed,
{
}

/// Pooling that was asked for is named; that of the model is not.
pub proof fn law_which_pooling_is_named(p: Pooling, r: Option<Pooling>)
    requires
        call_ensures(Pooling::explicit, (p,), r),
    ensures
        r is None <==> p is Model,
        r is Some ==> r->0 == p,
{
}

/// Every token of a text is embedded, in order, as far as there is room, and each gives an output.
pub proof fn law_every_token_is_embedded(
    count: usize,
    capacity: usize,
    r: Vec<BatchEntry>,
    i: int,
)
    requires
        call_ensures(embed_batch, (count, capacity), r),
    ensures
        r@.len() <= count,
        r@.len() <= capacity,
        r@.len() == count || r@.len() == capacity,
        0 <= i < r@.len() ==> r@[i].index == i as usize && r@[i].pos == i as i32 && r@[i].logits,
{
}

/// What a load took up is what is free no longer; a device that has more free than before took up
/// nothing.
pub proof fn law_what_a_load_took_up(before: Option<u64>, after: Option<u64>, r: Option<u64>)
    requires
        call_ensures(device_footprint, (before, after), r),
    ensures
        r is Some <==> before is Some && after is Some,
        r is Some && before->0 >= after->0 ==> after->0 + r->0 == before->0,
        r is Some && before->0 <= after->0 ==> r->0 == 0,
{
}

/// A context that was not allocated is told with what was asked for and what the device has, in
/// mebibytes; without a device, with the cause alone.
pub proof fn law_what_is_told_of_a_failed_context(
    cause: String,
    asked: u32,
    gpu: Option<(u64, u64)>,
    r: ContextError,
)
    requires
        call_ensures(context_failure, (cause, asked, gpu), r),
    ensures
        r is Allocation <==> gpu is Some,
        r is Load ==> r->Load_cause@ == cause@,
        gpu matches Some((free, total)) ==> {
            &&& r->n_ctx == asked
            &&& r->Allocation_cause@ == cause@
            &&& 1048576 * r->free_mib <= free < 1048576 * (r->free_mib + 1)
            &&& 1048576 * r->total_mib <= total < 1048576 * (r->total_mib + 1)
        },
{
}

/// An error tells its cause, what was asked for and what the device has.
pub proof fn law_context_errors_tell_their_numbers(
    n_ctx: u32,
    free_mib: u64,
    total_mib: u64,
    cause: String,
)
    ensures
        text::contains((ContextError::Load { cause }).words(), cause@),
        ({
            let told = (ContextError::Allocation { n_ctx, free_mib, total_mib, cause }).words();
            &&& text::contains(told, text::decimal(n_ctx as nat))
            &&& text::contains(told, cause@)
            &&& text::contains(told, text::decimal(free_mib as nat))
            &&& text::contains(told, text::decimal(total_mib as nat))
        }),
{
    text::lemma_named("llama.cpp context error: "@, cause@, Seq::empty());
    let told = (ContextError::Allocation { n_ctx, free_mib, total_mib, cause }).words();
    let a = "could not allocate a "@;
    let n = text::decimal(n_ctx as nat);
    let b = "-token context: "@;
    let c = " -- "@;
    let f = text::decimal(free_mib as nat);
    let d = " MiB free of "@;
    let t = text::decimal(total_mib as nat);
    let e =
        " MiB on the device (llama.cpp reports an exhausted device as a null pointer, so this is usually what out-of-memory looks like)"@;
    assert(told =~= a + n + (b + cause@ + c + f + d + t + e));
    text::lemma_named(a, n, b + cause@ + c + f + d + t + e);
    assert(told =~= (a + n + b) + cause@ + (c + f + d + t + e));
    text::lemma_named(a + n + b, cause@, c + f + d + t + e);
    assert(told =~= (a + n + b + cause@ + c) + f + (d + t + e));
    text::lemma_named(a + n + b + cause@ + c, f, d + t + e);
    text::lemma_named(a + n + b + cause@ + c + f + d, t, e);
}

/// Nothing is embedded for nothing; else what is returned is what came of the pooling that was asked
/// for, or of the mean where that could not be had from the model.
pub proof fn law_what_embedding_returns<V, E, R: Fn(Pooling) -> Result<Vec<V>, EmbedFailure<E>>>(
    count: usize,
    pooling: Pooling,
    run: R,
    r: Result<Vec<V>, EmbedFailure<E>>,
)
    requires
        call_ensures(embed::<V, E, R>, (count, pooling, &run), r),
    ensures
        count == 0 ==> r is Ok && r->Ok_0@.len() == 0,
        count > 0 && pooling != Pooling::Model ==> call_ensures(run, (pooling,), r),
        count > 0 ==> call_ensures(run, (pooling,), r) || call_ensures(run, (Pooling::Mean,), r),
{
    if count > 0 {
        let first = choose|first: Result<Vec<V>, EmbedFailure<E>>| #[trigger]
            call_ensures(run, (pooling,), first) && if falls_back(pooling, first) {
                call_ensures(run, (Pooling::Mean,), r)
            } else {
                r == first
            };
        assert(call_ensures(run, (pooling,), first));
    }
}

} // verus!
