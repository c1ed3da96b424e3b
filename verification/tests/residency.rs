use rampipe::memory::{available_bytes, resident_set};
use rampipe::registry::{
    check_magic, rss_delta, EvictError, Fraction, LoadError, Mapping, ModelHandle,
    ModelId, Residency, SwapRegistry,
};

/// A mapped file: the magic and `extra` bytes more.
fn mapped(extra: usize) -> Result<Mapping, LoadError> {
    mapped_with(b"GGUF", extra, Some(Fraction { part: 1, whole: 4 }))
}

fn mapped_with(
    head: &[u8],
    extra: usize,
    resident_fraction: Option<Fraction>,
) -> Result<Mapping, LoadError> {
    Ok(Mapping {
        head: head.to_vec(),
        len: head.len() + extra,
        map_latency_us: 5,
        prefault_latency_us: 700,
        rss_delta_bytes: Some(4096),
        resident_fraction,
    })
}

fn load(registry: &mut SwapRegistry, path: &str, residency: Residency) -> ModelHandle {
    registry
        .load(path, residency, &|_path: &str, _residency: Residency| mapped(4096))
        .expect("load")
}

#[test]
fn rejects_non_gguf_files() {
    let mut registry = SwapRegistry::new();
    let err = registry
        .load("bad", Residency::Lazy, &|_path: &str, _residency: Residency| {
            mapped_with(b"NOPE", 0, None)
        })
        .expect_err("should reject non-GGUF file");
    assert_eq!(
        err.message(),
        "not a GGUF file: expected magic [71, 71, 85, 70], found [78, 79, 80, 69]"
    );
    assert!(matches!(err, LoadError::BadMagic { found } if &found == b"NOPE"));
    assert_eq!(registry.resident_count(), 0);
}

#[test]
fn rejects_empty_files() {
    let mut registry = SwapRegistry::new();
    let err = registry
        .load("empty", Residency::Lazy, &|_path: &str, _residency: Residency| {
            mapped_with(b"", 0, None)
        })
        .expect_err("should reject empty file");
    assert_eq!(err.message(), "file is empty");
    assert!(matches!(err, LoadError::Empty));
}

#[test]
fn loads_a_valid_gguf_file() {
    let mut registry = SwapRegistry::new();
    let handle = load(&mut registry, "a", Residency::Lazy);

    assert_eq!(handle.metrics().mapped_bytes, 4 + 4096);
    assert_eq!(handle.path(), "a");
    assert!(registry.is_resident(handle.id()));
}

#[test]
fn repeated_load_of_same_path_dedups_to_one_mapping() {
    let mut registry = SwapRegistry::new();

    let first = load(&mut registry, "a", Residency::Lazy);
    let second = registry
        .load("a", Residency::Lazy, &|_path: &str, _residency: Residency| {
            panic!("it is mapped already")
        })
        .expect("second load");

    assert_eq!(first.id(), second.id());
    assert_eq!(registry.resident_count(), 1);
    assert_eq!(registry.mapped_bytes(), 4 + 4096);
}

#[test]
fn eviction_fails_while_a_handle_is_outstanding_then_succeeds_after_drop() {
    let mut registry = SwapRegistry::new();

    let handle = load(&mut registry, "a", Residency::Lazy);
    let id = handle.id();

    let err = registry.evict(id).expect_err("evict should refuse while handle is live");
    assert_eq!(err.message(), "1 handle(s) still outstanding, refusing to evict");
    assert!(matches!(err, EvictError::HandleOutstanding { outstanding: 1 }));
    assert!(registry.is_resident(id), "must still be resident after a refused evict");

    registry.release(handle);

    registry.evict(id).expect("evict should succeed once the handle is dropped");
    assert!(!registry.is_resident(id));
}

#[test]
fn a_registry_says_whether_it_can_be_counted() {
    let mut registry = SwapRegistry::new();
    assert!(registry.is_countable());
    let first = load(&mut registry, "a", Residency::Lazy);
    let second = load(&mut registry, "b", Residency::Lazy);
    registry.record_device_bytes(first.id(), u64::MAX);
    assert!(registry.is_countable());
    registry.record_device_bytes(second.id(), 1);
    assert!(!registry.is_countable());
}

#[test]
fn evicting_an_unknown_id_is_an_error() {
    let mut registry = SwapRegistry::new();

    let handle = load(&mut registry, "a", Residency::Lazy);
    let id = handle.id();
    registry.release(handle);
    registry.evict(id).expect("first evict should succeed");

    let err = registry.evict(id).expect_err("id is no longer resident");
    assert_eq!(err.message(), format!("unknown model id: {id:?}"));
    assert!(matches!(err, EvictError::UnknownId(unknown) if unknown == id));
}

#[test]
fn prefault_latency_is_attributed_to_eager_residency_modes_only() {
    let mut registry = SwapRegistry::new();

    let lazy = load(&mut registry, "lazy", Residency::Lazy);
    assert!(lazy.metrics().prefault_latency_us.is_none());

    let prefaulted = load(&mut registry, "prefault", Residency::Prefault);
    assert!(prefaulted.metrics().prefault_latency_us.is_some());

    let advised = load(&mut registry, "advise", Residency::Advise);
    assert!(advised.metrics().prefault_latency_us.is_some());
}

#[test]
fn mincore_result_is_structurally_valid_after_prefault() {
    for (part, whole) in [(0u64, 32u64), (8, 32), (31, 32), (99, 100), (100, 100)] {
        let mut registry = SwapRegistry::new();
        let handle = registry
            .load("a", Residency::Prefault, &|_path: &str, _residency: Residency| {
                mapped_with(b"GGUF", 4096 * 32, Some(Fraction { part, whole }))
            })
            .expect("prefault load");
        let metrics = handle.metrics();
        let measured = metrics.resident_fraction.expect("measured");
        let fraction = measured.part as f64 / measured.whole as f64;
        assert!((0.0..=1.0).contains(&fraction), "resident_fraction {fraction} out of range");
        assert_eq!(metrics.warm, fraction >= 0.99, "warm should follow directly from the fraction");
    }
}

#[test]
fn resident_ids_by_lru_orders_by_most_recent_access() {
    let mut registry = SwapRegistry::new();

    let a = load(&mut registry, "a", Residency::Lazy);
    let b = load(&mut registry, "b", Residency::Lazy);
    let c = load(&mut registry, "c", Residency::Lazy);

    assert_eq!(
        registry.resident_ids_by_lru(),
        vec![a.id(), b.id(), c.id()],
        "load order is access order with nothing re-touched yet"
    );

    load(&mut registry, "a", Residency::Lazy);
    assert_eq!(
        registry.resident_ids_by_lru(),
        vec![b.id(), c.id(), a.id()],
        "re-touching a should move it to most-recently-used"
    );
}

#[test]
fn resident_ids_by_lru_drops_an_evicted_model() {
    let mut registry = SwapRegistry::new();

    let a = load(&mut registry, "a", Residency::Lazy);
    let b = load(&mut registry, "b", Residency::Lazy);
    registry.release(a);
    let a_id = registry.resident_ids_by_lru()[0];
    registry.evict(a_id).expect("evict a");

    assert_eq!(registry.resident_ids_by_lru(), vec![b.id()]);
}

#[test]
fn fits_within_budget_is_true_for_a_tiny_model_at_a_generous_budget() {
    let registry = SwapRegistry::new();
    let free = 16 * 1024 * 1024 * 1024;
    assert_eq!(registry.fits_within_budget(1024, Some(free), 1_000_000), Some(true));
    assert_eq!(registry.fits_within_budget(1024, None, 1_000_000), None);
}

#[test]
fn fits_within_budget_is_false_for_an_absurdly_large_model() {
    let registry = SwapRegistry::new();
    let free = 16 * 1024 * 1024 * 1024;
    assert_eq!(
        registry.fits_within_budget(u64::MAX / 2, Some(free), 800_000),
        Some(false),
        "no real machine has ~9 exabytes of free+resident memory to spare"
    );
}

#[test]
fn fits_within_budget_counts_already_resident_bytes_toward_the_ceiling() {
    let mut registry = SwapRegistry::new();
    load(&mut registry, "a", Residency::Lazy);
    assert_eq!(
        registry.fits_within_budget(1, Some(1 << 34), 0),
        Some(false),
        "a 0.0 budget fraction should never fit anything"
    );
    // Half of 4100 resident and 5900 free bytes is 5000: 900 more fit, 901 do not.
    assert_eq!(registry.fits_within_budget(900, Some(5900), 500_000), Some(true));
    assert_eq!(registry.fits_within_budget(901, Some(5900), 500_000), Some(false));
}

#[test]
fn device_bytes_is_none_until_recorded() {
    let mut registry = SwapRegistry::new();
    let handle = load(&mut registry, "a", Residency::Lazy);

    assert_eq!(
        registry.device_bytes(handle.id()),
        None,
        "nothing has reported a GPU measurement yet"
    );
    registry.record_device_bytes(handle.id(), 12_345);
    assert_eq!(registry.device_bytes(handle.id()), Some(12_345));
}

#[test]
fn record_device_bytes_is_a_noop_for_an_id_that_was_evicted() {
    let mut registry = SwapRegistry::new();
    let handle = load(&mut registry, "a", Residency::Lazy);
    let id = handle.id();
    registry.release(handle);
    registry.evict(id).expect("evict");

    registry.record_device_bytes(id, 999);
    assert_eq!(registry.device_resident_bytes(), 0);
}

#[test]
fn device_resident_bytes_sums_only_models_with_recorded_bytes() {
    let mut registry = SwapRegistry::new();
    load(&mut registry, "cpu", Residency::Lazy);
    let gpu_handle = load(&mut registry, "gpu", Residency::Lazy);
    registry.record_device_bytes(gpu_handle.id(), 500);

    assert_eq!(
        registry.device_resident_bytes(),
        500,
        "the CPU-only model should contribute nothing"
    );
}

#[test]
fn fits_within_device_budget_is_true_for_a_tiny_model_at_a_generous_budget() {
    let registry = SwapRegistry::new();
    assert!(
        registry.fits_within_device_budget(1024, 16 * 1024 * 1024 * 1024, 1_000_000),
        "1KB should trivially fit in 16GB free at a 100% budget"
    );
}

#[test]
fn fits_within_device_budget_is_false_when_little_device_memory_is_free() {
    let registry = SwapRegistry::new();
    assert!(
        !registry.fits_within_device_budget(8 * 1024 * 1024 * 1024, 1024, 800_000),
        "an 8GB model can't fit in 1KB of free device memory"
    );
}

#[test]
fn fits_within_device_budget_counts_recorded_device_bytes_toward_the_ceiling() {
    let mut registry = SwapRegistry::new();
    let handle = load(&mut registry, "a", Residency::Lazy);
    registry.record_device_bytes(handle.id(), 4 * 1024 * 1024 * 1024);

    assert!(
        !registry.fits_within_device_budget(1, 16 * 1024 * 1024 * 1024, 0),
        "a 0.0 budget fraction should never fit anything"
    );
}

#[test]
fn resident_fraction_is_populated_regardless_of_residency_mode() {
    let mut registry = SwapRegistry::new();
    let lazy = load(&mut registry, "lazy", Residency::Lazy);
    let advised = load(&mut registry, "advise", Residency::Advise);
    for fraction in [lazy.metrics().resident_fraction, advised.metrics().resident_fraction] {
        let f = fraction.expect("measured");
        assert!(f.part <= f.whole, "resident_fraction {f:?} out of range");
    }
}

#[test]
fn a_file_that_cannot_be_mapped_is_an_error() {
    let mut registry = SwapRegistry::default();
    let err = registry
        .load("a", Residency::Lazy, &|_path: &str, _residency: Residency| {
            Err(LoadError::Io("no such file".to_string()))
        })
        .expect_err("not mapped");
    assert_eq!(err.message(), "io error loading model: no such file");
    assert_eq!(registry.resident_count(), 0);
}

#[test]
fn the_magic_needs_four_bytes() {
    assert!(check_magic(b"GGUF and more").is_ok());
    assert!(matches!(check_magic(b"GGU"), Err(LoadError::Empty)));
    assert!(matches!(check_magic(b"GGML"), Err(LoadError::BadMagic { .. })));
}

#[test]
fn every_holder_counts() {
    let mut registry = SwapRegistry::new();
    let first = load(&mut registry, "a", Residency::Lazy);
    let second = registry.share(&first).expect("resident");
    let third = registry.reuse("a").expect("resident");
    assert!(registry.reuse("b").is_none());
    let id = first.id();
    assert_eq!(registry.evict(id), Err(EvictError::HandleOutstanding { outstanding: 3 }));
    registry.release(second);
    registry.release(third);
    assert_eq!(registry.evict(id), Err(EvictError::HandleOutstanding { outstanding: 1 }));
    registry.release(first);
    assert_eq!(registry.evict(id), Ok(()));
}

#[test]
fn identifiers_are_not_used_again() {
    let mut registry = SwapRegistry::new();
    let first = load(&mut registry, "a", Residency::Lazy);
    let id = first.id();
    registry.release(first);
    registry.evict(id).expect("evict");
    let again = load(&mut registry, "a", Residency::Lazy);
    assert_ne!(again.id(), id);
    assert_eq!((id, again.id()), (ModelId(0), ModelId(1)));
}

#[test]
fn the_kernels_account_is_read_in_pages() {
    assert_eq!(resident_set("2000 300 100 1 0 50 0\n"), Some(300 * 4096));
    assert_eq!(resident_set("2000\n"), None);
    assert_eq!(resident_set(""), None);
    assert_eq!(resident_set("2000 x 100"), None);
    assert_eq!(resident_set("2000\t+7"), Some(7 * 4096));
    assert_eq!(resident_set("2000 -7"), Some(-7 * 4096));
    assert_eq!(resident_set("1 99999999999999999999"), None);
}

#[test]
fn growth_needs_two_measurements() {
    assert_eq!(rss_delta(Some(100), Some(350)), Some(250));
    assert_eq!(rss_delta(Some(350), Some(100)), Some(-250));
    assert_eq!(rss_delta(None, Some(1)), None);
    assert_eq!(rss_delta(Some(1), None), None);
}

#[test]
fn available_memory_is_read_in_kibibytes() {
    let meminfo = "MemTotal:       16000000 kB\nMemFree:          500000 kB\nMemAvailable:    8000000 kB\n";
    assert_eq!(available_bytes(meminfo), Some(8_000_000 * 1024));
    assert_eq!(available_bytes("MemAvailable: 1\nMemAvailable: 2\n"), Some(1024));
    assert_eq!(available_bytes("MemTotal: 1 kB\n"), None);
    assert_eq!(available_bytes("MemAvailable: many kB\n"), None);
    assert_eq!(available_bytes("MemAvailable:\n"), None);
    assert_eq!(available_bytes("MemAvailable: -1 kB\n"), None);
    assert_eq!(available_bytes("MemAvailable: 9223372036854775807 kB\n"), None);
    assert_eq!(available_bytes(""), None);
}
