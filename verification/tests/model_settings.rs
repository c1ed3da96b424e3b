use rampipe::model_settings::{Entry, ModelSettings, SettingsError, SettingsFile};
use rampipe::protocol::WireSampling;

fn entry() -> Entry<f32> {
    Entry {
        temperature: None,
        top_k: None,
        seed: None,
        repeat_penalty: 1.0,
        frequency_penalty: 0.0,
        presence_penalty: 0.0,
        penalty_last_n: 0,
        max_new_tokens: None,
        note: None,
    }
}

fn settings(models: Vec<(&str, Entry<f32>)>) -> ModelSettings<f32> {
    ModelSettings {
        default: None,
        models: models.into_iter().map(|(key, entry)| (key.to_string(), entry)).collect(),
    }
}

#[test]
fn a_generation_cap_can_be_configured_per_model() {
    let config = settings(vec![
        ("big", Entry { max_new_tokens: Some(8192), ..entry() }),
        ("small", Entry { repeat_penalty: 1.1, ..entry() }),
    ]);
    assert_eq!(config.max_new_tokens_for("/m/big-Q4.gguf"), Some(8192));
    assert_eq!(
        config.max_new_tokens_for("/m/small-Q4.gguf"),
        None,
        "an entry that says nothing about it leaves the caller's own value alone"
    );
    assert_eq!(config.max_new_tokens_for("/m/unknown.gguf"), None);
}

#[test]
fn a_model_gets_the_settings_its_card_recommends() {
    let config = settings(vec![(
        "Qwen3-Coder-30B-A3B-Instruct",
        Entry {
            repeat_penalty: 1.18,
            frequency_penalty: 0.1,
            presence_penalty: 1.0,
            penalty_last_n: 512,
            note: Some("from the model card".to_string()),
            ..entry()
        },
    )]);
    let path = "/m/Qwen3-Coder-30B-A3B-Instruct-Q4_K_M.gguf";
    let WireSampling::Greedy { penalties } = config.sampling_for(path, 1.0, 0.0) else {
        panic!("no temperature configured, so greedy");
    };
    assert_eq!(penalties.repeat, 1.18);
    assert_eq!(penalties.last_n, 512);
    assert_eq!(penalties.freq, 0.1);
    assert_eq!(penalties.present, 1.0);
    assert_eq!(
        config.entry_for(path).and_then(|e| e.note.as_deref()),
        Some("from the model card"),
        "the file records where a number came from"
    );
}

#[test]
fn every_quantisation_of_one_model_matches_the_same_entry() {
    let config = settings(vec![("Qwen3-Coder-30B", Entry { repeat_penalty: 1.18, ..entry() })]);
    for quant in ["Q4_K_M", "Q5_K_M", "IQ4_XS"] {
        let path = format!("/m/Qwen3-Coder-30B-A3B-{quant}.gguf");
        let WireSampling::Greedy { penalties } = config.sampling_for(&path, 1.0, 0.0) else {
            panic!("greedy");
        };
        assert_eq!(penalties.repeat, 1.18, "{quant} is the same model");
    }
}

#[test]
fn the_more_specific_entry_wins() {
    let config = settings(vec![
        ("Qwen3", Entry { repeat_penalty: 1.1, ..entry() }),
        ("Qwen3-Coder-30B", Entry { repeat_penalty: 1.18, ..entry() }),
    ]);
    let repeat = |name: &str| match config.sampling_for(name, 1.0, 0.0) {
        WireSampling::Greedy { penalties } => penalties.repeat,
        WireSampling::Temperature { penalties, .. } => penalties.repeat,
    };
    assert_eq!(repeat("/m/Qwen3-Coder-30B-A3B-Q4.gguf"), 1.18);
    assert_eq!(
        repeat("/m/Qwen3.8-27B-UD-IQ4_XS.gguf"),
        1.1,
        "the general entry still covers its siblings"
    );
}

#[test]
fn of_equally_long_keys_the_last_in_their_order_wins() {
    let coder = || ("Coder", Entry { repeat_penalty: 1.1, ..entry() });
    let qwen = || ("Qwen3", Entry { repeat_penalty: 1.2, ..entry() });
    for config in [settings(vec![coder(), qwen()]), settings(vec![qwen(), coder()])] {
        let found = config.entry_for("/m/Qwen3-Coder-30B.gguf").expect("an entry");
        assert_eq!(found.repeat_penalty, 1.2);
    }
}

#[test]
fn a_temperature_entry_produces_temperature_sampling() {
    let config = settings(vec![(
        "thinking",
        Entry { temperature: Some(0.7), top_k: Some(20), repeat_penalty: 1.05, ..entry() },
    )]);
    let WireSampling::Temperature { temperature, top_k, penalties, top_p, min_p, .. } =
        config.sampling_for("/m/thinking.gguf", 1.0, 0.0)
    else {
        panic!("a temperature was configured");
    };
    assert_eq!(temperature, 0.7);
    assert_eq!(top_k, 20);
    assert_eq!(penalties.repeat, 1.05);
    assert_eq!((top_p, min_p), (1.0, 0.0));
}

#[test]
fn no_file_means_no_penalty_which_is_what_llama_cpp_itself_defaults_to() {
    let config: ModelSettings<f32> =
        ModelSettings::settle("/nonexistent/models.toml", SettingsFile::Missing)
            .expect("missing is not an error");
    let WireSampling::Greedy { penalties } = config.sampling_for("/m/anything.gguf", 1.0, 0.0)
    else {
        panic!("greedy");
    };
    assert_eq!(penalties.repeat, 1.0);
    assert_eq!(penalties.last_n, 0);
}

#[test]
fn a_file_that_cannot_be_used_is_an_error() {
    let parse = ModelSettings::<f32>::settle(
        "/m/models.toml",
        SettingsFile::Malformed("expected a number".to_string()),
    )
    .expect_err("malformed");
    assert!(matches!(parse, SettingsError::Parse { .. }));
    assert_eq!(parse.message(), "parsing /m/models.toml: expected a number");
    let io = ModelSettings::<f32>::settle(
        "/m/models.toml",
        SettingsFile::Unreadable("permission denied".to_string()),
    )
    .expect_err("unreadable");
    assert!(matches!(io, SettingsError::Io { .. }));
    assert_eq!(io.message(), "reading /m/models.toml: permission denied");
}

#[test]
fn a_read_file_is_taken_as_it_is() {
    let read = settings(vec![("x", Entry { max_new_tokens: Some(7), ..entry() })]);
    let config =
        ModelSettings::settle("/m/models.toml", SettingsFile::Read(read)).expect("settled");
    assert_eq!(config.max_new_tokens_for("/m/x.gguf"), Some(7));
}

#[test]
fn only_the_file_name_is_matched_and_the_default_covers_the_rest() {
    let mut config = settings(vec![("qwen", Entry { max_new_tokens: Some(1), ..entry() })]);
    config.default = Some(Entry { max_new_tokens: Some(2), ..entry() });
    assert_eq!(config.max_new_tokens_for("/qwen/llama.gguf"), Some(2));
    assert_eq!(config.max_new_tokens_for("/llama/qwen.gguf"), Some(1));
    assert_eq!(config.max_new_tokens_for("/llama/qwen.gguf/"), Some(1));
    assert_eq!(config.max_new_tokens_for("/"), None);
    assert_eq!(config.max_new_tokens_for(".."), None);
}

#[test]
fn settings_live_beside_the_socket() {
    assert_eq!(
        ModelSettings::<f32>::default_path(Some("/home/u")).as_deref(),
        Some("/home/u/.rampipe/models.toml")
    );
    assert_eq!(ModelSettings::<f32>::default_path(None), None);
}

#[test]
fn an_explicit_request_beats_the_configuration() {
    let config = settings(vec![("x", Entry { repeat_penalty: 1.3, ..entry() })]);
    let asked = WireSampling::Temperature {
        temperature: 0.5f32,
        top_k: 3,
        top_p: 1.0,
        min_p: 0.0,
        seed: 9,
        penalties: rampipe::protocol::WirePenalties {
            last_n: 0,
            repeat: 1.0,
            freq: 0.0,
            present: 0.0,
        },
    };
    let WireSampling::Temperature { seed, .. } =
        config.sampling_or_configured(Some(asked), "/m/x.gguf", 1.0, 0.0)
    else {
        panic!("what was asked for");
    };
    assert_eq!(seed, 9);
    let WireSampling::Greedy { penalties } =
        config.sampling_or_configured(None, "/m/x.gguf", 1.0, 0.0)
    else {
        panic!("what was configured");
    };
    assert_eq!(penalties.repeat, 1.3);
}

#[test]
fn an_explicit_cap_beats_the_configured_one() {
    let config = settings(vec![("x", Entry { max_new_tokens: Some(8192), ..entry() })]);
    assert_eq!(config.max_new_tokens_or_configured(Some(5), "/m/x.gguf"), Some(5));
    assert_eq!(config.max_new_tokens_or_configured(None, "/m/x.gguf"), Some(8192));
    assert_eq!(config.max_new_tokens_or_configured(None, "/m/y.gguf"), None);
}
