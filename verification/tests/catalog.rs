use maestro_llamacpp::catalog::discover::name::{identifier, is_model, sanitised};
use maestro_llamacpp::catalog::discover::{under, Found};
use maestro_llamacpp::catalog::document::{Item, Table};
use maestro_llamacpp::catalog::estimate::shard::shard_of;
use maestro_llamacpp::catalog::estimate::{
    cache_bytes, sixteenths, Basis, Disk, Facts, F16, Q4_0,
};
use maestro_llamacpp::catalog::flags::Flags;
use maestro_llamacpp::catalog::served::{predicts_tokens, runs_on_processor};
use maestro_llamacpp::catalog::{Catalog, Entry, EstimateSource, RelativePath, Residency};
use maestro_llamacpp::gguf::bytes::read_text;
use maestro_llamacpp::gguf::{Metadata, Parsed};
use maestro_llamacpp::verdict;

fn flags_of(pairs: &[(&str, &str)]) -> Flags {
    let mut flags = Flags::new();
    for (k, v) in pairs {
        flags.insert((*k).to_owned(), (*v).to_owned());
    }
    flags
}

fn entry(flags: &[(&str, &str)], projector: bool) -> Entry {
    Entry {
        id: "alpha".to_owned(),
        path: RelativePath::new("a/model.gguf").expect("relative"),
        draft_path: None,
        projector_path: if projector {
            Some(RelativePath::new("a/mmproj.gguf").expect("relative"))
        } else {
            None
        },
        context_size: 4096,
        residency: Residency::OnDemand,
        memory_estimate_mib: 512,
        reasoning_format: None,
        reasoning_effort: None,
        startup_timeout_seconds: 30,
        runtime: None,
        flags: flags_of(flags),
    }
}

fn speech(runtime: &str) -> Entry {
    Entry {
        runtime: Some(runtime.to_owned()),
        ..entry(&[], false)
    }
}

#[test]
fn only_a_server_started_to_generate_is_offered_as_one() {
    assert!(entry(&[], false).generates(), "the ordinary case");
    assert!(
        !entry(&[("embeddings", "true")], false).generates(),
        "an embedding server returns a vector, not a conversation"
    );
    assert!(
        !entry(&[("reranking", "true")], false).generates(),
        "and a reranker returns scores"
    );
    assert!(
        entry(&[("embeddings", "false")], false).generates(),
        "an explicit false is not the mode, as the flags read elsewhere"
    );
    assert!(
        entry(&[("embeddings", "0")], false).generates(),
        "nor is a zero"
    );
}

#[test]
fn a_speech_service_holds_no_conversation() {
    assert!(
        !speech("whisper").generates(),
        "transcription answers once with the text of an utterance"
    );
    assert!(
        !speech("tts").generates(),
        "and synthesis answers with a waveform, not with text at all"
    );
}

#[test]
fn a_speech_service_says_what_it_actually_takes() {
    assert_eq!(speech("whisper").accepts(), vec!["audio"]);
    assert_eq!(speech("tts").accepts(), vec!["text"]);
}

#[test]
fn a_runtime_naming_a_server_build_is_still_an_ordinary_model() {
    let patched = speech("vulkan");
    assert!(patched.generates(), "a build of the server still generates");
    assert_eq!(patched.accepts(), vec!["text"]);
}

#[test]
fn a_projector_is_the_whole_condition_for_taking_an_image() {
    assert_eq!(entry(&[], false).accepts(), vec!["text"]);
    assert_eq!(
        entry(&[], true).accepts(),
        vec!["text", "image"],
        "text stays first: a client reads the list as what it may send, \
         in order, not as a set"
    );
}

#[test]
fn a_file_name_says_whether_it_is_a_model_on_its_own() {
    assert!(is_model("Qwen3-4B-Q4_K_M.gguf"));
    assert!(is_model("Tiny.GGUF"), "the extension is read in any case");
    assert!(
        is_model("Big-00001-of-00003.gguf"),
        "the first shard names the model"
    );
    assert!(
        !is_model("Big-00002-of-00003.gguf"),
        "the rest are its weights"
    );
    assert!(!is_model("mmproj-F16.gguf"), "a projector");
    assert!(!is_model("mtp-Qwen3.8-27B-Q4_0.gguf"), "a draft");
    assert!(
        !is_model("Qwen3.8-27B-FastMTP-32K.gguf"),
        "a draft, named differently"
    );
    assert!(!is_model("README.md"));
}

#[test]
fn an_identifier_is_the_stem_lowercased_and_hyphenated() {
    assert_eq!(sanitised("Qwen3.8-27B-UD-Q6_K"), "qwen3-8-27b-ud-q6-k");
    assert_eq!(sanitised("--Odd__Name--"), "odd-name");
    assert_eq!(
        sanitised("..."),
        "",
        "nothing left is nothing, not a hyphen"
    );
}

#[test]
fn a_taken_identifier_borrows_the_directory_and_says_so() {
    let mut taken = vec!["qwen".to_owned()];
    let mut notes = Vec::new();
    let id = identifier("/models/big/Qwen.gguf", &mut taken, &mut notes);
    assert_eq!(id.as_deref(), Some("big-qwen"));
    assert_eq!(taken, vec!["qwen".to_owned(), "big-qwen".to_owned()]);
    assert_eq!(
        notes,
        vec!["discovered '/models/big/Qwen.gguf' as 'big-qwen', because 'qwen' is already taken"
            .to_owned()]
    );

    let again = identifier("/models/big/Qwen.gguf", &mut taken, &mut notes);
    assert_eq!(again, None, "both names are taken now");
    assert!(notes[1].starts_with("skipped '/models/big/Qwen.gguf'"));
}

#[test]
fn a_shard_suffix_is_read_and_its_siblings_named() {
    let shard = shard_of("Big-Model-00002-of-00004.gguf").expect("a shard");
    assert_eq!(shard.stem, "Big-Model");
    assert_eq!(shard.index, 2);
    assert_eq!(
        shard.sibling("x/Big-Model-00002-of-00004.gguf", 4),
        "x/Big-Model-00004-of-00004.gguf"
    );
    assert_eq!(shard_of("model.gguf"), None, "no suffix");
    assert_eq!(shard_of("model-1-of-x.gguf"), None, "not digits");
    assert_eq!(shard_of("model-1-of-04.gguf"), None, "widths differ");
}

#[test]
fn estimate_a_cache_type_the_flags_do_not_name_is_read_as_f16() {
    let mut flags = Flags::new();
    assert_eq!(sixteenths(&flags, ["ctk", "cache-type-k"]), F16);
    flags.insert("cache-type-k".to_owned(), "q4_0".to_owned());
    assert_eq!(
        sixteenths(&flags, ["ctk", "cache-type-k"]),
        Q4_0,
        "either spelling is honoured"
    );
    flags.insert("ctk".to_owned(), "something-new".to_owned());
    assert_eq!(
        sixteenths(&flags, ["ctk", "cache-type-k"]),
        F16,
        "a spelling this does not know is costed as f16, the safe side"
    );
}

#[test]
fn cache_a_cache_type_the_flags_do_not_name_is_read_as_f16() {
    let mut flags = Flags::new();
    assert_eq!(sixteenths(&flags, ["ctk", "cache-type-k"]), F16);
    flags.insert("cache-type-k".to_owned(), "q4_0".to_owned());
    assert_eq!(
        sixteenths(&flags, ["ctk", "cache-type-k"]),
        Q4_0,
        "either spelling is honoured"
    );
    flags.insert("ctk".to_owned(), "something-new".to_owned());
    assert_eq!(
        sixteenths(&flags, ["ctk", "cache-type-k"]),
        F16,
        "a spelling this does not know is costed as f16, the safe side"
    );
}

#[test]
fn only_an_explicit_zero_pins_an_entry_to_the_processor() {
    let mut flags = Flags::new();
    assert!(
        !runs_on_processor(&flags),
        "an entry that asks for nothing takes the catalog default"
    );

    flags.insert("n-gpu-layers".to_owned(), "0".to_owned());
    assert!(
        runs_on_processor(&flags),
        "the server keys on this, so this does too"
    );

    flags.insert("n-gpu-layers".to_owned(), " 0 ".to_owned());
    assert!(runs_on_processor(&flags), "read as the flags are elsewhere");

    flags.insert("n-gpu-layers".to_owned(), "999".to_owned());
    assert!(!runs_on_processor(&flags), "every layer on the device");

    flags.insert("n-gpu-layers".to_owned(), "20".to_owned());
    assert!(
        !runs_on_processor(&flags),
        "a partial offload still costs the device a share"
    );
}

#[test]
fn a_multiple_token_prediction_draft_is_a_head_not_a_model() {
    let mut flags = Flags::new();
    assert!(
        !predicts_tokens(&flags),
        "an entry that asks for nothing keeps a draft cache"
    );

    flags.insert("spec-type".to_owned(), "draft-mtp".to_owned());
    assert!(
        predicts_tokens(&flags),
        "the server keys on spec-type, so this does too"
    );

    flags.insert("spec-type".to_owned(), "  DRAFT-MTP ".to_owned());
    assert!(predicts_tokens(&flags), "read as the flags are elsewhere");

    flags.insert("spec-type".to_owned(), "draft".to_owned());
    assert!(
        !predicts_tokens(&flags),
        "a plain draft is a model of its own and keeps its own cache"
    );
}

/// The bytes of a small GGUF header: the magic, version 3, no tensors, and
/// these pairs, each an architecture string or a `u32` number.
fn gguf(architecture: &str, numbers: &[(&str, u32)]) -> Vec<u8> {
    let mut out = b"GGUF".to_vec();
    out.extend_from_slice(&3u32.to_le_bytes());
    out.extend_from_slice(&0u64.to_le_bytes());
    out.extend_from_slice(&((numbers.len() + 1) as u64).to_le_bytes());
    let key = b"general.architecture";
    out.extend_from_slice(&(key.len() as u64).to_le_bytes());
    out.extend_from_slice(key);
    out.extend_from_slice(&8u32.to_le_bytes());
    out.extend_from_slice(&(architecture.len() as u64).to_le_bytes());
    out.extend_from_slice(architecture.as_bytes());
    for (name, value) in numbers {
        out.extend_from_slice(&(name.len() as u64).to_le_bytes());
        out.extend_from_slice(name.as_bytes());
        out.extend_from_slice(&4u32.to_le_bytes());
        out.extend_from_slice(&value.to_le_bytes());
    }
    out
}

fn metadata(architecture: &str, numbers: &[(&str, u32)]) -> Metadata {
    let bytes = gguf(architecture, numbers);
    match Metadata::parse(&bytes, bytes.len() as u64) {
        Parsed::Read(m) => m,
        Parsed::Faulted(f) => panic!("a header that reads: {}", f.text()),
        Parsed::Short => panic!("a whole header"),
    }
}

fn small_llama() -> Metadata {
    metadata(
        "llama",
        &[
            ("llama.block_count", 2),
            ("llama.attention.head_count", 4),
            ("llama.attention.head_count_kv", 2),
            ("llama.embedding_length", 64),
            ("llama.context_length", 8192),
        ],
    )
}

#[test]
fn a_header_says_what_the_model_is() {
    let m = small_llama();
    assert_eq!(m.architecture(), Some("llama"));
    assert_eq!(m.of_model("block_count"), Some(2));
    assert_eq!(m.number("llama.attention.head_count"), Some(4));
    assert_eq!(m.of_model("attention.key_length"), None, "absent, never zero");
    assert_eq!(m.split_count(), None);
}

#[test]
fn a_header_that_is_not_gguf_is_a_fault_and_a_cut_one_asks_for_more() {
    let bytes = b"NOPE0000000000000000000000".to_vec();
    assert!(matches!(
        Metadata::parse(&bytes, bytes.len() as u64),
        Parsed::Faulted(_)
    ));
    let whole = gguf("llama", &[("llama.block_count", 2)]);
    let cut = &whole[..whole.len() - 3];
    assert!(matches!(
        Metadata::parse(cut, whole.len() as u64),
        Parsed::Short
    ));
}

#[test]
fn the_cache_is_layers_by_context_by_heads_by_key_and_value() {
    // 2 layers x 4096 tokens x 2 kv heads x (16 + 16) x 2 bytes.
    let m = small_llama();
    assert_eq!(cache_bytes(&m, 4096, F16, F16), Some(2 * 4096 * 2 * 32 * 2));
    let unknown = metadata("llama", &[("llama.block_count", 2)]);
    assert_eq!(cache_bytes(&unknown, 4096, F16, F16), None, "no heads, no cache figure");
}

const MIB: u64 = 1024 * 1024;

fn disk(files: Vec<(&str, u64, Option<Metadata>)>, walked: Vec<Found>) -> Disk {
    Disk {
        files: files
            .into_iter()
            .map(|(path, size, metadata)| (path.to_owned(), Facts { size, metadata }))
            .collect(),
        walked,
    }
}

#[test]
fn an_estimate_from_metadata_adds_weights_cache_a_twentieth_and_the_overhead() {
    let e = entry(&[], false);
    let d = disk(vec![("/m/a/model.gguf", 100 * MIB, Some(small_llama()))], vec![]);
    let derived = maestro_llamacpp::catalog::estimate::derive(&e, "/m", &d).expect("a model file");
    // 100 MiB of weights, 1 MiB of cache, 5 MiB of fragmentation, 1024 MiB
    // of overhead.
    assert_eq!(derived.mib, 1130);
    assert_eq!(derived.basis, Basis::Metadata);
}

#[test]
fn an_estimate_without_metadata_rests_on_size_and_says_so() {
    let e = entry(&[], true);
    let d = disk(
        vec![("/m/a/model.gguf", 400 * MIB, None), ("/m/a/mmproj.gguf", 400 * MIB, None)],
        vec![],
    );
    let derived = maestro_llamacpp::catalog::estimate::derive(&e, "/m", &d).expect("a model file");
    assert_eq!(derived.mib, 800 + 200 + 1024, "a quarter again on top, plus the overhead");
    assert_eq!(derived.basis, Basis::Size);
}

#[test]
fn every_shard_of_a_split_model_is_weighed() {
    let mut e = entry(&[], false);
    e.path = RelativePath::new("Big-00001-of-00002.gguf").expect("relative");
    let split = metadata("llama", &[("split.count", 2)]);
    let d = disk(
        vec![
            ("/m/Big-00001-of-00002.gguf", 400 * MIB, Some(split)),
            ("/m/Big-00002-of-00002.gguf", 400 * MIB, None),
        ],
        vec![],
    );
    let derived = maestro_llamacpp::catalog::estimate::derive(&e, "/m", &d).expect("a model file");
    assert_eq!(derived.mib, 800 + 200 + 1024);
}

#[test]
fn a_missing_model_file_cannot_be_derived() {
    let e = entry(&[], false);
    let d = disk(vec![], vec![]);
    assert_eq!(
        maestro_llamacpp::catalog::estimate::derive(&e, "/m", &d),
        Err("no model file at '/m/a/model.gguf'".to_owned())
    );
}

fn text(value: &str) -> Item {
    Item::Text(value.to_owned())
}

fn table(entries: Vec<(&str, Item)>) -> Item {
    Item::Table(Table {
        entries: entries
            .into_iter()
            .map(|(k, v)| (k.to_owned(), v))
            .collect(),
    })
}

fn document(models: Vec<(&str, Item)>) -> Table {
    Table {
        entries: vec![
            ("models".to_owned(), table(models)),
            ("version".to_owned(), Item::Integer(1)),
        ],
    }
}

#[test]
fn a_catalog_with_every_field_it_needs_reads() {
    let catalog = Catalog::parse_text(
        "version = 1\n\
         [models.beta]\n\
         context_size = 4096\n\
         memory_estimate_mib = 2048\n\
         path = \"b/model.gguf\"\n\
         residency = \"resident\"\n\
         [models.alpha]\n\
         context_size = 8192\n\
         memory_estimate_mib = 1024\n\
         path = \"a/model.gguf\"\n",
    )
    .expect("a usable catalog");
    assert_eq!(catalog.version, 1);
    assert_eq!(catalog.entries.len(), 2);
    let ids: Vec<&str> = catalog.entries.iter().map(|e| e.id.as_str()).collect();
    assert_eq!(ids, vec!["alpha", "beta"], "in key order, whatever order the text wrote");
    let alpha = catalog.entry("alpha").expect("alpha");
    assert_eq!(alpha.context_size, 8192);
    assert_eq!(alpha.residency, Residency::OnDemand);
    assert_eq!(catalog.resident_reservation_mib(), 2048);
    assert_eq!(catalog.estimate_source("alpha"), Some(EstimateSource::Declared));
    assert_eq!(catalog.estimate_source("gamma"), None);
    assert!(!catalog.is_discovered("alpha"));
}

#[test]
fn a_report_names_every_problem_not_the_first() {
    let report = Catalog::parse_text(
        "version = 1\n\
         [models.alpha]\n\
         path = \"/abs/model.gguf\"\n\
         [models.beta]\n\
         memory_estimate_mib = 1\n\
         residency = \"sometimes\"\n",
    )
    .expect_err("two broken entries");
    let problems = report.problems();
    assert!(problems.len() >= 3, "{problems:?}");
    assert!(problems.iter().any(|p| p.contains("entry 'alpha'")));
    assert!(problems.iter().any(|p| p.contains("entry 'beta'")));
    assert!(problems.iter().any(|p| p.contains("memory_estimate_mib")));
}

#[test]
fn text_that_is_not_toml_is_one_problem() {
    let report = Catalog::unreadable("expected a value");
    assert_eq!(
        report.problems(),
        &["the catalog is not valid TOML: expected a value".to_owned()]
    );
    let report = Catalog::parse_text("version = = 1\n[models.alpha]\npath = 3\n")
        .expect_err("not TOML");
    assert_eq!(report.problems().len(), 1, "{:?}", report.problems());
    assert!(report.problems()[0].starts_with("the catalog is not valid TOML: "));
    let report = Catalog::read_text("version = = 1\n", "/m", &disk(vec![], vec![]))
        .expect_err("not TOML");
    assert_eq!(report.problems().len(), 1);
}

#[test]
fn a_reading_against_a_root_derives_what_nobody_declared_and_orders_by_identifier() {
    let doc = "version = 1\n\
               [models.zeta]\n\
               context_size = 4096\n\
               path = \"z/model.gguf\"\n\
               [models.alpha]\n\
               context_size = 4096\n\
               memory_estimate_mib = 10\n\
               path = \"a/model.gguf\"\n";
    let d = disk(
        vec![
            ("/m/z/model.gguf", 400 * MIB, None),
            ("/m/a/model.gguf", 100 * MIB, Some(small_llama())),
        ],
        vec![],
    );
    let reading = Catalog::read_text(doc, "/m", &d).expect("a usable reading");
    let ids: Vec<&str> = reading.catalog.entries.iter().map(|e| e.id.as_str()).collect();
    assert_eq!(ids, vec!["alpha", "zeta"], "ordered by identifier");
    assert_eq!(reading.declared(), 2);
    assert_eq!(reading.discovered(), 0);
    assert_eq!(reading.catalog.entry("zeta").expect("zeta").memory_estimate_mib, 1524);
    assert_eq!(reading.catalog.estimate_source("zeta"), Some(EstimateSource::Derived));
    assert_eq!(reading.catalog.estimate_source("alpha"), Some(EstimateSource::Declared));
    assert_eq!(reading.notes.len(), 2, "{:?}", reading.notes);
    assert!(reading.notes.iter().any(|n| n.contains("declared as 10 MiB") && n.contains("1130 MiB")));
    assert!(reading.notes.iter().any(|n| n.contains("from file size alone")));
    assert_eq!(reading.summary(), "2 entries from the catalog, 0 discovered under /m");
}

#[test]
fn an_undeclared_estimate_with_no_model_file_is_a_problem() {
    let doc = "version = 1\n[models.zeta]\ncontext_size = 4096\npath = \"z/model.gguf\"\n";
    let report = Catalog::read_text(doc, "/m", &disk(vec![], vec![])).expect_err("nothing to derive from");
    assert_eq!(
        report.problems(),
        &["entry 'zeta': field 'memory_estimate_mib' is required, because it could not be derived: no model file at '/m/z/model.gguf'".to_owned()]
    );
}

#[test]
fn discovery_finds_the_models_the_catalog_does_not_name() {
    let named = vec![entry(&[], false)];
    let d = disk(
        vec![
            ("/m/a/model.gguf", 100 * MIB, Some(small_llama())),
            ("/m/b/Qwen3-4B.gguf", 200 * MIB, None),
        ],
        vec![
            Found::Located("a/model.gguf".to_owned()),
            Found::Located("b/Qwen3-4B.gguf".to_owned()),
            Found::Located("b/mmproj-F16.gguf".to_owned()),
            Found::Located("c/missing.gguf".to_owned()),
            Found::Unlocated {
                name: "odd.gguf".to_owned(),
                shown: "/m/\u{fffd}/odd.gguf".to_owned(),
            },
        ],
    );
    let defaults = maestro_llamacpp::catalog::read::Defaults {
        context_size: None,
        residency: None,
        memory_estimate_mib: None,
        reasoning_format: None,
        runtime: None,
        reasoning_effort: None,
        startup_timeout_seconds: None,
        flags: Flags::new(),
    };
    let mut notes = Vec::new();
    let found = under("/m", &named, &defaults, &d, &mut notes);
    assert_eq!(found.len(), 1, "{notes:?}");
    assert_eq!(found[0].id, "qwen3-4b");
    assert_eq!(found[0].context_size, 4096, "the server's own default");
    assert_eq!(found[0].memory_estimate_mib, 200 + 50 + 1024);
    assert_eq!(
        notes,
        vec![
            "discovered 'qwen3-4b' at b/Qwen3-4B.gguf: 1274 MiB estimated at 4096 tokens of context, from file size alone".to_owned(),
            "skipped 'c/missing.gguf': no model file at '/m/c/missing.gguf'".to_owned(),
            "skipped '/m/\u{fffd}/odd.gguf': its path is not text this catalog can carry".to_owned(),
        ]
    );
}

#[test]
fn gemma3_windows_five_layers_in_six_without_saying_so() {
    let m = metadata(
        "gemma3",
        &[
            ("gemma3.block_count", 6),
            ("gemma3.attention.head_count", 1),
            ("gemma3.attention.head_count_kv", 1),
            ("gemma3.attention.key_length", 8),
            ("gemma3.attention.value_length", 8),
            ("gemma3.attention.sliding_window", 4),
        ],
    );
    // One full layer at 100 tokens, five at a window of 4, each token
    // holding 8 + 8 elements at 2 bytes.
    assert_eq!(cache_bytes(&m, 100, F16, F16), Some((100 * 32 + 5 * 4 * 32) as u128));
}

#[test]
fn a_model_that_windows_without_a_known_pattern_keeps_the_dense_reading() {
    let m = metadata(
        "llama",
        &[
            ("llama.block_count", 6),
            ("llama.attention.head_count", 1),
            ("llama.attention.key_length", 8),
            ("llama.attention.sliding_window", 4),
        ],
    );
    assert_eq!(cache_bytes(&m, 100, F16, F16), Some((6 * 100 * 32) as u128));
}

#[test]
fn a_hybrid_caches_one_layer_in_every_interval() {
    let m = metadata(
        "qwen35",
        &[
            ("qwen35.block_count", 65),
            ("qwen35.full_attention_interval", 4),
            ("qwen35.attention.head_count", 1),
            ("qwen35.attention.key_length", 8),
        ],
    );
    assert_eq!(
        cache_bytes(&m, 100, F16, F16),
        Some((16 * 100 * 32) as u128),
        "sixty-five layers at an interval of four: sixteen of them cache"
    );
}

#[test]
fn text_that_is_not_utf8_is_kept_with_a_replacement_character() {
    let mut data = 3u64.to_le_bytes().to_vec();
    data.extend_from_slice(&[b'f', 0xff, b'o']);
    let length = data.len() as u64;
    match read_text(&data, length, 0, 256) {
        Ok((Some(text), next)) => {
            assert_eq!(text, "f\u{FFFD}o");
            assert_eq!(next, length);
        }
        _ => panic!("a short string is kept"),
    }
}

#[test]
fn reading_against_a_root_adds_the_model_files_the_catalog_does_not_name() {
    let doc = document(vec![(
        "alpha",
        table(vec![
            ("context_size", Item::Integer(4096)),
            ("memory_estimate_mib", Item::Integer(2048)),
            ("path", text("a/model.gguf")),
        ]),
    )]);
    let d = disk(
        vec![
            ("/m/a/model.gguf", 100 * MIB, Some(small_llama())),
            ("/m/b/Qwen3-4B.gguf", 200 * MIB, None),
        ],
        vec![
            Found::Located("a/model.gguf".to_owned()),
            Found::Located("b/Qwen3-4B.gguf".to_owned()),
        ],
    );
    let reading = Catalog::read(&doc, "/m", &d).expect("a usable reading");
    let ids: Vec<&str> = reading.catalog.entries.iter().map(|e| e.id.as_str()).collect();
    assert_eq!(ids, vec!["alpha", "qwen3-4b"]);
    assert_eq!(reading.declared(), 1);
    assert_eq!(reading.discovered(), 1);
    assert!(reading.catalog.is_discovered("qwen3-4b"));
    assert!(!reading.catalog.is_discovered("alpha"));
    assert_eq!(reading.catalog.estimate_source("qwen3-4b"), Some(EstimateSource::Derived));
    assert_eq!(reading.catalog.entry("qwen3-4b").expect("discovered").memory_estimate_mib, 1274);
    assert_eq!(reading.summary(), "1 entries from the catalog, 1 discovered under /m");
    assert_eq!(reading.declared() + reading.catalog.discovered.len(), reading.catalog.entries.len());
    assert!(reading.notes.iter().any(|n| n.starts_with("discovered 'qwen3-4b' at b/Qwen3-4B.gguf")));
}

#[test]
fn a_cache_far_beyond_any_card_is_still_counted_exactly() {
    let m = metadata(
        "llama",
        &[
            ("llama.block_count", 1 << 20),
            ("llama.attention.head_count", 1 << 20),
            ("llama.attention.key_length", 1 << 20),
            ("llama.attention.value_length", 1 << 20),
        ],
    );
    // 2^20 layers, context and heads, each token 2^20 + 2^20 elements of
    // 2^40 sixteenths: 2^121 sixteenths, 2^117 bytes.
    assert_eq!(cache_bytes(&m, 1 << 20, 1 << 40, 1 << 40), Some(1u128 << 117));
    // With 2^60 sixteenths the figure passes what a u128 of sixteenths holds.
    assert_eq!(cache_bytes(&m, 1 << 20, 1 << 60, 1 << 60), Some(u128::MAX / 16));
}

#[test]
fn a_usable_catalog_is_one_line_of_counts_then_its_notes() {
    let doc = "version = 1\n\
               [models.zeta]\n\
               context_size = 4096\n\
               path = \"z/model.gguf\"\n\
               [models.alpha]\n\
               context_size = 4096\n\
               memory_estimate_mib = 10\n\
               path = \"a/model.gguf\"\n";
    let d = disk(
        vec![
            ("/m/z/model.gguf", 400 * MIB, None),
            ("/m/a/model.gguf", 100 * MIB, Some(small_llama())),
        ],
        vec![],
    );
    let reading = Catalog::read_text(doc, "/m", &d);
    let v = verdict::of_reading("cat.toml", &reading);
    assert!(v.usable);
    assert_eq!(v.lines.len(), 3, "{:?}", v.lines);
    assert_eq!(v.lines[0], "cat.toml is valid: 2 models, 2 declared and 0 found under the root");
    assert!(v.lines[1].starts_with("  entry '"));
    assert!(v.lines[2].starts_with("  entry '"));
}

#[test]
fn an_unusable_catalog_is_named_then_each_problem_indented() {
    let v = verdict::of_shape("cat.toml", &Catalog::parse_text("version = = 1\n"));
    assert!(!v.usable);
    assert_eq!(v.lines.len(), 2);
    assert_eq!(v.lines[0], "cat.toml is not usable:");
    assert!(v.lines[1].starts_with("  the catalog is not valid TOML: "));
    let v = verdict::of_shape(
        "cat.toml",
        &Catalog::parse_text("version = 1\n[models.alpha]\ncontext_size = 4096\npath = \"a/m.gguf\"\n"),
    );
    assert_eq!(v.lines.len(), 2, "{:?}", v.lines);
    assert_eq!(v.lines[0], "cat.toml is not usable:");
    assert!(v.lines[1].contains("memory_estimate_mib"));
}

#[test]
fn a_catalog_read_from_text_alone_says_only_its_shape() {
    let v = verdict::of_shape(
        "cat.toml",
        &Catalog::parse_text(
            "version = 1\n[models.alpha]\ncontext_size = 4096\nmemory_estimate_mib = 10\npath = \"a/m.gguf\"\n",
        ),
    );
    assert!(v.usable);
    assert_eq!(
        v.lines,
        vec!["cat.toml is valid: 1 models (shape only -- no models root on this machine, so nothing was checked against its files)".to_owned()]
    );
}

#[test]
fn checking_catalog_text_reads_it_then_says_the_verdict() {
    let v = verdict::of_text("cat.toml", "version = = 1\n");
    assert!(!v.usable);
    assert_eq!(v.lines[0], "cat.toml is not usable:");
    let doc = "version = 1\n[models.alpha]\ncontext_size = 4096\nmemory_estimate_mib = 10\npath = \"a/model.gguf\"\n";
    let d = disk(vec![("/m/a/model.gguf", 100 * MIB, Some(small_llama()))], vec![]);
    let v = verdict::of_text_against("cat.toml", doc, "/m", &d);
    assert!(v.usable);
    assert_eq!(v.lines[0], "cat.toml is valid: 1 models, 1 declared and 0 found under the root");
}
