use maestro_llamacpp::bench::{
    answers, date_of, embeddings, leap, measured_mib_of, passages, recommendations, recommends_within,
    reranking,
    room_for, selection, Answers, Measurement, PASSAGES,
};
use maestro_llamacpp::catalog::{Entry, RelativePath, Residency};
use maestro_llamacpp::memory::DeviceMemory;
use maestro_llamacpp::catalog::flags::Flags;
use maestro_llamacpp::time::Span;

fn holding(mib: u32) -> Measurement {
    Measurement {
        id: "gemma3".to_owned(),
        declared_mib: 0,
        measured_mib: Some(mib),
        load: Span::zero(),
    }
}

#[test]
fn a_recommendation_clears_the_measurement_but_never_the_card() {
    const CARD: u32 = 32_607;
    let wants = holding(28_715).recommended_mib().expect("a measurement");

    assert!(wants > 28_715, "an estimate must clear what was measured");
    assert!(
        wants <= CARD,
        "and must never exceed the card it was measured on -- got {wants}"
    );
}

#[test]
fn an_entry_that_nearly_fills_a_card_cannot_also_fit_a_tight_share() {
    const CARD: u32 = 32_607;
    let wants = holding(28_715).recommended_mib().expect("a measurement");

    assert!(
        wants > CARD * 9 / 10,
        "if this ever passes, a 90% share has become viable for a model this size"
    );
    assert!(
        wants <= CARD * 95 / 100,
        "a 95% share must still admit it -- got {wants}"
    );
}

#[test]
fn a_recommendation_lands_on_a_quarter_gibibyte() {
    for measured in [16_703, 22_690, 26_948, 26_997, 28_856] {
        let wants = holding(measured).recommended_mib().expect("a measurement");
        assert_eq!(wants % 256, 0, "{measured} rounded to {wants}");
        assert!(wants >= measured + measured / 20);
    }
}

#[test]
fn a_measurement_that_did_not_happen_recommends_nothing() {
    let unmeasured = Measurement {
        measured_mib: None,
        ..holding(0)
    };
    assert_eq!(unmeasured.recommended_mib(), None);
}

fn flags(pairs: &[(&str, &str)]) -> Flags {
    let mut f = Flags::new();
    for (k, v) in pairs {
        f.insert((*k).to_owned(), (*v).to_owned());
    }
    f
}

#[test]
fn an_entry_is_addressed_at_the_endpoint_its_flags_imply() {
    assert_eq!(answers(&flags(&[])), Answers::Completions, "an entry that asks for neither mode generates");
    assert_eq!(
        answers(&flags(&[("embeddings", "true")])),
        Answers::Embeddings,
        "a server told to embed will refuse a completion"
    );
    assert_eq!(
        answers(&flags(&[("reranking", "true")])),
        Answers::Reranking,
        "and one told to rerank refuses both"
    );
    assert_eq!(
        answers(&flags(&[("embeddings", "false")])),
        Answers::Completions,
        "read as the flags are elsewhere: an explicit false is not the mode"
    );
}

#[test]
fn the_batch_is_fixed() {
    let batch = passages();
    assert_eq!(batch.len(), PASSAGES as usize);
    assert_eq!(
        batch[3],
        "Passage 3. Write a short paragraph explaining what a memory budget is and why a program might need one."
    );
}

#[test]
fn the_card_speaks_for_the_process_before_the_difference_does() {
    assert_eq!(measured_mib_of(Some(700), Some(100), Some(5000)), Some(700));
    assert_eq!(measured_mib_of(None, Some(100), Some(5000)), Some(4900));
    assert_eq!(measured_mib_of(None, Some(5000), Some(5000)), None, "nothing grew");
    assert_eq!(measured_mib_of(None, None, Some(5000)), None);
    assert_eq!(measured_mib_of(Some(u64::MAX), None, None), None, "more than a u32 says");
}

#[test]
fn a_date_is_the_civil_day_the_seconds_fall_on() {
    assert_eq!(date_of(0), "1970-01-01");
    assert_eq!(date_of(951_782_400), "2000-02-29", "a leap day in a leap century");
    assert_eq!(date_of(1_709_251_199), "2024-02-29");
    assert_eq!(date_of(1_735_689_599), "2024-12-31");
    assert!(leap(2000) && !leap(1900) && leap(2024) && !leap(2023));
}

#[test]
fn only_a_measurement_that_disagrees_is_worth_pasting() {
    let agreed = Measurement {
        declared_mib: 1280,
        ..holding(1200)
    };
    assert!(recommendations(&vec![agreed.clone()], "2025-01-01").is_empty());

    let lines = recommendations(&vec![agreed, holding(28_715)], "2025-01-01");
    assert_eq!(
        lines,
        vec![
            "".to_owned(),
            "estimates these measurements support:".to_owned(),
            "".to_owned(),
            "[models.gemma3]".to_owned(),
            "# Measured 28715 MiB resident on 2025-01-01; a twentieth over,".to_owned(),
            "# to a quarter gibibyte. Was 0 MiB.".to_owned(),
            "memory_estimate_mib = 30208".to_owned(),
            "".to_owned(),
        ]
    );
}

#[test]
fn the_measuring_requests_carry_the_model_and_the_whole_batch() {
    let embed: serde_json::Value = serde_json::from_str(&embeddings("bge")).expect("JSON");
    assert_eq!(embed["model"], "bge");
    assert_eq!(embed["input"].as_array().map(Vec::len), Some(32));
    assert_eq!(embed["input"][0], passages()[0].as_str());

    let rerank: serde_json::Value = serde_json::from_str(&reranking("rr")).expect("JSON");
    assert_eq!(rerank["model"], "rr");
    assert_eq!(rerank["query"], "what is a memory budget");
    assert_eq!(rerank["documents"].as_array().map(Vec::len), Some(32));
}

#[test]
fn the_measuring_requests_are_written_as_serde_json_writes_them() {
    let texts: Vec<serde_json::Value> = passages().into_iter().map(serde_json::Value::from).collect();

    let mut embed = serde_json::Map::new();
    embed.insert("model".into(), "bge\"q".into());
    embed.insert("input".into(), texts.clone().into());
    assert_eq!(embeddings("bge\"q"), serde_json::Value::Object(embed).to_string());

    let mut rerank = serde_json::Map::new();
    rerank.insert("model".into(), "rr".into());
    rerank.insert("query".into(), "what is a memory budget".into());
    rerank.insert("documents".into(), texts.into());
    assert_eq!(reranking("rr"), serde_json::Value::Object(rerank).to_string());
}

#[test]
fn a_run_stops_before_an_entry_the_card_has_no_room_for() {
    let card = DeviceMemory { total_mib: 32_607, used_mib: 28_715 };
    assert_eq!(room_for("gemma3", 3_892, Some(&card)), Ok(()), "exactly what is free fits");
    assert_eq!(
        room_for("gemma3", 4_096, Some(&card)),
        Err("'gemma3' declares 4096 MiB and the card has 3892 MiB free; something else is \
             holding it, so this and every reading after it would be wrong"
            .to_owned())
    );
    assert_eq!(room_for("gemma3", 4_096, None), Ok(()), "no card, nothing to refuse on");
}

fn named(id: &str) -> Entry {
    Entry {
        id: id.to_owned(),
        path: RelativePath::new("m.gguf").expect("relative"),
        draft_path: None,
        projector_path: None,
        context_size: 4096,
        residency: Residency::OnDemand,
        memory_estimate_mib: 512,
        reasoning_format: None,
        reasoning_effort: None,
        startup_timeout_seconds: 300,
        runtime: None,
        flags: Flags::new(),
    }
}

#[test]
fn a_run_measures_every_entry_or_the_one_named() {
    let entries = vec![named("alpha"), named("beta"), named("gamma")];
    assert_eq!(selection(&entries, None, "c.toml"), Ok(vec![0, 1, 2]));
    assert_eq!(selection(&entries, Some("beta"), "c.toml"), Ok(vec![1]));
    assert_eq!(
        selection(&entries, Some("delta"), "c.toml"),
        Err("no entry called 'delta' in c.toml".to_owned())
    );
    assert_eq!(selection(&[], None, "c.toml"), Err("no entry called '' in c.toml".to_owned()));
}

#[test]
fn a_recommendation_is_made_exactly_while_it_fits_32_bits() {
    assert!(recommends_within(0));
    assert!(recommends_within(28_715));
    assert!(recommends_within(4_090_444_800));
    assert!(!recommends_within(4_090_444_801));
    assert!(!recommends_within(u32::MAX));
}
