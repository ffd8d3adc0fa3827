use maestro_llamacpp::catalog::flags::Flags;
use maestro_llamacpp::catalog::{Entry, RelativePath, Residency};
use maestro_llamacpp::launch::invocation::{of, HOST};
use maestro_llamacpp::launch::server::{
    exited, not_ready, readiness_step, retries, runtime_named, Next, Seen, ATTEMPTS,
};
use maestro_llamacpp::time::Span;
use maestro_llamacpp::launch::{status_of, Failure, Server};

/// A synthetic root: it names a shape rather than a machine.
const ROOT: &str = "/somewhere/models";
const PORT: u16 = 8080;

fn entry() -> Entry {
    Entry {
        id: "gemma3".to_owned(),
        path: RelativePath::new("cache/gemma/gemma-3-1b.gguf").expect("relative"),
        draft_path: None,
        projector_path: None,
        context_size: 4096,
        residency: Residency::OnDemand,
        memory_estimate_mib: 512,
        reasoning_format: None,
        reasoning_effort: None,
        startup_timeout_seconds: 300,
        runtime: None,
        flags: Flags::new(),
    }
}

fn line(entry: &Entry) -> Vec<String> {
    of(entry, ROOT, PORT)
}

/// Whether the flag and its value sit next to each other.
fn has_pair(line: &[String], flag: &str, value: &str) -> bool {
    line.windows(2).any(|pair| pair[0] == flag && pair[1] == value)
}

fn resolved(relative: &str) -> String {
    format!("{ROOT}/{relative}")
}

#[test]
fn the_fixed_arguments_follow_the_current_router() {
    let line = line(&entry());

    assert!(
        has_pair(&line, "--model", &resolved("cache/gemma/gemma-3-1b.gguf")),
        "the model resolves against the root:\n{line:?}"
    );
    assert!(
        has_pair(&line, "--ctx-size", "4096"),
        "context_size becomes --ctx-size:\n{line:?}"
    );
    assert!(
        has_pair(&line, "--alias", "gemma3"),
        "the identifier becomes --alias, so a reply names the model asked for:\n{line:?}"
    );
    assert!(
        has_pair(&line, "--host", "127.0.0.1"),
        "loopback only:\n{line:?}"
    );
    assert!(
        has_pair(&line, "--port", "8080"),
        "the port the caller chose:\n{line:?}"
    );
    assert_eq!(HOST, "127.0.0.1");
}

#[test]
fn an_omitted_location_is_absent_rather_than_empty() {
    let line = line(&entry());
    assert!(
        !line.iter().any(|a| a == "--model-draft"),
        "no draft model, so no flag at all:\n{line:?}"
    );
    assert!(
        !line.iter().any(|a| a == "--mmproj"),
        "no projector, so no flag at all:\n{line:?}"
    );
}

#[test]
fn the_optional_locations_resolve_against_the_root_when_present() {
    let mut entry = entry();
    entry.draft_path = Some(RelativePath::new("llm/qwen/mtp.gguf").expect("relative"));
    entry.projector_path = Some(RelativePath::new("llm/qwen/mmproj.gguf").expect("relative"));
    let line = line(&entry);

    assert!(
        has_pair(&line, "--model-draft", &resolved("llm/qwen/mtp.gguf")),
        "the speculative draft:\n{line:?}"
    );
    assert!(
        has_pair(&line, "--mmproj", &resolved("llm/qwen/mmproj.gguf")),
        "the multimodal projector:\n{line:?}"
    );
}

#[test]
fn reasoning_settings_appear_only_when_the_entry_sets_them() {
    let bare = line(&entry());
    assert!(
        !bare.iter().any(|a| a == "--reasoning-format"),
        "a model that does not reason carries neither:\n{bare:?}"
    );
    assert!(!bare.iter().any(|a| a == "--reasoning-effort"));

    let mut entry = entry();
    entry.reasoning_format = Some("deepseek".to_owned());
    entry.reasoning_effort = Some("low".to_owned());
    let line = line(&entry);

    assert!(
        has_pair(&line, "--reasoning-format", "deepseek"),
        "{line:?}"
    );
    assert!(has_pair(&line, "--reasoning-effort", "low"), "{line:?}");
}

#[test]
fn a_true_flag_becomes_the_bare_flag() {
    let mut entry = entry();
    entry.flags.insert("jinja".to_owned(), "true".to_owned());
    let line = line(&entry);

    assert!(
        line.iter().any(|a| a == "--jinja"),
        "true means the flag on its own:\n{line:?}"
    );
    assert!(
        !line.iter().any(|a| a == "true"),
        "and never the word as a value:\n{line:?}"
    );
}

#[test]
fn a_false_flag_becomes_the_negated_flag_spelled_from_the_key() {
    let mut entry = entry();
    entry.flags.insert("mmap".to_owned(), "false".to_owned());
    entry.flags.insert("fa".to_owned(), "false".to_owned());
    let line = line(&entry);

    assert!(
        line.iter().any(|a| a == "--no-mmap"),
        "false negates the flag:\n{line:?}"
    );
    assert!(
        line.iter().any(|a| a == "--no-fa"),
        "and negation is spelled from the key as written, not its long \
         form, which is what the current router sends:\n{line:?}"
    );
}

#[test]
fn any_other_value_becomes_a_flag_and_its_value() {
    let mut entry = entry();
    entry
        .flags
        .insert("n-gpu-layers".to_owned(), "999".to_owned());
    let line = line(&entry);

    assert!(has_pair(&line, "--n-gpu-layers", "999"), "{line:?}");
}

#[test]
fn the_five_short_forms_use_their_long_spellings() {
    let mut entry = entry();
    for (key, value) in [
        ("c", "999"),
        ("ctk", "q8_0"),
        ("ctv", "q8_0"),
        ("fa", "auto"),
        ("np", "1"),
    ] {
        entry.flags.insert(key.to_owned(), value.to_owned());
    }
    let line = line(&entry);

    for (long, value) in [
        ("--ctx-size", "999"),
        ("--cache-type-k", "q8_0"),
        ("--cache-type-v", "q8_0"),
        ("--flash-attn", "auto"),
        ("--parallel", "1"),
    ] {
        assert!(
            has_pair(&line, long, value),
            "the short form must be spelled '{long}':\n{line:?}"
        );
    }
}

#[test]
fn flash_attention_on_is_a_value_not_a_boolean() {
    let mut entry = entry();
    entry.flags.insert("fa".to_owned(), "on".to_owned());
    let line = line(&entry);

    assert!(has_pair(&line, "--flash-attn", "on"), "{line:?}");
    assert!(
        !line.iter().any(|a| a == "--no-fa"),
        "'on' is not falsehood:\n{line:?}"
    );
}

#[test]
fn the_command_line_is_stable_across_runs() {
    let mut entry = entry();
    for key in ["zebra", "alpha", "mike"] {
        entry.flags.insert(key.to_owned(), "1".to_owned());
    }
    assert_eq!(
        line(&entry),
        line(&entry),
        "two runs of the same entry produce the same command line"
    );
}

#[test]
fn the_flags_come_in_name_order_whatever_order_they_were_set_in() {
    let mut entry = entry();
    for key in ["zebra", "alpha", "mike"] {
        entry.flags.insert(key.to_owned(), "1".to_owned());
    }
    let line = line(&entry);
    let at = |flag: &str| line.iter().position(|a| a == flag).expect("present");
    assert!(at("--alpha") < at("--mike") && at("--mike") < at("--zebra"), "{line:?}");
}

#[test]
fn a_runtime_is_named_after_the_server() {
    assert_eq!(runtime_named("vulkan"), "llama-server-vulkan");
}

#[test]
fn a_configured_binary_wins_and_one_that_is_not_a_file_is_refused() {
    let server = Server::located(Some("/opt/llama-server"), true, None).expect("a file");
    assert_eq!(server.binary(), "/opt/llama-server");
    assert!(matches!(
        Server::located(Some("/opt/nothing"), false, Some("/usr/bin/llama-server".to_owned())),
        Err(Failure::Unavailable(_))
    ));
    let found = Server::located(None, false, Some("/usr/bin/llama-server".to_owned()))
        .expect("on the search path");
    assert_eq!(found.binary(), "/usr/bin/llama-server");
    assert!(Server::located(None, false, None).is_err());
}

#[test]
fn a_model_file_that_is_not_there_is_named_before_anything_starts() {
    let e = entry();
    assert_eq!(
        Server::model_file(&e, ROOT, true).expect("there"),
        resolved("cache/gemma/gemma-3-1b.gguf")
    );
    let Err(Failure::Unavailable(message)) = Server::model_file(&e, ROOT, false) else {
        panic!("a missing model is unavailable");
    };
    assert!(message.contains("gemma3"), "{message}");
}

#[test]
fn only_a_lost_port_is_retried_and_only_so_often() {
    assert!(retries(true, 1));
    assert!(!retries(false, 1));
    assert!(!retries(true, ATTEMPTS));
}

#[test]
fn a_start_that_misses_its_budget_is_not_ready_and_one_that_ended_is_unavailable() {
    assert!(matches!(not_ready("gemma3", 2), Failure::NotReady(_)));
    assert!(matches!(exited("gemma3", "exit status: 1"), Failure::Unavailable(_)));
    assert!(not_ready("gemma3", 2).message().contains("gemma3"));
}

#[test]
fn a_health_reply_carries_its_status_in_its_second_word() {
    assert_eq!(status_of("HTTP/1.1 200 OK\r\n"), Some(200));
    assert_eq!(status_of("HTTP/1.1 503 Service Unavailable"), Some(503));
    assert_eq!(status_of("HTTP/1.1"), None);
    assert_eq!(status_of("HTTP/1.1 ok"), None);
    assert_eq!(status_of("HTTP/1.1 70000 Big"), None, "not a status a u16 holds");
}

#[test]
fn each_round_of_waiting_for_a_child_leads_where_its_answer_says() {
    let early = Span::from_secs(1);
    let late = Span::from_secs(30);

    assert_eq!(readiness_step("gemma3", 30, early, false, Seen::Answered(200)), Next::Ready);
    assert_eq!(
        readiness_step("gemma3", 30, early, false, Seen::Answered(503)),
        Next::Poll { ever_connected: true },
        "a loading child has been reached"
    );
    assert_eq!(
        readiness_step("gemma3", 30, early, false, Seen::Silent),
        Next::Poll { ever_connected: false }
    );
    assert_eq!(
        readiness_step("gemma3", 30, early, true, Seen::Silent),
        Next::Poll { ever_connected: true },
        "once reached, always reached"
    );
    assert_eq!(
        readiness_step("gemma3", 30, early, false, Seen::Exited("exit status: 1".to_owned())),
        Next::Fail(exited("gemma3", "exit status: 1"), true),
        "an exit before any answer is a lost start"
    );
    assert_eq!(
        readiness_step("gemma3", 30, early, true, Seen::Exited("exit status: 1".to_owned())),
        Next::Fail(exited("gemma3", "exit status: 1"), false)
    );
    assert_eq!(
        readiness_step("gemma3", 30, late, true, Seen::Answered(503)),
        Next::Fail(not_ready("gemma3", 30), false),
        "the budget ran out"
    );
    assert_eq!(
        readiness_step("gemma3", 30, late, false, Seen::Answered(200)),
        Next::Ready,
        "an answer in time is taken even on the last round"
    );
}
