use maestro_llamacpp::admission::{Budget, Loaded};
use maestro_llamacpp::catalog::Residency;
use maestro_llamacpp::idle::IdleWindow;
use maestro_llamacpp::memory::parse::{
    compute_apps, device, meminfo_total, scaled_text, tasklist_rss, BYTES_PER_MIB, KIB_PER_MIB,
};
use maestro_llamacpp::memory::{DeviceMemory, Measurement, Probe};
use maestro_llamacpp::proxy::slots::{stale, sweep_interval};
use maestro_llamacpp::queue::Wait;
use maestro_llamacpp::startup::{admission_wait, budget, idle_window, reservation};
use maestro_llamacpp::time::{Moment, Span};

/// Captured from an RTX 5090 under WSL, where the router was written.
const ONE_DEVICE: &str = "32607, 7903\n";

const NOW_NANOS: u64 = 10_000_000 * 1_000_000_000;

fn now() -> Moment {
    Moment::from_nanos(NOW_NANOS)
}

fn ago(age: u64) -> Moment {
    Moment::from_nanos(NOW_NANOS - age * 1_000_000_000)
}

#[test]
fn a_device_query_reads_total_and_used_from_one_line() {
    let read = device(ONE_DEVICE).expect("one device");
    assert_eq!((read.total_mib, read.used_mib), (32607, 7903));
    assert_eq!(read.free_mib(), 24704, "free is what is not used");
}

#[test]
fn several_devices_are_summed_because_a_model_is_split_across_them() {
    let read = device("24576, 1000\n24576, 2000\n").expect("two devices");
    assert_eq!((read.total_mib, read.used_mib), (49152, 3000));
}

#[test]
fn a_device_query_that_says_nothing_is_unknown_not_zero() {
    assert!(device("").is_none(), "no line means no device");
    assert!(
        device("[N/A], [N/A]\n").is_none(),
        "a driver that cannot say is not a device holding nothing"
    );
    assert!(device("Failed to initialize NVML: Driver/library version mismatch\n").is_none());
}

#[test]
fn a_process_query_sums_the_lines_naming_the_pid_and_ignores_the_rest() {
    let text = "12345, 4523\n777, 900\n12345, 100\n";
    assert_eq!(compute_apps(text, 12345), Some(4623));
    assert_eq!(compute_apps(text, 777), Some(900));
}

#[test]
fn a_process_the_query_does_not_name_is_unknown_not_zero() {
    assert_eq!(
        compute_apps("777, 900\n", 12345),
        None,
        "the query prints nothing for every process on some platforms, \
         and silence must not become a claim that a child holds nothing"
    );
    assert_eq!(compute_apps("", 12345), None);
}

#[test]
fn meminfo_reads_the_total_in_mebibytes() {
    let text = "MemTotal:       49331796 kB\nMemFree:        10103280 kB\n";
    assert_eq!(meminfo_total(text), Some(48175));
    assert_eq!(meminfo_total("MemFree: 1 kB\n"), None);
}

#[test]
fn a_number_on_its_own_reads_in_mebibytes_at_the_stated_unit() {
    assert_eq!(scaled_text("51539607552\n", BYTES_PER_MIB), Some(49152), "bytes");
    assert_eq!(scaled_text(" 3624\n", KIB_PER_MIB), Some(3), "kibibytes, padded");
    assert_eq!(scaled_text("7598996\n", KIB_PER_MIB), Some(7420));
    assert_eq!(
        scaled_text("sysctl: unknown oid 'hw.memsize'\n", BYTES_PER_MIB),
        None
    );
    assert_eq!(
        scaled_text("", KIB_PER_MIB),
        None,
        "a process that is gone prints nothing"
    );
}

#[test]
fn a_resident_set_from_tasklist_reads_the_last_field() {
    let text = "\"stub-llama-server.exe\",\"1234\",\"Console\",\"1\",\"12,345 K\"\r\n";
    assert_eq!(tasklist_rss(text), Some(12));
    assert_eq!(
        tasklist_rss("INFO: No tasks are running which match the specified criteria.\r\n"),
        None
    );
}

#[test]
fn the_largest_side_is_the_measurement_and_one_unknown_side_does_not_hide_the_other() {
    let both = Measurement {
        resident_mib: Some(4600),
        device_mib: Some(725),
    };
    assert_eq!(both.largest_mib(), Some(4600));

    let device_only = Measurement {
        resident_mib: None,
        device_mib: Some(725),
    };
    assert_eq!(device_only.largest_mib(), Some(725));
    assert_eq!(Measurement::unknown().largest_mib(), None);
}

fn card(total_mib: u64) -> DeviceMemory {
    DeviceMemory {
        total_mib,
        used_mib: 0,
    }
}

#[test]
fn a_device_sets_the_budget_at_its_total_less_a_tenth() {
    let budget = Budget::derived(Probe::none(), Some(card(32607)), Some(48175));

    assert_eq!(budget.limit_mib(), Some(29347), "32607 less 3260");
    assert!(
        budget.source().contains("device") && budget.source().contains("3260"),
        "the source names the device and the margin: {}",
        budget.source()
    );
}

#[test]
fn a_small_device_keeps_a_gibibyte_back_rather_than_a_tenth() {
    let budget = Budget::derived(Probe::none(), Some(card(8192)), None);

    assert_eq!(
        budget.limit_mib(),
        Some(7168),
        "a tenth of 8192 is 819, which is not a margin the display and \
         the driver fit in; the floor applies instead"
    );
}

#[test]
fn without_a_device_system_memory_sets_the_budget_at_four_fifths() {
    let budget = Budget::derived(Probe::none(), None, Some(48175));

    assert_eq!(budget.limit_mib(), Some(38540));
    assert!(
        budget.source().contains("system memory"),
        "the source says it was not the device: {}",
        budget.source()
    );
}

#[test]
fn a_machine_that_reports_nothing_sets_no_budget() {
    let budget = Budget::derived(Probe::none(), None, None);

    assert_eq!(
        budget.limit_mib(),
        None,
        "what an unset variable meant before the machine could be asked"
    );
}

#[test]
fn a_stated_budget_is_read_and_a_garbled_one_refused() {
    let budget = Budget::stated("25000", Probe::none()).expect("a number");
    assert_eq!(budget.limit_mib(), Some(25000));
    assert!(Budget::stated("lots", Probe::none()).is_err());
}

fn loaded(id: &str, residency: Residency, busy: bool, age: u64) -> Loaded {
    Loaded {
        id: id.to_owned(),
        cost_mib: 1_000,
        device_mib: 1_000,
        residency,
        busy,
        last_used: ago(age),
    }
}

fn on_demand(id: &str, busy: bool, age: u64) -> Loaded {
    loaded(id, Residency::OnDemand, busy, age)
}

fn with_one_protected(protected: Loaded) -> Vec<String> {
    let window = IdleWindow::new(Span::from_secs(60));
    let held = [protected, on_demand("stale", false, 120)];
    window.expired(&held, now())
}

#[test]
fn an_on_demand_entry_older_than_the_window_is_named_beside_a_younger_one() {
    let window = IdleWindow::new(Span::from_secs(60));
    let held = [on_demand("old", false, 120), on_demand("young", false, 10)];

    assert_eq!(
        window.expired(&held, now()),
        vec!["old".to_owned()],
        "only the one that has been idle longer than the window"
    );
}

#[test]
fn a_resident_older_than_the_window_is_not_named_beside_an_on_demand_one() {
    assert_eq!(
        with_one_protected(loaded("pinned", Residency::Resident, false, 120)),
        vec!["stale".to_owned()],
        "a resident is never a candidate, however long it has been idle"
    );
}

#[test]
fn a_busy_entry_older_than_the_window_is_not_named_beside_an_idle_one() {
    assert_eq!(
        with_one_protected(loaded("reading", Residency::OnDemand, true, 120)),
        vec!["stale".to_owned()],
        "a busy entry is never a candidate, however long since it started"
    );
}

#[test]
fn a_zero_window_names_nothing_whatever_the_ages_are() {
    let window = IdleWindow::new(Span::zero());
    let held = [
        on_demand("just-finished", false, 0),
        on_demand("ancient", false, 1_000_000),
    ];

    assert_eq!(
        window.expired(&held, now()),
        Vec::<String>::new(),
        "a zero window is off, or it would expire everything on every \
         sweep -- and off means no eviction however long anything has \
         sat idle"
    );
}

#[test]
fn several_expired_entries_come_back_coldest_first() {
    let window = IdleWindow::new(Span::from_secs(60));
    let held = [
        on_demand("newer", false, 90),
        on_demand("oldest", false, 300),
        on_demand("newest", false, 61),
    ];

    assert_eq!(
        window.expired(&held, now()),
        vec!["oldest".to_owned(), "newer".to_owned(), "newest".to_owned()],
        "coldest first, matching the order admission unloads in"
    );
}

#[test]
fn an_idle_window_is_read_from_its_setting() {
    assert_eq!(IdleWindow::configured_from(None).expect("unset").seconds(), None);
    assert_eq!(
        IdleWindow::configured_from(Some("300")).expect("a number").seconds(),
        Some(300)
    );
    assert!(IdleWindow::configured_from(Some("soon")).is_err());
}

#[test]
fn zero_means_refuse_rather_than_wait_the_default() {
    let wait = Wait::new(Span::zero());
    assert!(
        !wait.waits(),
        "an operator writing 0 said 'do not wait', not 'wait the default'"
    );
}

#[test]
fn a_stated_wait_is_carried_as_given() {
    assert_eq!(Wait::new(Span::from_secs(5)).duration().as_secs(), 5);
}

#[test]
fn an_unset_wait_is_the_default_minute() {
    let wait = Wait::configured_from(None).expect("the default");
    assert_eq!(wait.duration().as_secs(), 60);
    assert!(Wait::configured_from(Some("-1")).is_err());
}

#[test]
fn a_reservation_says_what_it_holds_and_what_that_leaves() {
    let fits = reservation(Some(25_000), 4_096);
    assert!(
        fits.contains("4096") && fits.contains("25000") && fits.contains("20904"),
        "what is reserved, the ceiling, and what is left for everything \
         else: {fits}"
    );

    let over = reservation(Some(2_048), 4_096);
    assert!(
        over.contains("4096") && over.contains("2048") && !over.contains("leaving"),
        "a reservation larger than the budget is stated plainly rather \
         than subtracted into a number that wrapped: {over}"
    );

    let unbounded = reservation(None, 4_096);
    assert!(
        unbounded.contains("4096"),
        "residents are held whether or not a ceiling exists, so what they \
         hold is still worth saying: {unbounded}"
    );
}

#[test]
fn the_budget_line_says_whether_anything_is_ever_unloaded() {
    assert!(
        budget(Some(25_000)).contains("25000"),
        "the ceiling, as configured"
    );
    assert!(
        budget(None).contains("MAESTRO_MEMORY_BUDGET_MIB"),
        "and when there is none, the variable to set"
    );
}

#[test]
fn a_use_from_this_instant_is_never_stale_however_large_the_duration() {
    let now = now();
    let duration = Span::longest();

    assert!(
        !stale(now, now, duration),
        "a use from this instant is not stale against any duration"
    );
}

#[test]
fn a_use_as_old_as_the_window_is_stale() {
    assert!(stale(now(), ago(60), Span::from_secs(60)));
    assert!(!stale(now(), ago(59), Span::from_secs(60)));
}

#[test]
fn a_window_is_swept_at_half_its_length() {
    assert_eq!(sweep_interval(Span::from_secs(60)).as_secs(), 30);
}

#[test]
fn the_idle_window_line_says_how_long_an_unused_model_is_held() {
    assert_eq!(
        idle_window(Some(3600)),
        "idle window: 3600 seconds, so an unused on-demand model is unloaded after that long"
    );
    assert!(idle_window(None).contains("nothing is ever unloaded for sitting idle"));
    assert!(idle_window(None).contains("MAESTRO_IDLE_UNLOAD_SECONDS"));
}

#[test]
fn the_admission_wait_line_says_whether_a_request_waits() {
    assert_eq!(
        admission_wait(60),
        "admission wait: up to 60 seconds for room held by a model that is answering"
    );
    assert!(admission_wait(0).contains("refused at once"));
}
