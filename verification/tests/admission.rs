use maestro_llamacpp::admission::{Budget, Decision, Loaded, Wanted};
use maestro_llamacpp::catalog::flags::Flags;
use maestro_llamacpp::catalog::{Entry, RelativePath, Residency};
use maestro_llamacpp::memory::Measurement;
use maestro_llamacpp::time::Moment;

/// A moment well after the clock's origin, so every age below it exists.
const NOW_NANOS: u64 = 1_000_000 * 1_000_000_000;

/// The moment `age` seconds before now: a larger age is older.
fn ago(age: u64) -> Moment {
    Moment::from_nanos(NOW_NANOS - age * 1_000_000_000)
}

/// A loaded entry, with the fields a case cares about named at the call.
fn loaded(id: &str, mib: u64, residency: Residency, busy: bool, age: u64) -> Loaded {
    Loaded {
        id: id.to_owned(),
        cost_mib: mib,
        device_mib: mib,
        residency,
        busy,
        last_used: ago(age),
    }
}

fn on_demand(id: &str, mib: u64, age: u64) -> Loaded {
    loaded(id, mib, Residency::OnDemand, false, age)
}

/// What a case wants, at the given cost on both sides.
fn wanted(id: &str, mib: u64) -> Wanted {
    Wanted {
        id: id.to_owned(),
        cost_mib: mib,
        device_mib: mib,
    }
}

/// A protected entry held beside an idle on-demand one, and something
/// wanted that needs the room.
fn with_one_protected(protected: Loaded) -> Decision {
    let budget = Budget::new(Some(10_000));
    let held = [protected, on_demand("idle", 2_000, 1)];
    budget.consider(&held, &wanted("wanted", 3_000), None)
}

fn entry_estimated_at(mib: u32) -> Entry {
    Entry {
        id: "entry".to_owned(),
        path: RelativePath::new("somewhere/model.gguf").expect("relative"),
        draft_path: None,
        projector_path: None,
        context_size: 4096,
        residency: Residency::OnDemand,
        memory_estimate_mib: mib,
        reasoning_format: None,
        reasoning_effort: None,
        startup_timeout_seconds: 30,
        runtime: None,
        flags: Flags::new(),
    }
}

fn flags_of(pairs: &[(&str, &str)]) -> Flags {
    let mut flags = Flags::new();
    for (k, v) in pairs {
        flags.insert((*k).to_owned(), (*v).to_owned());
    }
    flags
}

#[test]
fn without_a_limit_anything_fits_and_nothing_is_unloaded() {
    let budget = Budget::new(None);
    let held = [on_demand("a", 900_000, 10), on_demand("b", 900_000, 5)];

    assert_eq!(
        budget.consider(&held, &wanted("c", 900_000), None),
        Decision::Fits,
        "an unset budget means no eviction, however much is loaded"
    );
}

#[test]
fn with_room_to_spare_a_wanted_entry_fits() {
    let budget = Budget::new(Some(10_000));
    let held = [on_demand("a", 2_000, 10)];

    assert_eq!(
        budget.consider(&held, &wanted("b", 3_000), None),
        Decision::Fits
    );
}

#[test]
fn a_wanted_entry_that_does_not_fit_unloads_the_coldest_candidate() {
    let budget = Budget::new(Some(10_000));
    let held = [on_demand("a", 4_000, 30), on_demand("b", 4_000, 1)];

    assert_eq!(
        budget.consider(&held, &wanted("c", 5_000), None),
        Decision::Unload(vec!["a".to_owned()]),
        "only as many as are needed, coldest first"
    );
}

#[test]
fn only_as_many_candidates_as_are_needed_are_unloaded() {
    let budget = Budget::new(Some(10_000));
    let held = [
        on_demand("a", 3_000, 30),
        on_demand("b", 3_000, 20),
        on_demand("c", 3_000, 10),
    ];

    assert_eq!(
        budget.consider(&held, &wanted("d", 5_000), None),
        Decision::Unload(vec!["a".to_owned(), "b".to_owned()]),
        "two make room for 5000 within 10000; the third stays loaded"
    );
}

#[test]
fn a_resident_entry_is_never_unloaded() {
    assert_eq!(
        with_one_protected(loaded("pinned", 6_000, Residency::Resident, false, 100)),
        Decision::Unload(vec!["idle".to_owned()]),
        "the resident entry is colder and would free enough on its own, \
         and is still not a candidate"
    );
}

#[test]
fn a_busy_entry_is_never_unloaded() {
    assert_eq!(
        with_one_protected(loaded("reading", 6_000, Residency::OnDemand, true, 100)),
        Decision::Unload(vec!["idle".to_owned()]),
        "the busy entry is coldest and on-demand, and is still not a candidate"
    );
}

#[test]
fn when_the_room_is_held_by_something_busy_the_decision_blocks_and_says_why() {
    let budget = Budget::new(Some(10_000));
    let held = [
        loaded("busy", 8_000, Residency::OnDemand, true, 100),
        loaded("pinned", 1_000, Residency::Resident, false, 50),
    ];

    let Decision::Blocked(message) = budget.consider(&held, &wanted("wanted", 5_000), None) else {
        panic!("the room is held by something that will release it");
    };
    assert!(
        message.contains("busy") && message.contains("pinned"),
        "the message still names what is holding the memory: {message}"
    );
}

#[test]
fn when_a_resident_holds_the_room_the_decision_refuses_because_waiting_cannot_help() {
    let budget = Budget::new(Some(10_000));
    let held = [
        loaded("pinned", 8_000, Residency::Resident, false, 100),
        loaded("also-pinned", 1_000, Residency::Resident, false, 50),
    ];

    let Decision::Refuse(message) = budget.consider(&held, &wanted("wanted", 5_000), None) else {
        panic!("residents never become candidates, so waiting is pointless");
    };
    assert!(
        message.contains("pinned"),
        "the refusal names what is holding the memory: {message}"
    );
}

#[test]
fn a_refusal_a_resident_makes_permanent_says_so_instead_of_naming_the_moment() {
    let budget = Budget::new(Some(10_000));
    let held = [
        loaded("steward", 1_000, Residency::Resident, false, 100),
        on_demand("big", 6_000, 50),
    ];

    let Decision::Refuse(message) = budget.consider(&held, &wanted("flagship", 9_500), None)
    else {
        panic!("a resident reservation this entry cannot fit beside is permanent");
    };
    assert!(
        message.contains("steward"),
        "the resident in the way is named, because it is the thing to \
         change: {message}"
    );
    assert!(
        message.contains("9000") || message.contains("9,000"),
        "what is left once the residents have taken their share is the \
         number that explains the refusal: {message}"
    );
    assert!(
        message.contains("never") || message.contains("cannot ever"),
        "and it is said to be permanent, so the reader edits the catalog \
         rather than retrying: {message}"
    );
}

#[test]
fn an_entry_already_loaded_fits_even_when_the_budget_is_exhausted() {
    let budget = Budget::new(Some(10_000));
    let held = [loaded("wanted", 9_999, Residency::OnDemand, true, 1)];

    assert_eq!(
        budget.consider(&held, &wanted("wanted", 9_999), None),
        Decision::Fits,
        "serving a model that is already loaded costs nothing new"
    );
}

#[test]
fn an_entry_larger_than_the_whole_budget_refuses_immediately() {
    let budget = Budget::new(Some(4_000));
    let held = [on_demand("a", 1_000, 10)];

    let Decision::Refuse(message) = budget.consider(&held, &wanted("huge", 8_000), None) else {
        panic!("an entry larger than the budget can never be served");
    };
    assert!(
        message.contains("8000") && message.contains("4000"),
        "the refusal names the estimate and the budget: {message}"
    );
}

#[test]
fn a_device_short_of_room_unloads_a_candidate_the_ledger_would_have_kept() {
    let budget = Budget::new(None);
    let held = [on_demand("idle", 512, 10)];

    assert_eq!(
        budget.consider(&held, &wanted("wanted", 512), Some(100)),
        Decision::Unload(vec!["idle".to_owned()]),
        "the device is asked as well as the ledger, and it said no"
    );
}

#[test]
fn a_device_short_of_room_with_nothing_to_unload_refuses_naming_needed_and_free() {
    let budget = Budget::new(None);

    let Decision::Refuse(message) = budget.consider(&[], &wanted("wanted", 512), Some(100)) else {
        panic!("nothing is loaded, so nothing can be unloaded to make room");
    };
    assert!(
        message.contains("512") && message.contains("100"),
        "the refusal says what was needed and what the device had: {message}"
    );
}

#[test]
fn an_entry_that_puts_nothing_on_the_device_is_not_held_to_the_devices_room() {
    let budget = Budget::new(None);
    let wanted = Wanted {
        id: "processor-bound".to_owned(),
        cost_mib: 4096,
        device_mib: 0,
    };

    assert_eq!(
        budget.consider(&[], &wanted, Some(0)),
        Decision::Fits,
        "a model kept off the device needs none of its room"
    );
}

#[test]
fn what_a_loaded_entry_costs_is_the_larger_of_its_estimate_and_its_measurement() {
    let entry = entry_estimated_at(1024);
    let now = ago(0);

    let measured = Loaded::of(
        &entry,
        false,
        now,
        &Measurement {
            resident_mib: Some(4600),
            device_mib: Some(725),
        },
    );
    assert_eq!(
        measured.cost_mib, 4600,
        "an under-estimated model is counted at what it turned out to cost"
    );
    assert_eq!(
        measured.device_mib, 725,
        "and what unloading it frees on the device is what it was seen to hold"
    );

    let unmeasured = Loaded::of(&entry, false, now, &Measurement::unknown());
    assert_eq!(
        unmeasured.cost_mib, 1024,
        "with nothing measured, the estimate stands"
    );

    let over_estimated = Loaded::of(
        &entry,
        false,
        now,
        &Measurement {
            resident_mib: Some(300),
            device_mib: None,
        },
    );
    assert_eq!(
        over_estimated.cost_mib, 1024,
        "a measurement below the estimate does not lower it: what a model \
         holds a moment after loading is a floor, not its peak"
    );
}

#[test]
fn device_need_is_the_estimate_unless_the_flags_keep_every_layer_off_the_device() {
    let mut entry = entry_estimated_at(4096);
    assert_eq!(Wanted::of(&entry).device_mib, 4096);

    for key in ["n-gpu-layers", "ngl", "gpu-layers"] {
        entry.flags = flags_of(&[(key, "0")]);
        assert_eq!(
            Wanted::of(&entry).device_mib,
            0,
            "'{key} = 0' keeps the weights off the device"
        );
    }

    entry.flags = flags_of(&[("n-gpu-layers", "999")]);
    assert_eq!(Wanted::of(&entry).device_mib, 4096);
}

#[test]
fn unloading_takes_the_coldest_candidates_in_order_even_when_held_out_of_order() {
    let budget = Budget::new(Some(6_000));
    let held = [
        on_demand("warm", 2_000, 5),
        on_demand("coldest", 2_000, 50),
        on_demand("cold", 2_000, 20),
    ];

    assert_eq!(
        budget.consider(&held, &wanted("new", 4_000), None),
        Decision::Unload(vec!["coldest".to_owned(), "cold".to_owned()]),
        "coldest first, whatever order the entries are held in"
    );
}
