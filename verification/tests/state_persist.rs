use idle_core::counter::BigCounter;
use idle_core::state::{reducer, Msg, State};
use num_bigint::BigUint;

fn state_with(counter: u64, production: u64, last_save: u64) -> State {
    State {
        counter: BigCounter::from_u64(counter),
        production: BigCounter::from_u64(production),
        last_save,
        last_saved_at: None,
    }
}

#[test]
fn tick_adds_production_and_changes_nothing_else() {
    let s = state_with(10, 5, 777);
    let (s2, out) = reducer(&s, Msg::Tick, 9999, None);
    assert!(out.is_none());
    assert_eq!(s2.counter.to_decimal_string(), "15");
    assert_eq!(s2.production.to_decimal_string(), "5");
    assert_eq!(s2.last_save, 777);
    assert_eq!(s2.last_saved_at, None);
}

#[test]
fn upgrade_doubles_production_and_keeps_counter() {
    let s = state_with(10, 5, 777);
    let (s2, out) = reducer(&s, Msg::UpgradeProduction, 9999, None);
    assert!(out.is_none());
    assert_eq!(s2.counter.to_decimal_string(), "10");
    assert_eq!(s2.production.to_decimal_string(), "10");
    assert_eq!(s2.last_save, 777);
}

#[test]
fn reset_yields_the_canonical_fresh_state() {
    let s = state_with(123456, 64, 777);
    let (s2, out) = reducer(&s, Msg::Reset, 5000, None);
    assert!(out.is_none());
    assert_eq!(s2.counter.to_decimal_string(), "0");
    assert_eq!(s2.production.to_decimal_string(), "1");
    assert_eq!(s2.last_save, 5000);
    assert_eq!(s2.last_saved_at, None);
}

#[test]
fn production_grows_beyond_sixty_four_bits() {
    let mut s = State::new(0);
    for _ in 0..100 {
        let (next, _) = reducer(&s, Msg::UpgradeProduction, 0, None);
        s = next;
    }
    let expected = BigUint::from(2u32).pow(100).to_string();
    assert_eq!(s.production.to_decimal_string(), expected);
}

#[test]
fn save_stamps_timestamps_and_emits_the_blob() {
    let s = state_with(12, 3, 777);
    let (s2, blob) = s.save(1000);
    assert_eq!(s2.counter.to_decimal_string(), "12");
    assert_eq!(s2.production.to_decimal_string(), "3");
    assert_eq!(s2.last_save, 1000);
    assert_eq!(s2.last_saved_at, Some(1000));
    assert_eq!(
        blob,
        "{\"counter\":\"12\",\"production\":\"3\",\"last_save\":1000,\"last_saved_at\":1000}"
    );
}

#[test]
fn save_load_round_trip_is_exact_for_huge_counters() {
    let big = BigUint::from(2u32).pow(200).to_string();
    let s = State {
        counter: BigCounter::from_decimal_str(&big).unwrap(),
        production: BigCounter::from_decimal_str(&big).unwrap(),
        last_save: 0,
        last_saved_at: None,
    };
    let (_, blob) = s.save(5000);
    let loaded = State::load(&blob, 5000).unwrap();
    assert_eq!(loaded.counter.to_decimal_string(), big);
    assert_eq!(loaded.production.to_decimal_string(), big);
    assert_eq!(loaded.last_save, 5000);
    assert_eq!(loaded.last_saved_at, Some(5000));
}

#[test]
fn offline_catch_up_truncates_to_whole_seconds() {
    let s = state_with(7, 5, 0);
    let t: u64 = 1000000;
    let (_, blob) = s.save(t);
    // 12500 ms elapsed: 12 whole seconds, so 5 * 12 = 60 is added.
    let loaded = State::load(&blob, t + 12500).unwrap();
    assert_eq!(loaded.counter.to_decimal_string(), "67");
    assert_eq!(loaded.production.to_decimal_string(), "5");
    assert_eq!(loaded.last_save, t + 12500);
}

#[test]
fn load_accepts_a_never_saved_blob() {
    let blob = "{\"counter\":\"12\",\"production\":\"3\",\"last_save\":1000,\"last_saved_at\":null}";
    let loaded = State::load(blob, 1000).unwrap();
    assert_eq!(loaded.counter.to_decimal_string(), "12");
    assert_eq!(loaded.production.to_decimal_string(), "3");
    assert_eq!(loaded.last_saved_at, None);
}

#[test]
fn load_clamps_a_backwards_clock_to_no_catch_up() {
    let s = state_with(7, 5, 0);
    let (_, blob) = s.save(1000000);
    let loaded = State::load(&blob, 999000).unwrap();
    assert_eq!(loaded.counter.to_decimal_string(), "7");
    assert_eq!(loaded.last_save, 999000);
}

#[test]
fn load_clamps_enormous_gaps_to_u32_seconds() {
    let blob = "{\"counter\":\"0\",\"production\":\"1\",\"last_save\":0,\"last_saved_at\":null}";
    let loaded = State::load(blob, 10000000000000).unwrap();
    // 10^10 elapsed seconds exceed u32::MAX, so the catch-up is clamped.
    assert_eq!(loaded.counter.to_decimal_string(), "4294967295");
}

#[test]
fn load_rejects_malformed_blobs() {
    assert!(State::load("", 0).is_none());
    assert!(State::load("garbage", 0).is_none());
    assert!(State::load("{\"counter\":\"12\"}", 0).is_none());
    // Production zero would break the engine's invariant.
    assert!(State::load(
        "{\"counter\":\"1\",\"production\":\"0\",\"last_save\":0,\"last_saved_at\":null}",
        0
    )
    .is_none());
    // Non-canonical digits are refused.
    assert!(State::load(
        "{\"counter\":\"007\",\"production\":\"1\",\"last_save\":0,\"last_saved_at\":null}",
        0
    )
    .is_none());
    // Trailing text is refused.
    assert!(State::load(
        "{\"counter\":\"1\",\"production\":\"1\",\"last_save\":0,\"last_saved_at\":null}x",
        0
    )
    .is_none());
}

#[test]
fn reducer_load_keeps_the_state_when_nothing_is_stored() {
    let s = state_with(10, 5, 777);
    let (s2, out) = reducer(&s, Msg::Load, 9999, None);
    assert!(out.is_none());
    assert_eq!(s2.counter.to_decimal_string(), "10");
    assert_eq!(s2.production.to_decimal_string(), "5");
}

#[test]
fn reducer_load_keeps_the_state_on_a_bad_blob() {
    let s = state_with(10, 5, 777);
    let (s2, _) = reducer(&s, Msg::Load, 9999, Some("not a blob"));
    assert_eq!(s2.counter.to_decimal_string(), "10");
    assert_eq!(s2.production.to_decimal_string(), "5");
}

#[test]
fn reducer_save_then_load_round_trips() {
    let s = state_with(21, 2, 0);
    let (s2, blob) = reducer(&s, Msg::Save, 4000, None);
    let blob = blob.unwrap();
    let (s3, out) = reducer(&s2, Msg::Load, 4000, Some(blob.as_str()));
    assert!(out.is_none());
    assert_eq!(s3.counter.to_decimal_string(), "21");
    assert_eq!(s3.production.to_decimal_string(), "2");
    assert_eq!(s3.last_save, 4000);
    assert_eq!(s3.last_saved_at, Some(4000));
}

#[test]
fn saving_twice_only_updates_timestamps() {
    let s = state_with(21, 2, 0);
    let (s1, _) = reducer(&s, Msg::Save, 4000, None);
    let (s2, blob2) = reducer(&s1, Msg::Save, 4005, None);
    assert_eq!(s2.counter.to_decimal_string(), "21");
    assert_eq!(s2.production.to_decimal_string(), "2");
    assert_eq!(s2.last_save, 4005);
    assert_eq!(s2.last_saved_at, Some(4005));
    assert_eq!(
        blob2.unwrap(),
        "{\"counter\":\"21\",\"production\":\"2\",\"last_save\":4005,\"last_saved_at\":4005}"
    );
}

#[test]
fn format_last_saved_reports_never_without_a_save() {
    let s = state_with(0, 1, 0);
    assert_eq!(s.format_last_saved(123456789), "Never");
}

#[test]
fn format_last_saved_reports_just_now_under_a_minute() {
    let mut s = state_with(0, 1, 0);
    s.last_saved_at = Some(1000000);
    assert_eq!(s.format_last_saved(1000000 + 30000), "Just now");
    assert_eq!(s.format_last_saved(1000000 + 59999), "Just now");
}

#[test]
fn format_last_saved_reports_minutes_under_an_hour() {
    let mut s = state_with(0, 1, 0);
    s.last_saved_at = Some(1000000);
    assert_eq!(s.format_last_saved(1000000 + 300000), "5 minutes ago");
    assert_eq!(s.format_last_saved(1000000 + 90000), "2 minutes ago");
    assert_eq!(s.format_last_saved(1000000 + 3599999), "60 minutes ago");
}

#[test]
fn format_last_saved_reports_tenths_of_hours_beyond() {
    let mut s = state_with(0, 1, 0);
    s.last_saved_at = Some(1000000);
    assert_eq!(s.format_last_saved(1000000 + 7200000), "2.0 hours ago");
    assert_eq!(s.format_last_saved(1000000 + 3600000), "1.0 hours ago");
    assert_eq!(s.format_last_saved(1000000 + 5400000), "1.5 hours ago");
}

#[test]
fn format_last_saved_handles_a_backwards_clock() {
    let mut s = state_with(0, 1, 0);
    s.last_saved_at = Some(1000000);
    assert_eq!(s.format_last_saved(0), "Just now");
}
