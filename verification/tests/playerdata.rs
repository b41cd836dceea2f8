use chrono::{DateTime, Utc};
use std::collections::HashMap;
use threepole::history::{collect_history_page, replace_history_if_changed, sort_history, str_before};
use threepole::modes::{
    has_tracked_mode, supplement_cached_modes, DUNGEON_ACTIVITY_MODE, LOSTSECTOR_ACTIVITY_MODE,
    RAID_ACTIVITY_MODE, STRIKE_ACTIVITY_MODE,
};
use threepole::playerdata::{
    latest_activity, next_watermark, refreshed_current, should_refresh_current,
    status_freshness, CurrentActivity, CurrentActivityError, DefinitionLookup, PlayerData,
    PlayerDataStatus, StatusFreshness,
};
use threepole::responses::{ActivityInfo, CompletedActivity, LatestCharacterActivity, ProfileInfo};
use threepole::time::Timestamp;

fn activity(seconds: i64, id: &str) -> CompletedActivity {
    let period = DateTime::parse_from_rfc3339("2026-09-10T00:00:00Z")
        .unwrap().with_timezone(&Utc) + chrono::Duration::seconds(seconds);
    CompletedActivity {
        period: Timestamp::new(period.timestamp(), period.timestamp_subsec_nanos()),
        instance_id: id.to_string(),
        activity_hash: 123,
        modes: vec![DUNGEON_ACTIVITY_MODE],
        completed: false,
        activity_duration: "1:00".to_string(),
        activity_duration_seconds: 60,
    }
}

#[test]
fn accepts_late_older_activity() {
    let newest = activity(20, "newest");
    let mut history = vec![newest.clone()];
    assert!(replace_history_if_changed(
        &mut history, vec![activity(10, "late"), newest]
    ));
    assert_eq!(history.len(), 2);
    assert_eq!(history[0].instance_id, "newest");
}

#[test]
fn accepts_corrected_completion_and_duration() {
    let mut corrected = activity(20, "same");
    let mut history = vec![corrected.clone()];
    corrected.completed = true;
    corrected.activity_duration_seconds = 61;
    corrected.activity_duration = "1:01".to_string();
    assert!(replace_history_if_changed(&mut history, vec![corrected.clone()]));
    assert_eq!(history, vec![corrected]);
}

#[test]
fn removes_old_records_and_clears_at_reset() {
    let newest = activity(20, "newest");
    let mut history = vec![newest.clone(), activity(10, "old")];
    assert!(replace_history_if_changed(&mut history, vec![newest]));
    assert!(replace_history_if_changed(&mut history, vec![]));
    assert!(history.is_empty());
    assert!(!replace_history_if_changed(&mut history, vec![]));
}

#[test]
fn unchanged_history_ignores_response_order_even_with_equal_times() {
    let a = activity(20, "a");
    let b = activity(20, "b");
    let mut history = vec![];
    assert!(replace_history_if_changed(&mut history, vec![b.clone(), a.clone()]));
    assert!(!replace_history_if_changed(&mut history, vec![a, b]));
}

#[test]
fn cache_supplements_empty_and_generic_modes_without_duplicates() {
    for mut modes in [vec![], vec![7]] {
        supplement_cached_modes(&mut modes, Some(&[DUNGEON_ACTIVITY_MODE]));
        assert!(has_tracked_mode(&modes));
        let once = modes.clone();
        supplement_cached_modes(&mut modes, Some(&[DUNGEON_ACTIVITY_MODE]));
        assert_eq!(modes, once);
    }
    let mut generic = vec![7];
    supplement_cached_modes(&mut generic, None);
    assert_eq!(generic, vec![7]);
    let mut known = vec![RAID_ACTIVITY_MODE];
    supplement_cached_modes(&mut known, Some(&[DUNGEON_ACTIVITY_MODE]));
    assert_eq!(known, vec![RAID_ACTIVITY_MODE]);
}

#[test]
fn incomplete_modes_require_fallback_but_known_modes_do_not() {
    assert!(!has_tracked_mode(&[]));
    assert!(!has_tracked_mode(&[7]));
    for mode in [RAID_ACTIVITY_MODE, DUNGEON_ACTIVITY_MODE,
                 STRIKE_ACTIVITY_MODE, LOSTSECTOR_ACTIVITY_MODE] {
        assert!(has_tracked_mode(&[7, mode]));
    }
}

#[test]
fn valid_hash_recovers_after_missing_info_at_same_start_time() {
    let last = CurrentActivity {
        start_date: activity(20, "time").period,
        activity_hash: 0,
        activity_info: None,
    };
    let latest = LatestCharacterActivity {
        date_activity_started: last.start_date,
        current_activity_hash: 456,
    };
    assert!(should_refresh_current(&last, &latest, StatusFreshness::Unknown));
}

#[test]
fn missing_definition_can_recover_without_a_new_activity_timestamp() {
    let last = CurrentActivity {
        start_date: activity(20, "time").period,
        activity_hash: 456,
        activity_info: None,
    };
    let latest = LatestCharacterActivity {
        date_activity_started: last.start_date,
        current_activity_hash: 456,
    };
    assert!(should_refresh_current(&last, &latest, StatusFreshness::Unknown));
}

#[test]
fn current_guard_ignores_older_responses_and_unchanged_orbit() {
    let last = CurrentActivity {
        start_date: activity(20, "time").period,
        activity_hash: 0,
        activity_info: None,
    };
    let mut latest = LatestCharacterActivity {
        date_activity_started: last.start_date,
        current_activity_hash: 0,
    };
    assert!(!should_refresh_current(&last, &latest, StatusFreshness::Unknown));
    latest.current_activity_hash = 456;
    latest.date_activity_started = activity(10, "old").period;
    assert!(!should_refresh_current(&last, &latest, StatusFreshness::Unknown));
}

#[test]
fn same_dungeon_reentry_updates_timer_but_unchanged_run_does_not() {
    let last = CurrentActivity {
        start_date: activity(20, "time").period,
        activity_hash: 456,
        activity_info: Some(ActivityInfo {
            name: "Dungeon".to_string(),
            activity_modes: vec![DUNGEON_ACTIVITY_MODE],
            background_image: None,
        }),
    };
    let mut latest = LatestCharacterActivity {
        date_activity_started: last.start_date,
        current_activity_hash: 456,
    };
    assert!(!should_refresh_current(&last, &latest, StatusFreshness::Unknown));
    latest.date_activity_started = activity(30, "next").period;
    assert!(should_refresh_current(&last, &latest, StatusFreshness::Unknown));
}

#[test]
fn history_is_newest_first_then_by_instance_id() {
    let sorted = sort_history(vec![
        activity(10, "b"),
        activity(20, "z"),
        activity(10, "a"),
        activity(30, "m"),
    ]);
    let order: Vec<&str> = sorted.iter().map(|a| a.instance_id.as_str()).collect();
    assert_eq!(order, vec!["m", "z", "a", "b"]);
}

#[test]
fn equal_records_keep_their_arrival_order() {
    let mut first = activity(10, "same");
    first.completed = true;
    let second = activity(10, "same");
    let sorted = sort_history(vec![first.clone(), second.clone()]);
    assert_eq!(sorted, vec![first.clone(), second.clone()]);
    let reversed = sort_history(vec![second.clone(), first.clone()]);
    assert_eq!(reversed, vec![second, first]);
}

#[test]
fn instance_ids_compare_as_strings() {
    assert!(str_before("a", "b"));
    assert!(str_before("a", "ab"));
    assert!(!str_before("ab", "a"));
    assert!(!str_before("same", "same"));
    assert!(str_before("Z", "a"));
    assert!(str_before("é", "ê"));
    assert!(str_before("z", "é"));
}

#[test]
fn history_page_keeps_counted_entries_since_the_cutoff() {
    let cutoff = activity(15, "cut").period;
    let mut generic = activity(30, "generic");
    generic.modes = vec![7];
    generic.activity_hash = 999;
    let mut cached_generic = activity(25, "cached");
    cached_generic.modes = vec![];
    cached_generic.activity_hash = 555;
    let page = vec![activity(20, "new"), generic, cached_generic, activity(10, "old")];
    let mut cache = HashMap::new();
    cache.insert(555usize, vec![RAID_ACTIVITY_MODE]);
    let mut past = vec![activity(40, "earlier page")];
    let more = collect_history_page(&mut past, Some(page), cutoff, &cache);
    assert!(!more);
    let ids: Vec<&str> = past.iter().map(|a| a.instance_id.as_str()).collect();
    assert_eq!(ids, vec!["earlier page", "new", "cached"]);
    assert_eq!(past[2].modes, vec![RAID_ACTIVITY_MODE]);
}

#[test]
fn history_page_asks_for_more_until_the_cutoff_or_an_empty_page() {
    let cutoff = activity(0, "cut").period;
    let cache = HashMap::new();
    let mut past = vec![];
    assert!(collect_history_page(&mut past, Some(vec![activity(10, "a")]), cutoff, &cache));
    assert_eq!(past.len(), 1);
    assert!(!collect_history_page(&mut past, Some(vec![]), cutoff, &cache));
    assert!(!collect_history_page(&mut past, None, cutoff, &cache));
    assert_eq!(past.len(), 1);
}

fn character(seconds: i64, hash: usize) -> LatestCharacterActivity {
    LatestCharacterActivity { date_activity_started: activity(seconds, "t").period, current_activity_hash: hash }
}

#[test]
fn latest_activity_picks_the_last_started_character() {
    let (ids, latest) = latest_activity(Some(vec![
        ("hunter".to_string(), character(10, 1)),
        ("titan".to_string(), character(30, 2)),
        ("warlock".to_string(), character(30, 3)),
        ("extra".to_string(), character(20, 4)),
    ])).unwrap();
    assert_eq!(ids, vec!["hunter", "titan", "warlock", "extra"]);
    assert_eq!(latest, character(30, 3));
}

#[test]
fn latest_activity_reports_private_and_empty_profiles() {
    assert_eq!(latest_activity(None).unwrap_err(), CurrentActivityError::ProfilePrivate);
    assert_eq!(latest_activity(Some(vec![])).unwrap_err(), CurrentActivityError::NoCharacterData);
    assert_eq!(CurrentActivityError::ProfilePrivate.message(), "Profile is private");
    assert_eq!(CurrentActivityError::NoCharacterData.message(), "No character data for profile");
}

fn info(name: &str) -> ActivityInfo {
    ActivityInfo { name: name.to_string(), activity_modes: vec![RAID_ACTIVITY_MODE], background_image: None }
}

#[test]
fn refreshed_current_uses_only_named_definitions() {
    let latest = character(30, 42);
    let found = refreshed_current::<String>(latest, Some(DefinitionLookup::Found(info("Vault")))).unwrap();
    assert_eq!(found.activity_info, Some(info("Vault")));
    assert_eq!(found.activity_hash, 42);
    let nameless = refreshed_current::<String>(latest, Some(DefinitionLookup::Found(info("")))).unwrap();
    assert_eq!(nameless.activity_info, None);
    let missing = refreshed_current::<String>(latest, Some(DefinitionLookup::ResponseMissing)).unwrap();
    assert_eq!(missing.activity_info, None);
    let failed = refreshed_current(latest, Some(DefinitionLookup::Failed("down".to_string())));
    assert_eq!(failed, Err("down".to_string()));
    let orbit = refreshed_current::<String>(character(30, 0), None).unwrap();
    assert_eq!(orbit, CurrentActivity { start_date: character(30, 0).date_activity_started, activity_hash: 0, activity_info: None });
}

fn data() -> PlayerData {
    PlayerData {
        current_activity: CurrentActivity { start_date: Timestamp::from_secs(0), activity_hash: 0, activity_info: None },
        activity_history: vec![],
        profile_info: ProfileInfo { privacy: 1, display_name: "Guardian".to_string(), display_tag: 1234, character_ids: vec![] },
    }
}

#[test]
fn status_reports_changes_errors_and_recovery() {
    let mut status = PlayerDataStatus::default();
    status.record_error("offline".to_string());
    assert_eq!(status.error.as_deref(), Some("offline"));
    status.complete(data());
    assert_eq!(status.error, None);
    assert!(!status.apply_current_poll(Ok(None)));
    assert!(status.apply_current_poll(Err("timeout".to_string())));
    assert_eq!(status.error.as_deref(), Some("timeout"));
    // Recovery is sent even without a change.
    assert!(status.apply_current_poll(Ok(None)));
    assert_eq!(status.error, None);
    let current = CurrentActivity { start_date: Timestamp::from_secs(100), activity_hash: 5, activity_info: None };
    assert!(status.apply_current_poll(Ok(Some(current.clone()))));
    assert_eq!(status.last_update.as_ref().unwrap().current_activity, current);
    assert!(!status.apply_history_poll(Ok(None)));
    assert!(status.apply_history_poll(Err("history".to_string())));
    // A history success keeps the error of the last poll.
    assert!(status.apply_history_poll(Ok(Some(vec![activity(1, "x")]))));
    assert_eq!(status.error.as_deref(), Some("history"));
    assert_eq!(status.last_update.as_ref().unwrap().activity_history, vec![activity(1, "x")]);
    assert_eq!(status.last_update.as_ref().unwrap().current_activity, current);
}

fn at(rfc3339: &str) -> Timestamp {
    let t = DateTime::parse_from_rfc3339(rfc3339).unwrap().with_timezone(&Utc);
    Timestamp::new(t.timestamp(), t.timestamp_subsec_nanos())
}

#[test]
fn fresher_status_reports_orbit_at_the_epoch() {
    let last = CurrentActivity {
        start_date: at("2026-09-17T00:01:10Z"),
        activity_hash: 123,
        activity_info: Some(ActivityInfo {
            name: "Dungeon".to_string(),
            activity_modes: vec![DUNGEON_ACTIVITY_MODE],
            background_image: None,
        }),
    };
    let orbit = LatestCharacterActivity { date_activity_started: at("1970-01-01T00:00:00Z"), current_activity_hash: 0 };
    let now = at("2026-09-17T00:05:00Z");
    let watermark = Some(at("2026-09-17T00:01:30Z"));
    let freshness = status_freshness(Some(at("2026-09-17T00:02:00Z")), watermark, now);
    assert_eq!(freshness, StatusFreshness::Newer);
    assert!(should_refresh_current(&last, &orbit, freshness));
    let current = refreshed_current::<String>(orbit, None).unwrap();
    assert_eq!(current.activity_hash, 0);
    assert_eq!(current.activity_info, None);
    // Without freshness information the earlier start is still refused.
    assert!(!should_refresh_current(&last, &orbit, StatusFreshness::Unknown));
}

#[test]
fn older_status_never_changes_what_is_shown() {
    let last = CurrentActivity { start_date: at("2026-09-17T00:01:10Z"), activity_hash: 123, activity_info: None };
    let later = LatestCharacterActivity { date_activity_started: at("2026-09-17T00:03:00Z"), current_activity_hash: 456 };
    let now = at("2026-09-17T00:05:00Z");
    let watermark = Some(at("2026-09-17T00:02:00Z"));
    let freshness = status_freshness(Some(at("2026-09-17T00:01:00Z")), watermark, now);
    assert_eq!(freshness, StatusFreshness::Older);
    assert!(!should_refresh_current(&last, &later, freshness));
    assert!(should_refresh_current(&last, &later, StatusFreshness::Unknown));
}

#[test]
fn newer_status_with_the_same_activity_and_start_changes_nothing() {
    let last = CurrentActivity { start_date: at("2026-09-17T00:01:10Z"), activity_hash: 0, activity_info: None };
    let same = LatestCharacterActivity { date_activity_started: at("2026-09-17T00:01:10Z"), current_activity_hash: 0 };
    assert!(!should_refresh_current(&last, &same, StatusFreshness::Newer));
}

#[test]
fn freshness_uses_only_usable_generation_times() {
    let now = at("2026-09-17T00:05:00Z");
    let w = Some(at("2026-09-17T00:02:00Z"));
    assert_eq!(status_freshness(None, w, now), StatusFreshness::Unknown);
    assert_eq!(status_freshness(Some(at("2026-09-17T00:06:00Z")), w, now), StatusFreshness::Unknown);
    assert_eq!(status_freshness(Some(at("1970-01-01T00:00:00Z")), w, now), StatusFreshness::Unknown);
    assert_eq!(status_freshness(w, w, now), StatusFreshness::Unknown);
    assert_eq!(status_freshness(Some(at("2026-09-17T00:01:00Z")), None, now), StatusFreshness::Newer);
    assert_eq!(next_watermark(Some(at("2026-09-17T00:03:00Z")), w, now), Some(at("2026-09-17T00:03:00Z")));
    assert_eq!(next_watermark(Some(at("2026-09-17T00:01:00Z")), w, now), w);
    assert_eq!(next_watermark(None, w, now), w);
}
