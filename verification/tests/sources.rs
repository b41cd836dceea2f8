use std::collections::HashMap;
use threepole::modes::{DUNGEON_ACTIVITY_HASH, DUNGEON_ACTIVITY_MODE, RAID_ACTIVITY_HASH, RAID_ACTIVITY_MODE, STRIKE_ACTIVITY_MODE};
use threepole::preferences::Preferences;
use threepole::responses::{ActivityInfo, ProfileInfo};
use threepole::sources::{ActivityInfoSource, ActivityModeCache, Profile, ProfileInfoSource};
use threepole::time::{daily_reset_cutoff, valid_time, Timestamp};

fn profile(id: &str) -> Profile {
    Profile { account_id: id.to_string(), account_platform: 3 }
}

fn info(name: &str, characters: &[&str]) -> ProfileInfo {
    ProfileInfo {
        privacy: 1,
        display_name: name.to_string(),
        display_tag: 42,
        character_ids: characters.iter().map(|c| c.to_string()).collect(),
    }
}

#[test]
fn set_characters_updates_only_cached_profiles() {
    let mut source = ProfileInfoSource::new();
    source.set_characters(&profile("a"), vec!["x".to_string()]);
    assert_eq!(source.cached(&profile("a")), None);
    source.store(profile("a"), info("Alpha", &["1", "2"]));
    source.store(profile("b"), info("Beta", &["3"]));
    source.set_characters(&profile("a"), vec!["9".to_string()]);
    assert_eq!(source.cached(&profile("a")), Some(info("Alpha", &["9"])));
    assert_eq!(source.cached(&profile("b")), Some(info("Beta", &["3"])));
    let other_platform = Profile { account_id: "a".to_string(), account_platform: 2 };
    assert_eq!(source.cached(&other_platform), None);
}

#[test]
fn storing_a_profile_again_replaces_it() {
    let mut source = ProfileInfoSource::new();
    source.store(profile("a"), info("Alpha", &["1"]));
    source.store(profile("a"), info("Renamed", &["1"]));
    assert_eq!(source.cached(&profile("a")), Some(info("Renamed", &["1"])));
}

#[test]
fn mode_cache_records_only_new_raid_and_dungeon_modes() {
    let mut cache = ActivityModeCache::new(HashMap::new());
    assert!(!cache.record_raid_or_dungeon(1, &[STRIKE_ACTIVITY_MODE, 7]));
    assert!(cache.modes.is_empty());
    assert!(cache.record_raid_or_dungeon(1, &[7, DUNGEON_ACTIVITY_MODE, STRIKE_ACTIVITY_MODE]));
    assert_eq!(cache.modes.get(&1), Some(&vec![DUNGEON_ACTIVITY_MODE]));
    assert!(!cache.record_raid_or_dungeon(1, &[DUNGEON_ACTIVITY_MODE]));
    assert!(cache.record_raid_or_dungeon(1, &[RAID_ACTIVITY_MODE, DUNGEON_ACTIVITY_MODE]));
    assert_eq!(cache.modes.get(&1), Some(&vec![RAID_ACTIVITY_MODE, DUNGEON_ACTIVITY_MODE]));
}

#[test]
fn activity_source_caches_definitions_and_modes() {
    let mut source = ActivityInfoSource::new(ActivityModeCache::new(HashMap::new()));
    assert_eq!(source.cached(7), None);
    let raid = ActivityInfo { name: "Vault".to_string(), activity_modes: vec![RAID_ACTIVITY_MODE, 7], background_image: Some("img".to_string()) };
    assert!(source.store(7, raid.clone()));
    assert_eq!(source.cached(7), Some(raid.clone()));
    assert!(!source.store(7, raid));
    let snapshot = source.cached_modes_snapshot();
    assert_eq!(snapshot.get(&7), Some(&vec![RAID_ACTIVITY_MODE]));
    assert_eq!(source.mode_cache().modes, snapshot);
    let patrol = ActivityInfo { name: "Patrol".to_string(), activity_modes: vec![6], background_image: None };
    assert!(!source.store(8, patrol));
    assert_eq!(source.cached_modes_snapshot().len(), 1);
}

#[test]
fn definitions_gain_the_mode_of_their_type() {
    let dungeon = ActivityInfo::from_definition("Spire".to_string(), None, DUNGEON_ACTIVITY_HASH, None);
    assert_eq!(dungeon.activity_modes, vec![DUNGEON_ACTIVITY_MODE]);
    let listed = ActivityInfo::from_definition("Vault".to_string(), Some(vec![RAID_ACTIVITY_MODE, 7]), RAID_ACTIVITY_HASH, Some("p".to_string()));
    assert_eq!(listed.activity_modes, vec![RAID_ACTIVITY_MODE, 7]);
    assert_eq!(listed.background_image.as_deref(), Some("p"));
    let extra = ActivityInfo::from_definition("Doctrine".to_string(), Some(vec![7]), DUNGEON_ACTIVITY_HASH, None);
    assert_eq!(extra.activity_modes, vec![7, DUNGEON_ACTIVITY_MODE]);
    let other = ActivityInfo::from_definition("Patrol".to_string(), Some(vec![6]), 1, None);
    assert_eq!(other.activity_modes, vec![6]);
    assert_eq!(other.name, "Patrol");
}

#[test]
fn daily_cutoff_is_the_last_five_pm_utc() {
    // 2026-09-17T18:30:00Z: the reset of the same day.
    let evening = Timestamp::new(1789603200 + 18 * 3600 + 1800, 5);
    assert_eq!(daily_reset_cutoff(evening), Some(Timestamp::from_secs(1789603200 + 17 * 3600)));
    // 2026-09-17T09:00:00Z: the reset of the day before.
    let morning = Timestamp::from_secs(1789603200 + 9 * 3600);
    assert_eq!(daily_reset_cutoff(morning), Some(Timestamp::from_secs(1789603200 - 7 * 3600)));
    // Exactly at the reset.
    let at_reset = Timestamp::from_secs(1789603200 + 17 * 3600);
    assert_eq!(daily_reset_cutoff(at_reset), Some(at_reset));
    // Before the epoch.
    assert_eq!(daily_reset_cutoff(Timestamp::from_secs(-3600)), Some(Timestamp::from_secs(-86400 + 17 * 3600)));
    assert_eq!(daily_reset_cutoff(Timestamp::from_secs(i64::MIN)), None);
}

#[test]
fn times_are_valid_only_after_the_epoch_and_not_in_the_future() {
    let now = Timestamp::from_secs(1000);
    assert!(valid_time(Timestamp::from_secs(1000), now));
    assert!(!valid_time(Timestamp::new(1000, 1), now));
    assert!(!valid_time(Timestamp::from_secs(0), now));
    assert!(valid_time(Timestamp::from_secs(1), now));
    assert!(Timestamp::new(5, 1).is_before(&Timestamp::new(5, 2)));
    assert_eq!(Timestamp::new(5, 1).max(Timestamp::new(4, 9)), Timestamp::new(5, 1));
    assert_eq!(Timestamp::new(5, 1).timestamp(), 5);
}

#[test]
fn default_preferences_show_everything_but_the_overlay() {
    let p = Preferences::default();
    assert!(!p.enable_overlay);
    assert!(p.display_daily_clears && p.display_clear_notifications && p.display_milliseconds);
    assert!(p.display_timer && p.display_activity_name && p.auto_hide_activity_name);
    assert_eq!(p.activity_name_hide_delay_seconds, 10);
    assert_eq!(Preferences::get_filename(), "preferences.json");
}
