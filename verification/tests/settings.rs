use lyrics_core::fs::join_path_of;
use lyrics_core::config::{
    cache_period_index, credential_is_stored, retry_days_for_period, enabled_providers, legacy_credential, legacy_settings_path, legacy_window_size,
    migrate_provider_toggles, retry_ttl_seconds, settings_path, ProviderToggles,
};
use lyrics_core::providers::ProviderName;

#[test]
fn migrates_legacy_secondary_disabled_config() {
    let loaded = ProviderToggles { lrclib: true, musixmatch: false, netease: false, megalobiz: false, genius: false };
    let migrated = migrate_provider_toggles(loaded);
    assert!(migrated.musixmatch);
    assert!(migrated.netease);
    assert!(migrated.megalobiz);
    assert!(migrated.genius);
    assert!(migrated.lrclib);
}

#[test]
fn a_configuration_with_a_secondary_provider_on_is_kept() {
    let t = ProviderToggles { lrclib: false, musixmatch: false, netease: true, megalobiz: false, genius: false };
    assert_eq!(migrate_provider_toggles(t), t);
}

#[test]
fn providers_are_asked_in_priority_order() {
    let all = ProviderToggles { lrclib: true, musixmatch: true, netease: true, megalobiz: true, genius: true };
    assert_eq!(enabled_providers(&all), ProviderName::all());
    let some = ProviderToggles { lrclib: false, musixmatch: true, netease: false, megalobiz: false, genius: true };
    assert_eq!(enabled_providers(&some), vec![ProviderName::Musixmatch, ProviderName::Genius]);
}

#[test]
fn legacy_fields_are_carried_over() {
    assert_eq!(legacy_credential(Some("  mx_secret_123 ")), Some("mx_secret_123".to_string()));
    assert_eq!(legacy_credential(Some("   ")), None);
    assert_eq!(legacy_credential(None), None);
    assert_eq!(legacy_window_size("1600x900"), Some((1600, 900)));
    assert_eq!(legacy_window_size("300x900"), None);
    assert_eq!(legacy_window_size("1600 x 900"), None);
    assert_eq!(legacy_window_size("1600"), None);
    assert_eq!(retry_ttl_seconds(14), 14 * 86_400);
    assert!(credential_is_stored("k"));
    assert!(!credential_is_stored(" "));
}

#[test]
fn settings_files_are_in_the_data_directories() {
    assert_eq!(settings_path("/home/u/.local/share/synced-lyrics"), "/home/u/.local/share/synced-lyrics/settings.json");
    assert_eq!(legacy_settings_path(Some("/home/u/.SyncedLyricsGUI")), Some("/home/u/.SyncedLyricsGUI/config.json".to_string()));
    assert_eq!(legacy_settings_path(None), None);
}

#[test]
fn migrating_twice_is_migrating_once() {
    let off = ProviderToggles { lrclib: false, musixmatch: false, netease: false, megalobiz: false, genius: false };
    let once = migrate_provider_toggles(off);
    assert_eq!(migrate_provider_toggles(once), once);
    assert!(!once.lrclib);
}

#[test]
fn cache_periods_map_to_days_and_back() {
    assert_eq!(cache_period_index(0), 0);
    assert_eq!(cache_period_index(7), 0);
    assert_eq!(cache_period_index(8), 1);
    assert_eq!(cache_period_index(14), 1);
    assert_eq!(cache_period_index(30), 2);
    assert_eq!(cache_period_index(31), 3);
    for index in 0..3 {
        assert_eq!(cache_period_index(retry_days_for_period(index)), index);
    }
    // The last choice means no caching, which shows as the first.
    assert_eq!(retry_days_for_period(3), 0);
    assert_eq!(cache_period_index(retry_days_for_period(3)), 0);
}

#[test]
fn paths_join_as_path_join_does() {
    let join = |dir: &str, name: &str| -> String {
        let d: Vec<char> = dir.chars().collect();
        let n: Vec<char> = name.chars().collect();
        join_path_of(&d, &n).into_iter().collect()
    };
    assert_eq!(join("/data", "covers"), "/data/covers");
    assert_eq!(join("/data/", "covers"), "/data/covers");
    assert_eq!(join("", "covers"), "covers");
    assert_eq!(join("/data", "/etc/x"), "/etc/x");
}
