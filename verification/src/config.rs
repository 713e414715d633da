//! Settings rules: where the settings live, which providers a configuration
//! turns on and in what order, and how a legacy configuration's fields are
//! carried over.
use vstd::prelude::*;
use crate::fs::{join_path, join_path_of};
use crate::library::{parse_u32, parse_u32_of};
use crate::providers::ProviderName;
use crate::text::{chars_of, find_from, find_char, lemma_find_from_bounds, is_blank, slice_of, string_of, trim, trim_of};

verus! {

/// The settings file in the app's data directory.
pub fn settings_path(data_dir: &str) -> (r: String)
    ensures
        r@ == join_path(data_dir@, "settings.json"@),
{
    string_of(&join_path_of(&chars_of(data_dir), &chars_of("settings.json")))
}

/// The configuration file of earlier releases, in their data directory.
pub fn legacy_settings_path(legacy_dir: Option<&str>) -> (r: Option<String>)
    ensures
        match legacy_dir {
            Some(d) => r is Some && r->0@ == join_path(d@, "config.json"@),
            None => r is None,
        },
{
    match legacy_dir {
        Some(d) => Some(string_of(&join_path_of(&chars_of(d), &chars_of("config.json")))),
        None => None,
    }
}

/// Which providers a configuration has switched on.
#[derive(Debug, Clone, Copy, PartialEq, Eq, Structural)]
pub struct ProviderToggles {
    pub lrclib: bool,
    pub musixmatch: bool,
    pub netease: bool,
    pub megalobiz: bool,
    pub genius: bool,
}

/// A configuration with every secondary provider off comes from builds
/// before the toggles existed: those providers need no setup, so they are
/// switched on. Any other configuration is kept as it is.
pub open spec fn migrated(t: ProviderToggles) -> ProviderToggles {
    if !t.musixmatch && !t.netease && !t.megalobiz && !t.genius {
        ProviderToggles { musixmatch: true, netease: true, megalobiz: true, genius: true, ..t }
    } else {
        t
    }
}

pub fn migrate_provider_toggles(t: ProviderToggles) -> (r: ProviderToggles)
    ensures
        r == migrated(t),
{
    if !t.musixmatch && !t.netease && !t.megalobiz && !t.genius {
        ProviderToggles { musixmatch: true, netease: true, megalobiz: true, genius: true, ..t }
    } else {
        t
    }
}

/// Migrating twice changes nothing more than migrating once, and LRCLib's
/// switch is never touched.
pub proof fn migration_is_idempotent(t: ProviderToggles)
    ensures
        migrated(migrated(t)) == migrated(t),
        migrated(t).lrclib == t.lrclib,
{
}

/// The switched-on providers, in the order they are asked.
pub open spec fn enabled_list(t: ProviderToggles) -> Seq<ProviderName> {
    (if t.lrclib { seq![ProviderName::Lrclib] } else { Seq::empty() }) + (if t.musixmatch {
        seq![ProviderName::Musixmatch]
    } else {
        Seq::empty()
    }) + (if t.netease { seq![ProviderName::Netease] } else { Seq::empty() }) + (if t.megalobiz {
        seq![ProviderName::Megalobiz]
    } else {
        Seq::empty()
    }) + (if t.genius { seq![ProviderName::Genius] } else { Seq::empty() })
}

/// The providers a download asks, in priority order: LRCLib, Musixmatch,
/// NetEase, Megalobiz, Genius, each only when switched on.
pub fn enabled_providers(t: &ProviderToggles) -> (r: Vec<ProviderName>)
    ensures
        r@ == enabled_list(*t),
{
    let mut r: Vec<ProviderName> = Vec::new();
    if t.lrclib {
        r.push(ProviderName::Lrclib);
    }
    if t.musixmatch {
        r.push(ProviderName::Musixmatch);
    }
    if t.netease {
        r.push(ProviderName::Netease);
    }
    if t.megalobiz {
        r.push(ProviderName::Megalobiz);
    }
    if t.genius {
        r.push(ProviderName::Genius);
    }
    assert(r@ =~= enabled_list(*t));
    r
}

/// How long cached lyrics stay fresh, in seconds, for a setting in days.
pub fn retry_ttl_seconds(retry_days: u32) -> (r: u64)
    ensures
        r == retry_days as nat * 86400,
{
    retry_days as u64 * 86400
}

/// The cache period choice (0: a week, 1: two weeks, 2: a month, 3:
/// longer) that a number of retry days falls in.
pub open spec fn period_index(retry_days: u32) -> i32 {
    if retry_days <= 7 {
        0
    } else if retry_days <= 14 {
        1
    } else if retry_days <= 30 {
        2
    } else {
        3
    }
}

pub fn cache_period_index(retry_days: u32) -> (r: i32)
    ensures
        r == period_index(retry_days),
{
    if retry_days <= 7 {
        0
    } else if retry_days <= 14 {
        1
    } else if retry_days <= 30 {
        2
    } else {
        3
    }
}

/// The retry days of a cache period choice; any other choice means 0
/// days.
pub open spec fn period_days(index: i32) -> u32 {
    if index == 0 {
        7
    } else if index == 1 {
        14
    } else if index == 2 {
        30
    } else {
        0
    }
}

pub fn retry_days_for_period(index: i32) -> (r: u32)
    ensures
        r == period_days(index),
{
    if index == 0 {
        7
    } else if index == 1 {
        14
    } else if index == 2 {
        30
    } else {
        0
    }
}

/// Choosing a week, two weeks or a month and showing the settings again
/// shows the same choice.
pub proof fn cache_periods_round_trip(index: i32)
    requires
        0 <= index <= 2,
    ensures
        period_index(period_days(index)) == index,
{
}

/// A key or token carried over from a legacy configuration: trimmed, and
/// only when something is left.
pub open spec fn carried_credential(value: Option<Seq<char>>) -> Option<Seq<char>> {
    match value {
        Some(v) => if trim(v).len() > 0 {
            Some(trim(v))
        } else {
            None
        },
        None => None,
    }
}

pub fn legacy_credential(value: Option<&str>) -> (r: Option<String>)
    ensures
        match carried_credential(
            match value {
                Some(v) => Some(v@),
                None => None,
            },
        ) {
            Some(c) => r is Some && r->0@ == c,
            None => r is None,
        },
{
    match value {
        Some(v) => {
            let t = trim_of(&chars_of(v));
            if t.len() > 0 {
                Some(string_of(&t))
            } else {
                None
            }
        },
        None => None,
    }
}

/// Whether a credential is kept in the store (a blank one is deleted).
pub fn credential_is_stored(value: &str) -> (r: bool)
    ensures
        r == (trim(value@).len() > 0),
{
    !is_blank(&chars_of(value))
}

/// The window size a legacy `<width>x<height>` geometry gives, when both
/// read as numbers and the window is at least 400 by 300.
pub open spec fn legacy_size(geometry: Seq<char>) -> Option<(u32, u32)> {
    let x = find_from(geometry, 'x', 0);
    if x >= geometry.len() {
        None
    } else {
        match (parse_u32(geometry.subrange(0, x)), parse_u32(geometry.subrange(x + 1, geometry.len() as int))) {
            (Some(w), Some(h)) => if w >= 400 && h >= 300 {
                Some((w, h))
            } else {
                None
            },
            _ => None,
        }
    }
}

pub fn legacy_window_size(geometry: &str) -> (r: Option<(u32, u32)>)
    ensures
        r == legacy_size(geometry@),
{
    let g = chars_of(geometry);
    let x = find_char(&g, 'x', 0);
    proof {
        lemma_find_from_bounds(g@, 'x', 0);
    }
    if x >= g.len() {
        return None;
    }
    let w = parse_u32_of(&slice_of(&g, 0, x));
    let h = parse_u32_of(&slice_of(&g, x + 1, g.len()));
    match (w, h) {
        (Some(w), Some(h)) => if w >= 400 && h >= 300 {
            Some((w, h))
        } else {
            None
        },
        _ => None,
    }
}

} // verus!
