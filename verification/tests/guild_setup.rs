use countlogger::data::GuildData;
use countlogger::date::Date;
use countlogger::setup::{ResetOutcome, SetupError, SetupInfo};
use countlogger::sync::should_auto_sync;

// 2024-05-10T12:00:00Z
const NOON: i64 = 1_715_342_400;

#[test]
fn a_new_guild() {
    let g = GuildData::default();
    assert!(!g.is_setup);
    assert_eq!(g.settings.utc, 0);
    assert_eq!(g.settings.lang, "en");
    assert_eq!(g.settings.lang2, None);
    assert!(g.settings.auto_relog);
    assert_eq!(g.ids.log_channel_id, None);
    assert_eq!(g.ids.counting_channel_id, None);
    assert_eq!(g.ids.last_scanned_msg_id, None);
    assert_eq!(g.ids.log_helper_msg_id, None);
    assert_eq!(g.ids.log_msg_map.len(), 0);
    assert_eq!(g.daily_counts.len(), 0);
    assert!(g.is_default_setup());
}

#[test]
fn default_setup_looks_at_offset_and_channels() {
    let mut g = GuildData::default();
    g.settings.lang = "jp".to_string();
    g.is_setup = true;
    assert!(g.is_default_setup());
    g.settings.utc = 1;
    assert!(!g.is_default_setup());
    g.settings.utc = 0;
    g.ids.log_channel_id = Some(1);
    assert!(!g.is_default_setup());
    g.ids.log_channel_id = None;
    g.ids.counting_channel_id = Some(1);
    assert!(!g.is_default_setup());
}

#[test]
fn channels_are_set_together() {
    let mut g = GuildData::default();
    assert_eq!(g.set_channels(Some(1), None), Err(SetupError::MissingChannel));
    assert_eq!(g.set_channels(None, Some(1)), Err(SetupError::MissingChannel));
    assert_eq!(g.set_channels(None, None), Err(SetupError::MissingChannel));
    assert_eq!(g.set_channels(Some(5), Some(5)), Err(SetupError::SameChannel));
    assert!(!g.is_setup);
    assert_eq!(g.ids.log_channel_id, None);
    assert_eq!(g.set_channels(Some(5), Some(6)), Ok(()));
    assert!(g.is_setup);
    assert_eq!(g.ids.log_channel_id, Some(5));
    assert_eq!(g.ids.counting_channel_id, Some(6));
}

#[test]
fn the_offset_is_clamped() {
    let mut g = GuildData::default();
    assert_eq!(g.set_timezone(None), Err(SetupError::MissingUtc));
    assert_eq!(g.set_timezone(Some(9)), Ok(9));
    assert_eq!(g.settings.utc, 9);
    assert_eq!(g.set_timezone(Some(-12)), Ok(-12));
    assert_eq!(g.set_timezone(Some(-13)), Ok(-12));
    assert_eq!(g.set_timezone(Some(14)), Ok(14));
    assert_eq!(g.set_timezone(Some(15)), Ok(14));
    assert_eq!(g.set_timezone(Some(i64::MAX)), Ok(14));
    assert_eq!(g.set_timezone(Some(i64::MIN)), Ok(-12));
    assert_eq!(g.settings.utc, -12);
}

#[test]
fn languages_are_among_those_on_offer() {
    let mut g = GuildData::default();
    assert_eq!(g.set_language(None, Some("en")), Err(SetupError::MissingLanguage));
    assert_eq!(g.set_language(Some("de"), None), Err(SetupError::UnknownLanguage));
    assert_eq!(g.set_language(Some("jp"), Some("fr")), Err(SetupError::UnknownLanguage));
    assert_eq!(g.settings.lang, "en");
    assert_eq!(g.set_language(Some("jp"), Some("en")), Ok(()));
    assert_eq!(g.settings.lang, "jp");
    assert_eq!(g.settings.lang2, Some("en".to_string()));
    assert_eq!(g.set_language(Some("en"), None), Ok(()));
    assert_eq!(g.settings.lang, "en");
    assert_eq!(g.settings.lang2, None);
}

#[test]
fn toggling_the_periodic_sync() {
    let mut g = GuildData::default();
    assert!(!should_auto_sync(&g));
    assert_eq!(g.set_channels(Some(5), Some(6)), Ok(()));
    assert!(should_auto_sync(&g));
    assert!(!g.toggle_auto_relog());
    assert!(!g.settings.auto_relog);
    assert!(!should_auto_sync(&g));
    assert!(g.toggle_auto_relog());
    assert!(should_auto_sync(&g));
    g.ids.log_channel_id = None;
    assert!(!should_auto_sync(&g));
}

#[test]
fn resetting_a_guild() {
    let mut g = GuildData::default();
    assert_eq!(g.reset(), ResetOutcome::NotSetUp);
    g.is_setup = true;
    assert_eq!(g.reset(), ResetOutcome::Unchanged);
    assert!(g.is_setup);
    assert_eq!(g.set_channels(Some(5), Some(6)), Ok(()));
    g.settings.lang = "jp".to_string();
    g.daily_counts.insert(Date::new(2024, 1, 1), 5);
    g.ids.last_scanned_msg_id = Some(44);
    assert_eq!(g.reset(), ResetOutcome::Reset);
    assert!(!g.is_setup);
    assert_eq!(g.ids.log_channel_id, None);
    assert_eq!(g.ids.last_scanned_msg_id, None);
    assert_eq!(g.settings.lang, "en");
    assert_eq!(g.daily_counts.len(), 0);
}

#[test]
fn showing_the_setup() {
    let mut g = GuildData::default();
    assert!(matches!(g.setup_info(), SetupInfo::NotSetUp));
    g.is_setup = true;
    assert!(matches!(g.setup_info(), SetupInfo::MissingChannels));
    assert_eq!(g.set_channels(Some(111), Some(222)), Ok(()));
    assert_eq!(g.set_timezone(Some(-4)), Ok(-4));
    match g.setup_info() {
        SetupInfo::Info(text) => assert_eq!(
            text,
            "`UTC -4`\n`lang`: en\n`lang2`: (none)\n`log_channel`: <#111>\n`counting_channel`: <#222>"
        ),
        _ => panic!("the guild is set up"),
    }
    assert_eq!(g.set_language(Some("en"), Some("jp")), Ok(()));
    match g.setup_info() {
        SetupInfo::Info(text) => assert!(text.contains("`lang2`: jp\n")),
        _ => panic!("the guild is set up"),
    }
}

#[test]
fn a_live_count_keeps_the_maximum_of_the_day() {
    let mut g = GuildData::default();
    assert!(!g.record_live_count("5", NOON));
    assert_eq!(g.set_channels(Some(5), Some(6)), Ok(()));
    assert!(g.record_live_count("5", NOON));
    assert!(!g.record_live_count("five", NOON));
    // a lower count later on the day does not replace the stored one
    assert!(g.record_live_count("3", NOON + 60));
    assert_eq!(g.daily_counts.get(&Date::new(2024, 5, 10)), Some(&5));
    assert!(g.record_live_count("6", NOON + 120));
    assert_eq!(g.daily_counts.get(&Date::new(2024, 5, 10)), Some(&6));
    assert!(g.record_live_count("6", NOON + 180));
    assert_eq!(g.daily_counts.get(&Date::new(2024, 5, 10)), Some(&6));
    assert_eq!(g.set_timezone(Some(14)), Ok(14));
    assert!(g.record_live_count("4", NOON));
    assert_eq!(g.daily_counts.get(&Date::new(2024, 5, 11)), Some(&4));
    assert_eq!(g.daily_counts.get(&Date::new(2024, 5, 10)), Some(&6));
    assert_eq!(g.daily_counts.len(), 2);
}
