//! The state that is kept for each guild.

use crate::counts::DailyCounts;
use crate::sorted_map::SortedMap;
use std::collections::{BTreeMap, HashMap};
use vstd::prelude::*;
use vstd::string::StringExecFns;

verus! {

/// The message ids of the published pages of one year, by page number.
pub type PageIds = BTreeMap<i64, u64>;

/// The published pages of every year.
pub type ReportIndex = BTreeMap<i32, PageIds>;

/// What a guild has chosen: its offset from UTC in hours, the language of
/// its reports, an optional second language, and whether it is synchronised
/// on the periodic tick.
#[derive(Clone, Debug)]
pub struct GuildSettings {
    pub utc: i8,
    pub lang: String,
    pub lang2: Option<String>,
    pub auto_relog: bool,
}

impl Default for GuildSettings {
    fn default() -> (s: Self)
        ensures
            s.utc == 0,
            s.lang@ == "en"@,
            s.lang2 is None,
            s.auto_relog,
    {
        GuildSettings { utc: 0, lang: String::from_str("en"), lang2: None, auto_relog: true }
    }
}

/// The channels of a guild, the cursor of its last scan, and the messages
/// that hold its published report pages.
#[derive(Clone, Debug)]
pub struct IDs {
    pub log_channel_id: Option<u64>,
    pub counting_channel_id: Option<u64>,
    pub log_msg_map: ReportIndex,
    pub last_scanned_msg_id: Option<u64>,
    pub log_helper_msg_id: Option<u64>,
}

impl Default for IDs {
    fn default() -> (ids: Self)
        ensures
            ids.log_channel_id is None,
            ids.counting_channel_id is None,
            ids.log_msg_map@ == Map::<i32, PageIds>::empty(),
            ids.last_scanned_msg_id is None,
            ids.log_helper_msg_id is None,
    {
        IDs {
            log_channel_id: None,
            counting_channel_id: None,
            log_msg_map: BTreeMap::new(),
            last_scanned_msg_id: None,
            log_helper_msg_id: None,
        }
    }
}

/// The synchronisation state of one guild.
#[derive(Clone, Debug)]
pub struct GuildData {
    pub is_setup: bool,
    pub settings: GuildSettings,
    pub ids: IDs,
    pub daily_counts: DailyCounts,
}

impl Default for GuildData {
    fn default() -> (g: Self)
        ensures
            g.wf(),
            !g.is_setup,
            g.settings.utc == 0,
            g.settings.lang@ == "en"@,
            g.settings.lang2 is None,
            g.settings.auto_relog,
            g.ids.log_channel_id is None,
            g.ids.counting_channel_id is None,
            g.ids.log_msg_map@ == Map::<i32, PageIds>::empty(),
            g.ids.last_scanned_msg_id is None,
            g.ids.log_helper_msg_id is None,
            g.daily_counts@ == Map::<crate::date::Date, i64>::empty(),
    {
        GuildData {
            is_setup: false,
            settings: GuildSettings::default(),
            ids: IDs::default(),
            daily_counts: SortedMap::new(),
        }
    }
}

impl GuildData {
    /// The invariant of the type: the daily counts are in the order of
    /// their dates.
    pub open spec fn wf(self) -> bool {
        self.daily_counts.wf()
    }

    /// Whether the invariant of the type holds.
    pub fn is_well_formed(&self) -> (b: bool)
        ensures
            b == self.wf(),
    {
        self.daily_counts.is_ordered()
    }

    /// Whether the offset and both channels are as a new guild has them.
    pub fn is_default_setup(&self) -> (b: bool)
        ensures
            b == (self.settings.utc == 0 && self.ids.log_channel_id is None
                && self.ids.counting_channel_id is None),
    {
        self.settings.utc == 0 && self.ids.log_channel_id.is_none()
            && self.ids.counting_channel_id.is_none()
    }
}

/// The state of every guild, by guild id.
#[derive(Clone, Debug)]
pub struct AllGuildData(pub HashMap<u64, GuildData>);

} // verus!
