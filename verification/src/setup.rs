//! Changing what a guild has set up: its channels, its offset from UTC, its
//! languages, and whether it is synchronised on the periodic tick.

use crate::counts::{max_merge, merge_max};
use crate::data::{GuildData, PageIds};
use crate::date::{local_date, local_date_of, Date, MAX_UTC_OFFSET, MIN_UTC_OFFSET};
use crate::parse::{parse_count, parse_count_spec};
use crate::render::{get_utc_format, utc_format};
use crate::text::{decimal_nat, push_decimal_nat};
use vstd::prelude::*;
use vstd::string::StringExecFns;

verus! {

/// Why a change was refused.
#[derive(Clone, Copy, Debug, PartialEq, Eq, Structural)]
pub enum SetupError {
    /// The log channel and the counting channel are to be set together.
    MissingChannel,
    /// The log channel and the counting channel cannot be one channel.
    SameChannel,
    /// No offset was given.
    MissingUtc,
    /// No language was given.
    MissingLanguage,
    /// A language is not among those on offer.
    UnknownLanguage,
}

/// What a reset did.
#[derive(Clone, Copy, Debug, PartialEq, Eq, Structural)]
pub enum ResetOutcome {
    /// The guild had not been set up: nothing to reset.
    NotSetUp,
    /// The state of the guild was replaced by that of a new guild.
    Reset,
    /// The guild was as a new guild has it already: nothing changed.
    Unchanged,
}

/// Whether a language is on offer.
pub open spec fn is_known_language(lang: Seq<char>) -> bool {
    lang == "en"@ || lang == "jp"@
}

/// An offset within the range that a guild can be configured with.
pub open spec fn clamp_offset(utc: i64) -> i8 {
    if utc < MIN_UTC_OFFSET {
        MIN_UTC_OFFSET
    } else if utc > MAX_UTC_OFFSET {
        MAX_UTC_OFFSET
    } else {
        utc as i8
    }
}

fn known_language(lang: &str) -> (b: bool)
    ensures
        b == is_known_language(lang@),
{
    let given = String::from_str(lang);
    given == String::from_str("en") || given == String::from_str("jp")
}

/// The text of a guild's setup: the offset, the languages, the channels.
pub open spec fn info_text_spec(
    utc: i8,
    lang: Seq<char>,
    lang2: Option<Seq<char>>,
    log_channel: u64,
    counting_channel: u64,
) -> Seq<char> {
    "`UTC "@ + utc_format(utc) + "`\n`lang`: "@ + lang + "\n`lang2`: "@ + (match lang2 {
        Some(l) => l,
        None => "(none)"@,
    }) + "\n`log_channel`: <#"@ + decimal_nat(log_channel as nat) + ">\n`counting_channel`: <#"@
        + decimal_nat(counting_channel as nat) + ">"@
}

/// The state of a guild that has set nothing up and has no history.
pub open spec fn is_new_guild(g: GuildData) -> bool {
    &&& g.wf()
    &&& !g.is_setup
    &&& g.settings.utc == 0
    &&& g.settings.lang@ == "en"@
    &&& g.settings.lang2 is None
    &&& g.settings.auto_relog
    &&& g.ids.log_channel_id is None
    &&& g.ids.counting_channel_id is None
    &&& g.ids.log_msg_map@ == Map::<i32, PageIds>::empty()
    &&& g.ids.last_scanned_msg_id is None
    &&& g.ids.log_helper_msg_id is None
    &&& g.daily_counts@ == Map::<Date, i64>::empty()
}

/// What the setup of a guild shows.
pub enum SetupInfo {
    /// The guild has not been set up.
    NotSetUp,
    /// The guild is set up but lacks a channel.
    MissingChannels,
    /// The setup as text.
    Info(String),
}

impl GuildData {
    /// The setup of the guild, for display.
    pub fn setup_info(&self) -> (info: SetupInfo)
        ensures
            match info {
                SetupInfo::NotSetUp => !self.is_setup,
                SetupInfo::MissingChannels => self.is_setup && (self.ids.log_channel_id is None
                    || self.ids.counting_channel_id is None),
                SetupInfo::Info(text) => self.is_setup && self.ids.log_channel_id is Some
                    && self.ids.counting_channel_id is Some && text@ == info_text_spec(
                    self.settings.utc,
                    self.settings.lang@,
                    crate::report::second_lang(self.settings.lang2),
                    self.ids.log_channel_id.unwrap(),
                    self.ids.counting_channel_id.unwrap(),
                ),
            },
    {
        if !self.is_setup {
            return SetupInfo::NotSetUp;
        }
        match (self.ids.log_channel_id, self.ids.counting_channel_id) {
            (Some(log), Some(counting)) => {
                let mut out = String::from_str("`UTC ");
                let offset = get_utc_format(&self.settings.utc);
                out.append(offset.as_str());
                out.append("`\n`lang`: ");
                out.append(self.settings.lang.as_str());
                out.append("\n`lang2`: ");
                match &self.settings.lang2 {
                    Some(l) => {
                        out.append(l.as_str());
                    },
                    None => {
                        out.append("(none)");
                    },
                }
                out.append("\n`log_channel`: <#");
                push_decimal_nat(&mut out, log as u128);
                out.append(">\n`counting_channel`: <#");
                push_decimal_nat(&mut out, counting as u128);
                out.append(">");
                SetupInfo::Info(out)
            },
            _ => SetupInfo::MissingChannels,
        }
    }

    /// Sets both channels and marks the guild as set up. Refused where one
    /// is missing or both are one channel; the guild then stays as it was.
    pub fn set_channels(&mut self, log_channel: Option<u64>, counting_channel: Option<u64>) -> (r:
        Result<(), SetupError>)
        ensures
            r is Ok <==> (log_channel is Some && counting_channel is Some && log_channel
                != counting_channel),
            r is Err ==> *final(self) == *old(self),
            r matches Err(e) ==> e == (if log_channel is None || counting_channel is None {
                SetupError::MissingChannel
            } else {
                SetupError::SameChannel
            }),
            r is Ok ==> final(self).ids.log_channel_id == log_channel,
            r is Ok ==> final(self).ids.counting_channel_id == counting_channel,
            r is Ok ==> final(self).is_setup,
            final(self).settings == old(self).settings,
            final(self).daily_counts == old(self).daily_counts,
            final(self).ids.log_msg_map == old(self).ids.log_msg_map,
            final(self).ids.last_scanned_msg_id == old(self).ids.last_scanned_msg_id,
            final(self).ids.log_helper_msg_id == old(self).ids.log_helper_msg_id,
    {
        match (log_channel, counting_channel) {
            (Some(log), Some(counting)) => {
                if log == counting {
                    return Err(SetupError::SameChannel);
                }
                self.ids.log_channel_id = Some(log);
                self.ids.counting_channel_id = Some(counting);
                self.is_setup = true;
                Ok(())
            },
            _ => Err(SetupError::MissingChannel),
        }
    }

    /// Sets the offset from UTC, clamped into the range of -12 to 14 hours.
    /// Returns the offset that was set.
    pub fn set_timezone(&mut self, utc: Option<i64>) -> (r: Result<i8, SetupError>)
        ensures
            r is Ok <==> utc is Some,
            r matches Err(e) ==> e == SetupError::MissingUtc && *final(self) == *old(self),
            r matches Ok(set) ==> set == clamp_offset(utc.unwrap()) && MIN_UTC_OFFSET <= set
                <= MAX_UTC_OFFSET && final(self).settings.utc == set,
            final(self).settings.lang == old(self).settings.lang,
            final(self).settings.lang2 == old(self).settings.lang2,
            final(self).settings.auto_relog == old(self).settings.auto_relog,
            final(self).is_setup == old(self).is_setup,
            final(self).ids == old(self).ids,
            final(self).daily_counts == old(self).daily_counts,
    {
        match utc {
            Some(hours) => {
                let set: i8 = if hours < MIN_UTC_OFFSET as i64 {
                    MIN_UTC_OFFSET
                } else if hours > MAX_UTC_OFFSET as i64 {
                    MAX_UTC_OFFSET
                } else {
                    hours as i8
                };
                self.settings.utc = set;
                Ok(set)
            },
            None => Err(SetupError::MissingUtc),
        }
    }

    /// Sets the language of the reports and the optional second language.
    /// Refused where the first is missing or either is not on offer.
    pub fn set_language(&mut self, lang: Option<&str>, lang2: Option<&str>) -> (r: Result<
        (),
        SetupError,
    >)
        ensures
            r is Ok <==> (lang is Some && is_known_language(lang.unwrap()@) && (lang2 is Some
                ==> is_known_language(lang2.unwrap()@))),
            r is Err ==> *final(self) == *old(self),
            r matches Err(e) ==> e == (if lang is None {
                SetupError::MissingLanguage
            } else {
                SetupError::UnknownLanguage
            }),
            r is Ok ==> final(self).settings.lang@ == lang.unwrap()@,
            r is Ok ==> (final(self).settings.lang2 is Some <==> lang2 is Some),
            r is Ok && lang2 is Some ==> final(self).settings.lang2.unwrap()@ == lang2.unwrap()@,
            final(self).settings.utc == old(self).settings.utc,
            final(self).settings.auto_relog == old(self).settings.auto_relog,
            final(self).is_setup == old(self).is_setup,
            final(self).ids == old(self).ids,
            final(self).daily_counts == old(self).daily_counts,
    {
        match lang {
            None => Err(SetupError::MissingLanguage),
            Some(first) => {
                let second_ok = match lang2 {
                    Some(l) => known_language(l),
                    None => true,
                };
                if !known_language(first) || !second_ok {
                    return Err(SetupError::UnknownLanguage);
                }
                self.settings.lang = String::from_str(first);
                self.settings.lang2 = match lang2 {
                    Some(l) => Some(String::from_str(l)),
                    None => None,
                };
                Ok(())
            },
        }
    }

    /// Switches the periodic synchronisation on or off. Returns the new
    /// setting.
    pub fn toggle_auto_relog(&mut self) -> (now_on: bool)
        ensures
            now_on == !old(self).settings.auto_relog,
            final(self).settings.auto_relog == now_on,
            final(self).settings.utc == old(self).settings.utc,
            final(self).settings.lang == old(self).settings.lang,
            final(self).settings.lang2 == old(self).settings.lang2,
            final(self).is_setup == old(self).is_setup,
            final(self).ids == old(self).ids,
            final(self).daily_counts == old(self).daily_counts,
    {
        self.settings.auto_relog = !self.settings.auto_relog;
        self.settings.auto_relog
    }

    /// Resets the guild to the state of a new guild, unless it has not been
    /// set up or is as a new guild has it already.
    pub fn reset(&mut self) -> (outcome: ResetOutcome)
        ensures
            outcome == (if !old(self).is_setup {
                ResetOutcome::NotSetUp
            } else if old(self).settings.utc == 0 && old(self).ids.log_channel_id is None
                && old(self).ids.counting_channel_id is None {
                ResetOutcome::Unchanged
            } else {
                ResetOutcome::Reset
            }),
            outcome != ResetOutcome::Reset ==> *final(self) == *old(self),
            outcome == ResetOutcome::Reset ==> is_new_guild(*final(self)),
    {
        if !self.is_setup {
            ResetOutcome::NotSetUp
        } else if self.is_default_setup() {
            ResetOutcome::Unchanged
        } else {
            *self = GuildData::default();
            ResetOutcome::Reset
        }
    }

    /// Takes in a count that was just posted: where the guild has a counting
    /// channel and the body is an integer, the count is merged into the day
    /// that `now` lies on, by maximum: a count below the one stored for the
    /// day changes nothing. Returns whether the count was taken in.
    pub fn record_live_count(&mut self, content: &str, now: i64) -> (stored: bool)
        requires
            old(self).wf(),
        ensures
            final(self).wf(),
            final(self).is_setup == old(self).is_setup,
            final(self).settings == old(self).settings,
            final(self).ids == old(self).ids,
            stored == (old(self).ids.counting_channel_id is Some && parse_count_spec(content@)
                is Some && local_date_of(now, old(self).settings.utc) is Some),
            !stored ==> final(self).daily_counts == old(self).daily_counts,
            stored ==> final(self).daily_counts@ == max_merge(
                old(self).daily_counts@,
                local_date_of(now, old(self).settings.utc).unwrap(),
                parse_count_spec(content@).unwrap(),
            ),
    {
        if self.ids.counting_channel_id.is_none() {
            return false;
        }
        match parse_count(content) {
            None => false,
            Some(value) => match local_date(now, self.settings.utc) {
                None => false,
                Some(today) => {
                    merge_max(&mut self.daily_counts, today, value);
                    true
                },
            },
        }
    }
}

} // verus!
