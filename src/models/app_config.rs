//! The configuration a run is given, and the decisions it settles: the day
//! a window starts from and the wait between passes.
use crate::calendar::{day_of_ymd, CalendarDay};
use vstd::prelude::*;

verus! {

/// Seconds in an hour.
pub const SECONDS_PER_HOUR: u64 = 3600;

#[derive(Clone, Debug)]
pub struct AppConfig {
    pub num_days: u64,
    pub start_date: Option<StartDateConfig>,
    pub scheduling: Option<ScheduleConfig>,
    pub api: ApiConfig,
    pub database: DatabaseConfig,
    pub logging: Option<LoggingConfig>,
}

#[derive(Clone, Debug)]
pub struct ScheduleConfig {
    pub hours_to_wait: u64,
}

#[derive(Clone, Debug)]
pub struct StartDateConfig {
    pub year: i32,
    pub month: u32,
    pub day: u32,
}

#[derive(Clone, Debug)]
pub struct ApiConfig {
    pub zkill_history_url: String,
    pub zkill_details_url: String,
    pub ccp_details_url: String,
    pub user_agent: String,
}

#[derive(Clone, Debug)]
pub struct DatabaseConfig {
    pub conn_string: String,
    pub database_name: String,
    pub collection_name: String,
}

#[derive(Clone, Debug)]
pub struct LoggingConfig {
    pub logging_level: String,
}

/// A configuration that cannot be run.
#[derive(Clone, Copy, Debug, PartialEq, Eq, Structural)]
pub enum ConfigError {
    /// A fixed start date and a schedule were both given.
    StartDateWithSchedule,
    /// The start date is not a valid, representable date.
    InvalidStartDate,
}

/// The wait after a pass, in seconds, for a schedule of `hours` hours; it
/// stays at the largest value a `u64` holds when the product does not fit.
pub open spec fn wait_for(hours: int) -> int {
    if hours * 3600 <= u64::MAX {
        hours * 3600
    } else {
        u64::MAX as int
    }
}

impl ScheduleConfig {
    /// The wait between the end of one pass and the start of the next, in
    /// seconds: never less than the configured hours, unless that is more
    /// than a `u64` of seconds.
    pub fn wait_seconds(&self) -> (r: u64)
        ensures
            r == wait_for(self.hours_to_wait as int),
            r >= self.hours_to_wait * 3600 || r == u64::MAX,
    {
        if self.hours_to_wait <= u64::MAX / SECONDS_PER_HOUR {
            self.hours_to_wait * SECONDS_PER_HOUR
        } else {
            u64::MAX
        }
    }
}

impl AppConfig {
    /// The day a window starts from: the configured start date, or `None`
    /// for the current day. A start date cannot go with a schedule, and must
    /// be a valid date.
    pub fn reference_day(&self) -> (r: Result<Option<CalendarDay>, ConfigError>)
        ensures
            match self.start_date {
                None => r == Ok::<Option<CalendarDay>, ConfigError>(None),
                Some(s) => if self.scheduling is Some {
                    r == Err::<Option<CalendarDay>, ConfigError>(ConfigError::StartDateWithSchedule)
                } else {
                    match day_of_ymd(s.year as int, s.month as int, s.day as int) {
                        None => r == Err::<Option<CalendarDay>, ConfigError>(ConfigError::InvalidStartDate),
                        Some(n) => r matches Ok(Some(d)) && d.day() == n,
                    }
                },
            },
    {
        match &self.start_date {
            None => Ok(None),
            Some(s) => {
                if self.scheduling.is_some() {
                    return Err(ConfigError::StartDateWithSchedule);
                }
                match CalendarDay::from_ymd(s.year, s.month, s.day) {
                    Some(d) => Ok(Some(d)),
                    None => Err(ConfigError::InvalidStartDate),
                }
            },
        }
    }

    /// The wait after a pass in seconds, or `None` when the run ends after
    /// one pass.
    pub fn wait_after_pass(&self) -> (r: Option<u64>)
        ensures
            match self.scheduling {
                None => r is None,
                Some(s) => r == Some(wait_for(s.hours_to_wait as int) as u64),
            },
    {
        match &self.scheduling {
            None => None,
            Some(s) => Some(s.wait_seconds()),
        }
    }
}

} // verus!
