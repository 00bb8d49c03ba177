use zkill_history_importer::calendar::CalendarDay;
use zkill_history_importer::models::app_config::{
    ApiConfig, AppConfig, ConfigError, DatabaseConfig, ScheduleConfig, StartDateConfig,
};

fn config(start: Option<StartDateConfig>, schedule: Option<ScheduleConfig>) -> AppConfig {
    AppConfig {
        num_days: 2,
        start_date: start,
        scheduling: schedule,
        api: ApiConfig {
            zkill_history_url: "h/".to_string(),
            zkill_details_url: "p/".to_string(),
            ccp_details_url: "s/".to_string(),
            user_agent: "agent".to_string(),
        },
        database: DatabaseConfig {
            conn_string: "mongodb://localhost".to_string(),
            database_name: "db".to_string(),
            collection_name: "kills".to_string(),
        },
        logging: None,
    }
}

#[test]
fn wait_is_the_configured_hours_in_seconds() {
    assert_eq!(ScheduleConfig { hours_to_wait: 2 }.wait_seconds(), 7200);
    assert_eq!(ScheduleConfig { hours_to_wait: 0 }.wait_seconds(), 0);
    assert_eq!(ScheduleConfig { hours_to_wait: u64::MAX }.wait_seconds(), u64::MAX);
    assert_eq!(config(None, Some(ScheduleConfig { hours_to_wait: 3 })).wait_after_pass(), Some(10800));
    assert_eq!(config(None, None).wait_after_pass(), None);
}

#[test]
fn reference_day_from_config() {
    let start = StartDateConfig { year: 2023, month: 3, day: 15 };
    assert_eq!(config(Some(start), None).reference_day(), Ok(CalendarDay::from_ymd(2023, 3, 15)));
    assert_eq!(config(None, None).reference_day(), Ok(None));
    assert_eq!(config(None, Some(ScheduleConfig { hours_to_wait: 1 })).reference_day(), Ok(None));
}

#[test]
fn reference_day_errors() {
    let start = StartDateConfig { year: 2023, month: 3, day: 15 };
    assert_eq!(
        config(Some(start), Some(ScheduleConfig { hours_to_wait: 1 })).reference_day(),
        Err(ConfigError::StartDateWithSchedule)
    );
    let bad = StartDateConfig { year: 2023, month: 2, day: 30 };
    assert_eq!(config(Some(bad), None).reference_day(), Err(ConfigError::InvalidStartDate));
}
