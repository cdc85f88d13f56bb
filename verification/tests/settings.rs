use arango_etl::handler::ArangodbHandler;
use arango_etl::settings::{
    default_after_ts, default_arangodb_database, default_arangodb_endpoint,
    default_arangodb_password, default_arangodb_user, default_file_chunk_size, default_interval,
    default_log, default_max_concurrent_files, default_max_processing_capacity,
    default_max_retries, default_redis_endpoint, default_redis_pool_size, ArangoDBSettings,
    CurrentSettings, RedisSettings, Settings, TrackerSettings,
};
use arango_etl::tracker::{Tracker, TrackerError};
use arango_etl::LOADER_WORKERS;

fn default_settings() -> Settings {
    Settings {
        log: default_log(),
        max_concurrent_files: default_max_concurrent_files(),
        file_chunk_size: default_file_chunk_size(),
        max_processing_capacity: default_max_processing_capacity(),
        max_retries: default_max_retries(),
        arangodb: ArangoDBSettings {
            endpoint: default_arangodb_endpoint(),
            user: default_arangodb_user(),
            password: default_arangodb_password(),
            database: default_arangodb_database(),
        },
        tracker: TrackerSettings { interval: default_interval() },
        current: CurrentSettings { after: default_after_ts() },
        redis: Some(RedisSettings {
            endpoint: default_redis_endpoint(),
            pool_size: default_redis_pool_size(),
        }),
    }
}

#[test]
fn numeric_defaults() {
    assert_eq!(default_max_retries(), 3);
    assert_eq!(default_max_concurrent_files(), 16);
    assert_eq!(default_file_chunk_size(), 600);
    assert_eq!(default_max_processing_capacity(), 32);
    assert_eq!(default_interval(), 10);
    assert_eq!(default_redis_pool_size(), 16);
    assert_eq!(LOADER_WORKERS, 16);
}

#[test]
fn text_defaults() {
    assert_eq!(default_log(), "arango_etl=debug");
    assert_eq!(default_redis_endpoint(), "redis://localhost:6739");
    assert_eq!(default_arangodb_endpoint(), "http://localhost:8925");
    assert_eq!(default_arangodb_user(), "root");
    assert_eq!(default_arangodb_password(), "arangodb");
    assert_eq!(default_arangodb_database(), "iot");
}

#[test]
fn default_start_time_is_the_documented_instant() {
    // 2023-06-27T17:48:50.980Z
    assert_eq!(default_after_ts(), 1_687_888_130_980);
    let seconds = default_after_ts() / 1000;
    assert_eq!(seconds % 60, 50);
    assert_eq!((seconds / 60) % 60, 48);
    assert_eq!((seconds / 3600) % 24, 17);
    assert_eq!(default_after_ts() % 1000, 980);
}

#[test]
fn settings_hand_out_their_values() {
    let settings = default_settings();
    assert_eq!(settings.interval(), 10);
    assert_eq!(settings.current.after_utc(), 1_687_888_130_980);
    let redis = settings.redis.clone().unwrap();
    assert_eq!(redis.pool_size, 16);
}

#[test]
fn handler_takes_its_limits_from_the_settings() {
    let mut settings = default_settings();
    settings.max_retries = 7;
    settings.file_chunk_size = 11;
    let handler = ArangodbHandler::new(&settings);
    assert_eq!(handler.max_retries, 7);
    assert_eq!(handler.file_chunk_size, 11);
    assert_eq!(handler.max_concurrent_files, 16);
    assert_eq!(handler.max_processing_capacity, 32);
}

#[test]
fn tracker_moves_to_the_watermark() {
    let settings = default_settings();
    let mut tracker = Tracker::new(&settings, 1_000);
    assert_eq!(tracker.after_utc, 1_000);
    assert_eq!(tracker.interval_duration, 10);
    assert_eq!(tracker.tick(5_000), Ok(11_000));
    assert_eq!(tracker.after_utc, 5_000);
    assert_eq!(tracker.tick(5_000), Ok(15_000));
    assert_eq!(tracker.after_utc, 5_000);
}

#[test]
fn tracker_refuses_a_tick_beyond_the_clock() {
    let mut tracker = Tracker { after_utc: i64::MAX - 5, interval_duration: 1 };
    assert_eq!(tracker.tick(42), Err(TrackerError::IntervalOverflow));
    assert_eq!(tracker.after_utc, i64::MAX - 5);
    let mut far = Tracker { after_utc: -1_000, interval_duration: 9_223_372_036_854_776 };
    assert_eq!(far.tick(7), Ok(9_223_372_036_854_775_000));
    assert_eq!(far.after_utc, 7);
    let mut back = Tracker { after_utc: i64::MIN, interval_duration: -1 };
    assert_eq!(back.tick(7), Err(TrackerError::IntervalOverflow));
}
