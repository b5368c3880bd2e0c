//! Tests of the logging settings, the application configuration, its
//! validation and the translation into the structured logger's settings.

use collaboard::advanced_logging::{
    AdvancedLogConfig, LogLevel, PerformanceMonitor, RotationStrategy,
};
use collaboard::config_loader::{ConfigLoader, ConfigValidator};
use collaboard::logging::{LevelFilter, LogConfig, LogManager};

#[test]
fn test_log_config_creation() {
    let config = LogConfig::new()
        .with_level(LevelFilter::Debug)
        .with_max_file_size_mb(5)
        .with_max_files(3);

    assert_eq!(config.level, LevelFilter::Debug);
    assert_eq!(config.max_file_size_mb, 5);
    assert_eq!(config.max_files, 3);
}

#[test]
fn test_log_manager_creation() {
    let config = LogConfig::new().with_log_dir("logs/test");

    let manager = LogManager::new(config);
    assert_eq!(manager.config.log_dir, "logs/test");
}

#[test]
fn test_current_log_file_shape() {
    let manager = LogManager::new(LogConfig::new());
    let name = manager.get_current_log_file();
    assert!(name.starts_with("logs/app-"));
    assert!(name.ends_with(".log"));
}

#[test]
fn test_advanced_log_config() {
    let config = AdvancedLogConfig::new()
        .with_log_dir("logs/test")
        .with_app_name("test-app")
        .with_level(LogLevel::Debug)
        .with_json_format(true)
        .with_rotation(RotationStrategy::Hourly);

    assert_eq!(config.app_name, "test-app");
    assert_eq!(config.level, LogLevel::Debug);
    assert!(config.json_format);
    assert!(matches!(config.rotation, RotationStrategy::Hourly));
}

#[test]
fn test_performance_monitor() {
    let monitor = PerformanceMonitor::start("test_operation");
    let first = monitor.checkpoint("middle");
    let total = monitor.finish();
    assert!(total >= first);
}

#[test]
fn test_load_default_config() {
    let config = ConfigLoader::load_default();
    assert_eq!(config.logging.app_name, "collaboard");
    assert_eq!(config.logging.level, "INFO");
    assert!(config.logging.console_enabled);
    assert!(config.logging.file_enabled);
}

#[test]
fn test_config_validation() {
    let config = ConfigLoader::load_default();
    let result = ConfigValidator::validate(&config);
    assert!(result.is_ok());
}

#[test]
fn test_invalid_config_validation() {
    let mut config = ConfigLoader::load_default();
    config.logging.level = "INVALID".to_string();
    config.logging.app_name = "".to_string();

    let result = ConfigValidator::validate(&config);
    assert!(result.is_err());

    let errors = result.unwrap_err();
    assert!(errors.len() >= 2);
}

#[test]
fn test_to_advanced_log_config() {
    let config = ConfigLoader::load_default();
    let advanced_config = config.logging.to_advanced_log_config().unwrap();

    assert_eq!(advanced_config.app_name, "collaboard");
    assert_eq!(advanced_config.level, LogLevel::Info);
}

#[test]
fn test_to_advanced_log_config_rejects_unknown_words() {
    let mut config = ConfigLoader::load_default();
    config.logging.level = "whisper".to_string();
    assert!(config.logging.to_advanced_log_config().is_err());

    let mut config = ConfigLoader::load_default();
    config.logging.rotation = "weekly".to_string();
    assert!(config.logging.to_advanced_log_config().is_err());
}

#[test]
fn test_level_words_fold_case() {
    let mut config = ConfigLoader::load_default();
    config.logging.level = "wArN".to_string();
    config.logging.rotation = "NEVER".to_string();
    let advanced = config.logging.to_advanced_log_config().unwrap();
    assert_eq!(advanced.level, LogLevel::Warn);
    assert!(matches!(advanced.rotation, RotationStrategy::Never));
}
