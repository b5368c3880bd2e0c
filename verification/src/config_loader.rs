//! Application-level configuration shapes, the stock configuration, its
//! validation, and the translation into the structured logger's settings.
//! Reading and writing the on-disk file is the surrounding application's
//! business.

use vstd::prelude::*;
use vstd::string::*;
use crate::advanced_logging::{AdvancedLogConfig, LogLevel, RotationStrategy};
use crate::error::{FileManagerError, FmResult};
use crate::foreign::{fold_lower, lower_of};
use crate::text::str_eq;

verus! {

/// The whole application configuration.
#[derive(Debug, Clone)]
pub struct AppConfig {
    pub logging: LoggingConfig,
}

/// The logging section.
#[derive(Debug, Clone)]
pub struct LoggingConfig {
    pub app_name: String,
    pub level: String,
    pub log_dir: String,
    pub console_enabled: bool,
    pub file_enabled: bool,
    pub json_format: bool,
    pub rotation: String,
    pub env_filter: String,
    pub performance: PerformanceConfig,
    pub user_actions: UserActionsConfig,
    pub error_handling: ErrorHandlingConfig,
    pub file_operations: FileOperationsConfig,
    pub system_monitoring: SystemMonitoringConfig,
    pub development: DevelopmentConfig,
}

/// Performance tracing settings.
#[derive(Debug, Clone, PartialEq)]
pub struct PerformanceConfig {
    pub enabled: bool,
    pub threshold_ms: u64,
}

/// User-action logging settings.
#[derive(Debug, Clone, PartialEq)]
pub struct UserActionsConfig {
    pub enabled: bool,
    pub log_sensitive_operations: bool,
}

/// Error reporting settings.
#[derive(Debug, Clone, PartialEq)]
pub struct ErrorHandlingConfig {
    pub detailed_errors: bool,
    pub include_stack_trace: bool,
    pub log_retry_attempts: bool,
}

/// File-operation logging settings.
#[derive(Debug, Clone)]
pub struct FileOperationsConfig {
    pub enabled: bool,
    pub level: String,
    pub log_file_hash: bool,
}

/// System monitoring cadence.
#[derive(Debug, Clone, PartialEq)]
pub struct SystemMonitoringConfig {
    pub enabled: bool,
    pub interval_seconds: u64,
}

/// Development conveniences.
#[derive(Debug, Clone, PartialEq)]
pub struct DevelopmentConfig {
    pub verbose_debug: bool,
    pub log_sql_queries: bool,
    pub log_http_traffic: bool,
    pub colored_output: bool,
}

/// Builds configurations that need no file on disk.
pub struct ConfigLoader;

impl ConfigLoader {
    /// The stock configuration.
    pub fn load_default() -> (r: AppConfig)
        ensures
            r.logging.app_name@ == "collaboard"@,
            r.logging.level@ == "INFO"@,
            r.logging.log_dir@ == "logs"@,
            r.logging.console_enabled,
            r.logging.file_enabled,
            !r.logging.json_format,
            r.logging.rotation@ == "daily"@,
            r.logging.performance.enabled,
            r.logging.performance.threshold_ms == 100,
            r.logging.system_monitoring.enabled,
            r.logging.system_monitoring.interval_seconds == 300,
    {
        AppConfig {
            logging: LoggingConfig {
                app_name: String::from_str("collaboard"),
                level: String::from_str("INFO"),
                log_dir: String::from_str("logs"),
                console_enabled: true,
                file_enabled: true,
                json_format: false,
                rotation: String::from_str("daily"),
                env_filter: String::from_str("collaboard=debug,tauri=info"),
                performance: PerformanceConfig { enabled: true, threshold_ms: 100 },
                user_actions: UserActionsConfig {
                    enabled: true,
                    log_sensitive_operations: true,
                },
                error_handling: ErrorHandlingConfig {
                    detailed_errors: true,
                    include_stack_trace: true,
                    log_retry_attempts: true,
                },
                file_operations: FileOperationsConfig {
                    enabled: true,
                    level: String::from_str("INFO"),
                    log_file_hash: false,
                },
                system_monitoring: SystemMonitoringConfig {
                    enabled: true,
                    interval_seconds: 300,
                },
                development: DevelopmentConfig {
                    verbose_debug: true,
                    log_sql_queries: true,
                    log_http_traffic: false,
                    colored_output: true,
                },
            },
        }
    }
}

/// A level word is recognized when its folded form is one of the five.
pub open spec fn level_word_ok(s: Seq<char>) -> bool {
    lower_of(s) == "trace"@ || lower_of(s) == "debug"@ || lower_of(s) == "info"@ || lower_of(s)
        == "warn"@ || lower_of(s) == "error"@
}

/// A rotation word is recognized when its folded form is one of the
/// three.
pub open spec fn rotation_word_ok(s: Seq<char>) -> bool {
    lower_of(s) == "hourly"@ || lower_of(s) == "daily"@ || lower_of(s) == "never"@
}

impl LoggingConfig {
    /// Translates this section into the structured logger's settings;
    /// unrecognized level or rotation words are configuration errors.
    pub fn to_advanced_log_config(&self) -> (r: FmResult<AdvancedLogConfig>)
        ensures
            (level_word_ok(self.level@) && rotation_word_ok(self.rotation@)) == (r is Ok),
            r matches Ok(c) ==> ({
                &&& c.app_name@ == self.app_name@
                &&& c.log_dir@ == self.log_dir@
                &&& c.console_enabled == self.console_enabled
                &&& c.file_enabled == self.file_enabled
                &&& c.json_format == self.json_format
                &&& (c.env_filter matches Some(f) && f@ == self.env_filter@)
                &&& (lower_of(self.level@) == "trace"@ ==> c.level == LogLevel::Trace)
                &&& (lower_of(self.level@) == "debug"@ ==> c.level == LogLevel::Debug)
                &&& (lower_of(self.level@) == "info"@ ==> c.level == LogLevel::Info)
                &&& (lower_of(self.level@) == "warn"@ ==> c.level == LogLevel::Warn)
                &&& (lower_of(self.level@) == "error"@ ==> c.level == LogLevel::Error)
                &&& (lower_of(self.rotation@) == "hourly"@ ==> c.rotation
                    == RotationStrategy::Hourly)
                &&& (lower_of(self.rotation@) == "daily"@ ==> c.rotation
                    == RotationStrategy::Daily)
                &&& (lower_of(self.rotation@) == "never"@ ==> c.rotation
                    == RotationStrategy::Never)
            }),
            r matches Err(e) ==> e matches FileManagerError::Configuration { .. },
    {
        proof {
            reveal_strlit("trace");
            reveal_strlit("debug");
            reveal_strlit("info");
            reveal_strlit("warn");
            reveal_strlit("error");
            reveal_strlit("hourly");
            reveal_strlit("daily");
            reveal_strlit("never");
            assert("trace"@[0] == 't' && "debug"@[0] == 'd' && "info"@[0] == 'i' && "warn"@[0]
                == 'w' && "error"@[0] == 'e');
            assert("trace"@.len() == 5 && "debug"@.len() == 5 && "info"@.len() == 4
                && "warn"@.len() == 4 && "error"@.len() == 5);
            assert("hourly"@[0] == 'h' && "daily"@[0] == 'd' && "never"@[0] == 'n');
            assert("hourly"@.len() == 6 && "daily"@.len() == 5 && "never"@.len() == 5);
        }
        let level_low = fold_lower(self.level.as_str());
        let level = if str_eq(level_low.as_str(), "trace") {
            LogLevel::Trace
        } else if str_eq(level_low.as_str(), "debug") {
            LogLevel::Debug
        } else if str_eq(level_low.as_str(), "info") {
            LogLevel::Info
        } else if str_eq(level_low.as_str(), "warn") {
            LogLevel::Warn
        } else if str_eq(level_low.as_str(), "error") {
            LogLevel::Error
        } else {
            return Err(FileManagerError::config_error("unrecognized log level"));
        };
        let rotation_low = fold_lower(self.rotation.as_str());
        let rotation = if str_eq(rotation_low.as_str(), "hourly") {
            RotationStrategy::Hourly
        } else if str_eq(rotation_low.as_str(), "daily") {
            RotationStrategy::Daily
        } else if str_eq(rotation_low.as_str(), "never") {
            RotationStrategy::Never
        } else {
            return Err(FileManagerError::config_error("unrecognized rotation strategy"));
        };
        let r = AdvancedLogConfig::new().with_app_name(self.app_name.as_str()).with_level(
            level,
        ).with_log_dir(self.log_dir.as_str()).with_console(self.console_enabled).with_file(
            self.file_enabled,
        ).with_json_format(self.json_format).with_rotation(rotation).with_env_filter(
            self.env_filter.as_str(),
        );
        Ok(r)
    }
}

/// Checks configurations before they are used.
pub struct ConfigValidator;

impl ConfigValidator {
    /// Checks the recognizable words, the non-empty fields and the
    /// non-zero cadences, listing one message per failed check.
    pub fn validate(config: &AppConfig) -> (r: Result<(), Vec<String>>)
        ensures
            (r is Ok) == (level_word_ok(config.logging.level@) && rotation_word_ok(
                config.logging.rotation@,
            ) && config.logging.log_dir@.len() > 0 && config.logging.app_name@.len() > 0
                && config.logging.performance.threshold_ms > 0
                && config.logging.system_monitoring.interval_seconds > 0),
            r matches Err(v) ==> v@.len() > 0,
    {
        let mut errors: Vec<String> = Vec::new();
        let level_low = fold_lower(config.logging.level.as_str());
        let level_ok = str_eq(level_low.as_str(), "trace") || str_eq(level_low.as_str(), "debug")
            || str_eq(level_low.as_str(), "info") || str_eq(level_low.as_str(), "warn")
            || str_eq(level_low.as_str(), "error");
        if !level_ok {
            errors.push(String::from_str("unrecognized log level"));
        }
        let rotation_low = fold_lower(config.logging.rotation.as_str());
        let rotation_ok = str_eq(rotation_low.as_str(), "hourly") || str_eq(
            rotation_low.as_str(),
            "daily",
        ) || str_eq(rotation_low.as_str(), "never");
        if !rotation_ok {
            errors.push(String::from_str("unrecognized rotation strategy"));
        }
        if config.logging.log_dir.as_str().unicode_len() == 0 {
            errors.push(String::from_str("log directory must not be empty"));
        }
        if config.logging.app_name.as_str().unicode_len() == 0 {
            errors.push(String::from_str("application name must not be empty"));
        }
        if config.logging.performance.threshold_ms == 0 {
            errors.push(String::from_str("performance threshold must be positive"));
        }
        if config.logging.system_monitoring.interval_seconds == 0 {
            errors.push(String::from_str("monitoring interval must be positive"));
        }
        if errors.len() == 0 {
            Ok(())
        } else {
            Err(errors)
        }
    }
}

} // verus!
