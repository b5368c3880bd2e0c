//! Settings of the structured logger and a small stopwatch for
//! performance checkpoints. Installing the actual subscriber is the
//! surrounding application's business.

use vstd::prelude::*;
use vstd::string::*;
use crate::foreign::{elapsed_millis, instant_now};

verus! {

/// How verbose the structured logger is.
#[derive(Debug, Clone, Copy, PartialEq, Eq)]
pub enum LogLevel {
    Trace,
    Debug,
    Info,
    Warn,
    Error,
}

/// When the structured logger's file rolls over.
#[derive(Debug, Clone, Copy, PartialEq, Eq)]
pub enum RotationStrategy {
    Hourly,
    Daily,
    Never,
}

/// Settings of the structured logger.
#[derive(Debug, Clone)]
pub struct AdvancedLogConfig {
    /// Directory the log files live in.
    pub log_dir: String,
    /// Prefix of the log files.
    pub app_name: String,
    /// Verbosity gate.
    pub level: LogLevel,
    /// Whether lines also go to the console.
    pub console_enabled: bool,
    /// Whether lines go to a file.
    pub file_enabled: bool,
    /// Whether lines are rendered as JSON.
    pub json_format: bool,
    /// When the file rolls over.
    pub rotation: RotationStrategy,
    /// An explicit filter directive, when one is wanted.
    pub env_filter: Option<String>,
}

impl Default for AdvancedLogConfig {
    /// The stock settings: `logs` directory, a neutral application name,
    /// info level, both sinks, plain text, daily rotation, no filter.
    fn default() -> (r: Self)
        ensures
            r.log_dir@ == "logs"@,
            r.app_name@ == "tauri-app"@,
            r.level == LogLevel::Info,
            r.console_enabled,
            r.file_enabled,
            !r.json_format,
            r.rotation == RotationStrategy::Daily,
            r.env_filter is None,
    {
        AdvancedLogConfig {
            log_dir: String::from_str("logs"),
            app_name: String::from_str("tauri-app"),
            level: LogLevel::Info,
            console_enabled: true,
            file_enabled: true,
            json_format: false,
            rotation: RotationStrategy::Daily,
            env_filter: None,
        }
    }
}

impl AdvancedLogConfig {
    /// The stock settings.
    pub fn new() -> (r: Self)
        ensures
            r.log_dir@ == "logs"@,
            r.app_name@ == "tauri-app"@,
            r.level == LogLevel::Info,
            r.console_enabled,
            r.file_enabled,
            !r.json_format,
            r.rotation == RotationStrategy::Daily,
            r.env_filter is None,
    {
        Self::default()
    }

    /// Replaces the log directory.
    pub fn with_log_dir(self, dir: &str) -> (r: Self)
        ensures
            r.log_dir@ == dir@,
            r.app_name == self.app_name,
            r.level == self.level,
            r.console_enabled == self.console_enabled,
            r.file_enabled == self.file_enabled,
            r.json_format == self.json_format,
            r.rotation == self.rotation,
            r.env_filter == self.env_filter,
    {
        AdvancedLogConfig { log_dir: dir.to_owned(), ..self }
    }

    /// Replaces the application name.
    pub fn with_app_name(self, name: &str) -> (r: Self)
        ensures
            r.app_name@ == name@,
            r.log_dir == self.log_dir,
            r.level == self.level,
            r.console_enabled == self.console_enabled,
            r.file_enabled == self.file_enabled,
            r.json_format == self.json_format,
            r.rotation == self.rotation,
            r.env_filter == self.env_filter,
    {
        AdvancedLogConfig { app_name: name.to_owned(), ..self }
    }

    /// Replaces the verbosity gate.
    pub fn with_level(self, level: LogLevel) -> (r: Self)
        ensures
            r.level == level,
            r.log_dir == self.log_dir,
            r.app_name == self.app_name,
            r.console_enabled == self.console_enabled,
            r.file_enabled == self.file_enabled,
            r.json_format == self.json_format,
            r.rotation == self.rotation,
            r.env_filter == self.env_filter,
    {
        AdvancedLogConfig { level, ..self }
    }

    /// Switches console output.
    pub fn with_console(self, enabled: bool) -> (r: Self)
        ensures
            r.console_enabled == enabled,
            r.log_dir == self.log_dir,
            r.app_name == self.app_name,
            r.level == self.level,
            r.file_enabled == self.file_enabled,
            r.json_format == self.json_format,
            r.rotation == self.rotation,
            r.env_filter == self.env_filter,
    {
        AdvancedLogConfig { console_enabled: enabled, ..self }
    }

    /// Switches file output.
    pub fn with_file(self, enabled: bool) -> (r: Self)
        ensures
            r.file_enabled == enabled,
            r.log_dir == self.log_dir,
            r.app_name == self.app_name,
            r.level == self.level,
            r.console_enabled == self.console_enabled,
            r.json_format == self.json_format,
            r.rotation == self.rotation,
            r.env_filter == self.env_filter,
    {
        AdvancedLogConfig { file_enabled: enabled, ..self }
    }

    /// Switches JSON rendering.
    pub fn with_json_format(self, enabled: bool) -> (r: Self)
        ensures
            r.json_format == enabled,
            r.log_dir == self.log_dir,
            r.app_name == self.app_name,
            r.level == self.level,
            r.console_enabled == self.console_enabled,
            r.file_enabled == self.file_enabled,
            r.rotation == self.rotation,
            r.env_filter == self.env_filter,
    {
        AdvancedLogConfig { json_format: enabled, ..self }
    }

    /// Replaces the rotation strategy.
    pub fn with_rotation(self, rotation: RotationStrategy) -> (r: Self)
        ensures
            r.rotation == rotation,
            r.log_dir == self.log_dir,
            r.app_name == self.app_name,
            r.level == self.level,
            r.console_enabled == self.console_enabled,
            r.file_enabled == self.file_enabled,
            r.json_format == self.json_format,
            r.env_filter == self.env_filter,
    {
        AdvancedLogConfig { rotation, ..self }
    }

    /// Sets an explicit filter directive.
    pub fn with_env_filter(self, filter: &str) -> (r: Self)
        ensures
            r.env_filter matches Some(f) && f@ == filter@,
            r.log_dir == self.log_dir,
            r.app_name == self.app_name,
            r.level == self.level,
            r.console_enabled == self.console_enabled,
            r.file_enabled == self.file_enabled,
            r.json_format == self.json_format,
            r.rotation == self.rotation,
    {
        AdvancedLogConfig { env_filter: Some(filter.to_owned()), ..self }
    }
}

/// A stopwatch over one named operation.
pub struct PerformanceMonitor {
    pub operation: String,
    pub start_time: std::time::Instant,
}

impl PerformanceMonitor {
    /// Starts timing the named operation.
    pub fn start(operation: &str) -> (r: Self)
        ensures
            r.operation@ == operation@,
    {
        PerformanceMonitor { operation: operation.to_owned(), start_time: instant_now() }
    }

    /// The milliseconds elapsed so far, at a named intermediate point.
    pub fn checkpoint(&self, checkpoint: &str) -> (r: u128) {
        let _label = checkpoint;
        elapsed_millis(&self.start_time)
    }

    /// The total milliseconds the operation took.
    pub fn finish(self) -> (r: u128) {
        elapsed_millis(&self.start_time)
    }
}

} // verus!
