//! Plain logging settings: where log files go, how verbose they are, and
//! how the daily file is named. Wiring the settings into an actual logger
//! is the surrounding application's business.

use vstd::prelude::*;
use vstd::string::*;
use crate::foreign::today_ymd;
use crate::text::{dec_pad_seq, join_seq, push_decimal_pad};

verus! {

/// How verbose the plain logger is.
#[derive(Debug, Clone, Copy, PartialEq, Eq)]
pub enum LevelFilter {
    Off,
    Error,
    Warn,
    Info,
    Debug,
    Trace,
}

/// Settings of the plain logger.
#[derive(Debug, Clone)]
pub struct LogConfig {
    /// Directory the log files live in.
    pub log_dir: String,
    /// Verbosity gate.
    pub level: LevelFilter,
    /// Whether lines also go to the console.
    pub console_output: bool,
    /// Whether lines go to a file.
    pub file_output: bool,
    /// Size bound of one file, in mebibytes.
    pub max_file_size_mb: u64,
    /// How many rotated files are kept.
    pub max_files: usize,
}

impl Default for LogConfig {
    /// The stock settings: `logs` directory, info level, both sinks, ten
    /// mebibytes per file, five files kept.
    fn default() -> (r: Self)
        ensures
            r.log_dir@ == "logs"@,
            r.level == LevelFilter::Info,
            r.console_output,
            r.file_output,
            r.max_file_size_mb == 10,
            r.max_files == 5,
    {
        LogConfig {
            log_dir: String::from_str("logs"),
            level: LevelFilter::Info,
            console_output: true,
            file_output: true,
            max_file_size_mb: 10,
            max_files: 5,
        }
    }
}

impl LogConfig {
    /// The stock settings.
    pub fn new() -> (r: Self)
        ensures
            r.log_dir@ == "logs"@,
            r.level == LevelFilter::Info,
            r.console_output,
            r.file_output,
            r.max_file_size_mb == 10,
            r.max_files == 5,
    {
        Self::default()
    }

    /// Replaces the log directory.
    pub fn with_log_dir(self, dir: &str) -> (r: Self)
        ensures
            r.log_dir@ == dir@,
            r.level == self.level,
            r.console_output == self.console_output,
            r.file_output == self.file_output,
            r.max_file_size_mb == self.max_file_size_mb,
            r.max_files == self.max_files,
    {
        LogConfig { log_dir: dir.to_owned(), ..self }
    }

    /// Replaces the verbosity gate.
    pub fn with_level(self, level: LevelFilter) -> (r: Self)
        ensures
            r.level == level,
            r.log_dir == self.log_dir,
            r.console_output == self.console_output,
            r.file_output == self.file_output,
            r.max_file_size_mb == self.max_file_size_mb,
            r.max_files == self.max_files,
    {
        LogConfig { level, ..self }
    }

    /// Switches console output.
    pub fn with_console_output(self, enabled: bool) -> (r: Self)
        ensures
            r.console_output == enabled,
            r.log_dir == self.log_dir,
            r.level == self.level,
            r.file_output == self.file_output,
            r.max_file_size_mb == self.max_file_size_mb,
            r.max_files == self.max_files,
    {
        LogConfig { console_output: enabled, ..self }
    }

    /// Switches file output.
    pub fn with_file_output(self, enabled: bool) -> (r: Self)
        ensures
            r.file_output == enabled,
            r.log_dir == self.log_dir,
            r.level == self.level,
            r.console_output == self.console_output,
            r.max_file_size_mb == self.max_file_size_mb,
            r.max_files == self.max_files,
    {
        LogConfig { file_output: enabled, ..self }
    }

    /// Replaces the per-file size bound.
    pub fn with_max_file_size_mb(self, size_mb: u64) -> (r: Self)
        ensures
            r.max_file_size_mb == size_mb,
            r.log_dir == self.log_dir,
            r.level == self.level,
            r.console_output == self.console_output,
            r.file_output == self.file_output,
            r.max_files == self.max_files,
    {
        LogConfig { max_file_size_mb: size_mb, ..self }
    }

    /// Replaces the kept-file count.
    pub fn with_max_files(self, count: usize) -> (r: Self)
        ensures
            r.max_files == count,
            r.log_dir == self.log_dir,
            r.level == self.level,
            r.console_output == self.console_output,
            r.file_output == self.file_output,
            r.max_file_size_mb == self.max_file_size_mb,
    {
        LogConfig { max_files: count, ..self }
    }
}

/// The name of the log file for a date: `app-`, the zero-padded date,
/// `.log`; a negative year keeps its sign.
pub open spec fn log_file_name(y: int, m: nat, d: nat) -> Seq<char> {
    "app-"@ + (if y < 0 {
        seq!['-'] + dec_pad_seq((-y) as nat, 4)
    } else {
        dec_pad_seq(y as nat, 4)
    }) + dec_pad_seq(m, 2) + dec_pad_seq(d, 2) + ".log"@
}

/// Holds the plain logger's settings.
pub struct LogManager {
    pub config: LogConfig,
}

impl LogManager {
    /// Builds the manager around the given settings.
    pub fn new(config: LogConfig) -> (r: Self)
        ensures
            r.config == config,
    {
        LogManager { config }
    }

    /// The file today's lines go to, under the configured directory.
    pub fn get_current_log_file(&self) -> (r: String)
        ensures
            exists|y: int, m: nat, d: nat|
                1 <= m <= 12 && 1 <= d <= 31 && r@ == #[trigger] join_seq(
                    self.config.log_dir@,
                    log_file_name(y, m, d),
                ),
    {
        let (y, m, d) = today_ymd();
        let mut name = String::from_str("app-");
        if y < 0 {
            proof {
                reveal_strlit("-");
            }
            name.append("-");
            let mag: u64 = (-(y as i64)) as u64;
            push_decimal_pad(&mut name, mag, 4);
        } else {
            push_decimal_pad(&mut name, y as u64, 4);
        }
        push_decimal_pad(&mut name, m as u64, 2);
        push_decimal_pad(&mut name, d as u64, 2);
        name.append(".log");
        proof {
            assert(name@ =~= log_file_name(y as int, m as nat, d as nat));
        }
        let r = crate::text::join_path(self.config.log_dir.as_str(), name.as_str());
        proof {
            assert(1 <= m as nat <= 12 && 1 <= d as nat <= 31 && r@ == join_seq(
                self.config.log_dir@,
                log_file_name(y as int, m as nat, d as nat),
            ));
        }
        r
    }
}

} // verus!
