//! Parsed startup flags, and the logging decisions they determine: which
//! sinks to wire, and how verbose to be.

use vstd::prelude::*;

verus! {

/// The startup flags the process takes.  Parsing them out of the command
/// line is the host's business; this core only reads them.
#[derive(Clone, Copy, Debug, PartialEq, Eq, Structural, Default)]
pub struct Options {
    /// Log everything.
    pub debug: bool,
    /// Log nothing to the terminal; other sinks still work.
    pub silent: bool,
    /// How many times verbosity was raised.
    pub verbose: u8,
    /// How many times verbosity was lowered.
    pub quiet: u8,
    /// Force colorful terminal output.
    pub color: bool,
    /// Also log to the system log.
    pub syslog: bool,
    /// Also log to the journal.
    pub journald: bool,
}

/// A log severity, most severe first.
#[derive(Clone, Copy, Debug, PartialEq, Eq, Structural)]
pub enum Level {
    /// The process cannot go on.
    Critical,
    /// An operation failed.
    Error,
    /// Something looks wrong.
    Warning,
    /// Ordinary progress.
    Info,
    /// Development detail.
    Debug,
    /// Everything.
    Trace,
}

/// How much the configured verbosity lets through.
#[derive(Clone, Copy, Debug, PartialEq, Eq, Structural)]
pub enum LogFilter {
    /// No filtering at all.
    Everything,
    /// Only records at this severity or above.
    AtMost(Level),
    /// Nothing at all.
    Nothing,
}

/// The verbosity filter the flags select: debug mode passes everything;
/// otherwise the verbose count minus the quiet count picks the level,
/// from nothing at all below critical up to full tracing.
pub fn log_filter(options: &Options) -> (r: LogFilter)
    ensures
        r == ({
            let total = options.verbose as int - options.quiet as int;
            if options.debug {
                LogFilter::Everything
            } else if total < -3 {
                LogFilter::Nothing
            } else if total == -3 {
                LogFilter::AtMost(Level::Critical)
            } else if total == -2 {
                LogFilter::AtMost(Level::Error)
            } else if total == -1 {
                LogFilter::AtMost(Level::Warning)
            } else if total == 0 {
                LogFilter::AtMost(Level::Info)
            } else if total == 1 {
                LogFilter::AtMost(Level::Debug)
            } else {
                LogFilter::AtMost(Level::Trace)
            }
        }),
{
    if options.debug {
        return LogFilter::Everything;
    }
    let total: i32 = options.verbose as i32 - options.quiet as i32;
    if total < -3 {
        LogFilter::Nothing
    } else if total == -3 {
        LogFilter::AtMost(Level::Critical)
    } else if total == -2 {
        LogFilter::AtMost(Level::Error)
    } else if total == -1 {
        LogFilter::AtMost(Level::Warning)
    } else if total == 0 {
        LogFilter::AtMost(Level::Info)
    } else if total == 1 {
        LogFilter::AtMost(Level::Debug)
    } else {
        LogFilter::AtMost(Level::Trace)
    }
}

/// Which sinks the flags wire up.
#[derive(Clone, Copy, Debug, PartialEq, Eq, Structural)]
pub struct SinkPlan {
    /// Log to the terminal.
    pub term: bool,
    /// Also log to the system log.
    pub syslog: bool,
    /// Also log to the journal.
    pub journald: bool,
}

/// The sinks the flags select: silent mode drops the terminal sink but
/// leaves the system sinks alone.
pub fn sink_plan(options: &Options) -> (r: SinkPlan)
    ensures
        r.term == !options.silent,
        r.syslog == options.syslog,
        r.journald == options.journald,
{
    SinkPlan { term: !options.silent, syslog: options.syslog, journald: options.journald }
}

/// Which browser console method a record of each severity goes to.
#[derive(Clone, Copy, Debug, PartialEq, Eq, Structural)]
pub enum ConsoleMethod {
    /// `console.error`.
    Error,
    /// `console.warn`.
    Warn,
    /// `console.info`.
    Info,
    /// `console.log`.
    Log,
}

/// Routes one record's severity to the browser console: failures to the
/// error method, warnings to the warning method, progress to the info
/// method, everything else to the plain log method.
pub fn console_method(level: Level) -> (r: ConsoleMethod)
    ensures
        r == (match level {
            Level::Critical | Level::Error => ConsoleMethod::Error,
            Level::Warning => ConsoleMethod::Warn,
            Level::Info => ConsoleMethod::Info,
            Level::Debug | Level::Trace => ConsoleMethod::Log,
        }),
{
    match level {
        Level::Critical | Level::Error => ConsoleMethod::Error,
        Level::Warning => ConsoleMethod::Warn,
        Level::Info => ConsoleMethod::Info,
        Level::Debug | Level::Trace => ConsoleMethod::Log,
    }
}

} // verus!
