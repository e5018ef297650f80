//! Startup decisions of the headless app: what a command-line error prints,
//! which log level is in force, how a broken saved proxy is recovered from,
//! and whether the previous run's live configuration must be restored.

use vstd::prelude::*;

verus! {

/// The exit status after a command-line error.
pub const USAGE_ERROR_EXIT_CODE: i32 = 2;

/// What is printed on standard error before the help text when the command
/// line is refused.
pub open spec fn usage_error_text_spec(message: Seq<char>) -> Seq<char> {
    "error: "@ + message + "\n"@
}

pub fn usage_error_text(message: &str) -> (r: String)
    ensures
        r@ == usage_error_text_spec(message@),
{
    let mut s = "error: ".to_owned();
    s.append(message);
    s.append("\n");
    s
}

/// Log levels, most quiet first.
#[derive(Debug, Clone, Copy, PartialEq, Eq)]
pub enum LogLevel {
    Off,
    Error,
    Warn,
    Info,
    Debug,
    Trace,
}

/// The log level once the stored logging configuration has been read: the
/// configured level, or `Info` when it could not be read.
pub open spec fn apply_log_level_spec(loaded: Result<LogLevel, Seq<char>>) -> LogLevel {
    match loaded {
        Ok(level) => level,
        Err(_) => LogLevel::Info,
    }
}

pub fn apply_log_level(loaded: Result<LogLevel, String>) -> (r: LogLevel)
    ensures
        r == apply_log_level_spec(
            match loaded {
                Ok(l) => Ok(l),
                Err(e) => Err(e@),
            },
        ),
{
    match loaded {
        Ok(level) => level,
        Err(_) => LogLevel::Info,
    }
}

/// What to do after the outbound proxy failed to start with the saved setting.
#[derive(Debug, Clone, Copy, PartialEq, Eq)]
pub struct ProxyRecovery {
    /// Erase the saved proxy URL, which is invalid.
    pub clear_saved_url: bool,
    /// Start again with a direct connection.
    pub retry_direct: bool,
}

/// The recovery after a failed start: a saved URL that could not be used is
/// cleared (there is nothing to clear when none was saved), and a direct
/// connection is always tried next.
pub fn plan_proxy_recovery(had_saved_url: bool) -> (r: ProxyRecovery)
    ensures
        r.clear_saved_url == had_saved_url,
        r.retry_direct,
{
    ProxyRecovery { clear_saved_url: had_saved_url, retry_direct: true }
}

/// Whether the previous run left its takeover of the live configuration
/// behind and it must be restored: when live backups exist (a failed check
/// counts as none) or the live configuration is still taken over.
pub open spec fn needs_live_recovery_spec(has_backups: Option<bool>, live_taken_over: bool) -> bool {
    has_backups == Some(true) || live_taken_over
}

pub fn needs_live_recovery(has_backups: Result<bool, String>, live_taken_over: bool) -> (r: bool)
    ensures
        r == needs_live_recovery_spec(
            match has_backups {
                Ok(b) => Some(b),
                Err(_) => None,
            },
            live_taken_over,
        ),
{
    let backups = match has_backups {
        Ok(v) => v,
        Err(_) => false,
    };
    backups || live_taken_over
}

} // verus!

verus! {

/// A taken-over live configuration is always recovered, whatever the backup
/// check says; existing backups are recovered too; and recovery runs for no
/// other reason.
pub proof fn live_recovery_runs_exactly_when_needed(
    has_backups: Option<bool>,
    live_taken_over: bool,
)
    ensures
        live_taken_over ==> needs_live_recovery_spec(has_backups, live_taken_over),
        has_backups == Some(true) ==> needs_live_recovery_spec(has_backups, live_taken_over),
        needs_live_recovery_spec(has_backups, live_taken_over) ==> live_taken_over || has_backups
            == Some(true),
{
}

} // verus!
