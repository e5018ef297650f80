//! `POST /api/invoke` — the decisions of the HTTP face of the app's IPC.
//!
//! Every registered command is reachable over HTTP except the few that only
//! mean something for a native desktop window; those are refused by name with
//! `501 Not Implemented`. A dispatched command answers `200` with its output,
//! a failing command `400`, and a dispatch that could not run at all `500`.

use vstd::prelude::*;

use crate::text::str_eq;

verus! {

/// Commands that only mean something for a native desktop window: native
/// file pickers, the lightweight-mode window teardown, native title-bar
/// theming, and the desktop process lifecycle and updater.
pub const NATIVE_ONLY_COMMANDS: [&'static str; 10] = [
    "pick_directory",
    "save_file_dialog",
    "open_file_dialog",
    "open_zip_file_dialog",
    "enter_lightweight_mode",
    "exit_lightweight_mode",
    "set_window_theme",
    "restart_app",
    "install_update_and_restart",
    "check_app_update_available",
];

/// The names of the native-only commands.
pub open spec fn native_only_names() -> Seq<Seq<char>> {
    NATIVE_ONLY_COMMANDS@.map_values(|s: &str| s@)
}

pub fn is_native_only(cmd: &str) -> (r: bool)
    ensures
        r == native_only_names().contains(cmd@),
{
    let mut i: usize = 0;
    while i < 10
        invariant
            i <= 10,
            forall|j: int| 0 <= j < i ==> NATIVE_ONLY_COMMANDS@[j]@ != cmd@,
        decreases 10 - i,
    {
        if str_eq(NATIVE_ONLY_COMMANDS[i], cmd) {
            assert(native_only_names()[i as int] == cmd@);
            return true;
        }
        i = i + 1;
    }
    assert forall|j: int| 0 <= j < native_only_names().len() implies native_only_names()[j]
        != cmd@ by {
        assert(native_only_names()[j] == NATIVE_ONLY_COMMANDS@[j]@);
    }
    false
}

/// The message a refused command gets, as the `error` of the reply.
pub open spec fn unsupported_message(cmd: Seq<char>) -> Seq<char> {
    "command `"@ + cmd + "` is not supported in browser mode"@
}

/// What to do with an `/api/invoke` request for `cmd`.
pub enum InvokePlan {
    /// Answer at once with this status and error message.
    Reject { status: u16, message: String },
    /// Hand the command to the app's IPC.
    Dispatch,
}

pub fn plan_invoke(cmd: &str) -> (r: InvokePlan)
    ensures
        native_only_names().contains(cmd@) ==> (r matches InvokePlan::Reject { status, message }
            && status == 501 && message@ == unsupported_message(cmd@)),
        !native_only_names().contains(cmd@) ==> r is Dispatch,
{
    if is_native_only(cmd) {
        let mut message = "command `".to_owned();
        message.append(cmd);
        message.append("` is not supported in browser mode");
        InvokePlan::Reject { status: 501, message }
    } else {
        InvokePlan::Dispatch
    }
}

/// How a dispatched command came back.
#[derive(Debug, Clone, Copy, PartialEq, Eq)]
pub enum Dispatched {
    /// It succeeded with already-serialized JSON.
    Json,
    /// It succeeded with raw bytes.
    Raw,
    /// It ran and returned an error value.
    CommandError,
    /// The blocking task that ran it failed.
    TaskFailed,
}

/// The status line of the reply for a dispatch outcome.
pub open spec fn reply_status_spec(d: Dispatched) -> u16 {
    match d {
        Dispatched::Json => 200,
        Dispatched::Raw => 200,
        Dispatched::CommandError => 400,
        Dispatched::TaskFailed => 500,
    }
}

/// The `Content-Type` of the reply for a dispatch outcome: successes forward
/// their body as JSON text or as bytes; errors go out as a JSON envelope
/// `{"error": <value>}`.
pub open spec fn reply_content_type_spec(d: Dispatched) -> Seq<char> {
    match d {
        Dispatched::Raw => "application/octet-stream"@,
        _ => "application/json"@,
    }
}

/// Whether the reply wraps an error value in the `{"error": ...}` envelope.
pub open spec fn reply_is_error_envelope(d: Dispatched) -> bool {
    d is CommandError || d is TaskFailed
}

pub fn reply_status(d: Dispatched) -> (r: u16)
    ensures
        r == reply_status_spec(d),
{
    match d {
        Dispatched::Json => 200,
        Dispatched::Raw => 200,
        Dispatched::CommandError => 400,
        Dispatched::TaskFailed => 500,
    }
}

pub fn reply_content_type(d: Dispatched) -> (r: &'static str)
    ensures
        r@ == reply_content_type_spec(d),
{
    match d {
        Dispatched::Raw => "application/octet-stream",
        _ => "application/json",
    }
}

pub fn reply_is_envelope(d: Dispatched) -> (r: bool)
    ensures
        r == reply_is_error_envelope(d),
{
    match d {
        Dispatched::CommandError => true,
        Dispatched::TaskFailed => true,
        _ => false,
    }
}

/// The error message when the dispatch task itself failed.
pub open spec fn dispatch_failure_message_spec(detail: Seq<char>) -> Seq<char> {
    "command dispatch failed: "@ + detail
}

pub fn dispatch_failure_message(detail: &str) -> (r: String)
    ensures
        r@ == dispatch_failure_message_spec(detail@),
{
    let mut message = "command dispatch failed: ".to_owned();
    message.append(detail);
    message
}

} // verus!

verus! {

pub proof fn native_only_commands_are_distinct()
    ensures
        forall|i: int, j: int|
            0 <= i < j < native_only_names().len() ==> native_only_names()[i]
                != native_only_names()[j],
{
    reveal_strlit("pick_directory");
    reveal_strlit("save_file_dialog");
    reveal_strlit("open_file_dialog");
    reveal_strlit("open_zip_file_dialog");
    reveal_strlit("enter_lightweight_mode");
    reveal_strlit("exit_lightweight_mode");
    reveal_strlit("set_window_theme");
    reveal_strlit("restart_app");
    reveal_strlit("install_update_and_restart");
    reveal_strlit("check_app_update_available");
    assert(native_only_names()[0] == "pick_directory"@);
    assert(native_only_names()[1] == "save_file_dialog"@);
    assert(native_only_names()[2] == "open_file_dialog"@);
    assert(native_only_names()[3] == "open_zip_file_dialog"@);
    assert(native_only_names()[4] == "enter_lightweight_mode"@);
    assert(native_only_names()[5] == "exit_lightweight_mode"@);
    assert(native_only_names()[6] == "set_window_theme"@);
    assert(native_only_names()[7] == "restart_app"@);
    assert(native_only_names()[8] == "install_update_and_restart"@);
    assert(native_only_names()[9] == "check_app_update_available"@);
    assert forall|i: int, j: int| 0 <= i < j < native_only_names().len() implies native_only_names()[i]
        != native_only_names()[j] by {
        let a = native_only_names()[i];
        let b = native_only_names()[j];
        if a.len() == b.len() {
            if a[0] == b[0] {
                assert(a[1] != b[1]);
            } else {
                assert(a[0] != b[0]);
            }
        }
    }
}

} // verus!
