use cli_switch::bridge::{
    dispatch_failure_message, is_native_only, plan_invoke, reply_content_type, reply_is_envelope,
    reply_status, Dispatched, InvokePlan, NATIVE_ONLY_COMMANDS,
};

#[test]
fn native_only_list_is_rejected() {
    for cmd in NATIVE_ONLY_COMMANDS {
        assert!(is_native_only(cmd), "{cmd} should be native-only");
    }
}

#[test]
fn ordinary_commands_are_allowed() {
    for cmd in [
        "get_providers",
        "switch_provider",
        "get_settings",
        "open_external",
        "get_mcp_servers",
    ] {
        assert!(!is_native_only(cmd), "{cmd} should be bridged");
    }
}

#[test]
fn native_only_list_has_no_duplicates() {
    let mut sorted = NATIVE_ONLY_COMMANDS.to_vec();
    sorted.sort_unstable();
    let total = sorted.len();
    sorted.dedup();
    assert_eq!(sorted.len(), total);
}

#[test]
fn near_misses_are_not_native_only() {
    assert!(!is_native_only(""));
    assert!(!is_native_only("restart_app "));
    assert!(!is_native_only("Restart_app"));
    assert!(!is_native_only("restart"));
}

#[test]
fn native_only_commands_are_refused_with_501() {
    match plan_invoke("pick_directory") {
        InvokePlan::Reject { status, message } => {
            assert_eq!(status, 501);
            assert_eq!(
                message,
                "command `pick_directory` is not supported in browser mode"
            );
        }
        InvokePlan::Dispatch => panic!("expected a rejection"),
    }
    assert!(matches!(plan_invoke("get_providers"), InvokePlan::Dispatch));
}

#[test]
fn replies_follow_the_dispatch_outcome() {
    assert_eq!(reply_status(Dispatched::Json), 200);
    assert_eq!(reply_status(Dispatched::Raw), 200);
    assert_eq!(reply_status(Dispatched::CommandError), 400);
    assert_eq!(reply_status(Dispatched::TaskFailed), 500);
    assert_eq!(reply_content_type(Dispatched::Json), "application/json");
    assert_eq!(reply_content_type(Dispatched::Raw), "application/octet-stream");
    assert_eq!(reply_content_type(Dispatched::CommandError), "application/json");
    assert!(!reply_is_envelope(Dispatched::Json));
    assert!(!reply_is_envelope(Dispatched::Raw));
    assert!(reply_is_envelope(Dispatched::CommandError));
    assert!(reply_is_envelope(Dispatched::TaskFailed));
}

#[test]
fn dispatch_failure_message_names_the_cause() {
    assert_eq!(
        dispatch_failure_message("task panicked"),
        "command dispatch failed: task panicked"
    );
}
