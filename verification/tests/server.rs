use cli_switch::options::{parse, ParseOutcome, ServerOptions};
use cli_switch::runtime::{
    apply_log_level, needs_live_recovery, plan_proxy_recovery, usage_error_text, LogLevel,
    USAGE_ERROR_EXIT_CODE,
};
use cli_switch::server::{
    choose_static_dir, display_host, exposure_warning, required_token, running_banner,
    server_url, StaticDirSource, MAX_INVOKE_BODY_BYTES,
};

fn run(args: &[&str]) -> ServerOptions {
    match parse(args).unwrap() {
        ParseOutcome::Run(options) => options,
        ParseOutcome::Help => panic!("expected Run, got Help"),
    }
}

#[test]
fn url_carries_host_port_and_token() {
    assert_eq!(server_url(&run(&[]), 5173), "http://127.0.0.1:5173/");
    assert_eq!(
        server_url(&run(&["--token", "s3cret"]), 8080),
        "http://127.0.0.1:8080/?token=s3cret"
    );
    assert_eq!(server_url(&run(&["--host", "10.0.0.2"]), 0), "http://10.0.0.2:0/");
    assert_eq!(server_url(&run(&["--host", "::1"]), 65535), "http://::1:65535/");
}

#[test]
fn unspecified_hosts_are_shown_as_loopback() {
    assert_eq!(display_host(&run(&["--host", "0.0.0.0"])), "127.0.0.1");
    assert_eq!(display_host(&run(&["--host", "::"])), "127.0.0.1");
    assert_eq!(display_host(&run(&["--host", "192.168.0.9"])), "192.168.0.9");
}

#[test]
fn banner_shows_the_url() {
    assert_eq!(
        running_banner("http://127.0.0.1:1/"),
        "\n  CC Switch is running at:\n\n    http://127.0.0.1:1/\n"
    );
}

#[test]
fn only_non_loopback_binds_warn() {
    assert_eq!(exposure_warning(&run(&[])), None);
    assert_eq!(exposure_warning(&run(&["--host", "::1"])), None);
    assert_eq!(
        exposure_warning(&run(&["--host", "any"])).as_deref(),
        Some(
            "  Warning: bound to 0.0.0.0 — anyone who can reach this port and the\n  token above can change your provider configuration.\n"
        )
    );
}

#[test]
fn the_api_is_open_unless_a_token_is_given() {
    assert!(required_token(&run(&[])).is_none());
    let token = required_token(&run(&["--token", "abc"])).unwrap();
    assert_eq!(token.as_str(), "abc");
    assert!(token.matches("abc"));
}

#[test]
fn static_dir_prefers_the_override_then_dist_then_web() {
    assert_eq!(choose_static_dir(Some(true), Some((true, true))), Some(StaticDirSource::EnvOverride));
    assert_eq!(choose_static_dir(Some(false), Some((true, true))), Some(StaticDirSource::ExeDist));
    assert_eq!(choose_static_dir(None, Some((false, true))), Some(StaticDirSource::ExeWeb));
    assert_eq!(choose_static_dir(None, Some((false, false))), None);
    assert_eq!(choose_static_dir(Some(false), None), None);
    assert_eq!(choose_static_dir(Some(true), None), Some(StaticDirSource::EnvOverride));
}

#[test]
fn body_limit_is_sixty_four_mebibytes() {
    assert_eq!(MAX_INVOKE_BODY_BYTES, 67_108_864);
}

#[test]
fn startup_decisions() {
    assert_eq!(usage_error_text("unrecognized argument `--x`"), "error: unrecognized argument `--x`\n");
    assert_eq!(USAGE_ERROR_EXIT_CODE, 2);
    assert_eq!(apply_log_level(Ok(LogLevel::Debug)), LogLevel::Debug);
    assert_eq!(apply_log_level(Err("unreadable".to_string())), LogLevel::Info);
    let plan = plan_proxy_recovery(true);
    assert!(plan.clear_saved_url && plan.retry_direct);
    let plan = plan_proxy_recovery(false);
    assert!(!plan.clear_saved_url && plan.retry_direct);
    assert!(needs_live_recovery(Ok(true), false));
    assert!(needs_live_recovery(Err("db".to_string()), true));
    assert!(!needs_live_recovery(Err("db".to_string()), false));
    assert!(!needs_live_recovery(Ok(false), false));
}
