use cli_switch::ip::{IpAddr, Ipv4Addr, Ipv6Addr};
use cli_switch::options::{
    default_host, parse, parse_host, parse_port, parse_token, ParseOutcome, ServerOptions,
    DEFAULT_PORT, HELP,
};

fn run(args: &[&str]) -> ServerOptions {
    match parse(args).unwrap() {
        ParseOutcome::Run(options) => options,
        ParseOutcome::Help => panic!("expected Run, got Help"),
    }
}

#[test]
fn defaults_to_loopback_and_ephemeral_port() {
    let options = run(&[]);
    assert_eq!(options.host, default_host());
    assert_eq!(options.port, DEFAULT_PORT);
    assert!(options.open);
}

#[test]
fn parses_port_in_both_forms() {
    assert_eq!(run(&["--port", "8080"]).port, 8080);
    assert_eq!(run(&["--port=8080"]).port, 8080);
    assert_eq!(run(&["-p", "8080"]).port, 8080);
}

#[test]
fn parses_host_in_both_forms() {
    let expected = IpAddr::V4(Ipv4Addr::new(0, 0, 0, 0));
    assert_eq!(run(&["--host", "0.0.0.0"]).host, expected);
    assert_eq!(run(&["--host=0.0.0.0"]).host, expected);
    assert_eq!(run(&["--host", "any"]).host, expected);
    assert_eq!(run(&["--host", "localhost"]).host, default_host());
}

#[test]
fn no_open_disables_browser_launch() {
    assert!(!run(&["--no-open"]).open);
}

#[test]
fn no_token_by_default() {
    assert_eq!(run(&[]).token, None);
}

#[test]
fn parses_token_in_both_forms() {
    assert_eq!(run(&["--token", "s3cret"]).token.as_deref(), Some("s3cret"));
    assert_eq!(run(&["--token=s3cret"]).token.as_deref(), Some("s3cret"));
}

/// `--token ""` would otherwise turn the check on while accepting an empty
/// bearer value, which is worse than either intent.
#[test]
fn rejects_an_empty_token() {
    assert!(parse(&["--token", ""]).is_err());
    assert!(parse(&["--token="]).is_err());
    assert!(parse(&["--token", "   "]).is_err());
    assert!(parse(&["--token"]).is_err());
}

#[test]
fn token_is_documented_in_help() {
    assert!(HELP.contains("--token"));
}

#[test]
fn help_short_circuits() {
    assert_eq!(parse(&["--help"]).unwrap(), ParseOutcome::Help);
    assert_eq!(parse(&["-h"]).unwrap(), ParseOutcome::Help);
}

#[test]
fn rejects_bad_input() {
    assert!(parse(&["--port", "70000"]).is_err());
    assert!(parse(&["--port", "abc"]).is_err());
    assert!(parse(&["--port"]).is_err());
    assert!(parse(&["--host", "not-an-ip"]).is_err());
    assert!(parse(&["--host"]).is_err());
    assert!(parse(&["--nope"]).is_err());
}

#[test]
fn error_messages_name_the_argument() {
    assert_eq!(parse(&["--port"]), Err("--port requires a value".to_string()));
    assert_eq!(parse(&["-p"]), Err("-p requires a value".to_string()));
    assert_eq!(
        parse(&["--port", "70000"]),
        Err("invalid port `70000` (expected 0-65535)".to_string())
    );
    assert_eq!(
        parse(&["--host=nowhere"]),
        Err("invalid host `nowhere` (expected an IP address)".to_string())
    );
    assert_eq!(
        parse(&["--token", " \t"]),
        Err("--token requires a non-empty value".to_string())
    );
    assert_eq!(parse(&["--nope"]), Err("unrecognized argument `--nope`".to_string()));
}

#[test]
fn arguments_are_read_left_to_right() {
    // The first bad argument wins, even before `--help`.
    assert_eq!(parse(&["--nope", "--help"]), Err("unrecognized argument `--nope`".to_string()));
    assert_eq!(parse(&["--help", "--nope"]), Ok(ParseOutcome::Help));
    // A later value replaces an earlier one.
    assert_eq!(run(&["--port", "1", "--port=2"]).port, 2);
    // A flag's value is taken as is, even when it looks like a flag.
    assert_eq!(run(&["--token", "--help"]).token.as_deref(), Some("--help"));
}

#[test]
fn all_flags_together() {
    let options = run(&["-p", "9000", "--host", "::1", "--no-open", "--token=abc"]);
    assert_eq!(options.port, 9000);
    assert_eq!(options.host, IpAddr::V6(Ipv6Addr::new(0, 0, 0, 0, 0, 0, 0, 1)));
    assert!(!options.open);
    assert_eq!(options.token.as_deref(), Some("abc"));
}

#[test]
fn port_parsing_follows_u16_from_str() {
    assert_eq!(parse_port("0"), Ok(0));
    assert_eq!(parse_port("65535"), Ok(65535));
    assert_eq!(parse_port("+80"), Ok(80));
    assert_eq!(parse_port("0080"), Ok(80));
    assert!(parse_port("65536").is_err());
    assert!(parse_port("").is_err());
    assert!(parse_port("+").is_err());
    assert!(parse_port("-1").is_err());
    assert!(parse_port(" 80").is_err());
    assert!(parse_port("99999999999999999999").is_err());
}

#[test]
fn token_parsing_refuses_only_blank_text() {
    assert_eq!(parse_token(" a "), Ok(" a ".to_string()));
    assert!(parse_token("\u{3000}\u{a0}\n").is_err());
    assert_eq!(parse_token("\u{200b}"), Ok("\u{200b}".to_string()));
}

#[test]
fn host_parsing_knows_the_aliases() {
    assert_eq!(parse_host("localhost"), Ok(IpAddr::V4(Ipv4Addr::new(127, 0, 0, 1))));
    assert_eq!(parse_host("any"), Ok(IpAddr::V4(Ipv4Addr::new(0, 0, 0, 0))));
    assert_eq!(parse_host("10.1.2.3"), Ok(IpAddr::V4(Ipv4Addr::new(10, 1, 2, 3))));
    assert!(parse_host("LOCALHOST").is_err());
}

#[test]
fn default_options_match_the_defaults() {
    let options = ServerOptions::default();
    assert_eq!(options.host, default_host());
    assert_eq!(options.port, 0);
    assert!(options.open);
    assert_eq!(options.token, None);
    assert_eq!(run(&[]), options);
}

#[test]
fn every_port_text_parses_back() {
    for n in [0u16, 1, 9, 10, 80, 443, 8080, 65535] {
        assert_eq!(parse_port(&n.to_string()), Ok(n));
    }
}

#[test]
fn flag_forms_agree_after_other_arguments() {
    assert_eq!(
        parse(&["--no-open", "--host", "::1", "--port", "81", "--token", "t"]),
        parse(&["--no-open", "--host=::1", "--port=81", "--token=t"])
    );
}
