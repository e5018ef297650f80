//! CLI options for the headless server.
//!
//! Hand-parsed: the surface is four flags (`--port`, `--host`, `--no-open`,
//! `--token`) plus `--help`, each value flag in both `--flag value` and
//! `--flag=value` form.

use vstd::prelude::*;

use crate::ip::{
    digits_text, ip_from_text, lemma_digits_text, localhost_v4, localhost_v4_spec, parse_ip,
    unspecified_v4, unspecified_v4_spec, IpAddr,
};
use crate::lexical::{all_dec_digits, dec_digits_in, dec_value, dec_value_upto, is_dec_digit};
use crate::text::{chars_of, has_prefix_at, str_eq, string_of};

verus! {

pub const DEFAULT_PORT: u16 = 0;

pub const HELP: &'static str = "\
cli-switch — Cli-Switch in your browser

USAGE:
    cli-switch [OPTIONS]

OPTIONS:
    -p, --port <PORT>    Port to listen on (default: an OS-assigned free port)
        --host <HOST>    Address to bind (default: 127.0.0.1). Binding a
                         non-loopback address exposes the API to your network.
        --no-open        Do not open a browser automatically
        --token <TOKEN>  Require this value as a bearer token on /api/*.
                         Unset by default: with no token, anyone who can reach
                         the port can read and change your provider
                         configuration, including API keys.
    -h, --help           Print this help
";

/// The address the server binds to unless told otherwise: `127.0.0.1`.
pub fn default_host() -> (r: IpAddr)
    ensures
        r == localhost_v4_spec(),
{
    localhost_v4()
}

#[derive(Debug, Clone, PartialEq, Eq)]
pub struct ServerOptions {
    pub host: IpAddr,
    pub port: u16,
    pub open: bool,
    pub token: Option<String>,
}

/// The options as plain values: host, port, whether to open a browser, token.
pub type OptionsView = (IpAddr, u16, bool, Option<Seq<char>>);

pub open spec fn token_view(t: Option<String>) -> Option<Seq<char>> {
    match t {
        Some(s) => Some(s@),
        None => None,
    }
}

impl View for ServerOptions {
    type V = OptionsView;

    open spec fn view(&self) -> OptionsView {
        (self.host, self.port, self.open, token_view(self.token))
    }
}

/// The defaults: loopback, an OS-assigned port, open a browser, no token.
pub open spec fn default_options_view() -> OptionsView {
    (localhost_v4_spec(), DEFAULT_PORT, true, None)
}

impl Default for ServerOptions {
    fn default() -> (r: Self)
        ensures
            r@ == default_options_view(),
    {
        ServerOptions { host: default_host(), port: DEFAULT_PORT, open: true, token: None }
    }
}

/// What `main` should do after parsing.
#[derive(Debug, PartialEq, Eq)]
pub enum ParseOutcome {
    Run(ServerOptions),
    Help,
}

/// A character with the Unicode `White_Space` property (what `char::is_whitespace`
/// and `str::trim` go by).
pub open spec fn is_whitespace(c: char) -> bool {
    let u = c as u32;
    (0x9 <= u && u <= 0xD) || u == 0x20 || u == 0x85 || u == 0xA0 || u == 0x1680 || (0x2000 <= u
        && u <= 0x200A) || u == 0x2028 || u == 0x2029 || u == 0x202F || u == 0x205F || u
        == 0x3000
}

/// Whether `s` trims to nothing: it holds only whitespace, or nothing at all.
pub open spec fn is_blank(s: Seq<char>) -> bool {
    forall|i: int| 0 <= i < s.len() ==> is_whitespace(#[trigger] s[i])
}

/// The port that `raw` spells, as `u16::from_str` reads it: an optional `+`,
/// then at least one decimal digit, with a value of at most 65535.
pub open spec fn port_spec(raw: Seq<char>) -> Option<u16> {
    let digits = if raw.len() > 0 && raw[0] == '+' {
        raw.drop_first()
    } else {
        raw
    };
    if digits.len() > 0 && all_dec_digits(digits) && dec_value(digits) <= 65535 {
        Some(dec_value(digits) as u16)
    } else {
        None
    }
}

/// The host that `raw` names: the aliases `localhost` and `any`, or IP text.
pub open spec fn host_spec(raw: Seq<char>) -> Option<IpAddr> {
    if raw == "localhost"@ {
        Some(localhost_v4_spec())
    } else if raw == "any"@ {
        Some(unspecified_v4_spec())
    } else {
        ip_from_text(raw)
    }
}

pub open spec fn requires_value_message(flag: Seq<char>) -> Seq<char> {
    flag + " requires a value"@
}

pub open spec fn invalid_port_message(raw: Seq<char>) -> Seq<char> {
    "invalid port `"@ + raw + "` (expected 0-65535)"@
}

pub open spec fn empty_token_message() -> Seq<char> {
    "--token requires a non-empty value"@
}

pub open spec fn invalid_host_message(raw: Seq<char>) -> Seq<char> {
    "invalid host `"@ + raw + "` (expected an IP address)"@
}

pub open spec fn unrecognized_message(arg: Seq<char>) -> Seq<char> {
    "unrecognized argument `"@ + arg + "`"@
}

/// `s` with `prefix` removed, when `s` starts with it.
pub open spec fn strip_prefix_spec(s: Seq<char>, prefix: Seq<char>) -> Option<Seq<char>> {
    if s.len() >= prefix.len() && s.take(prefix.len() as int) == prefix {
        Some(s.skip(prefix.len() as int))
    } else {
        None
    }
}

/// The options after applying a port value.
pub open spec fn with_port(st: OptionsView, raw: Seq<char>) -> Result<OptionsView, Seq<char>> {
    match port_spec(raw) {
        Some(p) => Ok((st.0, p, st.2, st.3)),
        None => Err(invalid_port_message(raw)),
    }
}

/// The options after applying a host value.
pub open spec fn with_host(st: OptionsView, raw: Seq<char>) -> Result<OptionsView, Seq<char>> {
    match host_spec(raw) {
        Some(h) => Ok((h, st.1, st.2, st.3)),
        None => Err(invalid_host_message(raw)),
    }
}

/// The options after applying a token value.
pub open spec fn with_token(st: OptionsView, raw: Seq<char>) -> Result<OptionsView, Seq<char>> {
    if is_blank(raw) {
        Err(empty_token_message())
    } else {
        Ok((st.0, st.1, st.2, Some(raw)))
    }
}

/// Parsing `args[i..]` with the options `st` gathered so far. `Ok(None)` is a
/// request for help, `Ok(Some(..))` the options to run with, `Err` the message
/// of the first bad argument. Arguments are read left to right; `-h`/`--help`
/// stops at once, a later value for a flag replaces an earlier one.
pub open spec fn parse_from(args: Seq<Seq<char>>, i: int, st: OptionsView) -> Result<
    Option<OptionsView>,
    Seq<char>,
>
    decreases args.len() - i,
{
    if i < 0 || i >= args.len() {
        Ok(Some(st))
    } else {
        let a = args[i];
        if a == "-h"@ || a == "--help"@ {
            Ok(None)
        } else if a == "--no-open"@ {
            parse_from(args, i + 1, (st.0, st.1, false, st.3))
        } else if a == "--token"@ || a == "-p"@ || a == "--port"@ || a == "--host"@ {
            if i + 1 >= args.len() {
                Err(requires_value_message(a))
            } else if a == "--token"@ {
                match with_token(st, args[i + 1]) {
                    Ok(st2) => parse_from(args, i + 2, st2),
                    Err(e) => Err(e),
                }
            } else if a == "--host"@ {
                match with_host(st, args[i + 1]) {
                    Ok(st2) => parse_from(args, i + 2, st2),
                    Err(e) => Err(e),
                }
            } else {
                match with_port(st, args[i + 1]) {
                    Ok(st2) => parse_from(args, i + 2, st2),
                    Err(e) => Err(e),
                }
            }
        } else if strip_prefix_spec(a, "--port="@) is Some {
            match with_port(st, strip_prefix_spec(a, "--port="@)->0) {
                Ok(st2) => parse_from(args, i + 1, st2),
                Err(e) => Err(e),
            }
        } else if strip_prefix_spec(a, "--host="@) is Some {
            match with_host(st, strip_prefix_spec(a, "--host="@)->0) {
                Ok(st2) => parse_from(args, i + 1, st2),
                Err(e) => Err(e),
            }
        } else if strip_prefix_spec(a, "--token="@) is Some {
            match with_token(st, strip_prefix_spec(a, "--token="@)->0) {
                Ok(st2) => parse_from(args, i + 1, st2),
                Err(e) => Err(e),
            }
        } else {
            Err(unrecognized_message(a))
        }
    }
}

/// The views of the arguments.
pub open spec fn args_view(args: Seq<&str>) -> Seq<Seq<char>> {
    args.map_values(|a: &str| a@)
}

/// What parsing `args` gives: help, options to run with, or an error message.
pub open spec fn parse_spec(args: Seq<Seq<char>>) -> Result<Option<OptionsView>, Seq<char>> {
    parse_from(args, 0, default_options_view())
}

/// A parse result as plain values, in the shape of `parse_spec`.
pub open spec fn outcome_view(r: Result<ParseOutcome, String>) -> Result<
    Option<OptionsView>,
    Seq<char>,
> {
    match r {
        Ok(ParseOutcome::Run(o)) => Ok(Some(o@)),
        Ok(ParseOutcome::Help) => Ok(None),
        Err(e) => Err(e@),
    }
}

/// `s` with `prefix` removed, when `s` starts with it.
fn strip_prefix(s: &str, prefix: &str) -> (r: Option<String>)
    ensures
        match r {
            Some(t) => strip_prefix_spec(s@, prefix@) == Some(t@),
            None => strip_prefix_spec(s@, prefix@) is None,
        },
{
    let v = chars_of(s);
    let p = chars_of(prefix);
    if has_prefix_at(&v, 0, &p) {
        assert(v@.subrange(0, p@.len() as int) =~= v@.take(p@.len() as int));
        let rest = string_of(&v, p.len(), v.len());
        assert(rest@ =~= v@.skip(p@.len() as int));
        Some(rest)
    } else {
        assert(v@.len() >= p@.len() ==> v@.subrange(0, p@.len() as int) =~= v@.take(
            p@.len() as int,
        ));
        None
    }
}

/// `first` followed by `rest`.
fn join2(first: &str, rest: &str) -> (r: String)
    ensures
        r@ == first@ + rest@,
{
    let mut s = first.to_owned();
    s.append(rest);
    s
}

/// `first`, `middle`, `last` in order.
fn join3(first: &str, middle: &str, last: &str) -> (r: String)
    ensures
        r@ == first@ + middle@ + last@,
{
    let mut s = first.to_owned();
    s.append(middle);
    s.append(last);
    s
}

/// Whether a character is whitespace in the sense of `char::is_whitespace`.
fn char_is_whitespace(c: char) -> (r: bool)
    ensures
        r == is_whitespace(c),
{
    let u = c as u32;
    (0x9 <= u && u <= 0xD) || u == 0x20 || u == 0x85 || u == 0xA0 || u == 0x1680 || (0x2000 <= u
        && u <= 0x200A) || u == 0x2028 || u == 0x2029 || u == 0x202F || u == 0x205F || u
        == 0x3000
}

/// Reads a port number.
pub fn parse_port(raw: &str) -> (r: Result<u16, String>)
    ensures
        match r {
            Ok(p) => port_spec(raw@) == Some(p),
            Err(e) => port_spec(raw@) is None && e@ == invalid_port_message(raw@),
        },
{
    let v = chars_of(raw);
    let n = v.len();
    let start: usize = if n > 0 && v[0] == '+' {
        1
    } else {
        0
    };
    assert(v@.subrange(start as int, n as int) =~= (if v@.len() > 0 && v@[0] == '+' {
        v@.drop_first()
    } else {
        v@
    }));
    if start < n && dec_digits_in(&v, start, n) {
        match dec_value_upto(&v, start, n, 65535) {
            Some(p) => {
                return Ok(p as u16);
            },
            None => {},
        }
    }
    Err(join3("invalid port `", raw, "` (expected 0-65535)"))
}

/// Reads a token: anything but blank text.
pub fn parse_token(raw: &str) -> (r: Result<String, String>)
    ensures
        match r {
            Ok(t) => !is_blank(raw@) && t@ == raw@,
            Err(e) => is_blank(raw@) && e@ == empty_token_message(),
        },
{
    let v = chars_of(raw);
    let mut i: usize = 0;
    while i < v.len()
        invariant
            v@ == raw@,
            i <= v@.len(),
            forall|j: int| 0 <= j < i ==> is_whitespace(#[trigger] v@[j]),
        decreases v@.len() - i,
    {
        if !char_is_whitespace(v[i]) {
            return Ok(raw.to_owned());
        }
        i = i + 1;
    }
    Err("--token requires a non-empty value".to_owned())
}

/// Reads a host: `localhost`, `any`, or an IP address.
pub fn parse_host(raw: &str) -> (r: Result<IpAddr, String>)
    ensures
        match r {
            Ok(h) => host_spec(raw@) == Some(h),
            Err(e) => host_spec(raw@) is None && e@ == invalid_host_message(raw@),
        },
{
    if str_eq(raw, "localhost") {
        return Ok(localhost_v4());
    }
    if str_eq(raw, "any") {
        return Ok(unspecified_v4());
    }
    match parse_ip(raw) {
        Some(h) => Ok(h),
        None => Err(join3("invalid host `", raw, "` (expected an IP address)")),
    }
}

/// Applies a port value to `options`.
fn apply_port(options: &mut ServerOptions, raw: &str) -> (r: Result<(), String>)
    ensures
        match with_port(old(options)@, raw@) {
            Ok(st) => r is Ok && final(options)@ == st,
            Err(e) => r matches Err(m) && m@ == e,
        },
{
    match parse_port(raw) {
        Ok(p) => {
            options.port = p;
            Ok(())
        },
        Err(e) => Err(e),
    }
}

/// Applies a host value to `options`.
fn apply_host(options: &mut ServerOptions, raw: &str) -> (r: Result<(), String>)
    ensures
        match with_host(old(options)@, raw@) {
            Ok(st) => r is Ok && final(options)@ == st,
            Err(e) => r matches Err(m) && m@ == e,
        },
{
    match parse_host(raw) {
        Ok(h) => {
            options.host = h;
            Ok(())
        },
        Err(e) => Err(e),
    }
}

/// Applies a token value to `options`.
fn apply_token(options: &mut ServerOptions, raw: &str) -> (r: Result<(), String>)
    ensures
        match with_token(old(options)@, raw@) {
            Ok(st) => r is Ok && final(options)@ == st,
            Err(e) => r matches Err(m) && m@ == e,
        },
{
    match parse_token(raw) {
        Ok(t) => {
            options.token = Some(t);
            Ok(())
        },
        Err(e) => Err(e),
    }
}

/// Parses the command-line arguments (without the program name).
pub fn parse(args: &[&str]) -> (r: Result<ParseOutcome, String>)
    ensures
        outcome_view(r) == parse_spec(args_view(args@)),
{
    let ghost av = args_view(args@);
    let mut options = ServerOptions::default();
    let mut i: usize = 0;
    while i < args.len()
        invariant
            av == args_view(args@),
            av.len() == args@.len(),
            i <= args@.len(),
            parse_spec(av) == parse_from(av, i as int, options@),
        decreases args@.len() - i,
    {
        let arg: &str = args[i];
        assert(av[i as int] == arg@);
        if str_eq(arg, "-h") || str_eq(arg, "--help") {
            return Ok(ParseOutcome::Help);
        } else if str_eq(arg, "--no-open") {
            options.open = false;
            i = i + 1;
        } else if str_eq(arg, "--token") || str_eq(arg, "-p") || str_eq(arg, "--port") || str_eq(
            arg,
            "--host",
        ) {
            if i + 1 >= args.len() {
                return Err(join2(arg, " requires a value"));
            }
            let raw: &str = args[i + 1];
            assert(av[i + 1] == raw@);
            let ghost st0 = options@;
            let ghost applied_spec = if arg@ == "--token"@ {
                with_token(st0, raw@)
            } else if arg@ == "--host"@ {
                with_host(st0, raw@)
            } else {
                with_port(st0, raw@)
            };
            assert(parse_from(av, i as int, st0) == match applied_spec {
                Ok(st2) => parse_from(av, i + 2, st2),
                Err(e) => Err(e),
            });
            let applied = if str_eq(arg, "--token") {
                apply_token(&mut options, raw)
            } else if str_eq(arg, "--host") {
                apply_host(&mut options, raw)
            } else {
                apply_port(&mut options, raw)
            };
            if let Err(e) = applied {
                assert(applied_spec == Err::<OptionsView, Seq<char>>(e@));
                return Err(e);
            }
            i = i + 2;
        } else if let Some(raw) = strip_prefix(arg, "--port=") {
            let ghost st0 = options@;
            assert(parse_from(av, i as int, st0) == match with_port(st0, raw@) {
                Ok(st2) => parse_from(av, i + 1, st2),
                Err(e) => Err(e),
            });
            if let Err(e) = apply_port(&mut options, raw.as_str()) {
                assert(with_port(st0, raw@) == Err::<OptionsView, Seq<char>>(e@));
                return Err(e);
            }
            i = i + 1;
        } else if let Some(raw) = strip_prefix(arg, "--host=") {
            let ghost st0 = options@;
            assert(parse_from(av, i as int, st0) == match with_host(st0, raw@) {
                Ok(st2) => parse_from(av, i + 1, st2),
                Err(e) => Err(e),
            });
            if let Err(e) = apply_host(&mut options, raw.as_str()) {
                assert(with_host(st0, raw@) == Err::<OptionsView, Seq<char>>(e@));
                return Err(e);
            }
            i = i + 1;
        } else if let Some(raw) = strip_prefix(arg, "--token=") {
            let ghost st0 = options@;
            assert(parse_from(av, i as int, st0) == match with_token(st0, raw@) {
                Ok(st2) => parse_from(av, i + 1, st2),
                Err(e) => Err(e),
            });
            if let Err(e) = apply_token(&mut options, raw.as_str()) {
                assert(with_token(st0, raw@) == Err::<OptionsView, Seq<char>>(e@));
                return Err(e);
            }
            i = i + 1;
        } else {
            return Err(join3("unrecognized argument `", arg, "`"));
        }
    }
    Ok(ParseOutcome::Run(options))
}

} // verus!

verus! {

/// Parsing looks only at the arguments from the current one on: parsing
/// `pre + rest` from index `pre.len() + j` is parsing `rest` from `j`.
pub proof fn lemma_parse_from_shift(
    pre: Seq<Seq<char>>,
    rest: Seq<Seq<char>>,
    j: int,
    st: OptionsView,
)
    requires
        0 <= j,
    ensures
        parse_from(pre + rest, pre.len() + j, st) == parse_from(rest, j, st),
    decreases rest.len() - j,
{
    let args = pre + rest;
    let i = pre.len() + j;
    if j < rest.len() {
        assert(args[i] == rest[j]);
        let a = rest[j];
        if a == "-h"@ || a == "--help"@ {
        } else if a == "--no-open"@ {
            lemma_parse_from_shift(pre, rest, j + 1, (st.0, st.1, false, st.3));
        } else if a == "--token"@ || a == "-p"@ || a == "--port"@ || a == "--host"@ {
            if j + 1 < rest.len() {
                assert(args[i + 1] == rest[j + 1]);
                let applied = if a == "--token"@ {
                    with_token(st, rest[j + 1])
                } else if a == "--host"@ {
                    with_host(st, rest[j + 1])
                } else {
                    with_port(st, rest[j + 1])
                };
                if let Ok(st2) = applied {
                    lemma_parse_from_shift(pre, rest, j + 2, st2);
                }
            }
        } else {
            let applied = if strip_prefix_spec(a, "--port="@) is Some {
                with_port(st, strip_prefix_spec(a, "--port="@)->0)
            } else if strip_prefix_spec(a, "--host="@) is Some {
                with_host(st, strip_prefix_spec(a, "--host="@)->0)
            } else {
                with_token(st, strip_prefix_spec(a, "--token="@)->0)
            };
            if let Ok(st2) = applied {
                lemma_parse_from_shift(pre, rest, j + 1, st2);
            }
        }
    }
}

/// `flag=value`, as one argument, is none of the bare flags.
proof fn lemma_joined_is_not_a_bare_flag(joined: Seq<char>, prefix: Seq<char>, value: Seq<char>)
    requires
        joined == prefix + value,
        prefix == "--port="@ || prefix == "--host="@ || prefix == "--token="@,
    ensures
        joined != "-h"@,
        joined != "--help"@,
        joined != "--no-open"@,
        joined != "--token"@,
        joined != "-p"@,
        joined != "--port"@,
        joined != "--host"@,
        strip_prefix_spec(joined, prefix) == Some(value),
{
    reveal_strlit("--port=");
    reveal_strlit("--host=");
    reveal_strlit("--token=");
    reveal_strlit("-h");
    reveal_strlit("--help");
    reveal_strlit("--no-open");
    reveal_strlit("--token");
    reveal_strlit("-p");
    reveal_strlit("--port");
    reveal_strlit("--host");
    assert(joined.take(prefix.len() as int) =~= prefix);
    assert(joined.skip(prefix.len() as int) =~= value);
    if prefix == "--port="@ {
        assert(joined[6] == '=');
    } else if prefix == "--host="@ {
        assert(joined[6] == '=');
    } else {
        assert(joined[7] == '=');
    }
}

/// The bare flags are different words.
proof fn lemma_flags_differ()
    ensures
        "--port"@ != "--host"@,
        "--port"@ != "--token"@,
        "--host"@ != "--token"@,
        "--port"@ != "-p"@,
        "--host"@ != "-p"@,
        "--token"@ != "-p"@,
        "--port"@ != "-h"@ && "--port"@ != "--help"@ && "--port"@ != "--no-open"@,
        "--host"@ != "-h"@ && "--host"@ != "--help"@ && "--host"@ != "--no-open"@,
        "--token"@ != "-h"@ && "--token"@ != "--help"@ && "--token"@ != "--no-open"@,
{
    reveal_strlit("--port");
    reveal_strlit("--token");
    reveal_strlit("--host");
    reveal_strlit("-h");
    reveal_strlit("--help");
    reveal_strlit("--no-open");
    reveal_strlit("-p");
    assert("--port"@[2] != "--host"@[2]);
    assert("--port"@[2] != "--help"@[2]);
    assert("--port"@.len() == 6);
    assert("--host"@.len() == 6);
    assert("--token"@.len() == 7);
    assert("-h"@.len() == 2);
    assert("-p"@.len() == 2);
    assert("--help"@.len() == 6);
    assert("--no-open"@.len() == 9);
    assert("--host"@[3] != "--help"@[3]);
}

/// `--port VALUE` and `--port=VALUE` mean the same: from any point between
/// arguments, with whatever options were gathered so far, the two spellings
/// followed by the same arguments give the same result.
pub proof fn port_flag_forms_agree(st: OptionsView, value: Seq<char>, rest: Seq<Seq<char>>)
    ensures
        parse_from(seq!["--port"@, value] + rest, 0, st) == parse_from(
            seq!["--port="@ + value] + rest,
            0,
            st,
        ),
{
    let spaced = seq!["--port"@, value] + rest;
    let joined = seq!["--port="@ + value] + rest;
    lemma_joined_is_not_a_bare_flag("--port="@ + value, "--port="@, value);
    lemma_flags_differ();
    reveal_strlit("--port");
    reveal_strlit("--token");
    reveal_strlit("--host");
    reveal_strlit("-h");
    reveal_strlit("--help");
    reveal_strlit("--no-open");
    reveal_strlit("-p");
    assert(spaced[0] == "--port"@);
    assert(spaced[1] == value);
    assert(joined[0] == "--port="@ + value);
    if let Ok(st2) = with_port(st, value) {
        lemma_parse_from_shift(seq!["--port"@, value], rest, 0, st2);
        lemma_parse_from_shift(seq!["--port="@ + value], rest, 0, st2);
    }
}

/// `--host VALUE` and `--host=VALUE` mean the same, in the sense of
/// `port_flag_forms_agree`.
pub proof fn host_flag_forms_agree(st: OptionsView, value: Seq<char>, rest: Seq<Seq<char>>)
    ensures
        parse_from(seq!["--host"@, value] + rest, 0, st) == parse_from(
            seq!["--host="@ + value] + rest,
            0,
            st,
        ),
{
    let spaced = seq!["--host"@, value] + rest;
    let joined = seq!["--host="@ + value] + rest;
    lemma_joined_is_not_a_bare_flag("--host="@ + value, "--host="@, value);
    lemma_flags_differ();
    reveal_strlit("--port");
    reveal_strlit("--token");
    reveal_strlit("--host");
    reveal_strlit("-h");
    reveal_strlit("--help");
    reveal_strlit("--no-open");
    reveal_strlit("-p");
    reveal_strlit("--port=");
    reveal_strlit("--host=");
    assert(spaced[0] == "--host"@);
    assert(spaced[1] == value);
    assert(joined[0] == "--host="@ + value);
    assert(strip_prefix_spec("--host="@ + value, "--port="@) is None) by {
        let j = "--host="@ + value;
        assert(j.take(7)[2] != "--port="@[2]);
    }
    if let Ok(st2) = with_host(st, value) {
        lemma_parse_from_shift(seq!["--host"@, value], rest, 0, st2);
        lemma_parse_from_shift(seq!["--host="@ + value], rest, 0, st2);
    }
}

/// `--token VALUE` and `--token=VALUE` mean the same, in the sense of
/// `port_flag_forms_agree`.
pub proof fn token_flag_forms_agree(st: OptionsView, value: Seq<char>, rest: Seq<Seq<char>>)
    ensures
        parse_from(seq!["--token"@, value] + rest, 0, st) == parse_from(
            seq!["--token="@ + value] + rest,
            0,
            st,
        ),
{
    let spaced = seq!["--token"@, value] + rest;
    let joined = seq!["--token="@ + value] + rest;
    lemma_joined_is_not_a_bare_flag("--token="@ + value, "--token="@, value);
    lemma_flags_differ();
    reveal_strlit("--port");
    reveal_strlit("--token");
    reveal_strlit("--host");
    reveal_strlit("-h");
    reveal_strlit("--help");
    reveal_strlit("--no-open");
    reveal_strlit("-p");
    reveal_strlit("--port=");
    reveal_strlit("--host=");
    reveal_strlit("--token=");
    assert(spaced[0] == "--token"@);
    assert(spaced[1] == value);
    assert(joined[0] == "--token="@ + value);
    assert(strip_prefix_spec("--token="@ + value, "--port="@) is None) by {
        let j = "--token="@ + value;
        assert(j.take(7)[2] != "--port="@[2]);
    }
    assert(strip_prefix_spec("--token="@ + value, "--host="@) is None) by {
        let j = "--token="@ + value;
        assert(j.take(7)[2] != "--host="@[2]);
    }
    if let Ok(st2) = with_token(st, value) {
        lemma_parse_from_shift(seq!["--token"@, value], rest, 0, st2);
        lemma_parse_from_shift(seq!["--token="@ + value], rest, 0, st2);
    }
}

/// Whether the token of a set of options, if any, is usable (not blank).
pub open spec fn token_is_usable(st: OptionsView) -> bool {
    st.3 matches Some(t) ==> !is_blank(t)
}

proof fn lemma_parse_from_keeps_usable_token(args: Seq<Seq<char>>, i: int, st: OptionsView)
    requires
        0 <= i,
        token_is_usable(st),
    ensures
        parse_from(args, i, st) matches Ok(Some(o)) ==> token_is_usable(o),
    decreases args.len() - i,
{
    if i < args.len() {
        let a = args[i];
        if a == "-h"@ || a == "--help"@ {
        } else if a == "--no-open"@ {
            lemma_parse_from_keeps_usable_token(args, i + 1, (st.0, st.1, false, st.3));
        } else if a == "--token"@ || a == "-p"@ || a == "--port"@ || a == "--host"@ {
            if i + 1 < args.len() {
                let applied = if a == "--token"@ {
                    with_token(st, args[i + 1])
                } else if a == "--host"@ {
                    with_host(st, args[i + 1])
                } else {
                    with_port(st, args[i + 1])
                };
                if let Ok(st2) = applied {
                    lemma_parse_from_keeps_usable_token(args, i + 2, st2);
                }
            }
        } else {
            let applied = if strip_prefix_spec(a, "--port="@) is Some {
                with_port(st, strip_prefix_spec(a, "--port="@)->0)
            } else if strip_prefix_spec(a, "--host="@) is Some {
                with_host(st, strip_prefix_spec(a, "--host="@)->0)
            } else {
                with_token(st, strip_prefix_spec(a, "--token="@)->0)
            };
            if let Ok(st2) = applied {
                lemma_parse_from_keeps_usable_token(args, i + 1, st2);
            }
        }
    }
}

/// Options that parse never carry a blank token: `--token ""` (or spaces
/// only) is refused rather than turning the check on with an empty value.
pub proof fn parsed_token_is_never_blank(args: Seq<Seq<char>>)
    ensures
        parse_spec(args) matches Ok(Some(o)) ==> token_is_usable(o),
{
    lemma_parse_from_keeps_usable_token(args, 0, default_options_view());
}

/// With no arguments the server runs with the defaults.
pub proof fn no_arguments_give_the_defaults()
    ensures
        parse_spec(Seq::<Seq<char>>::empty()) == Ok::<Option<OptionsView>, Seq<char>>(
            Some(default_options_view()),
        ),
{
}

} // verus!

verus! {

/// The decimal text of any port (as the port is printed, e.g. in the URL)
/// reads back as that port: `parse_port` returns `Ok(n)` on it.
pub proof fn port_text_parses_back(n: u16)
    ensures
        port_spec(digits_text(n as nat, 10)) == Some(n),
{
    lemma_digits_text(n as nat, 10);
    let t = digits_text(n as nat, 10);
    assert(is_dec_digit(t[0]));
    assert(all_dec_digits(t));
}

/// Parsing looks at arguments left to right: when the arguments `xs` parse to
/// options `st2` (from the options `st`), parsing `xs` followed by `rest`
/// is parsing `rest` from `st2`; when `xs` ask for help, so does `xs + rest`.
pub proof fn parse_continues_after_prefix(xs: Seq<Seq<char>>, rest: Seq<Seq<char>>, st: OptionsView)
    ensures
        parse_from(xs, 0, st) matches Ok(Some(st2)) ==> parse_from(xs + rest, 0, st) == parse_from(
            rest,
            0,
            st2,
        ),
        parse_from(xs, 0, st) == Ok::<Option<OptionsView>, Seq<char>>(None) ==> parse_from(
            xs + rest,
            0,
            st,
        ) == Ok::<Option<OptionsView>, Seq<char>>(None),
{
    lemma_prefix_from(xs, rest, 0, st);
}

proof fn lemma_prefix_from(xs: Seq<Seq<char>>, rest: Seq<Seq<char>>, i: int, st: OptionsView)
    requires
        0 <= i <= xs.len(),
    ensures
        parse_from(xs, i, st) matches Ok(Some(st2)) ==> parse_from(xs + rest, i, st) == parse_from(
            rest,
            0,
            st2,
        ),
        parse_from(xs, i, st) == Ok::<Option<OptionsView>, Seq<char>>(None) ==> parse_from(
            xs + rest,
            i,
            st,
        ) == Ok::<Option<OptionsView>, Seq<char>>(None),
    decreases xs.len() - i,
{
    let args = xs + rest;
    if i == xs.len() {
        lemma_parse_from_shift(xs, rest, 0, st);
    } else {
        assert(args[i] == xs[i]);
        let a = xs[i];
        if a == "-h"@ || a == "--help"@ {
        } else if a == "--no-open"@ {
            lemma_prefix_from(xs, rest, i + 1, (st.0, st.1, false, st.3));
        } else if a == "--token"@ || a == "-p"@ || a == "--port"@ || a == "--host"@ {
            if i + 1 < xs.len() {
                assert(args[i + 1] == xs[i + 1]);
                let applied = if a == "--token"@ {
                    with_token(st, xs[i + 1])
                } else if a == "--host"@ {
                    with_host(st, xs[i + 1])
                } else {
                    with_port(st, xs[i + 1])
                };
                if let Ok(st2) = applied {
                    lemma_prefix_from(xs, rest, i + 2, st2);
                }
            }
        } else {
            let applied = if strip_prefix_spec(a, "--port="@) is Some {
                with_port(st, strip_prefix_spec(a, "--port="@)->0)
            } else if strip_prefix_spec(a, "--host="@) is Some {
                with_host(st, strip_prefix_spec(a, "--host="@)->0)
            } else {
                with_token(st, strip_prefix_spec(a, "--token="@)->0)
            };
            if let Ok(st2) = applied {
                lemma_prefix_from(xs, rest, i + 1, st2);
            }
        }
    }
}

/// `--flag VALUE` and `--flag=VALUE` mean the same at any position: after any
/// arguments `xs` that parse to options, the two spellings followed by the
/// same arguments give the same result, for `--port`, `--host` and `--token`.
pub proof fn flag_forms_agree_after(
    xs: Seq<Seq<char>>,
    value: Seq<char>,
    rest: Seq<Seq<char>>,
)
    requires
        parse_spec(xs) is Ok,
        parse_spec(xs)->Ok_0 is Some,
    ensures
        parse_spec(xs + (seq!["--port"@, value] + rest)) == parse_spec(
            xs + (seq!["--port="@ + value] + rest),
        ),
        parse_spec(xs + (seq!["--host"@, value] + rest)) == parse_spec(
            xs + (seq!["--host="@ + value] + rest),
        ),
        parse_spec(xs + (seq!["--token"@, value] + rest)) == parse_spec(
            xs + (seq!["--token="@ + value] + rest),
        ),
{
    let st = default_options_view();
    let st2 = parse_spec(xs)->Ok_0->Some_0;
    parse_continues_after_prefix(xs, seq!["--port"@, value] + rest, st);
    parse_continues_after_prefix(xs, seq!["--port="@ + value] + rest, st);
    parse_continues_after_prefix(xs, seq!["--host"@, value] + rest, st);
    parse_continues_after_prefix(xs, seq!["--host="@ + value] + rest, st);
    parse_continues_after_prefix(xs, seq!["--token"@, value] + rest, st);
    parse_continues_after_prefix(xs, seq!["--token="@ + value] + rest, st);
    port_flag_forms_agree(st2, value, rest);
    host_flag_forms_agree(st2, value, rest);
    token_flag_forms_agree(st2, value, rest);
}

} // verus!

verus! {

/// A value flag changes only its own field: after `--port RAW` with a valid
/// port, parsing goes on with the options gathered so far, the port alone
/// replaced; host, browser and token are left as they were.
pub proof fn port_flag_changes_only_the_port(st: OptionsView, raw: Seq<char>, rest: Seq<Seq<char>>)
    requires
        port_spec(raw) is Some,
    ensures
        parse_from(seq!["--port"@, raw] + rest, 0, st) == parse_from(
            rest,
            0,
            (st.0, port_spec(raw)->0, st.2, st.3),
        ),
{
    let args = seq!["--port"@, raw] + rest;
    lemma_flags_differ();
    assert(args[0] == "--port"@);
    assert(args[1] == raw);
    lemma_parse_from_shift(seq!["--port"@, raw], rest, 0, (st.0, port_spec(raw)->0, st.2, st.3));
}

/// After `--host RAW` with a valid host, parsing goes on with only the host
/// replaced.
pub proof fn host_flag_changes_only_the_host(st: OptionsView, raw: Seq<char>, rest: Seq<Seq<char>>)
    requires
        host_spec(raw) is Some,
    ensures
        parse_from(seq!["--host"@, raw] + rest, 0, st) == parse_from(
            rest,
            0,
            (host_spec(raw)->0, st.1, st.2, st.3),
        ),
{
    let args = seq!["--host"@, raw] + rest;
    lemma_flags_differ();
    assert(args[0] == "--host"@);
    assert(args[1] == raw);
    lemma_parse_from_shift(seq!["--host"@, raw], rest, 0, (host_spec(raw)->0, st.1, st.2, st.3));
}

/// After `--token RAW` with a non-blank value, parsing goes on with only the
/// token replaced, by `RAW` exactly.
pub proof fn token_flag_changes_only_the_token(st: OptionsView, raw: Seq<char>, rest: Seq<Seq<char>>)
    requires
        !is_blank(raw),
    ensures
        parse_from(seq!["--token"@, raw] + rest, 0, st) == parse_from(
            rest,
            0,
            (st.0, st.1, st.2, Some(raw)),
        ),
{
    let args = seq!["--token"@, raw] + rest;
    lemma_flags_differ();
    assert(args[0] == "--token"@);
    assert(args[1] == raw);
    lemma_parse_from_shift(seq!["--token"@, raw], rest, 0, (st.0, st.1, st.2, Some(raw)));
}

/// `--host H --port P` with both valid runs with host `H`, port `P`, and the
/// remaining defaults: a later flag never resets an earlier one.
pub proof fn host_then_port_keeps_both(h: Seq<char>, p: Seq<char>)
    requires
        host_spec(h) is Some,
        port_spec(p) is Some,
    ensures
        parse_spec(seq!["--host"@, h, "--port"@, p]) == Ok::<Option<OptionsView>, Seq<char>>(
            Some((host_spec(h)->0, port_spec(p)->0, true, None)),
        ),
{
    let empty = Seq::<Seq<char>>::empty();
    let st0 = default_options_view();
    let st1 = (host_spec(h)->0, st0.1, st0.2, st0.3);
    assert(seq!["--host"@, h, "--port"@, p] =~= seq!["--host"@, h] + (seq!["--port"@, p] + empty));
    host_flag_changes_only_the_host(st0, h, seq!["--port"@, p] + empty);
    port_flag_changes_only_the_port(st1, p, empty);
}

} // verus!
