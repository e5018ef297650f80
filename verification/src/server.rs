//! Browser (server) mode: what the server prints when it starts, whether the
//! API needs a token, and where the built frontend is served from.

use vstd::prelude::*;

use crate::auth::AuthToken;
use crate::ip::{digits_text, push_digits, IpAddr};
use crate::options::{token_view, ServerOptions};

verus! {

/// Upper bound on an `/api/invoke` body: well above any real command payload
/// (config imports are the largest) while still bounding memory per request.
pub const MAX_INVOKE_BODY_BYTES: usize = 64 * 1024 * 1024;

/// The host to put in a URL: `0.0.0.0`/`::` cannot be opened by a browser, so
/// an unspecified address is shown as `127.0.0.1`.
pub open spec fn display_host_spec(host: IpAddr) -> Seq<char> {
    if host.is_unspecified_spec() {
        "127.0.0.1"@
    } else {
        host.text()
    }
}

pub fn display_host(options: &ServerOptions) -> (r: String)
    ensures
        r@ == display_host_spec(options.host),
{
    if options.host.is_unspecified() {
        "127.0.0.1".to_owned()
    } else {
        options.host.to_text()
    }
}

/// The URL that opens the UI: `http://<host>:<port>/`, with `?token=<token>`
/// when a token is required.
pub open spec fn server_url_spec(host: IpAddr, port: u16, token: Option<Seq<char>>) -> Seq<
    char,
> {
    "http://"@ + display_host_spec(host) + ":"@ + digits_text(port as nat, 10) + "/"@ + match token {
        Some(t) => "?token="@ + t,
        None => Seq::<char>::empty(),
    }
}

/// The URL of the UI for a server bound to `port`.
pub fn server_url(options: &ServerOptions, port: u16) -> (r: String)
    ensures
        r@ == server_url_spec(options.host, port, token_view(options.token)),
{
    let mut url = "http://".to_owned();
    let host = display_host(options);
    url.append(host.as_str());
    url.append(":");
    push_digits(&mut url, port as u32, 10);
    url.append("/");
    let ghost before = url@;
    match &options.token {
        Some(t) => {
            url.append("?token=");
            url.append(t.as_str());
        },
        None => {
            assert(url@ =~= before + Seq::<char>::empty());
        },
    }
    url
}

/// The lines that tell the user where the UI is.
pub open spec fn running_banner_spec(url: Seq<char>) -> Seq<char> {
    "\n  CC Switch is running at:\n\n    "@ + url + "\n"@
}

pub fn running_banner(url: &str) -> (r: String)
    ensures
        r@ == running_banner_spec(url@),
{
    let mut s = "\n  CC Switch is running at:\n\n    ".to_owned();
    s.append(url);
    s.append("\n");
    s
}

/// The warning for a non-loopback bind, which exposes the API to the network.
pub open spec fn exposure_warning_spec(host: IpAddr) -> Option<Seq<char>> {
    if host.is_loopback_spec() {
        None
    } else {
        Some(
            "  Warning: bound to "@ + host.text()
                + " — anyone who can reach this port and the\n  token above can change your provider configuration.\n"@,
        )
    }
}

pub fn exposure_warning(options: &ServerOptions) -> (r: Option<String>)
    ensures
        match r {
            Some(w) => exposure_warning_spec(options.host) == Some(w@),
            None => exposure_warning_spec(options.host) is None,
        },
{
    if options.host.is_loopback() {
        None
    } else {
        let mut s = "  Warning: bound to ".to_owned();
        let host = options.host.to_text();
        s.append(host.as_str());
        s.append(
            " — anyone who can reach this port and the\n  token above can change your provider configuration.\n",
        );
        Some(s)
    }
}

/// The token every `/api/*` request must carry: the one given with `--token`,
/// or none, in which case the API is open.
pub fn required_token(options: &ServerOptions) -> (r: Option<AuthToken>)
    ensures
        match r {
            Some(t) => options.token matches Some(raw) && t@ == raw@,
            None => options.token is None,
        },
{
    match &options.token {
        Some(raw) => Some(AuthToken::new(raw.as_str())),
        None => None,
    }
}

/// Where the built frontend is served from.
#[derive(Debug, Clone, Copy, PartialEq, Eq)]
pub enum StaticDirSource {
    /// The directory named by `CC_SWITCH_WEB_DIST`.
    EnvOverride,
    /// `dist/` beside the executable.
    ExeDist,
    /// `web/` beside the executable.
    ExeWeb,
}

/// The frontend directory to use, given what was found on disk: the
/// `CC_SWITCH_WEB_DIST` override when it is set (`Some`) and holds an
/// `index.html`; else, when the executable's directory is known (`Some`),
/// `dist/` and then `web/` beside it, the first that holds an `index.html`.
pub open spec fn choose_static_dir_spec(
    env_override_has_index: Option<bool>,
    beside_exe_have_index: Option<(bool, bool)>,
) -> Option<StaticDirSource> {
    if env_override_has_index == Some(true) {
        Some(StaticDirSource::EnvOverride)
    } else {
        match beside_exe_have_index {
            Some((dist, web)) => if dist {
                Some(StaticDirSource::ExeDist)
            } else if web {
                Some(StaticDirSource::ExeWeb)
            } else {
                None
            },
            None => None,
        }
    }
}

pub fn choose_static_dir(
    env_override_has_index: Option<bool>,
    beside_exe_have_index: Option<(bool, bool)>,
) -> (r: Option<StaticDirSource>)
    ensures
        r == choose_static_dir_spec(env_override_has_index, beside_exe_have_index),
{
    if let Some(true) = env_override_has_index {
        return Some(StaticDirSource::EnvOverride);
    }
    match beside_exe_have_index {
        Some((dist, web)) => {
            if dist {
                Some(StaticDirSource::ExeDist)
            } else if web {
                Some(StaticDirSource::ExeWeb)
            } else {
                None
            }
        },
        None => None,
    }
}

} // verus!

verus! {

/// The warning's text for a host.
pub open spec fn warning_text(host: IpAddr) -> Seq<char> {
    "  Warning: bound to "@ + host.text()
        + " — anyone who can reach this port and the\n  token above can change your provider configuration.\n"@
}

/// Every bind but a loopback one is warned about, in either family: no warning
/// exactly for `127.x.y.z` and `::1`; otherwise the warning names the host.
pub proof fn only_loopback_binds_go_unwarned(host: IpAddr)
    ensures
        exposure_warning_spec(host) is None <==> (host matches IpAddr::V4(a) && a.a == 127) || (
        host matches IpAddr::V6(a) && a.segments_spec() == seq![0u16, 0, 0, 0, 0, 0, 0, 1]),
        exposure_warning_spec(host) is Some ==> exposure_warning_spec(host) == Some(
            warning_text(host),
        ),
{
}

/// The frontend directory is chosen in a fixed order: the override exactly
/// when it is set and has an `index.html`; otherwise `dist/` beside the
/// executable whenever it has one, whatever `web/` holds; `web/` only when
/// `dist/` has none; nothing only when none of the three has one.
pub proof fn static_dir_order(
    env_override_has_index: Option<bool>,
    beside_exe_have_index: Option<(bool, bool)>,
)
    ensures
        (choose_static_dir_spec(env_override_has_index, beside_exe_have_index) == Some(
            StaticDirSource::EnvOverride,
        )) <==> env_override_has_index == Some(true),
        forall|web: bool|
            env_override_has_index != Some(true) && beside_exe_have_index == Some((true, web))
                ==> choose_static_dir_spec(env_override_has_index, beside_exe_have_index) == Some(
                StaticDirSource::ExeDist,
            ),
        (choose_static_dir_spec(env_override_has_index, beside_exe_have_index) == Some(
            StaticDirSource::ExeWeb,
        )) <==> (env_override_has_index != Some(true) && beside_exe_have_index == Some(
            (false, true),
        )),
        (choose_static_dir_spec(env_override_has_index, beside_exe_have_index) is None) <==> (
        env_override_has_index != Some(true) && (beside_exe_have_index is None
            || beside_exe_have_index == Some((false, false)))),
{
}

} // verus!
