//! `GET /api/events` — which of the app's events reach the browser.
//!
//! The browser backs the frontend's event listeners with a single
//! `EventSource` on this route and fans events out by name, so the server keeps
//! one subscription per bridged event name per connected tab.

use vstd::prelude::*;

use crate::text::str_eq;

verus! {

/// Events the backend emits to the frontend. Listed explicitly (instead of a
/// catch-all) to keep internal chatter off the wire.
pub const BRIDGED_EVENTS: [&'static str; 12] = [
    "provider-switched",
    "profile-applied",
    "universal-provider-synced",
    "proxy-flags-changed",
    "proxy-official-warning",
    "usage-cache-updated",
    "usage-log-recorded",
    "webdav-sync-status-updated",
    "s3-sync-status-updated",
    "update-download-progress",
    "deeplink-import",
    "deeplink-error",
];

/// Buffered events per connection: enough to absorb a burst without growing
/// without bound when a client stops reading.
pub const CHANNEL_CAPACITY: usize = 1024;

/// The names of the bridged events.
pub open spec fn bridged_names() -> Seq<Seq<char>> {
    BRIDGED_EVENTS@.map_values(|s: &str| s@)
}

/// A character an event name may hold: the app's event bus accepts ASCII
/// letters and digits and `-`, `/`, `:`, `_`; none of them breaks a
/// newline-delimited event-stream frame.
pub open spec fn is_event_name_char(c: char) -> bool {
    ('a' <= c && c <= 'z') || ('A' <= c && c <= 'Z') || ('0' <= c && c <= '9') || c == '-' || c
        == '/' || c == ':' || c == '_'
}

/// A name that can be subscribed to and sent in a frame as it is.
pub open spec fn is_wire_safe_name(name: Seq<char>) -> bool {
    name.len() > 0 && forall|k: int| 0 <= k < name.len() ==> is_event_name_char(#[trigger] name[k])
}

/// Whether an event named `name` is forwarded to the browser.
pub fn is_bridged(name: &str) -> (r: bool)
    ensures
        r == bridged_names().contains(name@),
{
    let mut i: usize = 0;
    while i < 12
        invariant
            i <= 12,
            forall|j: int| 0 <= j < i ==> BRIDGED_EVENTS@[j]@ != name@,
        decreases 12 - i,
    {
        if str_eq(BRIDGED_EVENTS[i], name) {
            assert(bridged_names()[i as int] == name@);
            return true;
        }
        i = i + 1;
    }
    assert forall|j: int| 0 <= j < bridged_names().len() implies bridged_names()[j] != name@ by {
        assert(bridged_names()[j] == BRIDGED_EVENTS@[j]@);
    }
    false
}

proof fn reveal_bridged_names()
    ensures
        bridged_names()[0] == "provider-switched"@,
        bridged_names()[1] == "profile-applied"@,
        bridged_names()[2] == "universal-provider-synced"@,
        bridged_names()[3] == "proxy-flags-changed"@,
        bridged_names()[4] == "proxy-official-warning"@,
        bridged_names()[5] == "usage-cache-updated"@,
        bridged_names()[6] == "usage-log-recorded"@,
        bridged_names()[7] == "webdav-sync-status-updated"@,
        bridged_names()[8] == "s3-sync-status-updated"@,
        bridged_names()[9] == "update-download-progress"@,
        bridged_names()[10] == "deeplink-import"@,
        bridged_names()[11] == "deeplink-error"@,
        bridged_names().len() == 12,
{
}

/// No event is subscribed twice, so no event reaches a tab twice.
pub proof fn bridged_events_are_distinct()
    ensures
        forall|i: int, j: int|
            0 <= i < j < bridged_names().len() ==> bridged_names()[i] != bridged_names()[j],
{
    reveal_bridged_names();
    reveal_strlit("provider-switched");
    reveal_strlit("profile-applied");
    reveal_strlit("universal-provider-synced");
    reveal_strlit("proxy-flags-changed");
    reveal_strlit("proxy-official-warning");
    reveal_strlit("usage-cache-updated");
    reveal_strlit("usage-log-recorded");
    reveal_strlit("webdav-sync-status-updated");
    reveal_strlit("s3-sync-status-updated");
    reveal_strlit("update-download-progress");
    reveal_strlit("deeplink-import");
    reveal_strlit("deeplink-error");
    assert forall|i: int, j: int| 0 <= i < j < bridged_names().len() implies bridged_names()[i]
        != bridged_names()[j] by {
        let a = bridged_names()[i];
        let b = bridged_names()[j];
        if a.len() == b.len() {
            assert(a[0] != b[0]);
        }
    }
}

/// Every bridged event name is one the event bus accepts and a frame carries
/// intact: non-empty, of letters, digits, `-`, `/`, `:` and `_` only.
pub proof fn bridged_event_names_are_wire_safe()
    ensures
        forall|i: int| 0 <= i < bridged_names().len() ==> is_wire_safe_name(#[trigger] bridged_names()[i]),
{
    reveal_bridged_names();
    reveal_strlit("provider-switched");
    reveal_strlit("profile-applied");
    reveal_strlit("universal-provider-synced");
    reveal_strlit("proxy-flags-changed");
    reveal_strlit("proxy-official-warning");
    reveal_strlit("usage-cache-updated");
    reveal_strlit("usage-log-recorded");
    reveal_strlit("webdav-sync-status-updated");
    reveal_strlit("s3-sync-status-updated");
    reveal_strlit("update-download-progress");
    reveal_strlit("deeplink-import");
    reveal_strlit("deeplink-error");
    assert(is_wire_safe_name("provider-switched"@));
}

} // verus!
