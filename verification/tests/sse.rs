use cli_switch::sse::{is_bridged, BRIDGED_EVENTS, CHANNEL_CAPACITY};

#[test]
fn bridged_events_have_no_duplicates() {
    let mut sorted = BRIDGED_EVENTS.to_vec();
    sorted.sort_unstable();
    let total = sorted.len();
    sorted.dedup();
    assert_eq!(sorted.len(), total);
}

/// Event names with characters outside this set are refused by the event
/// bus, and event-stream frames are newline-delimited.
#[test]
fn bridged_event_names_are_wire_safe() {
    for name in BRIDGED_EVENTS {
        assert!(!name.is_empty());
        assert!(
            name.chars()
                .all(|c| c.is_ascii_alphanumeric() || matches!(c, '-' | '/' | ':' | '_')),
            "`{name}` is not a valid Tauri event name"
        );
    }
}

#[test]
fn only_listed_events_are_bridged() {
    for name in BRIDGED_EVENTS {
        assert!(is_bridged(name));
    }
    assert!(!is_bridged("tray-menu-updated"));
    assert!(!is_bridged(""));
    assert!(!is_bridged("provider-switched "));
    assert_eq!(CHANNEL_CAPACITY, 1024);
}
