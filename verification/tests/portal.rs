use glacialcast::client::is_fatal_capture_error;
use glacialcast::portal::{
    check_response, cursor_description, default_mutter_connector, format_prop_pairs,
    granted_streams, list_mutter_connectors, marks_recordings, monitor_line,
    plan_portal_selection, portal_request_path, portal_token, prop_value, requested_connector,
    resolve_screencast_backend, select_mutter_cursor_mode, select_portal_cursor_mode,
    select_target, session_desktop_is_niri, stream_size, token_to_save, LogicalMonitor,
    PhysicalMonitor, PipewireNode, PortalCursorMode, PortalError, PortalSourceMode,
    PORTAL_CURSOR_EMBEDDED, PORTAL_CURSOR_HIDDEN, PORTAL_CURSOR_METADATA, PORTAL_PERSIST_DO_NOT,
    PORTAL_PERSIST_UNTIL_REVOKED,
};
use glacialcast::startup::ScreenCastBackend;

#[test]
fn portal_cursor_mode_prefers_metadata_and_accepts_explicit_embedded() {
    let available = PORTAL_CURSOR_HIDDEN | PORTAL_CURSOR_EMBEDDED | PORTAL_CURSOR_METADATA;
    assert_eq!(
        select_portal_cursor_mode(available, PortalCursorMode::Auto).unwrap(),
        PORTAL_CURSOR_METADATA
    );
    assert_eq!(
        select_portal_cursor_mode(available, PortalCursorMode::Embedded).unwrap(),
        PORTAL_CURSOR_EMBEDDED
    );
    assert_eq!(
        select_portal_cursor_mode(available, PortalCursorMode::Hidden).unwrap(),
        PORTAL_CURSOR_HIDDEN
    );
}

#[test]
fn portal_cursor_mode_rejects_unavailable_explicit_mode() {
    assert!(
        select_portal_cursor_mode(PORTAL_CURSOR_EMBEDDED, PortalCursorMode::Metadata).is_err()
    );
}

#[test]
fn mutter_cursor_mode_uses_mutter_numbering() {
    assert_eq!(select_mutter_cursor_mode(4, PortalCursorMode::Metadata).unwrap(), 2);
    assert_eq!(select_mutter_cursor_mode(4, PortalCursorMode::Embedded).unwrap(), 1);
    assert_eq!(select_mutter_cursor_mode(4, PortalCursorMode::Hidden).unwrap(), 0);
    assert!(select_mutter_cursor_mode(1, PortalCursorMode::Metadata).is_err());
}

#[test]
fn automatic_cursor_modes_fall_back() {
    assert_eq!(select_portal_cursor_mode(3, PortalCursorMode::Auto), Ok(2));
    assert_eq!(select_portal_cursor_mode(0, PortalCursorMode::Auto), Ok(1));
    assert_eq!(
        select_portal_cursor_mode(4, PortalCursorMode::Hidden),
        Err(PortalError::CursorModeUnavailable {
            preference: PortalCursorMode::Hidden,
            available: 4
        })
    );
    assert_eq!(select_mutter_cursor_mode(1, PortalCursorMode::Hidden), Ok(0));
    assert_eq!(PortalSourceMode::Monitor.mask(), 1);
    assert_eq!(PortalSourceMode::Window.mask(), 2);
    assert_eq!(PortalSourceMode::Any.mask(), 3);
    assert_eq!(PortalCursorMode::Auto.portal_value(), None);
    assert_eq!(PortalCursorMode::Metadata.portal_value(), Some(4));
    assert_eq!(cursor_description(2), "embedded cursor requested");
    assert_eq!(cursor_description(4), "cursor metadata requested");
    assert_eq!(cursor_description(1), "cursor hidden by portal");
}

#[test]
fn portal_selections_carry_the_remembered_grant() {
    let plan = |mode, cursor, store: Option<Option<String>>| {
        plan_portal_selection(mode, cursor, Some(2), Some(6), &store)
    };
    assert_eq!(
        plan(PortalSourceMode::Monitor, PortalCursorMode::Auto, None).err(),
        Some(PortalError::SourceUnavailable { mode: PortalSourceMode::Monitor, available: 2 })
    );
    assert_eq!(
        plan(PortalSourceMode::Any, PortalCursorMode::Hidden, None).err(),
        Some(PortalError::CursorModeUnavailable {
            preference: PortalCursorMode::Hidden,
            available: 6
        })
    );
    let fresh = plan(PortalSourceMode::Any, PortalCursorMode::Auto, None).unwrap();
    assert_eq!(fresh.source_mask, 2);
    assert_eq!(fresh.cursor_mode, 4);
    assert_eq!(fresh.persist_mode, PORTAL_PERSIST_DO_NOT);
    let remembered = plan(
        PortalSourceMode::Any,
        PortalCursorMode::Auto,
        Some(Some("token".to_string())),
    )
    .unwrap();
    assert_eq!(remembered.persist_mode, PORTAL_PERSIST_UNTIL_REVOKED);
    assert_eq!(remembered.restore_token.as_deref(), Some("token"));
    let empty = plan(PortalSourceMode::Any, PortalCursorMode::Auto, Some(None)).unwrap();
    assert_eq!(empty.persist_mode, PORTAL_PERSIST_UNTIL_REVOKED);
    assert_eq!(empty.restore_token, None);
    let silent =
        plan_portal_selection(PortalSourceMode::Any, PortalCursorMode::Auto, None, None, &None)
            .unwrap();
    assert_eq!((silent.source_mask, silent.cursor_mode), (3, 1));
}

#[test]
fn portal_failures_speak_for_themselves() {
    let refused = select_portal_cursor_mode(3, PortalCursorMode::Metadata).unwrap_err();
    assert_eq!(
        refused.text(),
        "requested portal cursor mode Metadata is not available; \
         portal advertised cursor mode mask 3"
    );
    let wrapped = vec!["opening the capture".to_string(), refused.text()];
    assert!(is_fatal_capture_error(&wrapped));
    let embedded = select_portal_cursor_mode(4, PortalCursorMode::Embedded).unwrap_err();
    assert!(!is_fatal_capture_error(&vec![embedded.text()]));
    assert_eq!(
        PortalError::SourceUnavailable { mode: PortalSourceMode::Window, available: 1 }.text(),
        "portal source mode Window is not available; portal advertised source mask 1"
    );
    assert_eq!(
        select_mutter_cursor_mode(-12, PortalCursorMode::Auto).unwrap_err().text(),
        "Mutter ScreenCast API version -12 does not support cursor-mode metadata"
    );
    assert_eq!(
        PortalError::MonitorRequired.text(),
        "--screencast-backend mutter currently requires --portal-source monitor"
    );
    assert_eq!(PortalError::NoStreams.text(), "portal returned no PipeWire streams");
    assert_eq!(
        check_response(2).unwrap_err().text(),
        "portal request failed or was cancelled with response code 2"
    );
}

#[test]
fn portal_answers_are_checked() {
    assert_eq!(check_response(0), Ok(()));
    assert_eq!(check_response(2), Err(PortalError::RequestFailed { response: 2 }));
    assert_eq!(token_to_save(Some("x".to_string())), Some("x".to_string()));
    assert_eq!(token_to_save(Some(String::new())), None);
    assert_eq!(token_to_save(None), None);
    assert_eq!(stream_size(Some((-3, 1080))), (1, 1080));
    assert_eq!(stream_size(None), (1, 1));
    assert_eq!(granted_streams(&vec![]), Err(PortalError::NoStreams));
    assert_eq!(
        granted_streams(&vec![Some((640, 480)), None]),
        Ok(vec![(640, 480), (1, 1)])
    );
}

#[test]
fn requests_are_addressed_by_sender_and_token() {
    assert_eq!(
        portal_request_path("::1.42.7", "glacialcast_request_9_5"),
        "/org/freedesktop/portal/desktop/request/1_42_7/glacialcast_request_9_5"
    );
    assert_eq!(portal_token("glacialcast_session", 17, 1_000), "glacialcast_session_17_1000");
}

#[test]
fn the_compositor_is_used_where_it_is_sanctioned() {
    assert!(session_desktop_is_niri("GNOME:Niri"));
    assert!(session_desktop_is_niri("niri"));
    assert!(!session_desktop_is_niri("niri-like:GNOME"));
    assert!(!session_desktop_is_niri(""));
    let resolve = |mode, niri, answers| {
        resolve_screencast_backend(ScreenCastBackend::Auto, mode, niri, answers)
    };
    assert_eq!(resolve(PortalSourceMode::Monitor, true, true), ScreenCastBackend::Mutter);
    assert_eq!(resolve(PortalSourceMode::Monitor, true, false), ScreenCastBackend::Portal);
    assert_eq!(resolve(PortalSourceMode::Window, true, true), ScreenCastBackend::Portal);
    assert_eq!(resolve(PortalSourceMode::Monitor, false, true), ScreenCastBackend::Portal);
    assert_eq!(
        resolve_screencast_backend(
            ScreenCastBackend::Mutter,
            PortalSourceMode::Any,
            false,
            false
        ),
        ScreenCastBackend::Mutter
    );
    assert!(marks_recordings(4));
    assert!(!marks_recordings(3));
    assert_eq!(
        requested_connector(PortalSourceMode::Any, &None),
        Err(PortalError::MonitorRequired)
    );
    assert_eq!(
        requested_connector(PortalSourceMode::Monitor, &Some(" DP-1 ".to_string())),
        Ok(Some("DP-1".to_string()))
    );
    assert_eq!(
        requested_connector(PortalSourceMode::Monitor, &Some("  ".to_string())),
        Ok(None)
    );
}

fn monitor(connector: &str) -> PhysicalMonitor {
    PhysicalMonitor {
        connector: connector.to_string(),
        vendor: "ACME".to_string(),
        product: "Screen".to_string(),
    }
}

fn region(primary: bool, connectors: &[&str]) -> LogicalMonitor {
    LogicalMonitor {
        primary,
        connectors: connectors.iter().map(|name| name.to_string()).collect(),
    }
}

#[test]
fn monitors_are_listed_with_the_primary_first() {
    let monitors = vec![monitor("DP-1"), monitor("DP-2"), monitor("DP-3")];
    let regions = vec![region(false, &["DP-1"]), region(true, &["DP-2"])];
    assert_eq!(list_mutter_connectors(&monitors, &regions), vec!["DP-2", "DP-1"]);
    assert_eq!(default_mutter_connector(&monitors, &regions).as_deref(), Some("DP-2"));
    assert_eq!(monitor_line("DP-2", &monitors, &regions), "DP-2\tACME Screen (primary)");
    assert_eq!(monitor_line("DP-1", &monitors, &regions), "DP-1\tACME Screen");
    assert_eq!(monitor_line("X", &monitors, &regions), "X\t");

    let unlit = vec![region(false, &["DP-1"])];
    assert_eq!(default_mutter_connector(&monitors, &unlit).as_deref(), Some("DP-1"));
    assert_eq!(list_mutter_connectors(&monitors, &vec![]), vec!["DP-1", "DP-2", "DP-3"]);
    assert_eq!(
        default_mutter_connector(&monitors, &vec![region(true, &[])]).as_deref(),
        Some("DP-1")
    );
    assert_eq!(default_mutter_connector(&vec![], &vec![]), None);
    let mirrored = vec![region(true, &["DP-1", "DP-1"]), region(false, &["DP-2"])];
    assert_eq!(list_mutter_connectors(&monitors, &mirrored), vec!["DP-1", "DP-2"]);
}

fn props(pairs: &[(&str, &str)]) -> Vec<(String, String)> {
    pairs
        .iter()
        .map(|(key, value)| (key.to_string(), value.to_string()))
        .collect()
}

#[test]
fn targets_are_found_by_serial_then_name_then_path() {
    let pairs = props(&[("node.name", "screen"), ("a", "1"), ("node.name", "later")]);
    assert_eq!(prop_value(&pairs, "node.name"), Some("screen"));
    assert_eq!(prop_value(&pairs, "absent"), None);
    assert_eq!(format_prop_pairs(&pairs), "a=1, node.name=later, node.name=screen");
    assert_eq!(format_prop_pairs(&vec![]), "");

    let nodes = vec![
        PipewireNode { id: 4, props: props(&[("object.path", "p"), ("node.name", "n")]) },
        PipewireNode { id: 9, props: props(&[("object.serial", "77"), ("node.name", "n")]) },
    ];
    assert_eq!(select_target(&nodes, 9), Some((1, Some("77".to_string()))));
    assert_eq!(select_target(&nodes, 4), Some((0, Some("n".to_string()))));
    assert_eq!(select_target(&nodes, 5), None);
    let only = vec![PipewireNode { id: 4, props: props(&[("object.path", "p")]) }];
    assert_eq!(select_target(&only, 5), Some((0, Some("p".to_string()))));
    assert_eq!(select_target(&vec![PipewireNode { id: 4, props: vec![] }], 5), Some((0, None)));
}
