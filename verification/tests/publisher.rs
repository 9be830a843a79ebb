use std::time::Duration;

use glacialcast::cadence::{AdaptiveMediaCadence, MediaCadenceDecision};
use glacialcast::client::{
    connection_failed, is_fatal_capture_error, is_fatal_dash_error, reconnect_delay, source_failed,
    url_encode_fragment, ConnectionRetry, FailureAction, NativeRetry,
};
use glacialcast::identity::{
    client_daemon_socket, client_state_dir, default_log_file, default_portal_token_file,
    default_viewer_key_file, history_lock_path, invite_link, non_empty_trimmed,
    normalize_endpoint, normalize_relay, parse_cursor_flush_ms, read_viewer_key,
    sanitize_source_label, sharing_summary, stream_display_name, viewer_key_action,
    viewer_key_contents, ClientIdentity, KeyFileAction, PortalRestoreToken, ViewerKeyFile,
    ViewerKeyMaterial,
};
use glacialcast::client::MAX_PORTAL_RESTORE_TOKEN_LEN;
use glacialcast::startup::{
    connector_labels, plan_targets, portal_labels, resolve_client_identity, startup_action,
    CaptureMode, HistoryLimits, IdentitySettings, KeyFilePlan, ScreenCastBackend, StartupAction,
    StartupError, StartupOptions, TargetPlan, ViewerKeyPlan,
};

fn invite_identity(viewer_url: Option<&str>, key: Option<&str>) -> ClientIdentity {
    ClientIdentity {
        client_id: "invite".to_string(),
        auth_token: None,
        ingest_server_key: None,
        viewer_key_b64: None,
        viewer_key_shareable: key.map(str::to_string),
        viewer_key_salt_b64: None,
        display_name: "Invite".to_string(),
        viewer_key_file: None,
        viewer_url: viewer_url.map(str::to_string),
        config_path: None,
        all_monitors: false,
    }
}

#[test]
fn native_reconnect_backoff_is_fast_then_bounded() {
    assert_eq!(reconnect_delay(0), Duration::from_millis(250));
    assert_eq!(reconnect_delay(5), Duration::from_secs(8));
    assert_eq!(reconnect_delay(u32::MAX), Duration::from_secs(8));
}

#[test]
fn every_attempt_doubles_until_the_bound() {
    assert_eq!(reconnect_delay(1), Duration::from_millis(500));
    assert_eq!(reconnect_delay(4), Duration::from_secs(4));
    assert_eq!(reconnect_delay(6), Duration::from_secs(8));
}

#[test]
fn lost_publications_wait_longer_and_stop_when_asked() {
    let mut retry = NativeRetry::new();
    assert_eq!(retry.publication_lost(false), Some(Duration::from_millis(250)));
    assert_eq!(retry.publication_lost(false), Some(Duration::from_millis(500)));
    assert_eq!(retry.publication_lost(true), None);
    assert_eq!(retry.attempt, 2);
}

#[test]
fn dropped_connections_wait_with_jitter_up_to_half_a_minute() {
    let mut retry = ConnectionRetry::new();
    let short = Duration::from_secs(1);
    assert_eq!(retry.wait_after_drop(short, 1_234), 1_234);
    assert_eq!(retry.wait_after_drop(short, 0), 2_000);
    for _ in 0..10 {
        retry.wait_after_drop(short, 0);
    }
    assert_eq!(retry.wait_after_drop(short, 499), 30_499);
    // A connection that lasted a minute starts over.
    assert_eq!(retry.wait_after_drop(Duration::from_secs(60), 0), 1_000);
    let wait = retry.connection_dropped(short);
    assert!((2_000..2_500).contains(&wait));
}

#[test]
fn jitter_differs_between_drops() {
    let mut seen = Vec::new();
    for _ in 0..40 {
        seen.push(ConnectionRetry::new().connection_dropped(Duration::from_secs(1)));
    }
    let first = seen[0];
    assert!(seen.iter().any(|wait| *wait != first));
    assert!(seen.iter().all(|wait| (1_000..1_500).contains(wait)));
}

#[test]
fn invite_link_carries_the_key_in_the_fragment() {
    let identity = invite_identity(Some("https://cast.example.com"), Some("tomb-bold-egg"));
    assert_eq!(
        invite_link(&identity).as_deref(),
        Some("https://cast.example.com/#k=tomb-bold-egg"),
    );
}

#[test]
fn invite_link_does_not_double_the_separator() {
    let identity = invite_identity(Some("https://cast.example.com/"), Some("tomb-bold-egg"));
    assert_eq!(
        invite_link(&identity).as_deref(),
        Some("https://cast.example.com/#k=tomb-bold-egg"),
    );
}

#[test]
fn invite_link_needs_both_a_url_and_a_key() {
    assert_eq!(invite_link(&invite_identity(None, Some("phrase"))), None);
    assert_eq!(
        invite_link(&invite_identity(Some("https://cast.example.com"), None)),
        None,
    );
}

#[test]
fn invite_link_encodes_a_hand_chosen_phrase() {
    let identity = invite_identity(Some("https://cast.example.com"), Some("two words&k=x #y"));
    assert_eq!(
        invite_link(&identity).as_deref(),
        Some("https://cast.example.com/#k=two%20words%26k%3Dx%20%23y"),
    );
}

#[test]
fn invite_link_leaves_generated_keys_untouched() {
    assert_eq!(
        url_encode_fragment("tomb-bold-egg-inch-fuse-man-eager"),
        "tomb-bold-egg-inch-fuse-man-eager"
    );
    assert_eq!(
        url_encode_fragment("QCOivvKXAHqxDo6Wogi8d81yx14wCM-2NkaXvJjOSiM"),
        "QCOivvKXAHqxDo6Wogi8d81yx14wCM-2NkaXvJjOSiM",
    );
}

#[test]
fn fragments_encode_every_byte_of_other_characters() {
    assert_eq!(url_encode_fragment("\u{e9}~._"), "%C3%A9~._");
    assert_eq!(url_encode_fragment("100% #1"), "100%25%20%231");
}

#[test]
fn encoded_fragments_decode_to_what_was_encoded() {
    for value in ["", "tomb-bold-egg", "50% of \u{20ac}1 / #?&", "%41"] {
        let encoded = url_encode_fragment(value);
        let mut bytes: Vec<u8> = Vec::new();
        let mut rest = encoded.as_str();
        while let Some(first) = rest.chars().next() {
            if first == '%' {
                bytes.push(u8::from_str_radix(&rest[1..3], 16).unwrap());
                rest = &rest[3..];
            } else {
                bytes.push(first as u8);
                rest = &rest[1..];
            }
        }
        assert_eq!(bytes, value.as_bytes());
    }
}

#[test]
fn unavailable_required_portal_cursor_metadata_is_fatal() {
    let chain = vec![
        "requested portal cursor mode Metadata is not available; portal advertised cursor mode mask 3"
            .to_string(),
    ];
    assert!(is_fatal_capture_error(&chain));
}

#[test]
fn missing_required_pipewire_cursor_metadata_is_fatal() {
    let chain = vec![
        "PipeWire buffer does not include SPA_META_Cursor while --require-cursor-metadata is set"
            .to_string(),
    ];
    assert!(is_fatal_capture_error(&chain));
}

#[test]
fn permanent_failures_are_told_from_passing_ones() {
    let passing = vec!["outer".to_string(), "connection reset by peer".to_string()];
    let encoder = vec!["outer".to_string(), "loading OpenH264 failed".to_string()];
    assert!(!is_fatal_dash_error(&passing, false));
    assert!(is_fatal_dash_error(&passing, true));
    assert!(is_fatal_dash_error(&encoder, false));
    assert!(!is_fatal_capture_error(&passing));
    assert_eq!(source_failed(&passing), FailureAction::RetryAfter(1_000));
    assert_eq!(
        source_failed(&vec!["no more input formats".to_string()]),
        FailureAction::Stop
    );
    let mut retry = ConnectionRetry::new();
    assert_eq!(
        connection_failed(&mut retry, &encoder, false, Duration::from_secs(1)),
        FailureAction::Stop
    );
    assert!(matches!(
        connection_failed(&mut retry, &passing, false, Duration::from_secs(1)),
        FailureAction::RetryAfter(wait) if (1_000..1_500).contains(&wait)
    ));
}

#[test]
fn adaptive_media_cadence_coalesces_idle_time_and_flushes_before_changes() {
    let mut cadence = AdaptiveMediaCadence::new(90_000, 900_000);
    assert_eq!(
        cadence.observe(90_000, false),
        MediaCadenceDecision {
            encode_pending_timestamp: Some(90_000),
            ..MediaCadenceDecision::default()
        }
    );
    assert_eq!(
        cadence.observe(540_000, false),
        MediaCadenceDecision::default()
    );
    assert_eq!(
        cadence.observe(990_000, false),
        MediaCadenceDecision {
            flush_pending_duration: Some(900_000),
            encode_pending_timestamp: Some(990_000),
            ..MediaCadenceDecision::default()
        }
    );
    assert_eq!(
        cadence.observe(1_080_000, true),
        MediaCadenceDecision {
            flush_pending_duration: Some(90_000),
            publish_current_timestamp: Some(1_080_000),
            ..MediaCadenceDecision::default()
        }
    );
    assert_eq!(cadence.finish(1_170_000), None);
}

#[test]
fn adaptive_media_cadence_never_overlaps_a_previous_sample() {
    let mut cadence = AdaptiveMediaCadence::new(90_000, 900_000);
    assert_eq!(
        cadence.observe(89_000, true).publish_current_timestamp,
        Some(90_000)
    );
    assert_eq!(
        cadence.observe(150_000, true).publish_current_timestamp,
        Some(180_000)
    );
}

#[test]
fn a_held_frame_lasts_at_least_a_tick() {
    let mut cadence = AdaptiveMediaCadence::new(10, 100);
    cadence.observe(10, false);
    assert_eq!(cadence.finish(3), Some(1));
    // The frame that was held starts where the media ended and is over when it is finished.
    let mut cadence = AdaptiveMediaCadence::new(10, 100);
    assert_eq!(cadence.observe(25, false).encode_pending_timestamp, Some(10));
    assert_eq!(cadence.finish(60), Some(50));
    assert_eq!(cadence.media_end, 60);
    assert_eq!(cadence.observe(30, true).publish_current_timestamp, Some(60));
}

#[test]
fn portal_restore_tokens_round_trip_and_reject_junk() {
    assert_eq!(PortalRestoreToken::load(None).value(), None);

    let stored = PortalRestoreToken::load(None).save("opaque-token-value");
    assert_eq!(
        PortalRestoreToken::load(stored).value(),
        Some("opaque-token-value")
    );

    let replaced = PortalRestoreToken::load(None).save("second-token");
    assert_eq!(PortalRestoreToken::load(replaced).value(), Some("second-token"));

    assert_eq!(PortalRestoreToken::load(Some("  \n".to_string())).value(), None);
    assert_eq!(PortalRestoreToken::load(Some("has space".to_string())).value(), None);
    assert_eq!(
        PortalRestoreToken::load(Some("x".repeat(MAX_PORTAL_RESTORE_TOKEN_LEN + 1))).value(),
        None
    );

    assert_eq!(
        PortalRestoreToken::load(None).save(&"y".repeat(MAX_PORTAL_RESTORE_TOKEN_LEN + 1)),
        None
    );
}

#[test]
fn portal_token_files_are_named_after_the_reduced_identity() {
    assert_eq!(default_portal_token_file("desk----etc"), "portal-desk----etc.token");
    assert_eq!(default_portal_token_file(""), "portal-client.token");
}

#[test]
fn state_files_are_named_after_the_reduced_identity() {
    assert_eq!(default_viewer_key_file("desk-------etc"), "viewer-desk-------etc.key");
    assert_eq!(default_log_file("desk-------etc"), "client-desk-------etc.log");
    assert_eq!(default_viewer_key_file(""), "viewer-client.key");
}

#[test]
fn sockets_locks_and_addresses_are_named() {
    assert_eq!(client_daemon_socket("desk"), "/tmp/gcpub-desk.sock");
    assert_eq!(history_lock_path("key-history.bin"), ".key-history.bin.lock");
    assert_eq!(normalize_endpoint("relay.example"), "relay.example:8900");
    assert_eq!(normalize_endpoint("relay.example:1"), "relay.example:1");
    assert_eq!(normalize_relay("relay.example"), "relay.example:8900");
    assert_eq!(stream_display_name("Desk", &None), "Desk");
    assert_eq!(stream_display_name("Desk", &Some("DP-3".to_string())), "Desk (DP-3)");
}

#[test]
fn state_lives_below_the_first_absolute_directory() {
    let state = Some("/var/state".to_string());
    let home = Some("/home/me/".to_string());
    let relative = Some("state".to_string());
    assert_eq!(client_state_dir(&state, &home, "/tmp"), "/var/state/glacialcast");
    assert_eq!(
        client_state_dir(&relative, &home, "/tmp"),
        "/home/me/.local/state/glacialcast"
    );
    assert_eq!(client_state_dir(&None, &relative, "/tmp"), "/tmp/glacialcast");
}

#[test]
fn source_labels_are_reduced_to_relay_safe_characters() {
    assert_eq!(sanitize_source_label("DP-3"), "DP-3");
    assert_eq!(sanitize_source_label("HDMI-A-1"), "HDMI-A-1");
    assert_eq!(sanitize_source_label("desk:evil"), "desk-evil");
    assert_eq!(sanitize_source_label("../../etc"), "etc");
    assert_eq!(sanitize_source_label(""), "output");
    assert_eq!(sanitize_source_label("---"), "output");
    assert_eq!(sanitize_source_label("-a-b-"), "a-b");
    for name in ["-a-b-", "../../etc", "desk:evil", ""] {
        let label = sanitize_source_label(name);
        assert_eq!(sanitize_source_label(&label), label);
    }
    assert!(sanitize_source_label(&"x".repeat(200)).len() <= 64);
}

#[test]
fn cursor_flush_interval_is_bounded() {
    assert_eq!(parse_cursor_flush_ms("100"), Ok(100));
    assert_eq!(parse_cursor_flush_ms(" 20 "), Ok(20));
    assert!(parse_cursor_flush_ms("19").is_err());
    assert!(parse_cursor_flush_ms("1001").is_err());
    assert!(parse_cursor_flush_ms("soon").is_err());
}

#[test]
fn white_space_of_any_script_is_trimmed() {
    assert_eq!(
        non_empty_trimmed("client id", "\u{2003} desk \u{a0}".to_string()),
        Ok("desk".to_string())
    );
    assert_eq!(
        non_empty_trimmed("client id", " \u{3000}\t".to_string()),
        Err("client id must not be empty".to_string())
    );
    for white in [
        '\t', '\n', '\u{b}', '\u{c}', '\r', ' ', '\u{85}', '\u{a0}', '\u{1680}', '\u{2000}',
        '\u{200a}', '\u{2028}', '\u{2029}', '\u{202f}', '\u{205f}', '\u{3000}',
    ] {
        assert_eq!(
            non_empty_trimmed("client id", format!("{white}desk{white}")),
            Ok("desk".to_string())
        );
    }
    for solid in ['\u{8}', '\u{e}', '\u{180e}', '\u{200b}', '\u{2060}', '\u{feff}'] {
        assert_eq!(
            non_empty_trimmed("client id", solid.to_string()),
            Ok(solid.to_string())
        );
    }
}

#[test]
fn a_pre_phrase_viewer_key_file_keeps_working_untouched() {
    let legacy = "CQkJCQkJCQkJCQkJCQkJCQkJCQkJCQkJCQkJCQkJCQk";
    let loaded = read_viewer_key(&format!("{legacy}\n")).unwrap();
    match loaded {
        ViewerKeyFile::Raw(key) => {
            let material = ViewerKeyMaterial::from_raw_b64(key);
            assert_eq!(material.key_b64, legacy);
            assert_eq!(material.shareable, legacy);
            assert_eq!(material.salt_b64, None);
        }
        other => panic!("unexpected key file {other:?}"),
    }
    assert_eq!(viewer_key_action(false, true, true), KeyFileAction::Use);
}

#[test]
fn regenerating_replaces_the_shared_key() {
    assert_eq!(viewer_key_action(true, true, true), KeyFileAction::Replace);
    assert_eq!(viewer_key_action(false, false, false), KeyFileAction::Create);
    assert_eq!(viewer_key_action(false, false, true), KeyFileAction::Refuse);
    assert_eq!(viewer_key_action(false, true, true), KeyFileAction::Use);
}

#[test]
fn generated_viewer_key_is_private_and_stable_across_restarts() {
    let contents = viewer_key_contents("tomb-bold-egg", "c2FsdA");
    assert_eq!(contents, "phrase tomb-bold-egg\nsalt c2FsdA\n");
    match read_viewer_key(&contents).unwrap() {
        ViewerKeyFile::Phrase { phrase, salt_b64 } => {
            assert_eq!(phrase, "tomb-bold-egg");
            assert_eq!(salt_b64, "c2FsdA");
        }
        other => panic!("unexpected key file {other:?}"),
    }
    // The next start uses what was written; what is there and cannot be read is refused.
    assert_eq!(viewer_key_action(false, true, true), KeyFileAction::Use);
    assert_eq!(viewer_key_action(false, false, true), KeyFileAction::Refuse);
    assert!(read_viewer_key("").is_err());
    assert!(read_viewer_key("phrase only\n").is_err());
    assert!(read_viewer_key("salt only\n").is_err());
}

#[test]
fn the_summary_names_what_is_configured_and_no_key() {
    let mut identity = invite_identity(Some("https://cast.example.com"), Some("tomb-bold-egg"));
    identity.config_path = Some("/etc/client.toml".to_string());
    let summary = sharing_summary(&identity, "/tmp/gcpub-invite.sock", "/tmp/client.log");
    assert_eq!(
        summary,
        "GlacialCast publisher \"Invite\"\n  viewer page  https://cast.example.com\n  \
         viewer access  identity pairing (no shared passphrase)\n  config       \
         /etc/client.toml\n  log file     /tmp/client.log\n  control      \
         /tmp/gcpub-invite.sock\n"
    );
    assert!(!summary.contains("tomb-bold-egg"));
}

fn options() -> StartupOptions {
    StartupOptions {
        history_bytes: None,
        history_seconds: None,
        no_encryption: false,
        print_viewer_key: false,
        list_monitors: false,
        daemon_stop: false,
        daemon_status: false,
        foreground: false,
        daemon_child: false,
    }
}

#[test]
fn starts_check_limits_then_options_then_act() {
    let (limits, action) = startup_action(&options(), None, None).unwrap();
    assert_eq!(limits, HistoryLimits { bytes: 100 * 1024 * 1024, seconds: 86_400 });
    assert_eq!(action, StartupAction::Publish { detach: true });

    let (limits, _) = startup_action(
        &StartupOptions { history_bytes: Some(7), ..options() },
        Some(9),
        Some(11),
    )
    .unwrap();
    assert_eq!(limits, HistoryLimits { bytes: 7, seconds: 11 });

    assert_eq!(
        startup_action(&StartupOptions { no_encryption: true, ..options() }, Some(0), None),
        Err(StartupError::HistoryNotPositive)
    );
    assert_eq!(
        startup_action(&StartupOptions { no_encryption: true, ..options() }, None, None),
        Err(StartupError::EncryptionRequired)
    );
    assert_eq!(
        startup_action(&StartupOptions { print_viewer_key: true, ..options() }, None, None),
        Err(StartupError::NoViewerKeyToPrint)
    );
    let action_of = |options: StartupOptions| startup_action(&options, None, None).unwrap().1;
    assert_eq!(
        action_of(StartupOptions { list_monitors: true, daemon_stop: true, ..options() }),
        StartupAction::ListMonitors
    );
    assert_eq!(
        action_of(StartupOptions { daemon_stop: true, daemon_status: true, ..options() }),
        StartupAction::StopDaemon
    );
    assert_eq!(
        action_of(StartupOptions { daemon_status: true, ..options() }),
        StartupAction::DaemonStatus
    );
    assert_eq!(
        action_of(StartupOptions { foreground: true, ..options() }),
        StartupAction::Publish { detach: false }
    );
}

fn no_settings() -> IdentitySettings {
    IdentitySettings {
        client_id: None,
        ingest_token: None,
        ingest_server_key: None,
        viewer_key: None,
        viewer_key_phrase: None,
        display_name: None,
        viewer_url: None,
    }
}

fn text(value: &str) -> Option<String> {
    Some(value.to_string())
}

#[test]
fn identities_prefer_the_command_line_and_fall_back_to_the_host() {
    let plan = resolve_client_identity(
        &IdentitySettings { client_id: text(" desk "), ingest_token: text("  "), ..no_settings() },
        &IdentitySettings {
            client_id: text("other"),
            ingest_token: text("token"),
            display_name: text("Desktop"),
            ..no_settings()
        },
        "host".to_string(),
        false,
        &None,
        true,
    )
    .unwrap();
    assert_eq!(plan.client_id, "desk");
    assert_eq!(plan.auth_token, None);
    assert_eq!(plan.display_name, "Desktop");
    assert!(matches!(plan.viewer_key, ViewerKeyPlan::File));
    assert!(matches!(plan.key_file, KeyFilePlan::Standard));

    let plan = resolve_client_identity(
        &no_settings(),
        &IdentitySettings { viewer_key: text(" key "), ..no_settings() },
        "host".to_string(),
        false,
        &text("/keys/viewer.key"),
        true,
    )
    .unwrap();
    assert_eq!(plan.client_id, "host");
    assert_eq!(plan.display_name, "Glacialcast client");
    assert!(matches!(plan.viewer_key, ViewerKeyPlan::Raw(key) if key == "key"));
    assert!(matches!(plan.key_file, KeyFilePlan::Unkept));
}

#[test]
fn identities_refuse_blank_settings_in_order() {
    let refused = |options: IdentitySettings, server_key_valid: bool| {
        resolve_client_identity(
            &options,
            &no_settings(),
            "host".to_string(),
            false,
            &None,
            server_key_valid,
        )
        .err()
    };
    assert_eq!(
        refused(IdentitySettings { client_id: text(" "), ..no_settings() }, true),
        Some(StartupError::EmptyClientId)
    );
    assert_eq!(
        refused(
            IdentitySettings {
                ingest_server_key: text("bad"),
                viewer_key: text(""),
                ..no_settings()
            },
            false
        ),
        Some(StartupError::ServerKeyInvalid)
    );
    assert_eq!(
        refused(IdentitySettings { viewer_key: text(""), ..no_settings() }, true),
        Some(StartupError::EmptyViewerKey)
    );
    assert_eq!(
        refused(IdentitySettings { viewer_key_phrase: text(" "), ..no_settings() }, true),
        Some(StartupError::EmptyViewerKeyPhrase)
    );
    assert_eq!(
        refused(IdentitySettings { display_name: text(" "), ..no_settings() }, true),
        Some(StartupError::EmptyDisplayName)
    );
    assert_eq!(
        refused(IdentitySettings { viewer_url: text(" "), ..no_settings() }, true),
        Some(StartupError::EmptyViewerUrl)
    );
}

#[test]
fn phrases_and_missing_keys_are_planned() {
    let plan = resolve_client_identity(
        &IdentitySettings { viewer_key_phrase: text(" tomb-bold "), ..no_settings() },
        &no_settings(),
        "host".to_string(),
        false,
        &text("/keys/viewer.key"),
        true,
    )
    .unwrap();
    assert!(matches!(plan.viewer_key, ViewerKeyPlan::Phrase(phrase) if phrase == "tomb-bold"));
    assert!(matches!(plan.key_file, KeyFilePlan::Given(path) if path == "/keys/viewer.key"));

    let plan = resolve_client_identity(
        &no_settings(),
        &no_settings(),
        "host".to_string(),
        true,
        &None,
        true,
    )
    .unwrap();
    assert!(matches!(plan.viewer_key, ViewerKeyPlan::Absent));
    assert!(matches!(plan.key_file, KeyFilePlan::Unkept));
}

#[test]
fn several_targets_are_labelled_and_one_is_not() {
    assert_eq!(portal_labels(1), vec![None]);
    assert_eq!(
        portal_labels(2),
        vec![Some("source-1".to_string()), Some("source-2".to_string())]
    );
    assert_eq!(connector_labels(&vec![]), Err(StartupError::NoMonitor));
    assert_eq!(connector_labels(&vec!["DP-1".to_string()]), Ok(vec![None]));
    assert_eq!(
        connector_labels(&vec!["DP-1".to_string(), "a:b".to_string()]),
        Ok(vec![Some("DP-1".to_string()), Some("a-b".to_string())])
    );
    assert_eq!(
        plan_targets(CaptureMode::Test, ScreenCastBackend::Mutter, 3, true),
        Ok(TargetPlan::Single)
    );
    assert_eq!(
        plan_targets(CaptureMode::Wayland, ScreenCastBackend::Portal, 1, false),
        Err(StartupError::MonitorNameNeedsCompositor)
    );
    assert_eq!(
        plan_targets(CaptureMode::Wayland, ScreenCastBackend::Portal, 0, false),
        Ok(TargetPlan::PortalSelection)
    );
    assert_eq!(
        plan_targets(CaptureMode::Wayland, ScreenCastBackend::Mutter, 2, true),
        Ok(TargetPlan::AllMonitors)
    );
    assert_eq!(
        plan_targets(CaptureMode::Wayland, ScreenCastBackend::Mutter, 0, false),
        Ok(TargetPlan::PrimaryMonitor)
    );
    assert_eq!(
        plan_targets(CaptureMode::Wayland, ScreenCastBackend::Mutter, 2, false),
        Ok(TargetPlan::NamedMonitors)
    );
}
