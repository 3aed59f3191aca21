use patchcord::capture_shim::{
    allowlist_path, is_allowed, runtime_dir, BlockedStreams, MonitorDecision, RecordDecision,
};

#[test]
fn the_session_directory_has_a_fallback() {
    assert_eq!(runtime_dir(Some("/run/x".to_string()), 1000), "/run/x");
    assert_eq!(runtime_dir(Some(String::new()), 1000), "/run/user/1000");
    assert_eq!(runtime_dir(None, 0), "/run/user/0");
}

#[test]
fn the_allow_list_is_found_by_the_parent() {
    assert_eq!(
        allowlist_path("/run/user/1000", 77),
        "/run/user/1000/patchcord/discord-capture-allowed.77"
    );
    assert_eq!(allowlist_path("/tmp/", 1), "/tmp/patchcord/discord-capture-allowed.1");
}

#[test]
fn paths_agree_with_the_standard_library() {
    for dir in ["/run/user/1000", "/tmp/", "/", "rel", ""] {
        let expected = std::path::Path::new(dir)
            .join("patchcord")
            .join(format!("discord-capture-allowed.{}", 5));
        assert_eq!(allowlist_path(dir, 5), expected.display().to_string());
    }
}

#[test]
fn an_index_is_allowed_only_if_listed() {
    let list = "12\n  34 \r\n\n+5\nx\n";
    for n in [12, 34, 5] {
        assert!(is_allowed(Some(list), n));
    }
    for n in [1, 2, 3, 0, 1234] {
        assert!(!is_allowed(Some(list), n));
    }
    assert!(!is_allowed(Some(""), 0));
    assert!(!is_allowed(None, 0));
}

#[test]
fn blocked_streams_are_redirected_to_silence() {
    let mut blocked = BlockedStreams::new();
    assert_eq!(
        blocked.pa_stream_set_monitor_stream(0x1000, 7, Some("8\n")),
        MonitorDecision::Suppress
    );
    assert_eq!(
        blocked.pa_stream_connect_record(0x1000),
        RecordDecision::Redirect("discord_capture_null.monitor")
    );
    assert_eq!(blocked.pa_stream_connect_record(0x2000), RecordDecision::Forward);
}

#[test]
fn the_last_call_about_a_stream_decides() {
    let mut blocked = BlockedStreams::new();
    blocked.pa_stream_set_monitor_stream(1, 7, None);
    blocked.pa_stream_set_monitor_stream(2, 7, None);
    assert_eq!(
        blocked.pa_stream_set_monitor_stream(1, 7, Some("7")),
        MonitorDecision::Forward
    );
    assert_eq!(blocked.pa_stream_connect_record(1), RecordDecision::Forward);
    assert!(matches!(blocked.pa_stream_connect_record(2), RecordDecision::Redirect(_)));
}
