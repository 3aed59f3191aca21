use patchcord::cmd::{
    create_link, link_command, read_link_answer, read_unlink_answer, reason_for_failure, remove_link,
    run_text, unlink_command, CommandOutcome,
};
use patchcord::detect::{
    detect_pipewire, detection_command, ensure_pipewire, has_pipewire, DetectionCache,
    DetectionEvent, DetectionStep,
};
use patchcord::error::{BackendError, JsonError};

fn ok(stdout: &[u8]) -> CommandOutcome {
    CommandOutcome::Finished {
        success: true,
        status: "exit status: 0".to_string(),
        stdout: stdout.to_vec(),
        stderr: vec![],
    }
}

fn failed(stderr: &[u8]) -> CommandOutcome {
    CommandOutcome::Finished {
        success: false,
        status: "exit status: 1".to_string(),
        stdout: vec![],
        stderr: stderr.to_vec(),
    }
}

#[test]
fn test_integration_run_command_failure() {
    let err = run_text(
        "this-command-does-not-exist-12345",
        CommandOutcome::NotStarted("No such file or directory (os error 2)".to_string()),
    )
    .unwrap_err();

    match err {
        BackendError::Io(cmd, _) => assert_eq!(cmd, "this-command-does-not-exist-12345"),
        _ => panic!("Expected IO error for missing executable, got: {:?}", err),
    }
}

#[test]
fn output_is_read_as_it_was_printed() {
    assert_eq!(run_text("echo", ok("hä world\n".as_bytes())).unwrap(), "hä world\n");
}

#[test]
fn output_that_is_no_utf8_is_refused() {
    let bytes = vec![b'a', 0xff, b'b'];
    let expected = String::from_utf8(bytes.clone()).unwrap_err().to_string();
    match run_text("pw-dump", ok(&bytes)) {
        Err(BackendError::InvalidOutput(program, reason)) => {
            assert_eq!(program, "pw-dump");
            assert_eq!(reason, expected);
        }
        other => panic!("{:?}", other),
    }
}

#[test]
fn a_failure_is_told_in_the_words_of_the_program() {
    let err = run_text("pactl", failed(b"  Connection refused\n")).unwrap_err();
    assert_eq!(err.to_text(), "pactl failed: Connection refused");
    let err = run_text("pactl", failed(b" \n")).unwrap_err();
    assert_eq!(err.to_text(), "pactl failed: exit status exit status: 1");
    let err = run_text("pactl", failed(&[b'x', 0xff])).unwrap_err();
    assert_eq!(err.to_text(), "pactl failed: x\u{fffd}");
}

#[test]
fn a_link_that_exists_counts_as_made() {
    assert!(create_link(ok(b"")).is_ok());
    assert!(create_link(failed(b"failed to link ports: File EXISTS")).is_ok());
    match create_link(failed(b"failed: permission denied")) {
        Err(BackendError::CommandFailed(program, stderr)) => {
            assert_eq!(program, "pw-link");
            assert_eq!(stderr, "failed: permission denied");
        }
        other => panic!("{:?}", other),
    }
    assert!(matches!(
        create_link(CommandOutcome::NotStarted("gone".to_string())),
        Err(BackendError::Io("pw-link", _))
    ));
}

#[test]
fn a_link_that_is_absent_counts_as_removed() {
    assert!(remove_link(ok(b"")).is_ok());
    assert!(remove_link(failed(b"No such file or directory")).is_ok());
    assert!(remove_link(failed(b"port NOT FOUND")).is_ok());
    assert!(remove_link(failed(b"link does not exist")).is_ok());
    assert!(matches!(
        remove_link(failed(b"busy")),
        Err(BackendError::CommandFailed("pw-link", _))
    ));
}

#[test]
fn link_commands_name_both_ends() {
    let c = link_command("31", "47");
    assert_eq!(c.program, "pw-link");
    assert_eq!(c.args, vec!["31".to_string(), "47".to_string()]);
    let c = unlink_command("31", "47");
    assert_eq!(c.args, vec!["-d".to_string(), "31".to_string(), "47".to_string()]);
}

#[test]
fn errors_are_told_in_words() {
    assert_eq!(
        BackendError::Unsupported.to_text(),
        "PipeWire was not detected as the active audio server"
    );
    assert_eq!(
        BackendError::Timeout("virtual sink".to_string()).to_text(),
        "timed out waiting for virtual sink"
    );
    assert_eq!(
        BackendError::Io("pactl", "not found".to_string()).to_text(),
        "failed to run pactl: not found"
    );
    assert_eq!(
        BackendError::InvalidOutput("pactl", "empty".to_string()).to_text(),
        "invalid output from pactl: empty"
    );
    assert_eq!(
        BackendError::from(JsonError).to_text(),
        "failed to parse PipeWire state: Error"
    );
    assert_eq!(BackendError::message("hello").to_text(), "hello");
}

#[test]
fn only_faults_of_the_dump_are_transient() {
    assert!(BackendError::Json(JsonError).is_transient_snapshot_error());
    assert!(BackendError::CommandFailed("pw-dump", "x".to_string()).is_transient_snapshot_error());
    assert!(BackendError::InvalidOutput("pw-dump", "x".to_string()).is_transient_snapshot_error());
    assert!(BackendError::Timeout("pw-dump".to_string()).is_transient_snapshot_error());
    assert!(!BackendError::CommandFailed("pactl", "x".to_string()).is_transient_snapshot_error());
    assert!(!BackendError::Timeout("virtual sink".to_string()).is_transient_snapshot_error());
    assert!(!BackendError::Io("pw-dump", "x".to_string()).is_transient_snapshot_error());
    assert!(!BackendError::Unsupported.is_transient_snapshot_error());
}

#[test]
fn the_server_is_known_by_its_name() {
    let info = "Server String: x\nServer Name: PulseAudio (on PipeWire 1.0.5)\nx".to_string();
    assert!(detect_pipewire(Ok(info)).unwrap());
    assert!(!detect_pipewire(Ok("Server Name: pulseaudio\n".to_string())).unwrap());
    let err = detect_pipewire(Ok("nothing".to_string())).unwrap_err();
    assert_eq!(err.to_text(), "invalid output from pactl: missing `Server Name:` line");
    assert!(matches!(
        detect_pipewire(Err(BackendError::Unsupported)),
        Err(BackendError::Unsupported)
    ));
    assert_eq!(detection_command().args, vec!["info".to_string()]);
}

#[test]
fn a_detection_is_believed_for_two_seconds() {
    let mut cache = DetectionCache::new();
    assert_eq!(
        has_pipewire(&mut cache, DetectionEvent::Asked { now: 5 }),
        DetectionStep::Detect
    );
    assert_eq!(
        has_pipewire(&mut cache, DetectionEvent::Detected { found: Ok(true), now: 10 }),
        DetectionStep::Answer(true)
    );
    assert_eq!(
        has_pipewire(&mut cache, DetectionEvent::Asked { now: 2_000_000_009 }),
        DetectionStep::Answer(true)
    );
    assert_eq!(
        has_pipewire(&mut cache, DetectionEvent::Asked { now: 2_000_000_010 }),
        DetectionStep::Detect
    );
    let failed = Err(BackendError::Io("pactl", "x".to_string()));
    assert_eq!(
        has_pipewire(&mut cache, DetectionEvent::Detected { found: failed, now: 2_000_000_011 }),
        DetectionStep::Answer(false)
    );
    assert_eq!(
        has_pipewire(&mut cache, DetectionEvent::Asked { now: 2_000_000_012 }),
        DetectionStep::Answer(false)
    );
}

#[test]
fn without_pipewire_nothing_is_supported() {
    assert!(ensure_pipewire(true).is_ok());
    assert!(matches!(ensure_pipewire(false), Err(BackendError::Unsupported)));
}

#[test]
fn answers_of_the_link_tool_are_read() {
    let failed = |text: &str| Err(BackendError::CommandFailed("pw-link", text.to_string()));
    assert!(read_link_answer(Ok(String::new())).is_ok());
    assert!(read_link_answer(failed("failed to link ports: File Exists")).is_ok());
    assert!(read_link_answer(failed("not found")).is_err());
    assert!(read_link_answer(Err(BackendError::Unsupported)).is_err());
    assert!(read_unlink_answer(Ok(String::new())).is_ok());
    for text in ["No such file or directory", "port NOT FOUND", "link does not exist"] {
        assert!(read_unlink_answer(failed(text)).is_ok());
    }
    assert!(matches!(
        read_unlink_answer(failed("busy")),
        Err(BackendError::CommandFailed("pw-link", _))
    ));
    assert!(read_unlink_answer(Err(BackendError::Unsupported)).is_err());
    assert_eq!(reason_for_failure("1", " \n"), "exit status 1");
    assert_eq!(reason_for_failure("1", " no \n"), "no");
}
