use phone::camera::{
    camera_id_from_reply, enable, enable_with_camera_choice, is_enabled, kill_camera, parse_pid,
    pid_file_contents, process_listing, select_camera, start_camera, toggle, wants_default_camera, CameraChoice,
    CameraCommand, CameraError, CameraStart, DEFAULT_CAMERA,
};

#[test]
fn enable_asks_for_the_camera() {
    assert_eq!(enable(), CameraCommand::Enable { use_default_camera: Some(true) });
}

#[test]
fn toggle_disables_a_running_stream() {
    assert_eq!(toggle(true), CameraCommand::Disable);
    assert_eq!(toggle(false), CameraCommand::Enable { use_default_camera: Some(false) });
}

#[test]
fn camera_runs_when_a_stream_is_listed() {
    assert!(!is_enabled(""));
    assert!(!is_enabled("  PID TTY STAT TIME COMMAND\n 1234 pts/0 S 0:00 scrcpy -s 192.168.1.42\n"));
    assert!(!is_enabled("1 grep scrcpy.*video_source=camera\n"));
    assert!(is_enabled(
        "  PID TTY STAT TIME COMMAND\n 1234 ? Sl 0:03 scrcpy -s 192.168.1.42 --video-source=camera --camera-id=1 --no-window\n"
    ));
}

#[test]
fn process_listing_command() {
    let inv = process_listing();
    assert_eq!(inv.program, "ps");
    assert_eq!(inv.args, vec!["-x".to_string()]);
}

#[test]
fn start_camera_arguments() {
    let inv = start_camera("192.168.1.2", 3);
    assert_eq!(inv.program, "scrcpy");
    assert_eq!(
        inv.args,
        vec![
            "-s", "192.168.1.2", "--video-source=camera", "--camera-id=3",
            "--camera-size=1920x1080", "--v4l2-sink=/dev/video0", "--no-audio", "--no-window",
        ]
        .into_iter()
        .map(String::from)
        .collect::<Vec<_>>()
    );
    assert!(inv.detached);
}

#[test]
fn enabling_needs_a_device() {
    assert!(matches!(enable_with_camera_choice(None, Some(true)), Err(CameraError::NoDeviceSelected)));
    assert!(matches!(
        enable_with_camera_choice(Some("ip"), Some(true)),
        Ok(CameraStart::AskCamera { ref ip }) if ip == "ip"
    ));
    match enable_with_camera_choice(Some("ip"), Some(false)) {
        Ok(CameraStart::Launch(inv)) => assert_eq!(inv.args[3], "--camera-id=1"),
        _ => panic!("expected a launch"),
    }
    assert!(matches!(enable_with_camera_choice(Some("ip"), None), Ok(CameraStart::Launch(_))));
}

#[test]
fn only_n_refuses_the_default_camera() {
    assert!(wants_default_camera("\n"));
    assert!(wants_default_camera("y\n"));
    assert!(wants_default_camera("no\n"));
    assert!(!wants_default_camera("n\n"));
    assert!(!wants_default_camera(" N \r\n"));
    assert!(matches!(select_camera("ip", "Y"), CameraChoice::Camera(DEFAULT_CAMERA)));
    match select_camera("ip", "n") {
        CameraChoice::List(inv) => assert_eq!(inv.args, vec!["-s".to_string(), "ip".to_string(), "--list-cameras".to_string()]),
        _ => panic!("expected the camera list"),
    }
}

#[test]
fn camera_ids_are_read_like_u32() {
    assert_eq!(camera_id_from_reply(" 2\n"), Some(2));
    assert_eq!(camera_id_from_reply("-1"), None);
    assert_eq!(camera_id_from_reply(""), None);
}

#[test]
fn pid_file_round_trip() {
    for pid in [0u32, 1, 4242, u32::MAX] {
        assert_eq!(pid_file_contents(pid), pid.to_string());
        assert_eq!(parse_pid(&pid_file_contents(pid)), Some(pid));
    }
    assert_eq!(parse_pid("123\n"), Some(123));
    assert_eq!(parse_pid("abc"), None);
}

#[test]
fn kill_command() {
    let inv = kill_camera(4242);
    assert_eq!(inv.program, "kill");
    assert_eq!(inv.args, vec!["4242".to_string()]);
}
