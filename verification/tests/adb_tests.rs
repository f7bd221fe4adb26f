use phone::adb::{
    get_usb_device, list_available, list_connected, new_device, poll_ip, route_query,
    route_source, PollOutcome, IP_ATTEMPTS,
};

#[test]
fn usb_device_is_the_first_word_of_its_line() {
    let listing = "List of devices attached\n192.168.1.2:5555 device product:a\nR58M123 device usb:1-1 product:b\nOTHER device usb:2-1\n";
    assert_eq!(get_usb_device(listing), Some("R58M123".to_string()));
    assert_eq!(get_usb_device("List of devices attached\n"), None);
}

#[test]
fn route_source_is_the_word_after_src() {
    let out = "1.1.1.1 via 192.168.1.1 dev wlan0 table 1021 src 192.168.1.42 uid 2000\n    cache\n";
    assert_eq!(route_source(out), "192.168.1.42");
    assert_eq!(route_source("no route"), "");
    assert_eq!(route_source("ends with src"), "");
}

#[test]
fn polling_for_the_address() {
    match poll_ip(0, "x src 192.168.1.42") {
        PollOutcome::Found(ip) => assert_eq!(ip, "192.168.1.42"),
        _ => panic!("expected an address"),
    }
    assert!(matches!(poll_ip(0, "error"), PollOutcome::Retry { next_attempt: 1 }));
    assert!(matches!(poll_ip(IP_ATTEMPTS - 1, "error"), PollOutcome::GiveUp));
}

#[test]
fn adb_command_lines() {
    assert_eq!(list_connected().args, vec!["devices".to_string(), "-l".to_string()]);
    assert_eq!(list_available().args, vec!["mdns".to_string(), "services".to_string()]);
    let setup = new_device("R58");
    assert_eq!(setup[0].args, vec!["-s", "R58", "usb"].into_iter().map(String::from).collect::<Vec<_>>());
    assert_eq!(setup[1].args, vec!["-s", "R58", "tcpip", "5555"].into_iter().map(String::from).collect::<Vec<_>>());
    assert_eq!(
        route_query("R58").args,
        vec!["-s", "R58", "shell", "ip", "route", "get", "1.1.1.1"].into_iter().map(String::from).collect::<Vec<_>>()
    );
}
