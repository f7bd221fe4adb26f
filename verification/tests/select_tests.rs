use phone::devices::DeviceTable;
use phone::select::{
    check_if_connected, connect, connect_to_ip, disconnect, disconnect_from_ip, invocation_for,
    mirror_device, pick_reply_then, select_device, select_device_reply, toggle_connection, Answer,
    PickStep, Purpose, Selection,
};

fn table(rows: &[(&str, &str)]) -> DeviceTable {
    DeviceTable::from_rows(rows.iter().map(|(a, b)| (a.to_string(), b.to_string())).collect())
}

#[test]
fn no_device_to_select() {
    assert!(matches!(select_device(&DeviceTable::new()), Selection::NoDevice));
}

#[test]
fn single_device_is_chosen_without_asking() {
    match select_device(&table(&[("192.168.1.2", "pixel")])) {
        Selection::Chosen(ip) => assert_eq!(ip, "192.168.1.2"),
        _ => panic!("expected the only device"),
    }
}

#[test]
fn menu_lists_devices_with_indices() {
    match select_device(&table(&[("192.168.1.2", "pixel"), ("192.168.1.3", "tab")])) {
        Selection::Ask(lines) => assert_eq!(
            lines,
            vec!["1.\t192.168.1.2\t(pixel)".to_string(), "2.\t192.168.1.3\t(tab)".to_string()]
        ),
        _ => panic!("expected a menu"),
    }
}

#[test]
fn reply_selects_by_index() {
    let t = table(&[("a", "1"), ("b", "2")]);
    assert!(matches!(select_device_reply(&t, Some(" 2\n")), Answer::Chosen(ref ip) if ip == "b"));
    assert!(matches!(select_device_reply(&t, Some("+1")), Answer::Chosen(ref ip) if ip == "a"));
    assert!(matches!(select_device_reply(&t, Some("3\n")), Answer::InvalidIndex));
    assert!(matches!(select_device_reply(&t, Some("0\n")), Answer::InvalidIndex));
    assert!(matches!(select_device_reply(&t, Some("two\n")), Answer::Unreadable));
    assert!(matches!(select_device_reply(&t, None), Answer::Unreadable));
}

#[test]
fn invocations_for_each_purpose() {
    let c = connect_to_ip("192.168.1.2");
    assert_eq!(c.program, "adb");
    assert_eq!(c.args, vec!["connect".to_string(), "192.168.1.2:5555".to_string()]);
    assert!(!c.detached);
    let d = disconnect_from_ip("192.168.1.2");
    assert_eq!(d.args, vec!["disconnect".to_string(), "192.168.1.2:5555".to_string()]);
    let m = invocation_for(Purpose::Mirror, "192.168.1.2");
    assert_eq!(m.program, "scrcpy");
    assert_eq!(m.args, vec!["-s".to_string(), "192.168.1.2".to_string()]);
    assert!(m.detached);
}

#[test]
fn pick_acts_on_the_only_device() {
    match connect(&table(&[("192.168.1.2", "pixel")])) {
        PickStep::Run(inv) => assert_eq!(inv.args[1], "192.168.1.2:5555"),
        _ => panic!("expected a run"),
    }
    assert!(matches!(disconnect(&DeviceTable::new()), PickStep::NoDevice));
    assert!(matches!(mirror_device(&table(&[("a", "1"), ("b", "2")])), PickStep::Ask(_)));
}

#[test]
fn pick_reply_outcomes() {
    let t = table(&[("a", "1"), ("b", "2")]);
    match pick_reply_then(&t, Purpose::Disconnect, Some("1")) {
        PickStep::Run(inv) => assert_eq!(inv.args, vec!["disconnect".to_string(), "a:5555".to_string()]),
        _ => panic!("expected a run"),
    }
    assert!(matches!(
        pick_reply_then(&t, Purpose::Connect, Some("9")),
        PickStep::NotRetrieved { invalid_index: true }
    ));
    assert!(matches!(
        pick_reply_then(&t, Purpose::Connect, Some("x")),
        PickStep::NotRetrieved { invalid_index: false }
    ));
}

#[test]
fn toggling_the_connection() {
    assert!(!check_if_connected(&DeviceTable::new()));
    assert!(check_if_connected(&table(&[("a", "1")])));
    assert_eq!(toggle_connection(&table(&[("a", "1")])), Purpose::Disconnect);
    assert_eq!(toggle_connection(&DeviceTable::new()), Purpose::Connect);
}
