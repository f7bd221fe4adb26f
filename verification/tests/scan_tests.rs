use phone::devices::DeviceTable;
use phone::scan::{
    device_map_from_ips, get_available_devices, get_connected_devices, get_device_map_from_string,
    get_local_ip_from_string,
};

fn strings(v: &[&str]) -> Vec<String> {
    v.iter().map(|s| s.to_string()).collect()
}

#[test]
fn local_ips_are_found_in_order() {
    let text = "List of discovered mdns services\nadb-1\t_adb-tls-connect._tcp\t192.168.1.23:37099\nadb-2\t_adb-tls-connect._tcp\t192.168.0.7:40000\n";
    assert_eq!(
        get_local_ip_from_string(text),
        Some(strings(&["192.168.1.23", "192.168.0.7"]))
    );
}

#[test]
fn no_local_ip_in_text() {
    assert_eq!(get_local_ip_from_string("List of devices attached\n10.0.0.1"), Some(vec![]));
}

#[test]
fn dot_matches_any_character() {
    assert_eq!(get_local_ip_from_string("192x168y1z2"), Some(strings(&["192x168y1z2"])));
}

#[test]
fn scan_names_known_and_unknown_devices() {
    let mut known = DeviceTable::new();
    known.insert("192.168.1.2".to_string(), "pixel".to_string());
    known.insert("192.168.1.9".to_string(), "old".to_string());
    let ips = strings(&["192.168.1.5", "192.168.1.2", "192.168.1.5", "192.168.1.6"]);
    let update = device_map_from_ips(&ips, known);
    assert_eq!(update.unknown, strings(&["192.168.1.5", "192.168.1.6"]));
    assert_eq!(update.devices.len(), 3);
    assert_eq!(update.devices.get("192.168.1.2"), Some("pixel".to_string()));
    assert_eq!(update.devices.get("192.168.1.5"), Some("Unknown".to_string()));
    assert_eq!(update.devices.get("192.168.1.9"), None);
}

#[test]
fn rescan_after_recording_finds_nothing_new() {
    let known = DeviceTable::new();
    let ips = strings(&["192.168.1.5", "192.168.1.6"]);
    let first = device_map_from_ips(&ips, known);
    let mut recorded = DeviceTable::new();
    for ip in &first.unknown {
        recorded.insert(ip.clone(), "Unknown".to_string());
    }
    let second = device_map_from_ips(&ips, recorded);
    assert!(second.unknown.is_empty());
    assert_eq!(second.devices.len(), 2);
}

#[test]
fn device_map_from_adb_output() {
    let known = DeviceTable::new();
    let text = "List of devices attached\n192.168.1.23:5555\tdevice product:x model:Pixel\n";
    let update = get_device_map_from_string(text, known).unwrap();
    assert_eq!(update.unknown, strings(&["192.168.1.23"]));
    assert_eq!(update.devices.get("192.168.1.23"), Some("Unknown".to_string()));
}

#[test]
fn scan_lists_known_devices_first_then_new_ones() {
    let mut known = DeviceTable::new();
    known.insert("k2".to_string(), "two".to_string());
    known.insert("k1".to_string(), "one".to_string());
    known.insert("gone".to_string(), "x".to_string());
    let ips = strings(&["n1", "k1", "n2", "k2"]);
    let update = device_map_from_ips(&ips, known);
    assert_eq!(update.devices.ip_list(), strings(&["k2", "k1", "n1", "n2"]));
}

#[test]
fn connected_and_available_scans_read_adb_output() {
    let devices = "List of devices attached\n192.168.1.23:5555\tdevice product:x\n";
    let update = get_connected_devices(devices, DeviceTable::new()).unwrap();
    assert_eq!(update.devices.ip_list(), strings(&["192.168.1.23"]));
    let mdns = "List of discovered mdns services\nadb-1\t_adb-tls-connect._tcp\t192.168.0.7:40000\n";
    let update = get_available_devices(mdns, DeviceTable::new()).unwrap();
    assert_eq!(update.unknown, strings(&["192.168.0.7"]));
}
