use phone::devices::DeviceTable;
use phone::storage::{
    device_file_contents, get_completions_file, get_devices_file, get_package_name, nickname,
    print_devices, rename_device_by_ip, save_device_info,
};

#[test]
fn files_live_under_home() {
    assert_eq!(get_package_name(), "phone");
    assert_eq!(get_devices_file("/home/u"), "/home/u/.local/state/phone/devices");
    assert_eq!(
        get_completions_file("/home/u"),
        "/home/u/.local/share/bash-completion/completions/phone"
    );
}

#[test]
fn devices_file_has_header_and_lines() {
    assert_eq!(device_file_contents(&DeviceTable::new()), "IP,NAME");
    let (t, text) = save_device_info(DeviceTable::new(), "192.168.1.2", "pixel");
    assert_eq!(text, "IP,NAME\n192.168.1.2,pixel");
    let (t, text) = save_device_info(t, "192.168.1.3", "Unknown");
    assert_eq!(text, "IP,NAME\n192.168.1.2,pixel\n192.168.1.3,Unknown");
    assert_eq!(t.len(), 2);
}

#[test]
fn nickname_is_trimmed_or_defaulted() {
    assert_eq!(nickname("  my phone \n"), "my phone");
    assert_eq!(nickname("\n"), "No nickname");
    let (t, _) = rename_device_by_ip(DeviceTable::new(), "a", "\n");
    assert_eq!(t.get("a"), Some("No nickname".to_string()));
}

#[test]
fn listing_lines() {
    let (t, _) = save_device_info(DeviceTable::new(), "192.168.1.2", "pixel");
    assert_eq!(print_devices(&t), vec!["\t192.168.1.2\tpixel".to_string()]);
}
