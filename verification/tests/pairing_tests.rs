use phone::adb::IP_ATTEMPTS;
use phone::pairing::{new_device_step, Instruction, PairState};

fn say(i: &Instruction) -> &str {
    match i {
        Instruction::Say(line) => line,
        _ => panic!("expected a message"),
    }
}

fn args(i: &Instruction) -> Vec<String> {
    match i {
        Instruction::Run(inv) => inv.args.clone(),
        _ => panic!("expected a command"),
    }
}

#[test]
fn pairing_starts_by_listing_attached_devices() {
    let step = new_device_step(PairState::Begin, "");
    assert_eq!(step.instructions.len(), 3);
    assert_eq!(say(&step.instructions[0]), "Enable the wireless debug in the device's developer settings");
    assert_eq!(say(&step.instructions[1]), "Plug the device in then press [Enter].");
    assert!(matches!(step.instructions[2], Instruction::WaitForEnter));
    assert_eq!(step.capture.unwrap().args, vec!["devices".to_string(), "-l".to_string()]);
    assert!(matches!(step.state, PairState::ReadUsb));
}

#[test]
fn pairing_stops_without_usb_device() {
    let step = new_device_step(PairState::ReadUsb, "List of devices attached\n192.168.1.2:5555 device\n");
    assert!(step.instructions.is_empty());
    assert!(step.capture.is_none());
    assert!(matches!(step.state, PairState::Done));
}

#[test]
fn pairing_switches_the_usb_device_to_tcpip() {
    let step = new_device_step(PairState::ReadUsb, "List of devices attached\nR58 device usb:1-1\n");
    assert_eq!(step.instructions.len(), 6);
    assert_eq!(say(&step.instructions[0]), "Found device: R58");
    assert_eq!(args(&step.instructions[1]), vec!["-s", "R58", "usb"]);
    assert!(matches!(step.instructions[2], Instruction::Pause(2000)));
    assert_eq!(args(&step.instructions[3]), vec!["-s", "R58", "tcpip", "5555"]);
    assert!(matches!(step.instructions[4], Instruction::Pause(2000)));
    assert_eq!(say(&step.instructions[5]), "Waiting for device to provide IP...");
    assert_eq!(step.capture.unwrap().args[2], "shell");
    assert!(matches!(step.state, PairState::ReadIp { ref id, attempt: 0 } if id == "R58"));
}

#[test]
fn pairing_names_then_connects_the_found_address() {
    let state = PairState::ReadIp { id: "R58".to_string(), attempt: 3 };
    let step = new_device_step(state, "1.1.1.1 dev wlan0 src 192.168.1.42 uid 2000\n");
    assert_eq!(step.instructions.len(), 5);
    assert_eq!(say(&step.instructions[0]), "Device IP: 192.168.1.42");
    assert!(matches!(step.instructions[1], Instruction::Nickname(ref ip) if ip == "192.168.1.42"));
    assert_eq!(say(&step.instructions[2]), "Unplug device and press [Enter]");
    assert!(matches!(step.instructions[3], Instruction::WaitForEnter));
    assert_eq!(args(&step.instructions[4]), vec!["connect", "192.168.1.42:5555"]);
    assert!(matches!(step.state, PairState::Done));
}

#[test]
fn pairing_retries_then_gives_up() {
    let step = new_device_step(PairState::ReadIp { id: "R58".to_string(), attempt: 0 }, "error");
    assert!(matches!(step.instructions[0], Instruction::Pause(500)));
    assert!(step.capture.is_some());
    assert!(matches!(step.state, PairState::ReadIp { attempt: 1, .. }));
    let last = PairState::ReadIp { id: "R58".to_string(), attempt: IP_ATTEMPTS - 1 };
    let step = new_device_step(last, "error");
    assert_eq!(step.instructions.len(), 2);
    assert_eq!(say(&step.instructions[1]), "Could not establish connection to device.");
    assert!(step.capture.is_none());
    assert!(matches!(step.state, PairState::Done));
}
