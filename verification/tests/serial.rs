use kenkoterminal::serial::{
    disconnect_notice, esp_reset_sequence, find_device, identity_of, poll_action, read_action,
    reconnect_notice, reconnect_poll_ms, serial_list, Identity, PollAction, PollEvent, PortInfo,
    ReadAction, ReadOutcome, SignalStep, UsbInfo,
};

fn usb(name: &str, vid: u16, pid: u16, serial: Option<&str>) -> PortInfo {
    PortInfo {
        port_name: name.to_string(),
        usb: Some(UsbInfo {
            vid,
            pid,
            serial_number: serial.map(|s| s.to_string()),
            product: Some("CP2102".to_string()),
        }),
    }
}

fn plain(name: &str) -> PortInfo {
    PortInfo { port_name: name.to_string(), usb: None }
}

#[test]
fn identity_of_usb_and_other_ports() {
    let ports = vec![plain("/dev/ttyS0"), usb("/dev/ttyUSB0", 0x10c4, 0xea60, Some("A1"))];
    let id = identity_of(&ports, "/dev/ttyUSB0");
    assert_eq!((id.vid, id.pid, id.serial.as_deref()), (Some(0x10c4), Some(0xea60), Some("A1")));
    let id = identity_of(&ports, "/dev/ttyS0");
    assert_eq!((id.vid, id.pid, id.serial), (None, None, None));
}

#[test]
fn device_is_found_again_under_a_new_path() {
    let id = Identity { vid: Some(0x10c4), pid: Some(0xea60), serial: Some("A1".to_string()) };
    let ports = vec![
        usb("/dev/ttyUSB0", 0x10c4, 0xea60, Some("B2")),
        usb("/dev/ttyUSB1", 0x10c4, 0xea60, Some("A1")),
    ];
    assert_eq!(find_device(&ports, &id, "/dev/ttyUSB0").as_deref(), Some("/dev/ttyUSB1"));
    // no identity match: the original path, if listed again
    let ports = vec![plain("/dev/ttyACM0"), usb("/dev/ttyUSB0", 1, 2, None)];
    assert_eq!(find_device(&ports, &id, "/dev/ttyUSB0").as_deref(), Some("/dev/ttyUSB0"));
    assert_eq!(find_device(&ports, &id, "/dev/ttyUSB7"), None);
    // without a USB identity only the path counts
    let none = Identity { vid: None, pid: None, serial: None };
    assert_eq!(find_device(&ports, &none, "/dev/ttyACM0").as_deref(), Some("/dev/ttyACM0"));
}

#[test]
fn listing_shows_usb_details() {
    let l = serial_list(&vec![plain("COM1"), usb("COM3", 0x303a, 0x1001, Some("S"))]);
    assert_eq!(l.len(), 2);
    assert_eq!((l[0].name.as_str(), l[0].vid, l[0].product.clone()), ("COM1", None, None));
    assert_eq!(l[1].name, "COM3");
    assert_eq!((l[1].vid, l[1].pid), (Some(0x303a), Some(0x1001)));
    assert_eq!(l[1].serial_number.as_deref(), Some("S"));
    assert_eq!(l[1].product.as_deref(), Some("CP2102"));
}

#[test]
fn esp_reset_sequences() {
    let run = esp_reset_sequence(false);
    assert!(run == vec![SignalStep::Rts(true), SignalStep::SleepMs(100), SignalStep::Rts(false), SignalStep::Dtr(false)]);
    let boot = esp_reset_sequence(true);
    assert_eq!(boot.len(), 7);
    assert!(boot[3] == SignalStep::Dtr(true));
    assert!(boot[5] == SignalStep::SleepMs(50));
}

#[test]
fn reader_decisions() {
    assert!(read_action(ReadOutcome::Bytes(0)) == ReadAction::Continue);
    assert!(read_action(ReadOutcome::Bytes(3)) == ReadAction::Forward);
    assert!(read_action(ReadOutcome::TimedOut) == ReadAction::Continue);
    assert!(read_action(ReadOutcome::Failed) == ReadAction::Reconnect);
}

#[test]
fn reconnect_poll_decisions() {
    assert!(poll_action(PollEvent::StopRequested) == PollAction::Quit);
    assert!(poll_action(PollEvent::Reopened) == PollAction::Resume);
    assert!(poll_action(PollEvent::NotFound) == PollAction::Retry);
    assert!(poll_action(PollEvent::OpenFailed) == PollAction::Retry);
    assert_eq!(reconnect_poll_ms(), 800);
    assert_eq!(disconnect_notice(), b"\r\n[serial disconnected - waiting for device...]\r\n".to_vec());
    assert_eq!(reconnect_notice(), b"\r\n[serial reconnected]\r\n".to_vec());
}
