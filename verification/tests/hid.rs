use lightset::hid::{first_accepted, parse_hid_id, HidrawEntry};
use lightset::profile::{default_hardware, LampArrayProfile};
use lightset::{discover_hidraw, hidraw_descriptor, is_lamp_array_descriptor, DeviceCandidate};

const LAMP_ARRAY: [u8; 4] = [0x05, 0x59, 0x09, 0x01];

#[test]
fn only_a_descriptor_that_begins_with_the_items_is_a_lamp_array() {
    assert!(is_lamp_array_descriptor(&LAMP_ARRAY));
    assert!(is_lamp_array_descriptor(&[0x05, 0x59, 0x09, 0x01, 0xa1, 0x01]));
    for before in 1..20 {
        let mut descriptor = vec![0; before];
        descriptor.extend(LAMP_ARRAY);
        assert!(!is_lamp_array_descriptor(&descriptor));
    }
    for changed in 0..4 {
        let mut descriptor = LAMP_ARRAY;
        descriptor[changed] ^= 1;
        assert!(!is_lamp_array_descriptor(&descriptor));
    }
    assert!(!is_lamp_array_descriptor(&LAMP_ARRAY[..3]));
    assert!(!is_lamp_array_descriptor(&[]));
}

#[test]
fn descriptors_are_found_by_file_name() {
    let file = |name: &str| Some(format!("/sys/class/hidraw/{name}/device/report_descriptor"));
    assert_eq!(hidraw_descriptor("/dev/hidraw0"), file("hidraw0"));
    assert_eq!(hidraw_descriptor("hidraw12"), file("hidraw12"));
    assert_eq!(hidraw_descriptor("/dev/hidraw1//."), file("hidraw1"));
    for path in ["", "/", ".", "..", "/dev/..", "//./"] {
        assert_eq!(hidraw_descriptor(path), None, "{path}");
        assert_eq!(std::path::Path::new(path).file_name(), None, "{path}");
    }
}

#[test]
fn hid_ids_are_read_from_the_first_matching_line() {
    let uevent = "DRIVER=hid-generic\nHID_ID=0003:00000B05:000018F3\r\nHID_NAME=Aura\n";
    assert_eq!(parse_hid_id(uevent), Some((0x0b05, 0x18f3)));
    assert_eq!(parse_hid_id("HID_ID=3:b05:18f3:more"), Some((0x0b05, 0x18f3)));
    assert_eq!(parse_hid_id("HID_ID=bad\nHID_ID=3:b05:18f3"), None);
    assert_eq!(parse_hid_id("HID_ID=3:10000:18f3"), None);
    assert_eq!(parse_hid_id("HID_ID=3:b05"), None);
    assert_eq!(parse_hid_id(" HID_ID=3:b05:18f3"), None);
    assert_eq!(parse_hid_id(""), None);
}

fn entry(name: &str, uevent: &str, descriptor: &[u8]) -> HidrawEntry {
    HidrawEntry {
        name: name.to_owned(),
        uevent: uevent.to_owned(),
        descriptor: descriptor.to_vec(),
    }
}

#[test]
fn readable_devices_are_listed_in_the_order_of_their_paths() {
    let devices = discover_hidraw(&[
        entry("hidraw2", "HID_ID=0003:00000B05:000018F3\n", &LAMP_ARRAY),
        entry("hidraw1", "", &LAMP_ARRAY),
        entry("hidraw10", "HID_ID=0003:0000046D:0000C52B\n", &[]),
    ]);
    assert_eq!(
        devices,
        vec![
            DeviceCandidate {
                path: "/dev/hidraw10".to_owned(),
                vid: 0x046d,
                pid: 0xc52b,
                lamp_array: false,
            },
            DeviceCandidate {
                path: "/dev/hidraw2".to_owned(),
                vid: 0x0b05,
                pid: 0x18f3,
                lamp_array: true,
            },
        ]
    );
}

#[test]
fn a_profile_without_ids_accepts_any_lamp_array() {
    let device = |vid: u16, pid: u16, lamp_array: bool| DeviceCandidate {
        path: String::new(),
        vid,
        pid,
        lamp_array,
    };
    let aura = default_hardware().lamp_array;
    assert!(device(0x0b05, 0x18f3, true).is_accepted_by(&aura));
    assert!(!device(0x0b05, 0x18f3, false).is_accepted_by(&aura));
    assert!(!device(0x0b05, 0x18f4, true).is_accepted_by(&aura));
    assert!(!device(0x0b06, 0x18f3, true).is_accepted_by(&aura));
    let any = LampArrayProfile { vid: None, pid: None };
    assert!(device(1, 2, true).is_accepted_by(&any));
    assert!(!device(1, 2, false).is_accepted_by(&any));
    let vendor = LampArrayProfile { vid: Some(1), pid: None };
    assert!(device(1, 9, true).is_accepted_by(&vendor));
    assert!(!device(2, 9, true).is_accepted_by(&vendor));
}

#[test]
fn the_first_accepted_device_is_taken() {
    let aura = "HID_ID=0003:00000B05:000018F3\n";
    let devices = discover_hidraw(&[
        entry("hidraw3", aura, &LAMP_ARRAY),
        entry("hidraw1", aura, &[]),
        entry("hidraw2", aura, &LAMP_ARRAY),
        entry("hidraw0", "HID_ID=0003:0000046D:0000C52B\n", &LAMP_ARRAY),
    ]);
    let profile = default_hardware().lamp_array;
    let at = first_accepted(&devices, &profile).unwrap();
    assert_eq!(devices[at].path, "/dev/hidraw2");
    assert_eq!(first_accepted(&devices[..2], &profile), None);
    assert_eq!(first_accepted(&[], &profile), None);
}
