use lightset::color::parse_rgb;
use lightset::hid::is_lamp_array_descriptor;
use lightset::lamp_array::{range_channels, range_update, ArrayAttributes, LampAttributes};

#[test]
fn descriptor_detection_requires_lighting_lamparray_prefix() {
    assert!(is_lamp_array_descriptor(&[0x05, 0x59, 0x09, 0x01, 0xa1]));
    assert!(!is_lamp_array_descriptor(&[0x06, 0x72, 0xff, 0x09, 0x01]));
}

#[test]
fn attributes_decode_descriptor_sized_report() {
    let data = [
        1, 3, 0, 1, 0, 0, 0, 2, 0, 0, 0, 3, 0, 0, 0, 4, 0, 0, 0, 5, 0, 0, 0,
    ];
    let parsed = ArrayAttributes::decode(&data).unwrap();
    assert_eq!(parsed.lamp_count, 3);
    assert_eq!(parsed.min_update_interval_us, 5);
}

#[test]
fn lamp_attributes_decode() {
    let data = [
        3, 2, 0, 1, 0, 0, 0, 2, 0, 0, 0, 3, 0, 0, 0, 4, 0, 0, 0, 5, 0, 0, 0, 6, 7, 8, 9, 1, 10,
    ];
    let parsed = LampAttributes::decode(&data).unwrap();
    assert_eq!(parsed.lamp_id, 2);
    assert_eq!(parsed.position_z_um, 3);
    assert_eq!(parsed.update_latency_us, 4);
    assert_eq!(parsed.purposes, 5);
    assert!(parsed.is_programmable);
    assert_eq!(parsed.input_binding, 10);
}

#[test]
fn range_update_is_little_endian() {
    assert_eq!(
        range_update(0x1235, [0x20, 0, 0]).unwrap(),
        [5, 1, 0, 0, 0x34, 0x12, 0x20, 0, 0, 0xff]
    );
}

#[test]
fn color_parses() {
    assert_eq!(parse_rgb("#40ff80").unwrap(), [0x40, 0xff, 0x80]);
}

#[test]
fn range_channels_stays_within_every_lamp_limit() {
    let lamp = |id: u16, levels: [u8; 3], intensity: u8| LampAttributes {
        lamp_id: id,
        position_x_um: 0,
        position_y_um: 0,
        position_z_um: 0,
        purposes: 0,
        update_latency_us: 0,
        red_level_count: levels[0],
        green_level_count: levels[1],
        blue_level_count: levels[2],
        intensity_level_count: intensity,
        is_programmable: true,
        input_binding: 0,
    };
    assert_eq!(
        range_channels(
            &[lamp(0, [255, 255, 255], 255), lamp(1, [15, 31, 63], 31)],
            [255, 128, 0]
        )
        .unwrap(),
        [15, 16, 0, 31]
    );
}
