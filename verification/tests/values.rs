use lightset::color::ColorError;
use lightset::controller::{decode_direct_colors, direct_color_writes, RegisterWrite, UnevenColorData};
use lightset::lamp_array::{le_u32, scale_channel, RangeError, ReportError};
use lightset::lamp_lighting::{lamp_step, level_update, LampProgress, LampStep};
use lightset::order::sort_positions;
use lightset::profile::{
    default_hardware, validate_profile, EneControllerProfile, EneDramProfile, ProfileError,
};
use lightset::text::{
    characters, contains, parse_hex_word, push_decimal, push_hex_padded, push_joined, trim_end,
    trim_end_nul,
};
use lightset::{
    disable_autonomous_mode, format_bytes, lamp_request, parse_rgb, range_channels, range_update,
    ArrayAttributes, LampAttributes,
};

#[test]
fn colors_are_six_hexadecimal_digits() {
    assert_eq!(parse_rgb("ff0000"), Ok([0xff, 0, 0]));
    assert_eq!(parse_rgb("#AbCdEf"), Ok([0xab, 0xcd, 0xef]));
    assert_eq!(parse_rgb("000000"), Ok([0, 0, 0]));
    for text in ["", "#", "fff", "ff00000", "##ff000", "#ff00zz", "ff 000", "+f0000", "ééé"] {
        assert_eq!(parse_rgb(text), Err(ColorError), "{text}");
    }
    assert_eq!(ColorError.message(), "color must be six hexadecimal digits (RRGGBB)");
}

#[test]
fn bytes_are_written_as_two_digits_each() {
    assert_eq!(format_bytes(&[]), "");
    assert_eq!(format_bytes(&[0x05]), "05");
    assert_eq!(format_bytes(&[0x05, 0xff, 0x00, 0xa0]), "05 ff 00 a0");
}

#[test]
fn a_written_color_parses_back() {
    for rgb in [[0, 0, 0], [0x40, 0xff, 0x80], [1, 2, 3], [0xff, 0x0f, 0xf0]] {
        let text = format_bytes(&rgb).replace(' ', "");
        assert_eq!(parse_rgb(&text), Ok(rgb));
        assert_eq!(parse_rgb(&format!("#{text}")), Ok(rgb));
    }
}

#[test]
fn numbers_are_written_in_full() {
    let mut text = String::from("<");
    push_hex_padded(&mut text, 0);
    text.push(' ');
    push_hex_padded(&mut text, 0x0a);
    text.push(' ');
    push_hex_padded(&mut text, 0x77);
    text.push(' ');
    push_hex_padded(&mut text, 0x8100);
    text.push(' ');
    push_decimal(&mut text, 0);
    text.push(' ');
    push_decimal(&mut text, 1205);
    assert_eq!(text, "<00 0a 77 8100 0 1205");
}

#[test]
fn texts_are_searched_and_trimmed() {
    assert!(contains("SMBus PIIX4 adapter port 0 at 0b00\n", "SMBus PIIX4 adapter"));
    assert!(contains("anything", ""));
    assert!(!contains("PIIX", "PIIX4"));
    assert!(!contains("SMBus I801 adapter", "PIIX4"));
    assert_eq!(trim_end("  name \t\r\n"), "  name");
    assert_eq!(trim_end("name\u{a0}\u{3000}"), "name");
    assert_eq!(trim_end("\n"), "");
    assert_eq!(trim_end_nul("AUDA0\0\0"), "AUDA0");
    assert_eq!(trim_end_nul("\0A \0"), "\0A ");
    let mut out = String::from("[");
    push_joined(&mut out, &vec![], "; ");
    push_joined(&mut out, &vec!["a".to_owned()], "; ");
    push_joined(&mut out, &vec!["b".to_owned(), "".to_owned(), "c".to_owned()], "; ");
    assert_eq!(out, "[ab; ; c");
}

#[test]
fn hexadecimal_words_have_a_limit() {
    let parse = |text: &str| parse_hex_word(&characters(text));
    assert_eq!(parse("0B05"), Some(0x0b05));
    assert_eq!(parse("000018f3"), Some(0x18f3));
    assert_eq!(parse("+ff"), Some(0xff));
    assert_eq!(parse("FFFF"), Some(0xffff));
    for text in ["", "+", "-1", "10000", "0x10", "1 ", "g"] {
        assert_eq!(parse(text), None, "{text}");
    }
}

#[test]
fn sorting_is_by_code_point_and_stable() {
    let keys = ["i2c-10", "i2c-1", "i2c-2", "", "i2c-1", "é"].map(str::to_owned).to_vec();
    assert_eq!(sort_positions(&keys), vec![3, 1, 4, 0, 2, 5]);
}

#[test]
fn short_and_foreign_reports_are_refused() {
    let short = ArrayAttributes::decode(&[1; 22]).unwrap_err();
    assert_eq!(short, ReportError::TooShort { report: 1, length: 22, expected: 23 });
    assert_eq!(short.message(), "report 1 is 22 bytes, expected at least 23");
    let foreign = ArrayAttributes::decode(&[9; 23]).unwrap_err();
    assert_eq!(foreign, ReportError::WrongId { wanted: 1, found: 9 });
    assert_eq!(foreign.message(), "expected report ID 1, got 9");
    let short = LampAttributes::decode(&[]).unwrap_err();
    assert_eq!(short.message(), "report 3 is 0 bytes, expected at least 29");
    let foreign = LampAttributes::decode(&[1; 29]).unwrap_err();
    assert_eq!(foreign.message(), "expected report ID 3, got 1");
}

#[test]
fn reports_are_little_endian_and_may_be_longer() {
    let mut data: Vec<u8> = (0..40).collect();
    data[0] = 1;
    assert_eq!(
        ArrayAttributes::decode(&data),
        Ok(ArrayAttributes {
            lamp_count: 0x0201,
            bounding_box_width_um: 0x0605_0403,
            bounding_box_height_um: 0x0a09_0807,
            bounding_box_depth_um: 0x0e0d_0c0b,
            lamp_array_kind: 0x1211_100f,
            min_update_interval_us: 0x1615_1413,
        })
    );
    assert_eq!(ArrayAttributes::decode(&data), ArrayAttributes::decode(&data[..23]));
    data[0] = 3;
    let lamp = LampAttributes::decode(&data).unwrap();
    assert_eq!(LampAttributes::decode(&data[..29]), Ok(lamp.clone()));
    assert_eq!(
        lamp,
        LampAttributes {
            lamp_id: 0x0201,
            position_x_um: 0x0605_0403,
            position_y_um: 0x0a09_0807,
            position_z_um: 0x0e0d_0c0b,
            update_latency_us: 0x1211_100f,
            purposes: 0x1615_1413,
            red_level_count: 23,
            green_level_count: 24,
            blue_level_count: 25,
            intensity_level_count: 26,
            is_programmable: true,
            input_binding: 28,
        }
    );
    assert_eq!(le_u32(&[0xff, 0x78, 0x56, 0x34, 0x12], 1), 0x1234_5678);
}

#[test]
fn lamp_reports_carry_the_lamp_number() {
    assert_eq!(lamp_request(0x1234), [2, 0x34, 0x12]);
    assert_eq!(lamp_request(0), [2, 0, 0]);
    assert_eq!(disable_autonomous_mode(), [6, 0]);
    assert_eq!(range_update(1, [1, 2, 3]), Ok([5, 1, 0, 0, 0, 0, 1, 2, 3, 0xff]));
    assert_eq!(range_update(0xffff, [1, 2, 3]), Ok([5, 1, 0, 0, 0xfe, 0xff, 1, 2, 3, 0xff]));
    assert_eq!(range_update(0, [1, 2, 3]), Err(RangeError::ZeroLamps));
    assert_eq!(RangeError::ZeroLamps.message(), "device reports zero lamps");
}

#[test]
fn channels_scale_to_the_nearest_level() {
    assert_eq!(scale_channel(0, 255), 0);
    assert_eq!(scale_channel(255, 255), 255);
    assert_eq!(scale_channel(255, 15), 15);
    assert_eq!(scale_channel(128, 31), 16);
    assert_eq!(scale_channel(8, 15), 0);
    assert_eq!(scale_channel(9, 15), 1);
    assert_eq!(scale_channel(200, 0), 0);
    for maximum in [0, 1, 15, 100, 255] {
        for input in 0..255 {
            assert!(scale_channel(input, maximum) <= scale_channel(input + 1, maximum));
            assert!(scale_channel(input, maximum) <= maximum);
        }
    }
}

fn lamp(levels: [u8; 3], intensity: u8, is_programmable: bool) -> LampAttributes {
    LampAttributes {
        lamp_id: 0,
        position_x_um: 0,
        position_y_um: 0,
        position_z_um: 0,
        purposes: 0,
        update_latency_us: 0,
        red_level_count: levels[0],
        green_level_count: levels[1],
        blue_level_count: levels[2],
        intensity_level_count: intensity,
        is_programmable,
        input_binding: 0,
    }
}

#[test]
fn fixed_lamps_limit_only_the_intensity() {
    assert_eq!(
        range_channels(
            &[lamp([255, 255, 255], 200, true), lamp([1, 1, 1], 7, false)],
            [255, 255, 10]
        ),
        Ok([255, 255, 10, 7])
    );
    assert_eq!(
        range_channels(&[lamp([255, 255, 255], 9, false)], [255, 255, 255]),
        Ok([0, 0, 0, 9])
    );
}

#[test]
fn a_range_needs_lamps_with_intensity() {
    assert_eq!(range_channels(&[], [1, 2, 3]), Err(RangeError::ZeroLamps));
    let error = range_channels(
        &[lamp([255, 255, 255], 255, true), lamp([255, 255, 255], 0, false)],
        [1, 2, 3],
    )
    .unwrap_err();
    assert_eq!(error, RangeError::NoIntensity);
    assert_eq!(error.message(), "at least one lamp has no usable intensity channel");
}

fn known_controller() -> EneControllerProfile {
    default_hardware().ene_dram.controllers[0]
}

fn with_controller(controller: EneControllerProfile) -> EneDramProfile {
    EneDramProfile {
        controllers: Box::leak(vec![controller].into_boxed_slice()),
        ..default_hardware().ene_dram
    }
}

fn with_addresses(addresses: Vec<u16>) -> EneDramProfile {
    EneDramProfile { addresses: Box::leak(addresses.into_boxed_slice()), ..default_hardware().ene_dram }
}

#[test]
fn the_default_profile_is_valid() {
    let hardware = default_hardware();
    assert_eq!(validate_profile(&hardware.ene_dram), Ok(()));
    assert_eq!(hardware.lamp_array.vid, Some(lightset::ASUS_VID));
    assert_eq!(hardware.lamp_array.pid, Some(lightset::ASUS_PID));
    assert_eq!(hardware.ene_dram.addresses, &[0x70, 0x71, 0x72, 0x73]);
    assert_eq!(hardware.ene_dram.adapter_name_patterns, &["SMBus PIIX4 adapter"]);
    assert_eq!(known_controller().direct_color_order, [0, 2, 1]);
}

#[test]
fn each_defect_of_a_profile_is_named() {
    let good = default_hardware().ene_dram;
    let controller = known_controller();
    let defects = [
        (
            EneDramProfile { adapter_name_patterns: &[], ..good },
            ProfileError::AdapterNamesMissing,
            "ENE adapter names must be specified",
        ),
        (
            EneDramProfile { adapter_name_patterns: &["PIIX4", ""], ..good },
            ProfileError::AdapterNamesMissing,
            "ENE adapter names must be specified",
        ),
        (with_addresses(vec![]), ProfileError::AddressListEmpty, "ENE address list is empty"),
        (
            EneDramProfile { controllers: &[], ..good },
            ProfileError::ControllerListEmpty,
            "ENE controller list is empty",
        ),
        (with_addresses(vec![0x70; 257]), ProfileError::TooManySlots, "too many ENE mapper slots"),
        (
            with_addresses(vec![0x70, 0x02]),
            ProfileError::InvalidAddress(0x02),
            "invalid ENE DRAM address 0x02",
        ),
        (
            with_addresses(vec![0x77]),
            ProfileError::InvalidAddress(0x77),
            "invalid ENE DRAM address 0x77",
        ),
        (
            with_addresses(vec![0x70, 0x71, 0x70]),
            ProfileError::DuplicateAddress(0x70),
            "duplicate ENE DRAM address 0x70",
        ),
        (
            with_controller(EneControllerProfile { version: "", ..controller }),
            ProfileError::VersionEmpty,
            "ENE version is empty",
        ),
        (
            with_controller(EneControllerProfile { led_count: 0, ..controller }),
            ProfileError::ZeroLeds,
            "ENE controller has zero LEDs",
        ),
        (
            with_controller(EneControllerProfile { block_size: 33, ..controller }),
            ProfileError::BlockSize,
            "ENE block size must be 1..=32",
        ),
        (
            with_controller(EneControllerProfile { direct_color_order: [0, 1, 1], ..controller }),
            ProfileError::ColorOrder,
            "ENE color order must be a permutation",
        ),
        (
            with_controller(EneControllerProfile {
                direct_color_register: 0xffe9,
                ..controller
            }),
            ProfileError::ColorRegistersOverflow,
            "ENE color registers overflow",
        ),
    ];
    for (profile, error, message) in defects {
        assert_eq!(validate_profile(&profile), Err(error));
        assert_eq!(error.message(), message);
    }
    let highest = EneControllerProfile { direct_color_register: 0xffe8, ..controller };
    assert_eq!(validate_profile(&with_controller(highest)), Ok(()));
    assert_eq!(validate_profile(&with_addresses(vec![0x03, 0x76])), Ok(()));
}

#[test]
fn a_short_last_block_holds_the_rest() {
    let controller = EneControllerProfile { block_size: 32, led_count: 11, ..known_controller() };
    let writes = direct_color_writes(controller, [1, 2, 3]);
    assert_eq!(writes.len(), 4);
    let whole: Vec<u8> = [1, 3, 2].repeat(11);
    assert_eq!(writes[2], RegisterWrite::Block { register: 0x8100, data: whole[..32].to_vec() });
    assert_eq!(writes[3], RegisterWrite::Block { register: 0x8120, data: whole[32..].to_vec() });
}

#[test]
fn what_is_written_reads_back() {
    for order in [[0, 2, 1], [2, 1, 0], [1, 2, 0]] {
        let controller =
            EneControllerProfile { direct_color_order: order, block_size: 5, ..known_controller() };
        let mut memory = vec![0xee; 0x10000];
        for write in direct_color_writes(controller, [10, 20, 30]) {
            match write {
                RegisterWrite::Byte { register, value } => memory[usize::from(register)] = value,
                RegisterWrite::Block { register, data } => {
                    let start = usize::from(register);
                    memory[start..start + data.len()].copy_from_slice(&data);
                }
            }
        }
        assert_eq!(memory[0x8020], 1);
        assert_eq!(memory[0x80a0], 1);
        assert_eq!(memory[0x80ff], 0xee);
        assert_eq!(memory[0x8118], 0xee);
        assert_eq!(
            decode_direct_colors(&memory[0x8100..0x8118], controller),
            Ok(vec![[10, 20, 30]; 8])
        );
    }
}

#[test]
fn uneven_color_data_is_refused() {
    assert_eq!(decode_direct_colors(&[1, 2, 3, 4], known_controller()), Err(UnevenColorData));
    assert_eq!(decode_direct_colors(&[], known_controller()), Ok(vec![]));
    assert_eq!(
        UnevenColorData.message(),
        "ENE direct-color data must be a multiple of three bytes"
    );
}

#[test]
fn colors_parse_in_either_case() {
    for (lower, other) in [("abcdef", "ABCDEF"), ("abcdef", "aBcDeF"), ("#00ff9a", "#00fF9A")] {
        assert_eq!(parse_rgb(lower), parse_rgb(other));
        assert!(parse_rgb(other).is_ok());
    }
    assert_eq!(parse_rgb("ABCDEG"), Err(ColorError));
}

#[test]
fn some_lamp_has_the_lowest_levels() {
    let lamps = [
        lamp([200, 50, 90], 80, true),
        lamp([100, 60, 90], 40, true),
        lamp([1, 1, 1], 60, false),
    ];
    assert_eq!(range_channels(&lamps, [255, 255, 255]), Ok([100, 50, 90, 40]));
}

#[test]
fn a_changed_report_has_changed_attributes() {
    let mut data: Vec<u8> = (0..29).collect();
    data[0] = 1;
    for at in 1..23 {
        let mut other = data.clone();
        other[at] ^= 0x80;
        assert_ne!(ArrayAttributes::decode(&data), ArrayAttributes::decode(&other));
    }
    data[0] = 3;
    for at in (1..29).filter(|at| *at != 27) {
        let mut other = data.clone();
        other[at] ^= 0x80;
        assert_ne!(LampAttributes::decode(&data), LampAttributes::decode(&other));
    }
    let mut other = data.clone();
    other[27] = 1;
    assert_eq!(LampAttributes::decode(&data), LampAttributes::decode(&other));
    other[27] = 0;
    assert_ne!(LampAttributes::decode(&data), LampAttributes::decode(&other));
}

#[test]
fn the_array_and_its_lamps_are_read_before_the_color_is_sent() {
    let mut array = vec![0; 23];
    array[0] = 1;
    array[1] = 2;
    let mut progress =
        LampProgress { array: None, lamps: vec![], controlled: false, updated: false };
    let rgb = [255, 128, 0];
    assert_eq!(lamp_step(&progress, rgb), LampStep::ReadArray);
    progress.array = Some(ArrayAttributes::decode(&array).unwrap());
    assert_eq!(lamp_step(&progress, rgb), LampStep::ReadLamp { request: [2, 0, 0] });
    progress.lamps.push(lamp([255, 255, 255], 255, true));
    assert_eq!(lamp_step(&progress, rgb), LampStep::ReadLamp { request: [2, 1, 0] });
    progress.lamps.push(lamp([15, 31, 63], 31, true));
    assert_eq!(lamp_step(&progress, rgb), LampStep::TakeControl { control: [6, 0] });
    progress.controlled = true;
    let update = [5, 1, 0, 0, 1, 0, 15, 16, 0, 31];
    assert_eq!(lamp_step(&progress, rgb), LampStep::Update { update });
    progress.updated = true;
    assert_eq!(lamp_step(&progress, rgb), LampStep::Finish);
}

#[test]
fn an_array_that_cannot_show_a_color_is_left_alone() {
    let mut array = vec![0; 23];
    array[0] = 1;
    let mut progress = LampProgress {
        array: Some(ArrayAttributes::decode(&array).unwrap()),
        lamps: vec![],
        controlled: false,
        updated: false,
    };
    let rgb = [1, 2, 3];
    assert_eq!(lamp_step(&progress, rgb), LampStep::Fail { error: RangeError::ZeroLamps });
    array[1] = 1;
    progress.array = Some(ArrayAttributes::decode(&array).unwrap());
    progress.lamps.push(lamp([255, 255, 255], 0, true));
    assert_eq!(lamp_step(&progress, rgb), LampStep::Fail { error: RangeError::NoIntensity });
    assert_eq!(level_update(0, [1, 2, 3, 4]), Err(RangeError::ZeroLamps));
    assert_eq!(level_update(0x1235, [1, 2, 3, 4]), Ok([5, 1, 0, 0, 0x34, 0x12, 1, 2, 3, 4]));
}
