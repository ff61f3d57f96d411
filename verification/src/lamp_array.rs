//! The reports of a HID LampArray device.
use crate::text::decimal_numeral;
use crate::text::push_decimal;
use vstd::prelude::*;

verus! {

pub const ATTRIBUTES_REPORT: u8 = 1;

pub const LAMP_ATTRIBUTES_REQUEST_REPORT: u8 = 2;

pub const LAMP_ATTRIBUTES_RESPONSE_REPORT: u8 = 3;

pub const RANGE_UPDATE_REPORT: u8 = 5;

pub const ARRAY_CONTROL_REPORT: u8 = 6;

/// A report that cannot be read.
#[derive(Debug, Clone, Copy, PartialEq, Eq)]
pub enum ReportError {
    /// The report with this ID has fewer bytes than it must have.
    TooShort { report: u8, length: usize, expected: usize },
    /// The report has another ID.
    WrongId { wanted: u8, found: u8 },
}

impl ReportError {
    /// The text that `message` gives.
    pub open spec fn text(self) -> Seq<char> {
        match self {
            ReportError::TooShort { report, length, expected } => "report "@ + decimal_numeral(
                report as nat,
            ) + " is "@ + decimal_numeral(length as nat) + " bytes, expected at least "@
                + decimal_numeral(expected as nat),
            ReportError::WrongId { wanted, found } => "expected report ID "@ + decimal_numeral(
                wanted as nat,
            ) + ", got "@ + decimal_numeral(found as nat),
        }
    }

    /// Describes the error.
    pub fn message(&self) -> (message: String)
        ensures
            message@ == self.text(),
    {
        match self {
            ReportError::TooShort { report, length, expected } => {
                let mut message: String = "report ".to_owned();
                push_decimal(&mut message, *report as usize);
                message.append(" is ");
                push_decimal(&mut message, *length);
                message.append(" bytes, expected at least ");
                push_decimal(&mut message, *expected);
                message
            },
            ReportError::WrongId { wanted, found } => {
                let mut message: String = "expected report ID ".to_owned();
                push_decimal(&mut message, *wanted as usize);
                message.append(", got ");
                push_decimal(&mut message, *found as usize);
                message
            },
        }
    }
}

/// What is wrong with a report, which must have `expected` bytes and the ID
/// `report`.
pub open spec fn report_error(bytes: Seq<u8>, report: u8, expected: usize) -> Option<ReportError> {
    if bytes.len() < expected {
        Some(ReportError::TooShort { report, length: bytes.len() as usize, expected })
    } else if bytes[0] != report {
        Some(ReportError::WrongId { wanted: report, found: bytes[0] })
    } else {
        None
    }
}

fn check_report(bytes: &[u8], report: u8, expected: usize) -> (result: Result<(), ReportError>)
    requires
        expected > 0,
    ensures
        result is Ok <==> report_error(bytes@, report, expected) is None,
        result matches Err(error) ==> report_error(bytes@, report, expected) == Some(error),
{
    if bytes.len() < expected {
        return Err(ReportError::TooShort { report, length: bytes.len(), expected });
    }
    if bytes[0] != report {
        return Err(ReportError::WrongId { wanted: report, found: bytes[0] });
    }
    Ok(())
}

/// The two bytes at `offset`, the low byte first.
pub open spec fn word_at(bytes: Seq<u8>, offset: int) -> u16 {
    (bytes[offset] + bytes[offset + 1] * 0x100) as u16
}

/// The four bytes at `offset`, the lowest byte first.
pub open spec fn long_at(bytes: Seq<u8>, offset: int) -> u32 {
    (bytes[offset] + bytes[offset + 1] * 0x100 + bytes[offset + 2] * 0x10000 + bytes[offset + 3]
        * 0x1000000) as u32
}

fn le_u16(bytes: &[u8], offset: usize) -> (value: u16)
    requires
        offset + 2 <= bytes@.len(),
    ensures
        value == word_at(bytes@, offset as int),
{
    bytes[offset] as u16 + bytes[offset + 1] as u16 * 0x100
}

/// Reads the four bytes at `offset`, the lowest byte first.
pub fn le_u32(bytes: &[u8], offset: usize) -> (value: u32)
    requires
        offset + 4 <= bytes@.len(),
    ensures
        value == long_at(bytes@, offset as int),
{
    bytes[offset] as u32 + bytes[offset + 1] as u32 * 0x100 + bytes[offset + 2] as u32 * 0x10000
        + bytes[offset + 3] as u32 * 0x1000000
}

#[derive(Debug, Clone, PartialEq, Eq)]
pub struct ArrayAttributes {
    pub lamp_count: u16,
    pub bounding_box_width_um: u32,
    pub bounding_box_height_um: u32,
    pub bounding_box_depth_um: u32,
    pub lamp_array_kind: u32,
    pub min_update_interval_us: u32,
}

/// The attributes of the array in a report.
pub open spec fn array_attributes(bytes: Seq<u8>) -> ArrayAttributes {
    ArrayAttributes {
        lamp_count: word_at(bytes, 1),
        bounding_box_width_um: long_at(bytes, 3),
        bounding_box_height_um: long_at(bytes, 7),
        bounding_box_depth_um: long_at(bytes, 11),
        lamp_array_kind: long_at(bytes, 15),
        min_update_interval_us: long_at(bytes, 19),
    }
}

impl ArrayAttributes {
    pub const REPORT_LEN: usize = 23;

    /// Reads the attributes of the array.
    pub fn decode(bytes: &[u8]) -> (result: Result<Self, ReportError>)
        ensures
            result is Ok <==> bytes@.len() >= 23 && bytes@[0] == ATTRIBUTES_REPORT,
            result matches Ok(attributes) ==> attributes == array_attributes(bytes@),
            result matches Err(error) ==> report_error(bytes@, ATTRIBUTES_REPORT, 23) == Some(
                error,
            ),
    {
        match check_report(bytes, ATTRIBUTES_REPORT, Self::REPORT_LEN) {
            Ok(_) => {},
            Err(error) => {
                return Err(error);
            },
        }
        Ok(
            ArrayAttributes {
                lamp_count: le_u16(bytes, 1),
                bounding_box_width_um: le_u32(bytes, 3),
                bounding_box_height_um: le_u32(bytes, 7),
                bounding_box_depth_um: le_u32(bytes, 11),
                lamp_array_kind: le_u32(bytes, 15),
                min_update_interval_us: le_u32(bytes, 19),
            },
        )
    }
}

#[derive(Debug, Clone, PartialEq, Eq)]
pub struct LampAttributes {
    pub lamp_id: u16,
    pub position_x_um: u32,
    pub position_y_um: u32,
    pub position_z_um: u32,
    pub purposes: u32,
    pub update_latency_us: u32,
    pub red_level_count: u8,
    pub green_level_count: u8,
    pub blue_level_count: u8,
    pub intensity_level_count: u8,
    pub is_programmable: bool,
    pub input_binding: u8,
}

/// The attributes of a lamp in a report. The descriptor declares the latency
/// before the purposes, so the order in the report differs from that of the
/// fields.
pub open spec fn lamp_attributes(bytes: Seq<u8>) -> LampAttributes {
    LampAttributes {
        lamp_id: word_at(bytes, 1),
        position_x_um: long_at(bytes, 3),
        position_y_um: long_at(bytes, 7),
        position_z_um: long_at(bytes, 11),
        update_latency_us: long_at(bytes, 15),
        purposes: long_at(bytes, 19),
        red_level_count: bytes[23],
        green_level_count: bytes[24],
        blue_level_count: bytes[25],
        intensity_level_count: bytes[26],
        is_programmable: bytes[27] != 0,
        input_binding: bytes[28],
    }
}

impl LampAttributes {
    pub const REPORT_LEN: usize = 29;

    /// Reads the attributes of a lamp.
    pub fn decode(bytes: &[u8]) -> (result: Result<Self, ReportError>)
        ensures
            result is Ok <==> bytes@.len() >= 29 && bytes@[0] == LAMP_ATTRIBUTES_RESPONSE_REPORT,
            result matches Ok(attributes) ==> attributes == lamp_attributes(bytes@),
            result matches Err(error) ==> report_error(
                bytes@,
                LAMP_ATTRIBUTES_RESPONSE_REPORT,
                29,
            ) == Some(error),
    {
        match check_report(bytes, LAMP_ATTRIBUTES_RESPONSE_REPORT, Self::REPORT_LEN) {
            Ok(_) => {},
            Err(error) => {
                return Err(error);
            },
        }
        Ok(
            LampAttributes {
                lamp_id: le_u16(bytes, 1),
                position_x_um: le_u32(bytes, 3),
                position_y_um: le_u32(bytes, 7),
                position_z_um: le_u32(bytes, 11),
                update_latency_us: le_u32(bytes, 15),
                purposes: le_u32(bytes, 19),
                red_level_count: bytes[23],
                green_level_count: bytes[24],
                blue_level_count: bytes[25],
                intensity_level_count: bytes[26],
                is_programmable: bytes[27] != 0,
                input_binding: bytes[28],
            },
        )
    }
}

/// Only the bytes that a report must have are read; more may follow.
pub proof fn decoding_ignores_what_follows(bytes: Seq<u8>)
    ensures
        bytes.len() >= 23 ==> array_attributes(bytes.take(23)) == array_attributes(bytes),
        bytes.len() >= 29 ==> lamp_attributes(bytes.take(29)) == lamp_attributes(bytes),
{
}

/// Array reports with the same attributes have the same bytes, as far as they
/// are read.
pub proof fn array_attributes_determine_the_report(bytes: Seq<u8>, other: Seq<u8>)
    requires
        report_error(bytes, ATTRIBUTES_REPORT, 23) is None,
        report_error(other, ATTRIBUTES_REPORT, 23) is None,
        array_attributes(bytes) == array_attributes(other),
    ensures
        bytes.take(23) == other.take(23),
{
    lemma_word_determines(bytes, other, 1);
    lemma_long_determines(bytes, other, 3);
    lemma_long_determines(bytes, other, 7);
    lemma_long_determines(bytes, other, 11);
    lemma_long_determines(bytes, other, 15);
    lemma_long_determines(bytes, other, 19);
    assert(bytes.take(23) =~= other.take(23));
}

/// Lamp reports with the same attributes have the same bytes, as far as they
/// are read, but for the byte that tells whether the lamp is programmable: all
/// that is read of it is whether it is zero.
pub proof fn lamp_attributes_determine_the_report(bytes: Seq<u8>, other: Seq<u8>)
    requires
        report_error(bytes, LAMP_ATTRIBUTES_RESPONSE_REPORT, 29) is None,
        report_error(other, LAMP_ATTRIBUTES_RESPONSE_REPORT, 29) is None,
        lamp_attributes(bytes) == lamp_attributes(other),
    ensures
        bytes.take(27) == other.take(27),
        bytes[27] == 0 <==> other[27] == 0,
        bytes[28] == other[28],
{
    lemma_word_determines(bytes, other, 1);
    lemma_long_determines(bytes, other, 3);
    lemma_long_determines(bytes, other, 7);
    lemma_long_determines(bytes, other, 11);
    lemma_long_determines(bytes, other, 15);
    lemma_long_determines(bytes, other, 19);
    assert(bytes.take(27) =~= other.take(27));
}

proof fn lemma_word_determines(bytes: Seq<u8>, other: Seq<u8>, offset: int)
    requires
        word_at(bytes, offset) == word_at(other, offset),
    ensures
        bytes[offset] == other[offset],
        bytes[offset + 1] == other[offset + 1],
{
}

proof fn lemma_long_determines(bytes: Seq<u8>, other: Seq<u8>, offset: int)
    requires
        long_at(bytes, offset) == long_at(other, offset),
    ensures
        bytes[offset] == other[offset],
        bytes[offset + 1] == other[offset + 1],
        bytes[offset + 2] == other[offset + 2],
        bytes[offset + 3] == other[offset + 3],
{
}

/// The report that asks for the attributes of a lamp.
pub fn lamp_request(lamp_id: u16) -> (report: [u8; 3])
    ensures
        report@ == seq![
            LAMP_ATTRIBUTES_REQUEST_REPORT,
            (lamp_id % 256) as u8,
            (lamp_id / 256) as u8,
        ],
{
    let report: [u8; 3] = [
        LAMP_ATTRIBUTES_REQUEST_REPORT,
        (lamp_id % 256) as u8,
        (lamp_id / 256) as u8,
    ];
    assert(report@ =~= seq![
        LAMP_ATTRIBUTES_REQUEST_REPORT,
        (lamp_id % 256) as u8,
        (lamp_id / 256) as u8,
    ]);
    report
}

/// The report that hands control of the lamps to the host.
pub fn disable_autonomous_mode() -> (report: [u8; 2])
    ensures
        report@ == seq![ARRAY_CONTROL_REPORT, 0u8],
{
    let report: [u8; 2] = [ARRAY_CONTROL_REPORT, 0];
    assert(report@ =~= seq![ARRAY_CONTROL_REPORT, 0u8]);
    report
}

/// Why no color can be chosen for an array.
#[derive(Debug, Clone, Copy, PartialEq, Eq)]
pub enum RangeError {
    ZeroLamps,
    NoIntensity,
}

impl RangeError {
    /// The text that `message` gives.
    pub open spec fn text(self) -> Seq<char> {
        match self {
            RangeError::ZeroLamps => "device reports zero lamps"@,
            RangeError::NoIntensity => "at least one lamp has no usable intensity channel"@,
        }
    }

    /// Describes the error.
    pub fn message(&self) -> (message: String)
        ensures
            message@ == self.text(),
    {
        match self {
            RangeError::ZeroLamps => "device reports zero lamps".to_owned(),
            RangeError::NoIntensity => {
                "at least one lamp has no usable intensity channel".to_owned()
            },
        }
    }
}

/// The report that sets the lamps 0 to `lamp_count - 1` to a color at full
/// intensity, and completes the update.
pub open spec fn range_update_report(lamp_count: u16, rgb: Seq<u8>) -> Seq<u8> {
    seq![
        RANGE_UPDATE_REPORT,
        0x01u8,
        0u8,
        0u8,
        ((lamp_count - 1) % 256) as u8,
        ((lamp_count - 1) / 256) as u8,
        rgb[0],
        rgb[1],
        rgb[2],
        0xffu8,
    ]
}

/// The report that sets all lamps of an array to a color.
pub fn range_update(lamp_count: u16, rgb: [u8; 3]) -> (result: Result<[u8; 10], RangeError>)
    ensures
        result is Ok <==> lamp_count > 0,
        result matches Ok(report) ==> report@ == range_update_report(lamp_count, rgb@),
        result matches Err(error) ==> error == RangeError::ZeroLamps,
{
    if lamp_count == 0 {
        return Err(RangeError::ZeroLamps);
    }
    let last: u16 = lamp_count - 1;
    let report: [u8; 10] = [
        RANGE_UPDATE_REPORT,
        0x01,
        0,
        0,
        (last % 256) as u8,
        (last / 256) as u8,
        rgb[0],
        rgb[1],
        rgb[2],
        0xff,
    ];
    assert(report@ =~= range_update_report(lamp_count, rgb@));
    Ok(report)
}

/// Lamp numbers go out as they come in: a request names its lamp, and an
/// update its first and last lamp, in the form in which attributes are read.
pub proof fn lamp_numbers_are_little_endian(lamp_id: u16, lamp_count: u16, rgb: Seq<u8>)
    requires
        lamp_count > 0,
    ensures
        word_at(
            seq![
                LAMP_ATTRIBUTES_REQUEST_REPORT,
                (lamp_id % 256) as u8,
                (lamp_id / 256) as u8,
            ],
            1,
        ) == lamp_id,
        word_at(range_update_report(lamp_count, rgb), 2) == 0,
        word_at(range_update_report(lamp_count, rgb), 4) == lamp_count - 1,
{
}

/// An eight-bit value scaled to `0..=maximum`, rounded to the nearest level.
pub open spec fn scaled(input: u8, maximum: u8) -> u8 {
    ((input * maximum + 127) / 255) as u8
}

proof fn lemma_scaled(input: u8, maximum: u8)
    ensures
        0 <= input * maximum <= 255 * maximum,
        (input * maximum + 127) / 255 <= maximum,
{
    assert(0 <= input * maximum <= 255 * maximum) by (nonlinear_arith)
        requires
            0 <= input <= 255,
            0 <= maximum,
    ;
}

/// Scales an eight-bit value to the levels of a channel.
pub fn scale_channel(input: u8, maximum: u8) -> (level: u8)
    ensures
        level == scaled(input, maximum),
        level <= maximum,
{
    proof {
        lemma_scaled(input, maximum);
    }
    ((input as u16 * maximum as u16 + 127) / 255) as u8
}

/// Scaling keeps to the levels of a channel: nothing stays nothing, full becomes
/// the highest level, a larger value never becomes a lower level, and every
/// value becomes the level nearest to it.
pub proof fn scaling_spans_the_levels(input: u8, other: u8, maximum: u8)
    ensures
        scaled(0, maximum) == 0,
        scaled(255, maximum) == maximum,
        scaled(input, 255) == input,
        input <= other ==> scaled(input, maximum) <= scaled(other, maximum),
        -127 <= scaled(input, maximum) * 255 - input * maximum <= 127,
{
    lemma_scaled(input, maximum);
    lemma_scaled(other, maximum);
    if input <= other {
        assert(input * maximum <= other * maximum) by (nonlinear_arith)
            requires
                input <= other,
                0 <= maximum,
        ;
    }
}

/// A channel of a lamp.
pub enum Channel {
    Red,
    Green,
    Blue,
}

/// The number of levels of a lamp's channel.
pub open spec fn levels(lamp: LampAttributes, channel: Channel) -> u8 {
    match channel {
        Channel::Red => lamp.red_level_count,
        Channel::Green => lamp.green_level_count,
        Channel::Blue => lamp.blue_level_count,
    }
}

/// The lowest number of levels among the programmable lamps.
pub open spec fn lowest_levels(lamps: Seq<LampAttributes>, channel: Channel) -> u8
    decreases lamps.len(),
{
    if lamps.len() == 0 {
        u8::MAX
    } else {
        let others = lowest_levels(lamps.drop_last(), channel);
        if lamps.last().is_programmable && levels(lamps.last(), channel) < others {
            levels(lamps.last(), channel)
        } else {
            others
        }
    }
}

/// Whether one of the lamps is programmable.
pub open spec fn any_programmable(lamps: Seq<LampAttributes>) -> bool {
    exists|i: int| 0 <= i < lamps.len() && (#[trigger] lamps[i]).is_programmable
}

/// The level up to which a channel of the whole range can be driven: nothing,
/// if no lamp is programmable.
pub open spec fn channel_limit(lamps: Seq<LampAttributes>, channel: Channel) -> u8 {
    if any_programmable(lamps) {
        lowest_levels(lamps, channel)
    } else {
        0
    }
}

/// The lowest intensity level count among all lamps.
pub open spec fn lowest_intensity(lamps: Seq<LampAttributes>) -> u8
    decreases lamps.len(),
{
    if lamps.len() == 0 {
        u8::MAX
    } else {
        let others = lowest_intensity(lamps.drop_last());
        if lamps.last().intensity_level_count < others {
            lamps.last().intensity_level_count
        } else {
            others
        }
    }
}

/// The red, green, blue and intensity levels for a range of lamps.
pub open spec fn range_levels(lamps: Seq<LampAttributes>, rgb: Seq<u8>) -> Seq<u8> {
    seq![
        scaled(rgb[0], channel_limit(lamps, Channel::Red)),
        scaled(rgb[1], channel_limit(lamps, Channel::Green)),
        scaled(rgb[2], channel_limit(lamps, Channel::Blue)),
        lowest_intensity(lamps),
    ]
}

fn lower(left: u8, right: u8) -> (lowest: u8)
    ensures
        lowest == if right < left { right } else { left },
{
    if right < left {
        right
    } else {
        left
    }
}

/// Selects a single RGBI tuple that is legal for all lamps in a range.
pub fn range_channels(lamps: &[LampAttributes], rgb: [u8; 3]) -> (result: Result<
    [u8; 4],
    RangeError,
>)
    ensures
        result is Ok <==> lamps@.len() > 0 && lowest_intensity(lamps@) > 0,
        result matches Ok(channels) ==> channels@ == range_levels(lamps@, rgb@),
        result matches Err(error) ==> error == (if lamps@.len() == 0 {
            RangeError::ZeroLamps
        } else {
            RangeError::NoIntensity
        }),
{
    if lamps.len() == 0 {
        return Err(RangeError::ZeroLamps);
    }
    let mut red: u8 = 255;
    let mut green: u8 = 255;
    let mut blue: u8 = 255;
    let mut intensity: u8 = 255;
    let mut programmable: bool = false;
    let mut i: usize = 0;
    while i < lamps.len()
        invariant
            i <= lamps@.len(),
            red == lowest_levels(lamps@.take(i as int), Channel::Red),
            green == lowest_levels(lamps@.take(i as int), Channel::Green),
            blue == lowest_levels(lamps@.take(i as int), Channel::Blue),
            intensity == lowest_intensity(lamps@.take(i as int)),
            programmable == any_programmable(lamps@.take(i as int)),
        decreases lamps@.len() - i,
    {
        let lamp: &LampAttributes = &lamps[i];
        let ghost before = lamps@.take(i as int);
        let ghost after = lamps@.take(i + 1);
        assert(after.drop_last() =~= before);
        assert(after.last() == *lamp);
        proof {
            if lamp.is_programmable {
                assert(after[i as int].is_programmable);
            }
            if any_programmable(before) {
                let k = choose|k: int| 0 <= k < before.len() && (#[trigger] before[k]).is_programmable;
                assert(after[k].is_programmable);
            }
            if any_programmable(after) && !lamp.is_programmable {
                let k = choose|k: int| 0 <= k < after.len() && (#[trigger] after[k]).is_programmable;
                assert(before[k].is_programmable);
            }
        }
        if lamp.is_programmable {
            programmable = true;
            red = lower(red, lamp.red_level_count);
            green = lower(green, lamp.green_level_count);
            blue = lower(blue, lamp.blue_level_count);
        }
        intensity = lower(intensity, lamp.intensity_level_count);
        i = i + 1;
    }
    assert(lamps@.take(i as int) =~= lamps@);
    if !programmable {
        red = 0;
        green = 0;
        blue = 0;
    }
    if intensity == 0 {
        return Err(RangeError::NoIntensity);
    }
    let channels: [u8; 4] = [
        scale_channel(rgb[0], red),
        scale_channel(rgb[1], green),
        scale_channel(rgb[2], blue),
        intensity,
    ];
    assert(channels@ =~= range_levels(lamps@, rgb@));
    Ok(channels)
}

proof fn lemma_lowest_levels(lamps: Seq<LampAttributes>, channel: Channel, index: int)
    requires
        0 <= index < lamps.len(),
        lamps[index].is_programmable,
    ensures
        lowest_levels(lamps, channel) <= levels(lamps[index], channel),
    decreases lamps.len(),
{
    if index < lamps.len() - 1 {
        lemma_lowest_levels(lamps.drop_last(), channel, index);
    }
}

proof fn lemma_lowest_intensity(lamps: Seq<LampAttributes>, index: int)
    requires
        0 <= index < lamps.len(),
    ensures
        lowest_intensity(lamps) <= lamps[index].intensity_level_count,
    decreases lamps.len(),
{
    if index < lamps.len() - 1 {
        lemma_lowest_intensity(lamps.drop_last(), index);
    }
}

/// Some programmable lamp has no more levels than the range is limited to.
pub proof fn lowest_levels_are_those_of_a_lamp(lamps: Seq<LampAttributes>, channel: Channel)
    requires
        any_programmable(lamps),
    ensures
        exists|i: int|
            0 <= i < lamps.len() && (#[trigger] lamps[i]).is_programmable && levels(
                lamps[i],
                channel,
            ) == lowest_levels(lamps, channel),
    decreases lamps.len(),
{
    let others = lamps.drop_last();
    let last = lamps.len() - 1;
    let k = choose|k: int| 0 <= k < lamps.len() && (#[trigger] lamps[k]).is_programmable;
    if any_programmable(others) {
        lowest_levels_are_those_of_a_lamp(others, channel);
        let i = choose|i: int|
            0 <= i < others.len() && (#[trigger] others[i]).is_programmable && levels(
                others[i],
                channel,
            ) == lowest_levels(others, channel);
        assert(lamps[i] == others[i]);
        assert(lamps[last] == lamps.last());
    } else {
        if k < last {
            assert(others[k].is_programmable);
        }
        lemma_no_levels_without_programmable(others, channel);
        assert(lamps[last].is_programmable);
    }
}

proof fn lemma_no_levels_without_programmable(lamps: Seq<LampAttributes>, channel: Channel)
    requires
        !any_programmable(lamps),
    ensures
        lowest_levels(lamps, channel) == u8::MAX,
    decreases lamps.len(),
{
    if lamps.len() > 0 {
        let others = lamps.drop_last();
        assert(!lamps[lamps.len() - 1].is_programmable);
        assert forall|i: int| 0 <= i < others.len() implies !(
        #[trigger] others[i]).is_programmable by {
            assert(others[i] == lamps[i]);
        }
        lemma_no_levels_without_programmable(others, channel);
    }
}

/// Some lamp has no more intensity levels than the range is given.
pub proof fn lowest_intensity_is_that_of_a_lamp(lamps: Seq<LampAttributes>)
    requires
        lamps.len() > 0,
    ensures
        exists|i: int|
            0 <= i < lamps.len() && (#[trigger] lamps[i]).intensity_level_count
                == lowest_intensity(lamps),
    decreases lamps.len(),
{
    let others = lamps.drop_last();
    let last = lamps.len() - 1;
    if others.len() > 0 {
        lowest_intensity_is_that_of_a_lamp(others);
        let i = choose|i: int|
            0 <= i < others.len() && (#[trigger] others[i]).intensity_level_count
                == lowest_intensity(others);
        assert(lamps[i] == others[i]);
    }
    assert(lamps[last] == lamps.last());
    if others.len() == 0 {
        assert(lowest_intensity(others) == u8::MAX);
    }
}

/// The levels for a range are legal for every lamp in it: the colors stay
/// within the levels of each programmable lamp, the intensity within those of
/// each lamp.
pub proof fn range_levels_stay_within_every_lamp(
    lamps: Seq<LampAttributes>,
    rgb: Seq<u8>,
    index: int,
)
    requires
        0 <= index < lamps.len(),
    ensures
        ({
            let chosen = range_levels(lamps, rgb);
            &&& lamps[index].is_programmable ==> {
                &&& chosen[0] <= lamps[index].red_level_count
                &&& chosen[1] <= lamps[index].green_level_count
                &&& chosen[2] <= lamps[index].blue_level_count
            }
            &&& chosen[3] <= lamps[index].intensity_level_count
        }),
{
    lemma_scaled(rgb[0], channel_limit(lamps, Channel::Red));
    lemma_scaled(rgb[1], channel_limit(lamps, Channel::Green));
    lemma_scaled(rgb[2], channel_limit(lamps, Channel::Blue));
    lemma_lowest_intensity(lamps, index);
    if lamps[index].is_programmable {
        lemma_lowest_levels(lamps, Channel::Red, index);
        lemma_lowest_levels(lamps, Channel::Green, index);
        lemma_lowest_levels(lamps, Channel::Blue, index);
    }
}

/// The fields of an array report lie one after the other behind its ID, the
/// lowest byte of each first.
pub proof fn array_fields_lie_in_order(bytes: Seq<u8>)
    ensures
        ({
            let array = array_attributes(bytes);
            &&& array.lamp_count == bytes[1] + 256 * bytes[2]
            &&& array.bounding_box_width_um == bytes[3] + 0x100 * bytes[4] + 0x1_0000 * bytes[5]
                + 0x100_0000 * bytes[6]
            &&& array.bounding_box_height_um == bytes[7] + 0x100 * bytes[8] + 0x1_0000 * bytes[9]
                + 0x100_0000 * bytes[10]
            &&& array.bounding_box_depth_um == bytes[11] + 0x100 * bytes[12] + 0x1_0000 * bytes[13]
                + 0x100_0000 * bytes[14]
            &&& array.lamp_array_kind == bytes[15] + 0x100 * bytes[16] + 0x1_0000 * bytes[17]
                + 0x100_0000 * bytes[18]
            &&& array.min_update_interval_us == bytes[19] + 0x100 * bytes[20] + 0x1_0000 * bytes[21]
                + 0x100_0000 * bytes[22]
        }),
{
}

/// The fields of a lamp report lie one after the other behind its ID, the lowest
/// byte of each first, and the latency before the purposes.
pub proof fn lamp_fields_lie_in_order(bytes: Seq<u8>)
    ensures
        ({
            let lamp = lamp_attributes(bytes);
            &&& lamp.lamp_id == bytes[1] + 256 * bytes[2]
            &&& lamp.position_x_um == bytes[3] + 0x100 * bytes[4] + 0x1_0000 * bytes[5]
                + 0x100_0000 * bytes[6]
            &&& lamp.position_y_um == bytes[7] + 0x100 * bytes[8] + 0x1_0000 * bytes[9]
                + 0x100_0000 * bytes[10]
            &&& lamp.position_z_um == bytes[11] + 0x100 * bytes[12] + 0x1_0000 * bytes[13]
                + 0x100_0000 * bytes[14]
            &&& lamp.update_latency_us == bytes[15] + 0x100 * bytes[16] + 0x1_0000 * bytes[17]
                + 0x100_0000 * bytes[18]
            &&& lamp.purposes == bytes[19] + 0x100 * bytes[20] + 0x1_0000 * bytes[21] + 0x100_0000
                * bytes[22]
            &&& lamp.red_level_count == bytes[23]
            &&& lamp.green_level_count == bytes[24]
            &&& lamp.blue_level_count == bytes[25]
            &&& lamp.intensity_level_count == bytes[26]
            &&& lamp.is_programmable <==> bytes[27] != 0
            &&& lamp.input_binding == bytes[28]
        }),
{
}

/// A report is refused exactly if it is too short or has another ID, and it is
/// called too short where both hold.
pub proof fn reports_are_refused_for_length_or_id(bytes: Seq<u8>, report: u8, expected: usize)
    requires
        0 < expected,
        bytes.len() <= usize::MAX,
    ensures
        report_error(bytes, report, expected) is None <==> bytes.len() >= expected && bytes[0]
            == report,
        bytes.len() < expected ==> report_error(bytes, report, expected) == Some(
            ReportError::TooShort { report, length: bytes.len() as usize, expected },
        ),
        bytes.len() >= expected && bytes[0] != report ==> report_error(bytes, report, expected)
            == Some(ReportError::WrongId { wanted: report, found: bytes[0] }),
{
}

/// An update names its report, completes the update at once, covers the lamps
/// from the first to the last, and carries the color at full intensity.
pub proof fn update_covers_every_lamp(lamp_count: u16, rgb: Seq<u8>)
    requires
        lamp_count > 0,
    ensures
        ({
            let report = range_update_report(lamp_count, rgb);
            &&& report.len() == 10
            &&& report[0] == 5
            &&& report[1] == 1
            &&& report[2] == 0 && report[3] == 0
            &&& report[4] + 256 * report[5] == lamp_count - 1
            &&& report[6] == rgb[0]
            &&& report[7] == rgb[1]
            &&& report[8] == rgb[2]
            &&& report[9] == 0xff
        }),
{
}

/// Whether a level is the one nearest to a component, where `levels` are to be
/// had: it differs from the component's share of them by less than half a level.
pub open spec fn is_nearest_level(level: u8, component: u8, levels: u8) -> bool {
    -255 < 2 * (255 * level - component * levels) < 255
}

/// Each channel shows its own component. Where some lamp is programmable, some
/// programmable lamp has the fewest levels of red among them all, and the chosen
/// level of red is the one of these nearest to the red of the color; likewise
/// with green and with blue. Where no lamp is programmable, there is no color.
/// The intensity is the fewest intensity levels that a lamp has.
pub proof fn each_channel_shows_its_own_component(lamps: Seq<LampAttributes>, rgb: Seq<u8>)
    requires
        lamps.len() > 0,
    ensures
        ({
            let chosen = range_levels(lamps, rgb);
            let some_programmable = exists|i: int|
                0 <= i < lamps.len() && (#[trigger] lamps[i]).is_programmable;
            &&& chosen.len() == 4
            &&& some_programmable ==> exists|i: int|
                {
                    &&& 0 <= i < lamps.len()
                    &&& (#[trigger] lamps[i]).is_programmable
                    &&& forall|j: int|
                        0 <= j < lamps.len() && (#[trigger] lamps[j]).is_programmable
                            ==> lamps[i].red_level_count <= lamps[j].red_level_count
                    &&& is_nearest_level(chosen[0], rgb[0], lamps[i].red_level_count)
                }
            &&& some_programmable ==> exists|i: int|
                {
                    &&& 0 <= i < lamps.len()
                    &&& (#[trigger] lamps[i]).is_programmable
                    &&& forall|j: int|
                        0 <= j < lamps.len() && (#[trigger] lamps[j]).is_programmable
                            ==> lamps[i].green_level_count <= lamps[j].green_level_count
                    &&& is_nearest_level(chosen[1], rgb[1], lamps[i].green_level_count)
                }
            &&& some_programmable ==> exists|i: int|
                {
                    &&& 0 <= i < lamps.len()
                    &&& (#[trigger] lamps[i]).is_programmable
                    &&& forall|j: int|
                        0 <= j < lamps.len() && (#[trigger] lamps[j]).is_programmable
                            ==> lamps[i].blue_level_count <= lamps[j].blue_level_count
                    &&& is_nearest_level(chosen[2], rgb[2], lamps[i].blue_level_count)
                }
            &&& !some_programmable ==> chosen[0] == 0 && chosen[1] == 0 && chosen[2] == 0
            &&& exists|i: int|
                {
                    &&& 0 <= i < lamps.len()
                    &&& chosen[3] == (#[trigger] lamps[i]).intensity_level_count
                    &&& forall|j: int|
                        0 <= j < lamps.len() ==> lamps[i].intensity_level_count <= (
                        #[trigger] lamps[j]).intensity_level_count
                }
        }),
{
    let chosen = range_levels(lamps, rgb);
    lemma_nearest(rgb[0], channel_limit(lamps, Channel::Red));
    lemma_nearest(rgb[1], channel_limit(lamps, Channel::Green));
    lemma_nearest(rgb[2], channel_limit(lamps, Channel::Blue));
    if any_programmable(lamps) {
        let red = lemma_lamp_with_lowest_levels(lamps, Channel::Red);
        let green = lemma_lamp_with_lowest_levels(lamps, Channel::Green);
        let blue = lemma_lamp_with_lowest_levels(lamps, Channel::Blue);
        assert(lamps[red].is_programmable && is_nearest_level(
            chosen[0],
            rgb[0],
            lamps[red].red_level_count,
        ));
        assert(lamps[green].is_programmable && is_nearest_level(
            chosen[1],
            rgb[1],
            lamps[green].green_level_count,
        ));
        assert(lamps[blue].is_programmable && is_nearest_level(
            chosen[2],
            rgb[2],
            lamps[blue].blue_level_count,
        ));
    } else {
        scaling_spans_the_levels(rgb[0], rgb[0], 0);
        scaling_spans_the_levels(rgb[1], rgb[1], 0);
        scaling_spans_the_levels(rgb[2], rgb[2], 0);
        lemma_scaled(rgb[0], 0);
        lemma_scaled(rgb[1], 0);
        lemma_scaled(rgb[2], 0);
    }
    lowest_intensity_is_that_of_a_lamp(lamps);
    let dimmest = choose|i: int|
        0 <= i < lamps.len() && (#[trigger] lamps[i]).intensity_level_count == lowest_intensity(
            lamps,
        );
    assert forall|j: int| 0 <= j < lamps.len() implies lamps[dimmest].intensity_level_count <= (
    #[trigger] lamps[j]).intensity_level_count by {
        lemma_lowest_intensity(lamps, j);
    }
    assert(chosen[3] == lamps[dimmest].intensity_level_count);
}

proof fn lemma_nearest(component: u8, levels: u8)
    ensures
        is_nearest_level(scaled(component, levels), component, levels),
{
    scaling_spans_the_levels(component, component, levels);
}

proof fn lemma_lamp_with_lowest_levels(lamps: Seq<LampAttributes>, channel: Channel) -> (found: int)
    requires
        any_programmable(lamps),
    ensures
        0 <= found < lamps.len(),
        lamps[found].is_programmable,
        levels(lamps[found], channel) == lowest_levels(lamps, channel),
        forall|j: int|
            0 <= j < lamps.len() && (#[trigger] lamps[j]).is_programmable ==> levels(
                lamps[found],
                channel,
            ) <= levels(lamps[j], channel),
{
    lowest_levels_are_those_of_a_lamp(lamps, channel);
    let found = choose|i: int|
        0 <= i < lamps.len() && (#[trigger] lamps[i]).is_programmable && levels(lamps[i], channel)
            == lowest_levels(lamps, channel);
    assert forall|j: int| 0 <= j < lamps.len() && (
    #[trigger] lamps[j]).is_programmable implies levels(lamps[found], channel) <= levels(
        lamps[j],
        channel,
    ) by {
        lemma_lowest_levels(lamps, channel, j);
    }
    found
}

/// Where every programmable lamp has all levels, and one is programmable, the
/// color is shown as it is.
pub proof fn full_levels_show_the_color_itself(lamps: Seq<LampAttributes>, rgb: Seq<u8>)
    requires
        rgb.len() == 3,
        exists|i: int| 0 <= i < lamps.len() && (#[trigger] lamps[i]).is_programmable,
        forall|i: int|
            0 <= i < lamps.len() && (#[trigger] lamps[i]).is_programmable
                ==> lamps[i].red_level_count == 255 && lamps[i].green_level_count == 255
                && lamps[i].blue_level_count == 255,
    ensures
        range_levels(lamps, rgb).take(3) == rgb,
{
    each_channel_shows_its_own_component(lamps, rgb);
    assert(range_levels(lamps, rgb).take(3) =~= rgb);
}

/// A range can be lit exactly if it has lamps and every one of them has an
/// intensity.
pub proof fn usable_intensity_is_that_of_every_lamp(lamps: Seq<LampAttributes>)
    requires
        lamps.len() > 0,
    ensures
        lowest_intensity(lamps) > 0 <==> forall|i: int|
            0 <= i < lamps.len() ==> (#[trigger] lamps[i]).intensity_level_count > 0,
{
    lowest_intensity_is_that_of_a_lamp(lamps);
    if lowest_intensity(lamps) > 0 {
        assert forall|i: int| 0 <= i < lamps.len() implies (
        #[trigger] lamps[i]).intensity_level_count > 0 by {
            lemma_lowest_intensity(lamps, i);
        }
    }
}

/// A report that is refused is named with its numbers.
pub proof fn refused_reports_are_named(report: u8, found: u8, length: usize, expected: usize)
    ensures
        (ReportError::TooShort { report, length, expected }).text() == "report "@ + decimal_numeral(
            report as nat,
        ) + " is "@ + decimal_numeral(length as nat) + " bytes, expected at least "@
            + decimal_numeral(expected as nat),
        (ReportError::WrongId { wanted: report, found }).text() == "expected report ID "@
            + decimal_numeral(report as nat) + ", got "@ + decimal_numeral(found as nat),
{
}

/// Numbers lie in a report with their lowest byte first, wherever they lie.
pub proof fn numbers_lie_lowest_byte_first(bytes: Seq<u8>, offset: int)
    ensures
        word_at(bytes, offset) == bytes[offset] + 256 * bytes[offset + 1],
        long_at(bytes, offset) == bytes[offset] + 0x100 * bytes[offset + 1] + 0x1_0000
            * bytes[offset + 2] + 0x100_0000 * bytes[offset + 3],
{
}

} // verus!
