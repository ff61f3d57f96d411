//! The reports that set the color of a LampArray, one after the other.
use crate::lamp_array::disable_autonomous_mode;
use crate::lamp_array::lamp_request;
use crate::lamp_array::lowest_intensity;
use crate::lamp_array::range_channels;
use crate::lamp_array::range_levels;
use crate::lamp_array::range_update;
use crate::lamp_array::range_update_report;
use crate::lamp_array::update_covers_every_lamp;
use crate::lamp_array::usable_intensity_is_that_of_every_lamp;
use crate::lamp_array::ArrayAttributes;
use crate::lamp_array::LampAttributes;
use crate::lamp_array::RangeError;
use crate::lamp_array::ARRAY_CONTROL_REPORT;
use crate::lamp_array::LAMP_ATTRIBUTES_REQUEST_REPORT;
use vstd::prelude::*;

verus! {

/// How far setting the color of a LampArray has come.
#[derive(Debug, Clone, PartialEq, Eq)]
pub struct LampProgress {
    /// The attributes of the array, once they were read.
    pub array: Option<ArrayAttributes>,
    /// The attributes of the lamps that were read, from the first lamp on.
    pub lamps: Vec<LampAttributes>,
    /// Whether the host controls the lamps.
    pub controlled: bool,
    /// Whether the color was sent.
    pub updated: bool,
}

/// What comes next.
#[derive(Debug, Clone, Copy, PartialEq, Eq)]
pub enum LampStep {
    /// Fetch the report with the attributes of the array.
    ReadArray,
    /// Send this request and fetch the report with the attributes of a lamp.
    ReadLamp { request: [u8; 3] },
    /// Send this report, which gives the host control of the lamps.
    TakeControl { control: [u8; 2] },
    /// Send this report, which sets the color.
    Update { update: [u8; 10] },
    /// All is done.
    Finish,
    /// The array cannot show a color.
    Fail { error: RangeError },
}

/// The report that sets the lamps 0 to `lamp_count - 1` to levels of red, green,
/// blue and intensity.
pub open spec fn level_report(lamp_count: u16, levels: Seq<u8>) -> Seq<u8> {
    range_update_report(lamp_count, levels).update(9, levels[3])
}

/// The report that sets all lamps of an array to levels of red, green, blue and
/// intensity.
pub fn level_update(lamp_count: u16, levels: [u8; 4]) -> (result: Result<[u8; 10], RangeError>)
    ensures
        result is Ok <==> lamp_count > 0,
        result matches Ok(report) ==> report@ == level_report(lamp_count, levels@),
        result matches Err(error) ==> error == RangeError::ZeroLamps,
{
    let rgb: [u8; 3] = [levels[0], levels[1], levels[2]];
    match range_update(lamp_count, rgb) {
        Ok(report) => {
            let mut report: [u8; 10] = report;
            report[9] = levels[3];
            assert(report@ =~= level_report(lamp_count, levels@));
            Ok(report)
        },
        Err(error) => Err(error),
    }
}

/// Whether the attributes of the array and of all its lamps were read.
pub open spec fn all_read(progress: LampProgress) -> bool {
    progress.array matches Some(array) && progress.lamps@.len() >= array.lamp_count
}

/// Why the array cannot show a color, once all attributes were read.
pub open spec fn lighting_error(progress: LampProgress) -> Option<RangeError> {
    if progress.lamps@.len() == 0 || progress.array->Some_0.lamp_count == 0 {
        Some(RangeError::ZeroLamps)
    } else if lowest_intensity(progress.lamps@) == 0 {
        Some(RangeError::NoIntensity)
    } else {
        None
    }
}

/// Decides what comes next. The attributes of the array are read first and then
/// those of each lamp, in order. Only when it is certain that the array can show
/// the color does the host take control, and then the color is sent.
pub fn lamp_step(progress: &LampProgress, rgb: [u8; 3]) -> (step: LampStep)
    ensures
        step is ReadArray <==> progress.array is None,
        step is ReadLamp <==> progress.array is Some && !all_read(*progress),
        step matches LampStep::ReadLamp { request } ==> request@ == seq![
            LAMP_ATTRIBUTES_REQUEST_REPORT,
            (progress.lamps@.len() % 256) as u8,
            (progress.lamps@.len() / 256) as u8,
        ],
        step is Finish <==> all_read(*progress) && progress.updated,
        step is Fail <==> all_read(*progress) && !progress.updated && lighting_error(
            *progress,
        ) is Some,
        step matches LampStep::Fail { error } ==> lighting_error(*progress) == Some(error),
        step is TakeControl <==> all_read(*progress) && !progress.updated && lighting_error(
            *progress,
        ) is None && !progress.controlled,
        step matches LampStep::TakeControl { control } ==> control@ == seq![
            ARRAY_CONTROL_REPORT,
            0u8,
        ],
        step is Update <==> all_read(*progress) && !progress.updated && lighting_error(
            *progress,
        ) is None && progress.controlled,
        step matches LampStep::Update { update } ==> update@ == level_report(
            progress.array->Some_0.lamp_count,
            range_levels(progress.lamps@, rgb@),
        ),
{
    let lamp_count: u16 = match &progress.array {
        Some(array) => array.lamp_count,
        None => {
            return LampStep::ReadArray;
        },
    };
    if progress.lamps.len() < lamp_count as usize {
        return LampStep::ReadLamp { request: lamp_request(progress.lamps.len() as u16) };
    }
    if progress.updated {
        return LampStep::Finish;
    }
    if lamp_count == 0 {
        return LampStep::Fail { error: RangeError::ZeroLamps };
    }
    let levels: [u8; 4] = match range_channels(progress.lamps.as_slice(), rgb) {
        Ok(levels) => levels,
        Err(error) => {
            return LampStep::Fail { error };
        },
    };
    if !progress.controlled {
        return LampStep::TakeControl { control: disable_autonomous_mode() };
    }
    match level_update(lamp_count, levels) {
        Ok(update) => LampStep::Update { update },
        Err(error) => LampStep::Fail { error },
    }
}

/// The report with chosen levels covers every lamp and carries each level in its
/// own place.
pub proof fn levels_go_out_in_their_places(lamp_count: u16, levels: Seq<u8>)
    requires
        lamp_count > 0,
        levels.len() == 4,
    ensures
        ({
            let report = level_report(lamp_count, levels);
            &&& report.len() == 10
            &&& report.take(4) == seq![5u8, 1u8, 0u8, 0u8]
            &&& report[4] + 256 * report[5] == lamp_count - 1
            &&& report.skip(6) == levels
        }),
{
    update_covers_every_lamp(lamp_count, levels);
    let report = level_report(lamp_count, levels);
    assert(report.take(4) =~= seq![5u8, 1u8, 0u8, 0u8]);
    assert(report.skip(6) =~= levels);
}

/// Nothing is sent before the array and as many lamps as it has were read. Then
/// an array without lamps, or with a lamp without intensity, cannot be lit, and
/// any other can.
pub proof fn arrays_with_lit_lamps_can_be_lit(progress: LampProgress)
    ensures
        all_read(progress) <==> progress.array is Some && progress.lamps@.len()
            >= progress.array->Some_0.lamp_count,
        all_read(progress) ==> {
            let lamps = progress.lamps@;
            &&& lighting_error(progress) is None <==> lamps.len() > 0
                && progress.array->Some_0.lamp_count > 0 && forall|i: int|
                0 <= i < lamps.len() ==> (#[trigger] lamps[i]).intensity_level_count > 0
            &&& lamps.len() == 0 || progress.array->Some_0.lamp_count == 0 ==> lighting_error(
                progress,
            ) == Some(RangeError::ZeroLamps)
            &&& lamps.len() > 0 && progress.array->Some_0.lamp_count > 0 ==> lighting_error(
                progress,
            ) != Some(RangeError::ZeroLamps)
        },
{
    if progress.lamps@.len() > 0 {
        usable_intensity_is_that_of_every_lamp(progress.lamps@);
    }
}

} // verus!
