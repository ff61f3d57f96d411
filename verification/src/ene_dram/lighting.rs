//! Writing a color to controllers.
use super::identity::EneDramDevice;
use crate::controller::direct_color_writes;
use crate::controller::direct_writes;
use crate::controller::writable_controller;
use crate::controller::writes_view;
use crate::controller::RegisterWrite;
use crate::controller::Write;
use crate::fault::BusError;
use crate::fault::Fault;
use crate::request::Access;
use crate::request::Request;
use crate::session::exchange;
use crate::session::plain_view;
use crate::session::Answer;
use crate::session::Session;
use crate::session::Stop;
use crate::session::Tape;
use vstd::prelude::*;

verus! {

/// The access that performs a write at `address`.
pub open spec fn write_access(address: u16, write: Write) -> Access {
    match write {
        Write::Byte { register, value } => Access::WriteRegister { address, register, value },
        Write::Block { register, data } => Access::WriteRegisterBlock { address, register, data },
    }
}

/// Performs the writes from `index` on, until one fails.
pub open spec fn writes_run(tape: Tape, address: u16, writes: Seq<Write>, index: int) -> (
    Result<(), Stop<Access, Fault>>,
    Tape,
)
    decreases writes.len() - index,
{
    if index >= writes.len() {
        (Ok(()), tape)
    } else {
        match exchange(tape, write_access(address, writes[index])) {
            (Ok(_), after) => writes_run(after, address, writes, index + 1),
            (Err(stop), after) => (Err(stop), after),
        }
    }
}

pub open spec fn set_color_run(tape: Tape, device: EneDramDevice, rgb: Seq<u8>) -> (
    Result<(), Stop<Access, Fault>>,
    Tape,
) {
    writes_run(tape, device.address, direct_writes(device.controller, rgb), 0)
}

fn copy_bytes(bytes: &Vec<u8>) -> (copied: Vec<u8>)
    ensures
        copied@ == bytes@,
{
    let mut copied: Vec<u8> = Vec::new();
    let mut i: usize = 0;
    while i < bytes.len()
        invariant
            i <= bytes@.len(),
            copied@ == bytes@.take(i as int),
        decreases bytes@.len() - i,
    {
        copied.push(bytes[i]);
        i = i + 1;
        assert(copied@ =~= bytes@.take(i as int));
    }
    assert(bytes@.take(i as int) =~= bytes@);
    copied
}

/// Makes all LEDs of a device show one color.
pub fn set_color(session: &mut Session, device: &EneDramDevice, rgb: [u8; 3]) -> (result: Result<
    (),
    Stop<Request, BusError>,
>)
    requires
        writable_controller(device.controller),
    ensures
        (plain_view(result), final(session)@) == set_color_run(old(session)@, *device, rgb@),
{
    let writes: Vec<RegisterWrite> = direct_color_writes(device.controller, rgb);
    let address: u16 = device.address;
    let ghost views = writes_view(writes@);
    let ghost expected = writes_run(session@, address, views, 0);
    let mut i: usize = 0;
    while i < writes.len()
        invariant
            i <= writes@.len(),
            views == writes_view(writes@),
            set_color_run(old(session)@, *device, rgb@) == expected,
            writes_run(session@, address, views, i as int) == expected,
        decreases writes@.len() - i,
    {
        assert(views[i as int] == writes@[i as int]@);
        let request: Request = match &writes[i] {
            RegisterWrite::Byte { register, value } => Request::WriteRegister {
                address,
                register: *register,
                value: *value,
            },
            RegisterWrite::Block { register, data } => Request::WriteRegisterBlock {
                address,
                register: *register,
                data: copy_bytes(data),
            },
        };
        session.exchange(request)?;
        i = i + 1;
    }
    Ok(())
}

/// How the writes to one device ended.
#[derive(Debug)]
pub struct DeviceWriteResult {
    pub address: u16,
    pub result: Result<(), String>,
}

/// What a `DeviceWriteResult` says.
pub struct WriteOutcome {
    pub address: u16,
    pub result: Result<(), Seq<char>>,
}

impl View for DeviceWriteResult {
    type V = WriteOutcome;

    open spec fn view(&self) -> WriteOutcome {
        WriteOutcome {
            address: self.address,
            result: match self.result {
                Ok(done) => Ok(done),
                Err(message) => Err(message@),
            },
        }
    }
}

/// What the results say.
pub open spec fn results_view(results: Seq<DeviceWriteResult>) -> Seq<WriteOutcome> {
    results.map_values(|result: DeviceWriteResult| result@)
}

/// Sets the color of the first `count` devices. One that fails does not keep
/// the others from being written.
pub open spec fn write_devices_run(
    tape: Tape,
    devices: Seq<EneDramDevice>,
    rgb: Seq<u8>,
    count: nat,
) -> (Result<Seq<WriteOutcome>, Access>, Tape)
    decreases count,
{
    if count == 0 {
        (Ok(seq![]), tape)
    } else {
        match write_devices_run(tape, devices, rgb, (count - 1) as nat) {
            (Ok(outcomes), before) => {
                let device = devices[count - 1];
                let address = device.address;
                match set_color_run(before, device, rgb) {
                    (Ok(done), after) => (
                        Ok(outcomes.push(WriteOutcome { address, result: Ok(done) })),
                        after,
                    ),
                    (Err(Stop::Failed(fault)), after) => (
                        Ok(outcomes.push(WriteOutcome { address, result: Err(fault.message) })),
                        after,
                    ),
                    (Err(Stop::Pending(access)), after) => (Err(access), after),
                }
            },
            (Err(access), before) => (Err(access), before),
        }
    }
}

proof fn lemma_write_devices_stops(
    tape: Tape,
    devices: Seq<EneDramDevice>,
    rgb: Seq<u8>,
    shorter: nat,
    count: nat,
)
    requires
        shorter <= count,
        write_devices_run(tape, devices, rgb, shorter).0 is Err,
    ensures
        write_devices_run(tape, devices, rgb, count) == write_devices_run(
            tape,
            devices,
            rgb,
            shorter,
        ),
    decreases count,
{
    if shorter < count {
        lemma_write_devices_stops(tape, devices, rgb, shorter, (count - 1) as nat);
    }
}

/// What the result of `write_devices` says.
pub open spec fn write_devices_view(result: Result<Vec<DeviceWriteResult>, Request>) -> Result<
    Seq<WriteOutcome>,
    Access,
> {
    match result {
        Ok(results) => Ok(results_view(results@)),
        Err(request) => Err(request@),
    }
}

/// Attempts every device; one DIMM failing does not stop the rest.
pub fn write_devices(session: &mut Session, devices: &[EneDramDevice], rgb: [u8; 3]) -> (result:
    Result<Vec<DeviceWriteResult>, Request>)
    requires
        forall|i: int|
            0 <= i < devices@.len() ==> writable_controller(#[trigger] devices@[i].controller),
    ensures
        (write_devices_view(result), final(session)@) == write_devices_run(
            old(session)@,
            devices@,
            rgb@,
            devices@.len(),
        ),
{
    let ghost start = session@;
    let mut results: Vec<DeviceWriteResult> = Vec::new();
    let mut i: usize = 0;
    assert(results_view(results@) =~= seq![]);
    while i < devices.len()
        invariant
            i <= devices@.len(),
            forall|i: int|
                0 <= i < devices@.len() ==> writable_controller(#[trigger] devices@[i].controller),
            start == old(session)@,
            write_devices_run(start, devices@, rgb@, i as nat) == (
                Ok::<Seq<WriteOutcome>, Access>(results_view(results@)),
                session@,
            ),
        decreases devices@.len() - i,
    {
        let address: u16 = devices[i].address;
        let result: DeviceWriteResult = match set_color(session, &devices[i], rgb) {
            Ok(done) => DeviceWriteResult { address, result: Ok(done) },
            Err(Stop::Failed(error)) => DeviceWriteResult { address, result: Err(error.message) },
            Err(Stop::Pending(request)) => {
                proof {
                    lemma_write_devices_stops(
                        start,
                        devices@,
                        rgb@,
                        (i + 1) as nat,
                        devices@.len(),
                    );
                }
                return Err(request);
            },
        };
        let ghost longer = results_view(results@).push(result@);
        results.push(result);
        assert(results_view(results@) =~= longer);
        i = i + 1;
    }
    Ok(results)
}

/// Whether all answers from `start` up to `end` say that the action was performed.
pub open spec fn all_done(answers: Seq<Answer>, start: int, end: int) -> bool {
    forall|i: int| start <= i < end ==> (#[trigger] answers[i]) is Ok
}

proof fn lemma_writes_in_order(tape: Tape, address: u16, writes: Seq<Write>, index: int)
    requires
        0 <= index <= writes.len(),
    ensures
        ({
            let (result, after) = writes_run(tape, address, writes, index);
            let made = after.used - tape.used;
            &&& after.answers == tape.answers
            &&& match result {
                Ok(_) => made == writes.len() - index && all_done(
                    tape.answers,
                    tape.used as int,
                    after.used as int,
                ),
                Err(Stop::Pending(access)) => {
                    &&& 0 <= made < writes.len() - index
                    &&& after.used >= tape.answers.len()
                    &&& access == write_access(address, writes[index + made])
                    &&& all_done(tape.answers, tape.used as int, after.used as int)
                },
                Err(Stop::Failed(fault)) => {
                    &&& 1 <= made <= writes.len() - index
                    &&& tape.answers[after.used - 1] == Err::<u8, Fault>(fault)
                    &&& all_done(tape.answers, tape.used as int, after.used - 1)
                },
            }
        }),
    decreases writes.len() - index,
{
    if index < writes.len() {
        let (_, after) = exchange(tape, write_access(address, writes[index]));
        lemma_writes_in_order(after, address, writes, index + 1);
    }
}

/// Setting a color performs the writes of that color on that device, all of
/// them and in order, and nothing else. It stops at the first one that fails.
pub proof fn set_color_makes_its_writes_in_order(tape: Tape, device: EneDramDevice, rgb: Seq<u8>)
    ensures
        ({
            let writes = direct_writes(device.controller, rgb);
            let (result, after) = set_color_run(tape, device, rgb);
            let made = after.used - tape.used;
            &&& after.answers == tape.answers
            &&& match result {
                Ok(_) => made == writes.len() && all_done(
                    tape.answers,
                    tape.used as int,
                    after.used as int,
                ),
                Err(Stop::Pending(access)) => {
                    &&& 0 <= made < writes.len()
                    &&& after.used >= tape.answers.len()
                    &&& access == write_access(device.address, writes[made])
                    &&& all_done(tape.answers, tape.used as int, after.used as int)
                },
                Err(Stop::Failed(fault)) => {
                    &&& 1 <= made <= writes.len()
                    &&& tape.answers[after.used - 1] == Err::<u8, Fault>(fault)
                    &&& all_done(tape.answers, tape.used as int, after.used - 1)
                },
            }
        }),
{
    lemma_writes_in_order(tape, device.address, direct_writes(device.controller, rgb), 0);
}

/// How setting the color of the device at `index` ended.
pub open spec fn lit_at(tape: Tape, devices: Seq<EneDramDevice>, rgb: Seq<u8>, index: int) -> Result<
    (),
    Stop<Access, Fault>,
> {
    set_color_run(
        write_devices_run(tape, devices, rgb, index as nat).1,
        devices[index],
        rgb,
    ).0
}

/// Whether an outcome is that of the device at `index`.
pub open spec fn is_outcome_of(
    outcome: WriteOutcome,
    tape: Tape,
    devices: Seq<EneDramDevice>,
    rgb: Seq<u8>,
    index: int,
) -> bool {
    &&& outcome.address == devices[index].address
    &&& match lit_at(tape, devices, rgb, index) {
        Ok(_) => outcome.result is Ok,
        Err(Stop::Failed(fault)) => outcome.result == Err::<(), Seq<char>>(fault.message),
        Err(Stop::Pending(_)) => false,
    }
}

/// Every device is attempted, in order, and has an outcome of its own: one that
/// fails does not keep the others from being written.
pub proof fn every_device_has_its_outcome(
    tape: Tape,
    devices: Seq<EneDramDevice>,
    rgb: Seq<u8>,
    count: nat,
)
    ensures
        write_devices_run(tape, devices, rgb, count).0 matches Ok(outcomes) ==> {
            &&& outcomes.len() == count
            &&& forall|i: int|
                0 <= i < count ==> is_outcome_of(
                    #[trigger] outcomes[i],
                    tape,
                    devices,
                    rgb,
                    i,
                )
        },
    decreases count,
{
    if count > 0 {
        let before = (count - 1) as nat;
        every_device_has_its_outcome(tape, devices, rgb, before);
        if let Ok(outcomes) = write_devices_run(tape, devices, rgb, count).0 {
            let shorter = write_devices_run(tape, devices, rgb, before).0->Ok_0;
            assert forall|i: int| 0 <= i < count implies is_outcome_of(
                #[trigger] outcomes[i],
                tape,
                devices,
                rgb,
                i,
            ) by {
                if i < before {
                    assert(outcomes[i] == shorter[i]);
                }
            }
        }
    }
}

/// Whether an access is one of the writes that give a device a color.
pub open spec fn colors_device(access: Access, device: EneDramDevice, rgb: Seq<u8>) -> bool {
    exists|k: int|
        0 <= k < direct_writes(device.controller, rgb).len() && access == write_access(
            device.address,
            #[trigger] direct_writes(device.controller, rgb)[k],
        )
}

/// Whether an access is one of the writes that give one of the devices a color.
pub open spec fn colors_one_of(access: Access, devices: Seq<EneDramDevice>, rgb: Seq<u8>) -> bool {
    exists|i: int| 0 <= i < devices.len() && colors_device(access, #[trigger] devices[i], rgb)
}

/// Writing a color asks for nothing but the writes of that color, on the given
/// devices.
pub proof fn only_given_devices_are_written(
    tape: Tape,
    devices: Seq<EneDramDevice>,
    rgb: Seq<u8>,
    count: nat,
)
    requires
        count <= devices.len(),
    ensures
        write_devices_run(tape, devices, rgb, count).0 matches Err(access) ==> colors_one_of(
            access,
            devices,
            rgb,
        ),
    decreases count,
{
    if count > 0 {
        let before = (count - 1) as nat;
        only_given_devices_are_written(tape, devices, rgb, before);
        let (_, middle) = write_devices_run(tape, devices, rgb, before);
        let device = devices[count - 1];
        set_color_makes_its_writes_in_order(middle, device, rgb);
        if let (Err(Stop::Pending(access)), after) = set_color_run(middle, device, rgb) {
            let k = after.used - middle.used;
            assert(access == write_access(
                device.address,
                direct_writes(device.controller, rgb)[k],
            ));
            assert(colors_device(access, devices[count - 1], rgb));
        }
    }
}

/// Results are taken for what they are, one for one.
pub proof fn results_say_what_they_hold(results: Seq<DeviceWriteResult>, i: int)
    requires
        0 <= i < results.len(),
    ensures
        results_view(results).len() == results.len(),
        results_view(results)[i].address == results[i].address,
        results_view(results)[i].result is Ok <==> results[i].result is Ok,
        results[i].result matches Err(message) ==> results_view(results)[i].result == Err::<
            (),
            Seq<char>,
        >(message@),
{
}

} // verus!
