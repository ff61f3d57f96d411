//! Register accesses over the Linux SMBus interface.
//!
//! A 16-bit ENE register is selected with an SMBus word write to command 0x00.
//! Linux sends a word least-significant byte first, so the register number is
//! byte-swapped. The selected byte is then read through command 0x81 and
//! written through command 0x01; a block is written through command 0x03.
use crate::fault::in_context;
use crate::fault::is_block_unsupported;
use crate::fault::BusError;
use crate::fault::Fault;
use crate::fault::FaultKind;
use crate::request::Access;
use crate::request::Request;
use crate::session::exchange;
use crate::session::plain_view;
use crate::session::Answer;
use crate::session::Session;
use crate::session::Stop;
use crate::session::Tape;
use crate::text::hex_padded;
use crate::text::push_hex_padded;
use vstd::prelude::*;

verus! {

pub const I2C_SLAVE: u64 = 0x0703;

pub const I2C_SMBUS: u64 = 0x0720;

pub const I2C_SMBUS_READ: u8 = 1;

pub const I2C_SMBUS_WRITE: u8 = 0;

pub const I2C_SMBUS_BYTE: u32 = 1;

pub const I2C_SMBUS_BYTE_DATA: u32 = 2;

pub const I2C_SMBUS_WORD_DATA: u32 = 3;

pub const I2C_SMBUS_BLOCK_DATA: u32 = 5;

/// The data of one SMBus transfer. A block starts with its length.
#[derive(Debug, Clone, Copy, PartialEq, Eq)]
pub enum SmbusData {
    Byte(u8),
    Word(u16),
    Block([u8; 34]),
}

/// One call of the I²C device interface.
#[derive(Debug, Clone, Copy, PartialEq, Eq)]
pub enum Ioctl {
    /// `I2C_SLAVE`: address the following transfers to this device.
    Slave { address: u16 },
    /// `I2C_SMBUS`: one transfer.
    Transfer { read_write: u8, command: u8, size: u32, data: SmbusData },
}

/// What `SmbusData` holds.
pub enum Payload {
    Byte(u8),
    Word(u16),
    Block(Seq<u8>),
}

/// What an `Ioctl` does.
pub enum Call {
    Slave { address: u16 },
    Transfer { read_write: u8, command: u8, size: u32, data: Payload },
}

impl View for SmbusData {
    type V = Payload;

    open spec fn view(&self) -> Payload {
        match self {
            SmbusData::Byte(byte) => Payload::Byte(*byte),
            SmbusData::Word(word) => Payload::Word(*word),
            SmbusData::Block(block) => Payload::Block(block@),
        }
    }
}

impl View for Ioctl {
    type V = Call;

    open spec fn view(&self) -> Call {
        match self {
            Ioctl::Slave { address } => Call::Slave { address: *address },
            Ioctl::Transfer { read_write, command, size, data } => Call::Transfer {
                read_write: *read_write,
                command: *command,
                size: *size,
                data: data@,
            },
        }
    }
}

/// The word with its two bytes exchanged.
pub open spec fn byte_swapped(word: u16) -> u16 {
    ((word % 256) * 256 + word / 256) as u16
}

/// Exchanges the two bytes of a word.
pub fn swap_bytes(word: u16) -> (swapped: u16)
    ensures
        swapped == byte_swapped(word),
{
    (word % 256) * 256 + word / 256
}

/// The word that selects a register goes out with the high byte of the register
/// number first, although the word's low byte is sent first.
pub proof fn register_goes_out_high_byte_first(register: u16)
    ensures
        byte_swapped(register) % 256 == register / 256,
        byte_swapped(register) / 256 == register % 256,
        byte_swapped(byte_swapped(register)) == register,
{
}

/// The outcome of a call, with `step` named where it fails.
pub open spec fn call_run(tape: Tape, step: Seq<char>, call: Call) -> (
    Result<u8, Stop<Call, Fault>>,
    Tape,
) {
    match exchange(tape, call) {
        (Err(Stop::Failed(fault)), after) => (Err(Stop::Failed(in_context(step, fault))), after),
        (outcome, after) => (outcome, after),
    }
}

fn call(session: &mut Session, step: &str, ioctl: Ioctl) -> (result: Result<
    u8,
    Stop<Ioctl, BusError>,
>)
    ensures
        (plain_view(result), final(session)@) == call_run(old(session)@, step@, ioctl@),
{
    match session.exchange(ioctl) {
        Ok(byte) => Ok(byte),
        Err(Stop::Pending(action)) => Err(Stop::Pending(action)),
        Err(Stop::Failed(error)) => Err(Stop::Failed(error.in_context(step))),
    }
}

/// Whether `address` is a 7-bit address that a device can have.
pub open spec fn is_device_address(address: u16) -> bool {
    0x03 <= address <= 0x77
}

/// The fault for an address that no device can have.
pub open spec fn bad_address(address: u16) -> Fault {
    Fault {
        kind: FaultKind::Other,
        message: "invalid 7-bit I²C address 0x"@ + hex_padded(address as nat),
    }
}

pub open spec fn set_address_run(tape: Tape, address: u16) -> (Result<u8, Stop<Call, Fault>>, Tape) {
    if is_device_address(address) {
        call_run(tape, "select I²C slave"@, Call::Slave { address })
    } else {
        (Err(Stop::Failed(bad_address(address))), tape)
    }
}

/// Addresses the following transfers to `address`.
pub fn set_address(session: &mut Session, address: u16) -> (result: Result<
    u8,
    Stop<Ioctl, BusError>,
>)
    ensures
        (plain_view(result), final(session)@) == set_address_run(old(session)@, address),
{
    if address < 0x03 || address > 0x77 {
        let mut message: String = "invalid 7-bit I²C address 0x".to_owned();
        push_hex_padded(&mut message, address);
        return Err(Stop::Failed(BusError::other(message)));
    }
    call(session, "select I²C slave", Ioctl::Slave { address })
}

pub open spec fn access_run(
    tape: Tape,
    read_write: u8,
    command: u8,
    size: u32,
    data: Payload,
) -> (Result<u8, Stop<Call, Fault>>, Tape) {
    call_run(tape, "SMBus transfer"@, Call::Transfer { read_write, command, size, data })
}

/// Performs one SMBus transfer.
fn access(
    session: &mut Session,
    read_write: u8,
    command: u8,
    size: u32,
    data: SmbusData,
) -> (result: Result<u8, Stop<Ioctl, BusError>>)
    ensures
        (plain_view(result), final(session)@) == access_run(
            old(session)@,
            read_write,
            command,
            size,
            data@,
        ),
{
    call(session, "SMBus transfer", Ioctl::Transfer { read_write, command, size, data })
}

pub open spec fn write_word_run(tape: Tape, command: u8, value: u16) -> (
    Result<u8, Stop<Call, Fault>>,
    Tape,
) {
    access_run(tape, I2C_SMBUS_WRITE, command, I2C_SMBUS_WORD_DATA, Payload::Word(value))
}

/// Writes a word to `command`.
pub fn write_word(session: &mut Session, command: u8, value: u16) -> (result: Result<
    u8,
    Stop<Ioctl, BusError>,
>)
    ensures
        (plain_view(result), final(session)@) == write_word_run(old(session)@, command, value),
{
    access(session, I2C_SMBUS_WRITE, command, I2C_SMBUS_WORD_DATA, SmbusData::Word(value))
}

pub open spec fn read_byte_run(tape: Tape, command: u8) -> (Result<u8, Stop<Call, Fault>>, Tape) {
    access_run(tape, I2C_SMBUS_READ, command, I2C_SMBUS_BYTE_DATA, Payload::Byte(0))
}

/// Reads a byte from `command`.
pub fn read_byte(session: &mut Session, command: u8) -> (result: Result<u8, Stop<Ioctl, BusError>>)
    ensures
        (plain_view(result), final(session)@) == read_byte_run(old(session)@, command),
{
    access(session, I2C_SMBUS_READ, command, I2C_SMBUS_BYTE_DATA, SmbusData::Byte(0))
}

pub open spec fn write_byte_run(tape: Tape, command: u8, value: u8) -> (
    Result<u8, Stop<Call, Fault>>,
    Tape,
) {
    access_run(tape, I2C_SMBUS_WRITE, command, I2C_SMBUS_BYTE_DATA, Payload::Byte(value))
}

/// Writes a byte to `command`.
pub fn write_byte(session: &mut Session, command: u8, value: u8) -> (result: Result<
    u8,
    Stop<Ioctl, BusError>,
>)
    ensures
        (plain_view(result), final(session)@) == write_byte_run(old(session)@, command, value),
{
    access(session, I2C_SMBUS_WRITE, command, I2C_SMBUS_BYTE_DATA, SmbusData::Byte(value))
}

/// The memory of a block transfer: the length, the values, and zeros.
pub open spec fn block_memory(values: Seq<u8>) -> Seq<u8> {
    Seq::new(
        34,
        |i: int|
            if i == 0 {
                values.len() as u8
            } else if i <= values.len() {
                values[i - 1]
            } else {
                0
            },
    )
}

pub open spec fn write_block_run(tape: Tape, command: u8, values: Seq<u8>) -> (
    Result<u8, Stop<Call, Fault>>,
    Tape,
) {
    if values.len() > 32 {
        (
            Err(
                Stop::Failed(
                    Fault { kind: FaultKind::Other, message: "SMBus block exceeds 32 bytes"@ },
                ),
            ),
            tape,
        )
    } else {
        access_run(
            tape,
            I2C_SMBUS_WRITE,
            command,
            I2C_SMBUS_BLOCK_DATA,
            Payload::Block(block_memory(values)),
        )
    }
}

/// Writes up to 32 bytes to `command` in one transfer.
pub fn write_block(session: &mut Session, command: u8, values: &[u8]) -> (result: Result<
    u8,
    Stop<Ioctl, BusError>,
>)
    ensures
        (plain_view(result), final(session)@) == write_block_run(
            old(session)@,
            command,
            values@,
        ),
{
    if values.len() > 32 {
        return Err(Stop::Failed(BusError::other("SMBus block exceeds 32 bytes".to_owned())));
    }
    let mut block: [u8; 34] = [0;34];
    block[0] = values.len() as u8;
    let mut i: usize = 0;
    while i < values.len()
        invariant
            i <= values@.len() <= 32,
            block@.len() == 34,
            block@[0] == values@.len() as u8,
            forall|k: int| 1 <= k <= i ==> block@[k] == values@[k - 1],
            forall|k: int| i < k < 34 ==> block@[k] == 0,
        decreases values@.len() - i,
    {
        block[i + 1] = values[i];
        i = i + 1;
    }
    assert(block@ =~= block_memory(values@));
    access(session, I2C_SMBUS_WRITE, command, I2C_SMBUS_BLOCK_DATA, SmbusData::Block(block))
}

pub open spec fn select_register_run(tape: Tape, register: u16) -> (
    Result<u8, Stop<Call, Fault>>,
    Tape,
) {
    write_word_run(tape, 0x00, byte_swapped(register))
}

/// Selects the register that the next byte or block goes to or comes from.
pub fn select_register(session: &mut Session, register: u16) -> (result: Result<
    u8,
    Stop<Ioctl, BusError>,
>)
    ensures
        (plain_view(result), final(session)@) == select_register_run(old(session)@, register),
{
    write_word(session, 0x00, swap_bytes(register))
}

/// The bytes of `data` from `index` on, one transfer each.
pub open spec fn write_bytes_run(tape: Tape, data: Seq<u8>, index: int) -> (
    Result<u8, Stop<Call, Fault>>,
    Tape,
)
    decreases data.len() - index,
{
    if index >= data.len() {
        (Ok(0), tape)
    } else {
        match write_byte_run(tape, 0x01, data[index]) {
            (Ok(_), after) => write_bytes_run(after, data, index + 1),
            (Err(stop), after) => (Err(stop), after),
        }
    }
}

pub open spec fn write_block_with_fallback_run(tape: Tape, register: u16, data: Seq<u8>) -> (
    Result<u8, Stop<Call, Fault>>,
    Tape,
) {
    match write_block_run(tape, 0x03, data) {
        (Ok(_), after) => (Ok(0), after),
        (Err(Stop::Failed(fault)), after) => {
            if fault.kind == FaultKind::Unsupported {
                match select_register_run(after, register) {
                    (Ok(_), selected) => write_bytes_run(selected, data, 0),
                    (Err(stop), selected) => (Err(stop), selected),
                }
            } else {
                (Err(Stop::Failed(fault)), after)
            }
        },
        (Err(stop), after) => (Err(stop), after),
    }
}

/// Writes a block to the selected register. Where the adapter offers no block
/// transfers, selects the register again and writes the bytes one by one.
pub fn write_block_with_fallback(session: &mut Session, register: u16, data: &[u8]) -> (result:
    Result<u8, Stop<Ioctl, BusError>>)
    ensures
        (plain_view(result), final(session)@) == write_block_with_fallback_run(
            old(session)@,
            register,
            data@,
        ),
{
    match write_block(session, 0x03, data) {
        Ok(_) => Ok(0),
        Err(Stop::Failed(error)) => {
            if !is_block_unsupported(&error) {
                return Err(Stop::Failed(error));
            }
            select_register(session, register)?;
            let ghost expected = write_bytes_run(session@, data@, 0);
            let mut i: usize = 0;
            while i < data.len()
                invariant
                    i <= data@.len(),
                    write_block_with_fallback_run(old(session)@, register, data@) == expected,
                    write_bytes_run(session@, data@, i as int) == expected,
                decreases data@.len() - i,
            {
                write_byte(session, 0x01, data[i])?;
                i = i + 1;
            }
            Ok(0)
        },
        Err(stop) => Err(stop),
    }
}

pub open spec fn read_address_byte_run(tape: Tape, address: u16) -> (
    Result<u8, Stop<Call, Fault>>,
    Tape,
) {
    match set_address_run(tape, address) {
        (Ok(_), addressed) => access_run(
            addressed,
            I2C_SMBUS_READ,
            0,
            I2C_SMBUS_BYTE,
            Payload::Byte(0),
        ),
        (Err(stop), addressed) => (Err(stop), addressed),
    }
}

/// Reads a byte from `address` without selecting a register.
pub fn read_address_byte(session: &mut Session, address: u16) -> (result: Result<
    u8,
    Stop<Ioctl, BusError>,
>)
    ensures
        (plain_view(result), final(session)@) == read_address_byte_run(old(session)@, address),
{
    set_address(session, address)?;
    access(session, I2C_SMBUS_READ, 0, I2C_SMBUS_BYTE, SmbusData::Byte(0))
}

/// Addresses a device and selects one of its registers.
pub open spec fn select_at_run(tape: Tape, address: u16, register: u16) -> (
    Result<u8, Stop<Call, Fault>>,
    Tape,
) {
    match set_address_run(tape, address) {
        (Ok(_), addressed) => select_register_run(addressed, register),
        (Err(stop), addressed) => (Err(stop), addressed),
    }
}

pub open spec fn read_register_run(tape: Tape, address: u16, register: u16) -> (
    Result<u8, Stop<Call, Fault>>,
    Tape,
) {
    match select_at_run(tape, address, register) {
        (Ok(_), selected) => read_byte_run(selected, 0x81),
        (Err(stop), selected) => (Err(stop), selected),
    }
}

/// Reads a register.
pub fn read_register(session: &mut Session, address: u16, register: u16) -> (result: Result<
    u8,
    Stop<Ioctl, BusError>,
>)
    ensures
        (plain_view(result), final(session)@) == read_register_run(
            old(session)@,
            address,
            register,
        ),
{
    set_address(session, address)?;
    select_register(session, register)?;
    read_byte(session, 0x81)
}

pub open spec fn write_register_run(tape: Tape, address: u16, register: u16, value: u8) -> (
    Result<u8, Stop<Call, Fault>>,
    Tape,
) {
    match select_at_run(tape, address, register) {
        (Ok(_), selected) => write_byte_run(selected, 0x01, value),
        (Err(stop), selected) => (Err(stop), selected),
    }
}

/// Writes a register.
pub fn write_register(session: &mut Session, address: u16, register: u16, value: u8) -> (result:
    Result<u8, Stop<Ioctl, BusError>>)
    ensures
        (plain_view(result), final(session)@) == write_register_run(
            old(session)@,
            address,
            register,
            value,
        ),
{
    set_address(session, address)?;
    select_register(session, register)?;
    write_byte(session, 0x01, value)
}

pub open spec fn write_register_block_run(
    tape: Tape,
    address: u16,
    register: u16,
    data: Seq<u8>,
) -> (Result<u8, Stop<Call, Fault>>, Tape) {
    if data.len() == 0 || data.len() > 32 {
        (
            Err(
                Stop::Failed(
                    Fault {
                        kind: FaultKind::Other,
                        message: "ENE block must contain 1..=32 bytes"@,
                    },
                ),
            ),
            tape,
        )
    } else {
        match select_at_run(tape, address, register) {
            (Ok(_), selected) => write_block_with_fallback_run(selected, register, data),
            (Err(stop), selected) => (Err(stop), selected),
        }
    }
}

/// Writes 1 to 32 bytes to a register and the ones after it.
pub fn write_register_block(session: &mut Session, address: u16, register: u16, data: &[u8]) -> (
    result: Result<u8, Stop<Ioctl, BusError>>)
    ensures
        (plain_view(result), final(session)@) == write_register_block_run(
            old(session)@,
            address,
            register,
            data@,
        ),
{
    if data.len() == 0 || data.len() > 32 {
        return Err(
            Stop::Failed(BusError::other("ENE block must contain 1..=32 bytes".to_owned())),
        );
    }
    set_address(session, address)?;
    select_register(session, register)?;
    write_block_with_fallback(session, register, data)
}

/// The calls that an access takes, and its outcome.
pub open spec fn perform_run(tape: Tape, access: Access) -> (Result<u8, Stop<Call, Fault>>, Tape) {
    match access {
        Access::ReadAddressByte { address } => read_address_byte_run(tape, address),
        Access::ReadRegister { address, register } => read_register_run(tape, address, register),
        Access::WriteRegister { address, register, value } => write_register_run(
            tape,
            address,
            register,
            value,
        ),
        Access::WriteRegisterBlock { address, register, data } => write_register_block_run(
            tape,
            address,
            register,
            data,
        ),
    }
}

/// Performs an access by calls of the I²C device interface.
pub fn perform(session: &mut Session, request: &Request) -> (result: Result<
    u8,
    Stop<Ioctl, BusError>,
>)
    ensures
        (plain_view(result), final(session)@) == perform_run(old(session)@, request@),
{
    match request {
        Request::ReadAddressByte { address } => read_address_byte(session, *address),
        Request::ReadRegister { address, register } => read_register(session, *address, *register),
        Request::WriteRegister { address, register, value } => {
            write_register(session, *address, *register, *value)
        },
        Request::WriteRegisterBlock { address, register, data } => {
            write_register_block(session, *address, *register, data.as_slice())
        },
    }
}

/// The memory of a block transfer holds the length and the values, whatever
/// they are, and so gives them back.
pub proof fn block_memory_holds_the_values(values: Seq<u8>)
    requires
        values.len() <= 32,
    ensures
        block_memory(values).len() == 34,
        block_memory(values)[0] == values.len(),
        block_memory(values).subrange(1, 1 + block_memory(values)[0] as int) == values,
{
    assert(block_memory(values).subrange(1, 1 + values.len() as int) =~= values);
}

/// Whether an access can be made: to an address that a device can have, and
/// with a block that fits a transfer.
pub open spec fn is_possible(access: Access) -> bool {
    is_device_address(access.address()) && (access matches Access::WriteRegisterBlock { data, .. }
        ==> 1 <= data.len() <= 32)
}

/// An access that cannot be made fails before any call.
pub proof fn impossible_access_is_refused(tape: Tape, access: Access)
    requires
        !is_possible(access),
    ensures
        perform_run(tape, access).0 matches Err(Stop::Failed(_)),
        perform_run(tape, access).1 == tape,
{
}

proof fn lemma_write_bytes_in_order(tape: Tape, data: Seq<u8>, index: int)
    requires
        0 <= index <= data.len(),
    ensures
        ({
            let (result, after) = write_bytes_run(tape, data, index);
            let made = after.used - tape.used;
            match result {
                Ok(_) => made == data.len() - index,
                Err(Stop::Pending(call)) => {
                    &&& 0 <= made < data.len() - index
                    &&& call == byte_write(data[index + made])
                },
                Err(Stop::Failed(_)) => 1 <= made <= data.len() - index,
            }
        }),
    decreases data.len() - index,
{
    if index < data.len() {
        let (_, after) = write_byte_run(tape, 0x01, data[index]);
        lemma_write_bytes_in_order(after, data, index + 1);
    }
}

/// The transfer that writes a byte to the selected register.
pub open spec fn byte_write(value: u8) -> Call {
    Call::Transfer {
        read_write: I2C_SMBUS_WRITE,
        command: 0x01,
        size: I2C_SMBUS_BYTE_DATA,
        data: Payload::Byte(value),
    }
}

/// The transfer that selects a register.
pub open spec fn register_selection(register: u16) -> Call {
    Call::Transfer {
        read_write: I2C_SMBUS_WRITE,
        command: 0x00,
        size: I2C_SMBUS_WORD_DATA,
        data: Payload::Word(byte_swapped(register)),
    }
}

/// Where the adapter offers no block transfers, the register is selected anew
/// and every byte of the block is written after that, in order and once.
pub proof fn refused_block_goes_out_byte_by_byte(tape: Tape, register: u16, data: Seq<u8>)
    requires
        write_block_run(tape, 0x03, data).0 matches Err(Stop::Failed(fault)) && fault.kind
            == FaultKind::Unsupported,
    ensures
        ({
            let (_, refused) = write_block_run(tape, 0x03, data);
            let (result, after) = write_block_with_fallback_run(tape, register, data);
            let made = after.used - refused.used;
            match result {
                Ok(_) => made == 1 + data.len(),
                Err(Stop::Pending(call)) => {
                    &&& 0 <= made <= data.len()
                    &&& call == if made == 0 {
                        register_selection(register)
                    } else {
                        byte_write(data[made - 1])
                    }
                },
                Err(Stop::Failed(_)) => 1 <= made <= 1 + data.len(),
            }
        }),
{
    let (_, refused) = write_block_run(tape, 0x03, data);
    let (_, selected) = select_register_run(refused, register);
    lemma_write_bytes_in_order(selected, data, 0);
}

/// Whether a call leaves every register as it is: it addresses a device,
/// selects a register, or reads.
pub open spec fn keeps_registers(call: Call) -> bool {
    match call {
        Call::Slave { .. } => true,
        Call::Transfer { read_write, command, .. } => read_write == I2C_SMBUS_READ || command
            == 0x00,
    }
}

/// Every access addresses its own device, and does so first. One that only
/// reads makes no call that changes a register.
pub proof fn access_makes_its_own_calls(tape: Tape, access: Access)
    ensures
        perform_run(tape, access).0 matches Err(Stop::Pending(call)) ==> {
            &&& call is Slave <==> perform_run(tape, access).1.used == tape.used
            &&& call matches Call::Slave { address } ==> address == access.address()
            &&& access.only_reads() ==> keeps_registers(call)
        },
{
    if let Access::WriteRegisterBlock { address, register, data } = access {
        let (_, selected) = select_at_run(tape, address, register);
        let (_, tried) = write_block_run(selected, 0x03, data);
        let (_, again) = select_register_run(tried, register);
        if 1 <= data.len() <= 32 {
            lemma_write_bytes_in_order(again, data, 0);
        }
    }
}

/// Whether all answers from `start` up to `end` say that the call was made.
pub open spec fn calls_succeeded(answers: Seq<Answer>, start: int, end: int) -> bool {
    forall|i: int| start <= i < end ==> (#[trigger] answers[i]) is Ok
}

proof fn lemma_write_bytes_course(tape: Tape, data: Seq<u8>, index: int)
    requires
        0 <= index <= data.len(),
    ensures
        ({
            let (result, after) = write_bytes_run(tape, data, index);
            let made = after.used - tape.used;
            &&& after.answers == tape.answers
            &&& match result {
                Ok(_) => made == data.len() - index && calls_succeeded(
                    tape.answers,
                    tape.used as int,
                    after.used as int,
                ),
                Err(Stop::Pending(call)) => {
                    &&& 0 <= made < data.len() - index
                    &&& call == byte_write(data[index + made])
                    &&& after.used >= tape.answers.len()
                    &&& calls_succeeded(tape.answers, tape.used as int, after.used as int)
                },
                Err(Stop::Failed(fault)) => {
                    &&& 1 <= made <= data.len() - index
                    &&& tape.answers[after.used - 1] matches Err(met) && fault == in_context(
                        "SMBus transfer"@,
                        met,
                    )
                    &&& calls_succeeded(tape.answers, tape.used as int, after.used - 1)
                },
            }
        }),
    decreases data.len() - index,
{
    if index < data.len() {
        let (_, after) = write_byte_run(tape, 0x01, data[index]);
        lemma_write_bytes_course(after, data, index + 1);
    }
}

/// The course of an access that can be made. It makes its calls in turn, each
/// once, and all that it needs: it addresses the device; selects the register,
/// unless it has none; and then reads a byte, writes the byte, or writes the
/// block. A block that the adapter refuses because it has no blocks is followed
/// by selecting the register again and by a write of each of its bytes. The
/// access ends early only where a call fails otherwise, with the fault that was
/// met and the step that met it. What is read is the last answer.
pub proof fn access_makes_all_its_calls_in_turn(tape: Tape, access: Access)
    requires
        is_possible(access),
    ensures
        ({
            let (result, after) = perform_run(tape, access);
            let made = after.used - tape.used;
            let refused = access is WriteRegisterBlock && tape.used + 2 < tape.answers.len() && (
            tape.answers[tape.used as int + 2] matches Err(fault) && fault.kind
                == FaultKind::Unsupported);
            let needed = if access is ReadAddressByte {
                2
            } else if refused {
                4 + access->WriteRegisterBlock_data.len()
            } else {
                3
            };
            let succeeded = if result matches Err(Stop::Failed(_)) {
                made - 1
            } else {
                made
            };
            &&& after.answers == tape.answers
            &&& forall|i: int|
                0 <= i < succeeded && !(i == 2 && refused) ==> (
                #[trigger] tape.answers[tape.used + i]) is Ok
            &&& match result {
                Ok(byte) => made == needed && (access.only_reads() ==> tape.answers[after.used - 1]
                    == Ok::<u8, Fault>(byte)),
                Err(Stop::Pending(call)) => {
                    &&& 0 <= made < needed
                    &&& after.used >= tape.answers.len()
                    &&& made == 0 ==> call == Call::Slave { address: access.address() }
                    &&& made == 1 && access is ReadAddressByte ==> call == Call::Transfer {
                        read_write: 1,
                        command: 0,
                        size: 1,
                        data: Payload::Byte(0),
                    }
                    &&& made == 1 && !(access is ReadAddressByte) || made == 3 ==> {
                        let register = match access {
                            Access::ReadAddressByte { .. } => 0,
                            Access::ReadRegister { register, .. } => register,
                            Access::WriteRegister { register, .. } => register,
                            Access::WriteRegisterBlock { register, .. } => register,
                        };
                        &&& call matches Call::Transfer { read_write, command, size, data }
                        &&& read_write == 0 && command == 0x00 && size == 3
                        &&& data matches Payload::Word(word)
                        &&& word % 256 == register / 256 && word / 256 == register % 256
                    }
                    &&& made == 2 ==> match access {
                        Access::ReadAddressByte { .. } => false,
                        Access::ReadRegister { .. } => call == Call::Transfer {
                            read_write: 1,
                            command: 0x81,
                            size: 2,
                            data: Payload::Byte(0),
                        },
                        Access::WriteRegister { value, .. } => call == Call::Transfer {
                            read_write: 0,
                            command: 0x01,
                            size: 2,
                            data: Payload::Byte(value),
                        },
                        Access::WriteRegisterBlock { data, .. } => call == Call::Transfer {
                            read_write: 0,
                            command: 0x03,
                            size: 5,
                            data: Payload::Block(
                                seq![data.len() as u8] + data + Seq::new(
                                    (33 - data.len()) as nat,
                                    |i: int| 0u8,
                                ),
                            ),
                        },
                    }
                    &&& made >= 4 ==> call == Call::Transfer {
                        read_write: 0,
                        command: 0x01,
                        size: 2,
                        data: Payload::Byte(access->WriteRegisterBlock_data[made - 4]),
                    }
                },
                Err(Stop::Failed(fault)) => {
                    &&& 1 <= made <= needed
                    &&& !(made == 3 && refused)
                    &&& tape.answers[after.used - 1] matches Err(met) && {
                        &&& fault.kind == met.kind
                        &&& fault.message == (if made == 1 {
                            "select I²C slave"@
                        } else {
                            "SMBus transfer"@
                        }) + ": "@ + met.message
                    }
                },
            }
        }),
{
    if let Access::WriteRegisterBlock { address, register, data } = access {
        assert(block_memory(data) =~= seq![data.len() as u8] + data + Seq::new(
            (33 - data.len()) as nat,
            |i: int| 0u8,
        ));
        let (_, selected) = select_at_run(tape, address, register);
        let (_, tried) = write_block_run(selected, 0x03, data);
        let (_, again) = select_register_run(tried, register);
        lemma_write_bytes_course(again, data, 0);
        let (result, after) = perform_run(tape, access);
        let made = after.used - tape.used;
        if made >= 4 {
            assert(again.used == tape.used + 4);
        }
    }
}

/// An access to an address that no device can have, or with a block of no bytes
/// or of more than 32, fails at once: without a call, and with a text that says
/// so.
pub proof fn impossible_accesses_are_named(tape: Tape, access: Access)
    ensures
        ({
            let sized = access matches Access::WriteRegisterBlock { data, .. } ==> 1 <= data.len()
                <= 32;
            let address = access.address();
            &&& is_possible(access) <==> sized && 0x03 <= address <= 0x77
            &&& !sized ==> perform_run(tape, access) == (
                Err::<u8, Stop<Call, Fault>>(
                    Stop::Failed(
                        Fault {
                            kind: FaultKind::Other,
                            message: "ENE block must contain 1..=32 bytes"@,
                        },
                    ),
                ),
                tape,
            )
            &&& sized && !(0x03 <= address <= 0x77) ==> perform_run(tape, access) == (
                Err::<u8, Stop<Call, Fault>>(
                    Stop::Failed(
                        Fault {
                            kind: FaultKind::Other,
                            message: "invalid 7-bit I²C address 0x"@ + hex_padded(address as nat),
                        },
                    ),
                ),
                tape,
            )
        }),
{
}

/// Calls are what they were made for.
pub proof fn calls_say_what_they_hold(ioctl: Ioctl)
    ensures
        match (ioctl, ioctl@) {
            (Ioctl::Slave { address }, Call::Slave { address: called }) => called == address,
            (
                Ioctl::Transfer { read_write, command, size, data },
                Call::Transfer { read_write: rw, command: c, size: s, data: payload },
            ) => {
                &&& rw == read_write && c == command && s == size
                &&& match (data, payload) {
                    (SmbusData::Byte(byte), Payload::Byte(held)) => held == byte,
                    (SmbusData::Word(word), Payload::Word(held)) => held == word,
                    (SmbusData::Block(block), Payload::Block(held)) => held == block@,
                    _ => false,
                }
            },
            _ => false,
        },
{
}

/// A call that is made is that call, and where it fails the step is named. A
/// device is addressed only if it can exist.
pub proof fn single_calls_are_made_as_they_are(
    tape: Tape,
    address: u16,
    command: u8,
    word: u16,
    value: u8,
    values: Seq<u8>,
)
    ensures
        ({
            let writing = |size: u32, data: Payload|
                Call::Transfer { read_write: 0, command, size, data };
            let block = seq![values.len() as u8] + values + Seq::new(
                (33 - values.len()) as nat,
                |i: int| 0u8,
            );
            &&& if 0x03 <= address <= 0x77 {
                is_single_call(
                    tape,
                    set_address_run(tape, address),
                    "select I²C slave"@,
                    Call::Slave { address },
                )
            } else {
                set_address_run(tape, address) == (
                    Err::<u8, Stop<Call, Fault>>(
                        Stop::Failed(
                            Fault {
                                kind: FaultKind::Other,
                                message: "invalid 7-bit I²C address 0x"@ + hex_padded(
                                    address as nat,
                                ),
                            },
                        ),
                    ),
                    tape,
                )
            }
            &&& is_single_call(
                tape,
                write_word_run(tape, command, word),
                "SMBus transfer"@,
                writing(3, Payload::Word(word)),
            )
            &&& is_single_call(
                tape,
                write_byte_run(tape, command, value),
                "SMBus transfer"@,
                writing(2, Payload::Byte(value)),
            )
            &&& is_single_call(
                tape,
                read_byte_run(tape, command),
                "SMBus transfer"@,
                Call::Transfer { read_write: 1, command, size: 2, data: Payload::Byte(0) },
            )
            &&& if values.len() <= 32 {
                is_single_call(
                    tape,
                    write_block_run(tape, command, values),
                    "SMBus transfer"@,
                    writing(5, Payload::Block(block)),
                )
            } else {
                write_block_run(tape, command, values) == (
                    Err::<u8, Stop<Call, Fault>>(
                        Stop::Failed(
                            Fault {
                                kind: FaultKind::Other,
                                message: "SMBus block exceeds 32 bytes"@,
                            },
                        ),
                    ),
                    tape,
                )
            }
        }),
{
    if values.len() <= 32 {
        assert(block_memory(values) =~= seq![values.len() as u8] + values + Seq::new(
            (33 - values.len()) as nat,
            |i: int| 0u8,
        ));
    }
}

/// Whether `run` is what comes of one call: it is asked for, its byte is handed
/// on, or its fault with the step before the message.
pub open spec fn is_single_call(
    tape: Tape,
    run: (Result<u8, Stop<Call, Fault>>, Tape),
    step: Seq<char>,
    call: Call,
) -> bool {
    let (result, after) = run;
    if tape.used >= tape.answers.len() {
        result == Err::<u8, Stop<Call, Fault>>(Stop::Pending(call)) && after == tape
    } else {
        &&& after == Tape { answers: tape.answers, used: tape.used + 1 }
        &&& match tape.answers[tape.used as int] {
            Ok(byte) => result == Ok::<u8, Stop<Call, Fault>>(byte),
            Err(met) => result matches Err(Stop::Failed(fault)) && fault.kind == met.kind
                && fault.message == step + ": "@ + met.message,
        }
    }
}

/// A block that is taken, or that fails for another reason than that the adapter
/// has no blocks, is not written again.
pub proof fn only_refused_blocks_are_repeated(tape: Tape, register: u16, data: Seq<u8>)
    ensures
        ({
            let (tried, at) = write_block_run(tape, 0x03, data);
            let (result, after) = write_block_with_fallback_run(tape, register, data);
            match tried {
                Ok(_) => result is Ok && after == at,
                Err(Stop::Pending(call)) => (result, after) == (
                    Err::<u8, Stop<Call, Fault>>(Stop::Pending(call)),
                    at,
                ),
                Err(Stop::Failed(fault)) => fault.kind != FaultKind::Unsupported ==> (
                    result,
                    after,
                ) == (Err::<u8, Stop<Call, Fault>>(Stop::Failed(fault)), at),
            }
        }),
{
}

} // verus!
