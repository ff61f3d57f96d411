//! What is asked of a bus.
use vstd::prelude::*;

verus! {

/// One access to a controller on an open bus.
#[derive(Debug, Clone, PartialEq, Eq)]
pub enum Request {
    /// Read a byte without selecting a register, to see whether the address answers.
    ReadAddressByte { address: u16 },
    ReadRegister { address: u16, register: u16 },
    WriteRegister { address: u16, register: u16, value: u8 },
    WriteRegisterBlock { address: u16, register: u16, data: Vec<u8> },
}

/// What a `Request` asks for.
pub enum Access {
    ReadAddressByte { address: u16 },
    ReadRegister { address: u16, register: u16 },
    WriteRegister { address: u16, register: u16, value: u8 },
    WriteRegisterBlock { address: u16, register: u16, data: Seq<u8> },
}

impl View for Request {
    type V = Access;

    open spec fn view(&self) -> Access {
        match self {
            Request::ReadAddressByte { address } => Access::ReadAddressByte { address: *address },
            Request::ReadRegister { address, register } => Access::ReadRegister {
                address: *address,
                register: *register,
            },
            Request::WriteRegister { address, register, value } => Access::WriteRegister {
                address: *address,
                register: *register,
                value: *value,
            },
            Request::WriteRegisterBlock { address, register, data } => Access::WriteRegisterBlock {
                address: *address,
                register: *register,
                data: data@,
            },
        }
    }
}

impl Access {
    /// The address that is accessed.
    pub open spec fn address(self) -> u16 {
        match self {
            Access::ReadAddressByte { address } => address,
            Access::ReadRegister { address, .. } => address,
            Access::WriteRegister { address, .. } => address,
            Access::WriteRegisterBlock { address, .. } => address,
        }
    }

    /// Whether the access leaves every register as it is.
    pub open spec fn only_reads(self) -> bool {
        self is ReadAddressByte || self is ReadRegister
    }
}

/// What is asked of the buses of a machine. A bus stays open until the next
/// one is opened.
#[derive(Debug, Clone, PartialEq, Eq)]
pub enum BusRequest {
    /// Open the bus with this path for reading and writing.
    Open { bus: String },
    /// Access a controller on the bus that was opened last.
    Access(Request),
}

/// What a `BusRequest` asks for.
pub enum BusAccess {
    Open { bus: Seq<char> },
    Access(Access),
}

impl View for BusRequest {
    type V = BusAccess;

    open spec fn view(&self) -> BusAccess {
        match self {
            BusRequest::Open { bus } => BusAccess::Open { bus: bus@ },
            BusRequest::Access(request) => BusAccess::Access(request@),
        }
    }
}

/// Requests ask for what they say.
pub proof fn requests_say_what_they_ask(request: Request)
    ensures
        match (request, request@) {
            (Request::ReadAddressByte { address }, Access::ReadAddressByte { address: a }) => a
                == address,
            (
                Request::ReadRegister { address, register },
                Access::ReadRegister { address: a, register: r },
            ) => a == address && r == register,
            (
                Request::WriteRegister { address, register, value },
                Access::WriteRegister { address: a, register: r, value: v },
            ) => a == address && r == register && v == value,
            (
                Request::WriteRegisterBlock { address, register, data },
                Access::WriteRegisterBlock { address: a, register: r, data: d },
            ) => a == address && r == register && d == data@,
            _ => false,
        },
        match request {
            Request::ReadAddressByte { address } => request@.address() == address,
            Request::ReadRegister { address, .. } => request@.address() == address,
            Request::WriteRegister { address, .. } => request@.address() == address,
            Request::WriteRegisterBlock { address, .. } => request@.address() == address,
        },
        request@.only_reads() <==> request is ReadAddressByte || request is ReadRegister,
{
}

/// Requests to a bus ask for what they say.
pub proof fn bus_requests_say_what_they_ask(request: BusRequest)
    ensures
        match (request, request@) {
            (BusRequest::Open { bus }, BusAccess::Open { bus: b }) => b == bus@,
            (BusRequest::Access(access), BusAccess::Access(a)) => a == access@,
            _ => false,
        },
{
}

} // verus!
