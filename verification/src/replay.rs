//! Why procedures can be replayed.
//!
//! A procedure that stops to ask for an action has used all answers. Given the
//! next answer as well, it uses that one too, so every action is answered in
//! its turn. A procedure that has finished gives the same result, whatever
//! answers follow.
use crate::request::Access;
use crate::session::exchange;
use crate::session::Answer;
use crate::session::Stop;
use crate::session::Tape;
use crate::smbus::access_run;
use crate::smbus::call_run;
use crate::smbus::perform_run;
use crate::smbus::select_at_run;
use crate::smbus::select_register_run;
use crate::smbus::set_address_run;
use crate::smbus::write_block_run;
use crate::smbus::write_block_with_fallback_run;
use crate::smbus::write_byte_run;
use crate::smbus::write_bytes_run;
use crate::smbus::Call;
use crate::smbus::Payload;
use vstd::prelude::*;

verus! {

/// The tape with further answers at its end.
pub open spec fn extended(tape: Tape, more: Seq<Answer>) -> Tape {
    Tape { answers: tape.answers + more, used: tape.used }
}

/// Whether a tape has used no more answers than it holds.
pub open spec fn is_tape(tape: Tape) -> bool {
    tape.used <= tape.answers.len()
}

/// Whether `after` is the same tape with perhaps more of its answers used.
pub open spec fn follows(tape: Tape, after: Tape) -> bool {
    &&& after.answers == tape.answers
    &&& tape.used <= after.used
    &&& is_tape(tape) ==> is_tape(after)
}

/// Whether a procedure stopped to ask for an action.
pub open spec fn asks<T, A, E>(result: Result<T, Stop<A, E>>) -> bool {
    result matches Err(Stop::Pending(_))
}

/// Whether a procedure that ended with `first` on `tape` goes on properly with
/// `second` where `more` answers follow.
pub open spec fn resumes<R>(
    tape: Tape,
    more: Seq<Answer>,
    pending: bool,
    first: (R, Tape),
    second: (R, Tape),
) -> bool {
    if pending {
        &&& first.1.used == tape.answers.len()
        &&& more.len() > 0 ==> second.1.used > tape.answers.len()
    } else {
        second == (first.0, extended(first.1, more))
    }
}

/// Asking for an action can be replayed.
pub proof fn exchange_resumes<A>(tape: Tape, more: Seq<Answer>, action: A)
    requires
        is_tape(tape),
    ensures
        resumes(
            tape,
            more,
            asks(exchange(tape, action).0),
            exchange(tape, action),
            exchange(extended(tape, more), action),
        ),
{
}

broadcast proof fn call_follows(tape: Tape, step: Seq<char>, call: Call)
    ensures
        follows(tape, (#[trigger] call_run(tape, step, call)).1),
{
}

proof fn lemma_call_resumes(tape: Tape, more: Seq<Answer>, step: Seq<char>, call: Call)
    requires
        is_tape(tape),
    ensures
        resumes(
            tape,
            more,
            asks(call_run(tape, step, call).0),
            call_run(tape, step, call),
            call_run(extended(tape, more), step, call),
        ),
{
    exchange_resumes(tape, more, call);
}

proof fn lemma_transfer_resumes(tape: Tape, more: Seq<Answer>)
    requires
        is_tape(tape),
    ensures
        forall|read_write: u8, command: u8, size: u32, data: Payload|
            resumes(
                tape,
                more,
                asks((#[trigger] access_run(tape, read_write, command, size, data)).0),
                access_run(tape, read_write, command, size, data),
                access_run(extended(tape, more), read_write, command, size, data),
            ),
{
    assert forall|read_write: u8, command: u8, size: u32, data: Payload| resumes(
        tape,
        more,
        asks((#[trigger] access_run(tape, read_write, command, size, data)).0),
        access_run(tape, read_write, command, size, data),
        access_run(extended(tape, more), read_write, command, size, data),
    ) by {
        lemma_call_resumes(
            tape,
            more,
            "SMBus transfer"@,
            Call::Transfer { read_write, command, size, data },
        );
    }
}

broadcast proof fn write_bytes_follows(tape: Tape, data: Seq<u8>, index: int)
    ensures
        follows(tape, (#[trigger] write_bytes_run(tape, data, index)).1),
    decreases data.len() - index,
{
    broadcast use call_follows;

    if index < data.len() {
        let (_, after) = write_byte_run(tape, 0x01, data[index]);
        write_bytes_follows(after, data, index + 1);
    }
}

proof fn lemma_write_bytes_resumes(tape: Tape, more: Seq<Answer>, data: Seq<u8>, index: int)
    requires
        is_tape(tape),
    ensures
        resumes(
            tape,
            more,
            asks(write_bytes_run(tape, data, index).0),
            write_bytes_run(tape, data, index),
            write_bytes_run(extended(tape, more), data, index),
        ),
    decreases data.len() - index,
{
    broadcast use call_follows;

    if index < data.len() {
        lemma_transfer_resumes(tape, more);
        let (_, after) = write_byte_run(tape, 0x01, data[index]);
        lemma_write_bytes_resumes(after, more, data, index + 1);
        let (_, later) = write_byte_run(extended(tape, more), 0x01, data[index]);
        write_bytes_follows(later, data, index + 1);
    }
}

broadcast proof fn fallback_follows(tape: Tape, register: u16, data: Seq<u8>)
    ensures
        follows(tape, (#[trigger] write_block_with_fallback_run(tape, register, data)).1),
{
    broadcast use {call_follows, write_bytes_follows};

}

proof fn lemma_fallback_resumes(tape: Tape, more: Seq<Answer>, register: u16, data: Seq<u8>)
    requires
        is_tape(tape),
    ensures
        resumes(
            tape,
            more,
            asks(write_block_with_fallback_run(tape, register, data).0),
            write_block_with_fallback_run(tape, register, data),
            write_block_with_fallback_run(extended(tape, more), register, data),
        ),
{
    broadcast use {call_follows, write_bytes_follows};

    lemma_transfer_resumes(tape, more);
    let (_, tried) = write_block_run(tape, 0x03, data);
    lemma_transfer_resumes(tried, more);
    let (_, selected) = select_register_run(tried, register);
    lemma_write_bytes_resumes(selected, more, data, 0);
}

/// Performing an access goes forward on the tape.
pub proof fn perform_follows(tape: Tape, access: Access)
    ensures
        follows(tape, perform_run(tape, access).1),
{
    broadcast use {call_follows, fallback_follows};

}

/// Performing an access can be replayed.
pub proof fn perform_resumes(tape: Tape, more: Seq<Answer>, access: Access)
    requires
        is_tape(tape),
    ensures
        resumes(
            tape,
            more,
            asks(perform_run(tape, access).0),
            perform_run(tape, access),
            perform_run(extended(tape, more), access),
        ),
{
    broadcast use {call_follows, fallback_follows};

    let address = access.address();
    lemma_call_resumes(tape, more, "select I²C slave"@, Call::Slave { address });
    let (_, addressed) = set_address_run(tape, address);
    lemma_transfer_resumes(addressed, more);
    match access {
        Access::ReadAddressByte { .. } => {},
        Access::ReadRegister { register, .. } => {
            let (_, selected) = select_at_run(tape, address, register);
            lemma_transfer_resumes(selected, more);
        },
        Access::WriteRegister { register, .. } => {
            let (_, selected) = select_at_run(tape, address, register);
            lemma_transfer_resumes(selected, more);
        },
        Access::WriteRegisterBlock { register, data, .. } => {
            let (_, selected) = select_at_run(tape, address, register);
            lemma_fallback_resumes(selected, more, register, data);
        },
    }
}

} // verus!
