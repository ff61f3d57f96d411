//! The direct colors of an ENE controller: the register writes that set them,
//! and reading them back.
use crate::profile::is_color_order;
use crate::profile::valid_controller;
use crate::profile::EneControllerProfile;
use vstd::prelude::*;

verus! {

/// One write to the registers of a controller.
#[derive(Debug, Clone, PartialEq, Eq)]
pub enum RegisterWrite {
    Byte { register: u16, value: u8 },
    Block { register: u16, data: Vec<u8> },
}

/// What a `RegisterWrite` writes.
pub enum Write {
    Byte { register: u16, value: u8 },
    Block { register: u16, data: Seq<u8> },
}

impl View for RegisterWrite {
    type V = Write;

    open spec fn view(&self) -> Write {
        match self {
            RegisterWrite::Byte { register, value } => Write::Byte {
                register: *register,
                value: *value,
            },
            RegisterWrite::Block { register, data } => Write::Block {
                register: *register,
                data: data@,
            },
        }
    }
}

/// What the writes write.
pub open spec fn writes_view(writes: Seq<RegisterWrite>) -> Seq<Write> {
    writes.map_values(|write: RegisterWrite| write@)
}

/// The three bytes of one LED: each color at its storage index.
pub open spec fn led_bytes(order: Seq<usize>, rgb: Seq<u8>) -> Seq<u8> {
    seq![0u8, 0u8, 0u8].update(order[0] as int, rgb[0]).update(order[1] as int, rgb[1]).update(
        order[2] as int,
        rgb[2],
    )
}

/// The color memory when every LED of the controller shows `rgb`.
pub open spec fn direct_bytes(controller: EneControllerProfile, rgb: Seq<u8>) -> Seq<u8> {
    Seq::new(
        (controller.led_count * 3) as nat,
        |i: int| led_bytes(controller.direct_color_order@, rgb)[i % 3],
    )
}

/// The end of the block that starts at `start`.
pub open spec fn block_end(length: int, block_size: int, start: int) -> int {
    if block_size < length - start {
        start + block_size
    } else {
        length
    }
}

/// `bytes` from `start` on, in blocks, each at its place after the first
/// register.
pub open spec fn color_blocks(
    register: u16,
    block_size: usize,
    bytes: Seq<u8>,
    start: int,
) -> Seq<Write>
    decreases bytes.len() - start,
{
    if start >= bytes.len() || block_size == 0 {
        seq![]
    } else {
        let end = block_end(bytes.len() as int, block_size as int, start);
        seq![
            Write::Block { register: (register + start) as u16, data: bytes.subrange(start, end) },
        ] + color_blocks(register, block_size, bytes, end)
    }
}

/// The writes that make every LED show `rgb`: direct mode, then apply, then the
/// color memory in blocks.
pub open spec fn direct_writes(controller: EneControllerProfile, rgb: Seq<u8>) -> Seq<Write> {
    seq![
        Write::Byte { register: controller.direct_register, value: controller.direct_value },
        Write::Byte { register: controller.apply_register, value: controller.apply_value },
    ] + color_blocks(
        controller.direct_color_register,
        controller.block_size,
        direct_bytes(controller, rgb),
        0,
    )
}

/// Whether the storage indices lie within an LED's three bytes, blocks hold
/// something, and every block starts at a register that exists.
pub open spec fn writable_controller(controller: EneControllerProfile) -> bool {
    &&& controller.block_size > 0
    &&& controller.led_count > 0 ==> {
        &&& controller.direct_color_order@[0] < 3
        &&& controller.direct_color_order@[1] < 3
        &&& controller.direct_color_order@[2] < 3
        &&& controller.direct_color_register + (controller.led_count * 3 - 1)
            / controller.block_size as int * controller.block_size <= u16::MAX
    }
}

proof fn lemma_block_start(length: int, block_size: int, count: int)
    requires
        0 < block_size,
        0 <= count,
        count * block_size < length,
    ensures
        count * block_size <= (length - 1) / block_size * block_size,
{
    let last = (length - 1) / block_size;
    assert(count <= last) by (nonlinear_arith)
        requires
            0 < block_size,
            0 <= count,
            count * block_size <= length - 1,
            last == (length - 1) / block_size,
    ;
    assert(count * block_size <= last * block_size) by (nonlinear_arith)
        requires
            count <= last,
            0 < block_size,
    ;
}

/// A valid controller description can be written.
pub proof fn valid_controller_is_writable(controller: EneControllerProfile)
    requires
        valid_controller(controller),
    ensures
        writable_controller(controller),
{
    let length = controller.led_count * 3;
    let block_size = controller.block_size as int;
    assert((length - 1) / block_size * block_size <= length - 1) by (nonlinear_arith)
        requires
            0 < block_size,
            0 < length,
    ;
}

proof fn lemma_writes_push(writes: Seq<RegisterWrite>, write: RegisterWrite)
    ensures
        writes_view(writes.push(write)) == writes_view(writes).push(write@),
{
    assert(writes_view(writes.push(write)) =~= writes_view(writes).push(write@));
}

fn repeat_led(led: &[u8; 3], count: u8) -> (bytes: Vec<u8>)
    ensures
        bytes@ == Seq::new((count * 3) as nat, |i: int| led@[i % 3]),
{
    let mut bytes: Vec<u8> = Vec::new();
    let mut done: u8 = 0;
    while done < count
        invariant
            done <= count,
            bytes@.len() == done * 3,
            forall|i: int| 0 <= i < bytes@.len() ==> bytes@[i] == led@[i % 3],
        decreases count - done,
    {
        bytes.push(led[0]);
        bytes.push(led[1]);
        bytes.push(led[2]);
        done = done + 1;
    }
    assert(bytes@ =~= Seq::new((count * 3) as nat, |i: int| led@[i % 3]));
    bytes
}

fn copy_range(bytes: &Vec<u8>, start: usize, end: usize) -> (part: Vec<u8>)
    requires
        start <= end <= bytes@.len(),
    ensures
        part@ == bytes@.subrange(start as int, end as int),
{
    let mut part: Vec<u8> = Vec::new();
    let mut i: usize = start;
    while i < end
        invariant
            start <= i <= end <= bytes@.len(),
            part@ == bytes@.subrange(start as int, i as int),
        decreases end - i,
    {
        part.push(bytes[i]);
        i = i + 1;
        assert(part@ =~= bytes@.subrange(start as int, i as int));
    }
    part
}

/// The writes that set all LEDs of a controller to one color: direct mode is
/// switched on and applied, then the colors are written in blocks. No further
/// apply follows.
pub fn direct_color_writes(controller: EneControllerProfile, rgb: [u8; 3]) -> (writes: Vec<
    RegisterWrite,
>)
    requires
        writable_controller(controller),
    ensures
        writes_view(writes@) == direct_writes(controller, rgb@),
{
    let order: [usize; 3] = controller.direct_color_order;
    let mut led: [u8; 3] = [0, 0, 0];
    if controller.led_count > 0 {
        led[order[0]] = rgb[0];
        led[order[1]] = rgb[1];
        led[order[2]] = rgb[2];
        assert(led@ =~= led_bytes(order@, rgb@));
    }
    let bytes: Vec<u8> = repeat_led(&led, controller.led_count);
    assert(bytes@ =~= direct_bytes(controller, rgb@));
    let mut writes: Vec<RegisterWrite> = Vec::new();
    proof {
        lemma_writes_push(
            writes@,
            RegisterWrite::Byte {
                register: controller.direct_register,
                value: controller.direct_value,
            },
        );
    }
    writes.push(
        RegisterWrite::Byte {
            register: controller.direct_register,
            value: controller.direct_value,
        },
    );
    proof {
        lemma_writes_push(
            writes@,
            RegisterWrite::Byte {
                register: controller.apply_register,
                value: controller.apply_value,
            },
        );
    }
    writes.push(
        RegisterWrite::Byte { register: controller.apply_register, value: controller.apply_value },
    );
    let register: u16 = controller.direct_color_register;
    let block_size: usize = controller.block_size;
    let ghost head = seq![
        Write::Byte { register: controller.direct_register, value: controller.direct_value },
        Write::Byte { register: controller.apply_register, value: controller.apply_value },
    ];
    assert(writes_view(writes@) =~= head);
    let ghost blocks = color_blocks(register, block_size, bytes@, 0);
    let ghost mut count: int = 0;
    let mut start: usize = 0;
    assert(head + blocks =~= writes_view(writes@) + blocks);
    while start < bytes.len()
        invariant
            start <= bytes@.len(),
            block_size > 0,
            0 <= count,
            start < bytes@.len() ==> start == count * block_size,
            bytes@.len() == controller.led_count * 3,
            block_size == controller.block_size,
            register == controller.direct_color_register,
            writable_controller(controller),
            writes_view(writes@) + color_blocks(register, block_size, bytes@, start as int) == head
                + blocks,
        decreases bytes@.len() - start,
    {
        let end: usize = if block_size < bytes.len() - start {
            start + block_size
        } else {
            bytes.len()
        };
        proof {
            lemma_block_start(bytes@.len() as int, block_size as int, count);
            assert((count + 1) * block_size == count * block_size + block_size)
                by (nonlinear_arith);
            count = count + 1;
        }
        let data: Vec<u8> = copy_range(&bytes, start, end);
        let write: RegisterWrite = RegisterWrite::Block { register: register + start as u16, data };
        proof {
            lemma_writes_push(writes@, write);
            let rest = color_blocks(register, block_size, bytes@, end as int);
            assert(writes_view(writes@) + (seq![write@] + rest) =~= writes_view(writes@).push(
                write@,
            ) + rest);
        }
        writes.push(write);
        start = end;
    }
    assert(writes_view(writes@) + color_blocks(register, block_size, bytes@, start as int)
        =~= writes_view(writes@));
    writes
}

/// The color memory does not hold three bytes for each LED.
#[derive(Debug, Clone, Copy, PartialEq, Eq)]
pub struct UnevenColorData;

impl UnevenColorData {
    /// Describes the error.
    pub fn message(&self) -> (message: String)
        ensures
            message@ == "ENE direct-color data must be a multiple of three bytes"@,
    {
        "ENE direct-color data must be a multiple of three bytes".to_owned()
    }
}

/// The color of one LED as its controller stores it.
pub open spec fn stored_color(bytes: Seq<u8>, order: Seq<usize>, led: int) -> Seq<u8> {
    seq![bytes[led * 3 + order[0]], bytes[led * 3 + order[1]], bytes[led * 3 + order[2]]]
}

/// Reads the colors of the LEDs from the color memory. ENE direct colors are
/// stored in the controller's own order, not in ordinary RGB order.
pub fn decode_direct_colors(bytes: &[u8], controller: EneControllerProfile) -> (result: Result<
    Vec<[u8; 3]>,
    UnevenColorData,
>)
    requires
        bytes@.len() > 0 && bytes@.len() % 3 == 0 ==> controller.direct_color_order@[0] < 3
            && controller.direct_color_order@[1] < 3 && controller.direct_color_order@[2] < 3,
    ensures
        result is Ok <==> bytes@.len() % 3 == 0,
        result matches Ok(colors) ==> {
            &&& colors@.len() == bytes@.len() / 3
            &&& forall|led: int|
                0 <= led < colors@.len() ==> (#[trigger] colors@[led])@ == stored_color(
                    bytes@,
                    controller.direct_color_order@,
                    led,
                )
        },
{
    if bytes.len() % 3 != 0 {
        return Err(UnevenColorData);
    }
    let order: [usize; 3] = controller.direct_color_order;
    let mut colors: Vec<[u8; 3]> = Vec::new();
    let mut start: usize = 0;
    while start < bytes.len()
        invariant
            start <= bytes@.len(),
            bytes@.len() % 3 == 0,
            start == colors@.len() * 3,
            bytes@.len() > 0 ==> order@[0] < 3 && order@[1] < 3 && order@[2] < 3,
            forall|led: int|
                0 <= led < colors@.len() ==> (#[trigger] colors@[led])@ == stored_color(
                    bytes@,
                    order@,
                    led,
                ),
        decreases bytes@.len() - start,
    {
        let color: [u8; 3] = [
            bytes[start + order[0]],
            bytes[start + order[1]],
            bytes[start + order[2]],
        ];
        assert(color@ =~= stored_color(bytes@, order@, colors@.len() as int));
        colors.push(color);
        start = start + 3;
    }
    Ok(colors)
}

/// What is written for a color reads back as that color, on every LED.
pub proof fn written_color_reads_back(controller: EneControllerProfile, rgb: Seq<u8>, led: int)
    requires
        rgb.len() == 3,
        is_color_order(controller.direct_color_order@),
        0 <= led < controller.led_count,
    ensures
        direct_bytes(controller, rgb).len() == controller.led_count * 3,
        stored_color(direct_bytes(controller, rgb), controller.direct_color_order@, led) == rgb,
{
    let order = controller.direct_color_order@;
    let bytes = direct_bytes(controller, rgb);
    assert forall|c: int| 0 <= c < 3 implies bytes[led * 3 + order[c]] == rgb[c] by {
        assert((led * 3 + order[c]) % 3 == order[c]);
    }
    assert(stored_color(bytes, order, led) =~= rgb);
}

/// The number of bytes in the blocks before `index`.
pub open spec fn bytes_before(blocks: Seq<Write>, index: int) -> int
    decreases index,
{
    if index <= 0 {
        0
    } else {
        bytes_before(blocks, index - 1) + block_data(blocks[index - 1]).len()
    }
}

/// The data of a block.
pub open spec fn block_data(write: Write) -> Seq<u8> {
    match write {
        Write::Block { data, .. } => data,
        Write::Byte { .. } => seq![],
    }
}

/// The data of all blocks, one after the other.
pub open spec fn joined_data(blocks: Seq<Write>) -> Seq<u8>
    decreases blocks.len(),
{
    if blocks.len() == 0 {
        seq![]
    } else {
        block_data(blocks[0]) + joined_data(blocks.skip(1))
    }
}

proof fn lemma_color_blocks(
    register: u16,
    block_size: usize,
    bytes: Seq<u8>,
    start: int,
    index: int,
)
    requires
        0 < block_size,
        0 <= start <= bytes.len(),
        0 <= index <= color_blocks(register, block_size, bytes, start).len(),
        register + bytes.len() <= 0x10000,
    ensures
        ({
            let blocks = color_blocks(register, block_size, bytes, start);
            &&& joined_data(blocks) == bytes.subrange(start, bytes.len() as int)
            &&& bytes_before(blocks, index) >= 0
            &&& index < blocks.len() ==> {
                &&& blocks[index] is Block
                &&& blocks[index]->Block_register == register + start + bytes_before(blocks, index)
                &&& 1 <= block_data(blocks[index]).len() <= block_size
                &&& start + bytes_before(blocks, index) + block_data(blocks[index]).len()
                    <= bytes.len()
            }
        }),
    decreases bytes.len() - start,
{
    let blocks = color_blocks(register, block_size, bytes, start);
    if start >= bytes.len() {
        assert(joined_data(blocks) =~= bytes.subrange(start, bytes.len() as int));
    } else {
        let end = block_end(bytes.len() as int, block_size as int, start);
        let rest = color_blocks(register, block_size, bytes, end);
        assert(blocks.skip(1) =~= rest);
        assert(blocks[0] == Write::Block {
            register: (register + start) as u16,
            data: bytes.subrange(start, end),
        });
        if index == 0 {
            lemma_color_blocks(register, block_size, bytes, end, 0);
        } else {
            lemma_color_blocks(register, block_size, bytes, end, index - 1);
            lemma_bytes_before_shift(blocks, index);
            if index < blocks.len() {
                assert(blocks[index] == rest[index - 1]);
            }
        }
        assert(bytes.subrange(start, end) + bytes.subrange(end, bytes.len() as int)
            =~= bytes.subrange(start, bytes.len() as int));
    }
}

proof fn lemma_bytes_before_shift(blocks: Seq<Write>, index: int)
    requires
        1 <= index <= blocks.len(),
    ensures
        bytes_before(blocks, index) == block_data(blocks[0]).len() + bytes_before(
            blocks.skip(1),
            index - 1,
        ),
    decreases index,
{
    if index > 1 {
        lemma_bytes_before_shift(blocks, index - 1);
        assert(blocks[index - 1] == blocks.skip(1)[index - 2]);
    } else {
        assert(bytes_before(blocks, 0) == 0);
    }
}

/// The writes for a valid controller: direct mode, apply, and nothing but
/// blocks after that. The blocks are no larger than the controller takes, so
/// they fit an SMBus transfer, and they join to the color
/// memory, each at the register after the ones before it.
pub proof fn direct_writes_cover_the_color_memory(
    controller: EneControllerProfile,
    rgb: Seq<u8>,
    index: int,
)
    requires
        valid_controller(controller),
        2 <= index < direct_writes(controller, rgb).len(),
    ensures
        ({
            let writes = direct_writes(controller, rgb);
            let blocks = writes.skip(2);
            &&& writes[0] == Write::Byte {
                register: controller.direct_register,
                value: controller.direct_value,
            }
            &&& writes[1] == Write::Byte {
                register: controller.apply_register,
                value: controller.apply_value,
            }
            &&& joined_data(blocks) == direct_bytes(controller, rgb)
            &&& writes[index] is Block
            &&& writes[index]->Block_register == controller.direct_color_register + bytes_before(
                blocks,
                index - 2,
            )
            &&& 1 <= block_data(writes[index]).len() <= controller.block_size <= 32
        }),
{
    let writes = direct_writes(controller, rgb);
    let bytes = direct_bytes(controller, rgb);
    let blocks = color_blocks(
        controller.direct_color_register,
        controller.block_size,
        bytes,
        0,
    );
    assert(writes.skip(2) =~= blocks);
    lemma_color_blocks(
        controller.direct_color_register,
        controller.block_size,
        bytes,
        0,
        index - 2,
    );
    assert(bytes.subrange(0, bytes.len() as int) =~= bytes);
}

/// The registers of a controller after a write.
pub open spec fn stored(registers: spec_fn(int) -> u8, write: Write) -> spec_fn(int) -> u8 {
    match write {
        Write::Byte { register, value } => |r: int|
            if r == register {
                value
            } else {
                registers(r)
            },
        Write::Block { register, data } => |r: int|
            if register <= r < register + data.len() {
                data[r - register]
            } else {
                registers(r)
            },
    }
}

/// The registers of a controller after all of the writes.
pub open spec fn all_stored(registers: spec_fn(int) -> u8, writes: Seq<Write>) -> spec_fn(int) -> u8
    decreases writes.len(),
{
    if writes.len() == 0 {
        registers
    } else {
        all_stored(stored(registers, writes[0]), writes.skip(1))
    }
}

proof fn lemma_blocks_stored(
    registers: spec_fn(int) -> u8,
    register: u16,
    block_size: usize,
    bytes: Seq<u8>,
    start: int,
    r: int,
)
    requires
        0 < block_size,
        0 <= start <= bytes.len(),
        register + bytes.len() <= 0x10000,
    ensures
        ({
            let after = all_stored(registers, color_blocks(register, block_size, bytes, start));
            if register + start <= r < register + bytes.len() {
                after(r) == bytes[r - register]
            } else {
                after(r) == registers(r)
            }
        }),
    decreases bytes.len() - start,
{
    let blocks = color_blocks(register, block_size, bytes, start);
    if start < bytes.len() {
        let end = block_end(bytes.len() as int, block_size as int, start);
        assert(blocks.skip(1) =~= color_blocks(register, block_size, bytes, end));
        lemma_blocks_stored(
            stored(registers, blocks[0]),
            register,
            block_size,
            bytes,
            end,
            r,
        );
    }
}

/// After the writes for a color, whatever the registers held before, the color
/// memory holds that color, and a register outside it holds what it held
/// before, unless it is the direct or the apply register.
pub proof fn direct_writes_set_the_color(
    controller: EneControllerProfile,
    rgb: Seq<u8>,
    registers: spec_fn(int) -> u8,
    register: int,
)
    requires
        valid_controller(controller),
    ensures
        ({
            let first = controller.direct_color_register;
            let after = all_stored(registers, direct_writes(controller, rgb));
            if first <= register < first + controller.led_count * 3 {
                after(register) == direct_bytes(controller, rgb)[register - first]
            } else if register == controller.apply_register {
                after(register) == controller.apply_value
            } else if register == controller.direct_register {
                after(register) == controller.direct_value
            } else {
                after(register) == registers(register)
            }
        }),
{
    let writes = direct_writes(controller, rgb);
    let bytes = direct_bytes(controller, rgb);
    let first = stored(registers, writes[0]);
    let second = stored(first, writes[1]);
    let blocks = color_blocks(
        controller.direct_color_register,
        controller.block_size,
        bytes,
        0,
    );
    assert(writes.skip(1).skip(1) =~= blocks);
    assert(writes.skip(1)[0] == writes[1]);
    reveal_with_fuel(all_stored, 3);
    assert(all_stored(registers, writes) == all_stored(second, blocks));
    lemma_blocks_stored(
        second,
        controller.direct_color_register,
        controller.block_size,
        bytes,
        0,
        register,
    );
}

/// Whatever a write does is what it was made for.
pub proof fn writes_say_what_they_hold(writes: Seq<RegisterWrite>, i: int)
    requires
        0 <= i < writes.len(),
    ensures
        writes_view(writes).len() == writes.len(),
        match (writes[i], writes_view(writes)[i]) {
            (RegisterWrite::Byte { register, value }, Write::Byte { register: r, value: v }) => r
                == register && v == value,
            (RegisterWrite::Block { register, data }, Write::Block { register: r, data: d }) => r
                == register && d == data@,
            _ => false,
        },
{
}

/// Every component of the color lies at its own storage index, on every LED. A
/// storage index that no component has holds zero; one that several have holds
/// the last of them.
pub proof fn components_lie_at_their_storage_indices(
    controller: EneControllerProfile,
    rgb: Seq<u8>,
    led: int,
    index: int,
)
    requires
        writable_controller(controller),
        0 <= led < controller.led_count,
        0 <= index < 3,
    ensures
        ({
            let memory = direct_bytes(controller, rgb);
            let order = controller.direct_color_order@;
            &&& memory.len() == controller.led_count * 3
            &&& memory[led * 3 + index] == if order[2] == index {
                rgb[2]
            } else if order[1] == index {
                rgb[1]
            } else if order[0] == index {
                rgb[0]
            } else {
                0
            }
        }),
{
    assert((led * 3 + index) % 3 == index);
}

/// With a valid controller the byte of each LED at the storage index of a
/// component is that component of the color.
pub proof fn color_memory_holds_each_component(
    controller: EneControllerProfile,
    rgb: Seq<u8>,
    led: int,
    c: int,
)
    requires
        valid_controller(controller),
        0 <= led < controller.led_count,
        0 <= c < 3,
    ensures
        direct_bytes(controller, rgb)[led * 3 + controller.direct_color_order@[c]] == rgb[c],
{
    valid_controller_is_writable(controller);
    components_lie_at_their_storage_indices(
        controller,
        rgb,
        led,
        controller.direct_color_order@[c] as int,
    );
}

/// Each component of a stored color is the byte at its storage index.
pub proof fn stored_components_are_read_at_their_indices(
    bytes: Seq<u8>,
    order: Seq<usize>,
    led: int,
    c: int,
)
    requires
        0 <= c < 3,
    ensures
        stored_color(bytes, order, led).len() == 3,
        stored_color(bytes, order, led)[c] == bytes[led * 3 + order[c]],
{
}

proof fn lemma_block_places(
    register: u16,
    block_size: usize,
    bytes: Seq<u8>,
    start: int,
    index: int,
)
    requires
        0 < block_size,
        0 <= start <= bytes.len(),
        0 <= index < color_blocks(register, block_size, bytes, start).len(),
    ensures
        ({
            let blocks = color_blocks(register, block_size, bytes, start);
            let from = start + index * block_size;
            let to = if from + block_size < bytes.len() {
                from + block_size
            } else {
                bytes.len() as int
            };
            &&& 0 <= from < to
            &&& blocks[index] == Write::Block {
                register: (register + from) as u16,
                data: bytes.subrange(from, to),
            }
            &&& index == blocks.len() - 1 <==> to == bytes.len()
        }),
    decreases bytes.len() - start,
{
    let blocks = color_blocks(register, block_size, bytes, start);
    if start < bytes.len() {
        let end = block_end(bytes.len() as int, block_size as int, start);
        let rest = color_blocks(register, block_size, bytes, end);
        if index > 0 {
            assert(blocks[index] == rest[index - 1]);
            lemma_block_places(register, block_size, bytes, end, index - 1);
            assert(start + index * block_size == (start + block_size) + (index - 1) * block_size)
                by (nonlinear_arith);
        } else {
            assert(index * block_size == 0) by (nonlinear_arith)
                requires
                    index == 0,
            ;
        }
    }
}

/// Every write for a color, one by one: direct mode first, then apply, then the
/// blocks. The block number `index - 2` stands that many block sizes after the
/// first color register, and holds as many bytes as a block takes, or what is
/// left; each of them is the component whose storage index it has. The last
/// block is the one that reaches the end of the color memory.
pub proof fn each_write_has_its_place_and_bytes(
    controller: EneControllerProfile,
    rgb: Seq<u8>,
    index: int,
    byte: int,
)
    requires
        writable_controller(controller),
        0 <= index < direct_writes(controller, rgb).len(),
    ensures
        ({
            let writes = direct_writes(controller, rgb);
            let order = controller.direct_color_order@;
            let length = controller.led_count * 3;
            let size = controller.block_size as int;
            let from = (index - 2) * size;
            &&& writes.len() >= 2
            &&& length > 0 ==> writes.len() > 2
            &&& if index == 0 {
                writes[index] == Write::Byte {
                    register: controller.direct_register,
                    value: controller.direct_value,
                }
            } else if index == 1 {
                writes[index] == Write::Byte {
                    register: controller.apply_register,
                    value: controller.apply_value,
                }
            } else {
                &&& writes[index] matches Write::Block { register, data }
                &&& register == controller.direct_color_register + from
                &&& data.len() == if from + size < length {
                    size
                } else {
                    length - from
                }
                &&& index == writes.len() - 1 <==> from + size >= length
                &&& 0 <= byte < data.len() ==> data[byte] == if order[2] == (from + byte) % 3 {
                    rgb[2]
                } else if order[1] == (from + byte) % 3 {
                    rgb[1]
                } else if order[0] == (from + byte) % 3 {
                    rgb[0]
                } else {
                    0
                }
            }
        }),
{
    let bytes = direct_bytes(controller, rgb);
    let register = controller.direct_color_register;
    let size = controller.block_size;
    let blocks = color_blocks(register, size, bytes, 0);
    let writes = direct_writes(controller, rgb);
    if index >= 2 {
        assert(writes[index] == blocks[index - 2]);
        lemma_block_places(register, size, bytes, 0, index - 2);
        let from = (index - 2) * size;
        lemma_block_start(bytes.len() as int, size as int, index - 2);
        let data = writes[index]->Block_data;
        if 0 <= byte < data.len() {
            let at = from + byte;
            assert(0 <= at < bytes.len());
            assert(at / 3 * 3 + at % 3 == at);
            components_lie_at_their_storage_indices(controller, rgb, at / 3, at % 3);
        }
    }
}

} // verus!
