//! In-code hardware profiles. Add a profile here before enabling a new
//! controller; discovery deliberately never treats an unknown SMBus responder
//! as writable.
use crate::text::hex_padded;
use crate::text::push_hex_padded;
use vstd::prelude::*;

verus! {

#[derive(Debug, Clone, Copy)]
pub struct HardwareProfile {
    pub lamp_array: LampArrayProfile,
    pub ene_dram: EneDramProfile,
}

#[derive(Debug, Clone, Copy)]
pub struct LampArrayProfile {
    /// `None` accepts any descriptor-validated LampArray interface.
    pub vid: Option<u16>,
    pub pid: Option<u16>,
}

#[derive(Debug, Clone, Copy)]
pub struct EneDramProfile {
    /// Only adapters whose sysfs name contains one of these strings are probed.
    pub adapter_name_patterns: &'static [&'static str],
    /// The only 7-bit I²C addresses that will be read or written.
    pub addresses: &'static [u16],
    pub controllers: &'static [EneControllerProfile],
}

#[derive(Debug, Clone, Copy, PartialEq, Eq)]
pub struct EneControllerProfile {
    pub version: &'static str,
    pub led_count: u8,
    pub direct_color_register: u16,
    /// Storage indices for logical red, green, and blue respectively.
    pub direct_color_order: [usize; 3],
    pub direct_register: u16,
    pub direct_value: u8,
    pub apply_register: u16,
    pub apply_value: u8,
    pub block_size: usize,
}

/// The profile proven on the development machine. Extend the controller or
/// adapter lists to support new hardware; do not loosen validation globally.
pub fn default_hardware() -> (profile: HardwareProfile)
    ensures
        profile.lamp_array.vid == Some(0x0b05u16),
        profile.lamp_array.pid == Some(0x18f3u16),
        profile.ene_dram.adapter_name_patterns@.len() == 1,
        profile.ene_dram.adapter_name_patterns@[0]@ == "SMBus PIIX4 adapter"@,
        profile.ene_dram.addresses@ == seq![0x70u16, 0x71, 0x72, 0x73],
        profile.ene_dram.controllers@.len() == 1,
        ({
            let controller = profile.ene_dram.controllers@[0];
            &&& controller.version@ == "AUDA0-E6K5-0101"@
            &&& controller.led_count == 8
            &&& controller.direct_color_register == 0x8100
            &&& controller.direct_color_order@ == seq![0usize, 2, 1]
            &&& controller.direct_register == 0x8020
            &&& controller.direct_value == 1
            &&& controller.apply_register == 0x80a0
            &&& controller.apply_value == 1
            &&& controller.block_size == 3
        }),
        valid_profile(profile.ene_dram),
{
    proof {
        reveal_strlit("SMBus PIIX4 adapter");
        reveal_strlit("AUDA0-E6K5-0101");
    }
    HardwareProfile {
        lamp_array: LampArrayProfile { vid: Some(0x0b05), pid: Some(0x18f3) },
        ene_dram: EneDramProfile {
            adapter_name_patterns: &["SMBus PIIX4 adapter"],
            addresses: &[0x70, 0x71, 0x72, 0x73],
            controllers: &[
                EneControllerProfile {
                    version: "AUDA0-E6K5-0101",
                    led_count: 8,
                    direct_color_register: 0x8100,
                    direct_color_order: [0, 2, 1],  // R, B, G on the wire
                    direct_register: 0x8020,
                    direct_value: 0x01,
                    apply_register: 0x80a0,
                    apply_value: 0x01,
                    block_size: 3,
                },
            ],
        },
    }
}

/// The address at which unmapped ENE DRAM controllers wait for an address.
pub const DRAM_MAPPER_ADDRESS: u16 = 0x77;

/// What makes a profile unusable.
#[derive(Debug, Clone, Copy, PartialEq, Eq)]
pub enum ProfileError {
    AdapterNamesMissing,
    AddressListEmpty,
    ControllerListEmpty,
    TooManySlots,
    InvalidAddress(u16),
    DuplicateAddress(u16),
    VersionEmpty,
    ZeroLeds,
    BlockSize,
    ColorOrder,
    ColorRegistersOverflow,
}

impl ProfileError {
    /// The text that `message` gives.
    pub open spec fn text(self) -> Seq<char> {
        match self {
            ProfileError::AdapterNamesMissing => "ENE adapter names must be specified"@,
            ProfileError::AddressListEmpty => "ENE address list is empty"@,
            ProfileError::ControllerListEmpty => "ENE controller list is empty"@,
            ProfileError::TooManySlots => "too many ENE mapper slots"@,
            ProfileError::InvalidAddress(address) => "invalid ENE DRAM address 0x"@ + hex_padded(
                address as nat,
            ),
            ProfileError::DuplicateAddress(address) => "duplicate ENE DRAM address 0x"@
                + hex_padded(address as nat),
            ProfileError::VersionEmpty => "ENE version is empty"@,
            ProfileError::ZeroLeds => "ENE controller has zero LEDs"@,
            ProfileError::BlockSize => "ENE block size must be 1..=32"@,
            ProfileError::ColorOrder => "ENE color order must be a permutation"@,
            ProfileError::ColorRegistersOverflow => "ENE color registers overflow"@,
        }
    }

    /// Describes the error.
    pub fn message(&self) -> (message: String)
        ensures
            message@ == self.text(),
    {
        match self {
            ProfileError::AdapterNamesMissing => "ENE adapter names must be specified".to_owned(),
            ProfileError::AddressListEmpty => "ENE address list is empty".to_owned(),
            ProfileError::ControllerListEmpty => "ENE controller list is empty".to_owned(),
            ProfileError::TooManySlots => "too many ENE mapper slots".to_owned(),
            ProfileError::InvalidAddress(address) => {
                let mut message: String = "invalid ENE DRAM address 0x".to_owned();
                push_hex_padded(&mut message, *address);
                message
            },
            ProfileError::DuplicateAddress(address) => {
                let mut message: String = "duplicate ENE DRAM address 0x".to_owned();
                push_hex_padded(&mut message, *address);
                message
            },
            ProfileError::VersionEmpty => "ENE version is empty".to_owned(),
            ProfileError::ZeroLeds => "ENE controller has zero LEDs".to_owned(),
            ProfileError::BlockSize => "ENE block size must be 1..=32".to_owned(),
            ProfileError::ColorOrder => "ENE color order must be a permutation".to_owned(),
            ProfileError::ColorRegistersOverflow => "ENE color registers overflow".to_owned(),
        }
    }
}

/// Whether `order` is a permutation of 0, 1 and 2.
pub open spec fn is_color_order(order: Seq<usize>) -> bool {
    &&& order.len() == 3
    &&& order[0] < 3 && order[1] < 3 && order[2] < 3
    &&& order[0] != order[1] && order[0] != order[2] && order[1] != order[2]
}

/// Whether direct colors can be written with this controller description: it
/// names a version and LEDs, its blocks fit an SMBus block transfer, and the
/// registers of all LEDs exist.
pub open spec fn valid_controller(controller: EneControllerProfile) -> bool {
    &&& controller.version@.len() > 0
    &&& controller.led_count > 0
    &&& 1 <= controller.block_size <= 32
    &&& is_color_order(controller.direct_color_order@)
    &&& controller.direct_color_register + controller.led_count * 3 <= 0x10000
}

/// Whether `address` may be given to a DRAM controller: a 7-bit address above
/// the reserved ones and below the mapper.
pub open spec fn is_dram_address(address: u16) -> bool {
    0x03 <= address < DRAM_MAPPER_ADDRESS
}

/// Whether a profile can be used: nothing that it must list is missing, there
/// are no more addresses than mapper slots, the addresses are usable and
/// distinct, and so is each controller.
pub open spec fn valid_profile(profile: EneDramProfile) -> bool {
    &&& profile.adapter_name_patterns@.len() > 0
    &&& forall|i: int|
        0 <= i < profile.adapter_name_patterns@.len() ==> (
        #[trigger] profile.adapter_name_patterns@[i])@.len() > 0
    &&& 0 < profile.addresses@.len() <= 0x100
    &&& forall|i: int|
        0 <= i < profile.addresses@.len() ==> is_dram_address(#[trigger] profile.addresses@[i])
    &&& profile.addresses@.no_duplicates()
    &&& profile.controllers@.len() > 0
    &&& forall|i: int|
        0 <= i < profile.controllers@.len() ==> valid_controller(#[trigger] profile.controllers@[i])
}

/// What is wrong with the address at `index`, given the ones before it.
pub open spec fn address_error(addresses: Seq<u16>, index: int) -> Option<ProfileError> {
    let address = addresses[index];
    if !is_dram_address(address) {
        Some(ProfileError::InvalidAddress(address))
    } else if addresses.take(index).contains(address) {
        Some(ProfileError::DuplicateAddress(address))
    } else {
        None
    }
}

/// The first error in the addresses from `index` on.
pub open spec fn first_address_error(addresses: Seq<u16>, index: int) -> Option<ProfileError>
    decreases addresses.len() - index,
{
    if index >= addresses.len() {
        None
    } else {
        match address_error(addresses, index) {
            Some(error) => Some(error),
            None => first_address_error(addresses, index + 1),
        }
    }
}

/// What is wrong with a controller description.
pub open spec fn controller_error(controller: EneControllerProfile) -> Option<ProfileError> {
    if controller.version@.len() == 0 {
        Some(ProfileError::VersionEmpty)
    } else if controller.led_count == 0 {
        Some(ProfileError::ZeroLeds)
    } else if !(1 <= controller.block_size <= 32) {
        Some(ProfileError::BlockSize)
    } else if !is_color_order(controller.direct_color_order@) {
        Some(ProfileError::ColorOrder)
    } else if controller.direct_color_register + controller.led_count * 3 > 0x10000 {
        Some(ProfileError::ColorRegistersOverflow)
    } else {
        None
    }
}

/// The first error in the controllers from `index` on.
pub open spec fn first_controller_error(
    controllers: Seq<EneControllerProfile>,
    index: int,
) -> Option<ProfileError>
    decreases controllers.len() - index,
{
    if index >= controllers.len() {
        None
    } else {
        match controller_error(controllers[index]) {
            Some(error) => Some(error),
            None => first_controller_error(controllers, index + 1),
        }
    }
}

/// Whether one of the patterns is the empty text.
pub open spec fn has_empty_pattern(patterns: Seq<&'static str>) -> bool {
    exists|i: int| 0 <= i < patterns.len() && (#[trigger] patterns[i])@.len() == 0
}

/// The first thing that is wrong with a profile.
pub open spec fn profile_error(profile: EneDramProfile) -> Option<ProfileError> {
    if profile.adapter_name_patterns@.len() == 0 || has_empty_pattern(
        profile.adapter_name_patterns@,
    ) {
        Some(ProfileError::AdapterNamesMissing)
    } else if profile.addresses@.len() == 0 {
        Some(ProfileError::AddressListEmpty)
    } else if profile.controllers@.len() == 0 {
        Some(ProfileError::ControllerListEmpty)
    } else if profile.addresses@.len() > 0x100 {
        Some(ProfileError::TooManySlots)
    } else {
        match first_address_error(profile.addresses@, 0) {
            Some(error) => Some(error),
            None => first_controller_error(profile.controllers@, 0),
        }
    }
}

proof fn lemma_no_address_error(addresses: Seq<u16>, index: int)
    requires
        0 <= index,
    ensures
        first_address_error(addresses, index) is None <==> (forall|i: int|
            index <= i < addresses.len() ==> address_error(addresses, i) is None),
    decreases addresses.len() - index,
{
    if index < addresses.len() {
        lemma_no_address_error(addresses, index + 1);
    }
}

proof fn lemma_no_controller_error(controllers: Seq<EneControllerProfile>, index: int)
    requires
        0 <= index,
    ensures
        first_controller_error(controllers, index) is None <==> (forall|i: int|
            index <= i < controllers.len() ==> valid_controller(#[trigger] controllers[i])),
    decreases controllers.len() - index,
{
    if index < controllers.len() {
        lemma_no_controller_error(controllers, index + 1);
    }
}

/// A profile has no error exactly when it is valid.
pub proof fn profile_is_valid_without_error(profile: EneDramProfile)
    ensures
        profile_error(profile) is None <==> valid_profile(profile),
{
    let addresses = profile.addresses@;
    lemma_no_address_error(addresses, 0);
    lemma_no_controller_error(profile.controllers@, 0);
    if forall|i: int| 0 <= i < addresses.len() ==> address_error(addresses, i) is None {
        assert forall|i: int| 0 <= i < addresses.len() implies is_dram_address(
            #[trigger] addresses[i],
        ) by {
            assert(address_error(addresses, i) is None);
        }
        assert forall|i: int, j: int|
            0 <= i < addresses.len() && 0 <= j < addresses.len() && i != j implies addresses[i]
            != addresses[j] by {
            let later = if i < j { j } else { i };
            let earlier = if i < j { i } else { j };
            assert(address_error(addresses, later) is None);
            assert(addresses.take(later)[earlier] == addresses[earlier]);
        }
    }
    if valid_profile(profile) {
        assert forall|i: int| 0 <= i < addresses.len() implies address_error(
            addresses,
            i,
        ) is None by {
            if addresses.take(i).contains(addresses[i]) {
                let j = choose|j: int| 0 <= j < i && addresses.take(i)[j] == addresses[i];
                assert(addresses[j] == addresses[i]);
            }
        }
    }
}

fn find_address(addresses: &[u16], before: usize, address: u16) -> (found: bool)
    requires
        before <= addresses@.len(),
    ensures
        found == addresses@.take(before as int).contains(address),
{
    let mut i: usize = 0;
    while i < before
        invariant
            i <= before <= addresses@.len(),
            forall|k: int| 0 <= k < i ==> addresses@[k] != address,
        decreases before - i,
    {
        if addresses[i] == address {
            assert(addresses@.take(before as int)[i as int] == address);
            return true;
        }
        i = i + 1;
    }
    false
}

fn check_controller(controller: &EneControllerProfile) -> (result: Result<(), ProfileError>)
    ensures
        result is Ok <==> controller_error(*controller) is None,
        result matches Err(error) ==> controller_error(*controller) == Some(error),
{
    if controller.version.is_empty() {
        return Err(ProfileError::VersionEmpty);
    }
    if controller.led_count == 0 {
        return Err(ProfileError::ZeroLeds);
    }
    if controller.block_size < 1 || controller.block_size > 32 {
        return Err(ProfileError::BlockSize);
    }
    let red: usize = controller.direct_color_order[0];
    let green: usize = controller.direct_color_order[1];
    let blue: usize = controller.direct_color_order[2];
    if red >= 3 || green >= 3 || blue >= 3 || red == green || red == blue || green == blue {
        return Err(ProfileError::ColorOrder);
    }
    if controller.direct_color_register as u32 + controller.led_count as u32 * 3 > 0x10000 {
        return Err(ProfileError::ColorRegistersOverflow);
    }
    Ok(())
}

/// Checks that a profile can be used, before anything is done with it.
pub fn validate_profile(profile: &EneDramProfile) -> (result: Result<(), ProfileError>)
    ensures
        result is Ok <==> valid_profile(*profile),
        result matches Err(error) ==> profile_error(*profile) == Some(error),
{
    proof {
        profile_is_valid_without_error(*profile);
    }
    if profile.adapter_name_patterns.len() == 0 {
        return Err(ProfileError::AdapterNamesMissing);
    }
    let mut i: usize = 0;
    while i < profile.adapter_name_patterns.len()
        invariant
            i <= profile.adapter_name_patterns@.len(),
            forall|k: int|
                0 <= k < i ==> (#[trigger] profile.adapter_name_patterns@[k])@.len() > 0,
            has_empty_pattern(profile.adapter_name_patterns@) ==> profile_error(*profile) == Some(
                ProfileError::AdapterNamesMissing,
            ),
        decreases profile.adapter_name_patterns@.len() - i,
    {
        if profile.adapter_name_patterns[i].is_empty() {
            return Err(ProfileError::AdapterNamesMissing);
        }
        i = i + 1;
    }
    if profile.addresses.len() == 0 {
        return Err(ProfileError::AddressListEmpty);
    }
    if profile.controllers.len() == 0 {
        return Err(ProfileError::ControllerListEmpty);
    }
    if profile.addresses.len() > 0x100 {
        return Err(ProfileError::TooManySlots);
    }
    let ghost in_addresses = first_address_error(profile.addresses@, 0);
    let ghost in_controllers = first_controller_error(profile.controllers@, 0);
    let mut index: usize = 0;
    while index < profile.addresses.len()
        invariant
            index <= profile.addresses@.len(),
            first_address_error(profile.addresses@, index as int) == in_addresses,
            in_addresses is Some ==> profile_error(*profile) == in_addresses,
            profile_error(*profile) is None <==> valid_profile(*profile),
        decreases profile.addresses@.len() - index,
    {
        let address: u16 = profile.addresses[index];
        if address < 0x03 || address >= DRAM_MAPPER_ADDRESS {
            return Err(ProfileError::InvalidAddress(address));
        }
        if find_address(profile.addresses, index, address) {
            return Err(ProfileError::DuplicateAddress(address));
        }
        index = index + 1;
    }
    let mut at: usize = 0;
    while at < profile.controllers.len()
        invariant
            at <= profile.controllers@.len(),
            first_controller_error(profile.controllers@, at as int) == in_controllers,
            profile_error(*profile) == in_controllers,
            profile_error(*profile) is None <==> valid_profile(*profile),
        decreases profile.controllers@.len() - at,
    {
        if let Err(error) = check_controller(&profile.controllers[at]) {
            return Err(error);
        }
        at = at + 1;
    }
    Ok(())
}

/// A profile can be used exactly if it names adapters, and none of them by the
/// empty text; has 1 to 256 addresses, all from 0x03 to 0x76 and no two the
/// same; and has controllers, each with a version, with LEDs, with blocks of 1
/// to 32 bytes, with 0, 1 and 2 as storage indices in some order, and with color
/// registers that end at 0xffff at the latest.
pub proof fn usable_profiles(profile: EneDramProfile)
    ensures
        valid_profile(profile) <==> {
            let patterns = profile.adapter_name_patterns@;
            let addresses = profile.addresses@;
            let controllers = profile.controllers@;
            &&& patterns.len() > 0
            &&& forall|i: int| 0 <= i < patterns.len() ==> (#[trigger] patterns[i])@.len() > 0
            &&& 1 <= addresses.len() <= 256
            &&& forall|i: int| 0 <= i < addresses.len() ==> 0x03 <= #[trigger] addresses[i] <= 0x76
            &&& forall|i: int, j: int|
                0 <= i < j < addresses.len() ==> #[trigger] addresses[i] != #[trigger] addresses[j]
            &&& controllers.len() > 0
            &&& forall|i: int|
                0 <= i < controllers.len() ==> {
                    let controller = #[trigger] controllers[i];
                    let order = controller.direct_color_order@;
                    &&& controller.version@.len() > 0
                    &&& controller.led_count >= 1
                    &&& 1 <= controller.block_size <= 32
                    &&& order[0] <= 2 && order[1] <= 2 && order[2] <= 2
                    &&& order[0] != order[1] && order[1] != order[2] && order[2] != order[0]
                    &&& controller.direct_color_register + controller.led_count * 3 - 1 <= 0xffff
                }
        },
{
    let addresses = profile.addresses@;
    let controllers = profile.controllers@;
    if forall|i: int, j: int|
        0 <= i < j < addresses.len() ==> #[trigger] addresses[i] != #[trigger] addresses[j] {
        assert(addresses.no_duplicates());
    }
    if forall|i: int| 0 <= i < addresses.len() ==> 0x03 <= #[trigger] addresses[i] <= 0x76 {
        assert forall|i: int| 0 <= i < addresses.len() implies is_dram_address(
            #[trigger] addresses[i],
        ) by {}
    }
    if valid_profile(profile) {
        assert forall|i: int| 0 <= i < addresses.len() implies 0x03 <= #[trigger] addresses[i]
            <= 0x76 by {
            assert(is_dram_address(addresses[i]));
        }
        assert forall|i: int| 0 <= i < controllers.len() implies valid_controller(
            #[trigger] controllers[i],
        ) by {}
    }
}

/// The lists are looked at before what is in them, the addresses before the
/// controllers, and both in their order; the first defect is the one that is
/// named. An address is looked at on its own before it is held against those
/// before it.
pub proof fn the_first_defect_is_named(profile: EneDramProfile, index: int)
    ensures
        ({
            let patterns = profile.adapter_name_patterns@;
            let addresses = profile.addresses@;
            let controllers = profile.controllers@;
            let error = profile_error(profile);
            let unnamed = patterns.len() == 0 || exists|i: int|
                0 <= i < patterns.len() && (#[trigger] patterns[i])@.len() == 0;
            let listed = !unnamed && addresses.len() > 0 && controllers.len() > 0
                && addresses.len() <= 256;
            &&& unnamed ==> error == Some(ProfileError::AdapterNamesMissing)
            &&& !unnamed && addresses.len() == 0 ==> error == Some(ProfileError::AddressListEmpty)
            &&& !unnamed && addresses.len() > 0 && controllers.len() == 0 ==> error == Some(
                ProfileError::ControllerListEmpty,
            )
            &&& !unnamed && addresses.len() > 256 && controllers.len() > 0 ==> error == Some(
                ProfileError::TooManySlots,
            )
            &&& listed && 0 <= index < addresses.len() && (forall|i: int|
                0 <= i < index ==> good_address(addresses, i)) && !good_address(addresses, index)
                ==> error == if 0x03 <= addresses[index] <= 0x76 {
                Some(ProfileError::DuplicateAddress(addresses[index]))
            } else {
                Some(ProfileError::InvalidAddress(addresses[index]))
            }
            &&& listed && (forall|i: int| 0 <= i < addresses.len() ==> good_address(addresses, i))
                && 0 <= index < controllers.len() && (forall|i: int|
                0 <= i < index ==> valid_controller(#[trigger] controllers[i]))
                && !valid_controller(controllers[index]) ==> {
                let controller = controllers[index];
                let order = controller.direct_color_order@;
                error == if controller.version@.len() == 0 {
                    Some(ProfileError::VersionEmpty)
                } else if controller.led_count == 0 {
                    Some(ProfileError::ZeroLeds)
                } else if controller.block_size == 0 || controller.block_size > 32 {
                    Some(ProfileError::BlockSize)
                } else if order[0] > 2 || order[1] > 2 || order[2] > 2 || order[0] == order[1]
                    || order[1] == order[2] || order[2] == order[0] {
                    Some(ProfileError::ColorOrder)
                } else {
                    Some(ProfileError::ColorRegistersOverflow)
                }
            }
        }),
{
    let addresses = profile.addresses@;
    let controllers = profile.controllers@;
    if 0 <= index < addresses.len() && (forall|i: int|
        0 <= i < index ==> good_address(addresses, i)) && !good_address(addresses, index) {
        lemma_first_address(addresses, 0, index);
    }
    if forall|i: int| 0 <= i < addresses.len() ==> good_address(addresses, i) {
        lemma_good_addresses(addresses, 0);
        if 0 <= index < controllers.len() && (forall|i: int|
            0 <= i < index ==> valid_controller(#[trigger] controllers[i])) && !valid_controller(
            controllers[index],
        ) {
            lemma_first_controller(controllers, 0, index);
        }
    }
}

/// Whether an address can be used and differs from those before it.
pub open spec fn good_address(addresses: Seq<u16>, index: int) -> bool {
    &&& 0x03 <= addresses[index] <= 0x76
    &&& forall|j: int| 0 <= j < index ==> #[trigger] addresses[j] != addresses[index]
}

proof fn lemma_address_error(addresses: Seq<u16>, index: int)
    requires
        0 <= index < addresses.len(),
    ensures
        address_error(addresses, index) is None <==> good_address(addresses, index),
{
    let before = addresses.take(index);
    if before.contains(addresses[index]) {
        let j = before.index_of(addresses[index]);
        assert(addresses[j] == addresses[index]);
    } else {
        assert forall|j: int| 0 <= j < index implies #[trigger] addresses[j]
            != addresses[index] by {
            assert(before[j] == addresses[j]);
        }
    }
}

proof fn lemma_first_address(addresses: Seq<u16>, from: int, index: int)
    requires
        0 <= from <= index < addresses.len(),
        forall|i: int| from <= i < index ==> good_address(addresses, i),
        !good_address(addresses, index),
    ensures
        first_address_error(addresses, from) == address_error(addresses, index),
        address_error(addresses, index) is Some,
    decreases index - from,
{
    lemma_address_error(addresses, from);
    if from < index {
        lemma_first_address(addresses, from + 1, index);
    }
}

proof fn lemma_good_addresses(addresses: Seq<u16>, from: int)
    requires
        0 <= from,
        forall|i: int| from <= i < addresses.len() ==> good_address(addresses, i),
    ensures
        first_address_error(addresses, from) is None,
    decreases addresses.len() - from,
{
    if from < addresses.len() {
        lemma_address_error(addresses, from);
        lemma_good_addresses(addresses, from + 1);
    }
}

proof fn lemma_first_controller(
    controllers: Seq<EneControllerProfile>,
    from: int,
    index: int,
)
    requires
        0 <= from <= index < controllers.len(),
        forall|i: int| from <= i < index ==> valid_controller(#[trigger] controllers[i]),
        !valid_controller(controllers[index]),
    ensures
        first_controller_error(controllers, from) == controller_error(controllers[index]),
    decreases index - from,
{
    if from < index {
        assert(valid_controller(controllers[from]));
        lemma_first_controller(controllers, from + 1, index);
    }
}

/// An address that is refused is named in hexadecimal.
pub proof fn refused_addresses_are_named(address: u16)
    ensures
        ProfileError::InvalidAddress(address).text() == "invalid ENE DRAM address 0x"@ + hex_padded(
            address as nat,
        ),
        ProfileError::DuplicateAddress(address).text() == "duplicate ENE DRAM address 0x"@
            + hex_padded(address as nat),
{
}

} // verus!
