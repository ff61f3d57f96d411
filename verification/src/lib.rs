//! Protocol logic for setting a solid color on HID LampArray lighting and on
//! ENE RGB DRAM controllers.

pub mod color;
pub mod controller;
pub mod ene_dram;
pub mod fault;
pub mod hid;
pub mod lamp_array;
pub mod lamp_lighting;
pub mod order;
pub mod profile;
pub mod replay;
pub mod report;
pub mod request;
pub mod session;
pub mod smbus;
pub mod text;

pub use color::format_bytes;
pub use color::parse_rgb;
pub use hid::discover_hidraw;
pub use hid::hidraw_descriptor;
pub use hid::is_lamp_array_descriptor;
pub use hid::DeviceCandidate;
pub use hid::ASUS_PID;
pub use hid::ASUS_VID;
pub use lamp_array::disable_autonomous_mode;
pub use lamp_array::lamp_request;
pub use lamp_array::range_channels;
pub use lamp_array::range_update;
pub use lamp_array::ArrayAttributes;
pub use lamp_array::LampAttributes;
pub use lamp_array::ARRAY_CONTROL_REPORT;
pub use lamp_array::ATTRIBUTES_REPORT;
pub use lamp_array::LAMP_ATTRIBUTES_REQUEST_REPORT;
pub use lamp_array::LAMP_ATTRIBUTES_RESPONSE_REPORT;
pub use lamp_array::RANGE_UPDATE_REPORT;
