//! ENE RGB DRAM controllers on an SMBus: finding, mapping, diagnosing and
//! lighting them.

pub mod adapter;
pub mod course;
pub mod diagnostics;
pub mod discovery;
pub mod identity;
pub mod lighting;
pub mod mapper;
pub mod replay;
pub mod safety;

pub use adapter::adapter_entries;
pub use adapter::Adapter;
pub use diagnostics::diagnose;
pub use diagnostics::diagnose_address;
pub use diagnostics::AddressDiagnostic;
pub use diagnostics::BusDiagnostic;
pub use discovery::discover_bus;
pub use discovery::prepare;
pub use discovery::probe;
pub use discovery::remap_dram_devices;
pub use discovery::set_all_colors;
pub use discovery::set_prepared_colors;
pub use discovery::DramError;
pub use discovery::PreparedDram;
pub use identity::address_responds;
pub use identity::probe_address;
pub use identity::probe_on_transport;
pub use identity::read_bytes;
pub use identity::EneDramDevice;
pub use identity::ProbeReport;
pub use lighting::set_color;
pub use lighting::write_devices;
pub use lighting::DeviceWriteResult;
pub use mapper::mapper_assignments;
pub use mapper::remap_on_transport;
