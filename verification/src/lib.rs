//! A spotlight for external displays: the outputs that show active content
//! keep their picture, every other attached monitor is dimmed to zero
//! luminance and contrast, and each display gets back the values it had at
//! startup when it returns to the spotlight or the process ends.
//!
//! The library holds no handle to any hardware. It is told what probing the
//! displays gave, and it answers every request with a plan: the commands to
//! put on the DDC/CI bus, in order, with the pauses the bus needs. Whoever
//! owns the handles carries the plan out.

pub mod baseline;
pub mod capability;
pub mod host;
pub mod identity;
pub mod laws;
pub mod model;
pub mod monitors;
pub mod probe;
pub mod table;
pub mod text;
pub mod vcp;

pub use baseline::BaselineStore;
pub use host::{react, split_display_names, HostEvent, Reaction};
pub use identity::{
    build_os_to_ddc_map, device_name, trim_trailing_nuls, IdentityMap, OutputReport,
};
pub use monitors::Monitors;
pub use probe::DisplayReport;
pub use vcp::{Command, Feature, VCP_CONTRAST, VCP_DELAY_MILLIS, VCP_LUMINANCE};
