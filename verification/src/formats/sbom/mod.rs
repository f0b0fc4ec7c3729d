//! Bills of materials.

pub mod cyclonedx_json;
pub mod cyclonedx_json_laws;
pub mod cyclonedx_json_trip;
pub mod cyclonedx_xml;
pub mod cyclonedx_xml_laws;
pub mod cyclonedx_xml_trip;
pub mod identifiers;
pub mod spdx3_json;
pub mod spdx3_json_laws;
pub mod spdx3_json_trip;
pub mod spdx_json;
pub mod spdx_json_laws;
pub mod spdx_json_trip;
