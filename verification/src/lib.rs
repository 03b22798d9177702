//! Helpers for generating Solidity deployment code and reconciling
//! on-chain deployment records.
//!
//! The library parses Solidity source text (comment and string stripping,
//! contract boundary detection, constructor argument extraction), parses the
//! printed deployment records found in broadcast logs, and computes the
//! decisions behind the deployment-record store (merge steps, idempotent
//! writes, export payloads).  All file reading and writing, JSON decoding and
//! template rendering live outside the library; the functions here take and
//! return plain values and are verified against their contracts.

pub mod broadcasts;
pub mod classify;
pub mod collect;
pub mod commands;
pub mod ctor;
pub mod depmap;
pub mod render;
pub mod scan;
pub mod store;
pub mod strip;
pub mod text;
pub mod types;

pub use broadcasts::get_last_deployments;
pub use classify::is_custom_type;
pub use collect::get_contracts;
pub use commands::{export, gen_deployer, sync};
pub use ctor::extract_constructor_args;
pub use depmap::DeploymentMap;
pub use render::{memory_type, template_name};
pub use scan::find_contracts;
pub use store::{export_payload, merge_plan, should_write};
pub use strip::strip_source;
pub use text::chars_of;
