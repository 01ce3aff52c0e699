//! Verified core of a udev-rule helper for USB devices.
//!
//! The library covers the four stateful parts of the tool: cataloguing
//! attached USB devices from raw device-tree attribute reads, synthesizing
//! rule text and filenames from a device identifier pair and a permission
//! policy, the key-value semantics of the rule directory, and the
//! reload/trigger/poll sequence that applies a freshly written rule.
//! All filesystem reads, subprocess launches and interactive prompts live
//! outside the library and exchange plain values with it.

pub mod apply;
pub mod device;
pub mod editor;
pub mod errors;
pub mod rule;
pub mod sort;
pub mod store;
pub mod text;
