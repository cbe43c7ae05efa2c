//! Verified core of a small instanced 2D renderer: byte-level draw state with
//! change tracking, update-command collection for objects and uniforms, and the
//! renderer-side bookkeeping that turns those commands into resource actions.

pub mod app_control;
pub mod bindings;
pub mod circle;
pub mod command_pool;
pub mod descriptor_pool;
pub mod device;
pub mod frame_time;
pub mod frames;
pub mod laws;
pub mod layout;
pub mod object_handles;
pub mod object_pool;
pub mod ordered;
pub mod pipeline;
pub mod profiler;
pub mod registry;
pub mod scene;
pub mod single_object;
pub mod staging;
pub mod state;
pub mod uniform;
pub mod updates;
pub mod util;
