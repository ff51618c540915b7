use vstd::prelude::*;

pub mod text;
pub mod pipeline;
pub mod resources;
pub mod engine;
pub mod assets;
pub mod schedule;
pub mod attr_parse;
pub mod lighting;
pub mod vulkan;
pub mod render_graph;
pub mod proto;
pub mod asset_specs;
pub mod gpu_sync;
pub mod barriers;
pub mod device_setup;
pub mod frame_loop;
pub mod codegen;

verus! {

} // verus!
