//! What most users of the renderer need.

pub use crate::backend::{Backend, LoggedBackend};
pub use crate::base::{BaseRenderGraphConfig, Msaa};
pub use crate::bindings::{AssetRenderResourceBindings, RenderResourceBinding, RenderResourceBindings};
pub use crate::camera::ActiveCameras;
pub use crate::compiler::{ComputePipelineCompiler, PipelineCompiler};
pub use crate::draw::{Draw, RenderPipeline, RenderPipelines};
pub use crate::graph::{RenderGraph, RenderNode};
pub use crate::plugin::{RenderPlugin, RenderResources};
pub use crate::runner::{LoggedRunner, NodeFailure, NodeRunner};
pub use crate::specialization::{ComputePipelineSpecialization, PipelineSpecialization, PrimitiveTopology};
pub use crate::stage::{FrameDriver, Phase};
