//! Setting the renderer up: the state that its phases work on, and the plugin
//! that makes it.

use vstd::prelude::*;
use crate::base::{base_view, lemma_attach_to_empty, BaseRenderGraphConfig, Msaa};
use crate::bindings::{AssetRenderResourceBindings, RenderResourceBinding, RenderResourceBindings};
use crate::camera::{ActiveCameras, CAMERA2D, CAMERA3D};
use crate::compiler::{ComputePipelineCompiler, PipelineCompiler};
use crate::graph::{GraphView, RenderGraph};
use crate::layout::VertexBufferDescriptors;
use crate::specialization::LayoutView;
use crate::stage::{FrameDriver, Phase};

verus! {

/// The state of the renderer: what the phases of a frame read and write, each
/// part handed to a phase by reference.
pub struct RenderResources {
    pub render_graph: RenderGraph,
    pub pipeline_compiler: PipelineCompiler,
    pub compute_pipeline_compiler: ComputePipelineCompiler,
    pub render_resource_bindings: RenderResourceBindings,
    pub asset_render_resource_bindings: AssetRenderResourceBindings,
    pub vertex_buffer_descriptors: VertexBufferDescriptors,
    pub active_cameras: ActiveCameras,
    pub msaa: Msaa,
    pub driver: FrameDriver,
}

impl RenderResources {
    /// Every part is well formed.
    pub open spec fn wf(&self) -> bool {
        &&& self.render_graph.wf()
        &&& self.pipeline_compiler.wf()
        &&& self.compute_pipeline_compiler.wf()
        &&& self.render_resource_bindings.wf()
        &&& self.asset_render_resource_bindings.wf()
        &&& self.vertex_buffer_descriptors.wf()
        &&& self.active_cameras.wf()
    }
}

/// Sets the renderer up.
pub struct RenderPlugin {
    /// Configures the base render graph. Where this is `None`, the render
    /// graph starts empty and no camera slot is made.
    pub base_render_graph_config: Option<BaseRenderGraphConfig>,
}

impl Default for RenderPlugin {
    /// With the whole base render graph.
    fn default() -> (r: Self)
        ensures
            r.base_render_graph_config == Some(
                BaseRenderGraphConfig { add_2d_camera: true, add_3d_camera: true, add_main_pass: true },
            ),
    {
        RenderPlugin { base_render_graph_config: Some(BaseRenderGraphConfig::default()) }
    }
}

/// The camera slots that a configuration asks for, each bound to no entity.
pub open spec fn camera_slots(config: Option<BaseRenderGraphConfig>) -> Map<Seq<char>, Option<u64>> {
    let none = Map::<Seq<char>, Option<u64>>::empty();
    match config {
        None => none,
        Some(c) => {
            let first = if c.add_3d_camera {
                none.insert(CAMERA3D@, None)
            } else {
                none
            };
            if c.add_2d_camera {
                first.insert(CAMERA2D@, None)
            } else {
                first
            }
        },
    }
}

impl RenderPlugin {
    /// Makes the state of the renderer.
    ///
    /// `msaa` is the multisampling that the host has chosen, if it has: else
    /// a pixel gets one sample. Nothing is compiled and nothing is bound yet,
    /// and the driver stands at the start of a frame. With a configuration,
    /// the render graph is the base render graph and the camera slots that the
    /// configuration asks for exist, empty; without one, the graph is empty
    /// and there is no camera slot.
    pub fn build(&self, msaa: Option<Msaa>) -> (r: RenderResources)
        ensures
            r.wf(),
            r.msaa == match msaa {
                Some(m) => m,
                None => (Msaa { samples: 1 }),
            },
            r.render_graph@ == match self.base_render_graph_config {
                Some(config) => base_view(config, r.msaa),
                None => (GraphView { nodes: Seq::empty(), edges: Seq::empty() }),
            },
            r.active_cameras@ == camera_slots(self.base_render_graph_config),
            r.pipeline_compiler@.len() == 0,
            r.compute_pipeline_compiler@.len() == 0,
            r.render_resource_bindings@ == Map::<Seq<char>, RenderResourceBinding>::empty(),
            r.asset_render_resource_bindings@ == Map::<
                u64,
                Map<Seq<char>, RenderResourceBinding>,
            >::empty(),
            r.vertex_buffer_descriptors@ == Map::<Seq<char>, LayoutView>::empty(),
            r.driver.running() is None,
            r.driver.expected() == Phase::RenderResource,
    {
        let msaa = match msaa {
            Some(m) => m,
            None => Msaa::default(),
        };
        let mut render_graph = RenderGraph::new();
        let mut active_cameras = ActiveCameras::new();
        proof {
            assert(render_graph@.nodes =~= Seq::empty());
            assert(render_graph@.edges =~= Seq::empty());
        }
        match &self.base_render_graph_config {
            Some(config) => {
                proof {
                    lemma_attach_to_empty(render_graph@, base_view(*config, msaa));
                }
                let added = render_graph.add_base_graph(config, &msaa);
                assert(added is Ok);
                if config.add_3d_camera {
                    active_cameras.add(CAMERA3D);
                }
                if config.add_2d_camera {
                    active_cameras.add(CAMERA2D);
                }
            },
            None => {},
        }
        RenderResources {
            render_graph,
            pipeline_compiler: PipelineCompiler::new(),
            compute_pipeline_compiler: ComputePipelineCompiler::new(),
            render_resource_bindings: RenderResourceBindings::new(),
            asset_render_resource_bindings: AssetRenderResourceBindings::new(),
            vertex_buffer_descriptors: VertexBufferDescriptors::new(),
            active_cameras,
            msaa,
            driver: FrameDriver::new(),
        }
    }
}

} // verus!
