use render_core::backend::{Backend, LoggedBackend};
use render_core::bindings::RenderResourceBindings;
use render_core::cache::CompiledPipeline;
use render_core::compiler::{CompiledComputePipelineHandle, CompiledPipelineHandle};
use render_core::dispatch::{ComputePipeline, ComputePipelines, Dispatch, DispatchCommand};
use render_core::draw::RenderCommand;
use render_core::frame::PhaseError;
use render_core::prelude::{
    ComputePipelineSpecialization, Draw, Msaa, Phase, PipelineSpecialization, PrimitiveTopology,
    RenderPipeline, RenderPipelines, RenderPlugin, RenderResourceBinding,
};
use render_core::runner::{LoggedRunner, NodeFailure, NodeRunner};
use render_core::specialization::VertexFormat;
use render_core::stage::StageError;

struct Gpu {
    compiled: u64,
    refuse: bool,
}

impl Backend<PipelineSpecialization> for Gpu {
    fn compile(&mut self, _descriptor: u64, _specialization: &PipelineSpecialization, _lines: &str) -> Result<CompiledPipeline, String> {
        if self.refuse {
            return Err("rejected".to_string());
        }
        self.compiled += 1;
        Ok(CompiledPipeline { id: self.compiled })
    }
}

impl Backend<ComputePipelineSpecialization> for Gpu {
    fn compile(&mut self, _descriptor: u64, _specialization: &ComputePipelineSpecialization, _lines: &str) -> Result<CompiledPipeline, String> {
        self.compiled += 1;
        Ok(CompiledPipeline { id: 100 + self.compiled })
    }
}

struct Nodes {
    ran: Vec<usize>,
}

impl NodeRunner for Nodes {
    fn run(&mut self, node: usize, _inputs: &Vec<RenderResourceBinding>) -> Result<Vec<RenderResourceBinding>, NodeFailure> {
        self.ran.push(node);
        if node == 2 {
            Ok(vec![RenderResourceBinding::Texture { resource: 77 }])
        } else {
            Ok(vec![])
        }
    }
}

fn render_pipelines(defs: &[&str], samples: u32) -> RenderPipelines {
    RenderPipelines {
        pipelines: vec![RenderPipeline {
            descriptor: 9,
            specialization: PipelineSpecialization {
                shader_defs: defs.iter().map(|s| s.to_string()).collect(),
                dynamic_bindings: vec![],
                primitive_topology: PrimitiveTopology::TriangleList,
                vertex_layout: render_core::specialization::VertexLayout { stride: 0, attributes: vec![] },
                sample_count: samples,
            },
        }],
        bindings: RenderResourceBindings::new(),
    }
}

fn compute_pipelines() -> ComputePipelines {
    ComputePipelines {
        pipelines: vec![ComputePipeline {
            descriptor: 3,
            specialization: ComputePipelineSpecialization { shader_defs: vec![], dynamic_bindings: vec![] },
        }],
        bindings: RenderResourceBindings::new(),
    }
}

#[test]
fn two_frames_through_every_phase() {
    let mut render_gpu = LoggedBackend::new(Gpu { compiled: 0, refuse: false });
    let mut compute_gpu = LoggedBackend::new(Gpu { compiled: 0, refuse: false });
    let mut nodes = LoggedRunner::new(Nodes { ran: vec![] });
    let mut resources = RenderPlugin::default().build(Some(Msaa { samples: 4 }));
    let mut draw = Draw::new();
    let mut dispatch = Dispatch::new();
    let compute = compute_pipelines();

    for frame in 0..2 {
        // Resource provisioning: bindings, layouts and specializations are made ready.
        assert_eq!(resources.driver.enter(Phase::RenderResource), Ok(()));
        assert_eq!(
            resources.provide_binding("camera", RenderResourceBinding::Buffer { resource: 1, dynamic: false }),
            Ok(())
        );
        let layout = resources
            .provide_layout("Vertex", &vec![VertexFormat::Float3, VertexFormat::Float2])
            .unwrap()
            .unwrap();
        assert_eq!(layout.stride, 20);
        let mut pipelines = render_pipelines(&["USE_FOG"], resources.msaa.samples);
        pipelines.pipelines[0].specialization.vertex_layout = layout;

        // Graph execution: the attachment runs before the main pass that takes its texture.
        assert_eq!(resources.driver.enter(Phase::RenderGraphSystems), Ok(()));
        let report = resources.run_graph(&mut nodes).unwrap();
        assert_eq!(report.executed, vec![0, 1, 2, 3]);
        assert!(report.aborted.is_none());

        // Compute: the pipeline is compiled in the first frame only.
        assert_eq!(resources.driver.enter(Phase::Compute), Ok(()));
        assert!(resources.dispatch_entity(&mut compute_gpu, &mut dispatch, &compute).is_ok());
        assert_eq!(
            dispatch.dispatch_commands.last(),
            Some(&DispatchCommand::SetPipeline { pipeline: CompiledComputePipelineHandle { index: 0 } })
        );
        assert_eq!(dispatch.dispatch_commands.len(), frame + 1);
        assert_eq!(compute_gpu.backend().compiled, 1);

        // Draw: the pipeline is compiled in the first frame only.
        assert_eq!(resources.driver.enter(Phase::Draw), Ok(()));
        assert!(resources.draw_entity(&mut render_gpu, &mut draw, &pipelines).is_ok());
        assert_eq!(
            draw.render_commands,
            vec![RenderCommand::SetPipeline { pipeline: CompiledPipelineHandle { index: 0 } }]
        );
        assert_eq!(render_gpu.backend().compiled, 1);

        // Cleanup: what lasts one frame is cleared.
        assert_eq!(resources.driver.enter(Phase::PostRender), Ok(()));
        assert_eq!(resources.clear_entity(&mut draw, &mut pipelines), Ok(()));
        assert!(draw.render_commands.is_empty());
        assert!(pipelines.pipelines[0].specialization.shader_defs.is_empty());
        assert!(resources.driver.at_frame_start());
        assert_eq!(nodes.runner().ran.len(), 4 * (frame + 1));
    }
}

#[test]
fn work_outside_its_phase_is_refused() {
    let mut gpu = LoggedBackend::new(Gpu { compiled: 0, refuse: false });
    let mut compute_gpu = LoggedBackend::new(Gpu { compiled: 0, refuse: false });
    let mut nodes = LoggedRunner::new(Nodes { ran: vec![] });
    let mut resources = RenderPlugin::default().build(None);
    let mut draw = Draw::new();
    draw.render_commands.push(RenderCommand::Draw { vertices: 3, instances: 1 });
    let mut dispatch = Dispatch::new();
    let mut pipelines = render_pipelines(&["USE_FOG"], 1);
    let compute = compute_pipelines();

    // Before the first phase nothing may be done.
    assert_eq!(
        resources.provide_binding("camera", RenderResourceBinding::Texture { resource: 1 }),
        Err(StageError::NotRunning { needed: Phase::RenderResource })
    );
    assert_eq!(
        resources.provide_layout("Vertex", &vec![VertexFormat::Float3]).err(),
        Some(StageError::NotRunning { needed: Phase::RenderResource })
    );
    assert_eq!(resources.render_resource_bindings.len(), 0);
    assert!(resources.vertex_buffer_descriptors.get("Vertex").is_none());

    assert_eq!(resources.driver.enter(Phase::RenderResource), Ok(()));
    assert_eq!(
        resources.run_graph(&mut nodes).err(),
        Some(StageError::NotRunning { needed: Phase::RenderGraphSystems })
    );
    assert!(nodes.runner().ran.is_empty());
    match resources.draw_entity(&mut gpu, &mut draw, &pipelines) {
        Err(PhaseError::Stage(why)) => assert_eq!(why, StageError::NotRunning { needed: Phase::Draw }),
        _ => panic!("drawn outside the draw phase"),
    }
    match resources.dispatch_entity(&mut compute_gpu, &mut dispatch, &compute) {
        Err(PhaseError::Stage(why)) => assert_eq!(why, StageError::NotRunning { needed: Phase::Compute }),
        _ => panic!("dispatched outside the compute phase"),
    }
    assert_eq!(
        resources.clear_entity(&mut draw, &mut pipelines),
        Err(StageError::NotRunning { needed: Phase::PostRender })
    );
    assert_eq!(draw.render_commands.len(), 1);
    assert!(dispatch.dispatch_commands.is_empty());
    assert_eq!(pipelines.pipelines[0].specialization.shader_defs, vec!["USE_FOG".to_string()]);
    assert_eq!(gpu.backend().compiled, 0);
    assert_eq!(compute_gpu.backend().compiled, 0);
}

#[test]
fn refusal_in_the_draw_phase_comes_back_with_its_reason() {
    let mut gpu = LoggedBackend::new(Gpu { compiled: 0, refuse: true });
    let mut resources = RenderPlugin::default().build(None);
    let mut draw = Draw::new();
    let pipelines = render_pipelines(&["USE_FOG"], 1);
    for phase in [Phase::RenderResource, Phase::RenderGraphSystems, Phase::Compute, Phase::Draw] {
        assert_eq!(resources.driver.enter(phase), Ok(()));
    }
    match resources.draw_entity(&mut gpu, &mut draw, &pipelines) {
        Err(PhaseError::Refused(e)) => {
            assert_eq!(e.descriptor, 9);
            assert_eq!(e.reason, "rejected");
        },
        _ => panic!("a refused pipeline was drawn"),
    }
    assert!(draw.render_commands.is_empty());
}
