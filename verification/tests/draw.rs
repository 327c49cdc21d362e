use render_core::bindings::{RenderResourceBinding, RenderResourceBindings};
use render_core::backend::{Backend, LoggedBackend};
use render_core::cache::CompiledPipeline;
use render_core::compiler::{CompiledPipelineHandle, PipelineCompiler};
use render_core::draw::{
    clear_draw, clear_shader_defs, draw_render_pipelines, Draw, RenderCommand, RenderPipeline, RenderPipelines,
};
use render_core::specialization::{PipelineSpecialization, PrimitiveTopology, VertexLayout};

/// Refuses every descriptor in `refused`, and writes the dynamic bindings of
/// each request down.
struct Recording {
    refused: Vec<u64>,
    seen: Vec<(u64, Vec<String>)>,
}

impl Backend<PipelineSpecialization> for Recording {
    fn compile(&mut self, descriptor: u64, specialization: &PipelineSpecialization, _preamble: &str) -> Result<CompiledPipeline, String> {
        self.seen.push((descriptor, specialization.dynamic_bindings.clone()));
        if self.refused.contains(&descriptor) {
            Err(format!("descriptor {} rejected", descriptor))
        } else {
            Ok(CompiledPipeline { id: descriptor * 10 })
        }
    }
}

fn pipeline(descriptor: u64, defs: &[&str]) -> RenderPipeline {
    RenderPipeline {
        descriptor,
        specialization: PipelineSpecialization {
            shader_defs: defs.iter().map(|s| s.to_string()).collect(),
            dynamic_bindings: Vec::new(),
            primitive_topology: PrimitiveTopology::TriangleList,
            vertex_layout: VertexLayout { stride: 0, attributes: Vec::new() },
            sample_count: 1,
        },
    }
}

fn set(index: usize) -> RenderCommand {
    RenderCommand::SetPipeline { pipeline: CompiledPipelineHandle { index } }
}

#[test]
fn draw_list_gets_one_pipeline_command_for_each_pipeline() {
    let mut backend = LoggedBackend::new(Recording { refused: vec![], seen: vec![] });
    let mut compiler = PipelineCompiler::new();
    let mut draw = Draw::new();
    draw.render_commands.push(RenderCommand::Draw { vertices: 3, instances: 1 });
    let mut bindings = RenderResourceBindings::new();
    bindings.set("instances", RenderResourceBinding::Buffer { resource: 1, dynamic: true });
    bindings.set("camera", RenderResourceBinding::Buffer { resource: 2, dynamic: false });
    let pipelines = RenderPipelines { pipelines: vec![pipeline(1, &["A"]), pipeline(2, &[])], bindings };
    assert!(draw_render_pipelines(&mut compiler, &mut backend, &mut draw, &pipelines).is_ok());
    assert_eq!(
        draw.render_commands,
        vec![RenderCommand::Draw { vertices: 3, instances: 1 }, set(0), set(1)]
    );
    assert_eq!(
        backend.backend().seen,
        vec![(1, vec!["instances".to_string()]), (2, vec!["instances".to_string()])]
    );
    // The next frame finds both compiled.
    clear_draw(&mut draw);
    assert!(draw_render_pipelines(&mut compiler, &mut backend, &mut draw, &pipelines).is_ok());
    assert_eq!(draw.render_commands, vec![set(0), set(1)]);
    assert_eq!(backend.backend().seen.len(), 2);
}

#[test]
fn entity_out_of_sight_is_passed_over() {
    let mut backend = LoggedBackend::new(Recording { refused: vec![], seen: vec![] });
    let mut compiler = PipelineCompiler::new();
    let mut draw = Draw::new();
    draw.is_visible = false;
    let pipelines = RenderPipelines { pipelines: vec![pipeline(1, &[])], bindings: RenderResourceBindings::new() };
    assert!(draw_render_pipelines(&mut compiler, &mut backend, &mut draw, &pipelines).is_ok());
    assert!(draw.render_commands.is_empty());
    assert!(backend.backend().seen.is_empty());
}

#[test]
fn refused_pipeline_leaves_the_entity_undrawn_and_others_alone() {
    let mut backend = LoggedBackend::new(Recording { refused: vec![2], seen: vec![] });
    let mut compiler = PipelineCompiler::new();
    let mut broken = Draw::new();
    let mut sound = Draw::new();
    let broken_pipelines = RenderPipelines {
        pipelines: vec![pipeline(1, &[]), pipeline(2, &["FOG"])],
        bindings: RenderResourceBindings::new(),
    };
    let sound_pipelines = RenderPipelines {
        pipelines: vec![pipeline(1, &[]), pipeline(3, &[])],
        bindings: RenderResourceBindings::new(),
    };
    let error = draw_render_pipelines(&mut compiler, &mut backend, &mut broken, &broken_pipelines)
        .err()
        .unwrap();
    assert_eq!(error.descriptor, 2);
    assert_eq!(error.specialization.shader_defs, vec!["FOG".to_string()]);
    assert_eq!(error.reason, "descriptor 2 rejected");
    assert!(broken.render_commands.is_empty());
    assert!(draw_render_pipelines(&mut compiler, &mut backend, &mut sound, &sound_pipelines).is_ok());
    assert_eq!(sound.render_commands, vec![set(0), set(1)]);
}

#[test]
fn dynamic_binding_makes_another_pipeline() {
    let mut backend = LoggedBackend::new(Recording { refused: vec![], seen: vec![] });
    let mut compiler = PipelineCompiler::new();
    let mut plain = Draw::new();
    let mut instanced = Draw::new();
    let plain_pipelines = RenderPipelines { pipelines: vec![pipeline(1, &[])], bindings: RenderResourceBindings::new() };
    let mut bindings = RenderResourceBindings::new();
    bindings.set("instances", RenderResourceBinding::Buffer { resource: 1, dynamic: true });
    let instanced_pipelines = RenderPipelines { pipelines: vec![pipeline(1, &[])], bindings };
    assert!(draw_render_pipelines(&mut compiler, &mut backend, &mut plain, &plain_pipelines).is_ok());
    assert!(draw_render_pipelines(&mut compiler, &mut backend, &mut instanced, &instanced_pipelines).is_ok());
    assert_eq!(plain.render_commands, vec![set(0)]);
    assert_eq!(instanced.render_commands, vec![set(1)]);
}

#[test]
fn cleanup_clears_what_lasts_one_frame() {
    let mut draw = Draw::new();
    draw.is_visible = false;
    draw.render_commands.push(set(0));
    clear_draw(&mut draw);
    assert!(draw.render_commands.is_empty());
    assert!(!draw.is_visible);
    draw.render_commands.push(set(1));
    draw.clear_render_commands();
    assert!(draw.render_commands.is_empty());

    let mut bindings = RenderResourceBindings::new();
    bindings.set("camera", RenderResourceBinding::Texture { resource: 1 });
    let mut first = pipeline(1, &["A", "B"]);
    first.specialization.sample_count = 4;
    first.specialization.dynamic_bindings = vec!["instances".to_string()];
    let mut pipelines = RenderPipelines { pipelines: vec![first, pipeline(2, &["C"])], bindings };
    clear_shader_defs(&mut pipelines);
    assert!(pipelines.pipelines[0].specialization.shader_defs.is_empty());
    assert!(pipelines.pipelines[1].specialization.shader_defs.is_empty());
    assert_eq!(pipelines.pipelines[0].descriptor, 1);
    assert_eq!(pipelines.pipelines[1].descriptor, 2);
    assert_eq!(pipelines.pipelines[0].specialization.sample_count, 4);
    assert_eq!(pipelines.pipelines[0].specialization.dynamic_bindings, vec!["instances".to_string()]);
    assert_eq!(pipelines.bindings.get("camera"), Some(RenderResourceBinding::Texture { resource: 1 }));
}
