use render_core::bindings::{RenderResourceBinding, RenderResourceBindings};
use render_core::backend::{Backend, LoggedBackend};
use render_core::cache::CompiledPipeline;
use render_core::compiler::{CompiledComputePipelineHandle, ComputePipelineCompiler};
use render_core::dispatch::{
    dispatch_compute_pipelines, ComputePipeline, ComputePipelines, Dispatch, DispatchCommand,
};
use render_core::specialization::{ComputePipelineSpecialization, Specialization};

struct Recording {
    refused: Vec<u64>,
    seen: Vec<(u64, Vec<String>)>,
}

impl Backend<ComputePipelineSpecialization> for Recording {
    fn compile(&mut self, descriptor: u64, specialization: &ComputePipelineSpecialization, _preamble: &str) -> Result<CompiledPipeline, String> {
        self.seen.push((descriptor, specialization.dynamic_bindings.clone()));
        if self.refused.contains(&descriptor) {
            Err(format!("descriptor {} rejected", descriptor))
        } else {
            Ok(CompiledPipeline { id: descriptor * 10 })
        }
    }
}

fn pipeline(descriptor: u64, defs: &[&str]) -> ComputePipeline {
    ComputePipeline {
        descriptor,
        specialization: ComputePipelineSpecialization {
            shader_defs: defs.iter().map(|s| s.to_string()).collect(),
            dynamic_bindings: Vec::new(),
        },
    }
}

fn set(index: usize) -> DispatchCommand {
    DispatchCommand::SetPipeline { pipeline: CompiledComputePipelineHandle { index } }
}

#[test]
fn dispatch_list_gets_one_pipeline_command_for_each_pipeline() {
    let mut backend = LoggedBackend::new(Recording { refused: vec![], seen: vec![] });
    let mut compiler = ComputePipelineCompiler::new();
    let mut dispatch = Dispatch::new();
    dispatch.dispatch_commands.push(DispatchCommand::Dispatch { x: 8, y: 8, z: 1 });
    let mut bindings = RenderResourceBindings::new();
    bindings.set("particles", RenderResourceBinding::Buffer { resource: 1, dynamic: true });
    let pipelines = ComputePipelines { pipelines: vec![pipeline(4, &["A"]), pipeline(4, &["B"])], bindings };
    assert!(dispatch_compute_pipelines(&mut compiler, &mut backend, &mut dispatch, &pipelines).is_ok());
    assert_eq!(
        dispatch.dispatch_commands,
        vec![DispatchCommand::Dispatch { x: 8, y: 8, z: 1 }, set(0), set(1)]
    );
    assert_eq!(
        backend.backend().seen,
        vec![(4, vec!["particles".to_string()]), (4, vec!["particles".to_string()])]
    );
    dispatch.clear_dispatch_commands();
    assert!(dispatch_compute_pipelines(&mut compiler, &mut backend, &mut dispatch, &pipelines).is_ok());
    assert_eq!(dispatch.dispatch_commands, vec![set(0), set(1)]);
    assert_eq!(backend.backend().seen.len(), 2);
    assert_eq!(compiler.get(CompiledComputePipelineHandle { index: 1 }), Some(CompiledPipeline { id: 40 }));
}

#[test]
fn refused_compute_pipeline_leaves_the_dispatch_list_alone() {
    let mut backend = LoggedBackend::new(Recording { refused: vec![5], seen: vec![] });
    let mut compiler = ComputePipelineCompiler::new();
    let mut dispatch = Dispatch::new();
    let pipelines = ComputePipelines {
        pipelines: vec![pipeline(4, &[]), pipeline(5, &["B"])],
        bindings: RenderResourceBindings::new(),
    };
    let error = dispatch_compute_pipelines(&mut compiler, &mut backend, &mut dispatch, &pipelines)
        .err()
        .unwrap();
    assert_eq!(error.descriptor, 5);
    assert!(error.specialization.same_as(&pipelines.pipelines[1].specialization));
    assert!(dispatch.dispatch_commands.is_empty());
    assert_eq!(compiler.lookup(4, &pipelines.pipelines[0].specialization).map(|h| h.index), Some(0));
    assert_eq!(compiler.lookup(5, &pipelines.pipelines[1].specialization), None);
    compiler.invalidate(4);
    assert_eq!(compiler.lookup(4, &pipelines.pipelines[0].specialization), None);
}
