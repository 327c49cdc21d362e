use render_core::backend::{Backend, LoggedBackend};
use render_core::cache::CompiledPipeline;
use render_core::compiler::{CompiledPipelineHandle, ComputePipelineCompiler, PipelineCompiler};
use render_core::shader::{shader_preamble, specialized_source};
use render_core::specialization::{
    same_strings, ComputePipelineSpecialization, PipelineSpecialization, PrimitiveTopology,
    Specialization, VertexAttribute, VertexFormat, VertexLayout,
};

struct CountingBackend {
    calls: u64,
    refuse: bool,
    preambles: Vec<String>,
}

impl Backend<PipelineSpecialization> for CountingBackend {
    fn compile(&mut self, _descriptor: u64, _specialization: &PipelineSpecialization, preamble: &str) -> Result<CompiledPipeline, String> {
        self.calls += 1;
        self.preambles.push(preamble.to_string());
        if self.refuse {
            Err(String::from("shader rejected"))
        } else {
            Ok(CompiledPipeline { id: 100 + self.calls })
        }
    }
}

impl Backend<ComputePipelineSpecialization> for CountingBackend {
    fn compile(&mut self, _descriptor: u64, _specialization: &ComputePipelineSpecialization, _preamble: &str) -> Result<CompiledPipeline, String> {
        self.calls += 1;
        Ok(CompiledPipeline { id: 500 + self.calls })
    }
}

fn strings(items: &[&str]) -> Vec<String> {
    items.iter().map(|s| s.to_string()).collect()
}

fn specialization(defs: &[&str]) -> PipelineSpecialization {
    PipelineSpecialization {
        shader_defs: strings(defs),
        dynamic_bindings: Vec::new(),
        primitive_topology: PrimitiveTopology::TriangleList,
        vertex_layout: VertexLayout { stride: 0, attributes: Vec::new() },
        sample_count: 1,
    }
}

#[test]
fn same_request_twice_compiles_once() {
    let mut backend = LoggedBackend::new(CountingBackend { calls: 0, refuse: false, preambles: vec![] });
    let mut compiler = PipelineCompiler::new();
    let fog = specialization(&["USE_FOG"]);
    let first = compiler.get_or_compile(&mut backend, 7, &fog).ok().unwrap();
    let second = compiler.get_or_compile(&mut backend, 7, &fog).ok().unwrap();
    assert_eq!(backend.backend().calls, 1);
    assert_eq!(first, second);
    assert_eq!(first, CompiledPipelineHandle { index: 0 });
    assert_eq!(compiler.get(first), Some(CompiledPipeline { id: 101 }));
}

#[test]
fn order_of_defines_does_not_matter() {
    let mut backend = LoggedBackend::new(CountingBackend { calls: 0, refuse: false, preambles: vec![] });
    let mut compiler = PipelineCompiler::new();
    let a = specialization(&["USE_FOG", "SHADOWS"]);
    let b = specialization(&["SHADOWS", "USE_FOG", "SHADOWS"]);
    assert!(a.same_as(&b));
    let first = compiler.get_or_compile(&mut backend, 1, &a).ok().unwrap();
    let second = compiler.get_or_compile(&mut backend, 1, &b).ok().unwrap();
    assert_eq!(first, second);
    assert_eq!(backend.backend().calls, 1);
}

#[test]
fn one_more_define_is_another_pipeline() {
    let mut backend = LoggedBackend::new(CountingBackend { calls: 0, refuse: false, preambles: vec![] });
    let mut compiler = PipelineCompiler::new();
    let a = specialization(&["USE_FOG"]);
    let b = specialization(&["USE_FOG", "SHADOWS"]);
    assert!(!a.same_as(&b));
    let first = compiler.get_or_compile(&mut backend, 1, &a).ok().unwrap();
    let second = compiler.get_or_compile(&mut backend, 1, &b).ok().unwrap();
    assert_ne!(first, second);
    assert_ne!(compiler.get(first), compiler.get(second));
    assert_eq!(backend.backend().calls, 2);
}

#[test]
fn each_field_tells_specializations_apart() {
    let base = specialization(&["USE_FOG"]);
    let mut other = specialization(&["USE_FOG"]);
    other.primitive_topology = PrimitiveTopology::LineList;
    assert!(!base.same_as(&other));
    let mut other = specialization(&["USE_FOG"]);
    other.sample_count = 4;
    assert!(!base.same_as(&other));
    let mut other = specialization(&["USE_FOG"]);
    other.dynamic_bindings = strings(&["instances"]);
    assert!(!base.same_as(&other));
    let mut other = specialization(&["USE_FOG"]);
    other.vertex_layout = VertexLayout {
        stride: 12,
        attributes: vec![VertexAttribute { format: VertexFormat::Float3, offset: 0, shader_location: 0 }],
    };
    assert!(!base.same_as(&other));
    assert!(base.same_as(&base.duplicate()));
    assert!(other.same_as(&other.duplicate()));
}

#[test]
fn another_descriptor_is_another_pipeline() {
    let mut backend = LoggedBackend::new(CountingBackend { calls: 0, refuse: false, preambles: vec![] });
    let mut compiler = PipelineCompiler::new();
    let fog = specialization(&["USE_FOG"]);
    let first = compiler.get_or_compile(&mut backend, 1, &fog).ok().unwrap();
    let second = compiler.get_or_compile(&mut backend, 2, &fog).ok().unwrap();
    assert_ne!(first, second);
    assert_eq!(backend.backend().calls, 2);
}

#[test]
fn refusal_names_the_request_and_stores_nothing() {
    let mut backend = LoggedBackend::new(CountingBackend { calls: 0, refuse: true, preambles: vec![] });
    let mut compiler = PipelineCompiler::new();
    let fog = specialization(&["USE_FOG"]);
    let error = compiler.get_or_compile(&mut backend, 9, &fog).err().unwrap();
    assert_eq!(error.descriptor, 9);
    assert!(error.specialization.same_as(&fog));
    assert_eq!(error.reason, "shader rejected");
    assert_eq!(compiler.lookup(9, &fog), None);
    let mut inner = backend.into_inner();
    inner.refuse = false;
    let mut backend = LoggedBackend::new(inner);
    let handle = compiler.get_or_compile(&mut backend, 9, &fog).ok().unwrap();
    assert_eq!(backend.backend().calls, 2);
    assert_eq!(compiler.lookup(9, &fog), Some(handle));
}

#[test]
fn invalidated_descriptor_compiles_anew() {
    let mut backend = LoggedBackend::new(CountingBackend { calls: 0, refuse: false, preambles: vec![] });
    let mut compiler = PipelineCompiler::new();
    let fog = specialization(&["USE_FOG"]);
    let plain = specialization(&[]);
    let first = compiler.get_or_compile(&mut backend, 1, &fog).ok().unwrap();
    let kept = compiler.get_or_compile(&mut backend, 2, &plain).ok().unwrap();
    compiler.invalidate(1);
    assert_eq!(compiler.get(first), None);
    assert_eq!(compiler.lookup(1, &fog), None);
    assert_eq!(compiler.get(kept), Some(CompiledPipeline { id: 102 }));
    let again = compiler.get_or_compile(&mut backend, 1, &fog).ok().unwrap();
    assert_ne!(again, first);
    assert_eq!(compiler.get(again), Some(CompiledPipeline { id: 103 }));
    assert_eq!(backend.backend().calls, 3);
}

#[test]
fn compute_pipelines_have_a_store_of_their_own() {
    let mut backend = LoggedBackend::new(CountingBackend { calls: 0, refuse: false, preambles: vec![] });
    let mut render = PipelineCompiler::new();
    let mut compute = ComputePipelineCompiler::new();
    let fog = specialization(&["USE_FOG"]);
    let blur = ComputePipelineSpecialization { shader_defs: strings(&["USE_FOG"]), dynamic_bindings: Vec::new() };
    let r = render.get_or_compile(&mut backend, 1, &fog).ok().unwrap();
    let mut backend = LoggedBackend::new(backend.into_inner());
    let c = compute.get_or_compile(&mut backend, 1, &blur).ok().unwrap();
    let c2 = compute.get_or_compile(&mut backend, 1, &blur).ok().unwrap();
    assert_eq!(c, c2);
    assert_eq!(backend.backend().calls, 2);
    assert_eq!(render.get(r), Some(CompiledPipeline { id: 101 }));
    assert_eq!(compute.get(c), Some(CompiledPipeline { id: 502 }));
}

#[test]
fn same_strings_ignores_order_and_repetition() {
    assert!(same_strings(&strings(&["a", "b"]), &strings(&["b", "a", "a"])));
    assert!(!same_strings(&strings(&["a", "b"]), &strings(&["a"])));
    assert!(!same_strings(&strings(&["a"]), &strings(&["a", "c"])));
    assert!(same_strings(&strings(&[]), &strings(&[])));
}

#[test]
fn backend_gets_the_define_lines() {
    let mut backend = LoggedBackend::new(CountingBackend { calls: 0, refuse: false, preambles: vec![] });
    let mut compiler = PipelineCompiler::new();
    compiler.get_or_compile(&mut backend, 1, &specialization(&["USE_FOG", "SHADOWS", "USE_FOG"])).ok().unwrap();
    compiler.get_or_compile(&mut backend, 2, &specialization(&[])).ok().unwrap();
    assert_eq!(backend.backend().preambles, vec!["#define USE_FOG\n#define SHADOWS\n".to_string(), String::new()]);
}

#[test]
fn preamble_has_one_line_for_each_define() {
    assert_eq!(shader_preamble(&strings(&[])), "");
    assert_eq!(shader_preamble(&strings(&["A"])), "#define A\n");
    assert_eq!(shader_preamble(&strings(&["B", "A", "B", "C", "A"])), "#define B\n#define A\n#define C\n");
    assert_eq!(
        specialized_source("void main() {}\n", &strings(&["USE_FOG"])),
        "#define USE_FOG\nvoid main() {}\n"
    );
    assert_eq!(specialized_source("void main() {}", &strings(&[])), "void main() {}");
}

#[test]
fn specialization_lists_its_defines() {
    let fog = specialization(&["USE_FOG", "SHADOWS"]);
    assert_eq!(fog.shader_defines(), &strings(&["USE_FOG", "SHADOWS"]));
    let blur = ComputePipelineSpecialization { shader_defs: strings(&["WIDE"]), dynamic_bindings: Vec::new() };
    assert_eq!(blur.shader_defines(), &strings(&["WIDE"]));
}
