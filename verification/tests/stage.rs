use render_core::stage::{
    FrameDriver, Phase, StageError, COMPUTE, DRAW, POST_RENDER, RENDER_GRAPH_SYSTEMS, RENDER_RESOURCE,
};

const ORDER: [Phase; 5] = [
    Phase::RenderResource,
    Phase::RenderGraphSystems,
    Phase::Compute,
    Phase::Draw,
    Phase::PostRender,
];

#[test]
fn phases_follow_one_another_in_a_fixed_order() {
    for (place, phase) in ORDER.iter().enumerate() {
        assert_eq!(phase.index(), place);
        assert_eq!(phase.next(), ORDER[(place + 1) % 5]);
    }
}

#[test]
fn phases_have_their_names() {
    assert_eq!(RENDER_RESOURCE, "render_resource");
    assert_eq!(RENDER_GRAPH_SYSTEMS, "render_graph_systems");
    assert_eq!(COMPUTE, "compute");
    assert_eq!(DRAW, "draw");
    assert_eq!(POST_RENDER, "post_render");
    let names = [RENDER_RESOURCE, RENDER_GRAPH_SYSTEMS, COMPUTE, DRAW, POST_RENDER];
    for (phase, name) in ORDER.iter().zip(names) {
        assert_eq!(phase.name(), name);
        assert_eq!(Phase::from_name(name), Some(*phase));
    }
    assert_eq!(Phase::from_name("render"), None);
    assert_eq!(Phase::from_name(""), None);
}

#[test]
fn driver_goes_through_the_phases_frame_after_frame() {
    let mut driver = FrameDriver::new();
    for _frame in 0..3 {
        assert!(driver.at_frame_start());
        for phase in ORDER {
            assert_eq!(driver.current(), phase);
            assert_eq!(driver.enter(phase), Ok(()));
        }
    }
    assert!(driver.at_frame_start());
}

#[test]
fn phase_out_of_turn_is_refused() {
    let mut driver = FrameDriver::new();
    assert_eq!(
        driver.enter(Phase::Draw),
        Err(StageError::OutOfOrder { expected: Phase::RenderResource, got: Phase::Draw })
    );
    assert_eq!(driver.current(), Phase::RenderResource);
    assert_eq!(driver.enter(Phase::RenderResource), Ok(()));
    assert_eq!(
        driver.enter(Phase::RenderResource),
        Err(StageError::OutOfOrder { expected: Phase::RenderGraphSystems, got: Phase::RenderResource })
    );
    assert_eq!(
        driver.enter(Phase::Compute),
        Err(StageError::OutOfOrder { expected: Phase::RenderGraphSystems, got: Phase::Compute })
    );
    assert_eq!(driver.current(), Phase::RenderGraphSystems);
    assert!(!driver.at_frame_start());
}

#[test]
fn advance_enters_the_phase_whose_turn_it_is() {
    let mut driver = FrameDriver::new();
    let mut seen = Vec::new();
    for _ in 0..7 {
        seen.push(driver.advance());
    }
    assert_eq!(
        seen,
        vec![
            Phase::RenderResource,
            Phase::RenderGraphSystems,
            Phase::Compute,
            Phase::Draw,
            Phase::PostRender,
            Phase::RenderResource,
            Phase::RenderGraphSystems,
        ]
    );
    assert_eq!(driver.current(), Phase::Compute);
}

#[test]
fn driver_knows_the_phase_that_is_running() {
    let mut driver = FrameDriver::new();
    for phase in ORDER {
        assert!(!driver.is_running(phase));
        assert_eq!(driver.allow(phase), Err(StageError::NotRunning { needed: phase }));
    }
    for phase in ORDER {
        assert_eq!(driver.enter(phase), Ok(()));
        for other in ORDER {
            assert_eq!(driver.is_running(other), other == phase);
            let wanted = if other == phase { Ok(()) } else { Err(StageError::NotRunning { needed: other }) };
            assert_eq!(driver.allow(other), wanted);
        }
    }
    // The last phase runs until the next frame begins.
    assert!(driver.is_running(Phase::PostRender));
    assert!(driver.at_frame_start());
    assert_eq!(driver.advance(), Phase::RenderResource);
    assert!(driver.is_running(Phase::RenderResource));
    assert_eq!(driver.enter(Phase::Draw), Err(StageError::OutOfOrder { expected: Phase::RenderGraphSystems, got: Phase::Draw }));
    assert!(driver.is_running(Phase::RenderResource));
}
