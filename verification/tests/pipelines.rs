use synthetrix::pipelines::{builtin, by_name, initial_states, PipelineRunner, StageKind, StageState, StageWork};

#[test]
fn builtins_are_wellformed() {
    let all = builtin();
    assert!(all.len() >= 4);
    // every mesh/place chain must start from an image (nothing to mesh otherwise)
    for p in &all {
        if p.stages.iter().any(|s| s.kind == StageKind::Mesh) {
            assert_eq!(p.stages[0].kind, StageKind::Image, "{}", p.name);
        }
    }
}

#[test]
fn initial_states_follow_the_definition() {
    let def = by_name("Character → 3D").expect("known pipeline");
    let states = initial_states(&def);
    assert_eq!(states.len(), 3);
    assert_eq!(states[0].status, "pending");
    assert_eq!(states[1].kind, StageKind::Mesh);
    assert_eq!(states[2].topic, "Characters");
}

#[test]
fn by_name_unknown_is_none() {
    assert!(by_name("Nope").is_none());
    assert!(by_name("character → 3d").is_none());
    assert_eq!(by_name("Voice line").unwrap().stages[0].backend, "elevenlabs");
}

#[test]
fn from_def_starts_pending() {
    let def = by_name("Prop → 3D").unwrap();
    let s = StageState::from_def(&def.stages[2]);
    assert_eq!(s.kind, StageKind::Place);
    assert_eq!(s.topic, "Props");
    assert_eq!(s.backend, "");
    assert_eq!(s.status, "pending");
    assert_eq!(s.detail, "");
    assert_eq!(s.asset_id, 0);
}

#[test]
fn glyphs_and_labels() {
    assert_eq!(StageKind::Image.label(), "image");
    assert_eq!(StageKind::Mesh.label(), "mesh");
    assert_eq!(StageKind::Voice.label(), "voice");
    assert_eq!(StageKind::Place.label(), "place");
    assert_eq!(StageKind::Image.glyph(), "🖼");
    assert_eq!(StageKind::Place.glyph(), "📦");
}

#[test]
fn run_stops_blocked_when_a_backend_is_missing() {
    let def = by_name("Character → 3D").unwrap();
    let mut run = PipelineRunner::start(&def);
    assert!(matches!(run.begin(false, false), Some(Ok(StageWork::Image))));
    assert_eq!(run.states[0].status, "running");
    run.finish(Ok(7));
    assert_eq!(run.states[0].status, "done");
    assert_eq!(run.states[0].asset_id, 7);
    let e = match run.begin(false, false) {
        Some(Err(e)) => e,
        other => panic!("expected a refusal, got {:?}", other),
    };
    assert_eq!(e, "Tripo key not set (Settings)");
    run.finish(Err(e));
    assert_eq!(run.states[1].status, "blocked");
    assert_eq!(run.states[1].detail, "Tripo key not set (Settings)");
    assert_eq!(run.states[2].status, "pending");
    assert_eq!(run.overall, "blocked");
    assert!(run.stopped);
    assert!(run.begin(true, true).is_none());
}

#[test]
fn run_hands_the_last_asset_to_place() {
    let def = by_name("Prop → 3D").unwrap();
    let mut run = PipelineRunner::start(&def);
    assert!(matches!(run.begin(true, true), Some(Ok(StageWork::Image))));
    run.finish(Ok(7));
    assert!(matches!(run.begin(true, true), Some(Ok(StageWork::Mesh))));
    run.finish(Ok(8));
    match run.begin(true, true) {
        Some(Ok(StageWork::Place { asset, topic })) => {
            assert_eq!(asset, 8);
            assert_eq!(topic, "Props");
        }
        other => panic!("expected a placement, got {:?}", other),
    }
    run.finish(Ok(8));
    assert!(run.begin(true, true).is_none());
    assert_eq!(run.overall, "done");
    assert!(run.states.iter().all(|s| s.status == "done"));
}

#[test]
fn backend_errors_fail_the_run() {
    let def = by_name("Concept art").unwrap();
    let mut run = PipelineRunner::start(&def);
    assert!(matches!(run.begin(false, false), Some(Ok(StageWork::Image))));
    run.finish(Err("comfy: connection refused".to_string()));
    assert_eq!(run.overall, "failed");
    assert_eq!(run.states[0].status, "failed");
    assert!(run.begin(true, true).is_none());
}

#[test]
fn engine_errors_block_the_run() {
    let def = by_name("Character → 3D").unwrap();
    let mut run = PipelineRunner::start(&def);
    run.begin(true, true);
    run.finish(Ok(1));
    run.begin(true, true);
    run.finish(Ok(2));
    assert!(matches!(run.begin(true, true), Some(Ok(StageWork::Place { .. }))));
    run.finish(Err("no engine root set for this IP".to_string()));
    assert_eq!(run.overall, "blocked");
}

#[test]
fn voice_needs_its_key() {
    let def = by_name("Voice line").unwrap();
    let mut run = PipelineRunner::start(&def);
    assert!(matches!(run.begin(true, false), Some(Err(_))));
    let mut ok = PipelineRunner::start(&def);
    assert!(matches!(ok.begin(false, true), Some(Ok(StageWork::Voice))));
}
