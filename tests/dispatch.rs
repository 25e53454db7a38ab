use std::cell::RefCell;

use amethyst_renderer::renderer::{
    BLIT_LAYER, CLEAR_TARGET, COLOR_BUFFER, DEFERRED_BLIT_LAYER, DEFERRED_CLEAR, DEFERRED_DRAW,
    DEFERRED_LIGHTING, DRAW_NO_SHADING, DRAW_SHADED, FORWARD_CLEAR, FORWARD_DRAW_NO_SHADING,
    FORWARD_WIREFRAME, GEOMETRY_BUFFER, LIGHTING, WIREFRAME,
};
use amethyst_renderer::{Dispatch, Fault, Frame, Layer, NameMap, PassDescription, Renderer, Scene, Target};

const CLEAR_CONFIG: u64 = 10;
const DRAW_CONFIG: u64 = 11;
const MARK_CONFIG: u64 = 12;
const COLOR_TARGET: u64 = 20;
const DEPTH_TARGET: u64 = 21;

fn desc(kind: u64, label: &str) -> PassDescription<u32> {
    PassDescription::new(kind, label.to_string(), 0)
}

type TestFrame = Frame<Scene<u32, u32>, u32, u32, u32>;

fn frame_with(targets: &[(&str, u64)], layers: Vec<Layer<u32>>) -> TestFrame {
    let mut frame = Frame::new();
    for (i, (name, kind)) in targets.iter().enumerate() {
        frame.add_target(name.to_string(), Target::new(*kind, i as u32));
    }
    for layer in layers {
        frame.add_layer(layer);
    }
    frame
}

#[test]
fn registered_pass_is_found() {
    let mut r = Renderer::new();
    r.add_pass(CLEAR_CONFIG, COLOR_TARGET, 7);
    assert_eq!(r.lookup(CLEAR_CONFIG, COLOR_TARGET), Some(7));
    assert_eq!(r.lookup(COLOR_TARGET, CLEAR_CONFIG), None);
}

#[test]
fn last_registration_wins() {
    let mut r = Renderer::new();
    r.add_pass(CLEAR_CONFIG, COLOR_TARGET, 1);
    r.add_pass(DRAW_CONFIG, COLOR_TARGET, 3);
    r.add_pass(CLEAR_CONFIG, COLOR_TARGET, 2);
    assert_eq!(r.lookup(CLEAR_CONFIG, COLOR_TARGET), Some(2));
    assert_eq!(r.lookup(DRAW_CONFIG, COLOR_TARGET), Some(3));
}

#[test]
fn unregistered_pair_is_absent() {
    let mut r = Renderer::new();
    assert_eq!(r.lookup(CLEAR_CONFIG, COLOR_TARGET), None);
    r.add_pass(CLEAR_CONFIG, COLOR_TARGET, 1);
    assert_eq!(r.lookup(CLEAR_CONFIG, DEPTH_TARGET), None);
    assert_eq!(r.lookup(DRAW_CONFIG, COLOR_TARGET), None);
}

#[test]
fn unmatched_pass_aborts_submission() {
    let mut r = Renderer::new();
    r.add_pass(CLEAR_CONFIG, COLOR_TARGET, 0);
    let frame = frame_with(
        &[("main", COLOR_TARGET)],
        vec![Layer::new("main".to_string(), vec![desc(CLEAR_CONFIG, "clear"), desc(DRAW_CONFIG, "draw"), desc(CLEAR_CONFIG, "clear again")])],
    );
    let err = r.submit(&frame).unwrap_err();
    assert_eq!(err.fault, Fault::UnmatchedPass { layer: 0, index: 1 });
    assert_eq!(err.target, "main");
    assert_eq!(err.config, "draw");
    // The error lists what was dispatched before the miss; nothing of the
    // failed frame is handed to a later submission.
    assert_eq!(err.done, vec![Dispatch { pass: 0, layer: 0, index: 0 }]);
    let empty: TestFrame = Frame::new();
    assert_eq!(r.submit(&empty).unwrap(), vec![]);
}

#[test]
fn unmatched_first_config_dispatches_nothing() {
    let mut r = Renderer::new();
    r.add_pass(CLEAR_CONFIG, COLOR_TARGET, 0);
    let frame = frame_with(
        &[("main", COLOR_TARGET)],
        vec![Layer::new("main".to_string(), vec![desc(DRAW_CONFIG, "draw"), desc(CLEAR_CONFIG, "clear")])],
    );
    let err = r.submit(&frame).unwrap_err();
    assert_eq!(err.fault, Fault::UnmatchedPass { layer: 0, index: 0 });
    assert_eq!(err.done, vec![]);
}

#[test]
fn layers_run_in_order() {
    let mut r = Renderer::new();
    r.add_pass(CLEAR_CONFIG, COLOR_TARGET, 100);
    r.add_pass(DRAW_CONFIG, COLOR_TARGET, 200);
    r.add_pass(MARK_CONFIG, DEPTH_TARGET, 300);
    let frame = frame_with(
        &[("color", COLOR_TARGET), ("depth", DEPTH_TARGET)],
        vec![
            Layer::new("color".to_string(), vec![desc(CLEAR_CONFIG, "p1"), desc(DRAW_CONFIG, "p2")]),
            Layer::new("depth".to_string(), vec![desc(MARK_CONFIG, "p3")]),
        ],
    );
    let batch = r.submit(&frame).unwrap();
    let markers: Vec<u64> = batch.iter().map(|d| d.pass).collect();
    assert_eq!(markers, vec![100, 200, 300]);
    assert_eq!(
        batch,
        vec![
            Dispatch { pass: 100, layer: 0, index: 0 },
            Dispatch { pass: 200, layer: 0, index: 1 },
            Dispatch { pass: 300, layer: 1, index: 0 },
        ]
    );
    // Submitting again hands out the same dispatches, and no more.
    assert_eq!(r.submit(&frame).unwrap(), batch);
}

#[test]
fn missing_target_aborts_before_its_layer() {
    let mut r = Renderer::new();
    r.add_pass(CLEAR_CONFIG, COLOR_TARGET, 5);
    let frame = frame_with(
        &[("main", COLOR_TARGET)],
        vec![
            Layer::new("main".to_string(), vec![desc(CLEAR_CONFIG, "clear")]),
            Layer::new("shadow".to_string(), vec![desc(CLEAR_CONFIG, "clear")]),
            Layer::new("main".to_string(), vec![desc(CLEAR_CONFIG, "clear")]),
        ],
    );
    let err = r.submit(&frame).unwrap_err();
    assert_eq!(err.fault, Fault::MissingTarget { layer: 1 });
    assert_eq!(err.target, "shadow");
    assert_eq!(err.config, "");
    assert_eq!(err.done, vec![Dispatch { pass: 5, layer: 0, index: 0 }]);
    let empty: TestFrame = Frame::new();
    assert_eq!(r.submit(&empty).unwrap(), vec![]);
}

#[test]
fn missing_target_in_first_layer_runs_nothing() {
    let mut r = Renderer::new();
    r.add_pass(CLEAR_CONFIG, COLOR_TARGET, 5);
    let frame = frame_with(&[], vec![Layer::new("main".to_string(), vec![desc(CLEAR_CONFIG, "clear")])]);
    let err = r.submit(&frame).unwrap_err();
    assert_eq!(err.fault, Fault::MissingTarget { layer: 0 });
    assert_eq!(err.done, vec![]);
}

#[test]
fn clear_then_draw_end_to_end() {
    const CLEAR: u64 = 0;
    const DRAW_SOLID: u64 = 1;
    let mut r = Renderer::new();
    r.add_pass(CLEAR_CONFIG, COLOR_TARGET, CLEAR);
    r.add_pass(DRAW_CONFIG, COLOR_TARGET, DRAW_SOLID);
    // Each configuration carries the value its pass writes.
    let mut frame: Frame<Scene<u32, u32>, u32, RefCell<Option<u32>>, u32> = Frame::new();
    frame.add_target("main".to_string(), Target::new(COLOR_TARGET, RefCell::new(None)));
    frame.add_layer(Layer::new(
        "main".to_string(),
        vec![
            PassDescription::new(CLEAR_CONFIG, "Clear".to_string(), 0),
            PassDescription::new(DRAW_CONFIG, "Draw".to_string(), 1),
        ],
    ));
    let batch = r.submit(&frame).unwrap();
    assert_eq!(
        batch,
        vec![Dispatch { pass: CLEAR, layer: 0, index: 0 }, Dispatch { pass: DRAW_SOLID, layer: 0, index: 1 }]
    );
    // Play the batch: each pass writes its configuration's value into the
    // target's store.
    for d in &batch {
        let layer = &frame.layers[d.layer];
        let config = &layer.passes[d.index];
        let target = frame.target(&layer.target).unwrap();
        assert!(d.pass == CLEAR || d.pass == DRAW_SOLID);
        *target.resource.borrow_mut() = Some(config.params);
    }
    assert_eq!(*frame.target(&"main".to_string()).unwrap().resource.borrow(), Some(1));
}

#[test]
fn empty_frame_submits_nothing() {
    let mut r = Renderer::new();
    r.load_all();
    let frame: TestFrame = Frame::new();
    assert_eq!(r.submit(&frame).unwrap(), vec![]);
}

#[test]
fn empty_layer_needs_only_its_target() {
    let mut r = Renderer::new();
    let frame = frame_with(&[("main", COLOR_TARGET)], vec![Layer::new("main".to_string(), vec![])]);
    assert_eq!(r.submit(&frame).unwrap(), vec![]);
}

#[test]
fn load_all_registers_shipped_passes() {
    let mut r = Renderer::new();
    r.load_all();
    assert_eq!(r.lookup(CLEAR_TARGET, COLOR_BUFFER), Some(FORWARD_CLEAR));
    assert_eq!(r.lookup(DRAW_NO_SHADING, COLOR_BUFFER), Some(FORWARD_DRAW_NO_SHADING));
    assert_eq!(r.lookup(WIREFRAME, COLOR_BUFFER), Some(FORWARD_WIREFRAME));
    assert_eq!(r.lookup(CLEAR_TARGET, GEOMETRY_BUFFER), Some(DEFERRED_CLEAR));
    assert_eq!(r.lookup(DRAW_SHADED, GEOMETRY_BUFFER), Some(DEFERRED_DRAW));
    assert_eq!(r.lookup(BLIT_LAYER, COLOR_BUFFER), Some(DEFERRED_BLIT_LAYER));
    assert_eq!(r.lookup(LIGHTING, COLOR_BUFFER), Some(DEFERRED_LIGHTING));
    assert_eq!(r.lookup(DRAW_SHADED, COLOR_BUFFER), None);
    assert_eq!(r.lookup(LIGHTING, GEOMETRY_BUFFER), None);
}

#[test]
fn target_kind_selects_the_pass() {
    let mut r = Renderer::new();
    r.load_all();
    let frame = frame_with(
        &[("screen", COLOR_BUFFER), ("gbuffer", GEOMETRY_BUFFER)],
        vec![
            Layer::new("gbuffer".to_string(), vec![desc(CLEAR_TARGET, "clear"), desc(DRAW_SHADED, "draw")]),
            Layer::new("screen".to_string(), vec![desc(CLEAR_TARGET, "clear"), desc(LIGHTING, "light")]),
        ],
    );
    let passes: Vec<u64> = r.submit(&frame).unwrap().iter().map(|d| d.pass).collect();
    assert_eq!(passes, vec![DEFERRED_CLEAR, DEFERRED_DRAW, FORWARD_CLEAR, DEFERRED_LIGHTING]);
}

#[test]
fn replaced_target_changes_dispatch() {
    let mut r = Renderer::new();
    r.add_pass(CLEAR_CONFIG, COLOR_TARGET, 1);
    r.add_pass(CLEAR_CONFIG, DEPTH_TARGET, 2);
    let frame = frame_with(
        &[("main", COLOR_TARGET), ("main", DEPTH_TARGET)],
        vec![Layer::new("main".to_string(), vec![desc(CLEAR_CONFIG, "clear")])],
    );
    assert_eq!(frame.targets.len(), 1);
    assert_eq!(frame.target(&"main".to_string()), Some(&Target::new(DEPTH_TARGET, 1)));
    assert_eq!(r.submit(&frame).unwrap(), vec![Dispatch { pass: 2, layer: 0, index: 0 }]);
}

#[test]
fn frame_lookups_by_name() {
    let mut frame: TestFrame = Frame::new();
    let mut scene = Scene::new();
    scene.fragments.push(4);
    scene.lights.push(9);
    frame.add_scene("world".to_string(), scene);
    frame.add_camera("eye".to_string(), 3);
    frame.add_camera("eye".to_string(), 8);
    assert_eq!(frame.scene(&"world".to_string()).map(|s| s.fragments.clone()), Some(vec![4]));
    assert!(frame.scene(&"void".to_string()).is_none());
    assert_eq!(frame.camera(&"eye".to_string()), Some(&8));
    assert_eq!(frame.target(&"main".to_string()), None);
}

#[test]
fn name_map_replaces_and_counts() {
    let mut m: NameMap<u32> = NameMap::new();
    assert_eq!(m.len(), 0);
    m.insert("a".to_string(), 1);
    m.insert("b".to_string(), 2);
    m.insert("a".to_string(), 3);
    assert_eq!(m.len(), 2);
    assert_eq!(m.get(&"a".to_string()), Some(&3));
    assert_eq!(m.get(&"b".to_string()), Some(&2));
    assert_eq!(m.get(&"c".to_string()), None);
}

#[test]
fn layer_and_scene_constructors() {
    let layer = Layer::new("main".to_string(), vec![desc(CLEAR_CONFIG, "clear")]);
    assert_eq!(layer.target, "main");
    assert_eq!(layer.passes.len(), 1);
    assert_eq!(layer.passes[0].kind, CLEAR_CONFIG);
    assert_eq!(layer.passes[0].label, "clear");
    assert_eq!(layer.passes[0].params, 0);
    let shaded = PassDescription::new(DRAW_SHADED, "shaded".to_string(), (2u8, "subpass"));
    assert_eq!(shaded.kind, DRAW_SHADED);
    assert_eq!(shaded.params, (2, "subpass"));
    let scene: Scene<u32, u32> = Scene::new();
    assert!(scene.fragments.is_empty() && scene.lights.is_empty());
}
