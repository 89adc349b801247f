//! Data layout and the rendering front-end.

use std::mem::size_of;

use ssb::data::{EventRender, EventTrigger, SsbRender, ViewKind};
use ssb::objects::EventObject;
use ssb::render::{Image, RenderTrigger, SsbRenderer};

#[test]
fn test_sizes() {
    let event_object_size = size_of::<EventObject>();
    assert!(event_object_size <= 40, "EventObject is larger than 40 bytes: {}!", event_object_size);
}

fn renderer_with_times(ranges: Vec<(u32, u32)>) -> SsbRenderer {
    SsbRenderer::new(SsbRender {
        target_width: Some(4),
        target_height: Some(1),
        target_depth: 1000,
        target_view: ViewKind::Perspective,
        events: ranges
            .into_iter()
            .map(|range| EventRender { trigger: EventTrigger::Time(range), objects: Vec::new() })
            .collect(),
        fonts: Vec::new(),
        textures: Vec::new(),
    })
}

fn image() -> Image {
    Image { width: 4, height: 1, stride: 4, planes: vec![vec![0, 10, 200, 255]] }
}

#[test]
fn render_inverts_on_match() {
    let mut renderer = renderer_with_times(vec![(0, 100)]);
    let out = renderer.render(image(), RenderTrigger::Time(50)).unwrap();
    assert_eq!(out.planes, vec![vec![255, 245, 55, 0]]);
}

#[test]
fn render_leaves_image_without_match() {
    let mut renderer = renderer_with_times(vec![(0, 100)]);
    let out = renderer.render(image(), RenderTrigger::Time(100)).unwrap();
    assert_eq!(out.planes, vec![vec![0, 10, 200, 255]]);
}

#[test]
fn render_double_match_restores() {
    let mut renderer = renderer_with_times(vec![(0, 100), (25, 75)]);
    let out = renderer.render(image(), RenderTrigger::Time(50)).unwrap();
    assert_eq!(out.planes, vec![vec![0, 10, 200, 255]]);
}

#[test]
fn render_matches_by_id() {
    let mut renderer = SsbRenderer::new(SsbRender {
        target_width: None,
        target_height: None,
        target_depth: 1000,
        target_view: ViewKind::Perspective,
        events: vec![EventRender {
            trigger: EventTrigger::Id("intro".to_string()),
            objects: Vec::new(),
        }],
        fonts: Vec::new(),
        textures: Vec::new(),
    });
    let out = renderer.render(image(), RenderTrigger::Id("intro")).unwrap();
    assert_eq!(out.planes, vec![vec![255, 245, 55, 0]]);
    let out2 = renderer.render(image(), RenderTrigger::Id("outro")).unwrap();
    assert_eq!(out2.planes, vec![vec![0, 10, 200, 255]]);
}
