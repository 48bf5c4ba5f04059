use main_pass::draw::{Draw, FrameError, PassEvent, PipelineLayout, RenderCommand, U32Range};
use main_pass::draw_state::DrawState;
use main_pass::main_pass_node::{find_active_camera, ActiveCamera, CameraPass, MainPassNode, SceneView};
use main_pass::replay::{execute_command, replay_commands};
use main_pass::resource::{
    get_input_texture, ColorAttachment, DepthStencilAttachment, PassDescriptor, RenderResource,
    RenderResourceType, TextureAttachment,
};

fn layout(bind_groups: Vec<u64>, vertex_buffers: usize) -> PipelineLayout {
    PipelineLayout { bind_group_layout_ids: bind_groups, vertex_buffer_count: vertex_buffers }
}

fn draw_indexed() -> RenderCommand {
    RenderCommand::DrawIndexed {
        base_vertex: 3,
        indices: U32Range { start: 0, end: 6 },
        instances: U32Range { start: 0, end: 1 },
    }
}

fn set_vb(slot: u32, buffer: u64) -> RenderCommand {
    RenderCommand::SetVertexBuffer { slot, buffer, offset: 0 }
}

fn set_bg(index: u32, bind_group: u64) -> RenderCommand {
    RenderCommand::SetBindGroup { index, bind_group, dynamic_uniform_indices: None }
}

fn run(cmds: Vec<RenderCommand>, pipelines: &Vec<Option<PipelineLayout>>) -> (Result<(), FrameError>, Vec<PassEvent>) {
    let mut state = DrawState::new();
    let mut events = Vec::new();
    let r = replay_commands(&mut state, &cmds, pipelines, &mut events);
    (r, events)
}

fn count_draws(events: &[PassEvent]) -> usize {
    events.iter().filter(|e| matches!(e, PassEvent::DrawIndexed { .. })).count()
}

fn one_camera_scene(draws: Vec<Option<Draw>>, visible: Vec<usize>, pipelines: Vec<Option<PipelineLayout>>) -> SceneView {
    let mut visible_entities: Vec<Option<Vec<usize>>> = vec![None; draws.len()];
    visible_entities.push(Some(visible));
    let camera = draws.len();
    SceneView {
        active_cameras: vec![ActiveCamera { name: "main".to_string(), entity: camera }],
        visible_entities,
        draws,
        pipelines,
    }
}

fn plain_node() -> MainPassNode {
    MainPassNode::new(PassDescriptor { color_attachments: vec![], depth_stencil_attachment: None })
}

#[test]
fn draw_dropped_until_every_vertex_buffer_is_set() {
    let pipelines = vec![Some(layout(vec![70], 2))];
    let mut cmds = vec![
        RenderCommand::SetPipeline { pipeline: 0 },
        set_vb(0, 11),
        set_bg(0, 21),
        RenderCommand::SetIndexBuffer { buffer: 31, offset: 0 },
        draw_indexed(),
    ];
    let (r, events) = run(cmds.clone(), &pipelines);
    assert_eq!(r, Ok(()));
    assert_eq!(count_draws(&events), 0);
    assert!(matches!(events.last(), Some(PassEvent::DrawRejected { pipeline: Some(0) })));

    cmds.insert(4, set_vb(1, 12));
    let (r, events) = run(cmds, &pipelines);
    assert_eq!(r, Ok(()));
    assert_eq!(count_draws(&events), 1);
    match events.last() {
        Some(PassEvent::DrawIndexed { indices, base_vertex, instances }) => {
            assert_eq!(*indices, U32Range { start: 0, end: 6 });
            assert_eq!(*base_vertex, 3);
            assert_eq!(*instances, U32Range { start: 0, end: 1 });
        }
        other => panic!("unexpected last event {:?}", other),
    }
}

#[test]
fn bind_group_without_pipeline_aborts_frame() {
    let pipelines = vec![Some(layout(vec![70], 0))];
    let (r, _) = run(vec![set_bg(0, 21)], &pipelines);
    assert_eq!(r, Err(FrameError::BindGroupWithoutPipeline));

    let draws = vec![Some(Draw { is_visible: true, render_commands: vec![set_bg(0, 21), draw_indexed()] })];
    let scene = one_camera_scene(draws, vec![0], pipelines);
    let mut node = plain_node();
    node.add_camera("main");
    assert_eq!(node.update(&scene, &vec![]).err(), Some(FrameError::BindGroupWithoutPipeline));
}

#[test]
fn draw_needs_all_bind_groups() {
    let pipelines = vec![Some(layout(vec![70, 71], 0))];
    let base = vec![
        RenderCommand::SetPipeline { pipeline: 0 },
        RenderCommand::SetIndexBuffer { buffer: 31, offset: 0 },
        set_bg(1, 22),
        draw_indexed(),
    ];
    let (_, events) = run(base.clone(), &pipelines);
    assert_eq!(count_draws(&events), 0);
    let mut full = base;
    full.insert(3, set_bg(0, 21));
    let (_, events) = run(full, &pipelines);
    assert_eq!(count_draws(&events), 1);
}

#[test]
fn new_pipeline_resets_readiness() {
    let pipelines = vec![Some(layout(vec![], 0)), Some(layout(vec![], 0))];
    let (_, events) = run(
        vec![
            RenderCommand::SetPipeline { pipeline: 0 },
            RenderCommand::SetIndexBuffer { buffer: 31, offset: 0 },
            draw_indexed(),
            RenderCommand::SetPipeline { pipeline: 1 },
            draw_indexed(),
            RenderCommand::SetIndexBuffer { buffer: 32, offset: 0 },
            draw_indexed(),
        ],
        &pipelines,
    );
    assert!(matches!(events[2], PassEvent::DrawIndexed { .. }));
    assert!(matches!(events[4], PassEvent::DrawRejected { pipeline: Some(1) }));
    assert!(matches!(events[6], PassEvent::DrawIndexed { .. }));
}

#[test]
fn draw_state_methods() {
    let mut state = DrawState::default();
    assert!(!state.can_draw_indexed());
    state.set_pipeline(4, &layout(vec![1], 1));
    assert_eq!(state.pipeline, Some(4));
    assert_eq!(state.bind_groups, vec![None]);
    assert_eq!(state.vertex_buffers, vec![None]);
    state.set_bind_group(0, 5);
    state.set_vertex_buffer(0, 6);
    assert!(!state.can_draw_indexed());
    state.set_index_buffer(7);
    assert!(state.can_draw_indexed());
    state.set_pipeline(2, &layout(vec![], 0));
    assert_eq!(state.index_buffer, None);
    assert!(!state.can_draw_indexed());
}

#[test]
fn replay_order_follows_entities_then_commands() {
    let pipelines = vec![Some(layout(vec![], 1))];
    let a = Draw {
        is_visible: true,
        render_commands: vec![RenderCommand::SetPipeline { pipeline: 0 }, set_vb(0, 1)],
    };
    let b = Draw {
        is_visible: true,
        render_commands: vec![RenderCommand::SetIndexBuffer { buffer: 9, offset: 4 }, draw_indexed()],
    };
    let scene = one_camera_scene(vec![Some(a), Some(b)], vec![1, 0], pipelines);
    let mut node = plain_node();
    node.add_camera("main");
    let passes = node.update(&scene, &vec![]).unwrap();
    assert_eq!(passes.len(), 1);
    let ev = &passes[0].events;
    assert_eq!(ev.len(), 4);
    assert!(matches!(ev[0], PassEvent::SetIndexBuffer { buffer: 9, offset: 4 }));
    assert!(matches!(ev[1], PassEvent::DrawIndexed { base_vertex: 3, .. }));
    assert!(matches!(ev[2], PassEvent::SetPipeline { pipeline: 0 }));
    assert!(matches!(ev[3], PassEvent::SetVertexBuffer { slot: 0, buffer: 1, offset: 0 }));
}

#[test]
fn invisible_or_drawless_entities_make_no_calls() {
    let pipelines = vec![Some(layout(vec![], 0))];
    let hidden = Draw {
        is_visible: false,
        render_commands: vec![RenderCommand::SetPipeline { pipeline: 0 }, draw_indexed()],
    };
    let scene = one_camera_scene(vec![Some(hidden), None], vec![0, 1], pipelines);
    let mut node = plain_node();
    node.add_camera("main");
    let passes = node.update(&scene, &vec![]).unwrap();
    assert_eq!(passes.len(), 1);
    assert!(passes[0].events.is_empty());
}

#[test]
fn inactive_camera_opens_no_pass() {
    let scene = one_camera_scene(vec![], vec![], vec![]);
    let mut node = plain_node();
    node.add_camera("side");
    node.add_camera("main");
    node.add_camera("other");
    let passes: Vec<CameraPass> = node.update(&scene, &vec![]).unwrap();
    assert_eq!(passes.len(), 1);
    assert_eq!(passes[0].camera, 1);
    assert_eq!(find_active_camera(&scene.active_cameras, &"side".to_string()), None);
    assert_eq!(find_active_camera(&scene.active_cameras, &"main".to_string()), Some(0));
}

#[test]
fn active_camera_without_visible_entities_fails() {
    let mut scene = one_camera_scene(vec![], vec![], vec![]);
    scene.visible_entities[0] = None;
    let mut node = plain_node();
    node.add_camera("main");
    assert_eq!(node.update(&scene, &vec![]).err(), Some(FrameError::MissingVisibleEntities));
}

#[test]
fn configuration_errors() {
    let pipelines = vec![Some(layout(vec![70], 1)), None];
    let (r, _) = run(vec![RenderCommand::SetPipeline { pipeline: 1 }], &pipelines);
    assert_eq!(r, Err(FrameError::MissingPipeline));
    let (r, _) = run(vec![RenderCommand::SetPipeline { pipeline: 5 }], &pipelines);
    assert_eq!(r, Err(FrameError::MissingPipeline));
    let (r, _) = run(vec![RenderCommand::SetPipeline { pipeline: 0 }, set_bg(1, 2)], &pipelines);
    assert_eq!(r, Err(FrameError::MissingBindGroupLayout));
    let (r, _) = run(vec![RenderCommand::SetPipeline { pipeline: 0 }, set_vb(1, 2)], &pipelines);
    assert_eq!(r, Err(FrameError::VertexBufferSlotOutOfRange));
    let (r, events) = run(vec![set_vb(0, 2)], &pipelines);
    assert_eq!(r, Err(FrameError::VertexBufferSlotOutOfRange));
    assert!(events.is_empty());
}

#[test]
fn bind_group_call_carries_layout_id_and_offsets() {
    let pipelines = vec![Some(layout(vec![70, 71], 0))];
    let mut state = DrawState::new();
    let mut events = Vec::new();
    execute_command(&mut state, &RenderCommand::SetPipeline { pipeline: 0 }, &pipelines, &mut events).unwrap();
    let cmd = RenderCommand::SetBindGroup { index: 1, bind_group: 8, dynamic_uniform_indices: Some(vec![4, 5]) };
    execute_command(&mut state, &cmd, &pipelines, &mut events).unwrap();
    match &events[1] {
        PassEvent::SetBindGroup { index, layout_id, bind_group, dynamic_uniform_indices } => {
            assert_eq!(*index, 1);
            assert_eq!(*layout_id, 71);
            assert_eq!(*bind_group, 8);
            assert_eq!(dynamic_uniform_indices.as_deref(), Some(&[4u32, 5][..]));
        }
        other => panic!("unexpected event {:?}", other),
    }
    assert_eq!(state.bind_groups, vec![None, Some(8)]);
}

fn attachments_descriptor() -> PassDescriptor {
    PassDescriptor {
        color_attachments: vec![
            ColorAttachment { attachment: TextureAttachment::Input("color".to_string()) },
            ColorAttachment { attachment: TextureAttachment::Id(99) },
            ColorAttachment { attachment: TextureAttachment::Input("extra".to_string()) },
        ],
        depth_stencil_attachment: Some(DepthStencilAttachment {
            attachment: TextureAttachment::Input("depth".to_string()),
        }),
    }
}

#[test]
fn new_declares_named_inputs_in_order() {
    let node = MainPassNode::new(attachments_descriptor());
    let inputs = node.input();
    assert_eq!(inputs.len(), 3);
    assert_eq!(inputs[0].name, "color");
    assert_eq!(inputs[1].name, "extra");
    assert_eq!(inputs[2].name, "depth");
    assert!(inputs.iter().all(|i| i.resource_type == RenderResourceType::Texture));
}

#[test]
fn attachments_resolve_from_inputs() {
    let mut node = MainPassNode::new(attachments_descriptor());
    let input = vec![
        Some(RenderResource::Texture(1)),
        Some(RenderResource::Texture(2)),
        Some(RenderResource::Texture(3)),
    ];
    assert_eq!(node.resolve_attachments(&input), Ok(()));
    let d = node.descriptor();
    let ids: Vec<Option<u64>> = d
        .color_attachments
        .iter()
        .map(|c| match c.attachment {
            TextureAttachment::Id(t) => Some(t),
            TextureAttachment::Input(_) => None,
        })
        .collect();
    assert_eq!(ids, vec![Some(1), Some(99), Some(2)]);
    assert!(matches!(
        d.depth_stencil_attachment.as_ref().unwrap().attachment,
        TextureAttachment::Id(3)
    ));
}

#[test]
fn missing_input_texture_fails_and_changes_nothing() {
    let mut node = MainPassNode::new(attachments_descriptor());
    let input = vec![Some(RenderResource::Texture(1)), Some(RenderResource::Buffer(2)), Some(RenderResource::Texture(3))];
    assert_eq!(node.resolve_attachments(&input), Err(FrameError::MissingInputTexture));
    assert!(matches!(node.descriptor().color_attachments[0].attachment, TextureAttachment::Input(_)));
    let short = vec![Some(RenderResource::Texture(1))];
    assert_eq!(node.update(&one_camera_scene(vec![], vec![], vec![]), &short).err(), Some(FrameError::MissingInputTexture));
    assert_eq!(get_input_texture(&input, 1), None);
    assert_eq!(get_input_texture(&input, 2), Some(3));
    assert_eq!(get_input_texture(&input, 7), None);
}
