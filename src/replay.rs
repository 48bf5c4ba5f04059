//! Replay of draw commands against the backend, in lockstep with the draw
//! state.

use vstd::prelude::*;

use crate::draw::{
    entity_commands, visible_draw, offsets_view, same_event, same_events, Draw, FrameError, PassEvent,
    PipelineLayout, RenderCommand,
};
use crate::draw_state::{DrawState, DrawStateView};
use crate::resource::{BufferId, Entity, PipelineHandle};

verus! {

/// The pipeline layout that `pipelines` holds for handle `h`, if any.
pub open spec fn layout_of(pipelines: Seq<Option<PipelineLayout>>, h: int) -> Option<PipelineLayout> {
    if 0 <= h < pipelines.len() {
        pipelines[h]
    } else {
        None
    }
}

/// The effect of one command: the next draw state and the events it emits,
/// or the frame error it raises.
pub open spec fn command_step(
    s: DrawStateView,
    cmd: RenderCommand,
    pipelines: Seq<Option<PipelineLayout>>,
) -> Result<(DrawStateView, Seq<PassEvent>), FrameError> {
    match cmd {
        RenderCommand::SetPipeline { pipeline } => match layout_of(pipelines, pipeline as int) {
            Some(layout) => Ok(
                (
                    DrawStateView::with_pipeline(
                        pipeline,
                        layout.bind_group_layout_ids@.len(),
                        layout.vertex_buffer_count as nat,
                    ),
                    seq![PassEvent::SetPipeline { pipeline }],
                ),
            ),
            None => Err(FrameError::MissingPipeline),
        },
        RenderCommand::DrawIndexed { base_vertex, indices, instances } => if s.is_ready() {
            Ok((s, seq![PassEvent::DrawIndexed { indices, base_vertex, instances }]))
        } else {
            Ok((s, seq![PassEvent::DrawRejected { pipeline: s.pipeline }]))
        },
        RenderCommand::SetVertexBuffer { slot, buffer, offset } => if slot < s.vertex_buffers.len() {
            Ok(
                (
                    DrawStateView {
                        vertex_buffers: s.vertex_buffers.update(slot as int, Some(buffer)),
                        ..s
                    },
                    seq![PassEvent::SetVertexBuffer { slot, buffer, offset }],
                ),
            )
        } else {
            Err(FrameError::VertexBufferSlotOutOfRange)
        },
        RenderCommand::SetIndexBuffer { buffer, offset } => Ok(
            (
                DrawStateView { index_buffer: Some(buffer), ..s },
                seq![PassEvent::SetIndexBuffer { buffer, offset }],
            ),
        ),
        RenderCommand::SetBindGroup { index, bind_group, dynamic_uniform_indices } => match s.pipeline {
            None => Err(FrameError::BindGroupWithoutPipeline),
            Some(h) => match layout_of(pipelines, h as int) {
                Some(layout) => if index < layout.bind_group_layout_ids@.len() {
                    Ok(
                        (
                            DrawStateView {
                                bind_groups: s.bind_groups.update(index as int, Some(bind_group)),
                                ..s
                            },
                            seq![
                                PassEvent::SetBindGroup {
                                    index,
                                    layout_id: layout.bind_group_layout_ids@[index as int],
                                    bind_group,
                                    dynamic_uniform_indices,
                                },
                            ],
                        ),
                    )
                } else {
                    Err(FrameError::MissingBindGroupLayout)
                },
                None => Err(FrameError::MissingBindGroupLayout),
            },
        },
    }
}

/// Runs `cmds` in order from state `s`: the final state and all events
/// emitted, or the first error raised.
pub open spec fn run_commands(
    s: DrawStateView,
    cmds: Seq<RenderCommand>,
    pipelines: Seq<Option<PipelineLayout>>,
) -> Result<(DrawStateView, Seq<PassEvent>), FrameError>
    decreases cmds.len(),
{
    if cmds.len() == 0 {
        Ok((s, Seq::empty()))
    } else {
        match run_commands(s, cmds.drop_last(), pipelines) {
            Err(e) => Err(e),
            Ok((s1, ev1)) => match command_step(s1, cmds.last(), pipelines) {
                Err(e) => Err(e),
                Ok((s2, ev2)) => Ok((s2, ev1 + ev2)),
            },
        }
    }
}

/// Runs the commands of each entity of `entities` in order, skipping
/// entities with no draw component or an invisible one.
pub open spec fn run_entities(
    s: DrawStateView,
    entities: Seq<Entity>,
    draws: Seq<Option<Draw>>,
    pipelines: Seq<Option<PipelineLayout>>,
) -> Result<(DrawStateView, Seq<PassEvent>), FrameError>
    decreases entities.len(),
{
    if entities.len() == 0 {
        Ok((s, Seq::empty()))
    } else {
        match run_entities(s, entities.drop_last(), draws, pipelines) {
            Err(e) => Err(e),
            Ok((s1, ev1)) => match run_commands(s1, entity_commands(draws, entities.last()), pipelines) {
                Err(e) => Err(e),
                Ok((s2, ev2)) => Ok((s2, ev1 + ev2)),
            },
        }
    }
}

/// Relation between an executable replay's outcome and the model's.
pub open spec fn replay_matches(
    model: Result<(DrawStateView, Seq<PassEvent>), FrameError>,
    r: Result<(), FrameError>,
    state: DrawStateView,
    before: Seq<PassEvent>,
    after: Seq<PassEvent>,
) -> bool {
    match model {
        Ok((s2, ev)) => r is Ok && state == s2 && same_events(after, before + ev),
        Err(e) => r == Err::<(), FrameError>(e),
    }
}

proof fn lemma_step_consistent(
    s: DrawStateView,
    cmd: RenderCommand,
    pipelines: Seq<Option<PipelineLayout>>,
)
    requires
        s.consistent_with(pipelines),
    ensures
        command_step(s, cmd, pipelines) matches Ok((s2, _)) ==> s2.consistent_with(pipelines),
{
}

fn clone_offsets(o: &Option<Vec<u32>>) -> (r: Option<Vec<u32>>)
    ensures
        offsets_view(r) == offsets_view(*o),
{
    match o {
        Some(v) => {
            let c = v.clone();
            assert(c@ =~= v@);
            Some(c)
        },
        None => None,
    }
}

/// Executes one command: makes the backend call it stands for (or records
/// a rejected draw) and updates the draw state to match.
pub fn execute_command(
    state: &mut DrawState,
    cmd: &RenderCommand,
    pipelines: &Vec<Option<PipelineLayout>>,
    events: &mut Vec<PassEvent>,
) -> (r: Result<(), FrameError>)
    requires
        old(state)@.consistent_with(pipelines@),
    ensures
        replay_matches(command_step(old(state)@, *cmd, pipelines@), r, final(state)@, old(events)@, final(events)@),
        r is Ok ==> final(state)@.consistent_with(pipelines@),
        r is Err ==> *final(state) == *old(state) && final(events)@ == old(events)@,
{
    proof {
        lemma_step_consistent(state@, *cmd, pipelines@);
    }
    let ghost before = events@;
    match cmd {
        RenderCommand::SetPipeline { pipeline } => {
            if *pipeline < pipelines.len() {
                match &pipelines[*pipeline] {
                    Some(layout) => {
                        events.push(PassEvent::SetPipeline { pipeline: *pipeline });
                        state.set_pipeline(*pipeline, layout);
                        Ok(())
                    },
                    None => Err(FrameError::MissingPipeline),
                }
            } else {
                Err(FrameError::MissingPipeline)
            }
        },
        RenderCommand::DrawIndexed { base_vertex, indices, instances } => {
            if state.can_draw_indexed() {
                events.push(
                    PassEvent::DrawIndexed {
                        indices: *indices,
                        base_vertex: *base_vertex,
                        instances: *instances,
                    },
                );
            } else {
                events.push(PassEvent::DrawRejected { pipeline: state.pipeline });
            }
            Ok(())
        },
        RenderCommand::SetVertexBuffer { slot, buffer, offset } => {
            if (*slot as usize) < state.vertex_buffers.len() {
                events.push(PassEvent::SetVertexBuffer { slot: *slot, buffer: *buffer, offset: *offset });
                state.set_vertex_buffer(*slot, *buffer);
                Ok(())
            } else {
                Err(FrameError::VertexBufferSlotOutOfRange)
            }
        },
        RenderCommand::SetIndexBuffer { buffer, offset } => {
            events.push(PassEvent::SetIndexBuffer { buffer: *buffer, offset: *offset });
            state.set_index_buffer(*buffer);
            Ok(())
        },
        RenderCommand::SetBindGroup { index, bind_group, dynamic_uniform_indices } => {
            match state.pipeline {
                None => Err(FrameError::BindGroupWithoutPipeline),
                Some(h) => {
                    let layout = &pipelines[h];
                    match layout {
                        Some(layout) => {
                            if (*index as usize) < layout.bind_group_layout_ids.len() {
                                let layout_id = layout.bind_group_layout_ids[*index as usize];
                                let offsets = clone_offsets(dynamic_uniform_indices);
                                events.push(
                                    PassEvent::SetBindGroup {
                                        index: *index,
                                        layout_id,
                                        bind_group: *bind_group,
                                        dynamic_uniform_indices: offsets,
                                    },
                                );
                                state.set_bind_group(*index, *bind_group);
                                Ok(())
                            } else {
                                Err(FrameError::MissingBindGroupLayout)
                            }
                        },
                        None => Err(FrameError::MissingBindGroupLayout),
                    }
                },
            }
        },
    }
}

proof fn lemma_same_events_extend(a: Seq<PassEvent>, b: Seq<PassEvent>, x: Seq<PassEvent>, y: Seq<PassEvent>)
    requires
        same_events(a, b),
        same_events(x, y),
    ensures
        same_events(a + x, b + y),
{
    assert forall|i: int| 0 <= i < (a + x).len() implies same_event(#[trigger] (a + x)[i], (b + y)[i]) by {
        if i < a.len() {
            assert(same_event(a[i], b[i]));
        } else {
            assert(same_event(x[i - a.len()], y[i - a.len()]));
        }
    }
}

proof fn lemma_same_events_trans(a: Seq<PassEvent>, b: Seq<PassEvent>, c: Seq<PassEvent>)
    requires
        same_events(a, b),
        same_events(b, c),
    ensures
        same_events(a, c),
{
    assert forall|i: int| 0 <= i < a.len() implies same_event(#[trigger] a[i], c[i]) by {
        assert(same_event(a[i], b[i]));
        assert(same_event(b[i], c[i]));
    }
}

proof fn lemma_same_events_refl(a: Seq<PassEvent>)
    ensures
        same_events(a, a),
{
    assert forall|i: int| 0 <= i < a.len() implies same_event(#[trigger] a[i], a[i]) by {}
}

/// Extending a replay by one more piece of work: events appended after `mid`
/// that match `ev2` extend a match of `ev1` to a match of `ev1 + ev2`.
proof fn lemma_chain(before: Seq<PassEvent>, mid: Seq<PassEvent>, after: Seq<PassEvent>, ev1: Seq<PassEvent>, ev2: Seq<PassEvent>)
    requires
        same_events(mid, before + ev1),
        same_events(after, mid + ev2),
    ensures
        same_events(after, before + (ev1 + ev2)),
{
    lemma_same_events_refl(ev2);
    lemma_same_events_extend(mid, before + ev1, ev2, ev2);
    lemma_same_events_trans(after, mid + ev2, before + ev1 + ev2);
    assert(before + ev1 + ev2 =~= before + (ev1 + ev2));
}

proof fn lemma_run_commands_err_prefix(
    s: DrawStateView,
    cmds: Seq<RenderCommand>,
    n: int,
    pipelines: Seq<Option<PipelineLayout>>,
)
    requires
        0 <= n <= cmds.len(),
        run_commands(s, cmds.take(n), pipelines) is Err,
    ensures
        run_commands(s, cmds, pipelines) == run_commands(s, cmds.take(n), pipelines),
    decreases cmds.len() - n,
{
    if n == cmds.len() {
        assert(cmds.take(n) =~= cmds);
    } else {
        assert(cmds.take(n + 1).drop_last() =~= cmds.take(n));
        lemma_run_commands_err_prefix(s, cmds, n + 1, pipelines);
    }
}

/// Replays `cmds` in order, stopping at the first error.
pub fn replay_commands(
    state: &mut DrawState,
    cmds: &Vec<RenderCommand>,
    pipelines: &Vec<Option<PipelineLayout>>,
    events: &mut Vec<PassEvent>,
) -> (r: Result<(), FrameError>)
    requires
        old(state)@.consistent_with(pipelines@),
    ensures
        replay_matches(run_commands(old(state)@, cmds@, pipelines@), r, final(state)@, old(events)@, final(events)@),
        r is Ok ==> final(state)@.consistent_with(pipelines@),
{
    let ghost s0 = state@;
    let ghost before = events@;
    proof {
        lemma_same_events_refl(before);
        assert(before + Seq::<PassEvent>::empty() =~= before);
    }
    let mut i: usize = 0;
    while i < cmds.len()
        invariant
            i <= cmds@.len(),
            s0 == old(state)@,
            before == old(events)@,
            state@.consistent_with(pipelines@),
            run_commands(s0, cmds@.take(i as int), pipelines@) matches Ok((s1, ev1))
                && state@ == s1 && same_events(events@, before + ev1),
        decreases cmds@.len() - i,
    {
        let ghost mid = events@;
        let ghost ev1 = run_commands(s0, cmds@.take(i as int), pipelines@)->Ok_0.1;
        assert(cmds@.take(i + 1).drop_last() =~= cmds@.take(i as int));
        let ghost st = state@;
        let r = execute_command(state, &cmds[i], pipelines, events);
        if r.is_err() {
            proof {
                assert(command_step(st, cmds@[i as int], pipelines@) is Err);
                assert(run_commands(s0, cmds@.take(i + 1), pipelines@) == command_step(st, cmds@[i as int], pipelines@));
                assert(cmds@.take(i + 1).last() == cmds@[i as int]);
                lemma_run_commands_err_prefix(s0, cmds@, (i + 1) as int, pipelines@);
            }
            return r;
        }
        proof {
            let ev2 = command_step(run_commands(s0, cmds@.take(i as int), pipelines@)->Ok_0.0, cmds@[i as int], pipelines@)->Ok_0.1;
            lemma_chain(before, mid, events@, ev1, ev2);
        }
        i = i + 1;
    }
    assert(cmds@.take(i as int) =~= cmds@);
    Ok(())
}

proof fn lemma_run_entities_err_prefix(
    s: DrawStateView,
    entities: Seq<Entity>,
    n: int,
    draws: Seq<Option<Draw>>,
    pipelines: Seq<Option<PipelineLayout>>,
)
    requires
        0 <= n <= entities.len(),
        run_entities(s, entities.take(n), draws, pipelines) is Err,
    ensures
        run_entities(s, entities, draws, pipelines) == run_entities(s, entities.take(n), draws, pipelines),
    decreases entities.len() - n,
{
    if n == entities.len() {
        assert(entities.take(n) =~= entities);
    } else {
        assert(entities.take(n + 1).drop_last() =~= entities.take(n));
        lemma_run_entities_err_prefix(s, entities, n + 1, draws, pipelines);
    }
}

/// Replays the commands of each entity of `entities` in order, skipping
/// those with no draw component or an invisible one; stops at the first
/// error.
pub fn replay_entities(
    state: &mut DrawState,
    entities: &Vec<Entity>,
    draws: &Vec<Option<Draw>>,
    pipelines: &Vec<Option<PipelineLayout>>,
    events: &mut Vec<PassEvent>,
) -> (r: Result<(), FrameError>)
    requires
        old(state)@.consistent_with(pipelines@),
    ensures
        replay_matches(
            run_entities(old(state)@, entities@, draws@, pipelines@),
            r,
            final(state)@,
            old(events)@,
            final(events)@,
        ),
        r is Ok ==> final(state)@.consistent_with(pipelines@),
{
    let ghost s0 = state@;
    let ghost before = events@;
    proof {
        lemma_same_events_refl(before);
        assert(before + Seq::<PassEvent>::empty() =~= before);
    }
    let mut i: usize = 0;
    while i < entities.len()
        invariant
            i <= entities@.len(),
            s0 == old(state)@,
            before == old(events)@,
            state@.consistent_with(pipelines@),
            run_entities(s0, entities@.take(i as int), draws@, pipelines@) matches Ok((s1, ev1))
                && state@ == s1 && same_events(events@, before + ev1),
        decreases entities@.len() - i,
    {
        let ghost mid = events@;
        let ghost st = state@;
        let ghost ev1 = run_entities(s0, entities@.take(i as int), draws@, pipelines@)->Ok_0.1;
        let e = entities[i];
        proof {
            assert(entities@.take(i + 1).drop_last() =~= entities@.take(i as int));
            assert(entities@.take(i + 1).last() == e);
        }
        let mut r: Result<(), FrameError> = Ok(());
        if e < draws.len() {
            match &draws[e] {
                Some(draw) => {
                    if draw.is_visible {
                        r = replay_commands(state, &draw.render_commands, pipelines, events);
                    }
                },
                None => {},
            }
        }
        if r.is_err() {
            proof {
                lemma_run_entities_err_prefix(s0, entities@, (i + 1) as int, draws@, pipelines@);
            }
            return r;
        }
        proof {
            let ev2 = run_commands(st, entity_commands(draws@, e), pipelines@)->Ok_0.1;
            if entity_commands(draws@, e).len() == 0 {
                assert(ev2 =~= Seq::<PassEvent>::empty());
                lemma_same_events_refl(mid);
                assert(mid + ev2 =~= mid);
            }
            lemma_chain(before, mid, events@, ev1, ev2);
        }
        i = i + 1;
    }
    assert(entities@.take(i as int) =~= entities@);
    Ok(())
}

/// Command `c` sets the bind group at index `i`.
pub open spec fn sets_bind_group(c: RenderCommand, i: int) -> bool {
    c matches RenderCommand::SetBindGroup { index, .. } && index == i
}

/// Command `c` sets the vertex buffer at slot `j`.
pub open spec fn sets_vertex_buffer(c: RenderCommand, j: int) -> bool {
    c matches RenderCommand::SetVertexBuffer { slot, .. } && slot == j
}

/// Some command of `cmds` sets the bind group at index `i`.
pub open spec fn bind_group_set_in(cmds: Seq<RenderCommand>, i: int) -> bool {
    exists|k: int| 0 <= k < cmds.len() && sets_bind_group(#[trigger] cmds[k], i)
}

/// Some command of `cmds` sets the vertex buffer at slot `j`.
pub open spec fn vertex_buffer_set_in(cmds: Seq<RenderCommand>, j: int) -> bool {
    exists|k: int| 0 <= k < cmds.len() && sets_vertex_buffer(#[trigger] cmds[k], j)
}

/// Some command of `cmds` sets the index buffer.
pub open spec fn index_buffer_set_in(cmds: Seq<RenderCommand>) -> bool {
    exists|k: int| 0 <= k < cmds.len() && (#[trigger] cmds[k] is SetIndexBuffer)
}

proof fn lemma_slots_track(
    s: DrawStateView,
    h: PipelineHandle,
    rest: Seq<RenderCommand>,
    pipelines: Seq<Option<PipelineLayout>>,
)
    requires
        layout_of(pipelines, h as int) is Some,
        forall|k: int| 0 <= k < rest.len() ==> !(#[trigger] rest[k] is SetPipeline),
        run_commands(s, seq![RenderCommand::SetPipeline { pipeline: h }] + rest, pipelines) is Ok,
    ensures
        ({
            let layout = layout_of(pipelines, h as int)->0;
            let s2 = run_commands(s, seq![RenderCommand::SetPipeline { pipeline: h }] + rest, pipelines)->Ok_0.0;
            &&& s2.pipeline == Some(h)
            &&& s2.bind_groups.len() == layout.bind_group_layout_ids@.len()
            &&& s2.vertex_buffers.len() == layout.vertex_buffer_count
            &&& forall|i: int| 0 <= i < s2.bind_groups.len() ==> ((#[trigger] s2.bind_groups[i]).is_some()
                <==> bind_group_set_in(rest, i))
            &&& forall|j: int| 0 <= j < s2.vertex_buffers.len() ==> ((#[trigger] s2.vertex_buffers[j]).is_some()
                <==> vertex_buffer_set_in(rest, j))
            &&& s2.index_buffer.is_some() <==> index_buffer_set_in(rest)
        }),
    decreases rest.len(),
{
    let sp = seq![RenderCommand::SetPipeline { pipeline: h }];
    let full = sp + rest;
    if rest.len() == 0 {
        assert(full =~= sp);
        assert(sp.drop_last() =~= Seq::<RenderCommand>::empty());
    } else {
        let init = rest.drop_last();
        let c = rest.last();
        assert(full.drop_last() =~= sp + init);
        assert(full.last() == c);
        assert forall|k: int| 0 <= k < init.len() implies !(#[trigger] init[k] is SetPipeline) by {
            assert(init[k] == rest[k]);
        }
        lemma_slots_track(s, h, init, pipelines);
        let s1 = run_commands(s, sp + init, pipelines)->Ok_0.0;
        let s2 = run_commands(s, full, pipelines)->Ok_0.0;
        assert(!(rest[rest.len() - 1] is SetPipeline));
        assert forall|i: int| 0 <= i < s2.bind_groups.len() implies ((#[trigger] s2.bind_groups[i]).is_some()
            <==> bind_group_set_in(rest, i)) by {
            if s2.bind_groups[i].is_some() {
                if s1.bind_groups[i].is_some() {
                    let k = choose|k: int| 0 <= k < init.len() && sets_bind_group(#[trigger] init[k], i);
                    assert(rest[k] == init[k]);
                } else {
                    assert(sets_bind_group(rest[rest.len() - 1], i));
                }
            } else {
                assert forall|k: int| 0 <= k < rest.len() implies !sets_bind_group(#[trigger] rest[k], i) by {
                    if k < init.len() {
                        assert(rest[k] == init[k]);
                    }
                }
            }
        }
        assert forall|j: int| 0 <= j < s2.vertex_buffers.len() implies ((#[trigger] s2.vertex_buffers[j]).is_some()
            <==> vertex_buffer_set_in(rest, j)) by {
            if s2.vertex_buffers[j].is_some() {
                if s1.vertex_buffers[j].is_some() {
                    let k = choose|k: int| 0 <= k < init.len() && sets_vertex_buffer(#[trigger] init[k], j);
                    assert(rest[k] == init[k]);
                } else {
                    assert(sets_vertex_buffer(rest[rest.len() - 1], j));
                }
            } else {
                assert forall|k: int| 0 <= k < rest.len() implies !sets_vertex_buffer(#[trigger] rest[k], j) by {
                    if k < init.len() {
                        assert(rest[k] == init[k]);
                    }
                }
            }
        }
        if s2.index_buffer.is_some() {
            if s1.index_buffer.is_some() {
                let k = choose|k: int| 0 <= k < init.len() && (#[trigger] init[k] is SetIndexBuffer);
                assert(rest[k] == init[k]);
            } else {
                assert(rest[rest.len() - 1] is SetIndexBuffer);
            }
        } else {
            assert forall|k: int| 0 <= k < rest.len() implies !(#[trigger] rest[k] is SetIndexBuffer) by {
                if k < init.len() {
                    assert(rest[k] == init[k]);
                }
            }
        }
    }
}

/// Once pipeline `h` is bound, and as long as no other pipeline is, an
/// indexed draw is valid exactly when every bind-group index and every
/// vertex-buffer slot of `h`'s layout, and the index buffer, have been set
/// since the pipeline was bound.
pub proof fn lemma_ready_iff_all_slots_set(
    s: DrawStateView,
    h: PipelineHandle,
    rest: Seq<RenderCommand>,
    pipelines: Seq<Option<PipelineLayout>>,
)
    requires
        layout_of(pipelines, h as int) is Some,
        forall|k: int| 0 <= k < rest.len() ==> !(#[trigger] rest[k] is SetPipeline),
        run_commands(s, seq![RenderCommand::SetPipeline { pipeline: h }] + rest, pipelines) is Ok,
    ensures
        ({
            let layout = layout_of(pipelines, h as int)->0;
            let s2 = run_commands(s, seq![RenderCommand::SetPipeline { pipeline: h }] + rest, pipelines)->Ok_0.0;
            s2.is_ready() <==> {
                &&& forall|i: int| 0 <= i < layout.bind_group_layout_ids@.len() ==> #[trigger] bind_group_set_in(rest, i)
                &&& forall|j: int| 0 <= j < layout.vertex_buffer_count ==> #[trigger] vertex_buffer_set_in(rest, j)
                &&& index_buffer_set_in(rest)
            }
        }),
{
    lemma_slots_track(s, h, rest, pipelines);
    let s2 = run_commands(s, seq![RenderCommand::SetPipeline { pipeline: h }] + rest, pipelines)->Ok_0.0;
    let layout = layout_of(pipelines, h as int)->0;
    if s2.is_ready() {
        assert forall|i: int| 0 <= i < layout.bind_group_layout_ids@.len() implies #[trigger] bind_group_set_in(rest, i) by {
            assert(s2.bind_groups[i].is_some());
        }
        assert forall|j: int| 0 <= j < layout.vertex_buffer_count implies #[trigger] vertex_buffer_set_in(rest, j) by {
            assert(s2.vertex_buffers[j].is_some());
        }
    }
    if (forall|i: int| 0 <= i < layout.bind_group_layout_ids@.len() ==> #[trigger] bind_group_set_in(rest, i))
        && (forall|j: int| 0 <= j < layout.vertex_buffer_count ==> #[trigger] vertex_buffer_set_in(rest, j))
        && index_buffer_set_in(rest) {
        assert forall|i: int| 0 <= i < s2.bind_groups.len() implies (#[trigger] s2.bind_groups[i]).is_some() by {
            assert(bind_group_set_in(rest, i));
        }
        assert forall|j: int| 0 <= j < s2.vertex_buffers.len() implies (#[trigger] s2.vertex_buffers[j]).is_some() by {
            assert(vertex_buffer_set_in(rest, j));
        }
    }
}

/// Binding a pipeline always leaves the state not ready; a pipeline with no
/// bind groups and no vertex buffers becomes ready once an index buffer is
/// set.
pub proof fn lemma_pipeline_change_resets_readiness(
    s: DrawStateView,
    h: PipelineHandle,
    buffer: BufferId,
    offset: u64,
    pipelines: Seq<Option<PipelineLayout>>,
)
    requires
        command_step(s, RenderCommand::SetPipeline { pipeline: h }, pipelines) is Ok,
    ensures
        ({
            let s1 = command_step(s, RenderCommand::SetPipeline { pipeline: h }, pipelines)->Ok_0.0;
            let layout = layout_of(pipelines, h as int)->0;
            &&& !s1.is_ready()
            &&& layout.bind_group_layout_ids@.len() == 0 && layout.vertex_buffer_count == 0 ==> {
                let s2 = command_step(s1, RenderCommand::SetIndexBuffer { buffer, offset }, pipelines)->Ok_0.0;
                s2.is_ready()
            }
        }),
{
}

/// Replaying `a` then `b` is replaying `a + b`: the states chain and the
/// events of `a` come first, then those of `b`.
pub proof fn lemma_run_commands_append(
    s: DrawStateView,
    a: Seq<RenderCommand>,
    b: Seq<RenderCommand>,
    pipelines: Seq<Option<PipelineLayout>>,
)
    ensures
        run_commands(s, a + b, pipelines) == match run_commands(s, a, pipelines) {
            Err(e) => Err(e),
            Ok((s1, ev1)) => match run_commands(s1, b, pipelines) {
                Err(e) => Err(e),
                Ok((s2, ev2)) => Ok((s2, ev1 + ev2)),
            },
        },
    decreases b.len(),
{
    if b.len() == 0 {
        assert(a + b =~= a);
        if let Ok((s1, ev1)) = run_commands(s, a, pipelines) {
            assert(ev1 + Seq::<PassEvent>::empty() =~= ev1);
        }
    } else {
        assert((a + b).drop_last() =~= a + b.drop_last());
        assert((a + b).last() == b.last());
        lemma_run_commands_append(s, a, b.drop_last(), pipelines);
        if let Ok((s1, ev1)) = run_commands(s, a, pipelines) {
            if let Ok((s2, ev2)) = run_commands(s1, b.drop_last(), pipelines) {
                if let Ok((s3, ev3)) = command_step(s2, b.last(), pipelines) {
                    assert(ev1 + ev2 + ev3 =~= ev1 + (ev2 + ev3));
                }
            }
        }
    }
}

/// Replaying entities `a` then `b` is replaying `a + b`: the events of the
/// entities of `a` come first, then those of `b`.
pub proof fn lemma_run_entities_append(
    s: DrawStateView,
    a: Seq<Entity>,
    b: Seq<Entity>,
    draws: Seq<Option<Draw>>,
    pipelines: Seq<Option<PipelineLayout>>,
)
    ensures
        run_entities(s, a + b, draws, pipelines) == match run_entities(s, a, draws, pipelines) {
            Err(e) => Err(e),
            Ok((s1, ev1)) => match run_entities(s1, b, draws, pipelines) {
                Err(e) => Err(e),
                Ok((s2, ev2)) => Ok((s2, ev1 + ev2)),
            },
        },
    decreases b.len(),
{
    if b.len() == 0 {
        assert(a + b =~= a);
        if let Ok((s1, ev1)) = run_entities(s, a, draws, pipelines) {
            assert(ev1 + Seq::<PassEvent>::empty() =~= ev1);
        }
    } else {
        assert((a + b).drop_last() =~= a + b.drop_last());
        assert((a + b).last() == b.last());
        lemma_run_entities_append(s, a, b.drop_last(), draws, pipelines);
        if let Ok((s1, ev1)) = run_entities(s, a, draws, pipelines) {
            if let Ok((s2, ev2)) = run_entities(s1, b.drop_last(), draws, pipelines) {
                if let Ok((s3, ev3)) = run_commands(s2, entity_commands(draws, b.last()), pipelines) {
                    assert(ev1 + ev2 + ev3 =~= ev1 + (ev2 + ev3));
                }
            }
        }
    }
}

/// Each command that does not abort the frame emits exactly one event, so
/// the events of a replay stand in the order of its commands.
pub proof fn lemma_one_event_per_command(
    s: DrawStateView,
    cmd: RenderCommand,
    pipelines: Seq<Option<PipelineLayout>>,
)
    ensures
        command_step(s, cmd, pipelines) matches Ok((_, ev)) ==> ev.len() == 1,
{
}

/// Replaying a single command is taking its step.
pub proof fn lemma_run_single_command(
    s: DrawStateView,
    c: RenderCommand,
    pipelines: Seq<Option<PipelineLayout>>,
)
    ensures
        run_commands(s, seq![c], pipelines) == command_step(s, c, pipelines),
{
    assert(seq![c].drop_last() =~= Seq::<RenderCommand>::empty());
    assert(seq![c].last() == c);
    assert(run_commands(s, Seq::<RenderCommand>::empty(), pipelines) == Ok::<(DrawStateView, Seq<PassEvent>), FrameError>((s, Seq::empty())));
    if let Ok((s2, ev2)) = command_step(s, c, pipelines) {
        assert(Seq::<PassEvent>::empty() + ev2 =~= ev2);
    }
}

/// A single entity's replay is the replay of its own commands, in their
/// declared order.
pub proof fn lemma_run_single_entity(
    s: DrawStateView,
    e: Entity,
    draws: Seq<Option<Draw>>,
    pipelines: Seq<Option<PipelineLayout>>,
)
    ensures
        run_entities(s, seq![e], draws, pipelines) == run_commands(s, entity_commands(draws, e), pipelines),
{
    assert(seq![e].drop_last() =~= Seq::<Entity>::empty());
    assert(seq![e].last() == e);
    assert(run_entities(s, Seq::<Entity>::empty(), draws, pipelines) == Ok::<(DrawStateView, Seq<PassEvent>), FrameError>((s, Seq::empty())));
    if let Ok((s2, ev2)) = run_commands(s, entity_commands(draws, e), pipelines) {
        assert(Seq::<PassEvent>::empty() + ev2 =~= ev2);
    }
}

/// An entity with no draw component, or an invisible one, changes nothing
/// wherever it stands in the visible list: no events, no state change.
pub proof fn lemma_hidden_entity_contributes_nothing(
    s: DrawStateView,
    a: Seq<Entity>,
    e: Entity,
    b: Seq<Entity>,
    draws: Seq<Option<Draw>>,
    pipelines: Seq<Option<PipelineLayout>>,
)
    requires
        visible_draw(draws, e) is None,
    ensures
        run_entities(s, a + seq![e] + b, draws, pipelines) == run_entities(s, a + b, draws, pipelines),
{
    lemma_run_entities_append(s, a + seq![e], b, draws, pipelines);
    lemma_run_entities_append(s, a, b, draws, pipelines);
    assert((a + seq![e]).drop_last() =~= a);
    assert(entity_commands(draws, e) =~= Seq::<RenderCommand>::empty());
    if let Ok((s1, ev1)) = run_entities(s, a, draws, pipelines) {
        assert(ev1 + Seq::<PassEvent>::empty() =~= ev1);
    }
}

} // verus!
