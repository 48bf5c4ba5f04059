//! Draw commands, pipeline layouts, and the calls a pass makes on the backend.

use vstd::prelude::*;

use crate::resource::{BindGroupId, BindGroupLayoutId, BufferId, Entity, PipelineHandle};

verus! {

/// A half-open range `start..end` of indices or instances.
#[derive(Clone, Copy, Debug, PartialEq, Eq, Structural)]
pub struct U32Range {
    pub start: u32,
    pub end: u32,
}

/// One declarative command of an entity's draw list.
#[derive(Clone, Debug)]
pub enum RenderCommand {
    SetPipeline { pipeline: PipelineHandle },
    DrawIndexed { base_vertex: i32, indices: U32Range, instances: U32Range },
    SetVertexBuffer { slot: u32, buffer: BufferId, offset: u64 },
    SetIndexBuffer { buffer: BufferId, offset: u64 },
    SetBindGroup { index: u32, bind_group: BindGroupId, dynamic_uniform_indices: Option<Vec<u32>> },
}

/// The drawable part of an entity: a visibility flag and its command list.
#[derive(Clone, Debug)]
pub struct Draw {
    pub is_visible: bool,
    pub render_commands: Vec<RenderCommand>,
}

/// The shape of a pipeline: the layout id expected at each bind-group index,
/// and the number of vertex-buffer slots.
#[derive(Clone, Debug)]
pub struct PipelineLayout {
    pub bind_group_layout_ids: Vec<BindGroupLayoutId>,
    pub vertex_buffer_count: usize,
}

/// What a pass does on the backend, in order. `DrawRejected` is no backend
/// call: it records an indexed draw that was dropped because the bound
/// pipeline's slots were not all filled.
#[derive(Clone, Debug)]
pub enum PassEvent {
    SetPipeline { pipeline: PipelineHandle },
    DrawIndexed { indices: U32Range, base_vertex: i32, instances: U32Range },
    SetVertexBuffer { slot: u32, buffer: BufferId, offset: u64 },
    SetIndexBuffer { buffer: BufferId, offset: u64 },
    SetBindGroup {
        index: u32,
        layout_id: BindGroupLayoutId,
        bind_group: BindGroupId,
        dynamic_uniform_indices: Option<Vec<u32>>,
    },
    DrawRejected { pipeline: Option<PipelineHandle> },
}

/// A configuration error that aborts the frame.
#[derive(Clone, Copy, Debug, PartialEq, Eq, Structural)]
pub enum FrameError {
    /// An attachment names an input whose slot holds no texture.
    MissingInputTexture,
    /// An active camera entity has no visible-entity list.
    MissingVisibleEntities,
    /// A command names a pipeline that the pipeline table does not hold.
    MissingPipeline,
    /// A bind group was set while no pipeline was bound.
    BindGroupWithoutPipeline,
    /// The bound pipeline's layout has no bind group at the given index.
    MissingBindGroupLayout,
    /// A vertex buffer was set at a slot the bound pipeline does not have.
    VertexBufferSlotOutOfRange,
}

pub open spec fn offsets_view(o: Option<Vec<u32>>) -> Option<Seq<u32>> {
    match o {
        Some(v) => Some(v@),
        None => None,
    }
}

/// Two events are the same call: equal, with offset lists compared by content.
pub open spec fn same_event(a: PassEvent, b: PassEvent) -> bool {
    match a {
        PassEvent::SetBindGroup { index, layout_id, bind_group, dynamic_uniform_indices } => {
            match b {
                PassEvent::SetBindGroup {
                    index: index2,
                    layout_id: layout_id2,
                    bind_group: bind_group2,
                    dynamic_uniform_indices: offsets2,
                } => index == index2 && layout_id == layout_id2 && bind_group == bind_group2
                    && offsets_view(dynamic_uniform_indices) == offsets_view(offsets2),
                _ => false,
            }
        },
        _ => a == b,
    }
}

pub open spec fn same_events(a: Seq<PassEvent>, b: Seq<PassEvent>) -> bool {
    a.len() == b.len() && forall|i: int| 0 <= i < a.len() ==> same_event(#[trigger] a[i], b[i])
}

/// The draw component of entity `e`, if it has a visible one, else none.
pub open spec fn visible_draw(draws: Seq<Option<Draw>>, e: Entity) -> Option<Draw> {
    if e < draws.len() {
        match draws[e as int] {
            Some(d) => if d.is_visible { Some(d) } else { None },
            None => None,
        }
    } else {
        None
    }
}

/// The commands that entity `e` contributes: those of its draw component when
/// it has one and it is visible, none otherwise.
pub open spec fn entity_commands(draws: Seq<Option<Draw>>, e: Entity) -> Seq<RenderCommand> {
    match visible_draw(draws, e) {
        Some(d) => d.render_commands@,
        None => Seq::empty(),
    }
}

} // verus!
