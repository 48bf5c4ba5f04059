//! The record of what is bound on the backend, used to decide whether an
//! indexed draw is valid.

use vstd::prelude::*;

use crate::draw::PipelineLayout;
use crate::resource::{BindGroupId, BufferId, PipelineHandle};

verus! {

/// Mathematical model of a `DrawState`.
pub struct DrawStateView {
    pub pipeline: Option<PipelineHandle>,
    pub bind_groups: Seq<Option<BindGroupId>>,
    pub vertex_buffers: Seq<Option<BufferId>>,
    pub index_buffer: Option<BufferId>,
}

impl DrawStateView {
    /// Nothing bound.
    pub open spec fn empty() -> Self {
        DrawStateView {
            pipeline: None,
            bind_groups: Seq::empty(),
            vertex_buffers: Seq::empty(),
            index_buffer: None,
        }
    }

    /// The state right after binding pipeline `h`: every slot of its layout
    /// empty and no index buffer.
    pub open spec fn with_pipeline(h: PipelineHandle, bind_group_count: nat, vertex_buffer_count: nat) -> Self {
        DrawStateView {
            pipeline: Some(h),
            bind_groups: Seq::new(bind_group_count, |i: int| None),
            vertex_buffers: Seq::new(vertex_buffer_count, |i: int| None),
            index_buffer: None,
        }
    }

    /// Every bind group, every vertex buffer and the index buffer are set.
    pub open spec fn is_ready(self) -> bool {
        &&& forall|i: int| 0 <= i < self.bind_groups.len() ==> (#[trigger] self.bind_groups[i]).is_some()
        &&& forall|i: int| 0 <= i < self.vertex_buffers.len() ==> (#[trigger] self.vertex_buffers[i]).is_some()
        &&& self.index_buffer.is_some()
    }

    /// The slot arrays have the lengths that the bound pipeline's layout in
    /// `pipelines` dictates (both empty while no pipeline is bound).
    pub open spec fn consistent_with(self, pipelines: Seq<Option<PipelineLayout>>) -> bool {
        match self.pipeline {
            None => self.bind_groups.len() == 0 && self.vertex_buffers.len() == 0,
            Some(h) => {
                &&& h < pipelines.len()
                &&& pipelines[h as int] is Some
                &&& self.bind_groups.len() == pipelines[h as int]->0.bind_group_layout_ids@.len()
                &&& self.vertex_buffers.len() == pipelines[h as int]->0.vertex_buffer_count
            },
        }
    }
}

/// Tracks what is bound on the backend during one pass.
#[derive(Debug)]
pub struct DrawState {
    pub pipeline: Option<PipelineHandle>,
    pub bind_groups: Vec<Option<BindGroupId>>,
    pub vertex_buffers: Vec<Option<BufferId>>,
    pub index_buffer: Option<BufferId>,
}

impl View for DrawState {
    type V = DrawStateView;

    open spec fn view(&self) -> DrawStateView {
        DrawStateView {
            pipeline: self.pipeline,
            bind_groups: self.bind_groups@,
            vertex_buffers: self.vertex_buffers@,
            index_buffer: self.index_buffer,
        }
    }
}

fn empty_slots(n: usize) -> (r: Vec<Option<u64>>)
    ensures
        r@ == Seq::new(n as nat, |i: int| None::<u64>),
{
    let mut r: Vec<Option<u64>> = Vec::new();
    let mut i: usize = 0;
    while i < n
        invariant
            i <= n,
            r@ == Seq::new(i as nat, |j: int| None::<u64>),
        decreases n - i,
    {
        r.push(None);
        i = i + 1;
        assert(r@ =~= Seq::new(i as nat, |j: int| None::<u64>));
    }
    r
}

fn all_set(slots: &Vec<Option<u64>>) -> (r: bool)
    ensures
        r == forall|i: int| 0 <= i < slots@.len() ==> (#[trigger] slots@[i]).is_some(),
{
    let mut i: usize = 0;
    while i < slots.len()
        invariant
            i <= slots@.len(),
            forall|j: int| 0 <= j < i ==> (#[trigger] slots@[j]).is_some(),
        decreases slots@.len() - i,
    {
        if slots[i].is_none() {
            return false;
        }
        i = i + 1;
    }
    true
}

impl Default for DrawState {
    fn default() -> (r: Self)
        ensures
            r@ == DrawStateView::empty(),
    {
        DrawState::new()
    }
}

impl DrawState {
    /// A fresh state with nothing bound.
    pub fn new() -> (r: Self)
        ensures
            r@ == DrawStateView::empty(),
    {
        let r = DrawState {
            pipeline: None,
            bind_groups: Vec::new(),
            vertex_buffers: Vec::new(),
            index_buffer: None,
        };
        assert(r@.bind_groups =~= Seq::empty());
        assert(r@.vertex_buffers =~= Seq::empty());
        r
    }

    pub fn set_bind_group(&mut self, index: u32, bind_group: BindGroupId)
        requires
            index < old(self).bind_groups@.len(),
        ensures
            final(self)@ == (DrawStateView {
                bind_groups: old(self)@.bind_groups.update(index as int, Some(bind_group)),
                ..old(self)@
            }),
    {
        self.bind_groups.set(index as usize, Some(bind_group));
    }

    pub fn set_vertex_buffer(&mut self, index: u32, buffer: BufferId)
        requires
            index < old(self).vertex_buffers@.len(),
        ensures
            final(self)@ == (DrawStateView {
                vertex_buffers: old(self)@.vertex_buffers.update(index as int, Some(buffer)),
                ..old(self)@
            }),
    {
        self.vertex_buffers.set(index as usize, Some(buffer));
    }

    pub fn set_index_buffer(&mut self, buffer: BufferId)
        ensures
            final(self)@ == (DrawStateView { index_buffer: Some(buffer), ..old(self)@ }),
    {
        self.index_buffer = Some(buffer);
    }

    /// Whether an indexed draw is valid now.
    pub fn can_draw_indexed(&self) -> (r: bool)
        ensures
            r == self@.is_ready(),
    {
        all_set(&self.bind_groups) && all_set(&self.vertex_buffers) && self.index_buffer.is_some()
    }

    /// Binds pipeline `handle` with layout `layout`: every slot array is
    /// resized to the layout and emptied, and the index buffer is cleared.
    pub fn set_pipeline(&mut self, handle: PipelineHandle, layout: &PipelineLayout)
        ensures
            final(self)@ == DrawStateView::with_pipeline(
                handle,
                layout.bind_group_layout_ids@.len(),
                layout.vertex_buffer_count as nat,
            ),
            !final(self)@.is_ready(),
    {
        self.bind_groups = empty_slots(layout.bind_group_layout_ids.len());
        self.vertex_buffers = empty_slots(layout.vertex_buffer_count);
        self.index_buffer = None;
        self.pipeline = Some(handle);
    }
}

} // verus!
