//! The main pass node: resolves its attachments from the frame's inputs,
//! enumerates its cameras, and replays the visible entities of each.

use vstd::prelude::*;

use crate::draw::{same_events, Draw, FrameError, PassEvent, PipelineLayout};
use crate::draw_state::{DrawState, DrawStateView};
use crate::replay::{replay_entities, run_entities};
use crate::resource::{
    get_input_texture, input_texture, ColorAttachment, DepthStencilAttachment, Entity,
    PassDescriptor, RenderResource, RenderResourceType, ResourceSlotInfo, TextureAttachment,
};

verus! {

/// A camera that is currently active under a name.
#[derive(Clone, Debug)]
pub struct ActiveCamera {
    pub name: String,
    pub entity: Entity,
}

/// What the node reads of the world for one frame. Entities and pipeline
/// handles index the tables.
#[derive(Clone, Debug)]
pub struct SceneView {
    pub active_cameras: Vec<ActiveCamera>,
    /// The visible-entity list of each entity that has one, in draw order.
    pub visible_entities: Vec<Option<Vec<Entity>>>,
    /// The draw component of each entity that has one.
    pub draws: Vec<Option<Draw>>,
    /// The layout of each loaded pipeline.
    pub pipelines: Vec<Option<PipelineLayout>>,
}

/// The events of the pass opened for the node's camera number `camera`.
#[derive(Clone, Debug)]
pub struct CameraPass {
    pub camera: usize,
    pub events: Vec<PassEvent>,
}

/// The entity active under `name`: the first entry of `cams` with that name.
pub open spec fn active_camera(cams: Seq<ActiveCamera>, name: Seq<char>) -> Option<Entity>
    decreases cams.len(),
{
    if cams.len() == 0 {
        None
    } else {
        match active_camera(cams.drop_last(), name) {
            Some(e) => Some(e),
            None => if cams.last().name@ == name {
                Some(cams.last().entity)
            } else {
                None
            },
        }
    }
}

/// The visible-entity list of entity `e`, if it has one.
pub open spec fn visible_of(scene: SceneView, e: Entity) -> Option<Seq<Entity>> {
    if e < scene.visible_entities@.len() {
        match scene.visible_entities@[e as int] {
            Some(v) => Some(v@),
            None => None,
        }
    } else {
        None
    }
}

/// The pass for the camera named `name`: none when no entity is active under
/// that name, else the events of replaying its visible entities from an
/// empty draw state.
pub open spec fn camera_pass(scene: SceneView, name: Seq<char>) -> Result<Option<Seq<PassEvent>>, FrameError> {
    match active_camera(scene.active_cameras@, name) {
        None => Ok(None),
        Some(e) => match visible_of(scene, e) {
            None => Err(FrameError::MissingVisibleEntities),
            Some(entities) => match run_entities(DrawStateView::empty(), entities, scene.draws@, scene.pipelines@) {
                Ok((_, events)) => Ok(Some(events)),
                Err(x) => Err(x),
            },
        },
    }
}

/// The passes of a frame over the cameras `cameras`, in order: each paired
/// with the position of its camera, or the first error.
pub open spec fn frame_passes(scene: SceneView, cameras: Seq<String>) -> Result<Seq<(int, Seq<PassEvent>)>, FrameError>
    decreases cameras.len(),
{
    if cameras.len() == 0 {
        Ok(Seq::empty())
    } else {
        match frame_passes(scene, cameras.drop_last()) {
            Err(x) => Err(x),
            Ok(passes) => match camera_pass(scene, cameras.last()@) {
                Err(x) => Err(x),
                Ok(None) => Ok(passes),
                Ok(Some(events)) => Ok(passes.push((cameras.len() - 1, events))),
            },
        }
    }
}

pub open spec fn passes_match(r: Seq<CameraPass>, m: Seq<(int, Seq<PassEvent>)>) -> bool {
    &&& r.len() == m.len()
    &&& forall|i: int| 0 <= i < r.len() ==> (#[trigger] r[i]).camera == m[i].0 && same_events(r[i].events@, m[i].1)
}

/// Number of attachments in `colors` that name a node input.
pub open spec fn count_inputs(colors: Seq<ColorAttachment>) -> nat
    decreases colors.len(),
{
    if colors.len() == 0 {
        0
    } else {
        count_inputs(colors.drop_last()) + if colors.last().attachment is Input { 1nat } else { 0nat }
    }
}

/// Whether a depth-stencil attachment is present and names a node input.
pub open spec fn depth_is_input(d: Option<DepthStencilAttachment>) -> bool {
    d matches Some(a) && a.attachment is Input
}

/// Color attachment `c` once input `idx` (if any) has been resolved.
pub open spec fn resolved_color(c: ColorAttachment, idx: Option<usize>, input: Seq<Option<RenderResource>>) -> ColorAttachment {
    match idx {
        Some(k) => ColorAttachment { attachment: TextureAttachment::Id(input_texture(input, k as int)->0) },
        None => c,
    }
}

/// Depth-stencil attachment `d` once input `idx` (if any) has been resolved.
pub open spec fn resolved_depth(
    d: Option<DepthStencilAttachment>,
    idx: Option<usize>,
    input: Seq<Option<RenderResource>>,
) -> Option<DepthStencilAttachment> {
    match idx {
        Some(k) => Some(DepthStencilAttachment { attachment: TextureAttachment::Id(input_texture(input, k as int)->0) }),
        None => d,
    }
}

proof fn lemma_active_camera_found_prefix(cams: Seq<ActiveCamera>, name: Seq<char>, n: int)
    requires
        0 <= n <= cams.len(),
        active_camera(cams.take(n), name) is Some,
    ensures
        active_camera(cams, name) == active_camera(cams.take(n), name),
    decreases cams.len() - n,
{
    if n == cams.len() {
        assert(cams.take(n) =~= cams);
    } else {
        assert(cams.take(n + 1).drop_last() =~= cams.take(n));
        lemma_active_camera_found_prefix(cams, name, n + 1);
    }
}

proof fn lemma_frame_err_prefix(scene: SceneView, cameras: Seq<String>, n: int)
    requires
        0 <= n <= cameras.len(),
        frame_passes(scene, cameras.take(n)) is Err,
    ensures
        frame_passes(scene, cameras) == frame_passes(scene, cameras.take(n)),
    decreases cameras.len() - n,
{
    if n == cameras.len() {
        assert(cameras.take(n) =~= cameras);
    } else {
        assert(cameras.take(n + 1).drop_last() =~= cameras.take(n));
        lemma_frame_err_prefix(scene, cameras, n + 1);
    }
}

/// Looks up the entity active under `name`.
pub fn find_active_camera(cams: &Vec<ActiveCamera>, name: &String) -> (r: Option<Entity>)
    ensures
        r == active_camera(cams@, name@),
{
    let mut i: usize = 0;
    while i < cams.len()
        invariant
            i <= cams@.len(),
            active_camera(cams@.take(i as int), name@) is None,
        decreases cams@.len() - i,
    {
        proof {
            assert(cams@.take(i + 1).drop_last() =~= cams@.take(i as int));
        }
        if cams[i].name == *name {
            proof {
                lemma_active_camera_found_prefix(cams@, name@, i + 1);
            }
            return Some(cams[i].entity);
        }
        i = i + 1;
    }
    proof {
        assert(cams@.take(i as int) =~= cams@);
    }
    None
}

/// Replays the visible entities of the camera named `name`, from an empty
/// draw state; none when no entity is active under that name.
pub fn render_camera(scene: &SceneView, name: &String) -> (r: Result<Option<Vec<PassEvent>>, FrameError>)
    ensures
        match camera_pass(*scene, name@) {
            Ok(None) => r == Ok::<Option<Vec<PassEvent>>, FrameError>(None),
            Ok(Some(m)) => r matches Ok(Some(events)) && same_events(events@, m),
            Err(x) => r == Err::<Option<Vec<PassEvent>>, FrameError>(x),
        },
{
    let camera_entity = match find_active_camera(&scene.active_cameras, name) {
        Some(e) => e,
        None => return Ok(None),
    };
    if camera_entity >= scene.visible_entities.len() {
        return Err(FrameError::MissingVisibleEntities);
    }
    match &scene.visible_entities[camera_entity] {
        None => Err(FrameError::MissingVisibleEntities),
        Some(entities) => {
            let mut draw_state = DrawState::new();
            let mut events: Vec<PassEvent> = Vec::new();
            let r = replay_entities(&mut draw_state, entities, &scene.draws, &scene.pipelines, &mut events);
            match r {
                Ok(()) => {
                    proof {
                        let m = run_entities(DrawStateView::empty(), entities@, scene.draws@, scene.pipelines@)->Ok_0.1;
                        assert(Seq::<PassEvent>::empty() + m =~= m);
                    }
                    Ok(Some(events))
                },
                Err(x) => Err(x),
            }
        },
    }
}

/// A camera name under which no entity is active adds no pass to the frame,
/// and no error.
pub proof fn lemma_inactive_camera_adds_no_pass(scene: SceneView, cameras: Seq<String>, name: String)
    requires
        active_camera(scene.active_cameras@, name@) is None,
    ensures
        frame_passes(scene, cameras.push(name)) == frame_passes(scene, cameras),
{
    assert(cameras.push(name).drop_last() =~= cameras);
    assert(cameras.push(name).last() == name);
}

pub struct MainPassNode {
    descriptor: PassDescriptor,
    inputs: Vec<ResourceSlotInfo>,
    cameras: Vec<String>,
    color_attachment_input_indices: Vec<Option<usize>>,
    depth_stencil_attachment_input_index: Option<usize>,
}

impl MainPassNode {
    pub closed spec fn spec_descriptor(&self) -> PassDescriptor {
        self.descriptor
    }

    pub closed spec fn spec_inputs(&self) -> Seq<ResourceSlotInfo> {
        self.inputs@
    }

    pub closed spec fn spec_cameras(&self) -> Seq<String> {
        self.cameras@
    }

    /// For each color attachment, the position of the input it is resolved from.
    pub closed spec fn spec_color_indices(&self) -> Seq<Option<usize>> {
        self.color_attachment_input_indices@
    }

    /// The position of the input the depth-stencil attachment is resolved from.
    pub closed spec fn spec_depth_index(&self) -> Option<usize> {
        self.depth_stencil_attachment_input_index
    }

    /// Each attachment has an input index, every index names a declared
    /// input, and a depth index comes with a depth-stencil attachment.
    pub closed spec fn wf(&self) -> bool {
        &&& self.color_attachment_input_indices@.len() == self.descriptor.color_attachments@.len()
        &&& forall|i: int|
            0 <= i < self.color_attachment_input_indices@.len() ==> (#[trigger] self.color_attachment_input_indices@[i] matches Some(k) ==> k < self.inputs@.len())
        &&& self.depth_stencil_attachment_input_index matches Some(k) ==> k < self.inputs@.len()
            && self.descriptor.depth_stencil_attachment is Some
    }

    /// Every attachment that is resolved from an input finds a texture there.
    pub closed spec fn inputs_available(&self, input: Seq<Option<RenderResource>>) -> bool {
        &&& forall|i: int|
            0 <= i < self.color_attachment_input_indices@.len() ==> (#[trigger] self.color_attachment_input_indices@[i] matches Some(k) ==> input_texture(input, k as int) is Some)
        &&& self.depth_stencil_attachment_input_index matches Some(k) ==> input_texture(input, k as int) is Some
    }

    /// A node for `descriptor`. Each attachment that names an input gets an
    /// input slot of texture kind, in order: color attachments first, then
    /// the depth-stencil attachment.
    pub fn new(descriptor: PassDescriptor) -> (r: Self)
        ensures
            r.wf(),
            r.spec_descriptor() == descriptor,
            r.spec_cameras().len() == 0,
            ({
                let colors = descriptor.color_attachments@;
                &&& r.spec_inputs().len() == count_inputs(colors) + if depth_is_input(descriptor.depth_stencil_attachment) { 1nat } else { 0nat }
                &&& forall|i: int| 0 <= i < colors.len() ==> #[trigger] r.spec_color_indices()[i] == if colors[i].attachment is Input {
                    Some(count_inputs(colors.take(i)) as usize)
                } else {
                    None
                }
                &&& forall|i: int| 0 <= i < colors.len() && colors[i].attachment is Input ==> {
                    let slot = #[trigger] r.spec_inputs()[count_inputs(colors.take(i)) as int];
                    &&& slot.name == colors[i].attachment->Input_0
                    &&& slot.resource_type == RenderResourceType::Texture
                }
                &&& r.spec_depth_index() == if depth_is_input(descriptor.depth_stencil_attachment) {
                    Some(count_inputs(colors) as usize)
                } else {
                    None
                }
                &&& depth_is_input(descriptor.depth_stencil_attachment) ==> {
                    let slot = r.spec_inputs()[count_inputs(colors) as int];
                    &&& slot.name == descriptor.depth_stencil_attachment->0.attachment->Input_0
                    &&& slot.resource_type == RenderResourceType::Texture
                }
            }),
    {
        let ghost colors = descriptor.color_attachments@;
        let mut inputs: Vec<ResourceSlotInfo> = Vec::new();
        let mut color_attachment_input_indices: Vec<Option<usize>> = Vec::new();
        let mut i: usize = 0;
        while i < descriptor.color_attachments.len()
            invariant
                colors == descriptor.color_attachments@,
                i <= colors.len(),
                inputs@.len() == count_inputs(colors.take(i as int)),
                color_attachment_input_indices@.len() == i,
                forall|j: int| 0 <= j < i ==> #[trigger] color_attachment_input_indices@[j] == if colors[j].attachment is Input {
                    Some(count_inputs(colors.take(j)) as usize)
                } else {
                    None
                },
                forall|j: int| 0 <= j < i && colors[j].attachment is Input ==> count_inputs(colors.take(j)) < count_inputs(colors.take(i as int)),
                forall|j: int| 0 <= j < i && colors[j].attachment is Input ==> {
                    let slot = #[trigger] inputs@[count_inputs(colors.take(j)) as int];
                    &&& slot.name == colors[j].attachment->Input_0
                    &&& slot.resource_type == RenderResourceType::Texture
                },
            decreases colors.len() - i,
        {
            proof {
                assert(colors.take(i + 1).drop_last() =~= colors.take(i as int));
            }
            if let TextureAttachment::Input(name) = &descriptor.color_attachments[i].attachment {
                inputs.push(ResourceSlotInfo::new(name.clone(), RenderResourceType::Texture));
                color_attachment_input_indices.push(Some(inputs.len() - 1));
            } else {
                color_attachment_input_indices.push(None);
            }
            i = i + 1;
        }
        proof {
            assert(colors.take(i as int) =~= colors);
        }
        let mut depth_stencil_attachment_input_index: Option<usize> = None;
        if let Some(depth_stencil_attachment) = &descriptor.depth_stencil_attachment {
            if let TextureAttachment::Input(name) = &depth_stencil_attachment.attachment {
                inputs.push(ResourceSlotInfo::new(name.clone(), RenderResourceType::Texture));
                depth_stencil_attachment_input_index = Some(inputs.len() - 1);
            }
        }
        MainPassNode {
            descriptor,
            inputs,
            cameras: Vec::new(),
            color_attachment_input_indices,
            depth_stencil_attachment_input_index,
        }
    }

    /// Registers a camera name; passes are issued in registration order.
    pub fn add_camera(&mut self, camera_name: &str)
        requires
            old(self).wf(),
        ensures
            final(self).wf(),
            final(self).spec_descriptor() == old(self).spec_descriptor(),
            final(self).spec_inputs() == old(self).spec_inputs(),
            final(self).spec_color_indices() == old(self).spec_color_indices(),
            final(self).spec_depth_index() == old(self).spec_depth_index(),
            final(self).spec_cameras().len() == old(self).spec_cameras().len() + 1,
            final(self).spec_cameras().drop_last() == old(self).spec_cameras(),
            final(self).spec_cameras().last()@ == camera_name@,
    {
        self.cameras.push(camera_name.to_owned());
        proof {
            assert(self.cameras@.drop_last() =~= old(self).cameras@);
        }
    }

    /// The pass descriptor, with the attachments resolved by the last frame.
    pub fn descriptor(&self) -> (r: &PassDescriptor)
        ensures
            *r == self.spec_descriptor(),
    {
        &self.descriptor
    }

    /// The registered camera names, in registration order.
    pub fn cameras(&self) -> (r: &[String])
        ensures
            r@ == self.spec_cameras(),
    {
        self.cameras.as_slice()
    }

    /// The node's input slots.
    pub fn input(&self) -> (r: &[ResourceSlotInfo])
        ensures
            r@ == self.spec_inputs(),
    {
        self.inputs.as_slice()
    }

    fn inputs_available_exec(&self, input: &Vec<Option<RenderResource>>) -> (r: bool)
        requires
            self.wf(),
        ensures
            r == self.inputs_available(input@),
    {
        let mut i: usize = 0;
        while i < self.color_attachment_input_indices.len()
            invariant
                i <= self.color_attachment_input_indices@.len(),
                forall|j: int|
                    0 <= j < i ==> (#[trigger] self.color_attachment_input_indices@[j] matches Some(k) ==> input_texture(input@, k as int) is Some),
            decreases self.color_attachment_input_indices@.len() - i,
        {
            if let Some(k) = self.color_attachment_input_indices[i] {
                if get_input_texture(input, k).is_none() {
                    return false;
                }
            }
            i = i + 1;
        }
        if let Some(k) = self.depth_stencil_attachment_input_index {
            if get_input_texture(input, k).is_none() {
                return false;
            }
        }
        true
    }

    /// Substitutes the supplied textures for the attachments that name an
    /// input. Fails, changing nothing, when one of them finds no texture at
    /// its input position.
    pub fn resolve_attachments(&mut self, input: &Vec<Option<RenderResource>>) -> (r: Result<(), FrameError>)
        requires
            old(self).wf(),
        ensures
            final(self).wf(),
            final(self).spec_inputs() == old(self).spec_inputs(),
            final(self).spec_cameras() == old(self).spec_cameras(),
            final(self).spec_color_indices() == old(self).spec_color_indices(),
            final(self).spec_depth_index() == old(self).spec_depth_index(),
            r is Ok <==> old(self).inputs_available(input@),
            r is Err ==> r == Err::<(), FrameError>(FrameError::MissingInputTexture)
                && final(self).spec_descriptor() == old(self).spec_descriptor(),
            r is Ok ==> {
                let d = old(self).spec_descriptor();
                let idx = old(self).spec_color_indices();
                &&& final(self).spec_descriptor().color_attachments@.len() == d.color_attachments@.len()
                &&& forall|i: int| 0 <= i < d.color_attachments@.len() ==>
                    #[trigger] final(self).spec_descriptor().color_attachments@[i] == resolved_color(d.color_attachments@[i], idx[i], input@)
                &&& final(self).spec_descriptor().depth_stencil_attachment == resolved_depth(
                    d.depth_stencil_attachment,
                    old(self).spec_depth_index(),
                    input@,
                )
            },
    {
        if !self.inputs_available_exec(input) {
            return Err(FrameError::MissingInputTexture);
        }
        let ghost old_colors = self.descriptor.color_attachments@;
        let mut i: usize = 0;
        while i < self.descriptor.color_attachments.len()
            invariant
                self.wf(),
                self.inputs_available(input@),
                self.inputs == old(self).inputs,
                self.cameras == old(self).cameras,
                self.color_attachment_input_indices == old(self).color_attachment_input_indices,
                self.depth_stencil_attachment_input_index == old(self).depth_stencil_attachment_input_index,
                self.descriptor.depth_stencil_attachment == old(self).descriptor.depth_stencil_attachment,
                old_colors == old(self).descriptor.color_attachments@,
                self.descriptor.color_attachments@.len() == old_colors.len(),
                i <= old_colors.len(),
                forall|j: int| 0 <= j < i ==> #[trigger] self.descriptor.color_attachments@[j] == resolved_color(
                    old_colors[j],
                    self.color_attachment_input_indices@[j],
                    input@,
                ),
                forall|j: int| i <= j < old_colors.len() ==> #[trigger] self.descriptor.color_attachments@[j] == old_colors[j],
            decreases old_colors.len() - i,
        {
            if let Some(k) = self.color_attachment_input_indices[i] {
                let texture = get_input_texture(input, k);
                if let Some(t) = texture {
                    self.descriptor.color_attachments.set(i, ColorAttachment { attachment: TextureAttachment::Id(t) });
                }
            }
            i = i + 1;
        }
        if let Some(k) = self.depth_stencil_attachment_input_index {
            let texture = get_input_texture(input, k);
            if let Some(t) = texture {
                self.descriptor.depth_stencil_attachment = Some(DepthStencilAttachment { attachment: TextureAttachment::Id(t) });
            }
        }
        Ok(())
    }

    /// Runs the node for one frame: resolves the attachments from `input`,
    /// then, for each registered camera in order that has an active entity,
    /// opens a pass and replays that camera's visible entities. Any
    /// configuration error aborts the frame.
    pub fn update(&mut self, scene: &SceneView, input: &Vec<Option<RenderResource>>) -> (r: Result<Vec<CameraPass>, FrameError>)
        requires
            old(self).wf(),
        ensures
            final(self).wf(),
            final(self).spec_inputs() == old(self).spec_inputs(),
            final(self).spec_cameras() == old(self).spec_cameras(),
            final(self).spec_color_indices() == old(self).spec_color_indices(),
            final(self).spec_depth_index() == old(self).spec_depth_index(),
            !old(self).inputs_available(input@) ==> r == Err::<Vec<CameraPass>, FrameError>(FrameError::MissingInputTexture)
                && final(self).spec_descriptor() == old(self).spec_descriptor(),
            old(self).inputs_available(input@) ==> {
                let d = old(self).spec_descriptor();
                let idx = old(self).spec_color_indices();
                &&& final(self).spec_descriptor().color_attachments@.len() == d.color_attachments@.len()
                &&& forall|i: int| 0 <= i < d.color_attachments@.len() ==>
                    #[trigger] final(self).spec_descriptor().color_attachments@[i] == resolved_color(d.color_attachments@[i], idx[i], input@)
                &&& final(self).spec_descriptor().depth_stencil_attachment == resolved_depth(
                    d.depth_stencil_attachment,
                    old(self).spec_depth_index(),
                    input@,
                )
                &&& match frame_passes(*scene, old(self).spec_cameras()) {
                    Ok(m) => r matches Ok(passes) && passes_match(passes@, m),
                    Err(x) => r == Err::<Vec<CameraPass>, FrameError>(x),
                }
            },
    {
        match self.resolve_attachments(input) {
            Ok(()) => {},
            Err(x) => return Err(x),
        }
        self.render_cameras(scene)
    }

    /// For each registered camera in order that has an active entity, the
    /// events of a pass that replays that camera's visible entities.
    pub fn render_cameras(&self, scene: &SceneView) -> (r: Result<Vec<CameraPass>, FrameError>)
        ensures
            match frame_passes(*scene, self.spec_cameras()) {
                Ok(m) => r matches Ok(passes) && passes_match(passes@, m),
                Err(x) => r == Err::<Vec<CameraPass>, FrameError>(x),
            },
    {
        let ghost cams = self.cameras@;
        let mut passes: Vec<CameraPass> = Vec::new();
        let mut i: usize = 0;
        while i < self.cameras.len()
            invariant
                cams == self.cameras@,
                i <= cams.len(),
                frame_passes(*scene, cams.take(i as int)) matches Ok(m) && passes_match(passes@, m),
            decreases cams.len() - i,
        {
            proof {
                assert(cams.take(i + 1).drop_last() =~= cams.take(i as int));
                assert(cams.take(i + 1).last() == cams[i as int]);
            }
            let ghost m0 = frame_passes(*scene, cams.take(i as int))->Ok_0;
            let ghost prev = passes@;
            match render_camera(scene, &self.cameras[i]) {
                Ok(None) => {},
                Ok(Some(events)) => {
                    passes.push(CameraPass { camera: i, events });
                    proof {
                        let m1 = m0.push((i as int, camera_pass(*scene, cams[i as int]@)->Ok_0->Some_0));
                        assert(passes_match(passes@, m1)) by {
                            assert forall|j: int| 0 <= j < passes@.len() implies (#[trigger] passes@[j]).camera == m1[j].0
                                && same_events(passes@[j].events@, m1[j].1) by {
                                if j < m0.len() {
                                    assert(passes@[j] == prev[j]);
                                }
                            }
                        }
                    }
                },
                Err(x) => {
                    proof {
                        lemma_frame_err_prefix(*scene, cams, i + 1);
                    }
                    return Err(x);
                },
            }
            i = i + 1;
        }
        proof {
            assert(cams.take(i as int) =~= cams);
        }
        Ok(passes)
    }
}

} // verus!
