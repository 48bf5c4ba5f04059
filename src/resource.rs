//! Identifiers, render resources and pass descriptors.

use vstd::prelude::*;

verus! {

/// Index of a pipeline in the frame's pipeline table.
pub type PipelineHandle = usize;

/// Index of an entity in the frame's scene view.
pub type Entity = usize;

pub type BindGroupId = u64;

pub type BindGroupLayoutId = u64;

pub type BufferId = u64;

pub type TextureId = u64;

pub type SamplerId = u64;

/// The kind of resource a node input expects.
#[derive(Clone, Copy, Debug, PartialEq, Eq, Structural)]
pub enum RenderResourceType {
    Texture,
    Buffer,
    Sampler,
}

/// A concrete resource handed to a node by an upstream node.
#[derive(Clone, Copy, Debug, PartialEq, Eq, Structural)]
pub enum RenderResource {
    Texture(TextureId),
    Buffer(BufferId),
    Sampler(SamplerId),
}

impl RenderResource {
    pub open spec fn texture_spec(self) -> Option<TextureId> {
        match self {
            RenderResource::Texture(t) => Some(t),
            _ => None,
        }
    }

    /// The texture id, if this resource is a texture.
    pub fn get_texture(&self) -> (r: Option<TextureId>)
        ensures
            r == self.texture_spec(),
    {
        match self {
            RenderResource::Texture(t) => Some(*t),
            _ => None,
        }
    }
}

/// Name and kind of one node input.
#[derive(Clone, Debug)]
pub struct ResourceSlotInfo {
    pub name: String,
    pub resource_type: RenderResourceType,
}

impl ResourceSlotInfo {
    pub fn new(name: String, resource_type: RenderResourceType) -> (r: Self)
        ensures
            r.name == name,
            r.resource_type == resource_type,
    {
        ResourceSlotInfo { name, resource_type }
    }
}

/// The texture a pass attachment renders into: either still named after a
/// node input, or already resolved to a texture.
#[derive(Clone, Debug)]
pub enum TextureAttachment {
    Input(String),
    Id(TextureId),
}

#[derive(Clone, Debug)]
pub struct ColorAttachment {
    pub attachment: TextureAttachment,
}

#[derive(Clone, Debug)]
pub struct DepthStencilAttachment {
    pub attachment: TextureAttachment,
}

/// The render targets of a pass.
#[derive(Clone, Debug)]
pub struct PassDescriptor {
    pub color_attachments: Vec<ColorAttachment>,
    pub depth_stencil_attachment: Option<DepthStencilAttachment>,
}

/// The texture resource supplied at position `k` of a node's inputs, if any.
pub open spec fn input_texture(input: Seq<Option<RenderResource>>, k: int) -> Option<TextureId> {
    if 0 <= k < input.len() {
        match input[k] {
            Some(res) => res.texture_spec(),
            None => None,
        }
    } else {
        None
    }
}

/// Looks up the texture supplied at position `k` of a node's inputs.
pub fn get_input_texture(input: &Vec<Option<RenderResource>>, k: usize) -> (r: Option<TextureId>)
    ensures
        r == input_texture(input@, k as int),
{
    if k < input.len() {
        match &input[k] {
            Some(res) => res.get_texture(),
            None => None,
        }
    } else {
        None
    }
}

} // verus!
