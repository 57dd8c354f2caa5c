//! The puppet data model: metadata, the scene tree of nodes, and the
//! parameters. Fractional quantities are 16.16 fixed point.
use crate::codec::CompressedTexture;
use crate::param::Param;
use vstd::prelude::*;

verus! {

/// Descriptive metadata of a puppet.
#[derive(Debug, Clone)]
pub struct Meta {
    pub name: Option<String>,
    pub version: String,
    pub rigger: Option<String>,
    pub artist: Option<String>,
    pub rights: Option<String>,
    pub copyright: Option<String>,
    pub license_url: Option<String>,
    pub contact: Option<String>,
    pub reference: Option<String>,
    pub thumbnail_id: u32,
    pub preserve_pixels: bool,
}

/// Physics constants of a puppet.
#[derive(Debug, Clone, Copy)]
pub struct Physics {
    pub pixels_per_meter: i32,
    pub gravity: i32,
}

/// Translation, rotation and scale of a node relative to its parent.
#[derive(Debug, Clone, Copy)]
pub struct Transform {
    pub trans: [i32; 3],
    pub rot: [i32; 3],
    pub scale: [i32; 2],
}

/// The geometry of a part: vertex positions and texture coordinates (two
/// values per vertex), and triangle indices into its own vertices.
#[derive(Debug)]
pub struct Mesh {
    pub verts: Vec<i32>,
    pub uvs: Vec<i32>,
    pub indices: Vec<u16>,
    pub origin: [i32; 2],
}

#[derive(Debug, Clone, Copy, PartialEq, Eq, Structural)]
pub enum MaskMode {
    /// Draw only where the mask sources drew.
    Mask,
}

/// A reference to a part whose shape clips another part.
#[derive(Debug, Clone, Copy, PartialEq, Eq, Structural)]
pub struct Mask {
    pub source: u32,
    pub mode: MaskMode,
}

#[derive(Debug, Clone, Copy, PartialEq, Eq, Structural)]
pub enum ModelType {
    SpringPendulum,
}

#[derive(Debug, Clone, Copy, PartialEq, Eq, Structural)]
pub enum MapMode {
    XY,
}

#[derive(Debug, Clone, Copy, PartialEq, Eq, Structural)]
pub enum BlendMode {
    Multiply,
    Normal,
    ColorDodge,
    LinearDodge,
    Screen,
    ClipToLower,
}

/// What a part adds to a node.
#[derive(Debug)]
pub struct PartData {
    pub textures: [usize; 3],
    pub mesh: Mesh,
    pub blend_mode: BlendMode,
    pub opacity: i32,
    pub tint: [i32; 3],
    pub screen_tint: [i32; 3],
    pub mask_threshold: i32,
    pub masks: Vec<Mask>,
    pub psd_layer_path: String,
}

/// What a composite adds to a node.
#[derive(Debug)]
pub struct CompositeData {
    pub blend_mode: BlendMode,
    pub opacity: i32,
    pub tint: [i32; 3],
    pub screen_tint: [i32; 3],
    pub mask_threshold: i32,
}

/// What a simple-physics node adds to a node (carried, not simulated).
#[derive(Debug)]
pub struct PhysicsData {
    pub param: u32,
    pub model_type: ModelType,
    pub map_mode: MapMode,
    pub gravity: i32,
    pub length: i32,
    pub frequency: i32,
    pub angle_damping: i32,
    pub length_damping: i32,
    pub output_scale: [i32; 2],
}

/// The kind of a node and what it adds.
#[derive(Debug)]
pub enum NodeKind {
    Group,
    Part(PartData),
    Composite(CompositeData),
    SimplePhysics(PhysicsData),
}

/// A node of the scene tree. `uuid` is unique across the tree; `zsort` is
/// relative to the parent's.
#[derive(Debug)]
pub struct Node {
    pub uuid: u32,
    pub name: String,
    pub enabled: bool,
    pub zsort: i32,
    pub transform: Transform,
    pub lock_to_root: bool,
    pub children: Vec<Node>,
    pub kind: NodeKind,
}

impl Node {
    pub fn uuid(&self) -> (r: u32)
        ensures
            r == self.uuid,
    {
        self.uuid
    }

    pub fn enabled(&self) -> (r: bool)
        ensures
            r == self.enabled,
    {
        self.enabled
    }

    pub fn zsort(&self) -> (r: i32)
        ensures
            r == self.zsort,
    {
        self.zsort
    }
}

/// A puppet: metadata, the root of the scene tree, and the parameters. The
/// automation and animation blocks are kept as raw JSON text.
#[derive(Debug)]
pub struct Puppet {
    pub meta: Meta,
    pub physics: Physics,
    pub nodes: Node,
    pub automation: Option<String>,
    pub param: Vec<Param>,
    pub animations: Option<String>,
}

/// A decoded texture.
#[derive(Debug)]
pub enum Texture {
    Rgba { width: u32, height: u32, data: Vec<u8> },
}

/// A loaded model: the puppet and its texture payloads, whose positions are
/// the indices that parts refer to.
#[derive(Debug)]
pub struct Model {
    pub puppet: Puppet,
    pub textures: Vec<CompressedTexture>,
}

} // verus!
