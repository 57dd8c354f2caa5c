//! The GPU device as a command sink.
//!
//! The library does not talk to a device: it records, in order, the calls
//! that it would make, on a [`Context`]. Object names are handed out by the
//! context itself, so that later calls can refer to objects created earlier;
//! whoever runs the recorded calls on a real device maps these names onto the
//! device's own. Calls that check a device result (`RequireCompiled`, ...)
//! fail the run where the device reports a failure.
use vstd::prelude::*;

verus! {

pub const ONE: u32 = 1;
pub const TRIANGLES: u32 = 0x0004;
pub const TRIANGLE_STRIP: u32 = 0x0005;
pub const ALWAYS: u32 = 0x0207;
pub const EQUAL: u32 = 0x0202;
pub const ONE_MINUS_SRC_COLOR: u32 = 0x0301;
pub const ONE_MINUS_SRC_ALPHA: u32 = 0x0303;
pub const DST_ALPHA: u32 = 0x0304;
pub const DST_COLOR: u32 = 0x0306;
pub const STENCIL_TEST: u32 = 0x0B90;
pub const BLEND: u32 = 0x0BE2;
pub const TEXTURE_2D: u32 = 0x0DE1;
pub const UNSIGNED_BYTE: u32 = 0x1401;
pub const UNSIGNED_SHORT: u32 = 0x1403;
pub const FIXED: u32 = 0x140C;
pub const RGBA: u32 = 0x1908;
pub const KEEP: u32 = 0x1E00;
pub const REPLACE: u32 = 0x1E01;
pub const LINEAR: u32 = 0x2601;
pub const TEXTURE_MAG_FILTER: u32 = 0x2800;
pub const TEXTURE_MIN_FILTER: u32 = 0x2801;
pub const TEXTURE_WRAP_S: u32 = 0x2802;
pub const TEXTURE_WRAP_T: u32 = 0x2803;
pub const CLAMP_TO_EDGE: u32 = 0x812F;
pub const ARRAY_BUFFER: u32 = 0x8892;
pub const ELEMENT_ARRAY_BUFFER: u32 = 0x8893;
pub const STATIC_DRAW: u32 = 0x88E4;
pub const DYNAMIC_DRAW: u32 = 0x88E8;
pub const FRAGMENT_SHADER: u32 = 0x8B30;
pub const VERTEX_SHADER: u32 = 0x8B31;
pub const FRAMEBUFFER: u32 = 0x8D40;
pub const COLOR_ATTACHMENT0: u32 = 0x8CE0;
pub const STENCIL_BUFFER_BIT: u32 = 0x00000400;
pub const COLOR_BUFFER_BIT: u32 = 0x00004000;

#[derive(Debug, Clone, Copy, PartialEq, Eq, Structural)]
pub struct NativeProgram(pub u32);

#[derive(Debug, Clone, Copy, PartialEq, Eq, Structural)]
pub struct NativeShader(pub u32);

#[derive(Debug, Clone, Copy, PartialEq, Eq, Structural)]
pub struct NativeTexture(pub u32);

#[derive(Debug, Clone, Copy, PartialEq, Eq, Structural)]
pub struct NativeBuffer(pub u32);

#[derive(Debug, Clone, Copy, PartialEq, Eq, Structural)]
pub struct NativeFramebuffer(pub u32);

/// A uniform of a program, resolved by name when the calls are run.
#[derive(Debug, Clone, Copy)]
pub struct NativeUniformLocation {
    pub program: NativeProgram,
    pub name: &'static str,
}

/// One recorded device call. Vertex data is 16.16 fixed point (`FIXED`), and
/// so are the values of uniforms.
#[derive(Debug)]
pub enum GlCall {
    Enable(u32),
    Disable(u32),
    Viewport(i32, i32, i32, i32),
    Clear(u32),
    StencilOp(u32, u32, u32),
    StencilFunc(u32, i32, u32),
    StencilMask(u32),
    ColorMask(bool, bool, bool, bool),
    BlendFunc(u32, u32),
    EnableVertexAttribArray(u32),
    VertexAttribPointer(u32, i32, u32, bool, i32, u32),
    CreateBuffer(NativeBuffer),
    BindBuffer(u32, Option<NativeBuffer>),
    BufferDataFixed(u32, Vec<i32>, u32),
    BufferDataShort(u32, Vec<u16>, u32),
    BufferSubDataFixed(u32, i32, Vec<i32>),
    DrawArrays(u32, i32, i32),
    DrawElements(u32, i32, u32, i32),
    CreateTexture(NativeTexture),
    BindTexture(u32, Option<NativeTexture>),
    TexParameteri(u32, u32, i32),
    /// Target, width, height, and the RGBA pixels (none: storage only).
    TexImage2D(u32, i32, i32, Option<Vec<u8>>),
    CreateFramebuffer(NativeFramebuffer),
    BindFramebuffer(u32, Option<NativeFramebuffer>),
    FramebufferTexture2D(u32, u32, u32, NativeTexture, i32),
    RequireFramebufferComplete(u32),
    CreateShader(NativeShader, u32),
    ShaderSource(NativeShader, &'static str),
    CompileShader(NativeShader),
    RequireCompiled(NativeShader),
    DeleteShader(NativeShader),
    CreateProgram(NativeProgram),
    AttachShader(NativeProgram, NativeShader),
    LinkProgram(NativeProgram),
    RequireLinked(NativeProgram),
    UseProgram(Option<NativeProgram>),
    Uniform1(NativeUniformLocation, i32),
    Uniform2(NativeUniformLocation, i32, i32),
}

/// The recorder of device calls.
pub struct Context {
    pub calls: Vec<GlCall>,
    /// The names handed out so far are those from 1 up to, not including, this one.
    pub next_name: u32,
}

impl Context {
    pub open spec fn wf(&self) -> bool {
        self.next_name >= 1
    }

    /// A context that has recorded nothing and handed out no name.
    pub fn new() -> (r: Context)
        ensures
            r.wf(),
            r.calls@.len() == 0,
            r.next_name == 1,
    {
        Context { calls: Vec::new(), next_name: 1 }
    }

    /// Records `call`.
    pub fn push(&mut self, call: GlCall)
        ensures
            final(self).calls@ == old(self).calls@.push(call),
            final(self).next_name == old(self).next_name,
    {
        self.calls.push(call);
    }

    /// Hands out a fresh object name, or `None` once all are used.
    pub fn create_name(&mut self) -> (r: Option<u32>)
        requires
            old(self).wf(),
        ensures
            final(self).wf(),
            final(self).calls == old(self).calls,
            match r {
                Some(n) => n == old(self).next_name && final(self).next_name == n + 1,
                None => old(self).next_name == u32::MAX && final(self).next_name
                    == old(self).next_name,
            },
    {
        if self.next_name == u32::MAX {
            None
        } else {
            let n = self.next_name;
            self.next_name = n + 1;
            Some(n)
        }
    }
}

} // verus!
