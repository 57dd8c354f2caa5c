//! Device objects: programs, textures, framebuffers and vertex buffers, each
//! made and used through calls recorded on a [`Context`].
use crate::glow::{
    Context, GlCall, NativeBuffer, NativeFramebuffer, NativeProgram, NativeShader, NativeTexture,
    NativeUniformLocation, CLAMP_TO_EDGE, COLOR_ATTACHMENT0, FRAMEBUFFER, LINEAR, TEXTURE_2D,
    TEXTURE_MAG_FILTER, TEXTURE_MIN_FILTER, TEXTURE_WRAP_S, TEXTURE_WRAP_T,
};
use vstd::prelude::*;

verus! {

/// What a creation call records and hands out: a fresh name, or an error once
/// all names are used.
pub open spec fn created<T>(
    old_gl: Context,
    new_gl: Context,
    r: Result<T, String>,
    name_of: spec_fn(T) -> u32,
    calls: spec_fn(u32) -> Seq<GlCall>,
) -> bool {
    &&& new_gl.wf()
    &&& match r {
        Ok(v) => {
            &&& old_gl.next_name < u32::MAX
            &&& name_of(v) == old_gl.next_name
            &&& new_gl.next_name == old_gl.next_name + 1
            &&& new_gl.calls@ == old_gl.calls@ + calls(old_gl.next_name)
        },
        Err(_) => old_gl.next_name == u32::MAX && new_gl.next_name == old_gl.next_name
            && new_gl.calls@ == old_gl.calls@,
    }
}

fn out_of_names() -> String {
    "no device object name is left".to_owned()
}

/// An offscreen render target.
pub struct Framebuffer {
    pub fbo: NativeFramebuffer,
}

impl Framebuffer {
    /// Creates a framebuffer.
    pub fn new(gl: &mut Context) -> (r: Result<Framebuffer, String>)
        requires
            old(gl).wf(),
        ensures
            created(
                *old(gl),
                *final(gl),
                r,
                |f: Framebuffer| f.fbo.0,
                |n: u32| seq![GlCall::CreateFramebuffer(NativeFramebuffer(n))],
            ),
    {
        match gl.create_name() {
            Some(n) => {
                let fbo = NativeFramebuffer(n);
                gl.push(GlCall::CreateFramebuffer(fbo));
                proof {
                    assert(gl.calls@ =~= old(gl).calls@ + seq![GlCall::CreateFramebuffer(fbo)]);
                }
                Ok(Framebuffer { fbo })
            },
            None => Err(out_of_names()),
        }
    }

    /// Renders into `texture` from now on; the device must report the
    /// framebuffer complete. The default framebuffer is bound afterwards.
    pub fn attach_texture(&self, gl: &mut Context, texture: &Texture)
        ensures
            final(gl).next_name == old(gl).next_name,
            final(gl).calls@ == old(gl).calls@ + seq![
                GlCall::BindFramebuffer(FRAMEBUFFER, Some(self.fbo)),
                GlCall::FramebufferTexture2D(
                    FRAMEBUFFER,
                    COLOR_ATTACHMENT0,
                    TEXTURE_2D,
                    texture.texture,
                    0,
                ),
                GlCall::RequireFramebufferComplete(FRAMEBUFFER),
                GlCall::BindFramebuffer(FRAMEBUFFER, None),
            ],
    {
        self.bind(gl);
        gl.push(
            GlCall::FramebufferTexture2D(
                FRAMEBUFFER,
                COLOR_ATTACHMENT0,
                TEXTURE_2D,
                texture.texture,
                0,
            ),
        );
        gl.push(GlCall::RequireFramebufferComplete(FRAMEBUFFER));
        gl.push(GlCall::BindFramebuffer(FRAMEBUFFER, None));
        proof {
            assert(gl.calls@ =~= old(gl).calls@ + seq![
                GlCall::BindFramebuffer(FRAMEBUFFER, Some(self.fbo)),
                GlCall::FramebufferTexture2D(
                    FRAMEBUFFER,
                    COLOR_ATTACHMENT0,
                    TEXTURE_2D,
                    texture.texture,
                    0,
                ),
                GlCall::RequireFramebufferComplete(FRAMEBUFFER),
                GlCall::BindFramebuffer(FRAMEBUFFER, None),
            ]);
        }
    }

    /// Renders into this framebuffer from now on.
    pub fn bind(&self, gl: &mut Context)
        ensures
            final(gl).next_name == old(gl).next_name,
            final(gl).calls@ == old(gl).calls@.push(
                GlCall::BindFramebuffer(FRAMEBUFFER, Some(self.fbo)),
            ),
    {
        gl.push(GlCall::BindFramebuffer(FRAMEBUFFER, Some(self.fbo)));
    }
}

/// A shader program being put together.
pub struct ProgramBuilder {
    pub program: NativeProgram,
}

/// A linked shader program.
pub struct Program {
    pub program: NativeProgram,
}

impl Program {
    /// Starts a program.
    pub fn builder(gl: &mut Context) -> (r: Result<ProgramBuilder, String>)
        requires
            old(gl).wf(),
        ensures
            created(
                *old(gl),
                *final(gl),
                r,
                |b: ProgramBuilder| b.program.0,
                |n: u32| seq![GlCall::CreateProgram(NativeProgram(n))],
            ),
    {
        match gl.create_name() {
            Some(n) => {
                let program = NativeProgram(n);
                gl.push(GlCall::CreateProgram(program));
                proof {
                    assert(gl.calls@ =~= old(gl).calls@ + seq![GlCall::CreateProgram(program)]);
                }
                Ok(ProgramBuilder { program })
            },
            None => Err(out_of_names()),
        }
    }

    /// Makes this program the current one.
    pub fn use_(&self, gl: &mut Context)
        ensures
            final(gl).next_name == old(gl).next_name,
            final(gl).calls@ == old(gl).calls@.push(GlCall::UseProgram(Some(self.program))),
    {
        gl.push(GlCall::UseProgram(Some(self.program)));
    }

    /// The uniform of this program named `location`.
    pub fn get_uniform_location(&self, location: &'static str) -> (r: Option<NativeUniformLocation>)
        ensures
            r == Some(NativeUniformLocation { program: self.program, name: location }),
    {
        Some(NativeUniformLocation { program: self.program, name: location })
    }
}

/// The calls that add a shader of kind `type_` and source `data` to `program`.
pub open spec fn shader_calls(
    program: NativeProgram,
    shader: NativeShader,
    type_: u32,
    data: &'static str,
) -> Seq<GlCall> {
    seq![
        GlCall::CreateShader(shader, type_),
        GlCall::ShaderSource(shader, data),
        GlCall::CompileShader(shader),
        GlCall::RequireCompiled(shader),
        GlCall::AttachShader(program, shader),
        GlCall::DeleteShader(shader),
    ]
}

impl ProgramBuilder {
    /// Compiles a shader of kind `type_` from `data` and attaches it; the
    /// device must report the compilation successful.
    pub fn shader(self, gl: &mut Context, type_: u32, data: &'static str) -> (r: Result<
        ProgramBuilder,
        String,
    >)
        requires
            old(gl).wf(),
        ensures
            created(
                *old(gl),
                *final(gl),
                r,
                |b: ProgramBuilder| old(gl).next_name,
                |n: u32| shader_calls(self.program, NativeShader(n), type_, data),
            ),
            r matches Ok(b) ==> b.program == self.program,
    {
        match gl.create_name() {
            Some(n) => {
                let shader = NativeShader(n);
                gl.push(GlCall::CreateShader(shader, type_));
                gl.push(GlCall::ShaderSource(shader, data));
                gl.push(GlCall::CompileShader(shader));
                gl.push(GlCall::RequireCompiled(shader));
                gl.push(GlCall::AttachShader(self.program, shader));
                gl.push(GlCall::DeleteShader(shader));
                proof {
                    assert(gl.calls@ =~= old(gl).calls@ + shader_calls(
                        self.program,
                        shader,
                        type_,
                        data,
                    ));
                }
                Ok(self)
            },
            None => Err(out_of_names()),
        }
    }

    /// Links the program; the device must report the link successful.
    pub fn link(self, gl: &mut Context) -> (r: Result<Program, String>)
        ensures
            final(gl).next_name == old(gl).next_name,
            final(gl).calls@ == old(gl).calls@ + seq![
                GlCall::LinkProgram(self.program),
                GlCall::RequireLinked(self.program),
            ],
            r matches Ok(p) && p.program == self.program,
    {
        gl.push(GlCall::LinkProgram(self.program));
        gl.push(GlCall::RequireLinked(self.program));
        proof {
            assert(gl.calls@ =~= old(gl).calls@ + seq![
                GlCall::LinkProgram(self.program),
                GlCall::RequireLinked(self.program),
            ]);
        }
        Ok(Program { program: self.program })
    }
}

/// A device texture.
pub struct Texture {
    pub texture: NativeTexture,
}

/// The calls that set up texture `t` of the given size, with `data` as its
/// RGBA pixels (none: storage only, clamped at the edges).
pub open spec fn texture_setup_calls(
    t: NativeTexture,
    width: u32,
    height: u32,
    data: Option<Vec<u8>>,
) -> Seq<GlCall> {
    seq![
        GlCall::CreateTexture(t),
        GlCall::BindTexture(TEXTURE_2D, Some(t)),
        GlCall::TexParameteri(TEXTURE_2D, TEXTURE_MIN_FILTER, LINEAR as i32),
        GlCall::TexParameteri(TEXTURE_2D, TEXTURE_MAG_FILTER, LINEAR as i32),
    ] + if data is None {
        seq![
            GlCall::TexParameteri(TEXTURE_2D, TEXTURE_WRAP_S, CLAMP_TO_EDGE as i32),
            GlCall::TexParameteri(TEXTURE_2D, TEXTURE_WRAP_T, CLAMP_TO_EDGE as i32),
        ]
    } else {
        Seq::empty()
    } + seq![GlCall::TexImage2D(TEXTURE_2D, width as i32, height as i32, data)]
}

impl Texture {
    /// Creates a texture of `width` by `height` pixels holding `data`.
    pub fn from_data(gl: &mut Context, width: u32, height: u32, data: Option<Vec<u8>>) -> (r:
        Result<Texture, String>)
        requires
            old(gl).wf(),
            width <= i32::MAX,
            height <= i32::MAX,
        ensures
            created(
                *old(gl),
                *final(gl),
                r,
                |t: Texture| t.texture.0,
                |n: u32| texture_setup_calls(NativeTexture(n), width, height, data),
            ),
    {
        let n = match gl.create_name() {
            Some(n) => n,
            None => return Err(out_of_names()),
        };
        let texture = NativeTexture(n);
        let ghost d = data;
        gl.push(GlCall::CreateTexture(texture));
        gl.push(GlCall::BindTexture(TEXTURE_2D, Some(texture)));
        gl.push(GlCall::TexParameteri(TEXTURE_2D, TEXTURE_MIN_FILTER, LINEAR as i32));
        gl.push(GlCall::TexParameteri(TEXTURE_2D, TEXTURE_MAG_FILTER, LINEAR as i32));
        if data.is_none() {
            gl.push(GlCall::TexParameteri(TEXTURE_2D, TEXTURE_WRAP_S, CLAMP_TO_EDGE as i32));
            gl.push(GlCall::TexParameteri(TEXTURE_2D, TEXTURE_WRAP_T, CLAMP_TO_EDGE as i32));
        }
        gl.push(GlCall::TexImage2D(TEXTURE_2D, width as i32, height as i32, data));
        proof {
            assert(gl.calls@ =~= old(gl).calls@ + texture_setup_calls(texture, width, height, d));
        }
        Ok(Texture { texture })
    }

    /// Makes this the current texture.
    pub fn bind(&self, gl: &mut Context)
        ensures
            final(gl).next_name == old(gl).next_name,
            final(gl).calls@ == old(gl).calls@.push(
                GlCall::BindTexture(TEXTURE_2D, Some(self.texture)),
            ),
    {
        gl.push(GlCall::BindTexture(TEXTURE_2D, Some(self.texture)));
    }

    /// Gives this texture new, uninitialised storage of the given size.
    pub fn resize(&self, gl: &mut Context, width: i32, height: i32)
        ensures
            final(gl).next_name == old(gl).next_name,
            final(gl).calls@ == old(gl).calls@ + seq![
                GlCall::BindTexture(TEXTURE_2D, Some(self.texture)),
                GlCall::TexImage2D(TEXTURE_2D, width, height, None),
            ],
    {
        self.bind(gl);
        gl.push(GlCall::TexImage2D(TEXTURE_2D, width, height, None));
        proof {
            assert(gl.calls@ =~= old(gl).calls@ + seq![
                GlCall::BindTexture(TEXTURE_2D, Some(self.texture)),
                GlCall::TexImage2D(TEXTURE_2D, width, height, None),
            ]);
        }
    }
}

/// A vertex or index buffer: filled on the host, then uploaded once.
pub enum Vbo<T: Copy> {
    Buffering(Vec<T>),
    Uploaded(NativeBuffer),
}

impl<T: Copy> Vbo<T> {
    /// What the buffer holds while it is filled.
    pub open spec fn contents(&self) -> Seq<T> {
        match self {
            Vbo::Buffering(v) => v@,
            Vbo::Uploaded(_) => Seq::empty(),
        }
    }

    /// An empty buffer.
    pub fn new() -> (r: Vbo<T>)
        ensures
            r is Buffering,
            r.contents() == Seq::<T>::empty(),
    {
        Vbo::Buffering(Vec::new())
    }

    /// A buffer holding `vec`.
    pub fn from(vec: Vec<T>) -> (r: Vbo<T>)
        ensures
            r is Buffering,
            r.contents() == vec@,
    {
        Vbo::Buffering(vec)
    }

    /// The number of elements held.
    pub fn len(&self) -> (r: usize)
        requires
            *self is Buffering,
        ensures
            r == self.contents().len(),
    {
        match self {
            Vbo::Buffering(vec) => vec.len(),
            Vbo::Uploaded(_) => 0,
        }
    }

    /// Appends the elements of `other`.
    pub fn extend_from_slice(&mut self, other: &[T])
        requires
            *old(self) is Buffering,
        ensures
            *final(self) is Buffering,
            final(self).contents() == old(self).contents() + other@,
    {
        match self {
            Vbo::Buffering(vec) => {
                let ghost start = vec@;
                let mut i: usize = 0;
                while i < other.len()
                    invariant
                        i <= other@.len(),
                        vec@ == start + other@.take(i as int),
                    decreases other@.len() - i,
                {
                    vec.push(other[i]);
                    i = i + 1;
                    proof {
                        assert(vec@ =~= start + other@.take(i as int));
                    }
                }
                proof {
                    assert(other@.take(i as int) =~= other@);
                }
            },
            Vbo::Uploaded(_) => {},
        }
    }

    /// Appends the elements of `other`.
    pub fn extend(&mut self, other: Vec<T>)
        requires
            *old(self) is Buffering,
        ensures
            *final(self) is Buffering,
            final(self).contents() == old(self).contents() + other@,
    {
        self.extend_from_slice(other.as_slice());
    }
}

/// What an upload of `contents` to `target` records: a new buffer named
/// `n`, bound, and filled by the last call, which `fills` tells apart.
pub open spec fn uploaded(old_gl: Context, new_gl: Context, target: u32, n: u32) -> bool {
    &&& new_gl.wf()
    &&& old_gl.next_name < u32::MAX
    &&& n == old_gl.next_name
    &&& new_gl.next_name == n + 1
    &&& new_gl.calls@.len() == old_gl.calls@.len() + 3
    &&& new_gl.calls@.take(old_gl.calls@.len() + 2int) == old_gl.calls@ + seq![
        GlCall::CreateBuffer(NativeBuffer(n)),
        GlCall::BindBuffer(target, Some(NativeBuffer(n))),
    ]
}

impl Vbo<i32> {
    /// Uploads the fixed-point contents to a new device buffer bound to `target`.
    pub fn upload(&mut self, gl: &mut Context, target: u32, usage: u32) -> (r: Result<(), String>)
        requires
            *old(self) is Buffering,
            old(gl).wf(),
        ensures
            final(gl).wf(),
            match r {
                Ok(_) => {
                    &&& uploaded(*old(gl), *final(gl), target, old(gl).next_name)
                    &&& final(gl).calls@.last() matches GlCall::BufferDataFixed(t, d, u) && t
                        == target && u == usage && d@ == old(self).contents()
                    &&& *final(self) == Vbo::<i32>::Uploaded(NativeBuffer(old(gl).next_name))
                },
                Err(_) => old(gl).next_name == u32::MAX && *final(gl) == *old(gl) && *final(self)
                    == *old(self),
            },
    {
        let n = match gl.create_name() {
            Some(n) => n,
            None => return Err(out_of_names()),
        };
        let buffer = NativeBuffer(n);
        let mut data: Vec<i32> = Vec::new();
        match self {
            Vbo::Buffering(vec) => data.append(vec),
            Vbo::Uploaded(_) => {},
        }
        *self = Vbo::Uploaded(buffer);
        gl.push(GlCall::CreateBuffer(buffer));
        gl.push(GlCall::BindBuffer(target, Some(buffer)));
        proof {
            assert(gl.calls@ =~= old(gl).calls@ + seq![
                GlCall::CreateBuffer(buffer),
                GlCall::BindBuffer(target, Some(buffer)),
            ]);
        }
        gl.push(GlCall::BufferDataFixed(target, data, usage));
        proof {
            assert(gl.calls@.take(old(gl).calls@.len() + 2int) =~= old(gl).calls@ + seq![
                GlCall::CreateBuffer(buffer),
                GlCall::BindBuffer(target, Some(buffer)),
            ]);
        }
        Ok(())
    }

    /// Overwrites the device buffer from element `offset` on with `data`.
    pub fn update(&self, gl: &mut Context, offset: i32, data: Vec<i32>)
        ensures
            final(gl).next_name == old(gl).next_name,
            final(gl).calls@ == old(gl).calls@.push(
                GlCall::BufferSubDataFixed(crate::glow::ARRAY_BUFFER, offset, data),
            ),
    {
        gl.push(GlCall::BufferSubDataFixed(crate::glow::ARRAY_BUFFER, offset, data));
    }
}

impl Vbo<u16> {
    /// Uploads the indices to a new device buffer bound to `target`.
    pub fn upload(&mut self, gl: &mut Context, target: u32, usage: u32) -> (r: Result<(), String>)
        requires
            *old(self) is Buffering,
            old(gl).wf(),
        ensures
            final(gl).wf(),
            match r {
                Ok(_) => {
                    &&& uploaded(*old(gl), *final(gl), target, old(gl).next_name)
                    &&& final(gl).calls@.last() matches GlCall::BufferDataShort(t, d, u) && t
                        == target && u == usage && d@ == old(self).contents()
                    &&& *final(self) == Vbo::<u16>::Uploaded(NativeBuffer(old(gl).next_name))
                },
                Err(_) => old(gl).next_name == u32::MAX && *final(gl) == *old(gl) && *final(self)
                    == *old(self),
            },
    {
        let n = match gl.create_name() {
            Some(n) => n,
            None => return Err(out_of_names()),
        };
        let buffer = NativeBuffer(n);
        let mut data: Vec<u16> = Vec::new();
        match self {
            Vbo::Buffering(vec) => data.append(vec),
            Vbo::Uploaded(_) => {},
        }
        *self = Vbo::Uploaded(buffer);
        gl.push(GlCall::CreateBuffer(buffer));
        gl.push(GlCall::BindBuffer(target, Some(buffer)));
        proof {
            assert(gl.calls@ =~= old(gl).calls@ + seq![
                GlCall::CreateBuffer(buffer),
                GlCall::BindBuffer(target, Some(buffer)),
            ]);
        }
        gl.push(GlCall::BufferDataShort(target, data, usage));
        proof {
            assert(gl.calls@.take(old(gl).calls@.len() + 2int) =~= old(gl).calls@ + seq![
                GlCall::CreateBuffer(buffer),
                GlCall::BindBuffer(target, Some(buffer)),
            ]);
        }
        Ok(())
    }
}

} // verus!
