use inochi2d::gl::{Framebuffer, Program, Texture, Vbo};
use inochi2d::glow::{Context, GlCall, NativeProgram, NativeTexture, FRAMEBUFFER, TEXTURE_2D, VERTEX_SHADER};

#[test]
fn program_building_records_calls() {
    let mut gl = Context::new();
    let b = Program::builder(&mut gl).unwrap();
    assert_eq!(b.program, NativeProgram(1));
    let b = b.shader(&mut gl, VERTEX_SHADER, "void main() {}").unwrap();
    let p = b.link(&mut gl).unwrap();
    p.use_(&mut gl);
    assert_eq!(gl.calls.len(), 1 + 6 + 2 + 1);
    assert!(matches!(gl.calls[1], GlCall::CreateShader(s, VERTEX_SHADER) if s.0 == 2));
    assert!(matches!(gl.calls.last(), Some(GlCall::UseProgram(Some(NativeProgram(1))))));
    let loc = p.get_uniform_location("ratio").unwrap();
    assert_eq!(loc.name, "ratio");
}

#[test]
fn textures_and_framebuffers() {
    let mut gl = Context::new();
    let t = Texture::from_data(&mut gl, 4, 4, None).unwrap();
    assert_eq!(t.texture, NativeTexture(1));
    assert_eq!(gl.calls.len(), 7);
    let f = Framebuffer::new(&mut gl).unwrap();
    f.attach_texture(&mut gl, &t);
    assert!(matches!(gl.calls.last(), Some(GlCall::BindFramebuffer(FRAMEBUFFER, None))));
    t.resize(&mut gl, 8, 8);
    assert!(matches!(gl.calls.last(), Some(GlCall::TexImage2D(TEXTURE_2D, 8, 8, None))));
    let mut gl2 = Context::new();
    Texture::from_data(&mut gl2, 1, 1, Some(vec![0; 4])).unwrap();
    assert_eq!(gl2.calls.len(), 5);
}

#[test]
fn names_run_out() {
    let mut gl = Context::new();
    gl.next_name = u32::MAX;
    assert!(Program::builder(&mut gl).is_err());
    assert!(gl.calls.is_empty());
}

#[test]
fn vbo_fills_then_uploads() {
    let mut v: Vbo<i32> = Vbo::new();
    v.extend_from_slice(&[1, 2]);
    v.extend(vec![3]);
    assert_eq!(v.len(), 3);
    let mut gl = Context::new();
    v.upload(&mut gl, inochi2d::glow::ARRAY_BUFFER, inochi2d::glow::STATIC_DRAW).unwrap();
    assert!(matches!(gl.calls.last(), Some(GlCall::BufferDataFixed(_, d, _)) if d == &vec![1, 2, 3]));
    let w: Vbo<u16> = Vbo::from(vec![1, 2]);
    assert_eq!(w.len(), 2);
}
