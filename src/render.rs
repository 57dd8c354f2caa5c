//! The mask compositor: turns the render table, the draw order and the
//! current animation values into device calls.
//!
//! Redundant state changes are suppressed: the bound program and texture,
//! the blend function, the stencil-test flag and the active mask set are
//! each compared with the last value applied before a call is recorded.
use crate::gl::{Framebuffer, Program, Texture as GlTexture, Vbo};
use crate::glow::{
    Context, GlCall, NativeProgram, NativeTexture, NativeUniformLocation, ALWAYS, ARRAY_BUFFER,
    BLEND, COLOR_BUFFER_BIT, DST_ALPHA, DST_COLOR, DYNAMIC_DRAW, ELEMENT_ARRAY_BUFFER, EQUAL,
    FIXED, FRAGMENT_SHADER, KEEP, ONE, ONE_MINUS_SRC_ALPHA, ONE_MINUS_SRC_COLOR, REPLACE,
    STATIC_DRAW, STENCIL_BUFFER_BIT, STENCIL_TEST, TRIANGLES, TRIANGLE_STRIP, UNSIGNED_SHORT,
    VERTEX_SHADER,
};
use crate::codec::Error;
use crate::model::{BlendMode, Mask, Node, Texture};
use crate::param::{binding_wf, contribution, Anim, Binding, Channel, Param, ParamValues};
use crate::interp::unit_coord;
use crate::scene::{scene_matches, visit, visits_ok, FlatKind, Scene, SceneError};
use vstd::prelude::*;

verus! {

/// The blend factors of a blend mode.
pub open spec fn blend_spec(mode: BlendMode) -> (u32, u32) {
    match mode {
        BlendMode::Normal => (ONE, ONE_MINUS_SRC_ALPHA),
        BlendMode::Multiply => (DST_COLOR, ONE_MINUS_SRC_ALPHA),
        BlendMode::ColorDodge => (DST_COLOR, ONE),
        BlendMode::LinearDodge => (ONE, ONE),
        BlendMode::Screen => (ONE, ONE_MINUS_SRC_COLOR),
        BlendMode::ClipToLower => (DST_ALPHA, ONE_MINUS_SRC_ALPHA),
    }
}

/// The source and destination blend factors of `mode`.
pub fn blend_factors(mode: BlendMode) -> (r: (u32, u32))
    ensures
        r == blend_spec(mode),
{
    match mode {
        BlendMode::Normal => (ONE, ONE_MINUS_SRC_ALPHA),
        BlendMode::Multiply => (DST_COLOR, ONE_MINUS_SRC_ALPHA),
        BlendMode::ColorDodge => (DST_COLOR, ONE),
        BlendMode::LinearDodge => (ONE, ONE),
        BlendMode::Screen => (ONE, ONE_MINUS_SRC_COLOR),
        BlendMode::ClipToLower => (DST_ALPHA, ONE_MINUS_SRC_ALPHA),
    }
}

/// The number of stencil clears, that is of stencil rebuilds, among `calls`.
pub open spec fn stencil_clears(calls: Seq<GlCall>) -> nat
    decreases calls.len(),
{
    if calls.len() == 0 {
        0
    } else {
        stencil_clears(calls.drop_last()) + if calls.last() matches GlCall::Clear(m) && m
            == STENCIL_BUFFER_BIT {
            1nat
        } else {
            0nat
        }
    }
}

/// Whether drawing a part with mask set `masks` rebuilds the stencil buffer
/// when `prev` is the mask set applied last.
pub open spec fn needs_rebuild(prev: Seq<Mask>, masks: Seq<Mask>) -> bool {
    masks.len() > 0 && prev != masks
}

/// The mask set applied last after drawing a part with mask set `masks`.
pub open spec fn cache_after(prev: Seq<Mask>, masks: Seq<Mask>) -> Seq<Mask> {
    if needs_rebuild(prev, masks) {
        masks
    } else {
        prev
    }
}

/// The number of stencil rebuilds that drawing parts with the mask sets
/// `sets`, in order, makes, starting from the applied mask set `prev`.
pub open spec fn rebuilds(prev: Seq<Mask>, sets: Seq<Seq<Mask>>) -> nat
    decreases sets.len(),
{
    if sets.len() == 0 {
        0
    } else {
        (if needs_rebuild(prev, sets[0]) {
            1nat
        } else {
            0nat
        }) + rebuilds(cache_after(prev, sets[0]), sets.skip(1))
    }
}

/// Two consecutive parts with the same non-empty mask set rebuild the stencil
/// buffer once, unless it already holds that set; a part with a different
/// non-empty set after them rebuilds it again.
pub proof fn lemma_mask_cache(prev: Seq<Mask>, m: Seq<Mask>, other: Seq<Mask>)
    requires
        m.len() > 0,
        other.len() > 0,
        other != m,
    ensures
        rebuilds(prev, seq![m, m]) == if prev == m {
            0nat
        } else {
            1nat
        },
        rebuilds(prev, seq![m, m, other]) == if prev == m {
            1nat
        } else {
            2nat
        },
{
    let s2 = seq![m, m];
    let s3 = seq![m, m, other];
    assert(s2.skip(1) =~= seq![m]);
    assert(seq![m].skip(1) =~= Seq::<Seq<Mask>>::empty());
    assert(s3.skip(1) =~= seq![m, other]);
    assert(seq![m, other].skip(1) =~= seq![other]);
    assert(seq![other].skip(1) =~= Seq::<Seq<Mask>>::empty());
    let e = Seq::<Seq<Mask>>::empty();
    assert(cache_after(prev, m) == m);
    assert(seq![m][0] == m);
    assert(seq![other][0] == other);
    assert(rebuilds(m, e) == 0);
    assert(rebuilds(other, e) == 0);
    assert(rebuilds(m, seq![m]) == 0);
    assert(rebuilds(m, seq![other]) == 1);
    assert(rebuilds(m, seq![m, other]) == 1);
}

/// The device state applied last, compared before each state change.
pub struct DeviceState {
    pub program: Option<NativeProgram>,
    pub stencil: bool,
    pub blend: Option<(u32, u32)>,
    pub texture: Option<NativeTexture>,
    pub masks: Vec<Mask>,
}

impl DeviceState {
    /// Nothing applied yet.
    pub fn new() -> (r: DeviceState)
        ensures
            r.program is None,
            !r.stencil,
            r.blend is None,
            r.texture is None,
            r.masks@.len() == 0,
    {
        DeviceState { program: None, stencil: false, blend: None, texture: None, masks: Vec::new() }
    }
}

proof fn lemma_push_keeps_clears(calls: Seq<GlCall>, c: GlCall)
    requires
        !(c matches GlCall::Clear(m) && m == STENCIL_BUFFER_BIT),
    ensures
        stencil_clears(calls.push(c)) == stencil_clears(calls),
{
    assert(calls.push(c).drop_last() =~= calls);
}

proof fn lemma_push_clear(calls: Seq<GlCall>)
    ensures
        stencil_clears(calls.push(GlCall::Clear(STENCIL_BUFFER_BIT))) == stencil_clears(calls) + 1,
{
    assert(calls.push(GlCall::Clear(STENCIL_BUFFER_BIT)).drop_last() =~= calls);
}

/// Records `c`, which is no stencil clear.
fn record(gl: &mut Context, c: GlCall)
    requires
        !(c matches GlCall::Clear(m) && m == STENCIL_BUFFER_BIT),
    ensures
        final(gl).calls@ == old(gl).calls@.push(c),
        final(gl).next_name == old(gl).next_name,
        stencil_clears(final(gl).calls@) == stencil_clears(old(gl).calls@),
{
    proof {
        lemma_push_keeps_clears(gl.calls@, c);
    }
    gl.push(c);
}

/// Turns the stencil test on or off, unless it already is.
fn set_stencil(gl: &mut Context, state: &mut DeviceState, stencil: bool)
    ensures
        final(state).stencil == stencil,
        final(state).program == old(state).program,
        final(state).blend == old(state).blend,
        final(state).texture == old(state).texture,
        final(state).masks == old(state).masks,
        final(gl).next_name == old(gl).next_name,
        old(state).stencil == stencil ==> final(gl).calls@ == old(gl).calls@,
        old(state).stencil != stencil ==> final(gl).calls@ == old(gl).calls@.push(
            if stencil {
                GlCall::Enable(STENCIL_TEST)
            } else {
                GlCall::Disable(STENCIL_TEST)
            },
        ),
        stencil_clears(final(gl).calls@) == stencil_clears(old(gl).calls@),
{
    if state.stencil == stencil {
        return;
    }
    if stencil {
        record(gl, GlCall::Enable(STENCIL_TEST));
    } else {
        record(gl, GlCall::Disable(STENCIL_TEST));
    }
    state.stencil = stencil;
}

/// Makes `program` current, unless it already is.
fn use_program(gl: &mut Context, state: &mut DeviceState, program: NativeProgram)
    ensures
        final(state).program == Some(program),
        final(state).stencil == old(state).stencil,
        final(state).blend == old(state).blend,
        final(state).texture == old(state).texture,
        final(state).masks == old(state).masks,
        final(gl).next_name == old(gl).next_name,
        old(state).program == Some(program) ==> final(gl).calls@ == old(gl).calls@,
        old(state).program != Some(program) ==> final(gl).calls@ == old(gl).calls@.push(
            GlCall::UseProgram(Some(program)),
        ),
        stencil_clears(final(gl).calls@) == stencil_clears(old(gl).calls@),
{
    if state.program == Some(program) {
        return;
    }
    record(gl, GlCall::UseProgram(Some(program)));
    state.program = Some(program);
}

/// Binds `texture`, unless it already is.
fn bind_texture(gl: &mut Context, state: &mut DeviceState, texture: NativeTexture)
    ensures
        final(state).texture == Some(texture),
        final(state).program == old(state).program,
        final(state).stencil == old(state).stencil,
        final(state).blend == old(state).blend,
        final(state).masks == old(state).masks,
        final(gl).next_name == old(gl).next_name,
        old(state).texture == Some(texture) ==> final(gl).calls@ == old(gl).calls@,
        old(state).texture != Some(texture) ==> final(gl).calls@ == old(gl).calls@.push(
            GlCall::BindTexture(crate::glow::TEXTURE_2D, Some(texture)),
        ),
        stencil_clears(final(gl).calls@) == stencil_clears(old(gl).calls@),
{
    if state.texture == Some(texture) {
        return;
    }
    record(gl, GlCall::BindTexture(crate::glow::TEXTURE_2D, Some(texture)));
    state.texture = Some(texture);
}

/// Sets the blend function, unless it already is.
fn set_blend_mode(gl: &mut Context, state: &mut DeviceState, mode: (u32, u32))
    ensures
        final(state).blend == Some(mode),
        final(state).program == old(state).program,
        final(state).stencil == old(state).stencil,
        final(state).texture == old(state).texture,
        final(state).masks == old(state).masks,
        final(gl).next_name == old(gl).next_name,
        old(state).blend == Some(mode) ==> final(gl).calls@ == old(gl).calls@,
        old(state).blend != Some(mode) ==> final(gl).calls@ == old(gl).calls@.push(
            GlCall::BlendFunc(mode.0, mode.1),
        ),
        stencil_clears(final(gl).calls@) == stencil_clears(old(gl).calls@),
{
    if state.blend == Some(mode) {
        return;
    }
    record(gl, GlCall::BlendFunc(mode.0, mode.1));
    state.blend = Some(mode);
}

/// Whether two mask sets are equal.
fn masks_eq(a: &Vec<Mask>, b: &Vec<Mask>) -> (r: bool)
    ensures
        r == (a@ == b@),
{
    if a.len() != b.len() {
        return false;
    }
    let mut i: usize = 0;
    while i < a.len()
        invariant
            a@.len() == b@.len(),
            i <= a@.len(),
            forall|k: int| 0 <= k < i ==> a@[k] == b@[k],
        decreases a@.len() - i,
    {
        if a[i] != b[i] {
            return false;
        }
        i = i + 1;
    }
    proof {
        assert(a@ =~= b@);
    }
    true
}

fn copy_masks(v: &Vec<Mask>) -> (r: Vec<Mask>)
    ensures
        r@ == v@,
{
    let mut r: Vec<Mask> = Vec::new();
    let mut i: usize = 0;
    while i < v.len()
        invariant
            i <= v@.len(),
            r@ == v@.take(i as int),
        decreases v@.len() - i,
    {
        r.push(v[i]);
        i = i + 1;
        proof {
            assert(r@ =~= v@.take(i as int));
        }
    }
    proof {
        assert(v@.take(i as int) =~= v@);
    }
    r
}

/// The sum of the values of the scalar animations of `channel` among `anims`.
pub open spec fn channel_sum(anims: Seq<Anim>, channel: Channel) -> int
    decreases anims.len(),
{
    if anims.len() == 0 {
        0
    } else {
        channel_sum(anims.drop_last(), channel) + match anims.last() {
            Anim::Scalar(c, v) => if c == channel {
                v as int
            } else {
                0
            },
            Anim::Deform(_) => 0,
        }
    }
}

/// The sum of offset `k` over the deformations among `anims` that have one.
pub open spec fn deform_sum(anims: Seq<Anim>, k: int) -> int
    decreases anims.len(),
{
    if anims.len() == 0 {
        0
    } else {
        deform_sum(anims.drop_last(), k) + match anims.last() {
            Anim::Deform(d) => if 0 <= k < d@.len() {
                d@[k] as int
            } else {
                0
            },
            Anim::Scalar(_, _) => 0,
        }
    }
}

/// The sums of the x and of the y translations among `anims`: every binding
/// adds its contribution, none replaces another's.
pub fn sum_translation(anims: &Vec<Anim>) -> (r: (i128, i128))
    ensures
        r.0 as int == channel_sum(anims@, Channel::TransformTX),
        r.1 as int == channel_sum(anims@, Channel::TransformTY),
        -0x8000_0000_0000_0000_0000_0000 <= r.0 <= 0x8000_0000_0000_0000_0000_0000,
        -0x8000_0000_0000_0000_0000_0000 <= r.1 <= 0x8000_0000_0000_0000_0000_0000,
{
    let mut tx: i128 = 0;
    let mut ty: i128 = 0;
    let count: usize = anims.len();
    let mut i: usize = 0;
    while i < count
        invariant
            i <= anims@.len(),
            count == anims@.len(),
            tx as int == channel_sum(anims@.take(i as int), Channel::TransformTX),
            ty as int == channel_sum(anims@.take(i as int), Channel::TransformTY),
            -0x8000_0000 * (i as int) <= tx <= 0x8000_0000 * (i as int),
            -0x8000_0000 * (i as int) <= ty <= 0x8000_0000 * (i as int),
        decreases anims@.len() - i,
    {
        proof {
            let t = anims@.take(i + 1);
            assert(t.drop_last() =~= anims@.take(i as int));
            assert(t.last() == anims@[i as int]);
        }
        match &anims[i] {
            Anim::Scalar(Channel::TransformTX, v) => tx = tx + *v as i128,
            Anim::Scalar(Channel::TransformTY, v) => ty = ty + *v as i128,
            _ => {},
        }
        i = i + 1;
    }
    proof {
        assert(anims@.take(i as int) =~= anims@);
    }
    (tx, ty)
}

/// `x` limited to the range of `i32`.
pub open spec fn clamp_i32(x: int) -> int {
    if x < i32::MIN {
        i32::MIN as int
    } else if x > i32::MAX {
        i32::MAX as int
    } else {
        x
    }
}

fn clamp_to_i32(x: i128) -> (r: i32)
    ensures
        r as int == clamp_i32(x as int),
{
    if x < i32::MIN as i128 {
        i32::MIN
    } else if x > i32::MAX as i128 {
        i32::MAX
    } else {
        x as i32
    }
}

/// The summed deformation offsets among `anims`, for `n` vertex values, each
/// limited to the range of `i32`.
pub fn sum_deform(anims: &Vec<Anim>, n: usize) -> (r: Vec<i32>)
    ensures
        r@.len() == n,
        forall|k: int| 0 <= k < n ==> #[trigger] r@[k] as int == clamp_i32(deform_sum(anims@, k)),
{
    let mut r: Vec<i32> = Vec::with_capacity(n);
    let mut k: usize = 0;
    while k < n
        invariant
            k <= n,
            r@.len() == k,
            forall|m: int| 0 <= m < k ==> #[trigger] r@[m] as int == clamp_i32(deform_sum(anims@, m)),
        decreases n - k,
    {
        let mut acc: i128 = 0;
        let count: usize = anims.len();
        let mut i: usize = 0;
        while i < count
            invariant
                i <= anims@.len(),
                count == anims@.len(),
                acc as int == deform_sum(anims@.take(i as int), k as int),
                -0x8000_0000 * (i as int) <= acc <= 0x8000_0000 * (i as int),
            decreases anims@.len() - i,
        {
            proof {
                let t = anims@.take(i + 1);
                assert(t.drop_last() =~= anims@.take(i as int));
                assert(t.last() == anims@[i as int]);
            }
            match &anims[i] {
                Anim::Deform(d) => {
                    if k < d.len() {
                        acc = acc + d[k] as i128;
                    }
                },
                _ => {},
            }
            i = i + 1;
        }
        proof {
            assert(anims@.take(i as int) =~= anims@);
        }
        r.push(clamp_to_i32(acc));
        k = k + 1;
    }
    r
}

/// What rendering reads: the render table, the current animation values of
/// each record, and the device objects.
pub struct Resources {
    pub scene: Scene,
    /// The contributions of the bindings to each record, in table order.
    pub anims: Vec<Vec<Anim>>,
    pub verts: Vbo<i32>,
    pub uvs: Vbo<i32>,
    pub deform: Vbo<i32>,
    pub ibo: Vbo<u16>,
    pub textures: Vec<GlTexture>,
    pub part_program: Program,
    pub trans: NativeUniformLocation,
    pub ratio: NativeUniformLocation,
    pub composite_program: Program,
    pub composite_fbo: Framebuffer,
    pub composite_texture: GlTexture,
}

/// The index of the first record of `nodes`, from index `i` on, with id `uuid`.
pub open spec fn find_from(nodes: Seq<crate::scene::FlatNode>, uuid: u32, i: int) -> Option<int>
    decreases nodes.len() - i,
{
    if i < 0 || i >= nodes.len() {
        None
    } else if nodes[i].uuid == uuid {
        Some(i)
    } else {
        find_from(nodes, uuid, i + 1)
    }
}

/// The mask sets of the part records that `order` names, in order; an id
/// names its first record, and ids that name no part are skipped.
pub open spec fn part_mask_sets(sc: Scene, order: Seq<u32>) -> Seq<Seq<Mask>>
    decreases order.len(),
{
    if order.len() == 0 {
        Seq::empty()
    } else {
        let rest = part_mask_sets(sc, order.drop_last());
        match find_from(sc.nodes@, order.last(), 0) {
            Some(j) => match sc.nodes@[j].kind {
                FlatKind::Part(p) => rest.push(p.masks@),
                _ => rest,
            },
            None => rest,
        }
    }
}

/// No id of `order` names a composite record.
pub open spec fn no_composites(sc: Scene, order: Seq<u32>) -> bool {
    forall|k: int|
        0 <= k < order.len() ==> match find_from(sc.nodes@, #[trigger] order[k], 0) {
            Some(j) => !(sc.nodes@[j].kind is Composite),
            None => true,
        }
}

/// The mask set applied last after parts with the mask sets `sets` are drawn.
pub open spec fn cache_fold(prev: Seq<Mask>, sets: Seq<Seq<Mask>>) -> Seq<Mask>
    decreases sets.len(),
{
    if sets.len() == 0 {
        prev
    } else {
        cache_fold(cache_after(prev, sets[0]), sets.skip(1))
    }
}

proof fn lemma_rebuilds_push(prev: Seq<Mask>, sets: Seq<Seq<Mask>>, m: Seq<Mask>)
    ensures
        rebuilds(prev, sets.push(m)) == rebuilds(prev, sets) + if needs_rebuild(
            cache_fold(prev, sets),
            m,
        ) {
            1nat
        } else {
            0nat
        },
        cache_fold(prev, sets.push(m)) == cache_after(cache_fold(prev, sets), m),
    decreases sets.len(),
{
    if sets.len() == 0 {
        let s = sets.push(m);
        let e = Seq::<Seq<Mask>>::empty();
        assert(s[0] == m);
        assert(s.skip(1) =~= e);
        assert(rebuilds(cache_after(prev, m), e) == 0);
        assert(cache_fold(cache_after(prev, m), e) == cache_after(prev, m));
        assert(rebuilds(prev, sets) == 0);
        assert(cache_fold(prev, sets) == prev);
    } else {
        let s = sets.push(m);
        let c = cache_after(prev, sets[0]);
        assert(s[0] == sets[0]);
        assert(s.skip(1) =~= sets.skip(1).push(m));
        lemma_rebuilds_push(c, sets.skip(1), m);
        assert(rebuilds(prev, s) == (if needs_rebuild(prev, sets[0]) { 1nat } else { 0nat }) + rebuilds(c, s.skip(1)));
        assert(cache_fold(prev, s) == cache_fold(c, s.skip(1)));
    }
}

/// Every mask of every part names a part of the table, and every part's
/// first texture is one of `n_textures`.
pub open spec fn table_wf(sc: Scene, n_textures: nat) -> bool {
    forall|i: int|
        0 <= i < sc.nodes@.len() ==> match #[trigger] sc.nodes@[i].kind {
            FlatKind::Part(p) => p.textures[0] < n_textures && forall|m: int|
                0 <= m < p.masks@.len() ==> exists|j: int|
                    0 <= j < sc.nodes@.len() && sc.nodes@[j].uuid == #[trigger] p.masks@[m].source
                        && sc.nodes@[j].kind is Part,
            _ => true,
        }
}

impl Resources {
    pub open spec fn wf(&self) -> bool {
        &&& self.anims@.len() == self.scene.nodes@.len()
        &&& table_wf(self.scene, self.textures@.len())
    }
}

/// The index of the record with id `uuid`: the first one, if ids repeat.
pub fn find(sc: &Scene, uuid: u32) -> (r: Option<usize>)
    ensures
        match r {
            Some(i) => find_from(sc.nodes@, uuid, 0) == Some(i as int),
            None => find_from(sc.nodes@, uuid, 0) is None,
        },
        match r {
            Some(i) => i < sc.nodes@.len() && sc.nodes@[i as int].uuid == uuid && forall|j: int|
                0 <= j < i ==> sc.nodes@[j].uuid != uuid,
            None => forall|j: int| 0 <= j < sc.nodes@.len() ==> sc.nodes@[j].uuid != uuid,
        },
{
    let mut i: usize = 0;
    while i < sc.nodes.len()
        invariant
            i <= sc.nodes@.len(),
            forall|j: int| 0 <= j < i ==> sc.nodes@[j].uuid != uuid,
            find_from(sc.nodes@, uuid, 0) == find_from(sc.nodes@, uuid, i as int),
        decreases sc.nodes@.len() - i,
    {
        if sc.nodes[i].uuid == uuid {
            return Some(i);
        }
        i = i + 1;
    }
    None
}

/// The device state as the contracts see it.
pub struct StateView {
    pub program: Option<NativeProgram>,
    pub stencil: bool,
    pub blend: Option<(u32, u32)>,
    pub texture: Option<NativeTexture>,
    pub masks: Seq<Mask>,
}

impl View for DeviceState {
    type V = StateView;

    open spec fn view(&self) -> StateView {
        StateView {
            program: self.program,
            stencil: self.stencil,
            blend: self.blend,
            texture: self.texture,
            masks: self.masks@,
        }
    }
}

/// The calls that make `program` current, given the program applied last.
pub open spec fn program_calls(prev: Option<NativeProgram>, program: NativeProgram) -> Seq<GlCall> {
    if prev == Some(program) {
        Seq::empty()
    } else {
        seq![GlCall::UseProgram(Some(program))]
    }
}

/// The calls that bind `texture`, given the texture bound last.
pub open spec fn texture_calls(prev: Option<NativeTexture>, texture: NativeTexture) -> Seq<GlCall> {
    if prev == Some(texture) {
        Seq::empty()
    } else {
        seq![GlCall::BindTexture(crate::glow::TEXTURE_2D, Some(texture))]
    }
}

/// The calls that set the blend function `mode`, given the one set last.
pub open spec fn blend_calls(prev: Option<(u32, u32)>, mode: (u32, u32)) -> Seq<GlCall> {
    if prev == Some(mode) {
        Seq::empty()
    } else {
        seq![GlCall::BlendFunc(mode.0, mode.1)]
    }
}

/// The calls that turn the stencil test to `on`, given its last setting.
pub open spec fn stencil_calls(prev: bool, on: bool) -> Seq<GlCall> {
    if prev == on {
        Seq::empty()
    } else if on {
        seq![GlCall::Enable(STENCIL_TEST)]
    } else {
        seq![GlCall::Disable(STENCIL_TEST)]
    }
}

/// Drawing part record `j` from state `st`: the part program, its first
/// texture and its blend function (each unless applied already), the
/// translation uniform, which is the world translation plus the sums of the
/// part's translation contributions, and the indexed draw of its span. The
/// uniform values, index count and byte offset are limited to the range of
/// `i32`, which the device takes.
pub open spec fn part_draw(st: StateView, res: Resources, j: int) -> (Seq<GlCall>, StateView) {
    let node = res.scene.nodes@[j];
    let p = node.kind->Part_0;
    let prog = res.part_program.program;
    let t = res.textures@[p.textures[0] as int].texture;
    let b = blend_spec(p.blend_mode);
    let anims = res.anims@[j]@;
    let x = clamp_i32(node.world_trans[0] as int + channel_sum(anims, Channel::TransformTX));
    let y = clamp_i32(node.world_trans[1] as int + channel_sum(anims, Channel::TransformTY));
    (
        program_calls(st.program, prog) + texture_calls(st.texture, t) + blend_calls(st.blend, b)
            + seq![
            GlCall::Uniform2(res.trans, x as i32, y as i32),
            GlCall::DrawElements(
                TRIANGLES,
                clamp_i32(p.num_indices as int) as i32,
                UNSIGNED_SHORT,
                clamp_i32(2 * p.start_index) as i32,
            ),
        ],
        StateView { program: Some(prog), texture: Some(t), blend: Some(b), ..st },
    )
}

/// Drawing the part records that the masks `ms` name, in order; a source
/// that names no part draws nothing.
pub open spec fn mask_draws(st: StateView, res: Resources, ms: Seq<Mask>) -> (Seq<GlCall>, StateView)
    decreases ms.len(),
{
    if ms.len() == 0 {
        (Seq::empty(), st)
    } else {
        let (c, s1) = mask_draws(st, res, ms.drop_last());
        match find_from(res.scene.nodes@, ms.last().source, 0) {
            Some(j) => if res.scene.nodes@[j].kind is Part {
                let (c2, s2) = part_draw(s1, res, j);
                (c + c2, s2)
            } else {
                (c, s1)
            },
            None => (c, s1),
        }
    }
}

/// Applying the mask set of part record `j`: nothing if the stencil buffer
/// holds it already; else stencil test on, colour writes off, the stencil
/// cleared and written by drawing every mask source, then colour writes on
/// and the stencil set to pass where it was written.
pub open spec fn mask_apply(st: StateView, res: Resources, j: int) -> (Seq<GlCall>, StateView) {
    let masks = res.scene.nodes@[j].kind->Part_0.masks@;
    if st.masks == masks {
        (Seq::empty(), st)
    } else {
        let s1 = StateView { stencil: true, ..st };
        let (cm, s2) = mask_draws(s1, res, masks);
        (
            stencil_calls(st.stencil, true) + seq![
                GlCall::ColorMask(false, false, false, false),
                GlCall::StencilOp(KEEP, KEEP, REPLACE),
                GlCall::StencilFunc(ALWAYS, 0xff, 0xff),
                GlCall::Clear(STENCIL_BUFFER_BIT),
            ] + cm + seq![
                GlCall::ColorMask(true, true, true, true),
                GlCall::StencilFunc(EQUAL, 0xff, 0xff),
                GlCall::StencilOp(KEEP, KEEP, KEEP),
            ],
            StateView { masks, ..s2 },
        )
    }
}

/// Rendering part record `j`: the part program, its masks if it has any,
/// then the part itself.
pub open spec fn part_render(st: StateView, res: Resources, j: int) -> (Seq<GlCall>, StateView) {
    let prog = res.part_program.program;
    let s1 = StateView { program: Some(prog), ..st };
    let (cm, s2) = if res.scene.nodes@[j].kind->Part_0.masks@.len() > 0 {
        mask_apply(s1, res, j)
    } else {
        (Seq::empty(), s1)
    };
    let (cd, s3) = part_draw(s2, res, j);
    (program_calls(st.program, prog) + cm + cd, s3)
}

/// Rendering the records that `order` names, composites nested at most
/// `depth` deep: a part is drawn with the stencil test off unless masked; a
/// composite renders its descendants into its framebuffer, which it binds
/// and clears first and unbinds after, then draws that texture as one
/// full-viewport quad with its blend mode; groups and unknown ids issue no
/// call.
pub open spec fn frame(st: StateView, res: Resources, order: Seq<u32>, depth: nat) -> (
    Seq<GlCall>,
    StateView,
)
    decreases depth, order.len() + 2,
{
    if order.len() == 0 {
        (Seq::empty(), st)
    } else {
        let (c, s) = frame(st, res, order.drop_last(), depth);
        let (c2, s2) = frame_step(s, res, order.last(), depth);
        (c + c2, s2)
    }
}

/// Rendering composite record `j`: its framebuffer bound and cleared, its
/// descendants rendered into it, the default framebuffer bound again, then
/// the framebuffer's texture drawn as one full-viewport quad with the
/// composite's blend mode and the composite program.
pub open spec fn composite_pass(s: StateView, res: Resources, j: int, depth: nat) -> (
    Seq<GlCall>,
    StateView,
)
    decreases depth, 0nat,
{
    if depth > 0 {
        let comp = res.scene.nodes@[j].kind->Composite_0;
        let (cc, s2) = frame(s, res, comp.children@, (depth - 1) as nat);
        let t = res.composite_texture.texture;
        let b = blend_spec(comp.blend_mode);
        let prog = res.composite_program.program;
        (
            seq![
                GlCall::BindFramebuffer(crate::glow::FRAMEBUFFER, Some(res.composite_fbo.fbo)),
                GlCall::Clear(COLOR_BUFFER_BIT),
            ] + cc + seq![GlCall::BindFramebuffer(crate::glow::FRAMEBUFFER, None)] + texture_calls(
                s2.texture,
                t,
            ) + blend_calls(s2.blend, b) + program_calls(s2.program, prog) + seq![
                GlCall::DrawArrays(TRIANGLE_STRIP, 0, 4),
            ],
            StateView { texture: Some(t), blend: Some(b), program: Some(prog), ..s2 },
        )
    } else {
        (Seq::empty(), s)
    }
}

/// Rendering the record that `id` names, as `frame` says.
pub open spec fn frame_step(s: StateView, res: Resources, id: u32, depth: nat) -> (
    Seq<GlCall>,
    StateView,
)
    decreases depth, 1nat,
{
    match find_from(res.scene.nodes@, id, 0) {
        Some(j) => match res.scene.nodes@[j].kind {
            FlatKind::Part(_) => {
                let (cp, s2) = part_render(StateView { stencil: false, ..s }, res, j);
                (stencil_calls(s.stencil, false) + cp, s2)
            },
            FlatKind::Composite(_) => if depth > 0 {
                composite_pass(s, res, j, depth)
            } else {
                (Seq::empty(), s)
            },
            FlatKind::Group => (Seq::empty(), s),
        },
        None => (Seq::empty(), s),
    }
}

/// Draws part record `idx` with the current stencil state.
fn draw_part(gl: &mut Context, state: &mut DeviceState, res: &Resources, idx: usize)
    requires
        res.wf(),
        idx < res.scene.nodes@.len(),
        res.scene.nodes@[idx as int].kind is Part,
    ensures
        final(gl).next_name == old(gl).next_name,
        final(gl).calls@ == old(gl).calls@ + part_draw(old(state)@, *res, idx as int).0,
        final(state)@ == part_draw(old(state)@, *res, idx as int).1,
        final(state).masks == old(state).masks,
        stencil_clears(final(gl).calls@) == stencil_clears(old(gl).calls@),
{
    let node = &res.scene.nodes[idx];
    let part = match &node.kind {
        FlatKind::Part(p) => p,
        _ => return,
    };
    assert(table_wf(res.scene, res.textures@.len()));
    assert(part.textures[0] < res.textures@.len());
    let ghost c0 = gl.calls@;
    use_program(gl, state, res.part_program.program);
    bind_texture(gl, state, res.textures[part.textures[0]].texture);
    set_blend_mode(gl, state, blend_factors(part.blend_mode));
    let (tx, ty) = sum_translation(&res.anims[idx]);
    let x = clamp_to_i32(node.world_trans[0] as i128 + tx);
    let y = clamp_to_i32(node.world_trans[1] as i128 + ty);
    record(gl, GlCall::Uniform2(res.trans, x, y));
    let count = clamp_to_i32(part.num_indices as i128);
    let offset = clamp_to_i32(part.start_index as i128 * 2);
    record(gl, GlCall::DrawElements(TRIANGLES, count, UNSIGNED_SHORT, offset));
    proof {
        assert(gl.calls@ =~= c0 + part_draw(old(state)@, *res, idx as int).0);
    }
}

/// Makes the stencil buffer hold the mask set of part record `idx`, redrawing
/// it from the mask sources unless it holds that set already.
fn apply_masks(gl: &mut Context, state: &mut DeviceState, res: &Resources, idx: usize)
    requires
        res.wf(),
        idx < res.scene.nodes@.len(),
        res.scene.nodes@[idx as int].kind is Part,
    ensures
        final(gl).next_name == old(gl).next_name,
        final(gl).calls@ == old(gl).calls@ + mask_apply(old(state)@, *res, idx as int).0,
        final(state)@ == mask_apply(old(state)@, *res, idx as int).1,
        final(state).masks@ == if old(state).masks@ == res.scene.nodes@[idx as int].kind->Part_0.masks@ {
            old(state).masks@
        } else {
            res.scene.nodes@[idx as int].kind->Part_0.masks@
        },
        stencil_clears(final(gl).calls@) == stencil_clears(old(gl).calls@) + if old(state).masks@
            == res.scene.nodes@[idx as int].kind->Part_0.masks@ {
            0nat
        } else {
            1nat
        },
{
    let part = match &res.scene.nodes[idx].kind {
        FlatKind::Part(p) => p,
        _ => return,
    };
    if masks_eq(&state.masks, &part.masks) {
        proof {
            assert(old(gl).calls@ + Seq::<GlCall>::empty() =~= old(gl).calls@);
        }
        return;
    }
    let ghost c0 = gl.calls@;
    set_stencil(gl, state, true);
    record(gl, GlCall::ColorMask(false, false, false, false));
    record(gl, GlCall::StencilOp(KEEP, KEEP, REPLACE));
    record(gl, GlCall::StencilFunc(ALWAYS, 0xff, 0xff));
    proof {
        lemma_push_clear(gl.calls@);
    }
    gl.push(GlCall::Clear(STENCIL_BUFFER_BIT));
    let ghost c1 = gl.calls@;
    let ghost s1 = state@;
    let ghost clears = stencil_clears(gl.calls@);
    let ghost masks0 = state.masks;
    proof {
        assert(part.masks@.take(0) =~= Seq::<Mask>::empty());
        assert(c1 =~= c1 + mask_draws(s1, *res, part.masks@.take(0)).0);
    }
    let mut m: usize = 0;
    while m < part.masks.len()
        invariant
            res.wf(),
            idx < res.scene.nodes@.len(),
            res.scene.nodes@[idx as int].kind == FlatKind::Part(*part),
            m <= part.masks@.len(),
            gl.next_name == old(gl).next_name,
            stencil_clears(gl.calls@) == clears,
            state.masks == masks0,
            gl.calls@ == c1 + mask_draws(s1, *res, part.masks@.take(m as int)).0,
            state@ == mask_draws(s1, *res, part.masks@.take(m as int)).1,
        decreases part.masks@.len() - m,
    {
        proof {
            assert(table_wf(res.scene, res.textures@.len()));
            let _ = part.masks@[m as int];
            let t = part.masks@.take(m + 1);
            assert(t.drop_last() =~= part.masks@.take(m as int));
            assert(t.last() == part.masks@[m as int]);
        }
        let ghost cb = gl.calls@;
        match find(&res.scene, part.masks[m].source) {
            Some(j) => {
                if matches!(res.scene.nodes[j].kind, FlatKind::Part(_)) {
                    draw_part(gl, state, res, j);
                    proof {
                        assert(gl.calls@ =~= c1 + mask_draws(s1, *res, part.masks@.take(m + 1)).0);
                    }
                }
            },
            None => {},
        }
        m = m + 1;
    }
    proof {
        assert(part.masks@.take(m as int) =~= part.masks@);
    }
    let ghost c2 = gl.calls@;
    record(gl, GlCall::ColorMask(true, true, true, true));
    record(gl, GlCall::StencilFunc(EQUAL, 0xff, 0xff));
    record(gl, GlCall::StencilOp(KEEP, KEEP, KEEP));
    state.masks = copy_masks(&part.masks);
    proof {
        assert(gl.calls@ =~= old(gl).calls@ + mask_apply(old(state)@, *res, idx as int).0);
    }
}

/// Draws part record `idx`, first applying its masks if it has any.
fn render_part(gl: &mut Context, state: &mut DeviceState, res: &Resources, idx: usize)
    requires
        res.wf(),
        idx < res.scene.nodes@.len(),
        res.scene.nodes@[idx as int].kind is Part,
    ensures
        final(gl).next_name == old(gl).next_name,
        final(gl).calls@ == old(gl).calls@ + part_render(old(state)@, *res, idx as int).0,
        final(state)@ == part_render(old(state)@, *res, idx as int).1,
        final(state).masks@ == cache_after(
            old(state).masks@,
            res.scene.nodes@[idx as int].kind->Part_0.masks@,
        ),
        stencil_clears(final(gl).calls@) == stencil_clears(old(gl).calls@) + if needs_rebuild(
            old(state).masks@,
            res.scene.nodes@[idx as int].kind->Part_0.masks@,
        ) {
            1nat
        } else {
            0nat
        },
{
    use_program(gl, state, res.part_program.program);
    let ghost c1 = gl.calls@;
    let has_masks = match &res.scene.nodes[idx].kind {
        FlatKind::Part(p) => p.masks.len() > 0,
        _ => false,
    };
    if has_masks {
        apply_masks(gl, state, res, idx);
    }
    let ghost c2 = gl.calls@;
    draw_part(gl, state, res, idx);
    proof {
        assert(gl.calls@ =~= old(gl).calls@ + part_render(old(state)@, *res, idx as int).0);
    }
}

fn copy_ids(v: &Vec<u32>) -> (r: Vec<u32>)
    ensures
        r@ == v@,
{
    let mut r: Vec<u32> = Vec::new();
    let mut i: usize = 0;
    while i < v.len()
        invariant
            i <= v@.len(),
            r@ == v@.take(i as int),
        decreases v@.len() - i,
    {
        r.push(v[i]);
        i = i + 1;
        proof {
            assert(r@ =~= v@.take(i as int));
        }
    }
    proof {
        assert(v@.take(i as int) =~= v@);
    }
    r
}

/// Renders composite record `j`, as `composite_pass` says.
#[verifier::rlimit(40)]
fn render_composite(gl: &mut Context, state: &mut DeviceState, res: &Resources, j: usize, depth: usize)
    requires
        res.wf(),
        j < res.scene.nodes@.len(),
        res.scene.nodes@[j as int].kind is Composite,
        depth > 0,
    ensures
        final(gl).next_name == old(gl).next_name,
        final(gl).calls@ == old(gl).calls@ + composite_pass(old(state)@, *res, j as int, depth as nat).0,
        final(state)@ == composite_pass(old(state)@, *res, j as int, depth as nat).1,
    decreases depth, 0nat,
{
    let c = match &res.scene.nodes[j].kind {
        FlatKind::Composite(c) => c,
        _ => return,
    };
    let children = copy_ids(&c.children);
    let ghost fr = frame(old(state)@, *res, c.children@, (depth - 1) as nat);
    res.composite_fbo.bind(gl);
    record(gl, GlCall::Clear(COLOR_BUFFER_BIT));
    let ghost c1 = gl.calls@;
    render_ids(gl, state, res, &children, depth - 1);
    let ghost c2 = gl.calls@;
    let ghost s2 = state@;
    finish_composite(gl, state, res, c.blend_mode);
    proof {
        lemma_composite_pass_unfold(old(state)@, *res, j as int, depth as nat);
        let full = composite_pass(old(state)@, *res, j as int, depth as nat);
        assert(c2 == c1 + fr.0);
        assert(s2 == fr.1);
        assert(gl.calls@ =~= old(gl).calls@ + full.0);
    }
}

/// The end of a composite pass: the default framebuffer bound again, then
/// the offscreen texture drawn as one full-viewport quad.
fn finish_composite(gl: &mut Context, state: &mut DeviceState, res: &Resources, mode: BlendMode)
    ensures
        final(gl).next_name == old(gl).next_name,
        final(gl).calls@ == old(gl).calls@ + seq![GlCall::BindFramebuffer(crate::glow::FRAMEBUFFER, None)]
            + texture_calls(old(state).texture, res.composite_texture.texture) + blend_calls(
            old(state).blend,
            blend_spec(mode),
        ) + program_calls(old(state).program, res.composite_program.program) + seq![
            GlCall::DrawArrays(TRIANGLE_STRIP, 0, 4),
        ],
        final(state)@ == (StateView {
            texture: Some(res.composite_texture.texture),
            blend: Some(blend_spec(mode)),
            program: Some(res.composite_program.program),
            ..old(state)@
        }),
        final(state).masks == old(state).masks,
{
    gl.push(GlCall::BindFramebuffer(crate::glow::FRAMEBUFFER, None));
    let ghost c3 = gl.calls@;
    bind_texture(gl, state, res.composite_texture.texture);
    let ghost c4 = gl.calls@;
    set_blend_mode(gl, state, blend_factors(mode));
    let ghost c5 = gl.calls@;
    use_program(gl, state, res.composite_program.program);
    gl.push(GlCall::DrawArrays(TRIANGLE_STRIP, 0, 4));
    proof {
        assert(gl.calls@ =~= old(gl).calls@ + seq![GlCall::BindFramebuffer(crate::glow::FRAMEBUFFER, None)]
            + texture_calls(old(state).texture, res.composite_texture.texture) + blend_calls(
            old(state).blend,
            blend_spec(mode),
        ) + program_calls(old(state).program, res.composite_program.program) + seq![
            GlCall::DrawArrays(TRIANGLE_STRIP, 0, 4),
        ]);
    }
}

/// Renders the record that `id` names, as `frame_step` says.
fn render_one(gl: &mut Context, state: &mut DeviceState, res: &Resources, id: u32, depth: usize)
    requires
        res.wf(),
    ensures
        final(gl).next_name == old(gl).next_name,
        final(gl).calls@ == old(gl).calls@ + frame_step(old(state)@, *res, id, depth as nat).0,
        final(state)@ == frame_step(old(state)@, *res, id, depth as nat).1,
        (match find_from(res.scene.nodes@, id, 0) {
            Some(j) => !(res.scene.nodes@[j].kind is Composite),
            None => true,
        }) ==> {
            &&& stencil_clears(final(gl).calls@) == stencil_clears(old(gl).calls@) + rebuilds(
                old(state).masks@,
                part_mask_sets(res.scene, seq![id]),
            )
            &&& final(state).masks@ == cache_fold(old(state).masks@, part_mask_sets(res.scene, seq![id]))
        },
    decreases depth, 1nat,
{
    let ghost e = Seq::<u32>::empty();
    proof {
        lemma_frame_step_unfold(old(state)@, *res, id, depth as nat);
        assert(seq![id].drop_last() =~= e);
        assert(seq![id].last() == id);
        assert(part_mask_sets(res.scene, e) == Seq::<Seq<Mask>>::empty());
        assert(rebuilds(old(state).masks@, Seq::<Seq<Mask>>::empty()) == 0);
        assert(cache_fold(old(state).masks@, Seq::<Seq<Mask>>::empty()) == old(state).masks@);
        assert(old(gl).calls@ + Seq::<GlCall>::empty() =~= old(gl).calls@);
    }
    match find(&res.scene, id) {
        Some(j) => {
            if matches!(res.scene.nodes[j].kind, FlatKind::Part(_)) {
                set_stencil(gl, state, false);
                render_part(gl, state, res, j);
                proof {
                    lemma_rebuilds_push(old(state).masks@, Seq::<Seq<Mask>>::empty(), res.scene.nodes@[j as int].kind->Part_0.masks@);
                    assert(Seq::<Seq<Mask>>::empty().push(res.scene.nodes@[j as int].kind->Part_0.masks@) == part_mask_sets(res.scene, seq![id]));
                    assert(gl.calls@ =~= old(gl).calls@ + frame_step(old(state)@, *res, id, depth as nat).0);
                }
            } else if depth > 0 && matches!(res.scene.nodes[j].kind, FlatKind::Composite(_)) {
                render_composite(gl, state, res, j, depth);
                proof {
                    assert(gl.calls@ =~= old(gl).calls@ + frame_step(old(state)@, *res, id, depth as nat).0);
                }
            }
        },
        None => {},
    }
}

/// Renders the records named by `order`, in order, as `frame` says.
fn render_ids(gl: &mut Context, state: &mut DeviceState, res: &Resources, order: &Vec<u32>, depth: usize)
    requires
        res.wf(),
    ensures
        final(gl).next_name == old(gl).next_name,
        final(gl).calls@ == old(gl).calls@ + frame(old(state)@, *res, order@, depth as nat).0,
        final(state)@ == frame(old(state)@, *res, order@, depth as nat).1,
        no_composites(res.scene, order@) ==> {
            &&& stencil_clears(final(gl).calls@) == stencil_clears(old(gl).calls@) + rebuilds(
                old(state).masks@,
                part_mask_sets(res.scene, order@),
            )
            &&& final(state).masks@ == cache_fold(old(state).masks@, part_mask_sets(res.scene, order@))
        },
    decreases depth, 2nat,
{
    let mut i: usize = 0;
    proof {
        assert(order@.take(0) =~= Seq::<u32>::empty());
        lemma_frame_empty(old(state)@, *res, order@.take(0), depth as nat);
        assert(old(gl).calls@ + Seq::<GlCall>::empty() =~= old(gl).calls@);
    }
    while i < order.len()
        invariant
            res.wf(),
            i <= order@.len(),
            gl.next_name == old(gl).next_name,
            gl.calls@ == old(gl).calls@ + frame(old(state)@, *res, order@.take(i as int), depth as nat).0,
            state@ == frame(old(state)@, *res, order@.take(i as int), depth as nat).1,
            no_composites(res.scene, order@) ==> {
                &&& stencil_clears(gl.calls@) == stencil_clears(old(gl).calls@) + rebuilds(
                    old(state).masks@,
                    part_mask_sets(res.scene, order@.take(i as int)),
                )
                &&& state.masks@ == cache_fold(old(state).masks@, part_mask_sets(res.scene, order@.take(i as int)))
            },
        decreases order@.len() - i,
    {
        let ghost t = order@.take(i + 1);
        let ghost sets = part_mask_sets(res.scene, order@.take(i as int));
        let ghost cb = gl.calls@;
        let ghost mb = state.masks@;
        proof {
            assert(t.drop_last() =~= order@.take(i as int));
            assert(t.last() == order@[i as int]);
        }
        render_one(gl, state, res, order[i], depth);
        proof {
            lemma_frame_unfold(old(state)@, *res, t, depth as nat);
            assert(gl.calls@ =~= old(gl).calls@ + frame(old(state)@, *res, t, depth as nat).0);
            if no_composites(res.scene, order@) {
                let id = order@[i as int];
                assert(match find_from(res.scene.nodes@, id, 0) {
                    Some(j) => !(res.scene.nodes@[j].kind is Composite),
                    None => true,
                });
                lemma_mask_sets_push(res.scene, order@.take(i as int), id);
                lemma_rebuilds_concat(old(state).masks@, sets, part_mask_sets(res.scene, seq![id]));
                assert(order@.take(i as int).push(id) =~= t);
            }
        }
        i = i + 1;
    }
    proof {
        assert(order@.take(i as int) =~= order@);
    }
}

proof fn lemma_frame_unfold(st: StateView, res: Resources, order: Seq<u32>, depth: nat)
    requires
        order.len() > 0,
    ensures
        frame(st, res, order, depth) == ({
            let (c, s) = frame(st, res, order.drop_last(), depth);
            let (c2, s2) = frame_step(s, res, order.last(), depth);
            (c + c2, s2)
        }),
{
}

proof fn lemma_frame_empty(st: StateView, res: Resources, order: Seq<u32>, depth: nat)
    requires
        order.len() == 0,
    ensures
        frame(st, res, order, depth) == (Seq::<GlCall>::empty(), st),
{
}

proof fn lemma_frame_step_unfold(s: StateView, res: Resources, id: u32, depth: nat)
    ensures
        frame_step(s, res, id, depth) == match find_from(res.scene.nodes@, id, 0) {
            Some(j) => match res.scene.nodes@[j].kind {
                FlatKind::Part(_) => {
                    let (cp, s2) = part_render(StateView { stencil: false, ..s }, res, j);
                    (stencil_calls(s.stencil, false) + cp, s2)
                },
                FlatKind::Composite(_) => if depth > 0 {
                    composite_pass(s, res, j, depth)
                } else {
                    (Seq::empty(), s)
                },
                FlatKind::Group => (Seq::empty(), s),
            },
            None => (Seq::empty(), s),
        },
{
}

proof fn lemma_composite_pass_unfold(s: StateView, res: Resources, j: int, depth: nat)
    requires
        depth > 0,
    ensures
        composite_pass(s, res, j, depth) == ({
            let comp = res.scene.nodes@[j].kind->Composite_0;
            let (cc, s2) = frame(s, res, comp.children@, (depth - 1) as nat);
            let t = res.composite_texture.texture;
            let b = blend_spec(comp.blend_mode);
            let prog = res.composite_program.program;
            (
                seq![
                    GlCall::BindFramebuffer(crate::glow::FRAMEBUFFER, Some(res.composite_fbo.fbo)),
                    GlCall::Clear(COLOR_BUFFER_BIT),
                ] + cc + seq![GlCall::BindFramebuffer(crate::glow::FRAMEBUFFER, None)]
                    + texture_calls(s2.texture, t) + blend_calls(s2.blend, b) + program_calls(
                    s2.program,
                    prog,
                ) + seq![GlCall::DrawArrays(TRIANGLE_STRIP, 0, 4)],
                StateView { texture: Some(t), blend: Some(b), program: Some(prog), ..s2 },
            )
        }),
{
}

proof fn lemma_mask_sets_push(sc: Scene, order: Seq<u32>, id: u32)
    ensures
        part_mask_sets(sc, order.push(id)) == part_mask_sets(sc, order) + part_mask_sets(sc, seq![id]),
        part_mask_sets(sc, seq![id]).len() <= 1,
{
    let e = Seq::<u32>::empty();
    assert(order.push(id).drop_last() =~= order);
    assert(seq![id].drop_last() =~= e);
    assert(part_mask_sets(sc, e) == Seq::<Seq<Mask>>::empty());
    let r = part_mask_sets(sc, order);
    assert(r + Seq::<Seq<Mask>>::empty() =~= r);
    assert(r + Seq::<Seq<Mask>>::empty().push(Seq::<Mask>::empty()) =~= r.push(Seq::<Mask>::empty()));
    match find_from(sc.nodes@, id, 0) {
        Some(j) => match sc.nodes@[j].kind {
            FlatKind::Part(p) => {
                assert(r + Seq::<Seq<Mask>>::empty().push(p.masks@) =~= r.push(p.masks@));
            },
            _ => {},
        },
        None => {},
    }
}

proof fn lemma_rebuilds_concat(prev: Seq<Mask>, a: Seq<Seq<Mask>>, b: Seq<Seq<Mask>>)
    requires
        b.len() <= 1,
    ensures
        rebuilds(prev, a + b) == rebuilds(prev, a) + rebuilds(cache_fold(prev, a), b),
        cache_fold(prev, a + b) == cache_fold(cache_fold(prev, a), b),
{
    let e = Seq::<Seq<Mask>>::empty();
    if b.len() == 0 {
        assert(a + b =~= a);
        assert(rebuilds(cache_fold(prev, a), b) == 0);
    } else {
        assert(a + b =~= a.push(b[0]));
        lemma_rebuilds_push(prev, a, b[0]);
        lemma_rebuilds_push(cache_fold(prev, a), e, b[0]);
        assert(e.push(b[0]) =~= b);
        assert(rebuilds(cache_fold(prev, a), e) == 0);
        assert(cache_fold(cache_fold(prev, a), e) == cache_fold(prev, a));
    }
}

pub const VERTEX: &'static str = "#version 100
precision mediump float;
uniform float ratio;
uniform vec2 trans;
attribute vec2 pos;
attribute vec2 uvs;
attribute vec2 deform;
varying vec2 texcoord;

void main() {
    vec2 pos2 = pos + trans + deform;
    texcoord = vec2(uvs.x, -uvs.y);
    gl_Position = vec4(pos2.x * ratio / 3072.0, -pos2.y / 3072.0, 0.0, 1.0);
}
";

pub const FRAGMENT: &'static str = "#version 100
precision mediump float;
uniform sampler2D texture;
varying vec2 texcoord;

void main() {
    vec4 color = texture2D(texture, texcoord);
    if (color.a < 0.05) {
        discard;
    }
    gl_FragColor = color.bgra;
}
";

pub const VERTEX_PASSTHROUGH: &'static str = "#version 100
precision mediump float;
attribute vec2 pos;
attribute vec2 uvs;
varying vec2 texcoord;

void main() {
    texcoord = uvs;
    gl_Position = vec4(pos, 0.0, 1.0);
}
";

pub const FRAGMENT_PASSTHROUGH: &'static str = "#version 100
precision mediump float;
uniform sampler2D texture;
varying vec2 texcoord;

void main() {
    gl_FragColor = texture2D(texture, texcoord);
}
";

/// Whether some record of `sc` is a part with id `uuid`.
fn has_part(sc: &Scene, uuid: u32) -> (r: bool)
    ensures
        r == exists|j: int| 0 <= j < sc.nodes@.len() && sc.nodes@[j].uuid == uuid && sc.nodes@[j].kind is Part,
{
    let mut j: usize = 0;
    while j < sc.nodes.len()
        invariant
            j <= sc.nodes@.len(),
            forall|jj: int| 0 <= jj < j ==> !(sc.nodes@[jj].uuid == uuid && sc.nodes@[jj].kind is Part),
        decreases sc.nodes@.len() - j,
    {
        if sc.nodes[j].uuid == uuid && matches!(sc.nodes[j].kind, FlatKind::Part(_)) {
            return true;
        }
        j = j + 1;
    }
    false
}

/// Whether `table_wf` holds.
fn check_table(sc: &Scene, n_textures: usize) -> (r: bool)
    ensures
        r == table_wf(*sc, n_textures as nat),
{
    let mut i: usize = 0;
    while i < sc.nodes.len()
        invariant
            i <= sc.nodes@.len(),
            forall|k: int| 0 <= k < i ==> match #[trigger] sc.nodes@[k].kind {
                FlatKind::Part(p) => p.textures[0] < n_textures && forall|m: int|
                    0 <= m < p.masks@.len() ==> exists|j: int|
                        0 <= j < sc.nodes@.len() && sc.nodes@[j].uuid == #[trigger] p.masks@[m].source
                            && sc.nodes@[j].kind is Part,
                _ => true,
            },
        decreases sc.nodes@.len() - i,
    {
        match &sc.nodes[i].kind {
            FlatKind::Part(p) => {
                if p.textures[0] >= n_textures {
                    return false;
                }
                let mut m: usize = 0;
                while m < p.masks.len()
                    invariant
                        m <= p.masks@.len(),
                        i < sc.nodes@.len(),
                        sc.nodes@[i as int].kind == FlatKind::Part(*p),
                        forall|mm: int| 0 <= mm < m ==> exists|j: int|
                            0 <= j < sc.nodes@.len() && sc.nodes@[j].uuid == #[trigger] p.masks@[mm].source
                                && sc.nodes@[j].kind is Part,
                    decreases p.masks@.len() - m,
                {
                    let src = p.masks[m].source;
                    if !has_part(sc, src) {
                        proof {
                            assert(p.masks@[m as int].source == src);
                        }
                        return false;
                    }
                    m = m + 1;
                }
            },
            _ => {},
        }
        i = i + 1;
    }
    true
}

/// A renderer: the recorded device calls, the device state applied last, and
/// what rendering reads.
pub struct GlRenderer {
    pub gl: Context,
    pub state: DeviceState,
    pub res: Resources,
}

/// Why building a renderer fails: the tree cannot be flattened, a texture
/// is too large for the device, a part refers to a missing texture or masks
/// with something that is not a part, or there are so many textures that
/// device names run out.
pub open spec fn setup_fails(root: Node, textures: Seq<Texture>) -> bool {
    ||| !visits_ok(visit(root, None, (0, 0, 0)))
    ||| exists|i: int| 0 <= i < textures.len() && (#[trigger] textures[i])@.0 > i32::MAX
        || textures[i]@.1 > i32::MAX
    ||| exists|sc: Scene| scene_matches(sc, visit(root, None, (0, 0, 0))) && !table_wf(sc, textures.len())
    ||| textures.len() > u32::MAX - 14
}

/// Builds a renderer for the tree under `root` with the decoded `textures`,
/// for a viewport of `width` by `height` pixels: compiles the programs,
/// flattens the tree, and uploads buffers and textures. Fails where the tree
/// cannot be flattened, where a part refers to a missing texture or masks
/// with something that is not a part, or where device names run out.
pub fn setup(root: &Node, textures: Vec<Texture>, width: u32, height: u32) -> (r: Result<
    GlRenderer,
    String,
>)
    requires
        0 < width <= i32::MAX,
        0 < height <= i32::MAX,
    ensures
        r matches Ok(g) ==> {
            &&& g.wf()
            &&& scene_matches(g.res.scene, visit(*root, None, (0, 0, 0)))
            &&& g.res.textures@.len() == textures@.len()
            &&& g.state@ == (StateView {
                program: None,
                stencil: false,
                blend: None,
                texture: None,
                masks: Seq::empty(),
            })
            &&& forall|j: int| 0 <= j < g.res.anims@.len() ==> (#[trigger] g.res.anims@[j])@.len() == 0
        },
        r is Err ==> setup_fails(*root, textures@),
        !visits_ok(visit(*root, None, (0, 0, 0))) ==> r is Err,
{
    let mut gl = Context::new();
    let b = match Program::builder(&mut gl) {
        Ok(b) => b,
        Err(e) => return Err(e),
    };
    let b = match b.shader(&mut gl, VERTEX_SHADER, VERTEX) {
        Ok(b) => b,
        Err(e) => return Err(e),
    };
    let b = match b.shader(&mut gl, FRAGMENT_SHADER, FRAGMENT) {
        Ok(b) => b,
        Err(e) => return Err(e),
    };
    let part_program = match b.link(&mut gl) {
        Ok(p) => p,
        Err(e) => return Err(e),
    };
    let ratio = NativeUniformLocation { program: part_program.program, name: "ratio" };
    let trans = NativeUniformLocation { program: part_program.program, name: "trans" };
    part_program.use_(&mut gl);
    let r = ((height as i64) * 65536) / (width as i64);
    gl.push(GlCall::Uniform1(ratio, clamp_to_i32(r as i128)));
    let b = match Program::builder(&mut gl) {
        Ok(b) => b,
        Err(e) => return Err(e),
    };
    let b = match b.shader(&mut gl, VERTEX_SHADER, VERTEX_PASSTHROUGH) {
        Ok(b) => b,
        Err(e) => return Err(e),
    };
    let b = match b.shader(&mut gl, FRAGMENT_SHADER, FRAGMENT_PASSTHROUGH) {
        Ok(b) => b,
        Err(e) => return Err(e),
    };
    let composite_program = match b.link(&mut gl) {
        Ok(p) => p,
        Err(e) => return Err(e),
    };
    gl.push(GlCall::Enable(BLEND));
    gl.push(GlCall::StencilMask(0xff));
    let composite_texture = match GlTexture::from_data(&mut gl, width, height, None) {
        Ok(t) => t,
        Err(e) => return Err(e),
    };
    let composite_fbo = match Framebuffer::new(&mut gl) {
        Ok(f) => f,
        Err(e) => return Err(e),
    };
    composite_fbo.attach_texture(&mut gl, &composite_texture);
    let scene = match Scene::flatten(root) {
        Ok(sc) => sc,
        Err(SceneError::InvalidMesh) => return Err("a part's mesh cannot be laid out".to_owned()),
    };
    let mut verts = Vbo::from(copy_values(&scene.verts));
    let mut uvs = Vbo::from(copy_values(&scene.uvs));
    let mut deform = Vbo::from(zeros(scene.verts.len()));
    let mut ibo = Vbo::from(copy_indices(&scene.indices));
    if verts.upload(&mut gl, ARRAY_BUFFER, STATIC_DRAW).is_err() {
        return Err("no device object name is left".to_owned());
    }
    gl.push(GlCall::VertexAttribPointer(0, 2, FIXED, false, 8, 0));
    gl.push(GlCall::EnableVertexAttribArray(0));
    if uvs.upload(&mut gl, ARRAY_BUFFER, STATIC_DRAW).is_err() {
        return Err("no device object name is left".to_owned());
    }
    gl.push(GlCall::VertexAttribPointer(1, 2, FIXED, false, 8, 0));
    gl.push(GlCall::EnableVertexAttribArray(1));
    if deform.upload(&mut gl, ARRAY_BUFFER, DYNAMIC_DRAW).is_err() {
        return Err("no device object name is left".to_owned());
    }
    gl.push(GlCall::VertexAttribPointer(2, 2, FIXED, false, 8, 0));
    gl.push(GlCall::EnableVertexAttribArray(2));
    if ibo.upload(&mut gl, ELEMENT_ARRAY_BUFFER, STATIC_DRAW).is_err() {
        return Err("no device object name is left".to_owned());
    }
    assert(gl.next_name == 13);
    let mut gl_textures: Vec<GlTexture> = Vec::new();
    let mut i: usize = 0;
    while i < textures.len()
        invariant
            gl.wf(),
            gl.next_name == 13 + i,
            gl_textures@.len() == i,
            i <= textures@.len(),
        decreases textures@.len() - i,
    {
        match &textures[i] {
            Texture::Rgba { width, height, data } => {
                if *width > i32::MAX as u32 || *height > i32::MAX as u32 {
                    proof {
                        assert(textures@[i as int]@.0 > i32::MAX || textures@[i as int]@.1 > i32::MAX);
                    }
                    return Err("a texture is too large".to_owned());
                }
                match GlTexture::from_data(&mut gl, *width, *height, Some(copy_bytes(data))) {
                    Ok(t) => gl_textures.push(t),
                    Err(e) => return Err(e),
                }
            },
        }
        i = i + 1;
    }
    if !check_table(&scene, gl_textures.len()) {
        proof {
            assert(scene_matches(scene, visit(*root, None, (0, 0, 0))) && !table_wf(scene, textures@.len()));
        }
        return Err("a part refers to a missing texture or masks with a non-part".to_owned());
    }
    let mut anims: Vec<Vec<Anim>> = Vec::new();
    let mut k: usize = 0;
    while k < scene.nodes.len()
        invariant
            k <= scene.nodes@.len(),
            anims@.len() == k,
            forall|jj: int| 0 <= jj < k ==> (#[trigger] anims@[jj])@.len() == 0,
        decreases scene.nodes@.len() - k,
    {
        anims.push(Vec::new());
        k = k + 1;
    }
    let res = Resources {
        scene,
        anims,
        verts,
        uvs,
        deform,
        ibo,
        textures: gl_textures,
        part_program,
        trans,
        ratio,
        composite_program,
        composite_fbo,
        composite_texture,
    };
    let state = DeviceState::new();
    proof {
        assert(state.masks@ =~= Seq::<Mask>::empty());
    }
    Ok(GlRenderer { gl, state, res })
}

fn copy_values(v: &Vec<i32>) -> (r: Vec<i32>)
    ensures
        r@ == v@,
{
    let mut r: Vec<i32> = Vec::with_capacity(v.len());
    let mut i: usize = 0;
    while i < v.len()
        invariant
            i <= v@.len(),
            r@ == v@.take(i as int),
        decreases v@.len() - i,
    {
        r.push(v[i]);
        i = i + 1;
        proof {
            assert(r@ =~= v@.take(i as int));
        }
    }
    proof {
        assert(v@.take(i as int) =~= v@);
    }
    r
}

fn copy_indices(v: &Vec<u16>) -> (r: Vec<u16>)
    ensures
        r@ == v@,
{
    let mut r: Vec<u16> = Vec::with_capacity(v.len());
    let mut i: usize = 0;
    while i < v.len()
        invariant
            i <= v@.len(),
            r@ == v@.take(i as int),
        decreases v@.len() - i,
    {
        r.push(v[i]);
        i = i + 1;
        proof {
            assert(r@ =~= v@.take(i as int));
        }
    }
    proof {
        assert(v@.take(i as int) =~= v@);
    }
    r
}

fn copy_bytes(v: &Vec<u8>) -> (r: Vec<u8>)
    ensures
        r@ == v@,
{
    let mut r: Vec<u8> = Vec::with_capacity(v.len());
    let mut i: usize = 0;
    while i < v.len()
        invariant
            i <= v@.len(),
            r@ == v@.take(i as int),
        decreases v@.len() - i,
    {
        r.push(v[i]);
        i = i + 1;
        proof {
            assert(r@ =~= v@.take(i as int));
        }
    }
    proof {
        assert(v@.take(i as int) =~= v@);
    }
    r
}

fn zeros(n: usize) -> (r: Vec<i32>)
    ensures
        r@.len() == n,
        forall|k: int| 0 <= k < n ==> r@[k] == 0,
{
    let mut r: Vec<i32> = Vec::with_capacity(n);
    let mut i: usize = 0;
    while i < n
        invariant
            i <= n,
            r@.len() == i,
            forall|k: int| 0 <= k < i ==> r@[k] == 0,
        decreases n - i,
    {
        r.push(0);
        i = i + 1;
    }
    r
}

impl GlRenderer {
    pub open spec fn wf(&self) -> bool {
        self.res.wf() && self.gl.wf()
    }

    /// Renders the records named by `order` (a draw order), in order.
    pub fn render_nodes(&mut self, order: &Vec<u32>)
        requires
            old(self).wf(),
        ensures
            final(self).wf(),
            final(self).res == old(self).res,
            final(self).gl.calls@ == old(self).gl.calls@ + frame(
                old(self).state@,
                old(self).res,
                order@,
                old(self).res.scene.nodes@.len(),
            ).0,
            final(self).state@ == frame(
                old(self).state@,
                old(self).res,
                order@,
                old(self).res.scene.nodes@.len(),
            ).1,
            no_composites(old(self).res.scene, order@) ==> {
                &&& stencil_clears(final(self).gl.calls@) == stencil_clears(old(self).gl.calls@)
                    + rebuilds(old(self).state.masks@, part_mask_sets(old(self).res.scene, order@))
                &&& final(self).state.masks@ == cache_fold(
                    old(self).state.masks@,
                    part_mask_sets(old(self).res.scene, order@),
                )
            },
    {
        let depth = self.res.scene.nodes.len();
        render_ids(&mut self.gl, &mut self.state, &self.res, order, depth);
    }

    /// Clears the colour buffer.
    pub fn clear(&mut self)
        ensures
            final(self).gl.calls@ == old(self).gl.calls@.push(GlCall::Clear(COLOR_BUFFER_BIT)),
            final(self).gl.next_name == old(self).gl.next_name,
            final(self).res == old(self).res,
            final(self).state == old(self).state,
    {
        self.gl.push(GlCall::Clear(COLOR_BUFFER_BIT));
    }

    /// Adapts to a viewport of `width` by `height` pixels.
    pub fn set_size(&mut self, width: i32, height: i32)
        requires
            old(self).wf(),
            width > 0,
            height >= 0,
        ensures
            final(self).wf(),
            final(self).res == old(self).res,
            final(self).state.texture == Some(old(self).res.composite_texture.texture),
            final(self).gl.calls@.len() >= old(self).gl.calls@.len() + 4,
            final(self).gl.calls@.take(old(self).gl.calls@.len() as int) == old(self).gl.calls@,
            final(self).gl.calls@[old(self).gl.calls@.len() as int] == GlCall::Viewport(0, 0, width, height),
            final(self).gl.calls@[old(self).gl.calls@.len() + 1int] == GlCall::Uniform1(
                old(self).res.ratio,
                clamp_i32(height as int * 65536 / width as int) as i32,
            ),
            final(self).gl.calls@.last() == GlCall::TexImage2D(crate::glow::TEXTURE_2D, width, height, None),
    {
        let ghost before = self.gl.calls@;
        self.gl.push(GlCall::Viewport(0, 0, width, height));
        let ratio = ((height as i64) * 65536) / (width as i64);
        self.gl.push(GlCall::Uniform1(self.res.ratio, clamp_to_i32(ratio as i128)));
        bind_texture(&mut self.gl, &mut self.state, self.res.composite_texture.texture);
        let ghost mid = self.gl.calls@;
        self.res.composite_texture.resize(&mut self.gl, width, height);
        proof {
            assert(self.gl.calls@.take(before.len() as int) =~= before);
            assert(self.gl.calls@[before.len() as int] == mid[before.len() as int]);
            assert(self.gl.calls@[before.len() + 1int] == mid[before.len() + 1int]);
        }
    }

    /// Evaluates every binding of `params` at the control positions
    /// `positions` (one per parameter), keeps for each part the
    /// contributions of the bindings that target it, in parameter and
    /// binding order, and uploads the summed deformations of the parts that
    /// have any.
    pub fn animate(&mut self, params: &Vec<Param>, positions: &ParamValues) -> (r: Result<(), Error>)
        requires
            old(self).wf(),
            params@.len() == positions.values@.len(),
            forall|i: int| 0 <= i < params@.len() ==> (#[trigger] params@[i]).wf(),
            forall|i: int|
                0 <= i < positions.values@.len() ==> unit_pos(#[trigger] positions.values@[i]),
        ensures
            r is Err <==> binding_unhandled(old(self).res.scene, params@),
            r matches Err(e) ==> e == Error::Unsupported && *final(self) == *old(self),
            final(self).wf(),
            final(self).res.scene == old(self).res.scene,
            r is Ok ==> forall|j: int|
                0 <= j < final(self).res.anims@.len() ==> (#[trigger] final(self).res.anims@[j])@.map_values(
                    |a: Anim| a@,
                ) == record_contribs(old(self).res.scene, params@, positions.values@, j),
            r is Ok ==> deform_uploads(
                old(self).gl.calls@,
                final(self).gl.calls@,
                old(self).res.scene,
                final(self).res.anims@,
            ),
    {
        if !bindings_handled(&self.res.scene, params) {
            return Err(Error::Unsupported);
        }
        let values = &positions.values;
        let n = self.res.scene.nodes.len();
        let mut anims: Vec<Vec<Anim>> = Vec::new();
        let mut j: usize = 0;
        while j < n
            invariant
                j <= n,
                n == self.res.scene.nodes@.len(),
                anims@.len() == j,
                self.wf(),
                self == old(self),
                *values == positions.values,
                params@.len() == values@.len(),
                forall|i: int| 0 <= i < params@.len() ==> (#[trigger] params@[i]).wf(),
                forall|i: int| 0 <= i < values@.len() ==> unit_pos(#[trigger] values@[i]),
                forall|jj: int|
                    0 <= jj < j ==> (#[trigger] anims@[jj])@.map_values(|a: Anim| a@) == record_contribs(
                        self.res.scene,
                        params@,
                        values@,
                        jj,
                    ),
            decreases n - j,
        {
            let mut list: Vec<Anim> = Vec::new();
            let ghost sc = self.res.scene;
            proof {
                assert(list@.map_values(|a: Anim| a@) =~= param_contribs(sc, params@.take(0), values@, j as int));
            }
            if matches!(self.res.scene.nodes[j].kind, FlatKind::Part(_)) {
                let mut pi: usize = 0;
                while pi < params.len()
                    invariant
                        pi <= params@.len(),
                        j < n,
                        sc == self.res.scene,
                        params@.len() == values@.len(),
                        forall|i: int| 0 <= i < params@.len() ==> (#[trigger] params@[i]).wf(),
                        forall|i: int| 0 <= i < values@.len() ==> unit_pos(#[trigger] values@[i]),
                        list@.map_values(|a: Anim| a@) == param_contribs(sc, params@.take(pi as int), values@, j as int),
                    decreases params@.len() - pi,
                {
                    let p = &params[pi];
                    let ghost head = list@.map_values(|a: Anim| a@);
                    let ghost pos0 = values@[pi as int][0] as i32;
                    let ghost pos1 = values@[pi as int][1] as i32;
                    let mut bi: usize = 0;
                    proof {
                        assert(list@.map_values(|a: Anim| a@) =~= head + binding_contribs(sc, p.bindings@.take(0), p.axis_points[0]@, p.axis_points[1]@, pos0, pos1, j as int));
                    }
                    while bi < p.bindings.len()
                        invariant
                            bi <= p.bindings@.len(),
                            pi < params@.len(),
                            sc == self.res.scene,
                            *p == params@[pi as int],
                            p.wf(),
                            unit_pos(values@[pi as int]),
                            pi < values@.len(),
                            pos0 == values@[pi as int][0] as i32,
                            pos1 == values@[pi as int][1] as i32,
                            list@.map_values(|a: Anim| a@) == head + binding_contribs(sc, p.bindings@.take(bi as int), p.axis_points[0]@, p.axis_points[1]@, pos0, pos1, j as int),
                        decreases p.bindings@.len() - bi,
                    {
                        let b = &p.bindings[bi];
                        let ghost before = list@.map_values(|a: Anim| a@);
                        proof {
                            let t = p.bindings@.take(bi + 1);
                            assert(t.drop_last() =~= p.bindings@.take(bi as int));
                            assert(t.last() == *b);
                        }
                        if find(&self.res.scene, b.node) == Some(j) {
                            proof {
                                assert(binding_wf(p.bindings@[bi as int], p.axis_points[0]@, p.axis_points[1]@));
                            }
                            let v = values[pi];
                            let pos: [i32; 2] = [v[0] as i32, v[1] as i32];
                            match b.interpolate(&p.axis_points, pos) {
                                Some(a) => {
                                    list.push(a);
                                    proof {
                                        assert(list@.map_values(|a: Anim| a@) =~= before.push(a@));
                                    }
                                },
                                None => {},
                            }
                        }
                        bi = bi + 1;
                    }
                    proof {
                        assert(p.bindings@.take(bi as int) =~= p.bindings@);
                        let t = params@.take(pi + 1);
                        assert(t.drop_last() =~= params@.take(pi as int));
                        assert(t.last() == *p);
                    }
                    pi = pi + 1;
                }
                proof {
                    assert(params@.take(pi as int) =~= params@);
                }
            }
            anims.push(list);
            j = j + 1;
        }
        let ghost c0 = self.gl.calls@;
        let ghost sc = self.res.scene;
        proof {
            assert(c0.take(c0.len() as int) =~= c0);
            assert(upload_records(sc, anims@, 0) == Seq::<int>::empty());
        }
        let mut k: usize = 0;
        while k < n
            invariant
                k <= n,
                n == self.res.scene.nodes@.len(),
                anims@.len() == n,
                self.wf(),
                self.res == old(self).res,
                sc == self.res.scene,
                c0 == old(self).gl.calls@,
                uploads_upto(c0, self.gl.calls@, sc, anims@, k as int),
            decreases n - k,
        {
            let ghost ck = self.gl.calls@;
            match &self.res.scene.nodes[k].kind {
                FlatKind::Part(part) => {
                    if has_deform(&anims[k]) {
                        let d = sum_deform(&anims[k], part.num_verts);
                        let offset = clamp_to_i32(part.start_deform as i128);
                        self.res.deform.update(&mut self.gl, offset, d);
                        proof {
                            let ups = upload_records(sc, anims@, k as int);
                            assert(upload_records(sc, anims@, k + 1) == ups.push(k as int));
                            assert forall|m: int| 0 <= m < ups.len() + 1 implies upload_ok(
                                #[trigger] self.gl.calls@[c0.len() + m],
                                anims@[upload_records(sc, anims@, k + 1)[m]]@,
                                sc.nodes@[upload_records(sc, anims@, k + 1)[m]].kind->Part_0,
                            ) by {
                                if m < ups.len() {
                                    assert(self.gl.calls@[c0.len() + m] == ck[c0.len() + m]);
                                }
                            }
                            assert(self.gl.calls@.take(c0.len() as int) =~= ck.take(c0.len() as int));
                        }
                    } else {
                        proof {
                            assert(upload_records(sc, anims@, k + 1) == upload_records(sc, anims@, k as int));
                        }
                    }
                },
                _ => {
                    proof {
                        assert(upload_records(sc, anims@, k + 1) == upload_records(sc, anims@, k as int));
                    }
                },
            }
            k = k + 1;
        }
        self.res.anims = anims;
        Ok(())
    }
}

/// Some binding of `ps` targets a record of `sc` that is not a part: the
/// channels of groups and composites are not animated.
pub open spec fn binding_unhandled(sc: Scene, ps: Seq<Param>) -> bool {
    exists|pi: int, bi: int|
        0 <= pi < ps.len() && 0 <= bi < ps[pi].bindings@.len() && (match find_from(
            sc.nodes@,
            #[trigger] ps[pi].bindings@[bi].node,
            0,
        ) {
            Some(j) => !(sc.nodes@[j].kind is Part),
            None => false,
        })
}

/// Whether no binding of `params` targets a record that is not a part.
fn bindings_handled(sc: &Scene, params: &Vec<Param>) -> (r: bool)
    ensures
        r == !binding_unhandled(*sc, params@),
{
    let mut pi: usize = 0;
    while pi < params.len()
        invariant
            pi <= params@.len(),
            forall|a: int, bi: int|
                0 <= a < pi && 0 <= bi < params@[a].bindings@.len() ==> match find_from(
                    sc.nodes@,
                    #[trigger] params@[a].bindings@[bi].node,
                    0,
                ) {
                    Some(j) => sc.nodes@[j].kind is Part,
                    None => true,
                },
        decreases params@.len() - pi,
    {
        let p = &params[pi];
        let mut bi: usize = 0;
        while bi < p.bindings.len()
            invariant
                bi <= p.bindings@.len(),
                pi < params@.len(),
                *p == params@[pi as int],
                forall|a: int, bb: int|
                    0 <= a < pi && 0 <= bb < params@[a].bindings@.len() ==> match find_from(
                        sc.nodes@,
                        #[trigger] params@[a].bindings@[bb].node,
                        0,
                    ) {
                        Some(j) => sc.nodes@[j].kind is Part,
                        None => true,
                    },
                forall|bb: int|
                    0 <= bb < bi ==> match find_from(sc.nodes@, #[trigger] p.bindings@[bb].node, 0) {
                        Some(j) => sc.nodes@[j].kind is Part,
                        None => true,
                    },
            decreases p.bindings@.len() - bi,
        {
            match find(sc, p.bindings[bi].node) {
                Some(j) => {
                    if !matches!(sc.nodes[j].kind, FlatKind::Part(_)) {
                        proof {
                            assert(params@[pi as int].bindings@[bi as int] == p.bindings@[bi as int]);
                        }
                        return false;
                    }
                },
                None => {},
            }
            bi = bi + 1;
        }
        pi = pi + 1;
    }
    true
}

/// The indices, in table order, of the part records before `k` whose
/// contributions hold a deformation.
pub open spec fn upload_records(sc: Scene, anims: Seq<Vec<Anim>>, k: int) -> Seq<int>
    decreases k,
{
    if k <= 0 {
        Seq::empty()
    } else {
        let rest = upload_records(sc, anims, k - 1);
        if sc.nodes@[k - 1].kind is Part && exists|i: int|
            0 <= i < anims[k - 1]@.len() && (#[trigger] anims[k - 1]@[i]) is Deform {
            rest.push(k - 1)
        } else {
            rest
        }
    }
}

/// `c` uploads the summed deformation of a part with contributions `anims`:
/// each vertex value is the sum of the deformations' offsets at it, limited
/// to the range of `i32`, written at the part's place in the buffer.
pub open spec fn upload_ok(c: GlCall, anims: Seq<Anim>, part: crate::scene::FlatPart) -> bool {
    c matches GlCall::BufferSubDataFixed(t, off, d) && t == ARRAY_BUFFER && off as int == clamp_i32(
        part.start_deform as int,
    ) && d@.len() == part.num_verts && forall|i: int|
        0 <= i < part.num_verts ==> #[trigger] d@[i] as int == clamp_i32(deform_sum(anims, i))
}

/// After `before`, `after` holds one upload per part record before `k`
/// that has a deformation, in table order, and nothing else.
pub open spec fn uploads_upto(
    before: Seq<GlCall>,
    after: Seq<GlCall>,
    sc: Scene,
    anims: Seq<Vec<Anim>>,
    k: int,
) -> bool {
    let ups = upload_records(sc, anims, k);
    &&& after.len() == before.len() + ups.len()
    &&& after.take(before.len() as int) == before
    &&& forall|m: int|
        0 <= m < ups.len() ==> upload_ok(
            #[trigger] after[before.len() + m],
            anims[ups[m]]@,
            sc.nodes@[ups[m]].kind->Part_0,
        )
}

/// The calls after `before` upload the summed deformation of every part
/// record whose contributions hold one, in table order.
pub open spec fn deform_uploads(
    before: Seq<GlCall>,
    after: Seq<GlCall>,
    sc: Scene,
    anims: Seq<Vec<Anim>>,
) -> bool {
    uploads_upto(before, after, sc, anims, sc.nodes@.len() as int)
}

/// The contributions that bindings `bs` of one parameter, at `(pos0, pos1)`,
/// make to record `j` of `sc`, in order.
pub open spec fn binding_contribs(
    sc: Scene,
    bs: Seq<Binding>,
    ax0: Seq<i32>,
    ax1: Seq<i32>,
    pos0: i32,
    pos1: i32,
    j: int,
) -> Seq<(Option<Channel>, Seq<int>)>
    decreases bs.len(),
{
    if bs.len() == 0 {
        Seq::empty()
    } else {
        let rest = binding_contribs(sc, bs.drop_last(), ax0, ax1, pos0, pos1, j);
        let b = bs.last();
        if find_from(sc.nodes@, b.node, 0) == Some(j) {
            match contribution(b, ax0, ax1, pos0, pos1) {
                Some(a) => rest.push(a),
                None => rest,
            }
        } else {
            rest
        }
    }
}

/// The contributions of the parameters `ps`, at the positions `vs`, to
/// record `j` of `sc`, in order.
pub open spec fn param_contribs(sc: Scene, ps: Seq<Param>, vs: Seq<[i64; 2]>, j: int) -> Seq<
    (Option<Channel>, Seq<int>),
>
    decreases ps.len(),
{
    if ps.len() == 0 {
        Seq::empty()
    } else {
        let p = ps.last();
        let v = vs[ps.len() - 1];
        param_contribs(sc, ps.drop_last(), vs, j) + binding_contribs(
            sc,
            p.bindings@,
            p.axis_points[0]@,
            p.axis_points[1]@,
            v[0] as i32,
            v[1] as i32,
            j,
        )
    }
}

/// The contributions that record `j` of `sc` holds: those of all bindings
/// that target it if it is a part, none otherwise.
pub open spec fn record_contribs(sc: Scene, ps: Seq<Param>, vs: Seq<[i64; 2]>, j: int) -> Seq<
    (Option<Channel>, Seq<int>),
> {
    if sc.nodes@[j].kind is Part {
        param_contribs(sc, ps, vs, j)
    } else {
        Seq::empty()
    }
}

/// A control position with both coordinates in `[0, 1]`.
pub open spec fn unit_pos(v: [i64; 2]) -> bool {
    0 <= v[0] <= 65536 && 0 <= v[1] <= 65536
}

/// Whether some animation among `anims` is a deformation.
fn has_deform(anims: &Vec<Anim>) -> (r: bool)
    ensures
        r == exists|i: int| 0 <= i < anims@.len() && anims@[i] is Deform,
{
    let mut i: usize = 0;
    while i < anims.len()
        invariant
            i <= anims@.len(),
            forall|k: int| 0 <= k < i ==> !(anims@[k] is Deform),
        decreases anims@.len() - i,
    {
        if matches!(anims[i], Anim::Deform(_)) {
            return true;
        }
        i = i + 1;
    }
    false
}

} // verus!
