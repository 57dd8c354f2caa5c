//! Flattening of the scene tree into a render table with shared vertex and
//! index buffers, and the z-ordered draw sequence.
//!
//! The traversal is depth first, parents before children. A disabled node is
//! pruned with its whole subtree; simple-physics nodes draw nothing and are
//! left out of the table. Only translation propagates from ancestors: a
//! node's world translation is its own plus that of every strict ancestor.
use crate::model::{BlendMode, Mask, Node, NodeKind, Transform};
use vstd::prelude::*;

verus! {

/// A node as the traversal meets it: with its parent's id and its world
/// translation.
pub struct Visit {
    pub node: Node,
    pub parent: Option<u32>,
    pub world: (int, int, int),
}

/// The world translation of `n` below a parent at `acc`.
pub open spec fn world_of(n: Node, acc: (int, int, int)) -> (int, int, int) {
    (
        acc.0 + n.transform.trans[0] as int,
        acc.1 + n.transform.trans[1] as int,
        acc.2 + n.transform.trans[2] as int,
    )
}

/// The nodes that flattening records, in traversal order.
pub open spec fn visit(n: Node, parent: Option<u32>, acc: (int, int, int)) -> Seq<Visit>
    decreases n,
{
    if !n.enabled {
        Seq::empty()
    } else if n.kind is SimplePhysics {
        Seq::empty()
    } else {
        let w = world_of(n, acc);
        seq![Visit { node: n, parent, world: w }] + visit_children(n.children@, Some(n.uuid), w)
    }
}

/// The nodes that flattening records below a list of siblings.
pub open spec fn visit_children(s: Seq<Node>, parent: Option<u32>, acc: (int, int, int)) -> Seq<
    Visit,
>
    decreases s,
{
    if s.len() == 0 {
        Seq::empty()
    } else {
        visit_children(s.drop_last(), parent, acc) + visit(s.last(), parent, acc)
    }
}

/// The ids of every node of a tree, enabled or not, in traversal order.
pub open spec fn all_ids(n: Node) -> Seq<u32>
    decreases n,
{
    seq![n.uuid] + all_ids_children(n.children@)
}

pub open spec fn all_ids_children(s: Seq<Node>) -> Seq<u32>
    decreases s,
{
    if s.len() == 0 {
        Seq::empty()
    } else {
        all_ids_children(s.drop_last()) + all_ids(s.last())
    }
}

/// What is recorded for a part.
#[derive(Debug)]
pub struct FlatPart {
    /// Where its entries start in the index buffer.
    pub start_index: usize,
    pub num_indices: usize,
    /// Where its vertex values start in the vertex (and deformation) buffer.
    pub start_deform: usize,
    /// How many vertex values (two per vertex) it has.
    pub num_verts: usize,
    pub textures: [usize; 3],
    pub blend_mode: BlendMode,
    pub masks: Vec<Mask>,
}

/// What is recorded for a composite: the ids of its descendants that only
/// enabled nodes lead to, which it renders offscreen.
#[derive(Debug)]
pub struct FlatComposite {
    pub blend_mode: BlendMode,
    pub children: Vec<u32>,
}

#[derive(Debug)]
pub enum FlatKind {
    Group,
    Part(FlatPart),
    Composite(FlatComposite),
}

/// One record of the render table.
#[derive(Debug)]
pub struct FlatNode {
    pub uuid: u32,
    pub parent: Option<u32>,
    pub transform: Transform,
    /// The node's translation plus that of every strict ancestor.
    pub world_trans: [i64; 3],
    pub kind: FlatKind,
}

/// The render table and the shared buffers. The buffers start with the four
/// vertices of a full-viewport quad, which composites are drawn with.
#[derive(Debug)]
pub struct Scene {
    pub nodes: Vec<FlatNode>,
    pub verts: Vec<i32>,
    pub uvs: Vec<i32>,
    pub indices: Vec<u16>,
}

/// Why a tree cannot be flattened.
#[derive(Debug, Clone, Copy, PartialEq, Eq, Structural)]
pub enum SceneError {
    /// A part's mesh has unpaired vertex values, fewer or more texture
    /// coordinates than vertex values, or an index that does not fit the
    /// 16-bit index buffer; or a world translation leaves the 64-bit range.
    InvalidMesh,
}

pub open spec fn quad_verts() -> Seq<i32> {
    seq![-65536i32, -65536i32, -65536i32, 65536i32, 65536i32, -65536i32, 65536i32, 65536i32]
}

pub open spec fn quad_uvs() -> Seq<i32> {
    seq![0i32, 0i32, 0i32, 65536i32, 65536i32, 0i32, 65536i32, 65536i32]
}

/// The vertex values of the parts among `vis`, in order.
pub open spec fn part_verts(vis: Seq<Visit>) -> Seq<i32>
    decreases vis.len(),
{
    if vis.len() == 0 {
        Seq::empty()
    } else {
        part_verts(vis.drop_last()) + match vis.last().node.kind {
            NodeKind::Part(p) => p.mesh.verts@,
            _ => Seq::empty(),
        }
    }
}

/// The texture coordinates of the parts among `vis`, in order.
pub open spec fn part_uvs(vis: Seq<Visit>) -> Seq<i32>
    decreases vis.len(),
{
    if vis.len() == 0 {
        Seq::empty()
    } else {
        part_uvs(vis.drop_last()) + match vis.last().node.kind {
            NodeKind::Part(p) => p.mesh.uvs@,
            _ => Seq::empty(),
        }
    }
}

/// The number of the first vertex after the quad and the parts among `vis`.
pub open spec fn vertex_base(vis: Seq<Visit>) -> int {
    4 + part_verts(vis).len() as int / 2
}

pub open spec fn offset_indices(ix: Seq<u16>, base: int) -> Seq<u16> {
    ix.map_values(|i: u16| (i + base) as u16)
}

/// The index buffer of the parts among `vis`: each part's indices moved by
/// the number of vertices before it.
pub open spec fn part_indices(vis: Seq<Visit>) -> Seq<u16>
    decreases vis.len(),
{
    if vis.len() == 0 {
        Seq::empty()
    } else {
        part_indices(vis.drop_last()) + match vis.last().node.kind {
            NodeKind::Part(p) => offset_indices(p.mesh.indices@, vertex_base(vis.drop_last())),
            _ => Seq::empty(),
        }
    }
}

pub open spec fn fits_i64(x: int) -> bool {
    i64::MIN <= x <= i64::MAX
}

/// A visited node can be recorded after those of `prefix`.
pub open spec fn visit_ok(v: Visit, prefix: Seq<Visit>) -> bool {
    &&& fits_i64(v.world.0) && fits_i64(v.world.1) && fits_i64(v.world.2)
    &&& match v.node.kind {
        NodeKind::Part(p) => {
            &&& p.mesh.verts@.len() == p.mesh.uvs@.len()
            &&& p.mesh.verts@.len() % 2 == 0
            &&& forall|i: int|
                0 <= i < p.mesh.indices@.len() ==> #[trigger] p.mesh.indices@[i] + vertex_base(
                    prefix,
                ) <= 0xFFFF
        },
        _ => true,
    }
}

pub open spec fn visits_ok(vis: Seq<Visit>) -> bool {
    forall|k: int| 0 <= k < vis.len() ==> visit_ok(#[trigger] vis[k], vis.take(k))
}

/// The record of `v`, placed after those of `prefix`.
pub open spec fn entry_matches(e: FlatNode, v: Visit, prefix: Seq<Visit>) -> bool {
    &&& e.uuid == v.node.uuid
    &&& e.parent == v.parent
    &&& e.transform == v.node.transform
    &&& e.world_trans[0] as int == v.world.0
    &&& e.world_trans[1] as int == v.world.1
    &&& e.world_trans[2] as int == v.world.2
    &&& match v.node.kind {
        NodeKind::Group => e.kind is Group,
        NodeKind::Part(p) => e.kind matches FlatKind::Part(fp) && fp.start_index
            == part_indices(prefix).len() && fp.num_indices == p.mesh.indices@.len()
            && fp.start_deform == 8 + part_verts(prefix).len() && fp.num_verts
            == p.mesh.verts@.len() && fp.textures == p.textures && fp.blend_mode == p.blend_mode
            && fp.masks@ == p.masks@,
        NodeKind::Composite(c) => e.kind matches FlatKind::Composite(fc) && fc.blend_mode
            == c.blend_mode && fc.children@ == live_ids_children(v.node.children@),
        NodeKind::SimplePhysics(_) => false,
    }
}

/// `sc` records exactly the nodes `vis`.
pub open spec fn scene_matches(sc: Scene, vis: Seq<Visit>) -> bool {
    &&& sc.nodes@.len() == vis.len()
    &&& forall|k: int|
        0 <= k < vis.len() ==> entry_matches(#[trigger] sc.nodes@[k], vis[k], vis.take(k))
    &&& sc.verts@ == quad_verts() + part_verts(vis)
    &&& sc.uvs@ == quad_uvs() + part_uvs(vis)
    &&& sc.indices@ == part_indices(vis)
}

/// The ids of a node and of the descendants that only enabled nodes lead
/// to; nothing for a disabled node.
pub fn collect_children_uuids(node: &Node) -> (r: Vec<u32>)
    ensures
        r@ == live_ids(*node),
    decreases node,
{
    let mut uuids: Vec<u32> = Vec::new();
    if !node.enabled {
        return uuids;
    }
    uuids.push(node.uuid);
    let mut k: usize = 0;
    while k < node.children.len()
        invariant
            node.enabled,
            k <= node.children@.len(),
            uuids@ == seq![node.uuid] + live_ids_children(node.children@.take(k as int)),
        decreases node.children@.len() - k,
    {
        let child = &node.children[k];
        proof {
            assert(decreases_to!(node => node.children@[k as int]));
        }
        let sub = collect_children_uuids(child);
        append_ids(&mut uuids, &sub);
        proof {
            let t = node.children@.take(k + 1);
            assert(t.drop_last() =~= node.children@.take(k as int));
            assert(t.last() == *child);
        }
        k = k + 1;
    }
    proof {
        assert(node.children@.take(k as int) =~= node.children@);
    }
    uuids
}

fn append_ids(out: &mut Vec<u32>, ids: &Vec<u32>)
    ensures
        final(out)@ == old(out)@ + ids@,
{
    let mut i: usize = 0;
    while i < ids.len()
        invariant
            i <= ids@.len(),
            out@ == old(out)@ + ids@.take(i as int),
        decreases ids@.len() - i,
    {
        out.push(ids[i]);
        i = i + 1;
        proof {
            assert(out@ =~= old(out)@ + ids@.take(i as int));
        }
    }
    proof {
        assert(ids@.take(i as int) =~= ids@);
    }
}

/// The ids of the descendants of a node that only enabled nodes lead to.
fn collect_descendants(node: &Node) -> (r: Vec<u32>)
    ensures
        r@ == live_ids_children(node.children@),
{
    let mut uuids: Vec<u32> = Vec::new();
    let mut k: usize = 0;
    while k < node.children.len()
        invariant
            k <= node.children@.len(),
            uuids@ == live_ids_children(node.children@.take(k as int)),
        decreases node.children@.len() - k,
    {
        let child = &node.children[k];
        let sub = collect_children_uuids(child);
        append_ids(&mut uuids, &sub);
        proof {
            let t = node.children@.take(k + 1);
            assert(t.drop_last() =~= node.children@.take(k as int));
            assert(t.last() == *child);
        }
        k = k + 1;
    }
    proof {
        assert(node.children@.take(k as int) =~= node.children@);
    }
    uuids
}

fn copy_masks(v: &Vec<Mask>) -> (r: Vec<Mask>)
    ensures
        r@ == v@,
{
    let mut r: Vec<Mask> = Vec::new();
    let mut i: usize = 0;
    while i < v.len()
        invariant
            i <= v@.len(),
            r@ == v@.take(i as int),
        decreases v@.len() - i,
    {
        r.push(v[i]);
        i = i + 1;
        proof {
            assert(r@ =~= v@.take(i as int));
        }
    }
    proof {
        assert(v@.take(i as int) =~= v@);
    }
    r
}

fn append_values(out: &mut Vec<i32>, vals: &Vec<i32>)
    ensures
        final(out)@ == old(out)@ + vals@,
{
    let mut i: usize = 0;
    while i < vals.len()
        invariant
            i <= vals@.len(),
            out@ == old(out)@ + vals@.take(i as int),
        decreases vals@.len() - i,
    {
        out.push(vals[i]);
        i = i + 1;
        proof {
            assert(out@ =~= old(out)@ + vals@.take(i as int));
        }
    }
    proof {
        assert(vals@.take(i as int) =~= vals@);
    }
}

pub open spec fn acc3(a: [i64; 3]) -> (int, int, int) {
    (a[0] as int, a[1] as int, a[2] as int)
}

proof fn lemma_visits_ok_take(s: Seq<Visit>, m: int)
    requires
        visits_ok(s),
        0 <= m <= s.len(),
    ensures
        visits_ok(s.take(m)),
{
    assert forall|k: int| 0 <= k < s.take(m).len() implies visit_ok(
        #[trigger] s.take(m)[k],
        s.take(m).take(k),
    ) by {
        assert(s.take(m).take(k) =~= s.take(k));
        assert(visit_ok(s[k], s.take(k)));
    }
}

proof fn lemma_visits_ok_push(s: Seq<Visit>, v: Visit)
    requires
        visits_ok(s),
        visit_ok(v, s),
    ensures
        visits_ok(s.push(v)),
{
    assert forall|k: int| 0 <= k < s.push(v).len() implies visit_ok(
        #[trigger] s.push(v)[k],
        s.push(v).take(k),
    ) by {
        if k < s.len() {
            assert(s.push(v).take(k) =~= s.take(k));
        } else {
            assert(s.push(v).take(k) =~= s);
        }
    }
}

proof fn lemma_visit_children_prefix(s: Seq<Node>, m: int, p: Option<u32>, a: (int, int, int))
    requires
        0 <= m <= s.len(),
    ensures
        visit_children(s.take(m), p, a).len() <= visit_children(s, p, a).len(),
        visit_children(s, p, a).take(visit_children(s.take(m), p, a).len() as int)
            == visit_children(s.take(m), p, a),
    decreases s.len(),
{
    if m == s.len() {
        assert(s.take(m) =~= s);
        assert(visit_children(s, p, a).take(visit_children(s, p, a).len() as int) =~= visit_children(
            s,
            p,
            a,
        ));
    } else {
        assert(s.drop_last().take(m) =~= s.take(m));
        lemma_visit_children_prefix(s.drop_last(), m, p, a);
        let x = visit_children(s.take(m), p, a);
        let y = visit_children(s.drop_last(), p, a);
        assert(visit_children(s, p, a) == y + visit(s.last(), p, a));
        assert((y + visit(s.last(), p, a)).take(x.len() as int) =~= y.take(x.len() as int));
    }
}

/// The scene after recording `v` behind `vis`, with `sc` holding `vis`.
proof fn lemma_entries_kept(sc_old: Scene, sc_new: Scene, vis: Seq<Visit>, v: Visit)
    requires
        scene_matches(sc_old, vis),
        sc_new.nodes@.len() == vis.len() + 1,
        forall|k: int| 0 <= k < vis.len() ==> sc_new.nodes@[k] == sc_old.nodes@[k],
        entry_matches(sc_new.nodes@[vis.len() as int], v, vis),
    ensures
        forall|k: int|
            0 <= k < vis.len() + 1 ==> entry_matches(
                #[trigger] sc_new.nodes@[k],
                vis.push(v)[k],
                vis.push(v).take(k),
            ),
{
    assert forall|k: int| 0 <= k < vis.len() + 1 implies entry_matches(
        #[trigger] sc_new.nodes@[k],
        vis.push(v)[k],
        vis.push(v).take(k),
    ) by {
        if k < vis.len() {
            assert(vis.push(v).take(k) =~= vis.take(k));
            assert(entry_matches(sc_old.nodes@[k], vis[k], vis.take(k)));
        } else {
            assert(vis.push(v).take(k) =~= vis);
        }
    }
}

impl Scene {
    /// A table with no record, and buffers holding only the quad.
    fn empty() -> (r: Scene)
        ensures
            scene_matches(r, Seq::empty()),
    {
        let verts = vec![-65536i32, -65536i32, -65536i32, 65536i32, 65536i32, -65536i32, 65536i32, 65536i32];
        let uvs = vec![0i32, 0i32, 0i32, 65536i32, 65536i32, 0i32, 65536i32, 65536i32];
        let r = Scene { nodes: Vec::new(), verts, uvs, indices: Vec::new() };
        proof {
            assert(r.verts@ =~= quad_verts() + part_verts(Seq::empty()));
            assert(r.uvs@ =~= quad_uvs() + part_uvs(Seq::empty()));
            assert(r.indices@ =~= part_indices(Seq::empty()));
        }
        r
    }

    /// Records a group or composite node.
    fn push_record(&mut self, node: &Node, parent: Option<u32>, world: [i64; 3], vis: Ghost<Seq<Visit>>)
        requires
            scene_matches(*old(self), vis@),
            node.kind is Group || node.kind is Composite,
        ensures
            scene_matches(
                *final(self),
                vis@.push(Visit { node: *node, parent, world: acc3(world) }),
            ),
    {
        let ghost v = Visit { node: *node, parent, world: acc3(world) };
        let kind = match &node.kind {
            NodeKind::Composite(c) => FlatKind::Composite(
                FlatComposite { blend_mode: c.blend_mode, children: collect_descendants(node) },
            ),
            _ => FlatKind::Group,
        };
        let ghost old_sc = *self;
        self.nodes.push(FlatNode { uuid: node.uuid, parent, transform: node.transform, world_trans: world, kind });
        proof {
            let w = vis@.push(v);
            assert(w.drop_last() =~= vis@);
            lemma_entries_kept(old_sc, *self, vis@, v);
            assert(self.verts@ =~= quad_verts() + part_verts(w));
            assert(self.uvs@ =~= quad_uvs() + part_uvs(w));
            assert(self.indices@ =~= part_indices(w));
        }
    }

    /// Records a part, its vertices and its indices.
    fn push_part(&mut self, node: &Node, parent: Option<u32>, world: [i64; 3], vis: Ghost<Seq<Visit>>)
        -> (r: Result<(), SceneError>)
        requires
            scene_matches(*old(self), vis@),
            node.kind is Part,
        ensures
            match r {
                Ok(_) => {
                    &&& scene_matches(
                        *final(self),
                        vis@.push(Visit { node: *node, parent, world: acc3(world) }),
                    )
                    &&& visit_ok(Visit { node: *node, parent, world: acc3(world) }, vis@)
                },
                Err(_) => !visit_ok(Visit { node: *node, parent, world: acc3(world) }, vis@),
            },
    {
        let ghost v = Visit { node: *node, parent, world: acc3(world) };
        let p = match &node.kind {
            NodeKind::Part(p) => p,
            _ => return Err(SceneError::InvalidMesh),
        };
        let mesh = &p.mesh;
        let nv = mesh.verts.len();
        if nv != mesh.uvs.len() || nv % 2 != 0 {
            proof {
                assert(v.node.kind == NodeKind::Part(*p));
            }
            return Err(SceneError::InvalidMesh);
        }
        let base = self.verts.len() / 2;
        assert(base == vertex_base(vis@));
        let mut i: usize = 0;
        while i < mesh.indices.len()
            invariant
                i <= mesh.indices@.len(),
                base == vertex_base(vis@),
                base <= usize::MAX / 2,
                forall|j: int| 0 <= j < i ==> #[trigger] mesh.indices@[j] + vertex_base(vis@) <= 0xFFFF,
                scene_matches(*self, vis@),
                node.kind == NodeKind::Part(*p),
                *mesh == p.mesh,
                v == (Visit { node: *node, parent, world: acc3(world) }),
            decreases mesh.indices@.len() - i,
        {
            if mesh.indices[i] as usize + base > 0xFFFF {
                proof {
                    assert(v.node.kind == NodeKind::Part(*p));
                    assert(!visit_ok(v, vis@));
                }
                return Err(SceneError::InvalidMesh);
            }
            i = i + 1;
        }
        let ghost old_sc = *self;
        let start_index = self.indices.len();
        let start_deform = self.verts.len();
        append_values(&mut self.verts, &mesh.verts);
        append_values(&mut self.uvs, &mesh.uvs);
        let mut j: usize = 0;
        while j < mesh.indices.len()
            invariant
                j <= mesh.indices@.len(),
                base == vertex_base(vis@),
                base <= usize::MAX / 2,
                forall|k: int| 0 <= k < mesh.indices@.len() ==> #[trigger] mesh.indices@[k] + vertex_base(vis@) <= 0xFFFF,
                self.indices@ == old_sc.indices@ + offset_indices(mesh.indices@, base as int).take(j as int),
                self.nodes == old_sc.nodes,
                self.verts@ == old_sc.verts@ + mesh.verts@,
                self.uvs@ == old_sc.uvs@ + mesh.uvs@,
            decreases mesh.indices@.len() - j,
        {
            let x = (mesh.indices[j] as usize + base) as u16;
            self.indices.push(x);
            j = j + 1;
            proof {
                assert(self.indices@ =~= old_sc.indices@ + offset_indices(mesh.indices@, base as int).take(j as int));
            }
        }
        let masks = copy_masks(&p.masks);
        let record = FlatPart {
            start_index,
            num_indices: mesh.indices.len(),
            start_deform,
            num_verts: nv,
            textures: p.textures,
            blend_mode: p.blend_mode,
            masks,
        };
        let ghost mid = *self;
        self.nodes.push(FlatNode { uuid: node.uuid, parent, transform: node.transform, world_trans: world, kind: FlatKind::Part(record) });
        proof {
            let w = vis@.push(v);
            assert(w.drop_last() =~= vis@);
            assert(offset_indices(mesh.indices@, base as int).take(j as int) =~= offset_indices(mesh.indices@, base as int));
            lemma_entries_kept(old_sc, *self, vis@, v);
            assert(self.verts@ =~= quad_verts() + part_verts(w));
            assert(self.uvs@ =~= quad_uvs() + part_uvs(w));
            assert(self.indices@ =~= part_indices(w));
        }
        Ok(())
    }

    /// Records `node` and its subtree behind the records of `vis`.
    fn flatten_nodes(&mut self, node: &Node, parent: Option<u32>, acc: [i64; 3], vis: Ghost<Seq<Visit>>)
        -> (r: Result<(), SceneError>)
        requires
            scene_matches(*old(self), vis@),
            visits_ok(vis@),
        ensures
            match r {
                Ok(_) => {
                    &&& scene_matches(*final(self), vis@ + visit(*node, parent, acc3(acc)))
                    &&& visits_ok(vis@ + visit(*node, parent, acc3(acc)))
                },
                Err(_) => !visits_ok(vis@ + visit(*node, parent, acc3(acc))),
            },
        decreases node,
    {
        let ghost full = vis@ + visit(*node, parent, acc3(acc));
        if !node.enabled {
            proof {
                assert(full =~= vis@);
            }
            return Ok(());
        }
        if matches!(node.kind, NodeKind::SimplePhysics(_)) {
            proof {
                assert(full =~= vis@);
            }
            return Ok(());
        }
        let ghost w = world_of(*node, acc3(acc));
        let ghost v = Visit { node: *node, parent, world: w };
        let ghost n = vis@.len();
        proof {
            assert(full =~= vis@.push(v) + visit_children(node.children@, Some(node.uuid), w));
            assert(full[n as int] == v);
            assert(full.take(n as int) =~= vis@);
        }
        let x = match acc[0].checked_add(node.transform.trans[0] as i64) {
            Some(x) => x,
            None => return Err(SceneError::InvalidMesh),
        };
        let y = match acc[1].checked_add(node.transform.trans[1] as i64) {
            Some(y) => y,
            None => return Err(SceneError::InvalidMesh),
        };
        let z = match acc[2].checked_add(node.transform.trans[2] as i64) {
            Some(z) => z,
            None => return Err(SceneError::InvalidMesh),
        };
        let world: [i64; 3] = [x, y, z];
        assert(acc3(world) == w);
        if matches!(node.kind, NodeKind::Part(_)) {
            match self.push_part(node, parent, world, vis) {
                Ok(_) => {},
                Err(e) => return Err(e),
            }
        } else {
            self.push_record(node, parent, world, vis);
        }
        proof {
            lemma_visits_ok_push(vis@, v);
            assert(vis@.push(v) + visit_children(node.children@.take(0), Some(node.uuid), w) =~= vis@.push(v));
        }
        let mut k: usize = 0;
        while k < node.children.len()
            invariant
                k <= node.children@.len(),
                acc3(world) == w,
                full == vis@ + visit(*node, parent, acc3(acc)),
                full == vis@.push(v) + visit_children(node.children@, Some(node.uuid), w),
                scene_matches(*self, vis@.push(v) + visit_children(node.children@.take(k as int), Some(node.uuid), w)),
                visits_ok(vis@.push(v) + visit_children(node.children@.take(k as int), Some(node.uuid), w)),
            decreases node.children@.len() - k,
        {
            let child = &node.children[k];
            let ghost before = vis@.push(v) + visit_children(node.children@.take(k as int), Some(node.uuid), w);
            let ghost t = node.children@.take(k + 1);
            proof {
                assert(decreases_to!(node => node.children@[k as int]));
                assert(t.drop_last() =~= node.children@.take(k as int));
                assert(t.last() == *child);
                assert(before + visit(*child, Some(node.uuid), w) =~= vis@.push(v) + visit_children(t, Some(node.uuid), w));
            }
            match self.flatten_nodes(child, Some(node.uuid), world, Ghost(before)) {
                Ok(_) => {},
                Err(e) => {
                    proof {
                        lemma_visit_children_prefix(node.children@, k + 1, Some(node.uuid), w);
                        let a = vis@.push(v);
                        let vc = visit_children(node.children@, Some(node.uuid), w);
                        let vt = visit_children(t, Some(node.uuid), w);
                        assert(vc.take(vt.len() as int) == vt);
                        let pre = a + vt;
                        assert(full == a + vc);
                        assert(full.take(pre.len() as int) =~= pre);
                        assert(pre =~= before + visit(*child, Some(node.uuid), w));
                        assert(!visits_ok(pre));
                        if visits_ok(full) {
                            lemma_visits_ok_take(full, pre.len() as int);
                            assert(false);
                        }
                        assert(!visits_ok(full));
                    }
                    return Err(e);
                },
            }
            k = k + 1;
        }
        proof {
            assert(node.children@.take(k as int) =~= node.children@);
        }
        Ok(())
    }

    /// Flattens the tree under `root`: the records of the nodes that the
    /// traversal meets, and the buffers of their parts. Fails exactly where a
    /// met part's mesh cannot be laid out, or a world translation overflows.
    pub fn flatten(root: &Node) -> (r: Result<Scene, SceneError>)
        ensures
            match r {
                Ok(sc) => visits_ok(visit(*root, None, (0, 0, 0))) && scene_matches(
                    sc,
                    visit(*root, None, (0, 0, 0)),
                ),
                Err(_) => !visits_ok(visit(*root, None, (0, 0, 0))),
            },
    {
        let mut sc = Scene::empty();
        let acc: [i64; 3] = [0, 0, 0];
        proof {
            assert(acc3(acc) == (0int, 0int, 0int));
            assert(Seq::<Visit>::empty() + visit(*root, None, (0, 0, 0)) =~= visit(*root, None, (0, 0, 0)));
        }
        match sc.flatten_nodes(root, None, acc, Ghost(Seq::empty())) {
            Ok(_) => Ok(sc),
            Err(e) => Err(e),
        }
    }
}

/// Whether the draw order descends into the children of `n`: groups and
/// parts are ordered with their subtrees, composites order their own.
pub open spec fn z_descends(n: Node) -> bool {
    n.kind is Group || n.kind is Part
}

/// The (id, cumulative z-bias) pairs that the draw order is made of, in
/// traversal order, below a parent whose cumulative bias is `acc`.
pub open spec fn z_pairs(n: Node, acc: int) -> Seq<(u32, int)>
    decreases n,
{
    if !n.enabled {
        Seq::empty()
    } else {
        let z = acc + n.zsort as int;
        seq![(n.uuid, z)] + if z_descends(n) {
            z_pairs_children(n.children@, z)
        } else {
            Seq::empty()
        }
    }
}

pub open spec fn z_pairs_children(s: Seq<Node>, acc: int) -> Seq<(u32, int)>
    decreases s,
{
    if s.len() == 0 {
        Seq::empty()
    } else {
        z_pairs_children(s.drop_last(), acc) + z_pairs(s.last(), acc)
    }
}

/// The ids of the draw order, in traversal order.
pub open spec fn z_ids(n: Node) -> Seq<u32>
    decreases n,
{
    if !n.enabled {
        Seq::empty()
    } else {
        seq![n.uuid] + if z_descends(n) {
            z_ids_children(n.children@)
        } else {
            Seq::empty()
        }
    }
}

pub open spec fn z_ids_children(s: Seq<Node>) -> Seq<u32>
    decreases s,
{
    if s.len() == 0 {
        Seq::empty()
    } else {
        z_ids_children(s.drop_last()) + z_ids(s.last())
    }
}

pub open spec fn first_of(p: (u32, int)) -> u32 {
    p.0
}

proof fn lemma_z_pairs_ids(n: Node, acc: int)
    ensures
        z_pairs(n, acc).map_values(|p: (u32, int)| first_of(p)) == z_ids(n),
    decreases n,
{
    if n.enabled {
        let z = acc + n.zsort as int;
        if z_descends(n) {
            lemma_z_pairs_ids_children(n.children@, z);
        }
        assert(z_pairs(n, acc).map_values(|p: (u32, int)| first_of(p)) =~= z_ids(n));
    } else {
        assert(z_pairs(n, acc).map_values(|p: (u32, int)| first_of(p)) =~= z_ids(n));
    }
}

proof fn lemma_z_pairs_ids_children(s: Seq<Node>, acc: int)
    ensures
        z_pairs_children(s, acc).map_values(|p: (u32, int)| first_of(p)) == z_ids_children(s),
    decreases s,
{
    if s.len() > 0 {
        lemma_z_pairs_ids_children(s.drop_last(), acc);
        lemma_z_pairs_ids(s.last(), acc);
        assert(z_pairs_children(s, acc).map_values(|p: (u32, int)| first_of(p)) =~= z_ids_children(s));
    } else {
        assert(z_pairs_children(s, acc).map_values(|p: (u32, int)| first_of(p)) =~= z_ids_children(s));
    }
}

/// Every cumulative bias fits 64 bits.
pub open spec fn pairs_fit(s: Seq<(u32, int)>) -> bool {
    forall|k: int| 0 <= k < s.len() ==> fits_i64(#[trigger] s[k].1)
}

pub open spec fn zview(v: Seq<(u32, i64)>) -> Seq<(u32, int)> {
    v.map_values(|p: (u32, i64)| (p.0, p.1 as int))
}

/// Appends the (id, cumulative bias) pairs of `node`'s subtree, below a
/// parent at `zsort`; `false`, with `acc` partly filled, exactly where a
/// cumulative bias leaves 64 bits.
fn recurse(acc: &mut Vec<(u32, i64)>, node: &Node, zsort: i64) -> (ok: bool)
    requires
        pairs_fit(zview(old(acc)@)),
    ensures
        ok == pairs_fit(zview(old(acc)@) + z_pairs(*node, zsort as int)),
        ok ==> zview(final(acc)@) == zview(old(acc)@) + z_pairs(*node, zsort as int),
    decreases node,
{
    let ghost start = zview(acc@);
    if !node.enabled {
        proof {
            assert(start + z_pairs(*node, zsort as int) =~= start);
        }
        return true;
    }
    let z = match zsort.checked_add(node.zsort as i64) {
        Some(z) => z,
        None => {
            proof {
                let all = start + z_pairs(*node, zsort as int);
                assert(all[start.len() as int] == (node.uuid, zsort + node.zsort));
                assert(!fits_i64(all[start.len() as int].1));
            }
            return false;
        },
    };
    let ghost zi = z as int;
    acc.push((node.uuid, z));
    proof {
        assert(zview(acc@) =~= start.push((node.uuid, zi)));
    }
    if !matches!(node.kind, NodeKind::Group) && !matches!(node.kind, NodeKind::Part(_)) {
        proof {
            assert(start + z_pairs(*node, zsort as int) =~= start.push((node.uuid, zi)));
        }
        return true;
    }
    let ghost all = start + z_pairs(*node, zsort as int);
    proof {
        assert(all =~= start.push((node.uuid, zi)) + z_pairs_children(node.children@, zi));
        assert(start.push((node.uuid, zi)) + z_pairs_children(node.children@.take(0), zi) =~= start.push((node.uuid, zi)));
    }
    let mut k: usize = 0;
    while k < node.children.len()
        invariant
            k <= node.children@.len(),
            z as int == zi,
            start == zview(old(acc)@),
            all == start + z_pairs(*node, zsort as int),
            all == start.push((node.uuid, zi)) + z_pairs_children(node.children@, zi),
            zview(acc@) == start.push((node.uuid, zi)) + z_pairs_children(node.children@.take(k as int), zi),
            pairs_fit(zview(acc@)),
        decreases node.children@.len() - k,
    {
        let child = &node.children[k];
        let ghost t = node.children@.take(k + 1);
        proof {
            assert(decreases_to!(node => node.children@[k as int]));
            assert(t.drop_last() =~= node.children@.take(k as int));
            assert(t.last() == *child);
        }
        let ghost before = zview(acc@);
        let ok = recurse(acc, child, z);
        if !ok {
            proof {
                assert(before + z_pairs(*child, zi) =~= start.push((node.uuid, zi)) + z_pairs_children(t, zi));
                lemma_z_children_prefix(node.children@, k + 1, zi);
                let a = start.push((node.uuid, zi));
                let pre = a + z_pairs_children(t, zi);
                assert(all.take(pre.len() as int) =~= pre);
                if pairs_fit(all) {
                    assert forall|m: int| 0 <= m < pre.len() implies fits_i64(#[trigger] pre[m].1) by {
                        assert(pre[m] == all[m]);
                    }
                    assert(false);
                }
            }
            return false;
        }
        k = k + 1;
    }
    proof {
        assert(node.children@.take(k as int) =~= node.children@);
    }
    true
}

proof fn lemma_z_children_prefix(s: Seq<Node>, m: int, acc: int)
    requires
        0 <= m <= s.len(),
    ensures
        z_pairs_children(s.take(m), acc).len() <= z_pairs_children(s, acc).len(),
        z_pairs_children(s, acc).take(z_pairs_children(s.take(m), acc).len() as int)
            == z_pairs_children(s.take(m), acc),
    decreases s.len(),
{
    if m == s.len() {
        assert(s.take(m) =~= s);
        assert(z_pairs_children(s, acc).take(z_pairs_children(s, acc).len() as int) =~= z_pairs_children(s, acc));
    } else {
        assert(s.drop_last().take(m) =~= s.take(m));
        lemma_z_children_prefix(s.drop_last(), m, acc);
        let x = z_pairs_children(s.take(m), acc);
        let y = z_pairs_children(s.drop_last(), acc);
        assert((y + z_pairs(s.last(), acc)).take(x.len() as int) =~= y.take(x.len() as int));
    }
}

/// `s` with `x` inserted behind every element whose bias is at least that
/// of `x`.
pub open spec fn insert_desc(s: Seq<(u32, int)>, x: (u32, int)) -> Seq<(u32, int)>
    decreases s.len(),
{
    if s.len() == 0 {
        seq![x]
    } else if s.last().1 >= x.1 {
        s.push(x)
    } else {
        insert_desc(s.drop_last(), x).push(s.last())
    }
}

/// `s` sorted by descending bias; of two equal biases the earlier comes first.
pub open spec fn sort_desc(s: Seq<(u32, int)>) -> Seq<(u32, int)>
    decreases s.len(),
{
    if s.len() == 0 {
        s
    } else {
        insert_desc(sort_desc(s.drop_last()), s.last())
    }
}

/// The draw order of the tree under `root`: the ids of its z-ordered nodes,
/// by descending cumulative bias.
pub open spec fn draw_order(root: Node) -> Seq<u32> {
    sort_desc(z_pairs(root, 0)).map_values(|p: (u32, int)| first_of(p))
}

/// Inserts `x` into `v` as `insert_desc` does.
fn insert_sorted(v: &mut Vec<(u32, i64)>, x: (u32, i64))
    ensures
        zview(final(v)@) == insert_desc(zview(old(v)@), (x.0, x.1 as int)),
{
    let ghost s = zview(v@);
    let ghost xi = (x.0, x.1 as int);
    let mut j: usize = v.len();
    proof {
        assert(s.skip(j as int) =~= Seq::<(u32, int)>::empty());
        assert(s.take(j as int) =~= s);
    }
    while j > 0 && v[j - 1].1 < x.1
        invariant
            j <= v@.len(),
            s == zview(v@),
            xi == (x.0, x.1 as int),
            insert_desc(s, xi) == insert_desc(s.take(j as int), xi) + s.skip(j as int),
        decreases j,
    {
        proof {
            let t = s.take(j as int);
            assert(t.drop_last() =~= s.take(j - 1));
            assert(t.last() == s[j - 1]);
            assert(s[j - 1].1 == v@[j - 1].1 as int);
            assert(s[j - 1].1 < xi.1);
            assert(s.skip(j - 1) =~= seq![s[j - 1]] + s.skip(j as int));
            assert(insert_desc(t, xi) == insert_desc(s.take(j - 1), xi).push(s[j - 1]));
            assert(insert_desc(s.take(j - 1), xi).push(s[j - 1]) + s.skip(j as int) =~= insert_desc(s.take(j - 1), xi) + s.skip(j - 1));
        }
        j = j - 1;
    }
    v.insert(j, x);
    proof {
        let t = s.take(j as int);
        if j > 0 {
            assert(t.last() == s[j - 1]);
            assert(s[j - 1].1 == v@[j - 1].1 as int);
            assert(insert_desc(t, xi) == t.push(xi));
        } else {
            assert(insert_desc(t, xi) == seq![xi]);
        }
        assert(zview(v@) =~= insert_desc(t, xi) + s.skip(j as int));
    }
}

/// The pairs sorted by descending bias, stably.
fn sort_pairs(pairs: &Vec<(u32, i64)>) -> (r: Vec<(u32, i64)>)
    ensures
        zview(r@) == sort_desc(zview(pairs@)),
{
    let mut out: Vec<(u32, i64)> = Vec::new();
    let mut i: usize = 0;
    proof {
        assert(zview(pairs@).take(0) =~= Seq::<(u32, int)>::empty());
        assert(zview(out@) =~= Seq::<(u32, int)>::empty());
    }
    while i < pairs.len()
        invariant
            i <= pairs@.len(),
            zview(out@) == sort_desc(zview(pairs@).take(i as int)),
        decreases pairs@.len() - i,
    {
        insert_sorted(&mut out, pairs[i]);
        proof {
            let t = zview(pairs@).take(i + 1);
            assert(t.drop_last() =~= zview(pairs@).take(i as int));
            assert(t.last() == (pairs@[i as int].0, pairs@[i as int].1 as int));
        }
        i = i + 1;
    }
    proof {
        assert(zview(pairs@).take(i as int) =~= zview(pairs@));
    }
    out
}

/// Appends the ids of `node`'s z-ordered subtree.
fn collect_z_ids(out: &mut Vec<u32>, node: &Node)
    ensures
        final(out)@ == old(out)@ + z_ids(*node),
    decreases node,
{
    if !node.enabled {
        proof {
            assert(old(out)@ + z_ids(*node) =~= old(out)@);
        }
        return;
    }
    out.push(node.uuid);
    if !matches!(node.kind, NodeKind::Group) && !matches!(node.kind, NodeKind::Part(_)) {
        proof {
            assert(old(out)@ + z_ids(*node) =~= out@);
        }
        return;
    }
    let ghost head = out@;
    proof {
        assert(head + z_ids_children(node.children@.take(0)) =~= head);
    }
    let mut k: usize = 0;
    while k < node.children.len()
        invariant
            k <= node.children@.len(),
            head == old(out)@.push(node.uuid),
            out@ == head + z_ids_children(node.children@.take(k as int)),
        decreases node.children@.len() - k,
    {
        let child = &node.children[k];
        proof {
            assert(decreases_to!(node => node.children@[k as int]));
            let t = node.children@.take(k + 1);
            assert(t.drop_last() =~= node.children@.take(k as int));
            assert(t.last() == *child);
        }
        collect_z_ids(out, child);
        k = k + 1;
    }
    proof {
        assert(node.children@.take(k as int) =~= node.children@);
        assert(old(out)@ + z_ids(*node) =~= out@);
    }
}

/// The number of nodes in the draw order of the tree under `node`.
pub fn count_nodes(node: &Node) -> (r: usize)
    ensures
        r == z_ids(*node).len(),
{
    let mut ids: Vec<u32> = Vec::new();
    collect_z_ids(&mut ids, node);
    proof {
        assert(ids@ =~= z_ids(*node));
    }
    ids.len()
}

/// The draw order of the tree under `node`: the ids of its enabled nodes
/// (not descending into composites) by descending cumulative z-bias, ties in
/// traversal order. `None` exactly where a cumulative bias leaves 64 bits.
pub fn sort_nodes_by_zsort(capacity: usize, node: &Node) -> (r: Option<Vec<u32>>)
    ensures
        match r {
            Some(ids) => pairs_fit(z_pairs(*node, 0)) && ids@ == draw_order(*node),
            None => !pairs_fit(z_pairs(*node, 0)),
        },
{
    let mut pairs: Vec<(u32, i64)> = Vec::with_capacity(capacity);
    proof {
        assert(zview(pairs@) =~= Seq::<(u32, int)>::empty());
        assert(Seq::<(u32, int)>::empty() + z_pairs(*node, 0) =~= z_pairs(*node, 0));
    }
    if !recurse(&mut pairs, node, 0) {
        return None;
    }
    let sorted = sort_pairs(&pairs);
    let mut ids: Vec<u32> = Vec::with_capacity(sorted.len());
    let mut i: usize = 0;
    while i < sorted.len()
        invariant
            i <= sorted@.len(),
            ids@ == zview(sorted@).take(i as int).map_values(|p: (u32, int)| first_of(p)),
        decreases sorted@.len() - i,
    {
        ids.push(sorted[i].0);
        i = i + 1;
        proof {
            assert(ids@ =~= zview(sorted@).take(i as int).map_values(|p: (u32, int)| first_of(p)));
        }
    }
    proof {
        assert(zview(sorted@).take(i as int) =~= zview(sorted@));
    }
    Some(ids)
}

/// The draw order is a function of the tree alone: any two results that
/// `sort_nodes_by_zsort` gives for one unchanged tree are the same sequence.
pub proof fn lemma_draw_order_deterministic(root: Node, first: Seq<u32>, second: Seq<u32>)
    requires
        first == draw_order(root),
        second == draw_order(root),
    ensures
        first == second,
{
}

/// The ids of the nodes that only enabled nodes lead to, the root included.
pub open spec fn live_ids(n: Node) -> Seq<u32>
    decreases n,
{
    if !n.enabled {
        Seq::empty()
    } else {
        seq![n.uuid] + live_ids_children(n.children@)
    }
}

pub open spec fn live_ids_children(s: Seq<Node>) -> Seq<u32>
    decreases s,
{
    if s.len() == 0 {
        Seq::empty()
    } else {
        live_ids_children(s.drop_last()) + live_ids(s.last())
    }
}

/// The ids of every disabled node and of all its descendants, whatever
/// their own enabled flags.
pub open spec fn pruned_ids(n: Node) -> Seq<u32>
    decreases n,
{
    if !n.enabled {
        all_ids(n)
    } else {
        pruned_ids_children(n.children@)
    }
}

pub open spec fn pruned_ids_children(s: Seq<Node>) -> Seq<u32>
    decreases s,
{
    if s.len() == 0 {
        Seq::empty()
    } else {
        pruned_ids_children(s.drop_last()) + pruned_ids(s.last())
    }
}

proof fn lemma_contains_concat(a: Seq<u32>, b: Seq<u32>, x: u32)
    ensures
        (a + b).contains(x) == (a.contains(x) || b.contains(x)),
{
    if (a + b).contains(x) {
        let i = choose|i: int| 0 <= i < (a + b).len() && (a + b)[i] == x;
        if i < a.len() {
            assert(a[i] == x);
        } else {
            assert(b[i - a.len()] == x);
        }
    }
    if a.contains(x) {
        let i = choose|i: int| 0 <= i < a.len() && a[i] == x;
        assert((a + b)[i] == x);
    }
    if b.contains(x) {
        let i = choose|i: int| 0 <= i < b.len() && b[i] == x;
        assert((a + b)[a.len() + i] == x);
    }
}

proof fn lemma_no_dup_concat(a: Seq<u32>, b: Seq<u32>)
    requires
        (a + b).no_duplicates(),
    ensures
        a.no_duplicates(),
        b.no_duplicates(),
        forall|x: u32| a.contains(x) ==> !b.contains(x),
{
    assert forall|i: int, j: int| 0 <= i < a.len() && 0 <= j < a.len() && i != j implies a[i] != a[j] by {
        assert((a + b)[i] == a[i] && (a + b)[j] == a[j]);
    }
    assert forall|i: int, j: int| 0 <= i < b.len() && 0 <= j < b.len() && i != j implies b[i] != b[j] by {
        assert((a + b)[a.len() + i] == b[i] && (a + b)[a.len() + j] == b[j]);
    }
    assert forall|x: u32| a.contains(x) implies !b.contains(x) by {
        let i = choose|i: int| 0 <= i < a.len() && a[i] == x;
        if b.contains(x) {
            let j = choose|j: int| 0 <= j < b.len() && b[j] == x;
            assert((a + b)[i] == (a + b)[a.len() + j]);
        }
    }
}

proof fn lemma_live_pruned_within(n: Node)
    ensures
        forall|x: u32| live_ids(n).contains(x) ==> all_ids(n).contains(x),
        forall|x: u32| pruned_ids(n).contains(x) ==> all_ids(n).contains(x),
    decreases n,
{
    if n.enabled {
        lemma_live_pruned_within_children(n.children@);
        assert forall|x: u32| live_ids(n).contains(x) implies all_ids(n).contains(x) by {
            lemma_contains_concat(seq![n.uuid], live_ids_children(n.children@), x);
            lemma_contains_concat(seq![n.uuid], all_ids_children(n.children@), x);
        }
        assert forall|x: u32| pruned_ids(n).contains(x) implies all_ids(n).contains(x) by {
            lemma_contains_concat(seq![n.uuid], all_ids_children(n.children@), x);
        }
    }
}

proof fn lemma_live_pruned_within_children(s: Seq<Node>)
    ensures
        forall|x: u32| live_ids_children(s).contains(x) ==> all_ids_children(s).contains(x),
        forall|x: u32| pruned_ids_children(s).contains(x) ==> all_ids_children(s).contains(x),
    decreases s,
{
    if s.len() > 0 {
        lemma_live_pruned_within_children(s.drop_last());
        lemma_live_pruned_within(s.last());
        assert forall|x: u32| live_ids_children(s).contains(x) implies all_ids_children(s).contains(x) by {
            lemma_contains_concat(live_ids_children(s.drop_last()), live_ids(s.last()), x);
            lemma_contains_concat(all_ids_children(s.drop_last()), all_ids(s.last()), x);
        }
        assert forall|x: u32| pruned_ids_children(s).contains(x) implies all_ids_children(s).contains(x) by {
            lemma_contains_concat(pruned_ids_children(s.drop_last()), pruned_ids(s.last()), x);
            lemma_contains_concat(all_ids_children(s.drop_last()), all_ids(s.last()), x);
        }
    }
}

proof fn lemma_pruned_not_live(n: Node)
    requires
        all_ids(n).no_duplicates(),
    ensures
        forall|x: u32| pruned_ids(n).contains(x) ==> !live_ids(n).contains(x),
    decreases n,
{
    if n.enabled {
        let s = n.children@;
        lemma_no_dup_concat(seq![n.uuid], all_ids_children(s));
        lemma_pruned_not_live_children(s);
        lemma_live_pruned_within_children(s);
        assert(seq![n.uuid].contains(n.uuid)) by {
            assert(seq![n.uuid][0] == n.uuid);
        }
        assert forall|x: u32| pruned_ids(n).contains(x) implies !live_ids(n).contains(x) by {
            lemma_contains_concat(seq![n.uuid], live_ids_children(s), x);
            if x == n.uuid {
                assert(all_ids_children(s).contains(x));
            }
            assert(!seq![n.uuid].contains(x));
        }
    }
}

proof fn lemma_pruned_not_live_children(s: Seq<Node>)
    requires
        all_ids_children(s).no_duplicates(),
    ensures
        forall|x: u32| pruned_ids_children(s).contains(x) ==> !live_ids_children(s).contains(x),
    decreases s,
{
    if s.len() > 0 {
        let a = s.drop_last();
        let c = s.last();
        lemma_no_dup_concat(all_ids_children(a), all_ids(c));
        lemma_pruned_not_live_children(a);
        lemma_pruned_not_live(c);
        lemma_live_pruned_within_children(a);
        lemma_live_pruned_within(c);
        assert forall|x: u32| pruned_ids_children(s).contains(x) implies !live_ids_children(s).contains(x) by {
            lemma_contains_concat(pruned_ids_children(a), pruned_ids(c), x);
            lemma_contains_concat(live_ids_children(a), live_ids(c), x);
        }
    }
}

proof fn lemma_visit_live(n: Node, p: Option<u32>, acc: (int, int, int))
    ensures
        forall|k: int| 0 <= k < visit(n, p, acc).len() ==> live_ids(n).contains(#[trigger] visit(n, p, acc)[k].node.uuid),
        forall|k: int, x: u32|
            0 <= k < visit(n, p, acc).len() && #[trigger] live_ids(visit(n, p, acc)[k].node).contains(x)
                ==> live_ids(n).contains(x),
    decreases n,
{
    if n.enabled && !(n.kind is SimplePhysics) {
        let w = world_of(n, acc);
        let s = n.children@;
        lemma_visit_live_children(s, Some(n.uuid), w);
        let v = visit(n, p, acc);
        let head = seq![Visit { node: n, parent: p, world: w }];
        assert forall|k: int| 0 <= k < v.len() implies live_ids(n).contains(#[trigger] v[k].node.uuid) by {
            let x = v[k].node.uuid;
            lemma_contains_concat(seq![n.uuid], live_ids_children(s), x);
            if k == 0 {
                assert(seq![n.uuid][0] == x);
            } else {
                assert(v[k] == visit_children(s, Some(n.uuid), w)[k - 1]);
            }
        }
        assert forall|k: int, x: u32| 0 <= k < v.len() && #[trigger] live_ids(v[k].node).contains(x) implies live_ids(n).contains(x) by {
            lemma_contains_concat(seq![n.uuid], live_ids_children(s), x);
            if k > 0 {
                assert(v[k] == visit_children(s, Some(n.uuid), w)[k - 1]);
            }
        }
    }
}

proof fn lemma_visit_live_children(s: Seq<Node>, p: Option<u32>, acc: (int, int, int))
    ensures
        forall|k: int| 0 <= k < visit_children(s, p, acc).len() ==> live_ids_children(s).contains(
            #[trigger] visit_children(s, p, acc)[k].node.uuid,
        ),
        forall|k: int, x: u32|
            0 <= k < visit_children(s, p, acc).len() && #[trigger] live_ids(
                visit_children(s, p, acc)[k].node,
            ).contains(x) ==> live_ids_children(s).contains(x),
    decreases s,
{
    if s.len() > 0 {
        let a = s.drop_last();
        let c = s.last();
        lemma_visit_live_children(a, p, acc);
        lemma_visit_live(c, p, acc);
        let v = visit_children(s, p, acc);
        let va = visit_children(a, p, acc);
        assert forall|k: int| 0 <= k < v.len() implies live_ids_children(s).contains(#[trigger] v[k].node.uuid) by {
            let x = v[k].node.uuid;
            lemma_contains_concat(live_ids_children(a), live_ids(c), x);
            if k < va.len() {
                assert(v[k] == va[k]);
            } else {
                assert(v[k] == visit(c, p, acc)[k - va.len()]);
            }
        }
        assert forall|k: int, x: u32| 0 <= k < v.len() && #[trigger] live_ids(v[k].node).contains(x) implies live_ids_children(s).contains(x) by {
            lemma_contains_concat(live_ids_children(a), live_ids(c), x);
            if k < va.len() {
                assert(v[k] == va[k]);
            } else {
                assert(v[k] == visit(c, p, acc)[k - va.len()]);
            }
        }
    }
}

proof fn lemma_z_live(n: Node)
    ensures
        forall|x: u32| z_ids(n).contains(x) ==> live_ids(n).contains(x),
    decreases n,
{
    if n.enabled {
        let s = n.children@;
        lemma_z_live_children(s);
        assert forall|x: u32| z_ids(n).contains(x) implies live_ids(n).contains(x) by {
            lemma_contains_concat(seq![n.uuid], live_ids_children(s), x);
            if z_descends(n) {
                lemma_contains_concat(seq![n.uuid], z_ids_children(s), x);
            } else {
                assert(z_ids(n) =~= seq![n.uuid]);
            }
        }
    }
}

proof fn lemma_z_live_children(s: Seq<Node>)
    ensures
        forall|x: u32| z_ids_children(s).contains(x) ==> live_ids_children(s).contains(x),
    decreases s,
{
    if s.len() > 0 {
        lemma_z_live_children(s.drop_last());
        lemma_z_live(s.last());
        assert forall|x: u32| z_ids_children(s).contains(x) implies live_ids_children(s).contains(x) by {
            lemma_contains_concat(z_ids_children(s.drop_last()), z_ids(s.last()), x);
            lemma_contains_concat(live_ids_children(s.drop_last()), live_ids(s.last()), x);
        }
    }
}

proof fn lemma_insert_desc_ids(s: Seq<(u32, int)>, x: (u32, int), id: u32)
    ensures
        insert_desc(s, x).map_values(|p: (u32, int)| first_of(p)).contains(id) ==> (id == x.0
            || s.map_values(|p: (u32, int)| first_of(p)).contains(id)),
    decreases s.len(),
{
    let f = |p: (u32, int)| first_of(p);
    let r = insert_desc(s, x);
    if r.map_values(f).contains(id) {
        let i = choose|i: int| 0 <= i < r.map_values(f).len() && r.map_values(f)[i] == id;
        if s.len() == 0 {
            assert(r =~= seq![x]);
        } else if s.last().1 >= x.1 {
            assert(r =~= s.push(x));
            if i < s.len() {
                assert(s.map_values(f)[i] == id);
            }
        } else {
            let d = insert_desc(s.drop_last(), x);
            assert(r =~= d.push(s.last()));
            if i < d.len() {
                assert(d.map_values(f)[i] == id);
                lemma_insert_desc_ids(s.drop_last(), x, id);
                if s.drop_last().map_values(f).contains(id) {
                    let j = choose|j: int| 0 <= j < s.drop_last().map_values(f).len() && s.drop_last().map_values(f)[j] == id;
                    assert(s.map_values(f)[j] == id);
                }
            } else {
                assert(s.map_values(f)[s.len() - 1] == id);
            }
        }
    }
}

proof fn lemma_sort_desc_ids(s: Seq<(u32, int)>, id: u32)
    ensures
        sort_desc(s).map_values(|p: (u32, int)| first_of(p)).contains(id) ==> s.map_values(
            |p: (u32, int)| first_of(p),
        ).contains(id),
    decreases s.len(),
{
    let f = |p: (u32, int)| first_of(p);
    if s.len() > 0 {
        lemma_sort_desc_ids(s.drop_last(), id);
        lemma_insert_desc_ids(sort_desc(s.drop_last()), s.last(), id);
        if sort_desc(s).map_values(f).contains(id) {
            if id == s.last().0 {
                assert(s.map_values(f)[s.len() - 1] == id);
            } else {
                let j = choose|j: int| 0 <= j < s.drop_last().map_values(f).len() && s.drop_last().map_values(f)[j] == id;
                assert(s.map_values(f)[j] == id);
            }
        }
    }
}

/// With ids unique across the tree, a disabled node and all its
/// descendants, whatever their own flags, are absent from the flattened
/// table, from every composite record's list of descendants, and from the
/// draw order.
pub proof fn lemma_pruned_nodes_absent(root: Node, x: u32)
    requires
        all_ids(root).no_duplicates(),
        pruned_ids(root).contains(x),
    ensures
        forall|k: int|
            0 <= k < visit(root, None, (0, 0, 0)).len() ==> #[trigger] visit(root, None, (0, 0, 0))[k].node.uuid != x,
        !draw_order(root).contains(x),
        forall|k: int|
            0 <= k < visit(root, None, (0, 0, 0)).len() && (#[trigger] visit(root, None, (0, 0, 0))[k]).node.kind is Composite
                ==> !live_ids_children(visit(root, None, (0, 0, 0))[k].node.children@).contains(x),
{
    lemma_pruned_not_live(root);
    lemma_visit_live(root, None, (0, 0, 0));
    lemma_z_live(root);
    lemma_z_pairs_ids(root, 0);
    lemma_sort_desc_ids(z_pairs(root, 0), x);
    let v = visit(root, None, (0, 0, 0));
    assert forall|k: int|
        0 <= k < v.len() && (#[trigger] v[k]).node.kind is Composite implies !live_ids_children(
        v[k].node.children@,
    ).contains(x) by {
        lemma_visit_enabled(root, None, (0, 0, 0), k);
        lemma_contains_concat(seq![v[k].node.uuid], live_ids_children(v[k].node.children@), x);
        if live_ids_children(v[k].node.children@).contains(x) {
            assert(live_ids(v[k].node).contains(x));
        }
    }
}

proof fn lemma_visit_enabled(n: Node, p: Option<u32>, acc: (int, int, int), k: int)
    requires
        0 <= k < visit(n, p, acc).len(),
    ensures
        visit(n, p, acc)[k].node.enabled,
    decreases n,
{
    let v = visit(n, p, acc);
    if k > 0 {
        let w = world_of(n, acc);
        lemma_visit_children_enabled(n.children@, Some(n.uuid), w, k - 1);
        assert(v[k] == visit_children(n.children@, Some(n.uuid), w)[k - 1]);
    }
}

proof fn lemma_visit_children_enabled(s: Seq<Node>, p: Option<u32>, acc: (int, int, int), k: int)
    requires
        0 <= k < visit_children(s, p, acc).len(),
    ensures
        visit_children(s, p, acc)[k].node.enabled,
    decreases s,
{
    if s.len() > 0 {
        let va = visit_children(s.drop_last(), p, acc);
        if k < va.len() {
            lemma_visit_children_enabled(s.drop_last(), p, acc, k);
        } else {
            lemma_visit_enabled(s.last(), p, acc, k - va.len());
        }
    }
}

/// Biases descend along `s`.
pub open spec fn sorted_desc(s: Seq<(u32, int)>) -> bool {
    forall|i: int, j: int| 0 <= i < j < s.len() ==> s[i].1 >= s[j].1
}

proof fn lemma_insert_desc(s: Seq<(u32, int)>, x: (u32, int))
    requires
        sorted_desc(s),
    ensures
        sorted_desc(insert_desc(s, x)),
        insert_desc(s, x).to_multiset() == s.to_multiset().insert(x),
        insert_desc(s, x).len() == s.len() + 1,
        forall|i: int|
            0 <= i < insert_desc(s, x).len() ==> #[trigger] insert_desc(s, x)[i] == x || s.contains(
                insert_desc(s, x)[i],
            ),
    decreases s.len(),
{
    let r = insert_desc(s, x);
    if s.len() == 0 {
        assert(r == seq![x]);
        assert(s =~= Seq::<(u32, int)>::empty());
        assert(seq![x] =~= s.push(x));
        s.to_multiset_ensures();
        assert(s.push(x).to_multiset() =~= s.to_multiset().insert(x));
    } else if s.last().1 >= x.1 {
        assert(r == s.push(x));
        s.to_multiset_ensures();
        assert(s.push(x).to_multiset() =~= s.to_multiset().insert(x));
        assert forall|i: int| 0 <= i < r.len() implies #[trigger] r[i] == x || s.contains(r[i]) by {
            if i < s.len() {
                assert(r[i] == s[i]);
            }
        }
    } else {
        let a = s.drop_last();
        let l = s.last();
        assert(sorted_desc(a));
        lemma_insert_desc(a, x);
        let d = insert_desc(a, x);
        assert(r == d.push(l));
        assert(s =~= a.push(l));
        assert forall|i: int| 0 <= i < d.len() implies #[trigger] d[i].1 >= l.1 by {
            if d[i] != x {
                assert(a.contains(d[i]));
                let k = choose|k: int| 0 <= k < a.len() && a[k] == d[i];
                assert(s[k] == a[k]);
            }
        }
        assert forall|i: int, j: int| 0 <= i < j < r.len() implies r[i].1 >= r[j].1 by {
            if j == r.len() - 1 {
                assert(r[i] == d[i]);
            } else {
                assert(r[i] == d[i] && r[j] == d[j]);
            }
        }
        assert forall|i: int| 0 <= i < r.len() implies #[trigger] r[i] == x || s.contains(r[i]) by {
            if i < d.len() {
                assert(r[i] == d[i]);
                if d[i] != x {
                    let k = choose|k: int| 0 <= k < a.len() && a[k] == d[i];
                    assert(s[k] == a[k]);
                }
            } else {
                assert(r[i] == s[s.len() - 1]);
            }
        }
        assert(d.to_multiset() == a.to_multiset().insert(x));
        d.to_multiset_ensures();
        a.to_multiset_ensures();
        assert(d.push(l).to_multiset() =~= d.to_multiset().insert(l));
        assert(a.push(l).to_multiset() =~= a.to_multiset().insert(l));
        assert(r.to_multiset() =~= s.to_multiset().insert(x));
    }
}

/// The draw order's pairs are those of the traversal, rearranged so that
/// cumulative biases descend.
pub proof fn lemma_sort_desc(s: Seq<(u32, int)>)
    ensures
        sorted_desc(sort_desc(s)),
        sort_desc(s).to_multiset() == s.to_multiset(),
    decreases s.len(),
{
    if s.len() == 0 {
        assert(sort_desc(s) == s);
    } else {
        lemma_sort_desc(s.drop_last());
        lemma_insert_desc(sort_desc(s.drop_last()), s.last());
        assert(s =~= s.drop_last().push(s.last()));
        s.drop_last().to_multiset_ensures();
        assert(s.drop_last().push(s.last()).to_multiset() =~= s.drop_last().to_multiset().insert(s.last()));
    }
}

} // verus!
