use inochi2d::glow::{GlCall, STENCIL_BUFFER_BIT};
use inochi2d::model::{
    BlendMode, CompositeData, Mask, MaskMode, Mesh, Node, NodeKind, PartData, PhysicsData, MapMode,
    ModelType, Texture, Transform,
};
use inochi2d::param::{Binding, BindingValues, Channel, InterpolateMode, Param, ParamValues};
use inochi2d::render::{setup, sum_translation};
use inochi2d::param::Anim;
use inochi2d::scene::{collect_children_uuids, count_nodes, sort_nodes_by_zsort, FlatKind, Scene, SceneError};

const ONE: i32 = 65536;

fn transform(x: i32, y: i32) -> Transform {
    Transform { trans: [x, y, 0], rot: [0; 3], scale: [ONE, ONE] }
}

fn node(uuid: u32, enabled: bool, zsort: i32, kind: NodeKind, children: Vec<Node>) -> Node {
    Node {
        uuid,
        name: format!("n{uuid}"),
        enabled,
        zsort,
        transform: transform(uuid as i32, 0),
        lock_to_root: false,
        children,
        kind,
    }
}

fn part(masks: Vec<u32>) -> NodeKind {
    NodeKind::Part(PartData {
        textures: [0, 0, 0],
        mesh: Mesh {
            verts: vec![0, 0, ONE, 0, 0, ONE],
            uvs: vec![0, 0, ONE, 0, 0, ONE],
            indices: vec![0, 1, 2],
            origin: [0, 0],
        },
        blend_mode: BlendMode::Normal,
        opacity: ONE,
        tint: [ONE; 3],
        screen_tint: [0; 3],
        mask_threshold: 0,
        masks: masks.into_iter().map(|source| Mask { source, mode: MaskMode::Mask }).collect(),
        psd_layer_path: String::new(),
    })
}

fn composite() -> NodeKind {
    NodeKind::Composite(CompositeData {
        blend_mode: BlendMode::Screen,
        opacity: ONE,
        tint: [ONE; 3],
        screen_tint: [0; 3],
        mask_threshold: 0,
    })
}

fn physics() -> NodeKind {
    NodeKind::SimplePhysics(PhysicsData {
        param: 0,
        model_type: ModelType::SpringPendulum,
        map_mode: MapMode::XY,
        gravity: ONE,
        length: ONE,
        frequency: ONE,
        angle_damping: 0,
        length_damping: 0,
        output_scale: [ONE, ONE],
    })
}

/// root(1) -> part 2 (z 1) -> part 3 (z 1); disabled group 4 -> enabled part 5;
/// composite 6 -> part 7; physics 8.
fn tree() -> Node {
    let part3 = node(3, true, ONE, part(vec![]), vec![]);
    let part2 = node(2, true, ONE, part(vec![]), vec![part3]);
    let part5 = node(5, true, 10 * ONE, part(vec![]), vec![]);
    let group4 = node(4, false, 0, NodeKind::Group, vec![part5]);
    let part7 = node(7, true, 0, part(vec![]), vec![]);
    let comp6 = node(6, true, -ONE, composite(), vec![part7]);
    let phys8 = node(8, true, 0, physics(), vec![]);
    node(1, true, 0, NodeKind::Group, vec![part2, group4, comp6, phys8])
}

fn ids(sc: &Scene) -> Vec<u32> {
    sc.nodes.iter().map(|n| n.uuid).collect()
}

#[test]
fn flatten_prunes_disabled_subtrees() {
    let sc = Scene::flatten(&tree()).unwrap();
    assert_eq!(ids(&sc), vec![1, 2, 3, 6, 7]);
    let order = sort_nodes_by_zsort(8, &tree()).unwrap();
    assert!(!order.contains(&4) && !order.contains(&5));
}

#[test]
fn flatten_lays_out_buffers() {
    let sc = Scene::flatten(&tree()).unwrap();
    assert_eq!(sc.verts.len(), 8 + 3 * 6);
    assert_eq!(sc.indices, vec![4, 5, 6, 7, 8, 9, 10, 11, 12]);
    match &sc.nodes[2].kind {
        FlatKind::Part(p) => {
            assert_eq!(p.start_index, 3);
            assert_eq!(p.start_deform, 14);
            assert_eq!(p.num_indices, 3);
        }
        _ => panic!("not a part"),
    }
    match &sc.nodes[3].kind {
        FlatKind::Composite(c) => assert_eq!(c.children, vec![7]),
        _ => panic!("not a composite"),
    }
    assert_eq!(sc.nodes[2].parent, Some(2));
}

#[test]
fn world_translation_sums_ancestors() {
    let sc = Scene::flatten(&tree()).unwrap();
    // Part 3 under part 2 under root 1: 3 + 2 + 1.
    assert_eq!(sc.nodes[2].world_trans, [6, 0, 0]);
    assert_eq!(sc.nodes[4].world_trans, [14, 0, 0]);
}

#[test]
fn bad_mesh_is_refused() {
    let mut t = tree();
    if let NodeKind::Part(p) = &mut t.children[0].kind {
        p.mesh.uvs.pop();
    }
    assert_eq!(Scene::flatten(&t).unwrap_err(), SceneError::InvalidMesh);
    let mut t = tree();
    if let NodeKind::Part(p) = &mut t.children[0].kind {
        p.mesh.indices.push(65535);
    }
    assert_eq!(Scene::flatten(&t).unwrap_err(), SceneError::InvalidMesh);
}

#[test]
fn draw_order_by_cumulative_bias() {
    // Biases: 1: 0, 2: 1, 3: 2, 6: -1, 8: 0 (composite children are not ordered).
    let order = sort_nodes_by_zsort(0, &tree()).unwrap();
    assert_eq!(order, vec![3, 2, 1, 8, 6]);
    assert_eq!(count_nodes(&tree()), 5);
}

#[test]
fn draw_order_is_deterministic() {
    let t = tree();
    let first = sort_nodes_by_zsort(0, &t).unwrap();
    for _ in 0..5 {
        assert_eq!(sort_nodes_by_zsort(0, &t).unwrap(), first);
    }
}

#[test]
fn equal_biases_keep_traversal_order() {
    let kids = (2..6).map(|i| node(i, true, 0, NodeKind::Group, vec![])).collect();
    let root = node(1, true, 0, NodeKind::Group, kids);
    assert_eq!(sort_nodes_by_zsort(0, &root).unwrap(), vec![1, 2, 3, 4, 5]);
}

#[test]
fn bias_overflow_gives_none() {
    let mut n = node(2, true, i32::MAX, NodeKind::Group, vec![]);
    for i in 3..(1u32 << 5) {
        n = node(i, true, i32::MAX, NodeKind::Group, vec![n]);
    }
    assert!(sort_nodes_by_zsort(0, &n).is_some());
    let mut n = node(2, true, i32::MAX, NodeKind::Group, vec![]);
    for i in 3..(1u32 << 13) {
        n = node(i, true, i32::MAX, NodeKind::Group, vec![n]);
    }
    assert!(sort_nodes_by_zsort(0, &n).is_some());
}

#[test]
fn children_uuids_leave_out_disabled_subtrees() {
    assert_eq!(collect_children_uuids(&tree()), vec![1, 2, 3, 6, 7, 8]);
}

#[test]
fn translations_add_up() {
    let anims = vec![
        Anim::Scalar(Channel::TransformTX, 2 * ONE),
        Anim::Scalar(Channel::TransformTX, 3 * ONE),
        Anim::Scalar(Channel::TransformTY, ONE),
        Anim::Scalar(Channel::ZSort, 7),
    ];
    assert_eq!(sum_translation(&anims), (5 * ONE as i128, ONE as i128));
}

fn texture() -> Texture {
    Texture::Rgba { width: 1, height: 1, data: vec![1, 2, 3, 4] }
}

fn stencil_clears(calls: &[GlCall]) -> usize {
    calls.iter().filter(|c| matches!(c, GlCall::Clear(m) if *m == STENCIL_BUFFER_BIT)).count()
}

#[test]
fn shared_mask_set_rebuilds_the_stencil_once() {
    // Parts 3 and 4 are masked by part 2; part 5 by part 3.
    let kids = vec![
        node(2, true, 0, part(vec![]), vec![]),
        node(3, true, 0, part(vec![2]), vec![]),
        node(4, true, 0, part(vec![2]), vec![]),
        node(5, true, 0, part(vec![3]), vec![]),
    ];
    let root = node(1, true, 0, NodeKind::Group, kids);
    let mut r = setup(&root, vec![texture()], 64, 64).unwrap();
    r.gl.calls.clear();
    r.render_nodes(&vec![3, 4]);
    assert_eq!(stencil_clears(&r.gl.calls), 1);
    r.render_nodes(&vec![5]);
    assert_eq!(stencil_clears(&r.gl.calls), 2);
}

#[test]
fn mask_source_must_be_a_part() {
    let kids = vec![node(2, true, 0, NodeKind::Group, vec![]), node(3, true, 0, part(vec![2]), vec![])];
    let root = node(1, true, 0, NodeKind::Group, kids);
    assert!(setup(&root, vec![texture()], 64, 64).is_err());
}

#[test]
fn missing_texture_is_refused() {
    let root = node(1, true, 0, NodeKind::Group, vec![node(2, true, 0, part(vec![]), vec![])]);
    assert!(setup(&root, vec![], 64, 64).is_err());
}

#[test]
fn animation_moves_parts_additively() {
    let root = node(1, true, 0, NodeKind::Group, vec![node(2, true, 0, part(vec![]), vec![])]);
    let mut r = setup(&root, vec![texture()], 64, 64).unwrap();
    let binding = |v: i32| Binding {
        node: 2,
        values: BindingValues::Scalar(Channel::TransformTX, vec![vec![v], vec![v]]),
        is_set: vec![],
        interpolate_mode: InterpolateMode::Linear,
    };
    let mk = |name: &str, v: i32| Param {
        uuid: 9,
        name: name.to_string(),
        is_vec2: false,
        min: [0, 0],
        max: [ONE, ONE],
        defaults: [0, 0],
        axis_points: [vec![0, ONE], vec![0]],
        bindings: vec![binding(v)],
    };
    let params = vec![mk("a", 2 * ONE), mk("b", 3 * ONE)];
    let values = ParamValues::new(&params);
    r.animate(&params, &values).unwrap();
    assert_eq!(r.res.anims[1].len(), 2);
    r.gl.calls.clear();
    r.render_nodes(&vec![2]);
    let uniform = r.gl.calls.iter().find_map(|c| match c {
        GlCall::Uniform2(l, x, y) if l.name == "trans" => Some((*x, *y)),
        _ => None,
    });
    // World translation of part 2 is 2 + 1; the bindings add 5.
    assert_eq!(uniform, Some((3 + 5 * ONE, 0)));
}

#[test]
fn binding_on_a_group_is_unsupported() {
    let root = node(1, true, 0, NodeKind::Group, vec![node(2, true, 0, part(vec![]), vec![])]);
    let mut r = setup(&root, vec![texture()], 64, 64).unwrap();
    let params = vec![Param {
        uuid: 9,
        name: "g".to_string(),
        is_vec2: false,
        min: [0, 0],
        max: [ONE, ONE],
        defaults: [0, 0],
        axis_points: [vec![0, ONE], vec![0]],
        bindings: vec![Binding {
            node: 1,
            values: BindingValues::Scalar(Channel::TransformTX, vec![vec![ONE], vec![ONE]]),
            is_set: vec![],
            interpolate_mode: InterpolateMode::Linear,
        }],
    }];
    let values = ParamValues::new(&params);
    assert_eq!(r.animate(&params, &values), Err(inochi2d::codec::Error::Unsupported));
}

#[test]
fn deformation_is_summed_and_uploaded() {
    let root = node(1, true, 0, NodeKind::Group, vec![node(2, true, 0, part(vec![]), vec![])]);
    let mut r = setup(&root, vec![texture()], 64, 64).unwrap();
    let grid = |v: i32| vec![vec![vec![[v, 0], [0, v], [v, v]]], vec![vec![[v, 0], [0, v], [v, v]]]];
    let mk = |v: i32| Param {
        uuid: 9,
        name: format!("d{v}"),
        is_vec2: false,
        min: [0, 0],
        max: [ONE, ONE],
        defaults: [0, 0],
        axis_points: [vec![0, ONE], vec![0]],
        bindings: vec![Binding {
            node: 2,
            values: BindingValues::Deform(grid(v)),
            is_set: vec![],
            interpolate_mode: InterpolateMode::Linear,
        }],
    };
    let params = vec![mk(2), mk(3)];
    let values = ParamValues::new(&params);
    r.gl.calls.clear();
    r.animate(&params, &values).unwrap();
    match r.gl.calls.as_slice() {
        [GlCall::BufferSubDataFixed(_, offset, d)] => {
            assert_eq!(*offset, 8);
            assert_eq!(d, &vec![5, 0, 0, 5, 5, 5]);
        }
        other => panic!("unexpected {other:?}"),
    }
}

#[test]
fn frame_draws_parts_in_order_and_skips_groups() {
    let kids = vec![node(2, true, 0, part(vec![]), vec![]), node(3, true, 0, part(vec![]), vec![])];
    let root = node(1, true, 0, NodeKind::Group, kids);
    let mut r = setup(&root, vec![texture()], 64, 64).unwrap();
    r.gl.calls.clear();
    r.render_nodes(&vec![3, 1, 99, 2]);
    let draws: Vec<(i32, i32)> = r
        .gl
        .calls
        .iter()
        .filter_map(|c| match c {
            GlCall::DrawElements(_, count, _, offset) => Some((*count, *offset)),
            _ => None,
        })
        .collect();
    assert_eq!(draws, vec![(3, 6), (3, 0)]);
}

#[test]
fn composite_renders_offscreen_then_draws_a_quad() {
    let c = node(2, true, 0, composite(), vec![node(3, true, 0, part(vec![]), vec![])]);
    let root = node(1, true, 0, NodeKind::Group, vec![c]);
    let mut r = setup(&root, vec![texture()], 64, 64).unwrap();
    r.gl.calls.clear();
    r.render_nodes(&vec![2]);
    let calls = &r.gl.calls;
    assert!(matches!(calls.first(), Some(GlCall::BindFramebuffer(_, Some(_)))));
    assert!(matches!(calls[1], GlCall::Clear(_)));
    assert!(calls.iter().any(|c| matches!(c, GlCall::DrawElements(..))));
    assert!(calls.iter().any(|c| matches!(c, GlCall::BindFramebuffer(_, None))));
    assert!(matches!(calls.last(), Some(GlCall::DrawArrays(_, 0, 4))));
}
