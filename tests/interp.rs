use inochi2d::interp::{interpolate_deform, interpolate_scalar, locate, Bracket};
use inochi2d::param::{Anim, Binding, BindingValues, Channel, InterpolateMode, ParamValues, Param};

const ONE: i32 = 65536;

fn axes() -> [Vec<i32>; 2] {
    [vec![0, ONE / 2, ONE], vec![0, ONE]]
}

fn grid() -> Vec<Vec<i32>> {
    vec![vec![10 * ONE, 20 * ONE], vec![30 * ONE, 40 * ONE], vec![50 * ONE, 60 * ONE]]
}

#[test]
fn exact_grid_hit() {
    assert_eq!(interpolate_scalar(&grid(), &axes(), [ONE / 2, 0]), Some(30 * ONE));
}

#[test]
fn linear_blend_between_columns() {
    assert_eq!(interpolate_scalar(&grid(), &axes(), [ONE / 4, 0]), Some(20 * ONE));
}

#[test]
fn bilinear_blend() {
    // Column values at y = 0.5: 15 and 35; halfway between them: 25.
    assert_eq!(interpolate_scalar(&grid(), &axes(), [ONE / 4, ONE / 2]), Some(25 * ONE));
    assert_eq!(interpolate_scalar(&grid(), &axes(), [ONE, ONE]), Some(60 * ONE));
}

#[test]
fn blend_rounds_down() {
    let axes = [vec![0, 3], vec![0]];
    let grid = vec![vec![0], vec![1]];
    // t = 65536 / 3 = 21845; 21845 * 1 / 65536 rounds down to 0.
    assert_eq!(interpolate_scalar(&grid, &axes, [1, 0]), Some(0));
    let grid = vec![vec![0], vec![-1]];
    assert_eq!(interpolate_scalar(&grid, &axes, [1, 0]), Some(-1));
}

#[test]
fn single_coordinate_axis_is_a_direct_lookup() {
    let axes = [vec![0, ONE], vec![ONE / 3]];
    let grid = vec![vec![4 * ONE], vec![8 * ONE]];
    for y in [0, ONE / 3, ONE] {
        assert_eq!(interpolate_scalar(&grid, &axes, [ONE / 2, y]), Some(6 * ONE));
    }
    assert_eq!(locate(&vec![ONE / 3], 0), Some(Bracket::Exact(0)));
}

#[test]
fn position_outside_an_axis_gives_none() {
    let axes = [vec![ONE / 4, ONE], vec![0, ONE]];
    let grid = vec![vec![1, 2], vec![3, 4]];
    assert_eq!(interpolate_scalar(&grid, &axes, [0, 0]), None);
    assert_eq!(locate(&axes[0], ONE / 2), Some(Bracket::Between(1)));
    assert_eq!(locate(&axes[0], ONE / 4), Some(Bracket::Exact(0)));
}

#[test]
fn deform_blends_each_offset() {
    let axes = [vec![0, ONE], vec![0]];
    let values = vec![vec![vec![[0, 10 * ONE], [2 * ONE, 0]]], vec![vec![[4 * ONE, 20 * ONE], [2 * ONE, -4 * ONE]]]];
    let d = interpolate_deform(&values, &axes, [ONE / 2, 0]).unwrap();
    assert_eq!(d, vec![[2 * ONE, 15 * ONE], [2 * ONE, -2 * ONE]]);
}

#[test]
fn binding_yields_its_channel() {
    let b = Binding {
        node: 7,
        values: BindingValues::Scalar(Channel::TransformTX, grid()),
        is_set: vec![],
        interpolate_mode: InterpolateMode::Linear,
    };
    match b.interpolate(&axes(), [ONE / 2, 0]) {
        Some(Anim::Scalar(Channel::TransformTX, v)) => assert_eq!(v, 30 * ONE),
        other => panic!("unexpected {other:?}"),
    }
    let d = Binding {
        node: 7,
        values: BindingValues::Deform(vec![vec![vec![[ONE, 2 * ONE]]], vec![vec![[3 * ONE, 4 * ONE]]]]),
        is_set: vec![],
        interpolate_mode: InterpolateMode::Linear,
    };
    match d.interpolate(&[vec![0, ONE], vec![0]], [ONE / 2, 0]) {
        Some(Anim::Deform(v)) => assert_eq!(v, vec![2 * ONE, 3 * ONE]),
        other => panic!("unexpected {other:?}"),
    }
}

fn param(name: &str, defaults: [i32; 2]) -> Param {
    Param {
        uuid: 1,
        name: name.to_string(),
        is_vec2: true,
        min: [-ONE, 0],
        max: [ONE, 2 * ONE],
        defaults,
        axis_points: axes(),
        bindings: vec![],
    }
}

#[test]
fn param_values_start_at_defaults_and_move_by_name() {
    let params = vec![param("a", [0, ONE]), param("b", [ONE, 0])];
    let mut v = ParamValues::new(&params);
    assert_eq!(v.values, vec![[32768, 32768], [65536, 0]]);
    v.set("b", [1, 2]);
    v.set("missing", [9, 9]);
    assert_eq!(v.values, vec![[32768, 32768], [1, 2]]);
}
