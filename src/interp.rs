//! Bilinear interpolation of a parameter's sampling grid, in 16.16 fixed point.
//!
//! A grid is given by two strictly ascending coordinate arrays (the axes) and a
//! value for each pair of coordinates. A control position is first located on
//! each axis (an exact coordinate, or the pair around it); along the second
//! axis the values of a column are blended, then, if the first coordinate fell
//! between two columns, the two column results are blended along the first.
//! An axis with a single coordinate is always an exact hit on it, so no step
//! fraction is ever computed along it.
use crate::fixed::{div_floor, floor_div, FIXED_ONE};
use vstd::prelude::*;

verus! {

/// Where a coordinate falls on an axis.
#[derive(Debug, Clone, Copy, PartialEq, Eq, Structural)]
pub enum Bracket {
    /// At the axis point of this index.
    Exact(usize),
    /// Strictly between the axis points at this index minus one and this index.
    Between(usize),
}

/// A strictly ascending, non-empty axis.
pub open spec fn axis_wf(ax: Seq<i32>) -> bool {
    &&& ax.len() >= 1
    &&& forall|i: int, j: int| 0 <= i < j < ax.len() ==> ax[i] < ax[j]
}

/// A control coordinate: between 0 and 1.
pub open spec fn unit_coord(p: i32) -> bool {
    0 <= p <= FIXED_ONE
}

/// The scan of `ax` from index `i` for the first point not below `p`.
pub open spec fn locate_from(ax: Seq<i32>, p: i32, i: int) -> Option<Bracket>
    decreases ax.len() - i,
{
    if i < 0 || i >= ax.len() {
        None
    } else if ax[i] == p {
        Some(Bracket::Exact(i as usize))
    } else if ax[i] > p {
        if i == 0 {
            None
        } else {
            Some(Bracket::Between(i as usize))
        }
    } else {
        locate_from(ax, p, i + 1)
    }
}

/// Where `p` falls on `ax`; `None` when it lies outside the axis.
pub open spec fn locate_spec(ax: Seq<i32>, p: i32) -> Option<Bracket> {
    if ax.len() == 1 {
        Some(Bracket::Exact(0))
    } else {
        locate_from(ax, p, 0)
    }
}

/// The step fraction of `p` between `a` and `b`, in fixed point.
pub open spec fn step_spec(p: int, a: int, b: int) -> int {
    (p - a) * FIXED_ONE / (b - a)
}

/// The linear blend from `a` to `b` at the fixed-point fraction `t`, rounded down.
pub open spec fn mix_spec(a: int, b: int, t: int) -> int {
    a + floor_div(t * (b - a), FIXED_ONE as int)
}

/// The value of column `i` at the located second coordinate.
pub open spec fn along_axis1(
    cell: spec_fn(int, int) -> int,
    i: int,
    ax1: Seq<i32>,
    l1: Bracket,
    pos1: i32,
) -> int {
    match l1 {
        Bracket::Exact(j) => cell(i, j as int),
        Bracket::Between(j) => mix_spec(
            cell(i, j - 1),
            cell(i, j as int),
            step_spec(pos1 as int, ax1[j - 1] as int, ax1[j as int] as int),
        ),
    }
}

/// The grid value at a located position.
pub open spec fn grid_value(
    cell: spec_fn(int, int) -> int,
    ax0: Seq<i32>,
    ax1: Seq<i32>,
    l0: Bracket,
    l1: Bracket,
    pos0: i32,
    pos1: i32,
) -> int {
    match l0 {
        Bracket::Exact(i) => along_axis1(cell, i as int, ax1, l1, pos1),
        Bracket::Between(i) => mix_spec(
            along_axis1(cell, i - 1, ax1, l1, pos1),
            along_axis1(cell, i as int, ax1, l1, pos1),
            step_spec(pos0 as int, ax0[i - 1] as int, ax0[i as int] as int),
        ),
    }
}

/// The interpolated value of the grid `cell` at `(pos0, pos1)`, or `None` where a
/// coordinate lies outside its axis.
pub open spec fn interp_spec(
    cell: spec_fn(int, int) -> int,
    ax0: Seq<i32>,
    ax1: Seq<i32>,
    pos0: i32,
    pos1: i32,
) -> Option<int> {
    match (locate_spec(ax0, pos0), locate_spec(ax1, pos1)) {
        (Some(l0), Some(l1)) => Some(grid_value(cell, ax0, ax1, l0, l1, pos0, pos1)),
        _ => None,
    }
}

/// A scalar grid of the shape of the axes.
pub open spec fn scalar_grid_wf(values: Seq<Vec<i32>>, ax0: Seq<i32>, ax1: Seq<i32>) -> bool {
    &&& values.len() == ax0.len()
    &&& forall|i: int| 0 <= i < values.len() ==> (#[trigger] values[i])@.len() == ax1.len()
}

/// The cells of a scalar grid.
pub open spec fn scalar_cell(values: Seq<Vec<i32>>) -> spec_fn(int, int) -> int {
    |i: int, j: int| values[i]@[j] as int
}

/// A deformation grid of the shape of the axes, each cell holding `n` offsets.
pub open spec fn deform_grid_wf(
    values: Seq<Vec<Vec<[i32; 2]>>>,
    ax0: Seq<i32>,
    ax1: Seq<i32>,
    n: nat,
) -> bool {
    &&& values.len() == ax0.len()
    &&& forall|i: int| 0 <= i < values.len() ==> (#[trigger] values[i])@.len() == ax1.len()
    &&& forall|i: int, j: int|
        0 <= i < values.len() && 0 <= j < ax1.len() ==> (#[trigger] values[i]@[j])@.len() == n
}

/// The grid of component `c` of offset `k` of a deformation grid.
pub open spec fn deform_cell(values: Seq<Vec<Vec<[i32; 2]>>>, k: int, c: int) -> spec_fn(
    int,
    int,
) -> int {
    |i: int, j: int| values[i]@[j]@[k][c] as int
}

/// Where `p` falls on `ax`: the shared scan of both axis passes.
pub fn locate(ax: &Vec<i32>, p: i32) -> (r: Option<Bracket>)
    requires
        ax@.len() >= 1,
    ensures
        r == locate_spec(ax@, p),
        match r {
            Some(Bracket::Exact(j)) => j < ax@.len(),
            Some(Bracket::Between(j)) => 0 < j < ax@.len() && ax@[j - 1] < p < ax@[j as int],
            None => true,
        },
{
    if ax.len() == 1 {
        return Some(Bracket::Exact(0));
    }
    let mut i: usize = 0;
    while i < ax.len()
        invariant
            i <= ax@.len(),
            ax@.len() >= 2,
            locate_from(ax@, p, 0) == locate_from(ax@, p, i as int),
            i > 0 ==> ax@[i - 1] < p,
        decreases ax@.len() - i,
    {
        if ax[i] == p {
            return Some(Bracket::Exact(i));
        }
        if ax[i] > p {
            if i == 0 {
                return None;
            }
            return Some(Bracket::Between(i));
        }
        i = i + 1;
    }
    None
}

/// The step fraction of `p` between `a` and `b`: 0 at `a`, 1 at `b`.
fn get_step(p: i32, a: i32, b: i32) -> (t: i64)
    requires
        a < b,
        a <= p <= b,
    ensures
        t == step_spec(p as int, a as int, b as int),
        0 <= t <= FIXED_ONE,
{
    let num: i64 = (p as i64 - a as i64) * 65536;
    let den: i64 = b as i64 - a as i64;
    proof {
        assert(0 <= num <= den * 65536) by (nonlinear_arith)
            requires
                num == (p - a) * 65536,
                den == b - a,
                a <= p <= b,
        ;
        vstd::arithmetic::div_mod::lemma_div_is_ordered(num as int, den * 65536, den as int);
        vstd::arithmetic::div_mod::lemma_div_multiples_vanish(65536, den as int);
        assert(den * 65536 == 65536 * den) by (nonlinear_arith);
        vstd::arithmetic::div_mod::lemma_div_pos_is_pos(num as int, den as int);
    }
    num / den
}

proof fn lemma_mix_between(a: int, b: int, t: int)
    requires
        0 <= t <= FIXED_ONE,
    ensures
        a <= b ==> a <= mix_spec(a, b, t) <= b,
        b <= a ==> b <= mix_spec(a, b, t) <= a,
{
    let d = b - a;
    let one = FIXED_ONE as int;
    if d >= 0 {
        assert(0 <= t * d <= one * d) by (nonlinear_arith)
            requires
                0 <= t <= one,
                d >= 0,
        ;
        vstd::arithmetic::div_mod::lemma_div_is_ordered(t * d, one * d, one);
        vstd::arithmetic::div_mod::lemma_div_multiples_vanish(d, one);
        vstd::arithmetic::div_mod::lemma_div_pos_is_pos(t * d, one);
    } else {
        assert(one * d <= t * d <= 0) by (nonlinear_arith)
            requires
                0 <= t <= one,
                d < 0,
        ;
        vstd::arithmetic::div_mod::lemma_div_is_ordered(one * d, t * d, one);
        vstd::arithmetic::div_mod::lemma_div_multiples_vanish(d, one);
        vstd::arithmetic::div_mod::lemma_div_is_ordered(t * d, 0, one);
    }
}

/// The linear blend from `a` to `b` at the fraction `t`.
fn mix(a: i32, b: i32, t: i64) -> (r: i32)
    requires
        0 <= t <= FIXED_ONE,
    ensures
        r == mix_spec(a as int, b as int, t as int),
{
    let d: i64 = b as i64 - a as i64;
    proof {
        assert(-65536 * 0x1_0000_0000 <= t * d <= 65536 * 0x1_0000_0000) by (nonlinear_arith)
            requires
                0 <= t <= 65536,
                -0x1_0000_0000 <= d <= 0x1_0000_0000,
        ;
        lemma_mix_between(a as int, b as int, t as int);
    }
    let q = div_floor(t * d, 65536);
    (a as i64 + q) as i32
}

/// A located bracket that lies on the axis.
pub open spec fn bracket_valid(ax: Seq<i32>, l: Bracket, p: i32) -> bool {
    match l {
        Bracket::Exact(j) => j < ax.len(),
        Bracket::Between(j) => 0 < j < ax.len() && ax[j - 1] < p < ax[j as int],
    }
}

/// Whether both coordinates of a position lie on their axes.
pub open spec fn located(ax0: Seq<i32>, ax1: Seq<i32>, pos0: i32, pos1: i32) -> bool {
    locate_spec(ax0, pos0) is Some && locate_spec(ax1, pos1) is Some
}

/// The value of column `i` of a scalar grid at the located second coordinate.
fn scalar_column(values: &Vec<Vec<i32>>, i: usize, ax1: &Vec<i32>, l1: Bracket, pos1: i32) -> (r:
    i32)
    requires
        i < values@.len(),
        values@[i as int]@.len() == ax1@.len(),
        bracket_valid(ax1@, l1, pos1),
    ensures
        r == along_axis1(scalar_cell(values@), i as int, ax1@, l1, pos1),
{
    let col = &values[i];
    match l1 {
        Bracket::Exact(j) => col[j],
        Bracket::Between(j) => {
            let t = get_step(pos1, ax1[j - 1], ax1[j]);
            mix(col[j - 1], col[j], t)
        },
    }
}

/// The interpolated value of a scalar grid at `pos`, or `None` where a
/// coordinate lies outside its axis.
pub fn interpolate_scalar(values: &Vec<Vec<i32>>, axis_points: &[Vec<i32>; 2], pos: [i32; 2]) -> (r:
    Option<i32>)
    requires
        axis_points[0]@.len() >= 1,
        axis_points[1]@.len() >= 1,
        scalar_grid_wf(values@, axis_points[0]@, axis_points[1]@),
    ensures
        match interp_spec(scalar_cell(values@), axis_points[0]@, axis_points[1]@, pos[0], pos[1]) {
            Some(v) => r == Some(v as i32) && v == r->0 as int,
            None => r is None,
        },
{
    let ax0 = &axis_points[0];
    let ax1 = &axis_points[1];
    let l0 = locate(ax0, pos[0]);
    let l1 = locate(ax1, pos[1]);
    match (l0, l1) {
        (Some(l0), Some(l1)) => match l0 {
            Bracket::Exact(i) => Some(scalar_column(values, i, ax1, l1, pos[1])),
            Bracket::Between(i) => {
                let y1 = scalar_column(values, i - 1, ax1, l1, pos[1]);
                let y2 = scalar_column(values, i, ax1, l1, pos[1]);
                let t = get_step(pos[0], ax0[i - 1], ax0[i]);
                Some(mix(y1, y2, t))
            },
        },
        _ => None,
    }
}

/// A copy of a list of offsets.
fn copy_offsets(v: &Vec<[i32; 2]>) -> (r: Vec<[i32; 2]>)
    ensures
        r@ == v@,
{
    let mut r: Vec<[i32; 2]> = Vec::with_capacity(v.len());
    let mut k: usize = 0;
    while k < v.len()
        invariant
            k <= v@.len(),
            r@ == v@.take(k as int),
        decreases v@.len() - k,
    {
        r.push(v[k]);
        k = k + 1;
        proof {
            assert(r@ =~= v@.take(k as int));
        }
    }
    proof {
        assert(v@.take(k as int) =~= v@);
    }
    r
}

/// The element-wise blend of two lists of offsets.
fn mix_deform(a: &Vec<[i32; 2]>, b: &Vec<[i32; 2]>, t: i64) -> (r: Vec<[i32; 2]>)
    requires
        a@.len() == b@.len(),
        0 <= t <= FIXED_ONE,
    ensures
        r@.len() == a@.len(),
        forall|k: int, c: int|
            0 <= k < a@.len() && 0 <= c < 2 ==> #[trigger] r@[k][c] as int == mix_spec(
                a@[k][c] as int,
                b@[k][c] as int,
                t as int,
            ),
{
    let mut r: Vec<[i32; 2]> = Vec::with_capacity(a.len());
    let mut k: usize = 0;
    while k < a.len()
        invariant
            k <= a@.len(),
            a@.len() == b@.len(),
            0 <= t <= FIXED_ONE,
            r@.len() == k,
            forall|m: int, c: int|
                0 <= m < k && 0 <= c < 2 ==> #[trigger] r@[m][c] as int == mix_spec(
                    a@[m][c] as int,
                    b@[m][c] as int,
                    t as int,
                ),
        decreases a@.len() - k,
    {
        let x = mix(a[k][0], b[k][0], t);
        let y = mix(a[k][1], b[k][1], t);
        r.push([x, y]);
        k = k + 1;
    }
    r
}

/// The offsets of column `i` of a deformation grid at the located second coordinate.
fn deform_column(
    values: &Vec<Vec<Vec<[i32; 2]>>>,
    i: usize,
    ax1: &Vec<i32>,
    l1: Bracket,
    pos1: i32,
    n: Ghost<nat>,
) -> (r: Vec<[i32; 2]>)
    requires
        i < values@.len(),
        values@[i as int]@.len() == ax1@.len(),
        forall|j: int| 0 <= j < ax1@.len() ==> (#[trigger] values@[i as int]@[j])@.len() == n@,
        bracket_valid(ax1@, l1, pos1),
    ensures
        r@.len() == n@,
        forall|k: int, c: int|
            0 <= k < n@ && 0 <= c < 2 ==> #[trigger] r@[k][c] as int == along_axis1(
                deform_cell(values@, k, c),
                i as int,
                ax1@,
                l1,
                pos1,
            ),
{
    let col = &values[i];
    match l1 {
        Bracket::Exact(j) => copy_offsets(&col[j]),
        Bracket::Between(j) => {
            let t = get_step(pos1, ax1[j - 1], ax1[j]);
            assert(col@[j - 1]@.len() == n@);
            mix_deform(&col[j - 1], &col[j], t)
        },
    }
}

/// The interpolated offsets of a deformation grid at `pos`, or `None` where a
/// coordinate lies outside its axis.
pub fn interpolate_deform(
    values: &Vec<Vec<Vec<[i32; 2]>>>,
    axis_points: &[Vec<i32>; 2],
    pos: [i32; 2],
) -> (r: Option<Vec<[i32; 2]>>)
    requires
        axis_points[0]@.len() >= 1,
        axis_points[1]@.len() >= 1,
        deform_grid_wf(values@, axis_points[0]@, axis_points[1]@, values@[0]@[0]@.len()),
    ensures
        r is Some <==> located(axis_points[0]@, axis_points[1]@, pos[0], pos[1]),
        r matches Some(d) ==> {
            &&& d@.len() == values@[0]@[0]@.len()
            &&& forall|k: int, c: int|
                0 <= k < d@.len() && 0 <= c < 2 ==> interp_spec(
                    deform_cell(values@, k, c),
                    axis_points[0]@,
                    axis_points[1]@,
                    pos[0],
                    pos[1],
                ) == Some(#[trigger] d@[k][c] as int)
        },
{
    let ghost n = values@[0]@[0]@.len();
    let ax0 = &axis_points[0];
    let ax1 = &axis_points[1];
    let l0 = locate(ax0, pos[0]);
    let l1 = locate(ax1, pos[1]);
    match (l0, l1) {
        (Some(l0), Some(l1)) => match l0 {
            Bracket::Exact(i) => {
                let d = deform_column(values, i, ax1, l1, pos[1], Ghost(n));
                Some(d)
            },
            Bracket::Between(i) => {
                let y1 = deform_column(values, i - 1, ax1, l1, pos[1], Ghost(n));
                let y2 = deform_column(values, i, ax1, l1, pos[1], Ghost(n));
                let t = get_step(pos[0], ax0[i - 1], ax0[i]);
                let d = mix_deform(&y1, &y2, t);
                Some(d)
            },
        },
        _ => None,
    }
}

/// Along an axis with a single coordinate the position is an exact hit on
/// that coordinate wherever it lies: the value does not depend on it, and no
/// step fraction is taken along that axis.
pub proof fn lemma_single_coordinate_axis(
    cell: spec_fn(int, int) -> int,
    ax0: Seq<i32>,
    ax1: Seq<i32>,
    pos0: i32,
    pos1: i32,
    q1: i32,
)
    requires
        ax1.len() == 1,
    ensures
        locate_spec(ax1, pos1) == Some(Bracket::Exact(0)),
        interp_spec(cell, ax0, ax1, pos0, pos1) == interp_spec(cell, ax0, ax1, pos0, q1),
        interp_spec(cell, ax0, ax1, pos0, pos1) == match locate_spec(ax0, pos0) {
            Some(Bracket::Exact(i)) => Some(cell(i as int, 0)),
            Some(Bracket::Between(i)) => Some(
                mix_spec(
                    cell(i - 1, 0),
                    cell(i as int, 0),
                    step_spec(pos0 as int, ax0[i - 1] as int, ax0[i as int] as int),
                ),
            ),
            None => None,
        },
{
}

} // verus!
