//! Parameters, their bindings to node channels, and the animation values
//! that a binding yields at a control position.
use crate::interp::{
    axis_wf, deform_cell, deform_grid_wf, interp_spec, interpolate_deform, interpolate_scalar, located,
    scalar_cell, scalar_grid_wf, unit_coord,
};
use crate::fixed::div_floor;
use vstd::prelude::*;

verus! {

/// A scalar channel of a node that a binding can drive.
#[derive(Debug, Clone, Copy, PartialEq, Eq, Structural)]
pub enum Channel {
    ZSort,
    TransformTX,
    TransformTY,
    TransformTZ,
    TransformSX,
    TransformSY,
    TransformRX,
    TransformRY,
    TransformRZ,
}

/// How values between grid points are found.
#[derive(Debug, Clone, Copy, PartialEq, Eq, Structural)]
pub enum InterpolateMode {
    Nearest,
    Linear,
}

/// The value grid of a binding: one value per grid point for a scalar
/// channel, or one list of 2D vertex offsets per grid point for a deformation.
#[derive(Debug)]
pub enum BindingValues {
    Scalar(Channel, Vec<Vec<i32>>),
    Deform(Vec<Vec<Vec<[i32; 2]>>>),
}

/// Ties a parameter's grid to one channel of the node `node`.
#[derive(Debug)]
pub struct Binding {
    pub node: u32,
    pub values: BindingValues,
    pub is_set: Vec<Vec<bool>>,
    pub interpolate_mode: InterpolateMode,
}

/// The contribution of one binding at a control position.
#[derive(Debug)]
pub enum Anim {
    Scalar(Channel, i32),
    /// The vertex offsets, flattened as x0, y0, x1, y1, ...
    Deform(Vec<i32>),
}

/// A named animation control: two axes spanning a grid, and the bindings
/// that the grid drives.
#[derive(Debug)]
pub struct Param {
    pub uuid: u32,
    pub name: String,
    pub is_vec2: bool,
    pub min: [i32; 2],
    pub max: [i32; 2],
    pub defaults: [i32; 2],
    pub axis_points: [Vec<i32>; 2],
    pub bindings: Vec<Binding>,
}

/// The grid of a binding has the shape of the axes; a deformation grid holds
/// the same number of offsets at every point.
pub open spec fn binding_wf(b: Binding, ax0: Seq<i32>, ax1: Seq<i32>) -> bool {
    &&& ax0.len() >= 1
    &&& ax1.len() >= 1
    &&& match b.values {
        BindingValues::Scalar(_, v) => scalar_grid_wf(v@, ax0, ax1),
        BindingValues::Deform(v) => deform_grid_wf(v@, ax0, ax1, v@[0]@[0]@.len()),
    }
}

impl View for Anim {
    type V = (Option<Channel>, Seq<int>);

    /// The channel (none for a deformation) and the values.
    open spec fn view(&self) -> (Option<Channel>, Seq<int>) {
        match self {
            Anim::Scalar(c, v) => (Some(*c), seq![*v as int]),
            Anim::Deform(d) => (None, d@.map_values(|x: i32| x as int)),
        }
    }
}

/// What binding `b` contributes at `(pos0, pos1)` on the axes `ax0`, `ax1`;
/// `None` where the position lies off the axes.
pub open spec fn contribution(b: Binding, ax0: Seq<i32>, ax1: Seq<i32>, pos0: i32, pos1: i32) -> Option<
    (Option<Channel>, Seq<int>),
> {
    match b.values {
        BindingValues::Scalar(ch, v) => match interp_spec(scalar_cell(v@), ax0, ax1, pos0, pos1) {
            Some(x) => Some((Some(ch), seq![x])),
            None => None,
        },
        BindingValues::Deform(v) => if located(ax0, ax1, pos0, pos1) {
            Some(
                (
                    None,
                    Seq::new(
                        2 * v@[0]@[0]@.len(),
                        |i: int| interp_spec(deform_cell(v@, i / 2, i % 2), ax0, ax1, pos0, pos1)->0,
                    ),
                ),
            )
        } else {
            None
        },
    }
}

impl Param {
    /// Every binding's grid has the shape of this parameter's axes.
    pub open spec fn wf(&self) -> bool {
        &&& axis_wf(self.axis_points[0]@)
        &&& axis_wf(self.axis_points[1]@)
        &&& forall|k: int|
            0 <= k < self.bindings@.len() ==> binding_wf(
                #[trigger] self.bindings@[k],
                self.axis_points[0]@,
                self.axis_points[1]@,
            )
    }
}

impl Param {
    /// Whether every binding's grid has the shape of this parameter's axes.
    pub fn check(&self) -> (r: bool)
        ensures
            r == self.wf(),
    {
        if !ascending(&self.axis_points[0]) || !ascending(&self.axis_points[1]) {
            return false;
        }
        let n0 = self.axis_points[0].len();
        let n1 = self.axis_points[1].len();
        let mut k: usize = 0;
        while k < self.bindings.len()
            invariant
                k <= self.bindings@.len(),
                n0 == self.axis_points[0]@.len() && n0 >= 1,
                n1 == self.axis_points[1]@.len() && n1 >= 1,
                forall|j: int| 0 <= j < k ==> binding_wf(#[trigger] self.bindings@[j], self.axis_points[0]@, self.axis_points[1]@),
            decreases self.bindings@.len() - k,
        {
            let ok = match &self.bindings[k].values {
                BindingValues::Scalar(_, v) => scalar_fits(v, n0, n1),
                BindingValues::Deform(v) => deform_fits(v, n0, n1),
            };
            if !ok {
                return false;
            }
            k = k + 1;
        }
        true
    }
}

/// Whether `ax` is non-empty and strictly ascending.
fn ascending(ax: &Vec<i32>) -> (r: bool)
    ensures
        r == axis_wf(ax@),
{
    if ax.len() == 0 {
        return false;
    }
    let mut i: usize = 1;
    while i < ax.len()
        invariant
            1 <= i <= ax@.len(),
            forall|a: int, b: int| 0 <= a < b < i ==> ax@[a] < ax@[b],
        decreases ax@.len() - i,
    {
        if ax[i - 1] >= ax[i] {
            return false;
        }
        proof {
            assert forall|a: int, b: int| 0 <= a < b < i + 1 implies ax@[a] < ax@[b] by {
                if b == i && a < i - 1 {
                    assert(ax@[a] < ax@[i - 1]);
                }
            }
        }
        i = i + 1;
    }
    true
}

fn scalar_fits(v: &Vec<Vec<i32>>, n0: usize, n1: usize) -> (r: bool)
    ensures
        r == (v@.len() == n0 && forall|i: int| 0 <= i < v@.len() ==> (#[trigger] v@[i])@.len() == n1),
{
    if v.len() != n0 {
        return false;
    }
    let mut i: usize = 0;
    while i < v.len()
        invariant
            i <= v@.len(),
            forall|j: int| 0 <= j < i ==> (#[trigger] v@[j])@.len() == n1,
        decreases v@.len() - i,
    {
        if v[i].len() != n1 {
            return false;
        }
        i = i + 1;
    }
    true
}

fn deform_fits(v: &Vec<Vec<Vec<[i32; 2]>>>, n0: usize, n1: usize) -> (r: bool)
    requires
        n0 >= 1,
        n1 >= 1,
    ensures
        r == (v@.len() == n0 && (forall|i: int| 0 <= i < v@.len() ==> (#[trigger] v@[i])@.len() == n1)
            && forall|i: int, j: int|
            0 <= i < v@.len() && 0 <= j < n1 ==> (#[trigger] v@[i]@[j])@.len() == v@[0]@[0]@.len()),
{
    if v.len() != n0 {
        return false;
    }
    if v[0].len() != n1 {
        return false;
    }
    let n = v[0][0].len();
    let mut i: usize = 0;
    while i < v.len()
        invariant
            i <= v@.len(),
            v@.len() == n0,
            n1 >= 1,
            v@[0]@.len() == n1,
            n == v@[0]@[0]@.len(),
            forall|a: int| 0 <= a < i ==> (#[trigger] v@[a])@.len() == n1,
            forall|a: int, b: int| 0 <= a < i && 0 <= b < n1 ==> (#[trigger] v@[a]@[b])@.len() == n,
        decreases v@.len() - i,
    {
        if v[i].len() != n1 {
            return false;
        }
        let mut j: usize = 0;
        while j < n1
            invariant
                j <= n1,
                i < v@.len(),
                n1 >= 1,
                v@.len() >= 1,
                v@[0]@.len() == n1,
                n == v@[0]@[0]@.len(),
                v@[i as int]@.len() == n1,
                forall|b: int| 0 <= b < j ==> (#[trigger] v@[i as int]@[b])@.len() == n,
            decreases n1 - j,
        {
            if v[i][j].len() != n {
                proof {
                    assert((v@[i as int]@[j as int])@.len() != v@[0]@[0]@.len());
                }
                return false;
            }
            j = j + 1;
        }
        i = i + 1;
    }
    true
}

impl Binding {
    /// The contribution of this binding at `pos`, both of whose coordinates
    /// lie in `[0, 1]`; `None` where a coordinate lies outside its axis.
    pub fn interpolate(&self, axis_points: &[Vec<i32>; 2], pos: [i32; 2]) -> (r: Option<Anim>)
        requires
            binding_wf(*self, axis_points[0]@, axis_points[1]@),
            unit_coord(pos[0]),
            unit_coord(pos[1]),
        ensures
            match r {
                Some(a) => contribution(*self, axis_points[0]@, axis_points[1]@, pos[0], pos[1])
                    == Some(a@),
                None => contribution(*self, axis_points[0]@, axis_points[1]@, pos[0], pos[1]) is None,
            },
            match self.values {
                BindingValues::Scalar(ch, v) => match interp_spec(
                    scalar_cell(v@),
                    axis_points[0]@,
                    axis_points[1]@,
                    pos[0],
                    pos[1],
                ) {
                    Some(x) => r matches Some(Anim::Scalar(c, y)) && c == ch && y as int == x,
                    None => r is None,
                },
                BindingValues::Deform(v) => {
                    &&& r is Some <==> located(axis_points[0]@, axis_points[1]@, pos[0], pos[1])
                    &&& r matches Some(a) ==> a matches Anim::Deform(d) && d@.len() == 2
                        * v@[0]@[0]@.len() && forall|k: int, c: int|
                        0 <= k < v@[0]@[0]@.len() && 0 <= c < 2 ==> interp_spec(
                            deform_cell(v@, k, c),
                            axis_points[0]@,
                            axis_points[1]@,
                            pos[0],
                            pos[1],
                        ) == Some(#[trigger] d@[2 * k + c] as int)
                },
            },
    {
        match &self.values {
            BindingValues::Scalar(ch, v) => match interpolate_scalar(v, axis_points, pos) {
                Some(x) => Some(Anim::Scalar(*ch, x)),
                None => None,
            },
            BindingValues::Deform(v) => match interpolate_deform(v, axis_points, pos) {
                Some(offsets) => {
                    let d = flatten_offsets(&offsets);
                    proof {
                        let n = v@[0]@[0]@.len();
                        let want = Seq::new(
                            2 * n,
                            |i: int| interp_spec(deform_cell(v@, i / 2, i % 2), axis_points[0]@, axis_points[1]@, pos[0], pos[1])->0,
                        );
                        assert forall|i: int| 0 <= i < 2 * n implies d@.map_values(|x: i32| x as int)[i] == want[i] by {
                            let k = i / 2;
                            let c = i % 2;
                            assert(i == 2 * k + c);
                            assert(interp_spec(deform_cell(v@, k, c), axis_points[0]@, axis_points[1]@, pos[0], pos[1])
                                == Some(offsets@[k][c] as int));
                        }
                        assert(d@.map_values(|x: i32| x as int) =~= want);
                    }
                    Some(Anim::Deform(d))
                },
                None => None,
            },
        }
    }
}

/// The offsets as one list of coordinates: x0, y0, x1, y1, ...
fn flatten_offsets(v: &Vec<[i32; 2]>) -> (r: Vec<i32>)
    ensures
        r@.len() == 2 * v@.len(),
        forall|k: int, c: int| 0 <= k < v@.len() && 0 <= c < 2 ==> #[trigger] r@[2 * k + c] == v@[k][c],
{
    let mut r: Vec<i32> = Vec::new();
    let mut k: usize = 0;
    while k < v.len()
        invariant
            k <= v@.len(),
            r@.len() == 2 * k,
            forall|m: int, c: int| 0 <= m < k && 0 <= c < 2 ==> #[trigger] r@[2 * m + c] == v@[m][c],
        decreases v@.len() - k,
    {
        r.push(v[k][0]);
        r.push(v[k][1]);
        k = k + 1;
    }
    r
}

/// The position of `def` between `min` and `max`, in fixed point; 0 where
/// the range is empty.
pub open spec fn normalized(def: i32, min: i32, max: i32) -> int {
    if max == min {
        0
    } else if max > min {
        crate::fixed::floor_div((def - min) * 65536, max - min)
    } else {
        crate::fixed::floor_div((min - def) * 65536, min - max)
    }
}

fn normalize(def: i32, min: i32, max: i32) -> (r: i64)
    ensures
        r == normalized(def, min, max),
{
    if max == min {
        return 0;
    }
    let num: i64 = (def as i64 - min as i64) * 65536;
    let den: i64 = max as i64 - min as i64;
    if den > 0 {
        div_floor(num, den)
    } else {
        div_floor(-num, -den)
    }
}

/// The current control position of each parameter, by name.
pub struct ParamValues {
    pub names: Vec<String>,
    pub values: Vec<[i64; 2]>,
}

impl ParamValues {
    pub open spec fn wf(&self) -> bool {
        self.names@.len() == self.values@.len()
    }

    /// Every parameter at its default position, in parameter order.
    pub fn new(params: &Vec<Param>) -> (r: ParamValues)
        ensures
            r.wf(),
            r.names@.len() == params@.len(),
            forall|i: int|
                0 <= i < params@.len() ==> #[trigger] r.names@[i]@ == params@[i].name@ && r.values@[i][0]
                    == normalized(params@[i].defaults[0], params@[i].min[0], params@[i].max[0])
                    && r.values@[i][1] == normalized(
                    params@[i].defaults[1],
                    params@[i].min[1],
                    params@[i].max[1],
                ),
    {
        let mut names: Vec<String> = Vec::new();
        let mut values: Vec<[i64; 2]> = Vec::new();
        let mut i: usize = 0;
        while i < params.len()
            invariant
                i <= params@.len(),
                names@.len() == i,
                values@.len() == i,
                forall|k: int|
                    0 <= k < i ==> #[trigger] names@[k]@ == params@[k].name@ && values@[k][0]
                        == normalized(params@[k].defaults[0], params@[k].min[0], params@[k].max[0])
                        && values@[k][1] == normalized(
                        params@[k].defaults[1],
                        params@[k].min[1],
                        params@[k].max[1],
                    ),
            decreases params@.len() - i,
        {
            let p = &params[i];
            let x = normalize(p.defaults[0], p.min[0], p.max[0]);
            let y = normalize(p.defaults[1], p.min[1], p.max[1]);
            names.push(p.name.clone());
            values.push([x, y]);
            i = i + 1;
        }
        ParamValues { names, values }
    }

    /// Moves the parameter called `name` to `value`; no other parameter moves,
    /// and nothing does where no parameter has that name.
    pub fn set(&mut self, name: &str, value: [i64; 2])
        requires
            old(self).wf(),
        ensures
            final(self).wf(),
            final(self).names == old(self).names,
            final(self).values@.len() == old(self).values@.len(),
            forall|i: int|
                0 <= i < old(self).values@.len() ==> #[trigger] final(self).values@[i] == if old(
                    self,
                ).names@[i]@ == name@ {
                    value
                } else {
                    old(self).values@[i]
                },
    {
        let wanted = name.to_owned();
        let mut i: usize = 0;
        while i < self.names.len()
            invariant
                wanted@ == name@,
                self.wf(),
                i <= self.names@.len(),
                self.names == old(self).names,
                self.values@.len() == old(self).values@.len(),
                forall|k: int|
                    0 <= k < self.values@.len() ==> #[trigger] self.values@[k] == if k < i
                        && old(self).names@[k]@ == name@ {
                        value
                    } else {
                        old(self).values@[k]
                    },
            decreases self.names@.len() - i,
        {
            if self.names[i] == wanted {
                self.values.set(i, value);
            }
            i = i + 1;
        }
    }
}

} // verus!
