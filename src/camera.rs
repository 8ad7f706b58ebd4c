//! A pinhole camera: perspective projection to pixels, and the render pass
//! that turns a scene into screen-space line segments.
use vstd::prelude::*;
use crate::error::GeomError;
use crate::fixed::{fx, in_range, tdiv, tdiv_i128, LIMIT, ONE};
use crate::geometry::{is_culled, normal_of, tri_fits, v3_in_range, world_tri, Geometry, Tri, TriView, Vec3View};
use crate::transform::{apply_grid, grid4, lemma_grid_eq, row_times_point, square4, Transform};
use crate::vec3::{in_wide3, Vec3};

verus! {

/// Default near clip distance (0.1).
pub const DEFAULT_NEAR: i64 = 6553;

/// Default far clip distance (1000).
pub const DEFAULT_FAR: i64 = 65536000;

/// A pixel position; also used for a resolution (width, height).
#[derive(Clone, Copy, Debug, PartialEq, Eq, Structural)]
pub struct ScreenPoint {
    pub x: i32,
    pub y: i32,
}

/// A line to draw between two pixels.
#[derive(Clone, Copy, Debug, PartialEq, Eq, Structural)]
pub struct Segment {
    pub from: ScreenPoint,
    pub to: ScreenPoint,
}

/// The aspect ratio width / height, in fixed point.
pub open spec fn aspect(res: ScreenPoint) -> int {
    tdiv(res.x * ONE, res.y as int)
}

/// Entry `(0, 0)` of the projection: `focal / aspect`.
pub open spec fn proj_x_scale(res: ScreenPoint, focal: int) -> int {
    tdiv(focal * ONE, aspect(res))
}

/// Entry `(2, 2)` of the projection: `(-near - far) / (near - far)`.
pub open spec fn proj_depth_scale(near: int, far: int) -> int {
    tdiv((-near - far) * ONE, near - far)
}

/// Entry `(2, 3)` of the projection: `2 * far * near / (near - far)`.
pub open spec fn proj_depth_offset(near: int, far: int) -> int {
    tdiv(2 * far * near, near - far)
}

/// The perspective projection for a resolution, a focal scale
/// `1 / tan(fov / 2)`, and the near and far clip distances.
pub open spec fn projection_grid(res: ScreenPoint, focal: int, near: int, far: int) -> Seq<Seq<i64>> {
    grid4(
        |i: int, j: int|
            if i == 0 && j == 0 {
                proj_x_scale(res, focal) as i64
            } else if i == 1 && j == 1 {
                focal as i64
            } else if i == 2 && j == 2 {
                proj_depth_scale(near, far) as i64
            } else if i == 2 && j == 3 {
                proj_depth_offset(near, far) as i64
            } else if i == 3 && j == 2 {
                ONE
            } else {
                0
            },
    )
}

/// The parameters give a projection: a positive resolution, distinct clip
/// planes, a non-zero aspect ratio, and every entry in range.
pub open spec fn config_ok(res: ScreenPoint, focal: int, near: int, far: int) -> bool {
    &&& res.x > 0
    &&& res.y > 0
    &&& in_range(focal)
    &&& in_range(near)
    &&& in_range(far)
    &&& near != far
    &&& aspect(res) != 0
    &&& in_range(proj_x_scale(res, focal))
    &&& in_range(proj_depth_scale(near, far))
    &&& in_range(proj_depth_offset(near, far))
}

/// `v` saturated to the range of `i32`.
pub open spec fn clamp_i32(v: int) -> int {
    if v < i32::MIN {
        i32::MIN as int
    } else if v > i32::MAX {
        i32::MAX as int
    } else {
        v
    }
}

/// A normalized device coordinate `n / w` mapped to a pixel:
/// `((ndc + 1) / 2) * scale`, saturated to `i32`. Where `w` is zero the
/// coordinate is infinite: it saturates to the bound of `n`'s sign, and is 0
/// when `n` is zero too.
pub open spec fn to_pixel(n: int, w: int, scale: int) -> int {
    if w == 0 {
        if n > 0 {
            i32::MAX as int
        } else if n < 0 {
            i32::MIN as int
        } else {
            0
        }
    } else {
        clamp_i32(tdiv((tdiv(n * ONE, w) + ONE) * scale, 2 * ONE))
    }
}

/// A camera's pose, resolution and projection.
#[derive(Clone, Debug)]
pub struct Camera {
    res: ScreenPoint,
    focal: i64,
    near: i64,
    far: i64,
    proj_mat: Transform,
    pub transform: Transform,
}

/// The pixel that `p` projects to. Both axes are scaled by the height, so
/// that pixels are square. A point at zero depth has no perspective divide;
/// its coordinates saturate as `to_pixel` says.
pub open spec fn project(cam: Camera, p: Vec3View) -> ScreenPoint {
    let m = projection_grid(cam.spec_res(), cam.spec_focal() as int, cam.spec_near() as int, cam.spec_far() as int);
    let w = fx(row_times_point(m, 3, p));
    ScreenPoint {
        x: to_pixel(fx(row_times_point(m, 0, p)), w, cam.spec_res().y as int) as i32,
        y: to_pixel(fx(row_times_point(m, 1, p)), w, cam.spec_res().y as int) as i32,
    }
}

/// The three edges `ab`, `bc`, `ca` of a world-space triangle that faces
/// `view`; nothing for a culled one.
pub open spec fn tri_segments(cam: Camera, view: Vec3View, t: TriView) -> Seq<Segment> {
    if is_culled(t, view) {
        Seq::empty()
    } else {
        let a = project(cam, t.0);
        let b = project(cam, t.1);
        let c = project(cam, t.2);
        seq![Segment { from: a, to: b }, Segment { from: b, to: c }, Segment { from: c, to: a }]
    }
}

/// The segments of a list of world-space triangles, in order.
pub open spec fn tris_segments(cam: Camera, view: Vec3View, ts: Seq<TriView>) -> Seq<Segment>
    decreases ts.len(),
{
    if ts.len() == 0 {
        Seq::empty()
    } else {
        tris_segments(cam, view, ts.drop_last()) + tri_segments(cam, view, ts.last())
    }
}

/// The triangles of `g` in world space.
pub open spec fn world_tris(g: Geometry) -> Seq<TriView> {
    Seq::new(g.tris@.len(), |i: int| world_tri(g.transform@, g.tris@[i]@))
}

/// The segments of a scene, object by object and triangle by triangle.
pub open spec fn scene_segments(cam: Camera, view: Vec3View, gs: Seq<Geometry>) -> Seq<Segment>
    decreases gs.len(),
{
    if gs.len() == 0 {
        Seq::empty()
    } else {
        scene_segments(cam, view, gs.drop_last()) + tris_segments(cam, view, world_tris(gs.last()))
    }
}

/// Some world-space triangle of the scene has no area, hence no normal.
pub open spec fn scene_degenerate(gs: Seq<Geometry>) -> bool {
    exists|g: int, t: int| 0 <= g < gs.len() && 0 <= t < world_tris(gs[g]).len()
        && (#[trigger] normal_of(world_tris(gs[g])[t])) is None
}

/// Every world-space triangle of the scene lies in the representable range.
pub open spec fn scene_fits(gs: Seq<Geometry>) -> bool {
    forall|g: int, t: int| 0 <= g < gs.len() && 0 <= t < world_tris(gs[g]).len()
        ==> tri_fits(#[trigger] world_tris(gs[g])[t])
}

/// The direction the camera looks along: its transform applied to `(0, 0, 1)`.
pub open spec fn forward(cam: Camera) -> Vec3View {
    apply_grid(cam.spec_pose(), (0int, 0int, ONE as int))
}

impl Camera {
    pub closed spec fn spec_res(&self) -> ScreenPoint {
        self.res
    }

    pub closed spec fn spec_focal(&self) -> i64 {
        self.focal
    }

    pub closed spec fn spec_near(&self) -> i64 {
        self.near
    }

    pub closed spec fn spec_far(&self) -> i64 {
        self.far
    }

    pub closed spec fn spec_pose(&self) -> Seq<Seq<i64>> {
        self.transform@
    }

    pub closed spec fn spec_proj(&self) -> Seq<Seq<i64>> {
        self.proj_mat@
    }

    pub fn res(&self) -> (r: ScreenPoint)
        ensures
            r == self.spec_res(),
    {
        self.res
    }

    pub fn focal(&self) -> (r: i64)
        ensures
            r == self.spec_focal(),
    {
        self.focal
    }

    pub fn near(&self) -> (r: i64)
        ensures
            r == self.spec_near(),
    {
        self.near
    }

    pub fn far(&self) -> (r: i64)
        ensures
            r == self.spec_far(),
    {
        self.far
    }

    /// A camera at the identity pose with resolution `res`, focal scale
    /// `focal` (`1 / tan(fov / 2)` in fixed point) and the default clip planes.
    pub fn new(res: ScreenPoint, focal: i64) -> (r: Result<Camera, GeomError>)
        ensures
            !config_ok(res, focal as int, DEFAULT_NEAR as int, DEFAULT_FAR as int)
                <==> r == Err::<Camera, GeomError>(GeomError::ConfigurationError),
            config_ok(res, focal as int, DEFAULT_NEAR as int, DEFAULT_FAR as int) ==> r is Ok,
            r is Ok ==> r->Ok_0.wf() && r->Ok_0.spec_res() == res && r->Ok_0.spec_focal() == focal
                && r->Ok_0.spec_near() == DEFAULT_NEAR && r->Ok_0.spec_far() == DEFAULT_FAR
                && r->Ok_0.spec_pose() == crate::transform::identity_grid(),
    {
        Camera::with_planes(res, focal, DEFAULT_NEAR, DEFAULT_FAR)
    }

    /// A camera at the identity pose with the given projection parameters;
    /// parameters that cannot project (such as `near == far`) are refused.
    pub fn with_planes(res: ScreenPoint, focal: i64, near: i64, far: i64) -> (r: Result<Camera, GeomError>)
        ensures
            !config_ok(res, focal as int, near as int, far as int)
                <==> r == Err::<Camera, GeomError>(GeomError::ConfigurationError),
            config_ok(res, focal as int, near as int, far as int) ==> r is Ok,
            r is Ok ==> r->Ok_0.wf() && r->Ok_0.spec_res() == res && r->Ok_0.spec_focal() == focal
                && r->Ok_0.spec_near() == near && r->Ok_0.spec_far() == far
                && r->Ok_0.spec_pose() == crate::transform::identity_grid(),
    {
        match calculate_projection_matrix(res, focal, near, far) {
            Ok(proj_mat) => Ok(Camera { res, focal, near, far, proj_mat, transform: Transform::new() }),
            Err(e) => Err(e),
        }
    }

    /// Replaces the projection parameters and rebuilds the projection; on
    /// parameters that cannot project the camera is left as it was.
    pub fn set_projection(&mut self, res: ScreenPoint, focal: i64, near: i64, far: i64) -> (r: Result<(), GeomError>)
        requires
            old(self).wf(),
        ensures
            final(self).wf(),
            final(self).spec_pose() == old(self).spec_pose(),
            !config_ok(res, focal as int, near as int, far as int)
                <==> r == Err::<(), GeomError>(GeomError::ConfigurationError),
            config_ok(res, focal as int, near as int, far as int) ==> r is Ok,
            r is Err ==> *final(self) == *old(self),
            r is Ok ==> final(self).spec_res() == res && final(self).spec_focal() == focal
                && final(self).spec_near() == near && final(self).spec_far() == far,
    {
        match calculate_projection_matrix(res, focal, near, far) {
            Ok(proj_mat) => {
                self.res = res;
                self.focal = focal;
                self.near = near;
                self.far = far;
                self.proj_mat = proj_mat;
                Ok(())
            },
            Err(e) => Err(e),
        }
    }

    /// The pixel that `point` projects to.
    pub fn point_to_ss(&self, point: &Vec3) -> (r: ScreenPoint)
        requires
            self.wf(),
            point.wf(),
        ensures
            r == project(*self, point@),
    {
        let px = self.proj_mat.row_times(0, point);
        let py = self.proj_mat.row_times(1, point);
        let pw = self.proj_mat.row_times(3, point);
        ScreenPoint { x: to_pixel_exec(px, pw, self.res.y), y: to_pixel_exec(py, pw, self.res.y) }
    }

    /// The pixels of the three corners.
    pub fn tri_to_ss(&self, tri: &Tri) -> (r: (ScreenPoint, ScreenPoint, ScreenPoint))
        requires
            self.wf(),
            tri.a.wf(),
            tri.b.wf(),
            tri.c.wf(),
        ensures
            r == (project(*self, tri.a@), project(*self, tri.b@), project(*self, tri.c@)),
    {
        (self.point_to_ss(&tri.a), self.point_to_ss(&tri.b), self.point_to_ss(&tri.c))
    }

    /// The line segments to draw for `geometry`: for each object in order,
    /// its triangles carried into the world; a triangle that turns away from
    /// the camera's forward direction is skipped, and each other one gives its
    /// edges `ab`, `bc`, `ca`. A world-space triangle or a forward direction
    /// out of range is reported first; otherwise a world-space triangle
    /// without area, which has no facing, is reported as degenerate.
    pub fn render(&self, geometry: &Vec<Geometry>) -> (r: Result<Vec<Segment>, GeomError>)
        requires
            self.wf(),
            forall|i: int| 0 <= i < geometry@.len() ==> (#[trigger] geometry@[i]).wf(),
        ensures
            !(v3_in_range(forward(*self)) && scene_fits(geometry@))
                <==> r == Err::<Vec<Segment>, GeomError>(GeomError::OutOfRange),
            v3_in_range(forward(*self)) && scene_fits(geometry@) && scene_degenerate(geometry@)
                <==> r == Err::<Vec<Segment>, GeomError>(GeomError::DegenerateVector),
            v3_in_range(forward(*self)) && scene_fits(geometry@) && !scene_degenerate(geometry@) ==> r is Ok,
            r is Ok ==> r->Ok_0@ == scene_segments(*self, forward(*self), geometry@),
    {
        let look = Vec3::new(0, 0, ONE);
        let fwd = self.transform.apply_to_vector(&look);
        if !fits(fwd.x) || !fits(fwd.y) || !fits(fwd.z) {
            return Err(GeomError::OutOfRange);
        }
        if !scene_fits_exec(geometry) {
            return Err(GeomError::OutOfRange);
        }
        let ghost view = fwd@;
        let ghost cam = *self;
        let mut out: Vec<Segment> = Vec::new();
        let mut gi: usize = 0;
        while gi < geometry.len()
            invariant
                self.wf(),
                cam == *self,
                fwd@ == view,
                view == forward(*self),
                fwd.wf(),
                gi <= geometry@.len(),
                forall|i: int| 0 <= i < geometry@.len() ==> (#[trigger] geometry@[i]).wf(),
                scene_fits(geometry@),
                out@ == scene_segments(cam, view, geometry@.subrange(0, gi as int)),
                forall|g: int, t: int| 0 <= g < gi && 0 <= t < world_tris(geometry@[g]).len()
                    ==> (#[trigger] normal_of(world_tris(geometry@[g])[t])) is Some,
            decreases geometry@.len() - gi,
        {
            let g = &geometry[gi];
            assert(g.wf());
            let world = g.apply_transform();
            let ghost wts = world_tris(*g);
            let ghost before = out@;
            let mut ti: usize = 0;
            while ti < world.len()
                invariant
                    self.wf(),
                    cam == *self,
                    fwd@ == view,
                    view == forward(*self),
                    fwd.wf(),
                    *g == geometry@[gi as int],
                    gi < geometry@.len(),
                    scene_fits(geometry@),
                    wts == world_tris(*g),
                    world@.len() == wts.len(),
                    forall|i: int| 0 <= i < world@.len() ==> #[trigger] world@[i]@ == wts[i],
                    ti <= world@.len(),
                    before == scene_segments(cam, view, geometry@.subrange(0, gi as int)),
                    out@ == before + tris_segments(cam, view, wts.subrange(0, ti as int)),
                    forall|t: int| 0 <= t < ti ==> (#[trigger] normal_of(wts[t])) is Some,
                decreases world@.len() - ti,
            {
                let t = world[ti];
                assert(t@ == wts[ti as int]);
                assert(tri_fits(world_tris(geometry@[gi as int])[ti as int]));
                let culled = match t.should_backface_cull(fwd) {
                    Ok(b) => b,
                    Err(_) => {
                        assert(scene_degenerate(geometry@)) by {
                            assert(normal_of(world_tris(geometry@[gi as int])[ti as int]) is None);
                        }
                        return Err(GeomError::DegenerateVector);
                    },
                };
                let ghost prev = out@;
                if !culled {
                    let (a, b, c) = self.tri_to_ss(&t);
                    out.push(Segment { from: a, to: b });
                    out.push(Segment { from: b, to: c });
                    out.push(Segment { from: c, to: a });
                }
                proof {
                    assert(out@ =~= prev + tri_segments(cam, view, t@));
                    let sub = wts.subrange(0, ti as int + 1);
                    assert(sub.drop_last() =~= wts.subrange(0, ti as int));
                    assert(sub.last() == t@);
                    assert(out@ =~= before + tris_segments(cam, view, sub));
                }
                ti = ti + 1;
            }
            proof {
                assert(wts.subrange(0, wts.len() as int) =~= wts);
                let gsub = geometry@.subrange(0, gi as int + 1);
                assert(gsub.drop_last() =~= geometry@.subrange(0, gi as int));
                assert(gsub.last() == *g);
            }
            gi = gi + 1;
        }
        assert(geometry@.subrange(0, geometry@.len() as int) =~= geometry@);
        assert(!scene_degenerate(geometry@));
        Ok(out)
    }

    /// The projection matches the parameters, and both matrices are well formed.
    pub closed spec fn wf(&self) -> bool {
        &&& config_ok(self.res, self.focal as int, self.near as int, self.far as int)
        &&& self.proj_mat.wf()
        &&& self.proj_mat@ == projection_grid(self.res, self.focal as int, self.near as int, self.far as int)
        &&& self.transform.wf()
    }
}

/// Whether every world-space triangle of the scene is in range.
fn scene_fits_exec(geometry: &Vec<Geometry>) -> (r: bool)
    requires
        forall|i: int| 0 <= i < geometry@.len() ==> (#[trigger] geometry@[i]).wf(),
    ensures
        r == scene_fits(geometry@),
{
    let mut gi: usize = 0;
    while gi < geometry.len()
        invariant
            gi <= geometry@.len(),
            forall|i: int| 0 <= i < geometry@.len() ==> (#[trigger] geometry@[i]).wf(),
            forall|g: int, t: int| 0 <= g < gi && 0 <= t < world_tris(geometry@[g]).len()
                ==> tri_fits(#[trigger] world_tris(geometry@[g])[t]),
        decreases geometry@.len() - gi,
    {
        let g = &geometry[gi];
        assert(g.wf());
        let world = g.apply_transform();
        let mut ti: usize = 0;
        while ti < world.len()
            invariant
                gi < geometry@.len(),
                *g == geometry@[gi as int],
                world@.len() == world_tris(*g).len(),
                forall|i: int| 0 <= i < world@.len() ==> #[trigger] world@[i]@ == world_tris(*g)[i],
                forall|i: int| 0 <= i < world@.len() ==> in_wide3(#[trigger] world@[i].a@)
                    && in_wide3(world@[i].b@) && in_wide3(world@[i].c@),
                ti <= world@.len(),
                forall|t: int| 0 <= t < ti ==> tri_fits(#[trigger] world_tris(*g)[t]),
            decreases world@.len() - ti,
        {
            let t = world[ti];
            assert(t@ == world_tris(*g)[ti as int]);
            if !tri_fits_exec(&t) {
                assert(!tri_fits(world_tris(geometry@[gi as int])[ti as int]));
                return false;
            }
            ti = ti + 1;
        }
        gi = gi + 1;
    }
    true
}

/// Whether the triangle's corners and its two edges from `b` are in range.
fn tri_fits_exec(t: &Tri) -> (r: bool)
    requires
        in_wide3(t.a@),
        in_wide3(t.b@),
        in_wide3(t.c@),
    ensures
        r == tri_fits(t@),
{
    fits(t.a.x) && fits(t.a.y) && fits(t.a.z) && fits(t.b.x) && fits(t.b.y) && fits(t.b.z)
        && fits(t.c.x) && fits(t.c.y) && fits(t.c.z) && fits(t.a.x - t.b.x) && fits(t.a.y - t.b.y)
        && fits(t.a.z - t.b.z) && fits(t.c.x - t.b.x) && fits(t.c.y - t.b.y) && fits(t.c.z - t.b.z)
}

fn fits(v: i64) -> (r: bool)
    ensures
        r == in_range(v as int),
{
    -LIMIT <= v && v <= LIMIT
}

/// The normalized device x coordinate of the point `(d, 0, z)`.
pub open spec fn ndc_x(cam: Camera, d: int, z: int) -> int {
    tdiv(fx(proj_x_scale(cam.spec_res(), cam.spec_focal() as int) * d) * ONE, z)
}

/// Moving a point on the camera's axis at depth `z > 0` sideways by `d >= 0`
/// (as translating its object by `(d, 0, 0)` does) keeps its screen row, and
/// shifts its screen column from the centre (half the height) by
/// `ndc * height / 2`, where `ndc = P00 * d / z` is the projected x, to within
/// one pixel (unless the column saturates).
pub proof fn lemma_translation_shift(cam: Camera, d: int, z: int)
    requires
        cam.wf(),
        cam.spec_focal() > 0,
        0 <= d <= LIMIT,
        0 < z <= LIMIT,
    ensures
        project(cam, (0int, 0int, z)).x == cam.spec_res().y / 2,
        project(cam, (d, 0int, z)).y == project(cam, (0int, 0int, z)).y,
        (project(cam, (d, 0int, z)).x as int) < i32::MAX ==> crate::fixed::abs(
            2 * ONE * (project(cam, (d, 0int, z)).x - project(cam, (0int, 0int, z)).x)
                - ndc_x(cam, d, z) * cam.spec_res().y,
        ) < 2 * ONE,
{
    let res = cam.spec_res();
    let h = res.y as int;
    let m = projection_grid(res, cam.spec_focal() as int, cam.spec_near() as int, cam.spec_far() as int);
    let p00 = proj_x_scale(res, cam.spec_focal() as int);
    let f = cam.spec_focal() as int;
    assert(m[0][0] == p00 as i64 && m[0][1] == 0 && m[0][2] == 0 && m[0][3] == 0);
    assert(m[1][0] == 0 && m[1][1] == f as i64 && m[1][2] == 0 && m[1][3] == 0);
    assert(m[3][0] == 0 && m[3][1] == 0 && m[3][2] == ONE && m[3][3] == 0);
    assert(in_range(p00));
    let e00 = m[0][0] as int;
    let e11 = m[1][1] as int;
    assert(row_times_point(m, 0, (0int, 0int, z)) == 0) by (nonlinear_arith)
        requires row_times_point(m, 0, (0int, 0int, z)) == e00 * 0 + 0 * 0 + 0 * z + 0 * ONE;
    assert(row_times_point(m, 0, (d, 0int, z)) == p00 * d) by (nonlinear_arith)
        requires row_times_point(m, 0, (d, 0int, z)) == e00 * d + 0 * 0 + 0 * z + 0 * ONE, e00 == p00;
    assert(row_times_point(m, 1, (0int, 0int, z)) == 0) by (nonlinear_arith)
        requires row_times_point(m, 1, (0int, 0int, z)) == 0 * 0 + e11 * 0 + 0 * z + 0 * ONE;
    assert(row_times_point(m, 1, (d, 0int, z)) == 0) by (nonlinear_arith)
        requires row_times_point(m, 1, (d, 0int, z)) == 0 * d + e11 * 0 + 0 * z + 0 * ONE;
    assert(row_times_point(m, 3, (0int, 0int, z)) == z * ONE);
    assert(row_times_point(m, 3, (d, 0int, z)) == z * ONE);
    crate::fixed::lemma_tdiv_exact(z, ONE as int);
    assert(fx(0) == 0);
    assert(tdiv(0, z) == 0);
    // Centre column.
    assert(ONE * h / (2 * ONE as int) == h / 2) by (nonlinear_arith) requires h > 0;
    assert(ONE * h >= 0) by (nonlinear_arith) requires h > 0;
    let c = h / 2;
    assert(tdiv((0 + ONE) * h, 2 * ONE) == c);
    assert(clamp_i32(c) == c);
    // Shifted column.
    let ar = aspect(res);
    assert(res.x * ONE >= 0) by (nonlinear_arith) requires res.x > 0;
    assert(ar >= 0);
    assert(f * ONE >= 0) by (nonlinear_arith) requires f > 0;
    assert(p00 >= 0);
    assert(p00 * d >= 0) by (nonlinear_arith) requires p00 >= 0, d >= 0;
    let n = fx(p00 * d);
    assert(n >= 0);
    assert(n * ONE >= 0) by (nonlinear_arith) requires n >= 0;
    let ndc = tdiv(n * ONE, z);
    assert(ndc >= 0);
    assert((ndc + ONE) * h >= 0) by (nonlinear_arith) requires ndc >= 0, h > 0;
    let num = (ndc + ONE) * h;
    let x = num / (2 * ONE as int);
    assert(tdiv(num, 2 * ONE) == x);
    vstd::arithmetic::div_mod::lemma_fundamental_div_mod(num, 2 * ONE as int);
    vstd::arithmetic::div_mod::lemma_mod_pos_bound(num, 2 * ONE as int);
    vstd::arithmetic::div_mod::lemma_fundamental_div_mod(h, 2);
    vstd::arithmetic::div_mod::lemma_mod_pos_bound(h, 2);
    assert(x >= 0) by (nonlinear_arith)
        requires num == (2 * ONE) * x + num % (2 * ONE as int), 0 <= num % (2 * ONE as int) < 2 * ONE, num >= 0;
    if (project(cam, (d, 0int, z)).x as int) < i32::MAX {
        assert(clamp_i32(x) == x);
        assert(crate::fixed::abs(2 * ONE * (x - c) - ndc * h) < 2 * ONE) by (nonlinear_arith)
            requires
                num == (2 * ONE) * x + num % (2 * ONE as int),
                0 <= num % (2 * ONE as int) < 2 * ONE,
                h == 2 * c + h % 2,
                0 <= h % 2 < 2,
                num == (ndc + ONE) * h;
    }
}

/// Builds the projection matrix, refusing parameters that cannot project.
fn calculate_projection_matrix(res: ScreenPoint, focal: i64, near: i64, far: i64) -> (r: Result<Transform, GeomError>)
    ensures
        !config_ok(res, focal as int, near as int, far as int)
            <==> r == Err::<Transform, GeomError>(GeomError::ConfigurationError),
        config_ok(res, focal as int, near as int, far as int) ==> r is Ok,
        r is Ok ==> r->Ok_0.wf() && r->Ok_0@ == projection_grid(res, focal as int, near as int, far as int),
{
    if res.x <= 0 || res.y <= 0 || focal < -LIMIT || focal > LIMIT || near < -LIMIT || near > LIMIT
        || far < -LIMIT || far > LIMIT || near == far {
        return Err(GeomError::ConfigurationError);
    }
    let ar = tdiv_i128((res.x as i128) * (ONE as i128), res.y as i128);
    if ar == 0 {
        return Err(GeomError::ConfigurationError);
    }
    proof {
        assert((res.x as int) * ONE <= 0x8000_0000_0000) by (nonlinear_arith)
            requires res.x <= 0x7fff_ffff, res.x > 0;
        assert((res.x as int) * ONE >= 0) by (nonlinear_arith) requires res.x > 0;
        crate::fixed::lemma_tdiv_bound((res.x as int) * ONE, res.y as int);
        assert(ar <= 0x8000_0000_0000) by (nonlinear_arith)
            requires (if ar >= 0 { ar as int } else { -ar }) <= (res.x as int) * ONE / (res.y as int),
                (res.x as int) * ONE / (res.y as int) <= (res.x as int) * ONE, (res.x as int) * ONE <= 0x8000_0000_0000;
    }
    let x_scale = tdiv_i128((focal as i128) * (ONE as i128), ar);
    let depth_scale = tdiv_i128(((-near as i128) - (far as i128)) * (ONE as i128), (near as i128) - (far as i128));
    proof {
        assert(crate::fixed::abs((far as int) * (near as int)) <= 0x1_0000_0000_0000_0000) by (nonlinear_arith)
            requires -LIMIT <= far <= LIMIT, -LIMIT <= near <= LIMIT;
    }
    let fnp: i128 = (far as i128) * (near as i128);
    let depth_offset = tdiv_i128(2 * fnp, (near as i128) - (far as i128));
    assert(2 * (far as int) * (near as int) == 2 * ((far as int) * (near as int))) by (nonlinear_arith);
    assert(depth_offset == proj_depth_offset(near as int, far as int));
    assert(depth_scale == proj_depth_scale(near as int, far as int));
    assert(x_scale == proj_x_scale(res, focal as int));
    if x_scale < -(LIMIT as i128) || x_scale > LIMIT as i128 || depth_scale < -(LIMIT as i128)
        || depth_scale > LIMIT as i128 || depth_offset < -(LIMIT as i128) || depth_offset > LIMIT as i128 {
        return Err(GeomError::ConfigurationError);
    }
    let xs = x_scale as i64;
    let ds = depth_scale as i64;
    let dof = depth_offset as i64;
    let mat = square4(vec![
        vec![xs, 0, 0, 0],
        vec![0, focal, 0, 0],
        vec![0, 0, ds, dof],
        vec![0, 0, ONE, 0],
    ]);
    proof {
        lemma_grid_eq(mat@, projection_grid(res, focal as int, near as int, far as int));
    }
    Ok(Transform { mat })
}

/// `((n / w + 1) / 2) * scale`, saturated to `i32`.
fn to_pixel_exec(n: i64, w: i64, scale: i32) -> (r: i32)
    requires
        scale > 0,
        -0x4_0000_0000_0000 <= n <= 0x4_0000_0000_0000,
    ensures
        r == to_pixel(n as int, w as int, scale as int),
{
    if w == 0 {
        return if n > 0 {
            i32::MAX
        } else if n < 0 {
            i32::MIN
        } else {
            0
        };
    }
    proof {
        assert(crate::fixed::abs((n as int) * ONE) <= 0x4_0000_0000_0000_0000) by (nonlinear_arith)
            requires -0x4_0000_0000_0000 <= n <= 0x4_0000_0000_0000;
    }
    let ndc = tdiv_i128((n as i128) * (ONE as i128), w as i128);
    proof {
        crate::fixed::lemma_tdiv_bound((n as int) * ONE, crate::fixed::abs(w as int));
        assert(crate::fixed::abs((n as int) * ONE) <= 0x4_0000_0000_0000_0000) by (nonlinear_arith)
            requires -0x4_0000_0000_0000 <= n <= 0x4_0000_0000_0000;
        assert(crate::fixed::abs((n as int) * ONE) / crate::fixed::abs(w as int) <= crate::fixed::abs((n as int) * ONE))
            by (nonlinear_arith) requires crate::fixed::abs(w as int) >= 1, crate::fixed::abs((n as int) * ONE) >= 0;
        assert(crate::fixed::abs(ndc as int) <= 0x4_0000_0000_0000_0000);
        assert(((ndc as int) + ONE) * (scale as int) <= 0x4_0000_0000_0000_0000_0000_0000) by (nonlinear_arith)
            requires crate::fixed::abs(ndc as int) <= 0x4_0000_0000_0000_0000, 0 < scale <= 0x7fff_ffff;
        assert(((ndc as int) + ONE) * (scale as int) >= -0x4_0000_0000_0000_0000_0000_0000) by (nonlinear_arith)
            requires crate::fixed::abs(ndc as int) <= 0x4_0000_0000_0000_0000, 0 < scale <= 0x7fff_ffff;
    }
    let v = tdiv_i128((ndc + (ONE as i128)) * (scale as i128), 2 * (ONE as i128));
    if v < i32::MIN as i128 {
        i32::MIN
    } else if v > i32::MAX as i128 {
        i32::MAX
    } else {
        v as i32
    }
}

} // verus!
