//! Triangles, their facing, and objects made of triangles under one transform.
use vstd::prelude::*;
use crate::error::GeomError;
use crate::fixed::{in_range, ONE};
use crate::transform::{apply_grid, Transform};
use crate::vec3::{cross3, dot3, in_wide3, norm_sq3, normalized3, sub3, Vec3};

verus! {

/// Visibility-culling bias, 0.1 in fixed point (rounded down): a triangle is culled when its unit normal
/// has less than this component along the view direction, so that triangles
/// seen edge-on do not flicker at the silhouette.
pub const CULL_BIAS: i64 = 6553;

pub type Vec3View = (int, int, int);

pub type TriView = (Vec3View, Vec3View, Vec3View);

/// The unit face normal `normalize(cross(a - b, c - b))`; `None` for a
/// triangle without area.
pub open spec fn normal_of(t: TriView) -> Option<Vec3View> {
    normalized3(cross3(sub3(t.0, t.1), sub3(t.2, t.1)))
}

/// A triangle with a normal is culled when the normal's component along
/// `view` is below the bias. One without area has no facing (the render pass
/// reports it as degenerate before asking).
pub open spec fn is_culled(t: TriView, view: Vec3View) -> bool {
    match normal_of(t) {
        Some(n) => dot3(n, view) < CULL_BIAS,
        None => false,
    }
}

/// The vertices and the two edges from `b` lie in the representable range.
pub open spec fn tri_fits(t: TriView) -> bool {
    &&& v3_in_range(t.0)
    &&& v3_in_range(t.1)
    &&& v3_in_range(t.2)
    &&& v3_in_range(sub3(t.0, t.1))
    &&& v3_in_range(sub3(t.2, t.1))
}

pub open spec fn v3_in_range(v: Vec3View) -> bool {
    in_range(v.0) && in_range(v.1) && in_range(v.2)
}

/// A triangle carried by the matrix `m`, vertex by vertex.
pub open spec fn world_tri(m: Seq<Seq<i64>>, t: TriView) -> TriView {
    (apply_grid(m, t.0), apply_grid(m, t.1), apply_grid(m, t.2))
}

/// A triangle given by its three corners.
#[derive(Clone, Copy, Debug, PartialEq, Eq, Structural)]
pub struct Tri {
    pub a: Vec3,
    pub b: Vec3,
    pub c: Vec3,
}

impl Tri {
    pub open spec fn view(&self) -> TriView {
        (self.a@, self.b@, self.c@)
    }

    pub fn new(a: Vec3, b: Vec3, c: Vec3) -> (r: Self)
        ensures
            r.a == a && r.b == b && r.c == c,
    {
        Tri { a, b, c }
    }

    /// The unit normal of the face, `normalize(cross(a - b, c - b))`.
    pub fn get_normal(&self) -> (r: Result<Vec3, GeomError>)
        requires
            tri_fits(self@),
        ensures
            normal_of(self@) is None <==> r == Err::<Vec3, GeomError>(GeomError::DegenerateVector),
            normal_of(self@) is Some ==> r is Ok,
            r is Ok ==> normal_of(self@) == Some(r->Ok_0@) && r->Ok_0.wf(),
            r is Ok ==> ONE * ONE - 8 * ONE <= norm_sq3(r->Ok_0@) <= ONE * ONE + 8 * ONE,
    {
        let u = self.a.sub(self.b);
        let v = self.c.sub(self.b);
        let mut n = u.cross(&v);
        n.normalize()
    }

    /// Whether the face turns away from `view` by the culling rule; a
    /// triangle without area is reported as degenerate.
    pub fn should_backface_cull(&self, view: Vec3) -> (r: Result<bool, GeomError>)
        requires
            tri_fits(self@),
            view.wf(),
        ensures
            normal_of(self@) is None <==> r == Err::<bool, GeomError>(GeomError::DegenerateVector),
            normal_of(self@) is Some ==> r is Ok,
            r is Ok ==> r->Ok_0 == is_culled(self@, view@),
    {
        match self.get_normal() {
            Ok(n) => {
                Ok(n.dot(view) < CULL_BIAS)
            },
            Err(e) => Err(e),
        }
    }
}

/// The culling rule at its three landmarks: a face turned straight toward
/// the view direction (`dot == 1`) is kept, one turned straight away
/// (`dot == -1`) is culled, and one exactly at the bias is kept, since only a
/// component strictly below the bias culls.
pub proof fn lemma_backface_landmarks(t: TriView, view: Vec3View)
    requires
        normal_of(t) is Some,
    ensures
        dot3(normal_of(t)->Some_0, view) == ONE ==> !is_culled(t, view),
        dot3(normal_of(t)->Some_0, view) == -ONE ==> is_culled(t, view),
        dot3(normal_of(t)->Some_0, view) == CULL_BIAS ==> !is_culled(t, view),
{
}

/// Reversing a triangle's winding flips its unit normal exactly.
pub proof fn lemma_reversed_normal(t: TriView)
    ensures
        normal_of((t.2, t.1, t.0)) == match normal_of(t) {
            Some(n) => Some(crate::vec3::neg3(n)),
            None => None::<Vec3View>,
        },
{
    crate::vec3::lemma_cross_anticommutative(sub3(t.2, t.1), sub3(t.0, t.1));
    crate::vec3::lemma_cross_anticommutative(sub3(t.0, t.1), sub3(t.2, t.1));
    let v = cross3(sub3(t.0, t.1), sub3(t.2, t.1));
    assert(cross3(sub3(t.2, t.1), sub3(t.0, t.1)) == crate::vec3::neg3(v));
    crate::vec3::lemma_normalized_neg(v);
}

/// The vertices of every triangle are in range.
pub open spec fn tris_in_range(tris: Seq<Tri>) -> bool {
    forall|i: int| 0 <= i < tris.len() ==> #[trigger] tris[i].a.wf() && tris[i].b.wf() && tris[i].c.wf()
}

/// A rigid object: triangles in model space and the transform that places
/// them in the world.
#[derive(Clone, Debug)]
pub struct Geometry {
    pub tris: Vec<Tri>,
    pub transform: Transform,
}

impl Geometry {
    /// The transform is a 4x4 matrix in range and every vertex is in range.
    pub open spec fn wf(&self) -> bool {
        self.transform.wf() && tris_in_range(self.tris@)
    }

    /// An object with no triangles and the identity transform.
    pub fn new() -> (r: Geometry)
        ensures
            r.wf(),
            r.tris@.len() == 0,
            r.transform@ == crate::transform::identity_grid(),
    {
        Geometry { tris: Vec::new(), transform: Transform::new() }
    }

    /// Appends one triangle.
    pub fn add_tri(&mut self, tri: Tri)
        ensures
            final(self).tris@ == old(self).tris@.push(tri),
            final(self).transform == old(self).transform,
    {
        self.tris.push(tri);
    }

    /// Appends a batch of triangles, in order.
    pub fn add_tris(&mut self, tri: Vec<Tri>)
        ensures
            final(self).tris@ == old(self).tris@ + tri@,
            final(self).transform == old(self).transform,
    {
        let ghost start = self.tris@;
        let mut i: usize = 0;
        while i < tri.len()
            invariant
                i <= tri@.len(),
                self.tris@ == start + tri@.subrange(0, i as int),
                self.transform == old(self).transform,
                start == old(self).tris@,
            decreases tri@.len() - i,
        {
            self.tris.push(tri[i]);
            i = i + 1;
            assert(self.tris@ =~= start + tri@.subrange(0, i as int));
        }
        assert(tri@.subrange(0, i as int) =~= tri@);
    }

    /// The triangles carried into the world by the transform; the stored
    /// triangles are left as they are.
    pub fn apply_transform(&self) -> (r: Vec<Tri>)
        requires
            self.wf(),
        ensures
            r@.len() == self.tris@.len(),
            forall|i: int| 0 <= i < r@.len() ==> #[trigger] r@[i]@ == world_tri(self.transform@, self.tris@[i]@),
            forall|i: int| 0 <= i < r@.len() ==> in_wide3(#[trigger] r@[i].a@) && in_wide3(r@[i].b@)
                && in_wide3(r@[i].c@),
    {
        let mut out: Vec<Tri> = Vec::new();
        let mut i: usize = 0;
        while i < self.tris.len()
            invariant
                self.wf(),
                i <= self.tris@.len(),
                out@.len() == i,
                forall|k: int| 0 <= k < i ==> #[trigger] out@[k]@ == world_tri(self.transform@, self.tris@[k]@),
                forall|k: int| 0 <= k < i ==> in_wide3(#[trigger] out@[k].a@) && in_wide3(out@[k].b@)
                    && in_wide3(out@[k].c@),
            decreases self.tris@.len() - i,
        {
            let t = self.tris[i];
            assert(t.a.wf() && t.b.wf() && t.c.wf());
            let w = Tri {
                a: self.transform.apply_to_vector(&t.a),
                b: self.transform.apply_to_vector(&t.b),
                c: self.transform.apply_to_vector(&t.c),
            };
            out.push(w);
            i = i + 1;
        }
        out
    }
}

} // verus!
