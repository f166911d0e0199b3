//! Rays, the geometric primitives they are cast at, and the scene that holds
//! them.

use crate::fixed::Fixed;
use crate::math::{Angle, Mat3, Vec3};
use core::ops::Neg;
use vstd::prelude::*;

verus! {

/// A half-line: where it starts, and its direction, kept normalized.
#[derive(Clone, Copy, Debug)]
pub struct Ray {
    pub origin: Vec3,
    pub direction: Vec3,
}

impl Ray {
    /// The ray from `origin` along `direction`, which is normalized here and
    /// so must have a norm that is not zero.
    pub fn new(origin: Vec3, direction: Vec3) -> (r: Ray)
        requires
            direction.spec_normalizable(),
        ensures
            r.origin == origin,
            r.direction == direction.spec_normalize(),
    {
        Ray { origin, direction: direction.normalize() }
    }

    /// The ray that `new` builds.
    pub open spec fn spec_new(origin: Vec3, direction: Vec3) -> Ray
        recommends
            direction.spec_normalizable(),
    {
        Ray { origin, direction: direction.spec_normalize() }
    }

    /// The point at distance `t` along the ray.
    pub open spec fn spec_point_at(self, t: Fixed) -> Vec3 {
        self.origin.spec_add(self.direction.spec_scale(t))
    }
}

/// Where a ray meets a primitive: the point, its distance along the ray, and
/// the surface normal there.
#[derive(Clone, Copy, Debug)]
pub struct Intersection {
    pub point: Vec3,
    pub dist: Fixed,
    pub normal: Vec3,
}

/// Whether `i` is the index of the nearest of `s`: no element is nearer, and
/// every element before it is farther.
pub open spec fn spec_is_nearest_index(s: Seq<Intersection>, i: int) -> bool {
    &&& 0 <= i < s.len()
    &&& forall|j: int| 0 <= j < s.len() ==> s[i].dist.raw <= (#[trigger] s[j]).dist.raw
    &&& forall|j: int| 0 <= j < i ==> (#[trigger] s[j]).dist.raw > s[i].dist.raw
}

/// The index of the nearest of `s` (`s` not empty).
pub open spec fn spec_nearest_index(s: Seq<Intersection>) -> int
    recommends
        s.len() > 0,
{
    choose|i: int| spec_is_nearest_index(s, i)
}

/// The nearest of `s`: the first one of least distance; none when `s` is empty.
pub open spec fn spec_nearest(s: Seq<Intersection>) -> Option<Intersection> {
    if s.len() == 0 {
        None
    } else {
        Some(s[spec_nearest_index(s)])
    }
}

/// There is only one nearest index.
pub proof fn lemma_nearest_index_unique(s: Seq<Intersection>, i: int)
    requires
        spec_is_nearest_index(s, i),
    ensures
        spec_nearest_index(s) == i,
{
    let k = spec_nearest_index(s);
    assert(spec_is_nearest_index(s, k));
    if k < i {
        assert(s[k].dist.raw > s[i].dist.raw);
        assert(s[k].dist.raw <= s[i].dist.raw);
    } else if i < k {
        assert(s[i].dist.raw > s[k].dist.raw);
        assert(s[i].dist.raw <= s[k].dist.raw);
    }
}

/// Whether the intersections stand in the order of their distances, the
/// nearest first.
pub open spec fn spec_ascending(s: Seq<Intersection>) -> bool {
    forall|a: int, b: int| 0 <= a <= b < s.len() ==> s[a].dist.raw <= s[b].dist.raw
}

impl Intersection {
    /// The nearest of the given intersections: the first one of least
    /// distance; none when there is none to choose from. The intersections
    /// are left sorted by distance, the nearest in front, equal ones in the
    /// order in which they came.
    pub fn nearest(intersections: &mut [Intersection]) -> (r: Option<Intersection>)
        ensures
            r == spec_nearest(old(intersections)@),
            r is None <==> old(intersections)@.len() == 0,
            r is Some ==> exists|i: int|
                spec_is_nearest_index(old(intersections)@, i) && r == Some(
                    old(intersections)@[i],
                ),
            r is Some ==> r == Some(final(intersections)@[0]),
            spec_ascending(final(intersections)@),
            final(intersections)@.to_multiset() == old(intersections)@.to_multiset(),
    {
        let n = intersections.len();
        let ghost before = intersections@;
        if n == 0 {
            return None;
        }
        let ghost mut best: int = 0;
        let mut k: usize = 1;
        assert(before.take(1)[0] == before[0]);
        while k < n
            invariant
                1 <= k <= n,
                intersections@.len() == n,
                before.len() == n,
                spec_ascending(intersections@.take(k as int)),
                forall|i: int| k <= i < n ==> intersections@[i] == before[i],
                intersections@.to_multiset() == before.to_multiset(),
                spec_is_nearest_index(before.take(k as int), best),
                intersections@[0] == before[best],
            decreases n - k,
        {
            let ghost sorted = intersections@;
            assert(forall|a: int, b: int|
                0 <= a <= b < k ==> sorted.take(k as int)[a] == sorted[a] && sorted.take(
                    k as int,
                )[b] == sorted[b]);
            let mut j: usize = k;
            while j > 0 && intersections[j - 1].dist.raw > intersections[j].dist.raw
                invariant
                    j <= k < n,
                    intersections@.len() == n,
                    before.len() == n,
                    intersections@[j as int] == before[k as int],
                    forall|a: int, b: int|
                        0 <= a <= b <= k && a != j && b != j ==> intersections@[a].dist.raw
                            <= intersections@[b].dist.raw,
                    forall|i: int|
                        j < i <= k ==> intersections@[j as int].dist.raw
                            < intersections@[i].dist.raw,
                    forall|i: int| k < i < n ==> intersections@[i] == before[i],
                    intersections@.to_multiset() == before.to_multiset(),
                    0 <= best < k,
                    j > 0 ==> intersections@[0] == before[best],
                    j == 0 ==> before[k as int].dist.raw < before[best].dist.raw,
                decreases j,
            {
                let ghost shifting = intersections@;
                let key = intersections[j];
                let above = intersections[j - 1];
                intersections[j] = above;
                intersections[j - 1] = key;
                proof {
                    vstd::seq_lib::to_multiset_update(shifting, j as int, above);
                    vstd::seq_lib::to_multiset_update(
                        shifting.update(j as int, above),
                        j - 1,
                        key,
                    );
                    assert(shifting.to_multiset().count(key) > 0) by {
                        vstd::seq_lib::to_multiset_contains(shifting, key);
                        assert(shifting[j as int] == key);
                    }
                    assert(intersections@.to_multiset() =~= shifting.to_multiset());
                }
                j -= 1;
            }
            proof {
                let after = intersections@;
                let key = before[k as int];
                let front = after.take(k + 1);
                assert forall|a: int, b: int| 0 <= a <= b < front.len() implies front[a].dist.raw
                    <= front[b].dist.raw by {
                    assert(front[a] == after[a]);
                    assert(front[b] == after[b]);
                    if a == j && b == j {
                    } else if a == j {
                    } else if b == j {
                        assert(after[a].dist.raw <= after[j - 1].dist.raw);
                    }
                }
                let wider = before.take(k + 1);
                let narrow = before.take(k as int);
                assert(forall|i: int| 0 <= i < k ==> wider[i] == narrow[i]);
                assert(wider[k as int] == key);
                if j == 0 {
                    assert(forall|i: int| 0 <= i < k ==> narrow[best].dist.raw <= (
                    #[trigger] narrow[i]).dist.raw);
                    assert(spec_is_nearest_index(wider, k as int)) by {
                        assert forall|i: int| 0 <= i < wider.len() implies wider[k as int].dist.raw
                            <= (#[trigger] wider[i]).dist.raw by {
                            if i < k {
                                assert(narrow[best].dist.raw <= narrow[i].dist.raw);
                            }
                        }
                        assert forall|i: int| 0 <= i < k implies (#[trigger] wider[i]).dist.raw
                            > wider[k as int].dist.raw by {
                            assert(narrow[best].dist.raw <= narrow[i].dist.raw);
                        }
                    }
                    best = k as int;
                } else {
                    assert(after[0].dist.raw <= after[j - 1].dist.raw);
                    assert(spec_is_nearest_index(wider, best)) by {
                        assert forall|i: int| 0 <= i < wider.len() implies wider[best].dist.raw <= (
                        #[trigger] wider[i]).dist.raw by {
                            if i < k {
                                assert(narrow[best].dist.raw <= narrow[i].dist.raw);
                            }
                        }
                        assert forall|i: int| 0 <= i < best implies (#[trigger] wider[i]).dist.raw
                            > wider[best].dist.raw by {
                            assert(narrow[i].dist.raw > narrow[best].dist.raw);
                        }
                    }
                }
            }
            k += 1;
        }
        proof {
            assert(before.take(n as int) =~= before);
            assert(intersections@.take(n as int) =~= intersections@);
            lemma_nearest_index_unique(before, best);
        }
        Some(intersections[0])
    }
}

/// What every primitive can do: move, turn about its own center, and be hit by
/// a ray. What each of these means is stated with the primitive.
pub trait Shape: Sized {
    /// The shape moved by `d`.
    spec fn moved(self, d: Vec3) -> Self;

    /// The shape turned about the x, then the y, then the z axis.
    spec fn turned(self, x: Angle, y: Angle, z: Angle) -> Self;

    /// Where `ray` meets the shape, if it does.
    spec fn met_by(self, ray: Ray) -> Option<Intersection>;

    /// Moves the shape by `d_pos`.
    fn translate(&mut self, d_pos: &Vec3)
        ensures
            *final(self) == old(self).moved(*d_pos),
    ;

    /// Turns the shape about its own center: about the x axis, then the y
    /// axis, then the z axis.
    fn rotate(&mut self, theta_x: Angle, theta_y: Angle, theta_z: Angle)
        ensures
            *final(self) == old(self).turned(theta_x, theta_y, theta_z),
    ;

    /// Where `ray` meets the shape, if it does.
    fn intersect(&self, ray: &Ray) -> (r: Option<Intersection>)
        ensures
            r == self.met_by(*ray),
    ;
}

/// `v` turned by `mat` about `center`: `mat * (v - center) + center`.
pub open spec fn spec_turn(mat: Mat3, v: Vec3, center: Vec3) -> Vec3 {
    mat.spec_apply(v.spec_sub(center)).spec_add(center)
}

/// `v` turned by `mat` about `center`.
fn turn(mat: Mat3, v: Vec3, center: Vec3) -> (r: Vec3)
    ensures
        r == spec_turn(mat, v, center),
{
    mat * (v - center) + center
}

/// A finite parallelogram: its center and the two vectors that span it.
#[derive(Clone, Copy, Debug)]
pub struct Diamond {
    pub center: Vec3,
    pub width: Vec3,
    pub height: Vec3,
}

impl Default for Diamond {
    /// The unit square in the plane `z = 0`, centered at the origin.
    fn default() -> (d: Diamond)
        ensures
            d.center == (Vec3 {
                x: Fixed::spec_from_int(0),
                y: Fixed::spec_from_int(0),
                z: Fixed::spec_from_int(0),
            }),
            d.width == (Vec3 {
                x: Fixed::spec_from_int(1),
                y: Fixed::spec_from_int(0),
                z: Fixed::spec_from_int(0),
            }),
            d.height == (Vec3 {
                x: Fixed::spec_from_int(0),
                y: Fixed::spec_from_int(1),
                z: Fixed::spec_from_int(0),
            }),
    {
        Diamond {
            center: Vec3::new(Fixed::from_int(0), Fixed::from_int(0), Fixed::from_int(0)),
            width: Vec3::new(Fixed::from_int(1), Fixed::from_int(0), Fixed::from_int(0)),
            height: Vec3::new(Fixed::from_int(0), Fixed::from_int(1), Fixed::from_int(0)),
        }
    }
}

impl Diamond {
    /// The diamond with the given center, spanned by `width` and `height`.
    pub fn new(center: Vec3, width: Vec3, height: Vec3) -> (d: Diamond)
        ensures
            d == (Diamond { center, width, height }),
    {
        Diamond { center, width, height }
    }

    /// The coordinates `(w, h, -t)` of the point where the line of `ray`
    /// crosses the plane of the diamond: the solution of
    /// `origin + t * direction = center + w * width + h * height`. None when
    /// the matrix of the three vectors has no inverse.
    pub open spec fn spec_solve(self, ray: Ray) -> Option<Vec3> {
        match Mat3::spec_from_cols(self.width, self.height, ray.direction).spec_invert() {
            Some(inv) => Some(inv.spec_apply(ray.origin.spec_sub(self.center))),
            None => None,
        }
    }

    /// Whether the solution `(w, h, -t)` lies on the diamond and ahead of the
    /// ray: `w` and `h` within one half of zero, `t` not negative.
    pub open spec fn spec_within(p: Vec3) -> bool {
        &&& -Fixed::spec_half().raw <= p.x.raw <= Fixed::spec_half().raw
        &&& -Fixed::spec_half().raw <= p.y.raw <= Fixed::spec_half().raw
        &&& p.z.spec_neg().raw >= 0
    }

    /// Of the two normals of the diamond, the one whose dot product with
    /// `direction` is positive, else the other. The two are the directions of
    /// `width x height` and of `height x width`: unit vectors, but for a
    /// diamond so flat that its cross product is the zero vector, which has
    /// no direction and is then the normal as it is.
    pub open spec fn spec_normal(self, direction: Vec3) -> Vec3 {
        let forward = self.width.spec_cross_forward(self.height).spec_direction();
        let backward = self.width.spec_cross_backward(self.height).spec_direction();
        if forward.spec_dot(direction).raw > 0 {
            forward
        } else {
            backward
        }
    }

    /// Whether `ray` hits the diamond: the three vectors have an inverse and
    /// the solution lies within the diamond and ahead of the ray.
    pub open spec fn spec_hits(self, ray: Ray) -> bool {
        self.spec_solve(ray) is Some && Diamond::spec_within(self.spec_solve(ray)->0)
    }

    /// A hit exists exactly when the three vectors have an inverse and the
    /// solution lies within the diamond and ahead of the ray.
    pub open spec fn spec_intersect(self, ray: Ray) -> Option<Intersection> {
        match self.spec_solve(ray) {
            Some(p) => if Diamond::spec_within(p) {
                Some(
                    Intersection {
                        point: ray.spec_point_at(p.z.spec_neg()),
                        dist: p.z.spec_neg(),
                        normal: self.spec_normal(ray.direction),
                    },
                )
            } else {
                None
            },
            None => None,
        }
    }

    /// The diamond moved by `d`.
    pub open spec fn spec_translate(self, d: Vec3) -> Diamond {
        Diamond { center: self.center.spec_add(d), width: self.width, height: self.height }
    }

    /// The diamond with its spanning vectors turned about its center.
    pub open spec fn spec_rotate(self, x: Angle, y: Angle, z: Angle) -> Diamond {
        let mat = Mat3::spec_rot_x_y_z(x, y, z);
        Diamond {
            center: self.center,
            width: spec_turn(mat, self.width, self.center),
            height: spec_turn(mat, self.height, self.center),
        }
    }
}

impl Shape for Diamond {
    open spec fn moved(self, d: Vec3) -> Diamond {
        self.spec_translate(d)
    }

    open spec fn turned(self, x: Angle, y: Angle, z: Angle) -> Diamond {
        self.spec_rotate(x, y, z)
    }

    open spec fn met_by(self, ray: Ray) -> Option<Intersection> {
        self.spec_intersect(ray)
    }

    fn translate(&mut self, d_pos: &Vec3)
        ensures
            *final(self) == old(self).spec_translate(*d_pos),
    {
        self.center = self.center + *d_pos;
    }

    fn rotate(&mut self, theta_x: Angle, theta_y: Angle, theta_z: Angle)
        ensures
            *final(self) == old(self).spec_rotate(theta_x, theta_y, theta_z),
    {
        let mat = Mat3::rot_x_y_z(theta_x, theta_y, theta_z);
        self.width = turn(mat, self.width, self.center);
        self.height = turn(mat, self.height, self.center);
    }

    /// Where `ray` meets the diamond: a hit exactly when the matrix of
    /// width, height and direction has an inverse and the solution
    /// `(w, h, t)` has `w` and `h` within one half of zero and `t` not
    /// negative. The normal is a normalized cross product of width and
    /// height whenever their exact cross product reaches 2^-31 in one
    /// coordinate; below that it may be the zero vector.
    fn intersect(&self, ray: &Ray) -> (r: Option<Intersection>)
        ensures
            r == self.spec_intersect(*ray),
            r is Some <==> self.spec_hits(*ray),
            r is Some ==> r->0.dist.raw >= 0,
    {
        let delta_o = ray.origin - self.center;
        let mat = Mat3::from_cols(&self.width, &self.height, &ray.direction);
        if let Some(inv) = mat.invert() {
            let p = inv * delta_o;
            let t = p.z.neg();
            let half = Fixed::half();
            if p.x.raw >= -half.raw && p.x.raw <= half.raw && p.y.raw >= -half.raw && p.y.raw
                <= half.raw && t.raw >= 0 {
                let candidates = self.width.cross_unnormalized(&self.height);
                let forward = candidates[0].direction();
                let normal = if forward.dot(&ray.direction).raw > 0 {
                    forward
                } else {
                    candidates[1].direction()
                };
                Some(Intersection { point: ray.origin + t * ray.direction, dist: t, normal })
            } else {
                None
            }
        } else {
            None
        }
    }
}

/// A box: its center and the three vectors that span it. Its six faces are
/// diamonds, made anew for every ray.
#[derive(Clone, Copy, Debug)]
pub struct Quad {
    pub center: Vec3,
    pub width: Vec3,
    pub height: Vec3,
    pub depth: Vec3,
}

/// `v` divided by two.
pub open spec fn spec_halve(v: Vec3) -> Vec3 {
    v.spec_div(Fixed::spec_from_int(2))
}

/// `v` divided by two.
pub fn halve(v: Vec3) -> (r: Vec3)
    ensures
        r == spec_halve(v),
{
    v / Fixed::from_int(2)
}

impl Quad {
    /// The box with the given center, spanned by the three vectors.
    pub fn new(center: Vec3, width: Vec3, height: Vec3, depth: Vec3) -> (q: Quad)
        ensures
            q == (Quad { center, width, height, depth }),
    {
        Quad { center, width, height, depth }
    }

    /// The cube of the given side along the axes, centered at `center`.
    pub open spec fn spec_iso(center: Vec3, side: Fixed) -> Quad {
        let o = Fixed::spec_from_int(0);
        Quad {
            center,
            width: Vec3 { x: side, y: o, z: o },
            height: Vec3 { x: o, y: side, z: o },
            depth: Vec3 { x: o, y: o, z: side },
        }
    }

    /// The cube of the given side along the axes, centered at `center`: its
    /// faces lie half a side from `center` on each axis.
    pub fn iso(center: Vec3, side: Fixed) -> (q: Quad)
        ensures
            q == Quad::spec_iso(center, side),
            q.center == center,
    {
        let o = Fixed::from_int(0);
        Quad {
            center,
            width: Vec3::new(side, o, o),
            height: Vec3::new(o, side, o),
            depth: Vec3::new(o, o, side),
        }
    }

    /// Face `k` of the six: the two across the width, the two across the
    /// height, the two across the depth, each pair at minus and plus half the
    /// vector, spanned by the other two vectors.
    pub open spec fn spec_face(self, k: int) -> Diamond {
        if k == 0 {
            Diamond {
                center: self.center.spec_sub(spec_halve(self.width)),
                width: self.height,
                height: self.depth,
            }
        } else if k == 1 {
            Diamond {
                center: self.center.spec_add(spec_halve(self.width)),
                width: self.height,
                height: self.depth,
            }
        } else if k == 2 {
            Diamond {
                center: self.center.spec_sub(spec_halve(self.height)),
                width: self.width,
                height: self.depth,
            }
        } else if k == 3 {
            Diamond {
                center: self.center.spec_add(spec_halve(self.height)),
                width: self.width,
                height: self.depth,
            }
        } else if k == 4 {
            Diamond {
                center: self.center.spec_sub(spec_halve(self.depth)),
                width: self.width,
                height: self.height,
            }
        } else {
            Diamond {
                center: self.center.spec_add(spec_halve(self.depth)),
                width: self.width,
                height: self.height,
            }
        }
    }

    /// The hits of `ray` on the first `k` of the six faces, in the order of
    /// the faces.
    pub open spec fn spec_face_hits(self, ray: Ray, k: nat) -> Seq<Intersection>
        decreases k,
    {
        if k == 0 {
            Seq::empty()
        } else {
            match self.spec_face(k - 1).spec_intersect(ray) {
                Some(hit) => self.spec_face_hits(ray, (k - 1) as nat).push(hit),
                None => self.spec_face_hits(ray, (k - 1) as nat),
            }
        }
    }

    /// Face `k` of the six.
    pub fn face(&self, k: usize) -> (d: Diamond)
        requires
            k < 6,
        ensures
            d == self.spec_face(k as int),
    {
        if k == 0 {
            Diamond::new(self.center - halve(self.width), self.height, self.depth)
        } else if k == 1 {
            Diamond::new(self.center + halve(self.width), self.height, self.depth)
        } else if k == 2 {
            Diamond::new(self.center - halve(self.height), self.width, self.depth)
        } else if k == 3 {
            Diamond::new(self.center + halve(self.height), self.width, self.depth)
        } else if k == 4 {
            Diamond::new(self.center - halve(self.depth), self.width, self.height)
        } else {
            Diamond::new(self.center + halve(self.depth), self.width, self.height)
        }
    }
}

impl Quad {
    pub open spec fn spec_translate(self, d: Vec3) -> Quad {
        Quad {
            center: self.center.spec_add(d),
            width: self.width,
            height: self.height,
            depth: self.depth,
        }
    }

    pub open spec fn spec_rotate(self, x: Angle, y: Angle, z: Angle) -> Quad {
        let mat = Mat3::spec_rot_x_y_z(x, y, z);
        Quad {
            center: self.center,
            width: spec_turn(mat, self.width, self.center),
            height: spec_turn(mat, self.height, self.center),
            depth: spec_turn(mat, self.depth, self.center),
        }
    }

    /// The nearest of the hits on the six faces.
    pub open spec fn spec_intersect(self, ray: Ray) -> Option<Intersection> {
        spec_nearest(self.spec_face_hits(ray, 6))
    }
}

impl Shape for Quad {
    open spec fn moved(self, d: Vec3) -> Quad {
        self.spec_translate(d)
    }

    open spec fn turned(self, x: Angle, y: Angle, z: Angle) -> Quad {
        self.spec_rotate(x, y, z)
    }

    open spec fn met_by(self, ray: Ray) -> Option<Intersection> {
        self.spec_intersect(ray)
    }

    fn translate(&mut self, d_pos: &Vec3)
        ensures
            *final(self) == old(self).spec_translate(*d_pos),
    {
        self.center = self.center + *d_pos;
    }

    fn rotate(&mut self, theta_x: Angle, theta_y: Angle, theta_z: Angle)
        ensures
            *final(self) == old(self).spec_rotate(theta_x, theta_y, theta_z),
    {
        let mat = Mat3::rot_x_y_z(theta_x, theta_y, theta_z);
        self.width = turn(mat, self.width, self.center);
        self.height = turn(mat, self.height, self.center);
        self.depth = turn(mat, self.depth, self.center);
    }

    fn intersect(&self, ray: &Ray) -> (r: Option<Intersection>)
        ensures
            r == self.spec_intersect(*ray),
            r is Some ==> r->0.dist.raw >= 0,
    {
        let mut intersections: Vec<Intersection> = Vec::new();
        let mut k: usize = 0;
        while k < 6
            invariant
                k <= 6,
                intersections@ == self.spec_face_hits(*ray, k as nat),
                forall|j: int|
                    0 <= j < intersections@.len() ==> (#[trigger] intersections@[j]).dist.raw >= 0,
            decreases 6 - k,
        {
            if let Some(hit) = self.face(k).intersect(ray) {
                intersections.push(hit);
            }
            k += 1;
        }
        Intersection::nearest(intersections.as_mut_slice())
    }
}

/// A sphere: its center and its radius.
#[derive(Clone, Copy, Debug)]
pub struct Sphere {
    pub center: Vec3,
    pub radius: Fixed,
}

impl Sphere {
    /// The sphere with the given center and radius.
    pub fn new(center: Vec3, radius: Fixed) -> (s: Sphere)
        ensures
            s == (Sphere { center, radius }),
    {
        Sphere { center, radius }
    }

    /// The hit at distance `t` along `ray`: its point, and as its normal the
    /// direction from the center through that point. Where the point is the
    /// center itself there is no such direction, and the normal is the zero
    /// vector.
    pub open spec fn spec_hit_at(self, ray: Ray, t: Fixed) -> Intersection {
        let point = ray.spec_point_at(t);
        Intersection { point, dist: t, normal: point.spec_sub(self.center).spec_direction() }
    }

    /// The coefficient `a` of the quadratic: the squared norm of the direction.
    pub open spec fn spec_a(ray: Ray) -> Fixed {
        ray.direction.spec_norm2()
    }

    /// The coefficient `b`: twice the dot product of `origin - center` with
    /// the direction.
    pub open spec fn spec_b(self, ray: Ray) -> Fixed {
        Fixed::spec_from_int(2).spec_mul(ray.origin.spec_sub(self.center).spec_dot(ray.direction))
    }

    /// The coefficient `c`: the squared norm of `origin - center`, less the
    /// squared radius.
    pub open spec fn spec_c(self, ray: Ray) -> Fixed {
        ray.origin.spec_sub(self.center).spec_norm2().spec_sub(self.radius.spec_mul(self.radius))
    }

    /// The discriminant `b * b - 4 * a * c`.
    pub open spec fn spec_discriminant(self, ray: Ray) -> Fixed {
        self.spec_b(ray).spec_mul(self.spec_b(ray)).spec_sub(
            Fixed::spec_from_int(4).spec_mul(Sphere::spec_a(ray)).spec_mul(self.spec_c(ray)),
        )
    }

    /// The smaller of the two roots `(-b - s) / 2a` and `(-b + s) / 2a`, with
    /// `s` the square root of the discriminant.
    pub open spec fn spec_smaller_root(self, ray: Ray) -> Fixed {
        let two_a = Fixed::spec_from_int(2).spec_mul(Sphere::spec_a(ray));
        let s = self.spec_discriminant(ray).spec_sqrt();
        let low = self.spec_b(ray).spec_neg().spec_sub(s).spec_div(two_a);
        let high = self.spec_b(ray).spec_neg().spec_add(s).spec_div(two_a);
        if low.raw < high.raw {
            low
        } else {
            high
        }
    }

    /// The one root `-b / 2a` of a tangent ray.
    pub open spec fn spec_tangent_root(self, ray: Ray) -> Fixed {
        self.spec_b(ray).spec_neg().spec_div(Fixed::spec_from_int(2).spec_mul(Sphere::spec_a(ray)))
    }
}

impl Sphere {
    pub open spec fn spec_translate(self, d: Vec3) -> Sphere {
        Sphere { center: self.center.spec_add(d), radius: self.radius }
    }

    /// A sphere looks the same from every side.
    pub open spec fn spec_rotate(self, x: Angle, y: Angle, z: Angle) -> Sphere {
        self
    }

    /// Whether `ray` hits the sphere: the discriminant is not negative, and
    /// the ray has a direction (`2a` is not zero).
    pub open spec fn spec_hits(self, ray: Ray) -> bool {
        self.spec_discriminant(ray).raw >= 0 && Fixed::spec_from_int(2).spec_mul(
            Sphere::spec_a(ray),
        ).raw != 0
    }

    /// No hit when the discriminant is negative or the ray has no direction
    /// (`2a` is zero); else the hit at the smaller root, or at the one root
    /// of a tangent ray. The root may be negative.
    pub open spec fn spec_intersect(self, ray: Ray) -> Option<Intersection> {
        if !self.spec_hits(ray) {
            None
        } else if self.spec_discriminant(ray).raw > 0 {
            Some(self.spec_hit_at(ray, self.spec_smaller_root(ray)))
        } else {
            Some(self.spec_hit_at(ray, self.spec_tangent_root(ray)))
        }
    }
}

impl Shape for Sphere {
    open spec fn moved(self, d: Vec3) -> Sphere {
        self.spec_translate(d)
    }

    open spec fn turned(self, x: Angle, y: Angle, z: Angle) -> Sphere {
        self.spec_rotate(x, y, z)
    }

    open spec fn met_by(self, ray: Ray) -> Option<Intersection> {
        self.spec_intersect(ray)
    }

    fn translate(&mut self, d_pos: &Vec3)
        ensures
            *final(self) == old(self).spec_translate(*d_pos),
    {
        self.center = self.center + *d_pos;
    }

    fn rotate(&mut self, _theta_x: Angle, _theta_y: Angle, _theta_z: Angle)
        ensures
            *final(self) == old(self).spec_rotate(_theta_x, _theta_y, _theta_z),
    {
    }

    /// Where `ray` meets the sphere: a hit exactly when the discriminant is
    /// not negative, for a ray that has a direction; at the smaller root,
    /// which may be negative. The normal is a unit vector within 1/100000
    /// whenever the hit point lies 2^-15 or more from the center; at the
    /// center itself it is the zero vector.
    fn intersect(&self, ray: &Ray) -> (r: Option<Intersection>)
        ensures
            r == self.spec_intersect(*ray),
            r is Some <==> self.spec_hits(*ray),
            r is Some ==> r->0.point == ray.spec_point_at(r->0.dist) && r->0.normal
                == r->0.point.spec_sub(self.center).spec_direction(),
    {
        let delta_o = ray.origin - self.center;
        let v = ray.direction;
        let a = v.norm2();
        let b = Fixed::from_int(2) * delta_o.dot(&v);
        let c = delta_o.norm2() - self.radius * self.radius;
        let delta = b * b - Fixed::from_int(4) * a * c;
        let two_a = Fixed::from_int(2) * a;
        if delta.raw < 0 || two_a.raw == 0 {
            return None;
        }
        let t = if delta.raw > 0 {
            let s = delta.sqrt();
            let low = (b.neg() - s) / two_a;
            let high = (b.neg() + s) / two_a;
            if low.raw < high.raw {
                low
            } else {
                high
            }
        } else {
            b.neg() / two_a
        };
        let point = ray.origin + t * ray.direction;
        Some(Intersection { point, dist: t, normal: (point - self.center).direction() })
    }
}

/// Any of the primitives.
#[derive(Clone, Copy, Debug)]
pub enum BasicShape {
    Sphere(Sphere),
    Diamond(Diamond),
    Quad(Quad),
}

impl BasicShape {
    /// Where `ray` meets the shape, as the primitive inside defines it.
    pub open spec fn spec_intersect(self, ray: Ray) -> Option<Intersection> {
        match self {
            BasicShape::Sphere(sphere) => sphere.spec_intersect(ray),
            BasicShape::Diamond(diamond) => diamond.spec_intersect(ray),
            BasicShape::Quad(quad) => quad.spec_intersect(ray),
        }
    }

    /// The shape turned about its own center.
    pub open spec fn spec_rotate(self, x: Angle, y: Angle, z: Angle) -> BasicShape {
        match self {
            BasicShape::Sphere(sphere) => BasicShape::Sphere(sphere.spec_rotate(x, y, z)),
            BasicShape::Diamond(diamond) => BasicShape::Diamond(diamond.spec_rotate(x, y, z)),
            BasicShape::Quad(quad) => BasicShape::Quad(quad.spec_rotate(x, y, z)),
        }
    }

    /// Where `ray` meets the shape, if it does.
    pub fn intersect(&self, ray: &Ray) -> (r: Option<Intersection>)
        ensures
            r == self.spec_intersect(*ray),
    {
        match self {
            BasicShape::Sphere(sphere) => sphere.intersect(ray),
            BasicShape::Diamond(diamond) => diamond.intersect(ray),
            BasicShape::Quad(quad) => quad.intersect(ray),
        }
    }

    /// Turns the shape about its own center: about the x axis, then the y
    /// axis, then the z axis.
    pub fn rotate(&mut self, theta_x: Angle, theta_y: Angle, theta_z: Angle)
        ensures
            *final(self) == old(self).spec_rotate(theta_x, theta_y, theta_z),
    {
        match self {
            BasicShape::Sphere(sphere) => sphere.rotate(theta_x, theta_y, theta_z),
            BasicShape::Diamond(diamond) => diamond.rotate(theta_x, theta_y, theta_z),
            BasicShape::Quad(quad) => quad.rotate(theta_x, theta_y, theta_z),
        }
    }
}

/// A color: red, green and blue in `rgb.x`, `rgb.y` and `rgb.z`, each meant
/// to lie between zero and one.
#[derive(Clone, Copy, Debug)]
pub struct Color {
    pub rgb: Vec3,
}

impl Color {
    /// The color with every channel divided by `factor` (`factor` nonzero).
    pub open spec fn spec_dim(self, factor: Fixed) -> Color
        recommends
            factor.raw != 0,
    {
        Color { rgb: self.rgb.spec_div(factor) }
    }

    /// The color with the given red, green and blue.
    pub fn new(r: Fixed, g: Fixed, b: Fixed) -> (c: Color)
        ensures
            c.rgb == (Vec3 { x: r, y: g, z: b }),
    {
        Color { rgb: Vec3::new(r, g, b) }
    }

    /// The color attenuated by `factor`: every channel divided by it. A
    /// factor above one dims, a factor below one brightens; zero is not a
    /// factor.
    pub fn dim(&self, factor: Fixed) -> (c: Color)
        requires
            factor.raw != 0,
        ensures
            c == self.spec_dim(factor),
    {
        Color { rgb: self.rgb / factor }
    }
}

/// A light source: where it is, how large it is, and its color.
#[derive(Clone, Copy, Debug)]
pub struct Light {
    pub position: Vec3,
    pub radius: Fixed,
    pub color: Color,
}

impl Light {
    /// The light at `position`, of the given size and color.
    pub fn new(position: Vec3, radius: Fixed, color: Color) -> (l: Light)
        ensures
            l == (Light { position, radius, color }),
    {
        Light { position, radius, color }
    }

    /// Where the light is.
    pub fn origin(&self) -> (p: Vec3)
        ensures
            p == self.position,
    {
        self.position
    }
}

/// The eye and the screen through which it looks.
#[derive(Clone, Copy, Debug)]
pub struct Camera {
    pub position: Vec3,
    pub screen: Diamond,
}

impl Camera {
    /// The camera moved by `d`: the eye and the screen move together.
    pub open spec fn spec_translate(self, d: Vec3) -> Camera {
        Camera { position: self.position.spec_add(d), screen: self.screen.spec_translate(d) }
    }

    /// The camera turned about its eye: the center of the screen turns about
    /// the eye, the vectors that span the screen turn with it.
    pub open spec fn spec_rotate(self, x: Angle, y: Angle, z: Angle) -> Camera {
        let mat = Mat3::spec_rot_x_y_z(x, y, z);
        Camera {
            position: self.position,
            screen: Diamond {
                center: spec_turn(mat, self.screen.center, self.position),
                width: mat.spec_apply(self.screen.width),
                height: mat.spec_apply(self.screen.height),
            },
        }
    }

    /// The camera with its eye at `position`, looking through `screen`.
    pub fn new(position: Vec3, screen: Diamond) -> (c: Camera)
        ensures
            c == (Camera { position, screen }),
    {
        Camera { position, screen }
    }

    /// Moves the eye and the screen by `(dx, dy, dz)`.
    pub fn translate(&mut self, dx: Fixed, dy: Fixed, dz: Fixed)
        ensures
            *final(self) == old(self).spec_translate(Vec3 { x: dx, y: dy, z: dz }),
    {
        let d = Vec3::new(dx, dy, dz);
        self.position = self.position + d;
        self.screen.translate(&d);
    }

    /// Turns the screen about the eye: about the x axis, then the y axis,
    /// then the z axis.
    pub fn rotate(&mut self, theta_x: Angle, theta_y: Angle, theta_z: Angle)
        ensures
            *final(self) == old(self).spec_rotate(theta_x, theta_y, theta_z),
    {
        let mat = Mat3::rot_x_y_z(theta_x, theta_y, theta_z);
        self.screen = Diamond {
            center: turn(mat, self.screen.center, self.position),
            width: mat * self.screen.width,
            height: mat * self.screen.height,
        };
    }
}

/// All there is to render: one camera, the lights and the shapes.
pub struct Scene {
    pub camera: Camera,
    pub lights: Vec<Light>,
    pub shapes: Vec<BasicShape>,
}

impl Scene {
    /// The hits of `ray` on the first `k` shapes, in the order of the shapes.
    pub open spec fn spec_hits(shapes: Seq<BasicShape>, ray: Ray, k: nat) -> Seq<Intersection>
        recommends
            k <= shapes.len(),
        decreases k,
    {
        if k == 0 {
            Seq::empty()
        } else {
            match shapes[k - 1].spec_intersect(ray) {
                Some(hit) => Scene::spec_hits(shapes, ray, (k - 1) as nat).push(hit),
                None => Scene::spec_hits(shapes, ray, (k - 1) as nat),
            }
        }
    }

    /// What `ray` sees: the nearest of its hits on all the shapes.
    pub open spec fn spec_trace(self, ray: Ray) -> Option<Intersection> {
        spec_nearest(Scene::spec_hits(self.shapes@, ray, self.shapes@.len()))
    }

    /// A scene with the given camera, no light and no shape.
    pub fn new(camera: Camera) -> (s: Scene)
        ensures
            s.camera == camera,
            s.lights@.len() == 0,
            s.shapes@.len() == 0,
    {
        Scene { camera, lights: Vec::new(), shapes: Vec::new() }
    }

    /// Adds a shape behind those that are there.
    pub fn add(&mut self, object: BasicShape) -> (r: &mut Self)
        ensures
            r.shapes@ == old(self).shapes@.push(object),
            r.lights@ == old(self).lights@,
            r.camera == old(self).camera,
            *final(self) == *final(r),
    {
        self.shapes.push(object);
        self
    }

    /// Adds a light behind those that are there.
    pub fn add_light(&mut self, light: Light) -> (r: &mut Self)
        ensures
            r.lights@ == old(self).lights@.push(light),
            r.shapes@ == old(self).shapes@,
            r.camera == old(self).camera,
            *final(self) == *final(r),
    {
        self.lights.push(light);
        self
    }

    /// Moves the camera by `(dx, dy, dz)`.
    pub fn translate_camera(&mut self, dx: Fixed, dy: Fixed, dz: Fixed)
        ensures
            final(self).camera == old(self).camera.spec_translate(Vec3 { x: dx, y: dy, z: dz }),
            final(self).lights@ == old(self).lights@,
            final(self).shapes@ == old(self).shapes@,
    {
        self.camera.translate(dx, dy, dz);
    }

    /// Turns the camera about its eye.
    pub fn rotate_camera(&mut self, theta_x: Angle, theta_y: Angle, theta_z: Angle)
        ensures
            final(self).camera == old(self).camera.spec_rotate(theta_x, theta_y, theta_z),
            final(self).lights@ == old(self).lights@,
            final(self).shapes@ == old(self).shapes@,
    {
        self.camera.rotate(theta_x, theta_y, theta_z);
    }

    /// Turns the shape at `index` about its own center; an index past the
    /// last shape changes nothing.
    pub fn rotate_shape(&mut self, index: usize, theta_x: Angle, theta_y: Angle, theta_z: Angle)
        ensures
            final(self).camera == old(self).camera,
            final(self).lights@ == old(self).lights@,
            index < old(self).shapes@.len() ==> final(self).shapes@ == old(self).shapes@.update(
                index as int,
                old(self).shapes@[index as int].spec_rotate(theta_x, theta_y, theta_z),
            ),
            index >= old(self).shapes@.len() ==> final(self).shapes@ == old(self).shapes@,
    {
        if index < self.shapes.len() {
            let mut shape = self.shapes[index];
            shape.rotate(theta_x, theta_y, theta_z);
            self.shapes[index] = shape;
        }
    }

    /// What `ray` sees: the nearest of its hits on all the shapes, none when
    /// it hits nothing.
    pub fn trace(&self, ray: &Ray) -> (r: Option<Intersection>)
        ensures
            r == self.spec_trace(*ray),
            r is None <==> forall|j: int|
                0 <= j < self.shapes@.len() ==> (#[trigger] self.shapes@[j]).spec_intersect(*ray)
                    is None,
    {
        let mut intersections: Vec<Intersection> = Vec::new();
        let mut k: usize = 0;
        while k < self.shapes.len()
            invariant
                k <= self.shapes@.len(),
                intersections@ == Scene::spec_hits(self.shapes@, *ray, k as nat),
                intersections@.len() == 0 <==> forall|j: int|
                    0 <= j < k ==> (#[trigger] self.shapes@[j]).spec_intersect(*ray) is None,
            decreases self.shapes@.len() - k,
        {
            if let Some(hit) = self.shapes[k].intersect(ray) {
                intersections.push(hit);
            }
            k += 1;
        }
        Intersection::nearest(intersections.as_mut_slice())
    }
}

} // verus!
