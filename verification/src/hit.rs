//! Hits: the record of one, and the search for the nearest in a scene.
use crate::interval::Interval;
use crate::material::Material;
use crate::scalar::Scalar;
use crate::shape::{Roots, Sphere};
use crate::vec3::{Point3, Vec3};
use vstd::prelude::*;

verus! {

/// Where a ray met a surface.
#[derive(Clone, Copy, Debug, PartialEq, Eq, Structural)]
pub struct HitRecord {
    /// The surface's normal at the point, of length one, turned against the ray.
    pub normal: Vec3,
    pub point: Point3,
    /// The ray's parameter at the point.
    pub t: Scalar,
    /// Whether the ray came from outside the surface.
    pub front_facing: bool,
    pub material: Material,
}

/// The nearest hit of a scene: which sphere, by its place among the scene's spheres in
/// search order, and the ray's parameter there.
#[derive(Clone, Copy, Debug, PartialEq, Eq, Structural)]
pub struct Hit {
    pub index: usize,
    pub t: Scalar,
}

/// Something a ray can hit: a sphere, or a list of such things.
pub enum Hittable {
    Sphere(Sphere),
    List(HitList),
}

/// The surfaces of a scene, in the order in which they were added.
pub struct HitList {
    pub shapes: Vec<Hittable>,
}

impl HitRecord {
    /// Whether a ray comes from outside, given `facing`, the dot product of its direction
    /// with the outward normal.
    pub open spec fn from_outside(facing: Scalar) -> bool {
        facing.lt(Scalar::zero())
    }

    /// The outward normal for a ray from outside, else its negation.
    pub open spec fn turned(facing: Scalar, outward_normal: Vec3) -> Vec3 {
        if HitRecord::from_outside(facing) {
            outward_normal
        } else {
            outward_normal.neg()
        }
    }

    /// A record of a hit at `point`, whose normal is yet to be set.
    pub fn new(point: Point3, t: Scalar, material: Material) -> (r: HitRecord)
        ensures
            r.point == point,
            r.t == t,
            r.material == material,
            r.front_facing == false,
            r.normal == (Vec3 { x: Scalar::zero(), y: Scalar::zero(), z: Scalar::zero() }),
    {
        HitRecord { normal: Vec3::default(), point, t, front_facing: false, material }
    }

    /// Sets the normal and the side. `outward_normal` has length one; `facing` is the dot
    /// product of the ray's direction with it.
    pub fn set_face_normal(&mut self, facing: Scalar, outward_normal: Vec3)
        ensures
            final(self).front_facing == HitRecord::from_outside(facing),
            final(self).normal == HitRecord::turned(facing, outward_normal),
            final(self).point == old(self).point,
            final(self).t == old(self).t,
            final(self).material == old(self).material,
    {
        self.front_facing = facing.lt(Scalar::zero());
        self.normal = if self.front_facing {
            outward_normal
        } else {
            outward_normal.neg()
        };
    }
}

/// The dot product of a ray's direction with the normal that [`HitRecord::set_face_normal`]
/// stores, given `facing`, its dot product with the outward normal: `facing` itself for a
/// ray from outside, else its negation, since negating a vector negates its dot products.
pub open spec fn against(facing: Scalar) -> Scalar {
    if HitRecord::from_outside(facing) {
        facing
    } else {
        facing.neg()
    }
}

/// The stored normal never points along the ray: wherever the dot product of the ray's
/// direction with the outward normal is a number, the one with the stored normal is not
/// above zero.
pub proof fn lemma_normal_opposes_ray(facing: Scalar)
    requires
        !facing.is_nan(),
    ensures
        against(facing).le(Scalar::zero()),
{
    crate::scalar::lemma_neg_abs(facing);
}

/// Whether the ray meets the surface at parameter `t` within `range`: `t` is one of the
/// roots, and `range` surrounds it.
pub open spec fn crosses(roots: Roots, range: Interval, t: Scalar) -> bool {
    !roots.discriminant.lt(Scalar::zero()) && range.surrounds(t) && (t == roots.near || t
        == roots.far)
}

/// The nearest hit among the surfaces whose roots are `roots`, in list order: each surface
/// is asked for a hit between the lower end of `range` and the nearest hit so far.
pub open spec fn nearest(roots: Seq<Roots>, range: Interval) -> Option<Hit>
    decreases roots.len(),
{
    if roots.len() == 0 {
        None
    } else {
        let before = nearest(roots.drop_last(), range);
        match roots.last().hit(Interval { min: range.min, max: reach(before, range) }) {
            Some(t) => Some(Hit { index: (roots.len() - 1) as usize, t }),
            None => before,
        }
    }
}

/// How far a later surface may lie: up to the nearest hit so far, or to the end of `range`.
pub open spec fn reach(so_far: Option<Hit>, range: Interval) -> Scalar {
    match so_far {
        Some(hit) => hit.t,
        None => range.max,
    }
}

/// The range of the search only shrinks: a surface more leaves the reach as it was, or
/// brings it nearer.
pub proof fn lemma_reach_only_shrinks(roots: Seq<Roots>, range: Interval)
    requires
        roots.len() > 0,
    ensures
        ({
            let before = reach(nearest(roots.drop_last(), range), range);
            let after = reach(nearest(roots, range), range);
            after == before || after.lt(before)
        }),
{
}

/// The search finds the nearest crossing. Where every surface's far root is not below its
/// near one: the hit that is found is a crossing of its surface, no surface has a crossing
/// nearer than it, and every surface before it in the list has only crossings farther than
/// it; where none is found, no surface has a crossing.
pub proof fn lemma_nearest_is_closest(roots: Seq<Roots>, range: Interval)
    requires
        roots.len() <= usize::MAX,
        forall|i: int| 0 <= i < roots.len() ==> (#[trigger] roots[i]).ordered(),
    ensures
        match nearest(roots, range) {
            Some(h) => {
                &&& h.index < roots.len()
                &&& crosses(roots[h.index as int], range, h.t)
                &&& forall|i: int, t: Scalar|
                    0 <= i < roots.len() && #[trigger] crosses(roots[i], range, t) ==> h.t.le(t)
                &&& forall|i: int, t: Scalar|
                    0 <= i < h.index && #[trigger] crosses(roots[i], range, t) ==> h.t.lt(t)
            },
            None => forall|i: int, t: Scalar|
                0 <= i < roots.len() ==> !#[trigger] crosses(roots[i], range, t),
        },
    decreases roots.len(),
{
    if roots.len() > 0 {
        let init = roots.drop_last();
        let last = roots.last();
        lemma_nearest_is_closest(init, range);
        let before = nearest(init, range);
        assert(forall|i: int| 0 <= i < init.len() ==> init[i] == roots[i]);
        assert(last.ordered());
        match nearest(roots, range) {
            Some(h) => {
                assert forall|i: int, t: Scalar|
                    0 <= i < roots.len() && #[trigger] crosses(roots[i], range, t) implies h.t.le(
                    t,
                ) by {
                    if i < init.len() {
                        assert(crosses(init[i], range, t));
                    }
                }
                assert forall|i: int, t: Scalar|
                    0 <= i < h.index && #[trigger] crosses(roots[i], range, t) implies h.t.lt(
                    t,
                ) by {
                    assert(crosses(init[i], range, t));
                }
            },
            None => {
                assert forall|i: int, t: Scalar| 0 <= i < roots.len() implies !#[trigger] crosses(
                    roots[i],
                    range,
                    t,
                ) by {
                    if i < init.len() {
                        assert(!crosses(init[i], range, t));
                    }
                }
            },
        }
    }
}

/// The spheres of a sequence of surfaces, in the order in which a search visits them:
/// each member in turn, and a member that is a list by its own members in turn.
pub open spec fn spheres_of(shapes: Seq<Hittable>) -> Seq<Sphere>
    decreases shapes,
{
    if shapes.len() == 0 {
        Seq::<Sphere>::empty()
    } else {
        spheres_of(shapes.drop_last()) + shapes.last().spheres()
    }
}

impl Hittable {
    /// The spheres of a surface, in the order in which a search visits them.
    pub open spec fn spheres(self) -> Seq<Sphere>
        decreases self,
    {
        match self {
            Hittable::Sphere(sphere) => seq![sphere],
            Hittable::List(list) => spheres_of(list.shapes@),
        }
    }
}

/// The nearest hit among `shapes` as each surface answers for itself, in list order: each
/// is asked for a hit between the lower end of `range` and the nearest hit so far. `roots`
/// holds the roots of the spheres of `shapes`, in search order; the hit's index counts in
/// that order.
pub open spec fn search(shapes: Seq<Hittable>, roots: Seq<Roots>, range: Interval) -> Option<Hit>
    decreases shapes,
{
    if shapes.len() == 0 {
        None
    } else {
        let n = spheres_of(shapes.drop_last()).len() as int;
        let before = search(shapes.drop_last(), roots.take(n), range);
        match shapes.last().hit(
            roots.skip(n),
            Interval { min: range.min, max: reach(before, range) },
        ) {
            Some(h) => Some(Hit { index: (n + h.index) as usize, t: h.t }),
            None => before,
        }
    }
}

impl Hittable {
    /// The hit of one surface within `range`: of a sphere by its roots, of a list by the
    /// search of its members. `roots` holds the roots of the surface's spheres.
    pub open spec fn hit(self, roots: Seq<Roots>, range: Interval) -> Option<Hit>
        decreases self,
    {
        match self {
            Hittable::Sphere(_) => match roots[0].hit(range) {
                Some(t) => Some(Hit { index: 0, t }),
                None => None,
            },
            Hittable::List(list) => search(list.shapes@, roots, range),
        }
    }
}

/// The search of two runs of spheres, one after the other, is the search of the second run
/// within what the first has left of the range.
pub proof fn lemma_nearest_of_two_runs(first: Seq<Roots>, second: Seq<Roots>, range: Interval)
    requires
        first.len() + second.len() <= usize::MAX,
    ensures
        nearest(first + second, range) == match nearest(
            second,
            Interval { min: range.min, max: reach(nearest(first, range), range) },
        ) {
            Some(h) => Some(Hit { index: (first.len() + h.index) as usize, t: h.t }),
            None => nearest(first, range),
        },
    decreases second.len(),
{
    if second.len() == 0 {
        assert(first + second =~= first);
    } else {
        lemma_nearest_of_two_runs(first, second.drop_last(), range);
        assert((first + second).drop_last() =~= first + second.drop_last());
        assert((first + second).last() == second.last());
    }
}

/// A scene whose lists hold lists is searched as the plain run of its spheres: the search
/// in which every list answers for itself finds what [`nearest`] finds.
pub proof fn lemma_search_is_nearest(shapes: Seq<Hittable>, roots: Seq<Roots>, range: Interval)
    requires
        roots.len() == spheres_of(shapes).len(),
        roots.len() <= usize::MAX,
    ensures
        search(shapes, roots, range) == nearest(roots, range),
    decreases shapes,
{
    if shapes.len() > 0 {
        let n = spheres_of(shapes.drop_last()).len() as int;
        let last = shapes.last();
        let before = search(shapes.drop_last(), roots.take(n), range);
        let rest = Interval { min: range.min, max: reach(before, range) };
        assert(spheres_of(shapes) == spheres_of(shapes.drop_last()) + last.spheres());
        lemma_search_is_nearest(shapes.drop_last(), roots.take(n), range);
        match last {
            Hittable::Sphere(sphere) => {
                assert(last.spheres() == seq![sphere]);
                assert(roots.skip(n).len() == 1);
                assert(roots.skip(n).drop_last().len() == 0);
                assert(nearest(roots.skip(n).drop_last(), rest) == None::<Hit>);
                assert(roots.skip(n).last() == roots.skip(n)[0]);
            },
            Hittable::List(list) => {
                assert(last.spheres() == spheres_of(list.shapes@));
                lemma_search_is_nearest(list.shapes@, roots.skip(n), rest);
            },
        }
        assert(last.hit(roots.skip(n), rest) == nearest(roots.skip(n), rest));
        lemma_nearest_of_two_runs(roots.take(n), roots.skip(n), range);
        assert(roots.take(n) + roots.skip(n) =~= roots);
    }
}

impl HitList {
    /// The members of the list, in the order in which they were added.
    pub open spec fn view(&self) -> Seq<Hittable> {
        self.shapes@
    }

    /// The spheres of the scene, in the order in which a search visits them.
    pub open spec fn spheres(&self) -> Seq<Sphere> {
        spheres_of(self.shapes@)
    }

    /// An empty scene.
    pub fn new() -> (r: HitList)
        ensures
            r@ == Seq::<Hittable>::empty(),
    {
        HitList { shapes: Vec::new() }
    }

    /// Removes every surface.
    pub fn clear(&mut self)
        ensures
            final(self)@ == Seq::<Hittable>::empty(),
    {
        self.shapes.clear();
    }

    /// Adds a surface after those that are there.
    pub fn add(&mut self, object: Hittable)
        ensures
            final(self)@ == old(self)@.push(object),
            final(self).spheres() == old(self).spheres() + object.spheres(),
    {
        self.shapes.push(object);
        assert(self.shapes@.drop_last() =~= old(self).shapes@);
    }

    /// Appends the spheres of the list to `out`.
    fn collect(&self, out: &mut Vec<Sphere>)
        ensures
            final(out)@ == old(out)@ + self.spheres(),
        decreases self,
    {
        let mut i: usize = 0;
        while i < self.shapes.len()
            invariant
                i <= self.shapes.len(),
                out@ == old(out)@ + spheres_of(self.shapes@.take(i as int)),
            decreases self.shapes.len() - i,
        {
            proof {
                assert(self.shapes@.take(i + 1).drop_last() =~= self.shapes@.take(i as int));
                assert(self.shapes@.take(i + 1).last() == self.shapes@[i as int]);
                assert(spheres_of(self.shapes@.take(i + 1)) == spheres_of(
                    self.shapes@.take(i as int),
                ) + self.shapes@[i as int].spheres());
            }
            let ghost before = out@;
            match &self.shapes[i] {
                Hittable::Sphere(sphere) => {
                    out.push(*sphere);
                    assert(out@ =~= before + self.shapes@[i as int].spheres());
                },
                Hittable::List(list) => {
                    list.collect(out);
                    assert(out@ == before + self.shapes@[i as int].spheres());
                },
            }
            assert(out@ =~= old(out)@ + spheres_of(self.shapes@.take(i + 1)));
            i = i + 1;
        }
        assert(self.shapes@.take(self.shapes.len() as int) =~= self.shapes@);
    }

    /// The spheres of the scene, in the order in which a search visits them.
    pub fn flatten(&self) -> (r: Vec<Sphere>)
        ensures
            r@ == self.spheres(),
    {
        let mut out: Vec<Sphere> = Vec::new();
        self.collect(&mut out);
        out
    }

    /// The nearest hit of a ray within `range`. `roots` holds, for each sphere of the scene
    /// in the order of [`HitList::flatten`], the roots of the ray's quadratic with it.
    pub fn hit(&self, roots: &Vec<Roots>, range: Interval) -> (r: Option<Hit>)
        requires
            roots.len() == self.spheres().len(),
        ensures
            r == nearest(roots@, range),
            r == search(self@, roots@, range),
            r matches Some(h) ==> h.index < self.spheres().len() && range.surrounds(h.t),
    {
        proof {
            lemma_search_is_nearest(self@, roots@, range);
        }
        let mut best: Option<Hit> = None;
        let mut closest_so_far = range.max();
        let mut i: usize = 0;
        while i < roots.len()
            invariant
                i <= roots.len(),
                best == nearest(roots@.take(i as int), range),
                closest_so_far == reach(best, range),
                best matches Some(h) ==> h.index < i && range.surrounds(h.t),
            decreases roots.len() - i,
        {
            proof {
                assert(roots@.take(i + 1).drop_last() =~= roots@.take(i as int));
                assert(roots@.take(i + 1).last() == roots@[i as int]);
            }
            match roots[i].hit(Interval::new(range.min(), closest_so_far)) {
                Some(t) => {
                    best = Some(Hit { index: i, t });
                    closest_so_far = t;
                },
                None => {},
            }
            i = i + 1;
        }
        assert(roots@.take(roots.len() as int) =~= roots@);
        best
    }
}

} // verus!
