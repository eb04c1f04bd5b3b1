//! The recursive world-shading algorithm: direct light with shadow
//! tests, plus reflected and refracted contributions bounded by a
//! remaining-recursion budget.
//!
//! The scalar work — intersecting one shape, Phong evaluation, building
//! reflected and refracted rays — is delegated to a [`Scene`]
//! implementor.  What stays here, and is verified, is everything the
//! algorithm decides on plain values: sorting the intersection list,
//! selecting the hit, walking the refraction container stack, comparing
//! shadow distances, the first-light-only ambient policy, and the strict
//! decrease of the recursion budget on every reflective or refractive
//! bounce, which makes the renderer terminate on any scene, mirrors
//! included.
//!
//! Each [`Scene`] method is mirrored by a specification-level function
//! of the implementor, and the shading functions' contracts are stated
//! over those mirrors: what each function returns is pinned down to the
//! scene's own answers, wired together exactly as the algorithm wires
//! them.

use vstd::prelude::*;
use vstd::pervasive::arbitrary;
use crate::intersection::Intersection;
use crate::intersection::consuming_hit;
use crate::intersection::has_hit;
use crate::intersection::hit;
use crate::intersection::is_first_min_nonneg_at;
use crate::intersection::is_first_occurrence;
use crate::intersection::is_last_min_nonneg_at;
use crate::intersection::is_n1_n2_at;
use crate::intersection::lemma_first_min_nonneg_unique;
use crate::intersection::lemma_first_occurrence_unique;
use crate::intersection::lemma_has_hit_multiset;
use crate::intersection::lemma_sel_sort_multiset;
use crate::intersection::sel_sort;
use crate::intersection::sort_by_t;

verus! {

/// The scalar collaborators of the shading core: the scene's shapes,
/// lights, materials and color arithmetic, owned by the renderer that
/// works in its own scalar type.  The core never looks inside rays,
/// colors or prepared computations; it hands them through.
///
/// Implement this for a world of shapes to drive it through the verified
/// shading loop.  Ray parameters and shadow distances cross the boundary
/// as order keys: any strictly increasing encoding of the implementor's
/// scalars that maps exactly the non-negative scalars to non-negative
/// keys.
///
/// Each executable method is bound by its contract to a specification
/// -level mirror (`spec_...`); the shading functions' own contracts are
/// stated over those mirrors.  A verified implementor overrides the
/// mirrors and proves each binding; an unverified one may leave them at
/// their unspecified defaults and is simply taken at its word, as any
/// hand-written shape was in the first place.
pub trait Scene {
    /// A ray: origin point and direction vector.
    type Ray;

    /// A color contribution.
    type Color;

    /// The shading-relevant geometry derived from one chosen hit:
    /// world point, eye vector, normal, reflection vector, offset
    /// points and refractive indices.
    type Comps;

    /// What [`Self::intersect`] appends for a ray, at the
    /// specification level.
    open spec fn spec_intersections(&self, ray: Self::Ray) -> Seq<Intersection> {
        arbitrary()
    }

    /// How many lights the scene holds, at the specification level.
    open spec fn spec_light_count(&self) -> usize {
        arbitrary()
    }

    /// The color of an absent contribution, at the specification
    /// level.
    open spec fn spec_black(&self) -> Self::Color {
        arbitrary()
    }

    /// Componentwise color addition, at the specification level.
    open spec fn spec_add_colors(&self, a: Self::Color, b: Self::Color) -> Self::Color {
        arbitrary()
    }

    /// The shading geometry of a chosen hit, at the specification
    /// level.
    open spec fn spec_prepare_computations(
        &self,
        ray: Self::Ray,
        chosen: Intersection,
        n1: Option<usize>,
        n2: Option<usize>,
    ) -> Self::Comps {
        arbitrary()
    }

    /// The shadow ray toward a light and the distance key, at the
    /// specification level.
    open spec fn spec_shadow_ray(&self, light: usize, comps: Self::Comps) -> (Self::Ray, i64) {
        arbitrary()
    }

    /// One light's Phong contribution, at the specification level.
    open spec fn spec_render_at(
        &self,
        comps: Self::Comps,
        light: usize,
        in_shadow: bool,
        ambient: bool,
    ) -> Self::Color {
        arbitrary()
    }

    /// Whether the hit material reflects, at the specification level.
    open spec fn spec_is_reflective(&self, comps: Self::Comps) -> bool {
        arbitrary()
    }

    /// The reflected ray, at the specification level.
    open spec fn spec_reflect_ray(&self, comps: Self::Comps) -> Self::Ray {
        arbitrary()
    }

    /// The reflective scaling, at the specification level.
    open spec fn spec_scale_reflected(&self, comps: Self::Comps, color: Self::Color) -> Self::Color {
        arbitrary()
    }

    /// Whether the hit material is transparent, at the specification
    /// level.
    open spec fn spec_is_transparent(&self, comps: Self::Comps) -> bool {
        arbitrary()
    }

    /// The refracted ray, or `None` under total internal reflection,
    /// at the specification level.
    open spec fn spec_refract_ray(&self, comps: Self::Comps) -> Option<Self::Ray> {
        arbitrary()
    }

    /// The transparency scaling, at the specification level.
    open spec fn spec_scale_refracted(&self, comps: Self::Comps, color: Self::Color) -> Self::Color {
        arbitrary()
    }

    /// Appends the intersections of the ray with every object of the
    /// scene, each carrying the ray parameter's order key and the
    /// object's index.  Must not clear the collection.
    fn intersect(&self, ray: &Self::Ray, intersections: &mut Vec<Intersection>)
        ensures
            final(intersections)@ == old(intersections)@ + self.spec_intersections(*ray),
    ;

    /// How many lights the scene holds.
    fn light_count(&self) -> (r: usize)
        ensures
            r == self.spec_light_count(),
    ;

    /// The color of an absent contribution: black.
    fn black(&self) -> (r: Self::Color)
        ensures
            r == self.spec_black(),
    ;

    /// Componentwise color addition.
    fn add_colors(&self, a: Self::Color, b: Self::Color) -> (r: Self::Color)
        ensures
            r == self.spec_add_colors(a, b),
    ;

    /// Derives the shading geometry for the chosen hit.  `n1` and `n2`
    /// name the objects whose media the ray leaves and enters there,
    /// `None` standing for the enclosing vacuum.
    fn prepare_computations(
        &self,
        ray: &Self::Ray,
        chosen: Intersection,
        n1: Option<usize>,
        n2: Option<usize>,
    ) -> (r: Self::Comps)
        ensures
            r == self.spec_prepare_computations(*ray, chosen, n1, n2),
    ;

    /// A ray from the hit's over point toward the given light, paired
    /// with the order key of the distance to that light.
    fn shadow_ray(&self, light: usize, comps: &Self::Comps) -> (r: (Self::Ray, i64))
        ensures
            r == self.spec_shadow_ray(light, *comps),
    ;

    /// The Phong contribution of one light at the prepared point.
    /// `ambient` tells whether the ambient term is included; `in_shadow`
    /// suppresses the diffuse and specular terms.
    fn render_at(
        &self,
        comps: &Self::Comps,
        light: usize,
        in_shadow: bool,
        ambient: bool,
    ) -> (r: Self::Color)
        ensures
            r == self.spec_render_at(*comps, light, in_shadow, ambient),
    ;

    /// Whether the hit material reflects at all (reflective coefficient
    /// not epsilon-equal to zero).
    fn is_reflective(&self, comps: &Self::Comps) -> (r: bool)
        ensures
            r == self.spec_is_reflective(*comps),
    ;

    /// The reflected ray, cast from the hit's over point.
    fn reflect_ray(&self, comps: &Self::Comps) -> (r: Self::Ray)
        ensures
            r == self.spec_reflect_ray(*comps),
    ;

    /// Scales a recursively computed color by the reflective
    /// coefficient.
    fn scale_reflected(&self, comps: &Self::Comps, color: Self::Color) -> (r: Self::Color)
        ensures
            r == self.spec_scale_reflected(*comps, color),
    ;

    /// Whether the hit material is transparent at all (transparency not
    /// exactly zero).
    fn is_transparent(&self, comps: &Self::Comps) -> (r: bool)
        ensures
            r == self.spec_is_transparent(*comps),
    ;

    /// The refracted ray, cast from the hit's under point, or `None`
    /// under total internal reflection.
    fn refract_ray(&self, comps: &Self::Comps) -> (r: Option<Self::Ray>)
        ensures
            r == self.spec_refract_ray(*comps),
    ;

    /// Scales a recursively computed color by the transparency.
    fn scale_refracted(&self, comps: &Self::Comps, color: Self::Color) -> (r: Self::Color)
        ensures
            r == self.spec_scale_refracted(*comps, color),
    ;
}

/// Some intersection of the list lies on the forward part of the
/// shadow ray and strictly closer than the light: an object sits
/// between the point and the light.
pub open spec fn shadow_blocked(xs: Seq<Intersection>, distance: i64) -> bool {
    exists|i: int| 0 <= i < xs.len() && 0 <= (#[trigger] xs[i]).t < distance
}

/// Whether a list blocks a light depends only on which intersections it
/// holds, not on their order.
pub proof fn lemma_shadow_blocked_multiset(a: Seq<Intersection>, b: Seq<Intersection>, distance: i64)
    requires
        a.to_multiset() == b.to_multiset(),
    ensures
        shadow_blocked(a, distance) == shadow_blocked(b, distance),
{
    broadcast use vstd::seq_lib::group_to_multiset_ensures;

    if shadow_blocked(a, distance) {
        let i = choose|i: int| 0 <= i < a.len() && 0 <= (#[trigger] a[i]).t < distance;
        assert(a.contains(a[i]));
        assert(b.to_multiset().count(a[i]) > 0);
        assert(b.contains(a[i]));
        let j = choose|j: int| 0 <= j < b.len() && b[j] == a[i];
        assert(0 <= b[j].t < distance);
    }
    if shadow_blocked(b, distance) {
        let i = choose|i: int| 0 <= i < b.len() && 0 <= (#[trigger] b[i]).t < distance;
        assert(b.contains(b[i]));
        assert(a.to_multiset().count(b[i]) > 0);
        assert(a.contains(b[i]));
        let j = choose|j: int| 0 <= j < a.len() && a[j] == b[i];
        assert(0 <= a[j].t < distance);
    }
}

/// What the shadow test of one light decides, over the scene's
/// specification mirrors: the shadow ray's intersections — on top of
/// whatever the reused buffer still held — block the light exactly when
/// one of them lies between the point and the light.
pub open spec fn spec_in_shadow<S: Scene>(
    scene: &S,
    light: usize,
    comps: S::Comps,
    init: Seq<Intersection>,
) -> bool {
    let probe = scene.spec_shadow_ray(light, comps);
    shadow_blocked(init + scene.spec_intersections(probe.0), probe.1)
}

/// The summed direct contribution of the first `n` lights: each light
/// shadow-tested independently, the ambient term granted to the first
/// light alone.  Only the first light's shadow test sees the caller's
/// reused buffer; every later one runs on the emptied buffer.
pub open spec fn spec_surface<S: Scene>(
    scene: &S,
    comps: S::Comps,
    n: int,
    init: Seq<Intersection>,
) -> S::Color
    decreases n,
{
    if n <= 0 {
        scene.spec_black()
    } else {
        let light = (n - 1) as usize;
        let shadow_init = if n - 1 == 0 {
            init
        } else {
            Seq::<Intersection>::empty()
        };
        scene.spec_add_colors(
            spec_surface(scene, comps, n - 1, init),
            scene.spec_render_at(
                comps,
                light,
                spec_in_shadow(scene, light, comps, shadow_init),
                n - 1 == 0,
            ),
        )
    }
}

/// What [`reflected_color_at`] returns: black when the budget is spent
/// or the material does not reflect; otherwise the color of the
/// reflected ray, resolved with a strictly smaller budget and scaled by
/// the reflective coefficient.
pub open spec fn is_reflected_color<S: Scene>(
    scene: &S,
    comps: S::Comps,
    budget: int,
    r: S::Color,
) -> bool
    decreases budget, 1int,
{
    if budget <= 0 {
        r == scene.spec_black()
    } else if !scene.spec_is_reflective(comps) {
        r == scene.spec_black()
    } else {
        exists|inner: S::Color|
            {
                &&& is_color_at_result(
                    scene,
                    scene.spec_reflect_ray(comps),
                    Seq::<Intersection>::empty(),
                    budget - 1,
                    inner,
                )
                &&& r == #[trigger] scene.spec_scale_reflected(comps, inner)
            }
    }
}

/// What [`refracted_color_at`] returns: black when the budget is spent,
/// the material is opaque, or total internal reflection leaves no
/// transmitted ray; otherwise the color of the refracted ray, resolved
/// with a strictly smaller budget and scaled by the transparency.
pub open spec fn is_refracted_color<S: Scene>(
    scene: &S,
    comps: S::Comps,
    budget: int,
    r: S::Color,
) -> bool
    decreases budget, 1int,
{
    if budget <= 0 {
        r == scene.spec_black()
    } else if !scene.spec_is_transparent(comps) {
        r == scene.spec_black()
    } else {
        match scene.spec_refract_ray(comps) {
            None => r == scene.spec_black(),
            Some(refract_ray) => exists|inner: S::Color|
                {
                    &&& is_color_at_result(
                        scene,
                        refract_ray,
                        Seq::<Intersection>::empty(),
                        budget - 1,
                        inner,
                    )
                    &&& r == #[trigger] scene.spec_scale_refracted(comps, inner)
                },
        }
    }
}

/// What [`shade_hit`] returns: the per-light surface sum plus the
/// reflected and the refracted contribution of the same budget.
pub open spec fn is_shade_hit_result<S: Scene>(
    scene: &S,
    comps: S::Comps,
    init: Seq<Intersection>,
    budget: int,
    r: S::Color,
) -> bool
    decreases budget, 2int,
{
    exists|surface: S::Color, reflected: S::Color, refracted: S::Color|
        {
            &&& surface == spec_surface(scene, comps, scene.spec_light_count() as int, init)
            &&& is_reflected_color(scene, comps, budget, reflected)
            &&& is_refracted_color(scene, comps, budget, refracted)
            &&& r == #[trigger] scene.spec_add_colors(
                scene.spec_add_colors(surface, reflected),
                refracted,
            )
        }
}

/// What [`color_at`] returns: black when no intersection lies on the
/// forward part of the ray; otherwise the shade of the hit — the first
/// minimal forward intersection of the sorted list — prepared with the
/// media that the refraction container walk reads off that same sorted
/// list.
pub open spec fn is_color_at_result<S: Scene>(
    scene: &S,
    ray: S::Ray,
    init: Seq<Intersection>,
    budget: int,
    r: S::Color,
) -> bool
    decreases budget, 3int,
{
    let xs = init + scene.spec_intersections(ray);
    let sorted = sel_sort(xs);
    if !has_hit(xs) {
        r == scene.spec_black()
    } else {
        exists|h: Intersection, i: int, k: int, media: (Option<usize>, Option<usize>)|
            {
                &&& #[trigger] is_first_min_nonneg_at(sorted, h, i)
                &&& is_first_occurrence(sorted, h, k)
                &&& #[trigger] is_n1_n2_at(sorted, k, media)
                &&& is_shade_hit_result(
                    scene,
                    scene.spec_prepare_computations(ray, h, media.0, media.1),
                    Seq::<Intersection>::empty(),
                    budget,
                    r,
                )
            }
    }
}

/// Consumes an intersection list and decides whether its nearest
/// forward hit lies strictly closer than `distance`: whether an object
/// of the list blocks a light at that distance key.
pub fn shadow_test(intersections: &mut Vec<Intersection>, distance: i64) -> (r: bool)
    ensures
        final(intersections)@.len() == 0,
        r == shadow_blocked(old(intersections)@, distance),
{
    let ghost all = old(intersections)@;
    let h = consuming_hit(intersections);
    match h {
        Some(intersection) => {
            proof {
                let i = choose|i: int| is_last_min_nonneg_at(all, intersection, i);
                if intersection.t < distance {
                    assert(0 <= all[i].t < distance);
                } else {
                    assert forall|j: int| 0 <= j < all.len() implies !(0 <= (#[trigger] all[j]).t
                        < distance) by {
                        if all[j].t >= 0 {
                            assert(intersection.t <= all[j].t);
                        }
                    }
                }
            }
            intersection.t < distance
        },
        None => {
            proof {
                assert forall|j: int| 0 <= j < all.len() implies !(0 <= (#[trigger] all[j]).t
                    < distance) by {
                    if all[j].t >= 0 {
                        assert(has_hit(all));
                    }
                }
            }
            false
        },
    }
}

/// Determines whether the prepared point lies in the shadow of the given
/// light: some object sits strictly between the point and the light.
/// The intersections vector is only provided to save on allocations; its
/// contents are consumed (and count toward the shadow test).
pub fn in_shadow<S: Scene>(
    scene: &S,
    light: usize,
    comps: &S::Comps,
    intersections: &mut Vec<Intersection>,
) -> (r: bool)
    ensures
        final(intersections)@.len() == 0,
        r == spec_in_shadow(scene, light, *comps, old(intersections)@),
{
    let ghost init = old(intersections)@;
    let probe = scene.shadow_ray(light, comps);
    let (ray, distance) = probe;
    scene.intersect(&ray, intersections);
    let ghost filled = intersections@;
    sort_by_t(intersections);
    let r = shadow_test(intersections, distance);
    proof {
        lemma_sel_sort_multiset(filled);
        lemma_shadow_blocked_multiset(sel_sort(filled), filled, distance);
        assert(ray == scene.spec_shadow_ray(light, *comps).0);
        assert(distance == scene.spec_shadow_ray(light, *comps).1);
    }
    r
}

/// Given the prepared computations of the point a ray hit, determines
/// the color at this point: every light's Phong contribution — the
/// ambient term counted only for the first light, and only diffuse and
/// specular suppressed in shadow — plus the reflected and refracted
/// contributions of the remaining recursion budget.
/// The intersections vector is only provided to save on allocations.  If
/// you did not get it, just pass an empty vector.
pub fn shade_hit<S: Scene>(
    scene: &S,
    comps: &S::Comps,
    intersections: &mut Vec<Intersection>,
    remaining_recursion: usize,
) -> (r: S::Color)
    ensures
        is_shade_hit_result(
            scene,
            *comps,
            old(intersections)@,
            remaining_recursion as int,
            r,
        ),
        scene.spec_light_count() > 0 ==> final(intersections)@.len() == 0,
        scene.spec_light_count() == 0 ==> final(intersections)@ == old(intersections)@,
    decreases remaining_recursion, 2int,
{
    let ghost init = old(intersections)@;
    let mut ambient = true;
    let mut surface = scene.black();
    let light_count = scene.light_count();
    let mut light: usize = 0;
    while light < light_count
        invariant
            light <= light_count,
            light_count == scene.spec_light_count(),
            ambient == (light == 0),
            light == 0 ==> intersections@ == init,
            light > 0 ==> intersections@.len() == 0,
            surface == spec_surface(scene, *comps, light as int, init),
        decreases light_count - light,
    {
        let ghost buffer_before = intersections@;
        let shadowed = in_shadow(scene, light, comps, intersections);
        surface = scene.add_colors(surface, scene.render_at(comps, light, shadowed, ambient));
        proof {
            assert(light as int + 1 - 1 == light as int);
            assert(spec_surface(scene, *comps, light as int + 1, init) == scene.spec_add_colors(
                spec_surface(scene, *comps, light as int, init),
                scene.spec_render_at(
                    *comps,
                    light,
                    spec_in_shadow(scene, light, *comps, buffer_before),
                    light == 0,
                ),
            ));
        }
        ambient = false;
        light += 1;
    }

    let reflected = reflected_color_at(scene, comps, remaining_recursion);
    let refracted = refracted_color_at(scene, comps, remaining_recursion);

    let r = scene.add_colors(scene.add_colors(surface, reflected), refracted);
    proof {
        assert(is_reflected_color(scene, *comps, remaining_recursion as int, reflected));
        assert(is_refracted_color(scene, *comps, remaining_recursion as int, refracted));
        assert(r == scene.spec_add_colors(
            scene.spec_add_colors(
                spec_surface(scene, *comps, scene.spec_light_count() as int, init),
                reflected,
            ),
            refracted,
        ));
        assert(is_shade_hit_result(scene, *comps, init, remaining_recursion as int, r));
    }
    r
}

/// Determines the color a ray produces.
/// If it does not hit, returns black.
/// If it hits, intersections are sorted, the nearest forward hit is
/// chosen, its refraction containers are read off the sorted list, and
/// the prepared point is shaded.
/// The intersections argument is only for saving on allocations — if in
/// doubt, pass a new vector; whatever it still holds counts toward the
/// ray's intersections, as if the scene had reported it.
pub fn color_at<S: Scene>(
    scene: &S,
    ray: &S::Ray,
    intersections: &mut Vec<Intersection>,
    remaining_recursion: usize,
) -> (r: S::Color)
    ensures
        is_color_at_result(scene, *ray, old(intersections)@, remaining_recursion as int, r),
    decreases remaining_recursion, 3int,
{
    let ghost init = old(intersections)@;
    scene.intersect(ray, intersections);
    let ghost filled = intersections@;
    sort_by_t(intersections);
    proof {
        lemma_sel_sort_multiset(filled);
        lemma_has_hit_multiset(sel_sort(filled), filled);
    }

    let h = hit(intersections);
    match h {
        Some(chosen) => {
            let ghost sorted = intersections@;
            proof {
                let i = choose|i: int| is_first_min_nonneg_at(sorted, chosen, i);
                assert(sorted[i] == chosen);
                assert(sorted.contains(chosen));
            }
            let (n1, n2) = chosen.compute_n1_n2(intersections);
            let comps = scene.prepare_computations(ray, chosen, n1, n2);
            intersections.clear();
            let r = shade_hit(scene, &comps, intersections, remaining_recursion);
            proof {
                let i = choose|i: int| is_first_min_nonneg_at(sorted, chosen, i);
                let k = choose|k: int|
                    is_first_occurrence(sorted, chosen, k) && is_n1_n2_at(sorted, k, (n1, n2));
                assert(is_color_at_result(
                    scene,
                    *ray,
                    init,
                    remaining_recursion as int,
                    r,
                ));
            }
            r
        },
        None => {
            let r = scene.black();
            proof {
                assert(!has_hit(filled));
            }
            r
        },
    }
}

/// Returns the reflected color at the object.
/// Returns black without casting a ray if either
/// 1. the remaining recursion budget is exhausted, or
/// 2. the material's reflective coefficient is epsilon-equal to zero.
/// Otherwise the reflected ray's color is resolved with a strictly
/// smaller budget and scaled by the reflective coefficient.
pub fn reflected_color_at<S: Scene>(
    scene: &S,
    comps: &S::Comps,
    remaining_recursion: usize,
) -> (r: S::Color)
    ensures
        is_reflected_color(scene, *comps, remaining_recursion as int, r),
    decreases remaining_recursion, 1int,
{
    if remaining_recursion == 0 {
        return scene.black();
    }

    if !scene.is_reflective(comps) {
        return scene.black();
    }

    let reflect_ray = scene.reflect_ray(comps);
    let mut intersections: Vec<Intersection> = Vec::new();
    let color = color_at(scene, &reflect_ray, &mut intersections, remaining_recursion - 1);
    let r = scene.scale_reflected(comps, color);
    proof {
        assert(is_color_at_result(
            scene,
            scene.spec_reflect_ray(*comps),
            Seq::<Intersection>::empty(),
            remaining_recursion as int - 1,
            color,
        ));
        assert(r == scene.spec_scale_reflected(*comps, color));
        assert(is_reflected_color(scene, *comps, remaining_recursion as int, r));
    }
    r
}

/// Returns the refracted color at the object.
/// Returns black without casting a ray if either
/// 1. the remaining recursion budget is exhausted,
/// 2. the material is fully opaque, or
/// 3. total internal reflection leaves no transmitted ray.
/// Otherwise the refracted ray's color is resolved with a strictly
/// smaller budget and scaled by the transparency.
pub fn refracted_color_at<S: Scene>(
    scene: &S,
    comps: &S::Comps,
    remaining_recursion: usize,
) -> (r: S::Color)
    ensures
        is_refracted_color(scene, *comps, remaining_recursion as int, r),
    decreases remaining_recursion, 1int,
{
    if remaining_recursion == 0 {
        return scene.black();
    }

    if !scene.is_transparent(comps) {
        return scene.black();
    }

    match scene.refract_ray(comps) {
        None => scene.black(),
        Some(refract_ray) => {
            let mut intersections: Vec<Intersection> = Vec::new();
            let color = color_at(scene, &refract_ray, &mut intersections, remaining_recursion - 1);
            let r = scene.scale_refracted(comps, color);
            proof {
                assert(scene.spec_refract_ray(*comps) == Some(refract_ray));
                assert(is_color_at_result(
                    scene,
                    refract_ray,
                    Seq::<Intersection>::empty(),
                    remaining_recursion as int - 1,
                    color,
                ));
                assert(r == scene.spec_scale_refracted(*comps, color));
                assert(is_refracted_color(scene, *comps, remaining_recursion as int, r));
            }
            r
        },
    }
}

/// The color-at contract admits exactly one color: two results that
/// both satisfy it for the same scene mirrors, ray, buffer contents and
/// budget are the same color.  With the sorted arrangement, the hit,
/// the container walk and every scene mirror a function of the inputs,
/// rendering the same ray twice cannot disagree.
pub proof fn lemma_color_at_result_unique<S: Scene>(
    scene: &S,
    ray: S::Ray,
    init: Seq<Intersection>,
    budget: int,
    r1: S::Color,
    r2: S::Color,
)
    requires
        is_color_at_result(scene, ray, init, budget, r1),
        is_color_at_result(scene, ray, init, budget, r2),
    ensures
        r1 == r2,
    decreases budget, 3int,
{
    let xs = init + scene.spec_intersections(ray);
    let sorted = sel_sort(xs);
    if has_hit(xs) {
        let (h1, i1, k1, m1): (Intersection, int, int, (Option<usize>, Option<usize>)) = choose|
            h: Intersection,
            i: int,
            k: int,
            media: (Option<usize>, Option<usize>),
        |
            {
                &&& #[trigger] is_first_min_nonneg_at(sorted, h, i)
                &&& is_first_occurrence(sorted, h, k)
                &&& #[trigger] is_n1_n2_at(sorted, k, media)
                &&& is_shade_hit_result(
                    scene,
                    scene.spec_prepare_computations(ray, h, media.0, media.1),
                    Seq::<Intersection>::empty(),
                    budget,
                    r1,
                )
            };
        let (h2, i2, k2, m2): (Intersection, int, int, (Option<usize>, Option<usize>)) = choose|
            h: Intersection,
            i: int,
            k: int,
            media: (Option<usize>, Option<usize>),
        |
            {
                &&& #[trigger] is_first_min_nonneg_at(sorted, h, i)
                &&& is_first_occurrence(sorted, h, k)
                &&& #[trigger] is_n1_n2_at(sorted, k, media)
                &&& is_shade_hit_result(
                    scene,
                    scene.spec_prepare_computations(ray, h, media.0, media.1),
                    Seq::<Intersection>::empty(),
                    budget,
                    r2,
                )
            };
        lemma_first_min_nonneg_unique(sorted, h1, i1, h2, i2);
        lemma_first_occurrence_unique(sorted, h1, k1, k2);
        assert(m1 == m2);
        lemma_shade_hit_result_unique(
            scene,
            scene.spec_prepare_computations(ray, h1, m1.0, m1.1),
            Seq::<Intersection>::empty(),
            budget,
            r1,
            r2,
        );
    }
}

/// The shade-hit contract admits exactly one color for given inputs.
pub proof fn lemma_shade_hit_result_unique<S: Scene>(
    scene: &S,
    comps: S::Comps,
    init: Seq<Intersection>,
    budget: int,
    r1: S::Color,
    r2: S::Color,
)
    requires
        is_shade_hit_result(scene, comps, init, budget, r1),
        is_shade_hit_result(scene, comps, init, budget, r2),
    ensures
        r1 == r2,
    decreases budget, 2int,
{
    let (s1, rf1, rr1): (S::Color, S::Color, S::Color) = choose|
        surface: S::Color,
        reflected: S::Color,
        refracted: S::Color,
    |
        {
            &&& surface == spec_surface(scene, comps, scene.spec_light_count() as int, init)
            &&& is_reflected_color(scene, comps, budget, reflected)
            &&& is_refracted_color(scene, comps, budget, refracted)
            &&& r1 == #[trigger] scene.spec_add_colors(
                scene.spec_add_colors(surface, reflected),
                refracted,
            )
        };
    let (s2, rf2, rr2): (S::Color, S::Color, S::Color) = choose|
        surface: S::Color,
        reflected: S::Color,
        refracted: S::Color,
    |
        {
            &&& surface == spec_surface(scene, comps, scene.spec_light_count() as int, init)
            &&& is_reflected_color(scene, comps, budget, reflected)
            &&& is_refracted_color(scene, comps, budget, refracted)
            &&& r2 == #[trigger] scene.spec_add_colors(
                scene.spec_add_colors(surface, reflected),
                refracted,
            )
        };
    lemma_reflected_color_unique(scene, comps, budget, rf1, rf2);
    lemma_refracted_color_unique(scene, comps, budget, rr1, rr2);
}

/// The reflected-color contract admits exactly one color for given
/// inputs.
pub proof fn lemma_reflected_color_unique<S: Scene>(
    scene: &S,
    comps: S::Comps,
    budget: int,
    r1: S::Color,
    r2: S::Color,
)
    requires
        is_reflected_color(scene, comps, budget, r1),
        is_reflected_color(scene, comps, budget, r2),
    ensures
        r1 == r2,
    decreases budget, 1int,
{
    if budget > 0 && scene.spec_is_reflective(comps) {
        let inner1: S::Color = choose|inner: S::Color|
            {
                &&& is_color_at_result(
                    scene,
                    scene.spec_reflect_ray(comps),
                    Seq::<Intersection>::empty(),
                    budget - 1,
                    inner,
                )
                &&& r1 == #[trigger] scene.spec_scale_reflected(comps, inner)
            };
        let inner2: S::Color = choose|inner: S::Color|
            {
                &&& is_color_at_result(
                    scene,
                    scene.spec_reflect_ray(comps),
                    Seq::<Intersection>::empty(),
                    budget - 1,
                    inner,
                )
                &&& r2 == #[trigger] scene.spec_scale_reflected(comps, inner)
            };
        lemma_color_at_result_unique(
            scene,
            scene.spec_reflect_ray(comps),
            Seq::<Intersection>::empty(),
            budget - 1,
            inner1,
            inner2,
        );
    }
}

/// The refracted-color contract admits exactly one color for given
/// inputs.
pub proof fn lemma_refracted_color_unique<S: Scene>(
    scene: &S,
    comps: S::Comps,
    budget: int,
    r1: S::Color,
    r2: S::Color,
)
    requires
        is_refracted_color(scene, comps, budget, r1),
        is_refracted_color(scene, comps, budget, r2),
    ensures
        r1 == r2,
    decreases budget, 1int,
{
    if budget > 0 && scene.spec_is_transparent(comps) {
        match scene.spec_refract_ray(comps) {
            None => {},
            Some(refract_ray) => {
                let inner1: S::Color = choose|inner: S::Color|
                    {
                        &&& is_color_at_result(
                            scene,
                            refract_ray,
                            Seq::<Intersection>::empty(),
                            budget - 1,
                            inner,
                        )
                        &&& r1 == #[trigger] scene.spec_scale_refracted(comps, inner)
                    };
                let inner2: S::Color = choose|inner: S::Color|
                    {
                        &&& is_color_at_result(
                            scene,
                            refract_ray,
                            Seq::<Intersection>::empty(),
                            budget - 1,
                            inner,
                        )
                        &&& r2 == #[trigger] scene.spec_scale_refracted(comps, inner)
                    };
                lemma_color_at_result_unique(
                    scene,
                    refract_ray,
                    Seq::<Intersection>::empty(),
                    budget - 1,
                    inner1,
                    inner2,
                );
            },
        }
    }
}

} // verus!
