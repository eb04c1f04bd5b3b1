use raytracer::intersection::Intersection;
use raytracer::world::color_at;
use raytracer::world::in_shadow;
use raytracer::world::shadow_test;
use raytracer::world::shade_hit;
use raytracer::world::Scene;

/// A hall of mirrors: every ray hits a fully reflective surface, so the
/// only thing that stops the renderer is the recursion budget.  Colors
/// count how many surfaces were shaded.
struct MirrorBox;

impl Scene for MirrorBox {
    type Ray = ();
    type Color = u64;
    type Comps = ();

    fn intersect(&self, _ray: &(), intersections: &mut Vec<Intersection>) {
        intersections.push(Intersection::new(1, 0));
    }

    fn light_count(&self) -> usize {
        1
    }

    fn black(&self) -> u64 {
        0
    }

    fn add_colors(&self, a: u64, b: u64) -> u64 {
        a.saturating_add(b)
    }

    fn prepare_computations(
        &self,
        _ray: &(),
        _chosen: Intersection,
        _n1: Option<usize>,
        _n2: Option<usize>,
    ) {
    }

    fn shadow_ray(&self, _light: usize, _comps: &()) -> ((), i64) {
        ((), 0)
    }

    fn render_at(&self, _comps: &(), _light: usize, _in_shadow: bool, _ambient: bool) -> u64 {
        1
    }

    fn is_reflective(&self, _comps: &()) -> bool {
        true
    }

    fn reflect_ray(&self, _comps: &()) {}

    fn scale_reflected(&self, _comps: &(), color: u64) -> u64 {
        color
    }

    fn is_transparent(&self, _comps: &()) -> bool {
        false
    }

    fn refract_ray(&self, _comps: &()) -> Option<()> {
        None
    }

    fn scale_refracted(&self, _comps: &(), color: u64) -> u64 {
        color
    }
}

#[test]
fn infinite_recursion() {
    // Two fully reflective surfaces facing each other: the render
    // terminates because every bounce spends one unit of the budget,
    // and shades exactly budget + 1 surfaces.
    let scene = MirrorBox;
    let mut intersections = Vec::new();
    let shaded = color_at(&scene, &(), &mut intersections, 10);
    assert_eq!(shaded, 11);
}

#[test]
fn recursion_budget_zero_shades_one_surface() {
    let scene = MirrorBox;
    let mut intersections = Vec::new();
    let shaded = color_at(&scene, &(), &mut intersections, 0);
    assert_eq!(shaded, 1);
}

/// A scene made only of shadow geometry: each "ray" is the order key of
/// the one blocker the scene puts in its way, and every light sits at
/// distance key 10.
struct BlockerScene;

impl Scene for BlockerScene {
    type Ray = i64;
    type Color = Vec<(usize, bool, bool)>;
    type Comps = Vec<i64>;

    fn intersect(&self, ray: &i64, intersections: &mut Vec<Intersection>) {
        intersections.push(Intersection::new(*ray, 0));
    }

    fn light_count(&self) -> usize {
        3
    }

    fn black(&self) -> Vec<(usize, bool, bool)> {
        Vec::new()
    }

    fn add_colors(
        &self,
        mut a: Vec<(usize, bool, bool)>,
        b: Vec<(usize, bool, bool)>,
    ) -> Vec<(usize, bool, bool)> {
        a.extend(b);
        a
    }

    fn prepare_computations(
        &self,
        _ray: &i64,
        _chosen: Intersection,
        _n1: Option<usize>,
        _n2: Option<usize>,
    ) -> Vec<i64> {
        Vec::new()
    }

    fn shadow_ray(&self, light: usize, comps: &Vec<i64>) -> (i64, i64) {
        (comps[light], 10)
    }

    fn render_at(
        &self,
        _comps: &Vec<i64>,
        light: usize,
        in_shadow: bool,
        ambient: bool,
    ) -> Vec<(usize, bool, bool)> {
        vec![(light, in_shadow, ambient)]
    }

    fn is_reflective(&self, _comps: &Vec<i64>) -> bool {
        false
    }

    fn reflect_ray(&self, _comps: &Vec<i64>) -> i64 {
        0
    }

    fn scale_reflected(
        &self,
        _comps: &Vec<i64>,
        color: Vec<(usize, bool, bool)>,
    ) -> Vec<(usize, bool, bool)> {
        color
    }

    fn is_transparent(&self, _comps: &Vec<i64>) -> bool {
        false
    }

    fn refract_ray(&self, _comps: &Vec<i64>) -> Option<i64> {
        None
    }

    fn scale_refracted(
        &self,
        _comps: &Vec<i64>,
        color: Vec<(usize, bool, bool)>,
    ) -> Vec<(usize, bool, bool)> {
        color
    }
}

#[test]
fn shadow_test_compares_nearest_forward_hit_to_the_light() {
    // Nearest forward hit at key 5: blocked for a light at distance
    // key 6, clear for one at distance key 4, and behind-the-origin
    // hits never block.
    let mut xs = vec![
        Intersection::new(7, 0),
        Intersection::new(-3, 1),
        Intersection::new(5, 2),
    ];
    assert!(shadow_test(&mut xs, 6));
    assert!(xs.is_empty());
    let mut xs = vec![
        Intersection::new(7, 0),
        Intersection::new(-3, 1),
        Intersection::new(5, 2),
    ];
    assert!(!shadow_test(&mut xs, 4));
    let mut xs = vec![Intersection::new(-3, 1)];
    assert!(!shadow_test(&mut xs, 10));
}

#[test]
fn in_shadow_blocker_between_point_and_light() {
    let scene = BlockerScene;
    let mut intersections = Vec::new();
    // The blocker sits at key 5, the light at distance key 10.
    let comps = vec![5, 5, 5];
    assert!(in_shadow(&scene, 0, &comps, &mut intersections));
    assert!(intersections.is_empty());
}

#[test]
fn in_shadow_blocker_behind_light() {
    let scene = BlockerScene;
    let mut intersections = Vec::new();
    // The blocker sits past the light: key 15 against distance key 10.
    let comps = vec![15, 15, 15];
    assert!(!in_shadow(&scene, 0, &comps, &mut intersections));
}

#[test]
fn in_shadow_blocker_behind_point() {
    let scene = BlockerScene;
    let mut intersections = Vec::new();
    // The blocker sits behind the shadow ray's origin: a negative key.
    let comps = vec![-3, -3, -3];
    assert!(!in_shadow(&scene, 0, &comps, &mut intersections));
}

#[test]
fn shade_hit_gives_ambient_to_the_first_light_only() {
    let scene = BlockerScene;
    let mut intersections = Vec::new();
    // Lights 0 and 2 are clear, light 1 is blocked.
    let comps = vec![15, 5, 15];
    let color = shade_hit(&scene, &comps, &mut intersections, 0);
    assert_eq!(color, vec![(0, false, true), (1, true, false), (2, false, false)]);
}

/// Three nested glass spheres reported out of order, one light, no
/// reflection: the color reports which media the chosen hit crosses.
struct GlassStackReporter;

impl Scene for GlassStackReporter {
    type Ray = ();
    type Color = Option<(Option<usize>, Option<usize>)>;
    type Comps = (Option<usize>, Option<usize>);

    fn intersect(&self, _ray: &(), intersections: &mut Vec<Intersection>) {
        // Deliberately unsorted; `color_at` must sort before choosing
        // the hit and walking the containers.
        intersections.push(Intersection::new(600, 0));
        intersections.push(Intersection::new(275, 1));
        intersections.push(Intersection::new(-50, 2));
        intersections.push(Intersection::new(200, 0));
        intersections.push(Intersection::new(525, 2));
        intersections.push(Intersection::new(475, 1));
    }

    fn light_count(&self) -> usize {
        1
    }

    fn black(&self) -> Self::Color {
        None
    }

    fn add_colors(&self, a: Self::Color, b: Self::Color) -> Self::Color {
        a.or(b)
    }

    fn prepare_computations(
        &self,
        _ray: &(),
        _chosen: Intersection,
        n1: Option<usize>,
        n2: Option<usize>,
    ) -> Self::Comps {
        (n1, n2)
    }

    fn shadow_ray(&self, _light: usize, _comps: &Self::Comps) -> ((), i64) {
        ((), 0)
    }

    fn render_at(
        &self,
        comps: &Self::Comps,
        _light: usize,
        _in_shadow: bool,
        _ambient: bool,
    ) -> Self::Color {
        Some(*comps)
    }

    fn is_reflective(&self, _comps: &Self::Comps) -> bool {
        false
    }

    fn reflect_ray(&self, _comps: &Self::Comps) {}

    fn scale_reflected(&self, _comps: &Self::Comps, color: Self::Color) -> Self::Color {
        color
    }

    fn is_transparent(&self, _comps: &Self::Comps) -> bool {
        false
    }

    fn refract_ray(&self, _comps: &Self::Comps) -> Option<()> {
        None
    }

    fn scale_refracted(&self, _comps: &Self::Comps, color: Self::Color) -> Self::Color {
        color
    }
}

#[test]
fn color_at_sorts_chooses_the_hit_and_reads_its_media() {
    let scene = GlassStackReporter;
    let mut intersections = Vec::new();
    let color = color_at(&scene, &(), &mut intersections, 5);
    // The nearest forward hit has key 200.  The crossing behind the ray
    // origin (key -50) counts for the container walk: the ray starts
    // inside object 2 and enters object 0.
    assert_eq!(color, Some((Some(2), Some(0))));
}

/// A scene with nothing in it: every ray misses.
struct Empty;
impl Scene for Empty {
    type Ray = ();
    type Color = u64;
    type Comps = ();

    fn intersect(&self, _ray: &(), _intersections: &mut Vec<Intersection>) {}

    fn light_count(&self) -> usize {
        1
    }

    fn black(&self) -> u64 {
        7
    }

    fn add_colors(&self, a: u64, b: u64) -> u64 {
        a + b
    }

    fn prepare_computations(
        &self,
        _ray: &(),
        _chosen: Intersection,
        _n1: Option<usize>,
        _n2: Option<usize>,
    ) {
    }

    fn shadow_ray(&self, _light: usize, _comps: &()) -> ((), i64) {
        ((), 0)
    }

    fn render_at(&self, _comps: &(), _light: usize, _in_shadow: bool, _ambient: bool) -> u64 {
        1
    }

    fn is_reflective(&self, _comps: &()) -> bool {
        false
    }

    fn reflect_ray(&self, _comps: &()) {}

    fn scale_reflected(&self, _comps: &(), color: u64) -> u64 {
        color
    }

    fn is_transparent(&self, _comps: &()) -> bool {
        false
    }

    fn refract_ray(&self, _comps: &()) -> Option<()> {
        None
    }

    fn scale_refracted(&self, _comps: &(), color: u64) -> u64 {
        color
    }
}

#[test]
fn color_at_without_a_hit_is_black() {
    let scene = Empty;
    let mut intersections = Vec::new();
    // No hit: the scene's black, untouched by any light.
    assert_eq!(color_at(&scene, &(), &mut intersections, 5), 7);
}
