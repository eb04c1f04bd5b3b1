use raytracer::camera::par_render;
use raytracer::camera::render;

#[test]
fn render_fills_every_pixel_from_its_coordinates() {
    let canvas = render(4, 3, |x: usize, y: usize| (x, y));
    assert_eq!(canvas.width(), 4);
    assert_eq!(canvas.height(), 3);
    for y in 0..3 {
        for x in 0..4 {
            assert_eq!(canvas.pixel_at(x, y).unwrap(), (x, y));
        }
    }
}

#[test]
fn render_empty_canvas() {
    let canvas = render(0, 5, |x: usize, y: usize| (x, y));
    assert_eq!(canvas.width(), 0);
    assert_eq!(canvas.height(), 5);
    let canvas = render(5, 0, |x: usize, y: usize| (x, y));
    assert_eq!(canvas.height(), 0);
}

#[test]
fn par_render_matches_render() {
    let shade = |x: usize, y: usize| (x as f64) * 0.25 + (y as f64) * 4.0;
    let sequential = render(17, 9, shade);
    let parallel = par_render(17, 9, shade);
    assert_eq!(sequential.width(), parallel.width());
    assert_eq!(sequential.height(), parallel.height());
    for y in 0..9 {
        for x in 0..17 {
            assert_eq!(
                sequential.pixel_at(x, y).unwrap(),
                parallel.pixel_at(x, y).unwrap()
            );
        }
    }
}

#[test]
fn par_render_fills_every_pixel_from_its_coordinates() {
    let canvas = par_render(31, 13, |x: usize, y: usize| 1000 * y + x);
    for y in 0..13 {
        for x in 0..31 {
            assert_eq!(canvas.pixel_at(x, y).unwrap(), 1000 * y + x);
        }
    }
}
