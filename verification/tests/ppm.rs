use raytracer::canvas::Canvas;
use raytracer::ppm::write_to_ppm;
use raytracer::ppm::Rgb;

/// Quantizes one float channel the way the scalar side of the renderer
/// does before handing pixels to the PPM encoder: clamp to [0, 1] and
/// scale to 0..=255.
fn convert_color(color: f64) -> u8 {
    if color > 1. {
        255
    } else if color <= 0. {
        0
    } else {
        (color * 255.).round() as u8
    }
}

fn rgb(red: f64, green: f64, blue: f64) -> Rgb {
    Rgb {
        red: convert_color(red),
        green: convert_color(green),
        blue: convert_color(blue),
    }
}

#[test]
fn header() {
    let c = Canvas::new_with_color(5, 3, rgb(0., 0., 0.));
    let ppm: String = write_to_ppm(c);
    let reference: String = "P3\n5 3\n255".to_string();
    assert!(ppm.contains(&reference));
}

#[test]
fn simple_values() {
    let mut c = Canvas::new_with_color(5, 3, rgb(0., 0., 0.));
    let c1 = rgb(1.5, 0., 0.);
    let c2 = rgb(0., 0.5, 0.);
    let c3 = rgb(-0.5, 0., 1.);
    c.write_pixel(0, 0, c1).unwrap();
    c.write_pixel(2, 1, c2).unwrap();
    c.write_pixel(4, 2, c3).unwrap();
    let ppm: String = write_to_ppm(c);

    let reference = "255 0 0 0 0 0 0 0 0 0 0 0 0 0 0 \n0 0 0 0 0 0 0 128 0 0 0 0 0 0 0 \n0 0 0 0 0 0 0 0 0 0 0 0 0 0 255 ";
    assert!(ppm.contains(reference));
}

#[test]
fn newline_70_chars() {
    let color = rgb(1., 0.8, 0.6);
    let c = Canvas::new_with_color(10, 2, color);
    let ppm: String = write_to_ppm(c);
    let reference = "255 204 153 255 204 153 255 204 153 255 204 153 255 204 153 255 204 \n153 255 204 153 255 204 153 255 204 153 255 204 153 \n255 204 153 255 204 153 255 204 153 255 204 153 255 204 153 255 204 \n153 255 204 153 255 204 153 255 204 153 255 204 153";
    assert!(ppm.contains(reference));
}

#[test]
fn end_is_newline() {
    let color = rgb(1., 0.8, 0.6);
    let c = Canvas::new_with_color(10, 2, color);
    let ppm: String = write_to_ppm(c);
    assert!(ppm.ends_with('\n'));
}

#[test]
fn empty_canvas_is_header_only() {
    let c: Canvas<Rgb> = Canvas::new_with_color(0, 0, Rgb { red: 0, green: 0, blue: 0 });
    assert_eq!(write_to_ppm(c), "P3\n0 0\n255\n");
}

#[test]
fn whole_file_of_a_tiny_canvas() {
    let mut c = Canvas::new_with_color(2, 2, Rgb { red: 0, green: 0, blue: 0 });
    c.write_pixel(1, 0, Rgb { red: 12, green: 255, blue: 3 }).unwrap();
    let ppm = write_to_ppm(c);
    assert_eq!(ppm, "P3\n2 2\n255\n0 0 0 12 255 3 \n0 0 0 0 0 0 \n");
}
