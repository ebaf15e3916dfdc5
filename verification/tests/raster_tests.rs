use rview::framebuffer::{Buffer, Framebuffer, DEPTH_INFINITY};
use rview::raster::{fill_triangle, ScreenPoint, SUBPIXEL};

fn pt(x: i32, y: i32, z: i32) -> ScreenPoint {
    ScreenPoint { x, y, z }
}

fn px(x: i32, y: i32, z: i32) -> ScreenPoint {
    ScreenPoint { x: x * SUBPIXEL, y: y * SUBPIXEL, z }
}

fn show(fb: &Framebuffer<char>) -> String {
    let mut out = String::new();
    fb.write_text(&mut out);
    out
}

#[test]
fn right_triangle_covers_the_pixel_centres_inside_it() {
    let mut fb = Framebuffer::new_with('.', 4, 4, '.');
    fill_triangle(&mut fb, px(0, 0, 0), px(4, 0, 0), px(0, 4, 0), '#');
    assert_eq!(show(&fb), "####\n###.\n##..\n#...");
}

#[test]
fn either_winding_covers_the_same_pixels() {
    let mut a = Framebuffer::new_with('.', 4, 4, '.');
    fill_triangle(&mut a, px(0, 0, 0), px(4, 0, 0), px(0, 4, 0), '#');
    let mut b = Framebuffer::new_with('.', 4, 4, '.');
    fill_triangle(&mut b, px(0, 0, 0), px(0, 4, 0), px(4, 0, 0), '#');
    assert_eq!(show(&a), show(&b));
    for y in 0..4 {
        for x in 0..4 {
            assert_eq!(a.get_depth(x, y), b.get_depth(x, y));
        }
    }
}

#[test]
fn depth_is_interpolated_from_the_corners() {
    let mut fb = Framebuffer::new_with('.', 4, 4, '.');
    fill_triangle(&mut fb, px(0, 0, 0), px(4, 0, 400), px(0, 4, 800), '#');
    // at the centre of pixel (x, y) the depth is 100 x + 200 y + 150
    assert_eq!(fb.get_depth(0, 0), Some(150));
    assert_eq!(fb.get_depth(1, 0), Some(250));
    assert_eq!(fb.get_depth(3, 0), Some(450));
    assert_eq!(fb.get_depth(1, 1), Some(450));
    assert_eq!(fb.get_depth(0, 3), Some(750));
    assert_eq!(fb.get_depth(3, 3), Some(DEPTH_INFINITY));
}

#[test]
fn interpolated_depth_is_rounded_down() {
    let mut fb = Framebuffer::new_with('.', 4, 4, '.');
    // depth (x + 0.5) / 4 lies strictly between 0 and 1
    fill_triangle(&mut fb, px(0, 0, 0), px(4, 0, 1), px(0, 4, 0), '#');
    assert_eq!(fb.get_depth(0, 0), Some(0));
    assert_eq!(fb.get_depth(3, 0), Some(0));
    let mut fb = Framebuffer::new_with('.', 4, 4, '.');
    // depth -(x + 0.5) / 4 lies strictly between -1 and 0
    fill_triangle(&mut fb, px(0, 0, 0), px(4, 0, -1), px(0, 4, 0), '#');
    assert_eq!(fb.get_depth(0, 0), Some(-1));
    assert_eq!(fb.get_depth(3, 0), Some(-1));
    // the same with the other winding
    let mut fb = Framebuffer::new_with('.', 4, 4, '.');
    fill_triangle(&mut fb, px(0, 0, 0), px(0, 4, 0), px(4, 0, -1), '#');
    assert_eq!(fb.get_depth(0, 0), Some(-1));
    assert_eq!(fb.get_depth(3, 0), Some(-1));
}

#[test]
fn a_pixel_centre_on_the_border_is_covered() {
    let mut fb = Framebuffer::new_with('.', 3, 3, '.');
    let h = SUBPIXEL / 2;
    // the corners are the centres of the pixels (0,0), (1,0) and (0,1)
    fill_triangle(&mut fb, pt(h, h, 7), pt(h + SUBPIXEL, h, 7), pt(h, h + SUBPIXEL, 7), '#');
    assert_eq!(show(&fb), "##.\n#..\n...");
    assert_eq!(fb.get_depth(0, 0), Some(7));
}

#[test]
fn a_triangle_between_pixel_centres_draws_nothing() {
    let mut fb = Framebuffer::new_with('.', 3, 3, '.');
    fill_triangle(&mut fb, pt(130, 130, 0), pt(250, 130, 0), pt(130, 250, 0), '#');
    assert_eq!(show(&fb), "...\n...\n...");
}

#[test]
fn a_triangle_without_area_draws_nothing() {
    let mut fb = Framebuffer::new_with('.', 4, 4, '.');
    fill_triangle(&mut fb, px(0, 0, 0), px(2, 2, 0), px(4, 4, 0), '#');
    fill_triangle(&mut fb, px(1, 1, 0), px(1, 1, 0), px(1, 1, 0), '#');
    fill_triangle(&mut fb, pt(128, 128, 0), pt(128, 128, 0), pt(640, 128, 0), '#');
    assert_eq!(show(&fb), "....\n....\n....\n....");
}

#[test]
fn a_triangle_is_clipped_to_the_grid() {
    let mut fb = Framebuffer::new_with('.', 3, 2, '.');
    fill_triangle(&mut fb, px(-10, -10, 0), px(30, -10, 0), px(-10, 30, 0), '#');
    assert_eq!(show(&fb), "###\n###");
    let mut fb = Framebuffer::new_with('.', 3, 2, '.');
    fill_triangle(&mut fb, px(-5, -5, 0), px(-1, -5, 0), px(-5, -1, 0), '#');
    fill_triangle(&mut fb, px(3, 0, 0), px(9, 0, 0), px(3, 9, 0), '#');
    fill_triangle(&mut fb, px(0, 2, 0), px(9, 2, 0), px(0, 9, 0), '#');
    assert_eq!(show(&fb), "...\n...");
}

#[test]
fn extreme_coordinates_are_handled() {
    // the half of the plane below the diagonal, as far as coordinates reach
    let mut fb = Framebuffer::new_with('.', 2, 2, '.');
    fill_triangle(
        &mut fb,
        pt(i32::MIN, i32::MIN, i32::MIN),
        pt(i32::MAX, i32::MIN, i32::MIN),
        pt(i32::MAX, i32::MAX, i32::MIN),
        '#',
    );
    assert_eq!(show(&fb), "##\n.#");
    assert_eq!(fb.get_depth(1, 1), Some(i32::MIN));
    assert_eq!(fb.get_depth(0, 1), Some(DEPTH_INFINITY));
    let mut fb = Framebuffer::new_with('.', 2, 2, '.');
    fill_triangle(
        &mut fb,
        pt(i32::MIN, i32::MIN, i32::MAX),
        pt(i32::MAX, i32::MIN, i32::MAX),
        pt(i32::MAX, i32::MAX, i32::MAX),
        '#',
    );
    // a depth at the far end of the range never lands
    assert_eq!(show(&fb), "..\n..");
    let mut fb = Framebuffer::new_with('.', 2, 2, '.');
    fill_triangle(
        &mut fb,
        pt(i32::MIN, i32::MIN, i32::MIN),
        pt(i32::MAX, i32::MIN, i32::MAX),
        pt(i32::MAX, i32::MAX, 0),
        '#',
    );
    assert_eq!(show(&fb), "##\n.#");
}

#[test]
fn an_empty_grid_is_left_empty() {
    let mut fb = Framebuffer::new_with('.', 0, 0, '.');
    fill_triangle(&mut fb, px(0, 0, 0), px(4, 0, 0), px(0, 4, 0), '#');
    assert_eq!(show(&fb), "");
}

#[test]
fn overlapping_triangles_show_the_nearer_one_in_either_order() {
    let near = (px(0, 0, 10), px(4, 0, 10), px(0, 4, 10), 'n');
    let far = (px(4, 4, 20), px(-1, 4, 20), px(4, -1, 20), 'f');
    let mut a = Framebuffer::new_with('.', 4, 4, '.');
    fill_triangle(&mut a, near.0, near.1, near.2, near.3);
    fill_triangle(&mut a, far.0, far.1, far.2, far.3);
    let mut b = Framebuffer::new_with('.', 4, 4, '.');
    fill_triangle(&mut b, far.0, far.1, far.2, far.3);
    fill_triangle(&mut b, near.0, near.1, near.2, near.3);
    assert_eq!(show(&a), show(&b));
    assert_eq!(show(&a), "nnnn\nnnnf\nnnff\nnfff");
    for y in 0..4 {
        for x in 0..4 {
            assert_eq!(a.get_depth(x, y), b.get_depth(x, y));
        }
    }
}

#[test]
fn a_farther_triangle_does_not_overwrite_what_is_there() {
    let mut fb = Framebuffer::new_with('.', 2, 2, '.');
    fb.set_pixel_with_depth(0, 0, 'o', 5);
    fill_triangle(&mut fb, px(0, 0, 5), px(4, 0, 5), px(0, 4, 5), '#');
    // equal depth does not win
    assert_eq!(show(&fb), "o#\n##");
    fill_triangle(&mut fb, px(0, 0, 4), px(4, 0, 4), px(0, 4, 4), '+');
    assert_eq!(show(&fb), "++\n++");
}

#[test]
fn barycentric_weights_of_a_sample_sum_to_the_area() {
    // the edge function as the rasterizer defines it
    fn edge(a: (i64, i64), b: (i64, i64), c: (i64, i64)) -> i64 {
        (c.0 - a.0) * (b.1 - a.1) - (c.1 - a.1) * (b.0 - a.0)
    }
    let (p0, p1, p2) = ((10, 20), (900, 75), (333, 812));
    let area = edge(p0, p1, p2);
    assert_ne!(area, 0);
    for y in 0..4 {
        for x in 0..4 {
            let c = (x * 256 + 128, y * 256 + 128);
            let sum = edge(p1, p2, c) + edge(p2, p0, c) + edge(p0, p1, c);
            assert_eq!(sum, area);
        }
    }
    // all vertex depths equal: every covered pixel gets exactly that depth,
    // whatever its weights are
    let mut fb = Framebuffer::new_with('.', 4, 4, '.');
    fill_triangle(&mut fb, pt(10, 20, 42), pt(900, 75, 42), pt(333, 812, 42), '#');
    let mut covered = 0;
    for y in 0..4 {
        for x in 0..4 {
            if fb.get_pixel(x, y) == Some('#') {
                covered += 1;
                assert_eq!(fb.get_depth(x, y), Some(42));
            }
        }
    }
    assert!(covered > 0);
}
