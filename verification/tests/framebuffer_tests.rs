use rview::framebuffer::{Buffer, Framebuffer, DEPTH_INFINITY};

fn text_of(fb: &Framebuffer<char>) -> String {
    let mut out = String::new();
    fb.write_text(&mut out);
    out
}

#[test]
fn new_framebuffer_holds_the_fill_glyph_at_infinite_depth() {
    let fb = Framebuffer::new_with('.', 3, 2, ' ');
    assert_eq!(fb.width(), 3);
    assert_eq!(fb.height(), 2);
    for y in 0..2 {
        for x in 0..3 {
            assert_eq!(fb.get_pixel(x, y), Some('.'));
            assert_eq!(fb.get_depth(x, y), Some(DEPTH_INFINITY));
        }
    }
    assert_eq!(fb.get_pixel(3, 1), None);
    assert_eq!(fb.get_pixel(0, 2), None);
    assert_eq!(fb.get_depth(3, 0), None);
}

#[test]
fn nearer_write_lands_and_farther_write_does_not() {
    let mut fb = Framebuffer::new_with(' ', 4, 3, ' ');
    fb.set_pixel_with_depth(1, 2, 'a', 100);
    assert_eq!(fb.get_pixel(1, 2), Some('a'));
    assert_eq!(fb.get_depth(1, 2), Some(100));
    fb.set_pixel_with_depth(1, 2, 'b', 100);
    assert_eq!(fb.get_pixel(1, 2), Some('a'));
    fb.set_pixel_with_depth(1, 2, 'c', 101);
    assert_eq!(fb.get_pixel(1, 2), Some('a'));
    fb.set_pixel_with_depth(1, 2, 'd', 99);
    assert_eq!(fb.get_pixel(1, 2), Some('d'));
    assert_eq!(fb.get_depth(1, 2), Some(99));
    // no other cell was touched
    assert_eq!(fb.get_pixel(2, 1), Some(' '));
    assert_eq!(fb.get_pixel(1, 1), Some(' '));
    assert_eq!(fb.get_depth(2, 2), Some(DEPTH_INFINITY));
}

#[test]
fn write_at_infinite_depth_never_lands() {
    let mut fb = Framebuffer::new_with(' ', 2, 2, ' ');
    fb.set_pixel_with_depth(0, 0, 'x', DEPTH_INFINITY);
    assert_eq!(fb.get_pixel(0, 0), Some(' '));
    fb.set_pixel_with_depth(0, 0, 'x', DEPTH_INFINITY - 1);
    assert_eq!(fb.get_pixel(0, 0), Some('x'));
}

#[test]
fn writes_outside_the_grid_are_ignored() {
    let mut fb = Framebuffer::new_with(' ', 3, 2, ' ');
    let before = text_of(&fb);
    fb.set_pixel_with_depth(-1, 0, 'x', 0);
    fb.set_pixel_with_depth(0, -1, 'x', 0);
    fb.set_pixel_with_depth(3, 0, 'x', 0);
    fb.set_pixel_with_depth(0, 2, 'x', 0);
    fb.set_pixel_with_depth(i64::MAX, i64::MIN, 'x', 0);
    // a column beyond the width must not wrap into the next row
    fb.set_pixel_with_depth(4, 0, 'x', 0);
    assert_eq!(text_of(&fb), before);
    assert_eq!(before, "   \n   ");
}

#[test]
fn clear_resets_every_cell_to_background_and_infinite_depth() {
    let mut fb = Framebuffer::new_with('.', 3, 2, '#');
    fb.set_pixel_with_depth(0, 0, 'a', 5);
    fb.set_pixel_with_depth(2, 1, 'b', -7);
    fb.clear();
    for y in 0..2 {
        for x in 0..3 {
            assert_eq!(fb.get_pixel(x, y), Some('#'));
            assert_eq!(fb.get_depth(x, y), Some(DEPTH_INFINITY));
        }
    }
    assert_eq!(fb.width(), 3);
    assert_eq!(fb.height(), 2);
    // after a clear any finite depth lands again
    fb.set_pixel_with_depth(0, 0, 'z', DEPTH_INFINITY - 1);
    assert_eq!(fb.get_pixel(0, 0), Some('z'));
}

#[test]
fn depth_test_does_not_depend_on_the_order_of_writes() {
    let mut first = Framebuffer::new_with(' ', 2, 2, ' ');
    first.set_pixel_with_depth(1, 1, 'n', 10);
    first.set_pixel_with_depth(1, 1, 'f', 20);
    let mut second = Framebuffer::new_with(' ', 2, 2, ' ');
    second.set_pixel_with_depth(1, 1, 'f', 20);
    second.set_pixel_with_depth(1, 1, 'n', 10);
    assert_eq!(first.get_pixel(1, 1), Some('n'));
    assert_eq!(second.get_pixel(1, 1), Some('n'));
    assert_eq!(first.get_depth(1, 1), Some(10));
    assert_eq!(second.get_depth(1, 1), Some(10));
}

#[test]
fn frame_text_is_row_major_with_line_breaks_between_rows() {
    let mut fb = Framebuffer::new_with('.', 3, 2, ' ');
    fb.set_pixel_with_depth(0, 0, 'a', 0);
    fb.set_pixel_with_depth(2, 0, 'b', 0);
    fb.set_pixel_with_depth(1, 1, 'c', 0);
    assert_eq!(text_of(&fb), "a.b\n.c.");
}

#[test]
fn frame_text_is_appended_to_what_the_writer_holds() {
    let fb = Framebuffer::new_with('x', 2, 1, ' ');
    let mut out = String::from(">");
    fb.write_text(&mut out);
    assert_eq!(out, ">xx");
}

#[test]
fn frame_text_of_degenerate_grids() {
    assert_eq!(text_of(&Framebuffer::new_with('x', 0, 0, ' ')), "");
    assert_eq!(text_of(&Framebuffer::new_with('x', 3, 0, ' ')), "");
    assert_eq!(text_of(&Framebuffer::new_with('x', 0, 3, ' ')), "\n\n");
    assert_eq!(text_of(&Framebuffer::new_with('x', 1, 1, ' ')), "x");
    assert_eq!(text_of(&Framebuffer::new_with('x', 1, 3, ' ')), "x\nx\nx");
}

#[test]
fn framebuffer_holds_cells_of_any_copy_type() {
    let mut fb: Framebuffer<u8> = Framebuffer::new_with(0, 2, 2, 9);
    fb.set_pixel_with_depth(1, 0, 7, 3);
    assert_eq!(fb.get_pixel(1, 0), Some(7));
    fb.clear();
    assert_eq!(fb.get_pixel(1, 0), Some(9));
}
