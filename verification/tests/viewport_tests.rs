use rview::raster::{ScreenPoint, SUBPIXEL};
use rview::viewport::{project_to_screen, NdcPoint, DEPTH_ONE, NDC_ONE};

fn ndc(x: i32, y: i32, z: i32) -> NdcPoint {
    NdcPoint { x, y, z }
}

#[test]
fn the_centre_of_the_device_square_is_the_centre_of_the_screen() {
    let p = project_to_screen(ndc(0, 0, 5), 80, 24);
    assert_eq!(p, ScreenPoint { x: 40 * SUBPIXEL, y: 12 * SUBPIXEL, z: 5 });
}

#[test]
fn the_corners_of_the_device_square_are_the_corners_of_the_screen() {
    // y points up in device space and down on the screen
    assert_eq!(project_to_screen(ndc(-NDC_ONE, NDC_ONE, 0), 80, 24), ScreenPoint { x: 0, y: 0, z: 0 });
    assert_eq!(
        project_to_screen(ndc(NDC_ONE, -NDC_ONE, DEPTH_ONE), 80, 24),
        ScreenPoint { x: 80 * SUBPIXEL, y: 24 * SUBPIXEL, z: DEPTH_ONE }
    );
    assert_eq!(
        project_to_screen(ndc(-NDC_ONE, -NDC_ONE, -3), 80, 24),
        ScreenPoint { x: 0, y: 24 * SUBPIXEL, z: -3 }
    );
}

#[test]
fn screen_coordinates_follow_the_mapping_formula() {
    // x = (ndc.x + 1) / 2 * width, y = (1 - ndc.y) / 2 * height
    let p = project_to_screen(ndc(NDC_ONE / 2, NDC_ONE / 4, 1), 100, 40);
    assert_eq!(p.x, 75 * SUBPIXEL);
    assert_eq!(p.y, 15 * SUBPIXEL);
    let p = project_to_screen(ndc(-NDC_ONE / 2, -NDC_ONE / 4, 1), 100, 40);
    assert_eq!(p.x, 25 * SUBPIXEL);
    assert_eq!(p.y, 25 * SUBPIXEL);
}

#[test]
fn screen_coordinates_are_rounded_down() {
    // one step right of the left edge on a screen one pixel wide: 256 / 131072
    assert_eq!(project_to_screen(ndc(-NDC_ONE + 1, 0, 0), 1, 1).x, 0);
    assert_eq!(project_to_screen(ndc(-NDC_ONE + 511, 0, 0), 1, 1).x, 0);
    assert_eq!(project_to_screen(ndc(-NDC_ONE + 512, 0, 0), 1, 1).x, 1);
    // left of the left edge the coordinate is negative, and still rounded down
    assert_eq!(project_to_screen(ndc(-NDC_ONE - 1, 0, 0), 1, 1).x, -1);
    assert_eq!(project_to_screen(ndc(-NDC_ONE - 512, 0, 0), 1, 1).x, -1);
    assert_eq!(project_to_screen(ndc(-NDC_ONE - 513, 0, 0), 1, 1).x, -2);
    assert_eq!(project_to_screen(ndc(0, NDC_ONE + 1, 0), 1, 1).y, -1);
}

#[test]
fn a_screen_without_extent_maps_everything_to_zero() {
    assert_eq!(project_to_screen(ndc(123, -456, 9), 0, 0), ScreenPoint { x: 0, y: 0, z: 9 });
}

#[test]
fn coordinates_beyond_the_range_are_held_at_its_ends() {
    let p = project_to_screen(ndc(i32::MAX, i32::MAX, i32::MAX), 1_000_000, 1_000_000);
    assert_eq!(p, ScreenPoint { x: i32::MAX, y: i32::MIN, z: i32::MAX });
    let p = project_to_screen(ndc(i32::MIN, i32::MIN, i32::MIN), 1_000_000, 1_000_000);
    assert_eq!(p, ScreenPoint { x: i32::MIN, y: i32::MAX, z: i32::MIN });
    let p = project_to_screen(ndc(i32::MAX, i32::MIN, 0), usize::MAX, usize::MAX);
    assert_eq!(p, ScreenPoint { x: i32::MAX, y: i32::MAX, z: 0 });
}
