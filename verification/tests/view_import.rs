use sciproj::formats::view_import::{cels_bounds, swap_clear_key, view_canvas, CelPlacement};

fn cel(x: i32, y: i32, w: u16, h: u16) -> CelPlacement {
    CelPlacement { displace_x: x, displace_y: y, width: w, height: h }
}

#[test]
fn the_canvas_holds_every_cel() {
    let cels = vec![cel(-3, -10, 6, 10), cel(-2, -12, 5, 11), cel(0, 0, 1, 1)];
    assert_eq!(cels_bounds(&cels), (-3, -12, 3, 1));
    assert_eq!(view_canvas(&cels), (3, 12, 6, 13));
}

#[test]
fn no_cels_keep_the_widest_box() {
    assert_eq!(cels_bounds(&Vec::new()), (i32::MAX, i32::MAX, i32::MIN, i32::MIN));
}

#[test]
fn the_clear_key_trades_places_with_255() {
    let mut pixels = vec![7, 255, 3, 7];
    swap_clear_key(&mut pixels, 7);
    assert_eq!(pixels, vec![255, 7, 3, 255]);
    swap_clear_key(&mut pixels, 7);
    assert_eq!(pixels, vec![7, 255, 3, 7]);
}
