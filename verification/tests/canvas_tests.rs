use dezoomify::canvas::{blank_pixel, Canvas, Pixel, Tile};
use dezoomify::errors::ZoomError;
use dezoomify::vec2d::Vec2d;

fn v(x: u32, y: u32) -> Vec2d {
    Vec2d { x, y }
}

fn px(r: u8, g: u8, b: u8) -> Pixel {
    Pixel { r, g, b, a: 255 }
}

fn solid_tile(pos: Vec2d, size: Vec2d, p: Pixel) -> Tile {
    Tile { position: pos, size, pixels: vec![p; (size.x * size.y) as usize] }
}

#[test]
fn new_canvas_is_blank() {
    let c = Canvas::new(Some(v(4, 3)));
    assert_eq!(c.size(), v(4, 3));
    assert!(c.is_known_size());
    for y in 0..3 {
        for x in 0..4 {
            assert_eq!(c.get_pixel(x, y), blank_pixel());
        }
    }
}

#[test]
fn add_tile_copies_pixels() {
    let mut c = Canvas::new(Some(v(4, 4)));
    let t = solid_tile(v(1, 2), v(2, 1), px(9, 8, 7));
    assert!(c.add_tile(&t).is_ok());
    assert_eq!(c.get_pixel(1, 2), px(9, 8, 7));
    assert_eq!(c.get_pixel(2, 2), px(9, 8, 7));
    assert_eq!(c.get_pixel(0, 0), blank_pixel());
    assert_eq!(c.get_pixel(3, 2), blank_pixel());
}

#[test]
fn out_of_bounds_tile_is_rejected_and_canvas_unchanged() {
    let mut c = Canvas::new(Some(v(4, 4)));
    let good = solid_tile(v(0, 0), v(2, 2), px(1, 2, 3));
    assert!(c.add_tile(&good).is_ok());
    // bounding box (3..6, 3..4) exceeds the 4x4 canvas
    let bad = solid_tile(v(3, 3), v(3, 1), px(9, 9, 9));
    match c.add_tile(&bad) {
        Err(ZoomError::TileCopyError { x, y, twidth, theight, width, height }) => {
            assert_eq!((x, y, twidth, theight, width, height), (3, 3, 3, 1, 4, 4));
        }
        _ => panic!("an oversized tile must be rejected"),
    }
    // existing content is untouched
    assert_eq!(c.get_pixel(0, 0), px(1, 2, 3));
    assert_eq!(c.get_pixel(1, 1), px(1, 2, 3));
    assert_eq!(c.get_pixel(3, 3), blank_pixel());
}

#[test]
fn overlap_last_writer_wins() {
    let mut c = Canvas::new(Some(v(4, 4)));
    let first = solid_tile(v(0, 0), v(3, 3), px(1, 1, 1));
    let second = solid_tile(v(1, 1), v(3, 3), px(2, 2, 2));
    assert!(c.add_tile(&first).is_ok());
    assert!(c.add_tile(&second).is_ok());
    assert_eq!(c.get_pixel(0, 0), px(1, 1, 1));
    assert_eq!(c.get_pixel(1, 1), px(2, 2, 2));
    assert_eq!(c.get_pixel(2, 2), px(2, 2, 2));
    assert_eq!(c.get_pixel(3, 3), px(2, 2, 2));
}

#[test]
fn unknown_size_canvas_grows_to_bounding_box() {
    let mut c = Canvas::new(None);
    assert!(!c.is_known_size());
    assert_eq!(c.size(), v(0, 0));
    let t1 = solid_tile(v(0, 0), v(2, 2), px(1, 0, 0));
    assert!(c.add_tile(&t1).is_ok());
    assert_eq!(c.size(), v(2, 2));
    let t2 = solid_tile(v(3, 1), v(2, 2), px(0, 1, 0));
    assert!(c.add_tile(&t2).is_ok());
    assert_eq!(c.size(), v(5, 3));
    // old content kept, new region blank outside the new tile
    assert_eq!(c.get_pixel(0, 0), px(1, 0, 0));
    assert_eq!(c.get_pixel(3, 1), px(0, 1, 0));
    assert_eq!(c.get_pixel(4, 2), px(0, 1, 0));
    assert_eq!(c.get_pixel(2, 0), blank_pixel());
    assert_eq!(c.get_pixel(0, 2), blank_pixel());
}

#[test]
fn non_overlapping_merge_is_order_independent() {
    let tiles = vec![
        solid_tile(v(0, 0), v(2, 2), px(1, 0, 0)),
        solid_tile(v(2, 0), v(2, 2), px(0, 1, 0)),
        solid_tile(v(0, 2), v(2, 2), px(0, 0, 1)),
        solid_tile(v(2, 2), v(2, 2), px(1, 1, 0)),
    ];
    let mut c1 = Canvas::new(Some(v(4, 4)));
    for t in tiles.iter() {
        assert!(c1.add_tile(t).is_ok());
    }
    let mut c2 = Canvas::new(Some(v(4, 4)));
    for t in tiles.iter().rev() {
        assert!(c2.add_tile(t).is_ok());
    }
    for y in 0..4 {
        for x in 0..4 {
            assert_eq!(c1.get_pixel(x, y), c2.get_pixel(x, y));
        }
    }
}

#[test]
fn merge_tiles_batch_composites_all() {
    let tiles = vec![
        solid_tile(v(0, 0), v(2, 2), px(1, 0, 0)),
        solid_tile(v(2, 2), v(2, 2), px(0, 1, 0)),
    ];
    let mut c = Canvas::new(Some(v(4, 4)));
    c.merge_tiles(&tiles);
    assert_eq!(c.get_pixel(0, 0), px(1, 0, 0));
    assert_eq!(c.get_pixel(3, 3), px(0, 1, 0));
    assert_eq!(c.get_pixel(3, 0), blank_pixel());
}
