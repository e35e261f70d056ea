use std::io::Cursor;

use dezoomify::canvas::{blank_pixel, Canvas, Pixel};
use dezoomify::dezoomer::TileReference;
use dezoomify::errors::ZoomError;
use dezoomify::orchestrator::{
    decode_tile, final_status, process_batch, process_tile, DownloadStatus, ProgressCounter,
};
use dezoomify::vec2d::Vec2d;

fn v(x: u32, y: u32) -> Vec2d {
    Vec2d { x, y }
}

/// Encode a solid-colour PNG of the given size with the real codec.
fn png_bytes(w: u32, h: u32, rgba: [u8; 4]) -> Vec<u8> {
    let img = image::RgbaImage::from_pixel(w, h, image::Rgba(rgba));
    let mut out = Cursor::new(Vec::new());
    img.write_to(&mut out, image::ImageFormat::Png).expect("png encoding");
    out.into_inner()
}

fn reference(url: &str, x: u32, y: u32) -> TileReference {
    TileReference { url: String::from(url), position: v(x, y) }
}

#[test]
fn decode_tile_reads_real_pixels() {
    let bytes = png_bytes(2, 1, [10, 20, 30, 255]);
    let r = reference("https://example.com/t.png", 5, 6);
    let tile = decode_tile(&r, &Ok(bytes)).expect("a valid png decodes");
    assert_eq!(tile.position, v(5, 6));
    assert_eq!(tile.size, v(2, 1));
    assert_eq!(tile.pixels.len(), 2);
    assert_eq!(tile.pixels[0], Pixel { r: 10, g: 20, b: 30, a: 255 });
    assert_eq!(tile.pixels[1], Pixel { r: 10, g: 20, b: 30, a: 255 });
}

#[test]
fn decode_tile_rejects_garbage() {
    let r = reference("https://example.com/bad.png", 0, 0);
    match decode_tile(&r, &Ok(vec![1, 2, 3, 4])) {
        Err(ZoomError::TileDownloadError { uri, .. }) => {
            assert_eq!(uri, "https://example.com/bad.png");
        }
        _ => panic!("garbage bytes must not decode"),
    }
}

#[test]
fn transport_failure_is_a_download_error() {
    let r = reference("https://example.com/gone.png", 0, 0);
    let mut canvas = Canvas::new(Some(v(8, 8)));
    match process_tile(&mut canvas, &r, &Err(String::from("connection refused"))) {
        Err(ZoomError::TileDownloadError { uri, msg }) => {
            assert_eq!(uri, "https://example.com/gone.png");
            assert_eq!(msg, "connection refused");
        }
        _ => panic!("a transport failure is isolated per tile"),
    }
}

#[test]
fn oversized_decoded_tile_is_a_placement_error() {
    let r = reference("https://example.com/big.png", 6, 6);
    let mut canvas = Canvas::new(Some(v(8, 8)));
    let bytes = png_bytes(4, 4, [1, 1, 1, 255]);
    match process_tile(&mut canvas, &r, &Ok(bytes)) {
        Err(ZoomError::TileCopyError { x, y, twidth, theight, width, height }) => {
            assert_eq!((x, y, twidth, theight, width, height), (6, 6, 4, 4, 8, 8));
        }
        _ => panic!("a tile past the canvas edge is rejected"),
    }
}

#[test]
fn partial_failure_reports_success_count() {
    // four tiles, one undecodable: partial success 3 out of 4
    let refs = vec![
        reference("a", 0, 0),
        reference("b", 2, 0),
        reference("c", 0, 2),
        reference("d", 2, 2),
    ];
    let fetched = vec![
        Ok(png_bytes(2, 2, [1, 0, 0, 255])),
        Ok(png_bytes(2, 2, [0, 1, 0, 255])),
        Err(String::from("timeout")),
        Ok(png_bytes(2, 2, [0, 0, 1, 255])),
    ];
    let mut canvas = Canvas::new(Some(v(4, 4)));
    let mut progress = ProgressCounter::new(4);
    let successful = process_batch(&mut canvas, &refs, &fetched, &mut progress);
    assert_eq!(successful, 3);
    assert_eq!(progress.completed, 4);
    match final_status(successful, refs.len()) {
        Ok(DownloadStatus::Partial { successful, total }) => {
            assert_eq!((successful, total), (3, 4));
        }
        _ => panic!("three of four is a partial success"),
    }
}

#[test]
fn zero_successes_fail_the_run() {
    let refs = vec![reference("a", 0, 0), reference("b", 2, 0)];
    let fetched = vec![Err(String::from("down")), Ok(vec![0, 1, 2])];
    let mut canvas = Canvas::new(Some(v(4, 4)));
    let mut progress = ProgressCounter::new(2);
    let successful = process_batch(&mut canvas, &refs, &fetched, &mut progress);
    assert_eq!(successful, 0);
    assert_eq!(progress.completed, 2);
    assert!(matches!(final_status(0, 2), Err(ZoomError::NoTile)));
}

#[test]
fn full_success_is_reported_as_such() {
    assert!(matches!(final_status(4, 4), Ok(DownloadStatus::Full { total: 4 })));
}

fn quadrant_refs() -> Vec<TileReference> {
    vec![
        reference("q00", 0, 0),
        reference("q10", 50, 0),
        reference("q01", 0, 50),
        reference("q11", 50, 50),
    ]
}

#[test]
fn end_to_end_four_quadrants_fill_the_canvas() {
    // one level hinting 100x100, four 50x50 tiles: the canvas ends with no
    // blank region, whatever the completion order
    let refs = quadrant_refs();
    let colours: [[u8; 4]; 4] =
        [[1, 0, 0, 255], [0, 1, 0, 255], [0, 0, 1, 255], [1, 1, 0, 255]];
    let fetched: Vec<Result<Vec<u8>, String>> =
        colours.iter().map(|c| Ok(png_bytes(50, 50, *c))).collect();

    let mut canvas = Canvas::new(Some(v(100, 100)));
    let mut progress = ProgressCounter::new(4);
    let successful = process_batch(&mut canvas, &refs, &fetched, &mut progress);
    assert_eq!(successful, 4);
    assert!(matches!(final_status(successful, 4), Ok(DownloadStatus::Full { total: 4 })));

    // a second run in reversed completion order gives the identical image
    let refs_rev: Vec<TileReference> = quadrant_refs().into_iter().rev().collect();
    let fetched_rev: Vec<Result<Vec<u8>, String>> =
        colours.iter().rev().map(|c| Ok(png_bytes(50, 50, *c))).collect();
    let mut canvas_rev = Canvas::new(Some(v(100, 100)));
    let mut progress_rev = ProgressCounter::new(4);
    assert_eq!(process_batch(&mut canvas_rev, &refs_rev, &fetched_rev, &mut progress_rev), 4);

    for y in 0..100 {
        for x in 0..100 {
            let p = canvas.get_pixel(x, y);
            assert_ne!(p, blank_pixel(), "no region may stay empty");
            assert_eq!(p, canvas_rev.get_pixel(x, y));
        }
    }
    assert_eq!(canvas.get_pixel(25, 25), Pixel { r: 1, g: 0, b: 0, a: 255 });
    assert_eq!(canvas.get_pixel(75, 25), Pixel { r: 0, g: 1, b: 0, a: 255 });
    assert_eq!(canvas.get_pixel(25, 75), Pixel { r: 0, g: 0, b: 1, a: 255 });
    assert_eq!(canvas.get_pixel(75, 75), Pixel { r: 1, g: 1, b: 0, a: 255 });
}

#[test]
fn end_to_end_one_failed_quadrant_stays_blank() {
    // same setup, but the tile at (50,50) fails to decode: the run reports
    // 3 out of 4 and that quadrant stays blank
    let refs = quadrant_refs();
    let fetched: Vec<Result<Vec<u8>, String>> = vec![
        Ok(png_bytes(50, 50, [1, 0, 0, 255])),
        Ok(png_bytes(50, 50, [0, 1, 0, 255])),
        Ok(png_bytes(50, 50, [0, 0, 1, 255])),
        Ok(vec![9, 9, 9]),
    ];
    let mut canvas = Canvas::new(Some(v(100, 100)));
    let mut progress = ProgressCounter::new(4);
    let successful = process_batch(&mut canvas, &refs, &fetched, &mut progress);
    assert_eq!(successful, 3);
    match final_status(successful, 4) {
        Ok(DownloadStatus::Partial { successful, total }) => {
            assert_eq!((successful, total), (3, 4));
        }
        _ => panic!("three of four tiles downloaded"),
    }
    assert_eq!(canvas.get_pixel(25, 25), Pixel { r: 1, g: 0, b: 0, a: 255 });
    for y in 50..100 {
        for x in 50..100 {
            assert_eq!(canvas.get_pixel(x, y), blank_pixel());
        }
    }
}
