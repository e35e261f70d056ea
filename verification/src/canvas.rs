use vstd::prelude::*;

use crate::errors::ZoomError;
use crate::vec2d::Vec2d;

verus! {

/// One RGBA pixel of the output raster.
#[derive(Clone, Copy, PartialEq, Eq, Structural, Debug)]
pub struct Pixel {
    pub r: u8,
    pub g: u8,
    pub b: u8,
    pub a: u8,
}

/// The pixel every canvas position holds before a tile covers it.
pub open spec fn spec_blank_pixel() -> Pixel {
    Pixel { r: 0, g: 0, b: 0, a: 0 }
}

pub fn blank_pixel() -> (p: Pixel)
    ensures
        p == spec_blank_pixel(),
{
    Pixel { r: 0, g: 0, b: 0, a: 0 }
}

/// A successfully downloaded and decoded tile: the canvas position of its
/// top-left corner, its own dimensions, and its pixels in row-major order.
pub struct Tile {
    pub position: Vec2d,
    pub size: Vec2d,
    pub pixels: Vec<Pixel>,
}

impl Tile {
    /// The pixel buffer holds exactly one pixel per coordinate.
    pub open spec fn wf(self) -> bool {
        self.pixels@.len() == self.size.x * self.size.y
    }

    /// The tile's own pixel in column `dx`, row `dy`.
    pub open spec fn pixel_at(self, dx: int, dy: int) -> Pixel {
        self.pixels@[dy * self.size.x + dx]
    }

    /// Whether the tile covers the absolute canvas coordinate `(x, y)`.
    pub open spec fn covers(self, x: int, y: int) -> bool {
        &&& self.position.x <= x < self.position.x + self.size.x
        &&& self.position.y <= y < self.position.y + self.size.y
    }

    /// The tile's pixel at the absolute canvas coordinate `(x, y)`.
    pub open spec fn covered_pixel(self, x: int, y: int) -> Pixel {
        self.pixel_at(x - self.position.x, y - self.position.y)
    }

    /// Whether the tile's bounding box lies within a canvas of that size.
    pub open spec fn fits_in(self, size: Vec2d) -> bool {
        &&& self.position.x + self.size.x <= size.x
        &&& self.position.y + self.size.y <= size.y
    }
}

/// The width the canvas must have to hold a tile of size `tsize` at
/// `pos`: grown to the tile's bounding box when that reaches past the
/// current edge.
pub open spec fn grown_width(size: Vec2d, pos: Vec2d, tsize: Vec2d) -> int {
    if size.x >= pos.x + tsize.x {
        size.x as int
    } else {
        pos.x + tsize.x
    }
}

/// Like `grown_width`, for the height.
pub open spec fn grown_height(size: Vec2d, pos: Vec2d, tsize: Vec2d) -> int {
    if size.y >= pos.y + tsize.y {
        size.y as int
    } else {
        pos.y + tsize.y
    }
}

/// Whether a tile of size `tsize` at `pos` can be merged at all. On a
/// known-size canvas only tiles whose bounding box lies within the raster
/// can; an unknown-size canvas grows instead, and refuses only a tile that
/// would push a dimension past `u32::MAX` or the pixel count past
/// `usize::MAX` (platform capacity).
pub open spec fn placeable(size: Vec2d, fixed: bool, pos: Vec2d, tsize: Vec2d) -> bool {
    if fixed {
        &&& pos.x + tsize.x <= size.x
        &&& pos.y + tsize.y <= size.y
    } else {
        &&& pos.x + tsize.x <= u32::MAX
        &&& pos.y + tsize.y <= u32::MAX
        &&& grown_width(size, pos, tsize) * grown_height(size, pos, tsize) <= usize::MAX
    }
}

proof fn lemma_row_major_bound(x: int, y: int, w: int, h: int)
    requires
        0 <= x < w,
        0 <= y < h,
    ensures
        0 <= y * w + x < w * h,
{
    assert(0 <= y * w + x < w * h) by (nonlinear_arith)
        requires
            0 <= x < w,
            0 <= y < h,
    ;
}

proof fn lemma_row_major_injective(x1: int, y1: int, x2: int, y2: int, w: int)
    requires
        0 <= x1 < w,
        0 <= x2 < w,
        0 <= y1,
        0 <= y2,
        y1 * w + x1 == y2 * w + x2,
    ensures
        x1 == x2,
        y1 == y2,
{
    assert(x1 == x2 && y1 == y2) by (nonlinear_arith)
        requires
            0 <= x1 < w,
            0 <= x2 < w,
            0 <= y1,
            0 <= y2,
            y1 * w + x1 == y2 * w + x2,
    ;
}

proof fn lemma_mul_u32_fits(a: int, b: int)
    requires
        0 <= a <= u32::MAX,
        0 <= b <= u32::MAX,
    ensures
        0 <= a * b <= u32::MAX * u32::MAX,
{
    assert(0 <= a * b <= u32::MAX * u32::MAX) by (nonlinear_arith)
        requires
            0 <= a <= u32::MAX,
            0 <= b <= u32::MAX,
    ;
}

/// One cell of a grown raster holds what the growth contract demands:
/// the old pixel where the old raster reached, blank elsewhere.
pub open spec fn grown_cell(np: Seq<Pixel>, c0: Canvas, nw: int, x: int, y: int) -> bool {
    np[y * nw + x] == (if x < c0.spec_size().x && y < c0.spec_size().y {
        c0.pixel(x, y)
    } else {
        spec_blank_pixel()
    })
}

/// The mutable raster surface tiles are merged onto. Constructed either at
/// a known final size, which every tile must then respect, or without one,
/// in which case it starts empty and grows to the bounding box of the
/// tiles placed so far (blank outside them). Overlapping tiles are merged
/// last-writer-wins, with no blending.
pub struct Canvas {
    size: Vec2d,
    fixed: bool,
    pixels: Vec<Pixel>,
}

impl Canvas {
    /// The raster holds exactly one pixel per coordinate.
    pub closed spec fn wf(self) -> bool {
        self.pixels@.len() == self.size.x * self.size.y
    }

    /// The current raster dimensions.
    pub closed spec fn spec_size(self) -> Vec2d {
        self.size
    }

    /// Whether the canvas was constructed at a known final size.
    pub closed spec fn is_fixed(self) -> bool {
        self.fixed
    }

    /// The raster pixel at `(x, y)`, row-major.
    pub closed spec fn pixel(self, x: int, y: int) -> Pixel {
        self.pixels@[y * self.size.x + x]
    }

    /// A blank canvas: preallocated at the hinted size when one is known,
    /// empty and growable otherwise.
    pub fn new(size_hint: Option<Vec2d>) -> (r: Canvas)
        requires
            size_hint matches Some(s) ==> s.x * s.y <= usize::MAX,
        ensures
            r.wf(),
            match size_hint {
                Some(s) => r.spec_size() == s && r.is_fixed(),
                None => r.spec_size() == (Vec2d { x: 0, y: 0 }) && !r.is_fixed(),
            },
            forall|x: int, y: int|
                0 <= x < r.spec_size().x && 0 <= y < r.spec_size().y ==> r.pixel(x, y)
                    == spec_blank_pixel(),
    {
        match size_hint {
            Some(s) => {
                let n64 = s.area();
                let n = n64 as usize;
                let pixels = vec![blank_pixel(); n];
                let r = Canvas { size: s, fixed: true, pixels };
                proof {
                    assert forall|x: int, y: int|
                        0 <= x < r.spec_size().x && 0 <= y < r.spec_size().y implies r.pixel(x, y)
                        == spec_blank_pixel() by {
                        lemma_row_major_bound(x, y, r.size.x as int, r.size.y as int);
                    }
                }
                r
            }
            None => Canvas { size: Vec2d { x: 0, y: 0 }, fixed: false, pixels: Vec::new() },
        }
    }

    pub fn size(&self) -> (r: Vec2d)
        ensures
            r == self.spec_size(),
    {
        self.size
    }

    pub fn is_known_size(&self) -> (r: bool)
        ensures
            r == self.is_fixed(),
    {
        self.fixed
    }

    /// Read one pixel of the raster.
    pub fn get_pixel(&self, x: u32, y: u32) -> (p: Pixel)
        requires
            self.wf(),
            x < self.spec_size().x,
            y < self.spec_size().y,
        ensures
            p == self.pixel(x as int, y as int),
    {
        proof {
            lemma_row_major_bound(x as int, y as int, self.size.x as int, self.size.y as int);
            lemma_mul_u32_fits(y as int, self.size.x as int);
        }
        let _len = self.pixels.len();
        let idx64 = (y as u64) * (self.size.x as u64) + (x as u64);
        let idx = idx64 as usize;
        self.pixels[idx]
    }

    /// Reallocate the raster at a larger size, keeping every existing
    /// pixel at its coordinate and blanking the new region.
    fn grow(&mut self, nw: u32, nh: u32)
        requires
            old(self).wf(),
            nw >= old(self).spec_size().x,
            nh >= old(self).spec_size().y,
            nw * nh <= usize::MAX,
        ensures
            final(self).wf(),
            final(self).spec_size() == (Vec2d { x: nw, y: nh }),
            final(self).is_fixed() == old(self).is_fixed(),
            forall|x: int, y: int|
                0 <= x < nw && 0 <= y < nh ==> #[trigger] final(self).pixel(x, y) == (if x < old(
                    self,
                ).spec_size().x && y < old(self).spec_size().y {
                    old(self).pixel(x, y)
                } else {
                    spec_blank_pixel()
                }),
    {
        let ghost c0 = *self;
        let mut np: Vec<Pixel> = Vec::new();
        let mut y: u32 = 0;
        while y < nh
            invariant
                *self == c0,
                c0.wf(),
                0 <= y <= nh,
                nw >= c0.spec_size().x,
                nh >= c0.spec_size().y,
                nw * nh <= usize::MAX,
                np@.len() == y * nw,
                forall|x2: int, y2: int|
                    0 <= x2 < nw && 0 <= y2 < y ==> #[trigger] grown_cell(np@, c0, nw as int, x2, y2),
            decreases nh - y,
        {
            proof {
                assert(y * nw + nw == (y + 1) * nw) by (nonlinear_arith);
                assert((y + 1) * nw <= nh * nw) by (nonlinear_arith)
                    requires
                        0 <= y < nh,
                ;
                assert(nh * nw == nw * nh) by (nonlinear_arith);
            }
            let mut x: u32 = 0;
            while x < nw
                invariant
                    *self == c0,
                    c0.wf(),
                    0 <= x <= nw,
                    0 <= y < nh,
                    nw >= c0.spec_size().x,
                    nh >= c0.spec_size().y,
                    nw * nh <= usize::MAX,
                    y * nw + nw == (y + 1) * nw,
                    (y + 1) * nw <= nw * nh,
                    np@.len() == y * nw + x,
                    forall|x2: int, y2: int|
                        0 <= x2 < nw && 0 <= y2 < y ==> #[trigger] grown_cell(np@, c0, nw as int, x2, y2),
                    forall|x2: int|
                        0 <= x2 < x ==> #[trigger] grown_cell(np@, c0, nw as int, x2, y as int),
                decreases nw - x,
            {
                let p = if x < self.size.x && y < self.size.y {
                    proof {
                        lemma_row_major_bound(
                            x as int,
                            y as int,
                            self.size.x as int,
                            self.size.y as int,
                        );
                        lemma_mul_u32_fits(y as int, self.size.x as int);
                    }
                    let _len = self.pixels.len();
                    let idx64 = (y as u64) * (self.size.x as u64) + (x as u64);
                    let idx = idx64 as usize;
                    self.pixels[idx]
                } else {
                    blank_pixel()
                };
                let ghost before = np@;
                np.push(p);
                proof {
                    assert forall|x2: int, y2: int|
                        0 <= x2 < nw && 0 <= y2 < y implies #[trigger] grown_cell(
                        np@,
                        c0,
                        nw as int,
                        x2,
                        y2,
                    ) by {
                        lemma_row_major_bound(x2, y2, nw as int, y as int);
                        assert((nw as int) * (y as int) == (y as int) * (nw as int))
                            by (nonlinear_arith);
                        assert(y2 * (nw as int) + x2 < before.len());
                        assert(grown_cell(before, c0, nw as int, x2, y2));
                        assert(np@[y2 * (nw as int) + x2] == before[y2 * (nw as int) + x2]);
                    }
                    assert forall|x2: int| 0 <= x2 < x + 1 implies #[trigger] grown_cell(
                        np@,
                        c0,
                        nw as int,
                        x2,
                        y as int,
                    ) by {
                        if x2 < x {
                            assert(grown_cell(before, c0, nw as int, x2, y as int));
                            assert(y * nw + x2 < before.len());
                        } else {
                            assert(np@[y * (nw as int) + x2] == p);
                        }
                    }
                }
                x = x + 1;
            }
            y = y + 1;
        }
        let ghost gnp = np@;
        self.size = Vec2d { x: nw, y: nh };
        self.pixels = np;
        proof {
            assert(nw * nh == nh * nw) by (nonlinear_arith);
            assert forall|x: int, y: int| 0 <= x < nw && 0 <= y < nh implies #[trigger] self.pixel(
                x,
                y,
            ) == (if x < c0.spec_size().x && y < c0.spec_size().y {
                c0.pixel(x, y)
            } else {
                spec_blank_pixel()
            }) by {
                assert(grown_cell(gnp, c0, nw as int, x, y));
            }
        }
    }

    /// Merge one tile onto the raster: the only mutating operation. A tile
    /// that cannot be placed (see [`placeable`]) is rejected with a
    /// placement error naming the offending coordinates and sizes, and the
    /// canvas is left exactly as it was. Otherwise every canvas position
    /// the tile covers takes the tile's pixel — a later overlapping tile
    /// thus wins — and every other position keeps its previous content,
    /// blank in a region the canvas grew by.
    pub fn add_tile(&mut self, tile: &Tile) -> (r: Result<(), ZoomError>)
        requires
            old(self).wf(),
            tile.wf(),
        ensures
            final(self).wf(),
            final(self).is_fixed() == old(self).is_fixed(),
            r is Err <==> !placeable(old(self).spec_size(), old(self).is_fixed(), tile.position, tile.size),
            r matches Err(e) ==> *final(self) == *old(self) && e == (ZoomError::TileCopyError {
                x: tile.position.x,
                y: tile.position.y,
                twidth: tile.size.x,
                theight: tile.size.y,
                width: old(self).spec_size().x,
                height: old(self).spec_size().y,
            }),
            r is Ok ==> final(self).spec_size().x == grown_width(old(self).spec_size(), tile.position, tile.size)
                && final(self).spec_size().y == grown_height(old(self).spec_size(), tile.position, tile.size),
            r is Ok ==> forall|x: int, y: int|
                0 <= x < final(self).spec_size().x && 0 <= y < final(self).spec_size().y
                    ==> #[trigger] final(self).pixel(x, y) == (if tile.covers(x, y) {
                    tile.covered_pixel(x, y)
                } else if x < old(self).spec_size().x && y < old(self).spec_size().y {
                    old(self).pixel(x, y)
                } else {
                    spec_blank_pixel()
                }),
    {
        let need_x = tile.position.x as u64 + tile.size.x as u64;
        let need_y = tile.position.y as u64 + tile.size.y as u64;
        if self.fixed {
            if need_x > self.size.x as u64 || need_y > self.size.y as u64 {
                return Err(self.copy_error(tile));
            }
        } else {
            if need_x > u32::MAX as u64 || need_y > u32::MAX as u64 {
                return Err(self.copy_error(tile));
            }
            let nw = if self.size.x as u64 >= need_x {
                self.size.x
            } else {
                need_x as u32
            };
            let nh = if self.size.y as u64 >= need_y {
                self.size.y
            } else {
                need_y as u32
            };
            proof {
                assert(nw * nh <= u32::MAX * u32::MAX) by (nonlinear_arith)
                    requires
                        nw <= u32::MAX,
                        nh <= u32::MAX,
                ;
            }
            if (nw as u64) * (nh as u64) > usize::MAX as u64 {
                return Err(self.copy_error(tile));
            }
            self.grow(nw, nh);
        }
        let ghost c0 = *self;
        let ghost pre = *old(self);
        let px = tile.position.x;
        let py = tile.position.y;
        let tw = tile.size.x;
        let th = tile.size.y;
        let mut dy: u32 = 0;
        while dy < th
            invariant
                c0.wf(),
                self.size == c0.size,
                self.fixed == c0.fixed,
                self.pixels@.len() == c0.pixels@.len(),
                tile.wf(),
                0 <= dy <= th,
                px == tile.position.x,
                py == tile.position.y,
                tw == tile.size.x,
                th == tile.size.y,
                px + tw <= c0.size.x,
                py + th <= c0.size.y,
                forall|x: int, y: int|
                    0 <= x < c0.size.x && 0 <= y < c0.size.y ==> #[trigger] self.pixel(x, y) == (
                    if tile.covers(x, y) && y < py + dy {
                        tile.covered_pixel(x, y)
                    } else {
                        c0.pixel(x, y)
                    }),
            decreases th - dy,
        {
            let mut dx: u32 = 0;
            while dx < tw
                invariant
                    c0.wf(),
                    self.size == c0.size,
                    self.fixed == c0.fixed,
                    self.pixels@.len() == c0.pixels@.len(),
                    tile.wf(),
                    0 <= dx <= tw,
                    0 <= dy < th,
                    px == tile.position.x,
                    py == tile.position.y,
                    tw == tile.size.x,
                    th == tile.size.y,
                    px + tw <= c0.size.x,
                    py + th <= c0.size.y,
                    forall|x: int, y: int|
                        0 <= x < c0.size.x && 0 <= y < c0.size.y ==> #[trigger] self.pixel(x, y)
                            == (if tile.covers(x, y) && (y < py + dy || (y == py + dy && x < px
                            + dx)) {
                            tile.covered_pixel(x, y)
                        } else {
                            c0.pixel(x, y)
                        }),
                decreases tw - dx,
            {
                let cx = px + dx;
                let cy = py + dy;
                proof {
                    lemma_row_major_bound(
                        cx as int,
                        cy as int,
                        self.size.x as int,
                        self.size.y as int,
                    );
                    lemma_row_major_bound(dx as int, dy as int, tw as int, th as int);
                    lemma_mul_u32_fits(cy as int, self.size.x as int);
                    lemma_mul_u32_fits(dy as int, tw as int);
                }
                let _len = self.pixels.len();
                let _tlen = tile.pixels.len();
                let idx64 = (cy as u64) * (self.size.x as u64) + (cx as u64);
                let idx = idx64 as usize;
                let tidx64 = (dy as u64) * (tw as u64) + (dx as u64);
                let tidx = tidx64 as usize;
                let ghost before = *self;
                let p = tile.pixels[tidx];
                self.pixels[idx] = p;
                proof {
                    assert forall|x: int, y: int|
                        0 <= x < c0.size.x && 0 <= y < c0.size.y implies #[trigger] self.pixel(
                        x,
                        y,
                    ) == (if tile.covers(x, y) && (y < py + dy || (y == py + dy && x < px + dx
                        + 1)) {
                        tile.covered_pixel(x, y)
                    } else {
                        c0.pixel(x, y)
                    }) by {
                        lemma_row_major_bound(x, y, c0.size.x as int, c0.size.y as int);
                        if y * c0.size.x + x == idx64 {
                            lemma_row_major_injective(
                                x,
                                y,
                                cx as int,
                                cy as int,
                                c0.size.x as int,
                            );
                            assert(x == cx && y == cy);
                            assert(self.pixel(x, y) == p);
                            assert(tile.covered_pixel(x, y) == tile.pixel_at(
                                dx as int,
                                dy as int,
                            ));
                        } else {
                            assert(self.pixel(x, y) == before.pixel(x, y));
                        }
                    }
                }
                dx = dx + 1;
            }
            dy = dy + 1;
        }
        proof {
            assert forall|x: int, y: int|
                0 <= x < c0.size.x && 0 <= y < c0.size.y implies #[trigger] self.pixel(x, y) == (
            if tile.covers(x, y) {
                tile.covered_pixel(x, y)
            } else if x < pre.spec_size().x && y < pre.spec_size().y {
                pre.pixel(x, y)
            } else {
                spec_blank_pixel()
            }) by {}
        }
        Ok(())
    }

    /// Merge a whole batch of tiles that are known to fit and not to
    /// overlap one another. The result is the composite of the canvas and
    /// exactly those tiles, a characterisation that does not mention the
    /// merge order: together with
    /// [`lemma_merge_order_independent`] it shows that any two runs over
    /// the same non-overlapping tile set leave pixel-identical canvases.
    pub fn merge_tiles(&mut self, tiles: &Vec<Tile>)
        requires
            old(self).wf(),
            old(self).is_fixed(),
            forall|i: int|
                0 <= i < tiles@.len() ==> (#[trigger] tiles@[i]).wf() && tiles@[i].fits_in(
                    old(self).spec_size(),
                ),
            tiles_disjoint(tiles@),
        ensures
            final(self).wf(),
            final(self).is_fixed(),
            final(self).spec_size() == old(self).spec_size(),
            composited(*final(self), *old(self), tiles@),
    {
        let ghost c0 = *self;
        proof {
            assert(tiles@.take(0) =~= Seq::<Tile>::empty());
        }
        let mut i: usize = 0;
        while i < tiles.len()
            invariant
                self.wf(),
                self.is_fixed(),
                self.spec_size() == c0.spec_size(),
                0 <= i <= tiles@.len(),
                forall|j: int|
                    0 <= j < tiles@.len() ==> (#[trigger] tiles@[j]).wf() && tiles@[j].fits_in(
                        c0.spec_size(),
                    ),
                tiles_disjoint(tiles@),
                composited(*self, c0, tiles@.take(i as int)),
            decreases tiles@.len() - i,
        {
            let ghost pre = *self;
            let ghost prefix = tiles@.take(i as int);
            let r = self.add_tile(&tiles[i]);
            proof {
                assert(r is Ok);
                assert(tiles@.take(i + 1) =~= prefix.push(tiles@[i as int]));
                assert(tiles_disjoint(prefix.push(tiles@[i as int]))) by {
                    let pushed = prefix.push(tiles@[i as int]);
                    assert forall|a: int, b: int, x: int, y: int|
                        0 <= a < b < pushed.len() implies !((#[trigger] pushed[a].covers(x, y))
                        && (#[trigger] pushed[b].covers(x, y))) by {
                        assert(pushed[a] == tiles@[a]);
                        assert(pushed[b] == tiles@[b]);
                    }
                }
                lemma_composited_step(pre, *self, c0, prefix, tiles@[i as int]);
            }
            i = i + 1;
        }
        proof {
            assert(tiles@.take(tiles@.len() as int) =~= tiles@);
        }
    }

    fn copy_error(&self, tile: &Tile) -> (e: ZoomError)
        ensures
            e == (ZoomError::TileCopyError {
                x: tile.position.x,
                y: tile.position.y,
                twidth: tile.size.x,
                theight: tile.size.y,
                width: self.spec_size().x,
                height: self.spec_size().y,
            }),
    {
        ZoomError::TileCopyError {
            x: tile.position.x,
            y: tile.position.y,
            twidth: tile.size.x,
            theight: tile.size.y,
            width: self.size.x,
            height: self.size.y,
        }
    }
}

/// No two tiles of the sequence cover a common canvas position.
pub open spec fn tiles_disjoint(tiles: Seq<Tile>) -> bool {
    forall|i: int, j: int, x: int, y: int|
        0 <= i < j < tiles.len() ==> !((#[trigger] tiles[i].covers(x, y)) && (#[trigger] tiles[j].covers(
            x,
            y,
        )))
}

/// Whether some tile of the sequence covers the position.
pub open spec fn covered_by_some(tiles: Seq<Tile>, x: int, y: int) -> bool {
    exists|i: int| 0 <= i < tiles.len() && (#[trigger] tiles[i]).covers(x, y)
}

/// The canvas `c` is `base` with exactly the tiles of `tiles` merged on
/// top, in a way no covered position contradicts: every position covered
/// by a tile holds that tile's pixel, every other position holds what
/// `base` held. (Over non-overlapping tiles this pins every pixel, whatever
/// the merge order was.)
pub open spec fn composited(c: Canvas, base: Canvas, tiles: Seq<Tile>) -> bool {
    &&& c.spec_size() == base.spec_size()
    &&& forall|i: int, x: int, y: int|
        0 <= i < tiles.len() && 0 <= x < c.spec_size().x && 0 <= y < c.spec_size().y && (
        #[trigger] tiles[i].covers(x, y)) ==> c.pixel(x, y) == tiles[i].covered_pixel(x, y)
    &&& forall|x: int, y: int|
        0 <= x < c.spec_size().x && 0 <= y < c.spec_size().y && !covered_by_some(tiles, x, y)
            ==> #[trigger] c.pixel(x, y) == base.pixel(x, y)
}

/// Merging one more tile — disjoint from those already merged and within
/// bounds — preserves the composite characterisation: this is exactly the
/// shape of `add_tile`'s postcondition on a canvas that did not grow.
pub proof fn lemma_composited_step(
    pre: Canvas,
    post: Canvas,
    base: Canvas,
    tiles: Seq<Tile>,
    t: Tile,
)
    requires
        composited(pre, base, tiles),
        tiles_disjoint(tiles.push(t)),
        post.spec_size() == pre.spec_size(),
        forall|x: int, y: int|
            0 <= x < post.spec_size().x && 0 <= y < post.spec_size().y ==> #[trigger] post.pixel(
                x,
                y,
            ) == (if t.covers(x, y) {
                t.covered_pixel(x, y)
            } else {
                pre.pixel(x, y)
            }),
    ensures
        composited(post, base, tiles.push(t)),
{
    let all = tiles.push(t);
    assert forall|i: int, x: int, y: int|
        0 <= i < all.len() && 0 <= x < post.spec_size().x && 0 <= y < post.spec_size().y && (
        #[trigger] all[i].covers(x, y)) implies post.pixel(x, y) == all[i].covered_pixel(x, y) by {
        if i == tiles.len() {
            assert(all[i] == t);
        } else {
            assert(all[i] == tiles[i]);
            assert(all[tiles.len() as int] == t);
            assert(!t.covers(x, y));
            assert(pre.pixel(x, y) == tiles[i].covered_pixel(x, y));
        }
    }
    assert forall|x: int, y: int|
        0 <= x < post.spec_size().x && 0 <= y < post.spec_size().y && !covered_by_some(all, x, y)
        implies #[trigger] post.pixel(x, y) == base.pixel(x, y) by {
        assert(all[tiles.len() as int] == t);
        assert(!t.covers(x, y));
        assert forall|i: int| 0 <= i < tiles.len() implies !(#[trigger] tiles[i]).covers(x, y) by {
            assert(all[i] == tiles[i]);
        }
        assert(!covered_by_some(tiles, x, y));
    }
}

/// Order-independence law: over non-overlapping tiles the canvas content
/// is a function of the tile set alone. Any two composites of the same
/// tiles over the same base — however the merges were ordered or
/// interleaved — are pixel-identical.
pub proof fn lemma_merge_order_independent(
    c1: Canvas,
    c2: Canvas,
    base: Canvas,
    t1: Seq<Tile>,
    t2: Seq<Tile>,
)
    requires
        composited(c1, base, t1),
        composited(c2, base, t2),
        t1.to_multiset() == t2.to_multiset(),
        tiles_disjoint(t1),
        tiles_disjoint(t2),
    ensures
        c1.spec_size() == c2.spec_size(),
        forall|x: int, y: int|
            0 <= x < c1.spec_size().x && 0 <= y < c1.spec_size().y ==> #[trigger] c1.pixel(x, y)
                == c2.pixel(x, y),
{
    t1.to_multiset_ensures();
    t2.to_multiset_ensures();
    assert forall|x: int, y: int|
        0 <= x < c1.spec_size().x && 0 <= y < c1.spec_size().y implies #[trigger] c1.pixel(x, y)
        == c2.pixel(x, y) by {
        if covered_by_some(t1, x, y) {
            let i = choose|i: int| 0 <= i < t1.len() && (#[trigger] t1[i]).covers(x, y);
            assert(t1.contains(t1[i]));
            assert(t1.to_multiset().count(t1[i]) > 0);
            assert(t2.contains(t1[i]));
            let j = t2.index_of(t1[i]);
            assert(0 <= j < t2.len() && t2[j] == t1[i]);
            assert(t2[j].covers(x, y));
            assert(c2.pixel(x, y) == t2[j].covered_pixel(x, y));
            assert(c1.pixel(x, y) == t1[i].covered_pixel(x, y));
        } else {
            assert(!covered_by_some(t2, x, y)) by {
                if covered_by_some(t2, x, y) {
                    let j = choose|j: int| 0 <= j < t2.len() && (#[trigger] t2[j]).covers(x, y);
                    assert(t2.contains(t2[j]));
                    assert(t2.to_multiset().count(t2[j]) > 0);
                    assert(t1.contains(t2[j]));
                    let i = t1.index_of(t2[j]);
                    assert(0 <= i < t1.len() && t1[i] == t2[j]);
                    assert(t1[i].covers(x, y));
                    assert(covered_by_some(t1, x, y));
                }
            }
            assert(c1.pixel(x, y) == base.pixel(x, y));
            assert(c2.pixel(x, y) == base.pixel(x, y));
        }
    }
}

} // verus!
