use vstd::prelude::*;

use crate::canvas::{spec_blank_pixel, Canvas, Pixel, Tile};
use crate::canvas::{grown_height, grown_width, placeable};
use crate::dezoomer::TileReference;
use crate::errors::ZoomError;
use crate::vec2d::Vec2d;

verus! {

/// What the image codec decodes a byte string to: the RGBA8 raster's
/// width, height and raw bytes, or nothing when the bytes are not a valid
/// image. The decoding is a function of the bytes alone; its value is
/// known only through the codec itself.
pub uninterp spec fn decoded_image(bytes: Seq<u8>) -> Option<(u32, u32, Seq<u8>)>;

/// Relies on image::load_from_memory, DynamicImage::to_rgba8 and
/// ImageBuffer::into_raw: the decoded RGBA8 buffer is a function of the
/// encoded bytes alone and holds exactly four bytes per pixel.
#[verifier::external_body]
fn decode_image_bytes(bytes: &Vec<u8>) -> (r: Result<(u32, u32, Vec<u8>), String>)
    ensures
        match r {
            Ok((w, h, raw)) => decoded_image(bytes@) == Some((w, h, raw@)) && raw@.len() == 4 * w
                * h,
            Err(_) => decoded_image(bytes@) is None,
        },
{
    match image::load_from_memory(bytes.as_slice()) {
        Ok(img) => {
            let rgba = img.to_rgba8();
            let w = rgba.width();
            let h = rgba.height();
            Ok((w, h, rgba.into_raw()))
        }
        Err(e) => Err(e.to_string()),
    }
}

/// The pixels a raw RGBA8 buffer denotes, four bytes each, in order.
pub open spec fn pixels_of_raw(raw: Seq<u8>) -> Seq<Pixel> {
    Seq::new((raw.len() / 4) as nat, |i: int| Pixel {
        r: raw[4 * i],
        g: raw[4 * i + 1],
        b: raw[4 * i + 2],
        a: raw[4 * i + 3],
    })
}

/// Build a tile from a decoded raw RGBA8 buffer and its dimensions, to
/// stand at `position` on the canvas.
pub fn tile_from_raw(position: Vec2d, width: u32, height: u32, raw: Vec<u8>) -> (t: Tile)
    requires
        raw@.len() == 4 * width * height,
    ensures
        t.wf(),
        t.position == position,
        t.size == (Vec2d { x: width, y: height }),
        t.pixels@ == pixels_of_raw(raw@),
{
    proof {
        assert(0 <= (width as int) * (height as int) <= u32::MAX * u32::MAX) by (nonlinear_arith)
            requires
                width <= u32::MAX,
                height <= u32::MAX,
        ;
        assert(4 * (width as int) * (height as int) == 4 * ((width as int) * (height as int)))
            by (nonlinear_arith);
    }
    let _len = raw.len();
    let n64 = (width as u64) * (height as u64);
    let n = n64 as usize;
    let mut pixels: Vec<Pixel> = Vec::new();
    let mut i: usize = 0;
    while i < n
        invariant
            raw@.len() == 4 * n,
            raw@.len() <= usize::MAX,
            pixels@.len() == i,
            0 <= i <= n,
            forall|j: int| 0 <= j < i ==> pixels@[j] == pixels_of_raw(raw@)[j],
        decreases n - i,
    {
        let p = Pixel { r: raw[4 * i], g: raw[4 * i + 1], b: raw[4 * i + 2], a: raw[4 * i + 3] };
        pixels.push(p);
        i = i + 1;
    }
    proof {
        assert(pixels@ =~= pixels_of_raw(raw@));
    }
    Tile { position, size: Vec2d { x: width, y: height }, pixels }
}

/// Fetch bytes and decode them into a tile standing at the reference's
/// position; a transport failure or undecodable bytes become a per-tile
/// download error naming the reference's identifier.
pub fn decode_tile(reference: &TileReference, fetched: &Result<Vec<u8>, String>) -> (r: Result<
    Tile,
    ZoomError,
>)
    ensures
        match r {
            Ok(t) => {
                &&& (*fetched) matches Ok(bytes) && decoded_image(bytes@) matches Some(d)
                    && t.size.x == d.0 && t.size.y == d.1 && t.pixels@ == pixels_of_raw(d.2)
                &&& t.wf()
                &&& t.position == reference.position
            },
            Err(e) => {
                &&& match *fetched {
                    Ok(bytes) => decoded_image(bytes@) is None,
                    Err(_) => true,
                }
                &&& e matches ZoomError::TileDownloadError { uri, .. } && uri@ == reference.url@
            },
        },
{
    match fetched {
        Ok(bytes) => match decode_image_bytes(bytes) {
            Ok((w, h, raw)) => Ok(tile_from_raw(reference.position, w, h, raw)),
            Err(msg) => Err(ZoomError::TileDownloadError { uri: reference.url.clone(), msg }),
        },
        Err(msg) => Err(ZoomError::TileDownloadError {
            uri: reference.url.clone(),
            msg: msg.clone(),
        }),
    }
}

/// Whether one tile attempt succeeds against a canvas of the given size
/// and kind: its bytes were fetched, they decode, and the decoded tile
/// can be placed.
pub open spec fn attempt_succeeds_on(
    size: Vec2d,
    fixed: bool,
    reference: TileReference,
    fetched: Result<Vec<u8>, String>,
) -> bool {
    match fetched {
        Ok(bytes) => match decoded_image(bytes@) {
            Some(d) => placeable(size, fixed, reference.position, Vec2d { x: d.0, y: d.1 }),
            None => false,
        },
        Err(_) => false,
    }
}

/// One tile attempt: decode the fetched bytes (or fail with the transport
/// reason) and merge the tile onto the canvas. Every failure is isolated:
/// the canvas is then left exactly as it was.
pub fn process_tile(
    canvas: &mut Canvas,
    reference: &TileReference,
    fetched: &Result<Vec<u8>, String>,
) -> (r: Result<(), ZoomError>)
    requires
        old(canvas).wf(),
    ensures
        final(canvas).wf(),
        final(canvas).is_fixed() == old(canvas).is_fixed(),
        old(canvas).is_fixed() ==> final(canvas).spec_size() == old(canvas).spec_size(),
        r is Ok <==> attempt_succeeds_on(
            old(canvas).spec_size(),
            old(canvas).is_fixed(),
            *reference,
            *fetched,
        ),
        r is Err ==> *final(canvas) == *old(canvas),
        r is Ok ==> ((*fetched) matches Ok(bytes) && decoded_image(bytes@) matches Some(d) && {
            &&& final(canvas).spec_size().x == grown_width(
                old(canvas).spec_size(),
                reference.position,
                Vec2d { x: d.0, y: d.1 },
            )
            &&& final(canvas).spec_size().y == grown_height(
                old(canvas).spec_size(),
                reference.position,
                Vec2d { x: d.0, y: d.1 },
            )
            &&& forall|x: int, y: int|
                0 <= x < final(canvas).spec_size().x && 0 <= y < final(canvas).spec_size().y
                    ==> #[trigger] final(canvas).pixel(x, y) == (if reference.position.x <= x
                    < reference.position.x + d.0 && reference.position.y <= y
                    < reference.position.y + d.1 {
                    pixels_of_raw(d.2)[(y - reference.position.y) * d.0 + (x
                        - reference.position.x)]
                } else if x < old(canvas).spec_size().x && y < old(canvas).spec_size().y {
                    old(canvas).pixel(x, y)
                } else {
                    spec_blank_pixel()
                })
        }),
{
    match decode_tile(reference, fetched) {
        Ok(tile) => canvas.add_tile(&tile),
        Err(e) => Err(e),
    }
}

/// The number of attempts of a batch that succeed against a canvas of
/// that size and kind, counted in order.
pub open spec fn success_count(
    size: Vec2d,
    fixed: bool,
    refs: Seq<TileReference>,
    fetched: Seq<Result<Vec<u8>, String>>,
) -> int
    decreases refs.len(),
{
    if refs.len() == 0 {
        0
    } else {
        (if attempt_succeeds_on(size, fixed, refs[0], fetched[0]) {
            1int
        } else {
            0int
        }) + success_count(size, fixed, refs.drop_first(), fetched.drop_first())
    }
}

/// The number of attempts that fail, counted the same way.
pub open spec fn failure_count(
    size: Vec2d,
    fixed: bool,
    refs: Seq<TileReference>,
    fetched: Seq<Result<Vec<u8>, String>>,
) -> int
    decreases refs.len(),
{
    if refs.len() == 0 {
        0
    } else {
        (if attempt_succeeds_on(size, fixed, refs[0], fetched[0]) {
            0int
        } else {
            1int
        }) + failure_count(size, fixed, refs.drop_first(), fetched.drop_first())
    }
}

/// Accounting law of the partial-failure policy: every attempted tile is
/// counted exactly once, as a success or as a failure, so a batch of
/// `T` references with `F` failures reports `T - F` successes.
pub proof fn lemma_success_failure_partition(
    size: Vec2d,
    fixed: bool,
    refs: Seq<TileReference>,
    fetched: Seq<Result<Vec<u8>, String>>,
)
    requires
        refs.len() == fetched.len(),
    ensures
        0 <= success_count(size, fixed, refs, fetched) <= refs.len(),
        success_count(size, fixed, refs, fetched) + failure_count(size, fixed, refs, fetched)
            == refs.len(),
    decreases refs.len(),
{
    if refs.len() > 0 {
        lemma_success_failure_partition(size, fixed, refs.drop_first(), fetched.drop_first());
    }
}

/// The progress observer's state: how many tile attempts have completed,
/// out of how many. Increments are monotonic and exactly once per attempt.
pub struct ProgressCounter {
    pub completed: usize,
    pub total: usize,
}

impl ProgressCounter {
    pub fn new(total: usize) -> (r: ProgressCounter)
        ensures
            r.completed == 0,
            r.total == total,
    {
        ProgressCounter { completed: 0, total }
    }

    /// One attempt completed, success or failure alike.
    pub fn inc(&mut self)
        requires
            old(self).completed < old(self).total,
        ensures
            final(self).completed == old(self).completed + 1,
            final(self).total == old(self).total,
    {
        self.completed = self.completed + 1;
    }
}

/// How a finished batch is reported.
pub enum DownloadStatus {
    /// Every tile arrived.
    Full { total: usize },
    /// Some tiles failed; the output is still written.
    Partial { successful: usize, total: usize },
}

/// The failure-policy boundary, applied after all tiles were attempted:
/// zero successes fail the whole run, anything else succeeds, as a full or
/// partial download.
pub fn final_status(successful: usize, total: usize) -> (r: Result<DownloadStatus, ZoomError>)
    requires
        successful <= total,
    ensures
        successful == 0 ==> r == Err::<DownloadStatus, ZoomError>(ZoomError::NoTile),
        0 < successful < total ==> r == Ok::<DownloadStatus, ZoomError>(
            DownloadStatus::Partial { successful, total },
        ),
        0 < successful == total ==> r == Ok::<DownloadStatus, ZoomError>(
            DownloadStatus::Full { total },
        ),
{
    if successful == 0 {
        Err(ZoomError::NoTile)
    } else if successful < total {
        Ok(DownloadStatus::Partial { successful, total })
    } else {
        Ok(DownloadStatus::Full { total })
    }
}

/// The sequential core of the tile-fetch orchestrator: attempt every
/// reference with its fetched bytes, merge each success onto the shared
/// canvas, notify the progress observer exactly once per attempt, and
/// count the successes. The caller owns transport and scheduling; since
/// the canvas accepts tiles in any order (see
/// `crate::canvas::lemma_merge_order_independent`), attempts may have been
/// fetched concurrently in any completion order.
pub fn process_batch(
    canvas: &mut Canvas,
    refs: &Vec<TileReference>,
    fetched: &Vec<Result<Vec<u8>, String>>,
    progress: &mut ProgressCounter,
) -> (successful: usize)
    requires
        old(canvas).wf(),
        refs@.len() == fetched@.len(),
        old(progress).completed + refs@.len() <= old(progress).total,
    ensures
        final(canvas).wf(),
        final(canvas).is_fixed() == old(canvas).is_fixed(),
        final(progress).completed == old(progress).completed + refs@.len(),
        final(progress).total == old(progress).total,
        successful <= refs@.len(),
        old(canvas).is_fixed() ==> {
            &&& final(canvas).spec_size() == old(canvas).spec_size()
            &&& successful == success_count(
                old(canvas).spec_size(),
                true,
                refs@,
                fetched@,
            )
        },
{
    let ghost size0 = old(canvas).spec_size();
    let ghost fixed0 = old(canvas).is_fixed();
    proof {
        assert(refs@.skip(0) =~= refs@);
        assert(fetched@.skip(0) =~= fetched@);
    }
    let mut successful: usize = 0;
    let mut i: usize = 0;
    while i < refs.len()
        invariant
            canvas.wf(),
            canvas.is_fixed() == fixed0,
            fixed0 ==> canvas.spec_size() == size0,
            refs@.len() == fetched@.len(),
            0 <= i <= refs@.len(),
            progress.completed == old(progress).completed + i,
            progress.total == old(progress).total,
            old(progress).completed + refs@.len() <= old(progress).total,
            successful <= i,
            fixed0 ==> successful + success_count(
                size0,
                true,
                refs@.skip(i as int),
                fetched@.skip(i as int),
            ) == success_count(size0, true, refs@, fetched@),
        decreases refs@.len() - i,
    {
        let r = process_tile(canvas, &refs[i], &fetched[i]);
        progress.inc();
        proof {
            assert(refs@.skip(i as int).drop_first() =~= refs@.skip(i + 1));
            assert(fetched@.skip(i as int).drop_first() =~= fetched@.skip(i + 1));
            assert(refs@.skip(i as int)[0] == refs@[i as int]);
            assert(fetched@.skip(i as int)[0] == fetched@[i as int]);
        }
        if r.is_ok() {
            successful = successful + 1;
        }
        i = i + 1;
    }
    proof {
        assert(refs@.skip(refs@.len() as int) =~= Seq::<TileReference>::empty());
        assert(fetched@.skip(fetched@.len() as int) =~= Seq::<Result<Vec<u8>, String>>::empty());
    }
    successful
}

} // verus!
