//! The compositor.
//!
//! For each output frame it allocates a blank, fully transparent canvas
//! sized to the monitor, selects each source's frame through the
//! timeline's index map, scales it to the source's rectangle with
//! nearest-neighbor sampling, and layers it onto the canvas in reverse
//! declaration order: the last-declared source is painted first, and the
//! first-declared source is painted last and therefore ends up on top.
//! Pixels that fall outside the canvas are clipped, not an error. The
//! whole output sequence is materialized once, before playback begins.

use crate::config::DisplayContext;
use crate::frame::{is_opaque, lemma_blend_opaque, spec_blend, FrameBuffer};
use crate::timeline::{spec_index_map, Timeline};
use vstd::arithmetic::mul::lemma_mul_upper_bound;
use vstd::prelude::*;

verus! {

/// Why compositing was refused.
#[derive(Clone, Copy, Debug, PartialEq, Eq, Structural)]
pub enum CompositeError {
    /// The canvas has a zero, negative or machine-breaking dimension.
    Canvas,
    /// This source's rectangle has a zero, negative or machine-breaking
    /// dimension.
    BadSource { source: usize },
    /// This frame of this source is not a usable raster.
    BadFrame { source: usize, frame: usize },
}

/// A canvas the compositor can allocate.
pub open spec fn canvas_ok(w: int, h: int) -> bool {
    &&& 1 <= w < 0x8000_0000
    &&& 1 <= h < 0x8000_0000
    &&& w * h <= usize::MAX
}

/// A loaded frame the compositor can scale.
pub open spec fn frame_ok(fb: FrameBuffer) -> bool {
    &&& fb.wf()
    &&& 1 <= fb.width < 0x8000_0000
    &&& 1 <= fb.height < 0x8000_0000
    &&& fb.width * fb.height <= usize::MAX
}

/// A target rectangle the compositor can scale into.
pub open spec fn source_dims_ok(src: DisplayContext) -> bool {
    &&& 1 <= src.width
    &&& 1 <= src.height
    &&& src.width * src.height <= usize::MAX
}

/// A source the compositor can place: a positive rectangle and usable
/// frames.
pub open spec fn source_ok(src: DisplayContext) -> bool {
    &&& source_dims_ok(src)
    &&& forall|k: int| 0 <= k < src.images@.len() ==> frame_ok(#[trigger] src.images@[k])
}

/// The timeline was built for exactly these sources.
pub open spec fn matches_timeline(sources: Seq<DisplayContext>, tl: Timeline) -> bool {
    &&& tl.rates@.len() == sources.len()
    &&& tl.lens@.len() == sources.len()
    &&& forall|i: int| 0 <= i < sources.len() ==> tl.rates@[i] == (#[trigger] sources[i]).fps
    &&& forall|i: int|
        0 <= i < sources.len() ==> tl.lens@[i] == (#[trigger] sources[i]).images@.len()
}

/// The frame of source `i` selected at output frame `f`.
pub open spec fn frame_of(tl: Timeline, f: int, i: int) -> int {
    spec_index_map(f, tl.rates@[i], tl.output_rate, tl.lens@[i] as int)
}

/// The pixel that source `src` contributes at layer coordinates
/// `(lx, ly)` when its frame `fidx` is scaled to the source rectangle.
pub open spec fn layer_pix(src: DisplayContext, fidx: int, lx: int, ly: int) -> u32 {
    let frame = src.images@[fidx];
    frame.pix(
        FrameBuffer::scale_src(lx, frame.width as int, src.width as int),
        FrameBuffer::scale_src(ly, frame.height as int, src.height as int),
    )
}

/// One source layered onto a canvas pixel: pixels under the source's
/// rectangle blend, all others stay.
pub open spec fn overlaid_pix(below: u32, src: DisplayContext, fidx: int, cx: int, cy: int) -> u32 {
    let lx = cx - src.x;
    let ly = cy - src.y;
    if 0 <= lx < src.width && 0 <= ly < src.height {
        spec_blend(below, layer_pix(src, fidx, lx, ly))
    } else {
        below
    }
}

/// The canvas pixel at `(cx, cy)` after sources `k..` have been painted
/// onto a transparent canvas in reverse declaration order: among them,
/// source `k` is painted last and lies on top.
pub open spec fn composite_pix_from(
    sources: Seq<DisplayContext>,
    tl: Timeline,
    f: int,
    k: int,
    cx: int,
    cy: int,
) -> u32
    decreases sources.len() - k,
{
    if k < 0 || k >= sources.len() {
        0u32
    } else {
        overlaid_pix(
            composite_pix_from(sources, tl, f, k + 1, cx, cy),
            sources[k],
            frame_of(tl, f, k),
            cx,
            cy,
        )
    }
}

/// The pixel at `(cx, cy)` of the fully composited output frame `f`.
pub open spec fn composite_pix(
    sources: Seq<DisplayContext>,
    tl: Timeline,
    f: int,
    cx: int,
    cy: int,
) -> u32 {
    composite_pix_from(sources, tl, f, 0, cx, cy)
}

/// Z-order is stable: the first-declared source is painted last, so
/// wherever its rectangle covers the canvas and its scaled pixel is
/// opaque there, the composite shows exactly that pixel, whatever other
/// sources lie beneath it.
pub proof fn lemma_first_source_on_top(
    sources: Seq<DisplayContext>,
    tl: Timeline,
    f: int,
    cx: int,
    cy: int,
)
    requires
        sources.len() >= 1,
        0 <= cx - sources[0].x < sources[0].width,
        0 <= cy - sources[0].y < sources[0].height,
        is_opaque(
            layer_pix(sources[0], frame_of(tl, f, 0), cx - sources[0].x, cy - sources[0].y),
        ),
    ensures
        composite_pix(sources, tl, f, cx, cy) == layer_pix(
            sources[0],
            frame_of(tl, f, 0),
            cx - sources[0].x,
            cy - sources[0].y,
        ),
{
    lemma_blend_opaque(
        composite_pix_from(sources, tl, f, 1, cx, cy),
        layer_pix(sources[0], frame_of(tl, f, 0), cx - sources[0].x, cy - sources[0].y),
    );
}

/// Composite one output frame: every source's selected frame scaled
/// into its rectangle and layered onto a transparent canvas, in reverse
/// declaration order.
pub fn composite_frame(
    sources: &Vec<DisplayContext>,
    tl: &Timeline,
    f: usize,
    cw: usize,
    ch: usize,
) -> (r: FrameBuffer)
    requires
        tl.wf(),
        matches_timeline(sources@, *tl),
        canvas_ok(cw as int, ch as int),
        forall|i: int| 0 <= i < sources@.len() ==> source_ok(#[trigger] sources@[i]),
    ensures
        r.wf(),
        r.width == cw,
        r.height == ch,
        forall|cx: int, cy: int|
            r.in_bounds(cx, cy) ==> #[trigger] r.pix(cx, cy) == composite_pix(
                sources@,
                *tl,
                f as int,
                cx,
                cy,
            ),
{
    let mut canvas = FrameBuffer::blank(cw, ch);
    let n = sources.len();
    proof {
        assert(forall|cx: int, cy: int|
            canvas.in_bounds(cx, cy) ==> #[trigger] canvas.pix(cx, cy) == composite_pix_from(
                sources@,
                *tl,
                f as int,
                n as int,
                cx,
                cy,
            ));
    }
    let mut k: usize = n;
    while k > 0
        invariant
            k <= n,
            n == sources@.len(),
            tl.wf(),
            matches_timeline(sources@, *tl),
            canvas_ok(cw as int, ch as int),
            forall|i: int| 0 <= i < sources@.len() ==> source_ok(#[trigger] sources@[i]),
            canvas.wf(),
            canvas.width == cw,
            canvas.height == ch,
            forall|cx: int, cy: int|
                canvas.in_bounds(cx, cy) ==> #[trigger] canvas.pix(cx, cy) == composite_pix_from(
                    sources@,
                    *tl,
                    f as int,
                    k as int,
                    cx,
                    cy,
                ),
        decreases k,
    {
        k -= 1;
        let src = &sources[k];
        let fidx = tl.index_map(f, k);
        assert(source_ok(sources@[k as int]));
        assert(frame_ok(sources@[k as int].images@[fidx as int]));
        let frame = &src.images[fidx];
        let scaled = frame.scale_nearest(src.width as usize, src.height as usize);
        let ghost before = canvas;
        canvas.overlay(&scaled, src.x, src.y);
        proof {
            assert forall|cx: int, cy: int|
                canvas.in_bounds(cx, cy) implies #[trigger] canvas.pix(cx, cy)
                == composite_pix_from(sources@, *tl, f as int, k as int, cx, cy) by {
                let lx = cx - src.x;
                let ly = cy - src.y;
                assert(before.pix(cx, cy) == composite_pix_from(
                    sources@,
                    *tl,
                    f as int,
                    k + 1,
                    cx,
                    cy,
                ));
                if 0 <= lx < src.width && 0 <= ly < src.height {
                    assert(scaled.pix(lx, ly) == layer_pix(
                        sources@[k as int],
                        fidx as int,
                        lx,
                        ly,
                    ));
                }
            }
        }
    }
    canvas
}

/// Build the whole output sequence cache: one composited frame per
/// output index, ready before playback begins. Input rasters are
/// validated first; the first offending source or frame, in declaration
/// order, decides the error.
pub fn compose_sequence(
    sources: &Vec<DisplayContext>,
    tl: &Timeline,
    cw: usize,
    ch: usize,
) -> (r: Result<Vec<FrameBuffer>, CompositeError>)
    requires
        tl.wf(),
        matches_timeline(sources@, *tl),
    ensures
        match r {
            Ok(cache) => {
                &&& canvas_ok(cw as int, ch as int)
                &&& forall|i: int| 0 <= i < sources@.len() ==> source_ok(#[trigger] sources@[i])
                &&& cache@.len() == tl.output_frame_count
                &&& forall|f: int|
                    0 <= f < cache@.len() ==> {
                        &&& (#[trigger] cache@[f]).wf()
                        &&& cache@[f].width == cw
                        &&& cache@[f].height == ch
                        &&& forall|cx: int, cy: int|
                            cache@[f].in_bounds(cx, cy) ==> #[trigger] cache@[f].pix(cx, cy)
                                == composite_pix(sources@, *tl, f, cx, cy)
                    }
            },
            Err(CompositeError::Canvas) => !canvas_ok(cw as int, ch as int),
            Err(CompositeError::BadSource { source }) => {
                &&& canvas_ok(cw as int, ch as int)
                &&& 0 <= source < sources@.len()
                &&& !source_dims_ok(sources@[source as int])
                &&& forall|i: int| 0 <= i < source ==> source_ok(#[trigger] sources@[i])
            },
            Err(CompositeError::BadFrame { source, frame }) => {
                &&& canvas_ok(cw as int, ch as int)
                &&& 0 <= source < sources@.len()
                &&& source_dims_ok(sources@[source as int])
                &&& 0 <= frame < sources@[source as int].images@.len()
                &&& !frame_ok(sources@[source as int].images@[frame as int])
                &&& forall|k: int|
                    0 <= k < frame ==> frame_ok(
                        #[trigger] sources@[source as int].images@[k],
                    )
                &&& forall|i: int| 0 <= i < source ==> source_ok(#[trigger] sources@[i])
            },
        },
{
    // The canvas must be allocatable.
    if cw < 1 || ch < 1 || cw as u64 >= 0x8000_0000 || ch as u64 >= 0x8000_0000 {
        return Err(CompositeError::Canvas);
    }
    proof {
        lemma_mul_upper_bound(cw as int, 0x7fff_ffff, ch as int, 0x7fff_ffff);
    }
    if (cw as u64) * (ch as u64) > usize::MAX as u64 {
        return Err(CompositeError::Canvas);
    }
    // Every source rectangle and every loaded frame must be usable.
    let n = sources.len();
    let mut i: usize = 0;
    while i < n
        invariant
            i <= n,
            n == sources@.len(),
            canvas_ok(cw as int, ch as int),
            forall|j: int| 0 <= j < i ==> source_ok(#[trigger] sources@[j]),
        decreases n - i,
    {
        let src = &sources[i];
        if src.width < 1 || src.height < 1 {
            return Err(CompositeError::BadSource { source: i });
        }
        proof {
            lemma_mul_upper_bound(src.width as int, 0x7fff_ffff, src.height as int, 0x7fff_ffff);
        }
        if (src.width as u64) * (src.height as u64) > usize::MAX as u64 {
            return Err(CompositeError::BadSource { source: i });
        }
        let m = src.images.len();
        let mut k: usize = 0;
        while k < m
            invariant
                k <= m,
                i < n,
                n == sources@.len(),
                canvas_ok(cw as int, ch as int),
                m == sources@[i as int].images@.len(),
                src == &sources[i as int],
                source_dims_ok(sources@[i as int]),
                forall|j: int| 0 <= j < i ==> source_ok(#[trigger] sources@[j]),
                forall|j: int|
                    0 <= j < k ==> frame_ok(#[trigger] sources@[i as int].images@[j]),
            decreases m - k,
        {
            let fb = &src.images[k];
            if fb.width < 1 || fb.height < 1 || fb.width as u64 >= 0x8000_0000 || fb.height as u64
                >= 0x8000_0000 {
                return Err(CompositeError::BadFrame { source: i, frame: k });
            }
            proof {
                lemma_mul_upper_bound(fb.width as int, 0x7fff_ffff, fb.height as int, 0x7fff_ffff);
            }
            if (fb.width as u64) * (fb.height as u64) > usize::MAX as u64 {
                return Err(CompositeError::BadFrame { source: i, frame: k });
            }
            let px = fb.width * fb.height;
            if fb.data.len() != px {
                return Err(CompositeError::BadFrame { source: i, frame: k });
            }
            k += 1;
        }
        i += 1;
    }
    // Materialize the whole output sequence.
    let count = tl.output_frame_count;
    let mut cache: Vec<FrameBuffer> = Vec::new();
    let mut f: usize = 0;
    while f < count
        invariant
            f <= count,
            count == tl.output_frame_count,
            n == sources@.len(),
            tl.wf(),
            matches_timeline(sources@, *tl),
            canvas_ok(cw as int, ch as int),
            forall|j: int| 0 <= j < n ==> source_ok(#[trigger] sources@[j]),
            cache@.len() == f,
            forall|g: int|
                0 <= g < f ==> {
                    &&& (#[trigger] cache@[g]).wf()
                    &&& cache@[g].width == cw
                    &&& cache@[g].height == ch
                    &&& forall|cx: int, cy: int|
                        cache@[g].in_bounds(cx, cy) ==> #[trigger] cache@[g].pix(cx, cy)
                            == composite_pix(sources@, *tl, g, cx, cy)
                },
        decreases count - f,
    {
        let cf = composite_frame(sources, tl, f, cw, ch);
        cache.push(cf);
        f += 1;
    }
    Ok(cache)
}

} // verus!
