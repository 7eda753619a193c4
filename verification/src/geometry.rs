//! Pixel-rectangle geometry of the per-shape image features: the clipped box
//! of a shape, the interior border band sampled for content cutoff, and the
//! exterior ring sampled for surrounding interference.
use vstd::prelude::*;

verus! {

/// Half-open pixel rectangle `[x0, x1) × [y0, y1)`.
#[derive(Debug, Clone, Copy, PartialEq, Eq, Structural)]
pub struct Rect {
    pub x0: u32,
    pub y0: u32,
    pub x1: u32,
    pub y1: u32,
}

/// Pixel `(x, y)` lies in `r`.
pub open spec fn in_rect(r: Rect, x: int, y: int) -> bool {
    r.x0 <= x < r.x1 && r.y0 <= y < r.y1
}

/// `r` has its corners in order (it may still be empty).
pub open spec fn ordered(r: Rect) -> bool {
    r.x0 <= r.x1 && r.y0 <= r.y1
}

impl Rect {
    /// No pixel lies in the rectangle.
    pub fn is_empty(&self) -> (b: bool)
        ensures
            b <==> (self.x1 <= self.x0 || self.y1 <= self.y0),
            b <==> !exists|x: int, y: int| in_rect(*self, x, y),
    {
        let b = self.x1 <= self.x0 || self.y1 <= self.y0;
        if !b {
            assert(in_rect(*self, self.x0 as int, self.y0 as int));
        }
        b
    }

    /// Pixel `(x, y)` lies in the rectangle.
    pub fn contains(&self, x: u32, y: u32) -> (b: bool)
        ensures
            b == in_rect(*self, x as int, y as int),
    {
        x >= self.x0 && x < self.x1 && y >= self.y0 && y < self.y1
    }
}

pub open spec fn max_int(a: int, b: int) -> int {
    if a >= b {
        a
    } else {
        b
    }
}

pub open spec fn min_int(a: int, b: int) -> int {
    if a <= b {
        a
    } else {
        b
    }
}

/// A shape's bounding box `(x, y, w, h)` clipped to an image of
/// `img_w × img_h` pixels: negative coordinates become 0 and the far edges
/// stop at the image border.
pub open spec fn clip_box_spec(x: int, y: int, w: int, h: int, img_w: int, img_h: int) -> Rect {
    Rect {
        x0: max_int(x, 0) as u32,
        y0: max_int(y, 0) as u32,
        x1: min_int(max_int(x + w, 0), img_w) as u32,
        y1: min_int(max_int(y + h, 0), img_h) as u32,
    }
}

/// Clips a bounding box to the image (see `clip_box_spec`).
pub fn clip_box(x: i32, y: i32, w: i32, h: i32, img_w: u32, img_h: u32) -> (r: Rect)
    requires
        i32::MIN <= x + w <= i32::MAX,
        i32::MIN <= y + h <= i32::MAX,
    ensures
        r == clip_box_spec(x as int, y as int, w as int, h as int, img_w as int, img_h as int),
        r.x1 <= img_w,
        r.y1 <= img_h,
{
    let x0: u32 = if x >= 0 {
        x as u32
    } else {
        0
    };
    let y0: u32 = if y >= 0 {
        y as u32
    } else {
        0
    };
    let xe: i32 = x + w;
    let ye: i32 = y + h;
    let xe0: u32 = if xe >= 0 {
        xe as u32
    } else {
        0
    };
    let ye0: u32 = if ye >= 0 {
        ye as u32
    } else {
        0
    };
    let x1: u32 = if xe0 <= img_w {
        xe0
    } else {
        img_w
    };
    let y1: u32 = if ye0 <= img_h {
        ye0
    } else {
        img_h
    };
    Rect { x0, y0, x1, y1 }
}

/// Width of the interior border band: 2 pixels, but at most half the box's
/// shorter side, and at least 1.
pub open spec fn interior_band_spec(r: Rect) -> u32 {
    let half = min_int(r.x1 - r.x0, r.y1 - r.y0) / 2;
    let cap = max_int(half, 1);
    min_int(2, cap) as u32
}

/// Band width used for the cutoff feature of a non-empty box.
pub fn interior_band(r: Rect) -> (b: u32)
    requires
        r.x0 < r.x1,
        r.y0 < r.y1,
    ensures
        b == interior_band_spec(r),
        1 <= b <= 2,
{
    let w: u32 = r.x1 - r.x0;
    let h: u32 = r.y1 - r.y0;
    let m: u32 = if w <= h {
        w
    } else {
        h
    };
    let half: u32 = m / 2;
    let cap: u32 = if half >= 1 {
        half
    } else {
        1
    };
    if 2 <= cap {
        2
    } else {
        cap
    }
}

/// The box grown by `ring` pixels on every side, clipped to the image.
pub open spec fn outer_box_spec(inner: Rect, ring: u32, img_w: u32, img_h: u32) -> Rect {
    Rect {
        x0: max_int(inner.x0 - ring, 0) as u32,
        y0: max_int(inner.y0 - ring, 0) as u32,
        x1: min_int(inner.x1 + ring, img_w as int) as u32,
        y1: min_int(inner.y1 + ring, img_h as int) as u32,
    }
}

/// The exterior box used for the isolation feature.
pub fn outer_box(inner: Rect, ring: u32, img_w: u32, img_h: u32) -> (r: Rect)
    requires
        inner.x1 + ring <= u32::MAX,
        inner.y1 + ring <= u32::MAX,
    ensures
        r == outer_box_spec(inner, ring, img_w, img_h),
{
    let x0: u32 = if inner.x0 >= ring {
        inner.x0 - ring
    } else {
        0
    };
    let y0: u32 = if inner.y0 >= ring {
        inner.y0 - ring
    } else {
        0
    };
    let xe: u32 = inner.x1 + ring;
    let ye: u32 = inner.y1 + ring;
    let x1: u32 = if xe <= img_w {
        xe
    } else {
        img_w
    };
    let y1: u32 = if ye <= img_h {
        ye
    } else {
        img_h
    };
    Rect { x0, y0, x1, y1 }
}

/// A box inside the image lies inside its exterior box, and the exterior
/// box stays inside the image, so the ring (exterior minus box) is exactly
/// the pixels around the box that the image has.
pub proof fn lemma_outer_box_contains(inner: Rect, ring: u32, img_w: u32, img_h: u32, x: int, y: int)
    requires
        inner.x1 <= img_w,
        inner.y1 <= img_h,
        inner.x1 + ring <= u32::MAX,
        inner.y1 + ring <= u32::MAX,
    ensures
        in_rect(inner, x, y) ==> in_rect(outer_box_spec(inner, ring, img_w, img_h), x, y),
        in_rect(outer_box_spec(inner, ring, img_w, img_h), x, y) ==> 0 <= x < img_w && 0 <= y
            < img_h,
        in_rect(outer_box_spec(inner, ring, img_w, img_h), x, y) <==> (0 <= x < img_w && 0 <= y
            < img_h && inner.x0 - ring <= x < inner.x1 + ring && inner.y0 - ring <= y < inner.y1
            + ring),
{
}

// ---------------------------------------------------------------------------
// Interior border band
// ---------------------------------------------------------------------------

/// The four strips that make up the interior band of a box: full-width top
/// and bottom strips, and left and right strips between them.
#[derive(Debug, Clone, Copy)]
pub struct BandStrips {
    pub top: Rect,
    pub bottom: Rect,
    pub left: Rect,
    pub right: Rect,
}

/// Pixel `(x, y)` of `r` lies within `band` pixels of its border.
pub open spec fn in_band(r: Rect, band: int, x: int, y: int) -> bool {
    in_rect(r, x, y) && (y < r.y0 + band || y >= r.y1 - band || x < r.x0 + band || x >= r.x1
        - band)
}

pub open spec fn band_strips_spec(r: Rect, band: u32) -> BandStrips {
    let top_y1 = min_int(r.y0 + band, r.y1 as int);
    let bot_y0 = max_int(max_int(r.y1 - band, 0), top_y1);
    let left_x1 = min_int(r.x0 + band, r.x1 as int);
    let right_x0 = max_int(max_int(r.x1 - band, 0), left_x1);
    BandStrips {
        top: Rect { x0: r.x0, y0: r.y0, x1: r.x1, y1: top_y1 as u32 },
        bottom: Rect { x0: r.x0, y0: bot_y0 as u32, x1: r.x1, y1: r.y1 },
        left: Rect { x0: r.x0, y0: top_y1 as u32, x1: left_x1 as u32, y1: bot_y0 as u32 },
        right: Rect { x0: right_x0 as u32, y0: top_y1 as u32, x1: r.x1, y1: bot_y0 as u32 },
    }
}

/// The strips of the interior band of width `band` of `r`.
pub fn band_strips(r: Rect, band: u32) -> (s: BandStrips)
    requires
        r.y0 + band <= u32::MAX,
        r.x0 + band <= u32::MAX,
    ensures
        s == band_strips_spec(r, band),
{
    let ty: u32 = r.y0 + band;
    let top_y1: u32 = if ty <= r.y1 {
        ty
    } else {
        r.y1
    };
    let by: u32 = if r.y1 >= band {
        r.y1 - band
    } else {
        0
    };
    let bot_y0: u32 = if by >= top_y1 {
        by
    } else {
        top_y1
    };
    let lx: u32 = r.x0 + band;
    let left_x1: u32 = if lx <= r.x1 {
        lx
    } else {
        r.x1
    };
    let rx: u32 = if r.x1 >= band {
        r.x1 - band
    } else {
        0
    };
    let right_x0: u32 = if rx >= left_x1 {
        rx
    } else {
        left_x1
    };
    BandStrips {
        top: Rect { x0: r.x0, y0: r.y0, x1: r.x1, y1: top_y1 },
        bottom: Rect { x0: r.x0, y0: bot_y0, x1: r.x1, y1: r.y1 },
        left: Rect { x0: r.x0, y0: top_y1, x1: left_x1, y1: bot_y0 },
        right: Rect { x0: right_x0, y0: top_y1, x1: r.x1, y1: bot_y0 },
    }
}

/// The band strips cover the band exactly once: every band pixel of the box
/// lies in exactly one strip, and no other pixel lies in any strip, so the
/// band mean counts each band pixel once.
pub proof fn lemma_band_strips_partition(r: Rect, band: u32, x: int, y: int)
    requires
        ordered(r),
        r.y0 + band <= u32::MAX,
        r.x0 + band <= u32::MAX,
    ensures
        ({
            let s = band_strips_spec(r, band);
            &&& (in_rect(s.top, x, y) || in_rect(s.bottom, x, y) || in_rect(s.left, x, y)
                || in_rect(s.right, x, y)) <==> in_band(r, band as int, x, y)
            &&& !(in_rect(s.top, x, y) && in_rect(s.bottom, x, y))
            &&& !(in_rect(s.top, x, y) && in_rect(s.left, x, y))
            &&& !(in_rect(s.top, x, y) && in_rect(s.right, x, y))
            &&& !(in_rect(s.bottom, x, y) && in_rect(s.left, x, y))
            &&& !(in_rect(s.bottom, x, y) && in_rect(s.right, x, y))
            &&& !(in_rect(s.left, x, y) && in_rect(s.right, x, y))
        }),
{
}

} // verus!
