//! The application mark, as plain pixels: a prompt on a square with rounded
//! corners. Lengths are counted in two-hundredths of a pixel, in which every
//! point of the drawing is a whole number.

use vstd::prelude::*;

verus! {

/// The colour of the prompt.
pub const ACCENT: [u8; 3] = [79, 209, 165];

/// The colour of the square.
pub const SURFACE: [u8; 3] = [21, 29, 40];

/// How far from the origin a point may lie.
pub const REACH: i128 = 0x400_0000_0000;

/// The nearest number between two.
pub open spec fn nearest(v: int, low: int, high: int) -> int {
    if v < low {
        low
    } else if v > high {
        high
    } else {
        v
    }
}

/// The square of the distance of two points.
pub open spec fn distance2(a: (int, int), b: (int, int)) -> int {
    (a.0 - b.0) * (a.0 - b.0) + (a.1 - b.1) * (a.1 - b.1)
}

/// Whether a point is at most `radius` from the square between `min + radius`
/// and `max - radius`: the square between `min` and `max`, with round corners.
pub open spec fn in_rounded(p: (int, int), min: int, max: int, radius: int) -> bool {
    let core = (nearest(p.0, min + radius, max - radius), nearest(p.1, min + radius, max - radius));
    distance2(p, core) <= radius * radius
}

/// Whether a point is at most half of `width` from the segment that starts at
/// `from` and goes `steps` times along `way`.
pub open spec fn on_segment(
    p: (int, int),
    from: (int, int),
    way: (int, int),
    steps: int,
    width: int,
) -> bool {
    let along = (p.0 - from.0) * way.0 + (p.1 - from.1) * way.1;
    let unit = way.0 * way.0 + way.1 * way.1;
    let to = (from.0 + steps * way.0, from.1 + steps * way.1);
    let off = (p.0 - from.0) * way.1 - (p.1 - from.1) * way.0;
    if along <= 0 {
        4 * distance2(p, from) <= width * width
    } else if along >= steps * unit {
        4 * distance2(p, to) <= width * width
    } else {
        4 * (off * off) <= width * width * unit
    }
}

/// A square is small when its root is.
proof fn lemma_square(x: int, bound: int)
    by (nonlinear_arith)
    requires
        -bound <= x <= bound,
    ensures
        0 <= x * x <= bound * bound,
{
}

/// A product is small when its factors are.
proof fn lemma_product(x: int, y: int, a: int, b: int)
    by (nonlinear_arith)
    requires
        -a <= x <= a,
        -b <= y <= b,
    ensures
        -(a * b) <= x * y <= a * b,
{
}

fn clamp(v: i128, low: i128, high: i128) -> (out: i128)
    ensures
        out == nearest(v as int, low as int, high as int),
{
    if v < low {
        low
    } else if v > high {
        high
    } else {
        v
    }
}

fn square(v: i128) -> (out: i128)
    requires
        -0x4000_0000_0000 <= v <= 0x4000_0000_0000,
    ensures
        out == v * v,
        0 <= out <= 0x1000_0000_0000_0000_0000_0000,
{
    proof {
        lemma_square(v as int, 0x4000_0000_0000);
        assert(0x4000_0000_0000int * 0x4000_0000_0000int == 0x1000_0000_0000_0000_0000_0000int)
            by (nonlinear_arith);
    }
    v * v
}

/// Whether a point falls inside a square with rounded corners.
pub fn rounded_hit(point: (i128, i128), min: i128, max: i128, radius: i128) -> (hit: bool)
    requires
        -REACH <= point.0 <= REACH,
        -REACH <= point.1 <= REACH,
        -REACH <= min <= REACH,
        -REACH <= max <= REACH,
        0 <= radius,
        min + 2 * radius <= max,
    ensures
        hit == in_rounded((point.0 as int, point.1 as int), min as int, max as int, radius as int),
{
    let dx: i128 = point.0 - clamp(point.0, min + radius, max - radius);
    let dy: i128 = point.1 - clamp(point.1, min + radius, max - radius);
    square(dx) + square(dy) <= square(radius)
}

/// Whether a point falls on a stroke of the given width along a segment. The
/// segment starts at `from` and goes `steps` times along `way`.
pub fn segment_hit(
    point: (i128, i128),
    from: (i128, i128),
    way: (i128, i128),
    steps: i128,
    width: i128,
) -> (hit: bool)
    requires
        -REACH <= point.0 <= REACH,
        -REACH <= point.1 <= REACH,
        -REACH <= from.0 <= REACH,
        -REACH <= from.1 <= REACH,
        -64 <= way.0 <= 64,
        -64 <= way.1 <= 64,
        0 <= steps <= REACH,
        -REACH <= from.0 + steps * way.0 <= REACH,
        -REACH <= from.1 + steps * way.1 <= REACH,
        0 <= width <= REACH,
    ensures
        hit == on_segment(
            (point.0 as int, point.1 as int),
            (from.0 as int, from.1 as int),
            (way.0 as int, way.1 as int),
            steps as int,
            width as int,
        ),
{
    let qx: i128 = point.0 - from.0;
    let qy: i128 = point.1 - from.1;
    proof {
        let far = 2 * REACH as int;
        lemma_product(qx as int, way.0 as int, far, 64);
        lemma_product(qy as int, way.1 as int, far, 64);
        lemma_product(qx as int, way.1 as int, far, 64);
        lemma_product(qy as int, way.0 as int, far, 64);
        lemma_product(way.0 as int, way.0 as int, 64, 64);
        lemma_product(way.1 as int, way.1 as int, 64, 64);
        lemma_square(way.0 as int, 64);
        lemma_square(way.1 as int, 64);
        lemma_product(steps as int, way.0 as int, REACH as int, 64);
        lemma_product(steps as int, way.1 as int, REACH as int, 64);
    }
    let along: i128 = qx * way.0 + qy * way.1;
    let unit: i128 = way.0 * way.0 + way.1 * way.1;
    proof {
        lemma_product(steps as int, unit as int, REACH as int, 8192);
    }
    if along <= 0 {
        4 * (square(qx) + square(qy)) <= square(width)
    } else if along >= steps * unit {
        let rx: i128 = point.0 - (from.0 + steps * way.0);
        let ry: i128 = point.1 - (from.1 + steps * way.1);
        4 * (square(rx) + square(ry)) <= square(width)
    } else {
        let off: i128 = qx * way.1 - qy * way.0;
        let w2: i128 = square(width);
        proof {
            lemma_product(w2 as int, unit as int, 0x1000_0000_0000_0000_0000_0000, 8192);
        }
        let off2: i128 = wide_square(off);
        4 * off2 <= w2 * unit
    }
}

fn wide_square(v: i128) -> (out: i128)
    requires
        -0x20_0000_0000_0000 <= v <= 0x20_0000_0000_0000,
    ensures
        out == v * v,
        0 <= out <= 0x400_0000_0000_0000_0000_0000_0000,
{
    proof {
        lemma_square(v as int, 0x20_0000_0000_0000);
        assert(0x20_0000_0000_0000int * 0x20_0000_0000_0000int
            == 0x400_0000_0000_0000_0000_0000_0000int) by (nonlinear_arith);
    }
    v * v
}

/// The middle of a pixel.
pub open spec fn middle(x: int, y: int) -> (int, int) {
    (200 * x + 100, 200 * y + 100)
}

/// Whether a point lies on the square of the mark at a size.
#[verifier::opaque]
pub open spec fn on_body(p: (int, int), size: int) -> bool {
    &&& 12 * size <= p.0 < 188 * size
    &&& 12 * size <= p.1 < 188 * size
    &&& in_rounded(p, 12 * size, 188 * size, 48 * size)
}

/// The width of the strokes at a size: never thinner than a pixel.
pub open spec fn stroke_width(size: int) -> int {
    if 15 * size < 200 {
        200
    } else {
        15 * size
    }
}

/// Whether a point lies on the prompt of the mark at a size: an arrow to the
/// right, and the bar under it.
#[verifier::opaque]
pub open spec fn on_prompt(p: (int, int), size: int) -> bool {
    let width = stroke_width(size);
    ||| on_segment(p, (64 * size, 66 * size), (30, 17), 2 * size, width)
    ||| on_segment(p, (124 * size, 100 * size), (-30, 17), 2 * size, width)
    ||| on_segment(p, (68 * size, 134 * size), (1, 0), 68 * size, width)
}

/// The four bytes of a pixel of the mark: red, green, blue and how opaque it is.
pub open spec fn pixel(size: int, x: int, y: int) -> Seq<u8> {
    let p = middle(x, y);
    if !on_body(p, size) {
        seq![0, 0, 0, 0]
    } else if on_prompt(p, size) {
        seq![79, 209, 165, 255]
    } else {
        seq![21, 29, 40, 255]
    }
}

fn pixel_at(size: u32, x: u32, y: u32) -> (out: [u8; 4])
    requires
        x < size,
        y < size,
    ensures
        out@ == pixel(size as int, x as int, y as int),
{
    let s: i128 = size as i128;
    let p: (i128, i128) = (200 * x as i128 + 100, 200 * y as i128 + 100);
    let inside = 12 * s <= p.0 && p.0 < 188 * s && 12 * s <= p.1 && p.1 < 188 * s && rounded_hit(
        p,
        12 * s,
        188 * s,
        48 * s,
    );
    let width: i128 = if 15 * s < 200 {
        200
    } else {
        15 * s
    };
    assert((2 * s) * (-30) == -60 * s) by (nonlinear_arith);
    reveal(on_body);
    reveal(on_prompt);
    let out: [u8; 4] = if !inside {
        [0, 0, 0, 0]
    } else if segment_hit(p, (64 * s, 66 * s), (30, 17), 2 * s, width) || segment_hit(
        p,
        (124 * s, 100 * s),
        (-30, 17),
        2 * s,
        width,
    ) || segment_hit(p, (68 * s, 134 * s), (1, 0), 68 * s, width) {
        [79, 209, 165, 255]
    } else {
        [21, 29, 40, 255]
    };
    assert(out@ =~= pixel(size as int, x as int, y as int));
    out
}

/// The pixel that stands `k` places after the first.
pub open spec fn nth_pixel(size: int, k: int) -> Seq<u8> {
    pixel(size, k % size, k / size)
}

/// The first `count` pixels of the mark, row by row from the top.
pub open spec fn first_pixels(size: int, count: nat) -> Seq<u8>
    decreases count,
{
    if count == 0 {
        Seq::empty()
    } else {
        first_pixels(size, (count - 1) as nat) + nth_pixel(size, count - 1)
    }
}

/// The pixels of the mark at a size, row by row from the top. A mark without
/// pixels is given one that shows nothing.
pub fn pixels(size: u32) -> (rgba: Vec<u8>)
    requires
        size * size * 4 <= isize::MAX,
    ensures
        rgba@ == (if size == 0 {
            seq![0u8, 0, 0, 0]
        } else {
            first_pixels(size as int, (size * size) as nat)
        }),
{
    let mut rgba: Vec<u8> = Vec::new();
    if size == 0 {
        rgba.push(0);
        rgba.push(0);
        rgba.push(0);
        rgba.push(0);
        assert(rgba@ =~= seq![0u8, 0, 0, 0]);
        return rgba;
    }
    let mut y: u32 = 0;
    while y < size
        invariant
            0 < size,
            y <= size,
            rgba@ == first_pixels(size as int, (y * size) as nat),
        decreases size - y,
    {
        let mut x: u32 = 0;
        assert(y * size + 0 == y * size);
        while x < size
            invariant
                0 < size,
                y < size,
                x <= size,
                rgba@ == first_pixels(size as int, (y * size + x) as nat),
            decreases size - x,
        {
            let p: [u8; 4] = pixel_at(size, x, y);
            let ghost before = rgba@;
            rgba.push(p[0]);
            rgba.push(p[1]);
            rgba.push(p[2]);
            rgba.push(p[3]);
            proof {
                let k = y * size + x;
                assert(k % (size as int) == x && k / (size as int) == y) by (nonlinear_arith)
                    requires
                        k == y * size + x,
                        x < size,
                ;
                assert(k >= 0) by (nonlinear_arith)
                    requires
                        k == y * size + x,
                ;
                assert(rgba@ =~= before + p@);
                assert(((k + 1) as nat - 1) as nat == k as nat);
                assert(first_pixels(size as int, (k + 1) as nat) == first_pixels(
                    size as int,
                    k as nat,
                ) + pixel(size as int, x as int, y as int));
                assert(y * size + (x + 1) == k + 1);
            }
            x += 1;
        }
        assert(y * size + size == (y + 1) * size) by (nonlinear_arith);
        y += 1;
    }
    rgba
}

/// Every pixel of the mark shows nothing, or one of its two colours in full.
pub proof fn law_the_mark_has_two_colours(size: int, x: int, y: int)
    ensures
        pixel(size, x, y) == seq![0u8, 0, 0, 0] || pixel(size, x, y) == seq![
            ACCENT[0],
            ACCENT[1],
            ACCENT[2],
            255u8,
        ] || pixel(size, x, y) == seq![SURFACE[0], SURFACE[1], SURFACE[2], 255u8],
{
}

proof fn lemma_first_pixels(size: int, count: nat)
    ensures
        first_pixels(size, count).len() == 4 * count,
    decreases count,
{
    if count > 0 {
        lemma_first_pixels(size, (count - 1) as nat);
        assert(nth_pixel(size, count - 1).len() == 4);
    }
}

/// The mark holds four bytes for each pixel, and each stands where its row and
/// column say.
pub proof fn law_pixels_stand_in_rows(size: int, count: nat, k: int)
    requires
        size > 0,
        0 <= k < count,
    ensures
        first_pixels(size, count).len() == 4 * count,
        first_pixels(size, count).subrange(4 * k, 4 * k + 4) == nth_pixel(size, k),
    decreases count,
{
    let before = (count - 1) as nat;
    let head = first_pixels(size, before);
    let tail = nth_pixel(size, count - 1);
    lemma_first_pixels(size, before);
    assert(tail.len() == 4);
    let all = head + tail;
    assert(first_pixels(size, count) == all);
    if k < before {
        law_pixels_stand_in_rows(size, before, k);
        assert(all.subrange(4 * k, 4 * k + 4) =~= head.subrange(4 * k, 4 * k + 4));
    } else {
        assert(all.subrange(4 * k, 4 * k + 4) =~= tail);
    }
}

/// The margin round the mark is clear: 6 percent of the size on every side.
pub proof fn law_the_margin_is_clear(size: int, x: int, y: int)
    requires
        size > 0,
        200 * x + 100 < 12 * size || 200 * x + 100 >= 188 * size || 200 * y + 100 < 12 * size || 200
            * y + 100 >= 188 * size,
    ensures
        pixel(size, x, y) == seq![0u8, 0, 0, 0],
{
    reveal(on_body);
    assert(!on_body(middle(x, y), size));
}

/// The body of the mark is filled where it is not rounded: all of it that is at least 24
/// percent of the size from its edges to the left and right, or above and below.
pub proof fn law_the_body_is_filled(size: int, x: int, y: int)
    requires
        size > 0,
        12 * size <= 200 * x + 100 < 188 * size,
        12 * size <= 200 * y + 100 < 188 * size,
        60 * size <= 200 * x + 100 <= 140 * size || 60 * size <= 200 * y + 100 <= 140 * size,
    ensures
        pixel(size, x, y)[3] == 255,
        pixel(size, x, y) == seq![79u8, 209, 165, 255] || pixel(size, x, y) == seq![
            21u8,
            29,
            40,
            255,
        ],
{
    let p = middle(x, y);
    let core = (nearest(p.0, 60 * size, 140 * size), nearest(p.1, 60 * size, 140 * size));
    let a = p.0 - core.0;
    let b = p.1 - core.1;
    let r = 48 * size;
    assert(a == 0 || b == 0);
    assert(-r <= a <= r && -r <= b <= r);
    assert(a * a <= r * r) by (nonlinear_arith)
        requires
            -r <= a <= r,
    ;
    assert(b * b <= r * r) by (nonlinear_arith)
        requires
            -r <= b <= r,
    ;
    assert(distance2(p, core) == a * a + b * b);
    assert(in_rounded(p, 12 * size, 188 * size, r));
    reveal(on_body);
    assert(on_body(p, size));
}

/// The corners of the mark are round: a pixel whose middle is farther than 24 percent of the
/// size from the middle of the corner that it is in is clear, and no other is.
pub proof fn law_the_corners_are_round(size: int, x: int, y: int)
    requires
        size > 0,
        12 * size <= 200 * x + 100 < 188 * size,
        12 * size <= 200 * y + 100 < 188 * size,
    ensures
        ({
            let px = 200 * x + 100;
            let py = 200 * y + 100;
            let cx = if px < 60 * size {
                60 * size
            } else {
                140 * size
            };
            let cy = if py < 60 * size {
                60 * size
            } else {
                140 * size
            };
            (px < 60 * size || px > 140 * size) && (py < 60 * size || py > 140 * size) ==> (pixel(
                size,
                x,
                y,
            ) == seq![0u8, 0, 0, 0] <==> (px - cx) * (px - cx) + (py - cy) * (py - cy) > (48 * size)
                * (48 * size))
        }),
{
    reveal(on_body);
    assert(pixel(size, x, y)[3] == 0 <==> !on_body(middle(x, y), size));
}

/// The bar of the prompt has the accent over its whole length and width.
pub proof fn law_the_bar_has_the_accent(size: int, x: int, y: int)
    requires
        size > 0,
        68 * size < 200 * x + 100 < 136 * size,
        -15 * size <= 2 * (200 * y + 100 - 134 * size) <= 15 * size,
    ensures
        pixel(size, x, y) == seq![79u8, 209, 165, 255],
{
    reveal(on_prompt);
    let p = middle(x, y);
    let off = p.1 - 134 * size;
    let width = stroke_width(size);
    law_the_body_is_filled(size, x, y);
    assert((2 * off) * (2 * off) <= width * width) by (nonlinear_arith)
        requires
            -width <= 2 * off <= width,
    ;
    assert((2 * off) * (2 * off) == 4 * (off * off)) by (nonlinear_arith);
    assert((-off) * (-off) == off * off) by (nonlinear_arith);
    assert(on_segment(p, (68 * size, 134 * size), (1, 0), 68 * size, width)) by {
        let a = p.0 - 68 * size;
        assert(a * 1 + off * 0 == a);
        assert(a * 0 - off * 1 == -off);
        assert(4 * ((-off) * (-off)) <= width * width * 1);
    }
    assert(on_prompt(p, size));
    assert(on_body(p, size));
}

} // verus!
