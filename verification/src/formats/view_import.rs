//! The steps of turning a game view into an Aseprite sprite that do not
//! read the view: the canvas that holds every cel, and the swap of a cel's
//! clear color with the sprite's transparent index.
use vstd::prelude::*;

verus! {

/// Where a view's cel lies: its displacement and its size.
#[derive(Debug, Clone, Copy, PartialEq, Eq, Structural)]
pub struct CelPlacement {
    pub displace_x: i32,
    pub displace_y: i32,
    pub width: u16,
    pub height: u16,
}

/// The box that holds the first `n` cels: the least left and top edges,
/// and the greatest right and bottom edges (starting from the widest
/// values of an `i32`, which an empty list keeps).
pub open spec fn bounds_upto(cels: Seq<CelPlacement>, n: int) -> (int, int, int, int)
    decreases n,
{
    if n <= 0 {
        (i32::MAX as int, i32::MAX as int, i32::MIN as int, i32::MIN as int)
    } else {
        let b = bounds_upto(cels, n - 1);
        let c = cels[n - 1];
        (
            if c.displace_x < b.0 { c.displace_x as int } else { b.0 },
            if c.displace_y < b.1 { c.displace_y as int } else { b.1 },
            if c.displace_x + c.width > b.2 { c.displace_x + c.width } else { b.2 },
            if c.displace_y + c.height > b.3 { c.displace_y + c.height } else { b.3 },
        )
    }
}

/// Whether every cel's right and bottom edges fit in an `i32`.
pub open spec fn edges_fit(cels: Seq<CelPlacement>) -> bool {
    forall|i: int|
        0 <= i < cels.len() ==> (#[trigger] cels[i]).displace_x + cels[i].width <= i32::MAX
            && cels[i].displace_y + cels[i].height <= i32::MAX
}

/// The box that holds every cel: left, top, right and bottom edges.
pub fn cels_bounds(cels: &Vec<CelPlacement>) -> (b: (i32, i32, i32, i32))
    requires
        edges_fit(cels@),
    ensures
        (b.0 as int, b.1 as int, b.2 as int, b.3 as int) == bounds_upto(cels@, cels@.len() as int),
{
    let mut min_x: i32 = i32::MAX;
    let mut min_y: i32 = i32::MAX;
    let mut max_x: i32 = i32::MIN;
    let mut max_y: i32 = i32::MIN;
    let mut i: usize = 0;
    while i < cels.len()
        invariant
            i <= cels@.len(),
            edges_fit(cels@),
            (min_x as int, min_y as int, max_x as int, max_y as int) == bounds_upto(cels@, i as int),
        decreases cels@.len() - i,
    {
        let c = cels[i];
        assert(c == cels@[i as int]);
        let right = c.displace_x + c.width as i32;
        let bottom = c.displace_y + c.height as i32;
        if c.displace_x < min_x {
            min_x = c.displace_x;
        }
        if c.displace_y < min_y {
            min_y = c.displace_y;
        }
        if right > max_x {
            max_x = right;
        }
        if bottom > max_y {
            max_y = bottom;
        }
        i = i + 1;
    }
    (min_x, min_y, max_x, max_y)
}

/// The canvas of a view: the shift that moves the box of its cels to the
/// origin, and the box's width and height. The view must have a cel, the
/// shift must fit an `i32`, and the box must fit a sprite's `u16` sides.
pub fn view_canvas(cels: &Vec<CelPlacement>) -> (r: (i32, i32, u16, u16))
    requires
        edges_fit(cels@),
        cels@.len() > 0,
        bounds_upto(cels@, cels@.len() as int).0 > i32::MIN,
        bounds_upto(cels@, cels@.len() as int).1 > i32::MIN,
        bounds_upto(cels@, cels@.len() as int).2 - bounds_upto(cels@, cels@.len() as int).0
            <= u16::MAX,
        bounds_upto(cels@, cels@.len() as int).3 - bounds_upto(cels@, cels@.len() as int).1
            <= u16::MAX,
    ensures
        ({
            let b = bounds_upto(cels@, cels@.len() as int);
            &&& r.0 == -b.0
            &&& r.1 == -b.1
            &&& r.2 == b.2 - b.0
            &&& r.3 == b.3 - b.1
        }),
{
    proof {
        lemma_bounds_hold(cels@, cels@.len() as int);
    }
    let (min_x, min_y, max_x, max_y) = cels_bounds(cels);
    (-min_x, -min_y, (max_x - min_x) as u16, (max_y - min_y) as u16)
}

/// The box of at least one cel holds that cel: its left edge is at most
/// the cel's, and its right edge at least the cel's right edge.
pub proof fn lemma_bounds_hold(cels: Seq<CelPlacement>, n: int)
    requires
        0 < n <= cels.len(),
    ensures
        forall|i: int|
            0 <= i < n ==> {
                let b = bounds_upto(cels, n);
                &&& b.0 <= (#[trigger] cels[i]).displace_x
                &&& b.1 <= cels[i].displace_y
                &&& b.2 >= cels[i].displace_x + cels[i].width
                &&& b.3 >= cels[i].displace_y + cels[i].height
            },
        bounds_upto(cels, n).0 <= bounds_upto(cels, n).2,
        bounds_upto(cels, n).1 <= bounds_upto(cels, n).3,
    decreases n,
{
    if n > 1 {
        lemma_bounds_hold(cels, n - 1);
    }
}

/// A pixel after the swap of `clear_key` with the transparent index 255.
pub open spec fn swapped_pixel(p: u8, clear_key: u8) -> u8 {
    if p == clear_key {
        255
    } else if p == 255 {
        clear_key
    } else {
        p
    }
}

/// Swaps, in a cel's pixels, its clear color `clear_key` with the sprite's
/// transparent index 255, so that the cel's transparent pixels become the
/// sprite's and the pixels of index 255 keep a color of their own.
pub fn swap_clear_key(pixels: &mut Vec<u8>, clear_key: u8)
    ensures
        final(pixels)@.len() == old(pixels)@.len(),
        forall|i: int|
            0 <= i < old(pixels)@.len() ==> #[trigger] final(pixels)@[i] == swapped_pixel(
                old(pixels)@[i],
                clear_key,
            ),
{
    let mut i: usize = 0;
    while i < pixels.len()
        invariant
            i <= pixels@.len(),
            pixels@.len() == old(pixels)@.len(),
            forall|j: int| 0 <= j < i ==> #[trigger] pixels@[j] == swapped_pixel(old(pixels)@[j], clear_key),
            forall|j: int| i <= j < pixels@.len() ==> #[trigger] pixels@[j] == old(pixels)@[j],
        decreases pixels@.len() - i,
    {
        let p = pixels[i];
        if p == clear_key {
            pixels.set(i, 255);
        } else if p == 255 {
            pixels.set(i, clear_key);
        }
        i = i + 1;
    }
}

/// Swapping twice with the same clear color gives back each pixel, so the
/// sprite's pixels lead back to the view's.
pub proof fn lemma_swap_twice(p: u8, clear_key: u8)
    ensures
        swapped_pixel(swapped_pixel(p, clear_key), clear_key) == p,
{
}

/// The box of at least one cel is the least one that holds them: each of
/// its edges is an edge of some cel.
pub proof fn lemma_bounds_tight(cels: Seq<CelPlacement>, n: int)
    requires
        0 < n <= cels.len(),
    ensures
        exists|i: int| 0 <= i < n && bounds_upto(cels, n).0 == (#[trigger] cels[i]).displace_x,
        exists|i: int| 0 <= i < n && bounds_upto(cels, n).1 == (#[trigger] cels[i]).displace_y,
        exists|i: int|
            0 <= i < n && bounds_upto(cels, n).2 == (#[trigger] cels[i]).displace_x + cels[i].width,
        exists|i: int|
            0 <= i < n && bounds_upto(cels, n).3 == (#[trigger] cels[i]).displace_y + cels[i].height,
    decreases n,
{
    let c = cels[n - 1];
    let b = bounds_upto(cels, n);
    if n > 1 {
        lemma_bounds_tight(cels, n - 1);
    }
    let p = bounds_upto(cels, n - 1);
    if n == 1 || c.displace_x < p.0 {
        assert(b.0 == cels[n - 1].displace_x);
    } else {
        let i = choose|i: int| 0 <= i < n - 1 && p.0 == (#[trigger] cels[i]).displace_x;
        assert(b.0 == cels[i].displace_x);
    }
    if n == 1 || c.displace_y < p.1 {
        assert(b.1 == cels[n - 1].displace_y);
    } else {
        let i = choose|i: int| 0 <= i < n - 1 && p.1 == (#[trigger] cels[i]).displace_y;
        assert(b.1 == cels[i].displace_y);
    }
    if n == 1 || c.displace_x + c.width > p.2 {
        assert(b.2 == cels[n - 1].displace_x + cels[n - 1].width);
    } else {
        let i = choose|i: int| 0 <= i < n - 1 && p.2 == (#[trigger] cels[i]).displace_x + cels[i].width;
        assert(b.2 == cels[i].displace_x + cels[i].width);
    }
    if n == 1 || c.displace_y + c.height > p.3 {
        assert(b.3 == cels[n - 1].displace_y + cels[n - 1].height);
    } else {
        let i = choose|i: int| 0 <= i < n - 1 && p.3 == (#[trigger] cels[i]).displace_y + cels[i].height;
        assert(b.3 == cels[i].displace_y + cels[i].height);
    }
}

/// The swap with a clear color other than 255 turns exactly the pixels of
/// the clear color into 255, exactly the pixels of 255 into the clear
/// color, and leaves every other pixel as it is.
pub proof fn lemma_swap_exchanges(p: u8, clear_key: u8)
    requires
        clear_key != 255,
    ensures
        (swapped_pixel(p, clear_key) == 255) <==> (p == clear_key),
        (swapped_pixel(p, clear_key) == clear_key) <==> (p == 255),
        p != clear_key && p != 255 ==> swapped_pixel(p, clear_key) == p,
{
}

} // verus!
