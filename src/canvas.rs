use crate::models::RGBPixel;
use vstd::prelude::*;

verus! {

/// The color of a cell that was never written.
pub open spec fn white() -> RGBPixel {
    RGBPixel { r: 255, g: 255, b: 255 }
}

/// A canvas of `n` cells that were never written.
pub open spec fn blank(n: nat) -> Seq<RGBPixel> {
    Seq::new(n, |_i: int| white())
}

/// The canvas that a stored payload stands for: the payload itself when it
/// holds exactly `size` cells, else a blank canvas of that size.
pub open spec fn healed(stored: Option<Seq<RGBPixel>>, size: nat) -> Seq<RGBPixel> {
    match stored {
        Some(s) => if s.len() == size {
            s
        } else {
            blank(size)
        },
        None => blank(size),
    }
}

/// The view of an optional stored payload.
pub open spec fn payload(stored: Option<Vec<RGBPixel>>) -> Option<Seq<RGBPixel>> {
    match stored {
        Some(v) => Some(v@),
        None => None,
    }
}

/// The row-major offset of cell `(x, y)` in a canvas `width` cells wide.
pub open spec fn offset(width: nat, x: nat, y: nat) -> nat {
    y * width + x
}

/// The cell `(x, y)` lies on a `width` by `height` canvas.
pub open spec fn in_bounds(width: nat, height: nat, x: nat, y: nat) -> bool {
    x < width && y < height
}

/// A canvas of `width` by `height` cells is one a game can have: both
/// dimensions are at least 1 and the number of cells fits in a `usize`.
pub open spec fn valid_size(width: usize, height: usize) -> bool {
    width >= 1 && height >= 1 && width * height <= usize::MAX
}

/// The color of a cell that was never written.
pub fn white_pixel() -> (r: RGBPixel)
    ensures
        r == white(),
{
    RGBPixel { r: 255, g: 255, b: 255 }
}

/// A canvas of `size` white cells.
pub fn blank_grid(size: usize) -> (r: Vec<RGBPixel>)
    ensures
        r@ == blank(size as nat),
{
    let mut v: Vec<RGBPixel> = Vec::with_capacity(size);
    let w = white_pixel();
    let mut i: usize = 0;
    while i < size
        invariant
            i <= size,
            w == white(),
            v@ == blank(i as nat),
        decreases size - i,
    {
        v.push(w);
        i = i + 1;
        assert(v@ =~= blank(i as nat));
    }
    v
}

/// The canvas that a stored payload stands for; a payload that is absent or
/// of the wrong size is replaced by a blank canvas.
pub fn heal_grid(stored: Option<Vec<RGBPixel>>, size: usize) -> (r: Vec<RGBPixel>)
    ensures
        r@ == healed(payload(stored), size as nat),
        r@.len() == size,
{
    match stored {
        Some(v) => {
            if v.len() == size {
                v
            } else {
                blank_grid(size)
            }
        },
        None => blank_grid(size),
    }
}

/// The row-major offset of `(x, y)` on a `width` by `height` canvas, or `None`
/// where the cell lies outside it.
pub fn cell_offset(width: usize, height: usize, x: usize, y: usize) -> (r: Option<usize>)
    requires
        width * height <= usize::MAX,
    ensures
        r.is_some() == in_bounds(width as nat, height as nat, x as nat, y as nat),
        r.is_some() ==> r.unwrap() == offset(width as nat, x as nat, y as nat),
        r.is_some() ==> r.unwrap() < width * height,
{
    if x < width && y < height {
        proof {
            lemma_offset_in_grid(width as nat, height as nat, x as nat, y as nat);
        }
        Some(y * width + x)
    } else {
        None
    }
}

/// A cell on the canvas has an offset inside it.
pub proof fn lemma_offset_in_grid(width: nat, height: nat, x: nat, y: nat)
    requires
        in_bounds(width, height, x, y),
    ensures
        offset(width, x, y) < width * height,
{
    assert(y * width + x < width * height) by (nonlinear_arith)
        requires
            x < width,
            y < height,
    ;
}

} // verus!
