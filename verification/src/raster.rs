//! Raster geometry shared by the RDP reassembler and the VNC blitter:
//! how the pixels of a dirty rectangle map to cells of a row-major
//! framebuffer, and why that mapping hits each cell at most once.

use vstd::prelude::*;
use vstd::arithmetic::div_mod::lemma_fundamental_div_mod;

verus! {

/// The cell index of pixel `(x, y)` in a row-major raster of the given
/// width.
pub open spec fn cell_of(width: int, x: int, y: int) -> int {
    y * width + x
}

/// The cell that the `p`-th pixel of a rectangle lands in, counting
/// row-major within the rectangle.
pub open spec fn rect_cell(width: int, left: int, top: int, rw: int, p: int) -> int {
    cell_of(width, left + p % rw, top + p / rw)
}

/// Whether a cell lies inside the given rectangle.
pub open spec fn covered(width: int, left: int, top: int, rw: int, rh: int, cell: int) -> bool {
    let y = cell / width;
    let x = cell % width;
    top <= y < top + rh && left <= x < left + rw
}

/// The rectangle pixel that covers a cell; meaningful only for covered
/// cells.
pub open spec fn pixel_of_cell(width: int, left: int, top: int, rw: int, cell: int) -> int {
    (cell / width - top) * rw + (cell % width - left)
}

/// Each pixel of a rectangle that fits the raster lands on a distinct
/// in-range cell that it covers, and is recovered from that cell.
pub proof fn lemma_rect_cells(width: int, height: int, left: int, top: int, rw: int, rh: int)
    requires
        0 < rw,
        0 <= left,
        0 <= top,
        left + rw <= width,
        top + rh <= height,
    ensures
        forall|p: int|
            0 <= p < rw * rh ==> {
                let cell = #[trigger] rect_cell(width, left, top, rw, p);
                &&& 0 <= cell < width * height
                &&& covered(width, left, top, rw, rh, cell)
                &&& pixel_of_cell(width, left, top, rw, cell) == p
            },
{
    assert forall|p: int| 0 <= p < rw * rh implies {
        let cell = #[trigger] rect_cell(width, left, top, rw, p);
        &&& 0 <= cell < width * height
        &&& covered(width, left, top, rw, rh, cell)
        &&& pixel_of_cell(width, left, top, rw, cell) == p
    } by {
        let x = left + p % rw;
        let y = top + p / rw;
        let cell = rect_cell(width, left, top, rw, p);
        assert(0 <= p % rw < rw && p / rw >= 0 && p / rw < rh) by (nonlinear_arith)
            requires
                0 < rw,
                0 <= p,
                p < rw * rh,
        ;
        assert(cell == y * width + x);
        assert(0 <= cell < width * height && cell / width == y && cell % width == x)
            by (nonlinear_arith)
            requires
                cell == y * width + x,
                0 <= x < width,
                0 <= y,
                y < height,
        ;
        lemma_fundamental_div_mod(p, rw);
        assert((y - top) * rw + (x - left) == p) by (nonlinear_arith)
            requires
                x == left + p % rw,
                y == top + p / rw,
                0 < rw,
                0 <= p,
                p == rw * (p / rw) + p % rw,
        ;
    }
}

/// Every covered in-range cell is hit by exactly the rectangle pixel
/// that `pixel_of_cell` names.
pub proof fn lemma_covered_cells(width: int, height: int, left: int, top: int, rw: int, rh: int)
    requires
        0 < rw,
        0 <= left,
        0 <= top,
        left + rw <= width,
        top + rh <= height,
    ensures
        forall|cell: int|
            0 <= cell < width * height && #[trigger] covered(width, left, top, rw, rh, cell) ==> {
                let p = pixel_of_cell(width, left, top, rw, cell);
                &&& 0 <= p < rw * rh
                &&& rect_cell(width, left, top, rw, p) == cell
            },
{
    assert forall|cell: int|
        0 <= cell < width * height && #[trigger] covered(
            width,
            left,
            top,
            rw,
            rh,
            cell,
        ) implies {
        let p = pixel_of_cell(width, left, top, rw, cell);
        &&& 0 <= p < rw * rh
        &&& rect_cell(width, left, top, rw, p) == cell
    } by {
        let y = cell / width;
        let x = cell % width;
        let p = (y - top) * rw + (x - left);
        assert(0 <= x - left < rw && 0 <= y - top < rh);
        assert(0 <= p < rw * rh && p / rw == y - top && p % rw == x - left) by (nonlinear_arith)
            requires
                p == (y - top) * rw + (x - left),
                0 <= x - left < rw,
                0 <= y - top,
                y - top < rh,
        ;
        assert(cell == y * width + x) by (nonlinear_arith)
            requires
                y == cell / width,
                x == cell % width,
                width > 0,
                cell >= 0,
        ;
    }
}

/// A zeroed byte raster.
pub fn zero_vec_u8(n: usize) -> (v: Vec<u8>)
    ensures
        v@ == Seq::new(n as nat, |i: int| 0u8),
{
    let mut v: Vec<u8> = Vec::new();
    let mut k: usize = 0;
    while k < n
        invariant
            k <= n,
            v@ =~= Seq::new(k as nat, |i: int| 0u8),
        decreases n - k,
    {
        v.push(0);
        k = k + 1;
        proof {
            assert(v@ =~= Seq::new(k as nat, |i: int| 0u8));
        }
    }
    proof {
        assert(v@ =~= Seq::new(n as nat, |i: int| 0u8));
    }
    v
}

/// A zeroed 16-bit raster.
pub fn zero_vec_u16(n: usize) -> (v: Vec<u16>)
    ensures
        v@ == Seq::new(n as nat, |i: int| 0u16),
{
    let mut v: Vec<u16> = Vec::new();
    let mut k: usize = 0;
    while k < n
        invariant
            k <= n,
            v@ =~= Seq::new(k as nat, |i: int| 0u16),
        decreases n - k,
    {
        v.push(0);
        k = k + 1;
        proof {
            assert(v@ =~= Seq::new(k as nat, |i: int| 0u16));
        }
    }
    proof {
        assert(v@ =~= Seq::new(n as nat, |i: int| 0u16));
    }
    v
}

} // verus!
