//! Pictures held in memory as grids of RGBA pixels, and the few operations
//! the mosaic needs on them: reading a pixel, writing a pixel, and pasting
//! one picture into another.

use vstd::prelude::*;
use vstd::arithmetic::div_mod::{
    lemma_fundamental_div_mod,
    lemma_fundamental_div_mod_converse,
    lemma_mod_pos_bound,
};

verus! {

/// One pixel: red, green, blue and alpha, eight bits each.
#[derive(Clone, Copy, Debug, PartialEq, Eq, Structural)]
pub struct Rgba {
    pub r: u8,
    pub g: u8,
    pub b: u8,
    pub a: u8,
}

/// The mathematical model of a picture: its width and height in pixels and
/// its samples, four per pixel in the order red, green, blue, alpha, the
/// pixels row by row from the top left.
#[verifier::ext_equal]
pub struct Picture {
    pub width: nat,
    pub height: nat,
    pub data: Seq<u8>,
}

impl Picture {
    /// A picture is well formed when it holds exactly four samples for each
    /// of its pixels, and its width and height are 32-bit numbers.
    pub open spec fn wf(self) -> bool {
        &&& self.width <= u32::MAX
        &&& self.height <= u32::MAX
        &&& self.data.len() == self.width * self.height * 4
    }

    pub open spec fn pixel_count(self) -> nat {
        self.width * self.height
    }

    /// Whether `(x, y)` names a pixel of this picture.
    pub open spec fn contains(self, x: int, y: int) -> bool {
        0 <= x < self.width && 0 <= y < self.height
    }

    /// Where the four samples of pixel `(x, y)` start in `data`.
    pub open spec fn offset(self, x: int, y: int) -> int {
        (y * self.width + x) * 4
    }

    /// The column of the pixel that the sample at index `k` belongs to.
    pub open spec fn col_of(self, k: int) -> int {
        (k / 4) % (self.width as int)
    }

    /// The row of the pixel that the sample at index `k` belongs to.
    pub open spec fn row_of(self, k: int) -> int {
        (k / 4) / (self.width as int)
    }

    /// The pixel at column `x` of row `y`.
    pub open spec fn pixel(self, x: int, y: int) -> Rgba {
        let o = self.offset(x, y);
        Rgba { r: self.data[o], g: self.data[o + 1], b: self.data[o + 2], a: self.data[o + 3] }
    }

    /// The picture of the given size whose samples are all zero: every pixel
    /// is transparent black.
    pub open spec fn blank(width: nat, height: nat) -> Picture {
        Picture { width, height, data: Seq::new(width * height * 4, |k: int| 0u8) }
    }

    /// This picture with pixel `(x, y)` replaced by `p`.
    pub open spec fn with_pixel(self, x: int, y: int, p: Rgba) -> Picture {
        let o = self.offset(x, y);
        Picture {
            width: self.width,
            height: self.height,
            data: self.data.update(o, p.r).update(o + 1, p.g).update(o + 2, p.b).update(o + 3, p.a),
        }
    }

    /// Whether `other`, placed with its top left corner at `(x, y)`, lies
    /// wholly inside this picture.
    pub open spec fn fits(self, other: Picture, x: int, y: int) -> bool {
        x + other.width <= self.width && y + other.height <= self.height
    }

    /// Whether the sample at index `k` lies under `other` when `other` is
    /// placed at `(x, y)`.
    pub open spec fn covered(self, other: Picture, x: int, y: int, k: int) -> bool {
        &&& x <= self.col_of(k) < x + other.width
        &&& y <= self.row_of(k) < y + other.height
    }

    /// The sample of `other` that lands on index `k` of this picture when
    /// `other` is placed at `(x, y)`.
    pub open spec fn covering_sample(self, other: Picture, x: int, y: int, k: int) -> u8 {
        other.data[other.offset(self.col_of(k) - x, self.row_of(k) - y) + k % 4]
    }

    /// The result of pasting `other` into this picture with its top left
    /// corner at `(x, y)`: the pixels under `other` are replaced by those of
    /// `other`, all others stay. Where `other` does not fit, nothing is
    /// pasted and the result is this picture unchanged.
    pub open spec fn overlay(self, other: Picture, x: int, y: int) -> Picture {
        if self.fits(other, x, y) {
            Picture {
                width: self.width,
                height: self.height,
                data: Seq::new(
                    self.data.len(),
                    |k: int|
                        if self.covered(other, x, y, k) {
                            self.covering_sample(other, x, y, k)
                        } else {
                            self.data[k]
                        },
                ),
            }
        } else {
            self
        }
    }

    /// The state of a paste in progress: the first `rows` rows of `other`
    /// and the first `cols` pixels of the next row have been pasted.
    spec fn partly_overlaid(self, other: Picture, x: int, y: int, rows: int, cols: int) -> Picture {
        Picture {
            width: self.width,
            height: self.height,
            data: Seq::new(
                self.data.len(),
                |k: int|
                    if self.covered(other, x, y, k) && (self.row_of(k) - y < rows || (self.row_of(k)
                        - y == rows && self.col_of(k) - x < cols)) {
                        self.covering_sample(other, x, y, k)
                    } else {
                        self.data[k]
                    },
            ),
        }
    }
}

/// The samples of pixel `(x, y)` lie inside the data of a well-formed
/// picture that contains the pixel.
pub proof fn lemma_offset_in_bounds(p: Picture, x: int, y: int)
    requires
        p.wf(),
        p.contains(x, y),
    ensures
        0 <= y * p.width,
        0 <= p.offset(x, y),
        p.offset(x, y) + 4 <= p.data.len(),
        y * p.width + x < p.pixel_count(),
{
    let w = p.width as int;
    let h = p.height as int;
    assert(0 <= y * w && y * w + x < w * h) by (nonlinear_arith)
        requires
            0 <= x < w,
            0 <= y < h,
    ;
}

/// The sample at channel `c` of pixel `(x, y)` belongs to column `x` and
/// row `y`.
pub proof fn lemma_coords_of_offset(p: Picture, x: int, y: int, c: int)
    requires
        0 <= x < p.width,
        0 <= y,
        0 <= c < 4,
    ensures
        p.col_of(p.offset(x, y) + c) == x,
        p.row_of(p.offset(x, y) + c) == y,
        (p.offset(x, y) + c) % 4 == c,
        p.offset(x, y) + c >= 0,
{
    let w = p.width as int;
    let q = y * w + x;
    assert(y * w >= 0) by (nonlinear_arith)
        requires
            y >= 0,
            w > 0,
    ;
    assert((q * 4 + c) / 4 == q);
    lemma_fundamental_div_mod_converse(q, w, y, x);
}

/// Every sample of a well-formed picture is some channel of some pixel of
/// the picture.
pub proof fn lemma_offset_of_coords(p: Picture, k: int)
    requires
        p.wf(),
        0 <= k < p.data.len(),
    ensures
        p.contains(p.col_of(k), p.row_of(k)),
        k == p.offset(p.col_of(k), p.row_of(k)) + k % 4,
        0 <= k % 4 < 4,
{
    let w = p.width as int;
    let h = p.height as int;
    let q = k / 4;
    assert(w > 0 && h > 0) by (nonlinear_arith)
        requires
            w >= 0,
            h >= 0,
            w * h * 4 > 0,
    ;
    assert(q < w * h);
    lemma_fundamental_div_mod(q, w);
    lemma_mod_pos_bound(q, w);
    let row = q / w;
    let col = q % w;
    assert(w * row == row * w) by (nonlinear_arith);
    assert(0 <= row < h) by (nonlinear_arith)
        requires
            q == row * w + col,
            0 <= col < w,
            0 <= q < w * h,
    ;
}

/// Every pixel of a blank picture is transparent black.
pub proof fn lemma_blank_pixel(width: nat, height: nat, x: int, y: int)
    requires
        width <= u32::MAX,
        height <= u32::MAX,
        0 <= x < width,
        0 <= y < height,
    ensures
        Picture::blank(width, height).wf(),
        Picture::blank(width, height).pixel(x, y) == (Rgba { r: 0, g: 0, b: 0, a: 0 }),
{
    let p = Picture::blank(width, height);
    lemma_offset_in_bounds(p, x, y);
}

/// What `overlay` means pixel by pixel: a pixel under the pasted picture is
/// the pixel of the pasted picture, and every other pixel stays.
pub proof fn lemma_overlay_pixel(pic: Picture, other: Picture, x: int, y: int, x2: int, y2: int)
    requires
        pic.wf(),
        other.wf(),
        0 <= x,
        0 <= y,
        pic.fits(other, x, y),
        pic.contains(x2, y2),
    ensures
        pic.overlay(other, x, y).wf(),
        pic.overlay(other, x, y).pixel(x2, y2) == if x <= x2 < x + other.width && y <= y2 < y
            + other.height {
            other.pixel(x2 - x, y2 - y)
        } else {
            pic.pixel(x2, y2)
        },
{
    lemma_offset_in_bounds(pic, x2, y2);
    lemma_coords_of_offset(pic, x2, y2, 0);
    lemma_coords_of_offset(pic, x2, y2, 1);
    lemma_coords_of_offset(pic, x2, y2, 2);
    lemma_coords_of_offset(pic, x2, y2, 3);
}

/// A picture in memory.
///
/// The samples are bytes, four per pixel (red, green, blue, alpha), row by
/// row from the top left.
#[derive(Debug)]
pub struct Raster {
    width: u32,
    height: u32,
    data: Vec<u8>,
}

impl View for Raster {
    type V = Picture;

    closed spec fn view(&self) -> Picture {
        Picture { width: self.width as nat, height: self.height as nat, data: self.data@ }
    }
}

impl Raster {
    /// A raster is well formed when it holds exactly four bytes per pixel.
    pub open spec fn wf(&self) -> bool {
        self@.wf()
    }

    /// Makes a picture of the given size with every sample zero.
    pub fn new(width: u32, height: u32) -> (img: Raster)
        requires
            width * height * 4 <= usize::MAX,
        ensures
            img.wf(),
            img@ == Picture::blank(width as nat, height as nat),
    {
        assert(width * height <= width * height * 4) by (nonlinear_arith);
        let n: usize = (width as usize) * (height as usize) * 4;
        let data: Vec<u8> = vec![0u8; n];
        assert(data@ =~= Seq::new((width as nat) * (height as nat) * 4, |k: int| 0u8));
        Raster { width, height, data }
    }

    /// Makes a picture of the given size from its samples. The number of
    /// samples must be exactly four times the number of pixels; otherwise
    /// there is no such picture.
    pub fn from_raw(width: u32, height: u32, data: Vec<u8>) -> (r: Option<Raster>)
        ensures
            r is Some <==> data.len() == width * height * 4,
            r matches Some(img) ==> img.wf() && img@ == (Picture {
                width: width as nat,
                height: height as nat,
                data: data@,
            }),
    {
        assert(width * height <= 0xffff_ffff * 0xffff_ffff) by (nonlinear_arith)
            requires
                width <= 0xffff_ffff,
                height <= 0xffff_ffff,
        ;
        let needed: u128 = (width as u128) * (height as u128) * 4;
        if data.len() as u128 == needed {
            Some(Raster { width, height, data })
        } else {
            None
        }
    }

    pub fn width(&self) -> (w: u32)
        ensures
            w == self@.width,
    {
        self.width
    }

    pub fn height(&self) -> (h: u32)
        ensures
            h == self@.height,
    {
        self.height
    }

    /// The width and the height of the picture.
    pub fn dimensions(&self) -> (d: (u32, u32))
        ensures
            d.0 == self@.width,
            d.1 == self@.height,
    {
        (self.width, self.height)
    }

    /// The samples of the picture.
    pub fn as_raw(&self) -> (data: &Vec<u8>)
        ensures
            data@ == self@.data,
    {
        &self.data
    }

    /// Reads the pixel at column `x` of row `y`.
    pub fn get_pixel(&self, x: u32, y: u32) -> (p: Rgba)
        requires
            self.wf(),
            self@.contains(x as int, y as int),
        ensures
            p == self@.pixel(x as int, y as int),
    {
        proof {
            lemma_offset_in_bounds(self@, x as int, y as int);
            assert(self@.data.len() == self.data.len());
        }
        let o: usize = ((y as usize) * (self.width as usize) + (x as usize)) * 4;
        Rgba { r: self.data[o], g: self.data[o + 1], b: self.data[o + 2], a: self.data[o + 3] }
    }

    /// Writes `p` to the pixel at column `x` of row `y`.
    pub fn put_pixel(&mut self, x: u32, y: u32, p: Rgba)
        requires
            old(self).wf(),
            old(self)@.contains(x as int, y as int),
        ensures
            final(self).wf(),
            final(self)@ == old(self)@.with_pixel(x as int, y as int, p),
    {
        proof {
            lemma_offset_in_bounds(self@, x as int, y as int);
            assert(self@.data.len() == self.data.len());
        }
        let o: usize = ((y as usize) * (self.width as usize) + (x as usize)) * 4;
        self.data.set(o, p.r);
        self.data.set(o + 1, p.g);
        self.data.set(o + 2, p.b);
        self.data.set(o + 3, p.a);
    }

    /// Pastes `other` into this picture with its top left corner at
    /// `(x, y)` and tells whether it did. Where `other` does not fit wholly
    /// inside this picture, nothing is pasted.
    pub fn copy_from(&mut self, other: &Raster, x: u32, y: u32) -> (copied: bool)
        requires
            old(self).wf(),
            other.wf(),
        ensures
            final(self).wf(),
            copied == old(self)@.fits(other@, x as int, y as int),
            final(self)@ == old(self)@.overlay(other@, x as int, y as int),
    {
        if x as u64 + other.width as u64 > self.width as u64 || y as u64 + other.height as u64
            > self.height as u64 {
            return false;
        }
        let ghost before = self@;
        let ghost src = other@;
        assert(self@ =~= before.partly_overlaid(src, x as int, y as int, 0, 0));
        let mut row: u32 = 0;
        while row < other.height
            invariant
                before.wf(),
                other.wf(),
                src == other@,
                before.fits(src, x as int, y as int),
                row <= other.height,
                self@ == before.partly_overlaid(src, x as int, y as int, row as int, 0),
            decreases other.height - row,
        {
            let mut col: u32 = 0;
            while col < other.width
                invariant
                    before.wf(),
                    other.wf(),
                    src == other@,
                    before.fits(src, x as int, y as int),
                    row < other.height,
                    col <= other.width,
                    self@ == before.partly_overlaid(
                        src,
                        x as int,
                        y as int,
                        row as int,
                        col as int,
                    ),
                decreases other.width - col,
            {
                let p = other.get_pixel(col, row);
                self.put_pixel(x + col, y + row, p);
                proof {
                    lemma_paste_step(before, src, x as int, y as int, row as int, col as int);
                }
                col += 1;
            }
            assert(before.partly_overlaid(src, x as int, y as int, row as int, col as int)
                =~= before.partly_overlaid(src, x as int, y as int, row + 1, 0));
            row += 1;
        }
        assert(before.partly_overlaid(src, x as int, y as int, row as int, 0) =~= before.overlay(
            src,
            x as int,
            y as int,
        ));
        true
    }
}

/// Pasting one more pixel of `other` takes a paste in progress to the next
/// state.
proof fn lemma_paste_step(pic: Picture, other: Picture, x: int, y: int, row: int, col: int)
    requires
        pic.wf(),
        other.wf(),
        0 <= x,
        0 <= y,
        pic.fits(other, x, y),
        0 <= row < other.height,
        0 <= col < other.width,
    ensures
        pic.partly_overlaid(other, x, y, row, col).with_pixel(
            x + col,
            y + row,
            other.pixel(col, row),
        ) == pic.partly_overlaid(other, x, y, row, col + 1),
{
    let cur = pic.partly_overlaid(other, x, y, row, col);
    let p = other.pixel(col, row);
    let next = cur.with_pixel(x + col, y + row, p);
    let goal = pic.partly_overlaid(other, x, y, row, col + 1);
    let o = pic.offset(x + col, y + row);
    assert(cur.offset(x + col, y + row) == o);
    lemma_offset_in_bounds(pic, x + col, y + row);
    assert forall|k: int| 0 <= k < pic.data.len() implies next.data[k] == goal.data[k] by {
        lemma_offset_of_coords(pic, k);
        if o <= k < o + 4 {
            lemma_coords_of_offset(pic, x + col, y + row, k - o);
        } else {
            if pic.col_of(k) == x + col && pic.row_of(k) == y + row {
                assert(k == o + k % 4);
            }
        }
    }
    assert(next.data =~= goal.data);
}

} // verus!
