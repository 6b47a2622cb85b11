//! Putting the mosaic together: the target is cut into cells, one pixel of
//! each cell is sampled, the tiles of the nearest colour are looked up, one
//! of them is picked by chance and pasted where the cell is.

use vstd::prelude::*;
use vstd::arithmetic::div_mod::{lemma_fundamental_div_mod, lemma_fundamental_div_mod_converse};
use crate::chance::pick_index;
use crate::codec::{decode, encode_png, picture_of, png_of};
use crate::color::MyColor;
use crate::database::{Catalog, TileDb};
use crate::matcher::{lemma_nearest_exists, nearest, nearest_color};
use crate::raster::{lemma_blank_pixel, lemma_overlay_pixel, Picture, Raster, Rgba};

verus! {

/// The size of one cell of the mosaic, in pixels.
///
/// The target is sampled every `w_numb` pixels along a row and every
/// `h_numb` pixels down a column, and each tile is expected to be `w_numb`
/// pixels wide and `h_numb` pixels high. Both numbers are positive.
#[derive(Clone, Copy, Debug)]
pub struct GridConfig {
    w_numb: u32,
    h_numb: u32,
}

impl GridConfig {
    pub closed spec fn cell_w(&self) -> nat {
        self.w_numb as nat
    }

    pub closed spec fn cell_h(&self) -> nat {
        self.h_numb as nat
    }

    /// Both numbers of a configuration are positive.
    pub open spec fn wf(&self) -> bool {
        self.cell_w() > 0 && self.cell_h() > 0
    }

    /// Makes a configuration. There is none with a zero in it.
    pub fn new(w_numb: u32, h_numb: u32) -> (r: Option<GridConfig>)
        ensures
            r is Some <==> w_numb > 0 && h_numb > 0,
            r matches Some(config) ==> config.wf() && config.cell_w() == w_numb && config.cell_h()
                == h_numb,
    {
        if w_numb > 0 && h_numb > 0 {
            Some(GridConfig { w_numb, h_numb })
        } else {
            None
        }
    }

    pub fn w_numb(&self) -> (w: u32)
        ensures
            w == self.cell_w(),
    {
        self.w_numb
    }

    pub fn h_numb(&self) -> (h: u32)
        ensures
            h == self.cell_h(),
    {
        self.h_numb
    }

    /// How a target is cut into cells under this configuration.
    pub open spec fn grid(&self, target: Picture) -> Grid {
        Grid::over(target, self.cell_w(), self.cell_h())
    }
}

impl Default for GridConfig {
    /// Cells of ten by ten pixels.
    fn default() -> (config: GridConfig)
        ensures
            config.wf(),
            config.cell_w() == 10,
            config.cell_h() == 10,
    {
        GridConfig { w_numb: 10, h_numb: 10 }
    }
}

/// How a picture is cut into cells: the size of a cell, and how many cells
/// there are in a row and in a column. The cells are numbered row by row
/// from the top left.
pub struct Grid {
    pub cell_w: nat,
    pub cell_h: nat,
    pub cols: nat,
    pub rows: nat,
}

impl Grid {
    /// The grid of as many whole cells as fit into `target`. What is left
    /// over at the right and at the bottom belongs to no cell.
    pub open spec fn over(target: Picture, cell_w: nat, cell_h: nat) -> Grid {
        Grid {
            cell_w,
            cell_h,
            cols: (target.width as int / cell_w as int) as nat,
            rows: (target.height as int / cell_h as int) as nat,
        }
    }

    pub open spec fn cells(self) -> nat {
        self.cols * self.rows
    }

    /// The width of all cells of a row together.
    pub open spec fn width(self) -> nat {
        self.cols * self.cell_w
    }

    /// The height of all cells of a column together.
    pub open spec fn height(self) -> nat {
        self.rows * self.cell_h
    }

    /// The column of pixels at which cell `k` starts.
    pub open spec fn cell_x(self, k: int) -> int {
        (k % self.cols as int) * self.cell_w
    }

    /// The row of pixels at which cell `k` starts.
    pub open spec fn cell_y(self, k: int) -> int {
        (k / self.cols as int) * self.cell_h
    }

    /// The cell that pixel `(x, y)` lies in.
    pub open spec fn cell_of(self, x: int, y: int) -> int {
        (y / self.cell_h as int) * self.cols + x / self.cell_w as int
    }
}

/// The colour sampled for cell `k`: that of the pixel of the target at the
/// top left corner of the cell.
pub open spec fn cell_color(target: Picture, grid: Grid, k: int) -> MyColor {
    let p = target.pixel(grid.cell_x(k), grid.cell_y(k));
    MyColor { r: p.r, g: p.g, b: p.b }
}

/// The colour of the database under which the tile for cell `k` is looked
/// up.
pub open spec fn cell_key(target: Picture, db: Catalog, grid: Grid, k: int) -> MyColor {
    nearest(cell_color(target, grid, k), db.dom())
}

/// Whether `picks` names, for each of the first `n` cells, one of the
/// candidates for that cell.
pub open spec fn picks_among(target: Picture, db: Catalog, grid: Grid, picks: Seq<int>, n: int)
    -> bool {
    forall|k: int|
        0 <= k < n ==> 0 <= #[trigger] picks[k] < db[cell_key(target, db, grid, k)].len()
}

/// Whether `picks` names one of the candidates for each cell of the grid.
pub open spec fn valid_picks(target: Picture, db: Catalog, grid: Grid, picks: Seq<int>) -> bool {
    picks.len() == grid.cells() && picks_among(target, db, grid, picks, grid.cells() as int)
}

/// The picture of the tile picked for cell `k`.
pub open spec fn picked_tile(target: Picture, db: Catalog, grid: Grid, picks: Seq<int>, k: int)
    -> Picture {
    db[cell_key(target, db, grid, k)][picks[k]].image
}

/// The mosaic after its first `n` cells are filled: onto a blank picture,
/// the picked tiles are pasted cell by cell.
pub open spec fn composed(target: Picture, db: Catalog, grid: Grid, picks: Seq<int>, n: nat)
    -> Picture
    decreases n,
{
    if n == 0 {
        Picture::blank(grid.width(), grid.height())
    } else {
        let k = n - 1;
        composed(target, db, grid, picks, k as nat).overlay(
            picked_tile(target, db, grid, picks, k),
            grid.cell_x(k),
            grid.cell_y(k),
        )
    }
}

/// The finished mosaic of `target` with the tiles of `db`, where `picks`
/// says which candidate was taken for each cell.
pub open spec fn mosaic(target: Picture, db: Catalog, grid: Grid, picks: Seq<int>) -> Picture {
    composed(target, db, grid, picks, grid.cells())
}

/// Whether `out` is the mosaic of `target` with the tiles of `db` for the
/// picks `picks`, and `picks` names one of the candidates for each cell.
pub open spec fn made_with(
    target: Picture,
    db: Catalog,
    grid: Grid,
    picks: Seq<int>,
    out: Picture,
) -> bool {
    valid_picks(target, db, grid, picks) && out == mosaic(target, db, grid, picks)
}

/// The first `n` cells of a mosaic depend on the first `n` picks only.
pub proof fn lemma_composed_prefix(
    target: Picture,
    db: Catalog,
    grid: Grid,
    one: Seq<int>,
    other: Seq<int>,
    n: nat,
)
    requires
        forall|k: int| 0 <= k < n ==> one[k] == other[k],
    ensures
        composed(target, db, grid, one, n) == composed(target, db, grid, other, n),
    decreases n,
{
    if n > 0 {
        lemma_composed_prefix(target, db, grid, one, other, (n - 1) as nat);
    }
}

/// A mosaic is as wide and as high as all the cells of the grid together,
/// whatever is picked.
pub proof fn lemma_composed_size(target: Picture, db: Catalog, grid: Grid, picks: Seq<int>, n: nat)
    ensures
        composed(target, db, grid, picks, n).width == grid.width(),
        composed(target, db, grid, picks, n).height == grid.height(),
    decreases n,
{
    if n > 0 {
        lemma_composed_size(target, db, grid, picks, (n - 1) as nat);
    }
}

/// Where every colour of the database has a single tile, the mosaic does
/// not depend on chance: any two runs on the same target give the same
/// picture, and so the same PNG file.
pub proof fn lemma_single_candidates(
    target: Picture,
    db: Catalog,
    grid: Grid,
    one: Seq<int>,
    other: Seq<int>,
)
    requires
        db.dom().finite(),
        db.dom().len() > 0,
        forall|c: MyColor| #[trigger] db.contains_key(c) ==> db[c].len() == 1,
        valid_picks(target, db, grid, one),
        valid_picks(target, db, grid, other),
    ensures
        mosaic(target, db, grid, one) == mosaic(target, db, grid, other),
        png_outcome(mosaic(target, db, grid, one)) == png_outcome(mosaic(target, db, grid, other)),
{
    assert forall|k: int| 0 <= k < grid.cells() implies one[k] == other[k] by {
        lemma_nearest_exists(cell_color(target, grid, k), db.dom());
        assert(db.contains_key(cell_key(target, db, grid, k)));
        assert(0 <= one[k] < 1);
        assert(0 <= other[k] < 1);
    }
    lemma_composed_prefix(target, db, grid, one, other, grid.cells());
}

/// Where a pixel of the mosaic lies: in a cell of the grid, at the place
/// that the remainders of its coordinates name.
pub proof fn lemma_cell_of(target: Picture, grid: Grid, x: int, y: int)
    requires
        target.wf(),
        grid.cell_w > 0,
        grid.cell_h > 0,
        grid == Grid::over(target, grid.cell_w, grid.cell_h),
        0 <= x < grid.width(),
        0 <= y < grid.height(),
    ensures
        0 <= grid.cell_of(x, y) < grid.cells(),
        grid.cell_x(grid.cell_of(x, y)) == x - x % (grid.cell_w as int),
        grid.cell_y(grid.cell_of(x, y)) == y - y % (grid.cell_h as int),
        0 <= x % (grid.cell_w as int) < grid.cell_w,
        0 <= y % (grid.cell_h as int) < grid.cell_h,
{
    let cw = grid.cell_w as int;
    let ch = grid.cell_h as int;
    let cols = grid.cols as int;
    let rows = grid.rows as int;
    let j = x / cw;
    let i = y / ch;
    lemma_fundamental_div_mod(x, cw);
    lemma_fundamental_div_mod(y, ch);
    assert(0 <= j < cols) by (nonlinear_arith)
        requires
            x == cw * j + x % cw,
            0 <= x % cw < cw,
            0 <= x < cols * cw,
    ;
    assert(0 <= i < rows) by (nonlinear_arith)
        requires
            y == ch * i + y % ch,
            0 <= y % ch < ch,
            0 <= y < rows * ch,
    ;
    lemma_cell(target, grid, i, j);
    assert(j * cw == cw * j && i * ch == ch * i) by (nonlinear_arith);
}

/// A pixel of the mosaic lies under the place of a cell exactly when it
/// lies in that cell.
proof fn lemma_under_cell(target: Picture, grid: Grid, k: int, x: int, y: int)
    requires
        target.wf(),
        grid.cell_w > 0,
        grid.cell_h > 0,
        grid == Grid::over(target, grid.cell_w, grid.cell_h),
        0 <= k < grid.cells(),
        0 <= x < grid.width(),
        0 <= y < grid.height(),
    ensures
        0 <= grid.cell_x(k),
        0 <= grid.cell_y(k),
        grid.cell_x(k) + grid.cell_w <= grid.width(),
        grid.cell_y(k) + grid.cell_h <= grid.height(),
        grid.width() <= target.width,
        grid.height() <= target.height,
        (grid.cell_x(k) <= x < grid.cell_x(k) + grid.cell_w && grid.cell_y(k) <= y < grid.cell_y(k)
            + grid.cell_h) <==> grid.cell_of(x, y) == k,
{
    let cw = grid.cell_w as int;
    let ch = grid.cell_h as int;
    let cols = grid.cols as int;
    let rows = grid.rows as int;
    assert(cols > 0 && rows > 0) by (nonlinear_arith)
        requires
            cols >= 0,
            rows >= 0,
            cols * rows > 0,
    ;
    let i = k / cols;
    let j = k % cols;
    lemma_fundamental_div_mod(k, cols);
    assert(0 <= i < rows) by (nonlinear_arith)
        requires
            k == cols * i + j,
            0 <= j < cols,
            0 <= k < cols * rows,
    ;
    assert(cols * i == i * cols) by (nonlinear_arith);
    lemma_cell(target, grid, i, j);
    lemma_cell_of(target, grid, x, y);
    let j2 = x / cw;
    let i2 = y / ch;
    if grid.cell_of(x, y) == k {
        lemma_fundamental_div_mod(x, cw);
        lemma_fundamental_div_mod(y, ch);
        assert(0 <= j2 < cols && 0 <= i2) by (nonlinear_arith)
            requires
                x == cw * j2 + x % cw,
                0 <= x % cw < cw,
                0 <= x < cols * cw,
                y == ch * i2 + y % ch,
                0 <= y % ch < ch,
                0 <= y,
                cw > 0,
                ch > 0,
        ;
        lemma_fundamental_div_mod_converse(k, cols, i2, j2);
    }
    if grid.cell_x(k) <= x < grid.cell_x(k) + cw && grid.cell_y(k) <= y < grid.cell_y(k) + ch {
        lemma_fundamental_div_mod_converse(x, cw, j, x - j * cw);
        lemma_fundamental_div_mod_converse(y, ch, i, y - i * ch);
    }
}

/// What the first `n` cells of a mosaic look like where every picked tile
/// is exactly as large as a cell: a pixel in one of those cells is the
/// pixel of the tile picked for its cell, and a pixel in a later cell is
/// still transparent black.
pub proof fn lemma_composed_pixel(
    target: Picture,
    db: Catalog,
    grid: Grid,
    picks: Seq<int>,
    n: nat,
    x: int,
    y: int,
)
    requires
        target.wf(),
        grid.cell_w > 0,
        grid.cell_h > 0,
        grid == Grid::over(target, grid.cell_w, grid.cell_h),
        n <= grid.cells(),
        forall|k: int|
            0 <= k < n ==> {
                let tile = #[trigger] picked_tile(target, db, grid, picks, k);
                tile.wf() && tile.width == grid.cell_w && tile.height == grid.cell_h
            },
        0 <= x < grid.width(),
        0 <= y < grid.height(),
    ensures
        composed(target, db, grid, picks, n).wf(),
        composed(target, db, grid, picks, n).width == grid.width(),
        composed(target, db, grid, picks, n).height == grid.height(),
        composed(target, db, grid, picks, n).pixel(x, y) == if grid.cell_of(x, y) < n {
            picked_tile(target, db, grid, picks, grid.cell_of(x, y)).pixel(
                x % (grid.cell_w as int),
                y % (grid.cell_h as int),
            )
        } else {
            Rgba { r: 0, g: 0, b: 0, a: 0 }
        },
    decreases n,
{
    lemma_cell_of(target, grid, x, y);
    if n == 0 {
        lemma_under_cell(target, grid, grid.cell_of(x, y), x, y);
        lemma_blank_pixel(grid.width(), grid.height(), x, y);
    } else {
        let k = n - 1;
        lemma_composed_pixel(target, db, grid, picks, k as nat, x, y);
        lemma_under_cell(target, grid, k, x, y);
        let tile = picked_tile(target, db, grid, picks, k);
        lemma_overlay_pixel(
            composed(target, db, grid, picks, k as nat),
            tile,
            grid.cell_x(k),
            grid.cell_y(k),
            x,
            y,
        );
    }
}

/// Where every picked tile is exactly as large as a cell, the mosaic is
/// made of the picked tiles side by side: each of its pixels is the pixel
/// of the tile picked for its cell.
pub proof fn lemma_mosaic_pixel(
    target: Picture,
    db: Catalog,
    grid: Grid,
    picks: Seq<int>,
    x: int,
    y: int,
)
    requires
        target.wf(),
        grid.cell_w > 0,
        grid.cell_h > 0,
        grid == Grid::over(target, grid.cell_w, grid.cell_h),
        forall|k: int|
            0 <= k < grid.cells() ==> {
                let tile = #[trigger] picked_tile(target, db, grid, picks, k);
                tile.wf() && tile.width == grid.cell_w && tile.height == grid.cell_h
            },
        0 <= x < grid.width(),
        0 <= y < grid.height(),
    ensures
        0 <= grid.cell_of(x, y) < grid.cells(),
        mosaic(target, db, grid, picks).pixel(x, y) == picked_tile(
            target,
            db,
            grid,
            picks,
            grid.cell_of(x, y),
        ).pixel(x % (grid.cell_w as int), y % (grid.cell_h as int)),
{
    lemma_cell_of(target, grid, x, y);
    lemma_composed_pixel(target, db, grid, picks, grid.cells(), x, y);
}

/// The cell in row `i` and column `j` of a grid is cell `i * cols + j`, and
/// it starts at pixel `(j * cell_w, i * cell_h)`, inside the picture that
/// the grid was laid over.
proof fn lemma_cell(target: Picture, grid: Grid, i: int, j: int)
    requires
        target.wf(),
        grid.cell_w > 0,
        grid.cell_h > 0,
        grid == Grid::over(target, grid.cell_w, grid.cell_h),
        0 <= i < grid.rows,
        0 <= j < grid.cols,
    ensures
        0 <= i * grid.cols + j < grid.cells(),
        grid.cell_x(i * grid.cols + j) == j * grid.cell_w,
        grid.cell_y(i * grid.cols + j) == i * grid.cell_h,
        j * grid.cell_w + grid.cell_w <= grid.width() <= target.width,
        i * grid.cell_h + grid.cell_h <= grid.height() <= target.height,
        grid.width() == target.width - target.width % grid.cell_w,
        grid.height() == target.height - target.height % grid.cell_h,
{
    let cols = grid.cols as int;
    let rows = grid.rows as int;
    let cw = grid.cell_w as int;
    let ch = grid.cell_h as int;
    let k = i * cols + j;
    assert(0 <= i * cols && k < cols * rows) by (nonlinear_arith)
        requires
            0 <= i < rows,
            0 <= j < cols,
            k == i * cols + j,
    ;
    lemma_fundamental_div_mod_converse(k, cols, i, j);
    lemma_fundamental_div_mod(target.width as int, cw);
    lemma_fundamental_div_mod(target.height as int, ch);
    assert(cols * cw == cw * cols && rows * ch == ch * rows) by (nonlinear_arith);
    assert(0 <= j * cw && j * cw + cw <= cols * cw) by (nonlinear_arith)
        requires
            0 <= j < cols,
            cw > 0,
    ;
    assert(0 <= i * ch && i * ch + ch <= rows * ch) by (nonlinear_arith)
        requires
            0 <= i < rows,
            ch > 0,
    ;
}

/// What can go wrong when a mosaic is made from the contents of a target
/// file.
#[derive(Clone, Copy, Debug, PartialEq, Eq, Structural)]
pub enum MosaicError {
    /// The contents of the target file cannot be decoded.
    UndecodableTarget,
    /// The encoder refuses the finished mosaic.
    NotEncodable,
}

/// Builds the mosaic of `target` from the tiles of `db`.
///
/// For each cell, row by row, the pixel at the top left corner of the cell
/// is sampled, the tiles of the nearest colour in the database are looked
/// up, one of them is picked by chance, and it is pasted with its top left
/// corner at that of the cell. A tile that would reach beyond the mosaic is
/// not pasted. The mosaic is as large as all whole cells together.
pub fn compose(target: &Raster, db: &TileDb, config: &GridConfig, rng: &mut rand::rngs::StdRng) -> (out:
    Raster)
    requires
        target.wf(),
        db.wf(),
        config.wf(),
    ensures
        out.wf(),
        out@.width == target@.width - target@.width % config.cell_w(),
        out@.height == target@.height - target@.height % config.cell_h(),
        exists|picks: Seq<int>| made_with(target@, db@, config.grid(target@), picks, out@),
{
    let cw = config.w_numb;
    let ch = config.h_numb;
    let cols = target.width() / cw;
    let rows = target.height() / ch;
    let samples: usize = target.as_raw().len();
    let ghost grid = config.grid(target@);
    proof {
        lemma_fundamental_div_mod(target@.width as int, cw as int);
        lemma_fundamental_div_mod(target@.height as int, ch as int);
        assert(cols * cw == cw * cols && rows * ch == ch * rows) by (nonlinear_arith);
        assert(samples == target@.width * target@.height * 4);
        assert((cols * cw) * (rows * ch) * 4 <= target@.width * target@.height * 4)
            by (nonlinear_arith)
            requires
                0 <= cols * cw <= target@.width,
                0 <= rows * ch <= target@.height,
        ;
    }
    let mut out = Raster::new(cols * cw, rows * ch);
    let ghost mut picks: Seq<int> = Seq::empty();
    let mut i: u32 = 0;
    while i < rows
        invariant
            target.wf(),
            db.wf(),
            cw > 0,
            ch > 0,
            grid == Grid::over(target@, cw as nat, ch as nat),
            cols == grid.cols,
            rows == grid.rows,
            i <= rows,
            out.wf(),
            out@.width == grid.width(),
            out@.height == grid.height(),
            picks.len() == i * cols,
            picks_among(target@, db@, grid, picks, picks.len() as int),
            out@ == composed(target@, db@, grid, picks, picks.len()),
        decreases rows - i,
    {
        let mut j: u32 = 0;
        while j < cols
            invariant
                target.wf(),
                db.wf(),
                cw > 0,
                ch > 0,
                grid == Grid::over(target@, cw as nat, ch as nat),
                cols == grid.cols,
                rows == grid.rows,
                i < rows,
                j <= cols,
                out.wf(),
                out@.width == grid.width(),
                out@.height == grid.height(),
                picks.len() == i * cols + j,
                picks_among(target@, db@, grid, picks, picks.len() as int),
                out@ == composed(target@, db@, grid, picks, picks.len()),
            decreases cols - j,
        {
            proof {
                lemma_cell(target@, grid, i as int, j as int);
            }
            let x = j * cw;
            let y = i * ch;
            let p = target.get_pixel(x, y);
            let color = MyColor::new(p.r, p.g, p.b);
            let key = nearest_color(&color, db);
            let tiles = db.get(&key).unwrap();
            let pick = pick_index(rng, tiles.len());
            let ghost earlier = picks;
            out.copy_from(&tiles[pick].image, x, y);
            proof {
                let k = earlier.len() as int;
                picks = earlier.push(pick as int);
                assert(cell_key(target@, db@, grid, k) == key);
                assert(db@[cell_key(target@, db@, grid, k)][pick as int] == tiles@[pick as int]@);
                lemma_composed_prefix(target@, db@, grid, earlier, picks, k as nat);
            }
            j += 1;
        }
        proof {
            assert((i + 1) * cols == i * cols + cols) by (nonlinear_arith);
        }
        i += 1;
    }
    proof {
        assert(picks.len() == grid.cells()) by (nonlinear_arith)
            requires
                picks.len() == i * cols,
                i == rows,
                cols == grid.cols,
                rows == grid.rows,
                grid.cells() == grid.cols * grid.rows,
        ;
        assert(made_with(target@, db@, grid, picks, out@));
    }
    out
}

/// What a call that makes a PNG file gives, with the contents of the file
/// as a sequence of bytes.
pub open spec fn outcome_of(r: Result<Vec<u8>, MosaicError>) -> Result<Seq<u8>, MosaicError> {
    match r {
        Ok(bytes) => Ok(bytes@),
        Err(e) => Err(e),
    }
}

/// The contents of the PNG file that holds the picture `p`, or the error
/// that says that there is no such file.
pub open spec fn png_outcome(p: Picture) -> Result<Seq<u8>, MosaicError> {
    match png_of(p) {
        Some(bytes) => Ok(bytes),
        None => Err(MosaicError::NotEncodable),
    }
}

/// Whether `outcome` is what encoding the mosaic of `target` for the picks
/// `picks` gives, and `picks` names one of the candidates for each cell.
pub open spec fn rendered_with(
    target: Picture,
    db: Catalog,
    grid: Grid,
    picks: Seq<int>,
    outcome: Result<Seq<u8>, MosaicError>,
) -> bool {
    valid_picks(target, db, grid, picks) && outcome == png_outcome(
        mosaic(target, db, grid, picks),
    )
}

/// Makes the mosaic of the picture held in a target file, given the
/// extension of the file's name and the contents of the file, and hands out
/// the contents of the PNG file that holds the mosaic.
pub fn process_image(
    extension: &str,
    file: &[u8],
    db: &TileDb,
    config: &GridConfig,
    rng: &mut rand::rngs::StdRng,
) -> (r: Result<Vec<u8>, MosaicError>)
    requires
        db.wf(),
        config.wf(),
    ensures
        match picture_of(extension@, file@) {
            None => outcome_of(r) == Err::<Seq<u8>, MosaicError>(MosaicError::UndecodableTarget),
            Some(target) => exists|picks: Seq<int>|
                rendered_with(target, db@, config.grid(target), picks, outcome_of(r)),
        },
{
    match decode(extension, file) {
        None => Err(MosaicError::UndecodableTarget),
        Some(target) => {
            let out = compose(&target, db, config, rng);
            let ghost picks = choose|picks: Seq<int>|
                made_with(target@, db@, config.grid(target@), picks, out@);
            let r = match encode_png(&out) {
                Some(bytes) => Ok(bytes),
                None => Err(MosaicError::NotEncodable),
            };
            proof {
                assert(picture_of(extension@, file@).unwrap() == target@);
                assert(rendered_with(target@, db@, config.grid(target@), picks, outcome_of(r)));
            }
            r
        },
    }
}

} // verus!
