//! The representative colour of a picture: the mean of its pixels, channel
//! by channel, rounded down.

use vstd::prelude::*;
use vstd::arithmetic::div_mod::{lemma_fundamental_div_mod, lemma_fundamental_div_mod_converse};
use crate::codec::{decode, picture_of};
use crate::color::MyColor;
use crate::raster::{lemma_offset_of_coords, Picture, Raster};

verus! {

/// Channel `c` of the pixel at index `i` of `data`, the pixels counted row
/// by row.
pub open spec fn sample_at(data: Seq<u8>, i: int, c: int) -> u8 {
    data[i * 4 + c]
}

/// The sum of channel `c` over the first `n` pixels of `data`.
pub open spec fn channel_sum(data: Seq<u8>, c: int, n: nat) -> nat
    decreases n,
{
    if n == 0 {
        0
    } else {
        channel_sum(data, c, (n - 1) as nat) + sample_at(data, n - 1, c) as nat
    }
}

/// The mean of channel `c` over all pixels of `p`, rounded down. A picture
/// without pixels has mean zero.
pub open spec fn channel_mean(p: Picture, c: int) -> int {
    if p.pixel_count() == 0 {
        0
    } else {
        channel_sum(p.data, c, p.pixel_count()) as int / p.pixel_count() as int
    }
}

/// The representative colour of a picture: the mean of red, of green and of
/// blue over all its pixels. Alpha plays no part.
pub open spec fn mean_color(p: Picture) -> MyColor {
    MyColor {
        r: channel_mean(p, 0) as u8,
        g: channel_mean(p, 1) as u8,
        b: channel_mean(p, 2) as u8,
    }
}

/// Whether channel `c` of every pixel of `p` lies between `lo` and `hi`.
pub open spec fn channel_within(p: Picture, c: int, lo: int, hi: int) -> bool {
    forall|i: int| 0 <= i < p.pixel_count() ==> lo <= #[trigger] sample_at(p.data, i, c) <= hi
}

/// Whether red, green and blue of every pixel of `p` lie between those of
/// `lo` and those of `hi`.
pub open spec fn pixels_within(p: Picture, lo: MyColor, hi: MyColor) -> bool {
    forall|x: int, y: int|
        p.contains(x, y) ==> {
            let px = #[trigger] p.pixel(x, y);
            &&& lo.r <= px.r <= hi.r
            &&& lo.g <= px.g <= hi.g
            &&& lo.b <= px.b <= hi.b
        }
}

/// A sum of `n` samples that all lie between `lo` and `hi` lies between
/// `n * lo` and `n * hi`.
proof fn lemma_sum_within(data: Seq<u8>, c: int, n: nat, lo: int, hi: int)
    requires
        forall|i: int| 0 <= i < n ==> lo <= #[trigger] sample_at(data, i, c) <= hi,
    ensures
        n * lo <= channel_sum(data, c, n) <= n * hi,
    decreases n,
{
    if n > 0 {
        let m = (n - 1) as nat;
        lemma_sum_within(data, c, m, lo, hi);
        assert(lo <= sample_at(data, m as int, c) <= hi);
        assert(n * lo == m * lo + lo && n * hi == m * hi + hi) by (nonlinear_arith)
            requires
                n == m + 1,
        ;
    } else {
        assert(n * lo == 0 && n * hi == 0) by (nonlinear_arith)
            requires
                n == 0,
        ;
    }
}

/// The mean of a channel lies within the range of the samples of that
/// channel.
pub proof fn lemma_channel_mean_within(p: Picture, c: int, lo: int, hi: int)
    requires
        p.pixel_count() > 0,
        channel_within(p, c, lo, hi),
    ensures
        lo <= channel_mean(p, c) <= hi,
{
    let n = p.pixel_count();
    let s = channel_sum(p.data, c, n) as int;
    lemma_sum_within(p.data, c, n, lo, hi);
    lemma_fundamental_div_mod(s, n as int);
    let q = s / (n as int);
    let r = s % (n as int);
    assert(lo <= q <= hi) by (nonlinear_arith)
        requires
            n > 0,
            s == n * q + r,
            0 <= r < n,
            n * lo <= s <= n * hi,
    ;
}

/// The mean of a channel is a byte.
pub proof fn lemma_channel_mean_is_byte(p: Picture, c: int)
    ensures
        0 <= channel_mean(p, c) <= 255,
{
    if p.pixel_count() > 0 {
        lemma_channel_mean_within(p, c, 0, 255);
    }
}

/// Each channel of the representative colour of a picture lies within the
/// range that the channel takes over the pixels of the picture.
pub proof fn lemma_mean_color_within(p: Picture, lo: MyColor, hi: MyColor)
    requires
        p.wf(),
        p.pixel_count() > 0,
        pixels_within(p, lo, hi),
    ensures
        lo.r <= mean_color(p).r <= hi.r,
        lo.g <= mean_color(p).g <= hi.g,
        lo.b <= mean_color(p).b <= hi.b,
{
    assert forall|i: int, c: int| 0 <= i < p.pixel_count() && 0 <= c < 3 implies (if c == 0 {
        lo.r <= #[trigger] sample_at(p.data, i, c) <= hi.r
    } else if c == 1 {
        lo.g <= sample_at(p.data, i, c) <= hi.g
    } else {
        lo.b <= sample_at(p.data, i, c) <= hi.b
    }) by {
        lemma_offset_of_coords(p, i * 4);
        let px = p.pixel(p.col_of(i * 4), p.row_of(i * 4));
        assert(lo.r <= px.r <= hi.r);
    }
    lemma_channel_mean_within(p, 0, lo.r as int, hi.r as int);
    lemma_channel_mean_within(p, 1, lo.g as int, hi.g as int);
    lemma_channel_mean_within(p, 2, lo.b as int, hi.b as int);
}

/// The representative colour of a picture whose pixels all have the colour
/// `c` is `c`.
pub proof fn lemma_mean_color_of_uniform(p: Picture, c: MyColor)
    requires
        p.wf(),
        p.pixel_count() > 0,
        pixels_within(p, c, c),
    ensures
        mean_color(p) == c,
{
    lemma_mean_color_within(p, c, c);
}

/// A mean in progress: `whole * n + part` is the sum of the samples taken
/// in so far, where `n` is the number of samples there will be in all.
struct Mean {
    whole: usize,
    part: usize,
}

impl Mean {
    spec fn tracks(self, n: int, sum: int) -> bool {
        0 <= self.part < n && self.whole * n + self.part == sum
    }

    /// The mean of no samples yet.
    fn start(n: usize) -> (mean: Mean)
        requires
            n > 0,
        ensures
            mean.tracks(n as int, 0),
    {
        let mean = Mean { whole: 0, part: 0 };
        assert(mean.whole * n == 0) by (nonlinear_arith)
            requires
                mean.whole == 0,
        ;
        mean
    }

    /// Takes one more sample into the mean.
    fn absorb(self, sample: u8, n: usize, Ghost(sum): Ghost<int>) -> (next: Mean)
        requires
            0 < n <= usize::MAX / 4,
            self.tracks(n as int, sum),
            0 <= sum,
            sum + sample <= 255 * n,
        ensures
            next.tracks(n as int, sum + sample),
    {
        let step_whole = sample as usize / n;
        let step_part = sample as usize % n;
        proof {
            lemma_fundamental_div_mod(sample as int, n as int);
            assert(self.whole + step_whole <= 255 && (self.whole + step_whole) * n + (self.part
                + step_part) == sum + sample && (self.whole + step_whole + 1) * n + (self.part
                + step_part - n) == sum + sample) by (nonlinear_arith)
                requires
                    n > 0,
                    self.whole * n + self.part == sum,
                    sample == n * step_whole + step_part,
                    0 <= self.part,
                    0 <= step_part,
                    sum + sample <= 255 * n,
            ;
        }
        let whole = self.whole + step_whole;
        let part = self.part + step_part;
        if part >= n {
            Mean { whole: whole + 1, part: part - n }
        } else {
            Mean { whole, part }
        }
    }

    /// The mean, rounded down, once all `n` samples are taken in.
    fn finish(self, n: usize, Ghost(sum): Ghost<int>) -> (mean: u8)
        requires
            n > 0,
            self.tracks(n as int, sum),
            0 <= sum <= 255 * n,
        ensures
            mean == sum / (n as int),
    {
        proof {
            lemma_fundamental_div_mod_converse(sum, n as int, self.whole as int, self.part as int);
            assert(self.whole <= 255) by (nonlinear_arith)
                requires
                    n > 0,
                    self.whole * n <= 255 * n,
            ;
        }
        self.whole as u8
    }
}

/// Computes the representative colour of a picture.
///
/// Each channel is averaged as the pixels go by, by quotient and remainder,
/// so that no sum over the whole picture is ever held.
pub fn average_of(img: &Raster) -> (c: MyColor)
    requires
        img.wf(),
    ensures
        c == mean_color(img@),
{
    let data = img.as_raw();
    let n: usize = data.len() / 4;
    assert(n == img@.pixel_count());
    if n == 0 {
        return MyColor::new(0, 0, 0);
    }
    let mut red = Mean::start(n);
    let mut green = Mean::start(n);
    let mut blue = Mean::start(n);
    let mut i: usize = 0;
    while i < n
        invariant
            0 < n <= usize::MAX / 4,
            data.len() == n * 4,
            i <= n,
            red.tracks(n as int, channel_sum(data@, 0, i as nat) as int),
            green.tracks(n as int, channel_sum(data@, 1, i as nat) as int),
            blue.tracks(n as int, channel_sum(data@, 2, i as nat) as int),
        decreases n - i,
    {
        proof {
            lemma_sum_within(data@, 0, (i + 1) as nat, 0, 255);
            lemma_sum_within(data@, 1, (i + 1) as nat, 0, 255);
            lemma_sum_within(data@, 2, (i + 1) as nat, 0, 255);
        }
        red = red.absorb(data[i * 4], n, Ghost(channel_sum(data@, 0, i as nat) as int));
        green = green.absorb(data[i * 4 + 1], n, Ghost(channel_sum(data@, 1, i as nat) as int));
        blue = blue.absorb(data[i * 4 + 2], n, Ghost(channel_sum(data@, 2, i as nat) as int));
        i += 1;
    }
    proof {
        lemma_sum_within(data@, 0, n as nat, 0, 255);
        lemma_sum_within(data@, 1, n as nat, 0, 255);
        lemma_sum_within(data@, 2, n as nat, 0, 255);
    }
    let r = red.finish(n, Ghost(channel_sum(data@, 0, n as nat) as int));
    let g = green.finish(n, Ghost(channel_sum(data@, 1, n as nat) as int));
    let b = blue.finish(n, Ghost(channel_sum(data@, 2, n as nat) as int));
    MyColor::new(r, g, b)
}

/// Computes the representative colour of the picture held in a file, given
/// the extension of the file's name and the contents of the file. There is
/// none where the contents cannot be decoded.
pub fn average_color(extension: &str, file: &[u8]) -> (r: Option<MyColor>)
    ensures
        r == match picture_of(extension@, file@) {
            Some(p) => Some(mean_color(p)),
            None => None,
        },
{
    match decode(extension, file) {
        Some(img) => Some(average_of(&img)),
        None => None,
    }
}

} // verus!
