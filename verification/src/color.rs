//! The colour value type and the metric by which colours are compared.

use vstd::prelude::*;

verus! {

/// An exact triple of 8-bit red, green and blue components.
///
/// Two colours are equal when all three components are equal; there is no
/// tolerance.
#[derive(Clone, Copy, Debug, PartialEq, Eq, Hash, Structural)]
pub struct MyColor {
    pub r: u8,
    pub g: u8,
    pub b: u8,
}

/// The square of the difference of two channel values.
pub open spec fn channel_gap_sq(a: u8, b: u8) -> int {
    (a - b) * (a - b)
}

/// The colour at position `k` in the fixed order of colours.
pub open spec fn of_rank(k: int) -> MyColor {
    MyColor { r: (k / 65536 % 256) as u8, g: (k / 256 % 256) as u8, b: (k % 256) as u8 }
}

impl MyColor {
    /// The square of the Euclidean distance between two colours in RGB space.
    ///
    /// The Euclidean distance itself is the square root of this number. The
    /// square root is strictly increasing, so one colour is nearer than
    /// another exactly when its squared distance is smaller.
    pub open spec fn dist_sq(self, other: MyColor) -> int {
        channel_gap_sq(self.r, other.r) + channel_gap_sq(self.g, other.g) + channel_gap_sq(
            self.b,
            other.b,
        )
    }

    /// The position of a colour in the fixed order of all colours: by red,
    /// then by green, then by blue.
    pub open spec fn rank(self) -> int {
        self.r * 65536 + self.g * 256 + self.b
    }

    pub fn new(r: u8, g: u8, b: u8) -> (c: MyColor)
        ensures
            c == (MyColor { r, g, b }),
    {
        MyColor { r: r, g: g, b: b }
    }

    /// Computes the squared Euclidean distance to `other`.
    pub fn distance_squared(&self, other: &MyColor) -> (d: u32)
        ensures
            d == self.dist_sq(*other),
            d <= 195075,
    {
        let dr = channel_gap(self.r, other.r);
        let dg = channel_gap(self.g, other.g);
        let db = channel_gap(self.b, other.b);
        dr + dg + db
    }

    /// The position of this colour in the fixed order of colours, as a
    /// number that can serve as a key.
    pub fn key(&self) -> (k: u32)
        ensures
            k == self.rank(),
            k <= 0xff_ffff,
    {
        (self.r as u32) * 65536 + (self.g as u32) * 256 + (self.b as u32)
    }

    /// The colour that has the key `k`.
    pub fn from_key(k: u32) -> (c: MyColor)
        ensures
            c == of_rank(k as int),
    {
        MyColor { r: (k / 65536 % 256) as u8, g: (k / 256 % 256) as u8, b: (k % 256) as u8 }
    }

    /// Tells whether `self` comes before `other` in the fixed order of
    /// colours.
    pub fn precedes(&self, other: &MyColor) -> (p: bool)
        ensures
            p == (self.rank() < other.rank()),
    {
        if self.r != other.r {
            self.r < other.r
        } else if self.g != other.g {
            self.g < other.g
        } else {
            self.b < other.b
        }
    }
}

fn channel_gap(a: u8, b: u8) -> (d: u32)
    ensures
        d == channel_gap_sq(a, b),
        d <= 65025,
{
    let gap: u32 = if a >= b {
        (a - b) as u32
    } else {
        (b - a) as u32
    };
    assert(gap * gap == (a - b) * (a - b)) by (nonlinear_arith)
        requires
            gap == a - b || gap == b - a,
    ;
    assert(gap * gap <= 65025) by (nonlinear_arith)
        requires
            gap <= 255,
    ;
    gap * gap
}

/// The distance from a colour to itself is zero, and only to itself.
pub proof fn lemma_distance_zero(a: MyColor, b: MyColor)
    ensures
        a.dist_sq(a) == 0,
        a.dist_sq(b) == 0 <==> a == b,
        a.dist_sq(b) >= 0,
{
    lemma_gap_zero(a.r, b.r);
    lemma_gap_zero(a.g, b.g);
    lemma_gap_zero(a.b, b.b);
}

/// The distance between two colours does not depend on the order in which
/// they are given.
pub proof fn lemma_distance_symmetric(a: MyColor, b: MyColor)
    ensures
        a.dist_sq(b) == b.dist_sq(a),
{
    lemma_gap_symmetric(a.r, b.r);
    lemma_gap_symmetric(a.g, b.g);
    lemma_gap_symmetric(a.b, b.b);
}

/// Two colours with the same rank are the same colour.
pub proof fn lemma_rank_injective(a: MyColor, b: MyColor)
    ensures
        a.rank() == b.rank() <==> a == b,
{
}

/// Ranks and colours stand for each other: every colour is the colour of
/// its rank, and every number up to the rank of white is the rank of its
/// colour.
pub proof fn lemma_of_rank(c: MyColor, k: int)
    ensures
        0 <= c.rank() <= 0xff_ffff,
        of_rank(c.rank()) == c,
        0 <= k <= 0xff_ffff ==> of_rank(k).rank() == k,
{
}

proof fn lemma_gap_zero(a: u8, b: u8)
    ensures
        channel_gap_sq(a, b) >= 0,
        channel_gap_sq(a, b) == 0 <==> a == b,
{
    let d = a - b;
    assert(d * d >= 0 && (d * d == 0 <==> d == 0)) by (nonlinear_arith);
}

proof fn lemma_gap_symmetric(a: u8, b: u8)
    ensures
        channel_gap_sq(a, b) == channel_gap_sq(b, a),
{
    let d = a - b;
    let e = b - a;
    assert(d * d == e * e) by (nonlinear_arith)
        requires
            e == -d,
    ;
}

} // verus!
