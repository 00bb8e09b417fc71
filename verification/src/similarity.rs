//! Similarity scores, kept as exact fractions.

use vstd::prelude::*;

verus! {

/// A score `numerator / denominator`. Relation strengths, similarity scores
/// and the discovery threshold are all values of this type.
#[derive(Debug, Clone, Copy, PartialEq, Eq, Structural)]
pub struct Similarity {
    pub numerator: i64,
    pub denominator: u64,
}

impl Similarity {
    /// A score is meaningful when its denominator is positive.
    pub open spec fn wf(self) -> bool {
        self.denominator > 0
    }

    /// `self >= other` as fractions, by cross-multiplication.
    pub open spec fn ge(self, other: Similarity) -> bool {
        self.numerator * other.denominator >= other.numerator * self.denominator
    }

    /// `self == other` as fractions, by cross-multiplication.
    pub open spec fn same_value(self, other: Similarity) -> bool {
        self.numerator * other.denominator == other.numerator * self.denominator
    }

    pub fn new(numerator: i64, denominator: u64) -> (score: Similarity)
        ensures
            score == (Similarity { numerator, denominator }),
    {
        Similarity { numerator, denominator }
    }

    /// Whether this score reaches `other`.
    pub fn at_least(&self, other: &Similarity) -> (reached: bool)
        ensures
            reached == self.ge(*other),
    {
        let (left, right) = cross_products(self, other);
        left >= right
    }

    /// Whether the two scores denote the same fraction.
    pub fn equals(&self, other: &Similarity) -> (same: bool)
        ensures
            same == self.same_value(*other),
    {
        let (left, right) = cross_products(self, other);
        left == right
    }
}

/// The largest set size for which a score fits the fields of [`Similarity`].
pub const MAX_SET_SIZE: usize = 0x1000_0000;

/// The denominator that one Jaccard term contributes: the size of the union,
/// or 1 when the union is empty and the term is left out.
pub open spec fn scale(total: int) -> int {
    if total == 0 {
        1
    } else {
        total
    }
}

/// The sentiment term in tenths: `2 * (1 - |a - b|)` when both notes carry a
/// sentiment, nothing otherwise.
pub open spec fn sentiment_tenths(a: Option<i8>, b: Option<i8>) -> int {
    match (a, b) {
        (Some(x), Some(y)) => if x >= y {
            2 * (1 - (x - y))
        } else {
            2 * (1 - (y - x))
        },
        _ => 0,
    }
}

/// The numerator of
/// `0.3 * tag_common / tag_total + 0.5 * word_common / word_total + sentiment / 10`
/// over the denominator [`weighted_denominator`]; a term whose total is zero
/// is left out.
pub open spec fn weighted_numerator(
    tag_common: int,
    tag_total: int,
    word_common: int,
    word_total: int,
    sentiment: int,
) -> int {
    3 * tag_common * scale(word_total) + 5 * word_common * scale(tag_total) + sentiment * scale(
        tag_total,
    ) * scale(word_total)
}

/// The common denominator of the three weighted terms.
pub open spec fn weighted_denominator(tag_total: int, word_total: int) -> int {
    10 * scale(tag_total) * scale(word_total)
}

/// Weighs the three terms of a similarity: the tag overlap at 0.3, the
/// keyword overlap at 0.5 and the sentiment closeness at 0.2.
pub fn weigh(
    tag_common: usize,
    tag_total: usize,
    word_common: usize,
    word_total: usize,
    sentiment_a: Option<i8>,
    sentiment_b: Option<i8>,
) -> (score: Similarity)
    requires
        tag_common <= tag_total <= 2 * MAX_SET_SIZE,
        word_common <= word_total <= 2 * MAX_SET_SIZE,
        sentiment_a matches Some(s) ==> -1 <= s <= 1,
        sentiment_b matches Some(s) ==> -1 <= s <= 1,
    ensures
        score.numerator == weighted_numerator(
            tag_common as int,
            tag_total as int,
            word_common as int,
            word_total as int,
            sentiment_tenths(sentiment_a, sentiment_b),
        ),
        score.denominator == weighted_denominator(tag_total as int, word_total as int),
        score.wf(),
        score.numerator <= score.denominator,
        5 * score.numerator >= -score.denominator,
        sentiment_tenths(sentiment_a, sentiment_b) >= 0 ==> score.numerator >= 0,
{
    let t: i64 = if tag_total == 0 {
        1
    } else {
        tag_total as i64
    };
    let w: i64 = if word_total == 0 {
        1
    } else {
        word_total as i64
    };
    let s: i64 = match (sentiment_a, sentiment_b) {
        (Some(x), Some(y)) => if x >= y {
            2 * (1 - (x - y) as i64)
        } else {
            2 * (1 - (y - x) as i64)
        },
        _ => 0,
    };
    let tc = tag_common as i64;
    let wc = word_common as i64;
    assert(1 <= t * w <= 0x2000_0000 * 0x2000_0000) by (nonlinear_arith)
        requires
            1 <= t <= 0x2000_0000,
            1 <= w <= 0x2000_0000,
    ;
    assert(0 <= tc * w <= t * w) by (nonlinear_arith)
        requires
            0 <= tc <= t,
            1 <= w,
    ;
    assert(0 <= wc * t <= t * w) by (nonlinear_arith)
        requires
            0 <= wc <= w,
            1 <= t,
    ;
    let base: i64 = t * w;
    assert(-2 * base <= s * base <= 2 * base && (s >= 0 ==> s * base >= 0))
        by (nonlinear_arith)
        requires
            -2 <= s <= 2,
            0 <= base,
    ;
    let numerator: i64 = 3 * (tc * w) + 5 * (wc * t) + s * base;
    let denominator: i64 = 10 * base;
    assert(3 * (tc * w) == 3 * tc * w && 5 * (wc * t) == 5 * wc * t && s * (t * w) == s * t * w
        && 10 * (t * w) == 10 * t * w) by (nonlinear_arith);
    Similarity { numerator, denominator: denominator as u64 }
}

/// The two products that compare `a` and `b`; both fit in 128 bits.
fn cross_products(a: &Similarity, b: &Similarity) -> (products: (i128, i128))
    ensures
        products.0 == a.numerator * b.denominator,
        products.1 == b.numerator * a.denominator,
{
    let an = a.numerator as i128;
    let ad = a.denominator as i128;
    let bn = b.numerator as i128;
    let bd = b.denominator as i128;
    assert(-0x8000_0000_0000_0000 * 0xffff_ffff_ffff_ffff <= an * bd
        <= 0x7fff_ffff_ffff_ffff * 0xffff_ffff_ffff_ffff) by (nonlinear_arith)
        requires
            -0x8000_0000_0000_0000 <= an <= 0x7fff_ffff_ffff_ffff,
            0 <= bd <= 0xffff_ffff_ffff_ffff,
    ;
    assert(-0x8000_0000_0000_0000 * 0xffff_ffff_ffff_ffff <= bn * ad
        <= 0x7fff_ffff_ffff_ffff * 0xffff_ffff_ffff_ffff) by (nonlinear_arith)
        requires
            -0x8000_0000_0000_0000 <= bn <= 0x7fff_ffff_ffff_ffff,
            0 <= ad <= 0xffff_ffff_ffff_ffff,
    ;
    (an * bd, bn * ad)
}

} // verus!
