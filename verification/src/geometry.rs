//! Pure geometry: grid positions, rectangular regions, and the arithmetic
//! that partitions a region into two children separated by a boundary line.
//!
//! A rectangle is given by its top-left corner (inclusive) and its bottom-right
//! corner (exclusive) in both axes, so a region may have zero extent in a
//! dimension but never an inverted one.

use vstd::prelude::*;

verus! {

/// A grid coordinate pair: column first, then row.
#[derive(Clone, Copy, Debug, PartialEq, Eq, Structural)]
pub struct Position(pub u16, pub u16);

/// A rectangular grid region: `top_l` inclusive, `bottom_r` exclusive.
#[derive(Clone, Copy, Debug, PartialEq, Eq, Structural)]
pub struct Rect {
    pub top_l: Position,
    pub bottom_r: Position,
}

impl Rect {
    /// Extents are never inverted; zero extent in a dimension is legal
    /// (the region degenerates to a line or a point and paints nothing).
    pub open spec fn wf(self) -> bool {
        self.top_l.0 <= self.bottom_r.0 && self.top_l.1 <= self.bottom_r.1
    }

    /// The region covers columns `[top_l.0, bottom_r.0)`.
    pub open spec fn has_col(self, c: int) -> bool {
        self.top_l.0 <= c < self.bottom_r.0
    }

    /// The region covers rows `[top_l.1, bottom_r.1)`.
    pub open spec fn has_row(self, r: int) -> bool {
        self.top_l.1 <= r < self.bottom_r.1
    }

    /// A grid cell (column, row) lies inside the region.
    pub open spec fn has_cell(self, pt: (int, int)) -> bool {
        self.has_col(pt.0) && self.has_row(pt.1)
    }

    /// `self` lies fully within `outer`.
    pub open spec fn within(self, outer: Rect) -> bool {
        outer.top_l.0 <= self.top_l.0
            && self.bottom_r.0 <= outer.bottom_r.0
            && outer.top_l.1 <= self.top_l.1
            && self.bottom_r.1 <= outer.bottom_r.1
    }
}

/// A split fraction `num / den`.  Out-of-range values are defined, not
/// errors: a zero denominator counts as one, and a numerator above the
/// denominator counts as the denominator itself, so every fraction is
/// effectively clamped to `[0, 1]`.
#[derive(Clone, Copy, Debug, PartialEq, Eq, Structural)]
pub struct Frac {
    pub num: u16,
    pub den: u16,
}

impl Frac {
    /// The denominator actually used: at least one.
    pub open spec fn den_eff(self) -> int {
        if self.den == 0 {
            1
        } else {
            self.den as int
        }
    }

    /// The numerator actually used: at most the effective denominator.
    pub open spec fn num_eff(self) -> int {
        if self.num as int > self.den_eff() {
            self.den_eff()
        } else {
            self.num as int
        }
    }

    /// One half, the most common split.
    pub fn half() -> (f: Frac)
        ensures
            f.num == 1,
            f.den == 2,
    {
        Frac { num: 1, den: 2 }
    }
}

/// The absolute grid line at which the span `[lo, hi)` is partitioned:
/// `lo + floor((hi - lo - 1) * num / den)`.  The line belongs to neither
/// side; it is reserved for the separator glyph.  A span too narrow to hold
/// a line (`hi == lo`) yields the nearest line left of the span, or line 0
/// when the span sits at the grid's edge — both children then come out empty.
pub open spec fn boundary_spec(lo: int, hi: int, f: Frac) -> int {
    if hi - lo >= 1 {
        lo + (hi - lo - 1) * f.num_eff() / f.den_eff()
    } else if hi > 0 {
        hi - 1
    } else {
        0
    }
}

/// The boundary line always falls left of `hi` (or at 0 for a span at the
/// grid edge), and never left of `lo` when the span is nonempty.
pub proof fn lemma_boundary_range(lo: int, hi: int, f: Frac)
    requires
        0 <= lo <= hi,
    ensures
        hi >= 1 ==> 0 <= boundary_spec(lo, hi, f) < hi,
        hi == 0 ==> boundary_spec(lo, hi, f) == 0,
        hi - lo >= 1 ==> lo <= boundary_spec(lo, hi, f) <= hi - 1,
{
    if hi - lo >= 1 {
        let w = hi - lo - 1;
        let n = f.num_eff();
        let d = f.den_eff();
        assert(0 <= n <= d && 1 <= d);
        assert(0 <= w * n / d <= w) by (nonlinear_arith)
            requires
                w >= 0 && 0 <= n <= d && 1 <= d,
        ;
    }
}

/// Computes the boundary line for a span `[lo, hi)`.
fn boundary(lo: u16, hi: u16, f: Frac) -> (b: u16)
    requires
        lo <= hi,
    ensures
        b as int == boundary_spec(lo as int, hi as int, f),
{
    proof {
        lemma_boundary_range(lo as int, hi as int, f);
    }
    if hi - lo >= 1 {
        let den: u32 = if f.den == 0 {
            1
        } else {
            f.den as u32
        };
        let num: u32 = if f.num as u32 > den {
            den
        } else {
            f.num as u32
        };
        let w: u32 = (hi - lo - 1) as u32;
        proof {
            assert((w as int) * (num as int) <= 65534 * 65535) by (nonlinear_arith)
                requires
                    w as int <= 65534 && num as int <= 65535,
            ;
            assert((w as int) * (num as int) / (den as int) <= w as int) by (nonlinear_arith)
                requires
                    0 <= w as int && 0 <= num as int <= den as int && 1 <= den as int,
            ;
        }
        lo + ((w * num / den) as u16)
    } else if hi > 0 {
        hi - 1
    } else {
        0
    }
}

/// The two children and the boundary column of a vertical split of `r`.
/// The left child keeps the columns left of the boundary, the right child
/// those right of it; the boundary column belongs to neither.  A child
/// whose side of the boundary is empty comes out with zero width.
pub open spec fn split_vertical_spec(r: Rect, f: Frac) -> (Rect, Rect, u16) {
    let b = boundary_spec(r.top_l.0 as int, r.bottom_r.0 as int, f);
    let left_end = if b > r.top_l.0 as int {
        b
    } else {
        r.top_l.0 as int
    };
    let right_start = if b + 1 < r.bottom_r.0 as int {
        b + 1
    } else {
        r.bottom_r.0 as int
    };
    (
        Rect { top_l: r.top_l, bottom_r: Position(left_end as u16, r.bottom_r.1) },
        Rect { top_l: Position(right_start as u16, r.top_l.1), bottom_r: r.bottom_r },
        b as u16,
    )
}

/// The row-wise mirror of `split_vertical_spec`: the top child keeps the
/// rows above the boundary row, the bottom child those below it.
pub open spec fn split_horizontal_spec(r: Rect, f: Frac) -> (Rect, Rect, u16) {
    let b = boundary_spec(r.top_l.1 as int, r.bottom_r.1 as int, f);
    let top_end = if b > r.top_l.1 as int {
        b
    } else {
        r.top_l.1 as int
    };
    let bottom_start = if b + 1 < r.bottom_r.1 as int {
        b + 1
    } else {
        r.bottom_r.1 as int
    };
    (
        Rect { top_l: r.top_l, bottom_r: Position(r.bottom_r.0, top_end as u16) },
        Rect { top_l: Position(r.top_l.0, bottom_start as u16), bottom_r: r.bottom_r },
        b as u16,
    )
}

/// Basic shape facts about a vertical split, shared by every caller:
/// both children are well formed, lie within `r`, keep `r`'s rows, and the
/// boundary stays on the grid.
pub proof fn lemma_split_vertical_shape(r: Rect, f: Frac)
    requires
        r.wf(),
    ensures
        ({
            let (left, right, b) = split_vertical_spec(r, f);
            &&& left.wf() && right.wf()
            &&& left.within(r) && right.within(r)
            &&& left.top_l == r.top_l && right.bottom_r == r.bottom_r
            &&& left.top_l.1 == r.top_l.1 && left.bottom_r.1 == r.bottom_r.1
            &&& right.top_l.1 == r.top_l.1 && right.bottom_r.1 == r.bottom_r.1
            &&& r.bottom_r.0 > 0 ==> b < r.bottom_r.0
            &&& r.bottom_r.0 == 0 ==> b == 0
            &&& r.bottom_r.0 - r.top_l.0 >= 1 ==> r.top_l.0 <= b
        }),
{
    lemma_boundary_range(r.top_l.0 as int, r.bottom_r.0 as int, f);
}

/// The row-wise mirror of `lemma_split_vertical_shape`.
pub proof fn lemma_split_horizontal_shape(r: Rect, f: Frac)
    requires
        r.wf(),
    ensures
        ({
            let (top, bottom, b) = split_horizontal_spec(r, f);
            &&& top.wf() && bottom.wf()
            &&& top.within(r) && bottom.within(r)
            &&& top.top_l == r.top_l && bottom.bottom_r == r.bottom_r
            &&& top.top_l.0 == r.top_l.0 && top.bottom_r.0 == r.bottom_r.0
            &&& bottom.top_l.0 == r.top_l.0 && bottom.bottom_r.0 == r.bottom_r.0
            &&& r.bottom_r.1 > 0 ==> b < r.bottom_r.1
            &&& r.bottom_r.1 == 0 ==> b == 0
            &&& r.bottom_r.1 - r.top_l.1 >= 1 ==> r.top_l.1 <= b
        }),
{
    lemma_boundary_range(r.top_l.1 as int, r.bottom_r.1 as int, f);
}

/// Splits `r` at a vertical line: returns the left child, the right child,
/// and the boundary column reserved for the separator glyph.  Total: no
/// fraction or degenerate rectangle fails, the children merely come out
/// with zero width.
pub fn split_vertical(r: Rect, f: Frac) -> (out: (Rect, Rect, u16))
    requires
        r.wf(),
    ensures
        out == split_vertical_spec(r, f),
{
    proof {
        lemma_split_vertical_shape(r, f);
    }
    let b = boundary(r.top_l.0, r.bottom_r.0, f);
    let left_end = if b > r.top_l.0 {
        b
    } else {
        r.top_l.0
    };
    let right_start = if r.bottom_r.0 > 0 && b < r.bottom_r.0 - 1 {
        b + 1
    } else {
        r.bottom_r.0
    };
    (
        Rect { top_l: r.top_l, bottom_r: Position(left_end, r.bottom_r.1) },
        Rect { top_l: Position(right_start, r.top_l.1), bottom_r: r.bottom_r },
        b,
    )
}

/// The row-wise mirror of `split_vertical`: top child, bottom child, and
/// the boundary row reserved for the separator glyph.
pub fn split_horizontal(r: Rect, f: Frac) -> (out: (Rect, Rect, u16))
    requires
        r.wf(),
    ensures
        out == split_horizontal_spec(r, f),
{
    proof {
        lemma_split_horizontal_shape(r, f);
    }
    let b = boundary(r.top_l.1, r.bottom_r.1, f);
    let top_end = if b > r.top_l.1 {
        b
    } else {
        r.top_l.1
    };
    let bottom_start = if r.bottom_r.1 > 0 && b < r.bottom_r.1 - 1 {
        b + 1
    } else {
        r.bottom_r.1
    };
    (
        Rect { top_l: r.top_l, bottom_r: Position(r.bottom_r.0, top_end) },
        Rect { top_l: Position(r.top_l.0, bottom_start), bottom_r: r.bottom_r },
        b,
    )
}

/// A vertical split of a rectangle with at least one column partitions its
/// columns exactly: the two children are disjoint, each lies strictly on
/// its side of the boundary column, and together with that one reserved
/// column they reconstruct every column of `r`; both children keep `r`'s
/// rows.  (A rectangle with no columns has nothing to partition: its
/// children and boundary carry no cell of `r`.)
pub proof fn lemma_split_vertical_partition(r: Rect, f: Frac)
    requires
        r.wf(),
        r.bottom_r.0 - r.top_l.0 >= 1,
    ensures
        ({
            let (left, right, b) = split_vertical_spec(r, f);
            &&& forall|c: int|
                r.has_col(c) <==> (left.has_col(c) || right.has_col(c) || c == b as int)
            &&& forall|c: int| !(left.has_col(c) && right.has_col(c))
            &&& !left.has_col(b as int) && !right.has_col(b as int)
            &&& forall|row: int| left.has_row(row) <==> r.has_row(row)
            &&& forall|row: int| right.has_row(row) <==> r.has_row(row)
        }),
{
    lemma_boundary_range(r.top_l.0 as int, r.bottom_r.0 as int, f);
}

/// The row-wise mirror of `lemma_split_vertical_partition`.
pub proof fn lemma_split_horizontal_partition(r: Rect, f: Frac)
    requires
        r.wf(),
        r.bottom_r.1 - r.top_l.1 >= 1,
    ensures
        ({
            let (top, bottom, b) = split_horizontal_spec(r, f);
            &&& forall|row: int|
                r.has_row(row) <==> (top.has_row(row) || bottom.has_row(row) || row == b as int)
            &&& forall|row: int| !(top.has_row(row) && bottom.has_row(row))
            &&& !top.has_row(b as int) && !bottom.has_row(b as int)
            &&& forall|c: int| top.has_col(c) <==> r.has_col(c)
            &&& forall|c: int| bottom.has_col(c) <==> r.has_col(c)
        }),
{
    lemma_boundary_range(r.top_l.1 as int, r.bottom_r.1 as int, f);
}

} // verus!

