use ducka::geometry::{Frac, Position, Rect, split_horizontal, split_vertical};

fn rect(l: u16, t: u16, r: u16, b: u16) -> Rect {
    Rect { top_l: Position(l, t), bottom_r: Position(r, b) }
}

#[test]
fn vertical_split_half_of_ten_by_four() {
    // A 10x4 region split in half: columns 0-3, boundary column 4,
    // columns 5-9, both children full height.
    let (left, right, b) = split_vertical(rect(0, 0, 10, 4), Frac::half());
    assert_eq!(b, 4);
    assert_eq!(left, rect(0, 0, 4, 4));
    assert_eq!(right, rect(5, 0, 10, 4));
}

#[test]
fn horizontal_split_half_of_ten_by_four() {
    let (top, bottom, b) = split_horizontal(rect(0, 0, 10, 4), Frac::half());
    assert_eq!(b, 1);
    assert_eq!(top, rect(0, 0, 10, 1));
    assert_eq!(bottom, rect(0, 2, 10, 4));
}

#[test]
fn vertical_split_counts_columns_once() {
    // Disjoint children plus exactly one reserved boundary column
    // reconstruct the parent's columns.
    for num in 1..8u16 {
        let r = rect(2, 1, 13, 5);
        let (left, right, b) = split_vertical(r, Frac { num, den: 8 });
        let left_w = left.bottom_r.0 - left.top_l.0;
        let right_w = right.bottom_r.0 - right.top_l.0;
        assert_eq!(left_w + 1 + right_w, r.bottom_r.0 - r.top_l.0);
        assert_eq!(left.top_l.0, r.top_l.0);
        assert_eq!(left.bottom_r.0, b);
        assert_eq!(right.top_l.0, b + 1);
        assert_eq!(right.bottom_r.0, r.bottom_r.0);
        // Vertical extents are untouched.
        assert_eq!((left.top_l.1, left.bottom_r.1), (r.top_l.1, r.bottom_r.1));
        assert_eq!((right.top_l.1, right.bottom_r.1), (r.top_l.1, r.bottom_r.1));
    }
}

#[test]
fn extreme_fractions_yield_degenerate_children() {
    // A zero fraction leaves the left child with no width; a full one
    // leaves the right child with no width.  Neither errors.
    let (left, right, b) = split_vertical(rect(0, 0, 10, 4), Frac { num: 0, den: 1 });
    assert_eq!(b, 0);
    assert_eq!(left, rect(0, 0, 0, 4));
    assert_eq!(right, rect(1, 0, 10, 4));

    let (left, right, b) = split_vertical(rect(0, 0, 10, 4), Frac { num: 1, den: 1 });
    assert_eq!(b, 9);
    assert_eq!(left, rect(0, 0, 9, 4));
    assert_eq!(right, rect(10, 0, 10, 4));
}

#[test]
fn out_of_range_fractions_are_clamped() {
    let r = rect(0, 0, 10, 4);
    // A numerator above the denominator counts as the denominator.
    assert_eq!(split_vertical(r, Frac { num: 9, den: 2 }), split_vertical(r, Frac { num: 1, den: 1 }));
    // A zero denominator counts as one.
    assert_eq!(split_vertical(r, Frac { num: 1, den: 0 }), split_vertical(r, Frac { num: 1, den: 1 }));
}

#[test]
fn zero_width_region_splits_into_empty_children() {
    let (left, right, b) = split_vertical(rect(3, 0, 3, 4), Frac::half());
    assert_eq!(b, 2);
    assert_eq!(left, rect(3, 0, 3, 4));
    assert_eq!(right, rect(3, 0, 3, 4));
}
