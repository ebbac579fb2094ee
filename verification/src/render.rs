//! What rendering writes, and the helpers that write it.
//!
//! Rendering walks the tree depth-first from a window and queues one write
//! per painted glyph into a [`Surface`]: a text window's line at its
//! top-left cell, a document window's grapheme clusters one per column, and
//! an inverted separator glyph along each split edge's boundary line.  The
//! writes of a whole traversal are pinned by [`render_scan`], so rendering
//! mutates nothing and two renders of an unchanged tree queue identical
//! writes.

use vstd::prelude::*;
use unicode_segmentation::UnicodeSegmentation;
use crate::geometry::{Position, Rect};
use crate::window::{TreeView, EdgeV, Window, WinType, Split, lemma_rank_decreases, lemma_containers_empty};
use crate::surface::{Surface, WriteV};
use crate::document::Doc;

verus! {

/// The division of a string into user-perceived characters (grapheme
/// clusters).  It is the text segmentation the unicode-segmentation crate
/// computes — a function of the characters alone — and is named here, not
/// written out.
pub uninterp spec fn graphemes_of(s: Seq<char>) -> Seq<Seq<char>>;

/// Relies on unicode-segmentation's `UnicodeSegmentation::graphemes` with
/// extended grapheme clusters: the division of `s` into user-perceived
/// characters, which depends on the characters alone.
#[verifier::external_body]
fn graphemes<'a>(s: &'a str) -> (r: Vec<&'a str>)
    ensures
        r@.map_values(|g: &str| g@) == graphemes_of(s@),
{
    s.graphemes(true).collect()
}

/// The length of the span `[a, b)`, or zero for an inverted span.
pub open spec fn span(a: int, b: int) -> nat {
    if b >= a {
        (b - a) as nat
    } else {
        0
    }
}

/// The single write of a text window: its whole line at the window's
/// top-left cell, unwrapped and unclipped.  A window with no interior
/// paints nothing.
pub open spec fn text_writes(s: Seq<char>, r: Rect) -> Seq<WriteV> {
    if r.top_l.0 < r.bottom_r.0 && r.top_l.1 < r.bottom_r.1 {
        seq![
            WriteV {
                col: r.top_l.0 as int,
                row: r.top_l.1 as int,
                glyph: s,
                inverted: false,
            },
        ]
    } else {
        Seq::empty()
    }
}

/// The writes of one document row at `y`: one grapheme cluster per column
/// from `left`, stopping at `right`.
pub open spec fn doc_row_writes(line: Seq<char>, left: int, right: int, y: int) -> Seq<WriteV> {
    let count = if graphemes_of(line).len() <= span(left, right) {
        graphemes_of(line).len()
    } else {
        span(left, right)
    };
    Seq::new(
        count,
        |k: int| WriteV { col: left + k, row: y, glyph: graphemes_of(line)[k], inverted: false },
    )
}

/// The writes of a document window's rows from the `j`th on, one row per
/// grid line from the window's top, stopping at its bottom edge.
pub open spec fn doc_writes_from(lines: Seq<Seq<char>>, r: Rect, j: int) -> Seq<WriteV>
    decreases lines.len() - j,
{
    if j < 0 || j >= lines.len() || r.top_l.1 + j >= r.bottom_r.1 {
        Seq::empty()
    } else {
        doc_row_writes(lines[j], r.top_l.0 as int, r.bottom_r.0 as int, r.top_l.1 + j)
            + doc_writes_from(lines, r, j + 1)
    }
}

/// The writes of one window's own content, separators and children aside:
/// a text window paints its line, a document window its block, a container
/// nothing.
pub open spec fn paint_writes(w: Window) -> Seq<WriteV> {
    match w.win_t {
        WinType::Text(s) => text_writes(s@, w.rect()),
        WinType::Document(d) => doc_writes_from(d.lines(), w.rect(), 0),
        WinType::Empty => Seq::empty(),
    }
}

/// The inverted separator glyphs down a vertical boundary line.
pub open spec fn vline_writes(col: int, top: int, bottom: int) -> Seq<WriteV> {
    Seq::new(
        span(top, bottom),
        |k: int| WriteV { col: col, row: top + k, glyph: seq!['|'], inverted: true },
    )
}

/// The inverted separator glyphs across a horizontal boundary line.
pub open spec fn hline_writes(row: int, left: int, right: int) -> Seq<WriteV> {
    Seq::new(
        span(left, right),
        |k: int| WriteV { col: left + k, row: row, glyph: seq!['-'], inverted: true },
    )
}

/// The separator writes of one edge: the split's glyph along the stored
/// boundary line — never a line recomputed from the children's current
/// rectangles — over the child's extent.
pub open spec fn sep_writes(e: EdgeV, child: Window) -> Seq<WriteV> {
    match e.split {
        Split::Vertical(b) => vline_writes(
            b as int,
            child.top_l.1 as int,
            child.bottom_r.1 as int,
        ),
        Split::Horizontal(rr) => hline_writes(
            rr as int,
            child.top_l.0 as int,
            child.bottom_r.0 as int,
        ),
    }
}

/// The writes of rendering the subtree under `n`, scanning the edge list
/// from position `j`: each child of `n` is painted — or, for a container,
/// rendered recursively — and then its separator is drawn.
#[verifier::opaque]
pub open spec fn render_scan(v: TreeView, n: int, j: int) -> Seq<WriteV>
    decreases v.rank(n), v.edges.len() - j,
        when v.wf_tree() && 0 <= j
{
    if j >= v.edges.len() {
        Seq::empty()
    } else {
        let rest = render_scan(v, n, j + 1);
        let e = v.edges[j];
        if e.parent == n {
            let cw = v.nodes[e.child];
            if cw.win_t is Empty {
                proof {
                    lemma_rank_decreases(v, j);
                }
                render_scan(v, e.child, 0) + sep_writes(e, cw) + rest
            } else {
                paint_writes(cw) + sep_writes(e, cw) + rest
            }
        } else {
            rest
        }
    }
}

/// One unfolding of [`render_scan`] at an edge from `n`: the child's own
/// writes, its separator, then the rest of the scan.
pub proof fn lemma_render_scan_step(v: TreeView, n: int, j: int)
    requires
        v.wf_tree(),
        0 <= j < v.edges.len(),
        v.edges[j].parent == n,
    ensures
        render_scan(v, n, j) == (if v.nodes[v.edges[j].child].win_t is Empty {
            render_scan(v, v.edges[j].child, 0)
        } else {
            paint_writes(v.nodes[v.edges[j].child])
        }) + sep_writes(v.edges[j], v.nodes[v.edges[j].child]) + render_scan(v, n, j + 1),
{
    reveal(render_scan);
}

/// One unfolding of [`render_scan`] at an edge that is not from `n`.
pub proof fn lemma_render_scan_skip(v: TreeView, n: int, j: int)
    requires
        v.wf_tree(),
        0 <= j < v.edges.len(),
        v.edges[j].parent != n,
    ensures
        render_scan(v, n, j) == render_scan(v, n, j + 1),
{
    reveal(render_scan);
}

/// Past the end of the edge list the scan writes nothing.
pub proof fn lemma_render_scan_end(v: TreeView, n: int, j: int)
    requires
        v.wf_tree(),
        j >= v.edges.len(),
        0 <= j,
    ensures
        render_scan(v, n, j) == Seq::<WriteV>::empty(),
{
    reveal(render_scan);
}

/// All writes of rendering the subtree under `n`.
pub open spec fn render_spec(v: TreeView, n: int) -> Seq<WriteV> {
    render_scan(v, n, 0)
}

/// A write queued at (col, row) stays on a `cols` by `rows` grid.
pub open spec fn write_on_grid(w: WriteV, cols: int, rows: int) -> bool {
    0 <= w.col < cols && 0 <= w.row < rows
}

proof fn lemma_doc_writes_on_grid(lines: Seq<Seq<char>>, r: Rect, j: int, cols: int, rows: int)
    requires
        r.wf(),
        r.bottom_r.0 as int <= cols,
        r.bottom_r.1 as int <= rows,
    ensures
        forall|i: int|
            0 <= i < doc_writes_from(lines, r, j).len() ==> write_on_grid(
                #[trigger] doc_writes_from(lines, r, j)[i],
                cols,
                rows,
            ),
    decreases lines.len() - j,
{
    if !(j < 0 || j >= lines.len() || r.top_l.1 + j >= r.bottom_r.1) {
        lemma_doc_writes_on_grid(lines, r, j + 1, cols, rows);
        let row = doc_row_writes(lines[j], r.top_l.0 as int, r.bottom_r.0 as int, r.top_l.1 + j);
        let rest = doc_writes_from(lines, r, j + 1);
        assert forall|i: int|
            0 <= i < doc_writes_from(lines, r, j).len() implies write_on_grid(
            doc_writes_from(lines, r, j)[i],
            cols,
            rows,
        ) by {
            if i < row.len() {
                assert(doc_writes_from(lines, r, j)[i] == row[i]);
            } else {
                assert(doc_writes_from(lines, r, j)[i] == rest[i - row.len()]);
            }
        }
    }
}

proof fn lemma_paint_writes_on_grid(w: Window, cols: int, rows: int)
    requires
        w.rect().wf(),
        w.rect().bottom_r.0 as int <= cols,
        w.rect().bottom_r.1 as int <= rows,
    ensures
        forall|i: int|
            0 <= i < paint_writes(w).len() ==> write_on_grid(
                #[trigger] paint_writes(w)[i],
                cols,
                rows,
            ),
{
    match w.win_t {
        WinType::Text(_) => {},
        WinType::Document(d) => {
            lemma_doc_writes_on_grid(d.lines(), w.rect(), 0, cols, rows);
        },
        WinType::Empty => {},
    }
}

proof fn lemma_render_scan_on_grid(v: TreeView, n: int, j: int)
    requires
        v.wf_tree(),
        0 <= j,
    ensures
        forall|i: int|
            0 <= i < render_scan(v, n, j).len() ==> write_on_grid(
                #[trigger] render_scan(v, n, j)[i],
                v.cols,
                v.rows,
            ),
    decreases v.rank(n), v.edges.len() - j,
{
    reveal(render_scan);
    if j < v.edges.len() {
        lemma_render_scan_on_grid(v, n, j + 1);
        let e = v.edges[j];
        let rest = render_scan(v, n, j + 1);
        if e.parent == n {
            let cw = v.nodes[e.child];
            assert(v.live(e.child));  // triggers nodes_wf: the child's region is on the grid
            let content = if cw.win_t is Empty {
                render_scan(v, e.child, 0)
            } else {
                paint_writes(cw)
            };
            if cw.win_t is Empty {
                lemma_rank_decreases(v, j);
                lemma_render_scan_on_grid(v, e.child, 0);
            } else {
                lemma_paint_writes_on_grid(cw, v.cols, v.rows);
            }
            let sep = sep_writes(e, cw);
            assert(render_scan(v, n, j) == content + sep + rest);
            assert forall|i: int|
                0 <= i < render_scan(v, n, j).len() implies write_on_grid(
                render_scan(v, n, j)[i],
                v.cols,
                v.rows,
            ) by {
                if i < content.len() {
                    assert(render_scan(v, n, j)[i] == content[i]);
                } else if i < content.len() + sep.len() {
                    assert(render_scan(v, n, j)[i] == sep[i - content.len()]);
                } else {
                    assert(render_scan(v, n, j)[i] == rest[i - content.len() - sep.len()]);
                }
            }
        } else {
            assert(render_scan(v, n, j) == rest);
        }
    }
}

/// The renderer never issues a write outside the grid the tree was created
/// for: every queued write of a full rendering lies within the declared
/// size.
pub proof fn lemma_render_on_grid(v: TreeView, n: int)
    requires
        v.wf_tree(),
    ensures
        forall|i: int|
            0 <= i < render_spec(v, n).len() ==> write_on_grid(
                #[trigger] render_spec(v, n)[i],
                v.cols,
                v.rows,
            ),
{
    lemma_render_scan_on_grid(v, n, 0);
}

/// A window with a child holds `Empty` content in a well formed tree, and
/// `Empty` content paints nothing: the renderer never paints a window that
/// has any child, it only recurses into it.
pub proof fn lemma_containers_paint_nothing(v: TreeView, n: int)
    requires
        v.wf(),
        v.live(n),
        v.has_child(n),
    ensures
        paint_writes(v.nodes[n]) == Seq::<WriteV>::empty(),
{
    lemma_containers_empty(v, n);
}

/// Rendering is read-only and deterministic: with no mutation in between,
/// two renders of the same tree from the same window queue identical
/// writes.
pub proof fn lemma_render_idempotent(v: TreeView, n: int, w1: Seq<WriteV>, w2: Seq<WriteV>)
    requires
        w1 == render_spec(v, n),
        w2 == render_spec(v, n),
    ensures
        w1 == w2,
{
}

/// Queues a text window's line at its top-left cell; a window without
/// interior queues nothing.
pub(crate) fn draw_c(content: String, top_l: Position, bottom_r: Position, surface: &mut Surface)
    requires
        (bottom_r.0 as int) <= old(surface)@.cols,
        (bottom_r.1 as int) <= old(surface)@.rows,
    ensures
        final(surface)@.cols == old(surface)@.cols,
        final(surface)@.rows == old(surface)@.rows,
        final(surface)@.writes == old(surface)@.writes + text_writes(
            content@,
            Rect { top_l, bottom_r },
        ),
{
    let ghost w0 = surface@.writes;
    let ghost r = Rect { top_l, bottom_r };
    if top_l.0 < bottom_r.0 && top_l.1 < bottom_r.1 {
        surface.write_at(top_l.0, top_l.1, content, false);
        proof {
            assert(surface@.writes =~= w0 + text_writes(content@, r));
        }
    } else {
        proof {
            assert(surface@.writes =~= w0 + text_writes(content@, r));
        }
    }
}

/// Queues a document window's block: one grapheme cluster per column from
/// the left edge, one document row per grid row from the top, clipped to
/// the window's rectangle; rows and clusters beyond it are not drawn.
pub(crate) fn draw_d(doc: &Doc, top_l: Position, bottom_r: Position, surface: &mut Surface)
    requires
        top_l.0 <= bottom_r.0,
        top_l.1 <= bottom_r.1,
        (bottom_r.0 as int) <= old(surface)@.cols,
        (bottom_r.1 as int) <= old(surface)@.rows,
    ensures
        final(surface)@.cols == old(surface)@.cols,
        final(surface)@.rows == old(surface)@.rows,
        final(surface)@.writes == old(surface)@.writes + doc_writes_from(
            doc.lines(),
            Rect { top_l, bottom_r },
            0,
        ),
{
    let ghost w0 = surface@.writes;
    let ghost r = Rect { top_l, bottom_r };
    let ghost lines = doc.lines();
    let height: usize = (bottom_r.1 - top_l.1) as usize;
    let nrows: usize = if doc.rows.len() < height {
        doc.rows.len()
    } else {
        height
    };
    let mut j: usize = 0;
    while j < nrows
        invariant
            j <= nrows,
            nrows <= doc.rows@.len(),
            nrows as int <= bottom_r.1 - top_l.1,
            nrows == doc.rows@.len() || top_l.1 + nrows == bottom_r.1,
            lines == doc.lines(),
            r == (Rect { top_l, bottom_r }),
            top_l.0 <= bottom_r.0,
            top_l.1 <= bottom_r.1,
            (bottom_r.0 as int) <= surface@.cols,
            (bottom_r.1 as int) <= surface@.rows,
            surface@.cols == old(surface)@.cols,
            surface@.rows == old(surface)@.rows,
            w0 == old(surface)@.writes,
            w0 + doc_writes_from(lines, r, 0) =~= surface@.writes + doc_writes_from(
                lines,
                r,
                j as int,
            ),
        decreases nrows - j,
    {
        let ghost wrow = surface@.writes;
        let row_y: u16 = top_l.1 + (j as u16);
        let gs = graphemes(doc.rows[j].string.as_str());
        proof {
            assert(lines[j as int] == doc.rows@[j as int].string@);
            assert(gs@.map_values(|g: &str| g@) == graphemes_of(lines[j as int]));
        }
        let width: usize = (bottom_r.0 - top_l.0) as usize;
        let ncols: usize = if gs.len() < width {
            gs.len()
        } else {
            width
        };
        let ghost rowseq = doc_row_writes(
            lines[j as int],
            top_l.0 as int,
            bottom_r.0 as int,
            top_l.1 + j,
        );
        proof {
            assert(rowseq.len() == ncols as int);
        }
        let mut k: usize = 0;
        while k < ncols
            invariant
                k <= ncols,
                ncols <= gs@.len(),
                ncols as int <= bottom_r.0 - top_l.0,
                (bottom_r.0 as int) <= surface@.cols,
                (bottom_r.1 as int) <= surface@.rows,
                surface@.cols == old(surface)@.cols,
                surface@.rows == old(surface)@.rows,
                (row_y as int) < bottom_r.1 as int,
                gs@.map_values(|g: &str| g@) == graphemes_of(lines[j as int]),
                rowseq == doc_row_writes(
                    lines[j as int],
                    top_l.0 as int,
                    bottom_r.0 as int,
                    row_y as int,
                ),
                rowseq.len() == ncols as int,
                surface@.writes =~= wrow + rowseq.take(k as int),
            decreases ncols - k,
        {
            surface.write_at(top_l.0 + (k as u16), row_y, gs[k].to_owned(), false);
            proof {
                assert(surface@.writes =~= wrow + rowseq.take(k as int + 1));
            }
            k += 1;
        }
        proof {
            assert(rowseq.take(ncols as int) =~= rowseq);
            assert(doc_writes_from(lines, r, j as int) == rowseq + doc_writes_from(
                lines,
                r,
                j as int + 1,
            ));
            assert(w0 + doc_writes_from(lines, r, 0) =~= surface@.writes + doc_writes_from(
                lines,
                r,
                j as int + 1,
            ));
        }
        j += 1;
    }
    proof {
        assert(doc_writes_from(lines, r, nrows as int) =~= Seq::<WriteV>::empty());
        assert(surface@.writes =~= w0 + doc_writes_from(lines, r, 0));
    }
}

/// Queues the vertical separator glyph down every row of `range` at the
/// boundary column.
pub(crate) fn draw_v(col: u16, range: (u16, u16), surface: &mut Surface)
    requires
        (col as int) < old(surface)@.cols,
        range.0 <= range.1,
        (range.1 as int) <= old(surface)@.rows,
    ensures
        final(surface)@.cols == old(surface)@.cols,
        final(surface)@.rows == old(surface)@.rows,
        final(surface)@.writes == old(surface)@.writes + vline_writes(
            col as int,
            range.0 as int,
            range.1 as int,
        ),
{
    let ghost w0 = surface@.writes;
    let mut row: u16 = range.0;
    while row < range.1
        invariant
            range.0 <= row <= range.1,
            (col as int) < surface@.cols,
            (range.1 as int) <= surface@.rows,
            surface@.cols == old(surface)@.cols,
            surface@.rows == old(surface)@.rows,
            w0 == old(surface)@.writes,
            surface@.writes =~= w0 + vline_writes(col as int, range.0 as int, row as int),
        decreases range.1 - row,
    {
        let glyph = "|".to_owned();
        proof {
            reveal_strlit("|");
            assert(glyph@ =~= seq!['|']);
        }
        surface.write_at(col, row, glyph, true);
        proof {
            assert(surface@.writes =~= w0 + vline_writes(
                col as int,
                range.0 as int,
                row as int + 1,
            ));
        }
        row += 1;
    }
    proof {
        assert(surface@.writes =~= w0 + vline_writes(col as int, range.0 as int, range.1 as int));
    }
}

/// Queues the horizontal separator glyph across every column of `range` at
/// the boundary row.
pub(crate) fn draw_h(row: u16, range: (u16, u16), surface: &mut Surface)
    requires
        (row as int) < old(surface)@.rows,
        range.0 <= range.1,
        (range.1 as int) <= old(surface)@.cols,
    ensures
        final(surface)@.cols == old(surface)@.cols,
        final(surface)@.rows == old(surface)@.rows,
        final(surface)@.writes == old(surface)@.writes + hline_writes(
            row as int,
            range.0 as int,
            range.1 as int,
        ),
{
    let ghost w0 = surface@.writes;
    let mut col: u16 = range.0;
    while col < range.1
        invariant
            range.0 <= col <= range.1,
            (row as int) < surface@.rows,
            (range.1 as int) <= surface@.cols,
            surface@.cols == old(surface)@.cols,
            surface@.rows == old(surface)@.rows,
            w0 == old(surface)@.writes,
            surface@.writes =~= w0 + hline_writes(row as int, range.0 as int, col as int),
        decreases range.1 - col,
    {
        let glyph = "-".to_owned();
        proof {
            reveal_strlit("-");
            assert(glyph@ =~= seq!['-']);
        }
        surface.write_at(col, row, glyph, true);
        proof {
            assert(surface@.writes =~= w0 + hline_writes(
                row as int,
                range.0 as int,
                col as int + 1,
            ));
        }
        col += 1;
    }
    proof {
        assert(surface@.writes =~= w0 + hline_writes(row as int, range.0 as int, range.1 as int));
    }
}

} // verus!
