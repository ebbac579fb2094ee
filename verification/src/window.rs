//! The window tree store and its mutators.
//!
//! All windows live in one arena; parent→child split edges are held in an
//! adjacency list.  Identities are arena indices that are never reused, so a
//! handle stays meaningful after the window it named is removed.  The model
//! of the store is [`TreeView`]; every operation requires and preserves its
//! well-formedness, [`TreeView::wf`]: the edges form a tree rooted at the
//! root window, every window's region lies inside its parent's and on the
//! grid, and only leaves carry paintable content.

use vstd::prelude::*;
use vstd::set_lib::lemma_len_subset;
use crate::geometry::{
    Position, Rect, Frac, split_vertical, split_horizontal, split_vertical_spec,
    split_horizontal_spec, lemma_split_vertical_shape, lemma_split_horizontal_shape,
    lemma_split_vertical_partition, lemma_split_horizontal_partition,
};
use crate::document::Doc;
use crate::error::WinError;
use crate::surface::Surface;
use crate::render::{paint_writes, sep_writes, render_scan, render_spec};

verus! {

/// What a window shows: nothing (a container that only hosts a split), one
/// literal line of text, or a document supplying a block of lines.
pub enum WinType {
    Text(String),
    Document(Doc),
    Empty,
}

/// The stable identity of a window: a handle returned by the mutation
/// operations, valid until the window is removed and never reused afterwards.
#[derive(Clone, Copy, Debug, PartialEq, Eq, Hash, Structural)]
pub struct WinId {
    idx: usize,
}

impl View for WinId {
    type V = int;

    closed spec fn view(&self) -> int {
        self.idx as int
    }
}

/// How a parent's region was partitioned: the absolute grid line (a column
/// for a vertical split, a row for a horizontal one) reserved for the
/// separator glyph.  The line is a property of the split itself, shared by
/// both children.
#[derive(Clone, Copy, Debug, PartialEq, Eq, Structural)]
pub enum Split {
    Vertical(u16),
    Horizontal(u16),
}

/// The two split directions.
#[derive(Clone, Copy, Debug, PartialEq, Eq, Structural)]
pub enum Axis {
    Vertical,
    Horizontal,
}

/// A drawable region: its content and the rectangle it occupies.
pub struct Window {
    pub win_t: WinType,
    pub top_l: Position,
    pub bottom_r: Position,
}

impl Window {
    /// The region the window occupies.
    pub open spec fn rect(self) -> Rect {
        Rect { top_l: self.top_l, bottom_r: self.bottom_r }
    }
}

/// One parent→child adjacency, labelled with the split that created it.
struct Edge {
    parent: WinId,
    child: WinId,
    split: Split,
}

/// One parent→child adjacency as the specification sees it.
pub struct EdgeV {
    pub parent: int,
    pub child: int,
    pub split: Split,
}

/// The model of a window store: the live windows by identity, the split
/// edges in insertion order, the distinguished root and focus, the grid
/// size, and a depth witness that keeps the edges a rooted tree.
pub struct TreeView {
    pub nodes: Map<int, Window>,
    pub edges: Seq<EdgeV>,
    pub root: int,
    pub focused: int,
    pub cols: int,
    pub rows: int,
    pub depths: Map<int, nat>,
}

impl TreeView {
    /// The identity names a window that currently exists.
    pub open spec fn live(self, n: int) -> bool {
        self.nodes.dom().contains(n)
    }

    /// The region of window `n`.
    pub open spec fn rect_of(self, n: int) -> Rect {
        self.nodes[n].rect()
    }

    /// Some edge runs from `p` to `c`.
    pub open spec fn edge_between(self, p: int, c: int) -> bool {
        exists|i: int|
            0 <= i < self.edges.len() && (#[trigger] self.edges[i]).parent == p
                && self.edges[i].child == c
    }

    /// Some edge ends at `c`.
    pub open spec fn has_parent(self, c: int) -> bool {
        exists|i: int| 0 <= i < self.edges.len() && (#[trigger] self.edges[i]).child == c
    }

    /// Some edge starts at `p`.
    pub open spec fn has_child(self, p: int) -> bool {
        exists|i: int| 0 <= i < self.edges.len() && (#[trigger] self.edges[i]).parent == p
    }

    /// A window with no children; the only kind that paints content.
    pub open spec fn is_leaf(self, n: int) -> bool {
        !self.has_child(n)
    }

    /// Every edge joins live windows, never re-enters the root, goes one
    /// level down in depth, keeps the child's region inside the parent's,
    /// and carries a boundary line on the grid.
    pub open spec fn edges_wf(self) -> bool {
        forall|i: int|
            0 <= i < self.edges.len() ==> {
                let e = #[trigger] self.edges[i];
                &&& self.live(e.parent)
                &&& self.live(e.child)
                &&& e.child != self.root
                &&& self.depths[e.child] == self.depths[e.parent] + 1
                &&& self.rect_of(e.child).within(self.rect_of(e.parent))
                &&& match e.split {
                    Split::Vertical(b) => (b as int) < self.cols,
                    Split::Horizontal(r) => (r as int) < self.rows,
                }
            }
    }

    /// No window has two incoming edges.
    pub open spec fn unique_parent(self) -> bool {
        forall|i: int, j: int|
            0 <= i < self.edges.len() && 0 <= j < self.edges.len() && i != j ==> (
            #[trigger] self.edges[i]).child != (#[trigger] self.edges[j]).child
    }

    /// Every live window has a well formed region on the grid, every
    /// non-root window has a parent, and a window with children holds no
    /// paintable content.
    pub open spec fn nodes_wf(self) -> bool {
        forall|n: int|
            #[trigger] self.live(n) ==> {
                &&& self.rect_of(n).wf()
                &&& self.rect_of(n).bottom_r.0 as int <= self.cols
                &&& self.rect_of(n).bottom_r.1 as int <= self.rows
                &&& (n != self.root ==> self.has_parent(n))
                &&& (self.has_child(n) ==> self.nodes[n].win_t is Empty)
            }
    }

    /// Everything [`Self::wf`] asks except that the focused window exists.
    /// Removing the focused window leaves the store in this state until the
    /// caller reassigns focus.
    pub open spec fn wf_tree(self) -> bool {
        &&& 1 <= self.cols <= u16::MAX as int
        &&& 1 <= self.rows <= u16::MAX as int
        &&& self.nodes.dom().finite()
        &&& self.live(self.root)
        &&& self.nodes[self.root].top_l == Position(0, 0)
        &&& self.nodes[self.root].bottom_r == Position(self.cols as u16, self.rows as u16)
        &&& self.depths.dom() == self.nodes.dom()
        &&& self.depths[self.root] == 0
        &&& self.edges_wf()
        &&& self.unique_parent()
        &&& self.nodes_wf()
    }

    /// The store invariant: a rooted window tree on the grid with a live
    /// focus.
    pub open spec fn wf(self) -> bool {
        self.wf_tree() && self.live(self.focused)
    }

    /// The live windows strictly deeper than `n`: the traversal measure.
    pub open spec fn deeper(self, n: int) -> Set<int> {
        self.nodes.dom().filter(|m: int| self.depths[m] > self.depths[n])
    }

    /// How much room is left below `n`; recursion into a child shrinks it.
    pub open spec fn rank(self, n: int) -> nat {
        self.deeper(n).len()
    }
}

/// Walking an edge down the tree strictly shrinks the traversal measure.
pub proof fn lemma_rank_decreases(v: TreeView, i: int)
    requires
        v.wf_tree(),
        0 <= i < v.edges.len(),
    ensures
        v.rank(v.edges[i].child) < v.rank(v.edges[i].parent),
{
    let p = v.edges[i].parent;
    let c = v.edges[i].child;
    assert(v.live(p) && v.live(c));
    assert(v.deeper(p).subset_of(v.nodes.dom()));
    lemma_len_subset(v.deeper(p), v.nodes.dom());
    assert(v.deeper(c).subset_of(v.deeper(p).remove(c)));
    lemma_len_subset(v.deeper(c), v.deeper(p).remove(c));
    assert(v.deeper(p).contains(c));
    assert(v.deeper(p).remove(c).len() == v.deeper(p).len() - 1);
}

/// Adding two fresh leaves under a live empty window keeps the store well
/// formed: `v1` is `v0` with windows `a` and `b` (covering the two sides of
/// the split of `p`'s region) and one edge from `p` to each.
#[verifier::rlimit(100)]
proof fn lemma_split_at_wf(
    v0: TreeView,
    v1: TreeView,
    p: int,
    a: int,
    b: int,
    wa: Window,
    wb: Window,
    axis: Axis,
    f: Frac,
)
    requires
        v0.wf(),
        v0.live(p),
        v0.nodes[p].win_t is Empty,
        !v0.live(a),
        !v0.live(b),
        a != b,
        wa.rect() == split_rects(v0.rect_of(p), axis, f).0,
        wb.rect() == split_rects(v0.rect_of(p), axis, f).1,
        v1.nodes == v0.nodes.insert(a, wa).insert(b, wb),
        v1.edges == v0.edges.push(
            EdgeV { parent: p, child: a, split: axis_split(axis, split_rects(v0.rect_of(p), axis, f).2) },
        ).push(
            EdgeV { parent: p, child: b, split: axis_split(axis, split_rects(v0.rect_of(p), axis, f).2) },
        ),
        v1.depths == v0.depths.insert(a, v0.depths[p] + 1).insert(b, v0.depths[p] + 1),
        v1.root == v0.root,
        v1.focused == v0.focused,
        v1.cols == v0.cols,
        v1.rows == v0.rows,
    ensures
        v1.wf(),
{
    let prect = v0.rect_of(p);
    let (lrect, rrect, bnd) = split_rects(prect, axis, f);
    let n0 = v0.edges.len() as int;
    assert(v0.live(p));  // triggers v0.nodes_wf at p
    assert(prect.wf());
    match axis {
        Axis::Vertical => lemma_split_vertical_shape(prect, f),
        Axis::Horizontal => lemma_split_horizontal_shape(prect, f),
    }
    assert(v1.depths.dom() =~= v1.nodes.dom());
    assert(v1.edges_wf()) by {
        assert forall|i: int| 0 <= i < v1.edges.len() implies {
            let e = #[trigger] v1.edges[i];
            &&& v1.live(e.parent)
            &&& v1.live(e.child)
            &&& e.child != v1.root
            &&& v1.depths[e.child] == v1.depths[e.parent] + 1
            &&& v1.rect_of(e.child).within(v1.rect_of(e.parent))
            &&& match e.split {
                Split::Vertical(bb) => (bb as int) < v1.cols,
                Split::Horizontal(rr) => (rr as int) < v1.rows,
            }
        } by {
            if i < n0 {
                assert(v1.edges[i] == v0.edges[i]);
                let e = v0.edges[i];
                assert(v0.live(e.parent) && v0.live(e.child));
                assert(e.parent != a && e.parent != b && e.child != a && e.child != b);
            } else {
                assert(v0.live(p));
            }
        }
    }
    assert(v1.unique_parent()) by {
        assert forall|i: int, j: int|
            0 <= i < v1.edges.len() && 0 <= j < v1.edges.len() && i != j implies (
        #[trigger] v1.edges[i]).child != (#[trigger] v1.edges[j]).child by {
            if i < n0 {
                assert(v1.edges[i] == v0.edges[i]);
                assert(v0.live(v0.edges[i].child));
            }
            if j < n0 {
                assert(v1.edges[j] == v0.edges[j]);
                assert(v0.live(v0.edges[j].child));
            }
        }
    }
    assert(v1.nodes_wf()) by {
        assert forall|n: int| #[trigger] v1.live(n) implies {
            &&& v1.rect_of(n).wf()
            &&& v1.rect_of(n).bottom_r.0 as int <= v1.cols
            &&& v1.rect_of(n).bottom_r.1 as int <= v1.rows
            &&& (n != v1.root ==> v1.has_parent(n))
            &&& (v1.has_child(n) ==> v1.nodes[n].win_t is Empty)
        } by {
            if n == a || n == b {
                assert(v1.edges[if n == a {
                    n0
                } else {
                    n0 + 1
                }].child == n);
                assert(v1.has_parent(n));
                assert(!v1.has_child(n)) by {
                    if v1.has_child(n) {
                        let k = choose|k: int|
                            0 <= k < v1.edges.len() && (#[trigger] v1.edges[k]).parent == n;
                        if k < n0 {
                            assert(v1.edges[k] == v0.edges[k]);
                            assert(v0.live(v0.edges[k].parent));
                        } else {
                            assert(v1.edges[k].parent == p);
                        }
                        assert(false);
                    }
                }
            } else {
                assert(v0.live(n));
                assert(v1.nodes[n] == v0.nodes[n]);
                if n != v0.root {
                    let k = choose|k: int|
                        0 <= k < v0.edges.len() && (#[trigger] v0.edges[k]).child == n;
                    assert(v1.edges[k] == v0.edges[k]);
                    assert(v1.has_parent(n));
                }
                if v1.has_child(n) {
                    let k = choose|k: int|
                        0 <= k < v1.edges.len() && (#[trigger] v1.edges[k]).parent == n;
                    if k < n0 {
                        assert(v1.edges[k] == v0.edges[k]);
                        assert(v0.has_child(n));
                    } else {
                        assert(n == p);
                        assert(v0.has_child(n) || v0.nodes[p].win_t is Empty);
                    }
                    assert(v1.nodes[n].win_t is Empty);
                }
            }
        }
    }
}

/// Removing a non-root leaf and its one incoming edge keeps the tree well
/// formed; only the focus may be left dangling, when the leaf was focused.
#[verifier::rlimit(100)]
proof fn lemma_remove_wf(v0: TreeView, v1: TreeView, w: int, k: int)
    requires
        v0.wf(),
        v0.live(w),
        w != v0.root,
        v0.is_leaf(w),
        0 <= k < v0.edges.len(),
        v0.edges[k].child == w,
        v1.nodes == v0.nodes.remove(w),
        v1.edges == v0.edges.remove(k),
        v1.depths == v0.depths.remove(w),
        v1.root == v0.root,
        v1.focused == v0.focused,
        v1.cols == v0.cols,
        v1.rows == v0.rows,
    ensures
        v1.wf_tree(),
        v0.focused != w ==> v1.wf(),
{
    v0.edges.remove_ensures(k);
    let n1 = v1.edges.len() as int;
    assert(forall|i: int|
        0 <= i < n1 ==> #[trigger] v1.edges[i] == v0.edges[if i < k {
            i
        } else {
            i + 1
        }]);
    assert(v1.depths.dom() =~= v1.nodes.dom());
    assert(v1.edges_wf()) by {
        assert forall|i: int| 0 <= i < n1 implies {
            let e = #[trigger] v1.edges[i];
            &&& v1.live(e.parent)
            &&& v1.live(e.child)
            &&& e.child != v1.root
            &&& v1.depths[e.child] == v1.depths[e.parent] + 1
            &&& v1.rect_of(e.child).within(v1.rect_of(e.parent))
            &&& match e.split {
                Split::Vertical(bb) => (bb as int) < v1.cols,
                Split::Horizontal(rr) => (rr as int) < v1.rows,
            }
        } by {
            let oi = if i < k {
                i
            } else {
                i + 1
            };
            let e = v0.edges[oi];
            assert(v0.live(e.parent) && v0.live(e.child));
            assert(e.child != w);  // unique incoming edge of w is k, and oi != k
            assert(e.parent != w);  // w is a leaf
        }
    }
    assert(v1.unique_parent()) by {
        assert forall|i: int, j: int| 0 <= i < n1 && 0 <= j < n1 && i != j implies (
        #[trigger] v1.edges[i]).child != (#[trigger] v1.edges[j]).child by {
            let oi = if i < k {
                i
            } else {
                i + 1
            };
            let oj = if j < k {
                j
            } else {
                j + 1
            };
            assert(v1.edges[i] == v0.edges[oi] && v1.edges[j] == v0.edges[oj] && oi != oj);
        }
    }
    assert(v1.nodes_wf()) by {
        assert forall|n: int| #[trigger] v1.live(n) implies {
            &&& v1.rect_of(n).wf()
            &&& v1.rect_of(n).bottom_r.0 as int <= v1.cols
            &&& v1.rect_of(n).bottom_r.1 as int <= v1.rows
            &&& (n != v1.root ==> v1.has_parent(n))
            &&& (v1.has_child(n) ==> v1.nodes[n].win_t is Empty)
        } by {
            assert(v0.live(n) && n != w);
            assert(v1.nodes[n] == v0.nodes[n]);
            if n != v0.root {
                let ok = choose|ok: int|
                    0 <= ok < v0.edges.len() && (#[trigger] v0.edges[ok]).child == n;
                assert(ok != k);  // edge k ends at w, not n
                let ni = if ok < k {
                    ok
                } else {
                    ok - 1
                };
                assert(v1.edges[ni] == v0.edges[ok]);
                assert(v1.has_parent(n));
            }
            if v1.has_child(n) {
                let i = choose|i: int|
                    0 <= i < n1 && (#[trigger] v1.edges[i]).parent == n;
                let oi = if i < k {
                    i
                } else {
                    i + 1
                };
                assert(v0.edges[oi].parent == n);
                assert(v0.has_child(n));
            }
        }
    }
}

/// The children and boundary of splitting `r` along `axis`.
pub open spec fn split_rects(r: Rect, axis: Axis, f: Frac) -> (Rect, Rect, u16) {
    match axis {
        Axis::Vertical => split_vertical_spec(r, f),
        Axis::Horizontal => split_horizontal_spec(r, f),
    }
}

/// The edge label of a split along `axis` at line `b`.
pub open spec fn axis_split(axis: Axis, b: u16) -> Split {
    match axis {
        Axis::Vertical => Split::Vertical(b),
        Axis::Horizontal => Split::Horizontal(b),
    }
}

/// The cells covered by the leaves of `v`: what the renderer can paint.
pub open spec fn leaf_cells(v: TreeView) -> Set<(int, int)> {
    Set::new(
        |pt: (int, int)|
            exists|n: int|
                #![auto]
                v.live(n) && v.is_leaf(n) && v.rect_of(n).has_cell(pt),
    )
}

/// The cells of `r` consumed by the separator line of splitting `r` along
/// `axis`: one column, or one row, of `r`.
pub open spec fn strip_cells(r: Rect, axis: Axis, f: Frac) -> Set<(int, int)> {
    let b = split_rects(r, axis, f).2 as int;
    Set::new(
        |pt: (int, int)|
            r.has_cell(pt) && match axis {
                Axis::Vertical => pt.0 == b,
                Axis::Horizontal => pt.1 == b,
            },
    )
}

/// A split partitions the cells of `r`: a cell of `r` off the separator
/// strip lies in exactly one child, and the children cover nothing else.
pub proof fn lemma_cell_partition(r: Rect, axis: Axis, f: Frac)
    requires
        r.wf(),
    ensures
        forall|pt: (int, int)|
            #![auto]
            (r.has_cell(pt) && !strip_cells(r, axis, f).contains(pt)) <==> (split_rects(
                r,
                axis,
                f,
            ).0.has_cell(pt) || split_rects(r, axis, f).1.has_cell(pt)),
        forall|pt: (int, int)|
            #![auto]
            !(split_rects(r, axis, f).0.has_cell(pt) && split_rects(r, axis, f).1.has_cell(pt)),
{
    match axis {
        Axis::Vertical => {
            lemma_split_vertical_shape(r, f);
            if r.bottom_r.0 - r.top_l.0 >= 1 {
                lemma_split_vertical_partition(r, f);
            }
        },
        Axis::Horizontal => {
            lemma_split_horizontal_shape(r, f);
            if r.bottom_r.1 - r.top_l.1 >= 1 {
                lemma_split_horizontal_partition(r, f);
            }
        },
    }
}

/// Demoting the focused leaf under a fresh container keeps the store well
/// formed: `v1` is `v0` with a fresh leaf `nl` on one side of the split of
/// `foc`'s region, `foc` shrunk to the other side, a fresh container `c`
/// covering `foc`'s old region, the edge from `p` redirected to `c`, and
/// edges from `c` to both `nl` and `foc`.
#[verifier::rlimit(100)]
proof fn lemma_split_focused_wf(
    v0: TreeView,
    v1: TreeView,
    foc: int,
    p: int,
    c: int,
    nl: int,
    wn: Window,
    wc: Window,
    wfoc: Window,
    axis: Axis,
    f: Frac,
    k: int,
)
    requires
        v0.wf(),
        v0.focused == foc,
        foc != v0.root,
        v0.is_leaf(foc),
        0 <= k < v0.edges.len(),
        v0.edges[k].child == foc,
        v0.edges[k].parent == p,
        !v0.live(c),
        !v0.live(nl),
        c != nl,
        wn.rect() == split_rects(v0.rect_of(foc), axis, f).0,
        wc.rect() == v0.rect_of(foc),
        wc.win_t is Empty,
        wfoc.rect() == split_rects(v0.rect_of(foc), axis, f).1,
        wfoc.win_t == v0.nodes[foc].win_t,
        v1.nodes == v0.nodes.insert(nl, wn).insert(c, wc).insert(foc, wfoc),
        v1.edges == v0.edges.update(
            k,
            EdgeV { parent: p, child: c, split: v0.edges[k].split },
        ).push(
            EdgeV { parent: c, child: nl, split: axis_split(axis, split_rects(v0.rect_of(foc), axis, f).2) },
        ).push(
            EdgeV { parent: c, child: foc, split: axis_split(axis, split_rects(v0.rect_of(foc), axis, f).2) },
        ),
        v1.depths == v0.depths.insert(c, v0.depths[p] + 1).insert(nl, v0.depths[p] + 2).insert(
            foc,
            v0.depths[p] + 2,
        ),
        v1.root == v0.root,
        v1.focused == v0.focused,
        v1.cols == v0.cols,
        v1.rows == v0.rows,
    ensures
        v1.wf(),
{
    let rect0 = v0.rect_of(foc);
    let (lrect, rrect, bnd) = split_rects(rect0, axis, f);
    let n0 = v0.edges.len() as int;
    let d = v0.depths[p];
    assert(v0.live(p) && v0.live(foc));
    assert(rect0.wf());
    match axis {
        Axis::Vertical => lemma_split_vertical_shape(rect0, f),
        Axis::Horizontal => lemma_split_horizontal_shape(rect0, f),
    }
    assert(p != foc);  // the depth of foc is one more than p's
    assert(v0.depths[foc] == d + 1);
    assert(v1.depths.dom() =~= v1.nodes.dom());
    assert(v1.edges_wf()) by {
        assert forall|i: int| 0 <= i < v1.edges.len() implies {
            let e = #[trigger] v1.edges[i];
            &&& v1.live(e.parent)
            &&& v1.live(e.child)
            &&& e.child != v1.root
            &&& v1.depths[e.child] == v1.depths[e.parent] + 1
            &&& v1.rect_of(e.child).within(v1.rect_of(e.parent))
            &&& match e.split {
                Split::Vertical(bb) => (bb as int) < v1.cols,
                Split::Horizontal(rr) => (rr as int) < v1.rows,
            }
        } by {
            if i == k {
                assert(p != c && p != nl && p != foc);
                assert(v1.nodes[p] == v0.nodes[p]);
                assert(v1.rect_of(c) == rect0);
            } else if i < n0 {
                assert(v1.edges[i] == v0.edges[i]);
                let e = v0.edges[i];
                assert(v0.live(e.parent) && v0.live(e.child));
                assert(e.child != foc);  // unique incoming edge of foc is k
                assert(e.parent != foc);  // foc is a leaf
                assert(e.parent != c && e.parent != nl && e.child != c && e.child != nl);
            } else {
                // the two new edges out of the container
                assert(v1.rect_of(c) == rect0);
                assert(v1.rect_of(nl) == wn.rect());
                assert(v1.rect_of(foc) == wfoc.rect());
            }
        }
    }
    assert(v1.unique_parent()) by {
        assert forall|i: int, j: int|
            0 <= i < v1.edges.len() && 0 <= j < v1.edges.len() && i != j implies (
        #[trigger] v1.edges[i]).child != (#[trigger] v1.edges[j]).child by {
            let ci = v1.edges[i].child;
            let cj = v1.edges[j].child;
            if i < n0 && i != k {
                assert(v1.edges[i] == v0.edges[i]);
                assert(v0.live(ci) && ci != foc);
            }
            if j < n0 && j != k {
                assert(v1.edges[j] == v0.edges[j]);
                assert(v0.live(cj) && cj != foc);
            }
        }
    }
    assert(v1.nodes_wf()) by {
        assert forall|n: int| #[trigger] v1.live(n) implies {
            &&& v1.rect_of(n).wf()
            &&& v1.rect_of(n).bottom_r.0 as int <= v1.cols
            &&& v1.rect_of(n).bottom_r.1 as int <= v1.rows
            &&& (n != v1.root ==> v1.has_parent(n))
            &&& (v1.has_child(n) ==> v1.nodes[n].win_t is Empty)
        } by {
            if n == nl {
                assert(v1.edges[n0].child == n);
                assert(v1.has_parent(n));
                assert(!v1.has_child(n)) by {
                    if v1.has_child(n) {
                        let i = choose|i: int|
                            0 <= i < v1.edges.len() && (#[trigger] v1.edges[i]).parent == n;
                        if i < n0 && i != k {
                            assert(v1.edges[i] == v0.edges[i]);
                            assert(v0.live(v0.edges[i].parent));
                        }
                        assert(false);
                    }
                }
            } else if n == c {
                assert(v1.edges[k].child == n);
                assert(v1.has_parent(n));
                assert(v1.rect_of(c) == rect0);
            } else if n == foc {
                assert(v1.edges[n0 + 1].child == n);
                assert(v1.has_parent(n));
                assert(!v1.has_child(n)) by {
                    if v1.has_child(n) {
                        let i = choose|i: int|
                            0 <= i < v1.edges.len() && (#[trigger] v1.edges[i]).parent == n;
                        if i < n0 && i != k {
                            assert(v1.edges[i] == v0.edges[i]);
                            assert(v0.edges[i].parent != foc);
                        }
                        assert(false);
                    }
                }
            } else {
                assert(v0.live(n));
                assert(v1.nodes[n] == v0.nodes[n]);
                if n != v0.root {
                    let ok = choose|ok: int|
                        0 <= ok < v0.edges.len() && (#[trigger] v0.edges[ok]).child == n;
                    assert(ok != k);
                    assert(v1.edges[ok] == v0.edges[ok]);
                    assert(v1.has_parent(n));
                }
                if v1.has_child(n) {
                    let i = choose|i: int|
                        0 <= i < v1.edges.len() && (#[trigger] v1.edges[i]).parent == n;
                    if i == k {
                        assert(n == p);
                        assert(v0.has_child(n));
                    } else if i < n0 {
                        assert(v1.edges[i] == v0.edges[i]);
                        assert(v0.has_child(n));
                    } else {
                        assert(v1.edges[i].parent == c);
                        assert(false);
                    }
                    assert(v1.nodes[n].win_t is Empty);
                }
            }
        }
    }
}

/// Demoting the focused leaf preserves the painted area: the cells covered
/// by leaves afterwards are the cells covered before, less the one-line
/// strip the new separator consumed.
#[verifier::rlimit(100)]
proof fn lemma_split_focused_cells(
    v0: TreeView,
    v1: TreeView,
    foc: int,
    p: int,
    c: int,
    nl: int,
    wn: Window,
    wc: Window,
    wfoc: Window,
    axis: Axis,
    f: Frac,
    k: int,
)
    requires
        v0.wf(),
        v0.focused == foc,
        foc != v0.root,
        v0.is_leaf(foc),
        0 <= k < v0.edges.len(),
        v0.edges[k].child == foc,
        v0.edges[k].parent == p,
        !v0.live(c),
        !v0.live(nl),
        c != nl,
        wn.rect() == split_rects(v0.rect_of(foc), axis, f).0,
        wc.rect() == v0.rect_of(foc),
        wc.win_t is Empty,
        wfoc.rect() == split_rects(v0.rect_of(foc), axis, f).1,
        wfoc.win_t == v0.nodes[foc].win_t,
        v1.nodes == v0.nodes.insert(nl, wn).insert(c, wc).insert(foc, wfoc),
        v1.edges == v0.edges.update(
            k,
            EdgeV { parent: p, child: c, split: v0.edges[k].split },
        ).push(
            EdgeV { parent: c, child: nl, split: axis_split(axis, split_rects(v0.rect_of(foc), axis, f).2) },
        ).push(
            EdgeV { parent: c, child: foc, split: axis_split(axis, split_rects(v0.rect_of(foc), axis, f).2) },
        ),
    ensures
        leaf_cells(v1).subset_of(leaf_cells(v0)),
        leaf_cells(v0).difference(strip_cells(v0.rect_of(foc), axis, f)).subset_of(
            leaf_cells(v1),
        ),
{
    let rect0 = v0.rect_of(foc);
    let (lrect, rrect, bnd) = split_rects(rect0, axis, f);
    let n0 = v0.edges.len() as int;
    assert(v0.live(p) && v0.live(foc));
    assert(rect0.wf());
    match axis {
        Axis::Vertical => lemma_split_vertical_shape(rect0, f),
        Axis::Horizontal => lemma_split_horizontal_shape(rect0, f),
    }
    lemma_cell_partition(rect0, axis, f);
    // Leaf status: nl and foc are leaves of v1, c is not; any other window
    // is a leaf of v1 exactly when it was one of v0.
    assert(!v1.has_child(nl)) by {
        if v1.has_child(nl) {
            let i = choose|i: int|
                0 <= i < v1.edges.len() && (#[trigger] v1.edges[i]).parent == nl;
            if i < n0 && i != k {
                assert(v1.edges[i] == v0.edges[i]);
                assert(v0.live(v0.edges[i].parent));
            }
            assert(false);
        }
    }
    assert(!v1.has_child(foc)) by {
        if v1.has_child(foc) {
            let i = choose|i: int|
                0 <= i < v1.edges.len() && (#[trigger] v1.edges[i]).parent == foc;
            if i < n0 && i != k {
                assert(v1.edges[i] == v0.edges[i]);
                assert(v0.edges[i].parent != foc);
            }
            assert(false);
        }
    }
    assert(v1.has_child(c)) by {
        assert(v1.edges[n0].parent == c);
    }
    assert forall|m: int|
        v0.live(m) && m != foc && m != c && m != nl implies (v1.is_leaf(m) == v0.is_leaf(
        m,
    )) by {
        if v1.has_child(m) {
            let i = choose|i: int|
                0 <= i < v1.edges.len() && (#[trigger] v1.edges[i]).parent == m;
            if i == k {
                assert(m == p);
                assert(v0.edges[k].parent == m);
                assert(v0.has_child(m));
            } else if i < n0 {
                assert(v1.edges[i] == v0.edges[i]);
                assert(v0.has_child(m));
            } else {
                assert(v1.edges[i].parent == c);
                assert(false);
            }
        }
        if v0.has_child(m) {
            let i = choose|i: int|
                0 <= i < v0.edges.len() && (#[trigger] v0.edges[i]).parent == m;
            if i == k {
                assert(m == p);
                assert(v1.edges[k].parent == p);
                assert(v1.has_child(m));
            } else {
                assert(v1.edges[i] == v0.edges[i]);
                assert(v1.has_child(m));
            }
        }
    }
    assert(leaf_cells(v1).subset_of(leaf_cells(v0))) by {
        assert forall|pt: (int, int)| leaf_cells(v1).contains(pt) implies leaf_cells(
            v0,
        ).contains(pt) by {
            let n = choose|n: int|
                #![auto]
                v1.live(n) && v1.is_leaf(n) && v1.rect_of(n).has_cell(pt);
            if n == nl {
                assert(v1.rect_of(nl) == wn.rect());
                assert(rect0.has_cell(pt));
                assert(v0.live(foc) && v0.is_leaf(foc) && v0.rect_of(foc).has_cell(pt));
            } else if n == foc {
                assert(v1.rect_of(foc) == wfoc.rect());
                assert(rect0.has_cell(pt));
                assert(v0.live(foc) && v0.is_leaf(foc) && v0.rect_of(foc).has_cell(pt));
            } else if n == c {
                assert(false);
            } else {
                assert(v0.live(n) && v1.nodes[n] == v0.nodes[n]);
                assert(v0.is_leaf(n));
                assert(v0.rect_of(n).has_cell(pt));
            }
        }
    }
    assert(leaf_cells(v0).difference(strip_cells(rect0, axis, f)).subset_of(
        leaf_cells(v1),
    )) by {
        assert forall|pt: (int, int)|
            leaf_cells(v0).contains(pt) && !strip_cells(rect0, axis, f).contains(
                pt,
            ) implies leaf_cells(v1).contains(pt) by {
            let m = choose|m: int|
                #![auto]
                v0.live(m) && v0.is_leaf(m) && v0.rect_of(m).has_cell(pt);
            if m == foc {
                assert(rect0.has_cell(pt));
                assert(lrect.has_cell(pt) || rrect.has_cell(pt));
                if lrect.has_cell(pt) {
                    assert(v1.live(nl) && v1.is_leaf(nl) && v1.rect_of(nl).has_cell(pt));
                } else {
                    assert(v1.live(foc) && v1.is_leaf(foc) && v1.rect_of(foc).has_cell(pt));
                }
            } else {
                assert(m != p);  // p has a child in v0, so it is no leaf
                assert(m != c && m != nl);
                assert(v1.nodes[m] == v0.nodes[m]);
                assert(v1.is_leaf(m));
                assert(v1.live(m) && v1.rect_of(m).has_cell(pt));
            }
        }
    }
}

/// The window store: an arena of windows, the split edges among them, the
/// focused window, and the grid size the tree was created for.
pub struct WindowSystem {
    /// Windows by identity; a removed window leaves a hole that is never
    /// refilled, keeping identities stable.
    nodes: Vec<Option<Window>>,
    /// Parent→child split edges, in insertion order.
    edges: Vec<Edge>,
    /// The window mutations without an explicit target apply to.  The store
    /// never reassigns it; the caller must keep it naming a live window.
    pub focused: WinId,
    /// The single window every other window descends from.
    pub root: WinId,
    /// The grid size reported at creation.
    size: (u16, u16),
    /// Depth of every live window: the witness that the edges form a tree.
    depth_w: Ghost<Map<int, nat>>,
}

impl View for WindowSystem {
    type V = TreeView;

    closed spec fn view(&self) -> TreeView {
        TreeView {
            nodes: Map::new(
                |n: int| 0 <= n < self.nodes@.len() && self.nodes@[n] is Some,
                |n: int| self.nodes@[n]->0,
            ),
            edges: self.edges@.map_values(
                |e: Edge| EdgeV { parent: e.parent@, child: e.child@, split: e.split },
            ),
            root: self.root@,
            focused: self.focused@,
            cols: self.size.0 as int,
            rows: self.size.1 as int,
            depths: self.depth_w@,
        }
    }
}

impl WindowSystem {
    /// A store holding a single empty window spanning the whole grid, which
    /// becomes both root and initial focus.
    pub fn new(size: (u16, u16)) -> (ws: WindowSystem)
        requires
            size.0 >= 1,
            size.1 >= 1,
        ensures
            ws@.wf(),
            ws@.cols == size.0 as int,
            ws@.rows == size.1 as int,
            ws@.focused == ws@.root,
            ws@.edges == Seq::<EdgeV>::empty(),
            ws@.nodes =~= Map::<int, Window>::empty().insert(
                ws@.root,
                Window { win_t: WinType::Empty, top_l: Position(0, 0), bottom_r: Position(size.0, size.1) },
            ),
    {
        let mut nodes: Vec<Option<Window>> = Vec::new();
        let root = Self::root(size, &mut nodes);
        let ws = WindowSystem {
            focused: root,
            nodes,
            edges: Vec::new(),
            root,
            size,
            depth_w: Ghost(Map::empty().insert(root@, 0nat)),
        };
        proof {
            assert(ws@.nodes =~= Map::<int, Window>::empty().insert(
                ws@.root,
                Window {
                    win_t: WinType::Empty,
                    top_l: Position(0, 0),
                    bottom_r: Position(size.0, size.1),
                },
            ));
            assert(ws@.edges =~= Seq::<EdgeV>::empty());
            assert(ws@.depths.dom() =~= ws@.nodes.dom());
        }
        ws
    }

    /// Places the root window: an empty window covering the whole grid.
    fn root(size: (u16, u16), nodes: &mut Vec<Option<Window>>) -> (id: WinId)
        ensures
            id@ == old(nodes)@.len(),
            final(nodes)@ == old(nodes)@.push(
                Some(
                    Window {
                        win_t: WinType::Empty,
                        top_l: Position(0, 0),
                        bottom_r: Position(size.0, size.1),
                    },
                ),
            ),
    {
        let id = WinId { idx: nodes.len() };
        nodes.push(
            Some(
                Window {
                    win_t: WinType::Empty,
                    top_l: Position(0, 0),
                    bottom_r: Position(size.0, size.1),
                },
            ),
        );
        id
    }

    /// The unique parent of `win`: the source of its one incoming edge.
    /// Fails with `NodeNotFound` for an identity no longer (or never) in the
    /// store, and with `NoParent` for the root.
    /// Splits the region of `parent` in two: computes the child regions
    /// from `parent`'s current region, inserts two new leaf windows holding
    /// `win_t` (first side) and `win_t2` (second side), and inserts one
    /// edge to each child, both carrying the same boundary line.  `parent`'s
    /// own content is not touched: it must already be `Empty` (a caller
    /// error otherwise, not a recoverable condition).  Fails with
    /// `NodeNotFound`, changing nothing, exactly when `parent` is stale.
    #[verifier::rlimit(100)]
    pub fn split_at(
        &mut self,
        parent: WinId,
        win_t: WinType,
        win_t2: WinType,
        axis: Axis,
        f: Frac,
    ) -> (r: Result<(WinId, WinId), WinError>)
        requires
            old(self)@.wf(),
            old(self)@.live(parent@) ==> old(self)@.nodes[parent@].win_t is Empty,
        ensures
            final(self)@.cols == old(self)@.cols,
            final(self)@.rows == old(self)@.rows,
            final(self)@.root == old(self)@.root,
            final(self)@.focused == old(self)@.focused,
            r is Err ==> final(self)@ == old(self)@ && !old(self)@.live(parent@) && r == Err::<
                (WinId, WinId),
                WinError,
            >(WinError::NodeNotFound(parent)),
            r is Ok ==> old(self)@.live(parent@) && final(self)@.wf(),
            r matches Ok((a, b)) ==> ({
                let (lrect, rrect, bnd) = split_rects(old(self)@.rect_of(parent@), axis, f);
                &&& !old(self)@.live(a@)
                &&& !old(self)@.live(b@)
                &&& a@ != b@
                &&& final(self)@.nodes =~= old(self)@.nodes.insert(
                    a@,
                    Window { win_t: win_t, top_l: lrect.top_l, bottom_r: lrect.bottom_r },
                ).insert(
                    b@,
                    Window { win_t: win_t2, top_l: rrect.top_l, bottom_r: rrect.bottom_r },
                )
                &&& final(self)@.edges =~= old(self)@.edges.push(
                    EdgeV { parent: parent@, child: a@, split: axis_split(axis, bnd) },
                ).push(EdgeV { parent: parent@, child: b@, split: axis_split(axis, bnd) })
            }),
    {
        let ghost pre = self@;
        if parent.idx >= self.nodes.len() {
            return Err(WinError::NodeNotFound(parent));
        }
        if self.nodes[parent.idx].is_none() {
            return Err(WinError::NodeNotFound(parent));
        }
        let wref = self.nodes[parent.idx].as_ref().unwrap();
        let prect = Rect { top_l: wref.top_l, bottom_r: wref.bottom_r };
        proof {
            assert(pre.live(parent@));
            assert(prect == pre.rect_of(parent@));
            assert(prect.wf());
        }
        let (lrect, rrect, b) = match axis {
            Axis::Vertical => split_vertical(prect, f),
            Axis::Horizontal => split_horizontal(prect, f),
        };
        let split = match axis {
            Axis::Vertical => Split::Vertical(b),
            Axis::Horizontal => Split::Horizontal(b),
        };
        let a_id = WinId { idx: self.nodes.len() };
        let win_a = Window { win_t, top_l: lrect.top_l, bottom_r: lrect.bottom_r };
        let win_b = Window { win_t: win_t2, top_l: rrect.top_l, bottom_r: rrect.bottom_r };
        let ghost wa = win_a;
        let ghost wb = win_b;
        self.nodes.push(Some(win_a));
        let b_id = WinId { idx: self.nodes.len() };
        self.nodes.push(Some(win_b));
        self.edges.push(Edge { parent, child: a_id, split });
        self.edges.push(Edge { parent, child: b_id, split });
        let ghost d = pre.depths[parent@];
        self.depth_w = Ghost(pre.depths.insert(a_id@, d + 1).insert(b_id@, d + 1));
        proof {
            assert(split == axis_split(axis, split_rects(pre.rect_of(parent@), axis, f).2));
            assert(wa.rect() == split_rects(pre.rect_of(parent@), axis, f).0);
            assert(wb.rect() == split_rects(pre.rect_of(parent@), axis, f).1);
            assert(self@.nodes =~= pre.nodes.insert(a_id@, wa).insert(b_id@, wb));
            assert(self@.edges =~= pre.edges.push(
                EdgeV { parent: parent@, child: a_id@, split },
            ).push(EdgeV { parent: parent@, child: b_id@, split }));
            lemma_split_at_wf(pre, self@, parent@, a_id@, b_id@, wa, wb, axis, f);
        }
        Ok((a_id, b_id))
    }

    /// Splits the focused window's region at a vertical line into two new
    /// leaves.  The focused window must hold no content (it becomes the
    /// container of the split); its own region is untouched.
    pub fn new_vertical(&mut self, win_t: WinType, win_t2: WinType, f: Frac) -> (r: (
        WinId,
        WinId,
    ))
        requires
            old(self)@.wf(),
            old(self)@.nodes[old(self)@.focused].win_t is Empty,
        ensures
            final(self)@.wf(),
            final(self)@.cols == old(self)@.cols,
            final(self)@.rows == old(self)@.rows,
            final(self)@.root == old(self)@.root,
            final(self)@.focused == old(self)@.focused,
            !old(self)@.live(r.0@),
            !old(self)@.live(r.1@),
            r.0@ != r.1@,
            ({
                let (lrect, rrect, bnd) = split_rects(
                    old(self)@.rect_of(old(self)@.focused),
                    Axis::Vertical,
                    f,
                );
                &&& final(self)@.nodes =~= old(self)@.nodes.insert(
                    r.0@,
                    Window { win_t: win_t, top_l: lrect.top_l, bottom_r: lrect.bottom_r },
                ).insert(
                    r.1@,
                    Window { win_t: win_t2, top_l: rrect.top_l, bottom_r: rrect.bottom_r },
                )
                &&& final(self)@.edges =~= old(self)@.edges.push(
                    EdgeV {
                        parent: old(self)@.focused,
                        child: r.0@,
                        split: Split::Vertical(bnd),
                    },
                ).push(
                    EdgeV {
                        parent: old(self)@.focused,
                        child: r.1@,
                        split: Split::Vertical(bnd),
                    },
                )
            }),
    {
        let focused = self.focused;
        let res = self.split_at(focused, win_t, win_t2, Axis::Vertical, f);
        match res {
            Ok(ids) => ids,
            Err(_) => {
                proof {
                    assert(false);
                }
                vstd::pervasive::unreached()
            },
        }
    }

    /// The row-wise mirror of `new_vertical`: splits the focused window's
    /// region at a horizontal line into two new leaves.
    pub fn new_horizontal(&mut self, win_t: WinType, win_t2: WinType, f: Frac) -> (r: (
        WinId,
        WinId,
    ))
        requires
            old(self)@.wf(),
            old(self)@.nodes[old(self)@.focused].win_t is Empty,
        ensures
            final(self)@.wf(),
            final(self)@.cols == old(self)@.cols,
            final(self)@.rows == old(self)@.rows,
            final(self)@.root == old(self)@.root,
            final(self)@.focused == old(self)@.focused,
            !old(self)@.live(r.0@),
            !old(self)@.live(r.1@),
            r.0@ != r.1@,
            ({
                let (lrect, rrect, bnd) = split_rects(
                    old(self)@.rect_of(old(self)@.focused),
                    Axis::Horizontal,
                    f,
                );
                &&& final(self)@.nodes =~= old(self)@.nodes.insert(
                    r.0@,
                    Window { win_t: win_t, top_l: lrect.top_l, bottom_r: lrect.bottom_r },
                ).insert(
                    r.1@,
                    Window { win_t: win_t2, top_l: rrect.top_l, bottom_r: rrect.bottom_r },
                )
                &&& final(self)@.edges =~= old(self)@.edges.push(
                    EdgeV {
                        parent: old(self)@.focused,
                        child: r.0@,
                        split: Split::Horizontal(bnd),
                    },
                ).push(
                    EdgeV {
                        parent: old(self)@.focused,
                        child: r.1@,
                        split: Split::Horizontal(bnd),
                    },
                )
            }),
    {
        let focused = self.focused;
        let res = self.split_at(focused, win_t, win_t2, Axis::Horizontal, f);
        match res {
            Ok(ids) => ids,
            Err(_) => {
                proof {
                    assert(false);
                }
                vstd::pervasive::unreached()
            },
        }
    }

    /// Splits at the currently focused leaf rather than at a container:
    /// demotes the focused window one level.  A fresh empty container takes
    /// over the focused window's region and its place under its parent
    /// (copying the parent edge's split); the focused window shrinks to one
    /// side of the new split and a fresh leaf holding `win_t` takes the
    /// other; both hang from the container.  Everything else in the tree is
    /// untouched, and in particular the union of cells the leaves cover
    /// only loses the one-line strip the new separator consumed.  Returns
    /// the new leaf; the caller decides whether to move focus onto it.
    /// Fails with `NoParent`, changing nothing, exactly when the focused
    /// window is the root.
    #[verifier::rlimit(100)]
    pub fn split_focused(&mut self, win_t: WinType, axis: Axis, f: Frac) -> (r: Result<
        WinId,
        WinError,
    >)
        requires
            old(self)@.wf(),
            old(self)@.is_leaf(old(self)@.focused),
        ensures
            final(self)@.cols == old(self)@.cols,
            final(self)@.rows == old(self)@.rows,
            final(self)@.root == old(self)@.root,
            final(self)@.focused == old(self)@.focused,
            r is Err <==> old(self)@.focused == old(self)@.root,
            r is Err ==> final(self)@ == old(self)@ && (r matches Err(e) && e matches
                WinError::NoParent(w) && w@ == old(self)@.focused),
            r matches Ok(nl) ==> ({
                let v0 = old(self)@;
                let foc = v0.focused;
                let rect0 = v0.rect_of(foc);
                let (lrect, rrect, bnd) = split_rects(rect0, axis, f);
                let ns = axis_split(axis, bnd);
                &&& !v0.live(nl@)
                &&& final(self)@.wf()
                &&& exists|i: int|
                    {
                        &&& 0 <= i < v0.edges.len()
                        &&& (#[trigger] v0.edges[i]).child == foc
                        &&& ({
                            let c = final(self)@.edges[i].child;
                            &&& !v0.live(c)
                            &&& c != nl@
                            &&& final(self)@.nodes =~= v0.nodes.insert(
                                nl@,
                                Window {
                                    win_t: win_t,
                                    top_l: lrect.top_l,
                                    bottom_r: lrect.bottom_r,
                                },
                            ).insert(
                                c,
                                Window {
                                    win_t: WinType::Empty,
                                    top_l: rect0.top_l,
                                    bottom_r: rect0.bottom_r,
                                },
                            ).insert(
                                foc,
                                Window {
                                    win_t: v0.nodes[foc].win_t,
                                    top_l: rrect.top_l,
                                    bottom_r: rrect.bottom_r,
                                },
                            )
                            &&& final(self)@.edges =~= v0.edges.update(
                                i,
                                EdgeV { parent: v0.edges[i].parent, child: c, split: v0.edges[i].split },
                            ).push(EdgeV { parent: c, child: nl@, split: ns }).push(
                                EdgeV { parent: c, child: foc, split: ns },
                            )
                        })
                    }
                &&& leaf_cells(final(self)@).subset_of(leaf_cells(v0))
                &&& leaf_cells(v0).difference(strip_cells(rect0, axis, f)).subset_of(
                    leaf_cells(final(self)@),
                )
            }),
    {
        let ghost pre = self@;
        let focused = self.focused;
        if focused.idx == self.root.idx {
            return Err(WinError::NoParent(focused));
        }
        proof {
            assert(pre.live(focused@));
            assert(pre.has_parent(focused@));
        }
        let fref = self.nodes[focused.idx].as_ref().unwrap();
        let rect0 = Rect { top_l: fref.top_l, bottom_r: fref.bottom_r };
        proof {
            assert(rect0 == pre.rect_of(focused@));
            assert(rect0.wf());
        }
        let (lrect, rrect, b) = match axis {
            Axis::Vertical => split_vertical(rect0, f),
            Axis::Horizontal => split_horizontal(rect0, f),
        };
        let ns = match axis {
            Axis::Vertical => Split::Vertical(b),
            Axis::Horizontal => Split::Horizontal(b),
        };
        // Locate the parent edge before touching anything, so a failure
        // leaves the tree unmodified.
        let k = self.find_parent_edge(focused);
        let parent = self.edges[k].parent;
        let old_split = self.edges[k].split;
        // The new leaf takes the first side of the split.
        let n_id = WinId { idx: self.nodes.len() };
        let win_n = Window { win_t, top_l: lrect.top_l, bottom_r: lrect.bottom_r };
        let ghost wn = win_n;
        self.nodes.push(Some(win_n));
        // The container covers the focused window's whole old region.
        let c_id = WinId { idx: self.nodes.len() };
        let win_c = Window { win_t: WinType::Empty, top_l: rect0.top_l, bottom_r: rect0.bottom_r };
        let ghost wc = win_c;
        self.nodes.push(Some(win_c));
        // Reparent: the edge that led to the focused window now leads to
        // the container, keeping its split.
        self.edges[k] = Edge { parent, child: c_id, split: old_split };
        // Shrink the focused window in place to the second side.
        let ghost wfoc = Window {
            win_t: pre.nodes[focused@].win_t,
            top_l: rrect.top_l,
            bottom_r: rrect.bottom_r,
        };
        match &mut self.nodes[focused.idx] {
            Some(w) => {
                w.top_l = rrect.top_l;
                w.bottom_r = rrect.bottom_r;
            },
            None => {
                proof {
                    assert(false);
                }
            },
        }
        // Hang the new leaf and the focused window from the container.
        self.edges.push(Edge { parent: c_id, child: n_id, split: ns });
        self.edges.push(Edge { parent: c_id, child: focused, split: ns });
        let ghost d = pre.depths[parent@];
        self.depth_w = Ghost(
            pre.depths.insert(c_id@, d + 1).insert(n_id@, d + 2).insert(focused@, d + 2),
        );
        proof {
            let v1 = self@;
            assert(pre.edges[k as int].child == focused@);
            assert(pre.edges[k as int].parent == parent@);
            assert(ns == axis_split(axis, split_rects(rect0, axis, f).2));
            assert(v1.nodes =~= pre.nodes.insert(n_id@, wn).insert(c_id@, wc).insert(
                focused@,
                wfoc,
            ));
            assert(v1.edges =~= pre.edges.update(
                k as int,
                EdgeV { parent: parent@, child: c_id@, split: pre.edges[k as int].split },
            ).push(EdgeV { parent: c_id@, child: n_id@, split: ns }).push(
                EdgeV { parent: c_id@, child: focused@, split: ns },
            ));
            lemma_split_focused_wf(
                pre,
                v1,
                focused@,
                parent@,
                c_id@,
                n_id@,
                wn,
                wc,
                wfoc,
                axis,
                f,
                k as int,
            );
            lemma_split_focused_cells(
                pre,
                v1,
                focused@,
                parent@,
                c_id@,
                n_id@,
                wn,
                wc,
                wfoc,
                axis,
                f,
                k as int,
            );
            assert(v1.edges[k as int].child == c_id@);
        }
        Ok(n_id)
    }

    /// Splits the focused leaf at a vertical line: the compound operation
    /// of [`Self::split_focused`] with a vertical axis.
    #[verifier::rlimit(100)]
    pub fn vertical(&mut self, win_t: WinType, f: Frac) -> (r: Result<WinId, WinError>)
        requires
            old(self)@.wf(),
            old(self)@.is_leaf(old(self)@.focused),
        ensures
            final(self)@.cols == old(self)@.cols,
            final(self)@.rows == old(self)@.rows,
            final(self)@.root == old(self)@.root,
            final(self)@.focused == old(self)@.focused,
            r is Err <==> old(self)@.focused == old(self)@.root,
            r is Err ==> final(self)@ == old(self)@ && (r matches Err(e) && e matches
                WinError::NoParent(w) && w@ == old(self)@.focused),
            r matches Ok(nl) ==> ({
                let v0 = old(self)@;
                let foc = v0.focused;
                let rect0 = v0.rect_of(foc);
                let (lrect, rrect, bnd) = split_rects(rect0, Axis::Vertical, f);
                let ns = Split::Vertical(bnd);
                &&& !v0.live(nl@)
                &&& final(self)@.wf()
                &&& exists|i: int|
                    {
                        &&& 0 <= i < v0.edges.len()
                        &&& (#[trigger] v0.edges[i]).child == foc
                        &&& ({
                            let c = final(self)@.edges[i].child;
                            &&& !v0.live(c)
                            &&& c != nl@
                            &&& final(self)@.nodes =~= v0.nodes.insert(
                                nl@,
                                Window {
                                    win_t: win_t,
                                    top_l: lrect.top_l,
                                    bottom_r: lrect.bottom_r,
                                },
                            ).insert(
                                c,
                                Window {
                                    win_t: WinType::Empty,
                                    top_l: rect0.top_l,
                                    bottom_r: rect0.bottom_r,
                                },
                            ).insert(
                                foc,
                                Window {
                                    win_t: v0.nodes[foc].win_t,
                                    top_l: rrect.top_l,
                                    bottom_r: rrect.bottom_r,
                                },
                            )
                            &&& final(self)@.edges =~= v0.edges.update(
                                i,
                                EdgeV { parent: v0.edges[i].parent, child: c, split: v0.edges[i].split },
                            ).push(EdgeV { parent: c, child: nl@, split: ns }).push(
                                EdgeV { parent: c, child: foc, split: ns },
                            )
                        })
                    }
                &&& leaf_cells(final(self)@).subset_of(leaf_cells(v0))
                &&& leaf_cells(v0).difference(strip_cells(rect0, Axis::Vertical, f)).subset_of(
                    leaf_cells(final(self)@),
                )
            }),
    {
        self.split_focused(win_t, Axis::Vertical, f)
    }

    /// Whether `win` currently has child windows.  Only a window without
    /// children may be removed or split at as the focused leaf.
    pub fn has_children(&self, win: WinId) -> (r: bool)
        ensures
            r == self@.has_child(win@),
    {
        let ghost v = self@;
        let mut i: usize = 0;
        while i < self.edges.len()
            invariant
                v == self@,
                i <= self.edges@.len(),
                forall|j: int| 0 <= j < i ==> (#[trigger] v.edges[j]).parent != win@,
            decreases self.edges@.len() - i,
        {
            if self.edges[i].parent.idx == win.idx {
                proof {
                    assert(v.edges[i as int].parent == win@);
                }
                return true;
            }
            i += 1;
        }
        proof {
            if v.has_child(win@) {
                let k = choose|k: int|
                    0 <= k < v.edges.len() && (#[trigger] v.edges[k]).parent == win@;
                assert(v.edges[k].parent != win@);
            }
        }
        false
    }

    /// The index of the one edge ending at `win`.
    fn find_parent_edge(&self, win: WinId) -> (k: usize)
        requires
            self@.has_parent(win@),
        ensures
            k < self@.edges.len(),
            self@.edges[k as int].child == win@,
    {
        let ghost v = self@;
        let mut i: usize = 0;
        while i < self.edges.len()
            invariant
                v == self@,
                i <= self.edges@.len(),
                v.has_parent(win@),
                forall|j: int| 0 <= j < i ==> (#[trigger] v.edges[j]).child != win@,
            decreases self.edges@.len() - i,
        {
            if self.edges[i].child.idx == win.idx {
                return i;
            }
            i += 1;
        }
        proof {
            let k = choose|k: int|
                0 <= k < v.edges.len() && (#[trigger] v.edges[k]).child == win@;
            assert(v.edges[k].child != win@);
            assert(false);
        }
        0
    }

    /// Removes a leaf window: the window and its one incoming edge leave
    /// the store, everything else stays put, and the former parent identity
    /// is returned so the caller can refocus sensibly.  Focus is never
    /// reassigned here: if the focused window itself is removed, the caller
    /// must move focus (the tree stays well formed, only the focus dangles).
    /// Fails with `NodeNotFound` for a stale identity and with `NoParent`
    /// for the root, changing nothing in either case.
    #[verifier::rlimit(50)]
    pub fn remove(&mut self, win: WinId) -> (r: Result<WinId, WinError>)
        requires
            old(self)@.wf(),
            old(self)@.live(win@) ==> old(self)@.is_leaf(win@),
        ensures
            final(self)@.cols == old(self)@.cols,
            final(self)@.rows == old(self)@.rows,
            final(self)@.root == old(self)@.root,
            final(self)@.focused == old(self)@.focused,
            r is Err ==> final(self)@ == old(self)@,
            !old(self)@.live(win@) ==> r == Err::<WinId, WinError>(WinError::NodeNotFound(win)),
            old(self)@.live(win@) && win@ == old(self)@.root ==> r == Err::<WinId, WinError>(
                WinError::NoParent(win),
            ),
            old(self)@.live(win@) && win@ != old(self)@.root ==> (r matches Ok(p) && {
                &&& old(self)@.edge_between(p@, win@)
                &&& final(self)@.nodes =~= old(self)@.nodes.remove(win@)
                &&& exists|i: int|
                    0 <= i < old(self)@.edges.len() && (#[trigger] old(self)@.edges[i]).child
                        == win@ && old(self)@.edges[i].parent == p@ && final(self)@.edges
                        =~= old(self)@.edges.remove(i)
                &&& final(self)@.wf_tree()
                &&& (win@ != old(self)@.focused ==> final(self)@.wf())
            }),
    {
        let ghost pre = self@;
        if win.idx >= self.nodes.len() {
            return Err(WinError::NodeNotFound(win));
        }
        if self.nodes[win.idx].is_none() {
            return Err(WinError::NodeNotFound(win));
        }
        if win.idx == self.root.idx {
            return Err(WinError::NoParent(win));
        }
        proof {
            assert(pre.live(win@));
            assert(pre.has_parent(win@));
        }
        let k = self.find_parent_edge(win);
        let parent = self.edges[k].parent;
        self.edges.remove(k);
        self.nodes[win.idx] = None;
        self.depth_w = Ghost(pre.depths.remove(win@));
        proof {
            assert(self@.nodes =~= pre.nodes.remove(win@));
            assert(self@.edges =~= pre.edges.remove(k as int));
            lemma_remove_wf(pre, self@, win@, k as int);
            assert(pre.edges[k as int].parent == parent@);
            assert(pre.edge_between(parent@, win@));
        }
        Ok(parent)
    }

    pub fn get_parent(&self, win: &WinId) -> (r: Result<WinId, WinError>)
        requires
            self@.wf(),
        ensures
            !self@.live(win@) ==> r == Err::<WinId, WinError>(WinError::NodeNotFound(*win)),
            self@.live(win@) && win@ == self@.root ==> r == Err::<WinId, WinError>(
                WinError::NoParent(*win),
            ),
            self@.live(win@) && win@ != self@.root ==> (r matches Ok(p) && self@.edge_between(
                p@,
                win@,
            )),
    {
        if win.idx >= self.nodes.len() {
            return Err(WinError::NodeNotFound(*win));
        }
        if self.nodes[win.idx].is_none() {
            return Err(WinError::NodeNotFound(*win));
        }
        if win.idx == self.root.idx {
            return Err(WinError::NoParent(*win));
        }
        proof {
            assert(self@.live(win@));
            assert(self@.has_parent(win@));
        }
        let ghost v = self@;
        let mut i: usize = 0;
        while i < self.edges.len()
            invariant
                i <= self.edges@.len(),
                v == self@,
                v.has_parent(win@),
                v.live(win@),
                win@ != v.root,
                forall|j: int| 0 <= j < i ==> (#[trigger] v.edges[j]).child != win@,
            decreases self.edges@.len() - i,
        {
            if self.edges[i].child.idx == win.idx {
                proof {
                    assert(v.edges[i as int].child == win@);
                    assert(v.edge_between(v.edges[i as int].parent, win@));
                }
                return Ok(self.edges[i].parent);
            }
            i += 1;
        }
        proof {
            let k = choose|k: int|
                0 <= k < v.edges.len() && (#[trigger] v.edges[k]).child == win@;
            assert(v.edges[k].child != win@);
            assert(false);
        }
        Err(WinError::EdgeNotFound(self.root, *win))
    }

    /// Paints one window's own content into the surface: a text window its
    /// line, a document window its block, a container nothing.  Children
    /// and separators are [`Self::render`]'s business.
    pub fn render_window(&self, window: WinId, surface: &mut Surface)
        requires
            self@.wf(),
            self@.live(window@),
            self@.cols <= old(surface)@.cols,
            self@.rows <= old(surface)@.rows,
        ensures
            final(surface)@.cols == old(surface)@.cols,
            final(surface)@.rows == old(surface)@.rows,
            final(surface)@.writes == old(surface)@.writes + paint_writes(
                self@.nodes[window@],
            ),
    {
        let ghost w0 = surface@.writes;
        let w = self.nodes[window.idx].as_ref().unwrap();
        proof {
            assert(self@.live(window@));  // triggers nodes_wf: the rectangle is on the grid
        }
        match &w.win_t {
            WinType::Text(content) => {
                crate::render::draw_c(content.clone(), w.top_l, w.bottom_r, surface);
            },
            WinType::Document(doc) => {
                crate::render::draw_d(doc, w.top_l, w.bottom_r, surface);
            },
            WinType::Empty => {
                proof {
                    assert(surface@.writes =~= w0 + paint_writes(self@.nodes[window@]));
                }
            },
        }
    }

    /// One step of [`Self::render`]: paints the `j`th edge's child — or,
    /// for a container, renders it recursively — then draws that edge's
    /// separator glyph along the stored boundary line over the child's
    /// extent.
    #[verifier::rlimit(100)]
    fn render_child(&self, j: usize, from: WinId, surface: &mut Surface)
        requires
            self@.wf(),
            j < self@.edges.len(),
            self@.edges[j as int].parent == from@,
            self@.cols <= old(surface)@.cols,
            self@.rows <= old(surface)@.rows,
        ensures
            final(surface)@.cols == old(surface)@.cols,
            final(surface)@.rows == old(surface)@.rows,
            final(surface)@.writes == old(surface)@.writes + (if self@.nodes[self@.edges[j as int].child].win_t is Empty {
                render_scan(self@, self@.edges[j as int].child, 0)
            } else {
                paint_writes(self@.nodes[self@.edges[j as int].child])
            }) + sep_writes(self@.edges[j as int], self@.nodes[self@.edges[j as int].child]),
        decreases self@.rank(from@), 0nat,
    {
        let ghost v = self@;
        let ghost wj = surface@.writes;
        proof {
            assert(v.live(v.edges[j as int].child));
        }
        let child = self.edges[j].child;
        let cw = self.nodes[child.idx].as_ref().unwrap();
        proof {
            assert(cw == v.nodes[child@]);
            assert(v.live(child@));  // triggers nodes_wf for the child's bounds
        }
        match &cw.win_t {
            WinType::Empty => {
                proof {
                    lemma_rank_decreases(v, j as int);
                }
                self.render(child, surface);
            },
            WinType::Text(content) => {
                crate::render::draw_c(content.clone(), cw.top_l, cw.bottom_r, surface);
            },
            WinType::Document(doc) => {
                crate::render::draw_d(doc, cw.top_l, cw.bottom_r, surface);
            },
        }
        let ghost wc = surface@.writes;
        proof {
            assert(wc =~= wj + if v.nodes[child@].win_t is Empty {
                render_scan(v, child@, 0)
            } else {
                paint_writes(v.nodes[child@])
            });
        }
        match self.edges[j].split {
            Split::Vertical(b) => {
                crate::render::draw_v(b, (cw.top_l.1, cw.bottom_r.1), surface);
            },
            Split::Horizontal(rr) => {
                crate::render::draw_h(rr, (cw.top_l.0, cw.bottom_r.0), surface);
            },
        }
        proof {
            assert(surface@.writes =~= wc + sep_writes(v.edges[j as int], v.nodes[child@]));
            assert(surface@.writes =~= wj + (if v.nodes[child@].win_t is Empty {
                render_scan(v, child@, 0)
            } else {
                paint_writes(v.nodes[child@])
            }) + sep_writes(v.edges[j as int], v.nodes[child@]));
        }
    }

    /// Renders the subtree under `from`: for each child of `from`, in edge
    /// order, paints its content — or, for a container, renders it
    /// recursively — and then draws its edge's separator glyph along the
    /// stored boundary line over the child's extent.  The tree is not
    /// mutated; the writes queued are exactly `render_spec`, so rendering
    /// twice with no mutation in between queues identical writes, and every
    /// write lies within the surface's declared size.
    #[verifier::rlimit(100)]
    #[verifier::spinoff_prover]
    pub fn render(&self, from: WinId, surface: &mut Surface)
        requires
            self@.wf(),
            self@.cols <= old(surface)@.cols,
            self@.rows <= old(surface)@.rows,
        ensures
            final(surface)@.cols == old(surface)@.cols,
            final(surface)@.rows == old(surface)@.rows,
            final(surface)@.writes == old(surface)@.writes + render_spec(self@, from@),
        decreases self@.rank(from@), 1nat,
    {
        let ghost v = self@;
        let ghost w0 = surface@.writes;
        let mut j: usize = 0;
        while j < self.edges.len()
            invariant
                v == self@,
                v.wf(),
                j <= self.edges@.len(),
                v.cols <= surface@.cols,
                v.rows <= surface@.rows,
                surface@.cols == old(surface)@.cols,
                surface@.rows == old(surface)@.rows,
                w0 == old(surface)@.writes,
                w0 + render_scan(v, from@, 0) == surface@.writes + render_scan(
                    v,
                    from@,
                    j as int,
                ),
            decreases self.edges@.len() - j,
        {
            let ghost wj = surface@.writes;
            let e_parent = self.edges[j].parent;
            if e_parent.idx == from.idx {
                proof {
                    assert(v.edges[j as int].parent == from@);
                }
                self.render_child(j, from, surface);
                proof {
                    crate::render::lemma_render_scan_step(v, from@, j as int);
                    assert(w0 + render_scan(v, from@, 0) =~= surface@.writes + render_scan(
                        v,
                        from@,
                        j as int + 1,
                    ));
                }
            } else {
                proof {
                    assert(v.edges[j as int].parent != from@);
                    crate::render::lemma_render_scan_skip(v, from@, j as int);
                }
            }
            j += 1;
        }
        proof {
            crate::render::lemma_render_scan_end(v, from@, self.edges@.len() as int);
            assert(surface@.writes =~= w0 + render_spec(v, from@));
        }
    }
}

/// Every non-root window of a well formed tree has exactly one parent
/// edge; the root has none, so `get_parent` on it fails with `NoParent`.
pub proof fn lemma_unique_parent_edge(v: TreeView, n: int)
    requires
        v.wf(),
        v.live(n),
        n != v.root,
    ensures
        v.has_parent(n),
        forall|i: int, j: int|
            0 <= i < v.edges.len() && 0 <= j < v.edges.len() && (#[trigger] v.edges[i]).child
                == n && (#[trigger] v.edges[j]).child == n ==> i == j,
{
    assert(v.live(n));
}

/// Every window of a well formed tree with at least one child holds
/// `Empty` content.  The renderer paints only windows whose content is not
/// `Empty`, so it never paints a window that has a child.
pub proof fn lemma_containers_empty(v: TreeView, n: int)
    requires
        v.wf(),
        v.live(n),
        v.has_child(n),
    ensures
        v.nodes[n].win_t is Empty,
{
    assert(v.live(n));
}

} // verus!
