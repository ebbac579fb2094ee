//! The surface the renderer paints into: a declared grid size and the queued
//! cell writes, in order.  The layout core guarantees every queued write lies
//! within the declared size; an outside terminal backend flushes the queue.

use vstd::prelude::*;

verus! {

/// One grid write as the specification sees it.
pub struct WriteV {
    pub col: int,
    pub row: int,
    pub glyph: Seq<char>,
    pub inverted: bool,
}

/// One queued cell write: a glyph (a single grapheme cluster, or a whole
/// line for plain text windows) at a grid position; separator glyphs are
/// painted inverted.
#[derive(Clone, Debug, PartialEq, Eq)]
pub struct Write {
    pub col: u16,
    pub row: u16,
    pub glyph: String,
    pub inverted: bool,
}

impl View for Write {
    type V = WriteV;

    open spec fn view(&self) -> WriteV {
        WriteV {
            col: self.col as int,
            row: self.row as int,
            glyph: self.glyph@,
            inverted: self.inverted,
        }
    }
}

/// The model of a surface: its declared size and the queued writes.
pub struct SurfaceV {
    pub cols: int,
    pub rows: int,
    pub writes: Seq<WriteV>,
}

/// A write-recording render target of a declared size.
pub struct Surface {
    cols: u16,
    rows: u16,
    writes: Vec<Write>,
}

impl View for Surface {
    type V = SurfaceV;

    closed spec fn view(&self) -> SurfaceV {
        SurfaceV {
            cols: self.cols as int,
            rows: self.rows as int,
            writes: self.writes@.map_values(|w: Write| w@),
        }
    }
}

impl Surface {
    /// An empty surface of the given size.
    pub fn new(cols: u16, rows: u16) -> (s: Surface)
        ensures
            s@.cols == cols as int,
            s@.rows == rows as int,
            s@.writes == Seq::<WriteV>::empty(),
    {
        let s = Surface { cols, rows, writes: Vec::new() };
        proof {
            assert(s@.writes =~= Seq::<WriteV>::empty());
        }
        s
    }

    pub fn cols(&self) -> (c: u16)
        ensures
            c as int == self@.cols,
    {
        self.cols
    }

    pub fn rows(&self) -> (r: u16)
        ensures
            r as int == self@.rows,
    {
        self.rows
    }

    /// Queues one write.  Writes outside the declared size are not allowed:
    /// the renderer guarantees it never issues one.
    pub fn write_at(&mut self, col: u16, row: u16, glyph: String, inverted: bool)
        requires
            (col as int) < old(self)@.cols,
            (row as int) < old(self)@.rows,
        ensures
            final(self)@.cols == old(self)@.cols,
            final(self)@.rows == old(self)@.rows,
            final(self)@.writes == old(self)@.writes.push(
                WriteV { col: col as int, row: row as int, glyph: glyph@, inverted },
            ),
    {
        let ghost expected = self@.writes.push(
            WriteV { col: col as int, row: row as int, glyph: glyph@, inverted },
        );
        self.writes.push(Write { col, row, glyph, inverted });
        proof {
            assert(self@.writes =~= expected);
        }
    }

    /// The queued writes, in order, for a backend to flush.
    pub fn writes(&self) -> (w: &Vec<Write>)
        ensures
            w@.map_values(|x: Write| x@) == self@.writes,
    {
        &self.writes
    }
}

} // verus!
