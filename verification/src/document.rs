//! Documents: a block of text rows supplied to a window.  Reading a file is
//! the host's business; this module only turns already-read text into rows,
//! splitting it at line breaks exactly as the text layer's splitting regex
//! does.

use vstd::prelude::*;

verus! {

/// One row of a document.
#[derive(Clone)]
pub struct Row {
    pub string: String,
}

impl Row {
    pub fn from(string: &str) -> (r: Row)
        ensures
            r.string@ == string@,
    {
        Row { string: string.to_owned() }
    }
}

/// A document: its rows, the path it came from, and whether long lines wrap.
#[derive(Clone)]
pub struct Doc {
    pub rows: Vec<Row>,
    pub path: String,
    pub wrap: bool,
}

/// The index of the first `'\n'` in `s`, or `s.len()` when there is none.
pub open spec fn first_newline(s: Seq<char>) -> int
    decreases s.len(),
{
    if s.len() == 0 {
        0
    } else if s[0] == '\n' {
        0
    } else {
        1 + first_newline(s.drop_first())
    }
}

pub proof fn lemma_first_newline(s: Seq<char>)
    ensures
        0 <= first_newline(s) <= s.len(),
        first_newline(s) < s.len() ==> s[first_newline(s)] == '\n',
        forall|k: int| 0 <= k < first_newline(s) ==> s[k] != '\n',
    decreases s.len(),
{
    if s.len() != 0 && s[0] != '\n' {
        lemma_first_newline(s.drop_first());
        assert forall|k: int| 0 <= k < first_newline(s) implies s[k] != '\n' by {
            if k > 0 {
                assert(s.drop_first()[k - 1] == s[k]);
            }
        }
    }
}

/// The pieces of `s` between line separators, where a separator is a
/// leftmost-first match of `\r\n` or `\n`: at each `'\n'` the line before
/// it ends, and a `'\r'` immediately before the `'\n'` belongs to the
/// separator, not to the line.  A lone `'\r'` separates nothing.  Text with
/// no `'\n'` is a single line, so empty text is one empty line.
pub open spec fn lines_spec(s: Seq<char>) -> Seq<Seq<char>>
    decreases s.len(),
{
    let j = first_newline(s);
    if j >= s.len() {
        seq![s]
    } else {
        let end = if j > 0 && s[j - 1] == '\r' {
            j - 1
        } else {
            j
        };
        proof {
            lemma_first_newline(s);
        }
        seq![s.take(end)] + lines_spec(s.skip(j + 1))
    }
}

/// Relies on regex: `Regex::split` with the pattern `(?ms)(\r\n|\n)`
/// yields the parts of the haystack between leftmost-first matches of the
/// pattern, which is exactly `lines_spec`.  The pattern is a fixed valid
/// expression, so `Regex::new` cannot fail here.
#[verifier::external_body]
fn regex_split_lines<'a>(contents: &'a str) -> (r: Vec<&'a str>)
    ensures
        r@.map_values(|line: &str| line@) == lines_spec(contents@),
{
    let splitter = regex::Regex::new("(?ms)(\r\n|\n)").unwrap();
    splitter.split(contents).collect()
}

impl Doc {
    /// An empty document: no rows, no path, wrapping on.
    pub fn new() -> (d: Doc)
        ensures
            d.rows@ == Seq::<Row>::empty(),
            d.path@ == Seq::<char>::empty(),
            d.wrap,
    {
        Doc { rows: Vec::new(), path: String::new(), wrap: true }
    }

    /// The lines of a document, one sequence of characters per row.
    pub open spec fn lines(self) -> Seq<Seq<char>> {
        self.rows@.map_values(|r: Row| r.string@)
    }

    /// Splits text into its lines.
    pub fn split_file<'a>(contents: &'a str) -> (r: Vec<&'a str>)
        ensures
            r@.map_values(|line: &str| line@) == lines_spec(contents@),
    {
        regex_split_lines(contents)
    }

    /// Fills the document from text the host has already read: the rows
    /// become the text's lines and the path is recorded.  The wrap flag is
    /// left alone.
    pub fn load_text(&mut self, path: String, contents: &str)
        ensures
            final(self).lines() == lines_spec(contents@),
            final(self).path@ == path@,
            final(self).wrap == old(self).wrap,
    {
        let parts = Doc::split_file(contents);
        let mut rows: Vec<Row> = Vec::new();
        let mut i: usize = 0;
        while i < parts.len()
            invariant
                i <= parts.len(),
                rows@.len() == i,
                forall|j: int| 0 <= j < i ==> (#[trigger] rows@[j]).string@ == parts@[j]@,
            decreases parts.len() - i,
        {
            rows.push(Row::from(parts[i]));
            i += 1;
        }
        proof {
            assert(rows@.map_values(|r: Row| r.string@) =~= parts@.map_values(
                |line: &str| line@,
            ));
        }
        self.path = path;
        self.rows = rows;
    }
}

} // verus!
