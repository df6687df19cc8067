//! Per-document state and incremental edits.
//!
//! A document holds its kind, its source text and the last good syntax
//! tree.  `apply_change` turns one protocol edit into the matching text
//! splice and reports the parser edit record whose extents equal that
//! splice exactly — the contract the incremental reparse relies on.

use vstd::prelude::*;
use vstd::string::*;

use crate::parser::{spec_row_offset, sum_lens};
use crate::text::{spec_split, split_on, substring_owned};
use crate::tree::SyntaxTree;
use crate::types::Range;

verus! {

/// What a document holds: BR source or a record layout.
#[derive(Clone, Copy, PartialEq, Eq, Structural, Debug)]
pub enum DocumentKind {
    Br,
    Layout,
}

/// One open document.
pub struct DocumentState {
    pub kind: DocumentKind,
    /// The full text, kept current through every change.
    pub source: String,
    /// The last successfully built syntax tree, if any.
    pub tree: Option<SyntaxTree>,
}

/// The edit record handed to the incremental parser: the byte extents and
/// row/column points of one splice.
#[derive(Clone, Copy, PartialEq, Eq, Structural, Debug)]
pub struct InputEdit {
    pub start_byte: usize,
    pub old_end_byte: usize,
    pub new_end_byte: usize,
    pub start_row: usize,
    pub start_col: usize,
    pub old_end_row: usize,
    pub old_end_col: usize,
    pub new_end_row: usize,
    pub new_end_col: usize,
}

/// Character offset of a `(row, col)` position in a text: the protocol's
/// lines are the `\n`-separated segments, carriage returns included, so a
/// CRLF document counts its `\r` characters like any others.
pub open spec fn spec_position_offset(src: Seq<char>, row: int, col: int) -> int {
    spec_row_offset(spec_split(src, '\n'), row) + col
}

/// Number of newline characters in a text.
pub open spec fn spec_newline_count(s: Seq<char>) -> int
    decreases s.len(),
{
    if s.len() == 0 {
        0
    } else {
        (if s.last() == '\n' {
            1int
        } else {
            0int
        }) + spec_newline_count(s.drop_last())
    }
}

/// Characters after the last newline of a text (the whole text when it
/// has none).
pub open spec fn spec_tail_after_newline(s: Seq<char>) -> int
    decreases s.len(),
{
    if s.len() == 0 {
        0
    } else if s.last() == '\n' {
        0
    } else {
        1 + spec_tail_after_newline(s.drop_last())
    }
}

pub proof fn lemma_newline_count_nonneg(s: Seq<char>)
    ensures
        spec_newline_count(s) >= 0,
        spec_tail_after_newline(s) >= 0,
    decreases s.len(),
{
    if s.len() > 0 {
        lemma_newline_count_nonneg(s.drop_last());
    }
}

/// The row and column where inserted text ends, starting from
/// `(start_row, start_col)`.
pub open spec fn spec_new_end_row(start_row: int, inserted: Seq<char>) -> int {
    start_row + spec_newline_count(inserted)
}

pub open spec fn spec_new_end_col(start_col: int, inserted: Seq<char>) -> int {
    if spec_newline_count(inserted) == 0 {
        start_col + inserted.len()
    } else {
        spec_tail_after_newline(inserted)
    }
}

/// Apply one protocol edit to the text: replace the range with `new_text`
/// and report the splice as an edit record.  The caller owes a range whose
/// offsets lie within the text, in order.
pub fn apply_change(source: &mut String, range: &Range, new_text: &str) -> (r: InputEdit)
    requires
        ({
            let a = spec_position_offset(
                old(source)@,
                range.start.line as int,
                range.start.character as int,
            );
            let b = spec_position_offset(
                old(source)@,
                range.end.line as int,
                range.end.character as int,
            );
            0 <= a <= b <= old(source)@.len() && old(source)@.len() + new_text@.len()
                < usize::MAX && new_text@.len() + range.start.line < usize::MAX
                && new_text@.len() + range.start.character < usize::MAX
        }),
    ensures
        ({
            let a = spec_position_offset(
                old(source)@,
                range.start.line as int,
                range.start.character as int,
            );
            let b = spec_position_offset(
                old(source)@,
                range.end.line as int,
                range.end.character as int,
            );
            &&& final(source)@ == old(source)@.subrange(0, a) + new_text@ + old(
                source,
            )@.subrange(b, old(source)@.len() as int)
            &&& r.start_byte == a
            &&& r.old_end_byte == b
            &&& r.new_end_byte == a + new_text@.len()
            &&& r.start_row == range.start.line
            &&& r.start_col == range.start.character
            &&& r.old_end_row == range.end.line
            &&& r.old_end_col == range.end.character
            &&& r.new_end_row == spec_new_end_row(range.start.line as int, new_text@)
            &&& r.new_end_col == spec_new_end_col(range.start.character as int, new_text@)
        }),
{
    let a = position_offset(source.as_str(), range.start.line as usize, range.start.character as usize);
    let b = position_offset(source.as_str(), range.end.line as usize, range.end.character as usize);
    let n = source.as_str().unicode_len();
    let tlen = new_text.unicode_len();
    // Splice the text.
    let head = substring_owned(source.as_str(), 0, a);
    let tail = substring_owned(source.as_str(), b, n);
    let mut spliced = head;
    spliced.append(new_text);
    spliced.append(tail.as_str());
    let ghost old_view = source@;
    *source = spliced;
    proof {
        assert(source@ =~= old_view.subrange(0, a as int) + new_text@ + old_view.subrange(
            b as int,
            old_view.len() as int,
        ));
    }
    // Scan the inserted text for its end position.
    let mut row: usize = range.start.line as usize;
    let mut col: usize = range.start.character as usize;
    let mut i: usize = 0;
    while i < tlen
        invariant
            tlen == new_text@.len(),
            tlen + range.start.line < usize::MAX,
            tlen + range.start.character < usize::MAX,
            i <= tlen,
            row == spec_new_end_row(range.start.line as int, new_text@.subrange(0, i as int)),
            col == spec_new_end_col(
                range.start.character as int,
                new_text@.subrange(0, i as int),
            ),
            row <= range.start.line + i,
            col <= range.start.character + i,
        decreases tlen - i,
    {
        let c = new_text.get_char(i);
        proof {
            let pre = new_text@.subrange(0, i as int);
            let cur = new_text@.subrange(0, i + 1);
            assert(cur.drop_last() =~= pre);
            assert(cur.last() == new_text@[i as int]);
            assert(spec_newline_count(cur) == (if new_text@[i as int] == '\n' {
                1int
            } else {
                0int
            }) + spec_newline_count(pre));
            assert(spec_tail_after_newline(cur) == (if new_text@[i as int] == '\n' {
                0int
            } else {
                1 + spec_tail_after_newline(pre)
            }));
            assert(cur.len() == pre.len() + 1);
            lemma_newline_count_nonneg(pre);
            lemma_newline_count_nonneg(cur);
        }
        if c == '\n' {
            row += 1;
            col = 0;
        } else {
            col += 1;
        }
        i += 1;
    }
    proof {
        assert(new_text@.subrange(0, tlen as int) =~= new_text@);
    }
    InputEdit {
        start_byte: a,
        old_end_byte: b,
        new_end_byte: a + tlen,
        start_row: range.start.line as usize,
        start_col: range.start.character as usize,
        old_end_row: range.end.line as usize,
        old_end_col: range.end.character as usize,
        new_end_row: row,
        new_end_col: col,
    }
}

/// The character offset of `(row, col)`, clamping nothing: the caller owes
/// a position whose offset lies within the text.
pub fn position_offset(source: &str, row: usize, col: usize) -> (r: usize)
    requires
        source@.len() < usize::MAX,
        0 <= spec_position_offset(source@, row as int, col as int) <= source@.len(),
    ensures
        r as int == spec_position_offset(source@, row as int, col as int),
{
    let parts = split_on(source, '\n');
    let ghost sparts = spec_split(source@, '\n');
    let mut off: usize = 0;
    let mut k: usize = 0;
    let rows = if row < parts.len() {
        row
    } else {
        parts.len()
    };
    proof {
        assert(sparts.skip(0) =~= sparts);
        crate::parser::lemma_split_sum_pub(source@, '\n');
        crate::parser::lemma_sum_lens_mono(sparts, 0, sparts.len() as int);
    }
    while k < rows
        invariant
            source@.len() < usize::MAX,
            sparts == spec_split(source@, '\n'),
            crate::text::strs_view(parts@) == sparts,
            rows <= parts@.len(),
            parts@.len() == sparts.len(),
            rows <= row,
            k <= rows,
            off + spec_row_offset(sparts.skip(k as int), row - k) == spec_row_offset(
                sparts,
                row as int,
            ),
            off == sum_lens(sparts, k as int) + k,
            off <= source@.len() + 1,
        decreases rows - k,
    {
        let ll = parts[k].as_str().unicode_len();
        proof {
            assert(sparts.skip(k as int)[0] == sparts[k as int]);
            assert(sparts[k as int] == parts@[k as int]@);
            assert(sparts.skip(k as int).drop_first() =~= sparts.skip(k + 1));
            assert(sparts.skip(k as int).len() > 0);
            crate::parser::lemma_sum_lens_snoc(sparts, k as int);
            crate::parser::lemma_split_sum_pub(source@, '\n');
            crate::parser::lemma_sum_lens_mono(sparts, k + 1, sparts.len() as int);
        }
        off = off + ll + 1;
        k += 1;
    }
    proof {
        if rows < row {
            assert(sparts.skip(rows as int).len() == 0);
        }
        assert(spec_row_offset(sparts.skip(rows as int), row - rows) == 0);
        assert(off == spec_row_offset(sparts, row as int));
    }
    off + col
}

impl DocumentState {
    /// A freshly opened document.
    pub fn open(kind: DocumentKind, text: String) -> (r: DocumentState)
        ensures
            r.kind == kind,
            r.source@ == text@,
            r.tree is None,
    {
        DocumentState { kind, source: text, tree: None }
    }

    /// Replace the whole text and drop the tree, as a full-content change
    /// does.
    pub fn replace_all(&mut self, text: String)
        ensures
            final(self).kind == old(self).kind,
            final(self).source@ == text@,
            final(self).tree is None,
    {
        self.source = text;
        self.tree = None;
    }
}

} // verus!
