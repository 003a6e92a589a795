//! An identity display-map stage over buffer text. The stage wraps a
//! snapshot of the buffer — its text held as lines — and passes rows,
//! lengths and text through unchanged; it exists as the place where a
//! future transformation of the displayed text would sit, carrying a
//! version counter for its snapshots.

use vstd::prelude::*;
use vstd::string::StrSliceExecFns;
use vstd::string::StringExecFns;
use crate::dupe::str_views;

verus! {

/// A snapshot of buffer text: its lines, none holding a line break.
pub struct TextBuffer {
    pub lines: Vec<String>,
}

impl TextBuffer {
    pub open spec fn wf(&self) -> bool {
        self.lines@.len() <= u32::MAX
        && (forall|i: int| 0 <= i < self.lines@.len()
            ==> (#[trigger] self.lines@[i])@.len() <= u32::MAX)
        && (forall|i: int, j: int|
            0 <= i < self.lines@.len() && 0 <= j < self.lines@[i]@.len()
                ==> (#[trigger] self.lines@[i]@[j]) != '\n')
    }
}

/// The lines joined by single line breaks.
pub open spec fn joined(lines: Seq<Seq<char>>) -> Seq<char>
    decreases lines.len(),
{
    if lines.len() == 0 {
        Seq::empty()
    } else if lines.len() == 1 {
        lines[0]
    } else {
        joined(lines.drop_last()) + seq!['\n'] + lines.last()
    }
}

/// The identity display-map stage.
pub struct EditorAdditionMap;

/// One snapshot of the stage: the buffer text it wraps, and the version of
/// the stage that produced it.
pub struct EditorAdditionSnapshot {
    pub buffer: TextBuffer,
    pub version: usize,
}

/// An offset into the stage's text, counted in characters.
pub struct EditorAdditionOffset(pub usize);

impl EditorAdditionOffset {
    /// The sum of two offsets.
    pub fn plus(self, other: EditorAdditionOffset) -> (r: EditorAdditionOffset)
        requires
            self.0 + other.0 <= usize::MAX,
        ensures
            r.0 == self.0 + other.0,
    {
        EditorAdditionOffset(self.0 + other.0)
    }
}

/// Walks the buffer rows of a snapshot, in order.
pub struct EditorAdditionBufferRows {
    pub next_row: u32,
    pub end_row: u32,
}

impl EditorAdditionBufferRows {
    /// The next buffer row; rows map through this stage unchanged.
    pub fn next(&mut self) -> (r: Option<u32>)
        ensures
            old(self).next_row < old(self).end_row ==> r == Some(old(self).next_row)
                && final(self).next_row == old(self).next_row + 1
                && final(self).end_row == old(self).end_row,
            old(self).next_row >= old(self).end_row ==> r is None
                && *final(self) == *old(self),
    {
        if self.next_row < self.end_row {
            let row = self.next_row;
            self.next_row = row + 1;
            Some(row)
        } else {
            None
        }
    }
}

/// Walks the text of a snapshot line by line.
pub struct EditorAdditionChunks {
    pub lines: Vec<String>,
    pub pos: usize,
}

impl EditorAdditionChunks {
    /// The next line of text, without its line break.
    pub fn next(&mut self) -> (r: Option<String>)
        ensures
            old(self).pos < old(self).lines@.len() ==> (match r {
                Some(s) => s@ == old(self).lines@[old(self).pos as int]@,
                None => false,
            }) && final(self).pos == old(self).pos + 1 && final(self).lines@ == old(self).lines@,
            old(self).pos >= old(self).lines@.len() ==> r is None && *final(self) == *old(self),
    {
        if self.pos < self.lines.len() {
            let s = self.lines[self.pos].clone();
            self.pos = self.pos + 1;
            Some(s)
        } else {
            None
        }
    }
}

impl EditorAdditionMap {
    /// Wraps a buffer snapshot into the stage and its first snapshot.
    pub fn new(buffer: TextBuffer) -> (r: (EditorAdditionMap, EditorAdditionSnapshot))
        ensures
            r.1.buffer == buffer,
            r.1.version == 0,
    {
        (EditorAdditionMap, EditorAdditionSnapshot { buffer, version: 0 })
    }
}

impl EditorAdditionSnapshot {
    /// The buffer snapshot under this stage.
    pub fn buffer_snapshot(&self) -> (r: &TextBuffer)
        ensures
            r == &self.buffer,
    {
        &self.buffer
    }

    /// Walks the buffer rows from `start_row` on; the stage adds none.
    pub fn buffer_rows(&self, start_row: u32) -> (r: EditorAdditionBufferRows)
        requires
            self.buffer.wf(),
        ensures
            r.next_row == start_row,
            r.end_row == self.buffer.lines@.len(),
    {
        EditorAdditionBufferRows { next_row: start_row, end_row: self.buffer.lines.len() as u32 }
    }

    /// The length of one row, in characters; the stage changes none.
    pub fn line_len(&self, row: u32) -> (r: u32)
        requires
            self.buffer.wf(),
            row < self.buffer.lines@.len(),
        ensures
            r == self.buffer.lines@[row as int]@.len(),
    {
        self.buffer.lines[row as usize].as_str().unicode_len() as u32
    }

    /// Walks the text from `start_row` on, one line per chunk.
    pub fn chunks(&self, start_row: u32) -> (r: EditorAdditionChunks)
        requires
            self.buffer.wf(),
            start_row <= self.buffer.lines@.len(),
        ensures
            r.pos == 0,
            str_views(r.lines@) == str_views(self.buffer.lines@).skip(start_row as int),
    {
        let n = self.buffer.lines.len();
        let mut lines: Vec<String> = Vec::new();
        let mut i: usize = start_row as usize;
        while i < n
            invariant
                start_row <= i <= n,
                n == self.buffer.lines@.len(),
                str_views(lines@) == str_views(self.buffer.lines@).subrange(
                    start_row as int,
                    i as int,
                ),
            decreases n - i,
        {
            let ghost pre = lines@;
            lines.push(self.buffer.lines[i].clone());
            proof {
                assert(str_views(lines@) =~= str_views(pre).push(
                    str_views(self.buffer.lines@)[i as int],
                ));
                assert(str_views(pre).push(str_views(self.buffer.lines@)[i as int])
                    =~= str_views(self.buffer.lines@).subrange(start_row as int, i as int + 1));
            }
            i += 1;
        }
        proof {
            assert(str_views(self.buffer.lines@).subrange(start_row as int, n as int)
                =~= str_views(self.buffer.lines@).skip(start_row as int));
        }
        EditorAdditionChunks { lines, pos: 0 }
    }

    /// The whole text of the snapshot, rows joined by line breaks; the
    /// stage passes it through unchanged.
    pub fn text(&self) -> (r: String)
        requires
            self.buffer.wf(),
        ensures
            r@ == joined(str_views(self.buffer.lines@)),
    {
        let ghost lv = str_views(self.buffer.lines@);
        let n = self.buffer.lines.len();
        let mut out = String::new();
        let mut i: usize = 0;
        proof {
            assert(lv.take(0) =~= Seq::<Seq<char>>::empty());
        }
        while i < n
            invariant
                i <= n,
                n == self.buffer.lines@.len(),
                lv == str_views(self.buffer.lines@),
                out@ == joined(lv.take(i as int)),
            decreases n - i,
        {
            let ghost pre = out@;
            if i > 0 {
                proof {
                    reveal_strlit("\n");
                }
                out.append("\n");
            }
            out.append(self.buffer.lines[i].as_str());
            proof {
                let t1 = lv.take(i as int + 1);
                assert(t1.drop_last() =~= lv.take(i as int));
                assert(t1.last() == lv[i as int]);
                if i == 0 {
                    assert(out@ =~= lv[0]);
                    assert(t1.len() == 1 && t1[0] == lv[0]);
                } else {
                    assert(out@ =~= (pre + seq!['\n']) + lv[i as int]);
                    assert(joined(t1) == joined(lv.take(i as int)) + seq!['\n'] + lv[i as int]);
                    assert(out@ =~= joined(t1));
                }
            }
            i += 1;
        }
        proof {
            assert(lv.take(n as int) =~= lv);
        }
        out
    }
}

} // verus!
