//! Per-file translation between byte offsets and lines, with a per-line
//! pure-ASCII flag so consumers can skip column-conversion work on plain
//! lines.
//!
//! Offsets here are byte offsets of the raw text, while the syntax tree
//! counts characters; the per-line flag tells a consumer where the two
//! agree.

use vstd::prelude::*;

verus! {

/// The byte offsets where lines start in `t`, considering its first `i`
/// bytes: offset 0, then one offset just past each line feed.
pub open spec fn line_starts(t: Seq<u8>, i: int) -> Seq<int>
    decreases i,
{
    if i <= 0 {
        seq![0]
    } else if t[i - 1] == 10 {
        line_starts(t, i - 1).push(i)
    } else {
        line_starts(t, i - 1)
    }
}

/// Whether the bytes of `t` in `[lo, hi)` are all ASCII.
pub open spec fn ascii_between(t: Seq<u8>, lo: int, hi: int) -> bool {
    forall|j: int| lo <= j < hi ==> t[j] < 128
}

/// Where line `k` of `t` ends, given the line starts.
pub open spec fn line_end(t: Seq<u8>, starts: Seq<int>, k: int) -> int {
    if k + 1 < starts.len() {
        starts[k + 1]
    } else {
        t.len() as int
    }
}

/// Per-file line table: the byte offset of each line start, and one flag
/// per line, true iff that line holds no multi-byte character.
pub struct LineIndex {
    pub line_offsets: Vec<u32>,
    pub line_only_ascii_vec: Vec<bool>,
}

impl LineIndex {
    /// One offset per line, the first 0, strictly increasing, one flag per
    /// line.
    pub open spec fn wf(self) -> bool {
        &&& self.line_offsets@.len() >= 1
        &&& self.line_offsets@[0] == 0
        &&& forall|j: int|
            0 <= j && j + 1 < self.line_offsets@.len() ==> self.line_offsets@[j]
                < #[trigger] self.line_offsets@[j + 1]
        &&& self.line_only_ascii_vec@.len() == self.line_offsets@.len()
    }

    /// The recorded line starts, as mathematical integers.
    pub open spec fn starts(self) -> Seq<int> {
        self.line_offsets@.map_values(|o: u32| o as int)
    }

    /// Builds the index of `text` by one forward scan.
    pub fn parse(text: &[u8]) -> (r: LineIndex)
        requires
            text@.len() <= u32::MAX,
        ensures
            r.wf(),
            r.starts() == line_starts(text@, text@.len() as int),
            forall|k: int|
                0 <= k < r.line_only_ascii_vec@.len() ==> #[trigger] r.line_only_ascii_vec@[k]
                    == ascii_between(text@, r.starts()[k], line_end(text@, r.starts(), k)),
    {
        let mut line_offsets: Vec<u32> = Vec::new();
        let mut line_only_ascii_vec: Vec<bool> = Vec::new();
        line_offsets.push(0);
        let mut is_line_only_ascii: bool = true;
        let mut i: usize = 0;
        proof {
            assert(line_offsets@.map_values(|o: u32| o as int) =~= line_starts(text@, 0));
        }
        while i < text.len()
            invariant
                i <= text.len(),
                text@.len() <= u32::MAX,
                line_offsets@.len() >= 1,
                line_offsets@[0] == 0,
                forall|j: int|
                    0 <= j && j + 1 < line_offsets@.len() ==> line_offsets@[j]
                        < #[trigger] line_offsets@[j + 1],
                line_offsets@.last() <= i,
                line_offsets@.map_values(|o: u32| o as int) == line_starts(text@, i as int),
                line_only_ascii_vec@.len() + 1 == line_offsets@.len(),
                forall|k: int|
                    0 <= k < line_only_ascii_vec@.len() ==> #[trigger] line_only_ascii_vec@[k]
                        == ascii_between(
                        text@,
                        line_offsets@[k] as int,
                        line_offsets@[k + 1] as int,
                    ),
                is_line_only_ascii == ascii_between(
                    text@,
                    line_offsets@.last() as int,
                    i as int,
                ),
            decreases text.len() - i,
        {
            let b = text[i];
            let ghost pre_offs = line_offsets@;
            let ghost pre_flags = line_only_ascii_vec@;
            if b == 10 {
                proof {
                    assert(ascii_between(
                        text@,
                        line_offsets@.last() as int,
                        i as int,
                    ) ==> ascii_between(text@, line_offsets@.last() as int, i as int + 1)) by {
                        assert(text@[i as int] < 128);
                    }
                    assert(!ascii_between(text@, line_offsets@.last() as int, i as int)
                        ==> !ascii_between(
                        text@,
                        line_offsets@.last() as int,
                        i as int + 1,
                    ));
                }
                line_offsets.push((i + 1) as u32);
                line_only_ascii_vec.push(is_line_only_ascii);
                is_line_only_ascii = true;
                proof {
                    assert(line_offsets@.map_values(|o: u32| o as int) =~= pre_offs.map_values(
                        |o: u32| o as int,
                    ).push(i as int + 1));
                    assert(line_starts(text@, i as int + 1) == line_starts(
                        text@,
                        i as int,
                    ).push(i as int + 1));
                }
            } else if b >= 128 {
                is_line_only_ascii = false;
                proof {
                    assert(!ascii_between(
                        text@,
                        line_offsets@.last() as int,
                        i as int + 1,
                    )) by {
                        assert(!(text@[i as int] < 128));
                    }
                }
            } else {
                proof {
                    assert(ascii_between(
                        text@,
                        line_offsets@.last() as int,
                        i as int,
                    ) ==> ascii_between(text@, line_offsets@.last() as int, i as int + 1)) by {
                        assert(text@[i as int] < 128);
                    }
                    assert(!ascii_between(text@, line_offsets@.last() as int, i as int)
                        ==> !ascii_between(
                        text@,
                        line_offsets@.last() as int,
                        i as int + 1,
                    ));
                }
            }
            i = i + 1;
        }
        line_only_ascii_vec.push(is_line_only_ascii);
        LineIndex { line_offsets, line_only_ascii_vec }
    }

    /// The byte offset where the given line starts.
    pub fn get_line_offset(&self, line: usize) -> (r: Option<u32>)
        ensures
            r == (if line < self.line_offsets@.len() {
                Some(self.line_offsets@[line as int])
            } else {
                None::<u32>
            }),
    {
        if line < self.line_offsets.len() {
            Some(self.line_offsets[line])
        } else {
            None
        }
    }

    /// The line holding the given byte offset: the last line starting at or
    /// before it.
    pub fn get_line(&self, offset: u32) -> (r: Option<usize>)
        requires
            self.wf(),
        ensures
            r matches Some(line) && line < self.line_offsets@.len(),
            r matches Some(line) ==> self.line_offsets@[line as int] <= offset,
            r matches Some(line) ==> (line + 1 < self.line_offsets@.len() ==> offset
                < self.line_offsets@[line as int + 1]),
    {
        let mut lo: usize = 0;
        let mut hi: usize = self.line_offsets.len();
        while hi - lo > 1
            invariant
                self.wf(),
                lo < hi <= self.line_offsets@.len(),
                self.line_offsets@[lo as int] <= offset,
                hi < self.line_offsets@.len() ==> offset < self.line_offsets@[hi as int],
            decreases hi - lo,
        {
            let mid = lo + (hi - lo) / 2;
            if self.line_offsets[mid] <= offset {
                lo = mid;
            } else {
                hi = mid;
            }
        }
        Some(lo)
    }

    /// The line holding the given byte offset, together with that line's
    /// start offset.
    pub fn get_line_with_start_offset(&self, offset: u32) -> (r: Option<(usize, u32)>)
        requires
            self.wf(),
        ensures
            r matches Some(p) && p.0 < self.line_offsets@.len(),
            r matches Some(p) ==> self.line_offsets@[p.0 as int] <= offset && p.1
                == self.line_offsets@[p.0 as int],
            r matches Some(p) ==> (p.0 + 1 < self.line_offsets@.len() ==> offset
                < self.line_offsets@[p.0 as int + 1]),
    {
        match self.get_line(offset) {
            Some(line) => Some((line, self.line_offsets[line])),
            None => None,
        }
    }

    /// Whether the given line holds only ASCII; false for a line out of
    /// range.
    pub fn is_line_only_ascii(&self, line: u32) -> (r: bool)
        ensures
            r == ((line as int) < self.line_only_ascii_vec@.len()
                && self.line_only_ascii_vec@[line as int]),
    {
        let line_index = line as usize;
        if line_index < self.line_only_ascii_vec.len() {
            self.line_only_ascii_vec[line_index]
        } else {
            false
        }
    }

    /// How many lines the index records.
    pub fn line_count(&self) -> (r: usize)
        ensures
            r == self.line_offsets@.len(),
    {
        self.line_offsets.len()
    }
}

} // verus!
