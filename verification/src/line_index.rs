//! Maps byte offsets of a text to zero-based lines and columns.

use vstd::prelude::*;
use vstd::string::StringSliceAdditionalSpecFns;

verus! {

/// A zero-based line and a zero-based column counted in UTF-8 bytes.
#[derive(Clone, Copy)]
pub struct LineCol {
    pub line: u32,
    pub col: u32,
}

/// The offsets at which lines begin, but the first: each just after a
/// newline, in increasing order.
pub open spec fn line_starts(text: Seq<u8>) -> Seq<int>
    decreases text.len(),
{
    if text.len() == 0 {
        Seq::empty()
    } else if text.last() == 10 {
        line_starts(text.drop_last()).push(text.len() as int)
    } else {
        line_starts(text.drop_last())
    }
}

/// Whether a byte continues a multi-byte UTF-8 character.
pub open spec fn is_continuation(b: u8) -> bool {
    0x80 <= b < 0xC0
}

/// An offset that a line and column describe: within the text, and not in
/// the middle of a character.
pub open spec fn valid_offset_in(text: Seq<u8>, offset: int) -> bool {
    &&& 0 <= offset <= text.len()
    &&& (offset < text.len() ==> !is_continuation(text[offset]))
}

/// `line` is the number of lines of `text` that begin at or before `offset`,
/// the first not counted, and `col` is how far `offset` is from the beginning
/// of that line.
pub open spec fn is_line_col_in(text: Seq<u8>, offset: int, line: int, col: int) -> bool {
    let starts = line_starts(text);
    &&& 0 <= line <= starts.len()
    &&& forall|j: int| 0 <= j < line ==> #[trigger] starts[j] <= offset
    &&& forall|j: int| line <= j < starts.len() ==> #[trigger] starts[j] > offset
    &&& col == offset - if line == 0 { 0 } else { starts[line - 1] }
}

/// The number of newline bytes (byte 10) in the text.
pub open spec fn newline_count(text: Seq<u8>) -> nat
    decreases text.len(),
{
    if text.len() == 0 {
        0
    } else if text.last() == 10 {
        newline_count(text.drop_last()) + 1
    } else {
        newline_count(text.drop_last())
    }
}

/// Where the last line of the text begins: just after its last newline byte,
/// or at 0 where it has none.
pub open spec fn last_line_start(text: Seq<u8>) -> int
    decreases text.len(),
{
    if text.len() == 0 {
        0
    } else if text.last() == 10 {
        text.len() as int
    } else {
        last_line_start(text.drop_last())
    }
}

proof fn lemma_line_starts_count(text: Seq<u8>)
    ensures
        line_starts(text).len() == newline_count(text),
        line_starts(text).len() == 0 ==> last_line_start(text) == 0,
        line_starts(text).len() > 0 ==> line_starts(text).last() == last_line_start(text),
    decreases text.len(),
{
    if text.len() > 0 {
        lemma_line_starts_count(text.drop_last());
    }
}

proof fn lemma_line_starts_prefix(text: Seq<u8>, o: int)
    requires
        0 <= o <= text.len(),
    ensures
        line_starts(text.take(o)).len() <= line_starts(text).len(),
        forall|j: int| 0 <= j < line_starts(text.take(o)).len()
            ==> #[trigger] line_starts(text)[j] == line_starts(text.take(o))[j] && line_starts(text)[j] <= o,
        forall|j: int| line_starts(text.take(o)).len() <= j < line_starts(text).len()
            ==> #[trigger] line_starts(text)[j] > o,
    decreases text.len(),
{
    LineIndex::lemma_line_starts(text);
    if o == text.len() {
        assert(text.take(o) == text);
    } else {
        let rest = text.drop_last();
        assert(text.take(o) == rest.take(o));
        lemma_line_starts_prefix(rest, o);
        LineIndex::lemma_line_starts(rest);
        let p = line_starts(rest);
        if text.last() == 10 {
            assert(line_starts(text) == p.push(text.len() as int));
        } else {
            assert(line_starts(text) == p);
        }
    }
}

/// Lines are broken at newline bytes (byte 10) alone: the line of an offset is
/// the number of newline bytes before it, and its column is how far it is from
/// the last of them, or from the start of the text where there is none.
pub proof fn lemma_line_col_counts_newlines(text: Seq<u8>, offset: int, line: int, col: int)
    requires
        0 <= offset <= text.len(),
        is_line_col_in(text, offset, line, col),
    ensures
        line == newline_count(text.take(offset)),
        col == offset - last_line_start(text.take(offset)),
{
    let starts = line_starts(text);
    let prefix = line_starts(text.take(offset));
    lemma_line_starts_prefix(text, offset);
    lemma_line_starts_count(text.take(offset));
    let m = prefix.len() as int;
    if line < m {
        assert(starts[line] <= offset);
    }
    if line > m {
        assert(starts[m] > offset);
    }
    assert(line == m);
    if line > 0 {
        assert(starts[line - 1] == prefix[line - 1]);
    }
}

/// An offset has one line and column, and a later offset is on the same line
/// or a later one.
pub proof fn lemma_line_col_unique_and_monotonic(
    text: Seq<u8>,
    a: int,
    line_a: int,
    col_a: int,
    b: int,
    line_b: int,
    col_b: int,
)
    requires
        is_line_col_in(text, a, line_a, col_a),
        is_line_col_in(text, b, line_b, col_b),
    ensures
        a == b ==> line_a == line_b && col_a == col_b,
        a <= b ==> line_a <= line_b,
{
    let starts = line_starts(text);
    if a <= b && line_a > line_b {
        assert(starts[line_b] <= a);
        assert(starts[line_b] > b);
    }
    if a == b && line_b > line_a {
        assert(starts[line_a] <= b);
        assert(starts[line_a] > a);
    }
}

/// The offsets at which lines begin, but the first, and the text's length.
pub struct LineIndex {
    newlines: Vec<u32>,
    len: u32,
    text: Ghost<Seq<u8>>,
}

impl LineIndex {
    /// The bytes of the indexed text.
    pub closed spec fn text(&self) -> Seq<u8> {
        self.text@
    }

    /// An offset of the indexed text that a line and column describe.
    pub open spec fn valid_offset(&self, offset: int) -> bool {
        valid_offset_in(self.text(), offset)
    }

    /// `line` and `col` are the line and column of `offset` in the indexed text.
    pub open spec fn is_line_col(&self, offset: int, line: int, col: int) -> bool {
        is_line_col_in(self.text(), offset, line, col)
    }

    proof fn lemma_line_starts(text: Seq<u8>)
        ensures
            forall|i: int, j: int| 0 <= i < j < line_starts(text).len()
                ==> #[trigger] line_starts(text)[i] < #[trigger] line_starts(text)[j],
            forall|i: int| 0 <= i < line_starts(text).len()
                ==> 1 <= #[trigger] line_starts(text)[i] <= text.len(),
            line_starts(text).len() <= text.len(),
        decreases text.len(),
    {
        if text.len() > 0 {
            let rest = text.drop_last();
            Self::lemma_line_starts(rest);
            let p = line_starts(rest);
            if text.last() == 10 {
                let q = p.push(text.len() as int);
                assert(line_starts(text) == q);
                assert forall|i: int, j: int| 0 <= i < j < q.len() implies #[trigger] q[i] < #[trigger] q[j] by {
                    if j == q.len() - 1 {
                        assert(q[i] == p[i]);
                    } else {
                        assert(q[i] == p[i] && q[j] == p[j]);
                    }
                }
                assert forall|i: int| 0 <= i < q.len() implies 1 <= #[trigger] q[i] <= text.len() by {
                    if i < p.len() {
                        assert(q[i] == p[i]);
                    }
                }
            }
        }
    }

    /// Indexes the lines of a text.
    pub fn new(text: &str) -> (res: LineIndex)
        requires
            text.spec_bytes().len() <= u32::MAX,
        ensures
            res.text() == text.spec_bytes(),
            res.wf(),
    {
        let bytes = text.as_bytes();
        let ghost t = text.spec_bytes();
        let mut newlines: Vec<u32> = Vec::new();
        let mut i: usize = 0;
        while i < bytes.len()
            invariant
                bytes@ == t,
                t.len() <= u32::MAX,
                i <= t.len(),
                newlines@.map_values(|p: u32| p as int) == line_starts(t.take(i as int)),
            decreases t.len() - i,
        {
            proof {
                assert(t.take(i + 1).drop_last() == t.take(i as int));
                assert(t.take(i + 1).last() == t[i as int]);
            }
            if bytes[i] == 10 {
                newlines.push((i + 1) as u32);
            }
            proof {
                assert(newlines@.map_values(|p: u32| p as int) =~= line_starts(t.take(i + 1)));
            }
            i = i + 1;
        }
        proof {
            assert(t.take(t.len() as int) == t);
        }
        LineIndex { newlines, len: bytes.len() as u32, text: Ghost(t) }
    }

    /// Well formed: the stored line beginnings and length are those of the text.
    pub closed spec fn wf(&self) -> bool {
        &&& self.newlines@.map_values(|p: u32| p as int) == line_starts(self.text@)
        &&& self.len == self.text@.len()
    }
}

impl LineIndex {
    /// The line and column of an offset.
    pub fn line_col(&self, offset: u32) -> (res: LineCol)
        requires
            self.wf(),
            self.valid_offset(offset as int),
        ensures
            self.is_line_col(offset as int, res.line as int, res.col as int),
    {
        let ghost starts = line_starts(self.text());
        proof {
            Self::lemma_line_starts(self.text());
            assert(forall|k: int| 0 <= k < self.newlines@.len() ==> #[trigger] self.newlines@[k] as int == starts[k]) by {
                assert forall|k: int| 0 <= k < self.newlines@.len() implies #[trigger] self.newlines@[k] as int == starts[k] by {
                    assert(self.newlines@.map_values(|p: u32| p as int)[k] == starts[k]);
                }
            }
            assert(starts.len() <= self.text().len());
            assert(self.newlines@.len() == starts.len()) by {
                assert(self.newlines@.map_values(|p: u32| p as int).len() == starts.len());
            }
        }
        // Binary search for the number of line beginnings at or before `offset`.
        let mut lo: usize = 0;
        let mut hi: usize = self.newlines.len();
        while lo < hi
            invariant
                lo <= hi <= self.newlines@.len(),
                self.newlines@.len() == starts.len(),
                starts.len() <= u32::MAX,
                forall|k: int| 0 <= k < self.newlines@.len() ==> #[trigger] self.newlines@[k] as int == starts[k],
                forall|i: int, j: int| 0 <= i < j < starts.len() ==> #[trigger] starts[i] < #[trigger] starts[j],
                forall|j: int| 0 <= j < lo ==> #[trigger] starts[j] <= offset,
                forall|j: int| hi <= j < starts.len() ==> #[trigger] starts[j] > offset,
            decreases hi - lo,
        {
            let mid = lo + (hi - lo) / 2;
            if self.newlines[mid] <= offset {
                proof {
                    assert forall|j: int| 0 <= j < mid + 1 implies #[trigger] starts[j] <= offset by {
                        if j < mid {
                            assert(starts[j] < starts[mid as int]);
                        }
                    }
                }
                lo = mid + 1;
            } else {
                proof {
                    assert forall|j: int| mid <= j < starts.len() implies #[trigger] starts[j] > offset by {
                        if j > mid {
                            assert(starts[mid as int] < starts[j]);
                        }
                    }
                }
                hi = mid;
            }
        }
        let start = if lo == 0 { 0 } else { self.newlines[lo - 1] };
        proof {
            if lo > 0 {
                assert(starts[lo - 1] <= offset);
            }
        }
        LineCol { line: lo as u32, col: offset - start }
    }
}

} // verus!
