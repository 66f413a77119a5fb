//! Source positions: byte offsets with line and column numbers.
use vstd::prelude::*;

use crate::text::{char_utf8_len, utf8_len};

verus! {

/// A range of the source text. Offsets and columns count bytes of the
/// UTF-8 encoding; lines start at 1 and columns at 0.
#[derive(Debug, Clone, Copy, PartialEq, Eq, Structural)]
pub struct SpanInfo {
    pub start: usize,
    pub end: usize,
    pub start_line: usize,
    pub start_column: usize,
    pub end_line: usize,
    pub end_column: usize,
}

impl SpanInfo {
    /// Length of the range in bytes.
    pub fn len(&self) -> (r: usize)
        requires
            self.start <= self.end,
        ensures
            r == self.end - self.start,
    {
        self.end - self.start
    }

    /// Whether the range is empty.
    pub fn is_empty(&self) -> (r: bool)
        ensures
            r == (self.start == self.end),
    {
        self.start == self.end
    }
}

/// Byte offset of character index `i` of `s`.
pub open spec fn byte_offset(s: Seq<char>, i: int) -> nat
    decreases i,
{
    if i <= 0 || s.len() == 0 {
        0
    } else if i > s.len() {
        byte_offset(s, s.len() as int)
    } else {
        byte_offset(s, i - 1) + utf8_len(s[i - 1])
    }
}

/// Line number (from 1) of character index `i` of `s`.
pub open spec fn line_at(s: Seq<char>, i: int) -> nat
    decreases i,
{
    if i <= 0 || s.len() == 0 {
        1
    } else if i > s.len() {
        line_at(s, s.len() as int)
    } else {
        line_at(s, i - 1) + if s[i - 1] == '\n' {
            1nat
        } else {
            0nat
        }
    }
}

/// Column (in bytes, from 0) of character index `i` of `s`.
pub open spec fn column_at(s: Seq<char>, i: int) -> nat
    decreases i,
{
    if i <= 0 || s.len() == 0 {
        0
    } else if i > s.len() {
        column_at(s, s.len() as int)
    } else if s[i - 1] == '\n' {
        0
    } else {
        column_at(s, i - 1) + utf8_len(s[i - 1])
    }
}

/// The empty range at character index `i` of `s`.
pub open spec fn span_at(s: Seq<char>, i: int) -> SpanInfo {
    SpanInfo {
        start: byte_offset(s, i) as usize,
        end: byte_offset(s, i) as usize,
        start_line: line_at(s, i) as usize,
        start_column: column_at(s, i) as usize,
        end_line: line_at(s, i) as usize,
        end_column: column_at(s, i) as usize,
    }
}

/// The range from character index `a` to character index `b` of `s`.
pub open spec fn span_range(s: Seq<char>, a: int, b: int) -> SpanInfo {
    SpanInfo {
        start: byte_offset(s, a) as usize,
        end: byte_offset(s, b) as usize,
        start_line: line_at(s, a) as usize,
        start_column: column_at(s, a) as usize,
        end_line: line_at(s, b) as usize,
        end_column: column_at(s, b) as usize,
    }
}

/// A token of `len` bytes on one line, starting at character index `a`.
pub open spec fn span_token(s: Seq<char>, a: int, len: nat) -> SpanInfo {
    SpanInfo {
        start: byte_offset(s, a) as usize,
        end: (byte_offset(s, a) + len) as usize,
        start_line: line_at(s, a) as usize,
        start_column: column_at(s, a) as usize,
        end_line: line_at(s, a) as usize,
        end_column: (column_at(s, a) + len) as usize,
    }
}

/// Whether the byte offsets of the whole of `s` fit the machine.
pub open spec fn fits_positions(s: Seq<char>) -> bool {
    byte_offset(s, s.len() as int) + 4 < usize::MAX
}

pub proof fn lemma_positions_bounded(s: Seq<char>, i: int)
    requires
        0 <= i <= s.len(),
    ensures
        column_at(s, i) <= byte_offset(s, i),
        line_at(s, i) <= i + 1,
        byte_offset(s, i) <= byte_offset(s, s.len() as int),
        i <= byte_offset(s, i),
    decreases s.len() - i,
{
    lemma_positions_prefix(s, i);
    if i < s.len() {
        lemma_positions_bounded(s, i + 1);
    }
}

proof fn lemma_positions_prefix(s: Seq<char>, i: int)
    requires
        0 <= i <= s.len(),
    ensures
        column_at(s, i) <= byte_offset(s, i),
        line_at(s, i) <= i + 1,
        i <= byte_offset(s, i),
    decreases i,
{
    if i > 0 {
        lemma_positions_prefix(s, i - 1);
    }
}

/// Positions of every character index of a text, computed once.
pub struct Positions {
    pub offset: Vec<usize>,
    pub line: Vec<usize>,
    pub column: Vec<usize>,
}

impl Positions {
    pub open spec fn wf(&self, s: Seq<char>) -> bool {
        &&& self.offset@.len() == s.len() + 1
        &&& self.line@.len() == s.len() + 1
        &&& self.column@.len() == s.len() + 1
        &&& forall|i: int|
            0 <= i <= s.len() ==> {
                &&& #[trigger] self.offset@[i] == byte_offset(s, i)
                &&& self.line@[i] == line_at(s, i)
                &&& self.column@[i] == column_at(s, i)
            }
        &&& fits_positions(s)
    }

    /// Computes the positions of every character index of `s`.
    pub fn new(s: &Vec<char>) -> (p: Positions)
        requires
            fits_positions(s@),
        ensures
            p.wf(s@),
    {
        let mut offset: Vec<usize> = Vec::new();
        let mut line: Vec<usize> = Vec::new();
        let mut column: Vec<usize> = Vec::new();
        let mut o: usize = 0;
        let mut l: usize = 1;
        let mut c: usize = 0;
        let mut i: usize = 0;
        offset.push(o);
        line.push(l);
        column.push(c);
        while i < s.len()
            invariant
                0 <= i <= s@.len(),
                fits_positions(s@),
                offset@.len() == i + 1,
                line@.len() == i + 1,
                column@.len() == i + 1,
                o == byte_offset(s@, i as int),
                l == line_at(s@, i as int),
                c == column_at(s@, i as int),
                forall|j: int|
                    0 <= j <= i ==> {
                        &&& #[trigger] offset@[j] == byte_offset(s@, j)
                        &&& line@[j] == line_at(s@, j)
                        &&& column@[j] == column_at(s@, j)
                    },
            decreases s.len() - i,
        {
            proof {
                lemma_positions_bounded(s@, i as int);
                lemma_positions_bounded(s@, i + 1);
            }
            let ch = s[i];
            let w = char_utf8_len(ch);
            assert(byte_offset(s@, i + 1) == byte_offset(s@, i as int) + utf8_len(s@[i as int]));
            assert(line_at(s@, i + 1) == line_at(s@, i as int) + if s@[i as int] == '\n' { 1nat } else { 0nat });
            assert(column_at(s@, i + 1) == if s@[i as int] == '\n' { 0nat } else { column_at(s@, i as int) + utf8_len(s@[i as int]) });
            o = o + w;
            if ch == '\n' {
                l = l + 1;
                c = 0;
            } else {
                c = c + w;
            }
            i = i + 1;
            offset.push(o);
            line.push(l);
            column.push(c);
        }
        Positions { offset, line, column }
    }

    /// The empty range at character index `i`.
    pub fn at(&self, Ghost(s): Ghost<Seq<char>>, i: usize) -> (r: SpanInfo)
        requires
            self.wf(s),
            i <= s.len(),
        ensures
            r == span_at(s, i as int),
    {
        let o = self.offset[i];
        let l = self.line[i];
        let c = self.column[i];
        SpanInfo { start: o, end: o, start_line: l, start_column: c, end_line: l, end_column: c }
    }

    /// The range between character indices `a` and `b`.
    pub fn range(&self, Ghost(s): Ghost<Seq<char>>, a: usize, b: usize) -> (r: SpanInfo)
        requires
            self.wf(s),
            a <= s.len(),
            b <= s.len(),
        ensures
            r == span_range(s, a as int, b as int),
    {
        SpanInfo {
            start: self.offset[a],
            end: self.offset[b],
            start_line: self.line[a],
            start_column: self.column[a],
            end_line: self.line[b],
            end_column: self.column[b],
        }
    }

    /// A one-line token of `len` bytes (at most 4) at character index `a`.
    pub fn token(&self, Ghost(s): Ghost<Seq<char>>, a: usize, len: usize) -> (r: SpanInfo)
        requires
            self.wf(s),
            a <= s.len(),
            len <= 4,
        ensures
            r == span_token(s, a as int, len as nat),
    {
        proof {
            lemma_positions_bounded(s, a as int);
        }
        let o = self.offset[a];
        let c = self.column[a];
        let l = self.line[a];
        SpanInfo {
            start: o,
            end: o + len,
            start_line: l,
            start_column: c,
            end_line: l,
            end_column: c + len,
        }
    }
}

} // verus!
