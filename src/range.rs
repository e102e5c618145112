use vstd::prelude::*;

use crate::line::{Line, doc_of};

verus! {

/// A document coordinate: `x` is the column, `y` the row.
#[derive(Clone, Copy, PartialEq, Eq, Debug, Structural)]
pub struct GridPos {
    pub x: u32,
    pub y: u32,
}

impl GridPos {
    pub fn new(x: u32, y: u32) -> (r: GridPos)
        ensures
            r.x == x,
            r.y == y,
    {
        GridPos { x, y }
    }
}

/// `a` comes strictly before `b` in document order: smaller row first, then smaller column.
pub open spec fn before(a: GridPos, b: GridPos) -> bool {
    a.y < b.y || (a.y == b.y && a.x < b.x)
}

/// The later of two positions in document order.
pub open spec fn max_pos(a: GridPos, b: GridPos) -> GridPos {
    if before(a, b) {
        b
    } else {
        a
    }
}

/// The earlier of two positions in document order.
pub open spec fn min_pos(a: GridPos, b: GridPos) -> GridPos {
    if before(b, a) {
        b
    } else {
        a
    }
}

/// Length of row `y`, or 0 past the last row.
pub open spec fn row_len(doc: Seq<Seq<char>>, y: int) -> nat {
    if 0 <= y < doc.len() {
        doc[y].len()
    } else {
        0
    }
}

/// Every row length fits a column coordinate.
pub open spec fn rows_fit(lines: Seq<Line>) -> bool {
    forall|i: int| 0 <= i < lines.len() ==> #[trigger] lines[i]@.len() <= u32::MAX
}

pub fn get_line_length(i: u32, lines: &[Line]) -> (r: u32)
    requires
        rows_fit(lines@),
    ensures
        r == row_len(doc_of(lines@), i as int),
{
    if i as usize >= lines.len() {
        return 0;
    }
    lines[i as usize].buffer.len() as u32
}

pub fn vector_max(v1: GridPos, v2: GridPos) -> (r: GridPos)
    ensures
        r == max_pos(v1, v2),
{
    if v1.y < v2.y {
        return v2;
    }
    if v1.y > v2.y {
        return v1;
    }
    if v1.x < v2.x {
        v2
    } else {
        v1
    }
}

pub fn vector_min(v1: GridPos, v2: GridPos) -> (r: GridPos)
    ensures
        r == min_pos(v1, v2),
{
    if vector_max(v1, v2) == v2 {
        v1
    } else {
        v2
    }
}

/// A pair of positions in either order; either end may be missing.
#[derive(Clone, Copy, PartialEq, Eq, Debug, Structural)]
pub struct Range {
    pub start: Option<GridPos>,
    pub end: Option<GridPos>,
}

impl Default for Range {
    fn default() -> (r: Range)
        ensures
            r == (Range { start: None, end: None }),
    {
        Range { start: None, end: None }
    }
}

impl Range {
    /// Both ends are present and distinct.
    pub open spec fn valid(self) -> bool {
        self.start is Some && self.end is Some && self.start != self.end
    }

    pub open spec fn real_start_spec(self) -> GridPos {
        min_pos(self.start.unwrap(), self.end.unwrap())
    }

    pub open spec fn real_end_spec(self) -> GridPos {
        max_pos(self.start.unwrap(), self.end.unwrap())
    }

    /// The union of two ranges: the earlier start and the later end.
    pub open spec fn add_spec(self, other: Range) -> Range {
        if !other.valid() {
            self
        } else if !self.valid() {
            other
        } else {
            Range {
                start: Some(min_pos(self.start.unwrap(), other.start.unwrap())),
                end: Some(max_pos(self.end.unwrap(), other.end.unwrap())),
            }
        }
    }

    /// `self` reaches at least as far as `other` on both sides.
    pub open spec fn encloses_spec(self, other: Range) -> bool {
        &&& self.valid()
        &&& other.valid()
        &&& min_pos(self.start.unwrap(), other.start.unwrap()) == self.start.unwrap()
        &&& max_pos(self.end.unwrap(), other.end.unwrap()) == self.end.unwrap()
    }

    /// The column span of each row that the range covers, first row first.
    pub open spec fn lines_index_spec(self, doc: Seq<Seq<char>>) -> Seq<(u32, u32)> {
        if !self.valid() {
            Seq::empty()
        } else {
            let s = self.real_start_spec();
            let e = self.real_end_spec();
            Seq::new(
                (e.y - s.y + 1) as nat,
                |k: int|
                    if k == 0 {
                        if s.y == e.y {
                            (s.x, e.x)
                        } else {
                            (s.x, row_len(doc, s.y as int) as u32)
                        }
                    } else if s.y + k == e.y {
                        (0u32, e.x)
                    } else {
                        (0u32, row_len(doc, s.y + k) as u32)
                    },
            )
        }
    }

    /// The range with its ends in document order, when it is valid.
    pub open spec fn normalized_spec(self) -> Range {
        if self.valid() {
            Range { start: Some(self.real_start_spec()), end: Some(self.real_end_spec()) }
        } else {
            self
        }
    }

    pub fn normalized(&self) -> (r: Range)
        ensures
            r == self.normalized_spec(),
            r.valid() == self.valid(),
            r.valid() ==> before(r.start.unwrap(), r.end.unwrap()),
    {
        if self.is_valid() {
            Range { start: self.get_real_start(), end: self.get_real_end() }
        } else {
            *self
        }
    }

    pub fn new(start: GridPos, end: GridPos) -> (r: Range)
        ensures
            r.start == Some(start),
            r.end == Some(end),
    {
        Range { start: Some(start), end: Some(end) }
    }

    pub fn start(&mut self, position: GridPos)
        ensures
            *final(self) == (Range { start: Some(position), end: old(self).end }),
    {
        self.start = Some(GridPos { x: position.x, y: position.y });
    }

    pub fn end(&mut self, position: GridPos)
        ensures
            *final(self) == (Range { start: old(self).start, end: Some(position) }),
    {
        self.end = Some(GridPos { x: position.x, y: position.y });
    }

    pub fn reset(&mut self)
        ensures
            *final(self) == (Range { start: None, end: None }),
    {
        self.start = None;
        self.end = None;
    }

    pub fn add(&mut self, other: Range)
        ensures
            *final(self) == old(self).add_spec(other),
    {
        if !other.is_valid() {
            return;
        }
        if !self.is_valid() {
            self.start(other.start.unwrap());
            self.end(other.end.unwrap());
            return;
        }
        let start = vector_min(self.start.unwrap(), other.start.unwrap());
        let end = vector_max(self.end.unwrap(), other.end.unwrap());
        self.start(start);
        self.end(end);
    }

    pub fn encloses(&self, other: &Range) -> (r: bool)
        ensures
            r == self.encloses_spec(*other),
    {
        if !self.is_valid() || !other.is_valid() {
            return false;
        }
        vector_min(self.start.unwrap(), other.start.unwrap()) == self.start.unwrap()
            && vector_max(self.end.unwrap(), other.end.unwrap()) == self.end.unwrap()
    }

    pub fn is_valid(&self) -> (r: bool)
        ensures
            r == self.valid(),
    {
        self.start.is_some() && self.end.is_some() && self.start != self.end
    }

    pub fn get_real_start(&self) -> (r: Option<GridPos>)
        ensures
            r == (if self.valid() { Some(self.real_start_spec()) } else { None }),
    {
        if !self.is_valid() {
            return None;
        }
        Some(vector_min(self.start.unwrap(), self.end.unwrap()))
    }

    pub fn get_real_end(&self) -> (r: Option<GridPos>)
        ensures
            r == (if self.valid() { Some(self.real_end_spec()) } else { None }),
    {
        if !self.is_valid() {
            return None;
        }
        Some(vector_max(self.start.unwrap(), self.end.unwrap()))
    }

    pub fn get_lines_index(&self, lines: &[Line]) -> (r: Vec<(u32, u32)>)
        requires
            rows_fit(lines@),
        ensures
            r@ == self.lines_index_spec(doc_of(lines@)),
    {
        if !self.is_valid() {
            return Vec::new();
        }
        let start = self.get_real_start().unwrap();
        let end = self.get_real_end().unwrap();
        let mut result: Vec<(u32, u32)> = Vec::new();
        let mut y: u32 = start.y;
        loop
            invariant_except_break
                result@ =~= self.lines_index_spec(doc_of(lines@)).take(y - start.y),
            invariant
                start == self.real_start_spec(),
                end == self.real_end_spec(),
                self.valid(),
                rows_fit(lines@),
                start.y <= y <= end.y,
            ensures
                result@ =~= self.lines_index_spec(doc_of(lines@)),
            decreases end.y - y,
        {
            let pair = if y == start.y {
                if start.y == end.y {
                    (start.x, end.x)
                } else {
                    (start.x, get_line_length(y, lines))
                }
            } else if y == end.y {
                (0, end.x)
            } else {
                (0, get_line_length(y, lines))
            };
            result.push(pair);
            if y == end.y {
                break;
            }
            y = y + 1;
        }
        result
    }
}

/// The union of two ranges does not depend on their order, as long as one of them is
/// valid or they are the same range (two distinct invalid ranges each keep themselves).
pub proof fn lemma_add_commutative(a: Range, b: Range)
    requires
        a.valid() || b.valid() || a == b,
    ensures
        a.add_spec(b) == b.add_spec(a),
{
}

/// Adding a range to itself leaves it unchanged.
pub proof fn lemma_add_idempotent(a: Range)
    ensures
        a.add_spec(a) == a,
{
}

} // verus!
