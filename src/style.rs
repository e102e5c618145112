use vstd::prelude::*;

use crate::range::{before, GridPos, Range};

verus! {

/// A color as red, green, blue and opacity.
#[derive(Clone, Copy, Debug, PartialEq, Eq, Structural)]
pub struct Rgba {
    pub r: u8,
    pub g: u8,
    pub b: u8,
    pub a: u8,
}

/// Opaque black, the color of plain text.
pub open spec fn black() -> Rgba {
    Rgba { r: 0, g: 0, b: 0, a: 255 }
}

pub fn black_rgba() -> (r: Rgba)
    ensures
        r == black(),
{
    Rgba { r: 0, g: 0, b: 0, a: 255 }
}

/// A range of text with the decoration drawn over it.
#[derive(Clone, Copy, Debug, PartialEq, Eq, Structural)]
pub struct StyleRange {
    pub color: Rgba,
    pub bold: bool,
    pub underline: bool,
    pub strikethrough: bool,
    pub range: Range,
}

impl StyleRange {
    /// Plain black text over `start..end`.
    pub fn new(start: GridPos, end: GridPos) -> (r: StyleRange)
        ensures
            r == (StyleRange {
                color: black(),
                bold: false,
                underline: false,
                strikethrough: false,
                range: Range { start: Some(start), end: Some(end) },
            }),
    {
        StyleRange {
            color: black_rgba(),
            bold: false,
            underline: false,
            strikethrough: false,
            range: Range::new(start, end),
        }
    }

    pub fn new_colored(range: Range, color: Rgba) -> (r: StyleRange)
        ensures
            r == (StyleRange { color, bold: false, underline: false, strikethrough: false, range }),
    {
        StyleRange { color, bold: false, underline: false, strikethrough: false, range }
    }

    pub fn new_bold(range: Range) -> (r: StyleRange)
        ensures
            r == (StyleRange { color: black(), bold: true, underline: false, strikethrough: false, range }),
    {
        StyleRange { color: black_rgba(), bold: true, underline: false, strikethrough: false, range }
    }

    pub fn new_underline(range: Range) -> (r: StyleRange)
        ensures
            r == (StyleRange { color: black(), bold: false, underline: true, strikethrough: false, range }),
    {
        StyleRange { color: black_rgba(), bold: false, underline: true, strikethrough: false, range }
    }

    pub fn new_strikethrough(range: Range) -> (r: StyleRange)
        ensures
            r == (StyleRange { color: black(), bold: false, underline: false, strikethrough: true, range }),
    {
        StyleRange { color: black_rgba(), bold: false, underline: false, strikethrough: true, range }
    }

    pub fn get_range(&self) -> (r: Range)
        ensures
            r == self.range,
    {
        self.range
    }
}

/// The buffer after looking at its entries at indices `k - 1` down to 0 for `r`:
/// an equal entry is removed and the scan stops; an entry that `r` encloses is removed
/// and the scan goes on; an entry that encloses `r` is replaced by what lies before and
/// after `r` in it (a part that another entry already covers is left out), and the scan
/// stops; when no entry was equal or enclosing, `r` is appended.
pub open spec fn scan_toggle(buf: Seq<Range>, r: Range, k: int) -> Seq<Range>
    decreases k,
{
    if k <= 0 || k > buf.len() {
        buf.push(r)
    } else {
        let i = k - 1;
        let e = buf[i];
        if r == e {
            buf.remove(i)
        } else if r.encloses_spec(e) {
            scan_toggle(buf.remove(i), r, i)
        } else if e.encloses_spec(r) {
            split_around(buf, i, r).remove(i)
        } else {
            scan_toggle(buf, r, i)
        }
    }
}

/// Some entry of `buf` other than the one at `i` encloses `p`.
pub open spec fn covered(buf: Seq<Range>, i: int, p: Range) -> bool {
    exists|j: int| 0 <= j < buf.len() && j != i && (#[trigger] buf[j]).encloses_spec(p)
}

/// The part of `e` before `r`.
pub open spec fn part_before(e: Range, r: Range) -> Range {
    Range { start: Some(e.real_start_spec()), end: Some(r.real_start_spec()) }
}

/// The part of `e` after `r`.
pub open spec fn part_after(e: Range, r: Range) -> Range {
    Range { start: Some(r.real_end_spec()), end: Some(e.real_end_spec()) }
}

/// The buffer with the parts of container `buf[i]` before and after `r` appended, each
/// only when it is valid and no other entry covers it.
pub open spec fn split_around(buf: Seq<Range>, i: int, r: Range) -> Seq<Range> {
    let e = buf[i];
    let before_part = part_before(e, r);
    let after_part = part_after(e, r);
    let b1 = if before_part.valid() && !covered(buf, i, before_part) {
        buf.push(before_part)
    } else {
        buf
    };
    if after_part.valid() && !covered(buf, i, after_part) {
        b1.push(after_part)
    } else {
        b1
    }
}

/// Toggling `r` in a style buffer; an invalid range changes nothing.
pub open spec fn toggle_spec(buf: Seq<Range>, r: Range) -> Seq<Range> {
    if !r.valid() {
        buf
    } else {
        scan_toggle(buf, r, buf.len() as int)
    }
}

/// Toggles a style (underline, bold) on `range`: removes it where it is already styled,
/// merges the entries that it covers, and splits an entry that covers it.
pub fn add_range_to_buffer(range: Range, buffer: &mut Vec<Range>)
    ensures
        final(buffer)@ == toggle_spec(old(buffer)@, range),
        forward(range) && all_forward(old(buffer)@) && no_nesting(old(buffer)@) ==> all_forward(
            final(buffer)@,
        ) && no_nesting(final(buffer)@),
{
    proof {
        if forward(range) && all_forward(buffer@) && no_nesting(buffer@) {
            lemma_toggle_keeps_nesting_free(buffer@, range);
        }
    }
    if !range.is_valid() {
        return;
    }
    let ghost goal = toggle_spec(buffer@, range);
    let len = buffer.len();
    let mut k: usize = len;
    while k > 0
        invariant
            range.valid(),
            k <= buffer@.len(),
            scan_toggle(buffer@, range, k as int) == goal,
            goal == toggle_spec(old(buffer)@, range),
            forward(range) && all_forward(old(buffer)@) && no_nesting(old(buffer)@) ==> all_forward(goal)
                && no_nesting(goal),
        decreases k,
    {
        let i = k - 1;
        let entry = buffer[i];
        assert(entry == buffer@[i as int]);
        if range == entry {
            assert(goal == buffer@.remove(i as int));
            buffer.remove(i);
            return;
        } else if range.encloses(&entry) {
            buffer.remove(i);
        } else if entry.encloses(&range) {
            let ghost prior = buffer@;
            let before_part = Range::new(entry.get_real_start().unwrap(), range.get_real_start().unwrap());
            let after_part = Range::new(range.get_real_end().unwrap(), entry.get_real_end().unwrap());
            let keep_before = before_part.is_valid() && !covered_by_other(buffer, i, &before_part);
            let keep_after = after_part.is_valid() && !covered_by_other(buffer, i, &after_part);
            if keep_before {
                buffer.push(before_part);
            }
            if keep_after {
                buffer.push(after_part);
            }
            assert(buffer@ == split_around(prior, i as int, range));
            buffer.remove(i);
            return;
        }
        k = i;
    }
    buffer.push(range);
}

/// Whether an entry of `buf` other than the one at `i` encloses `p` (see `covered`).
fn covered_by_other(buf: &Vec<Range>, i: usize, p: &Range) -> (r: bool)
    ensures
        r == covered(buf@, i as int, *p),
{
    let mut j: usize = 0;
    while j < buf.len()
        invariant
            j <= buf@.len(),
            forall|t: int| 0 <= t < j && t != i ==> !(#[trigger] buf@[t]).encloses_spec(*p),
        decreases buf@.len() - j,
    {
        if j != i && buf[j].encloses(p) {
            return true;
        }
        j = j + 1;
    }
    false
}

/// `a` is written in document order.
pub open spec fn forward(a: Range) -> bool {
    a.start is Some && a.end is Some && before(a.start.unwrap(), a.end.unwrap())
}

/// Every entry is written in document order.
pub open spec fn all_forward(b: Seq<Range>) -> bool {
    forall|i: int| 0 <= i < b.len() ==> forward(#[trigger] b[i])
}

/// No entry encloses another.
pub open spec fn no_nesting(b: Seq<Range>) -> bool {
    forall|i: int, j: int|
        0 <= i < b.len() && 0 <= j < b.len() && i != j ==> !(#[trigger] b[i]).encloses_spec(#[trigger] b[j])
}

proof fn lemma_remove_keeps(b: Seq<Range>, k: int)
    requires
        0 <= k < b.len(),
        all_forward(b),
        no_nesting(b),
    ensures
        all_forward(b.remove(k)),
        no_nesting(b.remove(k)),
{
    let c = b.remove(k);
    assert forall|i: int| 0 <= i < c.len() implies forward(#[trigger] c[i]) by {
        if i < k {
            assert(c[i] == b[i]);
        } else {
            assert(c[i] == b[i + 1]);
        }
    }
    assert forall|i: int, j: int|
        0 <= i < c.len() && 0 <= j < c.len() && i != j implies !(#[trigger] c[i]).encloses_spec(#[trigger] c[j]) by {
        let bi = if i < k { i } else { i + 1 };
        let bj = if j < k { j } else { j + 1 };
        assert(c[i] == b[bi]);
        assert(c[j] == b[bj]);
    }
}

proof fn lemma_push_keeps(b: Seq<Range>, p: Range)
    requires
        all_forward(b),
        no_nesting(b),
        forward(p),
        forall|j: int| 0 <= j < b.len() ==> !(#[trigger] b[j]).encloses_spec(p) && !p.encloses_spec(b[j]),
    ensures
        all_forward(b.push(p)),
        no_nesting(b.push(p)),
{
    let c = b.push(p);
    assert forall|i: int| 0 <= i < c.len() implies forward(#[trigger] c[i]) by {
        if i < b.len() {
            assert(c[i] == b[i]);
        }
    }
    assert forall|i: int, j: int|
        0 <= i < c.len() && 0 <= j < c.len() && i != j implies !(#[trigger] c[i]).encloses_spec(#[trigger] c[j]) by {
        if i < b.len() {
            assert(c[i] == b[i]);
        }
        if j < b.len() {
            assert(c[j] == b[j]);
        }
    }
}

/// The part of a container outside the range it encloses keeps to the container, in
/// document order.
proof fn lemma_parts(e: Range, r: Range, g: Range)
    requires
        forward(e),
        forward(r),
        e.encloses_spec(r),
        forward(g),
        !e.encloses_spec(g),
    ensures
        part_before(e, r).valid() ==> forward(part_before(e, r)) && !part_before(e, r).encloses_spec(g)
            && !part_before(e, r).encloses_spec(part_after(e, r)),
        part_after(e, r).valid() ==> forward(part_after(e, r)) && !part_after(e, r).encloses_spec(g)
            && !part_after(e, r).encloses_spec(part_before(e, r)),
{
}

proof fn lemma_parts_apart(e: Range, r: Range)
    requires
        forward(e),
        forward(r),
        e.encloses_spec(r),
    ensures
        part_before(e, r).valid() ==> forward(part_before(e, r)) && !part_before(e, r).encloses_spec(
            part_after(e, r),
        ),
        part_after(e, r).valid() ==> forward(part_after(e, r)) && !part_after(e, r).encloses_spec(
            part_before(e, r),
        ),
{
}

proof fn lemma_scan_keeps(cur: Seq<Range>, r: Range, k: int)
    requires
        forward(r),
        all_forward(cur),
        no_nesting(cur),
        0 <= k <= cur.len(),
        forall|j: int|
            k <= j < cur.len() ==> #[trigger] cur[j] != r && !r.encloses_spec(cur[j]) && !cur[j].encloses_spec(r),
    ensures
        all_forward(scan_toggle(cur, r, k)),
        no_nesting(scan_toggle(cur, r, k)),
    decreases k,
{
    if k == 0 {
        lemma_push_keeps(cur, r);
    } else {
        let i = k - 1;
        let e = cur[i];
        if r == e {
            lemma_remove_keeps(cur, i);
        } else if r.encloses_spec(e) {
            lemma_remove_keeps(cur, i);
            let c = cur.remove(i);
            assert forall|j: int| i <= j < c.len() implies #[trigger] c[j] != r && !r.encloses_spec(c[j])
                && !c[j].encloses_spec(r) by {
                assert(c[j] == cur[j + 1]);
            }
            lemma_scan_keeps(c, r, i);
        } else if e.encloses_spec(r) {
            let c = cur.remove(i);
            lemma_remove_keeps(cur, i);
            let bp = part_before(e, r);
            let ap = part_after(e, r);
            assert forall|j: int| 0 <= j < c.len() implies !e.encloses_spec(#[trigger] c[j]) && forward(c[j]) by {
                let bj = if j < i { j } else { j + 1 };
                assert(c[j] == cur[bj]);
                assert(cur[i] != cur[bj] || i == bj);
            }
            let keep_b = bp.valid() && !covered(cur, i, bp);
            let keep_a = ap.valid() && !covered(cur, i, ap);
            let c1 = if keep_b { c.push(bp) } else { c };
            if keep_b {
                assert forall|j: int| 0 <= j < c.len() implies !(#[trigger] c[j]).encloses_spec(bp) && !bp.encloses_spec(c[j]) by {
                    let bj = if j < i { j } else { j + 1 };
                    assert(c[j] == cur[bj]);
                    lemma_parts(e, r, c[j]);
                }
                lemma_push_keeps(c, bp);
            }
            if keep_a {
                assert forall|j: int| 0 <= j < c1.len() implies !(#[trigger] c1[j]).encloses_spec(ap) && !ap.encloses_spec(c1[j]) by {
                    if j < c.len() {
                        let bj = if j < i { j } else { j + 1 };
                        assert(c1[j] == c[j]);
                        assert(c[j] == cur[bj]);
                        lemma_parts(e, r, c[j]);
                    } else {
                        assert(c1[j] == bp);
                        lemma_parts_apart(e, r);
                    }
                }
                lemma_push_keeps(c1, ap);
            }
            let s2 = split_around(cur, i, r);
            assert(s2.remove(i) =~= if keep_a { c1.push(ap) } else { c1 });
        } else {
            lemma_scan_keeps(cur, r, i);
        }
    }
}

/// Toggling a range written in document order on a buffer of such ranges, none enclosing
/// another, leaves a buffer of the same kind.
pub proof fn lemma_toggle_keeps_nesting_free(buf: Seq<Range>, r: Range)
    requires
        forward(r),
        all_forward(buf),
        no_nesting(buf),
    ensures
        all_forward(toggle_spec(buf, r)),
        no_nesting(toggle_spec(buf, r)),
{
    lemma_scan_keeps(buf, r, buf.len() as int);
}

/// The union of `acc` with each range of `s` in turn.
pub open spec fn union_all(acc: Range, s: Seq<Range>) -> Range
    decreases s.len(),
{
    if s.len() == 0 {
        acc
    } else {
        union_all(acc.add_spec(s[0]), s.drop_first())
    }
}

/// Toggling the same range twice on an empty buffer leaves it empty.
pub proof fn lemma_toggle_twice_empty(r: Range)
    ensures
        toggle_spec(toggle_spec(Seq::empty(), r), r) == Seq::<Range>::empty(),
{
    if r.valid() {
        let once = toggle_spec(Seq::empty(), r);
        assert(once == seq![r]);
        assert(once.remove(0) =~= Seq::<Range>::empty());
    }
}

/// Toggling a range that lies strictly inside the only entry `c` leaves at most two pieces
/// of `c`, and those pieces together with `r` give back `c`.
pub proof fn lemma_toggle_inside_splits(c: Range, r: Range)
    requires
        forward(c),
        forward(r),
        c.encloses_spec(r),
        r != c,
    ensures
        toggle_spec(seq![c], r).len() <= 2,
        forall|j: int| 0 <= j < toggle_spec(seq![c], r).len() ==> forward(#[trigger] toggle_spec(seq![c], r)[j]),
        union_all(r, toggle_spec(seq![c], r)) == c,
{
    reveal_with_fuel(union_all, 3);
    let out = toggle_spec(seq![c], r);
    let cs = c.start.unwrap();
    let ce = c.end.unwrap();
    let rs = r.start.unwrap();
    let re = r.end.unwrap();
    assert(!r.encloses_spec(c));
    let before_part = Range { start: Some(cs), end: Some(rs) };
    let after_part = Range { start: Some(re), end: Some(ce) };
    assert(!covered(seq![c], 0, part_before(c, r)));
    assert(!covered(seq![c], 0, part_after(c, r)));
    assert(out == split_around(seq![c], 0, r).remove(0));
    if before_part.valid() {
        if after_part.valid() {
            assert(out =~= seq![before_part, after_part]);
            assert(out.drop_first() =~= seq![after_part]);
            assert(seq![after_part].drop_first() =~= Seq::<Range>::empty());
        } else {
            assert(out =~= seq![before_part]);
            assert(seq![before_part].drop_first() =~= Seq::<Range>::empty());
        }
    } else {
        if after_part.valid() {
            assert(out =~= seq![after_part]);
            assert(seq![after_part].drop_first() =~= Seq::<Range>::empty());
        } else {
            assert(out =~= Seq::<Range>::empty());
        }
    }
}

} // verus!
