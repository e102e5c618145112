use vstd::prelude::*;

use crate::editor::Editor;
use crate::line::{Alignment, Line, doc_of, run_left, run_right};
use crate::range::{GridPos, Range, rows_fit};
use crate::text::{chars_of, is_whitespace, push_char, whitespace};

verus! {

/// The character of a decimal digit.
pub open spec fn digit_char(d: int) -> char {
    seq!['0', '1', '2', '3', '4', '5', '6', '7', '8', '9'][d]
}

/// `n` written in decimal.
pub open spec fn decimal(n: nat) -> Seq<char>
    decreases n,
{
    if n < 10 {
        seq![digit_char(n as int)]
    } else {
        decimal(n / 10).push(digit_char((n % 10) as int))
    }
}

/// A range written as `row-column-row-column`: its start's row and column, then its end's.
pub open spec fn range_id(r: Range) -> Seq<char> {
    let s = r.start.unwrap();
    let e = r.end.unwrap();
    decimal(s.y as nat) + seq!['-'] + decimal(s.x as nat) + seq!['-'] + decimal(e.y as nat) + seq!['-']
        + decimal(e.x as nat)
}

/// The valid ranges of `buf`, each written out and followed by a comma.
pub open spec fn ids_text(buf: Seq<Range>) -> Seq<char>
    decreases buf.len(),
{
    if buf.len() == 0 {
        Seq::empty()
    } else {
        let last = buf.last();
        ids_text(buf.drop_last()) + if last.valid() {
            range_id(last) + seq![',']
        } else {
            Seq::empty()
        }
    }
}

/// Rows joined by newlines.
pub open spec fn rows_joined(doc: Seq<Seq<char>>) -> Seq<char>
    decreases doc.len(),
{
    if doc.len() == 0 {
        Seq::empty()
    } else if doc.len() == 1 {
        doc[0]
    } else {
        rows_joined(doc.drop_last()) + seq!['\n'] + doc.last()
    }
}

/// The pieces of `s` between the separators `sep`, in order; one piece when there is none.
pub open spec fn split_on(s: Seq<char>, sep: char) -> Seq<Seq<char>>
    decreases s.len(),
{
    if s.len() == 0 {
        seq![Seq::empty()]
    } else {
        let rest = split_on(s.drop_last(), sep);
        if s.last() == sep {
            rest.push(Seq::empty())
        } else {
            rest.update(rest.len() - 1, rest.last().push(s.last()))
        }
    }
}

pub open spec fn is_space(c: char) -> bool {
    is_whitespace(c)
}

pub open spec fn space_pred() -> spec_fn(char) -> bool {
    |c: char| is_space(c)
}

/// `s` without the spaces at either end.
pub open spec fn trimmed(s: Seq<char>) -> Seq<char> {
    let a = run_right(s, 0, space_pred());
    let b = run_left(s, s.len() as int, space_pred());
    s.subrange(a, if b < a { a } else { b })
}

pub open spec fn is_digit(c: char) -> bool {
    '0' <= c && c <= '9'
}

/// The value of a string of decimal digits.
pub open spec fn digits_value(s: Seq<char>) -> nat
    decreases s.len(),
{
    if s.len() == 0 {
        0
    } else {
        digits_value(s.drop_last()) * 10 + ((s.last() as u32) - ('0' as u32)) as nat
    }
}

pub open spec fn all_digits(d: Seq<char>) -> bool {
    forall|i: int| 0 <= i < d.len() ==> is_digit(#[trigger] d[i])
}

/// An unsigned number: an optional `+`, then one digit or more, of value at most `u32::MAX`.
pub open spec fn parse_u32_spec(s: Seq<char>) -> Option<u32> {
    let d = if s.len() > 0 && s[0] == '+' {
        s.drop_first()
    } else {
        s
    };
    if d.len() > 0 && all_digits(d) && digits_value(d) <= u32::MAX {
        Some(digits_value(d) as u32)
    } else {
        None
    }
}

/// The range that one comma-separated piece of a style line stands for: exactly four
/// numbers separated by `-` (start row, start column, end row, end column) that make a
/// valid range. `None`: the piece is malformed.
pub open spec fn range_of_piece(p: Seq<char>) -> Option<Range> {
    let f = split_on(trimmed(p), '-');
    if f.len() == 4 && parse_u32_spec(f[0]) is Some && parse_u32_spec(f[1]) is Some && parse_u32_spec(
        f[2],
    ) is Some && parse_u32_spec(f[3]) is Some {
        let r = Range {
            start: Some(GridPos { x: parse_u32_spec(f[1]).unwrap(), y: parse_u32_spec(f[0]).unwrap() }),
            end: Some(GridPos { x: parse_u32_spec(f[3]).unwrap(), y: parse_u32_spec(f[2]).unwrap() }),
        };
        if r.valid() {
            Some(r)
        } else {
            None
        }
    } else {
        None
    }
}

/// A piece holding nothing but white space, as after the last comma.
pub open spec fn blank_piece(p: Seq<char>) -> bool {
    trimmed(p).len() == 0
}

/// The ranges of the pieces in order, blank pieces left out; `None` when a piece is
/// malformed.
pub open spec fn ranges_of_pieces(pieces: Seq<Seq<char>>) -> Option<Seq<Range>>
    decreases pieces.len(),
{
    if pieces.len() == 0 {
        Some(Seq::empty())
    } else {
        match ranges_of_pieces(pieces.drop_last()) {
            None => None,
            Some(rest) => if blank_piece(pieces.last()) {
                Some(rest)
            } else {
                match range_of_piece(pieces.last()) {
                    Some(r) => Some(rest.push(r)),
                    None => None,
                }
            },
        }
    }
}

/// The ranges that the text after a style line's prefix lists; none without a comma, and
/// none at all when any piece is malformed.
pub open spec fn ranges_of_line(rest: Seq<char>) -> Seq<Range> {
    let pieces = split_on(rest, ',');
    if pieces.len() <= 1 {
        Seq::empty()
    } else {
        match ranges_of_pieces(pieces) {
            Some(rs) => rs,
            None => Seq::empty(),
        }
    }
}

/// Index of the first line that starts with `pat`.
pub open spec fn first_with_prefix(lines: Seq<Seq<char>>, pat: Seq<char>, from: int) -> Option<int>
    decreases lines.len() - from,
{
    if from < 0 || from >= lines.len() {
        None
    } else if pat.len() <= lines[from].len() && lines[from].take(pat.len() as int) == pat {
        Some(from)
    } else {
        first_with_prefix(lines, pat, from + 1)
    }
}

/// The ranges listed on the first line that starts with `pat`, after `pat`.
pub open spec fn ranges_for_prefix(lines: Seq<Seq<char>>, pat: Seq<char>) -> Seq<Range> {
    match first_with_prefix(lines, pat, 0) {
        Some(i) => ranges_of_line(lines[i].skip(pat.len() as int)),
        None => Seq::empty(),
    }
}

/// Appends `n` in decimal.
pub fn push_decimal(out: &mut String, n: u32)
    ensures
        final(out)@ == old(out)@ + decimal(n as nat),
    decreases n,
{
    if n >= 10 {
        push_decimal(out, n / 10);
    }
    let d = n % 10;
    let c = if d == 0 {
        '0'
    } else if d == 1 {
        '1'
    } else if d == 2 {
        '2'
    } else if d == 3 {
        '3'
    } else if d == 4 {
        '4'
    } else if d == 5 {
        '5'
    } else if d == 6 {
        '6'
    } else if d == 7 {
        '7'
    } else if d == 8 {
        '8'
    } else {
        '9'
    };
    push_char(out, c);
    proof {
        if n < 10 {
            assert(old(out)@ + decimal(n as nat) =~= old(out)@.push(c));
        } else {
            assert(old(out)@ + decimal(n as nat) =~= old(out)@ + decimal((n / 10) as nat) + seq![c]);
        }
    }
}

impl Range {
    /// The range written as `row-column-row-column` (see `range_id`), or `Invalid range`.
    pub fn get_id(&self) -> (r: String)
        ensures
            self.valid() ==> r@ == range_id(*self),
            !self.valid() ==> r@ == seq!['I', 'n', 'v', 'a', 'l', 'i', 'd', ' ', 'r', 'a', 'n', 'g', 'e'],
    {
        let mut out = String::new();
        if !self.is_valid() {
            let word = ['I', 'n', 'v', 'a', 'l', 'i', 'd', ' ', 'r', 'a', 'n', 'g', 'e'];
            let mut i: usize = 0;
            while i < 13
                invariant
                    i <= 13,
                    out@ == word@.take(i as int),
                decreases 13 - i,
            {
                push_char(&mut out, word[i]);
                i = i + 1;
                proof {
                    assert(out@ =~= word@.take(i as int));
                }
            }
            proof {
                assert(word@.take(13) =~= seq!['I', 'n', 'v', 'a', 'l', 'i', 'd', ' ', 'r', 'a', 'n', 'g', 'e']);
            }
            return out;
        }
        let start = self.start.unwrap();
        let end = self.end.unwrap();
        push_decimal(&mut out, start.y);
        push_char(&mut out, '-');
        push_decimal(&mut out, start.x);
        push_char(&mut out, '-');
        push_decimal(&mut out, end.y);
        push_char(&mut out, '-');
        push_decimal(&mut out, end.x);
        proof {
            assert(out@ =~= range_id(*self));
        }
        out
    }

    /// The ranges listed on the first of `lines` that starts with `pattern`, after it
    /// (see `ranges_of_line`); none when no line does.
    pub fn get_ranges_from_drn_line(pattern: &str, lines: &Vec<&str>) -> (r: Vec<Range>)
        ensures
            r@ == ranges_for_prefix(lines@.map_values(|l: &str| l@), pattern@),
    {
        let ghost ls = lines@.map_values(|l: &str| l@);
        let pat = chars_of(pattern);
        let mut i: usize = 0;
        while i < lines.len()
            invariant
                i <= lines@.len(),
                ls == lines@.map_values(|l: &str| l@),
                pat@ == pattern@,
                first_with_prefix(ls, pat@, i as int) == first_with_prefix(ls, pat@, 0),
            decreases lines@.len() - i,
        {
            let line = chars_of(lines[i]);
            if starts_with(&line, &pat) {
                proof {
                    assert(ls[i as int] == line@);
                }
                let rest = cut_front(&line, pat.len());
                return ranges_of_line_exec(&rest);
            }
            i = i + 1;
        }
        Vec::new()
    }
}

/// `s` starts with `pat`.
fn starts_with(s: &Vec<char>, pat: &Vec<char>) -> (r: bool)
    ensures
        r == (pat@.len() <= s@.len() && s@.take(pat@.len() as int) == pat@),
{
    if pat.len() > s.len() {
        return false;
    }
    let mut j: usize = 0;
    while j < pat.len()
        invariant
            pat@.len() <= s@.len(),
            j <= pat@.len(),
            forall|t: int| 0 <= t < j ==> s@[t] == pat@[t],
        decreases pat@.len() - j,
    {
        if s[j] != pat[j] {
            proof {
                assert(s@.take(pat@.len() as int)[j as int] != pat@[j as int]);
            }
            return false;
        }
        j = j + 1;
    }
    proof {
        assert(s@.take(pat@.len() as int) =~= pat@);
    }
    true
}

/// `s` without its first `k` characters.
fn cut_front(s: &Vec<char>, k: usize) -> (r: Vec<char>)
    requires
        k <= s@.len(),
    ensures
        r@ == s@.skip(k as int),
{
    let mut out: Vec<char> = Vec::new();
    let mut i: usize = k;
    while i < s.len()
        invariant
            k <= i <= s@.len(),
            out@ == s@.subrange(k as int, i as int),
        decreases s@.len() - i,
    {
        out.push(s[i]);
        i = i + 1;
        proof {
            assert(out@ =~= s@.subrange(k as int, i as int));
        }
    }
    proof {
        assert(out@ =~= s@.skip(k as int));
    }
    out
}

/// The characters `a..b` of `s`.
fn slice_chars(s: &Vec<char>, a: usize, b: usize) -> (r: Vec<char>)
    requires
        a <= b <= s@.len(),
    ensures
        r@ == s@.subrange(a as int, b as int),
{
    let mut out: Vec<char> = Vec::new();
    let mut i: usize = a;
    while i < b
        invariant
            a <= i <= b <= s@.len(),
            out@ == s@.subrange(a as int, i as int),
        decreases b - i,
    {
        out.push(s[i]);
        i = i + 1;
        proof {
            assert(out@ =~= s@.subrange(a as int, i as int));
        }
    }
    out
}

/// The pieces of `s` between the separators `sep` (see `split_on`).
pub fn split_chars(s: &Vec<char>, sep: char) -> (r: Vec<Vec<char>>)
    ensures
        r@.map_values(|v: Vec<char>| v@) == split_on(s@, sep),
{
    let mut out: Vec<Vec<char>> = Vec::new();
    let mut cur: Vec<char> = Vec::new();
    let mut i: usize = 0;
    while i < s.len()
        invariant
            i <= s@.len(),
            out@.map_values(|v: Vec<char>| v@).push(cur@) == split_on(s@.take(i as int), sep),
        decreases s@.len() - i,
    {
        proof {
            assert(s@.take(i + 1).drop_last() =~= s@.take(i as int));
        }
        let ghost before = out@.map_values(|v: Vec<char>| v@);
        if s[i] == sep {
            let piece = cur;
            out.push(piece);
            cur = Vec::new();
            proof {
                assert(out@.map_values(|v: Vec<char>| v@) =~= before.push(piece@));
            }
        } else {
            cur.push(s[i]);
        }
        i = i + 1;
        proof {
            assert(out@.map_values(|v: Vec<char>| v@).push(cur@) =~= split_on(s@.take(i as int), sep));
        }
    }
    proof {
        assert(s@.take(i as int) =~= s@);
    }
    let ghost before = out@.map_values(|v: Vec<char>| v@);
    out.push(cur);
    proof {
        assert(out@.map_values(|v: Vec<char>| v@) =~= before.push(cur@));
    }
    out
}

fn space_char(c: char) -> (r: bool)
    ensures
        r == is_space(c),
{
    whitespace(c)
}

/// `s` without the spaces at either end (see `trimmed`).
fn trim_chars(s: &Vec<char>) -> (r: Vec<char>)
    ensures
        r@ == trimmed(s@),
{
    let mut a: usize = 0;
    while a < s.len() && space_char(s[a])
        invariant
            a <= s@.len(),
            run_right(s@, a as int, space_pred()) == run_right(s@, 0, space_pred()),
        decreases s@.len() - a,
    {
        a = a + 1;
    }
    let mut b: usize = s.len();
    proof {
        crate::line::lemma_run_left_bounds(s@, a as int, space_pred());
    }
    while b > a && space_char(s[b - 1])
        invariant
            a <= b <= s@.len(),
            run_left(s@, b as int, space_pred()) == run_left(s@, s@.len() as int, space_pred()),
        decreases b,
    {
        b = b - 1;
    }
    proof {
        crate::line::lemma_run_left_bounds(s@, b as int, space_pred());
    }
    slice_chars(s, a, b)
}

proof fn lemma_digits_grow(s: Seq<char>, k: int)
    requires
        0 <= k <= s.len(),
        forall|i: int| 0 <= i < s.len() ==> is_digit(#[trigger] s[i]),
    ensures
        digits_value(s.take(k)) <= digits_value(s),
    decreases s.len() - k,
{
    if k < s.len() {
        lemma_digits_grow(s, k + 1);
        assert(s.take(k + 1).drop_last() =~= s.take(k));
    } else {
        assert(s.take(k) =~= s);
    }
}

/// An unsigned number (see `parse_u32_spec`).
fn parse_u32(s: &Vec<char>) -> (r: Option<u32>)
    ensures
        r == parse_u32_spec(s@),
{
    let start: usize = if s.len() > 0 && s[0] == '+' {
        1
    } else {
        0
    };
    let ghost d = if s@.len() > 0 && s@[0] == '+' {
        s@.drop_first()
    } else {
        s@
    };
    proof {
        assert(d =~= s@.skip(start as int));
    }
    if start >= s.len() {
        return None;
    }
    let mut i: usize = start;
    while i < s.len()
        invariant
            start <= i <= s@.len(),
            d =~= s@.skip(start as int),
            d == (if s@.len() > 0 && s@[0] == '+' { s@.drop_first() } else { s@ }),
            forall|t: int| start <= t < i ==> is_digit(#[trigger] s@[t]),
        decreases s@.len() - i,
    {
        if !('0' <= s[i] && s[i] <= '9') {
            proof {
                assert(d[i - start] == s@[i as int]);
                assert(!is_digit(d[i - start]));
                assert(!all_digits(d));
            }
            return None;
        }
        i = i + 1;
    }
    let mut v: u64 = 0;
    let mut j: usize = start;
    while j < s.len()
        invariant
            start <= j <= s@.len(),
            d =~= s@.skip(start as int),
            d == (if s@.len() > 0 && s@[0] == '+' { s@.drop_first() } else { s@ }),
            forall|t: int| 0 <= t < d.len() ==> is_digit(#[trigger] d[t]),
            v == digits_value(d.take(j - start)),
            v <= u32::MAX,
        decreases s@.len() - j,
    {
        proof {
            assert(d.take(j - start + 1).drop_last() =~= d.take(j - start));
            assert(d[j - start] == s@[j as int]);
        }
        let digit = (s[j] as u32 - '0' as u32) as u64;
        let next = v * 10 + digit;
        proof {
            assert(d.take(j - start + 1).last() == s@[j as int]);
            assert(digits_value(d.take(j - start + 1)) == v * 10 + digit);
        }
        if next > u32::MAX as u64 {
            proof {
                lemma_digits_grow(d, j - start + 1);
            }
            return None;
        }
        v = next;
        j = j + 1;
    }
    proof {
        assert(d.take(j - start) =~= d);
    }
    Some(v as u32)
}

/// The range that one piece of a style line stands for (see `range_of_piece`).
fn range_of_piece_exec(p: &Vec<char>) -> (r: Option<Range>)
    ensures
        r == range_of_piece(p@),
{
    let t = trim_chars(p);
    let fields = split_chars(&t, '-');
    let ghost f = fields@.map_values(|v: Vec<char>| v@);
    if fields.len() != 4 {
        return None;
    }
    proof {
        assert(f[0] == fields@[0]@);
        assert(f[1] == fields@[1]@);
        assert(f[2] == fields@[2]@);
        assert(f[3] == fields@[3]@);
    }
    let sy = parse_u32(&fields[0]);
    let sx = parse_u32(&fields[1]);
    let ey = parse_u32(&fields[2]);
    let ex = parse_u32(&fields[3]);
    if sy.is_none() || sx.is_none() || ey.is_none() || ex.is_none() {
        return None;
    }
    let r = Range {
        start: Some(GridPos { x: sx.unwrap(), y: sy.unwrap() }),
        end: Some(GridPos { x: ex.unwrap(), y: ey.unwrap() }),
    };
    if r.is_valid() {
        Some(r)
    } else {
        None
    }
}

/// The ranges that the text after a style line's prefix lists (see `ranges_of_line`).
fn ranges_of_line_exec(rest: &Vec<char>) -> (r: Vec<Range>)
    ensures
        r@ == ranges_of_line(rest@),
{
    let pieces = split_chars(rest, ',');
    let ghost ps = pieces@.map_values(|v: Vec<char>| v@);
    let mut out: Vec<Range> = Vec::new();
    if pieces.len() <= 1 {
        return out;
    }
    let mut i: usize = 0;
    while i < pieces.len()
        invariant
            ps == pieces@.map_values(|v: Vec<char>| v@),
            ps == split_on(rest@, ','),
            ps.len() > 1,
            i <= pieces@.len(),
            ranges_of_pieces(ps.take(i as int)) == Some(out@),
        decreases pieces@.len() - i,
    {
        proof {
            assert(ps.take(i + 1).drop_last() =~= ps.take(i as int));
            assert(ps[i as int] == pieces@[i as int]@);
        }
        let t = trim_chars(&pieces[i]);
        if t.len() > 0 {
            match range_of_piece_exec(&pieces[i]) {
                Some(r) => {
                    out.push(r);
                },
                None => {
                    proof {
                        lemma_malformed_stays(ps, i as int);
                    }
                    return Vec::new();
                },
            }
        }
        i = i + 1;
    }
    proof {
        assert(ps.take(i as int) =~= ps);
    }
    out
}

/// Once a piece is malformed, the whole list is.
proof fn lemma_malformed_stays(ps: Seq<Seq<char>>, i: int)
    requires
        0 <= i < ps.len(),
        ranges_of_pieces(ps.take(i + 1)) is None,
    ensures
        ranges_of_pieces(ps) is None,
    decreases ps.len() - i,
{
    if i + 1 < ps.len() {
        assert(ps.take(i + 2).drop_last() =~= ps.take(i + 1));
        lemma_malformed_stays(ps, i + 1);
    } else {
        assert(ps.take(i + 1) =~= ps);
    }
}

/// The rows without the empty ones at the end, keeping at least one row.
pub open spec fn rows_kept(rows: Seq<Seq<char>>) -> Seq<Seq<char>>
    decreases rows.len(),
{
    if rows.len() > 1 && rows.last().len() == 0 {
        rows_kept(rows.drop_last())
    } else if rows.len() == 0 {
        seq![Seq::empty()]
    } else {
        rows
    }
}

/// `s` starts with `#` and `c` and `:`.
pub open spec fn is_header(s: Seq<char>, c: char) -> bool {
    s.len() >= 3 && s[0] == '#' && s[1] == c && s[2] == ':'
}

/// The text of a styled document: the underline line, the bold line, then the rows.
pub open spec fn drn_text(underline: Seq<Range>, bold: Seq<Range>, doc: Seq<Seq<char>>) -> Seq<char> {
    seq!['#', 'u', ':', ' '] + ids_text(underline) + seq!['\n'] + seq!['#', 'b', ':', ' '] + ids_text(bold)
        + seq!['\n'] + rows_joined(doc)
}

/// A styled document read back: with both style lines in front, their ranges and the rows
/// after them; without them, no ranges and every line a row.
pub open spec fn drn_parts(content: Seq<char>) -> (Seq<Range>, Seq<Range>, Seq<Seq<char>>) {
    let lines = split_on(content, '\n');
    if lines.len() >= 2 && is_header(lines[0], 'u') && is_header(lines[1], 'b') {
        (ranges_of_line(lines[0].skip(3)), ranges_of_line(lines[1].skip(3)), rows_kept(lines.skip(2)))
    } else {
        (Seq::empty(), Seq::empty(), rows_kept(lines))
    }
}

proof fn lemma_split_short(s: Seq<char>, sep: char)
    ensures
        1 <= split_on(s, sep).len() <= s.len() + 1,
        forall|i: int| 0 <= i < split_on(s, sep).len() ==> #[trigger] split_on(s, sep)[i].len() <= s.len(),
    decreases s.len(),
{
    if s.len() > 0 {
        lemma_split_short(s.drop_last(), sep);
        let rest = split_on(s.drop_last(), sep);
        let r = split_on(s, sep);
        if s.last() == sep {
            assert(r == rest.push(Seq::empty()));
            assert forall|i: int| 0 <= i < r.len() implies #[trigger] r[i].len() <= s.len() by {
                if i < rest.len() {
                    assert(r[i] == rest[i]);
                }
            }
        } else {
            assert(r == rest.update(rest.len() - 1, rest.last().push(s.last())));
            assert forall|i: int| 0 <= i < r.len() implies #[trigger] r[i].len() <= s.len() by {
                if i < rest.len() - 1 {
                    assert(r[i] == rest[i]);
                }
            }
        }
    }
}

/// Appends the written form of the valid ranges of `buf` (see `ids_text`).
fn push_ids(out: &mut String, buf: &Vec<Range>)
    ensures
        final(out)@ == old(out)@ + ids_text(buf@),
{
    let mut i: usize = 0;
    while i < buf.len()
        invariant
            i <= buf@.len(),
            out@ == old(out)@ + ids_text(buf@.take(i as int)),
        decreases buf@.len() - i,
    {
        proof {
            assert(buf@.take(i + 1).drop_last() =~= buf@.take(i as int));
        }
        let r = buf[i];
        if r.is_valid() {
            let id = r.get_id();
            let ghost before = out@;
            let idc = chars_of(id.as_str());
            let mut j: usize = 0;
            while j < idc.len()
                invariant
                    j <= idc@.len(),
                    out@ == before + idc@.take(j as int),
                decreases idc@.len() - j,
            {
                push_char(out, idc[j]);
                j = j + 1;
                proof {
                    assert(out@ =~= before + idc@.take(j as int));
                }
            }
            push_char(out, ',');
            proof {
                assert(idc@.take(j as int) =~= idc@);
                assert(out@ =~= old(out)@ + ids_text(buf@.take(i + 1)));
            }
        } else {
            proof {
                assert(out@ =~= old(out)@ + ids_text(buf@.take(i + 1)));
            }
        }
        i = i + 1;
    }
    proof {
        assert(buf@.take(i as int) =~= buf@);
    }
}

/// Appends the rows joined by newlines (see `rows_joined`).
fn push_rows(out: &mut String, lines: &Vec<Line>)
    ensures
        final(out)@ == old(out)@ + rows_joined(doc_of(lines@)),
{
    let ghost d = doc_of(lines@);
    let mut i: usize = 0;
    while i < lines.len()
        invariant
            d == doc_of(lines@),
            i <= lines@.len(),
            out@ == old(out)@ + rows_joined(d.take(i as int)),
        decreases lines@.len() - i,
    {
        proof {
            assert(d.take(i + 1).drop_last() =~= d.take(i as int));
            assert(d[i as int] == lines@[i as int]@);
        }
        let ghost before = out@;
        if i > 0 {
            push_char(out, '\n');
        }
        let mut j: usize = 0;
        let ghost mid = out@;
        while j < lines[i].buffer.len()
            invariant
                i < lines@.len(),
                j <= lines@[i as int]@.len(),
                out@ == mid + lines@[i as int]@.take(j as int),
            decreases lines@[i as int]@.len() - j,
        {
            push_char(out, lines[i].buffer[j]);
            j = j + 1;
            proof {
                assert(out@ =~= mid + lines@[i as int]@.take(j as int));
            }
        }
        proof {
            assert(lines@[i as int]@.take(j as int) =~= lines@[i as int]@);
            if i == 0 {
                assert(d.take(1) =~= seq![d[0]]);
                assert(out@ =~= old(out)@ + rows_joined(d.take(1)));
            } else {
                assert(out@ =~= old(out)@ + rows_joined(d.take(i + 1)));
            }
        }
        i = i + 1;
    }
    proof {
        assert(d.take(i as int) =~= d);
    }
}

/// Rows made of `rows` (see `rows_kept`), all left-aligned.
fn rows_to_lines(rows: Vec<Vec<char>>) -> (r: Vec<Line>)
    requires
        rows@.len() <= u32::MAX,
        forall|i: int| 0 <= i < rows@.len() ==> #[trigger] rows@[i]@.len() <= u32::MAX,
    ensures
        doc_of(r@) == rows_kept(rows@.map_values(|v: Vec<char>| v@)),
        1 <= r@.len() <= u32::MAX,
        rows_fit(r@),
{
    let ghost rs = rows@.map_values(|v: Vec<char>| v@);
    let mut n: usize = rows.len();
    proof {
        assert(rs.take(n as int) =~= rs);
    }
    while n > 1 && rows[n - 1].len() == 0
        invariant
            n <= rows@.len(),
            rs == rows@.map_values(|v: Vec<char>| v@),
            rows_kept(rs.take(n as int)) == rows_kept(rs),
        decreases n,
    {
        proof {
            assert(rs.take(n as int).drop_last() =~= rs.take(n - 1));
            assert(rs[n - 1] == rows@[n - 1]@);
        }
        n = n - 1;
    }
    let mut out: Vec<Line> = Vec::new();
    let mut i: usize = 0;
    let mut rows = rows;
    let ghost orig = rs;
    while i < n
        invariant
            n <= rows@.len(),
            i <= n,
            orig == rows@.map_values(|v: Vec<char>| v@),
            doc_of(out@) == orig.take(i as int),
            forall|k: int| 0 <= k < rows@.len() ==> #[trigger] rows@[k]@.len() <= u32::MAX,
            out@.len() == i,
            rows_fit(out@),
        decreases n - i,
    {
        let buffer = rows[i].clone();
        out.push(Line { buffer, alignment: Alignment::Left });
        i = i + 1;
        proof {
            assert(doc_of(out@) =~= orig.take(i as int));
        }
    }
    if out.len() == 0 {
        out.push(Line::new());
        proof {
            assert(doc_of(out@) =~= seq![Seq::<char>::empty()]);
        }
    }
    proof {
        if n > 1 {
            assert(rows_kept(orig.take(n as int)) == orig.take(n as int));
        }
    }
    out
}

impl Editor {
    /// The rows joined by newlines: the plain text format.
    pub fn encode_txt(&self) -> (r: String)
        ensures
            r@ == rows_joined(self.doc()),
    {
        let mut out = String::new();
        push_rows(&mut out, &self.lines);
        out
    }

    /// The styled text format (see `drn_text`).
    pub fn encode_drn(&self) -> (r: String)
        ensures
            r@ == drn_text(self.underline_buffer@, self.bold_buffer@, self.doc()),
    {
        let mut out = String::new();
        push_char(&mut out, '#');
        push_char(&mut out, 'u');
        push_char(&mut out, ':');
        push_char(&mut out, ' ');
        push_ids(&mut out, &self.underline_buffer);
        push_char(&mut out, '\n');
        push_char(&mut out, '#');
        push_char(&mut out, 'b');
        push_char(&mut out, ':');
        push_char(&mut out, ' ');
        push_ids(&mut out, &self.bold_buffer);
        push_char(&mut out, '\n');
        push_rows(&mut out, &self.lines);
        proof {
            assert(out@ =~= drn_text(self.underline_buffer@, self.bold_buffer@, self.doc()));
        }
        out
    }

    /// Replaces the document with `rows` and `underline`/`bold` as style buffers; the cursor
    /// goes to the start and the selection is cleared.
    fn set_document(&mut self, rows: Vec<Vec<char>>, underline: Vec<Range>, bold: Vec<Range>)
        requires
            old(self).wf(),
            rows@.len() <= u32::MAX,
            forall|i: int| 0 <= i < rows@.len() ==> #[trigger] rows@[i]@.len() <= u32::MAX,
        ensures
            final(self).wf(),
            final(self).state() == (
                rows_kept(rows@.map_values(|v: Vec<char>| v@)),
                GridPos { x: 0, y: 0 },
                Range { start: None, end: None },
            ),
            final(self).underline_buffer@ == underline@,
            final(self).bold_buffer@ == bold@,
            !final(self).dirty,
    {
        self.lines = rows_to_lines(rows);
        self.selection.reset();
        self.underline_buffer = underline;
        self.bold_buffer = bold;
        self.cursor.move_to(0, 0);
        self.dirty = false;
        proof {
            assert(self.doc()[0] == self.lines@[0]@);
        }
    }

    /// Loads plain text: one row per line, without the empty rows at the end (see
    /// `rows_kept`); no styles.
    pub fn load_txt_text(&mut self, content: &str)
        requires
            old(self).wf(),
            content@.len() < u32::MAX,
        ensures
            final(self).wf(),
            final(self).state() == (
                rows_kept(split_on(content@, '\n')),
                GridPos { x: 0, y: 0 },
                Range { start: None, end: None },
            ),
            final(self).underline_buffer@ == Seq::<Range>::empty(),
            final(self).bold_buffer@ == Seq::<Range>::empty(),
            !final(self).dirty,
    {
        let chars = chars_of(content);
        let rows = split_chars(&chars, '\n');
        proof {
            lemma_split_short(content@, '\n');
            assert forall|i: int| 0 <= i < rows@.len() implies #[trigger] rows@[i]@.len() <= u32::MAX by {
                assert(rows@.map_values(|v: Vec<char>| v@)[i] == rows@[i]@);
            }
        }
        self.set_document(rows, Vec::new(), Vec::new());
    }

    /// Loads the styled text format (see `drn_parts`).
    pub fn load_drn_text(&mut self, content: &str)
        requires
            old(self).wf(),
            content@.len() < u32::MAX,
        ensures
            final(self).wf(),
            final(self).state() == (drn_parts(content@).2, GridPos { x: 0, y: 0 }, Range { start: None, end: None }),
            final(self).underline_buffer@ == drn_parts(content@).0,
            final(self).bold_buffer@ == drn_parts(content@).1,
            !final(self).dirty,
    {
        let chars = chars_of(content);
        let mut rows = split_chars(&chars, '\n');
        let ghost ls = rows@.map_values(|v: Vec<char>| v@);
        proof {
            lemma_split_short(content@, '\n');
            assert forall|i: int| 0 <= i < rows@.len() implies #[trigger] rows@[i]@.len() <= u32::MAX by {
                assert(ls[i] == rows@[i]@);
            }
        }
        let header = rows.len() >= 2 && rows[0].len() >= 3 && rows[0][0] == '#' && rows[0][1] == 'u'
            && rows[0][2] == ':' && rows[1].len() >= 3 && rows[1][0] == '#' && rows[1][1] == 'b'
            && rows[1][2] == ':';
        if header {
            proof {
                assert(ls[0] == rows@[0]@);
                assert(ls[1] == rows@[1]@);
            }
            let underline = ranges_of_line_exec(&cut_front(&rows[0], 3));
            let bold = ranges_of_line_exec(&cut_front(&rows[1], 3));
            let body = rows.split_off(2);
            proof {
                assert(body@.map_values(|v: Vec<char>| v@) =~= ls.skip(2));
                assert forall|i: int| 0 <= i < body@.len() implies #[trigger] body@[i]@.len() <= u32::MAX by {
                    assert(ls.skip(2)[i] == body@[i]@);
                    assert(ls[i + 2] == ls.skip(2)[i]);
                }
            }
            self.set_document(body, underline, bold);
        } else {
            proof {
                if ls.len() >= 2 {
                    assert(ls[0] == rows@[0]@);
                    assert(ls[1] == rows@[1]@);
                }
            }
            self.set_document(rows, Vec::new(), Vec::new());
        }
    }
}

} // verus!
