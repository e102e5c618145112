use vstd::prelude::*;

use vstd::string::StrSliceExecFns;

use crate::symbols::{format_symbols, symbols};
use crate::text::push_char;

verus! {

/// Horizontal placement of a line inside the viewport.
#[derive(Clone, Copy, PartialEq, Eq, Debug, Structural)]
pub enum Alignment {
    Left,
    Center,
    Right,
}

/// One row of the document: a sequence of single characters and its alignment.
#[derive(Clone, Debug)]
pub struct Line {
    pub buffer: Vec<char>,
    pub alignment: Alignment,
}

/// The text of each row.
pub open spec fn doc_of(lines: Seq<Line>) -> Seq<Seq<char>> {
    lines.map_values(|l: Line| l@)
}

/// The end of the run of characters satisfying `p` that ends just before `i`.
pub open spec fn run_left(s: Seq<char>, i: int, p: spec_fn(char) -> bool) -> int
    decreases i,
{
    if 0 < i <= s.len() && p(s[i - 1]) {
        run_left(s, i - 1, p)
    } else {
        i
    }
}

/// The end of the run of characters satisfying `p` that starts at `i`.
pub open spec fn run_right(s: Seq<char>, i: int, p: spec_fn(char) -> bool) -> int
    decreases s.len() - i,
{
    if 0 <= i < s.len() && p(s[i]) {
        run_right(s, i + 1, p)
    } else {
        i
    }
}

pub open spec fn jump_pred() -> spec_fn(char) -> bool {
    |c: char| is_jump_char(c)
}

pub open spec fn token_pred() -> spec_fn(char) -> bool {
    |c: char| !is_jump_char(c)
}

pub open spec fn word_pred() -> spec_fn(char) -> bool {
    |c: char| c != ' '
}

/// Where a word jump from `i` lands on each side: past the delimiters next to `i`, then
/// past the token beyond them.
pub open spec fn next_jump_spec(s: Seq<char>, i: int) -> (int, int) {
    (
        run_left(s, run_left(s, i, jump_pred()), token_pred()),
        run_right(s, run_right(s, i, jump_pred()), token_pred()),
    )
}

/// The bounds of the space-delimited word around `i`.
pub open spec fn word_at_spec(s: Seq<char>, i: int) -> (int, int) {
    (run_left(s, i, word_pred()), run_right(s, i, word_pred()))
}

/// Number of space-separated words.
pub open spec fn word_count_spec(s: Seq<char>) -> nat
    decreases s.len(),
{
    if s.len() == 0 {
        0
    } else {
        let last = s.len() - 1;
        word_count_spec(s.drop_last()) + if s[last] != ' ' && (last == 0 || s[last - 1] == ' ') {
            1nat
        } else {
            0nat
        }
    }
}

pub(crate) proof fn lemma_word_count_bound(s: Seq<char>)
    ensures
        word_count_spec(s) <= s.len(),
    decreases s.len(),
{
    if s.len() > 0 {
        lemma_word_count_bound(s.drop_last());
    }
}

pub(crate) proof fn lemma_run_left_bounds(s: Seq<char>, i: int, p: spec_fn(char) -> bool)
    requires
        0 <= i <= s.len(),
    ensures
        0 <= run_left(s, i, p) <= i,
    decreases i,
{
    if 0 < i && p(s[i - 1]) {
        lemma_run_left_bounds(s, i - 1, p);
    }
}

pub(crate) proof fn lemma_run_right_bounds(s: Seq<char>, i: int, p: spec_fn(char) -> bool)
    requires
        0 <= i <= s.len(),
    ensures
        i <= run_right(s, i, p) <= s.len(),
    decreases s.len() - i,
{
    if i < s.len() && p(s[i]) {
        lemma_run_right_bounds(s, i + 1, p);
    }
}

pub proof fn lemma_word_at_bounds(s: Seq<char>, i: int)
    requires
        0 <= i <= s.len(),
    ensures
        0 <= word_at_spec(s, i).0 <= i <= word_at_spec(s, i).1 <= s.len(),
{
    lemma_run_left_bounds(s, i, word_pred());
    lemma_run_right_bounds(s, i, word_pred());
}

/// The characters on which a word jump stops.
pub open spec fn is_jump_char(c: char) -> bool {
    c == ' ' || c == '_' || c == '-' || c == '/' || c == '(' || c == ')' || c == '['
        || c == ']' || c == '{' || c == '}' || c == '"' || c == '\''
}

pub fn jump_char(c: char) -> (r: bool)
    ensures
        r == is_jump_char(c),
{
    c == ' ' || c == '_' || c == '-' || c == '/' || c == '(' || c == ')' || c == '['
        || c == ']' || c == '{' || c == '}' || c == '"' || c == '\''
}

impl Line {
    pub open spec fn view(&self) -> Seq<char> {
        self.buffer@
    }

    pub fn new() -> (r: Line)
        ensures
            r@ == Seq::<char>::empty(),
            r.alignment == Alignment::Left,
    {
        Line { buffer: Vec::new(), alignment: Alignment::Left }
    }

    pub fn add_text(&mut self, text: &str)
        requires
            old(self)@.len() + text@.len() <= usize::MAX,
        ensures
            final(self)@ == old(self)@ + text@,
            final(self).alignment == old(self).alignment,
    {
        let n = text.unicode_len();
        let mut k: usize = 0;
        while k < n
            invariant
                n == text@.len(),
                k <= n,
                self@ == old(self)@ + text@.take(k as int),
                self.alignment == old(self).alignment,
            decreases n - k,
        {
            self.buffer.push(text.get_char(k));
            k = k + 1;
            proof {
                assert(self@ =~= old(self)@ + text@.take(k as int));
            }
        }
        proof {
            assert(text@.take(n as int) =~= text@);
        }
    }

    /// Removes every character.
    pub fn empty(&mut self)
        ensures
            final(self)@ == Seq::<char>::empty(),
            final(self).alignment == old(self).alignment,
    {
        self.buffer.clear();
    }

    pub fn is_empty(&self) -> (r: bool)
        ensures
            r == (self@.len() == 0),
    {
        self.buffer.len() == 0
    }

    pub fn set_alignment(&mut self, alignment: Alignment)
        ensures
            final(self)@ == old(self)@,
            final(self).alignment == alignment,
    {
        self.alignment = alignment;
    }

    pub fn get_text(&self) -> (r: String)
        ensures
            r@ == self@,
    {
        let mut out = String::new();
        let mut k: usize = 0;
        while k < self.buffer.len()
            invariant
                k <= self@.len(),
                out@ == self@.take(k as int),
            decreases self@.len() - k,
        {
            push_char(&mut out, self.buffer[k]);
            k = k + 1;
            proof {
                assert(out@ =~= self@.take(k as int));
            }
        }
        proof {
            assert(self@.take(k as int) =~= self@);
        }
        out
    }

    pub fn get_word_count(&self) -> (r: u32)
        requires
            self@.len() <= u32::MAX,
        ensures
            r == word_count_spec(self@),
    {
        let mut count: u32 = 0;
        let mut k: usize = 0;
        while k < self.buffer.len()
            invariant
                k <= self@.len() <= u32::MAX,
                count == word_count_spec(self@.take(k as int)),
                count <= k,
            decreases self@.len() - k,
        {
            proof {
                assert(self@.take(k + 1).drop_last() =~= self@.take(k as int));
            }
            if self.buffer[k] != ' ' && (k == 0 || self.buffer[k - 1] == ' ') {
                count = count + 1;
            }
            k = k + 1;
        }
        proof {
            assert(self@.take(k as int) =~= self@);
        }
        count
    }

    /// The bounds of the space-delimited word around column `index`.
    pub fn get_word_at(&self, index: u32) -> (r: (u32, u32))
        requires
            index <= self@.len() <= u32::MAX,
        ensures
            r.0 == word_at_spec(self@, index as int).0,
            r.1 == word_at_spec(self@, index as int).1,
    {
        let mut start: u32 = index;
        let mut end: u32 = index;
        while start > 0 && self.buffer[start as usize - 1] != ' '
            invariant
                start <= index,
                index <= self@.len() <= u32::MAX,
                run_left(self@, start as int, word_pred()) == run_left(self@, index as int, word_pred()),
            decreases start,
        {
            start = start - 1;
        }
        while end < self.buffer.len() as u32 && self.buffer[end as usize] != ' '
            invariant
                index <= end <= self@.len() <= u32::MAX,
                run_right(self@, end as int, word_pred()) == run_right(self@, index as int, word_pred()),
            decreases self@.len() - end,
        {
            end = end + 1;
        }
        (start, end)
    }

    /// Where a word jump from column `index` lands: to the left, then to the right.
    pub fn get_next_jump(&self, index: u32) -> (r: (u32, u32))
        requires
            index <= self@.len() <= u32::MAX,
        ensures
            r.0 == next_jump_spec(self@, index as int).0,
            r.1 == next_jump_spec(self@, index as int).1,
            r.0 <= index <= r.1 <= self@.len(),
    {
        let max_indices = self.buffer.len() as u32;
        let mut start: u32 = index;
        let mut end: u32 = index;
        while start > 0 && jump_char(self.buffer[start as usize - 1])
            invariant
                start <= index <= self@.len() <= u32::MAX,
                run_left(self@, start as int, jump_pred()) == run_left(self@, index as int, jump_pred()),
            decreases start,
        {
            start = start - 1;
        }
        let ghost mid_left = start as int;
        while end < max_indices && jump_char(self.buffer[end as usize])
            invariant
                max_indices == self@.len(),
                index <= end <= self@.len() <= u32::MAX,
                run_right(self@, end as int, jump_pred()) == run_right(self@, index as int, jump_pred()),
            decreases self@.len() - end,
        {
            end = end + 1;
        }
        let ghost mid_right = end as int;
        while start > 0 && !jump_char(self.buffer[start as usize - 1])
            invariant
                start <= mid_left <= index <= self@.len() <= u32::MAX,
                mid_left == run_left(self@, index as int, jump_pred()),
                run_left(self@, start as int, token_pred()) == run_left(self@, mid_left, token_pred()),
            decreases start,
        {
            start = start - 1;
        }
        while end < max_indices && !jump_char(self.buffer[end as usize])
            invariant
                max_indices == self@.len(),
                index <= mid_right <= end <= self@.len() <= u32::MAX,
                mid_right == run_right(self@, index as int, jump_pred()),
                run_right(self@, end as int, token_pred()) == run_right(self@, mid_right, token_pred()),
            decreases self@.len() - end,
        {
            end = end + 1;
        }
        (start, end)
    }

    /// Draws arrows and comparison signs as single symbols (see `symbols`); returns by how
    /// many characters the row got shorter.
    pub fn update_text_layout(&mut self) -> (diff: u32)
        requires
            old(self)@.len() <= u32::MAX,
        ensures
            final(self)@ == symbols(old(self)@),
            final(self).alignment == old(self).alignment,
            diff == old(self)@.len() - final(self)@.len(),
    {
        let formatted = format_symbols(&self.buffer);
        let diff = (self.buffer.len() - formatted.len()) as u32;
        self.buffer = formatted;
        diff
    }
}

} // verus!
