use vstd::prelude::*;
use vstd::string::StrSliceExecFns;

use crate::text::{char_string, push_char};

verus! {

/// One lexical item of a script.
#[derive(Clone, Debug, PartialEq)]
pub enum LexerItem {
    Operator(String),
    Separator(String),
    Literal(String),
    NewLine,
}

/// What a lexical item holds, with its text as characters.
pub enum Lexeme {
    Operator(Seq<char>),
    Separator(Seq<char>),
    Literal(Seq<char>),
    NewLine,
}

impl View for LexerItem {
    type V = Lexeme;

    open spec fn view(&self) -> Lexeme {
        match self {
            LexerItem::Operator(s) => Lexeme::Operator(s@),
            LexerItem::Separator(s) => Lexeme::Separator(s@),
            LexerItem::Literal(s) => Lexeme::Literal(s@),
            LexerItem::NewLine => Lexeme::NewLine,
        }
    }
}

impl LexerItem {
    /// A copy of the item.
    pub fn duplicate(&self) -> (r: LexerItem)
        ensures
            r == *self,
    {
        match self {
            LexerItem::Operator(s) => LexerItem::Operator(s.clone()),
            LexerItem::Separator(s) => LexerItem::Separator(s.clone()),
            LexerItem::Literal(s) => LexerItem::Literal(s.clone()),
            LexerItem::NewLine => LexerItem::NewLine,
        }
    }
}

/// Characters that extend the current word.
pub open spec fn is_word_char(c: char) -> bool {
    ('A' <= c && c <= 'z') || ('0' <= c && c <= '9')
}

pub open spec fn is_separator_char(c: char) -> bool {
    c == '(' || c == ')' || c == '{' || c == '}' || c == '.'
}

pub open spec fn is_quote_char(c: char) -> bool {
    c == '"' || c == '\''
}

pub open spec fn is_operator_char(c: char) -> bool {
    c == '=' || c == '+' || c == '-' || c == '*' || c == '/' || c == '%'
}

/// The characters that a script may hold.
pub open spec fn is_script_char(c: char) -> bool {
    is_word_char(c) || is_separator_char(c) || is_quote_char(c) || is_operator_char(c) || c == ' '
        || c == '\n'
}

/// The state of a scan: the items so far, the pending word, and whether a quote is open.
pub type ScanState = (Seq<Lexeme>, Seq<char>, bool);

/// Emits the pending word, if it is not empty.
pub open spec fn flush(st: ScanState) -> ScanState {
    if st.1.len() == 0 {
        st
    } else {
        (st.0.push(Lexeme::Literal(st.1)), Seq::empty(), st.2)
    }
}

/// The scan state after reading `c`.
pub open spec fn scan_step(st: ScanState, c: char) -> ScanState {
    if is_word_char(c) {
        (st.0, st.1.push(c), st.2)
    } else if is_separator_char(c) {
        let f = flush(st);
        (f.0.push(Lexeme::Separator(seq![c])), f.1, f.2)
    } else if is_quote_char(c) {
        if !st.2 {
            (st.0.push(Lexeme::Separator(seq![c])), st.1, true)
        } else {
            (st.0.push(Lexeme::Literal(st.1)).push(Lexeme::Separator(seq![c])), Seq::empty(), false)
        }
    } else if is_operator_char(c) {
        let f = flush(st);
        (f.0.push(Lexeme::Operator(seq![c])), f.1, f.2)
    } else if c == ' ' {
        if st.2 {
            (st.0, st.1.push(c), st.2)
        } else {
            flush(st)
        }
    } else {
        let f = flush(st);
        (f.0.push(Lexeme::NewLine), f.1, f.2)
    }
}

/// The scan state after reading all of `s`.
pub open spec fn scan_all(st: ScanState, s: Seq<char>) -> ScanState
    decreases s.len(),
{
    if s.len() == 0 {
        st
    } else {
        scan_step(scan_all(st, s.drop_last()), s.last())
    }
}

/// Splits script text into items.
pub struct Lexer {
    result: Vec<LexerItem>,
    temp: String,
    temp_is_string: bool,
}

impl Lexer {
    pub closed spec fn state(&self) -> ScanState {
        (self.result@.map_values(|i: LexerItem| i@), self.temp@, self.temp_is_string)
    }

    pub fn new() -> (r: Lexer)
        ensures
            r.state() == (Seq::<Lexeme>::empty(), Seq::<char>::empty(), false),
    {
        let r = Lexer { result: Vec::new(), temp: String::new(), temp_is_string: false };
        proof {
            assert(r.result@.map_values(|i: LexerItem| i@) =~= Seq::<Lexeme>::empty());
        }
        r
    }

    fn flush_temp(&mut self)
        ensures
            final(self).state() == flush(old(self).state()),
    {
        if self.temp.unicode_len() == 0 {
            return;
        }
        self.flush_temp_even_empty();
    }

    fn flush_temp_even_empty(&mut self)
        ensures
            final(self).state() == (
                old(self).state().0.push(Lexeme::Literal(old(self).temp@)),
                Seq::<char>::empty(),
                old(self).temp_is_string,
            ),
    {
        let word = self.temp.clone();
        self.result.push(LexerItem::Literal(word));
        self.temp = String::new();
        proof {
            assert(self.result@.map_values(|i: LexerItem| i@) =~= old(self).result@.map_values(
                |i: LexerItem| i@,
            ).push(Lexeme::Literal(old(self).temp@)));
        }
    }

    fn push_item(&mut self, item: LexerItem)
        ensures
            final(self).state() == (old(self).state().0.push(item@), old(self).state().1, old(
                self,
            ).state().2),
    {
        self.result.push(item);
        proof {
            assert(self.result@.map_values(|i: LexerItem| i@) =~= old(self).result@.map_values(
                |i: LexerItem| i@,
            ).push(item@));
        }
    }

    /// Reads `input` and returns every item found since this lexer was made, the pending
    /// word flushed at the end.
    pub fn scan(&mut self, input: &str) -> (r: Vec<LexerItem>)
        requires
            forall|i: int| 0 <= i < input@.len() ==> is_script_char(#[trigger] input@[i]),
        ensures
            final(self).state() == flush(scan_all(old(self).state(), input@)),
            r@.map_values(|i: LexerItem| i@) == final(self).state().0,
    {
        let n = input.unicode_len();
        let mut k: usize = 0;
        while k < n
            invariant
                n == input@.len(),
                k <= n,
                forall|i: int| 0 <= i < input@.len() ==> is_script_char(#[trigger] input@[i]),
                self.state() == scan_all(old(self).state(), input@.take(k as int)),
            decreases n - k,
        {
            let c = input.get_char(k);
            proof {
                assert(input@.take(k + 1).drop_last() =~= input@.take(k as int));
            }
            if ('A' <= c && c <= 'z') || ('0' <= c && c <= '9') {
                push_char(&mut self.temp, c);
            } else if c == '(' || c == ')' || c == '{' || c == '}' || c == '.' {
                self.flush_temp();
                self.push_item(LexerItem::Separator(char_string(c)));
            } else if c == '"' || c == '\'' {
                if !self.temp_is_string {
                    self.temp_is_string = true;
                } else {
                    self.flush_temp_even_empty();
                    self.temp_is_string = false;
                }
                self.push_item(LexerItem::Separator(char_string(c)));
            } else if c == '=' || c == '+' || c == '-' || c == '*' || c == '/' || c == '%' {
                self.flush_temp();
                self.push_item(LexerItem::Operator(char_string(c)));
            } else if c == ' ' {
                if self.temp_is_string {
                    push_char(&mut self.temp, c);
                } else {
                    self.flush_temp();
                }
            } else {
                self.flush_temp();
                self.push_item(LexerItem::NewLine);
            }
            k = k + 1;
        }
        proof {
            assert(input@.take(n as int) =~= input@);
        }
        self.flush_temp();
        let mut out: Vec<LexerItem> = Vec::new();
        let mut j: usize = 0;
        while j < self.result.len()
            invariant
                j <= self.result@.len(),
                out@ =~= self.result@.take(j as int),
            decreases self.result@.len() - j,
        {
            out.push(self.result[j].duplicate());
            j = j + 1;
        }
        proof {
            assert(out@ =~= self.result@);
        }
        out
    }
}

} // verus!
