use vstd::prelude::*;

verus! {

/// `s` with each occurrence of `pat`, scanning from the left, replaced by `rep`.
pub open spec fn replace_all(s: Seq<char>, pat: Seq<char>, rep: char) -> Seq<char>
    decreases s.len(),
{
    if s.len() == 0 {
        s
    } else if 0 < pat.len() <= s.len() && s.take(pat.len() as int) == pat {
        seq![rep] + replace_all(s.skip(pat.len() as int), pat, rep)
    } else {
        seq![s[0]] + replace_all(s.skip(1), pat, rep)
    }
}

/// The text with arrows and comparison signs drawn as single symbols: `-->` and `->`
/// become `→`, `<--` and `<-` become `←`, `!=` `≠`, `<=` `≤`, `>=` `≥`, in that order.
pub open spec fn symbols(s: Seq<char>) -> Seq<char> {
    let a = replace_all(s, seq!['-', '-', '>'], '\u{2192}');
    let b = replace_all(a, seq!['-', '>'], '\u{2192}');
    let c = replace_all(b, seq!['<', '-', '-'], '\u{2190}');
    let d = replace_all(c, seq!['<', '-'], '\u{2190}');
    let e = replace_all(d, seq!['!', '='], '\u{2260}');
    let f = replace_all(e, seq!['<', '='], '\u{2264}');
    replace_all(f, seq!['>', '='], '\u{2265}')
}

proof fn lemma_replace_shorter(s: Seq<char>, pat: Seq<char>, rep: char)
    ensures
        replace_all(s, pat, rep).len() <= s.len(),
    decreases s.len(),
{
    if s.len() > 0 {
        if 0 < pat.len() <= s.len() && s.take(pat.len() as int) == pat {
            lemma_replace_shorter(s.skip(pat.len() as int), pat, rep);
        } else {
            lemma_replace_shorter(s.skip(1), pat, rep);
        }
    }
}

pub proof fn lemma_symbols_shorter(s: Seq<char>)
    ensures
        symbols(s).len() <= s.len(),
{
    let a = replace_all(s, seq!['-', '-', '>'], '\u{2192}');
    let b = replace_all(a, seq!['-', '>'], '\u{2192}');
    let c = replace_all(b, seq!['<', '-', '-'], '\u{2190}');
    let d = replace_all(c, seq!['<', '-'], '\u{2190}');
    let e = replace_all(d, seq!['!', '='], '\u{2260}');
    let f = replace_all(e, seq!['<', '='], '\u{2264}');
    lemma_replace_shorter(s, seq!['-', '-', '>'], '\u{2192}');
    lemma_replace_shorter(a, seq!['-', '>'], '\u{2192}');
    lemma_replace_shorter(b, seq!['<', '-', '-'], '\u{2190}');
    lemma_replace_shorter(c, seq!['<', '-'], '\u{2190}');
    lemma_replace_shorter(d, seq!['!', '='], '\u{2260}');
    lemma_replace_shorter(e, seq!['<', '='], '\u{2264}');
    lemma_replace_shorter(f, seq!['>', '='], '\u{2265}');
}

/// `s` with each occurrence of `pat` replaced by `rep` (see `replace_all`).
fn replace_chars(s: &Vec<char>, pat: &Vec<char>, rep: char) -> (r: Vec<char>)
    ensures
        r@ == replace_all(s@, pat@, rep),
{
    let mut out: Vec<char> = Vec::new();
    let mut i: usize = 0;
    let n = s.len();
    proof {
        assert(s@.skip(0) =~= s@);
        assert(out@ + replace_all(s@, pat@, rep) =~= replace_all(s@, pat@, rep));
    }
    while i < n
        invariant
            n == s@.len(),
            i <= n,
            out@ + replace_all(s@.skip(i as int), pat@, rep) == replace_all(s@, pat@, rep),
        decreases n - i,
    {
        let rest = Ghost(s@.skip(i as int));
        let ghost before = out@;
        let mut matched = pat.len() > 0 && pat.len() <= n - i;
        let mut j: usize = 0;
        while matched && j < pat.len()
            invariant
                matched ==> 0 < pat@.len() <= n - i,
                !matched ==> !(0 < pat@.len() <= rest@.len() && rest@.take(pat@.len() as int) == pat@),
                rest@ == s@.skip(i as int),
                n == s@.len(),
                i < n,
                j <= pat@.len(),
                matched ==> forall|t: int| 0 <= t < j ==> s@[i + t] == pat@[t],
            decreases pat@.len() - j,
        {
            if s[i + j] != pat[j] {
                proof {
                    assert(rest@.take(pat@.len() as int)[j as int] != pat@[j as int]);
                }
                matched = false;
            }
            j = j + 1;
        }
        proof {
            if matched {
                assert(rest@.take(pat@.len() as int) =~= pat@);
            }
            assert(rest@.len() > 0);
        }
        if matched {
            out.push(rep);
            proof {
                assert(rest@.skip(pat@.len() as int) =~= s@.skip(i + pat@.len()));
                assert(replace_all(rest@, pat@, rep) == seq![rep] + replace_all(rest@.skip(pat@.len() as int), pat@, rep));
                assert(out@ + replace_all(s@.skip(i + pat@.len()), pat@, rep) =~= before + replace_all(rest@, pat@, rep));
            }
            i = i + pat.len();
        } else {
            out.push(s[i]);
            proof {
                assert(rest@.skip(1) =~= s@.skip(i + 1));
                assert(rest@[0] == s@[i as int]);
                assert(replace_all(rest@, pat@, rep) == seq![rest@[0]] + replace_all(rest@.skip(1), pat@, rep));
                assert(out@ + replace_all(s@.skip(i + 1), pat@, rep) =~= before + replace_all(rest@, pat@, rep));
            }
            i = i + 1;
        }
    }
    proof {
        assert(s@.skip(i as int) =~= Seq::<char>::empty());
        assert(out@ + Seq::<char>::empty() =~= out@);
    }
    out
}

/// The text with arrows and comparison signs drawn as single symbols (see `symbols`).
pub fn format_symbols(text: &Vec<char>) -> (r: Vec<char>)
    ensures
        r@ == symbols(text@),
        r@.len() <= text@.len(),
{
    proof {
        lemma_symbols_shorter(text@);
    }
    let a = replace_chars(text, &vec!['-', '-', '>'], '\u{2192}');
    let b = replace_chars(&a, &vec!['-', '>'], '\u{2192}');
    let c = replace_chars(&b, &vec!['<', '-', '-'], '\u{2190}');
    let d = replace_chars(&c, &vec!['<', '-'], '\u{2190}');
    let e = replace_chars(&d, &vec!['!', '='], '\u{2260}');
    let f = replace_chars(&e, &vec!['<', '='], '\u{2264}');
    replace_chars(&f, &vec!['>', '='], '\u{2265}')
}

} // verus!
