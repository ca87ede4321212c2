//! The scanner for double-quoted values with backslash escapes.

use crate::text::chars_of;
use vstd::prelude::*;
use vstd::string::*;

verus! {

/// What a backslash followed by `c` stands for: the four known escapes give
/// one character, anything else is kept as written, backslash included.
pub open spec fn unescaped(c: char) -> Seq<char> {
    if c == '"' {
        seq!['"']
    } else if c == 'n' {
        seq!['\n']
    } else if c == 't' {
        seq!['\t']
    } else if c == '\\' {
        seq!['\\']
    } else {
        seq!['\\', c]
    }
}

/// Puts `head` in front of the content of a scan result.
pub open spec fn prepend(head: Seq<char>, scanned: Option<(Seq<char>, Seq<char>)>) -> Option<
    (Seq<char>, Seq<char>),
> {
    match scanned {
        None => None,
        Some((content, rest)) => Some((head + content, rest)),
    }
}

/// The quoted value that `s` begins with, `s` starting right after the
/// opening quote: the content with escapes resolved, and the text that
/// follows the closing quote. `None` where no unescaped quote closes it.
pub open spec fn quoted(s: Seq<char>) -> Option<(Seq<char>, Seq<char>)>
    decreases s.len(),
{
    if s.len() == 0 {
        None
    } else if s[0] == '"' {
        Some((Seq::empty(), s.skip(1)))
    } else if s[0] == '\\' {
        if s.len() < 2 {
            None
        } else {
            prepend(unescaped(s[1]), quoted(s.skip(2)))
        }
    } else {
        prepend(seq![s[0]], quoted(s.skip(1)))
    }
}

proof fn lemma_prepend_twice(a: Seq<char>, b: Seq<char>, scanned: Option<(Seq<char>, Seq<char>)>)
    ensures
        prepend(a, prepend(b, scanned)) == prepend(a + b, scanned),
{
    if let Some((content, rest)) = scanned {
        assert(a + (b + content) =~= (a + b) + content);
    }
}

/// A scan consumes at least the closing quote, and what it leaves is a
/// suffix of the text.
pub proof fn lemma_quoted_rest_is_suffix(s: Seq<char>)
    ensures
        quoted(s) matches Some((_, rest)) ==> rest.len() < s.len() && rest == s.skip(
            s.len() - rest.len(),
        ),
    decreases s.len(),
{
    if s.len() == 0 {
    } else if s[0] == '"' {
    } else if s[0] == '\\' {
        if s.len() >= 2 {
            lemma_quoted_rest_is_suffix(s.skip(2));
            if let Some((_, rest)) = quoted(s.skip(2)) {
                assert(rest =~= s.skip(s.len() - rest.len()));
            }
        }
    } else {
        lemma_quoted_rest_is_suffix(s.skip(1));
        if let Some((_, rest)) = quoted(s.skip(1)) {
            assert(rest =~= s.skip(s.len() - rest.len()));
        }
    }
}

/// Scans the quoted value in `v[lo..hi]`, `lo` being the place right after
/// the opening quote. Gives the content and the place after the closing
/// quote.
pub(crate) fn scan_quoted(v: &Vec<char>, lo: usize, hi: usize) -> (r: Option<(String, usize)>)
    requires
        lo <= hi <= v.len(),
    ensures
        match r {
            None => quoted(v@.subrange(lo as int, hi as int)) is None,
            Some((content, next)) => lo < next <= hi && quoted(v@.subrange(lo as int, hi as int))
                == Some((content@, v@.subrange(next as int, hi as int))),
        },
{
    let mut out = String::new();
    let mut i: usize = lo;
    proof {
        let whole = quoted(v@.subrange(lo as int, hi as int));
        if let Some((content, rest)) = whole {
            assert(Seq::<char>::empty() + content =~= content);
        }
    }
    loop
        invariant
            lo <= i <= hi <= v.len(),
            quoted(v@.subrange(lo as int, hi as int)) == prepend(
                out@,
                quoted(v@.subrange(i as int, hi as int)),
            ),
        decreases hi - i,
    {
        if i >= hi {
            return None;
        }
        let ghost here = v@.subrange(i as int, hi as int);
        let ghost before = out@;
        let c = v[i];
        if c == '"' {
            proof {
                assert(here.skip(1) =~= v@.subrange(i as int + 1, hi as int));
                assert(before + Seq::<char>::empty() =~= before);
            }
            return Some((out, i + 1));
        } else if c == '\\' {
            if i + 1 >= hi {
                return None;
            }
            let e = v[i + 1];
            if e == '"' {
                out.push('"');
            } else if e == 'n' {
                out.push('\n');
            } else if e == 't' {
                out.push('\t');
            } else if e == '\\' {
                out.push('\\');
            } else {
                out.push('\\');
                out.push(e);
            }
            proof {
                assert(here.skip(2) =~= v@.subrange(i as int + 2, hi as int));
                assert(out@ =~= before + unescaped(e));
                lemma_prepend_twice(before, unescaped(e), quoted(here.skip(2)));
            }
            i += 2;
        } else {
            out.push(c);
            proof {
                assert(here.skip(1) =~= v@.subrange(i as int + 1, hi as int));
                assert(out@ =~= before + seq![c]);
                lemma_prepend_twice(before, seq![c], quoted(here.skip(1)));
            }
            i += 1;
        }
    }
}

/// Reads a quoted value from `s`, which starts right after the opening
/// quote. Gives the content with escapes resolved and the text after the
/// closing quote, or `None` where the text ends before an unescaped quote.
pub fn parse_quoted(s: &str) -> (r: Option<(String, &str)>)
    ensures
        match r {
            None => quoted(s@) is None,
            Some((content, rest)) => quoted(s@) == Some((content@, rest@)),
        },
{
    let v = chars_of(s);
    assert(v@.subrange(0, v@.len() as int) =~= v@);
    match scan_quoted(&v, 0, v.len()) {
        None => None,
        Some((content, next)) => Some((content, s.substring_char(next, v.len()))),
    }
}

} // verus!
