//! Characters and strings: whitespace trimming, the sentence-end test and
//! first-letter case folding, all stated over a string's view as a sequence
//! of characters.

use vstd::prelude::*;
use vstd::string::*;

verus! {

/// Whether `c` has the Unicode property `White_Space`: the controls from
/// tab to carriage return, the space, the next-line control, the no-break
/// space, the Ogham space mark, the spaces from en quad to hair space, the
/// line and the paragraph separator, the narrow no-break space, the medium
/// mathematical space and the ideographic space.
pub open spec fn is_white_space(c: char) -> bool {
    let n = c as u32;
    ||| 0x09 <= n <= 0x0d
    ||| n == 0x20
    ||| n == 0x85
    ||| n == 0xa0
    ||| n == 0x1680
    ||| 0x2000 <= n <= 0x200a
    ||| 0x2028 <= n <= 0x2029
    ||| n == 0x202f
    ||| n == 0x205f
    ||| n == 0x3000
}

/// The lowercase mapping of `c`: one character or more.
pub uninterp spec fn lowercase_of(c: char) -> Seq<char>;

/// The uppercase mapping of `c`: one character or more.
pub uninterp spec fn uppercase_of(c: char) -> Seq<char>;

/// `char::is_whitespace` tells whether a character has the Unicode
/// property `White_Space`; the contract lists the code points that have it.
pub assume_specification[ char::is_whitespace ](c: char) -> (b: bool)
    ensures
        b == is_white_space(c),
;

/// `String::push` appends one character to the end of the string.
pub assume_specification[ String::push ](s: &mut String, c: char)
    ensures
        final(s)@ == old(s)@.push(c),
;

/// `char::to_lowercase` yields the lowercase mapping of a character as one
/// or more characters; they are collected in the order in which they come.
/// The contract only names that text.
#[verifier::external_body]
pub(crate) fn lowercase(c: char) -> (s: String)
    ensures
        s@ == lowercase_of(c),
{
    c.to_lowercase().collect()
}

/// `char::to_uppercase` yields the uppercase mapping of a character as one
/// or more characters; they are collected in the order in which they come.
/// The contract only names that text.
#[verifier::external_body]
pub(crate) fn uppercase(c: char) -> (s: String)
    ensures
        s@ == uppercase_of(c),
{
    c.to_uppercase().collect()
}

/// `s` without its leading whitespace.
pub open spec fn trimmed_start(s: Seq<char>) -> Seq<char>
    decreases s.len(),
{
    if s.len() > 0 && is_white_space(s.first()) {
        trimmed_start(s.drop_first())
    } else {
        s
    }
}

/// `s` without its trailing whitespace.
pub open spec fn trimmed_end(s: Seq<char>) -> Seq<char>
    decreases s.len(),
{
    if s.len() > 0 && is_white_space(s.last()) {
        trimmed_end(s.drop_last())
    } else {
        s
    }
}

/// `s` without leading and trailing whitespace.
pub open spec fn trimmed(s: Seq<char>) -> Seq<char> {
    trimmed_end(trimmed_start(s))
}

/// Whether the last character of `s` that is not whitespace is a period.
pub open spec fn ends_with_period(s: Seq<char>) -> bool {
    trimmed_end(s).len() > 0 && trimmed_end(s).last() == '.'
}

/// `s` with its first character replaced by that character's lowercase
/// mapping; the empty text stays empty.
pub open spec fn lower_first(s: Seq<char>) -> Seq<char> {
    if s.len() == 0 {
        s
    } else {
        lowercase_of(s.first()) + s.drop_first()
    }
}

/// `s` with its first character replaced by that character's uppercase
/// mapping; the empty text stays empty.
pub open spec fn upper_first(s: Seq<char>) -> Seq<char> {
    if s.len() == 0 {
        s
    } else {
        uppercase_of(s.first()) + s.drop_first()
    }
}

/// Trimming the start leaves the rest of the text from its first character
/// that is not whitespace: what is taken away is whitespace, all of it.
pub proof fn lemma_trimmed_start(s: Seq<char>)
    ensures
        trimmed_start(s).len() <= s.len(),
        trimmed_start(s) == s.skip(s.len() - trimmed_start(s).len()),
        forall|j: int| 0 <= j < s.len() - trimmed_start(s).len() ==> is_white_space(#[trigger] s[j]),
        trimmed_start(s).len() > 0 ==> !is_white_space(trimmed_start(s).first()),
    decreases s.len(),
{
    let t = trimmed_start(s);
    if s.len() > 0 && is_white_space(s.first()) {
        let rest = s.drop_first();
        lemma_trimmed_start(rest);
        assert(t =~= s.skip(s.len() - t.len()));
        assert forall|j: int| 0 <= j < s.len() - t.len() implies is_white_space(#[trigger] s[j]) by {
            if j > 0 {
                assert(s[j] == rest[j - 1]);
            }
        }
    } else {
        assert(s =~= s.skip(0));
    }
}

/// Trimming the end leaves the text up to its last character that is not
/// whitespace: what is taken away is whitespace, all of it.
pub proof fn lemma_trimmed_end(s: Seq<char>)
    ensures
        trimmed_end(s).len() <= s.len(),
        trimmed_end(s) == s.take(trimmed_end(s).len() as int),
        forall|j: int| trimmed_end(s).len() <= j < s.len() ==> is_white_space(#[trigger] s[j]),
        trimmed_end(s).len() > 0 ==> !is_white_space(trimmed_end(s).last()),
    decreases s.len(),
{
    let t = trimmed_end(s);
    if s.len() > 0 && is_white_space(s.last()) {
        let rest = s.drop_last();
        lemma_trimmed_end(rest);
        assert(t =~= s.take(t.len() as int));
        assert forall|j: int| t.len() <= j < s.len() implies is_white_space(#[trigger] s[j]) by {
            if j < s.len() - 1 {
                assert(s[j] == rest[j]);
            }
        }
    } else {
        assert(s =~= s.take(s.len() as int));
    }
}

/// The characters of `s`, in order.
pub(crate) fn chars_of(s: &str) -> (v: Vec<char>)
    ensures
        v@ == s@,
{
    let mut v: Vec<char> = Vec::new();
    for c in it: s.chars()
        invariant
            v@ == it.seq().take(it.index() as int),
            it.seq() == s@,
    {
        v.push(c);
    }
    v
}

/// The bounds of what is left of `v[lo..hi]` once leading and trailing
/// whitespace is gone.
pub(crate) fn trim_bounds(v: &Vec<char>, lo: usize, hi: usize) -> (r: (usize, usize))
    requires
        lo <= hi <= v.len(),
    ensures
        lo <= r.0 <= r.1 <= hi,
        v@.subrange(r.0 as int, r.1 as int) == trimmed(v@.subrange(lo as int, hi as int)),
{
    let mut a: usize = lo;
    while a < hi && v[a].is_whitespace()
        invariant
            lo <= a <= hi <= v.len(),
            trimmed_start(v@.subrange(lo as int, hi as int)) == trimmed_start(
                v@.subrange(a as int, hi as int),
            ),
        decreases hi - a,
    {
        assert(v@.subrange(a as int, hi as int).drop_first() =~= v@.subrange(
            a as int + 1,
            hi as int,
        ));
        a += 1;
    }
    let b = trim_end_bound(v, a, hi);
    (a, b)
}

/// The end of what is left of `v[lo..hi]` once trailing whitespace is gone.
pub(crate) fn trim_end_bound(v: &Vec<char>, lo: usize, hi: usize) -> (b: usize)
    requires
        lo <= hi <= v.len(),
    ensures
        lo <= b <= hi,
        v@.subrange(lo as int, b as int) == trimmed_end(v@.subrange(lo as int, hi as int)),
{
    let mut b: usize = hi;
    while b > lo && v[b - 1].is_whitespace()
        invariant
            lo <= b <= hi <= v.len(),
            trimmed_end(v@.subrange(lo as int, hi as int)) == trimmed_end(
                v@.subrange(lo as int, b as int),
            ),
        decreases b,
    {
        assert(v@.subrange(lo as int, b as int).drop_last() =~= v@.subrange(
            lo as int,
            b as int - 1,
        ));
        b -= 1;
    }
    b
}

/// `s` without leading and trailing whitespace.
pub fn trim(s: &str) -> (r: &str)
    ensures
        r@ == trimmed(s@),
{
    let v = chars_of(s);
    let (a, b) = trim_bounds(&v, 0, v.len());
    assert(v@.subrange(0, v@.len() as int) =~= v@);
    s.substring_char(a, b)
}

/// Whether the last character of `s` that is not whitespace is a period.
pub fn closes_sentence(s: &str) -> (r: bool)
    ensures
        r == ends_with_period(s@),
{
    let v = chars_of(s);
    let b = trim_end_bound(&v, 0, v.len());
    assert(v@.subrange(0, v@.len() as int) =~= v@);
    b > 0 && v[b - 1] == '.'
}

} // verus!
