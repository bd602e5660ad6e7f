//! Plain-text helpers shared by the task grammar and the filter predicates:
//! conversion between strings and character vectors, lower-casing, splitting a
//! line into space-separated words, joining words back, and substring search.

use vstd::prelude::*;

verus! {

/// Relies on str::chars: yields the characters of the string in order.
#[verifier::external_body]
pub fn chars_of(s: &str) -> (r: Vec<char>)
    ensures
        r@ == s@,
{
    s.chars().collect()
}

/// Relies on String's FromIterator<char> impl: collecting characters builds
/// the string of exactly those characters in order.
#[verifier::external_body]
pub fn string_of(v: &Vec<char>) -> (r: String)
    ensures
        r@ == v@,
{
    v.iter().collect()
}

/// Whether the Unicode tables count the character as alphanumeric: what
/// char::is_alphanumeric returns, a property of the character alone.
pub uninterp spec fn spec_unicode_alnum(c: char) -> bool;

/// Relies on char::is_alphanumeric: a fixed Unicode character property.
#[verifier::external_body]
pub fn unicode_alnum(c: char) -> (r: bool)
    ensures
        r == spec_unicode_alnum(c),
{
    c.is_alphanumeric()
}

/// Whether the Unicode tables count the character as whitespace: what
/// char::is_whitespace returns, a property of the character alone.
pub uninterp spec fn spec_unicode_space(c: char) -> bool;

/// Relies on char::is_whitespace: a fixed Unicode character property.
#[verifier::external_body]
pub fn unicode_space(c: char) -> (r: bool)
    ensures
        r == spec_unicode_space(c),
{
    c.is_whitespace()
}

/// What str::to_lowercase returns: a function of the characters alone.
pub uninterp spec fn lower_of(s: Seq<char>) -> Seq<char>;

/// Relies on str::to_lowercase: the result depends on the characters alone,
/// and the lowercase form of the empty string is empty.
#[verifier::external_body]
pub fn lowercase(s: &str) -> (r: String)
    ensures
        r@ == lower_of(s@),
        s@.len() == 0 ==> r@.len() == 0,
{
    s.to_lowercase()
}

/// Index of the first space at or after `i`, or the length of `s`.
pub open spec fn spec_word_end(s: Seq<char>, i: int) -> int
    decreases s.len() - i,
{
    if i < 0 || i >= s.len() {
        s.len() as int
    } else if s[i] == ' ' {
        i
    } else {
        spec_word_end(s, i + 1)
    }
}

pub proof fn lemma_word_end(s: Seq<char>, i: int)
    requires
        0 <= i <= s.len(),
    ensures
        i <= spec_word_end(s, i) <= s.len(),
        forall|j: int| i <= j < spec_word_end(s, i) ==> s[j] != ' ',
        spec_word_end(s, i) < s.len() ==> s[spec_word_end(s, i)] == ' ',
        i < s.len() && s[i] != ' ' ==> spec_word_end(s, i) > i,
    decreases s.len() - i,
{
    if i < s.len() && s[i] != ' ' {
        lemma_word_end(s, i + 1);
    }
}

/// The space-separated words of `s`, scanning from index `i`; runs of spaces
/// are skipped, so every word is non-empty and space-free.
pub open spec fn spec_words_from(s: Seq<char>, i: int) -> Seq<Seq<char>>
    decreases s.len() - i,
    when 0 <= i
    via spec_words_from_decreases
{
    if i >= s.len() {
        Seq::empty()
    } else if s[i] == ' ' {
        spec_words_from(s, i + 1)
    } else {
        seq![s.subrange(i, spec_word_end(s, i))] + spec_words_from(s, spec_word_end(s, i))
    }
}

#[via_fn]
proof fn spec_words_from_decreases(s: Seq<char>, i: int) {
    if 0 <= i < s.len() && s[i] != ' ' {
        lemma_word_end(s, i);
    }
}

pub open spec fn spec_words(s: Seq<char>) -> Seq<Seq<char>> {
    spec_words_from(s, 0)
}

fn word_end(v: &Vec<char>, i: usize) -> (r: usize)
    requires
        i <= v@.len(),
    ensures
        r == spec_word_end(v@, i as int),
        i <= r <= v@.len(),
{
    let mut j: usize = i;
    while j < v.len()
        invariant
            i <= j <= v@.len(),
            spec_word_end(v@, j as int) == spec_word_end(v@, i as int),
            forall|k: int| i <= k < j ==> v@[k] != ' ',
        decreases v@.len() - j,
    {
        if v[j] == ' ' {
            proof {
                lemma_word_end(v@, i as int);
            }
            return j;
        }
        j = j + 1;
    }
    proof {
        lemma_word_end(v@, i as int);
    }
    j
}

/// Split a line into its space-separated words.
pub fn split_words(v: &Vec<char>) -> (r: Vec<Vec<char>>)
    ensures
        r.deep_view() == spec_words(v@),
{
    let mut out: Vec<Vec<char>> = Vec::new();
    let mut i: usize = 0;
    while i < v.len()
        invariant
            i <= v@.len(),
            out.deep_view() + spec_words_from(v@, i as int) == spec_words(v@),
        decreases v@.len() - i,
    {
        if v[i] == ' ' {
            i = i + 1;
        } else {
            let k = word_end(v, i);
            proof {
                lemma_word_end(v@, i as int);
            }
            let mut w: Vec<char> = Vec::new();
            let mut j: usize = i;
            while j < k
                invariant
                    i <= j <= k <= v@.len(),
                    w@ == v@.subrange(i as int, j as int),
                decreases k - j,
            {
                w.push(v[j]);
                proof {
                    assert(w@ =~= v@.subrange(i as int, j + 1 as int));
                }
                j = j + 1;
            }
            let ghost prev = out.deep_view();
            let ghost prev_raw = out@;
            out.push(w);
            proof {
                assert(out@ == prev_raw.push(w));
                assert forall|q: int| 0 <= q < out.deep_view().len() implies out.deep_view()[q]
                    == prev.push(w@)[q] by {}
                assert(out.deep_view() =~= prev.push(w@));
                assert(out.deep_view() + spec_words_from(v@, k as int) =~= spec_words(v@));
            }
            i = k;
        }
    }
    proof {
        assert(out.deep_view() =~= spec_words(v@));
    }
    out
}

/// The words joined by single spaces, taking the first `j` words.
pub open spec fn spec_join_upto(ws: Seq<Seq<char>>, j: int) -> Seq<char>
    decreases j,
{
    if j <= 0 {
        Seq::empty()
    } else if j == 1 {
        ws[0]
    } else {
        spec_join_upto(ws, j - 1) + seq![' '] + ws[j - 1]
    }
}

pub open spec fn spec_join(ws: Seq<Seq<char>>) -> Seq<char> {
    spec_join_upto(ws, ws.len() as int)
}

/// Join words with single spaces between them.
pub fn join_words(ws: &Vec<Vec<char>>) -> (r: Vec<char>)
    ensures
        r@ == spec_join(ws.deep_view()),
{
    let mut out: Vec<char> = Vec::new();
    let mut j: usize = 0;
    while j < ws.len()
        invariant
            j <= ws@.len(),
            out@ == spec_join_upto(ws.deep_view(), j as int),
            ws.deep_view().len() == ws@.len(),
        decreases ws@.len() - j,
    {
        let ghost prev = out@;
        if j > 0 {
            out.push(' ');
        }
        let w = &ws[j];
        let mut p: usize = 0;
        while p < w.len()
            invariant
                p <= w@.len(),
                j < ws@.len(),
                ws.deep_view().len() == ws@.len(),
                ws.deep_view()[j as int] == ws@[j as int]@,
                out@ == (if j > 0 {
                    prev.push(' ')
                } else {
                    prev
                }) + w@.subrange(0, p as int),
            decreases w@.len() - p,
        {
            out.push(w[p]);
            proof {
                assert(w@.subrange(0, p + 1 as int) =~= w@.subrange(0, p as int).push(w@[p as int]));
            }
            p = p + 1;
        }
        proof {
            assert(w@.subrange(0, w@.len() as int) =~= w@);
            if j > 0 {
                assert(out@ =~= spec_join_upto(ws.deep_view(), j as int) + seq![' '] + ws.deep_view()[j as int]);
            } else {
                assert(out@ =~= ws.deep_view()[0]);
            }
        }
        j = j + 1;
    }
    proof {
        if ws.deep_view().len() == 0 {
            assert(out@ =~= spec_join(ws.deep_view()));
        }
    }
    out
}

/// `needle` occurs in `hay` starting at position `i`.
pub open spec fn spec_matches_at(hay: Seq<char>, needle: Seq<char>, i: int) -> bool {
    0 <= i && i + needle.len() <= hay.len() && hay.subrange(i, i + needle.len()) == needle
}

/// `needle` occurs somewhere in `hay`.
pub open spec fn spec_contains(hay: Seq<char>, needle: Seq<char>) -> bool {
    exists|i: int| spec_matches_at(hay, needle, i)
}

fn matches_at(hay: &Vec<char>, needle: &Vec<char>, i: usize) -> (r: bool)
    requires
        i + needle@.len() <= hay@.len(),
    ensures
        r == spec_matches_at(hay@, needle@, i as int),
{
    let mut j: usize = 0;
    while j < needle.len()
        invariant
            j <= needle@.len(),
            i + needle@.len() <= hay@.len(),
            forall|k: int| 0 <= k < j ==> hay@[i + k] == needle@[k],
        decreases needle@.len() - j,
    {
        let n = hay.len();
        assert(i + j < n);
        if hay[i + j] != needle[j] {
            proof {
                assert(hay@.subrange(i as int, i + needle@.len())[j as int] == hay@[i + j]);
            }
            return false;
        }
        j = j + 1;
    }
    proof {
        assert(hay@.subrange(i as int, i + needle@.len()) =~= needle@);
    }
    true
}

/// Substring search; true exactly when `needle` occurs in `hay`. The empty
/// needle occurs in every haystack.
pub fn contains_chars(hay: &Vec<char>, needle: &Vec<char>) -> (r: bool)
    ensures
        r == spec_contains(hay@, needle@),
{
    if needle.len() > hay.len() {
        proof {
            assert forall|i: int| !spec_matches_at(hay@, needle@, i) by {}
        }
        return false;
    }
    let last: usize = hay.len() - needle.len();
    let mut i: usize = 0;
    loop
        invariant
            i <= last,
            needle@.len() <= hay@.len(),
            last == hay@.len() - needle@.len(),
            forall|k: int| 0 <= k < i ==> !spec_matches_at(hay@, needle@, k),
        decreases last - i,
    {
        if matches_at(hay, needle, i) {
            return true;
        }
        if i == last {
            proof {
                assert forall|k: int| !spec_matches_at(hay@, needle@, k) by {
                    if 0 <= k <= last {
                        assert(!spec_matches_at(hay@, needle@, k));
                    }
                }
            }
            return false;
        }
        i = i + 1;
    }
}

} // verus!
