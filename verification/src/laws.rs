//! The library's cross-function laws, stated and proved over the spec-level
//! grammar: joining well-formed words splits back to the same words, and
//! parsing a serialized parse result yields the same record.

use vstd::prelude::*;

use crate::date::Date;
use crate::date::spec_parse_date;
use crate::recurrence::Recurrence;
use crate::task::ScanState;
use crate::task::TaskView;
use crate::task::spec_scan;
use crate::task::spec_scan_init;
use crate::task::spec_scan_step;
use crate::task::spec_is_kv;
use crate::task::spec_kv_key;
use crate::task::spec_kv_value;
use crate::text::spec_join;
use crate::text::spec_join_upto;
use crate::text::spec_word_end;
use crate::text::spec_words;
use crate::text::spec_words_from;
use crate::text::lemma_word_end;

verus! {

/// A word that survives the line format: non-empty and without spaces.
pub open spec fn spec_good_word(w: Seq<char>) -> bool {
    w.len() > 0 && (forall|k: int| 0 <= k < w.len() ==> w[k] != ' ')
}

pub open spec fn spec_good_words(ws: Seq<Seq<char>>) -> bool {
    forall|i: int| 0 <= i < ws.len() ==> spec_good_word(#[trigger] ws[i])
}

/// The words a split yields are non-empty and space-free.
pub proof fn lemma_words_good(s: Seq<char>, i: int)
    requires
        0 <= i,
    ensures
        spec_good_words(spec_words_from(s, i)),
    decreases s.len() - i,
{
    if i < s.len() {
        if s[i] == ' ' {
            lemma_words_good(s, i + 1);
        } else {
            lemma_word_end(s, i);
            lemma_words_good(s, spec_word_end(s, i));
            let w = s.subrange(i, spec_word_end(s, i));
            assert(spec_good_word(w));
            let rest = spec_words_from(s, spec_word_end(s, i));
            assert forall|q: int|
                0 <= q < spec_words_from(s, i).len() implies spec_good_word(
                #[trigger] spec_words_from(s, i)[q],
            ) by {
                if q > 0 {
                    assert(spec_words_from(s, i)[q] == rest[q - 1]);
                }
            }
        }
    }
}

/// The first space at or after `i` in a concatenation whose left part is
/// already behind: positions shift by the left part's length.
pub proof fn lemma_word_end_shift(a: Seq<char>, b: Seq<char>, k: int)
    requires
        0 <= k <= b.len(),
    ensures
        spec_word_end(a + b, a.len() + k) == a.len() + spec_word_end(b, k),
    decreases b.len() - k,
{
    let s = a + b;
    if k < b.len() {
        assert(s[a.len() + k] == b[k]);
        if b[k] != ' ' {
            lemma_word_end_shift(a, b, k + 1);
        }
    }
}

/// Splitting only looks forward: past the left part of a concatenation it
/// sees exactly the right part's words.
pub proof fn lemma_words_from_shift(a: Seq<char>, b: Seq<char>, k: int)
    requires
        0 <= k <= b.len(),
    ensures
        spec_words_from(a + b, a.len() + k) == spec_words_from(b, k),
    decreases b.len() - k,
{
    let s = a + b;
    if k >= b.len() {
        assert(spec_words_from(s, a.len() + k) =~= Seq::<Seq<char>>::empty());
        assert(spec_words_from(b, k) =~= Seq::<Seq<char>>::empty());
    } else {
        assert(s[a.len() + k] == b[k]);
        if b[k] == ' ' {
            lemma_words_from_shift(a, b, k + 1);
        } else {
            lemma_word_end_shift(a, b, k);
            lemma_word_end(b, k);
            let e = spec_word_end(b, k);
            lemma_words_from_shift(a, b, e);
            assert(s.subrange(a.len() + k, a.len() + e) =~= b.subrange(k, e));
        }
    }
}

/// Where a word ends is determined: all non-space up to `e`, then a space or
/// the end of the text.
pub proof fn lemma_word_end_exact(s: Seq<char>, i: int, e: int)
    requires
        0 <= i <= e <= s.len(),
        forall|k: int| i <= k < e ==> s[k] != ' ',
        e == s.len() || s[e] == ' ',
    ensures
        spec_word_end(s, i) == e,
    decreases e - i,
{
    if i < e {
        lemma_word_end_exact(s, i + 1, e);
    }
}

/// Joining unrolls from the front: the first word, a space, then the join of
/// the rest.
#[verifier::rlimit(50)]
pub proof fn lemma_join_unroll(ws: Seq<Seq<char>>, j: int)
    requires
        1 <= j <= ws.len(),
    ensures
        j == 1 ==> spec_join_upto(ws, j) == ws[0],
        j >= 2 ==> spec_join_upto(ws, j) == ws[0] + seq![' '] + spec_join_upto(
            ws.drop_first(),
            j - 1,
        ),
    decreases j,
{
    if j == 2 {
        assert(ws.drop_first()[0] == ws[1]);
        assert(spec_join_upto(ws.drop_first(), 1) == ws.drop_first()[0]);
        assert(spec_join_upto(ws, 2) == spec_join_upto(ws, 1) + seq![' '] + ws[1]);
        assert(spec_join_upto(ws, 1) == ws[0]);
        assert(spec_join_upto(ws, 2) =~= ws[0] + seq![' '] + spec_join_upto(
            ws.drop_first(),
            1,
        ));
    } else if j > 2 {
        lemma_join_unroll(ws, j - 1);
        assert(spec_join_upto(ws, j) == spec_join_upto(ws, j - 1) + seq![' '] + ws[j - 1]);
        assert(ws[j - 1] == ws.drop_first()[j - 2]);
        assert(spec_join_upto(ws.drop_first(), j - 1) == spec_join_upto(ws.drop_first(), j - 2)
            + seq![' '] + ws.drop_first()[j - 2]);
        assert(spec_join_upto(ws, j) =~= ws[0] + seq![' '] + spec_join_upto(
            ws.drop_first(),
            j - 1,
        ));
    }
}

/// Splitting the join of well-formed words gives the words back.
pub proof fn lemma_split_join(ws: Seq<Seq<char>>)
    requires
        spec_good_words(ws),
    ensures
        spec_words(spec_join(ws)) == ws,
    decreases ws.len(),
{
    if ws.len() == 0 {
        assert(spec_join(ws) =~= Seq::<char>::empty());
        assert(spec_words(spec_join(ws)) =~= ws);
    } else {
        let w0 = ws[0];
        assert(spec_good_word(w0));
        let s = spec_join(ws);
        lemma_join_unroll(ws, ws.len() as int);
        if ws.len() == 1 {
            assert(s == w0);
            lemma_word_end_exact(s, 0, w0.len() as int);
            assert(s.subrange(0, w0.len() as int) =~= w0);
            assert(spec_words_from(s, w0.len() as int) =~= Seq::<Seq<char>>::empty());
            assert(spec_words(s) =~= ws);
        } else {
            let rest = ws.drop_first();
            assert(spec_good_words(rest)) by {
                assert forall|i: int| 0 <= i < rest.len() implies spec_good_word(
                    #[trigger] rest[i],
                ) by {
                    assert(rest[i] == ws[i + 1]);
                }
            }
            lemma_split_join(rest);
            let tail = spec_join(rest);
            assert(s == w0 + seq![' '] + tail);
            let a = w0 + seq![' '];
            assert(s =~= a + tail);
            assert forall|k: int| 0 <= k < w0.len() implies s[k] != ' ' by {
                assert(s[k] == w0[k]);
            }
            assert(s[w0.len() as int] == ' ');
            lemma_word_end_exact(s, 0, w0.len() as int);
            assert(s[0] == w0[0]);
            assert(s[0] != ' ');
            assert(s.subrange(0, w0.len() as int) =~= w0);
            assert(spec_words(s) == seq![w0] + spec_words_from(s, w0.len() as int));
            assert(spec_words_from(s, w0.len() as int) == spec_words_from(
                s,
                w0.len() + 1 as int,
            ));
            lemma_words_from_shift(a, tail, 0);
            assert(spec_words_from(s, a.len() + 0 as int) == spec_words_from(tail, 0));
            assert(spec_words(s) =~= seq![w0] + rest);
            assert(seq![w0] + rest =~= ws);
        }
    }
}

/// A date that the line format can write and read back.
pub open spec fn spec_date_ok(d: Option<Date>) -> bool {
    match d {
        Some(d) => d.wf() && d.year <= 9999,
        None => true,
    }
}

pub open spec fn spec_rec_ok(r: Option<Recurrence>) -> bool {
    match r {
        Some(r) => r.period >= 1,
        None => true,
    }
}

/// A word read as a date is ten characters long, and the date is well formed
/// with a four-digit year.
pub proof fn lemma_parse_date_ok(w: Seq<char>)
    ensures
        spec_parse_date(w) is Some ==> w.len() == 10 && spec_date_ok(spec_parse_date(w)),
{
    if spec_parse_date(w) is Some {
        let y = crate::date::spec_char_digit(w[0]) * 1000 + crate::date::spec_char_digit(w[1])
            * 100 + crate::date::spec_char_digit(w[2]) * 10 + crate::date::spec_char_digit(w[3]);
        assert(0 <= crate::date::spec_char_digit(w[0]) <= 9);
        assert(y <= 9999);
    }
}

/// The scan state is still a ScanState the format can write, its subject
/// words are good, and rescanning its own subject words rebuilds the same
/// projects, contexts and tags while leaving the metadata fields empty.
pub open spec fn spec_rescan_of(st: ScanState) -> ScanState {
    ScanState {
        subject_words: st.subject_words,
        projects: st.projects,
        contexts: st.contexts,
        tags: st.tags,
        due: None,
        threshold: None,
        rec: None,
    }
}

/// Two word lists that agree below `j` scan alike up to `j`.
pub proof fn lemma_scan_agree(b1: Seq<Seq<char>>, b2: Seq<Seq<char>>, j: int)
    requires
        forall|k: int| 0 <= k < j ==> 0 <= k < b1.len() && 0 <= k < b2.len() && b1[k] == b2[k],
    ensures
        spec_scan(b1, j) == spec_scan(b2, j),
    decreases j,
{
    if j > 0 {
        lemma_scan_agree(b1, b2, j - 1);
    }
}

/// The master facts about a scan over good words; `j` words consumed.
pub proof fn lemma_scan_facts(body: Seq<Seq<char>>, j: int)
    requires
        0 <= j <= body.len(),
        spec_good_words(body),
    ensures
        spec_good_words(spec_scan(body, j).subject_words),
        spec_date_ok(spec_scan(body, j).due),
        spec_date_ok(spec_scan(body, j).threshold),
        spec_rec_ok(spec_scan(body, j).rec),
        spec_scan(
            spec_scan(body, j).subject_words,
            spec_scan(body, j).subject_words.len() as int,
        ) == spec_rescan_of(spec_scan(body, j)),
    decreases j,
{
    if j == 0 {
        assert(spec_scan(body, 0) == spec_scan_init());
        assert(spec_scan(Seq::<Seq<char>>::empty(), 0) == spec_scan_init());
        assert(spec_scan(spec_scan_init().subject_words, 0) =~= spec_rescan_of(spec_scan_init()));
    } else {
        lemma_scan_facts(body, j - 1);
        let st = spec_scan(body, j - 1);
        let w = body[j - 1];
        assert(spec_good_word(w));
        let st2 = spec_scan(body, j);
        assert(st2 == spec_scan_step(st, w));
        if st2.subject_words == st.subject_words {
            // A metadata word was consumed: the subject words are unchanged,
            // so the rescan claim carries over, and the new field value came
            // from a successful parse, hence is well formed.
            if spec_is_kv(w) && spec_kv_key(w) == seq!['d', 'u', 'e'] && spec_parse_date(
                spec_kv_value(w),
            ) is Some {
                lemma_parse_date_ok(spec_kv_value(w));
            }
            if spec_is_kv(w) && spec_kv_key(w) == seq!['t'] && spec_parse_date(
                spec_kv_value(w),
            ) is Some {
                lemma_parse_date_ok(spec_kv_value(w));
            }
            assert(spec_rescan_of(st2) =~= spec_rescan_of(st));
        } else {
            // A kept word: it is pushed onto the subject. Rescanning the
            // pushed list first rebuilds the old rescan state, and the final
            // step classifies `w` the same way (classification reads only the
            // word), so both sides stay in step.
            assert(st2.subject_words == st.subject_words.push(w));
            assert(spec_good_words(st2.subject_words)) by {
                assert forall|q: int| 0 <= q < st2.subject_words.len() implies spec_good_word(
                    #[trigger] st2.subject_words[q],
                ) by {
                    if q < st.subject_words.len() {
                        assert(st2.subject_words[q] == st.subject_words[q]);
                    }
                }
            }
            let sw = st.subject_words;
            let sw2 = st2.subject_words;
            lemma_scan_agree(sw2, sw, sw.len() as int);
            assert(spec_scan(sw2, sw.len() as int) == spec_rescan_of(st));
            assert(spec_scan(sw2, sw2.len() as int) == spec_scan_step(spec_rescan_of(st), w));
            assert(spec_scan_step(spec_rescan_of(st), w) =~= spec_rescan_of(st2));
        }
    }
}

/// Goodness is preserved by concatenation.
pub proof fn lemma_good_concat(a: Seq<Seq<char>>, b: Seq<Seq<char>>)
    requires
        spec_good_words(a),
        spec_good_words(b),
    ensures
        spec_good_words(a + b),
{
    assert forall|i: int| 0 <= i < (a + b).len() implies spec_good_word(#[trigger] (a + b)[i]) by {
        if i < a.len() {
            assert((a + b)[i] == a[i]);
        } else {
            assert((a + b)[i] == b[i - a.len()]);
        }
    }
}

/// A written date word: ten characters, no space, and it reads back.
pub proof fn lemma_date_word(d: Date)
    requires
        spec_date_ok(Some(d)),
    ensures
        spec_good_word(crate::date::spec_fmt_date(d)),
        crate::date::spec_parse_date(crate::date::spec_fmt_date(d)) == Some(d),
        !crate::task::spec_is_x_word(crate::date::spec_fmt_date(d)),
        !crate::task::spec_is_priority_word(crate::date::spec_fmt_date(d)),
        crate::date::spec_fmt_date(d)[0] != '!',
{
    crate::date::lemma_date_roundtrip(d);
    let w = crate::date::spec_fmt_date(d);
    assert forall|k: int| 0 <= k < w.len() implies w[k] != ' ' by {}
}

/// The digits of a number carry no space and no colon.
pub proof fn lemma_digits_chars(n: nat)
    ensures
        forall|k: int|
            0 <= k < crate::recurrence::spec_digits_of(n).len()
                ==> #[trigger] crate::recurrence::spec_digits_of(n)[k] != ' '
                && crate::recurrence::spec_digits_of(n)[k] != ':',
    decreases n,
{
    let ds = crate::recurrence::spec_digits_of(n);
    if n < 10 {
        assert(ds[0] == crate::date::spec_digit_char(n as int));
    } else {
        lemma_digits_chars(n / 10);
        let prev = crate::recurrence::spec_digits_of(n / 10);
        assert forall|k: int| 0 <= k < ds.len() implies ds[k] != ' ' && ds[k] != ':' by {
            if k < prev.len() {
                assert(ds[k] == prev[k]);
            } else {
                assert(ds[k] == crate::date::spec_digit_char((n % 10) as int));
            }
        }
    }
}

/// A written recurrence: non-empty, no space, no colon, at least two
/// characters, a non-digit first character only when strict.
pub proof fn lemma_rec_word(r: Recurrence)
    requires
        spec_rec_ok(Some(r)),
    ensures
        spec_good_word(r.spec_fmt()),
        r.spec_fmt().len() >= 2,
        forall|k: int| 0 <= k < r.spec_fmt().len() ==> #[trigger] r.spec_fmt()[k] != ':',
        Recurrence::spec_parse(r.spec_fmt()) == Some(r),
{
    crate::recurrence::lemma_recurrence_roundtrip(r);
    crate::recurrence::lemma_digits_of(r.period as nat);
    lemma_digits_chars(r.period as nat);
    let ds = crate::recurrence::spec_digits_of(r.period as nat);
    let base = ds.push(crate::recurrence::spec_unit_char(r.unit));
    let w = r.spec_fmt();
    assert forall|k: int| 0 <= k < w.len() implies w[k] != ':' && w[k] != ' ' by {
        if r.strict {
            if k > 0 {
                assert(w[k] == base[k - 1]);
                if k - 1 < ds.len() {
                    assert(base[k - 1] == ds[k - 1]);
                }
            }
        } else {
            if k < ds.len() {
                assert(w[k] == ds[k]);
            }
        }
    }
}

/// A written priority: `(P)` with a letter, and it reads back.
pub proof fn lemma_priority_word(p: u8)
    requires
        p < 26,
    ensures
        spec_good_word(crate::task::spec_priority_word(p)),
        crate::task::spec_is_priority_word(crate::task::spec_priority_word(p)),
        crate::task::spec_priority_of_word(crate::task::spec_priority_word(p)) == p,
        spec_parse_date(crate::task::spec_priority_word(p)) is None,
        !crate::task::spec_is_x_word(crate::task::spec_priority_word(p)),
        crate::task::spec_priority_word(p)[0] != '!',
{
}

/// A trailing metadata word (`due:`, `t:` or `rec:` and a value): what it is
/// and what it is not.
pub proof fn lemma_meta_word(key: Seq<char>, value: Seq<char>)
    requires
        key == seq!['d', 'u', 'e'] || key == seq!['t'] || key == seq!['r', 'e', 'c'],
        value.len() >= 2,
        forall|k: int| 0 <= k < value.len() ==> value[k] != ' ',
        forall|k: int| 0 <= k < value.len() ==> value[k] != ':',
    ensures
        spec_good_word(key + seq![':'] + value),
        spec_is_kv(key + seq![':'] + value),
        spec_kv_key(key + seq![':'] + value) == key,
        spec_kv_value(key + seq![':'] + value) == value,
        !crate::task::spec_is_x_word(key + seq![':'] + value),
        spec_parse_date(key + seq![':'] + value) is None,
        !crate::task::spec_is_priority_word(key + seq![':'] + value),
        !crate::task::spec_is_project_word(key + seq![':'] + value),
        !crate::task::spec_is_context_word(key + seq![':'] + value),
        (key + seq![':'] + value)[0] != '!',
{
    let w = key + seq![':'] + value;
    assert(w[key.len() as int] == ':');
    assert forall|k: int| 0 <= k < key.len() implies w[k] != ':' && w[k] != ' ' by {
        assert(w[k] == key[k]);
    }
    lemma_colon_pos_exact(w, 0, key.len() as int);
    assert(spec_kv_key(w) =~= key);
    assert(spec_kv_value(w) =~= value);
    assert forall|k: int| 0 <= k < w.len() implies w[k] != ' ' by {
        if k > key.len() {
            assert(w[k] == value[k - key.len() - 1]);
        }
    }
    if w.len() == 10 {
        assert(w[0] == 'd' || w[0] == 't' || w[0] == 'r');
        assert(!crate::date::spec_is_digit(w[0]));
    }
}

/// Where the first colon sits is determined.
pub proof fn lemma_colon_pos_exact(w: Seq<char>, i: int, e: int)
    requires
        0 <= i <= e < w.len(),
        forall|k: int| i <= k < e ==> w[k] != ':',
        w[e] == ':',
    ensures
        crate::task::spec_colon_pos(w, i) == e,
    decreases e - i,
{
    if i < e {
        lemma_colon_pos_exact(w, i + 1, e);
    }
}

/// One more word behind a scanned list is one more step.
pub proof fn lemma_scan_push(b: Seq<Seq<char>>, w: Seq<char>)
    ensures
        spec_scan(b.push(w), b.len() + 1 as int) == spec_scan_step(spec_scan(b, b.len() as int), w),
{
    lemma_scan_agree(b.push(w), b, b.len() as int);
    assert(b.push(w)[b.len() as int] == w);
}

/// The shape every parse result has: the completion date only comes with the
/// done mark and a creation date beside it, every date and rule is writable,
/// the subject is the join of its own words, and rescanning those words
/// rebuilds the same projects, contexts and tags with no metadata fields.
pub open spec fn spec_canonical(t: TaskView) -> bool {
    let s = spec_words(t.subject);
    &&& (t.completion_date is Some ==> t.finished && t.creation_date is Some)
    &&& spec_date_ok(t.completion_date)
    &&& spec_date_ok(t.creation_date)
    &&& spec_date_ok(t.due_date)
    &&& spec_date_ok(t.threshold_date)
    &&& spec_rec_ok(t.recurrence)
    &&& (match t.priority {
        Some(p) => p < 26,
        None => true,
    })
    &&& spec_good_words(s)
    &&& spec_scan(s, s.len() as int) == (ScanState {
        subject_words: s,
        projects: t.projects,
        contexts: t.contexts,
        tags: t.tags,
        due: None,
        threshold: None,
        rec: None,
    })
    &&& t.subject == spec_join(s)
    &&& t.note is None
    &&& t.id == 0
}

/// Every parse result is canonical.
pub proof fn lemma_parse_canonical(line: Seq<char>)
    ensures
        spec_canonical(crate::task::spec_parse_task(line)),
{
    let ws = spec_words(line);
    lemma_words_good(line, 0);
    let t = crate::task::spec_parse_task(line);
    let finished = crate::task::spec_ws_finished(ws);
    let s1 = crate::task::spec_ws_after_x(ws);
    let s2 = crate::task::spec_ws_after_dates(finished, s1);
    let s3 = crate::task::spec_ws_after_priority(s2);
    let body = crate::task::spec_ws_body(s3);
    assert(spec_good_words(s1)) by {
        assert forall|i: int| 0 <= i < s1.len() implies spec_good_word(#[trigger] s1[i]) by {
            if finished {
                assert(s1[i] == ws[i + 1]);
            }
        }
    }
    assert(spec_good_words(s2)) by {
        assert forall|i: int| 0 <= i < s2.len() implies spec_good_word(#[trigger] s2[i]) by {
            if crate::task::spec_two_dates(finished, s1) {
                assert(s2[i] == s1[i + 2]);
            } else if crate::task::spec_one_date(finished, s1) {
                assert(s2[i] == s1[i + 1]);
            }
        }
    }
    assert(spec_good_words(s3)) by {
        assert forall|i: int| 0 <= i < s3.len() implies spec_good_word(#[trigger] s3[i]) by {
            if crate::task::spec_ws_has_priority(s2) {
                assert(s3[i] == s2[i + 1]);
            }
        }
    }
    assert(spec_good_words(body)) by {
        assert forall|i: int| 0 <= i < body.len() implies spec_good_word(#[trigger] body[i]) by {
            if crate::task::spec_ws_flagged(s3) {
                if s3[0].len() == 1 {
                    assert(body[i] == s3[i + 1]);
                } else {
                    if i == 0 {
                        assert(body[0] == s3[0].skip(1));
                        assert(spec_good_word(s3[0]));
                        assert forall|k: int| 0 <= k < s3[0].skip(1).len() implies s3[0].skip(1)[k]
                            != ' ' by {
                            assert(s3[0].skip(1)[k] == s3[0][k + 1]);
                        }
                    } else {
                        assert(body[i] == s3.skip(1)[i - 1]);
                        assert(s3.skip(1)[i - 1] == s3[i]);
                    }
                }
            }
        }
    }
    lemma_scan_facts(body, body.len() as int);
    let st = crate::task::spec_scan(body, body.len() as int);
    lemma_split_join(st.subject_words);
    if crate::task::spec_two_dates(finished, s1) {
        lemma_parse_date_ok(s1[0]);
        lemma_parse_date_ok(s1[1]);
    } else if crate::task::spec_one_date(finished, s1) {
        lemma_parse_date_ok(s1[0]);
    }
}

/// The one caveat of the serialize round trip. Serializing moves the `due:`,
/// `t:` and `rec:` metadata words behind the subject, so a line whose subject
/// begins, once those words are gone, with something that looks like a
/// missing header word (an `x`, a date, a priority, a flag) would be read
/// differently the second time. These clauses say the subject's first word
/// mimics no absent header word.
pub open spec fn spec_round_trip_safe(t: TaskView) -> bool {
    let s = spec_words(t.subject);
    &&& (!t.finished && t.completion_date is None && t.creation_date is None && t.priority is None
        && !t.flagged && s.len() > 0 ==> !crate::task::spec_is_x_word(s[0]))
    &&& (t.creation_date is None && t.priority is None && !t.flagged && s.len() > 0
        ==> spec_parse_date(s[0]) is None)
    &&& (t.finished && t.completion_date is None && t.creation_date is Some && t.priority is None
        && !t.flagged && s.len() > 0 ==> spec_parse_date(s[0]) is None)
    &&& (t.priority is None && !t.flagged && s.len() > 0 ==> !crate::task::spec_is_priority_word(
        s[0],
    ))
    &&& (!t.flagged && s.len() > 0 && s[0].len() > 0 ==> s[0][0] != '!')
}

/// The words a canonical task serializes to are all non-empty and space-free.
pub proof fn lemma_good_single(w: Seq<char>)
    requires
        spec_good_word(w),
    ensures
        spec_good_words(seq![w]),
{
    assert forall|i: int| 0 <= i < 1 implies spec_good_word(#[trigger] seq![w][i]) by {
        assert(seq![w][0] == w);
    }
}

pub proof fn lemma_good_empty()
    ensures
        spec_good_words(Seq::<Seq<char>>::empty()),
{
}

#[verifier::rlimit(100)]
pub proof fn lemma_serialize_words_good(t: TaskView)
    requires
        spec_canonical(t),
    ensures
        spec_good_words(crate::task::spec_serialize_words(t)),
{
    lemma_good_empty();
    let xw: Seq<Seq<char>> = if t.finished {
        seq![seq!['x']]
    } else {
        Seq::empty()
    };
    if t.finished {
        lemma_good_single(seq!['x']);
    }
    let cw = crate::task::spec_opt_date_word(t.completion_date);
    match t.completion_date {
        Some(d) => {
            lemma_date_word(d);
            lemma_good_single(crate::date::spec_fmt_date(d));
        },
        None => (),
    }
    let rw = crate::task::spec_opt_date_word(t.creation_date);
    match t.creation_date {
        Some(d) => {
            lemma_date_word(d);
            lemma_good_single(crate::date::spec_fmt_date(d));
        },
        None => (),
    }
    let pw: Seq<Seq<char>> = match t.priority {
        Some(p) => seq![crate::task::spec_priority_word(p)],
        None => Seq::empty(),
    };
    match t.priority {
        Some(p) => {
            lemma_priority_word(p);
            lemma_good_single(crate::task::spec_priority_word(p));
        },
        None => (),
    }
    let fw: Seq<Seq<char>> = if t.flagged {
        seq![seq!['!']]
    } else {
        Seq::empty()
    };
    if t.flagged {
        lemma_good_single(seq!['!']);
    }
    lemma_good_concat(xw, cw);
    lemma_good_concat(xw + cw, rw);
    lemma_good_concat(xw + cw + rw, pw);
    lemma_good_concat(xw + cw + rw + pw, fw);
    assert(crate::task::spec_header_words(t) == xw + cw + rw + pw + fw);
    let dw: Seq<Seq<char>> = match t.due_date {
        Some(d) => seq![seq!['d', 'u', 'e', ':'] + crate::date::spec_fmt_date(d)],
        None => Seq::empty(),
    };
    match t.due_date {
        Some(d) => {
            lemma_date_word(d);
            lemma_meta_word(seq!['d', 'u', 'e'], crate::date::spec_fmt_date(d));
            assert(seq!['d', 'u', 'e', ':'] + crate::date::spec_fmt_date(d) =~= seq!['d', 'u', 'e']
                + seq![':'] + crate::date::spec_fmt_date(d));
            lemma_good_single(seq!['d', 'u', 'e', ':'] + crate::date::spec_fmt_date(d));
        },
        None => (),
    }
    let tw: Seq<Seq<char>> = match t.threshold_date {
        Some(d) => seq![seq!['t', ':'] + crate::date::spec_fmt_date(d)],
        None => Seq::empty(),
    };
    match t.threshold_date {
        Some(d) => {
            lemma_date_word(d);
            lemma_meta_word(seq!['t'], crate::date::spec_fmt_date(d));
            assert(seq!['t', ':'] + crate::date::spec_fmt_date(d) =~= seq!['t'] + seq![':']
                + crate::date::spec_fmt_date(d));
            lemma_good_single(seq!['t', ':'] + crate::date::spec_fmt_date(d));
        },
        None => (),
    }
    let ew: Seq<Seq<char>> = match t.recurrence {
        Some(r) => seq![seq!['r', 'e', 'c', ':'] + r.spec_fmt()],
        None => Seq::empty(),
    };
    match t.recurrence {
        Some(r) => {
            lemma_rec_word(r);
            lemma_meta_word(seq!['r', 'e', 'c'], r.spec_fmt());
            assert(seq!['r', 'e', 'c', ':'] + r.spec_fmt() =~= seq!['r', 'e', 'c'] + seq![':']
                + r.spec_fmt());
            lemma_good_single(seq!['r', 'e', 'c', ':'] + r.spec_fmt());
        },
        None => (),
    }
    lemma_good_concat(dw, tw);
    lemma_good_concat(dw + tw, ew);
    assert(crate::task::spec_meta_words(t) == dw + tw + ew);
    lemma_good_concat(crate::task::spec_header_words(t), spec_words(t.subject));
    lemma_good_concat(
        crate::task::spec_header_words(t) + spec_words(t.subject),
        crate::task::spec_meta_words(t),
    );
    assert(crate::task::spec_serialize_words(t) == (crate::task::spec_header_words(t) + spec_words(
        t.subject,
    )) + crate::task::spec_meta_words(t));
}

/// The written segments of a task, named for the proofs.
pub open spec fn seg_x(t: TaskView) -> Seq<Seq<char>> {
    if t.finished {
        seq![seq!['x']]
    } else {
        Seq::empty()
    }
}

pub open spec fn seg_pri(t: TaskView) -> Seq<Seq<char>> {
    match t.priority {
        Some(p) => seq![crate::task::spec_priority_word(p)],
        None => Seq::empty(),
    }
}

pub open spec fn seg_flag(t: TaskView) -> Seq<Seq<char>> {
    if t.flagged {
        seq![seq!['!']]
    } else {
        Seq::empty()
    }
}

pub open spec fn seg_due(t: TaskView) -> Seq<Seq<char>> {
    match t.due_date {
        Some(d) => seq![seq!['d', 'u', 'e', ':'] + crate::date::spec_fmt_date(d)],
        None => Seq::empty(),
    }
}

pub open spec fn seg_thr(t: TaskView) -> Seq<Seq<char>> {
    match t.threshold_date {
        Some(d) => seq![seq!['t', ':'] + crate::date::spec_fmt_date(d)],
        None => Seq::empty(),
    }
}

pub open spec fn seg_rec(t: TaskView) -> Seq<Seq<char>> {
    match t.recurrence {
        Some(r) => seq![seq!['r', 'e', 'c', ':'] + r.spec_fmt()],
        None => Seq::empty(),
    }
}

/// The word-shape facts of the written marker, date and priority words.
#[verifier::rlimit(100)]
proof fn lemma_segment_shapes_header(t: TaskView)
    requires
        spec_canonical(t),
    ensures
        t.completion_date is Some ==> spec_parse_date(
            crate::task::spec_opt_date_word(t.completion_date)[0],
        ) == t.completion_date,
        t.creation_date is Some ==> spec_parse_date(
            crate::task::spec_opt_date_word(t.creation_date)[0],
        ) == t.creation_date,
        t.priority is Some ==> crate::task::spec_is_priority_word(seg_pri(t)[0])
            && crate::task::spec_priority_of_word(seg_pri(t)[0]) == t.priority->Some_0
            && spec_parse_date(seg_pri(t)[0]) is None && !crate::task::spec_is_x_word(seg_pri(t)[0])
            && seg_pri(t)[0][0] != '!',
        t.completion_date is Some ==> !crate::task::spec_is_x_word(
            crate::task::spec_opt_date_word(t.completion_date)[0],
        ) && !crate::task::spec_is_priority_word(
            crate::task::spec_opt_date_word(t.completion_date)[0],
        ) && crate::task::spec_opt_date_word(t.completion_date)[0][0] != '!',
        t.creation_date is Some ==> !crate::task::spec_is_x_word(
            crate::task::spec_opt_date_word(t.creation_date)[0],
        ) && !crate::task::spec_is_priority_word(
            crate::task::spec_opt_date_word(t.creation_date)[0],
        ) && crate::task::spec_opt_date_word(t.creation_date)[0][0] != '!',
{
    match t.completion_date {
        Some(d) => lemma_date_word(d),
        None => (),
    }
    match t.creation_date {
        Some(d) => lemma_date_word(d),
        None => (),
    }
    match t.priority {
        Some(p) => lemma_priority_word(p),
        None => (),
    }
}

/// The word-shape facts of the written metadata words.
#[verifier::rlimit(100)]
proof fn lemma_segment_shapes_meta(t: TaskView)
    requires
        spec_canonical(t),
    ensures
        t.due_date is Some ==> spec_meta_shape(seg_due(t)[0]) && spec_kv_key(seg_due(t)[0])
            == seq!['d', 'u', 'e'] && spec_parse_date(spec_kv_value(seg_due(t)[0])) == t.due_date,
        t.threshold_date is Some ==> spec_meta_shape(seg_thr(t)[0]) && spec_kv_key(seg_thr(t)[0])
            == seq!['t'] && spec_parse_date(spec_kv_value(seg_thr(t)[0])) == t.threshold_date,
        t.recurrence is Some ==> spec_meta_shape(seg_rec(t)[0]) && spec_kv_key(seg_rec(t)[0])
            == seq!['r', 'e', 'c'] && Recurrence::spec_parse(spec_kv_value(seg_rec(t)[0]))
            == t.recurrence,
{
    match t.due_date {
        Some(d) => {
            lemma_date_word(d);
            lemma_meta_word(seq!['d', 'u', 'e'], crate::date::spec_fmt_date(d));
            assert(seg_due(t)[0] =~= seq!['d', 'u', 'e'] + seq![':'] + crate::date::spec_fmt_date(
                d,
            ));
        },
        None => (),
    }
    match t.threshold_date {
        Some(d) => {
            lemma_date_word(d);
            lemma_meta_word(seq!['t'], crate::date::spec_fmt_date(d));
            assert(seg_thr(t)[0] =~= seq!['t'] + seq![':'] + crate::date::spec_fmt_date(d));
        },
        None => (),
    }
    match t.recurrence {
        Some(r) => {
            lemma_rec_word(r);
            lemma_meta_word(seq!['r', 'e', 'c'], r.spec_fmt());
            assert(seg_rec(t)[0] =~= seq!['r', 'e', 'c'] + seq![':'] + r.spec_fmt());
        },
        None => (),
    }
}

/// What a metadata word is and is not, as one predicate.
pub open spec fn spec_meta_shape(w: Seq<char>) -> bool {
    &&& spec_is_kv(w)
    &&& !crate::task::spec_is_x_word(w)
    &&& spec_parse_date(w) is None
    &&& !crate::task::spec_is_priority_word(w)
    &&& !crate::task::spec_is_project_word(w)
    &&& !crate::task::spec_is_context_word(w)
    &&& w.len() > 0 && w[0] != '!'
}

/// The words behind the marker: everything but the optional `x`.
pub open spec fn seg_rest0(t: TaskView) -> Seq<Seq<char>> {
    crate::task::spec_opt_date_word(t.completion_date) + crate::task::spec_opt_date_word(
        t.creation_date,
    ) + seg_pri(t) + seg_flag(t) + spec_words(t.subject) + crate::task::spec_meta_words(t)
}

/// The words behind the dates: priority, flag, subject, metadata.
pub open spec fn seg_rest1(t: TaskView) -> Seq<Seq<char>> {
    seg_pri(t) + seg_flag(t) + spec_words(t.subject) + crate::task::spec_meta_words(t)
}

/// The marker stage of the reparse reads the done mark back.
#[verifier::rlimit(100)]
proof fn lemma_reparse_marker(t: TaskView)
    requires
        spec_canonical(t),
        spec_round_trip_safe(t),
    ensures
        crate::task::spec_ws_finished(crate::task::spec_serialize_words(t)) == t.finished,
        crate::task::spec_ws_after_x(crate::task::spec_serialize_words(t)) == seg_rest0(t),
{
    let ss = spec_words(t.subject);
    let xw = seg_x(t);
    let cw = crate::task::spec_opt_date_word(t.completion_date);
    let rw = crate::task::spec_opt_date_word(t.creation_date);
    let pw = seg_pri(t);
    let fw = seg_flag(t);
    let dw = seg_due(t);
    let tw = seg_thr(t);
    let ew = seg_rec(t);
    let mm = dw + tw + ew;
    let ww = crate::task::spec_serialize_words(t);
    assert(crate::task::spec_meta_words(t) == mm);
    assert(ww =~= xw + cw + rw + pw + fw + ss + mm);
    lemma_segment_shapes_header(t);
    lemma_segment_shapes_meta(t);
    let rest0 = seg_rest0(t);
    assert(rest0 =~= cw + rw + pw + fw + ss + mm);
    if t.finished {
        assert(ww[0] == seq!['x']);
        assert(crate::task::spec_is_x_word(ww[0]));
        assert(crate::task::spec_ws_after_x(ww) =~= rest0);
    } else {
        assert(cw =~= Seq::<Seq<char>>::empty());
        assert(ww =~= rw + pw + fw + ss + mm);
        if ww.len() > 0 {
            assert(!crate::task::spec_is_x_word(ww[0])) by {
                if rw.len() > 0 {
                    assert(ww[0] == rw[0]);
                } else if pw.len() > 0 {
                    assert(ww[0] == pw[0]);
                } else if fw.len() > 0 {
                    assert(ww[0] == fw[0]);
                    assert(ww[0][0] == '!');
                } else if ss.len() > 0 {
                    assert(ww[0] == ss[0]);
                } else if dw.len() > 0 {
                    assert(ww[0] == dw[0]);
                } else if tw.len() > 0 {
                    assert(ww[0] == tw[0]);
                } else {
                    assert(ww[0] == ew[0]);
                }
            }
        }
        assert(crate::task::spec_ws_after_x(ww) =~= rest0);
    }
}

/// The first word of the post-date rest mimics no date.
#[verifier::rlimit(100)]
proof fn lemma_rest1_head_no_date(t: TaskView)
    requires
        spec_canonical(t),
        spec_round_trip_safe(t),
        t.creation_date is None || (t.finished && t.completion_date is None),
    ensures
        seg_rest1(t).len() > 0 ==> spec_parse_date(seg_rest1(t)[0]) is None,
{
    let ss = spec_words(t.subject);
    let pw = seg_pri(t);
    let fw = seg_flag(t);
    let dw = seg_due(t);
    let tw = seg_thr(t);
    let ew = seg_rec(t);
    lemma_segment_shapes_header(t);
    lemma_segment_shapes_meta(t);
    let r = seg_rest1(t);
    assert(r =~= pw + fw + ss + (dw + tw + ew));
    if r.len() > 0 {
        assert(spec_parse_date(r[0]) is None) by {
            if pw.len() > 0 {
                assert(r[0] == pw[0]);
            } else if fw.len() > 0 {
                assert(r[0] == fw[0]);
                assert(fw[0].len() == 1);
            } else if ss.len() > 0 {
                assert(r[0] == ss[0]);
            } else if dw.len() > 0 {
                assert(r[0] == dw[0]);
            } else if tw.len() > 0 {
                assert(r[0] == tw[0]);
            } else {
                assert(r[0] == ew[0]);
            }
        }
    }
}

/// The date stage when both dates are written.
#[verifier::rlimit(100)]
proof fn lemma_reparse_dates_two(t: TaskView)
    requires
        spec_canonical(t),
        spec_round_trip_safe(t),
        t.completion_date is Some,
    ensures
        crate::task::spec_ws_completion(crate::task::spec_serialize_words(t))
            == t.completion_date,
        crate::task::spec_ws_creation(crate::task::spec_serialize_words(t)) == t.creation_date,
        crate::task::spec_ws_after_dates(
            crate::task::spec_ws_finished(crate::task::spec_serialize_words(t)),
            crate::task::spec_ws_after_x(crate::task::spec_serialize_words(t)),
        ) == seg_rest1(t),
{
    let cw = crate::task::spec_opt_date_word(t.completion_date);
    let rw = crate::task::spec_opt_date_word(t.creation_date);
    let ww = crate::task::spec_serialize_words(t);
    lemma_reparse_marker(t);
    lemma_segment_shapes_header(t);
    let s1 = crate::task::spec_ws_after_x(ww);
    let finished = crate::task::spec_ws_finished(ww);
    assert(s1 == seg_rest0(t));
    let rest1 = seg_rest1(t);
    assert(t.finished && t.creation_date is Some);
    assert(s1 =~= cw + rw + rest1);
    assert(s1[0] == cw[0]);
    assert(s1[1] == rw[0]);
    assert(crate::task::spec_two_dates(finished, s1));
    assert(crate::task::spec_ws_after_dates(finished, s1) =~= rest1);
}

/// The date stage when only the creation date is written.
#[verifier::rlimit(100)]
proof fn lemma_reparse_dates_one(t: TaskView)
    requires
        spec_canonical(t),
        spec_round_trip_safe(t),
        t.completion_date is None,
        t.creation_date is Some,
    ensures
        crate::task::spec_ws_completion(crate::task::spec_serialize_words(t))
            == t.completion_date,
        crate::task::spec_ws_creation(crate::task::spec_serialize_words(t)) == t.creation_date,
        crate::task::spec_ws_after_dates(
            crate::task::spec_ws_finished(crate::task::spec_serialize_words(t)),
            crate::task::spec_ws_after_x(crate::task::spec_serialize_words(t)),
        ) == seg_rest1(t),
{
    let rw = crate::task::spec_opt_date_word(t.creation_date);
    let ww = crate::task::spec_serialize_words(t);
    lemma_reparse_marker(t);
    lemma_segment_shapes_header(t);
    let s1 = crate::task::spec_ws_after_x(ww);
    let finished = crate::task::spec_ws_finished(ww);
    assert(s1 == seg_rest0(t));
    let rest1 = seg_rest1(t);
    assert(s1 =~= rw + rest1);
    assert(s1[0] == rw[0]);
    assert(!crate::task::spec_two_dates(finished, s1)) by {
        if finished && s1.len() >= 2 {
            lemma_rest1_head_no_date(t);
            assert(s1[1] == rest1[0]);
        }
    }
    assert(crate::task::spec_one_date(finished, s1));
    assert(crate::task::spec_ws_after_dates(finished, s1) =~= rest1);
}

/// The date stage when no date is written.
#[verifier::rlimit(100)]
proof fn lemma_reparse_dates_none(t: TaskView)
    requires
        spec_canonical(t),
        spec_round_trip_safe(t),
        t.completion_date is None,
        t.creation_date is None,
    ensures
        crate::task::spec_ws_completion(crate::task::spec_serialize_words(t))
            == t.completion_date,
        crate::task::spec_ws_creation(crate::task::spec_serialize_words(t)) == t.creation_date,
        crate::task::spec_ws_after_dates(
            crate::task::spec_ws_finished(crate::task::spec_serialize_words(t)),
            crate::task::spec_ws_after_x(crate::task::spec_serialize_words(t)),
        ) == seg_rest1(t),
{
    let ww = crate::task::spec_serialize_words(t);
    lemma_reparse_marker(t);
    let s1 = crate::task::spec_ws_after_x(ww);
    let finished = crate::task::spec_ws_finished(ww);
    assert(s1 == seg_rest0(t));
    let rest1 = seg_rest1(t);
    assert(s1 =~= rest1);
    lemma_rest1_head_no_date(t);
    assert(!crate::task::spec_two_dates(finished, s1));
    assert(!crate::task::spec_one_date(finished, s1));
    assert(crate::task::spec_ws_after_dates(finished, s1) =~= rest1);
}

/// The marker and date stages of the reparse read back the done mark and the
/// two dates, and leave the priority word onward.
proof fn lemma_reparse_marker_dates(t: TaskView)
    requires
        spec_canonical(t),
        spec_round_trip_safe(t),
    ensures
        crate::task::spec_ws_finished(crate::task::spec_serialize_words(t)) == t.finished,
        crate::task::spec_ws_completion(crate::task::spec_serialize_words(t))
            == t.completion_date,
        crate::task::spec_ws_creation(crate::task::spec_serialize_words(t)) == t.creation_date,
        crate::task::spec_ws_after_dates(
            crate::task::spec_ws_finished(crate::task::spec_serialize_words(t)),
            crate::task::spec_ws_after_x(crate::task::spec_serialize_words(t)),
        ) == seg_pri(t) + seg_flag(t) + spec_words(t.subject) + crate::task::spec_meta_words(t),
{
    lemma_reparse_marker(t);
    if t.completion_date is Some {
        lemma_reparse_dates_two(t);
    } else if t.creation_date is Some {
        lemma_reparse_dates_one(t);
    } else {
        lemma_reparse_dates_none(t);
    }
    assert(seg_rest1(t) == seg_pri(t) + seg_flag(t) + spec_words(t.subject)
        + crate::task::spec_meta_words(t));
}

/// The priority and flag stages of the reparse read back their fields, and
/// what is left is the subject's words followed by the metadata words.
#[verifier::rlimit(100)]
proof fn lemma_reparse_header(t: TaskView)
    requires
        spec_canonical(t),
        spec_round_trip_safe(t),
    ensures
        crate::task::spec_ws_finished(crate::task::spec_serialize_words(t)) == t.finished,
        crate::task::spec_ws_completion(crate::task::spec_serialize_words(t))
            == t.completion_date,
        crate::task::spec_ws_creation(crate::task::spec_serialize_words(t)) == t.creation_date,
        crate::task::spec_ws_priority(crate::task::spec_serialize_words(t)) == t.priority,
        crate::task::spec_ws_flagged(crate::task::spec_ws_tail(crate::task::spec_serialize_words(t)))
            == t.flagged,
        crate::task::spec_ws_body(crate::task::spec_ws_tail(crate::task::spec_serialize_words(t)))
            == spec_words(t.subject) + crate::task::spec_meta_words(t),
{
    let ss = spec_words(t.subject);
    let pw = seg_pri(t);
    let fw = seg_flag(t);
    let dw = seg_due(t);
    let tw = seg_thr(t);
    let ew = seg_rec(t);
    let mm = dw + tw + ew;
    let ww = crate::task::spec_serialize_words(t);
    lemma_reparse_marker_dates(t);
    lemma_segment_shapes_header(t);
    lemma_segment_shapes_meta(t);
    assert(crate::task::spec_meta_words(t) == mm);
    let s2 = crate::task::spec_ws_after_dates(
        crate::task::spec_ws_finished(ww),
        crate::task::spec_ws_after_x(ww),
    );
    assert(s2 == pw + fw + ss + mm);
    let rest2 = fw + ss + mm;
    if t.priority is Some {
        assert(s2[0] == pw[0]);
        assert(crate::task::spec_ws_has_priority(s2));
        assert(crate::task::spec_ws_after_priority(s2) =~= rest2);
    } else {
        assert(s2 =~= fw + ss + mm);
        if s2.len() > 0 {
            assert(!crate::task::spec_is_priority_word(s2[0])) by {
                if fw.len() > 0 {
                    assert(s2[0] == fw[0]);
                    assert(fw[0].len() == 1);
                } else if ss.len() > 0 {
                    assert(s2[0] == ss[0]);
                } else if dw.len() > 0 {
                    assert(s2[0] == dw[0]);
                } else if tw.len() > 0 {
                    assert(s2[0] == tw[0]);
                } else {
                    assert(s2[0] == ew[0]);
                }
            }
        }
        assert(!crate::task::spec_ws_has_priority(s2));
        assert(crate::task::spec_ws_after_priority(s2) =~= rest2);
    }
    let s3 = crate::task::spec_ws_after_priority(s2);
    assert(s3 == rest2);
    assert(crate::task::spec_ws_tail(ww) == s3);
    let rest3 = ss + mm;
    if t.flagged {
        assert(s3[0] == fw[0]);
        assert(s3[0].len() == 1 && s3[0][0] == '!');
        assert(crate::task::spec_ws_flagged(s3));
        assert(crate::task::spec_ws_body(s3) =~= rest3);
    } else {
        assert(s3 =~= ss + mm);
        if s3.len() > 0 {
            assert(!(s3[0].len() > 0 && s3[0][0] == '!')) by {
                if ss.len() > 0 {
                    assert(s3[0] == ss[0]);
                } else if dw.len() > 0 {
                    assert(s3[0] == dw[0]);
                } else if tw.len() > 0 {
                    assert(s3[0] == tw[0]);
                } else {
                    assert(s3[0] == ew[0]);
                }
            }
        }
        assert(!crate::task::spec_ws_flagged(s3));
        assert(crate::task::spec_ws_body(s3) =~= rest3);
    }
}

/// Scanning the subject words and then the metadata words rebuilds the sets
/// and the structured fields.
#[verifier::rlimit(60)]
proof fn lemma_reparse_scan(t: TaskView)
    requires
        spec_canonical(t),
    ensures
        spec_scan(
            spec_words(t.subject) + crate::task::spec_meta_words(t),
            (spec_words(t.subject) + crate::task::spec_meta_words(t)).len() as int,
        ) == (ScanState {
            subject_words: spec_words(t.subject),
            projects: t.projects,
            contexts: t.contexts,
            tags: t.tags,
            due: t.due_date,
            threshold: t.threshold_date,
            rec: t.recurrence,
        }),
{
    let ss = spec_words(t.subject);
    let dw = seg_due(t);
    let tw = seg_thr(t);
    let ew = seg_rec(t);
    lemma_segment_shapes_header(t);
    lemma_segment_shapes_meta(t);
    assert(crate::task::spec_meta_words(t) == dw + tw + ew);
    let st0 = ScanState {
        subject_words: ss,
        projects: t.projects,
        contexts: t.contexts,
        tags: t.tags,
        due: None,
        threshold: None,
        rec: None,
    };
    assert(spec_scan(ss, ss.len() as int) == st0);
    let b1 = if dw.len() > 0 {
        ss.push(dw[0])
    } else {
        ss
    };
    let st1 = if dw.len() > 0 {
        ScanState { due: t.due_date, ..st0 }
    } else {
        st0
    };
    if dw.len() > 0 {
        lemma_scan_push(ss, dw[0]);
        assert(spec_scan(b1, b1.len() as int) =~= st1);
    }
    assert(spec_scan(b1, b1.len() as int) == st1);
    let b2 = if tw.len() > 0 {
        b1.push(tw[0])
    } else {
        b1
    };
    let st2 = if tw.len() > 0 {
        ScanState { threshold: t.threshold_date, ..st1 }
    } else {
        st1
    };
    if tw.len() > 0 {
        lemma_scan_push(b1, tw[0]);
        assert(spec_kv_key(tw[0]) != seq!['d', 'u', 'e']) by {
            assert(seq!['d', 'u', 'e'].len() == 3 && seq!['t'].len() == 1);
        }
        assert(spec_scan(b2, b2.len() as int) =~= st2);
    }
    assert(spec_scan(b2, b2.len() as int) == st2);
    let b3 = if ew.len() > 0 {
        b2.push(ew[0])
    } else {
        b2
    };
    let st3 = if ew.len() > 0 {
        ScanState { rec: t.recurrence, ..st2 }
    } else {
        st2
    };
    if ew.len() > 0 {
        lemma_scan_push(b2, ew[0]);
        assert(spec_kv_key(ew[0]) != seq!['d', 'u', 'e']) by {
            assert(seq!['r', 'e', 'c'][0] == 'r' && seq!['d', 'u', 'e'][0] == 'd');
        }
        assert(spec_kv_key(ew[0]) != seq!['t']) by {
            assert(seq!['r', 'e', 'c'].len() == 3 && seq!['t'].len() == 1);
        }
        assert(spec_scan(b3, b3.len() as int) =~= st3);
    }
    assert(spec_scan(b3, b3.len() as int) == st3);
    assert(ss + crate::task::spec_meta_words(t) =~= b3);
    assert(st3 =~= (ScanState {
        subject_words: ss,
        projects: t.projects,
        contexts: t.contexts,
        tags: t.tags,
        due: t.due_date,
        threshold: t.threshold_date,
        rec: t.recurrence,
    }));
}

/// Reading back the words a canonical, round-trip-safe task was written as
/// yields the task again.
#[verifier::rlimit(60)]
pub proof fn lemma_reparse_words(t: TaskView)
    requires
        spec_canonical(t),
        spec_round_trip_safe(t),
    ensures
        crate::task::spec_task_of_words(crate::task::spec_serialize_words(t)) == t,
{
    let ww = crate::task::spec_serialize_words(t);
    lemma_reparse_header(t);
    lemma_reparse_scan(t);
    let body = crate::task::spec_ws_body(crate::task::spec_ws_tail(ww));
    let stf = spec_scan(body, body.len() as int);
    assert(stf.subject_words == spec_words(t.subject));
    assert(crate::task::spec_task_of_words(ww) =~= t);
}

/// Parsing, writing and parsing again settles: the second parse returns the
/// first parse's record. The one proviso: serializing moves the `due:`, `t:`
/// and `rec:` metadata out of the subject to the end of the line, so the
/// law asks that the subject left behind not begin with a word that a
/// missing header word could be confused with.
pub proof fn lemma_parse_serialize_parse(line: Seq<char>)
    requires
        spec_round_trip_safe(crate::task::spec_parse_task(line)),
    ensures
        crate::task::spec_parse_task(
            crate::task::spec_serialize(crate::task::spec_parse_task(line)),
        ) == crate::task::spec_parse_task(line),
{
    let t = crate::task::spec_parse_task(line);
    lemma_parse_canonical(line);
    lemma_serialize_words_good(t);
    lemma_split_join(crate::task::spec_serialize_words(t));
    lemma_reparse_words(t);
}

} // verus!
