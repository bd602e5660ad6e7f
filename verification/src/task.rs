//! A single task record: permissive parsing of one task line, serialization
//! back to a line, and the completion state machine.
//!
//! Line shape: `[x ][completion-date ][creation-date ][(P) ][! ]subject`,
//! where the subject's words may carry `key:value` metadata (`due:`, `t:` and
//! `rec:` become structured fields and leave the visible text; other keys stay
//! visible and are recorded as opaque tags), `+project` and `@context` tokens
//! (kept visible, recorded as set members). Parsing never fails: what is not
//! recognized stays in the subject.

use vstd::prelude::*;

use crate::date::Date;
use crate::date::fmt_date;
use crate::date::parse_date;
use crate::date::spec_fmt_date;
use crate::date::spec_parse_date;
use crate::recurrence::Recurrence;
use crate::recurrence::fmt_recurrence;
use crate::recurrence::parse_recurrence;
use crate::text::chars_of;
use crate::text::join_words;
use crate::text::spec_join;
use crate::text::spec_words;
use crate::text::split_words;
use crate::text::string_of;

verus! {

/// One `key:value` metadata pair kept verbatim on the task.
#[derive(Clone, Debug)]
pub struct TagEntry {
    pub key: String,
    pub value: String,
}

/// An attached free-form note body; not part of the line format.
#[derive(Clone, Debug)]
pub struct Note {
    pub content: Option<String>,
}

#[derive(Clone, Debug)]
pub struct Task {
    pub finished: bool,
    /// 0 for `(A)` up to 25 for `(Z)`.
    pub priority: Option<u8>,
    pub completion_date: Option<Date>,
    pub creation_date: Option<Date>,
    pub subject: String,
    pub threshold_date: Option<Date>,
    pub due_date: Option<Date>,
    pub recurrence: Option<Recurrence>,
    pub flagged: bool,
    pub projects: Vec<String>,
    pub contexts: Vec<String>,
    pub tags: Vec<TagEntry>,
    pub note: Note,
    /// Position of the record in its owning collection; 0 outside one.
    pub id: usize,
}

/// The mathematical value of a task record.
#[verifier::ext_equal]
pub struct TaskView {
    pub finished: bool,
    pub priority: Option<u8>,
    pub completion_date: Option<Date>,
    pub creation_date: Option<Date>,
    pub subject: Seq<char>,
    pub threshold_date: Option<Date>,
    pub due_date: Option<Date>,
    pub recurrence: Option<Recurrence>,
    pub flagged: bool,
    pub projects: Seq<Seq<char>>,
    pub contexts: Seq<Seq<char>>,
    pub tags: Seq<(Seq<char>, Seq<char>)>,
    pub note: Option<Seq<char>>,
    pub id: nat,
}

impl View for Task {
    type V = TaskView;

    open spec fn view(&self) -> TaskView {
        TaskView {
            finished: self.finished,
            priority: self.priority,
            completion_date: self.completion_date,
            creation_date: self.creation_date,
            subject: self.subject@,
            threshold_date: self.threshold_date,
            due_date: self.due_date,
            recurrence: self.recurrence,
            flagged: self.flagged,
            projects: self.projects.deep_view(),
            contexts: self.contexts.deep_view(),
            tags: Seq::new(self.tags@.len(), |i: int| (self.tags@[i].key@, self.tags@[i].value@)),
            note: match self.note.content {
                Some(ref c) => Some(c@),
                None => None,
            },
            id: self.id as nat,
        }
    }
}

/// A character of a `+project`/`@context` token name: Unicode alphanumeric,
/// underscore, hyphen or backslash.
pub open spec fn spec_is_tag_char(c: char) -> bool {
    crate::text::spec_unicode_alnum(c) || c == '_' || c == '-' || c == '\\'
}

pub open spec fn spec_all_tag_chars(s: Seq<char>) -> bool {
    forall|j: int| 0 <= j < s.len() ==> spec_is_tag_char(s[j])
}

/// `+name`: a project token, kept in the subject.
pub open spec fn spec_is_project_word(w: Seq<char>) -> bool {
    w.len() >= 2 && w[0] == '+' && spec_all_tag_chars(w.skip(1))
}

/// `@name`: a context token, kept in the subject.
pub open spec fn spec_is_context_word(w: Seq<char>) -> bool {
    w.len() >= 2 && w[0] == '@' && spec_all_tag_chars(w.skip(1))
}

/// Index of the first `:` at or after `i`, or the length of `w`.
pub open spec fn spec_colon_pos(w: Seq<char>, i: int) -> int
    decreases w.len() - i,
{
    if i < 0 || i >= w.len() {
        w.len() as int
    } else if w[i] == ':' {
        i
    } else {
        spec_colon_pos(w, i + 1)
    }
}

/// `key:value` with non-empty key and value.
pub open spec fn spec_is_kv(w: Seq<char>) -> bool {
    1 <= spec_colon_pos(w, 0) && spec_colon_pos(w, 0) + 1 < w.len()
}

pub open spec fn spec_kv_key(w: Seq<char>) -> Seq<char> {
    w.take(spec_colon_pos(w, 0))
}

pub open spec fn spec_kv_value(w: Seq<char>) -> Seq<char> {
    w.skip(spec_colon_pos(w, 0) + 1)
}

/// `(A)` to `(Z)`.
pub open spec fn spec_is_priority_word(w: Seq<char>) -> bool {
    w.len() == 3 && w[0] == '(' && 'A' <= w[1] <= 'Z' && w[2] == ')'
}

pub open spec fn spec_priority_of_word(w: Seq<char>) -> u8 {
    (w[1] as int - 'A' as int) as u8
}

pub open spec fn spec_is_x_word(w: Seq<char>) -> bool {
    w.len() == 1 && w[0] == 'x'
}

/// Append `x` unless already present, keeping first-occurrence order.
pub open spec fn spec_add_unique(s: Seq<Seq<char>>, x: Seq<char>) -> Seq<Seq<char>> {
    if s.contains(x) {
        s
    } else {
        s.push(x)
    }
}

/// The running result of scanning the subject words.
pub struct ScanState {
    pub subject_words: Seq<Seq<char>>,
    pub projects: Seq<Seq<char>>,
    pub contexts: Seq<Seq<char>>,
    pub tags: Seq<(Seq<char>, Seq<char>)>,
    pub due: Option<Date>,
    pub threshold: Option<Date>,
    pub rec: Option<Recurrence>,
}

pub open spec fn spec_scan_init() -> ScanState {
    ScanState {
        subject_words: Seq::empty(),
        projects: Seq::empty(),
        contexts: Seq::empty(),
        tags: Seq::empty(),
        due: None,
        threshold: None,
        rec: None,
    }
}

/// Classify one word. `due:`, `t:` and `rec:` words with readable values set
/// the structured field (the last occurrence wins) and vanish from the
/// subject; everything else stays in the subject, with projects, contexts and
/// other `key:value` words also recorded.
pub open spec fn spec_scan_step(st: ScanState, w: Seq<char>) -> ScanState {
    if spec_is_project_word(w) {
        ScanState {
            subject_words: st.subject_words.push(w),
            projects: spec_add_unique(st.projects, w.skip(1)),
            ..st
        }
    } else if spec_is_context_word(w) {
        ScanState {
            subject_words: st.subject_words.push(w),
            contexts: spec_add_unique(st.contexts, w.skip(1)),
            ..st
        }
    } else if spec_is_kv(w) {
        if spec_kv_key(w) == seq!['d', 'u', 'e'] {
            if spec_parse_date(spec_kv_value(w)) is Some {
                ScanState { due: spec_parse_date(spec_kv_value(w)), ..st }
            } else {
                ScanState { subject_words: st.subject_words.push(w), ..st }
            }
        } else if spec_kv_key(w) == seq!['t'] {
            if spec_parse_date(spec_kv_value(w)) is Some {
                ScanState { threshold: spec_parse_date(spec_kv_value(w)), ..st }
            } else {
                ScanState { subject_words: st.subject_words.push(w), ..st }
            }
        } else if spec_kv_key(w) == seq!['r', 'e', 'c'] {
            if Recurrence::spec_parse(spec_kv_value(w)) is Some {
                ScanState { rec: Recurrence::spec_parse(spec_kv_value(w)), ..st }
            } else {
                ScanState { subject_words: st.subject_words.push(w), ..st }
            }
        } else {
            ScanState {
                subject_words: st.subject_words.push(w),
                tags: st.tags.push((spec_kv_key(w), spec_kv_value(w))),
                ..st
            }
        }
    } else {
        ScanState { subject_words: st.subject_words.push(w), ..st }
    }
}

/// State after scanning the first `j` words.
pub open spec fn spec_scan(body: Seq<Seq<char>>, j: int) -> ScanState
    decreases j,
{
    if j <= 0 {
        spec_scan_init()
    } else {
        spec_scan_step(spec_scan(body, j - 1), body[j - 1])
    }
}

/// Whether the first word is the completion marker `x`.
pub open spec fn spec_ws_finished(ws: Seq<Seq<char>>) -> bool {
    ws.len() > 0 && spec_is_x_word(ws[0])
}

pub open spec fn spec_ws_after_x(ws: Seq<Seq<char>>) -> Seq<Seq<char>> {
    if spec_ws_finished(ws) {
        ws.skip(1)
    } else {
        ws
    }
}

/// A finished task may carry two leading dates (completion then creation);
/// a single leading date is a creation date only.
pub open spec fn spec_two_dates(finished: bool, s: Seq<Seq<char>>) -> bool {
    finished && s.len() >= 2 && spec_parse_date(s[0]) is Some && spec_parse_date(s[1]) is Some
}

pub open spec fn spec_one_date(finished: bool, s: Seq<Seq<char>>) -> bool {
    !spec_two_dates(finished, s) && s.len() >= 1 && spec_parse_date(s[0]) is Some
}

pub open spec fn spec_ws_after_dates(finished: bool, s: Seq<Seq<char>>) -> Seq<Seq<char>> {
    if spec_two_dates(finished, s) {
        s.skip(2)
    } else if spec_one_date(finished, s) {
        s.skip(1)
    } else {
        s
    }
}

pub open spec fn spec_ws_has_priority(s: Seq<Seq<char>>) -> bool {
    s.len() > 0 && spec_is_priority_word(s[0])
}

pub open spec fn spec_ws_after_priority(s: Seq<Seq<char>>) -> Seq<Seq<char>> {
    if spec_ws_has_priority(s) {
        s.skip(1)
    } else {
        s
    }
}

/// A leading `!` marks the task flagged and is stripped from the text.
pub open spec fn spec_ws_flagged(s: Seq<Seq<char>>) -> bool {
    s.len() > 0 && s[0].len() > 0 && s[0][0] == '!'
}

pub open spec fn spec_ws_body(s: Seq<Seq<char>>) -> Seq<Seq<char>> {
    if spec_ws_flagged(s) {
        if s[0].len() == 1 {
            s.skip(1)
        } else {
            seq![s[0].skip(1)] + s.skip(1)
        }
    } else {
        s
    }
}

/// The task encoded by a word list.
pub open spec fn spec_task_of_words(ws: Seq<Seq<char>>) -> TaskView {
    let finished = spec_ws_finished(ws);
    let s1 = spec_ws_after_x(ws);
    let completion = if spec_two_dates(finished, s1) {
        spec_parse_date(s1[0])
    } else {
        None
    };
    let creation = if spec_two_dates(finished, s1) {
        spec_parse_date(s1[1])
    } else if spec_one_date(finished, s1) {
        spec_parse_date(s1[0])
    } else {
        None
    };
    let s2 = spec_ws_after_dates(finished, s1);
    let priority = if spec_ws_has_priority(s2) {
        Some(spec_priority_of_word(s2[0]))
    } else {
        None
    };
    let s3 = spec_ws_after_priority(s2);
    let flagged = spec_ws_flagged(s3);
    let body = spec_ws_body(s3);
    let st = spec_scan(body, body.len() as int);
    TaskView {
        finished,
        priority,
        completion_date: completion,
        creation_date: creation,
        subject: spec_join(st.subject_words),
        threshold_date: st.threshold,
        due_date: st.due,
        recurrence: st.rec,
        flagged,
        projects: st.projects,
        contexts: st.contexts,
        tags: st.tags,
        note: None,
        id: 0,
    }
}

/// What parsing one line yields; parsing never fails.
pub open spec fn spec_parse_task(line: Seq<char>) -> TaskView {
    spec_task_of_words(spec_words(line))
}

pub fn subvec(w: &Vec<char>, a: usize, b: usize) -> (r: Vec<char>)
    requires
        a <= b <= w@.len(),
    ensures
        r@ == w@.subrange(a as int, b as int),
{
    let mut out: Vec<char> = Vec::new();
    let mut j: usize = a;
    while j < b
        invariant
            a <= j <= b <= w@.len(),
            out@ == w@.subrange(a as int, j as int),
        decreases b - j,
    {
        out.push(w[j]);
        proof {
            assert(w@.subrange(a as int, j + 1 as int) =~= w@.subrange(a as int, j as int).push(
                w@[j as int],
            ));
        }
        j = j + 1;
    }
    out
}

pub fn is_tag_char(c: char) -> (r: bool)
    ensures
        r == spec_is_tag_char(c),
{
    crate::text::unicode_alnum(c) || c == '_' || c == '-' || c == '\\'
}

fn all_tag_chars_from(w: &Vec<char>, from: usize) -> (r: bool)
    requires
        from <= w@.len(),
    ensures
        r == spec_all_tag_chars(w@.skip(from as int)),
{
    let mut j: usize = from;
    while j < w.len()
        invariant
            from <= j <= w@.len(),
            forall|k: int| from <= k < j ==> spec_is_tag_char(w@[k]),
        decreases w@.len() - j,
    {
        if !is_tag_char(w[j]) {
            assert(w@.skip(from as int)[j - from] == w@[j as int]);
            return false;
        }
        j = j + 1;
    }
    assert forall|k: int| 0 <= k < w@.skip(from as int).len() implies spec_is_tag_char(
        w@.skip(from as int)[k],
    ) by {
        assert(w@.skip(from as int)[k] == w@[k + from]);
    }
    true
}

fn find_colon(w: &Vec<char>) -> (r: usize)
    ensures
        r == spec_colon_pos(w@, 0),
        r <= w@.len(),
{
    let mut j: usize = 0;
    while j < w.len()
        invariant
            j <= w@.len(),
            spec_colon_pos(w@, j as int) == spec_colon_pos(w@, 0),
        decreases w@.len() - j,
    {
        if w[j] == ':' {
            return j;
        }
        j = j + 1;
    }
    j
}

/// The running scan over the subject words, the executable twin of
/// [`ScanState`].
struct ScanExec {
    subject_words: Vec<Vec<char>>,
    projects: Vec<String>,
    contexts: Vec<String>,
    tags: Vec<TagEntry>,
    due: Option<Date>,
    threshold: Option<Date>,
    rec: Option<Recurrence>,
}

impl View for ScanExec {
    type V = ScanState;

    closed spec fn view(&self) -> ScanState {
        ScanState {
            subject_words: self.subject_words.deep_view(),
            projects: self.projects.deep_view(),
            contexts: self.contexts.deep_view(),
            tags: Seq::new(self.tags@.len(), |i: int| (self.tags@[i].key@, self.tags@[i].value@)),
            due: self.due,
            threshold: self.threshold,
            rec: self.rec,
        }
    }
}

fn vec_contains_string(v: &Vec<String>, s: &String) -> (r: bool)
    ensures
        r == v.deep_view().contains(s@),
{
    let mut j: usize = 0;
    while j < v.len()
        invariant
            j <= v@.len(),
            forall|k: int| 0 <= k < j ==> v.deep_view()[k] != s@,
        decreases v@.len() - j,
    {
        if v[j] == *s {
            assert(v.deep_view()[j as int] == s@);
            return true;
        }
        j = j + 1;
    }
    false
}

impl ScanExec {
    fn new() -> (r: ScanExec)
        ensures
            r@ == spec_scan_init(),
    {
        let r = ScanExec {
            subject_words: Vec::new(),
            projects: Vec::new(),
            contexts: Vec::new(),
            tags: Vec::new(),
            due: None,
            threshold: None,
            rec: None,
        };
        proof {
            assert(r@.subject_words =~= spec_scan_init().subject_words);
            assert(r@.projects =~= spec_scan_init().projects);
            assert(r@.contexts =~= spec_scan_init().contexts);
            assert(r@.tags =~= spec_scan_init().tags);
        }
        r
    }

    fn push_subject_word(&mut self, w: Vec<char>)
        ensures
            final(self)@ == (ScanState { subject_words: old(self)@.subject_words.push(w@), ..old(self)@ }),
    {
        let ghost prev = self.subject_words.deep_view();
        let ghost wv = w@;
        self.subject_words.push(w);
        proof {
            assert forall|q: int|
                0 <= q < self.subject_words.deep_view().len() implies self.subject_words.deep_view()[q]
                == prev.push(wv)[q] by {}
            assert(self.subject_words.deep_view() =~= prev.push(wv));
        }
    }

    fn add_project(&mut self, p: String)
        ensures
            final(self)@ == (ScanState { projects: spec_add_unique(old(self)@.projects, p@), ..old(self)@ }),
    {
        let ghost prev = self.projects.deep_view();
        if !vec_contains_string(&self.projects, &p) {
            let ghost pv = p@;
            self.projects.push(p);
            proof {
                assert forall|q: int|
                    0 <= q < self.projects.deep_view().len() implies self.projects.deep_view()[q]
                    == prev.push(pv)[q] by {}
                assert(self.projects.deep_view() =~= prev.push(pv));
            }
        }
    }

    fn add_context(&mut self, c: String)
        ensures
            final(self)@ == (ScanState { contexts: spec_add_unique(old(self)@.contexts, c@), ..old(self)@ }),
    {
        let ghost prev = self.contexts.deep_view();
        if !vec_contains_string(&self.contexts, &c) {
            let ghost cv = c@;
            self.contexts.push(c);
            proof {
                assert forall|q: int|
                    0 <= q < self.contexts.deep_view().len() implies self.contexts.deep_view()[q]
                    == prev.push(cv)[q] by {}
                assert(self.contexts.deep_view() =~= prev.push(cv));
            }
        }
    }

    fn add_tag(&mut self, key: String, value: String)
        ensures
            final(self)@ == (ScanState { tags: old(self)@.tags.push((key@, value@)), ..old(self)@ }),
    {
        let ghost prev = self@.tags;
        let ghost kv = (key@, value@);
        self.tags.push(TagEntry { key, value });
        proof {
            assert(self@.tags =~= prev.push(kv));
        }
    }

    /// Process one word, as [`spec_scan_step`] describes.
    fn scan_word(&mut self, w: &Vec<char>)
        ensures
            final(self)@ == spec_scan_step(old(self)@, w@),
    {
        if w.len() >= 2 && (w[0] == '+' || w[0] == '@') && all_tag_chars_from(w, 1) {
            let name = string_of(&subvec(w, 1, w.len()));
            if w[0] == '+' {
                assert(spec_is_project_word(w@));
                self.add_project(name);
                self.push_subject_word(subvec(w, 0, w.len()));
                proof {
                    assert(w@.subrange(0, w@.len() as int) =~= w@);
                }
            } else {
                assert(spec_is_context_word(w@));
                assert(!spec_is_project_word(w@));
                self.add_context(name);
                self.push_subject_word(subvec(w, 0, w.len()));
                proof {
                    assert(w@.subrange(0, w@.len() as int) =~= w@);
                }
            }
            return ;
        }
        assert(!spec_is_project_word(w@) && !spec_is_context_word(w@)) by {
            if spec_is_project_word(w@) {
                assert(w@.skip(1)[0] == w@[1]);
            }
            if spec_is_context_word(w@) {
                assert(w@.skip(1)[0] == w@[1]);
            }
        }
        let cp = find_colon(w);
        if 1 <= cp && cp < w.len() && w.len() - cp > 1 {
            assert(spec_is_kv(w@));
            let key = subvec(w, 0, cp);
            let value = subvec(w, cp + 1, w.len());
            proof {
                assert(key@ == spec_kv_key(w@));
                assert(value@ == spec_kv_value(w@));
            }
            if cp == 3 && w[0] == 'd' && w[1] == 'u' && w[2] == 'e' {
                assert(spec_kv_key(w@) =~= seq!['d', 'u', 'e']);
                match parse_date(&value) {
                    Some(d) => {
                        self.due = Some(d);
                    },
                    None => {
                        self.push_subject_word(subvec(w, 0, w.len()));
                        proof {
                            assert(w@.subrange(0, w@.len() as int) =~= w@);
                        }
                    },
                }
                return ;
            }
            proof {
                if spec_kv_key(w@) == seq!['d', 'u', 'e'] {
                    assert(spec_colon_pos(w@, 0) == 3);
                    assert(spec_kv_key(w@)[0] == 'd' && spec_kv_key(w@)[1] == 'u' && spec_kv_key(
                        w@,
                    )[2] == 'e');
                    assert(w@[0] == 'd' && w@[1] == 'u' && w@[2] == 'e');
                }
            }
            if cp == 1 && w[0] == 't' {
                assert(spec_kv_key(w@) =~= seq!['t']);
                match parse_date(&value) {
                    Some(d) => {
                        self.threshold = Some(d);
                    },
                    None => {
                        self.push_subject_word(subvec(w, 0, w.len()));
                        proof {
                            assert(w@.subrange(0, w@.len() as int) =~= w@);
                        }
                    },
                }
                return ;
            }
            proof {
                if spec_kv_key(w@) == seq!['t'] {
                    assert(spec_colon_pos(w@, 0) == 1);
                    assert(spec_kv_key(w@)[0] == 't');
                    assert(w@[0] == 't');
                }
            }
            if cp == 3 && w[0] == 'r' && w[1] == 'e' && w[2] == 'c' {
                assert(spec_kv_key(w@) =~= seq!['r', 'e', 'c']);
                match parse_recurrence(&value) {
                    Some(r) => {
                        self.rec = Some(r);
                    },
                    None => {
                        self.push_subject_word(subvec(w, 0, w.len()));
                        proof {
                            assert(w@.subrange(0, w@.len() as int) =~= w@);
                        }
                    },
                }
                return ;
            }
            proof {
                if spec_kv_key(w@) == seq!['r', 'e', 'c'] {
                    assert(spec_colon_pos(w@, 0) == 3);
                    assert(w@[0] == 'r' && w@[1] == 'e' && w@[2] == 'c');
                }
            }
            self.add_tag(string_of(&key), string_of(&value));
            self.push_subject_word(subvec(w, 0, w.len()));
            proof {
                assert(w@.subrange(0, w@.len() as int) =~= w@);
            }
            return ;
        }
        assert(!spec_is_kv(w@));
        self.push_subject_word(subvec(w, 0, w.len()));
        proof {
            assert(w@.subrange(0, w@.len() as int) =~= w@);
        }
    }
}

fn is_x_word(w: &Vec<char>) -> (r: bool)
    ensures
        r == spec_is_x_word(w@),
{
    w.len() == 1 && w[0] == 'x'
}

fn is_priority_word(w: &Vec<char>) -> (r: bool)
    ensures
        r == spec_is_priority_word(w@),
{
    w.len() == 3 && w[0] == '(' && 'A' <= w[1] && w[1] <= 'Z' && w[2] == ')'
}

impl Task {
    /// A brand-new empty task.
    pub fn new() -> (t: Task)
        ensures
            t@ == spec_parse_task(Seq::<char>::empty()),
    {
        let t = Task {
            finished: false,
            priority: None,
            completion_date: None,
            creation_date: None,
            subject: String::new(),
            threshold_date: None,
            due_date: None,
            recurrence: None,
            flagged: false,
            projects: Vec::new(),
            contexts: Vec::new(),
            tags: Vec::new(),
            note: Note { content: None },
            id: 0,
        };
        proof {
            let ws = spec_words(Seq::<char>::empty());
            assert(ws =~= Seq::<Seq<char>>::empty());
            let v = spec_parse_task(Seq::<char>::empty());
            assert(t@.projects =~= v.projects);
            assert(t@.contexts =~= v.contexts);
            assert(t@.tags =~= v.tags);
            assert(t@.subject =~= v.subject);
        }
        t
    }
}

struct Header {
    finished: bool,
    completion: Option<Date>,
    creation: Option<Date>,
    priority: Option<u8>,
    next: usize,
}

/// The completion date a word list carries, per the staged grammar.
pub open spec fn spec_ws_completion(ws: Seq<Seq<char>>) -> Option<Date> {
    let s1 = spec_ws_after_x(ws);
    if spec_two_dates(spec_ws_finished(ws), s1) {
        spec_parse_date(s1[0])
    } else {
        None
    }
}

pub open spec fn spec_ws_creation(ws: Seq<Seq<char>>) -> Option<Date> {
    let finished = spec_ws_finished(ws);
    let s1 = spec_ws_after_x(ws);
    if spec_two_dates(finished, s1) {
        spec_parse_date(s1[1])
    } else if spec_one_date(finished, s1) {
        spec_parse_date(s1[0])
    } else {
        None
    }
}

pub open spec fn spec_ws_priority(ws: Seq<Seq<char>>) -> Option<u8> {
    let s2 = spec_ws_after_dates(spec_ws_finished(ws), spec_ws_after_x(ws));
    if spec_ws_has_priority(s2) {
        Some(spec_priority_of_word(s2[0]))
    } else {
        None
    }
}

/// The words left over once marker, dates and priority are consumed.
pub open spec fn spec_ws_tail(ws: Seq<Seq<char>>) -> Seq<Seq<char>> {
    spec_ws_after_priority(spec_ws_after_dates(spec_ws_finished(ws), spec_ws_after_x(ws)))
}

#[verifier::rlimit(60)]
fn parse_header(words: &Vec<Vec<char>>) -> (h: Header)
    ensures
        h.finished == spec_ws_finished(words.deep_view()),
        h.completion == spec_ws_completion(words.deep_view()),
        h.creation == spec_ws_creation(words.deep_view()),
        h.priority == spec_ws_priority(words.deep_view()),
        h.next <= words.deep_view().len(),
        words.deep_view().skip(h.next as int) == spec_ws_tail(words.deep_view()),
{
    let ghost ws = words.deep_view();
    let n = words.len();
    assert(ws.len() == n);
    let mut p: usize = 0;
    let finished = n > 0 && is_x_word(&words[0]);
    assert(finished == spec_ws_finished(ws)) by {
        if n > 0 {
            assert(words@[0]@ == ws[0]);
        }
    }
    if finished {
        p = 1;
    }
    let ghost s1 = spec_ws_after_x(ws);
    proof {
        assert(s1 =~= ws.skip(p as int));
    }
    let d0 = if p < n {
        assert(words@[p as int]@ == ws[p as int]);
        parse_date(&words[p])
    } else {
        None
    };
    let d1 = if p + 1 < n {
        assert(words@[p + 1 as int]@ == ws[p + 1 as int]);
        parse_date(&words[p + 1])
    } else {
        None
    };
    proof {
        if s1.len() >= 1 {
            assert(s1[0] == ws[p as int]);
        }
        if s1.len() >= 2 {
            assert(s1[1] == ws[p + 1 as int]);
        }
    }
    let mut completion: Option<Date> = None;
    let mut creation: Option<Date> = None;
    if finished && d0.is_some() && d1.is_some() {
        assert(spec_two_dates(finished, s1));
        completion = d0;
        creation = d1;
        p = p + 2;
    } else if d0.is_some() {
        assert(!spec_two_dates(finished, s1) && spec_one_date(finished, s1));
        creation = d0;
        p = p + 1;
    } else {
        assert(!spec_two_dates(finished, s1) && !spec_one_date(finished, s1));
    }
    let ghost s2 = spec_ws_after_dates(finished, s1);
    proof {
        assert(s2 =~= ws.skip(p as int));
    }
    let mut priority: Option<u8> = None;
    if p < n && is_priority_word(&words[p]) {
        assert(words@[p as int]@ == ws[p as int]);
        assert(s2[0] == ws[p as int]);
        assert(spec_ws_has_priority(s2));
        let c = words[p][1];
        priority = Some(((c as u32) - ('A' as u32)) as u8);
        assert(priority == Some(spec_priority_of_word(s2[0])));
        p = p + 1;
    } else {
        proof {
            if s2.len() > 0 {
                assert(words@[p as int]@ == ws[p as int]);
                assert(s2[0] == ws[p as int]);
            }
            assert(!spec_ws_has_priority(s2));
        }
    }
    proof {
        assert(spec_ws_tail(ws) =~= ws.skip(p as int));
    }
    Header { finished, completion, creation, priority, next: p }
}

impl Task {
    /// Parse one line; never fails, unrecognized text stays in the subject.
    #[verifier::rlimit(60)]
    pub fn parse(line: &str) -> (t: Task)
        ensures
            t@ == spec_parse_task(line@),
    {
        let chars = chars_of(line);
        let words = split_words(&chars);
        let ghost ws = spec_words(line@);
        proof {
            assert(words.deep_view() == ws);
        }
        let n = words.len();
        assert(ws.len() == n);
        let h = parse_header(&words);
        let mut p: usize = h.next;
        let ghost s3 = spec_ws_tail(ws);
        proof {
            assert(s3 == ws.skip(p as int));
        }
        let mut flagged = false;
        let mut st = ScanExec::new();
        let ghost body = spec_ws_body(s3);
        let mut scanned: usize = 0;
        if p < n && words[p].len() > 0 && words[p][0] == '!' {
            assert(s3[0] == ws[p as int]);
            assert(spec_ws_flagged(s3));
            flagged = true;
            if words[p].len() > 1 {
                let rest0 = subvec(&words[p], 1, words[p].len());
                proof {
                    assert(rest0@ =~= s3[0].skip(1));
                    assert(body =~= seq![s3[0].skip(1)] + s3.skip(1));
                    assert(body[0] == rest0@);
                }
                st.scan_word(&rest0);
                scanned = 1;
            } else {
                proof {
                    assert(body =~= s3.skip(1));
                }
            }
            p = p + 1;
        } else {
            proof {
                if s3.len() > 0 {
                    assert(s3[0] == ws[p as int]);
                }
                assert(!spec_ws_flagged(s3));
                assert(body =~= s3);
            }
        }
        proof {
            assert(body.len() == scanned + (n - p));
            assert(forall|k: int| p <= k < n ==> body[scanned + k - p] == ws[k]);
            assert(spec_scan(body, 0) == spec_scan_init());
            if scanned == 1 {
                assert(spec_scan(body, 1) == spec_scan_step(spec_scan(body, 0), body[0]));
            }
            assert(st@ == spec_scan(body, scanned as int));
        }
        let mut q: usize = p;
        while q < n
            invariant
                p <= q <= n,
                n == ws.len(),
                words.deep_view() == ws,
                body.len() == scanned + (n - p),
                scanned <= 1,
                forall|k: int| p <= k < n ==> body[scanned + k - p] == ws[k],
                st@ == spec_scan(body, scanned + q - p),
            decreases n - q,
        {
            let ghost k = scanned + q - p;
            proof {
                assert(body[k] == ws[q as int]);
                assert(words@[q as int]@ == words.deep_view()[q as int]);
            }
            let ghost prev = st@;
            st.scan_word(&words[q]);
            proof {
                assert(st@ == spec_scan_step(prev, body[k]));
                assert(spec_scan(body, k + 1) == spec_scan_step(spec_scan(body, k), body[k]));
            }
            q = q + 1;
        }
        proof {
            assert(scanned + q - p == body.len());
        }
        let subject_chars = join_words(&st.subject_words);
        let subject = string_of(&subject_chars);
        let t = Task {
            finished: h.finished,
            priority: h.priority,
            completion_date: h.completion,
            creation_date: h.creation,
            subject,
            threshold_date: st.threshold,
            due_date: st.due,
            recurrence: st.rec,
            flagged,
            projects: st.projects,
            contexts: st.contexts,
            tags: st.tags,
            note: Note { content: None },
            id: 0,
        };
        proof {
            let v = spec_parse_task(line@);
            let fst = spec_scan(body, body.len() as int);
            assert(t@.tags =~= fst.tags);
        }
        t
    }

    /// Mark the task done as of `today`; a no-op on an already finished task.
    pub fn complete(&mut self, today: Date)
        ensures
            final(self)@ == spec_complete(old(self)@, today),
    {
        if !self.finished {
            self.finished = true;
            self.completion_date = Some(today);
        }
    }

    /// Clear the done mark and the completion date; idempotent.
    pub fn uncomplete(&mut self)
        ensures
            final(self)@ == spec_uncomplete(old(self)@),
    {
        self.finished = false;
        self.completion_date = None;
    }
}

/// The priority letter: 0 writes `A`, 25 writes `Z`.
pub open spec fn spec_priority_char(p: u8) -> char {
    if p == 0 {
        'A'
    } else if p == 1 {
        'B'
    } else if p == 2 {
        'C'
    } else if p == 3 {
        'D'
    } else if p == 4 {
        'E'
    } else if p == 5 {
        'F'
    } else if p == 6 {
        'G'
    } else if p == 7 {
        'H'
    } else if p == 8 {
        'I'
    } else if p == 9 {
        'J'
    } else if p == 10 {
        'K'
    } else if p == 11 {
        'L'
    } else if p == 12 {
        'M'
    } else if p == 13 {
        'N'
    } else if p == 14 {
        'O'
    } else if p == 15 {
        'P'
    } else if p == 16 {
        'Q'
    } else if p == 17 {
        'R'
    } else if p == 18 {
        'S'
    } else if p == 19 {
        'T'
    } else if p == 20 {
        'U'
    } else if p == 21 {
        'V'
    } else if p == 22 {
        'W'
    } else if p == 23 {
        'X'
    } else if p == 24 {
        'Y'
    } else {
        'Z'
    }
}

fn priority_char(p: u8) -> (c: char)
    ensures
        c == spec_priority_char(p),
{
    match p {
        0 => 'A',
        1 => 'B',
        2 => 'C',
        3 => 'D',
        4 => 'E',
        5 => 'F',
        6 => 'G',
        7 => 'H',
        8 => 'I',
        9 => 'J',
        10 => 'K',
        11 => 'L',
        12 => 'M',
        13 => 'N',
        14 => 'O',
        15 => 'P',
        16 => 'Q',
        17 => 'R',
        18 => 'S',
        19 => 'T',
        20 => 'U',
        21 => 'V',
        22 => 'W',
        23 => 'X',
        24 => 'Y',
        _ => 'Z',
    }
}

pub open spec fn spec_priority_word(p: u8) -> Seq<char> {
    seq!['(', spec_priority_char(p), ')']
}

pub open spec fn spec_opt_date_word(d: Option<Date>) -> Seq<Seq<char>> {
    match d {
        Some(d) => seq![spec_fmt_date(d)],
        None => Seq::empty(),
    }
}

/// A date can only be written when its fields fit the `YYYY-MM-DD` shape.
pub open spec fn spec_date_writable(d: Option<Date>) -> bool {
    match d {
        Some(d) => d.year <= 9999 && d.month <= 99 && d.day <= 99,
        None => true,
    }
}

impl TaskView {
    /// The line format can carry the record: every date fits four-two-two
    /// digits and the priority is a letter.
    pub open spec fn writable(self) -> bool {
        &&& match self.priority {
            Some(p) => p < 26,
            None => true,
        }
        &&& spec_date_writable(self.completion_date)
        &&& spec_date_writable(self.creation_date)
        &&& spec_date_writable(self.due_date)
        &&& spec_date_writable(self.threshold_date)
    }
}

/// The leading words: marker, dates, priority letter, flag.
pub open spec fn spec_header_words(t: TaskView) -> Seq<Seq<char>> {
    (if t.finished {
        seq![seq!['x']]
    } else {
        Seq::<Seq<char>>::empty()
    }) + spec_opt_date_word(t.completion_date) + spec_opt_date_word(t.creation_date) + (match t
        .priority {
        Some(p) => seq![spec_priority_word(p)],
        None => Seq::<Seq<char>>::empty(),
    }) + (if t.flagged {
        seq![seq!['!']]
    } else {
        Seq::<Seq<char>>::empty()
    })
}

/// The trailing metadata words: `due:`, `t:` and `rec:`.
pub open spec fn spec_meta_words(t: TaskView) -> Seq<Seq<char>> {
    (match t.due_date {
        Some(d) => seq![seq!['d', 'u', 'e', ':'] + spec_fmt_date(d)],
        None => Seq::<Seq<char>>::empty(),
    }) + (match t.threshold_date {
        Some(d) => seq![seq!['t', ':'] + spec_fmt_date(d)],
        None => Seq::<Seq<char>>::empty(),
    }) + (match t.recurrence {
        Some(r) => seq![seq!['r', 'e', 'c', ':'] + r.spec_fmt()],
        None => Seq::<Seq<char>>::empty(),
    })
}

/// The words a task is written as: marker, dates, priority, flag, the subject
/// words, then the `due:`, `t:` and `rec:` metadata.
pub open spec fn spec_serialize_words(t: TaskView) -> Seq<Seq<char>> {
    spec_header_words(t) + spec_words(t.subject) + spec_meta_words(t)
}

/// The one line a task is written as.
pub open spec fn spec_serialize(t: TaskView) -> Seq<char> {
    spec_join(spec_serialize_words(t))
}

fn push_word(words: &mut Vec<Vec<char>>, w: Vec<char>)
    ensures
        final(words).deep_view() == old(words).deep_view().push(w@),
{
    let ghost prev = words.deep_view();
    let ghost wv = w@;
    words.push(w);
    proof {
        assert forall|q: int| 0 <= q < words.deep_view().len() implies words.deep_view()[q]
            == prev.push(wv)[q] by {}
        assert(words.deep_view() =~= prev.push(wv));
    }
}

fn append_words(words: &mut Vec<Vec<char>>, other: Vec<Vec<char>>)
    ensures
        final(words).deep_view() == old(words).deep_view() + other.deep_view(),
{
    let ghost prev = words.deep_view();
    let ghost ov = other.deep_view();
    let mut other = other;
    words.append(&mut other);
    proof {
        assert forall|q: int| 0 <= q < words.deep_view().len() implies words.deep_view()[q] == (prev
            + ov)[q] by {}
        assert(words.deep_view() =~= prev + ov);
    }
}

#[verifier::rlimit(60)]
fn header_words(t: &Task) -> (words: Vec<Vec<char>>)
    requires
        t@.writable(),
    ensures
        words.deep_view() == spec_header_words(t@),
{
    let mut words: Vec<Vec<char>> = Vec::new();
    proof {
        assert(words.deep_view() =~= Seq::<Seq<char>>::empty());
    }
    if t.finished {
        let mut w: Vec<char> = Vec::new();
        w.push('x');
        assert(w@ =~= seq!['x']);
        push_word(&mut words, w);
    }
    let ghost g1 = (if t@.finished {
        seq![seq!['x']]
    } else {
        Seq::<Seq<char>>::empty()
    });
    proof {
        assert(words.deep_view() =~= g1);
    }
    match t.completion_date {
        Some(d) => push_word(&mut words, fmt_date(d)),
        None => (),
    }
    let ghost g2 = g1 + spec_opt_date_word(t@.completion_date);
    proof {
        assert(words.deep_view() =~= g2);
    }
    match t.creation_date {
        Some(d) => push_word(&mut words, fmt_date(d)),
        None => (),
    }
    let ghost g3 = g2 + spec_opt_date_word(t@.creation_date);
    proof {
        assert(words.deep_view() =~= g3);
    }
    match t.priority {
        Some(p) => {
            let mut w: Vec<char> = Vec::new();
            w.push('(');
            w.push(priority_char(p));
            w.push(')');
            assert(w@ =~= spec_priority_word(p));
            push_word(&mut words, w);
        },
        None => (),
    }
    let ghost g4 = g3 + (match t@.priority {
        Some(p) => seq![spec_priority_word(p)],
        None => Seq::<Seq<char>>::empty(),
    });
    proof {
        assert(words.deep_view() =~= g4);
    }
    if t.flagged {
        let mut w: Vec<char> = Vec::new();
        w.push('!');
        assert(w@ =~= seq!['!']);
        push_word(&mut words, w);
    }
    proof {
        assert(words.deep_view() =~= spec_header_words(t@));
    }
    words
}

#[verifier::rlimit(60)]
fn meta_words(t: &Task) -> (words: Vec<Vec<char>>)
    requires
        t@.writable(),
    ensures
        words.deep_view() == spec_meta_words(t@),
{
    let mut words: Vec<Vec<char>> = Vec::new();
    proof {
        assert(words.deep_view() =~= Seq::<Seq<char>>::empty());
    }
    match t.due_date {
        Some(d) => {
            let mut w: Vec<char> = Vec::new();
            w.push('d');
            w.push('u');
            w.push('e');
            w.push(':');
            let mut f = fmt_date(d);
            w.append(&mut f);
            assert(w@ =~= seq!['d', 'u', 'e', ':'] + spec_fmt_date(d));
            push_word(&mut words, w);
        },
        None => (),
    }
    let ghost g1 = (match t@.due_date {
        Some(d) => seq![seq!['d', 'u', 'e', ':'] + spec_fmt_date(d)],
        None => Seq::<Seq<char>>::empty(),
    });
    proof {
        assert(words.deep_view() =~= g1);
    }
    match t.threshold_date {
        Some(d) => {
            let mut w: Vec<char> = Vec::new();
            w.push('t');
            w.push(':');
            let mut f = fmt_date(d);
            w.append(&mut f);
            assert(w@ =~= seq!['t', ':'] + spec_fmt_date(d));
            push_word(&mut words, w);
        },
        None => (),
    }
    let ghost g2 = g1 + (match t@.threshold_date {
        Some(d) => seq![seq!['t', ':'] + spec_fmt_date(d)],
        None => Seq::<Seq<char>>::empty(),
    });
    proof {
        assert(words.deep_view() =~= g2);
    }
    match t.recurrence {
        Some(r) => {
            let mut w: Vec<char> = Vec::new();
            w.push('r');
            w.push('e');
            w.push('c');
            w.push(':');
            let mut f = fmt_recurrence(r);
            w.append(&mut f);
            assert(w@ =~= seq!['r', 'e', 'c', ':'] + r.spec_fmt());
            push_word(&mut words, w);
        },
        None => (),
    }
    proof {
        assert(words.deep_view() =~= spec_meta_words(t@));
    }
    words
}

impl Task {
    /// Write the task back as one line.
    pub fn serialize(&self) -> (r: String)
        requires
            self@.writable(),
        ensures
            r@ == spec_serialize(self@),
    {
        let mut words = header_words(self);
        let subject_chars = chars_of(self.subject.as_str());
        let sw = split_words(&subject_chars);
        append_words(&mut words, sw);
        let mw = meta_words(self);
        append_words(&mut words, mw);
        proof {
            assert(words.deep_view() =~= spec_serialize_words(self@));
        }
        let line = join_words(&words);
        string_of(&line)
    }
}

/// Completion: sets the done mark and stamps today as completion date, unless
/// the task is already finished.
pub open spec fn spec_complete(t: TaskView, today: Date) -> TaskView {
    if t.finished {
        t
    } else {
        TaskView { finished: true, completion_date: Some(today), ..t }
    }
}

/// Uncompletion: clears the done mark and the completion date.
pub open spec fn spec_uncomplete(t: TaskView) -> TaskView {
    TaskView { finished: false, completion_date: None, ..t }
}

/// Completing and then uncompleting leaves the task unfinished with no
/// completion date and every other field unchanged; on a task that was
/// unfinished with no completion date it is a full round trip.
pub proof fn lemma_complete_uncomplete(t: TaskView, today: Date)
    ensures
        spec_uncomplete(spec_complete(t, today)) == (TaskView {
            finished: false,
            completion_date: None,
            ..t
        }),
        !t.finished && t.completion_date is None ==> spec_uncomplete(spec_complete(t, today)) == t,
{
    assert(spec_uncomplete(spec_complete(t, today)) =~= (TaskView {
        finished: false,
        completion_date: None,
        ..t
    }));
    if !t.finished && t.completion_date is None {
        assert(spec_uncomplete(spec_complete(t, today)) =~= t);
    }
}

} // verus!
