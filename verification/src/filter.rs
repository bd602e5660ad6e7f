//! Filter predicates over a task record: every view of the collection is a
//! conjunction of these, evaluated against an injected "today" date and the
//! view preferences.

use vstd::prelude::*;
use vstd::seq_lib::lemma_multiset_commutative;

use crate::date::Date;
use crate::list::List;
use crate::task::Task;
use crate::task::TaskView;
use crate::text::chars_of;
use crate::text::contains_chars;
use crate::text::lower_of;
use crate::text::lowercase;
use crate::text::spec_contains;

verus! {

pub fn is_flagged(t: &Task) -> (r: bool)
    ensures
        r == t@.flagged,
{
    t.flagged
}

/// Done tasks are hidden unless the view shows them.
pub open spec fn spec_visible_by_status(t: TaskView, show_done: bool) -> bool {
    show_done || !t.finished
}

pub fn is_visible_by_status(t: &Task, show_done: bool) -> (r: bool)
    ensures
        r == spec_visible_by_status(t@, show_done),
{
    show_done || !t.finished
}

/// A task deferred past today is hidden unless the view shows deferred tasks.
pub open spec fn spec_visible_by_defer(t: TaskView, show_defered: bool, today: Date) -> bool {
    show_defered || t.threshold_date is None || t.threshold_date->Some_0.spec_le(today)
}

pub fn is_visible_by_defer(t: &Task, show_defered: bool, today: Date) -> (r: bool)
    ensures
        r == spec_visible_by_defer(t@, show_defered, today),
{
    if show_defered {
        return true;
    }
    match t.threshold_date {
        None => true,
        Some(th) => crate::date::date_le(th, today),
    }
}

/// Case-insensitive substring match of the query against the subject; the
/// empty query matches every task.
pub fn matches_query(t: &Task, query: &str) -> (r: bool)
    ensures
        r == spec_contains(lower_of(t@.subject), lower_of(query@)),
        query@.len() == 0 ==> r,
{
    let subject_lower = lowercase(t.subject.as_str());
    let query_lower = lowercase(query);
    let hay = chars_of(subject_lower.as_str());
    let needle = chars_of(query_lower.as_str());
    let r = contains_chars(&hay, &needle);
    proof {
        if query@.len() == 0 {
            assert(needle@.len() == 0);
            assert(hay@.subrange(0, 0) =~= needle@);
            assert(crate::text::spec_matches_at(hay@, needle@, 0));
        }
    }
    r
}

/// Membership of `x` in a set of names.
pub open spec fn spec_member(names: Seq<Seq<char>>, x: Seq<char>) -> bool {
    names.contains(x)
}

fn member(names: &Vec<String>, x: &str) -> (r: bool)
    ensures
        r == spec_member(names.deep_view(), x@),
{
    let xs = String::from_str(x);
    let mut j: usize = 0;
    while j < names.len()
        invariant
            j <= names@.len(),
            xs@ == x@,
            forall|k: int| 0 <= k < j ==> names.deep_view()[k] != x@,
        decreases names@.len() - j,
    {
        if names[j].eq(&xs) {
            assert(names.deep_view()[j as int] == x@);
            return true;
        }
        j = j + 1;
    }
    false
}

pub fn has_project(t: &Task, name: &str) -> (r: bool)
    ensures
        r == spec_member(t@.projects, name@),
{
    member(&t.projects, name)
}

pub fn has_context(t: &Task, name: &str) -> (r: bool)
    ensures
        r == spec_member(t@.contexts, name@),
{
    member(&t.contexts, name)
}

/// Whether some metadata pair carries this key.
pub open spec fn spec_has_key(tags: Seq<(Seq<char>, Seq<char>)>, key: Seq<char>) -> bool {
    exists|i: int| 0 <= i < tags.len() && tags[i].0 == key
}

pub fn has_tag(t: &Task, key: &str) -> (r: bool)
    ensures
        r == spec_has_key(t@.tags, key@),
{
    let ks = String::from_str(key);
    let mut j: usize = 0;
    while j < t.tags.len()
        invariant
            j <= t.tags@.len(),
            ks@ == key@,
            t@.tags.len() == t.tags@.len(),
            forall|k: int| 0 <= k < j ==> t@.tags[k].0 != key@,
        decreases t.tags@.len() - j,
    {
        proof {
            assert(t@.tags[j as int].0 == t.tags@[j as int].key@);
        }
        if t.tags[j].key.eq(&ks) {
            return true;
        }
        j = j + 1;
    }
    false
}

/// What one view keeps of a task: the status gate, the defer gate and the
/// query match, conjoined.
pub open spec fn spec_view_pred(
    t: TaskView,
    show_done: bool,
    show_defered: bool,
    today: Date,
    query: Seq<char>,
) -> bool {
    &&& spec_visible_by_status(t, show_done)
    &&& spec_visible_by_defer(t, show_defered, today)
    &&& spec_contains(lower_of(t.subject), lower_of(query))
}

/// The subsequence of records a view shows, in collection order.
pub open spec fn spec_view_of(
    ts: Seq<TaskView>,
    show_done: bool,
    show_defered: bool,
    today: Date,
    query: Seq<char>,
) -> Seq<TaskView>
    decreases ts.len(),
{
    if ts.len() == 0 {
        Seq::empty()
    } else if spec_view_pred(ts.last(), show_done, show_defered, today, query) {
        spec_view_of(ts.drop_last(), show_done, show_defered, today, query).push(ts.last())
    } else {
        spec_view_of(ts.drop_last(), show_done, show_defered, today, query)
    }
}

/// One view of the collection: the records passing the status gate, the defer
/// gate and the query match, kept in collection order.
pub fn view_tasks(
    list: &List,
    show_done: bool,
    show_defered: bool,
    today: Date,
    query: &str,
) -> (r: Vec<Task>)
    ensures
        Seq::new(r@.len(), |i: int| r@[i]@) == spec_view_of(
            list@,
            show_done,
            show_defered,
            today,
            query@,
        ),
{
    let mut r: Vec<Task> = Vec::new();
    let mut i: usize = 0;
    proof {
        assert(Seq::new(r@.len(), |q: int| r@[q]@) =~= spec_view_of(
            list@.take(0),
            show_done,
            show_defered,
            today,
            query@,
        ));
    }
    while i < list.tasks.len()
        invariant
            i <= list@.len(),
            list@.len() == list.tasks@.len(),
            Seq::new(r@.len(), |q: int| r@[q]@) == spec_view_of(
                list@.take(i as int),
                show_done,
                show_defered,
                today,
                query@,
            ),
        decreases list@.len() - i,
    {
        proof {
            assert(list@[i as int] == list.tasks@[i as int]@);
        }
        let t = &list.tasks[i];
        let ghost prev = Seq::new(r@.len(), |q: int| r@[q]@);
        if is_visible_by_status(t, show_done) && is_visible_by_defer(t, show_defered, today)
            && matches_query(t, query) {
            let ghost prev_raw = r@;
            r.push(t.duplicate());
            proof {
                assert(r@ == prev_raw.push(r@[prev_raw.len() as int]));
                assert forall|q: int| 0 <= q < r@.len() implies Seq::new(r@.len(), |p: int| r@[p]@)[q]
                    == prev.push(list@[i as int])[q] by {}
                assert(Seq::new(r@.len(), |q: int| r@[q]@) =~= prev.push(list@[i as int]));
            }
        }
        proof {
            assert(list@.take(i + 1).drop_last() =~= list@.take(i as int));
            assert(list@.take(i + 1).last() == list@[i as int]);
            assert(Seq::new(r@.len(), |q: int| r@[q]@) =~= spec_view_of(
                list@.take(i + 1),
                show_done,
                show_defered,
                today,
                query@,
            ));
        }
        i = i + 1;
    }
    proof {
        assert(list@.take(list@.len() as int) =~= list@);
    }
    r
}

/// The agenda sort key: a dated task orders by its due date, an undated one
/// after every dated one.
pub open spec fn spec_agenda_key(t: TaskView) -> int {
    match t.due_date {
        Some(d) => d.year * 10000 + d.month * 100 + d.day,
        None => u64::MAX as int,
    }
}

/// On well-formed dates the key order is exactly the calendar order, and an
/// undated task keys strictly after every dated one.
pub proof fn lemma_agenda_key_orders(a: TaskView, b: TaskView)
    requires
        a.due_date is Some ==> a.due_date->Some_0.wf(),
        b.due_date is Some ==> b.due_date->Some_0.wf(),
    ensures
        a.due_date is Some && b.due_date is Some ==> (spec_agenda_key(a) <= spec_agenda_key(b)
            <==> a.due_date->Some_0.spec_le(b.due_date->Some_0)),
        a.due_date is Some && b.due_date is None ==> spec_agenda_key(a) < spec_agenda_key(b),
{
    if a.due_date is Some && b.due_date is Some {
        let x = a.due_date->Some_0;
        let y = b.due_date->Some_0;
        assert(x.year * 10000 + x.month * 100 + x.day <= y.year * 10000 + y.month * 100 + y.day
            <==> x.spec_le(y)) by (nonlinear_arith)
            requires
                1 <= x.month <= 12 && 1 <= x.day <= 31 && 1 <= y.month <= 12 && 1 <= y.day <= 31,
        ;
    }
}

fn agenda_key(t: &Task) -> (k: u64)
    ensures
        k as int == spec_agenda_key(t@),
{
    match t.due_date {
        Some(d) => d.year as u64 * 10000 + d.month as u64 * 100 + d.day as u64,
        None => u64::MAX,
    }
}

pub open spec fn spec_agenda_sorted(ts: Seq<TaskView>) -> bool {
    forall|i: int, j: int|
        0 <= i < j < ts.len() ==> spec_agenda_key(ts[i]) <= spec_agenda_key(ts[j])
}

pub open spec fn spec_task_views(s: Seq<Task>) -> Seq<TaskView> {
    Seq::new(s.len(), |i: int| s[i]@)
}

/// Inserting an element anywhere adds exactly it to the multiset.
proof fn lemma_insert_to_multiset(s: Seq<TaskView>, k: int, v: TaskView)
    requires
        0 <= k <= s.len(),
    ensures
        s.insert(k, v).to_multiset() == s.to_multiset().insert(v),
{
    broadcast use vstd::seq_lib::group_to_multiset_ensures;

    assert(s.insert(k, v) =~= s.take(k) + (seq![v] + s.skip(k)));
    lemma_multiset_commutative(s.take(k), seq![v] + s.skip(k));
    lemma_multiset_commutative(seq![v], s.skip(k));
    assert(s =~= s.take(k) + s.skip(k));
    lemma_multiset_commutative(s.take(k), s.skip(k));
    assert(seq![v] =~= Seq::<TaskView>::empty().push(v));
    assert(Seq::<TaskView>::empty().push(v).to_multiset() =~= Seq::<TaskView>::empty().to_multiset().insert(v));
    assert(s.insert(k, v).to_multiset() =~= s.to_multiset().insert(v));
}

/// The position behind every task whose key is not larger: where an
/// insertion keeps both the order and, among equal keys, the given order.
fn find_agenda_pos(r: &Vec<Task>, key: u64) -> (pos: usize)
    ensures
        pos <= r@.len(),
        forall|q: int|
            0 <= q < pos ==> spec_agenda_key(#[trigger] spec_task_views(r@)[q]) <= key as int,
        pos < r@.len() ==> spec_agenda_key(spec_task_views(r@)[pos as int]) > key as int,
{
    let mut pos: usize = 0;
    while pos < r.len()
        invariant
            pos <= r@.len(),
            forall|q: int|
                0 <= q < pos ==> spec_agenda_key(#[trigger] spec_task_views(r@)[q]) <= key as int,
        decreases r@.len() - pos,
    {
        let k2 = agenda_key(&r[pos]);
        proof {
            assert(spec_task_views(r@)[pos as int] == r@[pos as int]@);
        }
        if k2 > key {
            return pos;
        }
        pos = pos + 1;
    }
    pos
}

/// The agenda ordering of a set of tasks: due dates ascending, tasks without
/// a due date after all dated ones. Each task is inserted behind every task
/// whose key is not larger, so tasks of equal key keep their given order.
#[verifier::rlimit(60)]
pub fn agenda_order(tasks: &Vec<Task>) -> (r: Vec<Task>)
    ensures
        spec_task_views(r@).to_multiset() == spec_task_views(tasks@).to_multiset(),
        spec_agenda_sorted(spec_task_views(r@)),
{
    let mut r: Vec<Task> = Vec::new();
    let mut i: usize = 0;
    proof {
        broadcast use vstd::seq_lib::group_to_multiset_ensures;

        assert(spec_task_views(r@) =~= Seq::<TaskView>::empty());
        assert(spec_task_views(tasks@.take(0)) =~= Seq::<TaskView>::empty());
    }
    while i < tasks.len()
        invariant
            i <= tasks@.len(),
            spec_task_views(r@).to_multiset() == spec_task_views(
                tasks@.take(i as int),
            ).to_multiset(),
            spec_agenda_sorted(spec_task_views(r@)),
        decreases tasks@.len() - i,
    {
        let t = &tasks[i];
        let key = agenda_key(t);
        let pos = find_agenda_pos(&r, key);
        let ghost prev = spec_task_views(r@);
        let ghost prev_raw = r@;
        r.insert(pos, t.duplicate());
        proof {
            broadcast use vstd::seq_lib::group_to_multiset_ensures;

            assert(r@ == prev_raw.insert(pos as int, r@[pos as int]));
            assert(r@[pos as int]@ == t@);
            assert forall|q: int| 0 <= q < r@.len() implies spec_task_views(r@)[q] == prev.insert(
                pos as int,
                t@,
            )[q] by {
                if q < pos {
                    assert(r@[q] == prev_raw[q]);
                } else if q > pos {
                    assert(r@[q] == prev_raw[q - 1]);
                }
            }
            assert(spec_task_views(r@) =~= prev.insert(pos as int, t@));
            lemma_insert_to_multiset(prev, pos as int, t@);
            assert(tasks@.take(i + 1).drop_last() =~= tasks@.take(i as int));
            assert(spec_task_views(tasks@.take(i + 1)) =~= spec_task_views(
                tasks@.take(i as int),
            ).push(tasks@[i as int]@));
            assert(spec_task_views(r@).to_multiset() =~= spec_task_views(
                tasks@.take(i + 1),
            ).to_multiset());
            let now = spec_task_views(r@);
            assert(now == prev.insert(pos as int, t@));
            assert(spec_agenda_sorted(now)) by {
                assert forall|a: int, b: int|
                    0 <= a < b < now.len() implies spec_agenda_key(now[a]) <= spec_agenda_key(
                    now[b],
                ) by {
                    if b < pos {
                        assert(now[a] == prev[a] && now[b] == prev[b]);
                    } else if b == pos {
                        assert(now[a] == prev[a]);
                        assert(spec_agenda_key(prev[a]) <= key as int);
                    } else {
                        assert(now[b] == prev[b - 1]);
                        if a < pos {
                            assert(now[a] == prev[a]);
                            if a < b - 1 {
                                assert(spec_agenda_key(prev[a]) <= spec_agenda_key(prev[b - 1]));
                            } else {
                                assert(prev[a] == prev[b - 1]);
                            }
                        } else if a == pos {
                            assert(now[a] == t@);
                            assert(pos < prev.len());
                            assert(spec_agenda_key(prev[pos as int]) > key as int);
                            if pos < b - 1 {
                                assert(spec_agenda_key(prev[pos as int]) <= spec_agenda_key(
                                    prev[b - 1],
                                ));
                            }
                        } else {
                            assert(now[a] == prev[a - 1]);
                            assert(spec_agenda_key(prev[a - 1]) <= spec_agenda_key(prev[b - 1]));
                        }
                    }
                }
            }
        }
        i = i + 1;
    }
    proof {
        assert(tasks@.take(tasks@.len() as int) =~= tasks@);
    }
    r
}

} // verus!
