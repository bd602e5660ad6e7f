//! The ordered task collection: records live at dense indices 0..len and a
//! record's `id` is its index. Loading parses the active source's lines and
//! then the archive's into one continuous index space; completion toggling
//! consults the recurrence rule and may append a successor task; persisting
//! partitions the serialized lines by the done mark.

use vstd::prelude::*;

use crate::date::Date;
use crate::task::Task;
use crate::task::TaskView;
use crate::task::spec_complete;
use crate::task::spec_parse_task;
use crate::task::spec_serialize;
use crate::task::spec_uncomplete;

verus! {

pub struct List {
    pub tasks: Vec<Task>,
}

impl View for List {
    type V = Seq<TaskView>;

    open spec fn view(&self) -> Seq<TaskView> {
        Seq::new(self.tasks@.len(), |i: int| self.tasks@[i]@)
    }
}

/// A record as it enters the collection: the same content under a fresh id.
pub open spec fn spec_with_id(t: TaskView, id: nat) -> TaskView {
    TaskView { id, ..t }
}

/// The record a just-completed recurring task generates: the same task,
/// unfinished, created today, with the due date advanced from the rule's
/// reference date (the old due date when strict and present, else today) and
/// any threshold date advanced by the same rule.
pub open spec fn spec_successor(t: TaskView, today: Date, id: nat) -> TaskView {
    let r = t.recurrence->Some_0;
    let refd = if r.strict && t.due_date is Some {
        t.due_date->Some_0
    } else {
        today
    };
    TaskView {
        finished: false,
        completion_date: None,
        creation_date: Some(today),
        due_date: Some(r.spec_apply(refd)),
        threshold_date: match t.threshold_date {
            Some(th) => Some(r.spec_apply(th)),
            None => None,
        },
        id,
        ..t
    }
}

/// The successor of a recurring task, in general: not finished, no
/// completion date, created today, the due date advanced by the rule from its
/// reference date, any threshold date advanced by the same rule, and every
/// other field a copy of the completed task's.
pub proof fn lemma_successor_fields(t: TaskView, today: Date, id: nat)
    requires
        t.recurrence is Some,
    ensures
        !spec_successor(t, today, id).finished,
        spec_successor(t, today, id).completion_date is None,
        spec_successor(t, today, id).creation_date == Some(today),
        spec_successor(t, today, id).due_date == Some(
            t.recurrence->Some_0.spec_apply(
                if t.recurrence->Some_0.strict && t.due_date is Some {
                    t.due_date->Some_0
                } else {
                    today
                },
            ),
        ),
        spec_successor(t, today, id).subject == t.subject,
        spec_successor(t, today, id).priority == t.priority,
        spec_successor(t, today, id).flagged == t.flagged,
        spec_successor(t, today, id).recurrence == t.recurrence,
        spec_successor(t, today, id).projects == t.projects,
        spec_successor(t, today, id).contexts == t.contexts,
        spec_successor(t, today, id).tags == t.tags,
        spec_successor(t, today, id).id == id,
{
}

/// Headroom so that advancing the rule's reference dates cannot run over the
/// date fields' machine range.
pub open spec fn spec_toggle_safe(t: TaskView, today: Date) -> bool {
    match t.recurrence {
        Some(r) => {
            &&& (if r.strict && t.due_date is Some {
                r.spec_apply_safe(t.due_date->Some_0)
            } else {
                r.spec_apply_safe(today)
            })
            &&& (t.threshold_date is Some ==> r.spec_apply_safe(t.threshold_date->Some_0))
        },
        None => true,
    }
}

fn clone_string_vec(v: &Vec<String>) -> (r: Vec<String>)
    ensures
        r.deep_view() == v.deep_view(),
{
    let mut out: Vec<String> = Vec::new();
    let mut i: usize = 0;
    while i < v.len()
        invariant
            i <= v@.len(),
            out.deep_view() =~= v.deep_view().take(i as int),
        decreases v@.len() - i,
    {
        let ghost prev = out.deep_view();
        out.push(v[i].clone());
        proof {
            assert forall|q: int| 0 <= q < out.deep_view().len() implies out.deep_view()[q]
                == prev.push(v@[i as int]@)[q] by {}
            assert(out.deep_view() =~= prev.push(v@[i as int]@));
            assert(v.deep_view()[i as int] == v@[i as int]@);
            assert(out.deep_view() =~= v.deep_view().take(i + 1));
        }
        i = i + 1;
    }
    proof {
        assert(v.deep_view().take(v@.len() as int) =~= v.deep_view());
    }
    out
}

impl Task {
    /// A field-for-field copy; the derived clone carries no contract.
    pub fn duplicate(&self) -> (r: Task)
        ensures
            r@ == self@,
    {
        let mut tags: Vec<crate::task::TagEntry> = Vec::new();
        let mut i: usize = 0;
        while i < self.tags.len()
            invariant
                i <= self.tags@.len(),
                tags@.len() == i,
                forall|q: int|
                    0 <= q < i ==> tags@[q].key@ == self.tags@[q].key@ && tags@[q].value@
                        == self.tags@[q].value@,
            decreases self.tags@.len() - i,
        {
            tags.push(
                crate::task::TagEntry {
                    key: self.tags[i].key.clone(),
                    value: self.tags[i].value.clone(),
                },
            );
            i = i + 1;
        }
        let r = Task {
            finished: self.finished,
            priority: self.priority,
            completion_date: self.completion_date,
            creation_date: self.creation_date,
            subject: self.subject.clone(),
            threshold_date: self.threshold_date,
            due_date: self.due_date,
            recurrence: self.recurrence,
            flagged: self.flagged,
            projects: clone_string_vec(&self.projects),
            contexts: clone_string_vec(&self.contexts),
            tags,
            note: crate::task::Note {
                content: match &self.note.content {
                    Some(c) => Some(c.clone()),
                    None => None,
                },
            },
            id: self.id,
        };
        proof {
            assert(r@.tags =~= self@.tags);
        }
        r
    }
}

impl List {
    /// An empty collection.
    pub fn new() -> (r: List)
        ensures
            r@ == Seq::<TaskView>::empty(),
    {
        let r = List { tasks: Vec::new() };
        proof {
            assert(r@ =~= Seq::<TaskView>::empty());
        }
        r
    }

    /// Append a record; it takes the next free index as its id.
    pub fn push(&mut self, t: Task)
        ensures
            final(self)@ == old(self)@.push(spec_with_id(t@, old(self)@.len())),
    {
        let mut t = t;
        t.id = self.tasks.len();
        self.tasks.push(t);
        proof {
            assert(self@ =~= old(self)@.push(spec_with_id(t@, old(self)@.len())));
        }
    }

    /// Parse one source's lines into records, appended in order.
    fn load_lines(&mut self, lines: &Vec<String>)
        ensures
            final(self)@.len() == old(self)@.len() + lines@.len(),
            forall|i: int| 0 <= i < old(self)@.len() ==> final(self)@[i] == old(self)@[i],
            forall|i: int|
                0 <= i < lines@.len() ==> final(self)@[old(self)@.len() + i] == spec_with_id(
                    spec_parse_task(lines.deep_view()[i]),
                    (old(self)@.len() + i) as nat,
                ),
    {
        let mut i: usize = 0;
        while i < lines.len()
            invariant
                i <= lines@.len(),
                self@.len() == old(self)@.len() + i,
                forall|q: int| 0 <= q < old(self)@.len() ==> self@[q] == old(self)@[q],
                forall|q: int|
                    0 <= q < i ==> self@[old(self)@.len() + q] == spec_with_id(
                        spec_parse_task(lines.deep_view()[q]),
                        (old(self)@.len() + q) as nat,
                    ),
            decreases lines@.len() - i,
        {
            let t = Task::parse(lines[i].as_str());
            proof {
                assert(lines@[i as int]@ == lines.deep_view()[i as int]);
            }
            self.push(t);
            i = i + 1;
        }
    }

    /// Build the collection from the two sources' lines: the active lines
    /// first, the archive's after them, ids dense from zero.
    pub fn from_lines(active: &Vec<String>, archive: &Vec<String>) -> (r: List)
        ensures
            r@.len() == active@.len() + archive@.len(),
            forall|i: int|
                0 <= i < active@.len() ==> r@[i] == spec_with_id(
                    spec_parse_task(active.deep_view()[i]),
                    i as nat,
                ),
            forall|i: int|
                0 <= i < archive@.len() ==> r@[active@.len() + i] == spec_with_id(
                    spec_parse_task(archive.deep_view()[i]),
                    (active@.len() + i) as nat,
                ),
    {
        let mut r = List::new();
        r.load_lines(active);
        r.load_lines(archive);
        r
    }

    /// Replace the record at `id` in place; a stale id is reported as not
    /// found and nothing changes.
    pub fn replace(&mut self, id: usize, t: Task) -> (found: bool)
        ensures
            found == (id < old(self)@.len()),
            found ==> final(self)@ == old(self)@.update(id as int, spec_with_id(t@, id as nat)),
            !found ==> final(self)@ == old(self)@,
    {
        if id >= self.tasks.len() {
            proof {
                assert(self@ =~= old(self)@);
            }
            return false;
        }
        let mut t = t;
        t.id = id;
        self.tasks[id] = t;
        proof {
            assert(self@ =~= old(self)@.update(id as int, spec_with_id(t@, id as nat)));
        }
        true
    }

    /// Toggle completion of the record at `id` as of `today`: a finished
    /// record is uncompleted; an unfinished one is completed, and when it
    /// carries a recurrence a successor task is appended. A stale id is
    /// reported as not found and nothing changes.
    pub fn toggle(&mut self, id: usize, today: Date) -> (found: bool)
        requires
            id < old(self)@.len() && !old(self)@[id as int].finished ==> spec_toggle_safe(
                old(self)@[id as int],
                today,
            ),
        ensures
            found == (id < old(self)@.len()),
            !found ==> final(self)@ == old(self)@,
            found && old(self)@[id as int].finished ==> final(self)@ == old(self)@.update(
                id as int,
                spec_uncomplete(old(self)@[id as int]),
            ),
            found && !old(self)@[id as int].finished ==> final(self)@ == (match old(
                self,
            )@[id as int].recurrence {
                None => old(self)@.update(id as int, spec_complete(old(self)@[id as int], today)),
                Some(r) => old(self)@.update(
                    id as int,
                    spec_complete(old(self)@[id as int], today),
                ).push(spec_successor(old(self)@[id as int], today, old(self)@.len())),
            }),
    {
        if id >= self.tasks.len() {
            proof {
                assert(self@ =~= old(self)@);
            }
            return false;
        }
        if self.tasks[id].finished {
            self.tasks[id].uncomplete();
            proof {
                assert(self@ =~= old(self)@.update(
                    id as int,
                    spec_uncomplete(old(self)@[id as int]),
                ));
            }
            return true;
        }
        self.tasks[id].complete(today);
        proof {
            assert(self@ =~= old(self)@.update(
                id as int,
                spec_complete(old(self)@[id as int], today),
            ));
        }
        let rec = self.tasks[id].recurrence;
        match rec {
            None => true,
            Some(r) => {
                let ghost mid = self@;
                let orig = &self.tasks[id];
                let due = if r.strict && orig.due_date.is_some() {
                    orig.due_date.unwrap()
                } else {
                    today
                };
                let mut next = orig.duplicate();
                next.uncomplete();
                next.creation_date = Some(today);
                next.due_date = Some(crate::recurrence::apply_recurrence(r, due));
                match next.threshold_date {
                    Some(th) => {
                        next.threshold_date = Some(crate::recurrence::apply_recurrence(r, th));
                    },
                    None => (),
                }
                let ghost nv = next@;
                self.push(next);
                proof {
                    assert(spec_with_id(nv, mid.len()) =~= spec_successor(
                        old(self)@[id as int],
                        today,
                        old(self)@.len(),
                    ));
                }
                true
            },
        }
    }

    /// The serialized lines, partitioned for the two sources: finished
    /// records go to the archive stream, all else to the active stream.
    pub fn partition(&self) -> (r: (Vec<String>, Vec<String>))
        requires
            forall|i: int| 0 <= i < self@.len() ==> (#[trigger] self@[i]).writable(),
        ensures
            r.0.deep_view() == spec_active_lines(self@),
            r.1.deep_view() == spec_archive_lines(self@),
    {
        let mut active: Vec<String> = Vec::new();
        let mut archive: Vec<String> = Vec::new();
        let mut i: usize = 0;
        proof {
            assert(active.deep_view() =~= spec_active_lines(self@.take(0)));
            assert(archive.deep_view() =~= spec_archive_lines(self@.take(0)));
        }
        while i < self.tasks.len()
            invariant
                i <= self@.len(),
                self@.len() == self.tasks@.len(),
                forall|q: int| 0 <= q < self@.len() ==> (#[trigger] self@[q]).writable(),
                active.deep_view() == spec_active_lines(self@.take(i as int)),
                archive.deep_view() == spec_archive_lines(self@.take(i as int)),
            decreases self@.len() - i,
        {
            proof {
                assert(self@[i as int] == self.tasks@[i as int]@);
            }
            let line = self.tasks[i].serialize();
            let ghost prev_a = active.deep_view();
            let ghost prev_b = archive.deep_view();
            if self.tasks[i].finished {
                archive.push(line);
                proof {
                    assert forall|q: int|
                        0 <= q < archive.deep_view().len() implies archive.deep_view()[q]
                        == prev_b.push(spec_serialize(self@[i as int]))[q] by {}
                    assert(archive.deep_view() =~= prev_b.push(spec_serialize(self@[i as int])));
                }
            } else {
                active.push(line);
                proof {
                    assert forall|q: int|
                        0 <= q < active.deep_view().len() implies active.deep_view()[q]
                        == prev_a.push(spec_serialize(self@[i as int]))[q] by {}
                    assert(active.deep_view() =~= prev_a.push(spec_serialize(self@[i as int])));
                }
            }
            proof {
                assert(self@.take(i + 1).drop_last() =~= self@.take(i as int));
                assert(self@.take(i + 1).last() == self@[i as int]);
                assert(active.deep_view() =~= spec_active_lines(self@.take(i + 1)));
                assert(archive.deep_view() =~= spec_archive_lines(self@.take(i + 1)));
            }
            i = i + 1;
        }
        proof {
            assert(self@.take(self@.len() as int) =~= self@);
        }
        (active, archive)
    }
}

/// The lines of the not-finished records, in collection order.
pub open spec fn spec_active_lines(ts: Seq<TaskView>) -> Seq<Seq<char>>
    decreases ts.len(),
{
    if ts.len() == 0 {
        Seq::empty()
    } else if ts.last().finished {
        spec_active_lines(ts.drop_last())
    } else {
        spec_active_lines(ts.drop_last()).push(spec_serialize(ts.last()))
    }
}

/// The lines of the finished records, in collection order.
pub open spec fn spec_archive_lines(ts: Seq<TaskView>) -> Seq<Seq<char>>
    decreases ts.len(),
{
    if ts.len() == 0 {
        Seq::empty()
    } else if ts.last().finished {
        spec_archive_lines(ts.drop_last()).push(spec_serialize(ts.last()))
    } else {
        spec_archive_lines(ts.drop_last())
    }
}

} // verus!
