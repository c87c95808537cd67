//! The task store: the single authoritative in-memory collection of tasks.
//!
//! Tasks are held sorted by identifier, identifiers are never reused, and
//! every query is specified against the ghost sequence of task views.

use vstd::multiset::Multiset;
use vstd::prelude::*;

use crate::codec::{
    emit_store, lemma_store_round_trip, parse_store_chars, parse_store_spec, stamps_wf,
    store_chars,
};
use crate::task::{Priority, Status, Task, TaskView, Timestamp};
use crate::text::{chars_to_string, chars_vec, is_substring, lower_of, lowercase, str_contains};

verus! {

/// No task carries the requested identifier.
#[derive(Debug, Clone, Copy, PartialEq, Eq, Structural)]
pub struct NotFoundError {
    pub id: u64,
}

impl NotFoundError {
    /// Human-readable form of the error.
    pub fn message(&self) -> (r: &'static str)
        ensures
            r@ == "Task not found"@,
    {
        "Task not found"
    }
}


/// Why a stored document could not be taken over into the store.
#[derive(Debug, Clone, Copy, PartialEq, Eq, Structural)]
pub enum LoadError {
    /// The text is not a stored document of this library.
    Malformed,
    /// The document is well-formed but its last identifier leaves no room
    /// for another insertion.
    IdOverflow,
}

/// True of a sequence whose task identifiers are strictly increasing.
pub open spec fn ids_strictly_increasing(s: Seq<TaskView>) -> bool {
    forall|i: int, j: int| 0 <= i < j < s.len() ==> s[i].id < s[j].id
}

/// Some task of `s` carries identifier `id`.
pub open spec fn has_id(s: Seq<TaskView>, id: u64) -> bool {
    exists|i: int| 0 <= i < s.len() && s[i].id == id
}

/// The position of the task carrying `id` (meaningful when `has_id` holds
/// and identifiers are unique).
pub open spec fn index_of_id(s: Seq<TaskView>, id: u64) -> int {
    choose|i: int| 0 <= i < s.len() && s[i].id == id
}

/// The task of `s` carrying `id`.
pub open spec fn task_with_id(s: Seq<TaskView>, id: u64) -> TaskView {
    s[index_of_id(s, id)]
}

/// With strictly increasing identifiers, the position of an identifier is
/// unique, so `index_of_id` returns exactly the witness position.
pub proof fn lemma_index_of_id_unique(s: Seq<TaskView>, id: u64, i: int)
    requires
        ids_strictly_increasing(s),
        0 <= i < s.len(),
        s[i].id == id,
    ensures
        index_of_id(s, id) == i,
        has_id(s, id),
{
    assert(has_id(s, id));
    let j = index_of_id(s, id);
    if i < j {
        assert(s[i].id < s[j].id);
    } else if j < i {
        assert(s[j].id < s[i].id);
    }
}

/// Number of tasks of `s` whose status is `st`.
pub open spec fn count_status(s: Seq<TaskView>, st: Status) -> nat
    decreases s.len(),
{
    if s.len() == 0 {
        0
    } else {
        count_status(s.drop_last(), st) + if s.last().status == st {
            1nat
        } else {
            0nat
        }
    }
}

/// Number of tasks of `s` that are urgent and not completed.
pub open spec fn count_open_urgent(s: Seq<TaskView>) -> nat
    decreases s.len(),
{
    if s.len() == 0 {
        0
    } else {
        count_open_urgent(s.drop_last()) + if s.last().priority == Priority::Urgent
            && s.last().status != Status::Completed {
            1nat
        } else {
            0nat
        }
    }
}

/// A status count never exceeds the number of tasks.
pub proof fn lemma_count_status_le_len(s: Seq<TaskView>, st: Status)
    ensures
        count_status(s, st) <= s.len(),
    decreases s.len(),
{
    if s.len() > 0 {
        lemma_count_status_le_len(s.drop_last(), st);
    }
}

/// The open-urgent count never exceeds the number of tasks.
pub proof fn lemma_count_open_urgent_le_len(s: Seq<TaskView>)
    ensures
        count_open_urgent(s) <= s.len(),
    decreases s.len(),
{
    if s.len() > 0 {
        lemma_count_open_urgent_le_len(s.drop_last());
    }
}

/// Statistics are consistent: the four status counts partition the
/// collection, so they sum to its size, and the open-urgent count can never
/// exceed it.
pub proof fn lemma_statistics_partition(s: Seq<TaskView>)
    ensures
        count_status(s, Status::Pending) + count_status(s, Status::InProgress) + count_status(
            s,
            Status::Completed,
        ) + count_status(s, Status::Cancelled) == s.len(),
        count_open_urgent(s) <= s.len(),
    decreases s.len(),
{
    if s.len() > 0 {
        lemma_statistics_partition(s.drop_last());
    }
    lemma_count_open_urgent_le_len(s);
}


/// Does the task pass the optional status filter?
pub open spec fn status_matches(filter: Option<Status>, t: TaskView) -> bool {
    match filter {
        None => true,
        Some(st) => t.status == st,
    }
}

/// Listing order: ascending priority rank (so the most urgent band comes
/// first), and within one band the more recently created task first.
pub open spec fn listing_le(a: TaskView, b: TaskView) -> bool {
    ||| a.priority.spec_rank() < b.priority.spec_rank()
    ||| (a.priority.spec_rank() == b.priority.spec_rank() && b.created_at.spec_le(a.created_at))
}

/// The listing order is total: any two tasks are comparable.
pub proof fn lemma_listing_le_total(a: TaskView, b: TaskView)
    ensures
        listing_le(a, b) || listing_le(b, a),
{
}


/// Does the query match the task? The query matches when its lowercase
/// folding occurs in the lowercase folding of the title, of the description,
/// or of at least one tag.
pub open spec fn task_matches(q: Seq<char>, t: TaskView) -> bool {
    ||| is_substring(lower_of(q), lower_of(t.title))
    ||| match t.description {
        Some(d) => is_substring(lower_of(q), lower_of(d)),
        None => false,
    }
    ||| exists|i: int| 0 <= i < t.tags.len() && is_substring(lower_of(q), lower_of(#[trigger] t.tags[i]))
}

/// Aggregate counts over the collection, as computed by
/// `TaskManager::get_statistics`.
#[derive(Debug, Clone, Copy, PartialEq, Eq, Structural)]
pub struct TaskStatistics {
    pub total: usize,
    pub completed: usize,
    pub pending: usize,
    pub in_progress: usize,
    pub urgent: usize,
}



/// The multiset of an empty sequence is the empty multiset.
proof fn lemma_empty_to_multiset()
    ensures
        Seq::<TaskView>::empty().to_multiset() =~= Multiset::<TaskView>::empty(),
{
    broadcast use vstd::multiset::group_multiset_axioms;

    Seq::<TaskView>::empty().to_multiset_ensures();
    assert forall|a: TaskView| Seq::<TaskView>::empty().to_multiset().count(a) == 0 by {
        assert(!Seq::<TaskView>::empty().contains(a));
    }
}

/// Decides the listing order `listing_le` on two task records.
fn listing_before(a: &Task, b: &Task) -> (r: bool)
    ensures
        r == listing_le(a@, b@),
{
    let ra = a.priority.rank();
    let rb = b.priority.rank();
    if ra != rb {
        ra < rb
    } else {
        b.created_at.le(&a.created_at)
    }
}

/// The store: the in-memory collection plus the identifier counter. The
/// ghost image of a store is the sequence of its task views, in identifier
/// order.
pub struct TaskManager {
    tasks: Vec<Task>,
    next_id: u64,
}

impl View for TaskManager {
    type V = Seq<TaskView>;

    closed spec fn view(&self) -> Seq<TaskView> {
        self.tasks.deep_view()
    }
}

impl TaskManager {
    /// The identifier the next inserted task will receive.
    pub closed spec fn spec_next_id(self) -> u64 {
        self.next_id
    }

    /// Store invariant: identifiers strictly increase along the collection,
    /// every identifier lies below the counter, and the counter starts at 1.
    pub open spec fn wf(self) -> bool {
        &&& ids_strictly_increasing(self@)
        &&& forall|i: int| 0 <= i < self@.len() ==> self@[i].id < self.spec_next_id()
        &&& self.spec_next_id() >= 1
    }

    /// An empty store; the first task will receive identifier 1.
    pub fn new() -> (m: TaskManager)
        ensures
            m.wf(),
            m@ == Seq::<TaskView>::empty(),
            m.spec_next_id() == 1,
    {
        let m = TaskManager { tasks: Vec::new(), next_id: 1 };
        proof {
            assert(m@ =~= Seq::<TaskView>::empty());
        }
        m
    }

    /// The identifier the next inserted task will receive. Insertion is
    /// possible while this has room to grow.
    pub fn next_id(&self) -> (n: u64)
        ensures
            n == self.spec_next_id(),
    {
        self.next_id
    }

    /// Number of tasks in the store.
    pub fn len(&self) -> (n: usize)
        ensures
            n == self@.len(),
    {
        self.tasks.len()
    }

    /// Inserts a task. The identifier the caller supplied is overwritten
    /// with the next free one, which is returned; every other field is kept
    /// as given. The returned identifier was never in the store before.
    pub fn add_task(&mut self, task: Task) -> (id: u64)
        requires
            old(self).wf(),
            old(self).spec_next_id() < u64::MAX,
        ensures
            final(self).wf(),
            id == old(self).spec_next_id(),
            !has_id(old(self)@, id),
            final(self)@ == old(self)@.push(TaskView { id: id, ..task@ }),
            final(self).spec_next_id() == old(self).spec_next_id() + 1,
    {
        let ghost pre = self@;
        let mut task = task;
        task.id = self.next_id;
        let id = self.next_id;
        proof {
            assert(task@ =~= (TaskView { id: id, ..task@ }));
        }
        self.tasks.push(task);
        self.next_id = self.next_id + 1;
        proof {
            assert(self@ =~= pre.push(TaskView { id: id, ..task@ }));
            assert forall|i: int, j: int| 0 <= i < j < self@.len() implies self@[i].id
                < self@[j].id by {
                if j == self@.len() - 1 {
                    assert(self@[i] == pre[i]);
                }
            }
        }
        id
    }

    /// Looks a task up by identifier: returns it exactly when the store
    /// holds that identifier.
    pub fn get_task(&self, id: u64) -> (r: Option<&Task>)
        requires
            self.wf(),
        ensures
            match r {
                Some(t) => has_id(self@, id) && t@ == task_with_id(self@, id),
                None => !has_id(self@, id),
            },
    {
        let n = self.tasks.len();
        let mut i: usize = 0;
        while i < n
            invariant
                n == self@.len(),
                0 <= i <= n,
                self.wf(),
                forall|k: int| 0 <= k < i ==> self@[k].id != id,
            decreases n - i,
        {
            if self.tasks[i].id == id {
                proof {
                    lemma_index_of_id_unique(self@, id, i as int);
                }
                return Some(&self.tasks[i]);
            }
            i = i + 1;
        }
        None
    }

    /// Removes and returns the task carrying `id`; fails without touching
    /// the collection when no task carries it. The identifier counter never
    /// moves back, so a deleted identifier is never reused.
    pub fn delete_task(&mut self, id: u64) -> (r: Result<Task, NotFoundError>)
        requires
            old(self).wf(),
        ensures
            final(self).wf(),
            final(self).spec_next_id() == old(self).spec_next_id(),
            match r {
                Ok(t) => {
                    &&& has_id(old(self)@, id)
                    &&& t@ == task_with_id(old(self)@, id)
                    &&& final(self)@ == old(self)@.remove(index_of_id(old(self)@, id))
                },
                Err(e) => {
                    &&& !has_id(old(self)@, id)
                    &&& final(self)@ == old(self)@
                    &&& e == (NotFoundError { id })
                },
            },
    {
        let ghost pre = self@;
        let n = self.tasks.len();
        let mut i: usize = 0;
        while i < n
            invariant
                n == self@.len(),
                0 <= i <= n,
                self.wf(),
                self@ == pre,
                pre == old(self)@,
                self.spec_next_id() == old(self).spec_next_id(),
                forall|k: int| 0 <= k < i ==> self@[k].id != id,
            decreases n - i,
        {
            if self.tasks[i].id == id {
                proof {
                    lemma_index_of_id_unique(pre, id, i as int);
                }
                let t = self.tasks.remove(i);
                proof {
                    assert(t@ == task_with_id(pre, id));
                    assert(self@ =~= pre.remove(i as int));
                    assert forall|p: int, q: int| 0 <= p < q < self@.len() implies self@[p].id
                        < self@[q].id by {
                        if q < i {
                            assert(self@[p] == pre[p] && self@[q] == pre[q]);
                        } else if p < i {
                            assert(self@[p] == pre[p] && self@[q] == pre[q + 1]);
                        } else {
                            assert(self@[p] == pre[p + 1] && self@[q] == pre[q + 1]);
                        }
                    }
                    assert forall|p: int| 0 <= p < self@.len() implies self@[p].id
                        < self.spec_next_id() by {
                        if p < i {
                            assert(self@[p] == pre[p]);
                        } else {
                            assert(self@[p] == pre[p + 1]);
                        }
                    }
                }
                return Ok(t);
            }
            i = i + 1;
        }
        Err(NotFoundError { id })
    }


    /// All tasks, optionally restricted to one status, sorted for listing:
    /// most urgent priority band first, and newest first within a band. The
    /// result holds exactly the tasks that pass the filter.
    pub fn list_tasks(&self, filter: Option<Status>) -> (r: Vec<&Task>)
        ensures
            r.deep_view().to_multiset() == self@.filter(
                |t: TaskView| status_matches(filter, t),
            ).to_multiset(),
            forall|i: int, j: int|
                0 <= i < j < r.deep_view().len() ==> listing_le(
                    r.deep_view()[i],
                    r.deep_view()[j],
                ),
    {
        let ghost pred = |t: TaskView| status_matches(filter, t);
        let n = self.tasks.len();
        let mut src: Vec<&Task> = Vec::new();
        let mut i: usize = 0;
        while i < n
            invariant
                n == self@.len(),
                0 <= i <= n,
                src.deep_view() =~= self@.take(i as int).filter(pred),
                pred == (|t: TaskView| status_matches(filter, t)),
            decreases n - i,
        {
            let t = &self.tasks[i];
            let keep = match filter {
                None => true,
                Some(st) => t.status == st,
            };
            proof {
                assert(self@.take(i + 1).drop_last() =~= self@.take(i as int));
                assert(self@.take(i + 1) =~= self@.take(i as int).push(self@[i as int]));
                self@.take(i as int).lemma_filter_push(self@[i as int], pred);
                assert(t@ == self@[i as int]);
            }
            if keep {
                let ghost before = src.deep_view();
                src.push(t);
                proof {
                    assert(src.deep_view() =~= before.push(t@));
                }
            }
            i = i + 1;
        }
        proof {
            assert(self@.take(n as int) =~= self@);
        }
        let ghost orig = src.deep_view().to_multiset();
        proof {
            broadcast use vstd::multiset::group_multiset_axioms;

            src.deep_view().to_multiset_ensures();
            lemma_empty_to_multiset();
        }

        let mut out: Vec<&Task> = Vec::new();
        proof {
            broadcast use vstd::multiset::group_multiset_axioms;

            lemma_empty_to_multiset();
            assert(out.deep_view() =~= Seq::<TaskView>::empty());
            assert(out.deep_view().to_multiset().add(src.deep_view().to_multiset()) =~= orig);
        }
        while src.len() > 0
            invariant
                out.deep_view().to_multiset().add(src.deep_view().to_multiset()) =~= orig,
                forall|p: int, q: int|
                    0 <= p < q < out.deep_view().len() ==> listing_le(
                        out.deep_view()[p],
                        out.deep_view()[q],
                    ),
                forall|p: int, q: int|
                    0 <= p < out.deep_view().len() && 0 <= q < src.deep_view().len()
                        ==> listing_le(out.deep_view()[p], src.deep_view()[q]),
            decreases src.len(),
        {
            let m = src.len();
            let mut best: usize = 0;
            let mut j: usize = 1;
            while j < m
                invariant
                    m == src.len(),
                    0 <= best < m,
                    1 <= j <= m,
                    forall|k: int|
                        0 <= k < j ==> listing_le(src.deep_view()[best as int], src.deep_view()[k]),
                decreases m - j,
            {
                if listing_before(src[j], src[best]) {
                    best = j;
                    proof {
                        assert forall|k: int| 0 <= k < j + 1 implies listing_le(
                            src.deep_view()[best as int],
                            src.deep_view()[k],
                        ) by {
                            if k < j {
                                lemma_listing_le_total(
                                    src.deep_view()[best as int],
                                    src.deep_view()[k],
                                );
                            }
                        }
                    }
                } else {
                    proof {
                        lemma_listing_le_total(
                            src.deep_view()[best as int],
                            src.deep_view()[j as int],
                        );
                    }
                }
                j = j + 1;
            }
            let ghost src_dv = src.deep_view();
            let ghost out_dv = out.deep_view();
            let picked = src.remove(best);
            let ghost mv = picked@;
            out.push(picked);
            proof {
                assert(src.deep_view() =~= src_dv.remove(best as int));
                assert(out.deep_view() =~= out_dv.push(mv));
                src_dv.to_multiset_ensures();
                out_dv.to_multiset_ensures();
                assert(src_dv.contains(mv)) by {
                    assert(src_dv[best as int] == mv);
                }
                assert(out.deep_view().to_multiset().add(src.deep_view().to_multiset())
                    =~= out_dv.to_multiset().add(src_dv.to_multiset())) by {
                    broadcast use vstd::multiset::group_multiset_axioms;

                    assert(src_dv.to_multiset().count(mv) > 0);
                    assert(out.deep_view().to_multiset() =~= out_dv.to_multiset().insert(mv));
                    assert(src.deep_view().to_multiset() =~= src_dv.to_multiset().remove(mv));
                }
                assert forall|p: int, q: int|
                    0 <= p < q < out.deep_view().len() implies listing_le(
                    out.deep_view()[p],
                    out.deep_view()[q],
                ) by {
                    if q == out.deep_view().len() - 1 {
                        assert(listing_le(out_dv[p], src_dv[best as int]));
                    }
                }
                assert forall|p: int, q: int|
                    0 <= p < out.deep_view().len() && 0 <= q < src.deep_view().len()
                    implies listing_le(out.deep_view()[p], src.deep_view()[q]) by {
                    let qq = if q < best { q } else { q + 1 };
                    assert(src.deep_view()[q] == src_dv[qq]);
                    if p < out_dv.len() {
                        assert(listing_le(out_dv[p], src_dv[qq]));
                    } else {
                        assert(out.deep_view()[p] == mv);
                        assert(listing_le(src_dv[best as int], src_dv[qq]));
                    }
                }
            }
        }
        proof {
            broadcast use vstd::multiset::group_multiset_axioms;

            lemma_empty_to_multiset();
            assert(src.deep_view() =~= Seq::<TaskView>::empty());
            assert(out.deep_view().to_multiset() =~= orig);
        }
        out
    }


    /// Case-insensitive substring search over title, description and tags.
    /// The result holds exactly the matching tasks, in identifier order.
    pub fn search_tasks(&self, query: &str) -> (r: Vec<&Task>)
        ensures
            r.deep_view() == self@.filter(|t: TaskView| task_matches(query@, t)),
    {
        let ghost pred = |t: TaskView| task_matches(query@, t);
        let q = lowercase(query);
        let n = self.tasks.len();
        let mut r: Vec<&Task> = Vec::new();
        let mut i: usize = 0;
        while i < n
            invariant
                n == self@.len(),
                0 <= i <= n,
                q@ == lower_of(query@),
                r.deep_view() =~= self@.take(i as int).filter(pred),
                pred == (|t: TaskView| task_matches(query@, t)),
            decreases n - i,
        {
            let t = &self.tasks[i];
            let title_low = lowercase(t.title.as_str());
            let mut found = str_contains(title_low.as_str(), q.as_str());
            if !found {
                if let Some(d) = &t.description {
                    let desc_low = lowercase(d.as_str());
                    found = str_contains(desc_low.as_str(), q.as_str());
                }
            }
            if !found {
                let tn = t.tags.len();
                let mut j: usize = 0;
                while j < tn
                    invariant
                        tn == t.tags@.len(),
                        0 <= j <= tn,
                        q@ == lower_of(query@),
                        found ==> exists|x: int|
                            0 <= x < t@.tags.len() && is_substring(
                                lower_of(query@),
                                lower_of(#[trigger] t@.tags[x]),
                            ),
                        !found ==> forall|x: int|
                            0 <= x < j ==> !is_substring(
                                lower_of(query@),
                                lower_of(#[trigger] t@.tags[x]),
                            ),
                    decreases tn - j,
                {
                    let tag_low = lowercase(t.tags[j].as_str());
                    if str_contains(tag_low.as_str(), q.as_str()) {
                        proof {
                            assert(t@.tags[j as int] == t.tags@[j as int]@);
                        }
                        found = true;
                        j = tn;
                    } else {
                        proof {
                            assert(t@.tags[j as int] == t.tags@[j as int]@);
                        }
                        j = j + 1;
                    }
                }
            }
            proof {
                assert(t@ == self@[i as int]);
                assert(found == pred(self@[i as int]));
                assert(self@.take(i + 1).drop_last() =~= self@.take(i as int));
                assert(self@.take(i + 1) =~= self@.take(i as int).push(self@[i as int]));
                self@.take(i as int).lemma_filter_push(self@[i as int], pred);
            }
            if found {
                let ghost before = r.deep_view();
                r.push(t);
                proof {
                    assert(r.deep_view() =~= before.push(t@));
                }
            }
            i = i + 1;
        }
        proof {
            assert(self@.take(n as int) =~= self@);
        }
        r
    }


    /// The stored form of the collection: the exact document text that
    /// `load` reads back.
    pub fn to_json(&self) -> (r: String)
        ensures
            r@ == store_chars(self@),
    {
        let v = emit_store(&self.tasks);
        chars_to_string(&v)
    }

    /// Replaces the collection with the one a stored document holds, and
    /// points the counter past the highest identifier read. Fails, leaving
    /// the store untouched, when the text is not a stored document or its
    /// last identifier leaves no room to insert.
    pub fn load(&mut self, text: &str) -> (r: Result<(), LoadError>)
        requires
            old(self).wf(),
        ensures
            final(self).wf(),
            match r {
                Ok(()) => {
                    &&& parse_store_spec(text@) == Some(final(self)@)
                    &&& final(self).spec_next_id() == if final(self)@.len() == 0 {
                        1u64
                    } else {
                        (final(self)@.last().id + 1) as u64
                    }
                },
                Err(e) => {
                    &&& final(self)@ == old(self)@
                    &&& final(self).spec_next_id() == old(self).spec_next_id()
                    &&& (e == LoadError::Malformed <==> parse_store_spec(text@) is None)
                    &&& (e == LoadError::IdOverflow ==> parse_store_spec(text@) is Some
                        && parse_store_spec(text@)->Some_0.len() > 0 && parse_store_spec(
                        text@,
                    )->Some_0.last().id == u64::MAX)
                },
            },
    {
        let cv = chars_vec(text);
        match parse_store_chars(&cv) {
            None => Err(LoadError::Malformed),
            Some(tasks) => {
                proof {
                    crate::codec::lemma_parse_store_ids(text@);
                }
                if tasks.len() == 0 {
                    self.tasks = tasks;
                    self.next_id = 1;
                    proof {
                        assert(self@ =~= Seq::<TaskView>::empty());
                    }
                    Ok(())
                } else {
                    let last_id = tasks[tasks.len() - 1].id;
                    proof {
                        assert(tasks.deep_view().last() == tasks@[tasks@.len() - 1]@);
                    }
                    if last_id == u64::MAX {
                        Err(LoadError::IdOverflow)
                    } else {
                        let ghost dv = tasks.deep_view();
                        self.tasks = tasks;
                        self.next_id = last_id + 1;
                        proof {
                            assert(self@ == dv);
                            assert forall|k: int| 0 <= k < self@.len() implies self@[k].id
                                < self.spec_next_id() by {
                                if k < self@.len() - 1 {
                                    assert(self@[k].id < self@[self@.len() - 1].id);
                                }
                            }
                        }
                        Ok(())
                    }
                }
            },
        }
    }

    /// Single read-only pass over the collection computing the aggregate
    /// counts: total, one count per interesting status, and the number of
    /// urgent tasks that are not completed.
    pub fn get_statistics(&self) -> (st: TaskStatistics)
        ensures
            st.total == self@.len(),
            st.completed == count_status(self@, Status::Completed),
            st.pending == count_status(self@, Status::Pending),
            st.in_progress == count_status(self@, Status::InProgress),
            st.urgent == count_open_urgent(self@),
    {
        let n = self.tasks.len();
        let mut completed: usize = 0;
        let mut pending: usize = 0;
        let mut in_progress: usize = 0;
        let mut urgent: usize = 0;
        let mut i: usize = 0;
        while i < n
            invariant
                n == self@.len(),
                0 <= i <= n,
                completed == count_status(self@.take(i as int), Status::Completed),
                pending == count_status(self@.take(i as int), Status::Pending),
                in_progress == count_status(self@.take(i as int), Status::InProgress),
                urgent == count_open_urgent(self@.take(i as int)),
            decreases n - i,
        {
            proof {
                let pfx = self@.take(i + 1);
                assert(pfx.drop_last() =~= self@.take(i as int));
                assert(pfx.last() == self@[i as int]);
                lemma_count_status_le_len(self@.take(i as int), Status::Completed);
                lemma_count_status_le_len(self@.take(i as int), Status::Pending);
                lemma_count_status_le_len(self@.take(i as int), Status::InProgress);
                lemma_count_open_urgent_le_len(self@.take(i as int));
            }
            let t = &self.tasks[i];
            match t.status {
                Status::Completed => {
                    completed = completed + 1;
                },
                Status::Pending => {
                    pending = pending + 1;
                },
                Status::InProgress => {
                    in_progress = in_progress + 1;
                },
                Status::Cancelled => {},
            }
            if matches!(t.priority, Priority::Urgent) && !matches!(t.status, Status::Completed) {
                urgent = urgent + 1;
            }
            i = i + 1;
        }
        proof {
            assert(self@.take(n as int) =~= self@);
        }
        TaskStatistics { total: n, completed, pending, in_progress, urgent }
    }

    /// Marks the task carrying `id` completed, exactly as
    /// `Task::complete` does; fails without touching the collection when no
    /// task carries that identifier.
    pub fn complete_task(&mut self, id: u64) -> (r: Result<(), NotFoundError>)
        requires
            old(self).wf(),
        ensures
            final(self).wf(),
            final(self).spec_next_id() == old(self).spec_next_id(),
            match r {
                Ok(()) => {
                    let idx = index_of_id(old(self)@, id);
                    let stamp = final(self)@[idx].updated_at;
                    &&& has_id(old(self)@, id)
                    &&& final(self)@ == old(self)@.update(
                        idx,
                        TaskView {
                            status: Status::Completed,
                            completed_at: Some(stamp),
                            updated_at: stamp,
                            ..old(self)@[idx]
                        },
                    )
                    &&& old(self)@[idx].created_at.spec_le(stamp)
                    &&& (old(self)@[idx].wf() ==> final(self)@[idx].wf())
                },
                Err(e) => {
                    &&& !has_id(old(self)@, id)
                    &&& final(self)@ == old(self)@
                    &&& e == (NotFoundError { id })
                },
            },
    {
        let ghost pre = self@;
        let n = self.tasks.len();
        let mut i: usize = 0;
        while i < n
            invariant
                n == self@.len(),
                0 <= i <= n,
                self.wf(),
                self@ == pre,
                pre == old(self)@,
                self.spec_next_id() == old(self).spec_next_id(),
                forall|k: int| 0 <= k < i ==> self@[k].id != id,
            decreases n - i,
        {
            if self.tasks[i].id == id {
                proof {
                    lemma_index_of_id_unique(pre, id, i as int);
                }
                let mut t = self.tasks.remove(i);
                t.complete();
                let ghost tv = t@;
                self.tasks.insert(i, t);
                proof {
                    assert(self@ =~= pre.update(i as int, tv));
                    assert forall|p: int, q: int| 0 <= p < q < self@.len() implies self@[p].id
                        < self@[q].id by {
                        assert(pre[p].id < pre[q].id);
                    }
                }
                return Ok(());
            }
            i = i + 1;
        }
        Err(NotFoundError { id })
    }

    /// Marks the task carrying `id` in progress, exactly as `Task::start`
    /// does; fails without touching the collection when no task carries
    /// that identifier.
    pub fn start_task(&mut self, id: u64) -> (r: Result<(), NotFoundError>)
        requires
            old(self).wf(),
        ensures
            final(self).wf(),
            final(self).spec_next_id() == old(self).spec_next_id(),
            match r {
                Ok(()) => {
                    let idx = index_of_id(old(self)@, id);
                    let stamp = final(self)@[idx].updated_at;
                    &&& has_id(old(self)@, id)
                    &&& final(self)@ == old(self)@.update(
                        idx,
                        TaskView {
                            status: Status::InProgress,
                            updated_at: stamp,
                            ..old(self)@[idx]
                        },
                    )
                    &&& old(self)@[idx].created_at.spec_le(stamp)
                    &&& (old(self)@[idx].wf() ==> final(self)@[idx].wf())
                },
                Err(e) => {
                    &&& !has_id(old(self)@, id)
                    &&& final(self)@ == old(self)@
                    &&& e == (NotFoundError { id })
                },
            },
    {
        let ghost pre = self@;
        let n = self.tasks.len();
        let mut i: usize = 0;
        while i < n
            invariant
                n == self@.len(),
                0 <= i <= n,
                self.wf(),
                self@ == pre,
                pre == old(self)@,
                self.spec_next_id() == old(self).spec_next_id(),
                forall|k: int| 0 <= k < i ==> self@[k].id != id,
            decreases n - i,
        {
            if self.tasks[i].id == id {
                proof {
                    lemma_index_of_id_unique(pre, id, i as int);
                }
                let mut t = self.tasks.remove(i);
                t.start();
                let ghost tv = t@;
                self.tasks.insert(i, t);
                proof {
                    assert(self@ =~= pre.update(i as int, tv));
                    assert forall|p: int, q: int| 0 <= p < q < self@.len() implies self@[p].id
                        < self@[q].id by {
                        assert(pre[p].id < pre[q].id);
                    }
                }
                return Ok(());
            }
            i = i + 1;
        }
        Err(NotFoundError { id })
    }

    /// Marks the task carrying `id` cancelled, exactly as `Task::cancel`
    /// does; fails without touching the collection when no task carries
    /// that identifier.
    pub fn cancel_task(&mut self, id: u64) -> (r: Result<(), NotFoundError>)
        requires
            old(self).wf(),
        ensures
            final(self).wf(),
            final(self).spec_next_id() == old(self).spec_next_id(),
            match r {
                Ok(()) => {
                    let idx = index_of_id(old(self)@, id);
                    let stamp = final(self)@[idx].updated_at;
                    &&& has_id(old(self)@, id)
                    &&& final(self)@ == old(self)@.update(
                        idx,
                        TaskView {
                            status: Status::Cancelled,
                            updated_at: stamp,
                            ..old(self)@[idx]
                        },
                    )
                    &&& old(self)@[idx].created_at.spec_le(stamp)
                    &&& (old(self)@[idx].wf() ==> final(self)@[idx].wf())
                },
                Err(e) => {
                    &&& !has_id(old(self)@, id)
                    &&& final(self)@ == old(self)@
                    &&& e == (NotFoundError { id })
                },
            },
    {
        let ghost pre = self@;
        let n = self.tasks.len();
        let mut i: usize = 0;
        while i < n
            invariant
                n == self@.len(),
                0 <= i <= n,
                self.wf(),
                self@ == pre,
                pre == old(self)@,
                self.spec_next_id() == old(self).spec_next_id(),
                forall|k: int| 0 <= k < i ==> self@[k].id != id,
            decreases n - i,
        {
            if self.tasks[i].id == id {
                proof {
                    lemma_index_of_id_unique(pre, id, i as int);
                }
                let mut t = self.tasks.remove(i);
                t.cancel();
                let ghost tv = t@;
                self.tasks.insert(i, t);
                proof {
                    assert(self@ =~= pre.update(i as int, tv));
                    assert forall|p: int, q: int| 0 <= p < q < self@.len() implies self@[p].id
                        < self@[q].id by {
                        assert(pre[p].id < pre[q].id);
                    }
                }
                return Ok(());
            }
            i = i + 1;
        }
        Err(NotFoundError { id })
    }
}

/// Round trip: the stored form of a well-formed store reads back to
/// exactly the same collection of tasks, identifiers, fields and tag
/// order included, for every collection the store can hold.
pub proof fn lemma_store_round_trip_law(m: TaskManager)
    requires
        m.wf(),
        forall|k: int| 0 <= k < m@.len() ==> stamps_wf(#[trigger] m@[k]),
    ensures
        parse_store_spec(store_chars(m@)) == Some(m@),
{
    lemma_store_round_trip(m@);
}

/// Identifier uniqueness and freshness: a well-formed store never holds
/// one identifier twice, every held identifier lies strictly below the
/// counter, and the identifier the next insertion will return is not in
/// use. Together with the contracts of `add_task` and `delete_task`,
/// which return the counter value, raise the counter by one and never
/// lower it, returned identifiers strictly increase and are never reused,
/// deletions included.
pub proof fn lemma_id_uniqueness(m: TaskManager)
    requires
        m.wf(),
    ensures
        forall|i: int, j: int| 0 <= i < j < m@.len() ==> m@[i].id != m@[j].id,
        forall|i: int| 0 <= i < m@.len() ==> m@[i].id < m.spec_next_id(),
        !has_id(m@, m.spec_next_id()),
{
}

} // verus!
