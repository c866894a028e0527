//! The two mutations: appending a task with a fresh id, and toggling completion.
use vstd::prelude::*;
use crate::record::Record;

verus! {

/// The record that an append creates when the store holds `count` rows.
pub open spec fn appended_record(count: nat, project: String, desc: String, now: i64) -> Record {
    Record {
        id: (count + 1) as u32,
        project,
        desc,
        completed: false,
        date_added: now,
        date_completed: None,
    }
}

/// The store after appending a task to `s`.
pub open spec fn append_spec(s: Seq<Record>, project: String, desc: String, now: i64) -> Seq<
    Record,
> {
    s.push(appended_record(s.len(), project, desc, now))
}

/// The store after appending each task of `tasks` in turn, starting from an empty store.
pub open spec fn append_all(tasks: Seq<(String, String, i64)>) -> Seq<Record>
    decreases tasks.len(),
{
    if tasks.len() == 0 {
        Seq::empty()
    } else {
        let t = tasks.last();
        append_spec(append_all(tasks.drop_last()), t.0, t.1, t.2)
    }
}

/// Builds the record for a new task when the store holds `count` rows: id
/// `count + 1`, not completed, added at `now`.
pub fn new_record(count: u32, project: String, desc: String, now: i64) -> (r: Record)
    requires
        count < u32::MAX,
    ensures
        r == appended_record(count as nat, project, desc, now),
{
    Record {
        id: count + 1,
        project,
        desc,
        completed: false,
        date_added: now,
        date_completed: None,
    }
}

/// Appends a new task to the end of the store, with the next id.
pub fn append_task(store: &mut Vec<Record>, project: String, desc: String, now: i64)
    requires
        old(store)@.len() < u32::MAX,
    ensures
        final(store)@ == append_spec(old(store)@, project, desc, now),
{
    let count = store.len() as u32;
    let r = new_record(count, project, desc, now);
    store.push(r);
}

/// Relies on `chrono::Utc::now` and `DateTime::timestamp`: the current time
/// in whole seconds since the Unix epoch. Nothing is known of the value.
#[verifier::external_body]
fn now_seconds() -> (r: i64) {
    chrono::Utc::now().timestamp()
}

/// Builds the record for a new task when the store holds `count` rows,
/// added at the current time.
pub fn new_record_now(count: u32, project: String, desc: String) -> (r: Record)
    requires
        count < u32::MAX,
    ensures
        exists|now: i64| r == appended_record(count as nat, project, desc, now),
{
    let now = now_seconds();
    new_record(count, project, desc, now)
}

/// `r` with its completion flipped: the completion date is set to `now` when
/// it becomes completed and cleared otherwise.
pub open spec fn toggled(r: Record, now: i64) -> Record {
    Record {
        id: r.id,
        project: r.project,
        desc: r.desc,
        completed: !r.completed,
        date_completed: if !r.completed {
            Some(now)
        } else {
            None
        },
        date_added: r.date_added,
    }
}

/// `i` is the position of the first record of `s` with id `id`.
pub open spec fn is_first_with_id(s: Seq<Record>, id: u32, i: int) -> bool {
    0 <= i < s.len() && s[i].id == id && forall|j: int| 0 <= j < i ==> #[trigger] s[j].id != id
}

/// The store after toggling the first record with id `id`; unchanged when none has it.
pub open spec fn toggle_spec(s: Seq<Record>, id: u32, now: i64) -> Seq<Record> {
    if exists|i: int| is_first_with_id(s, id, i) {
        let i = choose|i: int| is_first_with_id(s, id, i);
        s.update(i, toggled(s[i], now))
    } else {
        s
    }
}

/// Toggles the completion of the first record whose id is `target`, stamping
/// a completion with `now`; other records, and a store without such a
/// record, are left as they are.
pub fn toggle_completion(records: &mut Vec<Record>, target: u32, now: i64)
    ensures
        final(records)@ == toggle_spec(old(records)@, target, now),
{
    let ghost orig = records@;
    let mut i: usize = 0;
    while i < records.len()
        invariant
            records@ == orig,
            orig == old(records)@,
            i <= orig.len(),
            forall|j: int| 0 <= j < i ==> #[trigger] orig[j].id != target,
        decreases orig.len() - i,
    {
        if records[i].id == target {
            proof {
                assert(is_first_with_id(orig, target, i as int));
                let c = choose|c: int| is_first_with_id(orig, target, c);
                assert(c == i) by {
                    if c < i {
                        assert(orig[c].id != target);
                    }
                    if c > i {
                        assert(orig[i as int].id != target);
                    }
                }
            }
            let mut r = records.remove(i);
            r.completed = !r.completed;
            r.date_completed = if r.completed {
                Some(now)
            } else {
                None
            };
            records.insert(i, r);
            assert(records@ =~= orig.update(i as int, toggled(orig[i as int], now)));
            proof {
                assert(exists|c: int| is_first_with_id(orig, target, c));
                assert(records@ == toggle_spec(orig, target, now));
            }
            return;
        }
        i = i + 1;
    }
    assert(!exists|c: int| is_first_with_id(orig, target, c));
}

/// Toggles the completion of the first record whose id is `target`, stamping
/// a completion with the current time.
pub fn complete_task(records: &mut Vec<Record>, target: u32)
    ensures
        exists|now: i64| final(records)@ == toggle_spec(old(records)@, target, now),
{
    let now = now_seconds();
    toggle_completion(records, target, now);
}

/// Appending tasks one after another to an empty store gives ids 1 to N in
/// the order of appending, each record holding its task's project and
/// description, not completed.
pub proof fn lemma_append_ids(tasks: Seq<(String, String, i64)>)
    requires
        tasks.len() <= u32::MAX,
    ensures
        append_all(tasks).len() == tasks.len(),
        forall|i: int|
            0 <= i < tasks.len() ==> {
                let r = #[trigger] append_all(tasks)[i];
                &&& r.id == i + 1
                &&& r.project == tasks[i].0
                &&& r.desc == tasks[i].1
                &&& r.date_added == tasks[i].2
                &&& !r.completed
                &&& r.date_completed is None
            },
    decreases tasks.len(),
{
    if tasks.len() > 0 {
        lemma_append_ids(tasks.drop_last());
    }
}

/// Toggling keeps every record well formed.
pub proof fn lemma_toggle_keeps_wf(s: Seq<Record>, id: u32, now: i64)
    requires
        forall|i: int| 0 <= i < s.len() ==> #[trigger] s[i].wf(),
    ensures
        toggle_spec(s, id, now).len() == s.len(),
        forall|i: int| 0 <= i < s.len() ==> #[trigger] toggle_spec(s, id, now)[i].wf(),
{
}

/// Toggling the same id twice restores the completion flag of every record
/// and whether it has a completion date; all other fields, and every record
/// that was not completed, come back exactly.
pub proof fn lemma_toggle_twice(s: Seq<Record>, id: u32, t1: i64, t2: i64)
    requires
        forall|i: int| 0 <= i < s.len() ==> #[trigger] s[i].wf(),
    ensures
        toggle_spec(toggle_spec(s, id, t1), id, t2).len() == s.len(),
        forall|i: int|
            0 <= i < s.len() ==> {
                let a = s[i];
                let b = #[trigger] toggle_spec(toggle_spec(s, id, t1), id, t2)[i];
                &&& b.id == a.id
                &&& b.project == a.project
                &&& b.desc == a.desc
                &&& b.date_added == a.date_added
                &&& b.completed == a.completed
                &&& (b.date_completed is Some) == (a.date_completed is Some)
                &&& !a.completed ==> b == a
            },
{
    let s1 = toggle_spec(s, id, t1);
    if exists|i: int| is_first_with_id(s, id, i) {
        let i = choose|i: int| is_first_with_id(s, id, i);
        assert(is_first_with_id(s1, id, i));
        assert(exists|k: int| is_first_with_id(s1, id, k));
        let k = choose|k: int| is_first_with_id(s1, id, k);
        assert(k == i) by {
            if k < i {
                assert(s1[k].id == s[k].id);
            }
            if k > i {
                assert(s1[i].id != id);
            }
        }
        let s2 = toggle_spec(s1, id, t2);
        assert(s2 == s1.update(i, toggled(s1[i], t2)));
        assert(s[i].wf());
        assert forall|j: int| 0 <= j < s.len() implies {
            let a = s[j];
            let b = #[trigger] s2[j];
            &&& b.id == a.id
            &&& b.project == a.project
            &&& b.desc == a.desc
            &&& b.date_added == a.date_added
            &&& b.completed == a.completed
            &&& (b.date_completed is Some) == (a.date_completed is Some)
            &&& !a.completed ==> b == a
        } by {
            assert(s[j].wf());
        }
    } else {
        assert(s1 == s);
    }
}

/// Toggling an id that no record has leaves the store unchanged.
pub proof fn lemma_toggle_missing(s: Seq<Record>, id: u32, now: i64)
    requires
        forall|i: int| 0 <= i < s.len() ==> #[trigger] s[i].id != id,
    ensures
        toggle_spec(s, id, now) == s,
{
}

} // verus!
