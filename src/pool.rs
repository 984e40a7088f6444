//! The registry of open sessions: an ordered sequence of entries keyed by a
//! caller-assigned connection id, each holding its session and the handle of
//! at most one polling task.
//!
//! The pool is generic over the session type `S` and the task handle type
//! `T`. Operations that take a task handle out of the pool hand it back to
//! the caller, who cancels it; no handle is ever dropped or duplicated here.
use vstd::prelude::*;

verus! {

/// One open session.
pub struct PoolEntry<S, T> {
    pub id: usize,
    pub session: S,
    pub poller: Option<T>,
}

pub struct Pool<S, T> {
    entries: Vec<PoolEntry<S, T>>,
}

/// No two entries share an id.
pub open spec fn ids_unique<S, T>(s: Seq<PoolEntry<S, T>>) -> bool {
    forall|i: int, j: int| 0 <= i < j < s.len() ==> s[i].id != s[j].id
}

pub open spec fn has_id<S, T>(s: Seq<PoolEntry<S, T>>, id: usize) -> bool {
    exists|i: int| 0 <= i < s.len() && s[i].id == id
}

/// The position of the entry with `id`, where there is one.
pub open spec fn index_of_id<S, T>(s: Seq<PoolEntry<S, T>>, id: usize) -> int {
    choose|i: int| 0 <= i < s.len() && s[i].id == id
}

/// The number of entries with `id`.
pub open spec fn count_id<S, T>(s: Seq<PoolEntry<S, T>>, id: usize) -> nat
    decreases s.len(),
{
    if s.len() == 0 {
        0
    } else {
        count_id(s.drop_last(), id) + if s.last().id == id {
            1nat
        } else {
            0nat
        }
    }
}

/// The number of entries with `id` that hold a polling task.
pub open spec fn count_pollers<S, T>(s: Seq<PoolEntry<S, T>>, id: usize) -> nat
    decreases s.len(),
{
    if s.len() == 0 {
        0
    } else {
        count_pollers(s.drop_last(), id) + if s.last().id == id && s.last().poller is Some {
            1nat
        } else {
            0nat
        }
    }
}

/// The pool after a session is offered under `id`: added at the end, without
/// a poller, unless `id` is taken, in which case nothing changes.
pub open spec fn after_insert<S, T>(s: Seq<PoolEntry<S, T>>, id: usize, session: S) -> Seq<
    PoolEntry<S, T>,
> {
    if has_id(s, id) {
        s
    } else {
        s.push(PoolEntry { id, session, poller: None })
    }
}

/// The pool after the entry with `id` is closed.
pub open spec fn after_remove<S, T>(s: Seq<PoolEntry<S, T>>, id: usize) -> Seq<PoolEntry<S, T>> {
    if has_id(s, id) {
        s.remove(index_of_id(s, id))
    } else {
        s
    }
}

/// The pool after the entry with `id` gets `task` as its poller.
pub open spec fn after_restart<S, T>(s: Seq<PoolEntry<S, T>>, id: usize, task: T) -> Seq<
    PoolEntry<S, T>,
> {
    if has_id(s, id) {
        let i = index_of_id(s, id);
        s.update(i, PoolEntry { id: s[i].id, session: s[i].session, poller: Some(task) })
    } else {
        s
    }
}

pub proof fn lemma_index_of_id<S, T>(s: Seq<PoolEntry<S, T>>, id: usize, i: int)
    requires
        ids_unique(s),
        0 <= i < s.len(),
        s[i].id == id,
    ensures
        has_id(s, id),
        index_of_id(s, id) == i,
{
    assert(has_id(s, id));
    let k = index_of_id(s, id);
    assert(s[k].id == id);
    if k < i {
        assert(s[k].id != s[i].id);
    } else if k > i {
        assert(s[i].id != s[k].id);
    }
}

impl<S, T> View for Pool<S, T> {
    type V = Seq<PoolEntry<S, T>>;

    closed spec fn view(&self) -> Seq<PoolEntry<S, T>> {
        self.entries@
    }
}

impl<S, T> Pool<S, T> {
    #[verifier::type_invariant]
    spec fn unique_ids(&self) -> bool {
        ids_unique(self.entries@)
    }

    pub fn new() -> (r: Self)
        ensures
            r@ == Seq::<PoolEntry<S, T>>::empty(),
            ids_unique(r@),
    {
        Pool { entries: Vec::new() }
    }

    pub fn len(&self) -> (r: usize)
        ensures
            r == self@.len(),
            ids_unique(self@),
    {
        proof {
            use_type_invariant(self);
        }
        self.entries.len()
    }

    /// Where the entry with `id` stands.
    pub fn position(&self, id: usize) -> (r: Option<usize>)
        ensures
            r is None <==> !has_id(self@, id),
            r matches Some(i) ==> i == index_of_id(self@, id) && self@[i as int].id == id,
            ids_unique(self@),
    {
        proof {
            use_type_invariant(self);
        }
        let mut i: usize = 0;
        while i < self.entries.len()
            invariant
                i <= self.entries@.len(),
                ids_unique(self.entries@),
                forall|k: int| 0 <= k < i ==> #[trigger] self.entries@[k].id != id,
            decreases self.entries@.len() - i,
        {
            if self.entries[i].id == id {
                proof {
                    lemma_index_of_id(self.entries@, id, i as int);
                }
                return Some(i);
            }
            i = i + 1;
        }
        None
    }

    pub fn contains(&self, id: usize) -> (r: bool)
        ensures
            r == has_id(self@, id),
            ids_unique(self@),
    {
        self.position(id).is_some()
    }

    /// The session open under `id`.
    pub fn get(&self, id: usize) -> (r: Option<&S>)
        ensures
            r is None <==> !has_id(self@, id),
            r matches Some(x) ==> *x == self@[index_of_id(self@, id)].session,
            ids_unique(self@),
    {
        match self.position(id) {
            Some(i) => Some(&self.entries[i].session),
            None => None,
        }
    }

    /// Adds `session` under `id`. An id that is already open is refused and
    /// the session handed back: an open entry is never overwritten.
    pub fn insert(&mut self, id: usize, session: S) -> (r: Result<(), S>)
        ensures
            final(self)@ == after_insert(old(self)@, id, session),
            r is Err <==> has_id(old(self)@, id),
            r matches Err(x) ==> x == session,
            ids_unique(final(self)@),
    {
        proof {
            use_type_invariant(&*self);
        }
        if self.contains(id) {
            return Err(session);
        }
        let mut v: Vec<PoolEntry<S, T>> = Vec::new();
        std::mem::swap(&mut v, &mut self.entries);
        v.push(PoolEntry { id, session, poller: None });
        self.entries = v;
        Ok(())
    }

    /// Takes the entry with `id` out of the pool, with its session and poller.
    pub fn remove(&mut self, id: usize) -> (r: Option<PoolEntry<S, T>>)
        ensures
            final(self)@ == after_remove(old(self)@, id),
            r is None <==> !has_id(old(self)@, id),
            r matches Some(e) ==> e == old(self)@[index_of_id(old(self)@, id)],
            ids_unique(final(self)@),
    {
        proof {
            use_type_invariant(&*self);
        }
        match self.position(id) {
            None => None,
            Some(i) => {
                let mut v: Vec<PoolEntry<S, T>> = Vec::new();
                std::mem::swap(&mut v, &mut self.entries);
                let ghost before = v@;
                let e = v.remove(i);
                assert forall|a: int, b: int| 0 <= a < b < v@.len() implies v@[a].id
                    != v@[b].id by {
                    let a0 = if a < i { a } else { a + 1 };
                    let b0 = if b < i { b } else { b + 1 };
                    assert(v@[a] == before[a0]);
                    assert(v@[b] == before[b0]);
                }
                self.entries = v;
                Some(e)
            },
        }
    }

    /// Gives the entry with `id` the polling task `task`, and hands back the
    /// task it held before. Where no entry has `id`, `task` is handed back.
    pub fn restart(&mut self, id: usize, task: T) -> (r: Result<Option<T>, T>)
        ensures
            final(self)@ == after_restart(old(self)@, id, task),
            r is Err <==> !has_id(old(self)@, id),
            r matches Err(x) ==> x == task,
            r matches Ok(prev) ==> prev == old(self)@[index_of_id(old(self)@, id)].poller,
            ids_unique(final(self)@),
    {
        proof {
            use_type_invariant(&*self);
        }
        match self.position(id) {
            None => Err(task),
            Some(i) => {
                let mut v: Vec<PoolEntry<S, T>> = Vec::new();
                std::mem::swap(&mut v, &mut self.entries);
                let ghost before = v@;
                let old_entry = v.remove(i);
                let PoolEntry { id: eid, session, poller } = old_entry;
                v.insert(i, PoolEntry { id: eid, session, poller: Some(task) });
                assert(v@ =~= before.update(
                    i as int,
                    PoolEntry { id: before[i as int].id, session: before[i as int].session, poller: Some(task) },
                ));
                self.entries = v;
                Ok(poller)
            },
        }
    }

    /// Empties the pool and hands back every entry, in pool order.
    pub fn drain(&mut self) -> (r: Vec<PoolEntry<S, T>>)
        ensures
            r@ == old(self)@,
            final(self)@ == Seq::<PoolEntry<S, T>>::empty(),
    {
        let mut v: Vec<PoolEntry<S, T>> = Vec::new();
        std::mem::swap(&mut v, &mut self.entries);
        v
    }
}


proof fn lemma_unique_drop_last<S, T>(s: Seq<PoolEntry<S, T>>)
    requires
        ids_unique(s),
        s.len() > 0,
    ensures
        ids_unique(s.drop_last()),
        !has_id(s.drop_last(), s.last().id),
{
    let d = s.drop_last();
    assert forall|i: int, j: int| 0 <= i < j < d.len() implies d[i].id != d[j].id by {
        assert(d[i] == s[i] && d[j] == s[j]);
    }
    if has_id(d, s.last().id) {
        let k = choose|k: int| 0 <= k < d.len() && d[k].id == s.last().id;
        assert(s[k].id != s[s.len() - 1].id);
    }
}

proof fn lemma_has_id_drop_last<S, T>(s: Seq<PoolEntry<S, T>>, id: usize)
    requires
        s.len() > 0,
    ensures
        has_id(s, id) <==> (has_id(s.drop_last(), id) || s.last().id == id),
{
    let d = s.drop_last();
    if has_id(s, id) && s.last().id != id {
        let k = choose|k: int| 0 <= k < s.len() && s[k].id == id;
        assert(k < s.len() - 1);
        assert(d[k].id == id);
    }
    if has_id(d, id) {
        let k = choose|k: int| 0 <= k < d.len() && d[k].id == id;
        assert(s[k].id == id);
    }
    if s.last().id == id {
        assert(s[s.len() - 1].id == id);
    }
}

/// In a pool with unique ids an id has one entry if it is open, none if not.
pub proof fn lemma_count_id_unique<S, T>(s: Seq<PoolEntry<S, T>>, id: usize)
    requires
        ids_unique(s),
    ensures
        count_id(s, id) == if has_id(s, id) {
            1nat
        } else {
            0nat
        },
    decreases s.len(),
{
    if s.len() > 0 {
        lemma_unique_drop_last(s);
        lemma_has_id_drop_last(s, id);
        lemma_count_id_unique(s.drop_last(), id);
    }
}

proof fn lemma_pollers_at_most_entries<S, T>(s: Seq<PoolEntry<S, T>>, id: usize)
    ensures
        count_pollers(s, id) <= count_id(s, id),
    decreases s.len(),
{
    if s.len() > 0 {
        lemma_pollers_at_most_entries(s.drop_last(), id);
    }
}

proof fn lemma_poller_counted<S, T>(s: Seq<PoolEntry<S, T>>, id: usize, i: int)
    requires
        0 <= i < s.len(),
        s[i].id == id,
        s[i].poller is Some,
    ensures
        count_pollers(s, id) >= 1,
    decreases s.len(),
{
    if i < s.len() - 1 {
        assert(s.drop_last()[i] == s[i]);
        lemma_poller_counted(s.drop_last(), id, i);
    }
}

/// A pool with unique ids has at most one polling task per id.
pub proof fn lemma_one_poller_per_id<S, T>(s: Seq<PoolEntry<S, T>>, id: usize)
    requires
        ids_unique(s),
    ensures
        count_pollers(s, id) <= 1,
        !has_id(s, id) ==> count_pollers(s, id) == 0,
{
    lemma_count_id_unique(s, id);
    lemma_pollers_at_most_entries(s, id);
}

/// Opening a second session under an id that is already open changes
/// nothing: the id keeps exactly one entry, with the session of the first
/// open, and at most one polling task.
pub proof fn lemma_second_open_keeps_first<S, T>(
    s: Seq<PoolEntry<S, T>>,
    id: usize,
    first: S,
    second: S,
)
    requires
        ids_unique(s),
    ensures
        ({
            let once = after_insert(s, id, first);
            let twice = after_insert(once, id, second);
            &&& twice == once
            &&& ids_unique(twice)
            &&& count_id(twice, id) == 1
            &&& count_pollers(twice, id) <= 1
            &&& !has_id(s, id) ==> twice[index_of_id(twice, id)].session == first
        }),
{
    let once = after_insert(s, id, first);
    if !has_id(s, id) {
        let n = s.len() as int;
        assert(once[n].id == id);
        assert forall|i: int, j: int| 0 <= i < j < once.len() implies once[i].id
            != once[j].id by {
            if j == n && once[i].id == id {
                assert(s[i].id == id);
            }
        }
        lemma_index_of_id(once, id, n);
    } else {
        let k = choose|k: int| 0 <= k < s.len() && s[k].id == id;
        assert(once[k].id == id);
    }
    assert(has_id(once, id));
    lemma_count_id_unique(once, id);
    lemma_one_poller_per_id(once, id);
}

/// After a close, the id has no entry and no polling task left, and every
/// other id stays open exactly when it was.
pub proof fn lemma_close_leaves_no_poller<S, T>(s: Seq<PoolEntry<S, T>>, id: usize, other: usize)
    requires
        ids_unique(s),
    ensures
        ids_unique(after_remove(s, id)),
        !has_id(after_remove(s, id), id),
        count_pollers(after_remove(s, id), id) == 0,
        other != id ==> (has_id(after_remove(s, id), other) <==> has_id(s, other)),
{
    let r = after_remove(s, id);
    if has_id(s, id) {
        let i = index_of_id(s, id);
        assert(0 <= i < s.len() && s[i].id == id);
        assert(forall|k: int| 0 <= k < r.len() ==> #[trigger] r[k] == s[if k < i { k } else { k + 1 }]);
        assert forall|a: int, b: int| 0 <= a < b < r.len() implies r[a].id != r[b].id by {
            assert(r[a] == s[if a < i { a } else { a + 1 }]);
            assert(r[b] == s[if b < i { b } else { b + 1 }]);
        }
        if has_id(r, id) {
            let k = choose|k: int| 0 <= k < r.len() && r[k].id == id;
            let k0 = if k < i { k } else { k + 1 };
            assert(s[k0].id == id);
            assert(k0 != i);
        }
        if other != id && has_id(s, other) {
            let k = choose|k: int| 0 <= k < s.len() && s[k].id == other;
            assert(k != i);
            let k1 = if k < i { k } else { k - 1 };
            assert(r[k1] == s[k]);
        }
        if has_id(r, other) {
            let k = choose|k: int| 0 <= k < r.len() && r[k].id == other;
            assert(s[if k < i { k } else { k + 1 }].id == other);
        }
    }
    lemma_one_poller_per_id(r, id);
}

/// After a restart on an open id, that id holds exactly one polling task:
/// the new one. Every entry keeps its id and session.
pub proof fn lemma_restart_single_poller<S, T>(s: Seq<PoolEntry<S, T>>, id: usize, task: T)
    requires
        ids_unique(s),
        has_id(s, id),
    ensures
        ({
            let r = after_restart(s, id, task);
            &&& ids_unique(r)
            &&& r.len() == s.len()
            &&& forall|k: int| 0 <= k < s.len() ==> #[trigger] r[k].id == s[k].id && r[k].session == s[k].session
            &&& r[index_of_id(r, id)].poller == Some(task)
            &&& count_pollers(r, id) == 1
        }),
{
    let r = after_restart(s, id, task);
    let i = index_of_id(s, id);
    assert(0 <= i < s.len() && s[i].id == id);
    assert forall|a: int, b: int| 0 <= a < b < r.len() implies r[a].id != r[b].id by {
        assert(r[a].id == s[a].id);
        assert(r[b].id == s[b].id);
    }
    lemma_index_of_id(r, id, i);
    lemma_poller_counted(r, id, i);
    lemma_one_poller_per_id(r, id);
}

} // verus!
