//! Per-asset lifecycle state machine, one store per asset category.
//!
//! Each asset id moves through `Unrequested -> Loading -> Ready`, returning
//! to `Loading` on a confirmed (debounced) file change and falling back to
//! `Unrequested` when a background decode fails. The store never performs
//! I/O or touches a device itself: the host submits the background jobs the
//! store asks for ([`Submission`]) and hands completed results back
//! ([`Completion`] payloads already materialized into the resource type `R`).

use vstd::prelude::*;

use crate::LoadError;
use crate::RELOAD_DEBOUNCE_MS;

verus! {

/// Lifecycle record for one asset id.
pub struct Slot<R> {
    /// The asset id this slot tracks.
    pub id: String,
    /// The id is in the requested ("loaded") set: a job was submitted for it
    /// and has not failed since. Suppresses duplicate `load` submissions.
    pub requested: bool,
    /// A background job for this id is currently pending.
    pub in_flight: bool,
    /// Monotonic job token, bumped on every submission for this id. A
    /// completion is accepted only when it carries the current token, so a
    /// result from a superseded job can never overwrite a newer one.
    pub token: u64,
    /// Bumped each time a resource is materialized for this id; two distinct
    /// materializations of one id never share a generation.
    pub generation: u64,
    /// The currently materialized resource, if any. Kept (still queryable)
    /// while a reload is in flight, and replaced wholesale on completion.
    pub res: Option<R>,
}

/// A background job the host must submit: decode asset `id` and hand the
/// result back as a [`Completion`] carrying the same `token`.
pub struct Submission {
    pub id: String,
    pub token: u64,
}

/// A finished background job for asset `id`, as handed back by the host.
pub struct Completion<R> {
    pub id: String,
    /// Token of the [`Submission`] this result answers.
    pub token: u64,
    pub result: Result<R, LoadError>,
}

/// Asset store for one category: maps each asset id to its lifecycle slot.
pub struct AssetStore<R> {
    pub slots: Vec<Slot<R>>,
    /// Timestamp (host milliseconds) of the last accepted reload action;
    /// used to debounce change events.
    pub last_reload: u64,
    /// Id whose resource was (re)materialized during the current
    /// `hot_reload` call, if any; cleared at the start of the next call.
    pub frame_reloaded: Option<String>,
}

/// Successor of a job or generation counter (wraps at the top so that the
/// exec code never overflows).
pub open spec fn spec_bump(g: u64) -> u64 {
    if g == u64::MAX {
        0
    } else {
        (g + 1) as u64
    }
}

/// The views of a sequence of id strings.
pub open spec fn views_of(ids: Seq<String>) -> Seq<Seq<char>> {
    ids.map_values(|s: String| s@)
}

/// First index in `slots` whose id views to `id`, or `slots.len()` if none.
pub open spec fn idx_of<R>(slots: Seq<Slot<R>>, id: Seq<char>) -> int
    decreases slots.len(),
{
    if slots.len() == 0 {
        0
    } else if slots[0].id@ == id {
        0
    } else {
        1 + idx_of(slots.drop_first(), id)
    }
}

/// Some id in `slots` views to `id`.
pub open spec fn has_id<R>(slots: Seq<Slot<R>>, id: Seq<char>) -> bool {
    idx_of(slots, id) < slots.len()
}

/// The first slot for `id`, if one exists.
pub open spec fn lookup<R>(slots: Seq<Slot<R>>, id: Seq<char>) -> Option<Slot<R>> {
    if has_id(slots, id) {
        Some(slots[idx_of(slots, id)])
    } else {
        None
    }
}

/// The materialized resource recorded for `id`, if any.
pub open spec fn spec_get<R>(slots: Seq<Slot<R>>, id: Seq<char>) -> Option<R> {
    match lookup(slots, id) {
        Some(sl) => sl.res,
        None => None,
    }
}

/// `idx_of` is the least matching index (or the length when there is none).
pub proof fn lemma_idx_of<R>(slots: Seq<Slot<R>>, id: Seq<char>)
    ensures
        0 <= idx_of(slots, id) <= slots.len(),
        idx_of(slots, id) < slots.len() ==> slots[idx_of(slots, id)].id@ == id,
        forall|j: int| 0 <= j < idx_of(slots, id) ==> slots[j].id@ != id,
        (exists|j: int| 0 <= j < slots.len() && slots[j].id@ == id) ==> has_id(slots, id),
    decreases slots.len(),
{
    if slots.len() > 0 && slots[0].id@ != id {
        let rest = slots.drop_first();
        lemma_idx_of(rest, id);
        assert forall|j: int| 0 <= j < idx_of(slots, id) implies slots[j].id@ != id by {
            if j > 0 {
                assert(rest[j - 1] == slots[j]);
            }
        }
        if exists|j: int| 0 <= j < slots.len() && slots[j].id@ == id {
            let j = choose|j: int| 0 <= j < slots.len() && slots[j].id@ == id;
            assert(rest[j - 1] == slots[j]);
        }
    }
}

/// The slot may fire a reload now: it has a materialized resource, its
/// backing file changed, the debounce window has elapsed, and no job for it
/// is already pending.
pub open spec fn eligible<R>(sl: Slot<R>, changed: Seq<Seq<char>>, now: u64, last: u64) -> bool {
    &&& sl.res is Some
    &&& changed.contains(sl.id@)
    &&& now >= last + RELOAD_DEBOUNCE_MS
    &&& !sl.in_flight
}

/// Least index `>= i` of a slot eligible to fire, if any.
pub open spec fn first_eligible_from<R>(
    slots: Seq<Slot<R>>,
    changed: Seq<Seq<char>>,
    now: u64,
    last: u64,
    i: int,
) -> Option<int>
    decreases slots.len() - i,
{
    if i >= slots.len() {
        None
    } else if eligible(slots[i], changed, now, last) {
        Some(i)
    } else {
        first_eligible_from(slots, changed, now, last, i + 1)
    }
}

/// Least index of a slot eligible to fire, if any. Because firing moves the
/// debounce timestamp to `now`, at most one slot fires per poll.
pub open spec fn first_eligible<R>(
    slots: Seq<Slot<R>>,
    changed: Seq<Seq<char>>,
    now: u64,
    last: u64,
) -> Option<int> {
    first_eligible_from(slots, changed, now, last, 0)
}

/// `first_eligible_from` finds the least eligible index at or after `i`.
pub proof fn lemma_first_eligible_from<R>(
    slots: Seq<Slot<R>>,
    changed: Seq<Seq<char>>,
    now: u64,
    last: u64,
    i: int,
)
    requires
        0 <= i <= slots.len(),
    ensures
        match first_eligible_from(slots, changed, now, last, i) {
            Some(j) => {
                &&& i <= j < slots.len()
                &&& eligible(slots[j], changed, now, last)
                &&& forall|m: int| i <= m < j ==> !eligible(slots[m], changed, now, last)
            },
            None => forall|m: int| i <= m < slots.len() ==> !eligible(slots[m], changed, now, last),
        },
    decreases slots.len() - i,
{
    if i < slots.len() && !eligible(slots[i], changed, now, last) {
        lemma_first_eligible_from(slots, changed, now, last, i + 1);
    }
}

/// `prev` after a (re)submission.
pub open spec fn resubmitted<R>(prev: Slot<R>) -> Slot<R> {
    Slot {
        id: prev.id,
        requested: true,
        in_flight: true,
        token: spec_bump(prev.token),
        generation: prev.generation,
        res: prev.res,
    }
}

/// `prev` after its pending job delivered resource `r`: the job is done,
/// the resource is replaced wholesale and the generation is bumped.
pub open spec fn completed_ok<R>(prev: Slot<R>, r: R) -> Slot<R> {
    Slot {
        id: prev.id,
        requested: true,
        in_flight: false,
        token: prev.token,
        generation: spec_bump(prev.generation),
        res: Some(r),
    }
}

/// `prev` after its pending job failed: it leaves the requested set (so a
/// later `load` may retry) but any old resource stays queryable.
pub open spec fn completed_err<R>(prev: Slot<R>) -> Slot<R> {
    Slot {
        id: prev.id,
        requested: false,
        in_flight: false,
        token: prev.token,
        generation: prev.generation,
        res: prev.res,
    }
}

/// Change-poll phase of `hot_reload`: the first eligible slot (if any)
/// fires, and the debounce timestamp moves to `now`.
pub open spec fn spec_poll<R>(
    slots: Seq<Slot<R>>,
    changed: Seq<Seq<char>>,
    now: u64,
    last: u64,
) -> (Seq<Slot<R>>, u64) {
    match first_eligible(slots, changed, now, last) {
        Some(k) => (slots.update(k, resubmitted(slots[k])), now),
        None => (slots, last),
    }
}

/// Drain phase of `hot_reload`: a completion is applied only when its id has
/// a pending job carrying the same token; anything else (never-requested id,
/// superseded job) is discarded without any state change.
pub open spec fn spec_complete<R>(slots: Seq<Slot<R>>, c: Completion<R>) -> (
    Seq<Slot<R>>,
    Option<String>,
) {
    let k = idx_of(slots, c.id@);
    if has_id(slots, c.id@) && slots[k].in_flight && slots[k].token == c.token {
        match c.result {
            Ok(r) => (slots.update(k, completed_ok(slots[k], r)), Some(c.id)),
            Err(_) => (slots.update(k, completed_err(slots[k])), None),
        }
    } else {
        (slots, None)
    }
}

impl<R> Slot<R> {
    /// `self` is `prev` after a (re)submission: job pending, token bumped,
    /// resource and generation untouched.
    pub open spec fn is_resubmitted(self, prev: Slot<R>) -> bool {
        &&& self.id == prev.id
        &&& self.requested
        &&& self.in_flight
        &&& self.token == spec_bump(prev.token)
        &&& self.generation == prev.generation
        &&& self.res == prev.res
    }

    /// `self` is a brand-new slot for `id`, with its first job pending.
    pub open spec fn is_fresh(self, id: Seq<char>) -> bool {
        &&& self.id@ == id
        &&& self.requested
        &&& self.in_flight
        &&& self.token == 1
        &&& self.generation == 0
        &&& self.res is None
    }
}

/// How `load` transforms the slot sequence: a no-op when `id` is already
/// requested, a resubmission of its slot when it is known but not requested,
/// and a fresh slot otherwise. `submitted` says whether a background job was
/// handed to the host.
pub open spec fn load_post<R>(
    pre: Seq<Slot<R>>,
    post: Seq<Slot<R>>,
    submitted: bool,
    id: Seq<char>,
) -> bool {
    match lookup(pre, id) {
        Some(prev) => {
            if prev.requested {
                &&& !submitted
                &&& post == pre
            } else {
                &&& submitted
                &&& post == pre.update(idx_of(pre, id), post[idx_of(pre, id)])
                &&& post[idx_of(pre, id)].is_resubmitted(prev)
            }
        },
        None => {
            &&& submitted
            &&& post.len() == pre.len() + 1
            &&& post.drop_last() == pre
            &&& post.last().is_fresh(id)
        },
    }
}

/// `idx_of` depends only on the ids, not on the rest of the slots.
pub proof fn lemma_idx_of_same_ids<R>(s1: Seq<Slot<R>>, s2: Seq<Slot<R>>, id: Seq<char>)
    requires
        s1.len() == s2.len(),
        forall|i: int| 0 <= i < s1.len() ==> (#[trigger] s1[i]).id@ == (#[trigger] s2[i]).id@,
    ensures
        idx_of(s1, id) == idx_of(s2, id),
    decreases s1.len(),
{
    if s1.len() > 0 && s1[0].id@ != id {
        let r1 = s1.drop_first();
        let r2 = s2.drop_first();
        assert(forall|i: int| 0 <= i < r1.len() ==> (#[trigger] r1[i]).id@ == (#[trigger] r2[i]).id@)
            by {
            assert forall|i: int| 0 <= i < r1.len() implies (#[trigger] r1[i]).id@ == (
            #[trigger] r2[i]).id@ by {
                assert(r1[i] == s1[i + 1]);
                assert(r2[i] == s2[i + 1]);
            }
        }
        lemma_idx_of_same_ids(r1, r2, id);
    }
}

/// LAW — never-requested ids stay invisible. An id with no slot is reported
/// not-ready by `get`; a change poll never fires a job for it and never
/// creates a slot for it; and a stray completion claiming that id is
/// discarded without any state change.
pub proof fn lemma_unrequested_id<R>(
    slots: Seq<Slot<R>>,
    changed: Seq<Seq<char>>,
    now: u64,
    last: u64,
    c: Completion<R>,
    id: Seq<char>,
)
    requires
        !has_id(slots, id),
        c.id@ == id,
    ensures
        spec_get(slots, id) is None,
        match first_eligible(slots, changed, now, last) {
            Some(k) => slots[k].id@ != id,
            None => true,
        },
        !has_id(spec_poll(slots, changed, now, last).0, id),
        spec_complete(slots, c) == (slots, None::<String>),
{
    lemma_idx_of(slots, id);
    lemma_first_eligible_from(slots, changed, now, last, 0);
    match first_eligible(slots, changed, now, last) {
        Some(k) => {
            assert(slots[k].id@ != id);
            let polled = spec_poll(slots, changed, now, last).0;
            assert forall|i: int| 0 <= i < slots.len() implies (#[trigger] slots[i]).id@ == (
            #[trigger] polled[i]).id@ by {}
            lemma_idx_of_same_ids(slots, polled, id);
        },
        None => {},
    }
}

/// LAW — `load` is idempotent under the requested-set guard: whatever the
/// first call did for `id`, an immediately following `load` of the same id
/// submits no second job and leaves the store unchanged.
pub proof fn lemma_load_idempotent<R>(
    s0: Seq<Slot<R>>,
    s1: Seq<Slot<R>>,
    s2: Seq<Slot<R>>,
    sub1: bool,
    sub2: bool,
    id: Seq<char>,
)
    requires
        load_post(s0, s1, sub1, id),
        load_post(s1, s2, sub2, id),
    ensures
        !sub2,
        s2 == s1,
{
    lemma_idx_of(s0, id);
    match lookup(s0, id) {
        Some(prev) => {
            if !prev.requested {
                lemma_idx_of_same_ids(s0, s1, id);
            }
        },
        None => {
            let k = s0.len() as int;
            assert(s1[k].id@ == id);
            assert forall|j: int| 0 <= j < k implies (#[trigger] s1[j]).id@ != id by {
                assert(s1.drop_last()[j] == s1[j]);
            }
            lemma_idx_of(s1, id);
            assert(has_id(s1, id));
            assert(idx_of(s1, id) == k);
        },
    }
}

/// LAW — a debounced reload of a ready asset has no gap. With `id` the only
/// changed id, a `hot_reload` poll past the debounce window fires exactly
/// one job, for `id` itself, while the old resource stays queryable; when
/// that job's completion arrives, the resource is replaced and the
/// generation is bumped, so the new object is distinguishable from the old.
pub proof fn lemma_reload_no_gap<R>(
    slots: Seq<Slot<R>>,
    changed: Seq<Seq<char>>,
    now: u64,
    last: u64,
    c: Completion<R>,
    r: R,
    id: Seq<char>,
)
    requires
        forall|i: int, j: int|
            0 <= i < j < slots.len() ==> (#[trigger] slots[i]).id@ != (#[trigger] slots[j]).id@,
        has_id(slots, id),
        lookup(slots, id)->0.res is Some,
        !lookup(slots, id)->0.in_flight,
        changed =~= seq![id],
        now >= last + RELOAD_DEBOUNCE_MS,
        c.id@ == id,
        c.token == spec_bump(lookup(slots, id)->0.token),
        c.result == Ok::<R, LoadError>(r),
    ensures
        ({
            let k = idx_of(slots, id);
            let polled = spec_poll(slots, changed, now, last);
            let done = spec_complete(polled.0, c);
            &&& first_eligible(slots, changed, now, last) == Some(k)
            &&& polled.1 == now
            &&& spec_get(polled.0, id) == spec_get(slots, id)
            &&& polled.0[k].in_flight
            &&& spec_get(done.0, id) == Some(r)
            &&& done.0[k].generation == spec_bump(slots[k].generation)
            &&& done.1 == Some(c.id)
        }),
{
    let k = idx_of(slots, id);
    lemma_idx_of(slots, id);
    assert(changed.contains(id)) by {
        assert(changed[0] == id);
    }
    assert(eligible(slots[k], changed, now, last));
    lemma_first_eligible_from(slots, changed, now, last, 0);
    match first_eligible(slots, changed, now, last) {
        Some(j) => {
            if j != k {
                assert(changed[0] == id);
                assert(slots[j].id@ == id);
            }
        },
        None => {
            assert(!eligible(slots[k], changed, now, last));
        },
    }
    let polled = spec_poll(slots, changed, now, last);
    assert forall|i: int| 0 <= i < slots.len() implies (#[trigger] slots[i]).id@ == (
    #[trigger] polled.0[i]).id@ by {}
    lemma_idx_of_same_ids(slots, polled.0, id);
    let done = spec_complete(polled.0, c);
    lemma_idx_of_same_ids(polled.0, done.0, id);
    assert forall|i: int| 0 <= i < polled.0.len() implies (#[trigger] polled.0[i]).id@ == (
    #[trigger] done.0[i]).id@ by {}
}

impl<R> AssetStore<R> {
    /// Ids are unique, and a pending job implies membership in the
    /// requested set.
    pub open spec fn wf(self) -> bool {
        &&& forall|i: int, j: int|
            0 <= i < j < self.slots@.len() ==> (#[trigger] self.slots@[i]).id@ != (
            #[trigger] self.slots@[j]).id@
        &&& forall|i: int|
            0 <= i < self.slots@.len() && (#[trigger] self.slots@[i]).in_flight
                ==> self.slots@[i].requested
    }

    /// An empty store: every id is `Unrequested` and nothing is in flight.
    pub fn new() -> (s: Self)
        ensures
            s.wf(),
            s.slots@.len() == 0,
            s.last_reload == 0,
            s.frame_reloaded is None,
    {
        AssetStore { slots: Vec::new(), last_reload: 0, frame_reloaded: None }
    }

    /// Request asset `id`. Idempotent: if `id` is already in the requested
    /// set, nothing changes and no job is returned; otherwise the slot (new
    /// or failed-and-retried) gets a pending job, which the host must
    /// submit.
    pub fn load(&mut self, id: &str) -> (sub: Option<Submission>)
        requires
            old(self).wf(),
        ensures
            final(self).wf(),
            final(self).last_reload == old(self).last_reload,
            final(self).frame_reloaded == old(self).frame_reloaded,
            load_post(old(self).slots@, final(self).slots@, sub is Some, id@),
            sub matches Some(s) ==> {
                &&& s.id@ == id@
                &&& has_id(final(self).slots@, id@)
                &&& s.token == lookup(final(self).slots@, id@)->0.token
            },
    {
        let key: String = id.to_owned();
        let i = find_idx(&self.slots, &key);
        proof {
            lemma_idx_of(self.slots@, key@);
        }
        if i < self.slots.len() {
            if self.slots[i].requested {
                None
            } else {
                let t = bump(self.slots[i].token);
                self.slots[i].requested = true;
                self.slots[i].in_flight = true;
                self.slots[i].token = t;
                proof {
                    assert(final(self).slots@ == old(self).slots@.update(
                        i as int,
                        final(self).slots@[i as int],
                    ));
                    lemma_idx_of_same_ids(old(self).slots@, final(self).slots@, key@);
                }
                Some(Submission { id: key, token: t })
            }
        } else {
            let sl = Slot {
                id: key.clone(),
                requested: true,
                in_flight: true,
                token: 1,
                generation: 0,
                res: None,
            };
            self.slots.push(sl);
            proof {
                assert(final(self).slots@.drop_last() == old(self).slots@);
                let n = old(self).slots@.len() as int;
                assert forall|j: int| 0 <= j < n implies (#[trigger] final(self).slots@[j]).id@
                    != key@ by {
                    assert(final(self).slots@.drop_last()[j] == final(self).slots@[j]);
                }
                lemma_idx_of(final(self).slots@, key@);
                assert(final(self).slots@[n].id@ == key@);
                assert(has_id(final(self).slots@, key@));
                assert(idx_of(final(self).slots@, key@) == n);
            }
            Some(Submission { id: key, token: 1 })
        }
    }

    /// Read-only accessor: the materialized resource for `id`, or `None`
    /// while the id is `Unrequested` or still on its first load.
    pub fn get(&self, id: &str) -> (r: Option<&R>)
        ensures
            match r {
                Some(x) => spec_get(self.slots@, id@) == Some(*x),
                None => spec_get(self.slots@, id@) is None,
            },
    {
        let key: String = id.to_owned();
        let i = find_idx(&self.slots, &key);
        proof {
            lemma_idx_of(self.slots@, key@);
        }
        if i < self.slots.len() {
            self.slots[i].res.as_ref()
        } else {
            None
        }
    }

    /// The generation of the materialized resource for `id`, if one exists.
    /// Distinct materializations of one id report distinct generations
    /// (until the `u64` counter wraps).
    pub fn generation(&self, id: &str) -> (g: Option<u64>)
        ensures
            match lookup(self.slots@, id@) {
                Some(sl) => g == (if sl.res is Some {
                    Some(sl.generation)
                } else {
                    None::<u64>
                }),
                None => g is None,
            },
    {
        let key: String = id.to_owned();
        let i = find_idx(&self.slots, &key);
        proof {
            lemma_idx_of(self.slots@, key@);
        }
        if i < self.slots.len() && self.slots[i].res.is_some() {
            Some(self.slots[i].generation)
        } else {
            None
        }
    }
}

impl<R> AssetStore<R> {
    /// Once-per-frame lifecycle step.
    ///
    /// `changed` holds the ids whose backing files the host's watcher saw
    /// change since the last call; `completion` is the at-most-one finished
    /// background job the host drained from this category's channel this
    /// frame; `now_ms` is the host's monotonic clock in milliseconds.
    ///
    /// First the change poll: the first slot that is eligible (see
    /// [`eligible`]) fires a reload job — returned in `subs` for the host to
    /// submit — while its old resource stays materialized and queryable.
    /// Then the drain: the completion, if its token is current, either
    /// replaces the slot's resource (bumping the generation and publishing
    /// the id in `frame_reloaded`) or, on failure, drops the id from the
    /// requested set so a later `load` may retry.
    pub fn hot_reload(
        &mut self,
        changed: &Vec<String>,
        completion: Option<Completion<R>>,
        now_ms: u64,
    ) -> (subs: Vec<Submission>)
        requires
            old(self).wf(),
            old(self).last_reload <= now_ms,
        ensures
            final(self).wf(),
            ({
                let ch = views_of(changed@);
                let polled = spec_poll(old(self).slots@, ch, now_ms, old(self).last_reload);
                let done = match completion {
                    Some(c) => spec_complete(polled.0, c),
                    None => (polled.0, None::<String>),
                };
                &&& final(self).slots@ == done.0
                &&& final(self).last_reload == polled.1
                &&& final(self).frame_reloaded == done.1
                &&& match first_eligible(old(self).slots@, ch, now_ms, old(self).last_reload) {
                    Some(k) => {
                        &&& subs@.len() == 1
                        &&& subs@[0].id@ == old(self).slots@[k].id@
                        &&& subs@[0].token == spec_bump(old(self).slots@[k].token)
                    },
                    None => subs@.len() == 0,
                }
            }),
    {
        self.frame_reloaded = None;
        let mut subs: Vec<Submission> = Vec::new();

        let k = find_eligible(&self.slots, changed, now_ms, self.last_reload);
        proof {
            lemma_first_eligible_from(
                old(self).slots@,
                views_of(changed@),
                now_ms,
                old(self).last_reload,
                0,
            );
        }
        let ghost polled = spec_poll(
            old(self).slots@,
            views_of(changed@),
            now_ms,
            old(self).last_reload,
        );
        if k < self.slots.len() {
            let t = bump(self.slots[k].token);
            self.slots[k].requested = true;
            self.slots[k].in_flight = true;
            self.slots[k].token = t;
            self.last_reload = now_ms;
            let sid = self.slots[k].id.clone();
            subs.push(Submission { id: sid, token: t });
            proof {
                assert(self.slots@ =~= polled.0);
            }
        }
        proof {
            assert(self.slots@ == polled.0);
        }

        match completion {
            Some(c) => {
                let i = find_idx(&self.slots, &c.id);
                proof {
                    lemma_idx_of(self.slots@, c.id@);
                }
                if i < self.slots.len() && self.slots[i].in_flight && self.slots[i].token
                    == c.token {
                    match c.result {
                        Ok(r) => {
                            let g = bump(self.slots[i].generation);
                            self.slots[i].in_flight = false;
                            self.slots[i].generation = g;
                            self.slots[i].res = Some(r);
                            self.frame_reloaded = Some(c.id);
                            proof {
                                assert(self.slots@ =~= polled.0.update(
                                    i as int,
                                    completed_ok(polled.0[i as int], self.slots@[i as int].res->0),
                                ));
                            }
                        },
                        Err(_) => {
                            self.slots[i].in_flight = false;
                            self.slots[i].requested = false;
                            proof {
                                assert(self.slots@ =~= polled.0.update(
                                    i as int,
                                    completed_err(polled.0[i as int]),
                                ));
                            }
                        },
                    }
                }
            },
            None => {},
        }
        subs
    }

    /// Debounced change query for a single id, moving the shared debounce
    /// timestamp when the window has elapsed. `true` at most once per window
    /// per change, however many raw events the watcher delivered.
    pub fn reloaded(&mut self, id: &str, changed: &Vec<String>, now_ms: u64) -> (r: bool)
        requires
            old(self).wf(),
            old(self).last_reload <= now_ms,
        ensures
            final(self).wf(),
            final(self).slots@ == old(self).slots@,
            final(self).frame_reloaded == old(self).frame_reloaded,
            if now_ms >= old(self).last_reload + RELOAD_DEBOUNCE_MS {
                &&& final(self).last_reload == now_ms
                &&& r == views_of(changed@).contains(id@)
            } else {
                &&& final(self).last_reload == old(self).last_reload
                &&& !r
            },
    {
        if now_ms - self.last_reload >= RELOAD_DEBOUNCE_MS {
            self.last_reload = now_ms;
            let key: String = id.to_owned();
            contains_str(changed, &key)
        } else {
            false
        }
    }
}

/// Whether some string in `ids` views to `key`.
fn contains_str(ids: &Vec<String>, key: &String) -> (r: bool)
    ensures
        r == views_of(ids@).contains(key@),
{
    let mut i: usize = 0;
    while i < ids.len()
        invariant
            i <= ids@.len(),
            forall|j: int| 0 <= j < i ==> views_of(ids@)[j] != key@,
        decreases ids@.len() - i,
    {
        if ids[i] == *key {
            proof {
                assert(views_of(ids@)[i as int] == key@);
            }
            return true;
        }
        i = i + 1;
    }
    proof {
        assert(forall|j: int| 0 <= j < views_of(ids@).len() ==> views_of(ids@)[j] != key@);
    }
    false
}

/// Least index of an eligible slot, or `slots.len()` if none is eligible.
fn find_eligible<R>(slots: &Vec<Slot<R>>, changed: &Vec<String>, now: u64, last: u64) -> (k: usize)
    requires
        last <= now,
    ensures
        match first_eligible(slots@, views_of(changed@), now, last) {
            Some(j) => k == j,
            None => k == slots@.len(),
        },
{
    let mut i: usize = 0;
    while i < slots.len()
        invariant
            last <= now,
            i <= slots@.len(),
            first_eligible(slots@, views_of(changed@), now, last) == first_eligible_from(
                slots@,
                views_of(changed@),
                now,
                last,
                i as int,
            ),
        decreases slots@.len() - i,
    {
        let fire = slots[i].res.is_some() && contains_str(changed, &slots[i].id) && now - last
            >= RELOAD_DEBOUNCE_MS && !slots[i].in_flight;
        if fire {
            proof {
                assert(eligible(slots@[i as int], views_of(changed@), now, last));
            }
            return i;
        }
        proof {
            assert(!eligible(slots@[i as int], views_of(changed@), now, last));
        }
        i = i + 1;
    }
    i
}

/// First index in `slots` whose id equals `key`, or `slots.len()`.
fn find_idx<R>(slots: &Vec<Slot<R>>, key: &String) -> (r: usize)
    ensures
        r == idx_of(slots@, key@),
{
    let mut i: usize = 0;
    while i < slots.len() && slots[i].id != *key
        invariant
            i <= slots@.len(),
            forall|j: int| 0 <= j < i ==> slots@[j].id@ != key@,
        decreases slots@.len() - i,
    {
        i = i + 1;
    }
    proof {
        lemma_idx_of(slots@, key@);
        if i < slots@.len() {
            assert(has_id(slots@, key@));
        }
    }
    i
}

/// Successor of a counter, wrapping at `u64::MAX`.
fn bump(g: u64) -> (r: u64)
    ensures
        r == spec_bump(g),
{
    if g == u64::MAX {
        0
    } else {
        g + 1
    }
}

} // verus!
