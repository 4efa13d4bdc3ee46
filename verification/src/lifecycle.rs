//! What holds of every run of frames: each session is added once, then
//! updated, then removed once, and the table always holds exactly the
//! sessions that were added and not yet removed.

use vstd::prelude::*;
use crate::dispatcher::{
    apply_set, apply_sets, asks, distinct, kept, known, leaves, lemma_find_from, listed,
    reconcile, removed, slot, stale, Entry, Event, Outcome, Phase, TableModel,
};
use crate::errors::TuioError;
use crate::frame::{Fault, FrameModel};

verus! {

/// A session is known exactly when some entry holds it.
pub proof fn lemma_known<A>(entries: Seq<Entry<A>>, id: i32)
    ensures
        known(entries, id) <==> exists|p: int|
            0 <= p < entries.len() && #[trigger] entries[p].session_id == id,
        known(entries, id) ==> 0 <= slot(entries, id) < entries.len() && entries[slot(
            entries,
            id,
        )].session_id == id,
{
    lemma_find_from(entries, id, 0);
}

/// What holds while the sets of a frame are taken in: no session stands
/// twice; the entries that were there keep their place and their session;
/// the entries behind them are those that the frame created, observed at
/// `now`, one for each add, in order; and each update is for a session that
/// was there before the frame.
pub open spec fn grown<A>(start: Seq<Entry<A>>, ph: Phase<A>, now: u64) -> bool {
    &&& distinct(ph.entries)
    &&& ph.entries.len() == start.len() + ph.adds.len()
    &&& forall|p: int|
        0 <= p < start.len() ==> (#[trigger] ph.entries[p]).session_id == start[p].session_id
    &&& forall|p: int| start.len() <= p < ph.entries.len() ==> (#[trigger] ph.entries[p]).seen_at == now
    &&& forall|j: int|
        0 <= j < ph.adds.len() ==> #[trigger] ph.adds[j] == Event::Add(
            ph.entries[start.len() + j].session_id,
            ph.entries[start.len() + j].state,
        )
    &&& forall|j: int|
        0 <= j < ph.updates.len() ==> (#[trigger] ph.updates[j]) is Update && known(
            start,
            ph.updates[j].session(),
        )
}

proof fn lemma_set_keeps_grown<A>(
    start: Seq<Entry<A>>,
    ph: Phase<A>,
    i: int,
    set: (i32, A),
    now: u64,
    r: A,
    alive: Option<Seq<i32>>,
)
    requires
        grown(start, ph, now),
    ensures
        grown(start, apply_set(ph, i, set, now, r, alive), now),
{
    let id = set.0;
    let next = apply_set(ph, i, set, now, r, alive);
    let p = slot(ph.entries, id);
    lemma_known(ph.entries, id);
    if !known(ph.entries, id) {
        assert(distinct(next.entries));
        assert forall|j: int| 0 <= j < next.adds.len() implies #[trigger] next.adds[j]
            == Event::Add(
            next.entries[start.len() + j].session_id,
            next.entries[start.len() + j].state,
        ) by {
            if j < ph.adds.len() {
                assert(next.adds[j] == ph.adds[j]);
                assert(next.entries[start.len() + j] == ph.entries[start.len() + j]);
            }
        }
        assert(grown(start, next, now));
    } else if ph.entries[p].seen_at < now {
        assert(p < start.len());
        assert(ph.entries[p].session_id == start[p].session_id);
        lemma_known(start, id);
        assert(known(start, id));
        assert(distinct(next.entries)) by {
            assert forall|a: int, b: int| 0 <= a < b < next.entries.len() implies next.entries[a].session_id
                != next.entries[b].session_id by {
                assert(next.entries[a].session_id == ph.entries[a].session_id);
                assert(next.entries[b].session_id == ph.entries[b].session_id);
            }
        }
        assert forall|j: int| 0 <= j < next.adds.len() implies #[trigger] next.adds[j]
            == Event::Add(
            next.entries[start.len() + j].session_id,
            next.entries[start.len() + j].state,
        ) by {
            assert(next.entries[start.len() + j] == ph.entries[start.len() + j]);
        }
        assert forall|j: int| 0 <= j < next.updates.len() implies (#[trigger] next.updates[j]) is Update
            && known(start, next.updates[j].session()) by {
            if j < ph.updates.len() {
                assert(next.updates[j] == ph.updates[j]);
            }
        }
        assert(grown(start, next, now));
    } else {
        assert(grown(start, next, now));
    }
}

/// Taking in the sets of a frame keeps the table in order.
pub proof fn lemma_sets_keep_grown<A>(
    start: Seq<Entry<A>>,
    sets: Seq<(i32, A)>,
    now: u64,
    rs: Seq<A>,
    alive: Option<Seq<i32>>,
    k: int,
)
    requires
        distinct(start),
    ensures
        grown(start, apply_sets(start, sets, now, rs, alive, k), now),
    decreases k,
{
    if k > 0 {
        lemma_sets_keep_grown(start, sets, now, rs, alive, k - 1);
        lemma_set_keeps_grown(
            start,
            apply_sets(start, sets, now, rs, alive, k - 1),
            k - 1,
            sets[k - 1],
            now,
            rs[k - 1],
            alive,
        );
    }
}

/// The sessions that `entries` hold.
pub open spec fn live<A>(entries: Seq<Entry<A>>) -> Set<i32> {
    Set::new(|id: i32| known(entries, id))
}

/// The event may come while exactly the sessions in `present` are live: an
/// add for a session that is not, an update or a remove for one that is.
pub open spec fn permits<A>(present: Set<i32>, e: Event<A>) -> bool {
    match e {
        Event::Add(id, _) => !present.contains(id),
        Event::Update(id, _) => present.contains(id),
        Event::Remove(id, _) => present.contains(id),
    }
}

/// The sessions that are live after the event.
pub open spec fn after<A>(present: Set<i32>, e: Event<A>) -> Set<i32> {
    match e {
        Event::Add(id, _) => present.insert(id),
        Event::Update(_, _) => present,
        Event::Remove(id, _) => present.remove(id),
    }
}

/// The sessions that are live after the events, in order.
pub open spec fn live_after<A>(present: Set<i32>, events: Seq<Event<A>>) -> Set<i32>
    decreases events.len(),
{
    if events.len() == 0 {
        present
    } else {
        after(live_after(present, events.drop_last()), events.last())
    }
}

/// Each event comes when it may: starting from the sessions in `present`, a
/// session is added only while it is not live, and updated or removed only
/// while it is. So the events of one session read add, updates, remove, add,
/// and so on, in this order.
pub open spec fn orderly<A>(present: Set<i32>, events: Seq<Event<A>>) -> bool
    decreases events.len(),
{
    events.len() == 0 || (orderly(present, events.drop_last()) && permits(
        live_after(present, events.drop_last()),
        events.last(),
    ))
}

/// Events that are orderly one run after the other are orderly together.
pub proof fn lemma_orderly_concat<A>(present: Set<i32>, a: Seq<Event<A>>, b: Seq<Event<A>>)
    requires
        orderly(present, a),
        orderly(live_after(present, a), b),
    ensures
        orderly(present, a + b),
        live_after(present, a + b) == live_after(live_after(present, a), b),
    decreases b.len(),
{
    if b.len() == 0 {
        assert(a + b =~= a);
    } else {
        lemma_orderly_concat(present, a, b.drop_last());
        assert((a + b).drop_last() =~= a + b.drop_last());
        assert((a + b).last() == b.last());
    }
}

proof fn lemma_live_push<A>(entries: Seq<Entry<A>>, e: Entry<A>)
    ensures
        live(entries.push(e)) == live(entries).insert(e.session_id),
{
    let longer = entries.push(e);
    assert forall|id: i32| live(longer).contains(id) <==> live(entries).insert(
        e.session_id,
    ).contains(id) by {
        lemma_known(entries, id);
        lemma_known(longer, id);
        if known(entries, id) {
            let p = slot(entries, id);
            assert(longer[p].session_id == id);
        }
        if id == e.session_id {
            assert(longer[entries.len() as int].session_id == id);
        }
        if known(longer, id) && id != e.session_id {
            let p = slot(longer, id);
            assert(p < entries.len());
            assert(entries[p].session_id == id);
        }
    }
    assert(live(longer) =~= live(entries).insert(e.session_id));
}

proof fn lemma_live_same_sessions<A>(a: Seq<Entry<A>>, b: Seq<Entry<A>>)
    requires
        a.len() == b.len(),
        forall|p: int| 0 <= p < a.len() ==> (#[trigger] a[p]).session_id == b[p].session_id,
    ensures
        live(a) == live(b),
{
    assert forall|id: i32| live(a).contains(id) <==> live(b).contains(id) by {
        lemma_known(a, id);
        lemma_known(b, id);
        if known(a, id) {
            assert(b[slot(a, id)].session_id == a[slot(a, id)].session_id);
        }
        if known(b, id) {
            assert(a[slot(b, id)].session_id == b[slot(b, id)].session_id);
        }
    }
    assert(live(a) =~= live(b));
}

/// The adds of the sets taken in so far are orderly, and lead from the
/// sessions that were live to those that the table holds.
proof fn lemma_adds_orderly<A>(
    start: Seq<Entry<A>>,
    sets: Seq<(i32, A)>,
    now: u64,
    rs: Seq<A>,
    alive: Option<Seq<i32>>,
    k: int,
)
    ensures
        orderly(live(start), apply_sets(start, sets, now, rs, alive, k).adds),
        live_after(live(start), apply_sets(start, sets, now, rs, alive, k).adds) == live(
            apply_sets(start, sets, now, rs, alive, k).entries,
        ),
    decreases k,
{
    if k > 0 {
        lemma_adds_orderly(start, sets, now, rs, alive, k - 1);
        let ph = apply_sets(start, sets, now, rs, alive, k - 1);
        let next = apply_sets(start, sets, now, rs, alive, k);
        let id = sets[k - 1].0;
        let p = slot(ph.entries, id);
        lemma_known(ph.entries, id);
        if !known(ph.entries, id) {
            assert(next.adds.drop_last() =~= ph.adds);
            lemma_live_push(
                ph.entries,
                Entry { session_id: id, seen_at: now, state: sets[k - 1].1 },
            );
        } else if ph.entries[p].seen_at < now {
            lemma_live_same_sessions(ph.entries, next.entries);
        } else {
        }
    }
}

/// Updates for live sessions are orderly, and change nothing about who is
/// live.
proof fn lemma_updates_orderly<A>(present: Set<i32>, updates: Seq<Event<A>>)
    requires
        forall|j: int|
            0 <= j < updates.len() ==> (#[trigger] updates[j]) is Update && present.contains(
                updates[j].session(),
            ),
    ensures
        orderly(present, updates),
        live_after(present, updates) == present,
    decreases updates.len(),
{
    if updates.len() > 0 {
        lemma_updates_orderly(present, updates.drop_last());
        assert(updates.last() == updates[updates.len() - 1]);
    }
}

/// The sessions of those of the first `k` entries that leave.
pub open spec fn departed<A>(
    entries: Seq<Entry<A>>,
    base: int,
    alive: Option<Seq<i32>>,
    k: int,
) -> Set<i32> {
    Set::new(
        |id: i32|
            exists|q: int|
                0 <= q < k && (#[trigger] entries[q]).session_id == id && leaves(
                    entries[q],
                    q,
                    base,
                    alive,
                ),
    )
}

/// The sessions of those of the first `k` entries that stay.
pub open spec fn staying<A>(
    entries: Seq<Entry<A>>,
    base: int,
    alive: Option<Seq<i32>>,
    k: int,
) -> Set<i32> {
    Set::new(
        |id: i32|
            exists|q: int|
                0 <= q < k && (#[trigger] entries[q]).session_id == id && !leaves(
                    entries[q],
                    q,
                    base,
                    alive,
                ),
    )
}

proof fn lemma_push_distinct<A>(entries: Seq<Entry<A>>, e: Entry<A>)
    requires
        distinct(entries),
        !known(entries, e.session_id),
    ensures
        distinct(entries.push(e)),
{
    lemma_known(entries, e.session_id);
}

/// The entries that stay hold no session twice, and hold exactly the
/// sessions of the entries that do not leave.
proof fn lemma_kept_live<A>(entries: Seq<Entry<A>>, base: int, alive: Option<Seq<i32>>, k: int)
    requires
        distinct(entries),
        0 <= k <= entries.len(),
    ensures
        distinct(kept(entries, base, alive, k)),
        live(kept(entries, base, alive, k)) == staying(entries, base, alive, k),
    decreases k,
{
    if k > 0 {
        lemma_kept_live(entries, base, alive, k - 1);
        let before = kept(entries, base, alive, k - 1);
        let e = entries[k - 1];
        if leaves(e, k - 1, base, alive) {
            assert(staying(entries, base, alive, k) =~= staying(entries, base, alive, k - 1));
        } else {
            assert(!known(before, e.session_id)) by {
                if known(before, e.session_id) {
                    assert(staying(entries, base, alive, k - 1).contains(e.session_id));
                }
            }
            lemma_push_distinct(before, e);
            lemma_live_push(before, e);
            assert(staying(entries, base, alive, k) =~= staying(
                entries,
                base,
                alive,
                k - 1,
            ).insert(e.session_id));
        }
    } else {
        assert forall|id: i32| !live(kept(entries, base, alive, k)).contains(id) by {
            lemma_known(kept(entries, base, alive, k), id);
        }
        assert(live(kept(entries, base, alive, k)) =~= staying(entries, base, alive, k));
    }
}

/// The removes are orderly after everything else, and take away exactly
/// the sessions of the entries that leave.
proof fn lemma_removes_orderly<A>(
    entries: Seq<Entry<A>>,
    base: int,
    alive: Option<Seq<i32>>,
    k: int,
)
    requires
        distinct(entries),
        0 <= k <= entries.len(),
    ensures
        orderly(live(entries), removed(entries, base, alive, k)),
        live_after(live(entries), removed(entries, base, alive, k)) == live(entries).difference(
            departed(entries, base, alive, k),
        ),
    decreases k,
{
    if k > 0 {
        lemma_removes_orderly(entries, base, alive, k - 1);
        let before = removed(entries, base, alive, k - 1);
        let e = entries[k - 1];
        if leaves(e, k - 1, base, alive) {
            let now = removed(entries, base, alive, k);
            assert(now.drop_last() =~= before);
            assert(live(entries).contains(e.session_id)) by {
                lemma_known(entries, e.session_id);
            }
            assert(!departed(entries, base, alive, k - 1).contains(e.session_id));
            assert(live(entries).difference(departed(entries, base, alive, k)) =~= live(
                entries,
            ).difference(departed(entries, base, alive, k - 1)).remove(e.session_id));
        } else {
            assert(departed(entries, base, alive, k) =~= departed(entries, base, alive, k - 1));
        }
    } else {
        assert(live(entries).difference(departed(entries, base, alive, k)) =~= live(entries));
    }
}

/// Who stays is who was there and did not leave.
proof fn lemma_staying_is_rest<A>(entries: Seq<Entry<A>>, base: int, alive: Option<Seq<i32>>)
    requires
        distinct(entries),
    ensures
        staying(entries, base, alive, entries.len() as int) == live(entries).difference(
            departed(entries, base, alive, entries.len() as int),
        ),
{
    let n = entries.len() as int;
    assert forall|id: i32|
        staying(entries, base, alive, n).contains(id) <==> live(entries).difference(
            departed(entries, base, alive, n),
        ).contains(id) by {
        lemma_known(entries, id);
        if known(entries, id) && !departed(entries, base, alive, n).contains(id) {
            let q = slot(entries, id);
            assert(entries[q].session_id == id);
            assert(!leaves(entries[q], q, base, alive));
        }
    }
    assert(staying(entries, base, alive, n) =~= live(entries).difference(
        departed(entries, base, alive, n),
    ));
}

/// Every accepted frame keeps the table in order and tells the truth about
/// it: no session stands twice afterwards; the events, read in order from
/// the sessions that were live before, add only what is not live and update
/// or remove only what is; and the sessions live after the last event are
/// exactly those in the table.
pub proof fn lemma_frame_is_orderly<A>(t: TableModel<A>, f: FrameModel<A>, now: u64, rs: Seq<A>)
    requires
        t.wf(),
    ensures
        reconcile(t, f, now, rs).table.wf(),
        orderly(live(t.entries), reconcile(t, f, now, rs).events),
        live_after(live(t.entries), reconcile(t, f, now, rs).events) == live(
            reconcile(t, f, now, rs).table.entries,
        ),
{
    let k = f.sets.len() as int;
    let ph = apply_sets(t.entries, f.sets, now, rs, f.alive, k);
    let base = t.entries.len() as int;
    let n = ph.entries.len() as int;
    let gone = removed(ph.entries, base, f.alive, n);
    lemma_sets_keep_grown(t.entries, f.sets, now, rs, f.alive, k);
    lemma_adds_orderly(t.entries, f.sets, now, rs, f.alive, k);
    assert forall|j: int| 0 <= j < ph.updates.len() implies (#[trigger] ph.updates[j]) is Update
        && live(ph.entries).contains(ph.updates[j].session()) by {
        let id = ph.updates[j].session();
        lemma_known(t.entries, id);
        lemma_known(ph.entries, id);
        let p = slot(t.entries, id);
        assert(ph.entries[p].session_id == id);
    }
    lemma_updates_orderly(live(ph.entries), ph.updates);
    lemma_orderly_concat(live(t.entries), ph.adds, ph.updates);
    lemma_removes_orderly(ph.entries, base, f.alive, n);
    lemma_orderly_concat(live(t.entries), ph.adds + ph.updates, gone);
    lemma_kept_live(ph.entries, base, f.alive, n);
    lemma_staying_is_rest(ph.entries, base, f.alive);
}

/// One frame as the table met it: what it said, when it came, and the
/// states that the host derived for its sets where it was asked.
pub struct Step<A> {
    pub frame: FrameModel<A>,
    pub now: u64,
    pub answers: Seq<A>,
}

/// What one frame leaves behind: nothing if it is stale, else what
/// `reconcile` says.
pub open spec fn step<A>(t: TableModel<A>, s: Step<A>) -> Outcome<A> {
    if stale(t.last_fseq, s.frame.fseq) {
        Outcome { table: t, events: Seq::empty(), faults: Seq::empty() }
    } else {
        reconcile(t, s.frame, s.now, s.answers)
    }
}

/// The table after a run of frames.
pub open spec fn table_after<A>(t: TableModel<A>, steps: Seq<Step<A>>) -> TableModel<A>
    decreases steps.len(),
{
    if steps.len() == 0 {
        t
    } else {
        step(table_after(t, steps.drop_last()), steps.last()).table
    }
}

/// All the events of a run of frames, in the order they were reported.
pub open spec fn trace<A>(t: TableModel<A>, steps: Seq<Step<A>>) -> Seq<Event<A>>
    decreases steps.len(),
{
    if steps.len() == 0 {
        Seq::empty()
    } else {
        trace(t, steps.drop_last()) + step(table_after(t, steps.drop_last()), steps.last()).events
    }
}

/// A stale frame does nothing: no event, and the table as it was, whatever
/// the frame holds.
pub proof fn lemma_stale_frame_is_idle<A>(t: TableModel<A>, s: Step<A>)
    requires
        0 <= s.frame.fseq <= t.last_fseq,
    ensures
        step(t, s).table == t,
        step(t, s).events.len() == 0,
{
}

/// A frame delivered a second time, right after it was accepted, is stale:
/// no event, and the table as the first delivery left it.
pub proof fn lemma_replay_is_idle<A>(t: TableModel<A>, s: Step<A>, again: Step<A>)
    requires
        s.frame.fseq >= 0,
        again.frame == s.frame,
    ensures
        step(step(t, s).table, again).table == step(t, s).table,
        step(step(t, s).table, again).events.len() == 0,
{
}

/// Over any run of frames, from any table in order: the table stays in
/// order; each session is added only while it is not live, and updated or
/// removed only while it is, so that its events read add, updates, remove;
/// and the sessions in the table at the end are exactly those added and not
/// removed since.
pub proof fn lemma_run_is_orderly<A>(t: TableModel<A>, steps: Seq<Step<A>>)
    requires
        t.wf(),
    ensures
        table_after(t, steps).wf(),
        orderly(live(t.entries), trace(t, steps)),
        live_after(live(t.entries), trace(t, steps)) == live(table_after(t, steps).entries),
    decreases steps.len(),
{
    if steps.len() > 0 {
        let before = steps.drop_last();
        let last = steps.last();
        lemma_run_is_orderly(t, before);
        let mid = table_after(t, before);
        if !stale(mid.last_fseq, last.frame.fseq) {
            lemma_frame_is_orderly(mid, last.frame, last.now, last.answers);
        }
        lemma_orderly_concat(live(t.entries), trace(t, before), step(mid, last).events);
    }
}

/// A set that meets an entity observed at `now` or later changes nothing and
/// is reported as a format error: no motion is derived over no time.
pub proof fn lemma_no_time_no_update<A>(
    ph: Phase<A>,
    i: int,
    set: (i32, A),
    now: u64,
    r: A,
    alive: Option<Seq<i32>>,
)
    requires
        known(ph.entries, set.0),
        ph.entries[slot(ph.entries, set.0)].seen_at >= now,
    ensures
        apply_set(ph, i, set, now, r, alive) == (Phase {
            faults: ph.faults.push(Fault { index: i as usize, error: TuioError::FormatError }),
            ..ph
        }),
{
}

/// Of two sets for one session in one frame, the second is refused: once a
/// set was taken in at `now`, whatever it did, another for the same session
/// at the same `now` changes nothing and is reported as a format error.
pub proof fn lemma_second_set_is_refused<A>(
    ph: Phase<A>,
    i: int,
    j: int,
    first: (i32, A),
    second: (i32, A),
    now: u64,
    r1: A,
    r2: A,
    alive: Option<Seq<i32>>,
)
    requires
        first.0 == second.0,
    ensures
        apply_set(apply_set(ph, i, first, now, r1, alive), j, second, now, r2, alive) == (Phase {
            faults: apply_set(ph, i, first, now, r1, alive).faults.push(
                Fault { index: j as usize, error: TuioError::FormatError },
            ),
            ..apply_set(ph, i, first, now, r1, alive)
        }),
{
    let id = first.0;
    let mid = apply_set(ph, i, first, now, r1, alive);
    lemma_known(ph.entries, id);
    lemma_known(mid.entries, id);
    if !known(ph.entries, id) {
        assert(mid.entries[ph.entries.len() as int].session_id == id);
        lemma_find_from(mid.entries, id, 0);
        let p = slot(mid.entries, id);
        if p < ph.entries.len() {
            assert(ph.entries[p].session_id == id);
        }
    } else {
        let p = slot(ph.entries, id);
        lemma_find_from(ph.entries, id, 0);
        lemma_find_from(mid.entries, id, 0);
        let q = slot(mid.entries, id);
        assert(mid.entries[p].session_id == id);
        if q < p {
            assert(ph.entries[q].session_id == mid.entries[q].session_id);
        }
        assert(q == p);
    }
}

proof fn lemma_session_stays_known<A>(
    start: Seq<Entry<A>>,
    sets: Seq<(i32, A)>,
    now: u64,
    rs: Seq<A>,
    alive: Option<Seq<i32>>,
    i: int,
    k: int,
)
    requires
        0 <= i < k,
    ensures
        known(apply_sets(start, sets, now, rs, alive, k).entries, sets[i].0),
    decreases k,
{
    let id = sets[i].0;
    let ph = apply_sets(start, sets, now, rs, alive, k - 1);
    let next = apply_sets(start, sets, now, rs, alive, k);
    let last = sets[k - 1].0;
    lemma_known(ph.entries, id);
    lemma_known(next.entries, id);
    lemma_known(ph.entries, last);
    if k - 1 > i {
        lemma_session_stays_known(start, sets, now, rs, alive, i, k - 1);
        let p = slot(ph.entries, id);
        assert(next.entries[p].session_id == id);
    } else if known(ph.entries, id) {
        let p = slot(ph.entries, id);
        assert(next.entries[p].session_id == id);
    } else {
        assert(next.entries[ph.entries.len() as int].session_id == id);
    }
}

proof fn lemma_removed_holds<A>(
    entries: Seq<Entry<A>>,
    base: int,
    alive: Option<Seq<i32>>,
    k: int,
    q: int,
)
    requires
        0 <= q < k <= entries.len(),
        leaves(entries[q], q, base, alive),
    ensures
        exists|j: int|
            0 <= j < removed(entries, base, alive, k).len() && #[trigger] removed(
                entries,
                base,
                alive,
                k,
            )[j] == Event::Remove(entries[q].session_id, entries[q].state),
    decreases k,
{
    let now = removed(entries, base, alive, k);
    if q == k - 1 {
        assert(now[now.len() - 1] == Event::Remove(entries[q].session_id, entries[q].state));
    } else {
        lemma_removed_holds(entries, base, alive, k - 1, q);
        let before = removed(entries, base, alive, k - 1);
        let j = choose|j: int|
            0 <= j < before.len() && #[trigger] before[j] == Event::Remove(
                entries[q].session_id,
                entries[q].state,
            );
        assert(now[j] == before[j]);
    }
}

/// A session that a frame describes and the table did not hold is added by
/// that frame, and is in the table afterwards.
pub proof fn lemma_new_session_is_added<A>(
    t: TableModel<A>,
    f: FrameModel<A>,
    now: u64,
    rs: Seq<A>,
    i: int,
)
    requires
        t.wf(),
        0 <= i < f.sets.len(),
        !known(t.entries, f.sets[i].0),
    ensures
        exists|j: int|
            0 <= j < reconcile(t, f, now, rs).events.len() && (#[trigger] reconcile(
                t,
                f,
                now,
                rs,
            ).events[j]) is Add && reconcile(t, f, now, rs).events[j].session() == f.sets[i].0,
        known(reconcile(t, f, now, rs).table.entries, f.sets[i].0),
{
    let id = f.sets[i].0;
    let k = f.sets.len() as int;
    let ph = apply_sets(t.entries, f.sets, now, rs, f.alive, k);
    let base = t.entries.len() as int;
    let n = ph.entries.len() as int;
    let out = reconcile(t, f, now, rs);
    lemma_sets_keep_grown(t.entries, f.sets, now, rs, f.alive, k);
    lemma_session_stays_known(t.entries, f.sets, now, rs, f.alive, i, k);
    lemma_known(ph.entries, id);
    lemma_known(t.entries, id);
    let p = slot(ph.entries, id);
    if p < base {
        assert(ph.entries[p].session_id == t.entries[p].session_id);
    }
    assert(base <= p < n);
    assert(ph.adds[p - base] == Event::Add(ph.entries[p].session_id, ph.entries[p].state));
    assert(out.events[p - base] == ph.adds[p - base]);
    lemma_kept_live(ph.entries, base, f.alive, n);
    assert(!leaves(ph.entries[p], p, base, f.alive));
    assert(staying(ph.entries, base, f.alive, n).contains(id));
    assert(live(out.table.entries).contains(id));
}

/// A session that the table held and that the alive list of a frame rules
/// out is removed by that frame, and is not in the table afterwards.
pub proof fn lemma_departed_session_is_removed<A>(
    t: TableModel<A>,
    f: FrameModel<A>,
    now: u64,
    rs: Seq<A>,
    id: i32,
)
    requires
        t.wf(),
        known(t.entries, id),
        !listed(f.alive, id),
    ensures
        exists|j: int|
            0 <= j < reconcile(t, f, now, rs).events.len() && (#[trigger] reconcile(
                t,
                f,
                now,
                rs,
            ).events[j]) is Remove && reconcile(t, f, now, rs).events[j].session() == id,
        !known(reconcile(t, f, now, rs).table.entries, id),
{
    let k = f.sets.len() as int;
    let ph = apply_sets(t.entries, f.sets, now, rs, f.alive, k);
    let base = t.entries.len() as int;
    let n = ph.entries.len() as int;
    let out = reconcile(t, f, now, rs);
    let gone = removed(ph.entries, base, f.alive, n);
    lemma_sets_keep_grown(t.entries, f.sets, now, rs, f.alive, k);
    lemma_known(t.entries, id);
    let p = slot(t.entries, id);
    assert(ph.entries[p].session_id == id);
    assert(leaves(ph.entries[p], p, base, f.alive));
    lemma_removed_holds(ph.entries, base, f.alive, n, p);
    let j = choose|j: int|
        0 <= j < gone.len() && #[trigger] gone[j] == Event::Remove(
            ph.entries[p].session_id,
            ph.entries[p].state,
        );
    let at = ph.adds.len() + ph.updates.len() + j;
    assert(out.events[at] == gone[j]);
    lemma_kept_live(ph.entries, base, f.alive, n);
    lemma_staying_is_rest(ph.entries, base, f.alive);
    assert(departed(ph.entries, base, f.alive, n).contains(id));
    assert(!live(out.table.entries).contains(id));
}

/// A session that the table held and that a frame does not rule out is
/// still in the table afterwards.
pub proof fn lemma_listed_session_stays<A>(
    t: TableModel<A>,
    f: FrameModel<A>,
    now: u64,
    rs: Seq<A>,
    id: i32,
)
    requires
        t.wf(),
        known(t.entries, id),
        listed(f.alive, id),
    ensures
        known(reconcile(t, f, now, rs).table.entries, id),
{
    let k = f.sets.len() as int;
    let ph = apply_sets(t.entries, f.sets, now, rs, f.alive, k);
    let base = t.entries.len() as int;
    let n = ph.entries.len() as int;
    let out = reconcile(t, f, now, rs);
    lemma_sets_keep_grown(t.entries, f.sets, now, rs, f.alive, k);
    lemma_known(t.entries, id);
    let p = slot(t.entries, id);
    assert(ph.entries[p].session_id == id);
    assert(!leaves(ph.entries[p], p, base, f.alive));
    lemma_kept_live(ph.entries, base, f.alive, n);
    assert(staying(ph.entries, base, f.alive, n).contains(id));
    assert(live(out.table.entries).contains(id));
}

/// One of the first `k` sets is for the session `id`.
pub open spec fn named_before<A>(sets: Seq<(i32, A)>, k: int, id: i32) -> bool {
    exists|j: int| 0 <= j < k && (#[trigger] sets[j]).0 == id
}

/// How the table stands after the first `k` sets, told from the table
/// before the frame: an entry that was there has moved on to `now` if a set
/// named it and it was observed before `now`, and is untouched otherwise;
/// every entry behind those is new, observed at `now`, and named by a set;
/// and every session that a set named is in the table.
spec fn traced<A>(start: Seq<Entry<A>>, sets: Seq<(i32, A)>, now: u64, ph: Phase<A>, k: int) -> bool {
    &&& ph.entries.len() >= start.len()
    &&& forall|p: int|
        0 <= p < start.len() ==> (#[trigger] ph.entries[p]).session_id == start[p].session_id
    &&& forall|p: int|
        0 <= p < start.len() ==> if named_before(sets, k, start[p].session_id) && start[p].seen_at
            < now {
            (#[trigger] ph.entries[p]).seen_at == now
        } else {
            ph.entries[p] == start[p]
        }
    &&& forall|p: int|
        start.len() <= p < ph.entries.len() ==> (#[trigger] ph.entries[p]).seen_at == now
            && named_before(sets, k, ph.entries[p].session_id)
    &&& forall|j: int| 0 <= j < k ==> known(ph.entries, (#[trigger] sets[j]).0)
}

proof fn lemma_named_before_grows<A>(sets: Seq<(i32, A)>, k: int, id: i32)
    requires
        0 <= k < sets.len(),
    ensures
        named_before(sets, k + 1, id) <==> named_before(sets, k, id) || sets[k].0 == id,
{
    if named_before(sets, k, id) {
        let j = choose|j: int| 0 <= j < k && (#[trigger] sets[j]).0 == id;
        assert(0 <= j < k + 1 && sets[j].0 == id);
    }
    if sets[k].0 == id {
        assert(0 <= k < k + 1 && sets[k].0 == id);
    }
}

proof fn lemma_sets_are_traced<A>(
    start: Seq<Entry<A>>,
    sets: Seq<(i32, A)>,
    now: u64,
    rs: Seq<A>,
    alive: Option<Seq<i32>>,
    k: int,
)
    requires
        distinct(start),
        0 <= k <= sets.len(),
    ensures
        traced(start, sets, now, apply_sets(start, sets, now, rs, alive, k), k),
    decreases k,
{
    if k > 0 {
        lemma_sets_are_traced(start, sets, now, rs, alive, k - 1);
        lemma_sets_keep_grown(start, sets, now, rs, alive, k - 1);
        let ph = apply_sets(start, sets, now, rs, alive, k - 1);
        let next = apply_sets(start, sets, now, rs, alive, k);
        let id = sets[k - 1].0;
        let q = slot(ph.entries, id);
        lemma_known(ph.entries, id);
        assert forall|x: i32| named_before(sets, k, x) <==> named_before(sets, k - 1, x) || x
            == id by {
            lemma_named_before_grows(sets, k - 1, x);
        }
        assert forall|j: int| 0 <= j < k implies known(next.entries, (#[trigger] sets[j]).0) by {
            let x = sets[j].0;
            lemma_known(ph.entries, x);
            lemma_known(next.entries, x);
            if j < k - 1 {
                let at = slot(ph.entries, x);
                assert(next.entries[at].session_id == x);
            } else if known(ph.entries, id) {
                assert(next.entries[q].session_id == id);
            } else {
                assert(next.entries[ph.entries.len() as int].session_id == id);
            }
        }
        if !known(ph.entries, id) {
            assert forall|p: int| 0 <= p < start.len() implies if named_before(
                sets,
                k,
                start[p].session_id,
            ) && start[p].seen_at < now {
                (#[trigger] next.entries[p]).seen_at == now
            } else {
                next.entries[p] == start[p]
            } by {
                assert(next.entries[p] == ph.entries[p]);
                assert(ph.entries[p].session_id == start[p].session_id);
            }
            assert forall|p: int| start.len() <= p < next.entries.len() implies (
            #[trigger] next.entries[p]).seen_at == now && named_before(
                sets,
                k,
                next.entries[p].session_id,
            ) by {
                if p < ph.entries.len() {
                    assert(next.entries[p] == ph.entries[p]);
                }
            }
        } else if ph.entries[q].seen_at < now {
            assert(q < start.len());
            assert(ph.entries[q] == start[q]);
            assert forall|p: int| 0 <= p < start.len() implies if named_before(
                sets,
                k,
                start[p].session_id,
            ) && start[p].seen_at < now {
                (#[trigger] next.entries[p]).seen_at == now
            } else {
                next.entries[p] == start[p]
            } by {
                assert(ph.entries[p].session_id == start[p].session_id);
                if p != q {
                    assert(next.entries[p] == ph.entries[p]);
                    assert(ph.entries[p].session_id != ph.entries[q].session_id);
                }
            }
            assert forall|p: int| start.len() <= p < next.entries.len() implies (
            #[trigger] next.entries[p]).seen_at == now && named_before(
                sets,
                k,
                next.entries[p].session_id,
            ) by {
                assert(next.entries[p] == ph.entries[p]);
            }
        } else {
            assert forall|p: int| 0 <= p < start.len() implies if named_before(
                sets,
                k,
                start[p].session_id,
            ) && start[p].seen_at < now {
                (#[trigger] next.entries[p]).seen_at == now
            } else {
                next.entries[p] == start[p]
            } by {
                assert(ph.entries[p].session_id == start[p].session_id);
                if p == q {
                    assert(ph.entries[p].seen_at >= now);
                } else if q < start.len() {
                    assert(ph.entries[p].session_id != ph.entries[q].session_id);
                }
            }
        }
    } else {
        assert forall|p: int| 0 <= p < start.len() implies !named_before(
            sets,
            k,
            (#[trigger] start[p]).session_id,
        ) by {}
    }
}

/// What a set meets depends only on the table before the frame and on the
/// sets before it. It creates its session exactly when the table did not
/// hold the session and no earlier set of the frame named it. The host is
/// asked exactly when the table held the session, observed before `now`, and
/// no earlier set named it; and then the set meets the entry as it was
/// before the frame, so that the host gets the state and the time of the
/// last observation before this frame. So in one frame a session is created
/// or moved on at most once.
pub proof fn lemma_set_meets_the_table_before<A>(
    start: Seq<Entry<A>>,
    sets: Seq<(i32, A)>,
    now: u64,
    rs: Seq<A>,
    alive: Option<Seq<i32>>,
    i: int,
)
    requires
        distinct(start),
        0 <= i < sets.len(),
    ensures
        !known(apply_sets(start, sets, now, rs, alive, i).entries, sets[i].0) <==> !known(
            start,
            sets[i].0,
        ) && !named_before(sets, i, sets[i].0),
        asks(apply_sets(start, sets, now, rs, alive, i).entries, sets[i].0, now) <==> known(
            start,
            sets[i].0,
        ) && start[slot(start, sets[i].0)].seen_at < now && !named_before(sets, i, sets[i].0),
        asks(apply_sets(start, sets, now, rs, alive, i).entries, sets[i].0, now) ==> apply_sets(
            start,
            sets,
            now,
            rs,
            alive,
            i,
        ).entries[slot(apply_sets(start, sets, now, rs, alive, i).entries, sets[i].0)]
            == start[slot(start, sets[i].0)],
{
    let ph = apply_sets(start, sets, now, rs, alive, i);
    let id = sets[i].0;
    lemma_sets_are_traced(start, sets, now, rs, alive, i);
    lemma_sets_keep_grown(start, sets, now, rs, alive, i);
    lemma_known(ph.entries, id);
    lemma_known(start, id);
    if known(start, id) {
        let p = slot(start, id);
        assert(ph.entries[p].session_id == id);
        let q = slot(ph.entries, id);
        assert(q == p);
    } else if known(ph.entries, id) {
        let q = slot(ph.entries, id);
        if q < start.len() {
            assert(ph.entries[q].session_id == start[q].session_id);
        }
        assert(q >= start.len());
    } else {
        if named_before(sets, i, id) {
            let j = choose|j: int| 0 <= j < i && (#[trigger] sets[j]).0 == id;
            assert(known(ph.entries, sets[j].0));
        }
    }
}

} // verus!
